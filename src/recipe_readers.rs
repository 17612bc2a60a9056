//! Reading recipes from the lines of a recipe data file.
//!
//! Lines are trimmed; a line starting with `#` is dropped; blank lines
//! separate blocks. A block is one recipe:
//!
//! ```text
//! recipe_block    := ingredient_line+ arrow_line ingredient_line+ nametag_line?
//! ingredient_line := digits " "+ product_name
//! arrow_line      := "^" " "* [0-9./]+ " "* "s" " "* "(" category_name ")"
//! nametag_line    := "<>" " "* recipe_name        (only as the block's last line)
//! ```
//!
//! Product and category names may be abbreviated; reading the file first
//! rewrites each abbreviation to the full name that it stands for.

use vstd::prelude::*;
use crate::abbreviations::{
    lemma_resolution_outcome, resolvable, resolved, AbbreviationResolver,
};
use crate::error::Error;
use crate::facilities::FacilityCategory;
use crate::products::{same_text, trim_of, trimmed, ProductQuantity};
use crate::rates::Time;
use crate::rational::fits;
use crate::rational_literals::{rational_text_value, readrational, text_rational};
use crate::recipes::{built_from, IngredientView, Recipe};
use crate::text::{
    all_digits, chars_of, digits_to_i64, digits_value, lemma_run_bounds, run, run_end, text_of,
    CharClass,
};

verus! {

/// An ingredient line: its run of digits and its name.
pub open spec fn ingredient_form(l: Seq<char>) -> Option<(Seq<char>, Seq<char>)> {
    let d = run(l, 0, CharClass::Digit);
    let e = run(l, d, CharClass::Space);
    if d > 0 && e > d && e < l.len() {
        Some((l.subrange(0, d), l.subrange(e, l.len() as int)))
    } else {
        None
    }
}

/// An arrow line: its time text and its category name.
pub open spec fn arrow_form(l: Seq<char>) -> Option<(Seq<char>, Seq<char>)> {
    if l.len() > 0 && l[0] == '^' {
        let a = run(l, 1, CharClass::Space);
        let b = run(l, a, CharClass::Numeral);
        let c = run(l, b, CharClass::Space);
        if b > a && c < l.len() && l[c] == 's' {
            let f = run(l, c + 1, CharClass::Space);
            if f + 1 < l.len() - 1 && l[f] == '(' && l.last() == ')' {
                Some((l.subrange(a, b), l.subrange(f + 1, l.len() - 1)))
            } else {
                None
            }
        } else {
            None
        }
    } else {
        None
    }
}

/// A nametag line: the recipe name it gives.
pub open spec fn nametag_form(l: Seq<char>) -> Option<Seq<char>> {
    if l.len() >= 2 && l[0] == '<' && l[1] == '>' {
        let a = run(l, 2, CharClass::Space);
        if a < l.len() {
            Some(l.subrange(a, l.len() as int))
        } else {
            None
        }
    } else {
        None
    }
}

/// An ingredient line whose count fits in an `i64` and whose name is not blank.
pub open spec fn ingredient_ok(l: Seq<char>) -> bool {
    &&& ingredient_form(l) is Some
    &&& digits_value(ingredient_form(l)->Some_0.0) <= i64::MAX
    &&& trim_of(ingredient_form(l)->Some_0.1).len() > 0
}

pub open spec fn ingredient_of(l: Seq<char>) -> IngredientView {
    (digits_value(ingredient_form(l)->Some_0.0) as i64, trim_of(ingredient_form(l)->Some_0.1))
}

/// Where the run of ingredient lines that starts at line `i` ends.
pub open spec fn ingredients_end(b: Seq<Seq<char>>, i: int) -> int
    decreases b.len() - i,
{
    if 0 <= i < b.len() && ingredient_form(b[i]) is Some {
        ingredients_end(b, i + 1)
    } else {
        i
    }
}

pub open spec fn outputs_end(b: Seq<Seq<char>>) -> int {
    ingredients_end(b, 0)
}

pub open spec fn inputs_end(b: Seq<Seq<char>>) -> int {
    ingredients_end(b, outputs_end(b) + 1)
}

/// The outputs are followed by an arrow line.
pub open spec fn has_arrow(b: Seq<Seq<char>>) -> bool {
    outputs_end(b) < b.len() && arrow_form(b[outputs_end(b)]) is Some
}

/// A line follows the inputs without being the block's last line.
pub open spec fn nametag_misplaced(b: Seq<Seq<char>>) -> bool {
    inputs_end(b) + 1 < b.len()
}

/// The last line follows the inputs but is no nametag line.
pub open spec fn nametag_malformed(b: Seq<Seq<char>>) -> bool {
    inputs_end(b) + 1 == b.len() && nametag_form(b[inputs_end(b)]) is None
}

pub open spec fn arrow_of(b: Seq<Seq<char>>) -> (Seq<char>, Seq<char>) {
    arrow_form(b[outputs_end(b)])->Some_0
}

pub open spec fn lines_ok(b: Seq<Seq<char>>, from: int, to: int) -> bool {
    forall|k: int| from <= k < to ==> ingredient_ok(#[trigger] b[k])
}

pub open spec fn ingredients_of(b: Seq<Seq<char>>, from: int, to: int) -> Seq<IngredientView> {
    Seq::new((to - from) as nat, |k: int| ingredient_of(b[from + k]))
}

/// The values that a well-formed block holds can be read: the counts, the
/// names, the time and the category.
pub open spec fn values_ok(b: Seq<Seq<char>>) -> bool {
    &&& lines_ok(b, 0, outputs_end(b))
    &&& lines_ok(b, outputs_end(b) + 1, inputs_end(b))
    &&& rational_text_value(arrow_of(b).0) is Some
    &&& fits(text_rational(arrow_of(b).0))
    &&& trim_of(arrow_of(b).1).len() > 0
}

/// The name given by the block's nametag line, if it has one.
pub open spec fn tag_of(b: Seq<Seq<char>>) -> Option<Seq<char>> {
    if inputs_end(b) < b.len() {
        Some(nametag_form(b[inputs_end(b)])->Some_0)
    } else {
        None
    }
}

/// A recipe can be made of what the block holds: both lists non-empty, and a
/// name that is not blank, or else exactly one output to be named after.
pub open spec fn recipe_ok(b: Seq<Seq<char>>) -> bool {
    &&& outputs_end(b) > 0
    &&& inputs_end(b) > outputs_end(b) + 1
    &&& match tag_of(b) {
        Some(t) => trim_of(t).len() > 0,
        None => outputs_end(b) == 1,
    }
}

/// The block has its arrow line where the grammar wants it and, after the
/// inputs, at most a nametag line as its last line.
pub open spec fn well_shaped(b: Seq<Seq<char>>) -> bool {
    has_arrow(b) && !nametag_misplaced(b) && !nametag_malformed(b)
}

/// The block's nametag gives a blank name.
pub open spec fn tag_blank(b: Seq<Seq<char>>) -> bool {
    match tag_of(b) {
        Some(t) => trim_of(t).len() == 0,
        None => false,
    }
}

/// The recipe's name: the nametag's, else its one output's.
pub open spec fn recipe_name(b: Seq<Seq<char>>) -> Seq<char> {
    match tag_of(b) {
        Some(t) => trim_of(t),
        None => ingredient_of(b[0]).1,
    }
}

proof fn lemma_ingredients_end(b: Seq<Seq<char>>, i: int)
    requires
        0 <= i <= b.len(),
    ensures
        i <= ingredients_end(b, i) <= b.len(),
        forall|k: int| i <= k < ingredients_end(b, i) ==> ingredient_form(#[trigger] b[k]) is Some,
        ingredients_end(b, i) < b.len() ==> ingredient_form(b[ingredients_end(b, i)]) is None,
    decreases b.len() - i,
{
    if i < b.len() && ingredient_form(b[i]) is Some {
        lemma_ingredients_end(b, i + 1);
    }
}

pub open spec fn lines_view(v: Seq<String>) -> Seq<Seq<char>> {
    v.map_values(|s: String| s@)
}

/// The ingredient that line `l` gives, if it is an ingredient line.
fn ingredient_line(l: &str) -> (r: Result<Option<ProductQuantity<i64>>, Error>)
    ensures
        ingredient_form(l@) is None ==> r matches Ok(None),
        ingredient_form(l@) is Some && ingredient_ok(l@) ==> (r matches Ok(Some(q)) && q@
            == ingredient_of(l@)),
        ingredient_form(l@) is Some && !ingredient_ok(l@) ==> (r matches Err(e) && (e
            is MalformedQuantity || e == Error::EmptyName)),
        ingredient_form(l@) is Some && digits_value(ingredient_form(l@)->Some_0.0) > i64::MAX ==> (
        r matches Err(e) && e is MalformedQuantity),
        ingredient_form(l@) is Some && digits_value(ingredient_form(l@)->Some_0.0) <= i64::MAX
            && trim_of(ingredient_form(l@)->Some_0.1).len() == 0 ==> (r matches Err(e) && e
            == Error::EmptyName),
{
    let cs = chars_of(l);
    let n = cs.len();
    let d = run_end(&cs, 0, CharClass::Digit);
    let e = run_end(&cs, d, CharClass::Space);
    if !(d > 0 && e > d && e < n) {
        return Ok(None);
    }
    proof {
        lemma_run_bounds(cs@, 0, CharClass::Digit);
    }
    assert(all_digits(cs@.subrange(0, d as int)));
    let count = match digits_to_i64(&cs, 0, d) {
        Some(v) => v,
        None => return Err(Error::MalformedQuantity(text_of(&cs, 0, d))),
    };
    let name = text_of(&cs, e, n);
    match ProductQuantity::with_productname(count, name.as_str()) {
        Ok(q) => Ok(Some(q)),
        Err(err) => Err(err),
    }
}

/// The ingredient that line `i` of the block gives, if there is such a line
/// and it is an ingredient line.
pub fn parseingredient(recipeblock: &Vec<String>, i: usize) -> (r: Result<
    Option<ProductQuantity<i64>>,
    Error,
>)
    ensures
        i >= recipeblock@.len() ==> r matches Ok(None),
        i < recipeblock@.len() && ingredient_form(recipeblock@[i as int]@) is None ==> r matches Ok(
            None,
        ),
        i < recipeblock@.len() && ingredient_ok(recipeblock@[i as int]@) ==> (r matches Ok(Some(q))
            && q@ == ingredient_of(recipeblock@[i as int]@)),
        i < recipeblock@.len() && ingredient_form(recipeblock@[i as int]@) is Some && !ingredient_ok(
            recipeblock@[i as int]@,
        ) ==> (r matches Err(e) && (e is MalformedQuantity || e == Error::EmptyName)),
        i < recipeblock@.len() && ingredient_form(recipeblock@[i as int]@) is Some && digits_value(
            ingredient_form(recipeblock@[i as int]@)->Some_0.0,
        ) > i64::MAX ==> (r matches Err(e) && e is MalformedQuantity),
        i < recipeblock@.len() && ingredient_form(recipeblock@[i as int]@) is Some && digits_value(
            ingredient_form(recipeblock@[i as int]@)->Some_0.0,
        ) <= i64::MAX && trim_of(ingredient_form(recipeblock@[i as int]@)->Some_0.1).len() == 0 ==> (
        r matches Err(e) && e == Error::EmptyName),
{
    if i >= recipeblock.len() {
        return Ok(None);
    }
    ingredient_line(recipeblock[i].as_str())
}

/// The cycle time and category that the arrow line at `i` gives.
pub fn parsearrowline(recipeblock: &Vec<String>, i: usize) -> (r: Result<(Time, FacilityCategory), Error>)
    ensures
        i >= recipeblock@.len() ==> r matches Err(Error::MalformedBlock(_)),
        i < recipeblock@.len() && arrow_form(recipeblock@[i as int]@) is None ==> (r matches Err(
            Error::MalformedBlock(t),
        ) && t@ == recipeblock@[i as int]@),
        r matches Ok(x) ==> i < recipeblock@.len() && arrow_form(recipeblock@[i as int]@) is Some
            && x.0@ == text_rational(arrow_form(recipeblock@[i as int]@)->Some_0.0) && x.1@
            == trim_of(arrow_form(recipeblock@[i as int]@)->Some_0.1),
        i < recipeblock@.len() && arrow_form(recipeblock@[i as int]@) is Some ==> (r is Ok <==> (
        rational_text_value(arrow_form(recipeblock@[i as int]@)->Some_0.0) is Some && fits(
            text_rational(arrow_form(recipeblock@[i as int]@)->Some_0.0),
        ) && trim_of(arrow_form(recipeblock@[i as int]@)->Some_0.1).len() > 0)),
        r matches Err(e) ==> (e is MalformedBlock || e is MalformedQuantity || e
            == Error::EmptyName),
        r matches Err(Error::MalformedBlock(_)) ==> i >= recipeblock@.len() || arrow_form(
            recipeblock@[i as int]@,
        ) is None,
{
    if i >= recipeblock.len() {
        return Err(Error::MalformedBlock(String::new()));
    }
    let l = recipeblock[i].as_str();
    let cs = chars_of(l);
    let n = cs.len();
    if !(n > 0 && cs[0] == '^') {
        return Err(Error::MalformedBlock(l.to_owned()));
    }
    let a = run_end(&cs, 1, CharClass::Space);
    let b = run_end(&cs, a, CharClass::Numeral);
    let c = run_end(&cs, b, CharClass::Space);
    if !(b > a && c < n && cs[c] == 's') {
        return Err(Error::MalformedBlock(l.to_owned()));
    }
    let f = run_end(&cs, c + 1, CharClass::Space);
    if !(f < n && n - f > 2 && cs[f] == '(' && cs[n - 1] == ')') {
        return Err(Error::MalformedBlock(l.to_owned()));
    }
    let secs = text_of(&cs, a, b);
    let cat = text_of(&cs, f + 1, n - 1);
    let seconds = readrational(secs.as_str())?;
    let category = FacilityCategory::new(cat.as_str())?;
    Ok((Time::new(seconds), category))
}

/// The recipe name that the nametag line at `i` gives, if there is a line at
/// `i`; it must be the block's last line.
pub fn parsenametagline(recipeblock: &Vec<String>, i: usize) -> (r: Result<Option<String>, Error>)
    ensures
        i >= recipeblock@.len() ==> r matches Ok(None),
        i + 1 < recipeblock@.len() ==> (r matches Err(Error::MisplacedNametag(t)) && t@
            == recipeblock@[i as int]@),
        i + 1 == recipeblock@.len() && nametag_form(recipeblock@[i as int]@) is None ==> (r matches Err(
            Error::MalformedBlock(t),
        ) && t@ == recipeblock@[i as int]@),
        i + 1 == recipeblock@.len() && nametag_form(recipeblock@[i as int]@) is Some ==> (r matches Ok(
            Some(s),
        ) && s@ == nametag_form(recipeblock@[i as int]@)->Some_0),
{
    if i >= recipeblock.len() {
        return Ok(None);
    }
    let l = recipeblock[i].as_str();
    if i + 1 != recipeblock.len() {
        return Err(Error::MisplacedNametag(l.to_owned()));
    }
    let cs = chars_of(l);
    let n = cs.len();
    if !(n >= 2 && cs[0] == '<' && cs[1] == '>') {
        return Err(Error::MalformedBlock(l.to_owned()));
    }
    let a = run_end(&cs, 2, CharClass::Space);
    if a >= n {
        return Err(Error::MalformedBlock(l.to_owned()));
    }
    Ok(Some(text_of(&cs, a, n)))
}

/// Where the run of ingredient lines that starts at line `i` ends.
fn find_ingredients_end(b: &Vec<String>, i: usize) -> (r: usize)
    requires
        i <= b@.len(),
    ensures
        r == ingredients_end(lines_view(b@), i as int),
{
    let ghost lv = lines_view(b@);
    let mut j: usize = i;
    while j < b.len() && ingredient_form_holds(b[j].as_str())
        invariant
            i <= j <= b@.len(),
            lv == lines_view(b@),
            ingredients_end(lv, i as int) == ingredients_end(lv, j as int),
        decreases b@.len() - j,
    {
        assert(lv[j as int] == b@[j as int]@);
        j = j + 1;
    }
    proof {
        if j < b@.len() {
            assert(lv[j as int] == b@[j as int]@);
        }
    }
    j
}

fn ingredient_form_holds(l: &str) -> (r: bool)
    ensures
        r == ingredient_form(l@) is Some,
{
    let cs = chars_of(l);
    let d = run_end(&cs, 0, CharClass::Digit);
    let e = run_end(&cs, d, CharClass::Space);
    d > 0 && e > d && e < cs.len()
}

/// The ingredients that lines `from..to` give, all of them ingredient lines.
fn parse_ingredients(b: &Vec<String>, from: usize, to: usize) -> (r: Result<
    Vec<ProductQuantity<i64>>,
    Error,
>)
    requires
        from <= to <= b@.len(),
        forall|k: int| from <= k < to ==> ingredient_form(#[trigger] lines_view(b@)[k]) is Some,
    ensures
        lines_ok(lines_view(b@), from as int, to as int) ==> (r matches Ok(v)
            && crate::recipes::ingredients_view(v@) == ingredients_of(
            lines_view(b@),
            from as int,
            to as int,
        )),
        !lines_ok(lines_view(b@), from as int, to as int) ==> (r matches Err(e) && (
        e is MalformedQuantity || e == Error::EmptyName)),
        r matches Ok(v) ==> v@.len() == to - from && lines_ok(lines_view(b@), from as int, to as int)
            && crate::recipes::ingredients_view(v@) == ingredients_of(
            lines_view(b@),
            from as int,
            to as int,
        ),
{
    let ghost lv = lines_view(b@);
    let mut out: Vec<ProductQuantity<i64>> = Vec::new();
    let mut i: usize = from;
    while i < to
        invariant
            from <= i <= to <= b@.len(),
            lv == lines_view(b@),
            forall|k: int| from <= k < to ==> ingredient_form(#[trigger] lv[k]) is Some,
            lines_ok(lv, from as int, i as int),
            out@.len() == i - from,
            forall|k: int|
                0 <= k < i - from ==> #[trigger] out@[k]@ == ingredient_of(lv[from + k]),
        decreases to - i,
    {
        assert(lv[i as int] == b@[i as int]@);
        assert(ingredient_form(lv[i as int]) is Some);
        match parseingredient(b, i) {
            Ok(Some(q)) => {
                out.push(q);
            },
            Ok(None) => {
                return Err(Error::MalformedQuantity(String::new()));
            },
            Err(e) => {
                return Err(e);
            },
        }
        i = i + 1;
    }
    assert(crate::recipes::ingredients_view(out@) =~= ingredients_of(lv, from as int, to as int));
    Ok(out)
}

/// The recipe that a block of lines describes.
pub fn readrecipe(recipeblock: &Vec<String>) -> (r: Result<Recipe, Error>)
    ensures
        !has_arrow(lines_view(recipeblock@)) ==> r matches Err(Error::MalformedBlock(_)),
        has_arrow(lines_view(recipeblock@)) && nametag_misplaced(lines_view(recipeblock@))
            ==> r matches Err(Error::MisplacedNametag(_)),
        has_arrow(lines_view(recipeblock@)) && nametag_malformed(lines_view(recipeblock@))
            ==> r matches Err(Error::MalformedBlock(_)),
        has_arrow(lines_view(recipeblock@)) && !nametag_misplaced(lines_view(recipeblock@))
            && !nametag_malformed(lines_view(recipeblock@)) ==> (r is Ok <==> values_ok(
            lines_view(recipeblock@),
        ) && recipe_ok(lines_view(recipeblock@))),
        well_shaped(lines_view(recipeblock@)) && values_ok(lines_view(recipeblock@)) && tag_blank(
            lines_view(recipeblock@),
        ) ==> r matches Err(Error::EmptyName),
        well_shaped(lines_view(recipeblock@)) && values_ok(lines_view(recipeblock@)) && !tag_blank(
            lines_view(recipeblock@),
        ) && (outputs_end(lines_view(recipeblock@)) == 0
            || inputs_end(lines_view(recipeblock@)) == outputs_end(lines_view(recipeblock@)) + 1)
            ==> r matches Err(Error::EmptyIngredientList),
        well_shaped(lines_view(recipeblock@)) && values_ok(lines_view(recipeblock@)) && tag_of(
            lines_view(recipeblock@),
        ) is None && outputs_end(lines_view(recipeblock@)) > 1 && inputs_end(
            lines_view(recipeblock@),
        ) > outputs_end(lines_view(recipeblock@)) + 1 ==> r matches Err(Error::AmbiguousAutoName),
        r matches Ok(x) ==> built_from(
            x@,
            recipe_name(lines_view(recipeblock@)),
            ingredients_of(lines_view(recipeblock@), 0, outputs_end(lines_view(recipeblock@))),
            ingredients_of(
                lines_view(recipeblock@),
                outputs_end(lines_view(recipeblock@)) + 1,
                inputs_end(lines_view(recipeblock@)),
            ),
            text_rational(arrow_of(lines_view(recipeblock@)).0),
            trim_of(arrow_of(lines_view(recipeblock@)).1),
        ),
{
    let ghost b = lines_view(recipeblock@);
    let o = find_ingredients_end(recipeblock, 0);
    proof {
        lemma_ingredients_end(b, 0);
    }
    if o >= recipeblock.len() {
        return Err(Error::MalformedBlock(String::new()));
    }
    assert(b[o as int] == recipeblock@[o as int]@);
    let (period, madein) = match parsearrowline(recipeblock, o) {
        Ok(x) => x,
        Err(Error::MalformedBlock(t)) => return Err(Error::MalformedBlock(t)),
        Err(e) => {
            let p = find_ingredients_end(recipeblock, o + 1);
            proof {
                lemma_ingredients_end(b, o + 1);
            }
            if p < recipeblock.len() {
                assert(b[p as int] == recipeblock@[p as int]@);
                match parsenametagline(recipeblock, p) {
                    Ok(_) => {},
                    Err(e2) => return Err(e2),
                }
            }
            return Err(e);
        },
    };
    let p = find_ingredients_end(recipeblock, o + 1);
    proof {
        lemma_ingredients_end(b, o + 1);
    }
    let name = if p < recipeblock.len() {
        assert(b[p as int] == recipeblock@[p as int]@);
        parsenametagline(recipeblock, p)?
    } else {
        None
    };
    let outputs = parse_ingredients(recipeblock, 0, o)?;
    let inputs = parse_ingredients(recipeblock, o + 1, p)?;
    assert(outputs@.len() == o);
    assert(inputs@.len() == p - o - 1);
    let r = match &name {
        Some(n) => Recipe::new(Some(n.as_str()), outputs, inputs, period, madein),
        None => Recipe::new(None, outputs, inputs, period, madein),
    };
    proof {
        if o > 0 {
            assert(ingredients_of(b, 0, o as int)[0] == ingredient_of(b[0]));
        }
    }
    r
}

/// The blocks of consecutive non-blank lines, from line `i` on, with `cur`
/// the lines of the block begun before `i`.
pub open spec fn blocks_from(lines: Seq<Seq<char>>, i: int, cur: Seq<Seq<char>>) -> Seq<
    Seq<Seq<char>>,
>
    decreases lines.len() - i,
{
    if i >= lines.len() || i < 0 {
        if cur.len() > 0 {
            seq![cur]
        } else {
            Seq::empty()
        }
    } else if lines[i].len() == 0 {
        (if cur.len() > 0 {
            seq![cur]
        } else {
            Seq::empty()
        }) + blocks_from(lines, i + 1, Seq::empty())
    } else {
        blocks_from(lines, i + 1, cur.push(lines[i]))
    }
}

/// The maximal runs of non-blank lines.
pub open spec fn blocks(lines: Seq<Seq<char>>) -> Seq<Seq<Seq<char>>> {
    blocks_from(lines, 0, Seq::empty())
}

pub open spec fn blocks_view(v: Seq<Vec<String>>) -> Seq<Seq<Seq<char>>> {
    v.map_values(|b: Vec<String>| lines_view(b@))
}

/// Splits the lines into blocks at blank lines; runs of blank lines at either
/// end or in a row give no empty blocks.
pub fn splitonblanklines(listoflines: &Vec<String>) -> (r: Vec<Vec<String>>)
    ensures
        blocks_view(r@) == blocks(lines_view(listoflines@)),
{
    let ghost lv = lines_view(listoflines@);
    let mut listofblocks: Vec<Vec<String>> = Vec::new();
    let mut current: Vec<String> = Vec::new();
    let mut i: usize = 0;
    assert(lines_view(current@) == Seq::<Seq<char>>::empty());
    assert(blocks_view(listofblocks@) == Seq::<Seq<Seq<char>>>::empty());
    assert(blocks_view(listofblocks@) + blocks(lv) == blocks(lv));
    while i < listoflines.len()
        invariant
            i <= listoflines@.len(),
            lv == lines_view(listoflines@),
            blocks_view(listofblocks@) + blocks_from(lv, i as int, lines_view(current@)) == blocks(lv),
        decreases listoflines@.len() - i,
    {
        let line = listoflines[i].as_str();
        assert(lv[i as int] == line@);
        let ghost before = blocks_view(listofblocks@);
        let ghost cur = lines_view(current@);
        if line.unicode_len() == 0 {
            if current.len() > 0 {
                let block = current;
                current = Vec::new();
                listofblocks.push(block);
                assert(blocks_view(listofblocks@) == before + seq![cur]);
            } else {
                assert(cur == Seq::<Seq<char>>::empty());
            }
            assert(lines_view(current@) == Seq::<Seq<char>>::empty());
            assert(before + blocks_from(lv, i as int, cur) == blocks_view(listofblocks@)
                + blocks_from(lv, i + 1, Seq::empty()));
        } else {
            current.push(line.to_owned());
            assert(lines_view(current@) == cur.push(lv[i as int]));
        }
        i = i + 1;
    }
    let ghost before = blocks_view(listofblocks@);
    let ghost cur = lines_view(current@);
    if current.len() > 0 {
        listofblocks.push(current);
        assert(blocks_view(listofblocks@) == before + seq![cur]);
    } else {
        assert(before + blocks_from(lv, i as int, cur) == before);
    }
    listofblocks
}

pub open spec fn is_comment(t: Seq<char>) -> bool {
    t.len() > 0 && t[0] == '#'
}

/// The lines trimmed, without the comment lines.
pub open spec fn kept_lines(lines: Seq<Seq<char>>) -> Seq<Seq<char>>
    decreases lines.len(),
{
    if lines.len() == 0 {
        Seq::empty()
    } else {
        let t = trim_of(lines.last());
        let rest = kept_lines(lines.drop_last());
        if is_comment(t) {
            rest
        } else {
            rest.push(t)
        }
    }
}

/// A line with its abbreviated product or category name written out in
/// full; `None` where the abbreviation resolves to no one name.
pub open spec fn rewrite(l: Seq<char>, prods: Seq<Seq<char>>, cats: Seq<Seq<char>>) -> Option<
    Seq<char>,
> {
    match ingredient_form(l) {
        Some((q, name)) => if prods.contains(name) {
            Some(l)
        } else if resolvable(prods, name) {
            Some(q + seq![' '] + resolved(prods, name))
        } else {
            None
        },
        None => match arrow_form(l) {
            Some((secs, cat)) => if cats.contains(cat) {
                Some(l)
            } else if resolvable(cats, cat) {
                Some(seq!['^', ' '] + secs + seq![' ', 's', ' ', '('] + resolved(cats, cat) + seq![')'])
            } else {
                None
            },
            None => Some(l),
        },
    }
}

pub open spec fn all_rewritable(l: Seq<Seq<char>>, prods: Seq<Seq<char>>, cats: Seq<Seq<char>>) -> bool {
    forall|k: int| 0 <= k < l.len() ==> (#[trigger] rewrite(l[k], prods, cats)) is Some
}

pub open spec fn rewritten(l: Seq<Seq<char>>, prods: Seq<Seq<char>>, cats: Seq<Seq<char>>) -> Seq<
    Seq<char>,
> {
    Seq::new(l.len(), |k: int| rewrite(l[k], prods, cats)->Some_0)
}

/// Whether the text `s` is among `v`.
fn contains_text(v: &Vec<String>, s: &str) -> (r: bool)
    ensures
        r == lines_view(v@).contains(s@),
{
    let mut i: usize = 0;
    while i < v.len()
        invariant
            i <= v@.len(),
            forall|k: int| 0 <= k < i ==> #[trigger] lines_view(v@)[k] != s@,
        decreases v@.len() - i,
    {
        if same_text(v[i].as_str(), s) {
            assert(lines_view(v@)[i as int] == s@);
            return true;
        }
        i = i + 1;
    }
    false
}

/// A copy of the texts.
fn copy_texts(v: &Vec<String>) -> (r: Vec<String>)
    ensures
        lines_view(r@) == lines_view(v@),
{
    let mut out: Vec<String> = Vec::new();
    let mut i: usize = 0;
    while i < v.len()
        invariant
            i <= v@.len(),
            out@.len() == i,
            forall|k: int| 0 <= k < i ==> #[trigger] out@[k]@ == v@[k]@,
        decreases v@.len() - i,
    {
        out.push(v[i].as_str().to_owned());
        i = i + 1;
    }
    assert(lines_view(out@) =~= lines_view(v@));
    out
}

/// Line `l` with its abbreviated name written out in full.
fn rewrite_line(
    l: &str,
    products: &Vec<String>,
    productresolver: &mut AbbreviationResolver,
    categories: &Vec<String>,
    categoryresolver: &mut AbbreviationResolver,
) -> (r: Result<String, Error>)
    requires
        old(productresolver).wf(),
        old(categoryresolver).wf(),
        old(productresolver)@ == lines_view(products@),
        old(categoryresolver)@ == lines_view(categories@),
    ensures
        final(productresolver).wf(),
        final(categoryresolver).wf(),
        final(productresolver)@ == old(productresolver)@,
        final(categoryresolver)@ == old(categoryresolver)@,
        rewrite(l@, lines_view(products@), lines_view(categories@)) is Some <==> r is Ok,
        r matches Ok(s) ==> rewrite(l@, lines_view(products@), lines_view(categories@)) == Some(s@),
        r matches Err(e) ==> (e is NoMatch || e is AmbiguousMatch || e is InvalidAbbreviation),
{
    let cs = chars_of(l);
    let n = cs.len();
    let d = run_end(&cs, 0, CharClass::Digit);
    let e = run_end(&cs, d, CharClass::Space);
    if d > 0 && e > d && e < n {
        let name = text_of(&cs, e, n);
        if contains_text(products, name.as_str()) {
            return Ok(l.to_owned());
        }
        let r = productresolver.call(name.as_str());
        proof {
            lemma_resolution_outcome(lines_view(products@), name@, r);
        }
        let full = r?;
        let mut out = text_of(&cs, 0, d);
        out.append(" ");
        out.append(full.as_str());
        proof {
            reveal_strlit(" ");
        }
        return Ok(out);
    }
    if !(n > 0 && cs[0] == '^') {
        return Ok(l.to_owned());
    }
    let a = run_end(&cs, 1, CharClass::Space);
    let b = run_end(&cs, a, CharClass::Numeral);
    let c = run_end(&cs, b, CharClass::Space);
    if !(b > a && c < n && cs[c] == 's') {
        return Ok(l.to_owned());
    }
    let f = run_end(&cs, c + 1, CharClass::Space);
    if !(f < n && n - f > 2 && cs[f] == '(' && cs[n - 1] == ')') {
        return Ok(l.to_owned());
    }
    let cat = text_of(&cs, f + 1, n - 1);
    if contains_text(categories, cat.as_str()) {
        return Ok(l.to_owned());
    }
    let r = categoryresolver.call(cat.as_str());
    proof {
        lemma_resolution_outcome(lines_view(categories@), cat@, r);
    }
    let full = r?;
    let mut out = String::new();
    out.append("^ ");
    out.append(text_of(&cs, a, b).as_str());
    out.append(" s (");
    out.append(full.as_str());
    out.append(")");
    proof {
        reveal_strlit("^ ");
        reveal_strlit(" s (");
        reveal_strlit(")");
        assert(out@ == seq!['^', ' '] + cs@.subrange(a as int, b as int) + seq![' ', 's', ' ', '(']
            + full@ + seq![')']);
    }
    Ok(out)
}

/// The recipe blocks of a recipe file's lines: lines trimmed, comment lines
/// dropped, abbreviated product and category names written out in full
/// against the given names, then split at blank lines.
pub fn readrecipelines(lines: &Vec<String>, products: Vec<String>, categories: Vec<String>) -> (r:
    Result<Vec<Vec<String>>, Error>)
    ensures
        all_rewritable(kept_lines(lines_view(lines@)), lines_view(products@), lines_view(categories@))
            <==> r is Ok,
        r matches Ok(b) ==> blocks_view(b@) == blocks(
            rewritten(kept_lines(lines_view(lines@)), lines_view(products@), lines_view(categories@)),
        ),
        r matches Err(e) ==> (e is NoMatch || e is AmbiguousMatch || e is InvalidAbbreviation),
{
    let ghost lv = lines_view(lines@);
    let ghost pv = lines_view(products@);
    let ghost cv = lines_view(categories@);
    let mut kept: Vec<String> = Vec::new();
    let mut i: usize = 0;
    assert(lv.subrange(0, 0) == Seq::<Seq<char>>::empty());
    assert(lines_view(kept@) == Seq::<Seq<char>>::empty());
    while i < lines.len()
        invariant
            i <= lines@.len(),
            lv == lines_view(lines@),
            lines_view(kept@) == kept_lines(lv.subrange(0, i as int)),
        decreases lines@.len() - i,
    {
        let t = trimmed(lines[i].as_str());
        let ghost before = lines_view(kept@);
        assert(lv.subrange(0, i + 1).drop_last() == lv.subrange(0, i as int));
        assert(lv.subrange(0, i + 1).last() == lines@[i as int]@);
        let comment = t.as_str().unicode_len() > 0 && t.as_str().get_char(0) == '#';
        if !comment {
            kept.push(t);
            assert(lines_view(kept@) == before.push(trim_of(lines@[i as int]@)));
        }
        i = i + 1;
    }
    assert(lv.subrange(0, lines@.len() as int) == lv);
    let ghost kv = lines_view(kept@);
    let mut productresolver = AbbreviationResolver::new(copy_texts(&products));
    let mut categoryresolver = AbbreviationResolver::new(copy_texts(&categories));
    let mut out: Vec<String> = Vec::new();
    let mut j: usize = 0;
    while j < kept.len()
        invariant
            j <= kept@.len(),
            kv == lines_view(kept@),
            kv == kept_lines(lv),
            lv == lines_view(lines@),
            pv == lines_view(products@),
            cv == lines_view(categories@),
            productresolver.wf(),
            categoryresolver.wf(),
            productresolver@ == pv,
            categoryresolver@ == cv,
            out@.len() == j,
            forall|k: int| 0 <= k < j ==> (#[trigger] rewrite(kv[k], pv, cv)) is Some,
            forall|k: int| 0 <= k < j ==> #[trigger] out@[k]@ == rewrite(kv[k], pv, cv)->Some_0,
        decreases kept@.len() - j,
    {
        assert(kv[j as int] == kept@[j as int]@);
        let line = match rewrite_line(
            kept[j].as_str(),
            &products,
            &mut productresolver,
            &categories,
            &mut categoryresolver,
        ) {
            Ok(x) => x,
            Err(e) => {
                assert(rewrite(kv[j as int], pv, cv) is None);
                return Err(e);
            },
        };
        out.push(line);
        j = j + 1;
    }
    assert(lines_view(out@) =~= rewritten(kv, pv, cv));
    Ok(splitonblanklines(&out))
}

} // verus!
