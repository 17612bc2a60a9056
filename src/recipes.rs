//! Recipes: named transformations of inputs into outputs over a cycle time.

use vstd::prelude::*;
use vstd::seq_lib::*;
use crate::error::Error;
use crate::facilities::FacilityCategory;
use crate::products::{same_text, trim_of, trimmed, ProductQuantity};
use crate::rates::Time;

verus! {

/// An ingredient as seen from outside: its count and its product's name.
pub type IngredientView = (i64, Seq<char>);

/// Strict lexicographic order on texts, by character code.
pub open spec fn text_lt(a: Seq<char>, b: Seq<char>) -> bool
    decreases a.len(),
{
    if a.len() == 0 {
        b.len() > 0
    } else if b.len() == 0 {
        false
    } else if a[0] != b[0] {
        a[0] < b[0]
    } else {
        text_lt(a.drop_first(), b.drop_first())
    }
}

/// The canonical order on ingredients: by product name, then by count.
pub open spec fn ingredient_le(x: IngredientView, y: IngredientView) -> bool {
    text_lt(x.1, y.1) || (x.1 == y.1 && x.0 <= y.0)
}

pub open spec fn sorted(s: Seq<IngredientView>) -> bool {
    forall|i: int, j: int| 0 <= i < j < s.len() ==> ingredient_le(s[i], s[j])
}

proof fn lemma_text_lt_asymmetric(a: Seq<char>, b: Seq<char>)
    ensures
        !(text_lt(a, b) && text_lt(b, a)),
        !text_lt(a, a),
    decreases a.len(),
{
    if a.len() > 0 && b.len() > 0 {
        lemma_text_lt_asymmetric(a.drop_first(), b.drop_first());
    }
    if a.len() > 0 {
        lemma_text_lt_asymmetric(a.drop_first(), a.drop_first());
    }
}

proof fn lemma_text_lt_total(a: Seq<char>, b: Seq<char>)
    ensures
        a == b || text_lt(a, b) || text_lt(b, a),
    decreases a.len(),
{
    if a.len() > 0 && b.len() > 0 && a[0] == b[0] {
        lemma_text_lt_total(a.drop_first(), b.drop_first());
        if a.drop_first() == b.drop_first() {
            assert(a == seq![a[0]] + a.drop_first());
            assert(b == seq![b[0]] + b.drop_first());
        }
    }
}

proof fn lemma_text_lt_transitive(a: Seq<char>, b: Seq<char>, c: Seq<char>)
    requires
        text_lt(a, b),
        text_lt(b, c),
    ensures
        text_lt(a, c),
    decreases a.len(),
{
    if a.len() > 0 && b.len() > 0 && c.len() > 0 && a[0] == b[0] && b[0] == c[0] {
        lemma_text_lt_transitive(a.drop_first(), b.drop_first(), c.drop_first());
    }
}

proof fn lemma_ingredient_le_total(x: IngredientView, y: IngredientView)
    ensures
        ingredient_le(x, y) || ingredient_le(y, x),
{
    lemma_text_lt_total(x.1, y.1);
}

proof fn lemma_ingredient_le_antisymmetric(x: IngredientView, y: IngredientView)
    requires
        ingredient_le(x, y),
        ingredient_le(y, x),
    ensures
        x == y,
{
    lemma_text_lt_asymmetric(x.1, y.1);
}

proof fn lemma_ingredient_le_transitive(x: IngredientView, y: IngredientView, z: IngredientView)
    requires
        ingredient_le(x, y),
        ingredient_le(y, z),
    ensures
        ingredient_le(x, z),
{
    if text_lt(x.1, y.1) && text_lt(y.1, z.1) {
        lemma_text_lt_transitive(x.1, y.1, z.1);
    }
}

/// Two sorted sequences that hold the same ingredients are the same sequence.
pub proof fn lemma_sorted_unique(a: Seq<IngredientView>, b: Seq<IngredientView>)
    requires
        sorted(a),
        sorted(b),
        a.to_multiset() == b.to_multiset(),
    ensures
        a == b,
    decreases a.len(),
{
    broadcast use group_to_multiset_ensures;

    assert(a.len() == a.to_multiset().len());
    assert(b.len() == b.to_multiset().len());
    if a.len() > 0 {
        assert(b.to_multiset().contains(a[0]));
        assert(a.to_multiset().contains(b[0]));
        let j = b.index_of(a[0]);
        let i = a.index_of(b[0]);
        if j > 0 {
            assert(ingredient_le(b[0], b[j]));
        }
        if i > 0 {
            assert(ingredient_le(a[0], a[i]));
        }
        lemma_ingredient_le_antisymmetric(a[0], b[0]);
        assert(a.remove(0) == a.drop_first());
        assert(b.remove(0) == b.drop_first());
        assert(a.drop_first().to_multiset() == b.drop_first().to_multiset());
        lemma_sorted_unique(a.drop_first(), b.drop_first());
        assert(a == seq![a[0]] + a.drop_first());
        assert(b == seq![b[0]] + b.drop_first());
    } else {
        assert(a == b);
    }
}

/// Whether `a` comes strictly before `b`.
fn text_less(a: &str, b: &str) -> (r: bool)
    ensures
        r == text_lt(a@, b@),
{
    let n = a.unicode_len();
    let m = b.unicode_len();
    let mut i: usize = 0;
    assert(a@.skip(0) == a@);
    assert(b@.skip(0) == b@);
    while i < n && i < m
        invariant
            n == a@.len(),
            m == b@.len(),
            i <= n,
            i <= m,
            text_lt(a@, b@) == text_lt(a@.skip(i as int), b@.skip(i as int)),
        decreases n - i,
    {
        let x = a.get_char(i);
        let y = b.get_char(i);
        assert(a@.skip(i as int)[0] == x);
        assert(b@.skip(i as int)[0] == y);
        if x != y {
            return x < y;
        }
        assert(a@.skip(i as int).drop_first() == a@.skip(i + 1));
        assert(b@.skip(i as int).drop_first() == b@.skip(i + 1));
        i = i + 1;
    }
    i < m && i == n
}

/// Whether `x` may come before `y` in the canonical order.
fn ingredient_less_eq(x: &ProductQuantity<i64>, y: &ProductQuantity<i64>) -> (r: bool)
    ensures
        r == ingredient_le(x@, y@),
{
    if text_less(x.name(), y.name()) {
        true
    } else {
        same_text(x.name(), y.name()) && x.quantity() <= y.quantity()
    }
}

pub open spec fn ingredients_view(v: Seq<ProductQuantity<i64>>) -> Seq<IngredientView> {
    v.map_values(|q: ProductQuantity<i64>| q@)
}

/// The ingredients in canonical order.
fn sort_ingredients(v: Vec<ProductQuantity<i64>>) -> (r: Vec<ProductQuantity<i64>>)
    ensures
        sorted(ingredients_view(r@)),
        ingredients_view(r@).to_multiset() == ingredients_view(v@).to_multiset(),
{
    broadcast use group_to_multiset_ensures;

    let mut out: Vec<ProductQuantity<i64>> = Vec::new();
    let n = v.len();
    let mut i: usize = 0;
    assert(ingredients_view(v@).subrange(0, 0) == Seq::<IngredientView>::empty());
    assert(ingredients_view(out@) == Seq::<IngredientView>::empty());
    while i < n
        invariant
            n == v@.len(),
            i <= n,
            sorted(ingredients_view(out@)),
            ingredients_view(out@).to_multiset() == ingredients_view(v@).subrange(
                0,
                i as int,
            ).to_multiset(),
        decreases n - i,
    {
        let x = &v[i];
        let ghost xv = x@;
        let ghost before = ingredients_view(out@);
        let mut p: usize = 0;
        while p < out.len() && ingredient_less_eq(&out[p], x)
            invariant
                p <= out@.len(),
                before == ingredients_view(out@),
                xv == x@,
                forall|k: int| 0 <= k < p ==> ingredient_le(#[trigger] before[k], xv),
            decreases out@.len() - p,
        {
            p = p + 1;
        }
        proof {
            if p < out@.len() {
                lemma_ingredient_le_total(before[p as int], xv);
                assert forall|k: int| p <= k < before.len() implies ingredient_le(
                    xv,
                    #[trigger] before[k],
                ) by {
                    if k > p {
                        lemma_ingredient_le_transitive(xv, before[p as int], before[k]);
                    }
                }
            }
        }
        out.insert(p, x.cloned());
        proof {
            let after = ingredients_view(out@);
            assert(after == before.insert(p as int, xv));
            assert forall|a: int, b: int| 0 <= a < b < after.len() implies ingredient_le(
                after[a],
                after[b],
            ) by {
                if b < p {
                } else if a < p && b == p {
                } else if a < p && b > p {
                    assert(after[b] == before[b - 1]);
                } else if a == p {
                    assert(after[b] == before[b - 1]);
                } else {
                    assert(a > p);
                    assert(after[a] == before[a - 1]);
                    assert(after[b] == before[b - 1]);
                }
            }
            assert(ingredients_view(v@).subrange(0, i + 1) == ingredients_view(v@).subrange(
                0,
                i as int,
            ).push(xv));
            to_multiset_insert(before, p as int, xv);
            to_multiset_build(ingredients_view(v@).subrange(0, i as int), xv);
        }
        i = i + 1;
    }
    assert(ingredients_view(v@).subrange(0, n as int) == ingredients_view(v@));
    out
}

/// A recipe as seen from outside.
pub struct RecipeView {
    pub name: Seq<char>,
    pub outputs: Seq<IngredientView>,
    pub inputs: Seq<IngredientView>,
    pub period: (int, int),
    pub madein: Seq<char>,
}

/// `v` is the recipe named `name` built from these parts: both ingredient
/// lists put in canonical order.
pub open spec fn built_from(
    v: RecipeView,
    name: Seq<char>,
    outputs: Seq<IngredientView>,
    inputs: Seq<IngredientView>,
    period: (int, int),
    madein: Seq<char>,
) -> bool {
    &&& v.name == name
    &&& sorted(v.outputs)
    &&& v.outputs.to_multiset() == outputs.to_multiset()
    &&& sorted(v.inputs)
    &&& v.inputs.to_multiset() == inputs.to_multiset()
    &&& v.period == period
    &&& v.madein == madein
}

/// Recipes built from the same parts, each ingredient list in any order,
/// are equal.
pub proof fn lemma_permuted_ingredients_give_equal_recipes(
    v1: RecipeView,
    v2: RecipeView,
    name: Seq<char>,
    outputs1: Seq<IngredientView>,
    outputs2: Seq<IngredientView>,
    inputs1: Seq<IngredientView>,
    inputs2: Seq<IngredientView>,
    period: (int, int),
    madein: Seq<char>,
)
    requires
        built_from(v1, name, outputs1, inputs1, period, madein),
        built_from(v2, name, outputs2, inputs2, period, madein),
        outputs1.to_multiset() == outputs2.to_multiset(),
        inputs1.to_multiset() == inputs2.to_multiset(),
    ensures
        v1 == v2,
{
    lemma_sorted_unique(v1.outputs, v2.outputs);
    lemma_sorted_unique(v1.inputs, v2.inputs);
}

/// A recipe: what it makes, what it consumes, how long a cycle takes and in
/// which category of facility.
#[derive(Debug, Clone, Hash)]
pub struct Recipe {
    name: String,
    outputs: Vec<ProductQuantity<i64>>,
    inputs: Vec<ProductQuantity<i64>>,
    period: Time,
    madein: FacilityCategory,
}

impl View for Recipe {
    type V = RecipeView;

    closed spec fn view(&self) -> RecipeView {
        RecipeView {
            name: self.name@,
            outputs: ingredients_view(self.outputs@),
            inputs: ingredients_view(self.inputs@),
            period: self.period@,
            madein: self.madein@,
        }
    }
}

/// Whether two ingredient lists are the same, item for item.
fn same_ingredients(a: &Vec<ProductQuantity<i64>>, b: &Vec<ProductQuantity<i64>>) -> (r: bool)
    ensures
        r == (ingredients_view(a@) == ingredients_view(b@)),
{
    if a.len() != b.len() {
        assert(ingredients_view(a@).len() != ingredients_view(b@).len());
        return false;
    }
    let mut i: usize = 0;
    while i < a.len()
        invariant
            a@.len() == b@.len(),
            i <= a@.len(),
            forall|k: int| 0 <= k < i ==> #[trigger] a@[k]@ == b@[k]@,
        decreases a@.len() - i,
    {
        if !(a[i].quantity() == b[i].quantity() && same_text(a[i].name(), b[i].name())) {
            assert(ingredients_view(a@)[i as int] != ingredients_view(b@)[i as int]);
            return false;
        }
        i = i + 1;
    }
    assert(ingredients_view(a@) == ingredients_view(b@));
    true
}

impl Recipe {
    fn build(
        name: String,
        outputs: Vec<ProductQuantity<i64>>,
        inputs: Vec<ProductQuantity<i64>>,
        period: Time,
        madein: FacilityCategory,
    ) -> (r: Recipe)
        ensures
            built_from(
                r@,
                name@,
                ingredients_view(outputs@),
                ingredients_view(inputs@),
                period@,
                madein@,
            ),
    {
        let outputs = sort_ingredients(outputs);
        let inputs = sort_ingredients(inputs);
        Recipe { name, outputs, inputs, period, madein }
    }

    /// The recipe named `name` without surrounding whitespace. The name must
    /// not be blank, and neither list may be empty.
    pub fn with_name(
        name: &str,
        outputs: Vec<ProductQuantity<i64>>,
        inputs: Vec<ProductQuantity<i64>>,
        period: Time,
        madein: FacilityCategory,
    ) -> (r: Result<Recipe, Error>)
        ensures
            trim_of(name@).len() == 0 ==> r == Err::<Recipe, Error>(Error::EmptyName),
            trim_of(name@).len() > 0 && (outputs@.len() == 0 || inputs@.len() == 0) ==> r
                == Err::<Recipe, Error>(Error::EmptyIngredientList),
            trim_of(name@).len() > 0 && outputs@.len() > 0 && inputs@.len() > 0 ==> r is Ok,
            r matches Ok(x) ==> built_from(
                x@,
                trim_of(name@),
                ingredients_view(outputs@),
                ingredients_view(inputs@),
                period@,
                madein@,
            ),
    {
        let cleaned = trimmed(name);
        if cleaned.unicode_len() == 0 {
            return Err(Error::EmptyName);
        }
        if outputs.len() == 0 || inputs.len() == 0 {
            return Err(Error::EmptyIngredientList);
        }
        Ok(Recipe::build(cleaned, outputs, inputs, period, madein))
    }

    /// The recipe named after its one output. Neither list may be empty, and
    /// there must be exactly one output.
    pub fn without_name(
        outputs: Vec<ProductQuantity<i64>>,
        inputs: Vec<ProductQuantity<i64>>,
        period: Time,
        madein: FacilityCategory,
    ) -> (r: Result<Recipe, Error>)
        ensures
            outputs@.len() == 0 || inputs@.len() == 0 ==> r == Err::<Recipe, Error>(
                Error::EmptyIngredientList,
            ),
            outputs@.len() > 1 && inputs@.len() > 0 ==> r == Err::<Recipe, Error>(
                Error::AmbiguousAutoName,
            ),
            outputs@.len() == 1 && inputs@.len() > 0 ==> r is Ok,
            r matches Ok(x) ==> built_from(
                x@,
                outputs@[0]@.1,
                ingredients_view(outputs@),
                ingredients_view(inputs@),
                period@,
                madein@,
            ),
    {
        if outputs.len() == 0 || inputs.len() == 0 {
            return Err(Error::EmptyIngredientList);
        }
        if outputs.len() != 1 {
            return Err(Error::AmbiguousAutoName);
        }
        let autoname = outputs[0].name().to_owned();
        Ok(Recipe::build(autoname, outputs, inputs, period, madein))
    }

    /// `with_name` where a name is given, `without_name` where none is.
    pub fn new(
        name: Option<&str>,
        outputs: Vec<ProductQuantity<i64>>,
        inputs: Vec<ProductQuantity<i64>>,
        period: Time,
        madein: FacilityCategory,
    ) -> (r: Result<Recipe, Error>)
        ensures
            name matches Some(n) ==> (trim_of(n@).len() == 0 ==> r == Err::<Recipe, Error>(
                Error::EmptyName,
            )),
            name matches Some(n) ==> (trim_of(n@).len() > 0 && (outputs@.len() == 0
                || inputs@.len() == 0) ==> r == Err::<Recipe, Error>(Error::EmptyIngredientList)),
            name matches Some(n) ==> (trim_of(n@).len() > 0 && outputs@.len() > 0
                && inputs@.len() > 0 ==> r is Ok),
            name matches Some(n) ==> (r matches Ok(x) ==> built_from(
                x@,
                trim_of(n@),
                ingredients_view(outputs@),
                ingredients_view(inputs@),
                period@,
                madein@,
            )),
            name is None ==> (outputs@.len() == 0 || inputs@.len() == 0 ==> r == Err::<
                Recipe,
                Error,
            >(Error::EmptyIngredientList)),
            name is None ==> (outputs@.len() > 1 && inputs@.len() > 0 ==> r == Err::<
                Recipe,
                Error,
            >(Error::AmbiguousAutoName)),
            name is None ==> (outputs@.len() == 1 && inputs@.len() > 0 ==> r is Ok),
            name is None ==> (r matches Ok(x) ==> built_from(
                x@,
                outputs@[0]@.1,
                ingredients_view(outputs@),
                ingredients_view(inputs@),
                period@,
                madein@,
            )),
    {
        match name {
            Some(n) => Recipe::with_name(n, outputs, inputs, period, madein),
            None => Recipe::without_name(outputs, inputs, period, madein),
        }
    }

    pub fn name(&self) -> (r: &str)
        ensures
            r@ == self@.name,
    {
        self.name.as_str()
    }

    pub fn outputs(&self) -> (r: &Vec<ProductQuantity<i64>>)
        ensures
            ingredients_view(r@) == self@.outputs,
    {
        &self.outputs
    }

    pub fn inputs(&self) -> (r: &Vec<ProductQuantity<i64>>)
        ensures
            ingredients_view(r@) == self@.inputs,
    {
        &self.inputs
    }

    pub fn period(&self) -> (r: Time)
        ensures
            r@ == self@.period,
    {
        self.period
    }

    pub fn category(&self) -> (r: &FacilityCategory)
        ensures
            r@ == self@.madein,
    {
        &self.madein
    }

    /// Whether the two recipes are the same in every part.
    pub fn same(&self, other: &Recipe) -> (r: bool)
        ensures
            r == (self@ == other@),
    {
        same_text(self.name.as_str(), other.name.as_str()) && same_ingredients(
            &self.outputs,
            &other.outputs,
        ) && same_ingredients(&self.inputs, &other.inputs) && self.period.seconds.equals(
            &other.period.seconds,
        ) && self.madein.same(&other.madein)
    }

    /// A copy of this recipe.
    pub fn cloned(&self) -> (r: Recipe)
        ensures
            r@ == self@,
    {
        let mut outputs: Vec<ProductQuantity<i64>> = Vec::new();
        let mut i: usize = 0;
        while i < self.outputs.len()
            invariant
                i <= self.outputs@.len(),
                outputs@.len() == i,
                forall|k: int| 0 <= k < i ==> #[trigger] outputs@[k]@ == self.outputs@[k]@,
            decreases self.outputs@.len() - i,
        {
            outputs.push(self.outputs[i].cloned());
            i = i + 1;
        }
        let mut inputs: Vec<ProductQuantity<i64>> = Vec::new();
        let mut j: usize = 0;
        while j < self.inputs.len()
            invariant
                j <= self.inputs@.len(),
                inputs@.len() == j,
                forall|k: int| 0 <= k < j ==> #[trigger] inputs@[k]@ == self.inputs@[k]@,
            decreases self.inputs@.len() - j,
        {
            inputs.push(self.inputs[j].cloned());
            j = j + 1;
        }
        assert(ingredients_view(outputs@) =~= ingredients_view(self.outputs@));
        assert(ingredients_view(inputs@) =~= ingredients_view(self.inputs@));
        Recipe {
            name: self.name.as_str().to_owned(),
            outputs,
            inputs,
            period: self.period,
            madein: self.madein.cloned(),
        }
    }
}

impl PartialEq for Recipe {
    fn eq(&self, other: &Recipe) -> (r: bool) {
        self.same(other)
    }
}

impl Eq for Recipe {

}

impl vstd::std_specs::cmp::PartialEqSpecImpl for Recipe {
    open spec fn obeys_eq_spec() -> bool {
        true
    }

    open spec fn eq_spec(&self, other: &Recipe) -> bool {
        self@ == other@
    }
}

} // verus!
