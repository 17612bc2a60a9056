//! Crafters (a recipe run in a number of facilities) and factories (crafters
//! aimed together at a goal), with their net rates per product.

use vstd::prelude::*;
use crate::error::Error;
use crate::facilities::{Facility, FacilityView};
use crate::products::{Product, ProductQuantity};
use crate::rates::Rate;
use crate::rational::{fits, lemma_div_positive, lemma_lowest_terms_denominator, lemma_lowest_terms_zero, lemma_mul_positive, q_add, q_is_negative, q_div, q_int, q_is_positive, q_mul, q_neg, Ratio};
use crate::recipes::{IngredientView, Recipe, RecipeView};

verus! {

/// Net rates by product name, one entry per product, in order of first appearance.
pub type Entries = Seq<(Seq<char>, (int, int))>;

pub open spec fn entries_view(v: Seq<(Product, Rate)>) -> Entries {
    v.map_values(|e: (Product, Rate)| (e.0@, e.1@))
}

pub open spec fn unique_keys(m: Entries) -> bool {
    forall|i: int, j: int| 0 <= i < m.len() && 0 <= j < m.len() && i != j ==> m[i].0 != m[j].0
}

pub open spec fn has_key(m: Entries, p: Seq<char>) -> bool {
    exists|i: int| 0 <= i < m.len() && m[i].0 == p
}

pub open spec fn key_position(m: Entries, p: Seq<char>) -> int {
    choose|i: int| 0 <= i < m.len() && m[i].0 == p
}

/// The rate recorded for `p`, zero where there is none.
pub open spec fn rate_for(m: Entries, p: Seq<char>) -> (int, int) {
    if has_key(m, p) {
        m[key_position(m, p)].1
    } else {
        (0, 1)
    }
}

/// `m` with `x` added to the entry of `p`, or with a new entry `(p, x)`.
pub open spec fn add_entry(m: Entries, p: Seq<char>, x: (int, int)) -> Entries {
    if has_key(m, p) {
        let i = key_position(m, p);
        m.update(i, (p, q_add(m[i].1, x)))
    } else {
        m.push((p, x))
    }
}

/// What one ingredient line contributes per second: `count / period * speed * howmany`.
pub open spec fn term(count: i64, period: (int, int), speed: (int, int), howmany: (int, int)) -> (int, int) {
    q_mul(q_mul(q_div(q_int(count as int), period), speed), howmany)
}

/// `m` with the contribution of each ingredient added in turn, negated for
/// consumed ones.
pub open spec fn accumulate(
    m: Entries,
    ings: Seq<IngredientView>,
    period: (int, int),
    speed: (int, int),
    howmany: (int, int),
    consumed: bool,
) -> Entries
    decreases ings.len(),
{
    if ings.len() == 0 {
        m
    } else {
        let prev = accumulate(m, ings.drop_last(), period, speed, howmany, consumed);
        let t = term(ings.last().0, period, speed, howmany);
        add_entry(
            prev,
            ings.last().1,
            if consumed {
                q_neg(t)
            } else {
                t
            },
        )
    }
}

/// The steps of `term` all stay within what a `Ratio` holds.
pub open spec fn term_fits(count: i64, period: (int, int), speed: (int, int), howmany: (int, int)) -> bool {
    let per_cycle = q_div(q_int(count as int), period);
    &&& count > i64::MIN
    &&& fits(per_cycle)
    &&& fits(q_mul(per_cycle, speed))
    &&& fits(term(count, period, speed, howmany))
}

/// Whether `add_entry(m, p, x)` stays within what a `Ratio` holds.
pub open spec fn add_fits(m: Entries, p: Seq<char>, x: (int, int)) -> bool {
    has_key(m, p) ==> fits(q_add(m[key_position(m, p)].1, x))
}

/// Every term and every partial sum of `accumulate` fits in a `Ratio`.
pub open spec fn accumulate_fits(
    m: Entries,
    ings: Seq<IngredientView>,
    period: (int, int),
    speed: (int, int),
    howmany: (int, int),
    consumed: bool,
) -> bool
    decreases ings.len(),
{
    if ings.len() == 0 {
        true
    } else {
        let prev = accumulate(m, ings.drop_last(), period, speed, howmany, consumed);
        let t = term(ings.last().0, period, speed, howmany);
        &&& accumulate_fits(m, ings.drop_last(), period, speed, howmany, consumed)
        &&& term_fits(ings.last().0, period, speed, howmany)
        &&& add_fits(
            prev,
            ings.last().1,
            if consumed {
                q_neg(t)
            } else {
                t
            },
        )
    }
}

/// The rates of a recipe run at `speed` in `howmany` facilities can be
/// computed in `Ratio`s: every term and every partial sum fits.
pub open spec fn crafter_rates_fit(recipe: RecipeView, speed: (int, int), howmany: (int, int)) -> bool {
    let outs = accumulate(Seq::empty(), recipe.outputs, recipe.period, speed, howmany, false);
    &&& accumulate_fits(Seq::empty(), recipe.outputs, recipe.period, speed, howmany, false)
    &&& accumulate_fits(outs, recipe.inputs, recipe.period, speed, howmany, true)
}

/// Every partial sum of `merge` fits in a `Ratio`.
pub open spec fn merge_fits(m: Entries, e: Entries) -> bool
    decreases e.len(),
{
    if e.len() == 0 {
        true
    } else {
        merge_fits(m, e.drop_last()) && add_fits(merge(m, e.drop_last()), e.last().0, e.last().1)
    }
}

proof fn lemma_accumulate_fits_prefix(
    m: Entries,
    ings: Seq<IngredientView>,
    period: (int, int),
    speed: (int, int),
    howmany: (int, int),
    consumed: bool,
    j: int,
)
    requires
        0 <= j <= ings.len(),
        accumulate_fits(m, ings, period, speed, howmany, consumed),
    ensures
        accumulate_fits(m, ings.subrange(0, j), period, speed, howmany, consumed),
    decreases ings.len(),
{
    if j < ings.len() {
        assert(ings.drop_last() == ings.subrange(0, ings.len() - 1));
        lemma_accumulate_fits_prefix(m, ings.drop_last(), period, speed, howmany, consumed, j);
        assert(ings.drop_last().subrange(0, j) == ings.subrange(0, j));
    } else {
        assert(ings.subrange(0, j) == ings);
    }
}

proof fn lemma_merge_fits_prefix(m: Entries, e: Entries, j: int)
    requires
        0 <= j <= e.len(),
        merge_fits(m, e),
    ensures
        merge_fits(m, e.subrange(0, j)),
    decreases e.len(),
{
    if j < e.len() {
        lemma_merge_fits_prefix(m, e.drop_last(), j);
        assert(e.drop_last().subrange(0, j) == e.subrange(0, j));
    } else {
        assert(e.subrange(0, j) == e);
    }
}

/// The net rates of a recipe run at `speed` in `howmany` facilities:
/// outputs count positive, inputs negative, and a product on both sides gets
/// one entry with the two merged.
pub open spec fn crafter_rates(recipe: RecipeView, speed: (int, int), howmany: (int, int)) -> Entries {
    let outs = accumulate(Seq::empty(), recipe.outputs, recipe.period, speed, howmany, false);
    accumulate(outs, recipe.inputs, recipe.period, speed, howmany, true)
}

/// `m` with every entry of `e` added in turn.
pub open spec fn merge(m: Entries, e: Entries) -> Entries
    decreases e.len(),
{
    if e.len() == 0 {
        m
    } else {
        add_entry(merge(m, e.drop_last()), e.last().0, e.last().1)
    }
}

/// A recipe that makes and uses the same count of one product gives that
/// product a single entry, whose net rate is exactly zero.
pub proof fn lemma_pass_through_nets_zero(
    recipe: RecipeView,
    speed: (int, int),
    howmany: (int, int),
    count: i64,
    p: Seq<char>,
)
    requires
        recipe.outputs == seq![(count, p)],
        recipe.inputs == seq![(count, p)],
        recipe.period.0 != 0,
        fits(speed),
        fits(howmany),
    ensures
        crafter_rates(recipe, speed, howmany).len() == 1,
        crafter_rates(recipe, speed, howmany)[0].0 == p,
        crafter_rates(recipe, speed, howmany)[0].1.0 == 0,
{
    let t = term(count, recipe.period, speed, howmany);
    let empty = Seq::<(Seq<char>, (int, int))>::empty();
    assert(recipe.outputs.drop_last() == Seq::<IngredientView>::empty());
    assert(recipe.inputs.drop_last() == Seq::<IngredientView>::empty());
    assert(accumulate(empty, Seq::empty(), recipe.period, speed, howmany, false) == empty);
    let outs = accumulate(empty, recipe.outputs, recipe.period, speed, howmany, false);
    assert(!has_key(empty, p));
    assert(outs == seq![(p, t)]);
    assert(accumulate(outs, Seq::empty(), recipe.period, speed, howmany, true) == outs);
    lemma_key_position(outs, p, 0);
    let x = q_div(q_int(count as int), recipe.period);
    lemma_lowest_terms_denominator(count as int * recipe.period.1, 1 * recipe.period.0);
    let y = q_mul(x, speed);
    assert(x.1 * speed.1 >= 1) by (nonlinear_arith)
        requires
            x.1 >= 1,
            speed.1 >= 1,
    ;
    lemma_lowest_terms_denominator(x.0 * speed.0, x.1 * speed.1);
    assert(y.1 * howmany.1 >= 1) by (nonlinear_arith)
        requires
            y.1 >= 1,
            howmany.1 >= 1,
    ;
    lemma_lowest_terms_denominator(y.0 * howmany.0, y.1 * howmany.1);
    let d = t.1 * t.1;
    assert(d >= 1) by (nonlinear_arith)
        requires
            t.1 >= 1,
            d == t.1 * t.1,
    ;
    assert(t.0 * t.1 + (-t.0) * t.1 == 0) by (nonlinear_arith);
    lemma_lowest_terms_zero(d);
}

/// The rate of `p` that a recipe gives in one facility.
pub open spec fn base_rate(recipe: RecipeView, speed: (int, int), p: Seq<char>) -> (int, int) {
    rate_for(crafter_rates(recipe, speed, q_int(1)), p)
}

/// How many facilities make the goal's rate of its product: the goal's rate
/// over the rate of one facility.
pub open spec fn goal_multiplier(recipe: RecipeView, speed: (int, int), goal: (Rate, Seq<char>)) -> (int, int) {
    q_div(goal.0@, base_rate(recipe, speed, goal.1))
}

/// A crafter as seen from outside.
pub struct CrafterView {
    pub recipe: RecipeView,
    pub facility: FacilityView,
    pub howmany: (int, int),
}

pub open spec fn rates_of(c: CrafterView) -> Entries {
    crafter_rates(c.recipe, c.facility.speed, c.howmany)
}

/// Every partial sum of `factory_rates` fits in a `Ratio`.
pub open spec fn factory_rates_fit(goal: (Seq<char>, (int, int)), crafters: Seq<CrafterView>) -> bool
    decreases crafters.len(),
{
    if crafters.len() == 0 {
        true
    } else {
        factory_rates_fit(goal, crafters.drop_last()) && merge_fits(
            factory_rates(goal, crafters.drop_last()),
            rates_of(crafters.last()),
        )
    }
}

proof fn lemma_factory_rates_fit_prefix(goal: (Seq<char>, (int, int)), crafters: Seq<CrafterView>, j: int)
    requires
        0 <= j <= crafters.len(),
        factory_rates_fit(goal, crafters),
    ensures
        factory_rates_fit(goal, crafters.subrange(0, j)),
    decreases crafters.len(),
{
    if j < crafters.len() {
        lemma_factory_rates_fit_prefix(goal, crafters.drop_last(), j);
        assert(crafters.drop_last().subrange(0, j) == crafters.subrange(0, j));
    } else {
        assert(crafters.subrange(0, j) == crafters);
    }
}

/// The net rates of a factory: its goal counted as consumption, plus the
/// rates of each crafter in turn.
pub open spec fn factory_rates(goal: (Seq<char>, (int, int)), crafters: Seq<CrafterView>) -> Entries
    decreases crafters.len(),
{
    if crafters.len() == 0 {
        seq![(goal.0, q_neg(goal.1))]
    } else {
        merge(factory_rates(goal, crafters.drop_last()), rates_of(crafters.last()))
    }
}

proof fn lemma_key_position(m: Entries, p: Seq<char>, j: int)
    requires
        unique_keys(m),
        0 <= j < m.len(),
        m[j].0 == p,
    ensures
        has_key(m, p),
        key_position(m, p) == j,
{
    let i = key_position(m, p);
    assert(m[i].0 == p);
}

proof fn lemma_add_entry_unique(m: Entries, p: Seq<char>, x: (int, int))
    requires
        unique_keys(m),
    ensures
        unique_keys(add_entry(m, p, x)),
{
    if has_key(m, p) {
        let i = key_position(m, p);
        assert(m[i].0 == p);
    }
}

/// The position of `p` among the entries, if it has one.
fn find_entry(m: &Vec<(Product, Rate)>, p: &Product) -> (r: Option<usize>)
    ensures
        r matches Some(i) ==> i < m@.len() && entries_view(m@)[i as int].0 == p@,
        r is None ==> !has_key(entries_view(m@), p@),
{
    let mut i: usize = 0;
    while i < m.len()
        invariant
            i <= m@.len(),
            forall|k: int| 0 <= k < i ==> #[trigger] entries_view(m@)[k].0 != p@,
        decreases m@.len() - i,
    {
        if m[i].0.same(p) {
            return Some(i);
        }
        i = i + 1;
    }
    None
}

/// Adds `x` to the entry of `p`; fails only where the sum does not fit.
fn add_to_entries(m: &mut Vec<(Product, Rate)>, p: &Product, x: &Rate) -> (r: Result<(), Error>)
    requires
        unique_keys(entries_view(old(m)@)),
    ensures
        r is Ok ==> entries_view(final(m)@) == add_entry(entries_view(old(m)@), p@, x@),
        r is Ok <==> add_fits(entries_view(old(m)@), p@, x@),
        unique_keys(entries_view(final(m)@)),
        r matches Err(e) ==> e == Error::Overflow,
{
    proof {
        lemma_add_entry_unique(entries_view(m@), p@, x@);
    }
    match find_entry(m, p) {
        Some(i) => {
            proof {
                lemma_key_position(entries_view(m@), p@, i as int);
            }
            match m[i].1.checked_add(x) {
                Some(sum) => {
                    let ghost before = entries_view(m@);
                    m.set(i, (p.cloned(), sum));
                    assert(entries_view(m@) == before.update(i as int, (p@, q_add(before[i as int].1, x@))));
                    Ok(())
                },
                None => Err(Error::Overflow),
            }
        },
        None => {
            let ghost before = entries_view(m@);
            m.push((p.cloned(), *x));
            assert(entries_view(m@) == before.push((p@, x@)));
            Ok(())
        },
    }
}

/// The rate recorded for `p`, if there is an entry for it.
fn lookup(m: &Vec<(Product, Rate)>, p: &Product) -> (r: Option<Rate>)
    requires
        unique_keys(entries_view(m@)),
    ensures
        r is Some <==> has_key(entries_view(m@), p@),
        r matches Some(x) ==> x@ == rate_for(entries_view(m@), p@),
{
    match find_entry(m, p) {
        Some(i) => {
            proof {
                lemma_key_position(entries_view(m@), p@, i as int);
            }
            Some(m[i].1)
        },
        None => None,
    }
}

/// What one ingredient contributes per second; see `term`.
fn ingredient_rate(ing: &ProductQuantity<i64>, recipe: &Recipe, speed: &Ratio, howmany: &Ratio) -> (r: Result<
    Rate,
    Error,
>)
    requires
        recipe@.period.0 != 0,
    ensures
        r matches Ok(x) ==> x@ == term(ing@.0, recipe@.period, speed@, howmany@),
        r is Ok <==> term_fits(ing@.0, recipe@.period, speed@, howmany@),
        r matches Err(e) ==> e == Error::Overflow,
{
    let count = ing.quantity();
    if count == i64::MIN {
        return Err(Error::Overflow);
    }
    let per_cycle = match Rate::per_period(count, &recipe.period()) {
        Ok(x) => x,
        Err(_) => return Err(Error::Overflow),
    };
    match per_cycle.checked_mul(speed) {
        Some(fast) => match fast.checked_mul(howmany) {
            Some(total) => Ok(total),
            None => Err(Error::Overflow),
        },
        None => Err(Error::Overflow),
    }
}

/// The contributions of `ings` added to `m` in turn.
fn accumulate_into(
    m: &mut Vec<(Product, Rate)>,
    ings: &Vec<ProductQuantity<i64>>,
    recipe: &Recipe,
    speed: &Ratio,
    howmany: &Ratio,
    consumed: bool,
) -> (r: Result<(), Error>)
    requires
        unique_keys(entries_view(old(m)@)),
        recipe@.period.0 != 0,
    ensures
        unique_keys(entries_view(final(m)@)),
        r is Ok ==> entries_view(final(m)@) == accumulate(
            entries_view(old(m)@),
            crate::recipes::ingredients_view(ings@),
            recipe@.period,
            speed@,
            howmany@,
            consumed,
        ),
        r is Ok <==> accumulate_fits(
            entries_view(old(m)@),
            crate::recipes::ingredients_view(ings@),
            recipe@.period,
            speed@,
            howmany@,
            consumed,
        ),
        r matches Err(e) ==> e == Error::Overflow,
{
    let ghost start = entries_view(m@);
    let ghost all = crate::recipes::ingredients_view(ings@);
    let mut i: usize = 0;
    assert(all.subrange(0, 0) == Seq::<IngredientView>::empty());
    while i < ings.len()
        invariant
            i <= ings@.len(),
            all == crate::recipes::ingredients_view(ings@),
            start == entries_view(old(m)@),
            recipe@.period.0 != 0,
            unique_keys(entries_view(m@)),
            entries_view(m@) == accumulate(
                start,
                all.subrange(0, i as int),
                recipe@.period,
                speed@,
                howmany@,
                consumed,
            ),
            accumulate_fits(start, all.subrange(0, i as int), recipe@.period, speed@, howmany@, consumed),
        decreases ings@.len() - i,
    {
        assert(all.subrange(0, i + 1).drop_last() == all.subrange(0, i as int));
        assert(all.subrange(0, i + 1).last() == ings@[i as int]@);
        let t = match ingredient_rate(&ings[i], recipe, speed, howmany) {
            Ok(t) => t,
            Err(e) => {
                proof {
                    assert(!accumulate_fits(start, all.subrange(0, i + 1), recipe@.period, speed@, howmany@, consumed));
                    if accumulate_fits(start, all, recipe@.period, speed@, howmany@, consumed) {
                        lemma_accumulate_fits_prefix(start, all, recipe@.period, speed@, howmany@, consumed, i + 1);
                    }
                }
                return Err(e);
            },
        };
        let x = if consumed {
            t.neg()
        } else {
            t
        };
        match add_to_entries(m, ings[i].product(), &x) {
            Ok(()) => {},
            Err(e) => {
                proof {
                    assert(!accumulate_fits(start, all.subrange(0, i + 1), recipe@.period, speed@, howmany@, consumed));
                    if accumulate_fits(start, all, recipe@.period, speed@, howmany@, consumed) {
                        lemma_accumulate_fits_prefix(start, all, recipe@.period, speed@, howmany@, consumed, i + 1);
                    }
                }
                return Err(e);
            },
        }
        i = i + 1;
    }
    assert(all.subrange(0, ings@.len() as int) == all);
    Ok(())
}

/// The net rates of `recipe` run at `speed` in `howmany` facilities.
fn compute_crafter_rates(recipe: &Recipe, speed: &Ratio, howmany: &Ratio) -> (r: Result<
    Vec<(Product, Rate)>,
    Error,
>)
    ensures
        recipe@.period.0 == 0 ==> r == Err::<Vec<(Product, Rate)>, Error>(Error::DivisionByZero),
        r matches Ok(v) ==> entries_view(v@) == crafter_rates(recipe@, speed@, howmany@)
            && unique_keys(entries_view(v@)),
        r matches Err(e) ==> e == Error::Overflow || (e == Error::DivisionByZero
            && recipe@.period.0 == 0),
        recipe@.period.0 != 0 ==> (r is Ok <==> crafter_rates_fit(recipe@, speed@, howmany@)),
{
    if recipe.period().is_zero() {
        return Err(Error::DivisionByZero);
    }
    let mut m: Vec<(Product, Rate)> = Vec::new();
    assert(entries_view(m@) == Seq::<(Seq<char>, (int, int))>::empty());
    accumulate_into(&mut m, recipe.outputs(), recipe, speed, howmany, false)?;
    accumulate_into(&mut m, recipe.inputs(), recipe, speed, howmany, true)?;
    Ok(m)
}

/// A recipe run in a (possibly fractional) number of facilities of one kind.
#[derive(Debug)]
pub struct RecipeCrafter {
    recipe: Recipe,
    facility: Facility,
    howmany: Ratio,
    rates: Vec<(Product, Rate)>,
}

impl View for RecipeCrafter {
    type V = CrafterView;

    closed spec fn view(&self) -> CrafterView {
        CrafterView { recipe: self.recipe@, facility: self.facility@, howmany: self.howmany@ }
    }
}

impl RecipeCrafter {
    #[verifier::type_invariant]
    closed spec fn inv(self) -> bool {
        &&& q_is_positive(self.howmany@)
        &&& self.recipe@.period.0 != 0
        &&& entries_view(self.rates@) == rates_of(self@)
        &&& unique_keys(entries_view(self.rates@))
    }

    /// The crafter running `recipe` in `howmany` facilities like `facility`;
    /// `howmany` must be positive.
    pub fn new(recipe: Recipe, facility: Facility, howmany: Ratio) -> (r: Result<RecipeCrafter, Error>)
        ensures
            !q_is_positive(howmany@) ==> r == Err::<RecipeCrafter, Error>(Error::InvalidMultiplier),
            q_is_positive(howmany@) && recipe@.period.0 == 0 ==> r == Err::<RecipeCrafter, Error>(
                Error::DivisionByZero,
            ),
            r matches Ok(c) ==> c@ == (CrafterView {
                recipe: recipe@,
                facility: facility@,
                howmany: howmany@,
            }),
            r matches Err(e) ==> e == Error::Overflow || (e == Error::InvalidMultiplier
                && !q_is_positive(howmany@)) || (e == Error::DivisionByZero && recipe@.period.0
                == 0),
            q_is_positive(howmany@) && recipe@.period.0 != 0 ==> (r is Ok <==> crafter_rates_fit(
                recipe@,
                facility@.speed,
                howmany@,
            )),
    {
        if !howmany.is_positive() {
            return Err(Error::InvalidMultiplier);
        }
        let rates = compute_crafter_rates(&recipe, &facility.speed(), &howmany)?;
        Ok(RecipeCrafter { recipe, facility, howmany, rates })
    }

    /// The crafter running `recipe` in as many facilities like `facility` as
    /// make exactly the goal's rate of the goal's product.
    pub fn with_goal(recipe: Recipe, facility: Facility, goal: &ProductQuantity<Rate>) -> (r: Result<
        RecipeCrafter,
        Error,
    >)
        ensures
            recipe@.period.0 == 0 ==> r == Err::<RecipeCrafter, Error>(Error::DivisionByZero),
            recipe@.period.0 != 0 && !crafter_rates_fit(recipe@, facility@.speed, q_int(1)) ==> r
                == Err::<RecipeCrafter, Error>(Error::Overflow),
            recipe@.period.0 != 0 && crafter_rates_fit(recipe@, facility@.speed, q_int(1)) ==> (r
                == Err::<RecipeCrafter, Error>(Error::DoesNotProduceGoal) <==> !q_is_positive(
                base_rate(recipe@, facility@.speed, goal@.1),
            )),
            recipe@.period.0 != 0 && crafter_rates_fit(recipe@, facility@.speed, q_int(1))
                && q_is_positive(base_rate(recipe@, facility@.speed, goal@.1)) ==> (r is Ok <==> (
            fits(goal_multiplier(recipe@, facility@.speed, goal@)) && q_is_positive(
                goal_multiplier(recipe@, facility@.speed, goal@),
            ) && crafter_rates_fit(
                recipe@,
                facility@.speed,
                goal_multiplier(recipe@, facility@.speed, goal@),
            ))),
            recipe@.period.0 != 0 && crafter_rates_fit(recipe@, facility@.speed, q_int(1))
                && q_is_positive(base_rate(recipe@, facility@.speed, goal@.1)) && fits(
                goal_multiplier(recipe@, facility@.speed, goal@),
            ) && !q_is_positive(goal_multiplier(recipe@, facility@.speed, goal@)) ==> r == Err::<
                RecipeCrafter,
                Error,
            >(Error::InvalidMultiplier),
            r matches Ok(c) ==> c@ == (CrafterView {
                recipe: recipe@,
                facility: facility@,
                howmany: goal_multiplier(recipe@, facility@.speed, goal@),
            }),
            r matches Err(e) ==> e == Error::Overflow || e == Error::DivisionByZero || e
                == Error::DoesNotProduceGoal || e == Error::InvalidMultiplier,
    {
        let one = Ratio::one();
        let trial = RecipeCrafter::new(recipe, facility, one)?;
        proof {
            use_type_invariant(&trial);
        }
        let current = match lookup(&trial.rates, goal.product()) {
            Some(x) => x,
            None => return Err(Error::DoesNotProduceGoal),
        };
        if !current.is_positive() {
            return Err(Error::DoesNotProduceGoal);
        }
        let howmany = match goal.quantity().ratio(&current) {
            Ok(x) => x,
            Err(_) => return Err(Error::Overflow),
        };
        let RecipeCrafter { recipe, facility, howmany: _, rates: _ } = trial;
        RecipeCrafter::new(recipe, facility, howmany)
    }

    pub fn recipe(&self) -> (r: &Recipe)
        ensures
            r@ == self@.recipe,
    {
        &self.recipe
    }

    pub fn facility(&self) -> (r: &Facility)
        ensures
            r@ == self@.facility,
    {
        &self.facility
    }

    pub fn howmany(&self) -> (r: Ratio)
        ensures
            r@ == self@.howmany,
            q_is_positive(r@),
            self@.recipe.period.0 != 0,
    {
        proof {
            use_type_invariant(self);
        }
        self.howmany
    }

    /// The net rate of each product that the recipe makes or uses.
    pub fn rates(&self) -> (r: &Vec<(Product, Rate)>)
        ensures
            entries_view(r@) == rates_of(self@),
            unique_keys(entries_view(r@)),
    {
        proof {
            use_type_invariant(self);
        }
        &self.rates
    }

    /// The net rate of `p`, if the recipe makes or uses it.
    pub fn rate_of(&self, p: &Product) -> (r: Option<Rate>)
        ensures
            r is Some <==> has_key(rates_of(self@), p@),
            r matches Some(x) ==> x@ == rate_for(rates_of(self@), p@),
    {
        proof {
            use_type_invariant(self);
        }
        lookup(&self.rates, p)
    }

    /// A copy of this crafter.
    pub fn cloned(&self) -> (r: RecipeCrafter)
        ensures
            r@ == self@,
    {
        proof {
            use_type_invariant(self);
        }
        let mut rates: Vec<(Product, Rate)> = Vec::new();
        let mut i: usize = 0;
        while i < self.rates.len()
            invariant
                i <= self.rates@.len(),
                rates@.len() == i,
                forall|k: int|
                    0 <= k < i ==> (#[trigger] rates@[k]).0@ == self.rates@[k].0@ && rates@[k].1
                        == self.rates@[k].1,
            decreases self.rates@.len() - i,
        {
            rates.push((self.rates[i].0.cloned(), self.rates[i].1));
            i = i + 1;
        }
        assert(entries_view(rates@) =~= entries_view(self.rates@));
        RecipeCrafter {
            recipe: self.recipe.cloned(),
            facility: self.facility.cloned(),
            howmany: self.howmany,
            rates,
        }
    }

    /// Whether the two crafters run the same recipe in the same number of
    /// the same facilities.
    pub fn same(&self, other: &RecipeCrafter) -> (r: bool)
        ensures
            r == (self@ == other@),
    {
        self.recipe.same(&other.recipe) && self.facility.same(&other.facility)
            && self.howmany.equals(&other.howmany)
    }
}

/// A factory as seen from outside.
pub struct FactoryView {
    /// The goal's product and rate.
    pub goal: (Seq<char>, (int, int)),
    pub crafters: Seq<CrafterView>,
    /// Products left out of the outstanding demand.
    pub ignored: Seq<Seq<char>>,
}

pub open spec fn crafters_view(v: Seq<RecipeCrafter>) -> Seq<CrafterView> {
    v.map_values(|c: RecipeCrafter| c@)
}

pub open spec fn products_view(v: Seq<Product>) -> Seq<Seq<char>> {
    v.map_values(|p: Product| p@)
}

/// Whether an entry is outstanding demand: negative and not ignored.
pub open spec fn outstanding(ignored: Seq<Seq<char>>) -> spec_fn((Seq<char>, (int, int))) -> bool {
    |e: (Seq<char>, (int, int))| q_is_negative(e.1) && !ignored.contains(e.0)
}

/// Whether a crafter makes `p`: its net rate for it is positive.
pub open spec fn makes(p: Seq<char>) -> spec_fn(CrafterView) -> bool {
    |c: CrafterView| has_key(rates_of(c), p) && q_is_positive(rate_for(rates_of(c), p))
}

/// The crafter with `howmany` scaled so that its rate of the target
/// changes from `current` by `delta`.
pub open spec fn upgraded(c: CrafterView, current: (int, int), delta: (int, int)) -> CrafterView {
    CrafterView {
        recipe: c.recipe,
        facility: c.facility,
        howmany: q_mul(c.howmany, q_div(q_add(current, delta), current)),
    }
}

/// A factory with no crafters and nothing ignored has one outstanding
/// demand: its goal's product, at the goal's rate negated.
pub proof fn lemma_bare_factory_demands_goal(goal: (Seq<char>, (int, int)))
    requires
        q_is_positive(goal.1),
    ensures
        factory_rates(goal, Seq::empty()).filter(outstanding(Seq::empty())) == seq![
            (goal.0, q_neg(goal.1)),
        ],
{
    reveal(Seq::filter);
    let m = factory_rates(goal, Seq::empty());
    assert(m == seq![(goal.0, q_neg(goal.1))]);
    assert(m.drop_last() == Seq::<(Seq<char>, (int, int))>::empty());
    assert(!Seq::<Seq<char>>::empty().contains(goal.0));
    assert(m.drop_last().filter(outstanding(Seq::empty())) == Seq::<(Seq<char>, (int, int))>::empty());
}

/// Where `c` first stands among the crafters.
pub open spec fn first_position(s: Seq<CrafterView>, c: CrafterView) -> int {
    choose|k: int| 0 <= k < s.len() && s[k] == c && forall|j: int| 0 <= j < k ==> s[j] != c
}

/// The rate of the increase's product that `c` would make after the increase.
pub open spec fn upgrade_sum(c: CrafterView, inc: (Rate, Seq<char>)) -> (int, int) {
    q_add(rate_for(rates_of(c), inc.1), inc.0@)
}

/// The crafters with the first one equal to `c` upgraded by `inc`.
pub open spec fn upgraded_crafters(s: Seq<CrafterView>, c: CrafterView, inc: (Rate, Seq<char>)) -> Seq<
    CrafterView,
> {
    s.update(first_position(s, c), upgraded(c, rate_for(rates_of(c), inc.1), inc.0@))
}

/// Every value that upgrading `c` by `inc` computes fits in a `Ratio`.
pub open spec fn upgrade_fits(f: FactoryView, c: CrafterView, inc: (Rate, Seq<char>)) -> bool {
    let cur = rate_for(rates_of(c), inc.1);
    let sum = upgrade_sum(c, inc);
    let h = upgraded(c, cur, inc.0@).howmany;
    &&& fits(sum)
    &&& fits(q_div(sum, cur))
    &&& fits(h)
    &&& crafter_rates_fit(c.recipe, c.facility.speed, h)
    &&& factory_rates_fit(f.goal, upgraded_crafters(f.crafters, c, inc))
}

/// The net rates of a goal and a list of crafters.
fn compute_factory_rates(goal: &ProductQuantity<Rate>, crafters: &Vec<RecipeCrafter>) -> (r: Result<
    Vec<(Product, Rate)>,
    Error,
>)
    ensures
        r matches Ok(v) ==> entries_view(v@) == factory_rates(
            (goal@.1, goal@.0@),
            crafters_view(crafters@),
        ) && unique_keys(entries_view(v@)),
        r is Ok <==> factory_rates_fit((goal@.1, goal@.0@), crafters_view(crafters@)),
        r matches Err(e) ==> e == Error::Overflow,
{
    let ghost g = (goal@.1, goal@.0@);
    let ghost cv = crafters_view(crafters@);
    let mut m: Vec<(Product, Rate)> = Vec::new();
    m.push((goal.product().cloned(), goal.quantity().neg()));
    assert(entries_view(m@) == seq![(g.0, q_neg(g.1))]);
    assert(cv.subrange(0, 0) == Seq::<CrafterView>::empty());
    let mut k: usize = 0;
    while k < crafters.len()
        invariant
            k <= crafters@.len(),
            cv == crafters_view(crafters@),
            g == (goal@.1, goal@.0@),
            unique_keys(entries_view(m@)),
            entries_view(m@) == factory_rates(g, cv.subrange(0, k as int)),
            factory_rates_fit(g, cv.subrange(0, k as int)),
        decreases crafters@.len() - k,
    {
        let rk = crafters[k].rates();
        let ghost base = entries_view(m@);
        let ghost ek = entries_view(rk@);
        assert(cv.subrange(0, k + 1).drop_last() == cv.subrange(0, k as int));
        assert(cv.subrange(0, k + 1).last() == crafters@[k as int]@);
        let mut j: usize = 0;
        assert(ek.subrange(0, 0) == Seq::<(Seq<char>, (int, int))>::empty());
        while j < rk.len()
            invariant
                j <= rk@.len(),
                ek == entries_view(rk@),
                ek == rates_of(cv[k as int]),
                k < crafters@.len(),
                cv == crafters_view(crafters@),
                g == (goal@.1, goal@.0@),
                base == factory_rates(g, cv.subrange(0, k as int)),
                factory_rates_fit(g, cv.subrange(0, k as int)),
                cv.subrange(0, k + 1).drop_last() == cv.subrange(0, k as int),
                cv.subrange(0, k + 1).last() == cv[k as int],
                unique_keys(entries_view(m@)),
                entries_view(m@) == merge(base, ek.subrange(0, j as int)),
                merge_fits(base, ek.subrange(0, j as int)),
            decreases rk@.len() - j,
        {
            assert(ek.subrange(0, j + 1).drop_last() == ek.subrange(0, j as int));
            assert(ek.subrange(0, j + 1).last() == ek[j as int]);
            match add_to_entries(&mut m, &rk[j].0, &rk[j].1) {
                Ok(()) => {},
                Err(e) => {
                    proof {
                        assert(!merge_fits(base, ek.subrange(0, j + 1)));
                        if merge_fits(base, ek) {
                            lemma_merge_fits_prefix(base, ek, j + 1);
                        }
                        assert(!factory_rates_fit(g, cv.subrange(0, k + 1)));
                        if factory_rates_fit(g, cv) {
                            lemma_factory_rates_fit_prefix(g, cv, k + 1);
                        }
                    }
                    return Err(e);
                },
            }
            j = j + 1;
        }
        assert(ek.subrange(0, rk@.len() as int) == ek);
        k = k + 1;
    }
    assert(cv.subrange(0, crafters@.len() as int) == cv);
    Ok(m)
}

proof fn lemma_push_contains(s: Seq<Seq<char>>, x: Seq<char>, q: Seq<char>)
    ensures
        s.push(x).contains(q) <==> s.contains(q) || q == x,
{
    if s.push(x).contains(q) {
        let k = choose|k: int| 0 <= k < s.push(x).len() && s.push(x)[k] == q;
        if k < s.len() {
            assert(s[k] == q);
        }
    }
    if s.contains(q) {
        let k = choose|k: int| 0 <= k < s.len() && s[k] == q;
        assert(s.push(x)[k] == q);
    }
    if q == x {
        assert(s.push(x)[s.len() as int] == q);
    }
}

/// Whether `p` is among the products.
fn contains_product(v: &Vec<Product>, p: &Product) -> (r: bool)
    ensures
        r == products_view(v@).contains(p@),
{
    let mut i: usize = 0;
    while i < v.len()
        invariant
            i <= v@.len(),
            forall|k: int| 0 <= k < i ==> #[trigger] products_view(v@)[k] != p@,
        decreases v@.len() - i,
    {
        if v[i].same(p) {
            assert(products_view(v@)[i as int] == p@);
            return true;
        }
        i = i + 1;
    }
    false
}

/// Crafters aimed together at a goal rate of one product.
#[derive(Debug)]
pub struct Factory {
    goal: ProductQuantity<Rate>,
    crafters: Vec<RecipeCrafter>,
    rates: Vec<(Product, Rate)>,
    ignoredrates: Vec<Product>,
}

impl View for Factory {
    type V = FactoryView;

    closed spec fn view(&self) -> FactoryView {
        FactoryView {
            goal: (self.goal@.1, self.goal@.0@),
            crafters: crafters_view(self.crafters@),
            ignored: products_view(self.ignoredrates@),
        }
    }
}

impl Factory {
    /// The recorded rates are those of the goal and the crafters.
    pub closed spec fn wf(&self) -> bool {
        &&& entries_view(self.rates@) == factory_rates(self@.goal, self@.crafters)
        &&& unique_keys(entries_view(self.rates@))
    }

    /// A factory with no crafters, aimed at `goal`.
    pub fn new(goal: ProductQuantity<Rate>) -> (r: Factory)
        ensures
            r.wf(),
            r@.goal == (goal@.1, goal@.0@),
            r@.crafters.len() == 0,
            r@.ignored.len() == 0,
    {
        let mut rates: Vec<(Product, Rate)> = Vec::new();
        rates.push((goal.product().cloned(), goal.quantity().neg()));
        let r = Factory { goal, crafters: Vec::new(), rates, ignoredrates: Vec::new() };
        assert(r@.crafters == Seq::<CrafterView>::empty());
        assert(entries_view(r.rates@) == seq![(r@.goal.0, q_neg(r@.goal.1))]);
        r
    }

    pub fn goal(&self) -> (r: &ProductQuantity<Rate>)
        ensures
            (r@.1, r@.0@) == self@.goal,
    {
        &self.goal
    }

    pub fn crafters(&self) -> (r: &Vec<RecipeCrafter>)
        ensures
            crafters_view(r@) == self@.crafters,
    {
        &self.crafters
    }

    /// The net rate of each product: the goal counted as consumption, plus
    /// every crafter's rates.
    pub fn rates(&self) -> (r: &Vec<(Product, Rate)>)
        requires
            self.wf(),
        ensures
            entries_view(r@) == factory_rates(self@.goal, self@.crafters),
            unique_keys(entries_view(r@)),
    {
        &self.rates
    }

    /// Whether `p`, which must have a rate in the factory, is ignored.
    pub fn isignored(&self, p: &Product) -> (r: Result<bool, Error>)
        requires
            self.wf(),
        ensures
            !has_key(factory_rates(self@.goal, self@.crafters), p@) ==> (r matches Err(e) && e
                == Error::UnknownProduct(e->UnknownProduct_0) && e->UnknownProduct_0@ == p@),
            has_key(factory_rates(self@.goal, self@.crafters), p@) ==> r == Ok::<bool, Error>(
                self@.ignored.contains(p@),
            ),
    {
        match find_entry(&self.rates, p) {
            None => Err(Error::UnknownProduct(p.name().to_owned())),
            Some(_) => Ok(contains_product(&self.ignoredrates, p)),
        }
    }

    /// The outstanding demand: every negative rate of a product that is not
    /// ignored, in the order of the rates.
    pub fn negativerates(&self) -> (r: Vec<(Product, Rate)>)
        requires
            self.wf(),
        ensures
            entries_view(r@) == factory_rates(self@.goal, self@.crafters).filter(
                outstanding(self@.ignored),
            ),
    {
        let ghost all = entries_view(self.rates@);
        let ghost f = outstanding(self@.ignored);
        let mut out: Vec<(Product, Rate)> = Vec::new();
        let mut i: usize = 0;
        proof {
            reveal(Seq::filter);
            assert(all.subrange(0, 0) == Seq::<(Seq<char>, (int, int))>::empty());
        }
        while i < self.rates.len()
            invariant
                i <= self.rates@.len(),
                all == entries_view(self.rates@),
                f == outstanding(self@.ignored),
                entries_view(out@) == all.subrange(0, i as int).filter(f),
            decreases self.rates@.len() - i,
        {
            let ghost before = entries_view(out@);
            let e = &self.rates[i];
            proof {
                reveal(Seq::filter);
                assert(all.subrange(0, i + 1).drop_last() == all.subrange(0, i as int));
                assert(all.subrange(0, i + 1).last() == all[i as int]);
            }
            if e.1.is_negative() && !contains_product(&self.ignoredrates, &e.0) {
                out.push((e.0.cloned(), e.1));
                assert(entries_view(out@) == before.push(all[i as int]));
            }
            i = i + 1;
        }
        assert(all.subrange(0, self.rates@.len() as int) == all);
        out
    }

    /// The connected crafters that make `p`, in the order of connection.
    pub fn findcrafters(&self, p: &Product) -> (r: Vec<&RecipeCrafter>)
        ensures
            r@.map_values(|c: &RecipeCrafter| c@) == self@.crafters.filter(makes(p@)),
    {
        let ghost all = self@.crafters;
        let ghost f = makes(p@);
        let mut out: Vec<&RecipeCrafter> = Vec::new();
        let mut i: usize = 0;
        proof {
            reveal(Seq::filter);
            assert(all.subrange(0, 0) == Seq::<CrafterView>::empty());
        }
        while i < self.crafters.len()
            invariant
                i <= self.crafters@.len(),
                all == self@.crafters,
                f == makes(p@),
                out@.map_values(|c: &RecipeCrafter| c@) == all.subrange(0, i as int).filter(f),
            decreases self.crafters@.len() - i,
        {
            let ghost before = out@.map_values(|c: &RecipeCrafter| c@);
            let c = &self.crafters[i];
            proof {
                reveal(Seq::filter);
                assert(all.subrange(0, i + 1).drop_last() == all.subrange(0, i as int));
                assert(all.subrange(0, i + 1).last() == all[i as int]);
            }
            let makes_it = match c.rate_of(p) {
                Some(x) => x.is_positive(),
                None => false,
            };
            if makes_it {
                out.push(c);
                assert(out@.map_values(|c: &RecipeCrafter| c@) == before.push(all[i as int]));
            }
            i = i + 1;
        }
        assert(all.subrange(0, self.crafters@.len() as int) == all);
        out
    }

    /// Marks `p`, which must have a rate in the factory, as ignored.
    pub fn setignored(&mut self, p: &Product) -> (r: Result<(), Error>)
        requires
            old(self).wf(),
        ensures
            final(self).wf(),
            final(self)@.goal == old(self)@.goal,
            final(self)@.crafters == old(self)@.crafters,
            !has_key(factory_rates(old(self)@.goal, old(self)@.crafters), p@) ==> (r matches Err(e)
                && e == Error::UnknownProduct(e->UnknownProduct_0) && e->UnknownProduct_0@ == p@
                && final(self)@.ignored == old(self)@.ignored),
            has_key(factory_rates(old(self)@.goal, old(self)@.crafters), p@) ==> r is Ok,
            r is Ok ==> forall|q: Seq<char>|
                #[trigger] final(self)@.ignored.contains(q) <==> old(self)@.ignored.contains(q) || q
                    == p@,
    {
        if find_entry(&self.rates, p).is_none() {
            return Err(Error::UnknownProduct(p.name().to_owned()));
        }
        if !contains_product(&self.ignoredrates, p) {
            let ghost before = products_view(self.ignoredrates@);
            self.ignoredrates.push(p.cloned());
            assert(products_view(self.ignoredrates@) == before.push(p@));
            assert forall|q: Seq<char>|
                #[trigger] products_view(self.ignoredrates@).contains(q) <==> before.contains(q) || q
                    == p@ by {
                lemma_push_contains(before, p@, q);
            }
        }
        Ok(())
    }

    /// Marks every product that has a rate in the factory as ignored.
    pub fn setallignored(&mut self)
        requires
            old(self).wf(),
        ensures
            final(self).wf(),
            final(self)@.goal == old(self)@.goal,
            final(self)@.crafters == old(self)@.crafters,
            forall|q: Seq<char>|
                #[trigger] final(self)@.ignored.contains(q) <==> old(self)@.ignored.contains(q)
                    || has_key(factory_rates(old(self)@.goal, old(self)@.crafters), q),
    {
        let ghost start = products_view(self.ignoredrates@);
        let ghost keys = entries_view(self.rates@);
        let ghost s0 = self@;
        let mut i: usize = 0;
        while i < self.rates.len()
            invariant
                i <= self.rates@.len(),
                keys == entries_view(self.rates@),
                keys == factory_rates(s0.goal, s0.crafters),
                self.wf(),
                self@.goal == s0.goal,
                self@.crafters == s0.crafters,
                forall|q: Seq<char>|
                    #[trigger] products_view(self.ignoredrates@).contains(q) <==> start.contains(q)
                        || exists|k: int| 0 <= k < i && keys[k].0 == q,
            decreases self.rates@.len() - i,
        {
            let ghost before = products_view(self.ignoredrates@);
            if !contains_product(&self.ignoredrates, &self.rates[i].0) {
                let p = self.rates[i].0.cloned();
                self.ignoredrates.push(p);
                assert(products_view(self.ignoredrates@) == before.push(keys[i as int].0));
            }
            assert forall|q: Seq<char>|
                #[trigger] products_view(self.ignoredrates@).contains(q) <==> start.contains(q)
                    || exists|k: int| 0 <= k < i + 1 && keys[k].0 == q by {
                lemma_push_contains(before, keys[i as int].0, q);
                if exists|k: int| 0 <= k < i + 1 && keys[k].0 == q {
                    let k = choose|k: int| 0 <= k < i + 1 && keys[k].0 == q;
                    if k < i {
                        assert(before.contains(q));
                    }
                }
                if before.contains(q) && !start.contains(q) {
                    let k = choose|k: int| 0 <= k < i && keys[k].0 == q;
                    assert(0 <= k < i + 1 && keys[k].0 == q);
                }
            }
            i = i + 1;
        }
    }

    /// Connects `rc`, which must not equal a crafter already connected.
    pub fn connectcrafter(&mut self, rc: RecipeCrafter) -> (r: Result<(), Error>)
        requires
            old(self).wf(),
        ensures
            final(self).wf(),
            final(self)@.goal == old(self)@.goal,
            final(self)@.ignored == old(self)@.ignored,
            old(self)@.crafters.contains(rc@) ==> r == Err::<(), Error>(Error::DuplicateCrafter),
            r is Ok ==> final(self)@.crafters == old(self)@.crafters.push(rc@),
            r is Err ==> final(self)@.crafters == old(self)@.crafters,
            r matches Err(e) ==> e == Error::Overflow || (e == Error::DuplicateCrafter
                && old(self)@.crafters.contains(rc@)),
            !old(self)@.crafters.contains(rc@) ==> (r is Ok <==> factory_rates_fit(
                old(self)@.goal,
                old(self)@.crafters.push(rc@),
            )),
    {
        let ghost s0 = self@;
        let mut i: usize = 0;
        while i < self.crafters.len()
            invariant
                i <= self.crafters@.len(),
                self.wf(),
                self@ == s0,
                forall|k: int| 0 <= k < i ==> #[trigger] self@.crafters[k] != rc@,
            decreases self.crafters@.len() - i,
        {
            if self.crafters[i].same(&rc) {
                assert(self@.crafters[i as int] == rc@);
                return Err(Error::DuplicateCrafter);
            }
            i = i + 1;
        }
        let ghost before = self@.crafters;
        let rc_view = Ghost(rc@);
        self.crafters.push(rc);
        assert(self@.crafters == before.push(rc_view@));
        match compute_factory_rates(&self.goal, &self.crafters) {
            Ok(rates) => {
                self.rates = rates;
                Ok(())
            },
            Err(e) => {
                self.crafters.pop();
                assert(self@.crafters == before);
                Err(e)
            },
        }
    }

    /// Rescales the first connected crafter equal to `rc` so that its net
    /// rate of the increase's product changes by the increase's rate.
    pub fn upgradecrafter(&mut self, rc: &RecipeCrafter, productionincrease: &ProductQuantity<Rate>) -> (r:
        Result<(), Error>)
        requires
            old(self).wf(),
        ensures
            final(self).wf(),
            final(self)@.goal == old(self)@.goal,
            final(self)@.ignored == old(self)@.ignored,
            r is Err ==> final(self)@.crafters == old(self)@.crafters,
            !old(self)@.crafters.contains(rc@) ==> r == Err::<(), Error>(Error::NotConnected),
            old(self)@.crafters.contains(rc@) && !makes(productionincrease@.1)(rc@) ==> r == Err::<
                (),
                Error,
            >(Error::NotAProducer),
            old(self)@.crafters.contains(rc@) && makes(productionincrease@.1)(rc@) && !q_is_positive(
                upgrade_sum(rc@, productionincrease@),
            ) ==> r == Err::<(), Error>(Error::InfeasibleUpgrade),
            old(self)@.crafters.contains(rc@) && makes(productionincrease@.1)(rc@) && q_is_positive(
                upgrade_sum(rc@, productionincrease@),
            ) ==> (r is Ok <==> upgrade_fits(old(self)@, rc@, productionincrease@)) && (r matches Err(
                e,
            ) ==> e == Error::Overflow),
            r is Ok ==> final(self)@.crafters == upgraded_crafters(
                old(self)@.crafters,
                rc@,
                productionincrease@,
            ),
    {
        let target = productionincrease.product();
        let delta = productionincrease.quantity();
        let ghost s0 = self@;
        let mut i: usize = 0;
        let mut found: Option<usize> = None;
        while i < self.crafters.len()
            invariant
                i <= self.crafters@.len(),
                self.wf(),
                self@ == s0,
                found matches Some(k) ==> k < self.crafters@.len() && self@.crafters[k as int] == rc@
                    && forall|j: int| 0 <= j < k ==> #[trigger] self@.crafters[j] != rc@,
                found is None ==> forall|k: int| 0 <= k < i ==> #[trigger] self@.crafters[k] != rc@,
            decreases self.crafters@.len() - i,
        {
            if found.is_none() && self.crafters[i].same(rc) {
                found = Some(i);
            }
            i = i + 1;
        }
        let k = match found {
            Some(k) => k,
            None => return Err(Error::NotConnected),
        };
        proof {
            let f = first_position(s0.crafters, rc@);
            assert(0 <= f < s0.crafters.len() && s0.crafters[f] == rc@ && forall|j: int|
                0 <= j < f ==> s0.crafters[j] != rc@) by {
                assert(0 <= k < s0.crafters.len() && s0.crafters[k as int] == rc@ && forall|j: int|
                    0 <= j < k ==> s0.crafters[j] != rc@);
            }
            assert(f == k);
        }
        let current = match rc.rate_of(target) {
            Some(x) => x,
            None => return Err(Error::NotAProducer),
        };
        if !current.is_positive() {
            return Err(Error::NotAProducer);
        }
        if !current.persecond.sum_is_positive(&delta.persecond) {
            return Err(Error::InfeasibleUpgrade);
        }
        let sum = match current.checked_add(&delta) {
            Some(s) => s,
            None => return Err(Error::Overflow),
        };
        let ratio = match sum.ratio(&current) {
            Ok(x) => x,
            Err(_) => return Err(Error::Overflow),
        };
        let old_howmany = rc.howmany();
        let howmany = match old_howmany.checked_mul(&ratio) {
            Some(h) => h,
            None => return Err(Error::Overflow),
        };
        current.persecond.check_valid();
        sum.persecond.check_valid();
        ratio.check_valid();
        old_howmany.check_valid();
        proof {
            lemma_div_positive(sum@, current@);
            lemma_mul_positive(old_howmany@, ratio@);
        }
        let replacement = match RecipeCrafter::new(rc.recipe().cloned(), rc.facility().cloned(), howmany) {
            Ok(c) => c,
            Err(_) => return Err(Error::Overflow),
        };
        let ghost before = self@.crafters;
        let mut crafters: Vec<RecipeCrafter> = Vec::new();
        let mut j: usize = 0;
        while j < self.crafters.len()
            invariant
                j <= self.crafters@.len(),
                before == self@.crafters,
                k < self.crafters@.len(),
                crafters@.len() == j,
                forall|m: int|
                    0 <= m < j ==> #[trigger] crafters@[m]@ == (if m == k {
                        replacement@
                    } else {
                        before[m]
                    }),
            decreases self.crafters@.len() - j,
        {
            if j == k {
                crafters.push(replacement.cloned());
            } else {
                crafters.push(self.crafters[j].cloned());
            }
            j = j + 1;
        }
        assert(crafters_view(crafters@) == before.update(k as int, replacement@));
        match compute_factory_rates(&self.goal, &crafters) {
            Ok(rates) => {
                self.crafters = crafters;
                self.rates = rates;
                Ok(())
            },
            Err(e) => Err(e),
        }
    }
}

} // verus!
