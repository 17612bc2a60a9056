use std::collections::hash_map::DefaultHasher;
use std::hash::{Hash, Hasher};
use rustio::abbreviations::{Abbreviation, AbbreviationResolver};
use rustio::add;
use rustio::error::Error;
use rustio::facilities::{Facility, FacilityCategory};
use rustio::factories::{Factory, RecipeCrafter};
use rustio::products::{Product, ProductQuantity};
use rustio::rates::{Rate, Time};
use rustio::rational::Ratio;
use rustio::rational_literals::{readrational, tryreadrational};
use rustio::recipe_readers::{
    parsearrowline, parseingredient, parsenametagline, readrecipe, readrecipelines,
    splitonblanklines,
};
use rustio::recipes::Recipe;

fn ratio(n: i64, d: i64) -> Ratio {
    Ratio::new(n, d).unwrap()
}

fn pq(n: i64, name: &str) -> ProductQuantity<i64> {
    ProductQuantity::with_productname(n, name).unwrap()
}

fn lines(v: &[&str]) -> Vec<String> {
    v.iter().map(|s| s.to_string()).collect()
}

fn texts(v: &[&str]) -> Vec<String> {
    lines(v)
}

fn gear_recipe(period: i64) -> Recipe {
    Recipe::new(
        None,
        vec![pq(1, "Gear")],
        vec![pq(1, "Iron Ingot")],
        Time::new(Ratio::from_integer(period)),
        FacilityCategory::new("Assembler").unwrap(),
    )
    .unwrap()
}

fn plain_facility(speed: Ratio) -> Facility {
    Facility::with_categoryname("Assembler", String::new(), speed).unwrap()
}

fn gear_rate(n: i64) -> ProductQuantity<Rate> {
    ProductQuantity::new(Rate::new(Ratio::from_integer(n)), Product::new("Gear").unwrap())
}

#[test]
fn it_works() {
    let result = add(2, 2);
    assert_eq!(result, 4);
}

// Abbreviations

#[test]
fn abbreviation_keeps_only_token_capitals() {
    let mt = Abbreviation::new("MT").unwrap();
    assert!(mt.abbreviates("MaTrix"));
    assert!(!mt.abbreviates("MaTXport"));
    assert!(!mt.abbreviates("AutoMatTransport"));
    assert!(mt.abbreviates("Mass Transit"));
    assert!(!mt.abbreviates("Mass"));
}

#[test]
fn abbreviation_lowercase_letters_are_kept_in_place() {
    let a = Abbreviation::new("IoI").unwrap();
    assert!(a.abbreviates("Iron Ingot"));
    assert!(!a.abbreviates("Iridium Ingot"));
    assert!(!Abbreviation::new("oI").unwrap().abbreviates("Iron Ingot"));
}

#[test]
fn abbreviation_rejects_non_letters() {
    assert!(matches!(Abbreviation::new("M1"), Err(Error::InvalidAbbreviation(t)) if t == "M1"));
    assert!(matches!(Abbreviation::new(""), Err(Error::InvalidAbbreviation(_))));
    assert_eq!(Abbreviation::new("Ab").unwrap().st(), "Ab");
}

#[test]
fn resolve_ambiguous_lists_all_matches() {
    let mut r = AbbreviationResolver::new(texts(&["Iron Ingot", "Iridium Ingot", "Copper Ore"]));
    match r.call("II") {
        Err(Error::AmbiguousMatch(token, mut found)) => {
            assert_eq!(token, "II");
            found.sort();
            assert_eq!(found, texts(&["Iridium Ingot", "Iron Ingot"]));
        }
        other => panic!("unexpected {:?}", other),
    }
}

#[test]
fn resolve_by_capitals_alone() {
    let mut r = AbbreviationResolver::new(texts(&["Iron Ingot", "Iron Ore"]));
    assert_eq!(r.call("II").unwrap(), "Iron Ingot");
    assert_eq!(r.call("IO").unwrap(), "Iron Ore");
    let mut r2 = AbbreviationResolver::new(texts(&["Iron Ingot", "Copper Ingot"]));
    assert_eq!(r2.call("CI").unwrap(), "Copper Ingot");
    assert!(matches!(r2.call("iI"), Err(Error::NoMatch(t)) if t == "iI"));
}

#[test]
fn resolve_lowercase_pins_candidate() {
    let mut r = AbbreviationResolver::new(texts(&["Iron Ingot", "Iridium Ingot"]));
    assert_eq!(r.call("IoI").unwrap(), "Iron Ingot");
    assert_eq!(r.call("IdI").unwrap(), "Iridium Ingot");
}

#[test]
fn resolve_no_match_and_invalid_token() {
    let mut r = AbbreviationResolver::new(texts(&["Gear", "Magnet"]));
    assert!(matches!(r.call("X"), Err(Error::NoMatch(t)) if t == "X"));
    assert!(matches!(r.call("G r"), Err(Error::InvalidAbbreviation(_))));
}

#[test]
fn resolve_twice_gives_same_answer() {
    let mut r = AbbreviationResolver::new(texts(&["Electromagnetic Turbine", "Electric Motor"]));
    let first = r.call("ET").unwrap();
    let second = r.call("ET").unwrap();
    assert_eq!(first, "Electromagnetic Turbine");
    assert_eq!(first, second);
}

// Rationals, times and rates

#[test]
fn ratio_reduces_to_lowest_terms() {
    let r = ratio(6, -4);
    assert_eq!((r.numer(), r.denom()), (-3, 2));
    assert!(Ratio::new(0, -7).unwrap().is_zero());
    assert!(Ratio::new(i64::MIN, 1).is_none());
}

#[test]
fn ratio_arithmetic_is_exact() {
    let a = ratio(1, 3);
    let b = ratio(1, 6);
    let s = a.checked_add(&b).unwrap();
    assert_eq!((s.numer(), s.denom()), (1, 2));
    let d = a.checked_sub(&b).unwrap();
    assert_eq!((d.numer(), d.denom()), (1, 6));
    let m = a.checked_mul(&b).unwrap();
    assert_eq!((m.numer(), m.denom()), (1, 18));
    let q = a.checked_div(&b).unwrap();
    assert_eq!((q.numer(), q.denom()), (2, 1));
    let big = Ratio::from_integer(i64::MAX);
    assert!(big.checked_add(&big).is_none());
}

#[test]
fn time_and_rate_are_reciprocal() {
    let t = Time::new(ratio(3, 2));
    let r = Rate::from_time(&t).unwrap();
    assert_eq!((r.persecond.numer(), r.persecond.denom()), (2, 3));
    let back = Time::from_rate(&r).unwrap();
    assert_eq!(back, t);
    assert!(matches!(Rate::from_time(&Time::zero()), Err(Error::DivisionByZero)));
    let per = Rate::per_period(3, &Time::new(Ratio::from_integer(2))).unwrap();
    assert_eq!((per.persecond.numer(), per.persecond.denom()), (3, 2));
    let cycles = t.cycles(&r).unwrap();
    assert_eq!((cycles.numer(), cycles.denom()), (1, 1));
}

#[test]
fn read_rational_forms() {
    let r = readrational("1/2").unwrap();
    assert_eq!((r.numer(), r.denom()), (1, 2));
    let r = readrational(" - 6 // 4 ").unwrap();
    assert_eq!((r.numer(), r.denom()), (-3, 2));
    let r = readrational("1.5").unwrap();
    assert_eq!((r.numer(), r.denom()), (3, 2));
    let r = readrational(".25").unwrap();
    assert_eq!((r.numer(), r.denom()), (1, 4));
    let r = readrational("-7").unwrap();
    assert_eq!((r.numer(), r.denom()), (-7, 1));
    assert!(matches!(readrational("abc"), Err(Error::MalformedQuantity(t)) if t == "abc"));
    assert!(tryreadrational("1/0").is_none());
    assert!(tryreadrational("1///2").is_none());
    assert!(tryreadrational(".").is_none());
    assert!(tryreadrational("1.2.3").is_none());
    assert!(tryreadrational("99999999999999999999").is_none());
}

// Products, facilities and recipes

#[test]
fn product_names_are_trimmed_and_not_blank() {
    assert_eq!(Product::new("  Gear \t").unwrap().name(), "Gear");
    assert!(matches!(Product::new("   "), Err(Error::EmptyName)));
    assert!(matches!(FacilityCategory::new(""), Err(Error::EmptyName)));
    let q = pq(3, " Magnet ");
    assert_eq!((q.quantity(), q.name()), (3, "Magnet"));
    assert_eq!(q.product(), &Product::new("Magnet").unwrap());
}

#[test]
fn facility_name_joins_adjective_and_category() {
    let f = Facility::with_categoryname("Smelter", "Arc".to_string(), ratio(1, 1)).unwrap();
    assert_eq!(f.name(), "Arc Smelter");
    assert_eq!(f.categoryname(), "Smelter");
    assert_eq!(plain_facility(ratio(3, 2)).name(), "Assembler");
    assert_eq!(plain_facility(ratio(3, 2)).speed(), ratio(3, 2));
}

#[test]
fn recipe_permuted_lists_are_equal() {
    let period = Time::new(Ratio::from_integer(1));
    let a = Recipe::new(
        None,
        vec![pq(2, "Gear")],
        vec![pq(1, "Iron Ingot"), pq(1, "Copper Ingot")],
        period,
        FacilityCategory::new("Assembler").unwrap(),
    )
    .unwrap();
    let b = Recipe::new(
        None,
        vec![pq(2, "Gear")],
        vec![pq(1, "Copper Ingot"), pq(1, "Iron Ingot")],
        period,
        FacilityCategory::new("Assembler").unwrap(),
    )
    .unwrap();
    assert!(a == b);
    assert_eq!(a.name(), "Gear");
    assert_eq!(a.inputs()[0].name(), "Copper Ingot");
}

#[test]
fn recipe_sorts_by_name_then_amount() {
    let r = Recipe::with_name(
        " Mixed ",
        vec![pq(2, "B"), pq(1, "B"), pq(5, "A")],
        vec![pq(1, "C")],
        Time::new(Ratio::from_integer(1)),
        FacilityCategory::new("Lab").unwrap(),
    )
    .unwrap();
    let got: Vec<(i64, String)> =
        r.outputs().iter().map(|q| (q.quantity(), q.name().to_string())).collect();
    assert_eq!(got, vec![(5, "A".to_string()), (1, "B".to_string()), (2, "B".to_string())]);
    assert_eq!(r.name(), "Mixed");
}

#[test]
fn recipe_construction_errors() {
    let t = Time::new(Ratio::from_integer(1));
    let cat = || FacilityCategory::new("Lab").unwrap();
    assert!(matches!(Recipe::new(Some("  "), vec![pq(1, "A")], vec![pq(1, "B")], t, cat()), Err(Error::EmptyName)));
    assert!(matches!(Recipe::new(Some("X"), vec![], vec![pq(1, "B")], t, cat()), Err(Error::EmptyIngredientList)));
    assert!(matches!(Recipe::new(None, vec![pq(1, "A")], vec![], t, cat()), Err(Error::EmptyIngredientList)));
    assert!(matches!(
        Recipe::new(None, vec![pq(1, "A"), pq(1, "C")], vec![pq(1, "B")], t, cat()),
        Err(Error::AmbiguousAutoName)
    ));
}

// Recipe file grammar

#[test]
fn split_on_blank_lines_drops_empty_blocks() {
    let blocks = splitonblanklines(&lines(&["", "a", "b", "", "", "c", ""]));
    assert_eq!(blocks, vec![lines(&["a", "b"]), lines(&["c"])]);
    assert!(splitonblanklines(&lines(&["", ""])).is_empty());
}

#[test]
fn parse_single_lines() {
    let block = lines(&["2 Gear", "^ 1.5 s (Assembler)", "<> Gears"]);
    let g = parseingredient(&block, 0).unwrap().unwrap();
    assert_eq!((g.quantity(), g.name()), (2, "Gear"));
    assert!(parseingredient(&block, 1).unwrap().is_none());
    assert!(parseingredient(&block, 7).unwrap().is_none());
    let (t, c) = parsearrowline(&block, 1).unwrap();
    assert_eq!(t, Time::new(ratio(3, 2)));
    assert_eq!(c.name(), "Assembler");
    assert_eq!(parsenametagline(&block, 2).unwrap().unwrap(), "Gears");
    assert!(matches!(parsenametagline(&block, 1), Err(Error::MisplacedNametag(_))));
    let big = lines(&["99999999999999999999 Gear"]);
    assert!(matches!(parseingredient(&big, 0), Err(Error::MalformedQuantity(_))));
}

#[test]
fn read_recipe_block() {
    let block = lines(&["1 Gear", "^ 1 s (Assembler)", "1 Iron Ingot"]);
    let r = readrecipe(&block).unwrap();
    assert_eq!(r.name(), "Gear");
    assert_eq!(r.period(), Time::new(Ratio::from_integer(1)));
    assert_eq!(r.category().name(), "Assembler");
    let named = readrecipe(&lines(&["1 Gear", "1 Scrap", "^ 2 s (Assembler)", "2 Iron Ingot", "<> Gear Recycling"])).unwrap();
    assert_eq!(named.name(), "Gear Recycling");
    assert_eq!(named.outputs().len(), 2);
}

#[test]
fn read_recipe_block_errors() {
    assert!(matches!(readrecipe(&lines(&["1 Gear", "1 Iron Ingot"])), Err(Error::MalformedBlock(_))));
    assert!(matches!(
        readrecipe(&lines(&["1 Gear", "^ 1 s (A)", "1 Iron", "<> X", "1 Extra"])),
        Err(Error::MisplacedNametag(_))
    ));
    assert!(matches!(readrecipe(&lines(&["1 Gear", "^ 1 s (A)", "1 Iron", "junk"])), Err(Error::MalformedBlock(_))));
    assert!(matches!(readrecipe(&lines(&["^ 1 s (A)", "1 Iron"])), Err(Error::EmptyIngredientList)));
    assert!(matches!(readrecipe(&lines(&["1 Gear", "2 Bolt", "^ 1 s (A)", "1 Iron"])), Err(Error::AmbiguousAutoName)));
}

#[test]
fn read_recipe_lines_rewrites_abbreviations() {
    let products = texts(&["Gear", "Iron Ingot", "Iron Ore"]);
    let categories = texts(&["Assembling Machine", "Smelter"]);
    let file = lines(&[
        "# a comment",
        "  1 G  ",
        "^ 1 s (AM)",
        "1 II",
        "",
        "",
        "1 Iron Ingot",
        "^2s(Smelter)",
        "1 IO",
        "<> Smelting",
    ]);
    let blocks = readrecipelines(&file, products, categories).unwrap();
    assert_eq!(
        blocks,
        vec![
            lines(&["1 Gear", "^ 1 s (Assembling Machine)", "1 Iron Ingot"]),
            lines(&["1 Iron Ingot", "^2s(Smelter)", "1 Iron Ore", "<> Smelting"]),
        ]
    );
    let r = readrecipe(&blocks[1]).unwrap();
    assert_eq!(r.name(), "Smelting");
}

#[test]
fn read_recipe_lines_fails_on_unresolved_name() {
    let products = texts(&["Iron Ingot", "Iridium Ingot"]);
    let categories = texts(&["Smelter"]);
    let file = lines(&["1 II", "^ 1 s (S)", "1 IoI"]);
    assert!(matches!(readrecipelines(&file, products, categories), Err(Error::AmbiguousMatch(_, _))));
}

// Crafters and factories

#[test]
fn crafter_rates_per_product() {
    let c = RecipeCrafter::new(gear_recipe(2), plain_facility(ratio(3, 2)), ratio(4, 1)).unwrap();
    let gear = Product::new("Gear").unwrap();
    let iron = Product::new("Iron Ingot").unwrap();
    assert_eq!(c.rate_of(&gear).unwrap(), Rate::new(ratio(3, 1)));
    assert_eq!(c.rate_of(&iron).unwrap(), Rate::new(ratio(-3, 1)));
    assert_eq!(c.rates().len(), 2);
}

#[test]
fn crafter_pass_through_nets_zero() {
    let water = Recipe::new(
        None,
        vec![pq(1, "Water")],
        vec![pq(1, "Water")],
        Time::new(Ratio::from_integer(1)),
        FacilityCategory::new("Pump").unwrap(),
    )
    .unwrap();
    let c = RecipeCrafter::new(water, plain_facility(ratio(1, 1)), ratio(7, 3)).unwrap();
    assert_eq!(c.rates().len(), 1);
    assert_eq!(c.rates()[0].0.name(), "Water");
    assert!(c.rates()[0].1.is_zero());
}

#[test]
fn crafter_needs_positive_multiplier() {
    assert!(matches!(
        RecipeCrafter::new(gear_recipe(1), plain_facility(ratio(1, 1)), Ratio::zero()),
        Err(Error::InvalidMultiplier)
    ));
    assert!(matches!(
        RecipeCrafter::new(gear_recipe(0), plain_facility(ratio(1, 1)), ratio(1, 1)),
        Err(Error::DivisionByZero)
    ));
}

#[test]
fn crafter_with_goal_scales_howmany() {
    let c = RecipeCrafter::with_goal(gear_recipe(2), plain_facility(ratio(1, 1)), &gear_rate(3)).unwrap();
    assert_eq!(c.howmany(), ratio(6, 1));
    assert_eq!(c.rate_of(&Product::new("Gear").unwrap()).unwrap(), Rate::new(ratio(3, 1)));
    let wrong = ProductQuantity::new(Rate::new(ratio(1, 1)), Product::new("Iron Ingot").unwrap());
    assert!(matches!(
        RecipeCrafter::with_goal(gear_recipe(2), plain_facility(ratio(1, 1)), &wrong),
        Err(Error::DoesNotProduceGoal)
    ));
}

#[test]
fn factory_without_crafters_needs_its_goal() {
    let f = Factory::new(gear_rate(10));
    let neg = f.negativerates();
    assert_eq!(neg.len(), 1);
    assert_eq!(neg[0].0.name(), "Gear");
    assert_eq!(neg[0].1, Rate::new(ratio(-10, 1)));
    assert!(f.crafters().is_empty());
    assert_eq!(f.goal().name(), "Gear");
}

#[test]
fn factory_connects_and_aggregates() {
    let mut f = Factory::new(gear_rate(10));
    let c = RecipeCrafter::new(gear_recipe(1), plain_facility(ratio(1, 1)), ratio(4, 1)).unwrap();
    f.connectcrafter(c.cloned()).unwrap();
    assert!(matches!(f.connectcrafter(c.cloned()), Err(Error::DuplicateCrafter)));
    let rates = f.rates();
    assert_eq!(rates.len(), 2);
    assert_eq!(rates[0].1, Rate::new(ratio(-6, 1)));
    assert_eq!(rates[1].1, Rate::new(ratio(-4, 1)));
    let gear = Product::new("Gear").unwrap();
    assert_eq!(f.findcrafters(&gear).len(), 1);
    assert!(f.findcrafters(&Product::new("Iron Ingot").unwrap()).is_empty());
}

#[test]
fn factory_ignores_products() {
    let mut f = Factory::new(gear_rate(10));
    let c = RecipeCrafter::new(gear_recipe(1), plain_facility(ratio(1, 1)), ratio(4, 1)).unwrap();
    f.connectcrafter(c).unwrap();
    let iron = Product::new("Iron Ingot").unwrap();
    assert_eq!(f.isignored(&iron).unwrap(), false);
    f.setignored(&iron).unwrap();
    assert_eq!(f.isignored(&iron).unwrap(), true);
    let neg = f.negativerates();
    assert_eq!(neg.len(), 1);
    assert_eq!(neg[0].0.name(), "Gear");
    let copper = Product::new("Copper").unwrap();
    assert!(matches!(f.setignored(&copper), Err(Error::UnknownProduct(n)) if n == "Copper"));
    assert!(matches!(f.isignored(&copper), Err(Error::UnknownProduct(_))));
    f.setallignored();
    assert!(f.negativerates().is_empty());
}

#[test]
fn factory_upgrade_crafter() {
    let mut f = Factory::new(gear_rate(10));
    let c = RecipeCrafter::new(gear_recipe(1), plain_facility(ratio(1, 1)), ratio(5, 1)).unwrap();
    f.connectcrafter(c.cloned()).unwrap();
    let to_zero = gear_rate(-5);
    assert!(matches!(f.upgradecrafter(&c, &to_zero), Err(Error::InfeasibleUpgrade)));
    f.upgradecrafter(&c, &gear_rate(-4)).unwrap();
    let gear = Product::new("Gear").unwrap();
    assert_eq!(f.crafters()[0].rate_of(&gear).unwrap(), Rate::new(ratio(1, 1)));
    assert_eq!(f.rates()[0].1, Rate::new(ratio(-9, 1)));
}

#[test]
fn factory_upgrade_errors() {
    let mut f = Factory::new(gear_rate(10));
    let c = RecipeCrafter::new(gear_recipe(1), plain_facility(ratio(1, 1)), ratio(5, 1)).unwrap();
    assert!(matches!(f.upgradecrafter(&c, &gear_rate(1)), Err(Error::NotConnected)));
    f.connectcrafter(c.cloned()).unwrap();
    let iron_up = ProductQuantity::new(Rate::new(ratio(1, 1)), Product::new("Iron Ingot").unwrap());
    assert!(matches!(f.upgradecrafter(&c, &iron_up), Err(Error::NotAProducer)));
}

#[test]
fn crafter_reports_overflow() {
    let huge = Ratio::from_integer(i64::MAX);
    assert!(matches!(
        RecipeCrafter::new(gear_recipe(1), plain_facility(huge), huge),
        Err(Error::Overflow)
    ));
}

#[test]
fn arrow_line_takes_fractions() {
    let block = lines(&["1 Gear", "^ 3/2 s (Assembler)", "1 Iron Ingot"]);
    let r = readrecipe(&block).unwrap();
    assert_eq!(r.period(), Time::new(ratio(3, 2)));
    let block2 = lines(&["1 Gear", "^1//4s(Assembler)", "1 Iron Ingot"]);
    assert_eq!(readrecipe(&block2).unwrap().period(), Time::new(ratio(1, 4)));
}

#[test]
fn permuted_recipes_hash_alike() {
    let t = Time::new(Ratio::from_integer(1));
    let a = Recipe::new(None, vec![pq(1, "G")], vec![pq(1, "A"), pq(2, "B")], t, FacilityCategory::new("L").unwrap()).unwrap();
    let b = Recipe::new(None, vec![pq(1, "G")], vec![pq(2, "B"), pq(1, "A")], t, FacilityCategory::new("L").unwrap()).unwrap();
    let mut ha = DefaultHasher::new();
    a.hash(&mut ha);
    let mut hb = DefaultHasher::new();
    b.hash(&mut hb);
    assert_eq!(ha.finish(), hb.finish());
}

#[test]
fn time_rate_round_trip() {
    let t = Time::new(ratio(-7, 3));
    let r = Rate::from_time(&t).unwrap();
    assert_eq!(r, Rate::new(ratio(-3, 7)));
    assert_eq!(Time::from_rate(&r).unwrap(), t);
    assert_eq!(t.cycles(&r).unwrap(), Ratio::one());
}
