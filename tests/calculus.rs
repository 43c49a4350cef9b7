use narst::nal::formulas::{
    abduction, analogy, comparison, decompose_nnn, decompose_npp, decompose_pnn, decompose_pnp,
    decompose_ppp, deduction, difference, exemplification, induction, intersection, negation, or,
    resemblance, structural_deduction, structural_deduction_negated, structural_intersection,
    truth_w2c, union,
};
use narst::nal::{DesireValue, OutOfRange, TruthValue, UNIT};

fn tv(s: u64, c: u64) -> TruthValue {
    TruthValue::new(s, c).unwrap()
}

fn pair(t: TruthValue) -> (u64, u64) {
    (t.strength(), t.confidence())
}

fn premises() -> (TruthValue, TruthValue) {
    (tv(900_000, 900_000), tv(800_000, 900_000))
}

#[test]
fn accessors_return_what_was_given() {
    let t = tv(350_000, 510_000);
    assert_eq!(t.strength(), 350_000);
    assert_eq!(t.confidence(), 510_000);
}

#[test]
fn range_is_enforced_at_construction() {
    assert_eq!(TruthValue::new(UNIT, UNIT), Err(OutOfRange::Confidence));
    assert_eq!(TruthValue::new(1_500_000, 500_000), Err(OutOfRange::Strength));
    assert_eq!(TruthValue::new(1_500_000, UNIT), Err(OutOfRange::Strength));
    assert!(TruthValue::new(UNIT, UNIT - 1).is_ok());
    assert!(TruthValue::new(0, 0).is_ok());
    assert_eq!(DesireValue::new(UNIT, UNIT), Err(OutOfRange::Confidence));
    assert_eq!(DesireValue::new(UNIT + 1, 0), Err(OutOfRange::Strength));
}

#[test]
fn desire_from_truth_copies_the_pair() {
    let d = DesireValue::from_truth(&tv(250_000, 750_000));
    assert_eq!((d.strength(), d.confidence()), (250_000, 750_000));
}

#[test]
fn deduction_numeric_example() {
    let (a, b) = premises();
    assert_eq!(deduction(a, b), tv(720_000, 583_200));
}

#[test]
fn negation_twice_restores_strength() {
    for &(s, c) in &[(0, 0), (123_456, 654_321), (UNIT, 999_999), (900_000, 100_000)] {
        let t = tv(s, c);
        let n = negation(t);
        assert_eq!(n.confidence(), c);
        assert_eq!(negation(n), t);
    }
}

#[test]
fn induction_is_abduction_swapped() {
    let (a, b) = premises();
    assert_eq!(induction(a, b), abduction(b, a));
    let c = tv(333_333, 10);
    assert_eq!(induction(c, a), abduction(a, c));
}

#[test]
fn formulas_match_hand_computed_values() {
    let (a, b) = premises();
    assert_eq!(pair(abduction(a, b)), (800_000, 421_631));
    assert_eq!(pair(induction(a, b)), (900_000, 393_203));
    assert_eq!(pair(exemplification(a, b)), (1_000_000, 368_367));
    assert_eq!(pair(structural_deduction(a)), (900_000, 729_000));
    assert_eq!(pair(negation(a)), (100_000, 900_000));
    assert_eq!(pair(structural_deduction_negated(a)), (100_000, 729_000));
    assert_eq!(pair(intersection(a, b)), (720_000, 810_000));
    assert_eq!(pair(structural_intersection(a)), (900_000, 810_000));
    assert_eq!(pair(comparison(a, b)), (734_693, 442_524));
    assert_eq!(pair(analogy(a, b)), (720_000, 648_000));
    assert_eq!(pair(resemblance(a, b)), (720_000, 793_800));
    assert_eq!(pair(union(a, b)), (980_000, 810_000));
    assert_eq!(pair(difference(a, b)), (180_000, 810_000));
    assert_eq!(pair(decompose_pnn(a, b)), (820_000, 145_800));
    assert_eq!(pair(decompose_npp(a, b)), (80_000, 64_800));
    assert_eq!(pair(decompose_pnp(a, b)), (180_000, 145_800));
    assert_eq!(pair(decompose_ppp(a, b)), (720_000, 583_200));
    assert_eq!(pair(decompose_nnn(a, b)), (980_000, 16_200));
}

#[test]
fn comparison_of_two_zero_strengths() {
    let z = tv(0, 900_000);
    assert_eq!(pair(comparison(z, z)), (0, 0));
}

#[test]
fn helpers_w2c_and_or() {
    assert_eq!(truth_w2c(500_000), 333_333);
    assert_eq!(truth_w2c(0), 0);
    assert_eq!(or(300_000, 400_000), 580_000);
    assert_eq!(or(UNIT, 0), UNIT);
}

#[test]
fn extreme_premises_stay_in_range() {
    let top = tv(UNIT, UNIT - 1);
    let r = exemplification(top, top);
    assert!(r.confidence() < UNIT);
    let d = deduction(top, top);
    assert_eq!(d.strength(), UNIT);
    assert!(d.confidence() < UNIT);
}
