//! The truth-function library: how evidence combines.
//!
//! Each function computes its formula exactly over the fixed-point inputs and
//! rounds the result down to the nearest multiple of `1 / UNIT` once, at the
//! end. A value `(f, c)` below stands for `(f / UNIT, c / UNIT)`.
use vstd::arithmetic::div_mod::{lemma_multiply_divide_le, lemma_multiply_divide_lt};
use vstd::prelude::*;

use super::{in_range, TruthValue, UNIT};

verus! {

/// The confidence of the structural premise `(1.0, 0.9)`.
pub const STRUCTURAL_CONFIDENCE: u64 = 900_000;

/// The structural premise `(1.0, 0.9)`.
pub open spec fn structural_premise() -> (int, int) {
    (UNIT as int, STRUCTURAL_CONFIDENCE as int)
}

/// `w / (w + 1)` on the grid, for the weight `w = num / den`.
pub open spec fn w2c_of(num: int, den: int) -> int {
    let u = UNIT as int;
    u * num / (num + den)
}

/// The numerator, over `UNIT²`, of `1 - (1 - a)(1 - b)`.
pub open spec fn or_num(a: int, b: int) -> int {
    let u = UNIT as int;
    u * u - (u - a) * (u - b)
}

/// `1 - (1 - a)(1 - b)` on the grid.
pub open spec fn or_of(a: int, b: int) -> int {
    let u = UNIT as int;
    or_num(a, b) / u
}

/// `(f1·f2, f1·f2·c1·c2)`.
pub open spec fn deduction_of(t1: (int, int), t2: (int, int)) -> (int, int) {
    let u = UNIT as int;
    let (f1, c1) = t1;
    let (f2, c2) = t2;
    (f1 * f2 / u, f1 * f2 * c1 * c2 / (u * u * u))
}

/// `(f2, w2c(f1·c1·c2))`.
pub open spec fn abduction_of(t1: (int, int), t2: (int, int)) -> (int, int) {
    let u = UNIT as int;
    let (f1, c1) = t1;
    let (f2, c2) = t2;
    (f2, w2c_of(f1 * c1 * c2, u * u * u))
}

/// Abduction with the premises swapped.
pub open spec fn induction_of(t1: (int, int), t2: (int, int)) -> (int, int) {
    abduction_of(t2, t1)
}

/// `(1, w2c(f1·f2·c1·c2))`.
pub open spec fn exemplification_of(t1: (int, int), t2: (int, int)) -> (int, int) {
    let u = UNIT as int;
    let (f1, c1) = t1;
    let (f2, c2) = t2;
    (u, w2c_of(f1 * f2 * c1 * c2, u * u * u * u))
}

/// `(1 - f, c)`.
pub open spec fn negation_of(t: (int, int)) -> (int, int) {
    let u = UNIT as int;
    (u - t.0, t.1)
}

/// `(f1·f2, c1·c2)`.
pub open spec fn intersection_of(t1: (int, int), t2: (int, int)) -> (int, int) {
    let u = UNIT as int;
    let (f1, c1) = t1;
    let (f2, c2) = t2;
    (f1 * f2 / u, c1 * c2 / u)
}

/// `(f1·f2 / f0, w2c(f0·c1·c2))` with `f0 = or(f1, f2)`, and strength 0 where `f0 = 0`.
pub open spec fn comparison_of(t1: (int, int), t2: (int, int)) -> (int, int) {
    let u = UNIT as int;
    let (f1, c1) = t1;
    let (f2, c2) = t2;
    let f0 = or_num(f1, f2);
    (
        if f0 == 0 { 0 } else { u * f1 * f2 / f0 },
        w2c_of(f0 * c1 * c2, u * u * u * u),
    )
}

/// `(f1·f2, c1·c2·f2)`.
pub open spec fn analogy_of(t1: (int, int), t2: (int, int)) -> (int, int) {
    let u = UNIT as int;
    let (f1, c1) = t1;
    let (f2, c2) = t2;
    (f1 * f2 / u, c1 * c2 * f2 / (u * u))
}

/// `(f1·f2, c1·c2·or(f1, f2))`.
pub open spec fn resemblance_of(t1: (int, int), t2: (int, int)) -> (int, int) {
    let u = UNIT as int;
    let (f1, c1) = t1;
    let (f2, c2) = t2;
    (f1 * f2 / u, c1 * c2 * or_num(f1, f2) / (u * u * u))
}

/// `(or(f1, f2), c1·c2)`.
pub open spec fn union_of(t1: (int, int), t2: (int, int)) -> (int, int) {
    let u = UNIT as int;
    let (f1, c1) = t1;
    let (f2, c2) = t2;
    (or_of(f1, f2), c1 * c2 / u)
}

/// `(f1·(1 - f2), c1·c2)`.
pub open spec fn difference_of(t1: (int, int), t2: (int, int)) -> (int, int) {
    let u = UNIT as int;
    let (f1, c1) = t1;
    let (f2, c2) = t2;
    (f1 * (u - f2) / u, c1 * c2 / u)
}

/// `(1 - n, n·c1·c2)` with `n = f1·(1 - f2)`.
pub open spec fn decompose_pnn_of(t1: (int, int), t2: (int, int)) -> (int, int) {
    let u = UNIT as int;
    let (f1, c1) = t1;
    let (f2, c2) = t2;
    let n = f1 * (u - f2);
    ((u * u - n) / u, n * c1 * c2 / (u * u * u))
}

/// `(f, f·c1·c2)` with `f = (1 - f1)·f2`.
pub open spec fn decompose_npp_of(t1: (int, int), t2: (int, int)) -> (int, int) {
    let u = UNIT as int;
    let (f1, c1) = t1;
    let (f2, c2) = t2;
    let f = (u - f1) * f2;
    (f / u, f * c1 * c2 / (u * u * u))
}

/// `(f, f·c1·c2)` with `f = f1·(1 - f2)`.
pub open spec fn decompose_pnp_of(t1: (int, int), t2: (int, int)) -> (int, int) {
    let u = UNIT as int;
    let (f1, c1) = t1;
    let (f2, c2) = t2;
    let f = f1 * (u - f2);
    (f / u, f * c1 * c2 / (u * u * u))
}

/// `(1 - n, n·c1·c2)` with `n = (1 - f1)·(1 - f2)`.
pub open spec fn decompose_nnn_of(t1: (int, int), t2: (int, int)) -> (int, int) {
    let u = UNIT as int;
    let (f1, c1) = t1;
    let (f2, c2) = t2;
    let n = (u - f1) * (u - f2);
    ((u * u - n) / u, n * c1 * c2 / (u * u * u))
}

proof fn lemma_mul_le(a: int, b: int, x: int, y: int)
    requires
        0 <= a <= x,
        0 <= b <= y,
    ensures
        0 <= a * b <= x * y,
{
    assert(0 <= a * b <= x * y) by (nonlinear_arith)
        requires
            0 <= a <= x,
            0 <= b <= y,
    ;
}

proof fn lemma_mul_lt(a: int, b: int, x: int, y: int)
    requires
        0 <= a <= x,
        0 <= b < y,
        0 < x,
    ensures
        0 <= a * b < x * y,
{
    assert(0 <= a * b < x * y) by (nonlinear_arith)
        requires
            0 <= a <= x,
            0 <= b < y,
            0 < x,
    ;
}

/// `1 - (1 - a)(1 - b)` lies between `max(a, b)` and one, over `UNIT²`.
proof fn lemma_or_num(a: int, b: int)
    requires
        0 <= a <= UNIT,
        0 <= b <= UNIT,
    ensures
        UNIT * a <= or_num(a, b) <= UNIT * UNIT,
        UNIT * b <= or_num(a, b),
        a * b <= or_num(a, b),
        or_num(a, b) == UNIT * a + UNIT * b - a * b,
{
    let u = UNIT as int;
    assert(UNIT * a <= or_num(a, b) <= UNIT * UNIT && UNIT * b <= or_num(a, b) && a * b <= or_num(
        a,
        b,
    ) && or_num(a, b) == UNIT * a + UNIT * b - a * b) by (nonlinear_arith)
        requires
            0 <= a <= u,
            0 <= b <= u,
            u == UNIT,
    ;
}

/// `n / d` where the quotient is known to be at most one.
fn grid_le_one(n: u128, d: u128) -> (r: u64)
    requires
        0 < d,
        n <= d * UNIT,
    ensures
        r == n / d,
        r <= UNIT,
{
    proof {
        lemma_multiply_divide_le(n as int, d as int, UNIT as int);
    }
    (n / d) as u64
}

/// `n / d` where the quotient is known to be below one.
fn grid_lt_one(n: u128, d: u128) -> (r: u64)
    requires
        0 < d,
        n < d * UNIT,
    ensures
        r == n / d,
        r < UNIT,
{
    proof {
        lemma_multiply_divide_lt(n as int, d as int, UNIT as int);
    }
    (n / d) as u64
}

/// `w / (w + 1)` on the grid, for the weight `w = num / den`.
fn w2c_ratio(num: u128, den: u128) -> (r: u64)
    requires
        0 < den,
        num <= UNIT * UNIT * UNIT * UNIT * UNIT,
        den <= UNIT * UNIT * UNIT * UNIT,
    ensures
        r == w2c_of(num as int, den as int),
        r < UNIT,
{
    proof {
        lemma_mul_lt(UNIT as int, num as int, UNIT as int, (num + den) as int);
        assert(UNIT * num < (num + den) * UNIT) by (nonlinear_arith)
            requires
                UNIT * num < UNIT * (num + den),
        ;
    }
    grid_lt_one(UNIT as u128 * num, num + den)
}

/// Confidence `w / (w + 1)` for a weight `w`, all in units of `1 / UNIT`.
pub fn truth_w2c(w: u64) -> (r: u64)
    ensures
        r == w2c_of(w as int, UNIT as int),
        r < UNIT,
{
    w2c_ratio(w as u128, UNIT as u128)
}

/// The probabilistic sum `1 - (1 - a)(1 - b)`, rounded down.
pub fn or(a: u64, b: u64) -> (r: u64)
    requires
        a <= UNIT,
        b <= UNIT,
    ensures
        r == or_of(a as int, b as int),
        r <= UNIT,
{
    proof {
        lemma_or_num(a as int, b as int);
        lemma_mul_le(a as int, b as int, UNIT as int, UNIT as int);
    }
    let u = UNIT as u128;
    grid_le_one(u * a as u128 + u * b as u128 - a as u128 * b as u128, u)
}

/// Deduction: `(f1·f2, f1·f2·c1·c2)`.
pub fn deduction(tv1: TruthValue, tv2: TruthValue) -> (r: TruthValue)
    ensures
        r@ == deduction_of(tv1@, tv2@),
{
    let (f1, c1) = (tv1.strength() as u128, tv1.confidence() as u128);
    let (f2, c2) = (tv2.strength() as u128, tv2.confidence() as u128);
    let u = UNIT as u128;
    proof {
        lemma_mul_le(f1 as int, f2 as int, u as int, u as int);
        lemma_mul_le((f1 * f2) as int, c1 as int, (u * u) as int, u as int);
        lemma_mul_lt((f1 * f2 * c1) as int, c2 as int, (u * u * u) as int, u as int);
    }
    let f = f1 * f2;
    TruthValue::from_parts(grid_le_one(f, u), grid_lt_one(f * c1 * c2, u * u * u))
}

/// The confidence `n·c1·c2 / UNIT³` for a numerator `n` of at most `UNIT²`.
fn scaled_confidence(n: u128, c1: u64, c2: u64) -> (r: u64)
    requires
        n <= UNIT * UNIT,
        c1 < UNIT,
        c2 < UNIT,
    ensures
        r == n * c1 * c2 / (UNIT * UNIT * UNIT),
        r < UNIT,
{
    let u = UNIT as u128;
    proof {
        lemma_mul_le(n as int, c1 as int, (u * u) as int, u as int);
        lemma_mul_lt((n * c1) as int, c2 as int, (u * u * u) as int, u as int);
    }
    grid_lt_one(n * c1 as u128 * c2 as u128, u * u * u)
}

/// Abduction: `(f2, w2c(f1·c1·c2))`.
pub fn abduction(tv1: TruthValue, tv2: TruthValue) -> (r: TruthValue)
    ensures
        r@ == abduction_of(tv1@, tv2@),
{
    let (f1, c1) = (tv1.strength() as u128, tv1.confidence() as u128);
    let (f2, c2) = (tv2.strength(), tv2.confidence() as u128);
    let u = UNIT as u128;
    proof {
        lemma_mul_le(f1 as int, c1 as int, u as int, u as int);
        lemma_mul_le((f1 * c1) as int, c2 as int, (u * u) as int, u as int);
    }
    TruthValue::from_parts(f2, w2c_ratio(f1 * c1 * c2, u * u * u))
}

/// Induction: abduction with the premises swapped.
pub fn induction(tv1: TruthValue, tv2: TruthValue) -> (r: TruthValue)
    ensures
        r@ == induction_of(tv1@, tv2@),
{
    abduction(tv2, tv1)
}

/// Exemplification: `(1, w2c(f1·f2·c1·c2))`.
pub fn exemplification(tv1: TruthValue, tv2: TruthValue) -> (r: TruthValue)
    ensures
        r@ == exemplification_of(tv1@, tv2@),
{
    let (f1, c1) = (tv1.strength() as u128, tv1.confidence() as u128);
    let (f2, c2) = (tv2.strength() as u128, tv2.confidence() as u128);
    let u = UNIT as u128;
    proof {
        lemma_mul_le(f1 as int, f2 as int, u as int, u as int);
        lemma_mul_le((f1 * f2) as int, c1 as int, (u * u) as int, u as int);
        lemma_mul_le((f1 * f2 * c1) as int, c2 as int, (u * u * u) as int, u as int);
    }
    TruthValue::from_parts(UNIT, w2c_ratio(f1 * f2 * c1 * c2, u * u * u * u))
}

/// The structural premise `(1.0, 0.9)` as a truth value.
fn structural_premise_value() -> (r: TruthValue)
    ensures
        r@ == structural_premise(),
{
    TruthValue::from_parts(UNIT, STRUCTURAL_CONFIDENCE)
}

/// Structural deduction: deduction against the premise `(1.0, 0.9)`.
pub fn structural_deduction(tv1: TruthValue) -> (r: TruthValue)
    ensures
        r@ == deduction_of(tv1@, structural_premise()),
{
    deduction(tv1, structural_premise_value())
}

/// Negation: `(1 - f, c)`.
pub fn negation(tv1: TruthValue) -> (r: TruthValue)
    ensures
        r@ == negation_of(tv1@),
{
    TruthValue::from_parts(UNIT - tv1.strength(), tv1.confidence())
}

/// The negation of structural deduction.
pub fn structural_deduction_negated(tv1: TruthValue) -> (r: TruthValue)
    ensures
        r@ == negation_of(deduction_of(tv1@, structural_premise())),
{
    negation(structural_deduction(tv1))
}

/// Intersection: `(f1·f2, c1·c2)`.
pub fn intersection(tv1: TruthValue, tv2: TruthValue) -> (r: TruthValue)
    ensures
        r@ == intersection_of(tv1@, tv2@),
{
    let (f1, c1) = (tv1.strength() as u128, tv1.confidence() as u128);
    let (f2, c2) = (tv2.strength() as u128, tv2.confidence() as u128);
    let u = UNIT as u128;
    proof {
        lemma_mul_le(f1 as int, f2 as int, u as int, u as int);
        lemma_mul_lt(c1 as int, c2 as int, u as int, u as int);
    }
    TruthValue::from_parts(grid_le_one(f1 * f2, u), grid_lt_one(c1 * c2, u))
}

/// Structural intersection: intersection with the premise `(1.0, 0.9)`.
pub fn structural_intersection(tv1: TruthValue) -> (r: TruthValue)
    ensures
        r@ == intersection_of(tv1@, structural_premise()),
{
    intersection(tv1, structural_premise_value())
}

/// Comparison: `(f1·f2 / f0, w2c(f0·c1·c2))` with `f0 = or(f1, f2)`;
/// the strength is 0 where `f0` is.
pub fn comparison(tv1: TruthValue, tv2: TruthValue) -> (r: TruthValue)
    ensures
        r@ == comparison_of(tv1@, tv2@),
{
    let (f1, c1) = (tv1.strength() as u128, tv1.confidence() as u128);
    let (f2, c2) = (tv2.strength() as u128, tv2.confidence() as u128);
    let u = UNIT as u128;
    proof {
        lemma_or_num(f1 as int, f2 as int);
        lemma_mul_le(f1 as int, f2 as int, u as int, u as int);
        lemma_mul_le(u as int, f1 as int, u as int, u as int);
        lemma_mul_le(u as int, f2 as int, u as int, u as int);
    }
    let f0 = u * f1 + u * f2 - f1 * f2;
    proof {
        assert(u * f1 * f2 == u * (f1 * f2)) by (nonlinear_arith);
        assert(u * (f1 * f2) <= f0 * u) by (nonlinear_arith)
            requires
                f1 * f2 <= f0,
                0 <= u,
        ;
        lemma_mul_le(f0 as int, c1 as int, (u * u) as int, u as int);
        lemma_mul_le((f0 * c1) as int, c2 as int, (u * u * u) as int, u as int);
    }
    let s = if f0 == 0 {
        0
    } else {
        grid_le_one(u * f1 * f2, f0)
    };
    TruthValue::from_parts(s, w2c_ratio(f0 * c1 * c2, u * u * u * u))
}

/// Analogy: `(f1·f2, c1·c2·f2)`.
pub fn analogy(tv1: TruthValue, tv2: TruthValue) -> (r: TruthValue)
    ensures
        r@ == analogy_of(tv1@, tv2@),
{
    let (f1, c1) = (tv1.strength() as u128, tv1.confidence() as u128);
    let (f2, c2) = (tv2.strength() as u128, tv2.confidence() as u128);
    let u = UNIT as u128;
    proof {
        lemma_mul_le(f1 as int, f2 as int, u as int, u as int);
        lemma_mul_lt(c1 as int, c2 as int, u as int, u as int);
        lemma_mul_lt(f2 as int, (c1 * c2) as int, u as int, (u * u) as int);
        assert(c1 * c2 * f2 == f2 * (c1 * c2)) by (nonlinear_arith);
    }
    TruthValue::from_parts(grid_le_one(f1 * f2, u), grid_lt_one(c1 * c2 * f2, u * u))
}

/// Resemblance: `(f1·f2, c1·c2·or(f1, f2))`.
pub fn resemblance(tv1: TruthValue, tv2: TruthValue) -> (r: TruthValue)
    ensures
        r@ == resemblance_of(tv1@, tv2@),
{
    let (f1, c1) = (tv1.strength() as u128, tv1.confidence() as u128);
    let (f2, c2) = (tv2.strength() as u128, tv2.confidence() as u128);
    let u = UNIT as u128;
    proof {
        lemma_or_num(f1 as int, f2 as int);
        lemma_mul_le(f1 as int, f2 as int, u as int, u as int);
        lemma_mul_le(u as int, f1 as int, u as int, u as int);
        lemma_mul_le(u as int, f2 as int, u as int, u as int);
    }
    let f0 = u * f1 + u * f2 - f1 * f2;
    proof {
        lemma_mul_lt(c1 as int, c2 as int, u as int, u as int);
        lemma_mul_le(f0 as int, (c1 * c2) as int, (u * u) as int, (u * u) as int);
        assert(c1 * c2 * f0 == f0 * (c1 * c2)) by (nonlinear_arith);
        assert(f0 * (c1 * c2) < (u * u) * (u * u)) by (nonlinear_arith)
            requires
                0 <= f0 <= u * u,
                0 <= c1 * c2 < u * u,
        ;
    }
    TruthValue::from_parts(grid_le_one(f1 * f2, u), grid_lt_one(c1 * c2 * f0, u * u * u))
}

/// Union: `(or(f1, f2), c1·c2)`.
pub fn union(tv1: TruthValue, tv2: TruthValue) -> (r: TruthValue)
    ensures
        r@ == union_of(tv1@, tv2@),
{
    let (c1, c2) = (tv1.confidence() as u128, tv2.confidence() as u128);
    let u = UNIT as u128;
    proof {
        lemma_mul_lt(c1 as int, c2 as int, u as int, u as int);
    }
    TruthValue::from_parts(or(tv1.strength(), tv2.strength()), grid_lt_one(c1 * c2, u))
}

/// Difference: `(f1·(1 - f2), c1·c2)`.
pub fn difference(tv1: TruthValue, tv2: TruthValue) -> (r: TruthValue)
    ensures
        r@ == difference_of(tv1@, tv2@),
{
    let (f1, c1) = (tv1.strength() as u128, tv1.confidence() as u128);
    let (f2, c2) = (tv2.strength() as u128, tv2.confidence() as u128);
    let u = UNIT as u128;
    proof {
        lemma_mul_le(f1 as int, (u - f2) as int, u as int, u as int);
        lemma_mul_lt(c1 as int, c2 as int, u as int, u as int);
    }
    TruthValue::from_parts(grid_le_one(f1 * (u - f2), u), grid_lt_one(c1 * c2, u))
}

/// Decomposition `(1 - n, n·c1·c2)` with `n = f1·(1 - f2)`.
pub fn decompose_pnn(tv1: TruthValue, tv2: TruthValue) -> (r: TruthValue)
    ensures
        r@ == decompose_pnn_of(tv1@, tv2@),
{
    let (f1, f2) = (tv1.strength() as u128, tv2.strength() as u128);
    let u = UNIT as u128;
    proof {
        lemma_mul_le(f1 as int, (u - f2) as int, u as int, u as int);
    }
    let n = f1 * (u - f2);
    TruthValue::from_parts(
        grid_le_one(u * u - n, u),
        scaled_confidence(n, tv1.confidence(), tv2.confidence()),
    )
}

/// Decomposition `(f, f·c1·c2)` with `f = (1 - f1)·f2`.
pub fn decompose_npp(tv1: TruthValue, tv2: TruthValue) -> (r: TruthValue)
    ensures
        r@ == decompose_npp_of(tv1@, tv2@),
{
    let (f1, f2) = (tv1.strength() as u128, tv2.strength() as u128);
    let u = UNIT as u128;
    proof {
        lemma_mul_le((u - f1) as int, f2 as int, u as int, u as int);
    }
    let f = (u - f1) * f2;
    TruthValue::from_parts(
        grid_le_one(f, u),
        scaled_confidence(f, tv1.confidence(), tv2.confidence()),
    )
}

/// Decomposition `(f, f·c1·c2)` with `f = f1·(1 - f2)`.
pub fn decompose_pnp(tv1: TruthValue, tv2: TruthValue) -> (r: TruthValue)
    ensures
        r@ == decompose_pnp_of(tv1@, tv2@),
{
    let (f1, f2) = (tv1.strength() as u128, tv2.strength() as u128);
    let u = UNIT as u128;
    proof {
        lemma_mul_le(f1 as int, (u - f2) as int, u as int, u as int);
    }
    let f = f1 * (u - f2);
    TruthValue::from_parts(
        grid_le_one(f, u),
        scaled_confidence(f, tv1.confidence(), tv2.confidence()),
    )
}

/// Decomposition `npp` applied to the negation of the first premise.
pub fn decompose_ppp(tv1: TruthValue, tv2: TruthValue) -> (r: TruthValue)
    ensures
        r@ == decompose_npp_of(negation_of(tv1@), tv2@),
{
    decompose_npp(negation(tv1), tv2)
}

/// Decomposition `(1 - n, n·c1·c2)` with `n = (1 - f1)·(1 - f2)`.
pub fn decompose_nnn(tv1: TruthValue, tv2: TruthValue) -> (r: TruthValue)
    ensures
        r@ == decompose_nnn_of(tv1@, tv2@),
{
    let (f1, f2) = (tv1.strength() as u128, tv2.strength() as u128);
    let u = UNIT as u128;
    proof {
        lemma_mul_le((u - f1) as int, (u - f2) as int, u as int, u as int);
    }
    let n = (u - f1) * (u - f2);
    TruthValue::from_parts(
        grid_le_one(u * u - n, u),
        scaled_confidence(n, tv1.confidence(), tv2.confidence()),
    )
}

/// Negating a truth value twice gives it back: the strength is complemented
/// twice and the confidence is never touched.
pub proof fn negation_involution(t: (int, int))
    requires
        in_range(t),
    ensures
        negation_of(negation_of(t)) == t,
        negation_of(t).1 == t.1,
{
}

/// Induction is abduction with the premises swapped, for all valid premises.
pub proof fn induction_is_swapped_abduction(t1: (int, int), t2: (int, int))
    requires
        in_range(t1),
        in_range(t2),
    ensures
        induction_of(t1, t2) == abduction_of(t2, t1),
{
}

} // verus!
