//! Decimal number literals of the Narsese grammar and their fixed-point value.
//!
//! A literal is an optional integer part, an optional `.` with a fraction
//! part, and an optional exponent `e`/`E` with an optional sign. Digits may be
//! grouped with single underscores, which carry no value.
use vstd::prelude::*;

use super::UNIT;

verus! {

/// The number of decimal digits in the fraction of `UNIT`.
pub const UNIT_DIGITS: u64 = 6;

/// Exponents beyond this are only told apart by their sign.
const EXPONENT_CAP: u128 = 0x1_0000_0000_0000_0000_0000;

pub open spec fn pow10(n: nat) -> nat
    decreases n,
{
    if n == 0 {
        1
    } else {
        10 * pow10((n - 1) as nat)
    }
}

pub open spec fn is_digit(c: char) -> bool {
    '0' <= c && c <= '9'
}

/// The value of the digits of `t` read as one decimal numeral; every other
/// character is skipped.
pub open spec fn decimal_value(t: Seq<char>) -> nat
    decreases t.len(),
{
    if t.len() == 0 {
        0
    } else if is_digit(t.last()) {
        decimal_value(t.drop_last()) * 10 + (t.last() as nat - '0' as nat) as nat
    } else {
        decimal_value(t.drop_last())
    }
}

/// How many digits `t` holds.
pub open spec fn digit_count(t: Seq<char>) -> nat
    decreases t.len(),
{
    if t.len() == 0 {
        0
    } else if is_digit(t.last()) {
        digit_count(t.drop_last()) + 1
    } else {
        digit_count(t.drop_last())
    }
}

/// `digit+ ('_' digit+)*`.
pub open spec fn is_decimal(t: Seq<char>) -> bool {
    &&& 0 < t.len()
    &&& is_digit(t[0])
    &&& forall|i: int|
        0 <= i < t.len() ==> is_digit(#[trigger] t[i]) || (t[i] == '_' && i + 1 < t.len()
            && is_digit(t[i + 1]))
}

/// The first index in `[k, t.len())` holding `a` or `b`, or `t.len()` where there is none.
pub open spec fn find(t: Seq<char>, k: int, a: char, b: char) -> int
    decreases t.len() - k,
{
    if k >= t.len() {
        t.len() as int
    } else if t[k] == a || t[k] == b {
        k
    } else {
        find(t, k + 1, a, b)
    }
}

/// Where the exponent marker stands, or `t.len()`.
pub open spec fn exponent_at(t: Seq<char>) -> int {
    find(t, 0, 'e', 'E')
}

/// Everything before the exponent marker.
pub open spec fn mantissa(t: Seq<char>) -> Seq<char> {
    t.subrange(0, exponent_at(t))
}

/// Where the decimal point stands in the mantissa, or the mantissa's length.
pub open spec fn point_at(t: Seq<char>) -> int {
    find(mantissa(t), 0, '.', '.')
}

pub open spec fn integer_part(t: Seq<char>) -> Seq<char> {
    mantissa(t).subrange(0, point_at(t))
}

pub open spec fn fraction_part(t: Seq<char>) -> Seq<char> {
    if point_at(t) < mantissa(t).len() {
        mantissa(t).subrange(point_at(t) + 1, mantissa(t).len() as int)
    } else {
        Seq::empty()
    }
}

/// The exponent after its marker, sign included; empty where there is none.
pub open spec fn exponent_part(t: Seq<char>) -> Seq<char> {
    if exponent_at(t) < t.len() {
        t.subrange(exponent_at(t) + 1, t.len() as int)
    } else {
        Seq::empty()
    }
}

/// `[+-]? decimal`.
pub open spec fn is_exponent(x: Seq<char>) -> bool {
    if 0 < x.len() && (x[0] == '+' || x[0] == '-') {
        is_decimal(x.subrange(1, x.len() as int))
    } else {
        is_decimal(x)
    }
}

/// `decimal '.' decimal? | decimal? '.' decimal exponent? | decimal ('.' decimal)? exponent`.
pub open spec fn is_float(t: Seq<char>) -> bool {
    let has_point = point_at(t) < mantissa(t).len();
    let has_exponent = exponent_at(t) < t.len();
    let ip = integer_part(t);
    let fp = fraction_part(t);
    &&& ip.len() == 0 || is_decimal(ip)
    &&& fp.len() == 0 || is_decimal(fp)
    &&& 0 < ip.len() || 0 < fp.len()
    &&& has_point || has_exponent
    &&& has_point && fp.len() == 0 ==> !has_exponent
    &&& has_exponent ==> is_exponent(exponent_part(t))
}

/// The signed value of the exponent; zero where there is none.
pub open spec fn exponent_value(t: Seq<char>) -> int {
    let x = exponent_part(t);
    if 0 < x.len() && x[0] == '-' {
        -decimal_value(x)
    } else {
        decimal_value(x) as int
    }
}

/// The literal denotes `decimal_value(mantissa) · 10^shift / UNIT`.
pub open spec fn shift(t: Seq<char>) -> int {
    exponent_value(t) - digit_count(fraction_part(t)) + UNIT_DIGITS as int
}

/// The literal's value times `UNIT`, rounded down.
pub open spec fn scaled_floor(t: Seq<char>) -> int {
    let m = decimal_value(mantissa(t)) as int;
    if shift(t) >= 0 {
        m * pow10(shift(t) as nat)
    } else {
        m / (pow10((-shift(t)) as nat) as int)
    }
}

/// Whether the literal's value times `UNIT` is a whole number.
pub open spec fn scaled_is_exact(t: Seq<char>) -> bool {
    shift(t) >= 0 || (decimal_value(mantissa(t)) as int) % (pow10((-shift(t)) as nat) as int) == 0
}

/// The literal is a strength: at most one.
pub open spec fn strength_in_range(t: Seq<char>) -> bool {
    scaled_floor(t) < UNIT || (scaled_floor(t) == UNIT && scaled_is_exact(t))
}

/// The literal is a confidence: below one.
pub open spec fn confidence_in_range(t: Seq<char>) -> bool {
    scaled_floor(t) < UNIT
}

proof fn lemma_pow10_positive(n: nat)
    ensures
        pow10(n) >= 1,
    decreases n,
{
    if n > 0 {
        lemma_pow10_positive((n - 1) as nat);
    }
}

proof fn lemma_pow10_monotone(a: nat, b: nat)
    requires
        a <= b,
    ensures
        pow10(a) <= pow10(b),
    decreases b,
{
    if a < b {
        lemma_pow10_monotone(a, (b - 1) as nat);
        lemma_pow10_positive((b - 1) as nat);
    }
}

proof fn lemma_pow10_seven()
    ensures
        pow10(7) == 10_000_000,
{
    reveal_with_fuel(pow10, 8);
}

proof fn lemma_value_below_pow(t: Seq<char>)
    ensures
        decimal_value(t) < pow10(digit_count(t)),
    decreases t.len(),
{
    if t.len() > 0 {
        lemma_value_below_pow(t.drop_last());
    }
}

/// The characters of `s`, one per element.
pub fn chars_of(s: &str) -> (r: Vec<char>)
    ensures
        r@ == s@,
{
    let n = s.unicode_len();
    let mut r: Vec<char> = Vec::new();
    let mut i: usize = 0;
    while i < n
        invariant
            n == s@.len(),
            i <= n,
            r@ == s@.subrange(0, i as int),
        decreases n - i,
    {
        r.push(s.get_char(i));
        i = i + 1;
    }
    assert(r@ =~= s@);
    r
}

/// The first index in `[lo, hi)` of `t` holding `a` or `b`, or `hi`.
pub fn find_in(t: &Vec<char>, lo: usize, hi: usize, a: char, b: char) -> (r: usize)
    requires
        lo <= hi <= t@.len(),
    ensures
        r == lo + find(t@.subrange(lo as int, hi as int), 0, a, b),
        lo <= r <= hi,
{
    let ghost s = t@.subrange(lo as int, hi as int);
    let mut i = lo;
    while i < hi
        invariant
            lo <= i <= hi <= t@.len(),
            s == t@.subrange(lo as int, hi as int),
            find(s, 0, a, b) == find(s, i - lo, a, b),
        decreases hi - i,
    {
        if t[i] == a || t[i] == b {
            return i;
        }
        i = i + 1;
    }
    i
}

fn digit_char(c: char) -> (r: bool)
    ensures
        r == is_digit(c),
{
    '0' <= c && c <= '9'
}

/// Whether `t[lo..hi]` is a `decimal`.
fn decimal_in(t: &Vec<char>, lo: usize, hi: usize) -> (r: bool)
    requires
        lo <= hi <= t@.len(),
    ensures
        r == is_decimal(t@.subrange(lo as int, hi as int)),
{
    let ghost s = t@.subrange(lo as int, hi as int);
    if lo >= hi || !digit_char(t[lo]) {
        return false;
    }
    let mut i = lo;
    while i < hi
        invariant
            lo <= i <= hi <= t@.len(),
            s == t@.subrange(lo as int, hi as int),
            0 < s.len(),
            is_digit(s[0]),
            forall|k: int|
                0 <= k < i - lo ==> is_digit(#[trigger] s[k]) || (s[k] == '_' && k + 1 < s.len()
                    && is_digit(s[k + 1])),
        decreases hi - i,
    {
        let c = t[i];
        if !(digit_char(c) || (c == '_' && i + 1 < hi && digit_char(t[i + 1]))) {
            assert(!(is_digit(s[i - lo]) || (s[i - lo] == '_' && i - lo + 1 < s.len() && is_digit(
                s[i - lo + 1],
            ))));
            return false;
        }
        i = i + 1;
    }
    true
}

/// The number of digits in `t[lo..hi]`.
fn count_digits(t: &Vec<char>, lo: usize, hi: usize) -> (r: usize)
    requires
        lo <= hi <= t@.len(),
    ensures
        r == digit_count(t@.subrange(lo as int, hi as int)),
{
    let mut r: usize = 0;
    let mut i = lo;
    while i < hi
        invariant
            lo <= i <= hi <= t@.len(),
            r == digit_count(t@.subrange(lo as int, i as int)),
            r <= i - lo,
        decreases hi - i,
    {
        assert(t@.subrange(lo as int, i + 1).drop_last() =~= t@.subrange(lo as int, i as int));
        if digit_char(t[i]) {
            r = r + 1;
        }
        i = i + 1;
    }
    r
}

/// The value of the digits in `t[lo..hi]` where it is at most `cap`, and
/// whether it exceeds `cap`.
fn capped_value(t: &Vec<char>, lo: usize, hi: usize, cap: u128) -> (r: (u128, bool))
    requires
        lo <= hi <= t@.len(),
        cap <= EXPONENT_CAP,
    ensures
        r.1 <==> decimal_value(t@.subrange(lo as int, hi as int)) > cap,
        !r.1 ==> r.0 == decimal_value(t@.subrange(lo as int, hi as int)),
{
    let mut v: u128 = 0;
    let mut big = false;
    let mut i = lo;
    while i < hi
        invariant
            lo <= i <= hi <= t@.len(),
            cap <= EXPONENT_CAP,
            big <==> decimal_value(t@.subrange(lo as int, i as int)) > cap,
            !big ==> v == decimal_value(t@.subrange(lo as int, i as int)),
        decreases hi - i,
    {
        assert(t@.subrange(lo as int, i + 1).drop_last() =~= t@.subrange(lo as int, i as int));
        let c = t[i];
        if digit_char(c) && !big {
            v = v * 10 + (c as u32 - '0' as u32) as u128;
            big = v > cap;
        }
        i = i + 1;
    }
    (v, big)
}

/// Whether `t` is a number literal.
pub fn is_float_literal(t: &Vec<char>) -> (r: bool)
    ensures
        r == is_float(t@),
{
    let len = t.len();
    assert(t@.subrange(0, len as int) =~= t@);
    let e = find_in(t, 0, len, 'e', 'E');
    let p = find_in(t, 0, e, '.', '.');
    let ghost m = mantissa(t@);
    assert(m =~= t@.subrange(0, e as int));
    assert(integer_part(t@) =~= t@.subrange(0, p as int));
    let fl = if p < e {
        p + 1
    } else {
        e
    };
    assert(fraction_part(t@) =~= t@.subrange(fl as int, e as int));
    let ip_ok = p == 0 || decimal_in(t, 0, p);
    let fp_ok = fl == e || decimal_in(t, fl, e);
    let exp_ok = if e < len {
        let ghost x = exponent_part(t@);
        assert(x =~= t@.subrange(e + 1, len as int));
        if e + 1 < len && (t[e + 1] == '+' || t[e + 1] == '-') {
            assert(x.subrange(1, x.len() as int) =~= t@.subrange(e + 2, len as int));
            decimal_in(t, e + 2, len)
        } else {
            decimal_in(t, e + 1, len)
        }
    } else {
        true
    };
    ip_ok && fp_ok && (0 < p || fl < e) && (p < e || e < len) && (!(p < e && fl == e) || e == len)
        && exp_ok
}

/// `m · 10^sh` where that is at most `UNIT`.
fn scale_up(m: u128, sh: i128) -> (r: Option<(u64, bool)>)
    requires
        m <= UNIT,
        sh >= 0,
    ensures
        r is None <==> m * pow10(sh as nat) > UNIT,
        r matches Some(v) ==> v.0 == m * pow10(sh as nat) && v.1,
{
    let ghost mv = m as int;
    let mut q: u128 = m;
    let mut i: i128 = 0;
    assert(pow10(0) == 1);
    assert(mv * pow10(0) == mv) by (nonlinear_arith)
        requires
            pow10(0) == 1,
    ;
    while i < sh && q != 0 && q <= UNIT as u128
        invariant
            0 <= i <= sh,
            q == mv * pow10(i as nat),
            mv == m,
            mv >= 0,
        decreases sh - i,
    {
        assert(mv * pow10((i + 1) as nat) == mv * pow10(i as nat) * 10) by (nonlinear_arith)
            requires
                pow10((i + 1) as nat) == 10 * pow10(i as nat),
        ;
        q = q * 10;
        i = i + 1;
    }
    proof {
        lemma_pow10_monotone(i as nat, sh as nat);
        lemma_pow10_positive(i as nat);
        assert(mv * pow10(i as nat) <= mv * pow10(sh as nat)) by (nonlinear_arith)
            requires
                mv >= 0,
                pow10(i as nat) <= pow10(sh as nat),
        ;
        if q == 0 {
            assert(mv == 0) by (nonlinear_arith)
                requires
                    mv * pow10(i as nat) == 0,
                    pow10(i as nat) >= 1,
            ;
            assert(mv * pow10(sh as nat) == 0) by (nonlinear_arith)
                requires
                    mv == 0,
            ;
        }
    }
    if q > UNIT as u128 {
        return None;
    }
    Some((q as u64, true))
}

/// `⌊M / 10^k⌋` for the numeral `M` that the digits of `t[0..e]` spell, where
/// that is at most `UNIT`, with whether `10^k` divides `M`.
fn scale_down(t: &Vec<char>, e: usize, n: usize, k: i128) -> (r: Option<(u64, bool)>)
    requires
        e <= t@.len(),
        n == digit_count(t@.subrange(0, e as int)),
        k > 0,
    ensures
        ({
            let mv = decimal_value(t@.subrange(0, e as int)) as int;
            let p = pow10(k as nat) as int;
            &&& r is None <==> mv / p > UNIT
            &&& r matches Some(v) ==> v.0 == mv / p && v.1 == (mv % p == 0)
        }),
{
    let ghost ms = t@.subrange(0, e as int);
    let ghost mv = decimal_value(ms) as int;
    let split: i128 = n as i128 - k;
    let mut q: u128 = 0;
    let mut big = false;
    let mut zero_tail = true;
    let mut j: usize = 0;
    let mut i: usize = 0;
    let ghost mut qg: int = 0;
    let ghost mut tg: int = 0;
    let ghost mut tl: nat = 0;
    assert(ms.subrange(0, 0) =~= Seq::<char>::empty());
    assert(pow10(0) == 1);
    while i < e
        invariant
            i <= e <= t@.len(),
            ms == t@.subrange(0, e as int),
            n == digit_count(ms),
            j == digit_count(ms.subrange(0, i as int)),
            j <= i,
            decimal_value(ms.subrange(0, i as int)) == qg * pow10(tl) + tg,
            0 <= tg < pow10(tl),
            0 <= qg,
            j <= split ==> tl == 0 && tg == 0,
            j > split ==> tl == j - (if split > 0 { split } else { 0 }),
            split < 0 ==> qg == 0,
            zero_tail <==> tg == 0,
            !big ==> q == qg && q <= UNIT,
            big <==> qg > UNIT,
        decreases e - i,
    {
        assert(ms.subrange(0, i + 1).drop_last() =~= ms.subrange(0, i as int));
        let c = t[i];
        let ghost before = decimal_value(ms.subrange(0, i as int));
        assert(ms.subrange(0, i + 1).last() == c);
        if digit_char(c) {
            let dv = (c as u32 - '0' as u32) as u128;
            assert(decimal_value(ms.subrange(0, i + 1)) == before * 10 + dv);
            if (j as i128) < split {
                proof {
                    assert(pow10(tl) == 1);
                    assert(before == qg) by (nonlinear_arith)
                        requires
                            before == qg * pow10(tl) + tg,
                            pow10(tl) == 1,
                            tg == 0,
                    ;
                    qg = qg * 10 + dv;
                    assert(qg * pow10(tl) + tg == qg) by (nonlinear_arith)
                        requires
                            pow10(tl) == 1,
                            tg == 0,
                    ;
                }
                if !big {
                    q = q * 10 + dv;
                    big = q > UNIT as u128;
                }
            } else {
                proof {
                    assert((qg * pow10(tl) + tg) * 10 + dv == qg * (10 * pow10(tl)) + (tg * 10
                        + dv)) by (nonlinear_arith);
                    tg = tg * 10 + dv;
                    tl = tl + 1;
                    assert(pow10(tl) == 10 * pow10((tl - 1) as nat));
                }
                zero_tail = zero_tail && dv == 0;
            }
            j = j + 1;
        } else {
            assert(decimal_value(ms.subrange(0, i + 1)) == before);
        }
        i = i + 1;
    }
    proof {
        assert(ms.subrange(0, e as int) =~= ms);
        lemma_value_below_pow(ms);
        let kk = k as nat;
        if split >= 0 {
            vstd::arithmetic::div_mod::lemma_fundamental_div_mod_converse(
                mv,
                pow10(kk) as int,
                qg,
                tg,
            );
        } else {
            lemma_pow10_monotone(n as nat, kk);
            vstd::arithmetic::div_mod::lemma_fundamental_div_mod_converse(
                mv,
                pow10(kk) as int,
                0,
                mv,
            );
        }
    }
    if big {
        None
    } else {
        Some((q as u64, zero_tail))
    }
}

/// The literal's value times `UNIT`, rounded down, with whether nothing was
/// rounded away; `None` where that exceeds `UNIT`.
#[verifier::rlimit(60)]
pub fn scaled_value(t: &Vec<char>) -> (r: Option<(u64, bool)>)
    requires
        is_float(t@),
    ensures
        r is None <==> scaled_floor(t@) > UNIT,
        r matches Some(v) ==> v.0 == scaled_floor(t@) && v.1 == scaled_is_exact(t@),
{
    let len = t.len();
    assert(t@.subrange(0, len as int) =~= t@);
    let e = find_in(t, 0, len, 'e', 'E');
    let p = find_in(t, 0, e, '.', '.');
    let ghost ms = mantissa(t@);
    assert(ms =~= t@.subrange(0, e as int));
    let fl = if p < e {
        p + 1
    } else {
        e
    };
    assert(fraction_part(t@) =~= t@.subrange(fl as int, e as int));
    let d = count_digits(t, fl, e);
    let n = count_digits(t, 0, e);
    let (m, mbig) = capped_value(t, 0, e, UNIT as u128);
    let ghost mv = decimal_value(ms) as int;
    let neg = e < len && e + 1 < len && t[e + 1] == '-';
    let (ev, ebig) = if e < len {
        assert(exponent_part(t@) =~= t@.subrange(e + 1, len as int));
        capped_value(t, e + 1, len, EXPONENT_CAP)
    } else {
        assert(exponent_part(t@) =~= Seq::<char>::empty());
        (0, false)
    };
    proof {
        lemma_value_below_pow(ms);
        lemma_pow10_seven();
    }
    if ebig {
        if neg {
            proof {
                let k = (-shift(t@)) as nat;
                lemma_pow10_monotone(n as nat, k);
                vstd::arithmetic::div_mod::lemma_fundamental_div_mod_converse(
                    mv,
                    pow10(k) as int,
                    0,
                    mv,
                );
            }
            return Some((0, !mbig && m == 0));
        } else {
            if !mbig && m == 0 {
                return Some((0, true));
            }
            proof {
                let sh = shift(t@) as nat;
                lemma_pow10_monotone(7, sh);
                assert(mv * pow10(sh) >= pow10(sh)) by (nonlinear_arith)
                    requires
                        mv >= 1,
                ;
            }
            return None;
        }
    }
    let sh: i128 = if neg {
        -(ev as i128)
    } else {
        ev as i128
    } - d as i128 + UNIT_DIGITS as i128;
    assert(sh == shift(t@));
    if sh >= 0 {
        if mbig {
            proof {
                lemma_pow10_positive(sh as nat);
                assert(mv * pow10(sh as nat) >= mv) by (nonlinear_arith)
                    requires
                        mv >= 0,
                        pow10(sh as nat) >= 1,
                ;
            }
            return None;
        }
        proof {
            assert(ms == t@.subrange(0, e as int));
        }
        return scale_up(m, sh);
    }
    assert(ms == t@.subrange(0, e as int));
    scale_down(t, e, n, -sh)
}

} // verus!
