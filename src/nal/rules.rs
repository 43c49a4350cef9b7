//! Syllogistic rules for first-order inheritance statements.
use vstd::prelude::*;

use super::formulas::{deduction, deduction_of};
use super::number::chars_of;
use super::TruthValue;

verus! {

/// A term that carries the truth value of the statement it names.
#[derive(Debug, Clone, PartialEq, Eq)]
pub struct Term {
    id: u32,
    expr: String,
    tv: TruthValue,
}

impl Term {
    pub fn new(expr: &str, tv: TruthValue) -> (r: Term)
        ensures
            r.expr_spec() == expr@,
            r.tv_spec() == tv,
    {
        Term { id: 0, expr: String::from_str(expr), tv }
    }

    pub closed spec fn expr_spec(&self) -> Seq<char> {
        self.expr@
    }

    pub closed spec fn tv_spec(&self) -> TruthValue {
        self.tv
    }

    /// The statement's text.
    pub fn expr(&self) -> (r: &str)
        ensures
            r@ == self.expr_spec(),
    {
        self.expr.as_str()
    }

    /// The statement's truth value.
    pub fn tv(&self) -> (r: TruthValue)
        ensures
            r == self.tv_spec(),
    {
        self.tv
    }
}

/// Why two premises could not be combined.
#[derive(Debug, Clone, Copy, PartialEq, Eq, Structural)]
pub enum RewriteError {
    /// A premise is not of the form `S --> P`.
    NotInheritance,
    /// The first premise's predicate is not the second premise's subject.
    NonMatchingMiddleTerm,
}

/// The inheritance copula ` --> `.
pub open spec fn copula() -> Seq<char> {
    seq![' ', '-', '-', '>', ' ']
}

/// The statement without one pair of enclosing angle brackets.
pub open spec fn unbracketed(e: Seq<char>) -> Seq<char> {
    if e.len() >= 2 && e[0] == '<' && e.last() == '>' {
        e.subrange(1, e.len() - 1)
    } else {
        e
    }
}

/// The first index at or after `k` where the copula starts in `e`, or `-1`.
pub open spec fn copula_at(e: Seq<char>, k: int) -> int
    decreases e.len() - k,
{
    if k < 0 || k + 5 > e.len() {
        -1
    } else if e.subrange(k, k + 5) == copula() {
        k
    } else {
        copula_at(e, k + 1)
    }
}

/// The statement is `S --> P`, with or without enclosing brackets.
pub open spec fn is_inheritance(e: Seq<char>) -> bool {
    copula_at(unbracketed(e), 0) >= 0
}

/// `S` of `S --> P`: everything before the first copula.
pub open spec fn subject(e: Seq<char>) -> Seq<char> {
    let u = unbracketed(e);
    u.subrange(0, copula_at(u, 0))
}

/// `P` of `S --> P`: everything after the first copula.
pub open spec fn predicate(e: Seq<char>) -> Seq<char> {
    let u = unbracketed(e);
    u.subrange(copula_at(u, 0) + 5, u.len() as int)
}

/// The bounds of the subject and predicate of `e`, where it is an inheritance.
fn split_inheritance(v: &Vec<char>) -> (r: Option<(usize, usize, usize, usize)>)
    ensures
        r is Some <==> is_inheritance(v@),
        r matches Some((a, b, c, d)) ==> a <= b <= c <= d <= v@.len() && v@.subrange(a as int, b as int)
            == subject(v@) && v@.subrange(c as int, d as int) == predicate(v@),
{
    let len = v.len();
    let (lo, hi) = if len >= 2 && v[0] == '<' && v[len - 1] == '>' {
        (1, len - 1)
    } else {
        (0, len)
    };
    let ghost u = unbracketed(v@);
    assert(u =~= v@.subrange(lo as int, hi as int));
    let mut k = lo;
    while k < hi && hi - k >= 5
        invariant
            lo <= k <= hi <= len == v@.len(),
            u == v@.subrange(lo as int, hi as int),
            u == unbracketed(v@),
            copula_at(u, 0) == copula_at(u, k - lo),
        decreases hi - k,
    {
        if v[k] == ' ' && v[k + 1] == '-' && v[k + 2] == '-' && v[k + 3] == '>' && v[k + 4] == ' ' {
            assert(u.subrange(k - lo, k - lo + 5) =~= copula());
            assert(copula_at(u, k - lo) == k - lo);
            assert(copula_at(u, 0) == k - lo);
            assert(subject(v@) == u.subrange(0, k - lo));
            assert(u.subrange(0, k - lo) =~= v@.subrange(lo as int, k as int));
            assert(predicate(v@) == u.subrange(k - lo + 5, u.len() as int));
            assert(u.subrange(k - lo + 5, u.len() as int) =~= v@.subrange(k + 5, hi as int));
            return Some((lo, k, k + 5, hi));
        }
        assert(u.subrange(k - lo, k - lo + 5)[0] == v@[k as int]);
        assert(u.subrange(k - lo, k - lo + 5)[1] == v@[k + 1]);
        assert(u.subrange(k - lo, k - lo + 5)[2] == v@[k + 2]);
        assert(u.subrange(k - lo, k - lo + 5)[3] == v@[k + 3]);
        assert(u.subrange(k - lo, k - lo + 5)[4] == v@[k + 4]);
        assert(u.subrange(k - lo, k - lo + 5) != copula());
        k = k + 1;
    }
    None
}

/// Whether `v[a..b]` and `w[c..d]` hold the same characters.
fn same_text(v: &Vec<char>, a: usize, b: usize, w: &Vec<char>, c: usize, d: usize) -> (r: bool)
    requires
        a <= b <= v@.len(),
        c <= d <= w@.len(),
    ensures
        r == (v@.subrange(a as int, b as int) == w@.subrange(c as int, d as int)),
{
    if b - a != d - c {
        assert(v@.subrange(a as int, b as int).len() != w@.subrange(c as int, d as int).len());
        return false;
    }
    let mut i: usize = 0;
    while i < b - a
        invariant
            a <= b <= v@.len(),
            c <= d <= w@.len(),
            b - a == d - c,
            i <= b - a,
            forall|j: int|
                0 <= j < i ==> v@.subrange(a as int, b as int)[j] == #[trigger] w@.subrange(
                    c as int,
                    d as int,
                )[j],
        decreases b - a - i,
    {
        if v[a + i] != w[c + i] {
            assert(v@.subrange(a as int, b as int)[i as int] != w@.subrange(c as int, d as int)[i as int]);
            return false;
        }
        i = i + 1;
    }
    assert(v@.subrange(a as int, b as int) =~= w@.subrange(c as int, d as int));
    true
}

/// The text `<S --> P>`.
pub open spec fn inheritance_text(s: Seq<char>, p: Seq<char>) -> Seq<char> {
    seq!['<'] + s + copula() + p + seq!['>']
}

/// Deduction on inheritance: from `<a --> b>` and `<b --> c>`, the term
/// `<a --> c>` with the deduction of the two truth values.
///
/// Each premise is split at its first ` --> `, so only first-order statements
/// are read as intended: a subject that itself holds ` --> ` (a nested
/// statement, or a name such as `x -->`) is cut short there, and the premises
/// are then reported as `NonMatchingMiddleTerm`.
pub fn rewrite_deduction(tab: Term, tbc: Term) -> (r: Result<(Term, TruthValue), RewriteError>)
    ensures
        !is_inheritance(tab.expr_spec()) || !is_inheritance(tbc.expr_spec()) ==> r == Err::<
            (Term, TruthValue),
            RewriteError,
        >(RewriteError::NotInheritance),
        is_inheritance(tab.expr_spec()) && is_inheritance(tbc.expr_spec()) && predicate(
            tab.expr_spec(),
        ) != subject(tbc.expr_spec()) ==> r == Err::<(Term, TruthValue), RewriteError>(
            RewriteError::NonMatchingMiddleTerm,
        ),
        is_inheritance(tab.expr_spec()) && is_inheritance(tbc.expr_spec()) && predicate(
            tab.expr_spec(),
        ) == subject(tbc.expr_spec()) ==> (r matches Ok((t, tv)) && t.expr_spec()
            == inheritance_text(subject(tab.expr_spec()), predicate(tbc.expr_spec()))
            && tv@ == deduction_of(tab.tv_spec()@, tbc.tv_spec()@) && t.tv_spec() == tv),
{
    let v = chars_of(tab.expr());
    let w = chars_of(tbc.expr());
    let (a, b, c, d) = match split_inheritance(&v) {
        Some(x) => x,
        None => {
            return Err(RewriteError::NotInheritance);
        },
    };
    let (e, f, g, h) = match split_inheritance(&w) {
        Some(x) => x,
        None => {
            return Err(RewriteError::NotInheritance);
        },
    };
    if !same_text(&v, c, d, &w, e, f) {
        return Err(RewriteError::NonMatchingMiddleTerm);
    }
    proof {
        reveal_strlit("<");
        reveal_strlit(" --> ");
        reveal_strlit(">");
    }
    let expr = String::from_str("<").concat(tab.expr().substring_char(a, b)).concat(
        " --> ",
    ).concat(tbc.expr().substring_char(g, h)).concat(">");
    assert(expr@ =~= inheritance_text(subject(tab.expr_spec()), predicate(tbc.expr_spec())));
    let tv = deduction(tab.tv(), tbc.tv());
    Ok((Term::new(expr.as_str(), tv), tv))
}

} // verus!
