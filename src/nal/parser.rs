//! The Narsese sentence grammar:
//!
//! ```text
//! sentence    ::= statement punctuation WS tense WS tv?
//! statement   ::= '<' expr '>'
//! punctuation ::= '.' | '?' | '!'
//! tense       ::= (':|:' | ':\:' | ':/:')?
//! tv          ::= '{' float ' '+ float '}'
//! ```
//!
//! `WS` is any number of spaces. The expression runs up to the earliest `>`
//! that is followed by punctuation, so an expression cannot itself hold such a
//! pair.
use vstd::prelude::*;

use super::number::{chars_of, is_digit, is_float, is_float_literal, scaled_floor};
use super::{
    is_punctuation, literals_error, literals_in_range, prior, sentence_is, tense_named, Expected,
    ParseError, Sentence, Tense,
};

verus! {

/// A `>` followed by punctuation stands at `k`.
pub open spec fn terminates_at(s: Seq<char>, k: int) -> bool {
    0 <= k && k + 1 < s.len() && s[k] == '>' && is_punctuation(s[k + 1])
}

/// The first `k' >= k` where the statement ends, or `-1`.
pub open spec fn statement_end(s: Seq<char>, k: int) -> int
    decreases s.len() - k,
{
    if k < 0 || k + 1 >= s.len() {
        -1
    } else if terminates_at(s, k) {
        k
    } else {
        statement_end(s, k + 1)
    }
}

/// The text starts with a statement: the earliest `>` that is followed by
/// punctuation closes a non-empty expression.
pub open spec fn has_statement(s: Seq<char>) -> bool {
    0 < s.len() && s[0] == '<' && statement_end(s, 1) >= 2
}

/// The text is `<expr>c` with a non-empty expression, where no `>` is ever
/// followed by punctuation and `c` is the last character: `c` stands where
/// the punctuation should.
pub open spec fn has_bad_punctuation(s: Seq<char>) -> bool {
    0 < s.len() && s[0] == '<' && statement_end(s, 1) < 0 && s.len() >= 4 && s[s.len() - 2] == '>'
}

/// The first index at or after `k` that is not a space.
pub open spec fn skip_spaces(s: Seq<char>, k: int) -> int
    decreases s.len() - k,
{
    if 0 <= k < s.len() && s[k] == ' ' {
        skip_spaces(s, k + 1)
    } else {
        k
    }
}

/// Where the text continues after an optional tense marker read from `k`,
/// and the tense; `None` where a `:` opens a marker that names no tense.
pub open spec fn after_tense(s: Seq<char>, k: int) -> Option<(int, Tense)> {
    let j = skip_spaces(s, k);
    if j < s.len() && s[j] == ':' {
        if j + 3 <= s.len() {
            match tense_named(s.subrange(j, j + 3)) {
                Some(t) => Some((j + 3, t)),
                None => None,
            }
        } else {
            None
        }
    } else {
        Some((j, Tense::Eternal))
    }
}

pub open spec fn is_number_char(c: char) -> bool {
    is_digit(c) || c == '_' || c == '.' || c == 'e' || c == 'E' || c == '+' || c == '-'
}

/// The first index at or after `k` that cannot belong to a number literal.
pub open spec fn number_end(s: Seq<char>, k: int) -> int
    decreases s.len() - k,
{
    if 0 <= k < s.len() && is_number_char(s[k]) {
        number_end(s, k + 1)
    } else {
        k
    }
}

/// With `{` at `k`: the bounds `(a, b, c, d)` of the two literals `s[a..b]`
/// and `s[c..d]`, where `'{' float ' '+ float '}'` stands there.
pub open spec fn tv_span(s: Seq<char>, k: int) -> Option<(int, int, int, int)> {
    let a = k + 1;
    let b = number_end(s, a);
    let c = skip_spaces(s, b);
    let d = number_end(s, c);
    if b < s.len() && s[b] == ' ' && d < s.len() && s[d] == '}' && is_float(s.subrange(a, b))
        && is_float(s.subrange(c, d)) {
        Some((a, b, c, d))
    } else {
        None
    }
}

/// Reading an optional truth value from `k`: `None` where a `{` opens one
/// that is malformed; else where the text continues, and the literals' bounds.
pub open spec fn tv_outcome(s: Seq<char>, k: int) -> Option<(int, Option<(int, int, int, int)>)> {
    let j = skip_spaces(s, k);
    if j < s.len() && s[j] == '{' {
        match tv_span(s, j) {
            Some(sp) => Some((sp.3 + 1, Some(sp))),
            None => None,
        }
    } else {
        Some((j, None))
    }
}

fn parse_failure(input: &str, expected: Expected) -> (r: ParseError)
    ensures
        r matches ParseError::ParseFailure { remaining, expected: e } && remaining@ == input@ && e
            == expected,
{
    ParseError::ParseFailure { remaining: String::from_str(input), expected }
}

/// The error for text that holds no statement: the misplaced punctuation where
/// the text is `<expr>c`, else a parse failure over the whole text.
pub open spec fn statement_error(s: Seq<char>, e: ParseError) -> bool {
    if has_bad_punctuation(s) {
        e matches ParseError::InvalidPunctuation(x) && x@ == s.subrange(
            s.len() - 2,
            s.len() as int,
        )
    } else {
        e matches ParseError::ParseFailure { remaining, expected: Expected::Statement }
            && remaining@ == s
    }
}

/// Splits `<expr>p rest` into `rest` and `(expr, ">p")`, ending the expression
/// at the earliest `>` that is followed by punctuation.
pub fn statement(input: &str) -> (r: Result<(&str, (&str, &str)), ParseError>)
    ensures
        r is Ok <==> has_statement(input@),
        r matches Ok((rest, (expr, p))) ==> {
            let s = input@;
            let k = statement_end(s, 1);
            &&& expr@ == s.subrange(1, k)
            &&& p@ == s.subrange(k, k + 2)
            &&& rest@ == s.subrange(k + 2, s.len() as int)
        },
        r matches Err(e) ==> statement_error(input@, e),
{
    let v = chars_of(input);
    let len = v.len();
    if len == 0 || v[0] != '<' {
        return Err(parse_failure(input, Expected::Statement));
    }
    let mut k: usize = 1;
    while k < len && k + 1 < len
        invariant
            v@ == input@,
            len == v@.len(),
            0 < len,
            v@[0] == '<',
            1 <= k,
            statement_end(v@, 1) == statement_end(v@, k as int),
        decreases len - k,
    {
        if v[k] == '>' && (v[k + 1] == '.' || v[k + 1] == '?' || v[k + 1] == '!') {
            assert(terminates_at(v@, k as int));
            assert(statement_end(v@, k as int) == k);
            if k == 1 {
                return Err(parse_failure(input, Expected::Statement));
            }
            let expr = input.substring_char(1, k);
            let p = input.substring_char(k, k + 2);
            let rest = input.substring_char(k + 2, len);
            return Ok((rest, (expr, p)));
        }
        k = k + 1;
    }
    assert(statement_end(v@, k as int) == -1);
    if len >= 4 && v[len - 2] == '>' {
        return Err(ParseError::InvalidPunctuation(String::from_str(input.substring_char(len - 2, len))));
    }
    Err(parse_failure(input, Expected::Statement))
}

fn skip_spaces_from(v: &Vec<char>, k: usize) -> (r: usize)
    requires
        k <= v@.len(),
    ensures
        r == skip_spaces(v@, k as int),
        k <= r <= v@.len(),
{
    let mut i = k;
    while i < v.len() && v[i] == ' '
        invariant
            k <= i <= v@.len(),
            skip_spaces(v@, k as int) == skip_spaces(v@, i as int),
        decreases v@.len() - i,
    {
        i = i + 1;
    }
    i
}

fn number_char(c: char) -> (r: bool)
    ensures
        r == is_number_char(c),
{
    ('0' <= c && c <= '9') || c == '_' || c == '.' || c == 'e' || c == 'E' || c == '+' || c == '-'
}

fn number_end_from(v: &Vec<char>, k: usize) -> (r: usize)
    requires
        k <= v@.len(),
    ensures
        r == number_end(v@, k as int),
        k <= r <= v@.len(),
{
    let mut i = k;
    while i < v.len() && number_char(v[i])
        invariant
            k <= i <= v@.len(),
            number_end(v@, k as int) == number_end(v@, i as int),
        decreases v@.len() - i,
    {
        i = i + 1;
    }
    i
}

/// The tense marker, if any, after the spaces from `k`; `None` where a `:`
/// opens a marker that names no tense.
fn tense(v: &Vec<char>, k: usize) -> (r: Option<(usize, Tense)>)
    requires
        k <= v@.len(),
    ensures
        r is None <==> after_tense(v@, k as int) is None,
        r matches Some((e, t)) ==> after_tense(v@, k as int) == Some((e as int, t)) && e
            <= v@.len(),
{
    let j = skip_spaces_from(v, k);
    if j < v.len() && v[j] == ':' {
        if v.len() - j >= 3 {
            assert(v@.subrange(j as int, j + 3) =~= seq![v@[j as int], v@[j + 1], v@[j + 2]]);
            match Tense::from_marker(v[j], v[j + 1], v[j + 2]) {
                Some(t) => Some((j + 3, t)),
                None => None,
            }
        } else {
            None
        }
    } else {
        Some((j, Tense::Eternal))
    }
}

/// The optional truth value after the spaces from `k`.
fn tv(v: &Vec<char>, k: usize) -> (r: Option<(usize, Option<(usize, usize, usize, usize)>)>)
    requires
        k <= v@.len(),
    ensures
        r is None <==> tv_outcome(v@, k as int) is None,
        r matches Some((e, sp)) ==> tv_outcome(v@, k as int) matches Some((e2, sp2)) && e == e2
            && e <= v@.len() && match sp {
            Some((a, b, c, d)) => sp2 == Some((a as int, b as int, c as int, d as int)) && a <= b
                <= c <= d < v@.len(),
            None => sp2 is None,
        },
{
    let j = skip_spaces_from(v, k);
    if j < v.len() && v[j] == '{' {
        let a = j + 1;
        let b = number_end_from(v, a);
        let c = skip_spaces_from(v, b);
        let d = number_end_from(v, c);
        if b < v.len() && v[b] == ' ' && d < v.len() && v[d] == '}' {
            let first = slice_chars(v, a, b);
            let second = slice_chars(v, c, d);
            if is_float_literal(&first) && is_float_literal(&second) {
                return Some((d + 1, Some((a, b, c, d))));
            }
        }
        None
    } else {
        Some((j, None))
    }
}

fn slice_chars(v: &Vec<char>, lo: usize, hi: usize) -> (r: Vec<char>)
    requires
        lo <= hi <= v@.len(),
    ensures
        r@ == v@.subrange(lo as int, hi as int),
{
    let mut r: Vec<char> = Vec::new();
    let mut i = lo;
    while i < hi
        invariant
            lo <= i <= hi <= v@.len(),
            r@ == v@.subrange(lo as int, i as int),
        decreases hi - i,
    {
        r.push(v[i]);
        i = i + 1;
    }
    r
}

proof fn lemma_statement_end(s: Seq<char>, k: int)
    requires
        statement_end(s, k) >= 0,
    ensures
        terminates_at(s, statement_end(s, k)),
        k <= statement_end(s, k),
    decreases s.len() - k,
{
    if !(k < 0 || k + 1 >= s.len()) && !terminates_at(s, k) {
        lemma_statement_end(s, k + 1);
    }
}

/// Reads one sentence from the start of `input` and returns the text after it.
pub fn sentence(input: &str) -> (r: Result<(&str, Sentence), ParseError>)
    ensures
        !has_statement(input@) ==> (r matches Err(e) && statement_error(input@, e)),
        has_statement(input@) ==> {
            let s = input@;
            let k = statement_end(s, 1);
            match after_tense(s, k + 2) {
                None => r matches Err(ParseError::ParseFailure { remaining, expected: Expected::Tense })
                    && remaining@ == s.subrange(skip_spaces(s, k + 2), s.len() as int),
                Some((j, tense)) => match tv_outcome(s, j) {
                    None => r matches Err(
                        ParseError::ParseFailure { remaining, expected: Expected::TruthValue },
                    ) && remaining@ == s.subrange(j, s.len() as int),
                    Some((end, None)) => r matches Ok((rest, sen)) && rest@ == s.subrange(
                        end,
                        s.len() as int,
                    ) && sentence_is(sen, s.subrange(1, k), s[k + 1], tense, prior()),
                    Some((end, Some((a, b, c, d)))) => if literals_in_range(
                        s.subrange(a, b),
                        s.subrange(c, d),
                    ) {
                        r matches Ok((rest, sen)) && rest@ == s.subrange(end, s.len() as int)
                            && sentence_is(
                            sen,
                            s.subrange(1, k),
                            s[k + 1],
                            tense,
                            (scaled_floor(s.subrange(a, b)), scaled_floor(s.subrange(c, d))),
                        )
                    } else {
                        r matches Err(e) && literals_error(s.subrange(a, b), s.subrange(c, d), e)
                    },
                },
            }
        },
{
    let (_, (expr, p)) = match statement(input) {
        Ok(x) => x,
        Err(e) => {
            return Err(e);
        },
    };
    let v = chars_of(input);
    let len = v.len();
    let ghost k = statement_end(v@, 1);
    proof {
        lemma_statement_end(v@, 1);
    }
    let after = expr.unicode_len() + 3;
    assert(after == k + 2);
    let (j, tense) = match tense(&v, after) {
        Some(x) => x,
        None => {
            let at = skip_spaces_from(&v, after);
            return Err(parse_failure(input.substring_char(at, len), Expected::Tense));
        },
    };
    match tv(&v, j) {
        None => Err(parse_failure(input.substring_char(j, len), Expected::TruthValue)),
        Some((end, sp)) => {
            let literals = match sp {
                Some((a, b, c, d)) => Some(
                    (input.substring_char(a, b), input.substring_char(c, d)),
                ),
                None => None,
            };
            assert(p@.last() == v@[k + 1]);
            let sen = Sentence::from(((expr, p), tense, literals))?;
            Ok((input.substring_char(end, len), sen))
        },
    }
}

} // verus!
