//! Values, terms and sentences of Non-Axiomatic Logic.
//!
//! Strength and confidence are held in fixed point: an integer `v` stands for
//! the real number `v / UNIT`, so `UNIT` itself stands for 1.0.
pub mod formulas;
pub mod number;
pub mod parser;
pub mod rules;

use vstd::prelude::*;

use number::{
    chars_of, confidence_in_range, is_float, is_float_literal, scaled_floor, scaled_value,
    strength_in_range,
};

verus! {

/// The fixed-point denominator: one millionth is the finest step.
pub const UNIT: u64 = 1_000_000;

/// The range that every evidential value obeys: strength in `[0, 1]`,
/// confidence in `[0, 1)`.
pub open spec fn in_range(v: (int, int)) -> bool {
    0 <= v.0 <= UNIT && 0 <= v.1 < UNIT
}

/// An evidential pair that lies outside its legal range.
#[derive(Debug, Clone, Copy, PartialEq, Eq, Structural)]
pub enum OutOfRange {
    /// The strength is above one.
    Strength,
    /// The confidence is one or above.
    Confidence,
}

/// Which component of `(s, c)` breaks the range first, strength before confidence.
pub open spec fn range_error(s: int, c: int) -> OutOfRange {
    if s > UNIT {
        OutOfRange::Strength
    } else {
        OutOfRange::Confidence
    }
}

#[derive(Debug, Clone, Copy, PartialEq, Eq, Structural)]
struct EvidentialValue {
    s: u64,
    c: u64,
}

impl EvidentialValue {
    #[verifier::type_invariant]
    spec fn inv(self) -> bool {
        in_range((self.s as int, self.c as int))
    }

    fn new(s: u64, c: u64) -> (r: Result<EvidentialValue, OutOfRange>)
        ensures
            in_range((s as int, c as int)) ==> r == Ok::<EvidentialValue, OutOfRange>(
                EvidentialValue { s, c },
            ),
            !in_range((s as int, c as int)) ==> r == Err::<EvidentialValue, OutOfRange>(
                range_error(s as int, c as int),
            ),
    {
        if s > UNIT {
            Err(OutOfRange::Strength)
        } else if c >= UNIT {
            Err(OutOfRange::Confidence)
        } else {
            Ok(EvidentialValue { s, c })
        }
    }
}

/// How well supported a statement is: a strength and a confidence.
#[derive(Debug, Clone, Copy, PartialEq, Eq, Structural)]
pub struct TruthValue {
    ev: EvidentialValue,
}

impl View for TruthValue {
    type V = (int, int);

    closed spec fn view(&self) -> (int, int) {
        (self.ev.s as int, self.ev.c as int)
    }
}

impl TruthValue {
    /// Builds a truth value; fails, naming the offending component, when
    /// the pair is out of range. Nothing is clamped.
    pub fn new(strength: u64, confidence: u64) -> (r: Result<TruthValue, OutOfRange>)
        ensures
            in_range((strength as int, confidence as int)) <==> r is Ok,
            r matches Ok(t) ==> t@ == (strength as int, confidence as int),
            r matches Err(e) ==> e == range_error(strength as int, confidence as int),
    {
        match EvidentialValue::new(strength, confidence) {
            Ok(ev) => Ok(TruthValue { ev }),
            Err(e) => Err(e),
        }
    }

    /// Builds a truth value from a pair already known to be in range.
    pub(crate) fn from_parts(strength: u64, confidence: u64) -> (r: TruthValue)
        requires
            in_range((strength as int, confidence as int)),
        ensures
            r@ == (strength as int, confidence as int),
    {
        TruthValue { ev: EvidentialValue { s: strength, c: confidence } }
    }

    /// The strength, in units of `1 / UNIT`.
    pub fn strength(&self) -> (r: u64)
        ensures
            r == self@.0,
            in_range(self@),
    {
        proof {
            use_type_invariant(&self.ev);
        }
        self.ev.s
    }

    /// The confidence, in units of `1 / UNIT`.
    pub fn confidence(&self) -> (r: u64)
        ensures
            r == self@.1,
            in_range(self@),
    {
        proof {
            use_type_invariant(&self.ev);
        }
        self.ev.c
    }
}

/// How much a statement serves the system's goals: a strength and a confidence.
#[derive(Debug, Clone, Copy, PartialEq, Eq, Structural)]
pub struct DesireValue {
    ev: EvidentialValue,
}

impl View for DesireValue {
    type V = (int, int);

    closed spec fn view(&self) -> (int, int) {
        (self.ev.s as int, self.ev.c as int)
    }
}

impl DesireValue {
    /// Builds a desire value; fails, naming the offending component, when
    /// the pair is out of range.
    pub fn new(strength: u64, confidence: u64) -> (r: Result<DesireValue, OutOfRange>)
        ensures
            in_range((strength as int, confidence as int)) <==> r is Ok,
            r matches Ok(d) ==> d@ == (strength as int, confidence as int),
            r matches Err(e) ==> e == range_error(strength as int, confidence as int),
    {
        match EvidentialValue::new(strength, confidence) {
            Ok(ev) => Ok(DesireValue { ev }),
            Err(e) => Err(e),
        }
    }

    /// The desire that carries the same evidential pair as `tv`.
    pub fn from_truth(tv: &TruthValue) -> (r: DesireValue)
        ensures
            r@ == tv@,
    {
        DesireValue { ev: tv.ev }
    }

    /// The strength, in units of `1 / UNIT`.
    pub fn strength(&self) -> (r: u64)
        ensures
            r == self@.0,
            in_range(self@),
    {
        proof {
            use_type_invariant(&self.ev);
        }
        self.ev.s
    }

    /// The confidence, in units of `1 / UNIT`.
    pub fn confidence(&self) -> (r: u64)
        ensures
            r == self@.1,
            in_range(self@),
    {
        proof {
            use_type_invariant(&self.ev);
        }
        self.ev.c
    }
}

/// What the grammar expected where a parse failed.
#[derive(Debug, Clone, Copy, PartialEq, Eq, Structural)]
pub enum Expected {
    /// `'<' expr '>'` followed by punctuation.
    Statement,
    /// A tense marker `:|:`, `:\:` or `:/:` after a `:`.
    Tense,
    /// `'{' float WS float '}'`.
    TruthValue,
    /// A number literal.
    Number,
}

/// Why a sentence could not be read.
#[derive(Debug, Clone, PartialEq, Eq)]
pub enum ParseError {
    /// The text does not follow the grammar; `remaining` is the input that
    /// was left where the failure was found.
    ParseFailure { remaining: String, expected: Expected },
    /// The statement ends in something other than `.`, `?` or `!`.
    InvalidPunctuation(String),
    /// A truth value written in the text lies outside its range.
    OutOfRange(OutOfRange),
}

/// Both literals are numbers, and they make an in-range truth value.
pub open spec fn literals_in_range(s: Seq<char>, c: Seq<char>) -> bool {
    &&& is_float(s)
    &&& is_float(c)
    &&& strength_in_range(s)
    &&& confidence_in_range(c)
}

/// `e` is the error for literals that do not make an in-range truth value:
/// the first malformed literal, else the first component out of range.
pub open spec fn literals_error(s: Seq<char>, c: Seq<char>, e: ParseError) -> bool {
    if is_float(s) && is_float(c) {
        e == ParseError::OutOfRange(
            if strength_in_range(s) {
                OutOfRange::Confidence
            } else {
                OutOfRange::Strength
            },
        )
    } else {
        e matches ParseError::ParseFailure { remaining, expected: Expected::Number }
            && remaining@ == if is_float(s) {
            c
        } else {
            s
        }
    }
}

/// The neutral prior `(1.0, 0.5)` of a sentence without a truth value.
pub open spec fn prior() -> (int, int) {
    (UNIT as int, UNIT as int / 2)
}

impl TruthValue {
    /// The truth value that a strength literal and a confidence literal denote,
    /// each rounded down to the grid.
    pub fn from_literals(strength: &str, confidence: &str) -> (r: Result<TruthValue, ParseError>)
        ensures
            r is Ok <==> literals_in_range(strength@, confidence@),
            r matches Ok(t) ==> t@ == (scaled_floor(strength@), scaled_floor(confidence@)),
            r matches Err(e) ==> literals_error(strength@, confidence@, e),
    {
        let sv = chars_of(strength);
        let cv = chars_of(confidence);
        if !is_float_literal(&sv) {
            return Err(
                ParseError::ParseFailure {
                    remaining: String::from_str(strength),
                    expected: Expected::Number,
                },
            );
        }
        if !is_float_literal(&cv) {
            return Err(
                ParseError::ParseFailure {
                    remaining: String::from_str(confidence),
                    expected: Expected::Number,
                },
            );
        }
        let s = match scaled_value(&sv) {
            Some((v, exact)) => {
                if v < UNIT || exact {
                    v
                } else {
                    return Err(ParseError::OutOfRange(OutOfRange::Strength));
                }
            },
            None => {
                return Err(ParseError::OutOfRange(OutOfRange::Strength));
            },
        };
        match scaled_value(&cv) {
            Some((c, _)) => {
                if c < UNIT {
                    Ok(TruthValue::from_parts(s, c))
                } else {
                    Err(ParseError::OutOfRange(OutOfRange::Confidence))
                }
            },
            None => Err(ParseError::OutOfRange(OutOfRange::Confidence)),
        }
    }
}

/// When a sentence holds, relative to now.
#[derive(Debug, Clone, Copy, PartialEq, Eq, Structural)]
pub enum Tense {
    Present,
    Past,
    Future,
    Eternal,
}

/// The tense that a three-character marker names.
pub open spec fn tense_named(t: Seq<char>) -> Option<Tense> {
    if t == seq![':', '|', ':'] {
        Some(Tense::Present)
    } else if t == seq![':', '\\', ':'] {
        Some(Tense::Past)
    } else if t == seq![':', '/', ':'] {
        Some(Tense::Future)
    } else {
        None
    }
}

impl Tense {
    /// The tense of a marker held in three characters.
    pub(crate) fn from_marker(a: char, b: char, c: char) -> (r: Option<Tense>)
        ensures
            r == tense_named(seq![a, b, c]),
    {
        if a == ':' && c == ':' {
            if b == '|' {
                return Some(Tense::Present);
            } else if b == '\\' {
                return Some(Tense::Past);
            } else if b == '/' {
                return Some(Tense::Future);
            }
        }
        assert(seq![a, b, c][0] == a && seq![a, b, c][1] == b && seq![a, b, c][2] == c);
        None
    }
}

impl Tense {
    /// The tense that a marker names; no marker means `Eternal`.
    pub fn from(name: Option<&str>) -> (r: Result<Tense, String>)
        ensures
            name is None ==> r == Ok::<Tense, String>(Tense::Eternal),
            name matches Some(n) ==> match tense_named(n@) {
                Some(t) => r == Ok::<Tense, String>(t),
                None => r matches Err(m) && m@ == "invalid tense: "@ + n@,
            },
    {
        match name {
            None => Ok(Tense::Eternal),
            Some(n) => {
                let v = chars_of(n);
                if v.len() == 3 {
                    assert(n@ =~= seq![v@[0], v@[1], v@[2]]);
                    if let Some(t) = Tense::from_marker(v[0], v[1], v[2]) {
                        return Ok(t);
                    }
                } else {
                    assert(n@.len() != 3);
                    assert(seq![':', '|', ':'].len() == 3);
                    assert(seq![':', '\\', ':'].len() == 3);
                    assert(seq![':', '/', ':'].len() == 3);
                }
                Err(String::from_str("invalid tense: ").concat(n))
            },
        }
    }
}

/// A named entity that a sentence is about.
#[derive(Debug, Clone, PartialEq, Eq)]
pub struct AtomicTerm {
    id: u32,
    expr: String,
}

impl AtomicTerm {
    pub fn new(expr: &str) -> (r: AtomicTerm)
        ensures
            r.name_spec() == expr@,
    {
        AtomicTerm { id: 0, expr: String::from_str(expr) }
    }

    pub closed spec fn name_spec(&self) -> Seq<char> {
        self.expr@
    }

    /// The term's text.
    pub fn name(&self) -> (r: &str)
        ensures
            r@ == self.name_spec(),
    {
        self.expr.as_str()
    }
}

/// A statement put forward as true to the degree its truth value says.
#[derive(Debug, Clone, PartialEq, Eq)]
pub struct Judgement {
    pub term: AtomicTerm,
    pub tv: TruthValue,
    pub tense: Tense,
}

/// A statement whose truth is asked for.
#[derive(Debug, Clone, PartialEq, Eq)]
pub struct Question {
    pub term: AtomicTerm,
    pub tv: TruthValue,
    pub tense: Tense,
}

/// A statement the system is to make true.
#[derive(Debug, Clone, PartialEq, Eq)]
pub struct Goal {
    pub term: AtomicTerm,
    pub d: DesireValue,
    pub tense: Tense,
}

/// A judgement, question or goal, told apart by its punctuation.
#[derive(Debug, Clone, PartialEq, Eq)]
pub enum Sentence {
    J(Judgement),
    Q(Question),
    G(Goal),
}

pub open spec fn is_punctuation(c: char) -> bool {
    c == '.' || c == '?' || c == '!'
}

/// `sen` is the sentence of kind `punctuation` about `expr`, with that tense
/// and that truth (or desire) value.
pub open spec fn sentence_is(
    sen: Sentence,
    expr: Seq<char>,
    punctuation: char,
    tense: Tense,
    tv: (int, int),
) -> bool {
    match sen {
        Sentence::J(j) => punctuation == '.' && j.term.name_spec() == expr && j.tv@ == tv && j.tense
            == tense,
        Sentence::Q(q) => punctuation == '?' && q.term.name_spec() == expr && q.tv@ == tv && q.tense
            == tense,
        Sentence::G(g) => punctuation == '!' && g.term.name_spec() == expr && g.d@ == tv && g.tense
            == tense,
    }
}

impl Sentence {
    /// Assembles a sentence from the statement's text and punctuation, its
    /// tense and its truth-value literals, if any. The last character of the
    /// punctuation picks the kind; without literals the truth value is the
    /// neutral prior.
    pub fn from(sttv: ((&str, &str), Tense, Option<(&str, &str)>)) -> (r: Result<Sentence, ParseError>)
        ensures
            ({
                let ((expr, pstr), tense, tvstr) = sttv;
                let p = pstr@;
                if p.len() == 0 || !is_punctuation(p.last()) {
                    r matches Err(ParseError::InvalidPunctuation(x)) && x@ == p
                } else {
                    match tvstr {
                        Some((s, c)) => if literals_in_range(s@, c@) {
                            r matches Ok(sen) && sentence_is(
                                sen,
                                expr@,
                                p.last(),
                                tense,
                                (scaled_floor(s@), scaled_floor(c@)),
                            )
                        } else {
                            r matches Err(e) && literals_error(s@, c@, e)
                        },
                        None => r matches Ok(sen) && sentence_is(sen, expr@, p.last(), tense, prior()),
                    }
                }
            }),
    {
        let ((expr, pstr), tense, tvstr) = sttv;
        let pv = chars_of(pstr);
        if pv.len() == 0 || !(pv[pv.len() - 1] == '.' || pv[pv.len() - 1] == '?' || pv[pv.len()
            - 1] == '!') {
            return Err(ParseError::InvalidPunctuation(String::from_str(pstr)));
        }
        let punctuation = pv[pv.len() - 1];
        let tv = match tvstr {
            Some((s, c)) => TruthValue::from_literals(s, c)?,
            None => TruthValue::from_parts(UNIT, UNIT / 2),
        };
        let term = AtomicTerm::new(expr);
        if punctuation == '.' {
            Ok(Sentence::J(Judgement { term, tv, tense }))
        } else if punctuation == '?' {
            Ok(Sentence::Q(Question { term, tv, tense }))
        } else {
            Ok(Sentence::G(Goal { term, d: DesireValue::from_truth(&tv), tense }))
        }
    }
}

} // verus!
