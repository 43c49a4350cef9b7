use narst::memory::Memory;
use narst::nal::parser::{sentence, statement};
use narst::nal::rules::{rewrite_deduction, RewriteError, Term};
use narst::nal::{
    AtomicTerm, Expected, OutOfRange, ParseError, Sentence, Tense, TruthValue, UNIT,
};

fn tv(s: u64, c: u64) -> TruthValue {
    TruthValue::new(s, c).unwrap()
}

#[test]
fn parse_statement() {
    let test_statement = "<corridor --> location>. :|:";
    assert_eq!(
        statement(test_statement).unwrap(),
        (" :|:", ("corridor --> location", ">."))
    );
}

#[test]
fn statement_ends_at_earliest_terminator() {
    assert_eq!(statement("<a>?b>.").unwrap(), ("b>.", ("a", ">?")));
    assert!(statement("a --> b>.").is_err());
    assert!(statement("<>.").is_err());
    assert!(matches!(
        statement("<>.a>."),
        Err(ParseError::ParseFailure { expected: Expected::Statement, .. })
    ));
    assert!(statement("").is_err());
}

#[test]
fn parses_present_judgement_with_prior() {
    let (rest, s) = sentence("<corridor --> location>. :|:").unwrap();
    assert_eq!(rest, "");
    match s {
        Sentence::J(j) => {
            assert_eq!(j.term.name(), "corridor --> location");
            assert_eq!(j.tense, Tense::Present);
            assert_eq!(j.tv, tv(UNIT, UNIT / 2));
        }
        _ => panic!("expected a judgement"),
    }
}

#[test]
fn parses_explicit_truth_value() {
    let (_, s) = sentence("<bird --> animal>. {0.9 0.9}").unwrap();
    match s {
        Sentence::J(j) => {
            assert_eq!(j.term.name(), "bird --> animal");
            assert_eq!(j.tense, Tense::Eternal);
            assert_eq!(j.tv, tv(900_000, 900_000));
        }
        _ => panic!("expected a judgement"),
    }
}

#[test]
fn parses_question_and_goal() {
    let (_, q) = sentence("<a --> b>? :\\:").unwrap();
    match q {
        Sentence::Q(q) => {
            assert_eq!(q.tense, Tense::Past);
            assert_eq!(q.tv, tv(UNIT, UNIT / 2));
        }
        _ => panic!("expected a question"),
    }
    let (_, g) = sentence("<a --> b>! :/: {1.0 0.25}").unwrap();
    match g {
        Sentence::G(g) => {
            assert_eq!(g.tense, Tense::Future);
            assert_eq!((g.d.strength(), g.d.confidence()), (UNIT, 250_000));
        }
        _ => panic!("expected a goal"),
    }
}

#[test]
fn number_literal_forms() {
    let cases: [(&str, u64); 6] = [
        ("0.5", 500_000),
        (".25", 250_000),
        ("1.", UNIT),
        ("5e-1", 500_000),
        ("0.1_2_5", 125_000),
        ("12.5E-2", 125_000),
    ];
    for (lit, want) in cases.iter() {
        let t = TruthValue::from_literals(lit, "0.5").unwrap();
        assert_eq!(t.strength(), *want, "{}", lit);
    }
    let t = TruthValue::from_literals("0.1234567", "0.9999999").unwrap();
    assert_eq!((t.strength(), t.confidence()), (123_456, 999_999));
}

#[test]
fn number_literals_out_of_range_or_malformed() {
    assert_eq!(
        TruthValue::from_literals("1.0000001", "0.5"),
        Err(ParseError::OutOfRange(OutOfRange::Strength))
    );
    assert_eq!(
        TruthValue::from_literals("1e999999999999999999999999", "0.5"),
        Err(ParseError::OutOfRange(OutOfRange::Strength))
    );
    assert_eq!(
        TruthValue::from_literals("0.5", "1.0"),
        Err(ParseError::OutOfRange(OutOfRange::Confidence))
    );
    assert_eq!(TruthValue::from_literals("0e999999999999999999999999", "1e-99999999999999999999999").unwrap(), tv(0, 0));
    for bad in ["1", "1.e5", "1__0.5", "0.5_", "e5", ".", "0.5.5"].iter() {
        assert!(
            matches!(
                TruthValue::from_literals(bad, "0.5"),
                Err(ParseError::ParseFailure { expected: Expected::Number, .. })
            ),
            "{}",
            bad
        );
    }
}

#[test]
fn out_of_range_truth_value_in_text_is_an_error() {
    assert!(matches!(
        sentence("<a --> b>. {1.5 0.9}"),
        Err(ParseError::OutOfRange(OutOfRange::Strength))
    ));
    assert!(matches!(
        sentence("<a --> b>. {0.5 1.0}"),
        Err(ParseError::OutOfRange(OutOfRange::Confidence))
    ));
    match sentence("<a --> b>. {0.5 x}") {
        Err(ParseError::ParseFailure { remaining, expected: Expected::TruthValue }) => {
            assert_eq!(remaining, "{0.5 x}")
        }
        _ => panic!("expected a truth-value failure"),
    }
}

#[test]
fn unknown_tense_marker_is_a_parse_failure() {
    match sentence("<a --> b>. :x:") {
        Err(ParseError::ParseFailure { remaining, expected: Expected::Tense }) => {
            assert_eq!(remaining, ":x:")
        }
        _ => panic!("expected a tense failure"),
    }
    assert!(matches!(
        sentence("<a --> b>. :|"),
        Err(ParseError::ParseFailure { expected: Expected::Tense, .. })
    ));
}

#[test]
fn malformed_literal_is_named() {
    match TruthValue::from_literals("0.5", "1") {
        Err(ParseError::ParseFailure { remaining, expected: Expected::Number }) => {
            assert_eq!(remaining, "1")
        }
        _ => panic!("expected a number failure"),
    }
}

#[test]
fn invalid_punctuation_is_reported() {
    match sentence("<x --> y>:") {
        Err(ParseError::InvalidPunctuation(p)) => assert_eq!(p, ">:"),
        _ => panic!("expected invalid punctuation"),
    }
    match statement("<x --> y>:") {
        Err(ParseError::InvalidPunctuation(p)) => assert_eq!(p, ">:"),
        _ => panic!("expected invalid punctuation"),
    }
    assert!(matches!(
        sentence("<>:"),
        Err(ParseError::ParseFailure { expected: Expected::Statement, .. })
    ));
    match Sentence::from((("x --> y", ">:"), Tense::Eternal, None)) {
        Err(ParseError::InvalidPunctuation(p)) => assert_eq!(p, ">:"),
        _ => panic!("expected invalid punctuation"),
    }
}

#[test]
fn tense_from_names() {
    assert_eq!(Tense::from(Some(":|:")), Ok(Tense::Present));
    assert_eq!(Tense::from(Some(":\\:")), Ok(Tense::Past));
    assert_eq!(Tense::from(Some(":/:")), Ok(Tense::Future));
    assert_eq!(Tense::from(None), Ok(Tense::Eternal));
    assert_eq!(Tense::from(Some(":x:")), Err(String::from("invalid tense: :x:")));
}

#[test]
fn atomic_term_name() {
    assert_eq!(AtomicTerm::new("bird").name(), "bird");
}

#[test]
fn rewrite_chain_scenario() {
    let (_, j1) = sentence("<a --> b>. {1.0 0.9}").unwrap();
    let (_, j2) = sentence("<b --> c>. {1.0 0.9}").unwrap();
    let (t1, t2) = match (j1, j2) {
        (Sentence::J(x), Sentence::J(y)) => (
            Term::new(x.term.name(), x.tv),
            Term::new(y.term.name(), y.tv),
        ),
        _ => panic!("expected judgements"),
    };
    let (term, v) = rewrite_deduction(t1, t2).unwrap();
    assert_eq!(term.expr(), "<a --> c>");
    assert_eq!(v, tv(UNIT, 810_000));
    assert_eq!(term.tv(), v);
}

#[test]
fn rewrite_accepts_bracketed_terms() {
    let t1 = Term::new("<a --> b>", tv(UNIT, 900_000));
    let t2 = Term::new("<b --> c>", tv(UNIT, 900_000));
    let (term, _) = rewrite_deduction(t1, t2).unwrap();
    let t3 = Term::new("c --> d", tv(500_000, 500_000));
    let (chained, v) = rewrite_deduction(term, t3).unwrap();
    assert_eq!(chained.expr(), "<a --> d>");
    assert_eq!((v.strength(), v.confidence()), (500_000, 202_500));
}

#[test]
fn rewrite_rejects_mismatched_or_malformed_premises() {
    let t = tv(UNIT, 900_000);
    assert_eq!(
        rewrite_deduction(Term::new("a --> b", t), Term::new("c --> d", t)),
        Err(RewriteError::NonMatchingMiddleTerm)
    );
    assert_eq!(
        rewrite_deduction(Term::new("a", t), Term::new("b --> c", t)),
        Err(RewriteError::NotInheritance)
    );
}

#[test]
fn memory_assigns_ids_and_timestamps() {
    let mut mem = Memory::new();
    mem.add("rA9.", tv(800_000, 900_000), None);
    mem.add("<a --> c>", tv(UNIT, 810_000), Some(7));
    assert_eq!(mem.last_id(), 2);
    assert_eq!(mem.current_timestamp(), 2);
    let items = mem.items();
    assert_eq!(items.len(), 2);
    assert_eq!((items[0].id(), items[0].timestamp()), (0, 0));
    assert_eq!(items[0].term, "rA9.");
    assert_eq!(items[0].usage_count(), 0);
    assert_eq!(items[0].embed_id(), None);
    assert_eq!((items[1].id(), items[1].timestamp()), (1, 1));
    assert_eq!(items[1].embed_id(), Some(7));
    assert_eq!(items[1].tv, tv(UNIT, 810_000));
}
