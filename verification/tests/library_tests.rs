use std::str::FromStr;

use arena_filter::ast::{Argument, Expr};
use arena_filter::domain::{BotId, Match, MatchAttribute, MatchAttributeValue};
use arena_filter::filter::{check_expr, EvalError, MatchFilter};
use arena_filter::number::{float_equal, float_less, int_to_float_bits};
use arena_filter::parser::{parse, FilterError};

fn attribute(name: &str, bot: Option<i64>, turn: Option<u16>, value: &str) -> MatchAttribute {
    MatchAttribute {
        name: name.to_string(),
        bot_id: bot.map(BotId),
        turn,
        value: value.to_string().into(),
    }
}

fn sample_match() -> Match {
    Match::new(
        7,
        vec![BotId(1), BotId(2)],
        vec![
            attribute("a", None, None, "1"),
            attribute("a", None, None, "2"),
            attribute("name", None, None, "small"),
            attribute("big", None, None, "9007199254740993"),
            attribute("ratio", None, None, "0.5"),
            attribute("score", Some(1), Some(3), "10"),
            attribute("score", Some(-4), None, "-5"),
            attribute("nan_value", None, None, "NaN"),
            attribute("zero", None, None, "-0.0"),
        ],
    )
}

fn accepts(filter: &str) -> bool {
    MatchFilter::from_str(filter).unwrap().matches(&sample_match())
}

#[test]
fn empty_text_accepts_everything() {
    let filter = MatchFilter::from_str("").unwrap();
    assert!(filter.matches(&sample_match()));
    assert!(filter.needed_attributes().is_empty());
    assert_eq!(filter.to_text(), "");
}

#[test]
fn first_attribute_of_a_name_is_used() {
    assert!(accepts("match.a == 1"));
    assert!(!accepts("match.a == 2"));
}

#[test]
fn integers_compare_as_floating_point() {
    // 9007199254740993 rounds to 9007199254740992 when converted to floating point.
    assert!(accepts("match.big == 9007199254740992"));
    assert!(accepts("match.a == 1.0"));
    assert!(accepts("match.ratio < match.a"));
}

#[test]
fn nan_compares_unequal_and_unordered() {
    assert!(!accepts("match.nan_value == match.nan_value"));
    assert!(accepts("match.nan_value != match.nan_value"));
    assert!(!accepts("match.nan_value < 1"));
    assert!(!accepts("match.nan_value >= 1"));
}

#[test]
fn zeros_are_equal() {
    assert!(accepts("match.zero == 0"));
    assert!(!accepts("match.zero < 0"));
}

#[test]
fn bot_attributes_need_bot_and_turn() {
    assert!(accepts("bot(1)[3].score == 10"));
    assert!(!accepts("bot(1).score == 10"));
    assert!(accepts("BOT(-4).score == -5"));
    assert!(!accepts("match.score == -5"));
}

#[test]
fn strings_compare_for_equality_only() {
    assert!(accepts("match.name == \"small\""));
    assert!(accepts("match.name != \"big\""));
    assert!(!accepts("match.name < \"zzz\""));
    assert!(!accepts("NOT match.name < \"zzz\""));
}

#[test]
fn evaluation_errors() {
    let m = sample_match();
    let e = parse("match.name < \"zzz\"").unwrap();
    assert!(matches!(check_expr(&e, &m), Err(EvalError::NotApplicableToStrings(_))));
    let e = parse("match.name == 1").unwrap();
    assert!(matches!(check_expr(&e, &m), Err(EvalError::TypeMismatch)));
    let e = parse("match.missing == 1").unwrap();
    assert!(matches!(check_expr(&e, &m), Err(EvalError::NoSuchAttribute)));
}

#[test]
fn and_or_decide_from_the_left() {
    assert!(accepts("match.a == 1 OR match.missing == 1"));
    assert!(!accepts("match.missing == 1 OR match.a == 1"));
    assert!(!accepts("match.a == 2 AND match.missing == 1"));
    let m = sample_match();
    let e = parse("match.a == 2 AND match.missing == 1").unwrap();
    assert!(matches!(check_expr(&e, &m), Ok(false)));
    assert!(!accepts("NOT match.missing == 1"));
}

#[test]
fn precedence_and_grouping() {
    assert!(accepts("match.a == 1 OR match.a == 5 AND match.a == 6"));
    assert!(!accepts("(match.a == 1 OR match.a == 5) AND match.a == 6"));
    // `not` applies to a condition or a parenthesised expression, not to another `not`.
    assert!(matches!(parse("not not match.a == 1"), Err(FilterError::InvalidSyntax)));
    assert!(accepts("not (not match.a == 1)"));
}

#[test]
fn needed_attributes_in_order() {
    let filter = MatchFilter::from_str("match[2].x == bot(5).y OR NOT (match.z < 1)").unwrap();
    let needed = filter.needed_attributes();
    assert_eq!(needed.len(), 3);
    assert_eq!(needed[0].name, "x");
    assert_eq!(needed[0].turn, Some(2));
    assert_eq!(needed[0].bot_id, None);
    assert_eq!(needed[1].name, "y");
    assert_eq!(needed[1].bot_id, Some(BotId(5)));
    assert_eq!(needed[1].turn, None);
    assert_eq!(needed[2].name, "z");
    assert!(matches!(needed[2].value, MatchAttributeValue::Integer(0)));
}

#[test]
fn invalid_syntax() {
    let err = parse("match.a ==").unwrap_err();
    assert!(matches!(err, FilterError::InvalidSyntax));
    assert_eq!(err.message(), "Invalid filter syntax, please check docs");
    assert!(matches!(MatchFilter::from_str("match[70000].a == 1"), Err(FilterError::InvalidSyntax)));
    assert!(matches!(parse("match.a == \"\""), Err(FilterError::InvalidSyntax)));
    assert!(matches!(parse("match.1a == 1"), Err(FilterError::InvalidSyntax)));
}

#[test]
fn unexpected_suffix() {
    let err = parse("match.a == 1 or").unwrap_err();
    match &err {
        FilterError::UnexpectedSuffix(rest) => assert_eq!(rest, "or"),
        _ => panic!("expected a suffix error"),
    }
    assert_eq!(err.message(), "Unexpected suffix: or");
    assert!(matches!(parse("match.a == 1 AND match.b == 2 )"), Err(FilterError::UnexpectedSuffix(_))));
}

#[test]
fn exponent_without_digits_fails_the_whole_parse() {
    // An exponent marker without digits is a failure, not a stop of the repetition.
    assert!(matches!(parse("match.a == 1 AND match.b == 1e"), Err(FilterError::InvalidSyntax)));
    assert!(matches!(parse("match.a == 1 AND match.b == x"), Err(FilterError::UnexpectedSuffix(_))));
}

#[test]
fn numbers_display_as_rust_prints_them() {
    assert_eq!(parse("2.50 == 1e3").unwrap().to_text(), "2.5 == 1000");
    assert_eq!(parse("nan != INF").unwrap().to_text(), "NaN != inf");
    assert_eq!(parse("-0 == .5").unwrap().to_text(), "-0 == 0.5");
}

#[test]
fn keywords_and_names() {
    assert_eq!(parse("MATCH._x1 == bot(+7)[0].Y").unwrap().to_text(), "match._x1 == bot(7)[0].Y");
    assert_eq!(parse("notmatch.a == 1").unwrap().to_text(), "NOT match.a == 1");
    assert_eq!(parse("match.a==1 OrMatch.b==2").unwrap().to_text(), "match.a == 1 OR match.b == 2");
}

#[test]
fn integer_conversion_matches_native_cast() {
    let samples: Vec<i64> = vec![
        0,
        1,
        -1,
        2,
        3,
        25,
        -75,
        1 << 52,
        (1 << 53) - 1,
        1 << 53,
        (1 << 53) + 1,
        (1 << 53) + 3,
        9007199254740993,
        123456789012345678,
        i64::MAX,
        i64::MIN,
        i64::MIN + 1,
        -(1 << 60) - 12345,
    ];
    for v in samples {
        assert_eq!(int_to_float_bits(v), (v as f64).to_bits(), "{}", v);
    }
    let mut x: i64 = 1;
    for _ in 0..2000 {
        x = x.wrapping_mul(6364136223846793005).wrapping_add(1442695040888963407);
        assert_eq!(int_to_float_bits(x), (x as f64).to_bits(), "{}", x);
        let small = x >> 40;
        assert_eq!(int_to_float_bits(small), (small as f64).to_bits(), "{}", small);
    }
}

#[test]
fn float_comparisons_match_native() {
    let values = [
        0.0f64,
        -0.0,
        1.0,
        -1.0,
        0.5,
        f64::INFINITY,
        f64::NEG_INFINITY,
        f64::NAN,
        f64::MIN_POSITIVE,
        1e300,
        -1e-300,
    ];
    for a in values {
        for b in values {
            assert_eq!(float_equal(a.to_bits(), b.to_bits()), a == b, "{} {}", a, b);
            assert_eq!(float_less(a.to_bits(), b.to_bits()), a < b, "{} {}", a, b);
        }
    }
}

#[test]
fn attribute_values_from_text() {
    assert!(matches!(MatchAttributeValue::from("25".to_string()), MatchAttributeValue::Integer(25)));
    assert!(matches!(MatchAttributeValue::from("-3".to_string()), MatchAttributeValue::Integer(-3)));
    match MatchAttributeValue::from("0.75".to_string()) {
        MatchAttributeValue::Float(bits) => assert_eq!(bits, 0.75f64.to_bits()),
        _ => panic!("expected a float"),
    }
    assert!(matches!(MatchAttributeValue::from("small".to_string()), MatchAttributeValue::String(_)));
    assert!(matches!(MatchAttributeValue::from("".to_string()), MatchAttributeValue::String(_)));
    assert!(matches!(MatchAttributeValue::from("1.5x".to_string()), MatchAttributeValue::String(_)));
}

#[test]
fn clones_are_equal() {
    let filter = MatchFilter::from_str("match.a == 1 AND NOT bot(2).b == \"x\"").unwrap();
    let copy = filter.clone();
    assert_eq!(copy.to_text(), filter.to_text());
    assert_eq!(copy.matches(&sample_match()), filter.matches(&sample_match()));
}

#[test]
fn parts_written_out() {
    let e = parse("  bot(-3)[2].x!=\"a b\"").unwrap();
    match &e {
        Expr::Condition(a, op, b) => {
            assert_eq!(a.to_text(), "bot(-3)[2].x");
            assert_eq!(op.to_text(), "!=");
            assert_eq!(b.to_text(), "\"a b\"");
            match (a, b) {
                (Argument::BotAttr(bot), Argument::Value(v)) => {
                    assert_eq!(bot.to_text(), "bot(-3)[2].x");
                    assert_eq!(bot.bot_id, BotId(-3));
                    assert_eq!(v.to_text(), "\"a b\"");
                }
                _ => panic!("unexpected arguments"),
            }
        }
        _ => panic!("expected a condition"),
    }
    assert_eq!(e.to_text(), "bot(-3)[2].x != \"a b\"");
}

#[test]
fn written_form_reads_back() {
    let samples = [
        "match[1].a == 1 AND NOT (match.b != \"x\" OR bot(-2).c >= -0.25) OR match.d < inf",
        "(((match.a <= 3)))",
        "NOT match.a > 1e-3 AND match.b == NaN",
    ];
    for q in samples {
        let once = parse(q).unwrap().to_text();
        let twice = parse(&once).unwrap().to_text();
        assert_eq!(once, twice);
    }
}

#[test]
fn verdict_depends_only_on_needed_attributes() {
    let filter = MatchFilter::from_str("match.a == 1 AND bot(1)[3].score > 5").unwrap();
    let other = Match::new(
        99,
        vec![],
        vec![
            attribute("unrelated", None, None, "x"),
            attribute("score", Some(1), Some(3), "10"),
            attribute("a", None, None, "1"),
            attribute("a", None, None, "7"),
        ],
    );
    assert_eq!(filter.matches(&sample_match()), filter.matches(&other));
    assert!(filter.matches(&other));
}

#[test]
fn not_inverts_a_decided_expression() {
    for q in ["match.a == 1", "match.a == 2", "match.name == \"small\"", "match.ratio < 0.1"] {
        let negated = format!("NOT {}", q);
        assert_eq!(accepts(&negated), !accepts(q), "{}", q);
    }
}

#[test]
fn integers_up_to_two_pow_53_compare_exactly() {
    let m = Match::new(
        1,
        vec![],
        vec![
            attribute("x", None, None, "9007199254740992"),
            attribute("y", None, None, "9007199254740991"),
            attribute("z", None, None, "-9007199254740992"),
        ],
    );
    let check = |q: &str| MatchFilter::from_str(q).unwrap().matches(&m);
    assert!(check("match.y < match.x"));
    assert!(check("match.x != match.y"));
    assert!(check("match.z < match.y"));
    assert!(!check("match.x == match.y"));
}

#[test]
fn filter_text_reads_back() {
    for q in ["", "match.a == 1", "  not (match.a==1 or bot(2).b < 3)and match.c != \"d\""] {
        let filter = MatchFilter::from_str(q).unwrap();
        let written = filter.to_text();
        let again = MatchFilter::from_str(&written).unwrap();
        assert_eq!(again.to_text(), written);
    }
}
