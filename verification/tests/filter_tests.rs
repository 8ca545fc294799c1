use std::str::FromStr;

use arena_filter::domain::{BotId, Match, MatchAttribute};
use arena_filter::filter::MatchFilter;
use arena_filter::parser::parse;

fn displayed(query: &str) -> String {
    parse(query).unwrap().to_text()
}

fn assert_round_trip(query: &str) {
    assert_eq!(query, displayed(query));
}

#[test]
fn arithmetic() {
    assert_round_trip("1 == 2");
}

#[test]
fn player_count_eq_2() {
    assert_round_trip("match.player_count == 2");
}

#[test]
fn some_data_neq() {
    assert_round_trip("match[5].some_data != -2");
}

#[test]
fn bot_qq_gt() {
    assert_round_trip("bot(23).qq > 5");
}

#[test]
fn bot_qwe_ge() {
    assert_round_trip("bot(1)[50].qwe >= 100");
}

#[test]
fn match_lt() {
    assert_round_trip("match.a < 100");
}

#[test]
fn match_le() {
    assert_round_trip("match.a <= 100");
}

#[test]
fn match_eq_str() {
    assert_round_trip("match.www == \"asd\"");
}

#[test]
fn match_neq_str() {
    assert_round_trip("match.www != \"asd\"");
}

#[test]
fn and_combined() {
    assert_round_trip("match.a == 1 AND match.b == 2 AND match.c == 3");
}

#[test]
fn or_combined() {
    assert_round_trip("match.a == 5 OR match.b == 2 OR match.c == 3");
}

#[test]
fn not_eq() {
    assert_round_trip("NOT match.coins == 5");
}

#[test]
fn not_and_combined() {
    assert_round_trip("NOT match.a == 1 AND NOT match.b == 2 AND NOT match.c == 3");
}

#[test]
fn not_or_combined() {
    assert_round_trip("NOT match.a == 5 OR NOT match.b == 2 OR NOT match.c == 3");
}

#[test]
fn parens_single() {
    assert_round_trip("(match.a < 100)");
}

#[test]
fn parens_nested() {
    assert_round_trip("(((match.a < 100)))");
}

#[test]
fn and_or_grouped() {
    assert_round_trip("match.a == 2 AND (match.x > 1 OR match.y < 1)");
}

#[test]
fn or_and_grouped() {
    assert_round_trip("match.a == 2 OR (match.x > 1 AND match.y < 1)");
}

#[test]
fn match_eq_match() {
    assert_round_trip("match.a == match.b");
}

#[test]
fn doubles() {
    let expr = parse("1.0==2.0").unwrap();
    let displayed = expr.to_text();
    assert_eq!("1 == 2", displayed);
}

#[test]
fn spaced() {
    let expr = parse(
        "  (  match.a == 1  OR  match.a  ==  2 )  AND ( match.x  ==  1  OR  match.y  ==  1 ) ",
    )
    .unwrap();
    let displayed = expr.to_text();
    assert_eq!(
        "(match.a == 1 OR match.a == 2) AND (match.x == 1 OR match.y == 1)",
        displayed
    );
}

#[test]
fn case_sensitivity() {
    let expr = parse("1 == 2 and not 2 == 5").unwrap();
    let displayed = expr.to_text();
    assert_eq!("1 == 2 AND NOT 2 == 5", displayed);
}

#[test]
fn filtering() {
    let bot_id1: BotId = 1i64.into();
    let bot_id2: BotId = 2i64.into();
    let bot_id3: BotId = 3i64.into();

    let attributes = vec![
        MatchAttribute {
            name: "initial_stones".to_string(),
            bot_id: None,
            turn: None,
            value: "25".to_string().into(),
        },
        MatchAttribute {
            name: "map_type".to_string(),
            bot_id: None,
            turn: None,
            value: "small".to_string().into(),
        },
        MatchAttribute {
            name: "stones_percentage".to_string(),
            bot_id: None,
            turn: None,
            value: "0.75".to_string().into(),
        },
        MatchAttribute {
            name: "final_score".to_string(),
            bot_id: Some(bot_id1),
            turn: None,
            value: "75".to_string().into(),
        },
        MatchAttribute {
            name: "final_score".to_string(),
            bot_id: Some(bot_id2),
            turn: None,
            value: "50".to_string().into(),
        },
        MatchAttribute {
            name: "score".to_string(),
            bot_id: Some(bot_id1),
            turn: Some(50),
            value: "30".to_string().into(),
        },
        MatchAttribute {
            name: "score".to_string(),
            bot_id: Some(bot_id1),
            turn: Some(50),
            value: "30".to_string().into(),
        },
    ];

    let m = Match::new(1234, vec![], attributes);

    let filter = MatchFilter::accept_all();
    assert!(filter.matches(&m));

    let filter = MatchFilter::from_str("match.initial_stones == 25").unwrap();
    assert!(filter.matches(&m));

    let filter = MatchFilter::from_str("match.initial_stones == 24").unwrap();
    assert!(!filter.matches(&m));

    let filter = MatchFilter::from_str("match.map_type == \"small\"").unwrap();
    assert!(filter.matches(&m));

    let filter = MatchFilter::from_str("match.stones_percentage == 0.75").unwrap();
    assert!(filter.matches(&m));

    let filter =
        MatchFilter::from_str("match.stones_percentage > 0.7 AND match.stones_percentage < 0.8")
            .unwrap();
    assert!(filter.matches(&m));

    let filter =
        MatchFilter::from_str(&format!("bot({}).final_score >= 75", bot_id1.value())).unwrap();
    assert!(filter.matches(&m));

    let filter = MatchFilter::from_str(&format!(
        "bot({}).final_score > bot({}).final_score",
        bot_id1.value(),
        bot_id2.value()
    ))
    .unwrap();
    assert!(filter.matches(&m));

    let filter = MatchFilter::from_str(&format!(
        "bot({}).final_score < bot({}).final_score",
        bot_id1.value(),
        bot_id2.value()
    ))
    .unwrap();
    assert!(!filter.matches(&m));

    let filter =
        MatchFilter::from_str(&format!("bot({})[50].score == 30", bot_id1.value())).unwrap();
    assert!(filter.matches(&m));

    let filter =
        MatchFilter::from_str(&format!("bot({})[20].score == 30", bot_id1.value())).unwrap();
    assert!(!filter.matches(&m));

    let filter =
        MatchFilter::from_str(&format!("bot({}).final_score == 75", bot_id3.value())).unwrap();
    assert!(!filter.matches(&m));

    let filter = MatchFilter::from_str("match.invalid_attr == 24").unwrap();
    assert!(!filter.matches(&m));
}
