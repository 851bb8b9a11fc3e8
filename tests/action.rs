use analytics_bot::action::{
    button_label, decode_action, encode_action, route_question, suggestion_buttons, truncate_utf8,
    ActionQuery,
};

#[test]
fn long_question_token_fits() {
    let q = "a very long suggested question exceeding forty characters in total length";
    let t = encode_action(q, 64, "query:");
    assert!(t.len() <= 64);
    assert!(t.starts_with("query:"));
    assert_eq!(t, format!("query:{}", &q[..58]));
}

#[test]
fn short_question_token_is_whole() {
    assert_eq!(encode_action("top cities", 64, "query:"), "query:top cities");
}

#[test]
fn cyrillic_question_is_cut_between_characters() {
    let q = "б".repeat(40);
    let t = encode_action(&q, 64, "query:");
    assert_eq!(t, format!("query:{}", "б".repeat(29)));
}

#[test]
fn long_prefix_is_cut_itself() {
    assert_eq!(encode_action("abc", 3, "query:"), "que");
    assert_eq!(encode_action("abc", 3, "жжж"), "ж");
}

#[test]
fn truncation_keeps_whole_characters() {
    assert_eq!(truncate_utf8("жук", 3), "ж");
    assert_eq!(truncate_utf8("жук", 6), "жук");
    assert_eq!(truncate_utf8("abc", 0), "");
}

#[test]
fn token_reads_back_with_routing_marker() {
    match decode_action("query:top cities") {
        ActionQuery::Run(q) => assert_eq!(q, "sql: top cities"),
        other => panic!("unexpected {:?}", other),
    }
    match decode_action("query:SQL: count rows") {
        ActionQuery::Run(q) => assert_eq!(q, "SQL: count rows"),
        other => panic!("unexpected {:?}", other),
    }
}

#[test]
fn round_trip_gives_a_prefix() {
    let q = "какой город лидирует по объёму транзакций за месяц";
    let t = encode_action(q, 64, "query:");
    match decode_action(&t) {
        ActionQuery::Run(d) => {
            let frag = d.strip_prefix("sql: ").unwrap();
            assert!(q.starts_with(frag));
            assert!(frag.len() <= 58);
        }
        other => panic!("unexpected {:?}", other),
    }
}

#[test]
fn hash_tokens_are_unresolvable() {
    assert!(matches!(decode_action("q:abc123"), ActionQuery::Unresolvable));
    assert!(matches!(decode_action("menu"), ActionQuery::Ignored));
}

#[test]
fn routing_uses_the_lower_case_form() {
    assert_eq!(route_question("Sql: x", "sql: x"), "Sql: x");
    assert_eq!(route_question("x", "x"), "sql: x");
}

#[test]
fn labels_are_cut_at_forty_characters() {
    let q = "щ".repeat(45);
    assert_eq!(button_label(&q), format!("{}...", "щ".repeat(37)));
    let q = "щ".repeat(40);
    assert_eq!(button_label(&q), q);
}

#[test]
fn at_most_six_buttons() {
    let qs: Vec<String> = (0..8).map(|i| format!("question {}", i)).collect();
    let b = suggestion_buttons(&qs);
    assert_eq!(b.len(), 6);
    assert_eq!(b[0].label, "question 0");
    assert_eq!(b[5].token, "query:question 5");
}
