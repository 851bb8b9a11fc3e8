use analytics_bot::api::OutputType;
use analytics_bot::dispatch::prepare_query;
use analytics_bot::hints::{detect_output_format, detect_output_format_folded};

#[test]
fn table_phrase_is_removed() {
    let (clean, kind) = detect_output_format("покажи топ городов таблица");
    assert_eq!(clean, "покажи топ городов");
    assert_eq!(kind, OutputType::Table);
}

#[test]
fn chart_wins_when_both_phrases_appear() {
    let (clean, kind) = detect_output_format("покажи таблицу и график продаж");
    assert_eq!(kind, OutputType::Chart);
    assert_eq!(clean, "и продаж");
}

#[test]
fn plain_text_is_only_normalized() {
    let (clean, kind) = detect_output_format(",  hello ,\t world  ,");
    assert_eq!(kind, OutputType::Auto);
    assert_eq!(clean, "hello , world");
}

#[test]
fn json_is_detected_and_kept() {
    let (clean, kind) = detect_output_format("give me JSON data");
    assert_eq!(kind, OutputType::Json);
    assert_eq!(clean, "give me JSON data");
}

#[test]
fn phrases_match_without_regard_to_case() {
    let (clean, kind) = detect_output_format("Show TABLE of sales");
    assert_eq!(kind, OutputType::Table);
    assert_eq!(clean, "Show of sales");
    let (clean, kind) = detect_output_format("Покажи ГРАФИК продаж");
    assert_eq!(kind, OutputType::Chart);
    assert_eq!(clean, "Покажи продаж");
}

#[test]
fn overlapping_phrases_are_removed_whole() {
    let (clean, kind) = detect_output_format("продажи графиком");
    assert_eq!(kind, OutputType::Chart);
    assert_eq!(clean, "продажи");
}

#[test]
fn empty_question_stays_empty() {
    let (clean, kind) = detect_output_format("   ");
    assert_eq!(clean, "");
    assert_eq!(kind, OutputType::Auto);
}

#[test]
fn folded_form_decides_the_kind() {
    let (clean, kind) = detect_output_format_folded("SALES CHART", "sales chart");
    assert_eq!(kind, OutputType::Chart);
    assert_eq!(clean, "SALES");
}

#[test]
fn analysis_phrase_sets_the_flag() {
    let q = prepare_query("покажи продажи с анализом таблица");
    assert_eq!(q.output_type, OutputType::Table);
    assert!(q.include_analysis);
    assert_eq!(q.question, "покажи продажи");
    let q = prepare_query("сколько транзакций");
    assert!(!q.include_analysis);
    assert_eq!(q.output_type, OutputType::Auto);
    assert_eq!(q.question, "сколько транзакций");
}

#[test]
fn question_is_kept_when_lower_casing_changes_its_length() {
    let (clean, kind) = detect_output_format("İ table");
    assert_eq!(kind, OutputType::Table);
    assert_eq!(clean, "İ table");
}
