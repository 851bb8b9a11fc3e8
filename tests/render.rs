use analytics_bot::api::{AnalysisResult, Insight, QueryResponse, Row, Severity};
use analytics_bot::render::{escape_html, format_error, format_help, format_query_response};

fn response() -> QueryResponse {
    QueryResponse {
        question: "q".to_string(),
        sql: String::new(),
        text_response: None,
        data: Vec::new(),
        table: None,
        chart_data: None,
        execution_time_ms: 0,
        row_count: 0,
        analysis: None,
        cached: false,
    }
}

#[test]
fn empty_result_says_no_data() {
    let out = format_query_response(&response());
    assert_eq!(out, "📭 Нет данных для отображения\n\n⏱ <b>Время выполнения:</b> 0ms");
}

#[test]
fn narrative_answer_is_the_whole_reply() {
    let mut r = response();
    r.text_response = Some("a < b & c > d".to_string());
    r.table = Some("x".to_string());
    r.row_count = 3;
    assert_eq!(format_query_response(&r), "a &lt; b &amp; c &gt; d");
}

#[test]
fn cached_result_is_marked() {
    let mut r = response();
    r.execution_time_ms = 1234;
    r.cached = true;
    r.data = vec![Row::Other];
    r.row_count = 1;
    assert_eq!(format_query_response(&r), "\n⏱ <b>Время выполнения:</b> 1234ms (из кэша)");
}

#[test]
fn rows_without_table_are_counted() {
    let mut r = response();
    r.data = vec![Row::Other, Row::Other];
    r.row_count = 2;
    r.execution_time_ms = 5;
    assert_eq!(
        format_query_response(&r),
        "📊 <b>Найдено результатов:</b> 2\n\n\n⏱ <b>Время выполнения:</b> 5ms"
    );
}

#[test]
fn short_table_is_shown_whole() {
    let mut r = response();
    r.data = vec![Row::Other];
    r.row_count = 2;
    r.table = Some("a\nb".to_string());
    r.execution_time_ms = 7;
    assert_eq!(
        format_query_response(&r),
        "📋 <b>Результаты (2)</b>:\n\na\nb\n\n⏱ <b>Время выполнения:</b> 7ms"
    );
}

#[test]
fn long_table_shows_ten_lines() {
    let mut r = response();
    r.data = vec![Row::Other];
    r.row_count = 12;
    let lines: Vec<String> = (1..=15).map(|i| format!("l{}", i)).collect();
    r.table = Some(lines.join("\n"));
    let out = format_query_response(&r);
    let expected = format!(
        "📋 <b>Результаты (12)</b>:\n\n{}\n... и еще 7 строк(и)\n\n\n⏱ <b>Время выполнения:</b> 0ms",
        lines[..10].join("\n")
    );
    assert_eq!(out, expected);
}

#[test]
fn analysis_sections_are_rendered() {
    let mut r = response();
    r.data = vec![Row::Other];
    r.row_count = 1;
    r.analysis = Some(AnalysisResult {
        headline: "Sales <up>".to_string(),
        insights: vec![
            Insight {
                title: "T1".to_string(),
                description: "D1".to_string(),
                significance: Severity::High,
            },
            Insight {
                title: "T2".to_string(),
                description: "D2".to_string(),
                significance: Severity::Low,
            },
        ],
        explanation: "E & F".to_string(),
        suggested_questions: vec!["Q1".to_string(), "Q2".to_string()],
        chart_type: None,
    });
    let expected = "📊 <b>Sales &lt;up&gt;</b>\n\n\
💡 <b>Основные выводы:</b>\n\
🔴 <b>T1</b>\nD1\n\n\
🟢 <b>T2</b>\nD2\n\n\
📝 <b>Объяснение:</b>\nE &amp; F\n\n\
💭 <b>Рекомендуемые вопросы:</b>\n\
<i>Нажмите на кнопку ниже, чтобы выполнить запрос</i>\n\n\
1. Q1\n2. Q2\n\n\
\n⏱ <b>Время выполнения:</b> 0ms";
    assert_eq!(format_query_response(&r), expected);
}

#[test]
fn escaping_touches_three_characters() {
    assert_eq!(escape_html("<a href=\"x\">&'</a>"), "&lt;a href=\"x\"&gt;&amp;'&lt;/a&gt;");
    assert_eq!(escape_html(""), "");
}

#[test]
fn error_notice_escapes_the_message() {
    assert_eq!(format_error("bad <input>"), "❌ <b>Ошибка:</b>\nbad &lt;input&gt;");
}

#[test]
fn help_names_the_commands() {
    let h = format_help();
    assert!(h.starts_with("📖 <b>Справка по использованию бота</b>"));
    assert!(h.contains("/status - Проверить статус бэкенда"));
}

#[test]
fn severity_labels_map_to_levels() {
    assert_eq!(Severity::from_label("High"), Severity::High);
    assert_eq!(Severity::from_label("Medium"), Severity::Medium);
    assert_eq!(Severity::from_label("whatever"), Severity::Low);
}
