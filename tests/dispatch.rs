use analytics_bot::api::{AnalysisResult, Config, OutputType, QueryResponse, Row};
use analytics_bot::dispatch::{is_sql_failure, menu_button, parse_command, reply_suggestions, Command};

#[test]
fn commands_are_read_from_the_first_word() {
    assert_eq!(parse_command("/start now"), Command::Start);
    assert_eq!(parse_command("  /help"), Command::Help);
    assert_eq!(parse_command("/clear"), Command::Clear);
    assert_eq!(parse_command("/status\textra"), Command::Status);
    assert_eq!(parse_command("/menu"), Command::Menu);
    assert_eq!(parse_command("/other"), Command::Unknown);
    assert_eq!(parse_command(""), Command::Unknown);
}

#[test]
fn sql_failures_are_recognized() {
    assert!(is_sql_failure("Backend error (500): syntax error at or near"));
    assert!(is_sql_failure("bad SQL"));
    assert!(is_sql_failure("database is down"));
    assert!(!is_sql_failure("timeout"));
}

fn response() -> QueryResponse {
    QueryResponse {
        question: "q".to_string(),
        sql: String::new(),
        text_response: None,
        data: vec![Row::Other],
        table: None,
        chart_data: None,
        execution_time_ms: 0,
        row_count: 1,
        analysis: None,
        cached: false,
    }
}

#[test]
fn suggestions_prefer_the_analysis() {
    let mut r = response();
    assert_eq!(
        reply_suggestions(&r),
        vec!["📊 Показать больше данных".to_string(), "📈 С анализом".to_string()]
    );
    r.analysis = Some(AnalysisResult {
        headline: String::new(),
        insights: Vec::new(),
        explanation: String::new(),
        suggested_questions: vec!["next?".to_string()],
        chart_type: None,
    });
    assert_eq!(reply_suggestions(&r), vec!["next?".to_string()]);
    r.analysis = None;
    r.data = Vec::new();
    assert!(reply_suggestions(&r).is_empty());
}

#[test]
fn defaults_of_the_records() {
    assert_eq!(OutputType::default(), OutputType::Auto);
    let c = Config::from_values("t".to_string(), None);
    assert_eq!(c.backend_url, "http://localhost:3000");
    let c = Config::from_values("t".to_string(), Some("http://b".to_string()));
    assert_eq!(c.backend_url, "http://b");
}

#[test]
fn menu_buttons_name_commands() {
    assert_eq!(menu_button("❓ Помощь"), Some(Command::Help));
    assert_eq!(menu_button("🔄 Очистить контекст"), Some(Command::Clear));
    assert_eq!(menu_button("Помощь"), None);
}
