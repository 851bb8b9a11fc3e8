//! The records exchanged with the analytics backend.

use vstd::prelude::*;
use crate::text::same_text;

verus! {

/// The output shape a question asks for.
#[derive(Clone, Copy, Debug, PartialEq, Eq, Structural)]
pub enum OutputType {
    Table,
    Chart,
    Json,
    Auto,
}

impl Default for OutputType {
    fn default() -> (r: Self)
        ensures
            r == OutputType::Auto,
    {
        OutputType::Auto
    }
}

/// A question for the backend.
#[derive(Clone, Debug)]
pub struct QueryRequest {
    pub question: String,
    pub include_analysis: bool,
    pub use_cache: bool,
    pub include_sql: bool,
    pub user_id: Option<String>,
    pub output_type: OutputType,
}

/// A scalar cell of a result row.
#[derive(Clone, Debug)]
pub enum Scalar {
    /// A number, held as the decimal text that the output shows.
    Number(String),
    Text(String),
    /// A boolean, null, array or object.
    Other,
}

/// One named cell of a result row.
#[derive(Clone, Debug)]
pub struct Field {
    pub key: String,
    pub value: Scalar,
}

/// A result row: an object with its fields in the order received, or any
/// other value.
#[derive(Clone, Debug)]
pub enum Row {
    Object(Vec<Field>),
    Other,
}

/// The description of a chart: kind, category labels and title. The numeric
/// series go to the rasterizer and are not read here.
#[derive(Clone, Debug)]
pub struct ChartData {
    pub chart_type: String,
    pub labels: Vec<String>,
    pub title: Option<String>,
}

/// How much an insight matters.
#[derive(Clone, Copy, Debug, PartialEq, Eq, Structural)]
pub enum Severity {
    High,
    Medium,
    Low,
}

impl Severity {
    /// `"High"` and `"Medium"` name their levels; any other label is `Low`.
    pub fn from_label(label: &str) -> (r: Severity)
        ensures
            label@ == "High"@ ==> r == Severity::High,
            label@ == "Medium"@ ==> r == Severity::Medium,
            label@ != "High"@ && label@ != "Medium"@ ==> r == Severity::Low,
    {
        proof {
            reveal_strlit("High");
            reveal_strlit("Medium");
            assert("High"@.len() != "Medium"@.len());
        }
        if same_text(label, "High") {
            Severity::High
        } else if same_text(label, "Medium") {
            Severity::Medium
        } else {
            Severity::Low
        }
    }
}

#[derive(Clone, Debug)]
pub struct Insight {
    pub title: String,
    pub description: String,
    pub significance: Severity,
}

#[derive(Clone, Debug)]
pub struct AnalysisResult {
    pub headline: String,
    pub insights: Vec<Insight>,
    pub explanation: String,
    pub suggested_questions: Vec<String>,
    pub chart_type: Option<String>,
}

/// The backend's answer to a question.
#[derive(Clone, Debug)]
pub struct QueryResponse {
    pub question: String,
    pub sql: String,
    pub text_response: Option<String>,
    pub data: Vec<Row>,
    pub table: Option<String>,
    pub chart_data: Option<ChartData>,
    pub execution_time_ms: u64,
    pub row_count: usize,
    pub analysis: Option<AnalysisResult>,
    pub cached: bool,
}

/// A conversational message for the backend.
#[derive(Clone, Debug)]
pub struct ChatRequest {
    pub message: String,
    pub session_id: Option<String>,
    pub user_id: Option<String>,
}

#[derive(Clone, Debug)]
pub struct ChatResponse {
    pub message: String,
    pub session_id: Option<String>,
    pub response_time_ms: u64,
}

/// Where the bot connects to.
#[derive(Clone, Debug)]
pub struct Config {
    pub telegram_token: String,
    pub backend_url: String,
}

impl Config {
    /// The backend defaults to a local one when no address is given.
    pub fn from_values(telegram_token: String, backend_url: Option<String>) -> (r: Config)
        ensures
            r.telegram_token@ == telegram_token@,
            backend_url is Some ==> r.backend_url@ == backend_url->0@,
            backend_url is None ==> r.backend_url@ == "http://localhost:3000"@,
    {
        let backend_url = match backend_url {
            Some(u) => u,
            None => String::from_str("http://localhost:3000"),
        };
        Config { telegram_token, backend_url }
    }
}

} // verus!
