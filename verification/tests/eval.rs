use traitclaw::eval::{
    csv_header, csv_report, csv_row, escape_csv, keyword_matches, schema_key_counts, CsvCase, LlmJudgeMetric,
    ToolUsageMetric,
};

#[test]
fn test_escape_csv() {
    assert_eq!(escape_csv("plain"), "plain");
    assert_eq!(escape_csv("with,comma"), "\"with,comma\"");
    assert_eq!(escape_csv("with\"quote"), "\"with\"\"quote\"");
}

#[test]
fn escape_csv_newline() {
    assert_eq!(escape_csv("a\nb"), "\"a\nb\"");
    assert_eq!(escape_csv(""), "");
}

#[test]
fn csv_rows() {
    assert_eq!(csv_header(), "case_id,metric,score,passed");
    assert_eq!(csv_row("case_1", Some(("keyword", "0.8500")), true), "case_1,keyword,0.8500,true");
    assert_eq!(csv_row("a,b", None, false), "\"a,b\",,,false");
}

#[test]
fn keywords_are_matched_in_lower_cased_output() {
    assert_eq!(keyword_matches("Rust is FAST", &["rust", "fast", "slow"]), 2);
    assert_eq!(keyword_matches("anything", &[]), 0);
    // keywords themselves are not lower-cased
    assert_eq!(keyword_matches("Rust", &["Rust"]), 0);
}

#[test]
fn tool_usage_ignores_case() {
    let m = ToolUsageMetric::new(vec!["Search".to_string(), "calculator".to_string()]);
    assert_eq!(m.expected_count(), 2);
    assert_eq!(m.mentioned("I used the SEARCH tool"), 1);
    assert_eq!(m.mentioned("search then Calculator"), 2);
}

#[test]
fn judge_prompt_text() {
    let m = LlmJudgeMetric::new(()).with_criteria("accuracy", "Is it accurate?");
    assert_eq!(
        m.judge_prompt("in", "out"),
        "Evaluate the following agent response:\n\nInput: in\n\nResponse: out\n\nCriteria:\n- accuracy: Is it accurate?\n\nProvide a score from 0.0 to 1.0. Respond with only: Score: <number>"
    );
    let plain = LlmJudgeMetric::new(());
    assert!(plain.judge_prompt("a", "b").contains("Criteria:\nIs this a high-quality response?\n\n"));
}

fn schema_score(schema: &str, output: &str) -> f64 {
    match schema_key_counts(schema, output) {
        Some((_, 0)) => 1.0,
        Some((p, t)) => p as f64 / t as f64,
        None => 0.0,
    }
}

#[test]
fn test_schema_validation_valid_json() {
    let score = schema_score(r#"{"name":"string","score":"number"}"#, r#"{"name": "test", "score": 42}"#);
    assert!((score - 1.0).abs() < 1e-6, "expected 1.0, got {score}");
}

#[test]
fn test_schema_validation_partial_keys() {
    let score = schema_score(r#"{"name":"string","score":"number","extra":"string"}"#, r#"{"name": "test"}"#);
    assert!(score < 0.5, "expected < 0.5, got {score}");
    assert_eq!(
        schema_key_counts(r#"{"name":"string","score":"number","extra":"string"}"#, r#"{"name": "test"}"#),
        Some((1, 3))
    );
}

#[test]
fn test_schema_validation_invalid_json() {
    let score = schema_score(r#"{"name":"string"}"#, "not json at all");
    assert!((score - 0.0).abs() < 1e-6);
    assert_eq!(schema_key_counts(r#"{"name":"string"}"#, "not json at all"), None);
}

#[test]
fn schema_counts_for_non_object_values() {
    assert_eq!(schema_key_counts(r#"{"a":1}"#, "[1, 2]"), Some((0, 1)));
    assert_eq!(schema_key_counts("{}", "{\"x\": 1}"), Some((0, 0)));
    assert_eq!(schema_key_counts("[1,2]", " [1, 2] "), Some((1, 1)));
    assert_eq!(schema_key_counts("[1,2]", "[2, 1]"), Some((0, 1)));
}

#[test]
fn csv_report_writes_header_and_one_row_per_metric() {
    let cases = vec![
        CsvCase {
            case_id: "case_1".into(),
            scores: vec![("keyword".into(), "0.8500".into()), ("length".into(), "1.0000".into())],
            passed: true,
        },
        CsvCase { case_id: "case,2".into(), scores: vec![], passed: false },
    ];
    assert_eq!(
        csv_report(&cases),
        "case_id,metric,score,passed\ncase_1,keyword,0.8500,true\ncase_1,length,1.0000,true\n\"case,2\",,,false\n"
    );
    assert_eq!(csv_report(&[]), "case_id,metric,score,passed\n");
}
