use caret::data::Dataset;
use caret::format::InputFormat;
use caret::json::JsonValue;
use caret::linter::{extract_text_content, LintError, Linter};

#[test]
fn test_balanced_think_tags() {
    let linter = Linter::new();
    let good = r#"{"text": "<think>reasoning</think>answer"}"#;
    let bad = r#"{"text": "<think>reasoning answer"}"#;

    assert!(linter.lint_line(good, 0).is_empty());
    assert!(!linter.lint_line(bad, 0).is_empty());
}

#[test]
fn test_invalid_json() {
    let linter = Linter::new();
    let results = linter.lint_line("not json {", 0);
    assert!(matches!(results[0].error, LintError::InvalidJson(_)));
}

#[test]
fn test_invalid_json_is_the_only_defect() {
    let linter = Linter::new().with_required_keys(vec!["prompt".to_string()]);
    let results = linter.lint_line("not json { ", 7);
    assert_eq!(results.len(), 1);
    assert_eq!(results[0].line, 7);
    assert_eq!(results[0].error.severity(), "ERROR");
    assert_eq!(results[0].error.message(), "Invalid JSON: expected ident at line 1 column 2");
}

#[test]
fn test_defects_in_order() {
    let linter = Linter::new().with_required_keys(vec![
        "prompt".to_string(),
        "response".to_string(),
        "id".to_string(),
        "note".to_string(),
    ]);
    let results = linter.lint_line(r#"{"response": "<think>a<think> \nb ", "id": "", "x": 1}"#, 3);
    let messages: Vec<String> = results.iter().map(|r| r.error.message()).collect();
    assert_eq!(
        messages,
        vec![
            "Missing required key: prompt",
            "Missing required key: note",
            "Unbalanced <think> tags: 2 open, 0 close",
            "Trailing whitespace detected",
            "Empty content field",
        ]
    );
    let levels: Vec<&str> = results.iter().map(|r| r.error.severity()).collect();
    assert_eq!(levels, vec!["WARNING", "WARNING", "ERROR", "WARNING", "WARNING"]);
    assert!(results.iter().all(|r| r.line == 3));
    assert!(matches!(results[2].error, LintError::UnbalancedThinkTags { open: 2, close: 0 }));
}

#[test]
fn test_trailing_whitespace_rule() {
    let linter = Linter::new();
    assert!(matches!(linter.lint_line(r#"["a "]"#, 0)[0].error, LintError::TrailingWhitespace));
    assert!(matches!(linter.lint_line(r#"["a \nb"]"#, 0)[0].error, LintError::TrailingWhitespace));
    assert!(linter.lint_line(r#"["a\n"]"#, 0).is_empty());
    assert!(linter.lint_line(r#"["a\t"]"#, 0).is_empty());
    assert!(linter.lint_line(r#"["a ", "b"]"#, 0).is_empty());
    // The texts of an array are joined by spaces: a newline at the start of
    // a later text counts as a space before a newline.
    assert_eq!(linter.lint_line(r#"["a", "\nb"]"#, 0).len(), 1);
    // A number has no text, but it is joined all the same.
    assert_eq!(linter.lint_line(r#"["a", 1]"#, 0).len(), 1);
    assert!(linter.lint_line(r#"[1, "a"]"#, 0).is_empty());
}

#[test]
fn test_required_keys_only_on_objects() {
    let linter = Linter::new().with_required_keys(vec!["k".to_string()]);
    assert!(linter.lint_line(r#"["k"]"#, 0).is_empty());
    assert!(linter.lint_line(r#"{"k": null}"#, 0).is_empty());
    assert_eq!(linter.lint_line(r#"{"K": 1}"#, 0).len(), 1);
    assert_eq!(linter.lint_line(r#"{"a": {"k": 1}}"#, 0).len(), 1);
    let empty = linter.lint_line(r#"{"k": ""}"#, 0);
    assert_eq!(empty.len(), 1);
    assert!(matches!(empty[0].error, LintError::EmptyContent));
    assert!(linter.lint_line(r#"{"k": []}"#, 0).is_empty());
}

#[test]
fn test_extract_text_content() {
    let value = JsonValue::parse(r#"{"b": ["x", 1, ["y", "z"]], "a": "w", "c": {"d": null}}"#).unwrap();
    assert_eq!(extract_text_content(&value), "w x  y z ");
    assert_eq!(extract_text_content(&JsonValue::parse("[]").unwrap()), "");
    assert_eq!(extract_text_content(&JsonValue::parse("\"s\"").unwrap()), "s");
    assert_eq!(extract_text_content(&JsonValue::parse("[1,2,3]").unwrap()), "  ");
}

#[test]
fn test_lint_dataset() {
    let text = "{\"t\":\"ok\"}\n\n   \nnot json\n{\"t\":\"<think>\"}\n";
    let mut bytes = text.as_bytes().to_vec();
    bytes.extend_from_slice(&[0xff, b'\n']);
    bytes.extend_from_slice(b"{\"t\":\"x \"}");
    let dataset = Dataset::from_bytes(bytes, "mem".to_string(), InputFormat::Jsonl);
    assert_eq!(dataset.line_count(), 7);
    let results = Linter::new().lint_dataset(&dataset);
    let found: Vec<(usize, String)> =
        results.iter().map(|r| (r.line, r.error.message())).collect();
    assert_eq!(
        found,
        vec![
            (3, "Invalid JSON: expected ident at line 1 column 2".to_string()),
            (4, "Unbalanced <think> tags: 1 open, 0 close".to_string()),
            (6, "Trailing whitespace detected".to_string()),
        ]
    );
}

#[test]
fn test_lint_messages() {
    assert_eq!(LintError::MissingKey("id".to_string()).message(), "Missing required key: id");
    assert_eq!(LintError::MissingKey("id".to_string()).severity(), "WARNING");
    assert_eq!(LintError::TrailingWhitespace.message(), "Trailing whitespace detected");
    assert_eq!(LintError::EmptyContent.message(), "Empty content field");
    assert_eq!(LintError::EmptyContent.severity(), "WARNING");
    assert_eq!(
        LintError::UnbalancedThinkTags { open: 10, close: 123 }.message(),
        "Unbalanced <think> tags: 10 open, 123 close"
    );
    assert_eq!(LintError::InvalidJson("x".to_string()).message(), "Invalid JSON: x");
}
