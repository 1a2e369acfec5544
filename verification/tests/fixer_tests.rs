use caret::fixer::{FixResult, FixSummary, FixType, Fixer, SkipReason};
use caret::json::JsonValue;

#[test]
fn test_fix_trailing_whitespace() {
    let fixer = Fixer::new();
    let input = r#"{"content": "hello world   "}"#;

    match fixer.fix_line(input) {
        FixResult::Fixed { line, fixes } => {
            assert!(line.contains(r#""hello world""#));
            assert!(fixes.contains(&FixType::RemovedTrailingWhitespace));
        }
        _ => panic!("Expected Fixed result"),
    }
}

#[test]
fn test_fix_unclosed_think_tag() {
    let fixer = Fixer::new();
    let input = r#"{"messages": [{"role": "assistant", "content": "<think>thinking here"}]}"#;

    match fixer.fix_line(input) {
        FixResult::Fixed { line, fixes } => {
            assert!(line.contains("</think>"));
            assert!(fixes.contains(&FixType::AddedClosingThinkTag));
        }
        _ => panic!("Expected Fixed result"),
    }
}

#[test]
fn test_unchanged_valid_line() {
    let fixer = Fixer::new();
    let input = r#"{"messages": [{"role": "assistant", "content": "<think>ok</think>answer"}]}"#;

    match fixer.fix_line(input) {
        FixResult::Unchanged(_) => {}
        _ => panic!("Expected Unchanged result"),
    }
}

#[test]
fn test_skip_invalid_json() {
    let fixer = Fixer::new();
    let input = r#"{"broken json"#;

    match fixer.fix_line(input) {
        FixResult::Skipped(SkipReason::InvalidJson(_)) => {}
        _ => panic!("Expected Skipped result"),
    }
}

#[test]
fn test_skip_empty_line() {
    let fixer = Fixer::new();

    match fixer.fix_line("") {
        FixResult::Skipped(SkipReason::EmptyLine) => {}
        _ => panic!("Expected Skipped result"),
    }
}

fn fixed(input: &str) -> (String, Vec<FixType>) {
    match Fixer::new().fix_line(input) {
        FixResult::Fixed { line, fixes } => (line, fixes),
        other => panic!("expected a fix, got {:?}", other),
    }
}

fn unchanged(input: &str) -> String {
    match Fixer::new().fix_line(input) {
        FixResult::Unchanged(line) => line,
        other => panic!("expected no change, got {:?}", other),
    }
}

#[test]
fn test_fix_exact_output() {
    assert_eq!(
        fixed(r#"{"content": "hello world   "}"#),
        (r#"{"content":"hello world"}"#.to_string(), vec![FixType::RemovedTrailingWhitespace])
    );
    assert_eq!(
        fixed(r#"{"messages": [{"role": "assistant", "content": "<think>thinking here"}]}"#),
        (
            r#"{"messages":[{"content":"<think>thinking here</think>","role":"assistant"}]}"#.to_string(),
            vec![FixType::AddedClosingThinkTag]
        )
    );
    assert_eq!(
        unchanged(r#"  {"b": [1, 2.5, null, true], "a": "x"}  "#),
        r#"{"a":"x","b":[1,2.5,null,true]}"#
    );
}

#[test]
fn test_spaces_before_newline() {
    assert_eq!(
        fixed("{\"t\": \"a   \\nb \\n\\n c\"}"),
        ("{\"t\":\"a\\nb\\n\\n c\"}".to_string(), vec![FixType::TrimmedWhitespaceBeforeNewlines])
    );
    assert_eq!(
        fixed("[\"x \\ny \\t\"]"),
        (
            "[\"x\\ny\"]".to_string(),
            vec![FixType::RemovedTrailingWhitespace, FixType::TrimmedWhitespaceBeforeNewlines]
        )
    );
    assert_eq!(unchanged("[\"x\\t\\ny\"]"), "[\"x\\t\\ny\"]");
}

#[test]
fn test_unicode_whitespace_is_trimmed() {
    assert_eq!(
        fixed("[\"x\u{a0}\u{2003}\u{3000}\"]"),
        ("[\"x\"]".to_string(), vec![FixType::RemovedTrailingWhitespace])
    );
    assert_eq!(unchanged("[\"x\u{200b}\"]"), "[\"x\u{200b}\"]");
}

#[test]
fn test_closing_marker_goes_before_the_paragraph_break() {
    let (line, fixes) =
        fixed(r#"{"role":"assistant","content":"<think>plan\n\nanswer\n\nmore"}"#);
    assert_eq!(line, r#"{"content":"<think>plan</think>\n\nanswer\n\nmore","role":"assistant"}"#);
    assert_eq!(fixes, vec![FixType::AddedClosingThinkTag]);
}

#[test]
fn test_each_excess_opener_is_closed() {
    let (line, fixes) = fixed(r#"{"role":"assistant","content":"<think>a<think>b"}"#);
    assert_eq!(line, r#"{"content":"<think>a<think>b</think></think>","role":"assistant"}"#);
    assert_eq!(fixes, vec![FixType::AddedClosingThinkTag]);
    let (line, fixes) = fixed(r#"{"content":"<think>a<think>b</think>","role":"assistant"}"#);
    assert_eq!(line, r#"{"content":"<think>a<think>b</think></think>","role":"assistant"}"#);
    assert_eq!(fixes, vec![FixType::AddedClosingThinkTag]);
    let (line, _) = fixed(r#"{"role":"assistant","content":"<think><think>a</think>"}"#);
    assert_eq!(line, r#"{"content":"<think><think>a</think></think>","role":"assistant"}"#);
}

#[test]
fn test_each_excess_opener_is_closed_at_its_own_break() {
    let (line, _) =
        fixed(r#"{"role":"assistant","content":"<think>a\n\nb<think>c\n\nd<think>e</think>"}"#);
    assert_eq!(
        line,
        r#"{"content":"<think>a\n\nb<think>c</think>\n\nd<think>e</think></think>","role":"assistant"}"#
    );
    let (line, _) = fixed(r#"{"role":"assistant","content":"<think>a\n\nb<think>c"}"#);
    assert_eq!(line, r#"{"content":"<think>a</think>\n\nb<think>c</think>","role":"assistant"}"#);
}

#[test]
fn test_markers_balance_after_repair() {
    let inputs = [
        r#"{"role":"assistant","content":"<think>a<think>b</think>"}"#,
        r#"{"role":"assistant","content":"<think><think><think>"}"#,
        r#"{"role":"assistant","content":"</think>x<think>y<think>z"}"#,
        r#"{"role":"assistant","content":"a</think></think><think>"}"#,
    ];
    for input in inputs {
        let (line, _) = fixed(input);
        assert_eq!(line.matches("<think>").count(), line.matches("</think>").count(), "{}", line);
        assert_eq!(unchanged(&line), line);
    }
}

#[test]
fn test_missing_openers_are_put_in_front() {
    let (line, fixes) = fixed(r#"{"role":"assistant","content":"a</think>b</think>"}"#);
    assert_eq!(line, r#"{"content":"<think><think>a</think>b</think>","role":"assistant"}"#);
    assert_eq!(fixes, vec![FixType::AddedOpeningThinkTag]);
}

#[test]
fn test_markers_are_left_alone_outside_assistant_content() {
    assert_eq!(
        unchanged(r#"{"role":"user","content":"<think>x"}"#),
        r#"{"content":"<think>x","role":"user"}"#
    );
    assert_eq!(
        unchanged(r#"{"role":"assistant","text":"<think>x"}"#),
        r#"{"role":"assistant","text":"<think>x"}"#
    );
    assert_eq!(unchanged(r#"{"content":"</think>"}"#), r#"{"content":"</think>"}"#);
    let (line, fixes) = fixed(r#"{"role":"assistant","content":["<think>x ",{"t":"y \nz"}]}"#);
    assert_eq!(line, r#"{"content":["<think>x",{"t":"y\nz"}],"role":"assistant"}"#);
    assert_eq!(
        fixes,
        vec![FixType::RemovedTrailingWhitespace, FixType::TrimmedWhitespaceBeforeNewlines]
    );
}

#[test]
fn test_each_kind_is_logged_once_in_order() {
    let (line, fixes) = fixed(
        r#"[{"role":"assistant","content":"<think>a "},"b \nc",{"role":"assistant","content":"x</think> "},"d "]"#,
    );
    assert_eq!(
        line,
        r#"[{"content":"<think>a</think>","role":"assistant"},"b\nc",{"content":"<think>x</think>","role":"assistant"},"d"]"#
    );
    assert_eq!(
        fixes,
        vec![
            FixType::RemovedTrailingWhitespace,
            FixType::AddedClosingThinkTag,
            FixType::TrimmedWhitespaceBeforeNewlines,
            FixType::AddedOpeningThinkTag,
        ]
    );
}

#[test]
fn test_repair_is_idempotent_on_examples() {
    let inputs = [
        r#"{"content": "hello world   "}"#,
        r#"{"messages": [{"role": "assistant", "content": "<think>thinking here"}]}"#,
        r#"{"role":"assistant","content":"<think>plan \n\nanswer"}"#,
        r#"{"role":"assistant","content":"a</think>b</think> "}"#,
        r#"{"role":"assistant","content":"<think>a<think>b"}"#,
        r#"["x \ny \t", {"k": [1, {"z": "  \n"}]}]"#,
    ];
    for input in inputs {
        let (line, _) = fixed(input);
        assert_eq!(unchanged(&line), line, "for {}", input);
    }
}

#[test]
fn test_clean_input_is_unchanged_and_identical() {
    let clean = [
        r#"{"messages":[{"content":"<think>ok</think>answer","role":"assistant"}]}"#,
        r#"{"a":"x","b":[1,2.5,null,true]}"#,
        r#""plain""#,
        r#"17"#,
        r#"{}"#,
    ];
    for input in clean {
        assert_eq!(unchanged(input), input);
    }
}

#[test]
fn test_skips() {
    let fixer = Fixer::new();
    assert!(matches!(fixer.fix_line("   \t \u{a0}"), FixResult::Skipped(SkipReason::EmptyLine)));
    assert!(matches!(fixer.fix_line("\n"), FixResult::Skipped(SkipReason::EmptyLine)));
    match fixer.fix_line("\u{a0}{\"broken json\u{a0}") {
        FixResult::Skipped(reason) => {
            assert!(matches!(reason, SkipReason::InvalidJson(_)));
            assert!(reason.description().starts_with("Invalid JSON: EOF while parsing a string"));
        }
        other => panic!("expected a skip, got {:?}", other),
    }
    assert_eq!(SkipReason::EmptyLine.description(), "Empty line");
    assert_eq!(
        SkipReason::InvalidJson("bad".to_string()).description(),
        "Invalid JSON: bad"
    );
    assert!(matches!(fixer.fix_line("\u{a0} [1] \u{2003}"), FixResult::Unchanged(_)));
}

#[test]
fn test_fix_parsed() {
    let fixer = Fixer::new();
    let value = JsonValue::Object(vec![("t".to_string(), JsonValue::Text("x ".to_string()))]);
    match fixer.fix_parsed(Ok(value)) {
        FixResult::Fixed { line, fixes } => {
            assert_eq!(line, r#"{"t":"x"}"#);
            assert_eq!(fixes, vec![FixType::RemovedTrailingWhitespace]);
        }
        other => panic!("expected a fix, got {:?}", other),
    }
    match fixer.fix_parsed(Err("no".to_string())) {
        FixResult::Skipped(SkipReason::InvalidJson(message)) => assert_eq!(message, "no"),
        other => panic!("expected a skip, got {:?}", other),
    }
}

#[test]
fn test_fix_descriptions() {
    assert_eq!(FixType::AddedClosingThinkTag.description(), "Added missing </think> tag");
    assert_eq!(FixType::AddedOpeningThinkTag.description(), "Added missing <think> tag");
    assert_eq!(FixType::RemovedTrailingWhitespace.description(), "Removed trailing whitespace");
    assert_eq!(
        FixType::TrimmedWhitespaceBeforeNewlines.description(),
        "Trimmed whitespace before newlines"
    );
}

#[test]
fn test_fix_summary() {
    let mut summary = FixSummary::new();
    assert_eq!(summary.total_lines, 0);
    summary.record_fixed(&[FixType::RemovedTrailingWhitespace, FixType::AddedClosingThinkTag]);
    summary.record_fixed(&[FixType::RemovedTrailingWhitespace]);
    summary.record_unchanged();
    summary.record_skipped();
    summary.record_skipped();
    summary.record_fixed(&[]);
    assert_eq!(summary.total_lines, 6);
    assert_eq!(summary.fixed_lines, 3);
    assert_eq!(summary.unchanged_lines, 1);
    assert_eq!(summary.skipped_lines, 2);
    assert_eq!(summary.count_of(FixType::RemovedTrailingWhitespace), 2);
    assert_eq!(summary.count_of(FixType::AddedClosingThinkTag), 1);
    assert_eq!(summary.count_of(FixType::AddedOpeningThinkTag), 0);
    assert_eq!(summary.fixes_by_type.len(), 2);
    assert_eq!(summary.fixes_by_type.get("Removed trailing whitespace"), Some(&2));
}

#[test]
fn test_role_is_read_before_it_is_repaired() {
    // The role only becomes `assistant` through the repair: the markers
    // of the content are looked at by the next repair, not by this one.
    let (first, fixes) = fixed(r#"{"role":"assistant ","content":"<think>x"}"#);
    assert_eq!(first, r#"{"content":"<think>x","role":"assistant"}"#);
    assert_eq!(fixes, vec![FixType::RemovedTrailingWhitespace]);
    let (second, fixes) = fixed(&first);
    assert_eq!(second, r#"{"content":"<think>x</think>","role":"assistant"}"#);
    assert_eq!(fixes, vec![FixType::AddedClosingThinkTag]);
    assert_eq!(unchanged(&second), second);
    // With balanced markers the first repair already settles the record.
    let (first, _) = fixed(r#"{"role":"assistant ","content":"<think>x</think> "}"#);
    assert_eq!(unchanged(&first), first);
}
