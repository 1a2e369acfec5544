use caret::batch::{
    choose_format, choose_mcp_port, default_fix_output, export_unique, fix_paths, repair_record,
    server_snapshot, strategy_for_name,
};
use caret::data::Dataset;
use caret::engine::{DedupEngine, DedupStrategy};
use caret::fixer::{FixSummary, FixType, Fixer};
use caret::format::InputFormat;

#[test]
fn test_choose_format() {
    assert_eq!(choose_format("auto", "data.csv"), (InputFormat::Csv, false));
    assert_eq!(choose_format("auto", "data"), (InputFormat::Jsonl, false));
    assert_eq!(choose_format("PARQUET", "data.csv"), (InputFormat::Parquet, false));
    assert_eq!(choose_format("json", "data.pq"), (InputFormat::Jsonl, false));
    assert_eq!(choose_format("yaml", "data.pq"), (InputFormat::Parquet, true));
    assert_eq!(choose_format("AUTO", "data.pq"), (InputFormat::Parquet, true));
    assert_eq!(choose_format("", "data.jsonl"), (InputFormat::Jsonl, true));
}

#[test]
fn test_strategy_for_name() {
    assert!(matches!(strategy_for_name("exact", 7), DedupStrategy::Exact));
    assert!(matches!(strategy_for_name("simhash", 7), DedupStrategy::SimHash { threshold: 7 }));
    assert!(matches!(strategy_for_name("EXACT", 0), DedupStrategy::SimHash { threshold: 0 }));
    assert!(matches!(strategy_for_name("", 3), DedupStrategy::SimHash { threshold: 3 }));
}

#[test]
fn test_export_unique() {
    let mut bytes = b"A\nB\nA\nC\n".to_vec();
    bytes.extend_from_slice(&[0xff, b'\n']);
    bytes.extend_from_slice(b"B\nD");
    let dataset = Dataset::from_bytes(bytes, "d".to_string(), InputFormat::Jsonl);
    let result = DedupEngine::new(DedupStrategy::Exact).scan(&dataset);
    assert_eq!(export_unique(&dataset, &result), vec!["A", "B", "C", "D"]);
}

#[test]
fn test_default_fix_output() {
    assert_eq!(default_fix_output("data.jsonl"), "data_fixed.jsonl");
    assert_eq!(default_fix_output("dir/sub/data.v2.jsonl"), "dir/sub/data.v2_fixed.jsonl");
    assert_eq!(default_fix_output("/abs/data.csv"), "/abs/data_fixed.csv");
    assert_eq!(default_fix_output("data"), "data_fixed");
    assert_eq!(default_fix_output("dir.d/data"), "dir.d/data_fixed");
    assert_eq!(default_fix_output(".hidden"), ".hidden_fixed");
    assert_eq!(default_fix_output("-"), "-_fixed");
}

#[test]
fn test_fix_paths() {
    assert_eq!(
        fix_paths("in.jsonl", None, false),
        ("in_fixed.jsonl".to_string(), "in_fixed.jsonl".to_string())
    );
    assert_eq!(
        fix_paths("in.jsonl", Some("out.jsonl"), false),
        ("out.jsonl".to_string(), "out.jsonl".to_string())
    );
    assert_eq!(
        fix_paths("in.jsonl", Some("out.jsonl"), true),
        ("in.jsonl".to_string(), "in.jsonl.tmp".to_string())
    );
    assert_eq!(fix_paths("in", None, true), ("in".to_string(), "in.tmp".to_string()));
}

#[test]
fn test_repair_record() {
    let fixer = Fixer::new();
    let mut summary = FixSummary::new();

    let out = repair_record(&fixer, r#"{"t": "x "}"#, 0, false, &mut summary);
    assert_eq!(out.line.as_deref(), Some(r#"{"t":"x"}"#));
    assert_eq!(out.note, None);

    let out = repair_record(&fixer, r#" {"t": "x"} "#, 1, true, &mut summary);
    assert_eq!(out.line.as_deref(), Some(r#"{"t":"x"}"#));
    assert_eq!(out.note, None);

    let out = repair_record(&fixer, "{oops", 2, false, &mut summary);
    assert_eq!(out.line.as_deref(), Some("{oops"));
    assert_eq!(
        out.note.as_deref(),
        Some("Line 3: Invalid JSON: key must be a string at line 1 column 2 (kept as-is)")
    );

    let out = repair_record(&fixer, "{oops", 9, true, &mut summary);
    assert_eq!(out.line, None);
    assert_eq!(
        out.note.as_deref(),
        Some("Line 10: Invalid JSON: key must be a string at line 1 column 2 (skipped)")
    );

    let out = repair_record(&fixer, "  ", 4, false, &mut summary);
    assert_eq!(out.line.as_deref(), Some("  "));
    assert_eq!(out.note.as_deref(), Some("Line 5: Empty line (kept as-is)"));

    let out = repair_record(&fixer, "", 5, true, &mut summary);
    assert_eq!(out.line, None);
    assert_eq!(out.note.as_deref(), Some("Line 6: Empty line (skipped)"));

    assert_eq!(summary.total_lines, 6);
    assert_eq!(summary.fixed_lines, 1);
    assert_eq!(summary.unchanged_lines, 1);
    assert_eq!(summary.skipped_lines, 4);
    assert_eq!(summary.count_of(FixType::RemovedTrailingWhitespace), 1);
    assert_eq!(summary.count_of(FixType::TrimmedWhitespaceBeforeNewlines), 0);
}

#[test]
fn test_choose_mcp_port() {
    assert_eq!(choose_mcp_port(8080, false), Some(8080));
    assert_eq!(choose_mcp_port(8080, true), Some(8080));
    assert_eq!(choose_mcp_port(0, true), Some(3100));
    assert_eq!(choose_mcp_port(0, false), None);
}

#[test]
fn test_server_snapshot() {
    let mut bytes = b"a\n".to_vec();
    bytes.extend_from_slice(&[0xc3, b'\n']);
    bytes.extend_from_slice(b"\nb");
    let dataset = Dataset::from_bytes(bytes, "p.csv".to_string(), InputFormat::Csv);
    let copy = server_snapshot(&dataset);
    assert_eq!(copy.storage.as_bytes(), b"a\n\nb\n");
    assert_eq!(copy.line_count(), 3);
    assert_eq!(copy.size, 5);
    assert_eq!(copy.path, "p.csv");
    assert_eq!(copy.format, InputFormat::Csv);
}
