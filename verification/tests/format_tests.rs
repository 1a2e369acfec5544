use caret::format::{parquet_to_jsonl, FormatError, InputFormat};
use caret::streaming::ParquetStage;

#[test]
fn test_detect_format() {
    assert_eq!(InputFormat::detect("data.jsonl"), InputFormat::Jsonl);
    assert_eq!(InputFormat::detect("data.parquet"), InputFormat::Parquet);
    assert_eq!(InputFormat::detect("data.pq"), InputFormat::Parquet);
    assert_eq!(InputFormat::detect("data.csv"), InputFormat::Csv);
    assert_eq!(InputFormat::detect("data.txt"), InputFormat::Jsonl);
    assert_eq!(InputFormat::detect("data"), InputFormat::Jsonl);
}

#[test]
fn test_parse() {
    assert_eq!(InputFormat::parse("jsonl"), Some(InputFormat::Jsonl));
    assert_eq!(InputFormat::parse("PARQUET"), Some(InputFormat::Parquet));
    assert_eq!(InputFormat::parse("csv"), Some(InputFormat::Csv));
    assert_eq!(InputFormat::parse("auto"), None);
    assert_eq!(InputFormat::parse("unknown"), None);
}

#[test]
fn test_detect_more() {
    assert_eq!(InputFormat::detect("dir.csv/data.tsv"), InputFormat::Csv);
    assert_eq!(InputFormat::detect("dir.csv/data"), InputFormat::Jsonl);
    assert_eq!(InputFormat::detect(".parquet"), InputFormat::Jsonl);
    assert_eq!(InputFormat::detect("a.b.pq"), InputFormat::Parquet);
    assert_eq!(InputFormat::detect("data.PARQUET"), InputFormat::Jsonl);
    assert_eq!(InputFormat::for_extension(Some("tsv")), InputFormat::Csv);
    assert_eq!(InputFormat::for_extension(None), InputFormat::Jsonl);
}

#[test]
fn test_parse_names() {
    assert_eq!(InputFormat::parse("Json"), Some(InputFormat::Jsonl));
    assert_eq!(InputFormat::parse("NDJSON"), Some(InputFormat::Jsonl));
    assert_eq!(InputFormat::parse("pq"), Some(InputFormat::Parquet));
    assert_eq!(InputFormat::parse("tsv"), None);
    assert_eq!(InputFormat::parse(""), None);
    assert_eq!(InputFormat::for_name("JSONL"), None);
    assert_eq!(InputFormat::for_name("csv"), Some(InputFormat::Csv));
}

#[test]
fn test_parquet_rejects_other_bytes() {
    let error = parquet_to_jsonl(b"this is not a parquet file".to_vec()).unwrap_err();
    assert!(matches!(error, FormatError::Parquet { stage: ParquetStage::Metadata, .. }));
    assert!(error.message().starts_with("Failed to read Parquet metadata: "));
    assert_eq!(FormatError::InvalidUtf8.message(), "Invalid UTF-8 in JSON output");
}
