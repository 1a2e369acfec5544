use caret::data::{build_line_offsets, Dataset, Storage};
use caret::format::{csv_to_jsonl, InputFormat};
use caret::text::split_non_blank_lines;

fn jsonl(text: &str) -> Dataset {
    Dataset::from_bytes(text.as_bytes().to_vec(), "data.jsonl".to_string(), InputFormat::Jsonl)
}

#[test]
fn test_line_access() {
    let mut text = String::new();
    text.push_str("{\"prompt\": \"Hello\"}\n");
    text.push_str("{\"prompt\": \"World\"}\n");
    text.push_str("{\"prompt\": \"Test\"}\n");

    let dataset = jsonl(&text);
    assert_eq!(dataset.line_count(), 3);
    assert!(dataset.get_line(0).unwrap().contains("Hello"));
    assert!(dataset.get_line(1).unwrap().contains("World"));
    assert!(dataset.get_line(2).unwrap().contains("Test"));
    assert_eq!(dataset.format, InputFormat::Jsonl);
}

#[test]
fn test_csv_loading() {
    let mut text = String::new();
    text.push_str("prompt,response\n");
    text.push_str("Hello,World\n");
    text.push_str("Foo,Bar\n");

    let lines = csv_to_jsonl(text.as_bytes()).unwrap();
    let dataset = Dataset::from_lines(&lines, "data.csv".to_string(), InputFormat::Csv);
    assert_eq!(dataset.line_count(), 2);
    assert!(dataset.get_line(0).unwrap().contains("Hello"));
    assert!(dataset.get_line(0).unwrap().contains("World"));
    assert_eq!(dataset.format, InputFormat::Csv);
}

#[test]
fn test_line_offsets() {
    assert_eq!(build_line_offsets(b""), vec![0]);
    assert_eq!(build_line_offsets(b"\n"), vec![0]);
    assert_eq!(build_line_offsets(b"a"), vec![0]);
    assert_eq!(build_line_offsets(b"a\nb"), vec![0, 2]);
    assert_eq!(build_line_offsets(b"a\nb\n"), vec![0, 2]);
    assert_eq!(build_line_offsets(b"\n\n\n"), vec![0, 1, 2]);
    assert_eq!(build_line_offsets(b"ab\n\ncd"), vec![0, 3, 4]);
}

#[test]
fn test_empty_source_is_one_empty_record() {
    let dataset = jsonl("");
    assert_eq!(dataset.line_count(), 1);
    assert_eq!(dataset.get_line(0), Some(""));
    assert_eq!(dataset.get_line(1), None);
    assert_eq!(dataset.size, 0);
}

#[test]
fn test_records_and_separators_cover_the_bytes() {
    for text in ["", "a", "a\n", "a\nb", "a\nb\n", "\n", "\n\n", "x\n\ny\n", "é\nü"] {
        let dataset = jsonl(text);
        let count = dataset.line_count();
        let mut sum = 0;
        for i in 0..count {
            sum += dataset.get_line(i).unwrap().len();
        }
        assert_eq!(sum + count - 1, text.len(), "for {:?}", text);
    }
}

#[test]
fn test_invalid_utf8_is_absent() {
    let bytes = vec![b'a', b'\n', 0xff, b'\n', b'b'];
    let dataset = Dataset::from_bytes(bytes.clone(), "raw".to_string(), InputFormat::Jsonl);
    assert_eq!(dataset.line_count(), 3);
    assert_eq!(dataset.get_line(0), Some("a"));
    assert_eq!(dataset.get_line(1), None);
    assert_eq!(dataset.get_line(2), Some("b"));
    assert_eq!(dataset.get_line(3), None);
    assert_eq!(dataset.get_lines(0, 3), vec!["a", "b"]);
    let mut sum = 0;
    for i in 0..3 {
        sum += dataset.get_line(i).map(|l| l.len()).unwrap_or(0);
    }
    assert!(sum + 3 - 1 <= bytes.len());
    let only = Dataset::from_bytes(vec![0xff, b'\n'], "raw".to_string(), InputFormat::Jsonl);
    assert_eq!(only.line_count(), 1);
    assert_eq!(only.get_line(0), None);
}

#[test]
fn test_get_lines_ranges() {
    let dataset = jsonl("a\nb\nc\nd");
    assert_eq!(dataset.get_lines(1, 2), vec!["b", "c"]);
    assert_eq!(dataset.get_lines(2, 10), vec!["c", "d"]);
    assert_eq!(dataset.get_lines(4, 1), Vec::<&str>::new());
    assert_eq!(dataset.get_lines(0, 0), Vec::<&str>::new());
    assert_eq!(dataset.get_lines(1, usize::MAX), vec!["b", "c", "d"]);
    assert_eq!(dataset.get_lines(usize::MAX, usize::MAX), Vec::<&str>::new());
}

#[test]
fn test_last_record_keeps_the_final_newline() {
    let dataset = jsonl("a\nb\n");
    assert_eq!(dataset.line_count(), 2);
    assert_eq!(dataset.get_line(0), Some("a"));
    assert_eq!(dataset.get_line(1), Some("b\n"));
}

#[test]
fn test_from_lines_joins_with_newlines() {
    let lines = vec!["one".to_string(), "".to_string(), "three".to_string()];
    let dataset = Dataset::from_lines(&lines, "mem".to_string(), InputFormat::Parquet);
    assert_eq!(dataset.storage.as_bytes(), b"one\n\nthree");
    assert_eq!(dataset.line_count(), 3);
    assert_eq!(dataset.size, 10);
    assert_eq!(dataset.get_line(1), Some(""));
    assert_eq!(dataset.format_name(), "Parquet");
    let none = Dataset::from_lines(&Vec::new(), "mem".to_string(), InputFormat::Csv);
    assert_eq!(none.line_count(), 1);
    assert_eq!(none.format_name(), "CSV");
    assert_eq!(jsonl("").format_name(), "JSONL");
}

#[test]
fn test_storage() {
    let storage = Storage::from_buffer(b"x\ny".to_vec());
    assert_eq!(storage.len(), 3);
    assert_eq!(storage.line_count(), 2);
    assert_eq!(storage.record_bytes(1), Some(&b"y"[..]));
    assert_eq!(storage.record_bytes(2), None);
    assert_eq!(storage.get_line(0), Some("x"));
}

#[test]
fn test_csv_rows_as_objects() {
    let lines = csv_to_jsonl(b"b,a\n1,2\n\"x,y\",z\n").unwrap();
    assert_eq!(lines, vec![r#"{"a":"2","b":"1"}"#, r#"{"a":"z","b":"x,y"}"#]);
    assert_eq!(csv_to_jsonl(b"only\n").unwrap(), Vec::<String>::new());
    assert_eq!(csv_to_jsonl(b"").unwrap(), Vec::<String>::new());
}

#[test]
fn test_csv_errors() {
    let error = csv_to_jsonl(b"a,b\n1,2,3\n").unwrap_err();
    assert!(matches!(error, caret::format::FormatError::CsvRecord(_)));
    assert!(error.message().starts_with("Failed to read CSV record: "));
    let error = csv_to_jsonl(b"a,\xff\n1,2\n").unwrap_err();
    assert!(matches!(error, caret::format::FormatError::CsvHeaders(_)));
    assert!(error.message().starts_with("Failed to read CSV headers: "));
}

#[test]
fn test_split_non_blank_lines() {
    let lines = split_non_blank_lines("a\r\n\n  \t\nb c \n\u{a0}\nlast\r");
    assert_eq!(lines, vec!["a", "b c ", "last\r"]);
    assert_eq!(split_non_blank_lines(""), Vec::<String>::new());
    assert_eq!(split_non_blank_lines("\n\n"), Vec::<String>::new());
    assert_eq!(split_non_blank_lines("x"), vec!["x"]);
}

#[test]
fn test_every_line_of_a_valid_text_can_be_read() {
    for text in ["é\nü\n", "日本\n\n語", "\n", "a\n\u{1F600}\nb\n"] {
        let dataset = jsonl(text);
        let count = dataset.line_count();
        let mut sum = 0;
        for i in 0..count {
            sum += dataset.get_line(i).expect("a line of a valid text").len();
        }
        assert_eq!(sum + count - 1, text.len(), "for {:?}", text);
    }
}

#[test]
fn test_lines_without_newlines_are_the_records() {
    let cases: Vec<Vec<&str>> = vec![
        vec!["one"],
        vec![""],
        vec!["one", "two", "three"],
        vec!["", "", "x"],
        vec![r#"{"a":1}"#, "", r#"{"b":"é"}"#],
    ];
    for case in cases {
        let lines: Vec<String> = case.iter().map(|l| l.to_string()).collect();
        let dataset = Dataset::from_lines(&lines, "mem".to_string(), InputFormat::Parquet);
        assert_eq!(dataset.line_count(), lines.len(), "for {:?}", case);
        for (i, line) in lines.iter().enumerate() {
            assert_eq!(dataset.get_line(i), Some(line.as_str()), "for {:?}", case);
        }
    }
    // An empty last line is no record of its own.
    let lines = vec!["x".to_string(), "".to_string()];
    let dataset = Dataset::from_lines(&lines, "mem".to_string(), InputFormat::Parquet);
    assert_eq!(dataset.line_count(), 1);
    assert_eq!(dataset.get_line(0), Some("x\n"));
}
