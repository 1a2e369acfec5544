use caret::streaming::{
    after_row_group, bytes_to_jsonl, first_step, footer_range, lines_of_batches,
    may_fetch_whole_file, parse_tail, range_header, range_status_ok, resolve_hf_url,
    row_group_range, row_group_with_footer_range, select_parquet_file, tail_range, HfTarget,
    row_counts_fit, stream_dataset, HfUrlError, ParquetFileInfo, ParquetStage, RawFooter,
    RawRowGroup, RemoteParquetMeta,
    RowGroupMeta, StreamError, StreamMode, StreamStep,
};

#[test]
fn test_resolve_hf_url_basic() {
    let target = resolve_hf_url("hf://allenai/c4").unwrap();
    assert_eq!(target.org, "allenai");
    assert_eq!(target.dataset, "c4");
    assert_eq!(target.config, "default");
    assert_eq!(target.split, "train");
}

#[test]
fn test_resolve_hf_url_with_split() {
    let target = resolve_hf_url("hf://allenai/c4/validation").unwrap();
    assert_eq!(target.split, "validation");
}

#[test]
fn test_resolve_hf_url_with_config_and_split() {
    let target = resolve_hf_url("hf://allenai/c4/en/train").unwrap();
    assert_eq!(target.config, "en");
    assert_eq!(target.split, "train");
}

#[test]
fn test_resolve_hf_url_invalid() {
    assert!(resolve_hf_url("not_hf://foo/bar").is_err());
    assert!(resolve_hf_url("hf://single").is_err());
}

#[test]
fn test_resolve_hf_url_errors() {
    let error = resolve_hf_url("not_hf://foo/bar").unwrap_err();
    assert!(matches!(error, HfUrlError::NotHfUri(_)));
    assert_eq!(error.message(), "Not a valid hf:// URI: not_hf://foo/bar");
    let error = resolve_hf_url("hf://single").unwrap_err();
    assert!(matches!(error, HfUrlError::InvalidFormat(_)));
    assert_eq!(
        error.message(),
        "Invalid hf:// URI format. Expected hf://org/dataset[/config][/split], got: hf://single"
    );
    assert!(matches!(resolve_hf_url("hf://"), Err(HfUrlError::InvalidFormat(_))));
    assert!(matches!(resolve_hf_url("hf:/a/b"), Err(HfUrlError::NotHfUri(_))));
    assert!(matches!(resolve_hf_url(""), Err(HfUrlError::NotHfUri(_))));
}

#[test]
fn test_resolve_hf_url_keeps_the_rest_in_the_split() {
    let target = resolve_hf_url("hf://org/data/conf/split/more/parts").unwrap();
    assert_eq!(target.org, "org");
    assert_eq!(target.dataset, "data");
    assert_eq!(target.config, "conf");
    assert_eq!(target.split, "split/more/parts");
    let target = resolve_hf_url("hf://org/").unwrap();
    assert_eq!(target.org, "org");
    assert_eq!(target.dataset, "");
    let target = resolve_hf_url("hf:///x//").unwrap();
    assert_eq!(target.org, "");
    assert_eq!(target.dataset, "x");
    assert_eq!(target.config, "");
    assert_eq!(target.split, "");
}

fn target() -> HfTarget {
    resolve_hf_url("hf://allenai/c4/en/validation").unwrap()
}

#[test]
fn test_target_addresses() {
    let t = target();
    assert_eq!(t.api_url(), "https://datasets-server.huggingface.co/parquet?dataset=allenai/c4");
    assert_eq!(t.display_name(), "allenai/c4 [en:validation]");
    assert_eq!(
        t.direct_url(),
        "https://huggingface.co/datasets/allenai/c4/resolve/main/en/validation-00000-of-00001.parquet"
    );
    assert_eq!(t.dataset_path(), "hf://allenai/c4");
}

fn file(config: &str, split: &str) -> ParquetFileInfo {
    ParquetFileInfo {
        dataset: "allenai/c4".to_string(),
        config: config.to_string(),
        split: split.to_string(),
        url: format!("https://example.org/{}/{}", config, split),
        filename: "0000.parquet".to_string(),
        size: 1,
    }
}

#[test]
fn test_select_parquet_file() {
    let files = vec![file("en", "train"), file("fr", "validation"), file("en", "validation")];
    assert_eq!(select_parquet_file(&files, &target()), Some(2));
    let any = resolve_hf_url("hf://allenai/c4/validation").unwrap();
    assert_eq!(select_parquet_file(&files, &any), Some(1));
    let missing = resolve_hf_url("hf://allenai/c4/de/test").unwrap();
    assert_eq!(select_parquet_file(&files, &missing), Some(0));
    assert_eq!(select_parquet_file(&Vec::new(), &target()), None);
}

#[test]
fn test_tail() {
    assert_eq!(tail_range(1000).unwrap(), (992, 999));
    assert_eq!(tail_range(8).unwrap(), (0, 7));
    assert!(matches!(tail_range(7), Err(StreamError::FileTooSmall { file_size: 7 })));
    assert_eq!(parse_tail(&[0x10, 0x02, 0, 0, b'P', b'A', b'R', b'1']).unwrap(), 0x210);
    assert_eq!(parse_tail(&[1, 2, 3, 4, b'P', b'A', b'R', b'1']).unwrap(), 0x04030201);
    assert_eq!(parse_tail(&[255, 255, 255, 255, b'P', b'A', b'R', b'1', 9]).unwrap(), 0xffffffff);
    assert!(matches!(parse_tail(&[0, 0, 0, 0, b'P', b'A', b'R']), Err(StreamError::ShortTail { got: 7 })));
    assert!(matches!(parse_tail(&[0, 0, 0, 0, b'P', b'A', b'R', b'2']), Err(StreamError::BadMagic)));
    assert!(matches!(parse_tail(&[b'P', b'A', b'R', b'1', 0, 0, 0, 0]), Err(StreamError::BadMagic)));
}

#[test]
fn test_footer_range() {
    assert_eq!(footer_range(1000, 100).unwrap(), (892, 991));
    assert_eq!(footer_range(108, 100).unwrap(), (0, 99));
    assert!(matches!(
        footer_range(107, 100),
        Err(StreamError::FooterOutOfRange { file_size: 107, footer_len: 100 })
    ));
    assert!(matches!(footer_range(1000, 0), Err(StreamError::FooterOutOfRange { .. })));
    assert!(matches!(footer_range(3, u64::MAX), Err(StreamError::FooterOutOfRange { .. })));
}

fn meta(file_size: u64, groups: &[(u64, u64, u64)]) -> RemoteParquetMeta {
    let raw = RawFooter {
        columns: vec!["text".to_string()],
        row_groups: groups
            .iter()
            .map(|g| RawRowGroup { chunks: vec![(g.0 as i64, g.1 as i64)], num_rows: g.2 as i64 })
            .collect(),
    };
    RemoteParquetMeta::from_footer(file_size, raw)
}

#[test]
fn test_compressed_size_is_the_sum_over_the_columns() {
    let footer = RawFooter {
        columns: vec!["a".to_string(), "b".to_string(), "c".to_string()],
        row_groups: vec![
            RawRowGroup { chunks: vec![(4, 100), (104, 250), (354, 7)], num_rows: 5 },
            RawRowGroup { chunks: vec![(361, i64::MAX), (0, i64::MAX), (0, 5)], num_rows: 1 },
            RawRowGroup { chunks: vec![(-1, -1)], num_rows: -1 },
        ],
    };
    let m = RemoteParquetMeta::from_footer(1000, footer);
    assert_eq!(
        m.row_groups,
        vec![
            RowGroupMeta { index: 0, offset: 4, compressed_size: 357, num_rows: 5 },
            RowGroupMeta { index: 1, offset: 361, compressed_size: 3, num_rows: 1 },
            RowGroupMeta { index: 2, offset: u64::MAX, compressed_size: u64::MAX, num_rows: u64::MAX },
        ]
    );
    assert_eq!(m.total_rows, 5);
}

#[test]
fn test_meta_from_footer() {
    let m = meta(100000, &[(4, 5000, 10), (5004, 7000, 20)]);
    assert_eq!(m.file_size, 100000);
    assert_eq!(m.num_row_groups, 2);
    assert_eq!(m.total_rows, 30);
    assert_eq!(m.columns, vec!["text"]);
    assert_eq!(
        m.row_groups,
        vec![
            RowGroupMeta { index: 0, offset: 4, compressed_size: 5000, num_rows: 10 },
            RowGroupMeta { index: 1, offset: 5004, compressed_size: 7000, num_rows: 20 },
        ]
    );
    let bare = RemoteParquetMeta::from_footer(
        10,
        RawFooter {
            columns: Vec::new(),
            row_groups: vec![RawRowGroup { chunks: Vec::new(), num_rows: 3 }],
        },
    );
    assert_eq!(bare.row_groups[0].offset, 0);
    assert_eq!(bare.row_groups[0].compressed_size, 0);
    assert_eq!(bare.total_rows, 3);
    let none = RemoteParquetMeta::from_footer(0, RawFooter { columns: Vec::new(), row_groups: Vec::new() });
    assert_eq!(none.num_row_groups, 0);
    assert_eq!(none.total_rows, 0);
}

#[test]
fn test_row_group_ranges() {
    let m = meta(100000, &[(4, 5000, 10), (5004, 7000, 20), (90000, 9990, 5)]);
    assert_eq!(row_group_range(&m, 0).unwrap(), (0, 6028));
    assert_eq!(row_group_range(&m, 1).unwrap(), (3980, 13028));
    assert_eq!(row_group_range(&m, 2).unwrap(), (88976, 99999));
    assert!(matches!(
        row_group_range(&m, 3),
        Err(StreamError::RowGroupOutOfRange { index: 3, count: 3 })
    ));
    assert_eq!(row_group_with_footer_range(&m, 0).unwrap(), (0, 99999));
    assert_eq!(row_group_with_footer_range(&m, 1).unwrap(), (4940, 99999));
    assert!(row_group_with_footer_range(&m, 7).is_err());
    let huge = meta(u64::MAX, &[(u64::MAX - 10, 100, 1)]);
    assert_eq!(row_group_range(&huge, 0).unwrap(), (u64::MAX - 1034, u64::MAX - 1));
}

#[test]
fn test_read_metadata_rejects_bad_footer() {
    let error = RemoteParquetMeta::read_metadata(100, &[0xff, 0xff, 0xff]).unwrap_err();
    assert!(matches!(error, StreamError::Footer { .. }));
}

#[test]
fn test_fetch_policy() {
    assert!(may_fetch_whole_file(0));
    assert!(may_fetch_whole_file(100 * 1024 * 1024 - 1));
    assert!(!may_fetch_whole_file(100 * 1024 * 1024));
    assert!(range_status_ok(200));
    assert!(range_status_ok(206));
    assert!(range_status_ok(299));
    assert!(!range_status_ok(199));
    assert!(!range_status_ok(300));
    assert!(!range_status_ok(404));
    assert!(!range_status_ok(416));
    assert_eq!(range_header(0, 7), "bytes=0-7");
    assert_eq!(range_header(992, 999), "bytes=992-999");
    assert_eq!(range_header(u64::MAX, 10), "bytes=18446744073709551615-10");
}

#[test]
fn test_stream_steps() {
    assert_eq!(first_step(0), StreamStep::Complete);
    assert_eq!(first_step(3), StreamStep::Fetch(0));
    assert_eq!(after_row_group(StreamMode::Whole, 0, 3, true), StreamStep::Fetch(1));
    assert_eq!(after_row_group(StreamMode::Whole, 2, 3, true), StreamStep::Complete);
    assert_eq!(after_row_group(StreamMode::Whole, 0, 3, false), StreamStep::Fail);
    assert_eq!(after_row_group(StreamMode::Whole, 1, 3, false), StreamStep::Fail);
    assert_eq!(after_row_group(StreamMode::Incremental, 0, 3, false), StreamStep::Fail);
    assert_eq!(after_row_group(StreamMode::Incremental, 1, 3, false), StreamStep::StopKeeping);
    assert_eq!(after_row_group(StreamMode::Incremental, 2, 3, true), StreamStep::Complete);
}

#[test]
fn test_lines_of_batches() {
    let batches = vec![
        b"{\"a\":1}\n{\"a\":2}\r\n\n   \n".to_vec(),
        Vec::new(),
        b"{\"a\":3}".to_vec(),
        b"\t\n{\"a\":4}\r".to_vec(),
    ];
    assert_eq!(
        lines_of_batches(&batches).unwrap(),
        vec!["{\"a\":1}", "{\"a\":2}", "{\"a\":3}", "{\"a\":4}\r"]
    );
    assert_eq!(lines_of_batches(&Vec::new()).unwrap(), Vec::<String>::new());
    let broken = vec![b"ok\n".to_vec(), vec![0xff]];
    assert!(matches!(lines_of_batches(&broken), Err(StreamError::InvalidUtf8)));
}

#[test]
fn test_bytes_to_jsonl_rejects_other_bytes() {
    let error = bytes_to_jsonl(b"PAR1 but not really".to_vec()).unwrap_err();
    assert!(matches!(error, StreamError::Decode { stage: ParquetStage::Metadata, .. }));
}

#[test]
fn test_stream_error_messages() {
    assert_eq!(
        StreamError::ShortTail { got: 7 }.message(),
        "Failed to read Parquet tail — got 7 bytes"
    );
    assert_eq!(StreamError::BadMagic.message(), "Not a valid Parquet file (missing PAR1 magic)");
    assert_eq!(
        StreamError::RowGroupOutOfRange { index: 3, count: 3 }.message(),
        "Row group index 3 out of range (0..3)"
    );
    assert_eq!(
        StreamError::Footer { message: "eof".to_string() }.message(),
        "Failed to decode Parquet metadata from footer: eof"
    );
    assert_eq!(
        StreamError::Decode { stage: ParquetStage::Batch, message: "bad page".to_string() }.message(),
        "Failed to read Parquet batch: bad page"
    );
    assert_eq!(StreamError::InvalidUtf8.message(), "Invalid UTF-8 in JSON output");
    assert_eq!(
        StreamError::FileTooSmall { file_size: 3 }.message(),
        "File of 3 bytes is too small to be a Parquet file"
    );
    assert_eq!(
        StreamError::FooterOutOfRange { file_size: 20, footer_len: 99 }.message(),
        "Parquet footer of 99 bytes does not fit in a file of 20 bytes"
    );
    assert_eq!(ParquetStage::Metadata.description(), "Failed to read Parquet metadata from bytes");
    assert_eq!(ParquetStage::RowCounts.description(), "Invalid row counts in Parquet metadata");
    assert_eq!(
        StreamError::Decode { stage: ParquetStage::RowCounts, message: "too many".to_string() }
            .message(),
        "Invalid row counts in Parquet metadata: too many"
    );
    assert_eq!(ParquetStage::Reader.description(), "Failed to build Parquet reader from bytes");
    assert_eq!(ParquetStage::Write.description(), "Failed to serialize batch to JSON");
    assert_eq!(ParquetStage::Finish.description(), "Failed to finish JSON writer");
}

#[test]
fn test_row_counts_fit() {
    assert!(row_counts_fit(&vec![]));
    assert!(row_counts_fit(&vec![0, 5, 7]));
    assert!(row_counts_fit(&vec![i64::MAX]));
    assert!(!row_counts_fit(&vec![-1]));
    assert!(!row_counts_fit(&vec![3, -1, 4]));
    assert!(!row_counts_fit(&vec![-1, -1]));
    assert!(!row_counts_fit(&vec![i64::MIN]));
    let most = (usize::MAX / 2) as i64;
    assert!(row_counts_fit(&vec![most, most, 1]));
    assert!(!row_counts_fit(&vec![most, most, 2]));
    assert!(!row_counts_fit(&vec![most, most, 1, 1]));
}

#[test]
fn test_stream_dataset() {
    let target = resolve_hf_url("hf://org/corpus/main/train").unwrap();
    let lines = vec![r#"{"a":1}"#.to_string(), r#"{"a":2}"#.to_string()];
    let dataset = stream_dataset(&lines, &target);
    assert_eq!(dataset.path, "hf://org/corpus");
    assert_eq!(dataset.format_name(), "Parquet");
    assert_eq!(dataset.storage.as_bytes(), b"{\"a\":1}\n{\"a\":2}");
    assert_eq!(dataset.size, 15);
    assert_eq!(dataset.line_count(), 2);
    assert_eq!(dataset.get_line(1), Some(r#"{"a":2}"#));
    let none = stream_dataset(&Vec::new(), &target);
    assert_eq!(none.line_count(), 1);
    assert_eq!(none.size, 0);
}
