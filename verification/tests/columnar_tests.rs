use std::sync::Arc;

use arrow::array::{ArrayRef, Int64Array, StringArray};
use arrow::record_batch::RecordBatch;
use parquet::arrow::ArrowWriter;
use parquet::file::metadata::{
    ParquetMetaDataBuilder, ParquetMetaDataReader, ParquetMetaDataWriter,
};
use parquet::file::properties::WriterProperties;

use caret::data::Dataset;
use caret::format::{parquet_to_jsonl, FormatError, InputFormat};
use caret::streaming::{
    bytes_to_jsonl, footer_range, parse_tail, row_group_range, tail_range, ParquetStage,
    RemoteParquetMeta, StreamError,
};

fn columnar_file(rows_per_group: usize, texts: &[&str]) -> Vec<u8> {
    let ids: ArrayRef = Arc::new(Int64Array::from((0..texts.len() as i64).collect::<Vec<i64>>()));
    let text: ArrayRef = Arc::new(StringArray::from(texts.to_vec()));
    let batch = RecordBatch::try_from_iter(vec![("id", ids), ("text", text)]).unwrap();
    let props =
        WriterProperties::builder().set_max_row_group_row_count(Some(rows_per_group)).build();
    let mut file = Vec::new();
    let mut writer = ArrowWriter::try_new(&mut file, batch.schema(), Some(props)).unwrap();
    writer.write(&batch).unwrap();
    writer.close().unwrap();
    file
}

fn slice(file: &[u8], range: (u64, u64)) -> &[u8] {
    &file[range.0 as usize..=range.1 as usize]
}

#[test]
fn test_footer_of_a_real_file() {
    let file = columnar_file(2, &["a", "b", "c", "d", "e"]);
    let size = file.len() as u64;

    let tail = slice(&file, tail_range(size).unwrap());
    let footer_len = parse_tail(tail).unwrap();
    assert!(footer_len > 0 && footer_len < size);
    let footer = slice(&file, footer_range(size, footer_len).unwrap());
    assert_eq!(footer.len() as u64, footer_len);

    let meta = RemoteParquetMeta::read_metadata(size, footer).unwrap();
    assert_eq!(meta.file_size, size);
    assert_eq!(meta.num_row_groups, 3);
    assert_eq!(meta.row_groups.len(), 3);
    assert_eq!(meta.total_rows, 5);
    assert_eq!(meta.columns, vec!["id", "text"]);
    let rows: Vec<u64> = meta.row_groups.iter().map(|g| g.num_rows).collect();
    assert_eq!(rows, vec![2, 2, 1]);
    for (i, group) in meta.row_groups.iter().enumerate() {
        assert_eq!(group.index, i);
        assert!(group.compressed_size > 0);
        assert!(group.compressed_size < size);
        let (start, end) = row_group_range(&meta, i).unwrap();
        assert_eq!(start, group.offset.saturating_sub(1024));
        assert_eq!(end, (group.offset + group.compressed_size + 1024).min(size - 1));
    }
}

#[test]
fn test_stream_open_from_recorded_bytes() {
    let texts = ["first", "second \"quoted\"", "third", "", "fifth"];
    let file = columnar_file(2, &texts);
    let size = file.len() as u64;
    let footer_len = parse_tail(slice(&file, tail_range(size).unwrap())).unwrap();
    let footer = slice(&file, footer_range(size, footer_len).unwrap());
    let meta = RemoteParquetMeta::read_metadata(size, footer).unwrap();

    let lines = bytes_to_jsonl(file.clone()).unwrap();
    assert_eq!(
        lines,
        vec![
            r#"{"id":0,"text":"first"}"#,
            r#"{"id":1,"text":"second \"quoted\""}"#,
            r#"{"id":2,"text":"third"}"#,
            r#"{"id":3,"text":""}"#,
            r#"{"id":4,"text":"fifth"}"#,
        ]
    );
    let dataset = Dataset::from_lines(&lines, "hf://org/data".to_string(), InputFormat::Parquet);
    let row_sum: u64 = meta.row_groups.iter().map(|g| g.num_rows).sum();
    assert_eq!(dataset.line_count() as u64, row_sum);
    assert_eq!(dataset.line_count() as u64, meta.total_rows);
    assert_eq!(dataset.format, InputFormat::Parquet);
    assert_eq!(dataset.format_name(), "Parquet");
    assert_eq!(dataset.get_line(1), Some(r#"{"id":1,"text":"second \"quoted\""}"#));

    assert_eq!(parquet_to_jsonl(file).unwrap(), lines);
}

#[test]
fn test_mapped_dataset() {
    let text = b"{\"a\":1}\n{\"a\":2}\n\n{\"a\":4}";
    let mut map = memmap2::MmapMut::map_anon(text.len()).unwrap();
    map.copy_from_slice(text);
    let map = map.make_read_only().unwrap();
    let dataset = Dataset::from_mmap(map, "data.jsonl".to_string(), text.len() as u64);
    assert_eq!(dataset.line_count(), 4);
    assert_eq!(dataset.get_line(0), Some("{\"a\":1}"));
    assert_eq!(dataset.get_line(2), Some(""));
    assert_eq!(dataset.get_line(3), Some("{\"a\":4}"));
    assert_eq!(dataset.storage.as_bytes(), text);
    assert_eq!(dataset.size, text.len() as u64);
    assert_eq!(dataset.format, InputFormat::Jsonl);
    assert_eq!(dataset.path, "data.jsonl");
}

/// The file with the row counts of its row groups replaced in the footer.
fn with_row_counts(file: &[u8], counts: &[i64]) -> Vec<u8> {
    let metadata = ParquetMetaDataReader::new()
        .parse_and_finish(&bytes::Bytes::copy_from_slice(file))
        .unwrap();
    assert_eq!(metadata.num_row_groups(), counts.len());
    let groups = metadata
        .row_groups()
        .iter()
        .zip(counts)
        .map(|(group, count)| group.clone().into_builder().set_num_rows(*count).build().unwrap())
        .collect();
    let changed =
        ParquetMetaDataBuilder::new(metadata.file_metadata().clone()).set_row_groups(groups).build();
    let size = file.len();
    let footer_len = u32::from_le_bytes(file[size - 8..size - 4].try_into().unwrap()) as usize;
    let mut out = file[..size - 8 - footer_len].to_vec();
    ParquetMetaDataWriter::new(&mut out, &changed).finish().unwrap();
    out
}

#[test]
fn test_row_counts_that_cannot_be_added_up_are_refused() {
    let file = columnar_file(2, &["a", "b", "c", "d", "e"]);
    let message = "row counts are negative or too large to add up";
    for counts in [[-1, -1, 1], [2, 2, -1], [i64::MAX, i64::MAX, 2]] {
        let changed = with_row_counts(&file, &counts);
        match bytes_to_jsonl(changed.clone()) {
            Err(StreamError::Decode { stage, message: text }) => {
                assert_eq!(stage, ParquetStage::RowCounts);
                assert_eq!(text, message);
            }
            other => panic!("expected a refusal, got {:?}", other),
        }
        match parquet_to_jsonl(changed) {
            Err(error @ FormatError::Parquet { stage: ParquetStage::RowCounts, .. }) => {
                assert_eq!(
                    error.message(),
                    "Invalid row counts in Parquet metadata: row counts are negative or too large to add up"
                );
            }
            other => panic!("expected a refusal, got {:?}", other),
        }
    }
}

#[test]
fn test_row_counts_that_add_up_are_read() {
    let file = columnar_file(2, &["a", "b", "c", "d", "e"]);
    let same = with_row_counts(&file, &[2, 2, 1]);
    assert_eq!(bytes_to_jsonl(same).unwrap(), bytes_to_jsonl(file).unwrap());
}
