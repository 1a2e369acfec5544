//! Input formats of a dataset and how one is chosen.

use vstd::prelude::*;
use crate::json::{JsonTree, JsonValue, lemma_object_view, member_trees, written};
use crate::streaming::{
    batch_lines, bytes_to_jsonl, parquet_json_batches, ParquetStage, StreamError,
};
use crate::text::{
    extension_of, lowercase, path_extension, push_str, str_equal, texts, to_lowercase,
};

verus! {

/// Supported input formats.
#[derive(Debug, Clone, Copy, PartialEq, Eq, Structural)]
pub enum InputFormat {
    /// One JSON object per line.
    Jsonl,
    /// Columnar file.
    Parquet,
    /// Delimited table with a header row.
    Csv,
}

/// The format that a file extension stands for; line-delimited JSON when
/// there is no extension or it is not a known one.
pub open spec fn format_for_extension(extension: Option<Seq<char>>) -> InputFormat {
    match extension {
        Some(e) => if e == "parquet"@ || e == "pq"@ {
            InputFormat::Parquet
        } else if e == "csv"@ || e == "tsv"@ {
            InputFormat::Csv
        } else {
            InputFormat::Jsonl
        },
        None => InputFormat::Jsonl,
    }
}

/// The format that a lowercase name stands for, if it is the name of one.
pub open spec fn format_for_name(name: Seq<char>) -> Option<InputFormat> {
    if name == "jsonl"@ || name == "json"@ || name == "ndjson"@ {
        Some(InputFormat::Jsonl)
    } else if name == "parquet"@ || name == "pq"@ {
        Some(InputFormat::Parquet)
    } else if name == "csv"@ {
        Some(InputFormat::Csv)
    } else {
        None
    }
}

impl InputFormat {
    /// Detect the format from the extension of a path.
    pub fn detect(path: &str) -> (format: Self)
        ensures
            format == format_for_extension(path_extension(path@)),
    {
        InputFormat::for_extension(extension_of(path))
    }

    /// The format for a file extension.
    pub fn for_extension(extension: Option<&str>) -> (format: Self)
        ensures
            format == format_for_extension(
                match extension {
                    Some(e) => Some(e@),
                    None => None,
                },
            ),
    {
        match extension {
            Some(e) => {
                if str_equal(e, "parquet") || str_equal(e, "pq") {
                    InputFormat::Parquet
                } else if str_equal(e, "csv") || str_equal(e, "tsv") {
                    InputFormat::Csv
                } else {
                    InputFormat::Jsonl
                }
            },
            None => InputFormat::Jsonl,
        }
    }

    /// Parse the name of a format, whatever its case. `auto` and unknown
    /// names give nothing: the caller detects the format instead.
    pub fn parse(s: &str) -> (format: Option<Self>)
        ensures
            format == format_for_name(lowercase(s@)),
    {
        let lower = to_lowercase(s);
        InputFormat::for_name(lower.as_str())
    }

    /// The format for a lowercase name.
    pub fn for_name(name: &str) -> (format: Option<Self>)
        ensures
            format == format_for_name(name@),
    {
        if str_equal(name, "jsonl") || str_equal(name, "json") || str_equal(name, "ndjson") {
            Some(InputFormat::Jsonl)
        } else if str_equal(name, "parquet") || str_equal(name, "pq") {
            Some(InputFormat::Parquet)
        } else if str_equal(name, "csv") {
            Some(InputFormat::Csv)
        } else {
            None
        }
    }
}

// ─── Conversion to lines of JSON ────────────────────────────────────────────

/// The step at which reading a delimited table failed.
#[derive(Debug, Clone, Copy, PartialEq, Eq, Structural)]
pub enum CsvStage {
    Headers,
    Record,
}

/// Why a file could not be converted.
#[derive(Debug)]
pub enum FormatError {
    /// The header row of a delimited table could not be read.
    CsvHeaders(String),
    /// A record of a delimited table could not be read.
    CsvRecord(String),
    /// A columnar file could not be decoded.
    Parquet { stage: ParquetStage, message: String },
    /// What was decoded is not valid UTF-8.
    InvalidUtf8,
}

impl FormatError {
    /// The cause as text.
    pub fn message(&self) -> (text: String)
        ensures
            text@ == match self {
                FormatError::CsvHeaders(cause) => "Failed to read CSV headers: "@ + cause@,
                FormatError::CsvRecord(cause) => "Failed to read CSV record: "@ + cause@,
                FormatError::Parquet { stage, message } => (match stage {
                    ParquetStage::Metadata => "Failed to read Parquet metadata: "@,
                    ParquetStage::RowCounts => "Invalid row counts in Parquet metadata: "@,
                    ParquetStage::Reader => "Failed to build Parquet reader: "@,
                    ParquetStage::Batch => "Failed to read Parquet batch: "@,
                    ParquetStage::Write => "Failed to serialize batch to JSON: "@,
                    ParquetStage::Finish => "Failed to finish JSON writer: "@,
                }) + message@,
                FormatError::InvalidUtf8 => "Invalid UTF-8 in JSON output"@,
            },
    {
        match self {
            FormatError::CsvHeaders(cause) => {
                let mut text = "Failed to read CSV headers: ".to_owned();
                push_str(&mut text, cause.as_str());
                text
            },
            FormatError::CsvRecord(cause) => {
                let mut text = "Failed to read CSV record: ".to_owned();
                push_str(&mut text, cause.as_str());
                text
            },
            FormatError::Parquet { stage, message } => {
                let mut text = match stage {
                    ParquetStage::Metadata => "Failed to read Parquet metadata: ".to_owned(),
                    ParquetStage::RowCounts => "Invalid row counts in Parquet metadata: ".to_owned(),
                    ParquetStage::Reader => "Failed to build Parquet reader: ".to_owned(),
                    ParquetStage::Batch => "Failed to read Parquet batch: ".to_owned(),
                    ParquetStage::Write => "Failed to serialize batch to JSON: ".to_owned(),
                    ParquetStage::Finish => "Failed to finish JSON writer: ".to_owned(),
                };
                push_str(&mut text, message.as_str());
                text
            },
            FormatError::InvalidUtf8 => "Invalid UTF-8 in JSON output".to_owned(),
        }
    }
}

/// Convert the bytes of a columnar file to its rows as lines of JSON.
pub fn parquet_to_jsonl(data: Vec<u8>) -> (lines: Result<Vec<String>, FormatError>)
    ensures
        match lines {
            Ok(lines) => parquet_json_batches(data@) is Ok && batch_lines(
                parquet_json_batches(data@)->Ok_0,
                parquet_json_batches(data@)->Ok_0.len(),
            ) == Some(texts(lines@)),
            Err(FormatError::InvalidUtf8) => parquet_json_batches(data@) is Ok && batch_lines(
                parquet_json_batches(data@)->Ok_0,
                parquet_json_batches(data@)->Ok_0.len(),
            ) is None,
            Err(FormatError::Parquet { stage, message }) => parquet_json_batches(data@) == Err::<
                Seq<Seq<u8>>,
                (ParquetStage, Seq<char>),
            >((stage, message@)),
            Err(_) => false,
        },
{
    match bytes_to_jsonl(data) {
        Ok(lines) => Ok(lines),
        Err(StreamError::Decode { stage, message }) => Err(FormatError::Parquet { stage, message }),
        Err(_) => Err(FormatError::InvalidUtf8),
    }
}

#[verifier::external_type_specification]
#[verifier::external_body]
#[verifier::reject_recursive_types(R)]
pub struct ExCsvReader<R>(csv::Reader<R>);

/// The header row that the csv crate reads in the bytes of a delimited
/// table, or the message of the error it reports for it.
pub uninterp spec fn csv_header(data: Seq<u8>) -> Result<Seq<Seq<char>>, Seq<char>>;

/// What the csv crate reads in the bytes of a delimited table after the
/// header row, in order: the fields of a record, or the message of an
/// error in place of one.
pub uninterp spec fn csv_records(data: Seq<u8>) -> Seq<Result<Seq<Seq<char>>, Seq<char>>>;

/// The bytes that a reader reads from, and the number of records that it
/// has yielded.
pub uninterp spec fn csv_progress(reader: csv::Reader<&[u8]>) -> (Seq<u8>, nat);

/// `csv::Reader::from_reader` on bytes: a reader that has yielded nothing yet.
#[verifier::external_body]
fn csv_open<'a>(data: &'a [u8]) -> (reader: csv::Reader<&'a [u8]>)
    ensures
        csv_progress(reader) == (data@, 0nat),
{
    csv::Reader::from_reader(data)
}

/// `csv::Reader::headers`: the fields of the header row. Reading them does
/// not change what the reader yields as records.
#[verifier::external_body]
fn csv_read_header(reader: &mut csv::Reader<&[u8]>) -> (header: Result<Vec<String>, String>)
    ensures
        match header {
            Ok(fields) => csv_header(csv_progress(*old(reader)).0) == Ok::<
                Seq<Seq<char>>,
                Seq<char>,
            >(texts(fields@)),
            Err(message) => csv_header(csv_progress(*old(reader)).0) == Err::<
                Seq<Seq<char>>,
                Seq<char>,
            >(message@),
        },
        csv_progress(*final(reader)) == csv_progress(*old(reader)),
{
    reader.headers().map(|h| h.iter().map(|s| s.to_string()).collect()).map_err(
        |e| e.to_string(),
    )
}

/// `csv::Reader::records` and `Iterator::next`: the fields of the next
/// record, or nothing once all were yielded.
#[verifier::external_body]
fn csv_next(reader: &mut csv::Reader<&[u8]>) -> (item: Option<Result<Vec<String>, String>>)
    ensures
        csv_progress(*final(reader)).0 == csv_progress(*old(reader)).0,
        match item {
            Some(record) => csv_progress(*old(reader)).1 < csv_records(
                csv_progress(*old(reader)).0,
            ).len() && csv_records(csv_progress(*old(reader)).0)[csv_progress(
                *old(reader),
            ).1 as int] == (match record {
                Ok(fields) => Ok::<Seq<Seq<char>>, Seq<char>>(texts(fields@)),
                Err(message) => Err::<Seq<Seq<char>>, Seq<char>>(message@),
            }) && csv_progress(*final(reader)).1 == csv_progress(*old(reader)).1 + 1,
            None => csv_progress(*old(reader)).1 >= csv_records(
                csv_progress(*old(reader)).0,
            ).len() && csv_progress(*final(reader)).1 == csv_progress(*old(reader)).1,
        },
{
    reader.records().next().map(
        |r| r.map(|fields| fields.iter().map(|s| s.to_string()).collect()).map_err(|e| e.to_string()),
    )
}

/// The first `n` members of the object of a record: each header with the
/// field below it as a string.
pub open spec fn row_members(headers: Seq<Seq<char>>, row: Seq<Seq<char>>, n: nat) -> Seq<
    (Seq<char>, JsonTree),
> {
    Seq::new(n, |i: int| (headers[i], JsonTree::Text(row[i])))
}

/// The object of a record: one member for each header that has a field
/// below it, in the order of the headers.
pub open spec fn row_tree(headers: Seq<Seq<char>>, row: Seq<Seq<char>>) -> JsonTree {
    JsonTree::Object(
        row_members(
            headers,
            row,
            if headers.len() <= row.len() {
                headers.len()
            } else {
                row.len()
            },
        ),
    )
}

/// The object of a record of a delimited table.
pub fn row_object(headers: &Vec<String>, row: &Vec<String>) -> (object: JsonValue)
    ensures
        object@ == row_tree(texts(headers@), texts(row@)),
{
    let n: usize = if headers.len() <= row.len() {
        headers.len()
    } else {
        row.len()
    };
    let mut members: Vec<(String, JsonValue)> = Vec::with_capacity(n);
    let mut i: usize = 0;
    while i < n
        invariant
            i <= n,
            n <= headers@.len(),
            n <= row@.len(),
            member_trees(members@) =~= row_members(texts(headers@), texts(row@), i as nat),
        decreases n - i,
    {
        let ghost before = members@;
        let value = JsonValue::Text(row[i].clone());
        proof {
            assert(value@ == JsonTree::Text(row@[i as int]@));
        }
        members.push((headers[i].clone(), value));
        proof {
            assert(member_trees(members@) =~= member_trees(before).push(
                (headers@[i as int]@, JsonTree::Text(row@[i as int]@)),
            ));
        }
        i = i + 1;
    }
    proof {
        lemma_object_view(members);
    }
    JsonValue::Object(members)
}

/// The lines of the first `n` records that follow a header row, one
/// object per record; or the message of the first record that could not
/// be read.
pub open spec fn csv_lines_upto(
    headers: Seq<Seq<char>>,
    records: Seq<Result<Seq<Seq<char>>, Seq<char>>>,
    n: nat,
) -> Result<Seq<Seq<char>>, Seq<char>>
    decreases n,
{
    if n == 0 {
        Ok(Seq::empty())
    } else {
        match csv_lines_upto(headers, records, (n - 1) as nat) {
            Err(message) => Err(message),
            Ok(lines) => match records[n - 1] {
                Err(message) => Err(message),
                Ok(fields) => Ok(lines.push(written(row_tree(headers, fields)))),
            },
        }
    }
}

/// What converting the bytes of a delimited table gives: the lines of its
/// records, or the step that failed and the message of its error.
pub open spec fn csv_lines(data: Seq<u8>) -> Result<Seq<Seq<char>>, (CsvStage, Seq<char>)> {
    match csv_header(data) {
        Err(message) => Err((CsvStage::Headers, message)),
        Ok(headers) => match csv_lines_upto(headers, csv_records(data), csv_records(data).len()) {
            Ok(lines) => Ok(lines),
            Err(message) => Err((CsvStage::Record, message)),
        },
    }
}

/// A record that cannot be read among the first is the failure of all.
proof fn lemma_csv_lines_fail(
    headers: Seq<Seq<char>>,
    records: Seq<Result<Seq<Seq<char>>, Seq<char>>>,
    m: nat,
    n: nat,
)
    requires
        m <= n,
        csv_lines_upto(headers, records, m) is Err,
    ensures
        csv_lines_upto(headers, records, n) == csv_lines_upto(headers, records, m),
    decreases n,
{
    if m < n {
        lemma_csv_lines_fail(headers, records, m, (n - 1) as nat);
    }
}

/// Convert the bytes of a delimited table with a header row to lines of
/// JSON, one object per record.
pub fn csv_to_jsonl(data: &[u8]) -> (lines: Result<Vec<String>, FormatError>)
    ensures
        match lines {
            Ok(lines) => csv_lines(data@) == Ok::<Seq<Seq<char>>, (CsvStage, Seq<char>)>(
                texts(lines@),
            ),
            Err(FormatError::CsvHeaders(cause)) => csv_lines(data@) == Err::<
                Seq<Seq<char>>,
                (CsvStage, Seq<char>),
            >((CsvStage::Headers, cause@)),
            Err(FormatError::CsvRecord(cause)) => csv_lines(data@) == Err::<
                Seq<Seq<char>>,
                (CsvStage, Seq<char>),
            >((CsvStage::Record, cause@)),
            Err(_) => false,
        },
{
    let ghost records = csv_records(data@);
    let mut reader = csv_open(data);
    let headers: Vec<String> = match csv_read_header(&mut reader) {
        Ok(headers) => headers,
        Err(cause) => {
            return Err(FormatError::CsvHeaders(cause));
        },
    };
    let mut lines: Vec<String> = Vec::new();
    proof {
        assert(texts(lines@) =~= Seq::<Seq<char>>::empty());
    }
    loop
        invariant
            records == csv_records(data@),
            csv_header(data@) == Ok::<Seq<Seq<char>>, Seq<char>>(texts(headers@)),
            csv_progress(reader) == (data@, lines@.len()),
            lines@.len() <= records.len(),
            csv_lines_upto(texts(headers@), records, lines@.len()) == Ok::<
                Seq<Seq<char>>,
                Seq<char>,
            >(texts(lines@)),
        decreases records.len() - lines@.len(),
    {
        let ghost k = lines@.len();
        match csv_next(&mut reader) {
            None => {
                return Ok(lines);
            },
            Some(Err(cause)) => {
                proof {
                    lemma_csv_lines_fail(texts(headers@), records, k + 1, records.len());
                }
                return Err(FormatError::CsvRecord(cause));
            },
            Some(Ok(fields)) => {
                let object = row_object(&headers, &fields);
                let ghost before = lines@;
                let line = object.to_json_string();
                lines.push(line);
                proof {
                    assert(texts(lines@) =~= texts(before).push(line@));
                }
            },
        }
    }
}

} // verus!
