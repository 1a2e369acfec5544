//! Opening a remote columnar dataset by byte ranges: the address of the
//! dataset, the footer at the end of the file, the range of each row
//! group, and the lines that the decoded row groups give.

use vstd::prelude::*;
use vstd::utf8::{decode_utf8, encode_utf8, valid_utf8};
use crate::bounds::{minus, smaller};
use crate::data::{
    Dataset, joined_lines, lemma_standing_lines_are_records, record, record_count,
};
use crate::format::InputFormat;
use crate::text::{
    chars_of, decimal, find_chars, find_from, lemma_find_from, lemma_non_blank_lines_stand_alone,
    matches_at, non_blank_lines, occurs_at, push_decimal, push_str, slice_chars,
    split_non_blank_lines, stands_alone, str_equal, str_from_utf8, string_of, texts,
};

verus! {

// ─── The address of a dataset ───────────────────────────────────────────────

/// A remote dataset: organization, dataset, configuration and split.
#[derive(Debug, Clone)]
pub struct HfTarget {
    pub org: String,
    pub dataset: String,
    pub config: String,
    pub split: String,
}

/// A remote dataset, over plain text.
pub struct TargetView {
    pub org: Seq<char>,
    pub dataset: Seq<char>,
    pub config: Seq<char>,
    pub split: Seq<char>,
}

impl View for HfTarget {
    type V = TargetView;

    open spec fn view(&self) -> TargetView {
        TargetView {
            org: self.org@,
            dataset: self.dataset@,
            config: self.config@,
            split: self.split@,
        }
    }
}

/// Why an address was refused.
#[derive(Debug, Clone)]
pub enum HfUrlError {
    /// The address does not start with `hf://`.
    NotHfUri(String),
    /// The address names no dataset after the organization.
    InvalidFormat(String),
}

impl HfUrlError {
    /// The cause as text.
    pub fn message(&self) -> (text: String)
        ensures
            text@ == match self {
                HfUrlError::NotHfUri(uri) => "Not a valid hf:// URI: "@ + uri@,
                HfUrlError::InvalidFormat(uri) =>
                    "Invalid hf:// URI format. Expected hf://org/dataset[/config][/split], got: "@
                        + uri@,
            },
    {
        match self {
            HfUrlError::NotHfUri(uri) => {
                let mut text = "Not a valid hf:// URI: ".to_owned();
                push_str(&mut text, uri.as_str());
                text
            },
            HfUrlError::InvalidFormat(uri) => {
                let mut text =
                    "Invalid hf:// URI format. Expected hf://org/dataset[/config][/split], got: ".to_owned();
                push_str(&mut text, uri.as_str());
                text
            },
        }
    }
}

/// The scheme of a remote address.
pub open spec fn hf_scheme() -> Seq<char> {
    seq!['h', 'f', ':', '/', '/']
}

/// The separator of the parts of an address.
pub open spec fn slash() -> Seq<char> {
    seq!['/']
}

/// The configuration of an address that names none.
pub open spec fn default_config() -> Seq<char> {
    seq!['d', 'e', 'f', 'a', 'u', 'l', 't']
}

/// The split of an address that names none.
pub open spec fn default_split() -> Seq<char> {
    seq!['t', 'r', 'a', 'i', 'n']
}

/// The dataset that the path after the scheme names: the path is cut at its
/// first three slashes at most; two parts are organization and dataset,
/// a third is the split, and with four the third is the configuration and
/// the fourth the split. One part alone names nothing.
pub open spec fn resolve_path(path: Seq<char>) -> Option<TargetView> {
    match find(path, 0) {
        None => None,
        Some(a) => match find(path, a + 1) {
            None => Some(
                TargetView {
                    org: path.subrange(0, a),
                    dataset: path.subrange(a + 1, path.len() as int),
                    config: default_config(),
                    split: default_split(),
                },
            ),
            Some(b) => match find(path, b + 1) {
                None => Some(
                    TargetView {
                        org: path.subrange(0, a),
                        dataset: path.subrange(a + 1, b),
                        config: default_config(),
                        split: path.subrange(b + 1, path.len() as int),
                    },
                ),
                Some(c) => Some(
                    TargetView {
                        org: path.subrange(0, a),
                        dataset: path.subrange(a + 1, b),
                        config: path.subrange(b + 1, c),
                        split: path.subrange(c + 1, path.len() as int),
                    },
                ),
            },
        },
    }
}

/// The first slash of `path` at or after `from`.
pub open spec fn find(path: Seq<char>, from: int) -> Option<int> {
    find_from(path, slash(), from)
}

/// Whether an address starts with the scheme.
pub open spec fn has_scheme(uri: Seq<char>) -> bool {
    occurs_at(uri, hf_scheme(), 0)
}

/// Resolve an address of the form `hf://org/dataset[/config][/split]`.
pub fn resolve_hf_url(uri: &str) -> (resolved: Result<HfTarget, HfUrlError>)
    ensures
        match resolved {
            Ok(target) => has_scheme(uri@) && resolve_path(uri@.skip(5)) == Some(target@),
            Err(HfUrlError::NotHfUri(text)) => !has_scheme(uri@) && text@ == uri@,
            Err(HfUrlError::InvalidFormat(text)) => has_scheme(uri@) && resolve_path(uri@.skip(5))
                is None && text@ == uri@,
        },
{
    proof {
        reveal_strlit("hf://");
        reveal_strlit("/");
        reveal_strlit("default");
        reveal_strlit("train");
        assert("hf://"@ =~= hf_scheme());
        assert("/"@ =~= slash());
        assert("default"@ =~= default_config());
        assert("train"@ =~= default_split());
    }
    let chars = chars_of(uri);
    let scheme = chars_of("hf://");
    if !matches_at(&chars, &scheme, 0) {
        return Err(HfUrlError::NotHfUri(uri.to_owned()));
    }
    let path = slice_chars(&chars, 5, chars.len());
    proof {
        assert(path@ =~= uri@.skip(5));
    }
    let sep = chars_of("/");
    let n: usize = path.len();
    let a: usize = match find_chars(&path, &sep, 0) {
        None => {
            return Err(HfUrlError::InvalidFormat(uri.to_owned()));
        },
        Some(a) => a,
    };
    proof {
        lemma_find_from(path@, sep@, 0);
    }
    let org = string_of(&slice_chars(&path, 0, a));
    let b: usize = match find_chars(&path, &sep, a + 1) {
        None => {
            let dataset = string_of(&slice_chars(&path, a + 1, n));
            return Ok(
                HfTarget { org, dataset, config: "default".to_owned(), split: "train".to_owned() },
            );
        },
        Some(b) => b,
    };
    proof {
        lemma_find_from(path@, sep@, a + 1);
    }
    let dataset = string_of(&slice_chars(&path, a + 1, b));
    match find_chars(&path, &sep, b + 1) {
        None => {
            let split = string_of(&slice_chars(&path, b + 1, n));
            Ok(HfTarget { org, dataset, config: "default".to_owned(), split })
        },
        Some(c) => {
            proof {
                lemma_find_from(path@, sep@, b + 1);
            }
            let config = string_of(&slice_chars(&path, b + 1, c));
            let split = string_of(&slice_chars(&path, c + 1, n));
            Ok(HfTarget { org, dataset, config, split })
        },
    }
}

impl HfTarget {
    /// The address of the service that lists the files of the dataset.
    pub fn api_url(&self) -> (url: String)
        ensures
            url@ == "https://datasets-server.huggingface.co/parquet?dataset="@ + self.org@ + "/"@
                + self.dataset@,
    {
        let mut url = "https://datasets-server.huggingface.co/parquet?dataset=".to_owned();
        push_str(&mut url, self.org.as_str());
        push_str(&mut url, "/");
        push_str(&mut url, self.dataset.as_str());
        url
    }

    /// The conventional address of the file of a dataset, for when the
    /// listing service does not answer.
    pub fn direct_url(&self) -> (url: String)
        ensures
            url@ == "https://huggingface.co/datasets/"@ + self.org@ + "/"@ + self.dataset@
                + "/resolve/main/"@ + self.config@ + "/"@ + self.split@
                + "-00000-of-00001.parquet"@,
    {
        let mut url = "https://huggingface.co/datasets/".to_owned();
        push_str(&mut url, self.org.as_str());
        push_str(&mut url, "/");
        push_str(&mut url, self.dataset.as_str());
        push_str(&mut url, "/resolve/main/");
        push_str(&mut url, self.config.as_str());
        push_str(&mut url, "/");
        push_str(&mut url, self.split.as_str());
        push_str(&mut url, "-00000-of-00001.parquet");
        url
    }

    /// The name shown for the dataset.
    pub fn display_name(&self) -> (name: String)
        ensures
            name@ == self.org@ + "/"@ + self.dataset@ + " ["@ + self.config@ + ":"@ + self.split@
                + "]"@,
    {
        let mut name = self.org.clone();
        push_str(&mut name, "/");
        push_str(&mut name, self.dataset.as_str());
        push_str(&mut name, " [");
        push_str(&mut name, self.config.as_str());
        push_str(&mut name, ":");
        push_str(&mut name, self.split.as_str());
        push_str(&mut name, "]");
        name
    }

    /// The path shown for a dataset that was opened from this address.
    pub fn dataset_path(&self) -> (path: String)
        ensures
            path@ == "hf://"@ + self.org@ + "/"@ + self.dataset@,
    {
        let mut path = "hf://".to_owned();
        push_str(&mut path, self.org.as_str());
        push_str(&mut path, "/");
        push_str(&mut path, self.dataset.as_str());
        path
    }
}

/// One file in the answer of the listing service.
#[derive(Debug, Clone)]
pub struct ParquetFileInfo {
    pub dataset: String,
    pub config: String,
    pub split: String,
    pub url: String,
    pub filename: String,
    pub size: u64,
}

/// Whether a listed file is the one an address asks for: the split is the
/// same, and the configuration is the same or the address asks for the
/// default one.
pub open spec fn file_matches(file: ParquetFileInfo, target: TargetView) -> bool {
    (file.config@ == target.config || target.config == default_config()) && file.split@
        == target.split
}

/// Pick the file to open among those listed: the first that matches the
/// address, else the first of all; nothing when none is listed.
pub fn select_parquet_file(files: &Vec<ParquetFileInfo>, target: &HfTarget) -> (picked: Option<
    usize,
>)
    ensures
        match picked {
            Some(i) => i < files@.len() && if file_matches(files@[i as int], target@) {
                forall|k: int| 0 <= k < i ==> !file_matches(#[trigger] files@[k], target@)
            } else {
                i == 0 && forall|k: int|
                    0 <= k < files@.len() ==> !file_matches(#[trigger] files@[k], target@)
            },
            None => files@.len() == 0,
        },
{
    proof {
        reveal_strlit("default");
        assert("default"@ =~= default_config());
    }
    let any_config: bool = str_equal(target.config.as_str(), "default");
    let mut i: usize = 0;
    while i < files.len()
        invariant
            i <= files@.len(),
            any_config == (target@.config == default_config()),
            forall|k: int| 0 <= k < i ==> !file_matches(#[trigger] files@[k], target@),
        decreases files@.len() - i,
    {
        let file = &files[i];
        if (any_config || str_equal(file.config.as_str(), target.config.as_str())) && str_equal(
            file.split.as_str(),
            target.split.as_str(),
        ) {
            return Some(i);
        }
        i = i + 1;
    }
    if files.len() > 0 {
        Some(0)
    } else {
        None
    }
}

// ─── The footer ─────────────────────────────────────────────────────────────

/// What is known of a remote file from its footer.
#[derive(Debug, Clone)]
pub struct RemoteParquetMeta {
    /// Size of the file in bytes.
    pub file_size: u64,
    /// Number of row groups.
    pub num_row_groups: usize,
    /// Number of rows of all row groups together.
    pub total_rows: u64,
    /// Names of the columns.
    pub columns: Vec<String>,
    /// Offset, compressed size and number of rows of each row group.
    pub row_groups: Vec<RowGroupMeta>,
}

/// Place and size of one row group.
#[derive(Debug, Clone, Copy, PartialEq, Eq, Structural)]
pub struct RowGroupMeta {
    pub index: usize,
    pub offset: u64,
    pub compressed_size: u64,
    pub num_rows: u64,
}

/// Why a stream could not be opened.
#[derive(Debug)]
pub enum StreamError {
    /// The file is too small to end in a footer.
    FileTooSmall { file_size: u64 },
    /// Fewer than eight bytes came back for the end of the file.
    ShortTail { got: usize },
    /// The file does not end in the magic number.
    BadMagic,
    /// The footer would start before the file does, or is empty.
    FooterOutOfRange { file_size: u64, footer_len: u64 },
    /// The footer could not be decoded.
    Footer { message: String },
    /// There is no row group with this index.
    RowGroupOutOfRange { index: usize, count: usize },
    /// The row groups could not be decoded.
    Decode { stage: ParquetStage, message: String },
    /// What was decoded is not valid UTF-8.
    InvalidUtf8,
}

impl StreamError {
    /// The cause as text.
    pub open spec fn text(self) -> Seq<char> {
        match self {
            StreamError::FileTooSmall { file_size } => "File of "@ + decimal(file_size as nat)
                + " bytes is too small to be a Parquet file"@,
            StreamError::ShortTail { got } => "Failed to read Parquet tail — got "@ + decimal(
                got as nat,
            ) + " bytes"@,
            StreamError::BadMagic => "Not a valid Parquet file (missing PAR1 magic)"@,
            StreamError::FooterOutOfRange { file_size, footer_len } => "Parquet footer of "@
                + decimal(footer_len as nat) + " bytes does not fit in a file of "@ + decimal(
                file_size as nat,
            ) + " bytes"@,
            StreamError::Footer { message } => "Failed to decode Parquet metadata from footer: "@
                + message@,
            StreamError::RowGroupOutOfRange { index, count } => "Row group index "@ + decimal(
                index as nat,
            ) + " out of range (0.."@ + decimal(count as nat) + ")"@,
            StreamError::Decode { stage, message } => stage.text() + ": "@ + message@,
            StreamError::InvalidUtf8 => "Invalid UTF-8 in JSON output"@,
        }
    }

    /// The cause as text.
    pub fn message(&self) -> (text: String)
        ensures
            text@ == self.text(),
    {
        match self {
            StreamError::FileTooSmall { file_size } => {
                let mut text = "File of ".to_owned();
                push_decimal(&mut text, *file_size as u128);
                push_str(&mut text, " bytes is too small to be a Parquet file");
                text
            },
            StreamError::ShortTail { got } => {
                let mut text = "Failed to read Parquet tail — got ".to_owned();
                push_decimal(&mut text, *got as u128);
                push_str(&mut text, " bytes");
                text
            },
            StreamError::BadMagic => "Not a valid Parquet file (missing PAR1 magic)".to_owned(),
            StreamError::FooterOutOfRange { file_size, footer_len } => {
                let mut text = "Parquet footer of ".to_owned();
                push_decimal(&mut text, *footer_len as u128);
                push_str(&mut text, " bytes does not fit in a file of ");
                push_decimal(&mut text, *file_size as u128);
                push_str(&mut text, " bytes");
                text
            },
            StreamError::Footer { message } => {
                let mut text = "Failed to decode Parquet metadata from footer: ".to_owned();
                push_str(&mut text, message.as_str());
                text
            },
            StreamError::RowGroupOutOfRange { index, count } => {
                let mut text = "Row group index ".to_owned();
                push_decimal(&mut text, *index as u128);
                push_str(&mut text, " out of range (0..");
                push_decimal(&mut text, *count as u128);
                push_str(&mut text, ")");
                text
            },
            StreamError::Decode { stage, message } => {
                let mut text = stage.description().to_owned();
                push_str(&mut text, ": ");
                push_str(&mut text, message.as_str());
                text
            },
            StreamError::InvalidUtf8 => "Invalid UTF-8 in JSON output".to_owned(),
        }
    }
}

impl ParquetStage {
    /// What failed, in words.
    pub open spec fn text(self) -> Seq<char> {
        match self {
            ParquetStage::Metadata => "Failed to read Parquet metadata from bytes"@,
            ParquetStage::RowCounts => "Invalid row counts in Parquet metadata"@,
            ParquetStage::Reader => "Failed to build Parquet reader from bytes"@,
            ParquetStage::Batch => "Failed to read Parquet batch"@,
            ParquetStage::Write => "Failed to serialize batch to JSON"@,
            ParquetStage::Finish => "Failed to finish JSON writer"@,
        }
    }

    /// What failed, in words.
    pub fn description(&self) -> (text: &'static str)
        ensures
            text@ == self.text(),
    {
        match self {
            ParquetStage::Metadata => "Failed to read Parquet metadata from bytes",
            ParquetStage::RowCounts => "Invalid row counts in Parquet metadata",
            ParquetStage::Reader => "Failed to build Parquet reader from bytes",
            ParquetStage::Batch => "Failed to read Parquet batch",
            ParquetStage::Write => "Failed to serialize batch to JSON",
            ParquetStage::Finish => "Failed to finish JSON writer",
        }
    }
}

/// The step at which decoding failed.
#[derive(Debug, Clone, Copy, PartialEq, Eq, Structural)]
pub enum ParquetStage {
    /// Reading the metadata of the file.
    Metadata,
    /// Adding up the row counts that the metadata lists.
    RowCounts,
    /// Building the reader.
    Reader,
    /// Reading a batch of rows.
    Batch,
    /// Writing a batch as JSON.
    Write,
    /// Finishing the JSON of a batch.
    Finish,
}

/// The little-endian number of four bytes.
pub open spec fn le_u32(b0: u8, b1: u8, b2: u8, b3: u8) -> int {
    b0 as int + 256 * (b1 as int) + 65536 * (b2 as int) + 16777216 * (b3 as int)
}

/// The magic number `PAR1`.
pub open spec fn magic() -> Seq<u8> {
    seq![0x50u8, 0x41u8, 0x52u8, 0x31u8]
}

/// The range of the last eight bytes of a file, both ends included;
/// nothing for a file of fewer than eight bytes.
pub fn tail_range(file_size: u64) -> (range: Result<(u64, u64), StreamError>)
    ensures
        match range {
            Ok((start, end)) => file_size >= 8 && start == file_size - 8 && end == file_size - 1,
            Err(StreamError::FileTooSmall { file_size: size }) => file_size < 8 && size
                == file_size,
            Err(_) => false,
        },
{
    if file_size < 8 {
        Err(StreamError::FileTooSmall { file_size })
    } else {
        Ok((file_size - 8, file_size - 1))
    }
}

/// Read the last eight bytes of a file: four bytes of footer length, least
/// significant first, then the magic number.
pub fn parse_tail(tail: &[u8]) -> (footer_len: Result<u64, StreamError>)
    ensures
        match footer_len {
            Ok(len) => tail@.len() >= 8 && tail@.subrange(4, 8) == magic() && len == le_u32(
                tail@[0],
                tail@[1],
                tail@[2],
                tail@[3],
            ),
            Err(StreamError::ShortTail { got }) => tail@.len() < 8 && got == tail@.len(),
            Err(StreamError::BadMagic) => tail@.len() >= 8 && tail@.subrange(4, 8) != magic(),
            Err(_) => false,
        },
{
    if tail.len() < 8 {
        return Err(StreamError::ShortTail { got: tail.len() });
    }
    if tail[4] != 0x50 || tail[5] != 0x41 || tail[6] != 0x52 || tail[7] != 0x31 {
        proof {
            let found = tail@.subrange(4, 8);
            assert(found[0] == tail@[4] && found[1] == tail@[5] && found[2] == tail@[6] && found[3]
                == tail@[7]);
        }
        return Err(StreamError::BadMagic);
    }
    proof {
        assert(tail@.subrange(4, 8) =~= magic());
    }
    let len: u64 = tail[0] as u64 + 256 * (tail[1] as u64) + 65536 * (tail[2] as u64) + 16777216 * (
    tail[3] as u64);
    Ok(len)
}

/// The range of a footer of `footer_len` bytes, both ends included: it
/// ends just before the last eight bytes of the file.
pub fn footer_range(file_size: u64, footer_len: u64) -> (range: Result<(u64, u64), StreamError>)
    ensures
        match range {
            Ok((start, end)) => footer_len >= 1 && file_size >= 8 + footer_len && start
                == file_size - 8 - footer_len && end == file_size - 9,
            Err(StreamError::FooterOutOfRange { file_size: size, footer_len: len }) => (footer_len
                == 0 || file_size < 8 + footer_len) && size == file_size && len == footer_len,
            Err(_) => false,
        },
{
    if footer_len == 0 || file_size < 8 || file_size - 8 < footer_len {
        Err(StreamError::FooterOutOfRange { file_size, footer_len })
    } else {
        Ok((file_size - 8 - footer_len, file_size - 9))
    }
}

/// What the footer of a file says of one row group.
#[derive(Debug, Clone)]
pub struct RawRowGroup {
    /// Offset and compressed size of each column chunk, in column order.
    pub chunks: Vec<(i64, i64)>,
    /// Number of rows.
    pub num_rows: i64,
}

/// What the footer of a file says: the names of the columns and the row groups.
#[derive(Debug, Clone)]
pub struct RawFooter {
    pub columns: Vec<String>,
    pub row_groups: Vec<RawRowGroup>,
}

/// What a footer says of one row group, as plain values.
pub ghost struct RowGroupView {
    /// Offset and compressed size of each column chunk, in column order.
    pub chunks: Seq<(i64, i64)>,
    /// Number of rows.
    pub num_rows: i64,
}

/// What a footer says, as plain values.
pub ghost struct FooterView {
    pub columns: Seq<Seq<char>>,
    pub row_groups: Seq<RowGroupView>,
}

impl View for RawRowGroup {
    type V = RowGroupView;

    open spec fn view(&self) -> RowGroupView {
        RowGroupView { chunks: self.chunks@, num_rows: self.num_rows }
    }
}

impl View for RawFooter {
    type V = FooterView;

    open spec fn view(&self) -> FooterView {
        FooterView {
            columns: texts(self.columns@),
            row_groups: Seq::new(self.row_groups@.len(), |i: int| self.row_groups@[i]@),
        }
    }
}

/// What `ParquetMetaDataReader::decode_metadata` makes of the bytes of a
/// footer: the columns and row groups it lists, or the message of the error.
pub uninterp spec fn parquet_footer(bytes: Seq<u8>) -> Result<FooterView, Seq<char>>;

/// `ParquetMetaDataReader::decode_metadata` of the parquet crate, and what
/// the decoded metadata says of the columns of the schema and of each row
/// group: the offset and the compressed size of each of its column chunks,
/// and its number of rows. Nothing is added up here.
#[verifier::external_body]
fn decode_footer(bytes: &[u8]) -> (footer: Result<RawFooter, String>)
    ensures
        match footer {
            Ok(footer) => parquet_footer(bytes@) == Ok::<FooterView, Seq<char>>(footer@),
            Err(message) => parquet_footer(bytes@) == Err::<FooterView, Seq<char>>(message@),
        },
{
    let metadata = parquet::file::metadata::ParquetMetaDataReader::decode_metadata(bytes).map_err(
        |e| e.to_string(),
    )?;
    let columns = metadata.file_metadata().schema_descr().columns().iter().map(
        |c| c.name().to_string(),
    ).collect();
    let chunk = |c: &parquet::file::metadata::ColumnChunkMetaData|
        (c.file_offset(), c.compressed_size());
    let row_groups = metadata.row_groups().iter().map(
        |rg| RawRowGroup { chunks: rg.columns().iter().map(chunk).collect(), num_rows: rg.num_rows() },
    ).collect();
    Ok(RawFooter { columns, row_groups })
}

/// The compressed sizes of the first `n` column chunks together, in 64
/// bits: a sum that passes the largest value wraps around.
pub open spec fn sizes_upto(chunks: Seq<(i64, i64)>, n: nat) -> u64
    decreases n,
{
    if n == 0 {
        0
    } else {
        sizes_upto(chunks, (n - 1) as nat).wrapping_add(chunks[n - 1].1 as u64)
    }
}

/// The place and size of a row group as the footer gives them: the offset
/// is that of the first column chunk, zero for a row group without
/// columns; the compressed size is that of all column chunks together.
pub open spec fn row_group_of(raw: RowGroupView, index: int) -> RowGroupMeta {
    RowGroupMeta {
        index: index as usize,
        offset: if raw.chunks.len() > 0 {
            raw.chunks[0].0 as u64
        } else {
            0
        },
        compressed_size: sizes_upto(raw.chunks, raw.chunks.len()),
        num_rows: raw.num_rows as u64,
    }
}

/// The number of rows of the first `n` row groups together, in 64 bits.
pub open spec fn rows_upto(groups: Seq<RowGroupView>, n: nat) -> u64
    decreases n,
{
    if n == 0 {
        0
    } else {
        rows_upto(groups, (n - 1) as nat).wrapping_add(groups[n - 1].num_rows as u64)
    }
}

/// The compressed size of a row group: the sizes of its column chunks added
/// up in 64 bits, wrapping around.
fn compressed_size_of(chunks: &Vec<(i64, i64)>) -> (size: u64)
    ensures
        size == sizes_upto(chunks@, chunks@.len()),
{
    let mut size: u64 = 0;
    let mut k: usize = 0;
    while k < chunks.len()
        invariant
            k <= chunks@.len(),
            size == sizes_upto(chunks@, k as nat),
        decreases chunks@.len() - k,
    {
        let chunk_size: u64 = #[verifier::truncate]
        (chunks[k].1 as u64);
        size = size.wrapping_add(chunk_size);
        k = k + 1;
    }
    size
}

impl RemoteParquetMeta {
    /// Whether this is what `footer` says of a file of `file_size` bytes.
    pub open spec fn describes(&self, file_size: u64, footer: FooterView) -> bool {
        &&& self.file_size == file_size
        &&& self.num_row_groups == footer.row_groups.len()
        &&& self.total_rows == rows_upto(footer.row_groups, footer.row_groups.len())
        &&& texts(self.columns@) == footer.columns
        &&& self.row_groups@.len() == footer.row_groups.len()
        &&& forall|i: int|
            0 <= i < self.row_groups@.len() ==> (#[trigger] self.row_groups@[i]) == row_group_of(
                footer.row_groups[i],
                i,
            )
    }

    /// What `footer` says of a file of `file_size` bytes.
    pub fn from_footer(file_size: u64, footer: RawFooter) -> (meta: Self)
        ensures
            meta.describes(file_size, footer@),
    {
        let mut row_groups: Vec<RowGroupMeta> = Vec::new();
        let mut total_rows: u64 = 0;
        let mut i: usize = 0;
        while i < footer.row_groups.len()
            invariant
                i <= footer.row_groups@.len(),
                row_groups@.len() == i,
                total_rows == rows_upto(footer@.row_groups, i as nat),
                forall|k: int|
                    0 <= k < i ==> (#[trigger] row_groups@[k]) == row_group_of(
                        footer@.row_groups[k],
                        k,
                    ),
            decreases footer.row_groups@.len() - i,
        {
            proof {
                assert(footer@.row_groups[i as int] == footer.row_groups@[i as int]@);
            }
            let raw: &RawRowGroup = &footer.row_groups[i];
            let offset: u64 = if raw.chunks.len() > 0 {
                #[verifier::truncate]
                (raw.chunks[0].0 as u64)
            } else {
                0
            };
            let compressed_size: u64 = compressed_size_of(&raw.chunks);
            let num_rows: u64 = #[verifier::truncate]
            (raw.num_rows as u64);
            total_rows = total_rows.wrapping_add(num_rows);
            row_groups.push(RowGroupMeta { index: i, offset, compressed_size, num_rows });
            i = i + 1;
        }
        RemoteParquetMeta {
            file_size,
            num_row_groups: row_groups.len(),
            total_rows,
            columns: footer.columns,
            row_groups,
        }
    }

    /// Decode the bytes of a footer into what is known of the file.
    pub fn read_metadata(file_size: u64, footer_bytes: &[u8]) -> (meta: Result<Self, StreamError>)
        ensures
            match meta {
                Ok(meta) => parquet_footer(footer_bytes@) is Ok && meta.describes(
                    file_size,
                    parquet_footer(footer_bytes@)->Ok_0,
                ),
                Err(StreamError::Footer { message }) => parquet_footer(footer_bytes@) == Err::<
                    FooterView,
                    Seq<char>,
                >(message@),
                Err(_) => false,
            },
    {
        match decode_footer(footer_bytes) {
            Ok(footer) => Ok(RemoteParquetMeta::from_footer(file_size, footer)),
            Err(message) => Err(StreamError::Footer { message }),
        }
    }
}

// ─── Row groups ─────────────────────────────────────────────────────────────

/// The number of bytes asked for before and after a row group.
pub const ROW_GROUP_PAD: u64 = 1024;

/// The size from which a file is not fetched whole: 100 MiB.
pub const FULL_FETCH_LIMIT: u64 = 104857600;

/// The range to ask for to get row group `index`, both ends included: from
/// the pad before its offset to the pad after its compressed bytes, and not
/// past the last byte of the file.
pub fn row_group_range(meta: &RemoteParquetMeta, index: usize) -> (range: Result<
    (u64, u64),
    StreamError,
>)
    ensures
        match range {
            Ok((start, end)) => index < meta.row_groups@.len() && start == minus(
                meta.row_groups@[index as int].offset as int,
                ROW_GROUP_PAD as int,
            ) && end == smaller(
                smaller(
                    meta.row_groups@[index as int].offset + meta.row_groups@[index as int].compressed_size
                        + ROW_GROUP_PAD,
                    u64::MAX as int,
                ),
                minus(meta.file_size as int, 1),
            ),
            Err(StreamError::RowGroupOutOfRange { index: i, count }) => index
                >= meta.row_groups@.len() && i == index && count == meta.row_groups@.len(),
            Err(_) => false,
        },
{
    if index >= meta.row_groups.len() {
        return Err(StreamError::RowGroupOutOfRange { index, count: meta.row_groups.len() });
    }
    let group: RowGroupMeta = meta.row_groups[index];
    let start: u64 = group.offset.saturating_sub(ROW_GROUP_PAD);
    let reach: u64 = group.offset.saturating_add(group.compressed_size).saturating_add(
        ROW_GROUP_PAD,
    );
    let last: u64 = meta.file_size.saturating_sub(1);
    let end: u64 = if reach < last {
        reach
    } else {
        last
    };
    Ok((start, end))
}

/// The range that holds row group `index` together with the footer, both
/// ends included: from shortly before its offset to the end of the file.
pub fn row_group_with_footer_range(meta: &RemoteParquetMeta, index: usize) -> (range: Result<
    (u64, u64),
    StreamError,
>)
    ensures
        match range {
            Ok((start, end)) => index < meta.row_groups@.len() && start == minus(
                meta.row_groups@[index as int].offset as int,
                64,
            ) && end == minus(meta.file_size as int, 1),
            Err(StreamError::RowGroupOutOfRange { index: i, count }) => index
                >= meta.row_groups@.len() && i == index && count == meta.row_groups@.len(),
            Err(_) => false,
        },
{
    if index >= meta.row_groups.len() {
        return Err(StreamError::RowGroupOutOfRange { index, count: meta.row_groups.len() });
    }
    let group: RowGroupMeta = meta.row_groups[index];
    Ok((group.offset.saturating_sub(64), meta.file_size.saturating_sub(1)))
}

/// Whether a file may be fetched whole when a row group cannot be decoded
/// on its own: only below 100 MiB.
pub fn may_fetch_whole_file(file_size: u64) -> (allowed: bool)
    ensures
        allowed == (file_size < FULL_FETCH_LIMIT),
{
    file_size < FULL_FETCH_LIMIT
}

/// Whether the status of an answer to a range request is a success: any
/// status from 200 to 299, partial content among them.
pub fn range_status_ok(status: u16) -> (ok: bool)
    ensures
        ok == (200 <= status <= 299),
{
    200 <= status && status <= 299
}

/// The value of the `Range` header for the bytes `start ..= end`.
pub fn range_header(start: u64, end: u64) -> (header: String)
    ensures
        header@ == "bytes="@ + decimal(start as nat) + "-"@ + decimal(end as nat),
{
    let mut header = "bytes=".to_owned();
    push_decimal(&mut header, start as u128);
    push_str(&mut header, "-");
    push_decimal(&mut header, end as u128);
    header
}

/// How a stream is opened.
#[derive(Debug, Clone, Copy, PartialEq, Eq, Structural)]
pub enum StreamMode {
    /// All row groups are fetched before the dataset is handed out.
    Whole,
    /// The dataset is handed out after the first row group; the others
    /// are fetched in the background.
    Incremental,
}

/// What to do after a row group was asked for.
#[derive(Debug, Clone, Copy, PartialEq, Eq, Structural)]
pub enum StreamStep {
    /// Ask for the row group with this index.
    Fetch(usize),
    /// All row groups are there.
    Complete,
    /// Stop fetching and keep what was loaded.
    StopKeeping,
    /// The stream cannot be opened; nothing of it is handed out.
    Fail,
}

/// What follows once row group `index` of `count` came back, or did not:
/// after a success the next row group, or completion after the last one;
/// after a failure the open fails, except in the background of an
/// incremental stream, where fetching stops and what was loaded stays.
pub open spec fn next_step(mode: StreamMode, index: int, count: int, fetched: bool) -> StreamStep {
    if fetched {
        if index + 1 < count {
            StreamStep::Fetch((index + 1) as usize)
        } else {
            StreamStep::Complete
        }
    } else if mode == StreamMode::Incremental && index >= 1 {
        StreamStep::StopKeeping
    } else {
        StreamStep::Fail
    }
}

/// The first step of a stream over `count` row groups.
pub fn first_step(count: usize) -> (step: StreamStep)
    ensures
        step == if count > 0 {
            StreamStep::Fetch(0)
        } else {
            StreamStep::Complete
        },
{
    if count > 0 {
        StreamStep::Fetch(0)
    } else {
        StreamStep::Complete
    }
}

/// The step after row group `index` of `count` came back, or did not.
pub fn after_row_group(mode: StreamMode, index: usize, count: usize, fetched: bool) -> (step:
    StreamStep)
    ensures
        step == next_step(mode, index as int, count as int, fetched),
{
    if fetched {
        if index < count && index + 1 < count {
            StreamStep::Fetch(index + 1)
        } else {
            StreamStep::Complete
        }
    } else if mode == StreamMode::Incremental && index >= 1 {
        StreamStep::StopKeeping
    } else {
        StreamStep::Fail
    }
}

// ─── Decoding ───────────────────────────────────────────────────────────────

/// What `ArrowReaderMetadata::load` of the parquet crate makes of the
/// bytes of a file: the number of rows of each row group that the footer
/// lists, in order, or the message of the error.
pub uninterp spec fn parquet_rows(data: Seq<u8>) -> Result<Seq<i64>, Seq<char>>;

/// `ArrowReaderMetadata::load` with the default options on bytes held in
/// memory, and `num_rows` of each row group of the metadata that it gives.
/// The bytes come back as they went in.
#[verifier::external_body]
fn file_row_counts(data: Vec<u8>) -> (out: (Vec<u8>, Result<Vec<i64>, String>))
    ensures
        out.0@ == data@,
        match out.1 {
            Ok(rows) => parquet_rows(data@) == Ok::<Seq<i64>, Seq<char>>(rows@),
            Err(message) => parquet_rows(data@) == Err::<Seq<i64>, Seq<char>>(message@),
        },
{
    let bytes = bytes::Bytes::from(data);
    let rows = parquet::arrow::arrow_reader::ArrowReaderMetadata::load(
        &bytes,
        Default::default(),
    ).map(|m| m.metadata().row_groups().iter().map(|g| g.num_rows()).collect()).map_err(
        |e| e.to_string(),
    );
    (bytes.into(), rows)
}

/// The first `n` row counts added up.
pub open spec fn rows_total(rows: Seq<i64>, n: nat) -> int
    decreases n,
{
    if n == 0 {
        0
    } else {
        rows_total(rows, (n - 1) as nat) + rows[n - 1]
    }
}

/// Whether row counts can be added up as the reader does: none is
/// negative, and together they fit the machine's word.
pub open spec fn rows_fit(rows: Seq<i64>) -> bool {
    &&& forall|i: int| 0 <= i < rows.len() ==> (#[trigger] rows[i]) >= 0
    &&& rows_total(rows, rows.len()) <= usize::MAX
}

/// The sum of row counts that are not negative grows with their number.
proof fn lemma_rows_total_grows(rows: Seq<i64>, m: nat, n: nat)
    requires
        m <= n <= rows.len(),
        forall|i: int| 0 <= i < n ==> (#[trigger] rows[i]) >= 0,
    ensures
        0 <= rows_total(rows, m) <= rows_total(rows, n),
    decreases n,
{
    if m < n {
        lemma_rows_total_grows(rows, m, (n - 1) as nat);
    } else if n > 0 {
        lemma_rows_total_grows(rows, (m - 1) as nat, (n - 1) as nat);
    }
}

/// Whether row counts can be added up: none is negative, and together they
/// fit the machine's word.
pub fn row_counts_fit(rows: &Vec<i64>) -> (fit: bool)
    ensures
        fit == rows_fit(rows@),
{
    let mut total: usize = 0;
    let mut i: usize = 0;
    while i < rows.len()
        invariant
            i <= rows@.len(),
            total == rows_total(rows@, i as nat),
            forall|k: int| 0 <= k < i ==> (#[trigger] rows@[k]) >= 0,
        decreases rows@.len() - i,
    {
        let count: i64 = rows[i];
        if count < 0 {
            return false;
        }
        if count as u64 > (usize::MAX - total) as u64 {
            proof {
                if forall|k: int| 0 <= k < rows@.len() ==> (#[trigger] rows@[k]) >= 0 {
                    lemma_rows_total_grows(rows@, (i + 1) as nat, rows@.len());
                }
            }
            return false;
        }
        total = total + count as usize;
        i = i + 1;
    }
    true
}

/// What is said of row counts that cannot be added up.
pub open spec fn row_counts_message() -> Seq<char> {
    "row counts are negative or too large to add up"@
}

/// A reader of the parquet crate over the batches of rows of a columnar
/// file held in memory.
#[verifier::external_body]
pub struct BatchReader {
    inner: parquet::arrow::arrow_reader::ParquetRecordBatchReader,
}

/// Why the parquet crate cannot make a reader for the bytes of a file, if
/// it cannot: the step that failed and the message of its error.
pub uninterp spec fn parquet_refusal(data: Seq<u8>) -> Option<(ParquetStage, Seq<char>)>;

/// What a new reader of the parquet crate yields for the bytes of a file,
/// call by call, until it yields nothing or fails, each batch as the arrow
/// crate writes it: the bytes of its rows, one JSON object per row and
/// line. A failure is the last item: the step that failed and the message
/// of its error. What a reader yields after a failure is not part of it.
pub uninterp spec fn parquet_batches(data: Seq<u8>) -> Seq<
    Result<Seq<u8>, (ParquetStage, Seq<char>)>,
>;

/// The bytes that a reader reads from, the number of items that it has
/// yielded, and whether one of them was a failure.
pub uninterp spec fn reader_progress(reader: BatchReader) -> (Seq<u8>, nat, bool);

/// `ParquetRecordBatchReaderBuilder::try_new` on bytes held in memory, and
/// `build`: a reader that has yielded nothing yet, or which of the two
/// failed and the message of its error. `try_new` reads the metadata with
/// `ArrowReaderMetadata::load` and the default options, and `build` adds
/// up the row counts of that metadata without a check: the call is only
/// for bytes whose row counts, as `parquet_rows` names them, can be added
/// up.
#[verifier::external_body]
fn open_batch_reader(data: Vec<u8>) -> (opened: Result<BatchReader, (ParquetStage, String)>)
    requires
        parquet_rows(data@) is Ok,
        rows_fit(parquet_rows(data@)->Ok_0),
    ensures
        match opened {
            Ok(reader) => parquet_refusal(data@) is None && reader_progress(reader) == (
                data@,
                0nat,
                false,
            ),
            Err((stage, message)) => parquet_refusal(data@) == Some((stage, message@)),
        },
{
    let inner = parquet::arrow::arrow_reader::ParquetRecordBatchReaderBuilder::try_new(
        bytes::Bytes::from(data),
    ).map_err(|e| (ParquetStage::Metadata, e.to_string()))?.build().map_err(
        |e| (ParquetStage::Reader, e.to_string()),
    )?;
    Ok(BatchReader { inner })
}

/// `Iterator::next` of `ParquetRecordBatchReader`, and `LineDelimitedWriter`
/// of the arrow crate on the batch that it yields: `write`, then `finish`,
/// into a buffer of bytes. Nothing once all batches were yielded. The call
/// is only for a reader that has not failed: nothing is said of what a
/// reader yields after a failure.
#[verifier::external_body]
fn next_batch_json(reader: &mut BatchReader) -> (item: Option<
    Result<Vec<u8>, (ParquetStage, String)>,
>)
    requires
        !reader_progress(*old(reader)).2,
    ensures
        reader_progress(*final(reader)).0 == reader_progress(*old(reader)).0,
        match item {
            Some(Ok(bytes)) => reader_progress(*old(reader)).1 < parquet_batches(
                reader_progress(*old(reader)).0,
            ).len() && parquet_batches(reader_progress(*old(reader)).0)[reader_progress(
                *old(reader),
            ).1 as int] == Ok::<Seq<u8>, (ParquetStage, Seq<char>)>(bytes@) && reader_progress(
                *final(reader),
            ).1 == reader_progress(*old(reader)).1 + 1 && !reader_progress(*final(reader)).2,
            Some(Err((stage, message))) => reader_progress(*old(reader)).1 < parquet_batches(
                reader_progress(*old(reader)).0,
            ).len() && parquet_batches(reader_progress(*old(reader)).0)[reader_progress(
                *old(reader),
            ).1 as int] == Err::<Seq<u8>, (ParquetStage, Seq<char>)>((stage, message@))
                && reader_progress(*final(reader)).2,
            None => reader_progress(*old(reader)).1 == parquet_batches(
                reader_progress(*old(reader)).0,
            ).len() && reader_progress(*final(reader)) == reader_progress(*old(reader)),
        },
{
    let batch = match reader.inner.next()? {
        Ok(batch) => batch,
        Err(e) => return Some(Err((ParquetStage::Batch, e.to_string()))),
    };
    let mut writer = arrow::json::LineDelimitedWriter::new(Vec::new());
    if let Err(e) = writer.write(&batch) {
        return Some(Err((ParquetStage::Write, e.to_string())));
    }
    if let Err(e) = writer.finish() {
        return Some(Err((ParquetStage::Finish, e.to_string())));
    }
    Some(Ok(writer.into_inner()))
}

/// The bytes of each of a sequence of buffers.
pub open spec fn byte_views(buffers: Seq<Vec<u8>>) -> Seq<Seq<u8>> {
    Seq::new(buffers.len(), |i: int| buffers[i]@)
}

/// The JSON of the first `n` of the items that a reader yields, in order;
/// or the first failure among them.
pub open spec fn json_batches_upto(
    items: Seq<Result<Seq<u8>, (ParquetStage, Seq<char>)>>,
    n: nat,
) -> Result<Seq<Seq<u8>>, (ParquetStage, Seq<char>)>
    decreases n,
{
    if n == 0 {
        Ok(Seq::empty())
    } else {
        match json_batches_upto(items, (n - 1) as nat) {
            Err(failure) => Err(failure),
            Ok(done) => match items[n - 1] {
                Ok(bytes) => Ok(done.push(bytes)),
                Err(failure) => Err(failure),
            },
        }
    }
}

/// What decoding makes of the bytes of a columnar file: for each batch of
/// rows, in order, the bytes of its rows as one JSON object per line; or
/// the step that failed first and the message of its error. The metadata is
/// read first; row counts that cannot be added up are a failure of their
/// own, and no reader is made for them.
pub open spec fn parquet_json_batches(data: Seq<u8>) -> Result<
    Seq<Seq<u8>>,
    (ParquetStage, Seq<char>),
> {
    match parquet_rows(data) {
        Err(message) => Err((ParquetStage::Metadata, message)),
        Ok(rows) => if !rows_fit(rows) {
            Err((ParquetStage::RowCounts, row_counts_message()))
        } else {
            match parquet_refusal(data) {
                Some(refusal) => Err(refusal),
                None => json_batches_upto(parquet_batches(data), parquet_batches(data).len()),
            }
        },
    }
}

/// A failure among the first items is the failure of all.
proof fn lemma_json_batches_fail(
    items: Seq<Result<Seq<u8>, (ParquetStage, Seq<char>)>>,
    m: nat,
    n: nat,
)
    requires
        m <= n,
        json_batches_upto(items, m) is Err,
    ensures
        json_batches_upto(items, n) == json_batches_upto(items, m),
    decreases n,
{
    if m < n {
        lemma_json_batches_fail(items, m, (n - 1) as nat);
    }
}

/// Decode the bytes of a columnar file into the JSON of its batches: the
/// row counts of the metadata are read and tested before a reader is made,
/// and reading stops at the first failure.
fn decode_json_batches(data: Vec<u8>) -> (batches: Result<Vec<Vec<u8>>, (ParquetStage, String)>)
    ensures
        match batches {
            Ok(decoded) => parquet_json_batches(data@) == Ok::<
                Seq<Seq<u8>>,
                (ParquetStage, Seq<char>),
            >(byte_views(decoded@)),
            Err((stage, message)) => parquet_json_batches(data@) == Err::<
                Seq<Seq<u8>>,
                (ParquetStage, Seq<char>),
            >((stage, message@)),
        },
{
    let ghost source = data@;
    let ghost items = parquet_batches(source);
    let (held, counted) = file_row_counts(data);
    let rows = match counted {
        Ok(rows) => rows,
        Err(message) => {
            return Err((ParquetStage::Metadata, message));
        },
    };
    if !row_counts_fit(&rows) {
        return Err(
            (ParquetStage::RowCounts, "row counts are negative or too large to add up".to_owned()),
        );
    }
    let mut reader = match open_batch_reader(held) {
        Ok(reader) => reader,
        Err(refusal) => {
            return Err(refusal);
        },
    };
    let mut decoded: Vec<Vec<u8>> = Vec::new();
    proof {
        assert(byte_views(decoded@) =~= Seq::<Seq<u8>>::empty());
    }
    loop
        invariant
            source == data@,
            items == parquet_batches(source),
            parquet_rows(source) is Ok,
            rows_fit(parquet_rows(source)->Ok_0),
            parquet_refusal(source) is None,
            reader_progress(reader) == (source, decoded@.len(), false),
            decoded@.len() <= items.len(),
            json_batches_upto(items, decoded@.len()) == Ok::<
                Seq<Seq<u8>>,
                (ParquetStage, Seq<char>),
            >(byte_views(decoded@)),
        decreases items.len() - decoded@.len(),
    {
        let ghost k = decoded@.len();
        let ghost before = decoded@;
        match next_batch_json(&mut reader) {
            None => {
                return Ok(decoded);
            },
            Some(Err(failure)) => {
                proof {
                    lemma_json_batches_fail(items, k + 1, items.len());
                }
                return Err(failure);
            },
            Some(Ok(bytes)) => {
                decoded.push(bytes);
                proof {
                    assert(byte_views(decoded@) =~= byte_views(before).push(bytes@));
                }
            },
        }
    }
}

/// The lines of the first `n` batches that are not blank, in order;
/// nothing when one of these batches is not valid UTF-8.
pub open spec fn batch_lines(batches: Seq<Seq<u8>>, n: nat) -> Option<Seq<Seq<char>>>
    decreases n,
{
    if n == 0 {
        Some(Seq::empty())
    } else {
        match batch_lines(batches, (n - 1) as nat) {
            Some(earlier) => if valid_utf8(batches[n - 1]) {
                Some(earlier + non_blank_lines(decode_utf8(batches[n - 1])))
            } else {
                None
            },
            None => None,
        }
    }
}

/// Every line of decoded batches stands alone.
proof fn lemma_batch_lines_stand_alone(batches: Seq<Seq<u8>>, n: nat)
    requires
        batch_lines(batches, n) is Some,
    ensures
        forall|i: int|
            0 <= i < batch_lines(batches, n)->Some_0.len() ==> stands_alone(
                #[trigger] batch_lines(batches, n)->Some_0[i],
            ),
    decreases n,
{
    if n > 0 {
        lemma_batch_lines_stand_alone(batches, (n - 1) as nat);
        lemma_non_blank_lines_stand_alone(decode_utf8(batches[n - 1]));
    }
}

/// The lines of decoded batches are the records of the dataset that is
/// made of them: it has as many records as there are lines, in their
/// order, and each record reads back as its line.
pub proof fn lemma_decoded_lines_are_records(batches: Seq<Seq<u8>>, lines: Seq<String>)
    requires
        batch_lines(batches, batches.len()) == Some(texts(lines)),
        lines.len() >= 1,
    ensures
        record_count(joined_lines(lines, lines.len())) == lines.len(),
        forall|i: int|
            0 <= i < lines.len() ==> #[trigger] record(joined_lines(lines, lines.len()), i)
                == encode_utf8(lines[i]@),
        forall|i: int|
            0 <= i < lines.len() ==> valid_utf8(
                #[trigger] record(joined_lines(lines, lines.len()), i),
            ),
{
    lemma_batch_lines_stand_alone(batches, batches.len());
    let kept = batch_lines(batches, batches.len())->Some_0;
    assert forall|i: int| 0 <= i < lines.len() implies stands_alone(#[trigger] lines[i]@) by {
        assert(kept[i] == lines[i]@);
        assert(stands_alone(kept[i]));
    }
    lemma_standing_lines_are_records(lines);
}

/// The lines of decoded batches that are not blank, in order.
pub fn lines_of_batches(batches: &Vec<Vec<u8>>) -> (lines: Result<Vec<String>, StreamError>)
    ensures
        match lines {
            Ok(lines) => batch_lines(byte_views(batches@), batches@.len()) == Some(
                texts(lines@),
            ),
            Err(StreamError::InvalidUtf8) => batch_lines(byte_views(batches@), batches@.len())
                is None,
            Err(_) => false,
        },
{
    let mut lines: Vec<String> = Vec::new();
    proof {
        assert(texts(lines@) =~= Seq::<Seq<char>>::empty());
    }
    let mut i: usize = 0;
    while i < batches.len()
        invariant
            i <= batches@.len(),
            batch_lines(byte_views(batches@), i as nat) == Some(texts(lines@)),
        decreases batches@.len() - i,
    {
        match str_from_utf8(batches[i].as_slice()) {
            Some(text) => {
                proof {
                    vstd::utf8::encode_utf8_decode_utf8(text@);
                }
                let mut more = split_non_blank_lines(text);
                let ghost before = lines@;
                let ghost added = more@;
                lines.append(&mut more);
                proof {
                    assert(texts(lines@) =~= texts(before) + texts(added));
                }
            },
            None => {
                proof {
                    lemma_batch_lines_fail(
                        byte_views(batches@),
                        (i + 1) as nat,
                        batches@.len(),
                    );
                }
                return Err(StreamError::InvalidUtf8);
            },
        }
        i = i + 1;
    }
    Ok(lines)
}

proof fn lemma_batch_lines_fail(batches: Seq<Seq<u8>>, m: nat, n: nat)
    requires
        m <= n,
        batch_lines(batches, m) is None,
    ensures
        batch_lines(batches, n) is None,
    decreases n,
{
    if m < n {
        lemma_batch_lines_fail(batches, m, (n - 1) as nat);
    }
}

/// Decode the bytes of a columnar file, or of a slice of one that holds
/// row groups and footer, into its rows as lines of JSON.
pub fn bytes_to_jsonl(data: Vec<u8>) -> (lines: Result<Vec<String>, StreamError>)
    ensures
        match lines {
            Ok(lines) => parquet_json_batches(data@) is Ok && batch_lines(
                parquet_json_batches(data@)->Ok_0,
                parquet_json_batches(data@)->Ok_0.len(),
            ) == Some(texts(lines@)),
            Err(StreamError::InvalidUtf8) => parquet_json_batches(data@) is Ok && batch_lines(
                parquet_json_batches(data@)->Ok_0,
                parquet_json_batches(data@)->Ok_0.len(),
            ) is None,
            Err(StreamError::Decode { stage, message }) => parquet_json_batches(data@) == Err::<
                Seq<Seq<u8>>,
                (ParquetStage, Seq<char>),
            >((stage, message@)),
            Err(_) => false,
        },
{
    match decode_json_batches(data) {
        Ok(batches) => lines_of_batches(&batches),
        Err((stage, message)) => Err(StreamError::Decode { stage, message }),
    }
}

/// The dataset that a stream opened from `target` gives: the lines with a
/// newline between each two, under the path of the address, marked as
/// read from a columnar file.
pub fn stream_dataset(lines: &Vec<String>, target: &HfTarget) -> (dataset: Dataset)
    ensures
        dataset.bytes() == joined_lines(lines@, lines@.len()),
        dataset.path@ == "hf://"@ + target.org@ + "/"@ + target.dataset@,
        dataset.size == dataset.bytes().len(),
        dataset.format == InputFormat::Parquet,
{
    Dataset::from_lines(lines, target.dataset_path(), InputFormat::Parquet)
}

} // verus!
