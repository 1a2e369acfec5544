//! Request handling of the JSON-RPC server: what each method and tool
//! answers, as trees of JSON. Sockets and worker threads are not its business.

use vstd::prelude::*;
use vstd::utf8::{decode_utf8, valid_utf8};
use std::sync::Arc;
use crate::bounds::{minus, smaller};
use crate::data::{Dataset, record, record_count};
use crate::engine::{DedupResult, DedupStrategy, Fingerprint, hamming};
use crate::json::{
    item_trees, JsonTree, JsonValue, lemma_array_view, lemma_object_view, member_trees, number_tree,
};
use crate::pattern::{regex_compile, regex_error_message, regex_is_match, regex_matches, regex_new};
use crate::text::{decimal, push_decimal, push_str, str_equal};

verus! {

// ─── Envelopes ──────────────────────────────────────────────────────────────

/// A request.
pub struct JsonRpcRequest {
    pub jsonrpc: String,
    pub id: Option<JsonValue>,
    pub method: String,
    pub params: JsonValue,
}

/// The error of a response.
pub struct JsonRpcError {
    pub code: i32,
    pub message: String,
    pub data: Option<JsonValue>,
}

/// A response: either a result or an error.
pub struct JsonRpcResponse {
    pub jsonrpc: String,
    pub id: Option<JsonValue>,
    pub result: Option<JsonValue>,
    pub error: Option<JsonRpcError>,
}

/// The code for a method that does not exist.
pub const METHOD_NOT_FOUND: i32 = -32601;

/// The code for arguments that cannot be used.
pub const INVALID_PARAMS: i32 = -32602;

/// The code for a failure inside the server.
pub const INTERNAL_ERROR: i32 = -32603;

/// The version of the protocol that the server speaks.
pub open spec fn protocol_version() -> Seq<char> {
    "2024-11-05"@
}

impl JsonRpcResponse {
    /// Whether this is the success response to request `id` with this result.
    pub open spec fn is_success(&self, id: Option<JsonValue>, result: JsonTree) -> bool {
        &&& self.jsonrpc@ == "2.0"@
        &&& self.id == id
        &&& self.result is Some
        &&& self.result->Some_0@ == result
        &&& self.error is None
    }

    /// Whether this is the error response to request `id` with this code and message.
    pub open spec fn is_error(&self, id: Option<JsonValue>, code: int, message: Seq<char>) -> bool {
        &&& self.jsonrpc@ == "2.0"@
        &&& self.id == id
        &&& self.result is None
        &&& self.error is Some
        &&& self.error->Some_0.code == code
        &&& self.error->Some_0.message@ == message
        &&& self.error->Some_0.data is None
    }

    /// The response that carries a result.
    pub fn success(id: Option<JsonValue>, result: JsonValue) -> (response: Self)
        ensures
            response.is_success(id, result@),
    {
        JsonRpcResponse { jsonrpc: "2.0".to_owned(), id, result: Some(result), error: None }
    }

    /// The response that carries an error.
    pub fn error(id: Option<JsonValue>, code: i32, message: String) -> (response: Self)
        ensures
            response.is_error(id, code as int, message@),
    {
        JsonRpcResponse {
            jsonrpc: "2.0".to_owned(),
            id,
            result: None,
            error: Some(JsonRpcError { code, message, data: None }),
        }
    }
}

// ─── Building trees ─────────────────────────────────────────────────────────

/// The string with the characters of `text`.
fn text_value(text: &str) -> (value: JsonValue)
    ensures
        value@ == JsonTree::Text(text@),
{
    JsonValue::Text(text.to_owned())
}

/// The object with the given members, in order.
fn object(members: Vec<(String, JsonValue)>) -> (value: JsonValue)
    ensures
        value@ == JsonTree::Object(member_trees(members@)),
{
    proof {
        lemma_object_view(members);
    }
    JsonValue::Object(members)
}

/// The array with the given items, in order.
fn array(items: Vec<JsonValue>) -> (value: JsonValue)
    ensures
        value@ == JsonTree::Array(item_trees(items@)),
{
    proof {
        lemma_array_view(items);
    }
    JsonValue::Array(items)
}

/// The object with one member.
fn object1(key: &str, value: JsonValue) -> (made: JsonValue)
    ensures
        made@ == JsonTree::Object(seq![(key@, value@)]),
{
    let mut members: Vec<(String, JsonValue)> = Vec::new();
    members.push((key.to_owned(), value));
    proof {
        assert(member_trees(members@) =~= seq![(key@, value@)]);
    }
    object(members)
}

/// The object with two members.
fn object2(key1: &str, value1: JsonValue, key2: &str, value2: JsonValue) -> (made: JsonValue)
    ensures
        made@ == JsonTree::Object(seq![(key1@, value1@), (key2@, value2@)]),
{
    let mut members: Vec<(String, JsonValue)> = Vec::new();
    members.push((key1.to_owned(), value1));
    members.push((key2.to_owned(), value2));
    proof {
        assert(member_trees(members@) =~= seq![(key1@, value1@), (key2@, value2@)]);
    }
    object(members)
}

/// The object with three members.
fn object3(
    key1: &str,
    value1: JsonValue,
    key2: &str,
    value2: JsonValue,
    key3: &str,
    value3: JsonValue,
) -> (made: JsonValue)
    ensures
        made@ == JsonTree::Object(seq![(key1@, value1@), (key2@, value2@), (key3@, value3@)]),
{
    let mut members: Vec<(String, JsonValue)> = Vec::new();
    members.push((key1.to_owned(), value1));
    members.push((key2.to_owned(), value2));
    members.push((key3.to_owned(), value3));
    proof {
        assert(member_trees(members@) =~= seq![
            (key1@, value1@),
            (key2@, value2@),
            (key3@, value3@),
        ]);
    }
    object(members)
}

/// The array with one item.
fn array1(item: JsonValue) -> (made: JsonValue)
    ensures
        made@ == JsonTree::Array(seq![item@]),
{
    let mut items: Vec<JsonValue> = Vec::new();
    items.push(item);
    proof {
        assert(item_trees(items@) =~= seq![item@]);
    }
    array(items)
}

/// A block of text content: `{type: "text", text}`.
pub open spec fn text_block(text: Seq<char>) -> JsonTree {
    JsonTree::Object(seq![("type"@, JsonTree::Text("text"@)), ("text"@, JsonTree::Text(text))])
}

/// The result of a tool that answers with one block of text.
pub open spec fn text_result(text: Seq<char>) -> JsonTree {
    JsonTree::Object(seq![("content"@, JsonTree::Array(seq![text_block(text)]))])
}

/// The result of a tool that answers with one block of text and metadata.
pub open spec fn text_result_with(text: Seq<char>, metadata: JsonTree) -> JsonTree {
    JsonTree::Object(
        seq![("content"@, JsonTree::Array(seq![text_block(text)])), ("metadata"@, metadata)],
    )
}

/// The content array of one block of text.
fn content_of(text: &str) -> (content: JsonValue)
    ensures
        content@ == JsonTree::Array(seq![text_block(text@)]),
{
    array1(object2("type", text_value("text"), "text", text_value(text)))
}

// ─── State ──────────────────────────────────────────────────────────────────

/// What the server answers from: the dataset, the path it is shown under,
/// and its size as shown to people.
pub struct McpState {
    pub dataset: Arc<Dataset>,
    pub dataset_path: String,
    pub size_human: String,
}

/// The name of the server.
pub const SERVER_NAME: &'static str = "caret";

/// The version of the server.
pub const SERVER_VERSION: &'static str = "0.4.0";

/// The largest number of lines that `get_lines` hands out at once.
pub const MAX_LINES: u64 = 500;

/// The number of lines that `resources/read` hands out.
pub const PREVIEW_LINES: usize = 100;

/// The largest number of sample pairs that `dedup_scan` hands out.
pub const MAX_SAMPLE_PAIRS: usize = 5;

// ─── Arguments ──────────────────────────────────────────────────────────────

/// The unsigned integer under `key`, or `default` when there is none.
pub open spec fn arg_u64(args: JsonTree, key: Seq<char>, default: u64) -> u64 {
    match args.get(key) {
        Some(value) => match value.as_u64() {
            Some(n) => n,
            None => default,
        },
        None => default,
    }
}

/// The string under `key`, if there is one.
pub open spec fn arg_text(args: JsonTree, key: Seq<char>) -> Option<Seq<char>> {
    match args.get(key) {
        Some(value) => value.as_text(),
        None => None,
    }
}

fn read_u64(args: &JsonValue, key: &str, default: u64) -> (n: u64)
    ensures
        n == arg_u64(args@, key@, default),
{
    match args.get(key) {
        Some(value) => match value.as_u64() {
            Some(n) => n,
            None => default,
        },
        None => default,
    }
}

fn read_text<'a>(args: &'a JsonValue, key: &str) -> (text: Option<&'a str>)
    ensures
        match text {
            Some(t) => arg_text(args@, key@) == Some(t@),
            None => arg_text(args@, key@) is None,
        },
{
    match args.get(key) {
        Some(value) => value.as_str(),
        None => None,
    }
}

// ─── initialize ─────────────────────────────────────────────────────────────

/// The result of `initialize`: protocol version, capabilities, and the
/// name and version of the server.
pub open spec fn initialize_result() -> JsonTree {
    JsonTree::Object(
        seq![
            ("protocolVersion"@, JsonTree::Text(protocol_version())),
            (
                "capabilities"@,
                JsonTree::Object(
                    seq![
                        (
                            "tools"@,
                            JsonTree::Object(seq![("listChanged"@, JsonTree::Bool(false))]),
                        ),
                        (
                            "resources"@,
                            JsonTree::Object(seq![("listChanged"@, JsonTree::Bool(false))]),
                        ),
                    ],
                ),
            ),
            (
                "serverInfo"@,
                JsonTree::Object(
                    seq![
                        ("name"@, JsonTree::Text(SERVER_NAME@)),
                        ("version"@, JsonTree::Text(SERVER_VERSION@)),
                    ],
                ),
            ),
        ],
    )
}

/// Answer `initialize`.
pub fn handle_initialize(id: Option<JsonValue>) -> (response: JsonRpcResponse)
    ensures
        response.is_success(id, initialize_result()),
{
    let capabilities = object2(
        "tools",
        object1("listChanged", JsonValue::Bool(false)),
        "resources",
        object1("listChanged", JsonValue::Bool(false)),
    );
    let server_info = object2(
        "name",
        text_value(SERVER_NAME),
        "version",
        text_value(SERVER_VERSION),
    );
    let result = object3(
        "protocolVersion",
        text_value("2024-11-05"),
        "capabilities",
        capabilities,
        "serverInfo",
        server_info,
    );
    JsonRpcResponse::success(id, result)
}

// ─── Reading lines ──────────────────────────────────────────────────────────

/// The text of record `i`; only meaningful for a record that is valid UTF-8.
pub open spec fn line_text(bytes: Seq<u8>, i: int) -> Seq<char> {
    decode_utf8(record(bytes, i))
}

/// The label of record `i` and its text: `L{i + 1}: {text}`.
pub open spec fn numbered_line(bytes: Seq<u8>, i: int) -> Seq<char> {
    "L"@ + decimal((i + 1) as nat) + ": "@ + line_text(bytes, i)
}

/// The records `from .. to` that can be read, each with its label, and a
/// newline between each two; and how many they are.
pub open spec fn numbered_block(bytes: Seq<u8>, from: int, to: int) -> (Seq<char>, nat)
    decreases to - from,
{
    if from >= to {
        (Seq::empty(), 0)
    } else {
        let before = numbered_block(bytes, from, to - 1);
        if valid_utf8(record(bytes, to - 1)) {
            if before.1 == 0 {
                (numbered_line(bytes, to - 1), 1)
            } else {
                (before.0 + "\n"@ + numbered_line(bytes, to - 1), before.1 + 1)
            }
        } else {
            before
        }
    }
}

/// The records `from .. to` that can be read, as they are, and a newline
/// between each two; and how many they are.
pub open spec fn plain_block(bytes: Seq<u8>, from: int, to: int) -> (Seq<char>, nat)
    decreases to - from,
{
    if from >= to {
        (Seq::empty(), 0)
    } else {
        let before = plain_block(bytes, from, to - 1);
        if valid_utf8(record(bytes, to - 1)) {
            if before.1 == 0 {
                (line_text(bytes, to - 1), 1)
            } else {
                (before.0 + "\n"@ + line_text(bytes, to - 1), before.1 + 1)
            }
        } else {
            before
        }
    }
}

/// A block of no records holds no text.
pub proof fn lemma_empty_blocks(bytes: Seq<u8>, from: int, to: int)
    ensures
        numbered_block(bytes, from, to).1 == 0 ==> numbered_block(bytes, from, to).0
            == Seq::<char>::empty(),
        plain_block(bytes, from, to).1 == 0 ==> plain_block(bytes, from, to).0 == Seq::<
            char,
        >::empty(),
    decreases to - from,
{
    if from < to {
        lemma_empty_blocks(bytes, from, to - 1);
    }
}

/// Append `L{i + 1}: {line}` to `text`.
fn push_numbered(text: &mut String, i: usize, line: &str)
    ensures
        final(text)@ == old(text)@ + "L"@ + decimal((i + 1) as nat) + ": "@ + line@,
{
    push_str(text, "L");
    push_decimal(text, i as u128 + 1);
    push_str(text, ": ");
    push_str(text, line);
}

/// The text that `get_lines` answers with for `count` records from `start`.
pub open spec fn get_lines_text(bytes: Seq<u8>, start: int, count: int) -> Seq<char> {
    let total = record_count(bytes) as int;
    let end = smaller(start + count, total);
    let block = numbered_block(bytes, start, end);
    if block.1 == 0 {
        "No lines found at index "@ + decimal(start as nat) + " (dataset has "@ + decimal(
            total as nat,
        ) + " lines)"@
    } else {
        "Lines "@ + decimal((start + 1) as nat) + "-"@ + decimal(end as nat) + " of "@ + decimal(
            total as nat,
        ) + ":\n\n"@ + block.0
    }
}

/// `get_lines`: the records of a range, each with its label. The range
/// starts at `start`, or at the first record when none is given, and holds
/// `count` records, ten when none is given and never more than 500.
pub fn tool_get_lines(id: Option<JsonValue>, args: &JsonValue, state: &McpState) -> (response:
    JsonRpcResponse)
    ensures
        response.is_success(
            id,
            text_result(
                get_lines_text(
                    state.dataset.bytes(),
                    arg_u64(args@, "start"@, 0) as usize as int,
                    smaller(arg_u64(args@, "count"@, 10) as usize as int, MAX_LINES as int),
                ),
            ),
        ),
{
    let start: usize = #[verifier::truncate]
    (read_u64(args, "start", 0) as usize);
    let asked: usize = #[verifier::truncate]
    (read_u64(args, "count", 10) as usize);
    let count: usize = if asked < 500 {
        asked
    } else {
        500
    };
    let total: usize = state.dataset.line_count();
    let reach: usize = start.saturating_add(count);
    let end: usize = if reach < total {
        reach
    } else {
        total
    };
    let ghost bytes = state.dataset.bytes();
    let mut body = String::new();
    let mut found: usize = 0;
    let mut i: usize = start;
    while i < end
        invariant
            end <= total,
            total == record_count(bytes),
            bytes == state.dataset.bytes(),
            start <= i <= end || end <= start == i,
            found <= i - start,
            (body@, found as nat) == numbered_block(bytes, start as int, i as int),
        decreases end - i,
    {
        match state.dataset.get_line(i) {
            Some(line) => {
                proof {
                    vstd::utf8::encode_utf8_decode_utf8(line@);
                }
                if found > 0 {
                    push_str(&mut body, "\n");
                }
                let ghost before = body@;
                push_numbered(&mut body, i, line);
                proof {
                    lemma_empty_blocks(bytes, start as int, i as int);
                    assert(body@ =~= before + numbered_line(bytes, i as int));
                    if found == 0 {
                        assert(before =~= Seq::<char>::empty());
                        assert(body@ =~= numbered_line(bytes, i as int));
                    }
                }
                found = found + 1;
            },
            None => {},
        }
        i = i + 1;
    }
    let mut text: String;
    if found == 0 {
        text = "No lines found at index ".to_owned();
        push_decimal(&mut text, start as u128);
        push_str(&mut text, " (dataset has ");
        push_decimal(&mut text, total as u128);
        push_str(&mut text, " lines)");
    } else {
        text = "Lines ".to_owned();
        push_decimal(&mut text, start as u128 + 1);
        push_str(&mut text, "-");
        push_decimal(&mut text, end as u128);
        push_str(&mut text, " of ");
        push_decimal(&mut text, total as u128);
        push_str(&mut text, ":\n\n");
        push_str(&mut text, body.as_str());
    }
    JsonRpcResponse::success(id, object1("content", content_of(text.as_str())))
}

// ─── dataset_info and resources ─────────────────────────────────────────────

/// The name of the format of a dataset.
pub open spec fn format_label(dataset: Dataset) -> Seq<char> {
    match dataset.format {
        crate::format::InputFormat::Jsonl => "JSONL"@,
        crate::format::InputFormat::Parquet => "Parquet"@,
        crate::format::InputFormat::Csv => "CSV"@,
    }
}

/// The text that `dataset_info` answers with.
pub open spec fn dataset_info_text(state: McpState) -> Seq<char> {
    "Dataset: "@ + state.dataset_path@ + "\nFormat: "@ + format_label(*state.dataset)
        + "\nLines: "@ + decimal(record_count(state.dataset.bytes())) + "\nSize: "@
        + state.size_human@ + " ("@ + decimal(state.dataset.size as nat) + " bytes)"@
}

/// The metadata that `dataset_info` answers with.
pub open spec fn dataset_info_metadata(state: McpState) -> JsonTree {
    JsonTree::Object(
        seq![
            ("path"@, JsonTree::Text(state.dataset_path@)),
            ("format"@, JsonTree::Text(format_label(*state.dataset))),
            ("line_count"@, number_tree(record_count(state.dataset.bytes()) as u64)),
            ("size_bytes"@, number_tree(state.dataset.size)),
            ("size_human"@, JsonTree::Text(state.size_human@)),
        ],
    )
}

/// `dataset_info`: path, format, number of records and size of the dataset.
pub fn tool_dataset_info(id: Option<JsonValue>, state: &McpState) -> (response: JsonRpcResponse)
    ensures
        response.is_success(
            id,
            text_result_with(dataset_info_text(*state), dataset_info_metadata(*state)),
        ),
{
    let dataset: &Dataset = &state.dataset;
    let count: usize = dataset.line_count();
    let mut members: Vec<(String, JsonValue)> = Vec::new();
    members.push(("path".to_owned(), text_value(state.dataset_path.as_str())));
    members.push(("format".to_owned(), text_value(dataset.format_name())));
    members.push(("line_count".to_owned(), JsonValue::from_u64(count as u64)));
    members.push(("size_bytes".to_owned(), JsonValue::from_u64(dataset.size)));
    members.push(("size_human".to_owned(), text_value(state.size_human.as_str())));
    proof {
        assert(member_trees(members@) =~= dataset_info_metadata(*state)->Object_0);
    }
    let info = object(members);
    let mut text = "Dataset: ".to_owned();
    push_str(&mut text, state.dataset_path.as_str());
    push_str(&mut text, "\nFormat: ");
    push_str(&mut text, dataset.format_name());
    push_str(&mut text, "\nLines: ");
    push_decimal(&mut text, count as u128);
    push_str(&mut text, "\nSize: ");
    push_str(&mut text, state.size_human.as_str());
    push_str(&mut text, " (");
    push_decimal(&mut text, dataset.size as u128);
    push_str(&mut text, " bytes)");
    JsonRpcResponse::success(
        id,
        object2("content", content_of(text.as_str()), "metadata", info),
    )
}

/// The address of the dataset as a resource.
pub open spec fn resource_uri(state: McpState) -> Seq<char> {
    "caret://dataset/"@ + state.dataset_path@
}

/// The result of `resources/list`: the dataset as the one resource.
pub open spec fn resources_list_result(state: McpState) -> JsonTree {
    JsonTree::Object(
        seq![
            (
                "resources"@,
                JsonTree::Array(
                    seq![
                        JsonTree::Object(
                            seq![
                                ("uri"@, JsonTree::Text(resource_uri(state))),
                                ("name"@, JsonTree::Text("Dataset: "@ + state.dataset_path@)),
                                (
                                    "description"@,
                                    JsonTree::Text(
                                        format_label(*state.dataset) + " file with "@ + decimal(
                                            record_count(state.dataset.bytes()),
                                        ) + " lines ("@ + state.size_human@ + ")"@,
                                    ),
                                ),
                                ("mimeType"@, JsonTree::Text("application/jsonl"@)),
                            ],
                        ),
                    ],
                ),
            ),
        ],
    )
}

/// Answer `resources/list`.
pub fn handle_resources_list(id: Option<JsonValue>, state: &McpState) -> (response:
    JsonRpcResponse)
    ensures
        response.is_success(id, resources_list_result(*state)),
{
    let dataset: &Dataset = &state.dataset;
    let mut uri = "caret://dataset/".to_owned();
    push_str(&mut uri, state.dataset_path.as_str());
    let mut name = "Dataset: ".to_owned();
    push_str(&mut name, state.dataset_path.as_str());
    let mut description = dataset.format_name().to_owned();
    push_str(&mut description, " file with ");
    push_decimal(&mut description, dataset.line_count() as u128);
    push_str(&mut description, " lines (");
    push_str(&mut description, state.size_human.as_str());
    push_str(&mut description, ")");
    let mut members: Vec<(String, JsonValue)> = Vec::new();
    members.push(("uri".to_owned(), text_value(uri.as_str())));
    members.push(("name".to_owned(), text_value(name.as_str())));
    members.push(("description".to_owned(), text_value(description.as_str())));
    members.push(("mimeType".to_owned(), text_value("application/jsonl")));
    proof {
        assert(member_trees(members@)
            =~= resources_list_result(*state)->Object_0[0].1->Array_0[0]->Object_0);
    }
    JsonRpcResponse::success(id, object1("resources", array1(object(members))))
}

/// The result of `resources/read`: the first hundred records that can be
/// read, a newline between each two.
pub open spec fn resources_read_result(state: McpState) -> JsonTree {
    JsonTree::Object(
        seq![
            (
                "contents"@,
                JsonTree::Array(
                    seq![
                        JsonTree::Object(
                            seq![
                                ("uri"@, JsonTree::Text(resource_uri(state))),
                                ("mimeType"@, JsonTree::Text("application/jsonl"@)),
                                (
                                    "text"@,
                                    JsonTree::Text(
                                        plain_block(
                                            state.dataset.bytes(),
                                            0,
                                            smaller(
                                                PREVIEW_LINES as int,
                                                record_count(state.dataset.bytes()) as int,
                                            ),
                                        ).0,
                                    ),
                                ),
                            ],
                        ),
                    ],
                ),
            ),
        ],
    )
}

/// Answer `resources/read`, whatever address is asked for.
pub fn handle_resources_read(id: Option<JsonValue>, state: &McpState) -> (response:
    JsonRpcResponse)
    ensures
        response.is_success(id, resources_read_result(*state)),
{
    let dataset: &Dataset = &state.dataset;
    let total: usize = dataset.line_count();
    let end: usize = if PREVIEW_LINES < total {
        PREVIEW_LINES
    } else {
        total
    };
    let ghost bytes = state.dataset.bytes();
    let mut text = String::new();
    let mut found: usize = 0;
    let mut i: usize = 0;
    while i < end
        invariant
            i <= end <= total,
            total == record_count(bytes),
            bytes == state.dataset.bytes(),
            found <= i,
            (text@, found as nat) == plain_block(bytes, 0, i as int),
        decreases end - i,
    {
        match state.dataset.get_line(i) {
            Some(line) => {
                proof {
                    vstd::utf8::encode_utf8_decode_utf8(line@);
                }
                if found > 0 {
                    push_str(&mut text, "\n");
                }
                let ghost before = text@;
                push_str(&mut text, line);
                proof {
                    lemma_empty_blocks(bytes, 0, i as int);
                    assert(line@ == line_text(bytes, i as int));
                    assert(text@ =~= before + line_text(bytes, i as int));
                    if found == 0 {
                        assert(before =~= Seq::<char>::empty());
                        assert(text@ =~= line_text(bytes, i as int));
                    }
                }
                found = found + 1;
            },
            None => {},
        }
        i = i + 1;
    }
    let mut uri = "caret://dataset/".to_owned();
    push_str(&mut uri, state.dataset_path.as_str());
    JsonRpcResponse::success(
        id,
        object1(
            "contents",
            array1(
                object3(
                    "uri",
                    text_value(uri.as_str()),
                    "mimeType",
                    text_value("application/jsonl"),
                    "text",
                    text_value(text.as_str()),
                ),
            ),
        ),
    )
}

// ─── search_dataset ─────────────────────────────────────────────────────────

/// The mark in front of a line of context: an arrow for the line that
/// matched, blanks for the others.
pub open spec fn context_mark(hit: bool) -> Seq<char> {
    if hit {
        ">>>"@
    } else {
        "   "@
    }
}

/// The records `from .. to` that can be read, as context of the match at
/// record `i`: each with its mark and its label, and a newline after each.
pub open spec fn context_block(bytes: Seq<u8>, i: int, from: int, to: int) -> Seq<char>
    decreases to - from,
{
    if from >= to {
        Seq::empty()
    } else {
        let before = context_block(bytes, i, from, to - 1);
        if valid_utf8(record(bytes, to - 1)) {
            before + context_mark(to - 1 == i) + " "@ + numbered_line(bytes, to - 1) + "\n"@
        } else {
            before
        }
    }
}

/// What a match at record `i` is shown as: the record itself, or with
/// `context` records before and after it when context is asked for.
pub open spec fn match_text(bytes: Seq<u8>, i: int, context: int) -> Seq<char> {
    if context > 0 {
        context_block(
            bytes,
            i,
            minus(i, context),
            smaller(smaller(i + context, usize::MAX as int) + 1, record_count(bytes) as int),
        )
    } else {
        line_text(bytes, i)
    }
}

/// Whether record `i` can be read and the pattern matches in it.
pub open spec fn is_hit(bytes: Seq<u8>, pattern: Seq<char>, i: int) -> bool {
    valid_utf8(record(bytes, i)) && regex_matches(pattern, line_text(bytes, i))
}

/// The matches among the first `n` records, in record order and `max` at most.
pub open spec fn search_upto(bytes: Seq<u8>, pattern: Seq<char>, max: int, context: int, n: nat) -> Seq<
    (int, Seq<char>),
>
    decreases n,
{
    if n == 0 {
        Seq::empty()
    } else {
        let before = search_upto(bytes, pattern, max, context, (n - 1) as nat);
        if before.len() < max && is_hit(bytes, pattern, n - 1) {
            before.push((n - 1, match_text(bytes, n - 1, context)))
        } else {
            before
        }
    }
}

/// Record index and text of each match.
pub open spec fn match_views(matches: Seq<(usize, String)>) -> Seq<(int, Seq<char>)> {
    Seq::new(matches.len(), |k: int| (matches[k].0 as int, matches[k].1@))
}

/// What a search hands out: `max` matches at most, in record order, each
/// at a record in which the pattern matches, with the text of that match.
pub proof fn lemma_search_upto_bound(
    bytes: Seq<u8>,
    pattern: Seq<char>,
    max: int,
    context: int,
    n: nat,
)
    ensures
        search_upto(bytes, pattern, max, context, n).len() <= n,
        max >= 0 ==> search_upto(bytes, pattern, max, context, n).len() <= max,
        forall|k: int|
            0 <= k < search_upto(bytes, pattern, max, context, n).len() ==> {
                let found = #[trigger] search_upto(bytes, pattern, max, context, n)[k];
                &&& 0 <= found.0 < n
                &&& is_hit(bytes, pattern, found.0)
                &&& found.1 == match_text(bytes, found.0, context)
            },
        forall|j: int, k: int|
            0 <= j < k < search_upto(bytes, pattern, max, context, n).len() ==> (
            #[trigger] search_upto(bytes, pattern, max, context, n)[j]).0 < (
            #[trigger] search_upto(bytes, pattern, max, context, n)[k]).0,
    decreases n,
{
    if n > 0 {
        lemma_search_upto_bound(bytes, pattern, max, context, (n - 1) as nat);
    }
}

/// The context of the match at record `i`.
fn context_of(dataset: &Dataset, i: usize, context_lines: usize) -> (text: String)
    requires
        i < record_count(dataset.bytes()),
        context_lines > 0,
    ensures
        text@ == match_text(dataset.bytes(), i as int, context_lines as int),
{
    let total: usize = dataset.line_count();
    let start: usize = i.saturating_sub(context_lines);
    let reach: usize = i.saturating_add(context_lines);
    let end: usize = if reach < total {
        reach + 1
    } else {
        total
    };
    let ghost bytes = dataset.bytes();
    let mut text = String::new();
    let mut j: usize = start;
    while j < end
        invariant
            start <= j <= end <= total,
            total == record_count(bytes),
            bytes == dataset.bytes(),
            text@ == context_block(bytes, i as int, start as int, j as int),
        decreases end - j,
    {
        match dataset.get_line(j) {
            Some(line) => {
                proof {
                    vstd::utf8::encode_utf8_decode_utf8(line@);
                }
                let ghost before = text@;
                if j == i {
                    push_str(&mut text, ">>>");
                } else {
                    push_str(&mut text, "   ");
                }
                push_str(&mut text, " ");
                push_numbered(&mut text, j, line);
                push_str(&mut text, "\n");
                proof {
                    assert(text@ =~= before + context_mark(j == i) + " "@ + numbered_line(
                        bytes,
                        j as int,
                    ) + "\n"@);
                }
            },
            None => {},
        }
        j = j + 1;
    }
    text
}

/// Search the records of a dataset for a pattern: the first `max_results`
/// records in which it matches, each with its index and its text; or the
/// message of the error when the pattern does not compile.
pub fn search_dataset_impl(
    dataset: &Dataset,
    pattern: &str,
    max_results: usize,
    context_lines: usize,
) -> (found: Result<Vec<(usize, String)>, String>)
    ensures
        match found {
            Ok(matches) => regex_compile(pattern@) is None && match_views(matches@) == search_upto(
                dataset.bytes(),
                pattern@,
                max_results as int,
                context_lines as int,
                record_count(dataset.bytes()),
            ),
            Err(message) => regex_compile(pattern@) == Some(message@),
        },
{
    let re = match regex_new(pattern) {
        Ok(re) => re,
        Err(error) => {
            return Err(regex_error_message(&error));
        },
    };
    let mut matches: Vec<(usize, String)> = Vec::new();
    let line_count: usize = dataset.line_count();
    let ghost bytes = dataset.bytes();
    proof {
        assert(match_views(matches@) =~= Seq::<(int, Seq<char>)>::empty());
    }
    let mut i: usize = 0;
    while i < line_count
        invariant
            i <= line_count,
            line_count == record_count(bytes),
            bytes == dataset.bytes(),
            crate::pattern::regex_pattern(re) == pattern@,
            match_views(matches@) == search_upto(
                bytes,
                pattern@,
                max_results as int,
                context_lines as int,
                i as nat,
            ),
        decreases line_count - i,
    {
        if matches.len() < max_results {
            match dataset.get_line(i) {
                Some(line) => {
                    proof {
                        vstd::utf8::encode_utf8_decode_utf8(line@);
                    }
                    if regex_is_match(&re, line) {
                        let shown: String = if context_lines > 0 {
                            context_of(dataset, i, context_lines)
                        } else {
                            line.to_owned()
                        };
                        let ghost before = matches@;
                        matches.push((i, shown));
                        proof {
                            assert(match_views(matches@) =~= match_views(before).push(
                                (i as int, shown@),
                            ));
                        }
                    }
                },
                None => {},
            }
        }
        i = i + 1;
    }
    Ok(matches)
}

/// The matches as lines of text: each with the label of its record, and a
/// newline between each two.
pub open spec fn matches_body(matches: Seq<(int, Seq<char>)>, n: nat) -> Seq<char>
    decreases n,
{
    if n == 0 {
        Seq::empty()
    } else if n == 1 {
        "L"@ + decimal((matches[0].0 + 1) as nat) + ": "@ + matches[0].1
    } else {
        matches_body(matches, (n - 1) as nat) + "\n"@ + "L"@ + decimal(
            (matches[n - 1].0 + 1) as nat,
        ) + ": "@ + matches[n - 1].1
    }
}

/// The text that `search_dataset` answers with.
pub open spec fn search_text(query: Seq<char>, total: nat, matches: Seq<(int, Seq<char>)>) -> Seq<
    char,
> {
    if matches.len() == 0 {
        "No matches found for pattern: `"@ + query + "`"@
    } else {
        "Found "@ + decimal(matches.len()) + " match(es) for `"@ + query + "` in "@ + decimal(
            total,
        ) + " lines:\n\n"@ + matches_body(matches, matches.len())
    }
}

/// The response of `search_dataset` to the outcome of a search: the
/// matches as text, or an internal error with the message of the search.
pub fn search_response(
    id: Option<JsonValue>,
    query: &str,
    total_lines: usize,
    outcome: &Result<Vec<(usize, String)>, String>,
) -> (response: JsonRpcResponse)
    ensures
        match outcome {
            Ok(matches) => response.is_success(
                id,
                text_result(search_text(query@, total_lines as nat, match_views(matches@))),
            ),
            Err(message) => response.is_error(
                id,
                INTERNAL_ERROR as int,
                "Search error: "@ + message@,
            ),
        },
{
    match outcome {
        Err(message) => {
            let mut text = "Search error: ".to_owned();
            push_str(&mut text, message.as_str());
            JsonRpcResponse::error(id, INTERNAL_ERROR, text)
        },
        Ok(matches) => {
            let mut text: String;
            if matches.len() == 0 {
                text = "No matches found for pattern: `".to_owned();
                push_str(&mut text, query);
                push_str(&mut text, "`");
            } else {
                let ghost views = match_views(matches@);
                let mut body = String::new();
                let mut k: usize = 0;
                while k < matches.len()
                    invariant
                        k <= matches@.len(),
                        views == match_views(matches@),
                        body@ == matches_body(views, k as nat),
                    decreases matches@.len() - k,
                {
                    let ghost before = body@;
                    if k > 0 {
                        push_str(&mut body, "\n");
                    }
                    push_numbered(&mut body, matches[k].0, matches[k].1.as_str());
                    proof {
                        assert(views[k as int] == (matches@[k as int].0 as int, matches@[k as int].1@));
                        if k == 0 {
                            assert(body@ =~= "L"@ + decimal((views[0].0 + 1) as nat) + ": "@
                                + views[0].1);
                        } else {
                            assert(body@ =~= before + "\n"@ + "L"@ + decimal(
                                (views[k as int].0 + 1) as nat,
                            ) + ": "@ + views[k as int].1);
                        }
                    }
                    k = k + 1;
                }
                text = "Found ".to_owned();
                push_decimal(&mut text, matches.len() as u128);
                push_str(&mut text, " match(es) for `");
                push_str(&mut text, query);
                push_str(&mut text, "` in ");
                push_decimal(&mut text, total_lines as u128);
                push_str(&mut text, " lines:\n\n");
                push_str(&mut text, body.as_str());
            }
            JsonRpcResponse::success(id, object1("content", content_of(text.as_str())))
        },
    }
}

/// The response for a search or a scan whose worker did not come back.
pub fn failed_job_response(id: Option<JsonValue>, what: &str, cause: &str) -> (response:
    JsonRpcResponse)
    ensures
        response.is_error(id, INTERNAL_ERROR as int, what@ + cause@),
{
    let mut text = what.to_owned();
    push_str(&mut text, cause);
    JsonRpcResponse::error(id, INTERNAL_ERROR, text)
}

// ─── dedup_scan ─────────────────────────────────────────────────────────────

/// A duplicate and the record it duplicates, counted from one, and the
/// distance of their fingerprints.
#[derive(Debug, Clone, Copy, PartialEq, Eq, Structural)]
pub struct SamplePair {
    pub duplicate_line: usize,
    pub original_line: usize,
    pub hamming_distance: u32,
}

/// The pair for the duplicate at record `i`.
pub open spec fn pair_at(result: DedupResult, i: int) -> SamplePair {
    SamplePair {
        duplicate_line: (i + 1) as usize,
        original_line: (result.canonical_map@[i] + 1) as usize,
        hamming_distance: hamming(
            result.fingerprints@[i].0,
            result.fingerprints@[result.canonical_map@[i] as int].0,
        ) as u32,
    }
}

/// The pairs of the duplicates among the first `n` records, in record
/// order and five at most.
pub open spec fn sample_pairs_upto(result: DedupResult, n: nat) -> Seq<SamplePair>
    decreases n,
{
    if n == 0 {
        Seq::empty()
    } else {
        let before = sample_pairs_upto(result, (n - 1) as nat);
        if before.len() < MAX_SAMPLE_PAIRS && result.duplicates@[n - 1] {
            before.push(pair_at(result, n - 1))
        } else {
            before
        }
    }
}

/// The first five duplicates of a scan, each with the record it duplicates.
pub fn dedup_sample_pairs(result: &DedupResult) -> (pairs: Vec<SamplePair>)
    requires
        result.readable(),
    ensures
        pairs@ == sample_pairs_upto(*result, result.total_lines as nat),
{
    let mut pairs: Vec<SamplePair> = Vec::new();
    let mut i: usize = 0;
    while i < result.total_lines
        invariant
            i <= result.total_lines,
            result.readable(),
            pairs@ == sample_pairs_upto(*result, i as nat),
        decreases result.total_lines - i,
    {
        if pairs.len() < MAX_SAMPLE_PAIRS && result.is_duplicate(i) {
            let canonical: usize = result.canonical_map[i];
            let here: Fingerprint = result.fingerprints[i];
            let first: Fingerprint = result.fingerprints[canonical];
            pairs.push(
                SamplePair {
                    duplicate_line: i + 1,
                    original_line: canonical + 1,
                    hamming_distance: here.hamming_distance(first),
                },
            );
        }
        i = i + 1;
    }
    pairs
}

/// What a scan took and found, as the caller wants it shown: the share of
/// duplicates in percent and the time in milliseconds, as text and as numbers.
pub struct DedupFigures {
    pub percent: String,
    pub elapsed_ms: String,
    pub dedup_ratio: JsonValue,
    pub elapsed_ms_value: JsonValue,
}

/// A sample pair as a tree.
pub open spec fn pair_tree(pair: SamplePair) -> JsonTree {
    JsonTree::Object(
        seq![
            ("duplicate_line"@, number_tree(pair.duplicate_line as u64)),
            ("original_line"@, number_tree(pair.original_line as u64)),
            ("hamming_distance"@, number_tree(pair.hamming_distance as u64)),
        ],
    )
}

/// The text that `dedup_scan` answers with.
pub open spec fn dedup_text(result: DedupResult, figures: DedupFigures) -> Seq<char> {
    "Dedup Scan Results (strategy: "@ + result.strategy.name() + "):\nTotal lines: "@ + decimal(
        result.total_lines as nat,
    ) + "\nUnique: "@ + decimal(result.unique_count as nat) + "\nDuplicates: "@ + decimal(
        result.duplicate_count as nat,
    ) + " ("@ + figures.percent@ + "%)\nScan time: "@ + figures.elapsed_ms@ + "ms"@
}

/// The metadata that `dedup_scan` answers with.
pub open spec fn dedup_metadata(result: DedupResult, figures: DedupFigures) -> JsonTree {
    JsonTree::Object(
        seq![
            ("total_lines"@, number_tree(result.total_lines as u64)),
            ("unique_count"@, number_tree(result.unique_count as u64)),
            ("duplicate_count"@, number_tree(result.duplicate_count as u64)),
            ("dedup_ratio"@, figures.dedup_ratio@),
            ("elapsed_ms"@, figures.elapsed_ms_value@),
            (
                "sample_pairs"@,
                JsonTree::Array(
                    sample_pairs_upto(result, result.total_lines as nat).map_values(
                        |pair: SamplePair| pair_tree(pair),
                    ),
                ),
            ),
        ],
    )
}

/// The response of `dedup_scan` to the results of a scan.
pub fn dedup_scan_response(id: Option<JsonValue>, result: &DedupResult, figures: DedupFigures) -> (response:
    JsonRpcResponse)
    requires
        result.readable(),
    ensures
        response.is_success(
            id,
            text_result_with(dedup_text(*result, figures), dedup_metadata(*result, figures)),
        ),
{
    let pairs = dedup_sample_pairs(result);
    let mut samples: Vec<JsonValue> = Vec::new();
    let mut k: usize = 0;
    while k < pairs.len()
        invariant
            k <= pairs@.len(),
            item_trees(samples@) =~= pairs@.take(k as int).map_values(
                |pair: SamplePair| pair_tree(pair),
            ),
        decreases pairs@.len() - k,
    {
        let pair: SamplePair = pairs[k];
        let ghost before = samples@;
        let made = object3(
            "duplicate_line",
            JsonValue::from_u64(pair.duplicate_line as u64),
            "original_line",
            JsonValue::from_u64(pair.original_line as u64),
            "hamming_distance",
            JsonValue::from_u64(pair.hamming_distance as u64),
        );
        samples.push(made);
        proof {
            assert(item_trees(samples@) =~= item_trees(before).push(pair_tree(pair)));
            assert(pairs@.take(k + 1) =~= pairs@.take(k as int).push(pair));
        }
        k = k + 1;
    }
    proof {
        assert(pairs@.take(pairs@.len() as int) =~= pairs@);
    }
    let mut text = "Dedup Scan Results (strategy: ".to_owned();
    push_str(&mut text, result.strategy.to_string().as_str());
    push_str(&mut text, "):\nTotal lines: ");
    push_decimal(&mut text, result.total_lines as u128);
    push_str(&mut text, "\nUnique: ");
    push_decimal(&mut text, result.unique_count as u128);
    push_str(&mut text, "\nDuplicates: ");
    push_decimal(&mut text, result.duplicate_count as u128);
    push_str(&mut text, " (");
    push_str(&mut text, figures.percent.as_str());
    push_str(&mut text, "%)\nScan time: ");
    push_str(&mut text, figures.elapsed_ms.as_str());
    push_str(&mut text, "ms");
    let mut members: Vec<(String, JsonValue)> = Vec::new();
    members.push(("total_lines".to_owned(), JsonValue::from_u64(result.total_lines as u64)));
    members.push(("unique_count".to_owned(), JsonValue::from_u64(result.unique_count as u64)));
    members.push(
        ("duplicate_count".to_owned(), JsonValue::from_u64(result.duplicate_count as u64)),
    );
    members.push(("dedup_ratio".to_owned(), figures.dedup_ratio));
    members.push(("elapsed_ms".to_owned(), figures.elapsed_ms_value));
    members.push(("sample_pairs".to_owned(), array(samples)));
    proof {
        assert(member_trees(members@) =~= dedup_metadata(*result, figures)->Object_0);
    }
    JsonRpcResponse::success(
        id,
        object2("content", content_of(text.as_str()), "metadata", object(members)),
    )
}

/// The strategy that the arguments of `dedup_scan` ask for: exact when the
/// strategy is named `exact`, else similarity with the given threshold,
/// and with threshold 3 when none is given.
pub open spec fn strategy_from_args(args: JsonTree) -> DedupStrategy {
    if arg_text(args, "strategy"@) == Some("exact"@) {
        DedupStrategy::Exact
    } else {
        DedupStrategy::SimHash { threshold: arg_u64(args, "threshold"@, 3) as u32 }
    }
}

/// The strategy that the arguments of `dedup_scan` ask for.
pub fn dedup_strategy(args: &JsonValue) -> (strategy: DedupStrategy)
    ensures
        strategy == strategy_from_args(args@),
{
    let threshold: u32 = #[verifier::truncate]
    (read_u64(args, "threshold", 3) as u32);
    match read_text(args, "strategy") {
        Some(name) => if str_equal(name, "exact") {
            DedupStrategy::Exact
        } else {
            DedupStrategy::SimHash { threshold }
        },
        None => DedupStrategy::SimHash { threshold },
    }
}

// ─── tools/list ─────────────────────────────────────────────────────────────

/// The schema of an argument without a default.
pub open spec fn property(kind: Seq<char>, description: Seq<char>) -> JsonTree {
    JsonTree::Object(
        seq![("type"@, JsonTree::Text(kind)), ("description"@, JsonTree::Text(description))],
    )
}

/// The schema of an argument with a default.
pub open spec fn property_with_default(
    kind: Seq<char>,
    description: Seq<char>,
    default: JsonTree,
) -> JsonTree {
    JsonTree::Object(
        seq![
            ("type"@, JsonTree::Text(kind)),
            ("description"@, JsonTree::Text(description)),
            ("default"@, default),
        ],
    )
}

/// The descriptor of a tool: its name, what it does, and the schema of its arguments.
pub open spec fn descriptor(name: Seq<char>, description: Seq<char>, schema: JsonTree) -> JsonTree {
    JsonTree::Object(
        seq![
            ("name"@, JsonTree::Text(name)),
            ("description"@, JsonTree::Text(description)),
            ("inputSchema"@, schema),
        ],
    )
}

/// The schema of the arguments of `search_dataset`.
pub open spec fn search_schema() -> JsonTree {
    JsonTree::Object(
        seq![
            ("type"@, JsonTree::Text("object"@)),
            (
                "properties"@,
                JsonTree::Object(
                    seq![
                        (
                            "query"@,
                            property("string"@, "Regex pattern to search for in the dataset"@),
                        ),
                        (
                            "max_results"@,
                            property_with_default(
                                "integer"@,
                                "Maximum number of results to return (default: 50)"@,
                                number_tree(50),
                            ),
                        ),
                        (
                            "context_lines"@,
                            property_with_default(
                                "integer"@,
                                "Number of surrounding lines to include (default: 0)"@,
                                number_tree(0),
                            ),
                        ),
                    ],
                ),
            ),
            ("required"@, JsonTree::Array(seq![JsonTree::Text("query"@)])),
        ],
    )
}

/// The schema of the arguments of `dataset_info`: none.
pub open spec fn info_schema() -> JsonTree {
    JsonTree::Object(
        seq![
            ("type"@, JsonTree::Text("object"@)),
            ("properties"@, JsonTree::Object(Seq::empty())),
        ],
    )
}

/// The schema of the arguments of `get_lines`.
pub open spec fn lines_schema() -> JsonTree {
    JsonTree::Object(
        seq![
            ("type"@, JsonTree::Text("object"@)),
            (
                "properties"@,
                JsonTree::Object(
                    seq![
                        ("start"@, property("integer"@, "Start line index (0-based)"@)),
                        (
                            "count"@,
                            property_with_default(
                                "integer"@,
                                "Number of lines to retrieve (default: 10, max: 500)"@,
                                number_tree(10),
                            ),
                        ),
                    ],
                ),
            ),
            ("required"@, JsonTree::Array(seq![JsonTree::Text("start"@)])),
        ],
    )
}

/// The schema of the arguments of `dedup_scan`.
pub open spec fn dedup_schema() -> JsonTree {
    JsonTree::Object(
        seq![
            ("type"@, JsonTree::Text("object"@)),
            (
                "properties"@,
                JsonTree::Object(
                    seq![
                        (
                            "strategy"@,
                            JsonTree::Object(
                                seq![
                                    ("type"@, JsonTree::Text("string"@)),
                                    (
                                        "enum"@,
                                        JsonTree::Array(
                                            seq![
                                                JsonTree::Text("exact"@),
                                                JsonTree::Text("simhash"@),
                                            ],
                                        ),
                                    ),
                                    (
                                        "description"@,
                                        JsonTree::Text("Dedup strategy (default: simhash)"@),
                                    ),
                                    ("default"@, JsonTree::Text("simhash"@)),
                                ],
                            ),
                        ),
                        (
                            "threshold"@,
                            property_with_default(
                                "integer"@,
                                "SimHash Hamming distance threshold (default: 3)"@,
                                number_tree(3),
                            ),
                        ),
                    ],
                ),
            ),
        ],
    )
}

/// What `search_dataset` does, in words.
pub open spec fn search_description() -> Seq<char> {
    "Search the loaded dataset with a regular expression. Returns the matching lines with their line numbers."@
}

/// What `dataset_info` does, in words.
pub open spec fn info_description() -> Seq<char> {
    "Get metadata about the loaded dataset: path, format, line count and size."@
}

/// What `get_lines` does, in words.
pub open spec fn lines_description() -> Seq<char> {
    "Retrieve lines from the dataset by index range, 500 at most."@
}

/// What `dedup_scan` does, in words.
pub open spec fn dedup_description() -> Seq<char> {
    "Run near-duplicate detection on the dataset. Returns duplicate statistics and sample duplicate pairs."@
}

/// The result of `tools/list`: the four tools, in order.
pub open spec fn tools_list_result() -> JsonTree {
    JsonTree::Object(
        seq![
            (
                "tools"@,
                JsonTree::Array(
                    seq![
                        descriptor("search_dataset"@, search_description(), search_schema()),
                        descriptor("dataset_info"@, info_description(), info_schema()),
                        descriptor("get_lines"@, lines_description(), lines_schema()),
                        descriptor("dedup_scan"@, dedup_description(), dedup_schema()),
                    ],
                ),
            ),
        ],
    )
}

fn make_property(kind: &str, description: &str) -> (made: JsonValue)
    ensures
        made@ == property(kind@, description@),
{
    object2("type", text_value(kind), "description", text_value(description))
}

fn make_property_with_default(kind: &str, description: &str, default: JsonValue) -> (made:
    JsonValue)
    ensures
        made@ == property_with_default(kind@, description@, default@),
{
    object3("type", text_value(kind), "description", text_value(description), "default", default)
}

fn make_descriptor(name: &str, description: &str, schema: JsonValue) -> (made: JsonValue)
    ensures
        made@ == descriptor(name@, description@, schema@),
{
    object3(
        "name",
        text_value(name),
        "description",
        text_value(description),
        "inputSchema",
        schema,
    )
}

fn make_search_schema() -> (made: JsonValue)
    ensures
        made@ == search_schema(),
{
    let properties = object3(
        "query",
        make_property("string", "Regex pattern to search for in the dataset"),
        "max_results",
        make_property_with_default(
            "integer",
            "Maximum number of results to return (default: 50)",
            JsonValue::from_u64(50),
        ),
        "context_lines",
        make_property_with_default(
            "integer",
            "Number of surrounding lines to include (default: 0)",
            JsonValue::from_u64(0),
        ),
    );
    object3(
        "type",
        text_value("object"),
        "properties",
        properties,
        "required",
        array1(text_value("query")),
    )
}

fn make_info_schema() -> (made: JsonValue)
    ensures
        made@ == info_schema(),
{
    let none: Vec<(String, JsonValue)> = Vec::new();
    proof {
        assert(member_trees(none@) =~= Seq::<(Seq<char>, JsonTree)>::empty());
    }
    object2("type", text_value("object"), "properties", object(none))
}

fn make_lines_schema() -> (made: JsonValue)
    ensures
        made@ == lines_schema(),
{
    let properties = object2(
        "start",
        make_property("integer", "Start line index (0-based)"),
        "count",
        make_property_with_default(
            "integer",
            "Number of lines to retrieve (default: 10, max: 500)",
            JsonValue::from_u64(10),
        ),
    );
    object3(
        "type",
        text_value("object"),
        "properties",
        properties,
        "required",
        array1(text_value("start")),
    )
}

fn make_dedup_schema() -> (made: JsonValue)
    ensures
        made@ == dedup_schema(),
{
    let mut names: Vec<JsonValue> = Vec::new();
    names.push(text_value("exact"));
    names.push(text_value("simhash"));
    proof {
        assert(item_trees(names@) =~= seq![JsonTree::Text("exact"@), JsonTree::Text("simhash"@)]);
    }
    let mut strategy: Vec<(String, JsonValue)> = Vec::new();
    strategy.push(("type".to_owned(), text_value("string")));
    strategy.push(("enum".to_owned(), array(names)));
    strategy.push(("description".to_owned(), text_value("Dedup strategy (default: simhash)")));
    strategy.push(("default".to_owned(), text_value("simhash")));
    proof {
        assert(member_trees(strategy@)
            =~= dedup_schema()->Object_0[1].1->Object_0[0].1->Object_0);
    }
    let properties = object2(
        "strategy",
        object(strategy),
        "threshold",
        make_property_with_default(
            "integer",
            "SimHash Hamming distance threshold (default: 3)",
            JsonValue::from_u64(3),
        ),
    );
    object2("type", text_value("object"), "properties", properties)
}

/// Answer `tools/list`.
pub fn handle_tools_list(id: Option<JsonValue>) -> (response: JsonRpcResponse)
    ensures
        response.is_success(id, tools_list_result()),
{
    let mut tools: Vec<JsonValue> = Vec::new();
    tools.push(
        make_descriptor(
            "search_dataset",
            "Search the loaded dataset with a regular expression. Returns the matching lines with their line numbers.",
            make_search_schema(),
        ),
    );
    tools.push(
        make_descriptor(
            "dataset_info",
            "Get metadata about the loaded dataset: path, format, line count and size.",
            make_info_schema(),
        ),
    );
    tools.push(
        make_descriptor(
            "get_lines",
            "Retrieve lines from the dataset by index range, 500 at most.",
            make_lines_schema(),
        ),
    );
    tools.push(
        make_descriptor(
            "dedup_scan",
            "Run near-duplicate detection on the dataset. Returns duplicate statistics and sample duplicate pairs.",
            make_dedup_schema(),
        ),
    );
    proof {
        assert(item_trees(tools@) =~= tools_list_result()->Object_0[0].1->Array_0);
    }
    JsonRpcResponse::success(id, object1("tools", array(tools)))
}

// ─── tools/call and the dispatcher ──────────────────────────────────────────

/// A search to run on a worker.
pub struct SearchJob {
    pub id: Option<JsonValue>,
    pub query: String,
    pub max_results: usize,
    pub context_lines: usize,
}

/// A scan to run on a worker.
pub struct DedupJob {
    pub id: Option<JsonValue>,
    pub strategy: DedupStrategy,
}

/// What the dispatcher makes of a request: the response, when answering
/// is a lookup; or the work to hand to a worker, whose outcome becomes the
/// response.
pub enum Dispatch {
    Reply(JsonRpcResponse),
    Search(SearchJob),
    Dedup(DedupJob),
}

impl Dispatch {
    /// Whether this is the success response to request `id` with this result.
    pub open spec fn replies_success(self, id: Option<JsonValue>, result: JsonTree) -> bool {
        self matches Dispatch::Reply(response) && response.is_success(id, result)
    }

    /// Whether this is the error response to request `id` with this code and message.
    pub open spec fn replies_error(self, id: Option<JsonValue>, code: int, message: Seq<char>) -> bool {
        self matches Dispatch::Reply(response) && response.is_error(id, code, message)
    }

    /// Whether this is a search for request `id` with this query and these limits.
    pub open spec fn is_search(
        self,
        id: Option<JsonValue>,
        query: Seq<char>,
        max_results: usize,
        context_lines: usize,
    ) -> bool {
        self matches Dispatch::Search(job) && job.id == id && job.query@ == query
            && job.max_results == max_results && job.context_lines == context_lines
    }

    /// Whether this is a scan for request `id` with this strategy.
    pub open spec fn is_dedup(self, id: Option<JsonValue>, strategy: DedupStrategy) -> bool {
        self matches Dispatch::Dedup(job) && job.id == id && job.strategy == strategy
    }
}

/// The arguments of a tool call: the object under `arguments`, or an
/// empty object when there is none.
pub open spec fn call_arguments(params: JsonTree) -> JsonTree {
    match params.get("arguments"@) {
        Some(arguments) => arguments,
        None => JsonTree::Object(Seq::empty()),
    }
}

/// The name of the tool that is called; empty when none is given.
pub open spec fn call_name(params: JsonTree) -> Seq<char> {
    match arg_text(params, "name"@) {
        Some(name) => name,
        None => Seq::empty(),
    }
}

impl Dispatch {
    /// Whether this is what a call of `search_dataset` with these arguments
    /// comes to: an error when no query is given, else a search with the
    /// limits asked for, 50 matches and no context when none are given.
    pub open spec fn answers_search(self, id: Option<JsonValue>, args: JsonTree) -> bool {
        match arg_text(args, "query"@) {
            Some(query) => self.is_search(
                id,
                query,
                arg_u64(args, "max_results"@, 50) as usize,
                arg_u64(args, "context_lines"@, 0) as usize,
            ),
            None => self.replies_error(
                id,
                INVALID_PARAMS as int,
                "Missing required parameter: query"@,
            ),
        }
    }
}

/// What the dispatcher makes of a call of `search_dataset`: an error when
/// no query is given, else a search with the limits asked for, 50 matches
/// and no context when none are given.
pub fn tool_search_dataset(id: Option<JsonValue>, args: &JsonValue) -> (dispatch: Dispatch)
    ensures
        dispatch.answers_search(id, args@),
{
    let query: String = match read_text(args, "query") {
        Some(query) => query.to_owned(),
        None => {
            return Dispatch::Reply(
                JsonRpcResponse::error(
                    id,
                    INVALID_PARAMS,
                    "Missing required parameter: query".to_owned(),
                ),
            );
        },
    };
    let max_results: usize = #[verifier::truncate]
    (read_u64(args, "max_results", 50) as usize);
    let context_lines: usize = #[verifier::truncate]
    (read_u64(args, "context_lines", 0) as usize);
    Dispatch::Search(SearchJob { id, query, max_results, context_lines })
}

impl Dispatch {
    /// Whether this is what a call with these parameters comes to: each of
    /// the four tools has its answer, and any other name an error.
    pub open spec fn answers_call(self, id: Option<JsonValue>, params: JsonTree, state: McpState) -> bool {
        let name = call_name(params);
        let args = call_arguments(params);
        if name == "search_dataset"@ {
            self.answers_search(id, args)
        } else if name == "dataset_info"@ {
            self.replies_success(
                id,
                text_result_with(dataset_info_text(state), dataset_info_metadata(state)),
            )
        } else if name == "get_lines"@ {
            self.replies_success(
                id,
                text_result(
                    get_lines_text(
                        state.dataset.bytes(),
                        arg_u64(args, "start"@, 0) as usize as int,
                        smaller(arg_u64(args, "count"@, 10) as usize as int, MAX_LINES as int),
                    ),
                ),
            )
        } else if name == "dedup_scan"@ {
            self.is_dedup(id, strategy_from_args(args))
        } else {
            self.replies_error(id, INVALID_PARAMS as int, "Unknown tool: "@ + name)
        }
    }
}

/// What the dispatcher makes of `tools/call`.
pub fn handle_tools_call(id: Option<JsonValue>, params: &JsonValue, state: &McpState) -> (dispatch:
    Dispatch)
    ensures
        dispatch.answers_call(id, params@, *state),
{
    proof {
        reveal_strlit("");
        reveal_strlit("search_dataset");
        reveal_strlit("dataset_info");
        reveal_strlit("get_lines");
        reveal_strlit("dedup_scan");
        assert(""@ =~= Seq::<char>::empty());
    }
    let tool_name: &str = match read_text(params, "name") {
        Some(name) => name,
        None => "",
    };
    let none: Vec<(String, JsonValue)> = Vec::new();
    proof {
        assert(member_trees(none@) =~= Seq::<(Seq<char>, JsonTree)>::empty());
    }
    let empty: JsonValue = object(none);
    let arguments: &JsonValue = match params.get("arguments") {
        Some(arguments) => arguments,
        None => &empty,
    };
    if str_equal(tool_name, "search_dataset") {
        tool_search_dataset(id, arguments)
    } else if str_equal(tool_name, "dataset_info") {
        Dispatch::Reply(tool_dataset_info(id, state))
    } else if str_equal(tool_name, "get_lines") {
        Dispatch::Reply(tool_get_lines(id, arguments, state))
    } else if str_equal(tool_name, "dedup_scan") {
        Dispatch::Dedup(DedupJob { id, strategy: dedup_strategy(arguments) })
    } else {
        let mut text = "Unknown tool: ".to_owned();
        push_str(&mut text, tool_name);
        Dispatch::Reply(JsonRpcResponse::error(id, INVALID_PARAMS, text))
    }
}

/// What the dispatcher makes of a request: each method of the protocol
/// has its handler, and any other method is answered with an error.
pub fn handle_jsonrpc(state: &McpState, request: JsonRpcRequest) -> (dispatch: Dispatch)
    ensures
        request.method@ == "initialize"@ ==> dispatch.replies_success(
            request.id,
            initialize_result(),
        ),
        request.method@ == "initialized"@ ==> dispatch.replies_success(
            request.id,
            JsonTree::Object(Seq::empty()),
        ),
        request.method@ == "tools/list"@ ==> dispatch.replies_success(
            request.id,
            tools_list_result(),
        ),
        request.method@ == "tools/call"@ ==> dispatch.answers_call(request.id, request.params@, *state),
        request.method@ == "resources/list"@ ==> dispatch.replies_success(
            request.id,
            resources_list_result(*state),
        ),
        request.method@ == "resources/read"@ ==> dispatch.replies_success(
            request.id,
            resources_read_result(*state),
        ),
        request.method@ != "initialize"@ && request.method@ != "initialized"@ && request.method@
            != "tools/list"@ && request.method@ != "tools/call"@ && request.method@
            != "resources/list"@ && request.method@ != "resources/read"@
            ==> dispatch.replies_error(
            request.id,
            METHOD_NOT_FOUND as int,
            "Method not found: "@ + request.method@,
        ),
{
    proof {
        reveal_strlit("initialize");
        reveal_strlit("initialized");
        reveal_strlit("tools/list");
        reveal_strlit("tools/call");
        reveal_strlit("resources/list");
        reveal_strlit("resources/read");
        assert("initialize"@.len() == 10 && "initialized"@.len() == 11);
        assert("tools/list"@.len() == 10 && "tools/call"@.len() == 10);
        assert("resources/list"@.len() == 14 && "resources/read"@.len() == 14);
        assert("initialize"@[0] == 'i' && "tools/list"@[0] == 't' && "tools/call"@[0] == 't');
        assert("tools/list"@[6] == 'l' && "tools/call"@[6] == 'c');
        assert("resources/list"@[10] == 'l' && "resources/read"@[10] == 'r');
    }
    let method: &str = request.method.as_str();
    if str_equal(method, "initialize") {
        Dispatch::Reply(handle_initialize(request.id))
    } else if str_equal(method, "initialized") {
        let none: Vec<(String, JsonValue)> = Vec::new();
        proof {
            assert(member_trees(none@) =~= Seq::<(Seq<char>, JsonTree)>::empty());
        }
        Dispatch::Reply(JsonRpcResponse::success(request.id, object(none)))
    } else if str_equal(method, "tools/list") {
        Dispatch::Reply(handle_tools_list(request.id))
    } else if str_equal(method, "tools/call") {
        handle_tools_call(request.id, &request.params, state)
    } else if str_equal(method, "resources/list") {
        Dispatch::Reply(handle_resources_list(request.id, state))
    } else if str_equal(method, "resources/read") {
        Dispatch::Reply(handle_resources_read(request.id, state))
    } else {
        let mut text = "Method not found: ".to_owned();
        push_str(&mut text, method);
        Dispatch::Reply(JsonRpcResponse::error(request.id, METHOD_NOT_FOUND, text))
    }
}

} // verus!
