use std::sync::Arc;

use caret::data::Dataset;
use caret::engine::{BitMask, DedupEngine, DedupResult, DedupStrategy, Fingerprint};
use caret::format::InputFormat;
use caret::json::JsonValue;
use caret::mcp::{
    dedup_sample_pairs, dedup_scan_response, dedup_strategy, failed_job_response, handle_jsonrpc,
    handle_tools_list, search_dataset_impl, search_response, DedupFigures, Dispatch,
    JsonRpcRequest, JsonRpcResponse, McpState, SamplePair,
};

fn object(members: Vec<(&str, JsonValue)>) -> JsonValue {
    JsonValue::Object(members.into_iter().map(|(k, v)| (k.to_string(), v)).collect())
}

fn text(s: &str) -> JsonValue {
    JsonValue::Text(s.to_string())
}

fn corpus() -> Dataset {
    let lines = [
        "alpha", "foo one", "beta", "a foo b", "gamma", "delta", "FOO", "foofoo", "eps", "zeta foo",
    ];
    Dataset::from_bytes(lines.join("\n").into_bytes(), "corpus.jsonl".to_string(), InputFormat::Jsonl)
}

fn state() -> McpState {
    McpState {
        dataset: Arc::new(corpus()),
        dataset_path: "corpus.jsonl".to_string(),
        size_human: "62 B".to_string(),
    }
}

fn request(method: &str, params: JsonValue) -> JsonRpcRequest {
    JsonRpcRequest {
        jsonrpc: "2.0".to_string(),
        id: Some(JsonValue::from_u64(1)),
        method: method.to_string(),
        params,
    }
}

fn reply(dispatch: Dispatch) -> JsonRpcResponse {
    match dispatch {
        Dispatch::Reply(response) => response,
        _ => panic!("expected a reply"),
    }
}

fn result_json(response: &JsonRpcResponse) -> String {
    assert!(response.error.is_none());
    assert_eq!(response.jsonrpc, "2.0");
    response.result.as_ref().unwrap().to_json_string()
}

fn content_text(response: &JsonRpcResponse) -> String {
    let result = response.result.as_ref().unwrap();
    let content = result.get("content").unwrap();
    match content {
        JsonValue::Array(blocks) => {
            assert_eq!(blocks.len(), 1);
            assert_eq!(blocks[0].get("type").unwrap().as_str(), Some("text"));
            blocks[0].get("text").unwrap().as_str().unwrap().to_string()
        }
        _ => panic!("content is not an array"),
    }
}

#[test]
fn test_jsonrpc_response_success() {
    let resp = JsonRpcResponse::success(
        Some(JsonValue::from_u64(1)),
        object(vec![("ok", JsonValue::Bool(true))]),
    );
    assert!(resp.error.is_none());
    assert!(resp.result.is_some());
}

#[test]
fn test_jsonrpc_response_error() {
    let resp = JsonRpcResponse::error(
        Some(JsonValue::from_u64(1)),
        -32600,
        "Invalid request".to_string(),
    );
    assert!(resp.result.is_none());
    assert!(resp.error.is_some());
    assert_eq!(resp.error.unwrap().code, -32600);
}

#[test]
fn test_initialize() {
    let response = reply(handle_jsonrpc(&state(), request("initialize", JsonValue::Null)));
    assert_eq!(
        result_json(&response),
        r#"{"capabilities":{"resources":{"listChanged":false},"tools":{"listChanged":false}},"protocolVersion":"2024-11-05","serverInfo":{"name":"caret","version":"0.4.0"}}"#
    );
    assert_eq!(response.id.unwrap().as_u64(), Some(1));
    let response = reply(handle_jsonrpc(&state(), request("initialized", JsonValue::Null)));
    assert_eq!(result_json(&response), "{}");
}

#[test]
fn test_unknown_method_and_tool() {
    let response = reply(handle_jsonrpc(&state(), request("tools/run", JsonValue::Null)));
    assert!(response.result.is_none());
    let error = response.error.unwrap();
    assert_eq!(error.code, -32601);
    assert_eq!(error.message, "Method not found: tools/run");
    assert!(error.data.is_none());

    let params = object(vec![("name", text("drop_dataset"))]);
    let error = reply(handle_jsonrpc(&state(), request("tools/call", params))).error.unwrap();
    assert_eq!(error.code, -32602);
    assert_eq!(error.message, "Unknown tool: drop_dataset");

    let error = reply(handle_jsonrpc(&state(), request("tools/call", JsonValue::Null))).error.unwrap();
    assert_eq!(error.code, -32602);
    assert_eq!(error.message, "Unknown tool: ");
}

#[test]
fn test_tools_list() {
    let response = handle_tools_list(None);
    assert!(response.id.is_none());
    let result = response.result.unwrap();
    let names: Vec<String> = match result.get("tools").unwrap() {
        JsonValue::Array(tools) => tools
            .iter()
            .map(|t| {
                assert!(t.get("description").unwrap().as_str().unwrap().len() > 20);
                assert_eq!(t.get("inputSchema").unwrap().get("type").unwrap().as_str(), Some("object"));
                t.get("name").unwrap().as_str().unwrap().to_string()
            })
            .collect(),
        _ => panic!("tools is not an array"),
    };
    assert_eq!(names, vec!["search_dataset", "dataset_info", "get_lines", "dedup_scan"]);
    let json = result.to_json_string();
    assert!(json.contains(
        r#""inputSchema":{"properties":{"count":{"default":10,"description":"Number of lines to retrieve (default: 10, max: 500)","type":"integer"},"start":{"description":"Start line index (0-based)","type":"integer"}},"required":["start"],"type":"object"}"#
    ));
    assert!(json.contains(r#""enum":["exact","simhash"]"#));
    assert!(json.contains(r#""required":["query"]"#));
    assert!(json.contains(r#"{"description":"Get metadata about the loaded dataset: path, format, line count and size.","inputSchema":{"properties":{},"type":"object"},"name":"dataset_info"}"#));
}

#[test]
fn test_dataset_info() {
    let params = object(vec![("name", text("dataset_info"))]);
    let response = reply(handle_jsonrpc(&state(), request("tools/call", params)));
    assert_eq!(
        content_text(&response),
        "Dataset: corpus.jsonl\nFormat: JSONL\nLines: 10\nSize: 62 B (62 bytes)"
    );
    assert_eq!(
        response.result.unwrap().get("metadata").unwrap().to_json_string(),
        r#"{"format":"JSONL","line_count":10,"path":"corpus.jsonl","size_bytes":62,"size_human":"62 B"}"#
    );
}

#[test]
fn test_get_lines() {
    let call = |args: JsonValue| {
        let params = object(vec![("name", text("get_lines")), ("arguments", args)]);
        content_text(&reply(handle_jsonrpc(&state(), request("tools/call", params))))
    };
    assert_eq!(
        call(object(vec![("start", JsonValue::from_u64(2)), ("count", JsonValue::from_u64(3))])),
        "Lines 3-5 of 10:\n\nL3: beta\nL4: a foo b\nL5: gamma"
    );
    assert_eq!(
        call(object(vec![("start", JsonValue::from_u64(8))])),
        "Lines 9-10 of 10:\n\nL9: eps\nL10: zeta foo"
    );
    assert_eq!(
        call(object(vec![("start", JsonValue::from_u64(10))])),
        "No lines found at index 10 (dataset has 10 lines)"
    );
    assert_eq!(
        call(object(vec![("start", text("2")), ("count", JsonValue::from_u64(1))])),
        "Lines 1-1 of 10:\n\nL1: alpha"
    );
    assert_eq!(
        call(object(vec![("count", JsonValue::from_u64(0))])),
        "No lines found at index 0 (dataset has 10 lines)"
    );
    assert!(call(object(vec![("count", JsonValue::from_u64(u64::MAX))])).starts_with("Lines 1-10 of 10:"));
}

#[test]
fn test_get_lines_is_capped_at_500() {
    let lines: Vec<String> = (0..600).map(|i| format!("r{}", i)).collect();
    let big = McpState {
        dataset: Arc::new(Dataset::from_lines(&lines, "big".to_string(), InputFormat::Jsonl)),
        dataset_path: "big".to_string(),
        size_human: "?".to_string(),
    };
    let params = object(vec![
        ("name", text("get_lines")),
        ("arguments", object(vec![("start", JsonValue::from_u64(50)), ("count", JsonValue::from_u64(550))])),
    ]);
    let shown = content_text(&reply(handle_jsonrpc(&big, request("tools/call", params))));
    assert!(shown.starts_with("Lines 51-550 of 600:\n\nL51: r50\n"));
    assert!(shown.ends_with("\nL550: r549"));
    assert_eq!(shown.lines().count(), 502);
}

#[test]
fn test_search_dataset() {
    let s = state();
    let params = object(vec![
        ("name", text("search_dataset")),
        ("arguments", object(vec![("query", text("^.*foo.*$")), ("max_results", JsonValue::from_u64(3))])),
    ]);
    let job = match handle_jsonrpc(&s, request("tools/call", params)) {
        Dispatch::Search(job) => job,
        _ => panic!("expected a search"),
    };
    assert_eq!(job.query, "^.*foo.*$");
    assert_eq!(job.max_results, 3);
    assert_eq!(job.context_lines, 0);
    let outcome = search_dataset_impl(&s.dataset, &job.query, job.max_results, job.context_lines);
    assert_eq!(
        outcome,
        Ok(vec![(1, "foo one".to_string()), (3, "a foo b".to_string()), (7, "foofoo".to_string())])
    );
    let response = search_response(job.id, &job.query, s.dataset.line_count(), &outcome);
    assert_eq!(
        content_text(&response),
        "Found 3 match(es) for `^.*foo.*$` in 10 lines:\n\nL2: foo one\nL4: a foo b\nL8: foofoo"
    );
    assert_eq!(response.id.unwrap().as_u64(), Some(1));

    let all = search_dataset_impl(&s.dataset, "^.*foo.*$", 50, 0).unwrap();
    let found: Vec<usize> = all.iter().map(|m| m.0).collect();
    assert_eq!(found, vec![1, 3, 7, 9]);
    assert_eq!(search_dataset_impl(&s.dataset, "foo", 0, 0), Ok(Vec::new()));
    let none = search_dataset_impl(&s.dataset, "nothing", 50, 0);
    assert_eq!(
        content_text(&search_response(None, "nothing", 10, &none)),
        "No matches found for pattern: `nothing`"
    );
}

#[test]
fn test_search_defaults_and_missing_query() {
    let params = object(vec![
        ("name", text("search_dataset")),
        ("arguments", object(vec![("query", text("x")), ("context_lines", JsonValue::from_u64(2))])),
    ]);
    match handle_jsonrpc(&state(), request("tools/call", params)) {
        Dispatch::Search(job) => {
            assert_eq!(job.max_results, 50);
            assert_eq!(job.context_lines, 2);
        }
        _ => panic!("expected a search"),
    }
    for args in [object(vec![]), object(vec![("query", JsonValue::from_u64(3))])] {
        let params = object(vec![("name", text("search_dataset")), ("arguments", args)]);
        let error = reply(handle_jsonrpc(&state(), request("tools/call", params))).error.unwrap();
        assert_eq!(error.code, -32602);
        assert_eq!(error.message, "Missing required parameter: query");
    }
    let params = object(vec![("name", text("search_dataset"))]);
    let error = reply(handle_jsonrpc(&state(), request("tools/call", params))).error.unwrap();
    assert_eq!(error.message, "Missing required parameter: query");
}

#[test]
fn test_search_with_context() {
    let s = state();
    let found = search_dataset_impl(&s.dataset, "^FOO$", 50, 1).unwrap();
    assert_eq!(found, vec![(6, "    L6: delta\n>>> L7: FOO\n    L8: foofoo\n".to_string())]);
    let first = search_dataset_impl(&s.dataset, "alpha", 50, 3).unwrap();
    assert_eq!(
        first,
        vec![(0, ">>> L1: alpha\n    L2: foo one\n    L3: beta\n    L4: a foo b\n".to_string())]
    );
    let last = search_dataset_impl(&s.dataset, "zeta", 50, usize::MAX).unwrap();
    assert_eq!(last[0].1.lines().count(), 10);
    assert!(last[0].1.ends_with(">>> L10: zeta foo\n"));
}

#[test]
fn test_search_with_a_bad_pattern() {
    let s = state();
    let outcome = search_dataset_impl(&s.dataset, "foo(bar", 50, 0);
    let message = outcome.clone().unwrap_err();
    assert!(message.contains("unclosed group"));
    let response = search_response(Some(JsonValue::from_u64(9)), "foo(bar", 10, &outcome);
    assert!(response.result.is_none());
    let error = response.error.unwrap();
    assert_eq!(error.code, -32603);
    assert_eq!(error.message, format!("Search error: {}", message));
    let failed = failed_job_response(None, "Task join error: ", "cancelled").error.unwrap();
    assert_eq!(failed.code, -32603);
    assert_eq!(failed.message, "Task join error: cancelled");
}

#[test]
fn test_resources() {
    let response = reply(handle_jsonrpc(&state(), request("resources/list", JsonValue::Null)));
    assert_eq!(
        result_json(&response),
        r#"{"resources":[{"description":"JSONL file with 10 lines (62 B)","mimeType":"application/jsonl","name":"Dataset: corpus.jsonl","uri":"caret://dataset/corpus.jsonl"}]}"#
    );
    let params = object(vec![("uri", text("caret://dataset/anything"))]);
    let response = reply(handle_jsonrpc(&state(), request("resources/read", params)));
    assert_eq!(
        result_json(&response),
        r#"{"contents":[{"mimeType":"application/jsonl","text":"alpha\nfoo one\nbeta\na foo b\ngamma\ndelta\nFOO\nfoofoo\neps\nzeta foo","uri":"caret://dataset/corpus.jsonl"}]}"#
    );
}

#[test]
fn test_resources_read_previews_100_lines() {
    let lines: Vec<String> = (0..150).map(|i| format!("r{}", i)).collect();
    let big = McpState {
        dataset: Arc::new(Dataset::from_lines(&lines, "big".to_string(), InputFormat::Jsonl)),
        dataset_path: "big".to_string(),
        size_human: "?".to_string(),
    };
    let response = reply(handle_jsonrpc(&big, request("resources/read", JsonValue::Null)));
    let result = response.result.unwrap();
    let shown = match result.get("contents").unwrap() {
        JsonValue::Array(items) => items[0].get("text").unwrap().as_str().unwrap().to_string(),
        _ => panic!("contents is not an array"),
    };
    assert_eq!(shown.lines().count(), 100);
    assert!(shown.ends_with("\nr99"));
}

#[test]
fn test_dedup_scan() {
    let params = object(vec![("name", text("dedup_scan"))]);
    let job = match handle_jsonrpc(&state(), request("tools/call", params)) {
        Dispatch::Dedup(job) => job,
        _ => panic!("expected a scan"),
    };
    assert!(matches!(job.strategy, DedupStrategy::SimHash { threshold: 3 }));
    assert!(matches!(
        dedup_strategy(&object(vec![("strategy", text("exact")), ("threshold", JsonValue::from_u64(9))])),
        DedupStrategy::Exact
    ));
    assert!(matches!(
        dedup_strategy(&object(vec![("strategy", text("other")), ("threshold", JsonValue::from_u64(9))])),
        DedupStrategy::SimHash { threshold: 9 }
    ));

    let lines = ["a", "b", "a", "a", "b", "c", "a", "b", "a", "c"];
    let dataset = Dataset::from_bytes(lines.join("\n").into_bytes(), "d".to_string(), InputFormat::Jsonl);
    let result = DedupEngine::new(DedupStrategy::Exact).scan(&dataset);
    assert_eq!(
        dedup_sample_pairs(&result),
        vec![
            SamplePair { duplicate_line: 3, original_line: 1, hamming_distance: 0 },
            SamplePair { duplicate_line: 4, original_line: 1, hamming_distance: 0 },
            SamplePair { duplicate_line: 5, original_line: 2, hamming_distance: 0 },
            SamplePair { duplicate_line: 7, original_line: 1, hamming_distance: 0 },
            SamplePair { duplicate_line: 8, original_line: 2, hamming_distance: 0 },
        ]
    );
    let figures = DedupFigures {
        percent: "70.0".to_string(),
        elapsed_ms: "1.5".to_string(),
        dedup_ratio: JsonValue::parse("0.7").unwrap(),
        elapsed_ms_value: JsonValue::parse("1.5").unwrap(),
    };
    let response = dedup_scan_response(job.id, &result, figures);
    assert_eq!(
        content_text(&response),
        "Dedup Scan Results (strategy: exact):\nTotal lines: 10\nUnique: 3\nDuplicates: 7 (70.0%)\nScan time: 1.5ms"
    );
    assert_eq!(
        response.result.unwrap().get("metadata").unwrap().to_json_string(),
        r#"{"dedup_ratio":0.7,"duplicate_count":7,"elapsed_ms":1.5,"sample_pairs":[{"duplicate_line":3,"hamming_distance":0,"original_line":1},{"duplicate_line":4,"hamming_distance":0,"original_line":1},{"duplicate_line":5,"hamming_distance":0,"original_line":2},{"duplicate_line":7,"hamming_distance":0,"original_line":1},{"duplicate_line":8,"hamming_distance":0,"original_line":2}],"total_lines":10,"unique_count":3}"#
    );
}

#[test]
fn test_sample_pairs_of_a_result_made_by_hand() {
    let mut duplicates = BitMask::new(4);
    duplicates.set(1);
    duplicates.set(3);
    let result = DedupResult {
        duplicates,
        fingerprints: vec![Fingerprint(0b1111), Fingerprint(0b1011), Fingerprint(0), Fingerprint(0b0110)],
        total_lines: 4,
        unique_count: 0,
        duplicate_count: 0,
        elapsed_us: 0,
        strategy: DedupStrategy::SimHash { threshold: 3 },
        canonical_map: vec![0, 0, 2, 1],
    };
    assert_eq!(
        dedup_sample_pairs(&result),
        vec![
            SamplePair { duplicate_line: 2, original_line: 1, hamming_distance: 1 },
            SamplePair { duplicate_line: 4, original_line: 2, hamming_distance: 3 },
        ]
    );
}
