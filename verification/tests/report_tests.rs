use lsp_bench::compact::{compact_json, truncate_json, try_compact_json};
use lsp_bench::json::JsonValue;
use lsp_bench::parse::decode_json;
use lsp_bench::report::{
    check_correctness, classify_error_result, classify_response, collect_server_names,
    is_correct, parse_response, response_is_empty, response_text, try_classify_error_result,
};
use lsp_bench::serialize::to_json_string;
use lsp_bench::summary::{
    format_response_fallback, human_result, human_result_from_text, summarize_completion,
    summarize_diagnostics, summarize_formatting, summarize_hover, summarize_inlay_hints,
    summarize_links, summarize_location, summarize_references, summarize_rename,
    summarize_semantic_tokens, summarize_signature_help, summarize_symbols,
};

fn j(text: &str) -> JsonValue {
    decode_json(text).expect("test input is JSON")
}

fn text_of(v: &JsonValue) -> String {
    to_json_string(v)
}

const CHECK: &str = "\u{2713}";
const CROSS: &str = "\u{2717}";

#[test]
fn correctness_requires_ok_status() {
    let srv = j(r#"{"status":"error","response":"[{\"uri\":\"a\"}]"}"#);
    assert_eq!(check_correctness("textDocument/definition", &srv), CROSS);
    assert!(!is_correct("textDocument/definition", &srv));
}

#[test]
fn correctness_null_allowed_for_file_operations() {
    let srv = j(r#"{"status":"ok","response":"null"}"#);
    assert_eq!(check_correctness("workspace/willRenameFiles", &srv), CHECK);
    assert_eq!(check_correctness("workspace/willCreateFiles", &srv), CHECK);
    assert_eq!(check_correctness("textDocument/hover", &srv), CROSS);
}

#[test]
fn correctness_rejects_empty_and_errors() {
    let empty = j(r#"{"status":"ok","response":"[]"}"#);
    assert_eq!(check_correctness("textDocument/references", &empty), CROSS);
    let err = j(r#"{"status":"ok","response":"{\"error\":\"boom\"}"}"#);
    assert_eq!(check_correctness("textDocument/hover", &err), CROSS);
    let hover = j(r#"{"status":"ok","response":{"contents":"x"}}"#);
    assert_eq!(check_correctness("textDocument/hover", &hover), CHECK);
}

#[test]
fn correctness_of_rename_counts_edits() {
    let none = j(r#"{"status":"ok","response":{"documentChanges":[{"edits":[]}]}}"#);
    assert_eq!(check_correctness("textDocument/rename", &none), CROSS);
    let some = j(r#"{"status":"ok","response":{"changes":{"file:///a.sol":[{"newText":"x"}]}}}"#);
    assert_eq!(check_correctness("textDocument/rename", &some), CHECK);
    let zero = j(r#"{"status":"ok","response":{"changes":{"file:///a.sol":[]}}}"#);
    assert_eq!(check_correctness("textDocument/rename", &zero), CROSS);
}

#[test]
fn error_results_are_classified() {
    assert_eq!(classify_error_result(&j(r#"{"error":"request timeout"}"#)), "timeout");
    assert_eq!(classify_error_result(&j(r#"{"error":"EOF while reading"}"#)), "crash");
    assert_eq!(classify_error_result(&j(r#"{"error":"broken pipe"}"#)), "crash");
    assert_eq!(
        classify_error_result(&j(r#"{"response":"{\"error\":\"Method not found: x\"}"}"#)),
        "unsupported"
    );
    assert_eq!(
        classify_error_result(&j(r#"{"response":"{\"error\":\"Unhandled exception in x\"}"}"#)),
        "error"
    );
    assert_eq!(
        classify_error_result(&j(
            r#"{"response":"{\"error\":\"a fairly long error message that keeps on going\"}"}"#
        )),
        "a fairly long error message that keeps o..."
    );
    assert_eq!(classify_error_result(&j(r#"{"response":"null"}"#)), "empty");
    assert_eq!(classify_error_result(&j(r#"{"response":"Unknown method foo"}"#)), "unsupported");
    assert_eq!(classify_error_result(&j(r#"{"response":"weird"}"#)), "fail");
    assert_eq!(classify_error_result(&j(r#"{"response":"weird","error":"boom"}"#)), "boom");
    assert_eq!(try_classify_error_result(&j(r#"{}"#)), Some("empty".to_string()));
}

#[test]
fn responses_are_classified_for_session_logs() {
    let unsupported = j(r#"{"status":"error","response":"{\"error\":\"Unknown method\"}"}"#);
    assert_eq!(classify_response("x", &unsupported), ("unsupported".to_string(), false));
    assert_eq!(classify_response("x", &j(r#"{"status":"error"}"#)), ("error".to_string(), false));
    assert_eq!(classify_response("x", &j(r#"{"status":"ok"}"#)), ("null".to_string(), false));
    assert_eq!(
        classify_response("x", &j(r#"{"status":"ok","response":"[]"}"#)),
        ("empty".to_string(), false)
    );
    let content = j(r#"{"status":"ok","response":"[{\"uri\":\"file:///a.sol\"}]"}"#);
    assert_eq!(classify_response("textDocument/definition", &content), ("content".to_string(), true));
}

#[test]
fn parse_response_unwraps_stringified_json() {
    let srv = j(r#"{"response":"\"[1,2]\""}"#);
    assert_eq!(text_of(&parse_response(&srv)), "[1,2]");
    let srv = j(r#"{"response":"not json"}"#);
    assert_eq!(text_of(&parse_response(&srv)), "\"not json\"");
    assert_eq!(text_of(&parse_response(&j("{}"))), "null");
    assert_eq!(response_text(&j(r#"{"response":[1]}"#)), "[1]");
    assert_eq!(response_text(&j(r#"{"response":"abc"}"#)), "abc");
    assert_eq!(response_text(&j("{}")), "");
}

#[test]
fn emptiness_of_responses() {
    assert!(response_is_empty(&j("null")));
    assert!(response_is_empty(&j(r#""no result""#)));
    assert!(response_is_empty(&j("[]")));
    assert!(response_is_empty(&j("{}")));
    assert!(!response_is_empty(&j("0")));
    assert!(!response_is_empty(&j(r#""x""#)));
}

#[test]
fn text_results_are_summarized() {
    assert_eq!(
        human_result_from_text("textDocument/references", r#"[{"uri":"a"},{"uri":"b"}]"#),
        "2 references"
    );
    assert_eq!(human_result_from_text("textDocument/documentSymbol", r#"[{"range":1}]"#), "1 symbols");
    assert_eq!(
        human_result_from_text("textDocument/diagnostic", r#"{"severity":1,"severity":2}"#),
        "2 diagnostics"
    );
    assert_eq!(
        human_result_from_text("textDocument/hover", r#"{"value": "```solidity\nfunction foo()\n```"}"#),
        "function foo() ```\"}"
    );
    assert_eq!(human_result_from_text("textDocument/hover", "plain"), "hover content");
    assert_eq!(human_result_from_text("textDocument/foo", "abc"), "abc");
}

#[test]
fn method_summaries() {
    assert_eq!(
        summarize_location(&j(r#"[{"uri":"file:///x/A.sol","range":{"start":{"line":5}}}]"#)),
        "`A.sol:5`"
    );
    assert_eq!(summarize_location(&j(r#"{"targetUri":"file:///B.sol"}"#)), "`B.sol`");
    assert_eq!(summarize_location(&j("null")), "empty");
    assert_eq!(summarize_references(&j("[{},{}]")), "2 references");
    assert_eq!(summarize_references(&j("[]")), "0 references");
    assert_eq!(summarize_references(&j("null")), "empty");
    assert_eq!(
        summarize_hover(&j(r#"{"contents":{"kind":"markdown","value":"```solidity\nfunction f()\n```"}}"#)),
        "function f()"
    );
    assert_eq!(summarize_hover(&j(r#"{"contents":""}"#)), "empty");
    assert_eq!(
        summarize_completion(&j(
            r#"{"items":[{"label":"a"},{"label":"b"},{"label":"c"},{"label":"d"}]}"#
        )),
        "4 items (a, b, c)"
    );
    assert_eq!(summarize_completion(&j("[1,2]")), "2 items");
    assert_eq!(summarize_diagnostics(&j(r#"{"diagnostics":[1,2]}"#)), "2 diagnostics");
    assert_eq!(summarize_diagnostics(&j("null")), "0 diagnostics");
    assert_eq!(summarize_symbols(&j("[1,2,3]")), "3 symbols");
    assert_eq!(summarize_links(&j("[]")), "0 links");
    assert_eq!(summarize_rename(&j(r#"{"range":{"start":{"line":3}}}"#)), "ready (line 3)");
    assert_eq!(summarize_rename(&j(r#"{"start":{"line":1}}"#)), "ready (line 1)");
    assert_eq!(summarize_rename(&j(r#"{"changes":{"a":[1,2],"b":[3]}}"#)), "3 edits in 2 files");
    assert_eq!(
        summarize_rename(&j(r#"{"documentChanges":[{"edits":[1]},{"edits":[2,3]}]}"#)),
        "3 edits in 2 files"
    );
    assert_eq!(summarize_rename(&j(r#"{"documentChanges":[{}]}"#)), "1 files");
    assert_eq!(summarize_inlay_hints(&j(r#"[{"label":"x"},{"label":[1]}]"#)), "2 hints (x)");
    assert_eq!(summarize_semantic_tokens(&j(r#"{"data":[1,2,3,4,5,6,7,8,9,10,11]}"#)), "2 tokens");
    assert_eq!(summarize_semantic_tokens(&j(r#"{"resultId":"1"}"#)), "delta");
    assert_eq!(
        summarize_signature_help(&j(r#"{"signatures":[{"label":"f(uint a)"}]}"#)),
        "f(uint a)"
    );
    assert_eq!(summarize_formatting(&j("[{},{}]")), "2 edits");
    assert_eq!(format_response_fallback(&j(r#"{"a":1}"#)), r#"{"a":1}"#);
}

#[test]
fn human_results_dispatch_on_method() {
    let srv = j(r#"{"status":"ok","response":"[{\"uri\":\"file:///p/C.sol\",\"range\":{\"start\":{\"line\":9}}}]"}"#);
    assert_eq!(human_result("textDocument/definition", &srv), "`C.sol:9`");
    assert_eq!(human_result("textDocument/references", &srv), "1 references");
    let init = j(r#"{"status":"ok","response":{"capabilities":{}}}"#);
    assert_eq!(human_result("initialize", &init), "ok");
    let raw = j(r#"{"status":"ok","response":"[{\"uri\": truncated"}"#);
    assert_eq!(human_result("textDocument/references", &raw), "1 references");
}

#[test]
fn compact_rendering() {
    assert_eq!(compact_json(&j("[1,2,3]"), 2), "Array(3) [1, 2, ... 1 more]");
    assert_eq!(compact_json(&j(r#"{"a":"x","b":null}"#), 5), r#"{ a: "x", b: null }"#);
    assert_eq!(compact_json(&j("[]"), 5), "[]");
    assert_eq!(compact_json(&j("{}"), 5), "{}");
    assert_eq!(compact_json(&j("true"), 5), "true");
    let long = "a".repeat(81);
    let expected = format!("\"{}...\"", "a".repeat(77));
    assert_eq!(compact_json(&JsonValue::from_str(&long), 5), expected);
    let wide = "\u{e9}".repeat(41);
    assert_eq!(try_compact_json(&JsonValue::from_str(&wide), 5), None);
}

#[test]
fn truncated_documents_note_what_was_cut() {
    assert_eq!(text_of(&truncate_json(&j("[1,2,3]"), 2)), r#"[1,2,"... 1 more (3 total)"]"#);
    assert_eq!(text_of(&truncate_json(&j(r#"{"a":[1,2,3]}"#), 5)), r#"{"a":[1,2,3]}"#);
    assert_eq!(text_of(&truncate_json(&j("[[1,2],[3]]"), 1)), r#"[[1,"... 1 more (2 total)"],"... 1 more (2 total)"]"#);
}

#[test]
fn server_names_come_from_the_first_benchmark() {
    let benches = vec![
        j(r#"{"servers":[{"server":"a"},{"x":1},{"server":"b"}]}"#),
        j(r#"{"servers":[{"server":"c"}]}"#),
    ];
    assert_eq!(collect_server_names(&benches), vec!["a".to_string(), "b".to_string()]);
}

#[test]
fn feature_table_columns_follow_the_data() {
    let ss = match j(r#"[
        {"server": "a", "status": "ok", "response": "x", "mean_ms": 1.5, "p50_ms": 1.0, "rss_kb": 10},
        {"server": "b", "status": "ok", "response": "y", "mean_ms": 2.5}
    ]"#) {
        JsonValue::Array(v) => v,
        _ => panic!("array"),
    };
    let (h, d) = lsp_bench::analysis::feature_header(&ss, Some("a"), 2);
    assert_eq!(h, "| Server | Status | Mem | Mean | p50 | p95 | Spread | Spike | Overhead | vs a |");
    assert_eq!(d, "|--------|--------|-----|------|-----|-----|--------|-------|----------|------|");
    assert_eq!(lsp_bench::analysis::feature_flags(&ss, None, 2), (true, true, false, true, false));
    let (h1, _) = lsp_bench::analysis::feature_header(&ss[..1].iter().map(|x| x.duplicate()).collect(), None, 1);
    assert_eq!(h1, "| Server | Status | Mem | Mean | p50 | p95 | Spread | Spike |");
}

#[test]
fn versus_cells_without_means() {
    let v = lsp_bench::analysis::versus_cell;
    assert_eq!(v(&j(r#"{"status":"error","error":"request timeout"}"#), true, false), Some(" timeout |".to_string()));
    assert_eq!(v(&j(r#"{"status":"ok","response":"null"}"#), true, false), Some(" empty |".to_string()));
    assert_eq!(v(&j(r#"{"status":"error","error":"EOF"}"#), true, false), Some(" crash |".to_string()));
    assert_eq!(v(&j(r#"{"status":"ok"}"#), false, true), Some(" base failed |".to_string()));
    assert_eq!(v(&j(r#"{"status":"ok"}"#), false, false), Some(" both failed |".to_string()));
    assert_eq!(v(&j(r#"{"status":"ok"}"#), true, true), None);
}
