use lsp_bench::edits::{apply_text_edits_from_json, lsp_pos_to_byte_offset, try_apply_text_edits_from_json};
use lsp_bench::expect::{
    check_expectation, completion_item_expect_to_string, completion_item_matches,
    CompletionItemExpect, ExpectConfig,
};
use lsp_bench::json::JsonValue;
use lsp_bench::parse::decode_json;
use lsp_bench::response::{
    is_valid_response, is_valid_response_for_method, method_allows_null_result, response_summary,
};
use lsp_bench::serialize::to_json_string;

fn j(text: &str) -> JsonValue {
    decode_json(text).expect("test input is JSON")
}

fn s(x: &str) -> String {
    x.to_string()
}

fn edits(text: &str) -> Vec<JsonValue> {
    match j(text) {
        JsonValue::Array(v) => v,
        _ => panic!("edits are an array"),
    }
}

#[test]
fn positions_resolve_to_byte_offsets() {
    let t = "ab\ncd\u{e9}f\nxyz";
    assert_eq!(lsp_pos_to_byte_offset(t, 0, 0), 0);
    assert_eq!(lsp_pos_to_byte_offset(t, 0, 5), 2);
    assert_eq!(lsp_pos_to_byte_offset(t, 1, 3), 3 + 2 + 2);
    assert_eq!(lsp_pos_to_byte_offset(t, 1, 4), 3 + 2 + 2 + 1);
    assert_eq!(lsp_pos_to_byte_offset(t, 2, 1), 10);
    assert_eq!(lsp_pos_to_byte_offset(t, 7, 0), t.len());
}

#[test]
fn edits_apply_from_the_end_backwards() {
    let e = edits(r#"[
        {"range":{"start":{"line":0,"character":0},"end":{"line":0,"character":3}},"newText":"uint"},
        {"range":{"start":{"line":1,"character":4},"end":{"line":1,"character":5}},"newText":"y"}
    ]"#);
    assert_eq!(apply_text_edits_from_json(s("int a;\nint x;\n"), &e), "uint a;\nint y;\n");
}

#[test]
fn no_edits_leave_text_unchanged() {
    assert_eq!(apply_text_edits_from_json(s("same"), &[]), "same");
    let malformed = edits(r#"[{"range":{"start":{"line":0}},"newText":"x"}]"#);
    assert_eq!(apply_text_edits_from_json(s("same"), &malformed), "same");
}

#[test]
fn out_of_range_edits_are_skipped_and_split_characters_refused() {
    let reversed = edits(r#"[{"range":{"start":{"line":0,"character":3},"end":{"line":0,"character":1}},"newText":"x"}]"#);
    assert_eq!(apply_text_edits_from_json(s("abcd"), &reversed), "abcd");
    assert_eq!(try_apply_text_edits_from_json(s("abcd"), &reversed), Some(s("abcd")));
    let insert = edits(r#"[{"range":{"start":{"line":0,"character":1},"end":{"line":0,"character":1}},"newText":"-"}]"#);
    assert_eq!(apply_text_edits_from_json(s("\u{e9}t\u{e9}"), &insert), "\u{e9}-t\u{e9}");
}

#[test]
fn null_results_allowed_only_for_file_operations() {
    assert!(method_allows_null_result("workspace/willRenameFiles"));
    assert!(method_allows_null_result("workspace/willDeleteFiles"));
    assert!(!method_allows_null_result("textDocument/hover"));
    assert!(is_valid_response_for_method("workspace/willCreateFiles", &j(r#"{"id":1,"result":null}"#)));
    assert!(!is_valid_response_for_method("textDocument/hover", &j(r#"{"id":1,"result":null}"#)));
    assert!(!is_valid_response_for_method("textDocument/definition", &j(r#"{"id":1,"result":[]}"#)));
    assert!(!is_valid_response_for_method("textDocument/completion", &j(r#"{"id":1,"result":{"items":[]}}"#)));
    assert!(is_valid_response_for_method("textDocument/completion", &j(r#"{"id":1,"result":{"items":[1]}}"#)));
    assert!(!is_valid_response_for_method("x", &j(r#"{"id":1,"error":{"code":1}}"#)));
    assert!(!is_valid_response_for_method("x", &j(r#"{"id":1}"#)));
    assert!(is_valid_response(&j(r#"{"id":1,"result":{"contents":"x"}}"#)));
}

#[test]
fn summaries_of_responses() {
    let err = j(r#"{"id":1,"error":{"code":-32601,"message":"Method not found"}}"#);
    assert_eq!(to_json_string(&response_summary(&err, 80)), r#"{"error":"Method not found"}"#);
    let anon = j(r#"{"id":1,"error":{"code":1}}"#);
    assert_eq!(to_json_string(&response_summary(&anon, 80)), r#"{"error":"unknown"}"#);
    assert_eq!(to_json_string(&response_summary(&j(r#"{"id":1,"result":[1]}"#), 80)), "[1]");
    assert_eq!(to_json_string(&response_summary(&j(r#"{"method":"m","params":{"a":1}}"#), 80)), r#"{"a":1}"#);
    assert_eq!(to_json_string(&response_summary(&j(r#"{"id":1}"#), 80)), "null");
}

fn item(label: Option<&str>) -> CompletionItemExpect {
    CompletionItemExpect { label: label.map(s), ..Default::default() }
}

#[test]
fn completion_item_predicates() {
    let it = j(r#"{"label":"transfer","detail":"function transfer(address,uint256)","sortText":"0001","additionalTextEdits":[{"newText":"import \"./A.sol\";"}]}"#);
    assert!(completion_item_matches(&it, &item(Some("transfer"))));
    assert!(!completion_item_matches(&it, &item(Some("approve"))));
    let e = CompletionItemExpect {
        detail_contains: Some(s("address")),
        sort_text_prefix: Some(s("00")),
        has_additional_text_edits: Some(true),
        additional_text_edits_contain: Some(s("A.sol")),
        ..Default::default()
    };
    assert!(completion_item_matches(&it, &e));
    let none = CompletionItemExpect { has_additional_text_edits: Some(false), ..Default::default() };
    assert!(!completion_item_matches(&it, &none));
    assert!(completion_item_matches(&j(r#"{"label":"x"}"#), &none));
}

#[test]
fn completion_item_expectations_print() {
    assert_eq!(completion_item_expect_to_string(&CompletionItemExpect::default()), "{}");
    let e = CompletionItemExpect {
        label: Some(s("a")),
        has_additional_text_edits: Some(false),
        additional_text_edits_contain: Some(s("b")),
        ..Default::default()
    };
    assert_eq!(
        completion_item_expect_to_string(&e),
        "{label=a, hasAdditionalTextEdits=false, additionalTextEditsContain=b}"
    );
}

#[test]
fn expectation_checks_and_their_errors() {
    let loc = j(r#"{"result":[{"uri":"file:///p/src/A.sol","range":{"start":{"line":4}}}]}"#);
    let ok = ExpectConfig { file: Some(s("src/A.sol")), line: Some(4), count: Some(1), min_count: Some(1), ..Default::default() };
    assert_eq!(check_expectation(&loc, &ok), Ok(()));
    let file = ExpectConfig { file: Some(s("B.sol")), ..Default::default() };
    assert_eq!(check_expectation(&loc, &file), Err(s("file: expected \"B.sol\" but got \"A.sol\"")));
    let count = ExpectConfig { count: Some(2), ..Default::default() };
    assert_eq!(check_expectation(&loc, &count), Err(s("count: expected 2 but got 1")));
    let min = ExpectConfig { min_count: Some(3), ..Default::default() };
    assert_eq!(check_expectation(&loc, &min), Err(s("minCount: expected >= 3 but got 1")));
    let no_range = ExpectConfig { line: Some(1), ..Default::default() };
    assert_eq!(
        check_expectation(&j(r#"{"result":{"uri":"x"}}"#), &no_range),
        Err(s("line: expected 1 but response has no range"))
    );
    assert_eq!(check_expectation(&j(r#"{"result":[]}"#), &ok), Err(s("response is empty array")));
    assert_eq!(check_expectation(&j(r#"{"result":null}"#), &ok), Err(s("response is null")));
}

#[test]
fn completion_expectations() {
    let resp = j(r#"{"result":{"items":[{"label":"a"},{"label":"b"}]}}"#);
    let want = ExpectConfig { contains_items: vec![item(Some("b"))], absent_items: vec![item(Some("z"))], ..Default::default() };
    assert_eq!(check_expectation(&resp, &want), Ok(()));
    let missing = ExpectConfig { contains_items: vec![item(Some("z"))], ..Default::default() };
    assert_eq!(
        check_expectation(&resp, &missing),
        Err(s("containsItems: no completion item matched {label=z}"))
    );
    let present = ExpectConfig { absent_items: vec![item(Some("a"))], ..Default::default() };
    assert_eq!(
        check_expectation(&resp, &present),
        Err(s("absentItems: found unexpected completion item matching {label=a}"))
    );
    let empty = j(r#"{"result":{"items":[]}}"#);
    assert_eq!(
        check_expectation(&empty, &missing),
        Err(s("containsItems/absentItems: response has no completion items"))
    );
}

#[test]
fn count_compares_array_length_even_when_empty() {
    let zero = ExpectConfig { count: Some(0), ..Default::default() };
    assert_eq!(check_expectation(&j(r#"{"result":[]}"#), &zero), Ok(()));
    let min = ExpectConfig { min_count: Some(1), ..Default::default() };
    assert_eq!(check_expectation(&j(r#"{"result":[]}"#), &min), Err(s("minCount: expected >= 1 but got 0")));
    let line = ExpectConfig { line: Some(0), count: Some(0), ..Default::default() };
    assert_eq!(check_expectation(&j(r#"{"result":[]}"#), &line), Err(s("response is empty array")));
}

#[test]
fn stored_responses_are_cut_to_the_limit() {
    let long = j(r#"{"id":1,"result":[{"uri":"file:///p/A.sol"},{"uri":"file:///p/B.sol"}]}"#);
    assert_eq!(
        to_json_string(&response_summary(&long, 10)),
        r#""[{\"uri\":\"f...""#
    );
    assert_eq!(
        to_json_string(&response_summary(&long, 0)),
        r#"[{"uri":"file:///p/A.sol"},{"uri":"file:///p/B.sol"}]"#
    );
    let text = j(r#"{"id":1,"result":"abcdefgh"}"#);
    assert_eq!(to_json_string(&response_summary(&text, 3)), r#""abc...""#);
    assert_eq!(to_json_string(&response_summary(&text, 8)), r#""abcdefgh""#);
    let err = j(r#"{"id":1,"error":{"message":"a very long error message indeed"}}"#);
    assert_eq!(
        to_json_string(&response_summary(&err, 5)),
        r#"{"error":"a very long error message indeed"}"#
    );
}

#[test]
fn line_compares_the_whole_number() {
    let far = j(r#"{"result":[{"uri":"file:///p/A.sol","range":{"start":{"line":4294967300}}}]}"#);
    let four = ExpectConfig { line: Some(4), ..Default::default() };
    assert_eq!(check_expectation(&far, &four), Err(s("line: expected 4 but got 4294967300")));
}

#[test]
fn null_result_is_always_rejected() {
    let null = j(r#"{"result":null}"#);
    assert_eq!(check_expectation(&null, &ExpectConfig::default()), Err(s("response is null")));
    let zero = ExpectConfig { count: Some(0), ..Default::default() };
    assert_eq!(check_expectation(&null, &zero), Err(s("response is null")));
    assert_eq!(check_expectation(&j(r#"{"result":{"a":1}}"#), &ExpectConfig::default()), Ok(()));
    assert_eq!(check_expectation(&j(r#"{"result":[]}"#), &ExpectConfig::default()), Ok(()));
}
