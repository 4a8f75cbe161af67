use lsp_bench::json::JsonValue;
use lsp_bench::parse::decode_json;
use lsp_bench::requests::{
    delta_request, document_request, reference_request, request_params, with_position,
    MethodOverrides,
};
use lsp_bench::serialize::to_json_string;

fn none() -> MethodOverrides {
    MethodOverrides {
        line: None,
        col: None,
        start_line: None,
        start_col: None,
        trigger: None,
        new_name: None,
        file_uri: None,
    }
}

fn params(method: &str, o: Option<&MethodOverrides>) -> String {
    to_json_string(&request_params(method, "file:///p/src/A.sol", 102, 15, None, o).expect("method has params"))
}

#[test]
fn position_requests_fall_back_to_the_configured_position() {
    assert_eq!(
        params("textDocument/hover", None),
        r#"{"position":{"character":15,"line":102},"textDocument":{"uri":"file:///p/src/A.sol"}}"#
    );
    let o = MethodOverrides { line: Some(10), ..none() };
    assert_eq!(
        params("textDocument/definition", Some(&o)),
        r#"{"position":{"character":15,"line":10},"textDocument":{"uri":"file:///p/src/A.sol"}}"#
    );
}

#[test]
fn method_specific_params() {
    assert_eq!(
        params("textDocument/references", None),
        r#"{"context":{"includeDeclaration":true},"position":{"character":15,"line":102},"textDocument":{"uri":"file:///p/src/A.sol"}}"#
    );
    assert_eq!(
        params("textDocument/rename", None),
        r#"{"newName":"__lsp_bench_rename__","position":{"character":15,"line":102},"textDocument":{"uri":"file:///p/src/A.sol"}}"#
    );
    assert_eq!(params("workspace/symbol", None), r#"{"query":""}"#);
    assert_eq!(params("textDocument/documentSymbol", None), r#"{"textDocument":{"uri":"file:///p/src/A.sol"}}"#);
    assert_eq!(
        params("textDocument/formatting", None),
        r#"{"options":{"insertSpaces":true,"tabSize":4},"textDocument":{"uri":"file:///p/src/A.sol"}}"#
    );
    assert_eq!(
        params("textDocument/inlayHint", None),
        r#"{"range":{"end":{"character":0,"line":9999},"start":{"character":0,"line":0}},"textDocument":{"uri":"file:///p/src/A.sol"}}"#
    );
    let o = MethodOverrides { start_line: Some(5), ..none() };
    assert_eq!(
        params("textDocument/semanticTokens/range", Some(&o)),
        r#"{"range":{"end":{"character":15,"line":102},"start":{"character":0,"line":5}},"textDocument":{"uri":"file:///p/src/A.sol"}}"#
    );
    assert_eq!(
        params("textDocument/selectionRange", None),
        r#"{"positions":[{"character":15,"line":102}],"textDocument":{"uri":"file:///p/src/A.sol"}}"#
    );
    assert!(request_params("initialize", "x", 0, 0, None, None).is_none());
}

#[test]
fn completion_trigger_precedence() {
    let uri = "file:///a.sol";
    let plain = to_json_string(&request_params("textDocument/completion", uri, 1, 2, None, None).unwrap());
    assert_eq!(plain, r#"{"position":{"character":2,"line":1},"textDocument":{"uri":"file:///a.sol"}}"#);
    let legacy = to_json_string(&request_params("textDocument/completion", uri, 1, 2, Some("."), None).unwrap());
    assert_eq!(
        legacy,
        r#"{"context":{"triggerCharacter":".","triggerKind":2},"position":{"character":2,"line":1},"textDocument":{"uri":"file:///a.sol"}}"#
    );
    let o = MethodOverrides { trigger: Some(":".to_string()), ..none() };
    let own = to_json_string(&request_params("textDocument/completion", uri, 1, 2, Some("."), Some(&o)).unwrap());
    assert!(own.starts_with(r#"{"context":{"triggerCharacter":":","#));
}

#[test]
fn file_operation_params() {
    assert_eq!(
        params("workspace/willRenameFiles", None),
        r#"{"files":[{"newUri":"file:///p/src/__lsp_bench_renamed__.sol","oldUri":"file:///p/src/A.sol"}]}"#
    );
    let o = MethodOverrides {
        new_name: Some("B.sol".to_string()),
        file_uri: Some("file:///p/lib/C.sol".to_string()),
        ..none()
    };
    assert_eq!(
        params("workspace/willRenameFiles", Some(&o)),
        r#"{"files":[{"newUri":"file:///p/lib/B.sol","oldUri":"file:///p/lib/C.sol"}]}"#
    );
    assert_eq!(
        params("workspace/willCreateFiles", None),
        r#"{"files":[{"uri":"file:///p/src/__lsp_bench_created__.sol"}]}"#
    );
    assert_eq!(params("workspace/willDeleteFiles", Some(&o)), r#"{"files":[{"uri":"file:///p/lib/C.sol"}]}"#);
}

#[test]
fn snapshot_and_follow_up_requests() {
    let p = decode_json(r#"{"position":{"character":1,"line":1},"textDocument":{"uri":"u"}}"#).unwrap();
    assert_eq!(
        to_json_string(&with_position(p, 7, 3)),
        r#"{"position":{"character":3,"line":7},"textDocument":{"uri":"u"}}"#
    );
    let q = decode_json(r#"{"textDocument":{"uri":"u"}}"#).unwrap();
    assert_eq!(
        to_json_string(&with_position(q, 7, 3)),
        r#"{"textDocument":{"uri":"u"},"position":{"character":3,"line":7}}"#
    );
    assert_eq!(to_json_string(&with_position(JsonValue::Null, 1, 1)), "null");
    assert_eq!(
        to_json_string(&reference_request("u", 6, 5)),
        r#"{"context":{"includeDeclaration":true},"position":{"character":5,"line":6},"textDocument":{"uri":"u"}}"#
    );
    assert_eq!(to_json_string(&document_request("u")), r#"{"textDocument":{"uri":"u"}}"#);
    assert_eq!(
        to_json_string(&delta_request("u", "7")),
        r#"{"previousResultId":"7","textDocument":{"uri":"u"}}"#
    );
}

#[test]
fn command_words_split_on_whitespace() {
    let w = lsp_bench::requests::command_words("  solidity-language-server \t--stdio\n x ");
    assert_eq!(w, vec!["solidity-language-server", "--stdio", "x"]);
    assert!(lsp_bench::requests::command_words(" \t ").is_empty());
    let expected: Vec<String> = "a\u{3000}b  c".split_whitespace().map(String::from).collect();
    assert_eq!(lsp_bench::requests::command_words("a\u{3000}b  c"), expected);
}

#[test]
fn replay_target_reads_method_params_and_file() {
    let rpc = lsp_bench::parse::decode_json(
        r#"{"jsonrpc":"2.0","id":1,"method":"textDocument/hover","params":{"textDocument":{"uri":"file:///p/src/A.sol"},"position":{"line":1,"character":2}}}"#,
    )
    .unwrap();
    let (m, p, f) = lsp_bench::requests::replay_target(&rpc).unwrap();
    assert_eq!(m, "textDocument/hover");
    assert_eq!(f, Some("/p/src/A.sol".to_string()));
    assert_eq!(
        lsp_bench::serialize::to_json_string(&p),
        r#"{"position":{"character":2,"line":1},"textDocument":{"uri":"file:///p/src/A.sol"}}"#
    );
    let bare = lsp_bench::parse::decode_json(r#"{"method":"shutdown"}"#).unwrap();
    let (_, p2, f2) = lsp_bench::requests::replay_target(&bare).unwrap();
    assert_eq!(lsp_bench::serialize::to_json_string(&p2), "{}");
    assert_eq!(f2, None);
    let none = lsp_bench::parse::decode_json(r#"{"id":3}"#).unwrap();
    assert!(lsp_bench::requests::replay_target(&none).is_none());
}

#[test]
fn delta_requests_chain_result_ids() {
    let first = decode_json(r#"{"id":1,"result":{"resultId":"7","data":[]}}"#).unwrap();
    let none = decode_json(r#"{"id":2,"result":{"edits":[]}}"#).unwrap();
    let id = lsp_bench::requests::next_result_id("0", &first);
    assert_eq!(id, "7");
    assert_eq!(lsp_bench::requests::next_result_id(&id, &none), "7");
    assert_eq!(lsp_bench::requests::next_result_id("0", &none), "0");
}
