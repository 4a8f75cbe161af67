use lsp_bench::lifecycle::{rename_restore_step, restore_actions, RenameEvent, RestoreEntry};
use lsp_bench::json::JsonValue;
use lsp_bench::lifecycle::{apply_rename_edits, closing_rename};
use lsp_bench::parse::decode_json;
use lsp_bench::protocol::{
    diagnostics_count, frame_message, header_line, initial_header_state, is_response_to,
    log_message, notification_message, parse_usize, progress_action, reply_message,
    request_message, HeaderStep, ProgressAction,
};
use lsp_bench::serialize::to_json_string;

fn j(text: &str) -> JsonValue {
    decode_json(text).expect("test input is JSON")
}

fn chars(s: &str) -> Vec<char> {
    s.chars().collect()
}

fn s(x: &str) -> String {
    x.to_string()
}

/// Feeds header lines to the reader the way the reader thread does, and
/// returns the body length it settles on (or None when it skips).
fn read_header(lines: &[&str]) -> Option<usize> {
    let mut st = initial_header_state();
    for l in lines {
        match header_line(&st, l) {
            HeaderStep::Next(n) => st = n,
            HeaderStep::Body(n) => return Some(n),
            HeaderStep::Skip => return None,
        }
    }
    panic!("header did not end");
}

#[test]
fn usize_values_read_as_std_reads_them() {
    for t in ["0", "7", "+42", "0042", "18446744073709551615", "", "+", "-1", "12a", " 1", "18446744073709551616", "99999999999999999999"] {
        assert_eq!(parse_usize(&chars(t)), t.parse::<usize>().ok(), "input {:?}", t);
    }
}

#[test]
fn framing_counts_utf8_bytes() {
    assert_eq!(frame_message("{}"), "Content-Length: 2\r\n\r\n{}");
    assert_eq!(frame_message("\"\u{e9}\""), "Content-Length: 4\r\n\r\n\"\u{e9}\"");
}

#[test]
fn framed_message_reads_back_its_length() {
    let body = r#"{"jsonrpc":"2.0","method":"initialized","params":{}}"#;
    let framed = frame_message(body);
    let mut parts = framed.split_inclusive('\n');
    let first = parts.next().unwrap();
    let blank = parts.next().unwrap();
    assert_eq!(read_header(&[first, blank]), Some(body.len()));
}

#[test]
fn header_reader_cases() {
    assert_eq!(read_header(&["Content-Length: 12\r\n", "Content-Type: application/json\r\n", "\r\n"]), Some(12));
    assert_eq!(read_header(&["\r\n", "Content-Length: 5\r\n", "\r\n"]), Some(5));
    assert_eq!(read_header(&["Content-Type: x\r\n", "\r\n"]), None);
    assert_eq!(read_header(&["Content-Length: abc\r\n", "Content-Length:  9 \r\n", "\r\n"]), Some(9));
    assert_eq!(read_header(&["X-Other: 1\r\n", "Content-Length: 3\n", "\n"]), Some(3));
}

#[test]
fn envelopes_serialize_like_serde_json() {
    let params = j(r#"{"textDocument":{"uri":"file:///a.sol"}}"#);
    let req = request_message(3, "textDocument/hover", params);
    assert_eq!(
        to_json_string(&req),
        r#"{"id":3,"jsonrpc":"2.0","method":"textDocument/hover","params":{"textDocument":{"uri":"file:///a.sol"}}}"#
    );
    let note = notification_message("initialized", j("{}"));
    assert_eq!(to_json_string(&note), r#"{"jsonrpc":"2.0","method":"initialized","params":{}}"#);
    let reply = reply_message(j(r#""tok-1""#), JsonValue::Null);
    assert_eq!(to_json_string(&reply), r#"{"id":"tok-1","jsonrpc":"2.0","result":null}"#);
    assert_eq!(to_json_string(&request_message(-2, "x", JsonValue::Null)), r#"{"id":-2,"jsonrpc":"2.0","method":"x","params":null}"#);
}

#[test]
fn responses_match_by_integer_id() {
    assert!(is_response_to(&j(r#"{"id":4,"result":null}"#), 4));
    assert!(!is_response_to(&j(r#"{"id":5,"result":null}"#), 4));
    assert!(!is_response_to(&j(r#"{"id":"4","result":null}"#), 4));
    assert!(!is_response_to(&j(r#"{"method":"x"}"#), 4));
}

#[test]
fn progress_waiting_decisions() {
    assert!(matches!(
        progress_action(&j(r#"{"id":1,"method":"window/workDoneProgress/create","params":{}}"#)),
        ProgressAction::Reply
    ));
    assert!(matches!(
        progress_action(&j(r#"{"method":"$/progress","params":{"token":"t","value":{"kind":"end"}}}"#)),
        ProgressAction::Finished
    ));
    assert!(matches!(
        progress_action(&j(r#"{"method":"$/progress","params":{"value":{"kind":"report"}}}"#)),
        ProgressAction::Wait
    ));
    assert!(matches!(progress_action(&j(r#"{"id":1,"result":null}"#)), ProgressAction::Wait));
}

#[test]
fn diagnostics_and_logs() {
    assert_eq!(
        diagnostics_count(&j(r#"{"method":"textDocument/publishDiagnostics","params":{"diagnostics":[{},{}]}}"#)),
        Some(2)
    );
    assert_eq!(diagnostics_count(&j(r#"{"method":"textDocument/publishDiagnostics","params":{}}"#)), Some(0));
    assert_eq!(diagnostics_count(&j(r#"{"method":"window/logMessage"}"#)), None);
    assert_eq!(
        log_message(&j(r#"{"method":"window/logMessage","params":{"type":3,"message":"indexed"}}"#)),
        Some(s("indexed"))
    );
    assert_eq!(log_message(&j(r#"{"method":"window/logMessage","params":{"message":1}}"#)), None);
    assert_eq!(log_message(&j(r#"{"method":"other","params":{"message":"x"}}"#)), None);
}

#[test]
fn rename_sequence_is_closed_back_to_the_start() {
    assert_eq!(
        closing_rename(&vec![(s("src/A.sol"), s("B.sol"))]),
        Some((s("src/B.sol"), s("A.sol")))
    );
    assert_eq!(
        closing_rename(&vec![(s("src/A.sol"), s("B.sol")), (s("src/B.sol"), s("A.sol"))]),
        None
    );
    assert_eq!(
        closing_rename(&vec![(s("src/A.sol"), s("B.sol")), (s("src/B.sol"), s("C.sol"))]),
        Some((s("src/C.sol"), s("A.sol")))
    );
    assert_eq!(closing_rename(&vec![(s("A.sol"), s("B.sol"))]), Some((s("B.sol"), s("A.sol"))));
    assert_eq!(closing_rename(&vec![]), None);
}

#[test]
fn rename_edits_apply_by_lines_latest_first() {
    let e = match j(r#"[
        {"range":{"start":{"line":0,"character":7},"end":{"line":0,"character":8}},"newText":"B"},
        {"range":{"start":{"line":1,"character":7},"end":{"line":1,"character":8}},"newText":"C"}
    ]"#) {
        JsonValue::Array(v) => v,
        _ => unreachable!(),
    };
    assert_eq!(
        apply_rename_edits("import A;\nimport D;\n", &e),
        Some(s("import B;\nimport C;\n"))
    );
    // Lines count without their carriage return, one byte per line break.
    assert_eq!(
        apply_rename_edits("ab\r\ncd", &match j(r#"[{"range":{"start":{"line":1,"character":0},"end":{"line":1,"character":1}},"newText":"X"}]"#) {
            JsonValue::Array(v) => v,
            _ => unreachable!(),
        }),
        Some(s("ab\rXcd"))
    );
    let past = match j(r#"[{"range":{"start":{"line":5,"character":0},"end":{"line":5,"character":0}},"newText":"x"}]"#) {
        JsonValue::Array(v) => v,
        _ => unreachable!(),
    };
    assert_eq!(apply_rename_edits("one line", &past), None);
    let missing = match j(r#"[{"newText":"Z"}]"#) {
        JsonValue::Array(v) => v,
        _ => unreachable!(),
    };
    assert_eq!(apply_rename_edits("abc", &missing), Some(s("Zabc")));
}

#[test]
fn version_lines() {
    assert_eq!(
        lsp_bench::versions::solc_version("solc, the solidity compiler commandline interface\nVersion: 0.8.26+commit.8a97fa7a.Darwin.appleclang\n"),
        Some(s("0.8.26+commit.8a97fa7a.Darwin.appleclang"))
    );
    assert_eq!(lsp_bench::versions::solc_version("no version here\n"), None);
    assert_eq!(lsp_bench::versions::solc_version("Version:Version:  x \n"), Some(s("x")));
    assert_eq!(lsp_bench::versions::first_output_line("  tool 1.2.3  \nmore\n"), "tool 1.2.3");
    assert_eq!(lsp_bench::versions::first_output_line(""), "");
}

#[test]
fn reply_answers_only_its_request() {
    let reply = reply_message(j("7"), JsonValue::Null);
    assert!(is_response_to(&reply, 7));
    assert!(!is_response_to(&reply, 8));
    let note = notification_message("initialized", j("{}"));
    assert!(!is_response_to(&note, 7));
}

#[test]
fn latest_label_takes_the_detected_version() {
    assert_eq!(
        lsp_bench::versions::resolve_latest(
            "mmsaki latest",
            "https://github.com/mmsaki/solidity-language-server/",
            "solidity-language-server 0.1.24+commit.abc"
        ),
        Some((
            "mmsaki".to_string(),
            "https://github.com/mmsaki/solidity-language-server/releases/tag/v0.1.24".to_string()
        ))
    );
    assert_eq!(
        lsp_bench::versions::resolve_latest("x latest latest", "", "1.0"),
        Some(("x".to_string(), String::new()))
    );
    assert_eq!(lsp_bench::versions::resolve_latest("solc", "l", "1.0"), None);
}

#[test]
fn rename_restore_record_tracks_moves() {
    let mut st: Vec<RestoreEntry> = Vec::new();
    rename_restore_step(&mut st, RenameEvent::Touch { path: "/p/A.sol".into(), existed_at_start: true, content: Some(b"a".to_vec()) });
    rename_restore_step(&mut st, RenameEvent::Moved { from: "/p/A.sol".into(), to: "/p/B.sol".into() });
    rename_restore_step(&mut st, RenameEvent::Touch { path: "/p/A.sol".into(), existed_at_start: true, content: Some(b"x".to_vec()) });
    rename_restore_step(&mut st, RenameEvent::Touch { path: "/p/New.sol".into(), existed_at_start: false, content: Some(b"n".to_vec()) });
    rename_restore_step(&mut st, RenameEvent::Moved { from: "/p/B.sol".into(), to: "/p/C.sol".into() });
    let acts = restore_actions(&st);
    assert_eq!(acts.len(), 1);
    assert_eq!(acts[0].from, Some("/p/C.sol".to_string()));
    assert_eq!(acts[0].to, "/p/A.sol");
    assert_eq!(acts[0].content, b"a".to_vec());
}
