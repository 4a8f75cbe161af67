use lsp_bench::competition::generate_competition;
use lsp_bench::json::JsonValue;
use lsp_bench::parse::decode_json;
use lsp_bench::session::{generate_session_md, generate_session_txt};

fn j(text: &str) -> JsonValue {
    decode_json(text).expect("test input is JSON")
}

fn sample() -> JsonValue {
    j(r#"{
        "settings": {"file": "src/A.sol", "project": "v4", "iterations": 10, "warmup": 2,
                     "timeout_secs": 10, "line": 102, "col": 15},
        "servers": [{"name": "s1", "version": "s1 0.1.0"}, {"name": "s2", "version": "s2 2.0.0"}],
        "benchmarks": [{
            "name": "textDocument/hover",
            "input": "{\"a\":1}",
            "servers": [
                {"server": "s1", "status": "ok", "response": "{\"contents\":\"x\"}", "rss_kb": 2048},
                {"server": "s2", "status": "error", "error": "request timeout"}
            ]
        }]
    }"#)
}

#[test]
fn session_txt_exact() {
    let p95 = vec![vec![Some("1.5ms".to_string()), None]];
    let expected = "# v4 / src/A.sol\n\n── textDocument/hover (1.5ms, 2.0 MB) ──\n\n{\n  \"a\": 1\n}\n\n← s1 [content] { contents: \"x\" }\n← s2 [error] timeout\n";
    assert_eq!(generate_session_txt(&sample(), &p95), expected);
}

#[test]
fn session_txt_without_benchmarks() {
    let data = j(r#"{"settings":{"project":"p"}}"#);
    assert_eq!(generate_session_txt(&data, &vec![]), "# p / unknown\n");
}

#[test]
fn session_md_shows_requests_and_responses() {
    let p95 = vec![vec![Some("1.5ms".to_string()), None]];
    let md = generate_session_md(&sample(), &p95);
    assert!(md.starts_with("# Session Log — v4 / src/A.sol\n\n## textDocument/hover\n\n**Request:**\n```json\n{\n  \"a\": 1\n}\n```\n"));
    assert!(md.contains("**s1** (1.5ms, 2.0 MB) — x"));
    assert!(md.contains("<summary>Summary: <code>{ contents: \"x\" }</code></summary>"));
    assert!(md.contains("**s2** — timeout"));
}

#[test]
fn competition_report_header() {
    let latency = vec![vec![Some("1.5ms".to_string()), None]];
    let fastest = vec![vec![true, false]];
    let md = generate_competition(&sample(), &latency, &fastest);
    assert!(md.starts_with("# Solidity LSP Competition\n\nBenchmarked against `v4` — `src/A.sol`.\n\n## Settings\n\n| Setting | Value |\n|---------|-------|\n| File | `src/A.sol` |\n| Position | line 102, col 15 |\n| Iterations | 10 (2 warmup) |\n| Timeout | 10s |\n"));
    assert!(md.contains("## Servers"));
    assert!(md.ends_with("---\n"));
}

fn times_for(means: &[f64]) -> Vec<lsp_bench::readme::ServerTimes> {
    means
        .iter()
        .map(|m| lsp_bench::readme::ServerTimes {
            mean_key: Some(m.to_bits()),
            mean_cell: format!("{:.1}", m),
            mean: format!("{:.1}ms", m),
            p50: format!("{:.1}ms", m),
            p95: format!("{:.1}ms", m),
        })
        .collect()
}

#[test]
fn readme_winner_and_medal_tally() {
    let data = j(r#"{
        "settings": {"project": "p", "file": "A.sol"},
        "servers": [{"name": "a", "version": "1"}, {"name": "b", "version": "2"}],
        "benchmarks": [
            {"name": "initialize", "servers": [
                {"server": "a", "status": "ok", "response": "ok", "mean_ms": 1.0},
                {"server": "b", "status": "ok", "response": "ok", "mean_ms": 2.0}]},
            {"name": "textDocument/hover", "servers": [
                {"server": "a", "status": "ok", "response": "x", "mean_ms": 4.0},
                {"server": "b", "status": "ok", "response": "y", "mean_ms": 3.0}]},
            {"name": "textDocument/definition", "servers": [
                {"server": "a", "status": "ok", "response": "x", "mean_ms": 5.0},
                {"server": "b", "status": "ok", "response": "y", "mean_ms": 6.0}]}
        ]
    }"#);
    let times = vec![times_for(&[1.0, 2.0]), times_for(&[4.0, 3.0]), times_for(&[5.0, 6.0])];
    let md = lsp_bench::readme::generate_readme(&data, "results.json", &times);
    assert!(md.contains("> **\u{1F3C6} Overall Winner: a** \u{2014} 2 \u{1F947} out of 3 benchmarks"));
    assert!(md.contains("| **a** \u{1F3C6} | 2 | 1 | 0 | 8 |\n| **b** | 1 | 2 | 0 | 7 |"));
    assert!(md.contains("| [initialize](#initialize) | 1.0ms \u{1F947} | 2.0ms \u{1F948} |"));
}

#[test]
fn medals_follow_mean_latency() {
    let bench = j(r#"{"name": "textDocument/hover", "servers": [
        {"server": "a", "status": "ok", "response": "x", "mean_ms": 9.0},
        {"server": "b", "status": "ok", "response": "y", "mean_ms": 2.0},
        {"server": "c", "status": "invalid", "response": null, "mean_ms": 1.0},
        {"server": "d", "status": "ok", "response": "z", "mean_ms": 5.0},
        {"server": "e", "status": "ok", "response": "w", "mean_ms": 7.0}]}"#);
    let servers = match bench.get("servers") {
        Some(JsonValue::Array(v)) => v,
        _ => panic!("servers"),
    };
    let times = vec![times_for(&[9.0, 2.0, 1.0, 5.0, 7.0])];
    let (medals, winner) = lsp_bench::readme::rank_servers(servers, &times, 0);
    assert_eq!(medals, vec![0, 1, 0, 2, 3]);
    assert_eq!(winner, Some("b".to_string()));
}

#[test]
fn competition_bolds_fastest_and_marks_responses() {
    let data = j(r#"{
        "settings": {"file": "src/A.sol", "project": "v4"},
        "servers": [{"name": "a", "version": "a 1.0.0"}, {"name": "b", "version": "b 1.0.0"}, {"name": "c", "version": "c 1.0.0"}],
        "benchmarks": [{
            "name": "textDocument/hover",
            "servers": [
                {"server": "a", "status": "ok", "response": {"contents": "x"}},
                {"server": "b", "status": "ok", "response": {"contents": "y"}},
                {"server": "c", "status": "error", "error": "request timeout"}
            ]
        }]
    }"#);
    let latency = vec![vec![Some("1.0ms".to_string()), Some("2.0ms".to_string()), None]];
    let fastest = vec![vec![true, false, false]];
    let md = generate_competition(&data, &latency, &fastest);
    assert!(md.contains(" **1.0ms** | 2.0ms |"), "{}", md);
    assert!(!md.contains(" **1.0ms** \u{26a1}"), "{}", md);
    assert!(md.contains("| Server | p95 | RSS | Result | Responded |\n|--------|-----|-----|--------|-----------|\n| **a** | 1.0ms \u{26a1} | - | "), "{}", md);
    assert!(md.contains(" | \u{2713} |\n| **b** | 2.0ms | - | "), "{}", md);
    assert!(md.contains("| **c** | - | - | timeout | \u{2717} |"), "{}", md);
}

#[test]
fn native_responses_count_as_valid() {
    let ok = j(r#"{"status":"ok","response":[{"uri":"file:///p/Pool.sol"}]}"#);
    assert!(lsp_bench::report::is_valid_result(&ok));
    assert!(!lsp_bench::report::is_valid_result(&j(r#"{"status":"ok","response":[]}"#)));
    assert!(!lsp_bench::report::is_valid_result(&j(r#"{"status":"ok","response":null}"#)));
    assert!(lsp_bench::report::is_valid_result(&j(r#"{"status":"ok","response":"x"}"#)));
    assert!(!lsp_bench::report::is_valid_result(&j(r#"{"status":"ok","response":"no result"}"#)));
}

#[test]
fn scorecard_lists_most_wins_first() {
    let data = j(r#"{
        "settings": {"file": "src/A.sol", "project": "v4"},
        "benchmarks": [
            {"name": "textDocument/hover", "servers": [
                {"server": "a", "status": "ok", "response": {"contents": "x"}},
                {"server": "b", "status": "ok", "response": {"contents": "y"}}]},
            {"name": "textDocument/definition", "servers": [
                {"server": "a", "status": "ok", "response": [{"uri": "file:///A.sol"}]},
                {"server": "b", "status": "ok", "response": [{"uri": "file:///A.sol"}]}]},
            {"name": "textDocument/declaration", "servers": [
                {"server": "a", "status": "ok", "response": [{"uri": "file:///A.sol"}]},
                {"server": "b", "status": "ok", "response": [{"uri": "file:///A.sol"}]}]}
        ]
    }"#);
    let latency = vec![
        vec![Some("2.0ms".to_string()), Some("1.0ms".to_string())],
        vec![Some("1.0ms".to_string()), Some("2.0ms".to_string())],
        vec![Some("2.0ms".to_string()), Some("1.0ms".to_string())],
    ];
    let fastest = vec![vec![false, true], vec![true, false], vec![false, true]];
    let md = generate_competition(&data, &latency, &fastest);
    assert!(md.contains("| Server | Wins | Out of |\n|--------|------|--------|\n| **b** | **2** | **3** |\n| a | 1 | 3 |"), "{}", md);
}

#[test]
fn readme_shows_native_responses() {
    let data = j(r#"{
        "settings": {"project": "p", "file": "A.sol"},
        "servers": [{"name": "a", "version": "1"}, {"name": "b", "version": "2"}],
        "benchmarks": [
            {"name": "textDocument/hover", "servers": [
                {"server": "a", "status": "ok", "response": {"contents": "x"}, "mean_ms": 4.0},
                {"server": "b", "status": "invalid", "response": {"error": "Unknown method"}, "mean_ms": 3.0}]}
        ]
    }"#);
    let times = vec![times_for(&[4.0, 3.0])];
    let md = lsp_bench::readme::generate_readme(&data, "results.json", &times);
    assert!(md.contains("```json\n{\"contents\":\"x\"}\n```"), "{}", md);
    assert!(md.contains("| 4.0ms \u{1F947} | unsupported |"), "{}", md);
    assert!(md.contains("| textDocument/hover | \u{2705} | \u{274C} |"), "{}", md);
}
