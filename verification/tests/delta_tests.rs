use lsp_bench::delta::{delta_report, DeltaRow};
use lsp_bench::json::JsonValue;
use lsp_bench::parse::decode_json;

fn servers() -> Vec<JsonValue> {
    match decode_json(
        r#"[{"name":"a","version":"x 0.1.0+commit.abc1234.linux","link":"https://l","description":"A"},
            {"name":"b","version":"1.0"}]"#,
    ) {
        Some(JsonValue::Array(v)) => v,
        _ => panic!("servers are an array"),
    }
}

fn row(name: &str, base_rss: &str, head_rss: &str) -> DeltaRow {
    DeltaRow {
        name: name.to_string(),
        base_ms: "1.00ms".to_string(),
        head_ms: "2.00ms".to_string(),
        delta: "2.0x slower".to_string(),
        base_rss: base_rss.to_string(),
        head_rss: head_rss.to_string(),
    }
}

#[test]
fn delta_table_without_memory() {
    let out = delta_report(&servers(), "a", "b", &vec![row("init", "", "")]);
    assert_eq!(
        out,
        "**a** · `abc1234` · [A](https://l)\n**b** · `1.0`\n\n| Benchmark | abc1234 |      b |       Delta |\n|-----------|---------|--------|-------------|\n| init      |  1.00ms | 2.00ms | 2.0x slower |\n"
    );
}

#[test]
fn delta_table_with_memory() {
    let out = delta_report(&servers(), "a", "b", &vec![row("init", "40.0MB", "")]);
    assert!(out.ends_with(
        "| Benchmark | abc1234 |      b |       Delta | RSS abc1234 | RSS b |\n|-----------|---------|--------|-------------|-------------|-------|\n| init      |  1.00ms | 2.00ms | 2.0x slower |      40.0MB |    -- |\n"
    ));
}

#[test]
fn delta_widths_count_bytes_and_pad_characters() {
    let out = delta_report(&vec![], "x", "y", &vec![row("\u{e9}\u{e9}\u{e9}\u{e9}\u{e9}", "", "")]);
    let expected_header = format!("| {:<10} | {:>6} | {:>6} | {:>11} |\n", "Benchmark", "x", "y", "Delta");
    let expected_row = format!("| {:<10} | {:>6} | {:>6} | {:>11} |\n", "\u{e9}\u{e9}\u{e9}\u{e9}\u{e9}", "1.00ms", "2.00ms", "2.0x slower");
    assert!(out.starts_with(&format!("\n{}", expected_header)));
    assert!(out.ends_with(&expected_row));
}

#[test]
fn delta_rows_choose_cells_from_entries() {
    let ss = match decode_json(r#"[
        {"server": "a", "status": "ok", "mean_ms": 2.5, "rss_kb": 2048},
        {"server": "b", "status": "timeout"},
        {"server": "a", "status": "fail"}
    ]"#) {
        Some(JsonValue::Array(v)) => v,
        _ => panic!("array"),
    };
    assert_eq!(lsp_bench::delta::find_entry(&ss, "a"), Some(0));
    assert_eq!(lsp_bench::delta::find_entry(&ss, "b"), Some(1));
    assert_eq!(lsp_bench::delta::find_entry(&ss, "c"), None);
    let r = lsp_bench::delta::delta_row("hover", Some(&ss[0]), Some(&ss[1]), "2.50ms", "", "");
    assert_eq!(
        (r.name.as_str(), r.base_ms.as_str(), r.head_ms.as_str(), r.delta.as_str(), r.base_rss.as_str(), r.head_rss.as_str()),
        ("hover", "2.50ms", "timeout", "--", "2.0MB", "")
    );
    let n = lsp_bench::delta::delta_row("x", None, Some(&ss[2]), "", "", "");
    assert_eq!((n.base_ms.as_str(), n.head_ms.as_str(), n.delta.as_str()), ("--", "--", "--"));
}

#[test]
fn delta_pair_defaults_and_errors() {
    let ss = match decode_json(r#"[{"name":"a"},{"x":1},{"name":"b"},{"name":"c"}]"#) {
        Some(JsonValue::Array(v)) => v,
        _ => panic!("array"),
    };
    let p = lsp_bench::delta::delta_pair;
    assert_eq!(p(&ss, None, None), Ok(("a".to_string(), "b".to_string())));
    assert_eq!(p(&ss, Some("c".to_string()), None), Ok(("c".to_string(), "b".to_string())));
    assert_eq!(
        p(&ss, Some("z".to_string()), None),
        Err("base server 'z' not found. Available: a, b, c".to_string())
    );
    assert_eq!(
        p(&ss, None, Some("y".to_string())),
        Err("head server 'y' not found. Available: a, b, c".to_string())
    );
    assert_eq!(
        p(&ss[..1].iter().map(|x| x.duplicate()).collect(), None, None),
        Err("need at least 2 servers for delta comparison, found 1".to_string())
    );
}
