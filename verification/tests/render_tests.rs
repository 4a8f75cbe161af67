use lsp_bench::render::{
    extract_short_commit, format_memory, format_rss, iter_msg, short_version, slug, truncate,
    truncate_response, try_truncate,
};

fn float_rss(kb: u64) -> String {
    format!("{:.1}MB", kb as f64 / 1024.0)
}

fn float_memory(kb: u64) -> String {
    let mb = kb as f64 / 1024.0;
    if mb >= 1024.0 {
        format!("{:.1} GB", mb / 1024.0)
    } else if mb >= 1.0 {
        format!("{:.1} MB", mb)
    } else {
        format!("{} KB", kb)
    }
}

#[test]
fn format_rss_matches_float_formatting() {
    let samples: Vec<u64> = vec![
        0, 1, 51, 52, 100, 512, 1023, 1024, 1075, 1076, 1126, 1127, 2048, 2099, 2150, 10_000,
        123_456, 1_048_576, 1_100_000, 9_007_199_254_740_991, 9_007_199_254_740_993,
        18_014_398_509_481_985, u64::MAX - 1, u64::MAX,
    ];
    for kb in samples {
        assert_eq!(format_rss(kb), float_rss(kb), "kb = {}", kb);
    }
    for kb in 0..5000u64 {
        assert_eq!(format_rss(kb), float_rss(kb), "kb = {}", kb);
    }
}

#[test]
fn format_rss_exact_values() {
    assert_eq!(format_rss(2048), "2.0MB");
    assert_eq!(format_rss(0), "0.0MB");
    assert_eq!(format_rss(1536), "1.5MB");
}

#[test]
fn format_memory_matches_float_formatting() {
    for kb in 0..5000u64 {
        assert_eq!(format_memory(kb), float_memory(kb), "kb = {}", kb);
    }
    let big: Vec<u64> = vec![
        1_048_575, 1_048_576, 1_153_433, 1_153_434, 5_000_000, 9_007_199_254_740_993,
        u64::MAX,
    ];
    for kb in big {
        assert_eq!(format_memory(kb), float_memory(kb), "kb = {}", kb);
    }
}

#[test]
fn format_memory_units() {
    assert_eq!(format_memory(512), "512 KB");
    assert_eq!(format_memory(2048), "2.0 MB");
    assert_eq!(format_memory(3 * 1024 * 1024), "3.0 GB");
}

#[test]
fn slug_makes_anchors() {
    assert_eq!(slug("textDocument/definition"), "textdocumentdefinition");
    assert_eq!(slug("Spawn + Init"), "spawn--init");
    assert_eq!(slug("Go To Definition"), "go-to-definition");
}

#[test]
fn short_version_examples() {
    assert_eq!(short_version("solidity-language-server 0.1.24+commit.xxx"), "0.1.24");
    assert_eq!(short_version("0.8.26+commit.8a97fa7a.Darwin.appleclang"), "0.8.26");
    assert_eq!(short_version("@nomicfoundation/solidity-language-server 0.8.25"), "0.8.25");
    assert_eq!(short_version(""), "");
    assert_eq!(short_version("   "), "   ");
}

#[test]
fn extract_short_commit_examples() {
    assert_eq!(
        extract_short_commit("solidity-language-server 0.1.14+commit.3d6a3d1.macos.aarch64"),
        "3d6a3d1"
    );
    assert_eq!(extract_short_commit("0.8.33+commit.64118f21.Darwin.appleclang"), "64118f21");
    assert_eq!(extract_short_commit("  abcdef1234  "), "abcdef1234");
    assert_eq!(extract_short_commit("v1.2.3"), "v1.2.3");
    assert_eq!(extract_short_commit("abc12"), "abc12");
}

#[test]
fn truncate_examples() {
    assert_eq!(truncate("short", 40), "short");
    assert_eq!(truncate("abcdef", 3), "abc...");
    assert_eq!(try_truncate("héllo", 2), None);
    assert_eq!(try_truncate("héllo", 3), Some("hé...".to_string()));
}

#[test]
fn truncate_response_breaks_at_line() {
    assert_eq!(truncate_response("line one\nline two", 12), "line one...");
    assert_eq!(truncate_response("abcdef", 4), "abcd...");
    assert_eq!(truncate_response("abc", 10), "abc");
}

#[test]
fn iter_msg_examples() {
    assert_eq!(iter_msg(0, 2, 10), "warmup 1/2");
    assert_eq!(iter_msg(1, 2, 10), "warmup 2/2");
    assert_eq!(iter_msg(2, 2, 10), "iter 1/10");
    assert_eq!(iter_msg(11, 2, 10), "iter 10/10");
}

#[test]
fn warmup_iterations_are_not_measured() {
    let kept = (0..7usize).filter(|&i| lsp_bench::render::is_measured(i, 2)).count();
    assert_eq!(kept, 5);
    assert!(!lsp_bench::render::is_measured(1, 2));
    assert!(lsp_bench::render::is_measured(2, 2));
    assert_eq!(iter_msg(0, 2, 5), "warmup 1/2");
    assert_eq!(iter_msg(2, 2, 5), "iter 1/5");
}

#[test]
fn peak_rss_keeps_largest_sample() {
    let mut peak = None;
    for s in [300u64, 900, 450] {
        peak = lsp_bench::render::peak_rss(peak, s);
    }
    assert_eq!(peak, Some(900));
    assert_eq!(lsp_bench::render::peak_rss(None, 12), Some(12));
}

#[test]
fn slug_of_ascii_name_is_stable() {
    let s = lsp_bench::render::slug("textDocument/diagnostic");
    assert_eq!(s, "textdocumentdiagnostic");
    let t = lsp_bench::render::slug("Go To Definition (v2)+x");
    assert_eq!(t, "go-to-definition-v2x");
    assert_eq!(lsp_bench::render::slug(&t), t);
    assert!(t.chars().all(|c| c.is_ascii_lowercase() || c.is_ascii_digit() || c == '-'));
}
