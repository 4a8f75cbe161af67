use lsp_bench::config::{
    default_col, default_index_timeout, default_iterations, default_line, default_output,
    default_project, default_report_style, default_response_limit, default_servers,
    default_timeout, default_warmup, discover_servers_file, effective_expect, missing_version, resolve_server,
    resolve_servers, response_limit, select_benchmarks, servers_file_candidates, servers_setting,
    RegistryEntry, ResponseSetting, ServerConfig, ServerEntry, ServerRegistry, ServerVersion,
    ServersSetting, VerifyTally, VerifyVerdict,
};
use lsp_bench::expect::ExpectConfig;
use lsp_bench::files::latest_json_file;
use lsp_bench::parse::decode_json;

fn s(x: &str) -> String {
    x.to_string()
}

fn registry() -> ServerRegistry {
    let mut reg = ServerRegistry::new();
    let version = ServerVersion {
        cmd: Some(s("/opt/sls-0.1.20")),
        args: Some(vec![s("--stdio")]),
        link: None,
        description: None,
        commit: Some(s("abc123")),
        repo: None,
    };
    reg.insert(
        s("mmsaki"),
        RegistryEntry {
            cmd: s("solidity-language-server"),
            args: vec![],
            link: s("https://github.com/mmsaki/solidity-language-server"),
            description: s("Rust server"),
            commit: None,
            repo: Some(s("../sls")),
            versions: vec![(s("v0.1.20"), version)],
        },
    );
    reg
}

fn placeholder(name: &str) -> ServerConfig {
    ServerConfig {
        label: s(name),
        description: String::new(),
        link: String::new(),
        cmd: String::new(),
        args: vec![],
        commit: None,
        repo: None,
    }
}

#[test]
fn defaults_match_the_documented_values() {
    assert_eq!(default_project(), ".");
    assert_eq!(default_line(), 102);
    assert_eq!(default_col(), 15);
    assert_eq!(default_iterations(), 10);
    assert_eq!(default_warmup(), 2);
    assert_eq!(default_timeout(), 10);
    assert_eq!(default_index_timeout(), 15);
    assert_eq!(default_output(), "benchmarks");
    assert_eq!(default_report_style(), "delta");
    assert_eq!(default_response_limit(), 80);
    let servers = default_servers();
    assert_eq!(servers.len(), 1);
    assert_eq!(servers[0].label, "mmsaki");
    assert_eq!(servers[0].cmd, "solidity-language-server");
    assert_eq!(servers[0].link, "https://github.com/mmsaki/solidity-language-server");
}

#[test]
fn versioned_reference_overrides_the_base_entry() {
    let c = resolve_server("mmsaki@v0.1.20", &registry());
    assert_eq!(c.label, "mmsaki v0.1.20");
    assert_eq!(c.cmd, "/opt/sls-0.1.20");
    assert_eq!(c.args, vec![s("--stdio")]);
    assert_eq!(c.link, "https://github.com/mmsaki/solidity-language-server");
    assert_eq!(c.description, "Rust server");
    assert_eq!(c.commit, Some(s("abc123")));
    assert_eq!(c.repo, Some(s("../sls")));
}

#[test]
fn unknown_version_falls_back_to_the_base_entry() {
    let reg = registry();
    let c = resolve_server("mmsaki@v9", &reg);
    assert_eq!(c.label, "mmsaki v9");
    assert_eq!(c.cmd, "solidity-language-server");
    assert!(c.args.is_empty());
    assert_eq!(c.commit, None);
    assert_eq!(missing_version("mmsaki@v9", &reg), Some((s("v9"), s("mmsaki"))));
    assert_eq!(missing_version("mmsaki@v0.1.20", &reg), None);
    assert_eq!(missing_version("mmsaki", &reg), None);
}

#[test]
fn unregistered_name_is_its_own_command() {
    let c = resolve_server("./target/release/my-lsp", &registry());
    assert_eq!(c.label, "./target/release/my-lsp");
    assert_eq!(c.cmd, "./target/release/my-lsp");
    assert!(c.args.is_empty());
    let plain = resolve_server("mmsaki", &registry());
    assert_eq!(plain.label, "mmsaki");
    assert_eq!(plain.cmd, "solidity-language-server");
}

#[test]
fn registry_read_after_write() {
    let mut reg = registry();
    reg.insert(
        s("mmsaki"),
        RegistryEntry {
            cmd: s("other"),
            args: vec![],
            link: String::new(),
            description: String::new(),
            commit: None,
            repo: None,
            versions: vec![],
        },
    );
    assert_eq!(resolve_server("mmsaki", &reg).cmd, "other");
    assert_eq!(reg.entries.len(), 1);
}

#[test]
fn only_placeholders_are_resolved() {
    let mut servers = vec![placeholder("mmsaki@v0.1.20"), ServerConfig {
        label: s("inline"),
        description: String::new(),
        link: String::new(),
        cmd: s("inline-lsp"),
        args: vec![s("--stdio")],
        commit: None,
        repo: None,
    }];
    resolve_servers(&mut servers, &registry());
    assert_eq!(servers[0].cmd, "/opt/sls-0.1.20");
    assert_eq!(servers[1].label, "inline");
    assert_eq!(servers[1].cmd, "inline-lsp");
}

#[test]
fn response_setting_values() {
    assert_eq!(response_limit(ResponseSetting::Text(s("full"))), Ok(0));
    assert_eq!(response_limit(ResponseSetting::Unsigned(200)), Ok(200));
    assert_eq!(response_limit(ResponseSetting::Null), Ok(80));
    assert_eq!(
        response_limit(ResponseSetting::Text(s("short"))),
        Err(s("response must be \"full\" or a number"))
    );
    assert_eq!(
        response_limit(ResponseSetting::OtherNumber),
        Err(s("response must be \"full\" or a positive number"))
    );
    assert_eq!(response_limit(ResponseSetting::Other), Err(s("response must be \"full\" or a number")));
}

#[test]
fn servers_setting_values() {
    let v = servers_setting(ServersSetting::Null).unwrap();
    assert_eq!(v.len(), 1);
    assert_eq!(v[0].label, "mmsaki");
    let v = servers_setting(ServersSetting::List(vec![
        ServerEntry::Reference(s("mmsaki@v0.1.20")),
        ServerEntry::Inline(placeholder("x")),
    ]))
    .unwrap();
    assert_eq!(v.len(), 2);
    assert_eq!(v[0].label, "mmsaki@v0.1.20");
    assert_eq!(v[0].cmd, "");
    assert_eq!(v[1].label, "x");
    assert_eq!(
        servers_setting(ServersSetting::List(vec![ServerEntry::Other])).err(),
        Some(s("servers entries must be strings or objects"))
    );
    assert_eq!(
        servers_setting(ServersSetting::Other).err(),
        Some(s("servers must be an array of strings or objects"))
    );
}

#[test]
fn benchmark_selection() {
    let all = vec![s("initialize"), s("textDocument/hover"), s("textDocument/definition")];
    assert_eq!(select_benchmarks(&vec![], &vec![], &all), Ok(all.clone()));
    assert_eq!(
        select_benchmarks(&vec![s("all")], &vec![s("textDocument/hover")], &all),
        Ok(vec![s("initialize"), s("textDocument/definition")])
    );
    assert_eq!(
        select_benchmarks(&vec![s("textDocument/hover")], &vec![], &all),
        Ok(vec![s("textDocument/hover")])
    );
    assert_eq!(
        select_benchmarks(&vec![s("textDocument/hover"), s("bogus")], &vec![], &all),
        Err(s("bogus"))
    );
    assert_eq!(select_benchmarks(&vec![s("bogus")], &vec![s("bogus")], &all), Ok(vec![]));
}

#[test]
fn verify_tally_counts_and_concludes() {
    let mut t = VerifyTally::new();
    assert!(matches!(t.verdict(), VerifyVerdict::AllPassed { passed: 0, total: 0 }));
    let resp = decode_json(r#"{"result":[{"uri":"file:///src/A.sol","range":{"start":{"line":4}}}]}"#).unwrap();
    assert!(t.record(&resp, None).is_none());
    assert!(matches!(t.verdict(), VerifyVerdict::NoExpectations { skipped: 1 }));
    let good = ExpectConfig { file: Some(s("A.sol")), line: Some(4), ..Default::default() };
    assert_eq!(t.record(&resp, Some(&good)), Some(Ok(())));
    assert!(matches!(t.verdict(), VerifyVerdict::AllPassed { passed: 1, total: 1 }));
    let bad = ExpectConfig { line: Some(7), ..Default::default() };
    assert_eq!(t.record(&resp, Some(&bad)), Some(Err(s("line: expected 7 but got 4"))));
    assert!(matches!(t.verdict(), VerifyVerdict::SomeFailed { failed: 1, total: 2 }));
    assert_eq!((t.passed, t.failed, t.skipped), (1, 1, 1));
}

#[test]
fn registry_file_candidates_in_search_order() {
    assert_eq!(
        servers_file_candidates("a/b/config.yaml", None),
        vec![s("a/b/servers.yaml"), s("a/servers.yaml"), s("servers.yaml")]
    );
    assert_eq!(
        servers_file_candidates("a/b/config.yaml", Some("reg.yaml")),
        vec![s("a/b/reg.yaml"), s("reg.yaml"), s("a/b/servers.yaml"), s("a/servers.yaml"), s("servers.yaml")]
    );
    assert_eq!(servers_file_candidates("config.yaml", None), vec![s("servers.yaml")]);
    assert_eq!(
        servers_file_candidates("config.yaml", Some("x.yaml")),
        vec![s("x.yaml"), s("x.yaml"), s("servers.yaml")]
    );
}

#[test]
fn first_existing_candidate_wins() {
    let c = vec![s("a"), s("b"), s("c")];
    assert_eq!(discover_servers_file(&c, &vec![false, true, true]), Some(s("b")));
    assert_eq!(discover_servers_file(&c, &vec![false, false, false]), None);
    assert_eq!(discover_servers_file(&vec![], &vec![]), None);
}

#[test]
fn latest_json_file_sorts_by_name() {
    let names = vec![s("2024-01-02.json"), s("notes.txt"), s("2024-03-01.json"), s("2024-02-01.json"), s("z.yaml")];
    assert_eq!(latest_json_file(&names), Some(2));
    assert_eq!(latest_json_file(&vec![s("a.txt"), s(".json")]), None);
    assert_eq!(latest_json_file(&vec![s("b.json"), s("a.b.json"), s("b.json")]), Some(2));
    assert_eq!(latest_json_file(&vec![s("ab.json"), s("a.json")]), Some(0));
    assert_eq!(latest_json_file(&vec![]), None);
}

#[test]
fn own_expectation_takes_precedence() {
    let own = ExpectConfig { line: Some(1), ..Default::default() };
    let method = ExpectConfig { line: Some(2), ..Default::default() };
    assert_eq!(effective_expect(Some(&own), Some(&method)).and_then(|e| e.line), Some(1));
    assert_eq!(effective_expect(None, Some(&method)).and_then(|e| e.line), Some(2));
    assert!(effective_expect::<ExpectConfig>(None, None).is_none());
}

#[test]
fn sub_config_keys_win_over_defaults() {
    let mut base = vec![
        ("file".to_string(), 1u32),
        ("line".to_string(), 2),
        ("col".to_string(), 3),
    ];
    let overrides = vec![("line".to_string(), 20u32), ("timeout".to_string(), 40)];
    lsp_bench::config::merge_top_level(&mut base, overrides);
    assert_eq!(
        base,
        vec![
            ("file".to_string(), 1),
            ("line".to_string(), 20),
            ("col".to_string(), 3),
            ("timeout".to_string(), 40),
        ]
    );
}

#[test]
fn include_paths_are_relative_to_the_including_file() {
    let items = vec![Some("a.yaml".to_string()), None, Some("sub/b.yaml".to_string())];
    assert_eq!(
        lsp_bench::config::include_paths("configs/all.yaml", &items),
        Some(vec!["configs/a.yaml".to_string(), "configs/sub/b.yaml".to_string()])
    );
    assert_eq!(lsp_bench::config::include_paths("all.yaml", &vec![]), None);
    assert_eq!(
        lsp_bench::config::include_paths("all.yaml", &vec![Some("x.yaml".to_string())]),
        Some(vec!["x.yaml".to_string()])
    );
}

#[test]
fn response_true_keeps_the_full_response() {
    assert_eq!(response_limit(ResponseSetting::Flag(true)), Ok(0));
    assert_eq!(
        response_limit(ResponseSetting::Flag(false)),
        Err(s("response must be \"full\" or a number"))
    );
}

#[test]
fn project_and_file_are_required() {
    use_target();
}

fn use_target() {
    let t = lsp_bench::config::config_target;
    assert_eq!(t(Some(s("v4")), Some(s("src/A.sol"))), Ok((s("v4"), s("src/A.sol"))));
    assert_eq!(t(None, Some(s("A.sol"))), Err(s("missing field `project`")));
    assert_eq!(t(Some(s("v4")), None), Err(s("missing field `file`")));
}
