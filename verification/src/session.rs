//! Session logs: for each benchmark, the request sent and a one-line
//! account of every server's response, as plain text and as markdown.
//!
//! Latencies are stored as floating-point milliseconds; their display text
//! (`format_latency` of each server's p95) is computed by the caller and
//! handed in per benchmark and server.
use vstd::prelude::*;
use crate::compact;
use crate::json::{self, JsonValue};
use crate::render;
use crate::report;
use crate::serialize;
use crate::summary;
use crate::doc::{self, cat, cat_str, empty_line, join_lines, line_of, member, push_line, str_or_exec};
use crate::text::{self, chars_of, extend};

verus! {

// ---------------------------------------------------------------------------
// Pretty-printing through serde_json
// ---------------------------------------------------------------------------

/// serde_json's pretty rendering of a JSON text, `None` when the text does
/// not parse.
pub uninterp spec fn spec_pretty_json(text: Seq<char>) -> Option<Seq<char>>;

/// `serde_json::from_str::<Value>` then `serde_json::to_string_pretty`;
/// `None` when either fails.
#[verifier::external_body]
fn pretty_json(text: &str) -> (r: Option<String>)
    ensures
        text::opt_view(r) == spec_pretty_json(text@),
{
    serde_json::from_str::<serde_json::Value>(text).ok().and_then(|v| serde_json::to_string_pretty(&v).ok())
}

// ---------------------------------------------------------------------------
// Specification
// ---------------------------------------------------------------------------


/// The latency texts given for benchmark `i` (none when not given).
pub open spec fn row_at(p95: Seq<Seq<Option<Seq<char>>>>, i: int) -> Seq<Option<Seq<char>>> {
    if 0 <= i < p95.len() {
        p95[i]
    } else {
        Seq::empty()
    }
}

/// The latency text given for server `j` of a benchmark.
pub open spec fn cell_at(row: Seq<Option<Seq<char>>>, j: int) -> Option<Seq<char>> {
    if 0 <= j < row.len() {
        row[j]
    } else {
        None
    }
}

/// A server's positive `rss_kb`.
pub open spec fn rss_of(srv: json::Json) -> Option<u64> {
    match json::opt_u64(srv.get("rss_kb"@)) {
        Some(kb) => if kb > 0 {
            Some(kb)
        } else {
            None
        },
        None => None,
    }
}

/// " (latency, memory)" from what is known, or nothing.
pub open spec fn metrics_text(p95: Option<Seq<char>>, rss: Option<u64>) -> Seq<char> {
    let ms = (match p95 {
        Some(t) => seq![t],
        None => Seq::empty(),
    }) + (match rss {
        Some(kb) => seq![render::memory_text(kb as nat)],
        None => Seq::empty(),
    });
    if ms.len() == 0 {
        Seq::empty()
    } else {
        " ("@ + text::join(ms, ", "@) + ")"@
    }
}

/// `s` when it is at most `limit` bytes, else its first `keep` bytes and
/// `...`; `None` where byte `keep` is inside a character.
pub open spec fn shortened(s: Seq<char>, limit: nat, keep: nat) -> Option<Seq<char>> {
    if text::utf8_len(s) > limit {
        match render::byte_prefix(s, keep) {
            Some(p) => Some(p + "..."@),
            None => None,
        }
    } else {
        Some(s)
    }
}

/// A request pretty-printed when it is JSON, else as it is.
pub open spec fn request_text(input: Seq<char>) -> Seq<char> {
    match spec_pretty_json(input) {
        Some(p) => p,
        None => input,
    }
}

/// The line of one server in the plain-text log.
pub open spec fn txt_server_line(bench: Seq<char>, srv: json::Json) -> Option<Seq<char>> {
    let name = doc::str_or(srv.get("server"@), "?"@);
    let status = doc::str_or(srv.get("status"@), Seq::empty());
    let head = "← "@ + name + " ["@ + report::response_class(bench, srv).0 + "] "@;
    if status == "ok"@ {
        let response = report::parsed_response(srv);
        match summary::human_summary(bench, srv) {
            None => None,
            Some(s) => if response == json::Json::Null || report::is_empty_response(response) {
                Some(head + s)
            } else {
                match compact::compact(response, 3) {
                    Some(c) => match shortened(c, 200, 197) {
                        Some(cs) => Some(head + cs),
                        None => None,
                    },
                    None => None,
                }
            },
        }
    } else {
        match report::error_label(srv) {
            Some(l) => Some(head + l),
            None => None,
        }
    }
}

/// The lines of the first `n` servers.
pub open spec fn txt_server_lines(bench: Seq<char>, servers: Seq<json::Json>, n: int) -> Option<
    Seq<Seq<char>>,
>
    decreases n,
{
    if n <= 0 || n > servers.len() {
        Some(Seq::empty())
    } else {
        match (txt_server_lines(bench, servers, n - 1), txt_server_line(bench, servers[n - 1])) {
            (Some(a), Some(b)) => Some(a.push(b)),
            _ => None,
        }
    }
}

/// The plain-text block of one benchmark (`None` where it cannot be
/// written: an empty server list, or a cut inside a character).
pub open spec fn txt_bench(bench: json::Json, p95: Seq<Option<Seq<char>>>) -> Option<Seq<Seq<char>>> {
    let name = doc::str_or(bench.get("name"@), "?"@);
    match json::opt_array(bench.get("servers"@)) {
        None => Some(Seq::empty()),
        Some(servers) => if servers.len() == 0 {
            None
        } else {
            let m = metrics_text(cell_at(p95, 0), rss_of(servers[0]));
            let head = seq!["── "@ + name + m + " ──"@, Seq::empty()];
            let req = match json::opt_str(bench.get("input"@)) {
                Some(inp) => seq![request_text(inp), Seq::empty()],
                None => Seq::empty(),
            };
            match txt_server_lines(name, servers, servers.len() as int) {
                Some(ls) => Some(head + req + ls + seq![Seq::empty()]),
                None => None,
            }
        },
    }
}

pub open spec fn txt_benches(bs: Seq<json::Json>, p95: Seq<Seq<Option<Seq<char>>>>, n: int) -> Option<
    Seq<Seq<char>>,
>
    decreases n,
{
    if n <= 0 || n > bs.len() {
        Some(Seq::empty())
    } else {
        match (txt_benches(bs, p95, n - 1), txt_bench(bs[n - 1], row_at(p95, n - 1))) {
            (Some(a), Some(b)) => Some(a + b),
            _ => None,
        }
    }
}

/// The plain-text session log.
pub open spec fn session_txt(data: json::Json, p95: Seq<Seq<Option<Seq<char>>>>) -> Option<Seq<char>> {
    let settings = data.get("settings"@);
    let file = doc::str_or(json::Json::opt_get(settings, "file"@), "unknown"@);
    let project = doc::str_or(json::Json::opt_get(settings, "project"@), "unknown"@);
    let head = seq!["# "@ + project + " / "@ + file, Seq::empty()];
    match json::opt_array(data.get("benchmarks"@)) {
        None => Some(text::join(head, "\n"@)),
        Some(bs) => match txt_benches(bs, p95, bs.len() as int) {
            Some(ls) => Some(text::join(head + ls, "\n"@)),
            None => None,
        },
    }
}

/// The lines of one server in the markdown log.
pub open spec fn md_server_lines(bench: Seq<char>, srv: json::Json, p95: Option<Seq<char>>) -> Option<
    Seq<Seq<char>>,
> {
    let name = doc::str_or(srv.get("server"@), "?"@);
    let status = doc::str_or(srv.get("status"@), Seq::empty());
    let metrics = metrics_text(p95, rss_of(srv));
    let (tag, has_content) = report::response_class(bench, srv);
    if status == "ok"@ {
        match summary::human_summary(bench, srv) {
            None => None,
            Some(s) => {
                let first = seq!["**"@ + name + "**"@ + metrics + " — "@ + s];
                let response = report::parsed_response(srv);
                if response != json::Json::Null && has_content {
                    match compact::compact(response, 3) {
                        Some(c) => match shortened(c, 120, 117) {
                            Some(short) => {
                                let pretty = match spec_pretty_json(
                                    serialize::json_text(compact::cut_arrays(response, 5)),
                                ) {
                                    Some(p) => p,
                                    None => "?"@,
                                };
                                Some(
                                    first + seq![
                                        Seq::empty(),
                                        "<details>"@,
                                        "<summary>Summary: <code>"@ + short + "</code></summary>"@,
                                        Seq::empty(),
                                        "```json"@,
                                        pretty,
                                        "```"@,
                                        "</details>"@,
                                        Seq::empty(),
                                    ],
                                )
                            },
                            None => None,
                        },
                        None => None,
                    }
                } else if response != json::Json::Null {
                    match compact::compact(response, 3) {
                        Some(c) => Some(
                            first + seq!["\n`["@ + tag + "]` `"@ + c + "`"@, Seq::empty()],
                        ),
                        None => None,
                    }
                } else {
                    Some(first + seq![Seq::empty()])
                }
            },
        }
    } else {
        match report::error_label(srv) {
            Some(l) => Some(seq!["**"@ + name + "**"@ + metrics + " — "@ + l, Seq::empty()]),
            None => None,
        }
    }
}

pub open spec fn md_servers(bench: Seq<char>, servers: Seq<json::Json>, p95: Seq<Option<Seq<char>>>, n: int) -> Option<
    Seq<Seq<char>>,
>
    decreases n,
{
    if n <= 0 || n > servers.len() {
        Some(Seq::empty())
    } else {
        match (md_servers(bench, servers, p95, n - 1), md_server_lines(bench, servers[n - 1], cell_at(p95, n - 1))) {
            (Some(a), Some(b)) => Some(a + b),
            _ => None,
        }
    }
}

/// How the markdown log names the request of a benchmark.
pub open spec fn md_request(bench: json::Json, name: Seq<char>, settings: Option<json::Json>) -> Seq<Seq<char>> {
    let file = doc::str_or(json::Json::opt_get(settings, "file"@), "unknown"@);
    match json::opt_str(bench.get("input"@)) {
        Some(inp) => seq!["**Request:**"@, "```json"@, request_text(inp), "```"@, Seq::empty()],
        None => {
            let line = json::opt_u64(json::Json::opt_get(settings, "line"@));
            let col = json::opt_u64(json::Json::opt_get(settings, "col"@));
            match (line, col) {
                (Some(a), Some(b)) => seq![
                    "**Request:** `"@ + name + "` at `"@ + file + ":"@ + text::dec(a as nat) + ":"@
                        + text::dec(b as nat) + "`"@,
                    Seq::empty(),
                ],
                _ => seq!["**Request:** `"@ + name + "` on `"@ + file + "`"@, Seq::empty()],
            }
        },
    }
}

pub open spec fn md_bench(bench: json::Json, p95: Seq<Option<Seq<char>>>, settings: Option<json::Json>) -> Option<
    Seq<Seq<char>>,
> {
    let name = doc::str_or(bench.get("name"@), "?"@);
    match json::opt_array(bench.get("servers"@)) {
        None => Some(Seq::empty()),
        Some(servers) => match md_servers(name, servers, p95, servers.len() as int) {
            Some(ls) => Some(
                seq!["## "@ + name, Seq::empty()] + md_request(bench, name, settings) + seq![
                    "**Responses:**"@,
                    Seq::empty(),
                ] + ls + seq!["---"@, Seq::empty()],
            ),
            None => None,
        },
    }
}

pub open spec fn md_benches(
    bs: Seq<json::Json>,
    p95: Seq<Seq<Option<Seq<char>>>>,
    settings: Option<json::Json>,
    n: int,
) -> Option<Seq<Seq<char>>>
    decreases n,
{
    if n <= 0 || n > bs.len() {
        Some(Seq::empty())
    } else {
        match (md_benches(bs, p95, settings, n - 1), md_bench(bs[n - 1], row_at(p95, n - 1), settings)) {
            (Some(a), Some(b)) => Some(a + b),
            _ => None,
        }
    }
}

/// The markdown session log.
pub open spec fn session_md(data: json::Json, p95: Seq<Seq<Option<Seq<char>>>>) -> Option<Seq<char>> {
    let settings = data.get("settings"@);
    let file = doc::str_or(json::Json::opt_get(settings, "file"@), "unknown"@);
    let project = doc::str_or(json::Json::opt_get(settings, "project"@), "unknown"@);
    let head = seq!["# Session Log — "@ + project + " / "@ + file, Seq::empty()];
    match json::opt_array(data.get("benchmarks"@)) {
        None => Some(text::join(head, "\n"@)),
        Some(bs) => match md_benches(bs, p95, settings, bs.len() as int) {
            Some(ls) => Some(text::join(head + ls, "\n"@)),
            None => None,
        },
    }
}

pub open spec fn rows_view(p95: Seq<Vec<Option<String>>>) -> Seq<Seq<Option<Seq<char>>>> {
    p95.map_values(|r: Vec<Option<String>>| r@.map_values(|c: Option<String>| text::opt_view(c)))
}

// ---------------------------------------------------------------------------
// Implementation
// ---------------------------------------------------------------------------








fn cell_of(row: Option<&Vec<Option<String>>>, j: usize) -> (r: Option<Vec<char>>)
    ensures
        match r {
            Some(t) => cell_at(
                match row {
                    Some(x) => x@.map_values(|c: Option<String>| text::opt_view(c)),
                    None => Seq::empty(),
                },
                j as int,
            ) == Some(t@),
            None => cell_at(
                match row {
                    Some(x) => x@.map_values(|c: Option<String>| text::opt_view(c)),
                    None => Seq::empty(),
                },
                j as int,
            ) is None,
        },
{
    match row {
        Some(x) => if j < x.len() {
            match &x[j] {
                Some(t) => Some(chars_of(t.as_str())),
                None => None,
            }
        } else {
            None
        },
        None => None,
    }
}

fn row_of(p95: &Vec<Vec<Option<String>>>, i: usize) -> (r: Option<&Vec<Option<String>>>)
    ensures
        match r {
            Some(x) => row_at(rows_view(p95@), i as int) == x@.map_values(|c: Option<String>| text::opt_view(c)),
            None => row_at(rows_view(p95@), i as int) == Seq::<Option<Seq<char>>>::empty(),
        },
{
    if i < p95.len() {
        Some(&p95[i])
    } else {
        None
    }
}

fn rss_exec(srv: &JsonValue) -> (r: Option<u64>)
    ensures
        r == rss_of(srv@),
{
    match srv.get("rss_kb") {
        Some(x) => match x.as_u64() {
            Some(kb) => if kb > 0 {
                Some(kb)
            } else {
                None
            },
            None => None,
        },
        None => None,
    }
}

pub open spec fn opt_chars(o: Option<Vec<char>>) -> Option<Seq<char>> {
    match o {
        Some(t) => Some(t@),
        None => None,
    }
}

fn metrics_exec(p95: Option<Vec<char>>, rss: Option<u64>) -> (r: Vec<char>)
    ensures
        r@ == metrics_text(opt_chars(p95), rss),
{
    let ghost pv = opt_chars(p95);
    let mut ms: Vec<Vec<char>> = Vec::new();
    match &p95 {
        Some(t) => {
            let c = text::slice_of(t.as_slice(), 0, t.len());
            assert(c@ =~= t@);
            ms.push(c);
        },
        None => {},
    }
    let ghost first = ms@.map_values(|l: Vec<char>| l@);
    assert(first =~= match pv {
        Some(t) => seq![t],
        None => Seq::<Seq<char>>::empty(),
    });
    match rss {
        Some(kb) => {
            let m = render::format_memory(kb);
            let c = chars_of(m.as_str());
            ms.push(c);
            assert(ms@.map_values(|l: Vec<char>| l@) =~= first.push(render::memory_text(kb as nat)));
        },
        None => {
            assert(ms@.map_values(|l: Vec<char>| l@) =~= first);
        },
    }
    let ghost want = (match pv {
        Some(t) => seq![t],
        None => Seq::<Seq<char>>::empty(),
    }) + (match rss {
        Some(kb) => seq![render::memory_text(kb as nat)],
        None => Seq::<Seq<char>>::empty(),
    });
    assert(ms@.map_values(|l: Vec<char>| l@) =~= want);
    if ms.len() == 0 {
        Vec::new()
    } else {
        let sep: Vec<char> = vec![',', ' '];
        proof {
            reveal_strlit(", ");
            assert(sep@ =~= ", "@);
        }
        let j = text::join_exec(&ms, sep.as_slice());
        let r = cat(line_of(" ("), j.as_slice());
        cat_str(r, ")")
    }
}

fn shortened_exec(s: &[char], limit: usize, keep: usize) -> (r: Option<Vec<char>>)
    requires
        keep <= limit,
    ensures
        match r {
            Some(t) => shortened(s@, limit as nat, keep as nat) == Some(t@),
            None => shortened(s@, limit as nat, keep as nat) is None,
        },
{
    let n = s.len();
    let mut acc: u128 = 0;
    let mut i: usize = 0;
    let mut cut: Option<usize> = if keep == 0 { Some(0) } else { None };
    assert(s@.subrange(0, 0) =~= Seq::<char>::empty());
    while i < n
        invariant
            i <= n == s@.len(),
            acc == text::utf8_len(s@.subrange(0, i as int)),
            acc <= 4 * i,
            match cut {
                Some(k) => k <= i && text::utf8_len(s@.subrange(0, k as int)) == keep,
                None => forall|k: int| 0 <= k <= i ==> text::utf8_len(#[trigger] s@.subrange(0, k)) != keep,
            },
        decreases n - i,
    {
        proof {
            assert(s@.subrange(0, i + 1) =~= s@.subrange(0, i as int).push(s@[i as int]));
            text::lemma_utf8_len_push(s@.subrange(0, i as int), s@[i as int]);
        }
        acc = acc + render::char_len_exec(s[i]) as u128;
        i += 1;
        if acc == keep as u128 && cut.is_none() {
            cut = Some(i);
        }
        proof {
            if cut is None {
                assert forall|k: int| 0 <= k <= i implies text::utf8_len(#[trigger] s@.subrange(0, k)) != keep by {
                    if k == i {
                    }
                }
            }
        }
    }
    assert(s@.subrange(0, n as int) =~= s@);
    if acc > limit as u128 {
        match cut {
            Some(k) => {
                proof {
                    let j = choose|j: int| 0 <= j <= s@.len() && text::utf8_len(s@.subrange(0, j)) == keep;
                    render::lemma_prefix_unique(s@, k as int, j);
                }
                let p = text::slice_of(s, 0, k);
                Some(cat_str(p, "..."))
            },
            None => None,
        }
    } else {
        Some(text::slice_of(s, 0, n))
    }
}

fn request_exec(input: &str) -> (r: Vec<char>)
    ensures
        r@ == request_text(input@),
{
    match pretty_json(input) {
        Some(p) => chars_of(p.as_str()),
        None => chars_of(input),
    }
}

fn head_txt(name: &[char], tag: &str) -> (r: Vec<char>)
    ensures
        r@ == "← "@ + name@ + " ["@ + tag@ + "] "@,
{
    let r = cat(line_of("← "), name);
    let r = cat_str(r, " [");
    let r = cat_str(r, tag);
    cat_str(r, "] ")
}

fn txt_server_exec(bench_name: &str, srv: &JsonValue) -> (r: Option<Vec<char>>)
    ensures
        match r {
            Some(l) => txt_server_line(bench_name@, srv@) == Some(l@),
            None => txt_server_line(bench_name@, srv@) is None,
        },
{
    let name = str_or_exec(srv.get("server"), "?");
    let status = str_or_exec(srv.get("status"), "");
    proof {
        reveal_strlit("");
    }
    let (tag, _) = report::classify_response(bench_name, srv);
    let head = head_txt(name.as_slice(), tag.as_str());
    let ok: Vec<char> = vec!['o', 'k'];
    proof {
        reveal_strlit("ok");
        assert(ok@ =~= "ok"@);
        assert(""@ =~= Seq::<char>::empty());
    }
    if text::starts_with_exec(status.as_slice(), ok.as_slice()) && status.len() == 2 {
        assert(status@ =~= "ok"@);
        let response = report::parse_response(srv);
        match summary::human_opt(bench_name, srv) {
            None => None,
            Some(s) => {
                if response.is_null() || report::response_is_empty(&response) {
                    Some(cat_str(head, s.as_str()))
                } else {
                    match compact::try_compact_json(&response, 3) {
                        Some(c) => {
                            let cs = chars_of(c.as_str());
                            match shortened_exec(cs.as_slice(), 200, 197) {
                                Some(short) => Some(cat(head, short.as_slice())),
                                None => None,
                            }
                        },
                        None => None,
                    }
                }
            },
        }
    } else {
        proof {
            if status@ == "ok"@ {
                assert(status@.subrange(0, 2) =~= ok@);
            }
        }
        match report::error_label_opt(srv) {
            Some(l) => Some(cat_str(head, l.as_str())),
            None => None,
        }
    }
}


fn txt_bench_exec(bench: &JsonValue, row: Option<&Vec<Option<String>>>, lines: &mut Vec<Vec<char>>) -> (ok: bool)
    ensures
        ok == (txt_bench(
            bench@,
            match row {
                Some(x) => x@.map_values(|c: Option<String>| text::opt_view(c)),
                None => Seq::empty(),
            },
        ) is Some),
        ok ==> doc::lines_view(final(lines)@) == doc::lines_view(old(lines)@) + txt_bench(
            bench@,
            match row {
                Some(x) => x@.map_values(|c: Option<String>| text::opt_view(c)),
                None => Seq::empty(),
            },
        )->0,
{
    let name = str_or_exec(bench.get("name"), "?");
    let servers = match bench.get("servers") {
        Some(x) => x.as_array(),
        None => None,
    };
    let servers = match servers {
        Some(s) => s,
        None => {
            assert(doc::lines_view(lines@) =~= doc::lines_view(old(lines)@) + Seq::<Seq<char>>::empty());
            return true;
        },
    };
    if servers.len() == 0 {
        return false;
    }
    let ghost sv = servers@.map_values(|x: JsonValue| x@);
    assert(sv[0] == servers@[0]@);
    let m = metrics_exec(cell_of(row, 0), rss_exec(&servers[0]));
    let l0 = cat_str(cat(cat(line_of("── "), name.as_slice()), m.as_slice()), " ──");
    let ghost before = doc::lines_view(lines@);
    push_line(lines, l0);
    push_line(lines, empty_line());
    let ghost after_head = doc::lines_view(lines@);
    let input = match bench.get("input") {
        Some(x) => x.as_str(),
        None => None,
    };
    match input {
        Some(inp) => {
            push_line(lines, request_exec(inp));
            push_line(lines, empty_line());
        },
        None => {},
    }
    let ghost after_req = doc::lines_view(lines@);
    let bench_name = text::string_of(name.as_slice());
    if !txt_servers_exec(bench_name.as_str(), servers, lines) {
        return false;
    }
    push_line(lines, empty_line());
    proof {
        let want = txt_bench(
            bench@,
            match row {
                Some(x) => x@.map_values(|c: Option<String>| text::opt_view(c)),
                None => Seq::empty(),
            },
        )->0;
        assert(doc::lines_view(lines@) =~= before + want);
    }
    true
}

fn txt_servers_exec(bench_name: &str, servers: &Vec<JsonValue>, lines: &mut Vec<Vec<char>>) -> (ok: bool)
    ensures
        ok == (txt_server_lines(bench_name@, servers@.map_values(|x: JsonValue| x@), servers@.len() as int) is Some),
        ok ==> doc::lines_view(final(lines)@) == doc::lines_view(old(lines)@) + txt_server_lines(
            bench_name@,
            servers@.map_values(|x: JsonValue| x@),
            servers@.len() as int,
        )->0,
{
    let ghost sv = servers@.map_values(|x: JsonValue| x@);
    let ghost start = doc::lines_view(lines@);
    let mut i: usize = 0;
    assert(txt_server_lines(bench_name@, sv, 0) == Some(Seq::<Seq<char>>::empty()));
    assert(doc::lines_view(lines@) =~= start + Seq::<Seq<char>>::empty());
    while i < servers.len()
        invariant
            i <= servers@.len(),
            sv == servers@.map_values(|x: JsonValue| x@),
            start == doc::lines_view(old(lines)@),
            txt_server_lines(bench_name@, sv, i as int) is Some,
            doc::lines_view(lines@) == start + txt_server_lines(bench_name@, sv, i as int)->0,
        decreases servers.len() - i,
    {
        assert(sv[i as int] == servers@[i as int]@);
        match txt_server_exec(bench_name, &servers[i]) {
            Some(l) => {
                let ghost prev = txt_server_lines(bench_name@, sv, i as int)->0;
                push_line(lines, l);
                assert(txt_server_lines(bench_name@, sv, i + 1) == Some(prev.push(l@)));
                assert(doc::lines_view(lines@) =~= start + prev.push(l@));
            },
            None => {
                proof {
                    lemma_txt_lines_none(bench_name@, sv, i as int + 1, sv.len() as int);
                }
                return false;
            },
        }
        i += 1;
    }
    true
}

proof fn lemma_txt_lines_none(bench: Seq<char>, s: Seq<json::Json>, n: int, m: int)
    requires
        1 <= n <= m <= s.len(),
        txt_server_lines(bench, s, n) is None,
    ensures
        txt_server_lines(bench, s, m) is None,
    decreases m - n,
{
    if n < m {
        lemma_txt_lines_none(bench, s, n, m - 1);
    }
}


fn title_lines(data: &JsonValue, prefix: &str) -> (r: Vec<Vec<char>>)
    ensures
        doc::lines_view(r@) == seq![
            prefix@ + doc::str_or(json::Json::opt_get(data@.get("settings"@), "project"@), "unknown"@) + " / "@
                + doc::str_or(json::Json::opt_get(data@.get("settings"@), "file"@), "unknown"@),
            Seq::<char>::empty(),
        ],
{
    let settings = data.get("settings");
    let file = str_or_exec(member(settings, "file"), "unknown");
    let project = str_or_exec(member(settings, "project"), "unknown");
    let l = cat(cat_str(cat(line_of(prefix), project.as_slice()), " / "), file.as_slice());
    let mut lines: Vec<Vec<char>> = Vec::new();
    push_line(&mut lines, l);
    push_line(&mut lines, empty_line());
    assert(doc::lines_view(lines@) =~= seq![
        prefix@ + doc::str_or(json::Json::opt_get(data@.get("settings"@), "project"@), "unknown"@) + " / "@
            + doc::str_or(json::Json::opt_get(data@.get("settings"@), "file"@), "unknown"@),
        Seq::<char>::empty(),
    ]);
    lines
}

fn txt_benches_exec(bs: &Vec<JsonValue>, p95: &Vec<Vec<Option<String>>>, lines: &mut Vec<Vec<char>>) -> (ok: bool)
    ensures
        ok == (txt_benches(bs@.map_values(|x: JsonValue| x@), rows_view(p95@), bs@.len() as int) is Some),
        ok ==> doc::lines_view(final(lines)@) == doc::lines_view(old(lines)@) + txt_benches(
            bs@.map_values(|x: JsonValue| x@),
            rows_view(p95@),
            bs@.len() as int,
        )->0,
{
    let ghost sb = bs@.map_values(|x: JsonValue| x@);
    let ghost rows = rows_view(p95@);
    let ghost start = doc::lines_view(lines@);
    let mut i: usize = 0;
    assert(doc::lines_view(lines@) =~= start + Seq::<Seq<char>>::empty());
    while i < bs.len()
        invariant
            i <= bs@.len(),
            sb == bs@.map_values(|x: JsonValue| x@),
            rows == rows_view(p95@),
            start == doc::lines_view(old(lines)@),
            txt_benches(sb, rows, i as int) is Some,
            doc::lines_view(lines@) == start + txt_benches(sb, rows, i as int)->0,
        decreases bs.len() - i,
    {
        assert(sb[i as int] == bs@[i as int]@);
        let row = row_of(p95, i);
        let ghost prev = txt_benches(sb, rows, i as int)->0;
        if !txt_bench_exec(&bs[i], row, lines) {
            proof {
                lemma_txt_benches_none(sb, rows, i as int + 1, sb.len() as int);
            }
            return false;
        }
        proof {
            let add = txt_bench(sb[i as int], row_at(rows, i as int))->0;
            assert(txt_benches(sb, rows, i + 1) == Some(prev + add));
            assert(doc::lines_view(lines@) =~= start + (prev + add));
        }
        i += 1;
    }
    true
}

fn session_txt_opt(data: &JsonValue, p95: &Vec<Vec<Option<String>>>) -> (r: Option<String>)
    ensures
        text::opt_view(r) == session_txt(data@, rows_view(p95@)),
{
    let mut lines = title_lines(data, "# ");
    let benchmarks = match data.get("benchmarks") {
        Some(b) => b.as_array(),
        None => None,
    };
    let bs = match benchmarks {
        Some(b) => b,
        None => {
            return Some(join_lines(&lines));
        },
    };
    if !txt_benches_exec(bs, p95, &mut lines) {
        return None;
    }
    Some(join_lines(&lines))
}

proof fn lemma_txt_benches_none(bs: Seq<json::Json>, p95: Seq<Seq<Option<Seq<char>>>>, n: int, m: int)
    requires
        1 <= n <= m <= bs.len(),
        txt_benches(bs, p95, n) is None,
    ensures
        txt_benches(bs, p95, m) is None,
    decreases m - n,
{
    if n < m {
        lemma_txt_benches_none(bs, p95, n, m - 1);
    }
}

/// The plain-text session log: per benchmark, a heading with the first
/// server's latency and memory, the request pretty-printed, and one line
/// per server. `p95[i][j]` is the latency text of server `j` of benchmark
/// `i`, where known.
pub fn generate_session_txt(data: &JsonValue, p95: &Vec<Vec<Option<String>>>) -> (r: String)
    requires
        session_txt(data@, rows_view(p95@)) is Some,
    ensures
        r@ == session_txt(data@, rows_view(p95@))->0,
{
    match session_txt_opt(data, p95) {
        Some(s) => s,
        None => String::new(),
    }
}

/// Checked form of `generate_session_txt`: `None` where the log cannot be
/// written (a benchmark with an empty server list, or a cut inside a character).
pub fn try_generate_session_txt(data: &JsonValue, p95: &Vec<Vec<Option<String>>>) -> (r: Option<String>)
    ensures
        text::opt_view(r) == session_txt(data@, rows_view(p95@)),
{
    if session_txt_opt(data, p95).is_some() {
        Some(generate_session_txt(data, p95))
    } else {
        None
    }
}


// ---------------------------------------------------------------------------
// Markdown log
// ---------------------------------------------------------------------------

fn bold_head(name: &[char], metrics: &[char], rest: &str) -> (r: Vec<char>)
    ensures
        r@ == "**"@ + name@ + "**"@ + metrics@ + " — "@ + rest@,
{
    let r = cat(line_of("**"), name);
    let r = cat_str(r, "**");
    let r = cat(r, metrics);
    let r = cat_str(r, " — ");
    cat_str(r, rest)
}

fn md_server_exec(bench_name: &str, srv: &JsonValue, p95: Option<Vec<char>>, lines: &mut Vec<Vec<char>>) -> (ok: bool)
    ensures
        ok == (md_server_lines(bench_name@, srv@, opt_chars(p95)) is Some),
        ok ==> doc::lines_view(final(lines)@) == doc::lines_view(old(lines)@) + md_server_lines(
            bench_name@,
            srv@,
            opt_chars(p95),
        )->0,
{
    let ghost start = doc::lines_view(lines@);
    let ghost pv = opt_chars(p95);
    let name = str_or_exec(srv.get("server"), "?");
    let status = str_or_exec(srv.get("status"), "");
    let metrics = metrics_exec(p95, rss_exec(srv));
    let (tag, has_content) = report::classify_response(bench_name, srv);
    let ok: Vec<char> = vec!['o', 'k'];
    proof {
        reveal_strlit("");
        reveal_strlit("ok");
        assert(ok@ =~= "ok"@);
        assert(""@ =~= Seq::<char>::empty());
    }
    if text::starts_with_exec(status.as_slice(), ok.as_slice()) && status.len() == 2 {
        assert(status@ =~= "ok"@);
        let s = match summary::human_opt(bench_name, srv) {
            Some(s) => s,
            None => {
                return false;
            },
        };
        push_line(lines, bold_head(name.as_slice(), metrics.as_slice(), s.as_str()));
        let ghost after_first = doc::lines_view(lines@);
        let response = report::parse_response(srv);
        if !response.is_null() && has_content {
            let c = match compact::try_compact_json(&response, 3) {
                Some(c) => c,
                None => {
                    return false;
                },
            };
            let cs = chars_of(c.as_str());
            let short = match shortened_exec(cs.as_slice(), 120, 117) {
                Some(x) => x,
                None => {
                    return false;
                },
            };
            let cut = compact::truncate_json(&response, 5);
            let compact_text = serialize::to_json_string(&cut);
            let pretty = match pretty_json(compact_text.as_str()) {
                Some(p) => chars_of(p.as_str()),
                None => line_of("?"),
            };
            push_line(lines, empty_line());
            push_line(lines, line_of("<details>"));
            push_line(lines, cat_str(cat(line_of("<summary>Summary: <code>"), short.as_slice()), "</code></summary>"));
            push_line(lines, empty_line());
            push_line(lines, line_of("```json"));
            push_line(lines, pretty);
            push_line(lines, line_of("```"));
            push_line(lines, line_of("</details>"));
            push_line(lines, empty_line());
        } else if !response.is_null() {
            let c = match compact::try_compact_json(&response, 3) {
                Some(c) => c,
                None => {
                    return false;
                },
            };
            let l = cat_str(cat_str(cat_str(cat_str(line_of("\n`["), tag.as_str()), "]` `"), c.as_str()), "`");
            push_line(lines, l);
            push_line(lines, empty_line());
        } else {
            push_line(lines, empty_line());
        }
        proof {
            let want = md_server_lines(bench_name@, srv@, pv)->0;
            assert(doc::lines_view(lines@) =~= start + want);
        }
        true
    } else {
        proof {
            if status@ == "ok"@ {
                assert(status@.subrange(0, 2) =~= ok@);
            }
        }
        match report::error_label_opt(srv) {
            Some(l) => {
                push_line(lines, bold_head(name.as_slice(), metrics.as_slice(), l.as_str()));
                push_line(lines, empty_line());
                assert(doc::lines_view(lines@) =~= start + md_server_lines(bench_name@, srv@, pv)->0);
                true
            },
            None => false,
        }
    }
}

proof fn lemma_md_servers_none(bench: Seq<char>, s: Seq<json::Json>, p95: Seq<Option<Seq<char>>>, n: int, m: int)
    requires
        1 <= n <= m <= s.len(),
        md_servers(bench, s, p95, n) is None,
    ensures
        md_servers(bench, s, p95, m) is None,
    decreases m - n,
{
    if n < m {
        lemma_md_servers_none(bench, s, p95, n, m - 1);
    }
}

fn md_servers_exec(
    bench_name: &str,
    servers: &Vec<JsonValue>,
    row: Option<&Vec<Option<String>>>,
    lines: &mut Vec<Vec<char>>,
) -> (ok: bool)
    ensures
        ok == (md_servers(
            bench_name@,
            servers@.map_values(|x: JsonValue| x@),
            match row {
                Some(x) => x@.map_values(|c: Option<String>| text::opt_view(c)),
                None => Seq::empty(),
            },
            servers@.len() as int,
        ) is Some),
        ok ==> doc::lines_view(final(lines)@) == doc::lines_view(old(lines)@) + md_servers(
            bench_name@,
            servers@.map_values(|x: JsonValue| x@),
            match row {
                Some(x) => x@.map_values(|c: Option<String>| text::opt_view(c)),
                None => Seq::empty(),
            },
            servers@.len() as int,
        )->0,
{
    let ghost sv = servers@.map_values(|x: JsonValue| x@);
    let ghost rv = match row {
        Some(x) => x@.map_values(|c: Option<String>| text::opt_view(c)),
        None => Seq::<Option<Seq<char>>>::empty(),
    };
    let ghost start = doc::lines_view(lines@);
    let mut i: usize = 0;
    assert(md_servers(bench_name@, sv, rv, 0) == Some(Seq::<Seq<char>>::empty()));
    assert(doc::lines_view(lines@) =~= start + Seq::<Seq<char>>::empty());
    while i < servers.len()
        invariant
            i <= servers@.len(),
            sv == servers@.map_values(|x: JsonValue| x@),
            rv == match row {
                Some(x) => x@.map_values(|c: Option<String>| text::opt_view(c)),
                None => Seq::<Option<Seq<char>>>::empty(),
            },
            start == doc::lines_view(old(lines)@),
            md_servers(bench_name@, sv, rv, i as int) is Some,
            doc::lines_view(lines@) == start + md_servers(bench_name@, sv, rv, i as int)->0,
        decreases servers.len() - i,
    {
        assert(sv[i as int] == servers@[i as int]@);
        let ghost prev = md_servers(bench_name@, sv, rv, i as int)->0;
        let ghost mid = doc::lines_view(lines@);
        let cell = cell_of(row, i);
        if !md_server_exec(bench_name, &servers[i], cell, lines) {
            proof {
                lemma_md_servers_none(bench_name@, sv, rv, i as int + 1, sv.len() as int);
            }
            return false;
        }
        proof {
            let add = md_server_lines(bench_name@, sv[i as int], cell_at(rv, i as int))->0;
            assert(md_servers(bench_name@, sv, rv, i + 1) == Some(prev + add));
            assert(doc::lines_view(lines@) =~= start + (prev + add));
        }
        i += 1;
    }
    true
}

fn md_request_exec(bench: &JsonValue, name: &[char], settings: Option<&JsonValue>, lines: &mut Vec<Vec<char>>)
    ensures
        doc::lines_view(final(lines)@) == doc::lines_view(old(lines)@) + md_request(
            bench@,
            name@,
            match settings {
                Some(x) => Some(x@),
                None => None,
            },
        ),
{
    let ghost start = doc::lines_view(lines@);
    let file = str_or_exec(member(settings, "file"), "unknown");
    let input = match bench.get("input") {
        Some(x) => x.as_str(),
        None => None,
    };
    match input {
        Some(inp) => {
            push_line(lines, line_of("**Request:**"));
            push_line(lines, line_of("```json"));
            push_line(lines, request_exec(inp));
            push_line(lines, line_of("```"));
            push_line(lines, empty_line());
        },
        None => {
            let line = match member(settings, "line") {
                Some(x) => x.as_u64(),
                None => None,
            };
            let col = match member(settings, "col") {
                Some(x) => x.as_u64(),
                None => None,
            };
            match (line, col) {
                (Some(a), Some(b)) => {
                    let l = cat(line_of("**Request:** `"), name);
                    let l = cat(cat_str(l, "` at `"), file.as_slice());
                    let da = text::dec_u64(a);
                    let db = text::dec_u64(b);
                    let l = cat(cat_str(l, ":"), da.as_slice());
                    let l = cat(cat_str(l, ":"), db.as_slice());
                    push_line(lines, cat_str(l, "`"));
                },
                _ => {
                    let l = cat(line_of("**Request:** `"), name);
                    let l = cat(cat_str(l, "` on `"), file.as_slice());
                    push_line(lines, cat_str(l, "`"));
                },
            }
            push_line(lines, empty_line());
        },
    }
    assert(doc::lines_view(lines@) =~= start + md_request(
        bench@,
        name@,
        match settings {
            Some(x) => Some(x@),
            None => None,
        },
    ));
}

#[verifier::rlimit(60)]
#[verifier::spinoff_prover]
fn md_bench_exec(
    bench: &JsonValue,
    row: Option<&Vec<Option<String>>>,
    settings: Option<&JsonValue>,
    lines: &mut Vec<Vec<char>>,
) -> (ok: bool)
    ensures
        ok == (md_bench(
            bench@,
            match row {
                Some(x) => x@.map_values(|c: Option<String>| text::opt_view(c)),
                None => Seq::empty(),
            },
            match settings {
                Some(x) => Some(x@),
                None => None,
            },
        ) is Some),
        ok ==> doc::lines_view(final(lines)@) == doc::lines_view(old(lines)@) + md_bench(
            bench@,
            match row {
                Some(x) => x@.map_values(|c: Option<String>| text::opt_view(c)),
                None => Seq::empty(),
            },
            match settings {
                Some(x) => Some(x@),
                None => None,
            },
        )->0,
{
    let ghost start = doc::lines_view(lines@);
    let name = str_or_exec(bench.get("name"), "?");
    let servers = match bench.get("servers") {
        Some(x) => x.as_array(),
        None => None,
    };
    let servers = match servers {
        Some(s) => s,
        None => {
            assert(doc::lines_view(lines@) =~= start + Seq::<Seq<char>>::empty());
            return true;
        },
    };
    push_line(lines, cat(line_of("## "), name.as_slice()));
    push_line(lines, empty_line());
    md_request_exec(bench, name.as_slice(), settings, lines);
    push_line(lines, line_of("**Responses:**"));
    push_line(lines, empty_line());
    let ghost before_servers = doc::lines_view(lines@);
    let bench_name = text::string_of(name.as_slice());
    if !md_servers_exec(bench_name.as_str(), servers, row, lines) {
        return false;
    }
    push_line(lines, line_of("---"));
    push_line(lines, empty_line());
    proof {
        let rv = match row {
            Some(x) => x@.map_values(|c: Option<String>| text::opt_view(c)),
            None => Seq::<Option<Seq<char>>>::empty(),
        };
        let sv = match settings {
            Some(x) => Some(x@),
            None => None,
        };
        let want = md_bench(bench@, rv, sv)->0;
        assert(doc::lines_view(lines@) =~= start + want);
    }
    true
}

proof fn lemma_md_benches_none(
    bs: Seq<json::Json>,
    p95: Seq<Seq<Option<Seq<char>>>>,
    settings: Option<json::Json>,
    n: int,
    m: int,
)
    requires
        1 <= n <= m <= bs.len(),
        md_benches(bs, p95, settings, n) is None,
    ensures
        md_benches(bs, p95, settings, m) is None,
    decreases m - n,
{
    if n < m {
        lemma_md_benches_none(bs, p95, settings, n, m - 1);
    }
}

fn md_benches_exec(
    bs: &Vec<JsonValue>,
    p95: &Vec<Vec<Option<String>>>,
    settings: Option<&JsonValue>,
    lines: &mut Vec<Vec<char>>,
) -> (ok: bool)
    ensures
        ok == (md_benches(
            bs@.map_values(|x: JsonValue| x@),
            rows_view(p95@),
            match settings {
                Some(x) => Some(x@),
                None => None,
            },
            bs@.len() as int,
        ) is Some),
        ok ==> doc::lines_view(final(lines)@) == doc::lines_view(old(lines)@) + md_benches(
            bs@.map_values(|x: JsonValue| x@),
            rows_view(p95@),
            match settings {
                Some(x) => Some(x@),
                None => None,
            },
            bs@.len() as int,
        )->0,
{
    let ghost sb = bs@.map_values(|x: JsonValue| x@);
    let ghost rows = rows_view(p95@);
    let ghost sv = match settings {
        Some(x) => Some(x@),
        None => None,
    };
    let ghost start = doc::lines_view(lines@);
    let mut i: usize = 0;
    assert(doc::lines_view(lines@) =~= start + Seq::<Seq<char>>::empty());
    while i < bs.len()
        invariant
            i <= bs@.len(),
            sb == bs@.map_values(|x: JsonValue| x@),
            rows == rows_view(p95@),
            sv == match settings {
                Some(x) => Some(x@),
                None => None,
            },
            start == doc::lines_view(old(lines)@),
            md_benches(sb, rows, sv, i as int) is Some,
            doc::lines_view(lines@) == start + md_benches(sb, rows, sv, i as int)->0,
        decreases bs.len() - i,
    {
        assert(sb[i as int] == bs@[i as int]@);
        let row = row_of(p95, i);
        let ghost prev = md_benches(sb, rows, sv, i as int)->0;
        if !md_bench_exec(&bs[i], row, settings, lines) {
            proof {
                lemma_md_benches_none(sb, rows, sv, i as int + 1, sb.len() as int);
            }
            return false;
        }
        proof {
            let add = md_bench(sb[i as int], row_at(rows, i as int), sv)->0;
            assert(md_benches(sb, rows, sv, i + 1) == Some(prev + add));
            assert(doc::lines_view(lines@) =~= start + (prev + add));
        }
        i += 1;
    }
    true
}

fn session_md_opt(data: &JsonValue, p95: &Vec<Vec<Option<String>>>) -> (r: Option<String>)
    ensures
        text::opt_view(r) == session_md(data@, rows_view(p95@)),
{
    let mut lines = title_lines(data, "# Session Log — ");
    let ghost head = doc::lines_view(lines@);
    let settings = data.get("settings");
    let benchmarks = match data.get("benchmarks") {
        Some(b) => b.as_array(),
        None => None,
    };
    let bs = match benchmarks {
        Some(b) => b,
        None => {
            return Some(join_lines(&lines));
        },
    };
    if !md_benches_exec(bs, p95, settings, &mut lines) {
        return None;
    }
    Some(join_lines(&lines))
}

/// The markdown session log: per benchmark, the request and, per server,
/// its latency and memory, a summary, and a collapsible pretty-printed
/// response. `p95[i][j]` is the latency text of server `j` of benchmark
/// `i`, where known.
pub fn generate_session_md(data: &JsonValue, p95: &Vec<Vec<Option<String>>>) -> (r: String)
    requires
        session_md(data@, rows_view(p95@)) is Some,
    ensures
        r@ == session_md(data@, rows_view(p95@))->0,
{
    match session_md_opt(data, p95) {
        Some(s) => s,
        None => String::new(),
    }
}

/// Checked form of `generate_session_md`: `None` where a text would be cut
/// inside a character.
pub fn try_generate_session_md(data: &JsonValue, p95: &Vec<Vec<Option<String>>>) -> (r: Option<String>)
    ensures
        text::opt_view(r) == session_md(data@, rows_view(p95@)),
{
    if session_md_opt(data, p95).is_some() {
        Some(generate_session_md(data, p95))
    } else {
        None
    }
}

} // verus!
