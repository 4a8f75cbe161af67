//! The parts of the analysis report that need no floating-point
//! statistics: the introduction and servers table, the choice of the base
//! server, the capability matrix and counts, peak memory, and the footer.
use vstd::prelude::*;
use crate::doc::{self, cat, cat_str, empty_line, line_of, member, push_line, str_or_exec};
use crate::json::{self, JsonValue};
use crate::render;
use crate::report;
use crate::text::{self, chars_of};

verus! {

pub open spec fn servers_in(bench: json::Json) -> Option<Seq<json::Json>> {
    json::opt_array(bench.get("servers"@))
}

/// The title, the settings line and the servers table.
pub open spec fn intro(data: json::Json) -> Seq<Seq<char>> {
    let settings = data.get("settings"@);
    seq!["# Benchmark Analysis"@, Seq::empty()] + (if settings is Some {
        seq![
            "Analysis of `"@ + doc::str_or(json::Json::opt_get(settings, "project"@), "unknown"@) + "` (`"@
                + doc::str_or(json::Json::opt_get(settings, "file"@), "unknown"@) + "`) — "@
                + text::dec(doc::u64_or_zero(json::Json::opt_get(settings, "iterations"@)))
                + " iterations per benchmark."@,
            Seq::empty(),
        ]
    } else {
        Seq::empty()
    }) + match json::opt_array(data.get("servers"@)) {
        Some(ss) => seq![
            "## Servers"@,
            Seq::empty(),
            "| Server | Description | Version |"@,
            "|--------|-------------|---------|"@,
        ] + described_rows(ss, ss.len() as int) + seq![Seq::empty()],
        None => Seq::empty(),
    }
}

/// The first `n` rows of a servers table with descriptions and versions.
pub open spec fn described_rows(ss: Seq<json::Json>, n: int) -> Seq<Seq<char>>
    decreases n,
{
    if n <= 0 || n > ss.len() {
        Seq::empty()
    } else {
        described_rows(ss, n - 1).push(
            "| "@ + doc::name_cell(ss[n - 1]) + " | "@ + doc::str_or(ss[n - 1].get("description"@), Seq::empty())
                + " | `"@ + doc::str_or(ss[n - 1].get("version"@), "?"@) + "` |"@,
        )
    }
}

/// The base server of head-to-head comparisons: the requested one when it
/// is among the servers, else the first server; the flag tells that a
/// request was not found.
pub open spec fn base_of(names: Seq<Seq<char>>, requested: Option<Seq<char>>) -> (Option<Seq<char>>, bool) {
    let first = if names.len() > 0 {
        Some(names[0])
    } else {
        None
    };
    match requested {
        Some(r) => if names.contains(r) {
            (Some(r), false)
        } else {
            (first, true)
        },
        None => (first, false),
    }
}

/// The status cells of the first `n` servers.
pub open spec fn status_cells(ss: Seq<json::Json>, n: int) -> Seq<char>
    decreases n,
{
    if n <= 0 || n > ss.len() {
        Seq::empty()
    } else {
        status_cells(ss, n - 1) + " "@ + report::status_label(ss[n - 1]) + " |"@
    }
}

/// The matrix rows of the first `n` benchmarks.
pub open spec fn matrix_rows(bs: Seq<json::Json>, n: int) -> Seq<Seq<char>>
    decreases n,
{
    if n <= 0 || n > bs.len() {
        Seq::empty()
    } else {
        let b = bs[n - 1];
        matrix_rows(bs, n - 1).push(
            "| "@ + doc::str_or(b.get("name"@), "?"@) + " |"@ + match servers_in(b) {
                Some(ss) => status_cells(ss, ss.len() as int),
                None => Seq::empty(),
            },
        )
    }
}

/// The capability matrix: one row per benchmark, one status per server.
pub open spec fn matrix(bs: Seq<json::Json>, names: Seq<Seq<char>>) -> Seq<Seq<char>> {
    seq![
        "## Capability Matrix"@,
        Seq::empty(),
        doc::names_header("| Benchmark |"@, names),
        doc::names_sep("|-----------|"@, names),
    ] + matrix_rows(bs, bs.len() as int) + seq![Seq::empty()]
}

/// (working, failed) entries of server `name` among the first `n` servers.
pub open spec fn counts_in(ss: Seq<json::Json>, name: Seq<char>, n: int) -> (nat, nat)
    decreases n,
{
    if n <= 0 || n > ss.len() {
        (0, 0)
    } else {
        let (ok, fail) = counts_in(ss, name, n - 1);
        let s = ss[n - 1];
        if doc::str_or(s.get("server"@), Seq::empty()) != name {
            (ok, fail)
        } else if report::status_label(s) == "ok"@ {
            (ok + 1, fail)
        } else {
            (ok, fail + 1)
        }
    }
}

/// (working, failed) entries of server `name` over the first `n` benchmarks.
pub open spec fn counts(bs: Seq<json::Json>, name: Seq<char>, n: int) -> (nat, nat)
    decreases n,
{
    if n <= 0 || n > bs.len() {
        (0, 0)
    } else {
        let (ok, fail) = counts(bs, name, n - 1);
        match servers_in(bs[n - 1]) {
            Some(ss) => {
                let (o, f) = counts_in(ss, name, ss.len() as int);
                (ok + o, fail + f)
            },
            None => (ok, fail),
        }
    }
}

/// The largest `rss_kb` of server `name` among the first `n` servers.
pub open spec fn peak_in(ss: Seq<json::Json>, name: Seq<char>, peak: Option<nat>, n: int) -> Option<nat>
    decreases n,
{
    if n <= 0 || n > ss.len() {
        peak
    } else {
        let p = peak_in(ss, name, peak, n - 1);
        let s = ss[n - 1];
        if doc::str_or(s.get("server"@), Seq::empty()) == name {
            match json::opt_u64(s.get("rss_kb"@)) {
                Some(kb) => Some(
                    match p {
                        Some(q) => if q >= kb {
                            q
                        } else {
                            kb as nat
                        },
                        None => kb as nat,
                    },
                ),
                None => p,
            }
        } else {
            p
        }
    }
}

/// The largest `rss_kb` of server `name` over the first `n` benchmarks.
pub open spec fn peak(bs: Seq<json::Json>, name: Seq<char>, n: int) -> Option<nat>
    decreases n,
{
    if n <= 0 || n > bs.len() {
        None
    } else {
        let p = peak(bs, name, n - 1);
        match servers_in(bs[n - 1]) {
            Some(ss) => peak_in(ss, name, p, ss.len() as int),
            None => p,
        }
    }
}

/// Some server of some benchmark reports memory.
pub open spec fn any_rss(bs: Seq<json::Json>) -> bool {
    exists|i: int, j: int|
        0 <= i < bs.len() && servers_in(bs[i]) is Some && 0 <= j < servers_in(bs[i])->0.len()
            && json::opt_u64(servers_in(bs[i])->0[j].get("rss_kb"@)) is Some
}

/// Peak memory cells of the first `n` servers: " x.y MB |" or " - |".
pub open spec fn peak_cells(bs: Seq<json::Json>, names: Seq<Seq<char>>, n: int) -> Seq<char>
    decreases n,
{
    if n <= 0 || n > names.len() {
        Seq::empty()
    } else {
        peak_cells(bs, names, n - 1) + match peak(bs, names[n - 1], bs.len() as int) {
            Some(p) => " "@ + render::one_decimal(render::tenths(render::as_f64(p), 1024)) + " MB |"@,
            None => " - |"@,
        }
    }
}

/// The peak memory section, present when any server reports memory.
pub open spec fn peak_section(bs: Seq<json::Json>, names: Seq<Seq<char>>) -> Seq<Seq<char>> {
    if any_rss(bs) {
        seq![
            "## Peak Memory (RSS)"@,
            Seq::empty(),
            doc::names_header("|"@, names),
            doc::names_sep("|"@, names),
            "|"@ + peak_cells(bs, names, names.len() as int),
            Seq::empty(),
        ]
    } else {
        Seq::empty()
    }
}

/// The footer naming the data file and the run's timestamp.
pub open spec fn footer(data: json::Json, path: Seq<char>) -> Seq<Seq<char>> {
    seq!["---"@, Seq::empty()] + match json::opt_str(data.get("timestamp"@)) {
        Some(ts) => seq![
            "*Generated from [`"@ + path + "`]("@ + path + ") — benchmark run: "@ + ts + "*"@,
            Seq::empty(),
        ],
        None => Seq::empty(),
    }
}

// ---------------------------------------------------------------------------
// Implementation
// ---------------------------------------------------------------------------

pub open spec fn strings_of(v: Seq<String>) -> Seq<Seq<char>> {
    v.map_values(|s: String| s@)
}

fn to_strings(lines: Vec<Vec<char>>) -> (r: Vec<String>)
    ensures
        strings_of(r@) == doc::lines_view(lines@),
{
    let mut out: Vec<String> = Vec::new();
    let mut i: usize = 0;
    while i < lines.len()
        invariant
            i <= lines@.len(),
            strings_of(out@) == doc::lines_view(lines@).subrange(0, i as int),
        decreases lines.len() - i,
    {
        let ghost before = out@;
        let t = text::string_of(lines[i].as_slice());
        assert(t@ == doc::lines_view(lines@)[i as int]);
        out.push(t);
        assert(strings_of(out@) =~= strings_of(before).push(t@));
        i += 1;
        assert(strings_of(out@) =~= doc::lines_view(lines@).subrange(0, i as int));
    }
    assert(doc::lines_view(lines@).subrange(0, lines@.len() as int) =~= doc::lines_view(lines@));
    out
}

/// The report's opening lines: title, settings line and servers table.
pub fn analysis_intro(data: &JsonValue) -> (r: Vec<String>)
    ensures
        strings_of(r@) == intro(data@),
{
    let mut lines: Vec<Vec<char>> = Vec::new();
    push_line(&mut lines, line_of("# Benchmark Analysis"));
    push_line(&mut lines, empty_line());
    let ghost a = doc::lines_view(lines@);
    let settings = data.get("settings");
    if settings.is_some() {
        let project = str_or_exec(member(settings, "project"), "unknown");
        let file = str_or_exec(member(settings, "file"), "unknown");
        let mut l = cat(line_of("Analysis of `"), project.as_slice());
        l = cat(cat_str(l, "` (`"), file.as_slice());
        l = cat_str(l, "`) — ");
        doc::push_u64(&mut l, doc::u64_or_zero_exec(member(settings, "iterations")));
        push_line(&mut lines, cat_str(l, " iterations per benchmark."));
        push_line(&mut lines, empty_line());
    }
    let ghost b = doc::lines_view(lines@);
    let servers = match data.get("servers") {
        Some(x) => x.as_array(),
        None => None,
    };
    match servers {
        Some(ss) => {
            push_line(&mut lines, line_of("## Servers"));
            push_line(&mut lines, empty_line());
            push_line(&mut lines, line_of("| Server | Description | Version |"));
            push_line(&mut lines, line_of("|--------|-------------|---------|"));
            let ghost sv = ss@.map_values(|x: JsonValue| x@);
            let ghost c = doc::lines_view(lines@);
            let mut i: usize = 0;
            assert(doc::lines_view(lines@) =~= c + described_rows(sv, 0));
            while i < ss.len()
                invariant
                    i <= ss@.len(),
                    sv == ss@.map_values(|x: JsonValue| x@),
                    doc::lines_view(lines@) == c + described_rows(sv, i as int),
                decreases ss.len() - i,
            {
                assert(sv[i as int] == ss@[i as int]@);
                let cell = doc::name_cell_exec(&ss[i]);
                let desc = str_or_exec(ss[i].get("description"), "");
                let ver = str_or_exec(ss[i].get("version"), "?");
                let l = cat(line_of("| "), cell.as_slice());
                let l = cat(cat_str(l, " | "), desc.as_slice());
                let l = cat_str(cat(cat_str(l, " | `"), ver.as_slice()), "` |");
                push_line(&mut lines, l);
                i += 1;
                proof {
                    reveal_strlit("");
                    assert(""@ =~= Seq::<char>::empty());
                }
                assert(doc::lines_view(lines@) =~= c + described_rows(sv, i as int));
            }
            push_line(&mut lines, empty_line());
        },
        None => {},
    }
    assert(doc::lines_view(lines@) =~= intro(data@));
    to_strings(lines)
}

/// Chooses the base server for head-to-head columns; the flag is set when
/// the requested server is not among the servers (the caller warns; the
/// first server is used then).
pub fn base_server(names: &Vec<String>, requested: Option<&str>) -> (r: (Option<String>, bool))
    ensures
        (text::opt_view(r.0), r.1) == base_of(
            strings_of(names@),
            match requested {
                Some(q) => Some(q@),
                None => None,
            },
        ),
{
    let ghost ns = strings_of(names@);
    let first: Option<String> = if names.len() > 0 {
        Some(names[0].as_str().to_owned())
    } else {
        None
    };
    match requested {
        Some(q) => {
            let mut i: usize = 0;
            while i < names.len()
                invariant
                    i <= names@.len(),
                    ns == strings_of(names@),
                    requested == Some(q),
                    forall|k: int| 0 <= k < i ==> ns[k] != q@,
                decreases names.len() - i,
            {
                if crate::json::str_eq(names[i].as_str(), q) {
                    assert(ns[i as int] == q@);
                    return (Some(q.to_owned()), false);
                }
                i += 1;
            }
            assert(!ns.contains(q@));
            (first, true)
        },
        None => (first, false),
    }
}

fn status_cells_exec(ss: &Vec<JsonValue>) -> (r: Vec<char>)
    ensures
        r@ == status_cells(ss@.map_values(|x: JsonValue| x@), ss@.len() as int),
{
    let ghost sv = ss@.map_values(|x: JsonValue| x@);
    let mut out: Vec<char> = Vec::new();
    let mut j: usize = 0;
    while j < ss.len()
        invariant
            j <= ss@.len(),
            sv == ss@.map_values(|x: JsonValue| x@),
            out@ == status_cells(sv, j as int),
        decreases ss.len() - j,
    {
        assert(sv[j as int] == ss@[j as int]@);
        let label = report::server_status_label(&ss[j]);
        out = cat_str(cat_str(cat_str(out, " "), label.as_str()), " |");
        j += 1;
    }
    out
}

/// The capability matrix section: per benchmark, each server's status
/// (ok, no, empty, timeout, crash).
pub fn capability_matrix(benchmarks: &Vec<JsonValue>, names: &Vec<String>) -> (r: Vec<String>)
    ensures
        strings_of(r@) == matrix(benchmarks@.map_values(|x: JsonValue| x@), strings_of(names@)),
{
    let ghost sb = benchmarks@.map_values(|x: JsonValue| x@);
    let mut lines: Vec<Vec<char>> = Vec::new();
    push_line(&mut lines, line_of("## Capability Matrix"));
    push_line(&mut lines, empty_line());
    push_line(&mut lines, doc::names_header_exec("| Benchmark |", names));
    push_line(&mut lines, doc::names_sep_exec("|-----------|", names));
    let ghost c = doc::lines_view(lines@);
    let mut i: usize = 0;
    assert(doc::lines_view(lines@) =~= c + matrix_rows(sb, 0));
    while i < benchmarks.len()
        invariant
            i <= benchmarks@.len(),
            sb == benchmarks@.map_values(|x: JsonValue| x@),
            doc::lines_view(lines@) == c + matrix_rows(sb, i as int),
        decreases benchmarks.len() - i,
    {
        assert(sb[i as int] == benchmarks@[i as int]@);
        let name = str_or_exec(benchmarks[i].get("name"), "?");
        let l = cat_str(cat(line_of("| "), name.as_slice()), " |");
        let ss = match benchmarks[i].get("servers") {
            Some(x) => x.as_array(),
            None => None,
        };
        let l = match ss {
            Some(ss) => {
                let cells = status_cells_exec(ss);
                cat(l, cells.as_slice())
            },
            None => l,
        };
        push_line(&mut lines, l);
        i += 1;
        assert(doc::lines_view(lines@) =~= c + matrix_rows(sb, i as int));
    }
    push_line(&mut lines, empty_line());
    assert(doc::strings_view(names@) =~= strings_of(names@));
    assert(doc::lines_view(lines@) =~= matrix(sb, strings_of(names@)));
    to_strings(lines)
}

/// How many benchmarks server `name` works on and fails, by status label.
pub fn capability_counts(benchmarks: &Vec<JsonValue>, name: &str) -> (r: (u128, u128))
    ensures
        (r.0 as nat, r.1 as nat) == counts(benchmarks@.map_values(|x: JsonValue| x@), name@, benchmarks@.len() as int),
{
    let ghost sb = benchmarks@.map_values(|x: JsonValue| x@);
    let mut ok: u128 = 0;
    let mut fail: u128 = 0;
    let mut seen: u128 = 0;
    let mut i: usize = 0;
    let nb = benchmarks.len();
    while i < benchmarks.len()
        invariant
            i <= benchmarks@.len(),
            nb == benchmarks@.len(),
            sb == benchmarks@.map_values(|x: JsonValue| x@),
            (ok as nat, fail as nat) == counts(sb, name@, i as int),
            ok + fail <= seen,
            seen <= i * 0x1_0000_0000_0000_0000,
        decreases benchmarks.len() - i,
    {
        assert(sb[i as int] == benchmarks@[i as int]@);
        let ss = match benchmarks[i].get("servers") {
            Some(x) => x.as_array(),
            None => None,
        };
        match ss {
            Some(ss) => {
                let ghost sv = ss@.map_values(|x: JsonValue| x@);
                let ghost ok0 = ok;
                let ghost fail0 = fail;
                let ghost seen0 = seen;
                let mut j: usize = 0;
                while j < ss.len()
                    invariant
                        j <= ss@.len(),
                        sv == ss@.map_values(|x: JsonValue| x@),
                        i < benchmarks@.len(),
                        nb == benchmarks@.len(),
                        ((ok - ok0) as nat, (fail - fail0) as nat) == counts_in(sv, name@, j as int),
                        ok >= ok0,
                        fail >= fail0,
                        ok + fail <= seen,
                        seen == seen0 + j,
                        seen0 <= i * 0x1_0000_0000_0000_0000,
                    decreases ss.len() - j,
                {
                    assert(sv[j as int] == ss@[j as int]@);
                    let who = str_or_exec(ss[j].get("server"), "");
                    proof {
                        reveal_strlit("");
                        assert(""@ =~= Seq::<char>::empty());
                    }
                    let who_s = text::string_of(who.as_slice());
                    if crate::json::str_eq(who_s.as_str(), name) {
                        let label = report::server_status_label(&ss[j]);
                        if crate::json::str_eq(label.as_str(), "ok") {
                            ok = ok + 1;
                        } else {
                            fail = fail + 1;
                        }
                    }
                    seen = seen + 1;
                    j += 1;
                }
            },
            None => {},
        }
        i += 1;
    }
    (ok, fail)
}

/// A row of the capability summary: working and failed counts out of the
/// benchmarks, and the success rate text.
pub fn capability_row(name: &str, ok: u128, fail: u128, total: u128, rate: &str) -> (r: String)
    ensures
        r@ == "| "@ + name@ + " | "@ + text::dec(ok as nat) + "/"@ + text::dec(total as nat) + " | "@
            + text::dec(fail as nat) + "/"@ + text::dec(total as nat) + " | "@ + rate@ + "% |"@,
{
    let mut l = cat_str(cat_str(line_of("| "), name), " | ");
    text::extend(&mut l, text::dec_u128(ok).as_slice());
    l = cat_str(l, "/");
    text::extend(&mut l, text::dec_u128(total).as_slice());
    l = cat_str(l, " | ");
    text::extend(&mut l, text::dec_u128(fail).as_slice());
    l = cat_str(l, "/");
    text::extend(&mut l, text::dec_u128(total).as_slice());
    l = cat_str(cat_str(cat_str(l, " | "), rate), "% |");
    text::string_of(l.as_slice())
}

fn peak_in_exec(ss: &Vec<JsonValue>, name: &str, start: Option<u64>) -> (r: Option<u64>)
    ensures
        match r {
            Some(x) => peak_in(ss@.map_values(|x: JsonValue| x@), name@, match start {
                Some(a) => Some(a as nat),
                None => None,
            }, ss@.len() as int) == Some(x as nat),
            None => peak_in(ss@.map_values(|x: JsonValue| x@), name@, match start {
                Some(a) => Some(a as nat),
                None => None,
            }, ss@.len() as int) is None,
        },
{
    let ghost sv = ss@.map_values(|x: JsonValue| x@);
    let ghost st = match start {
        Some(a) => Some(a as nat),
        None => None,
    };
    let mut p = start;
    let mut j: usize = 0;
    while j < ss.len()
        invariant
            j <= ss@.len(),
            sv == ss@.map_values(|x: JsonValue| x@),
            st == match start {
                Some(a) => Some(a as nat),
                None => None::<nat>,
            },
            peak_in(sv, name@, st, j as int) == match p {
                Some(a) => Some(a as nat),
                None => None::<nat>,
            },
        decreases ss.len() - j,
    {
        assert(sv[j as int] == ss@[j as int]@);
        let who = str_or_exec(ss[j].get("server"), "");
        proof {
            reveal_strlit("");
            assert(""@ =~= Seq::<char>::empty());
        }
        let who_s = text::string_of(who.as_slice());
        if crate::json::str_eq(who_s.as_str(), name) {
            let kb = match ss[j].get("rss_kb") {
                Some(x) => x.as_u64(),
                None => None,
            };
            match kb {
                Some(kb) => {
                    p = match p {
                        Some(q) => if q >= kb {
                            Some(q)
                        } else {
                            Some(kb)
                        },
                        None => Some(kb),
                    };
                },
                None => {},
            }
        }
        j += 1;
    }
    p
}

fn peak_exec(bs: &Vec<JsonValue>, name: &str) -> (r: Option<u64>)
    ensures
        match r {
            Some(x) => peak(bs@.map_values(|x: JsonValue| x@), name@, bs@.len() as int) == Some(x as nat),
            None => peak(bs@.map_values(|x: JsonValue| x@), name@, bs@.len() as int) is None,
        },
{
    let ghost sb = bs@.map_values(|x: JsonValue| x@);
    let mut p: Option<u64> = None;
    let mut i: usize = 0;
    while i < bs.len()
        invariant
            i <= bs@.len(),
            sb == bs@.map_values(|x: JsonValue| x@),
            peak(sb, name@, i as int) == match p {
                Some(a) => Some(a as nat),
                None => None::<nat>,
            },
        decreases bs.len() - i,
    {
        assert(sb[i as int] == bs@[i as int]@);
        let ss = match bs[i].get("servers") {
            Some(x) => x.as_array(),
            None => None,
        };
        match ss {
            Some(ss) => {
                p = peak_in_exec(ss, name, p);
            },
            None => {},
        }
        i += 1;
    }
    p
}

fn any_rss_exec(bs: &Vec<JsonValue>) -> (r: bool)
    ensures
        r == any_rss(bs@.map_values(|x: JsonValue| x@)),
{
    let ghost sb = bs@.map_values(|x: JsonValue| x@);
    let mut i: usize = 0;
    while i < bs.len()
        invariant
            i <= bs@.len(),
            sb == bs@.map_values(|x: JsonValue| x@),
            forall|a: int, b: int|
                0 <= a < i && servers_in(sb[a]) is Some && 0 <= b < servers_in(sb[a])->0.len()
                    ==> json::opt_u64(#[trigger] servers_in(sb[a])->0[b].get("rss_kb"@)) is None,
        decreases bs.len() - i,
    {
        assert(sb[i as int] == bs@[i as int]@);
        let ss = match bs[i].get("servers") {
            Some(x) => x.as_array(),
            None => None,
        };
        match ss {
            Some(ss) => {
                let ghost sv = ss@.map_values(|x: JsonValue| x@);
                let mut j: usize = 0;
                while j < ss.len()
                    invariant
                        j <= ss@.len(),
                        sv == ss@.map_values(|x: JsonValue| x@),
                        i < bs@.len(),
                        sb == bs@.map_values(|x: JsonValue| x@),
                        servers_in(sb[i as int]) == Some(sv),
                        forall|a: int, b: int|
                            0 <= a < i && servers_in(sb[a]) is Some && 0 <= b < servers_in(sb[a])->0.len()
                                ==> json::opt_u64(#[trigger] servers_in(sb[a])->0[b].get("rss_kb"@)) is None,
                        forall|b: int| 0 <= b < j ==> json::opt_u64(#[trigger] sv[b].get("rss_kb"@)) is None,
                    decreases ss.len() - j,
                {
                    assert(sv[j as int] == ss@[j as int]@);
                    let has = match ss[j].get("rss_kb") {
                        Some(x) => x.as_u64().is_some(),
                        None => false,
                    };
                    if has {
                        assert(json::opt_u64(sv[j as int].get("rss_kb"@)) is Some);
                        assert(servers_in(sb[i as int])->0[j as int] == sv[j as int]);
                        assert(any_rss(sb));
                        return true;
                    }
                    j += 1;
                }
            },
            None => {},
        }
        i += 1;
    }
    false
}

/// The peak memory section: each server's largest `rss_kb` in MB, present
/// when any server reports memory.
pub fn peak_memory_section(benchmarks: &Vec<JsonValue>, names: &Vec<String>) -> (r: Vec<String>)
    ensures
        strings_of(r@) == peak_section(benchmarks@.map_values(|x: JsonValue| x@), strings_of(names@)),
{
    let ghost sb = benchmarks@.map_values(|x: JsonValue| x@);
    let ghost ns = strings_of(names@);
    let mut lines: Vec<Vec<char>> = Vec::new();
    if !any_rss_exec(benchmarks) {
        assert(doc::lines_view(lines@) =~= Seq::<Seq<char>>::empty());
        return to_strings(lines);
    }
    push_line(&mut lines, line_of("## Peak Memory (RSS)"));
    push_line(&mut lines, empty_line());
    push_line(&mut lines, doc::names_header_exec("|", names));
    push_line(&mut lines, doc::names_sep_exec("|", names));
    let mut row = line_of("|");
    let ghost row0 = row@;
    let mut k: usize = 0;
    while k < names.len()
        invariant
            k <= names@.len(),
            ns == strings_of(names@),
            sb == benchmarks@.map_values(|x: JsonValue| x@),
            row0 == "|"@,
            row@ == row0 + peak_cells(sb, ns, k as int),
        decreases names.len() - k,
    {
        match peak_exec(benchmarks, names[k].as_str()) {
            Some(p) => {
                let m = render::format_rss(p);
                let mc = chars_of(m.as_str());
                proof {
                    reveal_strlit("MB");
                }
                let n = mc.len();
                assert(n >= 2);
                let num = text::slice_of(mc.as_slice(), 0, n - 2);
                assert(num@ =~= render::one_decimal(render::tenths(render::as_f64(p as nat), 1024)));
                row = cat_str(cat(cat_str(row, " "), num.as_slice()), " MB |");
            },
            None => {
                row = cat_str(row, " - |");
            },
        }
        k += 1;
        assert(row@ =~= row0 + peak_cells(sb, ns, k as int));
    }
    push_line(&mut lines, row);
    push_line(&mut lines, empty_line());
    assert(doc::strings_view(names@) =~= ns);
    assert(doc::lines_view(lines@) =~= peak_section(sb, ns));
    to_strings(lines)
}

/// The footer naming the data file and the run's timestamp.
pub fn analysis_footer(data: &JsonValue, json_path: &str) -> (r: Vec<String>)
    ensures
        strings_of(r@) == footer(data@, json_path@),
{
    let mut lines: Vec<Vec<char>> = Vec::new();
    push_line(&mut lines, line_of("---"));
    push_line(&mut lines, empty_line());
    let ts = match data.get("timestamp") {
        Some(x) => x.as_str(),
        None => None,
    };
    match ts {
        Some(t) => {
            let l = cat_str(cat_str(cat_str(cat_str(line_of("*Generated from [`"), json_path), "`]("), json_path), ") — benchmark run: ");
            push_line(&mut lines, cat_str(cat_str(l, t), "*"));
            push_line(&mut lines, empty_line());
        },
        None => {},
    }
    assert(doc::lines_view(lines@) =~= footer(data@, json_path@));
    to_strings(lines)
}

/// The servers table (with descriptions and versions) of a report.
pub fn analysis_intro_servers(ss: &Vec<JsonValue>) -> (r: Vec<String>)
    ensures
        strings_of(r@) == seq![
            "## Servers"@,
            Seq::empty(),
            "| Server | Description | Version |"@,
            "|--------|-------------|---------|"@,
        ] + described_rows(ss@.map_values(|x: JsonValue| x@), ss@.len() as int) + seq![Seq::empty()],
{
    let mut lines: Vec<Vec<char>> = Vec::new();
    push_line(&mut lines, line_of("## Servers"));
    push_line(&mut lines, empty_line());
    push_line(&mut lines, line_of("| Server | Description | Version |"));
    push_line(&mut lines, line_of("|--------|-------------|---------|"));
    let ghost sv = ss@.map_values(|x: JsonValue| x@);
    let ghost c = doc::lines_view(lines@);
    let mut i: usize = 0;
    assert(doc::lines_view(lines@) =~= c + described_rows(sv, 0));
    while i < ss.len()
        invariant
            i <= ss@.len(),
            sv == ss@.map_values(|x: JsonValue| x@),
            doc::lines_view(lines@) == c + described_rows(sv, i as int),
        decreases ss.len() - i,
    {
        assert(sv[i as int] == ss@[i as int]@);
        let cell = doc::name_cell_exec(&ss[i]);
        let desc = str_or_exec(ss[i].get("description"), "");
        let ver = str_or_exec(ss[i].get("version"), "?");
        let l = cat(line_of("| "), cell.as_slice());
        let l = cat(cat_str(l, " | "), desc.as_slice());
        let l = cat_str(cat(cat_str(l, " | `"), ver.as_slice()), "` |");
        push_line(&mut lines, l);
        i += 1;
        proof {
            reveal_strlit("");
            assert(""@ =~= Seq::<char>::empty());
        }
        assert(doc::lines_view(lines@) =~= c + described_rows(sv, i as int));
    }
    push_line(&mut lines, empty_line());
    to_strings(lines)
}

// ---------------------------------------------------------------------------
// Per-feature tables: which columns they have
// ---------------------------------------------------------------------------

/// Whether some of the first `n` entries has a member `key` that satisfies
/// the test `kind` (0: an unsigned integer, 1: a number, 2: an array).
pub open spec fn any_member(ss: Seq<json::Json>, key: Seq<char>, kind: nat, n: int) -> bool
    decreases n,
{
    if n <= 0 || n > ss.len() {
        false
    } else {
        any_member(ss, key, kind, n - 1) || member_kind(ss[n - 1].get(key), kind)
    }
}

pub open spec fn member_kind(v: Option<json::Json>, kind: nat) -> bool {
    match v {
        Some(j) => if kind == 0 {
            j.as_u64() is Some
        } else if kind == 1 {
            j is Num
        } else {
            j is Arr
        },
        None => false,
    }
}

/// How many of the first `n` entries have the capability label "ok".
pub open spec fn ok_count(ss: Seq<json::Json>, n: int) -> nat
    decreases n,
{
    if n <= 0 || n > ss.len() {
        0
    } else {
        ok_count(ss, n - 1) + if report::status_label(ss[n - 1]) == "ok"@ {
            1nat
        } else {
            0nat
        }
    }
}

/// Whether some of the first `n` entries labelled "ok" has a numeric mean.
pub open spec fn any_ok_mean(ss: Seq<json::Json>, n: int) -> bool
    decreases n,
{
    if n <= 0 || n > ss.len() {
        false
    } else {
        any_ok_mean(ss, n - 1) || (report::status_label(ss[n - 1]) == "ok"@ && member_kind(
            ss[n - 1].get("mean_ms"@),
            1,
        ))
    }
}

/// The header and separator of a feature's latency table: memory where some
/// server reports it, the percentile columns where some has a p50, the
/// spread of iterations where some has them, the overhead where more than
/// one server is "ok" and one of them has a mean, and the comparison with
/// the lead server where there is one among several servers.
pub open spec fn feature_columns(ss: Seq<json::Json>, lead: Option<Seq<char>>, n_servers: nat) -> (Seq<char>, Seq<char>) {
    let n = ss.len() as int;
    let rss = any_member(ss, "rss_kb"@, 0, n);
    let p50 = any_member(ss, "p50_ms"@, 1, n);
    let its = any_member(ss, "iterations"@, 2, n);
    let overhead = any_ok_mean(ss, n) && ok_count(ss, n) > 1;
    let hdr = "| Server | Status |"@ + (if rss { " Mem |"@ } else { Seq::empty() }) + " Mean |"@ + (if p50 {
        " p50 | p95 | Spread | Spike |"@
    } else {
        Seq::empty()
    }) + (if its { " Min | Max | Range |"@ } else { Seq::empty() }) + (if overhead {
        " Overhead |"@
    } else {
        Seq::empty()
    }) + match lead {
        Some(l) => if n_servers > 1 { " vs "@ + l + " |"@ } else { Seq::empty() },
        None => Seq::empty(),
    };
    let div = "|--------|--------|"@ + (if rss { "-----|"@ } else { Seq::empty() }) + "------|"@ + (if p50 {
        "-----|-----|--------|-------|"@
    } else {
        Seq::empty()
    }) + (if its { "-----|-----|-------|"@ } else { Seq::empty() }) + (if overhead {
        "----------|"@
    } else {
        Seq::empty()
    }) + match lead {
        Some(l) => if n_servers > 1 {
            Seq::new((text::utf8_len(l) + 5) as nat, |i: int| '-') + "|"@
        } else {
            Seq::empty()
        },
        None => Seq::empty(),
    };
    (hdr, div)
}

fn member_kind_exec(v: Option<&JsonValue>, kind: u8) -> (r: bool)
    requires
        kind <= 2,
    ensures
        r == member_kind(
            match v {
                Some(j) => Some(j@),
                None => None,
            },
            kind as nat,
        ),
{
    match v {
        Some(j) => if kind == 0 {
            j.as_u64().is_some()
        } else if kind == 1 {
            match j {
                JsonValue::Number(_) => true,
                _ => false,
            }
        } else {
            j.is_array()
        },
        None => false,
    }
}

fn any_member_exec(ss: &Vec<JsonValue>, key: &str, kind: u8) -> (r: bool)
    requires
        kind <= 2,
    ensures
        r == any_member(ss@.map_values(|x: JsonValue| x@), key@, kind as nat, ss@.len() as int),
{
    let ghost sv = ss@.map_values(|x: JsonValue| x@);
    let mut found = false;
    let mut i: usize = 0;
    while i < ss.len()
        invariant
            i <= ss@.len(),
            kind <= 2,
            sv == ss@.map_values(|x: JsonValue| x@),
            found == any_member(sv, key@, kind as nat, i as int),
        decreases ss.len() - i,
    {
        assert(sv[i as int] == ss@[i as int]@);
        let m = member_kind_exec(ss[i].get(key), kind);
        found = found || m;
        i += 1;
    }
    found
}

fn dashes(n: u128) -> (r: Vec<char>)
    ensures
        r@ == Seq::new(n as nat, |i: int| '-'),
{
    let mut r: Vec<char> = Vec::new();
    let mut i: u128 = 0;
    while i < n
        invariant
            i <= n,
            r@ == Seq::new(i as nat, |k: int| '-'),
        decreases n - i,
    {
        r.push('-');
        i += 1;
        assert(r@ =~= Seq::new(i as nat, |k: int| '-'));
    }
    r
}

/// Which optional columns a feature's latency table has: memory, the
/// percentiles, the spread of iterations, the overhead and the comparison
/// with the lead server.
pub open spec fn feature_flags_of(ss: Seq<json::Json>, lead: Option<Seq<char>>, n_servers: nat) -> (bool, bool, bool, bool, bool) {
    let n = ss.len() as int;
    (
        any_member(ss, "rss_kb"@, 0, n),
        any_member(ss, "p50_ms"@, 1, n),
        any_member(ss, "iterations"@, 2, n),
        any_ok_mean(ss, n) && ok_count(ss, n) > 1,
        lead is Some && n_servers > 1,
    )
}

/// The optional columns of a feature's latency table, as `feature_flags_of`
/// gives them.
pub fn feature_flags(servers: &Vec<JsonValue>, lead: Option<&str>, n_servers: usize) -> (r: (bool, bool, bool, bool, bool))
    ensures
        r == feature_flags_of(
            servers@.map_values(|x: JsonValue| x@),
            match lead {
                Some(l) => Some(l@),
                None => None,
            },
            n_servers as nat,
        ),
{
    let ghost sv = servers@.map_values(|x: JsonValue| x@);
    let rss = any_member_exec(servers, "rss_kb", 0);
    let p50 = any_member_exec(servers, "p50_ms", 1);
    let its = any_member_exec(servers, "iterations", 2);
    let mut oks: usize = 0;
    let mut ok_mean = false;
    let mut i: usize = 0;
    while i < servers.len()
        invariant
            i <= servers@.len(),
            sv == servers@.map_values(|x: JsonValue| x@),
            oks == ok_count(sv, i as int),
            oks <= i,
            ok_mean == any_ok_mean(sv, i as int),
        decreases servers.len() - i,
    {
        assert(sv[i as int] == servers@[i as int]@);
        let label = report::server_status_label(&servers[i]);
        if json::str_eq(label.as_str(), "ok") {
            oks += 1;
            if member_kind_exec(servers[i].get("mean_ms"), 1) {
                ok_mean = true;
            }
        }
        i += 1;
    }
    (rss, p50, its, ok_mean && oks > 1, lead.is_some() && n_servers > 1)
}

/// The header and separator lines of a feature's latency table, as
/// `feature_columns` describes them.
pub fn feature_header(servers: &Vec<JsonValue>, lead: Option<&str>, n_servers: usize) -> (r: (String, String))
    ensures
        (r.0@, r.1@) == feature_columns(
            servers@.map_values(|x: JsonValue| x@),
            match lead {
                Some(l) => Some(l@),
                None => None,
            },
            n_servers as nat,
        ),
{
    let (rss, p50, its, overhead, _) = feature_flags(servers, lead, n_servers);
    let mut hdr: Vec<char> = chars_of("| Server | Status |");
    let mut div: Vec<char> = chars_of("|--------|--------|");
    if rss {
        text::extend_str(&mut hdr, " Mem |");
        text::extend_str(&mut div, "-----|");
    }
    text::extend_str(&mut hdr, " Mean |");
    text::extend_str(&mut div, "------|");
    if p50 {
        text::extend_str(&mut hdr, " p50 | p95 | Spread | Spike |");
        text::extend_str(&mut div, "-----|-----|--------|-------|");
    }
    if its {
        text::extend_str(&mut hdr, " Min | Max | Range |");
        text::extend_str(&mut div, "-----|-----|-------|");
    }
    if overhead {
        text::extend_str(&mut hdr, " Overhead |");
        text::extend_str(&mut div, "----------|");
    }
    match lead {
        Some(l) => if n_servers > 1 {
            text::extend_str(&mut hdr, " vs ");
            text::extend_str(&mut hdr, l);
            text::extend_str(&mut hdr, " |");
            let d = dashes(doc::byte_len(l) + 5);
            text::extend(&mut div, d.as_slice());
            text::extend_str(&mut div, "|");
        },
        None => {},
    }
    (text::string_of(hdr.as_slice()), text::string_of(div.as_slice()))
}

/// The comparison cell of a server against the lead server where the two
/// cannot both be compared by their means: a server without a mean timed
/// out, answered empty or crashed; a lead without a mean failed; `None`
/// where both have means (the caller compares them).
pub open spec fn versus_label(srv: json::Json, lead_has_mean: bool, srv_has_mean: bool) -> Option<Seq<char>> {
    if lead_has_mean && srv_has_mean {
        None
    } else if lead_has_mean {
        let label = report::status_label(srv);
        if text::contains(report::str_member(srv, "error"@), "timeout"@) {
            Some(" timeout |"@)
        } else if label == "empty"@ || label == "no"@ {
            Some(" empty |"@)
        } else {
            Some(" crash |"@)
        }
    } else if srv_has_mean {
        Some(" base failed |"@)
    } else {
        Some(" both failed |"@)
    }
}

/// The comparison cell of `versus_label`.
pub fn versus_cell(srv: &JsonValue, lead_has_mean: bool, srv_has_mean: bool) -> (r: Option<String>)
    ensures
        text::opt_view(r) == versus_label(srv@, lead_has_mean, srv_has_mean),
{
    if lead_has_mean && srv_has_mean {
        None
    } else if lead_has_mean {
        let label = report::server_status_label(srv);
        let error = report::str_member_exec(srv, "error");
        if text::str_contains(error.as_str(), "timeout") {
            Some(" timeout |".to_owned())
        } else if json::str_eq(label.as_str(), "empty") || json::str_eq(label.as_str(), "no") {
            Some(" empty |".to_owned())
        } else {
            Some(" crash |".to_owned())
        }
    } else if srv_has_mean {
        Some(" base failed |".to_owned())
    } else {
        Some(" both failed |".to_owned())
    }
}

} // verus!
