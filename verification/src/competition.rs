//! The competition report: settings, servers, a summary table of p95
//! latencies with the fastest correct server marked, a scorecard of wins,
//! and per-method result tables.
//!
//! Latencies are floating-point milliseconds in the benchmark data; the
//! caller hands in, per benchmark and server, the latency text and whether
//! the latency is within 0.01 ms of the fastest correct one.
use vstd::prelude::*;
use crate::doc::{self, cat, cat_str, empty_line, join_lines, line_of, member, push_line, str_or_exec};
use crate::json::{self, JsonValue};
use crate::render;
use crate::report;
use crate::session;
use crate::summary;
use crate::text::{self, chars_of};

verus! {

// ---------------------------------------------------------------------------
// Specification
// ---------------------------------------------------------------------------

pub open spec fn flags_view(v: Seq<Vec<bool>>) -> Seq<Seq<bool>> {
    v.map_values(|r: Vec<bool>| r@)
}

/// Whether server `j` of benchmark `i` is marked fastest.
pub open spec fn flag_at(f: Seq<Seq<bool>>, i: int, j: int) -> bool {
    0 <= i < f.len() && 0 <= j < f[i].len() && f[i][j]
}

/// The latency text of server `j` of benchmark `i`.
pub open spec fn lat_at(l: Seq<Seq<Option<Seq<char>>>>, i: int, j: int) -> Option<Seq<char>> {
    session::cell_at(session::row_at(l, i), j)
}

/// The servers of a benchmark entry.
pub open spec fn servers_of(bench: json::Json) -> Option<Seq<json::Json>> {
    json::opt_array(bench.get("servers"@))
}

/// The name of a benchmark entry, "?" when missing.
pub open spec fn bench_name(bench: json::Json) -> Seq<char> {
    doc::str_or(bench.get("name"@), "?"@)
}

/// The lines before the results: title, settings and servers.
pub open spec fn comp_head(data: json::Json) -> Seq<Seq<char>> {
    let settings = data.get("settings"@);
    let project = doc::str_or(json::Json::opt_get(settings, "project"@), "unknown"@);
    let file = doc::str_or(json::Json::opt_get(settings, "file"@), "unknown"@);
    let n = |k: Seq<char>| text::dec(doc::u64_or_zero(json::Json::opt_get(settings, k)));
    seq!["# Solidity LSP Competition"@, Seq::empty()] + (if settings is Some {
        seq![
            "Benchmarked against `"@ + project + "` — `"@ + file + "`."@,
            Seq::empty(),
            "## Settings"@,
            Seq::empty(),
            "| Setting | Value |"@,
            "|---------|-------|"@,
            "| File | `"@ + file + "` |"@,
            "| Position | line "@ + n("line"@) + ", col "@ + n("col"@) + " |"@,
            "| Iterations | "@ + n("iterations"@) + " ("@ + n("warmup"@) + " warmup) |"@,
            "| Timeout | "@ + n("timeout_secs"@) + "s |"@,
            Seq::empty(),
        ]
    } else {
        Seq::empty()
    }) + match json::opt_array(data.get("servers"@)) {
        Some(ss) => seq!["## Servers"@, Seq::empty(), "| Server | Version |"@, "|--------|---------|"@]
            + server_rows(ss, ss.len() as int) + seq![Seq::empty()],
        None => Seq::empty(),
    }
}

/// The first `n` rows of the servers table.
pub open spec fn server_rows(ss: Seq<json::Json>, n: int) -> Seq<Seq<char>>
    decreases n,
{
    if n <= 0 || n > ss.len() {
        Seq::empty()
    } else {
        server_rows(ss, n - 1).push(
            "| "@ + doc::name_cell(ss[n - 1]) + " | `"@ + render::short_version_of(
                doc::str_or(ss[n - 1].get("version"@), "?"@),
            ) + "` |"@,
        )
    }
}

/// The summary cell of a server.
pub open spec fn summary_cell(name: Seq<char>, srv: json::Json, lat: Option<Seq<char>>, fastest: bool) -> Option<
    Seq<char>,
> {
    if doc::str_or(srv.get("status"@), Seq::empty()) == "ok"@ {
        Some(
            match lat {
                Some(t) => if report::correct(name, srv) && fastest {
                    " **"@ + t + "** |"@
                } else {
                    " "@ + t + " |"@
                },
                None => " - |"@,
            },
        )
    } else {
        match report::error_label(srv) {
            Some(l) => Some(" "@ + l + " |"@),
            None => None,
        }
    }
}

/// The cells of the first `n` servers of benchmark `i`.
pub open spec fn summary_cells(
    name: Seq<char>,
    ss: Seq<json::Json>,
    lat: Seq<Seq<Option<Seq<char>>>>,
    fast: Seq<Seq<bool>>,
    i: int,
    n: int,
) -> Option<Seq<char>>
    decreases n,
{
    if n <= 0 || n > ss.len() {
        Some(Seq::empty())
    } else {
        match (
            summary_cells(name, ss, lat, fast, i, n - 1),
            summary_cell(name, ss[n - 1], lat_at(lat, i, n - 1), flag_at(fast, i, n - 1)),
        ) {
            (Some(a), Some(b)) => Some(a + b),
            _ => None,
        }
    }
}

/// The summary rows of the first `n` benchmarks (those with servers).
pub open spec fn summary_rows(
    bs: Seq<json::Json>,
    lat: Seq<Seq<Option<Seq<char>>>>,
    fast: Seq<Seq<bool>>,
    n: int,
) -> Option<Seq<Seq<char>>>
    decreases n,
{
    if n <= 0 || n > bs.len() {
        Some(Seq::empty())
    } else {
        let b = bs[n - 1];
        let name = bench_name(b);
        match summary_rows(bs, lat, fast, n - 1) {
            None => None,
            Some(prev) => match servers_of(b) {
                None => Some(prev),
                Some(ss) => match summary_cells(name, ss, lat, fast, n - 1, ss.len() as int) {
                    Some(cells) => Some(
                        prev.push(
                            "| ["@ + name + "](#"@ + render::slug_of(text::spec_to_lowercase(name))
                                + ") |"@ + cells,
                        ),
                    ),
                    None => None,
                },
            },
        }
    }
}

/// One more win for `name`: counted where it is listed, else listed last.
pub open spec fn add_win(t: Seq<(Seq<char>, nat)>, name: Seq<char>) -> Seq<(Seq<char>, nat)>
    decreases t.len(),
{
    if t.len() == 0 {
        seq![(name, 1nat)]
    } else if t[0].0 == name {
        t.update(0, (name, t[0].1 + 1))
    } else {
        seq![t[0]] + add_win(t.drop_first(), name)
    }
}

/// The wins among the first `n` servers of benchmark `i`: a correct server
/// marked fastest wins.
pub open spec fn bench_wins(
    t: Seq<(Seq<char>, nat)>,
    name: Seq<char>,
    ss: Seq<json::Json>,
    fast: Seq<Seq<bool>>,
    i: int,
    n: int,
) -> Seq<(Seq<char>, nat)>
    decreases n,
{
    if n <= 0 || n > ss.len() {
        t
    } else {
        let prev = bench_wins(t, name, ss, fast, i, n - 1);
        if flag_at(fast, i, n - 1) && report::correct(name, ss[n - 1]) {
            add_win(prev, doc::str_or(ss[n - 1].get("server"@), "?"@))
        } else {
            prev
        }
    }
}

/// The wins over the first `n` benchmarks, each server listed from its
/// first win.
pub open spec fn wins(bs: Seq<json::Json>, fast: Seq<Seq<bool>>, n: int) -> Seq<(Seq<char>, nat)>
    decreases n,
{
    if n <= 0 || n > bs.len() {
        Seq::empty()
    } else {
        let prev = wins(bs, fast, n - 1);
        match servers_of(bs[n - 1]) {
            Some(ss) => bench_wins(prev, bench_name(bs[n - 1]), ss, fast, n - 1, ss.len() as int),
            None => prev,
        }
    }
}

/// `x` placed after every entry with at least as many wins.
pub open spec fn insert_by_wins(s: Seq<(Seq<char>, nat)>, x: (Seq<char>, nat)) -> Seq<(Seq<char>, nat)>
    decreases s.len(),
{
    if s.len() == 0 || s.last().1 >= x.1 {
        s.push(x)
    } else {
        insert_by_wins(s.drop_last(), x).push(s.last())
    }
}

/// Entries stably sorted by descending wins.
pub open spec fn sort_by_wins(s: Seq<(Seq<char>, nat)>) -> Seq<(Seq<char>, nat)>
    decreases s.len(),
{
    if s.len() == 0 {
        Seq::empty()
    } else {
        insert_by_wins(sort_by_wins(s.drop_last()), s.last())
    }
}

/// The scorecard rows: the leaders (as many wins as the first) in bold.
pub open spec fn score_rows(rows: Seq<(Seq<char>, nat)>, total: nat, n: int) -> Seq<Seq<char>>
    decreases n,
{
    if n <= 0 || n > rows.len() {
        Seq::empty()
    } else {
        let (name, c) = rows[n - 1];
        score_rows(rows, total, n - 1).push(
            if c == rows[0].1 {
                "| **"@ + name + "** | **"@ + text::dec(c) + "** | **"@ + text::dec(total) + "** |"@
            } else {
                "| "@ + name + " | "@ + text::dec(c) + " | "@ + text::dec(total) + " |"@
            },
        )
    }
}

/// The smallest positive memory of the correct servers among the first `n`,
/// `u64::MAX` when there is none.
pub open spec fn best_rss(name: Seq<char>, ss: Seq<json::Json>, n: int) -> nat
    decreases n,
{
    if n <= 0 || n > ss.len() {
        0xffff_ffff_ffff_ffff
    } else {
        let prev = best_rss(name, ss, n - 1);
        let s = ss[n - 1];
        if doc::str_or(s.get("status"@), Seq::empty()) == "ok"@ && report::correct(name, s) {
            match session::rss_of(s) {
                Some(kb) => if (kb as nat) < prev {
                    kb as nat
                } else {
                    prev
                },
                None => prev,
            }
        } else {
            prev
        }
    }
}

/// Whether a server responded with a correct result: ✓, else ✗.
pub open spec fn responded_mark(name: Seq<char>, srv: json::Json) -> Seq<char> {
    if report::correct(name, srv) {
        "\u{2713}"@
    } else {
        "\u{2717}"@
    }
}

/// The result row of a server.
pub open spec fn result_row(
    name: Seq<char>,
    srv: json::Json,
    lat: Option<Seq<char>>,
    fastest: bool,
    best: nat,
) -> Option<Seq<char>> {
    let sname = doc::str_or(srv.get("server"@), "?"@);
    if doc::str_or(srv.get("status"@), Seq::empty()) == "ok"@ {
        let p95 = match lat {
            Some(t) => if fastest {
                t + " \u{26a1}"@
            } else {
                t
            },
            None => "-"@,
        };
        let rss = match json::opt_u64(srv.get("rss_kb"@)) {
            Some(kb) => if kb as nat == best {
                "**"@ + render::memory_text(kb as nat) + "**"@
            } else {
                render::memory_text(kb as nat)
            },
            None => "-"@,
        };
        match summary::human_summary(name, srv) {
            Some(res) => Some(
                "| **"@ + sname + "** | "@ + p95 + " | "@ + rss + " | "@ + res + " | "@ + responded_mark(name, srv)
                    + " |"@,
            ),
            None => None,
        }
    } else {
        let rss = match session::rss_of(srv) {
            Some(kb) => render::memory_text(kb as nat),
            None => "-"@,
        };
        match report::error_label(srv) {
            Some(res) => Some(
                "| **"@ + sname + "** | - | "@ + rss + " | "@ + res + " | "@ + responded_mark(name, srv) + " |"@,
            ),
            None => None,
        }
    }
}

pub open spec fn result_rows(
    name: Seq<char>,
    ss: Seq<json::Json>,
    lat: Seq<Seq<Option<Seq<char>>>>,
    fast: Seq<Seq<bool>>,
    i: int,
    n: int,
) -> Option<Seq<Seq<char>>>
    decreases n,
{
    if n <= 0 || n > ss.len() {
        Some(Seq::empty())
    } else {
        match (
            result_rows(name, ss, lat, fast, i, n - 1),
            result_row(name, ss[n - 1], lat_at(lat, i, n - 1), flag_at(fast, i, n - 1), best_rss(name, ss, ss.len() as int)),
        ) {
            (Some(a), Some(b)) => Some(a.push(b)),
            _ => None,
        }
    }
}

/// The result sections of the first `n` benchmarks (those with servers).
pub open spec fn result_sections(
    bs: Seq<json::Json>,
    lat: Seq<Seq<Option<Seq<char>>>>,
    fast: Seq<Seq<bool>>,
    n: int,
) -> Option<Seq<Seq<char>>>
    decreases n,
{
    if n <= 0 || n > bs.len() {
        Some(Seq::empty())
    } else {
        let b = bs[n - 1];
        let name = bench_name(b);
        match result_sections(bs, lat, fast, n - 1) {
            None => None,
            Some(prev) => match servers_of(b) {
                None => Some(prev),
                Some(ss) => match result_rows(name, ss, lat, fast, n - 1, ss.len() as int) {
                    Some(rows) => Some(
                        prev + seq![
                            "### "@ + name,
                            Seq::empty(),
                            "| Server | p95 | RSS | Result | Responded |"@,
                            "|--------|-----|-----|--------|-----------|"@,
                        ] + rows + seq![Seq::empty()],
                    ),
                    None => None,
                },
            },
        }
    }
}

/// The competition report (`None` where a text would be cut inside a
/// character, which the string slicing cannot do).
pub open spec fn competition(
    data: json::Json,
    lat: Seq<Seq<Option<Seq<char>>>>,
    fast: Seq<Seq<bool>>,
) -> Option<Seq<char>> {
    let head = comp_head(data);
    match json::opt_array(data.get("benchmarks"@)) {
        None => Some(text::join(head, "\n"@)),
        Some(bs) => if bs.len() == 0 {
            Some(text::join(head, "\n"@))
        } else {
            let names = match servers_of(bs[0]) {
                Some(ss) => report::server_names_of(ss),
                None => Seq::empty(),
            };
            let score = sort_by_wins(wins(bs, fast, bs.len() as int));
            match (summary_rows(bs, lat, fast, bs.len() as int), result_sections(bs, lat, fast, bs.len() as int)) {
                (Some(srows), Some(res)) => Some(
                    text::join(
                        head + seq![
                            "---"@,
                            Seq::empty(),
                            "## Summary"@,
                            Seq::empty(),
                            doc::names_header("| Method |"@, names),
                            doc::names_sep("|--------|"@, names),
                        ] + srows + seq![
                            Seq::empty(),
                            "### Scorecard"@,
                            Seq::empty(),
                            "| Server | Wins | Out of |"@,
                            "|--------|------|--------|"@,
                        ] + score_rows(score, bs.len(), score.len() as int) + seq![
                            Seq::empty(),
                            "---"@,
                            Seq::empty(),
                            "## Results"@,
                            Seq::empty(),
                        ] + res + seq!["---"@, Seq::empty()] + match json::opt_str(data.get("timestamp"@)) {
                            Some(ts) => seq!["*Benchmark run: "@ + ts + "*"@, Seq::empty()],
                            None => Seq::empty(),
                        },
                        "\n"@,
                    ),
                ),
                _ => None,
            }
        },
    }
}

// ---------------------------------------------------------------------------
// Implementation
// ---------------------------------------------------------------------------

fn lat_exec(lat: &Vec<Vec<Option<String>>>, i: usize, j: usize) -> (r: Option<Vec<char>>)
    ensures
        session::opt_chars(r) == lat_at(session::rows_view(lat@), i as int, j as int),
{
    if i < lat.len() && j < lat[i].len() {
        match &lat[i][j] {
            Some(t) => Some(chars_of(t.as_str())),
            None => None,
        }
    } else {
        None
    }
}

fn flag_exec(fast: &Vec<Vec<bool>>, i: usize, j: usize) -> (r: bool)
    ensures
        r == flag_at(flags_view(fast@), i as int, j as int),
{
    i < fast.len() && j < fast[i].len() && fast[i][j]
}

fn is_ok_status(srv: &JsonValue) -> (r: bool)
    ensures
        r == (doc::str_or(srv@.get("status"@), Seq::empty()) == "ok"@),
{
    let st = str_or_exec(srv.get("status"), "");
    proof {
        reveal_strlit("");
        reveal_strlit("ok");
        assert(""@ =~= Seq::<char>::empty());
    }
    let ok: Vec<char> = vec!['o', 'k'];
    assert(ok@ =~= "ok"@);
    let r = st.len() == 2 && text::starts_with_exec(st.as_slice(), ok.as_slice());
    proof {
        if r {
            assert(st@ =~= "ok"@);
        }
        if st@ == "ok"@ {
            assert(st@.subrange(0, 2) =~= ok@);
        }
    }
    r
}

fn settings_exec(settings: Option<&JsonValue>, lines: &mut Vec<Vec<char>>)
    requires
        settings is Some,
    ensures
        ({
            let st = match settings {
                Some(x) => Some(x@),
                None => None,
            };
            let project = doc::str_or(json::Json::opt_get(st, "project"@), "unknown"@);
            let file = doc::str_or(json::Json::opt_get(st, "file"@), "unknown"@);
            let n = |k: Seq<char>| text::dec(doc::u64_or_zero(json::Json::opt_get(st, k)));
            doc::lines_view(final(lines)@) == doc::lines_view(old(lines)@) + seq![
                "Benchmarked against `"@ + project + "` — `"@ + file + "`."@,
                Seq::empty(),
                "## Settings"@,
                Seq::empty(),
                "| Setting | Value |"@,
                "|---------|-------|"@,
                "| File | `"@ + file + "` |"@,
                "| Position | line "@ + n("line"@) + ", col "@ + n("col"@) + " |"@,
                "| Iterations | "@ + n("iterations"@) + " ("@ + n("warmup"@) + " warmup) |"@,
                "| Timeout | "@ + n("timeout_secs"@) + "s |"@,
                Seq::empty(),
            ]
        }),
{
    let ghost start = doc::lines_view(lines@);
    let project = str_or_exec(member(settings, "project"), "unknown");
    let file = str_or_exec(member(settings, "file"), "unknown");
    push_line(lines, cat_str(cat(cat_str(cat(line_of("Benchmarked against `"), project.as_slice()), "` — `"), file.as_slice()), "`."));
    push_line(lines, empty_line());
    push_line(lines, line_of("## Settings"));
    push_line(lines, empty_line());
    push_line(lines, line_of("| Setting | Value |"));
    push_line(lines, line_of("|---------|-------|"));
    push_line(lines, cat_str(cat(line_of("| File | `"), file.as_slice()), "` |"));
    let mut l = line_of("| Position | line ");
    doc::push_u64(&mut l, doc::u64_or_zero_exec(member(settings, "line")));
    l = cat_str(l, ", col ");
    doc::push_u64(&mut l, doc::u64_or_zero_exec(member(settings, "col")));
    push_line(lines, cat_str(l, " |"));
    let mut l = line_of("| Iterations | ");
    doc::push_u64(&mut l, doc::u64_or_zero_exec(member(settings, "iterations")));
    l = cat_str(l, " (");
    doc::push_u64(&mut l, doc::u64_or_zero_exec(member(settings, "warmup")));
    push_line(lines, cat_str(l, " warmup) |"));
    let mut l = line_of("| Timeout | ");
    doc::push_u64(&mut l, doc::u64_or_zero_exec(member(settings, "timeout_secs")));
    push_line(lines, cat_str(l, "s |"));
    push_line(lines, empty_line());
    proof {
        reveal_strlit("");
        assert(""@ =~= Seq::<char>::empty());
    }
    let ghost st = match settings {
        Some(x) => Some(x@),
        None => None,
    };
    assert(doc::lines_view(lines@) =~= start + seq![
        "Benchmarked against `"@ + project@ + "` — `"@ + file@ + "`."@,
        Seq::empty(),
        "## Settings"@,
        Seq::empty(),
        "| Setting | Value |"@,
        "|---------|-------|"@,
        "| File | `"@ + file@ + "` |"@,
        "| Position | line "@ + text::dec(doc::u64_or_zero(json::Json::opt_get(st, "line"@))) + ", col "@
            + text::dec(doc::u64_or_zero(json::Json::opt_get(st, "col"@))) + " |"@,
        "| Iterations | "@ + text::dec(doc::u64_or_zero(json::Json::opt_get(st, "iterations"@))) + " ("@
            + text::dec(doc::u64_or_zero(json::Json::opt_get(st, "warmup"@))) + " warmup) |"@,
        "| Timeout | "@ + text::dec(doc::u64_or_zero(json::Json::opt_get(st, "timeout_secs"@))) + "s |"@,
        Seq::empty(),
    ]);
}

fn server_table_exec(ss: &Vec<JsonValue>, lines: &mut Vec<Vec<char>>)
    ensures
        doc::lines_view(final(lines)@) == doc::lines_view(old(lines)@) + seq![
            "## Servers"@,
            Seq::empty(),
            "| Server | Version |"@,
            "|--------|---------|"@,
        ] + server_rows(ss@.map_values(|x: JsonValue| x@), ss@.len() as int) + seq![Seq::empty()],
{
    let ghost start = doc::lines_view(lines@);
    push_line(lines, line_of("## Servers"));
    push_line(lines, empty_line());
    push_line(lines, line_of("| Server | Version |"));
    push_line(lines, line_of("|--------|---------|"));
    let ghost sv = ss@.map_values(|x: JsonValue| x@);
    let ghost before_rows = doc::lines_view(lines@);
    let mut i: usize = 0;
    assert(doc::lines_view(lines@) =~= before_rows + server_rows(sv, 0));
    while i < ss.len()
        invariant
            i <= ss@.len(),
            sv == ss@.map_values(|x: JsonValue| x@),
            doc::lines_view(lines@) == before_rows + server_rows(sv, i as int),
        decreases ss.len() - i,
    {
        assert(sv[i as int] == ss@[i as int]@);
        let version = str_or_exec(ss[i].get("version"), "?");
        let vs = text::string_of(version.as_slice());
        let sh = render::short_version(vs.as_str());
        let cell = doc::name_cell_exec(&ss[i]);
        let l = cat(line_of("| "), cell.as_slice());
        let l = cat_str(cat_str(cat_str(l, " | `"), sh.as_str()), "` |");
        let ghost prev = doc::lines_view(lines@);
        push_line(lines, l);
        i += 1;
        assert(server_rows(sv, i as int) == server_rows(sv, i - 1).push(l@));
        assert(doc::lines_view(lines@) =~= before_rows + server_rows(sv, i as int));
    }
    push_line(lines, empty_line());
    assert(doc::lines_view(lines@) =~= start + seq![
        "## Servers"@,
        Seq::empty(),
        "| Server | Version |"@,
        "|--------|---------|"@,
    ] + server_rows(sv, sv.len() as int) + seq![Seq::empty()]);
}

fn head_exec(data: &JsonValue, lines: &mut Vec<Vec<char>>)
    ensures
        doc::lines_view(final(lines)@) == doc::lines_view(old(lines)@) + comp_head(data@),
{
    let ghost start = doc::lines_view(lines@);
    push_line(lines, line_of("# Solidity LSP Competition"));
    push_line(lines, empty_line());
    let ghost a = doc::lines_view(lines@);
    let settings = data.get("settings");
    if settings.is_some() {
        settings_exec(settings, lines);
    }
    let ghost b = doc::lines_view(lines@);
    let servers = match data.get("servers") {
        Some(x) => x.as_array(),
        None => None,
    };
    match servers {
        Some(ss) => server_table_exec(ss, lines),
        None => {},
    }
    assert(doc::lines_view(lines@) =~= start + comp_head(data@));
}

fn summary_cell_exec(name: &str, srv: &JsonValue, lat: Option<Vec<char>>, fastest: bool) -> (r: Option<Vec<char>>)
    ensures
        session::opt_chars(r) == summary_cell(name@, srv@, session::opt_chars(lat), fastest),
{
    if is_ok_status(srv) {
        match lat {
            Some(t) => {
                let l = cat(line_of(" "), t.as_slice());
                if report::is_correct(name, srv) && fastest {
                    Some(cat_str(cat(line_of(" **"), t.as_slice()), "** |"))
                } else {
                    Some(cat_str(l, " |"))
                }
            },
            None => Some(line_of(" - |")),
        }
    } else {
        match report::error_label_opt(srv) {
            Some(l) => Some(cat_str(cat_str(line_of(" "), l.as_str()), " |")),
            None => None,
        }
    }
}

proof fn lemma_cells_none(
    name: Seq<char>,
    ss: Seq<json::Json>,
    lat: Seq<Seq<Option<Seq<char>>>>,
    fast: Seq<Seq<bool>>,
    i: int,
    n: int,
    m: int,
)
    requires
        1 <= n <= m <= ss.len(),
        summary_cells(name, ss, lat, fast, i, n) is None,
    ensures
        summary_cells(name, ss, lat, fast, i, m) is None,
    decreases m - n,
{
    if n < m {
        lemma_cells_none(name, ss, lat, fast, i, n, m - 1);
    }
}

fn summary_cells_exec(
    name: &str,
    ss: &Vec<JsonValue>,
    lat: &Vec<Vec<Option<String>>>,
    fast: &Vec<Vec<bool>>,
    i: usize,
) -> (r: Option<Vec<char>>)
    ensures
        session::opt_chars(r) == summary_cells(
            name@,
            ss@.map_values(|x: JsonValue| x@),
            session::rows_view(lat@),
            flags_view(fast@),
            i as int,
            ss@.len() as int,
        ),
{
    let ghost sv = ss@.map_values(|x: JsonValue| x@);
    let ghost lv = session::rows_view(lat@);
    let ghost fv = flags_view(fast@);
    let mut out: Vec<char> = Vec::new();
    let mut j: usize = 0;
    while j < ss.len()
        invariant
            j <= ss@.len(),
            sv == ss@.map_values(|x: JsonValue| x@),
            lv == session::rows_view(lat@),
            fv == flags_view(fast@),
            summary_cells(name@, sv, lv, fv, i as int, j as int) == Some(out@),
        decreases ss.len() - j,
    {
        assert(sv[j as int] == ss@[j as int]@);
        match summary_cell_exec(name, &ss[j], lat_exec(lat, i, j), flag_exec(fast, i, j)) {
            Some(c) => {
                out = cat(out, c.as_slice());
            },
            None => {
                proof {
                    lemma_cells_none(name@, sv, lv, fv, i as int, j as int + 1, sv.len() as int);
                }
                return None;
            },
        }
        j += 1;
    }
    Some(out)
}

fn bench_name_exec(b: &JsonValue) -> (r: String)
    ensures
        r@ == bench_name(b@),
{
    let n = str_or_exec(b.get("name"), "?");
    text::string_of(n.as_slice())
}

fn servers_exec(b: &JsonValue) -> (r: Option<&Vec<JsonValue>>)
    ensures
        match r {
            Some(ss) => servers_of(b@) == Some(ss@.map_values(|x: JsonValue| x@)),
            None => servers_of(b@) is None,
        },
{
    match b.get("servers") {
        Some(x) => x.as_array(),
        None => None,
    }
}

proof fn lemma_summary_rows_none(
    bs: Seq<json::Json>,
    lat: Seq<Seq<Option<Seq<char>>>>,
    fast: Seq<Seq<bool>>,
    n: int,
    m: int,
)
    requires
        1 <= n <= m <= bs.len(),
        summary_rows(bs, lat, fast, n) is None,
    ensures
        summary_rows(bs, lat, fast, m) is None,
    decreases m - n,
{
    if n < m {
        lemma_summary_rows_none(bs, lat, fast, n, m - 1);
    }
}

fn summary_rows_exec(
    bs: &Vec<JsonValue>,
    lat: &Vec<Vec<Option<String>>>,
    fast: &Vec<Vec<bool>>,
    lines: &mut Vec<Vec<char>>,
) -> (ok: bool)
    ensures
        ok == (summary_rows(
            bs@.map_values(|x: JsonValue| x@),
            session::rows_view(lat@),
            flags_view(fast@),
            bs@.len() as int,
        ) is Some),
        ok ==> doc::lines_view(final(lines)@) == doc::lines_view(old(lines)@) + summary_rows(
            bs@.map_values(|x: JsonValue| x@),
            session::rows_view(lat@),
            flags_view(fast@),
            bs@.len() as int,
        )->0,
{
    let ghost sb = bs@.map_values(|x: JsonValue| x@);
    let ghost lv = session::rows_view(lat@);
    let ghost fv = flags_view(fast@);
    let ghost start = doc::lines_view(lines@);
    let mut i: usize = 0;
    assert(doc::lines_view(lines@) =~= start + Seq::<Seq<char>>::empty());
    while i < bs.len()
        invariant
            i <= bs@.len(),
            sb == bs@.map_values(|x: JsonValue| x@),
            lv == session::rows_view(lat@),
            fv == flags_view(fast@),
            start == doc::lines_view(old(lines)@),
            summary_rows(sb, lv, fv, i as int) is Some,
            doc::lines_view(lines@) == start + summary_rows(sb, lv, fv, i as int)->0,
        decreases bs.len() - i,
    {
        assert(sb[i as int] == bs@[i as int]@);
        let ghost prev = summary_rows(sb, lv, fv, i as int)->0;
        let name = bench_name_exec(&bs[i]);
        match servers_exec(&bs[i]) {
            None => {},
            Some(ss) => {
                match summary_cells_exec(name.as_str(), ss, lat, fast, i) {
                    Some(cells) => {
                        let lower = text::to_lowercase(name.as_str());
                        let sl = render::slug(name.as_str());
                        let l = cat_str(cat_str(cat_str(cat_str(line_of("| ["), name.as_str()), "](#"), sl.as_str()), ") |");
                        push_line(lines, cat(l, cells.as_slice()));
                        assert(doc::lines_view(lines@) =~= start + summary_rows(sb, lv, fv, i + 1)->0);
                    },
                    None => {
                        proof {
                            lemma_summary_rows_none(sb, lv, fv, i as int + 1, sb.len() as int);
                        }
                        return false;
                    },
                }
            },
        }
        i += 1;
    }
    true
}

proof fn lemma_add_win(t: Seq<(Seq<char>, nat)>, name: Seq<char>, k: int)
    requires
        0 <= k <= t.len(),
        forall|m: int| 0 <= m < k ==> t[m].0 != name,
        k == t.len() || t[k].0 == name,
    ensures
        add_win(t, name) == if k < t.len() {
            t.update(k, (name, t[k].1 + 1))
        } else {
            t.push((name, 1nat))
        },
    decreases k,
{
    if k > 0 {
        let d = t.drop_first();
        assert forall|m: int| 0 <= m < k - 1 implies d[m].0 != name by {
            assert(d[m] == t[m + 1]);
        }
        if k < t.len() {
            assert(d[k - 1] == t[k]);
        }
        lemma_add_win(d, name, k - 1);
        if k < t.len() {
            assert(seq![t[0]] + d.update(k - 1, (name, d[k - 1].1 + 1)) =~= t.update(k, (name, t[k].1 + 1)));
        } else {
            assert(seq![t[0]] + d.push((name, 1nat)) =~= t.push((name, 1nat)));
        }
    } else if t.len() == 0 {
        assert(seq![(name, 1nat)] =~= t.push((name, 1nat)));
    }
}

pub open spec fn tally_view(t: Seq<(Vec<char>, u128)>) -> Seq<(Seq<char>, nat)> {
    t.map_values(|p: (Vec<char>, u128)| (p.0@, p.1 as nat))
}

pub(crate) fn add_win_exec(t: &mut Vec<(Vec<char>, u128)>, name: Vec<char>, bound: u128)
    requires
        1 <= bound,
        forall|m: int| 0 <= m < old(t)@.len() ==> (#[trigger] old(t)@[m]).1 < bound,
        bound < 0xffff_ffff_ffff_ffff_ffff_ffff_ffff_ffff,
    ensures
        tally_view(final(t)@) == add_win(tally_view(old(t)@), name@),
        forall|m: int| 0 <= m < final(t)@.len() ==> (#[trigger] final(t)@[m]).1 <= bound,
{
    let ghost tv = tally_view(t@);
    let mut k: usize = 0;
    while k < t.len()
        invariant
            k <= t@.len(),
            t@ == old(t)@,
            tv == tally_view(old(t)@),
            forall|m: int| 0 <= m < old(t)@.len() ==> (#[trigger] old(t)@[m]).1 < bound,
            bound < 0xffff_ffff_ffff_ffff_ffff_ffff_ffff_ffff,
            1 <= bound,
            forall|m: int| 0 <= m < k ==> tv[m].0 != name@,
        decreases t.len() - k,
    {
        if t[k].0.len() == name.len() && text::starts_with_exec(t[k].0.as_slice(), name.as_slice()) {
            proof {
                assert(t@[k as int].0@ =~= name@);
                lemma_add_win(tv, name@, k as int);
            }
            let c = t[k].1;
            assert(c == old(t)@[k as int].1);
            let ghost nv = name@;
            t.set(k, (name, c + 1));
            assert(tally_view(t@) =~= tv.update(k as int, (nv, tv[k as int].1 + 1)));
            assert forall|m: int| 0 <= m < t@.len() implies (#[trigger] t@[m]).1 <= bound by {
                if m != k {
                    assert(t@[m] == old(t)@[m]);
                }
            }
            return;
        }
        proof {
            if tv[k as int].0 == name@ {
                assert(t@[k as int].0@.subrange(0, name@.len() as int) =~= name@);
            }
        }
        k += 1;
    }
    proof {
        lemma_add_win(tv, name@, k as int);
    }
    let ghost nv = name@;
    t.push((name, 1));
    assert(tally_view(t@) =~= tv.push((nv, 1nat)));
    assert forall|m: int| 0 <= m < t@.len() implies (#[trigger] t@[m]).1 <= bound by {
        if m < old(t)@.len() {
            assert(t@[m] == old(t)@[m]);
        }
    }
}

fn wins_exec(bs: &Vec<JsonValue>, fast: &Vec<Vec<bool>>) -> (r: Vec<(Vec<char>, u128)>)
    ensures
        tally_view(r@) == wins(bs@.map_values(|x: JsonValue| x@), flags_view(fast@), bs@.len() as int),
{
    let ghost sb = bs@.map_values(|x: JsonValue| x@);
    let ghost fv = flags_view(fast@);
    let mut t: Vec<(Vec<char>, u128)> = Vec::new();
    let mut steps: u128 = 0;
    let mut i: usize = 0;
    let nb = bs.len();
    assert(tally_view(t@) =~= Seq::<(Seq<char>, nat)>::empty());
    while i < bs.len()
        invariant
            i <= bs@.len(),
            nb == bs@.len(),
            sb == bs@.map_values(|x: JsonValue| x@),
            fv == flags_view(fast@),
            tally_view(t@) == wins(sb, fv, i as int),
            steps <= i * 0x1_0000_0000_0000_0000,
            forall|m: int| 0 <= m < t@.len() ==> (#[trigger] t@[m]).1 <= steps,
        decreases bs.len() - i,
    {
        assert(sb[i as int] == bs@[i as int]@);
        let name = bench_name_exec(&bs[i]);
        match servers_exec(&bs[i]) {
            None => {},
            Some(ss) => {
                let ghost sv = ss@.map_values(|x: JsonValue| x@);
                let ghost base = tally_view(t@);
                let ghost steps0 = steps;
                let mut j: usize = 0;
                while j < ss.len()
                    invariant
                        j <= ss@.len(),
                        sv == ss@.map_values(|x: JsonValue| x@),
                        fv == flags_view(fast@),
                        name@ == bench_name(sb[i as int]),
                        i < bs@.len(),
                        nb == bs@.len(),
                        tally_view(t@) == bench_wins(base, name@, sv, fv, i as int, j as int),
                        steps == steps0 + j,
                        steps0 <= i * 0x1_0000_0000_0000_0000,
                        forall|m: int| 0 <= m < t@.len() ==> (#[trigger] t@[m]).1 <= steps,
                    decreases ss.len() - j,
                {
                    assert(sv[j as int] == ss@[j as int]@);
                    if flag_exec(fast, i, j) && report::is_correct(name.as_str(), &ss[j]) {
                        let who = str_or_exec(ss[j].get("server"), "?");
                        add_win_exec(&mut t, who, steps + 1);
                    }
                    steps = steps + 1;
                    j += 1;
                    assert forall|m: int| 0 <= m < t@.len() implies (#[trigger] t@[m]).1 <= steps by {
                    }
                }
                assert(ss@.len() <= usize::MAX);
            },
        }
        i += 1;
    }
    t
}

proof fn lemma_insert_by_wins(s: Seq<(Seq<char>, nat)>, x: (Seq<char>, nat), p: int)
    requires
        0 <= p <= s.len(),
        forall|m: int| p <= m < s.len() ==> (#[trigger] s[m]).1 < x.1,
        p == 0 || s[p - 1].1 >= x.1,
    ensures
        insert_by_wins(s, x) == s.subrange(0, p).push(x) + s.subrange(p, s.len() as int),
    decreases s.len(),
{
    if s.len() == 0 || p == s.len() {
        assert(s.subrange(0, p).push(x) + s.subrange(p, s.len() as int) =~= s.push(x));
    } else {
        assert(s[s.len() - 1].1 < x.1);
        let t = s.drop_last();
        assert forall|m: int| p <= m < t.len() implies (#[trigger] t[m]).1 < x.1 by {
            assert(t[m] == s[m]);
        }
        if p > 0 {
            assert(t[p - 1] == s[p - 1]);
        }
        lemma_insert_by_wins(t, x, p);
        assert(t.subrange(0, p) =~= s.subrange(0, p));
        assert((t.subrange(0, p).push(x) + t.subrange(p, t.len() as int)).push(s.last())
            =~= s.subrange(0, p).push(x) + s.subrange(p, s.len() as int));
    }
}

fn sort_by_wins_exec(t: Vec<(Vec<char>, u128)>) -> (r: Vec<(Vec<char>, u128)>)
    ensures
        tally_view(r@) == sort_by_wins(tally_view(t@)),
{
    let ghost tv = tally_view(t@);
    let mut out: Vec<(Vec<char>, u128)> = Vec::new();
    let mut src = t;
    let ghost orig = src@;
    let mut i: usize = 0;
    assert(tv.subrange(0, 0) =~= Seq::<(Seq<char>, nat)>::empty());
    assert(tally_view(out@) =~= Seq::<(Seq<char>, nat)>::empty());
    let n = src.len();
    while i < n
        invariant
            i <= n == orig.len(),
            src@ == orig,
            tv == tally_view(orig),
            tally_view(out@) == sort_by_wins(tv.subrange(0, i as int)),
        decreases n - i,
    {
        let x = (text::slice_of(src[i].0.as_slice(), 0, src[i].0.len()), src[i].1);
        assert(x.0@ =~= orig[i as int].0@);
        let ghost sv = tally_view(out@);
        let ghost xv = (x.0@, x.1 as nat);
        let mut k: usize = out.len();
        while k > 0 && out[k - 1].1 < x.1
            invariant
                k <= out@.len(),
                sv == tally_view(out@),
                xv == (x.0@, x.1 as nat),
                forall|m: int| k <= m < sv.len() ==> (#[trigger] sv[m]).1 < xv.1,
            decreases k,
        {
            k -= 1;
        }
        proof {
            lemma_insert_by_wins(sv, xv, k as int);
            assert(tv.subrange(0, i + 1).drop_last() =~= tv.subrange(0, i as int));
            assert(tv.subrange(0, i + 1).last() == xv);
        }
        out.insert(k, x);
        assert(tally_view(out@) =~= sv.subrange(0, k as int).push(xv) + sv.subrange(k as int, sv.len() as int));
        i += 1;
    }
    assert(tv.subrange(0, n as int) =~= tv);
    out
}

fn push_u128(out: &mut Vec<char>, n: u128)
    ensures
        final(out)@ == old(out)@ + text::dec(n as nat),
{
    let d = text::dec_u128(n);
    text::extend(out, d.as_slice());
}

fn score_rows_exec(rows: &Vec<(Vec<char>, u128)>, total: usize, lines: &mut Vec<Vec<char>>)
    ensures
        doc::lines_view(final(lines)@) == doc::lines_view(old(lines)@) + score_rows(
            tally_view(rows@),
            total as nat,
            rows@.len() as int,
        ),
{
    let ghost rv = tally_view(rows@);
    let ghost start = doc::lines_view(lines@);
    let mut i: usize = 0;
    assert(doc::lines_view(lines@) =~= start + score_rows(rv, total as nat, 0));
    while i < rows.len()
        invariant
            i <= rows@.len(),
            rv == tally_view(rows@),
            start == doc::lines_view(old(lines)@),
            doc::lines_view(lines@) == start + score_rows(rv, total as nat, i as int),
        decreases rows.len() - i,
    {
        let name = rows[i].0.as_slice();
        let c = rows[i].1;
        let lead = c == rows[0].1;
        let l = if lead {
            let mut l = cat(line_of("| **"), name);
            l = cat_str(l, "** | **");
            push_u128(&mut l, c);
            l = cat_str(l, "** | **");
            push_u128(&mut l, total as u128);
            cat_str(l, "** |")
        } else {
            let mut l = cat(line_of("| "), name);
            l = cat_str(l, " | ");
            push_u128(&mut l, c);
            l = cat_str(l, " | ");
            push_u128(&mut l, total as u128);
            cat_str(l, " |")
        };
        push_line(lines, l);
        i += 1;
        assert(doc::lines_view(lines@) =~= start + score_rows(rv, total as nat, i as int));
    }
}

fn best_rss_exec(name: &str, ss: &Vec<JsonValue>) -> (r: u64)
    ensures
        r == best_rss(name@, ss@.map_values(|x: JsonValue| x@), ss@.len() as int),
{
    let ghost sv = ss@.map_values(|x: JsonValue| x@);
    let mut best: u64 = 0xffff_ffff_ffff_ffff;
    let mut j: usize = 0;
    while j < ss.len()
        invariant
            j <= ss@.len(),
            sv == ss@.map_values(|x: JsonValue| x@),
            best == best_rss(name@, sv, j as int),
        decreases ss.len() - j,
    {
        assert(sv[j as int] == ss@[j as int]@);
        if is_ok_status(&ss[j]) && report::is_correct(name, &ss[j]) {
            match session_rss(&ss[j]) {
                Some(kb) => {
                    if kb < best {
                        best = kb;
                    }
                },
                None => {},
            }
        }
        j += 1;
    }
    best
}

fn session_rss(srv: &JsonValue) -> (r: Option<u64>)
    ensures
        r == session::rss_of(srv@),
{
    match srv.get("rss_kb") {
        Some(x) => match x.as_u64() {
            Some(kb) => if kb > 0 {
                Some(kb)
            } else {
                None
            },
            None => None,
        },
        None => None,
    }
}

fn memory_exec(kb: u64) -> (r: Vec<char>)
    ensures
        r@ == render::memory_text(kb as nat),
{
    let m = render::format_memory(kb);
    chars_of(m.as_str())
}

fn responded_mark_exec(name: &str, srv: &JsonValue) -> (r: Vec<char>)
    ensures
        r@ == responded_mark(name@, srv@),
{
    if report::is_correct(name, srv) {
        line_of("\u{2713}")
    } else {
        line_of("\u{2717}")
    }
}

fn result_row_exec(name: &str, srv: &JsonValue, lat: Option<Vec<char>>, fastest: bool, best: u64) -> (r: Option<Vec<char>>)
    ensures
        session::opt_chars(r) == result_row(name@, srv@, session::opt_chars(lat), fastest, best as nat),
{
    let sname = str_or_exec(srv.get("server"), "?");
    if is_ok_status(srv) {
        let p95 = match lat {
            Some(t) => if fastest {
                cat_str(t, " \u{26a1}")
            } else {
                t
            },
            None => line_of("-"),
        };
        let rss_kb = match srv.get("rss_kb") {
            Some(x) => x.as_u64(),
            None => None,
        };
        let rss = match rss_kb {
            Some(kb) => if kb == best {
                cat_str(cat(line_of("**"), memory_exec(kb).as_slice()), "**")
            } else {
                memory_exec(kb)
            },
            None => line_of("-"),
        };
        match summary::human_opt(name, srv) {
            Some(res) => {
                let l = cat_str(cat(line_of("| **"), sname.as_slice()), "** | ");
                let l = cat_str(cat(l, p95.as_slice()), " | ");
                let l = cat_str(cat(l, rss.as_slice()), " | ");
                let l = cat_str(cat_str(l, res.as_str()), " | ");
                Some(cat_str(cat(l, responded_mark_exec(name, srv).as_slice()), " |"))
            },
            None => None,
        }
    } else {
        let rss = match session_rss(srv) {
            Some(kb) => memory_exec(kb),
            None => line_of("-"),
        };
        match report::error_label_opt(srv) {
            Some(res) => {
                let l = cat_str(cat(line_of("| **"), sname.as_slice()), "** | - | ");
                let l = cat_str(cat(l, rss.as_slice()), " | ");
                let l = cat_str(cat_str(l, res.as_str()), " | ");
                Some(cat_str(cat(l, responded_mark_exec(name, srv).as_slice()), " |"))
            },
            None => None,
        }
    }
}

proof fn lemma_result_rows_none(
    name: Seq<char>,
    ss: Seq<json::Json>,
    lat: Seq<Seq<Option<Seq<char>>>>,
    fast: Seq<Seq<bool>>,
    i: int,
    n: int,
    m: int,
)
    requires
        1 <= n <= m <= ss.len(),
        result_rows(name, ss, lat, fast, i, n) is None,
    ensures
        result_rows(name, ss, lat, fast, i, m) is None,
    decreases m - n,
{
    if n < m {
        lemma_result_rows_none(name, ss, lat, fast, i, n, m - 1);
    }
}

fn result_rows_exec(
    name: &str,
    ss: &Vec<JsonValue>,
    lat: &Vec<Vec<Option<String>>>,
    fast: &Vec<Vec<bool>>,
    i: usize,
    lines: &mut Vec<Vec<char>>,
) -> (ok: bool)
    ensures
        ok == (result_rows(
            name@,
            ss@.map_values(|x: JsonValue| x@),
            session::rows_view(lat@),
            flags_view(fast@),
            i as int,
            ss@.len() as int,
        ) is Some),
        ok ==> doc::lines_view(final(lines)@) == doc::lines_view(old(lines)@) + result_rows(
            name@,
            ss@.map_values(|x: JsonValue| x@),
            session::rows_view(lat@),
            flags_view(fast@),
            i as int,
            ss@.len() as int,
        )->0,
{
    let ghost sv = ss@.map_values(|x: JsonValue| x@);
    let ghost lv = session::rows_view(lat@);
    let ghost fv = flags_view(fast@);
    let ghost start = doc::lines_view(lines@);
    let best = best_rss_exec(name, ss);
    let mut j: usize = 0;
    assert(doc::lines_view(lines@) =~= start + Seq::<Seq<char>>::empty());
    while j < ss.len()
        invariant
            j <= ss@.len(),
            sv == ss@.map_values(|x: JsonValue| x@),
            lv == session::rows_view(lat@),
            fv == flags_view(fast@),
            best == best_rss(name@, sv, sv.len() as int),
            start == doc::lines_view(old(lines)@),
            result_rows(name@, sv, lv, fv, i as int, j as int) is Some,
            doc::lines_view(lines@) == start + result_rows(name@, sv, lv, fv, i as int, j as int)->0,
        decreases ss.len() - j,
    {
        assert(sv[j as int] == ss@[j as int]@);
        let ghost prev = result_rows(name@, sv, lv, fv, i as int, j as int)->0;
        match result_row_exec(name, &ss[j], lat_exec(lat, i, j), flag_exec(fast, i, j), best) {
            Some(l) => {
                push_line(lines, l);
                assert(doc::lines_view(lines@) =~= start + result_rows(name@, sv, lv, fv, i as int, j + 1)->0);
            },
            None => {
                proof {
                    lemma_result_rows_none(name@, sv, lv, fv, i as int, j as int + 1, sv.len() as int);
                }
                return false;
            },
        }
        j += 1;
    }
    true
}

proof fn lemma_sections_none(
    bs: Seq<json::Json>,
    lat: Seq<Seq<Option<Seq<char>>>>,
    fast: Seq<Seq<bool>>,
    n: int,
    m: int,
)
    requires
        1 <= n <= m <= bs.len(),
        result_sections(bs, lat, fast, n) is None,
    ensures
        result_sections(bs, lat, fast, m) is None,
    decreases m - n,
{
    if n < m {
        lemma_sections_none(bs, lat, fast, n, m - 1);
    }
}

#[verifier::rlimit(40)]
fn result_sections_exec(
    bs: &Vec<JsonValue>,
    lat: &Vec<Vec<Option<String>>>,
    fast: &Vec<Vec<bool>>,
    lines: &mut Vec<Vec<char>>,
) -> (ok: bool)
    ensures
        ok == (result_sections(
            bs@.map_values(|x: JsonValue| x@),
            session::rows_view(lat@),
            flags_view(fast@),
            bs@.len() as int,
        ) is Some),
        ok ==> doc::lines_view(final(lines)@) == doc::lines_view(old(lines)@) + result_sections(
            bs@.map_values(|x: JsonValue| x@),
            session::rows_view(lat@),
            flags_view(fast@),
            bs@.len() as int,
        )->0,
{
    let ghost sb = bs@.map_values(|x: JsonValue| x@);
    let ghost lv = session::rows_view(lat@);
    let ghost fv = flags_view(fast@);
    let ghost start = doc::lines_view(lines@);
    let mut i: usize = 0;
    assert(doc::lines_view(lines@) =~= start + Seq::<Seq<char>>::empty());
    while i < bs.len()
        invariant
            i <= bs@.len(),
            sb == bs@.map_values(|x: JsonValue| x@),
            lv == session::rows_view(lat@),
            fv == flags_view(fast@),
            start == doc::lines_view(old(lines)@),
            result_sections(sb, lv, fv, i as int) is Some,
            doc::lines_view(lines@) == start + result_sections(sb, lv, fv, i as int)->0,
        decreases bs.len() - i,
    {
        assert(sb[i as int] == bs@[i as int]@);
        let ghost prev = result_sections(sb, lv, fv, i as int)->0;
        let name = bench_name_exec(&bs[i]);
        match servers_exec(&bs[i]) {
            None => {},
            Some(ss) => {
                push_line(lines, cat_str(line_of("### "), name.as_str()));
                push_line(lines, empty_line());
                push_line(lines, line_of("| Server | p95 | RSS | Result | Responded |"));
                push_line(lines, line_of("|--------|-----|-----|--------|-----------|"));
                let ghost mid = doc::lines_view(lines@);
                if !result_rows_exec(name.as_str(), ss, lat, fast, i, lines) {
                    proof {
                        lemma_sections_none(sb, lv, fv, i as int + 1, sb.len() as int);
                    }
                    return false;
                }
                push_line(lines, empty_line());
                assert(doc::lines_view(lines@) =~= start + result_sections(sb, lv, fv, i + 1)->0);
            },
        }
        i += 1;
    }
    true
}

#[verifier::rlimit(80)]
fn competition_opt(data: &JsonValue, lat: &Vec<Vec<Option<String>>>, fast: &Vec<Vec<bool>>) -> (r: Option<String>)
    ensures
        text::opt_view(r) == competition(data@, session::rows_view(lat@), flags_view(fast@)),
{
    let mut lines: Vec<Vec<char>> = Vec::new();
    head_exec(data, &mut lines);
    assert(doc::lines_view(lines@) =~= comp_head(data@));
    let bs = match data.get("benchmarks") {
        Some(b) => b.as_array(),
        None => None,
    };
    let bs = match bs {
        Some(b) => b,
        None => {
            return Some(join_lines(&lines));
        },
    };
    if bs.len() == 0 {
        return Some(join_lines(&lines));
    }
    let ghost sb = bs@.map_values(|x: JsonValue| x@);
    assert(sb[0] == bs@[0]@);
    let names = report::collect_server_names(bs);
    let ghost head = doc::lines_view(lines@);
    push_line(&mut lines, line_of("---"));
    push_line(&mut lines, empty_line());
    push_line(&mut lines, line_of("## Summary"));
    push_line(&mut lines, empty_line());
    push_line(&mut lines, doc::names_header_exec("| Method |", &names));
    push_line(&mut lines, doc::names_sep_exec("|--------|", &names));
    let ghost p1 = doc::lines_view(lines@);
    if !summary_rows_exec(bs, lat, fast, &mut lines) {
        return None;
    }
    push_line(&mut lines, empty_line());
    push_line(&mut lines, line_of("### Scorecard"));
    push_line(&mut lines, empty_line());
    push_line(&mut lines, line_of("| Server | Wins | Out of |"));
    push_line(&mut lines, line_of("|--------|------|--------|"));
    let ghost p2 = doc::lines_view(lines@);
    let w = wins_exec(bs, fast);
    let rows = sort_by_wins_exec(w);
    score_rows_exec(&rows, bs.len(), &mut lines);
    let ghost p3 = doc::lines_view(lines@);
    push_line(&mut lines, empty_line());
    push_line(&mut lines, line_of("---"));
    push_line(&mut lines, empty_line());
    push_line(&mut lines, line_of("## Results"));
    push_line(&mut lines, empty_line());
    let ghost p4 = doc::lines_view(lines@);
    if !result_sections_exec(bs, lat, fast, &mut lines) {
        return None;
    }
    let ghost p5 = doc::lines_view(lines@);
    push_line(&mut lines, line_of("---"));
    push_line(&mut lines, empty_line());
    let ts = match data.get("timestamp") {
        Some(x) => x.as_str(),
        None => None,
    };
    match ts {
        Some(t) => {
            push_line(&mut lines, cat_str(cat_str(line_of("*Benchmark run: "), t), "*"));
            push_line(&mut lines, empty_line());
        },
        None => {},
    }
    proof {
        let lv = session::rows_view(lat@);
        let fv = flags_view(fast@);
        let names_v = match servers_of(sb[0]) {
            Some(ss) => report::server_names_of(ss),
            None => Seq::<Seq<char>>::empty(),
        };
        assert(doc::strings_view(names@) =~= names_v);
        let srows = summary_rows(sb, lv, fv, sb.len() as int)->0;
        let res = result_sections(sb, lv, fv, sb.len() as int)->0;
        let score = sort_by_wins(wins(sb, fv, sb.len() as int));
        assert(p1 =~= head + seq![
            "---"@,
            Seq::empty(),
            "## Summary"@,
            Seq::empty(),
            doc::names_header("| Method |"@, names_v),
            doc::names_sep("|--------|"@, names_v),
        ]);
        assert(p2 =~= p1 + srows + seq![
            Seq::empty(),
            "### Scorecard"@,
            Seq::empty(),
            "| Server | Wins | Out of |"@,
            "|--------|------|--------|"@,
        ]);
        assert(p3 =~= p2 + score_rows(score, sb.len(), score.len() as int));
        assert(p4 =~= p3 + seq![Seq::empty(), "---"@, Seq::empty(), "## Results"@, Seq::empty()]);
        assert(p5 =~= p4 + res);
        let tail = match json::opt_str(data@.get("timestamp"@)) {
            Some(t) => seq!["*Benchmark run: "@ + t + "*"@, Seq::<char>::empty()],
            None => Seq::<Seq<char>>::empty(),
        };
        assert(doc::lines_view(lines@) =~= p5 + seq!["---"@, Seq::<char>::empty()] + tail);
        let full = comp_head(data@) + seq![
            "---"@,
            Seq::empty(),
            "## Summary"@,
            Seq::empty(),
            doc::names_header("| Method |"@, names_v),
            doc::names_sep("|--------|"@, names_v),
        ] + srows + seq![
            Seq::empty(),
            "### Scorecard"@,
            Seq::empty(),
            "| Server | Wins | Out of |"@,
            "|--------|------|--------|"@,
        ] + score_rows(score, sb.len(), score.len() as int) + seq![
            Seq::empty(),
            "---"@,
            Seq::empty(),
            "## Results"@,
            Seq::empty(),
        ] + res + seq!["---"@, Seq::empty()] + tail;
        assert(doc::lines_view(lines@) =~= full);
        assert(competition(data@, lv, fv) == Some(text::join(full, "\n"@)));
    }
    Some(join_lines(&lines))
}

/// The competition report. `latency[i][j]` is the p95 text of server `j` of
/// benchmark `i`, `fastest[i][j]` whether that p95 is within 0.01 ms of the
/// fastest p95 among the correct servers of the benchmark.
pub fn generate_competition(
    data: &JsonValue,
    latency: &Vec<Vec<Option<String>>>,
    fastest: &Vec<Vec<bool>>,
) -> (r: String)
    requires
        competition(data@, session::rows_view(latency@), flags_view(fastest@)) is Some,
    ensures
        r@ == competition(data@, session::rows_view(latency@), flags_view(fastest@))->0,
{
    match competition_opt(data, latency, fastest) {
        Some(s) => s,
        None => String::new(),
    }
}

/// Checked form of `generate_competition`: `None` where a text would be cut
/// inside a character.
pub fn try_generate_competition(
    data: &JsonValue,
    latency: &Vec<Vec<Option<String>>>,
    fastest: &Vec<Vec<bool>>,
) -> (r: Option<String>)
    ensures
        text::opt_view(r) == competition(data@, session::rows_view(latency@), flags_view(fastest@)),
{
    if competition_opt(data, latency, fastest).is_some() {
        Some(generate_competition(data, latency, fastest))
    } else {
        None
    }
}

} // verus!
