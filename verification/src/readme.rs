//! The benchmark README: settings, servers, a results table with medals by
//! mean latency and an overall winner, a medal tally, a feature support
//! matrix and detailed per-benchmark results.
//!
//! Mean latencies are floating-point milliseconds in the benchmark data;
//! the caller hands in, per benchmark and server, their display texts and
//! an integer key that orders the means as the floats do.
use vstd::prelude::*;
use crate::analysis;
use crate::competition;
use crate::doc::{self, cat, cat_str, empty_line, line_of, member, push_line, str_or_exec};
use crate::json::{self, JsonValue};
use crate::render;
use crate::report;
use crate::text::{self, chars_of};

verus! {

/// What the caller computes from one server's latencies.
pub struct ServerTimes {
    /// Orders the mean latency as the float does; `None` when there is no
    /// numeric mean.
    pub mean_key: Option<u64>,
    /// The mean as the summary table prints it (`{:.1}`, 0.0 when missing).
    pub mean_cell: String,
    /// Mean, p50 and p95 as the detail tables print them ("N.Nms" or "-").
    pub mean: String,
    pub p50: String,
    pub p95: String,
}

pub ghost struct Times {
    pub mean_key: Option<u64>,
    pub mean_cell: Seq<char>,
    pub mean: Seq<char>,
    pub p50: Seq<char>,
    pub p95: Seq<char>,
}

impl View for ServerTimes {
    type V = Times;

    open spec fn view(&self) -> Times {
        Times {
            mean_key: self.mean_key,
            mean_cell: self.mean_cell@,
            mean: self.mean@,
            p50: self.p50@,
            p95: self.p95@,
        }
    }
}

pub open spec fn times_view(t: Seq<Vec<ServerTimes>>) -> Seq<Seq<Times>> {
    t.map_values(|r: Vec<ServerTimes>| r@.map_values(|x: ServerTimes| x@))
}

/// The times given for server `j` of benchmark `i` (blank when not given).
pub open spec fn times_at(t: Seq<Seq<Times>>, i: int, j: int) -> Times {
    if 0 <= i < t.len() && 0 <= j < t[i].len() {
        t[i][j]
    } else {
        Times {
            mean_key: None,
            mean_cell: "0.0"@,
            mean: "-"@,
            p50: "-"@,
            p95: "-"@,
        }
    }
}

// ---------------------------------------------------------------------------
// Ranking
// ---------------------------------------------------------------------------

/// The ranked servers among the first `n`: (index, mean key) of each valid
/// result with a mean, in order.
pub open spec fn candidates(ss: Seq<json::Json>, t: Seq<Seq<Times>>, i: int, n: int) -> Seq<(nat, u64)>
    decreases n,
{
    if n <= 0 || n > ss.len() {
        Seq::empty()
    } else {
        let prev = candidates(ss, t, i, n - 1);
        if report::valid_result(ss[n - 1]) && times_at(t, i, n - 1).mean_key is Some {
            prev.push(((n - 1) as nat, times_at(t, i, n - 1).mean_key->0))
        } else {
            prev
        }
    }
}

/// `x` placed after every entry with a key no larger.
pub open spec fn insert_by_key(s: Seq<(nat, u64)>, x: (nat, u64)) -> Seq<(nat, u64)>
    decreases s.len(),
{
    if s.len() == 0 || s.last().1 <= x.1 {
        s.push(x)
    } else {
        insert_by_key(s.drop_last(), x).push(s.last())
    }
}

/// Entries stably sorted by ascending key (fastest first).
pub open spec fn sort_by_key(s: Seq<(nat, u64)>) -> Seq<(nat, u64)>
    decreases s.len(),
{
    if s.len() == 0 {
        Seq::empty()
    } else {
        insert_by_key(sort_by_key(s.drop_last()), s.last())
    }
}

/// The ranking of a benchmark's servers.
pub open spec fn ranking(ss: Seq<json::Json>, t: Seq<Seq<Times>>, i: int) -> Seq<(nat, u64)> {
    sort_by_key(candidates(ss, t, i, ss.len() as int))
}

/// The medal of server `j`: 1 gold, 2 silver, 3 bronze, 0 none.
pub open spec fn medal_code(r: Seq<(nat, u64)>, j: nat) -> nat {
    if r.len() > 0 && r[0].0 == j {
        1
    } else if r.len() > 1 && r[1].0 == j {
        2
    } else if r.len() > 2 && r[2].0 == j {
        3
    } else {
        0
    }
}

/// The medals of a benchmark, one per server.
pub open spec fn medals(ss: Seq<json::Json>, t: Seq<Seq<Times>>, i: int) -> Seq<nat> {
    Seq::new(ss.len(), |j: int| medal_code(ranking(ss, t, i), j as nat))
}

/// The winner of a benchmark: the fastest ranked server's name.
pub open spec fn winner(ss: Seq<json::Json>, t: Seq<Seq<Times>>, i: int) -> Option<Seq<char>> {
    let r = ranking(ss, t, i);
    if r.len() > 0 {
        json::opt_str(ss[r[0].0 as int].get("server"@))
    } else {
        None
    }
}

/// The medals of every benchmark (none for one without servers).
pub open spec fn all_medals(bs: Seq<json::Json>, t: Seq<Seq<Times>>) -> Seq<Seq<nat>> {
    Seq::new(
        bs.len(),
        |i: int|
            match analysis::servers_in(bs[i]) {
                Some(ss) => medals(ss, t, i),
                None => Seq::empty(),
            },
    )
}

/// Benchmark wins per server over the first `n` benchmarks, listed from
/// each server's first win.
pub open spec fn gold_wins(bs: Seq<json::Json>, t: Seq<Seq<Times>>, n: int) -> Seq<(Seq<char>, nat)>
    decreases n,
{
    if n <= 0 || n > bs.len() {
        Seq::empty()
    } else {
        let prev = gold_wins(bs, t, n - 1);
        match analysis::servers_in(bs[n - 1]) {
            Some(ss) => match winner(ss, t, n - 1) {
                Some(w) => competition::add_win(prev, w),
                None => prev,
            },
            None => prev,
        }
    }
}

/// The entry with the most wins among the first `n`; the earliest among
/// equals (a hash map walk could name any of them).
pub open spec fn most_wins(w: Seq<(Seq<char>, nat)>, n: int) -> Option<(Seq<char>, nat)>
    decreases n,
{
    if n <= 0 || n > w.len() {
        None
    } else {
        match most_wins(w, n - 1) {
            Some(best) => if w[n - 1].1 > best.1 {
                Some(w[n - 1])
            } else {
                Some(best)
            },
            None => Some(w[n - 1]),
        }
    }
}

/// The overall winner.
pub open spec fn trophy(bs: Seq<json::Json>, t: Seq<Seq<Times>>) -> Option<Seq<char>> {
    let w = gold_wins(bs, t, bs.len() as int);
    match most_wins(w, w.len() as int) {
        Some(e) => Some(e.0),
        None => None,
    }
}

/// The wins recorded for a name.
pub open spec fn wins_of(w: Seq<(Seq<char>, nat)>, name: Seq<char>) -> nat {
    match crate::config::lookup(w, name) {
        Some(c) => c,
        None => 0,
    }
}

/// How many benchmarks give medal `code` to column `col`.
pub open spec fn medal_count(m: Seq<Seq<nat>>, col: int, code: nat, n: int) -> nat
    decreases n,
{
    if n <= 0 || n > m.len() {
        0
    } else {
        medal_count(m, col, code, n - 1) + if 0 <= col < m[n - 1].len() && m[n - 1][col] == code {
            1nat
        } else {
            0nat
        }
    }
}

/// How many columns named `name` (among the first `k`) of one row hold
/// medal `code`.
pub open spec fn row_count(row: Seq<nat>, names: Seq<Seq<char>>, name: Seq<char>, code: nat, k: int) -> nat
    decreases k,
{
    if k <= 0 {
        0
    } else {
        row_count(row, names, name, code, k - 1) + if k - 1 < row.len() && k - 1 < names.len() && names[k - 1]
            == name && row[k - 1] == code {
            1nat
        } else {
            0nat
        }
    }
}

/// How many medals `code` the columns named `name` received over the first
/// `n` benchmarks.
pub open spec fn named_count(m: Seq<Seq<nat>>, names: Seq<Seq<char>>, name: Seq<char>, code: nat, n: int) -> nat
    decreases n,
{
    if n <= 0 || n > m.len() {
        0
    } else {
        named_count(m, names, name, code, n - 1) + row_count(m[n - 1], names, name, code, names.len() as int)
    }
}

/// (name, gold, silver, bronze) of each server, in the order of the names;
/// medals are counted per name.
pub open spec fn tally(bs: Seq<json::Json>, t: Seq<Seq<Times>>, names: Seq<Seq<char>>) -> Seq<
    (Seq<char>, nat, nat, nat),
> {
    let w = gold_wins(bs, t, bs.len() as int);
    let m = all_medals(bs, t);
    Seq::new(
        names.len(),
        |k: int|
            (
                names[k],
                wins_of(w, names[k]),
                named_count(m, names, names[k], 2, m.len() as int),
                named_count(m, names, names[k], 3, m.len() as int),
            ),
    )
}

pub open spec fn score(e: (Seq<char>, nat, nat, nat)) -> nat {
    e.1 * 3 + e.2 * 2 + e.3
}

/// `x` placed after every entry scoring at least as much.
pub open spec fn insert_by_score(s: Seq<(Seq<char>, nat, nat, nat)>, x: (Seq<char>, nat, nat, nat)) -> Seq<
    (Seq<char>, nat, nat, nat),
>
    decreases s.len(),
{
    if s.len() == 0 || score(s.last()) >= score(x) {
        s.push(x)
    } else {
        insert_by_score(s.drop_last(), x).push(s.last())
    }
}

/// Entries stably sorted by descending score.
pub open spec fn sort_by_score(s: Seq<(Seq<char>, nat, nat, nat)>) -> Seq<(Seq<char>, nat, nat, nat)>
    decreases s.len(),
{
    if s.len() == 0 {
        Seq::empty()
    } else {
        insert_by_score(sort_by_score(s.drop_last()), s.last())
    }
}

// ---------------------------------------------------------------------------
// Document
// ---------------------------------------------------------------------------

pub open spec fn medal_icon(code: nat) -> Seq<char> {
    if code == 1 {
        "\u{1F947}"@
    } else if code == 2 {
        "\u{1F948}"@
    } else if code == 3 {
        "\u{1F949}"@
    } else {
        Seq::empty()
    }
}

/// The title, settings and servers tables.
pub open spec fn readme_intro(data: json::Json) -> Seq<Seq<char>> {
    let st = data.get("settings"@);
    let n = |k: Seq<char>| text::dec(doc::u64_or_zero(json::Json::opt_get(st, k)));
    seq![
        "# Solidity LSP Benchmarks"@,
        Seq::empty(),
        "Benchmarks comparing Solidity LSP servers against Uniswap V4-core (`Pool.sol`, 618 lines)."@,
        Seq::empty(),
    ] + (if st is Some {
        seq![
            "## Settings"@,
            Seq::empty(),
            "| Setting | Value |"@,
            "|---------|-------|"@,
            "| File | `"@ + doc::str_or(json::Json::opt_get(st, "file"@), "src/libraries/Pool.sol"@) + "` |"@,
            "| Target position | line "@ + n("line"@) + ", col "@ + n("col"@) + " |"@,
            "| Iterations | "@ + n("iterations"@) + " |"@,
            "| Warmup | "@ + n("warmup"@) + " |"@,
            "| Request timeout | "@ + n("timeout_secs"@) + "s |"@,
            "| Index timeout | "@ + n("index_timeout_secs"@) + "s |"@,
            Seq::empty(),
        ]
    } else {
        Seq::empty()
    }) + match json::opt_array(data.get("servers"@)) {
        Some(ss) => seq![
            "## Servers"@,
            Seq::empty(),
            "| Server | Description | Version |"@,
            "|--------|-------------|---------|"@,
        ] + analysis::described_rows(ss, ss.len() as int) + seq![Seq::empty()],
        None => Seq::empty(),
    }
}

/// " 🏆" for the overall winner.
pub open spec fn trophy_mark(tr: Option<Seq<char>>, name: Seq<char>) -> Seq<char> {
    if tr == Some(name) {
        " \u{1F3C6}"@
    } else {
        Seq::empty()
    }
}

pub open spec fn trophy_header(tr: Option<Seq<char>>, names: Seq<Seq<char>>, n: int) -> Seq<char>
    decreases n,
{
    if n <= 0 || n > names.len() {
        "| Benchmark |"@
    } else {
        trophy_header(tr, names, n - 1) + " "@ + names[n - 1] + trophy_mark(tr, names[n - 1]) + " |"@
    }
}

pub open spec fn trophy_sep(tr: Option<Seq<char>>, names: Seq<Seq<char>>, n: int) -> Seq<char>
    decreases n,
{
    if n <= 0 || n > names.len() {
        "|-----------|"@
    } else {
        trophy_sep(tr, names, n - 1) + doc::dashes(
            text::utf8_len(names[n - 1]) + text::utf8_len(trophy_mark(tr, names[n - 1])) + 2,
        ) + "|"@
    }
}

/// A cell of the results table.
pub open spec fn summary_cell(srv: json::Json, times: Times, medal: nat) -> Seq<char> {
    let status = doc::str_or(srv.get("status"@), Seq::empty());
    if status == "ok"@ {
        " "@ + times.mean_cell + "ms"@ + (if medal == 0 {
            Seq::empty()
        } else {
            " "@ + medal_icon(medal)
        }) + " |"@
    } else if status == "invalid"@ {
        let response = report::response_text_of(srv);
        if text::contains(response, "Unknown method"@) || text::contains(response, "unsupported"@) {
            " unsupported |"@
        } else {
            " - |"@
        }
    } else if text::contains(doc::str_or(srv.get("error"@), Seq::empty()), "timeout"@) {
        " timeout |"@
    } else {
        " FAIL |"@
    }
}

pub open spec fn medal_at(m: Seq<Seq<nat>>, i: int, j: int) -> nat {
    if 0 <= i < m.len() && 0 <= j < m[i].len() {
        m[i][j]
    } else {
        0
    }
}

pub open spec fn summary_cells(ss: Seq<json::Json>, t: Seq<Seq<Times>>, m: Seq<Seq<nat>>, i: int, n: int) -> Seq<char>
    decreases n,
{
    if n <= 0 || n > ss.len() {
        Seq::empty()
    } else {
        summary_cells(ss, t, m, i, n - 1) + summary_cell(ss[n - 1], times_at(t, i, n - 1), medal_at(m, i, n - 1))
    }
}

pub open spec fn result_rows(bs: Seq<json::Json>, t: Seq<Seq<Times>>, m: Seq<Seq<nat>>, n: int) -> Seq<Seq<char>>
    decreases n,
{
    if n <= 0 || n > bs.len() {
        Seq::empty()
    } else {
        let name = doc::str_or(bs[n - 1].get("name"@), "?"@);
        result_rows(bs, t, m, n - 1).push(
            "| ["@ + name + "](#"@ + render::slug_of(text::spec_to_lowercase(name)) + ") |"@ + match analysis::servers_in(
                bs[n - 1],
            ) {
                Some(ss) => summary_cells(ss, t, m, n - 1, ss.len() as int),
                None => Seq::empty(),
            },
        )
    }
}

pub open spec fn tally_rows(rows: Seq<(Seq<char>, nat, nat, nat)>, tr: Option<Seq<char>>, n: int) -> Seq<Seq<char>>
    decreases n,
{
    if n <= 0 || n > rows.len() {
        Seq::empty()
    } else {
        let e = rows[n - 1];
        tally_rows(rows, tr, n - 1).push(
            "| **"@ + e.0 + "**"@ + trophy_mark(tr, e.0) + " | "@ + text::dec(e.1) + " | "@ + text::dec(e.2)
                + " | "@ + text::dec(e.3) + " | "@ + text::dec(score(e)) + " |"@,
        )
    }
}

/// The results table, the winner line and the medal tally.
pub open spec fn results_section(bs: Seq<json::Json>, t: Seq<Seq<Times>>, names: Seq<Seq<char>>) -> Seq<Seq<char>> {
    let m = all_medals(bs, t);
    let tr = trophy(bs, t);
    let w = gold_wins(bs, t, bs.len() as int);
    seq![
        "## Results"@,
        Seq::empty(),
        trophy_header(tr, names, names.len() as int),
        trophy_sep(tr, names, names.len() as int),
    ] + result_rows(bs, t, m, bs.len() as int) + seq![Seq::empty()] + match tr {
        Some(win) => {
            let rows = sort_by_score(tally(bs, t, names));
            seq![
                "> **\u{1F3C6} Overall Winner: "@ + win + "** \u{2014} "@ + text::dec(wins_of(w, win))
                    + " \u{1F947} out of "@ + text::dec(bs.len()) + " benchmarks"@,
                Seq::empty(),
                "### Medal Tally"@,
                Seq::empty(),
                "| Server | \u{1F947} Gold | \u{1F948} Silver | \u{1F949} Bronze | Score |"@,
                "|--------|------|----------|----------|-------|"@,
            ] + tally_rows(rows, tr, rows.len() as int) + seq![Seq::empty()]
        },
        None => Seq::empty(),
    }
}

/// The support icon of a server: valid, unsupported, timeout, empty, failed.
pub open spec fn support_icon(srv: json::Json) -> Seq<char> {
    let status = doc::str_or(srv.get("status"@), Seq::empty());
    let response = report::response_text_of(srv);
    let error = doc::str_or(srv.get("error"@), Seq::empty());
    if status == "ok"@ && report::carries_response(srv.get("response"@)) && response != "[]"@ {
        "\u{2705}"@
    } else if text::contains(response, "Unknown method"@) || text::contains(response, "unsupported"@) {
        "\u{274C}"@
    } else if text::contains(error, "timeout"@) {
        "\u{23F3}"@
    } else if status == "ok"@ {
        "\u{26A0}\u{FE0F}"@
    } else {
        "\u{274C}"@
    }
}

pub open spec fn support_cells(ss: Seq<json::Json>, n: int) -> Seq<char>
    decreases n,
{
    if n <= 0 || n > ss.len() {
        Seq::empty()
    } else {
        support_cells(ss, n - 1) + " "@ + support_icon(ss[n - 1]) + " |"@
    }
}

pub open spec fn support_rows(bs: Seq<json::Json>, n: int) -> Seq<Seq<char>>
    decreases n,
{
    if n <= 0 || n > bs.len() {
        Seq::empty()
    } else {
        support_rows(bs, n - 1).push(
            "| "@ + doc::str_or(bs[n - 1].get("name"@), "?"@) + " |"@ + match analysis::servers_in(bs[n - 1]) {
                Some(ss) => support_cells(ss, ss.len() as int),
                None => Seq::empty(),
            },
        )
    }
}

/// The feature support matrix and its legend.
pub open spec fn support_section(bs: Seq<json::Json>, names: Seq<Seq<char>>) -> Seq<Seq<char>> {
    seq![
        "## Feature Support"@,
        Seq::empty(),
        doc::names_header("| Feature |"@, names),
        doc::names_sep("|---------|"@, names),
    ] + support_rows(bs, bs.len() as int) + seq![
        Seq::empty(),
        "> \u{2705} = valid response \u{2003} \u{26A0}\u{FE0F} = empty/null result \u{2003} \u{23F3} = timeout \u{2003} \u{274C} = unsupported / failed"@,
        Seq::empty(),
    ]
}

/// The status shown in a detail table.
pub open spec fn status_display(srv: json::Json) -> Seq<char> {
    let status = doc::str_or(srv.get("status"@), Seq::empty());
    if status == "ok"@ {
        "\u{2705} ok"@
    } else if status == "invalid"@ {
        "\u{26A0}\u{FE0F} invalid"@
    } else {
        "\u{274C} "@ + doc::str_or(srv.get("error"@), "fail"@)
    }
}

pub open spec fn latency_rows(ss: Seq<json::Json>, t: Seq<Seq<Times>>, i: int, n: int) -> Seq<Seq<char>>
    decreases n,
{
    if n <= 0 || n > ss.len() {
        Seq::empty()
    } else {
        let s = ss[n - 1];
        let x = times_at(t, i, n - 1);
        latency_rows(ss, t, i, n - 1).push(
            "| **"@ + doc::str_or(s.get("server"@), "?"@) + "** | "@ + status_display(s) + " | "@ + x.mean
                + " | "@ + x.p50 + " | "@ + x.p95 + " |"@,
        )
    }
}

/// The response a detail table shows: its text (a native JSON value in its
/// compact form), or "(no response)" without one.
pub open spec fn detail_text(s: json::Json) -> Seq<char> {
    match s.get("response"@) {
        Some(_) => report::response_text_of(s),
        None => "(no response)"@,
    }
}

/// The response details of one server (`None` where cutting the response
/// at 200 bytes would split a character).
pub open spec fn response_detail(s: json::Json) -> Option<Seq<Seq<char>>> {
    let status = doc::str_or(s.get("status"@), Seq::empty());
    let head = seq!["**"@ + doc::str_or(s.get("server"@), "?"@) + "**"@, Seq::empty()];
    if status == "ok"@ || status == "invalid"@ {
        match render::truncate_response_spec(detail_text(s), 200) {
            Some(t) => Some(head + seq!["```json"@, t, "```"@, Seq::empty()]),
            None => None,
        }
    } else {
        Some(head + seq!["Error: `"@ + doc::str_or(s.get("error"@), "unknown error"@) + "`"@, Seq::empty()])
    }
}

pub open spec fn response_details(ss: Seq<json::Json>, n: int) -> Option<Seq<Seq<char>>>
    decreases n,
{
    if n <= 0 || n > ss.len() {
        Some(Seq::empty())
    } else {
        match (response_details(ss, n - 1), response_detail(ss[n - 1])) {
            (Some(a), Some(b)) => Some(a + b),
            _ => None,
        }
    }
}

/// The detail section of one benchmark.
pub open spec fn detail(b: json::Json, t: Seq<Seq<Times>>, i: int) -> Option<Seq<Seq<char>>> {
    let head = seq!["### "@ + doc::str_or(b.get("name"@), "?"@), Seq::empty()];
    match analysis::servers_in(b) {
        Some(ss) => match response_details(ss, ss.len() as int) {
            Some(d) => Some(
                head + seq!["| Server | Status | Mean | P50 | P95 |"@, "|--------|--------|------|-----|-----|"@]
                    + latency_rows(ss, t, i, ss.len() as int) + seq![
                    Seq::empty(),
                    "<details>"@,
                    "<summary>Response details</summary>"@,
                    Seq::empty(),
                ] + d + seq!["</details>"@, Seq::empty()],
            ),
            None => None,
        },
        None => Some(head),
    }
}

pub open spec fn details(bs: Seq<json::Json>, t: Seq<Seq<Times>>, n: int) -> Option<Seq<Seq<char>>>
    decreases n,
{
    if n <= 0 || n > bs.len() {
        Some(Seq::empty())
    } else {
        match (details(bs, t, n - 1), detail(bs[n - 1], t, n - 1)) {
            (Some(a), Some(b)) => Some(a + b),
            _ => None,
        }
    }
}

/// The closing lines: the data file, the run's timestamp and a pointer to
/// the documentation.
pub open spec fn readme_footer(data: json::Json, path: Seq<char>) -> Seq<Seq<char>> {
    seq!["---"@, Seq::empty()] + match json::opt_str(data.get("timestamp"@)) {
        Some(ts) => seq![
            "*Generated from [`"@ + path + "`]("@ + path + ") — benchmark run: "@ + ts + "*"@,
            Seq::empty(),
        ],
        None => Seq::empty(),
    } + seq!["See [DOCS.md](./DOCS.md) for usage and installation."@, Seq::empty()]
}

/// The sections about the benchmarks, present when there are any.
pub open spec fn readme_body(data: json::Json, t: Seq<Seq<Times>>) -> Option<Seq<Seq<char>>> {
    match json::opt_array(data.get("benchmarks"@)) {
        Some(bs) => if bs.len() > 0 {
            let names = match analysis::servers_in(bs[0]) {
                Some(ss) => report::server_names_of(ss),
                None => Seq::empty(),
            };
            match details(bs, t, bs.len() as int) {
                Some(d) => Some(
                    results_section(bs, t, names) + support_section(bs, names) + seq![
                        "---"@,
                        Seq::empty(),
                        "## Detailed Results"@,
                        Seq::empty(),
                    ] + d,
                ),
                None => None,
            }
        } else {
            Some(Seq::empty())
        },
        None => Some(Seq::empty()),
    }
}

/// The README (`None` where a text would be cut inside a character, which
/// the string slicing cannot do).
pub open spec fn readme(data: json::Json, path: Seq<char>, t: Seq<Seq<Times>>) -> Option<Seq<char>> {
    match readme_body(data, t) {
        Some(b) => Some(text::join(readme_intro(data) + b + readme_footer(data, path), "\n"@)),
        None => None,
    }
}

// ---------------------------------------------------------------------------
// Implementation: ranking and medals
// ---------------------------------------------------------------------------

pub open spec fn ranked_view(v: Seq<(usize, u64)>) -> Seq<(nat, u64)> {
    v.map_values(|p: (usize, u64)| (p.0 as nat, p.1))
}

pub open spec fn codes_view(m: Seq<Vec<u8>>) -> Seq<Seq<nat>> {
    m.map_values(|r: Vec<u8>| r@.map_values(|c: u8| c as nat))
}

fn times_exec<'a>(times: &'a Vec<Vec<ServerTimes>>, i: usize, j: usize) -> (r: Option<&'a ServerTimes>)
    ensures
        match r {
            Some(x) => times_at(times_view(times@), i as int, j as int) == x@,
            None => times_at(times_view(times@), i as int, j as int) == (Times {
                mean_key: None,
                mean_cell: "0.0"@,
                mean: "-"@,
                p50: "-"@,
                p95: "-"@,
            }),
        },
{
    if i < times.len() && j < times[i].len() {
        Some(&times[i][j])
    } else {
        None
    }
}

fn mean_key_exec(times: &Vec<Vec<ServerTimes>>, i: usize, j: usize) -> (r: Option<u64>)
    ensures
        r == times_at(times_view(times@), i as int, j as int).mean_key,
{
    match times_exec(times, i, j) {
        Some(x) => x.mean_key,
        None => None,
    }
}

proof fn lemma_insert_by_key(s: Seq<(nat, u64)>, x: (nat, u64), p: int)
    requires
        0 <= p <= s.len(),
        forall|m: int| p <= m < s.len() ==> (#[trigger] s[m]).1 > x.1,
        p == 0 || s[p - 1].1 <= x.1,
    ensures
        insert_by_key(s, x) == s.subrange(0, p).push(x) + s.subrange(p, s.len() as int),
    decreases s.len(),
{
    if s.len() == 0 || p == s.len() {
        assert(s.subrange(0, p).push(x) + s.subrange(p, s.len() as int) =~= s.push(x));
    } else {
        assert(s[s.len() - 1].1 > x.1);
        let t = s.drop_last();
        assert forall|m: int| p <= m < t.len() implies (#[trigger] t[m]).1 > x.1 by {
            assert(t[m] == s[m]);
        }
        if p > 0 {
            assert(t[p - 1] == s[p - 1]);
        }
        lemma_insert_by_key(t, x, p);
        assert(t.subrange(0, p) =~= s.subrange(0, p));
        assert((t.subrange(0, p).push(x) + t.subrange(p, t.len() as int)).push(s.last())
            =~= s.subrange(0, p).push(x) + s.subrange(p, s.len() as int));
    }
}

fn ranking_exec(ss: &Vec<JsonValue>, times: &Vec<Vec<ServerTimes>>, i: usize) -> (r: Vec<(usize, u64)>)
    ensures
        ranked_view(r@) == ranking(ss@.map_values(|x: JsonValue| x@), times_view(times@), i as int),
        forall|k: int| 0 <= k < r@.len() ==> (#[trigger] r@[k]).0 < ss@.len(),
{
    let ghost sv = ss@.map_values(|x: JsonValue| x@);
    let ghost tv = times_view(times@);
    let mut out: Vec<(usize, u64)> = Vec::new();
    let mut j: usize = 0;
    assert(ranked_view(out@) =~= sort_by_key(candidates(sv, tv, i as int, 0)));
    while j < ss.len()
        invariant
            j <= ss@.len(),
            sv == ss@.map_values(|x: JsonValue| x@),
            tv == times_view(times@),
            ranked_view(out@) == sort_by_key(candidates(sv, tv, i as int, j as int)),
            forall|k: int| 0 <= k < out@.len() ==> (#[trigger] out@[k]).0 < j,
        decreases ss.len() - j,
    {
        assert(sv[j as int] == ss@[j as int]@);
        let key = mean_key_exec(times, i, j);
        if report::is_valid_result(&ss[j]) && key.is_some() {
            let kv = match key {
                Some(k) => k,
                None => 0,
            };
            let x: (usize, u64) = (j, kv);
            let ghost rv = ranked_view(out@);
            let ghost xv = (j as nat, kv);
            let mut p: usize = out.len();
            while p > 0 && out[p - 1].1 > kv
                invariant
                    p <= out@.len(),
                    rv == ranked_view(out@),
                    xv == (j as nat, kv),
                    forall|m: int| p <= m < rv.len() ==> (#[trigger] rv[m]).1 > xv.1,
                decreases p,
            {
                p -= 1;
            }
            proof {
                lemma_insert_by_key(rv, xv, p as int);
                let c = candidates(sv, tv, i as int, j + 1);
                assert(c == candidates(sv, tv, i as int, j as int).push(xv));
                assert(c.drop_last() =~= candidates(sv, tv, i as int, j as int));
            }
            let ghost before = out@;
            out.insert(p, x);
            assert(ranked_view(out@) =~= rv.subrange(0, p as int).push(xv) + rv.subrange(p as int, rv.len() as int));
            assert forall|k: int| 0 <= k < out@.len() implies (#[trigger] out@[k]).0 < j + 1 by {
                if k < p {
                    assert(out@[k] == before[k]);
                } else if k > p {
                    assert(out@[k] == before[k - 1]);
                }
            }
        }
        j += 1;
    }
    out
}

fn medal_code_exec(r: &Vec<(usize, u64)>, j: usize) -> (c: u8)
    ensures
        c as nat == medal_code(ranked_view(r@), j as nat),
{
    if r.len() > 0 && r[0].0 == j {
        1
    } else if r.len() > 1 && r[1].0 == j {
        2
    } else if r.len() > 2 && r[2].0 == j {
        3
    } else {
        0
    }
}

/// Ranks a benchmark's servers by mean latency: the medal of each server
/// (1 gold, 2 silver, 3 bronze, 0 none) and the fastest server's name.
/// Only valid results with a mean are ranked; equal means keep their order.
pub fn rank_servers(servers: &Vec<JsonValue>, times: &Vec<Vec<ServerTimes>>, i: usize) -> (r: (Vec<u8>, Option<String>))
    ensures
        r.0@.map_values(|c: u8| c as nat) == medals(servers@.map_values(|x: JsonValue| x@), times_view(times@), i as int),
        text::opt_view(r.1) == winner(servers@.map_values(|x: JsonValue| x@), times_view(times@), i as int),
{
    let ghost sv = servers@.map_values(|x: JsonValue| x@);
    let ghost tv = times_view(times@);
    let ranked = ranking_exec(servers, times, i);
    let ghost rv = ranked_view(ranked@);
    let mut row: Vec<u8> = Vec::new();
    let mut j: usize = 0;
    while j < servers.len()
        invariant
            j <= servers@.len(),
            rv == ranked_view(ranked@),
            row@.len() == j,
            forall|k: int| 0 <= k < j ==> (#[trigger] row@[k]) as nat == medal_code(rv, k as nat),
        decreases servers.len() - j,
    {
        row.push(medal_code_exec(&ranked, j));
        j += 1;
    }
    assert(row@.map_values(|c: u8| c as nat) =~= medals(sv, tv, i as int));
    let w = if ranked.len() > 0 {
        let idx = ranked[0].0;
        assert(sv[idx as int] == servers@[idx as int]@);
        match servers[idx].get("server") {
            Some(x) => match x.as_str() {
                Some(n) => Some(n.to_owned()),
                None => None,
            },
            None => None,
        }
    } else {
        None
    };
    (row, w)
}

proof fn lemma_medal_unique(r: Seq<(nat, u64)>, j1: nat, j2: nat)
    requires
        medal_code(r, j1) == medal_code(r, j2),
        medal_code(r, j1) != 0,
    ensures
        j1 == j2,
{
}

/// A row where a nonzero code occurs at most once.
pub open spec fn codes_unique(row: Seq<nat>) -> bool {
    forall|a: int, b: int|
        0 <= a < row.len() && 0 <= b < row.len() && row[a] == row[b] && row[a] != 0 ==> a == b
}

proof fn lemma_row_count_bound(row: Seq<nat>, names: Seq<Seq<char>>, name: Seq<char>, code: nat, k: int)
    requires
        codes_unique(row),
        code != 0,
        0 <= k,
    ensures
        row_count(row, names, name, code, k) <= 1,
        row_count(row, names, name, code, k) == 1 ==> exists|j: int| 0 <= j < k && j < row.len() && row[j] == code,
    decreases k,
{
    if k > 0 {
        lemma_row_count_bound(row, names, name, code, k - 1);
        if row_count(row, names, name, code, k - 1) == 1 {
            let j = choose|j: int| 0 <= j < k - 1 && j < row.len() && row[j] == code;
            if k - 1 < row.len() && row[k - 1] == code {
                assert(row[j] == row[k - 1]);
            }
        }
    }
}

fn medal_rows_exec(bs: &Vec<JsonValue>, times: &Vec<Vec<ServerTimes>>) -> (r: (Vec<Vec<u8>>, Vec<(Vec<char>, u128)>))
    ensures
        codes_view(r.0@) == all_medals(bs@.map_values(|x: JsonValue| x@), times_view(times@)),
        forall|k: int| 0 <= k < r.0@.len() ==> codes_unique(#[trigger] codes_view(r.0@)[k]),
        competition::tally_view(r.1@) == gold_wins(bs@.map_values(|x: JsonValue| x@), times_view(times@), bs@.len() as int),
        forall|k: int| 0 <= k < r.1@.len() ==> (#[trigger] r.1@[k]).1 <= bs@.len(),
{
    let ghost sb = bs@.map_values(|x: JsonValue| x@);
    let ghost tv = times_view(times@);
    let mut rows: Vec<Vec<u8>> = Vec::new();
    let mut wins: Vec<(Vec<char>, u128)> = Vec::new();
    let mut i: usize = 0;
    assert(competition::tally_view(wins@) =~= Seq::<(Seq<char>, nat)>::empty());
    while i < bs.len()
        invariant
            i <= bs@.len(),
            sb == bs@.map_values(|x: JsonValue| x@),
            tv == times_view(times@),
            rows@.len() == i,
            forall|k: int| 0 <= k < i ==> #[trigger] codes_view(rows@)[k] == all_medals(sb, tv)[k],
            forall|k: int| 0 <= k < i ==> codes_unique(#[trigger] codes_view(rows@)[k]),
            competition::tally_view(wins@) == gold_wins(sb, tv, i as int),
            forall|k: int| 0 <= k < wins@.len() ==> (#[trigger] wins@[k]).1 <= i,
        decreases bs.len() - i,
    {
        assert(sb[i as int] == bs@[i as int]@);
        let ss = match bs[i].get("servers") {
            Some(x) => x.as_array(),
            None => None,
        };
        let ghost before = codes_view(rows@);
        match ss {
            Some(ss) => {
                let (row, w) = rank_servers(ss, times, i);
                proof {
                    let r = ranking(ss@.map_values(|x: JsonValue| x@), tv, i as int);
                    let rv = row@.map_values(|c: u8| c as nat);
                    assert forall|a: int, b: int|
                        0 <= a < rv.len() && 0 <= b < rv.len() && rv[a] == rv[b] && rv[a] != 0 implies a == b by {
                        lemma_medal_unique(r, a as nat, b as nat);
                    }
                }
                rows.push(row);
                match w {
                    Some(name) => {
                        let nv = chars_of(name.as_str());
                        competition::add_win_exec(&mut wins, nv, (i + 1) as u128);
                    },
                    None => {},
                }
            },
            None => {
                rows.push(Vec::new());
                assert(codes_view(rows@)[i as int] =~= Seq::<nat>::empty());
            },
        }
        assert(codes_view(rows@) =~= before.push(codes_view(rows@)[i as int]));
        i += 1;
    }
    assert(codes_view(rows@) =~= all_medals(sb, tv));
    (rows, wins)
}

fn most_wins_exec(w: &Vec<(Vec<char>, u128)>) -> (r: Option<usize>)
    ensures
        match r {
            Some(k) => k < w@.len() && most_wins(competition::tally_view(w@), w@.len() as int) == Some(
                competition::tally_view(w@)[k as int],
            ),
            None => most_wins(competition::tally_view(w@), w@.len() as int) is None,
        },
{
    let ghost tv = competition::tally_view(w@);
    let mut best: Option<usize> = None;
    let mut k: usize = 0;
    while k < w.len()
        invariant
            k <= w@.len(),
            tv == competition::tally_view(w@),
            match best {
                Some(b) => b < k && most_wins(tv, k as int) == Some(tv[b as int]),
                None => k == 0 && most_wins(tv, k as int) is None,
            },
        decreases w.len() - k,
    {
        best = match best {
            Some(b) => if w[k].1 > w[b].1 {
                Some(k)
            } else {
                Some(b)
            },
            None => Some(k),
        };
        k += 1;
    }
    best
}

fn named_count_exec(m: &Vec<Vec<u8>>, names: &Vec<String>, name: &str, code: u8) -> (r: u128)
    requires
        code != 0,
        forall|k: int| 0 <= k < m@.len() ==> codes_unique(#[trigger] codes_view(m@)[k]),
    ensures
        r == named_count(codes_view(m@), analysis::strings_of(names@), name@, code as nat, m@.len() as int),
        r <= m@.len(),
{
    let ghost mv = codes_view(m@);
    let ghost ns = analysis::strings_of(names@);
    let mut acc: u128 = 0;
    let mut r: usize = 0;
    while r < m.len()
        invariant
            r <= m@.len(),
            code != 0,
            mv == codes_view(m@),
            ns == analysis::strings_of(names@),
            forall|k: int| 0 <= k < m@.len() ==> codes_unique(#[trigger] codes_view(m@)[k]),
            acc == named_count(mv, ns, name@, code as nat, r as int),
            acc <= r,
        decreases m.len() - r,
    {
        let ghost row = mv[r as int];
        assert(row == m@[r as int]@.map_values(|c: u8| c as nat));
        let ghost acc0 = acc;
        let mut k: usize = 0;
        while k < names.len()
            invariant
                k <= names@.len(),
                r < m@.len(),
                row == mv[r as int],
                row == m@[r as int]@.map_values(|c: u8| c as nat),
                mv == codes_view(m@),
                ns == analysis::strings_of(names@),
                codes_unique(row),
                code != 0,
                acc == acc0 + row_count(row, ns, name@, code as nat, k as int),
                acc0 <= r,
            decreases names.len() - k,
        {
            proof {
                lemma_row_count_bound(row, ns, name@, code as nat, k as int);
                lemma_row_count_bound(row, ns, name@, code as nat, k as int + 1);
            }
            if k < m[r].len() && crate::json::str_eq(names[k].as_str(), name) && m[r][k] == code {
                acc = acc + 1;
            }
            k += 1;
        }
        proof {
            lemma_row_count_bound(row, ns, name@, code as nat, names@.len() as int);
        }
        r += 1;
    }
    acc
}

fn tally_exec(
    golds: &Vec<(Vec<char>, u128)>,
    medals: &Vec<Vec<u8>>,
    names: &Vec<String>,
) -> (r: Vec<(Vec<char>, u128, u128, u128)>)
    requires
        forall|k: int| 0 <= k < medals@.len() ==> codes_unique(#[trigger] codes_view(medals@)[k]),
        forall|k: int| 0 <= k < golds@.len() ==> (#[trigger] golds@[k]).1 <= medals@.len(),
    ensures
        tally4_view(r@) == Seq::new(
            names@.len(),
            |k: int|
                (
                    analysis::strings_of(names@)[k],
                    wins_of(competition::tally_view(golds@), analysis::strings_of(names@)[k]),
                    named_count(codes_view(medals@), analysis::strings_of(names@), analysis::strings_of(names@)[k], 2, medals@.len() as int),
                    named_count(codes_view(medals@), analysis::strings_of(names@), analysis::strings_of(names@)[k], 3, medals@.len() as int),
                ),
        ),
        forall|k: int| 0 <= k < r@.len() ==> (#[trigger] r@[k]).1 <= medals@.len() && r@[k].2 <= medals@.len() && r@[k].3 <= medals@.len(),
{
    let ghost ns = analysis::strings_of(names@);
    let mut out: Vec<(Vec<char>, u128, u128, u128)> = Vec::new();
    let mut k: usize = 0;
    while k < names.len()
        invariant
            k <= names@.len(),
            ns == analysis::strings_of(names@),
            forall|q: int| 0 <= q < medals@.len() ==> codes_unique(#[trigger] codes_view(medals@)[q]),
            forall|q: int| 0 <= q < golds@.len() ==> (#[trigger] golds@[q]).1 <= medals@.len(),
            out@.len() == k,
            forall|q: int| 0 <= q < k ==> #[trigger] tally4_view(out@)[q] == (
                ns[q],
                wins_of(competition::tally_view(golds@), ns[q]),
                named_count(codes_view(medals@), ns, ns[q], 2, medals@.len() as int),
                named_count(codes_view(medals@), ns, ns[q], 3, medals@.len() as int),
            ),
            forall|q: int| 0 <= q < k ==> (#[trigger] out@[q]).1 <= medals@.len() && out@[q].2 <= medals@.len() && out@[q].3 <= medals@.len(),
        decreases names.len() - k,
    {
        let nc = chars_of(names[k].as_str());
        let g = lookup_wins_bounded(golds, nc.as_slice(), medals.len());
        let sv = named_count_exec(medals, names, names[k].as_str(), 2);
        let bv = named_count_exec(medals, names, names[k].as_str(), 3);
        let ghost before = out@;
        out.push((nc, g, sv, bv));
        proof {
            assert(tally4_view(out@)[k as int] == (ns[k as int], g as nat, sv as nat, bv as nat));
            assert forall|q: int| 0 <= q < k implies #[trigger] tally4_view(out@)[q] == tally4_view(before)[q] by {}
        }
        k += 1;
    }
    assert(tally4_view(out@) =~= Seq::new(
        names@.len(),
        |q: int|
            (
                ns[q],
                wins_of(competition::tally_view(golds@), ns[q]),
                named_count(codes_view(medals@), ns, ns[q], 2, medals@.len() as int),
                named_count(codes_view(medals@), ns, ns[q], 3, medals@.len() as int),
            ),
    ));
    out
}

fn lookup_wins_bounded(w: &Vec<(Vec<char>, u128)>, name: &[char], bound: usize) -> (r: u128)
    requires
        forall|k: int| 0 <= k < w@.len() ==> (#[trigger] w@[k]).1 <= bound,
    ensures
        r == wins_of(competition::tally_view(w@), name@),
        r <= bound,
{
    let ghost tv = competition::tally_view(w@);
    let mut k: usize = 0;
    assert(tv.subrange(0, tv.len() as int) =~= tv);
    while k < w.len()
        invariant
            k <= w@.len(),
            tv == competition::tally_view(w@),
            forall|q: int| 0 <= q < w@.len() ==> (#[trigger] w@[q]).1 <= bound,
            crate::config::lookup(tv, name@) == crate::config::lookup(tv.subrange(k as int, tv.len() as int), name@),
        decreases w.len() - k,
    {
        let ghost t = tv.subrange(k as int, tv.len() as int);
        assert(t.drop_first() =~= tv.subrange(k + 1, tv.len() as int));
        assert(t[0] == (w@[k as int].0@, w@[k as int].1 as nat));
        if w[k].0.len() == name.len() && text::starts_with_exec(w[k].0.as_slice(), name) {
            assert(w@[k as int].0@ =~= name@);
            return w[k].1;
        }
        proof {
            if t[0].0 == name@ {
                assert(w@[k as int].0@.subrange(0, name@.len() as int) =~= name@);
            }
        }
        k += 1;
    }
    0
}

pub open spec fn tally4_view(t: Seq<(Vec<char>, u128, u128, u128)>) -> Seq<(Seq<char>, nat, nat, nat)> {
    t.map_values(|e: (Vec<char>, u128, u128, u128)| (e.0@, e.1 as nat, e.2 as nat, e.3 as nat))
}

// ---------------------------------------------------------------------------
// Implementation: document
// ---------------------------------------------------------------------------

fn intro_exec(data: &JsonValue, lines: &mut Vec<Vec<char>>)
    ensures
        doc::lines_view(final(lines)@) == doc::lines_view(old(lines)@) + readme_intro(data@),
{
    let ghost start = doc::lines_view(lines@);
    push_line(lines, line_of("# Solidity LSP Benchmarks"));
    push_line(lines, empty_line());
    push_line(lines, line_of("Benchmarks comparing Solidity LSP servers against Uniswap V4-core (`Pool.sol`, 618 lines)."));
    push_line(lines, empty_line());
    let ghost a = doc::lines_view(lines@);
    let st = data.get("settings");
    if st.is_some() {
        settings_exec(st, lines);
    }
    let ghost b = doc::lines_view(lines@);
    let servers = match data.get("servers") {
        Some(x) => x.as_array(),
        None => None,
    };
    match servers {
        Some(ss) => {
            let intro_lines = analysis::analysis_intro_servers(ss);
            let mut k: usize = 0;
            let ghost c = doc::lines_view(lines@);
            assert(doc::lines_view(lines@) =~= c + analysis::strings_of(intro_lines@).subrange(0, 0));
            while k < intro_lines.len()
                invariant
                    k <= intro_lines@.len(),
                    doc::lines_view(lines@) == c + analysis::strings_of(intro_lines@).subrange(0, k as int),
                decreases intro_lines.len() - k,
            {
                push_line(lines, chars_of(intro_lines[k].as_str()));
                k += 1;
                assert(doc::lines_view(lines@) =~= c + analysis::strings_of(intro_lines@).subrange(0, k as int));
            }
            assert(analysis::strings_of(intro_lines@).subrange(0, intro_lines@.len() as int) =~= analysis::strings_of(intro_lines@));
        },
        None => {},
    }
    assert(doc::lines_view(lines@) =~= start + readme_intro(data@));
}

fn settings_exec(st: Option<&JsonValue>, lines: &mut Vec<Vec<char>>)
    requires
        st is Some,
    ensures
        ({
            let sv = match st {
                Some(x) => Some(x@),
                None => None,
            };
            let n = |k: Seq<char>| text::dec(doc::u64_or_zero(json::Json::opt_get(sv, k)));
            doc::lines_view(final(lines)@) == doc::lines_view(old(lines)@) + seq![
                "## Settings"@,
                Seq::empty(),
                "| Setting | Value |"@,
                "|---------|-------|"@,
                "| File | `"@ + doc::str_or(json::Json::opt_get(sv, "file"@), "src/libraries/Pool.sol"@) + "` |"@,
                "| Target position | line "@ + n("line"@) + ", col "@ + n("col"@) + " |"@,
                "| Iterations | "@ + n("iterations"@) + " |"@,
                "| Warmup | "@ + n("warmup"@) + " |"@,
                "| Request timeout | "@ + n("timeout_secs"@) + "s |"@,
                "| Index timeout | "@ + n("index_timeout_secs"@) + "s |"@,
                Seq::empty(),
            ]
        }),
{
    let ghost start = doc::lines_view(lines@);
    let ghost sv = match st {
        Some(x) => Some(x@),
        None => None,
    };
    push_line(lines, line_of("## Settings"));
    push_line(lines, empty_line());
    push_line(lines, line_of("| Setting | Value |"));
    push_line(lines, line_of("|---------|-------|"));
    let file = str_or_exec(member(st, "file"), "src/libraries/Pool.sol");
    push_line(lines, cat_str(cat(line_of("| File | `"), file.as_slice()), "` |"));
    let mut l = line_of("| Target position | line ");
    doc::push_u64(&mut l, doc::u64_or_zero_exec(member(st, "line")));
    l = cat_str(l, ", col ");
    doc::push_u64(&mut l, doc::u64_or_zero_exec(member(st, "col")));
    push_line(lines, cat_str(l, " |"));
    let mut l = line_of("| Iterations | ");
    doc::push_u64(&mut l, doc::u64_or_zero_exec(member(st, "iterations")));
    push_line(lines, cat_str(l, " |"));
    let mut l = line_of("| Warmup | ");
    doc::push_u64(&mut l, doc::u64_or_zero_exec(member(st, "warmup")));
    push_line(lines, cat_str(l, " |"));
    let mut l = line_of("| Request timeout | ");
    doc::push_u64(&mut l, doc::u64_or_zero_exec(member(st, "timeout_secs")));
    push_line(lines, cat_str(l, "s |"));
    let mut l = line_of("| Index timeout | ");
    doc::push_u64(&mut l, doc::u64_or_zero_exec(member(st, "index_timeout_secs")));
    push_line(lines, cat_str(l, "s |"));
    push_line(lines, empty_line());
    proof {
        reveal_strlit("");
        assert(""@ =~= Seq::<char>::empty());
    }
    assert(doc::lines_view(lines@) =~= start + seq![
        "## Settings"@,
        Seq::empty(),
        "| Setting | Value |"@,
        "|---------|-------|"@,
        "| File | `"@ + doc::str_or(json::Json::opt_get(sv, "file"@), "src/libraries/Pool.sol"@) + "` |"@,
        "| Target position | line "@ + text::dec(doc::u64_or_zero(json::Json::opt_get(sv, "line"@))) + ", col "@
            + text::dec(doc::u64_or_zero(json::Json::opt_get(sv, "col"@))) + " |"@,
        "| Iterations | "@ + text::dec(doc::u64_or_zero(json::Json::opt_get(sv, "iterations"@))) + " |"@,
        "| Warmup | "@ + text::dec(doc::u64_or_zero(json::Json::opt_get(sv, "warmup"@))) + " |"@,
        "| Request timeout | "@ + text::dec(doc::u64_or_zero(json::Json::opt_get(sv, "timeout_secs"@))) + "s |"@,
        "| Index timeout | "@ + text::dec(doc::u64_or_zero(json::Json::opt_get(sv, "index_timeout_secs"@))) + "s |"@,
        Seq::empty(),
    ]);
}

fn trophy_mark_exec(tr: &Option<Vec<char>>, name: &str) -> (r: Vec<char>)
    ensures
        r@ == trophy_mark(session_opt(*tr), name@),
{
    let is = match tr {
        Some(t) => {
            let nc = chars_of(name);
            let eq = t.len() == nc.len() && text::starts_with_exec(t.as_slice(), nc.as_slice());
            proof {
                if eq {
                    assert(t@ =~= nc@);
                }
                if t@ == name@ {
                    assert(t@.subrange(0, nc@.len() as int) =~= nc@);
                }
            }
            eq
        },
        None => false,
    };
    proof {
        reveal_strlit("");
        assert(""@ =~= Seq::<char>::empty());
    }
    if is {
        line_of(" \u{1F3C6}")
    } else {
        Vec::new()
    }
}

pub open spec fn session_opt(o: Option<Vec<char>>) -> Option<Seq<char>> {
    match o {
        Some(t) => Some(t@),
        None => None,
    }
}

fn trophy_rows_exec(tr: &Option<Vec<char>>, names: &Vec<String>, lines: &mut Vec<Vec<char>>)
    ensures
        doc::lines_view(final(lines)@) == doc::lines_view(old(lines)@) + seq![
            trophy_header(session_opt(*tr), analysis::strings_of(names@), names@.len() as int),
            trophy_sep(session_opt(*tr), analysis::strings_of(names@), names@.len() as int),
        ],
{
    let ghost ns = analysis::strings_of(names@);
    let ghost tv = session_opt(*tr);
    let mut h = line_of("| Benchmark |");
    let mut sp = line_of("|-----------|");
    let mut k: usize = 0;
    while k < names.len()
        invariant
            k <= names@.len(),
            ns == analysis::strings_of(names@),
            tv == session_opt(*tr),
            h@ == trophy_header(tv, ns, k as int),
            sp@ == trophy_sep(tv, ns, k as int),
        decreases names.len() - k,
    {
        let mark = trophy_mark_exec(tr, names[k].as_str());
        h = cat_str(cat(cat_str(cat_str(h, " "), names[k].as_str()), mark.as_slice()), " |");
        let nb = doc::byte_len(names[k].as_str());
        let ms = text::string_of(mark.as_slice());
        let mb = doc::byte_len(ms.as_str());
        let ghost before = sp@;
        doc::push_dashes(&mut sp, nb + mb + 2);
        sp.push('|');
        proof {
            reveal_strlit("|");
            assert(sp@ =~= before + doc::dashes((nb + mb + 2) as nat) + "|"@);
        }
        k += 1;
    }
    push_line(lines, h);
    push_line(lines, sp);
}

fn summary_cell_exec(srv: &JsonValue, times: Option<&ServerTimes>, medal: u8) -> (r: Vec<char>)
    ensures
        r@ == summary_cell(
            srv@,
            match times {
                Some(x) => x@,
                None => Times { mean_key: None, mean_cell: "0.0"@, mean: "-"@, p50: "-"@, p95: "-"@ },
            },
            medal as nat,
        ),
{
    let status = str_or_exec(srv.get("status"), "");
    let st = text::string_of(status.as_slice());
    proof {
        reveal_strlit("");
        assert(""@ =~= Seq::<char>::empty());
    }
    if crate::json::str_eq(st.as_str(), "ok") {
        let cell: Vec<char> = match times {
            Some(x) => chars_of(x.mean_cell.as_str()),
            None => line_of("0.0"),
        };
        let l = cat_str(cat(line_of(" "), cell.as_slice()), "ms");
        let l = if medal == 0 {
            l
        } else {
            let icon = if medal == 1 {
                line_of("\u{1F947}")
            } else if medal == 2 {
                line_of("\u{1F948}")
            } else if medal == 3 {
                line_of("\u{1F949}")
            } else {
                proof {
                    assert(medal_icon(medal as nat) == Seq::<char>::empty());
                }
                Vec::new()
            };
            cat(cat_str(l, " "), icon.as_slice())
        };
        cat_str(l, " |")
    } else if crate::json::str_eq(st.as_str(), "invalid") {
        let rs = report::response_text(srv);
        if text::str_contains(rs.as_str(), "Unknown method") || text::str_contains(rs.as_str(), "unsupported") {
            line_of(" unsupported |")
        } else {
            line_of(" - |")
        }
    } else {
        let error = str_or_exec(srv.get("error"), "");
        let es = text::string_of(error.as_slice());
        if text::str_contains(es.as_str(), "timeout") {
            line_of(" timeout |")
        } else {
            line_of(" FAIL |")
        }
    }
}

fn medal_exec(m: &Vec<Vec<u8>>, i: usize, j: usize) -> (r: u8)
    ensures
        r as nat == medal_at(codes_view(m@), i as int, j as int),
{
    if i < m.len() && j < m[i].len() {
        m[i][j]
    } else {
        0
    }
}

fn result_rows_exec(bs: &Vec<JsonValue>, times: &Vec<Vec<ServerTimes>>, m: &Vec<Vec<u8>>, lines: &mut Vec<Vec<char>>)
    ensures
        doc::lines_view(final(lines)@) == doc::lines_view(old(lines)@) + result_rows(
            bs@.map_values(|x: JsonValue| x@),
            times_view(times@),
            codes_view(m@),
            bs@.len() as int,
        ),
{
    let ghost sb = bs@.map_values(|x: JsonValue| x@);
    let ghost tv = times_view(times@);
    let ghost mv = codes_view(m@);
    let ghost start = doc::lines_view(lines@);
    let mut i: usize = 0;
    assert(doc::lines_view(lines@) =~= start + result_rows(sb, tv, mv, 0));
    while i < bs.len()
        invariant
            i <= bs@.len(),
            sb == bs@.map_values(|x: JsonValue| x@),
            tv == times_view(times@),
            mv == codes_view(m@),
            start == doc::lines_view(old(lines)@),
            doc::lines_view(lines@) == start + result_rows(sb, tv, mv, i as int),
        decreases bs.len() - i,
    {
        assert(sb[i as int] == bs@[i as int]@);
        let name = str_or_exec(bs[i].get("name"), "?");
        let ns = text::string_of(name.as_slice());
        let sl = render::slug(ns.as_str());
        let mut l = cat_str(cat_str(cat_str(cat_str(line_of("| ["), ns.as_str()), "](#"), sl.as_str()), ") |");
        let ss = match bs[i].get("servers") {
            Some(x) => x.as_array(),
            None => None,
        };
        match ss {
            Some(ss) => {
                let ghost sv = ss@.map_values(|x: JsonValue| x@);
                let ghost l0 = l@;
                let mut j: usize = 0;
                while j < ss.len()
                    invariant
                        j <= ss@.len(),
                        sv == ss@.map_values(|x: JsonValue| x@),
                        tv == times_view(times@),
                        mv == codes_view(m@),
                        l@ == l0 + summary_cells(sv, tv, mv, i as int, j as int),
                    decreases ss.len() - j,
                {
                    assert(sv[j as int] == ss@[j as int]@);
                    let c = summary_cell_exec(&ss[j], times_exec(times, i, j), medal_exec(m, i, j));
                    l = cat(l, c.as_slice());
                    j += 1;
                }
            },
            None => {},
        }
        push_line(lines, l);
        i += 1;
        assert(doc::lines_view(lines@) =~= start + result_rows(sb, tv, mv, i as int));
    }
}

pub open spec fn score4(e: (Vec<char>, u128, u128, u128)) -> nat {
    score((e.0@, e.1 as nat, e.2 as nat, e.3 as nat))
}

proof fn lemma_insert_by_score(s: Seq<(Seq<char>, nat, nat, nat)>, x: (Seq<char>, nat, nat, nat), p: int)
    requires
        0 <= p <= s.len(),
        forall|m: int| p <= m < s.len() ==> score(#[trigger] s[m]) < score(x),
        p == 0 || score(s[p - 1]) >= score(x),
    ensures
        insert_by_score(s, x) == s.subrange(0, p).push(x) + s.subrange(p, s.len() as int),
    decreases s.len(),
{
    if s.len() == 0 || p == s.len() {
        assert(s.subrange(0, p).push(x) + s.subrange(p, s.len() as int) =~= s.push(x));
    } else {
        assert(score(s[s.len() - 1]) < score(x));
        let t = s.drop_last();
        assert forall|m: int| p <= m < t.len() implies score(#[trigger] t[m]) < score(x) by {
            assert(t[m] == s[m]);
        }
        if p > 0 {
            assert(t[p - 1] == s[p - 1]);
        }
        lemma_insert_by_score(t, x, p);
        assert(t.subrange(0, p) =~= s.subrange(0, p));
        assert((t.subrange(0, p).push(x) + t.subrange(p, t.len() as int)).push(s.last())
            =~= s.subrange(0, p).push(x) + s.subrange(p, s.len() as int));
    }
}

fn score_exec(e: &(Vec<char>, u128, u128, u128)) -> (r: u128)
    requires
        e.1 <= 0xffff_ffff_ffff_ffff,
        e.2 <= 0xffff_ffff_ffff_ffff,
        e.3 <= 0xffff_ffff_ffff_ffff,
    ensures
        r == score4(*e),
{
    e.1 * 3 + e.2 * 2 + e.3
}

fn sort_by_score_exec(t: &Vec<(Vec<char>, u128, u128, u128)>) -> (r: Vec<(Vec<char>, u128, u128, u128)>)
    requires
        forall|k: int| 0 <= k < t@.len() ==> (#[trigger] t@[k]).1 <= 0xffff_ffff_ffff_ffff && t@[k].2 <= 0xffff_ffff_ffff_ffff && t@[k].3 <= 0xffff_ffff_ffff_ffff,
    ensures
        tally4_view(r@) == sort_by_score(tally4_view(t@)),
        forall|k: int| 0 <= k < r@.len() ==> (#[trigger] r@[k]).1 <= 0xffff_ffff_ffff_ffff && r@[k].2 <= 0xffff_ffff_ffff_ffff && r@[k].3 <= 0xffff_ffff_ffff_ffff,
{
    let ghost tv = tally4_view(t@);
    let mut out: Vec<(Vec<char>, u128, u128, u128)> = Vec::new();
    let mut i: usize = 0;
    assert(tv.subrange(0, 0) =~= Seq::<(Seq<char>, nat, nat, nat)>::empty());
    assert(tally4_view(out@) =~= Seq::<(Seq<char>, nat, nat, nat)>::empty());
    while i < t.len()
        invariant
            i <= t@.len(),
            tv == tally4_view(t@),
            forall|k: int| 0 <= k < t@.len() ==> (#[trigger] t@[k]).1 <= 0xffff_ffff_ffff_ffff && t@[k].2 <= 0xffff_ffff_ffff_ffff && t@[k].3 <= 0xffff_ffff_ffff_ffff,
            forall|k: int| 0 <= k < out@.len() ==> (#[trigger] out@[k]).1 <= 0xffff_ffff_ffff_ffff && out@[k].2 <= 0xffff_ffff_ffff_ffff && out@[k].3 <= 0xffff_ffff_ffff_ffff,
            tally4_view(out@) == sort_by_score(tv.subrange(0, i as int)),
        decreases t.len() - i,
    {
        let x = (text::slice_of(t[i].0.as_slice(), 0, t[i].0.len()), t[i].1, t[i].2, t[i].3);
        assert(x.0@ =~= t@[i as int].0@);
        let xs = score_exec(&x);
        let ghost sv = tally4_view(out@);
        let ghost xv = (x.0@, x.1 as nat, x.2 as nat, x.3 as nat);
        let mut k: usize = out.len();
        while k > 0 && score_exec(&out[k - 1]) < xs
            invariant
                k <= out@.len(),
                sv == tally4_view(out@),
                xv == (x.0@, x.1 as nat, x.2 as nat, x.3 as nat),
                xs == score(xv),
                forall|q: int| 0 <= q < out@.len() ==> (#[trigger] out@[q]).1 <= 0xffff_ffff_ffff_ffff && out@[q].2 <= 0xffff_ffff_ffff_ffff && out@[q].3 <= 0xffff_ffff_ffff_ffff,
                forall|m: int| k <= m < sv.len() ==> score(#[trigger] sv[m]) < score(xv),
            decreases k,
        {
            k -= 1;
        }
        proof {
            lemma_insert_by_score(sv, xv, k as int);
            assert(tv.subrange(0, i + 1).drop_last() =~= tv.subrange(0, i as int));
            assert(tv.subrange(0, i + 1).last() == xv);
        }
        let ghost before = out@;
        out.insert(k, x);
        assert(tally4_view(out@) =~= sv.subrange(0, k as int).push(xv) + sv.subrange(k as int, sv.len() as int));
        assert forall|q: int| 0 <= q < out@.len() implies (#[trigger] out@[q]).1 <= 0xffff_ffff_ffff_ffff && out@[q].2 <= 0xffff_ffff_ffff_ffff && out@[q].3 <= 0xffff_ffff_ffff_ffff by {
            if q < k {
                assert(out@[q] == before[q]);
            } else if q > k {
                assert(out@[q] == before[q - 1]);
            }
        }
        i += 1;
    }
    assert(tv.subrange(0, t@.len() as int) =~= tv);
    out
}

fn tally_rows_exec(rows: &Vec<(Vec<char>, u128, u128, u128)>, tr: &Option<Vec<char>>, lines: &mut Vec<Vec<char>>)
    requires
        forall|k: int| 0 <= k < rows@.len() ==> (#[trigger] rows@[k]).1 <= 0xffff_ffff_ffff_ffff && rows@[k].2 <= 0xffff_ffff_ffff_ffff && rows@[k].3 <= 0xffff_ffff_ffff_ffff,
    ensures
        doc::lines_view(final(lines)@) == doc::lines_view(old(lines)@) + tally_rows(
            tally4_view(rows@),
            session_opt(*tr),
            rows@.len() as int,
        ),
{
    let ghost rv = tally4_view(rows@);
    let ghost start = doc::lines_view(lines@);
    let mut k: usize = 0;
    assert(doc::lines_view(lines@) =~= start + tally_rows(rv, session_opt(*tr), 0));
    while k < rows.len()
        invariant
            k <= rows@.len(),
            rv == tally4_view(rows@),
            start == doc::lines_view(old(lines)@),
            forall|q: int| 0 <= q < rows@.len() ==> (#[trigger] rows@[q]).1 <= 0xffff_ffff_ffff_ffff && rows@[q].2 <= 0xffff_ffff_ffff_ffff && rows@[q].3 <= 0xffff_ffff_ffff_ffff,
            doc::lines_view(lines@) == start + tally_rows(rv, session_opt(*tr), k as int),
        decreases rows.len() - k,
    {
        let e = &rows[k];
        let ns = text::string_of(e.0.as_slice());
        let mark = trophy_mark_exec(tr, ns.as_str());
        let sc = score_exec(e);
        let mut l = cat(cat_str(cat(line_of("| **"), e.0.as_slice()), "**"), mark.as_slice());
        l = cat_str(l, " | ");
        text::extend(&mut l, text::dec_u128(e.1).as_slice());
        l = cat_str(l, " | ");
        text::extend(&mut l, text::dec_u128(e.2).as_slice());
        l = cat_str(l, " | ");
        text::extend(&mut l, text::dec_u128(e.3).as_slice());
        l = cat_str(l, " | ");
        text::extend(&mut l, text::dec_u128(sc).as_slice());
        l = cat_str(l, " |");
        push_line(lines, l);
        k += 1;
        assert(doc::lines_view(lines@) =~= start + tally_rows(rv, session_opt(*tr), k as int));
    }
}

#[verifier::rlimit(40)]
fn results_exec(bs: &Vec<JsonValue>, times: &Vec<Vec<ServerTimes>>, names: &Vec<String>, lines: &mut Vec<Vec<char>>)
    ensures
        doc::lines_view(final(lines)@) == doc::lines_view(old(lines)@) + results_section(
            bs@.map_values(|x: JsonValue| x@),
            times_view(times@),
            analysis::strings_of(names@),
        ),
{
    let ghost sb = bs@.map_values(|x: JsonValue| x@);
    let ghost tv = times_view(times@);
    let ghost ns = analysis::strings_of(names@);
    let ghost start = doc::lines_view(lines@);
    let (m, golds) = medal_rows_exec(bs, times);
    let tr: Option<Vec<char>> = match most_wins_exec(&golds) {
        Some(k) => Some(text::slice_of(golds[k].0.as_slice(), 0, golds[k].0.len())),
        None => None,
    };
    proof {
        let w = competition::tally_view(golds@);
        if session_opt(tr) is Some {
            let best = most_wins(w, w.len() as int)->0;
            assert(session_opt(tr)->0 =~= best.0);
        }
        assert(session_opt(tr) == trophy(sb, tv));
    }
    push_line(lines, line_of("## Results"));
    push_line(lines, empty_line());
    trophy_rows_exec(&tr, names, lines);
    result_rows_exec(bs, times, &m, lines);
    push_line(lines, empty_line());
    let ghost mid = doc::lines_view(lines@);
    match &tr {
        Some(win) => {
            let ws = text::string_of(win.as_slice());
            let g = lookup_wins_bounded(&golds, win.as_slice(), bs.len());
            let mut l = cat_str(cat(line_of("> **\u{1F3C6} Overall Winner: "), win.as_slice()), "** \u{2014} ");
            text::extend(&mut l, text::dec_u128(g).as_slice());
            l = cat_str(l, " \u{1F947} out of ");
            doc::push_u64(&mut l, bs.len() as u64);
            push_line(lines, cat_str(l, " benchmarks"));
            push_line(lines, empty_line());
            push_line(lines, line_of("### Medal Tally"));
            push_line(lines, empty_line());
            push_line(lines, line_of("| Server | \u{1F947} Gold | \u{1F948} Silver | \u{1F949} Bronze | Score |"));
            push_line(lines, line_of("|--------|------|----------|----------|-------|"));
            let t = tally_exec(&golds, &m, names);
            let sorted = sort_by_score_exec(&t);
            tally_rows_exec(&sorted, &tr, lines);
            push_line(lines, empty_line());
            proof {
                assert(analysis::strings_of(names@) == ns);
                assert(tally4_view(t@) =~= tally(sb, tv, ns));
            }
        },
        None => {},
    }
    proof {
        assert(doc::strings_view(names@) =~= ns);
    }
    assert(doc::lines_view(lines@) =~= start + results_section(sb, tv, ns));
}

fn carries_response_exec(r: Option<&JsonValue>) -> (b: bool)
    ensures
        b == report::carries_response(match r {
            Some(v) => Some(v@),
            None => None,
        }),
{
    match r {
        Some(JsonValue::String(s)) => {
            !crate::json::str_eq(s.as_str(), "null") && !crate::json::str_eq(s.as_str(), "no result")
                && text::chars_of(s.as_str()).len() > 0
        },
        Some(JsonValue::Array(a)) => a.len() > 0,
        Some(JsonValue::Object(m)) => m.len() > 0,
        Some(JsonValue::Null) => false,
        Some(_) => true,
        None => false,
    }
}

fn support_icon_exec(srv: &JsonValue) -> (r: Vec<char>)
    ensures
        r@ == support_icon(srv@),
{
    let status = text::string_of(str_or_exec(srv.get("status"), "").as_slice());
    let response = report::response_text(srv);
    let error = text::string_of(str_or_exec(srv.get("error"), "").as_slice());
    proof {
        reveal_strlit("");
        assert(""@ =~= Seq::<char>::empty());
    }
    let ok = crate::json::str_eq(status.as_str(), "ok");
    let carries = carries_response_exec(srv.get("response"));
    if ok && carries && !crate::json::str_eq(response.as_str(), "[]") {
        line_of("\u{2705}")
    } else if text::str_contains(response.as_str(), "Unknown method") || text::str_contains(response.as_str(), "unsupported") {
        line_of("\u{274C}")
    } else if text::str_contains(error.as_str(), "timeout") {
        line_of("\u{23F3}")
    } else if ok {
        line_of("\u{26A0}\u{FE0F}")
    } else {
        line_of("\u{274C}")
    }
}

fn support_exec(bs: &Vec<JsonValue>, names: &Vec<String>, lines: &mut Vec<Vec<char>>)
    ensures
        doc::lines_view(final(lines)@) == doc::lines_view(old(lines)@) + support_section(
            bs@.map_values(|x: JsonValue| x@),
            analysis::strings_of(names@),
        ),
{
    let ghost sb = bs@.map_values(|x: JsonValue| x@);
    let ghost start = doc::lines_view(lines@);
    push_line(lines, line_of("## Feature Support"));
    push_line(lines, empty_line());
    push_line(lines, doc::names_header_exec("| Feature |", names));
    push_line(lines, doc::names_sep_exec("|---------|", names));
    let ghost c = doc::lines_view(lines@);
    let mut i: usize = 0;
    assert(doc::lines_view(lines@) =~= c + support_rows(sb, 0));
    while i < bs.len()
        invariant
            i <= bs@.len(),
            sb == bs@.map_values(|x: JsonValue| x@),
            doc::lines_view(lines@) == c + support_rows(sb, i as int),
        decreases bs.len() - i,
    {
        assert(sb[i as int] == bs@[i as int]@);
        let name = str_or_exec(bs[i].get("name"), "?");
        let mut l = cat_str(cat(line_of("| "), name.as_slice()), " |");
        let ss = match bs[i].get("servers") {
            Some(x) => x.as_array(),
            None => None,
        };
        match ss {
            Some(ss) => {
                let ghost sv = ss@.map_values(|x: JsonValue| x@);
                let ghost l0 = l@;
                let mut j: usize = 0;
                while j < ss.len()
                    invariant
                        j <= ss@.len(),
                        sv == ss@.map_values(|x: JsonValue| x@),
                        l@ == l0 + support_cells(sv, j as int),
                    decreases ss.len() - j,
                {
                    assert(sv[j as int] == ss@[j as int]@);
                    let icon = support_icon_exec(&ss[j]);
                    l = cat_str(cat(cat_str(l, " "), icon.as_slice()), " |");
                    j += 1;
                }
            },
            None => {},
        }
        push_line(lines, l);
        i += 1;
        assert(doc::lines_view(lines@) =~= c + support_rows(sb, i as int));
    }
    push_line(lines, empty_line());
    push_line(lines, line_of("> \u{2705} = valid response \u{2003} \u{26A0}\u{FE0F} = empty/null result \u{2003} \u{23F3} = timeout \u{2003} \u{274C} = unsupported / failed"));
    push_line(lines, empty_line());
    assert(doc::strings_view(names@) =~= analysis::strings_of(names@));
    assert(doc::lines_view(lines@) =~= start + support_section(sb, analysis::strings_of(names@)));
}

fn status_display_exec(srv: &JsonValue) -> (r: Vec<char>)
    ensures
        r@ == status_display(srv@),
{
    let status = text::string_of(str_or_exec(srv.get("status"), "").as_slice());
    proof {
        reveal_strlit("");
        assert(""@ =~= Seq::<char>::empty());
    }
    if crate::json::str_eq(status.as_str(), "ok") {
        line_of("\u{2705} ok")
    } else if crate::json::str_eq(status.as_str(), "invalid") {
        line_of("\u{26A0}\u{FE0F} invalid")
    } else {
        let err = str_or_exec(srv.get("error"), "fail");
        cat(line_of("\u{274C} "), err.as_slice())
    }
}

fn latency_rows_exec(ss: &Vec<JsonValue>, times: &Vec<Vec<ServerTimes>>, i: usize, lines: &mut Vec<Vec<char>>)
    ensures
        doc::lines_view(final(lines)@) == doc::lines_view(old(lines)@) + latency_rows(
            ss@.map_values(|x: JsonValue| x@),
            times_view(times@),
            i as int,
            ss@.len() as int,
        ),
{
    let ghost sv = ss@.map_values(|x: JsonValue| x@);
    let ghost tv = times_view(times@);
    let ghost start = doc::lines_view(lines@);
    let mut j: usize = 0;
    assert(doc::lines_view(lines@) =~= start + latency_rows(sv, tv, i as int, 0));
    while j < ss.len()
        invariant
            j <= ss@.len(),
            sv == ss@.map_values(|x: JsonValue| x@),
            tv == times_view(times@),
            start == doc::lines_view(old(lines)@),
            doc::lines_view(lines@) == start + latency_rows(sv, tv, i as int, j as int),
        decreases ss.len() - j,
    {
        assert(sv[j as int] == ss@[j as int]@);
        let name = str_or_exec(ss[j].get("server"), "?");
        let st = status_display_exec(&ss[j]);
        let (mean, p50, p95) = match times_exec(times, i, j) {
            Some(x) => (chars_of(x.mean.as_str()), chars_of(x.p50.as_str()), chars_of(x.p95.as_str())),
            None => (line_of("-"), line_of("-"), line_of("-")),
        };
        let l = cat_str(cat(line_of("| **"), name.as_slice()), "** | ");
        let l = cat_str(cat(l, st.as_slice()), " | ");
        let l = cat_str(cat(l, mean.as_slice()), " | ");
        let l = cat_str(cat(l, p50.as_slice()), " | ");
        let l = cat_str(cat(l, p95.as_slice()), " |");
        push_line(lines, l);
        j += 1;
        assert(doc::lines_view(lines@) =~= start + latency_rows(sv, tv, i as int, j as int));
    }
}

fn response_detail_exec(s: &JsonValue, lines: &mut Vec<Vec<char>>) -> (ok: bool)
    ensures
        ok == (response_detail(s@) is Some),
        ok ==> doc::lines_view(final(lines)@) == doc::lines_view(old(lines)@) + response_detail(s@)->0,
{
    let ghost start = doc::lines_view(lines@);
    let status = text::string_of(str_or_exec(s.get("status"), "").as_slice());
    proof {
        reveal_strlit("");
        assert(""@ =~= Seq::<char>::empty());
    }
    let name = str_or_exec(s.get("server"), "?");
    let head = cat_str(cat(line_of("**"), name.as_slice()), "**");
    if crate::json::str_eq(status.as_str(), "ok") || crate::json::str_eq(status.as_str(), "invalid") {
        let resp = match s.get("response") {
            Some(_) => report::response_text(s),
            None => "(no response)".to_owned(),
        };
        match truncate_response_opt(resp.as_str(), 200) {
            Some(t) => {
                push_line(lines, head);
                push_line(lines, empty_line());
                push_line(lines, line_of("```json"));
                push_line(lines, t);
                push_line(lines, line_of("```"));
                push_line(lines, empty_line());
                assert(doc::lines_view(lines@) =~= start + response_detail(s@)->0);
                true
            },
            None => false,
        }
    } else {
        push_line(lines, head);
        push_line(lines, empty_line());
        let err = str_or_exec(s.get("error"), "unknown error");
        push_line(lines, cat_str(cat(line_of("Error: `"), err.as_slice()), "`"));
        push_line(lines, empty_line());
        assert(doc::lines_view(lines@) =~= start + response_detail(s@)->0);
        true
    }
}

fn truncate_response_opt(s: &str, max: usize) -> (r: Option<Vec<char>>)
    ensures
        session_opt(r) == render::truncate_response_spec(s@, max as nat),
{
    let cs = chars_of(s);
    match render::byte_cut(cs.as_slice(), max) {
        Some(i) => {
            proof {
                let j = choose|j: int| 0 <= j <= s@.len() && text::utf8_len(s@.subrange(0, j)) == max;
                render::lemma_prefix_unique(s@, i as int, j);
            }
            if render::fits(cs.as_slice(), max) {
                return Some(cs);
            }
            let p = text::slice_of(cs.as_slice(), 0, i);
            proof {
                text::lemma_rfind_char_bound(p@, '\n');
            }
            let r = match text::rfind_char_exec(p.as_slice(), '\n') {
                Some(k) => text::slice_of(p.as_slice(), 0, k),
                None => p,
            };
            Some(cat_str(r, "..."))
        },
        None => {
            if render::fits(cs.as_slice(), max) {
                Some(cs)
            } else {
                None
            }
        },
    }
}

proof fn lemma_response_details_none(ss: Seq<json::Json>, n: int, m: int)
    requires
        1 <= n <= m <= ss.len(),
        response_details(ss, n) is None,
    ensures
        response_details(ss, m) is None,
    decreases m - n,
{
    if n < m {
        lemma_response_details_none(ss, n, m - 1);
    }
}

fn response_details_exec(ss: &Vec<JsonValue>, lines: &mut Vec<Vec<char>>) -> (ok: bool)
    ensures
        ok == (response_details(ss@.map_values(|x: JsonValue| x@), ss@.len() as int) is Some),
        ok ==> doc::lines_view(final(lines)@) == doc::lines_view(old(lines)@) + response_details(
            ss@.map_values(|x: JsonValue| x@),
            ss@.len() as int,
        )->0,
{
    let ghost sv = ss@.map_values(|x: JsonValue| x@);
    let ghost start = doc::lines_view(lines@);
    let mut j: usize = 0;
    assert(doc::lines_view(lines@) =~= start + Seq::<Seq<char>>::empty());
    while j < ss.len()
        invariant
            j <= ss@.len(),
            sv == ss@.map_values(|x: JsonValue| x@),
            start == doc::lines_view(old(lines)@),
            response_details(sv, j as int) is Some,
            doc::lines_view(lines@) == start + response_details(sv, j as int)->0,
        decreases ss.len() - j,
    {
        assert(sv[j as int] == ss@[j as int]@);
        let ghost prev = response_details(sv, j as int)->0;
        if !response_detail_exec(&ss[j], lines) {
            proof {
                lemma_response_details_none(sv, j as int + 1, sv.len() as int);
            }
            return false;
        }
        proof {
            let add = response_detail(sv[j as int])->0;
            assert(response_details(sv, j + 1) == Some(prev + add));
            assert(doc::lines_view(lines@) =~= start + (prev + add));
        }
        j += 1;
    }
    true
}

fn detail_exec(b: &JsonValue, times: &Vec<Vec<ServerTimes>>, i: usize, lines: &mut Vec<Vec<char>>) -> (ok: bool)
    ensures
        ok == (detail(b@, times_view(times@), i as int) is Some),
        ok ==> doc::lines_view(final(lines)@) == doc::lines_view(old(lines)@) + detail(b@, times_view(times@), i as int)->0,
{
    let ghost start = doc::lines_view(lines@);
    let name = str_or_exec(b.get("name"), "?");
    push_line(lines, cat(line_of("### "), name.as_slice()));
    push_line(lines, empty_line());
    let ss = match b.get("servers") {
        Some(x) => x.as_array(),
        None => None,
    };
    match ss {
        Some(ss) => {
            push_line(lines, line_of("| Server | Status | Mean | P50 | P95 |"));
            push_line(lines, line_of("|--------|--------|------|-----|-----|"));
            latency_rows_exec(ss, times, i, lines);
            push_line(lines, empty_line());
            push_line(lines, line_of("<details>"));
            push_line(lines, line_of("<summary>Response details</summary>"));
            push_line(lines, empty_line());
            if !response_details_exec(ss, lines) {
                return false;
            }
            push_line(lines, line_of("</details>"));
            push_line(lines, empty_line());
            assert(doc::lines_view(lines@) =~= start + detail(b@, times_view(times@), i as int)->0);
            true
        },
        None => {
            assert(doc::lines_view(lines@) =~= start + detail(b@, times_view(times@), i as int)->0);
            true
        },
    }
}

proof fn lemma_details_none(bs: Seq<json::Json>, t: Seq<Seq<Times>>, n: int, m: int)
    requires
        1 <= n <= m <= bs.len(),
        details(bs, t, n) is None,
    ensures
        details(bs, t, m) is None,
    decreases m - n,
{
    if n < m {
        lemma_details_none(bs, t, n, m - 1);
    }
}

fn details_exec(bs: &Vec<JsonValue>, times: &Vec<Vec<ServerTimes>>, lines: &mut Vec<Vec<char>>) -> (ok: bool)
    ensures
        ok == (details(bs@.map_values(|x: JsonValue| x@), times_view(times@), bs@.len() as int) is Some),
        ok ==> doc::lines_view(final(lines)@) == doc::lines_view(old(lines)@) + details(
            bs@.map_values(|x: JsonValue| x@),
            times_view(times@),
            bs@.len() as int,
        )->0,
{
    let ghost sb = bs@.map_values(|x: JsonValue| x@);
    let ghost tv = times_view(times@);
    let ghost start = doc::lines_view(lines@);
    let mut i: usize = 0;
    assert(doc::lines_view(lines@) =~= start + Seq::<Seq<char>>::empty());
    while i < bs.len()
        invariant
            i <= bs@.len(),
            sb == bs@.map_values(|x: JsonValue| x@),
            tv == times_view(times@),
            start == doc::lines_view(old(lines)@),
            details(sb, tv, i as int) is Some,
            doc::lines_view(lines@) == start + details(sb, tv, i as int)->0,
        decreases bs.len() - i,
    {
        assert(sb[i as int] == bs@[i as int]@);
        let ghost prev = details(sb, tv, i as int)->0;
        if !detail_exec(&bs[i], times, i, lines) {
            proof {
                lemma_details_none(sb, tv, i as int + 1, sb.len() as int);
            }
            return false;
        }
        proof {
            let add = detail(sb[i as int], tv, i as int)->0;
            assert(details(sb, tv, i + 1) == Some(prev + add));
            assert(doc::lines_view(lines@) =~= start + (prev + add));
        }
        i += 1;
    }
    true
}

fn body_exec(data: &JsonValue, times: &Vec<Vec<ServerTimes>>, lines: &mut Vec<Vec<char>>) -> (ok: bool)
    ensures
        ok == (readme_body(data@, times_view(times@)) is Some),
        ok ==> doc::lines_view(final(lines)@) == doc::lines_view(old(lines)@) + readme_body(data@, times_view(times@))->0,
{
    let ghost start = doc::lines_view(lines@);
    let bs = match data.get("benchmarks") {
        Some(b) => b.as_array(),
        None => None,
    };
    match bs {
        Some(bs) => {
            if bs.len() > 0 {
                let ghost sb = bs@.map_values(|x: JsonValue| x@);
                assert(sb[0] == bs@[0]@);
                let names = report::collect_server_names(bs);
                proof {
                    assert(analysis::strings_of(names@) =~= match analysis::servers_in(sb[0]) {
                        Some(ss) => report::server_names_of(ss),
                        None => Seq::<Seq<char>>::empty(),
                    });
                }
                results_exec(bs, times, &names, lines);
                support_exec(bs, &names, lines);
                push_line(lines, line_of("---"));
                push_line(lines, empty_line());
                push_line(lines, line_of("## Detailed Results"));
                push_line(lines, empty_line());
                if !details_exec(bs, times, lines) {
                    return false;
                }
                assert(doc::lines_view(lines@) =~= start + readme_body(data@, times_view(times@))->0);
                true
            } else {
                assert(doc::lines_view(lines@) =~= start + Seq::<Seq<char>>::empty());
                true
            }
        },
        None => {
            assert(doc::lines_view(lines@) =~= start + Seq::<Seq<char>>::empty());
            true
        },
    }
}

fn footer_exec(data: &JsonValue, json_path: &str, lines: &mut Vec<Vec<char>>)
    ensures
        doc::lines_view(final(lines)@) == doc::lines_view(old(lines)@) + readme_footer(data@, json_path@),
{
    let ghost start = doc::lines_view(lines@);
    push_line(lines, line_of("---"));
    push_line(lines, empty_line());
    let ts = match data.get("timestamp") {
        Some(x) => x.as_str(),
        None => None,
    };
    match ts {
        Some(t) => {
            let l = cat_str(cat_str(cat_str(cat_str(line_of("*Generated from [`"), json_path), "`]("), json_path), ") — benchmark run: ");
            push_line(lines, cat_str(cat_str(l, t), "*"));
            push_line(lines, empty_line());
        },
        None => {},
    }
    push_line(lines, line_of("See [DOCS.md](./DOCS.md) for usage and installation."));
    push_line(lines, empty_line());
    assert(doc::lines_view(lines@) =~= start + readme_footer(data@, json_path@));
}

fn readme_opt(data: &JsonValue, json_path: &str, times: &Vec<Vec<ServerTimes>>) -> (r: Option<String>)
    ensures
        text::opt_view(r) == readme(data@, json_path@, times_view(times@)),
{
    let mut lines: Vec<Vec<char>> = Vec::new();
    intro_exec(data, &mut lines);
    assert(doc::lines_view(lines@) =~= readme_intro(data@));
    if !body_exec(data, times, &mut lines) {
        return None;
    }
    footer_exec(data, json_path, &mut lines);
    Some(doc::join_lines(&lines))
}

/// The benchmark README. `times[i][j]` holds what the caller computed from
/// the latencies of server `j` of benchmark `i`.
pub fn generate_readme(data: &JsonValue, json_path: &str, times: &Vec<Vec<ServerTimes>>) -> (r: String)
    requires
        readme(data@, json_path@, times_view(times@)) is Some,
    ensures
        r@ == readme(data@, json_path@, times_view(times@))->0,
{
    match readme_opt(data, json_path, times) {
        Some(s) => s,
        None => String::new(),
    }
}

/// Checked form of `generate_readme`: `None` where a response text would be
/// cut inside a character.
pub fn try_generate_readme(data: &JsonValue, json_path: &str, times: &Vec<Vec<ServerTimes>>) -> (r: Option<String>)
    ensures
        text::opt_view(r) == readme(data@, json_path@, times_view(times@)),
{
    if readme_opt(data, json_path, times).is_some() {
        Some(generate_readme(data, json_path, times))
    } else {
        None
    }
}

} // verus!
