//! The delta report: a two-server comparison table with aligned columns,
//! under a line per server naming its commit and link. The latency and
//! delta cells are floating-point renderings that the caller hands in as
//! text.
use vstd::prelude::*;
use crate::doc;
use crate::json::{self, Json, JsonValue};
use crate::render;
use crate::text::{self, chars_of, extend, extend_str};

verus! {

/// One benchmark's row: its name, the two latency cells, the delta cell and
/// the two memory cells (empty where a server reports no memory).
pub struct DeltaRow {
    pub name: String,
    pub base_ms: String,
    pub head_ms: String,
    pub delta: String,
    pub base_rss: String,
    pub head_rss: String,
}

pub ghost struct Row {
    pub name: Seq<char>,
    pub base_ms: Seq<char>,
    pub head_ms: Seq<char>,
    pub delta: Seq<char>,
    pub base_rss: Seq<char>,
    pub head_rss: Seq<char>,
}

impl View for DeltaRow {
    type V = Row;

    open spec fn view(&self) -> Row {
        Row {
            name: self.name@,
            base_ms: self.base_ms@,
            head_ms: self.head_ms@,
            delta: self.delta@,
            base_rss: self.base_rss@,
            head_rss: self.head_rss@,
        }
    }
}

pub open spec fn rows_view(v: Seq<DeltaRow>) -> Seq<Row> {
    v.map_values(|r: DeltaRow| r@)
}

/// Column `k` of a row (0 name, 1 and 2 latencies, 3 delta, 4 and 5 memory).
pub open spec fn field(r: Row, k: int) -> Seq<char> {
    if k == 0 {
        r.name
    } else if k == 1 {
        r.base_ms
    } else if k == 2 {
        r.head_ms
    } else if k == 3 {
        r.delta
    } else if k == 4 {
        r.base_rss
    } else {
        r.head_rss
    }
}

/// The width of column `k` over the first `n` rows: the byte length of its
/// widest cell, at least `init`.
pub open spec fn col_width(rows: Seq<Row>, k: int, init: nat, n: int) -> nat
    decreases n,
{
    if n <= 0 || n > rows.len() {
        init
    } else {
        let w = col_width(rows, k, init, n - 1);
        let l = text::utf8_len(field(rows[n - 1], k));
        if l > w {
            l
        } else {
            w
        }
    }
}

pub open spec fn spaces(n: nat) -> Seq<char> {
    Seq::new(n, |i: int| ' ')
}

/// A cell left-aligned in `w` characters (`{:<w$}`).
pub open spec fn pad_right(s: Seq<char>, w: nat) -> Seq<char> {
    if w > s.len() {
        s + spaces((w - s.len()) as nat)
    } else {
        s
    }
}

/// A cell right-aligned in `w` characters (`{:>w$}`).
pub open spec fn pad_left(s: Seq<char>, w: nat) -> Seq<char> {
    if w > s.len() {
        spaces((w - s.len()) as nat) + s
    } else {
        s
    }
}

/// The first `n` cells of a table line: the first left-aligned, the others
/// right-aligned, each followed by a bar.
pub open spec fn cells_text(cells: Seq<Seq<char>>, widths: Seq<nat>, n: int) -> Seq<char>
    decreases n,
{
    if n <= 0 || n > cells.len() || n > widths.len() {
        Seq::empty()
    } else {
        cells_text(cells, widths, n - 1) + " "@ + (if n == 1 {
            pad_right(cells[0], widths[0])
        } else {
            pad_left(cells[n - 1], widths[n - 1])
        }) + " |"@
    }
}

pub open spec fn line_text(cells: Seq<Seq<char>>, widths: Seq<nat>) -> Seq<char> {
    "|"@ + cells_text(cells, widths, cells.len() as int) + "\n"@
}

/// The first `n` segments of the rule under the header.
pub open spec fn rule_cells(widths: Seq<nat>, n: int) -> Seq<char>
    decreases n,
{
    if n <= 0 || n > widths.len() {
        Seq::empty()
    } else {
        rule_cells(widths, n - 1) + doc::dashes(widths[n - 1] + 2) + "|"@
    }
}

pub open spec fn rule_text(widths: Seq<nat>) -> Seq<char> {
    "|"@ + rule_cells(widths, widths.len() as int) + "\n"@
}

/// A memory cell, "--" when the server reported none.
pub open spec fn rss_cell(s: Seq<char>) -> Seq<char> {
    if s.len() == 0 {
        "--"@
    } else {
        s
    }
}

pub open spec fn row_cells(r: Row, with_rss: bool) -> Seq<Seq<char>> {
    if with_rss {
        seq![r.name, r.base_ms, r.head_ms, r.delta, rss_cell(r.base_rss), rss_cell(r.head_rss)]
    } else {
        seq![r.name, r.base_ms, r.head_ms, r.delta]
    }
}

/// The lines of the first `n` rows.
pub open spec fn body_text(rows: Seq<Row>, widths: Seq<nat>, with_rss: bool, n: int) -> Seq<char>
    decreases n,
{
    if n <= 0 || n > rows.len() {
        Seq::empty()
    } else {
        body_text(rows, widths, with_rss, n - 1) + line_text(row_cells(rows[n - 1], with_rss), widths)
    }
}

/// Some row has a memory cell.
pub open spec fn any_rss(rows: Seq<Row>) -> bool {
    exists|i: int| 0 <= i < rows.len() && (rows[i].base_rss.len() > 0 || rows[i].head_rss.len() > 0)
}

/// The table: a header, a rule and one line per row; memory columns only
/// where some row has a memory cell. Column widths are byte lengths; the
/// alignment pads by characters.
pub open spec fn table(rows: Seq<Row>, base_label: Seq<char>, head_label: Seq<char>) -> Seq<char> {
    let n = rows.len() as int;
    let w4 = seq![
        col_width(rows, 0, text::utf8_len("Benchmark"@), n),
        col_width(rows, 1, text::utf8_len(base_label), n),
        col_width(rows, 2, text::utf8_len(head_label), n),
        col_width(rows, 3, text::utf8_len("Delta"@), n),
    ];
    if any_rss(rows) {
        let rb = "RSS "@ + base_label;
        let rh = "RSS "@ + head_label;
        let w6 = w4 + seq![col_width(rows, 4, text::utf8_len(rb), n), col_width(rows, 5, text::utf8_len(rh), n)];
        line_text(seq!["Benchmark"@, base_label, head_label, "Delta"@, rb, rh], w6) + rule_text(w6)
            + body_text(rows, w6, true, n)
    } else {
        line_text(seq!["Benchmark"@, base_label, head_label, "Delta"@], w4) + rule_text(w4)
            + body_text(rows, w4, false, n)
    }
}

/// The entry of the servers list with this name (the first one).
pub open spec fn meta_of(servers: Seq<Json>, name: Seq<char>, n: int) -> Option<Json>
    decreases n,
{
    if n <= 0 || n > servers.len() {
        None
    } else {
        match meta_of(servers, name, n - 1) {
            Some(m) => Some(m),
            None => if json::opt_str(servers[n - 1].get("name"@)) == Some(name) {
                Some(servers[n - 1])
            } else {
                None
            },
        }
    }
}

/// The line naming a server: its short commit and its link (with the
/// description as text), or the description alone.
pub open spec fn info_line(name: Seq<char>, meta: Json) -> Seq<char> {
    let version = doc::str_or(meta.get("version"@), Seq::empty());
    let link = doc::str_or(meta.get("link"@), Seq::empty());
    let description = doc::str_or(meta.get("description"@), Seq::empty());
    let short = render::short_commit_of(version);
    "**"@ + name + "**"@ + (if short.len() > 0 {
        " · `"@ + short + "`"@
    } else {
        Seq::empty()
    }) + (if link.len() > 0 {
        if description.len() > 0 {
            " · ["@ + description + "]("@ + link + ")"@
        } else {
            " · [link]("@ + link + ")"@
        }
    } else if description.len() > 0 {
        " · "@ + description
    } else {
        Seq::empty()
    }) + "\n"@
}

pub open spec fn info(servers: Seq<Json>, name: Seq<char>) -> Seq<char> {
    match meta_of(servers, name, servers.len() as int) {
        Some(m) => info_line(name, m),
        None => Seq::empty(),
    }
}

/// A server's column label: its short commit where its version names one,
/// else its name.
pub open spec fn col_label(servers: Seq<Json>, name: Seq<char>) -> Seq<char> {
    match meta_of(servers, name, servers.len() as int) {
        Some(m) => match json::opt_str(m.get("version"@)) {
            Some(v) => if render::short_commit_of(v) != v {
                render::short_commit_of(v)
            } else {
                name
            },
            None => name,
        },
        None => name,
    }
}

/// The delta report for servers `base` and `head`.
pub open spec fn delta_text(servers: Seq<Json>, base: Seq<char>, head: Seq<char>, rows: Seq<Row>) -> Seq<char> {
    info(servers, base) + info(servers, head) + "\n"@ + table(
        rows,
        col_label(servers, base),
        col_label(servers, head),
    )
}

// ---------------------------------------------------------------------------
// Implementation
// ---------------------------------------------------------------------------

fn push_spaces(out: &mut Vec<char>, n: u128)
    ensures
        final(out)@ == old(out)@ + spaces(n as nat),
{
    let mut k: u128 = 0;
    while k < n
        invariant
            k <= n,
            out@ == old(out)@ + spaces(k as nat),
        decreases n - k,
    {
        out.push(' ');
        k += 1;
        assert(out@ =~= old(out)@ + spaces(k as nat));
    }
}

fn push_padded(out: &mut Vec<char>, s: &[char], w: u128, left: bool)
    ensures
        final(out)@ == old(out)@ + (if left {
            pad_right(s@, w as nat)
        } else {
            pad_left(s@, w as nat)
        }),
{
    let n = s.len() as u128;
    if left {
        extend(out, s);
        if w > n {
            push_spaces(out, w - n);
        }
        assert(out@ =~= old(out)@ + pad_right(s@, w as nat));
    } else {
        if w > n {
            push_spaces(out, w - n);
        }
        extend(out, s);
        assert(out@ =~= old(out)@ + pad_left(s@, w as nat));
    }
}

pub open spec fn widths_view(w: Seq<u128>) -> Seq<nat> {
    w.map_values(|x: u128| x as nat)
}

pub open spec fn cells_view(c: Seq<Vec<char>>) -> Seq<Seq<char>> {
    c.map_values(|x: Vec<char>| x@)
}

fn push_line(out: &mut Vec<char>, cells: &Vec<Vec<char>>, widths: &Vec<u128>)
    requires
        cells@.len() == widths@.len(),
    ensures
        final(out)@ == old(out)@ + line_text(cells_view(cells@), widths_view(widths@)),
{
    let ghost cv = cells_view(cells@);
    let ghost wv = widths_view(widths@);
    proof {
        reveal_strlit("|");
        reveal_strlit(" ");
        reveal_strlit(" |");
        reveal_strlit("\n");
    }
    out.push('|');
    let ghost start = out@;
    let mut i: usize = 0;
    while i < cells.len()
        invariant
            i <= cells@.len(),
            cells@.len() == widths@.len(),
            cv == cells_view(cells@),
            wv == widths_view(widths@),
            out@ == start + cells_text(cv, wv, i as int),
        decreases cells.len() - i,
    {
        let ghost before = out@;
        proof {
            reveal_strlit(" ");
            reveal_strlit(" |");
        }
        out.push(' ');
        assert(cv[i as int] == cells@[i as int]@);
        assert(wv[i as int] == widths@[i as int] as nat);
        push_padded(out, cells[i].as_slice(), widths[i], i == 0);
        out.push(' ');
        out.push('|');
        let ghost cell = if i == 0 {
            pad_right(cv[0], wv[0])
        } else {
            pad_left(cv[i as int], wv[i as int])
        };
        assert(out@ =~= before + " "@ + cell + " |"@);
        i += 1;
        assert(out@ =~= start + cells_text(cv, wv, i as int));
    }
    out.push('\n');
    assert(out@ =~= old(out)@ + line_text(cv, wv));
}

fn push_rule(out: &mut Vec<char>, widths: &Vec<u128>)
    requires
        forall|i: int| 0 <= i < widths@.len() ==> widths@[i] < 0x1_0000_0000_0000_0000_0000,
    ensures
        final(out)@ == old(out)@ + rule_text(widths_view(widths@)),
{
    let ghost wv = widths_view(widths@);
    proof {
        reveal_strlit("|");
        reveal_strlit("\n");
    }
    out.push('|');
    let ghost start = out@;
    let mut i: usize = 0;
    while i < widths.len()
        invariant
            i <= widths@.len(),
            wv == widths_view(widths@),
            forall|j: int| 0 <= j < widths@.len() ==> widths@[j] < 0x1_0000_0000_0000_0000_0000,
            out@ == start + rule_cells(wv, i as int),
        decreases widths.len() - i,
    {
        let ghost before = out@;
        proof {
            reveal_strlit("|");
        }
        assert(wv[i as int] == widths@[i as int] as nat);
        doc::push_dashes(out, widths[i] + 2);
        out.push('|');
        assert(out@ =~= before + doc::dashes(wv[i as int] + 2) + "|"@);
        i += 1;
        assert(out@ =~= start + rule_cells(wv, i as int));
    }
    out.push('\n');
    assert(out@ =~= old(out)@ + rule_text(wv));
}

fn field_exec(r: &DeltaRow, k: usize) -> (s: &String)
    ensures
        s@ == field(r@, k as int),
{
    if k == 0 {
        &r.name
    } else if k == 1 {
        &r.base_ms
    } else if k == 2 {
        &r.head_ms
    } else if k == 3 {
        &r.delta
    } else if k == 4 {
        &r.base_rss
    } else {
        &r.head_rss
    }
}

fn width_exec(rows: &Vec<DeltaRow>, k: usize, init: u128) -> (w: u128)
    requires
        init <= 0x4_0000_0000_0000_0000,
    ensures
        w as nat == col_width(rows_view(rows@), k as int, init as nat, rows@.len() as int),
        w <= 0x4_0000_0000_0000_0000,
{
    let ghost rv = rows_view(rows@);
    let mut w = init;
    let mut i: usize = 0;
    while i < rows.len()
        invariant
            i <= rows@.len(),
            rv == rows_view(rows@),
            w as nat == col_width(rv, k as int, init as nat, i as int),
            w <= 0x4_0000_0000_0000_0000,
        decreases rows.len() - i,
    {
        let l = doc::byte_len(field_exec(&rows[i], k).as_str());
        assert(rv[i as int] == rows@[i as int]@);
        if l > w {
            w = l;
        }
        i += 1;
    }
    w
}

fn rss_cell_exec(s: &String) -> (r: Vec<char>)
    ensures
        r@ == rss_cell(s@),
{
    if s.as_str().is_empty() {
        proof {
            reveal_strlit("");
            assert(s@ =~= ""@);
        }
        chars_of("--")
    } else {
        proof {
            reveal_strlit("");
            assert(s@ != ""@);
        }
        chars_of(s.as_str())
    }
}

fn any_rss_exec(rows: &Vec<DeltaRow>) -> (r: bool)
    ensures
        r == any_rss(rows_view(rows@)),
{
    let ghost rv = rows_view(rows@);
    let mut i: usize = 0;
    while i < rows.len()
        invariant
            i <= rows@.len(),
            rv == rows_view(rows@),
            forall|j: int| 0 <= j < i ==> !(rv[j].base_rss.len() > 0 || rv[j].head_rss.len() > 0),
        decreases rows.len() - i,
    {
        assert(rv[i as int] == rows@[i as int]@);
        let b = !rows[i].base_rss.as_str().is_empty() || !rows[i].head_rss.as_str().is_empty();
        proof {
            reveal_strlit("");
        }
        if b {
            assert(rv[i as int].base_rss.len() > 0 || rv[i as int].head_rss.len() > 0) by {
                if rows@[i as int].base_rss@.len() == 0 {
                    assert(rows@[i as int].base_rss@ =~= ""@);
                }
                if rows@[i as int].head_rss@.len() == 0 {
                    assert(rows@[i as int].head_rss@ =~= ""@);
                }
            }
            return true;
        }
        i += 1;
    }
    false
}

fn string_cells(cells: Vec<Vec<char>>) -> (r: Vec<Vec<char>>)
    ensures
        r@ == cells@,
{
    cells
}

fn table_exec(rows: &Vec<DeltaRow>, base_label: &[char], head_label: &[char]) -> (r: Vec<char>)
    ensures
        r@ == table(rows_view(rows@), base_label@, head_label@),
{
    let ghost rv = rows_view(rows@);
    let ghost n = rows@.len() as int;
    let bl = text::string_of(base_label);
    let hl = text::string_of(head_label);
    let bench = chars_of("Benchmark");
    let delta = chars_of("Delta");
    let w0 = width_exec(rows, 0, doc::byte_len("Benchmark"));
    let w1 = width_exec(rows, 1, doc::byte_len(bl.as_str()));
    let w2 = width_exec(rows, 2, doc::byte_len(hl.as_str()));
    let w3 = width_exec(rows, 3, doc::byte_len("Delta"));
    let with_rss = any_rss_exec(rows);
    let mut widths: Vec<u128> = vec![w0, w1, w2, w3];
    let mut header: Vec<Vec<char>> = vec![bench, chars_of(bl.as_str()), chars_of(hl.as_str()), delta];
    let ghost w4v = seq![
        col_width(rv, 0, text::utf8_len("Benchmark"@), n),
        col_width(rv, 1, text::utf8_len(base_label@), n),
        col_width(rv, 2, text::utf8_len(head_label@), n),
        col_width(rv, 3, text::utf8_len("Delta"@), n),
    ];
    assert(widths_view(widths@) =~= w4v);
    if with_rss {
        let mut rb: Vec<char> = chars_of("RSS ");
        extend(&mut rb, base_label);
        let mut rh: Vec<char> = chars_of("RSS ");
        extend(&mut rh, head_label);
        let rbs = text::string_of(rb.as_slice());
        let rhs = text::string_of(rh.as_slice());
        let w4 = width_exec(rows, 4, doc::byte_len(rbs.as_str()));
        let w5 = width_exec(rows, 5, doc::byte_len(rhs.as_str()));
        widths.push(w4);
        widths.push(w5);
        header.push(rb);
        header.push(rh);
    }
    assert(widths_view(widths@) =~= (if with_rss {
        w4v + seq![
            col_width(rv, 4, text::utf8_len("RSS "@ + base_label@), n),
            col_width(rv, 5, text::utf8_len("RSS "@ + head_label@), n),
        ]
    } else {
        w4v
    }));
    let mut out: Vec<char> = Vec::new();
    assert(cells_view(header@) =~= (if with_rss {
        seq!["Benchmark"@, base_label@, head_label@, "Delta"@, "RSS "@ + base_label@, "RSS "@ + head_label@]
    } else {
        seq!["Benchmark"@, base_label@, head_label@, "Delta"@]
    }));
    push_line(&mut out, &header, &widths);
    push_rule(&mut out, &widths);
    let ghost wv = widths_view(widths@);
    let ghost pre = out@;
    let mut i: usize = 0;
    while i < rows.len()
        invariant
            i <= rows@.len(),
            rv == rows_view(rows@),
            wv == widths_view(widths@),
            widths@.len() == (if with_rss { 6int } else { 4int }),
            out@ == pre + body_text(rv, wv, with_rss, i as int),
        decreases rows.len() - i,
    {
        let r = &rows[i];
        assert(rv[i as int] == r@);
        let mut cells: Vec<Vec<char>> = vec![
            chars_of(r.name.as_str()),
            chars_of(r.base_ms.as_str()),
            chars_of(r.head_ms.as_str()),
            chars_of(r.delta.as_str()),
        ];
        if with_rss {
            cells.push(rss_cell_exec(&r.base_rss));
            cells.push(rss_cell_exec(&r.head_rss));
        }
        let cells = string_cells(cells);
        assert(cells_view(cells@) =~= row_cells(r@, with_rss));
        push_line(&mut out, &cells, &widths);
        i += 1;
        assert(out@ =~= pre + body_text(rv, wv, with_rss, i as int));
    }
    assert(out@ =~= table(rv, base_label@, head_label@));
    out
}

pub open spec fn jsons(v: Seq<JsonValue>) -> Seq<Json> {
    v.map_values(|x: JsonValue| x@)
}

proof fn lemma_meta_kept(servers: Seq<Json>, name: Seq<char>, j: int, k: int)
    requires
        0 <= j <= k <= servers.len(),
        meta_of(servers, name, j) is Some,
    ensures
        meta_of(servers, name, k) == meta_of(servers, name, j),
    decreases k - j,
{
    if j < k {
        lemma_meta_kept(servers, name, j, k - 1);
    }
}

fn meta_exec<'a>(servers: &'a Vec<JsonValue>, name: &str) -> (r: Option<&'a JsonValue>)
    ensures
        match r {
            Some(m) => meta_of(jsons(servers@), name@, servers@.len() as int) == Some(m@),
            None => meta_of(jsons(servers@), name@, servers@.len() as int) is None,
        },
{
    let ghost sv = jsons(servers@);
    let mut i: usize = 0;
    while i < servers.len()
        invariant
            i <= servers@.len(),
            sv == jsons(servers@),
            meta_of(sv, name@, i as int) is None,
        decreases servers.len() - i,
    {
        assert(sv[i as int] == servers@[i as int]@);
        let hit = match servers[i].get("name") {
            Some(v) => match v.as_str() {
                Some(t) => json::str_eq(t, name),
                None => false,
            },
            None => false,
        };
        if hit {
            proof {
                lemma_meta_kept(sv, name@, i + 1, sv.len() as int);
            }
            return Some(&servers[i]);
        }
        i += 1;
    }
    None
}

fn info_exec(name: &str, meta: &JsonValue) -> (r: Vec<char>)
    ensures
        r@ == info_line(name@, meta@),
{
    proof {
        reveal_strlit("");
        assert(""@ =~= Seq::<char>::empty());
    }
    let version = doc::str_or_exec(meta.get("version"), "");
    let link = doc::str_or_exec(meta.get("link"), "");
    let description = doc::str_or_exec(meta.get("description"), "");
    let vs = text::string_of(version.as_slice());
    let short = render::extract_short_commit(vs.as_str());
    let sc = chars_of(short.as_str());
    let mut out: Vec<char> = chars_of("**");
    extend_str(&mut out, name);
    extend_str(&mut out, "**");
    let ghost head = out@;
    if sc.len() > 0 {
        extend_str(&mut out, " · `");
        extend(&mut out, sc.as_slice());
        extend_str(&mut out, "`");
    }
    let ghost mid = out@;
    if link.len() > 0 {
        if description.len() > 0 {
            extend_str(&mut out, " · [");
            extend(&mut out, description.as_slice());
            extend_str(&mut out, "](");
            extend(&mut out, link.as_slice());
            extend_str(&mut out, ")");
        } else {
            extend_str(&mut out, " · [link](");
            extend(&mut out, link.as_slice());
            extend_str(&mut out, ")");
        }
    } else if description.len() > 0 {
        extend_str(&mut out, " · ");
        extend(&mut out, description.as_slice());
    }
    let ghost tail = out@;
    extend_str(&mut out, "\n");
    assert(out@ =~= info_line(name@, meta@));
    out
}

fn label_exec(servers: &Vec<JsonValue>, name: &str) -> (r: Vec<char>)
    ensures
        r@ == col_label(jsons(servers@), name@),
{
    match meta_exec(servers, name) {
        Some(m) => match m.get("version") {
            Some(v) => match v.as_str() {
                Some(vs) => {
                    let short = render::extract_short_commit(vs);
                    if json::str_eq(short.as_str(), vs) {
                        chars_of(name)
                    } else {
                        chars_of(short.as_str())
                    }
                },
                None => chars_of(name),
            },
            None => chars_of(name),
        },
        None => chars_of(name),
    }
}

/// The delta report comparing `base` with `head`, given the `servers` list
/// of the benchmark data and one row per benchmark.
pub fn delta_report(servers: &Vec<JsonValue>, base: &str, head: &str, rows: &Vec<DeltaRow>) -> (r: String)
    ensures
        r@ == delta_text(jsons(servers@), base@, head@, rows_view(rows@)),
{
    let ghost sv = jsons(servers@);
    let mut out: Vec<char> = Vec::new();
    match meta_exec(servers, base) {
        Some(m) => {
            let l = info_exec(base, m);
            extend(&mut out, l.as_slice());
        },
        None => {},
    }
    assert(out@ =~= info(sv, base@));
    match meta_exec(servers, head) {
        Some(m) => {
            let l = info_exec(head, m);
            extend(&mut out, l.as_slice());
        },
        None => {},
    }
    assert(out@ =~= info(sv, base@) + info(sv, head@));
    extend_str(&mut out, "\n");
    let bl = label_exec(servers, base);
    let hl = label_exec(servers, head);
    let t = table_exec(rows, bl.as_slice(), hl.as_slice());
    extend(&mut out, t.as_slice());
    assert(out@ =~= delta_text(sv, base@, head@, rows_view(rows@)));
    text::string_of(out.as_slice())
}

// ---------------------------------------------------------------------------
// Rows from the benchmark data
// ---------------------------------------------------------------------------

/// The index of the first of the first `n` server entries run by `label`.
pub open spec fn entry_index(ss: Seq<Json>, label: Seq<char>, n: int) -> Option<int>
    decreases n,
{
    if n <= 0 || n > ss.len() {
        None
    } else {
        match entry_index(ss, label, n - 1) {
            Some(i) => Some(i),
            None => if json::opt_str(ss[n - 1].get("server"@)) == Some(label) {
                Some(n - 1)
            } else {
                None
            },
        }
    }
}

proof fn lemma_entry_index_stays(ss: Seq<Json>, label: Seq<char>, k: int, n: int)
    requires
        0 <= k <= n <= ss.len(),
        entry_index(ss, label, k) is Some,
    ensures
        entry_index(ss, label, n) == entry_index(ss, label, k),
    decreases n - k,
{
    if k < n {
        lemma_entry_index_stays(ss, label, k, n - 1);
    }
}

/// Finds a server's entry among a benchmark's servers (the first one).
pub fn find_entry(ss: &Vec<JsonValue>, label: &str) -> (r: Option<usize>)
    ensures
        match r {
            Some(i) => entry_index(jsons(ss@), label@, ss@.len() as int) == Some(i as int),
            None => entry_index(jsons(ss@), label@, ss@.len() as int) is None,
        },
{
    let ghost sv = jsons(ss@);
    let mut i: usize = 0;
    while i < ss.len()
        invariant
            i <= ss@.len(),
            sv == jsons(ss@),
            entry_index(sv, label@, i as int) is None,
        decreases ss.len() - i,
    {
        assert(sv[i as int] == ss@[i as int]@);
        let hit = match ss[i].get("server") {
            Some(x) => match x.as_str() {
                Some(s) => json::str_eq(s, label),
                None => false,
            },
            None => false,
        };
        if hit {
            proof {
                assert(entry_index(sv, label@, i as int + 1) == Some(i as int));
                lemma_entry_index_stays(sv, label@, i as int + 1, sv.len() as int);
            }
            return Some(i);
        }
        i += 1;
    }
    None
}

/// Whether an entry has a mean latency to compare: status "ok" and a
/// numeric `mean_ms`.
pub open spec fn has_mean(e: Option<Json>) -> bool {
    match e {
        Some(x) => json::opt_str(x.get("status"@)) == Some("ok"@) && (x.get("mean_ms"@) matches Some(
            Json::Num(_),
        )),
        None => false,
    }
}

/// The status shown in place of a missing mean (`--` without one).
pub open spec fn status_cell(e: Option<Json>) -> Seq<char> {
    match e {
        Some(x) => match json::opt_str(x.get("status"@)) {
            Some(s) => s,
            None => "--"@,
        },
        None => "--"@,
    }
}

/// The memory cell of an entry (empty without a memory figure).
pub open spec fn memory_cell(e: Option<Json>) -> Seq<char> {
    match e {
        Some(x) => match json::opt_u64(x.get("rss_kb"@)) {
            Some(kb) => render::rss_text(kb as nat),
            None => Seq::empty(),
        },
        None => Seq::empty(),
    }
}

/// A benchmark's row: the formatted means where both entries have one, with
/// the delta; where only one has a mean, the other side shows its status and
/// the delta is `--`; with neither, every latency cell is `--`.
pub open spec fn row_of(
    name: Seq<char>,
    base: Option<Json>,
    head: Option<Json>,
    base_ms: Seq<char>,
    head_ms: Seq<char>,
    delta: Seq<char>,
) -> Row {
    Row {
        name,
        base_ms: if has_mean(base) {
            base_ms
        } else if has_mean(head) {
            status_cell(base)
        } else {
            "--"@
        },
        head_ms: if has_mean(head) {
            head_ms
        } else if has_mean(base) {
            status_cell(head)
        } else {
            "--"@
        },
        delta: if has_mean(base) && has_mean(head) {
            delta
        } else {
            "--"@
        },
        base_rss: memory_cell(base),
        head_rss: memory_cell(head),
    }
}

pub open spec fn opt_json(e: Option<&JsonValue>) -> Option<Json> {
    match e {
        Some(x) => Some(x@),
        None => None,
    }
}

fn has_mean_exec(e: Option<&JsonValue>) -> (r: bool)
    ensures
        r == has_mean(opt_json(e)),
{
    match e {
        Some(x) => {
            let ok = match x.get("status") {
                Some(s) => match s.as_str() {
                    Some(t) => json::str_eq(t, "ok"),
                    None => false,
                },
                None => false,
            };
            let num = match x.get("mean_ms") {
                Some(JsonValue::Number(_)) => true,
                _ => false,
            };
            ok && num
        },
        None => false,
    }
}

fn status_cell_exec(e: Option<&JsonValue>) -> (r: String)
    ensures
        r@ == status_cell(opt_json(e)),
{
    proof {
        reveal_strlit("--");
    }
    match e {
        Some(x) => match x.get("status") {
            Some(s) => match s.as_str() {
                Some(t) => t.to_owned(),
                None => "--".to_owned(),
            },
            None => "--".to_owned(),
        },
        None => "--".to_owned(),
    }
}

fn memory_cell_exec(e: Option<&JsonValue>) -> (r: String)
    ensures
        r@ == memory_cell(opt_json(e)),
{
    match e {
        Some(x) => match x.get("rss_kb") {
            Some(v) => match v.as_u64() {
                Some(kb) => render::format_rss(kb),
                None => String::new(),
            },
            None => String::new(),
        },
        None => String::new(),
    }
}

/// Builds a benchmark's row from the base and head entries and the
/// formatted means and delta (used only where the entries have means).
pub fn delta_row(
    name: &str,
    base: Option<&JsonValue>,
    head: Option<&JsonValue>,
    base_ms: &str,
    head_ms: &str,
    delta: &str,
) -> (r: DeltaRow)
    ensures
        r@ == row_of(name@, opt_json(base), opt_json(head), base_ms@, head_ms@, delta@),
{
    let hb = has_mean_exec(base);
    let hh = has_mean_exec(head);
    let b = if hb {
        base_ms.to_owned()
    } else if hh {
        status_cell_exec(base)
    } else {
        "--".to_owned()
    };
    let h = if hh {
        head_ms.to_owned()
    } else if hb {
        status_cell_exec(head)
    } else {
        "--".to_owned()
    };
    let d = if hb && hh {
        delta.to_owned()
    } else {
        "--".to_owned()
    };
    DeltaRow {
        name: name.to_owned(),
        base_ms: b,
        head_ms: h,
        delta: d,
        base_rss: memory_cell_exec(base),
        head_rss: memory_cell_exec(head),
    }
}

// ---------------------------------------------------------------------------
// Choosing the two servers to compare
// ---------------------------------------------------------------------------

/// The names of the first `n` server entries that have a string `name`.
pub open spec fn server_names(ss: Seq<Json>, n: int) -> Seq<Seq<char>>
    decreases n,
{
    if n <= 0 || n > ss.len() {
        Seq::empty()
    } else {
        match json::opt_str(ss[n - 1].get("name"@)) {
            Some(s) => server_names(ss, n - 1).push(s),
            None => server_names(ss, n - 1),
        }
    }
}

/// The first `n` names joined with ", ".
pub open spec fn joined(names: Seq<Seq<char>>, n: int) -> Seq<char>
    decreases n,
{
    if n <= 0 || n > names.len() {
        Seq::empty()
    } else if n == 1 {
        names[0]
    } else {
        joined(names, n - 1) + ", "@ + names[n - 1]
    }
}

/// The base and head servers of a delta report: the given ones, else the
/// first and second server; there must be at least two servers, and both
/// chosen ones must be among them.
pub open spec fn delta_pair_of(ss: Seq<Json>, base: Option<Seq<char>>, head: Option<Seq<char>>) -> Result<
    (Seq<char>, Seq<char>),
    Seq<char>,
> {
    let names = server_names(ss, ss.len() as int);
    if names.len() < 2 {
        Err("need at least 2 servers for delta comparison, found "@ + text::dec(names.len()))
    } else {
        let b = match base {
            Some(x) => x,
            None => names[0],
        };
        let h = match head {
            Some(x) => x,
            None => names[1],
        };
        if !names.contains(b) {
            Err("base server '"@ + b + "' not found. Available: "@ + joined(names, names.len() as int))
        } else if !names.contains(h) {
            Err("head server '"@ + h + "' not found. Available: "@ + joined(names, names.len() as int))
        } else {
            Ok((b, h))
        }
    }
}

fn names_exec(ss: &Vec<JsonValue>) -> (r: Vec<String>)
    ensures
        r@.map_values(|s: String| s@) == server_names(jsons(ss@), ss@.len() as int),
{
    let ghost sv = jsons(ss@);
    let mut out: Vec<String> = Vec::new();
    let mut i: usize = 0;
    while i < ss.len()
        invariant
            i <= ss@.len(),
            sv == jsons(ss@),
            out@.map_values(|s: String| s@) == server_names(sv, i as int),
        decreases ss.len() - i,
    {
        assert(sv[i as int] == ss@[i as int]@);
        let ghost before = out@.map_values(|s: String| s@);
        match ss[i].get("name") {
            Some(x) => match x.as_str() {
                Some(s) => {
                    out.push(s.to_owned());
                    assert(out@.map_values(|s: String| s@) =~= before.push(s@));
                },
                None => {},
            },
            None => {},
        }
        i += 1;
    }
    out
}

fn contains_name(names: &Vec<String>, x: &str) -> (r: bool)
    ensures
        r == names@.map_values(|s: String| s@).contains(x@),
{
    let ghost nv = names@.map_values(|s: String| s@);
    let mut i: usize = 0;
    while i < names.len()
        invariant
            i <= names@.len(),
            nv == names@.map_values(|s: String| s@),
            forall|k: int| 0 <= k < i ==> nv[k] != x@,
        decreases names.len() - i,
    {
        if json::str_eq(names[i].as_str(), x) {
            assert(nv[i as int] == x@);
            return true;
        }
        i += 1;
    }
    false
}

fn joined_exec(names: &Vec<String>) -> (r: Vec<char>)
    ensures
        r@ == joined(names@.map_values(|s: String| s@), names@.len() as int),
{
    let ghost nv = names@.map_values(|s: String| s@);
    let mut out: Vec<char> = Vec::new();
    let mut i: usize = 0;
    while i < names.len()
        invariant
            i <= names@.len(),
            nv == names@.map_values(|s: String| s@),
            out@ == joined(nv, i as int),
        decreases names.len() - i,
    {
        if i > 0 {
            extend_str(&mut out, ", ");
        }
        extend_str(&mut out, names[i].as_str());
        i += 1;
    }
    out
}

/// Chooses the base and head servers of a delta report from the `servers`
/// list of the benchmark data, or says why it cannot.
pub fn delta_pair(servers: &Vec<JsonValue>, base: Option<String>, head: Option<String>) -> (r: Result<
    (String, String),
    String,
>)
    ensures
        match r {
            Ok((b, h)) => delta_pair_of(jsons(servers@), text::opt_view(base), text::opt_view(head)) == Ok::<
                (Seq<char>, Seq<char>),
                Seq<char>,
            >((b@, h@)),
            Err(m) => delta_pair_of(jsons(servers@), text::opt_view(base), text::opt_view(head)) == Err::<
                (Seq<char>, Seq<char>),
                Seq<char>,
            >(m@),
        },
{
    let names = names_exec(servers);
    let ghost nv = names@.map_values(|s: String| s@);
    if names.len() < 2 {
        let mut m = chars_of("need at least 2 servers for delta comparison, found ");
        extend(&mut m, text::dec_u64(names.len() as u64).as_slice());
        return Err(text::string_of(m.as_slice()));
    }
    assert(nv[0] == names@[0]@ && nv[1] == names@[1]@);
    let b: String = match base {
        Some(x) => x,
        None => names[0].clone(),
    };
    let h: String = match head {
        Some(x) => x,
        None => names[1].clone(),
    };
    if !contains_name(&names, b.as_str()) {
        let mut m = chars_of("base server '");
        extend_str(&mut m, b.as_str());
        extend_str(&mut m, "' not found. Available: ");
        extend(&mut m, joined_exec(&names).as_slice());
        return Err(text::string_of(m.as_slice()));
    }
    if !contains_name(&names, h.as_str()) {
        let mut m = chars_of("head server '");
        extend_str(&mut m, h.as_str());
        extend_str(&mut m, "' not found. Available: ");
        extend(&mut m, joined_exec(&names).as_slice());
        return Err(text::string_of(m.as_slice()));
    }
    Ok((b, h))
}

} // verus!
