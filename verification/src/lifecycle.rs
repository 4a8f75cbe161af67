//! The rename sequence: where the renamed file ends up, the step that
//! brings it back to its original name, and how the edits a server returns
//! for a rename are applied to a file's text.
use vstd::prelude::*;
use crate::config::{self, path_join, path_parent};
use crate::edits;
use crate::json::{self, Json, JsonValue};
use crate::render;
use crate::text::{self, chars_of};

verus! {

/// Whether two paths are equal as `Path`s compare them, component by component.
pub uninterp spec fn spec_path_eq(a: Seq<char>, b: Seq<char>) -> bool;

/// The final component of a path, as `Path::file_name` gives it.
pub uninterp spec fn spec_file_name(p: Seq<char>) -> Option<Seq<char>>;

/// `Path::eq`: whether two paths have the same components.
#[verifier::external_body]
fn path_eq(a: &str, b: &str) -> (r: bool)
    ensures
        r == spec_path_eq(a@, b@),
{
    std::path::Path::new(a) == std::path::Path::new(b)
}

/// `Path::file_name`: the final component, if the path has one.
#[verifier::external_body]
fn path_file_name(p: &str) -> (r: Option<String>)
    ensures
        text::opt_view(r) == spec_file_name(p@),
{
    std::path::Path::new(p).file_name().map(|n| n.to_string_lossy().into_owned())
}

/// Where the file is after renaming `file` to `new_name`, when it was at
/// `cur` before: the step's own source counts where it differs from `cur`,
/// and the new name replaces the last component.
pub open spec fn renamed_to(cur: Seq<char>, file: Seq<char>, new_name: Seq<char>) -> Seq<char> {
    let from = if spec_path_eq(file, cur) {
        cur
    } else {
        file
    };
    match config::spec_path_parent(from) {
        Some(p) => config::spec_path_join(p, new_name),
        None => new_name,
    }
}

/// Where the file is after a whole sequence of (file, new name) steps.
pub open spec fn walk(steps: Seq<(Seq<char>, Seq<char>)>, start: Seq<char>) -> Seq<char>
    decreases steps.len(),
{
    if steps.len() == 0 {
        start
    } else {
        renamed_to(walk(steps.drop_last(), start), steps.last().0, steps.last().1)
    }
}

/// The step to append so that a rename sequence ends where it began: from
/// where the walk ends back to the first file's name (or its whole path,
/// where it has no final component); none for an empty sequence or one
/// that already returns.
pub open spec fn closing_step(steps: Seq<(Seq<char>, Seq<char>)>) -> Option<(Seq<char>, Seq<char>)> {
    if steps.len() == 0 {
        None
    } else {
        let start = steps[0].0;
        let end = walk(steps, start);
        if spec_path_eq(end, start) {
            None
        } else {
            Some(
                (
                    end,
                    match spec_file_name(start) {
                        Some(n) => n,
                        None => start,
                    },
                ),
            )
        }
    }
}

pub open spec fn pairs_view(v: Seq<(String, String)>) -> Seq<(Seq<char>, Seq<char>)> {
    v.map_values(|p: (String, String)| (p.0@, p.1@))
}

pub open spec fn pair_opt_view(o: Option<(String, String)>) -> Option<(Seq<char>, Seq<char>)> {
    match o {
        Some(p) => Some((p.0@, p.1@)),
        None => None,
    }
}

fn rename_target(cur: &String, file: &String, new_name: &String) -> (r: String)
    ensures
        r@ == renamed_to(cur@, file@, new_name@),
{
    let from = if path_eq(file.as_str(), cur.as_str()) {
        cur
    } else {
        file
    };
    match path_parent(from.as_str()) {
        Some(p) => path_join(p.as_str(), new_name.as_str()),
        None => new_name.clone(),
    }
}

/// The step that returns a rename sequence (given as (file, new name)
/// pairs) to its starting file, if it needs one.
pub fn closing_rename(steps: &Vec<(String, String)>) -> (r: Option<(String, String)>)
    ensures
        pair_opt_view(r) == closing_step(pairs_view(steps@)),
{
    if steps.len() == 0 {
        return None;
    }
    let ghost ps = pairs_view(steps@);
    let start = steps[0].0.clone();
    let mut cur = start.clone();
    let mut i: usize = 0;
    assert(ps.subrange(0, 0) =~= Seq::<(Seq<char>, Seq<char>)>::empty());
    while i < steps.len()
        invariant
            i <= steps@.len(),
            steps@.len() > 0,
            ps == pairs_view(steps@),
            start@ == steps@[0].0@,
            cur@ == walk(ps.subrange(0, i as int), start@),
        decreases steps.len() - i,
    {
        let ghost pre = ps.subrange(0, i as int);
        assert(ps.subrange(0, i + 1).drop_last() =~= pre);
        let next = rename_target(&cur, &steps[i].0, &steps[i].1);
        cur = next;
        i += 1;
    }
    assert(ps.subrange(0, steps@.len() as int) =~= ps);
    if path_eq(cur.as_str(), start.as_str()) {
        None
    } else {
        let name = match path_file_name(start.as_str()) {
            Some(n) => n,
            None => start.clone(),
        };
        Some((cur, name))
    }
}

// ---------------------------------------------------------------------------
// Applying the edits of a rename
// ---------------------------------------------------------------------------

/// A number read from an edit: `as usize` of the JSON integer, 0 when missing.
pub open spec fn part(o: Option<u64>) -> nat {
    match o {
        Some(v) => (v as usize) as nat,
        None => 0,
    }
}

/// An edit as the rename sequence reads it: start line and character, end
/// line and character (each 0 where missing), and the new text ("" where
/// missing).
pub open spec fn line_edit_of(e: Json) -> (nat, nat, nat, nat, Seq<char>) {
    let range = e.get("range"@);
    let start = Json::opt_get(range, "start"@);
    let end = Json::opt_get(range, "end"@);
    (
        part(json::opt_u64(Json::opt_get(start, "line"@))),
        part(json::opt_u64(Json::opt_get(start, "character"@))),
        part(json::opt_u64(Json::opt_get(end, "line"@))),
        part(json::opt_u64(Json::opt_get(end, "character"@))),
        match json::opt_str(e.get("newText"@)) {
            Some(t) => t,
            None => Seq::empty(),
        },
    )
}

/// `a` starts no earlier than `b`, by (line, character).
pub open spec fn start_ge(a: (nat, nat, nat, nat, Seq<char>), b: (nat, nat, nat, nat, Seq<char>)) -> bool {
    a.0 > b.0 || (a.0 == b.0 && a.1 >= b.1)
}

/// `x` inserted into a list ordered by descending start, after every
/// element that starts no earlier.
pub open spec fn insert_by_start(
    s: Seq<(nat, nat, nat, nat, Seq<char>)>,
    x: (nat, nat, nat, nat, Seq<char>),
) -> Seq<(nat, nat, nat, nat, Seq<char>)>
    decreases s.len(),
{
    if s.len() == 0 || start_ge(s.last(), x) {
        s.push(x)
    } else {
        insert_by_start(s.drop_last(), x).push(s.last())
    }
}

/// The edits stably sorted by descending start: later edits first, edits
/// with the same start in their original order.
pub open spec fn sort_by_start(es: Seq<(nat, nat, nat, nat, Seq<char>)>) -> Seq<(nat, nat, nat, nat, Seq<char>)>
    decreases es.len(),
{
    if es.len() == 0 {
        Seq::empty()
    } else {
        insert_by_start(sort_by_start(es.drop_last()), es.last())
    }
}

/// Bytes before line `k`, counting each of the first `k` lines (as
/// `str::lines` yields them) with one byte for its line break.
pub open spec fn lines_bytes(ls: Seq<Seq<char>>, k: nat) -> nat
    decreases k,
{
    if k == 0 || k > ls.len() {
        0
    } else {
        lines_bytes(ls, (k - 1) as nat) + text::utf8_len(ls[k - 1]) + 1
    }
}

/// One edit applied to the current text: the start and end are turned into
/// byte offsets over the text's lines, and the bytes between them replaced.
/// `None` where a line index passes the last line or an offset is not a
/// character boundary within the text (the slicing panics there).
pub open spec fn apply_line_edit(content: Seq<char>, e: (nat, nat, nat, nat, Seq<char>)) -> Option<Seq<char>> {
    let ls = text::lines(content);
    if e.0 > ls.len() || e.2 > ls.len() {
        None
    } else {
        let a = lines_bytes(ls, e.0) + e.1;
        let b = lines_bytes(ls, e.2) + e.3;
        match (render::byte_prefix(content, a), render::byte_prefix(content, b)) {
            (Some(p), Some(q)) => Some(p + e.4 + content.subrange(q.len() as int, content.len() as int)),
            _ => None,
        }
    }
}

/// The edits applied one after the other.
pub open spec fn apply_line_edits(content: Seq<char>, es: Seq<(nat, nat, nat, nat, Seq<char>)>) -> Option<Seq<char>>
    decreases es.len(),
{
    if es.len() == 0 {
        Some(content)
    } else {
        match apply_line_edit(content, es[0]) {
            Some(c) => apply_line_edits(c, es.drop_first()),
            None => None,
        }
    }
}

/// A file's text after the edits a rename returned for it: edits sorted by
/// descending start, then applied in that order.
pub open spec fn rename_edited(content: Seq<char>, es: Seq<Json>) -> Option<Seq<char>> {
    apply_line_edits(content, sort_by_start(es.map_values(|e: Json| line_edit_of(e))))
}

type LineEdit = (usize, usize, usize, usize, Vec<char>);

spec fn line_edit_view(e: LineEdit) -> (nat, nat, nat, nat, Seq<char>) {
    (e.0 as nat, e.1 as nat, e.2 as nat, e.3 as nat, e.4@)
}

fn part_exec(o: Option<u64>) -> (r: usize)
    ensures
        r as nat == part(o),
{
    match o {
        Some(v) => #[verifier::truncate] (v as usize),
        None => 0,
    }
}

fn number_at(v: Option<&JsonValue>, key: &str) -> (r: Option<u64>)
    ensures
        r == json::opt_u64(Json::opt_get(
            match v {
                Some(x) => Some(x@),
                None => None,
            },
            key@,
        )),
{
    match v {
        Some(x) => match x.get(key) {
            Some(n) => n.as_u64(),
            None => None,
        },
        None => None,
    }
}

fn line_edit_fields(e: &JsonValue) -> (r: LineEdit)
    ensures
        line_edit_view(r) == line_edit_of(e@),
{
    let range = e.get("range");
    let start = match range {
        Some(r) => r.get("start"),
        None => None,
    };
    let end = match range {
        Some(r) => r.get("end"),
        None => None,
    };
    let a = part_exec(number_at(start, "line"));
    let b = part_exec(number_at(start, "character"));
    let c = part_exec(number_at(end, "line"));
    let d = part_exec(number_at(end, "character"));
    let t = match e.get("newText") {
        Some(v) => match v.as_str() {
            Some(s) => chars_of(s),
            None => Vec::new(),
        },
        None => Vec::new(),
    };
    (a, b, c, d, t)
}

proof fn lemma_insert_by_start(
    s: Seq<(nat, nat, nat, nat, Seq<char>)>,
    x: (nat, nat, nat, nat, Seq<char>),
    p: int,
)
    requires
        0 <= p <= s.len(),
        forall|m: int| p <= m < s.len() ==> !start_ge(#[trigger] s[m], x),
        p == 0 || start_ge(s[p - 1], x),
    ensures
        insert_by_start(s, x) == s.subrange(0, p).push(x) + s.subrange(p, s.len() as int),
    decreases s.len(),
{
    if s.len() == 0 || p == s.len() {
        assert(s.subrange(0, p).push(x) + s.subrange(p, s.len() as int) =~= s.push(x));
    } else {
        assert(!start_ge(s[s.len() - 1], x));
        let t = s.drop_last();
        assert forall|m: int| p <= m < t.len() implies !start_ge(#[trigger] t[m], x) by {
            assert(t[m] == s[m]);
        }
        if p > 0 {
            assert(t[p - 1] == s[p - 1]);
        }
        lemma_insert_by_start(t, x, p);
        assert(t.subrange(0, p) =~= s.subrange(0, p));
        assert((t.subrange(0, p).push(x) + t.subrange(p, t.len() as int)).push(s.last())
            =~= s.subrange(0, p).push(x) + s.subrange(p, s.len() as int));
    }
}

fn insert_line_edit(out: &mut Vec<LineEdit>, x: LineEdit)
    ensures
        final(out)@.map_values(|e: LineEdit| line_edit_view(e)) == insert_by_start(
            old(out)@.map_values(|e: LineEdit| line_edit_view(e)),
            line_edit_view(x),
        ),
{
    let ghost sv = out@.map_values(|e: LineEdit| line_edit_view(e));
    let ghost xv = line_edit_view(x);
    let mut k: usize = out.len();
    while k > 0 && !(out[k - 1].0 > x.0 || (out[k - 1].0 == x.0 && out[k - 1].1 >= x.1))
        invariant
            k <= out@.len(),
            sv == out@.map_values(|e: LineEdit| line_edit_view(e)),
            xv == line_edit_view(x),
            forall|m: int| k <= m < sv.len() ==> !start_ge(#[trigger] sv[m], xv),
        decreases k,
    {
        assert(sv[k - 1] == line_edit_view(out@[k - 1]));
        k -= 1;
    }
    proof {
        if k > 0 {
            assert(sv[k - 1] == line_edit_view(out@[k - 1]));
        }
        lemma_insert_by_start(sv, xv, k as int);
    }
    out.insert(k, x);
    assert(out@.map_values(|e: LineEdit| line_edit_view(e)) =~= sv.subrange(0, k as int).push(xv)
        + sv.subrange(k as int, sv.len() as int));
}

proof fn lemma_lines_bytes_mono(ls: Seq<Seq<char>>, j: nat, k: nat)
    requires
        j <= k <= ls.len(),
    ensures
        lines_bytes(ls, j) <= lines_bytes(ls, k),
    decreases k - j,
{
    if j < k {
        lemma_lines_bytes_mono(ls, j, (k - 1) as nat);
    }
}

/// Bytes before line `k`, or `None` once they pass `limit`.
fn prefix_bytes(ls: &Vec<Vec<char>>, k: usize, limit: u128) -> (r: Option<u128>)
    requires
        k <= ls@.len(),
        limit <= 0x1_0000_0000_0000_0000_0000_0000,
    ensures
        match r {
            Some(n) => n as nat == lines_bytes(ls@.map_values(|l: Vec<char>| l@), k as nat) && n <= limit,
            None => lines_bytes(ls@.map_values(|l: Vec<char>| l@), k as nat) > limit,
        },
{
    let ghost lv = ls@.map_values(|l: Vec<char>| l@);
    let mut acc: u128 = 0;
    let mut i: usize = 0;
    while i < k
        invariant
            i <= k <= ls@.len(),
            lv == ls@.map_values(|l: Vec<char>| l@),
            limit <= 0x1_0000_0000_0000_0000_0000_0000,
            acc as nat == lines_bytes(lv, i as nat),
            acc <= limit,
        decreases k - i,
    {
        let n = ls[i].len();
        let b = edits::bytes_between(ls[i].as_slice(), 0, n);
        proof {
            assert(ls@[i as int]@.subrange(0, n as int) =~= lv[i as int]);
            text::lemma_utf8_len_mono(lv[i as int], n as int, n as int);
            assert(lines_bytes(lv, (i + 1) as nat) == lines_bytes(lv, i as nat) + text::utf8_len(lv[i as int]) + 1);
        }
        assert(b <= 4 * (n as u128)) by {
            edits_bytes_bound(lv[i as int]);
        }
        let next = acc + b + 1;
        if next > limit {
            proof {
                lemma_lines_bytes_mono(lv, (i + 1) as nat, k as nat);
            }
            return None;
        }
        acc = next;
        i += 1;
    }
    Some(acc)
}

proof fn edits_bytes_bound(s: Seq<char>)
    ensures
        text::utf8_len(s) <= 4 * s.len(),
    decreases s.len(),
{
    if s.len() > 0 {
        edits_bytes_bound(s.drop_last());
    }
}

proof fn lemma_no_prefix_past_end(s: Seq<char>, b: nat)
    requires
        b > text::utf8_len(s),
    ensures
        render::byte_prefix(s, b) is None,
{
    if render::is_boundary(s, b) {
        let j = choose|j: int| 0 <= j <= s.len() && text::utf8_len(s.subrange(0, j)) == b;
        text::lemma_utf8_len_mono(s, j, s.len() as int);
    }
}

/// Applies the edits a rename returned for one file, as the rename sequence
/// does: sorted by descending start, each resolved against the lines of the
/// text as it stands. `None` where an edit falls outside the text or
/// inside a character.
pub fn apply_rename_edits(content: &str, edits_json: &[JsonValue]) -> (r: Option<String>)
    ensures
        text::opt_view(r) == rename_edited(content@, edits::jsons(edits_json@)),
{
    let ghost ej = edits::jsons(edits_json@);
    let ghost kv = ej.map_values(|e: Json| line_edit_of(e));
    let mut sorted: Vec<LineEdit> = Vec::new();
    let mut i: usize = 0;
    assert(kv.subrange(0, 0) =~= Seq::<(nat, nat, nat, nat, Seq<char>)>::empty());
    while i < edits_json.len()
        invariant
            i <= edits_json@.len(),
            ej == edits::jsons(edits_json@),
            kv == ej.map_values(|e: Json| line_edit_of(e)),
            sorted@.map_values(|e: LineEdit| line_edit_view(e)) == sort_by_start(kv.subrange(0, i as int)),
        decreases edits_json.len() - i,
    {
        let x = line_edit_fields(&edits_json[i]);
        proof {
            assert(kv.subrange(0, i + 1).drop_last() =~= kv.subrange(0, i as int));
            assert(kv.subrange(0, i + 1).last() == line_edit_view(x));
        }
        insert_line_edit(&mut sorted, x);
        i += 1;
    }
    assert(kv.subrange(0, edits_json@.len() as int) =~= kv);
    let ghost plan = sorted@.map_values(|e: LineEdit| line_edit_view(e));
    let mut cur: Vec<char> = chars_of(content);
    let mut k: usize = 0;
    assert(plan.subrange(0, plan.len() as int) =~= plan);
    while k < sorted.len()
        invariant
            k <= sorted@.len(),
            plan == sorted@.map_values(|e: LineEdit| line_edit_view(e)),
            apply_line_edits(cur@, plan.subrange(k as int, plan.len() as int)) == rename_edited(content@, ej),
            ej == edits::jsons(edits_json@),
        decreases sorted.len() - k,
    {
        let ghost rest = plan.subrange(k as int, plan.len() as int);
        assert(rest.drop_first() =~= plan.subrange(k + 1, plan.len() as int));
        assert(rest[0] == line_edit_view(sorted@[k as int]));
        let ls = text::lines_exec(cur.as_slice());
        let ghost lv = ls@.map_values(|l: Vec<char>| l@);
        let n = cur.len();
        let total = edits::bytes_between(cur.as_slice(), 0, n);
        assert(cur@.subrange(0, n as int) =~= cur@);
        proof {
            edits_bytes_bound(cur@);
        }
        if sorted[k].0 > ls.len() || sorted[k].2 > ls.len() {
            return None;
        }
        let sa = prefix_bytes(&ls, sorted[k].0, total);
        let sb = prefix_bytes(&ls, sorted[k].2, total);
        let (sa, sb) = match (sa, sb) {
            (Some(x), Some(y)) => (x, y),
            _ => {
                proof {
                    if sa is None {
                        lemma_no_prefix_past_end(cur@, lines_bytes(lv, rest[0].0) + rest[0].1);
                    } else {
                        lemma_no_prefix_past_end(cur@, lines_bytes(lv, rest[0].2) + rest[0].3);
                    }
                }
                return None;
            },
        };
        assert(total <= 4 * (n as u128));
        let a = sa + sorted[k].1 as u128;
        let b = sb + sorted[k].3 as u128;
        let ia = edits::boundary_index(cur.as_slice(), a);
        let ib = edits::boundary_index(cur.as_slice(), b);
        match (ia, ib) {
            (Some(ia), Some(ib)) => {
                proof {
                    edits::lemma_byte_prefix(cur@, ia as int, a as nat);
                    edits::lemma_byte_prefix(cur@, ib as int, b as nat);
                }
                let mut next: Vec<char> = text::slice_of(cur.as_slice(), 0, ia);
                text::extend(&mut next, sorted[k].4.as_slice());
                text::extend_range(&mut next, cur.as_slice(), ib, n);
                cur = next;
            },
            _ => {
                return None;
            },
        }
        k += 1;
    }
    proof {
        assert(plan.subrange(plan.len() as int, plan.len() as int) =~= Seq::<(nat, nat, nat, nat, Seq<char>)>::empty());
    }
    Some(text::string_of(cur.as_slice()))
}

// ---------------------------------------------------------------------------
// Putting files back after a rename sequence
// ---------------------------------------------------------------------------

/// A file the rename sequence touched: where it is now, where it was when
/// the sequence started, and its content then.
pub struct RestoreEntry {
    pub current: String,
    pub original: String,
    pub content: Vec<u8>,
}

pub ghost struct Restore {
    pub current: Seq<char>,
    pub original: Seq<char>,
    pub content: Seq<u8>,
}

impl View for RestoreEntry {
    type V = Restore;

    open spec fn view(&self) -> Restore {
        Restore { current: self.current@, original: self.original@, content: self.content@ }
    }
}

pub open spec fn entries_view(v: Seq<RestoreEntry>) -> Seq<Restore> {
    v.map_values(|e: RestoreEntry| e@)
}

/// What happens to the files during a rename sequence.
pub enum RenameEvent {
    /// A step is about to rename `path`: whether the path existed before the
    /// sequence started, and its content now (`None` when it cannot be read).
    Touch { path: String, existed_at_start: bool, content: Option<Vec<u8>> },
    /// The file at `from` was moved to `to`.
    Moved { from: String, to: String },
}

pub ghost enum Event {
    Touch(Seq<char>, bool, Option<Seq<u8>>),
    Moved(Seq<char>, Seq<char>),
}

impl View for RenameEvent {
    type V = Event;

    open spec fn view(&self) -> Event {
        match self {
            RenameEvent::Touch { path, existed_at_start, content } => Event::Touch(
                path@,
                *existed_at_start,
                match content {
                    Some(c) => Some(c@),
                    None => None,
                },
            ),
            RenameEvent::Moved { from, to } => Event::Moved(from@, to@),
        }
    }
}

/// Whether some entry of the first `n` started at `path`.
pub open spec fn has_original(s: Seq<Restore>, path: Seq<char>, n: int) -> bool
    decreases n,
{
    if n <= 0 || n > s.len() {
        false
    } else {
        has_original(s, path, n - 1) || spec_path_eq(s[n - 1].original, path)
    }
}

/// The record after an event: a path that existed at the start is saved
/// with its content on its first touch; a move updates where every entry
/// at the moved path now is.
pub open spec fn restore_step(s: Seq<Restore>, e: Event) -> Seq<Restore> {
    match e {
        Event::Touch(path, existed, content) => if existed && !has_original(s, path, s.len() as int)
            && content is Some {
            s.push(Restore { current: path, original: path, content: content->0 })
        } else {
            s
        },
        Event::Moved(from, to) => Seq::new(
            s.len(),
            |i: int|
                if spec_path_eq(s[i].current, from) {
                    Restore { current: to, ..s[i] }
                } else {
                    s[i]
                },
        ),
    }
}

/// The record after a run of events.
pub open spec fn restore_steps(s: Seq<Restore>, es: Seq<Event>) -> Seq<Restore>
    decreases es.len(),
{
    if es.len() == 0 {
        s
    } else {
        restore_step(restore_steps(s, es.drop_last()), es.last())
    }
}

/// One closing action: move the file back from `from` (when it is no longer
/// at its original path), then write the original content at `to`.
pub struct RestoreAction {
    pub from: Option<String>,
    pub to: String,
    pub content: Vec<u8>,
}

pub ghost struct Action {
    pub from: Option<Seq<char>>,
    pub to: Seq<char>,
    pub content: Seq<u8>,
}

impl View for RestoreAction {
    type V = Action;

    open spec fn view(&self) -> Action {
        Action { from: text::opt_view(self.from), to: self.to@, content: self.content@ }
    }
}

/// The closing action of an entry.
pub open spec fn action_of(e: Restore) -> Action {
    Action {
        from: if spec_path_eq(e.current, e.original) {
            None
        } else {
            Some(e.current)
        },
        to: e.original,
        content: e.content,
    }
}

fn copy_bytes(v: &Vec<u8>) -> (r: Vec<u8>)
    ensures
        r@ == v@,
{
    let mut r: Vec<u8> = Vec::new();
    let mut i: usize = 0;
    while i < v.len()
        invariant
            i <= v@.len(),
            r@ == v@.subrange(0, i as int),
        decreases v.len() - i,
    {
        r.push(v[i]);
        i += 1;
        assert(r@ =~= v@.subrange(0, i as int));
    }
    assert(v@.subrange(0, v@.len() as int) =~= v@);
    r
}

/// Applies one event of a rename sequence to the record kept to put the
/// files back.
pub fn rename_restore_step(state: &mut Vec<RestoreEntry>, event: RenameEvent)
    ensures
        entries_view(final(state)@) == restore_step(entries_view(old(state)@), event@),
{
    let ghost s0 = entries_view(state@);
    let ghost ev0 = event@;
    match event {
        RenameEvent::Touch { path, existed_at_start, content } => {
            let ghost ev = Event::Touch(
                path@,
                existed_at_start,
                match &content {
                    Some(c) => Some(c@),
                    None => None,
                },
            );
            assert(ev0 == ev);
            if !existed_at_start {
                return;
            }
            let mut i: usize = 0;
            while i < state.len()
                invariant
                    i <= state@.len(),
                    s0 == entries_view(state@),
                    s0 == entries_view(old(state)@),
                    ev0 == ev,
                    ev0 == event@,
                    ev == Event::Touch(path@, existed_at_start, ev->Touch_2),
                    existed_at_start,
                    !has_original(s0, path@, i as int),
                decreases state.len() - i,
            {
                if path_eq(state[i].original.as_str(), path.as_str()) {
                    proof {
                        assert(s0[i as int].original == state@[i as int].original@);
                        assert(has_original(s0, path@, i as int + 1));
                        lemma_has_original_stays(s0, path@, i as int + 1, s0.len() as int);
                    }
                    return;
                }
                i += 1;
            }
            match content {
                Some(c) => {
                    let p2 = path.clone();
                    state.push(RestoreEntry { current: p2, original: path, content: c });
                    assert(entries_view(state@) =~= restore_step(s0, ev));
                },
                None => {},
            }
        },
        RenameEvent::Moved { from, to } => {
            let ghost ev = Event::Moved(from@, to@);
            let ghost target = restore_step(s0, ev);
            let mut i: usize = 0;
            while i < state.len()
                invariant
                    i <= state@.len(),
                    state@.len() == s0.len(),
                    target == restore_step(s0, ev),
                    ev == Event::Moved(from@, to@),
                    forall|k: int| 0 <= k < i ==> (#[trigger] entries_view(state@)[k]) == target[k],
                    forall|k: int| i <= k < s0.len() ==> (#[trigger] entries_view(state@)[k]) == s0[k],
                decreases state.len() - i,
            {
                let ghost before = entries_view(state@);
                assert(before[i as int] == s0[i as int]);
                if path_eq(state[i].current.as_str(), from.as_str()) {
                    let t = to.clone();
                    let mut e = state.remove(i);
                    e.current = t;
                    state.insert(i, e);
                    assert(entries_view(state@) =~= before.update(
                        i as int,
                        Restore { current: to@, ..s0[i as int] },
                    ));
                } else {
                    assert(target[i as int] == s0[i as int]);
                }
                i += 1;
            }
            assert(entries_view(state@) =~= target);
        },
    }
}

proof fn lemma_has_original_stays(s: Seq<Restore>, path: Seq<char>, k: int, n: int)
    requires
        0 <= k <= n <= s.len(),
        has_original(s, path, k),
    ensures
        has_original(s, path, n),
    decreases n - k,
{
    if k < n {
        lemma_has_original_stays(s, path, k, n - 1);
    }
}

/// The closing actions that put every recorded file back: each moves the
/// file back to where it started if it is elsewhere and writes its content
/// from the start.
pub fn restore_actions(state: &Vec<RestoreEntry>) -> (r: Vec<RestoreAction>)
    ensures
        r@.map_values(|a: RestoreAction| a@) == entries_view(state@).map_values(|e: Restore| action_of(e)),
{
    let ghost want = entries_view(state@).map_values(|e: Restore| action_of(e));
    let mut out: Vec<RestoreAction> = Vec::new();
    let mut i: usize = 0;
    while i < state.len()
        invariant
            i <= state@.len(),
            want == entries_view(state@).map_values(|e: Restore| action_of(e)),
            out@.len() == i,
            forall|k: int| 0 <= k < i ==> (#[trigger] out@[k])@ == want[k],
        decreases state.len() - i,
    {
        let e = &state[i];
        let from = if path_eq(e.current.as_str(), e.original.as_str()) {
            None
        } else {
            Some(e.current.clone())
        };
        out.push(RestoreAction { from, to: e.original.clone(), content: copy_bytes(&e.content) });
        i += 1;
    }
    assert(out@.map_values(|a: RestoreAction| a@) =~= want);
    out
}

} // verus!
