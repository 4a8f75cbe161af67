//! LSP positions in UTF-8 text and the application of text edits, as the
//! file-operation benchmarks apply a server's `WorkspaceEdit` on disk.
use vstd::prelude::*;
use crate::json::{self, JsonValue};
use crate::render;
use crate::text::{self, chars_of};

verus! {

// ---------------------------------------------------------------------------
// Positions
// ---------------------------------------------------------------------------

/// The index of the first line feed of `s`, or its length when it has none.
pub open spec fn first_nl(s: Seq<char>) -> nat
    decreases s.len(),
{
    if s.len() == 0 || s[0] == '\n' {
        0
    } else {
        1 + first_nl(s.drop_first())
    }
}

/// The end of the first line of `s` with its line feed included.
pub open spec fn line_end(s: Seq<char>) -> nat {
    if first_nl(s) < s.len() {
        first_nl(s) + 1
    } else {
        s.len()
    }
}

/// Byte offset of the LSP position (`line`, `ch`) in `s`, counting `ch` in
/// characters and stopping at the end of the line; the text's length when
/// the line does not exist.
pub open spec fn pos_offset(s: Seq<char>, line: nat, ch: nat) -> nat
    decreases s.len(),
{
    if s.len() == 0 {
        0
    } else if line == 0 {
        let k = if ch < first_nl(s) {
            ch
        } else {
            first_nl(s)
        };
        text::utf8_len(s.subrange(0, k as int))
    } else {
        let e = line_end(s);
        if 0 < e <= s.len() {
            text::utf8_len(s.subrange(0, e as int)) + pos_offset(
                s.subrange(e as int, s.len() as int),
                (line - 1) as nat,
                ch,
            )
        } else {
            text::utf8_len(s)
        }
    }
}

proof fn lemma_first_nl(s: Seq<char>, k: int)
    requires
        0 <= k <= s.len(),
        forall|m: int| 0 <= m < k ==> s[m] != '\n',
        k == s.len() || s[k] == '\n',
    ensures
        first_nl(s) == k,
    decreases k,
{
    if k > 0 {
        lemma_first_nl(s.drop_first(), k - 1);
    }
}

pub proof fn lemma_first_nl_bound(s: Seq<char>)
    ensures
        first_nl(s) <= s.len(),
    decreases s.len(),
{
    if s.len() > 0 && s[0] != '\n' {
        lemma_first_nl_bound(s.drop_first());
    }
}

/// Bytes taken by `s[lo..hi]`.
pub(crate) fn bytes_between(s: &[char], lo: usize, hi: usize) -> (r: u128)
    requires
        lo <= hi <= s@.len(),
    ensures
        r == text::utf8_len(s@.subrange(lo as int, hi as int)),
{
    let mut acc: u128 = 0;
    let mut k: usize = lo;
    assert(s@.subrange(lo as int, lo as int) =~= Seq::<char>::empty());
    while k < hi
        invariant
            lo <= k <= hi <= s@.len(),
            acc == text::utf8_len(s@.subrange(lo as int, k as int)),
            acc <= 4 * (k - lo),
        decreases hi - k,
    {
        proof {
            assert(s@.subrange(lo as int, k + 1) =~= s@.subrange(lo as int, k as int).push(s@[k as int]));
            text::lemma_utf8_len_push(s@.subrange(lo as int, k as int), s@[k as int]);
        }
        acc = acc + render::char_len_exec(s[k]) as u128;
        k += 1;
    }
    acc
}

pub proof fn lemma_split_bytes(s: Seq<char>, i: int, j: int)
    requires
        0 <= i <= j <= s.len(),
    ensures
        text::utf8_len(s.subrange(0, j)) == text::utf8_len(s.subrange(0, i)) + text::utf8_len(
            s.subrange(i, j),
        ),
        text::utf8_len(s.subrange(0, j)) <= text::utf8_len(s),
{
    text::lemma_utf8_len_concat(s.subrange(0, i), s.subrange(i, j));
    assert(s.subrange(0, i) + s.subrange(i, j) =~= s.subrange(0, j));
    text::lemma_utf8_len_mono(s, j, j);
}

/// Converts an LSP line/character position to a byte offset in UTF-8 text.
pub fn lsp_pos_to_byte_offset(text: &str, line: usize, character: usize) -> (r: usize)
    requires
        text::utf8_len(text@) <= usize::MAX,
    ensures
        r == pos_offset(text@, line as nat, character as nat),
{
    let cs = chars_of(text);
    let n = cs.len();
    let ghost s = text@;
    let mut i: usize = 0;
    let mut cur: usize = 0;
    let mut byte_idx: usize = 0;
    assert(s.subrange(0, 0) =~= Seq::<char>::empty());
    assert(s.subrange(0, n as int) =~= s);
    while i < n
        invariant
            cs@ == s,
            s == text@,
            n == s.len(),
            i <= n,
            cur <= line,
            text::utf8_len(s) <= usize::MAX,
            byte_idx == text::utf8_len(s.subrange(0, i as int)),
            pos_offset(s, line as nat, character as nat) == byte_idx + pos_offset(
                s.subrange(i as int, n as int),
                (line - cur) as nat,
                character as nat,
            ),
        decreases n - i,
    {
        let ghost rest = s.subrange(i as int, n as int);
        let mut j: usize = i;
        while j < n && cs[j] != '\n'
            invariant
                i <= j <= n,
                cs@ == s,
                n == s.len(),
                forall|m: int| i <= m < j ==> s[m] != '\n',
            decreases n - j,
        {
            j += 1;
        }
        proof {
            assert forall|m: int| 0 <= m < j - i implies rest[m] != '\n' by {
                assert(rest[m] == s[i + m]);
            }
            if j < n {
                assert(rest[j - i] == s[j as int]);
            }
            lemma_first_nl(rest, j - i);
        }
        if cur == line {
            let stop: usize = if character < j - i { i + character } else { j };
            let b = bytes_between(cs.as_slice(), i, stop);
            proof {
                assert(rest.subrange(0, stop - i) =~= s.subrange(i as int, stop as int));
                lemma_split_bytes(s, i as int, stop as int);
                lemma_split_bytes(s, stop as int, n as int);
                assert(rest.len() > 0);
                assert(pos_offset(rest, 0, character as nat) == text::utf8_len(
                    rest.subrange(0, stop - i),
                ));
                assert(byte_idx + b <= usize::MAX);
            }
            return byte_idx + b as usize;
        }
        let end: usize = if j < n { j + 1 } else { j };
        let b = bytes_between(cs.as_slice(), i, end);
        proof {
            assert(line_end(rest) == end - i);
            assert(rest.subrange(0, end - i) =~= s.subrange(i as int, end as int));
            assert(rest.subrange(end - i, rest.len() as int) =~= s.subrange(end as int, n as int));
            lemma_split_bytes(s, i as int, end as int);
            lemma_split_bytes(s, end as int, n as int);
        }
        byte_idx = byte_idx + b as usize;
        cur = cur + 1;
        i = end;
    }
    proof {
        assert(s.subrange(n as int, n as int).len() == 0);
    }
    byte_idx
}


// ---------------------------------------------------------------------------
// Text edits
// ---------------------------------------------------------------------------

/// An edit ready to apply: byte range `start..end` and the new text.
pub type PlannedEdit = (usize, usize, Vec<char>);

pub open spec fn planned_view(e: PlannedEdit) -> (nat, nat, Seq<char>) {
    (e.0 as nat, e.1 as nat, e.2@)
}

/// A number read from an optional JSON value, as `as_u64()? as usize`.
pub open spec fn opt_index(o: Option<json::Json>) -> Option<nat> {
    match json::opt_u64(o) {
        Some(v) => Some((v as usize) as nat),
        None => None,
    }
}

/// The byte range and new text of an LSP TextEdit, positions resolved in
/// `content`; `None` when a field is missing or has the wrong type.
pub open spec fn edit_of(content: Seq<char>, e: json::Json) -> Option<(nat, nat, Seq<char>)> {
    let range = e.get("range"@);
    let start = json::Json::opt_get(range, "start"@);
    let end = json::Json::opt_get(range, "end"@);
    match (
        json::opt_str(e.get("newText"@)),
        opt_index(json::Json::opt_get(start, "line"@)),
        opt_index(json::Json::opt_get(start, "character"@)),
        opt_index(json::Json::opt_get(end, "line"@)),
        opt_index(json::Json::opt_get(end, "character"@)),
    ) {
        (Some(t), Some(sl), Some(sc), Some(el), Some(ec)) => Some(
            (pos_offset(content, sl, sc), pos_offset(content, el, ec), t),
        ),
        _ => None,
    }
}

/// The well-formed edits of a list, in order.
pub open spec fn planned(content: Seq<char>, es: Seq<json::Json>) -> Seq<(nat, nat, Seq<char>)>
    decreases es.len(),
{
    if es.len() == 0 {
        Seq::empty()
    } else {
        planned(content, es.drop_last()) + match edit_of(content, es.last()) {
            Some(x) => seq![x],
            None => Seq::empty(),
        }
    }
}

/// `a` comes no later than `b` in descending (start, end) order.
pub open spec fn key_ge(a: (nat, nat, Seq<char>), b: (nat, nat, Seq<char>)) -> bool {
    a.0 > b.0 || (a.0 == b.0 && a.1 >= b.1)
}

/// `x` inserted into a list sorted by descending (start, end), after every
/// element whose key is at least its own.
pub open spec fn insert_desc(s: Seq<(nat, nat, Seq<char>)>, x: (nat, nat, Seq<char>)) -> Seq<
    (nat, nat, Seq<char>),
>
    decreases s.len(),
{
    if s.len() == 0 || key_ge(s.last(), x) {
        s.push(x)
    } else {
        insert_desc(s.drop_last(), x).push(s.last())
    }
}

/// The edits stably sorted by descending (start, end): later ranges first,
/// edits with equal ranges in their original order.
pub open spec fn sort_desc(es: Seq<(nat, nat, Seq<char>)>) -> Seq<(nat, nat, Seq<char>)>
    decreases es.len(),
{
    if es.len() == 0 {
        Seq::empty()
    } else {
        insert_desc(sort_desc(es.drop_last()), es.last())
    }
}

/// `String::replace_range(a..b, t)`: `None` where `a` or `b` is not a
/// character boundary (the call panics there).
pub open spec fn replace_bytes(s: Seq<char>, a: nat, b: nat, t: Seq<char>) -> Option<Seq<char>> {
    match (render::byte_prefix(s, a), render::byte_prefix(s, b)) {
        (Some(p), Some(q)) => Some(p + t + s.subrange(q.len() as int, s.len() as int)),
        _ => None,
    }
}

/// Applies edits in order; an edit whose range is reversed or ends past the
/// text is skipped.
pub open spec fn apply_edits(content: Seq<char>, es: Seq<(nat, nat, Seq<char>)>) -> Option<Seq<char>>
    decreases es.len(),
{
    if es.len() == 0 {
        Some(content)
    } else {
        let (a, b, t) = es[0];
        let next = if a <= b && b <= text::utf8_len(content) {
            replace_bytes(content, a, b, t)
        } else {
            Some(content)
        };
        match next {
            Some(c) => apply_edits(c, es.drop_first()),
            None => None,
        }
    }
}

/// The text after a list of LSP TextEdits: positions resolved in the
/// original text, edits applied from the end of the text backwards.
pub open spec fn edited(content: Seq<char>, es: Seq<json::Json>) -> Option<Seq<char>> {
    apply_edits(content, sort_desc(planned(content, es)))
}

pub open spec fn jsons(v: Seq<JsonValue>) -> Seq<json::Json> {
    v.map_values(|e: JsonValue| e@)
}

proof fn lemma_insert_desc(s: Seq<(nat, nat, Seq<char>)>, x: (nat, nat, Seq<char>), p: int)
    requires
        0 <= p <= s.len(),
        forall|m: int| p <= m < s.len() ==> !key_ge(#[trigger] s[m], x),
        p == 0 || key_ge(s[p - 1], x),
    ensures
        insert_desc(s, x) == s.subrange(0, p).push(x) + s.subrange(p, s.len() as int),
    decreases s.len(),
{
    if s.len() == 0 {
        assert(s.subrange(0, p).push(x) + s.subrange(p, s.len() as int) =~= s.push(x));
    } else if p == s.len() {
        assert(s.subrange(0, p).push(x) + s.subrange(p, s.len() as int) =~= s.push(x));
    } else {
        assert(!key_ge(s[s.len() - 1], x));
        let t = s.drop_last();
        assert forall|m: int| p <= m < t.len() implies !key_ge(#[trigger] t[m], x) by {
            assert(t[m] == s[m]);
        }
        if p > 0 {
            assert(t[p - 1] == s[p - 1]);
        }
        lemma_insert_desc(t, x, p);
        assert(t.subrange(0, p) =~= s.subrange(0, p));
        assert((t.subrange(0, p).push(x) + t.subrange(p, t.len() as int)).push(s.last())
            =~= s.subrange(0, p).push(x) + s.subrange(p, s.len() as int));
    }
}

fn key_ge_exec(a: &PlannedEdit, b: &PlannedEdit) -> (r: bool)
    ensures
        r == key_ge(planned_view(*a), planned_view(*b)),
{
    a.0 > b.0 || (a.0 == b.0 && a.1 >= b.1)
}

/// Inserts an edit into a list sorted by descending (start, end).
fn insert_sorted(out: &mut Vec<PlannedEdit>, x: PlannedEdit)
    ensures
        final(out)@.map_values(|e: PlannedEdit| planned_view(e)) == insert_desc(
            old(out)@.map_values(|e: PlannedEdit| planned_view(e)),
            planned_view(x),
        ),
{
    let ghost sv = out@.map_values(|e: PlannedEdit| planned_view(e));
    let ghost xv = planned_view(x);
    let mut k: usize = out.len();
    while k > 0 && !key_ge_exec(&out[k - 1], &x)
        invariant
            k <= out@.len(),
            sv == out@.map_values(|e: PlannedEdit| planned_view(e)),
            xv == planned_view(x),
            forall|m: int| k <= m < sv.len() ==> !key_ge(#[trigger] sv[m], xv),
        decreases k,
    {
        k -= 1;
    }
    proof {
        lemma_insert_desc(sv, xv, k as int);
    }
    out.insert(k, x);
    assert(out@.map_values(|e: PlannedEdit| planned_view(e)) =~= sv.subrange(0, k as int).push(xv)
        + sv.subrange(k as int, sv.len() as int));
}

/// The character index where the first `b` bytes of `s` end, if `b` falls
/// on a character boundary.
pub(crate) fn boundary_index(s: &[char], b: u128) -> (r: Option<usize>)
    ensures
        match r {
            Some(i) => i <= s@.len() && text::utf8_len(s@.subrange(0, i as int)) == b,
            None => !render::is_boundary(s@, b as nat),
        },
{
    let mut i: usize = 0;
    let mut acc: u128 = 0;
    assert(s@.subrange(0, 0) =~= Seq::<char>::empty());
    while i < s.len() && acc < b
        invariant
            i <= s@.len(),
            acc == text::utf8_len(s@.subrange(0, i as int)),
            acc <= 4 * i,
            forall|k: int| 0 <= k < i ==> text::utf8_len(#[trigger] s@.subrange(0, k)) < b,
        decreases s.len() - i,
    {
        proof {
            assert(s@.subrange(0, i + 1) =~= s@.subrange(0, i as int).push(s@[i as int]));
            text::lemma_utf8_len_push(s@.subrange(0, i as int), s@[i as int]);
        }
        acc = acc + render::char_len_exec(s[i]) as u128;
        i += 1;
    }
    if acc == b {
        Some(i)
    } else {
        proof {
            assert forall|k: int| 0 <= k <= s@.len() implies text::utf8_len(#[trigger] s@.subrange(0, k))
                != b by {
                if k > i {
                    text::lemma_utf8_len_mono(s@, i as int, k);
                } else if k == i {
                }
            }
        }
        None
    }
}

pub(crate) proof fn lemma_byte_prefix(s: Seq<char>, i: int, b: nat)
    requires
        0 <= i <= s.len(),
        text::utf8_len(s.subrange(0, i)) == b,
    ensures
        render::byte_prefix(s, b) == Some(s.subrange(0, i)),
{
    assert(render::is_boundary(s, b));
    let j = choose|j: int| 0 <= j <= s.len() && text::utf8_len(s.subrange(0, j)) == b;
    render::lemma_prefix_unique(s, i, j);
}

/// Reads the range and new text of one TextEdit.
fn edit_fields(e: &JsonValue) -> (r: Option<(String, u64, u64, u64, u64)>)
    ensures
        match r {
            Some((t, a, b, c, d)) => {
                let range = e@.get("range"@);
                let start = json::Json::opt_get(range, "start"@);
                let end = json::Json::opt_get(range, "end"@);
                &&& json::opt_str(e@.get("newText"@)) == Some(t@)
                &&& json::opt_u64(json::Json::opt_get(start, "line"@)) == Some(a)
                &&& json::opt_u64(json::Json::opt_get(start, "character"@)) == Some(b)
                &&& json::opt_u64(json::Json::opt_get(end, "line"@)) == Some(c)
                &&& json::opt_u64(json::Json::opt_get(end, "character"@)) == Some(d)
            },
            None => {
                let range = e@.get("range"@);
                let start = json::Json::opt_get(range, "start"@);
                let end = json::Json::opt_get(range, "end"@);
                ||| json::opt_str(e@.get("newText"@)) is None
                ||| json::opt_u64(json::Json::opt_get(start, "line"@)) is None
                ||| json::opt_u64(json::Json::opt_get(start, "character"@)) is None
                ||| json::opt_u64(json::Json::opt_get(end, "line"@)) is None
                ||| json::opt_u64(json::Json::opt_get(end, "character"@)) is None
            },
        },
{
    let t = match e.get("newText") {
        Some(v) => v.as_str(),
        None => None,
    };
    let t = match t {
        Some(t) => t,
        None => {
            return None;
        },
    };
    let range = e.get("range");
    let start = match range {
        Some(r) => r.get("start"),
        None => None,
    };
    let end = match range {
        Some(r) => r.get("end"),
        None => None,
    };
    let a = match start {
        Some(x) => match x.get("line") {
            Some(v) => v.as_u64(),
            None => None,
        },
        None => None,
    };
    let b = match start {
        Some(x) => match x.get("character") {
            Some(v) => v.as_u64(),
            None => None,
        },
        None => None,
    };
    let c = match end {
        Some(x) => match x.get("line") {
            Some(v) => v.as_u64(),
            None => None,
        },
        None => None,
    };
    let d = match end {
        Some(x) => match x.get("character") {
            Some(v) => v.as_u64(),
            None => None,
        },
        None => None,
    };
    match (a, b, c, d) {
        (Some(a), Some(b), Some(c), Some(d)) => Some((t.to_owned(), a, b, c, d)),
        _ => None,
    }
}

/// Applies a list of LSP TextEdits (JSON form) to UTF-8 text: positions
/// are resolved in the original text, then the edits are applied from the
/// end of the text backwards. `None` where an edit would cut a character
/// in two.
pub fn try_apply_text_edits_from_json(content: String, edits_json: &[JsonValue]) -> (r: Option<String>)
    requires
        text::utf8_len(content@) <= usize::MAX,
    ensures
        text::opt_view(r) == edited(content@, jsons(edits_json@)),
{
    let ghost orig = content@;
    let ghost ej = jsons(edits_json@);
    // Resolve every well-formed edit against the original text, sorting as
    // they come.
    let mut sorted: Vec<PlannedEdit> = Vec::new();
    let mut i: usize = 0;
    assert(ej.subrange(0, 0) =~= Seq::<json::Json>::empty());
    while i < edits_json.len()
        invariant
            i <= edits_json@.len(),
            ej == jsons(edits_json@),
            orig == content@,
            text::utf8_len(content@) <= usize::MAX,
            sorted@.map_values(|e: PlannedEdit| planned_view(e)) == sort_desc(
                planned(orig, ej.subrange(0, i as int)),
            ),
        decreases edits_json.len() - i,
    {
        let ghost pre = ej.subrange(0, i as int);
        assert(ej.subrange(0, i + 1).drop_last() =~= pre);
        assert(ej.subrange(0, i + 1).last() == edits_json@[i as int]@);
        match edit_fields(&edits_json[i]) {
            Some((t, a, b, c, d)) => {
                let sa = lsp_pos_to_byte_offset(content.as_str(), #[verifier::truncate] (a as usize), #[verifier::truncate] (b as usize));
                let sb = lsp_pos_to_byte_offset(content.as_str(), #[verifier::truncate] (c as usize), #[verifier::truncate] (d as usize));
                let tv = chars_of(t.as_str());
                let x: PlannedEdit = (sa, sb, tv);
                proof {
                    assert(edit_of(orig, ej[i as int]) == Some(planned_view(x)));
                    assert(planned(orig, ej.subrange(0, i + 1)) =~= planned(orig, pre).push(
                        planned_view(x),
                    ));
                    let q = planned(orig, ej.subrange(0, i + 1));
                    assert(q.drop_last() =~= planned(orig, pre));
                }
                insert_sorted(&mut sorted, x);
            },
            None => {
                proof {
                    assert(edit_of(orig, ej[i as int]) is None);
                    assert(planned(orig, ej.subrange(0, i + 1)) =~= planned(orig, pre));
                }
            },
        }
        i += 1;
    }
    assert(ej.subrange(0, edits_json@.len() as int) =~= ej);
    // Apply them in order.
    let ghost plan = sorted@.map_values(|e: PlannedEdit| planned_view(e));
    let mut cur: Vec<char> = chars_of(content.as_str());
    let mut k: usize = 0;
    assert(plan.subrange(0, plan.len() as int) =~= plan);
    while k < sorted.len()
        invariant
            k <= sorted@.len(),
            plan == sorted@.map_values(|e: PlannedEdit| planned_view(e)),
            apply_edits(cur@, plan.subrange(k as int, plan.len() as int)) == edited(orig, ej),
            orig == content@,
            ej == jsons(edits_json@),
        decreases sorted.len() - k,
    {
        let ghost rest = plan.subrange(k as int, plan.len() as int);
        assert(rest.drop_first() =~= plan.subrange(k + 1, plan.len() as int));
        assert(rest[0] == planned_view(sorted@[k as int]));
        let a = sorted[k].0;
        let b = sorted[k].1;
        let n = cur.len();
        let clen = bytes_between(cur.as_slice(), 0, n);
        assert(cur@.subrange(0, n as int) =~= cur@);
        if a <= b && (b as u128) <= clen {
            let ia = boundary_index(cur.as_slice(), a as u128);
            let ib = boundary_index(cur.as_slice(), b as u128);
            match (ia, ib) {
                (Some(ia), Some(ib)) => {
                    proof {
                        lemma_byte_prefix(cur@, ia as int, a as nat);
                        lemma_byte_prefix(cur@, ib as int, b as nat);
                    }
                    let mut next: Vec<char> = text::slice_of(cur.as_slice(), 0, ia);
                    text::extend(&mut next, sorted[k].2.as_slice());
                    text::extend_range(&mut next, cur.as_slice(), ib, n);
                    cur = next;
                },
                _ => {
                    proof {
                        assert(replace_bytes(cur@, a as nat, b as nat, rest[0].2) is None);
                        assert(rest.len() > 0);
                        assert(rest[0].0 == a as nat && rest[0].1 == b as nat);
                        assert(clen == text::utf8_len(cur@));
                        assert(apply_edits(cur@, rest) is None);
                    }
                    return None;
                },
            }
        }
        k += 1;
    }
    proof {
        assert(plan.subrange(plan.len() as int, plan.len() as int) =~= Seq::<(nat, nat, Seq<char>)>::empty());
    }
    Some(text::string_of(cur.as_slice()))
}

/// Applies a list of LSP TextEdits (JSON form) to UTF-8 text: positions
/// are resolved in the original text, then the edits are applied from the
/// end of the text backwards.
pub fn apply_text_edits_from_json(content: String, edits_json: &[JsonValue]) -> (r: String)
    requires
        text::utf8_len(content@) <= usize::MAX,
        edited(content@, jsons(edits_json@)) is Some,
    ensures
        r@ == edited(content@, jsons(edits_json@))->0,
{
    match try_apply_text_edits_from_json(content, edits_json) {
        Some(r) => r,
        None => String::new(),
    }
}

} // verus!
