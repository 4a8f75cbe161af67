//! Shortened renderings of JSON values for the session logs: a one-line
//! inspect-style text and a value with long arrays cut.
use vstd::prelude::*;
use crate::json::{self, JsonValue, JsonNumber};
use crate::render;
use crate::serialize;
use crate::text::{self, chars_of, extend, extend_str};

verus! {

/// A string in compact form: quoted, its first 77 bytes and `...` when it
/// is longer than 80 bytes; `None` where byte 77 is inside a character.
pub open spec fn compact_str(s: Seq<char>) -> Option<Seq<char>> {
    if text::utf8_len(s) > 80 {
        match render::byte_prefix(s, 77) {
            Some(p) => Some(seq!['"'] + p + "...\""@),
            None => None,
        }
    } else {
        Some(seq!['"'] + s + seq!['"'])
    }
}

/// One-line inspect-style text of a value: arrays as `Array(N) [...]` with
/// at most `max` items shown then `... K more`, objects as `{ k: v, ... }`,
/// long strings cut. `None` where cutting a string would split a character.
pub open spec fn compact(v: json::Json, max: nat) -> Option<Seq<char>>
    decreases v, 1int,
{
    match v {
        json::Json::Null => Some("null"@),
        json::Json::Bool(b) => Some(
            if b {
                "true"@
            } else {
                "false"@
            },
        ),
        json::Json::Num(n) => Some(serialize::num_text(n)),
        json::Json::Str(s) => compact_str(s),
        json::Json::Arr(a) => if a.len() == 0 {
            Some("[]"@)
        } else {
            let shown = if max < a.len() {
                max
            } else {
                a.len()
            };
            match compact_items(a, max, shown as int) {
                Some(items) => Some(
                    "Array("@ + text::dec(a.len()) + ") ["@ + items + (if a.len() > max {
                        ", ... "@ + text::dec((a.len() - max) as nat) + " more"@
                    } else {
                        Seq::empty()
                    }) + "]"@,
                ),
                None => None,
            }
        },
        json::Json::Obj(m) => if m.len() == 0 {
            Some("{}"@)
        } else {
            match compact_members(m, max, m.len() as int) {
                Some(p) => Some("{ "@ + p + " }"@),
                None => None,
            }
        },
    }
}

/// The compact texts of the first `n` items, joined by ", ".
pub open spec fn compact_items(a: Seq<json::Json>, max: nat, n: int) -> Option<Seq<char>>
    decreases a, 0int, n,
{
    if n <= 0 || n > a.len() {
        Some(Seq::empty())
    } else if n == 1 {
        compact(a[0], max)
    } else {
        match (compact_items(a, max, n - 1), compact(a[n - 1], max)) {
            (Some(p), Some(x)) => Some(p + ", "@ + x),
            _ => None,
        }
    }
}

/// The first `n` members as `key: value`, joined by ", ".
pub open spec fn compact_members(m: Seq<(Seq<char>, json::Json)>, max: nat, n: int) -> Option<
    Seq<char>,
>
    decreases m, 0int, n,
{
    if n <= 0 || n > m.len() {
        Some(Seq::empty())
    } else if n == 1 {
        match compact(m[0].1, max) {
            Some(x) => Some(m[0].0 + ": "@ + x),
            None => None,
        }
    } else {
        match (compact_members(m, max, n - 1), compact(m[n - 1].1, max)) {
            (Some(p), Some(x)) => Some(p + ", "@ + m[n - 1].0 + ": "@ + x),
            _ => None,
        }
    }
}

fn compact_str_exec(s: &str) -> (r: Option<Vec<char>>)
    ensures
        match r {
            Some(t) => compact_str(s@) == Some(t@),
            None => compact_str(s@) is None,
        },
{
    let cs = chars_of(s);
    let n = cs.len();
    let mut acc: u128 = 0;
    let mut i: usize = 0;
    let mut cut: Option<usize> = None;
    assert(cs@.subrange(0, 0) =~= Seq::<char>::empty());
    while i < n
        invariant
            i <= n == cs@.len(),
            acc == text::utf8_len(cs@.subrange(0, i as int)),
            acc <= 4 * i,
            match cut {
                Some(k) => k <= i && text::utf8_len(cs@.subrange(0, k as int)) == 77,
                None => forall|k: int| 0 <= k <= i ==> text::utf8_len(#[trigger] cs@.subrange(0, k)) != 77,
            },
        decreases n - i,
    {
        proof {
            assert(cs@.subrange(0, i + 1) =~= cs@.subrange(0, i as int).push(cs@[i as int]));
            text::lemma_utf8_len_push(cs@.subrange(0, i as int), cs@[i as int]);
        }
        acc = acc + render::char_len_exec(cs[i]) as u128;
        i += 1;
        if acc == 77 && cut.is_none() {
            cut = Some(i);
        }
        proof {
            if cut is None {
                assert forall|k: int| 0 <= k <= i implies text::utf8_len(#[trigger] cs@.subrange(0, k)) != 77 by {
                    if k == i {
                    }
                }
            }
        }
    }
    assert(cs@.subrange(0, n as int) =~= cs@);
    let mut out: Vec<char> = Vec::new();
    out.push('"');
    if acc > 80 {
        match cut {
            Some(k) => {
                proof {
                    let j = choose|j: int| 0 <= j <= cs@.len() && text::utf8_len(cs@.subrange(0, j)) == 77;
                    render::lemma_prefix_unique(cs@, k as int, j);
                }
                text::extend_range(&mut out, cs.as_slice(), 0, k);
                extend_str(&mut out, "...\"");
                assert(out@ =~= seq!['"'] + cs@.subrange(0, k as int) + "...\""@);
                Some(out)
            },
            None => None,
        }
    } else {
        extend(&mut out, cs.as_slice());
        out.push('"');
        assert(out@ =~= seq!['"'] + s@ + seq!['"']);
        Some(out)
    }
}

fn push_dec(out: &mut Vec<char>, n: usize)
    ensures
        final(out)@ == old(out)@ + text::dec(n as nat),
{
    let d = text::dec_u64(n as u64);
    extend(out, d.as_slice());
}

/// Appends the compact text of a value; `false` (with `out` in an
/// unspecified state) where the text is undefined.
fn write_compact(out: &mut Vec<char>, v: &JsonValue, max: usize) -> (ok: bool)
    ensures
        ok == (compact(v@, max as nat) is Some),
        ok ==> final(out)@ == old(out)@ + compact(v@, max as nat)->0,
    decreases v,
{
    match v {
        JsonValue::Null => {
            extend_str(out, "null");
            true
        },
        JsonValue::Bool(b) => {
            if *b {
                extend_str(out, "true");
            } else {
                extend_str(out, "false");
            }
            true
        },
        JsonValue::Number(n) => {
            match n {
                JsonNumber::PosInt(u) => {
                    let d = text::dec_u64(*u);
                    extend(out, d.as_slice());
                },
                JsonNumber::NegInt(i) => {
                    let d = text::dec_i64(*i);
                    extend(out, d.as_slice());
                },
                JsonNumber::Float(t) => extend_str(out, t.as_str()),
            }
            true
        },
        JsonValue::String(s) => match compact_str_exec(s.as_str()) {
            Some(t) => {
                extend(out, t.as_slice());
                true
            },
            None => false,
        },
        JsonValue::Array(a) => {
            if a.len() == 0 {
                extend_str(out, "[]");
                return true;
            }
            let ghost sa = v@->Arr_0;
            let ghost start = out@;
            let shown: usize = if max < a.len() { max } else { a.len() };
            let mut items: Vec<char> = Vec::new();
            let mut i: usize = 0;
            assert(compact_items(sa, max as nat, 0) == Some(Seq::<char>::empty()));
            while i < shown
                invariant
                    i <= shown <= a@.len(),
                    shown == (if max < a@.len() { max } else { a@.len() as usize }),
                    *v == JsonValue::Array(*a),
                    sa == v@->Arr_0,
                    sa.len() == a@.len(),
                    forall|k: int| 0 <= k < a@.len() ==> #[trigger] sa[k] == a@[k]@,
                    compact_items(sa, max as nat, i as int) == Some(items@),
                    out@ == start,
                decreases shown - i,
            {
                proof {
                    assert(decreases_to!(*v => v->Array_0));
                    assert(decreases_to!(*a => a@));
                    assert(decreases_to!(a@ => a@[i as int]));
                }
                let ghost before = items@;
                if i > 0 {
                    extend_str(&mut items, ", ");
                }
                let ok = write_compact(&mut items, &a[i], max);
                if !ok {
                    proof {
                        assert(compact(sa[i as int], max as nat) is None);
                        lemma_items_none(sa, max as nat, i as int + 1, shown as int);
                    }
                    return false;
                }
                i += 1;
                assert(items@ =~= before + (if i > 1 {
                    ", "@
                } else {
                    Seq::empty()
                }) + compact(sa[i - 1], max as nat)->0);
            }
            extend_str(out, "Array(");
            push_dec(out, a.len());
            extend_str(out, ") [");
            extend(out, items.as_slice());
            let ghost mid = out@;
            if a.len() > max {
                extend_str(out, ", ... ");
                push_dec(out, a.len() - max);
                extend_str(out, " more");
            }
            extend_str(out, "]");
            assert(out@ =~= old(out)@ + compact(v@, max as nat)->0);
            true
        },
        JsonValue::Object(m) => {
            if m.len() == 0 {
                extend_str(out, "{}");
                return true;
            }
            let ghost sm = v@->Obj_0;
            let mut pairs: Vec<char> = Vec::new();
            let mut i: usize = 0;
            assert(compact_members(sm, max as nat, 0) == Some(Seq::<char>::empty()));
            while i < m.len()
                invariant
                    i <= m@.len(),
                    *v == JsonValue::Object(*m),
                    sm == v@->Obj_0,
                    sm.len() == m@.len(),
                    forall|k: int| 0 <= k < m@.len() ==> #[trigger] sm[k] == (m@[k].0@, m@[k].1@),
                    compact_members(sm, max as nat, i as int) == Some(pairs@),
                    out@ == old(out)@,
                decreases m.len() - i,
            {
                proof {
                    assert(decreases_to!(*v => v->Object_0));
                    assert(decreases_to!(*m => m@));
                    assert(decreases_to!(m@ => m@[i as int]));
                    assert(decreases_to!(m@[i as int] => m@[i as int].1));
                }
                let ghost before = pairs@;
                if i > 0 {
                    extend_str(&mut pairs, ", ");
                }
                extend_str(&mut pairs, m[i].0.as_str());
                extend_str(&mut pairs, ": ");
                let ok = write_compact(&mut pairs, &m[i].1, max);
                assert(sm[i as int] == (m@[i as int].0@, m@[i as int].1@));
                if !ok {
                    proof {
                        lemma_members_none(sm, max as nat, i as int + 1, m@.len() as int);
                    }
                    return false;
                }
                i += 1;
                assert(pairs@ =~= before + (if i > 1 {
                    ", "@
                } else {
                    Seq::empty()
                }) + sm[i - 1].0 + ": "@ + compact(sm[i - 1].1, max as nat)->0);
            }
            extend_str(out, "{ ");
            extend(out, pairs.as_slice());
            extend_str(out, " }");
            assert(out@ =~= old(out)@ + compact(v@, max as nat)->0);
            true
        },
    }
}

proof fn lemma_items_none(a: Seq<json::Json>, max: nat, n: int, m: int)
    requires
        1 <= n <= m <= a.len(),
        compact_items(a, max, n) is None,
    ensures
        compact_items(a, max, m) is None,
    decreases m - n,
{
    if n < m {
        lemma_items_none(a, max, n, m - 1);
    }
}

proof fn lemma_members_none(s: Seq<(Seq<char>, json::Json)>, max: nat, n: int, m: int)
    requires
        1 <= n <= m <= s.len(),
        compact_members(s, max, n) is None,
    ensures
        compact_members(s, max, m) is None,
    decreases m - n,
{
    if n < m {
        lemma_members_none(s, max, n, m - 1);
    }
}

/// Checked form of `compact_json`: `None` where cutting a long string would
/// split a character.
pub fn try_compact_json(value: &JsonValue, max: usize) -> (r: Option<String>)
    ensures
        text::opt_view(r) == compact(value@, max as nat),
{
    let mut out: Vec<char> = Vec::new();
    if write_compact(&mut out, value, max) {
        assert(out@ =~= compact(value@, max as nat)->0);
        Some(text::string_of(out.as_slice()))
    } else {
        None
    }
}

/// Formats a JSON value as a compact inspect-style line, e.g.
/// `Array(188) [{ kind: 7, label: "Shop" }, ... 187 more]`.
pub fn compact_json(value: &JsonValue, max: usize) -> (r: String)
    requires
        compact(value@, max as nat) is Some,
    ensures
        r@ == compact(value@, max as nat)->0,
{
    let mut out: Vec<char> = Vec::new();
    let ok = write_compact(&mut out, value, max);
    assert(out@ =~= compact(value@, max as nat)->0);
    text::string_of(out.as_slice())
}

// ---------------------------------------------------------------------------
// Cutting long arrays
// ---------------------------------------------------------------------------

/// The note that replaces the items cut from an array.
pub open spec fn more_note(len: nat, max: nat) -> Seq<char> {
    "... "@ + text::dec((len - max) as nat) + " more ("@ + text::dec(len) + " total)"@
}

/// The value with every array longer than `max` cut to its first `max`
/// items plus a string note, recursively; objects keep their members.
pub open spec fn cut_arrays(v: json::Json, max: nat) -> json::Json
    decreases v, 1int,
{
    match v {
        json::Json::Arr(a) => if a.len() <= max {
            json::Json::Arr(cut_items(a, max, a.len() as int))
        } else {
            json::Json::Arr(cut_items(a, max, max as int).push(json::Json::Str(more_note(a.len(), max))))
        },
        json::Json::Obj(m) => json::Json::Obj(cut_members(m, max, m.len() as int)),
        _ => v,
    }
}

pub open spec fn cut_items(a: Seq<json::Json>, max: nat, n: int) -> Seq<json::Json>
    decreases a, 0int, n,
{
    if n <= 0 || n > a.len() {
        Seq::empty()
    } else {
        cut_items(a, max, n - 1).push(cut_arrays(a[n - 1], max))
    }
}

pub open spec fn cut_members(m: Seq<(Seq<char>, json::Json)>, max: nat, n: int) -> Seq<
    (Seq<char>, json::Json),
>
    decreases m, 0int, n,
{
    if n <= 0 || n > m.len() {
        Seq::empty()
    } else {
        cut_members(m, max, n - 1).push((m[n - 1].0, cut_arrays(m[n - 1].1, max)))
    }
}

/// Cuts arrays longer than `max` to their first `max` items and a note
/// "... K more (N total)", so that the value still prints as JSON.
pub fn truncate_json(value: &JsonValue, max: usize) -> (r: JsonValue)
    ensures
        r@ == cut_arrays(value@, max as nat),
    decreases value,
{
    match value {
        JsonValue::Array(a) => {
            let ghost sa = value@->Arr_0;
            let n: usize = if a.len() <= max { a.len() } else { max };
            let mut out: Vec<JsonValue> = Vec::new();
            let mut i: usize = 0;
            while i < n
                invariant
                    i <= n <= a@.len(),
                    *value == JsonValue::Array(*a),
                    sa == value@->Arr_0,
                    sa.len() == a@.len(),
                    forall|k: int| 0 <= k < a@.len() ==> #[trigger] sa[k] == a@[k]@,
                    out@.map_values(|x: JsonValue| x@) == cut_items(sa, max as nat, i as int),
                decreases n - i,
            {
                proof {
                    assert(decreases_to!(*value => value->Array_0));
                    assert(decreases_to!(*a => a@));
                    assert(decreases_to!(a@ => a@[i as int]));
                }
                let ghost before = out@.map_values(|x: JsonValue| x@);
                let e = truncate_json(&a[i], max);
                out.push(e);
                i += 1;
                assert(out@.map_values(|x: JsonValue| x@) =~= before.push(cut_arrays(sa[i - 1], max as nat)));
            }
            if a.len() > max {
                let mut note: Vec<char> = Vec::new();
                extend_str(&mut note, "... ");
                push_dec(&mut note, a.len() - max);
                extend_str(&mut note, " more (");
                push_dec(&mut note, a.len());
                extend_str(&mut note, " total)");
                let ghost before = out@.map_values(|x: JsonValue| x@);
                out.push(JsonValue::String(text::string_of(note.as_slice())));
                assert(out@.map_values(|x: JsonValue| x@) =~= before.push(json::Json::Str(more_note(a@.len(), max as nat))));
            }
            let r = JsonValue::Array(out);
            assert(r@->Arr_0 =~= out@.map_values(|x: JsonValue| x@));
            r
        },
        JsonValue::Object(m) => {
            let ghost sm = value@->Obj_0;
            let mut out: Vec<(String, JsonValue)> = Vec::new();
            let mut i: usize = 0;
            while i < m.len()
                invariant
                    i <= m@.len(),
                    *value == JsonValue::Object(*m),
                    sm == value@->Obj_0,
                    sm.len() == m@.len(),
                    forall|k: int| 0 <= k < m@.len() ==> #[trigger] sm[k] == (m@[k].0@, m@[k].1@),
                    out@.map_values(|x: (String, JsonValue)| (x.0@, x.1@)) == cut_members(sm, max as nat, i as int),
                decreases m.len() - i,
            {
                proof {
                    assert(decreases_to!(*value => value->Object_0));
                    assert(decreases_to!(*m => m@));
                    assert(decreases_to!(m@ => m@[i as int]));
                    assert(decreases_to!(m@[i as int] => m@[i as int].1));
                }
                let ghost before = out@.map_values(|x: (String, JsonValue)| (x.0@, x.1@));
                let e = truncate_json(&m[i].1, max);
                let k = m[i].0.clone();
                out.push((k, e));
                i += 1;
                assert(sm[i - 1] == (m@[i - 1].0@, m@[i - 1].1@));
                assert(out@.map_values(|x: (String, JsonValue)| (x.0@, x.1@)) =~= before.push((sm[i - 1].0, cut_arrays(sm[i - 1].1, max as nat))));
            }
            let r = JsonValue::Object(out);
            assert(r@->Obj_0 =~= out@.map_values(|x: (String, JsonValue)| (x.0@, x.1@)));
            r
        },
        _ => value.duplicate(),
    }
}

} // verus!
