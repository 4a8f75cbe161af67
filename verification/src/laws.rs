//! Properties of the library that span its functions, proved over the
//! specifications their contracts use.
use vstd::prelude::*;
use crate::analysis;
use crate::compact;
use crate::doc;
use crate::competition;
use crate::config;
use crate::delta;
use crate::edits;
use crate::parse;
use crate::protocol;
use crate::readme;
use crate::requests;
use crate::json;
use crate::lifecycle;
use crate::render;
use crate::report;
use crate::response;
use crate::session;
use crate::summary;
use crate::text;

verus! {

// ---------------------------------------------------------------------------
// Correctness verdicts
// ---------------------------------------------------------------------------

/// `check_correctness` prints ✓ exactly when `is_correct` holds.
pub proof fn law_check_mark_iff_correct(bench: Seq<char>, srv: json::Json)
    ensures
        ((if report::correct(bench, srv) {
            report::check_mark()
        } else {
            report::cross_mark()
        }) == report::check_mark()) == report::correct(bench, srv),
{
    if !report::correct(bench, srv) {
        assert(report::cross_mark()[0] != report::check_mark()[0]);
    }
}

/// A correct result with a non-null response is logged as content.
pub proof fn law_correct_response_is_content(bench: Seq<char>, srv: json::Json)
    requires
        report::correct(bench, srv),
        report::parsed_response(srv) != json::Json::Null,
    ensures
        report::response_class(bench, srv) == ("content"@, true),
{
}

/// An empty response is never correct, except a null result for the
/// methods where null is a valid answer.
pub proof fn law_empty_response_is_incorrect(bench: Seq<char>, srv: json::Json)
    requires
        report::is_empty_response(report::parsed_response(srv)),
        !(report::parsed_response(srv) == json::Json::Null && response::allows_null_result(bench)),
    ensures
        !report::correct(bench, srv),
{
}

// ---------------------------------------------------------------------------
// Truncation and anchors
// ---------------------------------------------------------------------------

/// `truncate` keeps a text that fits; a longer one becomes exactly its
/// first `max` bytes followed by `...`.
pub proof fn law_truncate_shape(s: Seq<char>, max: nat)
    requires
        render::truncate_spec(s, max) is Some,
    ensures
        text::utf8_len(s) <= max ==> render::truncate_spec(s, max) == Some(s),
        text::utf8_len(s) > max ==> exists|i: int|
            0 <= i <= s.len() && text::utf8_len(s.subrange(0, i)) == max
                && render::truncate_spec(s, max) == Some(s.subrange(0, i) + "..."@),
        text::utf8_len(s) > max ==> text::utf8_len(render::truncate_spec(s, max)->0) == max + 3,
{
    if text::utf8_len(s) > max {
        let i = choose|i: int| 0 <= i <= s.len() && text::utf8_len(s.subrange(0, i)) == max;
        assert(render::byte_prefix(s, max) == Some(s.subrange(0, i)));
        text::lemma_utf8_len_concat(s.subrange(0, i), "..."@);
        reveal_strlit("...");
        reveal_with_fuel(text::utf8_len, 4);
        assert("..."@.drop_last().drop_last().drop_last() =~= Seq::<char>::empty());
        assert(text::utf8_len("..."@) == 3);
    }
}

proof fn lemma_slug_chars(s: Seq<char>)
    ensures
        forall|i: int|
            0 <= i < render::slug_of(s).len() ==> (#[trigger] render::slug_of(s)[i] == '-'
                || text::spec_is_alphanumeric(render::slug_of(s)[i])),
    decreases s.len(),
{
    if s.len() > 0 {
        lemma_slug_chars(s.drop_last());
        let p = render::slug_of(s.drop_last());
        let q = render::slug_piece(s.last());
        assert forall|i: int| 0 <= i < render::slug_of(s).len() implies (#[trigger] render::slug_of(
            s,
        )[i] == '-' || text::spec_is_alphanumeric(render::slug_of(s)[i])) by {
            if i >= p.len() {
                assert(render::slug_of(s)[i] == q[i - p.len()]);
            } else {
                assert(render::slug_of(s)[i] == p[i]);
            }
        }
    }
}

/// An anchor slug holds only alphanumeric characters and `-`.
pub proof fn law_slug_charset(name: Seq<char>)
    ensures
        forall|i: int|
            0 <= i < render::slug_of(text::spec_to_lowercase(name)).len() ==> (#[trigger] render::slug_of(
                text::spec_to_lowercase(name),
            )[i] == '-' || text::spec_is_alphanumeric(
                render::slug_of(text::spec_to_lowercase(name))[i],
            )),
{
    lemma_slug_chars(text::spec_to_lowercase(name));
}

/// A character an ASCII slug may hold: `a`–`z`, `0`–`9` or `-`.
pub open spec fn slug_char(c: char) -> bool {
    let u = c as u32;
    (97 <= u && u <= 122) || (48 <= u && u <= 57) || c == '-'
}

/// For an ASCII name the anchor slug is made of `a`–`z`, `0`–`9` and `-`
/// only, and taking the slug of a slug changes nothing.
pub proof fn law_slug_ascii(name: Seq<char>)
    requires
        text::all_ascii(name),
    ensures
        forall|i: int| 0 <= i < render::ascii_slug(name).len() ==> slug_char(#[trigger] render::ascii_slug(name)[i]),
        text::all_ascii(render::ascii_slug(name)),
        render::ascii_slug(render::ascii_slug(name)) == render::ascii_slug(name),
{
    let l = text::ascii_lower_seq(name);
    assert forall|i: int| 0 <= i < l.len() implies !is_upper(#[trigger] l[i]) by {
        lemma_ascii_lower_not_upper(name[i]);
    }
    lemma_ascii_slug_chars(l);
    let u = render::ascii_slug(name);
    assert forall|i: int| 0 <= i < u.len() implies text::is_ascii_char(#[trigger] u[i]) by {
        assert(slug_char(u[i]));
    }
    assert forall|i: int| 0 <= i < u.len() implies text::ascii_lower(#[trigger] u[i]) == u[i] by {
        assert(slug_char(u[i]));
    }
    assert(text::ascii_lower_seq(u) =~= u);
    lemma_ascii_slug_fixed(u);
}

spec fn is_upper(c: char) -> bool {
    65 <= (c as u32) && (c as u32) <= 90
}

proof fn lemma_ascii_lower_not_upper(c: char)
    ensures
        !is_upper(text::ascii_lower(c)),
{
    if is_upper(c) {
        let v: int = (c as u32) + 32;
        assert(97 <= v && v <= 122);
        assert((v as char) as u32 == v);
    }
}

proof fn lemma_ascii_slug_chars(t: Seq<char>)
    requires
        forall|i: int| 0 <= i < t.len() ==> !is_upper(#[trigger] t[i]),
    ensures
        forall|i: int| 0 <= i < render::ascii_slug_of(t).len() ==> slug_char(#[trigger] render::ascii_slug_of(t)[i]),
    decreases t.len(),
{
    if t.len() > 0 {
        let d = t.drop_last();
        assert forall|i: int| 0 <= i < d.len() implies !is_upper(#[trigger] d[i]) by {
            assert(d[i] == t[i]);
        }
        lemma_ascii_slug_chars(d);
        let p = render::ascii_slug_of(d);
        let q = render::ascii_slug_piece(t.last());
        assert(!is_upper(t[t.len() - 1]));
        assert forall|i: int| 0 <= i < q.len() implies slug_char(#[trigger] q[i]) by {}
        let r = render::ascii_slug_of(t);
        assert(r == p + q);
        assert forall|i: int| 0 <= i < r.len() implies slug_char(#[trigger] r[i]) by {
            if i < p.len() {
                assert(r[i] == p[i]);
            } else {
                assert(r[i] == q[i - p.len()]);
            }
        }
    }
}

proof fn lemma_ascii_slug_fixed(t: Seq<char>)
    requires
        forall|i: int| 0 <= i < t.len() ==> slug_char(#[trigger] t[i]),
    ensures
        render::ascii_slug_of(t) == t,
    decreases t.len(),
{
    if t.len() > 0 {
        let d = t.drop_last();
        assert forall|i: int| 0 <= i < d.len() implies slug_char(#[trigger] d[i]) by {
            assert(d[i] == t[i]);
        }
        lemma_ascii_slug_fixed(d);
        assert(slug_char(t[t.len() - 1]));
        assert(render::ascii_slug_piece(t.last()) == seq![t.last()]);
        assert(t =~= d + seq![t.last()]);
    }
}

// ---------------------------------------------------------------------------
// Positions and edits
// ---------------------------------------------------------------------------

/// An LSP position never lands past the end of the text, and the start of
/// the text is offset 0.
pub proof fn law_offset_within_text(s: Seq<char>, line: nat, ch: nat)
    ensures
        edits::pos_offset(s, line, ch) <= text::utf8_len(s),
        edits::pos_offset(s, 0, 0) == 0,
    decreases s.len(),
{
    assert(s.subrange(0, 0) =~= Seq::<char>::empty());
    if s.len() > 0 {
        edits::lemma_first_nl_bound(s);
        if line == 0 {
            let k = if ch < edits::first_nl(s) {
                ch
            } else {
                edits::first_nl(s)
            };
            text::lemma_utf8_len_mono(s, k as int, k as int);
        } else {
            let e = edits::line_end(s);
            if 0 < e <= s.len() {
                let rest = s.subrange(e as int, s.len() as int);
                law_offset_within_text(rest, (line - 1) as nat, ch);
                text::lemma_utf8_len_concat(s.subrange(0, e as int), rest);
                assert(s.subrange(0, e as int) + rest =~= s);
            }
        }
    }
}

/// No edits leave the text as it is.
pub proof fn law_no_edits(content: Seq<char>)
    ensures
        edits::edited(content, Seq::empty()) == Some(content),
{
    assert(edits::planned(content, Seq::empty()) =~= Seq::<(nat, nat, Seq<char>)>::empty());
}

/// A single well-formed edit inside the text replaces its byte range.
pub proof fn law_single_edit(content: Seq<char>, e: json::Json)
    requires
        edits::edit_of(content, e) matches Some((a, b, t)) && a <= b <= text::utf8_len(content),
    ensures
        edits::edit_of(content, e) matches Some((a, b, t)) ==> edits::edited(content, seq![e])
            == edits::replace_bytes(content, a, b, t),
{
    let x = edits::edit_of(content, e)->0;
    let es = seq![e];
    assert(es.drop_last() =~= Seq::<json::Json>::empty());
    assert(es.last() == e);
    assert(edits::planned(content, Seq::<json::Json>::empty()) == Seq::<(nat, nat, Seq<char>)>::empty());
    assert(edits::planned(content, es) =~= Seq::<(nat, nat, Seq<char>)>::empty() + seq![x]);
    assert(edits::planned(content, es) =~= seq![x]);
    let xs = seq![x];
    assert(xs.drop_last() =~= Seq::<(nat, nat, Seq<char>)>::empty());
    assert(xs.last() == x);
    assert(edits::sort_desc(Seq::<(nat, nat, Seq<char>)>::empty()) == Seq::<(nat, nat, Seq<char>)>::empty());
    assert(edits::insert_desc(Seq::<(nat, nat, Seq<char>)>::empty(), x) =~= xs);
    assert(edits::sort_desc(xs) =~= xs);
    assert(xs.drop_first() =~= Seq::<(nat, nat, Seq<char>)>::empty());
    assert(xs[0] == x);
    match edits::replace_bytes(content, x.0, x.1, x.2) {
        Some(c) => {
            assert(edits::apply_edits(c, Seq::<(nat, nat, Seq<char>)>::empty()) == Some(c));
        },
        None => {},
    }
}

// ---------------------------------------------------------------------------
// Configuration
// ---------------------------------------------------------------------------

proof fn lemma_first_unknown_none(sel: Seq<Seq<char>>, all: Seq<Seq<char>>, i: int)
    requires
        0 <= i,
        config::first_unknown_from(sel, all, i) is None,
    ensures
        forall|j: int| i <= j < sel.len() ==> config::contains_name(all, #[trigger] sel[j]),
    decreases sel.len() - i,
{
    if i < sel.len() {
        lemma_first_unknown_none(sel, all, i + 1);
    }
}

/// A selected benchmark is known and not excluded.
pub proof fn law_selection_known_and_not_excluded(
    requested: Seq<Seq<char>>,
    exclude: Seq<Seq<char>>,
    all: Seq<Seq<char>>,
)
    requires
        config::selection(requested, exclude, all) is Ok,
    ensures
        forall|i: int|
            0 <= i < config::selection(requested, exclude, all)->Ok_0.len() ==> {
                let b = #[trigger] config::selection(requested, exclude, all)->Ok_0[i];
                config::contains_name(all, b) && !config::contains_name(exclude, b)
            },
{
    let sel = config::requested_benchmarks(requested, exclude, all);
    let base = if requested.len() == 0 || config::contains_name(requested, "all"@) {
        all
    } else {
        requested
    };
    let pred = |b: Seq<char>| !config::contains_name(exclude, b);
    assert(sel == base.filter(pred));
    lemma_first_unknown_none(sel, all, 0);
    assert forall|i: int| 0 <= i < sel.len() implies !config::contains_name(exclude, #[trigger] sel[i]) by {
        base.lemma_filter_pred(pred, i);
    }
}

proof fn lemma_lookup_at<T>(m: Seq<(Seq<char>, T)>, k: Seq<char>, i: int)
    requires
        config::keys_unique(m),
        0 <= i < m.len(),
        m[i].0 == k,
    ensures
        config::lookup(m, k) == Some(m[i].1),
    decreases m.len(),
{
    if i > 0 {
        assert(m[0].0 != m[i].0);
        let t = m.drop_first();
        assert forall|a: int, b: int| 0 <= a < b < t.len() implies #[trigger] t[a].0 != #[trigger] t[b].0 by {
            assert(t[a] == m[a + 1] && t[b] == m[b + 1]);
        }
        assert(t[i - 1] == m[i]);
        lemma_lookup_at(t, k, i - 1);
    }
}

proof fn lemma_lookup_absent<T>(m: Seq<(Seq<char>, T)>, k: Seq<char>)
    requires
        forall|i: int| 0 <= i < m.len() ==> m[i].0 != k,
    ensures
        config::lookup(m, k) is None,
    decreases m.len(),
{
    if m.len() > 0 {
        let t = m.drop_first();
        assert forall|i: int| 0 <= i < t.len() implies t[i].0 != k by {
            assert(t[i] == m[i + 1]);
        }
        lemma_lookup_absent(t, k);
    }
}

/// Storing a definition under a name makes the name look up to it and
/// leaves every other name as it was.
pub proof fn law_registry_read_after_write<T>(m: Seq<(Seq<char>, T)>, k: Seq<char>, v: T, other: Seq<char>)
    requires
        config::keys_unique(m),
    ensures
        config::keys_unique(config::upsert(m, k, v)),
        config::lookup(config::upsert(m, k, v), k) == Some(v),
        other != k ==> config::lookup(config::upsert(m, k, v), other) == config::lookup(m, other),
{
    let u = config::upsert(m, k, v);
    if exists|i: int| 0 <= i < m.len() && m[i].0 == k {
        let i = choose|i: int| 0 <= i < m.len() && m[i].0 == k;
        assert(u == m.update(i, (k, v)));
        assert forall|a: int, b: int| 0 <= a < b < u.len() implies #[trigger] u[a].0 != #[trigger] u[b].0 by {
            assert(m[a].0 != m[b].0);
        }
        lemma_lookup_at(u, k, i);
        if other != k {
            if exists|j: int| 0 <= j < m.len() && m[j].0 == other {
                let j = choose|j: int| 0 <= j < m.len() && m[j].0 == other;
                lemma_lookup_at(m, other, j);
                lemma_lookup_at(u, other, j);
            } else {
                lemma_lookup_absent(m, other);
                assert forall|j: int| 0 <= j < u.len() implies u[j].0 != other by {
                    if j != i {
                        assert(u[j] == m[j]);
                    }
                }
                lemma_lookup_absent(u, other);
            }
        }
    } else {
        assert(u == m.push((k, v)));
        assert forall|a: int, b: int| 0 <= a < b < u.len() implies #[trigger] u[a].0 != #[trigger] u[b].0 by {
            if b < m.len() {
                assert(m[a].0 != m[b].0);
            } else {
                assert(u[a] == m[a]);
            }
        }
        lemma_lookup_at(u, k, m.len() as int);
        if other != k {
            if exists|j: int| 0 <= j < m.len() && m[j].0 == other {
                let j = choose|j: int| 0 <= j < m.len() && m[j].0 == other;
                lemma_lookup_at(m, other, j);
                assert(u[j] == m[j]);
                lemma_lookup_at(u, other, j);
            } else {
                lemma_lookup_absent(m, other);
                assert forall|j: int| 0 <= j < u.len() implies u[j].0 != other by {
                    if j < m.len() {
                        assert(u[j] == m[j]);
                    }
                }
                lemma_lookup_absent(u, other);
            }
        }
    }
}

/// Merging a sub-configuration into the shared defaults: a key the
/// sub-configuration sets reads as its (last) setting there, any other key
/// reads as in the defaults, and the defaults' keys keep their places.
pub proof fn law_sub_config_keys_win<T>(base: Seq<(Seq<char>, T)>, over: Seq<(Seq<char>, T)>, k: Seq<char>)
    ensures
        config::lookup(config::merged(base, over), k) == match config::last_value(over, k) {
            Some(v) => Some(v),
            None => config::lookup(base, k),
        },
        config::merged(base, over).len() >= base.len(),
        forall|i: int| 0 <= i < base.len() ==> (#[trigger] config::merged(base, over)[i]).0 == base[i].0,
    decreases over.len(),
{
    if over.len() > 0 {
        let d = over.drop_last();
        law_sub_config_keys_win(base, d, k);
        lemma_put(config::merged(base, d), over.last().0, over.last().1, k);
        let m = config::merged(base, d);
        assert forall|i: int| 0 <= i < base.len() implies (#[trigger] config::merged(base, over)[i]).0 == base[i].0 by {
            assert(m[i].0 == base[i].0);
        }
    }
}

proof fn lemma_put<T>(m: Seq<(Seq<char>, T)>, k: Seq<char>, v: T, other: Seq<char>)
    ensures
        config::lookup(config::put(m, k, v), k) == Some(v),
        other != k ==> config::lookup(config::put(m, k, v), other) == config::lookup(m, other),
        config::put(m, k, v).len() >= m.len(),
        forall|i: int| 0 <= i < m.len() ==> (#[trigger] config::put(m, k, v)[i]).0 == m[i].0,
    decreases m.len(),
{
    let p = config::put(m, k, v);
    if m.len() > 0 && m[0].0 != k {
        let t = m.drop_first();
        lemma_put(t, k, v, other);
        let pt = config::put(t, k, v);
        assert(p == seq![m[0]] + pt);
        assert(p[0] == m[0]);
        assert(p.drop_first() =~= pt);
        if other != k && m[0].0 != other {
            assert(config::lookup(p, other) == config::lookup(pt, other));
            assert(config::lookup(m, other) == config::lookup(t, other));
        }
        assert forall|i: int| 0 <= i < m.len() implies (#[trigger] p[i]).0 == m[i].0 by {
            if i > 0 {
                assert(p[i] == pt[i - 1]);
                assert(pt[i - 1].0 == t[i - 1].0);
            }
        }
    } else if m.len() > 0 {
        assert(p == m.update(0, (k, v)));
        assert(p.drop_first() =~= m.drop_first());
        if other != k {
            assert(config::lookup(p, other) == config::lookup(p.drop_first(), other));
            assert(config::lookup(m, other) == config::lookup(m.drop_first(), other));
        }
    } else {
        assert(p == seq![(k, v)]);
        assert(p.drop_first().len() == 0);
        if other != k {
            assert(config::lookup(p, other) == config::lookup(p.drop_first(), other));
        }
    }
}

/// A plain reference (no `@version`) to a server just stored in the
/// registry resolves to that definition, labelled with its name.
pub proof fn law_resolve_after_insert(reg: Seq<(Seq<char>, config::Entry)>, name: Seq<char>, e: config::Entry)
    requires
        config::keys_unique(reg),
        text::find(name, "@"@) is None,
    ensures
        config::resolved(name, config::upsert(reg, name, e)) == (config::Server {
            label: name,
            description: e.description,
            link: e.link,
            cmd: e.cmd,
            args: e.args,
            commit: e.commit,
            repo: e.repo,
        }),
{
    law_registry_read_after_write(reg, name, e, name);
}

// ---------------------------------------------------------------------------
// Session-log shortening
// ---------------------------------------------------------------------------

/// Cutting arrays leaves an array of at most `max` items as long as it
/// was, and a longer one with exactly `max` items and the note.
pub proof fn law_cut_array_length(a: Seq<json::Json>, max: nat)
    ensures
        compact::cut_arrays(json::Json::Arr(a), max)->Arr_0.len() == (if a.len() <= max {
            a.len()
        } else {
            max + 1
        }),
{
    lemma_cut_items_len(a, max, if a.len() <= max { a.len() as int } else { max as int });
}

proof fn lemma_cut_items_len(a: Seq<json::Json>, max: nat, n: int)
    requires
        0 <= n <= a.len(),
    ensures
        compact::cut_items(a, max, n).len() == n,
    decreases n,
{
    if n > 0 {
        lemma_cut_items_len(a, max, n - 1);
    }
}

// ---------------------------------------------------------------------------
// Wire framing
// ---------------------------------------------------------------------------

proof fn lemma_digit(d: nat)
    requires
        d < 10,
    ensures
        parse::is_digit(text::digit(d)),
        (text::digit(d) as u32 - '0' as u32) as nat == d,
        !text::spec_is_whitespace(text::digit(d)),
        text::digit(d) != '+',
{
}

/// The decimal text of a number is a non-empty run of digits that reads
/// back as the number.
proof fn lemma_dec_reads_back(n: nat)
    ensures
        text::dec(n).len() > 0,
        parse::all_digits(text::dec(n)),
        parse::digits_value(text::dec(n)) == n,
    decreases n,
{
    let d = text::dec(n);
    if n < 10 {
        lemma_digit(n);
        assert(d.drop_last() =~= Seq::<char>::empty());
        assert(parse::digits_value(d) == parse::digits_value(d.drop_last()) * 10 + ((d.last() as u32 - '0' as u32) as nat));
    } else {
        lemma_dec_reads_back(n / 10);
        lemma_digit(n % 10);
        let p = text::dec(n / 10);
        assert(d.drop_last() =~= p);
        assert(d.last() == text::digit(n % 10));
        assert(parse::digits_value(d) == parse::digits_value(p) * 10 + ((d.last() as u32 - '0' as u32) as nat));
        assert((n / 10) * 10 + n % 10 == n);
        assert forall|j: int| 0 <= j < d.len() implies parse::is_digit(#[trigger] d[j]) by {
            if j < p.len() {
                assert(d[j] == p[j]);
            }
        }
    }
}

/// A digit run is its own trim and reads as `usize` where it fits.
proof fn lemma_dec_value_text(n: nat)
    requires
        n <= usize::MAX,
    ensures
        text::trim(text::dec(n)) == text::dec(n),
        protocol::usize_text(text::dec(n)) == Some(n),
{
    lemma_dec_reads_back(n);
    let d = text::dec(n);
    assert(parse::is_digit(d[0]));
    assert(parse::is_digit(d.last()));
    assert(text::leading_ws(d) == 0);
    assert(text::trim_start(d) =~= d);
    assert(text::trailing_ws(d) == 0);
    assert(text::trim_end(d) =~= d);
}

/// A message carrying a request's id answers exactly that request, and a
/// notification answers none: the client waits for the response with the
/// id it sent.
pub proof fn law_response_matches_request_id(
    id: i64,
    other: i64,
    result: json::Json,
    method: Seq<char>,
    params: json::Json,
)
    ensures
        protocol::answers(protocol::reply_json(protocol::id_json(id), result), other) <==> other == id,
        !protocol::answers(protocol::notification_json(method, params), other),
{
    reveal_strlit("id");
    reveal_strlit("jsonrpc");
    reveal_strlit("method");
    reveal_strlit("params");
    let r = protocol::reply_json(protocol::id_json(id), result);
    assert(r.get("id"@) == Some(protocol::id_json(id)));
    let n = protocol::notification_json(method, params);
    let m = n->Obj_0;
    assert("id"@.len() != "jsonrpc"@.len());
    assert("id"@.len() != "method"@.len());
    assert("id"@ != "params"@);
    let m1 = m.drop_first();
    let m2 = m1.drop_first();
    assert(m1.len() == 2 && m1[0].0 == "method"@);
    assert(m2.len() == 1 && m2[0].0 == "params"@);
    assert(m2.drop_first().len() == 0);
    assert(json::members_get(m2.drop_first(), "id"@) == None::<json::Json>);
    assert(json::members_get(m2, "id"@) == None::<json::Json>);
    assert(json::members_get(m1, "id"@) == None::<json::Json>);
    assert(n.get("id"@) == None::<json::Json>);
}

/// The header of a framed message is read back by the header reader: its
/// first line, read from the reader's initial state, announces the body's
/// length, and the blank line after it ends the header with a body of
/// exactly that many bytes.
#[verifier::spinoff_prover]
pub proof fn law_framed_header_read_back(body: Seq<char>)
    requires
        0 < text::utf8_len(body) <= usize::MAX,
    ensures
        ({
            let n = text::utf8_len(body);
            let first = "Content-Length: "@ + text::dec(n) + "\r\n"@;
            &&& protocol::framed(body) == first + "\r\n"@ + body
            &&& protocol::header_step(0, false, first) == protocol::Step::Next(n, true)
            &&& protocol::header_step(n, true, "\r\n"@) == protocol::Step::Body(n)
        }),
{
    reveal_strlit("Content-Length: ");
    reveal_strlit("Content-Length:");
    reveal_strlit("\r\n");
    reveal_strlit("\r\n\r\n");
    let n = text::utf8_len(body);
    let d = text::dec(n);
    lemma_dec_value_text(n);
    lemma_dec_reads_back(n);
    let key = "Content-Length: "@;
    let first = key + d + "\r\n"@;
    assert(protocol::framed(body) =~= first + "\r\n"@ + body);
    // Trimming the first line leaves the field and its value.
    let t = key + d;
    assert(first[0] == 'C');
    assert(text::leading_ws(first) == 0);
    assert(text::trim_start(first) =~= first);
    assert(first.drop_last() =~= key + d + seq!['\r']);
    assert(first.drop_last().drop_last() =~= t);
    assert(parse::is_digit(d.last()));
    assert(t.last() == d.last());
    assert(text::trailing_ws(t) == 0);
    assert(text::trailing_ws(first.drop_last()) == 1);
    assert(text::trailing_ws(first) == 2);
    assert(text::trim(first) =~= t);
    // The field name matches, and the rest trims to the number.
    assert(t.subrange(0, protocol::length_field().len() as int) =~= protocol::length_field());
    let rest = t.subrange(protocol::length_field().len() as int, t.len() as int);
    assert(rest =~= seq![' '] + d);
    assert(rest.drop_first() =~= d);
    assert(parse::is_digit(d[0]));
    assert(text::leading_ws(rest) == 1);
    assert(text::trim_start(rest) =~= d);
    assert(text::trim(rest) == d);
    assert(protocol::announced_length(t) == Some(n));
    // The blank line ends the header.
    let blank = "\r\n"@;
    assert(blank.drop_first() =~= seq!['\n']);
    assert(seq!['\n'].drop_first() =~= Seq::<char>::empty());
    assert(text::spec_is_whitespace('\n'));
    assert(text::leading_ws(Seq::<char>::empty()) == 0);
    assert(text::leading_ws(seq!['\n']) == 1);
    assert(text::leading_ws(blank) == 2);
    assert(text::trim_start(blank) =~= Seq::<char>::empty());
    assert(text::trim(blank) =~= Seq::<char>::empty());
}

// ---------------------------------------------------------------------------
// Snapshot requests
// ---------------------------------------------------------------------------

proof fn lemma_get_first(m: Seq<(Seq<char>, json::Json)>, k: Seq<char>, i: int)
    requires
        0 <= i < m.len(),
        m[i].0 == k,
        forall|j: int| 0 <= j < i ==> m[j].0 != k,
    ensures
        json::members_get(m, k) == Some(m[i].1),
    decreases i,
{
    if i > 0 {
        let t = m.drop_first();
        assert forall|j: int| 0 <= j < i - 1 implies t[j].0 != k by {
            assert(t[j] == m[j + 1]);
        }
        lemma_get_first(t, k, i - 1);
    }
}

proof fn lemma_get_other_update(m: Seq<(Seq<char>, json::Json)>, i: int, k: Seq<char>, v: json::Json, k2: Seq<char>)
    requires
        0 <= i < m.len(),
        m[i].0 == k,
        k2 != k,
    ensures
        json::members_get(m.update(i, (k, v)), k2) == json::members_get(m, k2),
    decreases m.len(),
{
    let u = m.update(i, (k, v));
    if i == 0 {
        assert(u.drop_first() =~= m.drop_first());
    } else {
        assert(u[0] == m[0]);
        if m[0].0 != k2 {
            assert(u.drop_first() =~= m.drop_first().update(i - 1, (k, v)));
            lemma_get_other_update(m.drop_first(), i - 1, k, v, k2);
        }
    }
}

proof fn lemma_get_other_push(m: Seq<(Seq<char>, json::Json)>, k: Seq<char>, v: json::Json, k2: Seq<char>)
    requires
        k2 != k,
    ensures
        json::members_get(m.push((k, v)), k2) == json::members_get(m, k2),
    decreases m.len(),
{
    let u = m.push((k, v));
    if m.len() == 0 {
        assert(u.drop_first() =~= Seq::<(Seq<char>, json::Json)>::empty());
    } else if m[0].0 != k2 {
        assert(u.drop_first() =~= m.drop_first().push((k, v)));
        lemma_get_other_push(m.drop_first(), k, v, k2);
    }
}

/// Setting a request's position is read back: the params of a snapshot
/// request give the snapshot's cursor as their `position`, and every other
/// member as it was.
pub proof fn law_position_read_back(
    m: Seq<(Seq<char>, json::Json)>,
    p: (u32, u32),
    other: Seq<char>,
)
    requires
        other != "position"@,
    ensures
        requests::at_position(json::Json::Obj(m), p).get("position"@) == Some(requests::pos_json(p)),
        requests::at_position(json::Json::Obj(m), p).get(other) == json::Json::Obj(m).get(other),
{
    let k = "position"@;
    let v = requests::pos_json(p);
    if exists|i: int| 0 <= i < m.len() && m[i].0 == k {
        let w = choose|i: int| 0 <= i < m.len() && m[i].0 == k;
        // There is a first occurrence.
        let first = choose|i: int| 0 <= i < m.len() && m[i].0 == k && forall|j: int| 0 <= j < i ==> m[j].0 != k;
        assert(exists|i: int| 0 <= i < m.len() && m[i].0 == k && forall|j: int| 0 <= j < i ==> m[j].0 != k) by {
            lemma_first_occurrence(m, k, w);
        }
        let u = m.update(first, (k, v));
        assert forall|j: int| 0 <= j < first implies u[j].0 != k by {
            assert(u[j] == m[j]);
        }
        lemma_get_first(u, k, first);
        lemma_get_other_update(m, first, k, v, other);
    } else {
        let u = m.push((k, v));
        assert forall|j: int| 0 <= j < m.len() implies u[j].0 != k by {
            assert(u[j] == m[j]);
        }
        lemma_get_first(u, k, m.len() as int);
        lemma_get_other_push(m, k, v, other);
    }
}

proof fn lemma_first_occurrence(m: Seq<(Seq<char>, json::Json)>, k: Seq<char>, w: int)
    requires
        0 <= w < m.len(),
        m[w].0 == k,
    ensures
        exists|i: int| 0 <= i < m.len() && m[i].0 == k && forall|j: int| 0 <= j < i ==> m[j].0 != k,
    decreases w,
{
    if exists|j: int| 0 <= j < w && m[j].0 == k {
        let j = choose|j: int| 0 <= j < w && m[j].0 == k;
        lemma_first_occurrence(m, k, j);
    } else {
        assert(forall|j: int| 0 <= j < w ==> m[j].0 != k);
    }
}

// ---------------------------------------------------------------------------
// Warmup
// ---------------------------------------------------------------------------

/// The peak RSS kept across iterations is the largest sample: there is one
/// exactly when some sample was taken, it is one of the samples, and no
/// sample exceeds it.
pub proof fn law_peak_rss_is_max(samples: Seq<u64>)
    ensures
        (render::peak_of(samples) is Some) == (samples.len() > 0),
        render::peak_of(samples) matches Some(p) ==> samples.contains(p) && forall|k: int|
            0 <= k < samples.len() ==> samples[k] <= p,
    decreases samples.len(),
{
    if samples.len() > 0 {
        let d = samples.drop_last();
        law_peak_rss_is_max(d);
        let p = render::peak_of(samples)->0;
        if render::peak_of(d) is Some {
            let q = render::peak_of(d)->0;
            if q >= samples.last() {
                let k = choose|k: int| 0 <= k < d.len() && d[k] == q;
                assert(samples[k] == p);
            } else {
                assert(samples[samples.len() - 1] == p);
            }
            assert forall|k: int| 0 <= k < samples.len() implies samples[k] <= p by {
                if k < d.len() {
                    assert(d[k] == samples[k]);
                }
            }
        } else {
            assert(samples[samples.len() - 1] == p);
        }
    }
}

/// Each semantic tokens delta request names the `resultId` of the latest
/// response that carried one: after response `k` carries an id and none
/// after it does, that id is named.
pub proof fn law_delta_names_latest_result_id(init: Seq<char>, resps: Seq<json::Json>, k: int)
    requires
        0 <= k < resps.len(),
        requests::result_id_of(resps[k]) is Some,
        forall|m: int| k < m < resps.len() ==> requests::result_id_of(#[trigger] resps[m]) is None,
    ensures
        requests::chained_ids(init, resps) == requests::result_id_of(resps[k])->0,
    decreases resps.len(),
{
    if k < resps.len() - 1 {
        let d = resps.drop_last();
        assert(requests::result_id_of(resps[resps.len() - 1]) is None);
        assert forall|m: int| k < m < d.len() implies requests::result_id_of(#[trigger] d[m]) is None by {
            assert(d[m] == resps[m]);
        }
        assert(d[k] == resps[k]);
        law_delta_names_latest_result_id(init, d, k);
    }
}

/// Where no response carries a `resultId`, every delta request names the
/// starting one.
pub proof fn law_delta_keeps_initial_result_id(init: Seq<char>, resps: Seq<json::Json>)
    requires
        forall|k: int| 0 <= k < resps.len() ==> requests::result_id_of(#[trigger] resps[k]) is None,
    ensures
        requests::chained_ids(init, resps) == init,
    decreases resps.len(),
{
    if resps.len() > 0 {
        let d = resps.drop_last();
        assert forall|k: int| 0 <= k < d.len() implies requests::result_id_of(#[trigger] d[k]) is None by {
            assert(d[k] == resps[k]);
        }
        assert(requests::result_id_of(resps[resps.len() - 1]) is None);
        law_delta_keeps_initial_result_id(init, d);
    }
}

/// Putting files back after a rename sequence: every path that existed at
/// the start and that a step touched while it was readable has an entry
/// that started there, so a closing action writes its start content back;
/// and the entries recorded earlier keep where they started and their
/// content whatever happens later.
pub proof fn law_restore_covers_touched_paths(
    s: Seq<lifecycle::Restore>,
    es: Seq<lifecycle::Event>,
    j: int,
    path: Seq<char>,
    c: Seq<u8>,
)
    requires
        0 <= j < es.len(),
        es[j] == lifecycle::Event::Touch(path, true, Some(c)),
    ensures
        exists|i: int|
            0 <= i < lifecycle::restore_steps(s, es).len() && ((#[trigger] lifecycle::restore_steps(s, es)[i]).original
                == path || lifecycle::spec_path_eq(lifecycle::restore_steps(s, es)[i].original, path)),
{
    let pre = es.take(j);
    assert(es.take(j + 1).drop_last() =~= pre);
    assert(es.take(j + 1).last() == es[j]);
    let t = lifecycle::restore_steps(s, pre);
    let u = lifecycle::restore_steps(s, es.take(j + 1));
    assert(u == lifecycle::restore_step(t, es[j]));
    let i0: int = if lifecycle::has_original(t, path, t.len() as int) {
        lemma_has_original_witness(t, path, t.len() as int);
        choose|i: int| 0 <= i < t.len() && lifecycle::spec_path_eq(t[i].original, path)
    } else {
        t.len() as int
    };
    assert(0 <= i0 < u.len() && (u[i0].original == path || lifecycle::spec_path_eq(u[i0].original, path)));
    law_restore_keeps_start(u, es.skip(j + 1));
    assert(es.take(j + 1) + es.skip(j + 1) =~= es);
    lemma_restore_steps_concat(s, es.take(j + 1), es.skip(j + 1));
    let f = lifecycle::restore_steps(s, es);
    assert(f[i0].original == u[i0].original);
}

/// Entries already recorded keep where they started and their content
/// through any later events.
pub proof fn law_restore_keeps_start(s: Seq<lifecycle::Restore>, es: Seq<lifecycle::Event>)
    ensures
        lifecycle::restore_steps(s, es).len() >= s.len(),
        forall|i: int|
            0 <= i < s.len() ==> (#[trigger] lifecycle::restore_steps(s, es)[i]).original == s[i].original
                && lifecycle::restore_steps(s, es)[i].content == s[i].content,
    decreases es.len(),
{
    if es.len() > 0 {
        law_restore_keeps_start(s, es.drop_last());
        let t = lifecycle::restore_steps(s, es.drop_last());
        let u = lifecycle::restore_steps(s, es);
        assert(u == lifecycle::restore_step(t, es.last()));
        assert forall|i: int| 0 <= i < s.len() implies (#[trigger] u[i]).original == s[i].original
            && u[i].content == s[i].content by {
            assert(t[i].original == s[i].original);
        }
    }
}

proof fn lemma_has_original_witness(s: Seq<lifecycle::Restore>, path: Seq<char>, n: int)
    requires
        0 <= n <= s.len(),
        lifecycle::has_original(s, path, n),
    ensures
        exists|i: int| 0 <= i < n && lifecycle::spec_path_eq(s[i].original, path),
    decreases n,
{
    if !lifecycle::spec_path_eq(s[n - 1].original, path) {
        lemma_has_original_witness(s, path, n - 1);
    }
}

proof fn lemma_restore_steps_concat(s: Seq<lifecycle::Restore>, a: Seq<lifecycle::Event>, b: Seq<lifecycle::Event>)
    ensures
        lifecycle::restore_steps(s, a + b) == lifecycle::restore_steps(lifecycle::restore_steps(s, a), b),
    decreases b.len(),
{
    if b.len() > 0 {
        lemma_restore_steps_concat(s, a, b.drop_last());
        assert((a + b).drop_last() =~= a + b.drop_last());
        assert((a + b).last() == b.last());
    } else {
        assert(a + b =~= a);
    }
}

/// Warmup iterations are discarded: of `w` warmup and `n` measured
/// iterations, exactly `n` are kept.
pub proof fn law_warmup_discarded(w: nat, n: nat)
    ensures
        render::measured_count(w, w + n) == n,
    decreases n,
{
    lemma_no_measured_warmup(w, w);
    if n > 0 {
        law_warmup_discarded(w, (n - 1) as nat);
        assert(render::measured_count(w, w + n) == render::measured_count(w, (w + n - 1) as nat) + 1);
    }
}

proof fn lemma_no_measured_warmup(w: nat, k: nat)
    requires
        k <= w,
    ensures
        render::measured_count(w, k) == 0,
    decreases k,
{
    if k > 0 {
        lemma_no_measured_warmup(w, (k - 1) as nat);
    }
}

// ---------------------------------------------------------------------------
// README rankings
// ---------------------------------------------------------------------------

/// The overall winner of the README has the most gold medals: the entry
/// chosen among the gold counts is one of them, and no count exceeds it;
/// there is a winner exactly when some server won a benchmark.
pub proof fn law_winner_has_most_golds(w: Seq<(Seq<char>, nat)>)
    ensures
        (readme::most_wins(w, w.len() as int) is Some) == (w.len() > 0),
        readme::most_wins(w, w.len() as int) matches Some(e) ==> (exists|i: int| 0 <= i < w.len() && w[i] == e)
            && (forall|i: int| 0 <= i < w.len() ==> w[i].1 <= e.1),
{
    lemma_most_wins(w, w.len() as int);
}

proof fn lemma_most_wins(w: Seq<(Seq<char>, nat)>, n: int)
    requires
        0 <= n <= w.len(),
    ensures
        (readme::most_wins(w, n) is Some) == (n > 0),
        readme::most_wins(w, n) matches Some(e) ==> (exists|i: int| 0 <= i < n && w[i] == e) && (forall|
            i: int,
        | 0 <= i < n ==> w[i].1 <= e.1),
    decreases n,
{
    if n > 0 {
        lemma_most_wins(w, n - 1);
        match readme::most_wins(w, n - 1) {
            Some(best) => {
                if w[n - 1].1 > best.1 {
                    assert(w[n - 1] == w[n - 1]);
                } else {
                    let i = choose|i: int| 0 <= i < n - 1 && w[i] == best;
                    assert(0 <= i < n && w[i] == best);
                }
            },
            None => {
                assert(w[n - 1] == w[n - 1]);
            },
        }
    }
}

/// Medals follow mean latency: a medal goes only to a valid result with a
/// mean, and a server with a medal is no slower than any ranked server
/// with a lesser medal or with none.
pub proof fn law_medals_follow_latency(
    ss: Seq<json::Json>,
    t: Seq<Seq<readme::Times>>,
    i: int,
    a: int,
    b: int,
)
    requires
        0 <= a < ss.len(),
        0 <= b < ss.len(),
        readme::medals(ss, t, i)[a] != 0,
        report::valid_result(ss[b]),
        readme::times_at(t, i, b).mean_key is Some,
        readme::medals(ss, t, i)[b] == 0 || readme::medals(ss, t, i)[a] < readme::medals(ss, t, i)[b],
    ensures
        report::valid_result(ss[a]),
        readme::times_at(t, i, a).mean_key is Some,
        readme::times_at(t, i, a).mean_key->0 <= readme::times_at(t, i, b).mean_key->0,
{
    let c = readme::candidates(ss, t, i, ss.len() as int);
    lemma_candidates(ss, t, i, ss.len() as int);
    lemma_sort_by_key(c);
    let r = readme::ranking(ss, t, i);
    assert(r == readme::sort_by_key(c));
    let ma = readme::medal_code(r, a as nat);
    let mb = readme::medal_code(r, b as nat);
    assert(readme::medals(ss, t, i)[a] == ma);
    assert(readme::medals(ss, t, i)[b] == mb);
    let pa: int = if r.len() > 0 && r[0].0 == a { 0 } else if r.len() > 1 && r[1].0 == a { 1 } else { 2 };
    assert(r[pa].0 == a && ma == pa + 1);
    assert(r.contains(r[pa]));
    assert(c.contains(r[pa]));
    let ka = choose|k: int| 0 <= k < c.len() && c[k] == r[pa];
    assert(cand_ok(ss, t, i, c[ka]));
    let keyb = readme::times_at(t, i, b).mean_key->0;
    assert(c.contains((b as nat, keyb)));
    assert(r.contains((b as nat, keyb)));
    let pb = choose|k: int| 0 <= k < r.len() && r[k] == (b as nat, keyb);
    if pb < 3 {
        assert(forall|q: int| 0 <= q < r.len() && q != pb ==> r[q].0 != b);
        assert(mb == pb + 1);
    } else {
        assert(forall|q: int| 0 <= q < r.len() && q != pb ==> r[q].0 != b);
        assert(mb == 0);
    }
    assert(pa < pb);
    assert(r[pa].1 <= r[pb].1);
}

/// A ranking entry names a valid result of the benchmark with its mean.
spec fn cand_ok(ss: Seq<json::Json>, t: Seq<Seq<readme::Times>>, i: int, x: (nat, u64)) -> bool {
    &&& x.0 < ss.len()
    &&& report::valid_result(ss[x.0 as int])
    &&& readme::times_at(t, i, x.0 as int).mean_key == Some(x.1)
}

/// No two entries share a server index.
spec fn index_unique(s: Seq<(nat, u64)>) -> bool {
    forall|p: int, q: int| 0 <= p < s.len() && 0 <= q < s.len() && p != q ==> s[p].0 != s[q].0
}

/// Entries in ascending order of key.
spec fn key_sorted(s: Seq<(nat, u64)>) -> bool {
    forall|p: int, q: int| 0 <= p <= q < s.len() ==> s[p].1 <= s[q].1
}

proof fn lemma_candidates(ss: Seq<json::Json>, t: Seq<Seq<readme::Times>>, i: int, n: int)
    requires
        0 <= n <= ss.len(),
    ensures
        forall|k: int| 0 <= k < readme::candidates(ss, t, i, n).len() ==> cand_ok(ss, t, i, #[trigger] readme::candidates(ss, t, i, n)[k])
            && readme::candidates(ss, t, i, n)[k].0 < n,
        forall|j: int| 0 <= j < n && report::valid_result(ss[j]) && readme::times_at(t, i, j).mean_key is Some
            ==> #[trigger] readme::candidates(ss, t, i, n).contains((j as nat, readme::times_at(t, i, j).mean_key->0)),
        index_unique(readme::candidates(ss, t, i, n)),
    decreases n,
{
    if n > 0 {
        lemma_candidates(ss, t, i, n - 1);
        let prev = readme::candidates(ss, t, i, n - 1);
        let c = readme::candidates(ss, t, i, n);
        assert forall|j: int| 0 <= j < n && report::valid_result(ss[j]) && readme::times_at(t, i, j).mean_key is Some
            implies #[trigger] c.contains((j as nat, readme::times_at(t, i, j).mean_key->0)) by {
            let x = (j as nat, readme::times_at(t, i, j).mean_key->0);
            if j < n - 1 {
                assert(prev.contains(x));
                let k = choose|k: int| 0 <= k < prev.len() && prev[k] == x;
                assert(c[k] == x);
            } else {
                assert(c[c.len() - 1] == x);
            }
        }
    }
}

proof fn lemma_insert_by_key(s: Seq<(nat, u64)>, x: (nat, u64))
    requires
        key_sorted(s),
        index_unique(s),
        forall|k: int| 0 <= k < s.len() ==> s[k].0 != x.0,
    ensures
        readme::insert_by_key(s, x).len() == s.len() + 1,
        key_sorted(readme::insert_by_key(s, x)),
        index_unique(readme::insert_by_key(s, x)),
        forall|y: (nat, u64)| #[trigger] readme::insert_by_key(s, x).contains(y) <==> (s.contains(y) || y == x),
    decreases s.len(),
{
    let r = readme::insert_by_key(s, x);
    if s.len() == 0 || s.last().1 <= x.1 {
        assert(r == s.push(x));
        assert(index_unique(r)) by {
            assert forall|p: int, q: int| 0 <= p < r.len() && 0 <= q < r.len() && p != q implies r[p].0 != r[q].0 by {
                if p < s.len() && q < s.len() {
                    assert(s[p].0 != s[q].0);
                }
            }
        }
        assert forall|y: (nat, u64)| #[trigger] r.contains(y) <==> (s.contains(y) || y == x) by {
            if r.contains(y) {
                let k = choose|k: int| 0 <= k < r.len() && r[k] == y;
                if k < s.len() {
                    assert(s[k] == y);
                }
            }
            if s.contains(y) {
                let k = choose|k: int| 0 <= k < s.len() && s[k] == y;
                assert(r[k] == y);
            }
            if y == x {
                assert(r[s.len() as int] == y);
            }
        }
    } else {
        let d = s.drop_last();
        assert(key_sorted(d));
        assert(index_unique(d));
        lemma_insert_by_key(d, x);
        let inner = readme::insert_by_key(d, x);
        assert(r == inner.push(s.last()));
        assert forall|k: int| 0 <= k < inner.len() implies #[trigger] inner[k].1 <= s.last().1
            && inner[k].0 != s.last().0 by {
            assert(inner.contains(inner[k]));
            if inner[k] != x {
                assert(d.contains(inner[k]));
                let m = choose|m: int| 0 <= m < d.len() && d[m] == inner[k];
                assert(s[m] == inner[k]);
                assert(s[m].1 <= s[s.len() - 1].1);
            }
        }
        assert(index_unique(r)) by {
            assert forall|p: int, q: int| 0 <= p < r.len() && 0 <= q < r.len() && p != q implies r[p].0 != r[q].0 by {
                if p < inner.len() && q < inner.len() {
                    assert(inner[p].0 != inner[q].0);
                } else if p < inner.len() {
                    assert(inner[p].1 <= s.last().1 && inner[p].0 != s.last().0);
                } else if q < inner.len() {
                    assert(inner[q].1 <= s.last().1 && inner[q].0 != s.last().0);
                }
            }
        }
        assert forall|y: (nat, u64)| #[trigger] r.contains(y) <==> (s.contains(y) || y == x) by {
            if r.contains(y) {
                let k = choose|k: int| 0 <= k < r.len() && r[k] == y;
                if k < inner.len() {
                    assert(inner.contains(y));
                    if d.contains(y) {
                        let m = choose|m: int| 0 <= m < d.len() && d[m] == y;
                        assert(s[m] == y);
                    }
                } else {
                    assert(s[s.len() - 1] == y);
                }
            }
            if s.contains(y) {
                let m = choose|m: int| 0 <= m < s.len() && s[m] == y;
                if m < s.len() - 1 {
                    assert(d[m] == y);
                    assert(inner.contains(y));
                    let k = choose|k: int| 0 <= k < inner.len() && inner[k] == y;
                    assert(r[k] == y);
                } else {
                    assert(r[inner.len() as int] == y);
                }
            }
            if y == x {
                assert(inner.contains(y));
                let k = choose|k: int| 0 <= k < inner.len() && inner[k] == y;
                assert(r[k] == y);
            }
        }
    }
}

proof fn lemma_sort_by_key(s: Seq<(nat, u64)>)
    requires
        index_unique(s),
    ensures
        readme::sort_by_key(s).len() == s.len(),
        key_sorted(readme::sort_by_key(s)),
        index_unique(readme::sort_by_key(s)),
        forall|y: (nat, u64)| #[trigger] readme::sort_by_key(s).contains(y) <==> s.contains(y),
    decreases s.len(),
{
    if s.len() > 0 {
        let d = s.drop_last();
        assert(index_unique(d));
        lemma_sort_by_key(d);
        let sd = readme::sort_by_key(d);
        assert forall|k: int| 0 <= k < sd.len() implies #[trigger] sd[k].0 != s.last().0 by {
            assert(sd.contains(sd[k]));
            let m = choose|m: int| 0 <= m < d.len() && d[m] == sd[k];
            assert(s[m] == sd[k]);
        }
        lemma_insert_by_key(sd, s.last());
        let r = readme::sort_by_key(s);
        assert forall|y: (nat, u64)| #[trigger] r.contains(y) <==> s.contains(y) by {
            if s.contains(y) {
                let m = choose|m: int| 0 <= m < s.len() && s[m] == y;
                if m < s.len() - 1 {
                    assert(d[m] == y);
                    assert(sd.contains(y));
                }
            }
            if sd.contains(y) {
                let m = choose|m: int| 0 <= m < d.len() && d[m] == y;
                assert(s[m] == y);
            }
        }
    }
}

/// The competition scorecard lists every server's win count once, ordered
/// by wins, most first.
pub proof fn law_scorecard_sorted_by_wins(s: Seq<(Seq<char>, nat)>)
    ensures
        competition::sort_by_wins(s).len() == s.len(),
        forall|i: int, j: int|
            0 <= i < j < s.len() ==> (#[trigger] competition::sort_by_wins(s)[i]).1 >= (
            #[trigger] competition::sort_by_wins(s)[j]).1,
        forall|y: (Seq<char>, nat)| #[trigger] competition::sort_by_wins(s).contains(y) <==> s.contains(y),
    decreases s.len(),
{
    if s.len() > 0 {
        let d = s.drop_last();
        law_scorecard_sorted_by_wins(d);
        let sd = competition::sort_by_wins(d);
        lemma_insert_by_wins(sd, s.last());
        let r = competition::sort_by_wins(s);
        assert forall|y: (Seq<char>, nat)| #[trigger] r.contains(y) <==> s.contains(y) by {
            if s.contains(y) {
                let m = choose|m: int| 0 <= m < s.len() && s[m] == y;
                if m < s.len() - 1 {
                    assert(d[m] == y);
                    assert(sd.contains(y));
                }
            }
            if sd.contains(y) {
                let m = choose|m: int| 0 <= m < d.len() && d[m] == y;
                assert(s[m] == y);
            }
        }
    }
}

proof fn lemma_insert_by_wins(t: Seq<(Seq<char>, nat)>, x: (Seq<char>, nat))
    requires
        forall|i: int, j: int| 0 <= i < j < t.len() ==> (#[trigger] t[i]).1 >= (#[trigger] t[j]).1,
    ensures
        competition::insert_by_wins(t, x).len() == t.len() + 1,
        forall|i: int, j: int|
            0 <= i < j < t.len() + 1 ==> (#[trigger] competition::insert_by_wins(t, x)[i]).1 >= (
            #[trigger] competition::insert_by_wins(t, x)[j]).1,
        forall|y: (Seq<char>, nat)| #[trigger] competition::insert_by_wins(t, x).contains(y) <==> (t.contains(y) || y == x),
    decreases t.len(),
{
    let r = competition::insert_by_wins(t, x);
    if t.len() == 0 || t.last().1 >= x.1 {
        assert(r == t.push(x));
        assert forall|i: int, j: int| 0 <= i < j < t.len() + 1 implies (#[trigger] r[i]).1 >= (#[trigger] r[j]).1 by {
            if j == t.len() {
                assert(r[i] == t[i]);
                if i < t.len() - 1 {
                    assert(t[i].1 >= t[t.len() - 1].1);
                }
            } else {
                assert(r[i] == t[i] && r[j] == t[j]);
            }
        }
        assert forall|y: (Seq<char>, nat)| #[trigger] r.contains(y) <==> (t.contains(y) || y == x) by {
            if r.contains(y) {
                let k = choose|k: int| 0 <= k < r.len() && r[k] == y;
                if k < t.len() {
                    assert(t[k] == y);
                }
            }
            if t.contains(y) {
                let k = choose|k: int| 0 <= k < t.len() && t[k] == y;
                assert(r[k] == y);
            }
            if y == x {
                assert(r[t.len() as int] == y);
            }
        }
    } else {
        let d = t.drop_last();
        assert forall|i: int, j: int| 0 <= i < j < d.len() implies (#[trigger] d[i]).1 >= (#[trigger] d[j]).1 by {
            assert(d[i] == t[i] && d[j] == t[j]);
        }
        lemma_insert_by_wins(d, x);
        let inner = competition::insert_by_wins(d, x);
        assert(r == inner.push(t.last()));
        assert forall|k: int| 0 <= k < inner.len() implies (#[trigger] inner[k]).1 >= t.last().1 by {
            assert(inner.contains(inner[k]));
            if inner[k] != x {
                assert(d.contains(inner[k]));
                let m = choose|m: int| 0 <= m < d.len() && d[m] == inner[k];
                assert(t[m] == inner[k]);
                assert(t[m].1 >= t[t.len() - 1].1);
            }
        }
        assert forall|i: int, j: int| 0 <= i < j < t.len() + 1 implies (#[trigger] r[i]).1 >= (#[trigger] r[j]).1 by {
            if j == inner.len() {
                assert(r[i] == inner[i]);
                assert(inner[i].1 >= t.last().1);
            } else {
                assert(r[i] == inner[i] && r[j] == inner[j]);
            }
        }
        assert forall|y: (Seq<char>, nat)| #[trigger] r.contains(y) <==> (t.contains(y) || y == x) by {
            if r.contains(y) {
                let k = choose|k: int| 0 <= k < r.len() && r[k] == y;
                if k < inner.len() {
                    assert(inner.contains(y));
                    if d.contains(y) {
                        let m = choose|m: int| 0 <= m < d.len() && d[m] == y;
                        assert(t[m] == y);
                    }
                } else {
                    assert(t[t.len() - 1] == y);
                }
            }
            if t.contains(y) {
                let m = choose|m: int| 0 <= m < t.len() && t[m] == y;
                if m < t.len() - 1 {
                    assert(d[m] == y);
                    assert(inner.contains(y));
                    let k = choose|k: int| 0 <= k < inner.len() && inner[k] == y;
                    assert(r[k] == y);
                } else {
                    assert(r[inner.len() as int] == y);
                }
            }
            if y == x {
                assert(inner.contains(y));
                let k = choose|k: int| 0 <= k < inner.len() && inner[k] == y;
                assert(r[k] == y);
            }
        }
    }
}

/// The medal tally is ordered by score, highest first.
pub proof fn law_tally_sorted_by_score(s: Seq<(Seq<char>, nat, nat, nat)>)
    ensures
        readme::sort_by_score(s).len() == s.len(),
        forall|i: int, j: int|
            0 <= i < j < s.len() ==> readme::score(readme::sort_by_score(s)[i]) >= readme::score(
                readme::sort_by_score(s)[j],
            ),
    decreases s.len(),
{
    if s.len() > 0 {
        law_tally_sorted_by_score(s.drop_last());
        lemma_insert_by_score_sorted(readme::sort_by_score(s.drop_last()), s.last());
    }
}

proof fn lemma_insert_by_score_sorted(t: Seq<(Seq<char>, nat, nat, nat)>, x: (Seq<char>, nat, nat, nat))
    requires
        forall|i: int, j: int| 0 <= i < j < t.len() ==> readme::score(t[i]) >= readme::score(t[j]),
    ensures
        readme::insert_by_score(t, x).len() == t.len() + 1,
        forall|i: int, j: int|
            0 <= i < j < t.len() + 1 ==> readme::score(readme::insert_by_score(t, x)[i]) >= readme::score(
                readme::insert_by_score(t, x)[j],
            ),
        forall|i: int| 0 <= i < t.len() + 1 ==> readme::score(#[trigger] readme::insert_by_score(t, x)[i])
            >= readme::score(x) || readme::insert_by_score(t, x)[i] == x || exists|k: int| 0 <= k < t.len()
            && readme::insert_by_score(t, x)[i] == t[k],
    decreases t.len(),
{
    if t.len() == 0 || readme::score(t.last()) >= readme::score(x) {
        let r = t.push(x);
        assert forall|i: int, j: int| 0 <= i < j < t.len() + 1 implies readme::score(r[i]) >= readme::score(
            r[j],
        ) by {
            if j == t.len() {
                if i < t.len() - 1 {
                    assert(readme::score(t[i]) >= readme::score(t[t.len() - 1]));
                }
            }
        }
        assert forall|i: int| 0 <= i < t.len() + 1 implies readme::score(#[trigger] r[i]) >= readme::score(x)
            || r[i] == x || exists|k: int| 0 <= k < t.len() && r[i] == t[k] by {
            if i < t.len() {
                assert(r[i] == t[i]);
            }
        }
    } else {
        let u = t.drop_last();
        assert forall|i: int, j: int| 0 <= i < j < u.len() implies readme::score(u[i]) >= readme::score(u[j]) by {
            assert(u[i] == t[i] && u[j] == t[j]);
        }
        lemma_insert_by_score_sorted(u, x);
        let m = readme::insert_by_score(u, x);
        let r = m.push(t.last());
        assert(r == readme::insert_by_score(t, x));
        // Every element of `m` is `x` (whose score exceeds the last's) or an
        // element of `u` (whose scores are at least the last's).
        assert forall|i: int, j: int| 0 <= i < j < t.len() + 1 implies readme::score(r[i]) >= readme::score(
            r[j],
        ) by {
            if j == t.len() {
                assert(r[j] == t.last());
                assert(r[i] == m[i]);
                if readme::score(m[i]) < readme::score(x) && m[i] != x {
                    let k = choose|k: int| 0 <= k < u.len() && m[i] == u[k];
                    assert(u[k] == t[k]);
                    assert(readme::score(t[k]) >= readme::score(t[t.len() - 1]));
                }
            } else {
                assert(r[i] == m[i] && r[j] == m[j]);
            }
        }
        assert forall|i: int| 0 <= i < t.len() + 1 implies readme::score(#[trigger] r[i]) >= readme::score(x)
            || r[i] == x || exists|k: int| 0 <= k < t.len() && r[i] == t[k] by {
            if i < m.len() {
                assert(r[i] == m[i]);
                if !(readme::score(m[i]) >= readme::score(x) || m[i] == x) {
                    let k = choose|k: int| 0 <= k < u.len() && m[i] == u[k];
                    assert(u[k] == t[k]);
                }
            } else {
                assert(r[i] == t[t.len() - 1]);
            }
        }
    }
}

// ---------------------------------------------------------------------------
// Report figures
// ---------------------------------------------------------------------------

/// A row of the README medal tally reads the server, its golds, silvers and
/// bronzes, and its score: 3 points per gold, 2 per silver, 1 per bronze.
pub proof fn law_medal_tally_row(rows: Seq<(Seq<char>, nat, nat, nat)>, tr: Option<Seq<char>>, k: int)
    requires
        0 <= k < rows.len(),
    ensures
        readme::tally_rows(rows, tr, rows.len() as int).len() == rows.len(),
        readme::tally_rows(rows, tr, rows.len() as int)[k] == "| **"@ + rows[k].0 + "**"@ + readme::trophy_mark(
            tr,
            rows[k].0,
        ) + " | "@ + text::dec(rows[k].1) + " | "@ + text::dec(rows[k].2) + " | "@ + text::dec(rows[k].3)
            + " | "@ + text::dec(3 * rows[k].1 + 2 * rows[k].2 + rows[k].3) + " |"@,
{
    lemma_tally_rows(rows, tr, rows.len() as int, k);
}

proof fn lemma_tally_rows(rows: Seq<(Seq<char>, nat, nat, nat)>, tr: Option<Seq<char>>, n: int, k: int)
    requires
        0 <= k < n <= rows.len(),
    ensures
        readme::tally_rows(rows, tr, n).len() == n,
        readme::tally_rows(rows, tr, n)[k] == "| **"@ + rows[k].0 + "**"@ + readme::trophy_mark(tr, rows[k].0)
            + " | "@ + text::dec(rows[k].1) + " | "@ + text::dec(rows[k].2) + " | "@ + text::dec(rows[k].3)
            + " | "@ + text::dec(3 * rows[k].1 + 2 * rows[k].2 + rows[k].3) + " |"@,
    decreases n,
{
    if k < n - 1 {
        lemma_tally_rows(rows, tr, n - 1, k);
    } else if n > 1 {
        lemma_tally_rows(rows, tr, n - 1, 0);
    } else {
        assert(readme::tally_rows(rows, tr, 0).len() == 0);
    }
}

/// The README medal tally is ordered by the weighted score 3 × golds +
/// 2 × silvers + bronzes, highest first: one bronze alone ranks below one
/// silver alone.
pub proof fn law_medal_tally_order(s: Seq<(Seq<char>, nat, nat, nat)>)
    ensures
        readme::sort_by_score(s).len() == s.len(),
        forall|i: int, j: int|
            0 <= i < j < s.len() ==> 3 * (#[trigger] readme::sort_by_score(s)[i]).1 + 2 * readme::sort_by_score(
                s,
            )[i].2 + readme::sort_by_score(s)[i].3 >= 3 * (#[trigger] readme::sort_by_score(s)[j]).1 + 2
                * readme::sort_by_score(s)[j].2 + readme::sort_by_score(s)[j].3,
{
    law_tally_sorted_by_score(s);
    assert forall|i: int, j: int| 0 <= i < j < s.len() implies 3 * (#[trigger] readme::sort_by_score(s)[i]).1
        + 2 * readme::sort_by_score(s)[i].2 + readme::sort_by_score(s)[i].3 >= 3 * (
    #[trigger] readme::sort_by_score(s)[j]).1 + 2 * readme::sort_by_score(s)[j].2 + readme::sort_by_score(
        s,
    )[j].3 by {
        assert(readme::score(readme::sort_by_score(s)[i]) >= readme::score(readme::sort_by_score(s)[j]));
    }
}

/// For a method whose name mentions "completion" (and none of the names
/// checked before it), the human-readable result is the completion
/// summary; with an `items` array it begins with the number of items.
pub proof fn law_completion_result(m: Seq<char>, r: json::Json)
    requires
        text::contains(m, "completion"@),
        !text::contains(m, "definition"@),
        !text::contains(m, "declaration"@),
        !text::contains(m, "implementation"@),
        !text::contains(m, "reference"@),
        !text::contains(m, "hover"@),
    ensures
        summary::method_summary(m, r) == summary::completion_summary(r),
        json::opt_array(r.get("items"@)) matches Some(a) ==> (summary::method_summary(m, r) matches Some(t)
            && text::starts_with(t, text::dec(a.len()) + " items"@)),
{
    if json::opt_array(r.get("items"@)) is Some {
        let a = json::opt_array(r.get("items"@))->0;
        let t = summary::method_summary(m, r)->0;
        let p = text::dec(a.len()) + " items"@;
        reveal_strlit(" ");
        reveal_strlit("items");
        reveal_strlit(" items");
        assert(text::dec(a.len()) + " "@ + "items"@ =~= p);
        assert(summary::count_text(a.len(), "items"@) == p);
        let labels = summary::labels_of(summary::first_three(a));
        if labels.len() == 0 {
            assert(t == p);
        } else {
            assert(t == p + (" ("@ + text::join(labels, ", "@) + ")"@));
        }
        assert(t.subrange(0, p.len() as int) =~= p);
    }
}

/// The memory server `name` reports in server entry `j` of benchmark `i`
/// (its `rss_kb`), if that entry is the server's and reports one.
pub open spec fn reported_rss(bs: Seq<json::Json>, name: Seq<char>, i: int, j: int) -> Option<nat> {
    if 0 <= i < bs.len() && analysis::servers_in(bs[i]) is Some && 0 <= j < analysis::servers_in(bs[i])->0.len()
        && doc::str_or(analysis::servers_in(bs[i])->0[j].get("server"@), Seq::empty()) == name {
        match json::opt_u64(analysis::servers_in(bs[i])->0[j].get("rss_kb"@)) {
            Some(kb) => Some(kb as nat),
            None => None,
        }
    } else {
        None
    }
}

/// The peak memory the analysis shows for a server is the largest `rss_kb`
/// it reports in any benchmark: no report exceeds it and one report equals
/// it; there is none exactly when the server reports no memory.
pub proof fn law_peak_memory_is_largest_report(bs: Seq<json::Json>, name: Seq<char>)
    ensures
        forall|i: int, j: int|
            #[trigger] reported_rss(bs, name, i, j) matches Some(v) ==> (analysis::peak(
                bs,
                name,
                bs.len() as int,
            ) matches Some(p) && v <= p),
        analysis::peak(bs, name, bs.len() as int) matches Some(p) ==> exists|i: int, j: int|
            #[trigger] reported_rss(bs, name, i, j) == Some(p),
{
    lemma_peak(bs, name, bs.len() as int);
}

proof fn lemma_peak(bs: Seq<json::Json>, name: Seq<char>, n: int)
    requires
        0 <= n <= bs.len(),
    ensures
        forall|i: int, j: int|
            0 <= i < n ==> (#[trigger] reported_rss(bs, name, i, j) matches Some(v) ==> (analysis::peak(
                bs,
                name,
                n,
            ) matches Some(p) && v <= p)),
        analysis::peak(bs, name, n) matches Some(p) ==> exists|i: int, j: int|
            0 <= i < n && #[trigger] reported_rss(bs, name, i, j) == Some(p),
    decreases n,
{
    if n > 0 {
        lemma_peak(bs, name, n - 1);
        let prev = analysis::peak(bs, name, n - 1);
        match analysis::servers_in(bs[n - 1]) {
            Some(ss) => {
                lemma_peak_in(bs, name, n - 1, ss, prev, ss.len() as int);
                assert forall|i: int, j: int|
                    0 <= i < n implies (#[trigger] reported_rss(bs, name, i, j) matches Some(v) ==> (
                    analysis::peak(bs, name, n) matches Some(p) && v <= p)) by {
                    if i < n - 1 && reported_rss(bs, name, i, j) is Some {
                        assert(prev is Some);
                    }
                }
            },
            None => {
                assert forall|i: int, j: int|
                    0 <= i < n implies (#[trigger] reported_rss(bs, name, i, j) matches Some(v) ==> (
                    analysis::peak(bs, name, n) matches Some(p) && v <= p)) by {
                    if i == n - 1 {
                        assert(reported_rss(bs, name, i, j) is None);
                    }
                }
            },
        }
    }
}

proof fn lemma_peak_in(
    bs: Seq<json::Json>,
    name: Seq<char>,
    i: int,
    ss: Seq<json::Json>,
    start: Option<nat>,
    n: int,
)
    requires
        0 <= i < bs.len(),
        analysis::servers_in(bs[i]) == Some(ss),
        0 <= n <= ss.len(),
    ensures
        start matches Some(q) ==> (analysis::peak_in(ss, name, start, n) matches Some(p) && q <= p),
        forall|j: int|
            0 <= j < n ==> (#[trigger] reported_rss(bs, name, i, j) matches Some(v) ==> (analysis::peak_in(
                ss,
                name,
                start,
                n,
            ) matches Some(p) && v <= p)),
        analysis::peak_in(ss, name, start, n) matches Some(p) ==> (start == Some(p) || exists|j: int|
            0 <= j < n && #[trigger] reported_rss(bs, name, i, j) == Some(p)),
    decreases n,
{
    if n > 0 {
        lemma_peak_in(bs, name, i, ss, start, n - 1);
        let prev = analysis::peak_in(ss, name, start, n - 1);
        let cur = analysis::peak_in(ss, name, start, n);
        let r = reported_rss(bs, name, i, n - 1);
        if let Some(pp) = cur {
            if cur != prev {
                assert(r == Some(pp));
            }
        }
        assert forall|j: int| 0 <= j < n implies (#[trigger] reported_rss(bs, name, i, j) matches Some(v) ==> (
        cur matches Some(p) && v <= p)) by {
            if j < n - 1 && reported_rss(bs, name, i, j) is Some {
                assert(prev is Some);
            }
        }
    }
}

/// The memory a correct, "ok" server reports for a benchmark: its positive
/// `rss_kb`.
pub open spec fn correct_rss(name: Seq<char>, srv: json::Json) -> Option<nat> {
    if doc::str_or(srv.get("status"@), Seq::empty()) == "ok"@ && report::correct(name, srv) {
        match json::opt_u64(srv.get("rss_kb"@)) {
            Some(kb) => if kb > 0 {
                Some(kb as nat)
            } else {
                None
            },
            None => None,
        }
    } else {
        None
    }
}

/// The memory bolded in a method's results table is the lowest: it is no
/// greater than the positive `rss_kb` of every correct "ok" server, and it
/// is one of them (or `u64::MAX`, matching none, when there is none).
pub proof fn law_best_rss_is_lowest(name: Seq<char>, ss: Seq<json::Json>)
    ensures
        forall|k: int|
            0 <= k < ss.len() ==> (#[trigger] correct_rss(name, ss[k]) matches Some(v) ==> competition::best_rss(
                name,
                ss,
                ss.len() as int,
            ) <= v),
        competition::best_rss(name, ss, ss.len() as int) == 0xffff_ffff_ffff_ffffnat || exists|k: int|
            0 <= k < ss.len() && #[trigger] correct_rss(name, ss[k]) == Some(
                competition::best_rss(name, ss, ss.len() as int),
            ),
{
    lemma_best_rss(name, ss, ss.len() as int);
}

proof fn lemma_best_rss(name: Seq<char>, ss: Seq<json::Json>, n: int)
    requires
        0 <= n <= ss.len(),
    ensures
        competition::best_rss(name, ss, n) <= 0xffff_ffff_ffff_ffffnat,
        forall|k: int|
            0 <= k < n ==> (#[trigger] correct_rss(name, ss[k]) matches Some(v) ==> competition::best_rss(
                name,
                ss,
                n,
            ) <= v),
        competition::best_rss(name, ss, n) == 0xffff_ffff_ffff_ffffnat || exists|k: int|
            0 <= k < n && #[trigger] correct_rss(name, ss[k]) == Some(competition::best_rss(name, ss, n)),
    decreases n,
{
    if n > 0 {
        lemma_best_rss(name, ss, n - 1);
        let s = ss[n - 1];
        assert(correct_rss(name, s) == match session::rss_of(s) {
            Some(kb) => if doc::str_or(s.get("status"@), Seq::empty()) == "ok"@ && report::correct(name, s) {
                Some(kb as nat)
            } else {
                None
            },
            None => None,
        });
    }
}

/// Whether edit `a` starts at or after edit `b`, by (line, character).
spec fn starts_no_earlier(a: (nat, nat, nat, nat, Seq<char>), b: (nat, nat, nat, nat, Seq<char>)) -> bool {
    a.0 > b.0 || (a.0 == b.0 && a.1 >= b.1)
}

/// A rename's edits are applied latest start first: the order they are
/// applied in holds every edit once, by descending (start line, start
/// character), so of two edits on one line the one starting further right
/// comes first.
pub proof fn law_rename_edits_latest_first(es: Seq<(nat, nat, nat, nat, Seq<char>)>)
    ensures
        lifecycle::sort_by_start(es).len() == es.len(),
        forall|i: int, j: int|
            0 <= i < j < es.len() ==> {
                let a = #[trigger] lifecycle::sort_by_start(es)[i];
                let b = #[trigger] lifecycle::sort_by_start(es)[j];
                a.0 > b.0 || (a.0 == b.0 && a.1 >= b.1)
            },
        forall|y: (nat, nat, nat, nat, Seq<char>)| #[trigger] lifecycle::sort_by_start(es).contains(y) <==> es.contains(y),
    decreases es.len(),
{
    if es.len() > 0 {
        let d = es.drop_last();
        law_rename_edits_latest_first(d);
        let sd = lifecycle::sort_by_start(d);
        assert forall|i: int, j: int| 0 <= i < j < sd.len() implies starts_no_earlier(#[trigger] sd[i], #[trigger] sd[j]) by {}
        lemma_insert_by_start(sd, es.last());
        let r = lifecycle::sort_by_start(es);
        assert forall|i: int, j: int| 0 <= i < j < es.len() implies {
            let a = #[trigger] r[i];
            let b = #[trigger] r[j];
            a.0 > b.0 || (a.0 == b.0 && a.1 >= b.1)
        } by {
            assert(starts_no_earlier(r[i], r[j]));
        }
        assert forall|y: (nat, nat, nat, nat, Seq<char>)| #[trigger] r.contains(y) <==> es.contains(y) by {
            if es.contains(y) {
                let m = choose|m: int| 0 <= m < es.len() && es[m] == y;
                if m < es.len() - 1 {
                    assert(d[m] == y);
                    assert(sd.contains(y));
                }
            }
            if sd.contains(y) {
                let m = choose|m: int| 0 <= m < d.len() && d[m] == y;
                assert(es[m] == y);
            }
        }
    }
}

proof fn lemma_insert_by_start(t: Seq<(nat, nat, nat, nat, Seq<char>)>, x: (nat, nat, nat, nat, Seq<char>))
    requires
        forall|i: int, j: int| 0 <= i < j < t.len() ==> starts_no_earlier(#[trigger] t[i], #[trigger] t[j]),
    ensures
        lifecycle::insert_by_start(t, x).len() == t.len() + 1,
        forall|i: int, j: int|
            0 <= i < j < t.len() + 1 ==> starts_no_earlier(
                #[trigger] lifecycle::insert_by_start(t, x)[i],
                #[trigger] lifecycle::insert_by_start(t, x)[j],
            ),
        forall|y: (nat, nat, nat, nat, Seq<char>)| #[trigger] lifecycle::insert_by_start(t, x).contains(y) <==> (
        t.contains(y) || y == x),
    decreases t.len(),
{
    let r = lifecycle::insert_by_start(t, x);
    if t.len() == 0 || lifecycle::start_ge(t.last(), x) {
        assert(r == t.push(x));
        assert(t.len() > 0 ==> starts_no_earlier(t.last(), x));
        assert forall|i: int, j: int| 0 <= i < j < t.len() + 1 implies starts_no_earlier(#[trigger] r[i], #[trigger] r[j]) by {
            if j == t.len() {
                assert(r[i] == t[i]);
                if i < t.len() - 1 {
                    assert(starts_no_earlier(t[i], t[t.len() - 1]));
                }
            } else {
                assert(r[i] == t[i] && r[j] == t[j]);
            }
        }
        assert forall|y: (nat, nat, nat, nat, Seq<char>)| #[trigger] r.contains(y) <==> (t.contains(y) || y == x) by {
            if r.contains(y) {
                let k = choose|k: int| 0 <= k < r.len() && r[k] == y;
                if k < t.len() {
                    assert(t[k] == y);
                }
            }
            if t.contains(y) {
                let k = choose|k: int| 0 <= k < t.len() && t[k] == y;
                assert(r[k] == y);
            }
            if y == x {
                assert(r[t.len() as int] == y);
            }
        }
    } else {
        let d = t.drop_last();
        assert forall|i: int, j: int| 0 <= i < j < d.len() implies starts_no_earlier(#[trigger] d[i], #[trigger] d[j]) by {
            assert(d[i] == t[i] && d[j] == t[j]);
        }
        lemma_insert_by_start(d, x);
        let inner = lifecycle::insert_by_start(d, x);
        assert(r == inner.push(t.last()));
        assert(!starts_no_earlier(t.last(), x));
        assert forall|k: int| 0 <= k < inner.len() implies starts_no_earlier(#[trigger] inner[k], t.last()) by {
            assert(inner.contains(inner[k]));
            if inner[k] != x {
                assert(d.contains(inner[k]));
                let m = choose|m: int| 0 <= m < d.len() && d[m] == inner[k];
                assert(t[m] == inner[k]);
                assert(starts_no_earlier(t[m], t[t.len() - 1]));
            }
        }
        assert forall|i: int, j: int| 0 <= i < j < t.len() + 1 implies starts_no_earlier(#[trigger] r[i], #[trigger] r[j]) by {
            if j == inner.len() {
                assert(r[i] == inner[i]);
                assert(starts_no_earlier(inner[i], t.last()));
            } else {
                assert(r[i] == inner[i] && r[j] == inner[j]);
            }
        }
        assert forall|y: (nat, nat, nat, nat, Seq<char>)| #[trigger] r.contains(y) <==> (t.contains(y) || y == x) by {
            if r.contains(y) {
                let k = choose|k: int| 0 <= k < r.len() && r[k] == y;
                if k < inner.len() {
                    assert(inner.contains(y));
                    if d.contains(y) {
                        let m = choose|m: int| 0 <= m < d.len() && d[m] == y;
                        assert(t[m] == y);
                    }
                } else {
                    assert(t[t.len() - 1] == y);
                }
            }
            if t.contains(y) {
                let m = choose|m: int| 0 <= m < t.len() && t[m] == y;
                if m < t.len() - 1 {
                    assert(d[m] == y);
                    assert(inner.contains(y));
                    let k = choose|k: int| 0 <= k < inner.len() && inner[k] == y;
                    assert(r[k] == y);
                } else {
                    assert(r[inner.len() as int] == y);
                }
            }
            if y == x {
                assert(inner.contains(y));
                let k = choose|k: int| 0 <= k < inner.len() && inner[k] == y;
                assert(r[k] == y);
            }
        }
    }
}

/// Applying a rename's edits to a file applies them, each once, in
/// descending (start line, start character) order.
pub proof fn law_rename_applies_latest_first(content: Seq<char>, es: Seq<json::Json>)
    ensures
        exists|s: Seq<(nat, nat, nat, nat, Seq<char>)>|
            {
                &&& s.len() == es.len()
                &&& forall|i: int, j: int|
                    0 <= i < j < s.len() ==> (#[trigger] s[i]).0 > (#[trigger] s[j]).0 || (s[i].0 == s[j].0
                        && s[i].1 >= s[j].1)
                &&& forall|y: (nat, nat, nat, nat, Seq<char>)|
                    #[trigger] s.contains(y) <==> es.map_values(|e: json::Json| lifecycle::line_edit_of(e)).contains(y)
                &&& lifecycle::rename_edited(content, es) == lifecycle::apply_line_edits(content, s)
            },
{
    let kv = es.map_values(|e: json::Json| lifecycle::line_edit_of(e));
    law_rename_edits_latest_first(kv);
    let s = lifecycle::sort_by_start(kv);
    assert forall|i: int, j: int| 0 <= i < j < s.len() implies (#[trigger] s[i]).0 > (#[trigger] s[j]).0 || (
    s[i].0 == s[j].0 && s[i].1 >= s[j].1) by {
        let a = s[i];
        let b = s[j];
        assert(a.0 > b.0 || (a.0 == b.0 && a.1 >= b.1));
    }
}

/// The human-readable result of a response picks its summary by the method
/// name: a definition, declaration or implementation gives the location
/// summary; otherwise references count the locations ("N references"), a
/// hover gives the hover summary, and diagnostics count the diagnostics
/// ("N diagnostics").
pub proof fn law_method_result_by_name(m: Seq<char>, r: json::Json)
    ensures
        (text::contains(m, "definition"@) || text::contains(m, "declaration"@) || text::contains(
            m,
            "implementation"@,
        )) ==> summary::method_summary(m, r) == summary::location_summary(r),
        (!text::contains(m, "definition"@) && !text::contains(m, "declaration"@) && !text::contains(
            m,
            "implementation"@,
        ) && text::contains(m, "reference"@) && r is Arr) ==> summary::method_summary(m, r) == Some(
            text::dec(r->Arr_0.len()) + " references"@,
        ),
        (!text::contains(m, "definition"@) && !text::contains(m, "declaration"@) && !text::contains(
            m,
            "implementation"@,
        ) && !text::contains(m, "reference"@) && text::contains(m, "hover"@)) ==> summary::method_summary(m, r)
            == summary::hover_summary(r),
        (!text::contains(m, "definition"@) && !text::contains(m, "declaration"@) && !text::contains(
            m,
            "implementation"@,
        ) && !text::contains(m, "reference"@) && !text::contains(m, "hover"@) && !text::contains(
            m,
            "completion"@,
        ) && text::contains(m, "diagnostic"@) && r is Arr) ==> summary::method_summary(m, r) == Some(
            text::dec(r->Arr_0.len()) + " diagnostics"@,
        ),
{
    reveal_strlit(" ");
    reveal_strlit("references");
    reveal_strlit(" references");
    reveal_strlit("diagnostics");
    reveal_strlit(" diagnostics");
    if r is Arr {
        let n = r->Arr_0.len();
        assert(text::dec(n) + " "@ + "references"@ =~= text::dec(n) + " references"@);
        assert(text::dec(n) + " "@ + "diagnostics"@ =~= text::dec(n) + " diagnostics"@);
        if json::opt_array(r.get("diagnostics"@)) is None {
            assert(summary::array_at_or_self(r, "diagnostics"@) == Some(r->Arr_0));
        }
    }
}

/// A column of the delta table is as wide as its widest cell (in bytes),
/// and never narrower than its heading: every cell fits, and the width is
/// the heading's or some cell's.
pub proof fn law_delta_column_fits(rows: Seq<delta::Row>, k: int, init: nat)
    ensures
        delta::col_width(rows, k, init, rows.len() as int) >= init,
        forall|i: int|
            0 <= i < rows.len() ==> text::utf8_len(delta::field(#[trigger] rows[i], k)) <= delta::col_width(
                rows,
                k,
                init,
                rows.len() as int,
            ),
        delta::col_width(rows, k, init, rows.len() as int) == init || exists|i: int|
            0 <= i < rows.len() && text::utf8_len(delta::field(#[trigger] rows[i], k)) == delta::col_width(
                rows,
                k,
                init,
                rows.len() as int,
            ),
{
    lemma_col_width(rows, k, init, rows.len() as int);
}

proof fn lemma_col_width(rows: Seq<delta::Row>, k: int, init: nat, n: int)
    requires
        0 <= n <= rows.len(),
    ensures
        delta::col_width(rows, k, init, n) >= init,
        forall|i: int|
            0 <= i < n ==> text::utf8_len(delta::field(#[trigger] rows[i], k)) <= delta::col_width(rows, k, init, n),
        delta::col_width(rows, k, init, n) == init || exists|i: int|
            0 <= i < n && text::utf8_len(delta::field(#[trigger] rows[i], k)) == delta::col_width(rows, k, init, n),
    decreases n,
{
    if n > 0 {
        lemma_col_width(rows, k, init, n - 1);
    }
}

/// The total of the win counts.
pub open spec fn total_wins(t: Seq<(Seq<char>, nat)>) -> nat
    decreases t.len(),
{
    if t.len() == 0 {
        0
    } else {
        t[0].1 + total_wins(t.drop_first())
    }
}

/// Recording a win adds exactly one to the winner's count and to the total,
/// and leaves every other server's count as it was.
pub proof fn law_add_win(t: Seq<(Seq<char>, nat)>, name: Seq<char>, other: Seq<char>)
    ensures
        readme::wins_of(competition::add_win(t, name), name) == readme::wins_of(t, name) + 1,
        other != name ==> readme::wins_of(competition::add_win(t, name), other) == readme::wins_of(t, other),
        total_wins(competition::add_win(t, name)) == total_wins(t) + 1,
    decreases t.len(),
{
    let r = competition::add_win(t, name);
    if t.len() == 0 {
        assert(r.drop_first().len() == 0);
        assert(config::lookup(r.drop_first(), other) is None);
        assert(total_wins(r.drop_first()) == 0);
    } else if t[0].0 == name {
        assert(r.drop_first() =~= t.drop_first());
    } else {
        law_add_win(t.drop_first(), name, other);
        assert(r.drop_first() =~= competition::add_win(t.drop_first(), name));
        assert(r[0] == t[0]);
    }
}

/// How many of the first `n` benchmarks have a README winner.
pub open spec fn benchmarks_won(bs: Seq<json::Json>, t: Seq<Seq<readme::Times>>, n: int) -> nat
    decreases n,
{
    if n <= 0 || n > bs.len() {
        0
    } else {
        benchmarks_won(bs, t, n - 1) + match analysis::servers_in(bs[n - 1]) {
            Some(ss) => if readme::winner(ss, t, n - 1) is Some {
                1nat
            } else {
                0nat
            },
            None => 0nat,
        }
    }
}

/// Every benchmark with a winner gives exactly one gold medal: the gold
/// counts behind the overall winner add up to the number of benchmarks won.
pub proof fn law_one_gold_per_benchmark(bs: Seq<json::Json>, t: Seq<Seq<readme::Times>>, n: int)
    requires
        0 <= n <= bs.len(),
    ensures
        total_wins(readme::gold_wins(bs, t, n)) == benchmarks_won(bs, t, n),
    decreases n,
{
    if n > 0 {
        law_one_gold_per_benchmark(bs, t, n - 1);
        match analysis::servers_in(bs[n - 1]) {
            Some(ss) => match readme::winner(ss, t, n - 1) {
                Some(w) => {
                    law_add_win(readme::gold_wins(bs, t, n - 1), w, w);
                },
                None => {},
            },
            None => {},
        }
    }
}

/// How many of the first `n` servers of benchmark `i` are correct and
/// marked fastest.
pub open spec fn fastest_correct_in(
    name: Seq<char>,
    ss: Seq<json::Json>,
    fast: Seq<Seq<bool>>,
    i: int,
    n: int,
) -> nat
    decreases n,
{
    if n <= 0 || n > ss.len() {
        0
    } else {
        fastest_correct_in(name, ss, fast, i, n - 1) + if competition::flag_at(fast, i, n - 1) && report::correct(
            name,
            ss[n - 1],
        ) {
            1nat
        } else {
            0nat
        }
    }
}

/// How many (benchmark, server) pairs of the first `n` benchmarks are
/// correct and marked fastest.
pub open spec fn fastest_correct(bs: Seq<json::Json>, fast: Seq<Seq<bool>>, n: int) -> nat
    decreases n,
{
    if n <= 0 || n > bs.len() {
        0
    } else {
        fastest_correct(bs, fast, n - 1) + match competition::servers_of(bs[n - 1]) {
            Some(ss) => fastest_correct_in(competition::bench_name(bs[n - 1]), ss, fast, n - 1, ss.len() as int),
            None => 0nat,
        }
    }
}

/// The competition scorecard counts one win for each server that is both
/// correct and marked fastest in a benchmark, and nothing else.
pub proof fn law_scorecard_counts_fastest_correct(bs: Seq<json::Json>, fast: Seq<Seq<bool>>, n: int)
    requires
        0 <= n <= bs.len(),
    ensures
        total_wins(competition::wins(bs, fast, n)) == fastest_correct(bs, fast, n),
    decreases n,
{
    if n > 0 {
        law_scorecard_counts_fastest_correct(bs, fast, n - 1);
        match competition::servers_of(bs[n - 1]) {
            Some(ss) => {
                lemma_bench_wins_total(
                    competition::wins(bs, fast, n - 1),
                    competition::bench_name(bs[n - 1]),
                    ss,
                    fast,
                    n - 1,
                    ss.len() as int,
                );
            },
            None => {},
        }
    }
}

proof fn lemma_bench_wins_total(
    t: Seq<(Seq<char>, nat)>,
    name: Seq<char>,
    ss: Seq<json::Json>,
    fast: Seq<Seq<bool>>,
    i: int,
    n: int,
)
    requires
        0 <= n <= ss.len(),
    ensures
        total_wins(competition::bench_wins(t, name, ss, fast, i, n)) == total_wins(t) + fastest_correct_in(
            name,
            ss,
            fast,
            i,
            n,
        ),
    decreases n,
{
    if n > 0 {
        lemma_bench_wins_total(t, name, ss, fast, i, n - 1);
        let prev = competition::bench_wins(t, name, ss, fast, i, n - 1);
        let w = doc::str_or(ss[n - 1].get("server"@), "?"@);
        law_add_win(prev, w, w);
    }
}

/// Entries of server `name` among the first `n` of a benchmark (only those
/// whose capability is "ok" when `only_ok`).
pub open spec fn named_in(ss: Seq<json::Json>, name: Seq<char>, only_ok: bool, n: int) -> nat
    decreases n,
{
    if n <= 0 || n > ss.len() {
        0
    } else {
        named_in(ss, name, only_ok, n - 1) + if doc::str_or(ss[n - 1].get("server"@), Seq::empty()) == name && (
        !only_ok || report::status_label(ss[n - 1]) == "ok"@) {
            1nat
        } else {
            0nat
        }
    }
}

/// Entries of server `name` over the first `n` benchmarks.
pub open spec fn named(bs: Seq<json::Json>, name: Seq<char>, only_ok: bool, n: int) -> nat
    decreases n,
{
    if n <= 0 || n > bs.len() {
        0
    } else {
        named(bs, name, only_ok, n - 1) + match analysis::servers_in(bs[n - 1]) {
            Some(ss) => named_in(ss, name, only_ok, ss.len() as int),
            None => 0nat,
        }
    }
}

/// The analysis counts each entry of a server once: as working when its
/// capability is "ok", as failed otherwise.
pub proof fn law_capability_counts_split(bs: Seq<json::Json>, name: Seq<char>, n: int)
    requires
        0 <= n <= bs.len(),
    ensures
        analysis::counts(bs, name, n).0 == named(bs, name, true, n),
        analysis::counts(bs, name, n).0 + analysis::counts(bs, name, n).1 == named(bs, name, false, n),
    decreases n,
{
    if n > 0 {
        law_capability_counts_split(bs, name, n - 1);
        match analysis::servers_in(bs[n - 1]) {
            Some(ss) => lemma_counts_in_split(ss, name, ss.len() as int),
            None => {},
        }
    }
}

proof fn lemma_counts_in_split(ss: Seq<json::Json>, name: Seq<char>, n: int)
    requires
        0 <= n <= ss.len(),
    ensures
        analysis::counts_in(ss, name, n).0 == named_in(ss, name, true, n),
        analysis::counts_in(ss, name, n).0 + analysis::counts_in(ss, name, n).1 == named_in(ss, name, false, n),
    decreases n,
{
    if n > 0 {
        lemma_counts_in_split(ss, name, n - 1);
    }
}

} // verus!
