//! Reading JSON text back into a document.
//!
//! Text is first put in serde_json's canonical compact form (whitespace
//! removed, object members sorted and deduplicated, numbers rendered the way
//! serde_json renders them); the canonical text is then read by the grammar
//! below, which accepts exactly the compact forms that `serialize` writes.
use vstd::prelude::*;
use crate::json::{self, JsonValue, JsonNumber};
use crate::text::{self, chars_of};

verus! {

/// serde_json's canonical compact rendering of a JSON text, `None` when the
/// text is not JSON.
pub uninterp spec fn spec_canonical_json(text: Seq<char>) -> Option<Seq<char>>;

/// Canonical compact form of a JSON text (`serde_json::from_str` into a
/// `serde_json::Value`, then `to_string`); `None` when the text does not
/// parse.
#[verifier::external_body]
pub(crate) fn canonical_json(text: &str) -> (r: Option<String>)
    ensures
        match r {
            Some(c) => spec_canonical_json(text@) == Some(c@),
            None => spec_canonical_json(text@) is None,
        },
{
    serde_json::from_str::<serde_json::Value>(text).ok().map(|v| v.to_string())
}

// ---------------------------------------------------------------------------
// Grammar of compact JSON text
// ---------------------------------------------------------------------------

pub open spec fn is_digit(c: char) -> bool {
    '0' <= c && c <= '9'
}

pub open spec fn is_num_char(c: char) -> bool {
    is_digit(c) || c == '-' || c == '+' || c == '.' || c == 'e' || c == 'E'
}

/// End of the run of number characters starting at `p`.
pub open spec fn num_end(s: Seq<char>, p: int) -> int
    decreases s.len() - p,
{
    if 0 <= p < s.len() && is_num_char(s[p]) {
        num_end(s, p + 1)
    } else {
        p
    }
}

pub open spec fn all_digits(d: Seq<char>) -> bool {
    forall|i: int| 0 <= i < d.len() ==> is_digit(#[trigger] d[i])
}

/// Digits without a superfluous leading zero.
pub open spec fn canonical_digits(d: Seq<char>) -> bool {
    d.len() > 0 && all_digits(d) && (d.len() == 1 || d[0] != '0')
}

/// The value of a digit string.
pub open spec fn digits_value(d: Seq<char>) -> nat
    decreases d.len(),
{
    if d.len() == 0 {
        0
    } else {
        digits_value(d.drop_last()) * 10 + ((d.last() as u32 - '0' as u32) as nat)
    }
}

/// An integer-shaped token: optional minus sign, then digits.
pub open spec fn int_shaped(t: Seq<char>) -> bool {
    (t.len() > 0 && all_digits(t)) || (t.len() > 1 && t[0] == '-' && all_digits(t.drop_first()))
}

/// The number that a token denotes: integers in canonical form and range,
/// or any other run of number characters as a float.
pub open spec fn token_number(t: Seq<char>) -> Option<json::Num> {
    if int_shaped(t) {
        if t[0] == '-' {
            let d = t.drop_first();
            if canonical_digits(d) && 0 < digits_value(d) <= 0x8000_0000_0000_0000 {
                Some(json::Num::NegInt((-(digits_value(d) as int)) as i64))
            } else {
                None
            }
        } else if canonical_digits(t) && digits_value(t) <= 0xffff_ffff_ffff_ffff {
            Some(json::Num::PosInt(digits_value(t) as u64))
        } else {
            None
        }
    } else if t.len() > 0 {
        Some(json::Num::Float(t))
    } else {
        None
    }
}

pub open spec fn hex_value(c: char) -> Option<nat> {
    if is_digit(c) {
        Some((c as u32 - '0' as u32) as nat)
    } else if 'a' <= c && c <= 'f' {
        Some((c as u32 - 'a' as u32 + 10) as nat)
    } else {
        None
    }
}

/// The character an escape sequence starting at `p` (just after the
/// backslash) stands for, and the index after it.
pub open spec fn escape_at(s: Seq<char>, p: int) -> Option<(char, int)> {
    if p < 0 || p >= s.len() {
        None
    } else {
        let c = s[p];
        if c == '"' {
            Some(('"', p + 1))
        } else if c == '\\' {
            Some(('\\', p + 1))
        } else if c == 'b' {
            Some(('\u{8}', p + 1))
        } else if c == 't' {
            Some(('\t', p + 1))
        } else if c == 'n' {
            Some(('\n', p + 1))
        } else if c == 'f' {
            Some(('\u{c}', p + 1))
        } else if c == 'r' {
            Some(('\r', p + 1))
        } else if c == 'u' && p + 4 < s.len() && s[p + 1] == '0' && s[p + 2] == '0' && hex_value(
            s[p + 3],
        ) is Some && hex_value(s[p + 4]) is Some {
            let v = hex_value(s[p + 3])->0 * 16 + hex_value(s[p + 4])->0;
            if v < 0x20 && v != 8 && v != 9 && v != 10 && v != 12 && v != 13 {
                Some(((v as u32) as char, p + 5))
            } else {
                None
            }
        } else {
            None
        }
    }
}

/// The body of a string from `p` up to its closing quote, appended to
/// `acc`, and the index after the quote.
pub open spec fn string_body(s: Seq<char>, p: int, acc: Seq<char>) -> Option<(Seq<char>, int)>
    decreases s.len() - p,
{
    if p < 0 || p >= s.len() {
        None
    } else if s[p] == '"' {
        Some((acc, p + 1))
    } else if s[p] == '\\' {
        match escape_at(s, p + 1) {
            Some((c, q)) => if q > p {
                string_body(s, q, acc.push(c))
            } else {
                None
            },
            None => None,
        }
    } else if (s[p] as u32) < 0x20 {
        None
    } else {
        string_body(s, p + 1, acc.push(s[p]))
    }
}

/// `lit` occurs at `p`.
pub open spec fn at(s: Seq<char>, p: int, lit: Seq<char>) -> bool {
    text::occurs_at(s, lit, p)
}

/// A value starting at `p`, and the index after it.
pub open spec fn value_at(s: Seq<char>, p: int) -> Option<(json::Json, int)>
    decreases s.len() - p, 1int,
{
    if p < 0 || p >= s.len() {
        None
    } else {
        let c = s[p];
        if c == 'n' {
            if at(s, p, "null"@) { Some((json::Json::Null, p + 4)) } else { None }
        } else if c == 't' {
            if at(s, p, "true"@) { Some((json::Json::Bool(true), p + 4)) } else { None }
        } else if c == 'f' {
            if at(s, p, "false"@) { Some((json::Json::Bool(false), p + 5)) } else { None }
        } else if c == '"' {
            match string_body(s, p + 1, Seq::empty()) {
                Some((t, q)) => Some((json::Json::Str(t), q)),
                None => None,
            }
        } else if c == '[' {
            if p + 1 < s.len() && s[p + 1] == ']' {
                Some((json::Json::Arr(Seq::empty()), p + 2))
            } else {
                elems_at(s, p + 1, Seq::empty())
            }
        } else if c == '{' {
            if p + 1 < s.len() && s[p + 1] == '}' {
                Some((json::Json::Obj(Seq::empty()), p + 2))
            } else {
                members_at(s, p + 1, Seq::empty())
            }
        } else if is_num_char(c) {
            match token_number(s.subrange(p, num_end(s, p))) {
                Some(n) => Some((json::Json::Num(n), num_end(s, p))),
                None => None,
            }
        } else {
            None
        }
    }
}

/// Array elements from `p` (after `[` or a comma), appended to `acc`.
pub open spec fn elems_at(s: Seq<char>, p: int, acc: Seq<json::Json>) -> Option<(json::Json, int)>
    decreases s.len() - p, 2int,
{
    match value_at(s, p) {
        Some((v, q)) => if p < q < s.len() && s[q] == ',' {
            elems_at(s, q + 1, acc.push(v))
        } else if p < q < s.len() && s[q] == ']' {
            Some((json::Json::Arr(acc.push(v)), q + 1))
        } else {
            None
        },
        None => None,
    }
}

/// Object members from `p` (after `{` or a comma), appended to `acc`.
pub open spec fn members_at(
    s: Seq<char>,
    p: int,
    acc: Seq<(Seq<char>, json::Json)>,
) -> Option<(json::Json, int)>
    decreases s.len() - p, 2int,
{
    if p < 0 || p >= s.len() || s[p] != '"' {
        None
    } else {
        match string_body(s, p + 1, Seq::empty()) {
            Some((k, q)) => if p < q < s.len() && s[q] == ':' {
                match value_at(s, q + 1) {
                    Some((v, r)) => if q < r < s.len() && s[r] == ',' {
                        members_at(s, r + 1, acc.push((k, v)))
                    } else if q < r < s.len() && s[r] == '}' {
                        Some((json::Json::Obj(acc.push((k, v))), r + 1))
                    } else {
                        None
                    },
                    None => None,
                }
            } else {
                None
            },
            None => None,
        }
    }
}

/// The document that a whole compact text denotes.
pub open spec fn read_text(s: Seq<char>) -> Option<json::Json> {
    match value_at(s, 0) {
        Some((v, q)) => if q == s.len() {
            Some(v)
        } else {
            None
        },
        None => None,
    }
}

/// The document that a JSON text denotes (`serde_json::from_str`).
pub open spec fn decode(text: Seq<char>) -> Option<json::Json> {
    match spec_canonical_json(text) {
        Some(c) => read_text(c),
        None => None,
    }
}


// ---------------------------------------------------------------------------
// Reading
// ---------------------------------------------------------------------------

pub proof fn lemma_digits_value_prefix_mono(d: Seq<char>, i: int)
    requires
        0 <= i <= d.len(),
        all_digits(d),
    ensures
        digits_value(d.subrange(0, i)) <= digits_value(d),
    decreases d.len() - i,
{
    if i < d.len() {
        lemma_digits_value_prefix_mono(d, i + 1);
        let t = d.subrange(0, i + 1);
        assert(t.drop_last() =~= d.subrange(0, i));
        assert(is_digit(d[i]));
    } else {
        assert(d.subrange(0, i) =~= d);
    }
}

fn is_digit_exec(c: char) -> (r: bool)
    ensures
        r == is_digit(c),
{
    '0' <= c && c <= '9'
}

fn is_num_char_exec(c: char) -> (r: bool)
    ensures
        r == is_num_char(c),
{
    is_digit_exec(c) || c == '-' || c == '+' || c == '.' || c == 'e' || c == 'E'
}

fn num_end_exec(s: &[char], p: usize) -> (r: usize)
    requires
        p <= s@.len(),
    ensures
        r == num_end(s@, p as int),
        p <= r <= s@.len(),
{
    let mut q = p;
    while q < s.len() && is_num_char_exec(s[q])
        invariant
            p <= q <= s@.len(),
            num_end(s@, p as int) == num_end(s@, q as int),
        decreases s.len() - q,
    {
        q += 1;
    }
    q
}

/// Whether `s[lo..hi]` is all digits.
fn all_digits_exec(s: &[char], lo: usize, hi: usize) -> (r: bool)
    requires
        lo <= hi <= s@.len(),
    ensures
        r == all_digits(s@.subrange(lo as int, hi as int)),
{
    let mut i = lo;
    while i < hi
        invariant
            lo <= i <= hi <= s@.len(),
            forall|k: int| lo <= k < i ==> is_digit(#[trigger] s@[k]),
        decreases hi - i,
    {
        if !is_digit_exec(s[i]) {
            assert(!is_digit(s@.subrange(lo as int, hi as int)[i - lo]));
            return false;
        }
        i += 1;
    }
    assert forall|k: int| 0 <= k < hi - lo implies is_digit(#[trigger] s@.subrange(lo as int, hi as int)[k]) by {
        assert(s@.subrange(lo as int, hi as int)[k] == s@[lo + k]);
    }
    true
}

/// The value of the digits `s[lo..hi]` when it is at most `u64::MAX`.
fn digits_value_exec(s: &[char], lo: usize, hi: usize) -> (r: Option<u64>)
    requires
        lo <= hi <= s@.len(),
        all_digits(s@.subrange(lo as int, hi as int)),
    ensures
        match r {
            Some(v) => v == digits_value(s@.subrange(lo as int, hi as int)),
            None => digits_value(s@.subrange(lo as int, hi as int)) > 0xffff_ffff_ffff_ffff,
        },
{
    let ghost d = s@.subrange(lo as int, hi as int);
    let mut i = lo;
    let mut v: u64 = 0;
    assert(d.subrange(0, 0) =~= Seq::<char>::empty());
    while i < hi
        invariant
            lo <= i <= hi <= s@.len(),
            d == s@.subrange(lo as int, hi as int),
            all_digits(d),
            v == digits_value(d.subrange(0, i - lo)),
        decreases hi - i,
    {
        let c = s[i];
        assert(d[i - lo] == c);
        assert(is_digit(c));
        let dg = (c as u32 - '0' as u32) as u64;
        assert(d.subrange(0, i - lo + 1).drop_last() =~= d.subrange(0, i - lo));
        if v > 1844674407370955161u64 || (v == 1844674407370955161u64 && dg > 5) {
            proof {
                lemma_digits_value_prefix_mono(d, i - lo + 1);
            }
            return None;
        }
        v = v * 10 + dg;
        i += 1;
    }
    assert(d.subrange(0, hi - lo) =~= d);
    Some(v)
}

/// The number a token `s[lo..hi]` denotes.
fn token_number_exec(s: &[char], lo: usize, hi: usize) -> (r: Option<JsonNumber>)
    requires
        lo <= hi <= s@.len(),
    ensures
        match r {
            Some(n) => token_number(s@.subrange(lo as int, hi as int)) == Some(n@),
            None => token_number(s@.subrange(lo as int, hi as int)) is None,
        },
{
    let ghost t = s@.subrange(lo as int, hi as int);
    if hi == lo {
        return None;
    }
    let neg = s[lo] == '-';
    assert(t[0] == s@[lo as int]);
    let dlo: usize = if neg { lo + 1 } else { lo };
    assert(t.drop_first() =~= s@.subrange(lo + 1, hi as int));
    let int_like = if neg { hi > lo + 1 && all_digits_exec(s, lo + 1, hi) } else { all_digits_exec(s, lo, hi) };
    proof {
        if !neg && int_like {
            assert(int_shaped(t));
        }
        if neg {
            assert(!all_digits(t)) by {
                assert(!is_digit(t[0]));
            }
        }
        assert(int_like == int_shaped(t));
    }
    if int_like {
        let dlen = hi - dlo;
        let lead_zero = s[dlo] == '0';
        assert(s@.subrange(dlo as int, hi as int)[0] == s@[dlo as int]);
        let canon = dlen == 1 || !lead_zero;
        assert(canon == canonical_digits(s@.subrange(dlo as int, hi as int)));
        if !canon {
            return None;
        }
        match digits_value_exec(s, dlo, hi) {
            Some(v) => {
                if neg {
                    if v == 0 || v > 0x8000_0000_0000_0000u64 {
                        return None;
                    }
                    let n: i64 = if v == 0x8000_0000_0000_0000u64 { i64::MIN } else { -(v as i64) };
                    assert(n as int == -(v as int));
                    Some(JsonNumber::NegInt(n))
                } else {
                    Some(JsonNumber::PosInt(v))
                }
            },
            None => None,
        }
    } else {
        let t2 = text::slice_of(s, lo, hi);
        Some(JsonNumber::Float(text::string_of(t2.as_slice())))
    }
}

fn hex_value_exec(c: char) -> (r: Option<u32>)
    ensures
        match r {
            Some(v) => hex_value(c) == Some(v as nat) && v < 16,
            None => hex_value(c) is None,
        },
{
    if is_digit_exec(c) {
        Some(c as u32 - '0' as u32)
    } else if 'a' <= c && c <= 'f' {
        Some(c as u32 - 'a' as u32 + 10)
    } else {
        None
    }
}

fn escape_at_exec(s: &[char], p: usize) -> (r: Option<(char, usize)>)
    ensures
        match r {
            Some((c, q)) => escape_at(s@, p as int) == Some((c, q as int)),
            None => escape_at(s@, p as int) is None,
        },
{
    if p >= s.len() {
        return None;
    }
    let c = s[p];
    if c == '"' {
        Some(('"', p + 1))
    } else if c == '\\' {
        Some(('\\', p + 1))
    } else if c == 'b' {
        Some(('\u{8}', p + 1))
    } else if c == 't' {
        Some(('\t', p + 1))
    } else if c == 'n' {
        Some(('\n', p + 1))
    } else if c == 'f' {
        Some(('\u{c}', p + 1))
    } else if c == 'r' {
        Some(('\r', p + 1))
    } else if c == 'u' && s.len() - p > 4 && s[p + 1] == '0' && s[p + 2] == '0' {
        match (hex_value_exec(s[p + 3]), hex_value_exec(s[p + 4])) {
            (Some(a), Some(b)) => {
                let v = a * 16 + b;
                if v < 0x20 && v != 8 && v != 9 && v != 10 && v != 12 && v != 13 {
                    let ch = (v as u8) as char;
                    assert(ch == (v as u32) as char);
                    Some((ch, p + 5))
                } else {
                    None
                }
            },
            _ => None,
        }
    } else {
        None
    }
}

/// The body of a string starting at `p` (after the opening quote).
fn string_body_exec(s: &[char], p: usize) -> (r: Option<(String, usize)>)
    ensures
        match r {
            Some((t, q)) => string_body(s@, p as int, Seq::empty()) == Some((t@, q as int)),
            None => string_body(s@, p as int, Seq::empty()) is None,
        },
{
    let mut acc: Vec<char> = Vec::new();
    let mut i = p;
    while i < s.len()
        invariant
            p <= i,
            string_body(s@, p as int, Seq::empty()) == string_body(s@, i as int, acc@),
        decreases s.len() - i,
    {
        let c = s[i];
        if c == '"' {
            return Some((text::string_of(acc.as_slice()), i + 1));
        } else if c == '\\' {
            match escape_at_exec(s, i + 1) {
                Some((e, q)) => {
                    acc.push(e);
                    i = q;
                },
                None => {
                    return None;
                },
            }
        } else if (c as u32) < 0x20 {
            return None;
        } else {
            acc.push(c);
            i += 1;
        }
    }
    None
}

fn at_exec(s: &[char], p: usize, lit: &str) -> (r: bool)
    ensures
        r == at(s@, p as int, lit@),
{
    let l = chars_of(lit);
    text::occurs_at_exec(s, l.as_slice(), p)
}

/// The value starting at `p`, and the index after it.
pub fn value_at_exec(s: &[char], p: usize) -> (r: Option<(JsonValue, usize)>)
    ensures
        match r {
            Some((v, q)) => value_at(s@, p as int) == Some((v@, q as int)),
            None => value_at(s@, p as int) is None,
        },
    decreases s@.len() - p,
{
    if p >= s.len() {
        return None;
    }
    let c = s[p];
    proof {
        reveal_strlit("null");
        reveal_strlit("true");
        reveal_strlit("false");
    }
    if c == 'n' {
        if at_exec(s, p, "null") {
            Some((JsonValue::Null, p + 4))
        } else {
            None
        }
    } else if c == 't' {
        if at_exec(s, p, "true") {
            Some((JsonValue::Bool(true), p + 4))
        } else {
            None
        }
    } else if c == 'f' {
        if at_exec(s, p, "false") {
            Some((JsonValue::Bool(false), p + 5))
        } else {
            None
        }
    } else if c == '"' {
        match string_body_exec(s, p + 1) {
            Some((t, q)) => Some((JsonValue::String(t), q)),
            None => None,
        }
    } else if c == '[' {
        if p + 1 < s.len() && s[p + 1] == ']' {
            let r = JsonValue::Array(Vec::new());
            assert(r@->Arr_0 =~= Seq::<json::Json>::empty());
            return Some((r, p + 2));
        }
        let mut items: Vec<JsonValue> = Vec::new();
        let mut i = p + 1;
        assert(items@.map_values(|x: JsonValue| x@) =~= Seq::<json::Json>::empty());
        loop
            invariant
                p < i,
                value_at(s@, p as int) == elems_at(s@, i as int, items@.map_values(|x: JsonValue| x@)),
            decreases s@.len() - i,
        {
            let ghost acc = items@.map_values(|x: JsonValue| x@);
            if i >= s.len() {
                return None;
            }
            match value_at_exec(s, i) {
                Some((v, q)) => {
                    if i < q && q < s.len() && s[q] == ',' {
                        items.push(v);
                        assert(items@.map_values(|x: JsonValue| x@) =~= acc.push(v@));
                        i = q + 1;
                    } else if i < q && q < s.len() && s[q] == ']' {
                        items.push(v);
                        let r = JsonValue::Array(items);
                        assert(r@->Arr_0 =~= acc.push(v@));
                        return Some((r, q + 1));
                    } else {
                        return None;
                    }
                },
                None => {
                    return None;
                },
            }
        }
    } else if c == '{' {
        if p + 1 < s.len() && s[p + 1] == '}' {
            let r = JsonValue::Object(Vec::new());
            assert(r@->Obj_0 =~= Seq::<(Seq<char>, json::Json)>::empty());
            return Some((r, p + 2));
        }
        let mut members: Vec<(String, JsonValue)> = Vec::new();
        let mut i = p + 1;
        assert(members@.map_values(|x: (String, JsonValue)| (x.0@, x.1@)) =~= Seq::<(Seq<char>, json::Json)>::empty());
        loop
            invariant
                p < i,
                value_at(s@, p as int) == members_at(
                    s@,
                    i as int,
                    members@.map_values(|x: (String, JsonValue)| (x.0@, x.1@)),
                ),
            decreases s@.len() - i,
        {
            let ghost acc = members@.map_values(|x: (String, JsonValue)| (x.0@, x.1@));
            if i >= s.len() || s[i] != '"' {
                return None;
            }
            match string_body_exec(s, i + 1) {
                Some((k, q)) => {
                    if !(i < q && q < s.len() && s[q] == ':') {
                        return None;
                    }
                    if q + 1 >= s.len() {
                        return None;
                    }
                    match value_at_exec(s, q + 1) {
                        Some((v, r)) => {
                            if q < r && r < s.len() && s[r] == ',' {
                                members.push((k, v));
                                assert(members@.map_values(|x: (String, JsonValue)| (x.0@, x.1@))
                                    =~= acc.push((k@, v@)));
                                i = r + 1;
                            } else if q < r && r < s.len() && s[r] == '}' {
                                let ghost kv = (k@, v@);
                                members.push((k, v));
                                let res = JsonValue::Object(members);
                                assert(res@->Obj_0 =~= acc.push(kv));
                                return Some((res, r + 1));
                            } else {
                                return None;
                            }
                        },
                        None => {
                            return None;
                        },
                    }
                },
                None => {
                    return None;
                },
            }
        }
    } else if is_num_char_exec(c) {
        let e = num_end_exec(s, p);
        match token_number_exec(s, p, e) {
            Some(n) => Some((JsonValue::Number(n), e)),
            None => None,
        }
    } else {
        None
    }
}

/// Reads a whole compact JSON text.
pub fn read_text_exec(s: &[char]) -> (r: Option<JsonValue>)
    ensures
        match r {
            Some(v) => read_text(s@) == Some(v@),
            None => read_text(s@) is None,
        },
{
    match value_at_exec(s, 0) {
        Some((v, q)) => if q == s.len() {
            Some(v)
        } else {
            None
        },
        None => None,
    }
}

/// Parses a JSON text into a document (`serde_json::from_str`).
pub fn decode_json(text: &str) -> (r: Option<JsonValue>)
    ensures
        match r {
            Some(v) => decode(text@) == Some(v@),
            None => decode(text@) is None,
        },
{
    match canonical_json(text) {
        Some(c) => {
            let cs = chars_of(c.as_str());
            read_text_exec(cs.as_slice())
        },
        None => None,
    }
}
} // verus!
