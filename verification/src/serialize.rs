//! Compact JSON text of a document, as serde_json writes it.
use vstd::prelude::*;
use crate::json::{self, JsonValue, JsonNumber};
use crate::text::{self, chars_of, extend, extend_str};

verus! {

/// Lowercase hexadecimal digit for `d < 16`.
pub open spec fn hex_digit(d: nat) -> char {
    if d < 10 {
        text::digit(d)
    } else if d == 10 {
        'a'
    } else if d == 11 {
        'b'
    } else if d == 12 {
        'c'
    } else if d == 13 {
        'd'
    } else if d == 14 {
        'e'
    } else {
        'f'
    }
}

/// How one character of a string is written inside quotes: `"` and `\`
/// and the ASCII control characters are escaped, everything else is kept.
pub open spec fn escape_char(c: char) -> Seq<char> {
    if c == '"' {
        seq!['\\', '"']
    } else if c == '\\' {
        seq!['\\', '\\']
    } else if c == '\u{8}' {
        seq!['\\', 'b']
    } else if c == '\t' {
        seq!['\\', 't']
    } else if c == '\n' {
        seq!['\\', 'n']
    } else if c == '\u{c}' {
        seq!['\\', 'f']
    } else if c == '\r' {
        seq!['\\', 'r']
    } else if (c as u32) < 0x20 {
        seq!['\\', 'u', '0', '0', hex_digit((c as u32 / 16) as nat), hex_digit((c as u32 % 16) as nat)]
    } else {
        seq![c]
    }
}

/// The escaped contents of a string.
pub open spec fn escape(s: Seq<char>) -> Seq<char>
    decreases s.len(),
{
    if s.len() == 0 {
        Seq::empty()
    } else {
        escape(s.drop_last()) + escape_char(s.last())
    }
}

/// A quoted string.
pub open spec fn quoted(s: Seq<char>) -> Seq<char> {
    seq!['"'] + escape(s) + seq!['"']
}

/// The text of a number.
pub open spec fn num_text(n: json::Num) -> Seq<char> {
    match n {
        json::Num::PosInt(u) => text::dec(u as nat),
        json::Num::NegInt(i) => text::dec_int(i as int),
        json::Num::Float(t) => t,
    }
}

/// Compact JSON text: no whitespace, members in stored order.
pub open spec fn json_text(j: json::Json) -> Seq<char>
    decreases j, 0int,
{
    match j {
        json::Json::Null => "null"@,
        json::Json::Bool(b) => if b {
            "true"@
        } else {
            "false"@
        },
        json::Json::Num(n) => num_text(n),
        json::Json::Str(s) => quoted(s),
        json::Json::Arr(a) => seq!['['] + elems_text(a, a.len() as int) + seq![']'],
        json::Json::Obj(m) => seq!['{'] + members_text(m, m.len() as int) + seq!['}'],
    }
}

/// The first `n` elements, comma separated.
pub open spec fn elems_text(a: Seq<json::Json>, n: int) -> Seq<char>
    decreases a, n,
{
    if n <= 0 || n > a.len() {
        Seq::empty()
    } else if n == 1 {
        json_text(a[0])
    } else {
        elems_text(a, n - 1) + seq![','] + json_text(a[n - 1])
    }
}

/// The first `n` members, comma separated.
pub open spec fn members_text(m: Seq<(Seq<char>, json::Json)>, n: int) -> Seq<char>
    decreases m, n,
{
    if n <= 0 || n > m.len() {
        Seq::empty()
    } else if n == 1 {
        quoted(m[0].0) + seq![':'] + json_text(m[0].1)
    } else {
        members_text(m, n - 1) + seq![','] + quoted(m[n - 1].0) + seq![':'] + json_text(m[n - 1].1)
    }
}

fn hex_digit_exec(d: u32) -> (r: char)
    requires
        d < 16,
    ensures
        r == hex_digit(d as nat),
{
    if d < 10 {
        text::digit_exec(d as u64)
    } else if d == 10 {
        'a'
    } else if d == 11 {
        'b'
    } else if d == 12 {
        'c'
    } else if d == 13 {
        'd'
    } else if d == 14 {
        'e'
    } else {
        'f'
    }
}

fn push_escaped_char(out: &mut Vec<char>, c: char)
    ensures
        final(out)@ == old(out)@ + escape_char(c),
{
    let ghost before = out@;
    if c == '"' {
        out.push('\\');
        out.push('"');
    } else if c == '\\' {
        out.push('\\');
        out.push('\\');
    } else if c == '\u{8}' {
        out.push('\\');
        out.push('b');
    } else if c == '\t' {
        out.push('\\');
        out.push('t');
    } else if c == '\n' {
        out.push('\\');
        out.push('n');
    } else if c == '\u{c}' {
        out.push('\\');
        out.push('f');
    } else if c == '\r' {
        out.push('\\');
        out.push('r');
    } else if (c as u32) < 0x20 {
        out.push('\\');
        out.push('u');
        out.push('0');
        out.push('0');
        out.push(hex_digit_exec(c as u32 / 16));
        out.push(hex_digit_exec(c as u32 % 16));
    } else {
        out.push(c);
    }
    assert(out@ =~= before + escape_char(c));
}

/// Appends the quoted, escaped text of a string.
pub fn push_quoted(out: &mut Vec<char>, s: &str)
    ensures
        final(out)@ == old(out)@ + quoted(s@),
{
    let cs = chars_of(s);
    out.push('"');
    let ghost start = out@;
    let mut i: usize = 0;
    while i < cs.len()
        invariant
            i <= cs@.len(),
            start == old(out)@.push('"'),
            out@ == start + escape(cs@.subrange(0, i as int)),
        decreases cs.len() - i,
    {
        assert(cs@.subrange(0, i + 1).drop_last() =~= cs@.subrange(0, i as int));
        push_escaped_char(out, cs[i]);
        i += 1;
        assert(out@ =~= start + escape(cs@.subrange(0, i as int)));
    }
    assert(cs@.subrange(0, cs@.len() as int) =~= cs@);
    out.push('"');
    assert(out@ =~= old(out)@ + quoted(s@));
}

/// Appends the compact JSON text of a value.
pub fn write_json(out: &mut Vec<char>, v: &JsonValue)
    ensures
        final(out)@ == old(out)@ + json_text(v@),
    decreases v,
{
    match v {
        JsonValue::Null => extend_str(out, "null"),
        JsonValue::Bool(b) => if *b {
            extend_str(out, "true")
        } else {
            extend_str(out, "false")
        },
        JsonValue::Number(n) => match n {
            JsonNumber::PosInt(u) => {
                let d = text::dec_u64(*u);
                extend(out, d.as_slice());
            },
            JsonNumber::NegInt(i) => {
                let d = text::dec_i64(*i);
                extend(out, d.as_slice());
            },
            JsonNumber::Float(t) => extend_str(out, t.as_str()),
        },
        JsonValue::String(s) => push_quoted(out, s.as_str()),
        JsonValue::Array(a) => {
            let ghost sa = v@->Arr_0;
            out.push('[');
            let ghost start = out@;
            let mut i: usize = 0;
            while i < a.len()
                invariant
                    i <= a@.len(),
                    *v == JsonValue::Array(*a),
                    sa == v@->Arr_0,
                    sa.len() == a@.len(),
                    forall|k: int| 0 <= k < a@.len() ==> #[trigger] sa[k] == a@[k]@,
                    out@ == start + elems_text(sa, i as int),
                decreases a.len() - i,
            {
                proof {
                    assert(decreases_to!(*v => v->Array_0));
                    assert(decreases_to!(*a => a@));
                    assert(decreases_to!(a@ => a@[i as int]));
                }
                if i > 0 {
                    out.push(',');
                }
                write_json(out, &a[i]);
                i += 1;
                assert(out@ =~= start + elems_text(sa, i as int));
            }
            out.push(']');
            assert(out@ =~= old(out)@ + json_text(v@));
        },
        JsonValue::Object(m) => {
            let ghost sm = v@->Obj_0;
            out.push('{');
            let ghost start = out@;
            let mut i: usize = 0;
            while i < m.len()
                invariant
                    i <= m@.len(),
                    *v == JsonValue::Object(*m),
                    sm == v@->Obj_0,
                    sm.len() == m@.len(),
                    forall|k: int| 0 <= k < m@.len() ==> #[trigger] sm[k] == (m@[k].0@, m@[k].1@),
                    out@ == start + members_text(sm, i as int),
                decreases m.len() - i,
            {
                proof {
                    assert(decreases_to!(*v => v->Object_0));
                    assert(decreases_to!(*m => m@));
                    assert(decreases_to!(m@ => m@[i as int]));
                    assert(decreases_to!(m@[i as int] => m@[i as int].1));
                }
                if i > 0 {
                    out.push(',');
                }
                let ghost before = out@;
                push_quoted(out, m[i].0.as_str());
                out.push(':');
                write_json(out, &m[i].1);
                assert(sm[i as int] == (m@[i as int].0@, m@[i as int].1@));
                assert(out@ =~= before + quoted(sm[i as int].0) + seq![':'] + json_text(sm[i as int].1));
                i += 1;
                assert(out@ =~= start + members_text(sm, i as int));
            }
            out.push('}');
            assert(out@ =~= old(out)@ + json_text(v@));
        },
    }
}

/// The compact JSON text of a value (`serde_json::to_string`).
pub fn to_json_string(v: &JsonValue) -> (r: String)
    ensures
        r@ == json_text(v@),
{
    let mut out: Vec<char> = Vec::new();
    write_json(&mut out, v);
    assert(out@ =~= json_text(v@));
    text::string_of(out.as_slice())
}

} // verus!
