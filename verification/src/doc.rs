//! Building text documents line by line.
use vstd::prelude::*;
use crate::json::{self, JsonValue};
use crate::text::{self, chars_of, extend, extend_str};

verus! {

/// A string member, or `d`.
pub open spec fn str_or(v: Option<json::Json>, d: Seq<char>) -> Seq<char> {
    match json::opt_str(v) {
        Some(s) => s,
        None => d,
    }
}

pub open spec fn lines_view(v: Seq<Vec<char>>) -> Seq<Seq<char>> {
    v.map_values(|l: Vec<char>| l@)
}

pub fn str_or_exec(v: Option<&JsonValue>, d: &str) -> (r: Vec<char>)
    ensures
        r@ == str_or(
            match v {
                Some(x) => Some(x@),
                None => None,
            },
            d@,
        ),
{
    let s = match v {
        Some(x) => x.as_str(),
        None => None,
    };
    match s {
        Some(t) => chars_of(t),
        None => chars_of(d),
    }
}

pub fn member<'a>(v: Option<&'a JsonValue>, key: &str) -> (r: Option<&'a JsonValue>)
    ensures
        match r {
            Some(x) => json::Json::opt_get(
                match v {
                    Some(y) => Some(y@),
                    None => None,
                },
                key@,
            ) == Some(x@),
            None => json::Json::opt_get(
                match v {
                    Some(y) => Some(y@),
                    None => None,
                },
                key@,
            ) is None,
        },
{
    match v {
        Some(y) => y.get(key),
        None => None,
    }
}

pub fn empty_line() -> (r: Vec<char>)
    ensures
        r@ == Seq::<char>::empty(),
{
    Vec::new()
}

pub fn line_of(s: &str) -> (r: Vec<char>)
    ensures
        r@ == s@,
{
    chars_of(s)
}

pub fn cat(a: Vec<char>, b: &[char]) -> (r: Vec<char>)
    ensures
        r@ == a@ + b@,
{
    let mut a = a;
    extend(&mut a, b);
    a
}

pub fn cat_str(a: Vec<char>, b: &str) -> (r: Vec<char>)
    ensures
        r@ == a@ + b@,
{
    let mut a = a;
    extend_str(&mut a, b);
    a
}

pub fn push_line(lines: &mut Vec<Vec<char>>, l: Vec<char>)
    ensures
        lines_view(final(lines)@) == lines_view(old(lines)@).push(l@),
{
    lines.push(l);
    assert(lines_view(lines@) =~= lines_view(old(lines)@).push(l@));
}

pub fn join_lines(lines: &Vec<Vec<char>>) -> (r: String)
    ensures
        r@ == text::join(lines_view(lines@), "\n"@),
{
    let nl: Vec<char> = vec!['\n'];
    proof {
        reveal_strlit("\n");
        assert(nl@ =~= "\n"@);
    }
    let j = text::join_exec(lines, nl.as_slice());
    text::string_of(j.as_slice())
}

/// `n` dashes (`"-".repeat(n)`).
pub open spec fn dashes(n: nat) -> Seq<char> {
    Seq::new(n, |i: int| '-')
}

/// `prefix` followed by " name |" for each name.
pub open spec fn names_header(prefix: Seq<char>, names: Seq<Seq<char>>) -> Seq<char>
    decreases names.len(),
{
    if names.len() == 0 {
        prefix
    } else {
        names_header(prefix, names.drop_last()) + " "@ + names.last() + " |"@
    }
}

/// `prefix` followed by a dash run two wider than each name (in bytes) and `|`.
pub open spec fn names_sep(prefix: Seq<char>, names: Seq<Seq<char>>) -> Seq<char>
    decreases names.len(),
{
    if names.len() == 0 {
        prefix
    } else {
        names_sep(prefix, names.drop_last()) + dashes(text::utf8_len(names.last()) + 2) + "|"@
    }
}

/// A number member, or 0.
pub open spec fn u64_or_zero(v: Option<json::Json>) -> nat {
    match json::opt_u64(v) {
        Some(n) => n as nat,
        None => 0,
    }
}

/// A server's name, linked when it has a link.
pub open spec fn name_cell(srv: json::Json) -> Seq<char> {
    let name = str_or(srv.get("name"@), "?"@);
    let link = str_or(srv.get("link"@), Seq::empty());
    if link.len() == 0 {
        name
    } else {
        "["@ + name + "]("@ + link + ")"@
    }
}

pub open spec fn strings_view(v: Seq<String>) -> Seq<Seq<char>> {
    v.map_values(|s: String| s@)
}

/// Appends `n` dashes.
pub fn push_dashes(out: &mut Vec<char>, n: u128)
    ensures
        final(out)@ == old(out)@ + dashes(n as nat),
{
    let mut k: u128 = 0;
    while k < n
        invariant
            k <= n,
            out@ == old(out)@ + dashes(k as nat),
        decreases n - k,
    {
        out.push('-');
        k += 1;
        assert(out@ =~= old(out)@ + dashes(k as nat));
    }
}

/// Byte length of a text, as a wide count.
pub fn byte_len(s: &str) -> (r: u128)
    ensures
        r == text::utf8_len(s@),
        r <= 0x4_0000_0000_0000_0000,
{
    let cs = chars_of(s);
    let n = cs.len();
    let mut acc: u128 = 0;
    let mut i: usize = 0;
    assert(cs@.subrange(0, 0) =~= Seq::<char>::empty());
    while i < cs.len()
        invariant
            i <= cs@.len(),
            acc == text::utf8_len(cs@.subrange(0, i as int)),
            acc <= 4 * i,
        decreases cs.len() - i,
    {
        proof {
            assert(cs@.subrange(0, i + 1) =~= cs@.subrange(0, i as int).push(cs@[i as int]));
            text::lemma_utf8_len_push(cs@.subrange(0, i as int), cs@[i as int]);
        }
        acc = acc + crate::render::char_len_exec(cs[i]) as u128;
        i += 1;
    }
    assert(cs@.subrange(0, cs@.len() as int) =~= cs@);
    assert(acc <= 4 * n);
    acc
}

/// The header row of a table with one column per server.
pub fn names_header_exec(prefix: &str, names: &Vec<String>) -> (r: Vec<char>)
    ensures
        r@ == names_header(prefix@, strings_view(names@)),
{
    let ghost ns = strings_view(names@);
    let mut out = line_of(prefix);
    let mut i: usize = 0;
    assert(ns.subrange(0, 0) =~= Seq::<Seq<char>>::empty());
    while i < names.len()
        invariant
            i <= names@.len(),
            ns == strings_view(names@),
            out@ == names_header(prefix@, ns.subrange(0, i as int)),
        decreases names.len() - i,
    {
        assert(ns.subrange(0, i + 1).drop_last() =~= ns.subrange(0, i as int));
        assert(ns.subrange(0, i + 1).last() == names@[i as int]@);
        out = cat_str(out, " ");
        out = cat_str(out, names[i].as_str());
        out = cat_str(out, " |");
        i += 1;
    }
    assert(ns.subrange(0, names@.len() as int) =~= ns);
    out
}

/// The separator row of a table with one column per server.
pub fn names_sep_exec(prefix: &str, names: &Vec<String>) -> (r: Vec<char>)
    ensures
        r@ == names_sep(prefix@, strings_view(names@)),
{
    let ghost ns = strings_view(names@);
    let mut out = line_of(prefix);
    let mut i: usize = 0;
    assert(ns.subrange(0, 0) =~= Seq::<Seq<char>>::empty());
    while i < names.len()
        invariant
            i <= names@.len(),
            ns == strings_view(names@),
            out@ == names_sep(prefix@, ns.subrange(0, i as int)),
        decreases names.len() - i,
    {
        assert(ns.subrange(0, i + 1).drop_last() =~= ns.subrange(0, i as int));
        assert(ns.subrange(0, i + 1).last() == names@[i as int]@);
        let b = byte_len(names[i].as_str());
        let ghost before = out@;
        push_dashes(&mut out, b + 2);
        out.push('|');
        proof {
            reveal_strlit("|");
            assert(out@ =~= before + dashes((b + 2) as nat) + "|"@);
        }
        i += 1;
        assert(out@ =~= names_sep(prefix@, ns.subrange(0, i as int)));
    }
    assert(ns.subrange(0, names@.len() as int) =~= ns);
    out
}

/// Appends the decimal text of a number.
pub fn push_u64(out: &mut Vec<char>, n: u64)
    ensures
        final(out)@ == old(out)@ + text::dec(n as nat),
{
    let d = text::dec_u64(n);
    extend(out, d.as_slice());
}

/// A number member, or 0.
pub fn u64_or_zero_exec(v: Option<&JsonValue>) -> (r: u64)
    ensures
        r == u64_or_zero(
            match v {
                Some(x) => Some(x@),
                None => None,
            },
        ),
{
    match v {
        Some(x) => match x.as_u64() {
            Some(n) => n,
            None => 0,
        },
        None => 0,
    }
}

/// A server's name, linked when it has a link.
pub fn name_cell_exec(srv: &JsonValue) -> (r: Vec<char>)
    ensures
        r@ == name_cell(srv@),
{
    let name = str_or_exec(srv.get("name"), "?");
    let link = str_or_exec(srv.get("link"), "");
    proof {
        reveal_strlit("");
        assert(""@ =~= Seq::<char>::empty());
    }
    if link.len() == 0 {
        name
    } else {
        let r = cat(line_of("["), name.as_slice());
        let r = cat(cat_str(r, "]("), link.as_slice());
        cat_str(r, ")")
    }
}

} // verus!
