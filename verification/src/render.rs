//! Text helpers of the reports: byte-limited truncation, anchors, versions.
use vstd::prelude::*;
use crate::text::{self, chars_of, extend, extend_str};

verus! {

/// Number of UTF-8 bytes of a character (`char::len_utf8`).
pub fn char_len_exec(c: char) -> (r: usize)
    ensures
        r == text::char_len(c),
        1 <= r <= 4,
{
    let v = c as u32;
    if v < 0x80 {
        1
    } else if v < 0x800 {
        2
    } else if v < 0x10000 {
        3
    } else {
        4
    }
}

/// The first `i` characters of `s` take exactly `b` bytes.
pub open spec fn is_boundary(s: Seq<char>, b: nat) -> bool {
    exists|i: int| 0 <= i <= s.len() && text::utf8_len(s.subrange(0, i)) == b
}

/// The characters of `s` that fill exactly its first `b` bytes
/// (`&s[..b]`, defined only when `b` is a character boundary).
pub open spec fn byte_prefix(s: Seq<char>, b: nat) -> Option<Seq<char>> {
    if is_boundary(s, b) {
        Some(
            s.subrange(
                0,
                choose|i: int| 0 <= i <= s.len() && text::utf8_len(s.subrange(0, i)) == b,
            ),
        )
    } else {
        None
    }
}

/// `truncate(s, max)`: the whole text when it fits in `max` bytes, else its
/// first `max` bytes and `...`; `None` where slicing at `max` would panic.
pub open spec fn truncate_spec(s: Seq<char>, max: nat) -> Option<Seq<char>> {
    if text::utf8_len(s) <= max {
        Some(s)
    } else {
        match byte_prefix(s, max) {
            Some(p) => Some(p + "..."@),
            None => None,
        }
    }
}

pub proof fn lemma_prefix_unique(s: Seq<char>, i: int, j: int)
    requires
        0 <= i <= s.len(),
        0 <= j <= s.len(),
        text::utf8_len(s.subrange(0, i)) == text::utf8_len(s.subrange(0, j)),
    ensures
        i == j,
{
    if i < j {
        text::lemma_utf8_len_mono(s, i, j);
    } else if j < i {
        text::lemma_utf8_len_mono(s, j, i);
    }
}

/// Finds the character count whose prefix fills exactly `b` bytes, or
/// reports the total byte length when it is at most `b`.
/// Returns `(fits, idx)`: `fits` when the whole text takes at most `b`
/// bytes; otherwise `idx` is the boundary index if there is one.
fn scan_bytes(s: &[char], b: usize) -> (r: (bool, Option<usize>))
    ensures
        r.0 == (text::utf8_len(s@) <= b),
        !r.0 ==> (match r.1 {
            Some(i) => i <= s@.len() && text::utf8_len(s@.subrange(0, i as int)) == b,
            None => !is_boundary(s@, b as nat),
        }),
{
    let mut i: usize = 0;
    let mut acc: u128 = 0;
    let mut hit: Option<usize> = if b == 0 { Some(0) } else { None };
    assert(s@.subrange(0, 0) =~= Seq::<char>::empty());
    while i < s.len() && acc <= b as u128
        invariant
            i <= s@.len(),
            acc == text::utf8_len(s@.subrange(0, i as int)),
            acc <= b + 4,
            match hit {
                Some(k) => k <= i && text::utf8_len(s@.subrange(0, k as int)) == b,
                None => forall|k: int| 0 <= k <= i ==> text::utf8_len(#[trigger] s@.subrange(0, k)) != b,
            },
        decreases s.len() - i,
    {
        let c = char_len_exec(s[i]);
        proof {
            assert(s@.subrange(0, i + 1) =~= s@.subrange(0, i as int).push(s@[i as int]));
            text::lemma_utf8_len_push(s@.subrange(0, i as int), s@[i as int]);
        }
        acc = acc + c as u128;
        i += 1;
        if acc == b as u128 && hit.is_none() {
            hit = Some(i);
        }
        proof {
            if hit is None {
                assert forall|k: int| 0 <= k <= i implies text::utf8_len(#[trigger] s@.subrange(0, k)) != b by {
                    if k == i {
                    }
                }
            }
        }
    }
    proof {
        assert(s@.subrange(0, s@.len() as int) =~= s@);
        if i < s@.len() {
            text::lemma_utf8_len_mono(s@, i as int, s@.len() as int);
            // past the limit: no later prefix has exactly b bytes
            if hit is None {
                assert forall|k: int| 0 <= k <= s@.len() implies text::utf8_len(#[trigger] s@.subrange(0, k)) != b by {
                    if k > i {
                        text::lemma_utf8_len_mono(s@, i as int, k);
                    }
                }
            }
        }
    }
    (acc <= b as u128 && i == s.len(), hit)
}

/// `truncate(s, max)` on characters.
pub fn truncate_chars(s: &[char], max: usize) -> (r: Vec<char>)
    requires
        truncate_spec(s@, max as nat) is Some,
    ensures
        r@ == truncate_spec(s@, max as nat)->0,
{
    let (fits, idx) = scan_bytes(s, max);
    if fits {
        let mut r: Vec<char> = Vec::new();
        extend(&mut r, s);
        assert(r@ =~= s@);
        r
    } else {
        match idx {
            Some(i) => {
                proof {
                    let j = choose|j: int| 0 <= j <= s@.len() && text::utf8_len(s@.subrange(0, j)) == max;
                    lemma_prefix_unique(s@, i as int, j);
                }
                let mut r = text::slice_of(s, 0, i);
                extend_str(&mut r, "...");
                r
            },
            None => {
                assert(false);
                Vec::new()
            },
        }
    }
}

/// `truncate` where slicing at `max` bytes would split a character:
/// `None` there, else the truncated text.
pub fn try_truncate_chars(s: &[char], max: usize) -> (r: Option<Vec<char>>)
    ensures
        match r {
            Some(t) => truncate_spec(s@, max as nat) == Some(t@),
            None => truncate_spec(s@, max as nat) is None,
        },
{
    let (fits, idx) = scan_bytes(s, max);
    if fits {
        let mut r: Vec<char> = Vec::new();
        extend(&mut r, s);
        assert(r@ =~= s@);
        Some(r)
    } else {
        match idx {
            Some(i) => {
                proof {
                    let j = choose|j: int| 0 <= j <= s@.len() && text::utf8_len(s@.subrange(0, j)) == max;
                    lemma_prefix_unique(s@, i as int, j);
                }
                let mut r = text::slice_of(s, 0, i);
                extend_str(&mut r, "...");
                Some(r)
            },
            None => None,
        }
    }
}

/// Checked form of `truncate`: `None` where the cut at `max` bytes would
/// fall inside a character.
pub fn try_truncate(s: &str, max: usize) -> (r: Option<String>)
    ensures
        text::opt_view(r) == truncate_spec(s@, max as nat),
{
    let cs = chars_of(s);
    if try_truncate_chars(cs.as_slice(), max).is_some() {
        Some(truncate(s, max))
    } else {
        None
    }
}

/// Truncates a text to `max` bytes, appending `...` when it was longer.
pub fn truncate(s: &str, max: usize) -> (r: String)
    requires
        truncate_spec(s@, max as nat) is Some,
    ensures
        r@ == truncate_spec(s@, max as nat)->0,
{
    let cs = chars_of(s);
    let r = truncate_chars(cs.as_slice(), max);
    text::string_of(r.as_slice())
}


// ---------------------------------------------------------------------------
// Anchors and version strings
// ---------------------------------------------------------------------------

/// What one character of a lowercased name contributes to its anchor slug:
/// a space becomes `-`, alphanumerics and `-` stay, anything else (`+`
/// among it) is dropped.
pub open spec fn slug_piece(c: char) -> Seq<char> {
    if c == ' ' {
        seq!['-']
    } else if c == '+' {
        Seq::empty()
    } else if text::spec_is_alphanumeric(c) || c == '-' {
        seq![c]
    } else {
        Seq::empty()
    }
}

/// The slug of an already lowercased name, character by character.
pub open spec fn slug_of(s: Seq<char>) -> Seq<char>
    decreases s.len(),
{
    if s.len() == 0 {
        Seq::empty()
    } else {
        slug_of(s.drop_last()) + slug_piece(s.last())
    }
}

/// What one ASCII character of a lowercased name contributes to its slug.
pub open spec fn ascii_slug_piece(c: char) -> Seq<char> {
    if c == ' ' {
        seq!['-']
    } else if c == '+' {
        Seq::empty()
    } else if text::ascii_alnum(c) || c == '-' {
        seq![c]
    } else {
        Seq::empty()
    }
}

/// The slug of an already lowercased ASCII name.
pub open spec fn ascii_slug_of(s: Seq<char>) -> Seq<char>
    decreases s.len(),
{
    if s.len() == 0 {
        Seq::empty()
    } else {
        ascii_slug_of(s.drop_last()) + ascii_slug_piece(s.last())
    }
}

/// The slug of an ASCII name: lowercased, a space becomes `-`, letters,
/// digits and `-` stay, anything else is dropped.
pub open spec fn ascii_slug(s: Seq<char>) -> Seq<char> {
    ascii_slug_of(text::ascii_lower_seq(s))
}

/// Markdown anchor slug of a benchmark name.
pub fn slug(name: &str) -> (r: String)
    ensures
        r@ == slug_of(text::spec_to_lowercase(name@)),
        text::all_ascii(name@) ==> r@ == ascii_slug(name@),
{
    let lower = text::to_lowercase(name);
    let cs = chars_of(lower.as_str());
    let mut out: Vec<char> = Vec::new();
    let mut i: usize = 0;
    assert(cs@.subrange(0, 0) =~= Seq::<char>::empty());
    while i < cs.len()
        invariant
            i <= cs@.len(),
            cs@ == lower@,
            lower@ == text::spec_to_lowercase(name@),
            text::all_ascii(name@) ==> lower@ == text::ascii_lower_seq(name@),
            out@ == slug_of(cs@.subrange(0, i as int)),
            text::all_ascii(name@) ==> out@ == ascii_slug_of(cs@.subrange(0, i as int)),
        decreases cs.len() - i,
    {
        let c = cs[i];
        let ghost before = out@;
        assert(cs@.subrange(0, i + 1).drop_last() =~= cs@.subrange(0, i as int));
        proof {
            if text::all_ascii(name@) {
                assert(text::is_ascii_char(name@[i as int]));
                assert(c == text::ascii_lower(name@[i as int]));
                assert(text::is_ascii_char(c));
            }
        }
        if c == ' ' {
            out.push('-');
        } else if c == '+' {
        } else if text::is_alphanumeric(c) || c == '-' {
            out.push(c);
        }
        assert(out@ =~= before + slug_piece(c));
        proof {
            if text::all_ascii(name@) {
                assert(out@ =~= before + ascii_slug_piece(c));
            }
        }
        i += 1;
    }
    assert(cs@.subrange(0, cs@.len() as int) =~= cs@);
    text::string_of(out.as_slice())
}

/// The characters after the last whitespace character of `s` (all of `s`
/// when it holds none).
pub open spec fn after_last_ws(s: Seq<char>) -> Seq<char>
    decreases s.len(),
{
    if s.len() == 0 || text::spec_is_whitespace(s.last()) {
        Seq::empty()
    } else {
        after_last_ws(s.drop_last()).push(s.last())
    }
}

/// `s.split_whitespace().last()`, or all of `s` when it has no word.
pub open spec fn last_word(s: Seq<char>) -> Seq<char> {
    let t = text::trim_end(s);
    if t.len() == 0 {
        s
    } else {
        after_last_ws(t)
    }
}

/// The semantic version in a version string: its last word, up to a `+`.
pub open spec fn short_version_of(v: Seq<char>) -> Seq<char> {
    text::before_first(last_word(v), "+"@)
}

/// Extracts the semantic version from a full version string, e.g.
/// "solidity-language-server 0.1.24+commit.xxx" gives "0.1.24".
pub fn short_version(version: &str) -> (r: String)
    ensures
        r@ == short_version_of(version@),
{
    let cs = chars_of(version);
    let tw = text::trailing_ws_exec(cs.as_slice());
    let n = cs.len() - tw;
    let t = text::slice_of(cs.as_slice(), 0, n);
    assert(t@ == text::trim_end(version@));
    let word: Vec<char> = if n == 0 {
        cs
    } else {
        let mut k = n;
        assert(t@.subrange(0, n as int) =~= t@);
        assert(t@ + t@.subrange(n as int, n as int) =~= t@);
        while k > 0 && !text::is_whitespace(t[k - 1])
            invariant
                k <= n == t@.len(),
                after_last_ws(t@) == after_last_ws(t@.subrange(0, k as int)) + t@.subrange(
                    k as int,
                    n as int,
                ),
            decreases k,
        {
            let ghost u = t@.subrange(0, k as int);
            assert(u.drop_last() =~= t@.subrange(0, k - 1));
            assert(t@.subrange(k - 1, n as int) =~= seq![t@[k - 1]] + t@.subrange(k as int, n as int));
            assert(after_last_ws(u) == after_last_ws(u.drop_last()).push(u.last()));
            assert(after_last_ws(u.drop_last()).push(u.last()) + t@.subrange(k as int, n as int)
                =~= after_last_ws(u.drop_last()) + t@.subrange(k - 1, n as int));
            k -= 1;
        }
        proof {
            let u = t@.subrange(0, k as int);
            assert(after_last_ws(u) =~= Seq::<char>::empty());
            assert(t@.subrange(0, n as int) =~= t@);
            assert(Seq::<char>::empty() + t@.subrange(k as int, n as int) =~= t@.subrange(
                k as int,
                n as int,
            ));
        }
        text::slice_of(t.as_slice(), k, n)
    };
    let plus: Vec<char> = vec!['+'];
    proof {
        reveal_strlit("+");
        assert(plus@ =~= "+"@);
    }
    let r = text::before_first_exec(word.as_slice(), plus.as_slice());
    text::string_of(r.as_slice())
}

/// `char::is_ascii_hexdigit`.
pub open spec fn is_hex(c: char) -> bool {
    ('0' <= c && c <= '9') || ('a' <= c && c <= 'f') || ('A' <= c && c <= 'F')
}

pub open spec fn all_hex(s: Seq<char>) -> bool {
    forall|i: int| 0 <= i < s.len() ==> is_hex(#[trigger] s[i])
}

/// The short commit hash of a version string: the text between
/// `+commit.` and the next `.`; else the trimmed string when it is a bare
/// hash of 7 to 40 hexadecimal digits (one byte each); else the whole
/// version.
pub open spec fn short_commit_of(v: Seq<char>) -> Seq<char> {
    match text::find(v, "+commit."@) {
        Some(p) => {
            let after = v.subrange(p + 8, v.len() as int);
            text::before_first(after, "."@)
        },
        None => {
            let t = text::trim(v);
            if 7 <= t.len() <= 40 && all_hex(t) {
                t
            } else {
                v
            }
        },
    }
}

/// Extracts a short commit hash from a version string.
pub fn extract_short_commit(version: &str) -> (r: String)
    ensures
        r@ == short_commit_of(version@),
{
    let cs = chars_of(version);
    let pat = chars_of("+commit.");
    proof {
        reveal_strlit("+commit.");
        reveal_strlit(".");
        text::lemma_find_from_bound(version@, "+commit."@, 0);
    }
    match text::find_exec(cs.as_slice(), pat.as_slice()) {
        Some(p) => {
            assert(pat@.len() == 8);
            let m = cs.len();
            assert(p + 8 <= m);
            let after = text::slice_of(cs.as_slice(), p + 8, m);
            let dot: Vec<char> = vec!['.'];
            assert(dot@ =~= "."@);
            let r = text::before_first_exec(after.as_slice(), dot.as_slice());
            text::string_of(r.as_slice())
        },
        None => {
            let t = text::trim_exec(cs.as_slice());
            let mut hex = true;
            let mut i: usize = 0;
            while i < t.len()
                invariant
                    i <= t@.len(),
                    hex == (forall|j: int| 0 <= j < i ==> is_hex(#[trigger] t@[j])),
                decreases t.len() - i,
            {
                let c = t[i];
                let h = ('0' <= c && c <= '9') || ('a' <= c && c <= 'f') || ('A' <= c && c <= 'F');
                proof {
                    if hex && h {
                        assert forall|j: int| 0 <= j < i + 1 implies is_hex(#[trigger] t@[j]) by {
                            if j == i {
                            }
                        }
                    }
                }
                hex = hex && h;
                i += 1;
            }
            if 7 <= t.len() && t.len() <= 40 && hex {
                text::string_of(t.as_slice())
            } else {
                version.to_owned()
            }
        },
    }
}

// ---------------------------------------------------------------------------
// Response previews and progress messages
// ---------------------------------------------------------------------------

/// `truncate_response(s, max)`: the whole text when it fits in `max`
/// bytes; otherwise the first `max` bytes cut back to their last line
/// feed (if any), followed by `...`. `None` where slicing at `max` would
/// split a character.
pub open spec fn truncate_response_spec(s: Seq<char>, max: nat) -> Option<Seq<char>> {
    if text::utf8_len(s) <= max {
        Some(s)
    } else {
        match byte_prefix(s, max) {
            Some(p) => match text::rfind_char(p, '\n') {
                Some(k) => Some(p.subrange(0, k) + "..."@),
                None => Some(p + "..."@),
            },
            None => None,
        }
    }
}

/// Truncates a response preview to `max_chars` bytes at a clean line break.
pub fn truncate_response(s: &str, max_chars: usize) -> (r: String)
    requires
        truncate_response_spec(s@, max_chars as nat) is Some,
    ensures
        r@ == truncate_response_spec(s@, max_chars as nat)->0,
{
    let cs = chars_of(s);
    let (fits, idx) = scan_bytes(cs.as_slice(), max_chars);
    if fits {
        return s.to_owned();
    }
    match idx {
        Some(i) => {
            proof {
                let j = choose|j: int|
                    0 <= j <= s@.len() && text::utf8_len(s@.subrange(0, j)) == max_chars;
                lemma_prefix_unique(s@, i as int, j);
            }
            let p = text::slice_of(cs.as_slice(), 0, i);
            proof {
                text::lemma_rfind_char_bound(p@, '\n');
            }
            let mut r = match text::rfind_char_exec(p.as_slice(), '\n') {
                Some(k) => text::slice_of(p.as_slice(), 0, k),
                None => p,
            };
            extend_str(&mut r, "...");
            text::string_of(r.as_slice())
        },
        None => {
            assert(false);
            String::new()
        },
    }
}

/// Decimal text of a count, as `Display` writes it.
fn push_count(out: &mut Vec<char>, n: usize)
    ensures
        final(out)@ == old(out)@ + text::dec(n as nat),
{
    let d = text::dec_u64(n as u64);
    extend(out, d.as_slice());
}

/// The progress message of iteration `i` with `w` warmup rounds and `n`
/// measured rounds.
pub open spec fn iter_msg_of(i: nat, w: nat, n: nat) -> Seq<char> {
    if i < w {
        "warmup "@ + text::dec(i + 1) + "/"@ + text::dec(w)
    } else {
        "iter "@ + text::dec((i - w + 1) as nat) + "/"@ + text::dec(n)
    }
}

/// Iteration `i` of a run with `w` warmup iterations is measured: warmup
/// timings are discarded.
pub open spec fn measured(i: nat, w: nat) -> bool {
    i >= w
}

/// How many of the first `k` iterations are measured.
pub open spec fn measured_count(w: nat, k: nat) -> nat
    decreases k,
{
    if k == 0 {
        0
    } else {
        measured_count(w, (k - 1) as nat) + if measured((k - 1) as nat, w) {
            1nat
        } else {
            0nat
        }
    }
}

/// Whether iteration `i` (warmup first) is kept in the results.
pub fn is_measured(i: usize, w: usize) -> (r: bool)
    ensures
        r == measured(i as nat, w as nat),
{
    i >= w
}

/// The peak of the RSS samples seen so far, given the peak before one more
/// sample.
pub open spec fn peak_after(prev: Option<u64>, rss: u64) -> Option<u64> {
    match prev {
        Some(p) => Some(if p >= rss { p } else { rss }),
        None => Some(rss),
    }
}

/// The peak of a run of RSS samples: `None` before the first.
pub open spec fn peak_of(samples: Seq<u64>) -> Option<u64>
    decreases samples.len(),
{
    if samples.len() == 0 {
        None
    } else {
        peak_after(peak_of(samples.drop_last()), samples.last())
    }
}

/// Folds one more RSS sample into the peak kept across iterations.
pub fn peak_rss(prev: Option<u64>, rss: u64) -> (r: Option<u64>)
    ensures
        r == peak_after(prev, rss),
{
    match prev {
        Some(p) => Some(if p >= rss { p } else { rss }),
        None => Some(rss),
    }
}

/// Progress message for a warmup or measured iteration.
pub fn iter_msg(i: usize, w: usize, n: usize) -> (r: String)
    requires
        i - w + 1 <= usize::MAX,
    ensures
        r@ == iter_msg_of(i as nat, w as nat, n as nat),
{
    let mut out: Vec<char> = Vec::new();
    if i < w {
        extend_str(&mut out, "warmup ");
        push_count(&mut out, i + 1);
        extend_str(&mut out, "/");
        push_count(&mut out, w);
    } else {
        extend_str(&mut out, "iter ");
        push_count(&mut out, i - w + 1);
        extend_str(&mut out, "/");
        push_count(&mut out, n);
    }
    text::string_of(out.as_slice())
}


// ---------------------------------------------------------------------------
// Memory sizes
// ---------------------------------------------------------------------------

/// The spacing of f64 values around `n < 2^64`: 1 below 2^53, doubling
/// with each further bit of `n`.
pub open spec fn f64_ulp(n: nat) -> nat {
    if n < 0x20_0000_0000_0000 {
        1
    } else if n < 0x40_0000_0000_0000 {
        2
    } else if n < 0x80_0000_0000_0000 {
        4
    } else if n < 0x100_0000_0000_0000 {
        8
    } else if n < 0x200_0000_0000_0000 {
        16
    } else if n < 0x400_0000_0000_0000 {
        32
    } else if n < 0x800_0000_0000_0000 {
        64
    } else if n < 0x1000_0000_0000_0000 {
        128
    } else if n < 0x2000_0000_0000_0000 {
        256
    } else if n < 0x4000_0000_0000_0000 {
        512
    } else if n < 0x8000_0000_0000_0000 {
        1024
    } else {
        2048
    }
}

/// `n` rounded to a multiple of `u`, ties to the even multiple.
pub open spec fn round_half_even(n: nat, u: nat) -> nat {
    let m = n / u;
    let r = n % u;
    if 2 * r > u || (2 * r == u && m % 2 == 1) {
        ((m + 1) * u) as nat
    } else {
        (m * u) as nat
    }
}

/// The value of `n as f64` for an unsigned 64-bit `n`.
pub open spec fn as_f64(n: nat) -> nat {
    round_half_even(n, f64_ulp(n))
}

/// `x / d` in tenths, rounded half to even (`{:.1}` of an exact quotient).
pub open spec fn tenths(x: nat, d: nat) -> nat {
    let t = x * 10;
    let q = t / d;
    let r = t % d;
    if 2 * r > d || (2 * r == d && q % 2 == 1) {
        q + 1
    } else {
        q
    }
}

/// A count of tenths written with one decimal.
pub open spec fn one_decimal(q: nat) -> Seq<char> {
    text::dec(q / 10) + seq!['.', text::digit(q % 10)]
}

/// `format!("{:.1}MB", kb as f64 / 1024.0)`.
pub open spec fn rss_text(kb: nat) -> Seq<char> {
    one_decimal(tenths(as_f64(kb), 1024)) + "MB"@
}

/// Memory in KB rendered in GB, MB or KB.
pub open spec fn memory_text(kb: nat) -> Seq<char> {
    let x = as_f64(kb);
    if x >= 1048576 {
        one_decimal(tenths(x, 1048576)) + " GB"@
    } else if x >= 1024 {
        one_decimal(tenths(x, 1024)) + " MB"@
    } else {
        text::dec(kb) + " KB"@
    }
}

fn f64_ulp_exec(n: u64) -> (u: u64)
    ensures
        u == f64_ulp(n as nat),
        1 <= u <= 2048,
{
    if n < 0x20_0000_0000_0000 {
        1
    } else if n < 0x40_0000_0000_0000 {
        2
    } else if n < 0x80_0000_0000_0000 {
        4
    } else if n < 0x100_0000_0000_0000 {
        8
    } else if n < 0x200_0000_0000_0000 {
        16
    } else if n < 0x400_0000_0000_0000 {
        32
    } else if n < 0x800_0000_0000_0000 {
        64
    } else if n < 0x1000_0000_0000_0000 {
        128
    } else if n < 0x2000_0000_0000_0000 {
        256
    } else if n < 0x4000_0000_0000_0000 {
        512
    } else if n < 0x8000_0000_0000_0000 {
        1024
    } else {
        2048
    }
}

/// `n as f64`, as an exact integer.
fn as_f64_exec(n: u64) -> (x: u128)
    ensures
        x == as_f64(n as nat),
        x <= n + 2048,
{
    let u = f64_ulp_exec(n);
    let m = n / u;
    let r = n % u;
    proof {
        vstd::arithmetic::div_mod::lemma_fundamental_div_mod(n as int, u as int);
        assert((m as u128) * (u as u128) <= 0xffff_ffff_ffff_ffffu128 * 2048u128) by (nonlinear_arith)
            requires
                m <= 0xffff_ffff_ffff_ffffu64,
                u <= 2048u64,
        ;
    }
    let mu: u128 = (m as u128) * (u as u128);
    proof {
        vstd::arithmetic::mul::lemma_mul_is_commutative(m as int, u as int);
        assert(m == n / u && r == n % u);
        assert(mu == m * u);
        assert(n == u * m + r);
    }
    assert(mu + r == n);
    if 2 * (r as u128) > u as u128 || (2 * (r as u128) == u as u128 && m % 2 == 1) {
        mu + u as u128
    } else {
        mu
    }
}

/// `tenths(x, d)` for `d > 0`.
fn tenths_exec(x: u128, d: u128) -> (q: u128)
    requires
        0 < d <= 0x1_0000_0000,
        x <= 0x1_0000_0000_0000_1000,
    ensures
        q == tenths(x as nat, d as nat),
{
    let t = x * 10;
    let q = t / d;
    let r = t % d;
    proof {
        vstd::arithmetic::div_mod::lemma_div_is_ordered_by_denominator(t as int, 1, d as int);
    }
    if 2 * r > d || (2 * r == d && q % 2 == 1) {
        q + 1
    } else {
        q
    }
}

fn push_one_decimal(out: &mut Vec<char>, q: u128)
    ensures
        final(out)@ == old(out)@ + one_decimal(q as nat),
{
    let w = text::dec_u128(q / 10);
    extend(out, w.as_slice());
    out.push('.');
    out.push(text::digit_exec((q % 10) as u64));
    assert(final(out)@ =~= old(out)@ + one_decimal(q as nat)) by {
        assert(one_decimal(q as nat) =~= text::dec((q / 10) as nat) + seq!['.', text::digit((q % 10) as nat)]);
    }
}

/// Formats a resident set size in KB as megabytes with one decimal, e.g.
/// 2048 gives "2.0MB".
pub fn format_rss(kb: u64) -> (r: String)
    ensures
        r@ == rss_text(kb as nat),
{
    let x = as_f64_exec(kb);
    let q = tenths_exec(x, 1024);
    let mut out: Vec<char> = Vec::new();
    push_one_decimal(&mut out, q);
    extend_str(&mut out, "MB");
    text::string_of(out.as_slice())
}

/// Formats memory given in KB as "N.N GB", "N.N MB" or "N KB".
pub fn format_memory(kb: u64) -> (r: String)
    ensures
        r@ == memory_text(kb as nat),
{
    let x = as_f64_exec(kb);
    let mut out: Vec<char> = Vec::new();
    if x >= 1048576 {
        let q = tenths_exec(x, 1048576);
        push_one_decimal(&mut out, q);
        extend_str(&mut out, " GB");
    } else if x >= 1024 {
        let q = tenths_exec(x, 1024);
        push_one_decimal(&mut out, q);
        extend_str(&mut out, " MB");
    } else {
        let d = text::dec_u64(kb);
        extend(&mut out, d.as_slice());
        extend_str(&mut out, " KB");
    }
    text::string_of(out.as_slice())
}


/// Whether the text takes at most `max` bytes.
pub fn fits(s: &[char], max: usize) -> (r: bool)
    ensures
        r == (text::utf8_len(s@) <= max),
{
    let (f, _) = scan_bytes(s, max);
    f
}

/// The number of characters that fill exactly the first `b` bytes, if `b`
/// is a character boundary.
pub fn byte_cut(s: &[char], b: usize) -> (r: Option<usize>)
    ensures
        match r {
            Some(i) => i <= s@.len() && text::utf8_len(s@.subrange(0, i as int)) == b,
            None => !is_boundary(s@, b as nat),
        },
{
    let mut i: usize = 0;
    let mut acc: u128 = 0;
    assert(s@.subrange(0, 0) =~= Seq::<char>::empty());
    while i < s.len() && acc < b as u128
        invariant
            i <= s@.len(),
            acc == text::utf8_len(s@.subrange(0, i as int)),
            acc <= 4 * i,
            forall|k: int| 0 <= k < i ==> text::utf8_len(#[trigger] s@.subrange(0, k)) < b,
        decreases s.len() - i,
    {
        proof {
            assert(s@.subrange(0, i + 1) =~= s@.subrange(0, i as int).push(s@[i as int]));
            text::lemma_utf8_len_push(s@.subrange(0, i as int), s@[i as int]);
        }
        acc = acc + char_len_exec(s[i]) as u128;
        i += 1;
    }
    if acc == b as u128 {
        Some(i)
    } else {
        proof {
            assert forall|k: int| 0 <= k <= s@.len() implies text::utf8_len(#[trigger] s@.subrange(0, k)) != b by {
                if k > i {
                    text::lemma_utf8_len_mono(s@, i as int, k);
                }
            }
        }
        None
    }
}

} // verus!
