//! Reading a server's version from what its `--version` prints.
use vstd::prelude::*;
use crate::render;
use crate::text::{self, chars_of};

verus! {

/// `s` with every leading copy of `p` removed (`str::trim_start_matches`).
pub open spec fn strip_all(s: Seq<char>, p: Seq<char>) -> Seq<char>
    decreases s.len(),
{
    if p.len() > 0 && text::starts_with(s, p) {
        strip_all(s.subrange(p.len() as int, s.len() as int), p)
    } else {
        s
    }
}

/// The index of the first line (as `str::lines` yields them) that starts
/// with `p`, among the first `n`.
pub open spec fn first_line_with(ls: Seq<Seq<char>>, p: Seq<char>, n: int) -> Option<int>
    decreases n,
{
    if n <= 0 || n > ls.len() {
        None
    } else {
        match first_line_with(ls, p, n - 1) {
            Some(i) => Some(i),
            None => if text::starts_with(ls[n - 1], p) {
                Some(n - 1)
            } else {
                None
            },
        }
    }
}

/// What `solc --version` reports as its version: the first line that
/// starts with "Version:", without that label and trimmed.
pub open spec fn labelled_version(out: Seq<char>) -> Option<Seq<char>> {
    let ls = text::lines(out);
    match first_line_with(ls, "Version:"@, ls.len() as int) {
        Some(i) => Some(text::trim(strip_all(ls[i], "Version:"@))),
        None => None,
    }
}

/// The first line of an output, trimmed ("" for no output).
pub open spec fn first_line(out: Seq<char>) -> Seq<char> {
    let ls = text::lines(out);
    if ls.len() > 0 {
        text::trim(ls[0])
    } else {
        Seq::empty()
    }
}

fn strip_all_exec(s: &[char], p: &[char]) -> (r: Vec<char>)
    ensures
        r@ == strip_all(s@, p@),
{
    let mut lo: usize = 0;
    assert(s@.subrange(0, s@.len() as int) =~= s@);
    while p.len() > 0 && lo <= s.len() && text::starts_with_exec(&slice_from(s, lo), p)
        invariant
            lo <= s@.len(),
            strip_all(s@, p@) == strip_all(s@.subrange(lo as int, s@.len() as int), p@),
        decreases s.len() - lo,
    {
        let ghost t = s@.subrange(lo as int, s@.len() as int);
        assert(t.subrange(p@.len() as int, t.len() as int) =~= s@.subrange(lo + p@.len(), s@.len() as int));
        lo = lo + p.len();
    }
    text::slice_of(s, lo, s.len())
}

fn slice_from(s: &[char], lo: usize) -> (r: Vec<char>)
    requires
        lo <= s@.len(),
    ensures
        r@ == s@.subrange(lo as int, s@.len() as int),
{
    text::slice_of(s, lo, s.len())
}

/// The version `solc --version` prints on its "Version:" line, if any.
pub fn solc_version(out: &str) -> (r: Option<String>)
    ensures
        text::opt_view(r) == labelled_version(out@),
{
    let cs = chars_of(out);
    let ls = text::lines_exec(cs.as_slice());
    let ghost lv = ls@.map_values(|l: Vec<char>| l@);
    let label = chars_of("Version:");
    let mut i: usize = 0;
    while i < ls.len()
        invariant
            i <= ls@.len(),
            lv == ls@.map_values(|l: Vec<char>| l@),
            lv == text::lines(out@),
            label@ == "Version:"@,
            first_line_with(lv, "Version:"@, i as int) is None,
        decreases ls.len() - i,
    {
        assert(lv[i as int] == ls@[i as int]@);
        if text::starts_with_exec(ls[i].as_slice(), label.as_slice()) {
            let stripped = strip_all_exec(ls[i].as_slice(), label.as_slice());
            let t = text::trim_exec(stripped.as_slice());
            proof {
                lemma_first_kept(lv, "Version:"@, i as int + 1, lv.len() as int);
            }
            return Some(text::string_of(t.as_slice()));
        }
        i += 1;
    }
    None
}

proof fn lemma_first_kept(ls: Seq<Seq<char>>, p: Seq<char>, j: int, k: int)
    requires
        0 <= j <= k <= ls.len(),
        first_line_with(ls, p, j) is Some,
    ensures
        first_line_with(ls, p, k) == first_line_with(ls, p, j),
    decreases k - j,
{
    if j < k {
        lemma_first_kept(ls, p, j, k - 1);
    }
}

/// The first line of a program's output, trimmed.
pub fn first_output_line(out: &str) -> (r: String)
    ensures
        r@ == first_line(out@),
{
    let cs = chars_of(out);
    let ls = text::lines_exec(cs.as_slice());
    assert(ls@.len() == text::lines(out@).len());
    if ls.len() > 0 {
        assert(ls@[0]@ == text::lines(out@)[0]);
        let t = text::trim_exec(ls[0].as_slice());
        text::string_of(t.as_slice())
    } else {
        String::new()
    }
}

// ---------------------------------------------------------------------------
// Servers labelled "latest"
// ---------------------------------------------------------------------------

/// `s` with every trailing copy of `p` removed (`str::trim_end_matches`).
pub open spec fn strip_all_end(s: Seq<char>, p: Seq<char>) -> Seq<char>
    decreases s.len(),
{
    if p.len() > 0 && text::ends_with(s, p) {
        strip_all_end(s.subrange(0, s.len() - p.len()), p)
    } else {
        s
    }
}

/// The release page of a version: the link without trailing slashes, then
/// `/releases/tag/v` and the version's semantic part.
pub open spec fn release_link(link: Seq<char>, version: Seq<char>) -> Seq<char> {
    strip_all_end(link, "/"@) + "/releases/tag/v"@ + render::short_version_of(version)
}

/// A server labelled `"<name> latest"` once its version is known: the label
/// loses the suffix, and a link points at that version's release (left as it
/// is when the link or the version is empty).
pub open spec fn latest_resolved(label: Seq<char>, link: Seq<char>, version: Seq<char>) -> Option<(Seq<char>, Seq<char>)> {
    if text::ends_with(label, " latest"@) {
        Some((
            strip_all_end(label, " latest"@),
            if link.len() > 0 && version.len() > 0 {
                release_link(link, version)
            } else {
                link
            },
        ))
    } else {
        None
    }
}

/// `s` without its trailing copies of the non-empty `p`.
fn strip_all_end_exec(s: &[char], p: &[char]) -> (r: Vec<char>)
    requires
        p@.len() > 0,
    ensures
        r@ == strip_all_end(s@, p@),
{
    let mut n: usize = s.len();
    assert(s@.subrange(0, n as int) =~= s@);
    while n >= p.len() && text::occurs_at_exec(s, p, n - p.len())
        invariant
            n <= s@.len(),
            p@.len() > 0,
            strip_all_end(s@, p@) == strip_all_end(s@.subrange(0, n as int), p@),
        decreases n,
    {
        let ghost t = s@.subrange(0, n as int);
        assert(t.subrange(t.len() - p@.len(), t.len() as int) =~= s@.subrange(n - p@.len(), n as int));
        assert(t.subrange(0, t.len() - p@.len()) =~= s@.subrange(0, n - p@.len()));
        n = n - p.len();
    }
    let ghost t = s@.subrange(0, n as int);
    proof {
        if n >= p@.len() {
            assert(t.subrange(t.len() - p@.len(), t.len() as int) =~= s@.subrange(n - p@.len(), n as int));
        }
    }
    text::slice_of(s, 0, n)
}

/// Resolves a server labelled `"<name> latest"` against its detected
/// version: the label without the suffix and the link to that version's
/// release; `None` for any other label.
pub fn resolve_latest(label: &str, link: &str, version: &str) -> (r: Option<(String, String)>)
    ensures
        match r {
            Some((l, k)) => latest_resolved(label@, link@, version@) == Some((l@, k@)),
            None => latest_resolved(label@, link@, version@) is None,
        },
{
    proof {
        reveal_strlit(" latest");
        reveal_strlit("/");
        reveal_strlit("/releases/tag/v");
    }
    let ls = chars_of(label);
    let suffix = chars_of(" latest");
    if !text::ends_with_exec(ls.as_slice(), suffix.as_slice()) {
        return None;
    }
    let base = strip_all_end_exec(ls.as_slice(), suffix.as_slice());
    let ks = chars_of(link);
    let vs = chars_of(version);
    let new_link: String = if ks.len() > 0 && vs.len() > 0 {
        let slash = chars_of("/");
        let mut out = strip_all_end_exec(ks.as_slice(), slash.as_slice());
        text::extend_str(&mut out, "/releases/tag/v");
        let semver = render::short_version(version);
        text::extend_str(&mut out, semver.as_str());
        text::string_of(out.as_slice())
    } else {
        link.to_owned()
    };
    Some((text::string_of(base.as_slice()), new_link))
}

} // verus!
