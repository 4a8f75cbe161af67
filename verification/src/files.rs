//! Choosing the benchmark file that a report program reads when it is given
//! a directory: the JSON file whose name sorts last.
use vstd::prelude::*;
use crate::text;

verus! {

/// The extension of a file name, as `Path::extension` gives it.
pub uninterp spec fn spec_extension(name: Seq<char>) -> Option<Seq<char>>;

/// `Path::extension`: the part after the last dot of the file name, if any.
#[verifier::external_body]
fn path_extension(name: &str) -> (r: Option<String>)
    ensures
        text::opt_view(r) == spec_extension(name@),
{
    std::path::Path::new(name).extension().map(|e| e.to_string_lossy().into_owned())
}

/// `a` sorts before `b`: character by character, a proper prefix first
/// (code point order, which is the byte order of their UTF-8 texts).
pub open spec fn name_lt(a: Seq<char>, b: Seq<char>) -> bool
    decreases a.len(),
{
    if a.len() == 0 {
        b.len() > 0
    } else if b.len() == 0 {
        false
    } else if a[0] != b[0] {
        (a[0] as u32) < (b[0] as u32)
    } else {
        name_lt(a.drop_first(), b.drop_first())
    }
}

/// The file has the extension `json`.
pub open spec fn is_json(name: Seq<char>) -> bool {
    spec_extension(name) == Some("json"@)
}

/// Among the first `n` names, the index of the JSON file that a stable sort
/// by name puts last: the greatest name, the later one among equals.
pub open spec fn latest_among(names: Seq<Seq<char>>, n: int) -> Option<int>
    decreases n,
{
    if n <= 0 || n > names.len() {
        None
    } else {
        let prev = latest_among(names, n - 1);
        if is_json(names[n - 1]) && match prev {
            Some(p) => !name_lt(names[n - 1], names[p]),
            None => true,
        } {
            Some(n - 1)
        } else {
            prev
        }
    }
}

fn name_lt_exec(a: &[char], b: &[char]) -> (r: bool)
    ensures
        r == name_lt(a@, b@),
{
    let mut i: usize = 0;
    proof {
        assert(a@.subrange(0, a@.len() as int) =~= a@);
        assert(b@.subrange(0, b@.len() as int) =~= b@);
    }
    while i < a.len() && i < b.len() && a[i] == b[i]
        invariant
            i <= a@.len(),
            i <= b@.len(),
            name_lt(a@, b@) == name_lt(a@.subrange(i as int, a@.len() as int), b@.subrange(i as int, b@.len() as int)),
        decreases a.len() - i,
    {
        let ghost x = a@.subrange(i as int, a@.len() as int);
        let ghost y = b@.subrange(i as int, b@.len() as int);
        assert(x.drop_first() =~= a@.subrange(i + 1, a@.len() as int));
        assert(y.drop_first() =~= b@.subrange(i + 1, b@.len() as int));
        i += 1;
    }
    let ghost x = a@.subrange(i as int, a@.len() as int);
    let ghost y = b@.subrange(i as int, b@.len() as int);
    if i == a.len() {
        assert(x.len() == 0);
        i < b.len()
    } else if i == b.len() {
        false
    } else {
        assert(x[0] == a@[i as int] && y[0] == b@[i as int]);
        (a[i] as u32) < (b[i] as u32)
    }
}

pub open spec fn names_view(v: Seq<String>) -> Seq<Seq<char>> {
    v.map_values(|s: String| s@)
}

/// The index of the file name, among those of a directory's entries, that
/// the report programs read: of the `.json` files, the one whose name
/// sorts last (the later entry among equal names).
pub fn latest_json_file(names: &Vec<String>) -> (r: Option<usize>)
    ensures
        match r {
            Some(i) => latest_among(names_view(names@), names@.len() as int) == Some(i as int),
            None => latest_among(names_view(names@), names@.len() as int) is None,
        },
{
    let ghost nv = names_view(names@);
    let mut best: Option<usize> = None;
    let mut i: usize = 0;
    while i < names.len()
        invariant
            i <= names@.len(),
            nv == names_view(names@),
            match best {
                Some(b) => latest_among(nv, i as int) == Some(b as int) && b < i,
                None => latest_among(nv, i as int) is None,
            },
        decreases names.len() - i,
    {
        let json = match path_extension(names[i].as_str()) {
            Some(e) => crate::json::str_eq(e.as_str(), "json"),
            None => false,
        };
        assert(nv[i as int] == names@[i as int]@);
        let take = json && match best {
            Some(b) => {
                let a = text::chars_of(names[i].as_str());
                let c = text::chars_of(names[b].as_str());
                !name_lt_exec(a.as_slice(), c.as_slice())
            },
            None => true,
        };
        if take {
            best = Some(i);
        }
        proof {
            match best {
                Some(b) => {
                    if b < i {
                        assert(nv[b as int] == names@[b as int]@);
                    }
                },
                None => {},
            }
        }
        i += 1;
    }
    best
}

} // verus!
