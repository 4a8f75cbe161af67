//! Human-readable one-line summaries of server responses, per LSP method,
//! as the competition report and the session logs print them.
use vstd::prelude::*;
use crate::json::{self, JsonValue};
use crate::parse;
use crate::render;
use crate::report;
use crate::serialize;
use crate::text::{self, chars_of, extend, extend_str};

verus! {

// ---------------------------------------------------------------------------
// Specification
// ---------------------------------------------------------------------------

/// The fallback summary: the compact JSON text cut to 40 bytes.
pub open spec fn fallback(r: json::Json) -> Option<Seq<char>> {
    render::truncate_spec(serialize::json_text(r), 40)
}

/// `when_empty` for an empty response, else the fallback.
pub open spec fn empty_or(r: json::Json, when_empty: Seq<char>) -> Option<Seq<char>> {
    if report::is_empty_response(r) {
        Some(when_empty)
    } else {
        fallback(r)
    }
}

/// "N noun".
pub open spec fn count_text(n: nat, noun: Seq<char>) -> Seq<char> {
    text::dec(n) + " "@ + noun
}

/// The first location of a definition-like response.
pub open spec fn first_location(r: json::Json) -> Option<json::Json> {
    match r {
        json::Json::Arr(a) => if a.len() > 0 {
            Some(a[0])
        } else {
            None
        },
        json::Json::Obj(_) => Some(r),
        _ => None,
    }
}

/// definition / declaration: "`File.sol:line`" of the first location.
pub open spec fn location_summary(r: json::Json) -> Option<Seq<char>> {
    match first_location(r) {
        None => empty_or(r, "empty"@),
        Some(l) => {
            let uri = match json::opt_str(json::or_else(l.get("targetUri"@), l.get("uri"@))) {
                Some(u) => u,
                None => Seq::empty(),
            };
            let range = json::or_else(l.get("targetRange"@), l.get("range"@));
            let line = json::opt_u64(json::Json::opt_get(json::Json::opt_get(range, "start"@), "line"@));
            let file = text::after_last(uri, '/');
            Some(
                match line {
                    Some(n) => "`"@ + file + ":"@ + text::dec(n as nat) + "`"@,
                    None => "`"@ + file + "`"@,
                },
            )
        },
    }
}

/// An array response counted with `noun`; other responses "empty" or the
/// fallback.
pub open spec fn array_count_summary(r: json::Json, noun: Seq<char>) -> Option<Seq<char>> {
    match r.as_array() {
        Some(a) => Some(count_text(a.len(), noun)),
        None => empty_or(r, "empty"@),
    }
}

/// A line of hover text worth showing: not empty, not a code fence, not a
/// rule.
pub open spec fn meaningful(l: Seq<char>) -> bool {
    l.len() > 0 && !text::starts_with(l, "```"@) && !text::starts_with(l, "---"@)
}

/// The first meaningful trimmed line.
pub open spec fn first_meaningful(ls: Seq<Seq<char>>) -> Option<Seq<char>>
    decreases ls.len(),
{
    if ls.len() == 0 {
        None
    } else if meaningful(text::trim(ls[0])) {
        Some(text::trim(ls[0]))
    } else {
        first_meaningful(ls.drop_first())
    }
}

/// The text of a hover's contents: a string as it is, an object's `value`.
pub open spec fn hover_text(r: json::Json) -> Option<Seq<char>> {
    match json::or_else(r.get("contents"@), r.get("value"@)) {
        Some(json::Json::Str(s)) => Some(s),
        Some(json::Json::Obj(o)) => Some(
            match json::opt_str(json::members_get(o, "value"@)) {
                Some(v) => v,
                None => Seq::empty(),
            },
        ),
        _ => None,
    }
}

/// hover: the first meaningful line of the contents (else all of it), cut
/// to 50 bytes.
pub open spec fn hover_summary(r: json::Json) -> Option<Seq<char>> {
    match hover_text(r) {
        None => empty_or(r, "empty"@),
        Some(t) => if t.len() == 0 {
            Some("empty"@)
        } else {
            let m = match first_meaningful(text::lines(t)) {
                Some(l) => l,
                None => t,
            };
            render::truncate_spec(m, 50)
        },
    }
}

/// The string labels among items.
pub open spec fn labels_of(a: Seq<json::Json>) -> Seq<Seq<char>>
    decreases a.len(),
{
    if a.len() == 0 {
        Seq::empty()
    } else {
        labels_of(a.drop_last()) + match json::opt_str(a.last().get("label"@)) {
            Some(l) => seq![l],
            None => Seq::empty(),
        }
    }
}

/// At most the first three items.
pub open spec fn first_three(a: Seq<json::Json>) -> Seq<json::Json> {
    if a.len() <= 3 {
        a
    } else {
        a.subrange(0, 3)
    }
}

/// "N noun" followed by the labels of the first three items in brackets.
pub open spec fn labelled_count(a: Seq<json::Json>, noun: Seq<char>) -> Seq<char> {
    let labels = labels_of(first_three(a));
    if labels.len() == 0 {
        count_text(a.len(), noun)
    } else {
        count_text(a.len(), noun) + " ("@ + text::join(labels, ", "@) + ")"@
    }
}

/// An array under `key`, else the response itself as an array.
pub open spec fn array_at_or_self(r: json::Json, key: Seq<char>) -> Option<Seq<json::Json>> {
    match json::opt_array(r.get(key)) {
        Some(a) => Some(a),
        None => r.as_array(),
    }
}

/// completion: "N items (first, second, third)".
pub open spec fn completion_summary(r: json::Json) -> Option<Seq<char>> {
    match array_at_or_self(r, "items"@) {
        Some(a) => Some(labelled_count(a, "items"@)),
        None => empty_or(r, "empty"@),
    }
}

/// diagnostics: "N diagnostics".
pub open spec fn diagnostics_summary(r: json::Json) -> Option<Seq<char>> {
    match array_at_or_self(r, "diagnostics"@) {
        Some(a) => Some(count_text(a.len(), "diagnostics"@)),
        None => empty_or(r, "0 diagnostics"@),
    }
}

/// rename: "ready (line N)" for a prepareRename range, else "E edits in F
/// files" (or "F files" without edits) for a WorkspaceEdit.
pub open spec fn rename_summary(r: json::Json) -> Option<Seq<char>> {
    if r.get("start"@) is Some || r.get("range"@) is Some {
        let range = match r.get("range"@) {
            Some(x) => x,
            None => r,
        };
        Some(
            match json::opt_u64(json::Json::opt_get(range.get("start"@), "line"@)) {
                Some(n) => "ready (line "@ + text::dec(n as nat) + ")"@,
                None => "ready"@,
            },
        )
    } else {
        let changes = match json::opt_array(r.get("documentChanges"@)) {
            Some(a) => Some(a),
            None => json::opt_array(r.get("changes"@)),
        };
        match changes {
            Some(a) => {
                let e = report::edits_total(a);
                Some(
                    if e > 0 {
                        count_text(e, "edits in "@) + count_text(a.len(), "files"@)
                    } else {
                        count_text(a.len(), "files"@)
                    },
                )
            },
            None => match json::opt_object(r.get("changes"@)) {
                Some(o) => Some(count_text(report::values_total(o), "edits in "@) + count_text(o.len(), "files"@)),
                None => empty_or(r, "empty"@),
            },
        }
    }
}

/// inlay hints: "N hints (first, second, third)".
pub open spec fn inlay_summary(r: json::Json) -> Option<Seq<char>> {
    match r.as_array() {
        Some(a) => Some(labelled_count(a, "hints"@)),
        None => empty_or(r, "empty"@),
    }
}

/// semantic tokens: "N tokens" (five integers each), "delta" for a result
/// id alone.
pub open spec fn tokens_summary(r: json::Json) -> Option<Seq<char>> {
    match json::opt_array(r.get("data"@)) {
        Some(d) => Some(count_text(d.len() / 5, "tokens"@)),
        None => if r.get("resultId"@) is Some {
            Some("delta"@)
        } else {
            empty_or(r, "empty"@)
        },
    }
}

/// signature help: the first signature's label cut to 50 bytes.
pub open spec fn signature_summary(r: json::Json) -> Option<Seq<char>> {
    match json::opt_array(r.get("signatures"@)) {
        Some(a) => if a.len() > 0 {
            render::truncate_spec(
                match json::opt_str(a[0].get("label"@)) {
                    Some(l) => l,
                    None => Seq::empty(),
                },
                50,
            )
        } else {
            empty_or(r, "empty"@)
        },
        None => empty_or(r, "empty"@),
    }
}

/// The summary of a parsed response for a (lowercased) method name.
pub open spec fn method_summary(m: Seq<char>, r: json::Json) -> Option<Seq<char>> {
    if text::contains(m, "definition"@) || text::contains(m, "declaration"@) || text::contains(
        m,
        "implementation"@,
    ) {
        location_summary(r)
    } else if text::contains(m, "reference"@) {
        array_count_summary(r, "references"@)
    } else if text::contains(m, "hover"@) {
        hover_summary(r)
    } else if text::contains(m, "completion"@) {
        completion_summary(r)
    } else if text::contains(m, "diagnostic"@) {
        diagnostics_summary(r)
    } else if text::contains(m, "symbol"@) {
        array_count_summary(r, "symbols"@)
    } else if text::contains(m, "link"@) {
        array_count_summary(r, "links"@)
    } else if text::contains(m, "rename"@) {
        rename_summary(r)
    } else if text::contains(m, "inlay"@) || text::contains(m, "hint"@) {
        inlay_summary(r)
    } else if text::contains(m, "semantic"@) || text::contains(m, "token"@) {
        tokens_summary(r)
    } else if text::contains(m, "signature"@) {
        signature_summary(r)
    } else if text::contains(m, "format"@) {
        array_count_summary(r, "edits"@)
    } else if text::contains(m, "init"@) || text::contains(m, "spawn"@) {
        if r == json::Json::Str("ok"@) || r is Obj {
            Some("ok"@)
        } else {
            fallback(r)
        }
    } else {
        fallback(r)
    }
}

/// The larger of two counts.
pub open spec fn max_nat(a: nat, b: nat) -> nat {
    if a >= b {
        a
    } else {
        b
    }
}

/// The noun that counts items of a raw array text for a method.
pub open spec fn raw_noun(m: Seq<char>) -> Seq<char> {
    if text::contains(m, "reference"@) {
        "references"@
    } else if text::contains(m, "symbol"@) {
        "symbols"@
    } else if text::contains(m, "link"@) {
        "links"@
    } else if text::contains(m, "hint"@) || text::contains(m, "inlay"@) {
        "hints"@
    } else {
        "items"@
    }
}

/// Hover markdown as raw text: code fences and escapes removed.
pub open spec fn cleaned_hover(content: Seq<char>) -> Seq<char> {
    text::trim(
        text::replace(
            text::replace(
                text::replace(text::replace(content, "```solidity\\n"@, Seq::empty()), "```\\n"@, Seq::empty()),
                "\\n"@,
                " "@,
            ),
            "\\\""@,
            "\""@,
        ),
    )
}

/// The summary of a response kept as raw text: array items counted by
/// their `"uri"` or `"range"` keys, diagnostics by `"severity"`, the hover
/// value cleaned and cut to 50 bytes, anything else cut to 40 bytes.
pub open spec fn text_summary(bench: Seq<char>, t: Seq<char>) -> Option<Seq<char>> {
    let m = text::spec_to_lowercase(bench);
    if text::starts_with(text::trim_start(t), "["@) {
        let c = max_nat(text::count_matches(t, "\"uri\""@), text::count_matches(t, "\"range\""@));
        Some(count_text(c, raw_noun(m)))
    } else if text::contains(m, "diagnostic"@) {
        Some(count_text(text::count_matches(t, "\"severity\""@), "diagnostics"@))
    } else if text::contains(m, "hover"@) {
        match text::find(t, "\"value\": \""@) {
            Some(k) => {
                let first = text::trim(text::before_first(cleaned_hover(t.subrange(k + 10, t.len() as int)), "---"@));
                if first.len() > 0 {
                    render::truncate_spec(first, 50)
                } else {
                    Some("hover content"@)
                }
            },
            None => Some("hover content"@),
        }
    } else {
        render::truncate_spec(t, 40)
    }
}

/// The `response` of a server entry's first iteration.
pub open spec fn iteration_response(srv: json::Json) -> Option<json::Json> {
    match json::opt_array(srv.get("iterations"@)) {
        Some(a) => if a.len() > 0 {
            a[0].get("response"@)
        } else {
            None
        },
        None => None,
    }
}

/// A stored iteration response read as JSON when it is JSON text.
pub open spec fn reparsed(ir: json::Json) -> json::Json {
    match ir {
        json::Json::Str(s) => match parse::decode(s) {
            Some(v) => v,
            None => json::Json::Str(s),
        },
        _ => ir,
    }
}

/// The response that a server entry is summarized from: the parsed
/// response, or the first iteration's when only that one parses.
pub open spec fn summarized_response(srv: json::Json) -> json::Json {
    let r = report::parsed_response(srv);
    if r is Str {
        match iteration_response(srv) {
            Some(ir) => if reparsed(ir) is Str {
                r
            } else {
                reparsed(ir)
            },
            None => r,
        }
    } else {
        r
    }
}

/// The human-readable result of a server entry for a benchmark.
pub open spec fn human_summary(bench: Seq<char>, srv: json::Json) -> Option<Seq<char>> {
    let r = summarized_response(srv);
    match r {
        json::Json::Str(t) => text_summary(bench, t),
        _ => method_summary(text::spec_to_lowercase(bench), r),
    }
}

// ---------------------------------------------------------------------------
// Implementation
// ---------------------------------------------------------------------------

fn opt_string(r: Option<Vec<char>>) -> (s: Option<String>)
    ensures
        text::opt_view(s) == match r {
            Some(v) => Some(v@),
            None => None::<Seq<char>>,
        },
{
    match r {
        Some(v) => Some(text::string_of(v.as_slice())),
        None => None,
    }
}

fn truncate_opt(s: &[char], max: usize) -> (r: Option<String>)
    ensures
        text::opt_view(r) == render::truncate_spec(s@, max as nat),
{
    opt_string(render::try_truncate_chars(s, max))
}

fn fallback_opt(r: &JsonValue) -> (o: Option<String>)
    ensures
        text::opt_view(o) == fallback(r@),
{
    let t = serialize::to_json_string(r);
    let cs = chars_of(t.as_str());
    truncate_opt(cs.as_slice(), 40)
}

fn empty_or_opt(r: &JsonValue, when_empty: &str) -> (o: Option<String>)
    ensures
        text::opt_view(o) == empty_or(r@, when_empty@),
{
    if report::response_is_empty(r) {
        Some(when_empty.to_owned())
    } else {
        fallback_opt(r)
    }
}

fn count_text_exec(n: usize, noun: &str) -> (r: Vec<char>)
    ensures
        r@ == count_text(n as nat, noun@),
{
    let mut out = text::dec_u64(n as u64);
    extend_str(&mut out, " ");
    extend_str(&mut out, noun);
    out
}

fn some_text(v: Vec<char>) -> (r: Option<String>)
    ensures
        text::opt_view(r) == Some(v@),
{
    Some(text::string_of(v.as_slice()))
}

/// Reads an optional member through an optional value.
fn opt_get<'a>(o: Option<&'a JsonValue>, key: &str) -> (r: Option<&'a JsonValue>)
    ensures
        match r {
            Some(v) => json::Json::opt_get(
                match o {
                    Some(x) => Some(x@),
                    None => None,
                },
                key@,
            ) == Some(v@),
            None => json::Json::opt_get(
                match o {
                    Some(x) => Some(x@),
                    None => None,
                },
                key@,
            ) is None,
        },
{
    match o {
        Some(x) => x.get(key),
        None => None,
    }
}

fn or_else_get<'a>(v: &'a JsonValue, a: &str, b: &str) -> (r: Option<&'a JsonValue>)
    ensures
        match r {
            Some(x) => json::or_else(v@.get(a@), v@.get(b@)) == Some(x@),
            None => json::or_else(v@.get(a@), v@.get(b@)) is None,
        },
{
    match v.get(a) {
        Some(x) => Some(x),
        None => v.get(b),
    }
}

fn location_opt(r: &JsonValue) -> (o: Option<String>)
    ensures
        text::opt_view(o) == location_summary(r@),
{
    let loc: Option<&JsonValue> = match r {
        JsonValue::Array(a) => if a.len() > 0 {
            proof {
                r.lemma_array_view(a, 0);
            }
            Some(&a[0])
        } else {
            None
        },
        JsonValue::Object(_) => Some(r),
        _ => None,
    };
    match loc {
        None => empty_or_opt(r, "empty"),
        Some(l) => {
            let uri: &str = match or_else_get(l, "targetUri", "uri") {
                Some(x) => match x.as_str() {
                    Some(u) => u,
                    None => "",
                },
                None => "",
            };
            let range = or_else_get(l, "targetRange", "range");
            let line = match opt_get(opt_get(range, "start"), "line") {
                Some(x) => x.as_u64(),
                None => None,
            };
            let ucs = chars_of(uri);
            let file = text::after_last_exec(ucs.as_slice(), '/');
            let mut out: Vec<char> = Vec::new();
            out.push('`');
            extend(&mut out, file.as_slice());
            match line {
                Some(n) => {
                    out.push(':');
                    let d = text::dec_u64(n);
                    extend(&mut out, d.as_slice());
                },
                None => {},
            }
            out.push('`');
            proof {
                reveal_strlit("");
                reveal_strlit("`");
                reveal_strlit(":");
                let lv = l@;
                let line_spec = json::opt_u64(
                    json::Json::opt_get(json::Json::opt_get(json::or_else(lv.get("targetRange"@), lv.get("range"@)), "start"@), "line"@),
                );
                assert(line_spec == line);
                match line {
                    Some(n) => assert(out@ =~= "`"@ + file@ + ":"@ + text::dec(n as nat) + "`"@),
                    None => assert(out@ =~= "`"@ + file@ + "`"@),
                }
            }
            some_text(out)
        },
    }
}

fn array_count_opt(r: &JsonValue, noun: &str) -> (o: Option<String>)
    ensures
        text::opt_view(o) == array_count_summary(r@, noun@),
{
    match r.as_array() {
        Some(a) => some_text(count_text_exec(a.len(), noun)),
        None => empty_or_opt(r, "empty"),
    }
}

fn first_meaningful_exec(ls: &Vec<Vec<char>>) -> (r: Option<Vec<char>>)
    ensures
        match r {
            Some(l) => first_meaningful(ls@.map_values(|v: Vec<char>| v@)) == Some(l@),
            None => first_meaningful(ls@.map_values(|v: Vec<char>| v@)) is None,
        },
{
    let ghost sl = ls@.map_values(|v: Vec<char>| v@);
    let fence: Vec<char> = vec!['`', '`', '`'];
    let rule: Vec<char> = vec!['-', '-', '-'];
    proof {
        reveal_strlit("```");
        reveal_strlit("---");
        assert(fence@ =~= "```"@);
        assert(rule@ =~= "---"@);
    }
    let mut i: usize = 0;
    assert(sl.subrange(0, sl.len() as int) =~= sl);
    while i < ls.len()
        invariant
            i <= ls@.len(),
            sl == ls@.map_values(|v: Vec<char>| v@),
            fence@ == "```"@,
            rule@ == "---"@,
            first_meaningful(sl) == first_meaningful(sl.subrange(i as int, sl.len() as int)),
        decreases ls.len() - i,
    {
        let ghost rest = sl.subrange(i as int, sl.len() as int);
        assert(rest.drop_first() =~= sl.subrange(i + 1, sl.len() as int));
        assert(rest[0] == ls@[i as int]@);
        let t = text::trim_exec(ls[i].as_slice());
        if t.len() > 0 && !text::starts_with_exec(t.as_slice(), fence.as_slice())
            && !text::starts_with_exec(t.as_slice(), rule.as_slice()) {
            return Some(t);
        }
        i += 1;
    }
    None
}

fn hover_opt(r: &JsonValue) -> (o: Option<String>)
    ensures
        text::opt_view(o) == hover_summary(r@),
{
    let t: Option<Vec<char>> = match or_else_get(r, "contents", "value") {
        Some(JsonValue::String(s)) => Some(chars_of(s.as_str())),
        Some(JsonValue::Object(m)) => {
            let c = or_else_get(r, "contents", "value");
            let v = match c {
                Some(x) => match x.get("value") {
                    Some(y) => y.as_str(),
                    None => None,
                },
                None => None,
            };
            match v {
                Some(v) => Some(chars_of(v)),
                None => Some(Vec::new()),
            }
        },
        _ => None,
    };
    match t {
        None => empty_or_opt(r, "empty"),
        Some(t) => {
            if t.len() == 0 {
                return Some("empty".to_owned());
            }
            let ls = text::lines_exec(t.as_slice());
            match first_meaningful_exec(&ls) {
                Some(l) => truncate_opt(l.as_slice(), 50),
                None => truncate_opt(t.as_slice(), 50),
            }
        },
    }
}

fn labels_exec(a: &Vec<JsonValue>, n: usize) -> (r: Vec<Vec<char>>)
    requires
        n <= a@.len(),
    ensures
        r@.map_values(|v: Vec<char>| v@) == labels_of(a@.map_values(|x: JsonValue| x@).subrange(0, n as int)),
{
    let ghost sa = a@.map_values(|x: JsonValue| x@);
    let mut out: Vec<Vec<char>> = Vec::new();
    let mut i: usize = 0;
    assert(sa.subrange(0, 0) =~= Seq::<json::Json>::empty());
    while i < n
        invariant
            i <= n <= a@.len(),
            sa == a@.map_values(|x: JsonValue| x@),
            out@.map_values(|v: Vec<char>| v@) == labels_of(sa.subrange(0, i as int)),
        decreases n - i,
    {
        let ghost before = out@.map_values(|v: Vec<char>| v@);
        assert(sa.subrange(0, i + 1).drop_last() =~= sa.subrange(0, i as int));
        assert(sa.subrange(0, i + 1).last() == a@[i as int]@);
        let l = match a[i].get("label") {
            Some(x) => x.as_str(),
            None => None,
        };
        match l {
            Some(l) => {
                out.push(chars_of(l));
                assert(out@.map_values(|v: Vec<char>| v@) =~= before + seq![l@]);
            },
            None => {
                assert(out@.map_values(|v: Vec<char>| v@) =~= before + Seq::<Seq<char>>::empty());
            },
        }
        i += 1;
    }
    out
}

fn labelled_count_exec(a: &Vec<JsonValue>, noun: &str) -> (r: Vec<char>)
    ensures
        r@ == labelled_count(a@.map_values(|x: JsonValue| x@), noun@),
{
    let ghost sa = a@.map_values(|x: JsonValue| x@);
    let n: usize = if a.len() <= 3 { a.len() } else { 3 };
    let labels = labels_exec(a, n);
    proof {
        if sa.len() <= 3 {
            assert(sa.subrange(0, n as int) =~= sa);
        }
    }
    let mut out = count_text_exec(a.len(), noun);
    if labels.len() > 0 {
        extend_str(&mut out, " (");
        let sep: Vec<char> = vec![',', ' '];
        proof {
            reveal_strlit(", ");
            assert(sep@ =~= ", "@);
        }
        let j = text::join_exec(&labels, sep.as_slice());
        extend(&mut out, j.as_slice());
        extend_str(&mut out, ")");
    }
    out
}

fn array_at_or_self_exec<'a>(r: &'a JsonValue, key: &str) -> (o: Option<&'a Vec<JsonValue>>)
    ensures
        match o {
            Some(a) => array_at_or_self(r@, key@) == Some(a@.map_values(|x: JsonValue| x@)),
            None => array_at_or_self(r@, key@) is None,
        },
{
    let inner = match r.get(key) {
        Some(x) => x.as_array(),
        None => None,
    };
    match inner {
        Some(a) => Some(a),
        None => r.as_array(),
    }
}

fn completion_opt(r: &JsonValue) -> (o: Option<String>)
    ensures
        text::opt_view(o) == completion_summary(r@),
{
    match array_at_or_self_exec(r, "items") {
        Some(a) => some_text(labelled_count_exec(a, "items")),
        None => empty_or_opt(r, "empty"),
    }
}

fn diagnostics_opt(r: &JsonValue) -> (o: Option<String>)
    ensures
        text::opt_view(o) == diagnostics_summary(r@),
{
    match array_at_or_self_exec(r, "diagnostics") {
        Some(a) => some_text(count_text_exec(a.len(), "diagnostics")),
        None => empty_or_opt(r, "0 diagnostics"),
    }
}

fn rename_opt(r: &JsonValue) -> (o: Option<String>)
    ensures
        text::opt_view(o) == rename_summary(r@),
{
    if r.get("start").is_some() || r.get("range").is_some() {
        let range: &JsonValue = match r.get("range") {
            Some(x) => x,
            None => r,
        };
        let line = match range.get("start") {
            Some(s) => match s.get("line") {
                Some(l) => l.as_u64(),
                None => None,
            },
            None => None,
        };
        let mut out: Vec<char> = Vec::new();
        extend_str(&mut out, "ready");
        if let Some(n) = line {
            extend_str(&mut out, " (line ");
            let d = text::dec_u64(n);
            extend(&mut out, d.as_slice());
            extend_str(&mut out, ")");
            proof {
                reveal_strlit("ready");
                reveal_strlit(" (line ");
                reveal_strlit("ready (line ");
                assert(out@ =~= "ready (line "@ + text::dec(n as nat) + ")"@);
            }
        }
        return some_text(out);
    }
    let dc = match r.get("documentChanges") {
        Some(x) => x.as_array(),
        None => None,
    };
    let changes = match dc {
        Some(a) => Some(a),
        None => match r.get("changes") {
            Some(x) => x.as_array(),
            None => None,
        },
    };
    match changes {
        Some(a) => {
            let e = report::edits_total_exec(a);
            if e > 0 {
                let mut out = text::dec_u128(e);
                extend_str(&mut out, " ");
                extend_str(&mut out, "edits in ");
                let f = count_text_exec(a.len(), "files");
                extend(&mut out, f.as_slice());
                some_text(out)
            } else {
                some_text(count_text_exec(a.len(), "files"))
            }
        },
        None => {
            let obj = match r.get("changes") {
                Some(x) => x.as_object(),
                None => None,
            };
            match obj {
                Some(o) => {
                    let e = report::values_total_exec(o);
                    let mut out = text::dec_u128(e);
                    extend_str(&mut out, " ");
                    extend_str(&mut out, "edits in ");
                    let f = count_text_exec(o.len(), "files");
                    extend(&mut out, f.as_slice());
                    some_text(out)
                },
                None => empty_or_opt(r, "empty"),
            }
        },
    }
}

fn inlay_opt(r: &JsonValue) -> (o: Option<String>)
    ensures
        text::opt_view(o) == inlay_summary(r@),
{
    match r.as_array() {
        Some(a) => some_text(labelled_count_exec(a, "hints")),
        None => empty_or_opt(r, "empty"),
    }
}

fn tokens_opt(r: &JsonValue) -> (o: Option<String>)
    ensures
        text::opt_view(o) == tokens_summary(r@),
{
    let data = match r.get("data") {
        Some(x) => x.as_array(),
        None => None,
    };
    match data {
        Some(d) => some_text(count_text_exec(d.len() / 5, "tokens")),
        None => if r.get("resultId").is_some() {
            Some("delta".to_owned())
        } else {
            empty_or_opt(r, "empty")
        },
    }
}

fn signature_opt(r: &JsonValue) -> (o: Option<String>)
    ensures
        text::opt_view(o) == signature_summary(r@),
{
    let sigs = match r.get("signatures") {
        Some(x) => x.as_array(),
        None => None,
    };
    match sigs {
        Some(a) => if a.len() > 0 {
            let label: &str = match a[0].get("label") {
                Some(x) => match x.as_str() {
                    Some(l) => l,
                    None => "",
                },
                None => "",
            };
            proof {
                reveal_strlit("");
                assert(a@.map_values(|x: JsonValue| x@)[0] == a@[0]@);
            }
            let cs = chars_of(label);
            truncate_opt(cs.as_slice(), 50)
        } else {
            empty_or_opt(r, "empty")
        },
        None => empty_or_opt(r, "empty"),
    }
}

fn contains2(m: &str, a: &str, b: &str) -> (r: bool)
    ensures
        r == (text::contains(m@, a@) || text::contains(m@, b@)),
{
    text::str_contains(m, a) || text::str_contains(m, b)
}

fn method_opt(m: &str, r: &JsonValue) -> (o: Option<String>)
    ensures
        text::opt_view(o) == method_summary(m@, r@),
{
    if contains2(m, "definition", "declaration") || text::str_contains(m, "implementation") {
        location_opt(r)
    } else if text::str_contains(m, "reference") {
        array_count_opt(r, "references")
    } else if text::str_contains(m, "hover") {
        hover_opt(r)
    } else if text::str_contains(m, "completion") {
        completion_opt(r)
    } else if text::str_contains(m, "diagnostic") {
        diagnostics_opt(r)
    } else if text::str_contains(m, "symbol") {
        array_count_opt(r, "symbols")
    } else if text::str_contains(m, "link") {
        array_count_opt(r, "links")
    } else if text::str_contains(m, "rename") {
        rename_opt(r)
    } else if contains2(m, "inlay", "hint") {
        inlay_opt(r)
    } else if contains2(m, "semantic", "token") {
        tokens_opt(r)
    } else if text::str_contains(m, "signature") {
        signature_opt(r)
    } else if text::str_contains(m, "format") {
        array_count_opt(r, "edits")
    } else if contains2(m, "init", "spawn") {
        let is_ok_str = match r.as_str() {
            Some(s) => json::str_eq(s, "ok"),
            None => false,
        };
        if is_ok_str || r.is_object() {
            Some("ok".to_owned())
        } else {
            fallback_opt(r)
        }
    } else {
        fallback_opt(r)
    }
}

fn raw_noun_exec(m: &str) -> (r: &'static str)
    ensures
        r@ == raw_noun(m@),
{
    if text::str_contains(m, "reference") {
        "references"
    } else if text::str_contains(m, "symbol") {
        "symbols"
    } else if text::str_contains(m, "link") {
        "links"
    } else if contains2(m, "hint", "inlay") {
        "hints"
    } else {
        "items"
    }
}

fn count_of(t: &[char], p: &str) -> (r: usize)
    requires
        p@.len() > 0,
    ensures
        r == text::count_matches(t@, p@),
{
    let pc = chars_of(p);
    text::count_matches_exec(t, pc.as_slice())
}

fn replace_all(s: &[char], from: &str, to: &str) -> (r: Vec<char>)
    requires
        from@.len() > 0,
    ensures
        r@ == text::replace(s@, from@, to@),
{
    let f = chars_of(from);
    let t = chars_of(to);
    text::replace_exec(s, f.as_slice(), t.as_slice())
}

fn text_opt(bench_name: &str, t: &str) -> (o: Option<String>)
    ensures
        text::opt_view(o) == text_summary(bench_name@, t@),
{
    let method = text::to_lowercase(bench_name);
    let m = method.as_str();
    let cs = chars_of(t);
    let lead = text::leading_ws_exec(cs.as_slice());
    proof {
        text::lemma_leading_ws_bound(t@);
        reveal_strlit("[");
        reveal_strlit("\"uri\"");
        reveal_strlit("\"range\"");
        reveal_strlit("\"severity\"");
        reveal_strlit("\"value\": \"");
        reveal_strlit("```solidity\\n");
        reveal_strlit("```\\n");
        reveal_strlit("\\n");
        reveal_strlit("\\\"");
        reveal_strlit("---");
        reveal_strlit("");
    }
    if lead < cs.len() && cs[lead] == '[' {
        proof {
            assert(text::trim_start(t@)[0] == '[');
            assert(text::trim_start(t@).subrange(0, 1) =~= "["@);
        }
        let a = count_of(cs.as_slice(), "\"uri\"");
        let b = count_of(cs.as_slice(), "\"range\"");
        let c = if a >= b { a } else { b };
        return some_text(count_text_exec(c, raw_noun_exec(m)));
    }
    proof {
        if text::starts_with(text::trim_start(t@), "["@) {
            assert(text::trim_start(t@).subrange(0, 1)[0] == '[');
        }
    }
    if text::str_contains(m, "diagnostic") {
        let c = count_of(cs.as_slice(), "\"severity\"");
        return some_text(count_text_exec(c, "diagnostics"));
    }
    if text::str_contains(m, "hover") {
        let pat = chars_of("\"value\": \"");
        proof {
            text::lemma_find_from_bound(t@, "\"value\": \""@, 0);
        }
        match text::find_exec(cs.as_slice(), pat.as_slice()) {
            Some(k) => {
                let n = cs.len();
                assert(k + 10 <= n);
                let content = text::slice_of(cs.as_slice(), k + 10, n);
                let c1 = replace_all(content.as_slice(), "```solidity\\n", "");
                let c2 = replace_all(c1.as_slice(), "```\\n", "");
                let c3 = replace_all(c2.as_slice(), "\\n", " ");
                let c4 = replace_all(c3.as_slice(), "\\\"", "\"");
                let clean = text::trim_exec(c4.as_slice());
                let dash = chars_of("---");
                let head = text::before_first_exec(clean.as_slice(), dash.as_slice());
                let first = text::trim_exec(head.as_slice());
                proof {
                    assert(content@ == t@.subrange(k + 10, t@.len() as int));
                    assert(""@ =~= Seq::<char>::empty());
                    assert(clean@ == cleaned_hover(content@));
                    assert(first@ == text::trim(text::before_first(cleaned_hover(content@), "---"@)));
                    assert(text::find(t@, "\"value\": \""@) == Some(k as int));
                    assert(!text::starts_with(text::trim_start(t@), "["@));
                    assert(!text::contains(text::spec_to_lowercase(bench_name@), "diagnostic"@));
                    assert(text::contains(text::spec_to_lowercase(bench_name@), "hover"@));
                }
                if first.len() > 0 {
                    return truncate_opt(first.as_slice(), 50);
                }
                return Some("hover content".to_owned());
            },
            None => {
                return Some("hover content".to_owned());
            },
        }
    }
    truncate_opt(cs.as_slice(), 40)
}

fn reparsed_exec(ir: &JsonValue) -> (r: JsonValue)
    ensures
        r@ == reparsed(ir@),
{
    match ir {
        JsonValue::String(s) => match parse::decode_json(s.as_str()) {
            Some(v) => v,
            None => JsonValue::String(s.clone()),
        },
        _ => ir.duplicate(),
    }
}

fn summarized_response_exec(srv: &JsonValue) -> (r: JsonValue)
    ensures
        r@ == summarized_response(srv@),
{
    let r = report::parse_response(srv);
    if !r.is_string() {
        return r;
    }
    let iters = match srv.get("iterations") {
        Some(x) => x.as_array(),
        None => None,
    };
    let ir: Option<&JsonValue> = match iters {
        Some(a) => if a.len() > 0 {
            proof {
                assert(a@.map_values(|x: JsonValue| x@)[0] == a@[0]@);
            }
            a[0].get("response")
        } else {
            None
        },
        None => None,
    };
    match ir {
        Some(x) => {
            let p = reparsed_exec(x);
            if p.is_string() {
                r
            } else {
                p
            }
        },
        None => r,
    }
}

pub(crate) fn human_opt(bench_name: &str, srv: &JsonValue) -> (o: Option<String>)
    ensures
        text::opt_view(o) == human_summary(bench_name@, srv@),
{
    let r = summarized_response_exec(srv);
    match &r {
        JsonValue::String(t) => text_opt(bench_name, t.as_str()),
        _ => {
            let method = text::to_lowercase(bench_name);
            method_opt(method.as_str(), &r)
        },
    }
}

// ---------------------------------------------------------------------------
// Public summaries
// ---------------------------------------------------------------------------

/// The compact JSON text of a response cut to 40 bytes.
pub fn format_response_fallback(response: &JsonValue) -> (r: String)
    requires
        fallback(response@) is Some,
    ensures
        r@ == fallback(response@)->0,
{
    let t = serialize::to_json_string(response);
    render::truncate(t.as_str(), 40)
}

/// definition/declaration → "`File.sol:line`".
pub fn summarize_location(response: &JsonValue) -> (r: String)
    requires
        location_summary(response@) is Some,
    ensures
        r@ == location_summary(response@)->0,
{
    match location_opt(response) {
        Some(s) => s,
        None => String::new(),
    }
}

/// references → "N references".
pub fn summarize_references(response: &JsonValue) -> (r: String)
    requires
        array_count_summary(response@, "references"@) is Some,
    ensures
        r@ == array_count_summary(response@, "references"@)->0,
{
    match array_count_opt(response, "references") {
        Some(s) => s,
        None => String::new(),
    }
}

/// hover → the first meaningful line of the contents, cut to 50 bytes.
pub fn summarize_hover(response: &JsonValue) -> (r: String)
    requires
        hover_summary(response@) is Some,
    ensures
        r@ == hover_summary(response@)->0,
{
    match hover_opt(response) {
        Some(s) => s,
        None => String::new(),
    }
}

/// Checked form of `summarize_hover`: `None` where the 50-byte cut would
/// split a character.
pub fn try_summarize_hover(response: &JsonValue) -> (r: Option<String>)
    ensures
        text::opt_view(r) == hover_summary(response@),
{
    if hover_opt(response).is_some() {
        Some(summarize_hover(response))
    } else {
        None
    }
}

/// completion → "N items (first, second, ...)".
pub fn summarize_completion(response: &JsonValue) -> (r: String)
    requires
        completion_summary(response@) is Some,
    ensures
        r@ == completion_summary(response@)->0,
{
    match completion_opt(response) {
        Some(s) => s,
        None => String::new(),
    }
}

/// diagnostics → "N diagnostics".
pub fn summarize_diagnostics(response: &JsonValue) -> (r: String)
    requires
        diagnostics_summary(response@) is Some,
    ensures
        r@ == diagnostics_summary(response@)->0,
{
    match diagnostics_opt(response) {
        Some(s) => s,
        None => String::new(),
    }
}

/// document symbols → "N symbols".
pub fn summarize_symbols(response: &JsonValue) -> (r: String)
    requires
        array_count_summary(response@, "symbols"@) is Some,
    ensures
        r@ == array_count_summary(response@, "symbols"@)->0,
{
    match array_count_opt(response, "symbols") {
        Some(s) => s,
        None => String::new(),
    }
}

/// document links → "N links".
pub fn summarize_links(response: &JsonValue) -> (r: String)
    requires
        array_count_summary(response@, "links"@) is Some,
    ensures
        r@ == array_count_summary(response@, "links"@)->0,
{
    match array_count_opt(response, "links") {
        Some(s) => s,
        None => String::new(),
    }
}

/// rename → "N edits in M files"; prepareRename → "ready (line N)".
pub fn summarize_rename(response: &JsonValue) -> (r: String)
    requires
        rename_summary(response@) is Some,
    ensures
        r@ == rename_summary(response@)->0,
{
    match rename_opt(response) {
        Some(s) => s,
        None => String::new(),
    }
}

/// inlay hints → "N hints (first, ...)".
pub fn summarize_inlay_hints(response: &JsonValue) -> (r: String)
    requires
        inlay_summary(response@) is Some,
    ensures
        r@ == inlay_summary(response@)->0,
{
    match inlay_opt(response) {
        Some(s) => s,
        None => String::new(),
    }
}

/// semantic tokens → "N tokens".
pub fn summarize_semantic_tokens(response: &JsonValue) -> (r: String)
    requires
        tokens_summary(response@) is Some,
    ensures
        r@ == tokens_summary(response@)->0,
{
    match tokens_opt(response) {
        Some(s) => s,
        None => String::new(),
    }
}

/// signature help → the first signature's label, cut to 50 bytes.
pub fn summarize_signature_help(response: &JsonValue) -> (r: String)
    requires
        signature_summary(response@) is Some,
    ensures
        r@ == signature_summary(response@)->0,
{
    match signature_opt(response) {
        Some(s) => s,
        None => String::new(),
    }
}

/// formatting → "N edits".
pub fn summarize_formatting(response: &JsonValue) -> (r: String)
    requires
        array_count_summary(response@, "edits"@) is Some,
    ensures
        r@ == array_count_summary(response@, "edits"@)->0,
{
    match array_count_opt(response, "edits") {
        Some(s) => s,
        None => String::new(),
    }
}

/// Human-readable information from a raw response text (when it is not
/// JSON).
pub fn human_result_from_text(bench_name: &str, text: &str) -> (r: String)
    requires
        text_summary(bench_name@, text@) is Some,
    ensures
        r@ == text_summary(bench_name@, text@)->0,
{
    match text_opt(bench_name, text) {
        Some(s) => s,
        None => String::new(),
    }
}

/// Checked form of `human_result_from_text`: `None` where a byte cut
/// would split a character.
pub fn try_human_result_from_text(bench_name: &str, text: &str) -> (r: Option<String>)
    ensures
        text::opt_view(r) == text_summary(bench_name@, text@),
{
    if text_opt(bench_name, text).is_some() {
        Some(human_result_from_text(bench_name, text))
    } else {
        None
    }
}

/// A human-readable result summary of a server entry, by benchmark method.
pub fn human_result(bench_name: &str, srv: &JsonValue) -> (r: String)
    requires
        human_summary(bench_name@, srv@) is Some,
    ensures
        r@ == human_summary(bench_name@, srv@)->0,
{
    match human_opt(bench_name, srv) {
        Some(s) => s,
        None => String::new(),
    }
}

/// Checked form of `human_result`: `None` where a byte cut would split a
/// character.
pub fn try_human_result(bench_name: &str, srv: &JsonValue) -> (r: Option<String>)
    ensures
        text::opt_view(r) == human_summary(bench_name@, srv@),
{
    if human_opt(bench_name, srv).is_some() {
        Some(human_result(bench_name, srv))
    } else {
        None
    }
}

} // verus!
