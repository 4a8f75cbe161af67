//! Classification of stored benchmark results (one server's entry of one
//! benchmark), as the report generators read them.
use vstd::prelude::*;
use crate::json::{self, JsonValue};
use crate::text::{self, chars_of};
use crate::render;
use crate::parse;
use crate::response;
use crate::serialize;

verus! {

/// Text of a string member, empty when absent or not a string.
pub open spec fn str_member(v: json::Json, key: Seq<char>) -> Seq<char> {
    match json::opt_str(v.get(key)) {
        Some(s) => s,
        None => Seq::empty(),
    }
}

/// The stored response of a server entry, read as JSON: a native value as
/// it is; a string is parsed as JSON text, a second time when the first
/// parse gives a string again; text that does not parse stays a string.
pub open spec fn parsed_response(srv: json::Json) -> json::Json {
    match srv.get("response"@) {
        None => json::Json::Null,
        Some(raw) => match raw {
            json::Json::Str(s) => match parse::decode(s) {
                Some(json::Json::Str(inner)) => match parse::decode(inner) {
                    Some(v) => v,
                    None => json::Json::Str(inner),
                },
                Some(p) => p,
                None => json::Json::Str(s),
            },
            _ => raw,
        },
    }
}

/// The stored response as raw text: a string as it is, any other value as
/// its compact JSON text, empty when absent.
pub open spec fn response_text_of(srv: json::Json) -> Seq<char> {
    match srv.get("response"@) {
        Some(json::Json::Str(s)) => s,
        Some(v) => serialize::json_text(v),
        None => Seq::empty(),
    }
}

/// A response that carries nothing: null, an empty array or object, or one
/// of the strings "", "null", "[]", "no result".
pub open spec fn is_empty_response(v: json::Json) -> bool {
    match v {
        json::Json::Null => true,
        json::Json::Str(s) => s.len() == 0 || s == "null"@ || s == "[]"@ || s == "no result"@,
        json::Json::Arr(a) => a.len() == 0,
        json::Json::Obj(o) => o.len() == 0,
        _ => false,
    }
}

/// Total number of `edits` over the elements of an array.
pub open spec fn edits_total(a: Seq<json::Json>) -> nat
    decreases a.len(),
{
    if a.len() == 0 {
        0
    } else {
        edits_total(a.drop_last()) + match json::opt_array(a.last().get("edits"@)) {
            Some(e) => e.len(),
            None => 0,
        }
    }
}

/// Total length of the array values of an object.
pub open spec fn values_total(m: Seq<(Seq<char>, json::Json)>) -> nat
    decreases m.len(),
{
    if m.len() == 0 {
        0
    } else {
        values_total(m.drop_last()) + match m.last().1.as_array() {
            Some(e) => e.len(),
            None => 0,
        }
    }
}

pub open spec fn check_mark() -> Seq<char> {
    seq!['\u{2713}']
}

pub open spec fn cross_mark() -> Seq<char> {
    seq!['\u{2717}']
}

/// Whether a server's result counts as correct: status "ok"; a null result
/// only for the workspace file operations; otherwise a non-empty response
/// without an `error` member; a rename with at least one edit; and no
/// empty array for definition, declaration and references.
pub open spec fn correct(bench: Seq<char>, srv: json::Json) -> bool {
    let response = parsed_response(srv);
    let method = text::spec_to_lowercase(bench);
    if str_member(srv, "status"@) != "ok"@ {
        false
    } else if response == json::Json::Null && response::allows_null_result(bench) {
        true
    } else if is_empty_response(response) {
        false
    } else if response.get("error"@) is Some {
        false
    } else if method == "textdocument/rename"@ && json::opt_array(response.get("documentChanges"@))
        is Some && edits_total(json::opt_array(response.get("documentChanges"@))->0) == 0 {
        false
    } else if method == "textdocument/rename"@ && json::opt_array(response.get("documentChanges"@))
        is None && json::opt_object(response.get("changes"@)) is Some && values_total(
        json::opt_object(response.get("changes"@))->0,
    ) == 0 {
        false
    } else if (text::contains(method, "definition"@) || text::contains(method, "declaration"@)
        || text::contains(method, "reference"@)) && response is Arr && response->Arr_0.len() == 0 {
        false
    } else {
        true
    }
}

/// The label of a server entry that did not succeed: timeout, crash,
/// unsupported, error, empty, fail, or a truncated error message. `None`
/// where truncating the message would split a character.
pub open spec fn error_label(srv: json::Json) -> Option<Seq<char>> {
    let err = json::opt_str(srv.get("error"@));
    let response = parsed_response(srv);
    let rerr = json::opt_str(response.get("error"@));
    let t = response_text_of(srv);
    if err is Some && text::contains(err->0, "timeout"@) {
        Some("timeout"@)
    } else if err is Some && (text::contains(err->0, "EOF"@) || text::contains(err->0, "broken pipe"@)) {
        Some("crash"@)
    } else if rerr is Some {
        let m = rerr->0;
        if text::contains(m, "Unhandled method"@) || text::contains(m, "Method not found"@)
            || text::contains(m, "Unknown method"@) || text::contains(m, "unsupported"@) {
            Some("unsupported"@)
        } else if text::contains(m, "Unhandled exception"@) || text::contains(m, "failed with"@) {
            Some("error"@)
        } else {
            render::truncate_spec(m, 40)
        }
    } else if text::contains(t, "Unknown method"@) || text::contains(t, "unsupported"@)
        || text::contains(t, "Method not found"@) || text::contains(t, "Unhandled method"@) {
        Some("unsupported"@)
    } else if t == "[]"@ || t == "null"@ || t.len() == 0 {
        Some("empty"@)
    } else if err is Some {
        render::truncate_spec(err->0, 40)
    } else {
        Some("fail"@)
    }
}

/// An error message names a method the server does not implement.
pub open spec fn unsupported_message(m: Seq<char>) -> bool {
    text::contains(m, "Unhandled method"@) || text::contains(m, "Method not found"@)
        || text::contains(m, "Unknown method"@) || text::contains(m, "unsupported"@)
}

/// The tag of a response in the session log and whether it has content.
pub open spec fn response_class(bench: Seq<char>, srv: json::Json) -> (Seq<char>, bool) {
    let response = parsed_response(srv);
    let method = text::spec_to_lowercase(bench);
    if str_member(srv, "status"@) != "ok"@ {
        match json::opt_str(response.get("error"@)) {
            Some(m) => if unsupported_message(m) {
                ("unsupported"@, false)
            } else {
                ("error"@, false)
            },
            None => ("error"@, false),
        }
    } else if response.get("error"@) is Some {
        ("error"@, false)
    } else if response == json::Json::Null {
        ("null"@, false)
    } else if is_empty_response(response) {
        ("empty"@, false)
    } else if (text::contains(method, "definition"@) || text::contains(method, "declaration"@)
        || text::contains(method, "reference"@)) && response is Arr && response->Arr_0.len() == 0 {
        ("empty"@, false)
    } else {
        ("content"@, true)
    }
}

/// The capability label of a server entry in the analysis report.
pub open spec fn status_label(srv: json::Json) -> Seq<char> {
    let status = str_member(srv, "status"@);
    let r = response_text_of(srv);
    let err = str_member(srv, "error"@);
    if status == "ok"@ && r != "null"@ && r != "[]"@ && r.len() != 0 {
        "ok"@
    } else if (status == "ok"@ || status == "invalid"@) && (text::contains(r, "Unknown method"@)
        || text::contains(r, "unsupported"@)) {
        "no"@
    } else if status == "ok"@ || status == "invalid"@ {
        "empty"@
    } else if text::contains(err, "timeout"@) {
        "timeout"@
    } else {
        "crash"@
    }
}

/// A stored response that carries something: a string other than "",
/// "null" and "no result", or a native JSON value other than null and an
/// empty array or object.
pub open spec fn carries_response(r: Option<json::Json>) -> bool {
    match r {
        Some(json::Json::Str(s)) => s != "null"@ && s != "no result"@ && s.len() != 0,
        Some(json::Json::Arr(a)) => a.len() > 0,
        Some(json::Json::Obj(m)) => m.len() > 0,
        Some(json::Json::Null) => false,
        Some(_) => true,
        None => false,
    }
}

/// A server entry with status "ok" whose response carries something (the
/// README ranking). Responses are stored as native JSON values, or as text.
pub open spec fn valid_result(srv: json::Json) -> bool {
    str_member(srv, "status"@) == "ok"@ && carries_response(srv.get("response"@))
}

/// The server names of the first benchmark entry, in order, skipping
/// entries without a string `server`.
pub open spec fn server_names_of(servers: Seq<json::Json>) -> Seq<Seq<char>>
    decreases servers.len(),
{
    if servers.len() == 0 {
        Seq::empty()
    } else {
        server_names_of(servers.drop_last()) + match json::opt_str(servers.last().get("server"@)) {
            Some(n) => seq![n],
            None => Seq::empty(),
        }
    }
}

// ---------------------------------------------------------------------------
// Implementation
// ---------------------------------------------------------------------------

/// Text of a string member, empty when absent or not a string.
pub fn str_member_exec(v: &JsonValue, key: &str) -> (r: String)
    ensures
        r@ == str_member(v@, key@),
{
    match v.get(key) {
        Some(x) => match x.as_str() {
            Some(s) => s.to_owned(),
            None => String::new(),
        },
        None => String::new(),
    }
}

/// Reads the stored response of a server entry as JSON.
pub fn parse_response(srv: &JsonValue) -> (r: JsonValue)
    ensures
        r@ == parsed_response(srv@),
{
    let raw = match srv.get("response") {
        Some(v) => v,
        None => {
            return JsonValue::Null;
        },
    };
    if !raw.is_string() {
        return raw.duplicate();
    }
    let s = match raw.as_str() {
        Some(t) => t,
        None => "",
    };
    match parse::decode_json(s) {
        Some(JsonValue::String(inner)) => match parse::decode_json(inner.as_str()) {
            Some(v) => v,
            None => JsonValue::String(inner),
        },
        Some(parsed) => parsed,
        None => JsonValue::from_str(s),
    }
}

/// The stored response as raw text.
pub fn response_text(srv: &JsonValue) -> (r: String)
    ensures
        r@ == response_text_of(srv@),
{
    match srv.get("response") {
        Some(JsonValue::String(s)) => s.clone(),
        Some(v) => serialize::to_json_string(v),
        None => String::new(),
    }
}

/// Whether a response carries nothing.
pub fn response_is_empty(v: &JsonValue) -> (r: bool)
    ensures
        r == is_empty_response(v@),
{
    match v {
        JsonValue::Null => true,
        JsonValue::String(s) => {
            s.as_str().is_empty() || json::str_eq(s.as_str(), "null") || json::str_eq(s.as_str(), "[]")
                || json::str_eq(s.as_str(), "no result")
        },
        JsonValue::Array(a) => a.len() == 0,
        JsonValue::Object(o) => o.len() == 0,
        _ => false,
    }
}

pub(crate) fn edits_total_exec(a: &Vec<JsonValue>) -> (r: u128)
    ensures
        r == edits_total(a@.map_values(|x: JsonValue| x@)),
{
    let ghost sa = a@.map_values(|x: JsonValue| x@);
    let mut total: u128 = 0;
    let mut i: usize = 0;
    assert(sa.subrange(0, 0) =~= Seq::<json::Json>::empty());
    while i < a.len()
        invariant
            i <= a@.len(),
            sa == a@.map_values(|x: JsonValue| x@),
            total == edits_total(sa.subrange(0, i as int)),
            total <= i * 0xffff_ffff_ffff_ffff,
        decreases a.len() - i,
    {
        let n: usize = match a[i].get("edits") {
            Some(e) => match e.as_array() {
                Some(arr) => arr.len(),
                None => 0,
            },
            None => 0,
        };
        assert(sa.subrange(0, i + 1).drop_last() =~= sa.subrange(0, i as int));
        assert(sa.subrange(0, i + 1).last() == a@[i as int]@);
        total = total + n as u128;
        i += 1;
    }
    assert(sa.subrange(0, a@.len() as int) =~= sa);
    total
}

pub(crate) fn values_total_exec(m: &Vec<(String, JsonValue)>) -> (r: u128)
    ensures
        r == values_total(m@.map_values(|x: (String, JsonValue)| (x.0@, x.1@))),
{
    let ghost sm = m@.map_values(|x: (String, JsonValue)| (x.0@, x.1@));
    let mut total: u128 = 0;
    let mut i: usize = 0;
    assert(sm.subrange(0, 0) =~= Seq::<(Seq<char>, json::Json)>::empty());
    while i < m.len()
        invariant
            i <= m@.len(),
            sm == m@.map_values(|x: (String, JsonValue)| (x.0@, x.1@)),
            total == values_total(sm.subrange(0, i as int)),
            total <= i * 0xffff_ffff_ffff_ffff,
        decreases m.len() - i,
    {
        let n: usize = match m[i].1.as_array() {
            Some(arr) => arr.len(),
            None => 0,
        };
        assert(sm.subrange(0, i + 1).drop_last() =~= sm.subrange(0, i as int));
        assert(sm.subrange(0, i + 1).last() == (m@[i as int].0@, m@[i as int].1@));
        total = total + n as u128;
        i += 1;
    }
    assert(sm.subrange(0, m@.len() as int) =~= sm);
    total
}

/// Whether a method name (lowercased) is a location lookup.
fn is_location_method(method: &str) -> (r: bool)
    ensures
        r == (text::contains(method@, "definition"@) || text::contains(method@, "declaration"@)
            || text::contains(method@, "reference"@)),
{
    text::str_contains(method, "definition") || text::str_contains(method, "declaration")
        || text::str_contains(method, "reference")
}

/// "✓" when the server's result counts as correct, else "✗".
pub fn check_correctness(bench_name: &str, srv: &JsonValue) -> (r: String)
    ensures
        r@ == (if correct(bench_name@, srv@) {
            check_mark()
        } else {
            cross_mark()
        }),
{
    let ok = is_correct(bench_name, srv);
    let mut r = String::new();
    text::push_char(&mut r, if ok { '\u{2713}' } else { '\u{2717}' });
    assert(r@ =~= (if ok { check_mark() } else { cross_mark() }));
    r
}

/// Whether the server's result counts as correct.
pub fn is_correct(bench_name: &str, srv: &JsonValue) -> (r: bool)
    ensures
        r == correct(bench_name@, srv@),
{
    let status = str_member_exec(srv, "status");
    if !json::str_eq(status.as_str(), "ok") {
        return false;
    }
    let response = parse_response(srv);
    if response.is_null() && response::method_allows_null_result(bench_name) {
        return true;
    }
    if response_is_empty(&response) {
        return false;
    }
    if response.get("error").is_some() {
        return false;
    }
    let method = text::to_lowercase(bench_name);
    if json::str_eq(method.as_str(), "textdocument/rename") {
        let dc = match response.get("documentChanges") {
            Some(x) => x.as_array(),
            None => None,
        };
        match dc {
            Some(changes) => {
                if edits_total_exec(changes) == 0 {
                    return false;
                }
            },
            None => {
                let ch = match response.get("changes") {
                    Some(x) => x.as_object(),
                    None => None,
                };
                if let Some(obj) = ch {
                    if values_total_exec(obj) == 0 {
                        return false;
                    }
                }
            },
        }
    }
    if is_location_method(method.as_str()) {
        if let Some(a) = response.as_array() {
            if a.len() == 0 {
                return false;
            }
        }
    }
    true
}

fn unsupported_message_exec(m: &str) -> (r: bool)
    ensures
        r == unsupported_message(m@),
{
    text::str_contains(m, "Unhandled method") || text::str_contains(m, "Method not found")
        || text::str_contains(m, "Unknown method") || text::str_contains(m, "unsupported")
}

pub(crate) fn error_label_opt(srv: &JsonValue) -> (r: Option<String>)
    ensures
        text::opt_view(r) == error_label(srv@),
{
    let err: Option<&str> = match srv.get("error") {
        Some(x) => x.as_str(),
        None => None,
    };
    if let Some(e) = err {
        if text::str_contains(e, "timeout") {
            return Some("timeout".to_owned());
        }
        if text::str_contains(e, "EOF") || text::str_contains(e, "broken pipe") {
            return Some("crash".to_owned());
        }
    }
    let response = parse_response(srv);
    let rerr: Option<&str> = match response.get("error") {
        Some(x) => x.as_str(),
        None => None,
    };
    if let Some(m) = rerr {
        if unsupported_message_exec(m) {
            return Some("unsupported".to_owned());
        }
        if text::str_contains(m, "Unhandled exception") || text::str_contains(m, "failed with") {
            return Some("error".to_owned());
        }
        return render::try_truncate(m, 40);
    }
    let t = response_text(srv);
    if text::str_contains(t.as_str(), "Unknown method") || text::str_contains(t.as_str(), "unsupported")
        || text::str_contains(t.as_str(), "Method not found") || text::str_contains(
        t.as_str(),
        "Unhandled method",
    ) {
        return Some("unsupported".to_owned());
    }
    if json::str_eq(t.as_str(), "[]") || json::str_eq(t.as_str(), "null") || t.as_str().is_empty() {
        proof {
            reveal_strlit("");
        }
        return Some("empty".to_owned());
    }
    if let Some(e) = err {
        return render::try_truncate(e, 40);
    }
    Some("fail".to_owned())
}

/// A clean label for a server entry that failed or was invalid: timeout,
/// crash, unsupported, error, empty, fail, or the error message cut to 40
/// bytes.
pub fn classify_error_result(srv: &JsonValue) -> (r: String)
    requires
        error_label(srv@) is Some,
    ensures
        r@ == error_label(srv@)->0,
{
    match error_label_opt(srv) {
        Some(l) => l,
        None => String::new(),
    }
}

/// Checked form of `classify_error_result`: `None` where cutting the error
/// message at 40 bytes would split a character.
pub fn try_classify_error_result(srv: &JsonValue) -> (r: Option<String>)
    ensures
        text::opt_view(r) == error_label(srv@),
{
    if error_label_opt(srv).is_some() {
        Some(classify_error_result(srv))
    } else {
        None
    }
}

/// The tag of a response for the session log and whether it has content.
pub fn classify_response(bench_name: &str, srv: &JsonValue) -> (r: (String, bool))
    ensures
        (r.0@, r.1) == response_class(bench_name@, srv@),
{
    let status = str_member_exec(srv, "status");
    let response = parse_response(srv);
    if !json::str_eq(status.as_str(), "ok") {
        let rerr: Option<&str> = match response.get("error") {
            Some(x) => x.as_str(),
            None => None,
        };
        return match rerr {
            Some(m) => if unsupported_message_exec(m) {
                ("unsupported".to_owned(), false)
            } else {
                ("error".to_owned(), false)
            },
            None => ("error".to_owned(), false),
        };
    }
    if response.get("error").is_some() {
        return ("error".to_owned(), false);
    }
    if response.is_null() {
        return ("null".to_owned(), false);
    }
    if response_is_empty(&response) {
        return ("empty".to_owned(), false);
    }
    let method = text::to_lowercase(bench_name);
    if is_location_method(method.as_str()) {
        if let Some(a) = response.as_array() {
            if a.len() == 0 {
                return ("empty".to_owned(), false);
            }
        }
    }
    ("content".to_owned(), true)
}

/// The analysis report's label for a server entry: ok, no, empty, timeout
/// or crash.
pub fn server_status_label(srv: &JsonValue) -> (r: String)
    ensures
        r@ == status_label(srv@),
{
    let status = str_member_exec(srv, "status");
    let r = response_text(srv);
    let err = str_member_exec(srv, "error");
    let is_ok = json::str_eq(status.as_str(), "ok");
    let is_invalid = json::str_eq(status.as_str(), "invalid");
    if is_ok && !json::str_eq(r.as_str(), "null") && !json::str_eq(r.as_str(), "[]") && !r.as_str().is_empty() {
        proof {
            reveal_strlit("");
        }
        "ok".to_owned()
    } else if (is_ok || is_invalid) && (text::str_contains(r.as_str(), "Unknown method")
        || text::str_contains(r.as_str(), "unsupported")) {
        "no".to_owned()
    } else if is_ok || is_invalid {
        "empty".to_owned()
    } else if text::str_contains(err.as_str(), "timeout") {
        "timeout".to_owned()
    } else {
        "crash".to_owned()
    }
}

/// Whether a server entry counts in the README ranking.
pub fn is_valid_result(srv: &JsonValue) -> (r: bool)
    ensures
        r == valid_result(srv@),
{
    let status = str_member_exec(srv, "status");
    if !json::str_eq(status.as_str(), "ok") {
        return false;
    }
    match srv.get("response") {
        Some(JsonValue::String(s)) => {
            !json::str_eq(s.as_str(), "null") && !json::str_eq(s.as_str(), "no result") && chars_of(
                s.as_str(),
            ).len() > 0
        },
        Some(JsonValue::Array(a)) => a.len() > 0,
        Some(JsonValue::Object(m)) => m.len() > 0,
        Some(JsonValue::Null) => false,
        Some(_) => true,
        None => false,
    }
}

/// The server names listed in the first benchmark entry.
pub fn collect_server_names(benchmarks: &Vec<JsonValue>) -> (r: Vec<String>)
    requires
        benchmarks@.len() > 0,
    ensures
        r@.map_values(|s: String| s@) == (match json::opt_array(benchmarks@[0]@.get("servers"@)) {
            Some(a) => server_names_of(a),
            None => Seq::empty(),
        }),
{
    let mut out: Vec<String> = Vec::new();
    let servers = match benchmarks[0].get("servers") {
        Some(x) => x.as_array(),
        None => None,
    };
    match servers {
        Some(arr) => {
            let ghost sa = arr@.map_values(|x: JsonValue| x@);
            let mut i: usize = 0;
            assert(sa.subrange(0, 0) =~= Seq::<json::Json>::empty());
            assert(out@.map_values(|s: String| s@) =~= Seq::<Seq<char>>::empty());
            while i < arr.len()
                invariant
                    i <= arr@.len(),
                    sa == arr@.map_values(|x: JsonValue| x@),
                    out@.map_values(|s: String| s@) == server_names_of(sa.subrange(0, i as int)),
                decreases arr.len() - i,
            {
                let ghost before = out@.map_values(|s: String| s@);
                assert(sa.subrange(0, i + 1).drop_last() =~= sa.subrange(0, i as int));
                assert(sa.subrange(0, i + 1).last() == arr@[i as int]@);
                let name: Option<&str> = match arr[i].get("server") {
                    Some(x) => x.as_str(),
                    None => None,
                };
                if let Some(n) = name {
                    out.push(n.to_owned());
                    assert(out@.map_values(|s: String| s@) =~= before + seq![n@]);
                } else {
                    assert(before + Seq::<Seq<char>>::empty() =~= before);
                }
                i += 1;
            }
            assert(sa.subrange(0, arr@.len() as int) =~= sa);
            out
        },
        None => {
            assert(out@.map_values(|s: String| s@) =~= Seq::<Seq<char>>::empty());
            out
        },
    }
}

} // verus!
