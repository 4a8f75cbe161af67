//! Deciding whether an LSP response counts as a result, and what is kept of it.
use vstd::prelude::*;
use crate::json::{self, JsonValue};
use crate::serialize;
use crate::text::{self, chars_of};

verus! {

/// Methods whose LSP result may legitimately be `null`.
pub open spec fn allows_null_result(method: Seq<char>) -> bool {
    method == "workspace/willCreateFiles"@ || method == "workspace/willDeleteFiles"@
        || method == "workspace/willRenameFiles"@
}

/// Whether the workspace file-operation `method` may answer `null`.
pub fn method_allows_null_result(method: &str) -> (r: bool)
    ensures
        r == allows_null_result(method@),
{
    json::str_eq(method, "workspace/willCreateFiles") || json::str_eq(method, "workspace/willDeleteFiles")
        || json::str_eq(method, "workspace/willRenameFiles")
}

/// A response envelope holds a usable result for `method`: no `error`
/// member; a `result` member that is not `null` (unless the method allows
/// it), not an empty array, and not a completion list with no items.
pub open spec fn valid_response_for_method(method: Seq<char>, resp: json::Json) -> bool {
    if resp.get("error"@) is Some {
        false
    } else {
        match resp.get("result"@) {
            None => false,
            Some(r) => if r == json::Json::Null {
                allows_null_result(method)
            } else if r is Arr {
                r->Arr_0.len() > 0
            } else if json::opt_array(r.get("items"@)) is Some {
                json::opt_array(r.get("items"@))->0.len() > 0
            } else {
                true
            },
        }
    }
}

/// Whether a response envelope holds a usable result for `method`.
pub fn is_valid_response_for_method(method: &str, resp: &JsonValue) -> (r: bool)
    ensures
        r == valid_response_for_method(method@, resp@),
{
    if resp.get("error").is_some() {
        return false;
    }
    match resp.get("result") {
        None => false,
        Some(r) => {
            if r.is_null() {
                return method_allows_null_result(method);
            }
            if let Some(arr) = r.as_array() {
                return arr.len() > 0;
            }
            if let Some(items) = r.get("items") {
                if let Some(a) = items.as_array() {
                    return a.len() > 0;
                }
            }
            true
        },
    }
}

/// `is_valid_response_for_method` for a method with no special rules.
pub fn is_valid_response(resp: &JsonValue) -> (r: bool)
    ensures
        r == valid_response_for_method(Seq::empty(), resp@),
{
    let r = is_valid_response_for_method("", resp);
    proof {
        assert(""@ =~= Seq::<char>::empty()) by {
            reveal_strlit("");
        }
    }
    r
}

/// What is recorded of a response envelope: `{"error": message}` for an
/// error (message "unknown" when absent), else the `result` (or, for a
/// notification, its `params`), else `null`.
pub open spec fn summary_of(resp: json::Json) -> json::Json {
    match resp.get("error"@) {
        Some(err) => json::Json::Obj(
            seq![
                (
                    "error"@,
                    json::Json::Str(
                        match json::opt_str(err.get("message"@)) {
                            Some(m) => m,
                            None => "unknown"@,
                        },
                    ),
                ),
            ],
        ),
        None => match json::or_else(resp.get("result"@), resp.get("params"@)) {
            Some(r) => r,
            None => json::Json::Null,
        },
    }
}

/// The text a stored result is measured by: a string's own characters,
/// else the result's compact JSON text.
pub open spec fn stored_text(r: json::Json) -> Seq<char> {
    match r {
        json::Json::Str(s) => s,
        _ => serialize::json_text(r),
    }
}

/// A result cut to `max` characters (0 keeps it whole): a result whose text
/// is longer is stored as a string of its first `max` characters followed
/// by `...`.
pub open spec fn bounded(r: json::Json, max: nat) -> json::Json {
    if max == 0 || stored_text(r).len() <= max {
        r
    } else {
        json::Json::Str(stored_text(r).take(max as int) + "..."@)
    }
}

/// What is stored of a response under the `response` setting `max` (0 for
/// the full response): an error as `{"error": message}`, else the result
/// cut to `max` characters.
pub open spec fn stored_summary(resp: json::Json, max: nat) -> json::Json {
    match resp.get("error"@) {
        Some(_) => summary_of(resp),
        None => bounded(summary_of(resp), max),
    }
}

/// The part of a response that is stored in the results, its result cut to
/// `max_chars` characters (0 stores it whole).
pub fn response_summary(resp: &JsonValue, max_chars: usize) -> (r: JsonValue)
    ensures
        r@ == stored_summary(resp@, max_chars as nat),
{
    let s = summary_value(resp);
    if resp.get("error").is_some() || max_chars == 0 {
        return s;
    }
    let t: Vec<char> = match &s {
        JsonValue::String(x) => chars_of(x.as_str()),
        _ => chars_of(serialize::to_json_string(&s).as_str()),
    };
    assert(t@ == stored_text(s@));
    if t.len() <= max_chars {
        s
    } else {
        let mut cut = text::slice_of(t.as_slice(), 0, max_chars);
        text::extend_str(&mut cut, "...");
        assert(t@.subrange(0, max_chars as int) =~= t@.take(max_chars as int));
        JsonValue::String(text::string_of(cut.as_slice()))
    }
}

/// What is recorded of a response envelope, uncut.
fn summary_value(resp: &JsonValue) -> (r: JsonValue)
    ensures
        r@ == summary_of(resp@),
{
    if let Some(err) = resp.get("error") {
        let msg = match err.get("message") {
            Some(m) => match m.as_str() {
                Some(t) => t.to_owned(),
                None => "unknown".to_owned(),
            },
            None => "unknown".to_owned(),
        };
        let ghost expected = match json::opt_str(err@.get("message"@)) {
            Some(m) => m,
            None => "unknown"@,
        };
        assert(msg@ == expected);
        let key = "error".to_owned();
        let mut members: Vec<(String, JsonValue)> = Vec::new();
        members.push((key, JsonValue::String(msg)));
        assert(members@[0].0@ == "error"@);
        assert(members@[0].1@ == json::Json::Str(expected));
        let r = JsonValue::Object(members);
        assert(r@->Obj_0.len() == 1);
        assert(r@->Obj_0[0] == ("error"@, json::Json::Str(expected)));
        assert(r@->Obj_0 =~= summary_of(resp@)->Obj_0);
        r
    } else {
        let found = match resp.get("result") {
            Some(x) => Some(x),
            None => resp.get("params"),
        };
        match found {
            Some(x) => x.duplicate(),
            None => JsonValue::Null,
        }
    }
}

} // verus!
