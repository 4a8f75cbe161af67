//! Expected results for `--verify` mode and the check of a response against them.
use vstd::prelude::*;
use crate::json::{self, JsonValue};
use crate::text::{self, chars_of, extend, extend_str};

verus! {

/// Expected properties of one completion item.
#[derive(Debug, Clone, Default)]
pub struct CompletionItemExpect {
    /// Expected label.
    pub label: Option<String>,
    /// Substring that must appear in the item's detail.
    pub detail_contains: Option<String>,
    /// Prefix that the item's sortText must start with.
    pub sort_text_prefix: Option<String>,
    /// Whether the item must (or must not) carry additionalTextEdits.
    pub has_additional_text_edits: Option<bool>,
    /// Substring that must appear in the newText of one additionalTextEdit.
    pub additional_text_edits_contain: Option<String>,
}

/// Expected properties of a response.
#[derive(Debug, Clone, Default)]
pub struct ExpectConfig {
    /// Suffix that the location's URI must end with.
    pub file: Option<String>,
    /// Expected 0-based start line of the location.
    pub line: Option<u32>,
    /// Expected exact array length.
    pub count: Option<usize>,
    /// Expected minimum array length.
    pub min_count: Option<usize>,
    /// Completion items that must be present.
    pub contains_items: Vec<CompletionItemExpect>,
    /// Completion items that must be absent.
    pub absent_items: Vec<CompletionItemExpect>,
}

pub ghost struct ItemExpect {
    pub label: Option<Seq<char>>,
    pub detail_contains: Option<Seq<char>>,
    pub sort_text_prefix: Option<Seq<char>>,
    pub has_additional_text_edits: Option<bool>,
    pub additional_text_edits_contain: Option<Seq<char>>,
}

pub ghost struct Expect {
    pub file: Option<Seq<char>>,
    pub line: Option<u32>,
    pub count: Option<usize>,
    pub min_count: Option<usize>,
    pub contains_items: Seq<ItemExpect>,
    pub absent_items: Seq<ItemExpect>,
}

impl View for CompletionItemExpect {
    type V = ItemExpect;

    open spec fn view(&self) -> ItemExpect {
        ItemExpect {
            label: text::opt_view(self.label),
            detail_contains: text::opt_view(self.detail_contains),
            sort_text_prefix: text::opt_view(self.sort_text_prefix),
            has_additional_text_edits: self.has_additional_text_edits,
            additional_text_edits_contain: text::opt_view(self.additional_text_edits_contain),
        }
    }
}

impl View for ExpectConfig {
    type V = Expect;

    open spec fn view(&self) -> Expect {
        Expect {
            file: text::opt_view(self.file),
            line: self.line,
            count: self.count,
            min_count: self.min_count,
            contains_items: self.contains_items@.map_values(|e: CompletionItemExpect| e@),
            absent_items: self.absent_items@.map_values(|e: CompletionItemExpect| e@),
        }
    }
}

// ---------------------------------------------------------------------------
// Specification
// ---------------------------------------------------------------------------

/// The result carried by a response envelope: `result`, else `params`,
/// else the value itself.
pub open spec fn result_of(resp: json::Json) -> json::Json {
    match json::or_else(resp.get("result"@), resp.get("params"@)) {
        Some(r) => r,
        None => resp,
    }
}

/// The location a result designates: the first element of an array, or the
/// result itself; an empty array and `null` have none.
pub open spec fn location_of(result: json::Json) -> Result<json::Json, Seq<char>> {
    match result {
        json::Json::Arr(a) => if a.len() == 0 {
            Err("response is empty array"@)
        } else {
            Ok(a[0])
        },
        json::Json::Null => Err("response is null"@),
        _ => Ok(result),
    }
}

/// The URI of a Location or LocationLink (empty when absent).
pub open spec fn uri_of(loc: json::Json) -> Seq<char> {
    match json::opt_str(json::or_else(loc.get("targetUri"@), loc.get("uri"@))) {
        Some(u) => u,
        None => Seq::empty(),
    }
}

/// The start line of a Location or LocationLink.
pub open spec fn start_line_of(loc: json::Json) -> Option<u64> {
    json::opt_u64(
        json::Json::opt_get(
            json::Json::opt_get(json::or_else(loc.get("targetRange"@), loc.get("range"@)), "start"@),
            "line"@,
        ),
    )
}

/// The length of an array result, 0 for any other result.
pub open spec fn array_len(result: json::Json) -> nat {
    match result {
        json::Json::Arr(a) => a.len(),
        _ => 0,
    }
}

/// The completion items of a result: its `items` array, or the result
/// itself when it is an array.
pub open spec fn completion_items_of(result: json::Json) -> Seq<json::Json> {
    match json::opt_array(result.get("items"@)) {
        Some(a) => a,
        None => match result {
            json::Json::Arr(a) => a,
            _ => Seq::empty(),
        },
    }
}

/// The additionalTextEdits member of a completion item (either spelling).
pub open spec fn additional_edits_of(item: json::Json) -> Option<json::Json> {
    json::or_else(item.get("additionalTextEdits"@), item.get("additional_text_edits"@))
}

/// An edit whose newText contains `needle`.
pub open spec fn edit_has_text(e: json::Json, needle: Seq<char>) -> bool {
    match json::opt_str(e.get("newText"@)) {
        Some(t) => text::contains(t, needle),
        None => false,
    }
}

/// A completion item satisfies every property that the expectation sets.
pub open spec fn item_matches(item: json::Json, e: ItemExpect) -> bool {
    &&& (e.label matches Some(l) ==> json::opt_str(item.get("label"@)) == Some(l))
    &&& (e.detail_contains matches Some(d) ==> text::contains(
        match json::opt_str(item.get("detail"@)) {
            Some(t) => t,
            None => Seq::empty(),
        },
        d,
    ))
    &&& (e.sort_text_prefix matches Some(p) ==> text::starts_with(
        match json::opt_str(item.get("sortText"@)) {
            Some(t) => t,
            None => Seq::empty(),
        },
        p,
    ))
    &&& (e.has_additional_text_edits matches Some(b) ==> b == (match additional_edits_of(item) {
        Some(v) => v != json::Json::Null,
        None => false,
    }))
    &&& (e.additional_text_edits_contain matches Some(n) ==> (match json::opt_array(
        additional_edits_of(item),
    ) {
        Some(arr) => exists|k: int| 0 <= k < arr.len() && edit_has_text(arr[k], n),
        None => false,
    }))
}

/// Some item in `items` satisfies the expectation.
pub open spec fn any_match(items: Seq<json::Json>, e: ItemExpect) -> bool {
    exists|k: int| 0 <= k < items.len() && item_matches(items[k], e)
}

/// `name=value` when the value is present.
pub open spec fn part(name: Seq<char>, v: Option<Seq<char>>) -> Seq<Seq<char>> {
    match v {
        Some(t) => seq![name + t],
        None => Seq::empty(),
    }
}

/// The rendering of a boolean.
pub open spec fn bool_text(b: bool) -> Seq<char> {
    if b {
        "true"@
    } else {
        "false"@
    }
}

/// The `name=value` parts of an item expectation, in field order.
pub open spec fn item_parts(e: ItemExpect) -> Seq<Seq<char>> {
    part("label="@, e.label) + part("detailContains="@, e.detail_contains) + part(
        "sortTextPrefix="@,
        e.sort_text_prefix,
    ) + part(
        "hasAdditionalTextEdits="@,
        match e.has_additional_text_edits {
            Some(b) => Some(bool_text(b)),
            None => None,
        },
    ) + part("additionalTextEditsContain="@, e.additional_text_edits_contain)
}

/// `{label=.., detailContains=..}`; `{}` when nothing is set.
pub open spec fn item_text(e: ItemExpect) -> Seq<char> {
    if item_parts(e).len() == 0 {
        "{}"@
    } else {
        "{"@ + text::join(item_parts(e), ", "@) + "}"@
    }
}

/// The first expected item that no completion item satisfies is reported.
pub open spec fn check_contains(items: Seq<json::Json>, cs: Seq<ItemExpect>) -> Result<(), Seq<char>>
    decreases cs.len(),
{
    if cs.len() == 0 {
        Ok(())
    } else if !any_match(items, cs[0]) {
        Err("containsItems: no completion item matched "@ + item_text(cs[0]))
    } else {
        check_contains(items, cs.drop_first())
    }
}

/// The first forbidden item that some completion item satisfies is reported.
pub open spec fn check_absent(items: Seq<json::Json>, cs: Seq<ItemExpect>) -> Result<(), Seq<char>>
    decreases cs.len(),
{
    if cs.len() == 0 {
        Ok(())
    } else if any_match(items, cs[0]) {
        Err("absentItems: found unexpected completion item matching "@ + item_text(cs[0]))
    } else {
        check_absent(items, cs.drop_first())
    }
}

pub open spec fn check_file(loc: json::Json, e: Expect) -> Result<(), Seq<char>> {
    match e.file {
        Some(f) => if text::ends_with(uri_of(loc), f) {
            Ok(())
        } else {
            Err(
                "file: expected \""@ + f + "\" but got \""@ + text::after_last(uri_of(loc), '/')
                    + "\""@,
            )
        },
        None => Ok(()),
    }
}

pub open spec fn check_line(loc: json::Json, e: Expect) -> Result<(), Seq<char>> {
    match e.line {
        Some(want) => match start_line_of(loc) {
            Some(l) => if l == want {
                Ok(())
            } else {
                Err("line: expected "@ + text::dec(want as nat) + " but got "@ + text::dec(l as nat))
            },
            None => Err("line: expected "@ + text::dec(want as nat) + " but response has no range"@),
        },
        None => Ok(()),
    }
}

pub open spec fn check_counts(result: json::Json, e: Expect) -> Result<(), Seq<char>> {
    if e.count matches Some(c) && array_len(result) != c {
        Err(
            "count: expected "@ + text::dec(e.count->0 as nat) + " but got "@ + text::dec(
                array_len(result),
            ),
        )
    } else if e.min_count matches Some(m) && array_len(result) < m {
        Err(
            "minCount: expected >= "@ + text::dec(e.min_count->0 as nat) + " but got "@ + text::dec(
                array_len(result),
            ),
        )
    } else {
        Ok(())
    }
}

pub open spec fn check_items(result: json::Json, e: Expect) -> Result<(), Seq<char>> {
    if e.contains_items.len() == 0 && e.absent_items.len() == 0 {
        Ok(())
    } else if completion_items_of(result).len() == 0 {
        Err("containsItems/absentItems: response has no completion items"@)
    } else {
        match check_contains(completion_items_of(result), e.contains_items) {
            Err(m) => Err(m),
            Ok(_) => check_absent(completion_items_of(result), e.absent_items),
        }
    }
}

/// The location checks: a null result is always rejected; where a file or a
/// line is expected, the result must designate a location whose file and
/// line are the expected ones; with neither expected there is nothing more
/// to check.
pub open spec fn check_location(result: json::Json, e: Expect) -> Result<(), Seq<char>> {
    if result is Null {
        Err("response is null"@)
    } else if e.file is None && e.line is None {
        Ok(())
    } else {
        match location_of(result) {
            Err(m) => Err(m),
            Ok(loc) => match check_file(loc, e) {
                Err(m) => Err(m),
                Ok(_) => check_line(loc, e),
            },
        }
    }
}

/// The outcome of checking a response against an expectation: the checks
/// run in the order null result, location (file, line), count, minCount,
/// items, and the first failing one gives the message. `count` and
/// `minCount` compare the length of the result array, so an empty array
/// meets `count: 0`.
pub open spec fn expectation_outcome(resp: json::Json, e: Expect) -> Result<(), Seq<char>> {
    match check_location(result_of(resp), e) {
        Err(m) => Err(m),
        Ok(_) => match check_counts(result_of(resp), e) {
            Err(m) => Err(m),
            Ok(_) => check_items(result_of(resp), e),
        },
    }
}

/// The text of an outcome message.
pub open spec fn outcome_text(r: Result<(), String>) -> Result<(), Seq<char>> {
    match r {
        Ok(_) => Ok(()),
        Err(m) => Err(m@),
    }
}

// ---------------------------------------------------------------------------
// Implementation
// ---------------------------------------------------------------------------

fn opt_str_or_empty(v: Option<&JsonValue>) -> (r: Vec<char>)
    ensures
        r@ == (match v {
            Some(j) => match j@.as_str() {
                Some(t) => t,
                None => Seq::empty(),
            },
            None => Seq::empty(),
        }),
{
    match v {
        Some(j) => match j.as_str() {
            Some(t) => chars_of(t),
            None => Vec::new(),
        },
        None => Vec::new(),
    }
}

fn or_else_get<'a>(v: &'a JsonValue, a: &str, b: &str) -> (r: Option<&'a JsonValue>)
    ensures
        match r {
            Some(x) => json::or_else(v@.get(a@), v@.get(b@)) == Some(x@),
            None => json::or_else(v@.get(a@), v@.get(b@)) is None,
        },
{
    match v.get(a) {
        Some(x) => Some(x),
        None => v.get(b),
    }
}

/// Whether a completion item satisfies an item expectation.
pub fn completion_item_matches(item: &JsonValue, expect: &CompletionItemExpect) -> (r: bool)
    ensures
        r == item_matches(item@, expect@),
{
    if let Some(label) = &expect.label {
        let ok = match item.get("label") {
            Some(l) => match l.as_str() {
                Some(t) => json::str_eq(t, label.as_str()),
                None => false,
            },
            None => false,
        };
        if !ok {
            return false;
        }
    }
    if let Some(d) = &expect.detail_contains {
        let detail = opt_str_or_empty(item.get("detail"));
        let needle = chars_of(d.as_str());
        if !text::contains_exec(detail.as_slice(), needle.as_slice()) {
            return false;
        }
    }
    if let Some(p) = &expect.sort_text_prefix {
        let st = opt_str_or_empty(item.get("sortText"));
        let pre = chars_of(p.as_str());
        if !text::starts_with_exec(st.as_slice(), pre.as_slice()) {
            return false;
        }
    }
    if let Some(want) = expect.has_additional_text_edits {
        let has = match or_else_get(item, "additionalTextEdits", "additional_text_edits") {
            Some(v) => !v.is_null(),
            None => false,
        };
        if has != want {
            return false;
        }
    }
    if let Some(needle) = &expect.additional_text_edits_contain {
        let found = match or_else_get(item, "additionalTextEdits", "additional_text_edits") {
            Some(v) => match v.as_array() {
                Some(arr) => {
                    let ghost sarr = arr@.map_values(|x: JsonValue| x@);
                    let mut k: usize = 0;
                    let mut hit = false;
                    while k < arr.len() && !hit
                        invariant
                            k <= arr@.len(),
                            sarr == arr@.map_values(|x: JsonValue| x@),
                            hit ==> exists|j: int| 0 <= j < k && edit_has_text(#[trigger] sarr[j], needle@),
                            !hit ==> forall|j: int| 0 <= j < k ==> !edit_has_text(#[trigger] sarr[j], needle@),
                        decreases arr.len() - k,
                    {
                        let t = opt_str_or_empty(arr[k].get("newText"));
                        let is_str = match arr[k].get("newText") {
                            Some(x) => x.as_str().is_some(),
                            None => false,
                        };
                        let nd = chars_of(needle.as_str());
                        if is_str && text::contains_exec(t.as_slice(), nd.as_slice()) {
                            hit = true;
                            assert(edit_has_text(sarr[k as int], needle@));
                        } else {
                            assert(!edit_has_text(sarr[k as int], needle@));
                        }
                        k += 1;
                    }
                    hit
                },
                None => false,
            },
            None => false,
        };
        if !found {
            return false;
        }
    }
    true
}

fn push_part(parts: &mut Vec<Vec<char>>, name: &str, v: &Option<String>)
    ensures
        final(parts)@.map_values(|p: Vec<char>| p@) == old(parts)@.map_values(|p: Vec<char>| p@)
            + part(name@, text::opt_view(*v)),
{
    if let Some(t) = v {
        let mut p: Vec<char> = chars_of(name);
        extend_str(&mut p, t.as_str());
        parts.push(p);
        assert(final(parts)@.map_values(|p: Vec<char>| p@) =~= old(parts)@.map_values(|p: Vec<char>| p@) + part(name@, text::opt_view(*v)));
    } else {
        assert(old(parts)@.map_values(|p: Vec<char>| p@) + part(name@, text::opt_view(*v)) =~= old(parts)@.map_values(|p: Vec<char>| p@));
    }
}

/// `{label=.., detailContains=.., ..}` listing the properties that are set.
pub fn completion_item_expect_to_string(expect: &CompletionItemExpect) -> (r: String)
    ensures
        r@ == item_text(expect@),
{
    let mut parts: Vec<Vec<char>> = Vec::new();
    assert(parts@.map_values(|p: Vec<char>| p@) =~= Seq::<Seq<char>>::empty());
    push_part(&mut parts, "label=", &expect.label);
    push_part(&mut parts, "detailContains=", &expect.detail_contains);
    push_part(&mut parts, "sortTextPrefix=", &expect.sort_text_prefix);
    let b = match expect.has_additional_text_edits {
        Some(true) => Some("true".to_owned()),
        Some(false) => Some("false".to_owned()),
        None => None,
    };
    push_part(&mut parts, "hasAdditionalTextEdits=", &b);
    push_part(&mut parts, "additionalTextEditsContain=", &expect.additional_text_edits_contain);
    assert(parts@.map_values(|p: Vec<char>| p@) =~= item_parts(expect@));
    if parts.len() == 0 {
        "{}".to_owned()
    } else {
        let sep = chars_of(", ");
        let body = text::join_exec(&parts, sep.as_slice());
        let mut r = chars_of("{");
        extend(&mut r, body.as_slice());
        extend_str(&mut r, "}");
        text::string_of(r.as_slice())
    }
}


/// Whether some completion item satisfies the expectation.
fn any_item_matches(items: &Vec<&JsonValue>, e: &CompletionItemExpect) -> (r: bool)
    ensures
        r == any_match(items@.map_values(|x: &JsonValue| x@), e@),
{
    let ghost s = items@.map_values(|x: &JsonValue| x@);
    let mut k: usize = 0;
    let mut hit = false;
    while k < items.len() && !hit
        invariant
            k <= items@.len(),
            s == items@.map_values(|x: &JsonValue| x@),
            hit ==> exists|j: int| 0 <= j < k && item_matches(#[trigger] s[j], e@),
            !hit ==> forall|j: int| 0 <= j < k ==> !item_matches(#[trigger] s[j], e@),
        decreases items.len() - k,
    {
        if completion_item_matches(items[k], e) {
            hit = true;
        }
        assert(s[k as int] == items@[k as int]@);
        k += 1;
    }
    hit
}

fn message1(prefix: &str, v: &[char]) -> (r: String)
    ensures
        r@ == prefix@ + v@,
{
    let mut m = chars_of(prefix);
    extend(&mut m, v);
    text::string_of(m.as_slice())
}

fn message(prefix: &str, v: &[char], suffix: &str) -> (r: String)
    ensures
        r@ == prefix@ + v@ + suffix@,
{
    let mut m = chars_of(prefix);
    extend(&mut m, v);
    extend_str(&mut m, suffix);
    text::string_of(m.as_slice())
}

fn message2(a: &str, x: &[char], b: &str, y: &[char]) -> (r: String)
    ensures
        r@ == a@ + x@ + b@ + y@,
{
    let mut m = chars_of(a);
    extend(&mut m, x);
    extend_str(&mut m, b);
    extend(&mut m, y);
    text::string_of(m.as_slice())
}

/// The location checks of an expectation on a result.
fn check_location_exec(result: &JsonValue, expect: &ExpectConfig) -> (r: Result<(), String>)
    ensures
        outcome_text(r) == check_location(result@, expect@),
{
    if result.is_null() {
        return Err("response is null".to_owned());
    }
    if expect.file.is_none() && expect.line.is_none() {
        return Ok(());
    }
    let location: &JsonValue = match result {
        JsonValue::Array(arr) => {
            if arr.len() == 0 {
                return Err("response is empty array".to_owned());
            }
            proof {
                result.lemma_array_view(arr, 0);
            }
            &arr[0]
        },
        JsonValue::Null => {
            return Err("response is null".to_owned());
        },
        _ => result,
    };
    assert(location_of(result@) == Ok::<json::Json, Seq<char>>(location@));
    // file
    if let Some(expected_file) = &expect.file {
        let uri = opt_str_or_empty(or_else_get(location, "targetUri", "uri"));
        assert(uri@ == uri_of(location@));
        let want = chars_of(expected_file.as_str());
        if !text::ends_with_exec(uri.as_slice(), want.as_slice()) {
            let got = text::after_last_exec(uri.as_slice(), '/');
            let mut m = chars_of("file: expected \"");
            extend(&mut m, want.as_slice());
            extend_str(&mut m, "\" but got \"");
            extend(&mut m, got.as_slice());
            extend_str(&mut m, "\"");
            return Err(text::string_of(m.as_slice()));
        }
    }
    assert(check_file(location@, expect@) == Ok::<(), Seq<char>>(()));
    // line
    if let Some(expected_line) = expect.line {
        let range = or_else_get(location, "targetRange", "range");
        let start = match range {
            Some(x) => x.get("start"),
            None => None,
        };
        let line = match start {
            Some(x) => x.get("line"),
            None => None,
        };
        let actual = match line {
            Some(x) => x.as_u64(),
            None => None,
        };
        assert(actual == start_line_of(location@));
        match actual {
            Some(l) => {
                if l != expected_line as u64 {
                    let a = text::dec_u64(expected_line as u64);
                    let b = text::dec_u64(l);
                    return Err(message2("line: expected ", a.as_slice(), " but got ", b.as_slice()));
                }
            },
            None => {
                let a = text::dec_u64(expected_line as u64);
                return Err(message("line: expected ", a.as_slice(), " but response has no range"));
            },
        }
    }
    assert(check_line(location@, expect@) == Ok::<(), Seq<char>>(()));
    Ok(())
}

/// Checks a response envelope against an expectation: `Ok(())` when every
/// set property holds, else the message of the first failing check.
pub fn check_expectation(resp: &JsonValue, expect: &ExpectConfig) -> (r: Result<(), String>)
    ensures
        outcome_text(r) == expectation_outcome(resp@, expect@),
{
    let result: &JsonValue = match or_else_get(resp, "result", "params") {
        Some(x) => x,
        None => resp,
    };
    assert(result@ == result_of(resp@));
    match check_location_exec(result, expect) {
        Err(m) => return Err(m),
        Ok(_) => {},
    }
    // counts
    let actual_count: usize = match result.as_array() {
        Some(a) => a.len(),
        None => 0,
    };
    assert(actual_count == array_len(result@));
    if let Some(expected_count) = expect.count {
        if actual_count != expected_count {
            let a = text::dec_u64(expected_count as u64);
            let b = text::dec_u64(actual_count as u64);
            return Err(message2("count: expected ", a.as_slice(), " but got ", b.as_slice()));
        }
    }
    if let Some(min) = expect.min_count {
        if actual_count < min {
            let a = text::dec_u64(min as u64);
            let b = text::dec_u64(actual_count as u64);
            return Err(message2("minCount: expected >= ", a.as_slice(), " but got ", b.as_slice()));
        }
    }
    assert(check_counts(result@, expect@) == Ok::<(), Seq<char>>(()));
    // completion items
    if expect.contains_items.len() == 0 && expect.absent_items.len() == 0 {
        return Ok(());
    }
    let source: Option<&Vec<JsonValue>> = match result.get("items") {
        Some(x) => match x.as_array() {
            Some(a) => Some(a),
            None => result.as_array(),
        },
        None => result.as_array(),
    };
    let mut items: Vec<&JsonValue> = Vec::new();
    if let Some(a) = source {
        let mut i: usize = 0;
        while i < a.len()
            invariant
                i <= a@.len(),
                items@.len() == i,
                forall|k: int| 0 <= k < i ==> #[trigger] items@[k] == &a@[k],
            decreases a.len() - i,
        {
            items.push(&a[i]);
            i += 1;
        }
        assert(items@.map_values(|x: &JsonValue| x@) =~= a@.map_values(|x: JsonValue| x@));
    } else {
        assert(items@.map_values(|x: &JsonValue| x@) =~= Seq::<json::Json>::empty());
    }
    let ghost sitems = items@.map_values(|x: &JsonValue| x@);
    assert(sitems == completion_items_of(result@));
    if items.len() == 0 {
        return Err("containsItems/absentItems: response has no completion items".to_owned());
    }
    let ghost cs = expect@.contains_items;
    assert(expectation_outcome(resp@, expect@) == check_items(result@, expect@));
    let mut i: usize = 0;
    assert(cs.skip(0) =~= cs);
    while i < expect.contains_items.len()
        invariant
            i <= expect.contains_items@.len(),
            cs == expect@.contains_items,
            sitems == items@.map_values(|x: &JsonValue| x@),
            check_contains(sitems, cs) == check_contains(sitems, cs.skip(i as int)),
            sitems == completion_items_of(result@),
            sitems.len() > 0,
            expectation_outcome(resp@, expect@) == check_items(result@, expect@),
        decreases expect.contains_items.len() - i,
    {
        let e = &expect.contains_items[i];
        assert(cs.skip(i as int)[0] == e@);
        assert(cs.skip(i as int).drop_first() =~= cs.skip(i + 1));
        if !any_item_matches(&items, e) {
            let t = completion_item_expect_to_string(e);
            let tc = chars_of(t.as_str());
            let m = message1("containsItems: no completion item matched ", tc.as_slice());
            assert(check_contains(sitems, cs.skip(i as int)) == Err::<(), Seq<char>>(m@));
            assert(expect@.contains_items.len() > 0);
            assert(check_items(result@, expect@) == Err::<(), Seq<char>>(m@));
            return Err(m);
        }
        i += 1;
    }
    assert(cs.skip(i as int) =~= Seq::<ItemExpect>::empty());
    assert(check_contains(sitems, cs) == Ok::<(), Seq<char>>(()));
    let ghost ab = expect@.absent_items;
    let mut j: usize = 0;
    assert(ab.skip(0) =~= ab);
    while j < expect.absent_items.len()
        invariant
            j <= expect.absent_items@.len(),
            ab == expect@.absent_items,
            sitems == items@.map_values(|x: &JsonValue| x@),
            check_absent(sitems, ab) == check_absent(sitems, ab.skip(j as int)),
            sitems == completion_items_of(result@),
            sitems.len() > 0,
            expectation_outcome(resp@, expect@) == check_items(result@, expect@),
            check_contains(sitems, expect@.contains_items) == Ok::<(), Seq<char>>(()),
        decreases expect.absent_items.len() - j,
    {
        let e = &expect.absent_items[j];
        assert(ab.skip(j as int)[0] == e@);
        assert(ab.skip(j as int).drop_first() =~= ab.skip(j + 1));
        if any_item_matches(&items, e) {
            let t = completion_item_expect_to_string(e);
            let tc = chars_of(t.as_str());
            let m = message1("absentItems: found unexpected completion item matching ", tc.as_slice());
            assert(check_absent(sitems, ab.skip(j as int)) == Err::<(), Seq<char>>(m@));
            assert(expect@.absent_items.len() > 0);
            assert(check_items(result@, expect@) == Err::<(), Seq<char>>(m@));
            return Err(m);
        }
        j += 1;
    }
    assert(ab.skip(j as int) =~= Seq::<ItemExpect>::empty());
    Ok(())
}
} // verus!
