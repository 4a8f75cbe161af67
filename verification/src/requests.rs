//! The params of each benchmarked request: where the cursor is (the
//! method's own position, else the configured one), and the shape each LSP
//! method takes. Objects list their members in key order, as serde_json's
//! default map writes them.
use vstd::prelude::*;
use crate::json::{self, Json, JsonNumber, JsonValue, Num};
use crate::text::{self, chars_of};

verus! {

/// A method's own settings from the configuration.
pub struct MethodOverrides {
    pub line: Option<u32>,
    pub col: Option<u32>,
    /// Start of the range for range requests.
    pub start_line: Option<u32>,
    pub start_col: Option<u32>,
    /// Completion trigger character.
    pub trigger: Option<String>,
    /// New name for renames, or the file name for file operations.
    pub new_name: Option<String>,
    /// URI of the method's own target file, where it names one.
    pub file_uri: Option<String>,
}

pub ghost struct Overrides {
    pub line: Option<u32>,
    pub col: Option<u32>,
    pub start_line: Option<u32>,
    pub start_col: Option<u32>,
    pub trigger: Option<Seq<char>>,
    pub new_name: Option<Seq<char>>,
    pub file_uri: Option<Seq<char>>,
}

impl View for MethodOverrides {
    type V = Overrides;

    open spec fn view(&self) -> Overrides {
        Overrides {
            line: self.line,
            col: self.col,
            start_line: self.start_line,
            start_col: self.start_col,
            trigger: text::opt_view(self.trigger),
            new_name: text::opt_view(self.new_name),
            file_uri: text::opt_view(self.file_uri),
        }
    }
}

pub open spec fn or_u32(o: Option<u32>, d: u32) -> u32 {
    match o {
        Some(v) => v,
        None => d,
    }
}

pub open spec fn or_seq(o: Option<Seq<char>>, d: Seq<char>) -> Seq<char> {
    match o {
        Some(v) => v,
        None => d,
    }
}

/// The cursor of a request: the method's line and column where it sets
/// them, else the configured ones.
pub open spec fn position_of(o: Option<Overrides>, line: u32, col: u32) -> (u32, u32) {
    match o {
        Some(m) => (or_u32(m.line, line), or_u32(m.col, col)),
        None => (line, col),
    }
}

/// The start of a range request: the method's start, else the file start.
pub open spec fn start_of(o: Option<Overrides>) -> (u32, u32) {
    match o {
        Some(m) => (or_u32(m.start_line, 0), or_u32(m.start_col, 0)),
        None => (0, 0),
    }
}

pub open spec fn num(n: u32) -> Json {
    Json::Num(Num::PosInt(n as u64))
}

pub open spec fn pos_json(p: (u32, u32)) -> Json {
    Json::Obj(seq![("character"@, num(p.1)), ("line"@, num(p.0))])
}

pub open spec fn doc_json(uri: Seq<char>) -> Json {
    Json::Obj(seq![("uri"@, Json::Str(uri))])
}

pub open spec fn range_json(start: (u32, u32), end: (u32, u32)) -> Json {
    Json::Obj(seq![("end"@, pos_json(end)), ("start"@, pos_json(start))])
}

/// The URI of a sibling file: the URI up to its last `/`, then the name
/// (the name alone where the URI has no `/`).
pub open spec fn sibling_uri(uri: Seq<char>, name: Seq<char>) -> Seq<char> {
    match text::rfind_char(uri, '/') {
        Some(p) => uri.subrange(0, p) + "/"@ + name,
        None => name,
    }
}

/// The params of a position request (definition, hover and the like).
pub open spec fn position_params(uri: Seq<char>, p: (u32, u32)) -> Json {
    Json::Obj(seq![("position"@, pos_json(p)), ("textDocument"@, doc_json(uri))])
}

/// The params of a references request at `p`, declaration included.
pub open spec fn reference_params(uri: Seq<char>, p: (u32, u32)) -> Json {
    Json::Obj(
        seq![
            ("context"@, Json::Obj(seq![("includeDeclaration"@, Json::Bool(true))])),
            ("position"@, pos_json(p)),
            ("textDocument"@, doc_json(uri)),
        ],
    )
}

/// The params of a whole-document request.
pub open spec fn document_params(uri: Seq<char>) -> Json {
    Json::Obj(seq![("textDocument"@, doc_json(uri))])
}

/// The params of each benchmarked method, for the benchmark file `uri`,
/// the configured position and legacy trigger, and the method's own
/// settings; `None` for a method that is not sent this way.
pub open spec fn params_of(
    method: Seq<char>,
    uri: Seq<char>,
    line: u32,
    col: u32,
    legacy_trigger: Option<Seq<char>>,
    o: Option<Overrides>,
) -> Option<Json> {
    let p = position_of(o, line, col);
    if method == "textDocument/definition"@ || method == "textDocument/declaration"@ || method
        == "textDocument/typeDefinition"@ || method == "textDocument/implementation"@ || method
        == "textDocument/hover"@ || method == "textDocument/signatureHelp"@ || method
        == "textDocument/prepareRename"@ || method == "textDocument/documentHighlight"@ {
        Some(position_params(uri, p))
    } else if method == "textDocument/references"@ {
        Some(reference_params(uri, p))
    } else if method == "textDocument/completion"@ {
        let trigger = match o {
            Some(m) => match m.trigger {
                Some(t) => Some(t),
                None => legacy_trigger,
            },
            None => legacy_trigger,
        };
        Some(
            match trigger {
                Some(t) => Json::Obj(
                    seq![
                        (
                            "context"@,
                            Json::Obj(seq![("triggerCharacter"@, Json::Str(t)), ("triggerKind"@, num(2))]),
                        ),
                        ("position"@, pos_json(p)),
                        ("textDocument"@, doc_json(uri)),
                    ],
                ),
                None => position_params(uri, p),
            },
        )
    } else if method == "textDocument/rename"@ {
        let name = match o {
            Some(m) => or_seq(m.new_name, "__lsp_bench_rename__"@),
            None => "__lsp_bench_rename__"@,
        };
        Some(
            Json::Obj(
                seq![
                    ("newName"@, Json::Str(name)),
                    ("position"@, pos_json(p)),
                    ("textDocument"@, doc_json(uri)),
                ],
            ),
        )
    } else if method == "textDocument/documentSymbol"@ || method == "textDocument/documentLink"@
        || method == "textDocument/foldingRange"@ || method == "textDocument/codeLens"@ || method
        == "textDocument/documentColor"@ || method == "textDocument/semanticTokens/full"@ {
        Some(document_params(uri))
    } else if method == "textDocument/formatting"@ {
        Some(
            Json::Obj(
                seq![
                    (
                        "options"@,
                        Json::Obj(seq![("insertSpaces"@, Json::Bool(true)), ("tabSize"@, num(4))]),
                    ),
                    ("textDocument"@, doc_json(uri)),
                ],
            ),
        )
    } else if method == "textDocument/selectionRange"@ {
        Some(
            Json::Obj(
                seq![("positions"@, Json::Arr(seq![pos_json(p)])), ("textDocument"@, doc_json(uri))],
            ),
        )
    } else if method == "textDocument/inlayHint"@ {
        Some(
            Json::Obj(
                seq![("range"@, range_json((0, 0), (9999, 0))), ("textDocument"@, doc_json(uri))],
            ),
        )
    } else if method == "textDocument/semanticTokens/range"@ {
        Some(
            Json::Obj(
                seq![("range"@, range_json(start_of(o), p)), ("textDocument"@, doc_json(uri))],
            ),
        )
    } else if method == "workspace/symbol"@ {
        Some(Json::Obj(seq![("query"@, Json::Str(Seq::empty()))]))
    } else if method == "workspace/willRenameFiles"@ {
        let (name, old) = match o {
            Some(m) => (or_seq(m.new_name, "__lsp_bench_renamed__.sol"@), or_seq(m.file_uri, uri)),
            None => ("__lsp_bench_renamed__.sol"@, uri),
        };
        Some(
            Json::Obj(
                seq![
                    (
                        "files"@,
                        Json::Arr(
                            seq![
                                Json::Obj(
                                    seq![
                                        ("newUri"@, Json::Str(sibling_uri(old, name))),
                                        ("oldUri"@, Json::Str(old)),
                                    ],
                                ),
                            ],
                        ),
                    ),
                ],
            ),
        )
    } else if method == "workspace/willCreateFiles"@ {
        let name = match o {
            Some(m) => or_seq(m.new_name, "__lsp_bench_created__.sol"@),
            None => "__lsp_bench_created__.sol"@,
        };
        Some(
            Json::Obj(
                seq![
                    (
                        "files"@,
                        Json::Arr(seq![Json::Obj(seq![("uri"@, Json::Str(sibling_uri(uri, name)))])]),
                    ),
                ],
            ),
        )
    } else if method == "workspace/willDeleteFiles"@ {
        let target = match o {
            Some(m) => or_seq(m.file_uri, uri),
            None => uri,
        };
        Some(
            Json::Obj(
                seq![("files"@, Json::Arr(seq![Json::Obj(seq![("uri"@, Json::Str(target))])]))],
            ),
        )
    } else {
        None
    }
}

// ---------------------------------------------------------------------------
// Implementation
// ---------------------------------------------------------------------------

pub open spec fn overrides_view(o: Option<&MethodOverrides>) -> Option<Overrides> {
    match o {
        Some(m) => Some(m@),
        None => None,
    }
}

pub open spec fn str_view(o: Option<&str>) -> Option<Seq<char>> {
    match o {
        Some(s) => Some(s@),
        None => None,
    }
}

fn num_value(n: u32) -> (r: JsonValue)
    ensures
        r@ == num(n),
{
    JsonValue::Number(JsonNumber::PosInt(n as u64))
}

fn obj1(k1: &str, v1: JsonValue) -> (r: JsonValue)
    ensures
        r@ == Json::Obj(seq![(k1@, v1@)]),
{
    let r = JsonValue::Object(vec![(k1.to_owned(), v1)]);
    assert(r@->Obj_0 =~= seq![(k1@, v1@)]);
    r
}

fn obj2(k1: &str, v1: JsonValue, k2: &str, v2: JsonValue) -> (r: JsonValue)
    ensures
        r@ == Json::Obj(seq![(k1@, v1@), (k2@, v2@)]),
{
    let r = JsonValue::Object(vec![(k1.to_owned(), v1), (k2.to_owned(), v2)]);
    assert(r@->Obj_0 =~= seq![(k1@, v1@), (k2@, v2@)]);
    r
}

fn obj3(k1: &str, v1: JsonValue, k2: &str, v2: JsonValue, k3: &str, v3: JsonValue) -> (r: JsonValue)
    ensures
        r@ == Json::Obj(seq![(k1@, v1@), (k2@, v2@), (k3@, v3@)]),
{
    let r = JsonValue::Object(vec![(k1.to_owned(), v1), (k2.to_owned(), v2), (k3.to_owned(), v3)]);
    assert(r@->Obj_0 =~= seq![(k1@, v1@), (k2@, v2@), (k3@, v3@)]);
    r
}

fn arr1(v: JsonValue) -> (r: JsonValue)
    ensures
        r@ == Json::Arr(seq![v@]),
{
    let r = JsonValue::Array(vec![v]);
    assert(r@->Arr_0 =~= seq![v@]);
    r
}

fn pos_value(p: (u32, u32)) -> (r: JsonValue)
    ensures
        r@ == pos_json(p),
{
    obj2("character", num_value(p.1), "line", num_value(p.0))
}

fn doc_value(uri: &str) -> (r: JsonValue)
    ensures
        r@ == doc_json(uri@),
{
    obj1("uri", JsonValue::from_str(uri))
}

fn range_value(start: (u32, u32), end: (u32, u32)) -> (r: JsonValue)
    ensures
        r@ == range_json(start, end),
{
    obj2("end", pos_value(end), "start", pos_value(start))
}

fn sibling_uri_exec(uri: &str, name: &str) -> (r: String)
    ensures
        r@ == sibling_uri(uri@, name@),
{
    let cs = chars_of(uri);
    match text::rfind_char_exec(cs.as_slice(), '/') {
        Some(p) => {
            proof {
                text::lemma_rfind_char_bound(cs@, '/');
                reveal_strlit("/");
            }
            let mut v = text::slice_of(cs.as_slice(), 0, p);
            v.push('/');
            text::extend_str(&mut v, name);
            assert(v@ =~= sibling_uri(uri@, name@));
            text::string_of(v.as_slice())
        },
        None => name.to_owned(),
    }
}

fn or_str<'a>(o: &'a Option<String>, d: &'a str) -> (r: &'a str)
    ensures
        r@ == or_seq(text::opt_view(*o), d@),
{
    match o {
        Some(s) => s.as_str(),
        None => d,
    }
}

/// The params of a benchmarked request: `file_uri` is the benchmark file,
/// `line` and `col` the configured position, `legacy_trigger` the
/// configuration-wide completion trigger, `overrides` the method's own
/// settings. `None` for methods that are not sent with such params.
pub fn request_params(
    method: &str,
    file_uri: &str,
    line: u32,
    col: u32,
    legacy_trigger: Option<&str>,
    overrides: Option<&MethodOverrides>,
) -> (r: Option<JsonValue>)
    ensures
        match r {
            Some(v) => params_of(method@, file_uri@, line, col, str_view(legacy_trigger), overrides_view(overrides)) == Some(v@),
            None => params_of(method@, file_uri@, line, col, str_view(legacy_trigger), overrides_view(overrides)) is None,
        },
{
    let p: (u32, u32) = match overrides {
        Some(m) => (m.line.unwrap_or(line), m.col.unwrap_or(col)),
        None => (line, col),
    };
    let is = |name: &str| -> (b: bool)
        ensures
            b == (method@ == name@),
        { json::str_eq(method, name) };
    if is("textDocument/definition") || is("textDocument/declaration") || is("textDocument/typeDefinition")
        || is("textDocument/implementation") || is("textDocument/hover") || is("textDocument/signatureHelp")
        || is("textDocument/prepareRename") || is("textDocument/documentHighlight") {
        Some(obj2("position", pos_value(p), "textDocument", doc_value(file_uri)))
    } else if is("textDocument/references") {
        Some(
            obj3(
                "context",
                obj1("includeDeclaration", JsonValue::Bool(true)),
                "position",
                pos_value(p),
                "textDocument",
                doc_value(file_uri),
            ),
        )
    } else if is("textDocument/completion") {
        let trigger: Option<&str> = match overrides {
            Some(m) => match &m.trigger {
                Some(t) => Some(t.as_str()),
                None => legacy_trigger,
            },
            None => legacy_trigger,
        };
        match trigger {
            Some(t) => Some(
                obj3(
                    "context",
                    obj2("triggerCharacter", JsonValue::from_str(t), "triggerKind", num_value(2)),
                    "position",
                    pos_value(p),
                    "textDocument",
                    doc_value(file_uri),
                ),
            ),
            None => Some(obj2("position", pos_value(p), "textDocument", doc_value(file_uri))),
        }
    } else if is("textDocument/rename") {
        let name: &str = match overrides {
            Some(m) => or_str(&m.new_name, "__lsp_bench_rename__"),
            None => "__lsp_bench_rename__",
        };
        Some(
            obj3(
                "newName",
                JsonValue::from_str(name),
                "position",
                pos_value(p),
                "textDocument",
                doc_value(file_uri),
            ),
        )
    } else if is("textDocument/documentSymbol") || is("textDocument/documentLink") || is(
        "textDocument/foldingRange",
    ) || is("textDocument/codeLens") || is("textDocument/documentColor") || is(
        "textDocument/semanticTokens/full",
    ) {
        Some(obj1("textDocument", doc_value(file_uri)))
    } else if is("textDocument/formatting") {
        Some(
            obj2(
                "options",
                obj2("insertSpaces", JsonValue::Bool(true), "tabSize", num_value(4)),
                "textDocument",
                doc_value(file_uri),
            ),
        )
    } else if is("textDocument/selectionRange") {
        Some(obj2("positions", arr1(pos_value(p)), "textDocument", doc_value(file_uri)))
    } else if is("textDocument/inlayHint") {
        Some(obj2("range", range_value((0, 0), (9999, 0)), "textDocument", doc_value(file_uri)))
    } else if is("textDocument/semanticTokens/range") {
        let start: (u32, u32) = match overrides {
            Some(m) => (m.start_line.unwrap_or(0), m.start_col.unwrap_or(0)),
            None => (0, 0),
        };
        Some(obj2("range", range_value(start, p), "textDocument", doc_value(file_uri)))
    } else if is("workspace/symbol") {
        proof {
            reveal_strlit("");
            assert(""@ =~= Seq::<char>::empty());
        }
        Some(obj1("query", JsonValue::from_str("")))
    } else if is("workspace/willRenameFiles") {
        let (name, old): (&str, &str) = match overrides {
            Some(m) => (or_str(&m.new_name, "__lsp_bench_renamed__.sol"), or_str(&m.file_uri, file_uri)),
            None => ("__lsp_bench_renamed__.sol", file_uri),
        };
        let new_uri = sibling_uri_exec(old, name);
        Some(
            obj1(
                "files",
                arr1(obj2("newUri", JsonValue::from_str(new_uri.as_str()), "oldUri", JsonValue::from_str(old))),
            ),
        )
    } else if is("workspace/willCreateFiles") {
        let name: &str = match overrides {
            Some(m) => or_str(&m.new_name, "__lsp_bench_created__.sol"),
            None => "__lsp_bench_created__.sol",
        };
        let new_uri = sibling_uri_exec(file_uri, name);
        Some(obj1("files", arr1(obj1("uri", JsonValue::from_str(new_uri.as_str())))))
    } else if is("workspace/willDeleteFiles") {
        let target: &str = match overrides {
            Some(m) => or_str(&m.file_uri, file_uri),
            None => file_uri,
        };
        Some(obj1("files", arr1(obj1("uri", JsonValue::from_str(target)))))
    } else {
        None
    }
}

/// The params of a references request at an explicit position (the
/// request re-sent after each file a didOpen step opens).
pub fn reference_request(file_uri: &str, line: u32, col: u32) -> (r: JsonValue)
    ensures
        r@ == reference_params(file_uri@, (line, col)),
{
    obj3(
        "context",
        obj1("includeDeclaration", JsonValue::Bool(true)),
        "position",
        pos_value((line, col)),
        "textDocument",
        doc_value(file_uri),
    )
}

/// The params of a whole-document request.
pub fn document_request(file_uri: &str) -> (r: JsonValue)
    ensures
        r@ == document_params(file_uri@),
{
    obj1("textDocument", doc_value(file_uri))
}

/// The params of a semantic tokens delta request after `previous`.
pub fn delta_request(file_uri: &str, previous: &str) -> (r: JsonValue)
    ensures
        r@ == Json::Obj(seq![("previousResultId"@, Json::Str(previous@)), ("textDocument"@, doc_json(file_uri@))]),
{
    obj2("previousResultId", JsonValue::from_str(previous), "textDocument", doc_value(file_uri))
}

/// `m` with member `key` set to `v`: the first member of that name takes
/// the value, or the member is added at the end.
pub open spec fn set_member(m: Seq<(Seq<char>, Json)>, key: Seq<char>, v: Json) -> Seq<(Seq<char>, Json)> {
    if exists|i: int| 0 <= i < m.len() && m[i].0 == key {
        let i = choose|i: int| 0 <= i < m.len() && m[i].0 == key && forall|j: int| 0 <= j < i ==> m[j].0 != key;
        m.update(i, (key, v))
    } else {
        m.push((key, v))
    }
}

/// A snapshot's request: the params with their `position` set to the
/// snapshot's cursor (other values are left as they are).
pub open spec fn at_position(params: Json, p: (u32, u32)) -> Json {
    match params {
        Json::Obj(m) => Json::Obj(set_member(m, "position"@, pos_json(p))),
        _ => params,
    }
}

/// Sets the `position` of a request's params to the cursor of a snapshot.
pub fn with_position(params: JsonValue, line: u32, col: u32) -> (r: JsonValue)
    ensures
        r@ == at_position(params@, (line, col)),
{
    let ghost pv = params@;
    match params {
        JsonValue::Object(mut m) => {
            let ghost mv = pv->Obj_0;
            assert(mv.len() == m@.len());
            let mut i: usize = 0;
            while i < m.len()
                invariant
                    i <= m@.len(),
                    pv == params@,
                    pv == Json::Obj(mv),
                    mv.len() == m@.len(),
                    forall|k: int| 0 <= k < m@.len() ==> #[trigger] mv[k] == (m@[k].0@, m@[k].1@),
                    forall|j: int| 0 <= j < i ==> mv[j].0 != "position"@,
                decreases m.len() - i,
            {
                if json::str_eq(m[i].0.as_str(), "position") {
                    let ghost before = m@;
                    m.set(i, ("position".to_owned(), pos_value((line, col))));
                    let r = JsonValue::Object(m);
                    proof {
                        assert(mv[i as int].0 == "position"@);
                        assert(exists|x: int| 0 <= x < mv.len() && mv[x].0 == "position"@);
                        let c = choose|x: int| 0 <= x < mv.len() && mv[x].0 == "position"@ && forall|j: int| 0 <= j < x ==> mv[j].0 != "position"@;
                        assert(c == i as int) by {
                            if c < i as int {
                                assert(mv[c].0 != "position"@);
                            }
                            if c > i as int {
                                assert(mv[i as int].0 != "position"@);
                            }
                        }
                        assert(r@->Obj_0 =~= mv.update(i as int, ("position"@, pos_json((line, col)))));
                    }
                    return r;
                }
                i += 1;
            }
            m.push(("position".to_owned(), pos_value((line, col))));
            let r = JsonValue::Object(m);
            proof {
                assert(!(exists|x: int| 0 <= x < mv.len() && mv[x].0 == "position"@));
                assert(r@->Obj_0 =~= mv.push(("position"@, pos_json((line, col)))));
            }
            r
        },
        other => other,
    }
}

// ---------------------------------------------------------------------------
// Replaying a recorded request
// ---------------------------------------------------------------------------

/// The words of `s` after the word `cur` read so far: maximal runs of
/// non-whitespace characters, in order.
pub open spec fn words_from(s: Seq<char>, cur: Seq<char>) -> Seq<Seq<char>>
    decreases s.len(),
{
    if s.len() == 0 {
        if cur.len() > 0 {
            seq![cur]
        } else {
            Seq::empty()
        }
    } else if text::spec_is_whitespace(s[0]) {
        (if cur.len() > 0 {
            seq![cur]
        } else {
            Seq::empty()
        }) + words_from(s.drop_first(), Seq::empty())
    } else {
        words_from(s.drop_first(), cur.push(s[0]))
    }
}

/// The words of `s`, as `split_whitespace` gives them.
pub open spec fn words(s: Seq<char>) -> Seq<Seq<char>> {
    words_from(s, Seq::empty())
}

pub open spec fn strings_view(v: Seq<String>) -> Seq<Seq<char>> {
    v.map_values(|s: String| s@)
}

/// A server command line split into its words: the program, then its
/// arguments.
pub fn command_words(server: &str) -> (r: Vec<String>)
    ensures
        strings_view(r@) == words(server@),
{
    let cs = chars_of(server);
    let mut out: Vec<String> = Vec::new();
    let mut cur: Vec<char> = Vec::new();
    let mut i: usize = 0;
    assert(cs@.skip(0) =~= cs@);
    assert(strings_view(out@) + words_from(cs@.skip(0), cur@) =~= words(server@)) by {
        assert(strings_view(out@) =~= Seq::<Seq<char>>::empty());
        assert(cur@ =~= Seq::<char>::empty());
    }
    while i < cs.len()
        invariant
            i <= cs@.len(),
            cs@ == server@,
            strings_view(out@) + words_from(cs@.skip(i as int), cur@) == words(server@),
        decreases cs.len() - i,
    {
        let ghost rest = cs@.skip(i as int);
        assert(rest.drop_first() =~= cs@.skip(i as int + 1));
        assert(rest[0] == cs@[i as int]);
        if text::is_whitespace(cs[i]) {
            if cur.len() > 0 {
                let ghost before = strings_view(out@);
                let w = text::string_of(cur.as_slice());
                out.push(w);
                assert(strings_view(out@) =~= before.push(cur@));
                assert(before + (seq![cur@] + words_from(rest.drop_first(), Seq::empty())) =~= strings_view(out@)
                    + words_from(rest.drop_first(), Seq::empty()));
            } else {
                assert(Seq::<Seq<char>>::empty() + words_from(rest.drop_first(), Seq::empty()) =~= words_from(
                    rest.drop_first(),
                    Seq::empty(),
                ));
            }
            cur = Vec::new();
            assert(cur@ =~= Seq::<char>::empty());
        } else {
            cur.push(cs[i]);
        }
        i += 1;
    }
    assert(cs@.skip(i as int).len() == 0);
    if cur.len() > 0 {
        let ghost before = strings_view(out@);
        let w = text::string_of(cur.as_slice());
        out.push(w);
        assert(strings_view(out@) =~= before.push(cur@));
    } else {
        assert(strings_view(out@) + Seq::<Seq<char>>::empty() =~= strings_view(out@));
    }
    out
}

/// `s` without a leading `p`, or `None` where it does not start with `p`.
pub open spec fn strip_prefix(s: Seq<char>, p: Seq<char>) -> Option<Seq<char>> {
    if text::starts_with(s, p) {
        Some(s.subrange(p.len() as int, s.len() as int))
    } else {
        None
    }
}

/// The params a recorded request carries (`{}` when it has none).
pub open spec fn replay_params(rpc: Json) -> Json {
    match rpc.get("params"@) {
        Some(p) => p,
        None => Json::Obj(Seq::empty()),
    }
}

/// The file a recorded request's params name: the path of its
/// `textDocument.uri` where that is a `file://` URI.
pub open spec fn replay_file(params: Json) -> Option<Seq<char>> {
    match json::opt_str(Json::opt_get(params.get("textDocument"@), "uri"@)) {
        Some(u) => strip_prefix(u, "file://"@),
        None => None,
    }
}

/// What replaying a recorded JSON-RPC request sends: its method (none when
/// it has no string `method`), its params and the file they name.
pub open spec fn replay_of(rpc: Json) -> Option<(Seq<char>, Json, Option<Seq<char>>)> {
    match json::opt_str(rpc.get("method"@)) {
        Some(m) => Some((m, replay_params(rpc), replay_file(replay_params(rpc)))),
        None => None,
    }
}

/// Reads a recorded request for replay: its method, its params (`{}` when
/// absent) and the file path of its `textDocument` URI; `None` without a
/// string `method`.
pub fn replay_target(rpc: &JsonValue) -> (r: Option<(String, JsonValue, Option<String>)>)
    ensures
        match r {
            Some((m, p, f)) => replay_of(rpc@) == Some((m@, p@, text::opt_view(f))),
            None => replay_of(rpc@) is None,
        },
{
    proof {
        reveal_strlit("file://");
    }
    let method: String = match rpc.get("method") {
        Some(m) => match m.as_str() {
            Some(s) => s.to_owned(),
            None => return None,
        },
        None => return None,
    };
    let params: JsonValue = match rpc.get("params") {
        Some(p) => p.duplicate(),
        None => JsonValue::Object(Vec::new()),
    };
    assert(params@ == replay_params(rpc@)) by {
        if rpc@.get("params"@) is None {
            assert(params@->Obj_0 =~= Seq::<(Seq<char>, Json)>::empty());
        }
    }
    let uri: Option<&str> = match params.get("textDocument") {
        Some(td) => match td.get("uri") {
            Some(u) => u.as_str(),
            None => None,
        },
        None => None,
    };
    let file: Option<String> = match uri {
        Some(u) => {
            let cs = chars_of(u);
            let pre = chars_of("file://");
            if text::starts_with_exec(cs.as_slice(), pre.as_slice()) {
                let rest = text::slice_of(cs.as_slice(), pre.len(), cs.len());
                Some(text::string_of(rest.as_slice()))
            } else {
                None
            }
        },
        None => None,
    };
    Some((method, params, file))
}

// ---------------------------------------------------------------------------
// Chaining semantic token deltas
// ---------------------------------------------------------------------------

/// The `resultId` a semantic tokens response carries, where it is a string.
pub open spec fn result_id_of(resp: Json) -> Option<Seq<char>> {
    json::opt_str(Json::opt_get(resp.get("result"@), "resultId"@))
}

/// The `resultId` to name after a response: the one it carries, else the
/// one named before.
pub open spec fn chained_id(prev: Seq<char>, resp: Json) -> Seq<char> {
    match result_id_of(resp) {
        Some(s) => s,
        None => prev,
    }
}

/// The `resultId` named after a run of responses, starting from `init`.
pub open spec fn chained_ids(init: Seq<char>, resps: Seq<Json>) -> Seq<char>
    decreases resps.len(),
{
    if resps.len() == 0 {
        init
    } else {
        chained_id(chained_ids(init, resps.drop_last()), resps.last())
    }
}

/// The `resultId` the next delta request names after this response (the
/// priming `full` response starts the chain from `"0"` where it carries
/// none).
pub fn next_result_id(prev: &str, resp: &JsonValue) -> (r: String)
    ensures
        r@ == chained_id(prev@, resp@),
{
    let rid = match resp.get("result") {
        Some(r) => match r.get("resultId") {
            Some(x) => x.as_str(),
            None => None,
        },
        None => None,
    };
    match rid {
        Some(s) => s.to_owned(),
        None => prev.to_owned(),
    }
}

} // verus!
