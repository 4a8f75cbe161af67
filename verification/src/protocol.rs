//! The LSP wire protocol as this client speaks it: how a message is framed,
//! how the reader walks a message header line by line, the JSON-RPC
//! envelopes sent to a server, and what the client makes of each message
//! that a server sends back.
use vstd::prelude::*;
use crate::json::{self, Json, Num, JsonNumber, JsonValue};
use crate::parse;
use crate::text::{self, chars_of};
use crate::doc;

verus! {

// ---------------------------------------------------------------------------
// Numbers in header values
// ---------------------------------------------------------------------------

/// What `str::parse::<usize>` accepts: an optional `+`, then one or more
/// ASCII digits whose value fits in `usize`; the value they denote.
pub open spec fn usize_text(s: Seq<char>) -> Option<nat> {
    let body = if s.len() > 0 && s[0] == '+' {
        s.drop_first()
    } else {
        s
    };
    if body.len() > 0 && parse::all_digits(body) && parse::digits_value(body) <= usize::MAX {
        Some(parse::digits_value(body))
    } else {
        None
    }
}

/// Reads a decimal `usize` as `str::parse::<usize>` does.
pub fn parse_usize(s: &[char]) -> (r: Option<usize>)
    ensures
        match r {
            Some(n) => usize_text(s@) == Some(n as nat),
            None => usize_text(s@) is None,
        },
{
    let start: usize = if s.len() > 0 && s[0] == '+' {
        1
    } else {
        0
    };
    let ghost body = s@.subrange(start as int, s@.len() as int);
    proof {
        if start == 1 {
            assert(body =~= s@.drop_first());
        } else {
            assert(body =~= s@);
        }
    }
    if start >= s.len() {
        return None;
    }
    let mut v: usize = 0;
    let mut i: usize = start;
    assert(body.subrange(0, 0) =~= Seq::<char>::empty());
    while i < s.len()
        invariant
            start <= i <= s@.len(),
            start < s@.len(),
            body == s@.subrange(start as int, s@.len() as int),
            body == (if s@.len() > 0 && s@[0] == '+' {
                s@.drop_first()
            } else {
                s@
            }),
            parse::all_digits(body.subrange(0, i - start)),
            v as nat == parse::digits_value(body.subrange(0, i - start)),
        decreases s.len() - i,
    {
        let c = s[i];
        assert(body[i - start] == c);
        if !(c >= '0' && c <= '9') {
            assert(!parse::is_digit(body[i - start]));
            return None;
        }
        let d = (c as u32 - '0' as u32) as usize;
        let ghost prev = body.subrange(0, i - start);
        let ghost next = body.subrange(0, i - start + 1);
        assert(next.drop_last() =~= prev);
        assert(next.last() == c);
        assert(parse::digits_value(next) == v as nat * 10 + d as nat);
        assert(parse::all_digits(next)) by {
            assert forall|j: int| 0 <= j < next.len() implies parse::is_digit(#[trigger] next[j]) by {
                if j < prev.len() {
                    assert(next[j] == prev[j]);
                }
            }
        }
        match v.checked_mul(10) {
            Some(m) => match m.checked_add(d) {
                Some(w) => {
                    v = w;
                },
                None => {
                    proof {
                        if parse::all_digits(body) {
                            parse::lemma_digits_value_prefix_mono(body, i - start + 1);
                        }
                    }
                    return None;
                },
            },
            None => {
                proof {
                    if parse::all_digits(body) {
                        parse::lemma_digits_value_prefix_mono(body, i - start + 1);
                    }
                }
                return None;
            },
        }
        i += 1;
    }
    assert(body.subrange(0, i - start) =~= body);
    Some(v)
}

// ---------------------------------------------------------------------------
// Framing
// ---------------------------------------------------------------------------

/// A message as written to a server: a `Content-Length` header giving the
/// body's length in UTF-8 bytes, a blank line, then the body.
pub open spec fn framed(body: Seq<char>) -> Seq<char> {
    "Content-Length: "@ + text::dec(text::utf8_len(body)) + "\r\n\r\n"@ + body
}

/// Frames a message body for the wire.
pub fn frame_message(body: &str) -> (r: String)
    ensures
        r@ == framed(body@),
{
    let n = doc::byte_len(body);
    let mut out: Vec<char> = Vec::new();
    text::extend_str(&mut out, "Content-Length: ");
    let d = text::dec_u128(n);
    text::extend(&mut out, d.as_slice());
    text::extend_str(&mut out, "\r\n\r\n");
    text::extend_str(&mut out, body);
    assert(out@ =~= framed(body@));
    text::string_of(out.as_slice())
}

// ---------------------------------------------------------------------------
// Reading a header
// ---------------------------------------------------------------------------

/// Where the reader stands within one message's header: the body length
/// announced so far, and whether a header field has been seen yet.
pub struct HeaderState {
    pub content_length: usize,
    pub in_header: bool,
}

/// What the reader does after one header line.
pub enum HeaderStep {
    /// Read the next header line, from this state.
    Next(HeaderState),
    /// The header is over: read a body of this many bytes.
    Body(usize),
    /// The header is over but announced no body: start on the next message.
    Skip,
}

/// Model of a header step.
pub ghost enum Step {
    Next(nat, bool),
    Body(nat),
    Skip,
}

impl View for HeaderStep {
    type V = Step;

    open spec fn view(&self) -> Step {
        match self {
            HeaderStep::Next(s) => Step::Next(s.content_length as nat, s.in_header),
            HeaderStep::Body(n) => Step::Body(*n as nat),
            HeaderStep::Skip => Step::Skip,
        }
    }
}

pub open spec fn length_field() -> Seq<char> {
    "Content-Length:"@
}

pub open spec fn type_field() -> Seq<char> {
    "Content-Type:"@
}

/// The length a `Content-Length` line announces, if it is one whose value
/// reads as a number.
pub open spec fn announced_length(t: Seq<char>) -> Option<nat> {
    if text::starts_with(t, length_field()) {
        usize_text(text::trim(t.subrange(length_field().len() as int, t.len() as int)))
    } else {
        None
    }
}

/// One step of the header reader. Lines are trimmed; a blank line ends a
/// header once a field has been seen (blank lines before that are ignored);
/// a `Content-Length` line with a readable number sets the body length; a
/// `Content-Type` line only marks the header as begun; other lines are
/// ignored. A header that ends with a body length of zero is skipped.
pub open spec fn header_step(content_length: nat, in_header: bool, line: Seq<char>) -> Step {
    let t = text::trim(line);
    if t.len() == 0 {
        if in_header {
            if content_length == 0 {
                Step::Skip
            } else {
                Step::Body(content_length)
            }
        } else {
            Step::Next(content_length, in_header)
        }
    } else if announced_length(t) is Some {
        Step::Next(announced_length(t)->0, true)
    } else if text::starts_with(t, type_field()) {
        Step::Next(content_length, true)
    } else {
        Step::Next(content_length, in_header)
    }
}

/// The state the reader starts each message in.
pub fn initial_header_state() -> (r: HeaderState)
    ensures
        r.content_length == 0,
        !r.in_header,
{
    HeaderState { content_length: 0, in_header: false }
}

/// Feeds one header line (as read, line ending included) to the reader.
pub fn header_line(state: &HeaderState, line: &str) -> (r: HeaderStep)
    ensures
        r@ == header_step(state.content_length as nat, state.in_header, line@),
{
    let chars = chars_of(line);
    let t = text::trim_exec(chars.as_slice());
    if t.len() == 0 {
        if state.in_header {
            if state.content_length == 0 {
                HeaderStep::Skip
            } else {
                HeaderStep::Body(state.content_length)
            }
        } else {
            HeaderStep::Next(HeaderState { content_length: state.content_length, in_header: false })
        }
    } else {
        let length_key = chars_of("Content-Length:");
        if text::starts_with_exec(t.as_slice(), length_key.as_slice()) {
            let rest = text::slice_of(t.as_slice(), length_key.len(), t.len());
            let value = text::trim_exec(rest.as_slice());
            match parse_usize(value.as_slice()) {
                Some(n) => {
                    return HeaderStep::Next(HeaderState { content_length: n, in_header: true });
                },
                None => {},
            }
        }
        let type_key = chars_of("Content-Type:");
        if text::starts_with_exec(t.as_slice(), type_key.as_slice()) {
            HeaderStep::Next(HeaderState { content_length: state.content_length, in_header: true })
        } else {
            HeaderStep::Next(
                HeaderState { content_length: state.content_length, in_header: state.in_header },
            )
        }
    }
}

// ---------------------------------------------------------------------------
// Envelopes
// ---------------------------------------------------------------------------

/// A request id as a JSON number.
pub open spec fn id_json(id: i64) -> Json {
    if id >= 0 {
        Json::Num(Num::PosInt(id as u64))
    } else {
        Json::Num(Num::NegInt(id))
    }
}

/// A JSON-RPC request; members in key order, as serde_json's default map
/// keeps them.
pub open spec fn request_json(id: i64, method: Seq<char>, params: Json) -> Json {
    Json::Obj(
        seq![
            ("id"@, id_json(id)),
            ("jsonrpc"@, Json::Str("2.0"@)),
            ("method"@, Json::Str(method)),
            ("params"@, params),
        ],
    )
}

/// A JSON-RPC notification.
pub open spec fn notification_json(method: Seq<char>, params: Json) -> Json {
    Json::Obj(
        seq![("jsonrpc"@, Json::Str("2.0"@)), ("method"@, Json::Str(method)), ("params"@, params)],
    )
}

/// A JSON-RPC reply to a request that a server sent.
pub open spec fn reply_json(id: Json, result: Json) -> Json {
    Json::Obj(seq![("id"@, id), ("jsonrpc"@, Json::Str("2.0"@)), ("result"@, result)])
}

fn id_value(id: i64) -> (r: JsonValue)
    ensures
        r@ == id_json(id),
{
    if id >= 0 {
        JsonValue::Number(JsonNumber::PosInt(id as u64))
    } else {
        JsonValue::Number(JsonNumber::NegInt(id))
    }
}

/// The request with this id, method and params.
pub fn request_message(id: i64, method: &str, params: JsonValue) -> (r: JsonValue)
    ensures
        r@ == request_json(id, method@, params@),
{
    let members = vec![
        ("id".to_owned(), id_value(id)),
        ("jsonrpc".to_owned(), JsonValue::from_str("2.0")),
        ("method".to_owned(), JsonValue::from_str(method)),
        ("params".to_owned(), params),
    ];
    let r = JsonValue::Object(members);
    proof {
        let m = members@;
        assert(r@->Obj_0 =~= request_json(id, method@, params@)->Obj_0);
    }
    r
}

/// The notification with this method and params.
pub fn notification_message(method: &str, params: JsonValue) -> (r: JsonValue)
    ensures
        r@ == notification_json(method@, params@),
{
    let members = vec![
        ("jsonrpc".to_owned(), JsonValue::from_str("2.0")),
        ("method".to_owned(), JsonValue::from_str(method)),
        ("params".to_owned(), params),
    ];
    let r = JsonValue::Object(members);
    proof {
        assert(r@->Obj_0 =~= notification_json(method@, params@)->Obj_0);
    }
    r
}

/// The reply to a server's request `id`.
pub fn reply_message(id: JsonValue, result: JsonValue) -> (r: JsonValue)
    ensures
        r@ == reply_json(id@, result@),
{
    let members = vec![
        ("id".to_owned(), id),
        ("jsonrpc".to_owned(), JsonValue::from_str("2.0")),
        ("result".to_owned(), result),
    ];
    let r = JsonValue::Object(members);
    proof {
        assert(r@->Obj_0 =~= reply_json(id@, result@)->Obj_0);
    }
    r
}

// ---------------------------------------------------------------------------
// Messages from a server
// ---------------------------------------------------------------------------

/// Whether a message is the response to request `id` (its `id` member is
/// that integer).
pub open spec fn answers(msg: Json, id: i64) -> bool {
    match msg.get("id"@) {
        Some(v) => v.as_i64() == Some(id),
        None => false,
    }
}

/// Whether a message is the response to request `id`; other messages
/// (notifications, requests from the server, other responses) are passed over.
pub fn is_response_to(msg: &JsonValue, id: i64) -> (r: bool)
    ensures
        r == answers(msg@, id),
{
    match msg.get("id") {
        Some(v) => match v.as_i64() {
            Some(x) => x == id,
            None => false,
        },
        None => false,
    }
}

/// What waiting for the end of a server's background work does with a message.
pub enum ProgressAction {
    /// The message is a request from the server: answer it with a null result.
    Reply,
    /// A `$/progress` notification whose value is of kind `end`: stop waiting.
    Finished,
    /// Anything else: keep waiting.
    Wait,
}

/// The action for a message while waiting for the end of progress.
pub open spec fn progress_of(msg: Json) -> ProgressAction {
    if msg.get("id"@) is Some && msg.get("method"@) is Some {
        ProgressAction::Reply
    } else if json::opt_str(msg.get("method"@)) == Some("$/progress"@) && json::opt_str(
        Json::opt_get(Json::opt_get(msg.get("params"@), "value"@), "kind"@),
    ) == Some("end"@) {
        ProgressAction::Finished
    } else {
        ProgressAction::Wait
    }
}

/// Decides what to do with a message while waiting for progress to end.
pub fn progress_action(msg: &JsonValue) -> (r: ProgressAction)
    ensures
        r == progress_of(msg@),
{
    let method = msg.get("method");
    if msg.get("id").is_some() && method.is_some() {
        return ProgressAction::Reply;
    }
    let is_progress = match method {
        Some(m) => match m.as_str() {
            Some(s) => json::str_eq(s, "$/progress"),
            None => false,
        },
        None => false,
    };
    if !is_progress {
        return ProgressAction::Wait;
    }
    let kind = match msg.get("params") {
        Some(p) => match p.get("value") {
            Some(v) => match v.get("kind") {
                Some(k) => k.as_str(),
                None => None,
            },
            None => None,
        },
        None => None,
    };
    match kind {
        Some(k) => if json::str_eq(k, "end") {
            ProgressAction::Finished
        } else {
            ProgressAction::Wait
        },
        None => ProgressAction::Wait,
    }
}

/// For a `textDocument/publishDiagnostics` notification, how many
/// diagnostics it carries (zero where the list is missing); `None` for
/// other messages.
pub open spec fn diagnostics_of(msg: Json) -> Option<nat> {
    if json::opt_str(msg.get("method"@)) == Some("textDocument/publishDiagnostics"@) {
        Some(
            match json::opt_array(Json::opt_get(msg.get("params"@), "diagnostics"@)) {
                Some(a) => a.len(),
                None => 0,
            },
        )
    } else {
        None
    }
}

/// The diagnostics count of a message, if it publishes diagnostics.
pub fn diagnostics_count(msg: &JsonValue) -> (r: Option<usize>)
    ensures
        match r {
            Some(n) => diagnostics_of(msg@) == Some(n as nat),
            None => diagnostics_of(msg@) is None,
        },
{
    let is_publish = match msg.get("method") {
        Some(m) => match m.as_str() {
            Some(s) => json::str_eq(s, "textDocument/publishDiagnostics"),
            None => false,
        },
        None => false,
    };
    if !is_publish {
        return None;
    }
    let list = match msg.get("params") {
        Some(p) => match p.get("diagnostics") {
            Some(d) => d.as_array(),
            None => None,
        },
        None => None,
    };
    match list {
        Some(a) => Some(a.len()),
        None => Some(0),
    }
}

/// The text of a `window/logMessage` notification.
pub open spec fn log_text(msg: Json) -> Option<Seq<char>> {
    if json::opt_str(msg.get("method"@)) == Some("window/logMessage"@) {
        json::opt_str(Json::opt_get(msg.get("params"@), "message"@))
    } else {
        None
    }
}

/// The server log line a message carries, if it is a `window/logMessage`
/// notification with a text message.
pub fn log_message(msg: &JsonValue) -> (r: Option<String>)
    ensures
        text::opt_view(r) == log_text(msg@),
{
    let is_log = match msg.get("method") {
        Some(m) => match m.as_str() {
            Some(s) => json::str_eq(s, "window/logMessage"),
            None => false,
        },
        None => false,
    };
    if !is_log {
        return None;
    }
    match msg.get("params") {
        Some(p) => match p.get("message") {
            Some(m) => match m.as_str() {
                Some(t) => Some(t.to_owned()),
                None => None,
            },
            None => None,
        },
        None => None,
    }
}

} // verus!
