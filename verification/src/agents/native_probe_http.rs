//! The loopback side of the check of ClaudeCode: reading one request and making its answer.

use vstd::prelude::*;
use crate::agents::collaboration_probe::{
    asked_command, has_text, text_at, texted, ClaudeReply, CollaborationChallenge,
};
use crate::agents::executable::{split_words, words};
use crate::json::{
    array_view, compact_json, object_view, parse_json, parsed_json, put_member, to_bytes, Json,
    JsonView,
};
use crate::paths::{split, split_text};
use crate::text::{
    after_first, after_prefix, before_first, before_suffix, decimal, decimal_text, lowercase,
    lowered, parse_u64, parsed_u64, same, split_once, strip_prefix, strip_suffix, take_before,
    text_of_bytes, trim, trimmed, utf8_text, views_of,
};

verus! {

/// The most bytes that a request's head or body may have.
pub const REQUEST_LIMIT: usize = 131_072;

/// How long, in milliseconds, a request may take to arrive.
pub const REQUEST_DEADLINE_MS: u64 = 2_000;

/// Whether a head ends at a place: there is an empty line.
pub open spec fn ends_at(bytes: Seq<u8>, i: int) -> bool {
    0 <= i && i + 4 <= bytes.len() && bytes[i] == 13 && bytes[i + 1] == 10 && bytes[i + 2] == 13
        && bytes[i + 3] == 10
}

/// Where a head ends first.
#[verifier::opaque]
pub open spec fn head_end(bytes: Seq<u8>) -> Option<int> {
    if exists|i: int| ends_at(bytes, i) {
        Some(choose|i: int| ends_at(bytes, i) && forall|j: int| 0 <= j < i ==> !ends_at(bytes, j))
    } else {
        None
    }
}

fn find_head_end(bytes: &[u8]) -> (r: Option<usize>)
    ensures
        match r {
            Some(i) => head_end(bytes@) == Some(i as int) && i + 4 <= bytes@.len(),
            None => head_end(bytes@) is None,
        },
{
    let total: usize = bytes.len();
    let mut i: usize = 0;
    proof {
        reveal(head_end);
    }
    while i < total && total - i >= 4
        invariant
            i <= total,
            total == bytes@.len(),
            forall|j: int| 0 <= j < i ==> !ends_at(bytes@, j),
        decreases total - i,
    {
        if bytes[i] == 13 && bytes[i + 1] == 10 && bytes[i + 2] == 13 && bytes[i + 3] == 10 {
            proof {
                reveal(head_end);
                let at = i as int;
                assert(ends_at(bytes@, at) && forall|j: int| 0 <= j < at ==> !ends_at(bytes@, j));
                let chosen = choose|k: int|
                    ends_at(bytes@, k) && forall|j: int| 0 <= j < k ==> !ends_at(bytes@, j);
                assert(ends_at(bytes@, chosen));
                if chosen < at {
                    assert(!ends_at(bytes@, chosen));
                }
                if at < chosen {
                    assert(!ends_at(bytes@, at));
                }
            }
            return Some(i);
        }
        i += 1;
    }
    proof {
        assert forall|k: int| !ends_at(bytes@, k) by {
            if ends_at(bytes@, k) {
                assert(k < i);
            }
        }
    }
    None
}

/// A line without the carriage return at its end.
pub open spec fn without_return(line: Seq<char>) -> Seq<char> {
    match before_suffix(line, "\r"@) {
        Some(bare) => bare,
        None => line,
    }
}

/// The lines of a text. The last one keeps a carriage return at its end, unless a line feed follows
/// it.
pub open spec fn lines(text: Seq<char>) -> Seq<Seq<char>> {
    let parts = split(text, '\n');
    let ended = parts.drop_last().map_values(|line: Seq<char>| without_return(line));
    if parts.last().len() == 0 {
        ended
    } else {
        ended.push(parts.last())
    }
}

fn split_lines(text: &str) -> (r: Vec<String>)
    ensures
        views_of(r@) == lines(text@),
{
    let parts = split_text(text, '\n');
    let ghost all = views_of(parts@);
    let ghost bare = |line: Seq<char>| without_return(line);
    let mut out: Vec<String> = Vec::new();
    let mut i: usize = 0;
    assert(views_of(out@) =~= all.take(0).map_values(bare));
    assert(parts.len() > 0);
    while i < parts.len() - 1
        invariant
            i < parts.len(),
            all == views_of(parts@),
            bare == (|line: Seq<char>| without_return(line)),
            views_of(out@) == all.take(i as int).map_values(bare),
        decreases parts.len() - i,
    {
        let ghost before = views_of(out@);
        let line = match strip_suffix(parts[i].as_str(), "\r") {
            Some(line) => line,
            None => parts[i].clone(),
        };
        out.push(line);
        proof {
            assert(views_of(out@) =~= before.push(without_return(all[i as int])));
            assert(all.take(i + 1).map_values(bare) =~= all.take(i as int).map_values(bare).push(
                bare(all[i as int]),
            ));
        }
        i += 1;
    }
    proof {
        assert(all.take(i as int) == all.drop_last());
        assert(all.last() == parts@[i as int]@);
        reveal_strlit("");
    }
    if !same(parts[i].as_str(), "") {
        let ghost before = views_of(out@);
        out.push(parts[i].clone());
        proof {
            assert(views_of(out@) =~= before.push(all.last()));
            if all.last().len() == 0 {
                assert(all.last() =~= ""@);
            }
        }
    }
    out
}

/// What the lines of a head say: the credential and the length of the body.
pub struct Fields {
    pub authorization: Option<Seq<char>>,
    pub length: Option<u64>,
}

/// One line of a head.
pub open spec fn with_line(fields: Fields, line: Seq<char>) -> Result<Fields, Seq<char>> {
    if !line.contains(':') {
        Err("header"@)
    } else {
        let key = lowered(before_first(line, ':'));
        let value = trimmed(after_first(line, ':'));
        if key == "authorization"@ {
            match after_prefix(value, "Bearer "@) {
                None => Err("bearer"@),
                Some(token) => if fields.authorization is Some {
                    Err("duplicate auth"@)
                } else {
                    Ok(Fields { authorization: Some(token), ..fields })
                },
            }
        } else if key == "content-length"@ {
            match parsed_u64(value) {
                None => Err("length"@),
                Some(length) => if fields.length is Some {
                    Err("duplicate length"@)
                } else {
                    Ok(Fields { length: Some(length), ..fields })
                },
            }
        } else {
            Ok(fields)
        }
    }
}

pub open spec fn fields_of(lines: Seq<Seq<char>>) -> Result<Fields, Seq<char>>
    decreases lines.len(),
{
    if lines.len() == 0 {
        Ok(Fields { authorization: None, length: None })
    } else {
        match fields_of(lines.drop_last()) {
            Err(fault) => Err(fault),
            Ok(fields) => with_line(fields, lines.last()),
        }
    }
}

proof fn lemma_fields_error(lines: Seq<Seq<char>>, k: int)
    requires
        0 <= k <= lines.len(),
        fields_of(lines.take(k)) is Err,
    ensures
        fields_of(lines) == fields_of(lines.take(k)),
    decreases lines.len() - k,
{
    if k < lines.len() {
        assert(lines.take(k + 1).drop_last() == lines.take(k));
        lemma_fields_error(lines, k + 1);
    } else {
        assert(lines.take(k) == lines);
    }
}

/// What a head asks for.
pub enum Head {
    Hello,
    Body { length: u64, counting: bool },
}

/// What the text of a head asks for, or what is wrong with it.
#[verifier::opaque]
pub open spec fn head_of(text: Seq<char>, expected_auth: Seq<char>) -> Result<Head, Seq<char>> {
    let all = lines(text);
    if all.len() == 0 {
        Err("request"@)
    } else {
        let first = words(all[0]);
        let path = before_first(first[1], '?');
        if first.len() == 0 {
            Err("method"@)
        } else if first.len() == 1 {
            Err("path"@)
        } else if first[0] == "HEAD"@ && path == "/api/hello"@ {
            Ok(Head::Hello)
        } else if first[0] != "POST"@ {
            Err("method"@)
        } else if path != "/v1/messages/count_tokens"@ && path != "/v1/messages"@ {
            Err("path"@)
        } else {
            match fields_of(all.skip(1)) {
                Err(fault) => Err(fault),
                Ok(fields) => if fields.authorization != Some(expected_auth) {
                    Err("wrong authentication"@)
                } else {
                    match fields.length {
                        Some(length) => if length <= REQUEST_LIMIT {
                            Ok(Head::Body { length, counting: path == "/v1/messages/count_tokens"@ })
                        } else {
                            Err("length"@)
                        },
                        None => Err("length"@),
                    }
                },
            }
        }
    }
}

struct Read {
    authorization: Option<String>,
    length: Option<u64>,
}

impl Read {
    spec fn fields(self) -> Fields {
        Fields {
            authorization: match self.authorization {
                Some(token) => Some(token@),
                None => None,
            },
            length: self.length,
        }
    }
}

fn read_line(read: &mut Read, line: &str) -> (r: Option<&'static str>)
    ensures
        match with_line(old(read).fields(), line@) {
            Err(fault) => r matches Some(context) && context@ == fault,
            Ok(fields) => r is None && final(read).fields() == fields,
        },
{
    let (key, rest) = match split_once(line, ':') {
        Some((key, rest)) => (key, rest),
        None => {
            return Some("header");
        },
    };
    let key = lowercase(key.as_str());
    let value = trim(rest.as_str());
    if same(key.as_str(), "authorization") {
        match strip_prefix(value.as_str(), "Bearer ") {
            None => {
                return Some("bearer");
            },
            Some(token) => {
                if read.authorization.is_some() {
                    return Some("duplicate auth");
                }
                read.authorization = Some(token);
            },
        }
    } else if same(key.as_str(), "content-length") {
        match parse_u64(value.as_str()) {
            None => {
                return Some("length");
            },
            Some(length) => {
                if read.length.is_some() {
                    return Some("duplicate length");
                }
                read.length = Some(length);
            },
        }
    }
    None
}

/// How the reading of a request goes on.
#[derive(Clone, Copy, Debug, PartialEq, Eq, Structural)]
pub enum HeadStep {
    /// Read more.
    More,
    /// Answer that nothing is there, and stop.
    Hello,
    /// The body starts at a place and has a length; tokens are counted, or a message is made.
    Body { start: usize, length: usize, counting: bool },
}

pub open spec fn is_head_result(
    r: Result<HeadStep, &'static str>,
    bytes: Seq<u8>,
    elapsed_ms: u64,
    expected_auth: Seq<char>,
) -> bool {
    if bytes.len() > REQUEST_LIMIT || elapsed_ms > REQUEST_DEADLINE_MS {
        r matches Err(context) && context@ == "request bound"@
    } else {
        match head_end(bytes) {
            None => r matches Ok(HeadStep::More),
            Some(end) => match utf8_text(bytes.take(end)) {
                None => r matches Err(context) && context@ == "encoding"@,
                Some(text) => match head_of(text, expected_auth) {
                    Err(fault) => r matches Err(context) && context@ == fault,
                    Ok(Head::Hello) => r matches Ok(HeadStep::Hello),
                    Ok(Head::Body { length, counting }) => r matches Ok(
                        HeadStep::Body { start, length: l, counting: c },
                    ) && start == end + 4 && l == length && c == counting,
                },
            },
        }
    }
}

fn read_head(text: &str, end: usize, expected_auth: &str) -> (r: Result<HeadStep, &'static str>)
    requires
        end + 4 <= usize::MAX,
    ensures
        match head_of(text@, expected_auth@) {
            Err(fault) => r matches Err(context) && context@ == fault,
            Ok(Head::Hello) => r matches Ok(HeadStep::Hello),
            Ok(Head::Body { length, counting }) => r matches Ok(
                HeadStep::Body { start, length: l, counting: c },
            ) && start == end + 4 && l == length && c == counting,
        },
{
    let list = split_lines(text);
    let ghost all = views_of(list@);
    proof {
        reveal(head_of);
    }
    if list.len() == 0 {
        assert(all.len() == 0);
        return Err("request");
    }
    assert(all[0] == list@[0]@);
    let first = split_words(list[0].as_str());
    let ghost parts = views_of(first@);
    if first.len() == 0 {
        assert(parts.len() == 0);
        return Err("method");
    }
    if first.len() == 1 {
        assert(parts.len() == 1);
        return Err("path");
    }
    assert(parts[0] == first@[0]@ && parts[1] == first@[1]@);
    let method = first[0].as_str();
    let path = take_before(first[1].as_str(), '?');
    if same(method, "HEAD") && same(path.as_str(), "/api/hello") {
        return Ok(HeadStep::Hello);
    }
    if !same(method, "POST") {
        return Err("method");
    }
    let counting = same(path.as_str(), "/v1/messages/count_tokens");
    if !counting && !same(path.as_str(), "/v1/messages") {
        return Err("path");
    }
    let ghost rest = all.skip(1);
    let mut read = Read { authorization: None, length: None };
    let mut i: usize = 1;
    assert(rest.take(0) == Seq::<Seq<char>>::empty());
    let mut fault: Option<&'static str> = None;
    while i < list.len() && fault.is_none()
        invariant
            1 <= i <= list.len(),
            all == views_of(list@),
            rest == all.skip(1),
            match fault {
                None => fields_of(rest.take(i - 1)) == Ok::<Fields, Seq<char>>(read.fields()),
                Some(context) => fields_of(rest.take(i - 1)) == Err::<Fields, Seq<char>>(context@),
            },
        decreases list.len() - i,
    {
        proof {
            assert(rest.take(i as int).drop_last() == rest.take(i - 1));
            assert(rest.take(i as int).last() == list@[i as int]@);
        }
        fault = read_line(&mut read, list[i].as_str());
        i += 1;
    }
    match fault {
        Some(context) => {
            proof {
                lemma_fields_error(rest, i - 1);
            }
            return Err(context);
        },
        None => {},
    }
    assert(rest.take(i - 1) == rest);
    let authorized = match &read.authorization {
        Some(token) => same(token.as_str(), expected_auth),
        None => false,
    };
    if !authorized {
        return Err("wrong authentication");
    }
    match read.length {
        Some(length) => {
            if length <= REQUEST_LIMIT as u64 {
                Ok(HeadStep::Body { start: end + 4, length: length as usize, counting })
            } else {
                Err("length")
            }
        },
        None => Err("length"),
    }
}

/// Judges what was read of a request so far.
pub fn on_head(bytes: &[u8], elapsed_ms: u64, expected_auth: &str) -> (r: Result<
    HeadStep,
    &'static str,
>)
    ensures
        is_head_result(r, bytes@, elapsed_ms, expected_auth@),
{
    if bytes.len() > REQUEST_LIMIT || elapsed_ms > REQUEST_DEADLINE_MS {
        return Err("request bound");
    }
    let end = match find_head_end(bytes) {
        Some(end) => end,
        None => {
            return Ok(HeadStep::More);
        },
    };
    let head = vstd::slice::slice_subrange(bytes, 0, end);
    assert(head@ =~= bytes@.take(end as int));
    let text = match text_of_bytes(head) {
        Some(text) => text,
        None => {
            return Err("encoding");
        },
    };
    read_head(text.as_str(), end, expected_auth)
}

/// Whether the body is there, or more is to be read.
pub fn on_body(read: usize, start: usize, length: usize, elapsed_ms: u64) -> (r: Result<
    bool,
    &'static str,
>)
    requires
        start + length <= usize::MAX,
    ensures
        if read >= start + length {
            r matches Ok(whole) && whole
        } else if elapsed_ms > REQUEST_DEADLINE_MS {
            r matches Err(context) && context@ == "body deadline"@
        } else {
            r matches Ok(whole) && !whole
        },
{
    if read >= start + length {
        return Ok(true);
    }
    if elapsed_ms > REQUEST_DEADLINE_MS {
        return Err("body deadline");
    }
    Ok(false)
}

/// A response: its kind and its body, with the length that the body has.
pub open spec fn response(kind: Seq<char>, body: Seq<u8>) -> Seq<u8> {
    vstd::utf8::encode_utf8("HTTP/1.1 200 OK\r\nContent-Type: "@) + vstd::utf8::encode_utf8(kind)
        + vstd::utf8::encode_utf8("\r\nContent-Length: "@) + vstd::utf8::encode_utf8(
        decimal_text(body.len()),
    ) + vstd::utf8::encode_utf8("\r\nConnection: close\r\n\r\n"@) + body
}

fn push_text(out: &mut Vec<u8>, text: &str)
    ensures
        final(out)@ == old(out)@ + vstd::utf8::encode_utf8(text@),
{
    out.extend_from_slice(text.as_bytes());
}

fn write_response(kind: &str, body: &[u8]) -> (r: Vec<u8>)
    ensures
        r@ == response(kind@, body@),
{
    let mut out: Vec<u8> = Vec::new();
    assert(out@ + vstd::utf8::encode_utf8("HTTP/1.1 200 OK\r\nContent-Type: "@)
        =~= vstd::utf8::encode_utf8("HTTP/1.1 200 OK\r\nContent-Type: "@));
    push_text(&mut out, "HTTP/1.1 200 OK\r\nContent-Type: ");
    push_text(&mut out, kind);
    push_text(&mut out, "\r\nContent-Length: ");
    push_text(&mut out, decimal(body.len() as u64).as_str());
    push_text(&mut out, "\r\nConnection: close\r\n\r\n");
    out.extend_from_slice(body);
    out
}

/// The answer to a greeting.
pub fn hello_response() -> (r: Vec<u8>)
    ensures
        r@ == vstd::utf8::encode_utf8(
            "HTTP/1.1 404 Not Found\r\nContent-Length: 0\r\nConnection: close\r\n\r\n"@,
        ),
{
    let mut out: Vec<u8> = Vec::new();
    push_text(
        &mut out,
        "HTTP/1.1 404 Not Found\r\nContent-Length: 0\r\nConnection: close\r\n\r\n",
    );
    assert(out@ =~= vstd::utf8::encode_utf8(
        "HTTP/1.1 404 Not Found\r\nContent-Length: 0\r\nConnection: close\r\n\r\n"@,
    ));
    out
}

/// Whether a request's body is for a model.
pub open spec fn body_fault(body: Option<JsonView>, model: Seq<char>) -> Option<Seq<char>> {
    match body {
        None => Some("json"@),
        Some(request) => if !has_text(request, "model"@, model) {
            Some("wrong model"@)
        } else {
            None
        },
    }
}

/// Reads the body of a request.
pub fn read_request(body: &[u8], model: &str) -> (r: Result<Json, &'static str>)
    ensures
        match body_fault(parsed_json(body@), model@) {
            Some(fault) => r matches Err(context) && context@ == fault,
            None => r matches Ok(request) && Some(request@) == parsed_json(body@),
        },
{
    match parse_json(body) {
        None => Err("json"),
        Some(request) => {
            if !text_at(&request, "model", model) {
                return Err("wrong model");
            }
            Ok(request)
        },
    }
}

/// The answer to a request that counts tokens.
pub fn counting_response() -> (r: Vec<u8>)
    ensures
        r@ == response("application/json"@, vstd::utf8::encode_utf8("{\"input_tokens\":1}"@)),
{
    write_response("application/json", "{\"input_tokens\":1}".as_bytes())
}

/// One event of an answer.
pub open spec fn event(name: Seq<char>, data: JsonView) -> Seq<u8> {
    vstd::utf8::encode_utf8("event: "@) + vstd::utf8::encode_utf8(name) + vstd::utf8::encode_utf8(
        "\ndata: "@,
    ) + compact_json(data) + vstd::utf8::encode_utf8("\n\n"@)
}

fn push_event(out: &mut Vec<u8>, name: &str, data: &Json)
    ensures
        final(out)@ == old(out)@ + event(name@, data@),
{
    let ghost before = out@;
    push_text(out, "event: ");
    push_text(out, name);
    push_text(out, "\ndata: ");
    out.extend_from_slice(to_bytes(data).as_slice());
    push_text(out, "\n\n");
    assert(out@ =~= before + event(name@, data@));
}

pub open spec fn message_start(model: Seq<char>) -> JsonView {
    JsonView::Object(
        map![
            "type"@ => JsonView::Str("message_start"@),
            "message"@ => JsonView::Object(
                map![
                    "id"@ => JsonView::Str("msg_probe"@),
                    "type"@ => JsonView::Str("message"@),
                    "role"@ => JsonView::Str("assistant"@),
                    "content"@ => JsonView::Array(Seq::empty()),
                    "model"@ => JsonView::Str(model),
                    "stop_reason"@ => JsonView::Null,
                    "stop_sequence"@ => JsonView::Null,
                    "usage"@ => JsonView::Object(
                        map![
                            "input_tokens"@ => JsonView::Int(1),
                            "output_tokens"@ => JsonView::Int(1),
                        ],
                    ),
                ],
            ),
        ],
    )
}

fn make_message_start(model: &str) -> (r: Json)
    ensures
        r@ == message_start(model@),
{
    let mut usage: Vec<(String, Json)> = Vec::new();
    put_member(&mut usage, "input_tokens", Json::Pos(1));
    put_member(&mut usage, "output_tokens", Json::Pos(1));
    let none: Vec<Json> = Vec::new();
    assert(array_view(none@) =~= Seq::<JsonView>::empty());
    let mut message: Vec<(String, Json)> = Vec::new();
    texted(&mut message, "id", "msg_probe");
    texted(&mut message, "type", "message");
    texted(&mut message, "role", "assistant");
    put_member(&mut message, "content", Json::Array(none));
    texted(&mut message, "model", model);
    put_member(&mut message, "stop_reason", Json::Null);
    put_member(&mut message, "stop_sequence", Json::Null);
    put_member(&mut message, "usage", Json::Object(usage));
    let mut members: Vec<(String, Json)> = Vec::new();
    texted(&mut members, "type", "message_start");
    put_member(&mut members, "message", Json::Object(message));
    Json::Object(members)
}

/// The input of the tool call that is asked for.
pub open spec fn tool_input(command: Seq<char>) -> JsonView {
    JsonView::Object(
        map!["command"@ => JsonView::Str(command), "timeout"@ => JsonView::Int(10000)],
    )
}

fn make_tool_input(command: &str) -> (r: Json)
    ensures
        r@ == tool_input(command@),
{
    let mut input: Vec<(String, Json)> = Vec::new();
    texted(&mut input, "command", command);
    put_member(&mut input, "timeout", Json::Pos(10000));
    Json::Object(input)
}

pub open spec fn start_block(command: Option<Seq<char>>) -> JsonView {
    match command {
        Some(_) => JsonView::Object(
            map![
                "type"@ => JsonView::Str("tool_use"@),
                "id"@ => JsonView::Str("toolu_hiroute_probe"@),
                "name"@ => JsonView::Str("Bash"@),
                "input"@ => JsonView::Object(Map::empty()),
            ],
        ),
        None => JsonView::Object(
            map!["type"@ => JsonView::Str("text"@), "text"@ => JsonView::Str(""@)],
        ),
    }
}

pub open spec fn delta_of(command: Option<Seq<char>>) -> JsonView {
    match command {
        Some(command) => JsonView::Object(
            map![
                "type"@ => JsonView::Str("input_json_delta"@),
                "partial_json"@ => match utf8_text(compact_json(tool_input(command))) {
                    Some(text) => JsonView::Str(text),
                    None => JsonView::Null,
                },
            ],
        ),
        None => JsonView::Object(
            map!["type"@ => JsonView::Str("text_delta"@), "text"@ => JsonView::Str("OK"@)],
        ),
    }
}

pub open spec fn stop_reason_of(command: Option<Seq<char>>) -> Seq<char> {
    match command {
        Some(_) => "tool_use"@,
        None => "end_turn"@,
    }
}

pub open spec fn indexed(name: Seq<char>) -> Map<Seq<char>, JsonView> {
    map!["type"@ => JsonView::Str(name), "index"@ => JsonView::Int(0)]
}

fn make_indexed(name: &str) -> (r: Vec<(String, Json)>)
    ensures
        object_view(r@) == indexed(name@),
{
    let mut members: Vec<(String, Json)> = Vec::new();
    texted(&mut members, "type", name);
    put_member(&mut members, "index", Json::Pos(0));
    members
}

pub open spec fn message_delta(reason: Seq<char>) -> JsonView {
    JsonView::Object(
        map![
            "type"@ => JsonView::Str("message_delta"@),
            "delta"@ => JsonView::Object(
                map!["stop_reason"@ => JsonView::Str(reason), "stop_sequence"@ => JsonView::Null],
            ),
            "usage"@ => JsonView::Object(map!["output_tokens"@ => JsonView::Int(1)]),
        ],
    )
}

/// The events of an answer: a text, or a call of the shell tool.
pub open spec fn events(model: Seq<char>, command: Option<Seq<char>>) -> Seq<u8> {
    event("message_start"@, message_start(model)) + event(
        "content_block_start"@,
        JsonView::Object(
            indexed("content_block_start"@).insert("content_block"@, start_block(command)),
        ),
    ) + event(
        "content_block_delta"@,
        JsonView::Object(indexed("content_block_delta"@).insert("delta"@, delta_of(command))),
    ) + event("content_block_stop"@, JsonView::Object(indexed("content_block_stop"@))) + event(
        "message_delta"@,
        message_delta(stop_reason_of(command)),
    ) + event(
        "message_stop"@,
        JsonView::Object(map!["type"@ => JsonView::Str("message_stop"@)]),
    )
}

fn make_start_block(reply: &ClaudeReply) -> (r: Json)
    ensures
        r@ == start_block(asked_command(*reply)),
{
    let mut block: Vec<(String, Json)> = Vec::new();
    match reply {
        ClaudeReply::Call { .. } => {
            let none: Vec<(String, Json)> = Vec::new();
            assert(object_view(none@) =~= Map::<Seq<char>, JsonView>::empty());
            texted(&mut block, "type", "tool_use");
            texted(&mut block, "id", "toolu_hiroute_probe");
            texted(&mut block, "name", "Bash");
            put_member(&mut block, "input", Json::Object(none));
        },
        ClaudeReply::Done => {
            texted(&mut block, "type", "text");
            texted(&mut block, "text", "");
        },
    }
    Json::Object(block)
}

fn make_delta(reply: &ClaudeReply) -> (r: Json)
    ensures
        r@ == delta_of(asked_command(*reply)),
{
    let mut delta: Vec<(String, Json)> = Vec::new();
    match reply {
        ClaudeReply::Call { command } => {
            texted(&mut delta, "type", "input_json_delta");
            let bytes = to_bytes(&make_tool_input(command.as_str()));
            let text = match text_of_bytes(bytes.as_slice()) {
                Some(text) => Json::Str(text),
                None => Json::Null,
            };
            put_member(&mut delta, "partial_json", text);
        },
        ClaudeReply::Done => {
            texted(&mut delta, "type", "text_delta");
            texted(&mut delta, "text", "OK");
        },
    }
    Json::Object(delta)
}

/// The answer to a message. A request that no challenge answers ends at once.
pub fn message_response(model: &str, reply: &ClaudeReply) -> (r: Vec<u8>)
    ensures
        r@ == response("text/event-stream"@, events(model@, asked_command(*reply))),
{
    let mut body: Vec<u8> = Vec::new();
    let ghost command = asked_command(*reply);
    assert(body@ + event("message_start"@, message_start(model@)) =~= event(
        "message_start"@,
        message_start(model@),
    ));
    push_event(&mut body, "message_start", &make_message_start(model));
    let mut started = make_indexed("content_block_start");
    put_member(&mut started, "content_block", make_start_block(reply));
    push_event(&mut body, "content_block_start", &Json::Object(started));
    let mut changed = make_indexed("content_block_delta");
    put_member(&mut changed, "delta", make_delta(reply));
    push_event(&mut body, "content_block_delta", &Json::Object(changed));
    push_event(
        &mut body,
        "content_block_stop",
        &Json::Object(make_indexed("content_block_stop")),
    );
    let reason = match reply {
        ClaudeReply::Call { .. } => "tool_use",
        ClaudeReply::Done => "end_turn",
    };
    let mut delta: Vec<(String, Json)> = Vec::new();
    texted(&mut delta, "stop_reason", reason);
    put_member(&mut delta, "stop_sequence", Json::Null);
    let mut usage: Vec<(String, Json)> = Vec::new();
    put_member(&mut usage, "output_tokens", Json::Pos(1));
    let mut message: Vec<(String, Json)> = Vec::new();
    texted(&mut message, "type", "message_delta");
    put_member(&mut message, "delta", Json::Object(delta));
    put_member(&mut message, "usage", Json::Object(usage));
    push_event(&mut body, "message_delta", &Json::Object(message));
    let mut stop: Vec<(String, Json)> = Vec::new();
    texted(&mut stop, "type", "message_stop");
    push_event(&mut body, "message_stop", &Json::Object(stop));
    write_response("text/event-stream", body.as_slice())
}

/// The answer to a request that has been read whole, and whether the request was a message with
/// the expected grant.
#[derive(Debug)]
pub struct ServedAnswer {
    pub bytes: Vec<u8>,
    pub authenticated: bool,
}

/// What a message is answered: what the challenge asks for, or nothing more where there is none.
pub open spec fn message_answer(
    challenge: Option<CollaborationChallenge>,
    body: JsonView,
) -> Result<Option<Seq<char>>, Seq<char>> {
    match challenge {
        Some(challenge) => challenge.claude_answer(body),
        None => Ok(None),
    }
}

/// Answers a request whose head was accepted. One that counts tokens gets a count and does not
/// show that a message was sent; any other is a message.
pub fn answer_request(
    body: &[u8],
    model: &str,
    counting: bool,
    challenge: &mut Option<CollaborationChallenge>,
) -> (r: Result<ServedAnswer, &'static str>)
    ensures
        match body_fault(parsed_json(body@), model@) {
            Some(fault) => r matches Err(context) && context@ == fault && *final(challenge) == *old(
                challenge,
            ),
            None => if counting {
                r matches Ok(answer) && !answer.authenticated && answer.bytes@ == response(
                    "application/json"@,
                    vstd::utf8::encode_utf8("{\"input_tokens\":1}"@),
                ) && *final(challenge) == *old(challenge)
            } else {
                &&& match message_answer(*old(challenge), parsed_json(body@)->0) {
                    Err(fault) => r matches Err(context) && context@ == fault,
                    Ok(command) => r matches Ok(answer) && answer.authenticated && answer.bytes@
                        == response("text/event-stream"@, events(model@, command)),
                }
                &&& match *old(challenge) {
                    Some(before) => *final(challenge) matches Some(after) && after.follows_claude(
                        before,
                        parsed_json(body@)->0,
                    ),
                    None => *final(challenge) is None,
                }
            },
        },
{
    let request = match read_request(body, model) {
        Ok(request) => request,
        Err(context) => return Err(context),
    };
    if counting {
        return Ok(ServedAnswer { bytes: counting_response(), authenticated: false });
    }
    let reply = match challenge.take() {
        Some(mut asked) => {
            let answered = asked.reply_claude(&request);
            *challenge = Some(asked);
            match answered {
                Ok(reply) => reply,
                Err(context) => return Err(context),
            }
        },
        None => ClaudeReply::Done,
    };
    Ok(ServedAnswer { bytes: message_response(model, &reply), authenticated: true })
}

} // verus!
