//! What a check asks of an agent, what proves it, and which requests are answered at all.

use vstd::prelude::*;
use crate::agents::claude_config::shell_quoted;
use crate::agents::collaboration_probe::{
    claude_proved, codex_arguments, codex_proved, has_text, is_claude_proof, is_codex_proof,
    is_within, items_at, mentions, message_proves, part_texts, result_text, shell_tool,
    CollaborationChallenge,
};
use crate::agents::executable::words;
use crate::agents::native_probe_http::{
    ends_at, fields_of, head_end, head_of, lines, on_body, on_head, read_request, response, Fields,
    HeadStep,
};
use crate::json::{parsed_json, Json, JsonView};
use crate::text::{
    after_first, after_prefix, before_first, decimal_text, lowered, parsed_u64, trimmed, utf8_text,
};

verus! {

/// Whether a value is an object that says so of a name.
pub open spec fn says(json: JsonView, name: Seq<char>, text: Seq<char>) -> bool {
    json matches JsonView::Object(members) && members.contains_key(name) && members[name]
        == JsonView::Str(text)
}

/// The items of an object's list.
pub open spec fn holds(json: JsonView, name: Seq<char>, item: JsonView) -> bool {
    json matches JsonView::Object(members) && members.contains_key(name) && (
    members[name] matches JsonView::Array(items) && items.contains(item))
}

/// ClaudeCode is asked for the command of the challenge once its request shows the contents of the
/// skill and declares a shell, and never before.
pub proof fn commands_are_asked_for_after_discovery(
    challenge: CollaborationChallenge,
    body: JsonView,
)
    requires
        !challenge.issued,
    ensures
        challenge.claude_answer(body) is Ok <==> mentions(body, challenge.contents@) && exists|
            tool: JsonView,
        | #[trigger]
            holds(body, "tools"@, tool) && says(tool, "name"@, "Bash"@),
        challenge.claude_answer(body) matches Ok(answer) ==> answer == Some(challenge.command@),
{
    if let Some(tools) = items_at(body, "tools"@) {
        if exists|i: int| 0 <= i < tools.len() && has_text(#[trigger] tools[i], "name"@, "Bash"@) {
            let i = choose|i: int|
                0 <= i < tools.len() && has_text(#[trigger] tools[i], "name"@, "Bash"@);
            assert(holds(body, "tools"@, tools[i]) && says(tools[i], "name"@, "Bash"@));
        }
        if exists|tool: JsonView| #[trigger]
            holds(body, "tools"@, tool) && says(tool, "name"@, "Bash"@) {
            let tool = choose|tool: JsonView| #[trigger]
                holds(body, "tools"@, tool) && says(tool, "name"@, "Bash"@);
            let i = choose|i: int| 0 <= i < tools.len() && tools[i] == tool;
            assert(has_text(tools[i], "name"@, "Bash"@));
        }
    }
}

/// Whether a block is the result of the asked call: no error, and with a text that shows both the
/// receipt of the skill's contents and what the command prints.
pub open spec fn shows_both(block: JsonView, contents: Seq<char>, expected: Seq<char>) -> bool {
    &&& says(block, "type"@, "tool_result"@)
    &&& says(block, "tool_use_id"@, "toolu_hiroute_probe"@)
    &&& !(block->Object_0.contains_key("is_error"@) && block->Object_0["is_error"@]
        == JsonView::Bool(true))
    &&& result_text(block) matches Some(text) && is_within(contents, text) && is_within(
        expected,
        text,
    )
}

/// A challenge of ClaudeCode is done only when some message brings the result of the very call that
/// was asked for, and that result shows both receipts.
pub proof fn challenges_are_done_by_their_own_result(
    challenge: CollaborationChallenge,
    body: JsonView,
)
    requires
        challenge.issued,
    ensures
        challenge.claude_answer(body) is Ok <==> exists|message: JsonView, block: JsonView|
            holds(body, "messages"@, message) && #[trigger] holds(message, "content"@, block)
                && shows_both(block, challenge.contents@, challenge.expected_cli@),
        challenge.claude_answer(body) matches Ok(answer) ==> answer is None,
{
    let contents = challenge.contents@;
    let expected = challenge.expected_cli@;
    if claude_proved(body, contents, expected) {
        let messages = items_at(body, "messages"@)->0;
        let i = choose|i: int|
            0 <= i < messages.len() && message_proves(#[trigger] messages[i], contents, expected);
        let blocks = items_at(messages[i], "content"@)->0;
        let j = choose|j: int|
            0 <= j < blocks.len() && is_claude_proof(#[trigger] blocks[j], contents, expected);
        assert(holds(body, "messages"@, messages[i]));
        assert(holds(messages[i], "content"@, blocks[j]));
        assert(shows_both(blocks[j], contents, expected));
    }
    if exists|message: JsonView, block: JsonView|
        holds(body, "messages"@, message) && #[trigger] holds(message, "content"@, block)
            && shows_both(block, contents, expected) {
        let (message, block) = choose|message: JsonView, block: JsonView|
            holds(body, "messages"@, message) && #[trigger] holds(message, "content"@, block)
                && shows_both(block, contents, expected);
        let messages = items_at(body, "messages"@)->0;
        let i = choose|i: int| 0 <= i < messages.len() && messages[i] == message;
        let blocks = items_at(message, "content"@)->0;
        let j = choose|j: int| 0 <= j < blocks.len() && blocks[j] == block;
        assert(is_claude_proof(blocks[j], contents, expected));
        assert(message_proves(messages[i], contents, expected));
    }
}

/// Codex has proved itself exactly where its input brings the output of the asked call, and that
/// output shows both receipts.
pub proof fn codex_is_proved_by_its_own_result(
    body: JsonView,
    contents: Seq<char>,
    expected: Seq<char>,
)
    ensures
        codex_proved(body, contents, expected) <==> exists|item: JsonView, output: Seq<char>|
            #![trigger holds(body, "input"@, item), says(item, "output"@, output)]
            holds(body, "input"@, item) && says(item, "type"@, "function_call_output"@) && says(
                item,
                "call_id"@,
                "call_hiroute_probe"@,
            ) && says(item, "output"@, output) && is_within(contents, output) && is_within(
                expected,
                output,
            ),
{
    if codex_proved(body, contents, expected) {
        let items = items_at(body, "input"@)->0;
        let i = choose|i: int|
            0 <= i < items.len() && is_codex_proof(#[trigger] items[i], contents, expected);
        let output = items[i]->Object_0["output"@]->Str_0;
        assert(holds(body, "input"@, items[i]));
        assert(says(items[i], "output"@, output));
    }
    if exists|item: JsonView, output: Seq<char>|
        #![trigger holds(body, "input"@, item), says(item, "output"@, output)]
        holds(body, "input"@, item) && says(item, "type"@, "function_call_output"@) && says(
            item,
            "call_id"@,
            "call_hiroute_probe"@,
        ) && says(item, "output"@, output) && is_within(contents, output) && is_within(
            expected,
            output,
        ) {
        let (item, output) = choose|item: JsonView, output: Seq<char>|
            #![trigger holds(body, "input"@, item), says(item, "output"@, output)]
            holds(body, "input"@, item) && says(item, "type"@, "function_call_output"@) && says(
                item,
                "call_id"@,
                "call_hiroute_probe"@,
            ) && says(item, "output"@, output) && is_within(contents, output) && is_within(
                expected,
                output,
            );
        let items = items_at(body, "input"@)->0;
        let i = choose|i: int| 0 <= i < items.len() && items[i] == item;
        assert(is_codex_proof(items[i], contents, expected));
    }
}

/// Codex is asked to call the first of its tools that runs a command, with the command under the
/// name that this tool takes it by.
pub proof fn codex_is_asked_to_call_its_shell(
    tools: Seq<JsonView>,
    command: Seq<char>,
    at: int,
)
    requires
        0 <= at < tools.len(),
        forall|i: int|
            0 <= i < at ==> !says(#[trigger] tools[i], "name"@, "exec_command"@) && !says(
                tools[i],
                "name"@,
                "shell_command"@,
            ),
    ensures
        says(tools[at], "name"@, "exec_command"@) ==> shell_tool(tools) == Some("exec_command"@),
        says(tools[at], "name"@, "shell_command"@) ==> shell_tool(tools) == Some("shell_command"@),
        says(codex_arguments("exec_command"@, command), "cmd"@, command),
        says(codex_arguments("shell_command"@, command), "command"@, command),
    decreases tools.len(),
{
    reveal_strlit("exec_command");
    reveal_strlit("shell_command");
    assert("exec_command"@.len() != "shell_command"@.len());
    reveal_strlit("cmd");
    reveal_strlit("max_output_tokens");
    reveal_strlit("yield_time_ms");
    reveal_strlit("command");
    reveal_strlit("timeout_ms");
    assert("cmd"@.len() == 3 && "max_output_tokens"@.len() == 17 && "yield_time_ms"@.len() == 13);
    assert("command"@.len() == 7 && "timeout_ms"@.len() == 10);
    if at > 0 {
        assert(!says(tools[0], "name"@, "exec_command"@));
        let rest = tools.skip(1);
        assert(rest[at - 1] == tools[at]);
        assert forall|i: int| 0 <= i < at - 1 implies !says(
            #[trigger] rest[i],
            "name"@,
            "exec_command"@,
        ) && !says(rest[i], "name"@, "shell_command"@) by {
            assert(rest[i] == tools[i + 1]);
        }
        codex_is_asked_to_call_its_shell(rest, command, at - 1);
    }
}

/// The text of a result in parts is made of the texts of all parts in their order; a part without a
/// text adds none.
pub proof fn results_are_read_part_by_part(parts: Seq<JsonView>, part: JsonView, text: Seq<char>)
    ensures
        says(part, "text"@, text) ==> part_texts(parts.push(part)) == part_texts(parts).push(text),
        (forall|other: Seq<char>| !(#[trigger] says(part, "text"@, other))) ==> part_texts(
            parts.push(part),
        ) == part_texts(parts),
        part_texts(Seq::<JsonView>::empty()).len() == 0,
{
    let all = parts.push(part);
    assert(all.drop_last() =~= parts);
    assert(all.last() == part);
    if !(exists|other: Seq<char>| #[trigger] says(part, "text"@, other)) {
        if let JsonView::Object(members) = part {
            if members.contains_key("text"@) {
                if let JsonView::Str(own) = members["text"@] {
                    assert(says(part, "text"@, own));
                }
            }
        }
    }
}

/// A challenge is prepared only with a command that printed its contract. It reads the skill's file
/// and runs the command, each path quoted for the shell, and expects what the command printed. Its
/// two receipts differ.
pub proof fn challenges_expect_what_the_command_prints(
    entropy: &[u8],
    skill: &str,
    cli: &str,
    printed: &str,
    succeeded: bool,
    r: Result<CollaborationChallenge, &'static str>,
)
    requires
        call_ensures(CollaborationChallenge::prepare, (entropy, skill, cli, printed, succeeded), r),
    ensures
        r matches Ok(challenge) ==> {
            &&& succeeded
            &&& parsed_json(vstd::utf8::encode_utf8(printed@)) matches Some(envelope) && says(
                envelope,
                "status"@,
                "succeeded"@,
            )
            &&& challenge.command@ == "/bin/cat "@ + shell_quoted(skill@) + "; "@ + shell_quoted(
                cli@,
            ) + " schema list --output json"@
            &&& challenge.expected_cli@ == trimmed(printed@)
            &&& challenge.discovery@ != challenge.contents@
            &&& !challenge.issued && !challenge.completed
        },
{
    reveal_strlit("hiroute-discovery-");
    reveal_strlit("hiroute-contents-");
    if let Ok(challenge) = r {
        assert(challenge.discovery@[8] == 'd');
        assert(challenge.contents@[8] == 'c');
    }
}

/// A line of a head adds what it says: a credential behind its scheme, or a length; a second one of
/// either is refused, and any other line adds nothing.
pub proof fn head_lines_add_what_they_say(
    before: Seq<Seq<char>>,
    line: Seq<char>,
    name: Seq<char>,
    value: Seq<char>,
    token: Seq<char>,
)
    requires
        fields_of(before) is Ok,
        line.contains(':'),
        name == lowered(before_first(line, ':')),
        value == trimmed(after_first(line, ':')),
    ensures
        ({
            let fields = fields_of(before)->Ok_0;
            let after = fields_of(before.push(line));
            &&& name == "authorization"@ && after_prefix(value, "Bearer "@) == Some(token)
                && fields.authorization is None ==> (after matches Ok(now) && now.authorization
                == Some(token) && now.length == fields.length)
            &&& name == "authorization"@ && (fields.authorization is Some || after_prefix(
                value,
                "Bearer "@,
            ) is None) ==> after is Err
            &&& name == "content-length"@ && fields.length is Some ==> after is Err
            &&& name == "content-length"@ && fields.length is None && parsed_u64(value) is Some ==> (
            after matches Ok(now) && now.length == parsed_u64(value) && now.authorization
                == fields.authorization)
            &&& name != "authorization"@ && name != "content-length"@ ==> after == Ok::<
                Fields,
                Seq<char>,
            >(fields)
        }),
{
    assert(before.push(line).drop_last() =~= before);
    reveal_strlit("authorization");
    reveal_strlit("content-length");
    assert("authorization"@.len() == 13 && "content-length"@.len() == 14);
}

/// A request is answered with a message, or with a count, only where it is posted to the one path or
/// the other, with the one expected credential and a length within the bound; its body stands
/// behind the first empty line.
pub proof fn only_authenticated_requests_are_answered(
    bytes: &[u8],
    elapsed_ms: u64,
    expected_auth: &str,
    r: Result<HeadStep, &'static str>,
)
    requires
        call_ensures(on_head, (bytes, elapsed_ms, expected_auth), r),
        r matches Ok(HeadStep::Body { .. }),
    ensures
        ({
            let start = r->Ok_0->start as int;
            let text = utf8_text(bytes@.take(start - 4))->0;
            let first = words(lines(text)[0]);
            let path = before_first(first[1], '?');
            let fields = fields_of(lines(text).skip(1));
            &&& bytes@.len() <= 131_072 && elapsed_ms <= 2_000
            &&& 4 <= start <= bytes@.len() && bytes@[start - 4] == 13 && bytes@[start - 3] == 10
                && bytes@[start - 2] == 13 && bytes@[start - 1] == 10
            &&& first.len() >= 2 && first[0] == "POST"@
            &&& path == "/v1/messages"@ || path == "/v1/messages/count_tokens"@
            &&& r->Ok_0->counting <==> path == "/v1/messages/count_tokens"@
            &&& fields matches Ok(fields) && fields.authorization == Some(expected_auth@)
                && fields.length == Some(r->Ok_0->length as u64) && fields.length->0 <= 131_072
        }),
{
    reveal(head_end);
    reveal(head_of);
    let end = head_end(bytes@)->0;
    lemma_ends_first(bytes@);
    assert(ends_at(bytes@, end));
}

proof fn lemma_ends_first(bytes: Seq<u8>)
    ensures
        head_end(bytes) matches Some(end) ==> ends_at(bytes, end) && forall|j: int|
            0 <= j < end ==> !ends_at(bytes, j),
{
    reveal(head_end);
    if exists|i: int| ends_at(bytes, i) {
        let i = choose|i: int| ends_at(bytes, i);
        let first = lemma_least(bytes, i);
        assert(ends_at(bytes, first) && forall|j: int| 0 <= j < first ==> !ends_at(bytes, j));
    }
}

proof fn lemma_least(bytes: Seq<u8>, i: int) -> (first: int)
    requires
        ends_at(bytes, i),
    ensures
        ends_at(bytes, first) && forall|j: int| 0 <= j < first ==> !ends_at(bytes, j),
    decreases i,
{
    if exists|j: int| 0 <= j < i && ends_at(bytes, j) {
        let j = choose|j: int| 0 <= j < i && ends_at(bytes, j);
        lemma_least(bytes, j)
    } else {
        i
    }
}

/// A request is waited for while its head has no end, within its bounds.
pub proof fn heads_are_waited_for_within_bounds(
    bytes: &[u8],
    elapsed_ms: u64,
    expected_auth: &str,
    r: Result<HeadStep, &'static str>,
    at: int,
)
    requires
        call_ensures(on_head, (bytes, elapsed_ms, expected_auth), r),
    ensures
        bytes@.len() > 131_072 || elapsed_ms > 2_000 ==> r is Err,
        bytes@.len() <= 131_072 && elapsed_ms <= 2_000 && (forall|i: int| !ends_at(bytes@, i))
            ==> (r matches Ok(HeadStep::More)),
        ends_at(bytes@, at) ==> !(r matches Ok(HeadStep::More)),
{
    reveal(head_end);
    lemma_ends_first(bytes@);
}

/// A body is whole once as many bytes as were announced stand behind its start; until then it is
/// waited for, for two seconds.
pub proof fn bodies_are_waited_for(
    read: usize,
    start: usize,
    length: usize,
    elapsed_ms: u64,
    r: Result<bool, &'static str>,
)
    requires
        start + length <= usize::MAX,
        call_ensures(on_body, (read, start, length, elapsed_ms), r),
    ensures
        (r matches Ok(true)) <==> read >= start + length,
        (r matches Ok(false)) <==> read < start + length && elapsed_ms <= 2_000,
{
}

/// A request is read only where it is a document that asks for the expected model.
pub proof fn requests_ask_for_the_expected_model(
    body: &[u8],
    model: &str,
    r: Result<Json, &'static str>,
)
    requires
        call_ensures(read_request, (body, model), r),
    ensures
        r is Ok <==> (parsed_json(body@) matches Some(request) && says(request, "model"@, model@)),
        r matches Ok(request) ==> parsed_json(body@) == Some(request@),
{
}

/// A response carries its whole body behind its head, and nothing behind that.
pub proof fn responses_end_with_their_body(kind: Seq<char>, body: Seq<u8>)
    ensures
        response(kind, body).len() >= body.len(),
        response(kind, body).skip(response(kind, body).len() - body.len()) == body,
        response(kind, body).take(response(kind, body).len() - body.len())
            == vstd::utf8::encode_utf8("HTTP/1.1 200 OK\r\nContent-Type: "@)
            + vstd::utf8::encode_utf8(kind) + vstd::utf8::encode_utf8("\r\nContent-Length: "@)
            + vstd::utf8::encode_utf8(decimal_text(body.len())) + vstd::utf8::encode_utf8(
            "\r\nConnection: close\r\n\r\n"@,
        ),
{
    let head = vstd::utf8::encode_utf8("HTTP/1.1 200 OK\r\nContent-Type: "@)
        + vstd::utf8::encode_utf8(kind) + vstd::utf8::encode_utf8("\r\nContent-Length: "@)
        + vstd::utf8::encode_utf8(decimal_text(body.len())) + vstd::utf8::encode_utf8(
        "\r\nConnection: close\r\n\r\n"@,
    );
    let all = response(kind, body);
    assert(all =~= head + body);
    assert(all.skip(all.len() - body.len()) =~= body);
    assert(all.take(all.len() - body.len()) =~= head);
}

} // verus!
