//! A challenge to an agent: to find a skill by itself, to read it, and to run the installed command.
//!
//! The skill carries two receipts that stand nowhere in the prompt. The agent is asked once for one
//! fixed, read-only command, and passes only if the result of that very call shows both the receipt
//! of the skill's contents and what the command prints.

use vstd::prelude::*;
use crate::agents::claude_config::{shell_quote, shell_quoted};
use crate::digest::{hex, hex_text};
use crate::json::{
    array_view, compact_json, find_member, json_view, lemma_array_view, member_of, object_view,
    parse_json, parsed_json, put_member, to_bytes, Json, JsonView,
};
use crate::text::{join_texts, joined_with, same, trim, trimmed, views_of};

verus! {

/// Whether a part occurs in a sequence.
pub open spec fn occurs<T>(part: Seq<T>, all: Seq<T>) -> bool {
    exists|i: int| 0 <= i <= all.len() - part.len() && #[trigger] all.subrange(i, i + part.len())
        == part
}

/// Whether some bytes occur in others.
pub fn contains_bytes(all: &[u8], part: &[u8]) -> (r: bool)
    ensures
        r == occurs(part@, all@),
{
    if part.len() > all.len() {
        return false;
    }
    let total: usize = all.len();
    let last: usize = total - part.len();
    let mut i: usize = 0;
    loop
        invariant
            total == all@.len(),
            last == total - part@.len(),
            i <= last,
            forall|j: int|
                0 <= j < i ==> #[trigger] all@.subrange(j, j + part@.len()) != part@,
        decreases last - i,
    {
        let mut k: usize = 0;
        while k < part.len() && all[i + k] == part[k]
            invariant
                k <= part.len(),
                i <= last,
                total == all@.len(),
                last == total - part@.len(),
                forall|j: int| 0 <= j < k ==> #[trigger] part@[j] == all@[i + j],
            decreases part.len() - k,
        {
            k += 1;
        }
        let ghost window = all@.subrange(i as int, i + part@.len());
        if k == part.len() {
            assert(window =~= part@);
            return true;
        }
        proof {
            assert(window[k as int] == all@[i + k]);
            assert(window != part@);
        }
        if i == last {
            return false;
        }
        i += 1;
    }
}

/// Whether a text occurs in a text, byte by byte.
pub open spec fn is_within(part: Seq<char>, text: Seq<char>) -> bool {
    occurs(vstd::utf8::encode_utf8(part), vstd::utf8::encode_utf8(text))
}

fn within(part: &str, text: &str) -> (r: bool)
    ensures
        r == is_within(part@, text@),
{
    contains_bytes(text.as_bytes(), part.as_bytes())
}

#[derive(Debug)]
pub struct CollaborationChallenge {
    /// The receipt in the skill's description.
    pub discovery: String,
    /// The receipt in the skill's contents.
    pub contents: String,
    pub command: String,
    pub expected_cli: String,
    pub issued: bool,
    pub completed: bool,
}

/// What does not change in the course of a challenge.
pub open spec fn same_challenge(a: CollaborationChallenge, b: CollaborationChallenge) -> bool {
    a.discovery == b.discovery && a.contents == b.contents && a.command == b.command
        && a.expected_cli == b.expected_cli
}

/// A member of a value where it is an array.
pub open spec fn items_at(json: JsonView, name: Seq<char>) -> Option<Seq<JsonView>> {
    match member_of(json, name) {
        Some(JsonView::Array(items)) => Some(items),
        _ => None,
    }
}

pub open spec fn has_text(json: JsonView, name: Seq<char>, text: Seq<char>) -> bool {
    member_of(json, name) == Some(JsonView::Str(text))
}

pub(crate) fn member<'a>(json: &'a Json, name: &str) -> (r: Option<&'a Json>)
    ensures
        (match r {
            Some(value) => Some(value@),
            None => None,
        }) == member_of(json@, name@),
{
    match json {
        Json::Object(members) => find_member(members, name),
        _ => None,
    }
}

pub(crate) fn text_at(json: &Json, name: &str, text: &str) -> (r: bool)
    ensures
        r == has_text(json@, name@, text@),
{
    match member(json, name) {
        Some(Json::Str(value)) => same(value.as_str(), text),
        _ => false,
    }
}

/// Whether the skill's receipt is anywhere in a request.
pub open spec fn mentions(body: JsonView, receipt: Seq<char>) -> bool {
    occurs(vstd::utf8::encode_utf8(receipt), compact_json(body))
}

fn mentioned(body: &Json, receipt: &str) -> (r: bool)
    ensures
        r == mentions(body@, receipt@),
{
    contains_bytes(to_bytes(body).as_slice(), receipt.as_bytes())
}

/// The first tool of a list that runs a command.
pub open spec fn shell_tool(tools: Seq<JsonView>) -> Option<Seq<char>>
    decreases tools.len(),
{
    if tools.len() == 0 {
        None
    } else if has_text(tools[0], "name"@, "exec_command"@) {
        Some("exec_command"@)
    } else if has_text(tools[0], "name"@, "shell_command"@) {
        Some("shell_command"@)
    } else {
        shell_tool(tools.skip(1))
    }
}

fn find_shell_tool(tools: &Vec<Json>) -> (r: Option<&'static str>)
    ensures
        (match r {
            Some(name) => Some(name@),
            None => None,
        }) == shell_tool(array_view(tools@)),
{
    let ghost all = array_view(tools@);
    let mut i: usize = 0;
    proof {
        lemma_array_view(tools@);
        assert(all.skip(0) == all);
    }
    while i < tools.len()
        invariant
            i <= tools.len(),
            all == array_view(tools@),
            all.len() == tools@.len(),
            forall|j: int| 0 <= j < tools@.len() ==> #[trigger] all[j] == json_view(tools@[j]),
            shell_tool(all) == shell_tool(all.skip(i as int)),
        decreases tools.len() - i,
    {
        proof {
            assert(all.skip(i as int)[0] == all[i as int]);
            assert(all.skip(i as int).skip(1) == all.skip(i + 1));
        }
        if text_at(&tools[i], "name", "exec_command") {
            return Some("exec_command");
        }
        if text_at(&tools[i], "name", "shell_command") {
            return Some("shell_command");
        }
        i += 1;
    }
    None
}

pub open spec fn has_named_tool(tools: Seq<JsonView>, name: Seq<char>) -> bool {
    exists|i: int| 0 <= i < tools.len() && has_text(#[trigger] tools[i], "name"@, name)
}

fn named_tool(tools: &Vec<Json>, name: &str) -> (r: bool)
    ensures
        r == has_named_tool(array_view(tools@), name@),
{
    let ghost all = array_view(tools@);
    let mut i: usize = 0;
    proof {
        lemma_array_view(tools@);
    }
    while i < tools.len()
        invariant
            i <= tools.len(),
            all == array_view(tools@),
            all.len() == tools@.len(),
            forall|j: int| 0 <= j < tools@.len() ==> #[trigger] all[j] == json_view(tools@[j]),
            forall|j: int| 0 <= j < i ==> !has_text(#[trigger] all[j], "name"@, name@),
        decreases tools.len() - i,
    {
        if text_at(&tools[i], "name", name) {
            assert(has_text(all[i as int], "name"@, name@));
            return true;
        }
        i += 1;
    }
    false
}

/// The arguments of the call that Codex is asked for.
pub open spec fn codex_arguments(tool: Seq<char>, command: Seq<char>) -> JsonView {
    if tool == "exec_command"@ {
        JsonView::Object(
            map![
                "cmd"@ => JsonView::Str(command),
                "max_output_tokens"@ => JsonView::Int(2000),
                "yield_time_ms"@ => JsonView::Int(1000),
            ],
        )
    } else {
        JsonView::Object(
            map!["command"@ => JsonView::Str(command), "timeout_ms"@ => JsonView::Int(10000)],
        )
    }
}

fn codex_arguments_of(tool: &str, command: &str) -> (r: Json)
    ensures
        r@ == codex_arguments(tool@, command@),
{
    let mut members: Vec<(String, Json)> = Vec::new();
    if same(tool, "exec_command") {
        put_member(&mut members, "cmd", Json::Str(command.to_owned()));
        put_member(&mut members, "max_output_tokens", Json::Pos(2000));
        put_member(&mut members, "yield_time_ms", Json::Pos(1000));
    } else {
        put_member(&mut members, "command", Json::Str(command.to_owned()));
        put_member(&mut members, "timeout_ms", Json::Pos(10000));
    }
    Json::Object(members)
}

/// What Codex is asked for: one call of its shell tool.
#[derive(Debug)]
pub enum CodexReply {
    /// The tool's name and its arguments as a document.
    Call { name: &'static str, arguments: Json },
    Done,
}

/// What ClaudeCode is asked for: the command, or nothing more.
#[derive(Debug)]
pub enum ClaudeReply {
    Call { command: String },
    Done,
}

/// The command of a reply.
pub open spec fn asked_command(reply: ClaudeReply) -> Option<Seq<char>> {
    match reply {
        ClaudeReply::Call { command } => Some(command@),
        ClaudeReply::Done => None,
    }
}

/// Whether an item is the result of the call, and shows both the receipt and the command's output.
pub open spec fn is_codex_proof(
    item: JsonView,
    contents: Seq<char>,
    expected: Seq<char>,
) -> bool {
    has_text(item, "type"@, "function_call_output"@) && has_text(
        item,
        "call_id"@,
        "call_hiroute_probe"@,
    ) && (member_of(item, "output"@) matches Some(JsonView::Str(output)) && is_within(
        contents,
        output,
    ) && is_within(expected, output))
}

pub open spec fn has_codex_proof(
    items: Seq<JsonView>,
    contents: Seq<char>,
    expected: Seq<char>,
) -> bool {
    exists|i: int| 0 <= i < items.len() && is_codex_proof(#[trigger] items[i], contents, expected)
}

pub open spec fn codex_proved(body: JsonView, contents: Seq<char>, expected: Seq<char>) -> bool {
    items_at(body, "input"@) matches Some(input) && has_codex_proof(input, contents, expected)
}

fn codex_proof(item: &Json, contents: &str, expected: &str) -> (r: bool)
    ensures
        r == is_codex_proof(item@, contents@, expected@),
{
    if !text_at(item, "type", "function_call_output") || !text_at(
        item,
        "call_id",
        "call_hiroute_probe",
    ) {
        return false;
    }
    match member(item, "output") {
        Some(Json::Str(output)) => within(contents, output.as_str()) && within(
            expected,
            output.as_str(),
        ),
        _ => false,
    }
}

fn any_codex_proof(items: &Vec<Json>, contents: &str, expected: &str) -> (r: bool)
    ensures
        r == has_codex_proof(array_view(items@), contents@, expected@),
{
    let ghost all = array_view(items@);
    let mut i: usize = 0;
    proof {
        lemma_array_view(items@);
    }
    while i < items.len()
        invariant
            i <= items.len(),
            all == array_view(items@),
            all.len() == items@.len(),
            forall|j: int| 0 <= j < items@.len() ==> #[trigger] all[j] == json_view(items@[j]),
            forall|j: int|
                0 <= j < i ==> !is_codex_proof(#[trigger] all[j], contents@, expected@),
        decreases items.len() - i,
    {
        if codex_proof(&items[i], contents, expected) {
            assert(is_codex_proof(all[i as int], contents@, expected@));
            return true;
        }
        i += 1;
    }
    false
}

/// The texts of the parts of a result.
pub open spec fn part_texts(parts: Seq<JsonView>) -> Seq<Seq<char>>
    decreases parts.len(),
{
    if parts.len() == 0 {
        Seq::empty()
    } else {
        let before = part_texts(parts.drop_last());
        match member_of(parts.last(), "text"@) {
            Some(JsonView::Str(text)) => before.push(text),
            _ => before,
        }
    }
}

/// The text of a tool's result: a text, or the lines of its parts.
pub open spec fn result_text(block: JsonView) -> Option<Seq<char>> {
    match member_of(block, "content"@) {
        Some(JsonView::Str(text)) => Some(text),
        Some(JsonView::Array(parts)) => Some(joined_with(part_texts(parts), "\n"@)),
        _ => None,
    }
}

fn collect_parts(parts: &Vec<Json>) -> (r: Vec<String>)
    ensures
        views_of(r@) == part_texts(array_view(parts@)),
{
    let ghost all = array_view(parts@);
    let mut out: Vec<String> = Vec::new();
    let mut i: usize = 0;
    proof {
        lemma_array_view(parts@);
        assert(all.take(0) == Seq::<JsonView>::empty());
        assert(views_of(out@) =~= Seq::<Seq<char>>::empty());
    }
    while i < parts.len()
        invariant
            i <= parts.len(),
            all == array_view(parts@),
            all.len() == parts@.len(),
            forall|j: int| 0 <= j < parts@.len() ==> #[trigger] all[j] == json_view(parts@[j]),
            views_of(out@) == part_texts(all.take(i as int)),
        decreases parts.len() - i,
    {
        let ghost before = views_of(out@);
        proof {
            assert(all.take(i + 1).drop_last() == all.take(i as int));
            assert(all.take(i + 1).last() == all[i as int]);
        }
        match member(&parts[i], "text") {
            Some(Json::Str(text)) => {
                out.push(text.clone());
                assert(views_of(out@) =~= before.push(text@));
            },
            _ => {},
        }
        i += 1;
    }
    assert(all.take(i as int) == all);
    out
}

fn text_of_result(block: &Json) -> (r: Option<String>)
    ensures
        (match r {
            Some(text) => Some(text@),
            None => None,
        }) == result_text(block@),
{
    match member(block, "content") {
        Some(Json::Str(text)) => Some(text.clone()),
        Some(Json::Array(parts)) => Some(join_texts(&collect_parts(parts), "\n")),
        _ => None,
    }
}

/// Whether a block is the result of the call, no error, and shows both the receipt and the
/// command's output.
pub open spec fn is_claude_proof(
    block: JsonView,
    contents: Seq<char>,
    expected: Seq<char>,
) -> bool {
    has_text(block, "type"@, "tool_result"@) && has_text(
        block,
        "tool_use_id"@,
        "toolu_hiroute_probe"@,
    ) && member_of(block, "is_error"@) != Some(JsonView::Bool(true)) && (result_text(
        block,
    ) matches Some(output) && is_within(contents, output) && is_within(expected, output))
}

fn claude_proof(block: &Json, contents: &str, expected: &str) -> (r: bool)
    ensures
        r == is_claude_proof(block@, contents@, expected@),
{
    if !text_at(block, "type", "tool_result") || !text_at(
        block,
        "tool_use_id",
        "toolu_hiroute_probe",
    ) {
        return false;
    }
    match member(block, "is_error") {
        Some(Json::Bool(true)) => {
            return false;
        },
        _ => {},
    }
    match text_of_result(block) {
        Some(output) => within(contents, output.as_str()) && within(expected, output.as_str()),
        None => false,
    }
}

pub open spec fn has_claude_proof(
    blocks: Seq<JsonView>,
    contents: Seq<char>,
    expected: Seq<char>,
) -> bool {
    exists|i: int|
        0 <= i < blocks.len() && is_claude_proof(#[trigger] blocks[i], contents, expected)
}

fn any_claude_proof(blocks: &Vec<Json>, contents: &str, expected: &str) -> (r: bool)
    ensures
        r == has_claude_proof(array_view(blocks@), contents@, expected@),
{
    let ghost all = array_view(blocks@);
    let mut i: usize = 0;
    proof {
        lemma_array_view(blocks@);
    }
    while i < blocks.len()
        invariant
            i <= blocks.len(),
            all == array_view(blocks@),
            all.len() == blocks@.len(),
            forall|j: int| 0 <= j < blocks@.len() ==> #[trigger] all[j] == json_view(blocks@[j]),
            forall|j: int|
                0 <= j < i ==> !is_claude_proof(#[trigger] all[j], contents@, expected@),
        decreases blocks.len() - i,
    {
        if claude_proof(&blocks[i], contents, expected) {
            assert(is_claude_proof(all[i as int], contents@, expected@));
            return true;
        }
        i += 1;
    }
    false
}

pub open spec fn message_proves(
    message: JsonView,
    contents: Seq<char>,
    expected: Seq<char>,
) -> bool {
    items_at(message, "content"@) matches Some(blocks) && has_claude_proof(
        blocks,
        contents,
        expected,
    )
}

pub open spec fn messages_prove(
    messages: Seq<JsonView>,
    contents: Seq<char>,
    expected: Seq<char>,
) -> bool {
    exists|i: int|
        0 <= i < messages.len() && message_proves(#[trigger] messages[i], contents, expected)
}

pub open spec fn claude_proved(body: JsonView, contents: Seq<char>, expected: Seq<char>) -> bool {
    items_at(body, "messages"@) matches Some(messages) && messages_prove(
        messages,
        contents,
        expected,
    )
}

fn any_message_proves(messages: &Vec<Json>, contents: &str, expected: &str) -> (r: bool)
    ensures
        r == messages_prove(array_view(messages@), contents@, expected@),
{
    let ghost all = array_view(messages@);
    let mut i: usize = 0;
    proof {
        lemma_array_view(messages@);
    }
    while i < messages.len()
        invariant
            i <= messages.len(),
            all == array_view(messages@),
            all.len() == messages@.len(),
            forall|j: int|
                0 <= j < messages@.len() ==> #[trigger] all[j] == json_view(messages@[j]),
            forall|j: int|
                0 <= j < i ==> !message_proves(#[trigger] all[j], contents@, expected@),
        decreases messages.len() - i,
    {
        let proves = match member(&messages[i], "content") {
            Some(Json::Array(blocks)) => any_claude_proof(blocks, contents, expected),
            _ => false,
        };
        if proves {
            assert(message_proves(all[i as int], contents@, expected@));
            return true;
        }
        i += 1;
    }
    false
}

/// The skill's file.
pub open spec fn skill_of(discovery: Seq<char>, contents: Seq<char>) -> Seq<char> {
    "---\nname: hiroute-probe\ndescription: Read-only HiRoute compatibility check "@ + discovery
        + "\n---\n\nRead this file and run the installed hiroute schema list --output json.\nContent receipt: "@
        + contents + "\n"@
}

pub fn skill_text(discovery: &str, contents: &str) -> (r: String)
    ensures
        r@ == skill_of(discovery@, contents@),
{
    let mut text =
        "---\nname: hiroute-probe\ndescription: Read-only HiRoute compatibility check ".to_owned();
    text.append(discovery);
    text.append(
        "\n---\n\nRead this file and run the installed hiroute schema list --output json.\nContent receipt: ",
    );
    text.append(contents);
    text.append("\n");
    text
}

/// Whether a command is among those that a contract lists.
pub open spec fn has_command(commands: Seq<JsonView>) -> bool {
    exists|i: int|
        0 <= i < commands.len() && has_text(#[trigger] commands[i], "command_id"@, "schema.list"@)
}

/// Whether a text that the command printed is its contract: it succeeded, and lists itself.
pub open spec fn is_cli_contract(envelope: JsonView) -> bool {
    has_text(envelope, "status"@, "succeeded"@) && (member_of(envelope, "data"@) matches Some(
        data,
    ) && items_at(data, "commands"@) matches Some(commands) && has_command(commands))
}

fn lists_itself(commands: &Vec<Json>) -> (r: bool)
    ensures
        r == has_command(array_view(commands@)),
{
    let ghost all = array_view(commands@);
    let mut i: usize = 0;
    proof {
        lemma_array_view(commands@);
    }
    while i < commands.len()
        invariant
            i <= commands.len(),
            all == array_view(commands@),
            all.len() == commands@.len(),
            forall|j: int|
                0 <= j < commands@.len() ==> #[trigger] all[j] == json_view(commands@[j]),
            forall|j: int|
                0 <= j < i ==> !has_text(#[trigger] all[j], "command_id"@, "schema.list"@),
        decreases commands.len() - i,
    {
        if text_at(&commands[i], "command_id", "schema.list") {
            assert(has_text(all[i as int], "command_id"@, "schema.list"@));
            return true;
        }
        i += 1;
    }
    false
}

fn cli_contract(envelope: &Json) -> (r: bool)
    ensures
        r == is_cli_contract(envelope@),
{
    if !text_at(envelope, "status", "succeeded") {
        return false;
    }
    match member(envelope, "data") {
        Some(data) => match member(data, "commands") {
            Some(Json::Array(commands)) => lists_itself(commands),
            _ => false,
        },
        None => false,
    }
}

pub open spec fn command_of(skill: Seq<char>, cli: Seq<char>) -> Seq<char> {
    "/bin/cat "@ + shell_quoted(skill) + "; "@ + shell_quoted(cli) + " schema list --output json"@
}

impl CollaborationChallenge {
    /// A new challenge: receipts from random bytes, the paths of the skill's file and of the
    /// command, and what the command printed.
    pub fn prepare(entropy: &[u8], skill: &str, cli: &str, printed: &str, succeeded: bool) -> (r:
        Result<Self, &'static str>)
        ensures
            match parsed_json(vstd::utf8::encode_utf8(printed@)) {
                None => r matches Err(context) && context@ == "CLI contract"@,
                Some(envelope) => if !succeeded || !is_cli_contract(envelope) {
                    r matches Err(context) && context@ == "trusted CLI contract"@
                } else {
                    r matches Ok(challenge) && {
                        &&& challenge.discovery@ == "hiroute-discovery-"@ + hex(entropy@)
                        &&& challenge.contents@ == "hiroute-contents-"@ + hex(entropy@)
                        &&& challenge.command@ == command_of(skill@, cli@)
                        &&& challenge.expected_cli@ == trimmed(printed@)
                        &&& !challenge.issued
                        &&& !challenge.completed
                    }
                },
            },
    {
        let envelope = match parse_json(printed.as_bytes()) {
            Some(envelope) => envelope,
            None => {
                return Err("CLI contract");
            },
        };
        if !succeeded || !cli_contract(&envelope) {
            return Err("trusted CLI contract");
        }
        let suffix = hex_text(entropy);
        let mut discovery = "hiroute-discovery-".to_owned();
        discovery.append(suffix.as_str());
        let mut contents = "hiroute-contents-".to_owned();
        contents.append(suffix.as_str());
        let mut command = "/bin/cat ".to_owned();
        command.append(shell_quote(skill).as_str());
        command.append("; ");
        command.append(shell_quote(cli).as_str());
        command.append(" schema list --output json");
        Ok(
            CollaborationChallenge {
                discovery,
                contents,
                command,
                expected_cli: trim(printed),
                issued: false,
                completed: false,
            },
        )
    }

    pub fn complete(&self) -> (r: bool)
        ensures
            r == self.completed,
    {
        self.completed
    }

    /// Answers a request of Codex. The call is asked for once the skill was discovered; the
    /// challenge is complete once the result of that call proves both.
    pub fn reply(&mut self, body: &Json) -> (r: Result<CodexReply, &'static str>)
        ensures
            same_challenge(*final(self), *old(self)),
            if !old(self).issued {
                if !mentions(body@, old(self).discovery@) {
                    r matches Err(context) && context@ == "native Skill discovery"@ && *final(self)
                        == *old(self)
                } else {
                    match items_at(body@, "tools"@) {
                        None => r matches Err(context) && context@ == "native tool declarations"@
                            && *final(self) == *old(self),
                        Some(tools) => match shell_tool(tools) {
                            None => r matches Err(context) && context@
                                == "native read-only shell tool"@ && *final(self) == *old(self),
                            Some(tool) => r matches Ok(CodexReply::Call { name, arguments })
                                && name@ == tool && arguments@ == codex_arguments(
                                tool,
                                old(self).command@,
                            ) && final(self).issued && final(self).completed
                                == old(self).completed,
                        },
                    }
                }
            } else if codex_proved(body@, old(self).contents@, old(self).expected_cli@) {
                r matches Ok(CodexReply::Done) && final(self).completed && final(self).issued
            } else {
                r matches Err(context) && context@
                    == "native Skill read and trusted CLI execution"@ && *final(self) == *old(self)
            },
    {
        if !self.issued {
            if !mentioned(body, self.discovery.as_str()) {
                return Err("native Skill discovery");
            }
            let name = match member(body, "tools") {
                Some(Json::Array(tools)) => match find_shell_tool(tools) {
                    Some(name) => name,
                    None => {
                        return Err("native read-only shell tool");
                    },
                },
                _ => {
                    return Err("native tool declarations");
                },
            };
            let arguments = codex_arguments_of(name, self.command.as_str());
            self.issued = true;
            return Ok(CodexReply::Call { name, arguments });
        }
        let proved = match member(body, "input") {
            Some(Json::Array(input)) => any_codex_proof(
                input,
                self.contents.as_str(),
                self.expected_cli.as_str(),
            ),
            _ => false,
        };
        if !proved {
            return Err("native Skill read and trusted CLI execution");
        }
        self.completed = true;
        Ok(CodexReply::Done)
    }

    /// What a request of ClaudeCode is answered: a command to run, nothing more to do, or a fault.
    pub open spec fn claude_answer(self, body: JsonView) -> Result<Option<Seq<char>>, Seq<char>> {
        if !self.issued {
            if !mentions(body, self.contents@) {
                Err("native Skill discovery"@)
            } else if !(items_at(body, "tools"@) matches Some(tools) && has_named_tool(
                tools,
                "Bash"@,
            )) {
                Err("native read-only shell tool"@)
            } else {
                Ok(Some(self.command@))
            }
        } else if claude_proved(body, self.contents@, self.expected_cli@) {
            Ok(None)
        } else {
            Err("native Skill read and trusted CLI execution"@)
        }
    }

    /// Whether a challenge has gone on from another by such an answer: a command is issued, an
    /// answer without one completes the challenge, and a fault leaves it as it is.
    pub open spec fn follows_claude(self, before: Self, body: JsonView) -> bool {
        &&& same_challenge(self, before)
        &&& match before.claude_answer(body) {
            Err(_) => self == before,
            Ok(Some(_)) => self.issued && self.completed == before.completed,
            Ok(None) => self.issued && self.completed,
        }
    }

    /// Answers a request of ClaudeCode, in the same way. Its plugin shows the skill's contents,
    /// not its description.
    pub fn reply_claude(&mut self, body: &Json) -> (r: Result<ClaudeReply, &'static str>)
        ensures
            final(self).follows_claude(*old(self), body@),
            match old(self).claude_answer(body@) {
                Err(fault) => r matches Err(context) && context@ == fault,
                Ok(answer) => r matches Ok(reply) && asked_command(reply) == answer,
            },
    {
        if !self.issued {
            if !mentioned(body, self.contents.as_str()) {
                return Err("native Skill discovery");
            }
            let offered = match member(body, "tools") {
                Some(Json::Array(tools)) => named_tool(tools, "Bash"),
                _ => false,
            };
            if !offered {
                return Err("native read-only shell tool");
            }
            let command = self.command.clone();
            self.issued = true;
            return Ok(ClaudeReply::Call { command });
        }
        let proved = match member(body, "messages") {
            Some(Json::Array(messages)) => any_message_proves(
                messages,
                self.contents.as_str(),
                self.expected_cli.as_str(),
            ),
            _ => false,
        };
        if !proved {
            return Err("native Skill read and trusted CLI execution");
        }
        self.completed = true;
        Ok(ClaudeReply::Done)
    }
}

pub(crate) fn texted(members: &mut Vec<(String, Json)>, name: &str, text: &str)
    ensures
        object_view(final(members)@) == object_view(old(members)@).insert(
            name@,
            JsonView::Str(text@),
        ),
{
    put_member(members, name, Json::Str(text.to_owned()));
}

pub open spec fn codex_output(reply: CodexReply) -> JsonView {
    match reply {
        CodexReply::Call { name, arguments } => JsonView::Array(
            seq![
                JsonView::Object(
                    map![
                        "type"@ => JsonView::Str("function_call"@),
                        "id"@ => JsonView::Str("fc_hiroute_probe"@),
                        "call_id"@ => JsonView::Str("call_hiroute_probe"@),
                        "name"@ => JsonView::Str(name@),
                        "arguments"@ => arguments_text(arguments@),
                        "status"@ => JsonView::Str("completed"@),
                    ],
                ),
            ],
        ),
        CodexReply::Done => JsonView::Array(
            seq![
                JsonView::Object(
                    map![
                        "id"@ => JsonView::Str("msg_probe"@),
                        "type"@ => JsonView::Str("message"@),
                        "status"@ => JsonView::Str("completed"@),
                        "role"@ => JsonView::Str("assistant"@),
                        "content"@ => JsonView::Array(
                            seq![
                                JsonView::Object(
                                    map![
                                        "type"@ => JsonView::Str("output_text"@),
                                        "text"@ => JsonView::Str("OK"@),
                                        "annotations"@ => JsonView::Array(Seq::empty()),
                                    ],
                                ),
                            ],
                        ),
                    ],
                ),
            ],
        ),
    }
}

/// The text of a document as a string.
pub open spec fn arguments_text(arguments: JsonView) -> JsonView {
    match crate::text::utf8_text(compact_json(arguments)) {
        Some(text) => JsonView::Str(text),
        None => JsonView::Null,
    }
}

impl CodexReply {
    /// The output items that carry a reply.
    pub fn output(&self) -> (r: Json)
        ensures
            r@ == codex_output(*self),
    {
        let mut item: Vec<(String, Json)> = Vec::new();
        match self {
            CodexReply::Call { name, arguments } => {
                texted(&mut item, "type", "function_call");
                texted(&mut item, "id", "fc_hiroute_probe");
                texted(&mut item, "call_id", "call_hiroute_probe");
                texted(&mut item, "name", name);
                let bytes = to_bytes(arguments);
                let text = match crate::text::text_of_bytes(bytes.as_slice()) {
                    Some(text) => Json::Str(text),
                    None => Json::Null,
                };
                put_member(&mut item, "arguments", text);
                texted(&mut item, "status", "completed");
            },
            CodexReply::Done => {
                let mut part: Vec<(String, Json)> = Vec::new();
                texted(&mut part, "type", "output_text");
                texted(&mut part, "text", "OK");
                let none: Vec<Json> = Vec::new();
                assert(array_view(none@) =~= Seq::<JsonView>::empty());
                put_member(&mut part, "annotations", Json::Array(none));
                let ghost part_view = JsonView::Object(object_view(part@));
                let mut content: Vec<Json> = Vec::new();
                content.push(Json::Object(part));
                proof {
                    lemma_array_view(content@);
                    assert(array_view(content@) =~= seq![part_view]);
                }
                texted(&mut item, "id", "msg_probe");
                texted(&mut item, "type", "message");
                texted(&mut item, "status", "completed");
                texted(&mut item, "role", "assistant");
                put_member(&mut item, "content", Json::Array(content));
            },
        }
        let ghost item_view = JsonView::Object(object_view(item@));
        let mut items: Vec<Json> = Vec::new();
        items.push(Json::Object(item));
        proof {
            lemma_array_view(items@);
            assert(array_view(items@) =~= seq![item_view]);
        }
        Json::Array(items)
    }
}

} // verus!
