//! Edits of a ClaudeCode settings file, their restoration, and who owns which field.
//!
//! A change sets a few managed fields and leaves every other one. What the user had stays in the
//! original file's bytes; a change speaks of a helper or of credentials only by their presence.

use vstd::prelude::*;
use crate::agents::claude_laws::{
    are_apart, are_managed, is_readable, lemma_alike_restores, lemma_alike_stands,
    lemma_change_readable, lemma_restoration_readable, restoration_undoes_a_reconfiguration,
    restoration_undoes_a_rendered_change,
};
use crate::agents::filesystem::AgentFilesystemScanError;
use crate::digest::CanonicalDigest;
use crate::json::{
    alike, canonical_digest, canonical_digest_of, find_member, is_whole, lemma_array_view,
    lemma_object_names, lemma_whole_is_plain, object_view, parse_json, parsed_json, pretty_json, put_member,
    remove_member, same_json, to_pretty_bytes, Json, JsonView,
};
use crate::paths::{absolute, is_absolute};
use crate::text::{
    after_prefix, chars_of, in_order, ordered, ordered_lists_hold_the_same, same, starts_with,
    strip_prefix, views_of,
};

verus! {

/// The largest settings file that is read or written, in bytes.
pub const MAX_CONFIG_BYTES: usize = 1_048_576;

/// The members of a JSON object.
pub type Members = Map<Seq<char>, JsonView>;

/// Whether a name is that of an environment variable that authenticates or routes.
pub open spec fn is_auth_name(name: Seq<char>) -> bool {
    name == "ANTHROPIC_AUTH_TOKEN"@ || name == "ANTHROPIC_API_KEY"@ || name
        == "ANTHROPIC_CUSTOM_HEADERS"@ || name == "CLAUDE_CODE_USE_BEDROCK"@ || name
        == "CLAUDE_CODE_USE_FOUNDRY"@ || name == "CLAUDE_CODE_USE_VERTEX"@
}

pub fn auth_name(name: &str) -> (r: bool)
    ensures
        r == is_auth_name(name@),
{
    same(name, "ANTHROPIC_AUTH_TOKEN") || same(name, "ANTHROPIC_API_KEY") || same(
        name,
        "ANTHROPIC_CUSTOM_HEADERS",
    ) || same(name, "CLAUDE_CODE_USE_BEDROCK") || same(name, "CLAUDE_CODE_USE_FOUNDRY") || same(
        name,
        "CLAUDE_CODE_USE_VERTEX",
    )
}

/// Whether a variable of the environment is one that a change may set.
pub open spec fn is_managed_variable(name: Seq<char>) -> bool {
    name == "ANTHROPIC_BASE_URL"@ || name == "ANTHROPIC_MODEL"@ || name
        == "ANTHROPIC_DEFAULT_OPUS_MODEL"@ || name == "ANTHROPIC_DEFAULT_SONNET_MODEL"@ || name
        == "ANTHROPIC_DEFAULT_HAIKU_MODEL"@ || name == "ANTHROPIC_SMALL_FAST_MODEL"@
        || is_context_variable(name)
}

/// Whether a variable sets the context window.
pub open spec fn is_context_variable(name: Seq<char>) -> bool {
    name == "CLAUDE_CODE_AUTO_COMPACT_WINDOW"@ || name == "CLAUDE_CODE_MAX_CONTEXT_TOKENS"@
}

pub fn context_variable(name: &str) -> (r: bool)
    ensures
        r == is_context_variable(name@),
{
    same(name, "CLAUDE_CODE_AUTO_COMPACT_WINDOW") || same(name, "CLAUDE_CODE_MAX_CONTEXT_TOKENS")
}

fn managed_variable(name: &str) -> (r: bool)
    ensures
        r == is_managed_variable(name@),
{
    same(name, "ANTHROPIC_BASE_URL") || same(name, "ANTHROPIC_MODEL") || same(
        name,
        "ANTHROPIC_DEFAULT_OPUS_MODEL",
    ) || same(name, "ANTHROPIC_DEFAULT_SONNET_MODEL") || same(name, "ANTHROPIC_DEFAULT_HAIKU_MODEL")
        || same(name, "ANTHROPIC_SMALL_FAST_MODEL") || context_variable(name)
}

/// What a managed path stands for.
pub enum Place {
    Helper,
    Auth,
    Variable(Seq<char>),
}

/// The place of a managed path.
pub open spec fn place_of(path: Seq<char>) -> Option<Place> {
    if path == "apiKeyHelper"@ {
        Some(Place::Helper)
    } else if path == "hiroute.auth_environment"@ {
        Some(Place::Auth)
    } else {
        match after_prefix(path, "env."@) {
            Some(name) => if is_managed_variable(name) {
                Some(Place::Variable(name))
            } else {
                None
            },
            None => None,
        }
    }
}

/// One field of a change: what it was and what it becomes.
#[derive(Debug)]
pub struct ConfigFieldChangeV1 {
    pub path: String,
    pub before: Option<Json>,
    pub after: Option<Json>,
    pub before_digest: CanonicalDigest,
}

pub struct FieldChangeView {
    pub path: Seq<char>,
    pub before: Option<JsonView>,
    pub after: Option<JsonView>,
    pub before_digest: Seq<char>,
}

pub open spec fn maybe_json(json: Option<Json>) -> Option<JsonView> {
    match json {
        Some(json) => Some(json@),
        None => None,
    }
}

impl View for ConfigFieldChangeV1 {
    type V = FieldChangeView;

    open spec fn view(&self) -> FieldChangeView {
        FieldChangeView {
            path: self.path@,
            before: maybe_json(self.before),
            after: maybe_json(self.after),
            before_digest: self.before_digest@,
        }
    }
}

/// A change of managed fields. `is_valid` says whether its owner accepts it.
#[derive(Debug)]
pub struct AgentConfigChangeV1 {
    pub fields: Vec<ConfigFieldChangeV1>,
    pub is_valid: bool,
}

pub open spec fn changes_view(fields: Seq<ConfigFieldChangeV1>) -> Seq<FieldChangeView> {
    fields.map_values(|field: ConfigFieldChangeV1| field@)
}

/// Whether a change may be applied: its owner accepts it, and it names managed paths only.
pub open spec fn is_change(change: AgentConfigChangeV1) -> bool {
    change.is_valid && forall|i: int|
        0 <= i < change.fields@.len() ==> place_of((#[trigger] change.fields@[i]).path@) is Some
}

fn managed_path(path: &str) -> (r: bool)
    ensures
        r == (place_of(path@) is Some),
{
    if same(path, "apiKeyHelper") || same(path, "hiroute.auth_environment") {
        return true;
    }
    match strip_prefix(path, "env.") {
        Some(name) => managed_variable(name.as_str()),
        None => false,
    }
}

fn valid_change(change: &AgentConfigChangeV1) -> (r: bool)
    ensures
        r == is_change(*change),
{
    if !change.is_valid {
        return false;
    }
    let mut i: usize = 0;
    while i < change.fields.len()
        invariant
            i <= change.fields.len(),
            change.is_valid,
            forall|j: int| 0 <= j < i ==> place_of((#[trigger] change.fields@[j]).path@) is Some,
        decreases change.fields.len() - i,
    {
        if !managed_path(change.fields[i].path.as_str()) {
            return false;
        }
        i += 1;
    }
    true
}

/// A value of a shell command in quotes.
pub open spec fn shell_escaped(value: Seq<char>) -> Seq<char>
    decreases value.len(),
{
    if value.len() == 0 {
        Seq::empty()
    } else {
        shell_escaped(value.drop_last()) + (if value.last() == '\'' {
            "'\\''"@
        } else {
            seq![value.last()]
        })
    }
}

pub open spec fn shell_quoted(value: Seq<char>) -> Seq<char> {
    "'"@ + shell_escaped(value) + "'"@
}

pub(crate) fn shell_quote(value: &str) -> (r: String)
    ensures
        r@ == shell_quoted(value@),
{
    let chars = chars_of(value);
    let mut out = "'".to_owned();
    let mut i: usize = 0;
    proof {
        assert(value@.take(0) == Seq::<char>::empty());
        assert("'"@ + Seq::<char>::empty() =~= "'"@);
    }
    while i < chars.len()
        invariant
            i <= chars.len(),
            chars@ == value@,
            out@ == "'"@ + shell_escaped(value@.take(i as int)),
        decreases chars.len() - i,
    {
        let ghost before = shell_escaped(value@.take(i as int));
        proof {
            assert(value@.take(i + 1).drop_last() == value@.take(i as int));
            assert(value@.take(i + 1).last() == value@[i as int]);
        }
        if chars[i] == '\'' {
            out.append("'\\''");
            assert(out@ =~= "'"@ + (before + "'\\''"@));
        } else {
            out.push(chars[i]);
            assert(out@ =~= "'"@ + (before + seq![value@[i as int]]));
        }
        i += 1;
    }
    assert(value@.take(i as int) == value@);
    out.append("'");
    out
}

/// The command of a managed helper: an executable, the verb of the grant helper and the name of a
/// connection, and nothing else.
pub open spec fn helper_command(after: JsonView, verb: Seq<char>) -> Option<Seq<char>> {
    match after {
        JsonView::Object(members) => if members.dom() == set!["executable"@, "argv"@] {
            match (members["executable"@], members["argv"@]) {
                (JsonView::Str(executable), JsonView::Array(argv)) => if is_absolute(executable)
                    && argv.len() == 2 && argv[0] == JsonView::Str(verb) && argv[1] is Str
                    && after_prefix(argv[1]->Str_0, "agent-connection/"@) is Some {
                    Some(
                        shell_quoted(executable) + " "@ + shell_quoted(verb) + " "@ + shell_quoted(
                            argv[1]->Str_0,
                        ),
                    )
                } else {
                    None
                },
                _ => None,
            }
        } else {
            None
        },
        _ => None,
    }
}

/// Whether every member is an executable or its arguments, and both are there.
fn is_command_object(members: &Vec<(String, Json)>) -> (r: bool)
    ensures
        r == (object_view(members@).dom() == set!["executable"@, "argv"@]),
{
    let ghost view = object_view(members@);
    if find_member(members, "executable").is_none() {
        assert(set!["executable"@, "argv"@].contains("executable"@));
        return false;
    }
    if find_member(members, "argv").is_none() {
        assert(set!["executable"@, "argv"@].contains("argv"@));
        return false;
    }
    let mut i: usize = 0;
    while i < members.len()
        invariant
            i <= members.len(),
            view == object_view(members@),
            forall|j: int|
                0 <= j < i ==> (#[trigger] members@[j]).0@ == "executable"@ || members@[j].0@
                    == "argv"@,
        decreases members.len() - i,
    {
        let name = members[i].0.as_str();
        if !same(name, "executable") && !same(name, "argv") {
            proof {
                lemma_object_names(members@, name@);
                assert(view.dom().contains(name@));
                assert(!set!["executable"@, "argv"@].contains(name@));
            }
            return false;
        }
        i += 1;
    }
    proof {
        assert forall|name: Seq<char>| #[trigger] view.dom().contains(name) <==> set![
            "executable"@,
            "argv"@,
        ].contains(name) by {
            lemma_object_names(members@, name);
        }
        assert(view.dom() =~= set!["executable"@, "argv"@]);
    }
    true
}

pub fn render_claude_helper_command(after: &Json, verb: &str) -> (r: Option<String>)
    ensures
        match helper_command(after@, verb@) {
            Some(command) => r matches Some(text) && text@ == command,
            None => r is None,
        },
{
    let members = match after {
        Json::Object(members) => members,
        _ => return None,
    };
    if !is_command_object(members) {
        return None;
    }
    let executable = match find_member(members, "executable") {
        Some(Json::Str(executable)) => executable,
        _ => return None,
    };
    let argv = match find_member(members, "argv") {
        Some(Json::Array(argv)) => argv,
        _ => return None,
    };
    proof {
        lemma_array_view(argv@);
    }
    if !absolute(executable.as_str()) || argv.len() != 2 {
        return None;
    }
    match (&argv[0], &argv[1]) {
        (Json::Str(first), Json::Str(connection)) => {
            if !same(first.as_str(), verb) || !starts_with(
                connection.as_str(),
                "agent-connection/",
            ) {
                return None;
            }
            let mut command = shell_quote(executable.as_str());
            command.append(" ");
            command.append(shell_quote(verb).as_str());
            command.append(" ");
            command.append(shell_quote(connection.as_str()).as_str());
            Some(command)
        },
        _ => None,
    }
}

/// The environment of a settings file, where it has one.
pub open spec fn env_of(root: Members) -> Option<Members> {
    if root.contains_key("env"@) {
        match root["env"@] {
            JsonView::Object(env) => Some(env),
            _ => None,
        }
    } else {
        None
    }
}

pub open spec fn has_auth(env: Members) -> bool {
    exists|name: Seq<char>| is_auth_name(name) && #[trigger] env.contains_key(name)
}

pub open spec fn configured_marker() -> JsonView {
    JsonView::Object(map!["configured"@ => JsonView::Bool(true)])
}

/// What a change sees of a field: of the helper and of credentials only that they are there.
pub open spec fn semantic_value(root: Members, place: Place) -> Option<JsonView> {
    match place {
        Place::Helper => if root.contains_key("apiKeyHelper"@) {
            Some(configured_marker())
        } else {
            None
        },
        Place::Auth => match env_of(root) {
            Some(env) => if has_auth(env) {
                Some(configured_marker())
            } else {
                None
            },
            None => None,
        },
        Place::Variable(name) => match env_of(root) {
            Some(env) => if env.contains_key(name) {
                Some(env[name])
            } else {
                None
            },
            None => None,
        },
    }
}

pub open spec fn without_auth(env: Members) -> Members {
    env.remove("ANTHROPIC_AUTH_TOKEN"@).remove("ANTHROPIC_API_KEY"@).remove(
        "ANTHROPIC_CUSTOM_HEADERS"@,
    ).remove("CLAUDE_CODE_USE_BEDROCK"@).remove("CLAUDE_CODE_USE_FOUNDRY"@).remove(
        "CLAUDE_CODE_USE_VERTEX"@,
    )
}

pub open spec fn with_env(root: Members, env: Members) -> Members {
    root.insert("env"@, JsonView::Object(env))
}

/// A settings file with a variable set.
pub open spec fn with_variable(root: Members, name: Seq<char>, value: JsonView) -> Option<Members> {
    if !root.contains_key("env"@) {
        Some(with_env(root, Map::<Seq<char>, JsonView>::empty().insert(name, value)))
    } else {
        match env_of(root) {
            Some(env) => Some(with_env(root, env.insert(name, value))),
            None => None,
        }
    }
}

/// A settings file without a variable.
pub open spec fn without_variable(root: Members, name: Seq<char>) -> Members {
    match env_of(root) {
        Some(env) => with_env(root, env.remove(name)),
        None => root,
    }
}

/// A settings file after a field of a change.
pub open spec fn with_field(
    root: Members,
    place: Place,
    after: Option<JsonView>,
    verb: Seq<char>,
) -> Result<Members, AgentFilesystemScanError> {
    match place {
        Place::Helper => match after {
            None => Ok(root.remove("apiKeyHelper"@)),
            Some(after) => match helper_command(after, verb) {
                Some(command) => Ok(root.insert("apiKeyHelper"@, JsonView::Str(command))),
                None => Err(AgentFilesystemScanError::InvalidDescriptor),
            },
        },
        Place::Auth => match after {
            Some(_) => Err(AgentFilesystemScanError::InvalidDescriptor),
            None => match env_of(root) {
                Some(env) => Ok(with_env(root, without_auth(env))),
                None => Ok(root),
            },
        },
        Place::Variable(name) => match after {
            None => Ok(without_variable(root, name)),
            Some(value) => if !(value is Str) {
                Err(AgentFilesystemScanError::InvalidDescriptor)
            } else {
                match with_variable(root, name, value) {
                    Some(root) => Ok(root),
                    None => Err(AgentFilesystemScanError::InvalidConfig),
                }
            },
        },
    }
}

pub open spec fn or_null(json: Option<JsonView>) -> JsonView {
    match json {
        Some(json) => json,
        None => JsonView::Null,
    }
}

/// A settings file after the fields of a change, each of which must stand as the change saw it.
pub open spec fn with_fields(root: Members, fields: Seq<FieldChangeView>, verb: Seq<char>) -> Result<
    Members,
    AgentFilesystemScanError,
>
    decreases fields.len(),
{
    if fields.len() == 0 {
        Ok(root)
    } else {
        match with_fields(root, fields.drop_last(), verb) {
            Err(error) => Err(error),
            Ok(root) => {
                let field = fields.last();
                let place = place_of(field.path)->0;
                let before = semantic_value(root, place);
                if canonical_digest_of(or_null(before)) != field.before_digest || before
                    != field.before {
                    Err(AgentFilesystemScanError::SourceChanged)
                } else {
                    with_field(root, place, field.after, verb)
                }
            },
        }
    }
}

/// Whether a change puts a helper of its own in place.
pub open spec fn sets_helper(fields: Seq<FieldChangeView>) -> bool {
    exists|i: int|
        0 <= i < fields.len() && (#[trigger] fields[i]).path == "apiKeyHelper"@ && fields[i].after
            is Some
}

/// A settings file after a change. A helper beside a credential of the user's could pick the wrong
/// one, so that a file with both is never made.
pub open spec fn changed_root(root: Members, fields: Seq<FieldChangeView>, verb: Seq<char>) -> Result<
    Members,
    AgentFilesystemScanError,
> {
    match with_fields(root, fields, verb) {
        Err(error) => Err(error),
        Ok(root) => if sets_helper(fields) && (env_of(root) matches Some(env) && has_auth(env)) {
            Err(AgentFilesystemScanError::InvalidDescriptor)
        } else {
            Ok(root)
        },
    }
}

/// The members of an object's object member.
fn object_member<'a>(members: &'a Vec<(String, Json)>, name: &str) -> (r: Option<
    &'a Vec<(String, Json)>,
>)
    ensures
        match r {
            Some(inner) => object_view(members@).contains_key(name@) && object_view(members@)[name@]
                == JsonView::Object(object_view(inner@)),
            None => !(object_view(members@).contains_key(name@) && object_view(members@)[name@]
                is Object),
        },
{
    match find_member(members, name) {
        Some(Json::Object(inner)) => Some(inner),
        _ => None,
    }
}

pub(crate) fn copied_members(members: &Vec<(String, Json)>) -> (r: Vec<(String, Json)>)
    ensures
        object_view(r@) == object_view(members@),
{
    let mut out: Vec<(String, Json)> = Vec::new();
    let mut i: usize = 0;
    while i < members.len()
        invariant
            i <= members.len(),
            object_view(out@) == object_view(members@.take(i as int)),
        decreases members.len() - i,
    {
        let ghost before = out@;
        out.push((members[i].0.clone(), members[i].1.copied()));
        proof {
            assert(out@.drop_last() == before);
            assert(members@.take(i + 1).drop_last() == members@.take(i as int));
        }
        i += 1;
    }
    assert(members@.take(i as int) == members@);
    out
}

fn auth_present(env: &Vec<(String, Json)>) -> (r: bool)
    ensures
        r == has_auth(object_view(env@)),
{
    let ghost view = object_view(env@);
    let found = find_member(env, "ANTHROPIC_AUTH_TOKEN").is_some() || find_member(
        env,
        "ANTHROPIC_API_KEY",
    ).is_some() || find_member(env, "ANTHROPIC_CUSTOM_HEADERS").is_some() || find_member(
        env,
        "CLAUDE_CODE_USE_BEDROCK",
    ).is_some() || find_member(env, "CLAUDE_CODE_USE_FOUNDRY").is_some() || find_member(
        env,
        "CLAUDE_CODE_USE_VERTEX",
    ).is_some();
    proof {
        if found {
            if view.contains_key("ANTHROPIC_AUTH_TOKEN"@) {
                assert(is_auth_name("ANTHROPIC_AUTH_TOKEN"@));
            } else if view.contains_key("ANTHROPIC_API_KEY"@) {
                assert(is_auth_name("ANTHROPIC_API_KEY"@));
            } else if view.contains_key("ANTHROPIC_CUSTOM_HEADERS"@) {
                assert(is_auth_name("ANTHROPIC_CUSTOM_HEADERS"@));
            } else if view.contains_key("CLAUDE_CODE_USE_BEDROCK"@) {
                assert(is_auth_name("CLAUDE_CODE_USE_BEDROCK"@));
            } else if view.contains_key("CLAUDE_CODE_USE_FOUNDRY"@) {
                assert(is_auth_name("CLAUDE_CODE_USE_FOUNDRY"@));
            } else {
                assert(view.contains_key("CLAUDE_CODE_USE_VERTEX"@));
            }
        }
    }
    found
}

fn marker() -> (r: Json)
    ensures
        r@ == configured_marker(),
{
    let mut members: Vec<(String, Json)> = Vec::new();
    put_member(&mut members, "configured", Json::Bool(true));
    Json::Object(members)
}

/// What a change sees of a field.
fn claude_semantic_value(root: &Vec<(String, Json)>, path: &str) -> (r: Option<Json>)
    requires
        place_of(path@) is Some,
    ensures
        maybe_json(r) == semantic_value(object_view(root@), place_of(path@)->0),
{
    if same(path, "apiKeyHelper") {
        return if find_member(root, "apiKeyHelper").is_some() {
            Some(marker())
        } else {
            None
        };
    }
    let env = match object_member(root, "env") {
        Some(env) => env,
        None => return None,
    };
    if same(path, "hiroute.auth_environment") {
        return if auth_present(env) {
            Some(marker())
        } else {
            None
        };
    }
    match strip_prefix(path, "env.") {
        Some(name) => match find_member(env, name.as_str()) {
            Some(value) => Some(value.copied()),
            None => None,
        },
        None => None,
    }
}

fn set_variable(root: &mut Vec<(String, Json)>, name: &str, value: Json) -> (r: Option<()>)
    ensures
        match with_variable(object_view(old(root)@), name@, value@) {
            Some(view) => r is Some && object_view(final(root)@) == view,
            None => r is None,
        },
{
    let mut env = match find_member(root, "env") {
        None => Vec::new(),
        Some(Json::Object(env)) => copied_members(env),
        Some(_) => return None,
    };
    put_member(&mut env, name, value);
    put_member(root, "env", Json::Object(env));
    Some(())
}

fn remove_variable(root: &mut Vec<(String, Json)>, name: &str)
    ensures
        object_view(final(root)@) == without_variable(object_view(old(root)@), name@),
{
    let mut env = match object_member(root, "env") {
        Some(env) => copied_members(env),
        None => return,
    };
    remove_member(&mut env, name);
    put_member(root, "env", Json::Object(env));
}

fn remove_auth(root: &mut Vec<(String, Json)>)
    ensures
        object_view(final(root)@) == (match env_of(object_view(old(root)@)) {
            Some(env) => with_env(object_view(old(root)@), without_auth(env)),
            None => object_view(old(root)@),
        }),
{
    let mut env = match object_member(root, "env") {
        Some(env) => copied_members(env),
        None => return,
    };
    remove_member(&mut env, "ANTHROPIC_AUTH_TOKEN");
    remove_member(&mut env, "ANTHROPIC_API_KEY");
    remove_member(&mut env, "ANTHROPIC_CUSTOM_HEADERS");
    remove_member(&mut env, "CLAUDE_CODE_USE_BEDROCK");
    remove_member(&mut env, "CLAUDE_CODE_USE_FOUNDRY");
    remove_member(&mut env, "CLAUDE_CODE_USE_VERTEX");
    put_member(root, "env", Json::Object(env));
}

fn apply_claude_semantic_value(
    root: &mut Vec<(String, Json)>,
    path: &str,
    after: &Option<Json>,
    verb: &str,
) -> (r: Result<(), AgentFilesystemScanError>)
    requires
        place_of(path@) is Some,
    ensures
        match with_field(object_view(old(root)@), place_of(path@)->0, maybe_json(*after), verb@) {
            Ok(view) => r is Ok && object_view(final(root)@) == view,
            Err(failure) => r matches Err(error) && error == failure,
        },
{
    if same(path, "apiKeyHelper") {
        match after {
            None => {
                remove_member(root, "apiKeyHelper");
                return Ok(());
            },
            Some(after) => match render_claude_helper_command(after, verb) {
                Some(command) => {
                    put_member(root, "apiKeyHelper", Json::Str(command));
                    return Ok(());
                },
                None => return Err(AgentFilesystemScanError::InvalidDescriptor),
            },
        }
    }
    if same(path, "hiroute.auth_environment") {
        if after.is_some() {
            return Err(AgentFilesystemScanError::InvalidDescriptor);
        }
        remove_auth(root);
        return Ok(());
    }
    let name = match strip_prefix(path, "env.") {
        Some(name) => name,
        None => return Err(AgentFilesystemScanError::InvalidDescriptor),
    };
    match after {
        Some(Json::Str(value)) => match set_variable(root, name.as_str(), Json::Str(value.clone())) {
            Some(()) => Ok(()),
            None => Err(AgentFilesystemScanError::InvalidConfig),
        },
        Some(_) => Err(AgentFilesystemScanError::InvalidDescriptor),
        None => {
            remove_variable(root, name.as_str());
            Ok(())
        },
    }
}

/// Why a text is not a settings file that may be edited, or its members. `strict` says whether the
/// strict reader takes the text: no object names a member twice, and the variables that bear on
/// the context window are strings.
pub open spec fn native_root(bytes: Seq<u8>, strict: bool) -> Result<
    Members,
    AgentFilesystemScanError,
> {
    if bytes.len() > MAX_CONFIG_BYTES {
        Err(AgentFilesystemScanError::ConfigTooLarge)
    } else if !strict {
        Err(AgentFilesystemScanError::InvalidConfig)
    } else {
        match parsed_json(bytes) {
            Some(JsonView::Object(root)) => if is_settings(root) {
                Ok(root)
            } else {
                Err(AgentFilesystemScanError::InvalidConfig)
            },
            _ => Err(AgentFilesystemScanError::InvalidConfig),
        }
    }
}

/// Whether a member is absent or a string.
pub open spec fn is_text_member(members: Members, name: Seq<char>) -> bool {
    members.contains_key(name) ==> members[name] is Str
}

/// Whether the settings that are read have the right form: the model is a string, the environment
/// an object, and the variables in it that are read are strings.
pub open spec fn is_settings(root: Members) -> bool {
    &&& is_text_member(root, "model"@)
    &&& root.contains_key("env"@) ==> (root["env"@] matches JsonView::Object(env)
        && is_environment(env))
}

pub open spec fn is_environment(env: Members) -> bool {
    &&& is_text_member(env, "ANTHROPIC_BASE_URL"@)
    &&& is_text_member(env, "ANTHROPIC_MODEL"@)
    &&& is_text_member(env, "ANTHROPIC_DEFAULT_OPUS_MODEL"@)
    &&& is_text_member(env, "ANTHROPIC_DEFAULT_SONNET_MODEL"@)
    &&& is_text_member(env, "ANTHROPIC_DEFAULT_HAIKU_MODEL"@)
    &&& is_text_member(env, "ANTHROPIC_SMALL_FAST_MODEL"@)
    &&& is_text_member(env, "CLAUDE_CODE_AUTO_COMPACT_WINDOW"@)
    &&& is_text_member(env, "CLAUDE_CODE_MAX_CONTEXT_TOKENS"@)
}

fn text_member(members: &Vec<(String, Json)>, name: &str) -> (r: bool)
    ensures
        r == is_text_member(object_view(members@), name@),
{
    match find_member(members, name) {
        None => true,
        Some(Json::Str(_)) => true,
        Some(_) => false,
    }
}

fn environment_is_readable(env: &Vec<(String, Json)>) -> (r: bool)
    ensures
        r == is_environment(object_view(env@)),
{
    text_member(env, "ANTHROPIC_BASE_URL") && text_member(env, "ANTHROPIC_MODEL") && text_member(
        env,
        "ANTHROPIC_DEFAULT_OPUS_MODEL",
    ) && text_member(env, "ANTHROPIC_DEFAULT_SONNET_MODEL") && text_member(
        env,
        "ANTHROPIC_DEFAULT_HAIKU_MODEL",
    ) && text_member(env, "ANTHROPIC_SMALL_FAST_MODEL") && text_member(
        env,
        "CLAUDE_CODE_AUTO_COMPACT_WINDOW",
    ) && text_member(env, "CLAUDE_CODE_MAX_CONTEXT_TOKENS")
}

fn settings_are_readable(root: &Vec<(String, Json)>) -> (r: bool)
    ensures
        r == is_settings(object_view(root@)),
{
    if !text_member(root, "model") {
        return false;
    }
    match find_member(root, "env") {
        None => true,
        Some(Json::Object(env)) => environment_is_readable(env),
        Some(_) => false,
    }
}

fn read_root(bytes: &[u8], strict: bool) -> (r: Result<
    Vec<(String, Json)>,
    AgentFilesystemScanError,
>)
    ensures
        match native_root(bytes@, strict) {
            Ok(view) => r matches Ok(root) && object_view(root@) == view && is_readable(view),
            Err(failure) => r matches Err(error) && error == failure,
        },
{
    if bytes.len() > MAX_CONFIG_BYTES {
        return Err(AgentFilesystemScanError::ConfigTooLarge);
    }
    if !strict {
        return Err(AgentFilesystemScanError::InvalidConfig);
    }
    match parse_json(bytes) {
        Some(Json::Object(root)) => if settings_are_readable(&root) {
            Ok(root)
        } else {
            Err(AgentFilesystemScanError::InvalidConfig)
        },
        _ => Err(AgentFilesystemScanError::InvalidConfig),
    }
}

/// The bytes of a settings file.
pub open spec fn rendered_root(root: Members) -> Seq<u8> {
    pretty_json(JsonView::Object(root)).push(10)
}

/// Whether bytes are read as the settings that they were written for: just so where these hold no
/// fraction, and otherwise with nothing changed but fractions.
pub open spec fn reads_back(bytes: Seq<u8>, root: Members) -> bool {
    &&& is_whole(JsonView::Object(root)) ==> native_root(bytes, true) == Ok::<
        _,
        AgentFilesystemScanError,
    >(root)
    &&& native_root(bytes, true) matches Ok(back) ==> alike(
        JsonView::Object(root),
        JsonView::Object(back),
    )
}

fn render_root(root: Vec<(String, Json)>) -> (r: Result<Vec<u8>, AgentFilesystemScanError>)
    ensures
        is_readable(object_view(root@)) ==> (r matches Ok(bytes) ==> reads_back(
            bytes@,
            object_view(root@),
        )),
        ({
            let rendered = rendered_root(object_view(root@));
            if rendered.len() > MAX_CONFIG_BYTES {
                r matches Err(error) && error == AgentFilesystemScanError::ConfigTooLarge
            } else {
                r matches Ok(bytes) && bytes@ == rendered
            }
        }),
{
    let json = Json::Object(root);
    let mut rendered = to_pretty_bytes(&json);
    proof {
        let view = object_view(root@);
        if is_readable(view) {
            if is_whole(json@) {
                lemma_whole_is_plain(json@, 127);
            }
        }
    }
    rendered.push(10);
    if rendered.len() > MAX_CONFIG_BYTES {
        return Err(AgentFilesystemScanError::ConfigTooLarge);
    }
    Ok(rendered)
}

fn same_optional(a: &Option<Json>, b: &Option<Json>) -> (r: bool)
    ensures
        r == (maybe_json(*a) == maybe_json(*b)),
{
    match (a, b) {
        (Some(a), Some(b)) => same_json(a, b),
        (None, None) => true,
        _ => false,
    }
}

fn digest_of_optional(json: &Option<Json>) -> (r: CanonicalDigest)
    ensures
        r@ == canonical_digest_of(or_null(maybe_json(*json))),
{
    match json {
        Some(json) => canonical_digest(json),
        None => canonical_digest(&Json::Null),
    }
}

fn helper_is_set(fields: &Vec<ConfigFieldChangeV1>) -> (r: bool)
    ensures
        r == sets_helper(changes_view(fields@)),
{
    let ghost all = changes_view(fields@);
    let mut i: usize = 0;
    while i < fields.len()
        invariant
            i <= fields.len(),
            all == changes_view(fields@),
            forall|j: int|
                0 <= j < i ==> !((#[trigger] all[j]).path == "apiKeyHelper"@ && all[j].after
                    is Some),
        decreases fields.len() - i,
    {
        assert(all[i as int] == fields@[i as int]@);
        if same(fields[i].path.as_str(), "apiKeyHelper") && fields[i].after.is_some() {
            return true;
        }
        i += 1;
    }
    false
}

proof fn lemma_with_fields_error(
    root: Members,
    fields: Seq<FieldChangeView>,
    verb: Seq<char>,
    k: int,
)
    requires
        0 <= k <= fields.len(),
        with_fields(root, fields.take(k), verb) is Err,
    ensures
        with_fields(root, fields, verb) == with_fields(root, fields.take(k), verb),
    decreases fields.len() - k,
{
    if k < fields.len() {
        assert(fields.take(k + 1).drop_last() == fields.take(k));
        lemma_with_fields_error(root, fields, verb, k + 1);
    } else {
        assert(fields.take(k) == fields);
    }
}

fn apply_fields(
    root: &mut Vec<(String, Json)>,
    fields: &Vec<ConfigFieldChangeV1>,
    verb: &str,
) -> (r: Result<(), AgentFilesystemScanError>)
    requires
        forall|i: int| 0 <= i < fields@.len() ==> place_of((#[trigger] fields@[i]).path@) is Some,
    ensures
        match with_fields(object_view(old(root)@), changes_view(fields@), verb@) {
            Ok(view) => r is Ok && object_view(final(root)@) == view,
            Err(failure) => r matches Err(error) && error == failure,
        },
{
    let ghost first = object_view(root@);
    let ghost all = changes_view(fields@);
    let mut i: usize = 0;
    assert(all.take(0) == Seq::<FieldChangeView>::empty());
    while i < fields.len()
        invariant
            i <= fields.len(),
            all == changes_view(fields@),
            first == object_view(old(root)@),
            forall|j: int|
                0 <= j < fields@.len() ==> place_of((#[trigger] fields@[j]).path@) is Some,
            with_fields(first, all.take(i as int), verb@) == Ok::<_, AgentFilesystemScanError>(
                object_view(root@),
            ),
        decreases fields.len() - i,
    {
        let field = &fields[i];
        proof {
            assert(all[i as int] == field@);
            assert(all.take(i + 1).drop_last() == all.take(i as int));
            assert(all.take(i + 1).last() == field@);
        }
        let before = claude_semantic_value(root, field.path.as_str());
        if !digest_of_optional(&before).equals(&field.before_digest) || !same_optional(
            &before,
            &field.before,
        ) {
            proof {
                lemma_with_fields_error(first, all, verb@, i + 1);
            }
            return Err(AgentFilesystemScanError::SourceChanged);
        }
        match apply_claude_semantic_value(root, field.path.as_str(), &field.after, verb) {
            Ok(()) => {},
            Err(error) => {
                proof {
                    lemma_with_fields_error(first, all, verb@, i + 1);
                }
                return Err(error);
            },
        }
        i += 1;
    }
    assert(all.take(i as int) == all);
    Ok(())
}

pub open spec fn bytes_view(r: Result<Vec<u8>, AgentFilesystemScanError>) -> Result<
    Seq<u8>,
    AgentFilesystemScanError,
> {
    match r {
        Ok(bytes) => Ok(bytes@),
        Err(error) => Err(error),
    }
}

/// The bytes of a settings file, within the limit.
pub open spec fn bounded_root(root: Members) -> Result<Seq<u8>, AgentFilesystemScanError> {
    if rendered_root(root).len() > MAX_CONFIG_BYTES {
        Err(AgentFilesystemScanError::ConfigTooLarge)
    } else {
        Ok(rendered_root(root))
    }
}

/// What a change makes of a settings file's bytes, or why it cannot be made.
pub open spec fn changed_bytes(
    bytes: Seq<u8>,
    strict: bool,
    change: AgentConfigChangeV1,
    verb: Seq<char>,
) -> Result<Seq<u8>, AgentFilesystemScanError> {
    match native_root(bytes, strict) {
        Err(error) => Err(error),
        Ok(root) => if !is_change(change) {
            Err(AgentFilesystemScanError::InvalidDescriptor)
        } else {
            match changed_root(root, changes_view(change.fields@), verb) {
                Err(error) => Err(error),
                Ok(after) => bounded_root(after),
            }
        },
    }
}

/// Whether bytes that a change was rendered to hold it, and give back what was there: read again,
/// the change stands, and restoring it leaves the original settings, but for fractions where there
/// are any.
pub open spec fn holds_change(
    rendered: Seq<u8>,
    original: Seq<u8>,
    strict: bool,
    change: AgentConfigChangeV1,
    verb: Seq<char>,
) -> bool {
    let fields = changes_view(change.fields@);
    let root = native_root(original, strict)->Ok_0;
    &&& reads_back(rendered, changed_root(root, fields, verb)->Ok_0)
    &&& native_root(rendered, true) matches Ok(back) ==> {
        &&& is_applied(back, fields, verb) == Ok::<bool, AgentFilesystemScanError>(true)
        &&& restored_root(back, root, fields) matches Ok(given) && alike(
            JsonView::Object(root),
            JsonView::Object(given),
        )
    }
    &&& is_whole(JsonView::Object(root)) ==> {
        &&& native_root(rendered, true) is Ok
        &&& restored_bytes(rendered, true, original, strict, change, verb) == bounded_root(root)
    }
}

/// Applies a change to a settings file. What comes out may hold secrets of the user's. Read again,
/// it shows the change standing, and restoring it gives the original back, unless two fields of
/// the change are the same one.
pub fn render_claude_change_bytes(
    bytes: &[u8],
    strict: bool,
    change: &AgentConfigChangeV1,
    verb: &str,
) -> (r: Result<Vec<u8>, AgentFilesystemScanError>)
    ensures
        bytes_view(r) == changed_bytes(bytes@, strict, *change, verb@),
        are_apart(changes_view(change.fields@)) ==> (r matches Ok(rendered) ==> holds_change(
            rendered@,
            bytes@,
            strict,
            *change,
            verb@,
        )),
{
    let mut root = match read_root(bytes, strict) {
        Ok(root) => root,
        Err(error) => return Err(error),
    };
    if !valid_change(change) {
        return Err(AgentFilesystemScanError::InvalidDescriptor);
    }
    match apply_fields(&mut root, &change.fields, verb) {
        Ok(()) => {},
        Err(error) => return Err(error),
    }
    let leftover = match object_member(&root, "env") {
        Some(env) => auth_present(env),
        None => false,
    };
    if leftover && helper_is_set(&change.fields) {
        return Err(AgentFilesystemScanError::InvalidDescriptor);
    }
    let r = render_root(root);
    proof {
        lemma_rendered_holds(bytes@, strict, *change, verb@, r);
    }
    r
}

/// A change that could be rendered holds in the bytes.
proof fn lemma_rendered_holds(
    bytes: Seq<u8>,
    strict: bool,
    change: AgentConfigChangeV1,
    verb: Seq<char>,
    r: Result<Vec<u8>, AgentFilesystemScanError>,
)
    requires
        is_change(change),
        native_root(bytes, strict) matches Ok(root) && is_readable(root),
        ({
            let root = native_root(bytes, strict)->Ok_0;
            let fields = changes_view(change.fields@);
            &&& changed_root(root, fields, verb) is Ok
            &&& bytes_view(r) == bounded_root(changed_root(root, fields, verb)->Ok_0)
            &&& is_readable(changed_root(root, fields, verb)->Ok_0) ==> (r matches Ok(rendered)
                ==> reads_back(rendered@, changed_root(root, fields, verb)->Ok_0))
        }),
    ensures
        are_apart(changes_view(change.fields@)) ==> (r matches Ok(rendered) ==> holds_change(
            rendered@,
            bytes,
            strict,
            change,
            verb,
        )),
{
    let fields = changes_view(change.fields@);
    let root = native_root(bytes, strict)->Ok_0;
    lemma_managed(change);
    lemma_change_readable(root, fields, verb);
    if r is Ok && are_apart(fields) {
        let rendered = r->Ok_0@;
        if let Ok(back) = native_root(rendered, true) {
            lemma_alike_stands(root, fields, verb, back);
            lemma_alike_restores(root, fields, verb, back);
        }
        if is_whole(JsonView::Object(root)) {
            restoration_undoes_a_rendered_change(bytes, change, verb);
        }
    }
}

/// The bytes that an absent settings file counts as: an empty object.
pub fn render_claude_user_change(
    bytes: Option<&[u8]>,
    strict: bool,
    change: &AgentConfigChangeV1,
    verb: &str,
) -> (r: Result<Vec<u8>, AgentFilesystemScanError>)
    ensures
        match bytes {
            Some(bytes) => bytes_view(r) == changed_bytes(bytes@, strict, *change, verb@),
            None => bytes_view(r) == changed_bytes(
                vstd::utf8::encode_utf8("{}"@),
                true,
                *change,
                verb@,
            ),
        },
{
    match bytes {
        Some(bytes) => render_claude_change_bytes(bytes, strict, change, verb),
        None => render_claude_change_bytes("{}".as_bytes(), true, change, verb),
    }
}

/// Whether a field of a change stands as the change left it, or why that cannot be told.
pub open spec fn field_is_applied(
    root: Members,
    place: Place,
    after: Option<JsonView>,
    verb: Seq<char>,
) -> Result<bool, AgentFilesystemScanError> {
    match place {
        Place::Helper => match after {
            Some(after) => match helper_command(after, verb) {
                Some(command) => Ok(
                    root.contains_key("apiKeyHelper"@) && root["apiKeyHelper"@] == JsonView::Str(
                        command,
                    ),
                ),
                None => Err(AgentFilesystemScanError::InvalidDescriptor),
            },
            None => Ok(!root.contains_key("apiKeyHelper"@)),
        },
        Place::Auth => match after {
            Some(_) => Err(AgentFilesystemScanError::InvalidDescriptor),
            None => Ok(semantic_value(root, place) is None),
        },
        Place::Variable(_) => Ok(semantic_value(root, place) == after),
    }
}

/// Whether the first fields that decide say that a change stands.
pub open spec fn fields_are_applied(
    root: Members,
    fields: Seq<FieldChangeView>,
    n: int,
    verb: Seq<char>,
) -> Result<bool, AgentFilesystemScanError>
    decreases n,
{
    if n <= 0 {
        Ok(true)
    } else {
        match fields_are_applied(root, fields, n - 1, verb) {
            Ok(true) => field_is_applied(
                root,
                place_of(fields[n - 1].path)->0,
                fields[n - 1].after,
                verb,
            ),
            other => other,
        }
    }
}

/// Whether a change stands: each field as the change left it, and no credential beside its helper.
pub open spec fn is_applied(root: Members, fields: Seq<FieldChangeView>, verb: Seq<char>) -> Result<
    bool,
    AgentFilesystemScanError,
> {
    match fields_are_applied(root, fields, fields.len() as int, verb) {
        Ok(true) => Ok(
            !(sets_helper(fields) && (env_of(root) matches Some(env) && has_auth(env))),
        ),
        other => other,
    }
}

fn check_field(
    root: &Vec<(String, Json)>,
    path: &str,
    after: &Option<Json>,
    verb: &str,
) -> (r: Result<bool, AgentFilesystemScanError>)
    requires
        place_of(path@) is Some,
    ensures
        r == field_is_applied(object_view(root@), place_of(path@)->0, maybe_json(*after), verb@),
{
    if same(path, "apiKeyHelper") {
        return match after {
            Some(after) => match render_claude_helper_command(after, verb) {
                Some(command) => match find_member(root, "apiKeyHelper") {
                    Some(Json::Str(text)) => Ok(same(text.as_str(), command.as_str())),
                    _ => Ok(false),
                },
                None => Err(AgentFilesystemScanError::InvalidDescriptor),
            },
            None => Ok(find_member(root, "apiKeyHelper").is_none()),
        };
    }
    let now = claude_semantic_value(root, path);
    if same(path, "hiroute.auth_environment") {
        if after.is_some() {
            return Err(AgentFilesystemScanError::InvalidDescriptor);
        }
        return Ok(now.is_none());
    }
    Ok(same_optional(&now, after))
}

proof fn lemma_applied_stops(
    root: Members,
    fields: Seq<FieldChangeView>,
    verb: Seq<char>,
    k: int,
    n: int,
)
    requires
        0 <= k <= n,
        fields_are_applied(root, fields, k, verb) != Ok::<bool, AgentFilesystemScanError>(true),
    ensures
        fields_are_applied(root, fields, n, verb) == fields_are_applied(root, fields, k, verb),
    decreases n - k,
{
    if k < n {
        lemma_applied_stops(root, fields, verb, k, n - 1);
    }
}

fn change_stands(
    root: &Vec<(String, Json)>,
    fields: &Vec<ConfigFieldChangeV1>,
    verb: &str,
) -> (r: Result<bool, AgentFilesystemScanError>)
    requires
        forall|i: int| 0 <= i < fields@.len() ==> place_of((#[trigger] fields@[i]).path@) is Some,
    ensures
        r == is_applied(object_view(root@), changes_view(fields@), verb@),
{
    let ghost view = object_view(root@);
    let ghost all = changes_view(fields@);
    let mut i: usize = 0;
    while i < fields.len()
        invariant
            i <= fields.len(),
            view == object_view(root@),
            all == changes_view(fields@),
            forall|j: int|
                0 <= j < fields@.len() ==> place_of((#[trigger] fields@[j]).path@) is Some,
            fields_are_applied(view, all, i as int, verb@) == Ok::<bool, AgentFilesystemScanError>(
                true,
            ),
        decreases fields.len() - i,
    {
        let field = &fields[i];
        assert(all[i as int] == field@);
        match check_field(root, field.path.as_str(), &field.after, verb) {
            Ok(true) => {},
            other => {
                proof {
                    lemma_applied_stops(view, all, verb@, i + 1, all.len() as int);
                }
                return other;
            },
        }
        i += 1;
    }
    let leftover = match object_member(root, "env") {
        Some(env) => auth_present(env),
        None => false,
    };
    Ok(!(leftover && helper_is_set(fields)))
}

/// Whether a change stands in a settings file. The client may rewrite the file's spelling and its
/// other fields.
pub fn claude_change_bytes_are_applied(
    bytes: &[u8],
    strict: bool,
    change: &AgentConfigChangeV1,
    verb: &str,
) -> (r: Result<bool, AgentFilesystemScanError>)
    ensures
        r == (match native_root(bytes@, strict) {
            Err(error) => Err(error),
            Ok(root) => if !is_change(*change) {
                Err(AgentFilesystemScanError::InvalidDescriptor)
            } else {
                is_applied(root, changes_view(change.fields@), verb@)
            },
        }),
{
    let root = match read_root(bytes, strict) {
        Ok(root) => root,
        Err(error) => return Err(error),
    };
    if !valid_change(change) {
        return Err(AgentFilesystemScanError::InvalidDescriptor);
    }
    change_stands(&root, &change.fields, verb)
}

/// Whether a change stands in a settings file that may be absent.
pub fn claude_user_change_is_applied(
    read: &Result<Option<Vec<u8>>, AgentFilesystemScanError>,
    strict: bool,
    change: &AgentConfigChangeV1,
    verb: &str,
) -> (r: Result<bool, AgentFilesystemScanError>)
    ensures
        r == (if !is_change(*change) {
            Err(AgentFilesystemScanError::InvalidDescriptor)
        } else {
            match *read {
                Err(error) => Err(error),
                Ok(None) => Ok(false),
                Ok(Some(bytes)) => match native_root(bytes@, strict) {
                    Err(error) => Err(error),
                    Ok(root) => is_applied(root, changes_view(change.fields@), verb@),
                },
            }
        }),
{
    if !valid_change(change) {
        return Err(AgentFilesystemScanError::InvalidDescriptor);
    }
    match read {
        Err(error) => Err(*error),
        Ok(None) => Ok(false),
        Ok(Some(bytes)) => claude_change_bytes_are_applied(
            bytes.as_slice(),
            strict,
            change,
            verb,
        ),
    }
}

/// A settings file with a variable as the original has it.
pub open spec fn with_variable_of(
    root: Members,
    original: Members,
    name: Seq<char>,
) -> Result<Members, AgentFilesystemScanError> {
    match env_of(original) {
        Some(env) => if env.contains_key(name) {
            match with_variable(root, name, env[name]) {
                Some(root) => Ok(root),
                None => Err(AgentFilesystemScanError::InvalidConfig),
            }
        } else {
            Ok(without_variable(root, name))
        },
        None => Ok(without_variable(root, name)),
    }
}

pub open spec fn then_variable_of(
    root: Result<Members, AgentFilesystemScanError>,
    original: Members,
    name: Seq<char>,
) -> Result<Members, AgentFilesystemScanError> {
    match root {
        Ok(root) => with_variable_of(root, original, name),
        Err(error) => Err(error),
    }
}

/// A settings file with the credentials as the original has them.
pub open spec fn with_auth_of(root: Members, original: Members) -> Result<
    Members,
    AgentFilesystemScanError,
> {
    then_variable_of(
        then_variable_of(
            then_variable_of(
                then_variable_of(
                    then_variable_of(
                        with_variable_of(root, original, "ANTHROPIC_AUTH_TOKEN"@),
                        original,
                        "ANTHROPIC_API_KEY"@,
                    ),
                    original,
                    "ANTHROPIC_CUSTOM_HEADERS"@,
                ),
                original,
                "CLAUDE_CODE_USE_BEDROCK"@,
            ),
            original,
            "CLAUDE_CODE_USE_FOUNDRY"@,
        ),
        original,
        "CLAUDE_CODE_USE_VERTEX"@,
    )
}

/// A settings file with a managed place as the original has it.
pub open spec fn with_place_of(root: Members, original: Members, place: Place) -> Result<
    Members,
    AgentFilesystemScanError,
> {
    match place {
        Place::Helper => if original.contains_key("apiKeyHelper"@) {
            Ok(root.insert("apiKeyHelper"@, original["apiKeyHelper"@]))
        } else {
            Ok(root.remove("apiKeyHelper"@))
        },
        Place::Auth => with_auth_of(root, original),
        Place::Variable(name) => with_variable_of(root, original, name),
    }
}

/// A settings file with the fields of a change as the original has them.
pub open spec fn with_places_of(root: Members, original: Members, fields: Seq<FieldChangeView>) ->
    Result<Members, AgentFilesystemScanError>
    decreases fields.len(),
{
    if fields.len() == 0 {
        Ok(root)
    } else {
        match with_places_of(root, original, fields.drop_last()) {
            Err(error) => Err(error),
            Ok(root) => with_place_of(root, original, place_of(fields.last().path)->0),
        }
    }
}

/// A settings file without an environment that is empty, where the original had none.
pub open spec fn without_empty_env(root: Members, original: Members) -> Members {
    if !original.contains_key("env"@) && env_of(root) == Some(Map::<Seq<char>, JsonView>::empty()) {
        root.remove("env"@)
    } else {
        root
    }
}

/// A settings file with the fields of a change given back.
pub open spec fn restored_root(
    root: Members,
    original: Members,
    fields: Seq<FieldChangeView>,
) -> Result<Members, AgentFilesystemScanError> {
    match with_places_of(root, original, fields) {
        Err(error) => Err(error),
        Ok(root) => Ok(without_empty_env(root, original)),
    }
}

fn give_variable_back(
    root: &mut Vec<(String, Json)>,
    original: &Vec<(String, Json)>,
    name: &str,
) -> (r: Result<(), AgentFilesystemScanError>)
    ensures
        match with_variable_of(object_view(old(root)@), object_view(original@), name@) {
            Ok(view) => r is Ok && object_view(final(root)@) == view,
            Err(failure) => r matches Err(error) && error == failure,
        },
{
    let previous = match object_member(original, "env") {
        Some(env) => match find_member(env, name) {
            Some(value) => Some(value.copied()),
            None => None,
        },
        None => None,
    };
    match previous {
        Some(value) => match set_variable(root, name, value) {
            Some(()) => Ok(()),
            None => Err(AgentFilesystemScanError::InvalidConfig),
        },
        None => {
            remove_variable(root, name);
            Ok(())
        },
    }
}

fn give_auth_back(root: &mut Vec<(String, Json)>, original: &Vec<(String, Json)>) -> (r: Result<
    (),
    AgentFilesystemScanError,
>)
    ensures
        match with_auth_of(object_view(old(root)@), object_view(original@)) {
            Ok(view) => r is Ok && object_view(final(root)@) == view,
            Err(failure) => r matches Err(error) && error == failure,
        },
{
    match give_variable_back(root, original, "ANTHROPIC_AUTH_TOKEN") {
        Ok(()) => {},
        Err(error) => return Err(error),
    }
    match give_variable_back(root, original, "ANTHROPIC_API_KEY") {
        Ok(()) => {},
        Err(error) => return Err(error),
    }
    match give_variable_back(root, original, "ANTHROPIC_CUSTOM_HEADERS") {
        Ok(()) => {},
        Err(error) => return Err(error),
    }
    match give_variable_back(root, original, "CLAUDE_CODE_USE_BEDROCK") {
        Ok(()) => {},
        Err(error) => return Err(error),
    }
    match give_variable_back(root, original, "CLAUDE_CODE_USE_FOUNDRY") {
        Ok(()) => {},
        Err(error) => return Err(error),
    }
    give_variable_back(root, original, "CLAUDE_CODE_USE_VERTEX")
}

fn give_place_back(
    root: &mut Vec<(String, Json)>,
    original: &Vec<(String, Json)>,
    path: &str,
) -> (r: Result<(), AgentFilesystemScanError>)
    requires
        place_of(path@) is Some,
    ensures
        match with_place_of(object_view(old(root)@), object_view(original@), place_of(path@)->0) {
            Ok(view) => r is Ok && object_view(final(root)@) == view,
            Err(failure) => r matches Err(error) && error == failure,
        },
{
    if same(path, "apiKeyHelper") {
        match find_member(original, "apiKeyHelper") {
            Some(value) => put_member(root, "apiKeyHelper", value.copied()),
            None => remove_member(root, "apiKeyHelper"),
        }
        return Ok(());
    }
    if same(path, "hiroute.auth_environment") {
        return give_auth_back(root, original);
    }
    match strip_prefix(path, "env.") {
        Some(name) => give_variable_back(root, original, name.as_str()),
        None => Err(AgentFilesystemScanError::InvalidDescriptor),
    }
}

proof fn lemma_places_error(root: Members, original: Members, fields: Seq<FieldChangeView>, k: int)
    requires
        0 <= k <= fields.len(),
        with_places_of(root, original, fields.take(k)) is Err,
    ensures
        with_places_of(root, original, fields) == with_places_of(root, original, fields.take(k)),
    decreases fields.len() - k,
{
    if k < fields.len() {
        assert(fields.take(k + 1).drop_last() == fields.take(k));
        lemma_places_error(root, original, fields, k + 1);
    } else {
        assert(fields.take(k) == fields);
    }
}

fn restore_root(
    root: &mut Vec<(String, Json)>,
    original: &Vec<(String, Json)>,
    fields: &Vec<ConfigFieldChangeV1>,
) -> (r: Result<(), AgentFilesystemScanError>)
    requires
        forall|i: int| 0 <= i < fields@.len() ==> place_of((#[trigger] fields@[i]).path@) is Some,
    ensures
        match restored_root(
            object_view(old(root)@),
            object_view(original@),
            changes_view(fields@),
        ) {
            Ok(view) => r is Ok && object_view(final(root)@) == view,
            Err(failure) => r matches Err(error) && error == failure,
        },
{
    let ghost first = object_view(root@);
    let ghost base = object_view(original@);
    let ghost all = changes_view(fields@);
    let mut i: usize = 0;
    assert(all.take(0) == Seq::<FieldChangeView>::empty());
    while i < fields.len()
        invariant
            i <= fields.len(),
            all == changes_view(fields@),
            first == object_view(old(root)@),
            base == object_view(original@),
            forall|j: int|
                0 <= j < fields@.len() ==> place_of((#[trigger] fields@[j]).path@) is Some,
            with_places_of(first, base, all.take(i as int)) == Ok::<_, AgentFilesystemScanError>(
                object_view(root@),
            ),
        decreases fields.len() - i,
    {
        let field = &fields[i];
        proof {
            assert(all[i as int] == field@);
            assert(all.take(i + 1).drop_last() == all.take(i as int));
            assert(all.take(i + 1).last() == field@);
        }
        match give_place_back(root, original, field.path.as_str()) {
            Ok(()) => {},
            Err(error) => {
                proof {
                    lemma_places_error(first, base, all, i + 1);
                }
                return Err(error);
            },
        }
        i += 1;
    }
    assert(all.take(i as int) == all);
    let empty = match object_member(root, "env") {
        Some(env) => {
            proof {
                if env@.len() == 0 {
                    assert(object_view(env@) =~= Map::<Seq<char>, JsonView>::empty());
                } else {
                    lemma_object_names(env@, env@[0].0@);
                    assert(object_view(env@).contains_key(env@[0].0@));
                }
            }
            env.len() == 0
        },
        None => false,
    };
    if empty && find_member(original, "env").is_none() {
        remove_member(root, "env");
    }
    Ok(())
}

/// What a restoration makes of a settings file's bytes, or why it cannot be made.
pub open spec fn restored_bytes(
    current: Seq<u8>,
    current_strict: bool,
    original: Seq<u8>,
    original_strict: bool,
    change: AgentConfigChangeV1,
    verb: Seq<char>,
) -> Result<Seq<u8>, AgentFilesystemScanError> {
    match native_root(original, original_strict) {
        Err(error) => Err(error),
        Ok(before) => match native_root(current, current_strict) {
            Err(error) => Err(error),
            Ok(root) => if !is_change(change) {
                Err(AgentFilesystemScanError::InvalidDescriptor)
            } else {
                match is_applied(root, changes_view(change.fields@), verb) {
                    Err(error) => Err(error),
                    Ok(false) => Err(AgentFilesystemScanError::SourceChanged),
                    Ok(true) => match restored_root(root, before, changes_view(change.fields@)) {
                        Err(error) => Err(error),
                        Ok(after) => bounded_root(after),
                    },
                }
            },
        },
    }
}

/// Gives the fields of a change that still stands back as the original file has them. The
/// original's helper and credentials never enter the change.
pub fn restore_claude_change_bytes(
    current: &[u8],
    current_strict: bool,
    original: &[u8],
    original_strict: bool,
    change: &AgentConfigChangeV1,
    verb: &str,
) -> (r: Result<Vec<u8>, AgentFilesystemScanError>)
    ensures
        bytes_view(r) == restored_bytes(
            current@,
            current_strict,
            original@,
            original_strict,
            *change,
            verb@,
        ),
        r matches Ok(restored) ==> reads_back(
            restored@,
            restored_root(
                native_root(current@, current_strict)->Ok_0,
                native_root(original@, original_strict)->Ok_0,
                changes_view(change.fields@),
            )->Ok_0,
        ),
{
    let before = match read_root(original, original_strict) {
        Ok(before) => before,
        Err(error) => return Err(error),
    };
    let mut root = match read_root(current, current_strict) {
        Ok(root) => root,
        Err(error) => return Err(error),
    };
    if !valid_change(change) {
        return Err(AgentFilesystemScanError::InvalidDescriptor);
    }
    match change_stands(&root, &change.fields, verb) {
        Ok(true) => {},
        Ok(false) => return Err(AgentFilesystemScanError::SourceChanged),
        Err(error) => return Err(error),
    }
    proof {
        lemma_managed(*change);
        lemma_restoration_readable(
            object_view(root@),
            object_view(before@),
            changes_view(change.fields@),
        );
    }
    match restore_root(&mut root, &before, &change.fields) {
        Ok(()) => {},
        Err(error) => return Err(error),
    }
    render_root(root)
}

/// The managed paths.
pub open spec fn managed_paths() -> Seq<Seq<char>> {
    seq![
        "apiKeyHelper"@,
        "hiroute.auth_environment"@,
        "env.ANTHROPIC_BASE_URL"@,
        "env.ANTHROPIC_MODEL"@,
        "env.ANTHROPIC_DEFAULT_OPUS_MODEL"@,
        "env.ANTHROPIC_DEFAULT_SONNET_MODEL"@,
        "env.ANTHROPIC_DEFAULT_HAIKU_MODEL"@,
        "env.ANTHROPIC_SMALL_FAST_MODEL"@,
        "env.CLAUDE_CODE_AUTO_COMPACT_WINDOW"@,
        "env.CLAUDE_CODE_MAX_CONTEXT_TOKENS"@,
    ]
}

fn managed_path_list() -> (r: Vec<String>)
    ensures
        crate::text::views_of(r@) == managed_paths(),
{
    let mut paths: Vec<String> = Vec::new();
    paths.push("apiKeyHelper".to_owned());
    paths.push("hiroute.auth_environment".to_owned());
    paths.push("env.ANTHROPIC_BASE_URL".to_owned());
    paths.push("env.ANTHROPIC_MODEL".to_owned());
    paths.push("env.ANTHROPIC_DEFAULT_OPUS_MODEL".to_owned());
    paths.push("env.ANTHROPIC_DEFAULT_SONNET_MODEL".to_owned());
    paths.push("env.ANTHROPIC_DEFAULT_HAIKU_MODEL".to_owned());
    paths.push("env.ANTHROPIC_SMALL_FAST_MODEL".to_owned());
    paths.push("env.CLAUDE_CODE_AUTO_COMPACT_WINDOW".to_owned());
    paths.push("env.CLAUDE_CODE_MAX_CONTEXT_TOKENS".to_owned());
    assert(crate::text::views_of(paths@) =~= managed_paths());
    paths
}

/// A wanted value of a path.
#[derive(Debug)]
pub struct WantedField {
    pub path: String,
    pub after: Option<Json>,
}

pub struct WantedView {
    pub path: Seq<char>,
    pub after: Option<JsonView>,
}

pub open spec fn wanted_view(wanted: Seq<WantedField>) -> Seq<WantedView> {
    wanted.map_values(
        |field: WantedField| WantedView { path: field.path@, after: maybe_json(field.after) },
    )
}

/// What a change sees of a path; nothing at a path that is not managed.
pub open spec fn seen_at(root: Members, path: Seq<char>) -> Option<JsonView> {
    match place_of(path) {
        Some(place) => semantic_value(root, place),
        None => None,
    }
}

/// The field that takes a path of a settings file to a wanted value.
pub open spec fn field_to(root: Members, wanted: WantedView) -> FieldChangeView {
    FieldChangeView {
        path: wanted.path,
        before: seen_at(root, wanted.path),
        after: wanted.after,
        before_digest: canonical_digest_of(or_null(seen_at(root, wanted.path))),
    }
}

/// One field for each wanted value that differs from what is there.
pub open spec fn fields_to(root: Members, wanted: Seq<WantedView>) -> Seq<FieldChangeView>
    decreases wanted.len(),
{
    if wanted.len() == 0 {
        Seq::empty()
    } else {
        let before = fields_to(root, wanted.drop_last());
        if seen_at(root, wanted.last().path) == wanted.last().after {
            before
        } else {
            before.push(field_to(root, wanted.last()))
        }
    }
}

pub open spec fn paths_of(wanted: Seq<WantedView>) -> Seq<Seq<char>> {
    wanted.map_values(|field: WantedView| field.path)
}

/// Wanted values in the order of their paths, each path once, with what is wanted of it last.
pub open spec fn ordered_wanted(wanted: Seq<WantedView>) -> Seq<WantedView> {
    in_order(paths_of(wanted)).map_values(
        |path: Seq<char>| WantedView { path, after: wanted_at(wanted, path)->0 },
    )
}

/// The change that takes a settings file to wanted values: one field for each path that differs, in
/// the order of the paths.
pub open spec fn preview_fields(root: Members, wanted: Seq<WantedView>) -> Seq<FieldChangeView> {
    fields_to(root, ordered_wanted(wanted))
}

fn seen_value(root: &Vec<(String, Json)>, path: &str) -> (r: Option<Json>)
    ensures
        maybe_json(r) == seen_at(object_view(root@), path@),
{
    if managed_path(path) {
        claude_semantic_value(root, path)
    } else {
        None
    }
}

fn copied_json(json: &Option<Json>) -> (r: Option<Json>)
    ensures
        maybe_json(r) == maybe_json(*json),
{
    match json {
        Some(json) => Some(json.copied()),
        None => None,
    }
}

fn order_wanted(wanted: &Vec<WantedField>) -> (r: Vec<WantedField>)
    ensures
        wanted_view(r@) == ordered_wanted(wanted_view(wanted@)),
{
    let ghost all = wanted_view(wanted@);
    let ghost value = |path: Seq<char>| WantedView { path, after: wanted_at(all, path)->0 };
    let mut given: Vec<String> = Vec::new();
    let mut i: usize = 0;
    assert(views_of(given@) =~= paths_of(all).take(0));
    while i < wanted.len()
        invariant
            i <= wanted.len(),
            all == wanted_view(wanted@),
            views_of(given@) == paths_of(all).take(i as int),
        decreases wanted.len() - i,
    {
        let ghost before = views_of(given@);
        given.push(wanted[i].path.clone());
        proof {
            assert(all[i as int].path == wanted@[i as int].path@);
            assert(views_of(given@) =~= before.push(paths_of(all)[i as int]));
            assert(paths_of(all).take(i + 1) =~= before.push(paths_of(all)[i as int]));
        }
        i += 1;
    }
    assert(paths_of(all).take(i as int) == paths_of(all));
    let paths = ordered(&given);
    let ghost names = views_of(paths@);
    let mut out: Vec<WantedField> = Vec::new();
    let mut k: usize = 0;
    proof {
        ordered_lists_hold_the_same(paths_of(all));
        assert(wanted_view(out@) =~= names.take(0).map_values(value));
    }
    while k < paths.len()
        invariant
            k <= paths.len(),
            all == wanted_view(wanted@),
            names == views_of(paths@),
            value == (|path: Seq<char>| WantedView { path, after: wanted_at(all, path)->0 }),
            forall|path: Seq<char>| #[trigger] names.contains(path) <==> paths_of(all).contains(
                path,
            ),
            wanted_view(out@) == names.take(k as int).map_values(value),
        decreases paths.len() - k,
    {
        let path = paths[k].as_str();
        let ghost before = wanted_view(out@);
        proof {
            assert(names[k as int] == path@);
            assert(names.contains(path@));
            lemma_wanted_somewhere(all, path@);
        }
        if let Some(after) = find_wanted(wanted, path) {
            out.push(WantedField { path: path.to_owned(), after });
        }
        proof {
            assert(wanted_view(out@) =~= before.push(value(path@)));
            assert(names.take(k + 1).map_values(value) =~= names.take(k as int).map_values(
                value,
            ).push(value(path@)));
        }
        k += 1;
    }
    assert(names.take(k as int) == names);
    out
}

/// A path that something is wanted of has a wanted value.
proof fn lemma_wanted_somewhere(wanted: Seq<WantedView>, path: Seq<char>)
    requires
        paths_of(wanted).contains(path),
    ensures
        wanted_at(wanted, path) is Some,
    decreases wanted.len(),
{
    let i = choose|i: int| 0 <= i < paths_of(wanted).len() && paths_of(wanted)[i] == path;
    if wanted.last().path != path {
        let init = wanted.drop_last();
        assert(paths_of(init)[i] == path);
        lemma_wanted_somewhere(init, path);
    }
}

/// The change that takes a settings file to wanted values, in the order of their paths.
pub fn preview(root: &Vec<(String, Json)>, wanted: &Vec<WantedField>) -> (r: AgentConfigChangeV1)
    ensures
        r.is_valid,
        changes_view(r.fields@) == preview_fields(object_view(root@), wanted_view(wanted@)),
{
    let wanted = order_wanted(wanted);
    let ghost view = object_view(root@);
    let ghost all = wanted_view(wanted@);
    let mut fields: Vec<ConfigFieldChangeV1> = Vec::new();
    let mut i: usize = 0;
    proof {
        assert(all.take(0) == Seq::<WantedView>::empty());
        assert(changes_view(fields@) =~= Seq::<FieldChangeView>::empty());
    }
    while i < wanted.len()
        invariant
            i <= wanted.len(),
            view == object_view(root@),
            all == wanted_view(wanted@),
            changes_view(fields@) == fields_to(view, all.take(i as int)),
        decreases wanted.len() - i,
    {
        let field = &wanted[i];
        proof {
            assert(all.take(i + 1).drop_last() == all.take(i as int));
            assert(all.take(i + 1).last() == all[i as int]);
        }
        let before = seen_value(root, field.path.as_str());
        if !same_optional(&before, &field.after) {
            let before_digest = digest_of_optional(&before);
            let ghost done = changes_view(fields@);
            fields.push(
                ConfigFieldChangeV1 {
                    path: field.path.clone(),
                    before,
                    after: copied_json(&field.after),
                    before_digest,
                },
            );
            assert(changes_view(fields@) =~= done.push(field_to(view, all[i as int])));
        }
        i += 1;
    }
    assert(all.take(i as int) == all);
    AgentConfigChangeV1 { fields, is_valid: true }
}

/// Whether a path sets the context window.
pub open spec fn is_context_path(path: Seq<char>) -> bool {
    after_prefix(path, "env."@) matches Some(name) && is_context_variable(name)
}

/// What a reconfiguration wants of a field: what its change says, but for a context window that is
/// no longer managed, which goes back to what the user had.
pub open spec fn wanted_of(field: FieldChangeView, base: Members) -> WantedView {
    WantedView {
        path: field.path,
        after: if field.after is None && is_context_path(field.path) {
            seen_at(base, field.path)
        } else {
            field.after
        },
    }
}

pub open spec fn wanted_change(fields: Seq<FieldChangeView>, base: Members) -> Seq<WantedView> {
    fields.map_values(|field: FieldChangeView| wanted_of(field, base))
}

/// The last value that is wanted of a path.
pub open spec fn wanted_at(wanted: Seq<WantedView>, path: Seq<char>) -> Option<Option<JsonView>>
    decreases wanted.len(),
{
    if wanted.len() == 0 {
        None
    } else if wanted.last().path == path {
        Some(wanted.last().after)
    } else {
        wanted_at(wanted.drop_last(), path)
    }
}

/// The value that a change gives a path.
pub open spec fn given_at(fields: Seq<FieldChangeView>, path: Seq<char>) -> Option<Option<JsonView>>
    decreases fields.len(),
{
    if fields.len() == 0 {
        None
    } else if fields[0].path == path {
        Some(fields[0].after)
    } else {
        given_at(fields.skip(1), path)
    }
}

/// What every managed path is to be after a reconfiguration, starting from what the user had: what
/// the new change wants, else what the earlier one gave, else what the user had.
pub open spec fn rebased_wanted(
    base: Members,
    previous: Seq<FieldChangeView>,
    wanted: Seq<WantedView>,
) -> Seq<WantedView> {
    managed_paths().map_values(
        |path: Seq<char>|
            WantedView {
                path,
                after: match wanted_at(wanted, path) {
                    Some(after) => after,
                    None => match given_at(previous, path) {
                        Some(after) => after,
                        None => seen_at(base, path),
                    },
                },
            },
    )
}

/// What a reconfiguration comes to: the new file, and one change from what the user had to it.
pub open spec fn rebased_root(
    current: Members,
    base: Members,
    previous: Seq<FieldChangeView>,
    change: Seq<FieldChangeView>,
    verb: Seq<char>,
) -> Result<(Seq<u8>, Seq<FieldChangeView>), AgentFilesystemScanError> {
    let wanted = wanted_change(change, base);
    match changed_root(current, preview_fields(current, wanted), verb) {
        Err(error) => Err(error),
        Ok(after) => match bounded_root(after) {
            Err(error) => Err(error),
            Ok(rendered) => Ok(
                (rendered, preview_fields(base, rebased_wanted(base, previous, wanted))),
            ),
        },
    }
}

/// What a reconfiguration makes of a settings file's bytes, or why it cannot be made.
pub open spec fn rebased_bytes(
    current: Seq<u8>,
    current_strict: bool,
    base: Seq<u8>,
    base_strict: bool,
    previous: AgentConfigChangeV1,
    change: AgentConfigChangeV1,
    verb: Seq<char>,
) -> Result<(Seq<u8>, Seq<FieldChangeView>), AgentFilesystemScanError> {
    if !is_change(previous) {
        Err(AgentFilesystemScanError::InvalidDescriptor)
    } else {
        match native_root(current, current_strict) {
            Err(error) => Err(error),
            Ok(root) => match is_applied(root, changes_view(previous.fields@), verb) {
                Err(error) => Err(error),
                Ok(false) => Err(AgentFilesystemScanError::SourceChanged),
                Ok(true) => match changed_bytes(current, current_strict, change, verb) {
                    Err(error) => Err(error),
                    Ok(_) => match native_root(base, base_strict) {
                        Err(error) => Err(error),
                        Ok(before) => rebased_root(
                            root,
                            before,
                            changes_view(previous.fields@),
                            changes_view(change.fields@),
                            verb,
                        ),
                    },
                },
            },
        }
    }
}

pub open spec fn rebased_view(
    r: Result<(Vec<u8>, AgentConfigChangeV1), AgentFilesystemScanError>,
) -> Result<(Seq<u8>, Seq<FieldChangeView>), AgentFilesystemScanError> {
    match r {
        Ok((rendered, change)) => Ok((rendered@, changes_view(change.fields@))),
        Err(error) => Err(error),
    }
}

fn wanted_list(fields: &Vec<ConfigFieldChangeV1>, base: &Vec<(String, Json)>) -> (r: Vec<
    WantedField,
>)
    ensures
        wanted_view(r@) == wanted_change(changes_view(fields@), object_view(base@)),
        r@.len() == fields@.len(),
        forall|i: int| 0 <= i < fields@.len() ==> (#[trigger] r@[i]).path@ == fields@[i].path@,
{
    let ghost view = object_view(base@);
    let ghost all = changes_view(fields@);
    let mut out: Vec<WantedField> = Vec::new();
    let mut i: usize = 0;
    while i < fields.len()
        invariant
            i <= fields.len(),
            view == object_view(base@),
            all == changes_view(fields@),
            out@.len() == i,
            forall|j: int|
                0 <= j < i ==> (#[trigger] wanted_view(out@)[j]) == wanted_of(all[j], view),
            forall|j: int| 0 <= j < i ==> (#[trigger] out@[j]).path@ == fields@[j].path@,
        decreases fields.len() - i,
    {
        let field = &fields[i];
        assert(all[i as int] == field@);
        let released = field.after.is_none() && match strip_prefix(field.path.as_str(), "env.") {
            Some(name) => context_variable(name.as_str()),
            None => false,
        };
        let after = if released {
            seen_value(base, field.path.as_str())
        } else {
            copied_json(&field.after)
        };
        let ghost before = wanted_view(out@);
        out.push(WantedField { path: field.path.clone(), after });
        assert(wanted_view(out@) =~= before.push(wanted_of(all[i as int], view)));
        i += 1;
    }
    assert(wanted_view(out@) =~= wanted_change(all, view));
    out
}

fn find_wanted(wanted: &Vec<WantedField>, path: &str) -> (r: Option<Option<Json>>)
    ensures
        match wanted_at(wanted_view(wanted@), path@) {
            Some(after) => r matches Some(json) && maybe_json(json) == after,
            None => r is None,
        },
{
    let ghost all = wanted_view(wanted@);
    let mut i: usize = wanted.len();
    assert(all.take(i as int) == all);
    while i > 0
        invariant
            i <= wanted.len(),
            all == wanted_view(wanted@),
            wanted_at(all, path@) == wanted_at(all.take(i as int), path@),
        decreases i,
    {
        proof {
            assert(all.take(i as int).last() == all[i - 1]);
            assert(all.take(i as int).drop_last() == all.take(i - 1));
        }
        if same(wanted[i - 1].path.as_str(), path) {
            return Some(copied_json(&wanted[i - 1].after));
        }
        i -= 1;
    }
    None
}

fn find_given(fields: &Vec<ConfigFieldChangeV1>, path: &str) -> (r: Option<Option<Json>>)
    ensures
        match given_at(changes_view(fields@), path@) {
            Some(after) => r matches Some(json) && maybe_json(json) == after,
            None => r is None,
        },
{
    let ghost all = changes_view(fields@);
    let mut i: usize = 0;
    assert(all.skip(0) == all);
    while i < fields.len()
        invariant
            i <= fields.len(),
            all == changes_view(fields@),
            given_at(all, path@) == given_at(all.skip(i as int), path@),
        decreases fields.len() - i,
    {
        proof {
            assert(all.skip(i as int)[0] == all[i as int]);
            assert(all.skip(i as int).skip(1) == all.skip(i + 1));
        }
        if same(fields[i].path.as_str(), path) {
            return Some(copied_json(&fields[i].after));
        }
        i += 1;
    }
    None
}

fn rebased_list(
    base: &Vec<(String, Json)>,
    previous: &Vec<ConfigFieldChangeV1>,
    wanted: &Vec<WantedField>,
) -> (r: Vec<WantedField>)
    ensures
        wanted_view(r@) == rebased_wanted(
            object_view(base@),
            changes_view(previous@),
            wanted_view(wanted@),
        ),
{
    let paths = managed_path_list();
    let ghost all = managed_paths();
    let ghost target = rebased_wanted(
        object_view(base@),
        changes_view(previous@),
        wanted_view(wanted@),
    );
    let mut out: Vec<WantedField> = Vec::new();
    let mut i: usize = 0;
    while i < paths.len()
        invariant
            i <= paths.len(),
            crate::text::views_of(paths@) == managed_paths(),
            all == managed_paths(),
            target == rebased_wanted(
                object_view(base@),
                changes_view(previous@),
                wanted_view(wanted@),
            ),
            wanted_view(out@) == target.take(i as int),
        decreases paths.len() - i,
    {
        let path = paths[i].as_str();
        assert(all[i as int] == path@);
        let after = match find_wanted(wanted, path) {
            Some(after) => after,
            None => match find_given(previous, path) {
                Some(after) => after,
                None => seen_value(base, path),
            },
        };
        let ghost before = wanted_view(out@);
        out.push(WantedField { path: path.to_owned(), after });
        proof {
            assert(wanted_view(out@) =~= before.push(target[i as int]));
            assert(target.take(i + 1) =~= target.take(i as int).push(target[i as int]));
        }
        i += 1;
    }
    assert(target.take(i as int) == target);
    out
}

/// Whether restoring the bytes of a reconfiguration gives back what the user had, where the file
/// was as the earlier change had left it and holds no fraction.
pub open spec fn holds_rebase(
    rendered: Seq<u8>,
    rebased: AgentConfigChangeV1,
    current: Members,
    base: Seq<u8>,
    base_strict: bool,
    previous: Seq<FieldChangeView>,
    verb: Seq<char>,
) -> bool {
    let before = native_root(base, base_strict)->Ok_0;
    changed_root(before, previous, verb) == Ok::<_, AgentFilesystemScanError>(current) && is_whole(
        JsonView::Object(before),
    ) ==> {
        &&& native_root(rendered, true) is Ok
        &&& restored_bytes(rendered, true, base, base_strict, rebased, verb) == bounded_root(before)
    }
}

/// Composes a change that was planned on the managed file with what the user had before: the new
/// file, and one change that owns the whole way there, so that restoring it leaves neither an
/// older helper nor an older endpoint.
pub fn rebase_claude_change_bytes(
    current: &[u8],
    current_strict: bool,
    base: &[u8],
    base_strict: bool,
    previous: &AgentConfigChangeV1,
    change: &AgentConfigChangeV1,
    verb: &str,
) -> (r: Result<(Vec<u8>, AgentConfigChangeV1), AgentFilesystemScanError>)
    ensures
        rebased_view(r) == rebased_bytes(
            current@,
            current_strict,
            base@,
            base_strict,
            *previous,
            *change,
            verb@,
        ),
        r matches Ok((_, rebased)) ==> rebased.is_valid,
        are_apart(changes_view(previous.fields@)) && are_apart(changes_view(change.fields@)) ==> (
        r matches Ok((rendered, rebased)) ==> holds_rebase(
            rendered@,
            rebased,
            native_root(current@, current_strict)->Ok_0,
            base@,
            base_strict,
            changes_view(previous.fields@),
            verb@,
        )),
{
    if !valid_change(previous) {
        return Err(AgentFilesystemScanError::InvalidDescriptor);
    }
    let mut root = match read_root(current, current_strict) {
        Ok(root) => root,
        Err(error) => return Err(error),
    };
    match change_stands(&root, &previous.fields, verb) {
        Ok(true) => {},
        Ok(false) => return Err(AgentFilesystemScanError::SourceChanged),
        Err(error) => return Err(error),
    }
    match render_claude_change_bytes(current, current_strict, change, verb) {
        Ok(_) => {},
        Err(error) => return Err(error),
    }
    let before = match read_root(base, base_strict) {
        Ok(before) => before,
        Err(error) => return Err(error),
    };
    let wanted = wanted_list(&change.fields, &before);
    let adjusted = preview(&root, &wanted);
    proof {
        lemma_preview_paths(object_view(root@), wanted_view(wanted@));
        assert forall|i: int| 0 <= i < adjusted.fields@.len() implies place_of(
            (#[trigger] adjusted.fields@[i]).path@,
        ) is Some by {
            let view = changes_view(adjusted.fields@);
            assert(view[i] == adjusted.fields@[i]@);
            let j = choose|j: int|
                0 <= j < wanted_view(wanted@).len() && (#[trigger] wanted_view(wanted@)[j]).path
                    == view[i].path;
            assert(wanted@[j].path@ == change.fields@[j].path@);
            assert(place_of(change.fields@[j].path@) is Some);
        }
    }
    match apply_fields(&mut root, &adjusted.fields, verb) {
        Ok(()) => {},
        Err(error) => return Err(error),
    }
    let leftover = match object_member(&root, "env") {
        Some(env) => auth_present(env),
        None => false,
    };
    if leftover && helper_is_set(&adjusted.fields) {
        return Err(AgentFilesystemScanError::InvalidDescriptor);
    }
    let rendered = match render_root(root) {
        Ok(rendered) => rendered,
        Err(error) => return Err(error),
    };
    let rebased = preview(&before, &rebased_list(&before, &previous.fields, &wanted));
    proof {
        lemma_rebased_holds(
            native_root(current@, current_strict)->Ok_0,
            base@,
            base_strict,
            *previous,
            *change,
            verb@,
            rendered@,
            rebased,
        );
    }
    Ok((rendered, rebased))
}

/// A reconfiguration that could be rendered gives back what the user had.
proof fn lemma_rebased_holds(
    current: Members,
    base: Seq<u8>,
    base_strict: bool,
    previous: AgentConfigChangeV1,
    change: AgentConfigChangeV1,
    verb: Seq<char>,
    rendered: Seq<u8>,
    rebased: AgentConfigChangeV1,
)
    requires
        is_change(previous),
        is_change(change),
        native_root(base, base_strict) matches Ok(before) && is_readable(before),
        rebased.is_valid,
        ({
            let before = native_root(base, base_strict)->Ok_0;
            let planned = preview_fields(
                current,
                wanted_change(changes_view(change.fields@), before),
            );
            &&& is_readable(current)
            &&& changed_root(current, changes_view(change.fields@), verb) is Ok
            &&& rebased_root(
                current,
                before,
                changes_view(previous.fields@),
                changes_view(change.fields@),
                verb,
            ) == Ok::<_, AgentFilesystemScanError>((rendered, changes_view(rebased.fields@)))
            &&& is_readable(changed_root(current, planned, verb)->Ok_0) ==> reads_back(
                rendered,
                changed_root(current, planned, verb)->Ok_0,
            )
        }),
    ensures
        are_apart(changes_view(previous.fields@)) && are_apart(changes_view(change.fields@))
            ==> holds_rebase(
            rendered,
            rebased,
            current,
            base,
            base_strict,
            changes_view(previous.fields@),
            verb,
        ),
{
    let before = native_root(base, base_strict)->Ok_0;
    let earlier = changes_view(previous.fields@);
    let later = changes_view(change.fields@);
    let composed = changes_view(rebased.fields@);
    let planned = preview_fields(current, wanted_change(later, before));
    lemma_managed(previous);
    lemma_managed(change);
    if are_apart(earlier) && are_apart(later) && changed_root(before, earlier, verb) == Ok::<
        _,
        AgentFilesystemScanError,
    >(current) && is_whole(JsonView::Object(before)) {
        restoration_undoes_a_reconfiguration(before, earlier, later, verb);
        lemma_change_readable(before, earlier, verb);
        lemma_change_readable(current, planned, verb);
        assert forall|i: int| 0 <= i < rebased.fields@.len() implies place_of(
            (#[trigger] rebased.fields@[i]).path@,
        ) is Some by {
            assert(composed[i].path == rebased.fields@[i].path@);
        }
    }
}

proof fn lemma_managed(change: AgentConfigChangeV1)
    requires
        is_change(change),
    ensures
        are_managed(changes_view(change.fields@)),
{
    let fields = changes_view(change.fields@);
    assert forall|i: int| 0 <= i < fields.len() implies place_of((#[trigger] fields[i]).path)
        is Some by {
        assert(fields[i].path == change.fields@[i].path@);
    }
}

proof fn lemma_preview_paths(root: Members, wanted: Seq<WantedView>)
    ensures
        forall|i: int|
            0 <= i < preview_fields(root, wanted).len() ==> exists|j: int|
                0 <= j < wanted.len() && (#[trigger] wanted[j]).path == (
                #[trigger] preview_fields(root, wanted)[i]).path,
{
    let fields = preview_fields(root, wanted);
    let list = ordered_wanted(wanted);
    let names = in_order(paths_of(wanted));
    lemma_field_paths(root, list);
    ordered_lists_hold_the_same(paths_of(wanted));
    assert forall|i: int| 0 <= i < fields.len() implies exists|j: int|
        0 <= j < wanted.len() && (#[trigger] wanted[j]).path == (#[trigger] fields[i]).path by {
        let k = choose|k: int| 0 <= k < list.len() && (#[trigger] list[k]).path == fields[i].path;
        assert(names[k] == fields[i].path);
        assert(names.contains(fields[i].path));
        let j = choose|j: int|
            0 <= j < paths_of(wanted).len() && paths_of(wanted)[j] == fields[i].path;
        assert(wanted[j].path == fields[i].path);
    }
}

proof fn lemma_field_paths(root: Members, wanted: Seq<WantedView>)
    ensures
        forall|i: int|
            0 <= i < fields_to(root, wanted).len() ==> exists|j: int|
                0 <= j < wanted.len() && (#[trigger] wanted[j]).path == (
                #[trigger] fields_to(root, wanted)[i]).path,
    decreases wanted.len(),
{
    if wanted.len() > 0 {
        let init = wanted.drop_last();
        lemma_field_paths(root, init);
        let fields = fields_to(root, wanted);
        assert forall|i: int| 0 <= i < fields.len() implies exists|j: int|
            0 <= j < wanted.len() && (#[trigger] wanted[j]).path == (#[trigger] fields[i]).path by {
            if i < fields_to(root, init).len() {
                assert(fields[i] == fields_to(root, init)[i]);
                let j = choose|j: int|
                    0 <= j < init.len() && (#[trigger] init[j]).path == fields_to(
                        root,
                        init,
                    )[i].path;
                assert(wanted[j] == init[j]);
            } else {
                assert(wanted[wanted.len() - 1].path == fields[i].path);
            }
        }
    }
}

} // verus!
