//! What a change of ClaudeCode settings does, path by path and variable by variable.

use vstd::prelude::*;
use crate::agents::claude_config::{
    changed_root, field_is_applied, fields_are_applied, given_at, helper_command, is_applied,
    is_auth_name, is_managed_variable, is_settings, native_root, place_of, preview_fields,
    rebased_root, rebased_wanted, render_claude_helper_command, seen_at, semantic_value,
    sets_helper, shell_quoted, wanted_at, wanted_change, with_fields, FieldChangeView, Members,
    Place, WantedView,
};
use crate::agents::claude_laws::{
    are_apart, are_managed, entry, has_helper_field, has_variable_field, lemma_agree_at,
    lemma_auth_seen, lemma_change_touches, lemma_fields_stand, lemma_given_at, lemma_preview_from,
    lemma_preview_has, lemma_rebased_wanted, lemma_untouched_place, lemma_wanted_at,
    touches_variable, variable,
};
use crate::agents::filesystem::AgentFilesystemScanError;
use crate::json::{canonical_digest_of, parsed_json, Json, JsonView};
use crate::paths::is_absolute;
use crate::text::after_prefix;

verus! {

/// Whether a variable is one that a change may set.
pub open spec fn may_be_set(name: Seq<char>) -> bool {
    name == "ANTHROPIC_BASE_URL"@ || name == "ANTHROPIC_MODEL"@ || name == "ANTHROPIC_DEFAULT_OPUS_MODEL"@ || name == "ANTHROPIC_DEFAULT_SONNET_MODEL"@ || name == "ANTHROPIC_DEFAULT_HAIKU_MODEL"@ || name == "ANTHROPIC_SMALL_FAST_MODEL"@ || name == "CLAUDE_CODE_AUTO_COMPACT_WINDOW"@ || name == "CLAUDE_CODE_MAX_CONTEXT_TOKENS"@
}

/// Whether a variable authenticates, or routes elsewhere.
pub open spec fn is_credential(name: Seq<char>) -> bool {
    name == "ANTHROPIC_AUTH_TOKEN"@ || name == "ANTHROPIC_API_KEY"@ || name == "ANTHROPIC_CUSTOM_HEADERS"@ || name == "CLAUDE_CODE_USE_BEDROCK"@ || name == "CLAUDE_CODE_USE_FOUNDRY"@ || name == "CLAUDE_CODE_USE_VERTEX"@
}

/// What the environment of some settings says of a variable.
pub open spec fn said_of(root: Members, name: Seq<char>) -> Option<JsonView> {
    if root.contains_key("env"@) && root["env"@] is Object && root["env"@]->Object_0.contains_key(
        name,
    ) {
        Some(root["env"@]->Object_0[name])
    } else {
        None
    }
}

/// Which paths a change may name, and what they stand for: the helper, the credentials as one, and
/// eight variables; no other.
pub proof fn changes_name_managed_paths(path: Seq<char>, name: Seq<char>)
    ensures
        place_of("apiKeyHelper"@) == Some(Place::Helper),
        place_of("hiroute.auth_environment"@) == Some(Place::Auth),
        place_of("env."@ + name) == (if may_be_set(name) {
            Some(Place::Variable(name))
        } else {
            None
        }),
        place_of(path) is Some ==> path == "apiKeyHelper"@ || path == "hiroute.auth_environment"@
            || exists|own: Seq<char>| path == #[trigger] ("env."@ + own) && may_be_set(own),
{
    reveal_strlit("env.");
    reveal_strlit("apiKeyHelper");
    reveal_strlit("hiroute.auth_environment");
    assert("env."@[0] == 'e' && "apiKeyHelper"@[0] == 'a' && "hiroute.auth_environment"@[0] == 'h');
    let full = "env."@ + name;
    assert(full[0] == 'e');
    assert(full.take(4) =~= "env."@);
    assert(full.skip(4) =~= name);
    if place_of(path) is Some && path != "apiKeyHelper"@ && path != "hiroute.auth_environment"@ {
        let own = path.skip(4);
        assert(path =~= "env."@ + own);
        assert(may_be_set(own));
    }
}

proof fn lemma_said(root: Members, name: Seq<char>)
    ensures
        variable(root, name) == said_of(root, name),
        is_auth_name(name) == is_credential(name),
        is_managed_variable(name) == may_be_set(name),
{
}

/// After a change each field that it names is as it says: a variable has the value that is given
/// or is gone, no credential is left where they are taken out, and the helper is gone or is the
/// command that is given.
pub proof fn changes_do_what_they_say(
    root: Members,
    fields: Seq<FieldChangeView>,
    verb: Seq<char>,
    i: int,
    name: Seq<char>,
)
    requires
        is_settings(root),
        are_managed(fields),
        are_apart(fields),
        changed_root(root, fields, verb) is Ok,
        0 <= i < fields.len(),
    ensures
        ({
            let after = changed_root(root, fields, verb)->Ok_0;
            let field = fields[i];
            &&& field.path == "env."@ + name ==> said_of(after, name) == field.after
            &&& field.path == "hiroute.auth_environment"@ && is_credential(name) ==> said_of(
                after,
                name,
            ) is None && field.after is None
            &&& field.path == "apiKeyHelper"@ ==> match field.after {
                None => !after.contains_key("apiKeyHelper"@),
                Some(command) => after.contains_key("apiKeyHelper"@) && is_command(
                    command,
                    verb,
                    after["apiKeyHelper"@],
                ),
            }
        }),
{
    changes_name_managed_paths(fields[i].path, name);
    let after = changed_root(root, fields, verb)->Ok_0;
    lemma_fields_stand(root, fields, verb, i);
    lemma_said(after, name);
    lemma_auth_seen(after);
    if fields[i].path == "apiKeyHelper"@ {
        if let Some(command) = fields[i].after {
            lemma_command(command, verb);
        }
    }
    if fields[i].path == "hiroute.auth_environment"@ && is_credential(name) {
        assert(semantic_value(after, Place::Auth) is None);
        if said_of(after, name) is Some {
            assert(variable(after, name) is Some);
        }
    }
}

/// Whether a command of a change is an absolute executable with the verb of the helper and the name
/// of a connection, and stands in the settings as those three words, each quoted for the shell.
pub open spec fn is_command(command: JsonView, verb: Seq<char>, stands: JsonView) -> bool {
    &&& command is Object
    &&& command->Object_0.contains_key("executable"@) && command->Object_0["executable"@] is Str
    &&& command->Object_0.contains_key("argv"@) && command->Object_0["argv"@] is Array
    &&& {
        let executable = command->Object_0["executable"@]->Str_0;
        let argv = command->Object_0["argv"@]->Array_0;
        &&& is_absolute(executable)
        &&& argv.len() == 2 && argv[0] == JsonView::Str(verb) && argv[1] is Str
        &&& after_prefix(argv[1]->Str_0, "agent-connection/"@) is Some
        &&& stands == JsonView::Str(
            shell_quoted(executable) + " "@ + shell_quoted(verb) + " "@ + shell_quoted(
                argv[1]->Str_0,
            ),
        )
    }
}

proof fn lemma_command(command: JsonView, verb: Seq<char>)
    ensures
        helper_command(command, verb) matches Some(text) ==> is_command(
            command,
            verb,
            JsonView::Str(text),
        ),
{
    if helper_command(command, verb) is Some {
        let members = command->Object_0;
        assert(set!["executable"@, "argv"@].contains("executable"@));
        assert(set!["executable"@, "argv"@].contains("argv"@));
        assert(members.dom().contains("executable"@) && members.dom().contains("argv"@));
    }
}

/// A helper command is made of exactly an executable and its two arguments, and of nothing else.
pub proof fn helper_commands_are_three_words(
    command: &Json,
    verb: &str,
    r: Option<String>,
)
    requires
        call_ensures(render_claude_helper_command, (command, verb), r),
    ensures
        r matches Some(text) ==> is_command(command@, verb@, JsonView::Str(text@))
            && command@->Object_0.dom() == set!["executable"@, "argv"@],
        r is None ==> !(exists|stands: JsonView| #[trigger]
            is_command(command@, verb@, stands) && command@->Object_0.dom() == set![
                "executable"@,
                "argv"@,
            ]),
{
    lemma_command(command@, verb@);
}

/// A change leaves everything else alone: every setting but the helper and the environment, a
/// helper that it does not name, and every variable that it does not name.
pub proof fn changes_leave_the_rest(
    root: Members,
    fields: Seq<FieldChangeView>,
    verb: Seq<char>,
    name: Seq<char>,
)
    requires
        is_settings(root),
        are_managed(fields),
        changed_root(root, fields, verb) is Ok,
    ensures
        ({
            let after = changed_root(root, fields, verb)->Ok_0;
            &&& name != "apiKeyHelper"@ && name != "env"@ ==> entry(after, name) == entry(root, name)
            &&& (forall|i: int| 0 <= i < fields.len() ==> (#[trigger] fields[i]).path
                != "apiKeyHelper"@) ==> entry(after, "apiKeyHelper"@) == entry(
                root,
                "apiKeyHelper"@,
            )
            &&& (forall|i: int|
                0 <= i < fields.len() ==> (#[trigger] fields[i]).path != "env."@ + name && (
                is_credential(name) ==> fields[i].path != "hiroute.auth_environment"@))
                ==> said_of(after, name) == said_of(root, name)
        }),
{
    let after = changed_root(root, fields, verb)->Ok_0;
    lemma_change_touches(root, fields, verb);
    lemma_said(root, name);
    lemma_said(after, name);
    changes_name_managed_paths("env."@ + name, name);
    if has_helper_field(fields) {
        let i = choose|i: int|
            0 <= i < fields.len() && place_of((#[trigger] fields[i]).path) == Some(Place::Helper);
        assert(fields[i].path == "apiKeyHelper"@);
    }
    if has_variable_field(fields, name) {
        let i = choose|i: int|
            0 <= i < fields.len() && touches_variable(
                place_of((#[trigger] fields[i]).path)->0,
                name,
            );
        assert(place_of(fields[i].path) is Some);
        reveal_strlit("env.");
        if let Some(Place::Variable(own)) = place_of(fields[i].path) {
            assert(fields[i].path =~= "env."@ + own);
        } else {
            assert(fields[i].path == "hiroute.auth_environment"@);
        }
    }
}

/// What a change sees: a variable as it stands; of the helper and of the credentials only whether
/// they are there, in the same words whatever they hold.
pub proof fn secrets_are_seen_only_as_present(root: Members, other: Members, name: Seq<char>)
    ensures
        may_be_set(name) ==> seen_at(root, "env."@ + name) == said_of(root, name),
        seen_at(root, "apiKeyHelper"@) is Some <==> root.contains_key("apiKeyHelper"@),
        seen_at(root, "hiroute.auth_environment"@) is Some <==> exists|own: Seq<char>|
            is_credential(own) && #[trigger] said_of(root, own) is Some,
        seen_at(root, "apiKeyHelper"@) is Some && seen_at(other, "apiKeyHelper"@) is Some
            ==> seen_at(root, "apiKeyHelper"@) == seen_at(other, "apiKeyHelper"@),
        seen_at(root, "hiroute.auth_environment"@) is Some && seen_at(
            other,
            "hiroute.auth_environment"@,
        ) is Some ==> seen_at(root, "hiroute.auth_environment"@) == seen_at(
            other,
            "hiroute.auth_environment"@,
        ),
        !may_be_set(name) ==> seen_at(root, "env."@ + name) is None,
{
    changes_name_managed_paths("env."@ + name, name);
    lemma_said(root, name);
    lemma_auth_seen(root);
    let seen = exists|own: Seq<char>| is_credential(own) && #[trigger] said_of(root, own) is Some;
    if exists|own: Seq<char>| is_auth_name(own) && #[trigger] variable(root, own) is Some {
        let own = choose|own: Seq<char>|
            is_auth_name(own) && #[trigger] variable(root, own) is Some;
        lemma_said(root, own);
        assert(is_credential(own) && said_of(root, own) is Some);
    }
    if seen {
        let own = choose|own: Seq<char>| is_credential(own) && #[trigger] said_of(root, own) is Some;
        lemma_said(root, own);
        assert(variable(root, own) is Some);
    }
}

/// A change that saw something else than what is there is refused: nothing that was changed
/// meanwhile is overwritten.
pub proof fn stale_changes_are_refused(
    root: Members,
    fields: Seq<FieldChangeView>,
    verb: Seq<char>,
    i: int,
)
    requires
        is_settings(root),
        are_managed(fields),
        are_apart(fields),
        0 <= i < fields.len(),
        fields[i].before != seen_at(root, fields[i].path) || fields[i].before_digest
            != canonical_digest_of(
            match fields[i].before {
                Some(value) => value,
                None => JsonView::Null,
            },
        ),
    ensures
        changed_root(root, fields, verb) is Err,
        i == 0 && fields.len() == 1 ==> changed_root(root, fields, verb) == Err::<Members, _>(
            AgentFilesystemScanError::SourceChanged,
        ),
{
    lemma_stale(root, fields, verb, i);
    if i == 0 && fields.len() == 1 {
        assert(with_fields(root, fields.drop_last(), verb) == Ok::<_, AgentFilesystemScanError>(
            root,
        ));
        assert(fields.last() == fields[0]);
    }
}

proof fn lemma_stale(root: Members, fields: Seq<FieldChangeView>, verb: Seq<char>, i: int)
    requires
        is_settings(root),
        are_managed(fields),
        are_apart(fields),
        0 <= i < fields.len(),
        fields[i].before != seen_at(root, fields[i].path) || fields[i].before_digest
            != canonical_digest_of(
            match fields[i].before {
                Some(value) => value,
                None => JsonView::Null,
            },
        ),
    ensures
        with_fields(root, fields, verb) is Err,
    decreases fields.len(),
{
    let init = fields.drop_last();
    assert forall|k: int| 0 <= k < init.len() implies init[k] == #[trigger] fields[k] by {}
    if i < init.len() {
        lemma_stale(root, init, verb, i);
    } else if with_fields(root, init, verb) is Ok {
        let path = fields[i].path;
        assert forall|k: int| 0 <= k < init.len() implies (#[trigger] init[k]).path != path by {
            assert(fields[k].path != fields[i].path);
        }
        let before = with_fields(root, init, verb)->Ok_0;
        lemma_untouched_place(root, init, verb, path);
        lemma_agree_at(before, root, place_of(path)->0, None, verb);
        assert(fields.last() == fields[i]);
    }
}

/// Whether a field can be made at all: a variable is given a text or taken out, credentials are
/// only taken out, and a helper is given a command or taken out.
pub open spec fn can_be_made(field: FieldChangeView, verb: Seq<char>) -> bool {
    match field.after {
        None => true,
        Some(value) => if field.path == "apiKeyHelper"@ {
            helper_command(value, verb) is Some
        } else {
            field.path != "hiroute.auth_environment"@ && value is Str
        },
    }
}

/// A change that saw what is there, and whose fields can be made, is made, unless it puts a helper
/// beside a credential of the user's.
pub proof fn fresh_changes_are_made(
    root: Members,
    fields: Seq<FieldChangeView>,
    verb: Seq<char>,
)
    requires
        is_settings(root),
        are_managed(fields),
        are_apart(fields),
        forall|i: int|
            0 <= i < fields.len() ==> can_be_made(#[trigger] fields[i], verb) && fields[i].before
                == seen_at(root, fields[i].path) && fields[i].before_digest == canonical_digest_of(
                match fields[i].before {
                    Some(value) => value,
                    None => JsonView::Null,
                },
            ),
    ensures
        changed_root(root, fields, verb) is Err ==> exists|i: int|
            0 <= i < fields.len() && (#[trigger] fields[i]).path == "apiKeyHelper"@
                && fields[i].after is Some,
        changed_root(root, fields, verb) is Err ==> exists|name: Seq<char>|
            is_credential(name) && #[trigger] said_of(root, name) is Some,
{
    lemma_fresh(root, fields, verb);
    if changed_root(root, fields, verb) is Err {
        let after = with_fields(root, fields, verb)->Ok_0;
        lemma_auth_seen(after);
        let name = choose|name: Seq<char>|
            is_auth_name(name) && #[trigger] variable(after, name) is Some;
        lemma_said(after, name);
        lemma_said(root, name);
        lemma_change_touches(root, fields, verb);
        if has_variable_field(fields, name) {
            let i = choose|i: int|
                0 <= i < fields.len() && touches_variable(
                    place_of((#[trigger] fields[i]).path)->0,
                    name,
                );
            lemma_fields_stand(root, fields, verb, i);
            assert(place_of(fields[i].path) is Some);
            if place_of(fields[i].path) == Some(Place::Auth) {
                assert(semantic_value(after, Place::Auth) is None);
            } else {
                lemma_no_credential(name);
            }
        }
        assert(said_of(root, name) is Some);
    }
}

proof fn lemma_no_credential(name: Seq<char>)
    ensures
        !(is_credential(name) && may_be_set(name)),
{
    reveal_strlit("ANTHROPIC_BASE_URL");
    reveal_strlit("ANTHROPIC_MODEL");
    reveal_strlit("ANTHROPIC_DEFAULT_OPUS_MODEL");
    reveal_strlit("ANTHROPIC_DEFAULT_SONNET_MODEL");
    reveal_strlit("ANTHROPIC_DEFAULT_HAIKU_MODEL");
    reveal_strlit("ANTHROPIC_SMALL_FAST_MODEL");
    reveal_strlit("CLAUDE_CODE_AUTO_COMPACT_WINDOW");
    reveal_strlit("CLAUDE_CODE_MAX_CONTEXT_TOKENS");
    reveal_strlit("ANTHROPIC_AUTH_TOKEN");
    reveal_strlit("ANTHROPIC_API_KEY");
    reveal_strlit("ANTHROPIC_CUSTOM_HEADERS");
    reveal_strlit("CLAUDE_CODE_USE_BEDROCK");
    reveal_strlit("CLAUDE_CODE_USE_FOUNDRY");
    reveal_strlit("CLAUDE_CODE_USE_VERTEX");
    assert("ANTHROPIC_BASE_URL"@.len() == 18);
    assert("ANTHROPIC_MODEL"@.len() == 15);
    assert("ANTHROPIC_DEFAULT_OPUS_MODEL"@.len() == 28);
    assert("ANTHROPIC_DEFAULT_SONNET_MODEL"@.len() == 30);
    assert("ANTHROPIC_DEFAULT_HAIKU_MODEL"@.len() == 29);
    assert("ANTHROPIC_SMALL_FAST_MODEL"@.len() == 26);
    assert("CLAUDE_CODE_AUTO_COMPACT_WINDOW"@.len() == 31);
    assert("CLAUDE_CODE_MAX_CONTEXT_TOKENS"@.len() == 30);
    assert("ANTHROPIC_AUTH_TOKEN"@.len() == 20);
    assert("ANTHROPIC_API_KEY"@.len() == 17);
    assert("ANTHROPIC_CUSTOM_HEADERS"@.len() == 24);
    assert("CLAUDE_CODE_USE_BEDROCK"@.len() == 23);
    assert("CLAUDE_CODE_USE_FOUNDRY"@.len() == 23);
    assert("CLAUDE_CODE_USE_VERTEX"@.len() == 22);
    assert("ANTHROPIC_DEFAULT_SONNET_MODEL"@[0] != "CLAUDE_CODE_MAX_CONTEXT_TOKENS"@[0]);
    assert("CLAUDE_CODE_USE_BEDROCK"@[16] != "CLAUDE_CODE_USE_FOUNDRY"@[16]);
}

proof fn lemma_fresh(root: Members, fields: Seq<FieldChangeView>, verb: Seq<char>)
    requires
        is_settings(root),
        are_managed(fields),
        are_apart(fields),
        forall|i: int|
            0 <= i < fields.len() ==> can_be_made(#[trigger] fields[i], verb) && fields[i].before
                == seen_at(root, fields[i].path) && fields[i].before_digest == canonical_digest_of(
                match fields[i].before {
                    Some(value) => value,
                    None => JsonView::Null,
                },
            ),
    ensures
        with_fields(root, fields, verb) is Ok,
    decreases fields.len(),
{
    if fields.len() > 0 {
        let init = fields.drop_last();
        assert forall|k: int| 0 <= k < init.len() implies init[k] == #[trigger] fields[k] by {}
        lemma_fresh(root, init, verb);
        let last = fields.len() - 1;
        let path = fields[last].path;
        assert(fields.last() == fields[last]);
        assert forall|k: int| 0 <= k < init.len() implies (#[trigger] init[k]).path != path by {
            assert(fields[k].path != fields[last].path);
        }
        let before = with_fields(root, init, verb)->Ok_0;
        lemma_untouched_place(root, init, verb, path);
        lemma_agree_at(before, root, place_of(path)->0, None, verb);
        lemma_change_touches(root, init, verb);
        changes_name_managed_paths(path, path);
        assert(can_be_made(fields[last], verb));
    }
}

/// A change stands exactly where each of its fields is as it says and no credential is beside a
/// helper of its own; one that no longer stands is never undone.
pub proof fn changes_stand_while_their_fields_do(
    root: Members,
    fields: Seq<FieldChangeView>,
    verb: Seq<char>,
    i: int,
    name: Seq<char>,
)
    requires
        are_managed(fields),
        0 <= i < fields.len(),
        is_applied(root, fields, verb) == Ok::<bool, AgentFilesystemScanError>(true),
    ensures
        fields[i].path == "env."@ + name ==> said_of(root, name) == fields[i].after,
        fields[i].path == "hiroute.auth_environment"@ && is_credential(name) ==> said_of(root, name)
            is None,
        fields[i].path == "apiKeyHelper"@ ==> match fields[i].after {
            None => !root.contains_key("apiKeyHelper"@),
            Some(command) => root.contains_key("apiKeyHelper"@) && is_command(
                command,
                verb,
                root["apiKeyHelper"@],
            ) && (is_credential(name) ==> said_of(root, name) is None),
        },
{
    changes_name_managed_paths(fields[i].path, name);
    lemma_each_stands(root, fields, verb, fields.len() as int, i);
    lemma_said(root, name);
    lemma_auth_seen(root);
    if fields[i].path == "apiKeyHelper"@ {
        if let Some(command) = fields[i].after {
            lemma_command(command, verb);
            assert(sets_helper(fields));
        }
    }
    if is_credential(name) && said_of(root, name) is Some {
        assert(variable(root, name) is Some);
    }
}

proof fn lemma_each_stands(
    root: Members,
    fields: Seq<FieldChangeView>,
    verb: Seq<char>,
    n: int,
    i: int,
)
    requires
        0 <= i < n <= fields.len(),
        fields_are_applied(root, fields, n, verb) == Ok::<bool, AgentFilesystemScanError>(true),
    ensures
        field_is_applied(root, place_of(fields[i].path)->0, fields[i].after, verb) == Ok::<
            bool,
            AgentFilesystemScanError,
        >(true),
    decreases n,
{
    if i < n - 1 {
        lemma_each_stands(root, fields, verb, n - 1, i);
    }
}

/// What is read as settings: at most a mebibyte, taken by the strict reader, an object whose model
/// is a text, whose environment is an object, and whose variables that are read are texts.
pub proof fn settings_are_read_as_they_are(bytes: Seq<u8>, strict: bool, name: Seq<char>)
    ensures
        bytes.len() > 1_048_576 ==> native_root(bytes, strict) == Err::<Members, _>(
            AgentFilesystemScanError::ConfigTooLarge,
        ),
        bytes.len() <= 1_048_576 && native_root(bytes, strict) is Err ==> native_root(bytes, strict)
            == Err::<Members, _>(AgentFilesystemScanError::InvalidConfig),
        native_root(bytes, strict) matches Ok(root) ==> {
            &&& strict
            &&& parsed_json(bytes) == Some(JsonView::Object(root))
            &&& root.contains_key("model"@) ==> root["model"@] is Str
            &&& root.contains_key("env"@) ==> root["env"@] is Object
            &&& may_be_set(name) && said_of(root, name) is Some ==> said_of(root, name)->0 is Str
        },
        strict && bytes.len() <= 1_048_576 && (parsed_json(bytes) matches Some(
            JsonView::Object(root),
        ) && (root.contains_key("model"@) ==> root["model"@] is Str) && (root.contains_key("env"@) ==> root["env"@] is Object)
            && (forall|own: Seq<char>|
            may_be_set(own) && #[trigger] said_of(root, own) is Some ==> said_of(root, own)->0
                is Str)) ==> native_root(bytes, strict) is Ok,
{
    if strict && bytes.len() <= 1_048_576 {
        if let Some(JsonView::Object(root)) = parsed_json(bytes) {
            if forall|own: Seq<char>|
                may_be_set(own) && #[trigger] said_of(root, own) is Some ==> said_of(root, own)->0
                    is Str {
                assert(said_of(root, "ANTHROPIC_BASE_URL"@) is Some ==> said_of(root, "ANTHROPIC_BASE_URL"@)->0 is Str);
                assert(said_of(root, "ANTHROPIC_MODEL"@) is Some ==> said_of(root, "ANTHROPIC_MODEL"@)->0 is Str);
                assert(said_of(root, "ANTHROPIC_DEFAULT_OPUS_MODEL"@) is Some ==> said_of(root, "ANTHROPIC_DEFAULT_OPUS_MODEL"@)->0 is Str);
                assert(said_of(root, "ANTHROPIC_DEFAULT_SONNET_MODEL"@) is Some ==> said_of(root, "ANTHROPIC_DEFAULT_SONNET_MODEL"@)->0 is Str);
                assert(said_of(root, "ANTHROPIC_DEFAULT_HAIKU_MODEL"@) is Some ==> said_of(root, "ANTHROPIC_DEFAULT_HAIKU_MODEL"@)->0 is Str);
                assert(said_of(root, "ANTHROPIC_SMALL_FAST_MODEL"@) is Some ==> said_of(root, "ANTHROPIC_SMALL_FAST_MODEL"@)->0 is Str);
                assert(said_of(root, "CLAUDE_CODE_AUTO_COMPACT_WINDOW"@) is Some ==> said_of(root, "CLAUDE_CODE_AUTO_COMPACT_WINDOW"@)->0 is Str);
                assert(said_of(root, "CLAUDE_CODE_MAX_CONTEXT_TOKENS"@) is Some ==> said_of(root, "CLAUDE_CODE_MAX_CONTEXT_TOKENS"@)->0 is Str);
            }
        }
    }
}

/// A preview has a field for a path exactly where what is wanted of it last differs from what is
/// seen, and that field says both.
pub proof fn previews_hold_what_differs(
    root: Members,
    wanted: Seq<WantedView>,
    i: int,
    j: int,
)
    requires
        forall|k: int| 0 <= k < wanted.len() ==> place_of((#[trigger] wanted[k]).path) is Some,
        forall|k: int, l: int|
            0 <= k < l < wanted.len() ==> (#[trigger] wanted[k]).path != (#[trigger] wanted[l]).path,
    ensures
        0 <= j < wanted.len() && seen_at(root, wanted[j].path) != wanted[j].after ==> exists|k: int|
            0 <= k < preview_fields(root, wanted).len() && (#[trigger] preview_fields(
                root,
                wanted,
            )[k]).path == wanted[j].path,
        0 <= i < preview_fields(root, wanted).len() ==> {
            let field = preview_fields(root, wanted)[i];
            &&& field.before == seen_at(root, field.path)
            &&& field.before != field.after
            &&& field.before_digest == canonical_digest_of(
                match field.before {
                    Some(value) => value,
                    None => JsonView::Null,
                },
            )
            &&& exists|k: int|
                0 <= k < wanted.len() && (#[trigger] wanted[k]).path == field.path
                    && wanted[k].after == field.after
        },
{
    if 0 <= j < wanted.len() && seen_at(root, wanted[j].path) != wanted[j].after {
        let k = lemma_preview_has(root, wanted, j);
        assert(preview_fields(root, wanted)[k].path == wanted[j].path);
    }
    if 0 <= i < preview_fields(root, wanted).len() {
        let k = lemma_preview_from(root, wanted, i);
        assert(wanted[k].path == preview_fields(root, wanted)[i].path);
    }
}

/// What a reconfiguration records of a variable or the helper: the way from what the user had to
/// what the new change wants of it, or else to what the earlier one gave it. A context window that
/// the new change lets go is what the user had; a path that neither names is not recorded.
pub proof fn reconfigurations_record_the_whole_way(
    current: Members,
    base: Members,
    previous: Seq<FieldChangeView>,
    change: Seq<FieldChangeView>,
    verb: Seq<char>,
    path: Seq<char>,
    i: int,
    p: int,
    c: int,
)
    requires
        are_managed(previous) && are_apart(previous),
        are_managed(change) && are_apart(change),
        rebased_root(current, base, previous, change, verb) is Ok,
        0 <= i < rebased_root(current, base, previous, change, verb)->Ok_0.1.len(),
        rebased_root(current, base, previous, change, verb)->Ok_0.1[i].path == path,
    ensures
        ({
            let field = rebased_root(current, base, previous, change, verb)->Ok_0.1[i];
            &&& field.before == seen_at(base, path)
            &&& field.after != field.before
            &&& 0 <= c < change.len() && change[c].path == path && (change[c].after is Some || (path
                != "env."@ + "CLAUDE_CODE_AUTO_COMPACT_WINDOW"@ && path != "env."@
                + "CLAUDE_CODE_MAX_CONTEXT_TOKENS"@)) ==> field.after == change[c].after
            &&& 0 <= c < change.len() && change[c].path == path && change[c].after is None ==> path
                != "env."@ + "CLAUDE_CODE_AUTO_COMPACT_WINDOW"@ && path != "env."@
                + "CLAUDE_CODE_MAX_CONTEXT_TOKENS"@
            &&& 0 <= p < previous.len() && previous[p].path == path && (forall|k: int|
                0 <= k < change.len() ==> (#[trigger] change[k]).path != path) ==> field.after
                == previous[p].after
            &&& (exists|k: int| 0 <= k < change.len() && (#[trigger] change[k]).path == path) || (
            exists|k: int| 0 <= k < previous.len() && (#[trigger] previous[k]).path == path)
        }),
{
    let wanted = wanted_change(change, base);
    let aims = rebased_wanted(base, previous, wanted);
    lemma_rebased_wanted(base, previous, wanted);
    let k = lemma_preview_from(base, aims, i);
    assert(aims[k].path == path);
    lemma_wanted_at(wanted, path);
    lemma_given_at(previous, path);
    assert forall|x: int| 0 <= x < wanted.len() implies (#[trigger] wanted[x]).path
        == change[x].path by {}
    reveal_strlit("env.");
    lemma_context_path(path);
    match wanted_at(wanted, path) {
        Some(after) => {
            let x = choose|x: int|
                0 <= x < wanted.len() && (#[trigger] wanted[x]).path == path && wanted[x].after
                    == after;
            assert(change[x].path == path);
            if 0 <= c < change.len() && change[c].path == path && c != x {
                if c < x {
                    assert(change[c].path != change[x].path);
                } else {
                    assert(change[x].path != change[c].path);
                }
            }
        },
        None => {
            assert forall|x: int| 0 <= x < change.len() implies (#[trigger] change[x]).path
                != path by {
                assert(wanted[x].path == change[x].path);
            }
            match given_at(previous, path) {
                Some(after) => {
                    let x = choose|x: int|
                        0 <= x < previous.len() && (#[trigger] previous[x]).path == path
                            && previous[x].after == after;
                    if 0 <= p < previous.len() && previous[p].path == path && p != x {
                        if p < x {
                            assert(previous[p].path != previous[x].path);
                        } else {
                            assert(previous[x].path != previous[p].path);
                        }
                    }
                },
                None => {},
            }
        },
    }
}

proof fn lemma_context_path(path: Seq<char>)
    ensures
        crate::agents::claude_config::is_context_path(path) <==> path == "env."@
            + "CLAUDE_CODE_AUTO_COMPACT_WINDOW"@ || path == "env."@
            + "CLAUDE_CODE_MAX_CONTEXT_TOKENS"@,
{
    reveal_strlit("env.");
    let a = "CLAUDE_CODE_AUTO_COMPACT_WINDOW"@;
    let b = "CLAUDE_CODE_MAX_CONTEXT_TOKENS"@;
    assert(("env."@ + a).take(4) =~= "env."@ && ("env."@ + a).skip(4) =~= a);
    assert(("env."@ + b).take(4) =~= "env."@ && ("env."@ + b).skip(4) =~= b);
    if crate::agents::claude_config::is_context_path(path) {
        assert(path =~= "env."@ + path.skip(4));
    }
}

/// A change is made only where each of its fields can be: a variable is never given anything but a
/// text, credentials are never given at all, and a helper is given a command or nothing.
pub proof fn impossible_fields_are_refused(
    root: Members,
    fields: Seq<FieldChangeView>,
    verb: Seq<char>,
    i: int,
)
    requires
        are_managed(fields),
        0 <= i < fields.len(),
        !can_be_made(fields[i], verb),
    ensures
        changed_root(root, fields, verb) is Err,
{
    lemma_impossible(root, fields, verb, i);
}

proof fn lemma_impossible(root: Members, fields: Seq<FieldChangeView>, verb: Seq<char>, i: int)
    requires
        are_managed(fields),
        0 <= i < fields.len(),
        !can_be_made(fields[i], verb),
    ensures
        with_fields(root, fields, verb) is Err,
    decreases fields.len(),
{
    let init = fields.drop_last();
    assert forall|k: int| 0 <= k < init.len() implies init[k] == #[trigger] fields[k] by {}
    if i < init.len() {
        lemma_impossible(root, init, verb, i);
    } else {
        assert(fields.last() == fields[i]);
        changes_name_managed_paths(fields[i].path, fields[i].path);
        assert(place_of(fields[i].path) is Some);
    }
}

} // verus!
