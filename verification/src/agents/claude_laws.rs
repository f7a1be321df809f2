//! What holds of a change of ClaudeCode settings and its restoration together.

use vstd::prelude::*;
use crate::agents::claude_config::{
    bounded_root, changed_bytes, changed_root, changes_view, configured_marker, env_of,
    field_is_applied, field_to, fields_are_applied, fields_to, given_at, has_auth, helper_command, is_applied,
    is_auth_name, is_context_path, is_managed_variable, is_settings, is_text_member, managed_paths, native_root,
    ordered_wanted, paths_of, place_of, preview_fields, rebased_root, rebased_wanted, rendered_root, restored_bytes, restored_root, seen_at, semantic_value, sets_helper,
    wanted_at, wanted_change, wanted_of, with_auth_of, with_env, with_field, with_fields,
    with_place_of, with_places_of, with_variable, with_variable_of, without_auth,
    without_empty_env, without_variable, AgentConfigChangeV1, FieldChangeView, Members, Place,
    WantedView,
};
use crate::agents::filesystem::AgentFilesystemScanError;
use crate::json::{
    alike, is_whole, lemma_alike_objects, lemma_object_parts, nested_within, JsonView,
};
use crate::text::{
    after_prefix, in_order, lemma_precedes_itself, ordered_lists_hold_the_same, precedes,
};

verus! {

/// What a settings file has at a name.
pub open spec fn entry(root: Members, name: Seq<char>) -> Option<JsonView> {
    if root.contains_key(name) {
        Some(root[name])
    } else {
        None
    }
}

/// What the environment of a settings file has at a name.
pub open spec fn variable(root: Members, name: Seq<char>) -> Option<JsonView> {
    match env_of(root) {
        Some(env) => entry(env, name),
        None => None,
    }
}

/// Whether a place is one of those that a field touches.
pub open spec fn touches_variable(place: Place, name: Seq<char>) -> bool {
    match place {
        Place::Helper => false,
        Place::Auth => is_auth_name(name),
        Place::Variable(other) => name == other,
    }
}

pub open spec fn has_helper_field(fields: Seq<FieldChangeView>) -> bool {
    exists|i: int| 0 <= i < fields.len() && place_of((#[trigger] fields[i]).path) == Some(Place::Helper)
}

pub open spec fn has_variable_field(fields: Seq<FieldChangeView>, name: Seq<char>) -> bool {
    exists|i: int|
        0 <= i < fields.len() && touches_variable(place_of((#[trigger] fields[i]).path)->0, name)
}

pub open spec fn are_managed(fields: Seq<FieldChangeView>) -> bool {
    forall|i: int| 0 <= i < fields.len() ==> place_of((#[trigger] fields[i]).path) is Some
}

/// Whether the environment of a settings file, if there is one, is an object.
pub open spec fn env_is_object(root: Members) -> bool {
    root.contains_key("env"@) ==> root["env"@] is Object
}

/// Whether two settings files agree but for the helper and the environment.
pub open spec fn agree_elsewhere(a: Members, b: Members) -> bool {
    forall|name: Seq<char>|
        name != "apiKeyHelper"@ && name != "env"@ ==> #[trigger] entry(a, name) == entry(b, name)
}

proof fn lemma_names()
    ensures
        "apiKeyHelper"@ != "env"@,
{
    reveal_strlit("apiKeyHelper");
    reveal_strlit("env");
    assert("apiKeyHelper"@.len() == 12);
    assert("env"@.len() == 3);
}

proof fn lemma_with_variable(root: Members, name: Seq<char>, value: JsonView)
    requires
        env_is_object(root),
    ensures
        with_variable(root, name, value) is Some,
        ({
            let after = with_variable(root, name, value)->0;
            &&& env_is_object(after)
            &&& after.contains_key("env"@)
            &&& forall|other: Seq<char>| #[trigger]
                variable(after, other) == (if other == name {
                    Some(value)
                } else {
                    variable(root, other)
                })
            &&& forall|other: Seq<char>|
                other != "env"@ ==> #[trigger] entry(after, other) == entry(root, other)
        }),
{
}

proof fn lemma_without_variable(root: Members, name: Seq<char>)
    requires
        env_is_object(root),
    ensures
        ({
            let after = without_variable(root, name);
            &&& env_is_object(after)
            &&& after.contains_key("env"@) == root.contains_key("env"@)
            &&& forall|other: Seq<char>| #[trigger]
                variable(after, other) == (if other == name {
                    None
                } else {
                    variable(root, other)
                })
            &&& forall|other: Seq<char>|
                other != "env"@ ==> #[trigger] entry(after, other) == entry(root, other)
        }),
{
}

proof fn lemma_without_auth(root: Members, env: Members)
    requires
        env_is_object(root),
        env_of(root) == Some(env),
    ensures
        ({
            let after = with_env(root, without_auth(env));
            &&& env_is_object(after)
            &&& after.contains_key("env"@)
            &&& forall|other: Seq<char>| #[trigger]
                variable(after, other) == (if is_auth_name(other) {
                    None
                } else {
                    variable(root, other)
                })
            &&& forall|other: Seq<char>|
                other != "env"@ ==> #[trigger] entry(after, other) == entry(root, other)
        }),
{
}

/// Whether a step from one settings file to another touches a place and nothing else.
spec fn touches_only(before: Members, after: Members, place: Place) -> bool {
    &&& env_is_object(after)
    &&& before.contains_key("env"@) ==> after.contains_key("env"@)
    &&& agree_elsewhere(before, after)
    &&& !(place is Helper) ==> entry(before, "apiKeyHelper"@) == entry(after, "apiKeyHelper"@)
    &&& forall|name: Seq<char>|
        !touches_variable(place, name) ==> #[trigger] variable(after, name) == variable(
            before,
            name,
        )
}

proof fn lemma_field_touches(
    root: Members,
    place: Place,
    after: Option<JsonView>,
    verb: Seq<char>,
)
    requires
        env_is_object(root),
        with_field(root, place, after, verb) is Ok,
    ensures
        touches_only(root, with_field(root, place, after, verb)->Ok_0, place),
{
    lemma_names();
    match place {
        Place::Helper => {},
        Place::Auth => {
            if let Some(env) = env_of(root) {
                lemma_without_auth(root, env);
            }
        },
        Place::Variable(name) => match after {
            None => lemma_without_variable(root, name),
            Some(value) => lemma_with_variable(root, name, value),
        },
    }
}

proof fn lemma_variable_of(root: Members, original: Members, name: Seq<char>)
    requires
        env_is_object(root),
    ensures
        with_variable_of(root, original, name) is Ok,
        ({
            let after = with_variable_of(root, original, name)->Ok_0;
            &&& touches_only(root, after, Place::Variable(name))
            &&& variable(after, name) == variable(original, name)
        }),
{
    lemma_names();
    lemma_without_variable(root, name);
    if let Some(env) = env_of(original) {
        if env.contains_key(name) {
            lemma_with_variable(root, name, env[name]);
        }
    }
}

proof fn lemma_auth_of(root: Members, original: Members)
    requires
        env_is_object(root),
    ensures
        with_auth_of(root, original) is Ok,
        ({
            let after = with_auth_of(root, original)->Ok_0;
            &&& touches_only(root, after, Place::Auth)
            &&& forall|name: Seq<char>|
                is_auth_name(name) ==> #[trigger] variable(after, name) == variable(original, name)
        }),
{
    lemma_variable_of(root, original, "ANTHROPIC_AUTH_TOKEN"@);
    let a = with_variable_of(root, original, "ANTHROPIC_AUTH_TOKEN"@)->Ok_0;
    lemma_variable_of(a, original, "ANTHROPIC_API_KEY"@);
    let b = with_variable_of(a, original, "ANTHROPIC_API_KEY"@)->Ok_0;
    lemma_variable_of(b, original, "ANTHROPIC_CUSTOM_HEADERS"@);
    let c = with_variable_of(b, original, "ANTHROPIC_CUSTOM_HEADERS"@)->Ok_0;
    lemma_variable_of(c, original, "CLAUDE_CODE_USE_BEDROCK"@);
    let d = with_variable_of(c, original, "CLAUDE_CODE_USE_BEDROCK"@)->Ok_0;
    lemma_variable_of(d, original, "CLAUDE_CODE_USE_FOUNDRY"@);
    let e = with_variable_of(d, original, "CLAUDE_CODE_USE_FOUNDRY"@)->Ok_0;
    lemma_variable_of(e, original, "CLAUDE_CODE_USE_VERTEX"@);
    let f = with_variable_of(e, original, "CLAUDE_CODE_USE_VERTEX"@)->Ok_0;
    assert(with_auth_of(root, original) == Ok::<_, AgentFilesystemScanError>(f));
    assert forall|name: Seq<char>| name != "apiKeyHelper"@ && name != "env"@ implies #[trigger] entry(
        root,
        name,
    ) == entry(f, name) by {
        assert(entry(root, name) == entry(a, name));
        assert(entry(a, name) == entry(b, name));
        assert(entry(b, name) == entry(c, name));
        assert(entry(c, name) == entry(d, name));
        assert(entry(d, name) == entry(e, name));
        assert(entry(e, name) == entry(f, name));
    }
    assert forall|name: Seq<char>| !is_auth_name(name) implies #[trigger] variable(f, name)
        == variable(root, name) by {
        assert(variable(a, name) == variable(root, name));
        assert(variable(b, name) == variable(a, name));
        assert(variable(c, name) == variable(b, name));
        assert(variable(d, name) == variable(c, name));
        assert(variable(e, name) == variable(d, name));
    }
    assert forall|name: Seq<char>| is_auth_name(name) implies #[trigger] variable(f, name)
        == variable(original, name) by {
        if name == "CLAUDE_CODE_USE_VERTEX"@ {
        } else {
            assert(variable(f, name) == variable(e, name));
            if name != "CLAUDE_CODE_USE_FOUNDRY"@ {
                assert(variable(e, name) == variable(d, name));
                if name != "CLAUDE_CODE_USE_BEDROCK"@ {
                    assert(variable(d, name) == variable(c, name));
                    if name != "ANTHROPIC_CUSTOM_HEADERS"@ {
                        assert(variable(c, name) == variable(b, name));
                        if name != "ANTHROPIC_API_KEY"@ {
                            assert(variable(b, name) == variable(a, name));
                        }
                    }
                }
            }
        }
    }
}

/// Giving a place back makes it as the original has it and touches nothing else.
proof fn lemma_place_of(root: Members, original: Members, place: Place)
    requires
        env_is_object(root),
    ensures
        with_place_of(root, original, place) is Ok,
        ({
            let after = with_place_of(root, original, place)->Ok_0;
            &&& touches_only(root, after, place)
            &&& place is Helper ==> entry(after, "apiKeyHelper"@) == entry(
                original,
                "apiKeyHelper"@,
            )
            &&& forall|name: Seq<char>|
                touches_variable(place, name) ==> #[trigger] variable(after, name) == variable(
                    original,
                    name,
                )
        }),
{
    lemma_names();
    match place {
        Place::Helper => {},
        Place::Auth => lemma_auth_of(root, original),
        Place::Variable(name) => lemma_variable_of(root, original, name),
    }
}

/// What a change leaves alone.
pub(crate) proof fn lemma_change_touches(root: Members, fields: Seq<FieldChangeView>, verb: Seq<char>)
    requires
        env_is_object(root),
        are_managed(fields),
        with_fields(root, fields, verb) is Ok,
    ensures
        ({
            let after = with_fields(root, fields, verb)->Ok_0;
            &&& env_is_object(after)
            &&& root.contains_key("env"@) ==> after.contains_key("env"@)
            &&& agree_elsewhere(root, after)
            &&& !has_helper_field(fields) ==> entry(root, "apiKeyHelper"@) == entry(
                after,
                "apiKeyHelper"@,
            )
            &&& forall|name: Seq<char>|
                !has_variable_field(fields, name) ==> #[trigger] variable(after, name) == variable(
                    root,
                    name,
                )
        }),
    decreases fields.len(),
{
    if fields.len() > 0 {
        let init = fields.drop_last();
        let last = fields.last();
        let place = place_of(last.path)->0;
        assert(forall|i: int| 0 <= i < init.len() ==> init[i] == fields[i]);
        assert(fields[fields.len() - 1] == last);
        lemma_change_touches(root, init, verb);
        let middle = with_fields(root, init, verb)->Ok_0;
        lemma_field_touches(middle, place, last.after, verb);
        let after = with_fields(root, fields, verb)->Ok_0;
        assert forall|name: Seq<char>|
            name != "apiKeyHelper"@ && name != "env"@ implies #[trigger] entry(root, name) == entry(
            after,
            name,
        ) by {
            assert(entry(root, name) == entry(middle, name));
        }
        if !has_helper_field(fields) {
            assert(!has_helper_field(init)) by {
                if has_helper_field(init) {
                    let i = choose|i: int|
                        0 <= i < init.len() && place_of((#[trigger] init[i]).path) == Some(
                            Place::Helper,
                        );
                    assert(place_of(fields[i].path) == Some(Place::Helper));
                }
            }
            assert(!(place is Helper));
        }
        assert forall|name: Seq<char>|
            !has_variable_field(fields, name) implies #[trigger] variable(after, name) == variable(
            root,
            name,
        ) by {
            assert(!has_variable_field(init, name)) by {
                if has_variable_field(init, name) {
                    let i = choose|i: int|
                        0 <= i < init.len() && touches_variable(
                            place_of((#[trigger] init[i]).path)->0,
                            name,
                        );
                    assert(touches_variable(place_of(fields[i].path)->0, name));
                }
            }
            assert(!touches_variable(place, name));
            assert(variable(middle, name) == variable(root, name));
        }
    }
}

/// What giving fields back leaves alone, and what it makes as the original has it.
proof fn lemma_restoration_touches(
    root: Members,
    original: Members,
    fields: Seq<FieldChangeView>,
)
    requires
        env_is_object(root),
        are_managed(fields),
    ensures
        with_places_of(root, original, fields) is Ok,
        ({
            let after = with_places_of(root, original, fields)->Ok_0;
            &&& env_is_object(after)
            &&& root.contains_key("env"@) ==> after.contains_key("env"@)
            &&& agree_elsewhere(root, after)
            &&& entry(after, "apiKeyHelper"@) == (if has_helper_field(fields) {
                entry(original, "apiKeyHelper"@)
            } else {
                entry(root, "apiKeyHelper"@)
            })
            &&& forall|name: Seq<char>| #[trigger]
                variable(after, name) == (if has_variable_field(fields, name) {
                    variable(original, name)
                } else {
                    variable(root, name)
                })
        }),
    decreases fields.len(),
{
    if fields.len() > 0 {
        let init = fields.drop_last();
        let last = fields.last();
        let place = place_of(last.path)->0;
        assert(forall|i: int| 0 <= i < init.len() ==> init[i] == fields[i]);
        assert(fields[fields.len() - 1] == last);
        lemma_restoration_touches(root, original, init);
        let middle = with_places_of(root, original, init)->Ok_0;
        lemma_place_of(middle, original, place);
        let after = with_places_of(root, original, fields)->Ok_0;
        assert forall|name: Seq<char>|
            name != "apiKeyHelper"@ && name != "env"@ implies #[trigger] entry(root, name) == entry(
            after,
            name,
        ) by {
            assert(entry(root, name) == entry(middle, name));
        }
        assert(has_helper_field(fields) == (has_helper_field(init) || place is Helper)) by {
            if has_helper_field(init) {
                let i = choose|i: int|
                    0 <= i < init.len() && place_of((#[trigger] init[i]).path) == Some(
                        Place::Helper,
                    );
                assert(place_of(fields[i].path) == Some(Place::Helper));
            }
            if has_helper_field(fields) {
                let i = choose|i: int|
                    0 <= i < fields.len() && place_of((#[trigger] fields[i]).path) == Some(
                        Place::Helper,
                    );
                if i < init.len() {
                    assert(place_of(init[i].path) == Some(Place::Helper));
                }
            }
        }
        assert forall|name: Seq<char>| #[trigger]
            variable(after, name) == (if has_variable_field(fields, name) {
                variable(original, name)
            } else {
                variable(root, name)
            }) by {
            if has_variable_field(init, name) {
                let i = choose|i: int|
                    0 <= i < init.len() && touches_variable(
                        place_of((#[trigger] init[i]).path)->0,
                        name,
                    );
                assert(touches_variable(place_of(fields[i].path)->0, name));
            }
            if has_variable_field(fields, name) {
                let i = choose|i: int|
                    0 <= i < fields.len() && touches_variable(
                        place_of((#[trigger] fields[i]).path)->0,
                        name,
                    );
                if i < init.len() {
                    assert(touches_variable(place_of(init[i].path)->0, name));
                }
            }
            assert(variable(middle, name) == (if has_variable_field(init, name) {
                variable(original, name)
            } else {
                variable(root, name)
            }));
        }
    }
}

/// Giving fields back to a settings file that differs from the original in these alone leaves the
/// original.
proof fn lemma_restores(root: Members, original: Members, fields: Seq<FieldChangeView>)
    requires
        env_is_object(root),
        env_is_object(original),
        are_managed(fields),
        agree_elsewhere(original, root),
        original.contains_key("env"@) ==> root.contains_key("env"@),
        !has_helper_field(fields) ==> entry(original, "apiKeyHelper"@) == entry(
            root,
            "apiKeyHelper"@,
        ),
        forall|name: Seq<char>|
            !has_variable_field(fields, name) ==> #[trigger] variable(root, name) == variable(
                original,
                name,
            ),
    ensures
        restored_root(root, original, fields) == Ok::<_, AgentFilesystemScanError>(original),
{
    lemma_restoration_touches(root, original, fields);
    let given = with_places_of(root, original, fields)->Ok_0;
    let after = without_empty_env(given, original);
    assert forall|name: Seq<char>| #[trigger] variable(given, name) == variable(
        original,
        name,
    ) by {
        if !has_variable_field(fields, name) {
            assert(variable(root, name) == variable(original, name));
        }
    }
    assert forall|name: Seq<char>| name != "env"@ implies #[trigger] entry(given, name) == entry(
        original,
        name,
    ) by {
        if name != "apiKeyHelper"@ {
            assert(entry(original, name) == entry(root, name));
            assert(entry(root, name) == entry(given, name));
        }
    }
    if original.contains_key("env"@) {
        let env = env_of(given)->0;
        let first = env_of(original)->0;
        assert forall|name: Seq<char>| #[trigger] env.contains_key(name) == first.contains_key(
            name,
        ) by {
            assert(variable(given, name) == variable(original, name));
        }
        assert forall|name: Seq<char>| env.contains_key(name) implies #[trigger] env[name]
            == first[name] by {
            assert(variable(given, name) == variable(original, name));
        }
        assert(env =~= first);
    } else if given.contains_key("env"@) {
        let env = env_of(given)->0;
        assert forall|name: Seq<char>| !(#[trigger] env.contains_key(name)) by {
            assert(variable(given, name) == variable(original, name));
        }
        assert(env =~= Map::<Seq<char>, JsonView>::empty());
    }
    assert forall|name: Seq<char>| #[trigger] after.contains_key(name) == original.contains_key(
        name,
    ) by {
        if name != "env"@ {
            assert(entry(given, name) == entry(original, name));
        }
    }
    assert forall|name: Seq<char>| after.contains_key(name) implies #[trigger] after[name]
        == original[name] by {
        if name != "env"@ {
            assert(entry(given, name) == entry(original, name));
        }
    }
    assert(after =~= original);
}

/// Restoring a changed settings file that nobody has changed since leaves the original one.
pub proof fn restoration_undoes_a_change(
    original: Members,
    fields: Seq<FieldChangeView>,
    verb: Seq<char>,
)
    requires
        is_settings(original),
        are_managed(fields),
        changed_root(original, fields, verb) is Ok,
    ensures
        restored_root(changed_root(original, fields, verb)->Ok_0, original, fields) == Ok::<
            _,
            AgentFilesystemScanError,
        >(original),
{
    lemma_change_touches(original, fields, verb);
    lemma_restores(changed_root(original, fields, verb)->Ok_0, original, fields);
}

/// A restoration leaves every setting that the change does not own as it stands, and makes those
/// that it owns as the original has them.
pub proof fn restoration_keeps_other_settings(
    root: Members,
    original: Members,
    fields: Seq<FieldChangeView>,
    name: Seq<char>,
)
    requires
        is_settings(root),
        are_managed(fields),
    ensures
        restored_root(root, original, fields) is Ok,
        ({
            let after = restored_root(root, original, fields)->Ok_0;
            &&& name != "apiKeyHelper"@ && name != "env"@ ==> entry(after, name) == entry(
                root,
                name,
            )
            &&& variable(after, name) == (if has_variable_field(fields, name) {
                variable(original, name)
            } else {
                variable(root, name)
            })
            &&& has_helper_field(fields) ==> entry(after, "apiKeyHelper"@) == entry(
                original,
                "apiKeyHelper"@,
            )
        }),
{
    lemma_names();
    lemma_restoration_touches(root, original, fields);
    let given = with_places_of(root, original, fields)->Ok_0;
    assert(variable(given, name) == (if has_variable_field(fields, name) {
        variable(original, name)
    } else {
        variable(root, name)
    }));
    if name != "apiKeyHelper"@ && name != "env"@ {
        assert(entry(root, name) == entry(given, name));
    }
}

proof fn lemma_managed_is_no_auth(name: Seq<char>)
    requires
        is_managed_variable(name),
    ensures
        !is_auth_name(name),
{
    reveal_strlit("ANTHROPIC_BASE_URL");
    reveal_strlit("ANTHROPIC_MODEL");
    reveal_strlit("ANTHROPIC_DEFAULT_OPUS_MODEL");
    reveal_strlit("ANTHROPIC_DEFAULT_SONNET_MODEL");
    reveal_strlit("ANTHROPIC_DEFAULT_HAIKU_MODEL");
    reveal_strlit("ANTHROPIC_SMALL_FAST_MODEL");
    reveal_strlit("CLAUDE_CODE_AUTO_COMPACT_WINDOW");
    reveal_strlit("CLAUDE_CODE_MAX_CONTEXT_TOKENS");
    reveal_strlit("ANTHROPIC_AUTH_TOKEN");
    reveal_strlit("ANTHROPIC_API_KEY");
    reveal_strlit("ANTHROPIC_CUSTOM_HEADERS");
    reveal_strlit("CLAUDE_CODE_USE_BEDROCK");
    reveal_strlit("CLAUDE_CODE_USE_FOUNDRY");
    reveal_strlit("CLAUDE_CODE_USE_VERTEX");
    assert("ANTHROPIC_AUTH_TOKEN"@.len() == 20);
    assert("ANTHROPIC_API_KEY"@.len() == 17);
    assert("ANTHROPIC_CUSTOM_HEADERS"@.len() == 24);
    assert("CLAUDE_CODE_USE_BEDROCK"@.len() == 23);
    assert("CLAUDE_CODE_USE_FOUNDRY"@.len() == 23);
    assert("CLAUDE_CODE_USE_VERTEX"@.len() == 22);
    assert("ANTHROPIC_BASE_URL"@.len() == 18);
    assert("ANTHROPIC_MODEL"@.len() == 15);
    assert("ANTHROPIC_DEFAULT_OPUS_MODEL"@.len() == 28);
    assert("ANTHROPIC_DEFAULT_SONNET_MODEL"@.len() == 30);
    assert("ANTHROPIC_DEFAULT_HAIKU_MODEL"@.len() == 29);
    assert("ANTHROPIC_SMALL_FAST_MODEL"@.len() == 26);
    assert("CLAUDE_CODE_AUTO_COMPACT_WINDOW"@.len() == 31);
    assert("CLAUDE_CODE_MAX_CONTEXT_TOKENS"@.len() == 30);
}

/// Whether no two fields of a change are the same one.
pub open spec fn are_apart(fields: Seq<FieldChangeView>) -> bool {
    forall|i: int, j: int|
        0 <= i < j < fields.len() ==> (#[trigger] fields[i]).path != (#[trigger] fields[j]).path
}

/// A field that was just set stands.
proof fn lemma_field_stands(
    root: Members,
    place: Place,
    after: Option<JsonView>,
    verb: Seq<char>,
)
    requires
        env_is_object(root),
        with_field(root, place, after, verb) is Ok,
    ensures
        field_is_applied(with_field(root, place, after, verb)->Ok_0, place, after, verb) == Ok::<
            bool,
            AgentFilesystemScanError,
        >(true),
{
    let done = with_field(root, place, after, verb)->Ok_0;
    match place {
        Place::Helper => {},
        Place::Auth => {
            if let Some(env) = env_of(root) {
                let left = without_auth(env);
                assert(env_of(done) == Some(left));
                assert(!has_auth(left)) by {
                    if has_auth(left) {
                        let name = choose|name: Seq<char>|
                            is_auth_name(name) && #[trigger] left.contains_key(name);
                        assert(left.contains_key(name));
                    }
                }
            }
        },
        Place::Variable(name) => match after {
            None => {
                lemma_without_variable(root, name);
                assert(variable(done, name) is None);
            },
            Some(value) => {
                lemma_with_variable(root, name, value);
                assert(variable(done, name) == Some(value));
            },
        },
    }
}

pub(crate) proof fn lemma_auth_seen(root: Members)
    ensures
        (env_of(root) matches Some(env) && has_auth(env)) <==> exists|name: Seq<char>|
            is_auth_name(name) && #[trigger] variable(root, name) is Some,
{
    if let Some(env) = env_of(root) {
        if has_auth(env) {
            let name = choose|name: Seq<char>| is_auth_name(name) && #[trigger] env.contains_key(name);
            assert(variable(root, name) is Some);
        }
        if exists|name: Seq<char>| is_auth_name(name) && #[trigger] variable(root, name) is Some {
            let name = choose|name: Seq<char>|
                is_auth_name(name) && #[trigger] variable(root, name) is Some;
            assert(env.contains_key(name));
        }
    }
}

/// A field that stands still stands after another one was set.
proof fn lemma_field_keeps_standing(
    before: Members,
    done: Members,
    changed: Place,
    place: Place,
    after: Option<JsonView>,
    verb: Seq<char>,
)
    requires
        touches_only(before, done, changed),
        changed != place,
        changed matches Place::Variable(name) ==> is_managed_variable(name),
        place matches Place::Variable(name) ==> is_managed_variable(name),
        field_is_applied(before, place, after, verb) == Ok::<bool, AgentFilesystemScanError>(true),
    ensures
        field_is_applied(done, place, after, verb) == Ok::<bool, AgentFilesystemScanError>(true),
{
    match place {
        Place::Helper => {
            assert(entry(before, "apiKeyHelper"@) == entry(done, "apiKeyHelper"@));
        },
        Place::Auth => {
            lemma_auth_seen(before);
            lemma_auth_seen(done);
            if exists|name: Seq<char>| is_auth_name(name) && #[trigger] variable(done, name)
                is Some {
                let name = choose|name: Seq<char>|
                    is_auth_name(name) && #[trigger] variable(done, name) is Some;
                if let Place::Variable(other) = changed {
                    lemma_managed_is_no_auth(other);
                }
                assert(variable(before, name) is Some);
            }
        },
        Place::Variable(name) => {
            lemma_managed_is_no_auth(name);
            assert(!touches_variable(changed, name));
            assert(variable(done, name) == variable(before, name));
        },
    }
}

proof fn lemma_places_differ(a: Seq<char>, b: Seq<char>)
    requires
        a != b,
        place_of(a) is Some,
        place_of(b) is Some,
    ensures
        place_of(a) != place_of(b),
{
    if place_of(a) == place_of(b) {
        if let Some(Place::Variable(name)) = place_of(a) {
            assert(a =~= "env."@ + name);
            assert(b =~= "env."@ + name);
        }
    }
}

pub(crate) proof fn lemma_fields_stand(
    original: Members,
    fields: Seq<FieldChangeView>,
    verb: Seq<char>,
    i: int,
)
    requires
        env_is_object(original),
        are_managed(fields),
        are_apart(fields),
        with_fields(original, fields, verb) is Ok,
        0 <= i < fields.len(),
    ensures
        field_is_applied(
            with_fields(original, fields, verb)->Ok_0,
            place_of(fields[i].path)->0,
            fields[i].after,
            verb,
        ) == Ok::<bool, AgentFilesystemScanError>(true),
    decreases fields.len(),
{
    let init = fields.drop_last();
    let last = fields.last();
    let place = place_of(last.path)->0;
    assert(forall|j: int| 0 <= j < init.len() ==> init[j] == fields[j]);
    assert(fields[fields.len() - 1] == last);
    lemma_change_touches(original, init, verb);
    let middle = with_fields(original, init, verb)->Ok_0;
    if i == fields.len() - 1 {
        lemma_field_stands(middle, place, last.after, verb);
    } else {
        assert(are_apart(init));
        lemma_fields_stand(original, init, verb, i);
        lemma_field_touches(middle, place, last.after, verb);
        assert(fields[i].path != fields[fields.len() - 1].path);
        lemma_places_differ(last.path, fields[i].path);
        lemma_field_keeps_standing(
            middle,
            with_fields(original, fields, verb)->Ok_0,
            place,
            place_of(fields[i].path)->0,
            fields[i].after,
            verb,
        );
    }
}

proof fn lemma_all_stand(root: Members, fields: Seq<FieldChangeView>, verb: Seq<char>, n: int)
    requires
        0 <= n <= fields.len(),
        forall|i: int|
            0 <= i < fields.len() ==> field_is_applied(
                root,
                place_of((#[trigger] fields[i]).path)->0,
                fields[i].after,
                verb,
            ) == Ok::<bool, AgentFilesystemScanError>(true),
    ensures
        fields_are_applied(root, fields, n, verb) == Ok::<bool, AgentFilesystemScanError>(true),
    decreases n,
{
    if n > 0 {
        lemma_all_stand(root, fields, verb, n - 1);
        assert(field_is_applied(
            root,
            place_of(fields[n - 1].path)->0,
            fields[n - 1].after,
            verb,
        ) == Ok::<bool, AgentFilesystemScanError>(true));
    }
}

/// A change that was made stands.
pub proof fn made_changes_stand(
    original: Members,
    fields: Seq<FieldChangeView>,
    verb: Seq<char>,
)
    requires
        is_settings(original),
        are_managed(fields),
        are_apart(fields),
        changed_root(original, fields, verb) is Ok,
    ensures
        is_applied(changed_root(original, fields, verb)->Ok_0, fields, verb) == Ok::<
            bool,
            AgentFilesystemScanError,
        >(true),
{
    let changed = changed_root(original, fields, verb)->Ok_0;
    assert forall|i: int| 0 <= i < fields.len() implies field_is_applied(
        changed,
        place_of((#[trigger] fields[i]).path)->0,
        fields[i].after,
        verb,
    ) == Ok::<bool, AgentFilesystemScanError>(true) by {
        lemma_fields_stand(original, fields, verb, i);
    }
    lemma_all_stand(changed, fields, verb, fields.len() as int);
}

/// A settings file with a managed helper holds no credential of the user's beside it.
pub proof fn helpers_stand_alone(
    original: Members,
    fields: Seq<FieldChangeView>,
    verb: Seq<char>,
    name: Seq<char>,
)
    requires
        changed_root(original, fields, verb) is Ok,
        sets_helper(fields),
        is_auth_name(name),
    ensures
        variable(changed_root(original, fields, verb)->Ok_0, name) is None,
{
    let changed = changed_root(original, fields, verb)->Ok_0;
    lemma_auth_seen(changed);
    if variable(changed, name) is Some {
        assert(exists|n: Seq<char>| is_auth_name(n) && #[trigger] variable(changed, n) is Some);
    }
}

/// Restoring the bytes that a change was rendered to, where they are read as they were written,
/// finds the change standing and writes the original settings.
pub proof fn restoration_undoes_a_rendered_change(
    original: Seq<u8>,
    change: AgentConfigChangeV1,
    verb: Seq<char>,
)
    requires
        changed_bytes(original, true, change, verb) is Ok,
        are_apart(changes_view(change.fields@)),
        native_root(changed_bytes(original, true, change, verb)->Ok_0, true) == Ok::<
            _,
            AgentFilesystemScanError,
        >(
            changed_root(
                native_root(original, true)->Ok_0,
                changes_view(change.fields@),
                verb,
            )->Ok_0,
        ),
    ensures
        restored_bytes(
            changed_bytes(original, true, change, verb)->Ok_0,
            true,
            original,
            true,
            change,
            verb,
        ) == bounded_root(native_root(original, true)->Ok_0),
{
    let fields = changes_view(change.fields@);
    let root = native_root(original, true)->Ok_0;
    assert forall|i: int| 0 <= i < fields.len() implies place_of((#[trigger] fields[i]).path)
        is Some by {
        assert(fields[i].path == change.fields@[i].path@);
    }
    made_changes_stand(root, fields, verb);
    restoration_undoes_a_change(root, fields, verb);
}

/// Whether two settings files have the same at a place.
pub open spec fn agree_at(a: Members, b: Members, place: Place) -> bool {
    match place {
        Place::Helper => entry(a, "apiKeyHelper"@) == entry(b, "apiKeyHelper"@),
        Place::Auth => forall|name: Seq<char>|
            is_auth_name(name) ==> #[trigger] variable(a, name) == variable(b, name),
        Place::Variable(name) => variable(a, name) == variable(b, name),
    }
}

/// What a change sees of a place depends on that place alone.
pub(crate) proof fn lemma_agree_at(a: Members, b: Members, place: Place, after: Option<JsonView>, verb: Seq<char>)
    requires
        agree_at(a, b, place),
    ensures
        semantic_value(a, place) == semantic_value(b, place),
        field_is_applied(a, place, after, verb) == field_is_applied(b, place, after, verb),
{
    match place {
        Place::Helper => {
            assert(entry(a, "apiKeyHelper"@) == entry(b, "apiKeyHelper"@));
        },
        Place::Auth => {
            lemma_auth_seen(a);
            lemma_auth_seen(b);
            if exists|name: Seq<char>| is_auth_name(name) && #[trigger] variable(a, name) is Some {
                let name = choose|name: Seq<char>|
                    is_auth_name(name) && #[trigger] variable(a, name) is Some;
                assert(variable(b, name) is Some);
            }
            if exists|name: Seq<char>| is_auth_name(name) && #[trigger] variable(b, name) is Some {
                let name = choose|name: Seq<char>|
                    is_auth_name(name) && #[trigger] variable(b, name) is Some;
                assert(variable(a, name) is Some);
            }
        },
        Place::Variable(name) => {
            assert(variable(a, name) == variable(b, name));
        },
    }
}

/// A change without a field at a path leaves the place of that path alone.
pub(crate) proof fn lemma_untouched_place(
    root: Members,
    fields: Seq<FieldChangeView>,
    verb: Seq<char>,
    path: Seq<char>,
)
    requires
        env_is_object(root),
        are_managed(fields),
        with_fields(root, fields, verb) is Ok,
        place_of(path) is Some,
        forall|i: int| 0 <= i < fields.len() ==> (#[trigger] fields[i]).path != path,
    ensures
        agree_at(with_fields(root, fields, verb)->Ok_0, root, place_of(path)->0),
{
    let after = with_fields(root, fields, verb)->Ok_0;
    lemma_change_touches(root, fields, verb);
    match place_of(path)->0 {
        Place::Helper => {
            if has_helper_field(fields) {
                let i = choose|i: int|
                    0 <= i < fields.len() && place_of((#[trigger] fields[i]).path) == Some(
                        Place::Helper,
                    );
                lemma_places_differ(fields[i].path, path);
            }
        },
        Place::Auth => {
            assert forall|name: Seq<char>| is_auth_name(name) implies #[trigger] variable(
                after,
                name,
            ) == variable(root, name) by {
                if has_variable_field(fields, name) {
                    let i = choose|i: int|
                        0 <= i < fields.len() && touches_variable(
                            place_of((#[trigger] fields[i]).path)->0,
                            name,
                        );
                    lemma_places_differ(fields[i].path, path);
                    assert(is_managed_variable(name));
                    lemma_managed_is_no_auth(name);
                }
            }
        },
        Place::Variable(name) => {
            lemma_managed_is_no_auth(name);
            if has_variable_field(fields, name) {
                let i = choose|i: int|
                    0 <= i < fields.len() && touches_variable(
                        place_of((#[trigger] fields[i]).path)->0,
                        name,
                    );
                lemma_places_differ(fields[i].path, path);
            }
            assert(variable(after, name) == variable(root, name));
        },
    }
}

/// Whether no two wanted values are for the same path, and each is for a managed one.
pub open spec fn wanted_apart(wanted: Seq<WantedView>) -> bool {
    &&& forall|i: int| 0 <= i < wanted.len() ==> place_of((#[trigger] wanted[i]).path) is Some
    &&& forall|i: int, j: int|
        0 <= i < j < wanted.len() ==> (#[trigger] wanted[i]).path != (#[trigger] wanted[j]).path
}

/// The place of a wanted value that there is a field for.
proof fn lemma_fields_to_from(root: Members, wanted: Seq<WantedView>, i: int) -> (j: int)
    requires
        0 <= i < fields_to(root, wanted).len(),
    ensures
        0 <= j < wanted.len(),
        fields_to(root, wanted)[i] == field_to(root, wanted[j]),
        seen_at(root, wanted[j].path) != wanted[j].after,
    decreases wanted.len(),
{
    let init = wanted.drop_last();
    if i < fields_to(root, init).len() {
        let j = lemma_fields_to_from(root, init, i);
        assert(init[j] == wanted[j]);
        j
    } else {
        wanted.len() - 1
    }
}

/// The field for a wanted value that differs from what is there.
proof fn lemma_fields_to_has(root: Members, wanted: Seq<WantedView>, j: int) -> (i: int)
    requires
        0 <= j < wanted.len(),
        seen_at(root, wanted[j].path) != wanted[j].after,
    ensures
        0 <= i < fields_to(root, wanted).len(),
        fields_to(root, wanted)[i] == field_to(root, wanted[j]),
    decreases wanted.len(),
{
    let init = wanted.drop_last();
    if j < init.len() {
        assert(init[j] == wanted[j]);
        let i = lemma_fields_to_has(root, init, j);
        assert(fields_to(root, wanted)[i] == fields_to(root, init)[i]);
        i
    } else {
        fields_to(root, wanted).len() - 1
    }
}

proof fn lemma_fields_to_apart(root: Members, wanted: Seq<WantedView>)
    requires
        wanted_apart(wanted),
    ensures
        are_managed(fields_to(root, wanted)),
        are_apart(fields_to(root, wanted)),
    decreases wanted.len(),
{
    let fields = fields_to(root, wanted);
    if wanted.len() > 0 {
        let init = wanted.drop_last();
        let before = fields_to(root, init);
        assert forall|i: int| 0 <= i < init.len() implies init[i] == #[trigger] wanted[i] by {}
        lemma_fields_to_apart(root, init);
        assert forall|i: int| 0 <= i < fields.len() implies place_of((#[trigger] fields[i]).path)
            is Some by {
            let j = lemma_fields_to_from(root, wanted, i);
        }
        assert forall|i: int, k: int| 0 <= i < k < fields.len() implies (#[trigger] fields[i]).path
            != (#[trigger] fields[k]).path by {
            if k < before.len() {
                assert(fields[i] == before[i] && fields[k] == before[k]);
            } else {
                assert(fields[i] == before[i]);
                let j = lemma_fields_to_from(root, init, i);
                assert(wanted[j].path != wanted[wanted.len() - 1].path);
            }
        }
    }
}

/// The place of a wanted value that a preview has a field for.
pub(crate) proof fn lemma_preview_from(root: Members, wanted: Seq<WantedView>, i: int) -> (j: int)
    requires
        0 <= i < preview_fields(root, wanted).len(),
    ensures
        0 <= j < wanted.len(),
        preview_fields(root, wanted)[i] == field_to(root, wanted[j]),
        seen_at(root, wanted[j].path) != wanted[j].after,
{
    let list = ordered_wanted(wanted);
    let names = in_order(paths_of(wanted));
    let k = lemma_fields_to_from(root, list, i);
    let path = names[k];
    ordered_lists_hold_the_same(paths_of(wanted));
    assert(names.contains(path));
    lemma_wanted_at(wanted, path);
    assert(wanted_at(wanted, path) is Some) by {
        let m = choose|m: int| 0 <= m < paths_of(wanted).len() && paths_of(wanted)[m] == path;
        assert(wanted[m].path == path);
    }
    let after = wanted_at(wanted, path)->0;
    let j = choose|j: int|
        0 <= j < wanted.len() && (#[trigger] wanted[j]).path == path && wanted[j].after == after;
    assert(list[k] == wanted[j]);
    j
}

/// The field of a preview for a wanted value that differs from what is there.
pub(crate) proof fn lemma_preview_has(root: Members, wanted: Seq<WantedView>, j: int) -> (i: int)
    requires
        wanted_apart(wanted),
        0 <= j < wanted.len(),
        seen_at(root, wanted[j].path) != wanted[j].after,
    ensures
        0 <= i < preview_fields(root, wanted).len(),
        preview_fields(root, wanted)[i] == field_to(root, wanted[j]),
{
    let list = ordered_wanted(wanted);
    let names = in_order(paths_of(wanted));
    let path = wanted[j].path;
    ordered_lists_hold_the_same(paths_of(wanted));
    assert(paths_of(wanted)[j] == path);
    assert(names.contains(path));
    let k = choose|k: int| 0 <= k < names.len() && names[k] == path;
    lemma_wanted_at(wanted, path);
    if let Some(after) = wanted_at(wanted, path) {
        let m = choose|m: int|
            0 <= m < wanted.len() && (#[trigger] wanted[m]).path == path && wanted[m].after
                == after;
        if m < j {
            assert(wanted[m].path != wanted[j].path);
        } else if j < m {
            assert(wanted[j].path != wanted[m].path);
        }
    } else {
        assert(wanted[j].path != path);
    }
    assert(list[k] == wanted[j]);
    lemma_fields_to_has(root, list, k)
}

proof fn lemma_preview_apart(root: Members, wanted: Seq<WantedView>)
    requires
        wanted_apart(wanted),
    ensures
        are_managed(preview_fields(root, wanted)),
        are_apart(preview_fields(root, wanted)),
{
    let list = ordered_wanted(wanted);
    let names = in_order(paths_of(wanted));
    ordered_lists_hold_the_same(paths_of(wanted));
    assert forall|k: int| 0 <= k < list.len() implies place_of((#[trigger] list[k]).path)
        is Some by {
        assert(names.contains(names[k]));
        let j = choose|j: int| 0 <= j < paths_of(wanted).len() && paths_of(wanted)[j] == names[k];
        assert(wanted[j].path == names[k]);
    }
    assert forall|i: int, j: int| 0 <= i < j < list.len() implies (#[trigger] list[i]).path != (
    #[trigger] list[j]).path by {
        assert(precedes(names[i], names[j]));
        lemma_precedes_itself(names[i]);
    }
    lemma_fields_to_apart(root, list);
}

pub(crate) proof fn lemma_wanted_at(wanted: Seq<WantedView>, path: Seq<char>)
    ensures
        match wanted_at(wanted, path) {
            Some(after) => exists|j: int|
                0 <= j < wanted.len() && (#[trigger] wanted[j]).path == path && wanted[j].after
                    == after,
            None => forall|j: int| 0 <= j < wanted.len() ==> (#[trigger] wanted[j]).path != path,
        },
    decreases wanted.len(),
{
    if wanted.len() > 0 {
        let init = wanted.drop_last();
        lemma_wanted_at(init, path);
        assert forall|i: int| 0 <= i < init.len() implies init[i] == #[trigger] wanted[i] by {}
        assert(wanted[wanted.len() - 1] == wanted.last());
        if wanted.last().path != path {
            if let Some(after) = wanted_at(init, path) {
                let j = choose|j: int|
                    0 <= j < init.len() && (#[trigger] init[j]).path == path && init[j].after
                        == after;
                assert(wanted[j].path == path);
            }
        }
    }
}

pub(crate) proof fn lemma_given_at(fields: Seq<FieldChangeView>, path: Seq<char>)
    ensures
        match given_at(fields, path) {
            Some(after) => exists|j: int|
                0 <= j < fields.len() && (#[trigger] fields[j]).path == path && fields[j].after
                    == after,
            None => forall|j: int| 0 <= j < fields.len() ==> (#[trigger] fields[j]).path != path,
        },
    decreases fields.len(),
{
    if fields.len() > 0 {
        let rest = fields.skip(1);
        lemma_given_at(rest, path);
        assert forall|i: int| 1 <= i < fields.len() implies rest[i - 1] == #[trigger] fields[i] by {}
        if fields[0].path != path {
            if let Some(after) = given_at(rest, path) {
                let j = choose|j: int|
                    0 <= j < rest.len() && (#[trigger] rest[j]).path == path && rest[j].after
                        == after;
                assert(fields[j + 1].path == path);
            } else {
                assert forall|j: int| 0 <= j < fields.len() implies (#[trigger] fields[j]).path
                    != path by {
                    if j > 0 {
                        assert(rest[j - 1].path != path);
                    }
                }
            }
        }
    }
}

/// What a change sees of a helper or of credentials is no value that a field can set.
proof fn lemma_marker_is_no_command(verb: Seq<char>)
    ensures
        helper_command(configured_marker(), verb) is None,
{
    let members = configured_marker()->Object_0;
    reveal_strlit("configured");
    reveal_strlit("executable");
    assert("configured"@[0] != "executable"@[0]);
    if members.dom() == set!["executable"@, "argv"@] {
        assert(set!["executable"@, "argv"@].contains("executable"@));
        assert(members.dom().contains("executable"@));
    }
}

/// A field that stands, at a place where the original has what the field sets, is as the original
/// has it.
proof fn lemma_standing_is_original(
    root: Members,
    base: Members,
    place: Place,
    after: Option<JsonView>,
    verb: Seq<char>,
)
    requires
        field_is_applied(root, place, after, verb) == Ok::<bool, AgentFilesystemScanError>(true),
        semantic_value(base, place) == after,
    ensures
        agree_at(root, base, place),
{
    match place {
        Place::Helper => {
            lemma_marker_is_no_command(verb);
            assert(entry(root, "apiKeyHelper"@) is None);
        },
        Place::Auth => {
            lemma_auth_seen(root);
            lemma_auth_seen(base);
            assert forall|name: Seq<char>| is_auth_name(name) implies #[trigger] variable(
                root,
                name,
            ) == variable(base, name) by {
                assert(variable(root, name) is None);
                assert(variable(base, name) is None);
            }
        },
        Place::Variable(name) => {
            assert(semantic_value(root, place) == variable(root, name));
            assert(semantic_value(base, place) == variable(base, name));
        },
    }
}

/// What the fields of a change that could be made may set.
proof fn lemma_settable(root: Members, fields: Seq<FieldChangeView>, verb: Seq<char>, i: int)
    requires
        are_managed(fields),
        with_fields(root, fields, verb) is Ok,
        0 <= i < fields.len(),
    ensures
        match place_of(fields[i].path)->0 {
            Place::Helper => fields[i].after matches Some(after) ==> helper_command(after, verb)
                is Some,
            Place::Auth => fields[i].after is None,
            Place::Variable(_) => fields[i].after matches Some(after) ==> after is Str,
        },
    decreases fields.len(),
{
    let init = fields.drop_last();
    assert forall|j: int| 0 <= j < init.len() implies init[j] == #[trigger] fields[j] by {}
    if i < init.len() {
        assert(are_managed(init));
        lemma_settable(root, init, verb, i);
    } else {
        assert(fields[i] == fields.last());
    }
}

/// What a reconfiguration leaves at a managed path: what it aims at stands there; and where the
/// original has just that, the place is as the original has it.
proof fn lemma_rebased_path(
    base: Members,
    previous: Seq<FieldChangeView>,
    change: Seq<FieldChangeView>,
    verb: Seq<char>,
    path: Seq<char>,
    aim: Option<JsonView>,
)
    requires
        is_settings(base),
        are_managed(previous),
        are_apart(previous),
        changed_root(base, previous, verb) is Ok,
        are_managed(change),
        are_apart(change),
        ({
            let current = changed_root(base, previous, verb)->Ok_0;
            let wanted = wanted_change(change, base);
            &&& changed_root(current, change, verb) is Ok
            &&& changed_root(current, preview_fields(current, wanted), verb) is Ok
            &&& aim == (match wanted_at(wanted, path) {
                Some(after) => after,
                None => match given_at(previous, path) {
                    Some(after) => after,
                    None => seen_at(base, path),
                },
            })
        }),
        place_of(path) is Some,
    ensures
        ({
            let current = changed_root(base, previous, verb)->Ok_0;
            let fields = preview_fields(current, wanted_change(change, base));
            let after = changed_root(current, fields, verb)->Ok_0;
            let place = place_of(path)->0;
            &&& seen_at(base, path) != aim ==> field_is_applied(after, place, aim, verb) == Ok::<
                bool,
                AgentFilesystemScanError,
            >(true)
            &&& seen_at(base, path) == aim ==> agree_at(after, base, place)
        }),
{
    let current = changed_root(base, previous, verb)->Ok_0;
    let wanted = wanted_change(change, base);
    let fields = preview_fields(current, wanted);
    let after = changed_root(current, fields, verb)->Ok_0;
    let place = place_of(path)->0;
    lemma_change_touches(base, previous, verb);
    lemma_wanted_apart(change, base);
    lemma_preview_apart(current, wanted);
    lemma_wanted_at(wanted, path);
    lemma_given_at(previous, path);
    lemma_marker_is_no_command(verb);
    if wanted_at(wanted, path) is Some {
        let j = choose|j: int|
            0 <= j < wanted.len() && (#[trigger] wanted[j]).path == path && wanted[j].after == aim;
        assert(wanted[j] == wanted_of(change[j], base));
        if seen_at(current, path) != aim {
            let i = lemma_preview_has(current, wanted, j);
            lemma_fields_stand(current, fields, verb, i);
        } else {
            assert forall|i: int| 0 <= i < fields.len() implies (#[trigger] fields[i]).path
                != path by {
                let k = lemma_preview_from(current, wanted, i);
                if wanted[k].path == path {
                    assert(k == j);
                }
            }
            lemma_untouched_place(current, fields, verb, path);
            lemma_settable(current, change, verb, j);
            if !(place is Variable) {
                lemma_no_context_path(path);
            }
            assert(field_is_applied(current, place, aim, verb) == Ok::<
                bool,
                AgentFilesystemScanError,
            >(true));
            lemma_agree_at(after, current, place, aim, verb);
        }
        if seen_at(base, path) == aim {
            lemma_standing_is_original(after, base, place, aim, verb);
        }
    } else {
        assert forall|i: int| 0 <= i < fields.len() implies (#[trigger] fields[i]).path != path by {
            let k = lemma_preview_from(current, wanted, i);
            assert(wanted[k].path != path);
        }
        lemma_untouched_place(current, fields, verb, path);
        if given_at(previous, path) is Some {
            let j = choose|j: int|
                0 <= j < previous.len() && (#[trigger] previous[j]).path == path
                    && previous[j].after == aim;
            lemma_fields_stand(base, previous, verb, j);
            lemma_agree_at(after, current, place, aim, verb);
            if seen_at(base, path) == aim {
                lemma_standing_is_original(after, base, place, aim, verb);
            }
        } else {
            lemma_untouched_place(base, previous, verb, path);
            lemma_agree_chain(after, current, base, place);
        }
    }
}

proof fn lemma_agree_chain(a: Members, b: Members, c: Members, place: Place)
    requires
        agree_at(a, b, place),
        agree_at(b, c, place),
    ensures
        agree_at(a, c, place),
{
    if place is Auth {
        assert forall|name: Seq<char>| is_auth_name(name) implies #[trigger] variable(a, name)
            == variable(c, name) by {
            assert(variable(b, name) == variable(c, name));
        }
    }
}

proof fn lemma_wanted_apart(change: Seq<FieldChangeView>, base: Members)
    requires
        are_managed(change),
        are_apart(change),
    ensures
        wanted_apart(wanted_change(change, base)),
{
    let wanted = wanted_change(change, base);
    assert forall|i: int| 0 <= i < wanted.len() implies place_of((#[trigger] wanted[i]).path)
        is Some by {
        assert(wanted[i].path == change[i].path);
    }
    assert forall|i: int, j: int| 0 <= i < j < wanted.len() implies (#[trigger] wanted[i]).path != (
    #[trigger] wanted[j]).path by {
        assert(wanted[i].path == change[i].path && wanted[j].path == change[j].path);
    }
}

/// Only variables set the context window.
proof fn lemma_no_context_path(path: Seq<char>)
    requires
        place_of(path) is Some,
        !(place_of(path)->0 is Variable),
    ensures
        !is_context_path(path),
{
    reveal_strlit("env.");
    reveal_strlit("apiKeyHelper");
    reveal_strlit("hiroute.auth_environment");
    assert("env."@[0] == 'e' && "apiKeyHelper"@[0] == 'a' && "hiroute.auth_environment"@[0] == 'h');
    if is_context_path(path) {
        assert(path.take(4)[0] == path[0]);
    }
}

/// The managed paths are those that have a place, each of them once.
proof fn lemma_managed_paths()
    ensures
        forall|k: int|
            0 <= k < managed_paths().len() ==> place_of(#[trigger] managed_paths()[k]) is Some,
        forall|i: int, j: int|
            0 <= i < j < managed_paths().len() ==> #[trigger] managed_paths()[i]
                != #[trigger] managed_paths()[j],
        forall|path: Seq<char>| #[trigger]
            place_of(path) is Some ==> managed_paths().contains(path),
{
    reveal_strlit("apiKeyHelper");
    reveal_strlit("hiroute.auth_environment");
    reveal_strlit("env.");
    reveal_strlit("ANTHROPIC_BASE_URL");
    reveal_strlit("env.ANTHROPIC_BASE_URL");
    reveal_strlit("ANTHROPIC_MODEL");
    reveal_strlit("env.ANTHROPIC_MODEL");
    reveal_strlit("ANTHROPIC_DEFAULT_OPUS_MODEL");
    reveal_strlit("env.ANTHROPIC_DEFAULT_OPUS_MODEL");
    reveal_strlit("ANTHROPIC_DEFAULT_SONNET_MODEL");
    reveal_strlit("env.ANTHROPIC_DEFAULT_SONNET_MODEL");
    reveal_strlit("ANTHROPIC_DEFAULT_HAIKU_MODEL");
    reveal_strlit("env.ANTHROPIC_DEFAULT_HAIKU_MODEL");
    reveal_strlit("ANTHROPIC_SMALL_FAST_MODEL");
    reveal_strlit("env.ANTHROPIC_SMALL_FAST_MODEL");
    reveal_strlit("CLAUDE_CODE_AUTO_COMPACT_WINDOW");
    reveal_strlit("env.CLAUDE_CODE_AUTO_COMPACT_WINDOW");
    reveal_strlit("CLAUDE_CODE_MAX_CONTEXT_TOKENS");
    reveal_strlit("env.CLAUDE_CODE_MAX_CONTEXT_TOKENS");
    assert("env.ANTHROPIC_BASE_URL"@ =~= "env."@ + "ANTHROPIC_BASE_URL"@);
    lemma_variable_place("ANTHROPIC_BASE_URL"@);
    assert("env.ANTHROPIC_MODEL"@ =~= "env."@ + "ANTHROPIC_MODEL"@);
    lemma_variable_place("ANTHROPIC_MODEL"@);
    assert("env.ANTHROPIC_DEFAULT_OPUS_MODEL"@ =~= "env."@ + "ANTHROPIC_DEFAULT_OPUS_MODEL"@);
    lemma_variable_place("ANTHROPIC_DEFAULT_OPUS_MODEL"@);
    assert("env.ANTHROPIC_DEFAULT_SONNET_MODEL"@ =~= "env."@ + "ANTHROPIC_DEFAULT_SONNET_MODEL"@);
    lemma_variable_place("ANTHROPIC_DEFAULT_SONNET_MODEL"@);
    assert("env.ANTHROPIC_DEFAULT_HAIKU_MODEL"@ =~= "env."@ + "ANTHROPIC_DEFAULT_HAIKU_MODEL"@);
    lemma_variable_place("ANTHROPIC_DEFAULT_HAIKU_MODEL"@);
    assert("env.ANTHROPIC_SMALL_FAST_MODEL"@ =~= "env."@ + "ANTHROPIC_SMALL_FAST_MODEL"@);
    lemma_variable_place("ANTHROPIC_SMALL_FAST_MODEL"@);
    assert("env.CLAUDE_CODE_AUTO_COMPACT_WINDOW"@ =~= "env."@ + "CLAUDE_CODE_AUTO_COMPACT_WINDOW"@);
    lemma_variable_place("CLAUDE_CODE_AUTO_COMPACT_WINDOW"@);
    assert("env.CLAUDE_CODE_MAX_CONTEXT_TOKENS"@ =~= "env."@ + "CLAUDE_CODE_MAX_CONTEXT_TOKENS"@);
    lemma_variable_place("CLAUDE_CODE_MAX_CONTEXT_TOKENS"@);
    assert("env.ANTHROPIC_DEFAULT_SONNET_MODEL"@[4] != "env.CLAUDE_CODE_MAX_CONTEXT_TOKENS"@[4]);
    assert("env.ANTHROPIC_BASE_URL"@.len() == 22);
    assert("env.ANTHROPIC_MODEL"@.len() == 19);
    assert("env.ANTHROPIC_DEFAULT_OPUS_MODEL"@.len() == 32);
    assert("env.ANTHROPIC_DEFAULT_SONNET_MODEL"@.len() == 34);
    assert("env.ANTHROPIC_DEFAULT_HAIKU_MODEL"@.len() == 33);
    assert("env.ANTHROPIC_SMALL_FAST_MODEL"@.len() == 30);
    assert("env.CLAUDE_CODE_AUTO_COMPACT_WINDOW"@.len() == 35);
    assert("env.CLAUDE_CODE_MAX_CONTEXT_TOKENS"@.len() == 34);
    lemma_fixed_places();
    let paths = managed_paths();
    assert("apiKeyHelper"@.len() == 12 && "hiroute.auth_environment"@.len() == 24);
    assert("apiKeyHelper"@[0] == 'a' && "hiroute.auth_environment"@[0] == 'h');
    assert forall|path: Seq<char>| #[trigger] place_of(path) is Some implies paths.contains(
        path,
    ) by {
        if path == "apiKeyHelper"@ {
            assert(paths[0] == path);
        } else if path == "hiroute.auth_environment"@ {
            assert(paths[1] == path);
        } else {
            let name = after_prefix(path, "env."@)->0;
            assert(path =~= "env."@ + name);
            assert(paths[2] == "env.ANTHROPIC_BASE_URL"@);
            assert(paths[3] == "env.ANTHROPIC_MODEL"@);
            assert(paths[4] == "env.ANTHROPIC_DEFAULT_OPUS_MODEL"@);
            assert(paths[5] == "env.ANTHROPIC_DEFAULT_SONNET_MODEL"@);
            assert(paths[6] == "env.ANTHROPIC_DEFAULT_HAIKU_MODEL"@);
            assert(paths[7] == "env.ANTHROPIC_SMALL_FAST_MODEL"@);
            assert(paths[8] == "env.CLAUDE_CODE_AUTO_COMPACT_WINDOW"@);
            assert(paths[9] == "env.CLAUDE_CODE_MAX_CONTEXT_TOKENS"@);
        }
    }
}

/// What a reconfiguration aims at, as a sequence of wanted values.
pub(crate) proof fn lemma_rebased_wanted(
    base: Members,
    previous: Seq<FieldChangeView>,
    wanted: Seq<WantedView>,
)
    ensures
        wanted_apart(rebased_wanted(base, previous, wanted)),
        rebased_wanted(base, previous, wanted).len() == managed_paths().len(),
        forall|k: int|
            0 <= k < managed_paths().len() ==> (#[trigger] rebased_wanted(
                base,
                previous,
                wanted,
            )[k]).path == managed_paths()[k],
{
    lemma_managed_paths();
    let aims = rebased_wanted(base, previous, wanted);
    assert forall|i: int, j: int| 0 <= i < j < aims.len() implies (#[trigger] aims[i]).path != (
    #[trigger] aims[j]).path by {
        assert(managed_paths()[i] != managed_paths()[j]);
    }
}

/// Restoring a reconfigured settings file gives back what the user had before the first change,
/// whatever the reconfiguration set or released: the composed change stands in the new file, and
/// giving its fields back leaves the original.
pub proof fn restoration_undoes_a_reconfiguration(
    base: Members,
    previous: Seq<FieldChangeView>,
    change: Seq<FieldChangeView>,
    verb: Seq<char>,
)
    requires
        is_settings(base),
        are_managed(previous),
        are_apart(previous),
        changed_root(base, previous, verb) is Ok,
        are_managed(change),
        are_apart(change),
        changed_root(changed_root(base, previous, verb)->Ok_0, change, verb) is Ok,
        rebased_root(changed_root(base, previous, verb)->Ok_0, base, previous, change, verb) is Ok,
    ensures
        ({
            let current = changed_root(base, previous, verb)->Ok_0;
            let planned = preview_fields(current, wanted_change(change, base));
            let after = changed_root(current, planned, verb)->Ok_0;
            let (rendered, composed) = rebased_root(current, base, previous, change, verb)->Ok_0;
            &&& rendered == rendered_root(after)
            &&& are_managed(planned) && are_managed(composed)
            &&& is_applied(after, composed, verb) == Ok::<bool, AgentFilesystemScanError>(true)
            &&& restored_root(after, base, composed) == Ok::<_, AgentFilesystemScanError>(base)
        }),
{
    let current = changed_root(base, previous, verb)->Ok_0;
    let wanted = wanted_change(change, base);
    let planned = preview_fields(current, wanted);
    let after = changed_root(current, planned, verb)->Ok_0;
    let aims = rebased_wanted(base, previous, wanted);
    let composed = preview_fields(base, aims);
    lemma_managed_paths();
    lemma_rebased_wanted(base, previous, wanted);
    lemma_preview_apart(base, aims);
    lemma_wanted_apart(change, base);
    lemma_preview_apart(current, wanted);
    lemma_change_touches(base, previous, verb);
    lemma_change_touches(current, planned, verb);
    assert forall|i: int| 0 <= i < composed.len() implies field_is_applied(
        after,
        place_of((#[trigger] composed[i]).path)->0,
        composed[i].after,
        verb,
    ) == Ok::<bool, AgentFilesystemScanError>(true) by {
        let j = lemma_preview_from(base, aims, i);
        lemma_rebased_path(base, previous, change, verb, aims[j].path, aims[j].after);
    }
    lemma_all_stand(after, composed, verb, composed.len() as int);
    if sets_helper(composed) {
        lemma_no_credentials(base, previous, change, verb);
    }
    assert forall|path: Seq<char>| #[trigger] place_of(path) is Some && (forall|i: int|
        0 <= i < composed.len() ==> (#[trigger] composed[i]).path != path) implies agree_at(
        after,
        base,
        place_of(path)->0,
    ) by {
        let k = choose|k: int| 0 <= k < managed_paths().len() && managed_paths()[k] == path;
        assert(aims[k].path == path);
        if seen_at(base, path) != aims[k].after {
            let i = lemma_preview_has(base, aims, k);
            assert(composed[i].path == path);
        }
        lemma_rebased_path(base, previous, change, verb, path, aims[k].after);
    }
    lemma_helper_kept(after, base, composed);
    assert forall|name: Seq<char>|
        !has_variable_field(composed, name) implies #[trigger] variable(after, name) == variable(
        base,
        name,
    ) by {
        if is_auth_name(name) {
            let path = "hiroute.auth_environment"@;
            lemma_fixed_places();
            assert forall|i: int| 0 <= i < composed.len() implies (#[trigger] composed[i]).path
                != path by {
                assert(!touches_variable(place_of(composed[i].path)->0, name));
            }
            assert(agree_at(after, base, place_of(path)->0));
        } else if is_managed_variable(name) {
            let path = "env."@ + name;
            lemma_variable_place(name);
            assert forall|i: int| 0 <= i < composed.len() implies (#[trigger] composed[i]).path
                != path by {
                assert(!touches_variable(place_of(composed[i].path)->0, name));
            }
            assert(agree_at(after, base, place_of(path)->0));
        } else {
            lemma_other_variable(planned, name);
            lemma_other_variable(previous, name);
            assert(variable(after, name) == variable(current, name));
            assert(variable(current, name) == variable(base, name));
        }
    }
    assert forall|name: Seq<char>|
        name != "apiKeyHelper"@ && name != "env"@ implies #[trigger] entry(base, name) == entry(
        after,
        name,
    ) by {
        assert(entry(base, name) == entry(current, name));
        assert(entry(current, name) == entry(after, name));
    }
    lemma_restores(after, base, composed);
}

proof fn lemma_fixed_places()
    ensures
        place_of("apiKeyHelper"@) == Some(Place::Helper),
        place_of("hiroute.auth_environment"@) == Some(Place::Auth),
{
    reveal_strlit("apiKeyHelper");
    reveal_strlit("hiroute.auth_environment");
    assert("apiKeyHelper"@.len() == 12 && "hiroute.auth_environment"@.len() == 24);
}

proof fn lemma_variable_place(name: Seq<char>)
    requires
        is_managed_variable(name),
    ensures
        place_of("env."@ + name) == Some(Place::Variable(name)),
{
    let path = "env."@ + name;
    reveal_strlit("env.");
    reveal_strlit("apiKeyHelper");
    reveal_strlit("hiroute.auth_environment");
    assert("env."@[0] == 'e' && "apiKeyHelper"@[0] == 'a' && "hiroute.auth_environment"@[0] == 'h');
    assert(path[0] == 'e');
    assert(path.take(4) =~= "env."@);
    assert(path.skip(4) =~= name);
}

/// No field touches a variable that is neither managed nor a credential.
proof fn lemma_other_variable(fields: Seq<FieldChangeView>, name: Seq<char>)
    requires
        are_managed(fields),
        !is_auth_name(name),
        !is_managed_variable(name),
    ensures
        !has_variable_field(fields, name),
{
}

proof fn lemma_helper_kept(after: Members, base: Members, fields: Seq<FieldChangeView>)
    requires
        forall|path: Seq<char>| #[trigger]
            place_of(path) is Some && (forall|i: int|
                0 <= i < fields.len() ==> (#[trigger] fields[i]).path != path) ==> agree_at(
                after,
                base,
                place_of(path)->0,
            ),
    ensures
        !has_helper_field(fields) ==> entry(base, "apiKeyHelper"@) == entry(
            after,
            "apiKeyHelper"@,
        ),
{
    let path = "apiKeyHelper"@;
    lemma_fixed_places();
    if !has_helper_field(fields) {
        assert forall|i: int| 0 <= i < fields.len() implies (#[trigger] fields[i]).path != path by {
            assert(place_of(fields[i].path) != Some(Place::Helper));
        }
        assert(agree_at(after, base, place_of(path)->0));
    }
}

/// A reconfigured file whose helper is managed holds no credential of the user's.
proof fn lemma_no_credentials(
    base: Members,
    previous: Seq<FieldChangeView>,
    change: Seq<FieldChangeView>,
    verb: Seq<char>,
)
    requires
        is_settings(base),
        are_managed(previous),
        are_apart(previous),
        changed_root(base, previous, verb) is Ok,
        are_managed(change),
        are_apart(change),
        changed_root(changed_root(base, previous, verb)->Ok_0, change, verb) is Ok,
        ({
            let current = changed_root(base, previous, verb)->Ok_0;
            let wanted = wanted_change(change, base);
            &&& changed_root(current, preview_fields(current, wanted), verb) is Ok
            &&& sets_helper(preview_fields(base, rebased_wanted(base, previous, wanted)))
        }),
    ensures
        ({
            let current = changed_root(base, previous, verb)->Ok_0;
            let planned = preview_fields(current, wanted_change(change, base));
            let after = changed_root(current, planned, verb)->Ok_0;
            !(env_of(after) matches Some(env) && has_auth(env))
        }),
{
    let current = changed_root(base, previous, verb)->Ok_0;
    let wanted = wanted_change(change, base);
    let planned = preview_fields(current, wanted);
    let after = changed_root(current, planned, verb)->Ok_0;
    let aims = rebased_wanted(base, previous, wanted);
    let composed = preview_fields(base, aims);
    let path = "apiKeyHelper"@;
    lemma_fixed_places();
    lemma_wanted_apart(change, base);
    lemma_preview_apart(current, wanted);
    lemma_change_touches(base, previous, verb);
    lemma_change_touches(current, planned, verb);
    lemma_marker_is_no_command(verb);
    let i = choose|i: int|
        0 <= i < composed.len() && (#[trigger] composed[i]).path == path && composed[i].after
            is Some;
    let k = lemma_preview_from(base, aims, i);
    let aim = aims[k].after;
    lemma_rebased_wanted(base, previous, wanted);
    assert(aims[k].path == path);
    lemma_wanted_at(wanted, path);
    lemma_given_at(previous, path);
    if wanted_at(wanted, path) is Some {
        let j = choose|j: int|
            0 <= j < wanted.len() && (#[trigger] wanted[j]).path == path && wanted[j].after == aim;
        assert(wanted[j] == wanted_of(change[j], base));
        lemma_settable(current, change, verb, j);
        lemma_no_context_path(path);
        let f = lemma_preview_has(current, wanted, j);
        assert(planned[f].path == path && planned[f].after is Some);
        assert(sets_helper(planned));
    } else {
        assert(given_at(previous, path) is Some);
        let j = choose|j: int|
            0 <= j < previous.len() && (#[trigger] previous[j]).path == path && previous[j].after
                == aim;
        assert(sets_helper(previous));
        lemma_auth_seen(current);
        lemma_auth_seen(after);
        if exists|name: Seq<char>| is_auth_name(name) && #[trigger] variable(after, name) is Some {
            let name = choose|name: Seq<char>|
                is_auth_name(name) && #[trigger] variable(after, name) is Some;
            assert(variable(current, name) is None);
            assert(has_variable_field(planned, name));
            let f = choose|f: int|
                0 <= f < planned.len() && touches_variable(
                    place_of((#[trigger] planned[f]).path)->0,
                    name,
                );
            if let Place::Variable(other) = place_of(planned[f].path)->0 {
                lemma_managed_is_no_auth(other);
            }
            lemma_fields_stand(current, planned, verb, f);
            assert(variable(after, name) is None);
        }
    }
}

/// Whether two settings files have the same helper, the same managed variables and the same
/// credentials.
pub open spec fn same_managed(a: Members, b: Members) -> bool {
    &&& entry(a, "apiKeyHelper"@) == entry(b, "apiKeyHelper"@)
    &&& forall|name: Seq<char>|
        is_auth_name(name) || is_managed_variable(name) ==> #[trigger] variable(a, name)
            == variable(b, name)
}

/// Whether a change stands does not depend on what else a settings file holds: unrelated settings
/// and variables may come, go and change, and the file may be spelled anew.
pub proof fn other_settings_do_not_matter(
    a: Members,
    b: Members,
    fields: Seq<FieldChangeView>,
    verb: Seq<char>,
)
    requires
        same_managed(a, b),
        are_managed(fields),
    ensures
        is_applied(a, fields, verb) == is_applied(b, fields, verb),
{
    lemma_fields_alike(a, b, fields, verb, fields.len() as int);
    lemma_agree_at(a, b, Place::Auth, None, verb);
}

proof fn lemma_fields_alike(
    a: Members,
    b: Members,
    fields: Seq<FieldChangeView>,
    verb: Seq<char>,
    n: int,
)
    requires
        same_managed(a, b),
        are_managed(fields),
        n <= fields.len(),
    ensures
        fields_are_applied(a, fields, n, verb) == fields_are_applied(b, fields, n, verb),
    decreases n,
{
    if n > 0 {
        lemma_fields_alike(a, b, fields, verb, n - 1);
        let field = fields[n - 1];
        let place = place_of(field.path)->0;
        assert(agree_at(a, b, place));
        lemma_agree_at(a, b, place, field.after, verb);
    }
}

/// A change that set a helper no longer stands once a credential of the user's is put beside it.
pub proof fn added_credentials_undo_a_helper(
    root: Members,
    fields: Seq<FieldChangeView>,
    verb: Seq<char>,
    name: Seq<char>,
    value: JsonView,
)
    requires
        env_is_object(root),
        are_managed(fields),
        sets_helper(fields),
        is_applied(root, fields, verb) == Ok::<bool, AgentFilesystemScanError>(true),
        is_auth_name(name),
    ensures
        with_variable(root, name, value) is Some,
        is_applied(with_variable(root, name, value)->0, fields, verb) == Ok::<
            bool,
            AgentFilesystemScanError,
        >(false),
{
    lemma_names();
    lemma_with_variable(root, name, value);
    let after = with_variable(root, name, value)->0;
    lemma_auth_seen(after);
    assert(variable(after, name) is Some);
    lemma_never_an_error(root, after, fields, verb, fields.len() as int, name);
}

proof fn lemma_never_an_error(
    root: Members,
    after: Members,
    fields: Seq<FieldChangeView>,
    verb: Seq<char>,
    n: int,
    name: Seq<char>,
)
    requires
        are_managed(fields),
        0 <= n <= fields.len(),
        is_auth_name(name),
        entry(root, "apiKeyHelper"@) == entry(after, "apiKeyHelper"@),
        forall|other: Seq<char>|
            other != name ==> #[trigger] variable(after, other) == variable(root, other),
        fields_are_applied(root, fields, n, verb) == Ok::<bool, AgentFilesystemScanError>(true),
    ensures
        fields_are_applied(after, fields, n, verb) is Ok,
    decreases n,
{
    if n > 0 {
        lemma_never_an_error(root, after, fields, verb, n - 1, name);
        assert(fields_are_applied(root, fields, n - 1, verb) == Ok::<
            bool,
            AgentFilesystemScanError,
        >(true));
        let place = place_of(fields[n - 1].path)->0;
        if place is Helper {
            lemma_agree_at(root, after, place, fields[n - 1].after, verb);
        }
    }
}

/// Whether settings have the right form and are nested no deeper than a reader follows.
pub open spec fn is_readable(root: Members) -> bool {
    is_settings(root) && nested_within(JsonView::Object(root), 127)
}

/// Whether a value is one of two, a string, or absent.
spec fn is_from(value: Option<JsonView>, a: Option<JsonView>, b: Option<JsonView>) -> bool {
    value == a || value == b || value is None || value->0 is Str
}

/// Settings that are put together from readable ones and strings are readable.
proof fn lemma_mixed_readable(done: Members, a: Members, b: Members)
    requires
        is_readable(a),
        is_readable(b),
        env_is_object(done),
        forall|name: Seq<char>|
            name != "env"@ ==> is_from(#[trigger] entry(done, name), entry(a, name), entry(b, name)),
        forall|name: Seq<char>|
            is_from(#[trigger] variable(done, name), variable(a, name), variable(b, name)),
    ensures
        is_readable(done),
        is_whole(JsonView::Object(a)) && is_whole(JsonView::Object(b)) ==> is_whole(
            JsonView::Object(done),
        ),
{
    reveal_strlit("env");
    reveal_strlit("model");
    assert("env"@.len() == 3 && "model"@.len() == 5);
    lemma_object_parts(done, 127);
    lemma_object_parts(a, 127);
    lemma_object_parts(b, 127);
    if let Some(env) = env_of(done) {
        lemma_object_parts(env, 126);
    }
    assert(is_from(entry(done, "model"@), entry(a, "model"@), entry(b, "model"@)));
    if done.contains_key("env"@) {
        let env = env_of(done)->0;
        assert forall|name: Seq<char>| is_managed_variable(name) implies #[trigger] is_text_member(
            env,
            name,
        ) by {
            assert(is_from(variable(done, name), variable(a, name), variable(b, name)));
        }
        assert forall|name: Seq<char>| env.contains_key(name) implies nested_within(
            #[trigger] env[name],
            125,
        ) by {
            lemma_variable_depth(a, name);
            lemma_variable_depth(b, name);
            assert(variable(done, name) == Some(env[name]));
        }
        assert(nested_within(done["env"@], 126));
    }
    assert forall|name: Seq<char>| done.contains_key(name) implies nested_within(
        #[trigger] done[name],
        126,
    ) by {
        if name != "env"@ {
            assert(entry(done, name) == Some(done[name]));
        }
    }
    if is_whole(JsonView::Object(a)) && is_whole(JsonView::Object(b)) {
        if done.contains_key("env"@) {
            let env = env_of(done)->0;
            assert forall|name: Seq<char>| env.contains_key(name) implies is_whole(
                #[trigger] env[name],
            ) by {
                lemma_variable_whole(a, name);
                lemma_variable_whole(b, name);
                assert(variable(done, name) == Some(env[name]));
            }
            assert(is_whole(done["env"@]));
        }
        assert forall|name: Seq<char>| done.contains_key(name) implies is_whole(
            #[trigger] done[name],
        ) by {
            if name != "env"@ {
                assert(entry(done, name) == Some(done[name]));
            }
        }
    }
}

proof fn lemma_variable_depth(root: Members, name: Seq<char>)
    requires
        is_readable(root),
    ensures
        variable(root, name) matches Some(value) ==> nested_within(value, 125),
{
    if let Some(env) = env_of(root) {
        lemma_object_parts(root, 127);
        lemma_object_parts(env, 126);
        assert(nested_within(root["env"@], 126));
    }
}

proof fn lemma_variable_whole(root: Members, name: Seq<char>)
    requires
        is_whole(JsonView::Object(root)),
    ensures
        variable(root, name) matches Some(value) ==> is_whole(value),
{
    if let Some(env) = env_of(root) {
        lemma_object_parts(root, 127);
        lemma_object_parts(env, 126);
        assert(is_whole(root["env"@]));
    }
}

/// A change leaves readable settings readable, and makes no fraction.
pub(crate) proof fn lemma_change_readable(
    root: Members,
    fields: Seq<FieldChangeView>,
    verb: Seq<char>,
)
    requires
        is_readable(root),
        are_managed(fields),
        with_fields(root, fields, verb) is Ok,
    ensures
        is_readable(with_fields(root, fields, verb)->Ok_0),
        is_whole(JsonView::Object(root)) ==> is_whole(
            JsonView::Object(with_fields(root, fields, verb)->Ok_0),
        ),
    decreases fields.len(),
{
    if fields.len() > 0 {
        let init = fields.drop_last();
        let last = fields.last();
        let place = place_of(last.path)->0;
        assert(forall|i: int| 0 <= i < init.len() ==> init[i] == fields[i]);
        assert(fields[fields.len() - 1] == last);
        lemma_change_readable(root, init, verb);
        let middle = with_fields(root, init, verb)->Ok_0;
        let done = with_field(middle, place, last.after, verb)->Ok_0;
        lemma_names();
        lemma_field_touches(middle, place, last.after, verb);
        match place {
            Place::Helper => {},
            Place::Auth => {
                if let Some(env) = env_of(middle) {
                    lemma_without_auth(middle, env);
                }
            },
            Place::Variable(name) => match last.after {
                None => lemma_without_variable(middle, name),
                Some(value) => lemma_with_variable(middle, name, value),
            },
        }
        assert forall|name: Seq<char>| name != "env"@ implies is_from(
            #[trigger] entry(done, name),
            entry(middle, name),
            entry(middle, name),
        ) by {
            if name != "apiKeyHelper"@ {
                assert(entry(middle, name) == entry(done, name));
            }
        }
        assert forall|name: Seq<char>|
            is_from(#[trigger] variable(done, name), variable(middle, name), variable(middle, name)) by {
            if !touches_variable(place, name) {
                assert(variable(done, name) == variable(middle, name));
            }
        }
        lemma_mixed_readable(done, middle, middle);
    }
}

/// A restoration leaves readable settings readable, and brings no fraction that was not there.
pub(crate) proof fn lemma_restoration_readable(
    root: Members,
    original: Members,
    fields: Seq<FieldChangeView>,
)
    requires
        is_readable(root),
        is_readable(original),
        are_managed(fields),
    ensures
        restored_root(root, original, fields) is Ok,
        is_readable(restored_root(root, original, fields)->Ok_0),
        is_whole(JsonView::Object(root)) && is_whole(JsonView::Object(original)) ==> is_whole(
            JsonView::Object(restored_root(root, original, fields)->Ok_0),
        ),
{
    lemma_names();
    lemma_restoration_touches(root, original, fields);
    let given = with_places_of(root, original, fields)->Ok_0;
    let done = without_empty_env(given, original);
    assert forall|name: Seq<char>| name != "env"@ implies is_from(
        #[trigger] entry(done, name),
        entry(root, name),
        entry(original, name),
    ) by {
        assert(entry(done, name) == entry(given, name));
        if name != "apiKeyHelper"@ {
            assert(entry(root, name) == entry(given, name));
        }
    }
    assert forall|name: Seq<char>|
        is_from(#[trigger] variable(done, name), variable(root, name), variable(original, name)) by {
        if done.contains_key("env"@) {
            assert(variable(done, name) == variable(given, name));
        }
    }
    lemma_mixed_readable(done, root, original);
}

/// A change that stands also stands in settings that differ in fractions alone.
pub(crate) proof fn lemma_alike_stands(
    original: Members,
    fields: Seq<FieldChangeView>,
    verb: Seq<char>,
    back: Members,
)
    requires
        is_settings(original),
        are_managed(fields),
        are_apart(fields),
        changed_root(original, fields, verb) is Ok,
        alike(
            JsonView::Object(changed_root(original, fields, verb)->Ok_0),
            JsonView::Object(back),
        ),
    ensures
        is_applied(back, fields, verb) == Ok::<bool, AgentFilesystemScanError>(true),
{
    let changed = changed_root(original, fields, verb)->Ok_0;
    lemma_alike_objects(changed, back);
    lemma_change_touches(original, fields, verb);
    lemma_auth_seen(changed);
    lemma_auth_seen(back);
    assert forall|name: Seq<char>|
        (#[trigger] variable(back, name) is Some) == (variable(changed, name) is Some) && (
        variable(changed, name) is Some ==> alike(
            variable(changed, name)->0,
            variable(back, name)->0,
        )) by {
        lemma_alike_variable(changed, back, name);
    }
    assert forall|i: int| 0 <= i < fields.len() implies field_is_applied(
        back,
        place_of((#[trigger] fields[i]).path)->0,
        fields[i].after,
        verb,
    ) == Ok::<bool, AgentFilesystemScanError>(true) by {
        let place = place_of(fields[i].path)->0;
        lemma_fields_stand(original, fields, verb, i);
        lemma_settable(original, fields, verb, i);
        match place {
            Place::Helper => {
                let name = "apiKeyHelper"@;
                assert(changed.contains_key(name) == back.contains_key(name));
                if changed.contains_key(name) {
                    assert(alike(changed[name], back[name]));
                }
            },
            Place::Auth => {
                assert forall|name: Seq<char>| is_auth_name(name) implies #[trigger] variable(
                    back,
                    name,
                ) is None by {
                    assert(variable(changed, name) is None);
                }
            },
            Place::Variable(name) => {
                assert(semantic_value(changed, place) == variable(changed, name));
                assert(semantic_value(back, place) == variable(back, name));
                assert((variable(back, name) is Some) == (variable(changed, name) is Some));
            },
        }
    }
    lemma_all_stand(back, fields, verb, fields.len() as int);
    if exists|name: Seq<char>| is_auth_name(name) && #[trigger] variable(back, name) is Some {
        let name = choose|name: Seq<char>|
            is_auth_name(name) && #[trigger] variable(back, name) is Some;
        assert(variable(changed, name) is Some);
    }
}

proof fn lemma_alike_variable(a: Members, b: Members, name: Seq<char>)
    requires
        env_is_object(a),
        alike(JsonView::Object(a), JsonView::Object(b)),
    ensures
        env_is_object(b),
        a.contains_key("env"@) == b.contains_key("env"@),
        (variable(a, name) is Some) == (variable(b, name) is Some),
        variable(a, name) is Some ==> alike(variable(a, name)->0, variable(b, name)->0),
{
    lemma_alike_objects(a, b);
    assert(a.contains_key("env"@) == b.contains_key("env"@));
    if a.contains_key("env"@) {
        assert(alike(a["env"@], b["env"@]));
        let x = env_of(a)->0;
        let y = env_of(b)->0;
        lemma_alike_objects(x, y);
        assert(x.contains_key(name) == y.contains_key(name));
        if x.contains_key(name) {
            assert(alike(x[name], y[name]));
        }
    }
}

pub(crate) proof fn lemma_alike_itself(json: JsonView)
    ensures
        alike(json, json),
    decreases json,
{
    match json {
        JsonView::Array(items) => {
            assert forall|i: int| 0 <= i < items.len() implies alike(
                #[trigger] items[i],
                items[i],
            ) by {
                lemma_alike_itself(items[i]);
            }
        },
        JsonView::Object(members) => {
            assert forall|name: Seq<char>| members.contains_key(name) implies alike(
                #[trigger] members[name],
                members[name],
            ) by {
                lemma_alike_itself(members[name]);
            }
        },
        _ => {},
    }
}

/// Giving the fields of a change back to settings that differ from the changed ones in fractions
/// alone leaves settings that differ from the original in fractions alone.
pub(crate) proof fn lemma_alike_restores(
    original: Members,
    fields: Seq<FieldChangeView>,
    verb: Seq<char>,
    back: Members,
)
    requires
        is_settings(original),
        are_managed(fields),
        changed_root(original, fields, verb) is Ok,
        alike(
            JsonView::Object(changed_root(original, fields, verb)->Ok_0),
            JsonView::Object(back),
        ),
    ensures
        restored_root(back, original, fields) matches Ok(given) && alike(
            JsonView::Object(original),
            JsonView::Object(given),
        ),
{
    let changed = changed_root(original, fields, verb)->Ok_0;
    lemma_names();
    lemma_change_touches(original, fields, verb);
    lemma_alike_variable(changed, back, "env"@);
    lemma_restoration_touches(back, original, fields);
    let given = with_places_of(back, original, fields)->Ok_0;
    let after = without_empty_env(given, original);
    lemma_alike_objects(changed, back);
    lemma_alike_objects(original, after);
    assert forall|name: Seq<char>|
        (#[trigger] variable(given, name) is Some) == (variable(original, name) is Some) && (
        variable(original, name) is Some ==> alike(
            variable(original, name)->0,
            variable(given, name)->0,
        )) by {
        if has_variable_field(fields, name) {
            if let Some(value) = variable(original, name) {
                lemma_alike_itself(value);
            }
        } else {
            lemma_alike_variable(changed, back, name);
            assert(variable(changed, name) == variable(original, name));
        }
    }
    assert forall|name: Seq<char>| name != "env"@ implies (#[trigger] entry(given, name) is Some)
        == (entry(original, name) is Some) && (entry(original, name) is Some ==> alike(
        entry(original, name)->0,
        entry(given, name)->0,
    )) by {
        if name == "apiKeyHelper"@ && has_helper_field(fields) {
            if let Some(value) = entry(original, name) {
                lemma_alike_itself(value);
            }
        } else {
            assert(entry(original, name) == entry(changed, name));
            assert(entry(back, name) == entry(given, name));
            assert(changed.contains_key(name) == back.contains_key(name));
            if changed.contains_key(name) {
                assert(alike(changed[name], back[name]));
            }
        }
    }
    if original.contains_key("env"@) {
        let env = env_of(given)->0;
        let first = env_of(original)->0;
        lemma_alike_objects(first, env);
        assert forall|name: Seq<char>| #[trigger] first.contains_key(name) == env.contains_key(
            name,
        ) by {
            assert((variable(given, name) is Some) == (variable(original, name) is Some));
        }
        assert forall|name: Seq<char>| first.contains_key(name) implies alike(
            #[trigger] first[name],
            env[name],
        ) by {
            assert((variable(given, name) is Some) == (variable(original, name) is Some));
        }
        assert(alike(original["env"@], given["env"@]));
    } else if given.contains_key("env"@) {
        let env = env_of(given)->0;
        assert forall|name: Seq<char>| !(#[trigger] env.contains_key(name)) by {
            assert((variable(given, name) is Some) == (variable(original, name) is Some));
        }
        assert(env =~= Map::<Seq<char>, JsonView>::empty());
    }
    assert forall|name: Seq<char>| #[trigger] original.contains_key(name) == after.contains_key(
        name,
    ) by {
        if name != "env"@ {
            assert((entry(given, name) is Some) == (entry(original, name) is Some));
        }
    }
    assert forall|name: Seq<char>| original.contains_key(name) implies alike(
        #[trigger] original[name],
        after[name],
    ) by {
        if name != "env"@ {
            assert((entry(given, name) is Some) == (entry(original, name) is Some));
        }
    }
}

} // verus!
