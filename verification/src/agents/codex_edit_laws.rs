//! What an edited Codex configuration says, path by path, and what its restoration leaves.

use vstd::prelude::*;
use crate::agents::codex_config::{
    configured, edited, fingerprint_of, first_pointer, headers_path, is_pending, local_endpoint,
    model_table, provider_path, restored, selection_path, CodexNativeError, CodexNativeRestore,
    CodexSelectionTarget, EditView, FieldView, RestoreView,
};
use crate::text::{
    after_prefix, before_suffix, decimal_text, decimal_text_denotes_its_number, is_decimal,
    parsed_u64, utf8_text,
};
use crate::toml::{node_at, walk, with_node, Found, TomlNode, TomlPage};
use crate::tree::{is_step, kind_at, lemma_entry_kind, lemma_with_node, lemma_with_tables, Kind};

verus! {

proof fn lemma_names()
    ensures
        "name"@ != "base_url"@,
        "name"@ != "wire_api"@,
        "name"@ != "requires_openai_auth"@,
        "name"@ != "supports_websockets"@,
        "name"@ != "http_headers"@,
        "name"@ != "X-HiRoute-Token"@,
        "name"@ != "model"@,
        "name"@ != "model_provider"@,
        "name"@ != "profiles"@,
        "name"@ != "model_providers"@,
        "name"@ != "hiroute"@,
        "base_url"@ != "wire_api"@,
        "base_url"@ != "requires_openai_auth"@,
        "base_url"@ != "supports_websockets"@,
        "base_url"@ != "http_headers"@,
        "base_url"@ != "X-HiRoute-Token"@,
        "base_url"@ != "model"@,
        "base_url"@ != "model_provider"@,
        "base_url"@ != "profiles"@,
        "base_url"@ != "model_providers"@,
        "base_url"@ != "hiroute"@,
        "wire_api"@ != "requires_openai_auth"@,
        "wire_api"@ != "supports_websockets"@,
        "wire_api"@ != "http_headers"@,
        "wire_api"@ != "X-HiRoute-Token"@,
        "wire_api"@ != "model"@,
        "wire_api"@ != "model_provider"@,
        "wire_api"@ != "profiles"@,
        "wire_api"@ != "model_providers"@,
        "wire_api"@ != "hiroute"@,
        "requires_openai_auth"@ != "supports_websockets"@,
        "requires_openai_auth"@ != "http_headers"@,
        "requires_openai_auth"@ != "X-HiRoute-Token"@,
        "requires_openai_auth"@ != "model"@,
        "requires_openai_auth"@ != "model_provider"@,
        "requires_openai_auth"@ != "profiles"@,
        "requires_openai_auth"@ != "model_providers"@,
        "requires_openai_auth"@ != "hiroute"@,
        "supports_websockets"@ != "http_headers"@,
        "supports_websockets"@ != "X-HiRoute-Token"@,
        "supports_websockets"@ != "model"@,
        "supports_websockets"@ != "model_provider"@,
        "supports_websockets"@ != "profiles"@,
        "supports_websockets"@ != "model_providers"@,
        "supports_websockets"@ != "hiroute"@,
        "http_headers"@ != "X-HiRoute-Token"@,
        "http_headers"@ != "model"@,
        "http_headers"@ != "model_provider"@,
        "http_headers"@ != "profiles"@,
        "http_headers"@ != "model_providers"@,
        "http_headers"@ != "hiroute"@,
        "X-HiRoute-Token"@ != "model"@,
        "X-HiRoute-Token"@ != "model_provider"@,
        "X-HiRoute-Token"@ != "profiles"@,
        "X-HiRoute-Token"@ != "model_providers"@,
        "X-HiRoute-Token"@ != "hiroute"@,
        "model"@ != "model_provider"@,
        "model"@ != "profiles"@,
        "model"@ != "model_providers"@,
        "model"@ != "hiroute"@,
        "model_provider"@ != "profiles"@,
        "model_provider"@ != "model_providers"@,
        "model_provider"@ != "hiroute"@,
        "profiles"@ != "model_providers"@,
        "profiles"@ != "hiroute"@,
        "model_providers"@ != "hiroute"@,
{
    reveal_strlit("name");
    reveal_strlit("base_url");
    reveal_strlit("wire_api");
    reveal_strlit("requires_openai_auth");
    reveal_strlit("supports_websockets");
    reveal_strlit("http_headers");
    reveal_strlit("X-HiRoute-Token");
    reveal_strlit("model");
    reveal_strlit("model_provider");
    reveal_strlit("profiles");
    reveal_strlit("model_providers");
    reveal_strlit("hiroute");
    assert("name"@.len() == 4);
    assert("base_url"@.len() == 8);
    assert("wire_api"@.len() == 8);
    assert("requires_openai_auth"@.len() == 20);
    assert("supports_websockets"@.len() == 19);
    assert("http_headers"@.len() == 12);
    assert("X-HiRoute-Token"@.len() == 15);
    assert("model"@.len() == 5);
    assert("model_provider"@.len() == 14);
    assert("profiles"@.len() == 8);
    assert("model_providers"@.len() == 15);
    assert("hiroute"@.len() == 7);
    assert("base_url"@[0] != "wire_api"@[0]);
    assert("base_url"@[0] != "profiles"@[0]);
    assert("wire_api"@[0] != "profiles"@[0]);
    assert("X-HiRoute-Token"@[0] != "model_providers"@[0]);
}

proof fn lemma_set(
    edit: EditView,
    parent: Seq<Seq<char>>,
    key: Seq<char>,
    node: TomlNode,
    at: Seq<Seq<char>>,
)
    requires
        edit.set(parent, key, node) is Some,
        !(node is Entries),
    ensures
        kind_at(edit.set(parent, key, node)->0.entries, at) == (if at == parent.push(key) {
            Kind::Value(node)
        } else {
            kind_at(edit.entries, at)
        }),
{
    lemma_entry_kind(edit.entries, parent, key);
    lemma_with_node(edit.entries, parent, key, node, at);
}

/// What an edit of a configuration leaves at a path.
pub open spec fn said_at(
    entries: Map<Seq<char>, TomlNode>,
    path: Seq<Seq<char>>,
    text: Seq<char>,
) -> bool {
    kind_at(entries, path) == Kind::Value(TomlNode::Str(text))
}

/// The path of a field of the managed provider.
pub open spec fn provider_field(key: Seq<char>) -> Seq<Seq<char>> {
    seq!["model_providers"@, "hiroute"@, key]
}

proof fn lemma_field_paths(selection: Seq<Seq<char>>, target: CodexSelectionTarget)
    requires
        selection_path(target) == Some(selection),
    ensures
        forall|key: Seq<char>| #[trigger] provider_path().push(key) == provider_field(key),
        forall|a: Seq<char>, b: Seq<char>|
            a != b ==> #[trigger] provider_field(a) != #[trigger] provider_field(b),
        forall|key: Seq<char>, own: Seq<char>|
            (own == "model"@ || own == "model_provider"@) ==> #[trigger] selection.push(own)
                != #[trigger] provider_field(key) && selection.push(own) != headers_path().push(key),
        forall|key: Seq<char>, other: Seq<char>| #[trigger]
            provider_field(key) != #[trigger] headers_path().push(other),
        selection.push("model"@) != selection.push("model_provider"@),
        forall|key: Seq<char>|
            key != "http_headers"@ ==> !is_step(#[trigger] provider_field(key), headers_path()),
        forall|key: Seq<char>| !is_step(#[trigger] provider_field(key), provider_path()),
        !is_step(selection.push("model"@), headers_path()),
        !is_step(selection.push("model"@), provider_path()),
        !is_step(selection.push("model_provider"@), headers_path()),
        !is_step(selection.push("model_provider"@), provider_path()),
{
    lemma_names();
    assert forall|key: Seq<char>| #[trigger] provider_path().push(key) == provider_field(key) by {
        assert(provider_path().push(key) =~= provider_field(key));
    }
    assert forall|a: Seq<char>, b: Seq<char>| a != b implies #[trigger] provider_field(a)
        != #[trigger] provider_field(b) by {
        assert(provider_field(a)[2] == a && provider_field(b)[2] == b);
    }
    assert(selection.len() > 0 ==> selection[0] == "profiles"@);
    assert forall|key: Seq<char>, own: Seq<char>|
        own == "model"@ || own == "model_provider"@ implies #[trigger] selection.push(own)
        != #[trigger] provider_field(key) && selection.push(own) != headers_path().push(key) by {
        let path = selection.push(own);
        assert(path[0] == own || path[0] == "profiles"@);
        assert(provider_field(key)[0] == "model_providers"@);
        assert(headers_path().push(key)[0] == "model_providers"@);
    }
    assert forall|key: Seq<char>, other: Seq<char>| #[trigger] provider_field(key)
        != #[trigger] headers_path().push(other) by {
        assert(headers_path().push(other).len() == 4);
    }
    assert(selection.push("model"@).last() == "model"@);
    assert(selection.push("model_provider"@).last() == "model_provider"@);
    assert forall|key: Seq<char>| key != "http_headers"@ implies !is_step(
        #[trigger] provider_field(key),
        headers_path(),
    ) by {
        assert(headers_path().take(3)[2] == "http_headers"@);
        assert(provider_field(key)[2] == key);
    }
    assert forall|own: Seq<char>| own == "model"@ || own == "model_provider"@ implies !is_step(
        #[trigger] selection.push(own),
        headers_path(),
    ) && !is_step(selection.push(own), provider_path()) by {
        let path = selection.push(own);
        let n = path.len() as int;
        assert(path[0] == own || path[0] == "profiles"@);
        if n <= 3 {
            assert(headers_path().take(n)[0] == "model_providers"@);
        }
        if n <= 2 {
            assert(provider_path().take(n)[0] == "model_providers"@);
        }
    }
}

/// After an edit the selected table names the managed provider, and the model that was chosen, or
/// the one that it named before where none was; the provider goes to the endpoint, speaks
/// Responses, keeps the native login, uses no websockets, and sends the local token in its header.
pub proof fn edits_select_the_managed_provider(
    entries: Map<Seq<char>, TomlNode>,
    page: TomlPage,
    target: CodexSelectionTarget,
    endpoint: Seq<char>,
    model: Option<Seq<char>>,
    grant: Seq<u8>,
    owned_provider: bool,
)
    requires
        configured(entries, page, target, endpoint, model, grant, owned_provider) is Ok,
    ensures
        ({
            let after = configured(
                entries,
                page,
                target,
                endpoint,
                model,
                grant,
                owned_provider,
            )->Ok_0.entries;
            let selection = match target {
                CodexSelectionTarget::Root => Seq::empty(),
                CodexSelectionTarget::LegacyProfile(name) => seq!["profiles"@, name@],
            };
            &&& said_at(after, selection.push("model_provider"@), "hiroute"@)
            &&& model matches Some(name) ==> said_at(after, selection.push("model"@), name)
            &&& model is None ==> kind_at(after, selection.push("model"@)) == kind_at(
                entries,
                selection.push("model"@),
            )
            &&& said_at(after, provider_field("name"@), "HiRoute"@)
            &&& said_at(after, provider_field("base_url"@), endpoint)
            &&& said_at(after, provider_field("wire_api"@), "responses"@)
            &&& kind_at(after, provider_field("requires_openai_auth"@)) == Kind::Value(
                TomlNode::Bool(true),
            )
            &&& kind_at(after, provider_field("supports_websockets"@)) == Kind::Value(
                TomlNode::Bool(false),
            )
            &&& utf8_text(grant) matches Some(token) && said_at(
                after,
                seq!["model_providers"@, "hiroute"@, "http_headers"@, "X-HiRoute-Token"@],
                token,
            )
        }),
{
    let selection = selection_path(target)->0;
    let token = utf8_text(grant)->0;
    lemma_names();
    lemma_field_paths(selection, target);
    let path = headers_path().push("X-HiRoute-Token"@);
    assert(path =~= seq!["model_providers"@, "hiroute"@, "http_headers"@, "X-HiRoute-Token"@]);
    lemma_edited(entries, page, selection, endpoint, model, token, selection.push("model"@));
    lemma_edited(
        entries,
        page,
        selection,
        endpoint,
        model,
        token,
        selection.push("model_provider"@),
    );
    lemma_edited(entries, page, selection, endpoint, model, token, provider_field("name"@));
    lemma_edited(entries, page, selection, endpoint, model, token, provider_field("base_url"@));
    lemma_edited(entries, page, selection, endpoint, model, token, provider_field("wire_api"@));
    lemma_edited(
        entries,
        page,
        selection,
        endpoint,
        model,
        token,
        provider_field("requires_openai_auth"@),
    );
    lemma_edited(
        entries,
        page,
        selection,
        endpoint,
        model,
        token,
        provider_field("supports_websockets"@),
    );
    lemma_edited(entries, page, selection, endpoint, model, token, path);
    assert(provider_path().push("name"@) == provider_field("name"@));
    assert(provider_path().push("base_url"@) == provider_field("base_url"@));
    assert(provider_path().push("wire_api"@) == provider_field("wire_api"@));
    assert(provider_path().push("requires_openai_auth"@) == provider_field(
        "requires_openai_auth"@,
    ));
    assert(provider_path().push("supports_websockets"@) == provider_field("supports_websockets"@));
}

/// The last step that touches a path decides it.
proof fn lemma_edited(
    entries: Map<Seq<char>, TomlNode>,
    page: TomlPage,
    selection: Seq<Seq<char>>,
    endpoint: Seq<char>,
    model: Option<Seq<char>>,
    token: Seq<char>,
    at: Seq<Seq<char>>,
)
    requires
        edited(entries, page, selection, endpoint, model, token) is Some,
    ensures
        ({
            let after = edited(entries, page, selection, endpoint, model, token)->0.entries;
            let provider = provider_path();
            kind_at(after, at) == (if at == headers_path().push("X-HiRoute-Token"@) {
                Kind::Value(TomlNode::Str(token))
            } else if is_step(at, headers_path()) {
                Kind::Table
            } else if at == provider.push("supports_websockets"@) {
                Kind::Value(TomlNode::Bool(false))
            } else if at == provider.push("requires_openai_auth"@) {
                Kind::Value(TomlNode::Bool(true))
            } else if at == provider.push("wire_api"@) {
                Kind::Value(TomlNode::Str("responses"@))
            } else if at == provider.push("base_url"@) {
                Kind::Value(TomlNode::Str(endpoint))
            } else if at == provider.push("name"@) {
                Kind::Value(TomlNode::Str("HiRoute"@))
            } else if is_step(at, provider) {
                Kind::Table
            } else if at == selection.push("model_provider"@) {
                Kind::Value(TomlNode::Str("hiroute"@))
            } else if at == selection.push("model"@) && model is Some {
                Kind::Value(TomlNode::Str(model->0))
            } else {
                kind_at(entries, at)
            })
        }),
{
    let provider = provider_path();
    let start = EditView { entries, page, fields: Seq::empty(), created: Seq::empty() };
    let e0 = match model {
        Some(name) => start.set(selection, "model"@, TomlNode::Str(name))->0,
        None => start.observe(selection)->0,
    };
    if let Some(name) = model {
        lemma_set(start, selection, "model"@, TomlNode::Str(name), at);
    }
    let e1 = e0.set(selection, "model_provider"@, TomlNode::Str("hiroute"@))->0;
    lemma_set(e0, selection, "model_provider"@, TomlNode::Str("hiroute"@), at);
    let e2 = e1.tables(provider)->0;
    lemma_with_tables(e1.entries, provider, at);
    let e3 = e2.set(provider, "name"@, TomlNode::Str("HiRoute"@))->0;
    lemma_set(e2, provider, "name"@, TomlNode::Str("HiRoute"@), at);
    let e4 = e3.set(provider, "base_url"@, TomlNode::Str(endpoint))->0;
    lemma_set(e3, provider, "base_url"@, TomlNode::Str(endpoint), at);
    let e5 = e4.set(provider, "wire_api"@, TomlNode::Str("responses"@))->0;
    lemma_set(e4, provider, "wire_api"@, TomlNode::Str("responses"@), at);
    let e6 = e5.set(provider, "requires_openai_auth"@, TomlNode::Bool(true))->0;
    lemma_set(e5, provider, "requires_openai_auth"@, TomlNode::Bool(true), at);
    let e7 = e6.set(provider, "supports_websockets"@, TomlNode::Bool(false))->0;
    lemma_set(e6, provider, "supports_websockets"@, TomlNode::Bool(false), at);
    let e8 = e7.tables(headers_path())->0;
    lemma_with_tables(e7.entries, headers_path(), at);
    lemma_set(e8, headers_path(), "X-HiRoute-Token"@, TomlNode::Str(token), at);
}

/// A provider of the user's own under the managed name is never edited: the edit is refused unless
/// an earlier edit made that provider.
pub proof fn foreign_providers_are_not_edited(
    entries: Map<Seq<char>, TomlNode>,
    page: TomlPage,
    target: CodexSelectionTarget,
    endpoint: Seq<char>,
    model: Option<Seq<char>>,
    grant: Seq<u8>,
)
    requires
        !(kind_at(entries, seq!["model_providers"@, "hiroute"@]) is Absent),
    ensures
        configured(entries, page, target, endpoint, model, grant, false) is Err,
{
    let path = seq!["model_providers"@, "hiroute"@];
    assert(path[0] == "model_providers"@);
    assert(path.skip(1) =~= seq!["hiroute"@]);
    assert(path.skip(1)[0] == "hiroute"@);
    if entries.contains_key("model_providers"@) && entries["model_providers"@] is Entries {
        let inner = entries["model_providers"@]->Entries_0;
        assert(kind_at(entries, path) == kind_at(inner, path.skip(1)));
        if !inner.contains_key("hiroute"@) {
            assert(kind_at(inner, path.skip(1)) is Absent);
        }
    }
}

/// The local gateway is at a port of the loopback, by either family, under the first version: every
/// port but zero, and nothing else.
pub proof fn endpoints_are_ports_of_the_loopback(text: &str, port: nat, r: bool)
    requires
        call_ensures(local_endpoint, (text,), r),
    ensures
        text@ == "http://127.0.0.1:"@ + decimal_text(port) + "/v1"@ || text@ == "http://[::1]:"@
            + decimal_text(port) + "/v1"@ ==> (r <==> 0 < port <= 65535),
        r ==> (after_prefix(text@, "http://127.0.0.1:"@) is Some || after_prefix(
            text@,
            "http://[::1]:"@,
        ) is Some) && before_suffix(text@, "/v1"@) is Some,
{
    decimal_text_denotes_its_number(port);
    let digits = decimal_text(port);
    reveal_strlit("http://127.0.0.1:");
    reveal_strlit("http://[::1]:");
    reveal_strlit("/v1");
    let a = "http://127.0.0.1:"@;
    let b = "http://[::1]:"@;
    let end = "/v1"@;
    let s = text@;
    if s == a + digits + end {
        assert(s.take(a.len() as int) =~= a);
        let rest = s.skip(a.len() as int);
        assert(rest =~= digits + end);
        assert(rest.skip(rest.len() - end.len()) =~= end);
        assert(rest.take(rest.len() - end.len()) =~= digits);
    } else if s == b + digits + end {
        assert(s[7] == '[');
        assert(a[7] == '1');
        if s.len() >= a.len() {
            assert(s.take(a.len() as int)[7] == '[');
        }
        assert(s.take(b.len() as int) =~= b);
        let rest = s.skip(b.len() as int);
        assert(rest =~= digits + end);
        assert(rest.skip(rest.len() - end.len()) =~= end);
        assert(rest.take(rest.len() - end.len()) =~= digits);
    }
    if r {
        let head = if after_prefix(s, a) is Some {
            a
        } else {
            b
        };
        let rest = s.skip(head.len() as int);
        assert(s.skip(s.len() - end.len()) =~= rest.skip(rest.len() - end.len()));
    }
    if port > u64::MAX {
        lemma_parsed_bound(digits);
    }
}

proof fn lemma_parsed_bound(digits: Seq<char>)
    ensures
        is_decimal(digits) ==> (parsed_u64(digits) matches Some(value) ==> value
            == crate::text::decimal_value(digits)),
{
    if is_decimal(digits) {
        assert(digits.len() > 0);
        assert(crate::text::is_digit(digits[0]));
    }
}

/// A field that was set is given back exactly while it reads as the edit left it and not as before;
/// otherwise it is left, or the restoration is refused.
pub proof fn fields_are_given_back_while_they_stand(
    entries: Map<Seq<char>, TomlNode>,
    field: FieldView,
    aliases: Seq<Seq<char>>,
    node: TomlNode,
    before: TomlNode,
)
    requires
        !field.passive,
        node_at(entries, field.path) == Some(node),
        field.before == Some(before),
        fingerprint_of(node) is Some && fingerprint_of(before) is Some,
    ensures
        fingerprint_of(node) == fingerprint_of(before) ==> is_pending(entries, field, aliases)
            == Ok::<bool, CodexNativeError>(false),
        fingerprint_of(node) != fingerprint_of(before) && fingerprint_of(node) == Some(field.after)
            ==> is_pending(entries, field, aliases) == Ok::<bool, CodexNativeError>(true),
        fingerprint_of(node) != fingerprint_of(before) && fingerprint_of(node) != Some(field.after)
            ==> is_pending(entries, field, aliases) == Err::<bool, _>(
            CodexNativeError::FieldConflict,
        ),
{
}

/// A field that the edit added and that is gone needs nothing; one that still reads as the edit left
/// it is taken out again.
pub proof fn added_fields_are_taken_out(
    entries: Map<Seq<char>, TomlNode>,
    field: FieldView,
    aliases: Seq<Seq<char>>,
)
    requires
        !field.passive,
        field.before is None,
        !(walk(entries, field.path.drop_last()) is Blocked),
    ensures
        node_at(entries, field.path) is None ==> is_pending(entries, field, aliases) == Ok::<
            bool,
            CodexNativeError,
        >(false),
        node_at(entries, field.path) matches Some(node) ==> (is_pending(entries, field, aliases)
            == Ok::<bool, CodexNativeError>(true) <==> fingerprint_of(node) == Some(field.after)),
{
}

/// A model that was only observed is given back only where it now names a managed alias: a choice
/// of the user's own is kept.
pub proof fn chosen_models_are_kept(
    entries: Map<Seq<char>, TomlNode>,
    field: FieldView,
    aliases: Seq<Seq<char>>,
    model: Seq<char>,
)
    requires
        field.passive,
        !(walk(entries, field.path.drop_last()) is Blocked),
    ensures
        node_at(entries, field.path) == Some(TomlNode::Str(model)) && !aliases.contains(model)
            ==> is_pending(entries, field, aliases) == Ok::<bool, CodexNativeError>(false),
        node_at(entries, field.path) == Some(TomlNode::Str(model)) && aliases.contains(model)
            && field.before is None ==> is_pending(entries, field, aliases) == Ok::<
            bool,
            CodexNativeError,
        >(true),
        !(node_at(entries, field.path) matches Some(TomlNode::Str(_))) ==> is_pending(
            entries,
            field,
            aliases,
        ) == Ok::<bool, CodexNativeError>(false),
{
}

/// A restoration that also chooses a native model leaves that model selected in the table that the
/// edit selected its own in.
pub proof fn chosen_native_models_are_selected(
    entries: Map<Seq<char>, TomlNode>,
    restore: RestoreView,
    model: Seq<char>,
    at: int,
)
    requires
        restored(entries, restore, Some(model)) is Ok,
        0 <= at < restore.fields.len(),
        restore.fields[at].path.len() > 0,
        restore.fields[at].path.last() == "model"@,
        forall|i: int| 0 <= i < at ==> (#[trigger] restore.fields[i]).path.last() != "model"@,
    ensures
        node_at(
            restored(entries, restore, Some(model))->Ok_0,
            restore.fields[at].path.drop_last().push("model"@),
        ) == Some(TomlNode::Str(model)),
        restored(entries, restore, None) is Ok,
{
    lemma_model_table(restore.fields, at);
    let table = restore.fields[at].path.drop_last();
    let clean = restored(entries, restore, None)->Ok_0;
    lemma_put_reads(clean, table, "model"@, TomlNode::Str(model));
}

proof fn lemma_put_reads(
    entries: Map<Seq<char>, TomlNode>,
    path: Seq<Seq<char>>,
    key: Seq<char>,
    node: TomlNode,
)
    requires
        walk(entries, path) is Entries,
    ensures
        node_at(with_node(entries, path, key, node), path.push(key)) == Some(node),
        walk(with_node(entries, path, key, node), path) matches Found::Entries(inner)
            && inner.contains_key(key) && inner[key] == node,
    decreases path.len(),
{
    assert(path.push(key).drop_last() =~= path);
    if path.len() > 0 {
        lemma_put_reads(entries[path[0]]->Entries_0, path.skip(1), key, node);
    }
}

proof fn lemma_model_table(fields: Seq<FieldView>, at: int)
    requires
        0 <= at < fields.len(),
        fields[at].path.last() == "model"@,
        forall|i: int| 0 <= i < at ==> (#[trigger] fields[i]).path.last() != "model"@,
    ensures
        model_table(fields) == Some(fields[at].path.drop_last()),
    decreases fields.len(),
{
    if at > 0 {
        assert(fields[0].path.last() != "model"@);
        let rest = fields.skip(1);
        assert(rest[at - 1] == fields[at]);
        assert forall|i: int| 0 <= i < at - 1 implies (#[trigger] rest[i]).path.last()
            != "model"@ by {
            assert(rest[i] == fields[i + 1]);
        }
        lemma_model_table(rest, at - 1);
    }
}

/// The pointer that an edit replaced is what its first pointer field was before.
pub proof fn replaced_pointers_are_remembered(fields: Seq<FieldView>, at: int)
    ensures
        0 <= at < fields.len() && fields[at].path.last() == "model_catalog_json"@ && (forall|i: int|
            0 <= i < at ==> (#[trigger] fields[i]).path.last() != "model_catalog_json"@) ==> {
            &&& fields[at].before matches Some(TomlNode::Str(text)) ==> first_pointer(fields)
                == Some(Some(text))
            &&& fields[at].before is None ==> first_pointer(fields) == Some(None::<Seq<char>>)
        },
        (forall|i: int|
            0 <= i < fields.len() ==> (#[trigger] fields[i]).path.last() != "model_catalog_json"@)
            ==> first_pointer(fields) is None,
    decreases fields.len(),
{
    if fields.len() > 0 {
        let rest = fields.skip(1);
        replaced_pointers_are_remembered(rest, at - 1);
        assert forall|i: int| 0 < i < fields.len() implies rest[i - 1] == #[trigger] fields[i] by {}
        if 0 < at < fields.len() && fields[at].path.last() == "model_catalog_json"@ && (forall|
            i: int,
        |
            0 <= i < at ==> (#[trigger] fields[i]).path.last() != "model_catalog_json"@) {
            assert(fields[0].path.last() != "model_catalog_json"@);
            assert forall|i: int| 0 <= i < at - 1 implies (#[trigger] rest[i]).path.last()
                != "model_catalog_json"@ by {
                assert(rest[i] == fields[i + 1]);
            }
        }
        if forall|i: int|
            0 <= i < fields.len() ==> (#[trigger] fields[i]).path.last()
                != "model_catalog_json"@ {
            assert(fields[0].path.last() != "model_catalog_json"@);
            assert forall|i: int| 0 <= i < rest.len() implies (#[trigger] rest[i]).path.last()
                != "model_catalog_json"@ by {
                assert(rest[i] == fields[i + 1]);
            }
        }
    }
}

/// A provider is an edit's own only where the edit added each of its five settings.
pub proof fn own_providers_were_added_whole(restore: RestoreView, provider: Seq<char>, key: Seq<char>)
    requires
        restore.owns(provider),
        key == "name"@ || key == "base_url"@ || key == "wire_api"@ || key
            == "requires_openai_auth"@ || key == "supports_websockets"@,
    ensures
        exists|i: int|
            0 <= i < restore.fields.len() && (#[trigger] restore.fields[i]).path == seq![
                "model_providers"@,
                provider,
                key,
            ] && restore.fields[i].before is None,
{
    assert(restore.made_provider_field(provider, key));
}

/// An edit stands exactly while each field that it set reads as it left it; a model that it only
/// observed does not matter.
pub proof fn edits_stand_while_their_fields_do(
    restore: RestoreView,
    entries: Map<Seq<char>, TomlNode>,
    at: int,
)
    requires
        0 <= at < restore.fields.len(),
        !restore.fields[at].passive,
    ensures
        restore.is_applied(entries) ==> (node_at(entries, restore.fields[at].path) matches Some(
            node,
        ) && fingerprint_of(node) == Some(restore.fields[at].after)),
        restore.fields.len() == 1 && (node_at(entries, restore.fields[at].path) matches Some(node)
            && fingerprint_of(node) == Some(restore.fields[at].after)) ==> restore.is_applied(
            entries,
        ),
{
    if restore.is_applied(entries) {
        assert(RestoreView::field_applied(entries, restore.fields[at]));
    }
}

/// What is recorded is read back: each field's place, what it was and the fingerprint of what it
/// became, the tables that were made, and the managed aliases.
pub proof fn recorded_edits_are_read_back(
    restore: &CodexNativeRestore,
    record: Result<Vec<u8>, CodexNativeError>,
    bytes: &[u8],
    r: Result<CodexNativeRestore, CodexNativeError>,
    at: int,
)
    requires
        restore@.wf(),
        call_ensures(CodexNativeRestore::encode_protected, (restore,), record),
        record matches Ok(own) && own@ == bytes@,
        call_ensures(CodexNativeRestore::decode_protected, (bytes,), r),
    ensures
        r matches Ok(read) && {
            &&& read@.fields.len() == restore@.fields.len()
            &&& read@.created == restore@.created
            &&& read@.aliases == restore@.aliases
            &&& 0 <= at < restore@.fields.len() ==> read@.fields[at].path
                == restore@.fields[at].path && read@.fields[at].before == restore@.fields[at].before
                && read@.fields[at].after == restore@.fields[at].after && read@.fields[at].passive
                == restore@.fields[at].passive
        },
{
    if let Ok(read) = r {
        if 0 <= at < restore@.fields.len() {
            assert(read@.fields[at].is_record_of(restore@.fields[at]));
        }
    }
}

/// A record that is read speaks only of what an edit sets: the selection at the root or in a
/// profile, the settings of the managed provider, and its token.
pub proof fn records_speak_of_managed_places_only(
    bytes: &[u8],
    r: Result<CodexNativeRestore, CodexNativeError>,
    at: int,
)
    requires
        call_ensures(CodexNativeRestore::decode_protected, (bytes,), r),
        r is Ok,
        0 <= at < r->Ok_0@.fields.len(),
    ensures
        ({
            let path = r->Ok_0@.fields[at].path;
            let key = path.last();
            let selects = key == "model"@ || key == "model_provider"@ || key
                == "model_catalog_json"@;
            ||| path.len() == 1 && selects
            ||| path.len() == 3 && path[0] == "profiles"@ && selects
            ||| path.len() == 3 && path[0] == "model_providers"@ && path[1] == "hiroute"@ && (key
                == "name"@ || key == "base_url"@ || key == "wire_api"@ || key
                == "requires_openai_auth"@ || key == "supports_websockets"@)
            ||| path.len() == 4 && path[0] == "model_providers"@ && path[1] == "hiroute"@ && path[2]
                == "http_headers"@ && key == "X-HiRoute-Token"@
        }),
{
    assert(r->Ok_0@.fields[at].is_managed());
}

} // verus!
