//! What an edited or restored Codex configuration says, and how it is written, go together.

use vstd::prelude::*;
use crate::agents::codex_config::{
    all_given_back, cleaned, configured, edited, headers_path, is_pending, mark_of, model_table,
    page_all_given_back, page_cleaned, page_given_back, pending, provider_path,
    read_entries, restored, restored_page, selection_path, CodexNativeError, CodexSelectionTarget,
    EditView, FieldView, Mark, RestoreView,
};
use crate::agents::codex_laws::{
    edits_record_what_they_change, fields_are_apart, fingerprints_tell, has_field, is_recorded,
    kind_before, lemma_edit_pending, record_of, restoration_undoes_an_edit,
};
use crate::sheets::{
    body_kept, body_wf, kept, lemma_body_in, lemma_inner_table, lemma_kept_at, lemma_kept_back,
    lemma_kept_for, lemma_kept_put, lemma_kept_same, lemma_kept_self, lemma_kept_tables,
    lemma_kept_take, lemma_put_in, lemma_said, lemma_tables_in, lemma_taken_from, sheet_wf,
};
use crate::text::utf8_text;
use crate::toml::{
    body_at, body_in, entries_of, node_of, parsed_entries, parsed_page, plain_body, printed, walk,
    Found, TomlBody, TomlNode, TomlPage, TomlSheet,
};
use crate::tree::kind_at;

verus! {

/// Whether a page is in order and says what the entries are.
pub open spec fn says(page: TomlPage, entries: Map<Seq<char>, TomlNode>) -> bool {
    sheet_wf(page.root) && entries_of(page.root.lines) == entries
}

/// Whether what a field was and how it was written go together.
pub open spec fn field_says(field: FieldView) -> bool {
    match field.body {
        Some(body) => field.before == Some(node_of(body)) && body_wf(body) && !(body is Nothing),
        None => field.before is None,
    }
}

pub open spec fn fields_say(fields: Seq<FieldView>) -> bool {
    forall|i: int| 0 <= i < fields.len() ==> field_says(#[trigger] fields[i])
}

/// Whether an edit's page says its entries, and its record goes with both.
pub open spec fn edit_says(edit: EditView) -> bool {
    says(edit.page, edit.entries) && fields_say(edit.fields)
}

proof fn lemma_field_added(fields: Seq<FieldView>, field: FieldView)
    requires
        fields_say(fields),
        field_says(field),
    ensures
        fields_say(fields.push(field)),
{
    assert forall|i: int| 0 <= i < fields.push(field).len() implies field_says(
        #[trigger] fields.push(field)[i],
    ) by {
        if i < fields.len() {
            assert(fields.push(field)[i] == fields[i]);
        }
    }
}

proof fn lemma_set_says(edit: EditView, parent: Seq<Seq<char>>, key: Seq<char>, node: TomlNode)
    requires
        edit_says(edit),
        node is Str || node is Bool,
        edit.set(parent, key, node) is Some,
    ensures
        edit_says(edit.set(parent, key, node)->0),
{
    lemma_put_in(edit.page.root, parent, key, plain_body(node));
    lemma_body_in(edit.page.root, parent, key);
    lemma_field_added(edit.fields, edit.set(parent, key, node)->0.fields.last());
}

proof fn lemma_tables_say(edit: EditView, path: Seq<Seq<char>>)
    requires
        edit_says(edit),
        edit.tables(path) is Some,
    ensures
        edit_says(edit.tables(path)->0),
{
    lemma_tables_in(edit.page.root, path);
}

proof fn lemma_observed_says(edit: EditView, parent: Seq<Seq<char>>)
    requires
        edit_says(edit),
        edit.observe(parent) is Some,
    ensures
        edit_says(edit.observe(parent)->0),
{
    lemma_body_in(edit.page.root, parent, "model"@);
    lemma_field_added(edit.fields, edit.observe(parent)->0.fields.last());
}

/// An edited document says, line by line, what the edit makes of what it said.
pub proof fn edits_are_written_as_they_say(
    entries: Map<Seq<char>, TomlNode>,
    page: TomlPage,
    target: CodexSelectionTarget,
    endpoint: Seq<char>,
    model: Option<Seq<char>>,
    grant: Seq<u8>,
    owned_provider: bool,
)
    requires
        says(page, entries),
        configured(entries, page, target, endpoint, model, grant, owned_provider) is Ok,
    ensures
        edit_says(
            configured(entries, page, target, endpoint, model, grant, owned_provider)->Ok_0,
        ),
{
    let selection = selection_path(target)->0;
    let token = utf8_text(grant)->0;
    let start = EditView { entries, page, fields: Seq::empty(), created: Seq::empty() };
    assert(edit_says(start));
    let first = match model {
        Some(name) => start.set(selection, "model"@, TomlNode::Str(name)),
        None => start.observe(selection),
    }->0;
    match model {
        Some(name) => lemma_set_says(start, selection, "model"@, TomlNode::Str(name)),
        None => lemma_observed_says(start, selection),
    }
    let provider = provider_path();
    lemma_set_says(first, selection, "model_provider"@, TomlNode::Str("hiroute"@));
    let e = first.set(selection, "model_provider"@, TomlNode::Str("hiroute"@))->0;
    lemma_tables_say(e, provider);
    let e = e.tables(provider)->0;
    lemma_set_says(e, provider, "name"@, TomlNode::Str("HiRoute"@));
    let e = e.set(provider, "name"@, TomlNode::Str("HiRoute"@))->0;
    lemma_set_says(e, provider, "base_url"@, TomlNode::Str(endpoint));
    let e = e.set(provider, "base_url"@, TomlNode::Str(endpoint))->0;
    lemma_set_says(e, provider, "wire_api"@, TomlNode::Str("responses"@));
    let e = e.set(provider, "wire_api"@, TomlNode::Str("responses"@))->0;
    lemma_set_says(e, provider, "requires_openai_auth"@, TomlNode::Bool(true));
    let e = e.set(provider, "requires_openai_auth"@, TomlNode::Bool(true))->0;
    lemma_set_says(e, provider, "supports_websockets"@, TomlNode::Bool(false));
    let e = e.set(provider, "supports_websockets"@, TomlNode::Bool(false))->0;
    lemma_tables_say(e, headers_path());
    let e = e.tables(headers_path())->0;
    lemma_set_says(e, headers_path(), "X-HiRoute-Token"@, TomlNode::Str(token));
}

proof fn lemma_pending_say(
    entries: Map<Seq<char>, TomlNode>,
    fields: Seq<FieldView>,
    aliases: Seq<Seq<char>>,
)
    requires
        fields_say(fields),
        pending(entries, fields, aliases) is Ok,
    ensures
        fields_say(pending(entries, fields, aliases)->Ok_0),
    decreases fields.len(),
{
    if fields.len() > 0 {
        let init = fields.drop_last();
        assert forall|i: int| 0 <= i < init.len() implies field_says(#[trigger] init[i]) by {
            assert(init[i] == fields[i]);
        }
        lemma_pending_say(entries, init, aliases);
        assert(field_says(fields[fields.len() - 1]));
        lemma_field_added(pending(entries, init, aliases)->Ok_0, fields.last());
    }
}

proof fn lemma_given_back_says(
    entries: Map<Seq<char>, TomlNode>,
    page: TomlPage,
    fields: Seq<FieldView>,
)
    requires
        says(page, entries),
        fields_say(fields),
        all_given_back(entries, fields) is Ok,
    ensures
        says(page_all_given_back(page, fields), all_given_back(entries, fields)->Ok_0),
    decreases fields.len(),
{
    if fields.len() > 0 {
        let init = fields.drop_last();
        let field = fields.last();
        assert forall|i: int| 0 <= i < init.len() implies field_says(#[trigger] init[i]) by {
            assert(init[i] == fields[i]);
        }
        assert(field_says(fields[fields.len() - 1]));
        lemma_given_back_says(entries, page, init);
        let middle = page_all_given_back(page, init);
        let parent = field.path.drop_last();
        let key = field.path.last();
        match field.body {
            Some(body) => lemma_put_in(middle.root, parent, key, body),
            None => lemma_taken_from(middle.root, parent, key),
        }
    }
}

proof fn lemma_cleaned_says(
    entries: Map<Seq<char>, TomlNode>,
    page: TomlPage,
    created: Seq<Seq<Seq<char>>>,
)
    requires
        says(page, entries),
        cleaned(entries, created) is Ok,
        forall|i: int| 0 <= i < created.len() ==> (#[trigger] created[i]).len() > 0,
    ensures
        says(page_cleaned(entries, page, created), cleaned(entries, created)->Ok_0),
    decreases created.len(),
{
    if created.len() > 0 {
        let rest = created.drop_last();
        let path = created.last();
        assert forall|i: int| 0 <= i < rest.len() implies (#[trigger] rest[i]).len() > 0 by {
            assert(rest[i] == created[i]);
        }
        assert(created[created.len() - 1].len() > 0);
        match walk(entries, path) {
            Found::Entries(inner) => if inner == crate::toml::no_entries() {
                crate::tree::lemma_walk_parent(entries, path);
                lemma_taken_from(page.root, path.drop_last(), path.last());
                lemma_cleaned_says(
                    crate::toml::without_node(entries, path.drop_last(), path.last()),
                    TomlPage {
                        root: crate::toml::taken_from(page.root, path.drop_last(), path.last()),
                        ..page
                    },
                    rest,
                );
            } else {
                lemma_cleaned_says(entries, page, rest);
            },
            _ => lemma_cleaned_says(entries, page, rest),
        }
    }
}

/// A restored document says, line by line, what the restoration makes of what it said.
pub proof fn restorations_are_written_as_they_say(
    entries: Map<Seq<char>, TomlNode>,
    page: TomlPage,
    restore: RestoreView,
    native_model: Option<Seq<char>>,
)
    requires
        says(page, entries),
        restore.wf(),
        fields_say(restore.fields),
        restored(entries, restore, native_model) is Ok,
    ensures
        says(
            restored_page(entries, page, restore, native_model),
            restored(entries, restore, native_model)->Ok_0,
        ),
{
    let fields = pending(entries, restore.fields, restore.aliases)->Ok_0;
    lemma_pending_say(entries, restore.fields, restore.aliases);
    lemma_given_back_says(entries, page, fields);
    let given = all_given_back(entries, fields)->Ok_0;
    let page = page_all_given_back(page, fields);
    lemma_cleaned_says(given, page, restore.created);
    if let Some(model) = native_model {
        lemma_put_in(
            page_cleaned(given, page, restore.created).root,
            model_table(restore.fields)->0,
            "model"@,
            plain_body(TomlNode::Str(model)),
        );
    }
}

/// The paths of the values that an edit replaced.
pub open spec fn replaced(fields: Seq<FieldView>) -> Set<Seq<Seq<char>>> {
    Set::new(
        |path: Seq<Seq<char>>|
            exists|i: int|
                0 <= i < fields.len() && (#[trigger] fields[i]).path == path && fields[i].body
                    is Some && !fields[i].passive,
    )
}

/// Whether a field was written so in a document.
pub open spec fn field_from(page: TomlPage, field: FieldView) -> bool {
    body_in(page.root, field.path.drop_last(), field.path.last()) == field.body
}

/// Whether an edit in progress keeps every line of a document but for the values that it replaced,
/// and records these as they were written.
spec fn keeps(page: TomlPage, edit: EditView) -> bool {
    &&& edit_says(edit)
    &&& kept(page.root, edit.page.root, Seq::empty(), replaced(edit.fields))
    &&& edit.page.tail == page.tail
    &&& forall|i: int| 0 <= i < edit.fields.len() ==> field_from(page, #[trigger] edit.fields[i])
}

/// Whether the fields of one edit are the first ones of another.
spec fn comes_before(edit: EditView, last: EditView) -> bool {
    edit.fields.len() <= last.fields.len() && forall|i: int|
        0 <= i < edit.fields.len() ==> #[trigger] edit.fields[i] == last.fields[i]
}

/// What a record says of the document before an edit.
spec fn records(entries: Map<Seq<char>, TomlNode>, last: EditView) -> bool {
    &&& fields_are_apart(last.fields)
    &&& forall|i: int|
        0 <= i < last.fields.len() ==> kind_at(entries, (#[trigger] last.fields[i]).path)
            == kind_before(last.fields[i])
}

/// What is at a path, and how it is written there, go together.
proof fn lemma_kind_body(sheet: TomlSheet, path: Seq<Seq<char>>, key: Seq<char>)
    requires
        sheet_wf(sheet),
    ensures
        kind_at(entries_of(sheet.lines), path.push(key)) is Absent ==> body_in(sheet, path, key)
            is None,
        kind_at(entries_of(sheet.lines), path.push(key)) is Value ==> body_in(sheet, path, key)
            is Some,
    decreases path.len(),
{
    let entries = entries_of(sheet.lines);
    let whole = path.push(key);
    if path.len() == 0 {
        lemma_said(sheet, key);
        assert(whole =~= seq![key]);
        crate::tree::lemma_kind_of_key(entries, key);
    } else {
        assert(whole[0] == path[0]);
        assert(whole.skip(1) =~= path.skip(1).push(key));
        lemma_said(sheet, path[0]);
        if entries.contains_key(path[0]) && entries[path[0]] is Entries {
            lemma_inner_table(sheet, path[0]);
            lemma_kind_body(body_at(sheet, path[0])->0->Table_0, path.skip(1), key);
        } else if let Some(body) = body_at(sheet, path[0]) {
            assert(node_of(body) == entries[path[0]]);
            assert(!(body is Table));
        }
    }
}

/// What a kept document has at a path where the original has something.
proof fn lemma_kept_in(
    before: TomlSheet,
    after: TomlSheet,
    path: Seq<Seq<char>>,
    touched: Set<Seq<Seq<char>>>,
    inner: Seq<Seq<char>>,
    key: Seq<char>,
)
    requires
        kept(before, after, path, touched),
        sheet_wf(before),
        sheet_wf(after),
    ensures
        body_in(before, inner, key) matches Some(first) ==> (body_in(after, inner, key) matches Some(
            body,
        ) && body_kept(first, body, path + inner.push(key), touched)),
    decreases inner.len(),
{
    if inner.len() == 0 {
        assert(path + inner.push(key) =~= path.push(key));
        lemma_kept_at(before, after, path, touched, key);
    } else {
        lemma_kept_at(before, after, path, touched, inner[0]);
        if let Some(TomlBody::Table(first)) = body_at(before, inner[0]) {
            let step = path.push(inner[0]);
            lemma_said(before, inner[0]);
            lemma_said(after, inner[0]);
            assert(step + inner.skip(1).push(key) =~= path + inner.push(key));
            lemma_kept_in(
                first,
                body_at(after, inner[0])->0->Table_0,
                step,
                touched,
                inner.skip(1),
                key,
            );
        }
    }
}

/// A field that is recorded next is recorded as the original document has it.
proof fn lemma_next_field(
    page: TomlPage,
    edit: EditView,
    field: FieldView,
    last: EditView,
    parent: Seq<Seq<char>>,
    key: Seq<char>,
)
    requires
        keeps(page, edit),
        sheet_wf(page.root),
        walk(edit.entries, parent) is Entries,
        field.path == parent.push(key),
        field.body == body_in(edit.page.root, parent, key),
        field_says(field),
        records(entries_of(page.root.lines), last),
        edit.fields.len() < last.fields.len(),
        last.fields[edit.fields.len() as int] == field,
        forall|i: int| 0 <= i < edit.fields.len() ==> #[trigger] edit.fields[i] == last.fields[i],
    ensures
        field_from(page, field),
        field.body matches Some(body) ==> body is Value,
        forall|i: int|
            0 <= i < edit.fields.len() + 1 ==> field_from(
                page,
                #[trigger] edit.fields.push(field)[i],
            ),
{
    let path = parent.push(key);
    assert(path.drop_last() =~= parent);
    assert(Seq::<Seq<char>>::empty() + path =~= path);
    lemma_kind_body(page.root, parent, key);
    let entries = entries_of(page.root.lines);
    assert(kind_at(entries, last.fields[edit.fields.len() as int].path) == kind_before(field));
    assert(!replaced(edit.fields).contains(path)) by {
        if replaced(edit.fields).contains(path) {
            let i = choose|i: int|
                0 <= i < edit.fields.len() && (#[trigger] edit.fields[i]).path == path
                    && edit.fields[i].body is Some && !edit.fields[i].passive;
            assert(last.fields[i].path != last.fields[edit.fields.len() as int].path);
        }
    }
    assert(field.before is None || field.before->0 is Str);
    lemma_kept_in(
        page.root,
        edit.page.root,
        Seq::empty(),
        replaced(edit.fields),
        parent,
        key,
    );
    assert forall|i: int| 0 <= i < edit.fields.len() + 1 implies field_from(
        page,
        #[trigger] edit.fields.push(field)[i],
    ) by {
        if i < edit.fields.len() {
            assert(edit.fields.push(field)[i] == edit.fields[i]);
        }
    }
}

/// Fewer replaced values are among more.
proof fn lemma_replaced_grows(page: TomlPage, edit: EditView, field: FieldView)
    requires
        kept(page.root, edit.page.root, Seq::empty(), replaced(edit.fields)),
    ensures
        kept(page.root, edit.page.root, Seq::empty(), replaced(edit.fields.push(field))),
        field.body is Some && !field.passive ==> replaced(edit.fields.push(field)).contains(
            field.path,
        ),
{
    let more = edit.fields.push(field);
    assert forall|p: Seq<Seq<char>>| #[trigger] replaced(edit.fields).contains(p) implies replaced(
        more,
    ).contains(p) by {
        let i = choose|i: int|
            0 <= i < edit.fields.len() && (#[trigger] edit.fields[i]).path == p
                && edit.fields[i].body is Some && !edit.fields[i].passive;
        assert(more[i] == edit.fields[i]);
    }
    lemma_kept_for(
        page.root,
        edit.page.root,
        Seq::empty(),
        replaced(edit.fields),
        replaced(more),
    );
    assert(more[edit.fields.len() as int] == field);
}

proof fn lemma_set_keeps(
    page: TomlPage,
    edit: EditView,
    parent: Seq<Seq<char>>,
    key: Seq<char>,
    node: TomlNode,
    last: EditView,
)
    requires
        keeps(page, edit),
        sheet_wf(page.root),
        node is Str || node is Bool,
        edit.set(parent, key, node) is Some,
        records(entries_of(page.root.lines), last),
        comes_before(edit.set(parent, key, node)->0, last),
    ensures
        keeps(page, edit.set(parent, key, node)->0),
        comes_before(edit, last),
{
    let done = edit.set(parent, key, node)->0;
    let field = done.fields.last();
    lemma_set_says(edit, parent, key, node);
    lemma_body_in(edit.page.root, parent, key);
    assert(done.fields[edit.fields.len() as int] == field);
    assert forall|i: int| 0 <= i < edit.fields.len() implies #[trigger] edit.fields[i]
        == last.fields[i] by {
        assert(done.fields[i] == edit.fields[i]);
    }
    lemma_next_field(page, edit, field, last, parent, key);
    lemma_replaced_grows(page, edit, field);
    assert(Seq::<Seq<char>>::empty() + parent.push(key) =~= parent.push(key));
    lemma_kept_put(
        page.root,
        edit.page.root,
        Seq::empty(),
        replaced(done.fields),
        parent,
        key,
        plain_body(node),
    );
}

proof fn lemma_observed_keeps(
    page: TomlPage,
    edit: EditView,
    parent: Seq<Seq<char>>,
    last: EditView,
)
    requires
        keeps(page, edit),
        sheet_wf(page.root),
        edit.observe(parent) is Some,
        records(entries_of(page.root.lines), last),
        comes_before(edit.observe(parent)->0, last),
    ensures
        keeps(page, edit.observe(parent)->0),
        comes_before(edit, last),
{
    let done = edit.observe(parent)->0;
    let field = done.fields.last();
    lemma_observed_says(edit, parent);
    lemma_body_in(edit.page.root, parent, "model"@);
    assert(done.fields[edit.fields.len() as int] == field);
    assert forall|i: int| 0 <= i < edit.fields.len() implies #[trigger] edit.fields[i]
        == last.fields[i] by {
        assert(done.fields[i] == edit.fields[i]);
    }
    lemma_next_field(page, edit, field, last, parent, "model"@);
    lemma_replaced_grows(page, edit, field);
}

proof fn lemma_tables_keep(page: TomlPage, edit: EditView, path: Seq<Seq<char>>)
    requires
        keeps(page, edit),
        sheet_wf(page.root),
        edit.tables(path) is Some,
    ensures
        keeps(page, edit.tables(path)->0),
{
    lemma_tables_say(edit, path);
    lemma_kept_tables(
        page.root,
        edit.page.root,
        Seq::empty(),
        replaced(edit.fields),
        path,
    );
}

proof fn lemma_set_before(
    edit: EditView,
    parent: Seq<Seq<char>>,
    key: Seq<char>,
    node: TomlNode,
    last: EditView,
)
    requires
        edit.set(parent, key, node) is Some,
        comes_before(edit.set(parent, key, node)->0, last),
    ensures
        comes_before(edit, last),
{
    let done = edit.set(parent, key, node)->0;
    assert forall|i: int| 0 <= i < edit.fields.len() implies #[trigger] edit.fields[i]
        == last.fields[i] by {
        assert(done.fields[i] == edit.fields[i]);
    }
}

/// An edit keeps every line of a document: those that it does not touch stand as they did, first
/// and in their order, and the values that it replaces keep what surrounds them.
proof fn lemma_edit_keeps(
    entries: Map<Seq<char>, TomlNode>,
    page: TomlPage,
    selection: Seq<Seq<char>>,
    endpoint: Seq<char>,
    model: Option<Seq<char>>,
    token: Seq<char>,
)
    requires
        says(page, entries),
        edited(entries, page, selection, endpoint, model, token) is Some,
        records(entries, edited(entries, page, selection, endpoint, model, token)->0),
    ensures
        keeps(page, edited(entries, page, selection, endpoint, model, token)->0),
{
    let provider = provider_path();
    let headers = headers_path();
    let s0 = EditView { entries, page, fields: Seq::empty(), created: Seq::empty() };
    let s1 = match model {
        Some(name) => s0.set(selection, "model"@, TomlNode::Str(name)),
        None => s0.observe(selection),
    }->0;
    let hiroute = TomlNode::Str("hiroute"@);
    let s2 = s1.set(selection, "model_provider"@, hiroute)->0;
    let s3 = s2.tables(provider)->0;
    let named = TomlNode::Str("HiRoute"@);
    let s4 = s3.set(provider, "name"@, named)->0;
    let s5 = s4.set(provider, "base_url"@, TomlNode::Str(endpoint))->0;
    let wire = TomlNode::Str("responses"@);
    let s6 = s5.set(provider, "wire_api"@, wire)->0;
    let s7 = s6.set(provider, "requires_openai_auth"@, TomlNode::Bool(true))->0;
    let s8 = s7.set(provider, "supports_websockets"@, TomlNode::Bool(false))->0;
    let s9 = s8.tables(headers)->0;
    let last = s9.set(headers, "X-HiRoute-Token"@, TomlNode::Str(token))->0;
    assert(comes_before(last, last));
    lemma_set_before(s9, headers, "X-HiRoute-Token"@, TomlNode::Str(token), last);
    assert(comes_before(s8, last));
    lemma_set_before(s7, provider, "supports_websockets"@, TomlNode::Bool(false), last);
    lemma_set_before(s6, provider, "requires_openai_auth"@, TomlNode::Bool(true), last);
    lemma_set_before(s5, provider, "wire_api"@, wire, last);
    lemma_set_before(s4, provider, "base_url"@, TomlNode::Str(endpoint), last);
    lemma_set_before(s3, provider, "name"@, named, last);
    assert(comes_before(s2, last));
    lemma_set_before(s1, selection, "model_provider"@, hiroute, last);
    lemma_kept_self(page.root, Seq::empty(), replaced(s0.fields));
    assert(keeps(page, s0));
    match model {
        Some(name) => lemma_set_keeps(page, s0, selection, "model"@, TomlNode::Str(name), last),
        None => lemma_observed_keeps(page, s0, selection, last),
    }
    lemma_set_keeps(page, s1, selection, "model_provider"@, hiroute, last);
    lemma_tables_keep(page, s2, provider);
    lemma_set_keeps(page, s3, provider, "name"@, named, last);
    lemma_set_keeps(page, s4, provider, "base_url"@, TomlNode::Str(endpoint), last);
    lemma_set_keeps(page, s5, provider, "wire_api"@, wire, last);
    lemma_set_keeps(page, s6, provider, "requires_openai_auth"@, TomlNode::Bool(true), last);
    lemma_set_keeps(page, s7, provider, "supports_websockets"@, TomlNode::Bool(false), last);
    lemma_tables_keep(page, s8, headers);
    lemma_set_keeps(page, s9, headers, "X-HiRoute-Token"@, TomlNode::Str(token), last);
}

/// The replaced values that are still to be given back.
spec fn left(all: Seq<FieldView>, given: Seq<FieldView>) -> Set<Seq<Seq<char>>> {
    Set::new(
        |path: Seq<Seq<char>>| replaced(all).contains(path) && !has_field(given, path),
    )
}

proof fn lemma_given_back_keeps(
    page: TomlPage,
    entries: Map<Seq<char>, TomlNode>,
    edited_page: TomlPage,
    all: Seq<FieldView>,
    fields: Seq<FieldView>,
)
    requires
        sheet_wf(page.root),
        says(edited_page, entries),
        kept(page.root, edited_page.root, Seq::empty(), replaced(all)),
        edited_page.tail == page.tail,
        fields_say(fields),
        all_given_back(entries, fields) is Ok,
        forall|i: int|
            0 <= i < fields.len() ==> field_from(page, #[trigger] fields[i])
                && fields[i].path.len() > 0 && (fields[i].before is None || fields[i].before->0
                is Str) && (fields[i].body is None ==> !replaced(all).contains(fields[i].path)),
    ensures
        kept(
            page.root,
            page_all_given_back(edited_page, fields).root,
            Seq::empty(),
            left(all, fields),
        ),
        page_all_given_back(edited_page, fields).tail == page.tail,
    decreases fields.len(),
{
    if fields.len() == 0 {
        lemma_kept_for(
            page.root,
            edited_page.root,
            Seq::empty(),
            replaced(all),
            left(all, fields),
        );
    } else {
        let init = fields.drop_last();
        let field = fields.last();
        assert forall|i: int| 0 <= i < init.len() implies #[trigger] init[i] == fields[i] by {}
        assert(field == fields[fields.len() - 1]);
        lemma_given_back_keeps(page, entries, edited_page, all, init);
        lemma_given_back_says(entries, edited_page, init);
        let middle = page_all_given_back(edited_page, init);
        let parent = field.path.drop_last();
        let key = field.path.last();
        assert(Seq::<Seq<char>>::empty() + parent.push(key) =~= field.path);
        let done = page_given_back(middle, field);
        match field.body {
            Some(body) => {
                lemma_kept_back(
                    page.root,
                    middle.root,
                    Seq::empty(),
                    left(all, init),
                    parent,
                    key,
                    body,
                );
                assert forall|p: Seq<Seq<char>>| #[trigger]
                    left(all, init).remove(field.path).contains(p) implies left(
                    all,
                    fields,
                ).contains(p) by {
                    lemma_has_field_last(fields, p);
                }
                lemma_kept_for(
                    page.root,
                    done.root,
                    Seq::empty(),
                    left(all, init).remove(field.path),
                    left(all, fields),
                );
            },
            None => {
                lemma_kept_take(
                    page.root,
                    middle.root,
                    Seq::empty(),
                    left(all, init),
                    parent,
                    key,
                );
                assert forall|p: Seq<Seq<char>>| #[trigger] left(all, init).contains(
                    p,
                ) implies left(all, fields).contains(p) by {
                    lemma_has_field_last(fields, p);
                }
                lemma_kept_for(
                    page.root,
                    done.root,
                    Seq::empty(),
                    left(all, init),
                    left(all, fields),
                );
            },
        }
    }
}

proof fn lemma_has_field_last(fields: Seq<FieldView>, path: Seq<Seq<char>>)
    requires
        fields.len() > 0,
    ensures
        has_field(fields, path) ==> has_field(fields.drop_last(), path) || fields.last().path
            == path,
{
    if has_field(fields, path) {
        let i = choose|i: int| 0 <= i < fields.len() && (#[trigger] fields[i]).path == path;
        if i < fields.len() - 1 {
            assert(fields.drop_last()[i].path == path);
        }
    }
}

proof fn lemma_cleaned_keeps(
    page: TomlPage,
    entries: Map<Seq<char>, TomlNode>,
    edited_page: TomlPage,
    created: Seq<Seq<Seq<char>>>,
    touched: Set<Seq<Seq<char>>>,
)
    requires
        sheet_wf(page.root),
        says(edited_page, entries),
        kept(page.root, edited_page.root, Seq::empty(), touched),
        edited_page.tail == page.tail,
        cleaned(entries, created) is Ok,
        forall|i: int|
            0 <= i < created.len() ==> (#[trigger] created[i]).len() > 0 && body_in(
                page.root,
                created[i].drop_last(),
                created[i].last(),
            ) is None,
    ensures
        kept(
            page.root,
            page_cleaned(entries, edited_page, created).root,
            Seq::empty(),
            touched,
        ),
        page_cleaned(entries, edited_page, created).tail == page.tail,
    decreases created.len(),
{
    if created.len() > 0 {
        let rest = created.drop_last();
        let path = created.last();
        assert forall|i: int| 0 <= i < rest.len() implies #[trigger] rest[i] == created[i] by {}
        assert(path == created[created.len() - 1]);
        match walk(entries, path) {
            Found::Entries(inner) => if inner == crate::toml::no_entries() {
                crate::tree::lemma_walk_parent(entries, path);
                lemma_taken_from(edited_page.root, path.drop_last(), path.last());
                lemma_kept_take(
                    page.root,
                    edited_page.root,
                    Seq::empty(),
                    touched,
                    path.drop_last(),
                    path.last(),
                );
                lemma_cleaned_keeps(
                    page,
                    crate::toml::without_node(entries, path.drop_last(), path.last()),
                    TomlPage {
                        root: crate::toml::taken_from(
                            edited_page.root,
                            path.drop_last(),
                            path.last(),
                        ),
                        ..edited_page
                    },
                    rest,
                    touched,
                );
            } else {
                lemma_cleaned_keeps(page, entries, edited_page, rest, touched);
            },
            _ => lemma_cleaned_keeps(page, entries, edited_page, rest, touched),
        }
    }
}

/// Whether every field that an edit sets was something else before.
pub open spec fn changes_all(edit: EditView) -> bool {
    forall|i: int|
        0 <= i < edit.fields.len() && !(#[trigger] edit.fields[i]).passive ==> mark_of(
            edit.fields[i].before,
        ) != Mark::Digest(edit.fields[i].after)
}

proof fn lemma_pending_fields(
    entries: Map<Seq<char>, TomlNode>,
    fields: Seq<FieldView>,
    aliases: Seq<Seq<char>>,
)
    requires
        forall|i: int|
            0 <= i < fields.len() ==> is_pending(entries, #[trigger] fields[i], aliases) == Ok::<
                bool,
                CodexNativeError,
            >(!fields[i].passive),
    ensures
        pending(entries, fields, aliases) is Ok,
        ({
            let list = pending(entries, fields, aliases)->Ok_0;
            &&& forall|k: int|
                0 <= k < list.len() ==> fields.contains(#[trigger] list[k]) && !list[k].passive
            &&& forall|i: int|
                0 <= i < fields.len() && !(#[trigger] fields[i]).passive ==> has_field(
                    list,
                    fields[i].path,
                )
        }),
    decreases fields.len(),
{
    if fields.len() > 0 {
        let init = fields.drop_last();
        let field = fields.last();
        assert forall|i: int| 0 <= i < init.len() implies #[trigger] init[i] == fields[i] by {}
        assert(field == fields[fields.len() - 1]);
        lemma_pending_fields(entries, init, aliases);
        let before = pending(entries, init, aliases)->Ok_0;
        let list = pending(entries, fields, aliases)->Ok_0;
        assert forall|k: int| 0 <= k < list.len() implies fields.contains(#[trigger] list[k])
            && !list[k].passive by {
            if k < before.len() {
                assert(list[k] == before[k]);
                let i = choose|i: int| 0 <= i < init.len() && init[i] == before[k];
                assert(fields[i] == list[k]);
            }
        }
        assert forall|i: int| 0 <= i < fields.len() && !(#[trigger] fields[i]).passive implies
            has_field(list, fields[i].path) by {
            if i < init.len() {
                assert(has_field(before, init[i].path));
                let k = choose|k: int|
                    0 <= k < before.len() && (#[trigger] before[k]).path == fields[i].path;
                assert(list[k].path == fields[i].path);
            } else {
                assert(list[list.len() - 1].path == fields[i].path);
            }
        }
    }
}

/// An edit keeps every line of a document: those that it does not touch stand as they did, first
/// and in their order, and the values that it replaces keep what surrounds them. It records these
/// as they were written.
pub proof fn edits_keep_every_line(
    entries: Map<Seq<char>, TomlNode>,
    page: TomlPage,
    target: CodexSelectionTarget,
    endpoint: Seq<char>,
    model: Option<Seq<char>>,
    grant: Seq<u8>,
    owned_provider: bool,
)
    requires
        says(page, entries),
        configured(entries, page, target, endpoint, model, grant, owned_provider) is Ok,
    ensures
        ({
            let edit = configured(
                entries,
                page,
                target,
                endpoint,
                model,
                grant,
                owned_provider,
            )->Ok_0;
            &&& edit_says(edit)
            &&& keeps_lines(page, edit.page, edit)
            &&& forall|i: int|
                0 <= i < edit.fields.len() ==> field_from(page, #[trigger] edit.fields[i])
        }),
{
    reveal(is_recorded);
    edits_record_what_they_change(entries, page, target, endpoint, model, grant, owned_provider);
    lemma_edit_keeps(
        entries,
        page,
        selection_path(target)->0,
        endpoint,
        model,
        utf8_text(grant)->0,
    );
}

/// Whether a document has every line of another but for the values that an edit replaced.
pub open spec fn keeps_lines(page: TomlPage, current: TomlPage, edit: EditView) -> bool {
    &&& kept(page.root, current.root, Seq::empty(), replaced(edit.fields))
    &&& current.tail == page.tail
}

/// Restoring an edited document gives back what it said, every key and every value. Where the
/// lines of the original still stand as they were written and the edit set no field to what it was
/// before, it also gives the document back as it was written: every line in its place, with its
/// comments, its white space and its spelling. A field that was already what the edit set stays as
/// the edit spelled it.
pub proof fn restoration_gives_the_document_back(
    entries: Map<Seq<char>, TomlNode>,
    page: TomlPage,
    target: CodexSelectionTarget,
    endpoint: Seq<char>,
    model: Option<Seq<char>>,
    grant: Seq<u8>,
    owned_provider: bool,
    aliases: Seq<Seq<char>>,
    current: TomlPage,
)
    requires
        says(page, entries),
        configured(entries, page, target, endpoint, model, grant, owned_provider) is Ok,
        ({
            let edit = configured(
                entries,
                page,
                target,
                endpoint,
                model,
                grant,
                owned_provider,
            )->Ok_0;
            &&& fingerprints_tell(edit)
            &&& record_of(edit, aliases).wf()
            &&& says(current, edit.entries)
        }),
    ensures
        ({
            let edit = configured(
                entries,
                page,
                target,
                endpoint,
                model,
                grant,
                owned_provider,
            )->Ok_0;
            let back = restored_page(edit.entries, current, record_of(edit, aliases), None);
            &&& restored(edit.entries, record_of(edit, aliases), None) == Ok::<
                _,
                CodexNativeError,
            >(entries)
            &&& says(back, entries)
            &&& changes_all(edit) && keeps_lines(page, current, edit) ==> back == page
        }),
{
    reveal(is_recorded);
    let edit = configured(entries, page, target, endpoint, model, grant, owned_provider)->Ok_0;
    let record = record_of(edit, aliases);
    edits_record_what_they_change(entries, page, target, endpoint, model, grant, owned_provider);
    restoration_undoes_an_edit(
        entries,
        page,
        target,
        endpoint,
        model,
        grant,
        owned_provider,
        aliases,
    );
    edits_keep_every_line(entries, page, target, endpoint, model, grant, owned_provider);
    restorations_are_written_as_they_say(edit.entries, current, record, None);
    if changes_all(edit) && keeps_lines(page, current, edit) {
        lemma_given_back_whole(entries, page, edit, aliases, current);
    }
}

/// Restoring a document that has every line of the original but for the replaced values gives the
/// original.
proof fn lemma_given_back_whole(
    entries: Map<Seq<char>, TomlNode>,
    page: TomlPage,
    edit: EditView,
    aliases: Seq<Seq<char>>,
    current: TomlPage,
)
    requires
        says(page, entries),
        says(current, edit.entries),
        is_recorded(entries, edit),
        fields_say(edit.fields),
        forall|i: int|
            0 <= i < edit.fields.len() ==> field_from(page, #[trigger] edit.fields[i]),
        keeps_lines(page, current, edit),
        changes_all(edit),
        restored(edit.entries, record_of(edit, aliases), None) == Ok::<_, CodexNativeError>(
            entries,
        ),
        says(restored_page(edit.entries, current, record_of(edit, aliases), None), entries),
    ensures
        restored_page(edit.entries, current, record_of(edit, aliases), None) == page,
{
    reveal(is_recorded);
    let record = record_of(edit, aliases);
    let fields = edit.fields;
    lemma_edit_pending(entries, edit, aliases);
    lemma_pending_fields(edit.entries, fields, aliases);
    lemma_pending_say(edit.entries, fields, aliases);
    let list = pending(edit.entries, fields, aliases)->Ok_0;
    assert forall|k: int| 0 <= k < list.len() implies field_from(page, #[trigger] list[k])
        && list[k].path.len() > 0 && (list[k].before is None || list[k].before->0 is Str) && (
    list[k].body is None ==> !replaced(fields).contains(list[k].path)) by {
        let i = choose|i: int| 0 <= i < fields.len() && fields[i] == list[k];
        assert(field_from(page, fields[i]));
        if list[k].body is None && replaced(fields).contains(list[k].path) {
            let j = choose|j: int|
                0 <= j < fields.len() && (#[trigger] fields[j]).path == list[k].path
                    && fields[j].body is Some && !fields[j].passive;
            if i < j {
                assert(fields[i].path != fields[j].path);
            } else if j < i {
                assert(fields[j].path != fields[i].path);
            }
        }
    }
    lemma_given_back_keeps(page, edit.entries, current, fields, list);
    lemma_given_back_says(edit.entries, current, list);
    let given = all_given_back(edit.entries, list)->Ok_0;
    let middle = page_all_given_back(current, list);
    assert forall|i: int| 0 <= i < edit.created.len() implies (#[trigger] edit.created[i]).len() > 0
        && body_in(page.root, edit.created[i].drop_last(), edit.created[i].last()) is None by {
        let path = edit.created[i];
        assert(path.drop_last().push(path.last()) =~= path);
        lemma_kind_body(page.root, path.drop_last(), path.last());
    }
    assert forall|p: Seq<Seq<char>>| #[trigger] left(fields, list).contains(
        p,
    ) implies Set::<Seq<Seq<char>>>::empty().contains(p) by {
        let i = choose|i: int|
            0 <= i < fields.len() && (#[trigger] fields[i]).path == p && fields[i].body is Some
                && !fields[i].passive;
        assert(has_field(list, fields[i].path));
    }
    lemma_kept_for(page.root, middle.root, Seq::empty(), left(fields, list), Set::empty());
    lemma_cleaned_keeps(page, given, middle, edit.created, Set::empty());
    let back = restored_page(edit.entries, current, record, None);
    lemma_kept_same(page.root, back.root, Seq::empty());
}

/// Restoring the text of an edit undoes it: where the text is read as it was written, the
/// restoration is not refused, and what it writes says exactly what the original text said, every
/// key and every value. Where the lines of the original text are also read as they stood there and
/// the edit set no field to what it was before, the restoration writes them as the original text
/// did.
pub proof fn restoration_undoes_a_written_edit(
    original: Seq<char>,
    target: CodexSelectionTarget,
    endpoint: Seq<char>,
    model: Option<Seq<char>>,
    grant: Seq<u8>,
    owned_provider: bool,
    aliases: Seq<Seq<char>>,
)
    requires
        read_entries(original) is Some,
        sheet_wf(parsed_page(original)->0.root),
        ({
            let entries = read_entries(original)->0;
            let page = parsed_page(original)->0;
            configured(entries, page, target, endpoint, model, grant, owned_provider) matches Ok(
                edit,
            ) && fingerprints_tell(edit) && record_of(edit, aliases).wf() && read_entries(
                printed(edit.page),
            ) == Some(edit.entries) && sheet_wf(parsed_page(printed(edit.page))->0.root)
        }),
    ensures
        ({
            let entries = read_entries(original)->0;
            let page = parsed_page(original)->0;
            let edit = configured(
                entries,
                page,
                target,
                endpoint,
                model,
                grant,
                owned_provider,
            )->Ok_0;
            let record = record_of(edit, aliases);
            let current = parsed_page(printed(edit.page))->0;
            let back = restored_page(edit.entries, current, record, None);
            &&& restored(edit.entries, record, None) == Ok::<_, CodexNativeError>(entries)
            &&& says(back, entries)
            &&& changes_all(edit) && keeps_lines(page, current, edit) ==> back == page
        }),
{
    reveal(parsed_entries);
    let entries = read_entries(original)->0;
    let page = parsed_page(original)->0;
    let edit = configured(entries, page, target, endpoint, model, grant, owned_provider)->Ok_0;
    restoration_gives_the_document_back(
        entries,
        page,
        target,
        endpoint,
        model,
        grant,
        owned_provider,
        aliases,
        parsed_page(printed(edit.page))->0,
    );
}

} // verus!
