//! Lossless edits of a native Codex configuration, and their restoration.
//!
//! An edit sets a few fields of the selected table and adds the HiRoute provider. It records what
//! each field was, so that a later restoration gives exactly those fields back and touches
//! nothing that the user changed meanwhile.

use vstd::prelude::*;
use crate::digest::{digest_of, CanonicalDigest};
use crate::sheets::sheet_wf;
use crate::text::{
    after_prefix, before_suffix, byte_len, bytes_in, has_char, identifier, is_decimal,
    is_identifier, is_plain_absolute, parse_u64, parsed_u64, plain_absolute, same, strip_prefix,
    strip_suffix, text_of_bytes,
    utf8_text,
};
use crate::toml::{
    body_at, body_in, body_prints, bool_item, document_entries, document_page, has_short_runs,
    item_body, item_node, lemma_body_prints, lemma_put_in_prints, lemma_short_runs,
    lemma_tables_in_prints, lemma_taken_from_prints, make_tables, node_at, parsed_entries,
    parsed_page, path_view, plain_body, print_document, print_item, printed, put_in, put_item,
    read_document, sheet_prints, steps_there, str_item, table_at, table_entries, table_sheet,
    tables_in, take_item, taken_from, walk, with_node, with_tables, without_node, Found, TomlBody,
    TomlNode, TomlPage,
};

pub mod record;

verus! {

/// The largest configuration that is read or written, in bytes.
pub const MAX_BYTES: usize = 1_048_576;

/// Which table of the configuration selects the model.
#[derive(Debug)]
pub enum CodexSelectionTarget {
    /// User config or a separately selected native profile file, as proven by discovery.
    Root,
    LegacyProfile(String),
}

#[derive(Clone, Copy, Debug, PartialEq, Eq, Structural)]
pub enum CodexNativeError {
    InvalidToml,
    SourceChanged,
    UnsupportedLayout,
    ProviderAlreadyExists,
    FieldConflict,
    InvalidIntent,
}

impl CodexNativeError {
    pub open spec fn message_text(self) -> Seq<char> {
        match self {
            CodexNativeError::InvalidToml => "native TOML is invalid or exceeds the input limit"@,
            CodexNativeError::SourceChanged => "configuration changed after preview"@,
            CodexNativeError::UnsupportedLayout => {
                "the selected native configuration shape is not proven"@
            },
            CodexNativeError::ProviderAlreadyExists => {
                "a user provider already occupies the proposed managed identity"@
            },
            CodexNativeError::FieldConflict => "a managed field changed after application"@,
            CodexNativeError::InvalidIntent => "the managed model or local endpoint is invalid"@,
        }
    }

    pub fn message(&self) -> (r: String)
        ensures
            r@ == self.message_text(),
    {
        match self {
            CodexNativeError::InvalidToml => {
                "native TOML is invalid or exceeds the input limit".to_owned()
            },
            CodexNativeError::SourceChanged => "configuration changed after preview".to_owned(),
            CodexNativeError::UnsupportedLayout => {
                "the selected native configuration shape is not proven".to_owned()
            },
            CodexNativeError::ProviderAlreadyExists => {
                "a user provider already occupies the proposed managed identity".to_owned()
            },
            CodexNativeError::FieldConflict => {
                "a managed field changed after application".to_owned()
            },
            CodexNativeError::InvalidIntent => {
                "the managed model or local endpoint is invalid".to_owned()
            },
        }
    }
}

/// A model name and whether it is a valid client model name.
#[derive(Debug)]
pub struct ModelChoice {
    pub name: String,
    pub valid: bool,
}

/// What a field was before an edit, and the fingerprint of what the edit made of it. A passive
/// model was only observed.
pub struct FieldRestore {
    path: Vec<String>,
    before: Option<toml_edit::Item>,
    after: CanonicalDigest,
    passive_model: bool,
}

/// What an edit changed. It holds what the user had: keep it in protected storage.
pub struct CodexNativeRestore {
    fields: Vec<FieldRestore>,
    created_tables: Vec<Vec<String>>,
    managed_aliases: Vec<String>,
}

/// An edited configuration and its restoration. The text holds a local credential.
pub struct CodexNativeEdit {
    pub rendered: String,
    pub restore: CodexNativeRestore,
}

pub struct FieldView {
    pub path: Seq<Seq<char>>,
    pub before: Option<TomlNode>,
    /// How the field was written.
    pub body: Option<TomlBody>,
    pub after: Seq<char>,
    pub passive: bool,
}

pub struct RestoreView {
    pub fields: Seq<FieldView>,
    pub created: Seq<Seq<Seq<char>>>,
    pub aliases: Seq<Seq<char>>,
}

pub open spec fn optional_node(item: Option<toml_edit::Item>) -> Option<TomlNode> {
    match item {
        Some(item) => Some(item_node(item)),
        None => None,
    }
}

pub open spec fn optional_body(item: Option<toml_edit::Item>) -> Option<TomlBody> {
    match item {
        Some(item) => Some(item_body(item)),
        None => None,
    }
}

impl View for FieldRestore {
    type V = FieldView;

    closed spec fn view(&self) -> FieldView {
        FieldView {
            path: path_view(self.path@),
            before: optional_node(self.before),
            body: optional_body(self.before),
            after: self.after@,
            passive: self.passive_model,
        }
    }
}

impl View for CodexNativeRestore {
    type V = RestoreView;

    closed spec fn view(&self) -> RestoreView {
        RestoreView {
            fields: self.fields@.map_values(|field: FieldRestore| field@),
            created: self.created_tables@.map_values(|path: Vec<String>| path_view(path@)),
            aliases: path_view(self.managed_aliases@),
        }
    }
}

impl FieldView {
    pub open spec fn wf(self) -> bool {
        &&& self.path.len() > 0
        &&& match (self.before, self.body) {
            (Some(node), Some(body)) => node is Str && body_prints(body),
            (None, None) => true,
            _ => false,
        }
    }
}

impl RestoreView {
    /// Every recorded field has a place, and was a string that can be printed or absent.
    pub open spec fn wf(self) -> bool {
        &&& forall|i: int| 0 <= i < self.fields.len() ==> (#[trigger] self.fields[i]).wf()
        &&& forall|i: int| 0 <= i < self.created.len() ==> (#[trigger] self.created[i]).len() > 0
    }
}

/// The fingerprint of what an item says. A table has none.
pub open spec fn fingerprint_of(node: TomlNode) -> Option<Seq<char>> {
    match node {
        TomlNode::Str(value) => Some(
            digest_of(vstd::utf8::encode_utf8("string\0"@ + value)),
        ),
        TomlNode::Bool(value) => Some(
            digest_of(
                vstd::utf8::encode_utf8(
                    "boolean\0"@ + (if value {
                        "true"@
                    } else {
                        "false"@
                    }),
                ),
            ),
        ),
        TomlNode::Int(_, text) => Some(digest_of(vstd::utf8::encode_utf8("other\0"@ + text))),
        TomlNode::Other(text) => Some(digest_of(vstd::utf8::encode_utf8("other\0"@ + text))),
        _ => None,
    }
}

fn digest_text(kind: &str, value: &str) -> (r: CanonicalDigest)
    ensures
        r@ == digest_of(vstd::utf8::encode_utf8(kind@ + value@)),
{
    let mut text = kind.to_owned();
    text.append(value);
    CanonicalDigest::of_bytes(text.as_str().as_bytes())
}

fn fingerprint(item: &toml_edit::Item) -> (r: Option<CanonicalDigest>)
    requires
        !(item_node(*item) is Nothing),
        item_node(*item) is Str || body_prints(item_body(*item)),
    ensures
        (match r {
            Some(digest) => Some(digest@),
            None => None,
        }) == fingerprint_of(item_node(*item)),
{
    match item.as_str() {
        Some(value) => return Some(digest_text("string\0", value)),
        None => {},
    }
    match item.as_bool() {
        Some(value) => return Some(
            digest_text(
                "boolean\0",
                if value {
                    "true"
                } else {
                    "false"
                },
            ),
        ),
        None => {},
    }
    if item.as_table().is_some() {
        return None;
    }
    Some(digest_text("other\0", print_item(item).as_str()))
}

/// An edit in progress: what the document says, how it is written, what was recorded, which tables
/// were made.
pub struct EditView {
    pub entries: Map<Seq<char>, TomlNode>,
    pub page: TomlPage,
    pub fields: Seq<FieldView>,
    pub created: Seq<Seq<Seq<char>>>,
}

impl EditView {
    /// Sets one field. Only a string can be replaced.
    pub open spec fn set(self, parent: Seq<Seq<char>>, key: Seq<char>, node: TomlNode) -> Option<
        EditView,
    > {
        match walk(self.entries, parent) {
            Found::Entries(inner) => if inner.contains_key(key) && !(inner[key] is Str) {
                None
            } else {
                Some(
                    EditView {
                        entries: with_node(self.entries, parent, key, node),
                        page: TomlPage {
                            root: put_in(self.page.root, parent, key, plain_body(node)),
                            ..self.page
                        },
                        fields: self.fields.push(
                            FieldView {
                                path: parent.push(key),
                                before: if inner.contains_key(key) {
                                    Some(inner[key])
                                } else {
                                    None
                                },
                                body: body_in(self.page.root, parent, key),
                                after: fingerprint_of(node)->0,
                                passive: false,
                            },
                        ),
                        created: self.created,
                    },
                )
            },
            _ => None,
        }
    }

    /// Makes the tables of a path that are missing.
    pub open spec fn tables(self, path: Seq<Seq<char>>) -> Option<EditView> {
        if walk(self.entries, path) is Blocked {
            None
        } else {
            let there = steps_there(self.entries, path);
            Some(
                EditView {
                    entries: with_tables(self.entries, path),
                    page: TomlPage { root: tables_in(self.page.root, path), ..self.page },
                    created: self.created + Seq::new(
                        (path.len() - there) as nat,
                        |i: int| path.take(there + i + 1),
                    ),
                    ..self
                },
            )
        }
    }

    /// Observes the model without setting it.
    pub open spec fn observe(self, parent: Seq<Seq<char>>) -> Option<EditView> {
        match walk(self.entries, parent) {
            Found::Entries(inner) => if inner.contains_key("model"@) && !(inner["model"@] is Str) {
                None
            } else {
                Some(
                    EditView {
                        fields: self.fields.push(
                            FieldView {
                                path: parent.push("model"@),
                                before: if inner.contains_key("model"@) {
                                    Some(inner["model"@])
                                } else {
                                    None
                                },
                                body: body_in(self.page.root, parent, "model"@),
                                after: if inner.contains_key("model"@) {
                                    fingerprint_of(inner["model"@])->0
                                } else {
                                    digest_of(vstd::utf8::encode_utf8("codex.absent-model"@))
                                },
                                passive: true,
                            },
                        ),
                        ..self
                    },
                )
            },
            _ => None,
        }
    }
}

/// The restoration of an edit in progress.
spec fn edit_view(document: toml_edit::DocumentMut, restore: CodexNativeRestore) -> EditView {
    EditView {
        entries: document_entries(document),
        page: document_page(document),
        fields: restore@.fields,
        created: restore@.created,
    }
}

/// Whether a document can be printed.
spec fn prints(document: toml_edit::DocumentMut) -> bool {
    sheet_prints(document_page(document).root)
}

fn copied_path(path: &Vec<String>, upto: usize) -> (r: Vec<String>)
    requires
        upto <= path.len(),
    ensures
        path_view(r@) == path_view(path@).take(upto as int),
{
    let mut out: Vec<String> = Vec::new();
    let mut i: usize = 0;
    while i < upto
        invariant
            i <= upto <= path.len(),
            path_view(out@) == path_view(path@).take(i as int),
        decreases upto - i,
    {
        let ghost before = out@;
        out.push(path[i].clone());
        assert(path_view(out@) == path_view(before).push(path@[i as int]@));
        assert(path_view(path@).take(i + 1) == path_view(path@).take(i as int).push(
            path@[i as int]@,
        ));
        i += 1;
    }
    out
}

fn joined_path(parent: &Vec<String>, key: &str) -> (r: Vec<String>)
    ensures
        path_view(r@) == path_view(parent@).push(key@),
{
    let mut path = copied_path(parent, parent.len());
    let ghost before = path@;
    path.push(key.to_owned());
    assert(path_view(path@) == path_view(before).push(key@));
    assert(path_view(parent@).take(parent@.len() as int) == path_view(parent@));
    path
}

fn record(restore: &mut CodexNativeRestore, field: FieldRestore)
    ensures
        final(restore)@ == (RestoreView { fields: old(restore)@.fields.push(field@), ..old(
            restore,
        )@ }),
{
    let ghost before = restore@.fields;
    restore.fields.push(field);
    assert(restore@.fields == before.push(field@));
}

/// The item that a table has at a key, or a failure where it is no string.
fn string_before(table: &toml_edit::Table, key: &str) -> (r: Result<Option<toml_edit::Item>, ()>)
    ensures
        ({
            let entries = table_entries(*table);
            if !entries.contains_key(key@) {
                r matches Ok(None)
            } else if entries[key@] is Str {
                r matches Ok(Some(item)) && item_node(item) == entries[key@]
            } else {
                r is Err
            }
        }),
        r matches Ok(item) ==> optional_body(item) == body_at(table_sheet(*table), key@),
{
    match table.get(key) {
        Some(item) => if item.as_str().is_some() {
            Ok(Some(item.clone()))
        } else {
            Err(())
        },
        None => Ok(None),
    }
}

fn set(
    document: &mut toml_edit::DocumentMut,
    parent: &Vec<String>,
    key: &str,
    item: toml_edit::Item,
    restore: &mut CodexNativeRestore,
) -> (r: Result<(), CodexNativeError>)
    requires
        item_node(item) is Str || item_node(item) is Bool,
        item_body(item) == plain_body(item_node(item)),
        body_prints(item_body(item)),
        has_short_runs(key@),
        prints(*old(document)),
        old(restore)@.wf(),
    ensures
        final(restore)@.wf(),
        r is Ok ==> prints(*final(document)),
        match edit_view(*old(document), *old(restore)).set(
            path_view(parent@),
            key@,
            item_node(item),
        ) {
            Some(edit) => {
                &&& r is Ok
                &&& edit_view(*final(document), *final(restore)) == edit
                &&& final(restore)@.aliases == old(restore)@.aliases
            },
            None => r == Err::<(), _>(CodexNativeError::UnsupportedLayout),
        },
{
    let ghost path = path_view(parent@);
    assert(path.skip(0) == path);
    let before = match table_at(document.as_table(), parent, 0) {
        Ok(Some(table)) => match string_before(table, key) {
            Ok(before) => {
                proof {
                    lemma_body_prints(table_sheet(*table), key@);
                    assert(body_in(document_page(*document).root, path, key@) == body_at(
                        table_sheet(*table),
                        key@,
                    ));
                }
                before
            },
            Err(()) => return Err(CodexNativeError::UnsupportedLayout),
        },
        _ => return Err(CodexNativeError::UnsupportedLayout),
    };
    let after = match fingerprint(&item) {
        Some(after) => after,
        None => return Err(CodexNativeError::UnsupportedLayout),
    };
    let field = FieldRestore {
        path: joined_path(parent, key),
        before,
        after,
        passive_model: false,
    };
    proof {
        let root = document_page(*document).root;
        assert(body_in(root, path, key@) == field@.body);
        lemma_put_in_prints(root, path, key@, item_body(item));
    }
    record(restore, field);
    match put_item(document.as_table_mut(), parent, 0, key, item) {
        Some(()) => Ok(()),
        None => Err(CodexNativeError::UnsupportedLayout),
    }
}

fn create_tables(
    document: &mut toml_edit::DocumentMut,
    path: &Vec<String>,
    restore: &mut CodexNativeRestore,
) -> (r: Result<(), CodexNativeError>)
    requires
        old(restore)@.wf(),
        prints(*old(document)),
        forall|i: int| 0 <= i < path@.len() ==> has_short_runs(#[trigger] path_view(path@)[i]),
    ensures
        final(restore)@.wf(),
        r is Ok ==> prints(*final(document)),
        match edit_view(*old(document), *old(restore)).tables(path_view(path@)) {
            Some(edit) => {
                &&& r is Ok
                &&& edit_view(*final(document), *final(restore)) == edit
                &&& final(restore)@.aliases == old(restore)@.aliases
            },
            None => r == Err::<(), _>(CodexNativeError::UnsupportedLayout),
        },
{
    let ghost steps = path_view(path@);
    assert(steps.skip(0) == steps);
    let there = match make_tables(document.as_table_mut(), path, 0) {
        Some(there) => there,
        None => return Err(CodexNativeError::UnsupportedLayout),
    };
    proof {
        lemma_tables_in_prints(document_page(*old(document)).root, steps);
    }
    let ghost before = restore@;
    let mut i: usize = there;
    proof {
        lemma_steps_there_bounded(document_entries(*old(document)), steps);
        assert(restore@.created == before.created + Seq::new(
            0,
            |k: int| steps.take(there + k + 1),
        ));
    }
    while i < path.len()
        invariant
            there <= i <= path.len(),
            steps == path_view(path@),
            steps.len() == path.len(),
            restore@.fields == before.fields,
            restore@.aliases == before.aliases,
            restore@.created == before.created + Seq::new(
                (i - there) as nat,
                |k: int| steps.take(there + k + 1),
            ),
            restore@.wf(),
        decreases path.len() - i,
    {
        let ghost created = restore@.created;
        let prefix = copied_path(path, i + 1);
        restore.created_tables.push(prefix);
        proof {
            assert(restore@.created == created.push(steps.take(i + 1)));
            assert(Seq::new((i + 1 - there) as nat, |k: int| steps.take(there + k + 1)) == Seq::new(
                (i - there) as nat,
                |k: int| steps.take(there + k + 1),
            ).push(steps.take(i + 1)));
            assert(restore@.fields == before.fields);
            assert(restore@.aliases == before.aliases);
        }
        i += 1;
    }
    Ok(())
}

proof fn lemma_steps_there_bounded(entries: Map<Seq<char>, TomlNode>, path: Seq<Seq<char>>)
    ensures
        steps_there(entries, path) <= path.len(),
    decreases path.len(),
{
    if path.len() > 0 && entries.contains_key(path[0]) {
        lemma_steps_there_bounded(entries[path[0]]->Entries_0, path.skip(1));
    }
}

/// Whether an endpoint is the local gateway: loopback, a port other than zero, and `/v1`.
pub open spec fn is_local_endpoint(text: Seq<char>) -> bool {
    let rest = match after_prefix(text, "http://127.0.0.1:"@) {
        Some(rest) => Some(rest),
        None => after_prefix(text, "http://[::1]:"@),
    };
    match rest {
        Some(rest) => match before_suffix(rest, "/v1"@) {
            Some(port) => is_decimal(port) && (parsed_u64(port) matches Some(value) && 0 < value
                <= 65535),
            None => false,
        },
        None => false,
    }
}

pub fn local_endpoint(text: &str) -> (r: bool)
    ensures
        r == is_local_endpoint(text@),
{
    let rest = match strip_prefix(text, "http://127.0.0.1:") {
        Some(rest) => rest,
        None => match strip_prefix(text, "http://[::1]:") {
            Some(rest) => rest,
            None => return false,
        },
    };
    let port = match strip_suffix(rest.as_str(), "/v1") {
        Some(port) => port,
        None => return false,
    };
    if !crate::text::decimal_digits(port.as_str()) {
        return false;
    }
    match parse_u64(port.as_str()) {
        Some(value) => 0 < value && value <= 65535,
        None => false,
    }
}

/// The table that a target selects. A profile must have an identifier for a name.
pub open spec fn selection_path(target: CodexSelectionTarget) -> Option<Seq<Seq<char>>> {
    match target {
        CodexSelectionTarget::Root => Some(Seq::empty()),
        CodexSelectionTarget::LegacyProfile(name) => if is_identifier(name@) {
            Some(seq!["profiles"@, name@])
        } else {
            None
        },
    }
}

pub open spec fn provider_path() -> Seq<Seq<char>> {
    seq!["model_providers"@, "hiroute"@]
}

pub open spec fn headers_path() -> Seq<Seq<char>> {
    seq!["model_providers"@, "hiroute"@, "http_headers"@]
}

/// The steps of an edit on what a document says: the selected model, or its observation; the
/// selected provider; the provider's own table; and its header table with the local token.
pub open spec fn edited(
    entries: Map<Seq<char>, TomlNode>,
    page: TomlPage,
    selection: Seq<Seq<char>>,
    endpoint: Seq<char>,
    model: Option<Seq<char>>,
    token: Seq<char>,
) -> Option<EditView> {
    let start = EditView { entries, page, fields: Seq::empty(), created: Seq::empty() };
    let modelled = match model {
        Some(name) => start.set(selection, "model"@, TomlNode::Str(name)),
        None => start.observe(selection),
    };
    let provider = provider_path();
    match modelled {
        None => None,
        Some(e) => match e.set(selection, "model_provider"@, TomlNode::Str("hiroute"@)) {
            None => None,
            Some(e) => match e.tables(provider) {
                None => None,
                Some(e) => match e.set(provider, "name"@, TomlNode::Str("HiRoute"@)) {
                    None => None,
                    Some(e) => match e.set(provider, "base_url"@, TomlNode::Str(endpoint)) {
                        None => None,
                        Some(e) => match e.set(
                            provider,
                            "wire_api"@,
                            TomlNode::Str("responses"@),
                        ) {
                            None => None,
                            Some(e) => match e.set(
                                provider,
                                "requires_openai_auth"@,
                                TomlNode::Bool(true),
                            ) {
                                None => None,
                                Some(e) => match e.set(
                                    provider,
                                    "supports_websockets"@,
                                    TomlNode::Bool(false),
                                ) {
                                    None => None,
                                    Some(e) => match e.tables(headers_path()) {
                                        None => None,
                                        Some(e) => e.set(
                                            headers_path(),
                                            "X-HiRoute-Token"@,
                                            TomlNode::Str(token),
                                        ),
                                    },
                                },
                            },
                        },
                    },
                },
            },
        },
    }
}

/// Why a document cannot be edited for a target, or what the edit leaves.
pub open spec fn configured(
    entries: Map<Seq<char>, TomlNode>,
    page: TomlPage,
    target: CodexSelectionTarget,
    endpoint: Seq<char>,
    model: Option<Seq<char>>,
    grant: Seq<u8>,
    owned_provider: bool,
) -> Result<EditView, CodexNativeError> {
    match selection_path(target) {
        None => Err(CodexNativeError::UnsupportedLayout),
        Some(selection) => if !(walk(entries, selection) is Entries) {
            Err(CodexNativeError::UnsupportedLayout)
        } else if entries.contains_key("model_providers"@) && !(
        entries["model_providers"@] is Entries) {
            Err(CodexNativeError::UnsupportedLayout)
        } else if entries.contains_key("model_providers"@)
            && entries["model_providers"@]->Entries_0.contains_key("hiroute"@) && !owned_provider {
            Err(CodexNativeError::ProviderAlreadyExists)
        } else {
            match utf8_text(grant) {
                None => if reaches_grant(entries, page, selection, model) {
                    Err(CodexNativeError::InvalidIntent)
                } else {
                    Err(CodexNativeError::UnsupportedLayout)
                },
                Some(token) => match edited(entries, page, selection, endpoint, model, token) {
                    Some(edit) => Ok(edit),
                    None => Err(CodexNativeError::UnsupportedLayout),
                },
            }
        },
    }
}

/// Whether an edit gets as far as the local grant.
pub open spec fn reaches_grant(
    entries: Map<Seq<char>, TomlNode>,
    page: TomlPage,
    selection: Seq<Seq<char>>,
    model: Option<Seq<char>>,
) -> bool {
    let start = EditView { entries, page, fields: Seq::empty(), created: Seq::empty() };
    let modelled = match model {
        Some(name) => start.set(selection, "model"@, TomlNode::Str(name)),
        None => start.observe(selection),
    };
    match modelled {
        None => false,
        Some(e) => match e.set(selection, "model_provider"@, TomlNode::Str("hiroute"@)) {
            None => false,
            Some(e) => e.tables(provider_path()) is Some,
        },
    }
}

fn path_of(keys: &[&str]) -> (r: Vec<String>)
    ensures
        r@.len() == keys@.len(),
        forall|i: int| 0 <= i < keys@.len() ==> (#[trigger] path_view(r@)[i]) == keys@[i]@,
{
    let mut out: Vec<String> = Vec::new();
    let mut i: usize = 0;
    while i < keys.len()
        invariant
            i <= keys.len(),
            out@.len() == i,
            forall|j: int| 0 <= j < i ==> (#[trigger] out@[j])@ == keys@[j]@,
        decreases keys.len() - i,
    {
        out.push(keys[i].to_owned());
        i += 1;
    }
    out
}

fn observe_model(
    document: &toml_edit::DocumentMut,
    selection: &Vec<String>,
    restore: &mut CodexNativeRestore,
) -> (r: Result<(), CodexNativeError>)
    requires
        old(restore)@.wf(),
        prints(*document),
    ensures
        final(restore)@.wf(),
        match edit_view(*document, *old(restore)).observe(path_view(selection@)) {
            Some(edit) => {
                &&& r is Ok
                &&& edit_view(*document, *final(restore)) == edit
                &&& final(restore)@.aliases == old(restore)@.aliases
            },
            None => r == Err::<(), _>(CodexNativeError::UnsupportedLayout),
        },
{
    let ghost path = path_view(selection@);
    assert(path.skip(0) == path);
    let before = match table_at(document.as_table(), selection, 0) {
        Ok(Some(table)) => match string_before(table, "model") {
            Ok(before) => {
                proof {
                    lemma_body_prints(table_sheet(*table), "model"@);
                    assert(body_in(document_page(*document).root, path, "model"@) == body_at(
                        table_sheet(*table),
                        "model"@,
                    ));
                }
                before
            },
            Err(()) => return Err(CodexNativeError::UnsupportedLayout),
        },
        _ => return Err(CodexNativeError::UnsupportedLayout),
    };
    let after = match &before {
        Some(item) => match fingerprint(item) {
            Some(after) => after,
            None => return Err(CodexNativeError::UnsupportedLayout),
        },
        None => CanonicalDigest::of_bytes("codex.absent-model".as_bytes()),
    };
    let field = FieldRestore {
        path: joined_path(selection, "model"),
        before,
        after,
        passive_model: true,
    };
    record(restore, field);
    Ok(())
}

/// The endpoint of the local gateway holds no quote mark.
proof fn lemma_local_endpoint(text: Seq<char>)
    requires
        is_local_endpoint(text),
    ensures
        has_short_runs(text),
{
    reveal_strlit("http://127.0.0.1:");
    reveal_strlit("http://[::1]:");
    reveal_strlit("/v1");
    let first = "http://127.0.0.1:"@;
    let second = "http://[::1]:"@;
    let prefix = if after_prefix(text, first) is Some {
        first
    } else {
        second
    };
    let rest = after_prefix(text, prefix)->0;
    let port = before_suffix(rest, "/v1"@)->0;
    assert(text == prefix + port + "/v1"@);
    assert forall|i: int| 0 <= i < text.len() implies text[i] != '\'' && text[i] != '"' by {
        if i < prefix.len() {
            assert(text[i] == prefix[i]);
        } else if i < prefix.len() + port.len() {
            assert(text[i] == port[i - prefix.len()]);
        } else {
            assert(text[i] == "/v1"@[i - prefix.len() - port.len()]);
        }
    }
    lemma_short_runs(text);
}

/// The keys and texts that an edit writes of its own can be printed.
proof fn lemma_own_texts()
    ensures
        has_short_runs("model"@),
        has_short_runs("model_provider"@),
        has_short_runs("model_providers"@),
        has_short_runs("model_catalog_json"@),
        has_short_runs("hiroute"@),
        has_short_runs("HiRoute"@),
        has_short_runs("name"@),
        has_short_runs("base_url"@),
        has_short_runs("wire_api"@),
        has_short_runs("responses"@),
        has_short_runs("requires_openai_auth"@),
        has_short_runs("supports_websockets"@),
        has_short_runs("http_headers"@),
        has_short_runs("X-HiRoute-Token"@),
{
    reveal_strlit("model");
    reveal_strlit("model_provider");
    reveal_strlit("model_providers");
    reveal_strlit("model_catalog_json");
    reveal_strlit("hiroute");
    reveal_strlit("HiRoute");
    reveal_strlit("name");
    reveal_strlit("base_url");
    reveal_strlit("wire_api");
    reveal_strlit("responses");
    reveal_strlit("requires_openai_auth");
    reveal_strlit("supports_websockets");
    reveal_strlit("http_headers");
    reveal_strlit("X-HiRoute-Token");
    lemma_short_runs("model"@);
    lemma_short_runs("model_provider"@);
    lemma_short_runs("model_providers"@);
    lemma_short_runs("model_catalog_json"@);
    lemma_short_runs("hiroute"@);
    lemma_short_runs("HiRoute"@);
    lemma_short_runs("name"@);
    lemma_short_runs("base_url"@);
    lemma_short_runs("wire_api"@);
    lemma_short_runs("responses"@);
    lemma_short_runs("requires_openai_auth"@);
    lemma_short_runs("supports_websockets"@);
    lemma_short_runs("http_headers"@);
    lemma_short_runs("X-HiRoute-Token"@);
}

/// Edits a document for a target.
#[verifier::rlimit(60)]
fn configure_document(
    document: &mut toml_edit::DocumentMut,
    target: &CodexSelectionTarget,
    endpoint: &str,
    model: Option<&str>,
    grant: &[u8],
    owned_provider: bool,
) -> (r: Result<CodexNativeRestore, CodexNativeError>)
    requires
        prints(*old(document)),
        has_short_runs(endpoint@),
        model matches Some(name) ==> has_short_runs(name@),
        utf8_text(grant@) matches Some(token) ==> has_short_runs(token),
    ensures
        r is Ok ==> prints(*final(document)),
        match configured(
            document_entries(*old(document)),
            document_page(*old(document)),
            *target,
            endpoint@,
            match model {
                Some(name) => Some(name@),
                None => None,
            },
            grant@,
            owned_provider,
        ) {
            Ok(edit) => {
                &&& r matches Ok(restore) && restore@ == (RestoreView {
                    fields: edit.fields,
                    created: edit.created,
                    aliases: Seq::empty(),
                }) && restore@.wf()
                &&& document_entries(*final(document)) == edit.entries
                &&& document_page(*final(document)) == edit.page
            },
            Err(error) => r matches Err(e) && e == error,
        },
{
    proof {
        lemma_own_texts();
    }
    let selection: Vec<String> = match target {
        CodexSelectionTarget::Root => Vec::new(),
        CodexSelectionTarget::LegacyProfile(name) => {
            if !identifier(name.as_str()) {
                return Err(CodexNativeError::UnsupportedLayout);
            }
            path_of(&["profiles", name.as_str()])
        },
    };
    proof {
        assert(path_view(selection@) == selection_path(*target)->0);
        assert(path_view(selection@).skip(0) == path_view(selection@));
    }
    match table_at(document.as_table(), &selection, 0) {
        Ok(Some(_)) => {},
        _ => return Err(CodexNativeError::UnsupportedLayout),
    }
    match document.as_table().get("model_providers") {
        Some(item) => match item.as_table() {
            Some(providers) => if providers.contains_key("hiroute") && !owned_provider {
                return Err(CodexNativeError::ProviderAlreadyExists);
            },
            None => return Err(CodexNativeError::UnsupportedLayout),
        },
        None => {},
    }
    let mut restore = CodexNativeRestore {
        fields: Vec::new(),
        created_tables: Vec::new(),
        managed_aliases: Vec::new(),
    };
    proof {
        assert(restore@.fields == Seq::<FieldView>::empty());
        assert(restore@.created == Seq::<Seq<Seq<char>>>::empty());
        assert(restore@.aliases == Seq::<Seq<char>>::empty());
    }
    let chosen = match model {
        Some(name) => set(document, &selection, "model", str_item(name), &mut restore),
        None => observe_model(document, &selection, &mut restore),
    };
    match chosen {
        Ok(()) => {},
        Err(error) => return Err(error),
    }
    match set(document, &selection, "model_provider", str_item("hiroute"), &mut restore) {
        Ok(()) => {},
        Err(error) => return Err(error),
    }
    let provider = path_of(&["model_providers", "hiroute"]);
    assert(path_view(provider@) == provider_path());
    match create_tables(document, &provider, &mut restore) {
        Ok(()) => {},
        Err(error) => return Err(error),
    }
    let token = match text_of_bytes(grant) {
        Some(token) => token,
        None => return Err(CodexNativeError::InvalidIntent),
    };
    match set(document, &provider, "name", str_item("HiRoute"), &mut restore) {
        Ok(()) => {},
        Err(error) => return Err(error),
    }
    match set(document, &provider, "base_url", str_item(endpoint), &mut restore) {
        Ok(()) => {},
        Err(error) => return Err(error),
    }
    match set(document, &provider, "wire_api", str_item("responses"), &mut restore) {
        Ok(()) => {},
        Err(error) => return Err(error),
    }
    match set(document, &provider, "requires_openai_auth", bool_item(true), &mut restore) {
        Ok(()) => {},
        Err(error) => return Err(error),
    }
    match set(document, &provider, "supports_websockets", bool_item(false), &mut restore) {
        Ok(()) => {},
        Err(error) => return Err(error),
    }
    let headers = path_of(&["model_providers", "hiroute", "http_headers"]);
    assert(path_view(headers@) == headers_path());
    match create_tables(document, &headers, &mut restore) {
        Ok(()) => {},
        Err(error) => return Err(error),
    }
    match set(document, &headers, "X-HiRoute-Token", str_item(token.as_str()), &mut restore) {
        Ok(()) => {},
        Err(error) => return Err(error),
    }
    Ok(restore)
}

/// Whether a text may be read as a configuration.
pub open spec fn is_readable(text: Seq<char>) -> bool {
    byte_len(text) <= MAX_BYTES && !text.contains('\0')
}

/// What a configuration says, where it can be read.
pub open spec fn read_entries(text: Seq<char>) -> Option<Map<Seq<char>, TomlNode>> {
    if is_readable(text) {
        parsed_entries(text)
    } else {
        None
    }
}

fn parse(text: &str) -> (r: Result<toml_edit::DocumentMut, CodexNativeError>)
    ensures
        match r {
            Ok(document) => read_entries(text@) == Some(document_entries(document))
                && parsed_page(text@) == Some(document_page(document)) && prints(document)
                && sheet_wf(document_page(document).root),
            Err(error) => read_entries(text@) is None && error == CodexNativeError::InvalidToml,
        },
{
    if bytes_in(text) > MAX_BYTES || has_char(text, '\0') {
        return Err(CodexNativeError::InvalidToml);
    }
    match read_document(text) {
        Some(document) => Ok(document),
        None => Err(CodexNativeError::InvalidToml),
    }
}

/// A document's text, where it stays small enough to be read again.
pub open spec fn bounded_text(page: TomlPage) -> Result<Seq<char>, CodexNativeError> {
    if byte_len(printed(page)) > MAX_BYTES {
        Err(CodexNativeError::InvalidToml)
    } else {
        Ok(printed(page))
    }
}

pub open spec fn text_view(r: Result<String, CodexNativeError>) -> Result<
    Seq<char>,
    CodexNativeError,
> {
    match r {
        Ok(text) => Ok(text@),
        Err(error) => Err(error),
    }
}

fn render_bounded(document: &toml_edit::DocumentMut) -> (r: Result<String, CodexNativeError>)
    requires
        prints(*document),
    ensures
        text_view(r) == bounded_text(document_page(*document)),
{
    let rendered = print_document(document);
    if bytes_in(rendered.as_str()) > MAX_BYTES {
        return Err(CodexNativeError::InvalidToml);
    }
    Ok(rendered)
}

/// Whether an edit is the one in view: its text, with every line that it did not touch as it was,
/// and its restoration; or the failure of a text that grew too large.
pub open spec fn is_edit(
    r: Result<CodexNativeEdit, CodexNativeError>,
    edit: EditView,
    aliases: Seq<Seq<char>>,
) -> bool {
    match bounded_text(edit.page) {
        Err(failure) => r matches Err(error) && error == failure,
        Ok(text) => r matches Ok(done) && done.rendered@ == text && done.restore@ == (RestoreView {
            fields: edit.fields,
            created: edit.created,
            aliases,
        }) && done.restore@.wf(),
    }
}

pub open spec fn name_view(name: Option<&str>) -> Option<Seq<char>> {
    match name {
        Some(name) => Some(name@),
        None => None,
    }
}

pub open spec fn choice_view(model: Option<ModelChoice>) -> Option<Seq<char>> {
    match model {
        Some(model) => Some(model.name@),
        None => None,
    }
}

/// What an edit of a text comes to: an invalid intent, a text that cannot be read, a layout that
/// cannot be edited, an edited text that grew too large, or the edited text.
pub open spec fn edit_is(
    r: Result<CodexNativeEdit, CodexNativeError>,
    current: Seq<char>,
    target: CodexSelectionTarget,
    provider_id: Seq<char>,
    endpoint: Seq<char>,
    model: Option<ModelChoice>,
    grant: Seq<u8>,
    owned_provider: bool,
) -> bool {
    if provider_id != "hiroute"@ || !is_local_endpoint(endpoint) || (model matches Some(model)
        && !model.valid) {
        r matches Err(error) && error == CodexNativeError::InvalidIntent
    } else {
        match read_entries(current) {
            None => r matches Err(error) && error == CodexNativeError::InvalidToml,
            Some(entries) => match configured(
                entries,
                parsed_page(current)->0,
                target,
                endpoint,
                choice_view(model),
                grant,
                owned_provider,
            ) {
                Err(failure) => r matches Err(error) && error == failure,
                Ok(edit) => is_edit(r, edit, Seq::empty()),
            },
        }
    }
}

/// Whether the printer can count the quote marks of what an edit writes.
pub open spec fn edit_prints(model: Option<ModelChoice>, grant: Seq<u8>) -> bool {
    &&& model matches Some(model) ==> has_short_runs(model.name@)
    &&& utf8_text(grant) matches Some(token) ==> has_short_runs(token)
}

fn configure_codex_base(
    current: &str,
    target: &CodexSelectionTarget,
    provider_id: &str,
    endpoint: &str,
    model: &Option<ModelChoice>,
    grant: &[u8],
    owned_provider: bool,
) -> (r: Result<CodexNativeEdit, CodexNativeError>)
    requires
        edit_prints(*model, grant@),
    ensures
        edit_is(
            r,
            current@,
            *target,
            provider_id@,
            endpoint@,
            *model,
            grant@,
            owned_provider,
        ),
        r is Ok ==> sheet_wf(parsed_page(current@)->0.root),
{
    let model_is_valid = match model {
        Some(model) => model.valid,
        None => true,
    };
    if !same(provider_id, "hiroute") || !local_endpoint(endpoint) || !model_is_valid {
        return Err(CodexNativeError::InvalidIntent);
    }
    let mut document = match parse(current) {
        Ok(document) => document,
        Err(error) => return Err(error),
    };
    let name = match model {
        Some(model) => Some(model.name.as_str()),
        None => None,
    };
    proof {
        lemma_local_endpoint(endpoint@);
    }
    let restore = match configure_document(
        &mut document,
        target,
        endpoint,
        name,
        grant,
        owned_provider,
    ) {
        Ok(restore) => restore,
        Err(error) => return Err(error),
    };
    match render_bounded(&document) {
        Ok(rendered) => Ok(CodexNativeEdit { rendered, restore }),
        Err(error) => Err(error),
    }
}

/// Edits a configuration that is still the one that was previewed.
pub fn configure_codex_native(
    current: &str,
    expected: &CanonicalDigest,
    target: &CodexSelectionTarget,
    provider_id: &str,
    endpoint: &str,
    model: &Option<ModelChoice>,
    local_grant: &[u8],
) -> (r: Result<CodexNativeEdit, CodexNativeError>)
    requires
        edit_prints(*model, local_grant@),
    ensures
        if digest_of(vstd::utf8::encode_utf8(current@)) != expected@ {
            r matches Err(error) && error == CodexNativeError::SourceChanged
        } else {
            edit_is(
                r,
                current@,
                *target,
                provider_id@,
                endpoint@,
                *model,
                local_grant@,
                false,
            )
        },
        r is Ok ==> sheet_wf(parsed_page(current@)->0.root),
{
    if !CanonicalDigest::of_bytes(current.as_bytes()).equals(expected) {
        return Err(CodexNativeError::SourceChanged);
    }
    configure_codex_base(current, target, provider_id, endpoint, model, local_grant, false)
}

/// How an item compares with another: by fingerprint, and a table with nothing.
pub enum Mark {
    Absent,
    Digest(Seq<char>),
    Table,
}

pub open spec fn mark_of(node: Option<TomlNode>) -> Mark {
    match node {
        None => Mark::Absent,
        Some(node) => match fingerprint_of(node) {
            Some(digest) => Mark::Digest(digest),
            None => Mark::Table,
        },
    }
}

/// Whether a field is to be given back, as it now stands. A field that was set is given back only
/// while it is what the edit made of it; one that reads as before is left; any other is a
/// conflict. An observed model is given back only where it now names a managed alias.
pub open spec fn is_pending(
    entries: Map<Seq<char>, TomlNode>,
    field: FieldView,
    aliases: Seq<Seq<char>>,
) -> Result<bool, CodexNativeError> {
    match walk(entries, field.path.drop_last()) {
        Found::Blocked => Err(CodexNativeError::UnsupportedLayout),
        _ => {
            let now = node_at(entries, field.path);
            if field.passive {
                Ok(
                    (now matches Some(TomlNode::Str(model)) && aliases.contains(model)) && mark_of(
                        now,
                    ) != mark_of(field.before),
                )
            } else if mark_of(now) == mark_of(field.before) {
                Ok(false)
            } else if mark_of(now) != Mark::Digest(field.after) {
                Err(CodexNativeError::FieldConflict)
            } else {
                Ok(true)
            }
        },
    }
}

/// The fields that are to be given back, in their order.
pub open spec fn pending(
    entries: Map<Seq<char>, TomlNode>,
    fields: Seq<FieldView>,
    aliases: Seq<Seq<char>>,
) -> Result<Seq<FieldView>, CodexNativeError>
    decreases fields.len(),
{
    if fields.len() == 0 {
        Ok(Seq::empty())
    } else {
        match pending(entries, fields.drop_last(), aliases) {
            Err(error) => Err(error),
            Ok(list) => match is_pending(entries, fields.last(), aliases) {
                Err(error) => Err(error),
                Ok(wanted) => Ok(
                    if wanted {
                        list.push(fields.last())
                    } else {
                        list
                    },
                ),
            },
        }
    }
}

/// Gives one field back.
pub open spec fn given_back(entries: Map<Seq<char>, TomlNode>, field: FieldView) -> Result<
    Map<Seq<char>, TomlNode>,
    CodexNativeError,
> {
    let parent = field.path.drop_last();
    let key = field.path.last();
    match walk(entries, parent) {
        Found::Entries(inner) => match field.before {
            Some(node) => if inner.contains_key(key) {
                Ok(with_node(entries, parent, key, node))
            } else {
                Err(CodexNativeError::FieldConflict)
            },
            None => Ok(without_node(entries, parent, key)),
        },
        _ => Err(CodexNativeError::UnsupportedLayout),
    }
}

/// Gives fields back in their order.
pub open spec fn all_given_back(
    entries: Map<Seq<char>, TomlNode>,
    fields: Seq<FieldView>,
) -> Result<Map<Seq<char>, TomlNode>, CodexNativeError>
    decreases fields.len(),
{
    if fields.len() == 0 {
        Ok(entries)
    } else {
        match all_given_back(entries, fields.drop_last()) {
            Err(error) => Err(error),
            Ok(entries) => given_back(entries, fields.last()),
        }
    }
}

/// Removes the tables that an edit made and that are empty again, the last made first. A table
/// that the user has put something into stays.
pub open spec fn cleaned(
    entries: Map<Seq<char>, TomlNode>,
    created: Seq<Seq<Seq<char>>>,
) -> Result<Map<Seq<char>, TomlNode>, CodexNativeError>
    decreases created.len(),
{
    if created.len() == 0 {
        Ok(entries)
    } else {
        let path = created.last();
        match walk(entries, path) {
            Found::Blocked => Err(CodexNativeError::UnsupportedLayout),
            Found::Entries(inner) => if inner == crate::toml::no_entries() {
                cleaned(
                    without_node(entries, path.drop_last(), path.last()),
                    created.drop_last(),
                )
            } else {
                cleaned(entries, created.drop_last())
            },
            Found::Absent => cleaned(entries, created.drop_last()),
        }
    }
}

/// The table whose model an edit selected.
pub open spec fn model_table(fields: Seq<FieldView>) -> Option<Seq<Seq<char>>>
    decreases fields.len(),
{
    if fields.len() == 0 {
        None
    } else if fields[0].path.last() == "model"@ {
        Some(fields[0].path.drop_last())
    } else {
        model_table(fields.skip(1))
    }
}

/// What a restoration leaves, or why it is refused.
pub open spec fn restored(
    entries: Map<Seq<char>, TomlNode>,
    restore: RestoreView,
    native_model: Option<Seq<char>>,
) -> Result<Map<Seq<char>, TomlNode>, CodexNativeError> {
    match pending(entries, restore.fields, restore.aliases) {
        Err(error) => Err(error),
        Ok(fields) => match all_given_back(entries, fields) {
            Err(error) => Err(error),
            Ok(given) => match cleaned(given, restore.created) {
                Err(error) => Err(error),
                Ok(clean) => match native_model {
                    None => Ok(clean),
                    Some(model) => match model_table(restore.fields) {
                        None => Err(CodexNativeError::UnsupportedLayout),
                        Some(table) => if walk(clean, table) is Entries {
                            Ok(with_node(clean, table, "model"@, TomlNode::Str(model)))
                        } else {
                            Err(CodexNativeError::UnsupportedLayout)
                        },
                    },
                },
            },
        },
    }
}

/// Gives one field back as it was written, with what now surrounds it.
pub open spec fn page_given_back(page: TomlPage, field: FieldView) -> TomlPage {
    let parent = field.path.drop_last();
    let key = field.path.last();
    TomlPage {
        root: match field.body {
            Some(body) => put_in(page.root, parent, key, body),
            None => taken_from(page.root, parent, key),
        },
        ..page
    }
}

/// Gives fields back in their order.
pub open spec fn page_all_given_back(page: TomlPage, fields: Seq<FieldView>) -> TomlPage
    decreases fields.len(),
{
    if fields.len() == 0 {
        page
    } else {
        page_given_back(page_all_given_back(page, fields.drop_last()), fields.last())
    }
}

/// Removes the tables that an edit made and that are empty again, the last made first.
pub open spec fn page_cleaned(
    entries: Map<Seq<char>, TomlNode>,
    page: TomlPage,
    created: Seq<Seq<Seq<char>>>,
) -> TomlPage
    decreases created.len(),
{
    if created.len() == 0 {
        page
    } else {
        let path = created.last();
        match walk(entries, path) {
            Found::Entries(inner) => if inner == crate::toml::no_entries() {
                page_cleaned(
                    without_node(entries, path.drop_last(), path.last()),
                    TomlPage {
                        root: taken_from(page.root, path.drop_last(), path.last()),
                        ..page
                    },
                    created.drop_last(),
                )
            } else {
                page_cleaned(entries, page, created.drop_last())
            },
            _ => page_cleaned(entries, page, created.drop_last()),
        }
    }
}

/// How a restored document is written.
pub open spec fn restored_page(
    entries: Map<Seq<char>, TomlNode>,
    page: TomlPage,
    restore: RestoreView,
    native_model: Option<Seq<char>>,
) -> TomlPage {
    let fields = pending(entries, restore.fields, restore.aliases)->Ok_0;
    let given = all_given_back(entries, fields)->Ok_0;
    let clean = page_cleaned(given, page_all_given_back(page, fields), restore.created);
    match native_model {
        None => clean,
        Some(model) => TomlPage {
            root: put_in(
                clean.root,
                model_table(restore.fields)->0,
                "model"@,
                plain_body(TomlNode::Str(model)),
            ),
            ..clean
        },
    }
}

fn same_mark(a: &Option<CanonicalDigest>, b: &Option<CanonicalDigest>) -> (r: bool)
    ensures
        r == match (*a, *b) {
            (Some(x), Some(y)) => x@ == y@,
            (None, None) => true,
            _ => false,
        },
{
    match (a, b) {
        (Some(x), Some(y)) => x.equals(y),
        (None, None) => true,
        _ => false,
    }
}

impl FieldRestore {
    /// The parent path of the field, as a path of its own.
    fn parent(&self) -> (r: Vec<String>)
        requires
            self@.path.len() > 0,
        ensures
            path_view(r@) == self@.path.drop_last(),
    {
        let parent = copied_path(&self.path, self.path.len() - 1);
        assert(self@.path.take(self@.path.len() - 1) == self@.path.drop_last());
        parent
    }

    fn wanted(&self, document: &toml_edit::DocumentMut, aliases: &Vec<String>) -> (r: Result<
        bool,
        CodexNativeError,
    >)
        requires
            self@.wf(),
            prints(*document),
        ensures
            r == is_pending(document_entries(*document), self@, path_view(aliases@)),
    {
        let parent = self.parent();
        let ghost steps = path_view(parent@);
        assert(steps.skip(0) == steps);
        let table = match table_at(document.as_table(), &parent, 0) {
            Ok(table) => table,
            Err(()) => return Err(CodexNativeError::UnsupportedLayout),
        };
        let key = &self.path[self.path.len() - 1];
        assert(self@.path.last() == key@);
        let item = match table {
            Some(table) => {
                proof {
                    lemma_body_prints(table_sheet(*table), key@);
                }
                table.get(key.as_str())
            },
            None => None,
        };
        let before = match &self.before {
            Some(before) => fingerprint(before),
            None => None,
        };
        let now = match item {
            Some(item) => fingerprint(item),
            None => None,
        };
        let is_table = match item {
            Some(item) => item.as_table().is_some(),
            None => false,
        };
        let unchanged = !is_table && same_mark(&now, &before);
        if self.passive_model {
            let managed = match item {
                Some(item) => match item.as_str() {
                    Some(model) => holds(aliases, model),
                    None => false,
                },
                None => false,
            };
            return Ok(managed && !unchanged);
        }
        if unchanged {
            return Ok(false);
        }
        match &now {
            Some(digest) => if digest.equals(&self.after) {
                Ok(true)
            } else {
                Err(CodexNativeError::FieldConflict)
            },
            None => Err(CodexNativeError::FieldConflict),
        }
    }

    fn give_back(&self, document: &mut toml_edit::DocumentMut) -> (r: Result<(), CodexNativeError>)
        requires
            self@.wf(),
            prints(*old(document)),
        ensures
            r is Ok ==> prints(*final(document)) && document_page(*final(document))
                == page_given_back(document_page(*old(document)), self@),
            match given_back(document_entries(*old(document)), self@) {
                Ok(entries) => r is Ok && document_entries(*final(document)) == entries,
                Err(error) => r == Err::<(), _>(error),
            },
    {
        let parent = self.parent();
        let ghost steps = path_view(parent@);
        assert(steps.skip(0) == steps);
        let key = &self.path[self.path.len() - 1];
        assert(self@.path.last() == key@);
        match table_at(document.as_table(), &parent, 0) {
            Ok(Some(table)) => {
                if self.before.is_some() && !table.contains_key(key.as_str()) {
                    return Err(CodexNativeError::FieldConflict);
                }
                proof {
                    let root = document_page(*document).root;
                    assert(body_in(root, steps, key@) == body_at(table_sheet(*table), key@));
                    if self.before is Some {
                        lemma_put_in_prints(root, steps, key@, self@.body->0);
                    } else {
                        lemma_taken_from_prints(root, steps, key@);
                    }
                }
            },
            _ => return Err(CodexNativeError::UnsupportedLayout),
        }
        let done = match &self.before {
            Some(before) => put_item(
                document.as_table_mut(),
                &parent,
                0,
                key.as_str(),
                before.clone(),
            ),
            None => take_item(document.as_table_mut(), &parent, 0, key.as_str()),
        };
        match done {
            Some(()) => Ok(()),
            None => Err(CodexNativeError::UnsupportedLayout),
        }
    }
}

fn holds(list: &Vec<String>, text: &str) -> (r: bool)
    ensures
        r == path_view(list@).contains(text@),
{
    let mut i: usize = 0;
    while i < list.len()
        invariant
            i <= list.len(),
            forall|j: int| 0 <= j < i ==> #[trigger] path_view(list@)[j] != text@,
        decreases list.len() - i,
    {
        assert(path_view(list@)[i as int] == list@[i as int]@);
        if same(list[i].as_str(), text) {
            return true;
        }
        i += 1;
    }
    false
}

proof fn lemma_fields(restore: CodexNativeRestore)
    ensures
        restore@.fields.len() == restore.fields@.len(),
        forall|i: int|
            0 <= i < restore.fields@.len() ==> #[trigger] restore@.fields[i] == restore.fields@[i]@,
        restore@.created.len() == restore.created_tables@.len(),
        forall|i: int|
            0 <= i < restore.created_tables@.len() ==> #[trigger] restore@.created[i] == path_view(
                restore.created_tables@[i]@,
            ),
{
}

/// Restores what an edit changed, and selects a native model where one is named.
fn restore_document(
    document: &mut toml_edit::DocumentMut,
    restore: &CodexNativeRestore,
    native_model: Option<&str>,
) -> (r: Result<(), CodexNativeError>)
    requires
        restore@.wf(),
        prints(*old(document)),
        native_model matches Some(model) ==> has_short_runs(model@),
    ensures
        r is Ok ==> prints(*final(document)) && document_page(*final(document)) == restored_page(
            document_entries(*old(document)),
            document_page(*old(document)),
            restore@,
            name_view(native_model),
        ),
        match restored(document_entries(*old(document)), restore@, name_view(native_model)) {
            Ok(entries) => r is Ok && document_entries(*final(document)) == entries,
            Err(error) => r == Err::<(), _>(error),
        },
{
    let ghost first = document_entries(*document);
    let ghost page = document_page(*document);
    let ghost fields = restore@.fields;
    proof {
        lemma_fields(*restore);
    }
    let mut waiting: Vec<usize> = Vec::new();
    let ghost mut list: Seq<FieldView> = Seq::empty();
    let mut i: usize = 0;
    assert(fields.take(0) == Seq::<FieldView>::empty());
    while i < restore.fields.len()
        invariant
            i <= restore.fields.len(),
            restore@.wf(),
            fields == restore@.fields,
            fields.len() == restore.fields@.len(),
            forall|j: int|
                0 <= j < restore.fields@.len() ==> #[trigger] fields[j] == restore.fields@[j]@,
            first == document_entries(*old(document)),
            document_entries(*document) == first,
            document_page(*document) == page,
            prints(*document),
            pending(first, fields.take(i as int), restore@.aliases) == Ok::<_, CodexNativeError>(
                list,
            ),
            list.len() == waiting@.len(),
            forall|j: int|
                0 <= j < waiting@.len() ==> (#[trigger] waiting@[j]) < fields.len() && list[j]
                    == fields[waiting@[j] as int],
        decreases restore.fields.len() - i,
    {
        assert(fields.take(i + 1).drop_last() == fields.take(i as int));
        assert(fields.take(i + 1).last() == fields[i as int]);
        match restore.fields[i].wanted(document, &restore.managed_aliases) {
            Ok(true) => {
                waiting.push(i);
                proof {
                    list = list.push(fields[i as int]);
                }
            },
            Ok(false) => {},
            Err(error) => {
                proof {
                    lemma_pending_error(first, fields, restore@.aliases, i + 1);
                }
                return Err(error);
            },
        }
        i += 1;
    }
    assert(fields.take(i as int) == fields);
    let mut k: usize = 0;
    assert(list.take(0) == Seq::<FieldView>::empty());
    while k < waiting.len()
        invariant
            k <= waiting.len(),
            restore@.wf(),
            fields == restore@.fields,
            fields.len() == restore.fields@.len(),
            forall|j: int|
                0 <= j < restore.fields@.len() ==> #[trigger] fields[j] == restore.fields@[j]@,
            first == document_entries(*old(document)),
            list.len() == waiting@.len(),
            forall|j: int|
                0 <= j < waiting@.len() ==> (#[trigger] waiting@[j]) < fields.len() && list[j]
                    == fields[waiting@[j] as int],
            pending(first, fields, restore@.aliases) == Ok::<_, CodexNativeError>(list),
            all_given_back(first, list.take(k as int)) == Ok::<_, CodexNativeError>(
                document_entries(*document),
            ),
            document_page(*document) == page_all_given_back(page, list.take(k as int)),
            prints(*document),
        decreases waiting.len() - k,
    {
        assert(list.take(k + 1).drop_last() == list.take(k as int));
        assert(list.take(k + 1).last() == list[k as int]);
        let at: usize = waiting[k];
        match restore.fields[at].give_back(document) {
            Ok(()) => {},
            Err(error) => {
                proof {
                    lemma_given_back_error(first, list, k + 1);
                }
                return Err(error);
            },
        }
        k += 1;
    }
    assert(list.take(k as int) == list);
    let ghost given = document_entries(*document);
    let ghost given_page = document_page(*document);
    let ghost created = restore@.created;
    let mut left: usize = restore.created_tables.len();
    assert(created.take(left as int) == created);
    while left > 0
        invariant
            left <= restore.created_tables.len(),
            restore@.wf(),
            created == restore@.created,
            created.len() == restore.created_tables@.len(),
            forall|j: int|
                0 <= j < restore.created_tables@.len() ==> #[trigger] created[j] == path_view(
                    restore.created_tables@[j]@,
                ),
            first == document_entries(*old(document)),
            pending(first, restore@.fields, restore@.aliases) == Ok::<_, CodexNativeError>(list),
            all_given_back(first, list) == Ok::<_, CodexNativeError>(given),
            cleaned(given, created) == cleaned(
                document_entries(*document),
                created.take(left as int),
            ),
            given_page == page_all_given_back(page, list),
            page_cleaned(given, given_page, created) == page_cleaned(
                document_entries(*document),
                document_page(*document),
                created.take(left as int),
            ),
            prints(*document),
        decreases left,
    {
        let path = &restore.created_tables[left - 1];
        let ghost steps = path_view(path@);
        assert(created.take(left as int).drop_last() == created.take(left - 1));
        assert(created.take(left as int).last() == steps);
        assert(steps.skip(0) == steps);
        assert(created[left - 1].len() > 0);
        let empty = match table_at(document.as_table(), path, 0) {
            Ok(Some(table)) => table.is_empty(),
            Ok(None) => false,
            Err(()) => return Err(CodexNativeError::UnsupportedLayout),
        };
        if empty {
            let parent = copied_path(path, path.len() - 1);
            proof {
                assert(steps.take(steps.len() - 1) == steps.drop_last());
                assert(path_view(parent@).skip(0) == path_view(parent@));
                lemma_parent_is_table(document_entries(*document), steps);
            }
            match table_at(document.as_table(), &parent, 0) {
                Ok(Some(_)) => {},
                _ => return Err(CodexNativeError::UnsupportedLayout),
            }
            proof {
                lemma_taken_from_prints(
                    document_page(*document).root,
                    path_view(parent@),
                    steps.last(),
                );
            }
            match take_item(
                document.as_table_mut(),
                &parent,
                0,
                path[path.len() - 1].as_str(),
            ) {
                Some(()) => {},
                None => return Err(CodexNativeError::UnsupportedLayout),
            }
        }
        left -= 1;
    }
    assert(created.take(0) == Seq::<Seq<Seq<char>>>::empty());
    match native_model {
        None => Ok(()),
        Some(model) => {
            let table = match restore.model_parent() {
                Some(table) => table,
                None => return Err(CodexNativeError::UnsupportedLayout),
            };
            assert(path_view(table@).skip(0) == path_view(table@));
            match table_at(document.as_table(), &table, 0) {
                Ok(Some(_)) => {},
                _ => return Err(CodexNativeError::UnsupportedLayout),
            }
            proof {
                lemma_own_texts();
                lemma_put_in_prints(
                    document_page(*document).root,
                    path_view(table@),
                    "model"@,
                    plain_body(TomlNode::Str(model@)),
                );
            }
            match put_item(document.as_table_mut(), &table, 0, "model", str_item(model)) {
                Some(()) => Ok(()),
                None => Err(CodexNativeError::UnsupportedLayout),
            }
        },
    }
}

proof fn lemma_pending_error(
    entries: Map<Seq<char>, TomlNode>,
    fields: Seq<FieldView>,
    aliases: Seq<Seq<char>>,
    k: int,
)
    requires
        0 <= k <= fields.len(),
        pending(entries, fields.take(k), aliases) is Err,
    ensures
        pending(entries, fields, aliases) == pending(entries, fields.take(k), aliases),
    decreases fields.len() - k,
{
    if k < fields.len() {
        assert(fields.take(k + 1).drop_last() == fields.take(k));
        lemma_pending_error(entries, fields, aliases, k + 1);
    } else {
        assert(fields.take(k) == fields);
    }
}

proof fn lemma_given_back_error(
    entries: Map<Seq<char>, TomlNode>,
    fields: Seq<FieldView>,
    k: int,
)
    requires
        0 <= k <= fields.len(),
        all_given_back(entries, fields.take(k)) is Err,
    ensures
        all_given_back(entries, fields) == all_given_back(entries, fields.take(k)),
    decreases fields.len() - k,
{
    if k < fields.len() {
        assert(fields.take(k + 1).drop_last() == fields.take(k));
        lemma_given_back_error(entries, fields, k + 1);
    } else {
        assert(fields.take(k) == fields);
    }
}

proof fn lemma_parent_is_table(entries: Map<Seq<char>, TomlNode>, path: Seq<Seq<char>>)
    requires
        path.len() > 0,
        walk(entries, path) is Entries,
    ensures
        walk(entries, path.drop_last()) is Entries,
    decreases path.len(),
{
    if path.len() > 1 {
        let inner = entries[path[0]]->Entries_0;
        lemma_parent_is_table(inner, path.skip(1));
        assert(path.skip(1).drop_last() == path.drop_last().skip(1));
        assert(path.drop_last()[0] == path[0]);
    } else {
        assert(path.drop_last() == Seq::<Seq<char>>::empty());
    }
}

/// Whether a field is the last key of a path, read as `key`.
fn path_ends_with(path: &Vec<String>, key: &str) -> (r: bool)
    ensures
        r == (path@.len() > 0 && path_view(path@).last() == key@),
{
    if path.len() == 0 {
        return false;
    }
    assert(path_view(path@).last() == path@[path@.len() - 1]@);
    same(path[path.len() - 1].as_str(), key)
}

impl CodexNativeRestore {
    fn model_parent(&self) -> (r: Option<Vec<String>>)
        requires
            self@.wf(),
        ensures
            match model_table(self@.fields) {
                Some(path) => r matches Some(table) && path_view(table@) == path,
                None => r is None,
            },
    {
        let ghost fields = self@.fields;
        proof {
            lemma_fields(*self);
        }
        let mut i: usize = 0;
        assert(fields.skip(0) == fields);
        while i < self.fields.len()
            invariant
                i <= self.fields.len(),
                self@.wf(),
                fields == self@.fields,
                fields.len() == self.fields@.len(),
                forall|j: int|
                    0 <= j < self.fields@.len() ==> #[trigger] fields[j] == self.fields@[j]@,
                model_table(fields) == model_table(fields.skip(i as int)),
            decreases self.fields.len() - i,
        {
            assert(fields.skip(i as int)[0] == fields[i as int]);
            assert(fields.skip(i as int).skip(1) == fields.skip(i + 1));
            assert(fields[i as int].path.len() > 0);
            if path_ends_with(&self.fields[i].path, "model") {
                return Some(self.fields[i].parent());
            }
            i += 1;
        }
        None
    }
}

/// What a restoration of a text comes to.
pub open spec fn restoration_is(
    r: Result<String, CodexNativeError>,
    current: Seq<char>,
    restore: RestoreView,
    native_model: Option<Seq<char>>,
) -> bool {
    match read_entries(current) {
        None => r matches Err(error) && error == CodexNativeError::InvalidToml,
        Some(entries) => match restored(entries, restore, native_model) {
            Err(failure) => r matches Err(error) && error == failure,
            Ok(_) => text_view(r) == bounded_text(
                restored_page(entries, parsed_page(current)->0, restore, native_model),
            ),
        },
    }
}

/// Restores native ownership and, where a model is chosen, selects it. The choice must be a valid
/// client model name.
pub fn restore_codex_native_with_model(
    current: &str,
    restore: &CodexNativeRestore,
    native_model: &Option<ModelChoice>,
) -> (r: Result<String, CodexNativeError>)
    requires
        restore@.wf(),
        native_model matches Some(model) ==> has_short_runs(model.name@),
    ensures
        if native_model matches Some(model) && !model.valid {
            r matches Err(error) && error == CodexNativeError::InvalidIntent
        } else {
            restoration_is(r, current@, restore@, choice_view(*native_model))
        },
{
    let model = match native_model {
        Some(model) => {
            if !model.valid {
                return Err(CodexNativeError::InvalidIntent);
            }
            Some(model.name.as_str())
        },
        None => None,
    };
    let mut document = match parse(current) {
        Ok(document) => document,
        Err(error) => return Err(error),
    };
    match restore_document(&mut document, restore, model) {
        Ok(()) => {},
        Err(error) => return Err(error),
    }
    render_bounded(&document)
}

pub fn restore_codex_native(current: &str, restore: &CodexNativeRestore) -> (r: Result<
    String,
    CodexNativeError,
>)
    requires
        restore@.wf(),
    ensures
        restoration_is(r, current@, restore@, None),
{
    restore_codex_native_with_model(current, restore, &None)
}

impl RestoreView {
    /// Whether a field now reads as the edit made it.
    pub open spec fn field_applied(entries: Map<Seq<char>, TomlNode>, field: FieldView) -> bool {
        node_at(entries, field.path) matches Some(node) && fingerprint_of(node) == Some(field.after)
    }

    /// Whether every field that was set still reads as the edit made it. Other settings and the
    /// spelling may change.
    pub open spec fn is_applied(self, entries: Map<Seq<char>, TomlNode>) -> bool {
        forall|i: int|
            0 <= i < self.fields.len() && !(#[trigger] self.fields[i]).passive
                ==> Self::field_applied(entries, self.fields[i])
    }

    /// Whether an edit made the provider itself: none of its own fields was there before.
    pub open spec fn owns(self, provider_id: Seq<char>) -> bool {
        &&& self.made_provider_field(provider_id, "name"@)
        &&& self.made_provider_field(provider_id, "base_url"@)
        &&& self.made_provider_field(provider_id, "wire_api"@)
        &&& self.made_provider_field(provider_id, "requires_openai_auth"@)
        &&& self.made_provider_field(provider_id, "supports_websockets"@)
    }

    pub open spec fn made_provider_field(self, provider_id: Seq<char>, key: Seq<char>) -> bool {
        exists|i: int|
            0 <= i < self.fields.len() && (#[trigger] self.fields[i]).before is None
                && self.fields[i].path == seq!["model_providers"@, provider_id, key]
    }

    /// The catalog pointer that an edit replaced, where it wrote one.
    pub open spec fn pointer_before(self) -> Option<Option<Seq<char>>> {
        first_pointer(self.fields)
    }
}

pub open spec fn first_pointer(fields: Seq<FieldView>) -> Option<Option<Seq<char>>>
    decreases fields.len(),
{
    if fields.len() == 0 {
        None
    } else if fields[0].path.last() == "model_catalog_json"@ {
        Some(
            match fields[0].before {
                Some(TomlNode::Str(text)) => Some(text),
                _ => None,
            },
        )
    } else {
        first_pointer(fields.skip(1))
    }
}

impl CodexNativeRestore {
    /// Status follows the fields that were set.
    pub fn managed_fields_are_applied(&self, current: &str) -> (r: bool)
        requires
            self@.wf(),
        ensures
            r == (read_entries(current@) matches Some(entries) && self@.is_applied(entries)),
    {
        let document = match parse(current) {
            Ok(document) => document,
            Err(_) => return false,
        };
        let ghost entries = document_entries(document);
        proof {
            lemma_fields(*self);
        }
        let mut i: usize = 0;
        while i < self.fields.len()
            invariant
                i <= self.fields.len(),
                self@.wf(),
                self@.fields.len() == self.fields@.len(),
                forall|j: int|
                    0 <= j < self.fields@.len() ==> #[trigger] self@.fields[j] == self.fields@[j]@,
                entries == document_entries(document),
                read_entries(current@) == Some(entries),
                prints(document),
                forall|j: int|
                    0 <= j < i && !(#[trigger] self@.fields[j]).passive
                        ==> RestoreView::field_applied(entries, self@.fields[j]),
            decreases self.fields.len() - i,
        {
            let field = &self.fields[i];
            assert(self@.fields[i as int] == field@);
            if !field.passive_model {
                let parent = field.parent();
                assert(path_view(parent@).skip(0) == path_view(parent@));
                let key = &field.path[field.path.len() - 1];
                assert(field@.path.last() == key@);
                let item = match table_at(document.as_table(), &parent, 0) {
                    Ok(Some(table)) => {
                        proof {
                            lemma_body_prints(table_sheet(*table), key@);
                        }
                        table.get(key.as_str())
                    },
                    _ => None,
                };
                let applied = match item {
                    Some(item) => match fingerprint(item) {
                        Some(digest) => digest.equals(&field.after),
                        None => false,
                    },
                    None => false,
                };
                if !applied {
                    return false;
                }
            }
            i += 1;
        }
        true
    }

    fn made_field(&self, provider_id: &str, key: &str) -> (r: bool)
        requires
            self@.wf(),
        ensures
            r == self@.made_provider_field(provider_id@, key@),
    {
        let wanted = path_of(&["model_providers", provider_id, key]);
        assert(path_view(wanted@) == seq!["model_providers"@, provider_id@, key@]);
        proof {
            lemma_fields(*self);
        }
        let mut i: usize = 0;
        while i < self.fields.len()
            invariant
                i <= self.fields.len(),
                self@.fields.len() == self.fields@.len(),
                path_view(wanted@) == seq!["model_providers"@, provider_id@, key@],
                forall|j: int|
                    0 <= j < self.fields@.len() ==> #[trigger] self@.fields[j] == self.fields@[j]@,
                forall|j: int|
                    0 <= j < i ==> !((#[trigger] self@.fields[j]).before is None
                        && self@.fields[j].path == path_view(wanted@)),
            decreases self.fields.len() - i,
        {
            assert(self@.fields[i as int] == self.fields@[i as int]@);
            if self.fields[i].before.is_none() && same_path(&self.fields[i].path, &wanted) {
                return true;
            }
            i += 1;
        }
        false
    }

    fn owns_provider(&self, provider_id: &str) -> (r: bool)
        requires
            self@.wf(),
        ensures
            r == self@.owns(provider_id@),
    {
        self.made_field(provider_id, "name") && self.made_field(provider_id, "base_url")
            && self.made_field(provider_id, "wire_api") && self.made_field(
            provider_id,
            "requires_openai_auth",
        ) && self.made_field(provider_id, "supports_websockets")
    }

    /// When this edit wrote the managed catalog pointer, the user's original pointer it replaced
    /// (`None` inside means the user had none). Absent when the edit never touched the pointer.
    pub fn catalog_pointer_before(&self) -> (r: Option<Option<String>>)
        requires
            self@.wf(),
        ensures
            match self@.pointer_before() {
                Some(Some(text)) => r matches Some(Some(pointer)) && pointer@ == text,
                Some(None) => r matches Some(None),
                None => r is None,
            },
    {
        let ghost fields = self@.fields;
        proof {
            lemma_fields(*self);
        }
        let mut i: usize = 0;
        assert(fields.skip(0) == fields);
        while i < self.fields.len()
            invariant
                i <= self.fields.len(),
                self@.wf(),
                fields == self@.fields,
                fields.len() == self.fields@.len(),
                forall|j: int|
                    0 <= j < self.fields@.len() ==> #[trigger] fields[j] == self.fields@[j]@,
                first_pointer(fields) == first_pointer(fields.skip(i as int)),
            decreases self.fields.len() - i,
        {
            assert(fields.skip(i as int)[0] == fields[i as int]);
            assert(fields.skip(i as int).skip(1) == fields.skip(i + 1));
            assert(fields[i as int].path.len() > 0);
            if path_ends_with(&self.fields[i].path, "model_catalog_json") {
                return Some(
                    match &self.fields[i].before {
                        Some(item) => match item.as_str() {
                            Some(text) => Some(text.to_owned()),
                            None => None,
                        },
                        None => None,
                    },
                );
            }
            i += 1;
        }
        None
    }
}

fn same_path(a: &Vec<String>, b: &Vec<String>) -> (r: bool)
    ensures
        r == (path_view(a@) == path_view(b@)),
{
    if a.len() != b.len() {
        assert(path_view(a@).len() != path_view(b@).len());
        return false;
    }
    let mut i: usize = 0;
    while i < a.len()
        invariant
            i <= a.len() == b.len(),
            forall|j: int| 0 <= j < i ==> #[trigger] path_view(a@)[j] == path_view(b@)[j],
        decreases a.len() - i,
    {
        if !same(a[i].as_str(), b[i].as_str()) {
            assert(path_view(a@)[i as int] != path_view(b@)[i as int]);
            return false;
        }
        i += 1;
    }
    assert(path_view(a@) == path_view(b@));
    true
}

/// Replaces the fields of a configuration whose restoration proves that its provider is HiRoute's
/// own. The new restoration goes back to the user's original fields.
pub fn reconfigure_codex_native(
    current: &str,
    expected: &CanonicalDigest,
    previous: &CodexNativeRestore,
    target: &CodexSelectionTarget,
    provider_id: &str,
    endpoint: &str,
    model: &Option<ModelChoice>,
    local_grant: &[u8],
) -> (r: Result<CodexNativeEdit, CodexNativeError>)
    requires
        previous@.wf(),
        edit_prints(*model, local_grant@),
    ensures
        if digest_of(vstd::utf8::encode_utf8(current@)) != expected@ {
            r matches Err(error) && error == CodexNativeError::SourceChanged
        } else {
            exists|base: Result<String, CodexNativeError>| #[trigger]
                restoration_is(base, current@, previous@, None) && match base {
                    Err(failure) => r matches Err(error) && error == failure,
                    Ok(text) => edit_is(
                        r,
                        text@,
                        *target,
                        provider_id@,
                        endpoint@,
                        *model,
                        local_grant@,
                        previous@.owns(provider_id@),
                    ),
                }
        },
{
    if !CanonicalDigest::of_bytes(current.as_bytes()).equals(expected) {
        return Err(CodexNativeError::SourceChanged);
    }
    let base = restore_codex_native(current, previous);
    let ghost outcome = base;
    match base {
        Err(error) => {
            assert(restoration_is(outcome, current@, previous@, None));
            Err(error)
        },
        Ok(text) => {
            assert(restoration_is(outcome, current@, previous@, None));
            configure_codex_base(
                text.as_str(),
                target,
                provider_id,
                endpoint,
                model,
                local_grant,
                previous.owns_provider(provider_id),
            )
        },
    }
}

/// The model that a configuration names at its root.
pub fn codex_explicit_model(text: &str) -> (r: Result<Option<String>, CodexNativeError>)
    ensures
        match read_entries(text@) {
            None => r matches Err(error) && error == CodexNativeError::InvalidToml,
            Some(entries) => if entries.contains_key("model"@) && entries["model"@] is Str {
                r matches Ok(Some(model)) && model@ == entries["model"@]->Str_0
            } else {
                r matches Ok(None)
            },
        },
{
    let document = match parse(text) {
        Ok(document) => document,
        Err(error) => return Err(error),
    };
    match document.as_table().get("model") {
        Some(item) => match item.as_str() {
            Some(model) => Ok(Some(model.to_owned())),
            None => Ok(None),
        },
        None => Ok(None),
    }
}

/// The reasoning effort that a configuration names at its root.
pub fn codex_explicit_reasoning_effort(text: &str) -> (r: Result<Option<String>, CodexNativeError>)
    ensures
        match read_entries(text@) {
            None => r matches Err(error) && error == CodexNativeError::InvalidToml,
            Some(entries) => if !entries.contains_key("model_reasoning_effort"@) {
                r matches Ok(None)
            } else if entries["model_reasoning_effort"@] is Str {
                r matches Ok(Some(effort)) && effort@ == entries["model_reasoning_effort"@]->Str_0
            } else {
                r matches Err(error) && error == CodexNativeError::UnsupportedLayout
            },
        },
{
    let document = match parse(text) {
        Ok(document) => document,
        Err(error) => return Err(error),
    };
    match document.as_table().get("model_reasoning_effort") {
        Some(item) => match item.as_str() {
            Some(effort) => Ok(Some(effort.to_owned())),
            None => Err(CodexNativeError::UnsupportedLayout),
        },
        None => Ok(None),
    }
}

/// The table whose provider an edit selected.
pub open spec fn provider_table(fields: Seq<FieldView>) -> Option<Seq<Seq<char>>>
    decreases fields.len(),
{
    if fields.len() == 0 {
        None
    } else if fields[0].path.last() == "model_provider"@ {
        Some(fields[0].path.drop_last())
    } else {
        provider_table(fields.skip(1))
    }
}

/// Whether a path can be written as a catalog pointer.
pub open spec fn is_catalog_path(path: Seq<char>) -> bool {
    is_plain_absolute(path) && !path.contains('\0') && !path.contains('\r') && !path.contains(
        '\n',
    )
}

impl CodexNativeEdit {
    /// Records the aliases that the edit manages: at most a hundred and twenty-eight, each valid
    /// and each once.
    pub fn with_managed_aliases(self, aliases: &Vec<ModelChoice>) -> (r: Result<
        Self,
        CodexNativeError,
    >)
        ensures
            if aliases@.len() <= 128 && aliases_are_distinct(aliases@) {
                &&& r matches Ok(edit)
                &&& edit.rendered == self.rendered
                &&& edit.restore@ == (RestoreView { aliases: alias_names(aliases@), ..self.restore@
                })
            } else {
                r matches Err(error) && error == CodexNativeError::InvalidIntent
            },
    {
        if aliases.len() > 128 {
            return Err(CodexNativeError::InvalidIntent);
        }
        let mut names: Vec<String> = Vec::new();
        let mut i: usize = 0;
        while i < aliases.len()
            invariant
                i <= aliases.len(),
                path_view(names@) == alias_names(aliases@.take(i as int)),
                forall|j: int| 0 <= j < i ==> (#[trigger] aliases@[j]).valid,
                forall|j: int, k: int|
                    0 <= j < k < i ==> (#[trigger] aliases@[j]).name@ != (
                    #[trigger] aliases@[k]).name@,
            decreases aliases.len() - i,
        {
            let alias = &aliases[i];
            proof {
                assert forall|j: int| 0 <= j < i implies path_view(names@)[j]
                    == #[trigger] aliases@[j].name@ by {
                    assert(alias_names(aliases@.take(i as int))[j] == aliases@.take(
                        i as int,
                    )[j].name@);
                }
            }
            if !alias.valid || holds(&names, alias.name.as_str()) {
                assert(!aliases_are_distinct(aliases@)) by {
                    if alias.valid {
                        let j = choose|j: int|
                            0 <= j < path_view(names@).len() && path_view(names@)[j] == alias.name@;
                        assert(aliases@[j].name@ == aliases@[i as int].name@);
                    } else {
                        assert(!aliases@[i as int].valid);
                    }
                }
                return Err(CodexNativeError::InvalidIntent);
            }
            proof {
                assert forall|j: int| 0 <= j < i implies aliases@[j].name@ != alias.name@ by {
                    assert(path_view(names@)[j] == aliases@[j].name@);
                }
            }
            let ghost before = names@;
            names.push(alias.name.clone());
            proof {
                assert(path_view(names@) == path_view(before).push(alias.name@));
                assert(alias_names(aliases@.take(i + 1)) == alias_names(
                    aliases@.take(i as int),
                ).push(alias.name@));
            }
            i += 1;
        }
        assert(aliases@.take(i as int) == aliases@);
        let mut edit = self;
        edit.restore.managed_aliases = names;
        proof {
            assert(edit.restore@.fields == self.restore@.fields);
            assert(edit.restore@.created == self.restore@.created);
        }
        Ok(edit)
    }

    /// Points the selected table at a catalog of HiRoute's own. An edit does so at most once.
    pub fn with_model_catalog(self, path: &str) -> (r: Result<Self, CodexNativeError>)
        requires
            self.restore@.wf(),
            has_short_runs(path@),
        ensures
            if !is_catalog_path(path@) || self.restore@.pointer_before() is Some {
                r matches Err(error) && error == CodexNativeError::InvalidIntent
            } else {
                match provider_table(self.restore@.fields) {
                    None => r matches Err(error) && error == CodexNativeError::UnsupportedLayout,
                    Some(table) => match read_entries(self.rendered@) {
                        None => r matches Err(error) && error == CodexNativeError::InvalidToml,
                        Some(entries) => match (EditView {
                            entries,
                            page: parsed_page(self.rendered@)->0,
                            fields: self.restore@.fields,
                            created: self.restore@.created,
                        }).set(table, "model_catalog_json"@, TomlNode::Str(path@)) {
                            None => r matches Err(error) && error
                                == CodexNativeError::UnsupportedLayout,
                            Some(edit) => is_edit(r, edit, self.restore@.aliases),
                        },
                    },
                }
            },
    {
        if !plain_absolute(path) || has_char(path, '\0') || has_char(path, '\r') || has_char(
            path,
            '\n',
        ) || self.restore.catalog_pointer_before().is_some() {
            return Err(CodexNativeError::InvalidIntent);
        }
        let table = match self.restore.provider_parent() {
            Some(table) => table,
            None => return Err(CodexNativeError::UnsupportedLayout),
        };
        let mut document = match parse(self.rendered.as_str()) {
            Ok(document) => document,
            Err(error) => return Err(error),
        };
        let ghost start = EditView {
            entries: document_entries(document),
            page: document_page(document),
            fields: self.restore@.fields,
            created: self.restore@.created,
        };
        proof {
            lemma_own_texts();
        }
        let mut restore = self.restore;
        assert(edit_view(document, restore) == start);
        match set(&mut document, &table, "model_catalog_json", str_item(path), &mut restore) {
            Ok(()) => {},
            Err(error) => return Err(error),
        }
        let ghost edit = start.set(path_view(table@), "model_catalog_json"@, TomlNode::Str(path@))->0;
        assert(edit_view(document, restore) == edit);
        match render_bounded(&document) {
            Ok(rendered) => Ok(CodexNativeEdit { rendered, restore }),
            Err(error) => Err(error),
        }
    }
}

pub open spec fn alias_names(aliases: Seq<ModelChoice>) -> Seq<Seq<char>> {
    aliases.map_values(|alias: ModelChoice| alias.name@)
}

/// Whether aliases are valid and no two are the same.
pub open spec fn aliases_are_distinct(aliases: Seq<ModelChoice>) -> bool {
    &&& forall|i: int| 0 <= i < aliases.len() ==> (#[trigger] aliases[i]).valid
    &&& forall|i: int, j: int|
        0 <= i < j < aliases.len() ==> (#[trigger] aliases[i]).name@ != (
        #[trigger] aliases[j]).name@
}

impl CodexNativeRestore {
    fn provider_parent(&self) -> (r: Option<Vec<String>>)
        requires
            self@.wf(),
        ensures
            match provider_table(self@.fields) {
                Some(path) => r matches Some(table) && path_view(table@) == path,
                None => r is None,
            },
    {
        let ghost fields = self@.fields;
        proof {
            lemma_fields(*self);
        }
        let mut i: usize = 0;
        assert(fields.skip(0) == fields);
        while i < self.fields.len()
            invariant
                i <= self.fields.len(),
                self@.wf(),
                fields == self@.fields,
                fields.len() == self.fields@.len(),
                forall|j: int|
                    0 <= j < self.fields@.len() ==> #[trigger] fields[j] == self.fields@[j]@,
                provider_table(fields) == provider_table(fields.skip(i as int)),
            decreases self.fields.len() - i,
        {
            assert(fields.skip(i as int)[0] == fields[i as int]);
            assert(fields.skip(i as int).skip(1) == fields.skip(i + 1));
            assert(fields[i as int].path.len() > 0);
            if path_ends_with(&self.fields[i].path, "model_provider") {
                return Some(self.fields[i].parent());
            }
            i += 1;
        }
        None
    }
}

} // verus!
