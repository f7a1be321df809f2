//! The effective Codex configuration of an explicit launch scope.
//!
//! The files and overrides of a scope are given; nothing is searched for and no project's trust is
//! inferred. A later layer counts before an earlier one.

use vstd::prelude::*;
use crate::agents::codex_config::CodexSelectionTarget;
use crate::agents::discovery::{observations_view, ConfigLayerV1, ConfigObservationV1, ObservationView};
use crate::agents::filesystem::AgentFilesystemScanError;
use crate::agents::codex_layer_laws::{
    dependency_list, lemma_dependency_texts, reads_back, tell_absences, tells_absence,
};
use crate::digest::{digest_of, CanonicalDigest};
use crate::json::{
    array_view, canonical_digest, canonical_digest_of, is_plain, lemma_array_view, Json, JsonView,
};
use crate::paths::{
    absolute, directly_in, is_absolute, lies_in, parent_of, parent_path, path_steps, same_texts, split, split_text,
    steps_of,
};
use crate::text::{
    alphanumeric, byte_len, bytes_in, chars_of, decimal, decimal_text, has_char, is_alphanumeric,
    after_first, before_first, debug_quoted, quoted, same, split_once, text_of_bytes, trim,
    trimmed, utf8_text, views_of,
};
use crate::toml::{
    document_entries, is_bare, item_node, list_keys, parsed_entries, parsed_node, path_view, read_document,
    read_value_item, str_item, table_at, table_entries, table_item, walk, Found, TomlNode,
};

verus! {

/// A launch scope, populated by trusted launch-context selection. Project files stand from the
/// outermost to the innermost and are trusted already.
#[derive(Debug)]
pub struct CodexConfigurationScope {
    /// The native home of the selected target. The catalog cache is looked for here only.
    pub codex_home: String,
    pub user_file: String,
    pub system_file: Option<String>,
    pub trusted_project_files: Vec<String>,
    pub selection: CodexSelectionTarget,
    pub selected_profile_file: Option<String>,
    pub cli_overrides: Vec<String>,
}

impl CodexConfigurationScope {
    /// The scope of a user's file alone.
    pub fn user_file(path: String) -> (r: Self)
        ensures
            r.codex_home@ == (match parent_of(path@) {
                Some(parent) => parent,
                None => Seq::empty(),
            }),
            r.user_file == path,
            r.system_file is None,
            r.trusted_project_files@.len() == 0,
            r.selection is Root,
            r.selected_profile_file is None,
            r.cli_overrides@.len() == 0,
    {
        CodexConfigurationScope {
            codex_home: match parent_path(path.as_str()) {
                Some(parent) => parent,
                None => String::new(),
            },
            user_file: path,
            system_file: None,
            trusted_project_files: Vec::new(),
            selection: CodexSelectionTarget::Root,
            selected_profile_file: None,
            cli_overrides: Vec::new(),
        }
    }
}

/// What reading a file of the scope gave: its bytes, its absence or a failure.
pub type LayerRead = Result<Option<Vec<u8>>, AgentFilesystemScanError>;

/// A file of the scope and its layer.
#[derive(Debug)]
pub struct LayerFile {
    pub path: String,
    pub layer: ConfigLayerV1,
}

pub struct LayerView {
    pub path: Seq<char>,
    pub layer: ConfigLayerV1,
}

pub open spec fn layers_view(files: Seq<LayerFile>) -> Seq<LayerView> {
    files.map_values(|file: LayerFile| LayerView { path: file.path@, layer: file.layer })
}

pub open spec fn optional_layer(path: Option<String>, layer: ConfigLayerV1) -> Seq<LayerView> {
    match path {
        Some(path) => seq![LayerView { path: path@, layer }],
        None => Seq::empty(),
    }
}

/// The files of a scope: the system's, the user's, the projects' and the selected profile's.
pub open spec fn scope_layers(scope: CodexConfigurationScope) -> Seq<LayerView> {
    optional_layer(scope.system_file, ConfigLayerV1::Managed) + seq![
        LayerView { path: scope.user_file@, layer: ConfigLayerV1::User },
    ] + scope.trusted_project_files@.map_values(
        |path: String| LayerView { path: path@, layer: ConfigLayerV1::Project },
    ) + optional_layer(scope.selected_profile_file, ConfigLayerV1::Launch)
}

/// The files to read for a scope, in their order. The system's file is read by the policy for
/// system files.
pub fn layer_files(scope: &CodexConfigurationScope) -> (r: Vec<LayerFile>)
    ensures
        layers_view(r@) == scope_layers(*scope),
{
    let mut files: Vec<LayerFile> = Vec::new();
    match &scope.system_file {
        Some(path) => {
            files.push(LayerFile { path: path.clone(), layer: ConfigLayerV1::Managed });
        },
        None => {},
    }
    assert(layers_view(files@) =~= optional_layer(scope.system_file, ConfigLayerV1::Managed));
    files.push(LayerFile { path: scope.user_file.clone(), layer: ConfigLayerV1::User });
    let ghost first = layers_view(files@);
    let ghost projects = scope.trusted_project_files@.map_values(
        |path: String| LayerView { path: path@, layer: ConfigLayerV1::Project },
    );
    assert(first =~= optional_layer(scope.system_file, ConfigLayerV1::Managed) + seq![
        LayerView { path: scope.user_file@, layer: ConfigLayerV1::User },
    ]);
    let mut i: usize = 0;
    assert(first + projects.take(0) =~= first);
    while i < scope.trusted_project_files.len()
        invariant
            i <= scope.trusted_project_files.len(),
            projects == scope.trusted_project_files@.map_values(
                |path: String| LayerView { path: path@, layer: ConfigLayerV1::Project },
            ),
            layers_view(files@) == first + projects.take(i as int),
        decreases scope.trusted_project_files.len() - i,
    {
        let ghost before = layers_view(files@);
        files.push(
            LayerFile {
                path: scope.trusted_project_files[i].clone(),
                layer: ConfigLayerV1::Project,
            },
        );
        proof {
            assert(layers_view(files@) =~= before.push(projects[i as int]));
            assert(first + projects.take(i + 1) =~= (first + projects.take(i as int)).push(
                projects[i as int],
            ));
        }
        i += 1;
    }
    assert(projects.take(i as int) == projects);
    let ghost before = layers_view(files@);
    match &scope.selected_profile_file {
        Some(path) => {
            files.push(LayerFile { path: path.clone(), layer: ConfigLayerV1::Launch });
        },
        None => {},
    }
    assert(layers_view(files@) =~= before + optional_layer(
        scope.selected_profile_file,
        ConfigLayerV1::Launch,
    ));
    files
}

/// Whether a key of a layer enters the effective document.
pub open spec fn is_source_key(key: Seq<char>) -> bool {
    key == "model"@ || key == "model_provider"@ || key == "model_providers"@ || key
        == "model_catalog_json"@ || key == "model_context_window"@ || key
        == "model_auto_compact_token_limit"@ || key == "model_reasoning_effort"@
}

pub open spec fn is_merged_key(key: Seq<char>, depth: int) -> bool {
    depth > 0 || is_source_key(key)
}

pub open spec fn both_tables(
    target: Map<Seq<char>, TomlNode>,
    source: Map<Seq<char>, TomlNode>,
    key: Seq<char>,
) -> bool {
    target.contains_key(key) && target[key] is Entries && source[key] is Entries
}

/// Whether tables are nested no deeper than a merge goes.
pub open spec fn merge_fits(
    target: Map<Seq<char>, TomlNode>,
    source: Map<Seq<char>, TomlNode>,
    depth: int,
) -> bool
    decreases 17 - depth,
{
    depth <= 16 && forall|key: Seq<char>| #[trigger]
        source.contains_key(key) && is_merged_key(key, depth) && both_tables(target, source, key)
            ==> merge_fits(target[key]->Entries_0, source[key]->Entries_0, depth + 1)
}

/// What a key is after a merge.
pub open spec fn merged_node(
    target: Map<Seq<char>, TomlNode>,
    source: Map<Seq<char>, TomlNode>,
    depth: int,
    key: Seq<char>,
) -> TomlNode
    decreases 17 - depth, 1int,
{
    if depth > 16 {
        TomlNode::Nothing
    } else if source.contains_key(key) && is_merged_key(key, depth) {
        if both_tables(target, source, key) {
            TomlNode::Entries(
                merged(target[key]->Entries_0, source[key]->Entries_0, depth + 1),
            )
        } else {
            source[key]
        }
    } else {
        target[key]
    }
}

/// A document under another: tables are merged, everything else is replaced.
pub open spec fn merged(
    target: Map<Seq<char>, TomlNode>,
    source: Map<Seq<char>, TomlNode>,
    depth: int,
) -> Map<Seq<char>, TomlNode>
    decreases 17 - depth, 2int,
{
    if depth > 16 {
        target
    } else {
        Map::new(
            |key: Seq<char>|
                target.contains_key(key) || (source.contains_key(key) && is_merged_key(key, depth)),
            |key: Seq<char>| merged_node(target, source, depth, key),
        )
    }
}

fn source_key(key: &str) -> (r: bool)
    ensures
        r == is_source_key(key@),
{
    same(key, "model") || same(key, "model_provider") || same(key, "model_providers") || same(
        key,
        "model_catalog_json",
    ) || same(key, "model_context_window") || same(key, "model_auto_compact_token_limit") || same(
        key,
        "model_reasoning_effort",
    )
}

/// Merges one table under another.
fn merge_source(target: &mut toml_edit::Table, source: &toml_edit::Table, depth: usize) -> (r:
    Option<()>)
    requires
        depth <= 17,
    ensures
        ({
            let first = table_entries(*old(target));
            let second = table_entries(*source);
            if merge_fits(first, second, depth as int) {
                r is Some && table_entries(*final(target)) == merged(first, second, depth as int)
            } else {
                r is None
            }
        }),
    decreases 17 - depth,
{
    let ghost first = table_entries(*target);
    let ghost second = table_entries(*source);
    if depth > 16 {
        return None;
    }
    let keys = list_keys(source);
    assert forall|key: Seq<char>| #[trigger] second.contains_key(key) <==> is_key_before(
        keys@,
        keys@.len() as int,
        key,
    ) by {}
    let mut i: usize = 0;
    while i < keys.len()
        invariant
            i <= keys.len(),
            depth <= 16,
            first == table_entries(*old(target)),
            second == table_entries(*source),
            forall|key: Seq<char>| #[trigger]
                second.contains_key(key) <==> is_key_before(keys@, keys@.len() as int, key),
            forall|j: int, k: int|
                0 <= j < k < keys@.len() ==> (#[trigger] keys@[j])@ != (#[trigger] keys@[k])@,
            forall|j: int|
                0 <= j < i && is_merged_key((#[trigger] keys@[j])@, depth as int) && both_tables(
                    first,
                    second,
                    keys@[j]@,
                ) ==> merge_fits(
                    first[keys@[j]@]->Entries_0,
                    second[keys@[j]@]->Entries_0,
                    depth + 1,
                ),
            forall|key: Seq<char>| #[trigger]
                table_entries(*target).contains_key(key) <==> first.contains_key(key) || (
                is_merged_key(key, depth as int) && is_key_before(keys@, i as int, key)),
            forall|key: Seq<char>|
                table_entries(*target).contains_key(key) ==> #[trigger] table_entries(*target)[key]
                    == (if is_key_before(keys@, i as int, key) {
                    merged_node(first, second, depth as int, key)
                } else {
                    first[key]
                }),
        decreases keys.len() - i,
    {
        let key = keys[i].as_str();
        let ghost before = table_entries(*target);
        proof {
            assert(keys@[i as int]@ == key@);
            assert(is_key_before(keys@, keys@.len() as int, key@));
            assert(!is_key_before(keys@, i as int, key@)) by {
                if is_key_before(keys@, i as int, key@) {
                    let j = choose|j: int| 0 <= j < i && (#[trigger] keys@[j])@ == key@;
                    assert(keys@[j]@ != keys@[i as int]@);
                }
            }
            assert(before.contains_key(key@) == first.contains_key(key@));
            assert(before.contains_key(key@) ==> before[key@] == first[key@]);
        }
        if depth > 0 || source_key(key) {
            let item = match source.get(key) {
                Some(item) => item,
                None => return None,
            };
            let nested = item.as_table().is_some() && match target.get(key) {
                Some(existing) => existing.as_table().is_some(),
                None => false,
            };
            assert(nested == both_tables(first, second, key@));
            if nested {
                let overlay = match item.as_table() {
                    Some(overlay) => overlay,
                    None => return None,
                };
                match target.get_mut(key) {
                    Some(slot) => match slot.as_table_mut() {
                        Some(existing) => {
                            match merge_source(existing, overlay, depth + 1) {
                                Some(()) => {},
                                None => {
                                    proof {
                                        assert(is_merged_key(key@, depth as int));
                                        assert(!merge_fits(first, second, depth as int));
                                    }
                                    return None;
                                },
                            }
                        },
                        None => return None,
                    },
                    None => return None,
                }
            } else {
                target.insert(key, item.clone());
            }
            proof {
                let now = table_entries(*target);
                assert(now == before.insert(key@, merged_node(first, second, depth as int, key@)));
                lemma_key_done(keys@, i as int, key@);
            }
        } else {
            proof {
                lemma_key_done(keys@, i as int, key@);
            }
        }
        i += 1;
    }
    proof {
        let now = table_entries(*target);
        assert(merge_fits(first, second, depth as int)) by {
            assert forall|key: Seq<char>| #[trigger]
                second.contains_key(key) && is_merged_key(key, depth as int) && both_tables(
                    first,
                    second,
                    key,
                ) implies merge_fits(
                first[key]->Entries_0,
                second[key]->Entries_0,
                depth + 1,
            ) by {
                assert(is_key_before(keys@, keys@.len() as int, key));
                let j = choose|j: int| 0 <= j < keys@.len() && (#[trigger] keys@[j])@ == key;
                assert(keys@[j]@ == key);
            }
        }
        assert forall|key: Seq<char>| #[trigger] now.contains_key(key) == merged(
            first,
            second,
            depth as int,
        ).contains_key(key) by {
            assert(second.contains_key(key) <==> is_key_before(keys@, keys@.len() as int, key));
        }
        assert forall|key: Seq<char>| now.contains_key(key) implies #[trigger] now[key] == merged(
            first,
            second,
            depth as int,
        )[key] by {
            assert(second.contains_key(key) <==> is_key_before(keys@, keys@.len() as int, key));
        }
        assert(now =~= merged(first, second, depth as int));
    }
    Some(())
}

/// A key counts as done after its turn, and no other one becomes so.
proof fn lemma_key_done(keys: Seq<String>, i: int, key: Seq<char>)
    requires
        0 <= i < keys.len(),
        keys[i]@ == key,
    ensures
        forall|other: Seq<char>| #[trigger]
            is_key_before(keys, i + 1, other) <==> is_key_before(keys, i, other) || other == key,
{
    assert forall|other: Seq<char>| #[trigger]
        is_key_before(keys, i + 1, other) <==> is_key_before(keys, i, other) || other == key by {
        if is_key_before(keys, i + 1, other) {
            let j = choose|j: int| 0 <= j < i + 1 && (#[trigger] keys[j])@ == other;
            assert(j < i || other == key);
        }
        if other == key {
            assert(keys[i]@ == other);
        }
    }
}

/// Whether a key is among the first ones.
spec fn is_key_before(keys: Seq<String>, i: int, key: Seq<char>) -> bool {
    exists|j: int| 0 <= j < i && (#[trigger] keys[j])@ == key
}

/// A setting that counts: its layer, its value and the digest of its source.
#[derive(Debug)]
pub struct FieldValue {
    pub layer: ConfigLayerV1,
    pub value: String,
    pub digest: CanonicalDigest,
}

pub struct FieldFact {
    pub layer: ConfigLayerV1,
    pub value: Seq<char>,
    pub digest: Seq<char>,
}

pub open spec fn field_fact(field: Option<FieldValue>) -> Option<FieldFact> {
    match field {
        Some(field) => Some(
            FieldFact { layer: field.layer, value: field.value@, digest: field.digest@ },
        ),
        None => None,
    }
}

/// The settings that are observed, in the order of their names.
#[derive(Debug)]
pub struct SelectedFields {
    pub model: Option<FieldValue>,
    pub auto_compact: Option<FieldValue>,
    pub catalog: Option<FieldValue>,
    pub context_window: Option<FieldValue>,
    pub provider: Option<FieldValue>,
}

pub struct SelectedView {
    pub model: Option<FieldFact>,
    pub auto_compact: Option<FieldFact>,
    pub catalog: Option<FieldFact>,
    pub context_window: Option<FieldFact>,
    pub provider: Option<FieldFact>,
}

impl View for SelectedFields {
    type V = SelectedView;

    open spec fn view(&self) -> SelectedView {
        SelectedView {
            model: field_fact(self.model),
            auto_compact: field_fact(self.auto_compact),
            catalog: field_fact(self.catalog),
            context_window: field_fact(self.context_window),
            provider: field_fact(self.provider),
        }
    }
}

pub open spec fn no_fields() -> SelectedView {
    SelectedView {
        model: None,
        auto_compact: None,
        catalog: None,
        context_window: None,
        provider: None,
    }
}

/// A whole number above zero in a layer, in place of what stood before.
pub open spec fn number_field(
    entries: Map<Seq<char>, TomlNode>,
    key: Seq<char>,
    layer: ConfigLayerV1,
    digest: Seq<char>,
    before: Option<FieldFact>,
) -> Option<Option<FieldFact>> {
    if !entries.contains_key(key) {
        Some(before)
    } else {
        match entries[key] {
            TomlNode::Int(value, _) => if value > 0 {
                Some(Some(FieldFact { layer, value: decimal_text(value as nat), digest }))
            } else {
                None
            },
            _ => None,
        }
    }
}

/// A string in a layer, in place of what stood before.
pub open spec fn text_field(
    entries: Map<Seq<char>, TomlNode>,
    key: Seq<char>,
    layer: ConfigLayerV1,
    digest: Seq<char>,
    before: Option<FieldFact>,
) -> Option<Option<FieldFact>> {
    if !entries.contains_key(key) {
        Some(before)
    } else {
        match entries[key] {
            TomlNode::Str(value) => if !value.contains('\0') && byte_len(value) <= 4096 {
                Some(Some(FieldFact { layer, value, digest }))
            } else {
                None
            },
            _ => None,
        }
    }
}

/// The settings after a layer: each that the layer has replaces the earlier one. A layer with an
/// unusable value is refused.
pub open spec fn collected(
    fields: SelectedView,
    entries: Map<Seq<char>, TomlNode>,
    layer: ConfigLayerV1,
    digest: Seq<char>,
) -> Option<SelectedView> {
    match (
        number_field(entries, "model_context_window"@, layer, digest, fields.context_window),
        number_field(entries, "model_auto_compact_token_limit"@, layer, digest, fields.auto_compact),
        text_field(entries, "model"@, layer, digest, fields.model),
        text_field(entries, "model_provider"@, layer, digest, fields.provider),
        text_field(entries, "model_catalog_json"@, layer, digest, fields.catalog),
    ) {
        (Some(context_window), Some(auto_compact), Some(model), Some(provider), Some(catalog)) => {
            Some(SelectedView { model, auto_compact, catalog, context_window, provider })
        },
        _ => None,
    }
}

fn read_number(
    table: &toml_edit::Table,
    key: &str,
    layer: ConfigLayerV1,
    digest: &CanonicalDigest,
    before: Option<FieldValue>,
) -> (r: Option<Option<FieldValue>>)
    ensures
        match number_field(table_entries(*table), key@, layer, digest@, field_fact(before)) {
            Some(field) => r matches Some(value) && field_fact(value) == field,
            None => r is None,
        },
{
    match table.get(key) {
        None => Some(before),
        Some(item) => match item.as_integer() {
            Some(value) => if value > 0 {
                Some(
                    Some(FieldValue { layer, value: decimal(value as u64), digest: digest.copied() }),
                )
            } else {
                None
            },
            None => None,
        },
    }
}

fn read_text(
    table: &toml_edit::Table,
    key: &str,
    layer: ConfigLayerV1,
    digest: &CanonicalDigest,
    before: Option<FieldValue>,
) -> (r: Option<Option<FieldValue>>)
    ensures
        match text_field(table_entries(*table), key@, layer, digest@, field_fact(before)) {
            Some(field) => r matches Some(value) && field_fact(value) == field,
            None => r is None,
        },
{
    match table.get(key) {
        None => Some(before),
        Some(item) => match item.as_str() {
            Some(value) => if has_char(value, '\0') || bytes_in(value) > 4096 {
                None
            } else {
                Some(
                    Some(FieldValue { layer, value: value.to_owned(), digest: digest.copied() }),
                )
            },
            None => None,
        },
    }
}

fn collect(
    table: &toml_edit::Table,
    layer: ConfigLayerV1,
    digest: &CanonicalDigest,
    fields: SelectedFields,
) -> (r: Option<SelectedFields>)
    ensures
        match collected(fields@, table_entries(*table), layer, digest@) {
            Some(view) => r matches Some(fields) && fields@ == view,
            None => r is None,
        },
{
    let SelectedFields { model, auto_compact, catalog, context_window, provider } = fields;
    let context_window = match read_number(
        table,
        "model_context_window",
        layer,
        digest,
        context_window,
    ) {
        Some(field) => field,
        None => return None,
    };
    let auto_compact = match read_number(
        table,
        "model_auto_compact_token_limit",
        layer,
        digest,
        auto_compact,
    ) {
        Some(field) => field,
        None => return None,
    };
    let model = match read_text(table, "model", layer, digest, model) {
        Some(field) => field,
        None => return None,
    };
    let provider = match read_text(table, "model_provider", layer, digest, provider) {
        Some(field) => field,
        None => return None,
    };
    let catalog = match read_text(table, "model_catalog_json", layer, digest, catalog) {
        Some(field) => field,
        None => return None,
    };
    Some(SelectedFields { model, auto_compact, catalog, context_window, provider })
}

/// A scope that is being sampled: the identities of what was read, the settings, the effective
/// document, the files seen, and the selected profile of the user's file.
pub struct SampleView {
    pub dependencies: Seq<Seq<char>>,
    pub fields: SelectedView,
    pub entries: Map<Seq<char>, TomlNode>,
    pub seen: Seq<Seq<Seq<char>>>,
    pub profile: Option<(SelectedView, Map<Seq<char>, TomlNode>)>,
}

struct Sample {
    dependencies: Vec<CanonicalDigest>,
    fields: SelectedFields,
    document: toml_edit::DocumentMut,
    seen: Vec<Vec<String>>,
    profile: Option<(SelectedFields, toml_edit::Item)>,
}

spec fn profile_view(profile: Option<(SelectedFields, toml_edit::Item)>) -> Option<
    (SelectedView, Map<Seq<char>, TomlNode>),
> {
    match profile {
        Some((fields, item)) => Some((fields@, item_node(item)->Entries_0)),
        None => None,
    }
}

spec fn seen_view(seen: Seq<Vec<String>>) -> Seq<Seq<Seq<char>>> {
    seen.map_values(|steps: Vec<String>| views_of(steps@))
}

pub open spec fn digests_view(digests: Seq<CanonicalDigest>) -> Seq<Seq<char>> {
    digests.map_values(|digest: CanonicalDigest| digest@)
}

impl View for Sample {
    type V = SampleView;

    closed spec fn view(&self) -> SampleView {
        SampleView {
            dependencies: digests_view(self.dependencies@),
            fields: self.fields@,
            entries: document_entries(self.document),
            seen: seen_view(self.seen@),
            profile: profile_view(self.profile),
        }
    }
}

impl Sample {
    spec fn wf(self) -> bool {
        self.profile matches Some((_, item)) ==> item_node(item) is Entries
    }
}

/// What reading a file gave.
pub open spec fn read_view(read: LayerRead) -> Result<Option<Seq<u8>>, AgentFilesystemScanError> {
    match read {
        Ok(Some(bytes)) => Ok(Some(bytes@)),
        Ok(None) => Ok(None),
        Err(error) => Err(error),
    }
}

pub open spec fn content_identity(bytes: Option<Seq<u8>>) -> Seq<char> {
    match bytes {
        Some(bytes) => digest_of(bytes),
        None => digest_of(vstd::utf8::encode_utf8("absent-codex-layer"@)),
    }
}

/// The identity of a file that was read, or found absent: its path, its content and its layer.
pub open spec fn layer_identity(file: LayerView, content: Seq<char>) -> Seq<char> {
    digest_of(
        vstd::utf8::encode_utf8(file.path + "\0"@ + content + "\0"@ + file.layer.label()),
    )
}

pub open spec fn is_path(path: Seq<char>, other: Option<String>) -> bool {
    other matches Some(other) && is_absolute(other@) && path_steps(other@) == path_steps(path)
}

/// The table of a selected profile, where the user's file has it. A profile may not bring
/// providers of its own.
pub open spec fn profile_table(entries: Map<Seq<char>, TomlNode>, name: Seq<char>) -> Option<
    Map<Seq<char>, TomlNode>,
> {
    if name.len() == 0 || byte_len(name) > 128 {
        None
    } else {
        match walk(entries, seq!["profiles"@, name]) {
            Found::Entries(table) => if table.contains_key("model_providers"@) {
                None
            } else {
                Some(table)
            },
            _ => None,
        }
    }
}

/// A sample with the selected profile of the user's file.
pub open spec fn with_profile(
    sample: SampleView,
    scope: CodexConfigurationScope,
    file: LayerView,
    entries: Map<Seq<char>, TomlNode>,
    content: Seq<char>,
) -> Result<SampleView, AgentFilesystemScanError> {
    match scope.selection {
        CodexSelectionTarget::LegacyProfile(name) => if path_steps(file.path) == path_steps(
            scope.user_file@,
        ) {
            match profile_table(entries, name@) {
                None => Err(AgentFilesystemScanError::InvalidConfig),
                Some(table) => match collected(
                    no_fields(),
                    table,
                    ConfigLayerV1::Launch,
                    content,
                ) {
                    None => Err(AgentFilesystemScanError::InvalidConfig),
                    Some(selected) => Ok(
                        SampleView {
                            profile: Some((selected, table)),
                            dependencies: sample.dependencies.push(
                                digest_of(vstd::utf8::encode_utf8("profile\0"@ + name@)),
                            ),
                            ..sample
                        },
                    ),
                },
            }
        } else {
            Ok(sample)
        },
        CodexSelectionTarget::Root => Ok(sample),
    }
}

/// A sample after one more file. A file may be named once; the selected profile's must exist.
pub open spec fn sampled_layer(
    sample: SampleView,
    scope: CodexConfigurationScope,
    file: LayerView,
    read: Result<Option<Seq<u8>>, AgentFilesystemScanError>,
) -> Result<SampleView, AgentFilesystemScanError> {
    let steps = path_steps(file.path);
    if !is_absolute(file.path) || sample.seen.contains(steps) {
        Err(AgentFilesystemScanError::InvalidConfig)
    } else {
        match read {
            Err(error) => Err(error),
            Ok(bytes) => {
                let content = content_identity(bytes);
                let seen = SampleView {
                    dependencies: sample.dependencies.push(layer_identity(file, content)),
                    seen: sample.seen.push(steps),
                    ..sample
                };
                match bytes {
                    None => if is_path(file.path, scope.selected_profile_file) {
                        Err(AgentFilesystemScanError::InvalidConfig)
                    } else {
                        Ok(seen)
                    },
                    Some(bytes) => match layer_entries(bytes) {
                        None => Err(AgentFilesystemScanError::InvalidConfig),
                        Some(entries) => match collected(
                            sample.fields,
                            entries,
                            file.layer,
                            content,
                        ) {
                            None => Err(AgentFilesystemScanError::InvalidConfig),
                            Some(fields) => if !merge_fits(sample.entries, entries, 0) {
                                Err(AgentFilesystemScanError::InvalidConfig)
                            } else {
                                with_profile(
                                    SampleView {
                                        fields,
                                        entries: merged(sample.entries, entries, 0),
                                        ..seen
                                    },
                                    scope,
                                    file,
                                    entries,
                                    content,
                                )
                            },
                        },
                    },
                }
            },
        }
    }
}

pub open spec fn layer_entries(bytes: Seq<u8>) -> Option<Map<Seq<char>, TomlNode>> {
    match utf8_text(bytes) {
        Some(text) => parsed_entries(text),
        None => None,
    }
}

/// The text that stands for an absent file is no document.
proof fn lemma_absence_is_no_text(bytes: Seq<u8>, text: Seq<char>)
    requires
        utf8_text(bytes) == Some(text),
        !is_bare(text),
    ensures
        bytes != vstd::utf8::encode_utf8("absent-codex-layer"@),
{
    let marker = "absent-codex-layer"@;
    reveal_strlit("absent-codex-layer");
    vstd::utf8::encode_utf8_decode_utf8(marker);
    vstd::utf8::encode_utf8_valid_utf8(marker);
    assert(is_alphanumeric(marker[0]));
    if bytes == vstd::utf8::encode_utf8(marker) {
        assert(text == marker);
    }
}

fn dependency(path: &str, content: &CanonicalDigest, layer: ConfigLayerV1) -> (r: CanonicalDigest)
    ensures
        r@ == layer_identity(LayerView { path: path@, layer }, content@),
{
    let mut text = path.to_owned();
    text.append("\0");
    text.append(content.as_str());
    text.append("\0");
    text.append(layer.label_text());
    CanonicalDigest::of_bytes(text.as_str().as_bytes())
}

fn has_steps(seen: &Vec<Vec<String>>, steps: &Vec<String>) -> (r: bool)
    ensures
        r == seen_view(seen@).contains(views_of(steps@)),
{
    let mut i: usize = 0;
    while i < seen.len()
        invariant
            i <= seen.len(),
            forall|j: int| 0 <= j < i ==> #[trigger] seen_view(seen@)[j] != views_of(steps@),
        decreases seen.len() - i,
    {
        assert(seen_view(seen@)[i as int] == views_of(seen@[i as int]@));
        if same_texts(&seen[i], steps) {
            return true;
        }
        i += 1;
    }
    false
}

impl Sample {
    fn depend(&mut self, digest: CanonicalDigest)
        ensures
            final(self)@ == (SampleView {
                dependencies: old(self)@.dependencies.push(digest@),
                ..old(self)@
            }),
            final(self).wf() == old(self).wf(),
    {
        let ghost before = self@.dependencies;
        self.dependencies.push(digest);
        assert(self@.dependencies =~= before.push(digest@));
    }

    /// Adds a file to the sample.
    fn add_layer(
        self,
        scope: &CodexConfigurationScope,
        file: &LayerFile,
        read: &LayerRead,
    ) -> (r: Result<Sample, AgentFilesystemScanError>)
        requires
            self.wf(),
        ensures
            match sampled_layer(
                self@,
                *scope,
                LayerView { path: file.path@, layer: file.layer },
                read_view(*read),
            ) {
                Ok(view) => r matches Ok(sample) && sample@ == view && sample.wf(),
                Err(failure) => r matches Err(error) && error == failure,
            },
            r is Ok ==> tells_absence(*read),
    {
        let mut sample = self;
        let path = file.path.as_str();
        let steps = steps_of(path);
        if !absolute(path) || has_steps(&sample.seen, &steps) {
            return Err(AgentFilesystemScanError::InvalidConfig);
        }
        let content = match read {
            Err(error) => return Err(*error),
            Ok(Some(bytes)) => CanonicalDigest::of_bytes(bytes.as_slice()),
            Ok(None) => CanonicalDigest::of_bytes("absent-codex-layer".as_bytes()),
        };
        sample.depend(dependency(path, &content, file.layer));
        let ghost before = sample@.seen;
        let is_profile = match &scope.selected_profile_file {
            Some(profile) => absolute(profile.as_str()) && same_texts(
                &steps_of(profile.as_str()),
                &steps,
            ),
            None => false,
        };
        let is_user = same_texts(&steps, &steps_of(scope.user_file.as_str()));
        sample.seen.push(steps);
        assert(sample@.seen =~= before.push(path_steps(path@)));
        let bytes = match read {
            Ok(Some(bytes)) => bytes,
            _ => {
                if is_profile {
                    return Err(AgentFilesystemScanError::InvalidConfig);
                }
                return Ok(sample);
            },
        };
        let text = match text_of_bytes(bytes.as_slice()) {
            Some(text) => text,
            None => return Err(AgentFilesystemScanError::InvalidConfig),
        };
        let document = match read_document(text.as_str()) {
            Some(document) => document,
            None => return Err(AgentFilesystemScanError::InvalidConfig),
        };
        proof {
            lemma_absence_is_no_text(bytes@, text@);
        }
        let Sample { dependencies, fields, document: effective, seen, profile } = sample;
        let fields = match collect(document.as_table(), file.layer, &content, fields) {
            Some(fields) => fields,
            None => return Err(AgentFilesystemScanError::InvalidConfig),
        };
        let mut effective = effective;
        match merge_source(effective.as_table_mut(), document.as_table(), 0) {
            Some(()) => {},
            None => return Err(AgentFilesystemScanError::InvalidConfig),
        }
        let merged_sample = Sample { dependencies, fields, document: effective, seen, profile };
        match &scope.selection {
            CodexSelectionTarget::LegacyProfile(name) => {
                if is_user {
                    merged_sample.add_profile(&document, name.as_str(), &content)
                } else {
                    Ok(merged_sample)
                }
            },
            CodexSelectionTarget::Root => Ok(merged_sample),
        }
    }

    fn add_profile(
        self,
        document: &toml_edit::DocumentMut,
        name: &str,
        content: &CanonicalDigest,
    ) -> (r: Result<Sample, AgentFilesystemScanError>)
        requires
            self.wf(),
        ensures
            match profile_table(document_entries(*document), name@) {
                None => r matches Err(error) && error == AgentFilesystemScanError::InvalidConfig,
                Some(table) => match collected(
                    no_fields(),
                    table,
                    ConfigLayerV1::Launch,
                    content@,
                ) {
                    None => r matches Err(error) && error
                        == AgentFilesystemScanError::InvalidConfig,
                    Some(selected) => r matches Ok(sample) && sample.wf() && sample@ == (
                    SampleView {
                        profile: Some((selected, table)),
                        dependencies: self@.dependencies.push(
                            digest_of(vstd::utf8::encode_utf8("profile\0"@ + name@)),
                        ),
                        ..self@
                    }),
                },
            },
    {
        if chars_of(name).len() == 0 || bytes_in(name) > 128 {
            return Err(AgentFilesystemScanError::InvalidConfig);
        }
        let mut path: Vec<String> = Vec::new();
        path.push("profiles".to_owned());
        path.push(name.to_owned());
        proof {
            assert(path_view(path@) =~= seq!["profiles"@, name@]);
            assert(path_view(path@).skip(0) =~= path_view(path@));
        }
        let table = match table_at(document.as_table(), &path, 0) {
            Ok(Some(table)) => table,
            _ => return Err(AgentFilesystemScanError::InvalidConfig),
        };
        if table.contains_key("model_providers") {
            return Err(AgentFilesystemScanError::InvalidConfig);
        }
        let none = SelectedFields {
            model: None,
            auto_compact: None,
            catalog: None,
            context_window: None,
            provider: None,
        };
        let selected = match collect(table, ConfigLayerV1::Launch, content, none) {
            Some(selected) => selected,
            None => return Err(AgentFilesystemScanError::InvalidConfig),
        };
        let mut sample = self;
        sample.profile = Some((selected, table_item(table.clone())));
        let mut text = "profile\0".to_owned();
        text.append(name);
        sample.depend(CanonicalDigest::of_bytes(text.as_str().as_bytes()));
        Ok(sample)
    }
}

/// Whether a text is the name of a setting: letters, digits, underscores, dots and dashes.
pub open spec fn is_override_key(key: Seq<char>) -> bool {
    key.len() > 0 && forall|i: int| 0 <= i < key.len() ==> is_override_char(#[trigger] key[i])
}

pub open spec fn is_override_char(c: char) -> bool {
    is_alphanumeric(c) || c == '_' || c == '.' || c == '-'
}

/// The document that sets one value at a path.
pub open spec fn nested(parts: Seq<Seq<char>>, node: TomlNode) -> Map<Seq<char>, TomlNode>
    decreases parts.len(),
{
    if parts.len() <= 1 {
        Map::<Seq<char>, TomlNode>::empty().insert(parts[0], node)
    } else {
        Map::<Seq<char>, TomlNode>::empty().insert(
            parts[0],
            TomlNode::Entries(nested(parts.skip(1), node)),
        )
    }
}

/// The document of a launch override: a key and a value. A value that is no TOML is a string.
pub open spec fn override_entries(value: Seq<char>) -> Option<Map<Seq<char>, TomlNode>> {
    if byte_len(value) > 16 * 1024 || value.contains('\0') || !value.contains('=') {
        None
    } else {
        let key = trimmed(before_first(value, '='));
        let raw = after_first(value, '=');
        let parts = split(key, '.');
        if !is_override_key(key) || parts.len() > 8 || exists|i: int|
            0 <= i < parts.len() && (#[trigger] parts[i]).len() == 0 {
            None
        } else {
            Some(
                nested(
                    parts,
                    match parsed_node(trimmed(raw)) {
                        Some(node) => node,
                        None => TomlNode::Str(raw),
                    },
                ),
            )
        }
    }
}

/// A sample after one more launch override.
pub open spec fn sampled_override(sample: SampleView, value: Seq<char>) -> Option<SampleView> {
    match override_entries(value) {
        None => None,
        Some(entries) => {
            let digest = digest_of(vstd::utf8::encode_utf8(value));
            match collected(sample.fields, entries, ConfigLayerV1::Process, digest) {
                None => None,
                Some(fields) => if merge_fits(sample.entries, entries, 0) {
                    Some(
                        SampleView {
                            fields,
                            dependencies: sample.dependencies.push(digest),
                            entries: merged(sample.entries, entries, 0),
                            ..sample
                        },
                    )
                } else {
                    None
                },
            }
        },
    }
}

fn override_key(key: &str) -> (r: bool)
    ensures
        r == is_override_key(key@),
{
    let chars = chars_of(key);
    if chars.len() == 0 {
        return false;
    }
    let mut i: usize = 0;
    while i < chars.len()
        invariant
            i <= chars.len(),
            chars@ == key@,
            forall|j: int| 0 <= j < i ==> is_override_char(#[trigger] key@[j]),
        decreases chars.len() - i,
    {
        let c = chars[i];
        if !alphanumeric(c) && c != '_' && c != '.' && c != '-' {
            assert(!is_override_char(key@[i as int]));
            return false;
        }
        i += 1;
    }
    true
}

/// Whether a part of a key is empty.
fn has_empty_part(parts: &Vec<String>) -> (r: bool)
    ensures
        r == exists|i: int|
            0 <= i < views_of(parts@).len() && (#[trigger] views_of(parts@)[i]).len() == 0,
{
    let mut i: usize = 0;
    while i < parts.len()
        invariant
            i <= parts.len(),
            forall|j: int| 0 <= j < i ==> (#[trigger] views_of(parts@)[j]).len() > 0,
        decreases parts.len() - i,
    {
        assert(views_of(parts@)[i as int] == parts@[i as int]@);
        if chars_of(parts[i].as_str()).len() == 0 {
            return true;
        }
        i += 1;
    }
    false
}

/// A table that sets one value at a path.
fn nested_table(parts: &Vec<String>, item: toml_edit::Item) -> (r: toml_edit::Table)
    requires
        parts@.len() > 0,
        !(item_node(item) is Nothing),
    ensures
        table_entries(r) == nested(views_of(parts@), item_node(item)),
{
    let ghost all = views_of(parts@);
    let ghost node = item_node(item);
    let mut table = toml_edit::Table::new();
    let mut at: usize = parts.len() - 1;
    table.insert(parts[at].as_str(), item);
    proof {
        assert(all.skip(at as int).len() == 1);
        assert(all.skip(at as int)[0] == all[at as int]);
        assert(table_entries(table) =~= nested(all.skip(at as int), node));
    }
    while at > 0
        invariant
            at < parts@.len(),
            all == views_of(parts@),
            table_entries(table) == nested(all.skip(at as int), node),
        decreases at,
    {
        let ghost inner = table_entries(table);
        at -= 1;
        let mut outer = toml_edit::Table::new();
        outer.insert(parts[at].as_str(), table_item(table));
        proof {
            assert(all.skip(at as int).skip(1) == all.skip(at + 1));
            assert(all.skip(at as int)[0] == all[at as int]);
            assert(table_entries(outer) =~= nested(all.skip(at as int), node));
        }
        table = outer;
    }
    assert(all.skip(0) == all);
    table
}

fn override_table(value: &str) -> (r: Option<toml_edit::Table>)
    ensures
        match override_entries(value@) {
            Some(entries) => r matches Some(table) && table_entries(table) == entries,
            None => r is None,
        },
{
    if bytes_in(value) > 16 * 1024 || has_char(value, '\0') {
        return None;
    }
    let (key, raw) = match split_once(value, '=') {
        Some(parts) => parts,
        None => return None,
    };
    let key = trim(key.as_str());
    if !override_key(key.as_str()) {
        return None;
    }
    let parts = split_text(key.as_str(), '.');
    if parts.len() > 8 || has_empty_part(&parts) {
        return None;
    }
    let item = match read_value_item(trim(raw.as_str()).as_str()) {
        Some(item) => item,
        None => str_item(raw.as_str()),
    };
    Some(nested_table(&parts, item))
}

impl Sample {
    /// Adds a launch override to the sample.
    fn add_override(self, value: &str) -> (r: Option<Sample>)
        ensures
            match sampled_override(self@, value@) {
                Some(view) => r matches Some(sample) && sample@ == view,
                None => r is None,
            },
    {
        let table = match override_table(value) {
            Some(table) => table,
            None => return None,
        };
        let digest = CanonicalDigest::of_bytes(value.as_bytes());
        let Sample { dependencies, fields, document, seen, profile } = self;
        let fields = match collect(&table, ConfigLayerV1::Process, &digest, fields) {
            Some(fields) => fields,
            None => return None,
        };
        let mut document = document;
        match merge_source(document.as_table_mut(), &table, 0) {
            Some(()) => {},
            None => return None,
        }
        let mut sample = Sample { dependencies, fields, document, seen, profile };
        sample.depend(digest);
        Some(sample)
    }

    /// Puts the selected profile over the files.
    fn select_profile(self) -> (r: Option<Sample>)
        requires
            self.wf(),
        ensures
            match profile_applied(self@) {
                Some(view) => r matches Some(sample) && sample@ == view,
                None => r is None,
            },
    {
        let Sample { dependencies, fields, document, seen, profile } = self;
        match profile {
            None => Some(Sample { dependencies, fields, document, seen, profile: None }),
            Some((selected, item)) => {
                let fields = overlay(fields, selected);
                let mut document = document;
                match item.as_table() {
                    Some(table) => match merge_source(document.as_table_mut(), table, 0) {
                        Some(()) => {},
                        None => return None,
                    },
                    None => return None,
                }
                Some(Sample { dependencies, fields, document, seen, profile: None })
            },
        }
    }
}

pub open spec fn over(below: Option<FieldFact>, above: Option<FieldFact>) -> Option<FieldFact> {
    match above {
        Some(_) => above,
        None => below,
    }
}

/// Settings over others.
pub open spec fn overlaid(below: SelectedView, above: SelectedView) -> SelectedView {
    SelectedView {
        model: over(below.model, above.model),
        auto_compact: over(below.auto_compact, above.auto_compact),
        catalog: over(below.catalog, above.catalog),
        context_window: over(below.context_window, above.context_window),
        provider: over(below.provider, above.provider),
    }
}

fn over_field(below: Option<FieldValue>, above: Option<FieldValue>) -> (r: Option<FieldValue>)
    ensures
        field_fact(r) == over(field_fact(below), field_fact(above)),
{
    match above {
        Some(field) => Some(field),
        None => below,
    }
}

fn overlay(below: SelectedFields, above: SelectedFields) -> (r: SelectedFields)
    ensures
        r@ == overlaid(below@, above@),
{
    SelectedFields {
        model: over_field(below.model, above.model),
        auto_compact: over_field(below.auto_compact, above.auto_compact),
        catalog: over_field(below.catalog, above.catalog),
        context_window: over_field(below.context_window, above.context_window),
        provider: over_field(below.provider, above.provider),
    }
}

/// A sample with its selected profile over the files.
pub open spec fn profile_applied(sample: SampleView) -> Option<SampleView> {
    match sample.profile {
        None => Some(sample),
        Some((selected, table)) => if merge_fits(sample.entries, table, 0) {
            Some(
                SampleView {
                    fields: overlaid(sample.fields, selected),
                    entries: merged(sample.entries, table, 0),
                    profile: None,
                    ..sample
                },
            )
        } else {
            None
        },
    }
}

/// A sample of the first files.
pub open spec fn sampled_layers(
    scope: CodexConfigurationScope,
    files: Seq<LayerView>,
    reads: Seq<LayerRead>,
) -> Result<SampleView, AgentFilesystemScanError>
    decreases files.len(),
{
    if files.len() == 0 {
        Ok(
            SampleView {
                dependencies: Seq::empty(),
                fields: no_fields(),
                entries: Map::empty(),
                seen: Seq::empty(),
                profile: None,
            },
        )
    } else {
        match sampled_layers(scope, files.drop_last(), reads) {
            Err(error) => Err(error),
            Ok(sample) => sampled_layer(
                sample,
                scope,
                files.last(),
                read_view(reads[files.len() - 1]),
            ),
        }
    }
}

/// A sample with launch overrides over it.
pub open spec fn sampled_overrides(sample: SampleView, values: Seq<Seq<char>>) -> Option<SampleView>
    decreases values.len(),
{
    if values.len() == 0 {
        Some(sample)
    } else {
        match sampled_overrides(sample, values.drop_last()) {
            None => None,
            Some(sample) => sampled_override(sample, values.last()),
        }
    }
}

/// Whether a scope can be sampled: not too many files and overrides, one way of selecting a
/// profile, and the user's file in the native home.
pub open spec fn is_scope(scope: CodexConfigurationScope) -> bool {
    &&& scope.trusted_project_files@.len() <= 32
    &&& scope.cli_overrides@.len() <= 64
    &&& scope.selected_profile_file is None || scope.selection is Root
    &&& lies_in(scope.user_file@, scope.codex_home@)
}

/// The layer that an edit of a scope writes to.
pub open spec fn target_layer(scope: CodexConfigurationScope) -> ConfigLayerV1 {
    if !(scope.selection is Root) || scope.selected_profile_file is Some {
        ConfigLayerV1::Launch
    } else {
        ConfigLayerV1::User
    }
}

/// Whether no nearer layer than the target's decides a setting.
pub open spec fn is_writable(field: Option<FieldFact>, target: ConfigLayerV1) -> bool {
    field matches Some(field) ==> field.layer.rank() >= target.rank()
}

pub open spec fn observed(name: Seq<char>, field: Option<FieldFact>) -> Seq<ObservationView> {
    match field {
        Some(field) => seq![
            ObservationView {
                path: name,
                layer: field.layer,
                value: JsonView::Str(field.value),
                source_digest: field.digest,
            },
        ],
        None => Seq::empty(),
    }
}

/// The observed settings in the order of their names.
pub open spec fn observed_fields(fields: SelectedView) -> Seq<ObservationView> {
    observed("model"@, fields.model) + observed(
        "model_auto_compact_token_limit"@,
        fields.auto_compact,
    ) + observed("model_catalog_json"@, fields.catalog) + observed(
        "model_context_window"@,
        fields.context_window,
    ) + observed("model_provider"@, fields.provider)
}

pub open spec fn text_list(texts: Seq<Seq<char>>) -> JsonView {
    JsonView::Array(texts.map_values(|text: Seq<char>| JsonView::Str(text)))
}

pub open spec fn optional_text(text: Option<String>) -> JsonView {
    match text {
        Some(text) => JsonView::Str(text@),
        None => JsonView::Null,
    }
}

pub open spec fn selection_text(selection: CodexSelectionTarget) -> Seq<char> {
    match selection {
        CodexSelectionTarget::Root => "Root"@,
        CodexSelectionTarget::LegacyProfile(name) => "LegacyProfile("@ + quoted(name@) + ")"@,
    }
}

/// What the identity of a scope is made of: its home, its files, its selection and its overrides.
pub open spec fn scope_json(scope: CodexConfigurationScope) -> JsonView {
    JsonView::Array(
        seq![
            JsonView::Str("codex-context/v3"@),
            JsonView::Str(scope.codex_home@),
            JsonView::Str(scope.user_file@),
            optional_text(scope.system_file),
            text_list(views_of(scope.trusted_project_files@)),
            optional_text(scope.selected_profile_file),
            JsonView::Str(selection_text(scope.selection)),
            JsonView::Str(canonical_digest_of(text_list(views_of(scope.cli_overrides@)))),
        ],
    )
}

/// The identity of a scope.
pub open spec fn scope_identity(scope: CodexConfigurationScope) -> Seq<char> {
    canonical_digest_of(scope_json(scope))
}

/// The effective configuration of a scope. It holds none of the user's credentials. The dependency
/// identity covers every byte, path and override that was sampled, and every absence.
pub struct CodexEffectiveConfiguration {
    pub observations: Vec<ConfigObservationV1>,
    pub dependency_digest: CanonicalDigest,
    pub writable_selection: bool,
    pub context_digest: CanonicalDigest,
    pub source_document: toml_edit::DocumentMut,
}

pub struct EffectiveView {
    pub observations: Seq<ObservationView>,
    pub dependency_digest: Seq<char>,
    pub writable_selection: bool,
    pub context_digest: Seq<char>,
    pub entries: Map<Seq<char>, TomlNode>,
}

impl View for CodexEffectiveConfiguration {
    type V = EffectiveView;

    open spec fn view(&self) -> EffectiveView {
        EffectiveView {
            observations: observations_view(self.observations@),
            dependency_digest: self.dependency_digest@,
            writable_selection: self.writable_selection,
            context_digest: self.context_digest@,
            entries: document_entries(self.source_document),
        }
    }
}

pub open spec fn effective_view(scope: CodexConfigurationScope, sample: SampleView) -> EffectiveView {
    let target = target_layer(scope);
    EffectiveView {
        observations: observed_fields(sample.fields),
        dependency_digest: canonical_digest_of(text_list(sample.dependencies)),
        writable_selection: is_writable(sample.fields.model, target) && is_writable(
            sample.fields.provider,
            target,
        ) && is_writable(sample.fields.catalog, target),
        context_digest: scope_identity(scope),
        entries: sample.entries,
    }
}

/// The effective configuration of a scope, or why there is none.
pub open spec fn effective_configuration(
    scope: CodexConfigurationScope,
    reads: Seq<LayerRead>,
) -> Result<EffectiveView, AgentFilesystemScanError> {
    if !is_scope(scope) {
        Err(AgentFilesystemScanError::InvalidConfig)
    } else {
        match sampled_layers(scope, scope_layers(scope), reads) {
            Err(error) => Err(error),
            Ok(sample) => if sample.profile is None && !(scope.selection is Root) {
                Err(AgentFilesystemScanError::InvalidConfig)
            } else {
                match profile_applied(sample) {
                    None => Err(AgentFilesystemScanError::InvalidConfig),
                    Some(sample) => match sampled_overrides(
                        sample,
                        views_of(scope.cli_overrides@),
                    ) {
                        None => Err(AgentFilesystemScanError::InvalidConfig),
                        Some(sample) => Ok(effective_view(scope, sample)),
                    },
                }
            },
        }
    }
}

fn list_json(texts: &Vec<String>) -> (r: Json)
    ensures
        r@ == text_list(views_of(texts@)),
{
    let ghost all = views_of(texts@);
    let ghost to_json = |text: Seq<char>| JsonView::Str(text);
    let mut out: Vec<Json> = Vec::new();
    let mut i: usize = 0;
    assert(array_view(out@) =~= all.take(0).map_values(to_json));
    while i < texts.len()
        invariant
            i <= texts.len(),
            all == views_of(texts@),
            to_json == (|text: Seq<char>| JsonView::Str(text)),
            array_view(out@) == all.take(i as int).map_values(to_json),
        decreases texts.len() - i,
    {
        let ghost before = out@;
        out.push(Json::Str(texts[i].clone()));
        proof {
            assert(out@.drop_last() == before);
            assert(crate::json::json_view(out@.last()) == JsonView::Str(texts@[i as int]@));
            assert(all.take(i + 1).map_values(to_json) =~= all.take(i as int).map_values(
                to_json,
            ).push(JsonView::Str(all[i as int])));
        }
        i += 1;
    }
    assert(all.take(i as int) == all);
    Json::Array(out)
}

fn digests_json(digests: &Vec<CanonicalDigest>) -> (r: Json)
    ensures
        r@ == text_list(digests_view(digests@)),
{
    let mut texts: Vec<String> = Vec::new();
    let mut i: usize = 0;
    let ghost all = digests_view(digests@);
    assert(views_of(texts@) =~= all.take(0));
    while i < digests.len()
        invariant
            i <= digests.len(),
            all == digests_view(digests@),
            views_of(texts@) == all.take(i as int),
        decreases digests.len() - i,
    {
        let ghost before = views_of(texts@);
        texts.push(digests[i].as_str().to_owned());
        proof {
            assert(views_of(texts@) =~= before.push(all[i as int]));
            assert(all.take(i + 1) =~= all.take(i as int).push(all[i as int]));
        }
        i += 1;
    }
    assert(all.take(i as int) == all);
    list_json(&texts)
}

fn optional_json(text: &Option<String>) -> (r: Json)
    ensures
        r@ == optional_text(*text),
{
    match text {
        Some(text) => Json::Str(text.clone()),
        None => Json::Null,
    }
}

fn selection_label(selection: &CodexSelectionTarget) -> (r: String)
    ensures
        r@ == selection_text(*selection),
{
    match selection {
        CodexSelectionTarget::Root => "Root".to_owned(),
        CodexSelectionTarget::LegacyProfile(name) => {
            let mut text = "LegacyProfile(".to_owned();
            text.append(debug_quoted(name.as_str()).as_str());
            text.append(")");
            text
        },
    }
}

/// A list of texts is plain.
proof fn lemma_text_list_plain(texts: Seq<Seq<char>>)
    ensures
        is_plain(text_list(texts), 126),
        is_plain(text_list(texts), 127),
{
    let items = text_list(texts)->Array_0;
    assert forall|i: int| 0 <= i < items.len() implies is_plain(#[trigger] items[i], 125)
        && is_plain(items[i], 126) by {
        assert(items[i] == JsonView::Str(texts[i]));
    }
}

proof fn lemma_scope_plain(scope: CodexConfigurationScope)
    requires
        is_plain(text_list(views_of(scope.trusted_project_files@)), 126),
    ensures
        is_plain(scope_json(scope), 127),
{
    let items = scope_json(scope)->Array_0;
    assert forall|i: int| 0 <= i < items.len() implies is_plain(#[trigger] items[i], 126) by {}
}

fn identity_of(scope: &CodexConfigurationScope) -> (r: CanonicalDigest)
    ensures
        r@ == scope_identity(*scope),
        reads_back(scope_json(*scope)),
        reads_back(text_list(views_of(scope.cli_overrides@))),
{
    proof {
        lemma_text_list_plain(views_of(scope.trusted_project_files@));
        lemma_text_list_plain(views_of(scope.cli_overrides@));
        lemma_scope_plain(*scope);
    }
    let overrides = canonical_digest(&list_json(&scope.cli_overrides));
    let mut parts: Vec<Json> = Vec::new();
    parts.push(Json::Str("codex-context/v3".to_owned()));
    parts.push(Json::Str(scope.codex_home.clone()));
    parts.push(Json::Str(scope.user_file.clone()));
    parts.push(optional_json(&scope.system_file));
    parts.push(list_json(&scope.trusted_project_files));
    parts.push(optional_json(&scope.selected_profile_file));
    parts.push(Json::Str(selection_label(&scope.selection)));
    parts.push(Json::Str(overrides.as_str().to_owned()));
    proof {
        lemma_array_view(parts@);
        assert(array_view(parts@) =~= seq![
            JsonView::Str("codex-context/v3"@),
            JsonView::Str(scope.codex_home@),
            JsonView::Str(scope.user_file@),
            optional_text(scope.system_file),
            text_list(views_of(scope.trusted_project_files@)),
            optional_text(scope.selected_profile_file),
            JsonView::Str(selection_text(scope.selection)),
            JsonView::Str(canonical_digest_of(text_list(views_of(scope.cli_overrides@)))),
        ]);
    }
    canonical_digest(&Json::Array(parts))
}

fn observe(out: &mut Vec<ConfigObservationV1>, name: &str, field: Option<FieldValue>)
    ensures
        observations_view(final(out)@) == observations_view(old(out)@) + observed(
            name@,
            field_fact(field),
        ),
{
    let ghost before = observations_view(out@);
    match field {
        Some(field) => {
            out.push(
                ConfigObservationV1 {
                    path: name.to_owned(),
                    layer: field.layer,
                    value: Json::Str(field.value),
                    source_digest: field.digest.as_str().to_owned(),
                },
            );
        },
        None => {},
    }
    assert(observations_view(out@) =~= before + observed(name@, field_fact(field)));
}

fn writable(field: &Option<FieldValue>, target: ConfigLayerV1) -> (r: bool)
    ensures
        r == is_writable(field_fact(*field), target),
{
    match field {
        Some(field) => field.layer.precedence() >= target.precedence(),
        None => true,
    }
}

proof fn lemma_layers_error(
    scope: CodexConfigurationScope,
    files: Seq<LayerView>,
    reads: Seq<LayerRead>,
    k: int,
)
    requires
        0 <= k <= files.len(),
        sampled_layers(scope, files.take(k), reads) is Err,
    ensures
        sampled_layers(scope, files, reads) == sampled_layers(scope, files.take(k), reads),
    decreases files.len() - k,
{
    if k < files.len() {
        assert(files.take(k + 1).drop_last() == files.take(k));
        lemma_layers_error(scope, files, reads, k + 1);
    } else {
        assert(files.take(k) == files);
    }
}

proof fn lemma_overrides_refused(sample: SampleView, values: Seq<Seq<char>>, k: int)
    requires
        0 <= k <= values.len(),
        sampled_overrides(sample, values.take(k)) is None,
    ensures
        sampled_overrides(sample, values) is None,
    decreases values.len() - k,
{
    if k < values.len() {
        assert(values.take(k + 1).drop_last() == values.take(k));
        lemma_overrides_refused(sample, values, k + 1);
    } else {
        assert(values.take(k) == values);
    }
}

fn sample_files(scope: &CodexConfigurationScope, reads: &Vec<LayerRead>) -> (r: Result<
    Sample,
    AgentFilesystemScanError,
>)
    requires
        reads@.len() == scope_layers(*scope).len(),
    ensures
        match sampled_layers(*scope, scope_layers(*scope), reads@) {
            Ok(view) => r matches Ok(sample) && sample@ == view && sample.wf(),
            Err(failure) => r matches Err(error) && error == failure,
        },
        r is Ok ==> tell_absences(reads@),
{
    let files = layer_files(scope);
    let ghost all = layers_view(files@);
    let mut sample = Sample {
        dependencies: Vec::new(),
        fields: SelectedFields {
            model: None,
            auto_compact: None,
            catalog: None,
            context_window: None,
            provider: None,
        },
        document: toml_edit::DocumentMut::new(),
        seen: Vec::new(),
        profile: None,
    };
    proof {
        assert(all.take(0) == Seq::<LayerView>::empty());
        assert(sample@.dependencies =~= Seq::<Seq<char>>::empty());
        assert(sample@.seen =~= Seq::<Seq<Seq<char>>>::empty());
    }
    let mut i: usize = 0;
    while i < files.len()
        invariant
            i <= files.len(),
            all == layers_view(files@),
            all == scope_layers(*scope),
            reads@.len() == files@.len(),
            sampled_layers(*scope, all.take(i as int), reads@) == Ok::<_, AgentFilesystemScanError>(
                sample@,
            ),
            sample.wf(),
            forall|j: int| 0 <= j < i ==> tells_absence(#[trigger] reads@[j]),
        decreases files.len() - i,
    {
        proof {
            assert(all.take(i + 1).drop_last() == all.take(i as int));
            assert(all.take(i + 1).last() == all[i as int]);
            assert(all[i as int] == LayerView {
                path: files@[i as int].path@,
                layer: files@[i as int].layer,
            });
        }
        match sample.add_layer(scope, &files[i], &reads[i]) {
            Ok(next) => {
                sample = next;
            },
            Err(error) => {
                proof {
                    lemma_layers_error(*scope, all, reads@, i + 1);
                }
                return Err(error);
            },
        }
        i += 1;
    }
    assert(all.take(i as int) == all);
    Ok(sample)
}

fn sample_overrides(sample: Sample, values: &Vec<String>) -> (r: Option<Sample>)
    ensures
        match sampled_overrides(sample@, views_of(values@)) {
            Some(view) => r matches Some(sample) && sample@ == view,
            None => r is None,
        },
{
    let ghost start = sample@;
    let ghost all = views_of(values@);
    let mut sampled = sample;
    let mut i: usize = 0;
    assert(all.take(0) == Seq::<Seq<char>>::empty());
    while i < values.len()
        invariant
            i <= values.len(),
            all == views_of(values@),
            start == sample@,
            sampled_overrides(start, all.take(i as int)) == Some(sampled@),
        decreases values.len() - i,
    {
        proof {
            assert(all.take(i + 1).drop_last() == all.take(i as int));
            assert(all.take(i + 1).last() == values@[i as int]@);
        }
        match sampled.add_override(values[i].as_str()) {
            Some(next) => {
                sampled = next;
            },
            None => {
                proof {
                    lemma_overrides_refused(start, all, i + 1);
                }
                return None;
            },
        }
        i += 1;
    }
    assert(all.take(i as int) == all);
    Some(sampled)
}

/// Samples a scope. `reads` holds what reading each of its files gave, in their order.
pub fn sample_codex_configuration(scope: &CodexConfigurationScope, reads: &Vec<LayerRead>) -> (r:
    Result<CodexEffectiveConfiguration, AgentFilesystemScanError>)
    requires
        reads@.len() == scope_layers(*scope).len(),
    ensures
        match effective_configuration(*scope, reads@) {
            Ok(view) => r matches Ok(effective) && effective@ == view,
            Err(failure) => r matches Err(error) && error == failure,
        },
        r is Ok ==> {
            &&& tell_absences(reads@)
            &&& reads_back(dependency_list(*scope, reads@))
            &&& reads_back(scope_json(*scope))
            &&& reads_back(text_list(views_of(scope.cli_overrides@)))
        },
{
    let is_root = match &scope.selection {
        CodexSelectionTarget::Root => true,
        CodexSelectionTarget::LegacyProfile(_) => false,
    };
    if scope.trusted_project_files.len() > 32 || scope.cli_overrides.len() > 64 || (
    scope.selected_profile_file.is_some() && !is_root) || !directly_in(
        scope.user_file.as_str(),
        scope.codex_home.as_str(),
    ) {
        return Err(AgentFilesystemScanError::InvalidConfig);
    }
    let sample = match sample_files(scope, reads) {
        Ok(sample) => sample,
        Err(error) => return Err(error),
    };
    if sample.profile.is_none() && !is_root {
        return Err(AgentFilesystemScanError::InvalidConfig);
    }
    let sample = match sample.select_profile() {
        Some(sample) => sample,
        None => return Err(AgentFilesystemScanError::InvalidConfig),
    };
    let sample = match sample_overrides(sample, &scope.cli_overrides) {
        Some(sample) => sample,
        None => return Err(AgentFilesystemScanError::InvalidConfig),
    };
    let target = if !is_root || scope.selected_profile_file.is_some() {
        ConfigLayerV1::Launch
    } else {
        ConfigLayerV1::User
    };
    let Sample { dependencies, fields, document, seen: _, profile: _ } = sample;
    let writable_selection = writable(&fields.model, target) && writable(&fields.provider, target)
        && writable(&fields.catalog, target);
    let mut observations: Vec<ConfigObservationV1> = Vec::new();
    assert(observations_view(observations@) =~= Seq::<ObservationView>::empty());
    observe(&mut observations, "model", fields.model);
    observe(&mut observations, "model_auto_compact_token_limit", fields.auto_compact);
    observe(&mut observations, "model_catalog_json", fields.catalog);
    observe(&mut observations, "model_context_window", fields.context_window);
    observe(&mut observations, "model_provider", fields.provider);
    assert(observations_view(observations@) =~= observed_fields(fields@));
    proof {
        lemma_dependency_texts(*scope, reads@);
        lemma_text_list_plain(digests_view(dependencies@));
    }
    Ok(
        CodexEffectiveConfiguration {
            observations,
            dependency_digest: canonical_digest(&digests_json(&dependencies)),
            writable_selection,
            context_digest: identity_of(scope),
            source_document: document,
        },
    )
}

/// Whether an effective configuration sets a context window or a compaction limit of its own.
pub open spec fn overrides_context(entries: Map<Seq<char>, TomlNode>) -> bool {
    entries.contains_key("model_context_window"@) || entries.contains_key(
        "model_auto_compact_token_limit"@,
    )
}

pub fn codex_has_context_override(scope: &CodexConfigurationScope, reads: &Vec<LayerRead>) -> (r:
    Result<bool, AgentFilesystemScanError>)
    requires
        reads@.len() == scope_layers(*scope).len(),
    ensures
        match effective_configuration(*scope, reads@) {
            Ok(view) => r matches Ok(found) && found == overrides_context(view.entries),
            Err(failure) => r matches Err(error) && error == failure,
        },
{
    match sample_codex_configuration(scope, reads) {
        Ok(effective) => Ok(effective.has_context_override()),
        Err(error) => Err(error),
    }
}

impl CodexEffectiveConfiguration {
    pub fn has_context_override(&self) -> (r: bool)
        ensures
            r == overrides_context(self@.entries),
    {
        self.source_document.as_table().contains_key("model_context_window")
            || self.source_document.as_table().contains_key("model_auto_compact_token_limit")
    }
}

/// A later layer's setting counts before an earlier one's, and a layer without the setting leaves
/// it.
pub proof fn later_layers_win(
    fields: SelectedView,
    entries: Map<Seq<char>, TomlNode>,
    layer: ConfigLayerV1,
    digest: Seq<char>,
)
    requires
        collected(fields, entries, layer, digest) is Some,
    ensures
        ({
            let after = collected(fields, entries, layer, digest)->0;
            if entries.contains_key("model"@) {
                entries["model"@] is Str && after.model == Some(
                    FieldFact { layer, value: entries["model"@]->Str_0, digest },
                )
            } else {
                after.model == fields.model
            }
        }),
{
}

} // verus!
