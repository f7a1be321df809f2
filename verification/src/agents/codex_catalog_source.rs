//! Where the model directory of a selected Codex target comes from.
//!
//! A catalog that the user's configuration points at counts; without a pointer the target's own
//! cache does. A source that is named but invalid or unreadable is never replaced by another one.

use vstd::prelude::*;
use crate::agents::codex_catalog::{
    catalog_models, default_of, entries_of, is_catalog, last_priority, preserves_default, texts,
    CodexCatalogError, CodexCatalogSelection, CodexDefaultPolicy, PolicyView,
};
use crate::agents::codex_catalog_plan::{
    entries_of_plans, merged_catalog, retained_view, CatalogPlan, CodexCatalogMetadataSourceV1,
};
use crate::agents::codex_config::record::record_in;
use crate::agents::codex_config::CodexNativeRestore;
use crate::agents::codex_layers::{
    overrides_context, CodexConfigurationScope, CodexEffectiveConfiguration, LayerRead,
};
use crate::agents::filesystem::AgentFilesystemScanError;
use crate::digest::{digest_of, CanonicalDigest};
use crate::json::{
    array_view, canonical_digest, canonical_digest_of, compact_json, json_view,
    lemma_array_view, member_of, parse_json, parsed_json, put_member, same_json, to_bytes, Json,
    JsonView,
};
use crate::text::{chars_of, is_plain_absolute, plain_absolute, same};
use crate::toml::TomlNode;

verus! {

impl CodexCatalogMetadataSourceV1 {
    pub open spec fn wire(self) -> Seq<char> {
        match self {
            CodexCatalogMetadataSourceV1::UserConfigured => "user_configured"@,
            CodexCatalogMetadataSourceV1::TargetCache => "target_cache"@,
            CodexCatalogMetadataSourceV1::TargetBundled => "target_bundled"@,
            CodexCatalogMetadataSourceV1::HirouteGenerated => "hiroute_generated"@,
        }
    }

    pub fn wire_text(self) -> (r: &'static str)
        ensures
            r@ == self.wire(),
    {
        match self {
            CodexCatalogMetadataSourceV1::UserConfigured => "user_configured",
            CodexCatalogMetadataSourceV1::TargetCache => "target_cache",
            CodexCatalogMetadataSourceV1::TargetBundled => "target_bundled",
            CodexCatalogMetadataSourceV1::HirouteGenerated => "hiroute_generated",
        }
    }
}

/// The catalog of a selected target, as it was read. It proves no installation, account or access.
#[derive(Debug)]
pub struct CodexConfiguredCatalog {
    pub metadata_source: CodexCatalogMetadataSourceV1,
    pub path: String,
    pub original: Json,
    pub content_digest: CanonicalDigest,
    pub context_digest: CanonicalDigest,
    pub dependency_digest: CanonicalDigest,
}

pub struct CatalogView {
    pub metadata_source: CodexCatalogMetadataSourceV1,
    pub path: Seq<char>,
    pub original: JsonView,
    pub content_digest: Seq<char>,
    pub context_digest: Seq<char>,
    pub dependency_digest: Seq<char>,
}

impl View for CodexConfiguredCatalog {
    type V = CatalogView;

    open spec fn view(&self) -> CatalogView {
        CatalogView {
            metadata_source: self.metadata_source,
            path: self.path@,
            original: self.original@,
            content_digest: self.content_digest@,
            context_digest: self.context_digest@,
            dependency_digest: self.dependency_digest@,
        }
    }
}

/// Facts of a catalog's producer, sealed between a preview and its application. The path is that
/// of the source, never that of a merged catalog.
#[derive(Debug)]
pub struct CodexCatalogProducerFactsV1 {
    pub metadata_source: CodexCatalogMetadataSourceV1,
    pub path: String,
    pub content_digest: CanonicalDigest,
    pub context_digest: CanonicalDigest,
    pub dependency_digest: CanonicalDigest,
}

/// How the pointer must stand when a catalog has been read: still at the catalog, still absent, or
/// anyhow.
#[derive(Clone, Copy, Debug, PartialEq, Eq, Structural)]
pub enum PointerRevalidation {
    Exact,
    Absent,
    Ignore,
}

/// A catalog file to read.
#[derive(Debug)]
pub struct CatalogSource {
    pub path: String,
    pub metadata_source: CodexCatalogMetadataSourceV1,
    pub pointer: PointerRevalidation,
}

pub open spec fn is_source(
    source: CatalogSource,
    path: Seq<char>,
    metadata_source: CodexCatalogMetadataSourceV1,
    pointer: PointerRevalidation,
) -> bool {
    source.path@ == path && source.metadata_source == metadata_source && source.pointer == pointer
}

/// A name in a directory.
pub open spec fn joined(directory: Seq<char>, name: Seq<char>) -> Seq<char> {
    if directory.len() == 0 || directory.last() == '/' {
        directory + name
    } else {
        directory.push('/') + name
    }
}

fn join(directory: &str, name: &str) -> (r: String)
    ensures
        r@ == joined(directory@, name@),
{
    let chars = chars_of(directory);
    let mut path = directory.to_owned();
    if chars.len() > 0 && chars[chars.len() - 1] != '/' {
        path.push('/');
    }
    path.append(name);
    path
}

/// The pointer of an effective configuration: none, a plain absolute path, or an unusable one.
pub open spec fn pointer_of(entries: Map<Seq<char>, TomlNode>) -> Result<
    Option<Seq<char>>,
    AgentFilesystemScanError,
> {
    if !entries.contains_key("model_catalog_json"@) {
        Ok(None)
    } else {
        match entries["model_catalog_json"@] {
            TomlNode::Str(path) => if is_plain_absolute(path) {
                Ok(Some(path))
            } else {
                Err(AgentFilesystemScanError::InvalidConfig)
            },
            _ => Err(AgentFilesystemScanError::InvalidConfig),
        }
    }
}

fn pointer(effective: &CodexEffectiveConfiguration) -> (r: Result<
    Option<String>,
    AgentFilesystemScanError,
>)
    ensures
        match pointer_of(effective@.entries) {
            Ok(Some(path)) => r matches Ok(Some(text)) && text@ == path,
            Ok(None) => r matches Ok(None),
            Err(failure) => r matches Err(error) && error == failure,
        },
{
    match effective.source_document.as_table().get("model_catalog_json") {
        None => Ok(None),
        Some(item) => match item.as_str() {
            Some(path) => if plain_absolute(path) {
                Ok(Some(path.to_owned()))
            } else {
                Err(AgentFilesystemScanError::InvalidConfig)
            },
            None => Err(AgentFilesystemScanError::InvalidConfig),
        },
    }
}

/// The catalog that a configuration points at, where it points at one.
pub fn configured_catalog_source(before: &CodexEffectiveConfiguration) -> (r: Result<
    Option<CatalogSource>,
    AgentFilesystemScanError,
>)
    ensures
        match pointer_of(before@.entries) {
            Ok(Some(path)) => r matches Ok(Some(source)) && is_source(
                source,
                path,
                CodexCatalogMetadataSourceV1::UserConfigured,
                PointerRevalidation::Exact,
            ),
            Ok(None) => r matches Ok(None),
            Err(failure) => r matches Err(error) && error == failure,
        },
{
    match pointer(before) {
        Ok(Some(path)) => Ok(
            Some(
                CatalogSource {
                    path,
                    metadata_source: CodexCatalogMetadataSourceV1::UserConfigured,
                    pointer: PointerRevalidation::Exact,
                },
            ),
        ),
        Ok(None) => Ok(None),
        Err(error) => Err(error),
    }
}

/// The catalog of a target: the one that is pointed at, else the target's own cache.
pub fn catalog_source(before: &CodexEffectiveConfiguration, codex_home: &str) -> (r: Result<
    CatalogSource,
    AgentFilesystemScanError,
>)
    ensures
        match pointer_of(before@.entries) {
            Ok(Some(path)) => r matches Ok(source) && is_source(
                source,
                path,
                CodexCatalogMetadataSourceV1::UserConfigured,
                PointerRevalidation::Exact,
            ),
            Ok(None) => r matches Ok(source) && is_source(
                source,
                joined(codex_home@, "models_cache.json"@),
                CodexCatalogMetadataSourceV1::TargetCache,
                PointerRevalidation::Absent,
            ),
            Err(failure) => r matches Err(error) && error == failure,
        },
{
    match configured_catalog_source(before) {
        Ok(Some(source)) => Ok(source),
        Ok(None) => Ok(
            CatalogSource {
                path: join(codex_home, "models_cache.json"),
                metadata_source: CodexCatalogMetadataSourceV1::TargetCache,
                pointer: PointerRevalidation::Absent,
            },
        ),
        Err(error) => Err(error),
    }
}

/// Whether a value has entries, each of them an object.
pub open spec fn is_catalog_value(json: JsonView) -> bool {
    catalog_models(json) matches Some(models) && forall|i: int|
        0 <= i < models.len() ==> (#[trigger] models[i]) is Object
}

pub open spec fn catalog_value(bytes: Seq<u8>) -> Option<JsonView> {
    match parsed_json(bytes) {
        Some(json) => if is_catalog_value(json) {
            Some(json)
        } else {
            None
        },
        None => None,
    }
}

/// Reads the catalog in a file.
pub fn read_catalog_value(bytes: &[u8]) -> (r: Result<Json, AgentFilesystemScanError>)
    ensures
        match catalog_value(bytes@) {
            Some(json) => r matches Ok(value) && value@ == json,
            None => r matches Err(error) && error == AgentFilesystemScanError::InvalidConfig,
        },
{
    let json = match parse_json(bytes) {
        Some(json) => json,
        None => return Err(AgentFilesystemScanError::InvalidConfig),
    };
    let usable = match json.member("models") {
        Some(Json::Array(models)) => {
            let ghost views = array_view(models@);
            proof {
                lemma_array_view(models@);
            }
            let mut all = models.len() > 0;
            let mut i: usize = 0;
            while i < models.len()
                invariant
                    i <= models.len(),
                    views == array_view(models@),
                    views.len() == models@.len(),
                    forall|j: int|
                        0 <= j < models@.len() ==> #[trigger] views[j] == json_view(models@[j]),
                    all == (models@.len() > 0 && forall|j: int|
                        0 <= j < i ==> (#[trigger] views[j]) is Object),
                decreases models.len() - i,
            {
                assert(views[i as int] == json_view(models@[i as int]));
                match &models[i] {
                    Json::Object(_) => {},
                    _ => {
                        assert(!(views[i as int] is Object));
                        all = false;
                    },
                }
                i += 1;
            }
            all
        },
        _ => false,
    };
    if usable {
        Ok(json)
    } else {
        Err(AgentFilesystemScanError::InvalidConfig)
    }
}

/// The identity of what a catalog depends on.
pub open spec fn producer_identity(
    source: CodexCatalogMetadataSourceV1,
    context: Seq<char>,
    dependency: Seq<char>,
    path: Seq<char>,
    content: Seq<char>,
) -> Seq<char> {
    canonical_digest_of(
        JsonView::Array(
            seq![
                JsonView::Str("codex-catalog-producer/v2"@),
                JsonView::Str(source.wire()),
                JsonView::Str(context),
                JsonView::Str(dependency),
                JsonView::Str(path),
                JsonView::Str(content),
            ],
        ),
    )
}

fn text_json(text: &str) -> (r: Json)
    ensures
        r@ == JsonView::Str(text@),
{
    Json::Str(text.to_owned())
}

fn producer_digest(
    source: CodexCatalogMetadataSourceV1,
    context: &str,
    dependency: &str,
    path: &str,
    content: &str,
) -> (r: CanonicalDigest)
    ensures
        r@ == producer_identity(source, context@, dependency@, path@, content@),
{
    let mut parts: Vec<Json> = Vec::new();
    parts.push(text_json("codex-catalog-producer/v2"));
    parts.push(text_json(source.wire_text()));
    parts.push(text_json(context));
    parts.push(text_json(dependency));
    parts.push(text_json(path));
    parts.push(text_json(content));
    proof {
        lemma_array_view(parts@);
        assert(array_view(parts@) =~= seq![
            JsonView::Str("codex-catalog-producer/v2"@),
            JsonView::Str(source.wire()),
            JsonView::Str(context@),
            JsonView::Str(dependency@),
            JsonView::Str(path@),
            JsonView::Str(content@),
        ]);
    }
    canonical_digest(&Json::Array(parts))
}

/// Whether the pointer stands as it must after a catalog has been read.
pub open spec fn pointer_is_stable(
    pointer: PointerRevalidation,
    entries: Map<Seq<char>, TomlNode>,
    path: Seq<char>,
) -> bool {
    let selected = if entries.contains_key("model_catalog_json"@)
        && entries["model_catalog_json"@] is Str {
        Some(entries["model_catalog_json"@]->Str_0)
    } else {
        None
    };
    match pointer {
        PointerRevalidation::Exact => selected == Some(path),
        PointerRevalidation::Absent => selected is None,
        PointerRevalidation::Ignore => true,
    }
}

/// The catalog of a source: the file must be there and hold a catalog, and the scope must not have
/// changed while it was read.
pub fn read_catalog_source(
    source: &CatalogSource,
    before: &CodexEffectiveConfiguration,
    read: &LayerRead,
    after: &Result<CodexEffectiveConfiguration, AgentFilesystemScanError>,
) -> (r: Result<CodexConfiguredCatalog, AgentFilesystemScanError>)
    ensures
        if !is_plain_absolute(source.path@) {
            r matches Err(error) && error == AgentFilesystemScanError::InvalidConfig
        } else {
            match *read {
                Err(failure) => r matches Err(error) && error == failure,
                Ok(None) => r matches Err(error) && error
                    == AgentFilesystemScanError::SourceUnavailable,
                Ok(Some(bytes)) => match catalog_value(bytes@) {
                    None => r matches Err(error) && error
                        == AgentFilesystemScanError::InvalidConfig,
                    Some(original) => match *after {
                        Err(failure) => r matches Err(error) && error == failure,
                        Ok(after) => if before@.context_digest != after@.context_digest
                            || before@.dependency_digest != after@.dependency_digest
                            || !pointer_is_stable(source.pointer, after@.entries, source.path@) {
                            r matches Err(error) && error
                                == AgentFilesystemScanError::SourceChanged
                        } else {
                            r matches Ok(catalog) && catalog@ == (CatalogView {
                                metadata_source: source.metadata_source,
                                path: source.path@,
                                original,
                                content_digest: digest_of(bytes@),
                                context_digest: before@.context_digest,
                                dependency_digest: producer_identity(
                                    source.metadata_source,
                                    before@.context_digest,
                                    before@.dependency_digest,
                                    source.path@,
                                    digest_of(bytes@),
                                ),
                            })
                        },
                    },
                },
            }
        },
{
    if !plain_absolute(source.path.as_str()) {
        return Err(AgentFilesystemScanError::InvalidConfig);
    }
    let bytes = match read {
        Err(error) => return Err(*error),
        Ok(None) => return Err(AgentFilesystemScanError::SourceUnavailable),
        Ok(Some(bytes)) => bytes,
    };
    let original = match read_catalog_value(bytes.as_slice()) {
        Ok(original) => original,
        Err(error) => return Err(error),
    };
    let after = match after {
        Ok(after) => after,
        Err(error) => return Err(*error),
    };
    let selected = match after.source_document.as_table().get("model_catalog_json") {
        Some(item) => item.as_str(),
        None => None,
    };
    let stable = match source.pointer {
        PointerRevalidation::Exact => match selected {
            Some(selected) => same(selected, source.path.as_str()),
            None => false,
        },
        PointerRevalidation::Absent => selected.is_none(),
        PointerRevalidation::Ignore => true,
    };
    if !before.context_digest.equals(&after.context_digest) || !before.dependency_digest.equals(
        &after.dependency_digest,
    ) || !stable {
        return Err(AgentFilesystemScanError::SourceChanged);
    }
    let content_digest = CanonicalDigest::of_bytes(bytes.as_slice());
    let dependency_digest = producer_digest(
        source.metadata_source,
        before.context_digest.as_str(),
        before.dependency_digest.as_str(),
        source.path.as_str(),
        content_digest.as_str(),
    );
    Ok(
        CodexConfiguredCatalog {
            metadata_source: source.metadata_source,
            path: source.path.clone(),
            original,
            content_digest,
            context_digest: before.context_digest.copied(),
            dependency_digest,
        },
    )
}

impl CodexConfiguredCatalog {
    fn equals(&self, other: &Self) -> (r: bool)
        ensures
            r == (self@ == other@),
    {
        self.metadata_source == other.metadata_source && same(
            self.path.as_str(),
            other.path.as_str(),
        ) && same_json(&self.original, &other.original) && self.content_digest.equals(
            &other.content_digest,
        ) && self.context_digest.equals(&other.context_digest) && self.dependency_digest.equals(
            &other.dependency_digest,
        )
    }
}

/// Whether the configured catalog is still the one that was read.
pub fn revalidate_codex_configured_catalog(
    sampled: &Result<Option<CodexConfiguredCatalog>, AgentFilesystemScanError>,
    expected: &CodexConfiguredCatalog,
) -> (r: Result<(), AgentFilesystemScanError>)
    ensures
        r == match *sampled {
            Err(error) => Err(error),
            Ok(Some(catalog)) => if catalog@ == expected@ {
                Ok(())
            } else {
                Err(AgentFilesystemScanError::SourceChanged)
            },
            Ok(None) => Err(AgentFilesystemScanError::SourceChanged),
        },
{
    match sampled {
        Err(error) => Err(*error),
        Ok(Some(catalog)) => if catalog.equals(expected) {
            Ok(())
        } else {
            Err(AgentFilesystemScanError::SourceChanged)
        },
        Ok(None) => Err(AgentFilesystemScanError::SourceChanged),
    }
}

/// Whether the catalog of a target is still the one that was read.
pub fn revalidate_codex_catalog_source(
    sampled: &Result<CodexConfiguredCatalog, AgentFilesystemScanError>,
    expected: &CodexConfiguredCatalog,
) -> (r: Result<(), AgentFilesystemScanError>)
    ensures
        r == match *sampled {
            Err(error) => Err(error),
            Ok(catalog) => if catalog@ == expected@ {
                Ok(())
            } else {
                Err(AgentFilesystemScanError::SourceChanged)
            },
        },
{
    match sampled {
        Err(error) => Err(*error),
        Ok(catalog) => if catalog.equals(expected) {
            Ok(())
        } else {
            Err(AgentFilesystemScanError::SourceChanged)
        },
    }
}

/// The catalog that a managed update starts from: never an earlier HiRoute one, whose plan entries
/// would stand beside the new ones.
#[derive(Debug)]
pub enum CodexCatalogBaseline {
    /// No managed edit holds the pointer: the scope's own configuration has the user's.
    Scope,
    /// A managed edit replaced the user's pointer: what its record preserved. None is a user
    /// without a catalog of their own.
    Original(Option<String>),
}

/// What a protected record says of the catalog to start from.
pub open spec fn baseline_in(record: Seq<u8>) -> Option<Option<Option<Seq<char>>>> {
    if record.len() < 3 || record[0] != 1 || record[1] > 1 {
        None
    } else {
        match record_in(record.skip(2)) {
            Some(restore) => Some(restore.pointer_before()),
            None => None,
        }
    }
}

/// Reads the protected record of an earlier managed configuration for its catalog.
pub fn codex_catalog_baseline(record: &[u8]) -> (r: Result<CodexCatalogBaseline, CodexCatalogError>)
    ensures
        match baseline_in(record@) {
            None => r matches Err(error) && error == CodexCatalogError::InvalidCatalog,
            Some(None) => r matches Ok(CodexCatalogBaseline::Scope),
            Some(Some(None)) => r matches Ok(CodexCatalogBaseline::Original(None)),
            Some(Some(Some(path))) => r matches Ok(CodexCatalogBaseline::Original(Some(text)))
                && text@ == path,
        },
{
    if record.len() < 3 || record[0] != 1 || record[1] > 1 {
        return Err(CodexCatalogError::InvalidCatalog);
    }
    let body = vstd::slice::slice_subrange(record, 2, record.len());
    assert(body@ =~= record@.skip(2));
    let restore = match CodexNativeRestore::decode_protected(body) {
        Ok(restore) => restore,
        Err(_) => return Err(CodexCatalogError::InvalidCatalog),
    };
    match restore.catalog_pointer_before() {
        None => Ok(CodexCatalogBaseline::Scope),
        Some(pointer) => Ok(CodexCatalogBaseline::Original(pointer)),
    }
}

/// The catalog file that a managed update starts from.
pub fn baseline_source(
    baseline: &CodexCatalogBaseline,
    before: &CodexEffectiveConfiguration,
    codex_home: &str,
) -> (r: Result<CatalogSource, AgentFilesystemScanError>)
    ensures
        match *baseline {
            CodexCatalogBaseline::Original(Some(path)) => r matches Ok(source) && is_source(
                source,
                path@,
                CodexCatalogMetadataSourceV1::UserConfigured,
                PointerRevalidation::Ignore,
            ),
            CodexCatalogBaseline::Original(None) => r matches Ok(source) && is_source(
                source,
                joined(codex_home@, "models_cache.json"@),
                CodexCatalogMetadataSourceV1::TargetCache,
                PointerRevalidation::Ignore,
            ),
            CodexCatalogBaseline::Scope => match pointer_of(before@.entries) {
                Ok(Some(path)) => r matches Ok(source) && is_source(
                    source,
                    path,
                    CodexCatalogMetadataSourceV1::UserConfigured,
                    PointerRevalidation::Exact,
                ),
                Ok(None) => r matches Ok(source) && is_source(
                    source,
                    joined(codex_home@, "models_cache.json"@),
                    CodexCatalogMetadataSourceV1::TargetCache,
                    PointerRevalidation::Absent,
                ),
                Err(failure) => r matches Err(error) && error == failure,
            },
        },
{
    match baseline {
        CodexCatalogBaseline::Original(Some(path)) => Ok(
            CatalogSource {
                path: path.clone(),
                metadata_source: CodexCatalogMetadataSourceV1::UserConfigured,
                pointer: PointerRevalidation::Ignore,
            },
        ),
        CodexCatalogBaseline::Original(None) => Ok(
            CatalogSource {
                path: join(codex_home, "models_cache.json"),
                metadata_source: CodexCatalogMetadataSourceV1::TargetCache,
                pointer: PointerRevalidation::Ignore,
            },
        ),
        CodexCatalogBaseline::Scope => catalog_source(before, codex_home),
    }
}

#[derive(Debug)]
pub struct CodexCatalogModelSummaryV1 {
    pub client_model_id: String,
    pub display_name: String,
    /// The reasoning that applies: the scope's own, else the entry's default. It is metadata and
    /// grants no access.
    pub native_reasoning_profile: Option<String>,
}

/// The names of a native model directory, without its prompts and opaque metadata.
#[derive(Debug)]
pub struct CodexCatalogSummaryV1 {
    pub metadata_source: CodexCatalogMetadataSourceV1,
    pub native_default_model: String,
    pub models: Vec<CodexCatalogModelSummaryV1>,
}

pub struct ModelSummaryView {
    pub client_model_id: Seq<char>,
    pub display_name: Seq<char>,
    pub native_reasoning_profile: Option<Seq<char>>,
}

pub open spec fn option_text(text: Option<String>) -> Option<Seq<char>> {
    match text {
        Some(text) => Some(text@),
        None => None,
    }
}

pub open spec fn summaries_view(models: Seq<CodexCatalogModelSummaryV1>) -> Seq<ModelSummaryView> {
    models.map_values(
        |model: CodexCatalogModelSummaryV1|
            ModelSummaryView {
                client_model_id: model.client_model_id@,
                display_name: model.display_name@,
                native_reasoning_profile: option_text(model.native_reasoning_profile),
            },
    )
}

pub open spec fn member_text(json: JsonView, name: Seq<char>) -> Option<Seq<char>> {
    match member_of(json, name) {
        Some(JsonView::Str(text)) => Some(text),
        _ => None,
    }
}

/// What is shown of an entry.
pub open spec fn model_summary(model: JsonView, reasoning: Option<Seq<char>>) -> Option<
    ModelSummaryView,
> {
    match (member_text(model, "slug"@), member_text(model, "display_name"@)) {
        (Some(client_model_id), Some(display_name)) => Some(
            ModelSummaryView {
                client_model_id,
                display_name,
                native_reasoning_profile: match reasoning {
                    Some(_) => reasoning,
                    None => member_text(model, "default_reasoning_level"@),
                },
            },
        ),
        _ => None,
    }
}

/// What is shown of the entries of a catalog.
pub open spec fn model_summaries(models: Seq<JsonView>, reasoning: Option<Seq<char>>) -> Option<
    Seq<ModelSummaryView>,
>
    decreases models.len(),
{
    if models.len() == 0 {
        Some(Seq::empty())
    } else {
        match (
            model_summaries(models.drop_last(), reasoning),
            model_summary(models.last(), reasoning),
        ) {
            (Some(list), Some(model)) => Some(list.push(model)),
            _ => None,
        }
    }
}

/// The reasoning that a scope sets for every model.
pub open spec fn scope_reasoning(entries: Map<Seq<char>, TomlNode>) -> Option<Option<Seq<char>>> {
    if !entries.contains_key("model_reasoning_effort"@) {
        Some(None)
    } else {
        match entries["model_reasoning_effort"@] {
            TomlNode::Str(effort) => Some(Some(effort)),
            _ => None,
        }
    }
}

pub open spec fn summary_policy(explicit_model: Option<Seq<char>>) -> PolicyView {
    PolicyView {
        explicit_model,
        uses_codex_backend: true,
        allow_provider_model_fallback: false,
    }
}

fn text_member(json: &Json, name: &str) -> (r: Option<String>)
    ensures
        option_text(r) == member_text(json@, name@),
{
    match json.member(name) {
        Some(Json::Str(text)) => Some(text.clone()),
        _ => None,
    }
}

fn copied_option(text: &Option<String>) -> (r: Option<String>)
    ensures
        option_text(r) == option_text(*text),
{
    match text {
        Some(text) => Some(text.clone()),
        None => None,
    }
}

fn summarize_models(models: &Vec<Json>, reasoning: &Option<String>) -> (r: Option<
    Vec<CodexCatalogModelSummaryV1>,
>)
    ensures
        match model_summaries(array_view(models@), option_text(*reasoning)) {
            Some(list) => r matches Some(out) && summaries_view(out@) == list,
            None => r is None,
        },
{
    let ghost all = array_view(models@);
    let ghost wanted = option_text(*reasoning);
    let mut out: Vec<CodexCatalogModelSummaryV1> = Vec::new();
    let mut i: usize = 0;
    proof {
        lemma_array_view(models@);
        assert(all.take(0) == Seq::<JsonView>::empty());
        assert(summaries_view(out@) =~= Seq::<ModelSummaryView>::empty());
    }
    while i < models.len()
        invariant
            i <= models.len(),
            all == array_view(models@),
            all.len() == models@.len(),
            forall|j: int| 0 <= j < models@.len() ==> #[trigger] all[j] == json_view(models@[j]),
            wanted == option_text(*reasoning),
            model_summaries(all.take(i as int), wanted) == Some(summaries_view(out@)),
        decreases models.len() - i,
    {
        let model = &models[i];
        proof {
            assert(all[i as int] == model@);
            assert(all.take(i + 1).drop_last() == all.take(i as int));
            assert(all.take(i + 1).last() == model@);
        }
        match (text_member(model, "slug"), text_member(model, "display_name")) {
            (Some(client_model_id), Some(display_name)) => {
                let native_reasoning_profile = match reasoning {
                    Some(_) => copied_option(reasoning),
                    None => text_member(model, "default_reasoning_level"),
                };
                let ghost before = summaries_view(out@);
                out.push(
                    CodexCatalogModelSummaryV1 {
                        client_model_id,
                        display_name,
                        native_reasoning_profile,
                    },
                );
                assert(summaries_view(out@) =~= before.push(model_summary(model@, wanted)->0));
            },
            _ => {
                proof {
                    lemma_summaries_none(all, wanted, i + 1);
                }
                return None;
            },
        }
        i += 1;
    }
    assert(all.take(i as int) == all);
    Some(out)
}

proof fn lemma_summaries_none(models: Seq<JsonView>, reasoning: Option<Seq<char>>, k: int)
    requires
        0 <= k <= models.len(),
        model_summaries(models.take(k), reasoning) is None,
    ensures
        model_summaries(models, reasoning) is None,
    decreases models.len() - k,
{
    if k < models.len() {
        assert(models.take(k + 1).drop_last() == models.take(k));
        lemma_summaries_none(models, reasoning, k + 1);
    } else {
        assert(models.take(k) == models);
    }
}

/// Summarizes the catalog of a target: its names and its default. `schema_holds` says whether the
/// catalog meets the structural contract; `effective` is the scope as sampled once more, where
/// that was possible.
pub fn sample_codex_catalog_summary(
    configured: Result<CodexConfiguredCatalog, AgentFilesystemScanError>,
    schema_holds: bool,
    explicit_model: Option<&str>,
    effective: Option<&CodexEffectiveConfiguration>,
    names: &Vec<String>,
) -> (r: Result<CodexCatalogSummaryV1, CodexCatalogError>)
    ensures
        match configured {
            Err(_) => r matches Err(error) && error == CodexCatalogError::CapabilityUnproven,
            Ok(catalog) => if !is_catalog(catalog@.original, texts(names@)) || !schema_holds {
                r matches Err(error) && error == CodexCatalogError::InvalidCatalog
            } else {
                match default_of(
                    entries_of(catalog@.original),
                    summary_policy(
                        match explicit_model {
                            Some(model) => Some(model@),
                            None => None,
                        },
                    ),
                    texts(names@),
                ) {
                    Err(failure) => r matches Err(error) && error == failure,
                    Ok(native_default) => match effective {
                        None => r matches Err(error) && error
                            == CodexCatalogError::CapabilityUnproven,
                        Some(effective) => match scope_reasoning(effective@.entries) {
                            None => r matches Err(error) && error
                                == CodexCatalogError::InvalidCatalog,
                            Some(reasoning) => match model_summaries(
                                catalog_models(catalog@.original)->0,
                                reasoning,
                            ) {
                                None => r matches Err(error) && error
                                    == CodexCatalogError::InvalidCatalog,
                                Some(models) => r matches Ok(summary) && summary.metadata_source
                                    == catalog@.metadata_source && summary.native_default_model@
                                    == native_default && summaries_view(summary.models@) == models,
                            },
                        },
                    },
                }
            },
        },
{
    let catalog = match configured {
        Ok(catalog) => catalog,
        Err(_) => return Err(CodexCatalogError::CapabilityUnproven),
    };
    let metadata_source = catalog.metadata_source;
    let selection = match CodexCatalogSelection::for_current_adapter(
        catalog.original,
        names,
        schema_holds,
    ) {
        Ok(selection) => selection,
        Err(error) => return Err(error),
    };
    let policy = CodexDefaultPolicy {
        explicit_model,
        uses_codex_backend: true,
        allow_provider_model_fallback: false,
    };
    let native_default_model = match selection.effective_default(policy, names) {
        Ok(model) => model.to_owned(),
        Err(error) => return Err(error),
    };
    let effective = match effective {
        Some(effective) => effective,
        None => return Err(CodexCatalogError::CapabilityUnproven),
    };
    let reasoning = match effective.source_document.as_table().get("model_reasoning_effort") {
        None => None,
        Some(item) => match item.as_str() {
            Some(effort) => Some(effort.to_owned()),
            None => return Err(CodexCatalogError::InvalidCatalog),
        },
    };
    let models = match selection.original().member("models") {
        Some(Json::Array(models)) => models,
        _ => return Err(CodexCatalogError::InvalidCatalog),
    };
    match summarize_models(models, &reasoning) {
        Some(models) => Ok(CodexCatalogSummaryV1 { metadata_source, native_default_model, models }),
        None => Err(CodexCatalogError::InvalidCatalog),
    }
}

/// A catalog that a plan-carrying selection publishes, its digest and where it comes from.
#[derive(Debug)]
pub struct CodexCatalogPlan {
    pub selection: CodexCatalogSelection,
    pub content_digest: CanonicalDigest,
    pub producer: CodexCatalogProducerFactsV1,
}

impl CodexConfiguredCatalog {
    fn producer(&self) -> (r: CodexCatalogProducerFactsV1)
        ensures
            is_producer_of(r, self@),
    {
        CodexCatalogProducerFactsV1 {
            metadata_source: self.metadata_source,
            path: self.path.clone(),
            content_digest: self.content_digest.copied(),
            context_digest: self.context_digest.copied(),
            dependency_digest: self.dependency_digest.copied(),
        }
    }
}

pub open spec fn is_producer_of(facts: CodexCatalogProducerFactsV1, catalog: CatalogView) -> bool {
    &&& facts.metadata_source == catalog.metadata_source
    &&& facts.path@ == catalog.path
    &&& facts.content_digest@ == catalog.content_digest
    &&& facts.context_digest@ == catalog.context_digest
    &&& facts.dependency_digest@ == catalog.dependency_digest
}

/// A catalog plan in the making: the target's own catalog, and the catalog with the plans.
#[derive(Debug)]
pub struct CodexCatalogDraft {
    pub native: CodexCatalogSelection,
    pub updated: CodexCatalogSelection,
    pub producer: CodexCatalogProducerFactsV1,
}

/// Adds the permitted plans to the catalog of a target. `schema_holds` says whether the target's
/// catalog meets the structural contract. The client's version and digest do not matter.
pub fn draft_codex_catalog_plan(
    configured: Result<CodexConfiguredCatalog, AgentFilesystemScanError>,
    schema_holds: bool,
    plans: &Vec<CatalogPlan>,
    retained_models: Option<&Vec<String>>,
    names: &Vec<String>,
    prompt: &str,
) -> (r: Result<CodexCatalogDraft, CodexCatalogError>)
    ensures
        match configured {
            Err(_) => r matches Err(error) && error == CodexCatalogError::CapabilityUnproven,
            Ok(catalog) => {
                let last = last_priority(entries_of(catalog@.original));
                if !is_catalog(catalog@.original, texts(names@)) || !schema_holds {
                    r matches Err(error) && error == CodexCatalogError::InvalidCatalog
                } else if plans@.len() > i32::MAX || last + plans@.len() > i32::MAX {
                    r matches Err(error) && error == CodexCatalogError::PriorityExhausted
                } else {
                    match merged_catalog(
                        catalog@.original,
                        catalog@.metadata_source,
                        retained_view(retained_models),
                        plans@,
                        last,
                        prompt@,
                    ) {
                        Err(failure) => r matches Err(error) && error == failure,
                        Ok(merged) => if is_catalog(merged, texts(names@)) {
                            r matches Ok(draft) && draft.native@.original == catalog@.original
                                && draft.native@.wf() && draft.updated@.original == merged
                                && draft.updated@.wf() && is_producer_of(draft.producer, catalog@)
                        } else {
                            r matches Err(error) && error == CodexCatalogError::InvalidCatalog
                        },
                    }
                }
            },
        },
{
    let catalog = match configured {
        Ok(catalog) => catalog,
        Err(_) => return Err(CodexCatalogError::CapabilityUnproven),
    };
    let producer = catalog.producer();
    let native = match CodexCatalogSelection::for_current_adapter(
        catalog.original,
        names,
        schema_holds,
    ) {
        Ok(native) => native,
        Err(error) => return Err(error),
    };
    match native.append_plans(
        schema_holds,
        plans,
        producer.metadata_source,
        retained_models,
        names,
        prompt,
    ) {
        Ok(updated) => Ok(CodexCatalogDraft { native, updated, producer }),
        Err(error) => Err(error),
    }
}

/// Finishes a catalog plan, where the catalog with the plans meets the structural contract and
/// keeps the native default.
pub fn sample_codex_catalog_plan(
    draft: CodexCatalogDraft,
    schema_holds: bool,
    policy: CodexDefaultPolicy<'_>,
    names: &Vec<String>,
) -> (r: Result<CodexCatalogPlan, CodexCatalogError>)
    ensures
        if !schema_holds {
            r matches Err(error) && error == CodexCatalogError::InvalidCatalog
        } else {
            match preserves_default(
                draft.native@.entries,
                draft.updated@.entries,
                policy@,
                texts(names@),
            ) {
                Err(failure) => r matches Err(error) && error == failure,
                Ok(()) => r matches Ok(plan) && plan.selection@ == draft.updated@
                    && plan.content_digest@ == digest_of(compact_json(draft.updated@.original))
                    && plan.producer == draft.producer,
            }
        },
{
    if !schema_holds {
        return Err(CodexCatalogError::InvalidCatalog);
    }
    match draft.native.require_preserved_default(&draft.updated, policy, names) {
        Ok(()) => {},
        Err(error) => return Err(error),
    }
    let content_digest = CanonicalDigest::of_bytes(
        to_bytes(draft.updated.original()).as_slice(),
    );
    Ok(
        CodexCatalogPlan {
            selection: draft.updated,
            content_digest,
            producer: draft.producer,
        },
    )
}

/// The catalog of plans alone.
pub open spec fn plans_catalog(plans: Seq<CatalogPlan>, prompt: Seq<char>) -> Option<JsonView> {
    match entries_of_plans(plans, -1, prompt) {
        Some(entries) => Some(
            JsonView::Object(map!["models"@ => JsonView::Array(entries)]),
        ),
        None => None,
    }
}

/// The catalog of plans alone, before it is held to the structural contract.
pub fn hiroute_only_catalog(plans: &Vec<CatalogPlan>, prompt: &str) -> (r: Result<
    Json,
    CodexCatalogError,
>)
    ensures
        if plans@.len() == 0 || plans@.len() > i32::MAX {
            r matches Err(error) && error == CodexCatalogError::InvalidCatalog
        } else {
            match plans_catalog(plans@, prompt@) {
                Some(catalog) => r matches Ok(json) && json@ == catalog,
                None => r matches Err(error) && error == CodexCatalogError::CapabilityUnproven,
            }
        },
{
    if plans.len() == 0 || plans.len() > 0x7fff_ffff {
        return Err(CodexCatalogError::InvalidCatalog);
    }
    let mut priorities: Vec<i32> = Vec::new();
    let mut i: usize = 0;
    while i < plans.len()
        invariant
            i <= plans.len() <= 0x7fff_ffff,
            priorities@.len() == i,
            forall|j: int| 0 <= j < i ==> #[trigger] priorities@[j] == -1 + j + 1,
        decreases plans.len() - i,
    {
        priorities.push(i as i32);
        i += 1;
    }
    let entries = match crate::agents::codex_catalog_plan::plan_entries(
        plans,
        &priorities,
        prompt,
        Ghost(-1),
    ) {
        Some(entries) => entries,
        None => return Err(CodexCatalogError::CapabilityUnproven),
    };
    let mut members: Vec<(String, Json)> = Vec::new();
    put_member(&mut members, "models", Json::Array(entries));
    Ok(Json::Object(members))
}

pub open spec fn offers_model(models: Seq<JsonView>, name: Seq<char>) -> bool {
    exists|i: int| 0 <= i < models.len() && member_text(#[trigger] models[i], "slug"@) == Some(name)
}

fn offered(models: &Vec<Json>, name: &str) -> (r: bool)
    ensures
        r == offers_model(array_view(models@), name@),
{
    let ghost all = array_view(models@);
    proof {
        lemma_array_view(models@);
    }
    let mut i: usize = 0;
    while i < models.len()
        invariant
            i <= models.len(),
            all == array_view(models@),
            all.len() == models@.len(),
            forall|j: int| 0 <= j < models@.len() ==> #[trigger] all[j] == json_view(models@[j]),
            forall|j: int| 0 <= j < i ==> member_text(#[trigger] all[j], "slug"@) != Some(name@),
        decreases models.len() - i,
    {
        assert(all[i as int] == json_view(models@[i as int]));
        match models[i].member("slug") {
            Some(Json::Str(slug)) => if same(slug.as_str(), name) {
                assert(member_text(all[i as int], "slug"@) == Some(name@));
                return true;
            },
            _ => {},
        }
        i += 1;
    }
    false
}

/// The identity of what a catalog of plans alone depends on.
pub open spec fn hiroute_only_identity(
    user_file: Seq<char>,
    dependency: Seq<char>,
    content: Seq<char>,
) -> Seq<char> {
    canonical_digest_of(
        JsonView::Array(
            seq![
                JsonView::Str("hiroute-only-codex-catalog/v1"@),
                JsonView::Str(user_file),
                JsonView::Str(dependency),
                JsonView::Str(content),
            ],
        ),
    )
}

/// A catalog of plans alone, for a selection without native models: a fresh home needs no cache
/// and no account. The sampled scope still binds a preview to its application, and may set no
/// context window of its own.
pub fn sample_codex_hiroute_only_catalog_plan(
    scope: &CodexConfigurationScope,
    plans: &Vec<CatalogPlan>,
    explicit_model: &str,
    prompt: &str,
    names: &Vec<String>,
    schema_holds: bool,
    observed: Option<&CodexEffectiveConfiguration>,
) -> (r: Result<CodexCatalogPlan, CodexCatalogError>)
    ensures
        if plans@.len() == 0 || plans@.len() > i32::MAX {
            r matches Err(error) && error == CodexCatalogError::InvalidCatalog
        } else {
            match plans_catalog(plans@, prompt@) {
                None => r matches Err(error) && error == CodexCatalogError::CapabilityUnproven,
                Some(catalog) => if !is_catalog(catalog, texts(names@)) || !schema_holds {
                    r matches Err(error) && error == CodexCatalogError::InvalidCatalog
                } else if !offers_model(catalog_models(catalog)->0, explicit_model@) {
                    r matches Err(error) && error == CodexCatalogError::MissingDefault
                } else {
                    match observed {
                        None => r matches Err(error) && error
                            == CodexCatalogError::CapabilityUnproven,
                        Some(observed) => if overrides_context(observed@.entries) {
                            r matches Err(error) && error == CodexCatalogError::ContextOverride
                        } else {
                            let content = digest_of(compact_json(catalog));
                            r matches Ok(plan) && plan.selection@.original == catalog
                                && plan.selection@.wf() && plan.content_digest@ == content
                                && is_producer_of(
                                plan.producer,
                                CatalogView {
                                    metadata_source: CodexCatalogMetadataSourceV1::HirouteGenerated,
                                    path: scope.user_file@,
                                    original: catalog,
                                    content_digest: content,
                                    context_digest: observed@.context_digest,
                                    dependency_digest: hiroute_only_identity(
                                        scope.user_file@,
                                        observed@.dependency_digest,
                                        content,
                                    ),
                                },
                            )
                        },
                    }
                },
            }
        },
{
    let catalog = match hiroute_only_catalog(plans, prompt) {
        Ok(catalog) => catalog,
        Err(error) => return Err(error),
    };
    let selection = match CodexCatalogSelection::for_current_adapter(
        catalog,
        names,
        schema_holds,
    ) {
        Ok(selection) => selection,
        Err(error) => return Err(error),
    };
    let models = match selection.original().member("models") {
        Some(Json::Array(models)) => models,
        _ => return Err(CodexCatalogError::InvalidCatalog),
    };
    if !offered(models, explicit_model) {
        return Err(CodexCatalogError::MissingDefault);
    }
    let content_digest = CanonicalDigest::of_bytes(to_bytes(selection.original()).as_slice());
    let observed = match observed {
        Some(observed) => observed,
        None => return Err(CodexCatalogError::CapabilityUnproven),
    };
    if observed.has_context_override() {
        return Err(CodexCatalogError::ContextOverride);
    }
    let mut parts: Vec<Json> = Vec::new();
    parts.push(text_json("hiroute-only-codex-catalog/v1"));
    parts.push(text_json(scope.user_file.as_str()));
    parts.push(text_json(observed.dependency_digest.as_str()));
    parts.push(text_json(content_digest.as_str()));
    proof {
        lemma_array_view(parts@);
        assert(array_view(parts@) =~= seq![
            JsonView::Str("hiroute-only-codex-catalog/v1"@),
            JsonView::Str(scope.user_file@),
            JsonView::Str(observed@.dependency_digest),
            JsonView::Str(content_digest@),
        ]);
    }
    let dependency_digest = canonical_digest(&Json::Array(parts));
    let producer = CodexCatalogProducerFactsV1 {
        metadata_source: CodexCatalogMetadataSourceV1::HirouteGenerated,
        path: scope.user_file.clone(),
        content_digest: content_digest.copied(),
        context_digest: observed.context_digest.copied(),
        dependency_digest,
    };
    Ok(CodexCatalogPlan { selection, content_digest, producer })
}

} // verus!
