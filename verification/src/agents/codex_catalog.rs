//! The model directory of a Codex client, as far as selection reads it.
//!
//! The catalog is kept as it is. Beside it stand the facts that decide which model is the default,
//! so that plans can be added without the default changing.

use vstd::prelude::*;
use crate::json::{
    array_view, find_member, json_view, lemma_array_view, member_of, object_view, Json, JsonView,
};
use crate::text::same;

verus! {

/// The revision of the client whose selection rules are followed.
pub const CODEX_CATALOG_SOURCE_REVISION: &'static str = "be6e8eac029b183056b7e4402879f15d2c85f61b";

#[derive(Clone, Copy, Debug, PartialEq, Eq, Structural)]
pub enum CodexCatalogError {
    ContextOverride,
    InvalidCatalog,
    MissingDefault,
    DefaultChanged,
    PriorityExhausted,
    CapabilityUnproven,
}

impl CodexCatalogError {
    pub open spec fn message_text(self) -> Seq<char> {
        match self {
            CodexCatalogError::ContextOverride => {
                "remove model_context_window and model_auto_compact_token_limit from the effective Codex configuration before using plan windows"@
            },
            CodexCatalogError::InvalidCatalog => {
                "the catalog selection fields are invalid or ambiguous"@
            },
            CodexCatalogError::MissingDefault => "the native default cannot be resolved"@,
            CodexCatalogError::DefaultChanged => {
                "appending plans would change the native default"@
            },
            CodexCatalogError::PriorityExhausted => {
                "no priority remains after the original catalog"@
            },
            CodexCatalogError::CapabilityUnproven => {
                "the plan's common client capabilities are not proven"@
            },
        }
    }

    pub fn message(&self) -> (r: String)
        ensures
            r@ == self.message_text(),
    {
        match self {
            CodexCatalogError::ContextOverride => {
                "remove model_context_window and model_auto_compact_token_limit from the effective Codex configuration before using plan windows".to_owned()
            },
            CodexCatalogError::InvalidCatalog => {
                "the catalog selection fields are invalid or ambiguous".to_owned()
            },
            CodexCatalogError::MissingDefault => {
                "the native default cannot be resolved".to_owned()
            },
            CodexCatalogError::DefaultChanged => {
                "appending plans would change the native default".to_owned()
            },
            CodexCatalogError::PriorityExhausted => {
                "no priority remains after the original catalog".to_owned()
            },
            CodexCatalogError::CapabilityUnproven => {
                "the plan's common client capabilities are not proven".to_owned()
            },
        }
    }
}

/// Whether a model is shown in the client's list.
#[derive(Clone, Copy, Debug, PartialEq, Eq, Structural)]
pub enum Visibility {
    List,
    Hide,
    Unlisted,
}

/// What selection reads of a catalog entry.
#[derive(Debug)]
pub struct SelectionEntry {
    slug: String,
    priority: i32,
    visibility: Visibility,
    supported_in_api: bool,
}

pub struct EntryView {
    pub slug: Seq<char>,
    pub priority: int,
    pub visibility: Visibility,
    pub supported_in_api: bool,
}

impl View for SelectionEntry {
    type V = EntryView;

    closed spec fn view(&self) -> EntryView {
        EntryView {
            slug: self.slug@,
            priority: self.priority as int,
            visibility: self.visibility,
            supported_in_api: self.supported_in_api,
        }
    }
}

pub open spec fn visibility_named(name: Seq<char>) -> Option<Visibility> {
    if name == "list"@ {
        Some(Visibility::List)
    } else if name == "hide"@ {
        Some(Visibility::Hide)
    } else if name == "none"@ {
        Some(Visibility::Unlisted)
    } else {
        None
    }
}

/// Whether an object has one member, of this name, that is null.
pub open spec fn is_lone_null(members: Map<Seq<char>, JsonView>, name: Seq<char>) -> bool {
    members == Map::<Seq<char>, JsonView>::empty().insert(name, JsonView::Null)
}

/// A visibility is its name, or an object whose only member has that name and is null.
pub open spec fn read_visibility(json: JsonView) -> Option<Visibility> {
    match json {
        JsonView::Str(name) => visibility_named(name),
        JsonView::Object(members) => if is_lone_null(members, "list"@) {
            Some(Visibility::List)
        } else if is_lone_null(members, "hide"@) {
            Some(Visibility::Hide)
        } else if is_lone_null(members, "none"@) {
            Some(Visibility::Unlisted)
        } else {
            None
        },
        _ => None,
    }
}

/// The selection facts of an entry from their four values.
pub open spec fn read_facts(
    slug: JsonView,
    priority: JsonView,
    visibility: JsonView,
    supported_in_api: JsonView,
) -> Option<EntryView> {
    match (slug, priority, read_visibility(visibility), supported_in_api) {
        (
            JsonView::Str(slug),
            JsonView::Int(priority),
            Some(visibility),
            JsonView::Bool(supported_in_api),
        ) => if i32::MIN <= priority <= i32::MAX {
            Some(EntryView { slug, priority, visibility, supported_in_api })
        } else {
            None
        },
        _ => None,
    }
}

/// The selection facts of an entry: an object with these four members among others, or a list of
/// just the four values.
pub open spec fn read_entry(json: JsonView) -> Option<EntryView> {
    match json {
        JsonView::Object(members) => if members.contains_key("slug"@) && members.contains_key(
            "priority"@,
        ) && members.contains_key("visibility"@) && members.contains_key("supported_in_api"@) {
            read_facts(
                members["slug"@],
                members["priority"@],
                members["visibility"@],
                members["supported_in_api"@],
            )
        } else {
            None
        },
        JsonView::Array(items) => if items.len() == 4 {
            read_facts(items[0], items[1], items[2], items[3])
        } else {
            None
        },
        _ => None,
    }
}

/// The entries of a catalog.
pub open spec fn catalog_models(json: JsonView) -> Option<Seq<JsonView>> {
    match member_of(json, "models"@) {
        Some(JsonView::Array(models)) => if models.len() > 0 {
            Some(models)
        } else {
            None
        },
        _ => None,
    }
}

pub open spec fn texts(names: Seq<String>) -> Seq<Seq<char>> {
    names.map_values(|name: String| name@)
}

/// Whether a value is a catalog: a list of entries, each with its selection facts, a valid client
/// model name and a name of its own.
pub open spec fn is_catalog(json: JsonView, names: Seq<Seq<char>>) -> bool {
    match catalog_models(json) {
        Some(models) => {
            &&& forall|i: int|
                0 <= i < models.len() ==> (read_entry(#[trigger] models[i]) matches Some(entry)
                    && names.contains(entry.slug))
            &&& forall|i: int, j: int|
                0 <= i < j < models.len() ==> read_entry(#[trigger] models[i])->0.slug
                    != read_entry(#[trigger] models[j])->0.slug
        },
        None => false,
    }
}

pub open spec fn entries_of(json: JsonView) -> Seq<EntryView> {
    catalog_models(json)->0.map_values(|model: JsonView| read_entry(model)->0)
}

/// A catalog and the selection facts of its entries.
#[derive(Debug)]
pub struct CodexCatalogSelection {
    original: Json,
    entries: Vec<SelectionEntry>,
}

pub struct SelectionView {
    pub original: JsonView,
    pub entries: Seq<EntryView>,
}

impl View for CodexCatalogSelection {
    type V = SelectionView;

    closed spec fn view(&self) -> SelectionView {
        SelectionView {
            original: self.original@,
            entries: self.entries@.map_values(|entry: SelectionEntry| entry@),
        }
    }
}

impl SelectionView {
    /// The facts are those of the catalog.
    pub open spec fn wf(self) -> bool {
        &&& catalog_models(self.original) is Some
        &&& self.entries == entries_of(self.original)
    }
}

fn lone_null(members: &Vec<(String, Json)>, name: &str) -> (r: bool)
    ensures
        r == is_lone_null(object_view(members@), name@),
{
    let ghost view = object_view(members@);
    match find_member(members, name) {
        Some(Json::Null) => {},
        _ => {
            assert(!is_lone_null(view, name@)) by {
                assert(Map::<Seq<char>, JsonView>::empty().insert(
                    name@,
                    JsonView::Null,
                ).contains_key(name@));
            }
            return false;
        },
    }
    let mut i: usize = 0;
    while i < members.len()
        invariant
            i <= members.len(),
            view == object_view(members@),
            forall|j: int| 0 <= j < i ==> (#[trigger] members@[j]).0@ == name@,
        decreases members.len() - i,
    {
        if !same(members[i].0.as_str(), name) {
            proof {
                crate::json::lemma_object_names(members@, members@[i as int].0@);
                assert(view.contains_key(members@[i as int].0@));
                assert(!Map::<Seq<char>, JsonView>::empty().insert(
                    name@,
                    JsonView::Null,
                ).contains_key(members@[i as int].0@));
            }
            return false;
        }
        i += 1;
    }
    proof {
        assert forall|other: Seq<char>| #[trigger] view.contains_key(other) == (other
            == name@) by {
            crate::json::lemma_object_names(members@, other);
        }
        assert(view =~= Map::<Seq<char>, JsonView>::empty().insert(name@, JsonView::Null));
    }
    true
}

fn visibility(json: &Json) -> (r: Option<Visibility>)
    ensures
        r == read_visibility(json@),
{
    match json {
        Json::Str(name) => if same(name.as_str(), "list") {
            Some(Visibility::List)
        } else if same(name.as_str(), "hide") {
            Some(Visibility::Hide)
        } else if same(name.as_str(), "none") {
            Some(Visibility::Unlisted)
        } else {
            None
        },
        Json::Object(members) => if lone_null(members, "list") {
            Some(Visibility::List)
        } else if lone_null(members, "hide") {
            Some(Visibility::Hide)
        } else if lone_null(members, "none") {
            Some(Visibility::Unlisted)
        } else {
            None
        },
        _ => None,
    }
}

pub open spec fn entry_view(entry: Option<SelectionEntry>) -> Option<EntryView> {
    match entry {
        Some(entry) => Some(entry@),
        None => None,
    }
}

impl SelectionEntry {
    fn from_facts(
        slug: &Json,
        priority: &Json,
        shown: &Json,
        supported_in_api: &Json,
    ) -> (r: Option<SelectionEntry>)
        ensures
            entry_view(r) == read_facts(slug@, priority@, shown@, supported_in_api@),
    {
        let slug = match slug {
            Json::Str(slug) => slug.clone(),
            _ => return None,
        };
        let priority: i32 = match priority {
            Json::Pos(value) => if *value <= 0x7fff_ffff {
                *value as i32
            } else {
                return None;
            },
            Json::Neg(value) => if -0x8000_0000 <= *value && *value <= 0x7fff_ffff {
                *value as i32
            } else {
                return None;
            },
            _ => return None,
        };
        let visibility = match visibility(shown) {
            Some(visibility) => visibility,
            None => return None,
        };
        let supported_in_api = match supported_in_api {
            Json::Bool(value) => *value,
            _ => return None,
        };
        Some(SelectionEntry { slug, priority, visibility, supported_in_api })
    }

    fn from_json(json: &Json) -> (r: Option<SelectionEntry>)
        ensures
            entry_view(r) == read_entry(json@),
    {
        match json {
            Json::Object(members) => {
                match (
                    find_member(members, "slug"),
                    find_member(members, "priority"),
                    find_member(members, "visibility"),
                    find_member(members, "supported_in_api"),
                ) {
                    (Some(slug), Some(priority), Some(shown), Some(api)) => Self::from_facts(
                        slug,
                        priority,
                        shown,
                        api,
                    ),
                    _ => None,
                }
            },
            Json::Array(items) => {
                proof {
                    lemma_array_view(items@);
                }
                if items.len() != 4 {
                    return None;
                }
                Self::from_facts(&items[0], &items[1], &items[2], &items[3])
            },
            _ => None,
        }
    }
}

pub(crate) fn named(names: &Vec<String>, name: &str) -> (r: bool)
    ensures
        r == texts(names@).contains(name@),
{
    let mut i: usize = 0;
    while i < names.len()
        invariant
            i <= names.len(),
            forall|j: int| 0 <= j < i ==> #[trigger] texts(names@)[j] != name@,
        decreases names.len() - i,
    {
        assert(texts(names@)[i as int] == names@[i as int]@);
        if same(names[i].as_str(), name) {
            return true;
        }
        i += 1;
    }
    false
}

/// How a client chooses its default.
#[derive(Clone, Copy)]
pub struct CodexDefaultPolicy<'a> {
    pub explicit_model: Option<&'a str>,
    pub uses_codex_backend: bool,
    pub allow_provider_model_fallback: bool,
}

pub struct PolicyView {
    pub explicit_model: Option<Seq<char>>,
    pub uses_codex_backend: bool,
    pub allow_provider_model_fallback: bool,
}

impl<'a> View for CodexDefaultPolicy<'a> {
    type V = PolicyView;

    open spec fn view(&self) -> PolicyView {
        PolicyView {
            explicit_model: match self.explicit_model {
                Some(model) => Some(model@),
                None => None,
            },
            uses_codex_backend: self.uses_codex_backend,
            allow_provider_model_fallback: self.allow_provider_model_fallback,
        }
    }
}

/// Whether an entry is available, and shown where only shown ones are wanted.
pub open spec fn is_wanted(entry: EntryView, uses_codex_backend: bool, listed: bool) -> bool {
    (uses_codex_backend || entry.supported_in_api) && (listed ==> entry.visibility
        == Visibility::List)
}

/// The place of the wanted entry of the lowest priority, of equal ones the first.
pub open spec fn first_by_priority(
    entries: Seq<EntryView>,
    uses_codex_backend: bool,
    listed: bool,
) -> Option<int>
    decreases entries.len(),
{
    if entries.len() == 0 {
        None
    } else {
        let before = first_by_priority(entries.drop_last(), uses_codex_backend, listed);
        let last = entries.last();
        if is_wanted(last, uses_codex_backend, listed) && (before is None || last.priority
            < entries[before->0].priority) {
            Some(entries.len() - 1)
        } else {
            before
        }
    }
}

/// The model that a client starts with: the explicit one, unless a provider may replace one that
/// is not available; else the first shown one by priority; else the first one.
pub open spec fn default_of(
    entries: Seq<EntryView>,
    policy: PolicyView,
    names: Seq<Seq<char>>,
) -> Result<Seq<char>, CodexCatalogError> {
    let backend = policy.uses_codex_backend;
    let picked = match first_by_priority(entries, backend, true) {
        Some(i) => Ok(entries[i].slug),
        None => match first_by_priority(entries, backend, false) {
            Some(i) => Ok(entries[i].slug),
            None => Err(CodexCatalogError::MissingDefault),
        },
    };
    match policy.explicit_model {
        Some(requested) => if !names.contains(requested) {
            Err(CodexCatalogError::MissingDefault)
        } else if !policy.allow_provider_model_fallback || is_available(
            entries,
            backend,
            requested,
        ) {
            Ok(requested)
        } else {
            picked
        },
        None => picked,
    }
}

pub open spec fn is_available(
    entries: Seq<EntryView>,
    uses_codex_backend: bool,
    name: Seq<char>,
) -> bool {
    exists|i: int|
        0 <= i < entries.len() && is_wanted(#[trigger] entries[i], uses_codex_backend, false)
            && entries[i].slug == name
}

/// The highest priority of a catalog.
pub open spec fn last_priority(entries: Seq<EntryView>) -> int
    recommends
        entries.len() > 0,
    decreases entries.len(),
{
    if entries.len() <= 1 {
        entries[0].priority
    } else {
        let before = last_priority(entries.drop_last());
        if entries.last().priority >= before {
            entries.last().priority
        } else {
            before
        }
    }
}

/// The place that [`first_by_priority`] gives is a wanted entry's; no wanted entry has a lower
/// priority, and none before it an equal one. Without one, no entry is wanted.
pub proof fn picks_are_first_by_priority(
    entries: Seq<EntryView>,
    uses_codex_backend: bool,
    listed: bool,
    other: int,
)
    requires
        0 <= other < entries.len(),
        is_wanted(entries[other], uses_codex_backend, listed),
    ensures
        first_by_priority(entries, uses_codex_backend, listed) matches Some(i) && 0 <= i
            < entries.len() && is_wanted(entries[i], uses_codex_backend, listed)
            && entries[i].priority <= entries[other].priority && (other < i ==> entries[i].priority
            < entries[other].priority),
    decreases entries.len(),
{
    lemma_pick_in_range(entries, uses_codex_backend, listed);
    let init = entries.drop_last();
    if other < init.len() {
        assert(init[other] == entries[other]);
        picks_are_first_by_priority(init, uses_codex_backend, listed, other);
        let before = first_by_priority(init, uses_codex_backend, listed)->0;
        assert(init[before] == entries[before]);
    } else {
        lemma_pick_in_range(init, uses_codex_backend, listed);
        if let Some(before) = first_by_priority(init, uses_codex_backend, listed) {
            assert(init[before] == entries[before]);
        }
    }
}

proof fn lemma_pick_in_range(entries: Seq<EntryView>, uses_codex_backend: bool, listed: bool)
    ensures
        first_by_priority(entries, uses_codex_backend, listed) matches Some(i) ==> 0 <= i
            < entries.len() && is_wanted(entries[i], uses_codex_backend, listed),
    decreases entries.len(),
{
    if entries.len() > 0 {
        let init = entries.drop_last();
        lemma_pick_in_range(init, uses_codex_backend, listed);
        if let Some(before) = first_by_priority(init, uses_codex_backend, listed) {
            assert(init[before] == entries[before]);
        }
    }
}

proof fn lemma_last_priority(entries: Seq<EntryView>, at: int)
    requires
        0 <= at < entries.len(),
    ensures
        entries[at].priority <= last_priority(entries),
    decreases entries.len(),
{
    if entries.len() > 1 && at < entries.len() - 1 {
        assert(entries.drop_last()[at] == entries[at]);
        lemma_last_priority(entries.drop_last(), at);
    }
}

/// A plan's priority comes after every native one.
pub proof fn plan_priorities_come_last(entries: Seq<EntryView>, at: int, offset: int)
    requires
        0 <= at < entries.len(),
        offset >= 1,
    ensures
        entries[at].priority < last_priority(entries) + offset,
{
    lemma_last_priority(entries, at);
}

impl CodexCatalogSelection {
    /// Reads the selection facts of a catalog. `names` holds the valid client model names.
    pub fn parse(original: Json, names: &Vec<String>) -> (r: Result<Self, CodexCatalogError>)
        ensures
            if is_catalog(original@, texts(names@)) {
                r matches Ok(selection) && selection@.original == original@ && selection@.wf()
            } else {
                r matches Err(error) && error == CodexCatalogError::InvalidCatalog
            },
    {
        let entries = match &original {
            Json::Object(members) => match find_member(members, "models") {
                Some(Json::Array(models)) => {
                    assert(member_of(original@, "models"@) == Some(
                        JsonView::Array(array_view(models@)),
                    ));
                    proof {
                        lemma_array_view(models@);
                    }
                    if models.len() == 0 {
                        return Err(CodexCatalogError::InvalidCatalog);
                    }
                    match Self::read_entries(models, names) {
                        Some(entries) => entries,
                        None => return Err(CodexCatalogError::InvalidCatalog),
                    }
                },
                _ => return Err(CodexCatalogError::InvalidCatalog),
            },
            _ => return Err(CodexCatalogError::InvalidCatalog),
        };
        let selection = CodexCatalogSelection { original, entries };
        assert(selection@.entries =~= entries_of(selection@.original));
        Ok(selection)
    }

    fn read_entries(models: &Vec<Json>, names: &Vec<String>) -> (r: Option<Vec<SelectionEntry>>)
        ensures
            ({
                let views = array_view(models@);
                let good = (forall|i: int|
                    0 <= i < views.len() ==> (read_entry(#[trigger] views[i]) matches Some(entry)
                        && texts(names@).contains(entry.slug))) && (forall|i: int, j: int|
                    0 <= i < j < views.len() ==> read_entry(#[trigger] views[i])->0.slug
                        != read_entry(#[trigger] views[j])->0.slug);
                match r {
                    Some(entries) => good && entries@.len() == views.len() && forall|i: int|
                        0 <= i < views.len() ==> #[trigger] entries@[i]@ == read_entry(views[i])->0,
                    None => !good,
                }
            }),
    {
        let ghost views = array_view(models@);
        proof {
            lemma_array_view(models@);
        }
        let mut out: Vec<SelectionEntry> = Vec::new();
        let mut i: usize = 0;
        while i < models.len()
            invariant
                i <= models.len(),
                views == array_view(models@),
                views.len() == models@.len(),
                forall|j: int|
                    0 <= j < models@.len() ==> #[trigger] views[j] == json_view(models@[j]),
                out@.len() == i,
                forall|j: int|
                    0 <= j < i ==> (read_entry(#[trigger] views[j]) matches Some(entry) && entry
                        == out@[j]@ && texts(names@).contains(entry.slug)),
                forall|j: int, k: int|
                    0 <= j < k < i ==> read_entry(#[trigger] views[j])->0.slug != read_entry(
                        #[trigger] views[k],
                    )->0.slug,
            decreases models.len() - i,
        {
            assert(views[i as int] == models@[i as int]@);
            let entry = match SelectionEntry::from_json(&models[i]) {
                Some(entry) => entry,
                None => return None,
            };
            if !named(names, entry.slug.as_str()) {
                return None;
            }
            let mut k: usize = 0;
            while k < out.len()
                invariant
                    k <= out.len(),
                    i < models.len(),
                    views == array_view(models@),
                    views.len() == models@.len(),
                    out@.len() == i,
                    read_entry(views[i as int]) == Some(entry@),
                    forall|j: int|
                        0 <= j < i ==> (read_entry(#[trigger] views[j]) matches Some(entry)
                            && entry == out@[j]@),
                    forall|j: int|
                        0 <= j < k ==> read_entry(#[trigger] views[j])->0.slug != entry@.slug,
                decreases out.len() - k,
            {
                assert(read_entry(views[k as int]) == Some(out@[k as int]@));
                if same(out[k].slug.as_str(), entry.slug.as_str()) {
                    assert(read_entry(views[k as int])->0.slug == read_entry(
                        views[i as int],
                    )->0.slug);
                    return None;
                }
                k += 1;
            }
            out.push(entry);
            i += 1;
        }
        Some(out)
    }

    /// Reads a catalog that meets the structural contract of this adapter. The client executable
    /// is neither authenticated nor held to a version.
    pub fn for_current_adapter(
        original: Json,
        names: &Vec<String>,
        schema_holds: bool,
    ) -> (r: Result<Self, CodexCatalogError>)
        ensures
            if is_catalog(original@, texts(names@)) && schema_holds {
                r matches Ok(selection) && selection@.original == original@ && selection@.wf()
            } else {
                r matches Err(error) && error == CodexCatalogError::InvalidCatalog
            },
    {
        let selection = match Self::parse(original, names) {
            Ok(selection) => selection,
            Err(error) => return Err(error),
        };
        if !schema_holds {
            return Err(CodexCatalogError::InvalidCatalog);
        }
        Ok(selection)
    }

    pub fn original(&self) -> (r: &Json)
        ensures
            r@ == self@.original,
    {
        &self.original
    }

    fn pick(&self, uses_codex_backend: bool, listed: bool) -> (r: Option<usize>)
        ensures
            match r {
                Some(i) => i < self@.entries.len() && first_by_priority(
                    self@.entries,
                    uses_codex_backend,
                    listed,
                ) == Some(i as int),
                None => first_by_priority(self@.entries, uses_codex_backend, listed) is None,
            },
    {
        let ghost all = self@.entries;
        let mut best: Option<usize> = None;
        let mut i: usize = 0;
        assert(all.take(0) == Seq::<EntryView>::empty());
        while i < self.entries.len()
            invariant
                i <= self.entries.len(),
                all == self@.entries,
                all.len() == self.entries@.len(),
                forall|j: int|
                    0 <= j < self.entries@.len() ==> #[trigger] all[j] == self.entries@[j]@,
                match best {
                    Some(b) => b < i && first_by_priority(
                        all.take(i as int),
                        uses_codex_backend,
                        listed,
                    ) == Some(b as int),
                    None => first_by_priority(
                        all.take(i as int),
                        uses_codex_backend,
                        listed,
                    ) is None,
                },
            decreases self.entries.len() - i,
        {
            let entry = &self.entries[i];
            assert(all[i as int] == entry@);
            assert(all.take(i + 1).drop_last() == all.take(i as int));
            assert(all.take(i + 1).last() == all[i as int]);
            let wanted = (uses_codex_backend || entry.supported_in_api) && (!listed
                || entry.visibility == Visibility::List);
            let better = match best {
                Some(b) => {
                    assert(all[b as int] == self.entries@[b as int]@);
                    entry.priority < self.entries[b].priority
                },
                None => true,
            };
            if wanted && better {
                best = Some(i);
            }
            i += 1;
        }
        assert(all.take(i as int) == all);
        best
    }

    fn available(&self, uses_codex_backend: bool, name: &str) -> (r: bool)
        ensures
            r == is_available(self@.entries, uses_codex_backend, name@),
    {
        let ghost all = self@.entries;
        let mut i: usize = 0;
        while i < self.entries.len()
            invariant
                i <= self.entries.len(),
                all == self@.entries,
                all.len() == self.entries@.len(),
                forall|j: int|
                    0 <= j < self.entries@.len() ==> #[trigger] all[j] == self.entries@[j]@,
                forall|j: int|
                    0 <= j < i ==> !(is_wanted(#[trigger] all[j], uses_codex_backend, false)
                        && all[j].slug == name@),
            decreases self.entries.len() - i,
        {
            let entry = &self.entries[i];
            assert(all[i as int] == entry@);
            if (uses_codex_backend || entry.supported_in_api) && same(entry.slug.as_str(), name) {
                assert(is_wanted(all[i as int], uses_codex_backend, false));
                return true;
            }
            i += 1;
        }
        false
    }

    /// The model that a client starts with.
    pub fn effective_default<'a>(
        &'a self,
        policy: CodexDefaultPolicy<'a>,
        names: &Vec<String>,
    ) -> (r: Result<&'a str, CodexCatalogError>)
        ensures
            match default_of(self@.entries, policy@, texts(names@)) {
                Ok(name) => r matches Ok(model) && model@ == name,
                Err(failure) => r matches Err(error) && error == failure,
            },
    {
        match policy.explicit_model {
            Some(requested) => {
                if !named(names, requested) {
                    return Err(CodexCatalogError::MissingDefault);
                }
                if !policy.allow_provider_model_fallback || self.available(
                    policy.uses_codex_backend,
                    requested,
                ) {
                    return Ok(requested);
                }
            },
            None => {},
        }
        match self.pick(policy.uses_codex_backend, true) {
            Some(i) => Ok(self.entries[i].slug.as_str()),
            None => match self.pick(policy.uses_codex_backend, false) {
                Some(i) => Ok(self.entries[i].slug.as_str()),
                None => Err(CodexCatalogError::MissingDefault),
            },
        }
    }

    /// Whether an updated catalog has the same default.
    pub fn require_preserved_default(
        &self,
        updated: &Self,
        policy: CodexDefaultPolicy<'_>,
        names: &Vec<String>,
    ) -> (r: Result<(), CodexCatalogError>)
        ensures
            r == preserves_default(self@.entries, updated@.entries, policy@, texts(names@)),
    {
        let before = match self.effective_default(policy, names) {
            Ok(before) => before,
            Err(error) => return Err(error),
        };
        let after = match updated.effective_default(policy, names) {
            Ok(after) => after,
            Err(error) => return Err(error),
        };
        if !same(before, after) {
            return Err(CodexCatalogError::DefaultChanged);
        }
        Ok(())
    }

    /// The priorities of so many plans: one after another, after the last native one.
    pub fn plan_priorities(&self, count: usize) -> (r: Result<Vec<i32>, CodexCatalogError>)
        ensures
            if self@.entries.len() == 0 {
                r matches Err(error) && error == CodexCatalogError::InvalidCatalog
            } else if count > i32::MAX || last_priority(self@.entries) + count > i32::MAX {
                r matches Err(error) && error == CodexCatalogError::PriorityExhausted
            } else {
                r matches Ok(priorities) && priorities@.len() == count && forall|i: int|
                    0 <= i < count ==> #[trigger] priorities@[i] == last_priority(self@.entries) + i
                        + 1
            },
    {
        let ghost all = self@.entries;
        if self.entries.len() == 0 {
            return Err(CodexCatalogError::InvalidCatalog);
        }
        assert(all[0] == self.entries@[0]@);
        let mut last: i32 = self.entries[0].priority;
        let mut i: usize = 1;
        assert(all.take(1)[0] == all[0]);
        while i < self.entries.len()
            invariant
                1 <= i <= self.entries.len(),
                all == self@.entries,
                all.len() == self.entries@.len(),
                forall|j: int|
                    0 <= j < self.entries@.len() ==> #[trigger] all[j] == self.entries@[j]@,
                last == last_priority(all.take(i as int)),
            decreases self.entries.len() - i,
        {
            assert(all[i as int] == self.entries@[i as int]@);
            assert(all.take(i + 1).drop_last() == all.take(i as int));
            assert(all.take(i + 1).last() == all[i as int]);
            if self.entries[i].priority >= last {
                last = self.entries[i].priority;
            }
            i += 1;
        }
        assert(all.take(i as int) == all);
        if count > 0x7fff_ffff {
            return Err(CodexCatalogError::PriorityExhausted);
        }
        let count: i32 = count as i32;
        match last.checked_add(count) {
            Some(_) => {},
            None => return Err(CodexCatalogError::PriorityExhausted),
        }
        let mut out: Vec<i32> = Vec::new();
        let mut offset: i32 = 0;
        while offset < count
            invariant
                0 <= offset <= count,
                last + count <= i32::MAX,
                out@.len() == offset,
                forall|j: int| 0 <= j < offset ==> #[trigger] out@[j] == last + j + 1,
            decreases count - offset,
        {
            offset += 1;
            out.push(last + offset);
        }
        Ok(out)
    }
}

/// Whether the default of one catalog is the default of another.
pub open spec fn preserves_default(
    before: Seq<EntryView>,
    after: Seq<EntryView>,
    policy: PolicyView,
    names: Seq<Seq<char>>,
) -> Result<(), CodexCatalogError> {
    match default_of(before, policy, names) {
        Err(error) => Err(error),
        Ok(first) => match default_of(after, policy, names) {
            Err(error) => Err(error),
            Ok(second) => if first == second {
                Ok(())
            } else {
                Err(CodexCatalogError::DefaultChanged)
            },
        },
    }
}

/// Entries that come after every native one leave the default as it was wherever a native entry
/// is shown to the client.
pub proof fn later_entries_keep_a_shown_default(
    native: Seq<EntryView>,
    added: Seq<EntryView>,
    policy: PolicyView,
    names: Seq<Seq<char>>,
)
    requires
        policy.explicit_model is None,
        first_by_priority(native, policy.uses_codex_backend, true) is Some,
        forall|i: int, j: int|
            0 <= i < native.len() && 0 <= j < added.len() ==> (#[trigger] native[i]).priority <= (
            #[trigger] added[j]).priority,
    ensures
        default_of(native + added, policy, names) == default_of(native, policy, names),
{
    lemma_later_entries(native, added, policy.uses_codex_backend);
    lemma_pick_in_range(native, policy.uses_codex_backend, true);
}

proof fn lemma_later_entries(native: Seq<EntryView>, added: Seq<EntryView>, backend: bool)
    requires
        first_by_priority(native, backend, true) is Some,
        forall|i: int, j: int|
            0 <= i < native.len() && 0 <= j < added.len() ==> (#[trigger] native[i]).priority <= (
            #[trigger] added[j]).priority,
    ensures
        first_by_priority(native + added, backend, true) == first_by_priority(
            native,
            backend,
            true,
        ),
    decreases added.len(),
{
    if added.len() == 0 {
        assert(native + added == native);
    } else {
        let init = added.drop_last();
        assert(forall|j: int| 0 <= j < init.len() ==> init[j] == added[j]);
        lemma_later_entries(native, init, backend);
        assert((native + added).drop_last() == native + init);
        lemma_pick_in_range(native, backend, true);
        let i = first_by_priority(native, backend, true)->0;
        assert((native + added)[i] == native[i]);
        assert((native + added).last() == added[added.len() - 1]);
    }
}

} // verus!
