//! The record of an edit in protected storage.
//!
//! A record holds the paths of the managed fields, what stood there, the fingerprints of what was
//! put there, the tables that were made and the aliases that are managed. A record that names any
//! other place of the configuration is refused.

use vstd::prelude::*;
use crate::agents::codex_config::{
    CodexNativeError, CodexNativeRestore, FieldRestore, FieldView, RestoreView,
};
use crate::digest::{is_digest_text, CanonicalDigest};
use crate::json::{
    array_view, is_plain, json_view, lemma_array_view, member_of, object_view, parse_json, parsed_json,
    put_member, to_bytes, Json, JsonView,
};
use crate::text::{identifier, is_identifier, same};
use crate::toml::{
    no_decor, parsed_body, parsed_node, path_view, print_value, read_value_item,
    TomlBody, TomlNode,
};

verus! {

/// Whether a key is one that an edit sets in the selected table.
pub open spec fn is_selection_key(key: Seq<char>) -> bool {
    key == "model"@ || key == "model_provider"@ || key == "model_catalog_json"@
}

/// Whether a key is one that an edit sets in the provider's table.
pub open spec fn is_provider_key(key: Seq<char>) -> bool {
    key == "name"@ || key == "base_url"@ || key == "wire_api"@ || key == "requires_openai_auth"@
        || key == "supports_websockets"@
}

/// Whether a path is one that an edit sets.
pub open spec fn is_managed_path(path: Seq<Seq<char>>) -> bool {
    ||| path.len() == 1 && is_selection_key(path[0])
    ||| path.len() == 3 && path[0] == "profiles"@ && is_identifier(path[1]) && is_selection_key(
        path[2],
    )
    ||| path.len() == 3 && path[0] == "model_providers"@ && path[1] == "hiroute"@
        && is_provider_key(path[2])
    ||| path.len() == 4 && path[0] == "model_providers"@ && path[1] == "hiroute"@ && path[2]
        == "http_headers"@ && path[3] == "X-HiRoute-Token"@
}

/// Whether a path is that of a table that an edit makes.
pub open spec fn is_made_path(path: Seq<Seq<char>>) -> bool {
    &&& 0 < path.len() <= 3
    &&& path[0] == "model_providers"@
    &&& path.len() >= 2 ==> path[1] == "hiroute"@
    &&& path.len() >= 3 ==> path[2] == "http_headers"@
}

impl FieldView {
    pub open spec fn is_managed(self) -> bool {
        &&& is_managed_path(self.path)
        &&& self.before is None || self.before->0 is Str
    }

    /// Whether a field is what reading the record of another gives: all of it, but for what
    /// surrounded the value. A spelling is kept where there was one.
    pub open spec fn is_record_of(self, field: FieldView) -> bool {
        &&& self.path == field.path
        &&& self.before == field.before
        &&& self.after == field.after
        &&& self.passive == field.passive
        &&& self.body is Some <==> field.body is Some
        &&& field.body matches Some(TomlBody::Value { node, spelling: Some(text), .. })
            ==> self.body == Some(
            TomlBody::Value { node, spelling: Some(text), decor: no_decor() },
        )
    }
}

impl RestoreView {
    /// Whether a restoration is what reading the record of another gives.
    pub open spec fn is_record_of(self, restore: RestoreView) -> bool {
        &&& self.fields.len() == restore.fields.len()
        &&& forall|i: int|
            0 <= i < self.fields.len() ==> (#[trigger] self.fields[i]).is_record_of(
                restore.fields[i],
            )
        &&& self.created == restore.created
        &&& self.aliases == restore.aliases
    }

    /// Whether a record speaks of nothing but what an edit manages.
    pub open spec fn is_managed(self) -> bool {
        &&& forall|i: int| 0 <= i < self.fields.len() ==> (#[trigger] self.fields[i]).is_managed()
        &&& forall|i: int|
            0 <= i < self.created.len() ==> is_made_path(#[trigger] self.created[i])
    }
}

/// The texts of a list of strings.
pub open spec fn read_texts(items: Seq<JsonView>) -> Option<Seq<Seq<char>>>
    decreases items.len(),
{
    if items.len() == 0 {
        Some(Seq::empty())
    } else {
        match (read_texts(items.drop_last()), items.last()) {
            (Some(texts), JsonView::Str(text)) => Some(texts.push(text)),
            _ => None,
        }
    }
}

pub open spec fn read_path(json: Option<JsonView>) -> Option<Seq<Seq<char>>> {
    match json {
        Some(JsonView::Array(items)) => read_texts(items),
        _ => None,
    }
}

/// What stood at a field: nothing, or the string that a text denotes.
pub open spec fn read_before(json: Option<JsonView>) -> Option<Option<(TomlNode, TomlBody)>> {
    match json {
        Some(JsonView::Null) => Some(None),
        Some(JsonView::Str(text)) => match (parsed_node(text), parsed_body(text)) {
            (Some(node), Some(body)) => if node is Str {
                Some(Some((node, body)))
            } else {
                None
            },
            _ => None,
        },
        _ => None,
    }
}

pub open spec fn read_field(json: JsonView) -> Option<FieldView> {
    match (
        read_path(member_of(json, "path"@)),
        read_before(member_of(json, "before"@)),
        member_of(json, "after"@),
        member_of(json, "passive"@),
    ) {
        (Some(path), Some(before), Some(JsonView::Str(after)), Some(JsonView::Bool(passive))) => {
            if is_managed_path(path) && is_digest_text(after) {
                Some(
                    match before {
                        Some((node, body)) => FieldView {
                            path,
                            before: Some(node),
                            body: Some(body),
                            after,
                            passive,
                        },
                        None => FieldView { path, before: None, body: None, after, passive },
                    },
                )
            } else {
                None
            }
        },
        _ => None,
    }
}

pub open spec fn read_fields(items: Seq<JsonView>) -> Option<Seq<FieldView>>
    decreases items.len(),
{
    if items.len() == 0 {
        Some(Seq::empty())
    } else {
        match (read_fields(items.drop_last()), read_field(items.last())) {
            (Some(fields), Some(field)) => Some(fields.push(field)),
            _ => None,
        }
    }
}

pub open spec fn read_made(items: Seq<JsonView>) -> Option<Seq<Seq<Seq<char>>>>
    decreases items.len(),
{
    if items.len() == 0 {
        Some(Seq::empty())
    } else {
        match (read_made(items.drop_last()), read_path(Some(items.last()))) {
            (Some(paths), Some(path)) => if is_made_path(path) {
                Some(paths.push(path))
            } else {
                None
            },
            _ => None,
        }
    }
}

/// The record that a value is.
pub open spec fn read_record(json: JsonView) -> Option<RestoreView> {
    match (
        member_of(json, "fields"@),
        member_of(json, "created_tables"@),
        read_path(member_of(json, "managed_aliases"@)),
    ) {
        (Some(JsonView::Array(fields)), Some(JsonView::Array(created)), Some(aliases)) => match (
            read_fields(fields),
            read_made(created),
        ) {
            (Some(fields), Some(created)) => Some(RestoreView { fields, created, aliases }),
            _ => None,
        },
        _ => None,
    }
}

/// The record that bytes hold.
pub open spec fn record_in(bytes: Seq<u8>) -> Option<RestoreView> {
    match parsed_json(bytes) {
        Some(json) => read_record(json),
        None => None,
    }
}

fn selection_key(key: &str) -> (r: bool)
    ensures
        r == is_selection_key(key@),
{
    same(key, "model") || same(key, "model_provider") || same(key, "model_catalog_json")
}

fn provider_key(key: &str) -> (r: bool)
    ensures
        r == is_provider_key(key@),
{
    same(key, "name") || same(key, "base_url") || same(key, "wire_api") || same(
        key,
        "requires_openai_auth",
    ) || same(key, "supports_websockets")
}

fn managed_path(path: &Vec<String>) -> (r: bool)
    ensures
        r == is_managed_path(path_view(path@)),
{
    let ghost steps = path_view(path@);
    assert(steps.len() == path@.len());
    assert(forall|i: int| 0 <= i < path@.len() ==> #[trigger] steps[i] == path@[i]@);
    if path.len() == 1 {
        return selection_key(path[0].as_str());
    }
    if path.len() == 3 {
        return (same(path[0].as_str(), "profiles") && identifier(path[1].as_str())
            && selection_key(path[2].as_str())) || (same(path[0].as_str(), "model_providers")
            && same(path[1].as_str(), "hiroute") && provider_key(path[2].as_str()));
    }
    path.len() == 4 && same(path[0].as_str(), "model_providers") && same(
        path[1].as_str(),
        "hiroute",
    ) && same(path[2].as_str(), "http_headers") && same(path[3].as_str(), "X-HiRoute-Token")
}

fn made_path(path: &Vec<String>) -> (r: bool)
    ensures
        r == is_made_path(path_view(path@)),
{
    let ghost steps = path_view(path@);
    assert(steps.len() == path@.len());
    assert(forall|i: int| 0 <= i < path@.len() ==> #[trigger] steps[i] == path@[i]@);
    0 < path.len() && path.len() <= 3 && same(path[0].as_str(), "model_providers") && (path.len()
        < 2 || same(path[1].as_str(), "hiroute")) && (path.len() < 3 || same(
        path[2].as_str(),
        "http_headers",
    ))
}

/// A list of strings as JSON.
fn texts_json(texts: &Vec<String>) -> (r: Json)
    ensures
        r@ matches JsonView::Array(items) && read_texts(items) == Some(path_view(texts@))
            && forall|i: int| 0 <= i < items.len() ==> (#[trigger] items[i]) is Str,
{
    let mut out: Vec<Json> = Vec::new();
    let mut i: usize = 0;
    assert(path_view(texts@).take(0) == Seq::<Seq<char>>::empty());
    while i < texts.len()
        invariant
            i <= texts.len(),
            read_texts(array_view(out@)) == Some(path_view(texts@).take(i as int)),
            forall|j: int| 0 <= j < array_view(out@).len() ==> (#[trigger] array_view(out@)[j]) is Str,
        decreases texts.len() - i,
    {
        let ghost before = array_view(out@);
        let ghost items = out@;
        out.push(Json::Str(texts[i].clone()));
        proof {
            assert(out@.drop_last() == items);
            assert(json_view(out@.last()) == JsonView::Str(texts@[i as int]@));
            assert(array_view(out@).drop_last() == before);
            assert(path_view(texts@).take(i + 1) == path_view(texts@).take(i as int).push(
                texts@[i as int]@,
            ));
        }
        i += 1;
    }
    assert(path_view(texts@).take(i as int) == path_view(texts@));
    Json::Array(out)
}

fn read_text_list(items: &Vec<Json>) -> (r: Option<Vec<String>>)
    ensures
        match r {
            Some(texts) => read_texts(array_view(items@)) == Some(path_view(texts@)),
            None => read_texts(array_view(items@)) is None,
        },
{
    let ghost views = array_view(items@);
    proof {
        lemma_array_view(items@);
    }
    let mut out: Vec<String> = Vec::new();
    let mut i: usize = 0;
    assert(views.take(0) == Seq::<JsonView>::empty());
    assert(path_view(out@) == Seq::<Seq<char>>::empty());
    while i < items.len()
        invariant
            i <= items.len(),
            views == array_view(items@),
            views.len() == items@.len(),
            forall|j: int| 0 <= j < items@.len() ==> #[trigger] views[j] == json_view(
                items@[j],
            ),
            read_texts(views.take(i as int)) == Some(path_view(out@)),
        decreases items.len() - i,
    {
        assert(views.take(i + 1).drop_last() == views.take(i as int));
        assert(views.take(i + 1).last() == views[i as int]);
        match &items[i] {
            Json::Str(text) => {
                let ghost before = path_view(out@);
                out.push(text.clone());
                assert(path_view(out@) == before.push(text@));
            },
            _ => {
                proof {
                    lemma_texts_none(views, i + 1);
                }
                return None;
            },
        }
        i += 1;
    }
    assert(views.take(i as int) == views);
    Some(out)
}

proof fn lemma_texts_none(items: Seq<JsonView>, k: int)
    requires
        0 <= k <= items.len(),
        read_texts(items.take(k)) is None,
    ensures
        read_texts(items) is None,
    decreases items.len() - k,
{
    if k < items.len() {
        assert(items.take(k + 1).drop_last() == items.take(k));
        lemma_texts_none(items, k + 1);
    } else {
        assert(items.take(k) == items);
    }
}

fn read_text_member(json: &Json, name: &str) -> (r: Option<Vec<String>>)
    ensures
        match r {
            Some(texts) => read_path(member_of(json@, name@)) == Some(path_view(texts@)),
            None => read_path(member_of(json@, name@)) is None,
        },
{
    match json.member(name) {
        Some(Json::Array(items)) => read_text_list(items),
        _ => None,
    }
}

proof fn lemma_three_names_differ()
    ensures
        "fields"@ != "created_tables"@,
        "fields"@ != "managed_aliases"@,
        "created_tables"@ != "managed_aliases"@,
{
    reveal_strlit("fields");
    reveal_strlit("created_tables");
    reveal_strlit("managed_aliases");
    assert("fields"@.len() == 6);
    assert("created_tables"@.len() == 14);
    assert("managed_aliases"@.len() == 15);
}

proof fn lemma_field_names_differ()
    ensures
        "path"@ != "before"@,
        "path"@ != "after"@,
        "path"@ != "passive"@,
        "before"@ != "after"@,
        "before"@ != "passive"@,
        "after"@ != "passive"@,
{
    reveal_strlit("path");
    reveal_strlit("before");
    reveal_strlit("after");
    reveal_strlit("passive");
    assert("path"@.len() == 4);
    assert("before"@.len() == 6);
    assert("after"@.len() == 5);
    assert("passive"@.len() == 7);
}

proof fn lemma_plain_texts(items: Seq<JsonView>, depth: nat)
    requires
        depth > 0,
        forall|i: int| 0 <= i < items.len() ==> (#[trigger] items[i]) is Str,
    ensures
        is_plain(JsonView::Array(items), depth),
{
    assert forall|i: int| 0 <= i < items.len() implies is_plain(
        #[trigger] items[i],
        (depth - 1) as nat,
    ) by {}
}

impl FieldRestore {
    fn to_json(&self) -> (r: Json)
        requires
            self@.is_managed(),
            self@.wf(),
        ensures
            read_field(r@) matches Some(field) && field.is_record_of(self@),
            is_plain(r@, 3),
    {
        proof {
            lemma_field_names_differ();
        }
        let path = texts_json(&self.path);
        let before = match &self.before {
            Some(item) => {
                let text = print_value(item);
                proof {
                    reveal(parsed_node);
                }
                Json::Str(text)
            },
            None => Json::Null,
        };
        let after = Json::Str(self.after.as_str().to_owned());
        let passive = Json::Bool(self.passive_model);
        proof {
            lemma_plain_texts(path@->Array_0, 2);
        }
        let ghost expected = Map::<Seq<char>, JsonView>::empty().insert("path"@, path@).insert(
            "before"@,
            before@,
        ).insert("after"@, after@).insert("passive"@, passive@);
        let mut members: Vec<(String, Json)> = Vec::new();
        assert(object_view(members@) == Map::<Seq<char>, JsonView>::empty());
        put_member(&mut members, "path", path);
        put_member(&mut members, "before", before);
        put_member(&mut members, "after", after);
        put_member(&mut members, "passive", passive);
        assert(object_view(members@) == expected);
        let json = Json::Object(members);
        proof {
            assert(json@ == JsonView::Object(expected));
            assert forall|name: Seq<char>| expected.contains_key(name) implies is_plain(
                #[trigger] expected[name],
                2,
            ) by {}
        }
        json
    }

    fn from_json(json: &Json) -> (r: Option<FieldRestore>)
        ensures
            match r {
                Some(field) => read_field(json@) == Some(field@) && field@.wf(),
                None => read_field(json@) is None,
            },
    {
        let path = match read_text_member(json, "path") {
            Some(path) => path,
            None => return None,
        };
        let before = match json.member("before") {
            Some(Json::Null) => None,
            Some(Json::Str(text)) => match read_value_item(text.as_str()) {
                Some(item) => if item.as_str().is_some() {
                    Some(item)
                } else {
                    return None;
                },
                None => return None,
            },
            _ => return None,
        };
        let after = match json.member("after") {
            Some(Json::Str(text)) => match CanonicalDigest::parse(text.clone()) {
                Some(digest) => digest,
                None => return None,
            },
            _ => return None,
        };
        let passive_model = match json.member("passive") {
            Some(Json::Bool(value)) => *value,
            _ => return None,
        };
        if !managed_path(&path) {
            return None;
        }
        Some(FieldRestore { path, before, after, passive_model })
    }
}

proof fn lemma_fields_none(items: Seq<JsonView>, k: int)
    requires
        0 <= k <= items.len(),
        read_fields(items.take(k)) is None,
    ensures
        read_fields(items) is None,
    decreases items.len() - k,
{
    if k < items.len() {
        assert(items.take(k + 1).drop_last() == items.take(k));
        lemma_fields_none(items, k + 1);
    } else {
        assert(items.take(k) == items);
    }
}

proof fn lemma_made_none(items: Seq<JsonView>, k: int)
    requires
        0 <= k <= items.len(),
        read_made(items.take(k)) is None,
    ensures
        read_made(items) is None,
    decreases items.len() - k,
{
    if k < items.len() {
        assert(items.take(k + 1).drop_last() == items.take(k));
        lemma_made_none(items, k + 1);
    } else {
        assert(items.take(k) == items);
    }
}

proof fn lemma_read_fields_wf(items: Seq<JsonView>)
    requires
        read_fields(items) is Some,
    ensures
        read_fields(items)->0.len() == items.len(),
        forall|i: int|
            0 <= i < read_fields(items)->0.len() ==> (
            #[trigger] read_fields(items)->0[i]).is_managed(),
    decreases items.len(),
{
    if items.len() > 0 {
        lemma_read_fields_wf(items.drop_last());
        let fields = read_fields(items)->0;
        assert forall|i: int| 0 <= i < fields.len() implies (#[trigger] fields[i]).is_managed() by {
            if i < fields.len() - 1 {
                assert(fields[i] == read_fields(items.drop_last())->0[i]);
            }
        }
    }
}

proof fn lemma_read_made_wf(items: Seq<JsonView>)
    requires
        read_made(items) is Some,
    ensures
        forall|i: int|
            0 <= i < read_made(items)->0.len() ==> is_made_path(#[trigger] read_made(items)->0[i]),
    decreases items.len(),
{
    if items.len() > 0 {
        lemma_read_made_wf(items.drop_last());
        let paths = read_made(items)->0;
        assert forall|i: int| 0 <= i < paths.len() implies is_made_path(#[trigger] paths[i]) by {
            if i < paths.len() - 1 {
                assert(paths[i] == read_made(items.drop_last())->0[i]);
            }
        }
    }
}

proof fn lemma_views(restore: CodexNativeRestore)
    ensures
        restore@.fields.len() == restore.fields@.len(),
        forall|i: int|
            0 <= i < restore.fields@.len() ==> #[trigger] restore@.fields[i] == restore.fields@[i]@,
        restore@.created.len() == restore.created_tables@.len(),
        forall|i: int|
            0 <= i < restore.created_tables@.len() ==> #[trigger] restore@.created[i] == path_view(
                restore.created_tables@[i]@,
            ),
{
}

impl CodexNativeRestore {
    fn managed(&self) -> (r: bool)
        requires
            self@.wf(),
        ensures
            r == self@.is_managed(),
    {
        proof {
            lemma_views(*self);
        }
        let mut i: usize = 0;
        while i < self.fields.len()
            invariant
                i <= self.fields.len(),
                self@.wf(),
                self@.fields.len() == self.fields@.len(),
                forall|j: int|
                    0 <= j < self.fields@.len() ==> #[trigger] self@.fields[j] == self.fields@[j]@,
                forall|j: int| 0 <= j < i ==> (#[trigger] self@.fields[j]).is_managed(),
            decreases self.fields.len() - i,
        {
            let field = &self.fields[i];
            assert(self@.fields[i as int] == field@);
            if !managed_path(&field.path) {
                assert(!self@.fields[i as int].is_managed());
                return false;
            }
            i += 1;
        }
        let mut k: usize = 0;
        while k < self.created_tables.len()
            invariant
                k <= self.created_tables.len(),
                self@.created.len() == self.created_tables@.len(),
                forall|j: int|
                    0 <= j < self.created_tables@.len() ==> #[trigger] self@.created[j]
                        == path_view(self.created_tables@[j]@),
                forall|j: int| 0 <= j < k ==> is_made_path(#[trigger] self@.created[j]),
            decreases self.created_tables.len() - k,
        {
            assert(self@.created[k as int] == path_view(self.created_tables@[k as int]@));
            if !made_path(&self.created_tables[k]) {
                return false;
            }
            k += 1;
        }
        true
    }

    /// The record of the edit for protected storage. Reading it gives the record back.
    pub fn encode_protected(&self) -> (r: Result<Vec<u8>, CodexNativeError>)
        requires
            self@.wf(),
        ensures
            match r {
                Ok(bytes) => self@.is_managed() && (record_in(bytes@) matches Some(read)
                    && read.is_record_of(self@)),
                Err(error) => !self@.is_managed() && error == CodexNativeError::UnsupportedLayout,
            },
    {
        if !self.managed() {
            return Err(CodexNativeError::UnsupportedLayout);
        }
        proof {
            lemma_views(*self);
            lemma_three_names_differ();
        }
        let mut fields: Vec<Json> = Vec::new();
        let ghost mut read: Seq<FieldView> = Seq::empty();
        let mut i: usize = 0;
        while i < self.fields.len()
            invariant
                i <= self.fields.len(),
                self@.is_managed(),
                self@.wf(),
                self@.fields.len() == self.fields@.len(),
                forall|j: int|
                    0 <= j < self.fields@.len() ==> #[trigger] self@.fields[j] == self.fields@[j]@,
                read_fields(array_view(fields@)) == Some(read),
                read.len() == i,
                forall|j: int| 0 <= j < i ==> (#[trigger] read[j]).is_record_of(self@.fields[j]),
                forall|j: int|
                    0 <= j < array_view(fields@).len() ==> is_plain(
                        #[trigger] array_view(fields@)[j],
                        3,
                    ),
            decreases self.fields.len() - i,
        {
            let ghost before = fields@;
            assert(self@.fields[i as int] == self.fields@[i as int]@);
            fields.push(self.fields[i].to_json());
            proof {
                assert(fields@.drop_last() == before);
                assert(array_view(fields@).drop_last() == array_view(before));
                read = read.push(read_field(array_view(fields@).last())->0);
            }
            i += 1;
        }
        let mut created: Vec<Json> = Vec::new();
        let mut k: usize = 0;
        assert(self@.created.take(0) == Seq::<Seq<Seq<char>>>::empty());
        while k < self.created_tables.len()
            invariant
                k <= self.created_tables.len(),
                self@.is_managed(),
                self@.created.len() == self.created_tables@.len(),
                forall|j: int|
                    0 <= j < self.created_tables@.len() ==> #[trigger] self@.created[j]
                        == path_view(self.created_tables@[j]@),
                read_made(array_view(created@)) == Some(self@.created.take(k as int)),
                forall|j: int|
                    0 <= j < array_view(created@).len() ==> is_plain(
                        #[trigger] array_view(created@)[j],
                        3,
                    ),
            decreases self.created_tables.len() - k,
        {
            let ghost before = created@;
            assert(is_made_path(self@.created[k as int]));
            let path = texts_json(&self.created_tables[k]);
            proof {
                lemma_plain_texts(path@->Array_0, 3);
            }
            created.push(path);
            proof {
                assert(created@.drop_last() == before);
                assert(array_view(created@).drop_last() == array_view(before));
                assert(self@.created.take(k + 1) == self@.created.take(k as int).push(
                    self@.created[k as int],
                ));
            }
            k += 1;
        }
        assert(self@.created.take(k as int) == self@.created);
        let aliases = texts_json(&self.managed_aliases);
        let fields = Json::Array(fields);
        let created = Json::Array(created);
        proof {
            lemma_plain_texts(aliases@->Array_0, 4);
            assert(is_plain(fields@, 4));
            assert(is_plain(created@, 4));
        }
        let ghost expected = Map::<Seq<char>, JsonView>::empty().insert("fields"@, fields@).insert(
            "created_tables"@,
            created@,
        ).insert("managed_aliases"@, aliases@);
        let mut members: Vec<(String, Json)> = Vec::new();
        assert(object_view(members@) == Map::<Seq<char>, JsonView>::empty());
        put_member(&mut members, "fields", fields);
        put_member(&mut members, "created_tables", created);
        put_member(&mut members, "managed_aliases", aliases);
        assert(object_view(members@) == expected);
        let json = Json::Object(members);
        proof {
            assert(json@ == JsonView::Object(expected));
            assert forall|name: Seq<char>| expected.contains_key(name) implies is_plain(
                #[trigger] expected[name],
                4,
            ) by {}
            assert(is_plain(json@, 5));
            lemma_plain_deeper(json@, 5, 127);
        }
        Ok(to_bytes(&json))
    }

    /// Reads a record from protected storage. It must speak of managed places only.
    pub fn decode_protected(bytes: &[u8]) -> (r: Result<Self, CodexNativeError>)
        ensures
            match r {
                Ok(restore) => record_in(bytes@) == Some(restore@) && restore@.wf()
                    && restore@.is_managed(),
                Err(error) => record_in(bytes@) is None && error
                    == CodexNativeError::UnsupportedLayout,
            },
    {
        match parse_json(bytes) {
            Some(json) => match Self::read(&json) {
                Some(restore) => Ok(restore),
                None => Err(CodexNativeError::UnsupportedLayout),
            },
            None => Err(CodexNativeError::UnsupportedLayout),
        }
    }

    fn read(json: &Json) -> (r: Option<Self>)
        ensures
            match r {
                Some(restore) => read_record(json@) == Some(restore@) && restore@.wf()
                    && restore@.is_managed(),
                None => read_record(json@) is None,
            },
    {
        let items = match json.member("fields") {
            Some(Json::Array(items)) => items,
            _ => return None,
        };
        let tables = match json.member("created_tables") {
            Some(Json::Array(items)) => items,
            _ => return None,
        };
        let managed_aliases = match read_text_member(json, "managed_aliases") {
            Some(aliases) => aliases,
            None => return None,
        };
        let ghost views = array_view(items@);
        proof {
            lemma_array_view(items@);
            lemma_array_view(tables@);
            assert(views.take(0) == Seq::<JsonView>::empty());
        }
        let mut fields: Vec<FieldRestore> = Vec::new();
        let ghost mut read: Seq<FieldView> = Seq::empty();
        let mut i: usize = 0;
        while i < items.len()
            invariant
                i <= items.len(),
                views == array_view(items@),
                views.len() == items@.len(),
                forall|j: int|
                    0 <= j < items@.len() ==> #[trigger] views[j] == json_view(items@[j]),
                read_fields(views.take(i as int)) == Some(read),
                fields@.len() == read.len(),
                forall|j: int|
                    0 <= j < read.len() ==> #[trigger] read[j] == fields@[j]@ && read[j].wf(),
                member_of(json@, "fields"@) == Some(JsonView::Array(views)),
            decreases items.len() - i,
        {
            assert(views.take(i + 1).drop_last() == views.take(i as int));
            assert(views.take(i + 1).last() == views[i as int]);
            match FieldRestore::from_json(&items[i]) {
                Some(field) => {
                    proof {
                        read = read.push(field@);
                    }
                    fields.push(field);
                },
                None => {
                    proof {
                        lemma_fields_none(views, i + 1);
                    }
                    return None;
                },
            }
            i += 1;
        }
        assert(views.take(i as int) == views);
        let ghost paths = array_view(tables@);
        assert(paths.take(0) == Seq::<JsonView>::empty());
        let mut created_tables: Vec<Vec<String>> = Vec::new();
        let ghost mut made: Seq<Seq<Seq<char>>> = Seq::empty();
        let mut k: usize = 0;
        while k < tables.len()
            invariant
                k <= tables.len(),
                paths == array_view(tables@),
                paths.len() == tables@.len(),
                forall|j: int|
                    0 <= j < tables@.len() ==> #[trigger] paths[j] == json_view(tables@[j]),
                read_made(paths.take(k as int)) == Some(made),
                created_tables@.len() == made.len(),
                forall|j: int|
                    0 <= j < made.len() ==> #[trigger] made[j] == path_view(created_tables@[j]@),
                member_of(json@, "created_tables"@) == Some(JsonView::Array(paths)),
            decreases tables.len() - k,
        {
            assert(paths.take(k + 1).drop_last() == paths.take(k as int));
            assert(paths.take(k + 1).last() == paths[k as int]);
            let path = match &tables[k] {
                Json::Array(steps) => read_text_list(steps),
                _ => None,
            };
            match path {
                Some(path) => {
                    if !made_path(&path) {
                        proof {
                            lemma_made_none(paths, k + 1);
                        }
                        return None;
                    }
                    proof {
                        made = made.push(path_view(path@));
                    }
                    created_tables.push(path);
                },
                None => {
                    proof {
                        lemma_made_none(paths, k + 1);
                    }
                    return None;
                },
            }
            k += 1;
        }
        assert(paths.take(k as int) == paths);
        let restore = CodexNativeRestore { fields, created_tables, managed_aliases };
        proof {
            lemma_views(restore);
            lemma_read_fields_wf(views);
            lemma_read_made_wf(paths);
            assert(restore@.fields == read);
            assert(restore@.created == made);
        }
        Some(restore)
    }
}

proof fn lemma_plain_deeper(json: JsonView, depth: nat, more: nat)
    requires
        is_plain(json, depth),
        depth <= more,
    ensures
        is_plain(json, more),
    decreases depth,
{
    match json {
        JsonView::Array(items) => {
            assert forall|i: int| 0 <= i < items.len() implies is_plain(
                #[trigger] items[i],
                (more - 1) as nat,
            ) by {
                lemma_plain_deeper(items[i], (depth - 1) as nat, (more - 1) as nat);
            }
        },
        JsonView::Object(members) => {
            assert forall|name: Seq<char>| members.contains_key(name) implies is_plain(
                #[trigger] members[name],
                (more - 1) as nat,
            ) by {
                lemma_plain_deeper(members[name], (depth - 1) as nat, (more - 1) as nat);
            }
        },
        _ => {},
    }
}

} // verus!
