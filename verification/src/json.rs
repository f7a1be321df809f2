//! JSON values as plain data, and their text form as the `serde_json` crate reads and writes it.

use vstd::prelude::*;
use crate::text::same;

verus! {

#[verifier::external_type_specification]
#[verifier::external_body]
pub struct ExValue(serde_json::Value);

#[verifier::external_type_specification]
#[verifier::external_body]
pub struct ExNumber(serde_json::Number);

#[verifier::external_type_specification]
#[verifier::external_body]
pub struct ExError(serde_json::Error);

/// What a JSON value is. The order of an object's members has no meaning.
pub enum JsonView {
    Null,
    Bool(bool),
    Int(int),
    Float(Seq<char>),
    Str(Seq<char>),
    Array(Seq<JsonView>),
    Object(Map<Seq<char>, JsonView>),
}

/// What a number of `serde_json` is: a whole number, or the text of any other.
pub uninterp spec fn number_view(number: serde_json::Number) -> JsonView;

/// A number that is no whole number.
#[derive(Debug)]
pub struct Fraction {
    number: serde_json::Number,
}

impl Fraction {
    #[verifier::type_invariant]
    spec fn is_fraction(self) -> bool {
        number_view(self.number) is Float
    }

    fn copied(&self) -> (r: Self)
        ensures
            r@ == self@,
    {
        proof {
            use_type_invariant(self);
        }
        Fraction { number: self.number.clone() }
    }

    /// The text of the number.
    fn text(&self) -> (r: String)
        ensures
            r@ == self@,
    {
        proof {
            use_type_invariant(self);
        }
        match read_number(&self.number) {
            NumberParts::Fraction(text) => text,
            _ => String::new(),
        }
    }
}

impl View for Fraction {
    type V = Seq<char>;

    closed spec fn view(&self) -> Seq<char> {
        number_view(self.number)->Float_0
    }
}

/// What a number is, as plain values.
enum NumberParts {
    Pos(u64),
    Neg(i64),
    Fraction(String),
}

/// A JSON value. Whole numbers are `Pos` or, below zero, `Neg`; every other number is `Float`.
#[derive(Debug)]
pub enum Json {
    Null,
    Bool(bool),
    Pos(u64),
    Neg(i64),
    Float(Fraction),
    Str(String),
    Array(Vec<Json>),
    Object(Vec<(String, Json)>),
}

pub open spec fn json_view(json: Json) -> JsonView
    decreases json,
{
    match json {
        Json::Null => JsonView::Null,
        Json::Bool(value) => JsonView::Bool(value),
        Json::Pos(value) => JsonView::Int(value as int),
        Json::Neg(value) => JsonView::Int(value as int),
        Json::Float(value) => JsonView::Float(value@),
        Json::Str(value) => JsonView::Str(value@),
        Json::Array(items) => JsonView::Array(array_view(items@)),
        Json::Object(members) => JsonView::Object(object_view(members@)),
    }
}

pub open spec fn array_view(items: Seq<Json>) -> Seq<JsonView>
    decreases items,
{
    if items.len() == 0 {
        Seq::empty()
    } else {
        array_view(items.drop_last()).push(json_view(items.last()))
    }
}

/// The members of an object; of two with one name the later counts.
pub open spec fn object_view(members: Seq<(String, Json)>) -> Map<Seq<char>, JsonView>
    decreases members,
{
    if members.len() == 0 {
        Map::empty()
    } else {
        object_view(members.drop_last()).insert(members.last().0@, json_view(members.last().1))
    }
}

impl View for Json {
    type V = JsonView;

    open spec fn view(&self) -> JsonView {
        json_view(*self)
    }
}

pub proof fn lemma_array_view(items: Seq<Json>)
    ensures
        array_view(items).len() == items.len(),
        forall|i: int| 0 <= i < items.len() ==> #[trigger] array_view(items)[i] == json_view(
            items[i],
        ),
    decreases items.len(),
{
    if items.len() > 0 {
        lemma_array_view(items.drop_last());
        assert forall|i: int| 0 <= i < items.len() implies #[trigger] array_view(items)[i]
            == json_view(items[i]) by {
            if i < items.len() - 1 {
                assert(array_view(items)[i] == array_view(items.drop_last())[i]);
                assert(items.drop_last()[i] == items[i]);
            }
        }
    }
}

/// What a value of `serde_json` is.
pub uninterp spec fn value_view(value: serde_json::Value) -> JsonView;

/// The value that a text denotes, where `serde_json::from_slice` accepts it.
pub uninterp spec fn parsed_json(bytes: Seq<u8>) -> Option<JsonView>;

/// The text of a value, as `serde_json::to_vec` writes it.
pub uninterp spec fn compact_json(json: JsonView) -> Seq<u8>;

/// The text of a value, as `serde_json::to_vec_pretty` writes it.
pub uninterp spec fn pretty_json(json: JsonView) -> Seq<u8>;

/// A value of `serde_json`, opened by one level.
pub enum Opened {
    Null,
    Bool(bool),
    Number(serde_json::Number),
    Str(String),
    Array(Vec<serde_json::Value>),
    Object(Vec<(String, serde_json::Value)>),
}

pub open spec fn values_view(items: Seq<serde_json::Value>) -> Seq<JsonView> {
    items.map_values(|item: serde_json::Value| value_view(item))
}

pub open spec fn members_view(members: Seq<(String, serde_json::Value)>) -> Map<
    Seq<char>,
    JsonView,
>
    decreases members.len(),
{
    if members.len() == 0 {
        Map::empty()
    } else {
        members_view(members.drop_last()).insert(
            members.last().0@,
            value_view(members.last().1),
        )
    }
}

pub open spec fn opened_view(opened: Opened) -> JsonView {
    match opened {
        Opened::Null => JsonView::Null,
        Opened::Bool(value) => JsonView::Bool(value),
        Opened::Number(value) => number_view(value),
        Opened::Str(value) => JsonView::Str(value@),
        Opened::Array(items) => JsonView::Array(values_view(items@)),
        Opened::Object(members) => JsonView::Object(members_view(members@)),
    }
}

/// Opens a `serde_json::Value` by one level. The names of an object's members are distinct.
#[verifier::external_body]
fn open_value(value: serde_json::Value) -> (r: Opened)
    ensures
        opened_view(r) == value_view(value),
        r matches Opened::Object(members) ==> names_are_distinct(members@),
{
    match value {
        serde_json::Value::Null => Opened::Null,
        serde_json::Value::Bool(value) => Opened::Bool(value),
        serde_json::Value::Number(value) => Opened::Number(value),
        serde_json::Value::String(value) => Opened::Str(value),
        serde_json::Value::Array(items) => Opened::Array(items),
        serde_json::Value::Object(members) => Opened::Object(members.into_iter().collect()),
    }
}

/// Closes one level into a `serde_json::Value`. Of two members with one name the later counts.
#[verifier::external_body]
fn close_value(opened: Opened) -> (r: serde_json::Value)
    ensures
        value_view(r) == opened_view(opened),
{
    match opened {
        Opened::Null => serde_json::Value::Null,
        Opened::Bool(value) => serde_json::Value::Bool(value),
        Opened::Number(value) => serde_json::Value::Number(value),
        Opened::Str(value) => serde_json::Value::String(value),
        Opened::Array(items) => serde_json::Value::Array(items),
        Opened::Object(members) => serde_json::Value::Object(members.into_iter().collect()),
    }
}

pub open spec fn names_are_distinct<T>(members: Seq<(String, T)>) -> bool {
    forall|i: int, j: int|
        0 <= i < j < members.len() ==> (#[trigger] members[i]).0@ != (#[trigger] members[j]).0@
}

spec fn parts_view(parts: NumberParts) -> JsonView {
    match parts {
        NumberParts::Pos(value) => JsonView::Int(value as int),
        NumberParts::Neg(value) => JsonView::Int(value as int),
        NumberParts::Fraction(text) => JsonView::Float(text@),
    }
}

/// Reads a `serde_json::Number`: it is whole where `Number::as_u64` or `Number::as_i64` says so,
/// and else what its `Display` prints.
#[verifier::external_body]
fn read_number(number: &serde_json::Number) -> (r: NumberParts)
    ensures
        parts_view(r) == number_view(*number),
{
    match (number.as_u64(), number.as_i64()) {
        (Some(value), _) => NumberParts::Pos(value),
        (None, Some(value)) => NumberParts::Neg(value),
        (None, None) => NumberParts::Fraction(number.to_string()),
    }
}

/// `Number::from` of a `u64` is that whole number.
#[verifier::external_body]
fn whole_number(value: u64) -> (r: serde_json::Number)
    ensures
        number_view(r) == JsonView::Int(value as int),
{
    serde_json::Number::from(value)
}

/// `Number::from` of an `i64` is that whole number.
#[verifier::external_body]
fn signed_number(value: i64) -> (r: serde_json::Number)
    ensures
        number_view(r) == JsonView::Int(value as int),
{
    serde_json::Number::from(value)
}

/// `serde_json::from_slice` reads a value; what it reads is a function of the bytes. It gives up on
/// a text in which a hundred and twenty-eight lists and objects stand inside one another.
#[verifier::external_body]
fn read_value(bytes: &[u8]) -> (r: Result<serde_json::Value, serde_json::Error>)
    ensures
        match r {
            Ok(value) => parsed_json(bytes@) == Some(value_view(value)) && nested_within(
                value_view(value),
                127,
            ),
            Err(_) => parsed_json(bytes@) is None,
        },
{
    serde_json::from_slice(bytes)
}

/// Whether a value holds no number but whole ones and is nested at most so deep.
pub open spec fn is_plain(json: JsonView, depth: nat) -> bool
    decreases json,
{
    match json {
        JsonView::Float(_) => false,
        JsonView::Array(items) => depth > 0 && forall|i: int|
            0 <= i < items.len() ==> is_plain(#[trigger] items[i], (depth - 1) as nat),
        JsonView::Object(members) => depth > 0 && forall|name: Seq<char>|
            members.contains_key(name) ==> is_plain(#[trigger] members[name], (depth - 1) as nat),
        _ => true,
    }
}

/// Whether a value is nested at most so deep.
pub open spec fn nested_within(json: JsonView, depth: nat) -> bool
    decreases json,
{
    match json {
        JsonView::Array(items) => depth > 0 && forall|i: int|
            0 <= i < items.len() ==> nested_within(#[trigger] items[i], (depth - 1) as nat),
        JsonView::Object(members) => depth > 0 && forall|name: Seq<char>|
            members.contains_key(name) ==> nested_within(
                #[trigger] members[name],
                (depth - 1) as nat,
            ),
        _ => true,
    }
}

/// Whether a value holds no number but whole ones.
pub open spec fn is_whole(json: JsonView) -> bool
    decreases json,
{
    match json {
        JsonView::Float(_) => false,
        JsonView::Array(items) => forall|i: int|
            0 <= i < items.len() ==> is_whole(#[trigger] items[i]),
        JsonView::Object(members) => forall|name: Seq<char>|
            members.contains_key(name) ==> is_whole(#[trigger] members[name]),
        _ => true,
    }
}

/// Whether two values are the same but for their fractions.
pub open spec fn alike(a: JsonView, b: JsonView) -> bool
    decreases a,
{
    match (a, b) {
        (JsonView::Float(_), JsonView::Float(_)) => true,
        (JsonView::Array(x), JsonView::Array(y)) => x.len() == y.len() && forall|i: int|
            0 <= i < x.len() ==> alike(#[trigger] x[i], y[i]),
        (JsonView::Object(x), JsonView::Object(y)) => (forall|name: Seq<char>| #[trigger]
            x.contains_key(name) == y.contains_key(name)) && forall|name: Seq<char>|
            x.contains_key(name) ==> alike(#[trigger] x[name], y[name]),
        _ => a == b,
    }
}

/// What an object is made of decides its depth and whether it holds fractions.
pub proof fn lemma_object_parts(members: Map<Seq<char>, JsonView>, depth: nat)
    requires
        depth > 0,
    ensures
        nested_within(JsonView::Object(members), depth) <==> forall|name: Seq<char>|
            members.contains_key(name) ==> nested_within(
                #[trigger] members[name],
                (depth - 1) as nat,
            ),
        is_whole(JsonView::Object(members)) <==> forall|name: Seq<char>|
            members.contains_key(name) ==> is_whole(#[trigger] members[name]),
{
    let json = JsonView::Object(members);
    assert(json->Object_0 == members);
}

/// Two objects are alike where they have the same names and alike members.
pub proof fn lemma_alike_objects(x: Map<Seq<char>, JsonView>, y: Map<Seq<char>, JsonView>)
    ensures
        alike(JsonView::Object(x), JsonView::Object(y)) <==> (forall|name: Seq<char>| #[trigger]
            x.contains_key(name) == y.contains_key(name)) && forall|name: Seq<char>|
            x.contains_key(name) ==> alike(#[trigger] x[name], y[name]),
{
    let a = JsonView::Object(x);
    let b = JsonView::Object(y);
    assert(a->Object_0 == x && b->Object_0 == y);
}

/// A value without fractions that is not nested too deep is a plain one.
pub proof fn lemma_whole_is_plain(json: JsonView, depth: nat)
    requires
        is_whole(json),
        nested_within(json, depth),
    ensures
        is_plain(json, depth),
    decreases json,
{
    match json {
        JsonView::Array(items) => {
            assert forall|i: int| 0 <= i < items.len() implies is_plain(
                #[trigger] items[i],
                (depth - 1) as nat,
            ) by {
                lemma_whole_is_plain(items[i], (depth - 1) as nat);
            }
        },
        JsonView::Object(members) => {
            assert forall|name: Seq<char>| members.contains_key(name) implies is_plain(
                #[trigger] members[name],
                (depth - 1) as nat,
            ) by {
                lemma_whole_is_plain(members[name], (depth - 1) as nat);
            }
        },
        _ => {},
    }
}

/// `serde_json::to_vec` writes a value; what it writes is a function of the value. It does not
/// fail: the names of a value's members are strings. `serde_json::from_slice` reads the text back
/// as the same value where the value holds no fraction and is not nested too deep for the reader.
/// Of a fraction the last digit may differ, and the reader may find the largest ones out of range;
/// nothing else differs in what it reads back.
#[verifier::external_body]
fn write_value(value: &serde_json::Value) -> (r: Result<Vec<u8>, serde_json::Error>)
    ensures
        r is Ok,
        r->Ok_0@ == compact_json(value_view(*value)),
        is_plain(value_view(*value), 127) ==> parsed_json(r->Ok_0@) == Some(value_view(*value)),
        parsed_json(r->Ok_0@) matches Some(back) ==> alike(value_view(*value), back),
{
    serde_json::to_vec(value)
}

/// `serde_json::to_vec_pretty` writes a value; what it writes is a function of the value. It does
/// not fail: the names of a value's members are strings. `serde_json::from_slice` reads the text
/// back as it does that of `serde_json::to_vec`, and a line feed behind the text too, which is
/// white space.
#[verifier::external_body]
fn write_value_pretty(value: &serde_json::Value) -> (r: Result<Vec<u8>, serde_json::Error>)
    ensures
        r is Ok,
        r->Ok_0@ == pretty_json(value_view(*value)),
        is_plain(value_view(*value), 127) ==> parsed_json(r->Ok_0@) == Some(value_view(*value)),
        parsed_json(r->Ok_0@) matches Some(back) ==> alike(value_view(*value), back),
        parsed_json(r->Ok_0@.push(10)) == parsed_json(r->Ok_0@),
{
    serde_json::to_vec_pretty(value)
}

fn json_of(value: serde_json::Value) -> (r: Json)
    ensures
        r@ == value_view(value),
    decreases value_view(value),
{
    match open_value(value) {
        Opened::Null => Json::Null,
        Opened::Bool(value) => Json::Bool(value),
        Opened::Number(number) => match read_number(&number) {
            NumberParts::Pos(value) => Json::Pos(value),
            NumberParts::Neg(value) => Json::Neg(value),
            NumberParts::Fraction(_) => Json::Float(Fraction { number }),
        },
        Opened::Str(value) => Json::Str(value),
        Opened::Array(items) => {
            let mut rest = items;
            let ghost all = rest@;
            let mut out: Vec<Json> = Vec::new();
            while rest.len() > 0
                invariant
                    rest@.len() + out@.len() == all.len(),
                    rest@ == all.skip(out@.len() as int),
                    array_view(out@) == values_view(all.take(out@.len() as int)),
                    value_view(value) == JsonView::Array(values_view(all)),
                decreases rest.len(),
            {
                let ghost at = out@.len() as int;
                let item = rest.remove(0);
                proof {
                    assert(item == all[at]);
                    assert(values_view(all)[at] == value_view(item));
                    assert(decreases_to!(value_view(value) => value_view(value)->Array_0));
                    assert(decreases_to!(values_view(all) => values_view(all)[at]));
                }
                let converted = json_of(item);
                let ghost before = out@;
                out.push(converted);
                proof {
                    assert(out@.drop_last() == before);
                    assert(values_view(all.take(at + 1)) == values_view(all.take(at)).push(
                        value_view(item),
                    ));
                    assert(rest@ == all.skip(at + 1));
                }
            }
            assert(all.take(out@.len() as int) == all);
            Json::Array(out)
        },
        Opened::Object(members) => {
            let mut rest = members;
            let ghost all = rest@;
            let mut out: Vec<(String, Json)> = Vec::new();
            assert(all.take(0) == Seq::<(String, serde_json::Value)>::empty());
            while rest.len() > 0
                invariant
                    rest@.len() + out@.len() == all.len(),
                    rest@ == all.skip(out@.len() as int),
                    object_view(out@) == members_view(all.take(out@.len() as int)),
                    value_view(value) == JsonView::Object(members_view(all)),
                    names_are_distinct(all),
                decreases rest.len(),
            {
                let ghost at = out@.len() as int;
                let (name, item) = rest.remove(0);
                proof {
                    assert(all[at] == (name, item));
                    lemma_members_view(all, at);
                    assert(decreases_to!(value_view(value) => value_view(value)->Object_0));
                }
                let converted = json_of(item);
                let ghost before = out@;
                out.push((name, converted));
                proof {
                    assert(out@.drop_last() == before);
                    assert(all.take(at + 1).drop_last() == all.take(at));
                    assert(rest@ == all.skip(at + 1));
                }
            }
            assert(all.take(out@.len() as int) == all);
            Json::Object(out)
        },
    }
}

proof fn lemma_members_view(members: Seq<(String, serde_json::Value)>, at: int)
    requires
        0 <= at < members.len(),
        names_are_distinct(members),
    ensures
        members_view(members).contains_key(members[at].0@),
        members_view(members)[members[at].0@] == value_view(members[at].1),
    decreases members.len(),
{
    if at < members.len() - 1 {
        lemma_members_view(members.drop_last(), at);
        assert(members.drop_last()[at] == members[at]);
        assert(members.last().0@ != members[at].0@);
    }
}

/// `Number::clone` copies a number.
pub assume_specification[ <serde_json::Number as Clone>::clone ](
    number: &serde_json::Number,
) -> (r: serde_json::Number)
    ensures
        r == *number,
;

fn value_of(json: &Json) -> (r: serde_json::Value)
    ensures
        value_view(r) == json@,
    decreases json,
{
    match json {
        Json::Null => close_value(Opened::Null),
        Json::Bool(value) => close_value(Opened::Bool(*value)),
        Json::Pos(value) => close_value(Opened::Number(whole_number(*value))),
        Json::Neg(value) => close_value(Opened::Number(signed_number(*value))),
        Json::Float(value) => {
            proof {
                use_type_invariant(value);
            }
            close_value(Opened::Number(value.number.clone()))
        },
        Json::Str(value) => close_value(Opened::Str(value.clone())),
        Json::Array(items) => {
            let mut out: Vec<serde_json::Value> = Vec::new();
            let mut i: usize = 0;
            while i < items.len()
                invariant
                    i <= items.len(),
                    *json == Json::Array(*items),
                    values_view(out@) == array_view(items@.take(i as int)),
                decreases items.len() - i,
            {
                let ghost before = out@;
                assert(decreases_to!(*json => json->Array_0));
                assert(decreases_to!(*items => items@));
                assert(decreases_to!(items@ => items@[i as int]));
                out.push(value_of(&items[i]));
                assert(items@.take(i + 1).drop_last() == items@.take(i as int));
                assert(values_view(out@) == values_view(before).push(json_view(items@[i as int])));
                i += 1;
            }
            assert(items@.take(i as int) == items@);
            close_value(Opened::Array(out))
        },
        Json::Object(members) => {
            let mut out: Vec<(String, serde_json::Value)> = Vec::new();
            let mut i: usize = 0;
            while i < members.len()
                invariant
                    i <= members.len(),
                    *json == Json::Object(*members),
                    members_view(out@) == object_view(members@.take(i as int)),
                decreases members.len() - i,
            {
                let ghost before = out@;
                let (name, item) = &members[i];
                assert(decreases_to!(*json => json->Object_0));
                assert(decreases_to!(*members => members@));
                assert(decreases_to!(members@ => members@[i as int]));
                assert(decreases_to!(members@[i as int] => members@[i as int].1));
                out.push((name.clone(), value_of(item)));
                assert(out@.drop_last() == before);
                assert(members@.take(i + 1).drop_last() == members@.take(i as int));
                i += 1;
            }
            assert(members@.take(i as int) == members@);
            close_value(Opened::Object(out))
        },
    }
}

/// Reads a JSON text.
pub fn parse_json(bytes: &[u8]) -> (r: Option<Json>)
    ensures
        (match r {
            Some(json) => Some(json@),
            None => None,
        }) == parsed_json(bytes@),
        r matches Some(json) ==> nested_within(json@, 127),
{
    match read_value(bytes) {
        Ok(value) => Some(json_of(value)),
        Err(_) => None,
    }
}

/// Writes a JSON text without white space.
pub fn to_bytes(json: &Json) -> (r: Vec<u8>)
    ensures
        r@ == compact_json(json@),
        is_plain(json@, 127) ==> parsed_json(r@) == Some(json@),
        parsed_json(r@) matches Some(back) ==> alike(json@, back),
{
    match write_value(&value_of(json)) {
        Ok(bytes) => bytes,
        Err(_) => Vec::new(),
    }
}

/// Writes an indented JSON text.
pub fn to_pretty_bytes(json: &Json) -> (r: Vec<u8>)
    ensures
        r@ == pretty_json(json@),
        is_plain(json@, 127) ==> parsed_json(r@) == Some(json@),
        parsed_json(r@) matches Some(back) ==> alike(json@, back),
        parsed_json(r@.push(10)) == parsed_json(r@),
{
    match write_value_pretty(&value_of(json)) {
        Ok(bytes) => bytes,
        Err(_) => Vec::new(),
    }
}

/// The digest of a value's text. The order of members does not matter to it.
pub open spec fn canonical_digest_of(json: JsonView) -> Seq<char> {
    crate::digest::digest_of(compact_json(json))
}

pub fn canonical_digest(json: &Json) -> (r: crate::digest::CanonicalDigest)
    ensures
        r@ == canonical_digest_of(json@),
        is_plain(json@, 127) ==> parsed_json(compact_json(json@)) == Some(json@),
{
    crate::digest::CanonicalDigest::of_bytes(to_bytes(json).as_slice())
}

proof fn lemma_object_take(members: Seq<(String, Json)>, k: int, name: Seq<char>)
    requires
        0 <= k <= members.len(),
        forall|i: int| k <= i < members.len() ==> (#[trigger] members[i]).0@ != name,
    ensures
        object_view(members).contains_key(name) == object_view(members.take(k)).contains_key(name),
        object_view(members).contains_key(name) ==> object_view(members)[name] == object_view(
            members.take(k),
        )[name],
    decreases members.len() - k,
{
    if k == members.len() {
        assert(members.take(k) == members);
    } else {
        lemma_object_take(members, k + 1, name);
        assert(members.take(k + 1).drop_last() == members.take(k));
        assert(members.take(k + 1).last() == members[k]);
    }
}

/// The member of a name among members.
pub fn find_member<'a>(members: &'a Vec<(String, Json)>, name: &str) -> (r: Option<&'a Json>)
    ensures
        match r {
            Some(value) => object_view(members@).contains_key(name@) && value@ == object_view(
                members@,
            )[name@] && (exists|i: int|
                0 <= i < members@.len() && #[trigger] members@[i].1 == *value && members@[i].0@
                    == name@),
            None => !object_view(members@).contains_key(name@) && (forall|i: int|
                0 <= i < members@.len() ==> (#[trigger] members@[i]).0@ != name@),
        },
{
    let mut i: usize = members.len();
    while i > 0
        invariant
            i <= members.len(),
            forall|j: int| i <= j < members@.len() ==> (#[trigger] members@[j]).0@ != name@,
        decreases i,
    {
        if same(members[i - 1].0.as_str(), name) {
            proof {
                lemma_object_take(members@, i as int, name@);
                assert(members@.take(i as int).last() == members@[i - 1]);
            }
            return Some(&members[i - 1].1);
        }
        i -= 1;
    }
    proof {
        lemma_object_take(members@, 0, name@);
        assert(members@.take(0) == Seq::<(String, Json)>::empty());
    }
    None
}

/// The member of a name in a value: nothing where the value is no object.
pub open spec fn member_of(json: JsonView, name: Seq<char>) -> Option<JsonView> {
    match json {
        JsonView::Object(members) => if members.contains_key(name) {
            Some(members[name])
        } else {
            None
        },
        _ => None,
    }
}

pub open spec fn optional_view(json: Option<&Json>) -> Option<JsonView> {
    match json {
        Some(json) => Some(json@),
        None => None,
    }
}

impl Json {
    pub fn member<'a>(&'a self, name: &str) -> (r: Option<&'a Json>)
        ensures
            optional_view(r) == member_of(self@, name@),
    {
        match self {
            Json::Object(members) => find_member(members, name),
            _ => None,
        }
    }

    /// The text of a string.
    pub fn text(&self) -> (r: Option<&String>)
        ensures
            match r {
                Some(text) => self@ == JsonView::Str(text@),
                None => !(self@ is Str),
            },
    {
        match self {
            Json::Str(text) => Some(text),
            _ => None,
        }
    }

    /// A value that is the same.
    pub fn copied(&self) -> (r: Json)
        ensures
            r@ == self@,
        decreases self,
    {
        match self {
            Json::Null => Json::Null,
            Json::Bool(value) => Json::Bool(*value),
            Json::Pos(value) => Json::Pos(*value),
            Json::Neg(value) => Json::Neg(*value),
            Json::Float(value) => Json::Float(value.copied()),
            Json::Str(value) => Json::Str(value.clone()),
            Json::Array(items) => {
                let mut out: Vec<Json> = Vec::new();
                let mut i: usize = 0;
                while i < items.len()
                    invariant
                        i <= items.len(),
                        *self == Json::Array(*items),
                        array_view(out@) == array_view(items@.take(i as int)),
                    decreases items.len() - i,
                {
                    let ghost before = out@;
                    assert(decreases_to!(*self => self->Array_0));
                    assert(decreases_to!(*items => items@));
                    assert(decreases_to!(items@ => items@[i as int]));
                    out.push(items[i].copied());
                    assert(out@.drop_last() == before);
                    assert(items@.take(i + 1).drop_last() == items@.take(i as int));
                    i += 1;
                }
                assert(items@.take(i as int) == items@);
                Json::Array(out)
            },
            Json::Object(members) => {
                let mut out: Vec<(String, Json)> = Vec::new();
                let mut i: usize = 0;
                while i < members.len()
                    invariant
                        i <= members.len(),
                        *self == Json::Object(*members),
                        object_view(out@) == object_view(members@.take(i as int)),
                    decreases members.len() - i,
                {
                    let ghost before = out@;
                    let (name, item) = &members[i];
                    assert(decreases_to!(*self => self->Object_0));
                    assert(decreases_to!(*members => members@));
                    assert(decreases_to!(members@ => members@[i as int]));
                    assert(decreases_to!(members@[i as int] => members@[i as int].1));
                    out.push((name.clone(), item.copied()));
                    assert(out@.drop_last() == before);
                    assert(members@.take(i + 1).drop_last() == members@.take(i as int));
                    i += 1;
                }
                assert(members@.take(i as int) == members@);
                Json::Object(out)
            },
        }
    }
}

pub proof fn lemma_object_names(members: Seq<(String, Json)>, name: Seq<char>)
    ensures
        object_view(members).contains_key(name) <==> exists|i: int|
            0 <= i < members.len() && (#[trigger] members[i]).0@ == name,
    decreases members.len(),
{
    if members.len() > 0 {
        let head = members.drop_last();
        lemma_object_names(head, name);
        if object_view(head).contains_key(name) {
            let i = choose|i: int| 0 <= i < head.len() && (#[trigger] head[i]).0@ == name;
            assert(members[i].0@ == name);
        }
        if members.last().0@ == name {
            assert(members[members.len() - 1].0@ == name);
        }
        if exists|i: int| 0 <= i < members.len() && (#[trigger] members[i]).0@ == name {
            let i = choose|i: int| 0 <= i < members.len() && (#[trigger] members[i]).0@ == name;
            if i < members.len() - 1 {
                assert(head[i].0@ == name);
            }
        }
    }
}

/// Whether two values are the same. The order of an object's members does not matter.
pub fn same_json(a: &Json, b: &Json) -> (r: bool)
    ensures
        r == (a@ == b@),
    decreases a,
{
    match (a, b) {
        (Json::Null, Json::Null) => true,
        (Json::Bool(x), Json::Bool(y)) => *x == *y,
        (Json::Pos(x), Json::Pos(y)) => *x == *y,
        (Json::Neg(x), Json::Neg(y)) => *x == *y,
        (Json::Pos(x), Json::Neg(y)) => *y >= 0 && *x == *y as u64,
        (Json::Neg(x), Json::Pos(y)) => *x >= 0 && *y == *x as u64,
        (Json::Float(x), Json::Float(y)) => same(
            x.text().as_str(),
            y.text().as_str(),
        ),
        (Json::Str(x), Json::Str(y)) => same(x.as_str(), y.as_str()),
        (Json::Array(x), Json::Array(y)) => {
            proof {
                lemma_array_view(x@);
                lemma_array_view(y@);
            }
            if x.len() != y.len() {
                assert(array_view(x@).len() != array_view(y@).len());
                return false;
            }
            let mut i: usize = 0;
            while i < x.len()
                invariant
                    i <= x.len() == y.len(),
                    *a == Json::Array(*x),
                    *b == Json::Array(*y),
                    array_view(x@).len() == x@.len(),
                    array_view(y@).len() == y@.len(),
                    forall|j: int|
                        0 <= j < x@.len() ==> #[trigger] array_view(x@)[j] == json_view(x@[j]),
                    forall|j: int|
                        0 <= j < y@.len() ==> #[trigger] array_view(y@)[j] == json_view(y@[j]),
                    forall|j: int|
                        0 <= j < i ==> #[trigger] array_view(x@)[j] == array_view(y@)[j],
                decreases x.len() - i,
            {
                assert(decreases_to!(*a => a->Array_0));
                assert(decreases_to!(*x => x@));
                assert(decreases_to!(x@ => x@[i as int]));
                if !same_json(&x[i], &y[i]) {
                    assert(array_view(x@)[i as int] != array_view(y@)[i as int]);
                    return false;
                }
                assert(array_view(x@)[i as int] == array_view(y@)[i as int]);
                i += 1;
            }
            assert(array_view(x@) == array_view(y@));
            true
        },
        (Json::Object(x), Json::Object(y)) => {
            let ghost xv = object_view(x@);
            let ghost yv = object_view(y@);
            let mut i: usize = 0;
            while i < x.len()
                invariant
                    i <= x.len(),
                    *a == Json::Object(*x),
                    *b == Json::Object(*y),
                    xv == object_view(x@),
                    yv == object_view(y@),
                    forall|j: int|
                        0 <= j < i ==> yv.contains_key((#[trigger] x@[j]).0@) && xv[x@[j].0@]
                            == yv[x@[j].0@],
                decreases x.len() - i,
            {
                let name = &x[i].0;
                proof {
                    lemma_object_names(x@, name@);
                    assert(x@[i as int].0@ == name@);
                }
                let mine = match find_member(x, name.as_str()) {
                    Some(mine) => mine,
                    None => return false,
                };
                let theirs = match find_member(y, name.as_str()) {
                    Some(theirs) => theirs,
                    None => return false,
                };
                proof {
                    let k = choose|k: int|
                        0 <= k < x@.len() && #[trigger] x@[k].1 == *mine && x@[k].0@ == name@;
                    assert(decreases_to!(*a => a->Object_0));
                assert(decreases_to!(*x => x@));
                    assert(decreases_to!(x@ => x@[k]));
                    assert(decreases_to!(x@[k] => x@[k].1));
                }
                if !same_json(mine, theirs) {
                    assert(xv[name@] != yv[name@]);
                    return false;
                }
                i += 1;
            }
            let mut j: usize = 0;
            while j < y.len()
                invariant
                    j <= y.len(),
                    *a == Json::Object(*x),
                    *b == Json::Object(*y),
                    xv == object_view(x@),
                    yv == object_view(y@),
                    forall|k: int| 0 <= k < j ==> xv.contains_key((#[trigger] y@[k]).0@),
                decreases y.len() - j,
            {
                proof {
                    lemma_object_names(y@, y@[j as int].0@);
                }
                if find_member(x, y[j].0.as_str()).is_none() {
                    assert(!xv.contains_key(y@[j as int].0@));
                    assert(yv.contains_key(y@[j as int].0@));
                    return false;
                }
                j += 1;
            }
            proof {
                assert forall|name: Seq<char>| xv.contains_key(name) == yv.contains_key(name) by {
                    lemma_object_names(x@, name);
                    lemma_object_names(y@, name);
                }
                assert forall|name: Seq<char>| xv.contains_key(name) implies xv[name]
                    == yv[name] by {
                    lemma_object_names(x@, name);
                }
                assert(xv =~= yv);
            }
            true
        },
        _ => false,
    }
}

/// Sets a member: in place of the one with its name, else at the end.
pub fn put_member(members: &mut Vec<(String, Json)>, name: &str, value: Json)
    ensures
        object_view(final(members)@) == object_view(old(members)@).insert(name@, value@),
{
    let ghost before = members@;
    remove_member(members, name);
    let ghost kept = members@;
    members.push((name.to_owned(), value));
    proof {
        assert(members@.drop_last() == kept);
        assert(object_view(kept).insert(name@, value@) =~= object_view(before).insert(
            name@,
            value@,
        ));
    }
}

/// Removes the members of a name.
pub fn remove_member(members: &mut Vec<(String, Json)>, name: &str)
    ensures
        object_view(final(members)@) == object_view(old(members)@).remove(name@),
        final(members)@.len() <= old(members)@.len(),
{
    let mut i: usize = 0;
    proof {
        assert(members@.take(0) == Seq::<(String, Json)>::empty());
    }
    let ghost all = members@;
    let ghost mut seen: int = 0;
    while i < members.len()
        invariant
            i <= members.len(),
            0 <= seen <= all.len(),
            members@.len() <= all.len(),
            members@.skip(i as int) == all.skip(seen),
            object_view(members@.take(i as int)) == object_view(all.take(seen)).remove(name@),
            all == old(members)@,
        decreases members.len() - i,
    {
        proof {
            assert(members@.skip(i as int)[0] == members@[i as int]);
            assert(all.skip(seen).len() == members@.skip(i as int).len());
            assert(all.skip(seen)[0] == all[seen]);
            assert(all.take(seen + 1).drop_last() == all.take(seen));
        }
        if same(members[i].0.as_str(), name) {
            let ghost before = members@;
            members.remove(i);
            proof {
                assert(members@.take(i as int) == before.take(i as int));
                assert(members@.skip(i as int) == all.skip(seen + 1)) by {
                    assert(members@.skip(i as int) =~= before.skip(i as int).skip(1));
                    assert(all.skip(seen).skip(1) =~= all.skip(seen + 1));
                }
                assert(object_view(all.take(seen)).insert(name@, json_view(all[seen].1)).remove(
                    name@,
                ) =~= object_view(all.take(seen)).remove(name@));
                seen = seen + 1;
            }
        } else {
            proof {
                assert(members@.take(i + 1).drop_last() == members@.take(i as int));
                assert(members@.skip(i + 1) == all.skip(seen + 1)) by {
                    assert(members@.skip(i + 1) =~= members@.skip(i as int).skip(1));
                    assert(all.skip(seen).skip(1) =~= all.skip(seen + 1));
                }
                let other = all[seen].0@;
                assert(object_view(all.take(seen)).remove(name@).insert(
                    other,
                    json_view(all[seen].1),
                ) =~= object_view(all.take(seen)).insert(other, json_view(all[seen].1)).remove(
                    name@,
                ));
                seen = seen + 1;
            }
            i += 1;
        }
    }
    proof {
        assert(members@.skip(i as int).len() == 0);
        assert(all.skip(seen).len() == 0);
        assert(members@.take(i as int) == members@);
        assert(all.take(seen) == all);
    }
}

/// Whether any string of a value holds a NUL.
pub open spec fn has_nul(json: JsonView) -> bool
    decreases json,
{
    match json {
        JsonView::Str(text) => text.contains('\0'),
        JsonView::Array(items) => exists|i: int|
            0 <= i < items.len() && has_nul(#[trigger] items[i]),
        JsonView::Object(members) => exists|name: Seq<char>|
            members.contains_key(name) && has_nul(#[trigger] members[name]),
        _ => false,
    }
}

proof fn lemma_nul_in_array(items: Seq<JsonView>, at: int)
    requires
        0 <= at < items.len(),
        has_nul(items[at]),
    ensures
        has_nul(JsonView::Array(items)),
{
    let json = JsonView::Array(items);
    assert(json->Array_0[at] == items[at]);
    assert(exists|i: int| 0 <= i < items.len() && has_nul(#[trigger] items[i]));
    assert(has_nul(json));
}

proof fn lemma_nul_in_object(members: Map<Seq<char>, JsonView>, name: Seq<char>)
    requires
        members.contains_key(name),
        has_nul(members[name]),
    ensures
        has_nul(JsonView::Object(members)),
{
    let json = JsonView::Object(members);
    assert(json->Object_0[name] == members[name]);
    assert(exists|n: Seq<char>| members.contains_key(n) && has_nul(#[trigger] members[n]));
    assert(has_nul(json));
}

/// Whether any string of a value holds a NUL.
pub fn contains_nul(json: &Json) -> (r: bool)
    ensures
        r == has_nul(json@),
    decreases json,
{
    match json {
        Json::Str(text) => crate::text::has_char(text.as_str(), '\0'),
        Json::Array(items) => {
            let ghost views = array_view(items@);
            proof {
                lemma_array_view(items@);
            }
            let mut i: usize = 0;
            while i < items.len()
                invariant
                    i <= items.len(),
                    *json == Json::Array(*items),
                    views == array_view(items@),
                    views.len() == items@.len(),
                    forall|j: int|
                        0 <= j < items@.len() ==> #[trigger] views[j] == json_view(items@[j]),
                    forall|j: int| 0 <= j < i ==> !has_nul(#[trigger] views[j]),
                decreases items.len() - i,
            {
                assert(decreases_to!(*json => json->Array_0));
                assert(decreases_to!(*items => items@));
                assert(decreases_to!(items@ => items@[i as int]));
                assert(views[i as int] == json_view(items@[i as int]));
                if contains_nul(&items[i]) {
                    proof {
                        assert(has_nul(views[i as int]));
                        assert(json@ == JsonView::Array(views));
                        lemma_nul_in_array(views, i as int);
                    }
                    return true;
                }
                i += 1;
            }
            false
        },
        Json::Object(members) => {
            let ghost view = object_view(members@);
            let mut i: usize = 0;
            while i < members.len()
                invariant
                    i <= members.len(),
                    *json == Json::Object(*members),
                    view == object_view(members@),
                    forall|j: int|
                        0 <= j < i ==> view.contains_key((#[trigger] members@[j]).0@) && !has_nul(
                            view[members@[j].0@],
                        ),
                decreases members.len() - i,
            {
                let name = &members[i].0;
                proof {
                    lemma_object_names(members@, name@);
                    assert(members@[i as int].0@ == name@);
                }
                let value = match find_member(members, name.as_str()) {
                    Some(value) => value,
                    None => return false,
                };
                proof {
                    let k = choose|k: int|
                        0 <= k < members@.len() && #[trigger] members@[k].1 == *value
                            && members@[k].0@ == name@;
                    assert(decreases_to!(*json => json->Object_0));
                    assert(decreases_to!(*members => members@));
                    assert(decreases_to!(members@ => members@[k]));
                    assert(decreases_to!(members@[k] => members@[k].1));
                }
                if contains_nul(value) {
                    proof {
                        assert(json@ == JsonView::Object(view));
                        lemma_nul_in_object(view, name@);
                    }
                    return true;
                }
                i += 1;
            }
            proof {
                assert forall|name: Seq<char>| view.contains_key(name) implies !has_nul(
                    #[trigger] view[name],
                ) by {
                    lemma_object_names(members@, name);
                    let k = choose|k: int|
                        0 <= k < members@.len() && (#[trigger] members@[k]).0@ == name;
                    assert(!has_nul(view[members@[k].0@]));
                }
            }
            false
        },
        _ => false,
    }
}

} // verus!
