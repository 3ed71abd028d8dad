//! JSON values, their codec, and member lookup.
use crate::text::seen;
use crate::cbor::reversed;
use crate::text_map::{
    entry_map, first_entry, has_key, key_at, key_index, lemma_entry_has_key, lemma_key_index,
    lemma_push_entry, lemma_push_shadowed, lemma_same_entries, TextMap,
};
use vstd::prelude::*;

verus! {

/// A JSON number.
#[verifier::external_type_specification]
#[verifier::external_body]
pub struct ExJsonNumber(serde_json::Number);

/// A parsed tree of `serde_json`.
#[verifier::external_type_specification]
#[verifier::external_body]
pub struct ExJsonTree(serde_json::Value);

/// A JSON value. The order of an object's members carries no meaning.
#[derive(Debug)]
pub enum JsonValue {
    Null,
    Bool(bool),
    Number(serde_json::Number),
    Text(String),
    Array(Vec<JsonValue>),
    Object(TextMap<JsonValue>),
}

/// The mathematical content of a [`JsonValue`].
pub enum Json {
    Null,
    Bool(bool),
    Number(serde_json::Number),
    Text(Seq<char>),
    Array(Seq<Json>),
    Object(Map<Seq<char>, Json>),
}

/// The content of a value, read level by level.
pub open spec fn json_content(value: JsonValue) -> Json
    decreases value,
{
    match value {
        JsonValue::Null => Json::Null,
        JsonValue::Bool(b) => Json::Bool(b),
        JsonValue::Number(n) => Json::Number(n),
        JsonValue::Text(t) => Json::Text(t@),
        JsonValue::Array(items) => Json::Array(
            Seq::new(
                items@.len(),
                |i: int| if 0 <= i < items@.len() { json_content(items@[i]) } else { Json::Null },
            ),
        ),
        JsonValue::Object(members) => Json::Object(
            Map::new(
                |key: Seq<char>| has_key(members.entries@, key),
                |key: Seq<char>|
                    {
                        let i = key_index(members.entries@, key);
                        if 0 <= i < members.entries@.len() {
                            json_content(members.entries@[i].1)
                        } else {
                            Json::Null
                        }
                    },
            ),
        ),
    }
}

impl View for JsonValue {
    type V = Json;

    open spec fn view(&self) -> Json {
        json_content(*self)
    }
}

/// What a tree of `serde_json` holds.
pub uninterp spec fn json_tree(tree: serde_json::Value) -> Json;

/// The value that `bytes` is the JSON text of, or the message of `serde_json` where it is none.
pub uninterp spec fn json_read(bytes: Seq<u8>) -> Result<Json, Seq<char>>;

/// The compact JSON text of a value, as `serde_json` writes it.
pub uninterp spec fn json_encoded(value: Json) -> Seq<u8>;

/// A number as a signed 64-bit integer, where it is one.
pub uninterp spec fn json_i64(number: serde_json::Number) -> Option<i64>;

/// A number as an unsigned 64-bit integer, where it is one.
pub uninterp spec fn json_u64(number: serde_json::Number) -> Option<u64>;

/// The number that stands for an integer.
pub uninterp spec fn json_integer(value: i64) -> serde_json::Number;

/// `serde_json::from_slice`: the value that the whole of `bytes` is the text of, or its error as
/// text.
#[verifier::external_body]
fn read_tree(bytes: &[u8]) -> (out: Result<serde_json::Value, String>)
    ensures
        match out {
            Ok(tree) => json_read(bytes@) == Ok::<Json, Seq<char>>(json_tree(tree)),
            Err(message) => json_read(bytes@) == Err::<Json, Seq<char>>(message@),
        },
{
    serde_json::from_slice(bytes).map_err(|e| e.to_string())
}

/// How deep a value may be nested for it to be certain that it can be read back.
pub const SIMPLE_DEPTH: u64 = 64;

/// Whether a value is nested at most `depth` deep, and holds no numbers but integers of 64 bits.
pub open spec fn simple_value(value: Json, depth: nat) -> bool
    decreases depth,
{
    match value {
        Json::Number(number) => json_i64(number) is Some || json_u64(number) is Some,
        Json::Array(items) => depth > 0 && forall|i: int|
            0 <= i < items.len() ==> simple_value(#[trigger] items[i], (depth - 1) as nat),
        Json::Object(members) => depth > 0 && forall|key: Seq<char>| #[trigger]
            members.contains_key(key) ==> simple_value(members[key], (depth - 1) as nat),
        _ => true,
    }
}

/// `serde_json::to_vec` on a tree, which does not fail: its compact text. What it writes for a
/// simple value is read back as the same value.
#[verifier::external_body]
fn write_tree(tree: &serde_json::Value) -> (out: Vec<u8>)
    ensures
        out@ == json_encoded(json_tree(*tree)),
        simple_value(json_tree(*tree), SIMPLE_DEPTH as nat) ==> read_back(out@) == Some(
            json_tree(*tree),
        ),
{
    serde_json::to_vec(tree).expect("a tree has a text")
}

/// The value that `bytes` is the JSON text of, where it is one.
pub open spec fn read_back(bytes: Seq<u8>) -> Option<Json> {
    match json_read(bytes) {
        Ok(value) => Some(value),
        Err(_) => None,
    }
}

/// The outermost level of a tree of `serde_json`.
enum JsonParts {
    Null,
    Bool(bool),
    Number(serde_json::Number),
    Text(String),
    Array(Vec<serde_json::Value>),
    Object(Vec<(String, serde_json::Value)>),
}

/// The contents of a list of trees.
spec fn tree_contents(trees: Seq<serde_json::Value>) -> Seq<Json> {
    trees.map_values(|tree: serde_json::Value| json_tree(tree))
}

/// The contents of named trees.
spec fn tree_members(entries: Seq<(String, serde_json::Value)>) -> Map<Seq<char>, Json> {
    entry_map(entries).map_values(|tree: serde_json::Value| json_tree(tree))
}

/// Whether no two entries are under one key.
spec fn distinct_keys<V>(entries: Seq<(String, V)>) -> bool {
    forall|i: int, j: int|
        0 <= i < j < entries.len() ==> (#[trigger] entries[i]).0@ != (#[trigger] entries[j]).0@
}

spec fn parts_content(parts: JsonParts) -> Json {
    match parts {
        JsonParts::Null => Json::Null,
        JsonParts::Bool(b) => Json::Bool(b),
        JsonParts::Number(n) => Json::Number(n),
        JsonParts::Text(t) => Json::Text(t@),
        JsonParts::Array(items) => Json::Array(tree_contents(items@)),
        JsonParts::Object(members) => Json::Object(tree_members(members@)),
    }
}

/// Whether no member is named twice.
spec fn named_once(parts: JsonParts) -> bool {
    match parts {
        JsonParts::Object(members) => distinct_keys(members@),
        _ => true,
    }
}

/// A `serde_json::Value` told apart by its variants. An object names no member twice.
#[verifier::external_body]
fn take_apart(tree: serde_json::Value) -> (out: JsonParts)
    ensures
        parts_content(out) == json_tree(tree),
        named_once(out),
{
    match tree {
        serde_json::Value::Null => JsonParts::Null,
        serde_json::Value::Bool(b) => JsonParts::Bool(b),
        serde_json::Value::Number(n) => JsonParts::Number(n),
        serde_json::Value::String(t) => JsonParts::Text(t),
        serde_json::Value::Array(a) => JsonParts::Array(a),
        serde_json::Value::Object(m) => JsonParts::Object(m.into_iter().collect()),
    }
}

/// A `serde_json::Value` of one of its variants.
#[verifier::external_body]
fn put_together(parts: JsonParts) -> (out: serde_json::Value)
    requires
        named_once(parts),
    ensures
        json_tree(out) == parts_content(parts),
{
    match parts {
        JsonParts::Null => serde_json::Value::Null,
        JsonParts::Bool(b) => serde_json::Value::Bool(b),
        JsonParts::Number(n) => serde_json::Value::Number(n),
        JsonParts::Text(t) => serde_json::Value::String(t),
        JsonParts::Array(a) => serde_json::Value::Array(a),
        JsonParts::Object(m) => serde_json::Value::Object(m.into_iter().collect()),
    }
}

/// Entries with the same keys and the same contents stand for the same members.
proof fn lemma_tree_members(
    entries: Seq<(String, JsonValue)>,
    trees: Seq<(String, serde_json::Value)>,
)
    requires
        entries.len() == trees.len(),
        forall|i: int| 0 <= i < trees.len() ==> (#[trigger] entries[i]).0@ == trees[i].0@,
        forall|i: int| 0 <= i < trees.len() ==> (#[trigger] entries[i]).1@ == json_tree(trees[i].1),
    ensures
        member_contents(entry_map(entries)) == tree_members(trees),
{
    assert forall|key: Seq<char>, i: int| #[trigger] key_at(entries, key, i) implies key_at(
        trees,
        key,
        i,
    ) by {
        assert forall|j: int| 0 <= j < i implies (#[trigger] trees[j]).0@ != key by {
            assert(entries[j].0@ == trees[j].0@);
        }
    }
    assert forall|key: Seq<char>, i: int| #[trigger] key_at(trees, key, i) implies key_at(
        entries,
        key,
        i,
    ) by {}
    assert forall|key: Seq<char>| has_key(entries, key) implies has_key(trees, key) && #[trigger]
        member_contents(entry_map(entries))[key] == tree_members(trees)[key] by {
        let i = key_index(entries, key);
        assert(key_at(entries, key, i));
        assert(key_at(trees, key, i));
        lemma_key_index(entries, key, i);
        lemma_key_index(trees, key, i);
    }
    assert forall|key: Seq<char>| has_key(trees, key) implies #[trigger] has_key(entries, key) by {
        let i = key_index(trees, key);
        assert(key_at(trees, key, i));
        assert(key_at(entries, key, i));
    }
    assert(member_contents(entry_map(entries)) =~= tree_members(trees));
}

/// Take a tree apart, level by level.
pub(crate) fn tree_content(tree: serde_json::Value) -> (out: JsonValue)
    ensures
        out@ == json_tree(tree),
    decreases json_tree(tree),
{
    let ghost content = json_tree(tree);
    match take_apart(tree) {
        JsonParts::Null => JsonValue::Null,
        JsonParts::Bool(b) => JsonValue::Bool(b),
        JsonParts::Number(n) => JsonValue::Number(n),
        JsonParts::Text(t) => JsonValue::Text(t),
        JsonParts::Array(trees) => {
            let ghost all = trees@;
            let mut rest = reversed(trees);
            let mut items: Vec<JsonValue> = Vec::new();
            while rest.len() > 0
                invariant
                    content == Json::Array(tree_contents(all)),
                    content == json_tree(tree),
                    rest@.len() + items@.len() == all.len(),
                    rest@ == all.reverse().take(rest@.len() as int),
                    forall|i: int|
                        0 <= i < items@.len() ==> (#[trigger] items@[i])@ == json_tree(all[i]),
                decreases rest@.len(),
            {
                let ghost k = items@.len() as int;
                match rest.pop() {
                    Some(next) => {
                        proof {
                            assert(next == all[k]);
                            assert(content->Array_0[k] == json_tree(next));
                            assert(decreases_to!(content => content->Array_0[k]));
                        }
                        items.push(tree_content(next));
                    },
                    None => {},
                }
                assert(rest@ =~= all.reverse().take(rest@.len() as int));
            }
            proof {
                lemma_array_content(items);
                assert(contents(items@) =~= tree_contents(all));
            }
            JsonValue::Array(items)
        },
        JsonParts::Object(trees) => {
            let ghost all = trees@;
            let mut rest = reversed(trees);
            let mut entries: Vec<(String, JsonValue)> = Vec::new();
            while rest.len() > 0
                invariant
                    content == Json::Object(tree_members(all)),
                    content == json_tree(tree),
                    distinct_keys(all),
                    rest@.len() + entries@.len() == all.len(),
                    rest@ == all.reverse().take(rest@.len() as int),
                    forall|i: int|
                        0 <= i < entries@.len() ==> (#[trigger] entries@[i]).0@ == all[i].0@,
                    forall|i: int|
                        0 <= i < entries@.len() ==> (#[trigger] entries@[i]).1@ == json_tree(
                            all[i].1,
                        ),
                decreases rest@.len(),
            {
                let ghost k = entries@.len() as int;
                match rest.pop() {
                    Some((key, next)) => {
                        proof {
                            assert((key, next) == all[k]);
                            assert(key_at(all, key@, k));
                            lemma_key_index(all, key@, k);
                            assert(content->Object_0.contains_key(key@));
                            assert(content->Object_0[key@] == json_tree(next));
                            assert(decreases_to!(content => content->Object_0[key@]));
                        }
                        let value = tree_content(next);
                        entries.push((key, value));
                    },
                    None => {},
                }
                assert(rest@ =~= all.reverse().take(rest@.len() as int));
            }
            let members = TextMap { entries };
            proof {
                lemma_tree_members(members.entries@, all);
                lemma_object_content(members);
            }
            JsonValue::Object(members)
        },
    }
}

/// A fresh member goes into both lists alike.
proof fn lemma_fresh_key(
    entries: Seq<(String, JsonValue)>,
    trees: Seq<(String, serde_json::Value)>,
    entry: (String, JsonValue),
    tree: (String, serde_json::Value),
)
    requires
        distinct_keys(trees),
        tree_members(trees) == member_contents(entry_map(entries)),
        forall|j: int| 0 <= j < entries.len() ==> (#[trigger] entries[j]).0@ != entry.0@,
        tree.0@ == entry.0@,
        json_tree(tree.1) == entry.1@,
    ensures
        distinct_keys(trees.push(tree)),
        tree_members(trees.push(tree)) == member_contents(entry_map(entries.push(entry))),
{
    let key = entry.0@;
    assert(!has_key(entries, key));
    assert(!member_contents(entry_map(entries)).contains_key(key));
    assert(!tree_members(trees).contains_key(key));
    assert(!has_key(trees, key));
    assert forall|k: int| 0 <= k < trees.len() implies (#[trigger] trees[k]).0@ != key by {
        if trees[k].0@ == key {
            lemma_entry_has_key(trees, k);
        }
    }
    lemma_push_entry(entries, entry.0, entry.1);
    lemma_push_entry(trees, tree.0, tree.1);
    assert(tree_members(trees.push(tree)) =~= tree_members(trees).insert(key, json_tree(tree.1)));
    assert(member_contents(entry_map(entries.push(entry))) =~= member_contents(
        entry_map(entries),
    ).insert(key, entry.1@));
}

/// Put a tree together, level by level.
fn content_tree(value: &JsonValue) -> (out: serde_json::Value)
    ensures
        json_tree(out) == value@,
    decreases value,
{
    let parts = match value {
        JsonValue::Null => JsonParts::Null,
        JsonValue::Bool(b) => JsonParts::Bool(*b),
        JsonValue::Number(n) => JsonParts::Number(copy_number(n)),
        JsonValue::Text(t) => JsonParts::Text(t.clone()),
        JsonValue::Array(items) => {
            let mut trees: Vec<serde_json::Value> = Vec::new();
            let mut i: usize = 0;
            while i < items.len()
                invariant
                    i <= items@.len(),
                    trees@.len() == i,
                    decreases_to!(value => items),
                    forall|j: int| 0 <= j < i ==> json_tree(#[trigger] trees@[j]) == items@[j]@,
                decreases items@.len() - i,
            {
                trees.push(content_tree(&items[i]));
                i += 1;
            }
            proof {
                lemma_array_content(*items);
                assert(tree_contents(trees@) =~= contents(items@));
            }
            JsonParts::Array(trees)
        },
        JsonValue::Object(members) => {
            let ghost all = members.entries@;
            let mut trees: Vec<(String, serde_json::Value)> = Vec::new();
            let mut i: usize = 0;
            assert(tree_members(trees@) =~= member_contents(entry_map(all.take(0)))) by {
                assert forall|key: Seq<char>| !has_key(all.take(0), key) by {}
            }
            while i < members.entries.len()
                invariant
                    i <= members.entries@.len(),
                    all == members.entries@,
                    decreases_to!(value => members.entries),
                    distinct_keys(trees@),
                    tree_members(trees@) == member_contents(entry_map(all.take(i as int))),
                decreases members.entries@.len() - i,
            {
                let ghost before = trees@;
                let ghost so_far = all.take(i as int);
                let ghost key = all[i as int].0;
                assert(all.take(i as int + 1) =~= so_far.push(all[i as int]));
                let first: usize = first_entry(members, i);
                if first == i {
                    let tree = content_tree(&members.entries[i].1);
                    let name = members.entries[i].0.clone();
                    trees.push((name, tree));
                    proof {
                        lemma_fresh_key(so_far, before, all[i as int], (name, tree));
                    }
                } else {
                    proof {
                        assert(key_at(so_far, key@, first as int)) by {
                            assert forall|j: int| 0 <= j < first implies (#[trigger] so_far[j]).0@
                                != key@ by {
                                assert(all[j].0@ != key@);
                            }
                        }
                        lemma_push_shadowed(so_far, key, all[i as int].1);
                    }
                }
                i += 1;
            }
            proof {
                assert(all.take(i as int) =~= all);
                lemma_object_content(*members);
            }
            JsonParts::Object(trees)
        },
    };
    put_together(parts)
}

/// `serde_json::Number::as_i64`.
#[verifier::external_body]
pub(crate) fn number_i64(number: &serde_json::Number) -> (out: Option<i64>)
    ensures
        out == json_i64(*number),
{
    number.as_i64()
}

/// `serde_json::Number::as_u64`.
#[verifier::external_body]
pub(crate) fn number_u64(number: &serde_json::Number) -> (out: Option<u64>)
    ensures
        out == json_u64(*number),
{
    number.as_u64()
}

/// `serde_json::Number::from` on a signed integer. The number reads back as that integer.
#[verifier::external_body]
pub(crate) fn integer_number(value: i64) -> (out: serde_json::Number)
    ensures
        out == json_integer(value),
        json_i64(out) == Some(value),
{
    serde_json::Number::from(value)
}

/// `Clone::clone` of a `serde_json::Number` gives the same number.
#[verifier::external_body]
fn copy_number(number: &serde_json::Number) -> (out: serde_json::Number)
    ensures
        out == *number,
{
    number.clone()
}

/// What `Debug` writes of a value.
pub uninterp spec fn json_shown(value: Json) -> Seq<char>;

/// `format!` of a `serde_json::Value` with `{:?}`. Members come in the order of their names.
#[verifier::external_body]
fn show_tree(tree: &serde_json::Value) -> (out: String)
    ensures
        out@ == json_shown(json_tree(*tree)),
{
    format!("{tree:?}")
}

/// What `Debug` writes of a value.
pub fn debug_text(value: &JsonValue) -> (out: String)
    ensures
        out@ == json_shown(value@),
{
    show_tree(&content_tree(value))
}

/// The contents of a list of values.
pub open spec fn contents(items: Seq<JsonValue>) -> Seq<Json> {
    items.map_values(|item: JsonValue| item@)
}

/// The contents of the members of an object.
pub open spec fn member_contents(members: Map<Seq<char>, JsonValue>) -> Map<Seq<char>, Json> {
    members.map_values(|value: JsonValue| value@)
}

/// The content of an array is the contents of its items.
pub proof fn lemma_array_content(items: Vec<JsonValue>)
    ensures
        JsonValue::Array(items)@ == Json::Array(contents(items@)),
{
    assert(JsonValue::Array(items)@->Array_0 =~= contents(items@));
}

/// The content of an object is the contents of its members.
pub proof fn lemma_object_content(members: TextMap<JsonValue>)
    ensures
        JsonValue::Object(members)@ == Json::Object(member_contents(members@)),
{
    let object = JsonValue::Object(members)@->Object_0;
    assert forall|key: Seq<char>| has_key(members.entries@, key) implies #[trigger] object[key]
        == member_contents(members@)[key] by {
        let i = key_index(members.entries@, key);
        assert(key_at(members.entries@, key, i));
    }
    assert(object =~= member_contents(members@));
}

/// Parse a JSON text, or say why it is none.
pub fn parse(bytes: &[u8]) -> (out: Result<JsonValue, String>)
    ensures
        match out {
            Ok(value) => json_read(bytes@) == Ok::<Json, Seq<char>>(value@),
            Err(message) => json_read(bytes@) == Err::<Json, Seq<char>>(message@),
        },
{
    match read_tree(bytes) {
        Ok(tree) => Ok(tree_content(tree)),
        Err(message) => Err(message),
    }
}

/// The compact JSON text of a value.
pub fn to_bytes(value: &JsonValue) -> (out: Vec<u8>)
    ensures
        out@ == json_encoded(value@),
        simple_value(value@, SIMPLE_DEPTH as nat) ==> read_back(out@) == Some(value@),
{
    write_tree(&content_tree(value))
}

/// What an object holds under `key`; nothing for any other value.
pub open spec fn member(value: Json, key: Seq<char>) -> Option<Json> {
    match value {
        Json::Object(members) => if members.contains_key(key) {
            Some(members[key])
        } else {
            None
        },
        _ => None,
    }
}

/// The text that an object holds under `key`.
pub open spec fn text_member(value: Json, key: Seq<char>) -> Option<Seq<char>> {
    match member(value, key) {
        Some(Json::Text(text)) => Some(text),
        _ => None,
    }
}

/// The array that an object holds under `key`.
pub open spec fn array_member(value: Json, key: Seq<char>) -> Option<Seq<Json>> {
    match member(value, key) {
        Some(Json::Array(items)) => Some(items),
        _ => None,
    }
}

/// Look a member up by name.
pub fn get_member<'a>(value: &'a JsonValue, key: &str) -> (out: Option<&'a JsonValue>)
    ensures
        seen(out) == member(value@, key@),
{
    match value {
        JsonValue::Object(members) => {
            proof {
                lemma_object_content(*members);
            }
            members.get(key)
        },
        _ => None,
    }
}

/// Look a text member up by name.
pub fn get_text<'a>(value: &'a JsonValue, key: &str) -> (out: Option<&'a String>)
    ensures
        seen(out) == text_member(value@, key@),
{
    match get_member(value, key) {
        Some(JsonValue::Text(text)) => Some(text),
        _ => None,
    }
}

/// Look an array member up by name.
pub fn get_array<'a>(value: &'a JsonValue, key: &str) -> (out: Option<&'a Vec<JsonValue>>)
    ensures
        match out {
            Some(items) => array_member(value@, key@) == Some(contents(items@)),
            None => array_member(value@, key@) is None,
        },
{
    match get_member(value, key) {
        Some(JsonValue::Array(items)) => {
            proof {
                lemma_array_content(*items);
            }
            Some(items)
        },
        _ => None,
    }
}

/// Put a member into an object, in place of any of that name.
pub fn put_member(members: &mut TextMap<JsonValue>, key: &str, value: JsonValue)
    ensures
        member_contents(final(members)@) == member_contents(old(members)@).insert(key@, value@),
{
    assert(member_contents(members@.insert(key@, value)) =~= member_contents(members@).insert(
        key@,
        value@,
    ));
    members.insert(key.to_owned(), value);
}

/// Put a text member into an object, in place of any of that name.
pub fn put_text(members: &mut TextMap<JsonValue>, key: &str, text: &str)
    ensures
        member_contents(final(members)@) == member_contents(old(members)@).insert(
            key@,
            Json::Text(text@),
        ),
{
    put_member(members, key, JsonValue::Text(text.to_owned()));
}

/// The object without members.
pub fn no_members() -> (out: TextMap<JsonValue>)
    ensures
        member_contents(out@) == Map::<Seq<char>, Json>::empty(),
{
    let out: TextMap<JsonValue> = TextMap::new();
    assert(member_contents(out@) =~= Map::<Seq<char>, Json>::empty());
    out
}

impl JsonValue {
    /// A copy of the value.
    pub fn copy(&self) -> (out: JsonValue)
        ensures
            out@ == self@,
        decreases self,
    {
        match self {
            JsonValue::Null => JsonValue::Null,
            JsonValue::Bool(b) => JsonValue::Bool(*b),
            JsonValue::Number(n) => JsonValue::Number(copy_number(n)),
            JsonValue::Text(t) => JsonValue::Text(t.clone()),
            JsonValue::Array(items) => {
                let mut out: Vec<JsonValue> = Vec::new();
                let mut i: usize = 0;
                while i < items.len()
                    invariant
                        i <= items.len(),
                        out.len() == i,
                        forall|j: int| 0 <= j < i ==> (#[trigger] out@[j])@ == items@[j]@,
                        decreases_to!(self => items),
                    decreases items.len() - i,
                {
                    out.push(items[i].copy());
                    i += 1;
                }
                let copied = JsonValue::Array(out);
                assert(copied@->Array_0 =~= self@->Array_0);
                copied
            },
            JsonValue::Object(members) => {
                let mut out: Vec<(String, JsonValue)> = Vec::new();
                let mut i: usize = 0;
                while i < members.entries.len()
                    invariant
                        i <= members.entries.len(),
                        out.len() == i,
                        forall|j: int|
                            0 <= j < i ==> (#[trigger] out@[j]).0@ == members.entries@[j].0@
                                && out@[j].1@ == members.entries@[j].1@,
                        decreases_to!(self => members.entries),
                    decreases members.entries.len() - i,
                {
                    out.push((members.entries[i].0.clone(), members.entries[i].1.copy()));
                    i += 1;
                }
                let copied = TextMap { entries: out };
                proof {
                    lemma_same_entries(members.entries@, copied.entries@);
                    lemma_object_content(*members);
                    lemma_object_content(copied);
                    assert(member_contents(members@) =~= member_contents(copied@));
                }
                JsonValue::Object(copied)
            },
        }
    }
}

} // verus!
