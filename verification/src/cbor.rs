//! CBOR values, their codec, and the readers the rest of the crate looks values up with.
use crate::text::{copy_bytes, seen, str_eq};
use vstd::prelude::*;

verus! {

/// The tag number of an encoded CBOR data item, `#6.24`.
pub const TAG_ENCODED_CBOR: u64 = 24;

/// An integer of the CBOR data model.
#[verifier::external_type_specification]
#[verifier::external_body]
pub struct ExCborInteger(ciborium::value::Integer);

/// A decoded tree of `ciborium`.
#[verifier::external_type_specification]
#[verifier::external_body]
pub struct ExCborTree(ciborium::value::Value);

/// A CBOR data item. A float is kept by its IEEE 754 bits.
#[derive(Debug)]
pub enum CborValue {
    Integer(ciborium::value::Integer),
    Bytes(Vec<u8>),
    Float(u64),
    Text(String),
    Bool(bool),
    Null,
    Tag(u64, Box<CborValue>),
    Array(Vec<CborValue>),
    Pairs(Vec<(CborValue, CborValue)>),
}

/// The mathematical content of a [`CborValue`].
pub enum Cbor {
    Integer(ciborium::value::Integer),
    Bytes(Seq<u8>),
    Float(u64),
    Text(Seq<char>),
    Bool(bool),
    Null,
    Tag(u64, Box<Cbor>),
    Array(Seq<Cbor>),
    Pairs(Seq<(Cbor, Cbor)>),
}

/// The content of an item, read level by level.
pub open spec fn cbor_content(value: CborValue) -> Cbor
    decreases value,
{
    match value {
        CborValue::Integer(i) => Cbor::Integer(i),
        CborValue::Bytes(b) => Cbor::Bytes(b@),
        CborValue::Float(bits) => Cbor::Float(bits),
        CborValue::Text(t) => Cbor::Text(t@),
        CborValue::Bool(b) => Cbor::Bool(b),
        CborValue::Null => Cbor::Null,
        CborValue::Tag(tag, inner) => Cbor::Tag(tag, Box::new(cbor_content(*inner))),
        CborValue::Array(items) => Cbor::Array(
            Seq::new(
                items@.len(),
                |i: int| if 0 <= i < items@.len() { cbor_content(items@[i]) } else { Cbor::Null },
            ),
        ),
        CborValue::Pairs(entries) => Cbor::Pairs(
            Seq::new(
                entries@.len(),
                |i: int|
                    if 0 <= i < entries@.len() {
                        (cbor_content(entries@[i].0), cbor_content(entries@[i].1))
                    } else {
                        (Cbor::Null, Cbor::Null)
                    },
            ),
        ),
    }
}

impl View for CborValue {
    type V = Cbor;

    open spec fn view(&self) -> Cbor {
        cbor_content(*self)
    }
}

/// An integer of the data model as a number.
pub uninterp spec fn cbor_integer(value: ciborium::value::Integer) -> int;

/// What a tree of `ciborium` holds.
pub uninterp spec fn cbor_tree(tree: ciborium::value::Value) -> Cbor;

/// The item at the front of `bytes`, or the message of `ciborium` where it does not accept one.
pub uninterp spec fn cbor_read(bytes: Seq<u8>) -> Result<Cbor, Seq<char>>;

/// The item at the front of `bytes`, where `ciborium` can decode one.
pub open spec fn cbor_decoded(bytes: Seq<u8>) -> Option<Cbor> {
    match cbor_read(bytes) {
        Ok(value) => Some(value),
        Err(_) => None,
    }
}

/// The bytes `ciborium` writes for an item.
pub uninterp spec fn cbor_encoded(value: Cbor) -> Seq<u8>;

/// The item `#6.24(bstr)` around `inner`.
pub open spec fn encoded_item(inner: Seq<u8>) -> Cbor {
    Cbor::Tag(TAG_ENCODED_CBOR, Box::new(Cbor::Bytes(inner)))
}

/// The byte string inside an item of the form `#6.24(bstr)`.
pub open spec fn encoded_item_bytes(value: Cbor) -> Option<Seq<u8>> {
    match value {
        Cbor::Tag(tag, inner) => match *inner {
            Cbor::Bytes(bytes) => if tag == TAG_ENCODED_CBOR {
                Some(bytes)
            } else {
                None
            },
            _ => None,
        },
        _ => None,
    }
}

/// `i128::from` of a `ciborium` integer: its value, which always fits.
#[verifier::external_body]
fn integer_value(value: ciborium::value::Integer) -> (out: i128)
    ensures
        out as int == cbor_integer(value),
{
    i128::from(value)
}

/// `ciborium::from_reader` on a byte slice: the item at the front of the slice, or its error as
/// text where the slice does not start with an item that it accepts. Bytes after the item are not
/// looked at.
#[verifier::external_body]
fn read_tree(bytes: &[u8]) -> (out: Result<ciborium::value::Value, String>)
    ensures
        match out {
            Ok(tree) => cbor_read(bytes@) == Ok::<Cbor, Seq<char>>(cbor_tree(tree)),
            Err(message) => cbor_read(bytes@) == Err::<Cbor, Seq<char>>(message@),
        },
{
    ciborium::from_reader(bytes).map_err(|e| e.to_string())
}

/// How deep an item may be nested for it to be certain that it can be read back.
pub const SIMPLE_DEPTH: u64 = 64;

/// Whether an item is nested at most `depth` deep, and holds no float and no number in the form of
/// a tagged byte string.
pub open spec fn simple_item(value: Cbor, depth: nat) -> bool
    decreases depth,
{
    match value {
        Cbor::Float(_) => false,
        Cbor::Tag(tag, inner) => tag != 2 && tag != 3 && depth > 0 && simple_item(
            *inner,
            (depth - 1) as nat,
        ),
        Cbor::Array(items) => depth > 0 && forall|i: int|
            0 <= i < items.len() ==> simple_item(#[trigger] items[i], (depth - 1) as nat),
        Cbor::Pairs(entries) => depth > 0 && forall|i: int|
            0 <= i < entries.len() ==> simple_item(
                (#[trigger] entries[i]).0,
                (depth - 1) as nat,
            ) && simple_item(entries[i].1, (depth - 1) as nat),
        _ => true,
    }
}

/// `ciborium::into_writer` into memory, which does not fail: the bytes of the tree. What it writes
/// for a simple item is read back as the same item.
#[verifier::external_body]
fn write_tree(tree: &ciborium::value::Value) -> (out: Vec<u8>)
    ensures
        out@ == cbor_encoded(cbor_tree(*tree)),
        simple_item(cbor_tree(*tree), SIMPLE_DEPTH as nat) ==> cbor_decoded(out@) == Some(
            cbor_tree(*tree),
        ),
{
    let mut out: Vec<u8> = Vec::new();
    ciborium::into_writer(tree, &mut out).expect("writing to memory does not fail");
    out
}

/// The outermost level of a tree of `ciborium`.
enum CborParts {
    Integer(ciborium::value::Integer),
    Bytes(Vec<u8>),
    Float(u64),
    Text(String),
    Bool(bool),
    Null,
    Tag(u64, ciborium::value::Value),
    Array(Vec<ciborium::value::Value>),
    Pairs(Vec<(ciborium::value::Value, ciborium::value::Value)>),
}

/// The contents of a list of trees.
spec fn tree_contents(trees: Seq<ciborium::value::Value>) -> Seq<Cbor> {
    trees.map_values(|tree: ciborium::value::Value| cbor_tree(tree))
}

/// The contents of a list of pairs of trees.
spec fn tree_pair_contents(
    pairs: Seq<(ciborium::value::Value, ciborium::value::Value)>,
) -> Seq<(Cbor, Cbor)> {
    pairs.map_values(
        |pair: (ciborium::value::Value, ciborium::value::Value)|
            (cbor_tree(pair.0), cbor_tree(pair.1)),
    )
}

spec fn parts_content(parts: CborParts) -> Cbor {
    match parts {
        CborParts::Integer(i) => Cbor::Integer(i),
        CborParts::Bytes(b) => Cbor::Bytes(b@),
        CborParts::Float(bits) => Cbor::Float(bits),
        CborParts::Text(t) => Cbor::Text(t@),
        CborParts::Bool(b) => Cbor::Bool(b),
        CborParts::Null => Cbor::Null,
        CborParts::Tag(tag, inner) => Cbor::Tag(tag, Box::new(cbor_tree(inner))),
        CborParts::Array(items) => Cbor::Array(tree_contents(items@)),
        CborParts::Pairs(entries) => Cbor::Pairs(tree_pair_contents(entries@)),
    }
}

/// A `ciborium::value::Value` told apart by its variants. The enum is open, but has no other
/// variant than these. A float is taken by its bits.
#[verifier::external_body]
fn take_apart(tree: ciborium::value::Value) -> (out: CborParts)
    ensures
        parts_content(out) == cbor_tree(tree),
{
    match tree {
        ciborium::Value::Integer(i) => CborParts::Integer(i),
        ciborium::Value::Bytes(b) => CborParts::Bytes(b),
        ciborium::Value::Float(f) => CborParts::Float(f.to_bits()),
        ciborium::Value::Text(t) => CborParts::Text(t),
        ciborium::Value::Bool(b) => CborParts::Bool(b),
        ciborium::Value::Tag(t, v) => CborParts::Tag(t, *v),
        ciborium::Value::Array(a) => CborParts::Array(a),
        ciborium::Value::Map(m) => CborParts::Pairs(m),
        _ => CborParts::Null,
    }
}

/// A `ciborium::value::Value` of one of its variants. A float is read from its eight-byte encoding,
/// which keeps every bit.
#[verifier::external_body]
fn put_together(parts: CborParts) -> (out: ciborium::value::Value)
    ensures
        cbor_tree(out) == parts_content(parts),
{
    match parts {
        CborParts::Integer(i) => ciborium::Value::Integer(i),
        CborParts::Bytes(b) => ciborium::Value::Bytes(b),
        CborParts::Float(bits) => {
            ciborium::from_reader([&[0xfb][..], &bits.to_be_bytes()].concat().as_slice()).unwrap()
        },
        CborParts::Text(t) => ciborium::Value::Text(t),
        CborParts::Bool(b) => ciborium::Value::Bool(b),
        CborParts::Null => ciborium::Value::Null,
        CborParts::Tag(t, v) => ciborium::Value::Tag(t, Box::new(v)),
        CborParts::Array(a) => ciborium::Value::Array(a),
        CborParts::Pairs(m) => ciborium::Value::Map(m),
    }
}

/// A list back to front.
pub(crate) fn reversed<T>(items: Vec<T>) -> (out: Vec<T>)
    ensures
        out@ == items@.reverse(),
{
    let mut rest = items;
    let mut out: Vec<T> = Vec::new();
    while rest.len() > 0
        invariant
            rest@ == items@.take(rest@.len() as int),
            rest@.len() + out@.len() == items@.len(),
            forall|i: int| 0 <= i < out@.len() ==> out@[i] == items@[items@.len() - 1 - i],
        decreases rest@.len(),
    {
        match rest.pop() {
            Some(item) => {
                out.push(item);
            },
            None => {},
        }
        assert(rest@ =~= items@.take(rest@.len() as int));
    }
    assert(out@ =~= items@.reverse());
    out
}

/// Take a tree apart, level by level.
pub(crate) fn tree_content(tree: ciborium::value::Value) -> (out: CborValue)
    ensures
        out@ == cbor_tree(tree),
    decreases cbor_tree(tree),
{
    let ghost content = cbor_tree(tree);
    match take_apart(tree) {
        CborParts::Integer(i) => CborValue::Integer(i),
        CborParts::Bytes(b) => CborValue::Bytes(b),
        CborParts::Float(bits) => CborValue::Float(bits),
        CborParts::Text(t) => CborValue::Text(t),
        CborParts::Bool(b) => CborValue::Bool(b),
        CborParts::Null => CborValue::Null,
        CborParts::Tag(tag, inner) => {
            proof {
                assert(*content->Tag_1 == cbor_tree(inner));
                assert(decreases_to!(content => content->Tag_1));
            }
            let inside = tree_content(inner);
            CborValue::Tag(tag, Box::new(inside))
        },
        CborParts::Array(trees) => {
            let ghost all = trees@;
            let mut rest = reversed(trees);
            let mut items: Vec<CborValue> = Vec::new();
            while rest.len() > 0
                invariant
                    content == Cbor::Array(tree_contents(all)),
                    content == cbor_tree(tree),
                    rest@.len() + items@.len() == all.len(),
                    rest@ == all.reverse().take(rest@.len() as int),
                    forall|i: int|
                        0 <= i < items@.len() ==> (#[trigger] items@[i])@ == cbor_tree(all[i]),
                decreases rest@.len(),
            {
                let ghost k = items@.len() as int;
                match rest.pop() {
                    Some(next) => {
                        proof {
                            assert(next == all[k]);
                            assert(tree_contents(all)[k] == cbor_tree(next));
                            assert(content->Array_0[k] == cbor_tree(next));
                            assert(decreases_to!(content => content->Array_0[k]));
                        }
                        items.push(tree_content(next));
                    },
                    None => {},
                }
                assert(rest@ =~= all.reverse().take(rest@.len() as int));
            }
            proof {
                lemma_array_content(items);
                assert(contents(items@) =~= tree_contents(all));
            }
            CborValue::Array(items)
        },
        CborParts::Pairs(trees) => {
            let ghost all = trees@;
            let mut rest = reversed(trees);
            let mut entries: Vec<(CborValue, CborValue)> = Vec::new();
            while rest.len() > 0
                invariant
                    content == Cbor::Pairs(tree_pair_contents(all)),
                    content == cbor_tree(tree),
                    rest@.len() + entries@.len() == all.len(),
                    rest@ == all.reverse().take(rest@.len() as int),
                    forall|i: int|
                        0 <= i < entries@.len() ==> (#[trigger] entries@[i]).0@ == cbor_tree(
                            all[i].0,
                        ) && entries@[i].1@ == cbor_tree(all[i].1),
                decreases rest@.len(),
            {
                let ghost k = entries@.len() as int;
                match rest.pop() {
                    Some((key, value)) => {
                        proof {
                            assert((key, value) == all[k]);
                            assert(tree_pair_contents(all)[k] == (cbor_tree(key), cbor_tree(value)));
                            assert(content->Pairs_0[k] == (cbor_tree(key), cbor_tree(value)));
                            assert(decreases_to!(content => content->Pairs_0[k].0));
                            assert(decreases_to!(content => content->Pairs_0[k].1));
                        }
                        let first = tree_content(key);
                        let second = tree_content(value);
                        entries.push((first, second));
                    },
                    None => {},
                }
                assert(rest@ =~= all.reverse().take(rest@.len() as int));
            }
            proof {
                lemma_pairs_content(entries);
                assert(pair_contents(entries@) =~= tree_pair_contents(all));
            }
            CborValue::Pairs(entries)
        },
    }
}

/// Put a tree together, level by level.
pub(crate) fn content_tree(value: &CborValue) -> (out: ciborium::value::Value)
    ensures
        cbor_tree(out) == value@,
    decreases value,
{
    let parts = match value {
        CborValue::Integer(i) => CborParts::Integer(*i),
        CborValue::Bytes(b) => CborParts::Bytes(copy_bytes(b)),
        CborValue::Float(bits) => CborParts::Float(*bits),
        CborValue::Text(t) => CborParts::Text(t.clone()),
        CborValue::Bool(b) => CborParts::Bool(*b),
        CborValue::Null => CborParts::Null,
        CborValue::Tag(tag, inner) => {
            let tree = content_tree(&**inner);
            CborParts::Tag(*tag, tree)
        },
        CborValue::Array(items) => {
            let mut trees: Vec<ciborium::value::Value> = Vec::new();
            let mut i: usize = 0;
            while i < items.len()
                invariant
                    i <= items@.len(),
                    trees@.len() == i,
                    decreases_to!(value => items),
                    forall|j: int|
                        0 <= j < i ==> cbor_tree(#[trigger] trees@[j]) == items@[j]@,
                decreases items@.len() - i,
            {
                trees.push(content_tree(&items[i]));
                i += 1;
            }
            proof {
                lemma_array_content(*items);
                assert(tree_contents(trees@) =~= contents(items@));
            }
            CborParts::Array(trees)
        },
        CborValue::Pairs(entries) => {
            let mut trees: Vec<(ciborium::value::Value, ciborium::value::Value)> = Vec::new();
            let mut i: usize = 0;
            while i < entries.len()
                invariant
                    i <= entries@.len(),
                    trees@.len() == i,
                    decreases_to!(value => entries),
                    forall|j: int|
                        0 <= j < i ==> cbor_tree((#[trigger] trees@[j]).0) == entries@[j].0@
                            && cbor_tree(trees@[j].1) == entries@[j].1@,
                decreases entries@.len() - i,
            {
                trees.push((content_tree(&entries[i].0), content_tree(&entries[i].1)));
                i += 1;
            }
            proof {
                lemma_pairs_content(*entries);
                assert(tree_pair_contents(trees@) =~= pair_contents(entries@));
            }
            CborParts::Pairs(trees)
        },
    };
    put_together(parts)
}

/// Decode the item at the front of `bytes`.
pub fn decode(bytes: &[u8]) -> (out: Option<CborValue>)
    ensures
        seen(out) == cbor_decoded(bytes@),
{
    match read_tree(bytes) {
        Ok(tree) => Some(tree_content(tree)),
        Err(_) => None,
    }
}

/// Decode the item at the front of `bytes`, or say why there is none.
pub fn decode_or_message(bytes: &[u8]) -> (out: Result<CborValue, String>)
    ensures
        match out {
            Ok(value) => cbor_read(bytes@) == Ok::<Cbor, Seq<char>>(value@),
            Err(message) => cbor_read(bytes@) == Err::<Cbor, Seq<char>>(message@),
        },
{
    match read_tree(bytes) {
        Ok(tree) => Ok(tree_content(tree)),
        Err(message) => Err(message),
    }
}

/// Encode an item. A simple one can be read back from the bytes.
pub fn cbor_to_vec(value: &CborValue) -> (out: Vec<u8>)
    ensures
        out@ == cbor_encoded(value@),
        simple_item(value@, SIMPLE_DEPTH as nat) ==> cbor_decoded(out@) == Some(value@),
{
    write_tree(&content_tree(value))
}

/// Encode `inner` as an item of the form `#6.24(bstr)`.
pub fn encode_tagged_cbor(inner: &[u8]) -> (out: Vec<u8>)
    ensures
        out@ == cbor_encoded(encoded_item(inner@)),
        cbor_decoded(out@) == Some(encoded_item(inner@)),
{
    let value = CborValue::Tag(
        TAG_ENCODED_CBOR,
        Box::new(CborValue::Bytes(vstd::slice::slice_to_vec(inner))),
    );
    proof {
        reveal_with_fuel(cbor_content, 2);
        reveal_with_fuel(simple_item, 2);
    }
    cbor_to_vec(&value)
}

/// The byte string inside an item of the form `#6.24(bstr)`; nothing for any other item.
pub fn unwrap_tagged_cbor_payload(value: &CborValue) -> (out: Option<Vec<u8>>)
    ensures
        seen(out) == encoded_item_bytes(value@),
{
    proof {
        reveal_with_fuel(cbor_content, 2);
    }
    match value {
        CborValue::Tag(tag, inner) => {
            if *tag != TAG_ENCODED_CBOR {
                return None;
            }
            match &**inner {
                CborValue::Bytes(bytes) => Some(copy_bytes(bytes)),
                _ => None,
            }
        },
        _ => None,
    }
}

/// Unwrapping what was wrapped gives the wrapped bytes back: at the level of items, and through
/// the encoder and the decoder.
pub proof fn law_encoded_item_round_trip(inner: Seq<u8>)
    ensures
        encoded_item_bytes(encoded_item(inner)) == Some(inner),
        forall|value: Cbor|
            #[trigger] encoded_item_bytes(value) == Some(inner) ==> value == encoded_item(inner),
{
    assert forall|value: Cbor| #[trigger] encoded_item_bytes(value) == Some(inner) implies value
        == encoded_item(inner) by {
        assert(*value->Tag_1 == Cbor::Bytes(inner));
    }
}

/// The value of the first entry whose key is the text `key`.
pub open spec fn entry_value(entries: Seq<(Cbor, Cbor)>, key: Seq<char>) -> Option<Cbor>
    decreases entries.len(),
{
    if entries.len() == 0 {
        None
    } else if entries[0].0 == Cbor::Text(key) {
        Some(entries[0].1)
    } else {
        entry_value(entries.drop_first(), key)
    }
}

/// What a map item holds under the text `key`.
pub open spec fn map_entry(value: Cbor, key: Seq<char>) -> Option<Cbor> {
    match value {
        Cbor::Pairs(entries) => entry_value(entries, key),
        _ => None,
    }
}

/// The text that a map item holds under `key`.
pub open spec fn text_entry(value: Cbor, key: Seq<char>) -> Option<Seq<char>> {
    match map_entry(value, key) {
        Some(Cbor::Text(text)) => Some(text),
        _ => None,
    }
}

/// An integer item as a 64-bit integer, where it fits.
pub open spec fn integer_of(value: Cbor) -> Option<i64> {
    match value {
        Cbor::Integer(i) => if i64::MIN <= cbor_integer(i) <= i64::MAX {
            Some(cbor_integer(i) as i64)
        } else {
            None
        },
        _ => None,
    }
}

/// The 64-bit integer that a map item holds under the text `key`.
pub open spec fn integer_entry(value: Cbor, key: Seq<char>) -> Option<i64> {
    match map_entry(value, key) {
        Some(found) => integer_of(found),
        None => None,
    }
}

/// The array that a map item holds under the text `key`.
pub open spec fn array_entry(value: Cbor, key: Seq<char>) -> Option<Seq<Cbor>> {
    match map_entry(value, key) {
        Some(Cbor::Array(items)) => Some(items),
        _ => None,
    }
}

/// The contents of a list of items.
pub open spec fn contents(items: Seq<CborValue>) -> Seq<Cbor> {
    items.map_values(|item: CborValue| item@)
}

/// The contents of a list of map entries.
pub open spec fn pair_contents(entries: Seq<(CborValue, CborValue)>) -> Seq<(Cbor, Cbor)> {
    entries.map_values(|entry: (CborValue, CborValue)| (entry.0@, entry.1@))
}

/// The content of an array item is the contents of its items.
pub proof fn lemma_array_content(items: Vec<CborValue>)
    ensures
        CborValue::Array(items)@ == Cbor::Array(contents(items@)),
{
    assert(CborValue::Array(items)@->Array_0 =~= contents(items@));
}

/// The content of a map item is the contents of its entries.
pub proof fn lemma_pairs_content(entries: Vec<(CborValue, CborValue)>)
    ensures
        CborValue::Pairs(entries)@ == Cbor::Pairs(pair_contents(entries@)),
{
    assert(CborValue::Pairs(entries)@->Pairs_0 =~= pair_contents(entries@));
}

/// Look up a text key in a map item.
pub fn get_map_entry<'a>(value: &'a CborValue, key: &str) -> (out: Option<&'a CborValue>)
    ensures
        seen(out) == map_entry(value@, key@),
{
    match value {
        CborValue::Pairs(entries) => {
            proof {
                lemma_pairs_content(*entries);
            }
            let ghost all = pair_contents(entries@);
            let mut i: usize = 0;
            assert(all.skip(0) =~= all);
            while i < entries.len()
                invariant
                    i <= entries.len(),
                    all == pair_contents(entries@),
                    value@ == Cbor::Pairs(all),
                    entry_value(all, key@) == entry_value(all.skip(i as int), key@),
                decreases entries.len() - i,
            {
                assert(all.skip(i as int)[0] == (entries@[i as int].0@, entries@[i as int].1@));
                if let CborValue::Text(text) = &entries[i].0 {
                    if str_eq(text.as_str(), key) {
                        assert(entries@[i as int].0@ == Cbor::Text(key@));
                        return Some(&entries[i].1);
                    }
                }
                assert(all.skip(i as int).drop_first() =~= all.skip(i as int + 1));
                i += 1;
            }
            None
        },
        _ => None,
    }
}

/// Look up a text under a text key in a map item.
pub fn get_text(value: &CborValue, key: &str) -> (out: Option<String>)
    ensures
        seen(out) == text_entry(value@, key@),
{
    match get_map_entry(value, key) {
        Some(CborValue::Text(text)) => Some(text.clone()),
        _ => None,
    }
}

/// Read an integer item as a 64-bit integer.
pub fn integer_label(value: &CborValue) -> (out: Option<i64>)
    ensures
        out == integer_of(value@),
{
    match value {
        CborValue::Integer(i) => {
            let wide: i128 = integer_value(*i);
            if -0x8000_0000_0000_0000i128 <= wide && wide <= 0x7fff_ffff_ffff_ffffi128 {
                Some(wide as i64)
            } else {
                None
            }
        },
        _ => None,
    }
}

/// Look up an integer under a text key in a map item.
pub fn get_integer(value: &CborValue, key: &str) -> (out: Option<i64>)
    ensures
        out == integer_entry(value@, key@),
{
    match get_map_entry(value, key) {
        Some(found) => integer_label(found),
        None => None,
    }
}

/// Look up an array under a text key in a map item.
pub fn get_array<'a>(value: &'a CborValue, key: &str) -> (out: Option<&'a Vec<CborValue>>)
    ensures
        match out {
            Some(items) => array_entry(value@, key@) == Some(contents(items@)),
            None => array_entry(value@, key@) is None,
        },
{
    match get_map_entry(value, key) {
        Some(CborValue::Array(items)) => {
            proof {
                lemma_array_content(*items);
            }
            Some(items)
        },
        _ => None,
    }
}

impl CborValue {
    /// A copy of the item.
    pub fn copy(&self) -> (out: CborValue)
        ensures
            out@ == self@,
        decreases self,
    {
        match self {
            CborValue::Integer(i) => CborValue::Integer(*i),
            CborValue::Bytes(b) => CborValue::Bytes(copy_bytes(b)),
            CborValue::Float(bits) => CborValue::Float(*bits),
            CborValue::Text(t) => CborValue::Text(t.clone()),
            CborValue::Bool(b) => CborValue::Bool(*b),
            CborValue::Null => CborValue::Null,
            CborValue::Tag(tag, inner) => CborValue::Tag(*tag, Box::new(inner.copy())),
            CborValue::Array(items) => {
                let mut out: Vec<CborValue> = Vec::new();
                let mut i: usize = 0;
                while i < items.len()
                    invariant
                        i <= items.len(),
                        out.len() == i,
                        forall|j: int| 0 <= j < i ==> (#[trigger] out@[j])@ == items@[j]@,
                        decreases_to!(self => items),
                    decreases items.len() - i,
                {
                    out.push(items[i].copy());
                    i += 1;
                }
                let r = CborValue::Array(out);
                assert(r@->Array_0 =~= self@->Array_0);
                r
            },
            CborValue::Pairs(entries) => {
                let mut out: Vec<(CborValue, CborValue)> = Vec::new();
                let mut i: usize = 0;
                while i < entries.len()
                    invariant
                        i <= entries.len(),
                        out.len() == i,
                        forall|j: int|
                            0 <= j < i ==> (#[trigger] out@[j]).0@ == entries@[j].0@
                                && out@[j].1@ == entries@[j].1@,
                        decreases_to!(self => entries),
                    decreases entries.len() - i,
                {
                    out.push((entries[i].0.copy(), entries[i].1.copy()));
                    i += 1;
                }
                let r = CborValue::Pairs(out);
                assert(r@->Pairs_0 =~= self@->Pairs_0);
                r
            },
        }
    }
}

} // verus!
