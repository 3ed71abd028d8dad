//! The `IssuerSignedItem`s of a response, captured together with their bytes on the wire.
use crate::cbor::{
    cbor_decoded, decode, get_integer, get_map_entry, get_text, integer_entry, map_entry,
    text_entry, Cbor, CborValue,
};
use crate::mdoc::cursor::{count_at, skip_at, tagged_bstr_at, text_at, CborCursor};
use crate::text::{seen, str_eq};
use crate::text_map::TextMap;
use vstd::prelude::*;

verus! {

/// One `IssuerSignedItem` on the wire: the exact bytes that are hashed, and what those same bytes
/// decode to.
#[derive(Debug)]
pub struct RawIssuerItem<'a> {
    /// The span of the element `#6.24(bstr)`.
    pub raw_bytes: &'a [u8],
    /// The `digestID` of the item.
    pub digest_id: i64,
    /// The `elementIdentifier` of the item.
    pub identifier: String,
    /// The decoded item.
    pub item: CborValue,
}

/// The mathematical content of a [`RawIssuerItem`].
pub struct RawItem {
    pub raw_bytes: Seq<u8>,
    pub digest_id: i64,
    pub identifier: Seq<char>,
    pub item: Cbor,
}

impl<'a> View for RawIssuerItem<'a> {
    type V = RawItem;

    open spec fn view(&self) -> RawItem {
        RawItem {
            raw_bytes: self.raw_bytes@,
            digest_id: self.digest_id,
            identifier: self.identifier@,
            item: self.item@,
        }
    }
}

/// The captured items of one document by namespace, in the order of the wire.
pub type RawDocumentItems<'a> = TextMap<Vec<RawIssuerItem<'a>>>;

/// The contents of a list of captured items.
pub open spec fn raw_items(items: Seq<RawIssuerItem<'_>>) -> Seq<RawItem> {
    items.map_values(|item: RawIssuerItem| item@)
}

/// The contents of the captured items of a document.
pub open spec fn document_items(items: Map<Seq<char>, Vec<RawIssuerItem<'_>>>) -> Map<
    Seq<char>,
    Seq<RawItem>,
> {
    items.map_values(|list: Vec<RawIssuerItem>| raw_items(list@))
}

/// The contents of the captured items of all documents.
pub open spec fn response_items(items: Seq<RawDocumentItems<'_>>) -> Seq<
    Map<Seq<char>, Seq<RawItem>>,
> {
    items.map_values(|document: RawDocumentItems| document_items(document@))
}

/// The item whose wire form is `raw_bytes` and whose byte string holds `inner`: it must decode to a
/// map with an integer `digestID`, a text `elementIdentifier` and an `elementValue`.
pub open spec fn item_of(raw_bytes: Seq<u8>, inner: Seq<u8>) -> Option<RawItem> {
    match cbor_decoded(inner) {
        Some(item) => match (
            integer_entry(item, "digestID"@),
            text_entry(item, "elementIdentifier"@),
            map_entry(item, "elementValue"@),
        ) {
            (Some(digest_id), Some(identifier), Some(_)) => Some(
                RawItem { raw_bytes, digest_id, identifier, item },
            ),
            _ => None,
        },
        None => None,
    }
}

/// The items of an array of `n` elements at `pos`, behind those of `found`. An element that is no
/// `#6.24(bstr)` ends the walk; one whose byte string holds no item is passed over.
pub open spec fn items_at(input: Seq<u8>, pos: int, n: int, found: Seq<RawItem>) -> (
    Option<Seq<RawItem>>,
    int,
)
    decreases n,
{
    if n <= 0 {
        (Some(found), pos)
    } else {
        match tagged_bstr_at(input, pos) {
            (Some((raw, inner)), next) => items_at(
                input,
                next,
                n - 1,
                match item_of(raw, inner) {
                    Some(item) => found.push(item),
                    None => found,
                },
            ),
            (None, next) => (None, next),
        }
    }
}

/// The position behind a key that is no text and its value.
pub open spec fn skip_entry_at(input: Seq<u8>, pos: int) -> (bool, int) {
    let (key_there, after_key) = skip_at(input, pos, 1);
    if key_there {
        skip_at(input, after_key, 1)
    } else {
        (false, after_key)
    }
}

/// What is found under `key`, or nothing yet.
pub open spec fn items_under(found: Map<Seq<char>, Seq<RawItem>>, key: Seq<char>) -> Seq<RawItem> {
    if found.contains_key(key) {
        found[key]
    } else {
        Seq::empty()
    }
}

/// The items of `n` namespaces at `pos`, added to `found`.
pub open spec fn name_spaces_at(
    input: Seq<u8>,
    pos: int,
    n: int,
    found: Map<Seq<char>, Seq<RawItem>>,
) -> (Option<Map<Seq<char>, Seq<RawItem>>>, int)
    decreases n,
{
    if n <= 0 {
        (Some(found), pos)
    } else {
        match text_at(input, pos) {
            (Some(name_space), at_items) => match count_at(input, at_items, 4) {
                (Some(count), first) => match items_at(
                    input,
                    first,
                    count as int,
                    items_under(found, name_space),
                ) {
                    (Some(items), next) => name_spaces_at(
                        input,
                        next,
                        n - 1,
                        found.insert(name_space, items),
                    ),
                    (None, next) => (None, next),
                },
                (None, next) => (None, next),
            },
            (None, _) => match skip_entry_at(input, pos) {
                (true, next) => name_spaces_at(input, next, n - 1, found),
                (false, next) => (None, next),
            },
        }
    }
}

/// The items of the `nameSpaces` map at `pos`, added to `found`.
pub open spec fn name_spaces_map_at(
    input: Seq<u8>,
    pos: int,
    found: Map<Seq<char>, Seq<RawItem>>,
) -> (Option<Map<Seq<char>, Seq<RawItem>>>, int) {
    match count_at(input, pos, 5) {
        (Some(count), first) => name_spaces_at(input, first, count as int, found),
        (None, next) => (None, next),
    }
}

/// The items of `n` entries of an `issuerSigned` map at `pos`, added to `found`.
pub open spec fn issuer_signed_at(
    input: Seq<u8>,
    pos: int,
    n: int,
    found: Map<Seq<char>, Seq<RawItem>>,
) -> (Option<Map<Seq<char>, Seq<RawItem>>>, int)
    decreases n,
{
    if n <= 0 {
        (Some(found), pos)
    } else {
        match text_at(input, pos) {
            (Some(key), at_value) => if key == "nameSpaces"@ {
                match name_spaces_map_at(input, at_value, found) {
                    (Some(more), next) => issuer_signed_at(input, next, n - 1, more),
                    (None, next) => (None, next),
                }
            } else {
                match skip_at(input, at_value, 1) {
                    (true, next) => issuer_signed_at(input, next, n - 1, found),
                    (false, next) => (None, next),
                }
            },
            (None, _) => match skip_entry_at(input, pos) {
                (true, next) => issuer_signed_at(input, next, n - 1, found),
                (false, next) => (None, next),
            },
        }
    }
}

/// The items of the `issuerSigned` map at `pos`, added to `found`.
pub open spec fn issuer_signed_map_at(
    input: Seq<u8>,
    pos: int,
    found: Map<Seq<char>, Seq<RawItem>>,
) -> (Option<Map<Seq<char>, Seq<RawItem>>>, int) {
    match count_at(input, pos, 5) {
        (Some(count), first) => issuer_signed_at(input, first, count as int, found),
        (None, next) => (None, next),
    }
}

/// The items of `n` entries of a document map at `pos`, added to `found`.
pub open spec fn document_at(
    input: Seq<u8>,
    pos: int,
    n: int,
    found: Map<Seq<char>, Seq<RawItem>>,
) -> (Option<Map<Seq<char>, Seq<RawItem>>>, int)
    decreases n,
{
    if n <= 0 {
        (Some(found), pos)
    } else {
        match text_at(input, pos) {
            (Some(key), at_value) => if key == "issuerSigned"@ {
                match issuer_signed_map_at(input, at_value, found) {
                    (Some(more), next) => document_at(input, next, n - 1, more),
                    (None, next) => (None, next),
                }
            } else {
                match skip_at(input, at_value, 1) {
                    (true, next) => document_at(input, next, n - 1, found),
                    (false, next) => (None, next),
                }
            },
            (None, _) => match skip_entry_at(input, pos) {
                (true, next) => document_at(input, next, n - 1, found),
                (false, next) => (None, next),
            },
        }
    }
}

/// The items of the document map at `pos`.
pub open spec fn document_map_at(input: Seq<u8>, pos: int) -> (
    Option<Map<Seq<char>, Seq<RawItem>>>,
    int,
) {
    match count_at(input, pos, 5) {
        (Some(count), first) => document_at(input, first, count as int, Map::empty()),
        (None, next) => (None, next),
    }
}

/// What was found in a document; nothing where the walk through it failed.
pub open spec fn found_or_empty(found: Option<Map<Seq<char>, Seq<RawItem>>>) -> Map<
    Seq<char>,
    Seq<RawItem>,
> {
    match found {
        Some(found) => found,
        None => Map::empty(),
    }
}

/// The items of `n` documents at `pos`, behind those of `found`.
pub open spec fn documents_at(
    input: Seq<u8>,
    pos: int,
    n: int,
    found: Seq<Map<Seq<char>, Seq<RawItem>>>,
) -> (Seq<Map<Seq<char>, Seq<RawItem>>>, int)
    decreases n,
{
    if n <= 0 {
        (found, pos)
    } else {
        let (document, next) = document_map_at(input, pos);
        documents_at(input, next, n - 1, found.push(found_or_empty(document)))
    }
}

/// The items of the documents in `n` entries of a response map at `pos`, behind those of `found`.
pub open spec fn response_at(
    input: Seq<u8>,
    pos: int,
    n: int,
    found: Seq<Map<Seq<char>, Seq<RawItem>>>,
) -> Seq<Map<Seq<char>, Seq<RawItem>>>
    decreases n,
{
    if n <= 0 {
        found
    } else {
        match text_at(input, pos) {
            (Some(key), at_value) => if key == "documents"@ {
                match count_at(input, at_value, 4) {
                    (Some(count), first) => {
                        let (more, next) = documents_at(input, first, count as int, found);
                        response_at(input, next, n - 1, more)
                    },
                    (None, _) => found,
                }
            } else {
                match skip_at(input, at_value, 1) {
                    (true, next) => response_at(input, next, n - 1, found),
                    (false, _) => found,
                }
            },
            (None, _) => match skip_entry_at(input, pos) {
                (true, next) => response_at(input, next, n - 1, found),
                (false, _) => found,
            },
        }
    }
}

/// The items of every document of a response, in the order of the documents.
pub open spec fn items_of_response(input: Seq<u8>) -> Seq<Map<Seq<char>, Seq<RawItem>>> {
    match count_at(input, 0, 5) {
        (Some(count), first) => response_at(input, first, count as int, Seq::empty()),
        (None, _) => Seq::empty(),
    }
}

/// Decode the item whose wire form is `raw_bytes` and whose byte string holds `inner`.
pub fn decode_raw_issuer_item<'a>(raw_bytes: &'a [u8], inner: &[u8]) -> (out: Option<
    RawIssuerItem<'a>,
>)
    ensures
        seen(out) == item_of(raw_bytes@, inner@),
{
    let item = match decode(inner) {
        Some(item) => item,
        None => {
            return None;
        },
    };
    let digest_id: i64 = match get_integer(&item, "digestID") {
        Some(digest_id) => digest_id,
        None => {
            return None;
        },
    };
    let identifier = match get_text(&item, "elementIdentifier") {
        Some(identifier) => identifier,
        None => {
            return None;
        },
    };
    if get_map_entry(&item, "elementValue").is_none() {
        return None;
    }
    Some(RawIssuerItem { raw_bytes, digest_id, identifier, item })
}

/// Skip a key that is no text, and its value.
fn skip_entry<'a>(cursor: &mut CborCursor<'a>) -> (out: Option<()>)
    ensures
        final(cursor).input@ == old(cursor).input@,
        (out is Some, final(cursor).pos as int) == skip_entry_at(
            old(cursor).input@,
            old(cursor).pos as int,
        ),
{
    match cursor.skip_item() {
        Some(_) => cursor.skip_item(),
        None => None,
    }
}

/// Capture the items of an array of `count` elements, behind those of `found`.
fn scan_items<'a>(cursor: &mut CborCursor<'a>, count: u64, found: Vec<RawIssuerItem<'a>>) -> (out:
    Option<Vec<RawIssuerItem<'a>>>)
    ensures
        final(cursor).input@ == old(cursor).input@,
        (
            match out {
                Some(items) => Some(raw_items(items@)),
                None => None,
            },
            final(cursor).pos as int,
        ) == items_at(
            old(cursor).input@,
            old(cursor).pos as int,
            count as int,
            raw_items(found@),
        ),
{
    let mut items = found;
    let mut left: u64 = count;
    while left > 0
        invariant
            cursor.input@ == old(cursor).input@,
            items_at(
                old(cursor).input@,
                old(cursor).pos as int,
                count as int,
                raw_items(found@),
            ) == items_at(cursor.input@, cursor.pos as int, left as int, raw_items(items@)),
        decreases left,
    {
        let (raw, inner) = match cursor.take_tagged_bstr_item() {
            Some(spans) => spans,
            None => {
                return None;
            },
        };
        if let Some(record) = decode_raw_issuer_item(raw, inner) {
            assert(raw_items(items@.push(record)) =~= raw_items(items@).push(record@));
            items.push(record);
        }
        left = left - 1;
    }
    Some(items)
}

/// Capture the items of a `nameSpaces` map, added to `found`.
pub fn scan_name_spaces<'a>(cursor: &mut CborCursor<'a>, found: RawDocumentItems<'a>) -> (out:
    Option<RawDocumentItems<'a>>)
    ensures
        final(cursor).input@ == old(cursor).input@,
        (
            match out {
                Some(items) => Some(document_items(items@)),
                None => None,
            },
            final(cursor).pos as int,
        ) == name_spaces_map_at(
            old(cursor).input@,
            old(cursor).pos as int,
            document_items(found@),
        ),
{
    let count: u64 = match cursor.read_map_len() {
        Some(count) => count,
        None => {
            return None;
        },
    };
    let ghost first = cursor.pos as int;
    let mut items = found;
    let mut left: u64 = count;
    while left > 0
        invariant
            cursor.input@ == old(cursor).input@,
            name_spaces_at(cursor.input@, first, count as int, document_items(found@))
                == name_spaces_at(
                cursor.input@,
                cursor.pos as int,
                left as int,
                document_items(items@),
            ),
            name_spaces_map_at(
                old(cursor).input@,
                old(cursor).pos as int,
                document_items(found@),
            ) == name_spaces_at(cursor.input@, first, count as int, document_items(found@)),
        decreases left,
    {
        let key_start: usize = cursor.pos;
        match cursor.take_text() {
            Some(name_space) => {
                let list_count: u64 = match cursor.read_array_len() {
                    Some(list_count) => list_count,
                    None => {
                        return None;
                    },
                };
                let ghost before = items@;
                let prior = match items.remove(name_space.as_str()) {
                    Some(prior) => prior,
                    None => Vec::new(),
                };
                assert(raw_items(prior@) =~= items_under(document_items(before), name_space@));
                let list = match scan_items(cursor, list_count, prior) {
                    Some(list) => list,
                    None => {
                        return None;
                    },
                };
                let ghost grown = before.insert(name_space@, list);
                assert(before.remove(name_space@).insert(name_space@, list) =~= grown);
                assert(document_items(grown) =~= document_items(before).insert(
                    name_space@,
                    raw_items(list@),
                ));
                items.insert(name_space, list);
            },
            None => {
                cursor.pos = key_start;
                if skip_entry(cursor).is_none() {
                    return None;
                }
            },
        }
        left = left - 1;
    }
    Some(items)
}

/// Capture the items of an `issuerSigned` map, added to `found`.
fn scan_issuer_signed<'a>(cursor: &mut CborCursor<'a>, found: RawDocumentItems<'a>) -> (out: Option<
    RawDocumentItems<'a>,
>)
    ensures
        final(cursor).input@ == old(cursor).input@,
        (
            match out {
                Some(items) => Some(document_items(items@)),
                None => None,
            },
            final(cursor).pos as int,
        ) == issuer_signed_map_at(
            old(cursor).input@,
            old(cursor).pos as int,
            document_items(found@),
        ),
{
    let count: u64 = match cursor.read_map_len() {
        Some(count) => count,
        None => {
            return None;
        },
    };
    let ghost first = cursor.pos as int;
    let mut items = found;
    let mut left: u64 = count;
    while left > 0
        invariant
            cursor.input@ == old(cursor).input@,
            issuer_signed_map_at(
                old(cursor).input@,
                old(cursor).pos as int,
                document_items(found@),
            ) == issuer_signed_at(
                cursor.input@,
                cursor.pos as int,
                left as int,
                document_items(items@),
            ),
        decreases left,
    {
        let key_start: usize = cursor.pos;
        match cursor.take_text() {
            Some(key) => {
                if str_eq(key.as_str(), "nameSpaces") {
                    items = match scan_name_spaces(cursor, items) {
                        Some(more) => more,
                        None => {
                            return None;
                        },
                    };
                } else if cursor.skip_item().is_none() {
                    return None;
                }
            },
            None => {
                cursor.pos = key_start;
                if skip_entry(cursor).is_none() {
                    return None;
                }
            },
        }
        left = left - 1;
    }
    Some(items)
}

/// Capture the items of one document.
pub fn scan_document_issuer_items<'a>(cursor: &mut CborCursor<'a>) -> (out: Option<
    RawDocumentItems<'a>,
>)
    ensures
        final(cursor).input@ == old(cursor).input@,
        (
            match out {
                Some(items) => Some(document_items(items@)),
                None => None,
            },
            final(cursor).pos as int,
        ) == document_map_at(old(cursor).input@, old(cursor).pos as int),
{
    let count: u64 = match cursor.read_map_len() {
        Some(count) => count,
        None => {
            return None;
        },
    };
    let mut items: RawDocumentItems<'a> = TextMap::new();
    assert(document_items(items@) =~= Map::empty());
    let mut left: u64 = count;
    while left > 0
        invariant
            cursor.input@ == old(cursor).input@,
            document_map_at(old(cursor).input@, old(cursor).pos as int) == document_at(
                cursor.input@,
                cursor.pos as int,
                left as int,
                document_items(items@),
            ),
        decreases left,
    {
        let key_start: usize = cursor.pos;
        match cursor.take_text() {
            Some(key) => {
                if str_eq(key.as_str(), "issuerSigned") {
                    items = match scan_issuer_signed(cursor, items) {
                        Some(more) => more,
                        None => {
                            return None;
                        },
                    };
                } else if cursor.skip_item().is_none() {
                    return None;
                }
            },
            None => {
                cursor.pos = key_start;
                if skip_entry(cursor).is_none() {
                    return None;
                }
            },
        }
        left = left - 1;
    }
    Some(items)
}

/// Capture the items of `count` documents, behind those of `found`.
fn scan_documents<'a>(
    cursor: &mut CborCursor<'a>,
    count: u64,
    found: Vec<RawDocumentItems<'a>>,
) -> (out: Vec<RawDocumentItems<'a>>)
    ensures
        final(cursor).input@ == old(cursor).input@,
        (response_items(out@), final(cursor).pos as int) == documents_at(
            old(cursor).input@,
            old(cursor).pos as int,
            count as int,
            response_items(found@),
        ),
{
    let mut documents = found;
    let mut left: u64 = count;
    while left > 0
        invariant
            cursor.input@ == old(cursor).input@,
            documents_at(
                old(cursor).input@,
                old(cursor).pos as int,
                count as int,
                response_items(found@),
            ) == documents_at(
                cursor.input@,
                cursor.pos as int,
                left as int,
                response_items(documents@),
            ),
        decreases left,
    {
        let document = match scan_document_issuer_items(cursor) {
            Some(items) => items,
            None => {
                let none: RawDocumentItems<'a> = TextMap::new();
                assert(document_items(none@) =~= Map::empty());
                none
            },
        };
        assert(response_items(documents@.push(document)) =~= response_items(documents@).push(
            document_items(document@),
        ));
        documents.push(document);
        left = left - 1;
    }
    documents
}

/// Capture the items of every document of a response. Where the walk fails, what was captured
/// before stands.
pub fn scan_raw_issuer_items<'a>(device_response: &'a [u8]) -> (out: Vec<RawDocumentItems<'a>>)
    ensures
        response_items(out@) == items_of_response(device_response@),
{
    let mut documents: Vec<RawDocumentItems<'a>> = Vec::new();
    assert(response_items(documents@) =~= Seq::empty());
    let mut cursor = CborCursor::new(device_response);
    let count: u64 = match cursor.read_map_len() {
        Some(count) => count,
        None => {
            return documents;
        },
    };
    let mut left: u64 = count;
    while left > 0
        invariant
            cursor.input@ == device_response@,
            items_of_response(device_response@) == response_at(
                cursor.input@,
                cursor.pos as int,
                left as int,
                response_items(documents@),
            ),
        decreases left,
    {
        let key_start: usize = cursor.pos;
        match cursor.take_text() {
            Some(key) => {
                if str_eq(key.as_str(), "documents") {
                    let document_count: u64 = match cursor.read_array_len() {
                        Some(document_count) => document_count,
                        None => {
                            return documents;
                        },
                    };
                    documents = scan_documents(&mut cursor, document_count, documents);
                } else if cursor.skip_item().is_none() {
                    return documents;
                }
            },
            None => {
                cursor.pos = key_start;
                if skip_entry(&mut cursor).is_none() {
                    return documents;
                }
            },
        }
        left = left - 1;
    }
    documents
}

} // verus!
