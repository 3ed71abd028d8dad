//! Presenting an mdoc: pruning it to the elements to disclose, and splicing in the device
//! signature.
use crate::cbor::{
    array_entry, cbor_decoded, cbor_encoded, cbor_read, contents, decode, decode_or_message,
    encode_tagged_cbor, encoded_item_bytes, entry_value, get_array, get_map_entry, get_text,
    lemma_array_content, lemma_pairs_content, map_entry, pair_contents, text_entry,
    unwrap_tagged_cbor_payload, Cbor, CborValue,
};
use crate::issuance::device::{empty_device_name_spaces_bytes, empty_name_spaces};
use crate::issuance::present::{PresentError, PresentFault};
use crate::text::{contains_text, is_text_less, joined3, least_rejected, seen, str_eq, texts};
use vstd::prelude::*;

verus! {

/// The element identifier of an issuer-signed item, `#6.24(bstr)` around a map.
pub open spec fn item_identifier(item: Cbor) -> Option<Seq<char>> {
    match encoded_item_bytes(item) {
        Some(inner) => match cbor_decoded(inner) {
            Some(fields) => text_entry(fields, "elementIdentifier"@),
            None => None,
        },
        None => None,
    }
}

/// Read the element identifier of an issuer-signed item.
pub fn issuer_signed_item_identifier(item: &CborValue) -> (out: Option<String>)
    ensures
        seen(out) == item_identifier(item@),
{
    match unwrap_tagged_cbor_payload(item) {
        Some(inner) => match decode(inner.as_slice()) {
            Some(fields) => get_text(&fields, "elementIdentifier"),
            None => None,
        },
        None => None,
    }
}

/// How an element is named in a list of what to disclose.
pub open spec fn element_selector(name_space: Seq<char>, identifier: Seq<char>) -> Seq<char> {
    name_space + "/"@ + identifier
}

/// Whether an item of a namespace is on the list.
pub open spec fn item_selected(
    item: Cbor,
    name_space: Seq<char>,
    disclose: Seq<Seq<char>>,
) -> bool {
    match item_identifier(item) {
        Some(identifier) => disclose.contains(element_selector(name_space, identifier)),
        None => false,
    }
}

/// The items of a namespace that are on the list, in their order.
pub open spec fn kept_items(
    items: Seq<Cbor>,
    name_space: Seq<char>,
    disclose: Seq<Seq<char>>,
) -> Seq<Cbor>
    decreases items.len(),
{
    if items.len() == 0 {
        Seq::empty()
    } else {
        let rest = kept_items(items.drop_first(), name_space, disclose);
        if item_selected(items[0], name_space, disclose) {
            seq![items[0]] + rest
        } else {
            rest
        }
    }
}

/// The namespace entries with the items that are on the list. A namespace without any such item is
/// left out.
pub open spec fn pruned_name_spaces(
    entries: Seq<(Cbor, Cbor)>,
    disclose: Seq<Seq<char>>,
) -> Seq<(Cbor, Cbor)>
    decreases entries.len(),
{
    if entries.len() == 0 {
        Seq::empty()
    } else {
        let rest = pruned_name_spaces(entries.drop_first(), disclose);
        match entries[0] {
            (Cbor::Text(name_space), Cbor::Array(items)) => {
                let kept = kept_items(items, name_space, disclose);
                if kept.len() > 0 {
                    seq![(Cbor::Text(name_space), Cbor::Array(kept))] + rest
                } else {
                    rest
                }
            },
            _ => rest,
        }
    }
}

fn prune_items(items: &Vec<CborValue>, name_space: &str, disclose: &Vec<String>) -> (out: Vec<
    CborValue,
>)
    ensures
        contents(out@) == kept_items(contents(items@), name_space@, texts(disclose@)),
{
    let ghost all = contents(items@);
    let ghost wanted = texts(disclose@);
    let mut out: Vec<CborValue> = Vec::new();
    let mut i: usize = 0;
    assert(all.skip(0) =~= all);
    assert(contents(out@) + kept_items(all, name_space@, wanted) =~= kept_items(
        all,
        name_space@,
        wanted,
    ));
    while i < items.len()
        invariant
            i <= items@.len(),
            all == contents(items@),
            wanted == texts(disclose@),
            contents(out@) + kept_items(all.skip(i as int), name_space@, wanted) == kept_items(
                all,
                name_space@,
                wanted,
            ),
        decreases items@.len() - i,
    {
        let ghost before = contents(out@);
        let ghost rest = all.skip(i as int);
        proof {
            assert(rest[0] == items@[i as int]@);
            assert(rest.drop_first() =~= all.skip(i as int + 1));
        }
        if let Some(identifier) = issuer_signed_item_identifier(&items[i]) {
            let selector = joined3(name_space, "/", identifier.as_str());
            if contains_text(disclose, selector.as_str()) {
                out.push(items[i].copy());
                proof {
                    assert(contents(out@) =~= before + seq![rest[0]]);
                    assert(contents(out@) + kept_items(
                        all.skip(i as int + 1),
                        name_space@,
                        wanted,
                    ) =~= before + kept_items(rest, name_space@, wanted));
                }
            }
        }
        i += 1;
    }
    assert(contents(out@) + kept_items(all.skip(i as int), name_space@, wanted) =~= contents(out@));
    out
}

fn prune_name_space_entries(
    entries: &Vec<(CborValue, CborValue)>,
    disclose: &Vec<String>,
) -> (out: Vec<(CborValue, CborValue)>)
    ensures
        pair_contents(out@) == pruned_name_spaces(pair_contents(entries@), texts(disclose@)),
{
    let ghost all = pair_contents(entries@);
    let ghost wanted = texts(disclose@);
    let mut out: Vec<(CborValue, CborValue)> = Vec::new();
    let mut i: usize = 0;
    assert(all.skip(0) =~= all);
    assert(pair_contents(out@) + pruned_name_spaces(all, wanted) =~= pruned_name_spaces(
        all,
        wanted,
    ));
    while i < entries.len()
        invariant
            i <= entries@.len(),
            all == pair_contents(entries@),
            wanted == texts(disclose@),
            pair_contents(out@) + pruned_name_spaces(all.skip(i as int), wanted)
                == pruned_name_spaces(all, wanted),
        decreases entries@.len() - i,
    {
        let ghost before = pair_contents(out@);
        let ghost rest = all.skip(i as int);
        proof {
            assert(rest[0] == (entries@[i as int].0@, entries@[i as int].1@));
            assert(rest.drop_first() =~= all.skip(i as int + 1));
        }
        match (&entries[i].0, &entries[i].1) {
            (CborValue::Text(name_space), CborValue::Array(items)) => {
                proof {
                    lemma_array_content(*items);
                }
                let kept = prune_items(items, name_space.as_str(), disclose);
                if kept.len() > 0 {
                    proof {
                        lemma_array_content(kept);
                    }
                    out.push((CborValue::Text(name_space.clone()), CborValue::Array(kept)));
                    proof {
                        let head = seq![
                            (Cbor::Text(name_space@), Cbor::Array(contents(kept@))),
                        ];
                        assert(pair_contents(out@) =~= before + head);
                        assert(pair_contents(out@) + pruned_name_spaces(
                            all.skip(i as int + 1),
                            wanted,
                        ) =~= before + pruned_name_spaces(rest, wanted));
                    }
                }
            },
            _ => {},
        }
        i += 1;
    }
    assert(pair_contents(out@) + pruned_name_spaces(all.skip(i as int), wanted) =~= pair_contents(
        out@,
    ));
    out
}

/// The maps on the way to the issuer-signed namespaces of a response.
#[derive(Clone, Copy)]
pub enum PruneLevel {
    Response,
    Document,
    IssuerSigned,
}

impl PruneLevel {
    /// The key under which the way goes on.
    pub open spec fn key(self) -> Seq<char> {
        match self {
            PruneLevel::Response => "documents"@,
            PruneLevel::Document => "issuerSigned"@,
            PruneLevel::IssuerSigned => "nameSpaces"@,
        }
    }

    /// How many maps are still to come.
    pub open spec fn depth(self) -> nat {
        match self {
            PruneLevel::Response => 3,
            PruneLevel::Document => 2,
            PruneLevel::IssuerSigned => 1,
        }
    }

    fn key_text(self) -> (out: &'static str)
        ensures
            out@ == self.key(),
    {
        match self {
            PruneLevel::Response => "documents",
            PruneLevel::Document => "issuerSigned",
            PruneLevel::IssuerSigned => "nameSpaces",
        }
    }
}

/// A map on the way with its namespaces pruned; any other item stays.
pub open spec fn pruned_map(value: Cbor, level: PruneLevel, disclose: Seq<Seq<char>>) -> Cbor
    decreases level.depth(), 2nat, 0nat,
{
    match value {
        Cbor::Pairs(entries) => Cbor::Pairs(pruned_entries(entries, level, disclose)),
        other => other,
    }
}

/// The entries of a map on the way, each entry under the key of the level pruned.
pub open spec fn pruned_entries(
    entries: Seq<(Cbor, Cbor)>,
    level: PruneLevel,
    disclose: Seq<Seq<char>>,
) -> Seq<(Cbor, Cbor)>
    decreases level.depth(), 1nat, entries.len(),
{
    if entries.len() == 0 {
        Seq::empty()
    } else {
        let value = if entries[0].0 == Cbor::Text(level.key()) {
            pruned_value(entries[0].1, level, disclose)
        } else {
            entries[0].1
        };
        seq![(entries[0].0, value)] + pruned_entries(entries.drop_first(), level, disclose)
    }
}

/// What stands under the key of a level, pruned. Namespaces that are not a map hold nothing that
/// could be on the list.
pub open spec fn pruned_value(value: Cbor, level: PruneLevel, disclose: Seq<Seq<char>>) -> Cbor
    decreases level.depth(), 0nat, 0nat,
{
    match level {
        PruneLevel::Response => match value {
            Cbor::Array(documents) => Cbor::Array(
                documents.map_values(
                    |document: Cbor| pruned_map(document, PruneLevel::Document, disclose),
                ),
            ),
            other => other,
        },
        PruneLevel::Document => pruned_map(value, PruneLevel::IssuerSigned, disclose),
        PruneLevel::IssuerSigned => match value {
            Cbor::Pairs(entries) => Cbor::Pairs(pruned_name_spaces(entries, disclose)),
            _ => Cbor::Pairs(Seq::empty()),
        },
    }
}

fn prune_map(value: &CborValue, level: PruneLevel, disclose: &Vec<String>) -> (out: CborValue)
    ensures
        out@ == pruned_map(value@, level, texts(disclose@)),
    decreases level.depth(), 1nat,
{
    let ghost wanted = texts(disclose@);
    match value {
        CborValue::Pairs(entries) => {
            let ghost all = pair_contents(entries@);
            let mut out: Vec<(CborValue, CborValue)> = Vec::new();
            let mut i: usize = 0;
            proof {
                lemma_pairs_content(*entries);
                assert(all.skip(0) =~= all);
                assert(pair_contents(out@) + pruned_entries(all, level, wanted) =~= pruned_entries(
                    all,
                    level,
                    wanted,
                ));
            }
            while i < entries.len()
                invariant
                    i <= entries@.len(),
                    all == pair_contents(entries@),
                    wanted == texts(disclose@),
                    pair_contents(out@) + pruned_entries(all.skip(i as int), level, wanted)
                        == pruned_entries(all, level, wanted),
                decreases entries@.len() - i,
            {
                let ghost before = pair_contents(out@);
                let ghost rest = all.skip(i as int);
                proof {
                    assert(rest[0] == (entries@[i as int].0@, entries@[i as int].1@));
                    assert(rest.drop_first() =~= all.skip(i as int + 1));
                }
                let matched = match &entries[i].0 {
                    CborValue::Text(text) => str_eq(text.as_str(), level.key_text()),
                    _ => false,
                };
                let new_value = if matched {
                    prune_value(&entries[i].1, level, disclose)
                } else {
                    entries[i].1.copy()
                };
                let ghost pair = (entries@[i as int].0@, new_value@);
                out.push((entries[i].0.copy(), new_value));
                proof {
                    assert(pair_contents(out@) =~= before + seq![pair]);
                    assert(pair_contents(out@) + pruned_entries(
                        all.skip(i as int + 1),
                        level,
                        wanted,
                    ) =~= before + pruned_entries(rest, level, wanted));
                }
                i += 1;
            }
            proof {
                assert(pair_contents(out@) + pruned_entries(all.skip(i as int), level, wanted)
                    =~= pair_contents(out@));
                lemma_pairs_content(out);
            }
            CborValue::Pairs(out)
        },
        other => other.copy(),
    }
}

fn prune_value(value: &CborValue, level: PruneLevel, disclose: &Vec<String>) -> (out: CborValue)
    ensures
        out@ == pruned_value(value@, level, texts(disclose@)),
    decreases level.depth(), 0nat,
{
    let ghost wanted = texts(disclose@);
    match level {
        PruneLevel::Response => match value {
            CborValue::Array(documents) => {
                let mut out: Vec<CborValue> = Vec::new();
                let mut i: usize = 0;
                while i < documents.len()
                    invariant
                        i <= documents@.len(),
                        level is Response,
                        wanted == texts(disclose@),
                        out@.len() == i,
                        forall|j: int|
                            0 <= j < i ==> (#[trigger] out@[j])@ == pruned_map(
                                documents@[j]@,
                                PruneLevel::Document,
                                wanted,
                            ),
                    decreases documents@.len() - i,
                {
                    out.push(prune_map(&documents[i], PruneLevel::Document, disclose));
                    i += 1;
                }
                proof {
                    lemma_array_content(*documents);
                    lemma_array_content(out);
                    assert(pruned_value(value@, level, wanted)->Array_0 =~= contents(out@));
                }
                CborValue::Array(out)
            },
            other => other.copy(),
        },
        PruneLevel::Document => prune_map(value, PruneLevel::IssuerSigned, disclose),
        PruneLevel::IssuerSigned => {
            let entries = match value {
                CborValue::Pairs(entries) => {
                    proof {
                        lemma_pairs_content(*entries);
                    }
                    prune_name_space_entries(entries, disclose)
                },
                _ => {
                    let none: Vec<(CborValue, CborValue)> = Vec::new();
                    assert(pair_contents(none@) =~= Seq::<(Cbor, Cbor)>::empty());
                    none
                },
            };
            proof {
                lemma_pairs_content(entries);
            }
            CborValue::Pairs(entries)
        },
    }
}

/// Leave only the elements that are on the list in a response.
pub fn prune_response(response: &CborValue, disclose: &Vec<String>) -> (out: CborValue)
    ensures
        out@ == pruned_map(response@, PruneLevel::Response, texts(disclose@)),
{
    prune_map(response, PruneLevel::Response, disclose)
}

/// The first document of a response.
pub open spec fn first_document(response: Cbor) -> Option<Cbor> {
    match array_entry(response, "documents"@) {
        Some(documents) => if documents.len() > 0 {
            Some(documents[0])
        } else {
            None
        },
        None => None,
    }
}

fn get_first_document(response: &CborValue) -> (out: Option<&CborValue>)
    ensures
        seen(out) == first_document(response@),
{
    match get_array(response, "documents") {
        Some(documents) => if documents.len() > 0 {
            assert(contents(documents@)[0] == documents@[0]@);
            Some(&documents[0])
        } else {
            None
        },
        None => None,
    }
}

/// The document type of the first document of a response.
pub open spec fn doc_type_of(response: Cbor) -> Option<Seq<char>> {
    match first_document(response) {
        Some(document) => text_entry(document, "docType"@),
        None => None,
    }
}

/// Read the document type of the first document of a response.
pub fn first_doc_type(response: &CborValue) -> (out: Option<String>)
    ensures
        seen(out) == doc_type_of(response@),
{
    match get_first_document(response) {
        Some(document) => get_text(document, "docType"),
        None => None,
    }
}

/// An item under two keys, one inside the other.
pub open spec fn nested_entry(value: Cbor, outer: Seq<char>, inner: Seq<char>) -> Option<Cbor> {
    match map_entry(value, outer) {
        Some(found) => map_entry(found, inner),
        None => None,
    }
}

fn get_nested_entry<'a>(value: &'a CborValue, outer: &str, inner: &str) -> (out: Option<
    &'a CborValue,
>)
    ensures
        seen(out) == nested_entry(value@, outer@, inner@),
{
    match get_map_entry(value, outer) {
        Some(found) => get_map_entry(found, inner),
        None => None,
    }
}

/// The device's own namespaces in the first document of a response.
pub open spec fn device_name_spaces_of(response: Cbor) -> Option<Cbor> {
    match first_document(response) {
        Some(document) => nested_entry(document, "deviceSigned"@, "nameSpaces"@),
        None => None,
    }
}

/// The fault of device namespaces that are not `#6.24(bstr)`.
pub open spec fn bad_name_spaces() -> PresentFault {
    PresentFault::Malformed("deviceSigned.nameSpaces is not a #6.24(bstr)"@)
}

/// Encode device namespaces anew. The bytes are read back as the same item.
pub fn reencode_device_name_spaces(value: &CborValue) -> (out: Result<Vec<u8>, PresentError>)
    ensures
        match out {
            Ok(bytes) => encoded_item_bytes(value@) is Some && bytes@ == cbor_encoded(value@)
                && cbor_decoded(bytes@) == Some(value@),
            Err(error) => encoded_item_bytes(value@) is None && error@ == bad_name_spaces(),
        },
{
    match unwrap_tagged_cbor_payload(value) {
        Some(inner) => {
            proof {
                crate::cbor::law_encoded_item_round_trip(inner@);
            }
            Ok(encode_tagged_cbor(inner.as_slice()))
        },
        None => Err(
            PresentError::Malformed("deviceSigned.nameSpaces is not a #6.24(bstr)".to_owned()),
        ),
    }
}

/// The device namespaces that a signature has to cover: those of the first document, or the empty
/// ones where it has none.
pub open spec fn signed_name_spaces(response: Cbor) -> Result<Cbor, PresentFault> {
    match device_name_spaces_of(response) {
        Some(value) => if encoded_item_bytes(value) is Some {
            Ok(value)
        } else {
            Err(bad_name_spaces())
        },
        None => Ok(empty_name_spaces()),
    }
}

/// Find the device namespaces that a signature has to cover, encoded.
pub fn first_device_name_spaces_bytes(response: &CborValue) -> (out: Result<
    Vec<u8>,
    PresentError,
>)
    ensures
        match signed_name_spaces(response@) {
            Ok(value) => out matches Ok(bytes) && bytes@ == cbor_encoded(value) && cbor_decoded(
                bytes@,
            ) == Some(value),
            Err(fault) => out matches Err(error) && error@ == fault,
        },
{
    let found = match get_first_document(response) {
        Some(document) => get_nested_entry(document, "deviceSigned", "nameSpaces"),
        None => None,
    };
    match found {
        Some(value) => reencode_device_name_spaces(value),
        None => match empty_device_name_spaces_bytes() {
            Ok(bytes) => Ok(bytes),
            Err(error) => Err(PresentError::Build(error.message())),
        },
    }
}

/// The issuer-signed namespaces of the first document of a response.
pub open spec fn issued_name_spaces(response: Cbor) -> Seq<(Cbor, Cbor)> {
    match first_document(response) {
        Some(document) => match nested_entry(document, "issuerSigned"@, "nameSpaces"@) {
            Some(Cbor::Pairs(entries)) => entries,
            _ => Seq::empty(),
        },
        None => Seq::empty(),
    }
}

/// Whether an item of a namespace goes by this selector.
pub open spec fn item_named(item: Cbor, name_space: Seq<char>, selector: Seq<char>) -> bool {
    item_identifier(item) matches Some(identifier) && element_selector(name_space, identifier)
        == selector
}

/// Whether a namespace entry holds an item that goes by this selector.
pub open spec fn entry_offers(entry: (Cbor, Cbor), selector: Seq<char>) -> bool {
    match entry {
        (Cbor::Text(name_space), Cbor::Array(items)) => exists|j: int|
            0 <= j < items.len() && item_named(#[trigger] items[j], name_space, selector),
        _ => false,
    }
}

/// Whether the namespaces hold an item that goes by this selector.
pub open spec fn offers(entries: Seq<(Cbor, Cbor)>, selector: Seq<char>) -> bool {
    exists|i: int| 0 <= i < entries.len() && entry_offers(#[trigger] entries[i], selector)
}

fn does_entry_offer(entry: &(CborValue, CborValue), selector: &str) -> (out: bool)
    ensures
        out == entry_offers((entry.0@, entry.1@), selector@),
{
    match (&entry.0, &entry.1) {
        (CborValue::Text(name_space), CborValue::Array(items)) => {
            proof {
                lemma_array_content(*items);
            }
            let ghost all = contents(items@);
            let mut j: usize = 0;
            while j < items.len()
                invariant
                    j <= items@.len(),
                    all == contents(items@),
                    entry.0@ == Cbor::Text(name_space@),
                    entry.1@ == Cbor::Array(all),
                    forall|k: int|
                        0 <= k < j ==> !item_named(#[trigger] all[k], name_space@, selector@),
                decreases items@.len() - j,
            {
                assert(all[j as int] == items@[j as int]@);
                if let Some(identifier) = issuer_signed_item_identifier(&items[j]) {
                    let name = joined3(name_space.as_str(), "/", identifier.as_str());
                    if str_eq(name.as_str(), selector) {
                        let ghost there = (entry.0@, entry.1@);
                        assert(item_named(
                            there.1->Array_0[j as int],
                            there.0->Text_0,
                            selector@,
                        ));
                        return true;
                    }
                }
                j += 1;
            }
            false
        },
        _ => false,
    }
}

fn do_entries_offer(entries: &Vec<(CborValue, CborValue)>, selector: &str) -> (out: bool)
    ensures
        out == offers(pair_contents(entries@), selector@),
{
    let ghost all = pair_contents(entries@);
    let mut i: usize = 0;
    while i < entries.len()
        invariant
            i <= entries@.len(),
            all == pair_contents(entries@),
            forall|k: int| 0 <= k < i ==> !entry_offers(#[trigger] all[k], selector@),
        decreases entries@.len() - i,
    {
        assert(all[i as int] == (entries@[i as int].0@, entries@[i as int].1@));
        if does_entry_offer(&entries[i], selector) {
            return true;
        }
        i += 1;
    }
    false
}

/// Of the selectors on the list that the namespaces do not offer, the one that comes first.
pub open spec fn least_not_offered(
    entries: Seq<(Cbor, Cbor)>,
    disclose: Seq<Seq<char>>,
) -> Option<Seq<char>> {
    least_rejected(disclose, |selector: Seq<char>| offers(entries, selector))
}

/// Check that the first document offers every element on the list.
pub fn check_disclosable(response: &CborValue, disclose: &Vec<String>) -> (out: Result<
    (),
    PresentError,
>)
    ensures
        match least_not_offered(issued_name_spaces(response@), texts(disclose@)) {
            None => out is Ok,
            Some(selector) => out matches Err(error) && error@ == PresentFault::UndisclosableClaim(
                selector,
            ),
        },
{
    let found = match get_first_document(response) {
        Some(document) => get_nested_entry(document, "issuerSigned", "nameSpaces"),
        None => None,
    };
    let none: Vec<(CborValue, CborValue)> = Vec::new();
    let entries: &Vec<(CborValue, CborValue)> = match found {
        Some(CborValue::Pairs(entries)) => {
            proof {
                lemma_pairs_content(*entries);
            }
            entries
        },
        _ => {
            assert(pair_contents(none@) =~= Seq::<(Cbor, Cbor)>::empty());
            &none
        },
    };
    let ghost offered = issued_name_spaces(response@);
    let ghost all = texts(disclose@);
    let ghost accepted = |selector: Seq<char>| offers(offered, selector);
    assert(pair_contents(entries@) == offered);
    let mut least: Option<usize> = None;
    let mut i: usize = disclose.len();
    while i > 0
        invariant
            i <= disclose@.len(),
            all == texts(disclose@),
            pair_contents(entries@) == offered,
            accepted == (|selector: Seq<char>| offers(offered, selector)),
            match least {
                Some(k) => k < disclose@.len() && least_rejected(all.skip(i as int), accepted)
                    == Some(disclose@[k as int]@),
                None => least_rejected(all.skip(i as int), accepted) is None,
            },
        decreases i,
    {
        i -= 1;
        assert(all.skip(i as int)[0] == disclose@[i as int]@);
        assert(all.skip(i as int).drop_first() =~= all.skip(i as int + 1));
        if !do_entries_offer(entries, disclose[i].as_str()) {
            least = match least {
                Some(k) => if is_text_less(disclose[k].as_str(), disclose[i].as_str()) {
                    Some(k)
                } else {
                    Some(i)
                },
                None => Some(i),
            };
        }
    }
    assert(all.skip(0) =~= all);
    match least {
        Some(k) => Err(PresentError::UndisclosableClaim(disclose[k].clone())),
        None => Ok(()),
    }
}

/// The maps on the way to the device signature of a response.
#[derive(Clone, Copy)]
pub enum SpliceLevel {
    Response,
    Document,
    DeviceSigned,
}

impl SpliceLevel {
    /// What the map is called.
    pub open spec fn label(self) -> Seq<char> {
        match self {
            SpliceLevel::Response => "DeviceResponse"@,
            SpliceLevel::Document => "Document"@,
            SpliceLevel::DeviceSigned => "deviceSigned"@,
        }
    }

    /// The key under which the way goes on.
    pub open spec fn key(self) -> Seq<char> {
        match self {
            SpliceLevel::Response => "documents"@,
            SpliceLevel::Document => "deviceSigned"@,
            SpliceLevel::DeviceSigned => "deviceAuth"@,
        }
    }

    /// How many maps are still to come.
    pub open spec fn depth(self) -> nat {
        match self {
            SpliceLevel::Response => 3,
            SpliceLevel::Document => 2,
            SpliceLevel::DeviceSigned => 1,
        }
    }

    fn label_text(self) -> (out: &'static str)
        ensures
            out@ == self.label(),
    {
        match self {
            SpliceLevel::Response => "DeviceResponse",
            SpliceLevel::Document => "Document",
            SpliceLevel::DeviceSigned => "deviceSigned",
        }
    }

    fn key_text(self) -> (out: &'static str)
        ensures
            out@ == self.key(),
    {
        match self {
            SpliceLevel::Response => "documents",
            SpliceLevel::Document => "deviceSigned",
            SpliceLevel::DeviceSigned => "deviceAuth",
        }
    }
}

/// The `deviceAuth` map around a device signature.
pub open spec fn device_auth(signature: Cbor) -> Cbor {
    Cbor::Pairs(seq![(Cbor::Text("deviceSignature"@), signature)])
}

/// A map on the way with the device signature spliced in. A map that lacks the key of its level is
/// a fault, so that nothing goes out unsigned.
pub open spec fn spliced_map(value: Cbor, level: SpliceLevel, signature: Cbor) -> Result<
    Cbor,
    PresentFault,
>
    decreases level.depth(), 2nat, 0nat,
{
    match value {
        Cbor::Pairs(entries) => if entry_value(entries, level.key()) is None {
            Err(PresentFault::Malformed(level.label() + " has no "@ + level.key()))
        } else {
            match spliced_entries(entries, level, signature) {
                Ok(rebuilt) => Ok(Cbor::Pairs(rebuilt)),
                Err(fault) => Err(fault),
            }
        },
        _ => Err(PresentFault::Malformed(level.label() + " is not a map"@)),
    }
}

/// The entries of a map on the way, each entry under the key of the level rebuilt.
pub open spec fn spliced_entries(
    entries: Seq<(Cbor, Cbor)>,
    level: SpliceLevel,
    signature: Cbor,
) -> Result<Seq<(Cbor, Cbor)>, PresentFault>
    decreases level.depth(), 1nat, entries.len(),
{
    if entries.len() == 0 {
        Ok(Seq::empty())
    } else {
        let value = if entries[0].0 == Cbor::Text(level.key()) {
            spliced_value(entries[0].1, level, signature)
        } else {
            Ok(entries[0].1)
        };
        match value {
            Err(fault) => Err(fault),
            Ok(value) => match spliced_entries(entries.drop_first(), level, signature) {
                Err(fault) => Err(fault),
                Ok(rest) => Ok(seq![(entries[0].0, value)] + rest),
            },
        }
    }
}

/// What stands under the key of a level, rebuilt. There must be one document, since one signature
/// binds only one.
pub open spec fn spliced_value(value: Cbor, level: SpliceLevel, signature: Cbor) -> Result<
    Cbor,
    PresentFault,
>
    decreases level.depth(), 0nat, 0nat,
{
    match level {
        SpliceLevel::Response => match value {
            Cbor::Array(documents) => if documents.len() > 1 {
                Err(PresentFault::MultiDocumentMdoc(documents.len() as usize))
            } else if documents.len() == 0 {
                Err(PresentFault::Malformed("documents is empty"@))
            } else {
                match spliced_map(documents[0], SpliceLevel::Document, signature) {
                    Ok(document) => Ok(Cbor::Array(seq![document])),
                    Err(fault) => Err(fault),
                }
            },
            _ => Err(PresentFault::Malformed("documents is not an array"@)),
        },
        SpliceLevel::Document => spliced_map(value, SpliceLevel::DeviceSigned, signature),
        SpliceLevel::DeviceSigned => Ok(device_auth(signature)),
    }
}

fn splice_map(value: &CborValue, level: SpliceLevel, signature: &CborValue) -> (out: Result<
    CborValue,
    PresentError,
>)
    ensures
        match spliced_map(value@, level, signature@) {
            Ok(rebuilt) => out matches Ok(item) && item@ == rebuilt,
            Err(fault) => out matches Err(error) && error@ == fault,
        },
    decreases level.depth(), 1nat,
{
    match value {
        CborValue::Pairs(entries) => {
            proof {
                lemma_pairs_content(*entries);
            }
            if get_map_entry(value, level.key_text()).is_none() {
                return Err(
                    PresentError::Malformed(
                        joined3(level.label_text(), " has no ", level.key_text()),
                    ),
                );
            }
            let ghost all = pair_contents(entries@);
            let mut out: Vec<(CborValue, CborValue)> = Vec::new();
            let mut i: usize = 0;
            assert(all.skip(0) =~= all);
            proof {
                lemma_splice_progress(Seq::empty(), all, all, level, signature@);
                assert(pair_contents(out@) =~= Seq::<(Cbor, Cbor)>::empty());
            }
            while i < entries.len()
                invariant
                    i <= entries@.len(),
                    value@ == Cbor::Pairs(all),
                    entry_value(all, level.key()) is Some,
                    all == pair_contents(entries@),
                    splice_progress(
                        pair_contents(out@),
                        all.skip(i as int),
                        all,
                        level,
                        signature@,
                    ),
                decreases entries@.len() - i,
            {
                let ghost before = pair_contents(out@);
                let ghost rest = all.skip(i as int);
                proof {
                    assert(rest[0] == (entries@[i as int].0@, entries@[i as int].1@));
                    assert(rest.drop_first() =~= all.skip(i as int + 1));
                }
                let matched = match &entries[i].0 {
                    CborValue::Text(text) => str_eq(text.as_str(), level.key_text()),
                    _ => false,
                };
                let new_value = if matched {
                    match splice_value(&entries[i].1, level, signature) {
                        Ok(new_value) => new_value,
                        Err(error) => {
                            return Err(error);
                        },
                    }
                } else {
                    entries[i].1.copy()
                };
                let ghost pair = (entries@[i as int].0@, new_value@);
                out.push((entries[i].0.copy(), new_value));
                proof {
                    assert(pair_contents(out@) =~= before + seq![pair]);
                    lemma_splice_step(before, rest, all, level, signature@, pair);
                }
                i += 1;
            }
            proof {
                assert(all.skip(i as int).len() == 0);
                assert(pair_contents(out@) + Seq::<(Cbor, Cbor)>::empty() =~= pair_contents(out@));
                lemma_pairs_content(out);
            }
            Ok(CborValue::Pairs(out))
        },
        _ => Err(PresentError::Malformed(crate::text::joined(level.label_text(), " is not a map"))),
    }
}

/// What is rebuilt of `all` after `done` was rebuilt and `rest` is still to come.
spec fn splice_progress(
    done: Seq<(Cbor, Cbor)>,
    rest: Seq<(Cbor, Cbor)>,
    all: Seq<(Cbor, Cbor)>,
    level: SpliceLevel,
    signature: Cbor,
) -> bool {
    match spliced_entries(rest, level, signature) {
        Ok(rebuilt) => spliced_entries(all, level, signature) == Ok::<
            Seq<(Cbor, Cbor)>,
            PresentFault,
        >(done + rebuilt),
        Err(fault) => spliced_entries(all, level, signature) == Err::<
            Seq<(Cbor, Cbor)>,
            PresentFault,
        >(fault),
    }
}

proof fn lemma_splice_progress(
    done: Seq<(Cbor, Cbor)>,
    rest: Seq<(Cbor, Cbor)>,
    all: Seq<(Cbor, Cbor)>,
    level: SpliceLevel,
    signature: Cbor,
)
    requires
        done.len() == 0,
        rest == all,
    ensures
        splice_progress(done, rest, all, level, signature),
{
    if let Ok(rebuilt) = spliced_entries(rest, level, signature) {
        assert(done + rebuilt =~= rebuilt);
    }
}

proof fn lemma_splice_step(
    done: Seq<(Cbor, Cbor)>,
    rest: Seq<(Cbor, Cbor)>,
    all: Seq<(Cbor, Cbor)>,
    level: SpliceLevel,
    signature: Cbor,
    pair: (Cbor, Cbor),
)
    requires
        rest.len() > 0,
        splice_progress(done, rest, all, level, signature),
        pair.0 == rest[0].0,
        if rest[0].0 == Cbor::Text(level.key()) {
            spliced_value(rest[0].1, level, signature) == Ok::<Cbor, PresentFault>(pair.1)
        } else {
            pair.1 == rest[0].1
        },
    ensures
        splice_progress(done + seq![pair], rest.drop_first(), all, level, signature),
{
    if let Ok(rebuilt) = spliced_entries(rest.drop_first(), level, signature) {
        assert(done + seq![pair] + rebuilt =~= done + (seq![pair] + rebuilt));
    }
}

fn splice_value(value: &CborValue, level: SpliceLevel, signature: &CborValue) -> (out: Result<
    CborValue,
    PresentError,
>)
    ensures
        match spliced_value(value@, level, signature@) {
            Ok(rebuilt) => out matches Ok(item) && item@ == rebuilt,
            Err(fault) => out matches Err(error) && error@ == fault,
        },
    decreases level.depth(), 0nat,
{
    match level {
        SpliceLevel::Response => match value {
            CborValue::Array(documents) => {
                proof {
                    lemma_array_content(*documents);
                }
                if documents.len() > 1 {
                    return Err(PresentError::MultiDocumentMdoc(documents.len()));
                }
                if documents.len() == 0 {
                    return Err(PresentError::Malformed("documents is empty".to_owned()));
                }
                assert(contents(documents@)[0] == documents@[0]@);
                match splice_map(&documents[0], SpliceLevel::Document, signature) {
                    Ok(document) => {
                        let rebuilt = vec![document];
                        proof {
                            lemma_array_content(rebuilt);
                            assert(contents(rebuilt@) =~= seq![document@]);
                        }
                        Ok(CborValue::Array(rebuilt))
                    },
                    Err(error) => Err(error),
                }
            },
            _ => Err(PresentError::Malformed("documents is not an array".to_owned())),
        },
        SpliceLevel::Document => splice_map(value, SpliceLevel::DeviceSigned, signature),
        SpliceLevel::DeviceSigned => {
            let entries = vec![
                (CborValue::Text("deviceSignature".to_owned()), signature.copy()),
            ];
            proof {
                lemma_pairs_content(entries);
                assert(pair_contents(entries@) =~= seq![
                    (Cbor::Text("deviceSignature"@), signature@),
                ]);
            }
            Ok(CborValue::Pairs(entries))
        },
    }
}

/// A response with an encoded device signature spliced in.
pub open spec fn spliced_response(response: Cbor, device_signature: Seq<u8>) -> Result<
    Cbor,
    PresentFault,
> {
    match cbor_read(device_signature) {
        Ok(signature) => spliced_map(response, SpliceLevel::Response, signature),
        Err(message) => Err(PresentFault::Build(message)),
    }
}

/// Replace the `deviceAuth` of the one document of a response by an encoded device signature.
pub fn replace_device_signature(response: &CborValue, device_signature_cbor: &[u8]) -> (out: Result<
    CborValue,
    PresentError,
>)
    ensures
        match spliced_response(response@, device_signature_cbor@) {
            Ok(rebuilt) => out matches Ok(item) && item@ == rebuilt,
            Err(fault) => out matches Err(error) && error@ == fault,
        },
{
    match decode_or_message(device_signature_cbor) {
        Ok(signature) => splice_map(response, SpliceLevel::Response, &signature),
        Err(message) => Err(PresentError::Build(message)),
    }
}

} // verus!
