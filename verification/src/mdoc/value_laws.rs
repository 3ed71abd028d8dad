//! What the attributes of a verified response say.
use crate::cbor::{
    cbor_integer, contents, lemma_array_content, lemma_pairs_content, map_entry, pair_contents,
    Cbor, CborValue,
};
use crate::mdoc::attributes::{
    attr_of, cbor_to_attribute, disclose, fields_of, grouped, shadows, space,
};
use crate::mdoc::digests::{
    digests_verdict, item_value, records_disclosed, spaces_disclosed, DigestAlgorithm,
};
use crate::mdoc::items::{items_of_response, RawItem};
use crate::mdoc::laws::{
    document_attributes, document_passes, keeps, law_valid_covers_every_document,
};
use crate::mdoc::verify::{
    all_documents_verdict, document_verdict, documents_verdict, no_facts, records_at,
    response_documents, status_at, verify_with_meta, with_document, MdocVerifyMeta,
    MdocVerifyParams, ResponseFacts,
};
use crate::text::seen;
use crate::trust::TrustAnchorSource;
use crate::types::{attr_map, lemma_fields_content, Attr, AttributeValue, VerificationResult};
use vstd::prelude::*;

verus! {

/// A truth value, a text, a byte string and an integer of 64 bits are presented as themselves; what
/// lies beyond, a float and null, as null.
pub proof fn law_plain_values_are_presented_as_themselves(item: CborValue, out: AttributeValue)
    requires
        call_ensures(cbor_to_attribute, (&item,), out),
    ensures
        match item {
            CborValue::Bool(b) => out matches AttributeValue::Boolean(shown) && shown == b,
            CborValue::Text(text) => out matches AttributeValue::Text(shown) && shown@ == text@,
            CborValue::Bytes(bytes) => out matches AttributeValue::Bytes(shown) && shown@
                == bytes@,
            CborValue::Integer(n) => if i64::MIN <= cbor_integer(n) <= i64::MAX {
                out matches AttributeValue::Integer(shown) && shown == cbor_integer(n)
            } else {
                out is Null
            },
            CborValue::Float(_) => out is Null,
            CborValue::Null => out is Null,
            _ => true,
        },
{
}

/// Whether an item is a truth value, a text, a byte string or an integer of 64 bits.
pub open spec fn is_plain(item: CborValue) -> bool {
    match item {
        CborValue::Bool(_) => true,
        CborValue::Text(_) => true,
        CborValue::Bytes(_) => true,
        CborValue::Integer(n) => i64::MIN <= cbor_integer(n) <= i64::MAX,
        _ => false,
    }
}

/// Whether two plain items say the same.
pub open spec fn says_the_same(a: CborValue, b: CborValue) -> bool {
    match (a, b) {
        (CborValue::Bool(a), CborValue::Bool(b)) => a == b,
        (CborValue::Text(a), CborValue::Text(b)) => a@ == b@,
        (CborValue::Bytes(a), CborValue::Bytes(b)) => a@ == b@,
        (CborValue::Integer(a), CborValue::Integer(b)) => cbor_integer(a) == cbor_integer(b),
        _ => false,
    }
}

/// Plain items that say different things are presented as different attributes, and those that say
/// the same as the same.
pub proof fn law_different_values_stay_apart(
    a: CborValue,
    b: CborValue,
    shown_a: AttributeValue,
    shown_b: AttributeValue,
)
    requires
        is_plain(a),
        is_plain(b),
        call_ensures(cbor_to_attribute, (&a,), shown_a),
        call_ensures(cbor_to_attribute, (&b,), shown_b),
    ensures
        shown_a@ == shown_b@ <==> says_the_same(a, b),
{
}

/// An array is presented item by item, in order, and a tag is looked through: what stands inside is
/// presented as it is on its own.
pub proof fn law_items_are_presented_one_by_one(
    item: CborValue,
    inner: CborValue,
    j: int,
    out: AttributeValue,
    inside: AttributeValue,
)
    requires
        call_ensures(cbor_to_attribute, (&item,), out),
        call_ensures(cbor_to_attribute, (&inner,), inside),
    ensures
        item matches CborValue::Tag(_, tagged) ==> (*tagged == inner ==> out@ == inside@),
        item matches CborValue::Array(items) ==> {
            &&& out matches AttributeValue::Array(shown) && shown@.len() == items@.len() && (0 <= j
                < items@.len() && items@[j] == inner ==> shown@[j]@ == inside@)
        },
{
    if let CborValue::Array(items) = item {
        lemma_array_content(items);
        assert(item@ == Cbor::Array(contents(items@)));
        if let AttributeValue::Array(shown) = out {
            assert(out@->Array_0.len() == shown@.len());
            if 0 <= j < items@.len() {
                assert(out@->Array_0[j] == shown@[j]@);
                assert(out@->Array_0[j] == attr_of(contents(items@)[j]));
            }
        }
    }
    if let CborValue::Tag(_, tagged) = item {
        assert(item@ == Cbor::Tag(item->Tag_0, Box::new(tagged@)));
    }
}

proof fn lemma_fields_last(entries: Seq<(Cbor, Cbor)>, j: int, key: Seq<char>)
    ensures
        fields_of(entries).contains_key(key) <==> exists|i: int|
            0 <= i < entries.len() && (#[trigger] entries[i]).0 == Cbor::Text(key),
        0 <= j < entries.len() && entries[j].0 == Cbor::Text(key) && (forall|i: int|
            j < i < entries.len() ==> (#[trigger] entries[i]).0 != Cbor::Text(key)) ==> fields_of(
            entries,
        )[key] == attr_of(entries[j].1),
    decreases entries.len(),
{
    if entries.len() > 0 {
        let shorter = entries.drop_last();
        let n = entries.len() - 1;
        lemma_fields_last(shorter, j, key);
        assert(entries[n] == entries.last());
        if fields_of(entries).contains_key(key) && entries[n].0 != Cbor::Text(key) {
            assert(fields_of(shorter).contains_key(key));
            let i = choose|i: int|
                0 <= i < shorter.len() && (#[trigger] shorter[i]).0 == Cbor::Text(key);
            assert(entries[i].0 == Cbor::Text(key));
        }
        if exists|i: int|
            0 <= i < entries.len() && (#[trigger] entries[i]).0 == Cbor::Text(key) {
            let i = choose|i: int|
                0 <= i < entries.len() && (#[trigger] entries[i]).0 == Cbor::Text(key);
            if i < n {
                assert(shorter[i].0 == Cbor::Text(key));
            }
        }
        if 0 <= j < n && (forall|i: int|
            j < i < entries.len() ==> (#[trigger] entries[i]).0 != Cbor::Text(key)) {
            assert(entries[n].0 != Cbor::Text(key));
            assert forall|i: int| j < i < shorter.len() implies (#[trigger] shorter[i]).0
                != Cbor::Text(key) by {
                assert(entries[i].0 != Cbor::Text(key));
            }
            assert(shorter[j] == entries[j]);
        }
    }
}

/// A map is presented by its text keys, all of them and no others; under each stands what the last
/// entry of that key holds, presented as it is on its own.
pub proof fn law_maps_are_presented_by_their_text_keys(
    entries: Vec<(CborValue, CborValue)>,
    out: AttributeValue,
    j: int,
    inside: AttributeValue,
    key: Seq<char>,
)
    requires
        call_ensures(cbor_to_attribute, (&CborValue::Pairs(entries),), out),
        0 <= j < entries@.len() ==> call_ensures(
            cbor_to_attribute,
            (&entries@[j].1,),
            inside,
        ),
    ensures
        out matches AttributeValue::Fields(fields) && {
            &&& fields@.contains_key(key) <==> exists|i: int|
                0 <= i < entries@.len() && (#[trigger] entries@[i]).0@ == Cbor::Text(key)
            &&& (0 <= j < entries@.len() && entries@[j].0@ == Cbor::Text(key) && (forall|i: int|
                j < i < entries@.len() ==> (#[trigger] entries@[i]).0@ != Cbor::Text(key)))
                ==> fields@[key]@ == inside@
        },
{
    lemma_pairs_content(entries);
    let all = pair_contents(entries@);
    lemma_fields_last(all, j, key);
    assert(out@ == Attr::Fields(fields_of(all)));
    if let AttributeValue::Fields(fields) = out {
        lemma_fields_content(fields);
        assert(attr_map(fields@) == fields_of(all));
        assert(attr_map(fields@).contains_key(key) <==> fields@.contains_key(key));
        if exists|i: int| 0 <= i < entries@.len() && (#[trigger] entries@[i]).0@ == Cbor::Text(key) {
            let i = choose|i: int|
                0 <= i < entries@.len() && (#[trigger] entries@[i]).0@ == Cbor::Text(key);
            assert(all[i].0 == Cbor::Text(key));
        }
        if exists|i: int| 0 <= i < all.len() && (#[trigger] all[i]).0 == Cbor::Text(key) {
            let i = choose|i: int| 0 <= i < all.len() && (#[trigger] all[i]).0 == Cbor::Text(key);
            assert(entries@[i].0@ == Cbor::Text(key));
        }
        if 0 <= j < entries@.len() && entries@[j].0@ == Cbor::Text(key) && (forall|i: int|
            j < i < entries@.len() ==> (#[trigger] entries@[i]).0@ != Cbor::Text(key)) {
            assert(all[j] == (entries@[j].0@, entries@[j].1@));
            assert forall|i: int| j < i < all.len() implies (#[trigger] all[i]).0 != Cbor::Text(
                key,
            ) by {
                assert(entries@[i].0@ != Cbor::Text(key));
            }
            assert(fields@.contains_key(key));
            assert(attr_map(fields@)[key] == fields@[key]@);
        }
    }
}

/// Attributes by namespace and element.
pub type Attributes = Map<Seq<char>, Map<Seq<char>, Attr>>;

/// Whether attributes hold an element of a namespace with this value.
pub open spec fn holds(
    disclosed: Map<Seq<char>, Map<Seq<char>, Attr>>,
    name_space: Seq<char>,
    id: Seq<char>,
    value: Attr,
) -> bool {
    disclosed.contains_key(name_space) && disclosed[name_space].contains_key(id)
        && disclosed[name_space][id] == value
}

proof fn lemma_records_complete(
    records: Seq<RawItem>,
    k: int,
    digests: Seq<(Cbor, Cbor)>,
    algorithm: DigestAlgorithm,
    name_space: Seq<char>,
    disclosed: Attributes,
    more: Attributes,
)
    requires
        0 <= k,
        records_disclosed(records, k, digests, algorithm, name_space, disclosed) == Some(more),
    ensures
        forall|ns: Seq<char>, id: Seq<char>, value: Attr|
            holds(disclosed, ns, id, value) ==> #[trigger] holds(more, ns, id, value),
        forall|i: int|
            k <= i < records.len() ==> holds(
                more,
                name_space,
                (#[trigger] records[i]).identifier,
                item_value(records[i].item),
            ),
        forall|ns: Seq<char>, id: Seq<char>, value: Attr|
            #[trigger] holds(more, ns, id, value) ==> holds(disclosed, ns, id, value) || (ns
                == name_space && exists|i: int|
                k <= i < records.len() && (#[trigger] records[i]).identifier == id && item_value(
                    records[i].item,
                ) == value),
    decreases records.len() - k,
{
    if k < records.len() {
        let value = item_value(records[k].item);
        let next = disclose(disclosed, name_space, records[k].identifier, value);
        lemma_records_complete(records, k + 1, digests, algorithm, name_space, next, more);
        assert(holds(next, name_space, records[k].identifier, value));
        assert forall|ns: Seq<char>, id: Seq<char>, v: Attr|
            holds(disclosed, ns, id, v) implies #[trigger] holds(more, ns, id, v) by {
            assert(!shadows(disclosed, name_space, records[k].identifier, value));
            assert(holds(next, ns, id, v));
        }
        assert forall|ns: Seq<char>, id: Seq<char>, v: Attr|
            #[trigger] holds(more, ns, id, v) implies holds(disclosed, ns, id, v) || (ns
            == name_space && exists|i: int|
            k <= i < records.len() && (#[trigger] records[i]).identifier == id && item_value(
                records[i].item,
            ) == v) by {
            if holds(next, ns, id, v) && !holds(disclosed, ns, id, v) {
                assert(ns == name_space && records[k].identifier == id && value == v);
            }
        }
    }
}

/// Whether namespace entries list a namespace.
pub open spec fn lists_space(entries: Seq<(Cbor, Cbor)>, name_space: Seq<char>) -> bool {
    exists|j: int| 0 <= j < entries.len() && (#[trigger] entries[j]).0 == Cbor::Text(name_space)
}

/// Whether some record of a namespace gives an element this value.
spec fn some_record(
    records: Map<Seq<char>, Seq<RawItem>>,
    name_space: Seq<char>,
    id: Seq<char>,
    value: Attr,
) -> bool {
    records.contains_key(name_space) && exists|i: int|
        0 <= i < records[name_space].len() && (#[trigger] records[name_space][i]).identifier == id
            && item_value(records[name_space][i].item) == value
}

proof fn lemma_spaces_complete(
    name_spaces: Seq<(Cbor, Cbor)>,
    k: int,
    records: Map<Seq<char>, Seq<RawItem>>,
    value_digests: Seq<(Cbor, Cbor)>,
    algorithm: DigestAlgorithm,
    disclosed: Attributes,
    more: Attributes,
)
    requires
        0 <= k,
        spaces_disclosed(name_spaces, k, records, value_digests, algorithm, disclosed) == Ok::<
            Attributes,
            crate::types::ReasonCode,
        >(more),
    ensures
        forall|ns: Seq<char>, id: Seq<char>, value: Attr|
            holds(disclosed, ns, id, value) ==> #[trigger] holds(more, ns, id, value),
        forall|j: int, id: Seq<char>, value: Attr|
            k <= j < name_spaces.len() && #[trigger] some_record(
                records,
                (#[trigger] name_spaces[j]).0->Text_0,
                id,
                value,
            ) ==> holds(more, name_spaces[j].0->Text_0, id, value),
        forall|j: int| k <= j < name_spaces.len() ==> (#[trigger] name_spaces[j]).0 is Text,
        forall|ns: Seq<char>, id: Seq<char>, value: Attr|
            #[trigger] holds(more, ns, id, value) ==> holds(disclosed, ns, id, value) || (
            some_record(records, ns, id, value) && exists|j: int|
                k <= j < name_spaces.len() && (#[trigger] name_spaces[j]).0 == Cbor::Text(ns)),
    decreases name_spaces.len() - k,
{
    if k < name_spaces.len() {
        let ns = name_spaces[k].0->Text_0;
        let digests = crate::cbor::entry_value(value_digests, ns)->0->Pairs_0;
        let next = records_disclosed(records[ns], 0, digests, algorithm, ns, disclosed)->0;
        lemma_records_complete(records[ns], 0, digests, algorithm, ns, disclosed, next);
        lemma_spaces_complete(name_spaces, k + 1, records, value_digests, algorithm, next, more);
        assert forall|n: Seq<char>, id: Seq<char>, value: Attr|
            holds(disclosed, n, id, value) implies #[trigger] holds(more, n, id, value) by {
            assert(holds(next, n, id, value));
        }
        assert forall|j: int, id: Seq<char>, value: Attr|
            k <= j < name_spaces.len() && #[trigger] some_record(
                records,
                (#[trigger] name_spaces[j]).0->Text_0,
                id,
                value,
            ) implies holds(more, name_spaces[j].0->Text_0, id, value) by {
            if j == k {
                let i = choose|i: int|
                    0 <= i < records[ns].len() && (#[trigger] records[ns][i]).identifier == id
                        && item_value(records[ns][i].item) == value;
                assert(holds(next, ns, records[ns][i].identifier, item_value(records[ns][i].item)));
            }
        }
        assert forall|n: Seq<char>, id: Seq<char>, value: Attr|
            #[trigger] holds(more, n, id, value) implies holds(disclosed, n, id, value) || (
        some_record(records, n, id, value) && exists|j: int|
            k <= j < name_spaces.len() && (#[trigger] name_spaces[j]).0 == Cbor::Text(n)) by {
            if holds(next, n, id, value) {
                if !holds(disclosed, n, id, value) {
                    assert(name_spaces[k].0 == Cbor::Text(n));
                    assert(some_record(records, n, id, value));
                }
            } else {
                let j = choose|j: int|
                    k + 1 <= j < name_spaces.len() && (#[trigger] name_spaces[j]).0 == Cbor::Text(n);
                assert(name_spaces[j].0 == Cbor::Text(n));
            }
        }
    }
}

proof fn lemma_documents_reverse<A: TrustAnchorSource + ?Sized>(
    response: Seq<u8>,
    documents: Seq<Cbor>,
    k: int,
    anchors: &A,
    params: MdocVerifyParams<'_>,
    facts: ResponseFacts,
    end: ResponseFacts,
)
    requires
        0 <= k,
        documents_verdict(
            documents,
            k,
            items_of_response(response),
            anchors,
            params.statuses@,
            seen(params.session_transcript),
            params.role,
            params.now_unix as int,
            facts,
        ) == Ok::<ResponseFacts, crate::types::ReasonCode>(end),
    ensures
        forall|ns: Seq<char>, id: Seq<char>, value: Attr|
            #[trigger] holds(end.disclosed, ns, id, value) ==> holds(
                facts.disclosed,
                ns,
                id,
                value,
            ) || exists|j: int|
                k <= j < documents.len() && holds(
                    #[trigger] document_attributes(response, documents, j, anchors, params),
                    ns,
                    id,
                    value,
                ),
    decreases documents.len() - k,
{
    if k < documents.len() {
        let document = document_verdict(
            documents[k],
            records_at(items_of_response(response), k),
            anchors,
            status_at(params.statuses@, k),
            seen(params.session_transcript),
            params.role,
            params.now_unix as int,
        )->Ok_0;
        let next = with_document(facts, document);
        lemma_documents_reverse(response, documents, k + 1, anchors, params, next, end);
        assert(document_attributes(response, documents, k, anchors, params) == document.disclosed);
        assert forall|ns: Seq<char>, id: Seq<char>, value: Attr|
            #[trigger] holds(end.disclosed, ns, id, value) implies holds(
            facts.disclosed,
            ns,
            id,
            value,
        ) || exists|j: int|
            k <= j < documents.len() && holds(
                #[trigger] document_attributes(response, documents, j, anchors, params),
                ns,
                id,
                value,
            ) by {
            if holds(next.disclosed, ns, id, value) && !holds(facts.disclosed, ns, id, value) {
                assert(holds(
                    document_attributes(response, documents, k, anchors, params),
                    ns,
                    id,
                    value,
                ));
            }
        }
    }
}

/// Whether an item that was captured of the document at position `k` gives an element of a
/// namespace this value, and the issuer's part of the document lists the namespace.
pub open spec fn issued_value(
    response: Seq<u8>,
    k: int,
    name_space: Seq<char>,
    id: Seq<char>,
    value: Attr,
) -> bool {
    let captured = items_of_response(response);
    let document = response_documents(response)->0[k];
    &&& 0 <= k < captured.len()
    &&& captured[k].contains_key(name_space)
    &&& map_entry(document, "issuerSigned"@) matches Some(issuer_signed) && map_entry(
        issuer_signed,
        "nameSpaces"@,
    ) matches Some(Cbor::Pairs(entries)) && lists_space(entries, name_space)
    &&& exists|i: int|
        0 <= i < captured[k][name_space].len() && item_says(
            (#[trigger] captured[k][name_space][i]).item,
            id,
            value,
        )
}

/// Whether an item names an element and gives it this value.
pub open spec fn item_says(item: Cbor, id: Seq<char>, value: Attr) -> bool {
    &&& map_entry(item, "elementIdentifier"@) == Some(Cbor::Text(id))
    &&& map_entry(item, "elementValue"@) matches Some(element) && attr_of(element) == value
}

proof fn lemma_document_exact<A: TrustAnchorSource + ?Sized>(
    response: Seq<u8>,
    documents: Seq<Cbor>,
    k: int,
    anchors: &A,
    params: MdocVerifyParams<'_>,
    ns: Seq<char>,
    id: Seq<char>,
    value: Attr,
)
    requires
        response_documents(response) == Some(documents),
        0 <= k < documents.len(),
        document_passes(response, documents, k, anchors, params),
    ensures
        holds(document_attributes(response, documents, k, anchors, params), ns, id, value)
            <==> issued_value(response, k, ns, id, value),
{
    let captured = items_of_response(response);
    let document = documents[k];
    let issuer_signed = map_entry(document, "issuerSigned"@)->0;
    let (sign1, mso) = crate::mdoc::verify::issuer_object(issuer_signed)->0;
    let name = crate::cbor::text_entry(mso, "digestAlgorithm"@)->0;
    let algorithm = crate::mdoc::digests::algorithm_named(name)->0;
    let records = records_at(captured, k);
    assert(digests_verdict(issuer_signed, records, mso, algorithm) is Ok);
    assert(records is Some);
    let entries = map_entry(issuer_signed, "nameSpaces"@)->0->Pairs_0;
    let value_digests = map_entry(mso, "valueDigests"@)->0->Pairs_0;
    let all = document_attributes(response, documents, k, anchors, params);
    lemma_spaces_complete(entries, 0, captured[k], value_digests, algorithm, Map::empty(), all);
    crate::mdoc::laws::law_records_are_on_the_wire(response);
    assert(crate::mdoc::laws::document_on_the_wire(response, captured[k]));
    if captured[k].contains_key(ns) {
        assert(crate::mdoc::laws::list_on_the_wire(response, captured[k][ns]));
        assert forall|i: int| 0 <= i < captured[k][ns].len() implies {
            let record = #[trigger] captured[k][ns][i];
            &&& map_entry(record.item, "elementIdentifier"@) == Some(Cbor::Text(record.identifier))
            &&& map_entry(record.item, "elementValue"@) is Some
        } by {
            assert(crate::mdoc::laws::on_the_wire(response, captured[k][ns][i]));
        }
    }
    if holds(all, ns, id, value) {
        assert(some_record(captured[k], ns, id, value));
        let i = choose|i: int|
            0 <= i < captured[k][ns].len() && (#[trigger] captured[k][ns][i]).identifier == id
                && item_value(captured[k][ns][i].item) == value;
        assert(item_says(captured[k][ns][i].item, id, value));
        assert(lists_space(entries, ns));
    }
    if issued_value(response, k, ns, id, value) {
        let i = choose|i: int|
            0 <= i < captured[k][ns].len() && item_says(
                (#[trigger] captured[k][ns][i]).item,
                id,
                value,
            );
        assert(captured[k][ns][i].identifier == id);
        assert(some_record(captured[k], ns, id, value));
        let j = choose|j: int| 0 <= j < entries.len() && (#[trigger] entries[j]).0 == Cbor::Text(ns);
        assert(some_record(captured[k], entries[j].0->Text_0, id, value));
    }
}

/// Whether a result shows an element of a namespace with this value.
pub open spec fn shows(
    result: VerificationResult,
    name_space: Seq<char>,
    id: Seq<char>,
    value: Attr,
) -> bool {
    &&& result.disclosed_attributes@.contains_key(name_space)
    &&& result.disclosed_attributes@[name_space] matches AttributeValue::Fields(fields)
        && fields@.contains_key(id) && fields@[id]@ == value
}

proof fn lemma_shows(
    result: VerificationResult,
    disclosed: Attributes,
    name_space: Seq<char>,
    id: Seq<char>,
    value: Attr,
)
    requires
        attr_map(result.disclosed_attributes@) == grouped(disclosed),
    ensures
        shows(result, name_space, id, value) <==> holds(disclosed, name_space, id, value),
{
    let map = result.disclosed_attributes@;
    assert(attr_map(map).contains_key(name_space) == map.contains_key(name_space));
    assert(grouped(disclosed).contains_key(name_space) == disclosed.contains_key(name_space));
    if map.contains_key(name_space) {
        assert(attr_map(map)[name_space] == map[name_space]@);
        assert(grouped(disclosed)[name_space] == Attr::Fields(disclosed[name_space]));
        if let AttributeValue::Fields(fields) = map[name_space] {
            lemma_fields_content(fields);
            assert(attr_map(fields@) == disclosed[name_space]);
            assert(attr_map(fields@).contains_key(id) == fields@.contains_key(id));
            if fields@.contains_key(id) {
                assert(attr_map(fields@)[id] == fields@[id]@);
            }
        }
    }
}

/// A valid result shows an element with a value exactly where some document has an issued item that
/// says so: nothing is left out, nothing is made up, and no value is changed.
pub proof fn law_valid_results_show_what_was_issued<A: TrustAnchorSource + ?Sized>(
    device_response: &[u8],
    anchors: &A,
    params: &MdocVerifyParams<'_>,
    out: (VerificationResult, MdocVerifyMeta),
    name_space: Seq<char>,
    id: Seq<char>,
    value: Attr,
)
    requires
        call_ensures(verify_with_meta::<A>, (device_response, anchors, params), out),
        out.0.valid,
    ensures
        response_documents(device_response@) is Some,
        shows(out.0, name_space, id, value) <==> exists|k: int|
            0 <= k < response_documents(device_response@)->0.len() && #[trigger] issued_value(
                device_response@,
                k,
                name_space,
                id,
                value,
            ),
{
    let response = device_response@;
    law_valid_covers_every_document(response, anchors, *params);
    let documents = response_documents(response)->0;
    let end = all_documents_verdict(response, documents, anchors, *params)->Ok_0;
    lemma_documents_reverse(response, documents, 0, anchors, *params, no_facts(), end);
    assert(out.0@.disclosed_attributes == grouped(end.disclosed));
    assert(attr_map(out.0.disclosed_attributes@) == grouped(end.disclosed));
    lemma_shows(out.0, end.disclosed, name_space, id, value);
    if holds(end.disclosed, name_space, id, value) {
        let j = choose|j: int|
            0 <= j < documents.len() && holds(
                #[trigger] document_attributes(response, documents, j, anchors, *params),
                name_space,
                id,
                value,
            );
        assert(document_passes(response, documents, j, anchors, *params));
        lemma_document_exact(response, documents, j, anchors, *params, name_space, id, value);
        assert(issued_value(response, j, name_space, id, value));
    }
    if exists|k: int|
        0 <= k < documents.len() && #[trigger] issued_value(response, k, name_space, id, value) {
        let k = choose|k: int|
            0 <= k < documents.len() && #[trigger] issued_value(
                response,
                k,
                name_space,
                id,
                value,
            );
        assert(document_passes(response, documents, k, anchors, *params));
        lemma_document_exact(response, documents, k, anchors, *params, name_space, id, value);
        let one = document_attributes(response, documents, k, anchors, *params);
        assert(keeps(one, end.disclosed));
        assert(space(one, name_space).contains_key(id));
        assert(space(end.disclosed, name_space).contains_key(id));
    }
}

} // verus!
