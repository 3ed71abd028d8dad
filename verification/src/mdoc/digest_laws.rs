//! Which items pass the check of their digests.
use crate::cbor::{entry_value, map_entry, Cbor, CborValue};
use crate::mdoc::acceptance_laws::is_number;
use crate::mdoc::attributes::{
    clash, disclose, merged, shadows, space, space_clash, DisclosedByNamespace,
};
use crate::mdoc::digests::{
    authentic, digest_of, expected_digest, item_value, records_disclosed, spaces_disclosed,
    verify_value_digests, DigestAlgorithm,
};
use crate::mdoc::failure::VerifyFailure;
use crate::mdoc::items::{document_items, items_of_response, RawDocumentItems, RawItem};
use crate::mdoc::laws::{document_attributes, document_passes};
use crate::mdoc::part_laws::says_bytes;
use crate::mdoc::value_laws::Attributes;
use crate::mdoc::verify::{
    document_verdict, documents_verdict, no_facts, records_at, response_documents, status_at,
    verify_with_meta, with_document, MdocVerifyMeta, MdocVerifyParams, ResponseFacts,
};
use crate::text::seen;
use crate::trust::TrustAnchorSource;
use crate::types::{Attr, ReasonCode, VerificationResult};
use vstd::prelude::*;

verus! {

/// Whether attributes say of each element what a function says of it.
pub open spec fn agrees(disclosed: Attributes, says: spec_fn(Seq<char>, Seq<char>) -> Attr) -> bool {
    forall|name_space: Seq<char>, id: Seq<char>| #[trigger]
        space(disclosed, name_space).contains_key(id) ==> space(disclosed, name_space)[id] == says(
            name_space,
            id,
        )
}

/// Whether the items captured of a namespace have the digests recorded for them, each under an
/// identifier of its own, and say of each element what a function says of it.
pub open spec fn space_matches(
    records: Seq<RawItem>,
    digests: Seq<(Cbor, Cbor)>,
    algorithm: DigestAlgorithm,
    name_space: Seq<char>,
    says: spec_fn(Seq<char>, Seq<char>) -> Attr,
) -> bool {
    &&& forall|i: int|
        0 <= i < records.len() ==> says_bytes(
            digests,
            (#[trigger] records[i]).digest_id as int,
            digest_of(algorithm, records[i].raw_bytes),
        )
    &&& forall|i: int, j: int|
        0 <= j < i < records.len() ==> (#[trigger] records[j]).digest_id != (
        #[trigger] records[i]).digest_id
    &&& forall|i: int|
        0 <= i < records.len() ==> item_value((#[trigger] records[i]).item) == says(
            name_space,
            records[i].identifier,
        )
}

proof fn lemma_recorded(digests: Seq<(Cbor, Cbor)>, id: i64, digest: Seq<u8>)
    requires
        says_bytes(digests, id as int, digest),
    ensures
        expected_digest(digests, id) == Some(digest),
    decreases digests.len(),
{
    let n = digests.len() - 1;
    let i = choose|i: int|
        0 <= i < digests.len() && is_number((#[trigger] digests[i]).0, id as int);
    assert(digests[n] == digests.last());
    if !is_number(digests.last().0, id as int) {
        let shorter = digests.drop_last();
        assert(shorter[i] == digests[i]);
        assert forall|j: int|
            0 <= j < shorter.len() && is_number((#[trigger] shorter[j]).0, id as int) implies
            shorter[j].1 == Cbor::Bytes(digest) by {
            assert(shorter[j] == digests[j]);
        }
        lemma_recorded(shorter, id, digest);
    }
}

proof fn lemma_records_match(
    records: Seq<RawItem>,
    k: int,
    digests: Seq<(Cbor, Cbor)>,
    algorithm: DigestAlgorithm,
    name_space: Seq<char>,
    disclosed: Attributes,
    says: spec_fn(Seq<char>, Seq<char>) -> Attr,
)
    requires
        0 <= k,
        space_matches(records, digests, algorithm, name_space, says),
        agrees(disclosed, says),
    ensures
        records_disclosed(records, k, digests, algorithm, name_space, disclosed) matches Some(more)
            && agrees(more, says),
    decreases records.len() - k,
{
    if k < records.len() {
        let record = records[k];
        let value = item_value(record.item);
        lemma_recorded(digests, record.digest_id, digest_of(algorithm, record.raw_bytes));
        assert(authentic(records, k, digests, algorithm));
        assert(!shadows(disclosed, name_space, record.identifier, value)) by {
            if space(disclosed, name_space).contains_key(record.identifier) {
                assert(space(disclosed, name_space)[record.identifier] == says(
                    name_space,
                    record.identifier,
                ));
            }
        }
        let next = disclose(disclosed, name_space, record.identifier, value);
        assert(agrees(next, says)) by {
            assert forall|ns: Seq<char>, id: Seq<char>| #[trigger]
                space(next, ns).contains_key(id) implies space(next, ns)[id] == says(ns, id) by {
                if ns == name_space {
                    if id != record.identifier {
                        assert(space(disclosed, ns).contains_key(id));
                    }
                } else {
                    assert(space(next, ns) == space(disclosed, ns));
                    assert(space(disclosed, ns).contains_key(id));
                }
            }
        }
        lemma_records_match(records, k + 1, digests, algorithm, name_space, next, says);
    }
}

/// Whether an entry of the namespaces of a document was captured in full and matches what was
/// signed.
pub open spec fn entry_matches(
    entry: (Cbor, Cbor),
    records: Map<Seq<char>, Seq<RawItem>>,
    value_digests: Seq<(Cbor, Cbor)>,
    algorithm: DigestAlgorithm,
    says: spec_fn(Seq<char>, Seq<char>) -> Attr,
) -> bool {
    entry.0 matches Cbor::Text(name_space) && entry.1 matches Cbor::Array(items) && {
        &&& records.contains_key(name_space)
        &&& records[name_space].len() == items.len()
        &&& entry_value(value_digests, name_space) matches Some(Cbor::Pairs(digests))
            && space_matches(records[name_space], digests, algorithm, name_space, says)
    }
}

proof fn lemma_spaces_match(
    entries: Seq<(Cbor, Cbor)>,
    k: int,
    records: Map<Seq<char>, Seq<RawItem>>,
    value_digests: Seq<(Cbor, Cbor)>,
    algorithm: DigestAlgorithm,
    disclosed: Attributes,
    says: spec_fn(Seq<char>, Seq<char>) -> Attr,
)
    requires
        0 <= k,
        forall|i: int|
            0 <= i < entries.len() ==> entry_matches(
                #[trigger] entries[i],
                records,
                value_digests,
                algorithm,
                says,
            ),
        agrees(disclosed, says),
    ensures
        spaces_disclosed(entries, k, records, value_digests, algorithm, disclosed) is Ok,
    decreases entries.len() - k,
{
    if k < entries.len() {
        assert(entry_matches(entries[k], records, value_digests, algorithm, says));
        let name_space = entries[k].0->Text_0;
        let digests = entry_value(value_digests, name_space)->0->Pairs_0;
        lemma_records_match(
            records[name_space],
            0,
            digests,
            algorithm,
            name_space,
            disclosed,
            says,
        );
        let more = records_disclosed(
            records[name_space],
            0,
            digests,
            algorithm,
            name_space,
            disclosed,
        )->0;
        lemma_spaces_match(entries, k + 1, records, value_digests, algorithm, more, says);
    }
}

proof fn lemma_reason(
    entries: Seq<(Cbor, Cbor)>,
    k: int,
    records: Map<Seq<char>, Seq<RawItem>>,
    value_digests: Seq<(Cbor, Cbor)>,
    algorithm: DigestAlgorithm,
    disclosed: Attributes,
)
    requires
        0 <= k,
        forall|i: int|
            0 <= i < entries.len() ==> (#[trigger] entries[i]).0 is Text && entries[i].1 is Array,
    ensures
        spaces_disclosed(entries, k, records, value_digests, algorithm, disclosed) matches Err(
            reason,
        ) ==> reason == ReasonCode::DisclosureIntegrity,
    decreases entries.len() - k,
{
    if k < entries.len() {
        let name_space = entries[k].0->Text_0;
        if let Some(Cbor::Pairs(digests)) = entry_value(value_digests, name_space) {
            if let Some(more) = records_disclosed(
                records[name_space],
                0,
                digests,
                algorithm,
                name_space,
                disclosed,
            ) {
                lemma_reason(entries, k + 1, records, value_digests, algorithm, more);
            }
        }
    }
}

/// Items under their namespaces that do not pass fail the integrity of the disclosure, and so does
/// a document of which nothing was captured.
pub proof fn law_other_items_fail_the_integrity(
    issuer_signed: &CborValue,
    records: Option<&RawDocumentItems<'_>>,
    mso: &CborValue,
    algorithm: DigestAlgorithm,
    entries: Seq<(Cbor, Cbor)>,
    out: Result<DisclosedByNamespace, VerifyFailure>,
)
    requires
        call_ensures(verify_value_digests, (issuer_signed, records, mso, algorithm), out),
        map_entry(issuer_signed@, "nameSpaces"@) == Some(Cbor::Pairs(entries)),
        map_entry(mso@, "valueDigests"@) is Some,
        map_entry(mso@, "valueDigests"@)->0 is Pairs,
        forall|i: int|
            0 <= i < entries.len() ==> (#[trigger] entries[i]).0 is Text && entries[i].1 is Array,
    ensures
        out matches Err(failure) ==> failure.reason == ReasonCode::DisclosureIntegrity,
        records is None ==> out is Err,
{
    if let Some(captured) = records {
        lemma_reason(
            entries,
            0,
            document_items(captured@),
            map_entry(mso@, "valueDigests"@)->0->Pairs_0,
            algorithm,
            Map::empty(),
        );
    }
}

/// Items that match pass: where every namespace was captured in full, every item has the digest
/// that was signed for it under an identifier of its own, and no two items say different things of
/// one element, the digests are verified. Without namespaces or digests a document is malformed.
pub proof fn law_matching_items_pass(
    issuer_signed: &CborValue,
    records: Option<&RawDocumentItems<'_>>,
    mso: &CborValue,
    algorithm: DigestAlgorithm,
    says: spec_fn(Seq<char>, Seq<char>) -> Attr,
    out: Result<DisclosedByNamespace, VerifyFailure>,
)
    requires
        call_ensures(verify_value_digests, (issuer_signed, records, mso, algorithm), out),
    ensures
        !(map_entry(issuer_signed@, "nameSpaces"@) is Some && map_entry(
            issuer_signed@,
            "nameSpaces"@,
        )->0 is Pairs) ==> (out matches Err(failure) && failure.reason
            == ReasonCode::MalformedCredential),
        !(map_entry(mso@, "valueDigests"@) is Some && map_entry(mso@, "valueDigests"@)->0 is Pairs)
            ==> (out matches Err(failure) && failure.reason == ReasonCode::MalformedCredential),
        records matches Some(captured) && map_entry(issuer_signed@, "nameSpaces"@) matches Some(
            Cbor::Pairs(entries),
        ) && map_entry(mso@, "valueDigests"@) matches Some(Cbor::Pairs(value_digests)) && (forall|
            i: int,
        |
            0 <= i < entries.len() ==> entry_matches(
                #[trigger] entries[i],
                document_items(captured@),
                value_digests,
                algorithm,
                says,
            )) ==> out is Ok,
{
    if let Some(captured) = records {
        if let Some(Cbor::Pairs(entries)) = map_entry(issuer_signed@, "nameSpaces"@) {
            if let Some(Cbor::Pairs(value_digests)) = map_entry(mso@, "valueDigests"@) {
                if forall|i: int|
                    0 <= i < entries.len() ==> entry_matches(
                        #[trigger] entries[i],
                        document_items(captured@),
                        value_digests,
                        algorithm,
                        says,
                    ) {
                    lemma_spaces_match(
                        entries,
                        0,
                        document_items(captured@),
                        value_digests,
                        algorithm,
                        Map::empty(),
                        says,
                    );
                }
            }
        }
    }
}

proof fn lemma_together<A: TrustAnchorSource + ?Sized>(
    response: Seq<u8>,
    documents: Seq<Cbor>,
    k: int,
    anchors: &A,
    params: MdocVerifyParams<'_>,
    facts: ResponseFacts,
    says: spec_fn(Seq<char>, Seq<char>) -> Attr,
)
    requires
        0 <= k <= documents.len(),
        agrees(facts.disclosed, says),
        forall|j: int|
            k <= j < documents.len() ==> #[trigger] document_passes(
                response,
                documents,
                j,
                anchors,
                params,
            ),
        forall|j: int|
            k <= j < documents.len() ==> agrees(
                #[trigger] document_attributes(response, documents, j, anchors, params),
                says,
            ),
    ensures
        documents_verdict(
            documents,
            k,
            items_of_response(response),
            anchors,
            params.statuses@,
            seen(params.session_transcript),
            params.role,
            params.now_unix as int,
            facts,
        ) is Ok,
    decreases documents.len() - k,
{
    if k < documents.len() {
        let more = document_attributes(response, documents, k, anchors, params);
        assert(document_passes(response, documents, k, anchors, params));
        lemma_no_clash(facts.disclosed, more, says);
        let document = document_verdict(
            documents[k],
            records_at(items_of_response(response), k),
            anchors,
            status_at(params.statuses@, k),
            seen(params.session_transcript),
            params.role,
            params.now_unix as int,
        )->Ok_0;
        assert(document.disclosed == more);
        lemma_together(
            response,
            documents,
            k + 1,
            anchors,
            params,
            with_document(facts, document),
            says,
        );
    }
}

proof fn lemma_no_clash(
    disclosed: Attributes,
    more: Attributes,
    says: spec_fn(Seq<char>, Seq<char>) -> Attr,
)
    requires
        agrees(disclosed, says),
        agrees(more, says),
    ensures
        !clash(disclosed, more),
        agrees(merged(disclosed, more), says),
{
    assert forall|name_space: Seq<char>| #[trigger]
        more.contains_key(name_space) implies !space_clash(
        disclosed,
        name_space,
        more[name_space],
    ) by {
        assert forall|id: Seq<char>| #[trigger]
            more[name_space].contains_key(id) implies !shadows(
            disclosed,
            name_space,
            id,
            more[name_space][id],
        ) by {
            assert(space(more, name_space).contains_key(id));
            if space(disclosed, name_space).contains_key(id) {
                assert(space(disclosed, name_space)[id] == says(name_space, id));
            }
        }
    }
    let both = merged(disclosed, more);
    assert forall|name_space: Seq<char>, id: Seq<char>| #[trigger]
        space(both, name_space).contains_key(id) implies space(both, name_space)[id] == says(
        name_space,
        id,
    ) by {
        if space(more, name_space).contains_key(id) {
            assert(space(both, name_space)[id] == space(more, name_space)[id]);
        } else {
            assert(space(disclosed, name_space).contains_key(id));
        }
    }
}

/// A response is valid where each of its documents passes and no two of them say different things
/// of one element.
pub proof fn law_passing_documents_are_accepted_together<A: TrustAnchorSource + ?Sized>(
    device_response: &[u8],
    anchors: &A,
    params: &MdocVerifyParams<'_>,
    says: spec_fn(Seq<char>, Seq<char>) -> Attr,
    out: (VerificationResult, MdocVerifyMeta),
)
    requires
        call_ensures(verify_with_meta::<A>, (device_response, anchors, params), out),
        response_documents(device_response@) is Some,
        forall|j: int|
            0 <= j < response_documents(device_response@)->0.len() ==> #[trigger] document_passes(
                device_response@,
                response_documents(device_response@)->0,
                j,
                anchors,
                *params,
            ),
        forall|j: int|
            0 <= j < response_documents(device_response@)->0.len() ==> agrees(
                #[trigger] document_attributes(
                    device_response@,
                    response_documents(device_response@)->0,
                    j,
                    anchors,
                    *params,
                ),
                says,
            ),
    ensures
        out.0.valid,
        out.0.reasons@.len() == 0,
{
    let documents = response_documents(device_response@)->0;
    lemma_together(device_response@, documents, 0, anchors, *params, no_facts(), says);
}

} // verus!
