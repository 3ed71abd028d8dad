//! What a verdict on a response guarantees.
use crate::cbor::{cbor_decoded, entry_value, map_entry, text_entry, Cbor};
use crate::mdoc::attributes::{disclose, law_merge_never_shadows, space};
use crate::mdoc::binding::device_authentication_bytes;
use crate::mdoc::cose::{sign1_of, signed_by_certificate, signed_detached, x5chain};
use crate::mdoc::cursor::{skip_at, tagged_bstr_at};
use crate::mdoc::digests::{
    authentic, digests_verdict, item_value, records_disclosed, spaces_disclosed, DigestAlgorithm,
};
use crate::mdoc::grammar::law_one_complete_item;
use crate::mdoc::items::{
    document_at, document_map_at, documents_at, found_or_empty, issuer_signed_at,
    issuer_signed_map_at, item_of, items_at, items_of_response, items_under, name_spaces_at,
    name_spaces_map_at, response_at, RawItem,
};
use crate::mdoc::mso::{device_key, validity_facts};
use crate::mdoc::verify::{
    all_documents_verdict, document_verdict, documents_verdict, effective_role, issuer_object,
    mdoc_verdict, no_facts, records_at, response_documents, status_at, status_refusal,
    trust_refusal, with_document, MdocVerifyParams, ResponseFacts,
};
use crate::mdoc::walk_laws::{
    document_array, entry_added, law_added_entries_are_not_captured,
    law_captured_documents_are_walked,
};
use crate::status::StatusOutcome;
use crate::text::seen;
use crate::trust::TrustAnchorSource;
use crate::types::{Attr, IssuerRole, ReasonCode};
use vstd::prelude::*;

verus! {

/// Whether the document at position `k` of a response passes every check.
pub open spec fn document_passes<A: TrustAnchorSource + ?Sized>(
    response: Seq<u8>,
    documents: Seq<Cbor>,
    k: int,
    anchors: &A,
    params: MdocVerifyParams<'_>,
) -> bool {
    document_verdict(
        documents[k],
        records_at(items_of_response(response), k),
        anchors,
        status_at(params.statuses@, k),
        seen(params.session_transcript),
        params.role,
        params.now_unix as int,
    ) is Ok
}

/// The attributes that the document at position `k` discloses.
pub open spec fn document_attributes<A: TrustAnchorSource + ?Sized>(
    response: Seq<u8>,
    documents: Seq<Cbor>,
    k: int,
    anchors: &A,
    params: MdocVerifyParams<'_>,
) -> Map<Seq<char>, Map<Seq<char>, Attr>> {
    document_verdict(
        documents[k],
        records_at(items_of_response(response), k),
        anchors,
        status_at(params.statuses@, k),
        seen(params.session_transcript),
        params.role,
        params.now_unix as int,
    )->Ok_0.disclosed
}

/// Whether the attributes `more` hold every attribute of `less`, with its value.
pub open spec fn keeps(
    less: Map<Seq<char>, Map<Seq<char>, Attr>>,
    more: Map<Seq<char>, Map<Seq<char>, Attr>>,
) -> bool {
    forall|name_space: Seq<char>, id: Seq<char>|
        #![trigger space(more, name_space).contains_key(id)]
        #![trigger space(less, name_space).contains_key(id)]
        space(less, name_space).contains_key(id) ==> {
            &&& space(more, name_space).contains_key(id)
            &&& space(more, name_space)[id] == space(less, name_space)[id]
        }
}

proof fn lemma_documents<A: TrustAnchorSource + ?Sized>(
    response: Seq<u8>,
    documents: Seq<Cbor>,
    k: int,
    anchors: &A,
    params: MdocVerifyParams<'_>,
    facts: ResponseFacts,
)
    requires
        0 <= k,
        documents_verdict(
            documents,
            k,
            items_of_response(response),
            anchors,
            params.statuses@,
            seen(params.session_transcript),
            params.role,
            params.now_unix as int,
            facts,
        ) is Ok,
    ensures
        ({
            let end = documents_verdict(
                documents,
                k,
                items_of_response(response),
                anchors,
                params.statuses@,
                seen(params.session_transcript),
                params.role,
                params.now_unix as int,
                facts,
            )->Ok_0;
            &&& keeps(facts.disclosed, end.disclosed)
            &&& forall|j: int|
                k <= j < documents.len() ==> #[trigger] document_passes(
                    response,
                    documents,
                    j,
                    anchors,
                    params,
                )
            &&& forall|j: int|
                k <= j < documents.len() ==> keeps(
                    #[trigger] document_attributes(response, documents, j, anchors, params),
                    end.disclosed,
                )
        }),
    decreases documents.len() - k,
{
    if k < documents.len() {
        let document = document_verdict(
            documents[k],
            records_at(items_of_response(response), k),
            anchors,
            status_at(params.statuses@, k),
            seen(params.session_transcript),
            params.role,
            params.now_unix as int,
        )->Ok_0;
        let next = with_document(facts, document);
        lemma_documents(response, documents, k + 1, anchors, params, next);
        assert(document_passes(response, documents, k, anchors, params));
        assert(document_attributes(response, documents, k, anchors, params) == document.disclosed);
        let end = documents_verdict(
            documents,
            k,
            items_of_response(response),
            anchors,
            params.statuses@,
            seen(params.session_transcript),
            params.role,
            params.now_unix as int,
            facts,
        )->Ok_0;
        assert forall|name_space: Seq<char>, id: Seq<char>| #[trigger]
            space(facts.disclosed, name_space).contains_key(id) implies space(
            end.disclosed,
            name_space,
        ).contains_key(id) && space(end.disclosed, name_space)[id] == space(
            facts.disclosed,
            name_space,
        )[id] by {
            law_merge_never_shadows(facts.disclosed, document.disclosed, name_space, id);
            assert(space(next.disclosed, name_space).contains_key(id));
        }
        assert forall|name_space: Seq<char>, id: Seq<char>| #[trigger]
            space(document.disclosed, name_space).contains_key(id) implies space(
            end.disclosed,
            name_space,
        ).contains_key(id) && space(end.disclosed, name_space)[id] == space(
            document.disclosed,
            name_space,
        )[id] by {
            law_merge_never_shadows(facts.disclosed, document.disclosed, name_space, id);
            assert(space(next.disclosed, name_space).contains_key(id));
        }
    }
}

/// A valid verdict covers every document: the response is one definite-length item, it has at least
/// one document, each of them passes every check, and every attribute that one of them discloses is
/// in the result with its value.
pub proof fn law_valid_covers_every_document<A: TrustAnchorSource + ?Sized>(
    response: Seq<u8>,
    anchors: &A,
    params: MdocVerifyParams<'_>,
)
    requires
        mdoc_verdict(response, anchors, params).0.valid,
    ensures
        skip_at(response, 0, 1) == (true, response.len() as int),
        response_documents(response) is Some,
        response_documents(response)->0.len() > 0,
        forall|k: int|
            0 <= k < response_documents(response)->0.len() ==> #[trigger] document_passes(
                response,
                response_documents(response)->0,
                k,
                anchors,
                params,
            ),
        forall|k: int|
            0 <= k < response_documents(response)->0.len() ==> keeps(
                #[trigger] document_attributes(
                    response,
                    response_documents(response)->0,
                    k,
                    anchors,
                    params,
                ),
                all_documents_verdict(
                    response,
                    response_documents(response)->0,
                    anchors,
                    params,
                )->Ok_0.disclosed,
            ),
{
    let documents = response_documents(response)->0;
    lemma_documents(response, documents, 0, anchors, params, no_facts());
}

/// A verdict that is not valid gives exactly one reason, discloses nothing, and names no issuer and
/// no document type; the binding machinery is classified exactly where the holder binding failed.
pub proof fn law_invalid_discloses_nothing<A: TrustAnchorSource + ?Sized>(
    response: Seq<u8>,
    anchors: &A,
    params: MdocVerifyParams<'_>,
)
    requires
        !mdoc_verdict(response, anchors, params).0.valid,
    ensures
        mdoc_verdict(response, anchors, params).0.disclosed_attributes == Map::<
            Seq<char>,
            Attr,
        >::empty(),
        mdoc_verdict(response, anchors, params).0.reasons.len() == 1,
        mdoc_verdict(response, anchors, params).1.claimed_issuers.len() == 0,
        mdoc_verdict(response, anchors, params).1.doc_types.len() == 0,
        mdoc_verdict(response, anchors, params).1.binding_machinery is Some <==> mdoc_verdict(
            response,
            anchors,
            params,
        ).0.reasons[0] == ReasonCode::HolderBinding,
{
}

/// Without a session transcript no response is valid, and neither is one with a document that the
/// list of statuses does not reach or that is revoked.
pub proof fn law_fails_closed<A: TrustAnchorSource + ?Sized>(
    response: Seq<u8>,
    anchors: &A,
    params: MdocVerifyParams<'_>,
)
    requires
        response_documents(response) is Some,
    ensures
        params.session_transcript is None ==> !mdoc_verdict(response, anchors, params).0.valid,
        params.statuses@.len() < response_documents(response)->0.len() ==> !mdoc_verdict(
            response,
            anchors,
            params,
        ).0.valid,
        forall|k: int|
            0 <= k < response_documents(response)->0.len() && #[trigger] status_at(
                params.statuses@,
                k,
            ) == StatusOutcome::Revoked ==> !mdoc_verdict(response, anchors, params).0.valid,
{
    let documents = response_documents(response)->0;
    if mdoc_verdict(response, anchors, params).0.valid {
        law_valid_covers_every_document(response, anchors, params);
        assert(document_passes(response, documents, 0, anchors, params));
        if params.statuses@.len() < documents.len() {
            let k = documents.len() - 1;
            assert(document_passes(response, documents, k, anchors, params));
            assert(status_at(params.statuses@, k) == StatusOutcome::Unavailable);
        }
        assert forall|k: int| 0 <= k < documents.len() implies #[trigger] status_at(
            params.statuses@,
            k,
        ) != StatusOutcome::Revoked by {
            assert(document_passes(response, documents, k, anchors, params));
        }
    }
}

/// What a document that passes proves of its issuer and its holder: the certificate of the document
/// signer signed the mobile security object and the anchors trust it in the role of the document's
/// type; the instant of verification lies in the validity window, which starts no earlier than the
/// signature; the object names the type of the document; and the device key signed the rebuilt
/// device authentication over the supplied transcript.
pub proof fn law_passing_document<A: TrustAnchorSource + ?Sized>(
    document: Cbor,
    records: Option<Map<Seq<char>, Seq<RawItem>>>,
    anchors: &A,
    status: StatusOutcome,
    transcript: Option<Seq<u8>>,
    role: IssuerRole,
    now: int,
)
    requires
        document_verdict(document, records, anchors, status, transcript, role, now) is Ok,
    ensures
        ({
            let doc_type = text_entry(document, "docType"@)->0;
            let issuer_signed = map_entry(document, "issuerSigned"@)->0;
            let device_signed = map_entry(document, "deviceSigned"@)->0;
            let (sign1, mso) = issuer_object(issuer_signed)->0;
            let chain = x5chain(sign1)->0;
            let validity = validity_facts(mso)->0;
            let signature = map_entry(
                map_entry(device_signed, "deviceAuth"@)->0,
                "deviceSignature"@,
            )->0;
            &&& issuer_object(issuer_signed) is Some
            &&& x5chain(sign1) is Some
            &&& signed_by_certificate(sign1, chain[0])
            &&& effective_role(role, mso) is Some
            &&& trust_refusal(
                anchors,
                effective_role(role, mso)->0,
                chain,
                validity.signed as i64,
            ) is None
            &&& validity_facts(mso) is Some
            &&& validity.signed <= validity.valid_from <= now <= validity.valid_until
            &&& status_refusal(status) is None
            &&& text_entry(mso, "docType"@) == Some(doc_type)
            &&& device_key(mso) is Some
            &&& transcript is Some
            &&& cbor_decoded(transcript->0) is Some
            &&& sign1_of(signature) is Some
            &&& signed_detached(
                sign1_of(signature)->0,
                device_authentication_bytes(
                    cbor_decoded(transcript->0)->0,
                    doc_type,
                    map_entry(device_signed, "nameSpaces"@)->0,
                ),
                device_key(mso)->0,
            )
        }),
{
}

/// Whether the record at `k` is authentic and says `value` of the element `identifier`.
pub open spec fn record_says(
    records: Seq<RawItem>,
    k: int,
    digests: Seq<(Cbor, Cbor)>,
    algorithm: DigestAlgorithm,
    identifier: Seq<char>,
    value: Attr,
) -> bool {
    &&& 0 <= k < records.len()
    &&& authentic(records, k, digests, algorithm)
    &&& records[k].identifier == identifier
    &&& item_value(records[k].item) == value
}

/// Whether an attribute comes from an authentic record of its namespace.
pub open spec fn attribute_authentic(
    records: Map<Seq<char>, Seq<RawItem>>,
    value_digests: Seq<(Cbor, Cbor)>,
    algorithm: DigestAlgorithm,
    name_space: Seq<char>,
    identifier: Seq<char>,
    value: Attr,
) -> bool {
    &&& records.contains_key(name_space)
    &&& entry_value(value_digests, name_space) matches Some(item) && item is Pairs
    &&& exists|k: int| #[trigger]
        record_says(
            records[name_space],
            k,
            entry_value(value_digests, name_space)->0->Pairs_0,
            algorithm,
            identifier,
            value,
        )
}

/// Whether every attribute comes from an authentic record of its namespace.
pub open spec fn all_authentic(
    records: Map<Seq<char>, Seq<RawItem>>,
    value_digests: Seq<(Cbor, Cbor)>,
    algorithm: DigestAlgorithm,
    disclosed: Map<Seq<char>, Map<Seq<char>, Attr>>,
) -> bool {
    forall|name_space: Seq<char>, id: Seq<char>| #[trigger]
        space(disclosed, name_space).contains_key(id) ==> attribute_authentic(
            records,
            value_digests,
            algorithm,
            name_space,
            id,
            space(disclosed, name_space)[id],
        )
}

proof fn lemma_records_authentic(
    all: Map<Seq<char>, Seq<RawItem>>,
    value_digests: Seq<(Cbor, Cbor)>,
    k: int,
    digests: Seq<(Cbor, Cbor)>,
    algorithm: DigestAlgorithm,
    name_space: Seq<char>,
    disclosed: Map<Seq<char>, Map<Seq<char>, Attr>>,
)
    requires
        0 <= k,
        all.contains_key(name_space),
        entry_value(value_digests, name_space) == Some(Cbor::Pairs(digests)),
        all_authentic(all, value_digests, algorithm, disclosed),
        records_disclosed(
            all[name_space],
            k,
            digests,
            algorithm,
            name_space,
            disclosed,
        ) is Some,
    ensures
        all_authentic(
            all,
            value_digests,
            algorithm,
            records_disclosed(all[name_space], k, digests, algorithm, name_space, disclosed)->0,
        ),
    decreases all[name_space].len() - k,
{
    let records = all[name_space];
    if k < records.len() {
        let value = item_value(records[k].item);
        let more = disclose(disclosed, name_space, records[k].identifier, value);
        assert forall|ns: Seq<char>, id: Seq<char>| #[trigger]
            space(more, ns).contains_key(id) implies attribute_authentic(
            all,
            value_digests,
            algorithm,
            ns,
            id,
            space(more, ns)[id],
        ) by {
            if ns == name_space && id == records[k].identifier {
                assert(space(more, ns)[id] == value);
                assert(record_says(
                    all[ns],
                    k,
                    entry_value(value_digests, ns)->0->Pairs_0,
                    algorithm,
                    id,
                    space(more, ns)[id],
                ));
            } else {
                assert(space(disclosed, ns).contains_key(id));
            }
        }
        lemma_records_authentic(
            all,
            value_digests,
            k + 1,
            digests,
            algorithm,
            name_space,
            more,
        );
    }
}

proof fn lemma_spaces_authentic(
    name_spaces: Seq<(Cbor, Cbor)>,
    k: int,
    records: Map<Seq<char>, Seq<RawItem>>,
    value_digests: Seq<(Cbor, Cbor)>,
    algorithm: DigestAlgorithm,
    disclosed: Map<Seq<char>, Map<Seq<char>, Attr>>,
)
    requires
        0 <= k,
        all_authentic(records, value_digests, algorithm, disclosed),
        spaces_disclosed(name_spaces, k, records, value_digests, algorithm, disclosed) is Ok,
    ensures
        all_authentic(
            records,
            value_digests,
            algorithm,
            spaces_disclosed(
                name_spaces,
                k,
                records,
                value_digests,
                algorithm,
                disclosed,
            )->Ok_0,
        ),
    decreases name_spaces.len() - k,
{
    if k < name_spaces.len() {
        let name_space = name_spaces[k].0->Text_0;
        let digests = entry_value(value_digests, name_space)->0->Pairs_0;
        lemma_records_authentic(
            records,
            value_digests,
            0,
            digests,
            algorithm,
            name_space,
            disclosed,
        );
        lemma_spaces_authentic(
            name_spaces,
            k + 1,
            records,
            value_digests,
            algorithm,
            records_disclosed(
                records[name_space],
                0,
                digests,
                algorithm,
                name_space,
                disclosed,
            )->0,
        );
    }
}

/// Every disclosed attribute is that of a record whose own bytes on the wire have the digest the
/// issuer signed for it, and no other record has its `digestID` before it.
pub proof fn law_disclosed_is_authentic(
    issuer_signed: Cbor,
    records: Map<Seq<char>, Seq<RawItem>>,
    mso: Cbor,
    algorithm: DigestAlgorithm,
)
    requires
        digests_verdict(issuer_signed, Some(records), mso, algorithm) is Ok,
    ensures
        map_entry(mso, "valueDigests"@) matches Some(Cbor::Pairs(value_digests)) && all_authentic(
            records,
            value_digests,
            algorithm,
            digests_verdict(issuer_signed, Some(records), mso, algorithm)->Ok_0,
        ),
{
    let name_spaces = map_entry(issuer_signed, "nameSpaces"@)->0->Pairs_0;
    let value_digests = map_entry(mso, "valueDigests"@)->0->Pairs_0;
    lemma_spaces_authentic(name_spaces, 0, records, value_digests, algorithm, Map::empty());
}

/// Whether a record is one contiguous element `#6.24(bstr)` of the input, decoded from the very
/// bytes that are hashed.
pub open spec fn on_the_wire(input: Seq<u8>, record: RawItem) -> bool {
    exists|pos: int| #[trigger]
        tagged_bstr_at(input, pos).0 matches Some((raw, inner)) && item_of(raw, inner) == Some(
            record,
        )
}

/// Whether every record of a list is on the wire.
pub open spec fn list_on_the_wire(input: Seq<u8>, records: Seq<RawItem>) -> bool {
    forall|i: int| 0 <= i < records.len() ==> on_the_wire(input, #[trigger] records[i])
}

/// Whether every record of a document is on the wire.
pub open spec fn document_on_the_wire(
    input: Seq<u8>,
    found: Map<Seq<char>, Seq<RawItem>>,
) -> bool {
    forall|name_space: Seq<char>| #[trigger]
        found.contains_key(name_space) ==> list_on_the_wire(input, found[name_space])
}

proof fn lemma_items_on_the_wire(input: Seq<u8>, pos: int, n: int, found: Seq<RawItem>)
    requires
        list_on_the_wire(input, found),
    ensures
        items_at(input, pos, n, found).0 matches Some(items) ==> list_on_the_wire(input, items),
    decreases n,
{
    if n > 0 {
        let (spans, next) = tagged_bstr_at(input, pos);
        if let Some((raw, inner)) = spans {
            let more = match item_of(raw, inner) {
                Some(item) => found.push(item),
                None => found,
            };
            assert forall|i: int| 0 <= i < more.len() implies on_the_wire(
                input,
                #[trigger] more[i],
            ) by {
                if i < found.len() {
                    assert(on_the_wire(input, found[i]));
                } else {
                    assert(tagged_bstr_at(input, pos).0 == Some((raw, inner)));
                }
            }
            lemma_items_on_the_wire(input, next, n - 1, more);
        }
    }
}

proof fn lemma_name_spaces_on_the_wire(
    input: Seq<u8>,
    pos: int,
    n: int,
    found: Map<Seq<char>, Seq<RawItem>>,
)
    requires
        document_on_the_wire(input, found),
    ensures
        name_spaces_at(input, pos, n, found).0 matches Some(items) ==> document_on_the_wire(
            input,
            items,
        ),
    decreases n,
{
    if n > 0 {
        match crate::mdoc::cursor::text_at(input, pos) {
            (Some(name_space), at_items) => {
                match crate::mdoc::cursor::count_at(input, at_items, 4) {
                    (Some(count), first) => {
                        lemma_items_on_the_wire(
                            input,
                            first,
                            count as int,
                            items_under(found, name_space),
                        );
                        match items_at(input, first, count as int, items_under(found, name_space)) {
                            (Some(items), next) => {
                                lemma_name_spaces_on_the_wire(
                                    input,
                                    next,
                                    n - 1,
                                    found.insert(name_space, items),
                                );
                            },
                            _ => {},
                        }
                    },
                    _ => {},
                }
            },
            (None, _) => {
                let (_, next) = crate::mdoc::items::skip_entry_at(input, pos);
                lemma_name_spaces_on_the_wire(input, next, n - 1, found);
            },
        }
    }
}

proof fn lemma_issuer_signed_on_the_wire(
    input: Seq<u8>,
    pos: int,
    n: int,
    found: Map<Seq<char>, Seq<RawItem>>,
)
    requires
        document_on_the_wire(input, found),
    ensures
        issuer_signed_at(input, pos, n, found).0 matches Some(items) ==> document_on_the_wire(
            input,
            items,
        ),
    decreases n,
{
    if n > 0 {
        match crate::mdoc::cursor::text_at(input, pos) {
            (Some(key), at_value) => {
                if key == "nameSpaces"@ {
                    let (count, first) = crate::mdoc::cursor::count_at(input, at_value, 5);
                    if count is Some {
                        lemma_name_spaces_on_the_wire(input, first, count->0 as int, found);
                    }
                    let (more, next) = name_spaces_map_at(input, at_value, found);
                    if more is Some {
                        lemma_issuer_signed_on_the_wire(input, next, n - 1, more->0);
                    }
                } else {
                    let (_, next) = skip_at(input, at_value, 1);
                    lemma_issuer_signed_on_the_wire(input, next, n - 1, found);
                }
            },
            (None, _) => {
                let (_, next) = crate::mdoc::items::skip_entry_at(input, pos);
                lemma_issuer_signed_on_the_wire(input, next, n - 1, found);
            },
        }
    }
}

proof fn lemma_document_on_the_wire(
    input: Seq<u8>,
    pos: int,
    n: int,
    found: Map<Seq<char>, Seq<RawItem>>,
)
    requires
        document_on_the_wire(input, found),
    ensures
        document_at(input, pos, n, found).0 matches Some(items) ==> document_on_the_wire(
            input,
            items,
        ),
    decreases n,
{
    if n > 0 {
        match crate::mdoc::cursor::text_at(input, pos) {
            (Some(key), at_value) => {
                if key == "issuerSigned"@ {
                    let (count, first) = crate::mdoc::cursor::count_at(input, at_value, 5);
                    if count is Some {
                        lemma_issuer_signed_on_the_wire(input, first, count->0 as int, found);
                    }
                    let (more, next) = issuer_signed_map_at(input, at_value, found);
                    if more is Some {
                        lemma_document_on_the_wire(input, next, n - 1, more->0);
                    }
                } else {
                    let (_, next) = skip_at(input, at_value, 1);
                    lemma_document_on_the_wire(input, next, n - 1, found);
                }
            },
            (None, _) => {
                let (_, next) = crate::mdoc::items::skip_entry_at(input, pos);
                lemma_document_on_the_wire(input, next, n - 1, found);
            },
        }
    }
}

/// Whether every record of every document is on the wire.
pub open spec fn response_on_the_wire(
    input: Seq<u8>,
    found: Seq<Map<Seq<char>, Seq<RawItem>>>,
) -> bool {
    forall|k: int| 0 <= k < found.len() ==> document_on_the_wire(input, #[trigger] found[k])
}

proof fn lemma_documents_on_the_wire(
    input: Seq<u8>,
    pos: int,
    n: int,
    found: Seq<Map<Seq<char>, Seq<RawItem>>>,
)
    requires
        response_on_the_wire(input, found),
    ensures
        response_on_the_wire(input, documents_at(input, pos, n, found).0),
    decreases n,
{
    if n > 0 {
        let (count, first) = crate::mdoc::cursor::count_at(input, pos, 5);
        if count is Some {
            lemma_document_on_the_wire(input, first, count->0 as int, Map::empty());
        }
        let (document, next) = document_map_at(input, pos);
        let more = found.push(found_or_empty(document));
        assert(document_on_the_wire(input, found_or_empty(document)));
        lemma_documents_on_the_wire(input, next, n - 1, more);
    }
}

proof fn lemma_response_on_the_wire(
    input: Seq<u8>,
    pos: int,
    n: int,
    found: Seq<Map<Seq<char>, Seq<RawItem>>>,
)
    requires
        response_on_the_wire(input, found),
    ensures
        response_on_the_wire(input, response_at(input, pos, n, found)),
    decreases n,
{
    if n > 0 {
        match crate::mdoc::cursor::text_at(input, pos) {
            (Some(key), at_value) => {
                if key == "documents"@ {
                    let (count, first) = crate::mdoc::cursor::count_at(input, at_value, 4);
                    if count is Some {
                        lemma_documents_on_the_wire(input, first, count->0 as int, found);
                        let (more, next) = documents_at(input, first, count->0 as int, found);
                        lemma_response_on_the_wire(input, next, n - 1, more);
                    }
                } else {
                    let (_, next) = skip_at(input, at_value, 1);
                    lemma_response_on_the_wire(input, next, n - 1, found);
                }
            },
            (None, _) => {
                let (_, next) = crate::mdoc::items::skip_entry_at(input, pos);
                lemma_response_on_the_wire(input, next, n - 1, found);
            },
        }
    }
}

/// Every record captured of a response was decoded from the byte string inside the very span of the
/// response that is hashed for it.
pub proof fn law_records_are_on_the_wire(response: Seq<u8>)
    ensures
        response_on_the_wire(response, items_of_response(response)),
{
    let (count, first) = crate::mdoc::cursor::count_at(response, 0, 5);
    if count is Some {
        lemma_response_on_the_wire(response, first, count->0 as int, Seq::empty());
    }
}

proof fn lemma_other_entry(
    entries: Seq<(Cbor, Cbor)>,
    m: int,
    added: Seq<char>,
    value: Cbor,
    key: Seq<char>,
)
    requires
        0 <= m <= entries.len(),
        key != added,
    ensures
        entry_value(entries.insert(m, (Cbor::Text(added), value)), key) == entry_value(
            entries,
            key,
        ),
    decreases entries.len(),
{
    let longer = entries.insert(m, (Cbor::Text(added), value));
    if m == 0 {
        assert(longer.drop_first() =~= entries);
    } else {
        assert(longer[0] == entries[0]);
        assert(longer.drop_first() =~= entries.drop_first().insert(
            m - 1,
            (Cbor::Text(added), value),
        ));
        lemma_other_entry(entries.drop_first(), m - 1, added, value, key);
    }
}

/// The verdict on documents depends on what was captured of each of them alone.
proof fn lemma_same_records<A: TrustAnchorSource + ?Sized>(
    documents: Seq<Cbor>,
    k: int,
    a: Seq<Map<Seq<char>, Seq<RawItem>>>,
    b: Seq<Map<Seq<char>, Seq<RawItem>>>,
    anchors: &A,
    params: MdocVerifyParams<'_>,
    facts: ResponseFacts,
)
    requires
        0 <= k,
        forall|j: int| 0 <= j < documents.len() ==> #[trigger] records_at(a, j) == records_at(b, j),
    ensures
        documents_verdict(
            documents,
            k,
            a,
            anchors,
            params.statuses@,
            seen(params.session_transcript),
            params.role,
            params.now_unix as int,
            facts,
        ) == documents_verdict(
            documents,
            k,
            b,
            anchors,
            params.statuses@,
            seen(params.session_transcript),
            params.role,
            params.now_unix as int,
            facts,
        ),
    decreases documents.len() - k,
{
    if k < documents.len() {
        assert(records_at(a, k) == records_at(b, k));
        let verdict = document_verdict(
            documents[k],
            records_at(a, k),
            anchors,
            status_at(params.statuses@, k),
            seen(params.session_transcript),
            params.role,
            params.now_unix as int,
        );
        if let Ok(document) = verdict {
            lemma_same_records(
                documents,
                k + 1,
                a,
                b,
                anchors,
                params,
                with_document(facts, document),
            );
        }
    }
}

/// Whether the issuer's part of a document has a namespace.
pub open spec fn has_name_space(document: Cbor) -> bool {
    map_entry(document, "issuerSigned"@) matches Some(issuer_signed) && map_entry(
        issuer_signed,
        "nameSpaces"@,
    ) matches Some(Cbor::Pairs(name_spaces)) && name_spaces.len() > 0
}

/// Of a document that passes and has a namespace something was captured.
proof fn lemma_passing_is_captured<A: TrustAnchorSource + ?Sized>(
    response: Seq<u8>,
    documents: Seq<Cbor>,
    k: int,
    anchors: &A,
    params: MdocVerifyParams<'_>,
)
    requires
        document_passes(response, documents, k, anchors, params),
        has_name_space(documents[k]),
    ensures
        0 <= k < items_of_response(response).len(),
        items_of_response(response)[k] != Map::<Seq<char>, Seq<RawItem>>::empty(),
{
    let issuer_signed = map_entry(documents[k], "issuerSigned"@)->Some_0;
    let name_spaces = map_entry(issuer_signed, "nameSpaces"@)->Some_0->Pairs_0;
    let records = records_at(items_of_response(response), k);
    assert(records is Some);
    assert(records->Some_0.contains_key(name_spaces[0].0->Text_0));
}

/// `documentErrors` is informational: where it is added to the map of a valid response, at any
/// place and with any value, the verdict and what was learned stay what they were. Every document
/// but the last has to have a namespace, and the array of documents as many items as were decoded.
pub proof fn law_document_errors_are_informational<A: TrustAnchorSource + ?Sized>(
    response: Seq<u8>,
    longer: Seq<u8>,
    m: int,
    entries: Seq<(Cbor, Cbor)>,
    errors: Cbor,
    anchors: &A,
    params: MdocVerifyParams<'_>,
)
    requires
        mdoc_verdict(response, anchors, params).0.valid,
        entry_added(response, longer, m, "documentErrors"@),
        cbor_decoded(response) == Some(Cbor::Pairs(entries)),
        0 <= m <= entries.len(),
        cbor_decoded(longer) == Some(
            Cbor::Pairs(entries.insert(m, (Cbor::Text("documentErrors"@), errors))),
        ),
        document_array(response) matches Some((n, _)) && n == response_documents(
            response,
        )->Some_0.len(),
        forall|k: int|
            0 <= k < response_documents(response)->Some_0.len() - 1 ==> has_name_space(
                #[trigger] response_documents(response)->Some_0[k],
            ),
    ensures
        mdoc_verdict(longer, anchors, params) == mdoc_verdict(response, anchors, params),
{
    let added = "documentErrors"@;
    reveal_strlit("documentErrors");
    reveal_strlit("documents");
    reveal_strlit("version");
    reveal_strlit("status");
    assert(added.len() == 14 && "documents"@.len() == 9);
    assert("version"@.len() == 7 && "status"@.len() == 6);
    lemma_other_entry(entries, m, added, errors, "version"@);
    lemma_other_entry(entries, m, added, errors, "status"@);
    lemma_other_entry(entries, m, added, errors, "documents"@);
    law_valid_covers_every_document(response, anchors, params);
    law_one_complete_item(response);
    let documents = response_documents(response)->Some_0;
    let n = documents.len() as int;
    assert forall|k: int| 0 <= k < n - 1 implies #[trigger] items_of_response(response)[k] != Map::<
        Seq<char>,
        Seq<RawItem>,
    >::empty() by {
        assert(document_passes(response, documents, k, anchors, params));
        assert(has_name_space(documents[k]));
        lemma_passing_is_captured(response, documents, k, anchors, params);
    }
    law_captured_documents_are_walked(response, n - 1);
    law_added_entries_are_not_captured(response, longer, m, added);
    law_one_complete_item(longer);
    assert(response_documents(longer) == response_documents(response));
    let a = items_of_response(response);
    let b = items_of_response(longer);
    assert forall|j: int| 0 <= j < documents.len() implies #[trigger] records_at(b, j)
        == records_at(a, j) by {
        assert(a.take(n)[j] == a[j]);
        assert(b.take(n)[j] == b[j]);
    }
    lemma_same_records(documents, 0, b, a, anchors, params, no_facts());
}

} // verus!
