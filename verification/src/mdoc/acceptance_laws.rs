//! What every document of a valid response has passed.
use crate::cbor::{cbor_decoded, cbor_encoded, cbor_integer, entry_value, map_entry, Cbor};
use crate::crypto::{
    es256_signature_valid, es256_verifies, p256_certificate_key, p256_key_valid, sha256_digest,
    sha384_digest, sha512_digest,
};
use crate::datetime::instant_of;
use crate::mdoc::cose::{cose_sign1, labelled, x5chain, Sign1, COSE_HEADER_X5CHAIN};
use crate::mdoc::digests::{
    digests_verdict, expected_digest, records_disclosed, spaces_disclosed, DigestAlgorithm,
};
use crate::mdoc::items::{items_of_response, RawItem};
use crate::mdoc::laws::{document_passes, law_valid_covers_every_document};
use crate::mdoc::mso::{
    labelled_bytes, labelled_integer, tdate_entry, validity_facts, COSE_KEY_CRV, COSE_KEY_KTY,
    COSE_KEY_X, COSE_KEY_Y,
};
use crate::mdoc::value_laws::{lists_space, Attributes};
use crate::mdoc::verify::{
    all_documents_verdict, document_verdict, documents_verdict, issuer_object, issuers_content,
    no_facts, records_at, response_documents, status_at, verify_with_meta, with_document,
    DocumentFacts, MdocVerifyMeta, MdocVerifyParams, ResponseFacts,
};
use crate::status::StatusOutcome;
use crate::text::{seen, texts};
use crate::trust::TrustAnchorSource;
use crate::types::{Format, ReasonCode, TrustStatus, VerificationResult};
use vstd::prelude::*;

verus! {

/// The document at a position of a response.
pub open spec fn document_of(response: Seq<u8>, k: int) -> Cbor {
    response_documents(response)->0[k]
}

/// Whether an item is an integer of this value.
pub open spec fn is_number(item: Cbor, n: int) -> bool {
    item matches Cbor::Integer(x) && cbor_integer(x) == n
}

/// Whether some entry under an integer key holds a value.
pub open spec fn some_labelled(entries: Seq<(Cbor, Cbor)>, label: int, value: Cbor) -> bool {
    exists|i: int|
        0 <= i < entries.len() && is_number((#[trigger] entries[i]).0, label) && entries[i].1
            == value
}

/// Whether some entry under an integer key holds a number.
pub open spec fn some_labelled_number(entries: Seq<(Cbor, Cbor)>, label: int, n: int) -> bool {
    exists|i: int|
        0 <= i < entries.len() && is_number((#[trigger] entries[i]).0, label) && is_number(
            entries[i].1,
            n,
        )
}

/// Whether a field holds a timestamp of this instant, as a text or as a text under the tag 0.
pub open spec fn dated(info: Cbor, key: Seq<char>, instant: int) -> bool {
    map_entry(info, key) matches Some(value) && match value {
        Cbor::Text(text) => instant_of(text) == Some(instant),
        Cbor::Tag(tag, inner) => tag == 0 && (*inner matches Cbor::Text(text) && instant_of(text)
            == Some(instant)),
        _ => false,
    }
}

/// Whether an item, tagged or not, is read as a COSE_Sign1.
pub open spec fn reads_as(item: Cbor, sign1: Sign1) -> bool {
    match item {
        Cbor::Tag(_, inner) => cose_sign1(*inner) == Some(sign1),
        other => cose_sign1(other) == Some(sign1),
    }
}

/// What is hashed and signed in a COSE_Sign1 over a payload.
pub open spec fn covered(sign1: Sign1, payload: Seq<u8>) -> Seq<u8> {
    cbor_encoded(
        Cbor::Array(
            seq![
                Cbor::Text("Signature1"@),
                Cbor::Bytes(sign1.protected),
                Cbor::Bytes(Seq::empty()),
                Cbor::Bytes(payload),
            ],
        ),
    )
}

/// Whether a COSE_Sign1 names ES256, no critical parameter but the algorithm, and its signature
/// over a payload verifies under a key.
pub open spec fn verifies_under(sign1: Sign1, payload: Seq<u8>, sec1: Seq<u8>) -> bool {
    &&& sign1.alg matches Some(alg) && is_number(alg, -7)
    &&& forall|i: int| 0 <= i < sign1.crit.len() ==> is_number(#[trigger] sign1.crit[i], 1)
    &&& es256_signature_valid(sign1.signature)
    &&& es256_verifies(sec1, covered(sign1, payload), sign1.signature)
}

proof fn lemma_labelled(entries: Seq<(Cbor, Cbor)>, label: i64)
    ensures
        labelled(entries, label) matches Some(value) ==> some_labelled(entries, label as int, value),
        labelled_bytes(entries, label) matches Some(bytes) ==> some_labelled(
            entries,
            label as int,
            Cbor::Bytes(bytes),
        ),
        labelled_integer(entries, label) matches Some(n) ==> some_labelled_number(
            entries,
            label as int,
            n as int,
        ),
    decreases entries.len(),
{
    if entries.len() > 0 {
        let rest = entries.drop_first();
        lemma_labelled(rest, label);
        assert(entries[0] == entries[0]);
        assert forall|value: Cbor| #[trigger]
            some_labelled(rest, label as int, value) implies some_labelled(
            entries,
            label as int,
            value,
        ) by {
            let i = choose|i: int|
                0 <= i < rest.len() && is_number((#[trigger] rest[i]).0, label as int) && rest[i].1
                    == value;
            assert(entries[i + 1] == rest[i]);
        }
        assert forall|n: int| #[trigger]
            some_labelled_number(rest, label as int, n) implies some_labelled_number(
            entries,
            label as int,
            n,
        ) by {
            let i = choose|i: int|
                0 <= i < rest.len() && is_number((#[trigger] rest[i]).0, label as int) && is_number(
                    rest[i].1,
                    n,
                );
            assert(entries[i + 1] == rest[i]);
        }
    }
}

/// What the issuer's signature, the anchors and the validity window say of a document.
pub open spec fn issuer_vouches<A: TrustAnchorSource + ?Sized>(
    document: Cbor,
    sign1: Sign1,
    mso: Cbor,
    chain: Seq<Seq<u8>>,
    signed: i64,
    anchors: &A,
    params: MdocVerifyParams<'_>,
) -> bool {
    let info = map_entry(mso, "validityInfo"@)->0;
    &&& map_entry(document, "issuerSigned"@) matches Some(issuer_signed) && map_entry(
        issuer_signed,
        "issuerAuth"@,
    ) matches Some(item) && reads_as(item, sign1)
    &&& sign1.payload matches Some(payload) && {
        &&& cbor_decoded(payload) matches Some(Cbor::Tag(tag, inner)) && tag == 24
            && (*inner matches Cbor::Bytes(bytes) && cbor_decoded(bytes) == Some(mso))
        &&& p256_certificate_key(chain[0]) matches Some(sec1) && verifies_under(
            sign1,
            payload,
            sec1,
        )
    }
    &&& chain.len() > 0
    &&& some_labelled(sign1.unprotected, 33, Cbor::Bytes(chain[0])) || some_labelled(
        sign1.unprotected,
        33,
        Cbor::Array(chain.map_values(|certificate: Seq<u8>| Cbor::Bytes(certificate))),
    )
    &&& anchors.decision(params.role, Format::Mdoc, chain[0], chain.skip(1), Some(signed)).trusted
    &&& map_entry(mso, "version"@) == Some(Cbor::Text("1.0"@))
    &&& map_entry(mso, "docType"@) == map_entry(document, "docType"@)
    &&& map_entry(mso, "docType"@) matches Some(doc_type) && doc_type is Text
    &&& map_entry(mso, "validityInfo"@) is Some
    &&& dated(info, "signed"@, signed as int)
    &&& exists|from: int, until: int|
        {
            &&& #[trigger] dated(info, "validFrom"@, from)
            &&& #[trigger] dated(info, "validUntil"@, until)
            &&& signed <= from <= params.now_unix <= until
        }
}

/// What the device's signature says of a document: the key that the issuer bound signed the
/// transcript, the type of the document and the device's own namespaces.
pub open spec fn holder_vouches(document: Cbor, mso: Cbor, transcript: Cbor) -> bool {
    let doc_type = map_entry(document, "docType"@)->0;
    let key = map_entry(map_entry(mso, "deviceKeyInfo"@)->0, "deviceKey"@)->0->Pairs_0;
    let device_signed = map_entry(document, "deviceSigned"@)->0;
    let name_spaces = map_entry(device_signed, "nameSpaces"@)->0;
    let item = map_entry(map_entry(device_signed, "deviceAuth"@)->0, "deviceSignature"@)->0;
    let payload = cbor_encoded(
        Cbor::Tag(
            24,
            Box::new(
                Cbor::Bytes(
                    cbor_encoded(
                        Cbor::Array(
                            seq![
                                Cbor::Text("DeviceAuthentication"@),
                                transcript,
                                doc_type,
                                name_spaces,
                            ],
                        ),
                    ),
                ),
            ),
        ),
    );
    &&& some_labelled_number(key, 1, 2)
    &&& some_labelled_number(key, -1, 1)
    &&& exists|x: Seq<u8>, y: Seq<u8>, sign1: Sign1|
        {
            &&& #[trigger] some_labelled(key, -2, Cbor::Bytes(x))
            &&& #[trigger] some_labelled(key, -3, Cbor::Bytes(y))
            &&& x.len() == 32 && y.len() == 32
            &&& #[trigger] reads_as(item, sign1)
            &&& sign1.payload is None
            &&& p256_key_valid(seq![4u8] + x + y)
            &&& verifies_under(sign1, payload, seq![4u8] + x + y)
        }
}

/// Every document of a valid response was signed by a certificate that the anchors trust in the
/// caller's role, inside its validity window and not revoked; it is of the type that was signed;
/// and the key that the issuer bound signed the transcript of this session.
pub proof fn law_valid_documents_are_vouched_for<A: TrustAnchorSource + ?Sized>(
    device_response: &[u8],
    anchors: &A,
    params: &MdocVerifyParams<'_>,
    out: (VerificationResult, MdocVerifyMeta),
    k: int,
)
    requires
        call_ensures(verify_with_meta::<A>, (device_response, anchors, params), out),
        out.0.valid,
        0 <= k < response_documents(device_response@)->0.len(),
    ensures
        response_documents(device_response@) is Some,
        out.0.trust_status == TrustStatus::Trusted,
        out.0.reasons@.len() == 0,
        k < params.statuses@.len(),
        params.statuses@[k] == StatusOutcome::NoStatus || params.statuses@[k]
            == StatusOutcome::Good,
        params.session_transcript matches Some(bytes) && (cbor_decoded(bytes@) matches Some(
            transcript,
        ) && exists|sign1: Sign1, mso: Cbor, chain: Seq<Seq<u8>>, signed: i64|
            {
                &&& #[trigger] issuer_vouches(
                    document_of(device_response@, k),
                    sign1,
                    mso,
                    chain,
                    signed,
                    anchors,
                    *params,
                )
                &&& holder_vouches(document_of(device_response@, k), mso, transcript)
                &&& out.1.claimed_issuers@[k].0@ == chain[0]
                &&& out.1.claimed_issuers@[k].1 == signed
                &&& map_entry(document_of(device_response@, k), "docType"@) == Some(
                    Cbor::Text(out.1.doc_types@[k]@),
                )
            }),
        out.1.claimed_issuers@.len() == response_documents(device_response@)->0.len(),
        out.1.doc_types@.len() == response_documents(device_response@)->0.len(),
        out.1.document_count == response_documents(device_response@)->0.len(),
        out.1.binding_machinery is None,
{
    let response = device_response@;
    law_valid_covers_every_document(response, anchors, *params);
    let documents = response_documents(response)->0;
    let document = documents[k];
    assert(document_passes(response, documents, k, anchors, *params));
    let end = all_documents_verdict(response, documents, anchors, *params)->Ok_0;
    lemma_meta(response, documents, 0, anchors, *params, no_facts(), end, k);
    reveal(facts_of);
    let issuer_signed = map_entry(document, "issuerSigned"@)->0;
    let (sign1, mso) = issuer_object(issuer_signed)->0;
    let chain = x5chain(sign1)->0;
    let validity = validity_facts(mso)->0;
    let signed = validity.signed as i64;
    lemma_labelled(sign1.unprotected, COSE_HEADER_X5CHAIN);
    let value = labelled(sign1.unprotected, COSE_HEADER_X5CHAIN)->0;
    if let Cbor::Array(items) = value {
        assert(items =~= chain.map_values(|certificate: Seq<u8>| Cbor::Bytes(certificate)));
    }
    let info = map_entry(mso, "validityInfo"@)->0;
    assert(tdate_entry(info, "signed"@) == Some(validity.signed));
    lemma_instant_fits(info, "signed"@);
    assert(dated(info, "validFrom"@, validity.valid_from));
    assert(dated(info, "validUntil"@, validity.valid_until));
    assert(issuer_vouches(document, sign1, mso, chain, signed, anchors, *params));
    let transcript = cbor_decoded(params.session_transcript->0@)->0;
    let key_item = map_entry(map_entry(mso, "deviceKeyInfo"@)->0, "deviceKey"@)->0;
    let key = key_item->Pairs_0;
    lemma_labelled(key, COSE_KEY_KTY);
    lemma_labelled(key, COSE_KEY_CRV);
    lemma_labelled(key, COSE_KEY_X);
    lemma_labelled(key, COSE_KEY_Y);
    let x = labelled_bytes(key, COSE_KEY_X)->0;
    let y = labelled_bytes(key, COSE_KEY_Y)->0;
    let device_signed = map_entry(document, "deviceSigned"@)->0;
    let item = map_entry(map_entry(device_signed, "deviceAuth"@)->0, "deviceSignature"@)->0;
    let device_sign1 = crate::mdoc::cose::sign1_of(item)->0;
    assert(some_labelled(key, -2, Cbor::Bytes(x)));
    assert(some_labelled(key, -3, Cbor::Bytes(y)));
    assert(reads_as(item, device_sign1));
    assert(holder_vouches(document, mso, transcript));
    assert(document == document_of(response, k));
    assert(issuers_content(out.1.claimed_issuers@)[k] == end.issuers[k]);
    assert(texts(out.1.doc_types@)[k] == end.doc_types[k]);
}

/// An instant that a timestamp names fits in 64 bits.
proof fn lemma_instant_fits(info: Cbor, key: Seq<char>)
    requires
        tdate_entry(info, key) is Some,
    ensures
        tdate_entry(info, key)->0 as i64 == tdate_entry(info, key)->0,
{
    let value = map_entry(info, key)->0;
    match value {
        Cbor::Text(text) => crate::datetime::lemma_instant_in_range(text),
        Cbor::Tag(_, inner) => crate::datetime::lemma_instant_in_range((*inner)->Text_0),
        _ => {},
    }
}

/// What the document at a position proves.
#[verifier::opaque]
spec fn facts_of<A: TrustAnchorSource + ?Sized>(
    response: Seq<u8>,
    documents: Seq<Cbor>,
    k: int,
    anchors: &A,
    params: MdocVerifyParams<'_>,
) -> Result<DocumentFacts, ReasonCode> {
    document_verdict(
        documents[k],
        records_at(items_of_response(response), k),
        anchors,
        status_at(params.statuses@, k),
        seen(params.session_transcript),
        params.role,
        params.now_unix as int,
    )
}

proof fn lemma_step<A: TrustAnchorSource + ?Sized>(
    response: Seq<u8>,
    documents: Seq<Cbor>,
    k: int,
    anchors: &A,
    params: MdocVerifyParams<'_>,
    facts: ResponseFacts,
    end: ResponseFacts,
)
    requires
        0 <= k < documents.len(),
        documents_verdict(
            documents,
            k,
            items_of_response(response),
            anchors,
            params.statuses@,
            seen(params.session_transcript),
            params.role,
            params.now_unix as int,
            facts,
        ) == Ok::<ResponseFacts, ReasonCode>(end),
    ensures
        facts_of(response, documents, k, anchors, params) is Ok,
        documents_verdict(
            documents,
            k + 1,
            items_of_response(response),
            anchors,
            params.statuses@,
            seen(params.session_transcript),
            params.role,
            params.now_unix as int,
            with_document(facts, facts_of(response, documents, k, anchors, params)->Ok_0),
        ) == Ok::<ResponseFacts, ReasonCode>(end),
{
    reveal(facts_of);
}

proof fn lemma_meta<A: TrustAnchorSource + ?Sized>(
    response: Seq<u8>,
    documents: Seq<Cbor>,
    k: int,
    anchors: &A,
    params: MdocVerifyParams<'_>,
    facts: ResponseFacts,
    end: ResponseFacts,
    j: int,
)
    requires
        0 <= k <= documents.len(),
        0 <= j < documents.len(),
        facts.issuers.len() == k,
        facts.doc_types.len() == k,
        documents_verdict(
            documents,
            k,
            items_of_response(response),
            anchors,
            params.statuses@,
            seen(params.session_transcript),
            params.role,
            params.now_unix as int,
            facts,
        ) == Ok::<ResponseFacts, ReasonCode>(end),
    ensures
        end.issuers.len() == documents.len(),
        end.doc_types.len() == documents.len(),
        j < k ==> end.issuers[j] == facts.issuers[j] && end.doc_types[j] == facts.doc_types[j],
        k <= j ==> end.issuers[j] == (
            facts_of(response, documents, j, anchors, params)->Ok_0.certificate,
            facts_of(response, documents, j, anchors, params)->Ok_0.issued_at,
        ) && end.doc_types[j] == facts_of(response, documents, j, anchors, params)->Ok_0.doc_type,
    decreases documents.len() - k,
{
    if k < documents.len() {
        lemma_step(response, documents, k, anchors, params, facts, end);
        let next = with_document(
            facts,
            facts_of(response, documents, k, anchors, params)->Ok_0,
        );
        lemma_meta(response, documents, k + 1, anchors, params, next, end, j);
    } else {
        reveal_with_fuel(documents_verdict, 1);
    }
}

/// The digest of a byte string under the hash that a mobile security object names.
pub open spec fn is_digest(name: Seq<char>, data: Seq<u8>, digest: Seq<u8>) -> bool {
    ||| name == "SHA-256"@ && digest == sha256_digest(data)
    ||| name == "SHA-384"@ && digest == sha384_digest(data)
    ||| name == "SHA-512"@ && digest == sha512_digest(data)
}

proof fn lemma_expected(digests: Seq<(Cbor, Cbor)>, id: i64)
    ensures
        expected_digest(digests, id) matches Some(digest) ==> some_labelled(
            digests,
            id as int,
            Cbor::Bytes(digest),
        ),
    decreases digests.len(),
{
    if digests.len() > 0 {
        let shorter = digests.drop_last();
        lemma_expected(shorter, id);
        let n = digests.len() - 1;
        assert(digests[n] == digests.last());
        if let Some(digest) = expected_digest(shorter, id) {
            let i = choose|i: int|
                0 <= i < shorter.len() && is_number((#[trigger] shorter[i]).0, id as int)
                    && shorter[i].1 == Cbor::Bytes(digest);
            assert(digests[i] == shorter[i]);
        }
    }
}

proof fn lemma_records_digested(
    records: Seq<RawItem>,
    k: int,
    digests: Seq<(Cbor, Cbor)>,
    algorithm: DigestAlgorithm,
    name: Seq<char>,
    name_space: Seq<char>,
    disclosed: Attributes,
)
    requires
        0 <= k,
        crate::mdoc::digests::algorithm_named(name) == Some(algorithm),
        records_disclosed(records, k, digests, algorithm, name_space, disclosed) is Some,
    ensures
        forall|i: int|
            k <= i < records.len() ==> record_signed(digests, name, #[trigger] records[i]),
        forall|i: int, j: int|
            0 <= j < i && k <= i < records.len() ==> (#[trigger] records[j]).digest_id != (
            #[trigger] records[i]).digest_id,
    decreases records.len() - k,
{
    if k < records.len() {
        let value = crate::mdoc::digests::item_value(records[k].item);
        let next = crate::mdoc::attributes::disclose(
            disclosed,
            name_space,
            records[k].identifier,
            value,
        );
        lemma_expected(digests, records[k].digest_id);
        let digest = expected_digest(digests, records[k].digest_id)->0;
        assert(is_digest(name, records[k].raw_bytes, digest));
        assert(some_labelled(digests, records[k].digest_id as int, Cbor::Bytes(digest)));
        assert(record_signed(digests, name, records[k]));
        lemma_records_digested(records, k + 1, digests, algorithm, name, name_space, next);
    }
}

/// Whether the digests hold, under the identifier of a record, the digest of its bytes.
pub open spec fn record_signed(
    digests: Seq<(Cbor, Cbor)>,
    name: Seq<char>,
    record: RawItem,
) -> bool {
    exists|digest: Seq<u8>|
        is_digest(name, record.raw_bytes, digest) && #[trigger] some_labelled(
            digests,
            record.digest_id as int,
            Cbor::Bytes(digest),
        )
}

proof fn lemma_spaces_digested(
    entries: Seq<(Cbor, Cbor)>,
    k: int,
    records: Map<Seq<char>, Seq<RawItem>>,
    value_digests: Seq<(Cbor, Cbor)>,
    algorithm: DigestAlgorithm,
    name: Seq<char>,
    disclosed: Attributes,
    j: int,
)
    requires
        0 <= k <= j < entries.len(),
        crate::mdoc::digests::algorithm_named(name) == Some(algorithm),
        spaces_disclosed(entries, k, records, value_digests, algorithm, disclosed) is Ok,
    ensures
        space_signed(entries[j].0->Text_0, records, value_digests, name),
    decreases entries.len() - k,
{
    let ns = entries[k].0->Text_0;
    let digests = entry_value(value_digests, ns)->0->Pairs_0;
    let next = records_disclosed(records[ns], 0, digests, algorithm, ns, disclosed)->0;
    lemma_records_digested(records[ns], 0, digests, algorithm, name, ns, disclosed);
    if k < j {
        lemma_spaces_digested(entries, k + 1, records, value_digests, algorithm, name, next, j);
    }
}

/// Whether every item that was captured of a namespace has the digest that was signed for it, under
/// an identifier of its own.
pub open spec fn space_signed(
    name_space: Seq<char>,
    records: Map<Seq<char>, Seq<RawItem>>,
    value_digests: Seq<(Cbor, Cbor)>,
    name: Seq<char>,
) -> bool {
    &&& records.contains_key(name_space)
    &&& entry_value(value_digests, name_space) matches Some(Cbor::Pairs(digests)) && {
        &&& forall|i: int|
            0 <= i < records[name_space].len() ==> record_signed(
                digests,
                name,
                #[trigger] records[name_space][i],
            )
        &&& forall|i: int, j: int|
            0 <= j < i < records[name_space].len() ==> (
            #[trigger] records[name_space][j]).digest_id != (
            #[trigger] records[name_space][i]).digest_id
    }
}

/// Every item that a valid response discloses has, under an identifier of its own, the digest that
/// its mobile security object holds for it, under the hash that the object names.
pub proof fn law_valid_items_have_signed_digests<A: TrustAnchorSource + ?Sized>(
    device_response: &[u8],
    anchors: &A,
    params: &MdocVerifyParams<'_>,
    out: (VerificationResult, MdocVerifyMeta),
    k: int,
    name_space: Seq<char>,
)
    requires
        call_ensures(verify_with_meta::<A>, (device_response, anchors, params), out),
        out.0.valid,
        0 <= k < response_documents(device_response@)->0.len(),
        ({
            let document = document_of(device_response@, k);
            map_entry(map_entry(document, "issuerSigned"@)->0, "nameSpaces"@) matches Some(
                Cbor::Pairs(entries),
            ) && lists_space(entries, name_space)
        }),
    ensures
        exists|sign1: Sign1, mso: Cbor, chain: Seq<Seq<u8>>, signed: i64|
            {
                &&& #[trigger] issuer_vouches(
                    document_of(device_response@, k),
                    sign1,
                    mso,
                    chain,
                    signed,
                    anchors,
                    *params,
                )
                &&& map_entry(mso, "digestAlgorithm"@) matches Some(Cbor::Text(name))
                    && map_entry(mso, "valueDigests"@) matches Some(Cbor::Pairs(value_digests))
                    && k < items_of_response(device_response@).len() && space_signed(
                    name_space,
                    items_of_response(device_response@)[k],
                    value_digests,
                    name,
                )
            },
{
    let response = device_response@;
    law_valid_documents_are_vouched_for(device_response, anchors, params, out, k);
    law_valid_covers_every_document(response, anchors, *params);
    let documents = response_documents(response)->0;
    let document = documents[k];
    assert(document_passes(response, documents, k, anchors, *params));
    let issuer_signed = map_entry(document, "issuerSigned"@)->0;
    let (sign1, mso) = issuer_object(issuer_signed)->0;
    let name = crate::cbor::text_entry(mso, "digestAlgorithm"@)->0;
    let algorithm = crate::mdoc::digests::algorithm_named(name)->0;
    let entries = map_entry(issuer_signed, "nameSpaces"@)->0->Pairs_0;
    let value_digests = map_entry(mso, "valueDigests"@)->0->Pairs_0;
    let captured = items_of_response(response);
    assert(digests_verdict(issuer_signed, records_at(captured, k), mso, algorithm) is Ok);
    let j = choose|j: int|
        0 <= j < entries.len() && (#[trigger] entries[j]).0 == Cbor::Text(name_space);
    lemma_spaces_digested(
        entries,
        0,
        captured[k],
        value_digests,
        algorithm,
        name,
        Map::empty(),
        j,
    );
    let (s, m, c, t) = choose|s: Sign1, m: Cbor, c: Seq<Seq<u8>>, t: i64|
        #[trigger] issuer_vouches(document_of(response, k), s, m, c, t, anchors, *params);
    assert(s == sign1);
    assert(m == mso);
}

} // verus!
