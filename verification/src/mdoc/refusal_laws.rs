//! Why a response that is valid under some parameters is refused under others.
use crate::cbor::{cbor_decoded, map_entry, Cbor};
use crate::mdoc::acceptance_laws::{dated, document_of, reads_as};
use crate::mdoc::cose::Sign1;
use crate::mdoc::items::items_of_response;
use crate::mdoc::verify::{
    document_verdict, documents_verdict, no_facts, records_at, response_documents, status_at,
    verify_with_meta, with_document, DocumentFacts, MdocVerifyMeta, MdocVerifyParams, ResponseFacts,
};
use crate::status::StatusOutcome;
use crate::text::seen;
use crate::trust::{TrustAnchorSource, TrustFailure};
use crate::types::{Format, IssuerRole, ReasonCode, TrustStatus, VerificationResult};
use vstd::prelude::*;

verus! {

/// What the document at a position proves.
#[verifier::opaque]
spec fn proves<A: TrustAnchorSource + ?Sized>(
    response: Seq<u8>,
    documents: Seq<Cbor>,
    k: int,
    anchors: &A,
    params: MdocVerifyParams<'_>,
) -> Result<DocumentFacts, ReasonCode> {
    document_verdict(
        documents[k],
        records_at(items_of_response(response), k),
        anchors,
        status_at(params.statuses@, k),
        seen(params.session_transcript),
        params.role,
        params.now_unix as int,
    )
}

/// What the documents from a position on prove.
spec fn rest_proves<A: TrustAnchorSource + ?Sized>(
    response: Seq<u8>,
    documents: Seq<Cbor>,
    k: int,
    anchors: &A,
    params: MdocVerifyParams<'_>,
    facts: ResponseFacts,
) -> Result<ResponseFacts, ReasonCode> {
    documents_verdict(
        documents,
        k,
        items_of_response(response),
        anchors,
        params.statuses@,
        seen(params.session_transcript),
        params.role,
        params.now_unix as int,
        facts,
    )
}

proof fn lemma_unfold<A: TrustAnchorSource + ?Sized>(
    response: Seq<u8>,
    documents: Seq<Cbor>,
    k: int,
    anchors: &A,
    params: MdocVerifyParams<'_>,
    facts: ResponseFacts,
)
    ensures
        rest_proves(response, documents, k, anchors, params, facts) == (if k >= documents.len() {
            Ok(facts)
        } else {
            match proves(response, documents, k, anchors, params) {
                Err(reason) => Err(reason),
                Ok(document) => if crate::mdoc::attributes::clash(
                    facts.disclosed,
                    document.disclosed,
                ) {
                    Err(ReasonCode::DisclosureIntegrity)
                } else {
                    rest_proves(
                        response,
                        documents,
                        k + 1,
                        anchors,
                        params,
                        with_document(facts, document),
                    )
                },
            }
        }),
{
    reveal(proves);
}

proof fn lemma_compare<A: TrustAnchorSource + ?Sized>(
    response: Seq<u8>,
    documents: Seq<Cbor>,
    k: int,
    anchors: &A,
    params: MdocVerifyParams<'_>,
    other_anchors: &A,
    other: MdocVerifyParams<'_>,
    facts: ResponseFacts,
    reasons: Set<ReasonCode>,
)
    requires
        0 <= k <= documents.len(),
        rest_proves(response, documents, k, anchors, params, facts) is Ok,
        forall|j: int|
            #![trigger proves(response, documents, j, other_anchors, other)]
            k <= j < documents.len() ==> {
                ||| proves(response, documents, j, other_anchors, other) == proves(
                    response,
                    documents,
                    j,
                    anchors,
                    params,
                )
                ||| proves(response, documents, j, other_anchors, other) matches Err(reason)
                    && reasons.contains(reason)
            },
    ensures
        (forall|j: int|
            k <= j < documents.len() ==> #[trigger] proves(
                response,
                documents,
                j,
                other_anchors,
                other,
            ) is Ok) ==> rest_proves(response, documents, k, other_anchors, other, facts)
            == rest_proves(response, documents, k, anchors, params, facts),
        (exists|j: int|
            k <= j < documents.len() && #[trigger] proves(
                response,
                documents,
                j,
                other_anchors,
                other,
            ) is Err) ==> (rest_proves(
            response,
            documents,
            k,
            other_anchors,
            other,
            facts,
        ) matches Err(reason) && reasons.contains(reason)),
    decreases documents.len() - k,
{
    lemma_unfold(response, documents, k, anchors, params, facts);
    lemma_unfold(response, documents, k, other_anchors, other, facts);
    if k < documents.len() {
        let first = proves(response, documents, k, anchors, params);
        assert(first is Ok);
        if proves(response, documents, k, other_anchors, other) is Ok {
            let next = with_document(facts, first->Ok_0);
            lemma_compare(
                response,
                documents,
                k + 1,
                anchors,
                params,
                other_anchors,
                other,
                next,
                reasons,
            );
        }
    }
}

proof fn lemma_verdicts<A: TrustAnchorSource + ?Sized>(
    device_response: &[u8],
    anchors: &A,
    params: &MdocVerifyParams<'_>,
    out: (VerificationResult, MdocVerifyMeta),
    other_anchors: &A,
    other: &MdocVerifyParams<'_>,
    other_out: (VerificationResult, MdocVerifyMeta),
    reasons: Set<ReasonCode>,
)
    requires
        call_ensures(verify_with_meta::<A>, (device_response, anchors, params), out),
        call_ensures(verify_with_meta::<A>, (device_response, other_anchors, other), other_out),
        out.0.valid,
        ({
            let response = device_response@;
            let documents = response_documents(response)->0;
            forall|j: int|
                #![trigger proves(response, documents, j, other_anchors, *other)]
                0 <= j < documents.len() ==> {
                    ||| proves(response, documents, j, other_anchors, *other) == proves(
                        response,
                        documents,
                        j,
                        anchors,
                        *params,
                    )
                    ||| proves(response, documents, j, other_anchors, *other) matches Err(reason)
                        && reasons.contains(reason)
                }
        }),
    ensures
        response_documents(device_response@) is Some,
        ({
            let response = device_response@;
            let documents = response_documents(response)->0;
            &&& (forall|j: int|
                0 <= j < documents.len() ==> #[trigger] proves(
                    response,
                    documents,
                    j,
                    other_anchors,
                    *other,
                ) is Ok) ==> other_out.0@ == out.0@
            &&& (exists|j: int|
                0 <= j < documents.len() && #[trigger] proves(
                    response,
                    documents,
                    j,
                    other_anchors,
                    *other,
                ) is Err) ==> refused(other_out.0, reasons)
        }),
{
    let response = device_response@;
    let documents = response_documents(response)->0;
    lemma_compare(
        response,
        documents,
        0,
        anchors,
        *params,
        other_anchors,
        *other,
        no_facts(),
        reasons,
    );
    if !other_out.0.valid {
        let shown = other_out.0.disclosed_attributes@;
        assert(crate::types::attr_map(shown) == other_out.0@.disclosed_attributes);
        assert forall|key: Seq<char>| !#[trigger] shown.contains_key(key) by {
            assert(crate::types::attr_map(shown).contains_key(key) == shown.contains_key(key));
        }
    }
}

/// Whether a result is a refusal for one reason out of several, which shows nothing.
pub open spec fn refused(result: VerificationResult, reasons: Set<ReasonCode>) -> bool {
    &&& !result.valid
    &&& result.reasons@.len() == 1
    &&& reasons.contains(result.reasons@[0])
    &&& result.trust_status == TrustStatus::Untrusted
    &&& forall|key: Seq<char>| !#[trigger] result.disclosed_attributes@.contains_key(key)
}

proof fn lemma_passes<A: TrustAnchorSource + ?Sized>(
    device_response: &[u8],
    anchors: &A,
    params: &MdocVerifyParams<'_>,
    out: (VerificationResult, MdocVerifyMeta),
    k: int,
)
    requires
        call_ensures(verify_with_meta::<A>, (device_response, anchors, params), out),
        out.0.valid,
    ensures
        response_documents(device_response@) is Some,
        response_documents(device_response@)->0.len() > 0,
        0 <= k < response_documents(device_response@)->0.len() ==> proves(
            device_response@,
            response_documents(device_response@)->0,
            k,
            anchors,
            *params,
        ) is Ok,
{
    reveal(proves);
    crate::mdoc::laws::law_valid_covers_every_document(device_response@, anchors, *params);
    if 0 <= k < response_documents(device_response@)->0.len() {
        assert(crate::mdoc::laws::document_passes(
            device_response@,
            response_documents(device_response@)->0,
            k,
            anchors,
            *params,
        ));
    }
}

/// The status of the document at a position, where it was learned.
pub open spec fn known_good(statuses: Seq<StatusOutcome>, k: int) -> bool {
    k < statuses.len() && (statuses[k] == StatusOutcome::Good || statuses[k]
        == StatusOutcome::NoStatus)
}

/// A valid response stays valid, and shows the same, where only the statuses change and stay good
/// or absent; where one becomes revoked it is refused as revoked, where one cannot be learned as
/// that, and where there are both, for one of the two.
pub proof fn law_statuses_decide<A: TrustAnchorSource + ?Sized>(
    device_response: &[u8],
    anchors: &A,
    params: &MdocVerifyParams<'_>,
    out: (VerificationResult, MdocVerifyMeta),
    other: &MdocVerifyParams<'_>,
    other_out: (VerificationResult, MdocVerifyMeta),
)
    requires
        call_ensures(verify_with_meta::<A>, (device_response, anchors, params), out),
        call_ensures(verify_with_meta::<A>, (device_response, anchors, other), other_out),
        out.0.valid,
        other.now_unix == params.now_unix,
        other.role == params.role,
        seen(other.session_transcript) == seen(params.session_transcript),
    ensures
        (forall|k: int|
            0 <= k < out.1.document_count ==> #[trigger] known_good(other.statuses@, k))
            ==> other_out.0@ == out.0@,
        (exists|k: int|
            0 <= k < out.1.document_count && !#[trigger] known_good(other.statuses@, k))
            ==> refused(
            other_out.0,
            set![ReasonCode::Revoked, ReasonCode::StatusUnavailable],
        ),
        !other_out.0.valid && out.1.document_count <= other.statuses@.len() && (forall|k: int|
            0 <= k < out.1.document_count ==> #[trigger] other.statuses@[k]
                != StatusOutcome::Unavailable) ==> refused(other_out.0, set![ReasonCode::Revoked]),
        !other_out.0.valid && (forall|k: int|
            0 <= k < out.1.document_count && k < other.statuses@.len()
                ==> #[trigger] other.statuses@[k] != StatusOutcome::Revoked) ==> refused(
            other_out.0,
            set![ReasonCode::StatusUnavailable],
        ),
{
    let response = device_response@;
    let documents = response_documents(response)->0;
    lemma_passes(device_response, anchors, params, out, 0);
    assert(out.1@.document_count == documents.len());
    let both = set![ReasonCode::Revoked, ReasonCode::StatusUnavailable];
    assert forall|j: int| 0 <= j < documents.len() implies ({
        let before = proves(response, documents, j, anchors, *params);
        let after = #[trigger] proves(response, documents, j, anchors, *other);
        if known_good(other.statuses@, j) {
            after == before && after is Ok
        } else if j < other.statuses@.len() && other.statuses@[j] == StatusOutcome::Revoked {
            after == Err::<DocumentFacts, ReasonCode>(ReasonCode::Revoked)
        } else {
            after == Err::<DocumentFacts, ReasonCode>(ReasonCode::StatusUnavailable)
        }
    }) by {
        lemma_passes(device_response, anchors, params, out, j);
        reveal(proves);
    }
    lemma_verdicts(device_response, anchors, params, out, anchors, other, other_out, both);
    if exists|k: int| 0 <= k < out.1.document_count && !#[trigger] known_good(other.statuses@, k) {
        let k = choose|k: int|
            0 <= k < out.1.document_count && !#[trigger] known_good(other.statuses@, k);
        assert(proves(response, documents, k, anchors, *other) is Err);
    } else {
        assert forall|j: int| 0 <= j < documents.len() implies #[trigger] proves(
            response,
            documents,
            j,
            anchors,
            *other,
        ) is Ok by {
            assert(known_good(other.statuses@, j));
        }
    }
    if !other_out.0.valid && out.1.document_count <= other.statuses@.len() && (forall|k: int|
        0 <= k < out.1.document_count ==> #[trigger] other.statuses@[k]
            != StatusOutcome::Unavailable) {
        lemma_verdicts(
            device_response,
            anchors,
            params,
            out,
            anchors,
            other,
            other_out,
            set![ReasonCode::Revoked],
        );
    }
    if !other_out.0.valid && (forall|k: int|
        0 <= k < out.1.document_count && k < other.statuses@.len() ==> #[trigger] other.statuses@[k]
            != StatusOutcome::Revoked) {
        lemma_verdicts(
            device_response,
            anchors,
            params,
            out,
            anchors,
            other,
            other_out,
            set![ReasonCode::StatusUnavailable],
        );
    }
}

/// Without the transcript of the session a response that is valid with it is refused for want of a
/// binding to the request; with bytes that are no transcript it is malformed; with another
/// transcript it is refused for its holder binding unless it is valid there too, and then it shows
/// the same.
pub proof fn law_transcripts_decide<A: TrustAnchorSource + ?Sized>(
    device_response: &[u8],
    anchors: &A,
    params: &MdocVerifyParams<'_>,
    out: (VerificationResult, MdocVerifyMeta),
    other: &MdocVerifyParams<'_>,
    other_out: (VerificationResult, MdocVerifyMeta),
)
    requires
        call_ensures(verify_with_meta::<A>, (device_response, anchors, params), out),
        call_ensures(verify_with_meta::<A>, (device_response, anchors, other), other_out),
        out.0.valid,
        other.now_unix == params.now_unix,
        other.role == params.role,
        other.statuses@ == params.statuses@,
    ensures
        other.session_transcript is None ==> refused(
            other_out.0,
            set![ReasonCode::MissingRequestBinding],
        ),
        other.session_transcript matches Some(bytes) ==> (cbor_decoded(bytes@) is None ==> refused(
            other_out.0,
            set![ReasonCode::MalformedCredential],
        )),
        other.session_transcript matches Some(bytes) ==> (cbor_decoded(bytes@) is Some ==> (
        other_out.0@ == out.0@ || refused(other_out.0, set![ReasonCode::HolderBinding]))),
        seen(other.session_transcript) == seen(params.session_transcript) ==> other_out.0@
            == out.0@,
{
    let response = device_response@;
    let documents = response_documents(response)->0;
    lemma_passes(device_response, anchors, params, out, 0);
    let reason = match other.session_transcript {
        None => ReasonCode::MissingRequestBinding,
        Some(bytes) => if cbor_decoded(bytes@) is None {
            ReasonCode::MalformedCredential
        } else {
            ReasonCode::HolderBinding
        },
    };
    assert forall|j: int| 0 <= j < documents.len() implies ({
        let before = proves(response, documents, j, anchors, *params);
        let after = #[trigger] proves(response, documents, j, anchors, *other);
        &&& before is Ok
        &&& after == before || after == Err::<DocumentFacts, ReasonCode>(reason)
        &&& reason != ReasonCode::HolderBinding ==> after is Err
        &&& seen(other.session_transcript) == seen(params.session_transcript) ==> after is Ok
    }) by {
        lemma_passes(device_response, anchors, params, out, j);
        reveal(proves);
    }
    lemma_verdicts(
        device_response,
        anchors,
        params,
        out,
        anchors,
        other,
        other_out,
        set![reason],
    );
    if reason != ReasonCode::HolderBinding {
        assert(proves(response, documents, 0, anchors, *other) is Err);
    }
    if exists|j: int|
        0 <= j < documents.len() && #[trigger] proves(
            response,
            documents,
            j,
            anchors,
            *other,
        ) is Err {
    } else {
        assert forall|j: int| 0 <= j < documents.len() implies #[trigger] proves(
            response,
            documents,
            j,
            anchors,
            *other,
        ) is Ok by {}
    }
}

/// Whether the payload of a signature is a mobile security object.
pub open spec fn signs(sign1: Sign1, mso: Cbor) -> bool {
    sign1.payload matches Some(payload) && cbor_decoded(payload) matches Some(Cbor::Tag(tag, inner))
        && tag == 24 && (*inner matches Cbor::Bytes(bytes) && cbor_decoded(bytes) == Some(mso))
}

/// The signature of the issuer in a document.
pub open spec fn issuer_item(document: Cbor) -> Cbor {
    map_entry(map_entry(document, "issuerSigned"@)->0, "issuerAuth"@)->0
}

/// Whether a document carries a mobile security object in its issuer's signature.
pub open spec fn carries(document: Cbor, mso: Cbor) -> bool {
    exists|sign1: Sign1| #[trigger] reads_as(issuer_item(document), sign1) && signs(sign1, mso)
}

/// Whether the validity window of a document holds an instant.
pub open spec fn lasts_at(document: Cbor, now: int) -> bool {
    exists|mso: Cbor, from: int, until: int|
        {
            &&& carries(document, mso)
            &&& #[trigger] dated(map_entry(mso, "validityInfo"@)->0, "validFrom"@, from)
            &&& #[trigger] dated(map_entry(mso, "validityInfo"@)->0, "validUntil"@, until)
            &&& from <= now <= until
        }
}

/// Whether a document was signed after an instant.
pub open spec fn signed_after(document: Cbor, now: int) -> bool {
    exists|mso: Cbor, signed: int|
        {
            &&& carries(document, mso)
            &&& #[trigger] dated(map_entry(mso, "validityInfo"@)->0, "signed"@, signed)
            &&& now < signed
        }
}

proof fn lemma_time<A: TrustAnchorSource + ?Sized>(
    response: Seq<u8>,
    documents: Seq<Cbor>,
    k: int,
    anchors: &A,
    params: MdocVerifyParams<'_>,
    other: MdocVerifyParams<'_>,
)
    requires
        proves(response, documents, k, anchors, params) is Ok,
        other.role == params.role,
        other.statuses@ == params.statuses@,
        seen(other.session_transcript) == seen(params.session_transcript),
    ensures
        ({
            let before = proves(response, documents, k, anchors, params);
            let after = proves(response, documents, k, anchors, other);
            if lasts_at(documents[k], other.now_unix as int) {
                after == before
            } else if signed_after(documents[k], other.now_unix as int) {
                after == Err::<DocumentFacts, ReasonCode>(ReasonCode::Tamper)
            } else {
                after == Err::<DocumentFacts, ReasonCode>(ReasonCode::Expired)
            }
        }),
{
    reveal(proves);
    let document = documents[k];
    let now = other.now_unix as int;
    let issuer_signed = map_entry(document, "issuerSigned"@)->0;
    let (sign1, mso) = crate::mdoc::verify::issuer_object(issuer_signed)->0;
    let item = map_entry(issuer_signed, "issuerAuth"@)->0;
    assert(item == issuer_item(document));
    assert(reads_as(item, sign1));
    assert(signs(sign1, mso));
    assert(carries(document, mso));
    assert forall|m: Cbor| #[trigger] carries(document, m) implies m == mso by {
        let s = choose|s: Sign1| #[trigger] reads_as(issuer_item(document), s) && signs(s, m);
        assert(s == sign1);
    }
    let info = map_entry(mso, "validityInfo"@)->0;
    let validity = crate::mdoc::mso::validity_facts(mso)->0;
    assert(dated(info, "validFrom"@, validity.valid_from));
    assert(dated(info, "validUntil"@, validity.valid_until));
    assert(dated(info, "signed"@, validity.signed));
    if validity.valid_from <= now <= validity.valid_until {
        assert(lasts_at(document, now));
    }
    if lasts_at(document, now) {
        let (m, from, until) = choose|m: Cbor, from: int, until: int|
            {
                &&& carries(document, m)
                &&& #[trigger] dated(map_entry(m, "validityInfo"@)->0, "validFrom"@, from)
                &&& #[trigger] dated(map_entry(m, "validityInfo"@)->0, "validUntil"@, until)
                &&& from <= now <= until
            };
        assert(m == mso);
        assert(from == validity.valid_from && until == validity.valid_until);
    }
    if signed_after(document, now) {
        let (m, signed) = choose|m: Cbor, signed: int|
            {
                &&& carries(document, m)
                &&& #[trigger] dated(map_entry(m, "validityInfo"@)->0, "signed"@, signed)
                &&& now < signed
            };
        assert(m == mso);
        assert(signed == validity.signed);
    }
    if now < validity.signed {
        assert(signed_after(document, now));
    }
}

/// A response that is valid at one instant is valid at another, and shows the same, exactly where
/// the windows of all its documents hold that instant too, both ends included; it is refused as
/// expired otherwise, or as tampered with where a document was signed after the instant.
pub proof fn law_instants_decide<A: TrustAnchorSource + ?Sized>(
    device_response: &[u8],
    anchors: &A,
    params: &MdocVerifyParams<'_>,
    out: (VerificationResult, MdocVerifyMeta),
    other: &MdocVerifyParams<'_>,
    other_out: (VerificationResult, MdocVerifyMeta),
)
    requires
        call_ensures(verify_with_meta::<A>, (device_response, anchors, params), out),
        call_ensures(verify_with_meta::<A>, (device_response, anchors, other), other_out),
        out.0.valid,
        other.role == params.role,
        other.statuses@ == params.statuses@,
        seen(other.session_transcript) == seen(params.session_transcript),
    ensures
        (forall|k: int|
            0 <= k < out.1.document_count ==> lasts_at(
                #[trigger] document_of(device_response@, k),
                other.now_unix as int,
            )) ==> other_out.0@ == out.0@,
        (exists|k: int|
            0 <= k < out.1.document_count && !lasts_at(
                #[trigger] document_of(device_response@, k),
                other.now_unix as int,
            )) ==> refused(other_out.0, set![ReasonCode::Expired, ReasonCode::Tamper]),
        !other_out.0.valid && (forall|k: int|
            0 <= k < out.1.document_count ==> !signed_after(
                #[trigger] document_of(device_response@, k),
                other.now_unix as int,
            )) ==> refused(other_out.0, set![ReasonCode::Expired]),
{
    let response = device_response@;
    let documents = response_documents(response)->0;
    let now = other.now_unix as int;
    lemma_passes(device_response, anchors, params, out, 0);
    assert(out.1@.document_count == documents.len());
    assert forall|j: int| 0 <= j < documents.len() implies ({
        let before = proves(response, documents, j, anchors, *params);
        let after = #[trigger] proves(response, documents, j, anchors, *other);
        &&& before is Ok
        &&& lasts_at(document_of(response, j), now) ==> after == before
        &&& !lasts_at(document_of(response, j), now) ==> after == Err::<DocumentFacts, ReasonCode>(
            ReasonCode::Tamper,
        ) || after == Err::<DocumentFacts, ReasonCode>(ReasonCode::Expired)
        &&& !signed_after(document_of(response, j), now) ==> after != Err::<
            DocumentFacts,
            ReasonCode,
        >(ReasonCode::Tamper)
    }) by {
        lemma_passes(device_response, anchors, params, out, j);
        lemma_time(response, documents, j, anchors, *params, *other);
    }
    lemma_verdicts(
        device_response,
        anchors,
        params,
        out,
        anchors,
        other,
        other_out,
        set![ReasonCode::Expired, ReasonCode::Tamper],
    );
    if exists|k: int|
        0 <= k < out.1.document_count && !lasts_at(#[trigger] document_of(response, k), now) {
        let k = choose|k: int|
            0 <= k < out.1.document_count && !lasts_at(#[trigger] document_of(response, k), now);
        assert(proves(response, documents, k, anchors, *other) is Err);
    } else {
        assert forall|j: int| 0 <= j < documents.len() implies #[trigger] proves(
            response,
            documents,
            j,
            anchors,
            *other,
        ) is Ok by {
            assert(lasts_at(document_of(response, j), now));
        }
    }
    if !other_out.0.valid && (forall|k: int|
        0 <= k < out.1.document_count ==> !signed_after(#[trigger] document_of(response, k), now)) {
        assert forall|j: int| 0 <= j < documents.len() implies ({
            ||| #[trigger] proves(response, documents, j, anchors, *other) == proves(
                response,
                documents,
                j,
                anchors,
                *params,
            )
            ||| proves(response, documents, j, anchors, *other) == Err::<
                DocumentFacts,
                ReasonCode,
            >(ReasonCode::Expired)
        }) by {
            assert(!signed_after(document_of(response, j), now));
        }
        lemma_verdicts(
            device_response,
            anchors,
            params,
            out,
            anchors,
            other,
            other_out,
            set![ReasonCode::Expired],
        );
    }
}

/// Whether anchors trust what they are asked about in a valid response: the first certificate of a
/// chain, with the rest as path material, at the instant of the signature.
pub open spec fn trusts_all<A: TrustAnchorSource + ?Sized>(anchors: &A, role: IssuerRole) -> bool {
    forall|leaf: Seq<u8>, rest: Seq<Seq<u8>>, instant: Option<i64>|
        (#[trigger] anchors.decision(role, Format::Mdoc, leaf, rest, instant)).trusted
}

/// Whether anchors trust nothing, for a given reason.
pub open spec fn trusts_nothing<A: TrustAnchorSource + ?Sized>(
    anchors: &A,
    role: IssuerRole,
    failure: Option<TrustFailure>,
) -> bool {
    forall|leaf: Seq<u8>, rest: Seq<Seq<u8>>, instant: Option<i64>|
        {
            let decision = #[trigger] anchors.decision(role, Format::Mdoc, leaf, rest, instant);
            !decision.trusted && decision.failure == failure
        }
}

/// A valid response stays valid under anchors that trust everything; under anchors that trust
/// nothing it is refused as untrusted, or as expired where the anchors say so.
pub proof fn law_anchors_decide<A: TrustAnchorSource + ?Sized>(
    device_response: &[u8],
    anchors: &A,
    params: &MdocVerifyParams<'_>,
    out: (VerificationResult, MdocVerifyMeta),
    other_anchors: &A,
    other_out: (VerificationResult, MdocVerifyMeta),
)
    requires
        call_ensures(verify_with_meta::<A>, (device_response, anchors, params), out),
        call_ensures(verify_with_meta::<A>, (device_response, other_anchors, params), other_out),
        out.0.valid,
    ensures
        trusts_all(other_anchors, params.role) ==> other_out.0@ == out.0@,
        trusts_nothing(other_anchors, params.role, Some(TrustFailure::NotTrusted)) ==> refused(
            other_out.0,
            set![ReasonCode::UntrustedIssuer],
        ),
        trusts_nothing(other_anchors, params.role, None) ==> refused(
            other_out.0,
            set![ReasonCode::UntrustedIssuer],
        ),
        trusts_nothing(other_anchors, params.role, Some(TrustFailure::Expired)) ==> refused(
            other_out.0,
            set![ReasonCode::Expired],
        ),
{
    let response = device_response@;
    let documents = response_documents(response)->0;
    let role = params.role;
    lemma_passes(device_response, anchors, params, out, 0);
    let reason = if trusts_nothing(other_anchors, role, Some(TrustFailure::Expired)) {
        ReasonCode::Expired
    } else {
        ReasonCode::UntrustedIssuer
    };
    let nothing = trusts_nothing(other_anchors, role, Some(TrustFailure::NotTrusted))
        || trusts_nothing(other_anchors, role, None) || trusts_nothing(
        other_anchors,
        role,
        Some(TrustFailure::Expired),
    );
    if nothing || trusts_all(other_anchors, role) {
        let probe = other_anchors.decision(role, Format::Mdoc, Seq::empty(), Seq::empty(), None);
        assert forall|j: int| 0 <= j < documents.len() implies ({
            let before = proves(response, documents, j, anchors, *params);
            let after = #[trigger] proves(response, documents, j, other_anchors, *params);
            &&& before is Ok
            &&& trusts_all(other_anchors, role) ==> after == before
            &&& nothing ==> after == Err::<DocumentFacts, ReasonCode>(reason)
        }) by {
            lemma_passes(device_response, anchors, params, out, j);
            reveal(proves);
        }
        lemma_verdicts(
            device_response,
            anchors,
            params,
            out,
            other_anchors,
            params,
            other_out,
            set![reason],
        );
        if nothing {
            assert(proves(response, documents, 0, other_anchors, *params) is Err);
        }
    }
}

/// A response with person identification data is valid in the role of that data alone: in another
/// role it is refused as a mismatch of roles.
pub proof fn law_roles_decide<A: TrustAnchorSource + ?Sized>(
    device_response: &[u8],
    anchors: &A,
    params: &MdocVerifyParams<'_>,
    out: (VerificationResult, MdocVerifyMeta),
    other: &MdocVerifyParams<'_>,
    other_out: (VerificationResult, MdocVerifyMeta),
)
    requires
        call_ensures(verify_with_meta::<A>, (device_response, anchors, params), out),
        call_ensures(verify_with_meta::<A>, (device_response, anchors, other), other_out),
        out.0.valid,
        other.now_unix == params.now_unix,
        other.statuses@ == params.statuses@,
        seen(other.session_transcript) == seen(params.session_transcript),
        map_entry(document_of(device_response@, 0), "docType"@) == Some(
            Cbor::Text("eu.europa.ec.eudi.pid.1"@),
        ),
    ensures
        params.role == IssuerRole::Pid,
        other.role != IssuerRole::Pid ==> refused(other_out.0, set![ReasonCode::RoleMismatch]),
        other.role == IssuerRole::Pid ==> other_out.0@ == out.0@,
{
    let response = device_response@;
    let documents = response_documents(response)->0;
    lemma_passes(device_response, anchors, params, out, 0);
    assert(documents[0] == document_of(response, 0));
    lemma_role(response, documents, anchors, *params, *other);
    if other.role == IssuerRole::Pid {
        assert forall|j: int| 0 <= j < documents.len() implies #[trigger] proves(
            response,
            documents,
            j,
            anchors,
            *other,
        ) == proves(response, documents, j, anchors, *params) && proves(
            response,
            documents,
            j,
            anchors,
            *other,
        ) is Ok by {
            lemma_passes(device_response, anchors, params, out, j);
            lemma_same_role(response, documents, j, anchors, *params, *other);
        }
        lemma_verdicts(device_response, anchors, params, out, anchors, other, other_out, set![]);
    } else {
        lemma_unfold(response, documents, 0, anchors, *other, no_facts());
        let shown = other_out.0.disclosed_attributes@;
        assert(crate::types::attr_map(shown) == other_out.0@.disclosed_attributes);
        assert forall|key: Seq<char>| !#[trigger] shown.contains_key(key) by {
            assert(crate::types::attr_map(shown).contains_key(key) == shown.contains_key(key));
        }
    }
}

proof fn lemma_same_role<A: TrustAnchorSource + ?Sized>(
    response: Seq<u8>,
    documents: Seq<Cbor>,
    k: int,
    anchors: &A,
    params: MdocVerifyParams<'_>,
    other: MdocVerifyParams<'_>,
)
    requires
        other.role == params.role,
        other.now_unix == params.now_unix,
        other.statuses@ == params.statuses@,
        seen(other.session_transcript) == seen(params.session_transcript),
    ensures
        proves(response, documents, k, anchors, other) == proves(
            response,
            documents,
            k,
            anchors,
            params,
        ),
{
    reveal(proves);
}

proof fn lemma_role<A: TrustAnchorSource + ?Sized>(
    response: Seq<u8>,
    documents: Seq<Cbor>,
    anchors: &A,
    params: MdocVerifyParams<'_>,
    other: MdocVerifyParams<'_>,
)
    requires
        proves(response, documents, 0, anchors, params) is Ok,
        other.now_unix == params.now_unix,
        other.statuses@ == params.statuses@,
        seen(other.session_transcript) == seen(params.session_transcript),
        map_entry(documents[0], "docType"@) == Some(Cbor::Text("eu.europa.ec.eudi.pid.1"@)),
    ensures
        params.role == IssuerRole::Pid,
        other.role != IssuerRole::Pid ==> proves(response, documents, 0, anchors, other) == Err::<
            DocumentFacts,
            ReasonCode,
        >(ReasonCode::RoleMismatch),
{
    reveal(proves);
}

} // verus!
