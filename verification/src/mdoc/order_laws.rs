//! In which order the checks on a response are reported.
use crate::cbor::{cbor_decoded, map_entry, Cbor, CborValue};
use crate::dcql::reconcile_role;
use crate::mdoc::acceptance_laws::is_number;
use crate::mdoc::attributes::{disclosed_content, DisclosedByNamespace};
use crate::mdoc::binding::{device_binding_machinery, verify_device_binding, DeviceBindingMachinery};
use crate::mdoc::cose::{
    ds_chain_from_x5chain, parse_cose_sign1, verify_cose_sign1_es256, CoseSign1,
};
use crate::mdoc::digests::{verify_value_digests, DigestAlgorithm};
use crate::mdoc::failure::VerifyFailure;
use crate::mdoc::items::RawDocumentItems;
use crate::mdoc::mso::{
    enforce_validity, mso_device_key, parse_validity_info, unwrap_bstr_tagged_payload, DeviceKey,
};
use crate::mdoc::refusal_laws::refused;
use crate::mdoc::verify::{
    documents_verdict, reject_indefinite_length_cbor, response_documents,
    verify_issuer_auth_against_vector, verify_issuer_signed, verify_one_document, verify_with_meta,
    IssuerVerified, MdocVerifyMeta, MdocVerifyParams, VerifiedDocument,
};
use crate::status::StatusOutcome;
use crate::text::{byte_strings, seen};
use crate::text_map::TextMap;
use crate::trust::TrustAnchorSource;
use crate::types::{
    attr_map, AttributeValue, Format, IssuerRole, ReasonCode, Validity, VerificationResult,
};
use vstd::prelude::*;

verus! {

/// What the single checks on the issuer's part of a document gave.
pub struct IssuerChecks {
    pub signature: Result<(), VerifyFailure>,
    pub role: Result<IssuerRole, ()>,
    pub validity: Result<(Validity, i64), VerifyFailure>,
    pub algorithm: Option<DigestAlgorithm>,
    pub window: Result<(), VerifyFailure>,
    pub digests: Result<DisclosedByNamespace, VerifyFailure>,
    pub key: Result<DeviceKey, VerifyFailure>,
}

/// The issuer's part of a document that can be read is checked in this order, and the first check
/// that fails is reported: the signature, the role, the dates, the trust in the chain, the hash,
/// the window, the status, the type, the digests and the device key. Where all pass, the result
/// holds what they gave.
pub proof fn law_issuer_checks_in_order<A: TrustAnchorSource + ?Sized>(
    issuer_signed: &CborValue,
    records: Option<&RawDocumentItems<'_>>,
    anchors: &A,
    doc_type: &str,
    status: StatusOutcome,
    params: &MdocVerifyParams<'_>,
    item: &CborValue,
    sign1: CoseSign1,
    payload: &[u8],
    inner: Vec<u8>,
    mso: &CborValue,
    chain: Vec<Vec<u8>>,
    leaf: &[u8],
    signed_type: &str,
    name: &str,
    checks: IssuerChecks,
    out: Result<IssuerVerified, VerifyFailure>,
)
    requires
        map_entry(issuer_signed@, "issuerAuth"@) == Some(item@),
        call_ensures(parse_cose_sign1, (item,), Ok(sign1)),
        sign1@.payload == Some(payload@),
        call_ensures(unwrap_bstr_tagged_payload, (payload,), Ok(inner)),
        cbor_decoded(inner@) == Some(mso@),
        map_entry(mso@, "version"@) == Some(Cbor::Text("1.0"@)),
        call_ensures(ds_chain_from_x5chain, (&sign1,), Ok(chain)),
        leaf@ == chain@[0]@,
        call_ensures(verify_cose_sign1_es256, (&sign1, leaf), checks.signature),
        map_entry(mso@, "docType"@) == Some(Cbor::Text(signed_type@)),
        call_ensures(reconcile_role, (params.role, Format::Mdoc, signed_type), checks.role),
        call_ensures(parse_validity_info, (mso, params.now_unix), checks.validity),
        map_entry(mso@, "digestAlgorithm"@) == Some(Cbor::Text(name@)),
        call_ensures(DigestAlgorithm::from_name, (name,), checks.algorithm),
        checks.validity matches Ok(read) ==> call_ensures(
            enforce_validity,
            (&read.0, params.now_unix),
            checks.window,
        ),
        checks.algorithm matches Some(algorithm) ==> call_ensures(
            verify_value_digests,
            (issuer_signed, records, mso, algorithm),
            checks.digests,
        ),
        call_ensures(mso_device_key, (mso,), checks.key),
        call_ensures(
            verify_issuer_signed::<A>,
            (issuer_signed, records, anchors, doc_type, status, params),
            out,
        ),
    ensures
        if checks.signature is Err {
            out matches Err(failure) && failure.reason == ReasonCode::Tamper
        } else if checks.role is Err {
            out matches Err(failure) && failure.reason == ReasonCode::RoleMismatch
        } else if checks.validity is Err {
            out matches Err(failure) && failure.reason == checks.validity->Err_0.reason
        } else if !anchors.decision(
            params.role,
            Format::Mdoc,
            chain@[0]@,
            byte_strings(chain@).skip(1),
            Some(checks.validity->Ok_0.1),
        ).trusted {
            out matches Err(failure) && (failure.reason == ReasonCode::UntrustedIssuer
                || failure.reason == ReasonCode::Expired)
        } else if checks.algorithm is None {
            out matches Err(failure) && failure.reason == ReasonCode::MalformedCredential
        } else if checks.window is Err {
            out matches Err(failure) && failure.reason == ReasonCode::Expired
        } else if status == StatusOutcome::Revoked {
            out matches Err(failure) && failure.reason == ReasonCode::Revoked
        } else if status == StatusOutcome::Unavailable {
            out matches Err(failure) && failure.reason == ReasonCode::StatusUnavailable
        } else if signed_type@ != doc_type@ {
            out matches Err(failure) && failure.reason == ReasonCode::Tamper
        } else if checks.digests is Err {
            out matches Err(failure) && failure.reason == checks.digests->Err_0.reason
        } else if checks.key is Err {
            out matches Err(failure) && failure.reason == ReasonCode::MalformedCredential
        } else {
            out matches Ok(verified) && {
                &&& disclosed_content(verified.disclosed@) == disclosed_content(
                    checks.digests->Ok_0@,
                )
                &&& verified.device_key.sec1@ == checks.key->Ok_0.sec1@
                &&& verified.ds_cert_der@ == chain@[0]@
                &&& verified.issuance_time == checks.validity->Ok_0.1
            }
        },
{
    assert(byte_strings(chain@)[0] == chain@[0]@);
}

/// A document is checked for its issuer first, and for its holder then; the first that fails is
/// reported, and where both pass the document proves what the issuer vouched for.
pub proof fn law_documents_are_checked_in_order<A: TrustAnchorSource + ?Sized>(
    document: &CborValue,
    records: Option<&RawDocumentItems<'_>>,
    anchors: &A,
    status: StatusOutcome,
    transcript: Option<&CborValue>,
    params: &MdocVerifyParams<'_>,
    doc_type: &str,
    issuer_signed: &CborValue,
    issuer: Result<IssuerVerified, VerifyFailure>,
    binding: Result<(), VerifyFailure>,
    out: Result<VerifiedDocument, VerifyFailure>,
)
    requires
        match params.session_transcript {
            Some(bytes) => seen(transcript) == cbor_decoded(bytes@),
            None => transcript is None,
        },
        map_entry(document@, "docType"@) == Some(Cbor::Text(doc_type@)),
        map_entry(document@, "issuerSigned"@) == Some(issuer_signed@),
        call_ensures(
            verify_issuer_signed::<A>,
            (issuer_signed, records, anchors, doc_type, status, params),
            issuer,
        ),
        issuer matches Ok(verified) ==> call_ensures(
            verify_device_binding,
            (document, &verified.device_key, doc_type, transcript, params.session_transcript),
            binding,
        ),
        call_ensures(
            verify_one_document::<A>,
            (document, records, anchors, status, transcript, params),
            out,
        ),
    ensures
        if issuer is Err {
            out matches Err(failure) && failure.reason == issuer->Err_0.reason
        } else if binding is Err {
            out matches Err(failure) && failure.reason == binding->Err_0.reason
        } else {
            out matches Ok(verified) && {
                &&& disclosed_content(verified.disclosed@) == disclosed_content(
                    issuer->Ok_0.disclosed@,
                )
                &&& verified.claimed_issuer.0@ == issuer->Ok_0.ds_cert_der@
                &&& verified.claimed_issuer.1 == issuer->Ok_0.issuance_time
                &&& verified.doc_type@ == doc_type@
            }
        },
{
}

/// What is no response of the known version with status zero and at least one document is
/// malformed, and nothing is learned of it.
pub proof fn law_other_responses_are_malformed<A: TrustAnchorSource + ?Sized>(
    device_response: &[u8],
    anchors: &A,
    params: &MdocVerifyParams<'_>,
    out: (VerificationResult, MdocVerifyMeta),
)
    requires
        call_ensures(verify_with_meta::<A>, (device_response, anchors, params), out),
        !(cbor_decoded(device_response@) matches Some(root) && {
            &&& map_entry(root, "version"@) == Some(Cbor::Text("1.0"@))
            &&& map_entry(root, "status"@) matches Some(status) && is_number(status, 0)
            &&& map_entry(root, "documents"@) matches Some(Cbor::Array(documents))
                && documents.len() > 0
        }),
    ensures
        refused(out.0, set![ReasonCode::MalformedCredential]),
        out.1.document_count == 0,
        out.1.claimed_issuers@.len() == 0,
        out.1.doc_types@.len() == 0,
        out.1.binding_machinery is None,
{
    lemma_shows_nothing(out.0);
    assert(crate::mdoc::verify::issuers_content(out.1.claimed_issuers@).len()
        == out.1.claimed_issuers@.len());
    assert(crate::text::texts(out.1.doc_types@).len() == out.1.doc_types@.len());
}

proof fn lemma_shows_nothing(result: VerificationResult)
    requires
        result@.disclosed_attributes == Map::<Seq<char>, crate::types::Attr>::empty(),
    ensures
        forall|key: Seq<char>| !#[trigger] result.disclosed_attributes@.contains_key(key),
{
    let shown = result.disclosed_attributes@;
    assert forall|key: Seq<char>| !#[trigger] shown.contains_key(key) by {
        assert(attr_map(shown).contains_key(key) == shown.contains_key(key));
    }
}

/// A result that is not valid shows nothing and gives one reason; the machinery of the binding is
/// told exactly where the holder binding is that reason, and it is that of the response.
pub proof fn law_refusals_show_nothing<A: TrustAnchorSource + ?Sized>(
    device_response: &[u8],
    anchors: &A,
    params: &MdocVerifyParams<'_>,
    out: (VerificationResult, MdocVerifyMeta),
    machinery: DeviceBindingMachinery,
)
    requires
        call_ensures(verify_with_meta::<A>, (device_response, anchors, params), out),
        call_ensures(device_binding_machinery, (device_response,), machinery),
        !out.0.valid,
    ensures
        out.0.reasons@.len() == 1,
        refused(out.0, set![out.0.reasons@[0]]),
        out.1.claimed_issuers@.len() == 0,
        out.1.doc_types@.len() == 0,
        if out.0.reasons@[0] == ReasonCode::HolderBinding {
            out.1.binding_machinery == Some(machinery)
        } else {
            out.1.binding_machinery is None
        },
{
    lemma_shows_nothing(out.0);
    assert(crate::mdoc::verify::issuers_content(out.1.claimed_issuers@).len()
        == out.1.claimed_issuers@.len());
    assert(crate::text::texts(out.1.doc_types@).len() == out.1.doc_types@.len());
}

/// The issuer's part of the first document alone does not depend on the session; where it fails, a
/// response is refused for the same reason, and where a response is valid, it passes.
pub proof fn law_the_issuers_part_stands_alone<A: TrustAnchorSource + ?Sized>(
    device_response: &[u8],
    anchors: &A,
    params: &MdocVerifyParams<'_>,
    out: (VerificationResult, MdocVerifyMeta),
    other: &MdocVerifyParams<'_>,
    alone: Result<TextMap<AttributeValue>, ReasonCode>,
)
    requires
        call_ensures(verify_with_meta::<A>, (device_response, anchors, params), out),
        call_ensures(
            verify_issuer_auth_against_vector::<A>,
            (device_response, anchors, other),
            alone,
        ),
        response_documents(device_response@) is Some,
        other.now_unix == params.now_unix,
        other.role == params.role,
        other.statuses@ == params.statuses@,
    ensures
        out.0.valid ==> alone is Ok,
        alone matches Err(reason) ==> refused(out.0, set![reason]),
{
    let documents = response_documents(device_response@)->0;
    reveal_with_fuel(documents_verdict, 2);
    if !out.0.valid {
        lemma_shows_nothing(out.0);
    }
}

/// A response that is one item of definite lengths, of the known version, with status zero and at
/// least one document is looked into, and its documents are counted.
pub proof fn law_proper_responses_are_looked_into<A: TrustAnchorSource + ?Sized>(
    device_response: &[u8],
    anchors: &A,
    params: &MdocVerifyParams<'_>,
    out: (VerificationResult, MdocVerifyMeta),
    root: Cbor,
    documents: Seq<Cbor>,
)
    requires
        call_ensures(verify_with_meta::<A>, (device_response, anchors, params), out),
        call_ensures(
            reject_indefinite_length_cbor,
            (device_response,),
            Ok::<(), VerifyFailure>(()),
        ),
        cbor_decoded(device_response@) == Some(root),
        map_entry(root, "version"@) == Some(Cbor::Text("1.0"@)),
        map_entry(root, "status"@) matches Some(status) && is_number(status, 0),
        map_entry(root, "documents"@) == Some(Cbor::Array(documents)),
        documents.len() > 0,
    ensures
        response_documents(device_response@) == Some(documents),
        out.1.document_count == documents.len(),
{
    assert(out.1@.document_count == documents.len());
}

/// What is no item of definite lengths with nothing behind it is malformed.
pub proof fn law_incomplete_responses_are_malformed<A: TrustAnchorSource + ?Sized>(
    device_response: &[u8],
    anchors: &A,
    params: &MdocVerifyParams<'_>,
    out: (VerificationResult, MdocVerifyMeta),
    failure: VerifyFailure,
)
    requires
        call_ensures(verify_with_meta::<A>, (device_response, anchors, params), out),
        call_ensures(
            reject_indefinite_length_cbor,
            (device_response,),
            Err::<(), VerifyFailure>(failure),
        ),
    ensures
        refused(out.0, set![ReasonCode::MalformedCredential]),
        out.1.document_count == 0,
{
    lemma_shows_nothing(out.0);
}

} // verus!
