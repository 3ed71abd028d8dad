//! The checks on a response, from its bytes to the verdict.
use crate::cbor::{
    array_entry, cbor_decoded, contents, decode, get_array, get_integer, get_map_entry, get_text,
    integer_entry, map_entry, text_entry, Cbor, CborValue,
};
use crate::dcql::role::{reconcile_role, reconciled_role};
use crate::mdoc::attributes::{
    clash, disclosed_content, grouped, merge_disclosed, merged, namespace_grouped_attributes,
    DisclosedByNamespace,
};
use crate::mdoc::binding::{
    binding_verdict, classify_binding_machinery, decode_session_transcript_value, machinery_of,
    verify_device_binding, DeviceBindingMachinery,
};
use crate::mdoc::cose::{
    ds_chain_from_x5chain, parse_cose_sign1, sign1_of, signed_by_certificate,
    verify_cose_sign1_es256, x5chain, Sign1,
};
use crate::mdoc::cursor::{skip_at, CborCursor};
use crate::mdoc::digests::{algorithm_named, digests_verdict, verify_value_digests, DigestAlgorithm};
use crate::mdoc::failure::VerifyFailure;
use crate::mdoc::grammar::{item_end, law_one_complete_item};
use crate::mdoc::items::{
    document_items, items_of_response, response_items, scan_raw_issuer_items, RawDocumentItems,
    RawItem,
};
use crate::mdoc::mso::{
    device_key, enforce_validity, mso_device_key, parse_validity_info, unwrap_bstr_tagged_payload,
    validity_verdict, wrapped_bytes, DeviceKey, MDOC_SCHEMA_VERSION,
};
use crate::status::StatusOutcome;
use crate::text::{byte_strings, copy_bytes, seen, str_eq, texts};
use crate::text_map::TextMap;
use crate::trust::{TrustAnchorSource, TrustFailure};
use crate::types::{
    accepted, attr_map, rejected, Attr, AttributeValue, Format, IssuerRole, ReasonCode, TrustStatus,
    Verdict, VerificationResult,
};
use vstd::prelude::*;

verus! {

/// What a response is checked against.
#[derive(Debug)]
pub struct MdocVerifyParams<'a> {
    /// The instant of the verification, in Unix seconds.
    pub now_unix: i64,
    /// The encoded session transcript that the device signed.
    pub session_transcript: Option<&'a [u8]>,
    /// The role under which the issuer must be trusted.
    pub role: IssuerRole,
    /// The revocation status of each document, by its position. A document beyond the list counts
    /// as one whose status could not be learned.
    pub statuses: &'a [StatusOutcome],
}

impl<'a> Default for MdocVerifyParams<'a> {
    /// No transcript, the role of person identification data, the epoch, and one document without a
    /// status mechanism.
    fn default() -> (out: MdocVerifyParams<'a>)
        ensures
            out.now_unix == 0,
            out.session_transcript is None,
            out.role == IssuerRole::Pid,
            out.statuses@ == seq![StatusOutcome::NoStatus],
    {
        let statuses: &'a [StatusOutcome] = &[StatusOutcome::NoStatus];
        assert(statuses@ =~= seq![StatusOutcome::NoStatus]);
        MdocVerifyParams { now_unix: 0, session_transcript: None, role: IssuerRole::Pid, statuses }
    }
}

/// What the checks learned on the way to the verdict.
#[derive(Debug)]
pub struct MdocVerifyMeta {
    /// The number of documents; zero where the response is too malformed to tell.
    pub document_count: usize,
    /// The issuer certificate of each document and the instant of its issuance; empty unless the
    /// response is valid.
    pub claimed_issuers: Vec<(Vec<u8>, i64)>,
    /// The type of each document; empty unless the response is valid.
    pub doc_types: Vec<String>,
    /// The state of the binding machinery, where the holder binding failed.
    pub binding_machinery: Option<DeviceBindingMachinery>,
}

/// The mathematical content of a [`MdocVerifyMeta`].
pub struct Meta {
    pub document_count: nat,
    pub claimed_issuers: Seq<(Seq<u8>, i64)>,
    pub doc_types: Seq<Seq<char>>,
    pub binding_machinery: Option<DeviceBindingMachinery>,
}

/// The contents of a list of issuers.
pub open spec fn issuers_content(issuers: Seq<(Vec<u8>, i64)>) -> Seq<(Seq<u8>, i64)> {
    issuers.map_values(|issuer: (Vec<u8>, i64)| (issuer.0@, issuer.1))
}

impl View for MdocVerifyMeta {
    type V = Meta;

    open spec fn view(&self) -> Meta {
        Meta {
            document_count: self.document_count as nat,
            claimed_issuers: issuers_content(self.claimed_issuers@),
            doc_types: texts(self.doc_types@),
            binding_machinery: self.binding_machinery,
        }
    }
}

/// The meta of a response of which nothing was learned.
pub open spec fn empty_meta() -> Meta {
    Meta {
        document_count: 0,
        claimed_issuers: seq![],
        doc_types: seq![],
        binding_machinery: None,
    }
}

impl Default for MdocVerifyMeta {
    /// The meta of a response of which nothing was learned.
    fn default() -> (out: MdocVerifyMeta)
        ensures
            out@ == empty_meta(),
    {
        let out = MdocVerifyMeta {
            document_count: 0,
            claimed_issuers: Vec::new(),
            doc_types: Vec::new(),
            binding_machinery: None,
        };
        assert(out@.claimed_issuers =~= seq![]);
        assert(out@.doc_types =~= seq![]);
        out
    }
}

/// The signed object of a document: its COSE_Sign1 and the mobile security object inside.
pub open spec fn issuer_object(issuer_signed: Cbor) -> Option<(Sign1, Cbor)> {
    match map_entry(issuer_signed, "issuerAuth"@) {
        Some(issuer_auth) => match sign1_of(issuer_auth) {
            Some(sign1) => match sign1.payload {
                Some(payload) => match wrapped_bytes(payload) {
                    Some(inner) => match cbor_decoded(inner) {
                        Some(mso) => Some((sign1, mso)),
                        None => None,
                    },
                    None => None,
                },
                None => None,
            },
            None => None,
        },
        None => None,
    }
}

/// What the issuer's part of a document proves.
pub struct IssuerFacts {
    /// The disclosed attributes.
    pub disclosed: Map<Seq<char>, Map<Seq<char>, Attr>>,
    /// The holder's key.
    pub device_key: Seq<u8>,
    /// The certificate of the document signer.
    pub certificate: Seq<u8>,
    /// The instant of the issuance.
    pub issued_at: i64,
}

/// The role to trust the issuer of a mobile security object in.
pub open spec fn effective_role(role: IssuerRole, mso: Cbor) -> Option<IssuerRole> {
    match text_entry(mso, "docType"@) {
        Some(doc_type) => reconciled_role(role, Format::Mdoc, doc_type),
        None => Some(role),
    }
}

/// The reason for which a revocation status refuses a document.
pub open spec fn status_refusal(status: StatusOutcome) -> Option<ReasonCode> {
    match status {
        StatusOutcome::NoStatus => None,
        StatusOutcome::Good => None,
        StatusOutcome::Revoked => Some(ReasonCode::Revoked),
        StatusOutcome::Unavailable => Some(ReasonCode::StatusUnavailable),
    }
}

/// The reason for which the anchors refuse a chain.
pub open spec fn trust_refusal<A: TrustAnchorSource + ?Sized>(
    anchors: &A,
    role: IssuerRole,
    chain: Seq<Seq<u8>>,
    issued_at: i64,
) -> Option<ReasonCode> {
    let decision = anchors.decision(role, Format::Mdoc, chain[0], chain.skip(1), Some(issued_at));
    if decision.trusted {
        None
    } else {
        match decision.failure {
            Some(failure) => Some(failure.reason()),
            None => Some(ReasonCode::UntrustedIssuer),
        }
    }
}

/// What the issuer's part of a document proves, once its mobile security object is read and its
/// chain is found: the checks on the object, in the order in which a failure is reported.
pub open spec fn object_verdict<A: TrustAnchorSource + ?Sized>(
    issuer_signed: Cbor,
    sign1: Sign1,
    mso: Cbor,
    chain: Seq<Seq<u8>>,
    records: Option<Map<Seq<char>, Seq<RawItem>>>,
    anchors: &A,
    doc_type: Seq<char>,
    status: StatusOutcome,
    role: IssuerRole,
    now: int,
) -> Result<IssuerFacts, ReasonCode> {
    if !signed_by_certificate(sign1, chain[0]) {
        Err(ReasonCode::Tamper)
    } else {
        match effective_role(role, mso) {
            None => Err(ReasonCode::RoleMismatch),
            Some(role) => match validity_verdict(mso, now) {
                Err(reason) => Err(reason),
                Ok(validity) => match trust_refusal(anchors, role, chain, validity.signed as i64) {
                    Some(reason) => Err(reason),
                    None => match text_entry(mso, "digestAlgorithm"@) {
                        None => Err(ReasonCode::MalformedCredential),
                        Some(name) => match algorithm_named(name) {
                            None => Err(ReasonCode::MalformedCredential),
                            Some(algorithm) => if !(validity.valid_from <= now
                                <= validity.valid_until) {
                                Err(ReasonCode::Expired)
                            } else if status_refusal(status) is Some {
                                Err(status_refusal(status)->0)
                            } else if text_entry(mso, "docType"@) != Some(doc_type) {
                                Err(ReasonCode::Tamper)
                            } else {
                                match digests_verdict(issuer_signed, records, mso, algorithm) {
                                    Err(reason) => Err(reason),
                                    Ok(disclosed) => match device_key(mso) {
                                        None => Err(ReasonCode::MalformedCredential),
                                        Some(device_key) => Ok(
                                            IssuerFacts {
                                                disclosed,
                                                device_key,
                                                certificate: chain[0],
                                                issued_at: validity.signed as i64,
                                            },
                                        ),
                                    },
                                }
                            },
                        },
                    },
                },
            },
        }
    }
}

/// What the issuer's part of a document proves.
pub open spec fn issuer_verdict<A: TrustAnchorSource + ?Sized>(
    issuer_signed: Cbor,
    records: Option<Map<Seq<char>, Seq<RawItem>>>,
    anchors: &A,
    doc_type: Seq<char>,
    status: StatusOutcome,
    role: IssuerRole,
    now: int,
) -> Result<IssuerFacts, ReasonCode> {
    match issuer_object(issuer_signed) {
        None => Err(ReasonCode::MalformedCredential),
        Some((sign1, mso)) => if text_entry(mso, "version"@) != Some(MDOC_SCHEMA_VERSION@) {
            Err(ReasonCode::MalformedCredential)
        } else {
            match x5chain(sign1) {
                None => Err(ReasonCode::MalformedCredential),
                Some(chain) => object_verdict(
                    issuer_signed,
                    sign1,
                    mso,
                    chain,
                    records,
                    anchors,
                    doc_type,
                    status,
                    role,
                    now,
                ),
            }
        },
    }
}

/// The result of checking the issuer's part of a document.
#[derive(Debug)]
pub struct IssuerVerified {
    /// The disclosed attributes.
    pub disclosed: DisclosedByNamespace,
    /// The holder's key.
    pub device_key: DeviceKey,
    /// The certificate of the document signer.
    pub ds_cert_der: Vec<u8>,
    /// The instant of the issuance.
    pub issuance_time: i64,
}

impl View for IssuerVerified {
    type V = IssuerFacts;

    open spec fn view(&self) -> IssuerFacts {
        IssuerFacts {
            disclosed: disclosed_content(self.disclosed@),
            device_key: self.device_key.sec1@,
            certificate: self.ds_cert_der@,
            issued_at: self.issuance_time,
        }
    }
}

/// The contents of the records captured of a document.
pub open spec fn records_content(records: Option<&RawDocumentItems<'_>>) -> Option<
    Map<Seq<char>, Seq<RawItem>>,
> {
    match records {
        Some(records) => Some(document_items(records@)),
        None => None,
    }
}

fn has_version(value: &CborValue) -> (out: bool)
    ensures
        out == (text_entry(value@, "version"@) == Some(MDOC_SCHEMA_VERSION@)),
{
    match get_text(value, "version") {
        Some(version) => str_eq(version.as_str(), MDOC_SCHEMA_VERSION),
        None => false,
    }
}

fn document_role(role: IssuerRole, mso: &CborValue) -> (out: Result<IssuerRole, VerifyFailure>)
    ensures
        match out {
            Ok(effective) => effective_role(role, mso@) == Some(effective),
            Err(failure) => effective_role(role, mso@) is None && failure.reason
                == ReasonCode::RoleMismatch,
        },
{
    match get_text(mso, "docType") {
        Some(doc_type) => match reconcile_role(role, Format::Mdoc, doc_type.as_str()) {
            Ok(effective) => Ok(effective),
            Err(_) => Err(VerifyFailure::with_reason(ReasonCode::RoleMismatch)),
        },
        None => Ok(role),
    }
}

fn check_status(status: StatusOutcome) -> (out: Result<(), VerifyFailure>)
    ensures
        match status_refusal(status) {
            None => out is Ok,
            Some(reason) => out matches Err(failure) && failure.reason == reason,
        },
{
    match status {
        StatusOutcome::NoStatus | StatusOutcome::Good => Ok(()),
        StatusOutcome::Revoked => Err(VerifyFailure::with_reason(ReasonCode::Revoked)),
        StatusOutcome::Unavailable => Err(
            VerifyFailure::with_reason(ReasonCode::StatusUnavailable),
        ),
    }
}

fn check_trust<A: TrustAnchorSource + ?Sized>(
    anchors: &A,
    role: IssuerRole,
    chain: &Vec<Vec<u8>>,
    issued_at: i64,
) -> (out: Result<(), VerifyFailure>)
    requires
        chain@.len() > 0,
    ensures
        match trust_refusal(anchors, role, byte_strings(chain@), issued_at) {
            None => out is Ok,
            Some(reason) => out matches Err(failure) && failure.reason == reason,
        },
{
    let intermediates = vstd::slice::slice_subrange(chain.as_slice(), 1, chain.len());
    assert(byte_strings(intermediates@) =~= byte_strings(chain@).skip(1));
    let decision = anchors.resolve(
        role,
        Format::Mdoc,
        chain[0].as_slice(),
        intermediates,
        Some(issued_at),
    );
    if decision.trusted {
        return Ok(());
    }
    let failure = match decision.failure {
        Some(failure) => failure,
        None => TrustFailure::not_trusted(),
    };
    Err(VerifyFailure::with_reason(failure.reason_code()))
}

/// Check the issuer's part of a document: signature, trust, validity, status, type, digests.
pub fn verify_issuer_signed<A: TrustAnchorSource + ?Sized>(
    issuer_signed: &CborValue,
    records: Option<&RawDocumentItems<'_>>,
    anchors: &A,
    doc_type: &str,
    status: StatusOutcome,
    params: &MdocVerifyParams<'_>,
) -> (out: Result<IssuerVerified, VerifyFailure>)
    ensures
        match issuer_verdict(
            issuer_signed@,
            records_content(records),
            anchors,
            doc_type@,
            status,
            params.role,
            params.now_unix as int,
        ) {
            Ok(facts) => out matches Ok(verified) && verified@ == facts,
            Err(reason) => out matches Err(failure) && failure.reason == reason,
        },
{
    let issuer_auth_value = match get_map_entry(issuer_signed, "issuerAuth") {
        Some(value) => value,
        None => {
            return Err(VerifyFailure::malformed());
        },
    };
    let issuer_auth = match parse_cose_sign1(issuer_auth_value) {
        Ok(issuer_auth) => issuer_auth,
        Err(failure) => {
            return Err(failure);
        },
    };
    let mso_inner = match &issuer_auth.payload {
        Some(payload) => match unwrap_bstr_tagged_payload(payload.as_slice()) {
            Ok(inner) => inner,
            Err(failure) => {
                return Err(failure);
            },
        },
        None => {
            return Err(VerifyFailure::malformed());
        },
    };
    let mso = match decode(mso_inner.as_slice()) {
        Some(mso) => mso,
        None => {
            return Err(VerifyFailure::malformed());
        },
    };
    if !has_version(&mso) {
        return Err(VerifyFailure::malformed());
    }
    let chain = match ds_chain_from_x5chain(&issuer_auth) {
        Ok(chain) => chain,
        Err(failure) => {
            return Err(failure);
        },
    };
    assert(byte_strings(chain@)[0] == chain@[0]@);
    match verify_cose_sign1_es256(&issuer_auth, chain[0].as_slice()) {
        Ok(_) => {},
        Err(failure) => {
            return Err(failure);
        },
    }
    let role = match document_role(params.role, &mso) {
        Ok(role) => role,
        Err(failure) => {
            return Err(failure);
        },
    };
    let (validity, issuance_time) = match parse_validity_info(&mso, params.now_unix) {
        Ok(parsed) => parsed,
        Err(failure) => {
            return Err(failure);
        },
    };
    match check_trust(anchors, role, &chain, issuance_time) {
        Ok(_) => {},
        Err(failure) => {
            return Err(failure);
        },
    }
    let digest_alg = match get_text(&mso, "digestAlgorithm") {
        Some(name) => match DigestAlgorithm::from_name(name.as_str()) {
            Some(digest_alg) => digest_alg,
            None => {
                return Err(VerifyFailure::malformed());
            },
        },
        None => {
            return Err(VerifyFailure::malformed());
        },
    };
    match enforce_validity(&validity, params.now_unix) {
        Ok(_) => {},
        Err(failure) => {
            return Err(failure);
        },
    }
    match check_status(status) {
        Ok(_) => {},
        Err(failure) => {
            return Err(failure);
        },
    }
    let same_type = match get_text(&mso, "docType") {
        Some(mso_type) => str_eq(mso_type.as_str(), doc_type),
        None => false,
    };
    if !same_type {
        return Err(VerifyFailure::with_reason(ReasonCode::Tamper));
    }
    let disclosed = match verify_value_digests(issuer_signed, records, &mso, digest_alg) {
        Ok(disclosed) => disclosed,
        Err(failure) => {
            return Err(failure);
        },
    };
    let device_key = match mso_device_key(&mso) {
        Ok(device_key) => device_key,
        Err(failure) => {
            return Err(failure);
        },
    };
    Ok(IssuerVerified { disclosed, device_key, ds_cert_der: copy_bytes(&chain[0]), issuance_time })
}

/// What a document proves.
pub struct DocumentFacts {
    /// The disclosed attributes.
    pub disclosed: Map<Seq<char>, Map<Seq<char>, Attr>>,
    /// The certificate of the document signer.
    pub certificate: Seq<u8>,
    /// The instant of the issuance.
    pub issued_at: i64,
    /// The type of the document.
    pub doc_type: Seq<char>,
}

/// What a document proves: the issuer's part first, then the holder binding.
pub open spec fn document_verdict<A: TrustAnchorSource + ?Sized>(
    document: Cbor,
    records: Option<Map<Seq<char>, Seq<RawItem>>>,
    anchors: &A,
    status: StatusOutcome,
    transcript: Option<Seq<u8>>,
    role: IssuerRole,
    now: int,
) -> Result<DocumentFacts, ReasonCode> {
    match (text_entry(document, "docType"@), map_entry(document, "issuerSigned"@)) {
        (Some(doc_type), Some(issuer_signed)) => match issuer_verdict(
            issuer_signed,
            records,
            anchors,
            doc_type,
            status,
            role,
            now,
        ) {
            Err(reason) => Err(reason),
            Ok(facts) => match binding_verdict(document, facts.device_key, doc_type, transcript) {
                Some(reason) => Err(reason),
                None => Ok(
                    DocumentFacts {
                        disclosed: facts.disclosed,
                        certificate: facts.certificate,
                        issued_at: facts.issued_at,
                        doc_type,
                    },
                ),
            },
        },
        _ => Err(ReasonCode::MalformedCredential),
    }
}

/// The result of checking a document.
#[derive(Debug)]
pub struct VerifiedDocument {
    /// The disclosed attributes.
    pub disclosed: DisclosedByNamespace,
    /// The certificate of the document signer, and the instant of the issuance.
    pub claimed_issuer: (Vec<u8>, i64),
    /// The type of the document.
    pub doc_type: String,
}

impl View for VerifiedDocument {
    type V = DocumentFacts;

    open spec fn view(&self) -> DocumentFacts {
        DocumentFacts {
            disclosed: disclosed_content(self.disclosed@),
            certificate: self.claimed_issuer.0@,
            issued_at: self.claimed_issuer.1,
            doc_type: self.doc_type@,
        }
    }
}

/// Check one document. `session_transcript` is the decoded form of the transcript in `params`.
pub fn verify_one_document<A: TrustAnchorSource + ?Sized>(
    document: &CborValue,
    records: Option<&RawDocumentItems<'_>>,
    anchors: &A,
    status: StatusOutcome,
    session_transcript: Option<&CborValue>,
    params: &MdocVerifyParams<'_>,
) -> (out: Result<VerifiedDocument, VerifyFailure>)
    requires
        match params.session_transcript {
            Some(bytes) => seen(session_transcript) == cbor_decoded(bytes@),
            None => session_transcript is None,
        },
    ensures
        match document_verdict(
            document@,
            records_content(records),
            anchors,
            status,
            seen(params.session_transcript),
            params.role,
            params.now_unix as int,
        ) {
            Ok(facts) => out matches Ok(verified) && verified@ == facts,
            Err(reason) => out matches Err(failure) && failure.reason == reason,
        },
{
    let doc_type = match get_text(document, "docType") {
        Some(doc_type) => doc_type,
        None => {
            return Err(VerifyFailure::malformed());
        },
    };
    let issuer_signed = match get_map_entry(document, "issuerSigned") {
        Some(issuer_signed) => issuer_signed,
        None => {
            return Err(VerifyFailure::malformed());
        },
    };
    let verified = match verify_issuer_signed(
        issuer_signed,
        records,
        anchors,
        doc_type.as_str(),
        status,
        params,
    ) {
        Ok(verified) => verified,
        Err(failure) => {
            return Err(failure);
        },
    };
    match verify_device_binding(
        document,
        &verified.device_key,
        doc_type.as_str(),
        session_transcript,
        params.session_transcript,
    ) {
        Ok(_) => {},
        Err(failure) => {
            return Err(failure);
        },
    }
    Ok(
        VerifiedDocument {
            disclosed: verified.disclosed,
            claimed_issuer: (verified.ds_cert_der, verified.issuance_time),
            doc_type,
        },
    )
}

/// The status of the document at position `k`.
pub open spec fn status_at(statuses: Seq<StatusOutcome>, k: int) -> StatusOutcome {
    if 0 <= k < statuses.len() {
        statuses[k]
    } else {
        StatusOutcome::Unavailable
    }
}

/// What was captured of the document at position `k`.
pub open spec fn records_at(
    records: Seq<Map<Seq<char>, Seq<RawItem>>>,
    k: int,
) -> Option<Map<Seq<char>, Seq<RawItem>>> {
    if 0 <= k < records.len() {
        Some(records[k])
    } else {
        None
    }
}

/// What a list of documents proves together.
pub struct ResponseFacts {
    /// The attributes of all documents.
    pub disclosed: Map<Seq<char>, Map<Seq<char>, Attr>>,
    /// The certificate and the instant of issuance of each document.
    pub issuers: Seq<(Seq<u8>, i64)>,
    /// The type of each document.
    pub doc_types: Seq<Seq<char>>,
}

/// The facts of a response with those of one more document.
pub open spec fn with_document(facts: ResponseFacts, document: DocumentFacts) -> ResponseFacts {
    ResponseFacts {
        disclosed: merged(facts.disclosed, document.disclosed),
        issuers: facts.issuers.push((document.certificate, document.issued_at)),
        doc_types: facts.doc_types.push(document.doc_type),
    }
}

/// What the documents from `k` on prove, on top of `facts`. The first failure decides.
pub open spec fn documents_verdict<A: TrustAnchorSource + ?Sized>(
    documents: Seq<Cbor>,
    k: int,
    records: Seq<Map<Seq<char>, Seq<RawItem>>>,
    anchors: &A,
    statuses: Seq<StatusOutcome>,
    transcript: Option<Seq<u8>>,
    role: IssuerRole,
    now: int,
    facts: ResponseFacts,
) -> Result<ResponseFacts, ReasonCode>
    decreases documents.len() - k,
{
    if k >= documents.len() {
        Ok(facts)
    } else {
        match document_verdict(
            documents[k],
            records_at(records, k),
            anchors,
            status_at(statuses, k),
            transcript,
            role,
            now,
        ) {
            Err(reason) => Err(reason),
            Ok(document) => if clash(facts.disclosed, document.disclosed) {
                Err(ReasonCode::DisclosureIntegrity)
            } else {
                documents_verdict(
                    documents,
                    k + 1,
                    records,
                    anchors,
                    statuses,
                    transcript,
                    role,
                    now,
                    with_document(facts, document),
                )
            },
        }
    }
}

/// The documents of an encoded response: one item of definite lengths throughout and nothing behind
/// it, of the known version, with status zero and at least one document.
pub open spec fn response_documents(response: Seq<u8>) -> Option<Seq<Cbor>> {
    if skip_at(response, 0, 1) != (true, response.len() as int) {
        None
    } else {
        match cbor_decoded(response) {
            Some(root) => if text_entry(root, "version"@) != Some(MDOC_SCHEMA_VERSION@)
                || integer_entry(root, "status"@) != Some(0i64) {
                None
            } else {
                match array_entry(root, "documents"@) {
                    Some(documents) => if documents.len() > 0 {
                        Some(documents)
                    } else {
                        None
                    },
                    None => None,
                }
            },
            None => None,
        }
    }
}

/// The facts before any document.
pub open spec fn no_facts() -> ResponseFacts {
    ResponseFacts { disclosed: Map::empty(), issuers: seq![], doc_types: seq![] }
}

/// What all documents of a response prove.
pub open spec fn all_documents_verdict<A: TrustAnchorSource + ?Sized>(
    response: Seq<u8>,
    documents: Seq<Cbor>,
    anchors: &A,
    params: MdocVerifyParams<'_>,
) -> Result<ResponseFacts, ReasonCode> {
    documents_verdict(
        documents,
        0,
        items_of_response(response),
        anchors,
        params.statuses@,
        seen(params.session_transcript),
        params.role,
        params.now_unix as int,
        no_facts(),
    )
}

/// The verdict on an encoded response, and what was learned on the way.
pub open spec fn mdoc_verdict<A: TrustAnchorSource + ?Sized>(
    response: Seq<u8>,
    anchors: &A,
    params: MdocVerifyParams<'_>,
) -> (Verdict, Meta) {
    match response_documents(response) {
        None => (rejected(ReasonCode::MalformedCredential), empty_meta()),
        Some(documents) => match all_documents_verdict(response, documents, anchors, params) {
            Ok(facts) => (
                accepted(grouped(facts.disclosed)),
                Meta {
                    document_count: documents.len(),
                    claimed_issuers: facts.issuers,
                    doc_types: facts.doc_types,
                    binding_machinery: None,
                },
            ),
            Err(reason) => (
                rejected(reason),
                Meta {
                    document_count: documents.len(),
                    claimed_issuers: seq![],
                    doc_types: seq![],
                    binding_machinery: if reason == ReasonCode::HolderBinding {
                        Some(machinery_of(documents))
                    } else {
                        None
                    },
                },
            ),
        },
    }
}

/// Refuse a response that is not one item of definite lengths throughout, with nothing behind it.
pub fn reject_indefinite_length_cbor(device_response: &[u8]) -> (out: Result<(), VerifyFailure>)
    ensures
        out is Ok <==> skip_at(device_response@, 0, 1) == (true, device_response@.len() as int),
        out is Ok <==> item_end(device_response@, 0) == Some(device_response@.len() as int),
        out matches Err(failure) ==> failure.reason == ReasonCode::MalformedCredential,
{
    let len: usize = device_response.len();
    proof {
        law_one_complete_item(device_response@);
    }
    let mut cursor = CborCursor::new(device_response);
    match cursor.skip_item() {
        Some(_) => if cursor.pos == len {
            Ok(())
        } else {
            Err(VerifyFailure::malformed())
        },
        None => Err(VerifyFailure::malformed()),
    }
}

/// Refuse a response whose status is not zero.
pub fn enforce_device_response_status(root: &CborValue) -> (out: Result<(), VerifyFailure>)
    ensures
        out is Ok <==> integer_entry(root@, "status"@) == Some(0i64),
        out matches Err(failure) ==> failure.reason == ReasonCode::MalformedCredential,
{
    match get_integer(root, "status") {
        Some(status) => if status == 0 {
            Ok(())
        } else {
            Err(VerifyFailure::with_reason(ReasonCode::MalformedCredential))
        },
        None => Err(VerifyFailure::malformed()),
    }
}

/// The meta of a response with documents that failed.
fn failure_meta(documents: &Vec<CborValue>, failure: VerifyFailure) -> (out: MdocVerifyMeta)
    ensures
        out@ == (Meta {
            document_count: contents(documents@).len(),
            claimed_issuers: seq![],
            doc_types: seq![],
            binding_machinery: if failure.reason == ReasonCode::HolderBinding {
                Some(machinery_of(contents(documents@)))
            } else {
                None
            },
        }),
{
    let binding_machinery = if failure.reason == ReasonCode::HolderBinding {
        Some(classify_binding_machinery(documents))
    } else {
        None
    };
    let out = MdocVerifyMeta {
        document_count: documents.len(),
        claimed_issuers: Vec::new(),
        doc_types: Vec::new(),
        binding_machinery,
    };
    assert(out@.claimed_issuers =~= seq![]);
    assert(out@.doc_types =~= seq![]);
    out
}

/// The result of checking a list of documents.
struct VerifiedResponse {
    disclosed: DisclosedByNamespace,
    claimed_issuers: Vec<(Vec<u8>, i64)>,
    doc_types: Vec<String>,
}

spec fn verified_facts(verified: VerifiedResponse) -> ResponseFacts {
    ResponseFacts {
        disclosed: disclosed_content(verified.disclosed@),
        issuers: issuers_content(verified.claimed_issuers@),
        doc_types: texts(verified.doc_types@),
    }
}

/// Check every document of a response.
fn verify_documents<A: TrustAnchorSource + ?Sized>(
    device_response: &[u8],
    documents: &Vec<CborValue>,
    anchors: &A,
    params: &MdocVerifyParams<'_>,
) -> (out: Result<VerifiedResponse, VerifyFailure>)
    ensures
        match all_documents_verdict(
            device_response@,
            contents(documents@),
            anchors,
            *params,
        ) {
            Ok(facts) => out matches Ok(verified) && verified_facts(verified) == facts,
            Err(reason) => out matches Err(failure) && failure.reason == reason,
        },
{
    let captured = scan_raw_issuer_items(device_response);
    let ghost records = items_of_response(device_response@);
    let decoded = match params.session_transcript {
        Some(bytes) => match decode_session_transcript_value(bytes) {
            Ok(value) => Some(value),
            Err(_) => None,
        },
        None => None,
    };
    let session_transcript = decoded.as_ref();
    let mut verified = VerifiedResponse {
        disclosed: TextMap::new(),
        claimed_issuers: Vec::new(),
        doc_types: Vec::new(),
    };
    let ghost all = contents(documents@);
    let ghost transcript = seen(params.session_transcript);
    proof {
        assert(disclosed_content(verified.disclosed@) =~= Map::empty());
        assert(issuers_content(verified.claimed_issuers@) =~= seq![]);
        assert(texts(verified.doc_types@) =~= seq![]);
    }
    let mut i: usize = 0;
    while i < documents.len()
        invariant
            i <= documents@.len(),
            all == contents(documents@),
            records == response_items(captured@),
            transcript == seen(params.session_transcript),
            match params.session_transcript {
                Some(bytes) => seen(session_transcript) == cbor_decoded(bytes@),
                None => session_transcript is None,
            },
            all_documents_verdict(device_response@, all, anchors, *params) == documents_verdict(
                all,
                i as int,
                records,
                anchors,
                params.statuses@,
                transcript,
                params.role,
                params.now_unix as int,
                verified_facts(verified),
            ),
        decreases documents@.len() - i,
    {
        assert(all[i as int] == documents@[i as int]@);
        let doc_records = if i < captured.len() {
            assert(records[i as int] == document_items(captured@[i as int]@));
            Some(&captured[i])
        } else {
            None
        };
        assert(records_content(doc_records) == records_at(records, i as int));
        let status = if i < params.statuses.len() {
            params.statuses[i]
        } else {
            StatusOutcome::Unavailable
        };
        let document = match verify_one_document(
            &documents[i],
            doc_records,
            anchors,
            status,
            session_transcript,
            params,
        ) {
            Ok(document) => document,
            Err(failure) => {
                return Err(failure);
            },
        };
        let ghost before = verified_facts(verified);
        match merge_disclosed(&mut verified.disclosed, &document.disclosed) {
            Ok(_) => {},
            Err(failure) => {
                return Err(failure);
            },
        }
        proof {
            assert(issuers_content(verified.claimed_issuers@.push(document.claimed_issuer))
                =~= before.issuers.push((document@.certificate, document@.issued_at)));
            assert(texts(verified.doc_types@.push(document.doc_type)) =~= before.doc_types.push(
                document@.doc_type,
            ));
        }
        verified.claimed_issuers.push(document.claimed_issuer);
        verified.doc_types.push(document.doc_type);
        assert(verified_facts(verified) == with_document(before, document@));
        i += 1;
    }
    Ok(verified)
}

/// Verify a response against the anchors and the parameters, and say what was learned on the way.
/// The response is valid only where every document passes every check.
pub fn verify_with_meta<A: TrustAnchorSource + ?Sized>(
    device_response: &[u8],
    anchors: &A,
    params: &MdocVerifyParams<'_>,
) -> (out: (VerificationResult, MdocVerifyMeta))
    ensures
        (out.0@, out.1@) == mdoc_verdict(device_response@, anchors, *params),
{
    match verify_inner(device_response, anchors, params) {
        Ok(verified) => verified,
        Err((failure, meta)) => (VerificationResult::invalid(failure.reason), meta),
    }
}

/// Verify a response; a failure keeps what was learned before it.
pub fn verify_inner<A: TrustAnchorSource + ?Sized>(
    device_response: &[u8],
    anchors: &A,
    params: &MdocVerifyParams<'_>,
) -> (out: Result<(VerificationResult, MdocVerifyMeta), (VerifyFailure, MdocVerifyMeta)>)
    ensures
        match out {
            Ok((result, meta)) => result.valid && (result@, meta@) == mdoc_verdict(
                device_response@,
                anchors,
                *params,
            ),
            Err((failure, meta)) => (rejected(failure.reason), meta@) == mdoc_verdict(
                device_response@,
                anchors,
                *params,
            ),
        },
{
    if reject_indefinite_length_cbor(device_response).is_err() {
        return Err((VerifyFailure::malformed(), MdocVerifyMeta::default()));
    }
    let root = match decode(device_response) {
        Some(root) => root,
        None => {
            return Err((VerifyFailure::malformed(), MdocVerifyMeta::default()));
        },
    };
    if !has_version(&root) {
        return Err((VerifyFailure::malformed(), MdocVerifyMeta::default()));
    }
    match enforce_device_response_status(&root) {
        Ok(_) => {},
        Err(failure) => {
            return Err((failure, MdocVerifyMeta::default()));
        },
    }
    let documents = match get_array(&root, "documents") {
        Some(documents) => documents,
        None => {
            return Err((VerifyFailure::malformed(), MdocVerifyMeta::default()));
        },
    };
    if documents.len() == 0 {
        return Err((VerifyFailure::malformed(), MdocVerifyMeta::default()));
    }
    let verified = match verify_documents(device_response, documents, anchors, params) {
        Ok(verified) => verified,
        Err(failure) => {
            let meta = failure_meta(documents, failure);
            return Err((failure, meta));
        },
    };
    let ghost facts = verified_facts(verified);
    let result = VerificationResult {
        valid: true,
        disclosed_attributes: namespace_grouped_attributes(verified.disclosed),
        trust_status: TrustStatus::Trusted,
        qualified_status: None,
        reasons: Vec::new(),
    };
    assert(result@.reasons =~= seq![]);
    assert(result@ == accepted(grouped(facts.disclosed)));
    let meta = MdocVerifyMeta {
        document_count: documents.len(),
        claimed_issuers: verified.claimed_issuers,
        doc_types: verified.doc_types,
        binding_machinery: None,
    };
    Ok((result, meta))
}

/// The issuer-side verdict on the first document of a response, its holder binding left out.
pub open spec fn first_issuer_verdict<A: TrustAnchorSource + ?Sized>(
    response: Seq<u8>,
    anchors: &A,
    params: MdocVerifyParams<'_>,
) -> Result<Map<Seq<char>, Attr>, ReasonCode> {
    let malformed = Err(ReasonCode::MalformedCredential);
    match cbor_decoded(response) {
        None => malformed,
        Some(root) => match array_entry(root, "documents"@) {
            None => malformed,
            Some(documents) => if documents.len() == 0 {
                malformed
            } else {
                match (
                    text_entry(documents[0], "docType"@),
                    map_entry(documents[0], "issuerSigned"@),
                ) {
                    (Some(doc_type), Some(issuer_signed)) => match issuer_verdict(
                        issuer_signed,
                        records_at(items_of_response(response), 0),
                        anchors,
                        doc_type,
                        status_at(params.statuses@, 0),
                        params.role,
                        params.now_unix as int,
                    ) {
                        Ok(facts) => Ok(grouped(facts.disclosed)),
                        Err(reason) => Err(reason),
                    },
                    _ => malformed,
                }
            },
        },
    }
}

/// The first document of a decoded response.
pub fn first_document<'a>(root: &'a CborValue) -> (out: Result<&'a CborValue, VerifyFailure>)
    ensures
        match array_entry(root@, "documents"@) {
            Some(documents) => if documents.len() > 0 {
                out matches Ok(document) && document@ == documents[0]
            } else {
                out matches Err(failure) && failure.reason == ReasonCode::MalformedCredential
            },
            None => out matches Err(failure) && failure.reason == ReasonCode::MalformedCredential,
        },
{
    match get_array(root, "documents") {
        Some(documents) => if documents.len() > 0 {
            assert(contents(documents@)[0] == documents@[0]@);
            Ok(&documents[0])
        } else {
            Err(VerifyFailure::malformed())
        },
        None => Err(VerifyFailure::malformed()),
    }
}

/// Check the issuer's part of the first document of a response, without its holder binding.
pub fn verify_issuer_auth_against_vector<A: TrustAnchorSource + ?Sized>(
    device_response: &[u8],
    anchors: &A,
    params: &MdocVerifyParams<'_>,
) -> (out: Result<TextMap<AttributeValue>, ReasonCode>)
    ensures
        match first_issuer_verdict(device_response@, anchors, *params) {
            Ok(attributes) => out matches Ok(map) && attr_map(map@) == attributes,
            Err(reason) => out matches Err(r) && r == reason,
        },
{
    let root = match decode(device_response) {
        Some(root) => root,
        None => {
            return Err(ReasonCode::MalformedCredential);
        },
    };
    let document = match first_document(&root) {
        Ok(document) => document,
        Err(failure) => {
            return Err(failure.reason);
        },
    };
    let doc_type = match get_text(document, "docType") {
        Some(doc_type) => doc_type,
        None => {
            return Err(ReasonCode::MalformedCredential);
        },
    };
    let issuer_signed = match get_map_entry(document, "issuerSigned") {
        Some(issuer_signed) => issuer_signed,
        None => {
            return Err(ReasonCode::MalformedCredential);
        },
    };
    let captured = scan_raw_issuer_items(device_response);
    let records = if captured.len() > 0 {
        assert(response_items(captured@)[0] == document_items(captured@[0]@));
        Some(&captured[0])
    } else {
        None
    };
    assert(records_content(records) == records_at(items_of_response(device_response@), 0));
    let status = if params.statuses.len() > 0 {
        params.statuses[0]
    } else {
        StatusOutcome::Unavailable
    };
    match verify_issuer_signed(
        issuer_signed,
        records,
        anchors,
        doc_type.as_str(),
        status,
        params,
    ) {
        Ok(verified) => Ok(namespace_grouped_attributes(verified.disclosed)),
        Err(failure) => Err(failure.reason),
    }
}

} // verus!
