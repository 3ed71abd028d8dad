//! What a request is answered.
use crate::dcql::DcqlError;
use crate::issuance::obtain::{
    begin_obtain, quoted, resume_obtain, CredentialOffer, IssuerBackend, IssuerBackendKind,
    ObtainError, ObtainSession, ObtainStep, ResumeObtain,
};
use crate::issuance::present::{HolderPresentation, PreparedPresentation, PresentError};
use crate::issuance::signer::{HolderContext, SignerError, SigningInput};
use crate::issuance::wire::{
    nonce_fits, process_issuance, IssuanceOp, IssuanceOutcome, IssuanceRequest, IssuanceResponse,
    WireObtainStep, WireResumeObtain,
};
use crate::secret::Secret;
use crate::text::{decimal, seen};
use crate::types::Format;
use vstd::prelude::*;

verus! {

/// Whether a step is reported: what the host has to do as it is, and a failure by its message.
pub open spec fn is_report(step: ObtainStep, report: WireObtainStep) -> bool {
    match step {
        ObtainStep::PerformHttp(effect) => report matches WireObtainStep::PerformHttp {
            effect: told,
        } && told@ == effect@,
        ObtainStep::Sign(input) => report matches WireObtainStep::Sign { input: told } && told@
            == input@,
        ObtainStep::Skipped => report is Skipped,
        ObtainStep::Obtained(held) => report matches WireObtainStep::Obtained { held: told }
            && told@ == held@,
        ObtainStep::Failed(_) => report is Failed,
    }
}

/// A request in another version than 1 is refused, and so is one that could not be decoded, with
/// the message that says why; every response is in the version 1.
pub proof fn law_other_versions_are_refused(
    decoded: Result<IssuanceRequest, String>,
    out: IssuanceResponse,
)
    requires
        decoded matches Ok(request) ==> nonce_fits(request.op@),
        call_ensures(process_issuance, (decoded,), out),
    ensures
        out.schema_version == 1,
        decoded matches Ok(request) ==> (request.schema_version != 1 ==> (
        out.outcome matches IssuanceOutcome::Refused { message } && message@
            == "unsupported issuance schema_version "@ + decimal(request.schema_version as nat)
            + " (this core speaks 1)"@)),
        decoded matches Err(why) ==> (out.outcome matches IssuanceOutcome::Refused { message }
            && message@ == why@),
{
}

/// A request to begin is answered with the first step of a session, and with the session itself
/// while the step asks the host for something.
pub proof fn law_beginning_is_answered(
    offer: CredentialOffer,
    backend: IssuerBackend,
    holder: HolderContext,
    now_unix: i64,
    begun: (ObtainSession, ObtainStep),
    out: IssuanceResponse,
)
    requires
        call_ensures(begin_obtain, (offer, backend, holder, now_unix), begun),
        call_ensures(
            process_issuance,
            (
                Ok(
                    IssuanceRequest {
                        schema_version: 1,
                        op: IssuanceOp::BeginObtain { offer, backend, holder, now_unix },
                    },
                ),
            ),
            out,
        ),
    ensures
        out.outcome matches IssuanceOutcome::Obtain { step, session } && {
            &&& is_report(begun.1, step)
            &&& session is Some <==> begun.1 is PerformHttp || begun.1 is Sign
            &&& session matches Some(kept) ==> kept@ == begun.0@
        },
{
}

/// Whether an input of a session is the one that stands in a request.
pub open spec fn same_input(told: WireResumeObtain, input: ResumeObtain) -> bool {
    match told {
        WireResumeObtain::Http { status, body } => input matches ResumeObtain::Http {
            status: same,
            body: bytes,
        } && same == status && bytes@ == body@,
        WireResumeObtain::Signature { signature } => input matches ResumeObtain::Signature(bytes)
            && bytes@ == signature@,
    }
}

/// A request to go on is answered with the next step of the session, and with the session itself
/// while the step asks the host for something; an input that the session refuses is refused.
pub proof fn law_going_on_is_answered(
    session: ObtainSession,
    told: WireResumeObtain,
    input: ResumeObtain,
    resumed: Result<(ObtainSession, ObtainStep), ObtainError>,
    out: IssuanceResponse,
)
    requires
        same_input(told, input),
        call_ensures(resume_obtain, (session, input), resumed),
        call_ensures(
            process_issuance,
            (
                Ok(
                    IssuanceRequest {
                        schema_version: 1,
                        op: IssuanceOp::ResumeObtain { session, input: told },
                    },
                ),
            ),
            out,
        ),
    ensures
        resumed matches Ok(next) ==> (out.outcome matches IssuanceOutcome::Obtain {
            step,
            session: kept,
        } && {
            &&& is_report(next.1, step)
            &&& kept is Some <==> next.1 is PerformHttp || next.1 is Sign
            &&& kept matches Some(same) ==> same@ == next.0@
        }),
        resumed is Err ==> out.outcome is Refused,
{
    assert(told@ == input@);
}

/// A request to finish is answered with the presentation that the signature completes.
pub proof fn law_finishing_is_answered(
    prepared: PreparedPresentation,
    signature: Vec<u8>,
    slice: &[u8],
    finished: Result<HolderPresentation, PresentError>,
    out: IssuanceResponse,
)
    requires
        slice@ == signature@,
        call_ensures(PreparedPresentation::finish, (&prepared, slice), finished),
        call_ensures(
            process_issuance,
            (
                Ok(
                    IssuanceRequest {
                        schema_version: 1,
                        op: IssuanceOp::FinishPresent { prepared, signature },
                    },
                ),
            ),
            out,
        ),
    ensures
        finished matches Ok(presentation) ==> (out.outcome matches IssuanceOutcome::Present {
            presentation: told,
        } && told@ == presentation@),
        finished is Err ==> out.outcome is Refused,
{
}

/// A request to prepare a presentation is answered with the input to sign, which is that of the
/// prepared presentation, or refused.
pub proof fn law_preparing_is_answered(
    op: IssuanceOp,
    out: IssuanceResponse,
    input: &SigningInput,
)
    requires
        op is BeginPresent,
        nonce_fits(op@),
        call_ensures(process_issuance, (Ok(IssuanceRequest { schema_version: 1, op }),), out),
        out.outcome matches IssuanceOutcome::PreparePresent { prepared, .. } ==> call_ensures(
            PreparedPresentation::signing_input,
            (&prepared,),
            input,
        ),
    ensures
        out.outcome is PreparePresent || out.outcome is Refused,
        out.outcome matches IssuanceOutcome::PreparePresent { input: told, .. } ==> told@
            == input@,
{
}

/// The message of a failed request names the request and ends with what went wrong.
pub proof fn law_messages_of_failed_requests(error: &ObtainError, out: String)
    requires
        call_ensures(ObtainError::message, (error,), out),
    ensures
        error is UnexpectedInput ==> out@ == "unexpected resume input for the current obtain phase"@,
        error is AlreadyTerminal ==> out@ == "obtain session is already terminal"@,
        error matches ObtainError::TokenRequest(detail) ==> out@ == "token request failed: "@
            + detail@,
        error matches ObtainError::NonceRequest(detail) ==> out@ == "nonce request failed: "@
            + detail@,
        error matches ObtainError::CredentialRequest(detail) ==> out@
            == "credential request failed: "@ + detail@,
        error matches ObtainError::Proof(detail) ==> out@
            == "failed to build the proof-of-possession JWT: "@ + detail@,
        error matches ObtainError::Deferred(transaction) ==> out@
            == "issuer deferred credential issuance (transaction_id "@
            + crate::issuance::obtain::quoted(transaction@)
            + "); the deferred endpoint is not supported"@,
{
}

/// The message of a failed presentation says what could not be done and with what.
pub proof fn law_messages_of_failed_presentations(error: &PresentError, out: String)
    requires
        call_ensures(PresentError::message, (error,), out),
    ensures
        error matches PresentError::Malformed(detail) ==> out@
            == "the held credential is malformed: "@ + detail@,
        error matches PresentError::UndisclosableClaim(name) ==> out@ == "requested disclosure '"@
            + name@ + "' is not a disclosable claim of the held credential"@,
        error matches PresentError::Signer(detail) ==> out@ == "the holder signer-hook failed: "@
            + detail@,
        error matches PresentError::Build(detail) ==> out@ == "failed to build the presentation: "@
            + detail@,
        error matches PresentError::MultiDocumentMdoc(count) ==> out@ == "the held mdoc carries "@
            + decimal(*count as nat)
            + " documents; the holder present seam binds a single document (present each credential separately)"@,
{
}

/// The message of a failed signature says how long it was, or what could not be serialized.
pub proof fn law_messages_of_failed_signatures(error: &SignerError, out: String)
    requires
        call_ensures(SignerError::message, (error,), out),
    ensures
        error matches SignerError::BadSignatureLength(_, length) ==> out@
            == "unexpected signature length for Es256: got "@ + decimal(*length as nat)
            + " bytes"@,
        error matches SignerError::Serialize(detail) ==> out@
            == "failed to serialize a signing input: "@ + detail@,
{
}

/// The message of a query that cannot be read says why.
pub proof fn law_messages_of_unreadable_queries(error: &DcqlError, out: &str)
    requires
        call_ensures(DcqlError::message, (error,), out),
    ensures
        *error == DcqlError::Json ==> out@ == "DCQL query is not valid JSON"@,
        *error == DcqlError::NotAnObject ==> out@ == "DCQL query is not a JSON object"@,
        *error == DcqlError::DuplicateCredentialId ==> out@
            == "DCQL query has duplicate credential ids"@,
{
}

/// What is shown of an issuer is its kind and its endpoints, each under its own name.
pub proof fn law_shown_issuers(backend: &IssuerBackend, out: String)
    requires
        call_ensures(IssuerBackend::debug_text, (backend,), out),
    ensures
        out@ == "IssuerBackend { kind: "@ + (if backend.kind == IssuerBackendKind::NoIssuer {
            "None"@
        } else if backend.kind == IssuerBackendKind::Reference {
            "Reference"@
        } else {
            "Cleverbase"@
        }) + ", token_endpoint: "@ + quoted(backend.token_endpoint@) + ", nonce_endpoint: "@
            + quoted(backend.nonce_endpoint@) + ", credential_endpoint: "@ + quoted(
            backend.credential_endpoint@,
        ) + ", credential_issuer: "@ + quoted(backend.credential_issuer@) + " }"@,
{
}

/// What is shown of an offer is its configuration and its format, and markers in place of its
/// codes.
pub proof fn law_shown_offers(offer: &CredentialOffer, out: String)
    requires
        call_ensures(CredentialOffer::debug_text, (offer,), out),
    ensures
        out@ == "CredentialOffer { pre_authorized_code: "@ + "Secret(***)"@
            + ", credential_configuration_id: "@ + quoted(offer.credential_configuration_id@)
            + ", format: "@ + (if offer.format == Format::Mdoc {
            "Mdoc"@
        } else {
            "SdJwtVc"@
        }) + ", tx_code: "@ + (if offer.tx_code is Some {
            "Some(Secret(***))"@
        } else {
            "None"@
        }) + " }"@,
{
}

/// Two sessions that differ in their secrets alone are shown in the same words.
pub proof fn law_shown_sessions_hold_no_secret(
    one: &ObtainSession,
    other: &ObtainSession,
    first: String,
    second: String,
)
    requires
        call_ensures(ObtainSession::debug_text, (one,), first),
        call_ensures(ObtainSession::debug_text, (other,), second),
        one.phase == other.phase,
        one.backend@ == other.backend@,
        one.holder.holder_public_jwk@ == other.holder.holder_public_jwk@,
        one.holder.key_handle@ == other.holder.key_handle@,
        one.offer.credential_configuration_id@ == other.offer.credential_configuration_id@,
        one.offer.format == other.offer.format,
        one.offer.tx_code is Some <==> other.offer.tx_code is Some,
        one.now_unix == other.now_unix,
        one.access_token is Some <==> other.access_token is Some,
        one.pending_c_nonce is Some <==> other.pending_c_nonce is Some,
        seen(one.proof_jwt) == seen(other.proof_jwt),
    ensures
        first@ == second@,
{
}

/// A secret is shown as a marker, whatever it is, and handed out as it was kept.
pub proof fn law_secrets_are_kept(
    value: String,
    secret: Secret,
    shown: String,
    exposed: &str,
)
    requires
        call_ensures(Secret::new, (value,), secret),
        call_ensures(Secret::debug_text, (&secret,), shown),
        call_ensures(Secret::expose, (&secret,), exposed),
    ensures
        shown@ == "Secret(***)"@,
        exposed@ == value@,
{
}

} // verus!
