//! The issuance operations as one request and one response, for hosts that carry the sessions
//! themselves.
use crate::issuance::obtain::{
    begin_obtain, begun, ends, obtain_message, resume_obtain, resumed, Backend, CredentialOffer,
    Effect, HttpEffect, IssuerBackend, ObtainSession, ObtainStep, Offer, Resume, ResumeObtain,
    Session, Step,
};
use crate::issuance::present::{
    bound_to_request, completed, finished_reads_back, input_to_sign, prepared_reads_back,
    prepare_outcome, prepare_present, prepared_content, present_message, Held, HeldAttestation,
    HolderPresentation, Prepared, PreparedPresentation, PresentFault, Presentation,
};
use crate::issuance::signer::{HolderContext, InputContent, SigningInput};
use crate::json::Json;
use crate::openid4vp::PresentationRequest;
use crate::text::{decimal, decimal_text, joined3, texts};
use vstd::prelude::*;

verus! {

/// The version of the request and the response.
pub const ISSUANCE_SCHEMA_VERSION: u32 = 1;

/// An issuance operation.
pub enum IssuanceOp {
    /// Begin to obtain a credential.
    BeginObtain {
        offer: CredentialOffer,
        backend: IssuerBackend,
        holder: HolderContext,
        now_unix: i64,
    },
    /// Go on with the result of what the host was asked to do.
    ResumeObtain { session: ObtainSession, input: WireResumeObtain },
    /// Prepare a presentation, up to the holder's signature.
    BeginPresent {
        held: HeldAttestation,
        request: PresentationRequest,
        disclose: Vec<String>,
        iat: i64,
    },
    /// Splice the holder's signature into a prepared presentation.
    FinishPresent { prepared: PreparedPresentation, signature: Vec<u8> },
}

/// The mathematical content of an [`IssuanceOp`].
pub enum Op {
    BeginObtain {
        offer: Offer,
        backend: Backend,
        holder_jwk: Json,
        key_handle: Seq<char>,
        now_unix: i64,
    },
    ResumeObtain { session: Session, input: Resume },
    BeginPresent {
        held: Held,
        dcql: Seq<char>,
        audience: Seq<char>,
        nonce: Seq<u8>,
        response_uri: Seq<char>,
        disclose: Seq<Seq<char>>,
        iat: i64,
    },
    FinishPresent { prepared: Prepared, signature: Seq<u8> },
}

impl View for IssuanceOp {
    type V = Op;

    open spec fn view(&self) -> Op {
        match self {
            IssuanceOp::BeginObtain { offer, backend, holder, now_unix } => Op::BeginObtain {
                offer: offer@,
                backend: backend@,
                holder_jwk: holder.holder_public_jwk@,
                key_handle: holder.key_handle@,
                now_unix: *now_unix,
            },
            IssuanceOp::ResumeObtain { session, input } => Op::ResumeObtain {
                session: session@,
                input: input@,
            },
            IssuanceOp::BeginPresent { held, request, disclose, iat } => Op::BeginPresent {
                held: held@,
                dcql: request.dcql.json@,
                audience: request.audience@,
                nonce: request.nonce@,
                response_uri: request.response_uri@,
                disclose: texts(disclose@),
                iat: *iat,
            },
            IssuanceOp::FinishPresent { prepared, signature } => Op::FinishPresent {
                prepared: prepared@,
                signature: signature@,
            },
        }
    }
}

/// The result of what the host was asked to do.
#[derive(Debug, Clone, PartialEq, Eq)]
pub enum WireResumeObtain {
    /// The response to an HTTP request.
    Http { status: u16, body: Vec<u8> },
    /// The signature over an input.
    Signature { signature: Vec<u8> },
}

impl View for WireResumeObtain {
    type V = Resume;

    open spec fn view(&self) -> Resume {
        match self {
            WireResumeObtain::Http { status, body } => Resume::Http {
                status: *status,
                body: body@,
            },
            WireResumeObtain::Signature { signature } => Resume::Signature(signature@),
        }
    }
}

/// What the host has to do next, or how the session ended.
#[derive(Debug, Clone, PartialEq, Eq)]
pub enum WireObtainStep {
    /// Perform an HTTP request.
    PerformHttp { effect: HttpEffect },
    /// Have the holder's key sign an input.
    Sign { input: SigningInput },
    /// No issuer is configured.
    Skipped,
    /// The credential.
    Obtained { held: HeldAttestation },
    /// The session failed.
    Failed { message: String },
}

/// The mathematical content of a [`WireObtainStep`].
pub enum WireStep {
    PerformHttp { effect: Effect },
    Sign { input: InputContent },
    Skipped,
    Obtained { held: Held },
    Failed { message: Seq<char> },
}

impl View for WireObtainStep {
    type V = WireStep;

    open spec fn view(&self) -> WireStep {
        match self {
            WireObtainStep::PerformHttp { effect } => WireStep::PerformHttp { effect: effect@ },
            WireObtainStep::Sign { input } => WireStep::Sign { input: input@ },
            WireObtainStep::Skipped => WireStep::Skipped,
            WireObtainStep::Obtained { held } => WireStep::Obtained { held: held@ },
            WireObtainStep::Failed { message } => WireStep::Failed { message: message@ },
        }
    }
}

/// A step as it is reported: a failure by its message.
pub open spec fn reported(step: Step) -> WireStep {
    match step {
        Step::PerformHttp(effect) => WireStep::PerformHttp { effect },
        Step::Sign(input) => WireStep::Sign { input },
        Step::Skipped => WireStep::Skipped,
        Step::Obtained(held) => WireStep::Obtained { held },
        Step::Failed(fault) => WireStep::Failed { message: obtain_message(fault) },
    }
}

impl WireObtainStep {
    /// Report a step.
    pub fn from_step(step: ObtainStep) -> (out: WireObtainStep)
        ensures
            out@ == reported(step@),
    {
        match step {
            ObtainStep::PerformHttp(effect) => WireObtainStep::PerformHttp { effect },
            ObtainStep::Sign(input) => WireObtainStep::Sign { input },
            ObtainStep::Skipped => WireObtainStep::Skipped,
            ObtainStep::Obtained(held) => WireObtainStep::Obtained { held },
            ObtainStep::Failed(error) => WireObtainStep::Failed { message: error.message() },
        }
    }
}

/// The outcome of an operation.
pub enum IssuanceOutcome {
    /// The next step, and the session to go on with, unless it has ended.
    Obtain { step: WireObtainStep, session: Option<ObtainSession> },
    /// The input to sign, and the presentation that the signature completes.
    PreparePresent { input: SigningInput, prepared: PreparedPresentation },
    /// The presentation.
    Present { presentation: HolderPresentation },
    /// The operation was refused.
    Refused { message: String },
}

/// The mathematical content of an [`IssuanceOutcome`].
pub enum Outcome {
    Obtain { step: WireStep, session: Option<Session> },
    PreparePresent { input: InputContent, prepared: Prepared },
    Present { presentation: Presentation },
    Refused { message: Seq<char> },
}

impl View for IssuanceOutcome {
    type V = Outcome;

    open spec fn view(&self) -> Outcome {
        match self {
            IssuanceOutcome::Obtain { step, session } => Outcome::Obtain {
                step: step@,
                session: match session {
                    Some(session) => Some(session@),
                    None => None,
                },
            },
            IssuanceOutcome::PreparePresent { input, prepared } => Outcome::PreparePresent {
                input: input@,
                prepared: prepared@,
            },
            IssuanceOutcome::Present { presentation } => Outcome::Present {
                presentation: presentation@,
            },
            IssuanceOutcome::Refused { message } => Outcome::Refused { message: message@ },
        }
    }
}

/// A request.
pub struct IssuanceRequest {
    /// The version that the request is written in.
    pub schema_version: u32,
    /// The operation.
    pub op: IssuanceOp,
}

/// A response.
pub struct IssuanceResponse {
    /// The version that the response is written in.
    pub schema_version: u32,
    /// The outcome.
    pub outcome: IssuanceOutcome,
}

/// The outcome of a step. A session that has ended is not handed out.
pub open spec fn step_outcome(session: Session, step: Step) -> Outcome {
    Outcome::Obtain {
        step: reported(step),
        session: if ends(step) {
            None
        } else {
            Some(session)
        },
    }
}

/// Make the outcome of a step.
pub fn obtain_outcome(session: ObtainSession, step: ObtainStep) -> (out: IssuanceOutcome)
    ensures
        out@ == step_outcome(session@, step@),
{
    let terminal = step.is_terminal();
    let step = WireObtainStep::from_step(step);
    IssuanceOutcome::Obtain {
        step,
        session: if terminal {
            None
        } else {
            Some(session)
        },
    }
}

/// Turn the result of what the host was asked to do into the input of a session.
pub fn resume_from_wire(input: WireResumeObtain) -> (out: ResumeObtain)
    ensures
        out@ == input@,
{
    match input {
        WireResumeObtain::Http { status, body } => ResumeObtain::Http { status, body },
        WireResumeObtain::Signature { signature } => ResumeObtain::Signature(signature),
    }
}

/// Whether `out` is an outcome of preparing a presentation.
pub open spec fn begin_present_outcome(
    held: Held,
    audience: Seq<char>,
    nonce: Seq<u8>,
    response_uri: Seq<char>,
    disclose: Seq<Seq<char>>,
    iat: i64,
    out: Outcome,
) -> bool {
    exists|result: Result<Prepared, PresentFault>|
        {
            &&& #[trigger] prepare_outcome(
                held,
                audience,
                nonce,
                response_uri,
                disclose,
                iat,
                result,
            )
            &&& match result {
                Ok(prepared) => prepared_reads_back(held, disclose, prepared) && bound_to_request(
                    held,
                    audience,
                    nonce,
                    iat,
                    prepared,
                ) && out == (
                Outcome::PreparePresent { input: input_to_sign(prepared), prepared }),
                Err(fault) => out == (Outcome::Refused { message: present_message(fault) }),
            }
        }
}

/// Prepare a presentation, up to the holder's signature.
pub fn begin_present(
    held: &HeldAttestation,
    request: &PresentationRequest,
    disclose: &Vec<String>,
    iat: i64,
) -> (out: IssuanceOutcome)
    requires
        4 * request.nonce@.len() <= usize::MAX,
    ensures
        begin_present_outcome(
            held@,
            request.audience@,
            request.nonce@,
            request.response_uri@,
            texts(disclose@),
            iat,
            out@,
        ),
{
    let result = prepare_present(held, request, disclose, iat);
    let ghost content = prepared_content(result);
    assert(prepare_outcome(
        held@,
        request.audience@,
        request.nonce@,
        request.response_uri@,
        texts(disclose@),
        iat,
        content,
    ));
    match result {
        Ok(prepared) => {
            let input = prepared.signing_input().copy();
            IssuanceOutcome::PreparePresent { input, prepared }
        },
        Err(error) => IssuanceOutcome::Refused { message: error.message() },
    }
}

/// Whether `out` is an outcome of an operation.
pub open spec fn dispatched(op: Op, out: Outcome) -> bool {
    match op {
        Op::BeginObtain { offer, backend, holder_jwk, key_handle, now_unix } => {
            let (session, step) = begun(offer, backend, holder_jwk, key_handle, now_unix);
            out == step_outcome(session, step)
        },
        Op::ResumeObtain { session, input } => match resumed(session, input) {
            Ok((next, step)) => out == step_outcome(next, step),
            Err(fault) => out == (Outcome::Refused { message: obtain_message(fault) }),
        },
        Op::BeginPresent { held, audience, nonce, response_uri, disclose, iat, .. } =>
            begin_present_outcome(held, audience, nonce, response_uri, disclose, iat, out),
        Op::FinishPresent { prepared, signature } => match completed(prepared, signature) {
            Ok(presentation) => finished_reads_back(
                prepared,
                signature,
                Ok::<Presentation, PresentFault>(presentation),
            ) && out == (Outcome::Present { presentation }),
            Err(fault) => out == (Outcome::Refused { message: present_message(fault) }),
        },
    }
}

/// Whether the nonce of an operation, where it has one, can be written as text.
pub open spec fn nonce_fits(op: Op) -> bool {
    op matches Op::BeginPresent { nonce, .. } ==> 4 * nonce.len() <= usize::MAX
}

/// Run an operation.
pub fn dispatch(op: IssuanceOp) -> (out: IssuanceOutcome)
    requires
        nonce_fits(op@),
    ensures
        dispatched(op@, out@),
{
    match op {
        IssuanceOp::BeginObtain { offer, backend, holder, now_unix } => {
            let (session, step) = begin_obtain(offer, backend, holder, now_unix);
            obtain_outcome(session, step)
        },
        IssuanceOp::ResumeObtain { session, input } => match resume_obtain(
            session,
            resume_from_wire(input),
        ) {
            Ok((next, step)) => obtain_outcome(next, step),
            Err(error) => IssuanceOutcome::Refused { message: error.message() },
        },
        IssuanceOp::BeginPresent { held, request, disclose, iat } => begin_present(
            &held,
            &request,
            &disclose,
            iat,
        ),
        IssuanceOp::FinishPresent { prepared, signature } => match prepared.finish(
            signature.as_slice(),
        ) {
            Ok(presentation) => IssuanceOutcome::Present { presentation },
            Err(error) => IssuanceOutcome::Refused { message: error.message() },
        },
    }
}

/// How a request in another version is refused.
pub open spec fn unsupported_version(version: u32) -> Seq<char> {
    "unsupported issuance schema_version "@ + decimal(version as nat) + " (this core speaks 1)"@
}

/// Refuse a request in another version.
pub fn check_schema_version(version: u32) -> (out: Result<(), String>)
    ensures
        version == ISSUANCE_SCHEMA_VERSION ==> out is Ok,
        version != ISSUANCE_SCHEMA_VERSION ==> (out matches Err(message) && message@
            == unsupported_version(version)),
{
    if version != ISSUANCE_SCHEMA_VERSION {
        Err(
            joined3(
                "unsupported issuance schema_version ",
                decimal_text(version as u64).as_str(),
                " (this core speaks 1)",
            ),
        )
    } else {
        Ok(())
    }
}

/// Answer a request that the host has decoded, or could not decode. A request in another version is
/// refused before anything of it is done.
pub fn process_issuance(decoded: Result<IssuanceRequest, String>) -> (out: IssuanceResponse)
    requires
        decoded matches Ok(request) ==> nonce_fits(request.op@),
    ensures
        out.schema_version == ISSUANCE_SCHEMA_VERSION,
        match decoded {
            Ok(request) => if request.schema_version == ISSUANCE_SCHEMA_VERSION {
                dispatched(request.op@, out.outcome@)
            } else {
                out.outcome@ == (Outcome::Refused {
                    message: unsupported_version(request.schema_version),
                })
            },
            Err(message) => out.outcome@ == (Outcome::Refused { message: message@ }),
        },
{
    let outcome = match decoded {
        Ok(request) => match check_schema_version(request.schema_version) {
            Ok(_) => dispatch(request.op),
            Err(message) => IssuanceOutcome::Refused { message },
        },
        Err(message) => IssuanceOutcome::Refused { message },
    };
    IssuanceResponse { schema_version: ISSUANCE_SCHEMA_VERSION, outcome }
}

/// A session is handed out exactly while its step asks the host for something, so an ended one can
/// never be resumed by accident.
pub proof fn law_session_handed_out_until_it_ends(session: Session, step: Step)
    ensures
        step_outcome(session, step) matches Outcome::Obtain { session: handed, .. } ==> (handed
            is None <==> ends(step)) && (handed matches Some(same) ==> same == session),
{
}

/// Beginning to obtain a credential is never refused: it always gives a step.
pub proof fn law_beginning_is_never_refused(op: Op, out: Outcome)
    requires
        op is BeginObtain,
        dispatched(op, out),
    ensures
        out is Obtain,
{
}

} // verus!
