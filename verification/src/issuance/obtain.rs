//! Obtaining a credential from an issuer, as a state machine that performs no I/O: each step says
//! what the host has to do next, and the result of that is fed back.
use crate::crypto::{base64url_decode, base64url_read, base64url_text};
use crate::issuance::present::{Held, HeldAttestation};
use crate::issuance::signer::{
    assembled_jws, build_pop_jwt, is_proof_of_possession, pop_input, signer_message, HolderContext,
    InputContent, SigningInput,
};
use crate::json::{
    debug_text, json_shown, array_member, contents, get_array, get_text, json_encoded, json_read,
    lemma_array_content, lemma_object_content, member, no_members, parse, put_member, put_text,
    read_back, simple_value, text_member, to_bytes, Json, JsonValue,
};
use crate::secret::{optional_debug_text, optional_redaction, redaction, Secret};
use crate::text::{
    decimal, decimal_text, joined, joined3, seen, signed_decimal, signed_decimal_text, text_bytes,
};
use crate::types::Format;
use vstd::prelude::*;
use vstd::utf8::{decode_utf8, encode_utf8, valid_utf8};

verus! {

/// The method of an HTTP request.
#[derive(Debug, Clone, Copy, PartialEq, Eq, Structural)]
pub enum HttpMethod {
    Get,
    Post,
}

/// An HTTP request that the host has to perform.
#[derive(Debug, Clone, PartialEq, Eq)]
pub struct HttpEffect {
    /// The method.
    pub method: HttpMethod,
    /// The URL.
    pub url: String,
    /// The header fields, in order.
    pub headers: Vec<(String, String)>,
    /// The body.
    pub body: Vec<u8>,
}

/// The mathematical content of an [`HttpEffect`].
pub struct Effect {
    pub method: HttpMethod,
    pub url: Seq<char>,
    pub headers: Seq<(Seq<char>, Seq<char>)>,
    pub body: Seq<u8>,
}

/// The contents of header fields.
pub open spec fn header_contents(headers: Seq<(String, String)>) -> Seq<(Seq<char>, Seq<char>)> {
    headers.map_values(|field: (String, String)| (field.0@, field.1@))
}

impl View for HttpEffect {
    type V = Effect;

    open spec fn view(&self) -> Effect {
        Effect {
            method: self.method,
            url: self.url@,
            headers: header_contents(self.headers@),
            body: self.body@,
        }
    }
}

/// The issuer that credentials come from.
#[derive(Debug, Clone, Copy, PartialEq, Eq, Structural)]
pub enum IssuerBackendKind {
    /// No issuer is configured.
    NoIssuer,
    /// The reference issuer.
    Reference,
    /// The production issuer.
    Cleverbase,
}

impl Default for IssuerBackendKind {
    fn default() -> (out: IssuerBackendKind)
        ensures
            out == IssuerBackendKind::NoIssuer,
    {
        IssuerBackendKind::NoIssuer
    }
}

/// A text in double quotes, with the escapes that `Debug` writes.
pub uninterp spec fn quoted(text: Seq<char>) -> Seq<char>;

/// `format!` of a text with `{:?}`.
#[verifier::external_body]
fn quote(text: &str) -> (out: String)
    ensures
        out@ == quoted(text@),
{
    format!("{text:?}")
}

/// The issuer and its endpoints.
#[derive(Debug, Clone, PartialEq, Eq)]
pub struct IssuerBackend {
    /// Which issuer it is.
    pub kind: IssuerBackendKind,
    /// Where access tokens come from.
    pub token_endpoint: String,
    /// Where nonces come from.
    pub nonce_endpoint: String,
    /// Where credentials come from.
    pub credential_endpoint: String,
    /// The identifier of the issuer, which a proof of possession is addressed to.
    pub credential_issuer: String,
}

/// The mathematical content of an [`IssuerBackend`].
pub struct Backend {
    pub kind: IssuerBackendKind,
    pub token_endpoint: Seq<char>,
    pub nonce_endpoint: Seq<char>,
    pub credential_endpoint: Seq<char>,
    pub credential_issuer: Seq<char>,
}

impl View for IssuerBackend {
    type V = Backend;

    open spec fn view(&self) -> Backend {
        Backend {
            kind: self.kind,
            token_endpoint: self.token_endpoint@,
            nonce_endpoint: self.nonce_endpoint@,
            credential_endpoint: self.credential_endpoint@,
            credential_issuer: self.credential_issuer@,
        }
    }
}

impl IssuerBackend {
    /// No issuer.
    pub fn none() -> (out: IssuerBackend)
        ensures
            out@ == (Backend {
                kind: IssuerBackendKind::NoIssuer,
                token_endpoint: Seq::empty(),
                nonce_endpoint: Seq::empty(),
                credential_endpoint: Seq::empty(),
                credential_issuer: Seq::empty(),
            }),
    {
        let out = IssuerBackend {
            kind: IssuerBackendKind::NoIssuer,
            token_endpoint: String::new(),
            nonce_endpoint: String::new(),
            credential_endpoint: String::new(),
            credential_issuer: String::new(),
        };
        assert(out@.token_endpoint =~= Seq::<char>::empty());
        assert(out@.nonce_endpoint =~= Seq::<char>::empty());
        assert(out@.credential_endpoint =~= Seq::<char>::empty());
        assert(out@.credential_issuer =~= Seq::<char>::empty());
        out
    }
}

/// What is shown of an issuer and its endpoints.
pub open spec fn shown_backend(backend: Backend) -> Seq<char> {
    "IssuerBackend { kind: "@ + (match backend.kind {
        IssuerBackendKind::NoIssuer => "None"@,
        IssuerBackendKind::Reference => "Reference"@,
        IssuerBackendKind::Cleverbase => "Cleverbase"@,
    }) + ", token_endpoint: "@ + quoted(backend.token_endpoint) + ", nonce_endpoint: "@ + quoted(
        backend.nonce_endpoint,
    ) + ", credential_endpoint: "@ + quoted(backend.credential_endpoint) + ", credential_issuer: "@
        + quoted(backend.credential_issuer) + " }"@
}

impl IssuerBackend {
    /// What is shown of the issuer and its endpoints.
    pub fn debug_text(&self) -> (out: String)
        ensures
            out@ == shown_backend(self@),
    {
        let mut out = joined("IssuerBackend { kind: ", match self.kind {
            IssuerBackendKind::NoIssuer => "None",
            IssuerBackendKind::Reference => "Reference",
            IssuerBackendKind::Cleverbase => "Cleverbase",
        });
        out.append(", token_endpoint: ");
        out.append(quote(self.token_endpoint.as_str()).as_str());
        out.append(", nonce_endpoint: ");
        out.append(quote(self.nonce_endpoint.as_str()).as_str());
        out.append(", credential_endpoint: ");
        out.append(quote(self.credential_endpoint.as_str()).as_str());
        out.append(", credential_issuer: ");
        out.append(quote(self.credential_issuer.as_str()).as_str());
        out.append(" }");
        out
    }
}

/// An offer of a credential under a pre-authorized code.
#[derive(Clone, PartialEq, Eq)]
pub struct CredentialOffer {
    /// The code that is exchanged for an access token.
    pub pre_authorized_code: Secret,
    /// Which credential is offered.
    pub credential_configuration_id: String,
    /// The format of the credential.
    pub format: Format,
    /// The code that the user was told apart, where the offer asks for one.
    pub tx_code: Option<Secret>,
}

/// The mathematical content of a [`CredentialOffer`].
pub struct Offer {
    pub pre_authorized_code: Seq<char>,
    pub credential_configuration_id: Seq<char>,
    pub format: Format,
    pub tx_code: Option<Seq<char>>,
}

impl View for CredentialOffer {
    type V = Offer;

    open spec fn view(&self) -> Offer {
        Offer {
            pre_authorized_code: self.pre_authorized_code@,
            credential_configuration_id: self.credential_configuration_id@,
            format: self.format,
            tx_code: seen(self.tx_code),
        }
    }
}

/// What is shown of an offer: its secrets are replaced by markers.
pub open spec fn shown_offer(offer: Offer) -> Seq<char> {
    "CredentialOffer { pre_authorized_code: "@ + redaction() + ", credential_configuration_id: "@
        + quoted(offer.credential_configuration_id) + ", format: "@ + (match offer.format {
        Format::SdJwtVc => "SdJwtVc"@,
        Format::Mdoc => "Mdoc"@,
    }) + ", tx_code: "@ + optional_redaction(offer.tx_code is Some) + " }"@
}

impl CredentialOffer {
    /// What is shown of the offer. Its secrets are replaced by markers.
    pub fn debug_text(&self) -> (out: String)
        ensures
            out@ == shown_offer(self@),
    {
        let mut out = joined(
            "CredentialOffer { pre_authorized_code: ",
            self.pre_authorized_code.debug_text().as_str(),
        );
        out.append(", credential_configuration_id: ");
        out.append(quote(self.credential_configuration_id.as_str()).as_str());
        out.append(", format: ");
        out.append(match self.format {
            Format::SdJwtVc => "SdJwtVc",
            Format::Mdoc => "Mdoc",
        });
        out.append(", tx_code: ");
        out.append(optional_debug_text(&self.tx_code).as_str());
        out.append(" }");
        out
    }
}

/// Why a credential was not obtained.
#[derive(Debug, Clone, PartialEq, Eq)]
pub enum ObtainError {
    /// The input is not the one that the phase waits for.
    UnexpectedInput,
    /// The session has ended.
    AlreadyTerminal,
    /// The token request failed.
    TokenRequest(String),
    /// The nonce request failed.
    NonceRequest(String),
    /// The credential request failed.
    CredentialRequest(String),
    /// The issuer defers the credential under this transaction.
    Deferred(String),
    /// The proof of possession could not be built.
    Proof(String),
}

/// The mathematical content of an [`ObtainError`].
pub enum ObtainFault {
    UnexpectedInput,
    AlreadyTerminal,
    TokenRequest(Seq<char>),
    NonceRequest(Seq<char>),
    CredentialRequest(Seq<char>),
    Deferred(Seq<char>),
    Proof(Seq<char>),
}

impl View for ObtainError {
    type V = ObtainFault;

    open spec fn view(&self) -> ObtainFault {
        match self {
            ObtainError::UnexpectedInput => ObtainFault::UnexpectedInput,
            ObtainError::AlreadyTerminal => ObtainFault::AlreadyTerminal,
            ObtainError::TokenRequest(detail) => ObtainFault::TokenRequest(detail@),
            ObtainError::NonceRequest(detail) => ObtainFault::NonceRequest(detail@),
            ObtainError::CredentialRequest(detail) => ObtainFault::CredentialRequest(detail@),
            ObtainError::Deferred(transaction) => ObtainFault::Deferred(transaction@),
            ObtainError::Proof(detail) => ObtainFault::Proof(detail@),
        }
    }
}

/// The message of a fault.
pub open spec fn obtain_message(fault: ObtainFault) -> Seq<char> {
    match fault {
        ObtainFault::UnexpectedInput => "unexpected resume input for the current obtain phase"@,
        ObtainFault::AlreadyTerminal => "obtain session is already terminal"@,
        ObtainFault::TokenRequest(detail) => "token request failed: "@ + detail,
        ObtainFault::NonceRequest(detail) => "nonce request failed: "@ + detail,
        ObtainFault::CredentialRequest(detail) => "credential request failed: "@ + detail,
        ObtainFault::Deferred(transaction) =>
            "issuer deferred credential issuance (transaction_id "@ + quoted(transaction)
                + "); the deferred endpoint is not supported"@,
        ObtainFault::Proof(detail) => "failed to build the proof-of-possession JWT: "@ + detail,
    }
}

impl ObtainError {
    /// The message of the error.
    pub fn message(&self) -> (out: String)
        ensures
            out@ == obtain_message(self@),
    {
        match self {
            ObtainError::UnexpectedInput =>
                "unexpected resume input for the current obtain phase".to_owned(),
            ObtainError::AlreadyTerminal => "obtain session is already terminal".to_owned(),
            ObtainError::TokenRequest(detail) => joined("token request failed: ", detail.as_str()),
            ObtainError::NonceRequest(detail) => joined("nonce request failed: ", detail.as_str()),
            ObtainError::CredentialRequest(detail) => joined(
                "credential request failed: ",
                detail.as_str(),
            ),
            ObtainError::Deferred(transaction) => joined3(
                "issuer deferred credential issuance (transaction_id ",
                quote(transaction.as_str()).as_str(),
                "); the deferred endpoint is not supported",
            ),
            ObtainError::Proof(detail) => joined(
                "failed to build the proof-of-possession JWT: ",
                detail.as_str(),
            ),
        }
    }
}

/// What the host has to do next, or how the session ended.
#[derive(Debug, Clone, PartialEq, Eq)]
pub enum ObtainStep {
    /// Perform an HTTP request.
    PerformHttp(HttpEffect),
    /// Have the holder's key sign an input.
    Sign(SigningInput),
    /// No issuer is configured.
    Skipped,
    /// The credential.
    Obtained(HeldAttestation),
    /// The session failed.
    Failed(ObtainError),
}

/// The mathematical content of an [`ObtainStep`].
pub enum Step {
    PerformHttp(Effect),
    Sign(InputContent),
    Skipped,
    Obtained(Held),
    Failed(ObtainFault),
}

impl View for ObtainStep {
    type V = Step;

    open spec fn view(&self) -> Step {
        match self {
            ObtainStep::PerformHttp(effect) => Step::PerformHttp(effect@),
            ObtainStep::Sign(input) => Step::Sign(input@),
            ObtainStep::Skipped => Step::Skipped,
            ObtainStep::Obtained(held) => Step::Obtained(held@),
            ObtainStep::Failed(error) => Step::Failed(error@),
        }
    }
}

/// Whether a step ends its session.
pub open spec fn ends(step: Step) -> bool {
    step is Skipped || step is Obtained || step is Failed
}

impl ObtainStep {
    /// Whether the step ends its session.
    pub fn is_terminal(&self) -> (out: bool)
        ensures
            out == ends(self@),
    {
        match self {
            ObtainStep::Skipped | ObtainStep::Obtained(_) | ObtainStep::Failed(_) => true,
            _ => false,
        }
    }
}

/// The result of what the host was asked to do.
#[derive(Debug, Clone, PartialEq, Eq)]
pub enum ResumeObtain {
    /// The response to an HTTP request.
    Http { status: u16, body: Vec<u8> },
    /// The signature over an input.
    Signature(Vec<u8>),
}

/// The mathematical content of a [`ResumeObtain`].
pub enum Resume {
    Http { status: u16, body: Seq<u8> },
    Signature(Seq<u8>),
}

impl View for ResumeObtain {
    type V = Resume;

    open spec fn view(&self) -> Resume {
        match self {
            ResumeObtain::Http { status, body } => Resume::Http { status: *status, body: body@ },
            ResumeObtain::Signature(signature) => Resume::Signature(signature@),
        }
    }
}

/// What a session waits for.
#[derive(Debug, Clone, Copy, PartialEq, Eq, Structural)]
pub enum ObtainPhase {
    /// The response of the token endpoint.
    TokenPending,
    /// The response of the nonce endpoint.
    NoncePending,
    /// The signature of the proof of possession.
    ProofPending,
    /// The response of the credential endpoint.
    CredentialPending,
    /// Nothing: the session has ended.
    Terminal,
}

/// A session with an issuer, between two steps.
pub struct ObtainSession {
    /// What the session waits for.
    pub phase: ObtainPhase,
    /// The issuer.
    pub backend: IssuerBackend,
    /// The holder.
    pub holder: HolderContext,
    /// The offer.
    pub offer: CredentialOffer,
    /// The instant that the proof of possession carries.
    pub now_unix: i64,
    /// The access token, once the issuer gave one.
    pub access_token: Option<Secret>,
    /// The nonce that the proof of possession binds, once the issuer gave one.
    pub pending_c_nonce: Option<Secret>,
    /// The proof of possession, once it was signed.
    pub proof_jwt: Option<String>,
}

/// The mathematical content of an [`ObtainSession`].
pub struct Session {
    pub phase: ObtainPhase,
    pub backend: Backend,
    pub holder_jwk: Json,
    pub key_handle: Seq<char>,
    pub offer: Offer,
    pub now_unix: i64,
    pub access_token: Option<Seq<char>>,
    pub pending_c_nonce: Option<Seq<char>>,
    pub proof_jwt: Option<Seq<char>>,
}

impl View for ObtainSession {
    type V = Session;

    open spec fn view(&self) -> Session {
        Session {
            phase: self.phase,
            backend: self.backend@,
            holder_jwk: self.holder.holder_public_jwk@,
            key_handle: self.holder.key_handle@,
            offer: self.offer@,
            now_unix: self.now_unix,
            access_token: seen(self.access_token),
            pending_c_nonce: seen(self.pending_c_nonce),
            proof_jwt: seen(self.proof_jwt),
        }
    }
}

/// The name of a phase.
pub open spec fn phase_name(phase: ObtainPhase) -> Seq<char> {
    match phase {
        ObtainPhase::TokenPending => "TokenPending"@,
        ObtainPhase::NoncePending => "NoncePending"@,
        ObtainPhase::ProofPending => "ProofPending"@,
        ObtainPhase::CredentialPending => "CredentialPending"@,
        ObtainPhase::Terminal => "Terminal"@,
    }
}

/// What is shown of a holder.
pub open spec fn shown_holder(holder_jwk: Json, key_handle: Seq<char>) -> Seq<char> {
    "HolderContext { holder_public_jwk: "@ + json_shown(holder_jwk) + ", key_handle: "@ + quoted(
        key_handle,
    ) + " }"@
}

/// What is shown of an optional text.
pub open spec fn shown_option(text: Option<Seq<char>>) -> Seq<char> {
    match text {
        Some(text) => "Some("@ + quoted(text) + ")"@,
        None => "None"@,
    }
}

/// What is shown of a session: its secrets are replaced by markers.
pub open spec fn shown_session(session: Session) -> Seq<char> {
    "ObtainSession { phase: "@ + phase_name(session.phase) + ", backend: "@ + shown_backend(
        session.backend,
    ) + ", holder: "@ + shown_holder(session.holder_jwk, session.key_handle) + ", offer: "@
        + shown_offer(session.offer) + ", now_unix: "@ + signed_decimal(session.now_unix as int)
        + ", access_token: "@ + optional_redaction(session.access_token is Some)
        + ", pending_c_nonce: "@ + optional_redaction(session.pending_c_nonce is Some)
        + ", proof_jwt: "@ + shown_option(session.proof_jwt) + " }"@
}

impl ObtainSession {
    /// What is shown of the session. Its secrets are replaced by markers.
    pub fn debug_text(&self) -> (out: String)
        ensures
            out@ == shown_session(self@),
    {
        let mut out = joined("ObtainSession { phase: ", match self.phase {
            ObtainPhase::TokenPending => "TokenPending",
            ObtainPhase::NoncePending => "NoncePending",
            ObtainPhase::ProofPending => "ProofPending",
            ObtainPhase::CredentialPending => "CredentialPending",
            ObtainPhase::Terminal => "Terminal",
        });
        out.append(", backend: ");
        out.append(self.backend.debug_text().as_str());
        out.append(", holder: ");
        out.append(holder_text(&self.holder).as_str());
        out.append(", offer: ");
        out.append(self.offer.debug_text().as_str());
        out.append(", now_unix: ");
        out.append(signed_decimal_text(self.now_unix).as_str());
        out.append(", access_token: ");
        out.append(optional_debug_text(&self.access_token).as_str());
        out.append(", pending_c_nonce: ");
        out.append(optional_debug_text(&self.pending_c_nonce).as_str());
        out.append(", proof_jwt: ");
        out.append(option_text(&self.proof_jwt).as_str());
        out.append(" }");
        out
    }
}

fn holder_text(holder: &HolderContext) -> (out: String)
    ensures
        out@ == shown_holder(holder.holder_public_jwk@, holder.key_handle@),
{
    let mut out = joined(
        "HolderContext { holder_public_jwk: ",
        debug_text(&holder.holder_public_jwk).as_str(),
    );
    out.append(", key_handle: ");
    out.append(quote(holder.key_handle.as_str()).as_str());
    out.append(" }");
    out
}

fn option_text(text: &Option<String>) -> (out: String)
    ensures
        out@ == shown_option(seen(*text)),
{
    match text {
        Some(text) => joined3("Some(", quote(text.as_str()).as_str(), ")"),
        None => "None".to_owned(),
    }
}

/// A session with other secrets, but as many of them.
pub open spec fn same_but_for_secrets(a: Session, b: Session) -> bool {
    &&& (a.access_token is Some) == (b.access_token is Some)
    &&& (a.pending_c_nonce is Some) == (b.pending_c_nonce is Some)
    &&& (a.offer.tx_code is Some) == (b.offer.tx_code is Some)
    &&& b == (Session {
        offer: Offer {
            pre_authorized_code: b.offer.pre_authorized_code,
            tx_code: b.offer.tx_code,
            ..a.offer
        },
        access_token: b.access_token,
        pending_c_nonce: b.pending_c_nonce,
        ..a
    })
}

/// What is shown of a session, and of its offer, does not depend on what its secrets are.
pub proof fn law_shown_text_hides_secrets(a: Session, b: Session)
    requires
        same_but_for_secrets(a, b),
    ensures
        shown_session(a) == shown_session(b),
        shown_offer(a.offer) == shown_offer(b.offer),
{
}

/// The bytes that stand for themselves in a form: letters, digits, `-`, `_`, `.` and `~`.
pub open spec fn unreserved(b: u8) -> bool {
    ||| 'A' as u8 <= b <= 'Z' as u8
    ||| 'a' as u8 <= b <= 'z' as u8
    ||| '0' as u8 <= b <= '9' as u8
    ||| b == '-' as u8
    ||| b == '_' as u8
    ||| b == '.' as u8
    ||| b == '~' as u8
}

/// The upper-case hexadecimal digit of a number below sixteen.
pub open spec fn hex_digit(n: u8) -> char {
    if n < 10 {
        (48 + n) as char
    } else {
        (55 + n) as char
    }
}

/// A byte in a form: itself, or its two hexadecimal digits behind a percent sign.
pub open spec fn percent_byte(b: u8) -> Seq<char> {
    if unreserved(b) {
        seq![b as char]
    } else {
        seq!['%', hex_digit(b / 16), hex_digit(b % 16)]
    }
}

/// Bytes in a form, one after the other.
pub open spec fn percent_text(bytes: Seq<u8>) -> Seq<char>
    decreases bytes.len(),
{
    if bytes.len() == 0 {
        Seq::empty()
    } else {
        percent_byte(bytes[0]) + percent_text(bytes.drop_first())
    }
}

fn hex_char(n: u8) -> (out: char)
    requires
        n < 16,
    ensures
        out == hex_digit(n),
{
    if n < 10 {
        (48 + n) as char
    } else {
        (55 + n) as char
    }
}

/// Encode a text for a form.
pub fn percent_encode(value: &str) -> (out: String)
    ensures
        out@ == percent_text(encode_utf8(value@)),
{
    let bytes = text_bytes(value);
    let mut out = String::new();
    let mut i: usize = 0;
    assert(bytes@.skip(0) =~= bytes@);
    assert(out@ + percent_text(bytes@) =~= percent_text(bytes@));
    while i < bytes.len()
        invariant
            i <= bytes@.len(),
            out@ + percent_text(bytes@.skip(i as int)) == percent_text(bytes@),
        decreases bytes@.len() - i,
    {
        let b: u8 = bytes[i];
        let ghost before = out@;
        let ghost rest = bytes@.skip(i as int);
        if (65 <= b && b <= 90) || (97 <= b && b <= 122) || (48 <= b && b <= 57) || b == 45 || b
            == 95 || b == 46 || b == 126 {
            out.push(b as char);
        } else {
            out.push('%');
            out.push(hex_char(b / 16));
            out.push(hex_char(b % 16));
        }
        proof {
            assert(rest[0] == b);
            assert(rest.drop_first() =~= bytes@.skip(i as int + 1));
            assert(out@ =~= before + percent_byte(b));
            assert(out@ + percent_text(bytes@.skip(i as int + 1)) =~= before + percent_text(rest));
        }
        i += 1;
    }
    assert(out@ + percent_text(bytes@.skip(i as int)) =~= out@);
    out
}

/// The number that an upper-case hexadecimal digit stands for.
pub open spec fn hex_value(c: char) -> u8 {
    if c <= '9' {
        (c as u8 - 48) as u8
    } else {
        (c as u8 - 55) as u8
    }
}

/// The bytes that a form text stands for.
pub open spec fn percent_bytes(text: Seq<char>) -> Seq<u8>
    decreases text.len(),
{
    if text.len() == 0 {
        Seq::empty()
    } else if text[0] == '%' && text.len() >= 3 {
        seq![(hex_value(text[1]) * 16 + hex_value(text[2])) as u8] + percent_bytes(text.skip(3))
    } else {
        seq![text[0] as u8] + percent_bytes(text.drop_first())
    }
}

/// A form text is made of unreserved characters and percent signs alone, so no part of a value ends
/// a field or starts another; and the value can be read back from it.
pub proof fn law_percent_text(bytes: Seq<u8>)
    ensures
        forall|i: int|
            0 <= i < percent_text(bytes).len() ==> {
                let c = #[trigger] percent_text(bytes)[i];
                c == '%' || (c as u32 <= 127 && unreserved(c as u8))
            },
        percent_bytes(percent_text(bytes)) == bytes,
    decreases bytes.len(),
{
    if bytes.len() > 0 {
        let b = bytes[0];
        let rest = percent_text(bytes.drop_first());
        law_percent_text(bytes.drop_first());
        let text = percent_text(bytes);
        assert(text == percent_byte(b) + rest);
        if unreserved(b) {
            assert(text[0] == b as char);
            assert(text.drop_first() =~= rest);
            assert(percent_bytes(text) =~= bytes);
        } else {
            assert(text[0] == '%');
            assert(text.skip(3) =~= rest);
            assert(b == (b / 16) * 16 + b % 16);
            assert(hex_value(hex_digit(b / 16)) == b / 16);
            assert(hex_value(hex_digit((b % 16) as u8)) == b % 16);
            assert(percent_bytes(text) =~= bytes);
        }
        assert forall|i: int| 0 <= i < text.len() implies {
            let c = #[trigger] text[i];
            c == '%' || (c as u32 <= 127 && unreserved(c as u8))
        } by {
            if i < percent_byte(b).len() {
                assert(text[i] == percent_byte(b)[i]);
            } else {
                assert(text[i] == rest[i - percent_byte(b).len()]);
            }
        }
    } else {
        assert(percent_bytes(percent_text(bytes)) =~= bytes);
    }
}

/// The body of the token request.
pub open spec fn token_body(offer: Offer) -> Seq<char> {
    let grant = "grant_type="@ + percent_text(
        encode_utf8("urn:ietf:params:oauth:grant-type:pre-authorized_code"@),
    ) + "&pre-authorized_code="@ + percent_text(encode_utf8(offer.pre_authorized_code));
    match offer.tx_code {
        Some(code) => grant + "&tx_code="@ + percent_text(encode_utf8(code)),
        None => grant,
    }
}

/// The request for an access token.
pub open spec fn token_effect(backend: Backend, offer: Offer) -> Effect {
    Effect {
        method: HttpMethod::Post,
        url: backend.token_endpoint,
        headers: seq![("Content-Type"@, "application/x-www-form-urlencoded"@)],
        body: encode_utf8(token_body(offer)),
    }
}

/// Build the request for an access token.
pub fn token_request(backend: &IssuerBackend, offer: &CredentialOffer) -> (out: HttpEffect)
    ensures
        out@ == token_effect(backend@, offer@),
{
    let mut body = joined(
        "grant_type=",
        percent_encode("urn:ietf:params:oauth:grant-type:pre-authorized_code").as_str(),
    );
    body.append("&pre-authorized_code=");
    body.append(percent_encode(offer.pre_authorized_code.expose()).as_str());
    if let Some(tx_code) = &offer.tx_code {
        body.append("&tx_code=");
        body.append(percent_encode(tx_code.expose()).as_str());
    }
    let headers = vec![
        ("Content-Type".to_owned(), "application/x-www-form-urlencoded".to_owned()),
    ];
    assert(header_contents(headers@) =~= token_effect(backend@, offer@).headers);
    HttpEffect {
        method: HttpMethod::Post,
        url: backend.token_endpoint.clone(),
        headers,
        body: text_bytes(body.as_str()),
    }
}

/// The request for a nonce, which is not authenticated.
pub open spec fn nonce_effect(backend: Backend) -> Effect {
    Effect {
        method: HttpMethod::Post,
        url: backend.nonce_endpoint,
        headers: Seq::empty(),
        body: Seq::empty(),
    }
}

/// Build the request for a nonce.
pub fn nonce_request(backend: &IssuerBackend) -> (out: HttpEffect)
    ensures
        out@ == nonce_effect(backend@),
{
    let out = HttpEffect {
        method: HttpMethod::Post,
        url: backend.nonce_endpoint.clone(),
        headers: Vec::new(),
        body: Vec::new(),
    };
    assert(out@.headers =~= Seq::<(Seq<char>, Seq<char>)>::empty());
    assert(out@.body =~= Seq::<u8>::empty());
    out
}

/// The body of the credential request: which credential, and one proof of possession.
pub open spec fn credential_body(offer: Offer, proof_jwt: Seq<char>) -> Json {
    Json::Object(
        Map::empty().insert(
            "credential_configuration_id"@,
            Json::Text(offer.credential_configuration_id),
        ).insert(
            "proofs"@,
            Json::Object(
                Map::empty().insert("jwt"@, Json::Array(seq![Json::Text(proof_jwt)])),
            ),
        ),
    )
}

/// The request for the credential.
pub open spec fn credential_effect(
    backend: Backend,
    offer: Offer,
    access_token: Seq<char>,
    proof_jwt: Seq<char>,
) -> Effect {
    Effect {
        method: HttpMethod::Post,
        url: backend.credential_endpoint,
        headers: seq![
            ("Authorization"@, "Bearer "@ + access_token),
            ("Content-Type"@, "application/json"@),
        ],
        body: json_encoded(credential_body(offer, proof_jwt)),
    }
}

/// Whether a body asks for the credential of a configuration, with one proof of possession.
pub open spec fn asks_for(body: Seq<u8>, configuration: Seq<char>, proof_jwt: Seq<char>) -> bool {
    exists|json: Json| #[trigger]
        reads_as_request(body, json) && text_member(json, "credential_configuration_id"@) == Some(
            configuration,
        ) && (member(json, "proofs"@) matches Some(proofs) && array_member(proofs, "jwt"@) == Some(
            seq![Json::Text(proof_jwt)],
        ))
}

/// Whether a body is read as an object.
pub open spec fn reads_as_request(body: Seq<u8>, json: Json) -> bool {
    read_back(body) == Some(json) && json is Object
}

/// Build the request for the credential.
pub fn credential_request(
    backend: &IssuerBackend,
    offer: &CredentialOffer,
    access_token: &str,
    proof_jwt: &str,
) -> (out: HttpEffect)
    ensures
        out@ == credential_effect(backend@, offer@, access_token@, proof_jwt@),
        read_back(out@.body) == Some(credential_body(offer@, proof_jwt@)),
        asks_for(out.body@, offer.credential_configuration_id@, proof_jwt@),
{
    let jwts = vec![JsonValue::Text(proof_jwt.to_owned())];
    proof {
        lemma_array_content(jwts);
        assert(contents(jwts@) =~= seq![Json::Text(proof_jwt@)]);
    }
    let mut proofs = no_members();
    put_member(&mut proofs, "jwt", JsonValue::Array(jwts));
    proof {
        lemma_object_content(proofs);
    }
    let mut members = no_members();
    put_text(
        &mut members,
        "credential_configuration_id",
        offer.credential_configuration_id.as_str(),
    );
    put_member(&mut members, "proofs", JsonValue::Object(proofs));
    proof {
        lemma_object_content(members);
        reveal_with_fuel(simple_value, 4);
    }
    let headers = vec![
        ("Authorization".to_owned(), joined("Bearer ", access_token)),
        ("Content-Type".to_owned(), "application/json".to_owned()),
    ];
    assert(header_contents(headers@) =~= credential_effect(
        backend@,
        offer@,
        access_token@,
        proof_jwt@,
    ).headers);
    let body = to_bytes(&JsonValue::Object(members));
    proof {
        let json = JsonValue::Object(members)@;
        reveal_strlit("credential_configuration_id");
        reveal_strlit("proofs");
        assert("credential_configuration_id"@.len() != "proofs"@.len());
        assert(reads_as_request(body@, json));
        assert(array_member(member(json, "proofs"@)->Some_0, "jwt"@) == Some(
            seq![Json::Text(proof_jwt@)],
        ));
    }
    HttpEffect {
        method: HttpMethod::Post,
        url: backend.credential_endpoint.clone(),
        headers,
        body,
    }
}

/// The text member of a JSON body, or what is wrong with the body.
pub open spec fn body_text(body: Seq<u8>, name: Seq<char>, missing: Seq<char>) -> Result<
    Seq<char>,
    Seq<char>,
> {
    match json_read(body) {
        Ok(json) => match text_member(json, name) {
            Some(text) => Ok(text),
            None => Err(missing),
        },
        Err(message) => Err(message),
    }
}

/// Read a text member out of a JSON body.
fn parse_body_text(body: &[u8], name: &str, missing: &str) -> (out: Result<String, String>)
    ensures
        match body_text(body@, name@, missing@) {
            Ok(text) => out matches Ok(value) && value@ == text,
            Err(message) => out matches Err(error) && error@ == message,
        },
{
    match parse(body) {
        Ok(json) => match get_text(&json, name) {
            Some(text) => Ok(text.clone()),
            None => Err(missing.to_owned()),
        },
        Err(message) => Err(message),
    }
}

/// Read the access token out of a token response.
pub fn parse_token_response(body: &[u8]) -> (out: Result<String, String>)
    ensures
        match body_text(body@, "access_token"@, "missing access_token"@) {
            Ok(text) => out matches Ok(value) && value@ == text,
            Err(message) => out matches Err(error) && error@ == message,
        },
{
    parse_body_text(body, "access_token", "missing access_token")
}

/// Read the nonce out of a nonce response.
pub fn parse_nonce_response(body: &[u8]) -> (out: Result<String, String>)
    ensures
        match body_text(body@, "c_nonce"@, "missing c_nonce"@) {
            Ok(text) => out matches Ok(value) && value@ == text,
            Err(message) => out matches Err(error) && error@ == message,
        },
{
    parse_body_text(body, "c_nonce", "missing c_nonce")
}

/// A credential response: the credential, or the transaction it is deferred under.
#[derive(Debug)]
pub enum CredentialResponse {
    Immediate(HeldAttestation),
    Deferred(String),
}

/// The mathematical content of a [`CredentialResponse`].
pub enum Response {
    Immediate(Held),
    Deferred(Seq<char>),
}

impl View for CredentialResponse {
    type V = Response;

    open spec fn view(&self) -> Response {
        match self {
            CredentialResponse::Immediate(held) => Response::Immediate(held@),
            CredentialResponse::Deferred(transaction) => Response::Deferred(transaction@),
        }
    }
}

/// The text under `credential` in the first item of `credentials`.
pub open spec fn first_credential(json: Json) -> Option<Seq<char>> {
    match array_member(json, "credentials"@) {
        Some(items) => if items.len() > 0 {
            text_member(items[0], "credential"@)
        } else {
            None
        },
        None => None,
    }
}

/// A credential as the holder keeps it: an SD-JWT VC by its text, an mdoc by the bytes that the
/// text stands for.
pub open spec fn held_credential(format: Format, credential: Seq<char>) -> Result<Held, Seq<char>> {
    match format {
        Format::SdJwtVc => Ok(Held::SdJwtVc { issued: credential }),
        Format::Mdoc => match base64url_read(credential) {
            Ok(device_response) => Ok(Held::Mdoc { device_response }),
            Err(message) => Err("mdoc credential base64url: "@ + message),
        },
    }
}

/// What a credential response says. A response with status 202 or a `transaction_id` is deferred,
/// whatever else it holds.
pub open spec fn credential_answer(body: Seq<u8>, format: Format, status: u16) -> Result<
    Response,
    Seq<char>,
> {
    match json_read(body) {
        Err(message) => Err(message),
        Ok(json) => {
            let transaction = text_member(json, "transaction_id"@);
            if status == 202 || transaction is Some {
                Ok(
                    Response::Deferred(
                        match transaction {
                            Some(text) => text,
                            None => Seq::empty(),
                        },
                    ),
                )
            } else {
                match first_credential(json) {
                    None => Err("missing credentials[0].credential"@),
                    Some(credential) => match held_credential(format, credential) {
                        Ok(held) => Ok(Response::Immediate(held)),
                        Err(message) => Err(message),
                    },
                }
            }
        },
    }
}

/// Read a credential response.
pub fn parse_credential_response(body: &[u8], format: Format, status: u16) -> (out: Result<
    CredentialResponse,
    String,
>)
    ensures
        match credential_answer(body@, format, status) {
            Ok(response) => out matches Ok(value) && value@ == response,
            Err(message) => out matches Err(error) && error@ == message,
        },
{
    let json = match parse(body) {
        Ok(json) => json,
        Err(message) => {
            return Err(message);
        },
    };
    match get_text(&json, "transaction_id") {
        Some(transaction) => {
            return Ok(CredentialResponse::Deferred(transaction.clone()));
        },
        None => {
            if status == 202 {
                let none = String::new();
                assert(none@ =~= Seq::<char>::empty());
                return Ok(CredentialResponse::Deferred(none));
            }
        },
    }
    let credential = match get_array(&json, "credentials") {
        Some(items) => if items.len() > 0 {
            proof {
                assert(contents(items@)[0] == items@[0]@);
            }
            get_text(&items[0], "credential")
        } else {
            None
        },
        None => None,
    };
    match credential {
        None => Err("missing credentials[0].credential".to_owned()),
        Some(credential) => match format {
            Format::SdJwtVc => Ok(
                CredentialResponse::Immediate(
                    HeldAttestation::SdJwtVc { issued: credential.clone() },
                ),
            ),
            Format::Mdoc => match base64url_decode(credential.as_str()) {
                Ok(device_response) => Ok(
                    CredentialResponse::Immediate(HeldAttestation::Mdoc { device_response }),
                ),
                Err(message) => Err(joined("mdoc credential base64url: ", message.as_str())),
            },
        },
    }
}

/// The session and the step that a ceremony starts with. Without an issuer it is over at once, and
/// skipped.
pub open spec fn begun(
    offer: Offer,
    backend: Backend,
    holder_jwk: Json,
    key_handle: Seq<char>,
    now_unix: i64,
) -> (Session, Step) {
    let skipped = backend.kind == IssuerBackendKind::NoIssuer;
    (
        Session {
            phase: if skipped {
                ObtainPhase::Terminal
            } else {
                ObtainPhase::TokenPending
            },
            backend,
            holder_jwk,
            key_handle,
            offer,
            now_unix,
            access_token: None,
            pending_c_nonce: None,
            proof_jwt: None,
        },
        if skipped {
            Step::Skipped
        } else {
            Step::PerformHttp(token_effect(backend, offer))
        },
    )
}

/// Begin to obtain a credential.
pub fn begin_obtain(
    offer: CredentialOffer,
    backend: IssuerBackend,
    holder: HolderContext,
    now_unix: i64,
) -> (out: (ObtainSession, ObtainStep))
    ensures
        (out.0@, out.1@) == begun(
            offer@,
            backend@,
            holder.holder_public_jwk@,
            holder.key_handle@,
            now_unix,
        ),
{
    let skipped = match backend.kind {
        IssuerBackendKind::NoIssuer => true,
        _ => false,
    };
    let step = if skipped {
        ObtainStep::Skipped
    } else {
        ObtainStep::PerformHttp(token_request(&backend, &offer))
    };
    let session = ObtainSession {
        phase: if skipped {
            ObtainPhase::Terminal
        } else {
            ObtainPhase::TokenPending
        },
        backend,
        holder,
        offer,
        now_unix,
        access_token: None,
        pending_c_nonce: None,
        proof_jwt: None,
    };
    (session, step)
}

/// Whether an HTTP status says success.
pub open spec fn successful(status: u16) -> bool {
    200 <= status < 300
}

/// How an unsuccessful status is reported.
pub open spec fn status_detail(status: u16) -> Seq<char> {
    "status "@ + decimal(status as nat)
}

/// A session that failed.
pub open spec fn failed(session: Session, fault: ObtainFault) -> (Session, Step) {
    (Session { phase: ObtainPhase::Terminal, ..session }, Step::Failed(fault))
}

/// A session after the response of the token endpoint.
pub open spec fn after_token(session: Session, status: u16, body: Seq<u8>) -> (Session, Step) {
    if !successful(status) {
        failed(session, ObtainFault::TokenRequest(status_detail(status)))
    } else {
        match body_text(body, "access_token"@, "missing access_token"@) {
            Err(message) => failed(session, ObtainFault::TokenRequest(message)),
            Ok(token) => (
                Session {
                    phase: ObtainPhase::NoncePending,
                    access_token: Some(token),
                    ..session
                },
                Step::PerformHttp(nonce_effect(session.backend)),
            ),
        }
    }
}

/// A session after the response of the nonce endpoint.
pub open spec fn after_nonce(session: Session, status: u16, body: Seq<u8>) -> (Session, Step) {
    if !successful(status) {
        failed(session, ObtainFault::NonceRequest(status_detail(status)))
    } else {
        match body_text(body, "c_nonce"@, "missing c_nonce"@) {
            Err(message) => failed(session, ObtainFault::NonceRequest(message)),
            Ok(c_nonce) => match pop_input(
                session.holder_jwk,
                session.backend.credential_issuer,
                c_nonce,
                session.now_unix,
            ) {
                Err(fault) => failed(session, ObtainFault::Proof(signer_message(fault))),
                Ok(input) => (
                    Session {
                        phase: ObtainPhase::ProofPending,
                        pending_c_nonce: Some(c_nonce),
                        ..session
                    },
                    Step::Sign(input),
                ),
            },
        }
    }
}

/// A session after the signature of the proof of possession. A signature that cannot be spliced in
/// is an error of the call, not the end of the session.
pub open spec fn after_signature(session: Session, signature: Seq<u8>) -> Result<
    (Session, Step),
    ObtainFault,
> {
    match session.pending_c_nonce {
        None => Err(ObtainFault::UnexpectedInput),
        Some(c_nonce) => match pop_input(
            session.holder_jwk,
            session.backend.credential_issuer,
            c_nonce,
            session.now_unix,
        ) {
            Err(fault) => Err(ObtainFault::Proof(signer_message(fault))),
            Ok(input) => match assembled_jws(input, signature) {
                Err(fault) => Err(ObtainFault::Proof(signer_message(fault))),
                Ok(proof_jwt) => match session.access_token {
                    None => Err(ObtainFault::UnexpectedInput),
                    Some(access_token) => Ok(
                        (
                            Session {
                                phase: ObtainPhase::CredentialPending,
                                proof_jwt: Some(proof_jwt),
                                ..session
                            },
                            Step::PerformHttp(
                                credential_effect(
                                    session.backend,
                                    session.offer,
                                    access_token,
                                    proof_jwt,
                                ),
                            ),
                        ),
                    ),
                },
            },
        },
    }
}

/// A session after the response of the credential endpoint.
pub open spec fn after_credential(session: Session, status: u16, body: Seq<u8>) -> (Session, Step) {
    if !successful(status) {
        failed(session, ObtainFault::CredentialRequest(status_detail(status)))
    } else {
        match credential_answer(body, session.offer.format, status) {
            Ok(Response::Immediate(held)) => (
                Session { phase: ObtainPhase::Terminal, ..session },
                Step::Obtained(held),
            ),
            Ok(Response::Deferred(transaction)) => failed(
                session,
                ObtainFault::Deferred(transaction),
            ),
            Err(message) => failed(session, ObtainFault::CredentialRequest(message)),
        }
    }
}

/// A session after the result of what the host was asked to do.
pub open spec fn resumed(session: Session, input: Resume) -> Result<(Session, Step), ObtainFault> {
    match (session.phase, input) {
        (ObtainPhase::Terminal, _) => Err(ObtainFault::AlreadyTerminal),
        (ObtainPhase::TokenPending, Resume::Http { status, body }) => Ok(
            after_token(session, status, body),
        ),
        (ObtainPhase::NoncePending, Resume::Http { status, body }) => Ok(
            after_nonce(session, status, body),
        ),
        (ObtainPhase::ProofPending, Resume::Signature(signature)) => after_signature(
            session,
            signature,
        ),
        (ObtainPhase::CredentialPending, Resume::Http { status, body }) => Ok(
            after_credential(session, status, body),
        ),
        _ => Err(ObtainFault::UnexpectedInput),
    }
}

fn is_success(status: u16) -> (out: bool)
    ensures
        out == successful(status),
{
    200 <= status && status < 300
}

fn status_text(status: u16) -> (out: String)
    ensures
        out@ == status_detail(status),
{
    joined("status ", decimal_text(status as u64).as_str())
}

fn fail(session: ObtainSession, error: ObtainError) -> (out: (ObtainSession, ObtainStep))
    ensures
        (out.0@, out.1@) == failed(session@, error@),
{
    let mut ended = session;
    ended.phase = ObtainPhase::Terminal;
    (ended, ObtainStep::Failed(error))
}

fn require_http(input: ResumeObtain) -> (out: Result<(u16, Vec<u8>), ObtainError>)
    ensures
        match input@ {
            Resume::Http { status, body } => out matches Ok(response) && response.0 == status
                && response.1@ == body,
            Resume::Signature(_) => out matches Err(error) && error@
                == ObtainFault::UnexpectedInput,
        },
{
    match input {
        ResumeObtain::Http { status, body } => Ok((status, body)),
        ResumeObtain::Signature(_) => Err(ObtainError::UnexpectedInput),
    }
}

fn require_signature(input: ResumeObtain) -> (out: Result<Vec<u8>, ObtainError>)
    ensures
        match input@ {
            Resume::Signature(signature) => out matches Ok(bytes) && bytes@ == signature,
            Resume::Http { .. } => out matches Err(error) && error@
                == ObtainFault::UnexpectedInput,
        },
{
    match input {
        ResumeObtain::Signature(signature) => Ok(signature),
        ResumeObtain::Http { .. } => Err(ObtainError::UnexpectedInput),
    }
}

fn resume_token(session: ObtainSession, status: u16, body: &[u8]) -> (out: (
    ObtainSession,
    ObtainStep,
))
    ensures
        (out.0@, out.1@) == after_token(session@, status, body@),
{
    if !is_success(status) {
        return fail(session, ObtainError::TokenRequest(status_text(status)));
    }
    let access_token = match parse_token_response(body) {
        Ok(token) => token,
        Err(message) => {
            return fail(session, ObtainError::TokenRequest(message));
        },
    };
    let mut next = session;
    next.access_token = Some(Secret::new(access_token));
    next.phase = ObtainPhase::NoncePending;
    let effect = nonce_request(&next.backend);
    (next, ObtainStep::PerformHttp(effect))
}

fn resume_nonce(session: ObtainSession, status: u16, body: &[u8]) -> (out: (
    ObtainSession,
    ObtainStep,
))
    ensures
        (out.0@, out.1@) == after_nonce(session@, status, body@),
        out.1 matches ObtainStep::Sign(input) ==> out.0.pending_c_nonce is Some
            && is_proof_of_possession(
            input@,
            session.holder.holder_public_jwk@,
            session.backend.credential_issuer@,
            out.0.pending_c_nonce->Some_0@,
            session.now_unix,
        ),
{
    if !is_success(status) {
        return fail(session, ObtainError::NonceRequest(status_text(status)));
    }
    let c_nonce = match parse_nonce_response(body) {
        Ok(c_nonce) => c_nonce,
        Err(message) => {
            return fail(session, ObtainError::NonceRequest(message));
        },
    };
    let pop = match build_pop_jwt(
        &session.holder,
        session.backend.credential_issuer.as_str(),
        c_nonce.as_str(),
        session.now_unix,
    ) {
        Ok(pop) => pop,
        Err(error) => {
            return fail(session, ObtainError::Proof(error.message()));
        },
    };
    let mut next = session;
    next.phase = ObtainPhase::ProofPending;
    next.pending_c_nonce = Some(Secret::new(c_nonce));
    (next, ObtainStep::Sign(pop.input))
}

/// Whether a compact JWS is that of an input and a signature over it.
pub open spec fn is_signed(input: InputContent, signature: Seq<u8>, jws: Seq<char>) -> bool {
    valid_utf8(input.to_be_signed) && jws == decode_utf8(input.to_be_signed) + "."@
        + base64url_text(signature)
}

/// Whether the signature of a proof of possession is sent on: the step asks for the offered
/// credential with the access token and with the proof that was signed.
pub open spec fn sends_proof(
    session: ObtainSession,
    signature: Seq<u8>,
    next: ObtainSession,
    step: ObtainStep,
) -> bool {
    &&& session.pending_c_nonce is Some && session.access_token is Some && next.proof_jwt is Some
    &&& step matches ObtainStep::PerformHttp(effect) && asks_for(
        effect.body@,
        session.offer.credential_configuration_id@,
        next.proof_jwt->Some_0@,
    )
    &&& exists|input: InputContent| #[trigger]
        is_signed(input, signature, next.proof_jwt->Some_0@) && is_proof_of_possession(
            input,
            session.holder.holder_public_jwk@,
            session.backend.credential_issuer@,
            session.pending_c_nonce->Some_0@,
            session.now_unix,
        )
}

fn resume_signature(session: ObtainSession, signature: &[u8]) -> (out: Result<
    (ObtainSession, ObtainStep),
    ObtainError,
>)
    ensures
        match after_signature(session@, signature@) {
            Ok(next) => out matches Ok(pair) && (pair.0@, pair.1@) == next,
            Err(fault) => out matches Err(error) && error@ == fault,
        },
        out matches Ok(pair) ==> sends_proof(session, signature@, pair.0, pair.1),
{
    let c_nonce = match &session.pending_c_nonce {
        Some(c_nonce) => c_nonce.expose().to_owned(),
        None => {
            return Err(ObtainError::UnexpectedInput);
        },
    };
    let pop = match build_pop_jwt(
        &session.holder,
        session.backend.credential_issuer.as_str(),
        c_nonce.as_str(),
        session.now_unix,
    ) {
        Ok(pop) => pop,
        Err(error) => {
            return Err(ObtainError::Proof(error.message()));
        },
    };
    let proof_jwt = match pop.assemble(signature) {
        Ok(proof_jwt) => proof_jwt,
        Err(error) => {
            return Err(ObtainError::Proof(error.message()));
        },
    };
    let access_token = match &session.access_token {
        Some(access_token) => access_token.expose().to_owned(),
        None => {
            return Err(ObtainError::UnexpectedInput);
        },
    };
    let effect = credential_request(
        &session.backend,
        &session.offer,
        access_token.as_str(),
        proof_jwt.as_str(),
    );
    proof {
        assert(is_signed(pop.input@, signature@, proof_jwt@));
    }
    let mut next = session;
    next.phase = ObtainPhase::CredentialPending;
    next.proof_jwt = Some(proof_jwt);
    Ok((next, ObtainStep::PerformHttp(effect)))
}

fn resume_credential(session: ObtainSession, status: u16, body: &[u8]) -> (out: (
    ObtainSession,
    ObtainStep,
))
    ensures
        (out.0@, out.1@) == after_credential(session@, status, body@),
{
    if !is_success(status) {
        return fail(session, ObtainError::CredentialRequest(status_text(status)));
    }
    match parse_credential_response(body, session.offer.format, status) {
        Ok(CredentialResponse::Immediate(held)) => {
            let mut next = session;
            next.phase = ObtainPhase::Terminal;
            (next, ObtainStep::Obtained(held))
        },
        Ok(CredentialResponse::Deferred(transaction)) => fail(
            session,
            ObtainError::Deferred(transaction),
        ),
        Err(message) => fail(session, ObtainError::CredentialRequest(message)),
    }
}

/// Go on with the result of what the host was asked to do. An input that the phase does not wait
/// for is an error of the call.
pub fn resume_obtain(session: ObtainSession, input: ResumeObtain) -> (out: Result<
    (ObtainSession, ObtainStep),
    ObtainError,
>)
    ensures
        match resumed(session@, input@) {
            Ok(next) => out matches Ok(pair) && (pair.0@, pair.1@) == next,
            Err(fault) => out matches Err(error) && error@ == fault,
        },
        out matches Ok(pair) ==> (pair.1 matches ObtainStep::Sign(to_sign)
            ==> pair.0.pending_c_nonce is Some && is_proof_of_possession(
            to_sign@,
            session.holder.holder_public_jwk@,
            session.backend.credential_issuer@,
            pair.0.pending_c_nonce->Some_0@,
            session.now_unix,
        )),
        out matches Ok(pair) ==> (input matches ResumeObtain::Signature(signature) ==> sends_proof(
            session,
            signature@,
            pair.0,
            pair.1,
        )),
{
    match session.phase {
        ObtainPhase::TokenPending => match require_http(input) {
            Ok((status, body)) => Ok(resume_token(session, status, body.as_slice())),
            Err(error) => Err(error),
        },
        ObtainPhase::NoncePending => match require_http(input) {
            Ok((status, body)) => Ok(resume_nonce(session, status, body.as_slice())),
            Err(error) => Err(error),
        },
        ObtainPhase::ProofPending => match require_signature(input) {
            Ok(signature) => resume_signature(session, signature.as_slice()),
            Err(error) => Err(error),
        },
        ObtainPhase::CredentialPending => match require_http(input) {
            Ok((status, body)) => Ok(resume_credential(session, status, body.as_slice())),
            Err(error) => Err(error),
        },
        ObtainPhase::Terminal => Err(ObtainError::AlreadyTerminal),
    }
}

/// Whether a session holds what its phase needs: an access token from the token response on, and a
/// nonce while the proof is being signed.
pub open spec fn session_inv(session: Session) -> bool {
    &&& (session.phase is NoncePending || session.phase is ProofPending
        || session.phase is CredentialPending) ==> session.access_token is Some
    &&& session.phase is ProofPending ==> session.pending_c_nonce is Some && pop_input(
        session.holder_jwk,
        session.backend.credential_issuer,
        session.pending_c_nonce->Some_0,
        session.now_unix,
    ) is Ok
    &&& session.phase is CredentialPending ==> session.proof_jwt is Some
}

/// Every session that was begun, and every one that comes out of it, holds what its phase needs; a
/// step ends the session exactly when the phase is terminal; and the issuer, the holder, the offer
/// and the instant never change.
pub proof fn law_sessions_stay_sound(
    offer: Offer,
    backend: Backend,
    holder_jwk: Json,
    key_handle: Seq<char>,
    now_unix: i64,
    session: Session,
    input: Resume,
)
    requires
        session_inv(session),
    ensures
        ({
            let (first, step) = begun(offer, backend, holder_jwk, key_handle, now_unix);
            session_inv(first) && (ends(step) <==> first.phase is Terminal)
        }),
        resumed(session, input) matches Ok((next, step)) ==> {
            &&& session_inv(next)
            &&& ends(step) <==> next.phase is Terminal
            &&& next.backend == session.backend
            &&& next.holder_jwk == session.holder_jwk
            &&& next.key_handle == session.key_handle
            &&& next.offer == session.offer
            &&& next.now_unix == session.now_unix
        },
{
}

/// Without an issuer nothing is asked of the host and nothing fails; with one, the ceremony starts
/// at the token endpoint.
pub proof fn law_no_issuer_is_skipped(
    offer: Offer,
    backend: Backend,
    holder_jwk: Json,
    key_handle: Seq<char>,
    now_unix: i64,
)
    ensures
        begun(offer, backend, holder_jwk, key_handle, now_unix).1 is Skipped <==> backend.kind
            is NoIssuer,
        !(backend.kind is NoIssuer) ==> begun(offer, backend, holder_jwk, key_handle, now_unix).1
            == Step::PerformHttp(token_effect(backend, offer)),
{
}

/// A session that has ended refuses every input.
pub proof fn law_terminal_sessions_stay_terminal(session: Session, input: Resume)
    requires
        session.phase is Terminal,
    ensures
        resumed(session, input) == Err::<(Session, Step), ObtainFault>(
            ObtainFault::AlreadyTerminal,
        ),
{
}

/// The order of the phases: each successful input moves on by one phase or ends the session, so a
/// session ends after at most four of them.
pub open spec fn phases_left(phase: ObtainPhase) -> nat {
    match phase {
        ObtainPhase::TokenPending => 4,
        ObtainPhase::NoncePending => 3,
        ObtainPhase::ProofPending => 2,
        ObtainPhase::CredentialPending => 1,
        ObtainPhase::Terminal => 0,
    }
}

/// Every accepted input brings the session closer to its end.
pub proof fn law_sessions_end(session: Session, input: Resume)
    ensures
        resumed(session, input) matches Ok((next, _)) ==> phases_left(next.phase) < phases_left(
            session.phase,
        ),
{
}

/// A credential is obtained only out of a successful, immediate response of the credential
/// endpoint, in a session whose proof of possession was signed.
pub proof fn law_obtained_only_from_the_issuer(session: Session, input: Resume)
    requires
        session_inv(session),
    ensures
        resumed(session, input) matches Ok((_, Step::Obtained(held))) ==> {
            &&& session.phase is CredentialPending
            &&& session.proof_jwt is Some
            &&& input is Http
            &&& successful(input->status)
            &&& input->status != 202
            &&& json_read(input->body) is Ok
            &&& text_member(json_read(input->body)->Ok_0, "transaction_id"@) is None
            &&& first_credential(json_read(input->body)->Ok_0) is Some
            &&& held_credential(
                session.offer.format,
                first_credential(json_read(input->body)->Ok_0)->Some_0,
            ) == Ok::<Held, Seq<char>>(held)
        },
{
}

/// A signature of the right length over the input that the host was given is never refused: the
/// session moves on to the credential request, which carries the signed proof.
pub proof fn law_signed_proofs_are_sent(session: Session, signature: Seq<u8>)
    requires
        session_inv(session),
        session.phase is ProofPending,
        signature.len() == crate::issuance::signer::ES256_SIG_LEN,
    ensures
        ({
            let input = pop_input(
                session.holder_jwk,
                session.backend.credential_issuer,
                session.pending_c_nonce->Some_0,
                session.now_unix,
            )->Ok_0;
            resumed(session, Resume::Signature(signature)) matches Ok((next, step)) && next.phase
                is CredentialPending && next.proof_jwt is Some && assembled_jws(input, signature)
                == Ok::<Seq<char>, crate::issuance::signer::SignerFault>(next.proof_jwt->Some_0)
                && step == Step::PerformHttp(
                credential_effect(
                    session.backend,
                    session.offer,
                    session.access_token->Some_0,
                    next.proof_jwt->Some_0,
                ),
            )
        }),
{
    let header = crate::issuance::signer::pop_header(session.holder_jwk);
    let payload = crate::issuance::signer::pop_payload(
        session.backend.credential_issuer,
        session.pending_c_nonce->Some_0,
        session.now_unix,
    );
    let input = pop_input(
        session.holder_jwk,
        session.backend.credential_issuer,
        session.pending_c_nonce->Some_0,
        session.now_unix,
    )->Ok_0;
    crate::issuance::signer::law_built_inputs_assemble(header, payload, input, signature);
}

} // verus!
