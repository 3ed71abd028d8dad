//! Issuance operations as requests and responses.

use attestation::issuance::obtain::{
    CredentialOffer, IssuerBackend, IssuerBackendKind, ObtainSession,
};
use attestation::issuance::present::HeldAttestation;
use attestation::issuance::signer::{HolderContext, SigningInput};
use attestation::issuance::wire::{
    check_schema_version, process_issuance, IssuanceOp, IssuanceOutcome, IssuanceRequest,
    WireObtainStep, WireResumeObtain, ISSUANCE_SCHEMA_VERSION,
};
use attestation::json::parse;
use attestation::openid4vp::{Dcql, PresentationRequest, VpToken};
use attestation::secret::Secret;
use attestation::types::Format;
use base64ct::{Base64UrlUnpadded, Encoding as _};
use p256::ecdsa::{
    signature::{Signer as _, Verifier as _},
    Signature, SigningKey,
};
use sd_jwt_payload::{JwsSigner, RequiredKeyBinding, SdJwt, SdJwtBuilder, Sha256Hasher};
use serde_json::Value;
use sha2::{Digest as _, Sha256};
use std::future::Future;
use std::pin::Pin;
use std::task::{Context, Poll, Waker};

const NOW: i64 = 1_700_000_000;
const AUDIENCE: &str = "https://verifier.example/cb";
const RESPONSE_URI: &str = "https://verifier.example/cb/response";
const CREDENTIAL_ISSUER: &str = "https://issuer.example/cb";

fn drive(op: IssuanceOp) -> IssuanceOutcome {
    let response = process_issuance(Ok(IssuanceRequest {
        schema_version: ISSUANCE_SCHEMA_VERSION,
        op,
    }));
    assert_eq!(response.schema_version, ISSUANCE_SCHEMA_VERSION);
    response.outcome
}

fn begin_op(backend: IssuerBackend) -> IssuanceOp {
    IssuanceOp::BeginObtain {
        offer: CredentialOffer {
            pre_authorized_code: Secret::new("pre-auth".to_owned()),
            credential_configuration_id: "cfg".to_owned(),
            format: Format::SdJwtVc,
            tx_code: None,
        },
        backend,
        holder: holder_ctx("h"),
        now_unix: NOW,
    }
}

fn resume(session: ObtainSession, input: WireResumeObtain) -> IssuanceOutcome {
    drive(IssuanceOp::ResumeObtain { session, input })
}

fn http_ok(body: &str) -> WireResumeObtain {
    WireResumeObtain::Http {
        status: 200,
        body: body.as_bytes().to_vec(),
    }
}

fn a_request(nonce: &[u8]) -> PresentationRequest {
    PresentationRequest {
        dcql: Dcql::from_json("{}"),
        nonce: nonce.to_vec(),
        audience: AUDIENCE.to_owned(),
        response_uri: RESPONSE_URI.to_owned(),
    }
}

fn sign_with_holder(input: &SigningInput) -> Vec<u8> {
    let signature: Signature = holder_key().sign(input.to_be_signed());
    signature.to_bytes().to_vec()
}

fn expect_obtain_http(out: IssuanceOutcome) -> ObtainSession {
    match out {
        IssuanceOutcome::Obtain {
            step: WireObtainStep::PerformHttp { .. },
            session: Some(session),
        } => session,
        _ => panic!("expected an HTTP request with a session"),
    }
}

fn expect_obtain_sign(out: IssuanceOutcome) -> (ObtainSession, SigningInput) {
    match out {
        IssuanceOutcome::Obtain {
            step: WireObtainStep::Sign { input },
            session: Some(session),
        } => (session, input),
        _ => panic!("expected an input to sign with a session"),
    }
}

fn expect_obtained(out: IssuanceOutcome) -> HeldAttestation {
    match out {
        IssuanceOutcome::Obtain {
            step: WireObtainStep::Obtained { held },
            session: None,
        } => held,
        _ => panic!("expected a credential and no session"),
    }
}

fn expect_refused(out: IssuanceOutcome) -> String {
    match out {
        IssuanceOutcome::Refused { message } => message,
        _ => panic!("expected a refusal"),
    }
}

#[test]
fn unsupported_schema_version_is_rejected() {
    let response = process_issuance(Ok(IssuanceRequest {
        schema_version: 999,
        op: begin_op(IssuerBackend::none()),
    }));
    assert_eq!(response.schema_version, ISSUANCE_SCHEMA_VERSION);
    assert_eq!(
        expect_refused(response.outcome),
        "unsupported issuance schema_version 999 (this core speaks 1)",
    );
    assert!(check_schema_version(1).is_ok());
    assert!(check_schema_version(0).is_err());
}

#[test]
fn garbage_input_is_an_err_outcome() {
    let response = process_issuance(Err("not a request".to_owned()));
    assert_eq!(expect_refused(response.outcome), "not a request");
}

#[test]
fn none_backend_skips_over_the_wire() {
    match drive(begin_op(IssuerBackend::none())) {
        IssuanceOutcome::Obtain { step, session } => {
            assert_eq!(step, WireObtainStep::Skipped);
            assert!(session.is_none());
        }
        _ => panic!("expected a skipped step"),
    }
}

#[test]
fn obtain_round_trip_over_the_wire_yields_a_us1_verifiable_credential() {
    let session = expect_obtain_http(drive(begin_op(reference_backend())));
    let token = r#"{"access_token":"tok","token_type":"Bearer"}"#;
    let session = expect_obtain_http(resume(session, http_ok(token)));
    let (session, input) = expect_obtain_sign(resume(session, http_ok(r#"{"c_nonce":"cn"}"#)));
    assert_eq!(input.audience(), CREDENTIAL_ISSUER);
    assert_eq!(input.nonce(), "cn");

    let signature = sign_with_holder(&input);
    let session = expect_obtain_http(resume(session, WireResumeObtain::Signature { signature }));

    let minted = mint_sd_jwt();
    let body = format!(r#"{{"credentials":[{{"credential":"{minted}"}}]}}"#);
    let held = expect_obtained(resume(session, http_ok(&body)));
    assert_eq!(held, HeldAttestation::SdJwtVc { issued: minted });

    let request = a_request(b"wire-vp-nonce");
    let nonce = request.nonce_b64();
    let out = drive(IssuanceOp::BeginPresent {
        held,
        request,
        disclose: vec!["given_name".to_owned()],
        iat: NOW,
    });
    let (prepared, input) = match out {
        IssuanceOutcome::PreparePresent { input, prepared } => (prepared, input),
        _ => panic!("expected a prepared presentation"),
    };
    let signature = sign_with_holder(&input);
    let out = drive(IssuanceOp::FinishPresent { prepared, signature });
    let presentation = match out {
        IssuanceOutcome::Present { presentation } => presentation,
        _ => panic!("expected a presentation"),
    };
    let VpToken::SdJwtVc(token) = presentation.as_vp_token() else {
        panic!("expected an SD-JWT VC");
    };
    let claims = verified_claims(token, AUDIENCE, &nonce).expect("a valid presentation");
    assert!(claims.contains_key("given_name"));
    assert!(!claims.contains_key("family_name"));
}

#[test]
fn a_protocol_failure_surfaces_as_a_failed_step_not_an_err() {
    let session = expect_obtain_http(drive(begin_op(reference_backend())));
    let out = resume(
        session,
        WireResumeObtain::Http {
            status: 401,
            body: b"{}".to_vec(),
        },
    );
    match out {
        IssuanceOutcome::Obtain { step, session } => {
            assert_eq!(
                step,
                WireObtainStep::Failed {
                    message: "token request failed: status 401".to_owned()
                },
            );
            assert!(session.is_none());
        }
        _ => panic!("expected a failed step"),
    }
}

#[test]
fn resuming_a_terminal_session_is_an_err() {
    let session = expect_obtain_http(drive(begin_op(reference_backend())));
    let out = resume(
        session,
        WireResumeObtain::Signature {
            signature: vec![0u8; 64],
        },
    );
    assert_eq!(
        expect_refused(out),
        "unexpected resume input for the current obtain phase",
    );
}

#[test]
fn begin_present_with_a_malformed_credential_is_an_err() {
    let out = drive(IssuanceOp::BeginPresent {
        held: HeldAttestation::SdJwtVc {
            issued: "nope".to_owned(),
        },
        request: a_request(b"n"),
        disclose: vec![],
        iat: NOW,
    });
    assert!(expect_refused(out).starts_with("the held credential is malformed: "));
}

fn holder_ctx(handle: &str) -> HolderContext {
    let jwk = parse(&serde_json::to_vec(&holder_jwk()).unwrap()).unwrap();
    HolderContext::new(jwk, handle.to_owned())
}

fn reference_backend() -> IssuerBackend {
    IssuerBackend {
        kind: IssuerBackendKind::Reference,
        token_endpoint: "https://issuer.example/token".to_owned(),
        nonce_endpoint: "https://issuer.example/nonce".to_owned(),
        credential_endpoint: "https://issuer.example/credential".to_owned(),
        credential_issuer: CREDENTIAL_ISSUER.to_owned(),
    }
}

/// A key of the test issuers and holders, from a fixed scalar.
fn key(scalar: u8) -> SigningKey {
    SigningKey::from_slice(&[scalar; 32]).expect("a scalar below the order")
}

fn issuer_key() -> SigningKey {
    key(1)
}

fn holder_key() -> SigningKey {
    key(2)
}

/// A signer of the issuer's JWS.
struct IssuerSigner;

impl JwsSigner for IssuerSigner {
    type Error = String;

    fn sign<'a, 'b, 'c, 'out>(
        &'a self,
        header: &'b serde_json::Map<String, Value>,
        payload: &'c serde_json::Map<String, Value>,
    ) -> Pin<Box<dyn Future<Output = Result<Vec<u8>, String>> + Send + 'out>>
    where
        'a: 'out,
        'b: 'out,
        'c: 'out,
        Self: 'out,
    {
        let head = Base64UrlUnpadded::encode_string(&serde_json::to_vec(header).unwrap());
        let body = Base64UrlUnpadded::encode_string(&serde_json::to_vec(payload).unwrap());
        let input = format!("{head}.{body}");
        let signature: Signature = issuer_key().sign(input.as_bytes());
        let tail = Base64UrlUnpadded::encode_string(&signature.to_bytes());
        Box::pin(std::future::ready(Ok(format!("{input}.{tail}").into_bytes())))
    }
}

/// The result of a future that never waits.
fn block_on<F: Future>(future: F) -> F::Output {
    let mut pinned = Box::pin(future);
    let mut context = Context::from_waker(Waker::noop());
    match pinned.as_mut().poll(&mut context) {
        Poll::Ready(output) => output,
        Poll::Pending => panic!("the future waits"),
    }
}

/// The public key of the holder as a JWK.
fn holder_jwk() -> Value {
    let point = holder_key().verifying_key().to_encoded_point(false);
    let x = Base64UrlUnpadded::encode_string(point.x().unwrap());
    let y = Base64UrlUnpadded::encode_string(point.y().unwrap());
    let text = format!(r#"{{"kty":"EC","crv":"P-256","x":"{x}","y":"{y}"}}"#);
    serde_json::from_str(&text).unwrap()
}

/// Issue an SD-JWT VC with the claims at the pointers concealable, bound to the holder's key.
fn issue(claims: &str, pointers: &[&str]) -> String {
    let claims: Value = serde_json::from_str(claims).unwrap();
    let mut builder = SdJwtBuilder::new(claims).unwrap();
    builder = builder.header("typ", "dc+sd-jwt");
    for pointer in pointers {
        builder = builder.make_concealable(pointer).unwrap();
    }
    let key = holder_jwk().as_object().unwrap().clone();
    builder = builder.require_key_binding(RequiredKeyBinding::Jwk(key));
    block_on(builder.finish(&IssuerSigner, "ES256")).unwrap().presentation()
}

/// An SD-JWT VC with three concealable claims.
fn mint_sd_jwt() -> String {
    issue(
        r#"{"iss":"https://issuer.example/cb",
            "vct":"https://credentials.example/identity_credential",
            "given_name":"Ada","family_name":"Lovelace","birthdate":"1815-12-10"}"#,
        &["/given_name", "/family_name", "/birthdate"],
    )
}

fn segment(text: &str) -> Value {
    serde_json::from_slice(&Base64UrlUnpadded::decode_vec(text).unwrap()).unwrap()
}

/// Whether a compact JWS is signed by a key.
fn jws_holds(jws: &str, key: &SigningKey) -> bool {
    let (input, tail) = jws.rsplit_once('.').unwrap();
    let signature = Signature::from_slice(&Base64UrlUnpadded::decode_vec(tail).unwrap()).unwrap();
    key.verifying_key().verify(input.as_bytes(), &signature).is_ok()
}

/// Check the issuer's signature, the key binding and its audience, nonce and hash; then put the
/// disclosed claims in their places.
fn verified_claims(token: &str, audience: &str, nonce: &str) -> Option<serde_json::Map<String, Value>> {
    let (prefix, kb_jwt) = token.rsplit_once('~')?;
    let prefix = format!("{prefix}~");
    let issuer_jws = prefix.split('~').next()?;
    let claims = segment(kb_jwt.split('.').nth(1)?);
    let hash = Base64UrlUnpadded::encode_string(&Sha256::digest(prefix.as_bytes()));
    if !jws_holds(issuer_jws, &issuer_key())
        || !jws_holds(kb_jwt, &holder_key())
        || claims["aud"] != *audience
        || claims["nonce"] != *nonce
        || claims["sd_hash"] != hash
    {
        return None;
    }
    let sd_jwt = SdJwt::parse(&prefix).ok()?;
    sd_jwt.into_disclosed_object(&Sha256Hasher::new()).ok()
}
