//! Obtaining a credential, against an issuer played by the test.

use attestation::issuance::obtain::{
    begin_obtain, percent_encode, resume_obtain, CredentialOffer, HttpEffect, HttpMethod,
    IssuerBackend, IssuerBackendKind, ObtainError, ObtainPhase, ObtainSession, ObtainStep,
    ResumeObtain,
};
use attestation::issuance::present::HeldAttestation;
use attestation::issuance::signer::{HolderContext, SigningInput};
use attestation::json::parse;
use attestation::secret::Secret;
use attestation::types::Format;
use base64ct::{Base64UrlUnpadded, Encoding as _};
use p256::ecdsa::{
    signature::{Signer as _, Verifier as _},
    Signature, SigningKey,
};
use sd_jwt_payload::{JwsSigner, RequiredKeyBinding, SdJwt, SdJwtBuilder, Sha256Hasher};
use serde_json::Value;
use std::future::Future;
use std::pin::Pin;
use std::task::{Context, Poll, Waker};

const NOW: i64 = 1_700_000_000;
const CREDENTIAL_ISSUER: &str = "https://issuer.example/cb";

fn sign(input: &SigningInput) -> Vec<u8> {
    let signature: Signature = holder_key().sign(input.to_be_signed());
    signature.to_bytes().to_vec()
}

fn an_offer() -> CredentialOffer {
    CredentialOffer {
        pre_authorized_code: Secret::new("pre-auth-code-xyz".to_owned()),
        credential_configuration_id: "eu.europa.ec.eudi.pid_vc_sd_jwt".to_owned(),
        format: Format::SdJwtVc,
        tx_code: None,
    }
}

fn mdoc_offer() -> CredentialOffer {
    CredentialOffer {
        pre_authorized_code: Secret::new("p".to_owned()),
        credential_configuration_id: "eu.europa.ec.eudi.pid_mdoc".to_owned(),
        format: Format::Mdoc,
        tx_code: None,
    }
}

fn token_response() -> Vec<u8> {
    br#"{"access_token":"issuer-access-token","token_type":"Bearer","expires_in":86400}"#.to_vec()
}

fn nonce_response(c_nonce: &str) -> Vec<u8> {
    format!(r#"{{"c_nonce":"{c_nonce}"}}"#).into_bytes()
}

fn http_ok(body: Vec<u8>) -> ResumeObtain {
    ResumeObtain::Http { status: 200, body }
}

fn begin(offer: CredentialOffer) -> (ObtainSession, ObtainStep) {
    begin_obtain(offer, reference_backend(), holder_ctx("holder-handle"), NOW)
}

fn resumed(session: ObtainSession, input: ResumeObtain) -> (ObtainSession, ObtainStep) {
    match resume_obtain(session, input) {
        Ok(next) => next,
        Err(error) => panic!("refused: {}", error.message()),
    }
}

fn refused(session: ObtainSession, input: ResumeObtain) -> ObtainError {
    match resume_obtain(session, input) {
        Ok(_) => panic!("accepted"),
        Err(error) => error,
    }
}

fn expect_http(step: ObtainStep) -> HttpEffect {
    match step {
        ObtainStep::PerformHttp(effect) => effect,
        other => panic!("expected PerformHttp, got {other:?}"),
    }
}

fn expect_sign(step: ObtainStep) -> SigningInput {
    match step {
        ObtainStep::Sign(input) => input,
        other => panic!("expected Sign, got {other:?}"),
    }
}

fn expect_obtained(step: ObtainStep) -> HeldAttestation {
    match step {
        ObtainStep::Obtained(held) => held,
        other => panic!("expected Obtained, got {other:?}"),
    }
}

fn drive_offer_to_credential_pending(offer: CredentialOffer) -> ObtainSession {
    let (session, _) = begin(offer);
    let (session, step) = resumed(session, http_ok(token_response()));
    assert!(expect_http(step).url.ends_with("/nonce"));
    let (session, step) = resumed(session, http_ok(nonce_response("n")));
    let signature = sign(&expect_sign(step));
    let (session, _) = resumed(session, ResumeObtain::Signature(signature));
    session
}

fn drive_to_credential_pending() -> ObtainSession {
    drive_offer_to_credential_pending(an_offer())
}

#[test]
fn none_backend_skips_cleanly_never_fails() {
    let (session, step) =
        begin_obtain(an_offer(), IssuerBackend::none(), holder_ctx("holder-handle"), NOW);
    assert_eq!(step, ObtainStep::Skipped);
    assert!(step.is_terminal());
    let err = refused(
        session,
        ResumeObtain::Http {
            status: 200,
            body: vec![],
        },
    );
    assert!(matches!(err, ObtainError::AlreadyTerminal));
}

#[test]
fn reference_backend_obtains_a_credential_that_verifies_under_us1() {
    let (session, step) = begin(an_offer());
    let effect = expect_http(step);
    assert!(effect.url.ends_with("/token"));
    assert!(String::from_utf8_lossy(&effect.body).contains("pre-authorized_code"));

    let (session, step) = resumed(session, http_ok(token_response()));
    let effect = expect_http(step);
    assert!(effect.url.ends_with("/nonce"));
    assert!(effect.body.is_empty());
    assert!(!effect
        .headers
        .iter()
        .any(|(name, _)| name.eq_ignore_ascii_case("authorization")));

    let (session, step) = resumed(session, http_ok(nonce_response("issuer-c-nonce-1")));
    let sign_input = expect_sign(step);
    assert_eq!(sign_input.audience(), CREDENTIAL_ISSUER);
    assert_eq!(sign_input.nonce(), "issuer-c-nonce-1");

    let signature = sign(&sign_input);
    let (session, step) = resumed(session, ResumeObtain::Signature(signature));
    let effect = expect_http(step);
    assert!(effect.url.ends_with("/credential"));
    let request: Value = serde_json::from_slice(&effect.body).unwrap();
    assert!(request.get("proof").is_none());
    let proofs = request["proofs"]["jwt"].as_array().expect("an array");
    assert_eq!(proofs.len(), 1);
    let proof_jwt = proofs[0].as_str().expect("a text");
    let header = segment(proof_jwt.split('.').next().unwrap());
    let payload = segment(proof_jwt.split('.').nth(1).unwrap());
    assert_eq!(header["typ"], "openid4vci-proof+jwt");
    assert_eq!(payload["aud"], CREDENTIAL_ISSUER);
    assert_eq!(payload["nonce"], "issuer-c-nonce-1");
    assert_eq!(header["jwk"], holder_jwk());
    assert!(jws_holds(proof_jwt, &holder_key()));

    let minted = mint_sd_jwt();
    let body = format!(r#"{{"credentials":[{{"credential":"{minted}"}}]}}"#);
    let (_session, step) = resumed(session, http_ok(body.into_bytes()));
    let held = expect_obtained(step);
    let HeldAttestation::SdJwtVc { issued } = &held else {
        panic!("expected an SD-JWT VC");
    };

    assert!(jws_holds(issued.split('~').next().unwrap(), &issuer_key()));
    let claims = SdJwt::parse(issued)
        .unwrap()
        .into_disclosed_object(&Sha256Hasher::new())
        .unwrap();
    assert!(claims.contains_key("given_name"));
}

#[test]
fn token_request_includes_tx_code_only_when_the_offer_carries_one() {
    let (_session, step) = begin(an_offer());
    let body = String::from_utf8(expect_http(step).body).unwrap();
    assert!(!body.contains("tx_code"));

    let offer = CredentialOffer {
        tx_code: Some(Secret::new("493536".to_owned())),
        ..an_offer()
    };
    let (_session, step) = begin(offer);
    let body = String::from_utf8(expect_http(step).body).unwrap();
    assert!(body.contains("&tx_code=493536"));
}

#[test]
fn tx_code_never_leaks_via_debug_on_the_offer() {
    let code = "super-secret-tx-code-987654";
    let offer = CredentialOffer {
        tx_code: Some(Secret::new(code.to_owned())),
        ..an_offer()
    };
    let shown = offer.debug_text();
    assert!(!shown.contains(code));
    let (_session, step) = begin(offer);
    let body = String::from_utf8(expect_http(step).body).unwrap();
    assert!(body.contains(code));
}

#[test]
fn obtain_session_debug_does_not_leak_the_access_token() {
    let access_token = "super-secret-bearer-token-xyz";
    let c_nonce = "issuer-one-time-c-nonce-abc";
    let (session, _step) = begin(an_offer());
    let token = format!(r#"{{"access_token":"{access_token}","token_type":"Bearer"}}"#);
    let (session, _step) = resumed(session, http_ok(token.into_bytes()));
    let (session, _step) = resumed(session, http_ok(nonce_response(c_nonce)));

    let shown = session.debug_text();
    assert!(!shown.contains(access_token));
    assert!(shown.contains("Secret(***)"));
}

#[test]
fn pre_authorized_code_never_leaks_via_debug_on_the_offer_or_session() {
    let code = "super-secret-pre-authorized-code-xyz";
    let offer = CredentialOffer {
        pre_authorized_code: Secret::new(code.to_owned()),
        credential_configuration_id: "eu.europa.ec.eudi.pid_vc_sd_jwt".to_owned(),
        format: Format::SdJwtVc,
        tx_code: None,
    };
    let offer_shown = offer.debug_text();
    assert!(!offer_shown.contains(code));
    assert!(offer_shown.contains("Secret(***)"));

    let (session, _step) = begin(offer);
    assert!(!session.debug_text().contains(code));

    let (_session, step) = begin(CredentialOffer {
        pre_authorized_code: Secret::new(code.to_owned()),
        credential_configuration_id: "cfg".to_owned(),
        format: Format::SdJwtVc,
        tx_code: None,
    });
    let effect = expect_http(step);
    assert!(String::from_utf8_lossy(&effect.body).contains(code));
}

#[test]
fn everything_but_the_secrets_is_shown() {
    let offer = CredentialOffer {
        pre_authorized_code: Secret::new("code".to_owned()),
        credential_configuration_id: "a\"b".to_owned(),
        format: Format::Mdoc,
        tx_code: Some(Secret::new("pin".to_owned())),
    };
    let shown_offer = concat_lines(&[
        r#"CredentialOffer { pre_authorized_code: Secret(***), "#,
        r#"credential_configuration_id: "a\"b", format: Mdoc, tx_code: Some(Secret(***)) }"#,
    ]);
    assert_eq!(offer.debug_text(), shown_offer);
    let jwk = parse(br#"{"kty":"EC","crv":"P-256","n":[1,-2,null,true]}"#).unwrap();
    let holder = HolderContext::new(jwk, "slot 1".to_owned());
    let (mut session, _step) = begin_obtain(offer, IssuerBackend::none(), holder, -5);
    session.access_token = Some(Secret::new("token".to_owned()));
    session.proof_jwt = Some("a.b.c".to_owned());
    let expected = concat_lines(&[
        r#"ObtainSession { phase: Terminal, "#,
        r#"backend: IssuerBackend { kind: None, token_endpoint: "", nonce_endpoint: "", "#,
        r#"credential_endpoint: "", credential_issuer: "" }, "#,
        r#"holder: HolderContext { holder_public_jwk: Object {"crv": String("P-256"), "#,
        r#""kty": String("EC"), "n": Array [Number(1), Number(-2), Null, Bool(true)]}, "#,
        r#"key_handle: "slot 1" }, "#,
        r#"offer: "#,
        &shown_offer,
        r#", now_unix: -5, access_token: Some(Secret(***)), pending_c_nonce: None, "#,
        r#"proof_jwt: Some("a.b.c") }"#,
    ]);
    assert_eq!(session.debug_text(), expected);
}

fn concat_lines(lines: &[&str]) -> String {
    lines.concat()
}

#[test]
fn token_endpoint_failure_is_a_terminal_failure_not_a_panic() {
    let (session, _step) = begin(an_offer());
    let (session, step) = resumed(
        session,
        ResumeObtain::Http {
            status: 401,
            body: b"{}".to_vec(),
        },
    );
    assert!(matches!(
        step,
        ObtainStep::Failed(ObtainError::TokenRequest(_))
    ));
    assert_eq!(step, ObtainStep::Failed(ObtainError::TokenRequest("status 401".to_owned())));
    assert_eq!(session.phase, ObtainPhase::Terminal);
}

#[test]
fn nonce_endpoint_failure_is_a_terminal_failure() {
    let (session, _step) = begin(an_offer());
    let (session, _step) = resumed(session, http_ok(token_response()));
    let (_session, step) = resumed(
        session,
        ResumeObtain::Http {
            status: 500,
            body: b"{}".to_vec(),
        },
    );
    assert!(matches!(
        step,
        ObtainStep::Failed(ObtainError::NonceRequest(_))
    ));
}

#[test]
fn nonce_response_without_a_c_nonce_fails() {
    let (session, _step) = begin(an_offer());
    let (session, _step) = resumed(session, http_ok(token_response()));
    let (_session, step) = resumed(session, http_ok(b"{}".to_vec()));
    assert!(matches!(
        step,
        ObtainStep::Failed(ObtainError::NonceRequest(_))
    ));
}

#[test]
fn credential_endpoint_failure_is_a_terminal_failure() {
    let session = drive_to_credential_pending();
    let (_session, step) = resumed(
        session,
        ResumeObtain::Http {
            status: 500,
            body: b"{}".to_vec(),
        },
    );
    assert!(matches!(
        step,
        ObtainStep::Failed(ObtainError::CredentialRequest(_))
    ));
}

#[test]
fn deferred_202_credential_response_is_a_distinct_terminal_failure() {
    let session = drive_to_credential_pending();
    let (_session, step) = resumed(
        session,
        ResumeObtain::Http {
            status: 202,
            body: br#"{"transaction_id":"8xLOxBtZp8","interval":3600}"#.to_vec(),
        },
    );
    let ObtainStep::Failed(ObtainError::Deferred(tx)) = step else {
        panic!("expected a Deferred failure, got {step:?}");
    };
    assert_eq!(tx, "8xLOxBtZp8");
}

#[test]
fn an_unexpected_resume_input_is_a_usage_error() {
    let (session, _) = begin(an_offer());
    let err = refused(session, ResumeObtain::Signature(vec![0u8; 64]));
    assert!(matches!(err, ObtainError::UnexpectedInput));
}

#[test]
fn mdoc_credential_response_is_parsed_from_base64url() {
    let device_response = vec![0xa1, 0x66, b's', b't', b'a', b't', b'u', b's', 0x00, 0xff, 0xfe];
    let session = drive_offer_to_credential_pending(mdoc_offer());
    let credential = Base64UrlUnpadded::encode_string(&device_response);
    let body = format!(r#"{{"credentials":[{{"credential":"{credential}"}}]}}"#);
    let (_session, step) = resumed(session, http_ok(body.into_bytes()));
    match expect_obtained(step) {
        HeldAttestation::Mdoc {
            device_response: held,
        } => assert_eq!(held, device_response),
        HeldAttestation::SdJwtVc { .. } => panic!("expected an mdoc"),
    }
}

#[test]
fn token_response_without_an_access_token_fails() {
    let (session, _) = begin(an_offer());
    let (_session, step) = resumed(session, http_ok(br#"{"token_type":"Bearer"}"#.to_vec()));
    assert!(matches!(
        step,
        ObtainStep::Failed(ObtainError::TokenRequest(_))
    ));
}

#[test]
fn token_response_with_non_json_body_fails() {
    let (session, _) = begin(an_offer());
    let (_session, step) = resumed(session, http_ok(b"not json".to_vec()));
    assert!(matches!(
        step,
        ObtainStep::Failed(ObtainError::TokenRequest(_))
    ));
}

#[test]
fn credential_response_without_a_credential_member_fails() {
    let session = drive_to_credential_pending();
    let (_session, step) = resumed(session, http_ok(br#"{"foo":"bar"}"#.to_vec()));
    assert!(matches!(
        step,
        ObtainStep::Failed(ObtainError::CredentialRequest(_))
    ));
}

#[test]
fn mdoc_credential_with_bad_base64url_fails() {
    let session = drive_offer_to_credential_pending(mdoc_offer());
    let body = br#"{"credentials":[{"credential":"@@not-base64url@@"}]}"#.to_vec();
    let (_session, step) = resumed(session, http_ok(body));
    assert!(matches!(
        step,
        ObtainStep::Failed(ObtainError::CredentialRequest(_))
    ));
}

#[test]
fn form_values_are_percent_encoded() {
    assert_eq!(percent_encode("AZaz09-_.~"), "AZaz09-_.~");
    assert_eq!(percent_encode("a b&c=d/\u{e9}"), "a%20b%26c%3Dd%2F%C3%A9");
    let (_session, step) = begin(an_offer());
    let effect = expect_http(step);
    assert_eq!(effect.method, HttpMethod::Post);
    assert_eq!(
        String::from_utf8(effect.body).unwrap(),
        "grant_type=urn%3Aietf%3Aparams%3Aoauth%3Agrant-type%3Apre-authorized_code\
         &pre-authorized_code=pre-auth-code-xyz",
    );
}

#[test]
fn a_signature_of_the_wrong_length_is_refused() {
    let (session, _) = begin(an_offer());
    let (session, _) = resumed(session, http_ok(token_response()));
    let (session, _) = resumed(session, http_ok(nonce_response("n")));
    let err = refused(session, ResumeObtain::Signature(vec![0u8; 63]));
    assert_eq!(
        err.message(),
        "failed to build the proof-of-possession JWT: \
         unexpected signature length for Es256: got 63 bytes",
    );
}

#[test]
fn deferral_is_quoted_in_its_message() {
    assert_eq!(
        ObtainError::Deferred("a\"b".to_owned()).message(),
        "issuer deferred credential issuance (transaction_id \"a\\\"b\"); \
         the deferred endpoint is not supported",
    );
    assert_eq!(
        ObtainError::AlreadyTerminal.message(),
        "obtain session is already terminal",
    );
    assert_eq!(
        ObtainError::UnexpectedInput.message(),
        "unexpected resume input for the current obtain phase",
    );
}

#[test]
fn every_accepted_input_moves_the_session_on() {
    let (session, _) = begin(an_offer());
    assert_eq!(session.phase, ObtainPhase::TokenPending);
    let (session, _) = resumed(session, http_ok(token_response()));
    assert_eq!(session.phase, ObtainPhase::NoncePending);
    let (session, step) = resumed(session, http_ok(nonce_response("n")));
    assert_eq!(session.phase, ObtainPhase::ProofPending);
    let (session, step) = resumed(session, ResumeObtain::Signature(sign(&expect_sign(step))));
    assert_eq!(session.phase, ObtainPhase::CredentialPending);
    let effect = expect_http(step);
    assert_eq!(
        effect.headers,
        vec![
            ("Authorization".to_owned(), "Bearer issuer-access-token".to_owned()),
            ("Content-Type".to_owned(), "application/json".to_owned()),
        ],
    );
    let body = br#"{"credentials":[{"credential":"c"}]}"#.to_vec();
    let (session, step) = resumed(session, http_ok(body));
    assert_eq!(session.phase, ObtainPhase::Terminal);
    assert_eq!(
        step,
        ObtainStep::Obtained(HeldAttestation::SdJwtVc { issued: "c".to_owned() }),
    );
}

fn holder_ctx(handle: &str) -> HolderContext {
    let jwk = parse(&serde_json::to_vec(&holder_jwk()).unwrap()).unwrap();
    HolderContext::new(jwk, handle.to_owned())
}

fn reference_backend() -> IssuerBackend {
    IssuerBackend {
        kind: IssuerBackendKind::Reference,
        token_endpoint: "https://issuer.example/token".to_owned(),
        nonce_endpoint: "https://issuer.example/nonce".to_owned(),
        credential_endpoint: "https://issuer.example/credential".to_owned(),
        credential_issuer: CREDENTIAL_ISSUER.to_owned(),
    }
}

/// A key of the test issuers and holders, from a fixed scalar.
fn key(scalar: u8) -> SigningKey {
    SigningKey::from_slice(&[scalar; 32]).expect("a scalar below the order")
}

fn issuer_key() -> SigningKey {
    key(1)
}

fn holder_key() -> SigningKey {
    key(2)
}

/// A signer of the issuer's JWS.
struct IssuerSigner;

impl JwsSigner for IssuerSigner {
    type Error = String;

    fn sign<'a, 'b, 'c, 'out>(
        &'a self,
        header: &'b serde_json::Map<String, Value>,
        payload: &'c serde_json::Map<String, Value>,
    ) -> Pin<Box<dyn Future<Output = Result<Vec<u8>, String>> + Send + 'out>>
    where
        'a: 'out,
        'b: 'out,
        'c: 'out,
        Self: 'out,
    {
        let head = Base64UrlUnpadded::encode_string(&serde_json::to_vec(header).unwrap());
        let body = Base64UrlUnpadded::encode_string(&serde_json::to_vec(payload).unwrap());
        let input = format!("{head}.{body}");
        let signature: Signature = issuer_key().sign(input.as_bytes());
        let tail = Base64UrlUnpadded::encode_string(&signature.to_bytes());
        Box::pin(std::future::ready(Ok(format!("{input}.{tail}").into_bytes())))
    }
}

/// The result of a future that never waits.
fn block_on<F: Future>(future: F) -> F::Output {
    let mut pinned = Box::pin(future);
    let mut context = Context::from_waker(Waker::noop());
    match pinned.as_mut().poll(&mut context) {
        Poll::Ready(output) => output,
        Poll::Pending => panic!("the future waits"),
    }
}

/// The public key of the holder as a JWK.
fn holder_jwk() -> Value {
    let point = holder_key().verifying_key().to_encoded_point(false);
    let x = Base64UrlUnpadded::encode_string(point.x().unwrap());
    let y = Base64UrlUnpadded::encode_string(point.y().unwrap());
    let text = format!(r#"{{"kty":"EC","crv":"P-256","x":"{x}","y":"{y}"}}"#);
    serde_json::from_str(&text).unwrap()
}

/// Issue an SD-JWT VC with the claims at the pointers concealable, bound to the holder's key.
fn issue(claims: &str, pointers: &[&str]) -> String {
    let claims: Value = serde_json::from_str(claims).unwrap();
    let mut builder = SdJwtBuilder::new(claims).unwrap();
    builder = builder.header("typ", "dc+sd-jwt");
    for pointer in pointers {
        builder = builder.make_concealable(pointer).unwrap();
    }
    let key = holder_jwk().as_object().unwrap().clone();
    builder = builder.require_key_binding(RequiredKeyBinding::Jwk(key));
    block_on(builder.finish(&IssuerSigner, "ES256")).unwrap().presentation()
}

/// An SD-JWT VC with three concealable claims.
fn mint_sd_jwt() -> String {
    issue(
        r#"{"iss":"https://issuer.example/cb",
            "vct":"https://credentials.example/identity_credential",
            "given_name":"Ada","family_name":"Lovelace","birthdate":"1815-12-10"}"#,
        &["/given_name", "/family_name", "/birthdate"],
    )
}

fn segment(text: &str) -> Value {
    serde_json::from_slice(&Base64UrlUnpadded::decode_vec(text).unwrap()).unwrap()
}

/// Whether a compact JWS is signed by a key.
fn jws_holds(jws: &str, key: &SigningKey) -> bool {
    let (input, tail) = jws.rsplit_once('.').unwrap();
    let signature = Signature::from_slice(&Base64UrlUnpadded::decode_vec(tail).unwrap()).unwrap();
    key.verifying_key().verify(input.as_bytes(), &signature).is_ok()
}

