//! The holder's signer hook and the inputs it signs.

use attestation::issuance::device::{build_device_signature, empty_device_name_spaces_bytes};
use attestation::issuance::signer::{
    build_kb_jwt, build_pop_jwt, Ceremony, HolderContext, SignatureAlgorithm, Signer, SignerError,
    SigningInput,
};
use attestation::json::{get_member, get_text, parse, JsonValue};
use attestation::mdoc::verify::{verify_with_meta, MdocVerifyParams};
use attestation::openid4vp::{oid4vp_handover_transcript, Dcql, PresentationRequest};
use attestation::status::StatusOutcome;
use attestation::trust::StaticTestAnchors;
use attestation::types::{Format, IssuerRole};
use base64ct::{Base64UrlUnpadded, Encoding as _};
use ciborium::value::Value as CborValue;
use coset::{CborSerializable, CoseSign1Builder, HeaderBuilder};
use p256::ecdsa::{
    signature::{Signer as _, Verifier as _},
    Signature, SigningKey,
};
use sd_jwt_payload::{JwsSigner, RequiredKeyBinding, SdJwt, SdJwtBuilder, Sha256Hasher};
use serde_json::Value;
use sha2::{Digest as _, Sha256};
use std::cell::RefCell;
use std::future::Future;
use std::pin::Pin;
use std::task::{Context, Poll, Waker};

const NOW: i64 = 1_700_000_000;
const AUDIENCE: &str = "https://verifier.example/cb";
const RESPONSE_URI: &str = "https://verifier.example/cb/response";
const NONCE: &str = "n-0S6_WzA2Mj";
const C_NONCE: &str = "issuer-c-nonce-xyz";
const ISSUER_ID: &str = "https://issuer.example/cb";
const PRIVATE_MEMBERS: [&str; 8] = ["d", "p", "q", "dp", "dq", "qi", "k", "oth"];

/// A key store that records what it was asked to sign.
struct StubHsm {
    key: SigningKey,
    seen: RefCell<Vec<(String, Ceremony, String, String)>>,
}

impl StubHsm {
    fn new(key: SigningKey) -> Self {
        Self {
            key,
            seen: RefCell::new(Vec::new()),
        }
    }
}

impl Signer for StubHsm {
    type Error = String;

    fn sign(&self, handle: &str, input: &SigningInput) -> Result<Vec<u8>, String> {
        self.seen.borrow_mut().push((
            handle.to_owned(),
            input.ceremony(),
            input.audience().to_owned(),
            input.nonce().to_owned(),
        ));
        assert_eq!(input.algorithm(), SignatureAlgorithm::Es256);
        let signature: Signature = self.key.sign(input.to_be_signed());
        Ok(signature.to_bytes().to_vec())
    }
}

fn json(value: &Value) -> JsonValue {
    parse(&serde_json::to_vec(value).unwrap()).unwrap()
}

fn holder_ctx() -> HolderContext {
    HolderContext::new(json(&holder_jwk()), "holder-key-handle".to_owned())
}

#[test]
fn holder_context_carries_only_public_material_no_private_key() {
    let ctx = holder_ctx();
    assert_eq!(get_text(&ctx.holder_public_jwk, "kty").map(String::as_str), Some("EC"));
    assert!(get_member(&ctx.holder_public_jwk, "x").is_some());
    assert!(get_member(&ctx.holder_public_jwk, "y").is_some());
    assert!(get_member(&ctx.holder_public_jwk, "d").is_none());
    let cnf = ctx.cnf();
    assert!(get_member(&cnf, "jwk").is_some());
    assert!(get_member(get_member(&cnf, "jwk").unwrap(), "d").is_none());
    assert_eq!(ctx.public_sec1().expect("sec1").len(), 65);
}

#[test]
fn private_jwk_members_are_stripped_before_embedding_in_pop_jwt_and_cnf() {
    let mut leaky = holder_jwk();
    for member in PRIVATE_MEMBERS {
        leaky
            .as_object_mut()
            .unwrap()
            .insert(member.to_owned(), Value::String("LEAKED-PRIVATE".to_owned()));
    }
    let ctx = HolderContext::new(json(&leaky), "holder-key-handle".to_owned());

    let public = ctx.public_jwk_only();
    let cnf = ctx.cnf();
    for member in PRIVATE_MEMBERS {
        assert!(get_member(&public, member).is_none());
        assert!(get_member(get_member(&cnf, "jwk").unwrap(), member).is_none());
    }
    assert_eq!(get_text(&public, "kty").map(String::as_str), Some("EC"));
    assert!(get_member(&public, "x").is_some() && get_member(&public, "y").is_some());

    let build = build_pop_jwt(&ctx, ISSUER_ID, C_NONCE, NOW).expect("build");
    let pop_jwt = build.assemble(&[0u8; 64]).expect("assemble");
    let header = segment(pop_jwt.split('.').next().expect("header"));
    let header_jwk = header.get("jwk").expect("header jwk");
    for member in PRIVATE_MEMBERS {
        assert!(header_jwk.get(member).is_none());
    }
    assert!(!pop_jwt.contains("LEAKED-PRIVATE"));
}

#[test]
fn public_sec1_rejects_non_p256_jwk() {
    for text in [
        r#"{"kty": "RSA"}"#,
        r#"{"kty": "EC", "crv": "P-384", "x": "AA", "y": "AA"}"#,
        r#"{"kty": "EC", "crv": "P-256", "x": "AA", "y": "AA"}"#,
    ] {
        let jwk = parse(text.as_bytes()).unwrap();
        assert!(HolderContext::new(jwk, "h".to_owned()).public_sec1().is_none());
    }
}

#[test]
fn pop_jwt_signing_input_exposes_aud_and_nonce_for_host_policy() {
    let ctx = holder_ctx();
    let build = build_pop_jwt(&ctx, ISSUER_ID, C_NONCE, NOW).expect("build");
    assert_eq!(build.input.ceremony(), Ceremony::Oid4vciProof);
    assert_eq!(build.input.audience(), ISSUER_ID);
    assert_eq!(build.input.nonce(), C_NONCE);
    let build2 = build_pop_jwt(&ctx, ISSUER_ID, C_NONCE, NOW).expect("build again");
    assert_eq!(build.input.to_be_signed(), build2.input.to_be_signed());
}

#[test]
fn pop_jwt_round_trips_through_the_signer_hook() {
    let ctx = holder_ctx();
    let hsm = StubHsm::new(holder_key());
    let build = build_pop_jwt(&ctx, ISSUER_ID, C_NONCE, NOW).expect("build");
    let signature = Signer::sign(&hsm, &ctx.key_handle, &build.input).expect("sign");
    let pop_jwt = build.assemble(&signature).expect("splice");

    assert_eq!(
        hsm.seen.borrow().as_slice(),
        [(
            "holder-key-handle".to_owned(),
            Ceremony::Oid4vciProof,
            ISSUER_ID.to_owned(),
            C_NONCE.to_owned()
        )],
    );

    let parts: Vec<&str> = pop_jwt.split('.').collect();
    assert_eq!(parts.len(), 3);
    let header = segment(parts[0]);
    let payload = segment(parts[1]);
    assert!(jws_holds(&pop_jwt, &holder_key()));
    assert_eq!(header.get("jwk"), Some(&holder_jwk()));
    assert_eq!(header.get("typ").and_then(Value::as_str), Some("openid4vci-proof+jwt"));
    assert_eq!(header.get("alg").and_then(Value::as_str), Some("ES256"));
    assert_eq!(payload.get("aud").and_then(Value::as_str), Some(ISSUER_ID));
    assert_eq!(payload.get("nonce").and_then(Value::as_str), Some(C_NONCE));
    assert_eq!(payload.get("iat").and_then(Value::as_i64), Some(NOW));
}

#[test]
fn bad_signature_length_is_rejected_on_splice() {
    let ctx = holder_ctx();
    let build = build_pop_jwt(&ctx, ISSUER_ID, C_NONCE, NOW).expect("build");
    let err = build.assemble(&[0u8; 10]).unwrap_err();
    assert!(matches!(
        err,
        SignerError::BadSignatureLength(SignatureAlgorithm::Es256, 10)
    ));
    assert_eq!(err.message(), "unexpected signature length for Es256: got 10 bytes");
    let kb = build_kb_jwt(AUDIENCE, NONCE, NOW, "prefix~").expect("build");
    assert!(matches!(
        kb.assemble(&[0u8; 7]).unwrap_err(),
        SignerError::BadSignatureLength(SignatureAlgorithm::Es256, 7)
    ));
}

#[test]
fn kb_jwt_built_via_signer_hook_verifies_under_us1() {
    let presentation_prefix = mint_sd_jwt();
    let hsm = StubHsm::new(holder_key());
    let build = build_kb_jwt(AUDIENCE, NONCE, NOW, &presentation_prefix).expect("build");
    assert_eq!(build.input.ceremony(), Ceremony::KeyBinding);
    assert_eq!(build.input.audience(), AUDIENCE);
    assert_eq!(build.input.nonce(), NONCE);
    let signature = Signer::sign(&hsm, "holder-key-handle", &build.input).expect("sign");
    let kb_jwt = build.assemble(&signature).expect("splice");
    let presentation = format!("{presentation_prefix}{kb_jwt}");

    let claims = verified_claims(&presentation, AUDIENCE, NONCE).expect("a valid presentation");
    assert!(claims.contains_key("given_name"));
}

#[test]
fn device_signature_built_via_signer_hook_verifies_under_us1_openid4vp() {
    let request = PresentationRequest {
        dcql: Dcql::from_json("{}"),
        nonce: b"fresh-nonce-1234".to_vec(),
        audience: AUDIENCE.to_owned(),
        response_uri: RESPONSE_URI.to_owned(),
    };
    let transcript =
        oid4vp_handover_transcript(&request.audience, &request.nonce, &request.response_uri);
    let device_name_spaces_bytes = empty_device_name_spaces_bytes().expect("namespaces");
    let build = build_device_signature(
        "org.iso.18013.5.1.mDL",
        &transcript,
        &device_name_spaces_bytes,
        &request.audience,
        request.nonce_b64().as_str(),
    )
    .expect("build");
    assert_eq!(build.input.ceremony(), Ceremony::DeviceSignature);
    assert_eq!(build.input.audience(), AUDIENCE);
    let hsm = StubHsm::new(holder_key());
    let signature = Signer::sign(&hsm, "holder-key-handle", &build.input).expect("sign");
    let device_signature_cbor = build.assemble(&signature).expect("splice");

    let device_response = mdoc_response(&device_signature_cbor);
    let anchors =
        StaticTestAnchors::new().trust(IssuerRole::Pid, Format::Mdoc, &mdoc_ds_cert_der());
    let params = MdocVerifyParams {
        now_unix: 1_700_000_000,
        session_transcript: Some(&transcript),
        role: IssuerRole::Pid,
        statuses: &[StatusOutcome::NoStatus],
    };
    let (result, _) = verify_with_meta(&device_response, &anchors, &params);
    assert!(result.valid);
}

/// A response with one element, signed by the issuer, around a device signature.
fn mdoc_response(device_signature: &[u8]) -> Vec<u8> {
    let item = signed_item(0, 0, "family_name", &text("Doe"));
    let point = holder_key().verifying_key().to_encoded_point(false);
    let device_key = cose_ec2_key(point.x().unwrap(), point.y().unwrap());
    let digest = CborValue::Bytes(Sha256::digest(encode(&item)).to_vec());
    let mso = CborValue::Map(vec![
        (text("version"), text("1.0")),
        (text("digestAlgorithm"), text("SHA-256")),
        (
            text("valueDigests"),
            CborValue::Map(vec![(
                text("org.iso.18013.5.1"),
                CborValue::Map(vec![(CborValue::Integer(0.into()), digest)]),
            )]),
        ),
        (
            text("deviceKeyInfo"),
            CborValue::Map(vec![(text("deviceKey"), device_key)]),
        ),
        (text("docType"), text("org.iso.18013.5.1.mDL")),
        (
            text("validityInfo"),
            CborValue::Map(vec![
                (text("signed"), text("2023-01-01T00:00:00Z")),
                (text("validFrom"), text("2023-01-01T00:00:00Z")),
                (text("validUntil"), text("2030-01-01T00:00:00Z")),
            ]),
        ),
    ]);
    let issuer_auth = CoseSign1Builder::new()
        .protected(
            HeaderBuilder::new()
                .algorithm(coset::iana::Algorithm::ES256)
                .build(),
        )
        .unprotected(
            HeaderBuilder::new()
                .value(33, CborValue::Bytes(mdoc_ds_cert_der()))
                .build(),
        )
        .payload(encode(&tagged(encode(&mso))))
        .create_signature(&[], |tbs| es256_sign(&issuer_key(), tbs))
        .build();
    let name_spaces = CborValue::Map(vec![(
        text("org.iso.18013.5.1"),
        CborValue::Array(vec![item]),
    )]);
    let document = CborValue::Map(vec![
        (text("docType"), text("org.iso.18013.5.1.mDL")),
        (
            text("issuerSigned"),
            CborValue::Map(vec![
                (text("nameSpaces"), name_spaces),
                (text("issuerAuth"), decode(&issuer_auth.to_vec().unwrap())),
            ]),
        ),
        (
            text("deviceSigned"),
            CborValue::Map(vec![
                (text("nameSpaces"), tagged(encode(&CborValue::Map(vec![])))),
                (
                    text("deviceAuth"),
                    CborValue::Map(vec![(text("deviceSignature"), decode(device_signature))]),
                ),
            ]),
        ),
    ]);
    encode(&CborValue::Map(vec![
        (text("version"), text("1.0")),
        (text("documents"), CborValue::Array(vec![document])),
        (text("status"), CborValue::Integer(0.into())),
    ]))
}

/// A key of the test issuers and holders, from a fixed scalar.
fn key(scalar: u8) -> SigningKey {
    SigningKey::from_slice(&[scalar; 32]).expect("a scalar below the order")
}

fn issuer_key() -> SigningKey {
    key(1)
}

fn holder_key() -> SigningKey {
    key(2)
}

fn der(tag: u8, content: &[u8]) -> Vec<u8> {
    let mut out = vec![tag];
    if content.len() < 128 {
        out.push(content.len() as u8);
    } else if content.len() < 256 {
        out.extend([0x81, content.len() as u8]);
    } else {
        out.extend([0x82, (content.len() >> 8) as u8, content.len() as u8]);
    }
    out.extend_from_slice(content);
    out
}

/// A self-signed certificate for a P-256 key.
fn certificate(key: &SigningKey, name: &str) -> Vec<u8> {
    let ecdsa_sha256 = der(0x30, &[0x06, 0x08, 0x2a, 0x86, 0x48, 0xce, 0x3d, 0x04, 0x03, 0x02]);
    let common_name = [vec![0x06, 0x03, 0x55, 0x04, 0x03], der(0x0c, name.as_bytes())].concat();
    let subject = der(0x30, &der(0x31, &der(0x30, &common_name)));
    let validity = der(
        0x30,
        &[der(0x17, b"200101000000Z"), der(0x17, b"400101000000Z")].concat(),
    );
    let ec_key = [
        vec![0x06, 0x07, 0x2a, 0x86, 0x48, 0xce, 0x3d, 0x02, 0x01],
        vec![0x06, 0x08, 0x2a, 0x86, 0x48, 0xce, 0x3d, 0x03, 0x01, 0x07],
    ]
    .concat();
    let point = key.verifying_key().to_encoded_point(false);
    let bits = [vec![0x00], point.as_bytes().to_vec()].concat();
    let public_key = der(0x30, &[der(0x30, &ec_key), der(0x03, &bits)].concat());
    let body = der(
        0x30,
        &[
            der(0xa0, &der(0x02, &[2])),
            der(0x02, &[1]),
            ecdsa_sha256.clone(),
            subject.clone(),
            validity,
            subject,
            public_key,
        ]
        .concat(),
    );
    let signature: Signature = key.sign(&body);
    let sealed = [vec![0x00], signature.to_der().as_bytes().to_vec()].concat();
    der(0x30, &[body, ecdsa_sha256, der(0x03, &sealed)].concat())
}

fn mdoc_ds_cert_der() -> Vec<u8> {
    certificate(&issuer_key(), "mdoc-ds")
}

/// A signer of the issuer's JWS.
struct IssuerSigner;

impl JwsSigner for IssuerSigner {
    type Error = String;

    fn sign<'a, 'b, 'c, 'out>(
        &'a self,
        header: &'b serde_json::Map<String, Value>,
        payload: &'c serde_json::Map<String, Value>,
    ) -> Pin<Box<dyn Future<Output = Result<Vec<u8>, String>> + Send + 'out>>
    where
        'a: 'out,
        'b: 'out,
        'c: 'out,
        Self: 'out,
    {
        let head = Base64UrlUnpadded::encode_string(&serde_json::to_vec(header).unwrap());
        let body = Base64UrlUnpadded::encode_string(&serde_json::to_vec(payload).unwrap());
        let input = format!("{head}.{body}");
        let signature: Signature = issuer_key().sign(input.as_bytes());
        let tail = Base64UrlUnpadded::encode_string(&signature.to_bytes());
        Box::pin(std::future::ready(Ok(format!("{input}.{tail}").into_bytes())))
    }
}

/// The result of a future that never waits.
fn block_on<F: Future>(future: F) -> F::Output {
    let mut pinned = Box::pin(future);
    let mut context = Context::from_waker(Waker::noop());
    match pinned.as_mut().poll(&mut context) {
        Poll::Ready(output) => output,
        Poll::Pending => panic!("the future waits"),
    }
}

/// The public key of the holder as a JWK.
fn holder_jwk() -> Value {
    let point = holder_key().verifying_key().to_encoded_point(false);
    let x = Base64UrlUnpadded::encode_string(point.x().unwrap());
    let y = Base64UrlUnpadded::encode_string(point.y().unwrap());
    let text = format!(r#"{{"kty":"EC","crv":"P-256","x":"{x}","y":"{y}"}}"#);
    serde_json::from_str(&text).unwrap()
}

/// Issue an SD-JWT VC with the claims at the pointers concealable, bound to the holder's key.
fn issue(claims: &str, pointers: &[&str]) -> String {
    let claims: Value = serde_json::from_str(claims).unwrap();
    let mut builder = SdJwtBuilder::new(claims).unwrap();
    builder = builder.header("typ", "dc+sd-jwt");
    for pointer in pointers {
        builder = builder.make_concealable(pointer).unwrap();
    }
    let key = holder_jwk().as_object().unwrap().clone();
    builder = builder.require_key_binding(RequiredKeyBinding::Jwk(key));
    block_on(builder.finish(&IssuerSigner, "ES256")).unwrap().presentation()
}

/// An SD-JWT VC with three concealable claims.
fn mint_sd_jwt() -> String {
    issue(
        r#"{"iss":"https://issuer.example/cb",
            "vct":"https://credentials.example/identity_credential",
            "given_name":"Ada","family_name":"Lovelace","birthdate":"1815-12-10"}"#,
        &["/given_name", "/family_name", "/birthdate"],
    )
}

fn segment(text: &str) -> Value {
    serde_json::from_slice(&Base64UrlUnpadded::decode_vec(text).unwrap()).unwrap()
}

/// Whether a compact JWS is signed by a key.
fn jws_holds(jws: &str, key: &SigningKey) -> bool {
    let (input, tail) = jws.rsplit_once('.').unwrap();
    let signature = Signature::from_slice(&Base64UrlUnpadded::decode_vec(tail).unwrap()).unwrap();
    key.verifying_key().verify(input.as_bytes(), &signature).is_ok()
}

/// Check the issuer's signature, the key binding and its audience, nonce and hash; then put the
/// disclosed claims in their places.
fn verified_claims(token: &str, audience: &str, nonce: &str) -> Option<serde_json::Map<String, Value>> {
    let (prefix, kb_jwt) = token.rsplit_once('~')?;
    let prefix = format!("{prefix}~");
    let issuer_jws = prefix.split('~').next()?;
    let claims = segment(kb_jwt.split('.').nth(1)?);
    let hash = Base64UrlUnpadded::encode_string(&Sha256::digest(prefix.as_bytes()));
    if !jws_holds(issuer_jws, &issuer_key())
        || !jws_holds(kb_jwt, &holder_key())
        || claims["aud"] != *audience
        || claims["nonce"] != *nonce
        || claims["sd_hash"] != hash
    {
        return None;
    }
    let sd_jwt = SdJwt::parse(&prefix).ok()?;
    sd_jwt.into_disclosed_object(&Sha256Hasher::new()).ok()
}

/// `#6.24(bstr)` around the fields of an issuer-signed item.
fn signed_item(digest_id: i64, salt: u8, identifier: &str, value: &CborValue) -> CborValue {
    tagged(encode(&CborValue::Map(vec![
        (text("digestID"), CborValue::Integer(digest_id.into())),
        (text("random"), CborValue::Bytes(vec![salt; 16])),
        (text("elementIdentifier"), text(identifier)),
        (text("elementValue"), value.clone()),
    ])))
}

fn text(value: &str) -> CborValue {
    CborValue::Text(value.to_owned())
}

fn tagged(inner: Vec<u8>) -> CborValue {
    CborValue::Tag(24, Box::new(CborValue::Bytes(inner)))
}

fn encode(value: &CborValue) -> Vec<u8> {
    let mut buf = Vec::new();
    ciborium::into_writer(value, &mut buf).expect("encode");
    buf
}

fn decode(bytes: &[u8]) -> CborValue {
    ciborium::from_reader(bytes).expect("decode")
}

fn es256_sign(key: &SigningKey, tbs: &[u8]) -> Vec<u8> {
    let signature: Signature = key.sign(tbs);
    signature.to_bytes().to_vec()
}

fn cose_ec2_key(x: &[u8], y: &[u8]) -> CborValue {
    CborValue::Map(vec![
        (CborValue::Integer(1.into()), CborValue::Integer(2.into())),
        (CborValue::Integer((-1).into()), CborValue::Integer(1.into())),
        (CborValue::Integer((-2).into()), CborValue::Bytes(x.to_vec())),
        (CborValue::Integer((-3).into()), CborValue::Bytes(y.to_vec())),
    ])
}
