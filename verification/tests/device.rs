//! The device signature of an mdoc.

use attestation::issuance::device::{
    build_device_signature, empty_device_name_spaces_bytes, DeviceSignatureBuild,
};
use attestation::issuance::signer::{Ceremony, SignatureAlgorithm, SignerError};
use attestation::openid4vp::oid4vp_handover_transcript;
use coset::{CborSerializable as _, CoseSign1};

const AUDIENCE: &str = "https://verifier.example/cb";
const RESPONSE_URI: &str = "https://verifier.example/cb/response";

fn a_build() -> DeviceSignatureBuild {
    let transcript = oid4vp_handover_transcript(AUDIENCE, b"nonce-bytes-here", RESPONSE_URI);
    let device_ns = empty_device_name_spaces_bytes().expect("empty device namespaces");
    build_device_signature(
        "org.iso.18013.5.1.mDL",
        &transcript,
        &device_ns,
        AUDIENCE,
        "bm9uY2U",
    )
    .expect("build DeviceSignature")
}

#[test]
fn build_is_deterministic_and_exposes_aud_nonce() {
    let b1 = a_build();
    let b2 = a_build();
    assert_eq!(b1.input.to_be_signed(), b2.input.to_be_signed());
    assert_eq!(b1.device_auth_payload, b2.device_auth_payload);
    assert_eq!(b1.input.ceremony(), Ceremony::DeviceSignature);
    assert_eq!(b1.input.algorithm(), SignatureAlgorithm::Es256);
    assert_eq!(b1.input.audience(), AUDIENCE);
    assert_eq!(b1.input.nonce(), "bm9uY2U");
}

#[test]
fn assemble_rejects_a_wrong_length_signature() {
    let build = a_build();
    let err = build.assemble(&[0u8; 33]).unwrap_err();
    assert!(
        matches!(
        err,
        SignerError::BadSignatureLength(SignatureAlgorithm::Es256, 33)
    ),
    );
}

#[test]
fn assemble_with_a_64_byte_signature_produces_decodable_cose_sign1() {
    let build = a_build();
    let cose = build.assemble(&[7u8; 64]).expect("assemble");
    let sign1 = CoseSign1::from_slice(&cose).expect("decode COSE_Sign1");
    assert_eq!(sign1.signature, vec![7u8; 64]);
    assert!(sign1.payload.is_none());
}

#[test]
fn malformed_session_transcript_is_a_serialize_error_not_a_panic() {
    let device_ns = empty_device_name_spaces_bytes().expect("empty device namespaces");
    let err = build_device_signature("doc", &[0xbf, 0x00], &device_ns, AUDIENCE, "n").unwrap_err();
    assert!(matches!(err, SignerError::Serialize(_)));
}

/// An encoded header in which counter signatures are nested this deep.
fn nested_header(depth: usize) -> Vec<u8> {
    let head = |major: u8, len: usize| match len {
        0..=23 => vec![major | len as u8],
        24..=255 => vec![major | 24, len as u8],
        256..=65535 => vec![major | 25, (len >> 8) as u8, len as u8],
        _ => vec![major | 26, (len >> 24) as u8, (len >> 16) as u8, (len >> 8) as u8, len as u8],
    };
    let mut header = vec![0xa1, 0x01, 0x26];
    for _ in 0..depth {
        let mut outer = vec![0xa1, 0x07, 0x83];
        outer.extend(head(0x40, header.len()));
        outer.extend(header);
        outer.extend([0xa0, 0x40]);
        header = outer;
    }
    header
}

#[test]
fn a_header_with_counter_signatures_is_written_up_to_a_depth() {
    let assembled = |depth: usize| {
        let mut build = a_build();
        build.protected_header_value = nested_header(depth);
        build.assemble(&[7; 64])
    };
    assert!(assembled(1).is_ok());
    assert!(assembled(64).is_ok());
    let refusal = SignerError::Serialize("counter signatures are nested too deep".to_owned());
    assert_eq!(assembled(65), Err(refusal.clone()));
    assert_eq!(assembled(5000), Err(refusal));
}
