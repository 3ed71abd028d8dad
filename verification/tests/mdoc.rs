//! Verifying mdoc responses: one deviation at a time from a response that passes.

use attestation::mdoc::binding::{device_binding_machinery, DeviceBindingMachinery};
use attestation::mdoc::verify::{
    verify_issuer_auth_against_vector, verify_with_meta, MdocVerifyParams,
};
use attestation::status::StatusOutcome;
use attestation::text_map::TextMap;
use attestation::trust::{StaticTestAnchors, TrustAnchorSource};
use attestation::types::{
    AttributeValue, Format, IssuerRole, ReasonCode, TrustStatus, VerificationResult,
};
use ciborium::value::Value as CborValue;
use coset::{CborSerializable, CoseSign1Builder, HeaderBuilder, TaggedCborSerializable};
use p256::ecdsa::{signature::Signer as _, Signature, SigningKey};
use sha2::{Digest as _, Sha256, Sha384, Sha512};

/// 2024-06-01T00:00:00Z, inside the window that the issuer sets.
const NOW: i64 = 1_717_200_000;

const DEFAULT_NS: &str = "org.iso.18013.5.1";

const OTHER_NS: &str = "org.example.secondary";

fn verify<A: TrustAnchorSource + ?Sized>(
    device_response: &[u8],
    anchors: &A,
    params: &MdocVerifyParams<'_>,
) -> VerificationResult {
    verify_with_meta(device_response, anchors, params).0
}

fn disclosed_attr<'a>(result: &'a VerificationResult, id: &str) -> Option<&'a AttributeValue> {
    disclosed_in(result, DEFAULT_NS, id)
}

fn disclosed_in<'a>(
    result: &'a VerificationResult,
    namespace: &str,
    id: &str,
) -> Option<&'a AttributeValue> {
    match result.disclosed_attributes.get(namespace) {
        Some(AttributeValue::Fields(elements)) => elements.get(id),
        _ => None,
    }
}

fn trusted_anchors() -> StaticTestAnchors {
    StaticTestAnchors::new().trust(IssuerRole::Pid, Format::Mdoc, &mdoc_ds_cert_der())
}

fn anchors_without_ds() -> StaticTestAnchors {
    StaticTestAnchors::new()
}

fn params() -> MdocVerifyParams<'static> {
    MdocVerifyParams {
        now_unix: NOW,
        session_transcript: Some(Box::leak(default_session_transcript().into_boxed_slice())),
        role: IssuerRole::Pid,
        statuses: &[StatusOutcome::NoStatus],
    }
}

fn params_two_docs() -> MdocVerifyParams<'static> {
    MdocVerifyParams {
        statuses: &[StatusOutcome::NoStatus, StatusOutcome::NoStatus],
        ..params()
    }
}

#[test]
fn valid_mdoc_verifies_and_returns_disclosed_attributes() {
    let response = MdocBuilder::new().build();
    let result = verify(&response, &trusted_anchors(), &params());

    assert!(result.valid);
    assert!(result.reasons.is_empty());
    assert_eq!(result.trust_status, TrustStatus::Trusted);
    assert!(result.qualified_status.is_none());

    assert_eq!(
        disclosed_attr(&result, "family_name"),
        Some(&AttributeValue::Text("Doe".to_owned())),
    );
    assert_eq!(
        disclosed_attr(&result, "given_name"),
        Some(&AttributeValue::Text("Ada".to_owned())),
    );
    assert_eq!(disclosed_attr(&result, "age_over_18"), Some(&AttributeValue::Boolean(true)));
    assert!(result.disclosed_attributes.contains_key(DEFAULT_NS));
}

#[test]
fn value_digest_mismatch_is_rejected_as_disclosure_integrity() {
    let response = MdocBuilder::new().corrupt_value_digest().build();
    let result = verify(&response, &trusted_anchors(), &params());

    assert!(!result.valid);
    assert_eq!(result.reasons, vec![ReasonCode::DisclosureIntegrity]);
    assert!(result.disclosed_attributes.is_empty());
}

#[test]
fn expired_validity_info_is_rejected_as_expired() {
    let response = MdocBuilder::new()
        .validity("2020-01-01T00:00:00Z", "2021-01-01T00:00:00Z")
        .build();
    let result = verify(&response, &trusted_anchors(), &params());

    assert!(!result.valid);
    assert_eq!(result.reasons, vec![ReasonCode::Expired]);
}

#[test]
fn not_yet_valid_validity_info_is_rejected_as_expired() {
    let response = MdocBuilder::new()
        .validity("2029-01-01T00:00:00Z", "2030-01-01T00:00:00Z")
        .build();
    let result = verify(&response, &trusted_anchors(), &params());

    assert!(!result.valid);
    assert_eq!(result.reasons, vec![ReasonCode::Expired]);
}

#[test]
fn tampered_issuer_auth_signature_is_rejected_as_tamper() {
    let response = MdocBuilder::new().corrupt_issuer_auth().build();
    let result = verify(&response, &trusted_anchors(), &params());

    assert!(!result.valid);
    assert_eq!(result.reasons, vec![ReasonCode::Tamper]);
}

#[test]
fn untrusted_document_signer_is_rejected_as_untrusted_issuer() {
    let response = MdocBuilder::new().use_wrong_issuer().build();
    let anchors = trusted_anchors();
    let result = verify(&response, &anchors, &params());

    assert!(!result.valid);
    assert_eq!(result.reasons, vec![ReasonCode::UntrustedIssuer]);
}

#[test]
fn trusted_ds_absent_from_anchors_is_untrusted_issuer() {
    let response = MdocBuilder::new().build();
    let result = verify(&response, &anchors_without_ds(), &params());

    assert!(!result.valid);
    assert_eq!(result.reasons, vec![ReasonCode::UntrustedIssuer]);
}

#[test]
fn bad_device_signature_is_rejected_as_holder_binding() {
    let response = MdocBuilder::new().corrupt_device_signature().build();
    let result = verify(&response, &trusted_anchors(), &params());

    assert!(!result.valid);
    assert_eq!(result.reasons, vec![ReasonCode::HolderBinding]);
}

#[test]
fn device_signature_with_attached_payload_is_rejected_not_a_panic() {
    let response = MdocBuilder::new()
        .device_signature_attached_payload()
        .build();
    let result = verify(&response, &trusted_anchors(), &params());

    assert!(!result.valid);
    assert_eq!(result.reasons, vec![ReasonCode::HolderBinding]);
}

#[test]
fn malformed_cbor_is_rejected_as_malformed_credential() {
    let result = verify(&[0xff, 0x00, 0x13, 0x37], &trusted_anchors(), &params());
    assert!(!result.valid);
    assert_eq!(result.reasons, vec![ReasonCode::MalformedCredential]);

    let mut empty_map = Vec::new();
    ciborium::into_writer(&ciborium::value::Value::Map(vec![]), &mut empty_map).unwrap();
    let result = verify(&empty_map, &trusted_anchors(), &params());
    assert!(!result.valid);
    assert_eq!(result.reasons, vec![ReasonCode::MalformedCredential]);
}

#[test]
fn untrusted_check_uses_wrong_issuer_cert_fixture() {
    assert_ne!(mdoc_ds_cert_der(), wrong_issuer_cert_der());
}

#[test]
fn sha384_digest_algorithm_verifies() {
    let response = MdocBuilder::new()
        .digest_algorithm(DigestAlg::Sha384)
        .build();
    let result = verify(&response, &trusted_anchors(), &params());
    assert!(result.valid);
    assert!(disclosed_attr(&result, "given_name").is_some());
}

#[test]
fn unsupported_digest_algorithm_is_rejected_as_malformed() {
    let response = MdocBuilder::new()
        .digest_algorithm(DigestAlg::Unsupported)
        .build();
    let result = verify(&response, &trusted_anchors(), &params());
    assert!(!result.valid);
    assert_eq!(result.reasons, vec![ReasonCode::MalformedCredential]);
}

#[test]
fn explicit_session_transcript_binds_the_device_signature() {
    let transcript = encode(&CborValue::Array(vec![
        CborValue::Text("DeviceEngagement".to_owned()),
        CborValue::Integer(7.into()),
    ]));
    let response = MdocBuilder::new()
        .session_transcript(transcript.clone())
        .build();
    let p = MdocVerifyParams {
        now_unix: NOW,
        session_transcript: Some(&transcript),
        role: IssuerRole::Pid,
        statuses: &[StatusOutcome::NoStatus],
    };
    let result = verify(&response, &trusted_anchors(), &p);
    assert!(result.valid);
}

#[test]
fn device_signature_without_a_session_transcript_is_missing_request_binding() {
    let response = MdocBuilder::new().build();
    let p = MdocVerifyParams {
        now_unix: NOW,
        session_transcript: None,
        role: IssuerRole::Pid,
        statuses: &[StatusOutcome::NoStatus],
    };
    let result = verify(&response, &trusted_anchors(), &p);
    assert!(!result.valid);
    assert_eq!(result.reasons, vec![ReasonCode::MissingRequestBinding]);
    assert!(result.disclosed_attributes.is_empty());

    assert!(verify(&response, &trusted_anchors(), &params()).valid);
}

#[test]
fn session_transcript_mismatch_fails_holder_binding() {
    let transcript_a = encode(&CborValue::Array(vec![CborValue::Integer(1.into())]));
    let transcript_b = encode(&CborValue::Array(vec![CborValue::Integer(2.into())]));
    let response = MdocBuilder::new().session_transcript(transcript_a).build();
    let p = MdocVerifyParams {
        now_unix: NOW,
        session_transcript: Some(&transcript_b),
        role: IssuerRole::Pid,
        statuses: &[StatusOutcome::NoStatus],
    };
    let result = verify(&response, &trusted_anchors(), &p);
    assert!(!result.valid);
    assert_eq!(result.reasons, vec![ReasonCode::HolderBinding]);
}

#[test]
fn device_signature_with_non_es256_alg_fails_holder_binding() {
    let response = MdocBuilder::new().device_sig_wrong_alg().build();
    let result = verify(&response, &trusted_anchors(), &params());
    assert!(!result.valid);
    assert_eq!(result.reasons, vec![ReasonCode::HolderBinding]);

    let baseline = MdocBuilder::new().build();
    assert!(verify(&baseline, &trusted_anchors(), &params()).valid);
}

#[test]
fn heterogeneous_element_values_decode_to_attribute_values() {
    let elements = vec![
        Element {
            digest_id: 0,
            identifier: "age",
            value: CborValue::Integer(42.into()),
        },
        Element {
            digest_id: 1,
            identifier: "portrait",
            value: CborValue::Bytes(vec![0xDE, 0xAD]),
        },
        Element {
            digest_id: 2,
            identifier: "tags",
            value: CborValue::Array(vec![CborValue::Text("a".to_owned()), CborValue::Null]),
        },
        Element {
            digest_id: 3,
            identifier: "address",
            value: CborValue::Map(vec![(
                CborValue::Text("city".to_owned()),
                CborValue::Text("London".to_owned()),
            )]),
        },
        Element {
            digest_id: 4,
            identifier: "absent",
            value: CborValue::Null,
        },
    ];
    let response = MdocBuilder::new().elements(elements).build();
    let result = verify(&response, &trusted_anchors(), &params());
    assert!(result.valid);

    assert_eq!(disclosed_attr(&result, "age"), Some(&AttributeValue::Integer(42)));
    assert_eq!(disclosed_attr(&result, "portrait"), Some(&AttributeValue::Bytes(vec![0xDE, 0xAD])));
    assert_eq!(
        disclosed_attr(&result, "tags"),
        Some(&AttributeValue::Array(vec![
            AttributeValue::Text("a".to_owned()),
            AttributeValue::Null,
        ])),
    );
    let mut want = TextMap::new();
    want.insert("city".to_owned(), AttributeValue::Text("London".to_owned()));
    assert_eq!(disclosed_attr(&result, "address"), Some(&AttributeValue::Fields(want)));
    assert_eq!(disclosed_attr(&result, "absent"), Some(&AttributeValue::Null));
}

#[test]
fn non_ec2_device_key_is_rejected_as_malformed() {
    let okp_key = CborValue::Map(vec![
        (CborValue::Integer(1.into()), CborValue::Integer(1.into())),
        (
            CborValue::Integer((-1).into()),
            CborValue::Integer(6.into()),
        ),
        (
            CborValue::Integer((-2).into()),
            CborValue::Bytes(vec![0u8; 32]),
        ),
    ]);
    let response = MdocBuilder::new().device_key_override(okp_key).build();
    let result = verify(&response, &trusted_anchors(), &params());
    assert!(!result.valid);
    assert_eq!(result.reasons, vec![ReasonCode::MalformedCredential]);
}

#[test]
fn wrong_curve_device_key_is_rejected_as_malformed() {
    let p384_key = CborValue::Map(vec![
        (CborValue::Integer(1.into()), CborValue::Integer(2.into())),
        (
            CborValue::Integer((-1).into()),
            CborValue::Integer(2.into()),
        ),
        (
            CborValue::Integer((-2).into()),
            CborValue::Bytes(vec![0u8; 48]),
        ),
        (
            CborValue::Integer((-3).into()),
            CborValue::Bytes(vec![0u8; 48]),
        ),
    ]);
    let response = MdocBuilder::new().device_key_override(p384_key).build();
    let result = verify(&response, &trusted_anchors(), &params());
    assert!(!result.valid);
    assert_eq!(result.reasons, vec![ReasonCode::MalformedCredential]);
}

#[test]
fn short_coordinate_device_key_is_rejected_as_malformed() {
    let short_key = CborValue::Map(vec![
        (CborValue::Integer(1.into()), CborValue::Integer(2.into())),
        (
            CborValue::Integer((-1).into()),
            CborValue::Integer(1.into()),
        ),
        (
            CborValue::Integer((-2).into()),
            CborValue::Bytes(vec![0u8; 10]),
        ),
        (
            CborValue::Integer((-3).into()),
            CborValue::Bytes(vec![0u8; 32]),
        ),
    ]);
    let response = MdocBuilder::new().device_key_override(short_key).build();
    let result = verify(&response, &trusted_anchors(), &params());
    assert!(!result.valid);
    assert_eq!(result.reasons, vec![ReasonCode::MalformedCredential]);
}

#[test]
fn default_params_are_offline_pid_at_epoch() {
    let p = MdocVerifyParams::default();
    assert_eq!(p.now_unix, 0);
    assert!(p.session_transcript.is_none());
    assert_eq!(p.role, IssuerRole::Pid);
    assert_eq!(p.statuses, [StatusOutcome::NoStatus]);
}

#[test]
fn revoked_status_is_rejected_as_revoked() {
    let response = MdocBuilder::new().build();
    let p = MdocVerifyParams {
        now_unix: NOW,
        session_transcript: None,
        role: IssuerRole::Pid,
        statuses: &[StatusOutcome::Revoked],
    };
    let result = verify(&response, &trusted_anchors(), &p);
    assert!(!result.valid);
    assert_eq!(result.reasons, vec![ReasonCode::Revoked]);
}

#[test]
fn unavailable_status_is_rejected_as_status_unavailable() {
    let response = MdocBuilder::new().build();
    let p = MdocVerifyParams {
        now_unix: NOW,
        session_transcript: None,
        role: IssuerRole::Pid,
        statuses: &[StatusOutcome::Unavailable],
    };
    let result = verify(&response, &trusted_anchors(), &p);
    assert!(!result.valid);
    assert_eq!(result.reasons, vec![ReasonCode::StatusUnavailable]);
}

#[test]
fn good_status_still_verifies() {
    let response = MdocBuilder::new().build();
    let transcript = default_session_transcript();
    let p = MdocVerifyParams {
        now_unix: NOW,
        session_transcript: Some(&transcript),
        role: IssuerRole::Pid,
        statuses: &[StatusOutcome::Good],
    };
    let result = verify(&response, &trusted_anchors(), &p);
    assert!(result.valid);
}

#[test]
fn multi_document_second_document_revoked_is_rejected_not_false_accepted() {
    let response = MdocBuilder::new()
        .append_colliding_document("nationality", CborValue::Text("NL".to_owned()))
        .build();
    let p = MdocVerifyParams {
        statuses: &[StatusOutcome::NoStatus, StatusOutcome::Revoked],
        ..params()
    };
    let result = verify(&response, &trusted_anchors(), &p);
    assert!(!result.valid);
    assert_eq!(result.reasons, vec![ReasonCode::Revoked]);
}

#[test]
fn multi_document_short_status_slice_fails_the_uncovered_document_closed() {
    let response = MdocBuilder::new()
        .append_colliding_document("nationality", CborValue::Text("NL".to_owned()))
        .build();
    let p = MdocVerifyParams {
        statuses: &[StatusOutcome::Good],
        ..params()
    };
    let result = verify(&response, &trusted_anchors(), &p);
    assert!(!result.valid);
    assert_eq!(result.reasons, vec![ReasonCode::StatusUnavailable]);
}

#[test]
fn sha512_digest_algorithm_verifies() {
    let response = MdocBuilder::new()
        .digest_algorithm(DigestAlg::Sha512)
        .build();
    let result = verify(&response, &trusted_anchors(), &params());
    assert!(result.valid);
}

#[test]
fn issuer_auth_non_es256_alg_is_rejected_as_tamper() {
    let response = MdocBuilder::new().issuer_auth_wrong_alg().build();
    let result = verify(&response, &trusted_anchors(), &params());
    assert!(!result.valid);
    assert_eq!(result.reasons, vec![ReasonCode::Tamper]);

    let baseline = MdocBuilder::new().build();
    assert!(verify(&baseline, &trusted_anchors(), &params()).valid);
}

#[test]
fn cose_der_encoded_issuer_auth_signature_is_rejected_raw_accepted() {
    let der = MdocBuilder::new().issuer_auth_der_signature().build();
    let result = verify(&der, &trusted_anchors(), &params());
    assert!(!result.valid);
    assert_eq!(result.reasons, vec![ReasonCode::Tamper]);

    let raw = MdocBuilder::new().build();
    assert!(verify(&raw, &trusted_anchors(), &params()).valid);
}

#[test]
fn tagged_issuer_auth_cose_sign1_verifies() {
    let response = MdocBuilder::new().tag_issuer_auth().build();
    let result = verify(&response, &trusted_anchors(), &params());
    assert!(result.valid);
}

#[test]
fn x5chain_as_array_resolves_the_leaf_cert() {
    let response = MdocBuilder::new().x5chain_as_array().build();
    let result = verify(&response, &trusted_anchors(), &params());
    assert!(result.valid);
}

#[test]
fn missing_x5chain_is_rejected_as_malformed() {
    let response = MdocBuilder::new().omit_x5chain().build();
    let result = verify(&response, &trusted_anchors(), &params());
    assert!(!result.valid);
    assert_eq!(result.reasons, vec![ReasonCode::MalformedCredential]);
}

#[test]
fn tdate_tagged_validity_dates_are_parsed() {
    let response = MdocBuilder::new().tdate_tagged().build();
    let result = verify(&response, &trusted_anchors(), &params());
    assert!(result.valid);
}

#[test]
fn mso_doc_type_mismatch_is_rejected_as_tamper() {
    let response = MdocBuilder::new().mso_doc_type_mismatch().build();
    let result = verify(&response, &trusted_anchors(), &params());
    assert!(!result.valid);
    assert_eq!(result.reasons, vec![ReasonCode::Tamper]);
}

#[test]
fn multi_document_response_with_a_forged_second_document_is_rejected() {
    let response = MdocBuilder::new().append_forged_document().build();
    let result = verify(&response, &trusted_anchors(), &params());
    assert!(!result.valid);
    assert_eq!(result.reasons, vec![ReasonCode::Tamper]);
    assert!(result.disclosed_attributes.is_empty());
}

#[test]
fn forged_item_reusing_a_genuine_digest_id_is_rejected_no_disclosure() {
    for forged_first in [true, false] {
        let response = MdocBuilder::new()
            .append_forged_item(
                0,
                "forged_claim",
                CborValue::Text("EVIL".to_owned()),
                forged_first,
            )
            .build();
        let result = verify(&response, &trusted_anchors(), &params());
        assert!(!result.valid);
        assert_eq!(result.reasons, vec![ReasonCode::DisclosureIntegrity]);
        assert!(result.disclosed_attributes.is_empty());
        assert!(disclosed_attr(&result, "forged_claim").is_none());
        assert_ne!(
            disclosed_attr(&result, "family_name"),
            Some(&AttributeValue::Text("EVIL".to_owned())),
        );
    }
}

#[test]
fn duplicate_digest_id_within_a_namespace_is_rejected() {
    let response = MdocBuilder::new()
        .elements(vec![
            Element {
                digest_id: 0,
                identifier: "family_name",
                value: CborValue::Text("Doe".to_owned()),
            },
            Element {
                digest_id: 0,
                identifier: "given_name",
                value: CborValue::Text("Ada".to_owned()),
            },
        ])
        .build();
    let result = verify(&response, &trusted_anchors(), &params());
    assert!(!result.valid);
    assert_eq!(result.reasons, vec![ReasonCode::DisclosureIntegrity]);
    assert!(result.disclosed_attributes.is_empty());
}

#[test]
fn cross_document_attribute_collision_is_rejected_no_silent_shadow() {
    let response = MdocBuilder::new()
        .append_colliding_document("given_name", CborValue::Text("EVIL".to_owned()))
        .build();
    let result = verify(&response, &trusted_anchors(), &params_two_docs());
    assert!(!result.valid);
    assert_eq!(result.reasons, vec![ReasonCode::DisclosureIntegrity]);
    assert!(result.disclosed_attributes.is_empty());
    assert_ne!(
        disclosed_attr(&result, "given_name"),
        Some(&AttributeValue::Text("EVIL".to_owned())),
    );
}

#[test]
fn cross_document_distinct_identifiers_merge_cleanly() {
    let response = MdocBuilder::new()
        .append_colliding_document("nationality", CborValue::Text("NL".to_owned()))
        .build();
    let result = verify(&response, &trusted_anchors(), &params_two_docs());
    assert!(result.valid);
    assert_eq!(
        disclosed_attr(&result, "given_name"),
        Some(&AttributeValue::Text("Ada".to_owned())),
    );
    assert_eq!(
        disclosed_attr(&result, "nationality"),
        Some(&AttributeValue::Text("NL".to_owned())),
    );
}

#[test]
fn cross_document_identical_redisclosure_is_accepted() {
    let response = MdocBuilder::new()
        .append_colliding_document("given_name", CborValue::Text("Ada".to_owned()))
        .build();
    let result = verify(&response, &trusted_anchors(), &params_two_docs());
    assert!(result.valid);
    assert_eq!(
        disclosed_attr(&result, "given_name"),
        Some(&AttributeValue::Text("Ada".to_owned())),
    );
}

#[test]
fn multi_namespace_same_id_different_values_is_valid_and_namespace_distinguished() {
    let response = MdocBuilder::new()
        .append_document_in_namespace(OTHER_NS, "given_name", CborValue::Text("Grace".to_owned()))
        .build();
    let result = verify(&response, &trusted_anchors(), &params_two_docs());
    assert!(result.valid);
    assert_eq!(
        disclosed_in(&result, DEFAULT_NS, "given_name"),
        Some(&AttributeValue::Text("Ada".to_owned())),
    );
    assert_eq!(
        disclosed_in(&result, OTHER_NS, "given_name"),
        Some(&AttributeValue::Text("Grace".to_owned())),
    );
    assert!(result.disclosed_attributes.contains_key(DEFAULT_NS));
    assert!(result.disclosed_attributes.contains_key(OTHER_NS));
}

#[test]
fn future_signed_mso_is_rejected_as_tamper() {
    let response = MdocBuilder::new().signed("2029-01-01T00:00:00Z").build();
    let result = verify(&response, &trusted_anchors(), &params());
    assert!(!result.valid);
    assert_eq!(result.reasons, vec![ReasonCode::Tamper]);
}

#[test]
fn signed_after_valid_from_is_rejected_as_tamper() {
    let response = MdocBuilder::new()
        .validity("2023-01-01T00:00:00Z", "2030-01-01T00:00:00Z")
        .signed("2023-06-01T00:00:00Z")
        .build();
    let result = verify(&response, &trusted_anchors(), &params());
    assert!(!result.valid);
    assert_eq!(result.reasons, vec![ReasonCode::Tamper]);
}

#[test]
fn non_zero_device_response_status_is_rejected() {
    let response = MdocBuilder::new().status(10).build();
    let result = verify(&response, &trusted_anchors(), &params());
    assert!(!result.valid);
    assert_eq!(result.reasons, vec![ReasonCode::MalformedCredential]);
}

#[test]
fn absent_device_response_status_is_rejected_as_malformed() {
    let response = MdocBuilder::new().omit_status().build();
    let result = verify(&response, &trusted_anchors(), &params());
    assert!(!result.valid);
    assert_eq!(result.reasons, vec![ReasonCode::MalformedCredential]);
}

#[test]
fn empty_documents_array_is_rejected_as_malformed() {
    let response = MdocBuilder::new().empty_documents().build();
    let result = verify(&response, &trusted_anchors(), &params());
    assert!(!result.valid);
    assert_eq!(result.reasons, vec![ReasonCode::MalformedCredential]);
}

#[test]
fn document_errors_present_does_not_reject_valid_returned_documents() {
    let response = MdocBuilder::new().add_document_errors().build();
    let result = verify(&response, &trusted_anchors(), &params());
    assert!(result.valid);
    assert!(result.reasons.is_empty());
    assert_eq!(
        disclosed_attr(&result, "given_name"),
        Some(&AttributeValue::Text("Ada".to_owned())),
    );
}

#[test]
fn a_response_with_no_documents_array_is_rejected_as_malformed() {
    let response = encode(&CborValue::Map(vec![(
        CborValue::Text("status".to_owned()),
        CborValue::Integer(0.into()),
    )]));
    let result = verify(&response, &trusted_anchors(), &params());
    assert!(!result.valid);
    assert_eq!(result.reasons, vec![ReasonCode::MalformedCredential]);
}

#[test]
fn device_binding_machinery_classifies_sound_vs_faulty() {
    assert_eq!(
        device_binding_machinery(&MdocBuilder::new().build()),
        DeviceBindingMachinery::Sound,
    );
    assert_eq!(
        device_binding_machinery(&MdocBuilder::new().corrupt_device_signature().build()),
        DeviceBindingMachinery::Sound,
    );

    assert_eq!(
        device_binding_machinery(&MdocBuilder::new().mangle_device_signature().build()),
        DeviceBindingMachinery::Faulty,
    );
    assert_eq!(
        device_binding_machinery(&MdocBuilder::new().device_sig_wrong_alg().build()),
        DeviceBindingMachinery::Faulty,
    );
    assert_eq!(device_binding_machinery(&[0xff, 0x00]), DeviceBindingMachinery::Faulty);
}

#[test]
fn verify_with_meta_surfaces_claimed_issuers_on_valid_and_binding_machinery_on_holder_failure() {
    let response = MdocBuilder::new().build();
    let (result, meta) = verify_with_meta(&response, &trusted_anchors(), &params());
    assert!(result.valid);
    assert_eq!(meta.document_count, 1);
    assert_eq!(meta.claimed_issuers.len(), 1);
    assert_eq!(meta.claimed_issuers[0].0, mdoc_ds_cert_der());
    assert_eq!(meta.claimed_issuers[0].1, 1_672_531_200);
    assert!(meta.binding_machinery.is_none());

    let wrong_transcript = encode(&CborValue::Array(vec![
        CborValue::Null,
        CborValue::Null,
        CborValue::Text("a-different-handover".to_owned()),
    ]));
    let mismatched = MdocVerifyParams {
        session_transcript: Some(&wrong_transcript),
        ..params()
    };
    let (result, meta) = verify_with_meta(&response, &trusted_anchors(), &mismatched);
    assert!(!result.valid);
    assert_eq!(result.reasons, vec![ReasonCode::HolderBinding]);
    assert_eq!(meta.document_count, 1);
    assert!(meta.claimed_issuers.is_empty());
    assert_eq!(meta.binding_machinery, Some(DeviceBindingMachinery::Sound));

    let mangled = MdocBuilder::new().mangle_device_signature().build();
    let (result, meta) = verify_with_meta(&mangled, &trusted_anchors(), &params());
    assert!(!result.valid);
    assert_eq!(result.reasons, vec![ReasonCode::HolderBinding]);
    assert_eq!(meta.binding_machinery, Some(DeviceBindingMachinery::Faulty));
}

#[test]
fn cose_sign1_with_unknown_critical_header_is_rejected_both_paths() {

    let issuer_crit = MdocBuilder::new().issuer_auth_unknown_crit().build();
    let result = verify(&issuer_crit, &trusted_anchors(), &params());
    assert!(!result.valid);
    assert_eq!(result.reasons, vec![ReasonCode::MalformedCredential]);

    let device_crit = MdocBuilder::new().device_sig_unknown_crit().build();
    let result = verify(&device_crit, &trusted_anchors(), &params());
    assert!(!result.valid);
    assert_eq!(result.reasons, vec![ReasonCode::MalformedCredential]);

    assert!(verify(&MdocBuilder::new().build(), &trusted_anchors(), &params()).valid);
}

#[test]
fn indefinite_length_device_response_is_rejected_as_malformed_no_panic() {
    let mut wire = vec![0xBF_u8];
    for (key, value) in [
        ("version", CborValue::Text("1.0".to_owned())),
        ("status", CborValue::Integer(0.into())),
    ] {
        wire.extend(encode(&CborValue::Text(key.to_owned())));
        wire.extend(encode(&value));
    }
    wire.push(0xFF);

    assert!(ciborium::from_reader::<CborValue, _>(wire.as_slice()).is_ok());

    let result = verify(&wire, &trusted_anchors(), &params());
    assert!(!result.valid);
    assert_eq!(result.reasons, vec![ReasonCode::MalformedCredential]);
}

#[test]
fn device_response_version_must_be_present_and_1_0() {
    let wrong = MdocBuilder::new().device_response_version("2.0").build();
    let result = verify(&wrong, &trusted_anchors(), &params());
    assert!(!result.valid);
    assert_eq!(result.reasons, vec![ReasonCode::MalformedCredential]);

    let absent = MdocBuilder::new().omit_device_response_version().build();
    let result = verify(&absent, &trusted_anchors(), &params());
    assert!(!result.valid);
    assert_eq!(result.reasons, vec![ReasonCode::MalformedCredential]);

    assert!(verify(&MdocBuilder::new().build(), &trusted_anchors(), &params()).valid);
}

#[test]
fn mso_version_must_be_present_and_1_0() {
    let wrong = MdocBuilder::new().mso_version("2.0").build();
    let result = verify(&wrong, &trusted_anchors(), &params());
    assert!(!result.valid);
    assert_eq!(result.reasons, vec![ReasonCode::MalformedCredential]);

    let absent = MdocBuilder::new().omit_mso_version().build();
    let result = verify(&absent, &trusted_anchors(), &params());
    assert!(!result.valid);
    assert_eq!(result.reasons, vec![ReasonCode::MalformedCredential]);

    assert!(verify(&MdocBuilder::new().build(), &trusted_anchors(), &params()).valid);
}

#[test]
fn the_issuer_part_is_checked_without_the_device() {
    let response = MdocBuilder::new().corrupt_device_signature().build();
    let without_transcript = MdocVerifyParams {
        session_transcript: None,
        ..params()
    };
    let attributes =
        verify_issuer_auth_against_vector(&response, &trusted_anchors(), &without_transcript)
            .expect("the issuer part holds");
    assert!(matches!(
        attributes.get(DEFAULT_NS),
        Some(AttributeValue::Fields(elements))
            if elements.get("family_name") == Some(&AttributeValue::Text("Doe".to_owned()))
    ));
    let late = MdocVerifyParams {
        now_unix: 4_000_000_000,
        ..params()
    };
    assert_eq!(
        verify_issuer_auth_against_vector(&response, &trusted_anchors(), &late).unwrap_err(),
        ReasonCode::Expired,
    );
    assert_eq!(
        verify_issuer_auth_against_vector(&response, &anchors_without_ds(), &params())
            .unwrap_err(),
        ReasonCode::UntrustedIssuer,
    );
}

#[test]
fn person_identification_data_is_verified_under_its_own_role() {
    let mut builder = MdocBuilder::new();
    builder.doc_type = "eu.europa.ec.eudi.pid.1".to_owned();
    let response = builder.build();
    assert!(verify(&response, &trusted_anchors(), &params()).valid);
    let anchors = trusted_anchors().trust(IssuerRole::Qeaa, Format::Mdoc, &mdoc_ds_cert_der());
    let other_role = MdocVerifyParams {
        role: IssuerRole::Qeaa,
        ..params()
    };
    let result = verify(&response, &anchors, &other_role);
    assert!(!result.valid);
    assert_eq!(result.reasons, vec![ReasonCode::RoleMismatch]);
}

/// A key of the test issuers and holders, from a fixed scalar.
fn key(scalar: u8) -> SigningKey {
    SigningKey::from_slice(&[scalar; 32]).expect("a scalar below the order")
}

fn issuer_key() -> SigningKey {
    key(1)
}

fn holder_key() -> SigningKey {
    key(2)
}

fn wrong_issuer_key() -> SigningKey {
    key(3)
}

fn der(tag: u8, content: &[u8]) -> Vec<u8> {
    let mut out = vec![tag];
    if content.len() < 128 {
        out.push(content.len() as u8);
    } else if content.len() < 256 {
        out.extend([0x81, content.len() as u8]);
    } else {
        out.extend([0x82, (content.len() >> 8) as u8, content.len() as u8]);
    }
    out.extend_from_slice(content);
    out
}

/// A self-signed certificate for a P-256 key.
fn certificate(key: &SigningKey, name: &str) -> Vec<u8> {
    let ecdsa_sha256 = der(0x30, &[0x06, 0x08, 0x2a, 0x86, 0x48, 0xce, 0x3d, 0x04, 0x03, 0x02]);
    let common_name = [vec![0x06, 0x03, 0x55, 0x04, 0x03], der(0x0c, name.as_bytes())].concat();
    let subject = der(0x30, &der(0x31, &der(0x30, &common_name)));
    let validity = der(
        0x30,
        &[der(0x17, b"200101000000Z"), der(0x17, b"400101000000Z")].concat(),
    );
    let ec_key = [
        vec![0x06, 0x07, 0x2a, 0x86, 0x48, 0xce, 0x3d, 0x02, 0x01],
        vec![0x06, 0x08, 0x2a, 0x86, 0x48, 0xce, 0x3d, 0x03, 0x01, 0x07],
    ]
    .concat();
    let point = key.verifying_key().to_encoded_point(false);
    let bits = [vec![0x00], point.as_bytes().to_vec()].concat();
    let public_key = der(0x30, &[der(0x30, &ec_key), der(0x03, &bits)].concat());
    let body = der(
        0x30,
        &[
            der(0xa0, &der(0x02, &[2])),
            der(0x02, &[1]),
            ecdsa_sha256.clone(),
            subject.clone(),
            validity,
            subject,
            public_key,
        ]
        .concat(),
    );
    let signature: Signature = key.sign(&body);
    let sealed = [vec![0x00], signature.to_der().as_bytes().to_vec()].concat();
    der(0x30, &[body, ecdsa_sha256, der(0x03, &sealed)].concat())
}

fn mdoc_ds_cert_der() -> Vec<u8> {
    certificate(&issuer_key(), "mdoc-ds")
}

fn wrong_issuer_cert_der() -> Vec<u8> {
    certificate(&wrong_issuer_key(), "wrong-issuer")
}

/// An element to disclose.
struct Element {
    digest_id: i64,
    identifier: &'static str,
    value: CborValue,
}

/// An item that reuses the digest of another.
struct ForgedItem {
    digest_id: i64,
    identifier: &'static str,
    value: CborValue,
    forged_first: bool,
}

#[derive(Clone, Copy)]
enum DigestAlg {
    Sha256,
    Sha384,
    Sha512,
    Unsupported,
}

impl DigestAlg {
    fn name(self) -> &'static str {
        match self {
            Self::Sha256 => "SHA-256",
            Self::Sha384 => "SHA-384",
            Self::Sha512 => "SHA-512",
            Self::Unsupported => "SHA-1",
        }
    }

    fn digest(self, data: &[u8]) -> Vec<u8> {
        match self {
            Self::Sha256 | Self::Unsupported => Sha256::digest(data).to_vec(),
            Self::Sha384 => Sha384::digest(data).to_vec(),
            Self::Sha512 => Sha512::digest(data).to_vec(),
        }
    }
}

fn default_session_transcript() -> Vec<u8> {
    encode(&CborValue::Array(vec![
        CborValue::Text("DeviceEngagement".to_owned()),
        CborValue::Text("EReaderKey".to_owned()),
        CborValue::Text("Handover".to_owned()),
    ]))
}

/// An issuer and a holder that mint a response, each deviation one switch.
struct MdocBuilder {
    doc_type: String,
    namespace: String,
    elements: Vec<Element>,
    signed: String,
    valid_from: String,
    valid_until: String,
    digest_algorithm: DigestAlg,
    corrupt_issuer_auth: bool,
    corrupt_value_digest: bool,
    use_wrong_issuer: bool,
    corrupt_device_signature: bool,
    device_key_override: Option<CborValue>,
    session_transcript: Option<Vec<u8>>,
    device_sig_wrong_alg: bool,
    mangle_device_signature: bool,
    device_signature_attached_payload: bool,
    issuer_auth_wrong_alg: bool,
    issuer_auth_der_signature: bool,
    issuer_auth_unknown_crit: bool,
    device_sig_unknown_crit: bool,
    tag_issuer_auth: bool,
    x5chain_as_array: bool,
    omit_x5chain: bool,
    tdate_tagged: bool,
    mso_doc_type_mismatch: bool,
    append_forged_document: bool,
    second_document: Option<CborValue>,
    status_override: Option<i64>,
    omit_status: bool,
    empty_documents: bool,
    add_document_errors: bool,
    response_version: Option<String>,
    mso_version: Option<String>,
    append_forged_item: Option<ForgedItem>,
}

impl MdocBuilder {
    fn new() -> Self {
        Self {
            doc_type: "org.iso.18013.5.1.mDL".to_owned(),
            namespace: "org.iso.18013.5.1".to_owned(),
            elements: vec![
                Element {
                    digest_id: 0,
                    identifier: "family_name",
                    value: CborValue::Text("Doe".to_owned()),
                },
                Element {
                    digest_id: 1,
                    identifier: "given_name",
                    value: CborValue::Text("Ada".to_owned()),
                },
                Element {
                    digest_id: 2,
                    identifier: "age_over_18",
                    value: CborValue::Bool(true),
                },
            ],
            signed: "2023-01-01T00:00:00Z".to_owned(),
            valid_from: "2023-01-01T00:00:00Z".to_owned(),
            valid_until: "2030-01-01T00:00:00Z".to_owned(),
            digest_algorithm: DigestAlg::Sha256,
            corrupt_issuer_auth: false,
            corrupt_value_digest: false,
            use_wrong_issuer: false,
            corrupt_device_signature: false,
            device_key_override: None,
            session_transcript: None,
            device_sig_wrong_alg: false,
            mangle_device_signature: false,
            device_signature_attached_payload: false,
            issuer_auth_wrong_alg: false,
            issuer_auth_der_signature: false,
            issuer_auth_unknown_crit: false,
            device_sig_unknown_crit: false,
            tag_issuer_auth: false,
            x5chain_as_array: false,
            omit_x5chain: false,
            tdate_tagged: false,
            mso_doc_type_mismatch: false,
            append_forged_document: false,
            second_document: None,
            status_override: None,
            omit_status: false,
            empty_documents: false,
            add_document_errors: false,
            response_version: Some("1.0".to_owned()),
            mso_version: Some("1.0".to_owned()),
            append_forged_item: None,
        }
    }

    fn append_forged_item(
        mut self,
        digest_id: i64,
        identifier: &'static str,
        value: CborValue,
        forged_first: bool,
    ) -> Self {
        self.append_forged_item = Some(ForgedItem {
            digest_id,
            identifier,
            value,
            forged_first,
        });
        self
    }

    fn empty_documents(mut self) -> Self {
        self.empty_documents = true;
        self
    }

    fn add_document_errors(mut self) -> Self {
        self.add_document_errors = true;
        self
    }

    fn append_forged_document(mut self) -> Self {
        self.append_forged_document = true;
        self
    }

    /// Append a second valid document with one element.
    fn append_colliding_document(mut self, identifier: &'static str, value: CborValue) -> Self {
        let one = Self::new().elements(vec![Element {
            digest_id: 0,
            identifier,
            value,
        }]);
        self.second_document = Some(first_document_of_response(&one.build()));
        self
    }

    /// Append a second valid document with one element in a namespace of its own.
    fn append_document_in_namespace(
        mut self,
        namespace: &str,
        identifier: &'static str,
        value: CborValue,
    ) -> Self {
        let mut one = Self::new().elements(vec![Element {
            digest_id: 0,
            identifier,
            value,
        }]);
        one.namespace = namespace.to_owned();
        self.second_document = Some(first_document_of_response(&one.build()));
        self
    }

    fn status(mut self, status: i64) -> Self {
        self.status_override = Some(status);
        self
    }

    fn omit_status(mut self) -> Self {
        self.omit_status = true;
        self
    }

    fn device_response_version(mut self, version: &str) -> Self {
        self.response_version = Some(version.to_owned());
        self
    }

    fn omit_device_response_version(mut self) -> Self {
        self.response_version = None;
        self
    }

    fn mso_version(mut self, version: &str) -> Self {
        self.mso_version = Some(version.to_owned());
        self
    }

    fn omit_mso_version(mut self) -> Self {
        self.mso_version = None;
        self
    }

    fn issuer_auth_wrong_alg(mut self) -> Self {
        self.issuer_auth_wrong_alg = true;
        self
    }

    fn issuer_auth_der_signature(mut self) -> Self {
        self.issuer_auth_der_signature = true;
        self
    }

    fn issuer_auth_unknown_crit(mut self) -> Self {
        self.issuer_auth_unknown_crit = true;
        self
    }

    fn device_sig_unknown_crit(mut self) -> Self {
        self.device_sig_unknown_crit = true;
        self
    }

    fn tag_issuer_auth(mut self) -> Self {
        self.tag_issuer_auth = true;
        self
    }

    fn x5chain_as_array(mut self) -> Self {
        self.x5chain_as_array = true;
        self
    }

    fn omit_x5chain(mut self) -> Self {
        self.omit_x5chain = true;
        self
    }

    fn tdate_tagged(mut self) -> Self {
        self.tdate_tagged = true;
        self
    }

    fn mso_doc_type_mismatch(mut self) -> Self {
        self.mso_doc_type_mismatch = true;
        self
    }

    fn elements(mut self, elements: Vec<Element>) -> Self {
        self.elements = elements;
        self
    }

    fn digest_algorithm(mut self, alg: DigestAlg) -> Self {
        self.digest_algorithm = alg;
        self
    }

    fn device_key_override(mut self, key: CborValue) -> Self {
        self.device_key_override = Some(key);
        self
    }

    fn session_transcript(mut self, transcript_bytes: Vec<u8>) -> Self {
        self.session_transcript = Some(transcript_bytes);
        self
    }

    fn device_sig_wrong_alg(mut self) -> Self {
        self.device_sig_wrong_alg = true;
        self
    }

    fn mangle_device_signature(mut self) -> Self {
        self.mangle_device_signature = true;
        self
    }

    fn device_signature_attached_payload(mut self) -> Self {
        self.device_signature_attached_payload = true;
        self
    }

    /// Set the window, and sign no later than it begins.
    fn validity(mut self, valid_from: &str, valid_until: &str) -> Self {
        if valid_from < self.signed.as_str() {
            self.signed = valid_from.to_owned();
        }
        self.valid_from = valid_from.to_owned();
        self.valid_until = valid_until.to_owned();
        self
    }

    fn signed(mut self, signed: &str) -> Self {
        self.signed = signed.to_owned();
        self
    }

    fn corrupt_issuer_auth(mut self) -> Self {
        self.corrupt_issuer_auth = true;
        self
    }

    fn corrupt_value_digest(mut self) -> Self {
        self.corrupt_value_digest = true;
        self
    }

    fn use_wrong_issuer(mut self) -> Self {
        self.use_wrong_issuer = true;
        self
    }

    fn corrupt_device_signature(mut self) -> Self {
        self.corrupt_device_signature = true;
        self
    }

    fn tdate(&self, instant: &str) -> CborValue {
        let text = CborValue::Text(instant.to_owned());
        if self.tdate_tagged {
            CborValue::Tag(0, Box::new(text))
        } else {
            text
        }
    }

    fn issuer_items(&self) -> (Vec<CborValue>, Vec<(CborValue, CborValue)>) {
        let mut items = Vec::new();
        let mut digests = Vec::new();
        for (index, element) in self.elements.iter().enumerate() {
            let item = signed_item(
                element.digest_id,
                index as u8,
                element.identifier,
                &element.value,
            );
            let mut digest = self.digest_algorithm.digest(&encode(&item));
            if self.corrupt_value_digest && index == 0 {
                digest[0] ^= 0xff;
            }
            digests.push((
                CborValue::Integer(element.digest_id.into()),
                CborValue::Bytes(digest),
            ));
            items.push(item);
        }
        if let Some(forged) = &self.append_forged_item {
            let item = signed_item(forged.digest_id, 0xaa, forged.identifier, &forged.value);
            if forged.forged_first {
                items.insert(0, item);
            } else {
                items.push(item);
            }
        }
        (items, digests)
    }

    fn mso(&self, digests: Vec<(CborValue, CborValue)>) -> CborValue {
        let point = holder_key().verifying_key().to_encoded_point(false);
        let device_key = match &self.device_key_override {
            Some(key) => key.clone(),
            None => cose_ec2_key(point.x().expect("x"), point.y().expect("y")),
        };
        let doc_type = if self.mso_doc_type_mismatch {
            format!("{}.other", self.doc_type)
        } else {
            self.doc_type.clone()
        };
        let mut entries = Vec::new();
        if let Some(version) = &self.mso_version {
            entries.push((text("version"), text(version)));
        }
        entries.push((text("digestAlgorithm"), text(self.digest_algorithm.name())));
        entries.push((
            text("valueDigests"),
            CborValue::Map(vec![(text(&self.namespace), CborValue::Map(digests))]),
        ));
        entries.push((
            text("deviceKeyInfo"),
            CborValue::Map(vec![(text("deviceKey"), device_key)]),
        ));
        entries.push((text("docType"), text(&doc_type)));
        entries.push((
            text("validityInfo"),
            CborValue::Map(vec![
                (text("signed"), self.tdate(&self.signed)),
                (text("validFrom"), self.tdate(&self.valid_from)),
                (text("validUntil"), self.tdate(&self.valid_until)),
            ]),
        ));
        CborValue::Map(entries)
    }

    fn issuer_auth(&self, mso: &CborValue) -> CborValue {
        let (issuer_key, issuer_cert) = if self.use_wrong_issuer {
            (wrong_issuer_key(), wrong_issuer_cert_der())
        } else {
            (issuer_key(), mdoc_ds_cert_der())
        };
        let alg = if self.issuer_auth_wrong_alg {
            coset::iana::Algorithm::ES384
        } else {
            coset::iana::Algorithm::ES256
        };
        let mut protected = HeaderBuilder::new().algorithm(alg);
        if self.issuer_auth_unknown_crit {
            protected = protected.add_critical(coset::iana::HeaderParameter::ContentType);
        }
        let mut unprotected = HeaderBuilder::new();
        if !self.omit_x5chain {
            let x5chain = if self.x5chain_as_array {
                CborValue::Array(vec![CborValue::Bytes(issuer_cert)])
            } else {
                CborValue::Bytes(issuer_cert)
            };
            unprotected = unprotected.value(33, x5chain);
        }
        let mut issuer_auth = CoseSign1Builder::new()
            .protected(protected.build())
            .unprotected(unprotected.build())
            .payload(encode(&tagged(encode(mso))))
            .create_signature(&[], |tbs| es256_sign(&issuer_key, tbs))
            .build();
        if self.corrupt_issuer_auth {
            issuer_auth.signature[0] ^= 0xff;
        }
        if self.issuer_auth_der_signature {
            let raw = Signature::from_slice(&issuer_auth.signature).expect("a raw signature");
            issuer_auth.signature = raw.to_der().as_bytes().to_vec();
        }
        let bytes = if self.tag_issuer_auth {
            issuer_auth.to_tagged_vec().expect("encode")
        } else {
            issuer_auth.to_vec().expect("encode")
        };
        decode(&bytes)
    }

    fn device_signature(&self, device_name_spaces: &CborValue) -> CborValue {
        let transcript = match &self.session_transcript {
            Some(transcript) => transcript.clone(),
            None => default_session_transcript(),
        };
        let payload = encode(&tagged(encode(&CborValue::Array(vec![
            text("DeviceAuthentication"),
            decode(&transcript),
            text(&self.doc_type),
            device_name_spaces.clone(),
        ]))));
        let signing_key = if self.corrupt_device_signature {
            wrong_issuer_key()
        } else {
            holder_key()
        };
        let alg = if self.device_sig_wrong_alg {
            coset::iana::Algorithm::ES384
        } else {
            coset::iana::Algorithm::ES256
        };
        let mut protected = HeaderBuilder::new().algorithm(alg);
        if self.device_sig_unknown_crit {
            protected = protected.add_critical(coset::iana::HeaderParameter::ContentType);
        }
        let mut signature = CoseSign1Builder::new()
            .protected(protected.build())
            .create_detached_signature(&payload, &[], |tbs| es256_sign(&signing_key, tbs))
            .build();
        if self.mangle_device_signature {
            signature.signature.truncate(10);
        }
        if self.device_signature_attached_payload {
            signature.payload = Some(vec![0x01]);
        }
        decode(&signature.to_vec().expect("encode"))
    }

    fn build(self) -> Vec<u8> {
        let (items, digests) = self.issuer_items();
        let issuer_auth = self.issuer_auth(&self.mso(digests));
        let device_name_spaces = tagged(encode(&CborValue::Map(vec![])));
        let device_signature = self.device_signature(&device_name_spaces);
        let issuer_signed = CborValue::Map(vec![
            (
                text("nameSpaces"),
                CborValue::Map(vec![(text(&self.namespace), CborValue::Array(items))]),
            ),
            (text("issuerAuth"), issuer_auth),
        ]);
        let device_signed = CborValue::Map(vec![
            (text("nameSpaces"), device_name_spaces),
            (
                text("deviceAuth"),
                CborValue::Map(vec![(text("deviceSignature"), device_signature)]),
            ),
        ]);
        let document = CborValue::Map(vec![
            (text("docType"), text(&self.doc_type)),
            (text("issuerSigned"), issuer_signed),
            (text("deviceSigned"), device_signed),
        ]);
        let mut documents = Vec::new();
        if !self.empty_documents {
            documents.push(document.clone());
        }
        if self.append_forged_document {
            documents.push(map_replace(&document, "issuerSigned", |issuer_signed| {
                map_replace(issuer_signed, "issuerAuth", break_signature)
            }));
        }
        if let Some(second) = self.second_document {
            documents.push(second);
        }
        let mut entries = Vec::new();
        if let Some(version) = &self.response_version {
            entries.push((text("version"), text(version)));
        }
        entries.push((text("documents"), CborValue::Array(documents)));
        if !self.omit_status {
            entries.push((
                text("status"),
                CborValue::Integer(self.status_override.unwrap_or(0).into()),
            ));
        }
        if self.add_document_errors {
            entries.push((
                text("documentErrors"),
                CborValue::Array(vec![CborValue::Map(vec![(
                    text("org.iso.18013.5.1.mDL"),
                    CborValue::Integer(0.into()),
                )])]),
            ));
        }
        encode(&CborValue::Map(entries))
    }
}

/// `#6.24(bstr)` around the fields of an issuer-signed item.
fn signed_item(digest_id: i64, salt: u8, identifier: &str, value: &CborValue) -> CborValue {
    tagged(encode(&CborValue::Map(vec![
        (text("digestID"), CborValue::Integer(digest_id.into())),
        (text("random"), CborValue::Bytes(vec![salt; 16])),
        (text("elementIdentifier"), text(identifier)),
        (text("elementValue"), value.clone()),
    ])))
}

fn first_document_of_response(response: &[u8]) -> CborValue {
    let root = decode(response);
    let documents = cbor_get(&root, "documents").expect("documents");
    documents.as_array().expect("an array")[0].clone()
}

fn break_signature(issuer_auth: &CborValue) -> CborValue {
    let mut sign1 = coset::CoseSign1::from_slice(&encode(issuer_auth)).expect("a COSE_Sign1");
    sign1.signature[0] ^= 0xff;
    decode(&sign1.to_vec().expect("encode"))
}

/// Replace the value under a text key.
fn map_replace(
    value: &CborValue,
    key: &str,
    f: impl FnOnce(&CborValue) -> CborValue,
) -> CborValue {
    let mut entries = value.as_map().expect("a map").clone();
    let at = entries
        .iter()
        .position(|(k, _)| k.as_text() == Some(key))
        .expect("the key");
    let replaced = f(&entries[at].1);
    entries[at].1 = replaced;
    CborValue::Map(entries)
}

fn cbor_get<'a>(value: &'a CborValue, key: &str) -> Option<&'a CborValue> {
    value
        .as_map()?
        .iter()
        .find(|(k, _)| k.as_text() == Some(key))
        .map(|(_, v)| v)
}

fn text(value: &str) -> CborValue {
    CborValue::Text(value.to_owned())
}

fn tagged(inner: Vec<u8>) -> CborValue {
    CborValue::Tag(24, Box::new(CborValue::Bytes(inner)))
}

fn encode(value: &CborValue) -> Vec<u8> {
    let mut buf = Vec::new();
    ciborium::into_writer(value, &mut buf).expect("encode");
    buf
}

fn decode(bytes: &[u8]) -> CborValue {
    ciborium::from_reader(bytes).expect("decode")
}

fn es256_sign(key: &SigningKey, tbs: &[u8]) -> Vec<u8> {
    let signature: Signature = key.sign(tbs);
    signature.to_bytes().to_vec()
}

fn cose_ec2_key(x: &[u8], y: &[u8]) -> CborValue {
    CborValue::Map(vec![
        (CborValue::Integer(1.into()), CborValue::Integer(2.into())),
        (CborValue::Integer((-1).into()), CborValue::Integer(1.into())),
        (CborValue::Integer((-2).into()), CborValue::Bytes(x.to_vec())),
        (CborValue::Integer((-3).into()), CborValue::Bytes(y.to_vec())),
    ])
}
