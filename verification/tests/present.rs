//! Presenting held attestations.

use attestation::cbor::CborValue as Item;
use attestation::issuance::device::empty_device_name_spaces_bytes;
use attestation::issuance::present::mdoc::{
    first_device_name_spaces_bytes, issuer_signed_item_identifier, reencode_device_name_spaces,
    replace_device_signature,
};
use attestation::issuance::present::places::{escape_json_pointer, index_disclosures};
use attestation::issuance::present::sd_jwt::SdDisclosure;
use attestation::issuance::present::selection::pointers_to_conceal;
use attestation::issuance::present::walk::disclosure_places;
use attestation::issuance::present::{
    prepare_present, present, HeldAttestation, HolderPresentation, PresentError,
};
use attestation::issuance::signer::{HolderContext, Signer, SigningInput};
use attestation::json::parse;
use attestation::mdoc::verify::{verify_with_meta, MdocVerifyParams};
use attestation::openid4vp::{
    oid4vp_handover_transcript, Dcql, PresentationRequest, VpToken,
};
use attestation::status::StatusOutcome;
use attestation::text_map::TextMap;
use attestation::trust::StaticTestAnchors;
use attestation::types::{
    AttributeValue, Format, IssuerRole, ReasonCode, VerificationResult,
};
use base64ct::{Base64UrlUnpadded, Encoding as _};
use ciborium::value::Value as CborValue;
use coset::{CborSerializable, CoseSign1Builder, HeaderBuilder};
use p256::ecdsa::{
    signature::{Signer as _, Verifier as _},
    Signature, SigningKey,
};
use sd_jwt_payload::{JwsSigner, RequiredKeyBinding, SdJwt, SdJwtBuilder, Sha256Hasher};
use serde_json::Value;
use sha2::{Digest as _, Sha256};
use std::cell::RefCell;
use std::collections::{BTreeMap, BTreeSet};
use std::future::Future;
use std::pin::Pin;
use std::task::{Context, Poll, Waker};

const NOW: i64 = 1_700_000_000;
const AUDIENCE: &str = "https://verifier.example/cb";
const RESPONSE_URI: &str = "https://verifier.example/cb/response";
const HOLDER_HANDLE: &str = "holder-handle";
const DEFAULT_NS: &str = "org.iso.18013.5.1";
const SIBLING_NS: &str = "org.eu.test.shared";

struct StubHsm;

impl Signer for StubHsm {
    type Error = String;

    fn sign(&self, _handle: &str, input: &SigningInput) -> Result<Vec<u8>, String> {
        Ok(es256_sign(&holder_key(), input.to_be_signed()))
    }
}

struct FailingSigner;

impl Signer for FailingSigner {
    type Error = String;

    fn sign(&self, _handle: &str, _input: &SigningInput) -> Result<Vec<u8>, String> {
        Err("HSM refused".to_owned())
    }
}

/// A key store that signs under one handle only, and records the handle it was given.
struct HandleAssertingHsm {
    seen_handle: RefCell<Option<String>>,
}

impl Signer for HandleAssertingHsm {
    type Error = String;

    fn sign(&self, handle: &str, input: &SigningInput) -> Result<Vec<u8>, String> {
        *self.seen_handle.borrow_mut() = Some(handle.to_owned());
        if handle != HOLDER_HANDLE {
            return Err(format!("wrong key handle: {handle:?}"));
        }
        Ok(es256_sign(&holder_key(), input.to_be_signed()))
    }
}

fn holder_ctx_with(handle: &str) -> HolderContext {
    let jwk = parse(&serde_json::to_vec(&holder_jwk()).unwrap()).unwrap();
    HolderContext::new(jwk, handle.to_owned())
}

fn request(nonce: &[u8]) -> PresentationRequest {
    PresentationRequest {
        dcql: Dcql::from_json("{}"),
        nonce: nonce.to_vec(),
        audience: AUDIENCE.to_owned(),
        response_uri: RESPONSE_URI.to_owned(),
    }
}

fn subset(names: &[&str]) -> Vec<String> {
    names.iter().map(|name| (*name).to_owned()).collect()
}

fn presented(
    held: &HeldAttestation,
    request: &PresentationRequest,
    names: &[&str],
) -> Result<HolderPresentation, PresentError> {
    present(held, request, &holder_ctx_with(HOLDER_HANDLE), &subset(names), &StubHsm, NOW)
}

fn held_sd_jwt() -> HeldAttestation {
    HeldAttestation::SdJwtVc {
        issued: mint_sd_jwt(),
    }
}

fn held_mdoc() -> HeldAttestation {
    HeldAttestation::Mdoc {
        device_response: MdocBuilder::new().build(),
    }
}

fn sd_jwt_token(vp: &HolderPresentation) -> &str {
    match vp.as_vp_token() {
        VpToken::SdJwtVc(token) => token,
        VpToken::Mdoc(_) => panic!("expected an SD-JWT VC"),
    }
}

fn sd_jwt_claims(
    vp: &HolderPresentation,
    request: &PresentationRequest,
) -> Option<serde_json::Map<String, Value>> {
    verified_claims(sd_jwt_token(vp), &request.audience, &request.nonce_b64())
}

/// Verify an mdoc presentation against a request.
fn mdoc_result(vp: &HolderPresentation, request: &PresentationRequest) -> VerificationResult {
    let VpToken::Mdoc(token) = vp.as_vp_token() else {
        panic!("expected an mdoc");
    };
    let transcript =
        oid4vp_handover_transcript(&request.audience, &request.nonce, &request.response_uri);
    let anchors =
        StaticTestAnchors::new().trust(IssuerRole::Pid, Format::Mdoc, &mdoc_ds_cert_der());
    let params = MdocVerifyParams {
        now_unix: 1_700_000_000,
        session_transcript: Some(&transcript),
        role: IssuerRole::Pid,
        statuses: &[StatusOutcome::NoStatus],
    };
    verify_with_meta(token.device_response, &anchors, &params).0
}

fn disclosed_elements<'a>(
    result: &'a VerificationResult,
    namespace: &str,
) -> &'a TextMap<AttributeValue> {
    match result.disclosed_attributes.get(namespace) {
        Some(AttributeValue::Fields(elements)) => elements,
        _ => panic!("expected the elements of {namespace}"),
    }
}

fn item(value: &CborValue) -> Item {
    attestation::cbor::decode(&encode(value)).unwrap()
}

#[test]
fn sd_jwt_vc_present_discloses_only_the_subset_and_verifies_under_us1() {
    let request = request(b"vp-nonce-aaaa");
    let vp = presented(&held_sd_jwt(), &request, &["given_name"]).expect("present");
    let claims = sd_jwt_claims(&vp, &request).expect("a valid presentation");
    assert!(claims.contains_key("given_name"));
    assert!(!claims.contains_key("family_name"));
    assert!(!claims.contains_key("birthdate"));
}

#[test]
fn sd_jwt_vc_present_full_disclosure_verifies_with_all_attributes() {
    let request = request(b"vp-nonce-bbbb");
    let names = ["given_name", "family_name", "birthdate"];
    let vp = presented(&held_sd_jwt(), &request, &names).expect("present");
    let claims = sd_jwt_claims(&vp, &request).expect("a valid presentation");
    assert_eq!(names.iter().filter(|name| claims.contains_key(**name)).count(), 3);
    assert_eq!(sd_jwt_token(&vp).split('~').count(), 5);
}

#[test]
fn sd_jwt_vc_present_rejects_a_non_disclosable_claim() {
    let err = presented(&held_sd_jwt(), &request(b"n"), &["not_a_claim"]).unwrap_err();
    assert!(matches!(err, PresentError::UndisclosableClaim(c) if c == "not_a_claim"));
}

#[test]
fn sd_jwt_vc_present_wrong_nonce_is_rejected_by_the_verifier() {
    let built_for = request(b"nonce-one");
    let vp = presented(&held_sd_jwt(), &built_for, &["given_name"]).expect("present");
    assert!(sd_jwt_claims(&vp, &built_for).is_some());
    assert!(sd_jwt_claims(&vp, &request(b"nonce-two")).is_none());
}

#[test]
fn present_malformed_held_credential_is_an_error() {
    let held = HeldAttestation::SdJwtVc {
        issued: "not-an-sd-jwt".to_owned(),
    };
    let err = presented(&held, &request(b"n"), &[]).unwrap_err();
    assert!(matches!(err, PresentError::Malformed(_)));
}

fn mint_with_array_disclosures() -> String {
    issue(
        r#"{"iss":"https://issuer.example/cb","given_name":"Ada","nationalities":["NL","DE"]}"#,
        &["/given_name", "/nationalities/0", "/nationalities/1"],
    )
}

/// The array elements whose disclosures are in a token.
fn disclosed_array_values(token: &str) -> Vec<String> {
    token
        .split('~')
        .filter_map(|part| Base64UrlUnpadded::decode_vec(part).ok())
        .filter_map(|bytes| serde_json::from_slice::<Vec<Value>>(&bytes).ok())
        .filter(|parts| parts.len() == 2)
        .filter_map(|parts| parts[1].as_str().map(str::to_owned))
        .collect()
}

#[test]
fn sd_jwt_vc_present_conceals_array_element_disclosures_outside_the_subset() {
    let held = HeldAttestation::SdJwtVc {
        issued: mint_with_array_disclosures(),
    };
    let request = request(b"array-ns-nonce");

    let vp = presented(&held, &request, &["given_name"]).expect("present");
    assert!(!disclosed_array_values(sd_jwt_token(&vp))
        .iter()
        .any(|v| v == "NL" || v == "DE"));
    let claims = sd_jwt_claims(&vp, &request).expect("a valid presentation");
    assert!(claims.contains_key("given_name"));

    let vp_full = presented(&held, &request, &["given_name", "nationalities"]).expect("present");
    let disclosed = disclosed_array_values(sd_jwt_token(&vp_full));
    assert!(disclosed.iter().any(|v| v == "NL") && disclosed.iter().any(|v| v == "DE"));
}

#[test]
fn sd_jwt_vc_present_nested_pid_discloses_one_branch_without_leaking_its_sibling_leaf() {
    let held = HeldAttestation::SdJwtVc {
        issued: issue(
            r#"{"iss":"https://issuer.example/cb",
                "address":{"locality":"London"},"place_of_birth":{"locality":"Paris"}}"#,
            &[
                "/address/locality",
                "/address",
                "/place_of_birth/locality",
                "/place_of_birth",
            ],
        ),
    };
    let request = request(b"nested-pid-nonce");
    let vp = presented(&held, &request, &["address/locality"]).expect("present");
    let claims = sd_jwt_claims(&vp, &request).expect("a valid presentation");
    let london: Value = serde_json::from_str(r#"{"locality":"London"}"#).unwrap();
    assert_eq!(claims.get("address"), Some(&london));
    assert!(!claims.contains_key("place_of_birth"));
}

#[test]
fn mdoc_present_discloses_only_the_requested_element_and_prunes_the_rest() {
    let request = request(b"mdoc-prune-nonce");
    let vp = presented(&held_mdoc(), &request, &["org.iso.18013.5.1/family_name"]).expect("present");
    let result = mdoc_result(&vp, &request);
    assert!(result.valid);
    let elements = disclosed_elements(&result, DEFAULT_NS);
    assert!(elements.contains_key("family_name"));
    assert!(!elements.contains_key("given_name"));
    assert!(!elements.contains_key("age_over_18"));
    assert_eq!(elements.entries.len(), 1);
}

#[test]
fn mdoc_present_rejects_a_non_disclosable_element() {
    let err = presented(&held_mdoc(), &request(b"n"), &["not_an_element"]).unwrap_err();
    assert!(matches!(&err, PresentError::UndisclosableClaim(c) if c == "not_an_element"));
}

const ALL_ELEMENTS: [&str; 3] = [
    "org.iso.18013.5.1/family_name",
    "org.iso.18013.5.1/given_name",
    "org.iso.18013.5.1/age_over_18",
];

#[test]
fn mdoc_present_binds_to_the_request_and_verifies_under_us1() {
    let request = request(b"mdoc-vp-nonce");
    let vp = presented(&held_mdoc(), &request, &ALL_ELEMENTS).expect("present");
    let result = mdoc_result(&vp, &request);
    assert!(result.valid);
    assert!(disclosed_elements(&result, DEFAULT_NS).contains_key("family_name"));
}

#[test]
fn mdoc_present_with_non_empty_device_namespaces_verifies_under_us1() {
    let held = HeldAttestation::Mdoc {
        device_response: with_device_namespaces(
            &MdocBuilder::new().build(),
            "org.iso.18013.5.1",
            "device_signed_marker",
            text("present"),
        ),
    };
    let request = request(b"mdoc-dev-ns-nonce");
    let vp = presented(&held, &request, &ALL_ELEMENTS).expect("present");
    assert!(mdoc_result(&vp, &request).valid);
}

/// Change the one document of a response.
fn with_document(device_response: &[u8], f: impl Fn(&CborValue) -> CborValue) -> Vec<u8> {
    let rebuilt = map_replace(&decode(device_response), "documents", |documents| {
        CborValue::Array(documents.as_array().unwrap().iter().map(&f).collect())
    });
    encode(&rebuilt)
}

fn with_device_namespaces(
    device_response: &[u8],
    namespace: &str,
    element: &str,
    value: CborValue,
) -> Vec<u8> {
    let name_spaces = CborValue::Map(vec![(
        text(namespace),
        CborValue::Map(vec![(text(element), value)]),
    )]);
    with_document(device_response, |document| {
        map_replace(document, "deviceSigned", |device_signed| {
            map_replace(device_signed, "nameSpaces", |_| tagged(encode(&name_spaces)))
        })
    })
}

#[test]
fn mdoc_present_wrong_audience_is_rejected_by_the_verifier() {
    let built_for = request(b"mdoc-vp-nonce");
    let vp = presented(&held_mdoc(), &built_for, &ALL_ELEMENTS).expect("present");
    let other = PresentationRequest {
        dcql: Dcql::from_json("{}"),
        nonce: built_for.nonce,
        audience: "https://other-verifier.example".to_owned(),
        response_uri: RESPONSE_URI.to_owned(),
    };
    let VpToken::Mdoc(token) = vp.as_vp_token() else {
        panic!("expected an mdoc");
    };
    assert_eq!(token.audience, AUDIENCE);
    assert_ne!(token.audience, other.audience);
    let result = mdoc_result(&vp, &other);
    assert!(!result.valid);
    assert_eq!(result.reasons, vec![ReasonCode::HolderBinding]);
}

#[test]
fn present_malformed_held_mdoc_is_an_error() {
    let held = HeldAttestation::Mdoc {
        device_response: vec![0xbf, 0x00],
    };
    let err = presented(&held, &request(b"n"), &[]).unwrap_err();
    assert!(matches!(err, PresentError::Malformed(_)));
}

#[test]
fn present_multi_document_held_mdoc_is_rejected() {
    let held = HeldAttestation::Mdoc {
        device_response: MdocBuilder::new()
            .append_colliding_document("nationality", text("NL"))
            .build(),
    };
    let err = presented(&held, &request(b"multi-doc-nonce"), &[]).unwrap_err();
    assert!(matches!(err, PresentError::MultiDocumentMdoc(2)));
    assert_eq!(
        err.message(),
        "the held mdoc carries 2 documents; the holder present seam binds a single document \
         (present each credential separately)",
    );
}

#[test]
fn present_mdoc_without_a_documents_array_is_an_error() {
    let held = HeldAttestation::Mdoc {
        device_response: encode(&CborValue::Map(vec![(text("version"), text("1.0"))])),
    };
    let err = presented(&held, &request(b"n"), &[]).unwrap_err();
    assert!(matches!(err, PresentError::Malformed(_)));
}

#[test]
fn present_threads_the_holder_key_handle_to_the_signer() {
    let request = request(b"handle-thread-nonce");
    let hsm = HandleAssertingHsm {
        seen_handle: RefCell::new(None),
    };
    let vp = present(
        &held_sd_jwt(),
        &request,
        &holder_ctx_with(HOLDER_HANDLE),
        &subset(&["given_name"]),
        &hsm,
        NOW,
    )
    .expect("present");
    assert_eq!(hsm.seen_handle.into_inner().as_deref(), Some(HOLDER_HANDLE));
    assert!(sd_jwt_claims(&vp, &request).is_some());
}

#[test]
fn present_with_an_empty_handle_signer_fails_proving_the_handle_is_load_bearing() {
    let hsm = HandleAssertingHsm {
        seen_handle: RefCell::new(None),
    };
    let err = present(
        &held_sd_jwt(),
        &request(b"n"),
        &holder_ctx_with("some-other-handle"),
        &subset(&["given_name"]),
        &hsm,
        NOW,
    )
    .unwrap_err();
    assert!(matches!(&err, PresentError::Signer(m) if m.contains("wrong key handle")));
    assert_eq!(hsm.seen_handle.into_inner().as_deref(), Some("some-other-handle"));
}

#[test]
fn present_propagates_a_signer_error() {
    let err = present(
        &held_sd_jwt(),
        &request(b"n"),
        &holder_ctx_with(HOLDER_HANDLE),
        &subset(&["given_name"]),
        &FailingSigner,
        NOW,
    )
    .unwrap_err();
    assert_eq!(err.message(), "the holder signer-hook failed: HSM refused");
    assert!(matches!(err, PresentError::Signer(m) if m.contains("HSM refused")));
}

#[test]
fn finish_rejects_a_wrong_length_signature_for_both_formats() {
    let prepared =
        prepare_present(&held_sd_jwt(), &request(b"n"), &subset(&["given_name"]), NOW).unwrap();
    assert!(matches!(
        prepared.finish(&[0u8; 10]).unwrap_err(),
        PresentError::Build(_)
    ));
    let prepared = prepare_present(&held_mdoc(), &request(b"n"), &subset(&[]), NOW).unwrap();
    assert!(matches!(
        prepared.finish(&[0u8; 10]).unwrap_err(),
        PresentError::Build(_)
    ));
}

#[test]
fn reencode_device_name_spaces_rejects_a_non_tagged_or_non_bstr_value() {
    let bare = item(&CborValue::Map(vec![]));
    assert!(matches!(
        reencode_device_name_spaces(&bare).unwrap_err(),
        PresentError::Malformed(_)
    ));
    let tag_over_text = item(&CborValue::Tag(24, Box::new(text("x"))));
    assert!(matches!(
        reencode_device_name_spaces(&tag_over_text).unwrap_err(),
        PresentError::Malformed(_)
    ));
    let good = CborValue::Tag(24, Box::new(CborValue::Bytes(vec![1, 2, 3])));
    assert_eq!(reencode_device_name_spaces(&item(&good)).unwrap(), encode(&good));
}

#[test]
fn first_device_name_spaces_bytes_defaults_to_empty_when_absent() {
    let response = CborValue::Map(vec![(
        text("documents"),
        CborValue::Array(vec![CborValue::Map(vec![(
            text("deviceSigned"),
            CborValue::Map(vec![]),
        )])]),
    )]);
    assert_eq!(
        first_device_name_spaces_bytes(&item(&response)).expect("default"),
        empty_device_name_spaces_bytes().expect("empty"),
    );
}

#[test]
fn array_element_paths_recurse_through_nested_and_non_redaction_items() {
    let held = HeldAttestation::SdJwtVc {
        issued: issue(
            r#"{"iss":"https://issuer.example/cb","given_name":"Ada",
                "profile":{"tags":["alpha","beta"]}}"#,
            &["/given_name", "/profile/tags/0"],
        ),
    };
    let request = request(b"nested-array-nonce");
    let vp = presented(&held, &request, &["given_name"]).expect("present");
    assert!(!disclosed_array_values(sd_jwt_token(&vp)).iter().any(|v| v == "alpha"));

    let vp_full = presented(&held, &request, &["given_name", "profile"]).expect("present");
    assert!(disclosed_array_values(sd_jwt_token(&vp_full)).iter().any(|v| v == "alpha"));
}

#[test]
fn finish_rejects_a_wire_injected_multi_document_prepared_mdoc() {
    let two_docs = CborValue::Map(vec![(
        text("documents"),
        CborValue::Array(vec![CborValue::Map(Vec::new()), CborValue::Map(Vec::new())]),
    )]);
    let err = replace_device_signature(&item(&two_docs), &encode(&CborValue::Null)).unwrap_err();
    assert!(matches!(err, PresentError::MultiDocumentMdoc(2)));
}

/// The elements that an mdoc presentation discloses, by namespace.
fn wire_namespaces(vp: &HolderPresentation) -> BTreeMap<String, BTreeSet<String>> {
    let HolderPresentation::Mdoc {
        device_response, ..
    } = vp
    else {
        panic!("expected an mdoc");
    };
    let document = first_document_of_response(device_response);
    let name_spaces = cbor_get(cbor_get(&document, "issuerSigned").unwrap(), "nameSpaces").unwrap();
    let mut out = BTreeMap::<String, BTreeSet<String>>::new();
    for (namespace, items) in name_spaces.as_map().unwrap() {
        let entry = out.entry(namespace.as_text().unwrap().to_owned()).or_default();
        for element in items.as_array().unwrap() {
            if let Some(id) = issuer_signed_item_identifier(&item(element)) {
                entry.insert(id);
            }
        }
    }
    out
}

fn with_second_issuer_namespace(
    device_response: &[u8],
    namespace: &str,
    element_id: &str,
    value: CborValue,
) -> Vec<u8> {
    with_document(device_response, |document| {
        map_replace(document, "issuerSigned", |issuer_signed| {
            map_replace(issuer_signed, "nameSpaces", |name_spaces| {
                let mut entries = name_spaces.as_map().unwrap().clone();
                entries.push((
                    text(namespace),
                    CborValue::Array(vec![signed_item(0, 0x11, element_id, &value)]),
                ));
                CborValue::Map(entries)
            })
        })
    })
}

#[test]
fn mdoc_present_qualified_selector_prunes_the_same_id_in_a_sibling_namespace() {
    let held = HeldAttestation::Mdoc {
        device_response: with_second_issuer_namespace(
            &MdocBuilder::new().build(),
            SIBLING_NS,
            "family_name",
            text("Sibling"),
        ),
    };
    let request = request(b"mdoc-xns-nonce");
    let vp = presented(&held, &request, &["org.iso.18013.5.1/family_name"]).expect("present");
    let disclosed = wire_namespaces(&vp);
    assert!(disclosed
        .get("org.iso.18013.5.1")
        .is_some_and(|ids| ids.contains("family_name")));
    assert!(!disclosed.contains_key(SIBLING_NS));
    assert_eq!(disclosed.get("org.iso.18013.5.1").map(BTreeSet::len), Some(1));
    assert!(mdoc_result(&vp, &request).valid);

    let sibling_selector = format!("{SIBLING_NS}/family_name");
    let vp_sibling = presented(&held, &request, &[sibling_selector.as_str()]).expect("present");
    let disclosed_sibling = wire_namespaces(&vp_sibling);
    assert!(disclosed_sibling
        .get(SIBLING_NS)
        .is_some_and(|ids| ids.contains("family_name")));
    assert!(!disclosed_sibling.contains_key("org.iso.18013.5.1"));
}

#[test]
fn mdoc_present_rejects_an_unqualified_or_wrong_namespace_disclose_entry() {
    let bare = presented(&held_mdoc(), &request(b"n"), &["family_name"]).unwrap_err();
    assert!(matches!(&bare, PresentError::UndisclosableClaim(c) if c == "family_name"));
    let wrong_ns =
        presented(&held_mdoc(), &request(b"n"), &["org.wrong.ns/family_name"]).unwrap_err();
    assert!(
        matches!(&wrong_ns, PresentError::UndisclosableClaim(c) if c == "org.wrong.ns/family_name")
    );
}

#[test]
fn replace_device_signature_requires_the_splice_targets_to_exist() {
    let signature = encode(&CborValue::Null);
    let device_ns = tagged(encode(&CborValue::Map(vec![])));
    let refused = |response: CborValue| {
        replace_device_signature(&item(&response), &signature).unwrap_err()
    };

    let no_device_auth = CborValue::Map(vec![(
        text("documents"),
        CborValue::Array(vec![CborValue::Map(vec![
            (text("docType"), text("x")),
            (
                text("deviceSigned"),
                CborValue::Map(vec![(text("nameSpaces"), device_ns)]),
            ),
        ])]),
    )]);
    assert!(matches!(refused(no_device_auth), PresentError::Malformed(_)));

    let no_device_signed = CborValue::Map(vec![(
        text("documents"),
        CborValue::Array(vec![CborValue::Map(vec![(text("docType"), text("x"))])]),
    )]);
    assert!(matches!(refused(no_device_signed), PresentError::Malformed(_)));

    let empty_documents =
        CborValue::Map(vec![(text("documents"), CborValue::Array(vec![]))]);
    assert!(matches!(refused(empty_documents), PresentError::Malformed(_)));

    let no_documents = CborValue::Map(vec![(text("version"), text("1.0"))]);
    assert!(matches!(refused(no_documents), PresentError::Malformed(_)));
}

#[test]
fn present_mdoc_lacking_device_auth_finishes_with_an_error_not_an_unsigned_token() {
    let stripped = with_document(&MdocBuilder::new().build(), |document| {
        map_replace(document, "deviceSigned", |device_signed| {
            let kept = device_signed
                .as_map()
                .unwrap()
                .iter()
                .filter(|(k, _)| k.as_text() != Some("deviceAuth"))
                .cloned()
                .collect();
            CborValue::Map(kept)
        })
    });
    let held = HeldAttestation::Mdoc {
        device_response: stripped,
    };
    let names = ["org.iso.18013.5.1/family_name"];
    let err = presented(&held, &request(b"no-device-auth-nonce"), &names).unwrap_err();
    assert!(matches!(err, PresentError::Malformed(_)));
}

#[test]
fn the_first_of_several_unknown_selectors_is_named() {
    let names = ["zeta", "org.iso.18013.5.1/family_name", "alpha", "beta"];
    let err = presented(&held_mdoc(), &request(b"n"), &names).unwrap_err();
    assert_eq!(err, PresentError::UndisclosableClaim("alpha".to_owned()));
    let names = ["zeta", "given_name", "alpha", "beta"];
    let err = presented(&held_sd_jwt(), &request(b"n"), &names).unwrap_err();
    assert_eq!(err, PresentError::UndisclosableClaim("alpha".to_owned()));
}

#[test]
fn another_hash_algorithm_is_refused() {
    let payload = Base64UrlUnpadded::encode_string(br#"{"_sd_alg":"sha-512"}"#);
    let issued = format!("e30.{payload}.AA~");
    let held = HeldAttestation::SdJwtVc { issued };
    let err = presented(&held, &request(b"n"), &[]).unwrap_err();
    assert_eq!(
        err.message(),
        "failed to build the presentation: invalid hasher: hasher \"sha-256\" was provided, \
         but \"sha-512 is required\"",
    );
}

#[test]
fn pointers_are_escaped_and_places_are_found() {
    assert_eq!(escape_json_pointer("a~b/c"), "a~0b~1c");
    let name = "WyJzIiwiYSIsMV0";
    let digest = Base64UrlUnpadded::encode_string(&Sha256::digest(name.as_bytes()));
    let claims = parse(format!(r#"{{"x/y":{{"_sd":["{digest}"]}}}}"#).as_bytes()).unwrap();
    let disclosures = vec![SdDisclosure {
        text: name.to_owned(),
        claim_name: Some("a".to_owned()),
        claim_value: parse(b"1").unwrap(),
    }];
    let found = disclosure_places(&claims, &disclosures);
    let places = found.listed();
    assert_eq!(places.len(), 1);
    assert_eq!(places[0].position, 0);
    assert_eq!(places[0].pointer, "/x~1y/a");
    assert_eq!(places[0].selector, "x~1y/a");
    let pointers = |names: &[&str]| {
        pointers_to_conceal(&claims, &disclosures, &found, &subset(names))
    };
    assert_eq!(pointers(&[]), vec!["/x~1y/a".to_owned()]);
    assert!(pointers(&["x~1y/a"]).is_empty());
}

#[test]
fn a_place_that_no_pointer_reaches_is_refused() {
    let held = HeldAttestation::SdJwtVc {
        issued: issue(r#"{"a/b":{"c":1}}"#, &["/a~1b/c"]),
    };
    let err = presented(&held, &request(b"n"), &[]).unwrap_err();
    assert!(matches!(&err, PresentError::Build(m) if m.starts_with("invalid path: ")));
    assert!(presented(&held, &request(b"n"), &["a~1b/c"]).is_ok());
}

#[test]
fn a_claim_that_nothing_refers_to_is_presented_only_when_selected() {
    let stray = "WyJzYWx0IiwiYiIsMl0";
    let held = HeldAttestation::SdJwtVc {
        issued: format!("{}{stray}~", issue(r#"{"a":1}"#, &["/a"])),
    };
    let err = presented(&held, &request(b"n"), &["a"]).unwrap_err();
    assert!(matches!(&err, PresentError::Build(m) if m.starts_with("invalid path: ")));
    let vp = presented(&held, &request(b"n"), &["b"]).expect("present");
    let HolderPresentation::SdJwtVc { vp_token } = vp else {
        panic!("an SD-JWT VC presentation")
    };
    assert!(vp_token.contains(stray));
}

#[test]
fn preparing_twice_gives_the_same_input_to_sign() {
    let request = request(b"twice");
    for (held, name) in [
        (held_sd_jwt(), "family_name"),
        (held_mdoc(), "org.iso.18013.5.1/family_name"),
    ] {
        let first = prepare_present(&held, &request, &subset(&[name]), NOW).expect("prepare");
        let second = prepare_present(&held, &request, &subset(&[name]), NOW).expect("prepare");
        assert_eq!(first.signing_input(), second.signing_input());
        let other = prepare_present(&held, &self::request(b"once"), &subset(&[name]), NOW);
        assert_ne!(first.signing_input(), other.expect("prepare").signing_input());
    }
}

#[test]
fn a_place_that_is_referred_to_twice_is_listed_once() {
    let disclosure = SdDisclosure {
        text: "WyJzYWx0IiwiYiIsMl0".to_owned(),
        claim_name: Some("b".to_owned()),
        claim_value: parse(b"2").unwrap(),
    };
    let digest = attestation::crypto::sd_hash(&disclosure.text);
    let claims = format!(r#"{{"_sd":["{digest}","{digest}"]}}"#);
    let claims = parse(claims.as_bytes()).unwrap();
    let places = disclosure_places(&claims, &vec![disclosure]).listed();
    assert_eq!(places.len(), 1);
    assert_eq!(places[0].pointer, "/b");
    assert_eq!(places[0].selector, "b");
}

/// An SD-JWT with these claims and disclosures, under a signature that nobody checks.
fn assembled(claims: &str, disclosures: &[String]) -> HeldAttestation {
    let part = |text: &str| Base64UrlUnpadded::encode_string(text.as_bytes());
    let mut issued = format!("{}.{}.AAAA~", part(r#"{"alg":"ES256"}"#), part(claims));
    for disclosure in disclosures {
        issued.push_str(disclosure);
        issued.push('~');
    }
    HeldAttestation::SdJwtVc { issued }
}

fn disclosure_of(json: &str) -> (String, String) {
    let text = Base64UrlUnpadded::encode_string(json.as_bytes());
    let digest = Base64UrlUnpadded::encode_string(&Sha256::digest(text.as_bytes()));
    (text, digest)
}

fn token_of(held: &HeldAttestation, names: &[&str]) -> String {
    match presented(held, &request(b"n"), names) {
        Ok(HolderPresentation::SdJwtVc { vp_token }) => vp_token,
        other => panic!("not presented: {other:?}"),
    }
}

#[test]
fn a_flat_name_that_extends_another_by_a_slash_is_shown_alone() {
    let (short, short_digest) = disclosure_of(r#"["s1","a",1]"#);
    let (long, long_digest) = disclosure_of(r#"["s2","a/b",2]"#);
    let claims = format!(r#"{{"_sd":["{short_digest}","{long_digest}"]}}"#);
    let held = assembled(&claims, &[short.clone(), long.clone()]);
    let token = token_of(&held, &["a/b"]);
    assert!(token.contains(&long));
    assert!(!token.contains(&short));
    let both = token_of(&held, &["a", "a/b"]);
    assert!(both.contains(&long) && both.contains(&short));
}

#[test]
fn a_long_chain_of_disclosures_is_presented() {
    let (mut text, mut digest) = disclosure_of(r#"["s","x",1]"#);
    let leaf = text.clone();
    let mut disclosures = vec![text];
    for depth in 0..1200 {
        let json = format!(r#"["{depth}","x",{{"_sd":["{digest}","{digest}"]}}]"#);
        (text, digest) = disclosure_of(&json);
        disclosures.push(text);
    }
    let held = assembled(&format!(r#"{{"_sd":["{digest}","{digest}"]}}"#), &disclosures);
    assert!(!token_of(&held, &[]).contains(&leaf));
    let path = vec!["x"; 1201].join("/");
    let token = token_of(&held, &[&path]);
    assert!(disclosures.iter().all(|disclosure| token.contains(disclosure)));
}

#[test]
fn a_value_that_is_referred_to_twice_is_not_looked_into() {
    let (inner, inner_digest) = disclosure_of(r#"["s1",1]"#);
    let (outer, outer_digest) = disclosure_of(&format!(
        r#"["s2",[{{"...":"{inner_digest}"}}]]"#
    ));
    let claims = format!(
        r#"{{"a":[{{"...":"{outer_digest}"}}],"b":[{{"...":"{outer_digest}"}}]}}"#
    );
    let held = assembled(&claims, &[inner.clone(), outer.clone()]);
    let token = token_of(&held, &["a", "b"]);
    assert!(token.contains(&inner) && token.contains(&outer));
    let token = token_of(&held, &["a"]);
    assert!(!token.contains(&inner) && !token.contains(&outer));
}

#[test]
fn one_disclosure_is_kept_for_each_digest() {
    let disclosure = |text: &str, value: &str| SdDisclosure {
        text: text.to_owned(),
        claim_name: None,
        claim_value: parse(value.as_bytes()).unwrap(),
    };
    let kept = index_disclosures(vec![
        disclosure("x", "1"),
        disclosure("y", "2"),
        disclosure("x", "3"),
    ]);
    let texts: Vec<&str> = kept.iter().map(|d| d.text.as_str()).collect();
    assert_eq!(texts, vec!["x", "y"]);
    assert_eq!(attestation::json::to_bytes(&kept[0].claim_value), b"3".to_vec());
}

#[test]
fn a_selected_leaf_keeps_its_branch_and_nothing_else() {
    let held = HeldAttestation::SdJwtVc {
        issued: issue(
            r#"{"person":{"name":"Ada","tags":["x","y"],"home":{"city":"London","zip":"1"}}}"#,
            &[
                "/person/home/city",
                "/person/home/zip",
                "/person/home",
                "/person/tags/0",
                "/person/name",
                "/person",
            ],
        ),
    };
    let request = request(b"leaf");
    let vp = presented(&held, &request, &["person/home/city"]).expect("present");
    let claims = sd_jwt_claims(&vp, &request).expect("a valid presentation");
    let expected: Value =
        serde_json::from_str(r#"{"tags":["y"],"home":{"city":"London"}}"#).unwrap();
    assert_eq!(claims.get("person"), Some(&expected));
}

#[test]
fn an_empty_selection_discloses_nothing() {
    let request = request(b"nothing");
    let vp = presented(&held_sd_jwt(), &request, &[]).expect("present");
    assert_eq!(sd_jwt_token(&vp).split('~').count(), 2);
    let vp = presented(&held_mdoc(), &request, &[]).expect("present");
    assert!(wire_namespaces(&vp).is_empty());
}

/// An issuer and a holder that mint a response.
struct MdocBuilder {
    elements: Vec<(&'static str, CborValue)>,
    second_document: Option<CborValue>,
}

impl MdocBuilder {
    fn new() -> Self {
        Self {
            elements: vec![
                ("family_name", text("Doe")),
                ("given_name", text("Ada")),
                ("age_over_18", CborValue::Bool(true)),
            ],
            second_document: None,
        }
    }

    /// Append a second valid document with one element.
    fn append_colliding_document(mut self, identifier: &'static str, value: CborValue) -> Self {
        let one = Self {
            elements: vec![(identifier, value)],
            second_document: None,
        };
        self.second_document = Some(first_document_of_response(&one.build()));
        self
    }

    fn mso(&self, digests: Vec<(CborValue, CborValue)>) -> CborValue {
        let point = holder_key().verifying_key().to_encoded_point(false);
        let device_key = cose_ec2_key(point.x().unwrap(), point.y().unwrap());
        CborValue::Map(vec![
            (text("version"), text("1.0")),
            (text("digestAlgorithm"), text("SHA-256")),
            (
                text("valueDigests"),
                CborValue::Map(vec![(text(DEFAULT_NS), CborValue::Map(digests))]),
            ),
            (
                text("deviceKeyInfo"),
                CborValue::Map(vec![(text("deviceKey"), device_key)]),
            ),
            (text("docType"), text("org.iso.18013.5.1.mDL")),
            (
                text("validityInfo"),
                CborValue::Map(vec![
                    (text("signed"), text("2023-01-01T00:00:00Z")),
                    (text("validFrom"), text("2023-01-01T00:00:00Z")),
                    (text("validUntil"), text("2030-01-01T00:00:00Z")),
                ]),
            ),
        ])
    }

    fn build(self) -> Vec<u8> {
        let mut items = Vec::new();
        let mut digests = Vec::new();
        for (index, (identifier, value)) in self.elements.iter().enumerate() {
            let item = signed_item(index as i64, index as u8, identifier, value);
            digests.push((
                CborValue::Integer(index.into()),
                CborValue::Bytes(Sha256::digest(encode(&item)).to_vec()),
            ));
            items.push(item);
        }
        let es256 = HeaderBuilder::new()
            .algorithm(coset::iana::Algorithm::ES256)
            .build();
        let x5chain = HeaderBuilder::new()
            .value(33, CborValue::Bytes(mdoc_ds_cert_der()))
            .build();
        let issuer_auth = CoseSign1Builder::new()
            .protected(es256)
            .unprotected(x5chain)
            .payload(encode(&tagged(encode(&self.mso(digests)))))
            .create_signature(&[], |tbs| es256_sign(&issuer_key(), tbs))
            .build();
        let document = CborValue::Map(vec![
            (text("docType"), text("org.iso.18013.5.1.mDL")),
            (
                text("issuerSigned"),
                CborValue::Map(vec![
                    (
                        text("nameSpaces"),
                        CborValue::Map(vec![(text(DEFAULT_NS), CborValue::Array(items))]),
                    ),
                    (text("issuerAuth"), decode(&issuer_auth.to_vec().unwrap())),
                ]),
            ),
            (
                text("deviceSigned"),
                CborValue::Map(vec![
                    (text("nameSpaces"), tagged(encode(&CborValue::Map(vec![])))),
                    (
                        text("deviceAuth"),
                        CborValue::Map(vec![(text("deviceSignature"), CborValue::Null)]),
                    ),
                ]),
            ),
        ]);
        let mut documents = vec![document];
        documents.extend(self.second_document);
        encode(&CborValue::Map(vec![
            (text("version"), text("1.0")),
            (text("documents"), CborValue::Array(documents)),
            (text("status"), CborValue::Integer(0.into())),
        ]))
    }
}

/// A key of the test issuers and holders, from a fixed scalar.
fn key(scalar: u8) -> SigningKey {
    SigningKey::from_slice(&[scalar; 32]).expect("a scalar below the order")
}

fn issuer_key() -> SigningKey {
    key(1)
}

fn holder_key() -> SigningKey {
    key(2)
}

fn der(tag: u8, content: &[u8]) -> Vec<u8> {
    let mut out = vec![tag];
    if content.len() < 128 {
        out.push(content.len() as u8);
    } else if content.len() < 256 {
        out.extend([0x81, content.len() as u8]);
    } else {
        out.extend([0x82, (content.len() >> 8) as u8, content.len() as u8]);
    }
    out.extend_from_slice(content);
    out
}

/// A self-signed certificate for a P-256 key.
fn certificate(key: &SigningKey, name: &str) -> Vec<u8> {
    let ecdsa_sha256 = der(0x30, &[0x06, 0x08, 0x2a, 0x86, 0x48, 0xce, 0x3d, 0x04, 0x03, 0x02]);
    let common_name = [vec![0x06, 0x03, 0x55, 0x04, 0x03], der(0x0c, name.as_bytes())].concat();
    let subject = der(0x30, &der(0x31, &der(0x30, &common_name)));
    let validity = der(
        0x30,
        &[der(0x17, b"200101000000Z"), der(0x17, b"400101000000Z")].concat(),
    );
    let ec_key = [
        vec![0x06, 0x07, 0x2a, 0x86, 0x48, 0xce, 0x3d, 0x02, 0x01],
        vec![0x06, 0x08, 0x2a, 0x86, 0x48, 0xce, 0x3d, 0x03, 0x01, 0x07],
    ]
    .concat();
    let point = key.verifying_key().to_encoded_point(false);
    let bits = [vec![0x00], point.as_bytes().to_vec()].concat();
    let public_key = der(0x30, &[der(0x30, &ec_key), der(0x03, &bits)].concat());
    let body = der(
        0x30,
        &[
            der(0xa0, &der(0x02, &[2])),
            der(0x02, &[1]),
            ecdsa_sha256.clone(),
            subject.clone(),
            validity,
            subject,
            public_key,
        ]
        .concat(),
    );
    let signature: Signature = key.sign(&body);
    let sealed = [vec![0x00], signature.to_der().as_bytes().to_vec()].concat();
    der(0x30, &[body, ecdsa_sha256, der(0x03, &sealed)].concat())
}

fn mdoc_ds_cert_der() -> Vec<u8> {
    certificate(&issuer_key(), "mdoc-ds")
}

/// A signer of the issuer's JWS.
struct IssuerSigner;

impl JwsSigner for IssuerSigner {
    type Error = String;

    fn sign<'a, 'b, 'c, 'out>(
        &'a self,
        header: &'b serde_json::Map<String, Value>,
        payload: &'c serde_json::Map<String, Value>,
    ) -> Pin<Box<dyn Future<Output = Result<Vec<u8>, String>> + Send + 'out>>
    where
        'a: 'out,
        'b: 'out,
        'c: 'out,
        Self: 'out,
    {
        let head = Base64UrlUnpadded::encode_string(&serde_json::to_vec(header).unwrap());
        let body = Base64UrlUnpadded::encode_string(&serde_json::to_vec(payload).unwrap());
        let input = format!("{head}.{body}");
        let signature: Signature = issuer_key().sign(input.as_bytes());
        let tail = Base64UrlUnpadded::encode_string(&signature.to_bytes());
        Box::pin(std::future::ready(Ok(format!("{input}.{tail}").into_bytes())))
    }
}

/// The result of a future that never waits.
fn block_on<F: Future>(future: F) -> F::Output {
    let mut pinned = Box::pin(future);
    let mut context = Context::from_waker(Waker::noop());
    match pinned.as_mut().poll(&mut context) {
        Poll::Ready(output) => output,
        Poll::Pending => panic!("the future waits"),
    }
}

/// The public key of the holder as a JWK.
fn holder_jwk() -> Value {
    let point = holder_key().verifying_key().to_encoded_point(false);
    let x = Base64UrlUnpadded::encode_string(point.x().unwrap());
    let y = Base64UrlUnpadded::encode_string(point.y().unwrap());
    let text = format!(r#"{{"kty":"EC","crv":"P-256","x":"{x}","y":"{y}"}}"#);
    serde_json::from_str(&text).unwrap()
}

/// Issue an SD-JWT VC with the claims at the pointers concealable, bound to the holder's key.
fn issue(claims: &str, pointers: &[&str]) -> String {
    let claims: Value = serde_json::from_str(claims).unwrap();
    let mut builder = SdJwtBuilder::new(claims).unwrap();
    builder = builder.header("typ", "dc+sd-jwt");
    for pointer in pointers {
        builder = builder.make_concealable(pointer).unwrap();
    }
    let key = holder_jwk().as_object().unwrap().clone();
    builder = builder.require_key_binding(RequiredKeyBinding::Jwk(key));
    block_on(builder.finish(&IssuerSigner, "ES256")).unwrap().presentation()
}

/// An SD-JWT VC with three concealable claims.
fn mint_sd_jwt() -> String {
    issue(
        r#"{"iss":"https://issuer.example/cb",
            "vct":"https://credentials.example/identity_credential",
            "given_name":"Ada","family_name":"Lovelace","birthdate":"1815-12-10"}"#,
        &["/given_name", "/family_name", "/birthdate"],
    )
}

fn segment(text: &str) -> Value {
    serde_json::from_slice(&Base64UrlUnpadded::decode_vec(text).unwrap()).unwrap()
}

/// Whether a compact JWS is signed by a key.
fn jws_holds(jws: &str, key: &SigningKey) -> bool {
    let (input, tail) = jws.rsplit_once('.').unwrap();
    let signature = Signature::from_slice(&Base64UrlUnpadded::decode_vec(tail).unwrap()).unwrap();
    key.verifying_key().verify(input.as_bytes(), &signature).is_ok()
}

/// Check the issuer's signature, the key binding and its audience, nonce and hash; then put the
/// disclosed claims in their places.
fn verified_claims(token: &str, audience: &str, nonce: &str) -> Option<serde_json::Map<String, Value>> {
    let (prefix, kb_jwt) = token.rsplit_once('~')?;
    let prefix = format!("{prefix}~");
    let issuer_jws = prefix.split('~').next()?;
    let claims = segment(kb_jwt.split('.').nth(1)?);
    let hash = Base64UrlUnpadded::encode_string(&Sha256::digest(prefix.as_bytes()));
    if !jws_holds(issuer_jws, &issuer_key())
        || !jws_holds(kb_jwt, &holder_key())
        || claims["aud"] != *audience
        || claims["nonce"] != *nonce
        || claims["sd_hash"] != hash
    {
        return None;
    }
    let sd_jwt = SdJwt::parse(&prefix).ok()?;
    sd_jwt.into_disclosed_object(&Sha256Hasher::new()).ok()
}

/// `#6.24(bstr)` around the fields of an issuer-signed item.
fn signed_item(digest_id: i64, salt: u8, identifier: &str, value: &CborValue) -> CborValue {
    tagged(encode(&CborValue::Map(vec![
        (text("digestID"), CborValue::Integer(digest_id.into())),
        (text("random"), CborValue::Bytes(vec![salt; 16])),
        (text("elementIdentifier"), text(identifier)),
        (text("elementValue"), value.clone()),
    ])))
}

fn first_document_of_response(response: &[u8]) -> CborValue {
    let root = decode(response);
    let documents = cbor_get(&root, "documents").expect("documents");
    documents.as_array().expect("an array")[0].clone()
}

/// Replace the value under a text key.
fn map_replace(
    value: &CborValue,
    key: &str,
    f: impl FnOnce(&CborValue) -> CborValue,
) -> CborValue {
    let mut entries = value.as_map().expect("a map").clone();
    let at = entries
        .iter()
        .position(|(k, _)| k.as_text() == Some(key))
        .expect("the key");
    let replaced = f(&entries[at].1);
    entries[at].1 = replaced;
    CborValue::Map(entries)
}

fn cbor_get<'a>(value: &'a CborValue, key: &str) -> Option<&'a CborValue> {
    value
        .as_map()?
        .iter()
        .find(|(k, _)| k.as_text() == Some(key))
        .map(|(_, v)| v)
}

fn text(value: &str) -> CborValue {
    CborValue::Text(value.to_owned())
}

fn tagged(inner: Vec<u8>) -> CborValue {
    CborValue::Tag(24, Box::new(CborValue::Bytes(inner)))
}

fn encode(value: &CborValue) -> Vec<u8> {
    let mut buf = Vec::new();
    ciborium::into_writer(value, &mut buf).expect("encode");
    buf
}

fn decode(bytes: &[u8]) -> CborValue {
    ciborium::from_reader(bytes).expect("decode")
}

fn es256_sign(key: &SigningKey, tbs: &[u8]) -> Vec<u8> {
    let signature: Signature = key.sign(tbs);
    signature.to_bytes().to_vec()
}

fn cose_ec2_key(x: &[u8], y: &[u8]) -> CborValue {
    CborValue::Map(vec![
        (CborValue::Integer(1.into()), CborValue::Integer(2.into())),
        (CborValue::Integer((-1).into()), CborValue::Integer(1.into())),
        (CborValue::Integer((-2).into()), CborValue::Bytes(x.to_vec())),
        (CborValue::Integer((-3).into()), CborValue::Bytes(y.to_vec())),
    ])
}
