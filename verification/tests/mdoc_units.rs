//! The parts of the mdoc verifier, one by one.

use attestation::cbor::{
    integer_label, unwrap_tagged_cbor_payload, CborValue, TAG_ENCODED_CBOR,
};
use attestation::mdoc::attributes::{cbor_to_attribute, insert_no_shadow, DisclosedByNamespace};
use attestation::mdoc::cose::{
    cose_alg_is_es256, ds_chain_from_x5chain, parse_cose_sign1, CoseSign1, COSE_HEADER_X5CHAIN,
};
use attestation::mdoc::cursor::CborCursor;
use attestation::mdoc::digests::DigestAlgorithm;
use attestation::mdoc::items::scan_raw_issuer_items;
use attestation::mdoc::mso::{find_key_label, tdate_field};
use attestation::mdoc::verify::{verify_with_meta, MdocVerifyParams};
use attestation::text_map::TextMap;
use attestation::trust::StaticTestAnchors;
use attestation::types::{AttributeValue, ReasonCode};
use ciborium::Value;
use coset::{iana::Algorithm, CborSerializable as _, CoseSign1Builder, HeaderBuilder};
use sha2::{Digest as _, Sha256};

const NS: &str = "org.iso.18013.5.1";
const OTHER_NS: &str = "org.example.other";
const DEPTH: usize = 500_000;

/// A value as an item of the library.
fn item(value: &Value) -> CborValue {
    let mut bytes = Vec::new();
    ciborium::into_writer(value, &mut bytes).unwrap();
    attestation::cbor::decode(&bytes).unwrap()
}

/// A COSE_Sign1 as the library parses it.
fn parsed(sign1: &coset::CoseSign1) -> CoseSign1 {
    let bytes = sign1.clone().to_vec().unwrap();
    parse_cose_sign1(&attestation::cbor::decode(&bytes).unwrap()).unwrap()
}

fn byte_string(value: &CborValue) -> Option<Vec<u8>> {
    match value {
        CborValue::Bytes(bytes) => Some(bytes.clone()),
        _ => None,
    }
}

#[test]
fn cose_alg_gate_accepts_only_es256() {
    let es256 = CoseSign1Builder::new()
        .protected(HeaderBuilder::new().algorithm(Algorithm::ES256).build())
        .signature(vec![0; 64])
        .build();
    assert!(cose_alg_is_es256(&parsed(&es256)));

    let es384 = CoseSign1Builder::new()
        .protected(HeaderBuilder::new().algorithm(Algorithm::ES384).build())
        .signature(vec![0; 64])
        .build();
    assert!(!cose_alg_is_es256(&parsed(&es384)));

    let no_alg = CoseSign1Builder::new().signature(vec![0; 64]).build();
    assert!(!cose_alg_is_es256(&parsed(&no_alg)));
}

fn ns_attr<'a>(
    map: &'a DisclosedByNamespace,
    namespace: &str,
    id: &str,
) -> Option<&'a AttributeValue> {
    map.get(namespace).and_then(|ns_map| ns_map.get(id))
}

#[test]
fn insert_no_shadow_inserts_accepts_idempotent_rejects_conflict() {
    let mut map: DisclosedByNamespace = TextMap::new();
    assert!(
        insert_no_shadow(
        &mut map,
        NS,
        "given_name".to_owned(),
        AttributeValue::Text("Ada".to_owned())
    )
    .is_ok(),
    );
    assert_eq!(ns_attr(&map, NS, "given_name"), Some(&AttributeValue::Text("Ada".to_owned())));
    assert!(
        insert_no_shadow(
        &mut map,
        NS,
        "given_name".to_owned(),
        AttributeValue::Text("Ada".to_owned())
    )
    .is_ok(),
    );
    assert_eq!(ns_attr(&map, NS, "given_name"), Some(&AttributeValue::Text("Ada".to_owned())));
    let err = insert_no_shadow(
        &mut map,
        NS,
        "given_name".to_owned(),
        AttributeValue::Text("EVIL".to_owned()),
    )
    .unwrap_err();
    assert_eq!(err.reason, ReasonCode::DisclosureIntegrity);
    assert_eq!(ns_attr(&map, NS, "given_name"), Some(&AttributeValue::Text("Ada".to_owned())));
    assert!(
        insert_no_shadow(
        &mut map,
        NS,
        "nationality".to_owned(),
        AttributeValue::Text("NL".to_owned())
    )
    .is_ok(),
    );
    assert!(
        insert_no_shadow(
        &mut map,
        OTHER_NS,
        "given_name".to_owned(),
        AttributeValue::Text("Grace".to_owned())
    )
    .is_ok(),
    );
    assert_eq!(ns_attr(&map, NS, "given_name"), Some(&AttributeValue::Text("Ada".to_owned())));
    assert_eq!(
        ns_attr(&map, OTHER_NS, "given_name"),
        Some(&AttributeValue::Text("Grace".to_owned())),
    );
    assert_eq!(map.entries.len(), 2);
}

#[test]
fn digest_algorithm_parses_the_iso_names() {
    assert_eq!(DigestAlgorithm::from_name("SHA-256"), Some(DigestAlgorithm::Sha256));
    assert_eq!(DigestAlgorithm::from_name("SHA-384"), Some(DigestAlgorithm::Sha384));
    assert_eq!(DigestAlgorithm::from_name("SHA-512"), Some(DigestAlgorithm::Sha512));
    assert_eq!(DigestAlgorithm::from_name("SHA-1"), None);
    assert_eq!(DigestAlgorithm::from_name(""), None);
}

#[test]
fn digest_algorithm_lengths_match_the_hash() {
    assert_eq!(DigestAlgorithm::Sha256.digest(b"x").len(), 32);
    assert_eq!(DigestAlgorithm::Sha384.digest(b"x").len(), 48);
    assert_eq!(DigestAlgorithm::Sha512.digest(b"x").len(), 64);
}

fn validity_info_with(key: &str, value: &str) -> CborValue {
    item(&Value::Map(vec![(
        Value::Text(key.to_owned()),
        Value::Text(value.to_owned()),
    )]))
}

#[test]
fn tdate_field_parses_a_well_formed_utc_instant() {
    assert_eq!(
        tdate_field(&validity_info_with("validFrom", "1970-01-01T00:00:00Z"),
            "validFrom"
        )
        .ok(),
        Some(0),
    );
    assert_eq!(
        tdate_field(&validity_info_with("validUntil", "2023-01-01T00:00:00Z"),
            "validUntil"
        )
        .ok(),
        Some(1_672_531_200),
    );
    assert_eq!(
        tdate_field(&validity_info_with("signed", "2023-01-01T00:00:00.123Z"),
            "signed"
        )
        .ok(),
        Some(1_672_531_200),
    );
}

#[test]
fn tdate_field_accepts_a_tag0_wrapped_text() {
    let info = Value::Map(vec![(
        Value::Text("validFrom".to_owned()),
        Value::Tag(
            0,
            Box::new(Value::Text("2023-01-01T00:00:00Z".to_owned())),
        ),
    )]);
    assert_eq!(tdate_field(&item(&info), "validFrom").ok(), Some(1_672_531_200));
}

#[test]
fn tdate_field_rejects_a_malformed_or_invalid_instant() {
    assert!(tdate_field(&validity_info_with("validFrom", "2023-01-01"), "validFrom").is_err());
    assert!(
        tdate_field(&validity_info_with("validFrom", "2023-01-01T00:00:00+01:00"),
        "validFrom"
    )
    .is_err(),
    );
    assert!(
        tdate_field(&validity_info_with("validFrom", "2023-02-31T00:00:00Z"),
        "validFrom"
    )
    .is_err(),
    );
    assert!(
        tdate_field(&validity_info_with("other", "2023-01-01T00:00:00Z"),
        "validFrom"
    )
    .is_err(),
    );
    let numeric = Value::Map(vec![(
        Value::Text("validFrom".to_owned()),
        Value::Integer(0.into()),
    )]);
    assert!(tdate_field(&item(&numeric), "validFrom").is_err());
}

#[test]
fn integer_label_rejects_non_integers() {
    assert_eq!(integer_label(&item(&Value::Text("x".to_owned()))), None);
    assert_eq!(integer_label(&item(&Value::Integer(7.into()))), Some(7));
}

#[test]
fn cbor_to_attribute_maps_floats_and_tags() {
    assert_eq!(cbor_to_attribute(&item(&Value::Float(1.5))), AttributeValue::Null);
    assert_eq!(
        cbor_to_attribute(&item(&Value::Tag(0, Box::new(Value::Text("t".to_owned()))))),
        AttributeValue::Text("t".to_owned()),
    );
}

#[test]
fn unwrap_tagged_cbor_payload_rejects_non_tag_and_non_bytes() {
    let tag_over_text = Value::Tag(TAG_ENCODED_CBOR, Box::new(Value::Text("x".into())));
    assert!(unwrap_tagged_cbor_payload(&item(&tag_over_text)).is_none());
    assert!(unwrap_tagged_cbor_payload(&item(&Value::Text("x".into()))).is_none());
    let ok = Value::Tag(TAG_ENCODED_CBOR, Box::new(Value::Bytes(vec![1, 2, 3])));
    assert_eq!(unwrap_tagged_cbor_payload(&item(&ok)).unwrap(), vec![1, 2, 3]);
}

fn sign1_with_x5chain(x5chain: Value) -> coset::CoseSign1 {
    let unprotected = HeaderBuilder::new()
        .value(COSE_HEADER_X5CHAIN, x5chain)
        .build();
    CoseSign1Builder::new()
        .unprotected(unprotected)
        .payload(vec![0])
        .signature(vec![0; 64])
        .build()
}

#[test]
fn ds_chain_from_x5chain_rejects_malformed_chains() {
    let bad_array = sign1_with_x5chain(Value::Array(vec![Value::Integer(1.into())]));
    assert!(ds_chain_from_x5chain(&parsed(&bad_array)).is_err());
    let scalar = sign1_with_x5chain(Value::Integer(1.into()));
    assert!(ds_chain_from_x5chain(&parsed(&scalar)).is_err());
    let good = sign1_with_x5chain(Value::Bytes(vec![9, 9]));
    assert_eq!(ds_chain_from_x5chain(&parsed(&good)).unwrap(), vec![vec![9, 9]]);
}

#[test]
fn tdate_field_rejects_non_text_non_tag_values() {
    let info = Value::Map(vec![(
        Value::Text("signed".to_owned()),
        Value::Integer(7.into()),
    )]);
    assert!(tdate_field(&item(&info), "signed").is_err());
    let info_bad_tag = Value::Map(vec![(
        Value::Text("signed".to_owned()),
        Value::Tag(0, Box::new(Value::Integer(7.into()))),
    )]);
    assert!(tdate_field(&item(&info_bad_tag), "signed").is_err());
}

#[test]
fn find_key_label_reads_int_and_bytes_via_one_generic() {
    let key = Value::Map(vec![
        (Value::Integer(1.into()), Value::Integer(2.into())),
        (
            Value::Integer((-2).into()),
            Value::Bytes(vec![9, 9, 9]),
        ),
    ]);
    assert_eq!(find_key_label(&item(&key), 1, integer_label), Some(2));
    assert_eq!(find_key_label(&item(&key), -2, byte_string), Some(vec![9, 9, 9]));
    assert_eq!(find_key_label(&item(&key), 1, byte_string), None);
    assert_eq!(find_key_label(&item(&key), 7, integer_label), None);
    assert_eq!(find_key_label(&item(&Value::Integer(0.into())), 1, integer_label), None);
}

#[test]
fn cbor_cursor_skips_every_major_type_and_rejects_indefinite_length() {
    let nested = Value::Array(vec![
        Value::Integer(1.into()),
        Value::Integer((-1).into()),
        Value::Bytes(vec![1, 2, 3]),
        Value::Text("hello".to_owned()),
        Value::Array(vec![Value::Bool(true), Value::Null]),
        Value::Map(vec![(
            Value::Text("k".to_owned()),
            Value::Integer(9.into()),
        )]),
        Value::Tag(0, Box::new(Value::Text("t".to_owned()))),
        Value::Bool(false),
    ]);
    let mut buf = Vec::new();
    ciborium::into_writer(&nested, &mut buf).unwrap();
    buf.push(0xAB);
    let mut cursor = CborCursor::new(&buf);
    assert!(cursor.skip_item().is_some());
    assert_eq!(cursor.pos, buf.len() - 1);

    let mut indefinite = CborCursor::new(&[0x9f, 0xff]);
    assert!(indefinite.skip_item().is_none());
    let mut reserved = CborCursor::new(&[0x1c]);
    assert!(reserved.read_head().is_none());

    let mut truncated = CborCursor::new(&[0x43, 0x01]);
    assert!(truncated.skip_item().is_none());

    let mut len4 = CborCursor::new(&[0x5a, 0x00, 0x00, 0x00, 0x02, 0xAA, 0xBB]);
    assert!(len4.skip_item().is_some());
    assert_eq!(len4.pos, 7);
}

#[test]
fn cbor_cursor_bounds_recursion_depth_no_stack_overflow() {
    let deep = vec![0x81u8; DEPTH];
    let mut cursor = CborCursor::new(&deep);
    assert!(cursor.skip_item().is_none());

    let nested = Value::Array(vec![Value::Array(vec![Value::Array(vec![
        Value::Integer(7.into()),
    ])])]);
    let mut buf = Vec::new();
    ciborium::into_writer(&nested, &mut buf).unwrap();
    let mut ok_cursor = CborCursor::new(&buf);
    assert!(ok_cursor.skip_item().is_some());
}

#[test]
fn verify_rejects_deeply_nested_response_without_abort() {
    let mut deep = vec![0x81u8; 400];
    deep.push(0x00);
    let result = verify_with_meta(
        &deep,
        &StaticTestAnchors::new(),
        &MdocVerifyParams::default(),
    )
    .0;
    assert!(!result.valid);
    assert_eq!(result.reasons, vec![ReasonCode::MalformedCredential]);
}

#[test]
fn cbor_cursor_take_text_rejects_giant_declared_length_no_panic() {
    let giant_text = [0x7b, 0xFF, 0xFF, 0xFF, 0xFF, 0xFF, 0xFF, 0xFF, 0xFF];
    let mut cursor = CborCursor::new(&giant_text);
    assert!(cursor.take_text().is_none());
    let giant_bytes = [0x5b, 0xFF, 0xFF, 0xFF, 0xFF, 0xFF, 0xFF, 0xFF, 0xFF];
    let mut skip_cursor = CborCursor::new(&giant_bytes);
    assert!(skip_cursor.skip_item().is_none());
}

#[test]
fn scan_raw_issuer_items_captures_the_exact_on_wire_bytes_not_a_reencode() {
    let inner = {
        let item = Value::Map(vec![
            (
                Value::Text("digestID".to_owned()),
                Value::Integer(5.into()),
            ),
            (
                Value::Text("elementIdentifier".to_owned()),
                Value::Text("x".to_owned()),
            ),
            (
                Value::Text("elementValue".to_owned()),
                Value::Integer(1.into()),
            ),
        ]);
        let mut b = Vec::new();
        ciborium::into_writer(&item, &mut b).unwrap();
        b
    };
    assert!(inner.len() < 256);
    let mut non_canonical_item = vec![0xD8, 0x18, 0x59];
    non_canonical_item.extend_from_slice(&u16::try_from(inner.len()).unwrap().to_be_bytes());
    non_canonical_item.extend_from_slice(&inner);

    let canonical_item = {
        let tagged =
            Value::Tag(TAG_ENCODED_CBOR, Box::new(Value::Bytes(inner.clone())));
        let mut b = Vec::new();
        ciborium::into_writer(&tagged, &mut b).unwrap();
        b
    };
    assert_ne!(non_canonical_item, canonical_item);

    let wire = build_device_response_with_raw_item("ns", &non_canonical_item, &canonical_item);

    let per_doc = scan_raw_issuer_items(&wire);
    assert_eq!(per_doc.len(), 1);
    let ns_records = per_doc[0]
        .get("ns")
        .expect("the `ns` namespace was captured");
    assert_eq!(ns_records.len(), 1);
    let record = &ns_records[0];
    assert_eq!(record.digest_id, 5);
    assert_eq!(record.raw_bytes, non_canonical_item.as_slice());
    assert_eq!(record.identifier, "x");
    assert_eq!(record.element_value(), AttributeValue::Integer(1));
    assert_ne!(Sha256::digest(record.raw_bytes).to_vec(), Sha256::digest(&canonical_item).to_vec());
}

fn build_device_response_with_raw_item(
    namespace: &str,
    raw_item: &[u8],
    canonical_item: &[u8],
) -> Vec<u8> {
    let canonical_value: Value =
        ciborium::from_reader(canonical_item).expect("canonical item decodes");
    let response = Value::Map(vec![(
        Value::Text("documents".to_owned()),
        Value::Array(vec![Value::Map(vec![(
            Value::Text("issuerSigned".to_owned()),
            Value::Map(vec![(
                Value::Text("nameSpaces".to_owned()),
                Value::Map(vec![(
                    Value::Text(namespace.to_owned()),
                    Value::Array(vec![canonical_value]),
                )]),
            )]),
        )])]),
    )]);
    let mut encoded = Vec::new();
    ciborium::into_writer(&response, &mut encoded).unwrap();
    let at = encoded
        .windows(canonical_item.len())
        .position(|w| w == canonical_item)
        .expect("canonical item present in the encoded response");
    let mut spliced = encoded[..at].to_vec();
    spliced.extend_from_slice(raw_item);
    spliced.extend_from_slice(&encoded[at + canonical_item.len()..]);
    spliced
}

/// An encoded header in which counter signatures are nested this deep.
fn nested_header(depth: usize) -> Vec<u8> {
    let head = |major: u8, len: usize| match len {
        0..=23 => vec![major | len as u8],
        24..=255 => vec![major | 24, len as u8],
        256..=65535 => vec![major | 25, (len >> 8) as u8, len as u8],
        _ => vec![major | 26, (len >> 24) as u8, (len >> 16) as u8, (len >> 8) as u8, len as u8],
    };
    let mut header = vec![0xa1, 0x01, 0x26];
    for _ in 0..depth {
        let mut outer = vec![0xa1, 0x07, 0x83];
        outer.extend(head(0x40, header.len()));
        outer.extend(header);
        outer.extend([0xa0, 0x40]);
        header = outer;
    }
    header
}

#[test]
fn counter_signatures_are_read_up_to_a_depth() {
    let parsed = |depth: usize| {
        parse_cose_sign1(&CborValue::Array(vec![
            CborValue::Bytes(nested_header(depth)),
            CborValue::Pairs(Vec::new()),
            CborValue::Null,
            CborValue::Bytes(vec![0; 64]),
        ]))
        .map(|sign1| sign1.protected.len())
        .map_err(|failure| failure.reason)
    };
    assert_eq!(parsed(0), Ok(3));
    assert_eq!(parsed(64), Ok(nested_header(64).len()));
    assert_eq!(parsed(65), Err(ReasonCode::MalformedCredential));
    assert_eq!(parsed(5000), Err(ReasonCode::MalformedCredential));
}
