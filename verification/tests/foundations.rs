//! Values, codecs, keys and the laws between them, on concrete values.

use attestation::cbor::{
    self, cbor_to_vec, decode_or_message, encode_tagged_cbor, get_array, get_integer,
    get_map_entry, unwrap_tagged_cbor_payload, CborValue,
};
use attestation::crypto::{
    decode_base64_cert_lenient, decode_base64_strict, p256_sec1_from_coords, p256_sec1_from_jwk,
    p256_verify_es256, p256_verifying_key_from_cert_der, p256_verifying_key_from_jwk, sd_hash,
    VerifyingKey,
};
use attestation::datetime::parse_rfc3339_utc;
use attestation::dcql::{
    credential_sets_satisfied, evaluate_single, CredentialType, DcqlError, DcqlGate, DcqlQuery,
    PathComponent,
};
use attestation::issuance::device::{build_device_signature, empty_device_name_spaces_bytes};
use attestation::issuance::signer::{
    assemble_compact_jws, public_jwk_only, Ceremony, SignatureAlgorithm, SignerError, SigningInput,
};
use attestation::json::{self, get_member, JsonValue};
use attestation::mdoc::attributes::{merge_disclosed, DisclosedByNamespace};
use attestation::mdoc::digests::DigestAlgorithm;
use attestation::openid4vp::{oid4vp_handover_transcript, Dcql, PresentationRequest};
use attestation::secret::Secret;
use attestation::text::{decimal_text, is_blank, is_text_less, strip_white_space, trim};
use attestation::text_map::TextMap;
use attestation::types::{AttributeValue, Format, IssuerRole, ReasonCode};
use base64ct::{Base64UrlUnpadded, Encoding as _};
use ciborium::value::Value;
use p256::ecdsa::{signature::Signer as _, Signature, SigningKey};
use sha2::{Digest as _, Sha256};

fn encode(value: &Value) -> Vec<u8> {
    let mut out = Vec::new();
    ciborium::into_writer(value, &mut out).unwrap();
    out
}

fn hex(bytes: &[u8]) -> String {
    bytes.iter().map(|b| format!("{b:02x}")).collect()
}

#[test]
fn items_survive_decoding_and_encoding() {
    let value = Value::Map(vec![
        (Value::Integer(1.into()), Value::Float(1.5)),
        (Value::Text("t".into()), Value::Bytes(vec![1, 2])),
        (Value::Null, Value::Bool(true)),
        (
            Value::Tag(24, Box::new(Value::Bytes(vec![3]))),
            Value::Array(vec![Value::Integer((-5).into()), Value::Null]),
        ),
    ]);
    let bytes = encode(&value);
    let item = cbor::decode(&bytes).unwrap();
    assert_eq!(cbor_to_vec(&item), bytes);
    assert_eq!(cbor_to_vec(&item.copy()), bytes);
    let CborValue::Pairs(entries) = &item else {
        panic!("expected a map");
    };
    assert!(matches!(entries[0].1, CborValue::Float(bits) if bits == 1.5f64.to_bits()));
    assert!(cbor::decode(&[0xff]).is_none());
    assert!(decode_or_message(&[]).is_err());
}

#[test]
fn entries_are_looked_up_by_their_first_text_key() {
    let value = Value::Map(vec![
        (Value::Integer(1.into()), Value::Integer(10.into())),
        (Value::Text("k".into()), Value::Integer(20.into())),
        (Value::Text("k".into()), Value::Integer(30.into())),
        (Value::Text("a".into()), Value::Array(vec![Value::Null])),
    ]);
    let item = cbor::decode(&encode(&value)).unwrap();
    assert_eq!(get_integer(&item, "k"), Some(20));
    assert_eq!(get_array(&item, "a").map(Vec::len), Some(1));
    assert!(get_map_entry(&item, "missing").is_none());
    assert!(get_array(&item, "k").is_none());
}

#[test]
fn wrapping_and_unwrapping_give_the_bytes_back() {
    let wrapped = encode_tagged_cbor(&[1, 2, 3]);
    assert_eq!(wrapped, vec![0xd8, 0x18, 0x43, 1, 2, 3]);
    let item = cbor::decode(&wrapped).unwrap();
    assert_eq!(unwrap_tagged_cbor_payload(&item), Some(vec![1, 2, 3]));
}

#[test]
fn json_values_survive_parsing_and_writing() {
    let text = br#"{"a":[1,-2,2.5,null,true,"x"],"b":{"c":{}}}"#;
    let value = json::parse(text).unwrap();
    assert_eq!(json::to_bytes(&value), text.to_vec());
    assert_eq!(json::to_bytes(&value.copy()), text.to_vec());
    assert!(json::parse(b"{").is_err());
    assert!(json::parse(b"1 2").is_err());
}

#[test]
fn the_first_of_two_members_counts() {
    let members = TextMap {
        entries: vec![
            ("k".to_owned(), JsonValue::Bool(true)),
            ("k".to_owned(), JsonValue::Null),
        ],
    };
    assert!(matches!(members.get("k"), Some(JsonValue::Bool(true))));
    let object = JsonValue::Object(members);
    assert_eq!(json::to_bytes(&object), br#"{"k":true}"#.to_vec());
    assert!(matches!(get_member(&object, "k"), Some(JsonValue::Bool(true))));
}

#[test]
fn a_text_map_inserts_replaces_and_removes() {
    let mut map: TextMap<u8> = TextMap::new();
    assert!(map.is_empty());
    map.insert("a".to_owned(), 1);
    map.insert("b".to_owned(), 2);
    map.insert("a".to_owned(), 3);
    assert_eq!(map.get("a"), Some(&3));
    assert_eq!(map.remove("a"), Some(3));
    assert_eq!(map.get("a"), None);
    assert_eq!(map.remove("a"), None);
    assert!(map.contains_key("b"));
}

#[test]
fn fields_are_the_same_in_any_order() {
    let fields = |names: [&str; 2]| {
        let mut map = TextMap::new();
        for name in names {
            map.insert(name.to_owned(), AttributeValue::Text(name.to_owned()));
        }
        AttributeValue::Fields(map)
    };
    assert_eq!(fields(["x", "y"]), fields(["y", "x"]));
    assert_ne!(fields(["x", "y"]), fields(["x", "z"]));
    assert_ne!(AttributeValue::Null, AttributeValue::Boolean(false));
}

#[test]
fn digests_are_those_of_the_hash_functions() {
    assert_eq!(
        hex(&DigestAlgorithm::Sha256.digest(b"abc")),
        "ba7816bf8f01cfea414140de5dae2223b00361a396177a9cb410ff61f20015ad",
    );
    assert_eq!(
        hex(&DigestAlgorithm::Sha384.digest(b"abc"))[..32],
        *"cb00753f45a35e8bb5a03d699ac65007",
    );
    assert_eq!(
        hex(&DigestAlgorithm::Sha512.digest(b"abc"))[..32],
        *"ddaf35a193617abacc417349ae204131",
    );
    assert_eq!(sd_hash("abc"), "ungWv48Bz-pBQUDeXa4iI7ADYaOWF3qctBD_YfIAFa0");
}

#[test]
fn base64_is_read_with_and_without_white_space() {
    assert_eq!(decode_base64_cert_lenient("AQ\n I=\t"), Ok(vec![1, 2]));
    assert_eq!(decode_base64_strict("  AQI=\n"), Ok(vec![1, 2]));
    assert!(decode_base64_strict("AQ I=").is_err());
    assert!(decode_base64_cert_lenient("*").is_err());
}

#[test]
fn keys_are_read_from_coordinates_jwks_and_certificates() {
    let key = SigningKey::from_slice(&[7; 32]).unwrap();
    let point = key.verifying_key().to_encoded_point(false);
    let (x, y) = (point.x().unwrap(), point.y().unwrap());
    assert_eq!(p256_sec1_from_coords(x, y), Some(point.as_bytes().to_vec()));
    assert_eq!(p256_sec1_from_coords(&x[1..], y), None);
    let text = format!(
        r#"{{"kty":"EC","crv":"P-256","x":"{}","y":"{}"}}"#,
        Base64UrlUnpadded::encode_string(x),
        Base64UrlUnpadded::encode_string(y),
    );
    let jwk = json::parse(text.as_bytes()).unwrap();
    assert_eq!(p256_sec1_from_jwk(&jwk), Some(point.as_bytes().to_vec()));
    let read = p256_verifying_key_from_jwk(&jwk).unwrap();
    let signature: Signature = key.sign(b"message");
    assert_eq!(p256_verify_es256(&read, b"message", &signature.to_bytes()), Ok(()));
    assert_eq!(p256_verify_es256(&read, b"other", &signature.to_bytes()), Err(()));
    assert_eq!(p256_verify_es256(&read, b"message", signature.to_der().as_bytes()), Err(()));
    assert!(VerifyingKey::from_sec1_bytes(&[4; 65]).is_none());
    assert!(p256_verifying_key_from_cert_der(b"not a certificate").is_none());
}

#[test]
fn private_members_are_taken_out_once_and_for_all() {
    let jwk = json::parse(br#"{"d":"secret","k":"secret","kty":"EC"}"#).unwrap();
    let public = public_jwk_only(&jwk);
    assert_eq!(json::to_bytes(&public), br#"{"kty":"EC"}"#.to_vec());
    assert_eq!(json::to_bytes(&public_jwk_only(&public)), br#"{"kty":"EC"}"#.to_vec());
    let other = json::parse(b"[1]").unwrap();
    assert_eq!(json::to_bytes(&public_jwk_only(&other)), b"[1]".to_vec());
}

#[test]
fn a_jws_over_bytes_that_are_no_text_is_refused() {
    let input = SigningInput {
        ceremony: Ceremony::KeyBinding,
        algorithm: SignatureAlgorithm::Es256,
        to_be_signed: vec![0xff],
        audience: String::new(),
        nonce: String::new(),
    };
    match assemble_compact_jws(&input, &[0; 64]) {
        Err(SignerError::Serialize(message)) => assert!(message.contains("utf-8")),
        _ => panic!("expected an error"),
    }
    let input = SigningInput { to_be_signed: b"h.p".to_vec(), ..input };
    let jws = assemble_compact_jws(&input, &[0; 64]).unwrap();
    assert_eq!(jws, format!("h.p.{}", "A".repeat(86)));
}

#[test]
fn the_handover_binds_verifier_nonce_and_response_uri() {
    let info = encode(&Value::Array(vec![
        Value::Text("aud".into()),
        Value::Text(Base64UrlUnpadded::encode_string(b"nonce")),
        Value::Null,
        Value::Text("uri".into()),
    ]));
    let expected = encode(&Value::Array(vec![
        Value::Null,
        Value::Null,
        Value::Array(vec![
            Value::Text("OpenID4VPHandover".into()),
            Value::Bytes(Sha256::digest(&info).to_vec()),
        ]),
    ]));
    let transcript = oid4vp_handover_transcript("aud", b"nonce", "uri");
    assert_eq!(transcript, expected);
    assert_ne!(transcript, oid4vp_handover_transcript("aud", b"nonce", "other"));
    assert_ne!(transcript, oid4vp_handover_transcript("other", b"nonce", "uri"));
    assert_ne!(transcript, oid4vp_handover_transcript("aud", b"other", "uri"));
    let request = PresentationRequest {
        dcql: Dcql::from_json("{}"),
        nonce: b"nonce".to_vec(),
        audience: "aud".to_owned(),
        response_uri: "uri".to_owned(),
    };
    assert_eq!(request.nonce_b64(), "bm9uY2U");
    assert_eq!(request.dcql.json, "{}");
}

#[test]
fn the_device_signs_what_the_verifier_rebuilds() {
    let transcript = oid4vp_handover_transcript("aud", b"nonce", "uri");
    let name_spaces = empty_device_name_spaces_bytes().unwrap();
    assert_eq!(name_spaces, vec![0xd8, 0x18, 0x41, 0xa0]);
    let build = build_device_signature("type", &transcript, &name_spaces, "aud", "n").unwrap();
    let authentication = encode(&Value::Array(vec![
        Value::Text("DeviceAuthentication".into()),
        ciborium::from_reader(transcript.as_slice()).unwrap(),
        Value::Text("type".into()),
        Value::Tag(24, Box::new(Value::Bytes(vec![0xa0]))),
    ]));
    let payload = encode(&Value::Tag(24, Box::new(Value::Bytes(authentication))));
    assert_eq!(build.device_auth_payload, payload);
    let structure = encode(&Value::Array(vec![
        Value::Text("Signature1".into()),
        Value::Bytes(vec![0xa1, 0x01, 0x26]),
        Value::Bytes(vec![]),
        Value::Bytes(payload),
    ]));
    assert_eq!(build.input.to_be_signed(), structure);
    let item: Value = ciborium::from_reader(build.assemble(&[9; 64]).unwrap().as_slice()).unwrap();
    let expected = Value::Array(vec![
        Value::Bytes(vec![0xa1, 0x01, 0x26]),
        Value::Map(vec![]),
        Value::Null,
        Value::Bytes(vec![9; 64]),
    ]);
    assert_eq!(item, expected);
    assert!(build_device_signature("type", &transcript, &[], "aud", "n").is_err());
}

#[test]
fn texts_are_compared_counted_and_trimmed() {
    assert!(is_text_less("", "a"));
    assert!(is_text_less("ab", "b"));
    assert!(is_text_less("a", "ab"));
    assert!(!is_text_less("a", "a"));
    assert!(!is_text_less("b", "ab"));
    assert_eq!(decimal_text(0), "0");
    assert_eq!(decimal_text(18_446_744_073_709_551_615), "18446744073709551615");
    assert_eq!(trim("\u{2003} a b \n"), "a b");
    assert_eq!(strip_white_space(" a\tb\u{a0}"), "ab");
    assert!(is_blank(" \r\n\u{3000}"));
    assert!(!is_blank(" x "));
}

#[test]
fn secrets_are_shown_as_markers() {
    let secret = Secret::new("hidden".to_owned());
    assert_eq!(secret.debug_text(), "Secret(***)");
    assert_eq!(secret.expose(), "hidden");
}

#[test]
fn a_later_date_is_a_later_instant() {
    let instants: Vec<i64> = [
        "1969-12-31T23:59:59Z",
        "1970-01-01T00:00:00Z",
        "2000-02-29T00:00:00Z",
        "2000-03-01T00:00:00Z",
    ]
    .iter()
    .map(|text| parse_rfc3339_utc(text).unwrap())
    .collect();
    assert_eq!(instants, vec![-1, 0, 951_782_400, 951_868_800]);
}

fn presented() -> TextMap<AttributeValue> {
    let mut map = TextMap::new();
    map.insert("name".to_owned(), AttributeValue::Text("Ada".to_owned()));
    map
}

fn gate(query: &str, presented: &TextMap<AttributeValue>) -> DcqlGate {
    let credential_type = CredentialType::Vct(Some("x".to_owned()));
    evaluate_single(query, Format::SdJwtVc, &credential_type, presented)
}

fn one_claim(claim: &str) -> String {
    format!(r#"{{"credentials":[{{"id":"c","format":"dc+sd-jwt","claims":[{claim}]}}]}}"#)
}

#[test]
fn what_cannot_be_represented_is_never_found() {
    for claim in [
        r#"{"path":["name",1.5]}"#,
        r#"{"path":[-1]}"#,
        r#"{"path":[]}"#,
        r#"{"values":["Ada"]}"#,
        r#"{"path":["name"],"values":[]}"#,
        r#"{"path":["name"],"values":"Ada"}"#,
        r#"{"path":["name"],"values":[99999999999999999999]}"#,
        "17",
    ] {
        assert_eq!(gate(&one_claim(claim), &presented()), DcqlGate::NotSatisfied);
    }
    let query = DcqlQuery::parse(&one_claim(r#"{"path":["name",1.5]}"#)).unwrap();
    assert_eq!(
        query.credentials[0].claims[0].path,
        vec![PathComponent::Key("name".to_owned()), PathComponent::Unrepresentable],
    );
}

#[test]
fn duplicate_names_fail_closed() {
    let twice = r#"{"credentials":[
        {"id":"c","format":"dc+sd-jwt"},{"id":"c","format":"mso_mdoc"}]}"#;
    let error = DcqlQuery::parse(twice).unwrap_err();
    assert_eq!(error, DcqlError::DuplicateCredentialId);
    assert_eq!(error.message(), "DCQL query has duplicate credential ids");
    assert_eq!(gate(twice, &presented()), DcqlGate::NotSatisfied);
    let claims = r#"{"credentials":[{"id":"c","format":"dc+sd-jwt",
        "claims":[{"id":"a","path":["name"]},{"id":"a","path":["name"]}],
        "claim_sets":[["a"]]}]}"#;
    assert_eq!(gate(claims, &presented()), DcqlGate::NotSatisfied);
}

#[test]
fn unreadable_combinations_are_met_by_nothing() {
    for sets in [r#""a""#, "[1]", "[[1]]", "[[]]"] {
        let query = format!(
            r#"{{"credentials":[{{"id":"c","format":"dc+sd-jwt",
                "claims":[{{"id":"a","path":["name"]}}],"claim_sets":{sets}}}]}}"#
        );
        assert_eq!(gate(&query, &presented()), DcqlGate::NotSatisfied);
    }
}

#[test]
fn blank_queries_ask_for_nothing() {
    assert_eq!(gate("", &presented()), DcqlGate::Inactive);
    assert_eq!(gate(" \n", &presented()), DcqlGate::Inactive);
    assert_eq!(gate("[]", &presented()), DcqlGate::Inactive);
}

#[test]
fn disclosing_more_keeps_a_query_satisfied() {
    let query = one_claim(r#"{"path":["name"]}"#);
    let mut more = presented();
    assert_eq!(gate(&query, &more), DcqlGate::Satisfied);
    more.insert("other".to_owned(), AttributeValue::Null);
    assert_eq!(gate(&query, &more), DcqlGate::Satisfied);
}

#[test]
fn no_credential_meets_no_requirement() {
    let none: Vec<String> = Vec::new();
    let all = DcqlQuery::parse(r#"{"credentials":[{"id":"c","format":"mso_mdoc"}]}"#).unwrap();
    assert!(!credential_sets_satisfied(&all, &none));
    assert!(credential_sets_satisfied(&all, &vec!["c".to_owned(), "d".to_owned()]));
    assert!(!credential_sets_satisfied(&DcqlQuery::default(), &none));
    let optional = r#"{"credential_sets":[{"options":[["c"]],"required":false}]}"#;
    assert!(credential_sets_satisfied(&DcqlQuery::parse(optional).unwrap(), &none));
    let empty_option = r#"{"credential_sets":[{"options":[[]]}]}"#;
    assert!(!credential_sets_satisfied(&DcqlQuery::parse(empty_option).unwrap(), &none));
}

#[test]
fn merging_keeps_what_is_there() {
    let document = |value: &str| {
        let mut elements = TextMap::new();
        elements.insert("name".to_owned(), AttributeValue::Text(value.to_owned()));
        let mut out: DisclosedByNamespace = TextMap::new();
        out.insert("ns".to_owned(), elements);
        out
    };
    let mut merged = document("Ada");
    assert!(merge_disclosed(&mut merged, &document("Ada")).is_ok());
    let failure = merge_disclosed(&mut merged, &document("Eve")).unwrap_err();
    assert_eq!(failure.reason, ReasonCode::DisclosureIntegrity);
    assert_eq!(
        merged.get("ns").and_then(|elements| elements.get("name")),
        Some(&AttributeValue::Text("Ada".to_owned())),
    );
    assert_ne!(IssuerRole::Pid, IssuerRole::Qeaa);
}
