//! The holder binding of a document: the `DeviceSignature` over `DeviceAuthentication`.
use crate::cbor::{
    cbor_decoded, cbor_encoded, cbor_to_vec, contents, decode, encode_tagged_cbor, encoded_item,
    encoded_item_bytes, get_array, get_map_entry, lemma_array_content, map_entry,
    unwrap_tagged_cbor_payload, Cbor, CborValue,
};
use crate::crypto::{es256_signature_valid, is_es256_signature};
use crate::mdoc::cose::{
    alg_is_es256, cose_alg_is_es256, parse_cose_sign1, sign1_of, signed_detached,
    verify_cose_sign1_detached_es256,
};
use crate::mdoc::failure::VerifyFailure;
use crate::mdoc::mso::{
    device_key, mso_device_key, unwrap_bstr_tagged_payload, wrapped_bytes, DeviceKey,
};
use crate::text::seen;
use crate::types::ReasonCode;
use vstd::prelude::*;

verus! {

/// The array that a device signs: the session transcript, the document type and the device's own
/// namespaces.
pub open spec fn device_authentication(
    transcript: Cbor,
    doc_type: Seq<char>,
    name_spaces: Cbor,
) -> Cbor {
    Cbor::Array(
        seq![
            Cbor::Text("DeviceAuthentication"@),
            transcript,
            Cbor::Text(doc_type),
            name_spaces,
        ],
    )
}

/// The bytes that a device signs: the encoded array, wrapped as `#6.24(bstr)`.
pub open spec fn device_authentication_bytes(
    transcript: Cbor,
    doc_type: Seq<char>,
    name_spaces: Cbor,
) -> Seq<u8> {
    cbor_encoded(
        encoded_item(cbor_encoded(device_authentication(transcript, doc_type, name_spaces))),
    )
}

/// Put together the bytes that a device signs; nothing where the namespaces are not encoded CBOR.
pub fn build_device_authentication(
    session_transcript: &CborValue,
    doc_type: &str,
    device_name_spaces_bytes: &[u8],
) -> (out: Option<Vec<u8>>)
    ensures
        seen(out) == (match cbor_decoded(device_name_spaces_bytes@) {
            Some(name_spaces) => Some(
                device_authentication_bytes(session_transcript@, doc_type@, name_spaces),
            ),
            None => None,
        }),
{
    let name_spaces = match decode(device_name_spaces_bytes) {
        Some(name_spaces) => name_spaces,
        None => {
            return None;
        },
    };
    let fields = vec![
        CborValue::Text("DeviceAuthentication".to_owned()),
        session_transcript.copy(),
        CborValue::Text(doc_type.to_owned()),
        name_spaces,
    ];
    proof {
        lemma_array_content(fields);
        assert(contents(fields@) =~= device_authentication(
            session_transcript@,
            doc_type@,
            name_spaces@,
        )->Array_0);
    }
    let encoded = cbor_to_vec(&CborValue::Array(fields));
    Some(encode_tagged_cbor(encoded.as_slice()))
}

/// The item `#6.24(bstr)` around the same bytes as in `value`, encoded.
pub open spec fn reencoded(value: Cbor) -> Option<Seq<u8>> {
    match encoded_item_bytes(value) {
        Some(inner) => Some(cbor_encoded(encoded_item(inner))),
        None => None,
    }
}

/// Encode an item of the form `#6.24(bstr)` anew.
pub fn reencode_tagged(value: &CborValue) -> (out: Result<Vec<u8>, VerifyFailure>)
    ensures
        match out {
            Ok(bytes) => reencoded(value@) == Some(bytes@) && cbor_decoded(bytes@) == Some(value@),
            Err(failure) => reencoded(value@) is None && failure.reason
                == ReasonCode::MalformedCredential,
        },
{
    match unwrap_tagged_cbor_payload(value) {
        Some(inner) => {
            proof {
                crate::cbor::law_encoded_item_round_trip(inner@);
            }
            Ok(encode_tagged_cbor(inner.as_slice()))
        },
        None => Err(VerifyFailure::malformed()),
    }
}

/// Decode a session transcript.
pub fn decode_session_transcript_value(session_transcript: &[u8]) -> (out: Result<
    CborValue,
    VerifyFailure,
>)
    ensures
        match out {
            Ok(value) => cbor_decoded(session_transcript@) == Some(value@),
            Err(failure) => cbor_decoded(session_transcript@) is None && failure.reason
                == ReasonCode::MalformedCredential,
        },
{
    match decode(session_transcript) {
        Some(value) => Ok(value),
        None => Err(VerifyFailure::malformed()),
    }
}

/// The holder binding of a document against the device key: nothing where it holds, else the reason
/// it does not. A document whose binding cannot be checked for want of a session transcript, or
/// that carries no device signature, is refused.
pub open spec fn binding_verdict(
    document: Cbor,
    sec1: Seq<u8>,
    doc_type: Seq<char>,
    transcript: Option<Seq<u8>>,
) -> Option<ReasonCode> {
    let malformed = Some(ReasonCode::MalformedCredential);
    match map_entry(document, "deviceSigned"@) {
        None => malformed,
        Some(device_signed) => match map_entry(device_signed, "deviceAuth"@) {
            None => malformed,
            Some(device_auth) => match map_entry(device_auth, "deviceSignature"@) {
                None => Some(ReasonCode::HolderBinding),
                Some(signature) => match transcript {
                    None => Some(ReasonCode::MissingRequestBinding),
                    Some(transcript) => match (
                        sign1_of(signature),
                        map_entry(device_signed, "nameSpaces"@),
                        cbor_decoded(transcript),
                    ) {
                        (Some(sign1), Some(name_spaces), Some(transcript)) => if encoded_item_bytes(
                            name_spaces,
                        ) is None {
                            malformed
                        } else if signed_detached(
                            sign1,
                            device_authentication_bytes(transcript, doc_type, name_spaces),
                            sec1,
                        ) {
                            None
                        } else {
                            Some(ReasonCode::HolderBinding)
                        },
                        _ => malformed,
                    },
                },
            },
        },
    }
}

/// Check the holder binding of a document. `session_transcript` is the decoded transcript, where
/// one was supplied and could be decoded; `transcript_supplied` says whether one was supplied.
pub fn verify_device_binding(
    document: &CborValue,
    key: &DeviceKey,
    doc_type: &str,
    session_transcript: Option<&CborValue>,
    supplied: Option<&[u8]>,
) -> (out: Result<(), VerifyFailure>)
    requires
        match supplied {
            Some(bytes) => seen(session_transcript) == cbor_decoded(bytes@),
            None => session_transcript is None,
        },
    ensures
        match binding_verdict(document@, key.sec1@, doc_type@, seen(supplied)) {
            None => out is Ok,
            Some(reason) => out matches Err(failure) && failure.reason == reason,
        },
{
    let device_signed = match get_map_entry(document, "deviceSigned") {
        Some(device_signed) => device_signed,
        None => {
            return Err(VerifyFailure::malformed());
        },
    };
    let device_auth = match get_map_entry(device_signed, "deviceAuth") {
        Some(device_auth) => device_auth,
        None => {
            return Err(VerifyFailure::malformed());
        },
    };
    let signature_value = match get_map_entry(device_auth, "deviceSignature") {
        Some(signature_value) => signature_value,
        None => {
            return Err(VerifyFailure::with_reason(ReasonCode::HolderBinding));
        },
    };
    if supplied.is_none() {
        return Err(VerifyFailure::with_reason(ReasonCode::MissingRequestBinding));
    }
    let device_signature = match parse_cose_sign1(signature_value) {
        Ok(device_signature) => device_signature,
        Err(failure) => {
            return Err(failure);
        },
    };
    let name_spaces = match get_map_entry(device_signed, "nameSpaces") {
        Some(name_spaces) => name_spaces,
        None => {
            return Err(VerifyFailure::malformed());
        },
    };
    let name_spaces_bytes = match reencode_tagged(name_spaces) {
        Ok(bytes) => bytes,
        Err(failure) => {
            return Err(failure);
        },
    };
    let transcript = match session_transcript {
        Some(transcript) => transcript,
        None => {
            return Err(VerifyFailure::malformed());
        },
    };
    let payload = match build_device_authentication(
        transcript,
        doc_type,
        name_spaces_bytes.as_slice(),
    ) {
        Some(payload) => payload,
        None => {
            return Err(VerifyFailure::malformed());
        },
    };
    match verify_cose_sign1_detached_es256(
        &device_signature,
        payload.as_slice(),
        key.sec1.as_slice(),
    ) {
        Ok(_) => Ok(()),
        Err(_) => Err(VerifyFailure::with_reason(ReasonCode::HolderBinding)),
    }
}

/// Whether the holder-binding machinery of the documents of a response is intact.
#[derive(Debug, Clone, Copy, PartialEq, Eq, Structural)]
pub enum DeviceBindingMachinery {
    /// Every document has a well-formed ES256 device signature and a device key, so that a failed
    /// binding can come from another transcript.
    Sound,
    /// Some document's binding is broken whatever the transcript.
    Faulty,
}

/// Whether the binding of a document can hold for some transcript, as far as its form shows: the
/// mobile security object has a device key, and the device signature is a COSE_Sign1 of ES256 with
/// a signature of the raw form.
pub open spec fn machinery_sound(document: Cbor) -> bool {
    match (map_entry(document, "issuerSigned"@), map_entry(document, "deviceSigned"@)) {
        (Some(issuer_signed), Some(device_signed)) => match (
            map_entry(issuer_signed, "issuerAuth"@),
            map_entry(device_signed, "deviceAuth"@),
        ) {
            (Some(issuer_auth), Some(device_auth)) => match (
                signed_object(issuer_auth),
                map_entry(device_auth, "deviceSignature"@),
            ) {
                (Some(mso), Some(signature)) => device_key(mso) is Some && (sign1_of(
                    signature,
                ) matches Some(sign1) && alg_is_es256(sign1) && es256_signature_valid(
                    sign1.signature,
                )),
                _ => false,
            },
            _ => false,
        },
        _ => false,
    }
}

/// The mobile security object that an `issuerAuth` item carries.
pub open spec fn signed_object(issuer_auth: Cbor) -> Option<Cbor> {
    match sign1_of(issuer_auth) {
        Some(sign1) => match sign1.payload {
            Some(payload) => match wrapped_bytes(payload) {
                Some(inner) => cbor_decoded(inner),
                None => None,
            },
            None => None,
        },
        None => None,
    }
}

fn document_device_key_parses(document: &CborValue) -> (out: bool)
    ensures
        out == (map_entry(document@, "issuerSigned"@) matches Some(issuer_signed) && map_entry(
            issuer_signed,
            "issuerAuth"@,
        ) matches Some(issuer_auth) && signed_object(issuer_auth) matches Some(mso) && device_key(
            mso,
        ) is Some),
{
    let issuer_signed = match get_map_entry(document, "issuerSigned") {
        Some(issuer_signed) => issuer_signed,
        None => {
            return false;
        },
    };
    let issuer_auth = match get_map_entry(issuer_signed, "issuerAuth") {
        Some(issuer_auth) => issuer_auth,
        None => {
            return false;
        },
    };
    let sign1 = match parse_cose_sign1(issuer_auth) {
        Ok(sign1) => sign1,
        Err(_) => {
            return false;
        },
    };
    let inner = match &sign1.payload {
        Some(payload) => match unwrap_bstr_tagged_payload(payload.as_slice()) {
            Ok(inner) => inner,
            Err(_) => {
                return false;
            },
        },
        None => {
            return false;
        },
    };
    match decode(inner.as_slice()) {
        Some(mso) => mso_device_key(&mso).is_ok(),
        None => false,
    }
}

/// Whether the binding machinery of a document is intact.
pub fn device_binding_machinery_sound(document: &CborValue) -> (out: bool)
    ensures
        out == machinery_sound(document@),
{
    if !document_device_key_parses(document) {
        return false;
    }
    let device_signed = match get_map_entry(document, "deviceSigned") {
        Some(device_signed) => device_signed,
        None => {
            return false;
        },
    };
    let device_auth = match get_map_entry(device_signed, "deviceAuth") {
        Some(device_auth) => device_auth,
        None => {
            return false;
        },
    };
    let signature_value = match get_map_entry(device_auth, "deviceSignature") {
        Some(signature_value) => signature_value,
        None => {
            return false;
        },
    };
    match parse_cose_sign1(signature_value) {
        Ok(sign1) => cose_alg_is_es256(&sign1) && is_es256_signature(sign1.signature.as_slice()),
        Err(_) => false,
    }
}

/// The machinery of a list of documents: sound where there is one and every one is sound.
pub open spec fn machinery_of(documents: Seq<Cbor>) -> DeviceBindingMachinery {
    if documents.len() > 0 && forall|i: int|
        0 <= i < documents.len() ==> machinery_sound(#[trigger] documents[i]) {
        DeviceBindingMachinery::Sound
    } else {
        DeviceBindingMachinery::Faulty
    }
}

/// Classify the binding machinery of a list of documents.
pub fn classify_binding_machinery(documents: &Vec<CborValue>) -> (out: DeviceBindingMachinery)
    ensures
        out == machinery_of(contents(documents@)),
{
    let ghost all = contents(documents@);
    if documents.len() == 0 {
        return DeviceBindingMachinery::Faulty;
    }
    let mut i: usize = 0;
    while i < documents.len()
        invariant
            i <= documents@.len(),
            all == contents(documents@),
            forall|j: int| 0 <= j < i ==> machinery_sound(#[trigger] all[j]),
        decreases documents@.len() - i,
    {
        assert(all[i as int] == documents@[i as int]@);
        if !device_binding_machinery_sound(&documents[i]) {
            return DeviceBindingMachinery::Faulty;
        }
        i += 1;
    }
    DeviceBindingMachinery::Sound
}

/// The machinery of an encoded response; faulty where it cannot be read.
pub open spec fn response_machinery(response: Seq<u8>) -> DeviceBindingMachinery {
    match cbor_decoded(response) {
        Some(root) => match crate::cbor::array_entry(root, "documents"@) {
            Some(documents) => machinery_of(documents),
            None => DeviceBindingMachinery::Faulty,
        },
        None => DeviceBindingMachinery::Faulty,
    }
}

/// Classify the binding machinery of an encoded response.
pub fn device_binding_machinery(device_response: &[u8]) -> (out: DeviceBindingMachinery)
    ensures
        out == response_machinery(device_response@),
{
    match decode(device_response) {
        Some(root) => match get_array(&root, "documents") {
            Some(documents) => classify_binding_machinery(documents),
            None => DeviceBindingMachinery::Faulty,
        },
        None => DeviceBindingMachinery::Faulty,
    }
}

} // verus!
