//! What a presentation says to the verifier it is for.
use crate::cbor::{cbor_encoded, cbor_read, map_entry, Cbor};
use crate::crypto::{base64url_bytes, base64url_text, sha256_digest};
use crate::issuance::present::{
    prepare_present, HeldAttestation, HolderPresentation, PreparedKind, PreparedPresentation,
    PresentError,
};
use crate::issuance::present::mdoc::{doc_type_of, first_document, signed_name_spaces};
use crate::issuance::signer::{
    header_reads, law_signed_bytes_say_one_thing, payload_reads, Ceremony,
};
use crate::json::{json_i64, member, text_member, Json};
use crate::openid4vp::PresentationRequest;
use vstd::prelude::*;
use vstd::utf8::{encode_utf8, valid_utf8};

verus! {

/// Whether a payload is for an audience, carries a nonce and was made at an instant.
pub open spec fn payload_is_for(
    payload: Json,
    audience: Seq<char>,
    nonce: Seq<u8>,
    iat: i64,
) -> bool {
    &&& member(payload, "aud"@) == Some(Json::Text(audience))
    &&& member(payload, "nonce"@) matches Some(Json::Text(text)) && base64url_bytes(text) == Some(
        nonce,
    )
    &&& member(payload, "iat"@) matches Some(Json::Number(number)) && json_i64(number) == Some(iat)
}

/// The input that is signed for an SD-JWT VC is `header.payload`, and the payload that is read back
/// from it names the verifier of the request, its nonce, the instant that was given, and the hash
/// of the presentation that the signature goes with.
pub proof fn law_key_binding_is_for_the_request(
    held: &HeldAttestation,
    request: &PresentationRequest,
    disclose: &Vec<String>,
    iat: i64,
    prepared: PreparedPresentation,
)
    requires
        held is SdJwtVc,
        call_ensures(
            prepare_present,
            (held, request, disclose, iat),
            Ok::<PreparedPresentation, PresentError>(prepared),
        ),
    ensures
        prepared.kind matches PreparedKind::SdJwtVc { presentation_prefix, kb } && {
            &&& kb.input.ceremony == Ceremony::KeyBinding
            &&& kb.input.audience@ == request.audience@
            &&& base64url_bytes(kb.input.nonce@) == Some(request.nonce@)
            &&& exists|header: Json| #[trigger]
                header_reads(kb.input.to_be_signed@, header) && member(header, "typ"@) == Some(
                    Json::Text("kb+jwt"@),
                ) && member(header, "alg"@) == Some(Json::Text("ES256"@))
            &&& exists|payload: Json| #[trigger]
                payload_reads(kb.input.to_be_signed@, payload) && payload_is_for(
                    payload,
                    request.audience@,
                    request.nonce@,
                    iat,
                ) && member(payload, "sd_hash"@) == Some(
                    Json::Text(base64url_text(sha256_digest(encode_utf8(presentation_prefix@)))),
                )
        },
{
    let input = crate::issuance::present::input_to_sign(prepared@);
    let header = choose|header: Json| #[trigger]
        header_reads(input.to_be_signed, header) && text_member(header, "typ"@) == Some("kb+jwt"@)
            && text_member(header, "alg"@) == Some("ES256"@);
    assert(header_reads(input.to_be_signed, header));
    let prefix = prepared@->presentation_prefix;
    let payload = choose|payload: Json| #[trigger]
        payload_reads(input.to_be_signed, payload) && crate::issuance::signer::payload_says(
            payload,
            request.audience@,
            base64url_text(request.nonce@),
            iat,
        ) && text_member(payload, "sd_hash"@) == Some(
            base64url_text(sha256_digest(encode_utf8(prefix))),
        );
    assert(payload_reads(input.to_be_signed, payload));
    assert(payload_is_for(payload, request.audience@, request.nonce@, iat));
}

/// Two preparations of SD-JWT VCs give the same input to sign only where they are for the same
/// verifier, the same nonce and the same instant.
pub proof fn law_requests_are_told_apart(
    held_a: &HeldAttestation,
    request_a: &PresentationRequest,
    disclose_a: &Vec<String>,
    iat_a: i64,
    a: PreparedPresentation,
    held_b: &HeldAttestation,
    request_b: &PresentationRequest,
    disclose_b: &Vec<String>,
    iat_b: i64,
    b: PreparedPresentation,
)
    requires
        held_a is SdJwtVc,
        held_b is SdJwtVc,
        call_ensures(
            prepare_present,
            (held_a, request_a, disclose_a, iat_a),
            Ok::<PreparedPresentation, PresentError>(a),
        ),
        call_ensures(
            prepare_present,
            (held_b, request_b, disclose_b, iat_b),
            Ok::<PreparedPresentation, PresentError>(b),
        ),
        a.kind->kb.input.to_be_signed@ == b.kind->kb.input.to_be_signed@,
    ensures
        iat_a == iat_b,
        request_a.audience@ == request_b.audience@,
        request_a.nonce@ == request_b.nonce@,
{
    law_key_binding_is_for_the_request(held_a, request_a, disclose_a, iat_a, a);
    law_key_binding_is_for_the_request(held_b, request_b, disclose_b, iat_b, b);
    let bytes = a.kind->kb.input.to_be_signed@;
    let one = choose|payload: Json| #[trigger]
        payload_reads(bytes, payload) && payload_is_for(
            payload,
            request_a.audience@,
            request_a.nonce@,
            iat_a,
        );
    let two = choose|payload: Json| #[trigger]
        payload_reads(bytes, payload) && payload_is_for(
            payload,
            request_b.audience@,
            request_b.nonce@,
            iat_b,
        );
    law_signed_bytes_say_one_thing(bytes, one, two);
}

/// The bytes that a device signs for a request, over a document of a type and the device's own
/// namespaces.
pub open spec fn signed_for(
    bytes: Seq<u8>,
    audience: Seq<char>,
    nonce: Seq<u8>,
    response_uri: Seq<char>,
    doc_type: Cbor,
    name_spaces: Cbor,
) -> bool {
    let info = Cbor::Array(
        seq![
            Cbor::Text(audience),
            Cbor::Text(base64url_text(nonce)),
            Cbor::Null,
            Cbor::Text(response_uri),
        ],
    );
    let handover = Cbor::Array(
        seq![
            Cbor::Text("OpenID4VPHandover"@),
            Cbor::Bytes(sha256_digest(cbor_encoded(info))),
        ],
    );
    let transcript = Cbor::Array(seq![Cbor::Null, Cbor::Null, handover]);
    let authentication = Cbor::Array(
        seq![Cbor::Text("DeviceAuthentication"@), transcript, doc_type, name_spaces],
    );
    let payload = cbor_encoded(Cbor::Tag(24, Box::new(Cbor::Bytes(cbor_encoded(authentication)))));
    bytes == cbor_encoded(
        Cbor::Array(
            seq![
                Cbor::Text("Signature1"@),
                Cbor::Bytes(seq![0xa1u8, 0x01u8, 0x26u8]),
                Cbor::Bytes(Seq::empty()),
                Cbor::Bytes(payload),
            ],
        ),
    )
}

/// The namespaces that the device adds to a document.
pub open spec fn added_name_spaces(document: Cbor) -> Option<Cbor> {
    match map_entry(document, "deviceSigned"@) {
        Some(device_signed) => map_entry(device_signed, "nameSpaces"@),
        None => None,
    }
}

/// The input that is signed for an mdoc covers the verifier, the nonce and the response URI of the
/// request, the type of the one document, and the namespaces that the device adds: those in the
/// document, or none.
pub proof fn law_device_signature_is_for_the_request(
    held: &HeldAttestation,
    request: &PresentationRequest,
    disclose: &Vec<String>,
    iat: i64,
    prepared: PreparedPresentation,
    response: Cbor,
    document: Cbor,
)
    requires
        held matches HeldAttestation::Mdoc { device_response } && cbor_read(device_response@) == Ok::<
            Cbor,
            Seq<char>,
        >(response),
        map_entry(response, "documents"@) matches Some(Cbor::Array(documents)) && documents.len() > 0
            && documents[0] == document,
        call_ensures(
            prepare_present,
            (held, request, disclose, iat),
            Ok::<PreparedPresentation, PresentError>(prepared),
        ),
    ensures
        map_entry(response, "documents"@)->0->Array_0.len() == 1,
        prepared.kind matches PreparedKind::Mdoc { build, .. } && {
            &&& build.input.ceremony == Ceremony::DeviceSignature
            &&& build.input.audience@ == request.audience@
            &&& base64url_bytes(build.input.nonce@) == Some(request.nonce@)
            &&& map_entry(document, "docType"@) matches Some(doc_type) && doc_type is Text
                && signed_for(
                build.input.to_be_signed@,
                request.audience@,
                request.nonce@,
                request.response_uri@,
                doc_type,
                match added_name_spaces(document) {
                    Some(name_spaces) => name_spaces,
                    None => Cbor::Tag(
                        24,
                        Box::new(Cbor::Bytes(cbor_encoded(Cbor::Pairs(Seq::empty())))),
                    ),
                },
            )
        },
{
    assert(first_document(response) == Some(document));
    assert(doc_type_of(response) is Some);
    assert(signed_name_spaces(response) is Ok);
}

/// A finished presentation ends in the signature that was given: an SD-JWT VC is the prepared
/// presentation, the signed text, a point and the base64url text of the signature; and only a
/// signature of 64 bytes is taken.
pub proof fn law_finished_presentations_carry_the_signature(
    prepared: &PreparedPresentation,
    signature: &[u8],
    out: Result<HolderPresentation, PresentError>,
)
    requires
        call_ensures(PreparedPresentation::finish, (prepared, signature), out),
    ensures
        signature@.len() != 64 ==> out is Err,
        prepared.kind matches PreparedKind::SdJwtVc { presentation_prefix, kb } ==> {
            &&& out is Ok <==> signature@.len() == 64 && valid_utf8(kb.input.to_be_signed@)
            &&& out matches Ok(HolderPresentation::SdJwtVc { vp_token }) ==> forall|signed: Seq<char>|
                encode_utf8(signed) == kb.input.to_be_signed@ ==> vp_token@ == presentation_prefix@
                    + #[trigger] (signed + "."@) + base64url_text(signature@)
        },
        prepared.kind is SdJwtVc ==> (out matches Ok(presentation) ==> presentation is SdJwtVc),
        prepared.kind matches PreparedKind::Mdoc { build, .. } ==> (out matches Ok(presentation)
            ==> (presentation matches HolderPresentation::Mdoc { audience, .. } && audience@
            == build.input.audience@)),
{
    if let PreparedKind::SdJwtVc { presentation_prefix, kb } = prepared.kind {
        if let Ok(HolderPresentation::SdJwtVc { vp_token }) = out {
            assert forall|signed: Seq<char>| encode_utf8(signed)
                == kb.input.to_be_signed@ implies vp_token@ == presentation_prefix@ + #[trigger] (
            signed + "."@) + base64url_text(signature@) by {
                vstd::utf8::encode_utf8_decode_utf8(signed);
                assert(vp_token@ =~= presentation_prefix@ + (signed + "."@) + base64url_text(
                    signature@,
                ));
            }
        }
    }
}

} // verus!
