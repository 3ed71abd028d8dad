//! What is signed, and what a signature is put into.
use crate::cbor::{cbor_decoded, cbor_encoded, Cbor};
use crate::crypto::{base64url_text, sha256_digest};
use crate::issuance::device::{
    build_device_signature, empty_device_name_spaces_bytes, DeviceSignatureBuild,
};
use crate::issuance::signer::{
    assemble_compact_jws, build_kb_jwt, build_pop_jwt, check_sig_len, header_reads, is_key_binding,
    is_proof_of_possession, jws_signing_input, payload_reads, payload_says, public_jwk_only,
    public_part, Ceremony, HolderContext, KbJwtBuild, PopJwtBuild, SignatureAlgorithm, SignerError,
    SigningInput,
};
use crate::json::{
    json_encoded, json_i64, member, simple_value, text_member, Json, JsonValue, SIMPLE_DEPTH,
};
use crate::openid4vp::oid4vp_handover_transcript;
use vstd::prelude::*;
use vstd::utf8::{decode_utf8, encode_utf8, valid_utf8};

verus! {

/// A signature of ES256 has 64 bytes; any other is refused with its length.
pub proof fn law_signatures_have_64_bytes(
    algorithm: SignatureAlgorithm,
    signature: &[u8],
    out: Result<(), SignerError>,
)
    requires
        call_ensures(check_sig_len, (algorithm, signature), out),
    ensures
        out is Ok <==> signature@.len() == 64,
        out matches Err(error) ==> (error matches SignerError::BadSignatureLength(_, length)
            && length == signature@.len() as usize),
{
}

/// A compact JWS is what was signed, a point, and the signature in base64url.
pub proof fn law_signatures_stand_behind_what_was_signed(
    input: &SigningInput,
    signature: &[u8],
    out: Result<String, SignerError>,
)
    requires
        call_ensures(assemble_compact_jws, (input, signature), out),
    ensures
        out is Ok <==> signature@.len() == 64 && valid_utf8(input.to_be_signed@),
        out matches Ok(jws) ==> jws@ == decode_utf8(input.to_be_signed@) + "."@ + base64url_text(
            signature@,
        ),
{
}

/// What a JWS signs is the header and the payload as JSON, each in base64url, with a point between.
pub proof fn law_a_jws_signs_both_parts(
    header: &JsonValue,
    payload: &JsonValue,
    out: Result<Vec<u8>, SignerError>,
)
    requires
        call_ensures(jws_signing_input, (header, payload), out),
    ensures
        out matches Ok(bytes) ==> bytes@ == encode_utf8(
            base64url_text(json_encoded(header@)) + "."@ + base64url_text(json_encoded(payload@)),
        ),
        out is Err ==> 4 * json_encoded(header@).len() > usize::MAX || 4 * json_encoded(
            payload@,
        ).len() > usize::MAX,
{
}

/// The proofs and bindings that are built say of themselves what they are for.
pub proof fn law_built_inputs_say_what_they_are_for(
    holder: &HolderContext,
    audience: &str,
    nonce: &str,
    iat: i64,
    presentation_prefix: &str,
    proof_build: PopJwtBuild,
    binding: KbJwtBuild,
)
    requires
        call_ensures(build_pop_jwt, (holder, audience, nonce, iat), Ok(proof_build)),
        call_ensures(build_kb_jwt, (audience, nonce, iat, presentation_prefix), Ok(binding)),
    ensures
        is_proof_of_possession(
            proof_build.input@,
            holder.holder_public_jwk@,
            audience@,
            nonce@,
            iat,
        ),
        is_key_binding(binding.input@, audience@, nonce@, iat, presentation_prefix@),
        proof_build.input.ceremony == Ceremony::Oid4vciProof,
        binding.input.ceremony == Ceremony::KeyBinding,
        proof_build.input.audience@ == audience@,
        proof_build.input.nonce@ == nonce@,
        binding.input.audience@ == audience@,
        binding.input.nonce@ == nonce@,
{
}

/// What a device signs of a session.
pub open spec fn device_payload(doc_type: Seq<char>, transcript: Cbor, name_spaces: Cbor) -> Seq<u8> {
    cbor_encoded(
        Cbor::Tag(
            24,
            Box::new(
                Cbor::Bytes(
                    cbor_encoded(
                        Cbor::Array(
                            seq![
                                Cbor::Text("DeviceAuthentication"@),
                                transcript,
                                Cbor::Text(doc_type),
                                name_spaces,
                            ],
                        ),
                    ),
                ),
            ),
        ),
    )
}

/// A device signature is built over the type of the document, the transcript and the namespaces,
/// under the header of ES256, where both can be decoded.
pub proof fn law_device_signatures_are_built_over_the_session(
    doc_type: &str,
    session_transcript: &[u8],
    name_spaces: &[u8],
    audience: &str,
    nonce: &str,
    out: Result<DeviceSignatureBuild, SignerError>,
)
    requires
        call_ensures(
            build_device_signature,
            (doc_type, session_transcript, name_spaces, audience, nonce),
            out,
        ),
    ensures
        out is Ok <==> cbor_decoded(session_transcript@) is Some && cbor_decoded(name_spaces@) is Some,
        out matches Ok(build) ==> {
            let payload = device_payload(
                doc_type@,
                cbor_decoded(session_transcript@)->0,
                cbor_decoded(name_spaces@)->0,
            );
            &&& build.device_auth_payload@ == payload
            &&& build.protected_header_value@ == seq![0xa1u8, 0x01u8, 0x26u8]
            &&& build.input.ceremony == Ceremony::DeviceSignature
            &&& build.input.algorithm == SignatureAlgorithm::Es256
            &&& build.input.audience@ == audience@
            &&& build.input.nonce@ == nonce@
            &&& build.input.to_be_signed@ == cbor_encoded(
                Cbor::Array(
                    seq![
                        Cbor::Text("Signature1"@),
                        Cbor::Bytes(seq![0xa1u8, 0x01u8, 0x26u8]),
                        Cbor::Bytes(Seq::empty()),
                        Cbor::Bytes(payload),
                    ],
                ),
            )
        },
{
}

/// An assembled device signature is the array of the ES256 header, the empty map, null and the
/// signature.
pub proof fn law_device_signatures_are_assembled(
    build: &DeviceSignatureBuild,
    signature: &[u8],
    out: Result<Vec<u8>, SignerError>,
)
    requires
        build.protected_header_value@ == seq![0xa1u8, 0x01u8, 0x26u8],
        call_ensures(DeviceSignatureBuild::assemble, (build, signature), out),
    ensures
        out is Ok <==> signature@.len() == 64,
        out matches Ok(bytes) ==> cbor_decoded(bytes@) == Some(
            Cbor::Array(
                seq![
                    Cbor::Bytes(seq![0xa1u8, 0x01u8, 0x26u8]),
                    Cbor::Pairs(Seq::empty()),
                    Cbor::Null,
                    Cbor::Bytes(signature@),
                ],
            ),
        ),
{
}

/// Without anything of its own to disclose a device signs over the encoded empty map, wrapped.
pub proof fn law_empty_name_spaces(out: Result<Vec<u8>, SignerError>)
    requires
        call_ensures(empty_device_name_spaces_bytes, (), out),
    ensures
        out matches Ok(bytes) && cbor_decoded(bytes@) == Some(
            Cbor::Tag(24, Box::new(Cbor::Bytes(cbor_encoded(Cbor::Pairs(Seq::empty()))))),
        ),
{
}

/// The transcript of a session holds the hash over the verifier, the nonce, no thumbprint and the
/// place of the response.
pub proof fn law_transcripts_hold_the_request(
    audience: &str,
    nonce: &[u8],
    response_uri: &str,
    out: Vec<u8>,
)
    requires
        call_ensures(oid4vp_handover_transcript, (audience, nonce, response_uri), out),
    ensures
        cbor_decoded(out@) == Some(
            Cbor::Array(
                seq![
                    Cbor::Null,
                    Cbor::Null,
                    Cbor::Array(
                        seq![
                            Cbor::Text("OpenID4VPHandover"@),
                            Cbor::Bytes(
                                sha256_digest(
                                    cbor_encoded(
                                        Cbor::Array(
                                            seq![
                                                Cbor::Text(audience@),
                                                Cbor::Text(base64url_text(nonce@)),
                                                Cbor::Null,
                                                Cbor::Text(response_uri@),
                                            ],
                                        ),
                                    ),
                                ),
                            ),
                        ],
                    ),
                ],
            ),
        ),
{
}

/// What a proof of possession asks to have signed is read back as a payload with the audience under
/// `aud`, the nonce under `nonce` and the instant under `iat`, behind a header of the type
/// `openid4vci-proof+jwt` that names ES256 and holds the public part of the key under `jwk`.
pub proof fn law_proofs_of_possession_are_read_back(
    holder: &HolderContext,
    audience: &str,
    c_nonce: &str,
    iat: i64,
    build: PopJwtBuild,
    key: JsonValue,
)
    requires
        call_ensures(build_pop_jwt, (holder, audience, c_nonce, iat), Ok(build)),
        call_ensures(public_jwk_only, (&holder.holder_public_jwk,), key),
    ensures
        exists|payload: Json| #[trigger]
            payload_reads(build.input.to_be_signed@, payload) && {
                &&& member(payload, "aud"@) == Some(Json::Text(audience@))
                &&& member(payload, "nonce"@) == Some(Json::Text(c_nonce@))
                &&& member(payload, "iat"@) matches Some(Json::Number(number)) && json_i64(number)
                    == Some(iat)
            },
        simple_value(holder.holder_public_jwk@, (SIMPLE_DEPTH - 1) as nat) ==> exists|header: Json|
            #[trigger] header_reads(build.input.to_be_signed@, header) && {
                &&& member(header, "typ"@) == Some(Json::Text("openid4vci-proof+jwt"@))
                &&& member(header, "alg"@) == Some(Json::Text("ES256"@))
                &&& member(header, "jwk"@) == Some(key@)
            },
{
    let bytes = build.input.to_be_signed@;
    let payload = choose|payload: Json| #[trigger]
        payload_reads(bytes, payload) && payload_says(payload, audience@, c_nonce@, iat);
    assert(text_member(payload, "aud"@) == Some(audience@));
    assert(text_member(payload, "nonce"@) == Some(c_nonce@));
    assert(payload_reads(bytes, payload));
    if simple_value(holder.holder_public_jwk@, (SIMPLE_DEPTH - 1) as nat) {
        let header = choose|header: Json| #[trigger]
            header_reads(bytes, header) && text_member(header, "typ"@) == Some(
                "openid4vci-proof+jwt"@,
            ) && text_member(header, "alg"@) == Some("ES256"@) && member(header, "jwk"@) == Some(
                public_part(holder.holder_public_jwk@),
            );
        assert(header_reads(bytes, header));
    }
}

/// What a key binding asks to have signed is read back as a payload with the audience under `aud`,
/// the nonce under `nonce`, the instant under `iat` and the hash of the presentation under
/// `sd_hash`, behind a header of the type `kb+jwt` that names ES256.
pub proof fn law_key_bindings_are_read_back(
    audience: &str,
    nonce: &str,
    iat: i64,
    presentation_prefix: &str,
    build: KbJwtBuild,
)
    requires
        call_ensures(build_kb_jwt, (audience, nonce, iat, presentation_prefix), Ok(build)),
    ensures
        exists|payload: Json| #[trigger]
            payload_reads(build.input.to_be_signed@, payload) && {
                &&& member(payload, "aud"@) == Some(Json::Text(audience@))
                &&& member(payload, "nonce"@) == Some(Json::Text(nonce@))
                &&& member(payload, "iat"@) matches Some(Json::Number(number)) && json_i64(number)
                    == Some(iat)
                &&& member(payload, "sd_hash"@) == Some(
                    Json::Text(base64url_text(sha256_digest(encode_utf8(presentation_prefix@)))),
                )
            },
        exists|header: Json| #[trigger]
            header_reads(build.input.to_be_signed@, header) && {
                &&& member(header, "typ"@) == Some(Json::Text("kb+jwt"@))
                &&& member(header, "alg"@) == Some(Json::Text("ES256"@))
            },
{
    let bytes = build.input.to_be_signed@;
    let payload = choose|payload: Json| #[trigger]
        payload_reads(bytes, payload) && payload_says(payload, audience@, nonce@, iat)
            && text_member(payload, "sd_hash"@) == Some(
            base64url_text(sha256_digest(encode_utf8(presentation_prefix@))),
        );
    assert(text_member(payload, "aud"@) == Some(audience@));
    assert(text_member(payload, "nonce"@) == Some(nonce@));
    assert(payload_reads(bytes, payload));
    let header = choose|header: Json| #[trigger]
        header_reads(bytes, header) && text_member(header, "typ"@) == Some("kb+jwt"@)
            && text_member(header, "alg"@) == Some("ES256"@);
    assert(header_reads(bytes, header));
}

} // verus!
