//! The `DeviceSignature` of an mdoc: the bytes the holder signs, and the COSE_Sign1 the signature
//! is spliced into.
use crate::cbor::{
    cbor_decoded, cbor_encoded, cbor_read, cbor_to_vec, decode_or_message, encode_tagged_cbor,
    encoded_item, encoded_item_bytes, lemma_pairs_content, map_entry, Cbor, CborValue,
};
use crate::crypto::{es256_holds, p256_key_valid};
use crate::issuance::signer::{
    check_sig_len, Ceremony, InputContent, SignatureAlgorithm, SignerError, SignerFault,
    SigningInput, ES256_SIG_LEN,
};
use crate::mdoc::binding::{
    binding_verdict, build_device_authentication, device_authentication_bytes,
};
use crate::mdoc::cose::{
    alg_is_es256, cose_sign1, crit_understood, sig_structure, sig_structure_bytes, untagged,
};
use crate::text::seen;
use crate::types::ReasonCode;
use crate::mdoc::nesting::{
    header_nests_within_limit, protected_within, sign1_within, NESTING_LIMIT,
};
use vstd::prelude::*;

verus! {

/// The encoded protected header `{1: -7}`, which names ES256.
pub open spec fn es256_header() -> Seq<u8> {
    seq![0xa1u8, 0x01u8, 0x26u8]
}

/// The four items of a COSE_Sign1 with the ES256 header, no payload and a signature.
pub open spec fn detached_item(signature: Seq<u8>) -> Cbor {
    Cbor::Array(
        seq![
            Cbor::Bytes(es256_header()),
            Cbor::Pairs(Seq::empty()),
            Cbor::Null,
            Cbor::Bytes(signature),
        ],
    )
}

/// Whether an item is read as a COSE_Sign1 with the ES256 header, no payload and a signature.
pub open spec fn is_detached_signature(item: Cbor, signature: Seq<u8>) -> bool {
    &&& untagged(item) == item
    &&& sign1_within(item)
    &&& cose_sign1(item) matches Some(sign1) && {
        &&& sign1.protected == es256_header()
        &&& sign1.crit.len() == 0
        &&& alg_is_es256(sign1)
        &&& sign1.payload is None
        &&& sign1.signature == signature
    }
}

/// Whether bytes are read as a COSE_Sign1 with the ES256 header, no payload and a signature.
pub open spec fn encodes_detached_signature(bytes: Seq<u8>, signature: Seq<u8>) -> bool {
    &&& cbor_decoded(bytes) == Some(detached_item(signature))
    &&& is_detached_signature(detached_item(signature), signature)
}

/// What `coset` makes of a protected header and a signature: the bytes of a COSE_Sign1 without a
/// payload, or the message of its error.
pub uninterp spec fn detached_sign1(protected: Seq<u8>, signature: Seq<u8>) -> Result<
    Seq<u8>,
    Seq<char>,
>;

/// Whether counter signatures are not nested too deep in an encoded protected header. The ES256
/// header has none.
pub open spec fn header_readable(protected: Seq<u8>) -> bool {
    protected == es256_header() || protected_within(Cbor::Bytes(protected), NESTING_LIMIT as nat)
}

/// What is said of a header in which counter signatures are nested too deep.
pub open spec fn too_deep() -> Seq<char> {
    "counter signatures are nested too deep"@
}

/// `coset::HeaderBuilder` with `algorithm(ES256)`, encoded by `ProtectedHeader::cbor_bstr`: the
/// three bytes of the map `{1: -7}`.
#[verifier::external_body]
fn es256_protected_header() -> (out: Option<Vec<u8>>)
    ensures
        seen(out) == Some(es256_header()),
{
    let header = coset::HeaderBuilder::new().algorithm(coset::iana::Algorithm::ES256).build();
    let protected = coset::ProtectedHeader { original_data: None, header };
    protected.cbor_bstr().ok().and_then(|value| value.into_bytes().ok())
}

/// `coset::ProtectedHeader::from_cbor_bstr`, `CoseSign1Builder` and `CborSerializable::to_vec`: the
/// bytes of a COSE_Sign1 with this protected header and signature, and no payload. With the ES256
/// header they are those of the array of the header, the empty map, null and the signature, and
/// they are read back as that object. Counter signatures inside the header are read by recursion,
/// so they must not be nested too deep.
#[verifier::external_body]
fn write_detached_sign1(protected: &[u8], signature: &[u8]) -> (out: Result<Vec<u8>, String>)
    requires
        header_readable(protected@),
    ensures
        match out {
            Ok(bytes) => detached_sign1(protected@, signature@) == Ok::<Seq<u8>, Seq<char>>(bytes@)
                && (protected@ == es256_header() ==> bytes@ == cbor_encoded(
                detached_item(signature@),
            ) && encodes_detached_signature(bytes@, signature@)),
            Err(message) => detached_sign1(protected@, signature@) == Err::<Seq<u8>, Seq<char>>(
                message@,
            ) && protected@ != es256_header(),
        },
{
    let bytes = coset::cbor::value::Value::Bytes(protected.to_vec());
    let protected = coset::ProtectedHeader::from_cbor_bstr(bytes).map_err(|e| e.to_string())?;
    let sign1 = coset::CoseSign1Builder::new()
        .protected(protected.header)
        .signature(signature.to_vec())
        .build();
    coset::CborSerializable::to_vec(sign1).map_err(|e| e.to_string())
}

/// A device signature, up to the signature itself.
#[derive(Debug, Clone, PartialEq, Eq)]
pub struct DeviceSignatureBuild {
    /// The input to sign.
    pub input: SigningInput,
    /// The payload that the signature covers, which is not sent along.
    pub device_auth_payload: Vec<u8>,
    /// The encoded protected header that the signature covers.
    pub protected_header_value: Vec<u8>,
}

/// The mathematical content of a [`DeviceSignatureBuild`].
pub struct DeviceBuild {
    pub input: InputContent,
    pub device_auth_payload: Seq<u8>,
    pub protected_header_value: Seq<u8>,
}

impl View for DeviceSignatureBuild {
    type V = DeviceBuild;

    open spec fn view(&self) -> DeviceBuild {
        DeviceBuild {
            input: self.input@,
            device_auth_payload: self.device_auth_payload@,
            protected_header_value: self.protected_header_value@,
        }
    }
}

/// The encoded COSE_Sign1 that a signature over a build is spliced into.
pub open spec fn assembled_device_signature(build: DeviceBuild, signature: Seq<u8>) -> Result<
    Seq<u8>,
    SignerFault,
> {
    if signature.len() != ES256_SIG_LEN {
        Err(SignerFault::BadSignatureLength(build.input.algorithm, signature.len() as usize))
    } else if build.protected_header_value == es256_header() {
        Ok(cbor_encoded(detached_item(signature)))
    } else if !header_readable(build.protected_header_value) {
        Err(SignerFault::Serialize(too_deep()))
    } else {
        match detached_sign1(build.protected_header_value, signature) {
            Ok(bytes) => Ok(bytes),
            Err(message) => Err(SignerFault::Serialize(message)),
        }
    }
}

impl DeviceSignatureBuild {
    /// Splice the signature into a COSE_Sign1 without a payload, and encode it. Over the ES256
    /// header, every signature of the right length succeeds.
    pub fn assemble(&self, signature: &[u8]) -> (out: Result<Vec<u8>, SignerError>)
        ensures
            match assembled_device_signature(self@, signature@) {
                Ok(bytes) => out matches Ok(cose) && cose@ == bytes,
                Err(fault) => out matches Err(error) && error@ == fault,
            },
            signature@.len() == ES256_SIG_LEN && self@.protected_header_value == es256_header()
                ==> (out matches Ok(cose) && encodes_detached_signature(cose@, signature@)),
    {
        match check_sig_len(self.input.algorithm, signature) {
            Ok(_) => {},
            Err(error) => {
                return Err(error);
            },
        }
        let header: &Vec<u8> = &self.protected_header_value;
        let plain = header.len() == 3 && header[0] == 0xa1 && header[1] == 0x01 && header[2] == 0x26;
        proof {
            if plain {
                assert(header@ =~= es256_header());
            }
        }
        if !plain && !header_nests_within_limit(header) {
            return Err(SignerError::Serialize("counter signatures are nested too deep".to_owned()));
        }
        match write_detached_sign1(self.protected_header_value.as_slice(), signature) {
            Ok(cose) => Ok(cose),
            Err(message) => Err(SignerError::Serialize(message)),
        }
    }
}

/// The device signature build over a document type, a session transcript and the device's own
/// namespaces.
pub open spec fn built_over(
    doc_type: Seq<char>,
    transcript: Cbor,
    name_spaces: Cbor,
    audience: Seq<char>,
    nonce: Seq<char>,
) -> DeviceBuild {
    let payload = device_authentication_bytes(transcript, doc_type, name_spaces);
    DeviceBuild {
        input: InputContent {
            ceremony: Ceremony::DeviceSignature,
            algorithm: SignatureAlgorithm::Es256,
            to_be_signed: cbor_encoded(sig_structure(es256_header(), payload)),
            audience,
            nonce,
        },
        device_auth_payload: payload,
        protected_header_value: es256_header(),
    }
}

/// The device signature build over an encoded session transcript and encoded namespaces, where both
/// can be decoded.
pub open spec fn device_build(
    doc_type: Seq<char>,
    session_transcript: Seq<u8>,
    device_name_spaces_bytes: Seq<u8>,
    audience: Seq<char>,
    nonce: Seq<char>,
) -> Result<DeviceBuild, SignerFault> {
    match (cbor_read(device_name_spaces_bytes), cbor_read(session_transcript)) {
        (Err(message), _) => Err(SignerFault::Serialize(message)),
        (_, Err(message)) => Err(SignerFault::Serialize(message)),
        (Ok(name_spaces), Ok(transcript)) => Ok(
            built_over(doc_type, transcript, name_spaces, audience, nonce),
        ),
    }
}

/// Build a device signature, up to the signature itself.
pub fn build_device_signature(
    doc_type: &str,
    session_transcript: &[u8],
    device_name_spaces_bytes: &[u8],
    audience: &str,
    nonce: &str,
) -> (out: Result<DeviceSignatureBuild, SignerError>)
    ensures
        match device_build(
            doc_type@,
            session_transcript@,
            device_name_spaces_bytes@,
            audience@,
            nonce@,
        ) {
            Ok(content) => out matches Ok(build) && build@ == content,
            Err(fault) => out matches Err(error) && error@ == fault,
        },
{
    match decode_or_message(device_name_spaces_bytes) {
        Ok(_) => {},
        Err(message) => {
            return Err(SignerError::Serialize(message));
        },
    }
    let transcript = match decode_or_message(session_transcript) {
        Ok(transcript) => transcript,
        Err(message) => {
            return Err(SignerError::Serialize(message));
        },
    };
    let device_auth_payload = match build_device_authentication(
        &transcript,
        doc_type,
        device_name_spaces_bytes,
    ) {
        Some(payload) => payload,
        None => {
            return Err(SignerError::Serialize("encode DeviceAuthentication".to_owned()));
        },
    };
    let protected_header_value = match es256_protected_header() {
        Some(header) => header,
        None => {
            return Err(SignerError::Serialize("encode COSE protected header".to_owned()));
        },
    };
    let to_be_signed = sig_structure_bytes(
        protected_header_value.as_slice(),
        device_auth_payload.as_slice(),
    );
    Ok(
        DeviceSignatureBuild {
            input: SigningInput::for_device_signature(
                to_be_signed,
                audience.to_owned(),
                nonce.to_owned(),
            ),
            device_auth_payload,
            protected_header_value,
        },
    )
}

/// The empty device namespaces.
pub open spec fn empty_name_spaces() -> Cbor {
    encoded_item(cbor_encoded(Cbor::Pairs(Seq::empty())))
}

/// The bytes to sign over when the device discloses nothing of its own.
pub fn empty_device_name_spaces_bytes() -> (out: Result<Vec<u8>, SignerError>)
    ensures
        out matches Ok(bytes) && bytes@ == cbor_encoded(empty_name_spaces()) && cbor_decoded(bytes@)
            == Some(empty_name_spaces()),
{
    let entries: Vec<(CborValue, CborValue)> = Vec::new();
    proof {
        lemma_pairs_content(entries);
        assert(crate::cbor::pair_contents(entries@) =~= Seq::<(Cbor, Cbor)>::empty());
    }
    let inner = cbor_to_vec(&CborValue::Pairs(entries));
    Ok(encode_tagged_cbor(inner.as_slice()))
}

/// The holder and the verifier agree on what is signed: a document that carries an assembled device
/// signature next to the namespaces it was built over passes the holder binding exactly when the
/// device key verifies the signature over the built input. So a signature over another document
/// type, transcript or namespaces is of no use.
pub proof fn law_holder_and_verifier_agree(
    document: Cbor,
    sec1: Seq<u8>,
    doc_type: Seq<char>,
    session_transcript: Seq<u8>,
    transcript: Cbor,
    audience: Seq<char>,
    nonce: Seq<char>,
    device_signed: Cbor,
    device_auth: Cbor,
    item: Cbor,
    name_spaces: Cbor,
    signature: Seq<u8>,
)
    requires
        p256_key_valid(sec1),
        cbor_decoded(session_transcript) == Some(transcript),
        map_entry(document, "deviceSigned"@) == Some(device_signed),
        map_entry(device_signed, "nameSpaces"@) == Some(name_spaces),
        encoded_item_bytes(name_spaces) is Some,
        map_entry(device_signed, "deviceAuth"@) == Some(device_auth),
        map_entry(device_auth, "deviceSignature"@) == Some(item),
        is_detached_signature(item, signature),
    ensures
        ({
            let build = built_over(doc_type, transcript, name_spaces, audience, nonce);
            let verdict = binding_verdict(document, sec1, doc_type, Some(session_transcript));
            if es256_holds(sec1, build.input.to_be_signed, signature) {
                verdict is None
            } else {
                verdict == Some(ReasonCode::HolderBinding)
            }
        }),
{
    assert(crit_understood(cose_sign1(item)->Some_0));
}

} // verus!
