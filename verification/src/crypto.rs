//! Digests, base64, and P-256 keys and signatures.
use crate::json::{get_text, text_member, Json, JsonValue};
use crate::text::{seen, str_eq, strip_white_space, trim, trimmed, without_white_space};
use vstd::prelude::*;
use vstd::utf8::encode_utf8;

verus! {

/// The name of SHA-256 in the registry of named information hash algorithms.
pub const SHA_256: &'static str = "sha-256";

/// The length of a P-256 coordinate, and of each half of a raw signature.
pub const P256_COORD_LEN: usize = 32;

/// The SHA-256 digest.
pub uninterp spec fn sha256_digest(data: Seq<u8>) -> Seq<u8>;

/// The SHA-384 digest.
pub uninterp spec fn sha384_digest(data: Seq<u8>) -> Seq<u8>;

/// The SHA-512 digest.
pub uninterp spec fn sha512_digest(data: Seq<u8>) -> Seq<u8>;

/// The unpadded base64url text of a byte string.
pub uninterp spec fn base64url_text(data: Seq<u8>) -> Seq<char>;

/// The bytes that an unpadded base64url text stands for, or the error of `base64ct` as text.
pub uninterp spec fn base64url_read(text: Seq<char>) -> Result<Seq<u8>, Seq<char>>;

/// The bytes that a padded base64 text stands for, or the error of `base64ct` as text.
pub uninterp spec fn base64_read(text: Seq<char>) -> Result<Seq<u8>, Seq<char>>;

/// Whether a byte string is the SEC1 encoding of a P-256 public key.
pub uninterp spec fn p256_key_valid(sec1: Seq<u8>) -> bool;

/// The uncompressed SEC1 encoding of the P-256 key of a DER certificate.
pub uninterp spec fn p256_certificate_key(certificate: Seq<u8>) -> Option<Seq<u8>>;

/// Whether a byte string is the raw form of an ES256 signature.
pub uninterp spec fn es256_signature_valid(signature: Seq<u8>) -> bool;

/// Whether a raw ES256 signature over `message` verifies under the key with encoding `sec1`.
pub uninterp spec fn es256_verifies(sec1: Seq<u8>, message: Seq<u8>, signature: Seq<u8>) -> bool;

/// `sha2::Sha256::digest`: 32 bytes.
#[verifier::external_body]
pub(crate) fn sha256(data: &[u8]) -> (out: Vec<u8>)
    ensures
        out@ == sha256_digest(data@),
        out@.len() == 32,
{
    <sha2::Sha256 as sha2::Digest>::digest(data).to_vec()
}

/// `sha2::Sha384::digest`: 48 bytes.
#[verifier::external_body]
pub(crate) fn sha384(data: &[u8]) -> (out: Vec<u8>)
    ensures
        out@ == sha384_digest(data@),
        out@.len() == 48,
{
    <sha2::Sha384 as sha2::Digest>::digest(data).to_vec()
}

/// `sha2::Sha512::digest`: 64 bytes.
#[verifier::external_body]
pub(crate) fn sha512(data: &[u8]) -> (out: Vec<u8>)
    ensures
        out@ == sha512_digest(data@),
        out@.len() == 64,
{
    <sha2::Sha512 as sha2::Digest>::digest(data).to_vec()
}

/// `base64ct::Base64UrlUnpadded::encode_string`, which panics where four times the length does not
/// fit: text of the URL-safe alphabet, from which the bytes can be read back.
#[verifier::external_body]
pub(crate) fn base64url_encode(data: &[u8]) -> (out: String)
    requires
        4 * data@.len() <= usize::MAX,
    ensures
        out@ == base64url_text(data@),
        base64url_bytes(out@) == Some(data@),
        base64url_alphabet(out@),
{
    <base64ct::Base64UrlUnpadded as base64ct::Encoding>::encode_string(data)
}

/// The characters of the URL-safe base64 alphabet.
pub open spec fn base64url_char(c: char) -> bool {
    'A' <= c <= 'Z' || 'a' <= c <= 'z' || '0' <= c <= '9' || c == '-' || c == '_'
}

/// Whether a text is made of characters of the URL-safe base64 alphabet.
pub open spec fn base64url_alphabet(text: Seq<char>) -> bool {
    forall|i: int| 0 <= i < text.len() ==> base64url_char(#[trigger] text[i])
}

/// The bytes that an unpadded base64url text stands for, where it is one.
pub open spec fn base64url_bytes(text: Seq<char>) -> Option<Seq<u8>> {
    match base64url_read(text) {
        Ok(data) => Some(data),
        Err(_) => None,
    }
}

/// `base64ct::Base64UrlUnpadded::decode_vec`, its error as text.
#[verifier::external_body]
pub(crate) fn base64url_decode(text: &str) -> (out: Result<Vec<u8>, String>)
    ensures
        match out {
            Ok(data) => base64url_read(text@) == Ok::<Seq<u8>, Seq<char>>(data@),
            Err(message) => base64url_read(text@) == Err::<Seq<u8>, Seq<char>>(message@),
        },
{
    <base64ct::Base64UrlUnpadded as base64ct::Encoding>::decode_vec(text).map_err(|e| e.to_string())
}

/// `base64ct::Base64::decode_vec`, its error as text.
#[verifier::external_body]
fn base64_decode(text: &str) -> (out: Result<Vec<u8>, String>)
    ensures
        match out {
            Ok(data) => base64_read(text@) == Ok::<Seq<u8>, Seq<char>>(data@),
            Err(message) => base64_read(text@) == Err::<Seq<u8>, Seq<char>>(message@),
        },
{
    <base64ct::Base64 as base64ct::Encoding>::decode_vec(text).map_err(|e| e.to_string())
}

/// `p256::ecdsa::VerifyingKey::from_sec1_bytes`: whether it accepts the bytes, which it does for
/// encodings of points of the curve only.
#[verifier::external_body]
fn sec1_is_key(sec1: &[u8]) -> (out: bool)
    ensures
        out == p256_key_valid(sec1@),
{
    p256::ecdsa::VerifyingKey::from_sec1_bytes(sec1).is_ok()
}

/// `x509_cert::Certificate::from_der`, the DER of its `SubjectPublicKeyInfo`, and
/// `p256::ecdsa::VerifyingKey::from_public_key_der` on that: the key, in its uncompressed
/// encoding; nothing where one of the three refuses.
#[verifier::external_body]
fn certificate_key(certificate: &[u8]) -> (out: Option<Vec<u8>>)
    ensures
        seen(out) == p256_certificate_key(certificate@),
        out matches Some(sec1) ==> p256_key_valid(sec1@),
{
    let parsed = <x509_cert::Certificate as der::Decode>::from_der(certificate).ok()?;
    let spki = der::Encode::to_der(&parsed.tbs_certificate.subject_public_key_info).ok()?;
    let key = <p256::ecdsa::VerifyingKey as p256::pkcs8::DecodePublicKey>::from_public_key_der(&spki);
    Some(key.ok()?.to_encoded_point(false).as_bytes().to_vec())
}

/// `p256::ecdsa::Signature::from_slice`: whether it accepts the bytes, which it does for 64 bytes
/// only.
#[verifier::external_body]
pub(crate) fn is_es256_signature(signature: &[u8]) -> (out: bool)
    ensures
        out == es256_signature_valid(signature@),
        out ==> signature@.len() == 64,
{
    p256::ecdsa::Signature::from_slice(signature).is_ok()
}

/// `p256::ecdsa::VerifyingKey::verify` on a key and a signature that both parse.
#[verifier::external_body]
fn verify_es256(sec1: &[u8], message: &[u8], signature: &[u8]) -> (out: bool)
    requires
        p256_key_valid(sec1@),
        es256_signature_valid(signature@),
    ensures
        out == es256_verifies(sec1@, message@, signature@),
{
    let key = p256::ecdsa::VerifyingKey::from_sec1_bytes(sec1).unwrap();
    let parsed = p256::ecdsa::Signature::from_slice(signature).unwrap();
    p256::ecdsa::signature::Verifier::verify(&key, message, &parsed).is_ok()
}

/// A P-256 public key.
#[derive(Debug)]
pub struct VerifyingKey {
    sec1: Vec<u8>,
}

impl View for VerifyingKey {
    type V = Seq<u8>;

    /// The SEC1 encoding of the key.
    closed spec fn view(&self) -> Seq<u8> {
        self.sec1@
    }
}

impl VerifyingKey {
    #[verifier::type_invariant]
    spec fn wf(self) -> bool {
        p256_key_valid(self.sec1@)
    }

    /// The key with SEC1 encoding `sec1`, where that is one.
    pub fn from_sec1_bytes(sec1: &[u8]) -> (out: Option<VerifyingKey>)
        ensures
            out is Some <==> p256_key_valid(sec1@),
            out matches Some(key) ==> key@ == sec1@,
    {
        if sec1_is_key(sec1) {
            Some(VerifyingKey { sec1: vstd::slice::slice_to_vec(sec1) })
        } else {
            None
        }
    }
}

/// Decode a padded base64 text, white space anywhere in it left out.
pub fn decode_base64_cert_lenient(body: &str) -> (out: Result<Vec<u8>, String>)
    ensures
        match out {
            Ok(data) => base64_read(without_white_space(body@)) == Ok::<Seq<u8>, Seq<char>>(data@),
            Err(message) => base64_read(without_white_space(body@)) == Err::<Seq<u8>, Seq<char>>(
                message@,
            ),
        },
{
    base64_decode(strip_white_space(body).as_str())
}

/// Decode a padded base64 text, white space at its start and end left out.
pub fn decode_base64_strict(s: &str) -> (out: Result<Vec<u8>, String>)
    ensures
        match out {
            Ok(data) => base64_read(trimmed(s@)) == Ok::<Seq<u8>, Seq<char>>(data@),
            Err(message) => base64_read(trimmed(s@)) == Err::<Seq<u8>, Seq<char>>(message@),
        },
{
    base64_decode(trim(s).as_str())
}

/// The SD-JWT `sd_hash` of a presentation prefix: the base64url text of the SHA-256 digest of its
/// UTF-8 bytes.
pub open spec fn sd_hash_of(prefix: Seq<char>) -> Seq<char> {
    base64url_text(sha256_digest(encode_utf8(prefix)))
}

/// The SD-JWT `sd_hash` of a presentation prefix.
pub fn sd_hash(prefix: &str) -> (out: String)
    ensures
        out@ == sd_hash_of(prefix@),
{
    let digest = sha256(prefix.as_bytes());
    base64url_encode(digest.as_slice())
}

/// The uncompressed SEC1 point with coordinates `x` and `y`, which must be 32 bytes each.
pub open spec fn sec1_point(x: Seq<u8>, y: Seq<u8>) -> Option<Seq<u8>> {
    if x.len() == P256_COORD_LEN && y.len() == P256_COORD_LEN {
        Some(seq![0x04u8] + x + y)
    } else {
        None
    }
}

/// Put an uncompressed SEC1 point together from its coordinates.
pub fn p256_sec1_from_coords(x: &[u8], y: &[u8]) -> (out: Option<Vec<u8>>)
    ensures
        seen(out) == sec1_point(x@, y@),
{
    if x.len() != P256_COORD_LEN || y.len() != P256_COORD_LEN {
        return None;
    }
    let mut sec1: Vec<u8> = Vec::new();
    sec1.push(0x04);
    sec1.extend_from_slice(x);
    sec1.extend_from_slice(y);
    assert(sec1@ =~= seq![0x04u8] + x@ + y@);
    Some(sec1)
}

/// The bytes of the base64url member `name`.
pub open spec fn base64url_member(jwk: Json, name: Seq<char>) -> Option<Seq<u8>> {
    match text_member(jwk, name) {
        Some(text) => base64url_bytes(text),
        None => None,
    }
}

/// The SEC1 point of a JWK of type `EC` on the curve `P-256`.
pub open spec fn jwk_point(jwk: Json) -> Option<Seq<u8>> {
    if text_member(jwk, "kty"@) != Some("EC"@) || text_member(jwk, "crv"@) != Some("P-256"@) {
        None
    } else {
        match (base64url_member(jwk, "x"@), base64url_member(jwk, "y"@)) {
            (Some(x), Some(y)) => sec1_point(x, y),
            _ => None,
        }
    }
}

fn has_text(value: &JsonValue, name: &str, expected: &str) -> (out: bool)
    ensures
        out == (text_member(value@, name@) == Some(expected@)),
{
    match get_text(value, name) {
        Some(text) => str_eq(text.as_str(), expected),
        None => false,
    }
}

fn member_bytes(jwk: &JsonValue, name: &str) -> (out: Option<Vec<u8>>)
    ensures
        seen(out) == base64url_member(jwk@, name@),
{
    match get_text(jwk, name) {
        Some(text) => match base64url_decode(text.as_str()) {
            Ok(data) => Some(data),
            Err(_) => None,
        },
        None => None,
    }
}

/// Read the SEC1 point of a JWK.
pub fn p256_sec1_from_jwk(jwk: &JsonValue) -> (out: Option<Vec<u8>>)
    ensures
        seen(out) == jwk_point(jwk@),
{
    if !has_text(jwk, "kty", "EC") || !has_text(jwk, "crv", "P-256") {
        return None;
    }
    let x = match member_bytes(jwk, "x") {
        Some(x) => x,
        None => {
            return None;
        },
    };
    let y = match member_bytes(jwk, "y") {
        Some(y) => y,
        None => {
            return None;
        },
    };
    p256_sec1_from_coords(x.as_slice(), y.as_slice())
}

/// The key of a JWK: its point, where that is on the curve.
pub open spec fn jwk_key(jwk: Json) -> Option<Seq<u8>> {
    match jwk_point(jwk) {
        Some(sec1) => if p256_key_valid(sec1) {
            Some(sec1)
        } else {
            None
        },
        None => None,
    }
}

/// Read the key of a JWK.
pub fn p256_verifying_key_from_jwk(jwk: &JsonValue) -> (out: Option<VerifyingKey>)
    ensures
        seen(out) == jwk_key(jwk@),
{
    match p256_sec1_from_jwk(jwk) {
        Some(sec1) => VerifyingKey::from_sec1_bytes(sec1.as_slice()),
        None => None,
    }
}

/// Read the key of a DER certificate.
pub fn p256_verifying_key_from_cert_der(cert_der: &[u8]) -> (out: Option<VerifyingKey>)
    ensures
        seen(out) == p256_certificate_key(cert_der@),
{
    match certificate_key(cert_der) {
        Some(sec1) => Some(VerifyingKey { sec1 }),
        None => None,
    }
}

/// Whether `signature` has the raw form and verifies over `message` under the key `sec1`.
pub open spec fn es256_holds(sec1: Seq<u8>, message: Seq<u8>, signature: Seq<u8>) -> bool {
    es256_signature_valid(signature) && es256_verifies(sec1, message, signature)
}

/// Verify an ES256 signature in its raw form. Any other encoding of a signature is refused.
pub fn p256_verify_es256(vk: &VerifyingKey, msg: &[u8], raw_sig: &[u8]) -> (out: Result<(), ()>)
    ensures
        out is Ok <==> es256_holds(vk@, msg@, raw_sig@),
{
    proof {
        use_type_invariant(vk);
    }
    if !is_es256_signature(raw_sig) {
        return Err(());
    }
    if verify_es256(vk.sec1.as_slice(), msg, raw_sig) {
        Ok(())
    } else {
        Err(())
    }
}

} // verus!
