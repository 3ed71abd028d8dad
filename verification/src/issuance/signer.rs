//! The holder's signer hook, and the inputs it is asked to sign.
use crate::crypto::{
    base64url_alphabet, base64url_bytes, base64url_encode, base64url_text, jwk_point,
    p256_sec1_from_jwk, sd_hash, sd_hash_of,
};
use crate::json::{
    integer_number, json_encoded, json_i64, json_integer, member, member_contents, no_members,
    put_member, put_text, read_back, simple_value, text_member, to_bytes, Json, JsonValue,
    SIMPLE_DEPTH,
};
use crate::text::{decimal, decimal_text, joined3, seen, text_bytes, utf8_error, utf8_text};

use vstd::prelude::*;
use vstd::utf8::{decode_utf8, encode_utf8, valid_utf8};

verus! {

/// The length of a raw ES256 signature.
pub const ES256_SIG_LEN: usize = 64;

/// The algorithm a holder key signs with.
#[derive(Debug, Clone, Copy, PartialEq, Eq, Hash, Structural)]
pub enum SignatureAlgorithm {
    /// ECDSA over P-256 with SHA-256.
    Es256,
}

impl SignatureAlgorithm {
    /// The JOSE name of the algorithm.
    pub open spec fn jose_name(self) -> Seq<char> {
        match self {
            SignatureAlgorithm::Es256 => "ES256"@,
        }
    }

    /// The JOSE name of the algorithm.
    pub fn jose_alg(self) -> (out: &'static str)
        ensures
            out@ == self.jose_name(),
    {
        match self {
            SignatureAlgorithm::Es256 => "ES256",
        }
    }
}

/// The ceremony that a signing input belongs to.
#[derive(Debug, Clone, Copy, PartialEq, Eq, Hash, Structural)]
pub enum Ceremony {
    /// The proof of possession of OpenID4VCI.
    Oid4vciProof,
    /// The key-binding JWT of an SD-JWT VC.
    KeyBinding,
    /// The device signature of an mdoc.
    DeviceSignature,
}

/// The bytes a holder key is asked to sign, with the audience and the nonce they bind.
#[derive(Debug, Clone, PartialEq, Eq)]
pub struct SigningInput {
    pub ceremony: Ceremony,
    pub algorithm: SignatureAlgorithm,
    pub to_be_signed: Vec<u8>,
    pub audience: String,
    pub nonce: String,
}

/// The mathematical content of a [`SigningInput`].
pub struct InputContent {
    pub ceremony: Ceremony,
    pub algorithm: SignatureAlgorithm,
    pub to_be_signed: Seq<u8>,
    pub audience: Seq<char>,
    pub nonce: Seq<char>,
}

impl View for SigningInput {
    type V = InputContent;

    open spec fn view(&self) -> InputContent {
        InputContent {
            ceremony: self.ceremony,
            algorithm: self.algorithm,
            to_be_signed: self.to_be_signed@,
            audience: self.audience@,
            nonce: self.nonce@,
        }
    }
}

impl SigningInput {
    /// The input of a device signature.
    pub fn for_device_signature(to_be_signed: Vec<u8>, audience: String, nonce: String) -> (out:
        SigningInput)
        ensures
            out@ == (InputContent {
                ceremony: Ceremony::DeviceSignature,
                algorithm: SignatureAlgorithm::Es256,
                to_be_signed: to_be_signed@,
                audience: audience@,
                nonce: nonce@,
            }),
    {
        SigningInput {
            ceremony: Ceremony::DeviceSignature,
            algorithm: SignatureAlgorithm::Es256,
            to_be_signed,
            audience,
            nonce,
        }
    }

    /// The ceremony of the input.
    pub fn ceremony(&self) -> (out: Ceremony)
        ensures
            out == self@.ceremony,
    {
        self.ceremony
    }

    /// The algorithm to sign with.
    pub fn algorithm(&self) -> (out: SignatureAlgorithm)
        ensures
            out == self@.algorithm,
    {
        self.algorithm
    }

    /// The bytes to sign.
    pub fn to_be_signed(&self) -> (out: &[u8])
        ensures
            out@ == self@.to_be_signed,
    {
        self.to_be_signed.as_slice()
    }

    /// The audience that the input binds.
    pub fn audience(&self) -> (out: &str)
        ensures
            out@ == self@.audience,
    {
        self.audience.as_str()
    }

    /// The nonce that the input binds.
    pub fn nonce(&self) -> (out: &str)
        ensures
            out@ == self@.nonce,
    {
        self.nonce.as_str()
    }

    /// A copy of the input.
    pub fn copy(&self) -> (out: SigningInput)
        ensures
            out@ == self@,
    {
        SigningInput {
            ceremony: self.ceremony,
            algorithm: self.algorithm,
            to_be_signed: crate::text::copy_bytes(&self.to_be_signed),
            audience: self.audience.clone(),
            nonce: self.nonce.clone(),
        }
    }
}

/// The holder's key custody, supplied by the integrator.
pub trait Signer {
    /// The error of the signer.
    type Error;

    /// Sign the bytes of `input` with the key that `handle` selects.
    fn sign(&self, handle: &str, input: &SigningInput) -> (out: Result<Vec<u8>, Self::Error>);
}

/// The holder's public key, and the handle by which the signer finds the private one.
#[derive(Debug)]
pub struct HolderContext {
    /// The public key as a JWK.
    pub holder_public_jwk: JsonValue,
    /// What the signer selects the private key by.
    pub key_handle: String,
}

/// The members of a JWK that hold private or symmetric key material.
pub open spec fn private_member(name: Seq<char>) -> bool {
    ||| name == "d"@
    ||| name == "p"@
    ||| name == "q"@
    ||| name == "dp"@
    ||| name == "dq"@
    ||| name == "qi"@
    ||| name == "k"@
    ||| name == "oth"@
}

/// A JWK without the members that hold private or symmetric key material.
pub open spec fn public_part(jwk: Json) -> Json {
    match jwk {
        Json::Object(members) => Json::Object(
            Map::new(
                |name: Seq<char>| members.contains_key(name) && !private_member(name),
                |name: Seq<char>| members[name],
            ),
        ),
        other => other,
    }
}

/// No private member is left in the public part of a JWK, and every other member is.
pub proof fn law_public_part_holds_no_secret(jwk: Json, name: Seq<char>)
    requires
        jwk is Object,
    ensures
        public_part(jwk) is Object,
        private_member(name) ==> crate::json::member(public_part(jwk), name) is None,
        !private_member(name) ==> crate::json::member(public_part(jwk), name)
            == crate::json::member(jwk, name),
        public_part(public_part(jwk)) == public_part(jwk),
{
    assert(public_part(public_part(jwk))->Object_0 =~= public_part(jwk)->Object_0);
}

/// Take the members that hold private or symmetric key material out of a JWK.
pub fn public_jwk_only(jwk: &JsonValue) -> (out: JsonValue)
    ensures
        out@ == public_part(jwk@),
{
    match jwk.copy() {
        JsonValue::Object(copied) => {
            let mut members = copied;
            proof {
                crate::json::lemma_object_content(members);
            }
            let ghost before = members@;
            let _ = members.remove("d");
            let _ = members.remove("p");
            let _ = members.remove("q");
            let _ = members.remove("dp");
            let _ = members.remove("dq");
            let _ = members.remove("qi");
            let _ = members.remove("k");
            let _ = members.remove("oth");
            proof {
                crate::json::lemma_object_content(members);
                assert(member_contents(members@) =~= public_part(
                    Json::Object(member_contents(before)),
                )->Object_0);
            }
            JsonValue::Object(members)
        },
        other => other,
    }
}

/// The confirmation object of a JWK: its public part under `jwk`.
pub open spec fn confirmation(jwk: Json) -> Json {
    Json::Object(Map::empty().insert("jwk"@, public_part(jwk)))
}

impl HolderContext {
    /// The context of a holder.
    pub fn new(holder_public_jwk: JsonValue, key_handle: String) -> (out: HolderContext)
        ensures
            out.holder_public_jwk@ == holder_public_jwk@,
            out.key_handle@ == key_handle@,
    {
        HolderContext { holder_public_jwk, key_handle }
    }

    /// The holder's key without any private member.
    pub fn public_jwk_only(&self) -> (out: JsonValue)
        ensures
            out@ == public_part(self.holder_public_jwk@),
    {
        public_jwk_only(&self.holder_public_jwk)
    }

    /// The confirmation object that an issuer binds the holder's key with.
    pub fn cnf(&self) -> (out: JsonValue)
        ensures
            out@ == confirmation(self.holder_public_jwk@),
    {
        let mut members = no_members();
        put_member(&mut members, "jwk", self.public_jwk_only());
        proof {
            crate::json::lemma_object_content(members);
        }
        JsonValue::Object(members)
    }

    /// The SEC1 point of the holder's key, where the JWK is a P-256 key.
    pub fn public_sec1(&self) -> (out: Option<Vec<u8>>)
        ensures
            seen(out) == jwk_point(self.holder_public_jwk@),
    {
        p256_sec1_from_jwk(&self.holder_public_jwk)
    }
}

/// Why an input could not be built or a signature could not be spliced in.
#[derive(Debug, Clone, PartialEq, Eq)]
pub enum SignerError {
    /// The signature has not the length that the algorithm gives.
    BadSignatureLength(SignatureAlgorithm, usize),
    /// A part could not be serialized.
    Serialize(String),
}

/// The mathematical content of a [`SignerError`].
pub enum SignerFault {
    BadSignatureLength(SignatureAlgorithm, usize),
    Serialize(Seq<char>),
}

impl View for SignerError {
    type V = SignerFault;

    open spec fn view(&self) -> SignerFault {
        match self {
            SignerError::BadSignatureLength(algorithm, length) => SignerFault::BadSignatureLength(
                *algorithm,
                *length,
            ),
            SignerError::Serialize(message) => SignerFault::Serialize(message@),
        }
    }
}

/// The message of a fault.
pub open spec fn signer_message(fault: SignerFault) -> Seq<char> {
    match fault {
        SignerFault::BadSignatureLength(algorithm, length) =>
            "unexpected signature length for Es256: got "@ + decimal(length as nat) + " bytes"@,
        SignerFault::Serialize(message) => "failed to serialize a signing input: "@ + message,
    }
}

impl SignerError {
    /// The message of the error.
    pub fn message(&self) -> (out: String)
        ensures
            out@ == signer_message(self@),
    {
        match self {
            SignerError::BadSignatureLength(_, length) => {
                let count: u64 = *length as u64;
                joined3(
                    "unexpected signature length for Es256: got ",
                    decimal_text(count).as_str(),
                    " bytes",
                )
            },
            SignerError::Serialize(message) => crate::text::joined(
                "failed to serialize a signing input: ",
                message.as_str(),
            ),
        }
    }
}

/// Refuse a signature that has not the length of the algorithm.
pub fn check_sig_len(algorithm: SignatureAlgorithm, signature: &[u8]) -> (out: Result<
    (),
    SignerError,
>)
    ensures
        signature@.len() == ES256_SIG_LEN ==> out is Ok,
        signature@.len() != ES256_SIG_LEN ==> (out matches Err(error) && error@
            == SignerFault::BadSignatureLength(algorithm, signature@.len() as usize)),
{
    match algorithm {
        SignatureAlgorithm::Es256 => if signature.len() == ES256_SIG_LEN {
            Ok(())
        } else {
            Err(SignerError::BadSignatureLength(algorithm, signature.len()))
        },
    }
}

/// What is said of a value whose text is too long to be encoded.
pub open spec fn too_long() -> Seq<char> {
    "the value is too long to encode"@
}

/// Whether the base64url text of a value's JSON text can be counted.
pub open spec fn encodable(value: Json) -> bool {
    4 * json_encoded(value).len() <= usize::MAX
}

/// Whether a value can be read back from its part of a JWS, where it is a simple one.
pub open spec fn part_reads_back(value: Json) -> bool {
    let part = base64url_text(json_encoded(value));
    &&& base64url_alphabet(part)
    &&& base64url_bytes(part) == Some(json_encoded(value))
    &&& simple_value(value, SIMPLE_DEPTH as nat) ==> read_back(json_encoded(value)) == Some(value)
}

fn encode_part(value: &JsonValue) -> (out: Result<String, SignerError>)
    ensures
        match out {
            Ok(text) => encodable(value@) && text@ == base64url_text(json_encoded(value@))
                && part_reads_back(value@),
            Err(error) => !encodable(value@) && error@ == SignerFault::Serialize(too_long()),
        },
{
    let bytes = to_bytes(value);
    if bytes.len() > usize::MAX / 4 {
        return Err(SignerError::Serialize("the value is too long to encode".to_owned()));
    }
    Ok(base64url_encode(bytes.as_slice()))
}

/// The first two parts of a compact JWS.
pub open spec fn jws_input(header: Json, payload: Json) -> Seq<char> {
    base64url_text(json_encoded(header)) + "."@ + base64url_text(json_encoded(payload))
}

/// Two parts with a point between them.
pub open spec fn dotted(first: Seq<char>, second: Seq<char>) -> Seq<char> {
    first + "."@ + second
}

/// Whether bytes are two base64url parts with a point between them, of which the first is read as a
/// header.
pub open spec fn header_reads(bytes: Seq<u8>, header: Json) -> bool {
    exists|first: Seq<char>, second: Seq<char>|
        {
            &&& bytes == encode_utf8(#[trigger] dotted(first, second))
            &&& base64url_alphabet(first)
            &&& base64url_alphabet(second)
            &&& base64url_bytes(first) matches Some(json) && read_back(json) == Some(header)
        }
}

/// Whether bytes are two base64url parts with a point between them, of which the second is read as
/// a payload.
pub open spec fn payload_reads(bytes: Seq<u8>, payload: Json) -> bool {
    exists|first: Seq<char>, second: Seq<char>|
        {
            &&& bytes == encode_utf8(#[trigger] dotted(first, second))
            &&& base64url_alphabet(first)
            &&& base64url_alphabet(second)
            &&& base64url_bytes(second) matches Some(json) && read_back(json) == Some(payload)
        }
}

proof fn lemma_parts_apart(a: Seq<char>, b: Seq<char>, c: Seq<char>, d: Seq<char>)
    requires
        base64url_alphabet(a),
        base64url_alphabet(c),
        encode_utf8(dotted(a, b)) == encode_utf8(dotted(c, d)),
    ensures
        a == c,
        b == d,
{
    vstd::utf8::encode_utf8_decode_utf8(dotted(a, b));
    vstd::utf8::encode_utf8_decode_utf8(dotted(c, d));
    reveal_strlit(".");
    let one = dotted(a, b);
    let two = dotted(c, d);
    assert(one == two);
    if a.len() < c.len() {
        assert(one[a.len() as int] == '.');
        assert(two[a.len() as int] == c[a.len() as int]);
    }
    if c.len() < a.len() {
        assert(two[c.len() as int] == '.');
        assert(one[c.len() as int] == a[c.len() as int]);
    }
    assert(a =~= one.take(a.len() as int));
    assert(c =~= two.take(c.len() as int));
    assert(b =~= one.skip(a.len() as int + 1));
    assert(d =~= two.skip(c.len() as int + 1));
}

/// The bytes that a signature of a compact JWS covers say one thing only: no two payloads, and no
/// two headers, are read from the same bytes.
pub proof fn law_signed_bytes_say_one_thing(bytes: Seq<u8>, a: Json, b: Json)
    ensures
        payload_reads(bytes, a) && payload_reads(bytes, b) ==> a == b,
        header_reads(bytes, a) && header_reads(bytes, b) ==> a == b,
{
    if payload_reads(bytes, a) && payload_reads(bytes, b) {
        let (f1, s1) = choose|first: Seq<char>, second: Seq<char>|
            {
                &&& bytes == encode_utf8(#[trigger] dotted(first, second))
                &&& base64url_alphabet(first)
                &&& base64url_alphabet(second)
                &&& base64url_bytes(second) matches Some(json) && read_back(json) == Some(a)
            };
        let (f2, s2) = choose|first: Seq<char>, second: Seq<char>|
            {
                &&& bytes == encode_utf8(#[trigger] dotted(first, second))
                &&& base64url_alphabet(first)
                &&& base64url_alphabet(second)
                &&& base64url_bytes(second) matches Some(json) && read_back(json) == Some(b)
            };
        lemma_parts_apart(f1, s1, f2, s2);
    }
    if header_reads(bytes, a) && header_reads(bytes, b) {
        let (f1, s1) = choose|first: Seq<char>, second: Seq<char>|
            {
                &&& bytes == encode_utf8(#[trigger] dotted(first, second))
                &&& base64url_alphabet(first)
                &&& base64url_alphabet(second)
                &&& base64url_bytes(first) matches Some(json) && read_back(json) == Some(a)
            };
        let (f2, s2) = choose|first: Seq<char>, second: Seq<char>|
            {
                &&& bytes == encode_utf8(#[trigger] dotted(first, second))
                &&& base64url_alphabet(first)
                &&& base64url_alphabet(second)
                &&& base64url_bytes(first) matches Some(json) && read_back(json) == Some(b)
            };
        lemma_parts_apart(f1, s1, f2, s2);
    }
}

/// Whether a payload names an audience, a nonce and an instant.
pub open spec fn payload_says(
    payload: Json,
    audience: Seq<char>,
    nonce: Seq<char>,
    iat: i64,
) -> bool {
    &&& text_member(payload, "aud"@) == Some(audience)
    &&& text_member(payload, "nonce"@) == Some(nonce)
    &&& member(payload, "iat"@) matches Some(Json::Number(number)) && json_i64(number) == Some(iat)
}

/// Whether an input is a key binding for an audience, a nonce and an instant, over the hash of the
/// presentation it goes with.
pub open spec fn is_key_binding(
    input: InputContent,
    audience: Seq<char>,
    nonce: Seq<char>,
    iat: i64,
    presentation_prefix: Seq<char>,
) -> bool {
    &&& input.ceremony == Ceremony::KeyBinding
    &&& input.algorithm == SignatureAlgorithm::Es256
    &&& input.audience == audience
    &&& input.nonce == nonce
    &&& exists|header: Json| #[trigger]
        header_reads(input.to_be_signed, header) && text_member(header, "typ"@) == Some("kb+jwt"@)
            && text_member(header, "alg"@) == Some("ES256"@)
    &&& exists|payload: Json| #[trigger]
        payload_reads(input.to_be_signed, payload) && payload_says(payload, audience, nonce, iat)
            && text_member(payload, "sd_hash"@) == Some(
            base64url_text(crate::crypto::sha256_digest(encode_utf8(presentation_prefix))),
        )
}

/// Whether an input is a proof of possession for an audience, a nonce and an instant, with the
/// public part of a key in its header, where that can be read back.
pub open spec fn is_proof_of_possession(
    input: InputContent,
    jwk: Json,
    audience: Seq<char>,
    c_nonce: Seq<char>,
    iat: i64,
) -> bool {
    &&& input.ceremony == Ceremony::Oid4vciProof
    &&& input.algorithm == SignatureAlgorithm::Es256
    &&& input.audience == audience
    &&& input.nonce == c_nonce
    &&& simple_value(jwk, (SIMPLE_DEPTH - 1) as nat) ==> exists|header: Json| #[trigger]
        header_reads(input.to_be_signed, header) && text_member(header, "typ"@) == Some(
            "openid4vci-proof+jwt"@,
        ) && text_member(header, "alg"@) == Some("ES256"@) && member(header, "jwk"@) == Some(
            public_part(jwk),
        )
    &&& exists|payload: Json| #[trigger]
        payload_reads(input.to_be_signed, payload) && payload_says(payload, audience, c_nonce, iat)
}

proof fn lemma_built_reads(header: Json, payload: Json, bytes: Seq<u8>)
    requires
        bytes == encode_utf8(jws_input(header, payload)),
        part_reads_back(header),
        part_reads_back(payload),
    ensures
        simple_value(header, SIMPLE_DEPTH as nat) ==> header_reads(bytes, header),
        simple_value(payload, SIMPLE_DEPTH as nat) ==> payload_reads(bytes, payload),
{
    let first = base64url_text(json_encoded(header));
    let second = base64url_text(json_encoded(payload));
    assert(jws_input(header, payload) == dotted(first, second));
}

/// Build the bytes that the signature of a compact JWS covers. Both parts can be read back from it.
pub fn jws_signing_input(header: &JsonValue, payload: &JsonValue) -> (out: Result<
    Vec<u8>,
    SignerError,
>)
    ensures
        match out {
            Ok(bytes) => encodable(header@) && encodable(payload@) && bytes@ == encode_utf8(
                jws_input(header@, payload@),
            ) && part_reads_back(header@) && part_reads_back(payload@),
            Err(error) => !(encodable(header@) && encodable(payload@)) && error@
                == SignerFault::Serialize(too_long()),
        },
{
    let first = match encode_part(header) {
        Ok(first) => first,
        Err(error) => {
            return Err(error);
        },
    };
    let second = match encode_part(payload) {
        Ok(second) => second,
        Err(error) => {
            return Err(error);
        },
    };
    let text = joined3(first.as_str(), ".", second.as_str());
    Ok(text_bytes(text.as_str()))
}

/// A compact JWS from its first two parts and a signature.
pub open spec fn spliced(prefix: Seq<char>, signature: Seq<u8>) -> Seq<char> {
    prefix + "."@ + base64url_text(signature)
}

/// Put a signature behind the first two parts of a compact JWS.
pub fn splice_compact_jws(prefix: &str, signature: &[u8]) -> (out: String)
    requires
        4 * signature@.len() <= usize::MAX,
    ensures
        out@ == spliced(prefix@, signature@),
{
    let last = base64url_encode(signature);
    joined3(prefix, ".", last.as_str())
}

/// The compact JWS of an input and a signature over it.
pub open spec fn assembled_jws(input: InputContent, signature: Seq<u8>) -> Result<
    Seq<char>,
    SignerFault,
> {
    if signature.len() != ES256_SIG_LEN {
        Err(SignerFault::BadSignatureLength(input.algorithm, signature.len() as usize))
    } else if !valid_utf8(input.to_be_signed) {
        Err(SignerFault::Serialize(utf8_error(input.to_be_signed)))
    } else {
        Ok(spliced(decode_utf8(input.to_be_signed), signature))
    }
}

/// Assemble a compact JWS from an input and a signature over it.
pub fn assemble_compact_jws(input: &SigningInput, signature: &[u8]) -> (out: Result<
    String,
    SignerError,
>)
    ensures
        match assembled_jws(input@, signature@) {
            Ok(jws) => out matches Ok(text) && text@ == jws,
            Err(fault) => out matches Err(error) && error@ == fault,
        },
{
    match check_sig_len(input.algorithm, signature) {
        Ok(_) => {},
        Err(error) => {
            return Err(error);
        },
    }
    match utf8_text(input.to_be_signed.as_slice()) {
        Ok(prefix) => Ok(splice_compact_jws(prefix.as_str(), signature)),
        Err(message) => Err(SignerError::Serialize(message)),
    }
}

/// A proof of possession, up to its signature.
#[derive(Debug, Clone, PartialEq, Eq)]
pub struct PopJwtBuild {
    /// The input to sign.
    pub input: SigningInput,
}

impl PopJwtBuild {
    /// Splice the signature into the compact JWT.
    pub fn assemble(&self, signature: &[u8]) -> (out: Result<String, SignerError>)
        ensures
            match assembled_jws(self.input@, signature@) {
                Ok(jws) => out matches Ok(text) && text@ == jws,
                Err(fault) => out matches Err(error) && error@ == fault,
            },
    {
        assemble_compact_jws(&self.input, signature)
    }
}

/// The header of a proof of possession.
pub open spec fn pop_header(jwk: Json) -> Json {
    Json::Object(
        Map::empty().insert("typ"@, Json::Text("openid4vci-proof+jwt"@)).insert(
            "alg"@,
            Json::Text("ES256"@),
        ).insert("jwk"@, public_part(jwk)),
    )
}

/// The payload of a proof of possession.
pub open spec fn pop_payload(audience: Seq<char>, c_nonce: Seq<char>, iat: i64) -> Json {
    Json::Object(
        Map::empty().insert("aud"@, Json::Text(audience)).insert(
            "nonce"@,
            Json::Text(c_nonce),
        ).insert("iat"@, Json::Number(json_integer(iat))),
    )
}

/// The input of a compact JWS that binds an audience and a nonce.
pub open spec fn jws_ceremony(
    ceremony: Ceremony,
    header: Json,
    payload: Json,
    audience: Seq<char>,
    nonce: Seq<char>,
) -> Result<InputContent, SignerFault> {
    if encodable(header) && encodable(payload) {
        Ok(
            InputContent {
                ceremony,
                algorithm: SignatureAlgorithm::Es256,
                to_be_signed: encode_utf8(jws_input(header, payload)),
                audience,
                nonce,
            },
        )
    } else {
        Err(SignerFault::Serialize(too_long()))
    }
}

/// The input of a proof of possession: the holder's public key travels in its header, the audience,
/// the nonce and the instant in its payload.
pub open spec fn pop_input(
    jwk: Json,
    audience: Seq<char>,
    c_nonce: Seq<char>,
    iat: i64,
) -> Result<InputContent, SignerFault> {
    jws_ceremony(
        Ceremony::Oid4vciProof,
        pop_header(jwk),
        pop_payload(audience, c_nonce, iat),
        audience,
        c_nonce,
    )
}

/// Build a proof of possession, up to its signature.
pub fn build_pop_jwt(holder: &HolderContext, audience: &str, c_nonce: &str, iat: i64) -> (out:
    Result<PopJwtBuild, SignerError>)
    ensures
        match pop_input(holder.holder_public_jwk@, audience@, c_nonce@, iat) {
            Ok(input) => out matches Ok(build) && build.input@ == input,
            Err(fault) => out matches Err(error) && error@ == fault,
        },
        out is Ok ==> part_reads_back(pop_header(holder.holder_public_jwk@)) && part_reads_back(
            pop_payload(audience@, c_nonce@, iat),
        ) && json_i64(json_integer(iat)) == Some(iat),
        out matches Ok(build) ==> is_proof_of_possession(
            build.input@,
            holder.holder_public_jwk@,
            audience@,
            c_nonce@,
            iat,
        ),
{
    let mut header_members = no_members();
    put_text(&mut header_members, "typ", "openid4vci-proof+jwt");
    put_text(&mut header_members, "alg", SignatureAlgorithm::Es256.jose_alg());
    put_member(&mut header_members, "jwk", holder.public_jwk_only());
    let mut payload_members = no_members();
    put_text(&mut payload_members, "aud", audience);
    put_text(&mut payload_members, "nonce", c_nonce);
    put_member(&mut payload_members, "iat", JsonValue::Number(integer_number(iat)));
    proof {
        crate::json::lemma_object_content(header_members);
        crate::json::lemma_object_content(payload_members);
    }
    let header = JsonValue::Object(header_members);
    let payload = JsonValue::Object(payload_members);
    let to_be_signed = match jws_signing_input(&header, &payload) {
        Ok(bytes) => bytes,
        Err(error) => {
            return Err(error);
        },
    };
    proof {
        lemma_part_keys();
        law_written_parts_are_simple(
            holder.holder_public_jwk@,
            audience@,
            c_nonce@,
            iat,
            Seq::empty(),
        );
        let jwk = holder.holder_public_jwk@;
        assert(header@ == pop_header(jwk));
        assert(payload@ == pop_payload(audience@, c_nonce@, iat));
        law_proof_of_possession_binds(jwk, audience@, c_nonce@, iat);
        lemma_built_reads(header@, payload@, to_be_signed@);
        assert(payload_reads(to_be_signed@, payload@));
        assert(payload_says(payload@, audience@, c_nonce@, iat));
    }
    let ghost to_be_signed_bytes = to_be_signed@;
    let build = PopJwtBuild {
        input: SigningInput {
            ceremony: Ceremony::Oid4vciProof,
            algorithm: SignatureAlgorithm::Es256,
            to_be_signed,
            audience: audience.to_owned(),
            nonce: c_nonce.to_owned(),
        },
    };
    proof {
        let input = build.input@;
        assert(input.to_be_signed == to_be_signed_bytes);
        assert(input.audience == audience@);
        assert(exists|p: Json| #[trigger]
            payload_reads(input.to_be_signed, p) && payload_says(p, audience@, c_nonce@, iat));
    }
    Ok(build)
}

/// A key-binding JWT, up to its signature.
#[derive(Debug, Clone, PartialEq, Eq)]
pub struct KbJwtBuild {
    /// The input to sign.
    pub input: SigningInput,
}

impl KbJwtBuild {
    /// Splice the signature into the compact JWT.
    pub fn assemble(&self, signature: &[u8]) -> (out: Result<String, SignerError>)
        ensures
            match assembled_jws(self.input@, signature@) {
                Ok(jws) => out matches Ok(text) && text@ == jws,
                Err(fault) => out matches Err(error) && error@ == fault,
            },
    {
        assemble_compact_jws(&self.input, signature)
    }
}

/// The header of a key-binding JWT.
pub open spec fn kb_header() -> Json {
    Json::Object(
        Map::empty().insert("typ"@, Json::Text("kb+jwt"@)).insert("alg"@, Json::Text("ES256"@)),
    )
}

/// The payload of a key-binding JWT.
pub open spec fn kb_payload(
    audience: Seq<char>,
    nonce: Seq<char>,
    iat: i64,
    presentation_prefix: Seq<char>,
) -> Json {
    Json::Object(
        Map::empty().insert("iat"@, Json::Number(json_integer(iat))).insert(
            "aud"@,
            Json::Text(audience),
        ).insert("nonce"@, Json::Text(nonce)).insert(
            "sd_hash"@,
            Json::Text(sd_hash_of(presentation_prefix)),
        ),
    )
}

/// The input of a key-binding JWT: it binds the audience, the nonce, the instant and the hash of
/// the presentation it is appended to.
pub open spec fn kb_input(
    audience: Seq<char>,
    nonce: Seq<char>,
    iat: i64,
    presentation_prefix: Seq<char>,
) -> Result<InputContent, SignerFault> {
    jws_ceremony(
        Ceremony::KeyBinding,
        kb_header(),
        kb_payload(audience, nonce, iat, presentation_prefix),
        audience,
        nonce,
    )
}

/// Build a key-binding JWT, up to its signature.
pub fn build_kb_jwt(audience: &str, nonce: &str, iat: i64, presentation_prefix: &str) -> (out:
    Result<KbJwtBuild, SignerError>)
    ensures
        match kb_input(audience@, nonce@, iat, presentation_prefix@) {
            Ok(input) => out matches Ok(build) && build.input@ == input,
            Err(fault) => out matches Err(error) && error@ == fault,
        },
        out is Ok ==> part_reads_back(kb_header()) && part_reads_back(
            kb_payload(audience@, nonce@, iat, presentation_prefix@),
        ) && json_i64(json_integer(iat)) == Some(iat),
        out matches Ok(build) ==> is_key_binding(
            build.input@,
            audience@,
            nonce@,
            iat,
            presentation_prefix@,
        ),
{
    let hash = sd_hash(presentation_prefix);
    let mut header_members = no_members();
    put_text(&mut header_members, "typ", "kb+jwt");
    put_text(&mut header_members, "alg", SignatureAlgorithm::Es256.jose_alg());
    let mut payload_members = no_members();
    put_member(&mut payload_members, "iat", JsonValue::Number(integer_number(iat)));
    put_text(&mut payload_members, "aud", audience);
    put_text(&mut payload_members, "nonce", nonce);
    put_text(&mut payload_members, "sd_hash", hash.as_str());
    proof {
        crate::json::lemma_object_content(header_members);
        crate::json::lemma_object_content(payload_members);
    }
    let header = JsonValue::Object(header_members);
    let payload = JsonValue::Object(payload_members);
    let to_be_signed = match jws_signing_input(&header, &payload) {
        Ok(bytes) => bytes,
        Err(error) => {
            return Err(error);
        },
    };
    proof {
        lemma_part_keys();
        law_written_parts_are_simple(
            Json::Null,
            audience@,
            nonce@,
            iat,
            presentation_prefix@,
        );
        assert(header@ == kb_header());
        assert(payload@ == kb_payload(audience@, nonce@, iat, presentation_prefix@));
        law_key_binding_binds(audience@, nonce@, iat, presentation_prefix@);
        lemma_built_reads(header@, payload@, to_be_signed@);
        assert(header_reads(to_be_signed@, header@));
        assert(payload_reads(to_be_signed@, payload@));
        assert(payload_says(payload@, audience@, nonce@, iat));
    }
    let ghost to_be_signed_bytes = to_be_signed@;
    let build = KbJwtBuild {
        input: SigningInput {
            ceremony: Ceremony::KeyBinding,
            algorithm: SignatureAlgorithm::Es256,
            to_be_signed,
            audience: audience.to_owned(),
            nonce: nonce.to_owned(),
        },
    };
    proof {
        let input = build.input@;
        assert(input.to_be_signed == to_be_signed_bytes);
        assert(input.audience == audience@);
        assert(exists|h: Json| #[trigger]
            header_reads(input.to_be_signed, h) && text_member(h, "typ"@) == Some("kb+jwt"@)
                && text_member(h, "alg"@) == Some("ES256"@));
    }
    Ok(build)
}

/// An input that this crate builds for a compact JWS assembles with every signature of the right
/// length, into the input's own text followed by the signature.
pub proof fn law_built_inputs_assemble(header: Json, payload: Json, input: InputContent, signature: Seq<u8>)
    requires
        input.to_be_signed == encode_utf8(jws_input(header, payload)),
        signature.len() == ES256_SIG_LEN,
    ensures
        assembled_jws(input, signature) == Ok::<Seq<char>, SignerFault>(
            spliced(jws_input(header, payload), signature),
        ),
{
    vstd::utf8::encode_utf8_valid_utf8(jws_input(header, payload));
    vstd::utf8::encode_utf8_decode_utf8(jws_input(header, payload));
}

/// The keys of the parts that this crate writes differ from each other.
proof fn lemma_part_keys()
    ensures
        "aud"@ != "nonce"@,
        "aud"@ != "iat"@,
        "aud"@ != "sd_hash"@,
        "nonce"@ != "iat"@,
        "nonce"@ != "sd_hash"@,
        "iat"@ != "sd_hash"@,
        "typ"@ != "alg"@,
        "typ"@ != "jwk"@,
        "alg"@ != "jwk"@,
{
    reveal_strlit("aud");
    reveal_strlit("nonce");
    reveal_strlit("iat");
    reveal_strlit("sd_hash");
    reveal_strlit("typ");
    reveal_strlit("alg");
    reveal_strlit("jwk");
    assert("aud"@.len() == 3 && "iat"@.len() == 3 && "nonce"@.len() == 5 && "sd_hash"@.len() == 7);
    assert("aud"@[0] == 'a' && "iat"@[0] == 'i');
    assert("typ"@[0] == 't' && "alg"@[0] == 'a' && "jwk"@[0] == 'j');
}

/// What a proof of possession says: who it is for, the nonce, the instant, and the public part of
/// the holder's key, without any private member.
pub proof fn law_proof_of_possession_binds(
    jwk: Json,
    audience: Seq<char>,
    c_nonce: Seq<char>,
    iat: i64,
)
    ensures
        text_member(pop_payload(audience, c_nonce, iat), "aud"@) == Some(audience),
        text_member(pop_payload(audience, c_nonce, iat), "nonce"@) == Some(c_nonce),
        member(pop_payload(audience, c_nonce, iat), "iat"@) == Some(
            Json::Number(json_integer(iat)),
        ),
        text_member(pop_header(jwk), "typ"@) == Some("openid4vci-proof+jwt"@),
        text_member(pop_header(jwk), "alg"@) == Some("ES256"@),
        member(pop_header(jwk), "jwk"@) == Some(public_part(jwk)),
        jwk is Object ==> forall|name: Seq<char>| #[trigger]
            private_member(name) ==> member(public_part(jwk), name) is None,
{
    lemma_part_keys();
}

/// What a key binding says: who it is for, the nonce, the instant, and the hash of the presentation
/// that it goes with.
pub proof fn law_key_binding_binds(
    audience: Seq<char>,
    nonce: Seq<char>,
    iat: i64,
    presentation_prefix: Seq<char>,
)
    ensures
        ({
            let payload = kb_payload(audience, nonce, iat, presentation_prefix);
            &&& text_member(payload, "aud"@) == Some(audience)
            &&& text_member(payload, "nonce"@) == Some(nonce)
            &&& member(payload, "iat"@) == Some(Json::Number(json_integer(iat)))
            &&& text_member(payload, "sd_hash"@) == Some(sd_hash_of(presentation_prefix))
        }),
        text_member(kb_header(), "typ"@) == Some("kb+jwt"@),
        text_member(kb_header(), "alg"@) == Some("ES256"@),
{
    lemma_part_keys();
}

/// The payloads that this crate writes are simple, so they can be read back; and so is a header
/// where the key in it is.
pub proof fn law_written_parts_are_simple(
    jwk: Json,
    audience: Seq<char>,
    nonce: Seq<char>,
    iat: i64,
    presentation_prefix: Seq<char>,
)
    requires
        json_i64(json_integer(iat)) == Some(iat),
    ensures
        simple_value(pop_payload(audience, nonce, iat), SIMPLE_DEPTH as nat),
        simple_value(kb_header(), SIMPLE_DEPTH as nat),
        simple_value(kb_payload(audience, nonce, iat, presentation_prefix), SIMPLE_DEPTH as nat),
        simple_value(jwk, (SIMPLE_DEPTH - 1) as nat) ==> simple_value(
            pop_header(jwk),
            SIMPLE_DEPTH as nat,
        ),
{
    reveal_with_fuel(simple_value, 2);
    if simple_value(jwk, (SIMPLE_DEPTH - 1) as nat) {
        assert(simple_value(public_part(jwk), (SIMPLE_DEPTH - 1) as nat)) by {
            if let Json::Object(members) = jwk {
                assert forall|name: Seq<char>| #[trigger]
                    public_part(jwk)->Object_0.contains_key(name) implies simple_value(
                    public_part(jwk)->Object_0[name],
                    (SIMPLE_DEPTH - 2) as nat,
                ) by {
                    assert(members.contains_key(name));
                }
            }
        }
    }
}

} // verus!
