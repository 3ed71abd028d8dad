//! The parts of OpenID4VP that a presentation is bound to: the request, the session transcript and
//! the token that answers it.
use crate::cbor::{
    cbor_decoded, cbor_encoded, cbor_to_vec, contents, lemma_array_content, simple_item, Cbor,
    CborValue,
};
use crate::crypto::{base64url_bytes, base64url_encode, base64url_text, sha256, sha256_digest};
use vstd::prelude::*;

verus! {

/// A DCQL query, as text.
#[derive(Debug, Clone)]
pub struct Dcql {
    /// The query.
    pub json: String,
}

impl Dcql {
    /// Keep a query.
    pub fn from_json(json: &str) -> (out: Dcql)
        ensures
            out.json@ == json@,
    {
        Dcql { json: json.to_owned() }
    }
}

/// A presentation request, as far as a presentation is bound to it.
#[derive(Debug, Clone)]
pub struct PresentationRequest {
    /// What is asked for.
    pub dcql: Dcql,
    /// The nonce, as raw bytes.
    pub nonce: Vec<u8>,
    /// The identifier of the verifier.
    pub audience: String,
    /// Where the response goes.
    pub response_uri: String,
}

impl PresentationRequest {
    /// The nonce as it stands on the wire.
    pub fn nonce_b64(&self) -> (out: String)
        requires
            4 * self.nonce@.len() <= usize::MAX,
        ensures
            out@ == base64url_text(self.nonce@),
            base64url_bytes(out@) == Some(self.nonce@),
    {
        base64url_encode(self.nonce.as_slice())
    }
}

/// What the hash in the handover covers: the verifier, the nonce and where the response goes. The
/// third place is for the thumbprint of an encryption key, and stays empty.
pub open spec fn handover_info(
    audience: Seq<char>,
    nonce: Seq<u8>,
    response_uri: Seq<char>,
) -> Cbor {
    Cbor::Array(
        seq![
            Cbor::Text(audience),
            Cbor::Text(base64url_text(nonce)),
            Cbor::Null,
            Cbor::Text(response_uri),
        ],
    )
}

/// The session transcript of an OpenID4VP presentation, without device engagement and reader key.
pub open spec fn handover_transcript(
    audience: Seq<char>,
    nonce: Seq<u8>,
    response_uri: Seq<char>,
) -> Cbor {
    Cbor::Array(
        seq![
            Cbor::Null,
            Cbor::Null,
            Cbor::Array(
                seq![
                    Cbor::Text("OpenID4VPHandover"@),
                    Cbor::Bytes(
                        sha256_digest(cbor_encoded(handover_info(audience, nonce, response_uri))),
                    ),
                ],
            ),
        ],
    )
}

/// Build the session transcript of an OpenID4VP presentation.
pub fn oid4vp_handover_transcript(audience: &str, nonce: &[u8], response_uri: &str) -> (out: Vec<
    u8,
>)
    requires
        4 * nonce@.len() <= usize::MAX,
    ensures
        out@ == cbor_encoded(handover_transcript(audience@, nonce@, response_uri@)),
        cbor_decoded(out@) == Some(handover_transcript(audience@, nonce@, response_uri@)),
{
    let info = vec![
        CborValue::Text(audience.to_owned()),
        CborValue::Text(base64url_encode(nonce)),
        CborValue::Null,
        CborValue::Text(response_uri.to_owned()),
    ];
    proof {
        lemma_array_content(info);
        assert(contents(info@) =~= handover_info(audience@, nonce@, response_uri@)->Array_0);
    }
    let info_bytes = cbor_to_vec(&CborValue::Array(info));
    let handover = vec![
        CborValue::Text("OpenID4VPHandover".to_owned()),
        CborValue::Bytes(sha256(info_bytes.as_slice())),
    ];
    proof {
        lemma_array_content(handover);
        assert(contents(handover@) =~= seq![
            Cbor::Text("OpenID4VPHandover"@),
            Cbor::Bytes(sha256_digest(cbor_encoded(handover_info(audience@, nonce@, response_uri@)))),
        ]);
    }
    let transcript = vec![CborValue::Null, CborValue::Null, CborValue::Array(handover)];
    proof {
        lemma_array_content(transcript);
        assert(contents(transcript@) =~= handover_transcript(
            audience@,
            nonce@,
            response_uri@,
        )->Array_0);
        reveal_with_fuel(simple_item, 3);
    }
    cbor_to_vec(&CborValue::Array(transcript))
}

/// An mdoc in a `vp_token`.
#[derive(Debug)]
pub struct MdocVpToken<'a> {
    /// The verifier that it is bound to.
    pub audience: &'a str,
    /// The encoded `DeviceResponse`.
    pub device_response: &'a [u8],
}

/// A `vp_token`: what answers a presentation request.
#[derive(Debug)]
pub enum VpToken<'a> {
    /// An SD-JWT VC with its key binding, in compact form.
    SdJwtVc(&'a str),
    /// An mdoc.
    Mdoc(MdocVpToken<'a>),
}

} // verus!
