//! COSE_Sign1 objects: parsing, header gates, and ES256 verification.
use crate::cbor::{
    cbor_encoded, cbor_tree, content_tree, contents, integer_label, integer_of, pair_contents,
    tree_content, Cbor, CborValue,
};
use crate::crypto::{
    es256_holds, p256_certificate_key, p256_key_valid, p256_verify_es256,
    p256_verifying_key_from_cert_der, VerifyingKey,
};
use crate::mdoc::failure::VerifyFailure;
use crate::mdoc::nesting::{sign1_nests_within_limit, sign1_within};
use crate::text::{byte_strings, copy_bytes, seen};
use crate::types::ReasonCode;
use vstd::prelude::*;

verus! {

/// The label of the `alg` header parameter.
pub const COSE_HEADER_ALG: i64 = 1;

/// The label of the `x5chain` header parameter.
pub const COSE_HEADER_X5CHAIN: i64 = 33;

/// The algorithm identifier of ES256.
pub const COSE_ALG_ES256: i64 = -7;

/// A parsed COSE_Sign1. Header labels and the algorithm are kept as the items they are encoded as.
#[derive(Debug)]
pub struct CoseSign1 {
    /// The encoded protected header, as it was received.
    pub protected: Vec<u8>,
    /// The `alg` parameter of the protected header.
    pub alg: Option<CborValue>,
    /// The labels that the `crit` parameter of the protected header lists.
    pub crit: Vec<CborValue>,
    /// The parameters of the unprotected header that have no place of their own in COSE.
    pub unprotected: Vec<(CborValue, CborValue)>,
    /// The attached payload.
    pub payload: Option<Vec<u8>>,
    /// The signature.
    pub signature: Vec<u8>,
}

/// The mathematical content of a [`CoseSign1`].
pub struct Sign1 {
    pub protected: Seq<u8>,
    pub alg: Option<Cbor>,
    pub crit: Seq<Cbor>,
    pub unprotected: Seq<(Cbor, Cbor)>,
    pub payload: Option<Seq<u8>>,
    pub signature: Seq<u8>,
}

impl View for CoseSign1 {
    type V = Sign1;

    open spec fn view(&self) -> Sign1 {
        Sign1 {
            protected: self.protected@,
            alg: seen(self.alg),
            crit: contents(self.crit@),
            unprotected: pair_contents(self.unprotected@),
            payload: seen(self.payload),
            signature: self.signature@,
        }
    }
}

/// A COSE_Sign1 as `coset` hands it out, its items still trees.
struct Sign1Trees {
    protected: Vec<u8>,
    alg: Option<ciborium::value::Value>,
    crit: Vec<ciborium::value::Value>,
    unprotected: Vec<(ciborium::value::Value, ciborium::value::Value)>,
    payload: Option<Vec<u8>>,
    signature: Vec<u8>,
}

spec fn trees_content(trees: Sign1Trees) -> Sign1 {
    Sign1 {
        protected: trees.protected@,
        alg: match trees.alg {
            Some(tree) => Some(cbor_tree(tree)),
            None => None,
        },
        crit: trees.crit@.map_values(|tree: ciborium::value::Value| cbor_tree(tree)),
        unprotected: trees.unprotected@.map_values(
            |pair: (ciborium::value::Value, ciborium::value::Value)|
                (cbor_tree(pair.0), cbor_tree(pair.1)),
        ),
        payload: seen(trees.payload),
        signature: trees.signature@,
    }
}

/// What `coset` reads an item as, where it is a COSE_Sign1.
pub uninterp spec fn cose_sign1(value: Cbor) -> Option<Sign1>;

/// Whether `fields` are the four items of a COSE_Sign1 with these byte strings.
pub open spec fn sign1_fields(value: Cbor, sign1: Sign1) -> bool {
    &&& value is Array
    &&& value->Array_0.len() == 4
    &&& value->Array_0[0] == Cbor::Bytes(sign1.protected)
    &&& value->Array_0[2] == (match sign1.payload {
        Some(payload) => Cbor::Bytes(payload),
        None => Cbor::Null,
    })
    &&& value->Array_0[3] == Cbor::Bytes(sign1.signature)
}

/// `coset::CoseSign1::from_cbor_value`: the fields of the object. It accepts an array of four items
/// only, and keeps the protected header, the payload and the signature as they stand there. Labels
/// and the algorithm are turned back into items by `to_cbor_value`. Counter signatures inside the
/// headers are read by recursion, so they must not be nested too deep.
#[verifier::external_body]
fn read_sign1(tree: ciborium::value::Value) -> (out: Option<Sign1Trees>)
    requires
        sign1_within(cbor_tree(tree)),
    ensures
        match out {
            Some(trees) => {
                &&& cose_sign1(cbor_tree(tree)) == Some(trees_content(trees))
                &&& sign1_fields(cbor_tree(tree), trees_content(trees))
            },
            None => cose_sign1(cbor_tree(tree)) is None,
        },
{
    let sign1 = <coset::CoseSign1 as coset::AsCborValue>::from_cbor_value(tree).ok()?;
    let header = sign1.protected.header;
    Some(Sign1Trees {
        protected: sign1.protected.original_data?,
        alg: header.alg.map(|label| coset::AsCborValue::to_cbor_value(label).unwrap()),
        crit: header.crit.into_iter().map(|l| coset::AsCborValue::to_cbor_value(l).unwrap()).collect(),
        unprotected: sign1.unprotected.rest.into_iter().map(
            |(label, v)| (coset::AsCborValue::to_cbor_value(label).unwrap(), v),
        ).collect(),
        payload: sign1.payload,
        signature: sign1.signature,
    })
}

/// The structure that a COSE_Sign1 signature is computed over, without external data.
pub open spec fn sig_structure(protected: Seq<u8>, payload: Seq<u8>) -> Cbor {
    Cbor::Array(
        seq![
            Cbor::Text("Signature1"@),
            Cbor::Bytes(protected),
            Cbor::Bytes(Seq::empty()),
            Cbor::Bytes(payload),
        ],
    )
}

/// `coset::sig_structure_data` in the context of a COSE_Sign1, with a protected header whose bytes
/// are given and no external data: the encoding of the array of the context, the header, the empty
/// byte string and the payload.
#[verifier::external_body]
pub(crate) fn sig_structure_bytes(protected: &[u8], payload: &[u8]) -> (out: Vec<u8>)
    ensures
        out@ == cbor_encoded(sig_structure(protected@, payload@)),
{
    let header = coset::ProtectedHeader {
        original_data: Some(protected.to_vec()),
        header: coset::Header::default(),
    };
    coset::sig_structure_data(coset::SignatureContext::CoseSign1, header, None, &[], payload)
}

/// The integer item `n`, in any of its forms.
pub open spec fn is_integer(value: Cbor, n: i64) -> bool {
    integer_of(value) == Some(n)
}

/// Whether every critical header parameter is one that is processed here, which is `alg` alone.
pub open spec fn crit_understood(sign1: Sign1) -> bool {
    forall|i: int|
        0 <= i < sign1.crit.len() ==> is_integer(#[trigger] sign1.crit[i], COSE_HEADER_ALG)
}

/// The array inside a tagged item, or the item itself.
pub open spec fn untagged(value: Cbor) -> Cbor {
    match value {
        Cbor::Tag(_, inner) => *inner,
        other => other,
    }
}

/// The COSE_Sign1 that an item holds, tagged or not, where no critical header parameter is beyond
/// this crate and counter signatures are not nested too deep.
pub open spec fn sign1_of(value: Cbor) -> Option<Sign1> {
    match cose_sign1(untagged(value)) {
        Some(sign1) => if sign1_within(untagged(value)) && crit_understood(sign1) {
            Some(sign1)
        } else {
            None
        },
        None => None,
    }
}

/// Whether the protected header names ES256.
pub open spec fn alg_is_es256(sign1: Sign1) -> bool {
    sign1.alg matches Some(alg) && is_integer(alg, COSE_ALG_ES256)
}

fn trees_value(trees: Sign1Trees) -> (out: CoseSign1)
    ensures
        out@ == trees_content(trees),
{
    let alg = match trees.alg {
        Some(tree) => Some(tree_content(tree)),
        None => None,
    };
    let mut crit_trees = trees.crit;
    let ghost crit_all = crit_trees@;
    let mut crit: Vec<CborValue> = Vec::new();
    while crit_trees.len() > 0
        invariant
            crit@.len() + crit_trees@.len() == crit_all.len(),
            forall|i: int| 0 <= i < crit@.len() ==> (#[trigger] crit@[i])@ == cbor_tree(crit_all[i]),
            crit_trees@ =~= crit_all.skip(crit@.len() as int),
        decreases crit_trees@.len(),
    {
        let tree = crit_trees.remove(0);
        crit.push(tree_content(tree));
    }
    let mut rest_trees = trees.unprotected;
    let ghost rest_all = rest_trees@;
    let mut unprotected: Vec<(CborValue, CborValue)> = Vec::new();
    while rest_trees.len() > 0
        invariant
            unprotected@.len() + rest_trees@.len() == rest_all.len(),
            forall|i: int|
                0 <= i < unprotected@.len() ==> (#[trigger] unprotected@[i]).0@ == cbor_tree(
                    rest_all[i].0,
                ) && unprotected@[i].1@ == cbor_tree(rest_all[i].1),
            rest_trees@ =~= rest_all.skip(unprotected@.len() as int),
        decreases rest_trees@.len(),
    {
        let (label, value) = rest_trees.remove(0);
        unprotected.push((tree_content(label), tree_content(value)));
    }
    let out = CoseSign1 {
        protected: trees.protected,
        alg,
        crit,
        unprotected,
        payload: trees.payload,
        signature: trees.signature,
    };
    assert(out@.crit =~= trees_content(trees).crit);
    assert(out@.unprotected =~= trees_content(trees).unprotected);
    out
}

/// Refuse a COSE_Sign1 that lists a critical header parameter which is not processed here.
pub fn reject_unprocessed_crit(sign1: &CoseSign1) -> (out: Result<(), VerifyFailure>)
    ensures
        out is Ok <==> crit_understood(sign1@),
        out matches Err(failure) ==> failure.reason == ReasonCode::MalformedCredential,
{
    let mut i: usize = 0;
    while i < sign1.crit.len()
        invariant
            i <= sign1.crit@.len(),
            forall|j: int|
                0 <= j < i ==> is_integer(#[trigger] sign1@.crit[j], COSE_HEADER_ALG),
        decreases sign1.crit@.len() - i,
    {
        let label: Option<i64> = integer_label(&sign1.crit[i]);
        assert(sign1@.crit[i as int] == sign1.crit@[i as int]@);
        match label {
            Some(n) => if n != COSE_HEADER_ALG {
                return Err(VerifyFailure::malformed());
            },
            None => {
                return Err(VerifyFailure::malformed());
            },
        }
        i += 1;
    }
    Ok(())
}

/// Parse a COSE_Sign1 from an item, tagged or not.
pub fn parse_cose_sign1(value: &CborValue) -> (out: Result<CoseSign1, VerifyFailure>)
    ensures
        match out {
            Ok(sign1) => sign1_of(value@) == Some(sign1@) && sign1_fields(untagged(value@), sign1@),
            Err(failure) => sign1_of(value@) is None && failure.reason
                == ReasonCode::MalformedCredential,
        },
{
    let object: &CborValue = match value {
        CborValue::Tag(_, inner) => &**inner,
        other => other,
    };
    assert(object@ == untagged(value@));
    if !sign1_nests_within_limit(object) {
        return Err(VerifyFailure::malformed());
    }
    let tree = content_tree(object);
    let sign1 = match read_sign1(tree) {
        Some(trees) => trees_value(trees),
        None => {
            return Err(VerifyFailure::malformed());
        },
    };
    match reject_unprocessed_crit(&sign1) {
        Ok(_) => Ok(sign1),
        Err(failure) => Err(failure),
    }
}

/// The value of the first parameter with an integer label.
pub open spec fn labelled(parameters: Seq<(Cbor, Cbor)>, label: i64) -> Option<Cbor>
    decreases parameters.len(),
{
    if parameters.len() == 0 {
        None
    } else if is_integer(parameters[0].0, label) {
        Some(parameters[0].1)
    } else {
        labelled(parameters.drop_first(), label)
    }
}

/// The byte strings of an array that holds nothing else.
pub open spec fn all_byte_strings(items: Seq<Cbor>) -> Option<Seq<Seq<u8>>> {
    if forall|i: int| 0 <= i < items.len() ==> #[trigger] items[i] is Bytes {
        Some(items.map_values(|item: Cbor| item->Bytes_0))
    } else {
        None
    }
}

/// The certificate chain that an `x5chain` value holds: one byte string, or a non-empty array of
/// byte strings.
pub open spec fn chain_of(value: Cbor) -> Option<Seq<Seq<u8>>> {
    match value {
        Cbor::Bytes(certificate) => Some(seq![certificate]),
        Cbor::Array(items) => if items.len() > 0 {
            all_byte_strings(items)
        } else {
            None
        },
        _ => None,
    }
}

/// The certificate chain in the unprotected header, leaf first.
pub open spec fn x5chain(sign1: Sign1) -> Option<Seq<Seq<u8>>> {
    match labelled(sign1.unprotected, COSE_HEADER_X5CHAIN) {
        Some(value) => chain_of(value),
        None => None,
    }
}

fn find_parameter<'a>(parameters: &'a Vec<(CborValue, CborValue)>, label: i64) -> (out: Option<
    &'a CborValue,
>)
    ensures
        seen(out) == labelled(pair_contents(parameters@), label),
{
    let ghost all = pair_contents(parameters@);
    assert(all.skip(0) =~= all);
    let mut i: usize = 0;
    while i < parameters.len()
        invariant
            i <= parameters@.len(),
            all == pair_contents(parameters@),
            labelled(all, label) == labelled(all.skip(i as int), label),
        decreases parameters@.len() - i,
    {
        assert(all.skip(i as int)[0] == (parameters@[i as int].0@, parameters@[i as int].1@));
        if let Some(n) = integer_label(&parameters[i].0) {
            if n == label {
                return Some(&parameters[i].1);
            }
        }
        assert(all.skip(i as int).drop_first() =~= all.skip(i as int + 1));
        i += 1;
    }
    None
}

fn chain_certificates(value: &CborValue) -> (out: Option<Vec<Vec<u8>>>)
    ensures
        match out {
            Some(chain) => chain_of(value@) == Some(byte_strings(chain@)),
            None => chain_of(value@) is None,
        },
{
    match value {
        CborValue::Bytes(certificate) => {
            let chain = vec![copy_bytes(certificate)];
            assert(byte_strings(chain@) =~= seq![certificate@]);
            Some(chain)
        },
        CborValue::Array(items) => {
            proof {
                crate::cbor::lemma_array_content(*items);
            }
            if items.len() == 0 {
                return None;
            }
            let mut chain: Vec<Vec<u8>> = Vec::new();
            let mut i: usize = 0;
            while i < items.len()
                invariant
                    i <= items@.len(),
                    value@ == Cbor::Array(contents(items@)),
                    chain@.len() == i,
                    forall|j: int|
                        0 <= j < i ==> #[trigger] contents(items@)[j] == Cbor::Bytes(chain@[j]@),
                decreases items@.len() - i,
            {
                assert(contents(items@)[i as int] == items@[i as int]@);
                match &items[i] {
                    CborValue::Bytes(certificate) => {
                        chain.push(copy_bytes(certificate));
                    },
                    _ => {
                        assert(!(contents(items@)[i as int] is Bytes));
                        return None;
                    },
                }
                i += 1;
            }
            assert(byte_strings(chain@) =~= contents(items@).map_values(
                |item: Cbor| item->Bytes_0,
            ));
            Some(chain)
        },
        _ => None,
    }
}

/// Read the certificate chain out of the unprotected header, leaf first.
pub fn ds_chain_from_x5chain(sign1: &CoseSign1) -> (out: Result<Vec<Vec<u8>>, VerifyFailure>)
    ensures
        match out {
            Ok(chain) => x5chain(sign1@) == Some(byte_strings(chain@)) && chain@.len() > 0,
            Err(failure) => x5chain(sign1@) is None && failure.reason
                == ReasonCode::MalformedCredential,
        },
{
    match find_parameter(&sign1.unprotected, COSE_HEADER_X5CHAIN) {
        Some(value) => match chain_certificates(value) {
            Some(chain) => {
                assert(byte_strings(chain@).len() > 0);
                Ok(chain)
            },
            None => Err(VerifyFailure::malformed()),
        },
        None => Err(VerifyFailure::malformed()),
    }
}

/// Whether the protected header names ES256.
pub fn cose_alg_is_es256(sign1: &CoseSign1) -> (out: bool)
    ensures
        out == alg_is_es256(sign1@),
{
    match &sign1.alg {
        Some(alg) => match integer_label(alg) {
            Some(n) => n == COSE_ALG_ES256,
            None => false,
        },
        None => false,
    }
}

/// The payload that the signature of a COSE_Sign1 covers when none is supplied apart.
pub open spec fn attached_payload(sign1: Sign1) -> Seq<u8> {
    match sign1.payload {
        Some(payload) => payload,
        None => Seq::empty(),
    }
}

/// Whether the signature of a COSE_Sign1 over `payload` is by the key `sec1`, with ES256.
pub open spec fn signed_by(sign1: Sign1, payload: Seq<u8>, sec1: Seq<u8>) -> bool {
    &&& alg_is_es256(sign1)
    &&& es256_holds(sec1, cbor_encoded(sig_structure(sign1.protected, payload)), sign1.signature)
}

/// Whether the key of `certificate` signed a COSE_Sign1 with its attached payload.
pub open spec fn signed_by_certificate(sign1: Sign1, certificate: Seq<u8>) -> bool {
    p256_certificate_key(certificate) matches Some(sec1) && signed_by(
        sign1,
        attached_payload(sign1),
        sec1,
    )
}

/// Verify a COSE_Sign1 over its attached payload with the key of a certificate.
pub fn verify_cose_sign1_es256(sign1: &CoseSign1, cert_der: &[u8]) -> (out: Result<
    (),
    VerifyFailure,
>)
    ensures
        out is Ok <==> signed_by_certificate(sign1@, cert_der@),
        out matches Err(failure) ==> failure.reason == ReasonCode::Tamper,
{
    if !cose_alg_is_es256(sign1) {
        return Err(VerifyFailure::with_reason(ReasonCode::Tamper));
    }
    let key = match p256_verifying_key_from_cert_der(cert_der) {
        Some(key) => key,
        None => {
            return Err(VerifyFailure::with_reason(ReasonCode::Tamper));
        },
    };
    let to_be_signed = match &sign1.payload {
        Some(payload) => sig_structure_bytes(sign1.protected.as_slice(), payload.as_slice()),
        None => {
            let none: Vec<u8> = Vec::new();
            sig_structure_bytes(sign1.protected.as_slice(), none.as_slice())
        },
    };
    match p256_verify_es256(&key, to_be_signed.as_slice(), sign1.signature.as_slice()) {
        Ok(_) => Ok(()),
        Err(_) => Err(VerifyFailure::with_reason(ReasonCode::Tamper)),
    }
}

/// Whether the key `sec1` signed a detached `payload` in a COSE_Sign1 that carries none.
pub open spec fn signed_detached(sign1: Sign1, payload: Seq<u8>, sec1: Seq<u8>) -> bool {
    sign1.payload is None && p256_key_valid(sec1) && signed_by(sign1, payload, sec1)
}

/// Verify a COSE_Sign1 over a detached payload with a SEC1 public key. One that carries a payload
/// of its own is refused.
pub fn verify_cose_sign1_detached_es256(
    sign1: &CoseSign1,
    payload: &[u8],
    public_key_sec1: &[u8],
) -> (out: Result<(), ()>)
    ensures
        out is Ok <==> signed_detached(sign1@, payload@, public_key_sec1@),
{
    if sign1.payload.is_some() {
        return Err(());
    }
    if !cose_alg_is_es256(sign1) {
        return Err(());
    }
    let key = match VerifyingKey::from_sec1_bytes(public_key_sec1) {
        Some(key) => key,
        None => {
            return Err(());
        },
    };
    let to_be_signed = sig_structure_bytes(sign1.protected.as_slice(), payload);
    p256_verify_es256(&key, to_be_signed.as_slice(), sign1.signature.as_slice())
}

} // verus!
