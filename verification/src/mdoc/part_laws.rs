//! What the single checks on a document decide.
use crate::cbor::{
    cbor_decoded, cbor_encoded, contents, encoded_item_bytes, map_entry, Cbor, CborValue,
};
use crate::crypto::{
    es256_signature_valid, es256_verifies, p256_certificate_key, p256_key_valid, sha256_digest,
    sha384_digest, sha512_digest,
};
use crate::mdoc::acceptance_laws::{covered, dated, is_number};
use crate::mdoc::binding::{
    build_device_authentication, classify_binding_machinery, device_binding_machinery_sound,
    verify_device_binding, DeviceBindingMachinery,
};
use crate::mdoc::cose::{
    cose_alg_is_es256, ds_chain_from_x5chain, labelled, parse_cose_sign1, reject_unprocessed_crit,
    verify_cose_sign1_detached_es256, verify_cose_sign1_es256, CoseSign1, COSE_HEADER_X5CHAIN,
};
use crate::mdoc::digests::DigestAlgorithm;
use crate::mdoc::failure::VerifyFailure;
use crate::mdoc::mso::{
    enforce_validity, labelled_bytes, labelled_integer, mso_device_key, parse_validity_info,
    tdate_field, unwrap_bstr_tagged_payload, DeviceKey, COSE_KEY_CRV, COSE_KEY_KTY, COSE_KEY_X,
    COSE_KEY_Y,
};
use crate::mdoc::verify::enforce_device_response_status;
use crate::text::{byte_strings, seen};
use crate::types::{ReasonCode, Validity};
use vstd::prelude::*;

verus! {

/// The names `SHA-256`, `SHA-384` and `SHA-512` stand for hashes of 32, 48 and 64 bytes, and no
/// other name does.
pub proof fn law_hashes_have_names(
    name: &str,
    data: &[u8],
    out: Option<DigestAlgorithm>,
    digest: Vec<u8>,
)
    requires
        call_ensures(DigestAlgorithm::from_name, (name,), out),
        out matches Some(algorithm) ==> call_ensures(
            DigestAlgorithm::digest,
            (algorithm, data),
            digest,
        ),
    ensures
        name@ == "SHA-256"@ ==> out is Some && digest@ == sha256_digest(data@) && digest@.len()
            == 32,
        name@ == "SHA-384"@ ==> out is Some && digest@ == sha384_digest(data@) && digest@.len()
            == 48,
        name@ == "SHA-512"@ ==> out is Some && digest@ == sha512_digest(data@) && digest@.len()
            == 64,
        out is Some ==> name@ == "SHA-256"@ || name@ == "SHA-384"@ || name@ == "SHA-512"@,
{
    reveal_strlit("SHA-256");
    reveal_strlit("SHA-384");
    reveal_strlit("SHA-512");
    assert("SHA-256"@[4] != "SHA-384"@[4]);
    assert("SHA-256"@[4] != "SHA-512"@[4]);
    assert("SHA-384"@[4] != "SHA-512"@[4]);
}

/// A timestamp field is read as the instant of its text, which may stand under the tag 0; anything
/// else there is malformed.
pub proof fn law_fields_are_dated(
    info: &CborValue,
    key: &str,
    out: Result<i64, VerifyFailure>,
)
    requires
        call_ensures(tdate_field, (info, key), out),
    ensures
        out matches Ok(instant) ==> dated(info@, key@, instant as int),
        out matches Err(failure) ==> failure.reason == ReasonCode::MalformedCredential
            && forall|instant: int| !#[trigger] dated(info@, key@, instant),
{
}

/// The validity window and the instant of the signature are those that `validFrom`, `validUntil`
/// and `signed` name. An object that was signed after the instant of the verification, or after the
/// start of its window, was tampered with; one without a field is malformed.
pub proof fn law_windows_are_read(
    mso: &CborValue,
    now_unix: i64,
    out: Result<(Validity, i64), VerifyFailure>,
    signed: int,
    from: int,
    until: int,
)
    requires
        call_ensures(parse_validity_info, (mso, now_unix), out),
        map_entry(mso@, "validityInfo"@) is Some,
        dated(map_entry(mso@, "validityInfo"@)->0, "signed"@, signed),
        dated(map_entry(mso@, "validityInfo"@)->0, "validFrom"@, from),
        dated(map_entry(mso@, "validityInfo"@)->0, "validUntil"@, until),
    ensures
        out is Ok <==> signed <= now_unix && signed <= from,
        out matches Err(failure) ==> failure.reason == ReasonCode::Tamper,
        out matches Ok(read) ==> {
            &&& read.1 == signed
            &&& read.0.not_before matches Some(start) && start == from
            &&& read.0.not_after matches Some(end) && end == until
        },
{
}

/// A window holds the instants from its start to its end, both included; any other has expired.
pub proof fn law_windows_hold_their_ends(
    validity: &Validity,
    now_unix: i64,
    out: Result<(), VerifyFailure>,
)
    requires
        call_ensures(enforce_validity, (validity, now_unix), out),
    ensures
        out is Err <==> (validity.not_before matches Some(from) && now_unix < from) || (
        validity.not_after matches Some(until) && until < now_unix),
        out matches Err(failure) ==> failure.reason == ReasonCode::Expired,
{
}

proof fn lemma_first_labelled(parameters: Seq<(Cbor, Cbor)>, label: i64)
    ensures
        match labelled(parameters, label) {
            Some(value) => exists|i: int|
                {
                    &&& 0 <= i < parameters.len()
                    &&& is_number((#[trigger] parameters[i]).0, label as int)
                    &&& parameters[i].1 == value
                    &&& forall|j: int|
                        0 <= j < i ==> !is_number((#[trigger] parameters[j]).0, label as int)
                },
            None => forall|j: int|
                0 <= j < parameters.len() ==> !is_number(
                    (#[trigger] parameters[j]).0,
                    label as int,
                ),
        },
    decreases parameters.len(),
{
    if parameters.len() > 0 {
        let rest = parameters.drop_first();
        lemma_first_labelled(rest, label);
        if is_number(parameters[0].0, label as int) {
            assert(parameters[0] == parameters[0]);
        } else {
            match labelled(rest, label) {
                Some(value) => {
                    let i = choose|i: int|
                        {
                            &&& 0 <= i < rest.len()
                            &&& is_number((#[trigger] rest[i]).0, label as int)
                            &&& rest[i].1 == value
                            &&& forall|j: int|
                                0 <= j < i ==> !is_number((#[trigger] rest[j]).0, label as int)
                        };
                    assert(parameters[i + 1] == rest[i]);
                    assert forall|j: int| 0 <= j < i + 1 implies !is_number(
                        (#[trigger] parameters[j]).0,
                        label as int,
                    ) by {
                        if j > 0 {
                            assert(parameters[j] == rest[j - 1]);
                        }
                    }
                },
                None => {
                    assert forall|j: int| 0 <= j < parameters.len() implies !is_number(
                        (#[trigger] parameters[j]).0,
                        label as int,
                    ) by {
                        if j > 0 {
                            assert(parameters[j] == rest[j - 1]);
                        }
                    }
                },
            }
        }
    }
}

/// Whether a parameter is the first under an integer label.
pub open spec fn first_under(parameters: Seq<(Cbor, Cbor)>, label: int, i: int) -> bool {
    &&& 0 <= i < parameters.len()
    &&& is_number(parameters[i].0, label)
    &&& forall|j: int| 0 <= j < i ==> !is_number((#[trigger] parameters[j]).0, label)
}

/// The certificate chain stands in the unprotected header under 33: one byte string, or an array of
/// byte strings that is not empty, leaf first. Without it the signature is malformed.
pub proof fn law_chains_are_read(
    sign1: &CoseSign1,
    i: int,
    out: Result<Vec<Vec<u8>>, VerifyFailure>,
)
    requires
        call_ensures(ds_chain_from_x5chain, (sign1,), out),
    ensures
        out matches Err(failure) ==> failure.reason == ReasonCode::MalformedCredential,
        out is Ok ==> exists|k: int| #[trigger] first_under(sign1@.unprotected, 33, k),
        first_under(sign1@.unprotected, 33, i) ==> ({
            let value = sign1@.unprotected[i].1;
            match value {
                Cbor::Bytes(certificate) => out matches Ok(chain) && chain@.len() == 1
                    && chain@[0]@ == certificate,
                Cbor::Array(items) => {
                    &&& out is Ok <==> items.len() > 0 && forall|j: int|
                        0 <= j < items.len() ==> #[trigger] items[j] is Bytes
                    &&& out matches Ok(chain) ==> chain@.len() == items.len() && forall|j: int|
                        0 <= j < items.len() ==> #[trigger] items[j] == Cbor::Bytes(chain@[j]@)
                },
                _ => out is Err,
            }
        }),
{
    let all = sign1@.unprotected;
    lemma_first_labelled(all, COSE_HEADER_X5CHAIN);
    if let Some(value) = labelled(all, COSE_HEADER_X5CHAIN) {
        let k = choose|k: int|
            {
                &&& 0 <= k < all.len()
                &&& is_number((#[trigger] all[k]).0, 33)
                &&& all[k].1 == value
                &&& forall|j: int| 0 <= j < k ==> !is_number((#[trigger] all[j]).0, 33)
            };
        assert(first_under(all, 33, k));
        if first_under(all, 33, i) {
            assert(i == k) by {
                if i < k {
                    assert(!is_number(all[i].0, 33));
                } else if k < i {
                    assert(!is_number(all[k].0, 33));
                }
            }
            if let Ok(chain) = out {
                let certificates = byte_strings(chain@);
                assert(certificates.len() == chain@.len());
                assert forall|j: int| 0 <= j < chain@.len() implies (#[trigger] certificates[j])
                    == chain@[j]@ by {}
                if let Cbor::Array(items) = value {
                    assert forall|j: int| 0 <= j < items.len() implies #[trigger] items[j]
                        == Cbor::Bytes(chain@[j]@) by {
                        assert(certificates[j] == chain@[j]@);
                    }
                } else if let Cbor::Bytes(certificate) = value {
                    assert(certificates[0] == chain@[0]@);
                }
            }
        }
    }
}

/// A signature names ES256 where its algorithm is the number -7.
pub proof fn law_es256_is_minus_seven(sign1: &CoseSign1, out: bool)
    requires
        call_ensures(cose_alg_is_es256, (sign1,), out),
    ensures
        out <==> (sign1@.alg matches Some(alg) && is_number(alg, -7)),
{
}

/// A signature with a critical parameter other than the algorithm is malformed.
pub proof fn law_other_critical_parameters_are_refused(
    sign1: &CoseSign1,
    out: Result<(), VerifyFailure>,
)
    requires
        call_ensures(reject_unprocessed_crit, (sign1,), out),
    ensures
        out is Ok <==> forall|i: int|
            0 <= i < sign1@.crit.len() ==> is_number(#[trigger] sign1@.crit[i], 1),
        out matches Err(failure) ==> failure.reason == ReasonCode::MalformedCredential,
{
    if out is Ok {
        assert forall|i: int| 0 <= i < sign1@.crit.len() implies is_number(
            #[trigger] sign1@.crit[i],
            1,
        ) by {
            assert(crate::mdoc::cose::is_integer(sign1@.crit[i], 1));
        }
    }
    if forall|i: int| 0 <= i < sign1@.crit.len() ==> is_number(#[trigger] sign1@.crit[i], 1) {
        assert forall|i: int| 0 <= i < sign1@.crit.len() implies crate::mdoc::cose::is_integer(
            #[trigger] sign1@.crit[i],
            1,
        ) by {
            assert(is_number(sign1@.crit[i], 1));
        }
    }
}

/// An attached signature verifies under the key of a certificate where it is of ES256 and its bytes
/// are a signature over the protected header and the payload; any other was tampered with.
pub proof fn law_attached_signatures_verify(
    sign1: &CoseSign1,
    cert_der: &[u8],
    payload: Seq<u8>,
    out: Result<(), VerifyFailure>,
)
    requires
        call_ensures(verify_cose_sign1_es256, (sign1, cert_der), out),
        sign1@.payload == Some(payload),
    ensures
        out is Ok <==> (p256_certificate_key(cert_der@) matches Some(sec1) && {
            &&& sign1@.alg matches Some(alg) && is_number(alg, -7)
            &&& es256_signature_valid(sign1@.signature)
            &&& es256_verifies(sec1, covered(sign1@, payload), sign1@.signature)
        }),
        out matches Err(failure) ==> failure.reason == ReasonCode::Tamper,
{
}

/// A detached signature verifies under a key where it carries no payload of its own, is of ES256,
/// and its bytes are a signature over the protected header and the payload that is given apart.
pub proof fn law_detached_signatures_verify(
    sign1: &CoseSign1,
    payload: &[u8],
    sec1: &[u8],
    out: Result<(), ()>,
)
    requires
        call_ensures(verify_cose_sign1_detached_es256, (sign1, payload, sec1), out),
    ensures
        out is Ok <==> {
            &&& sign1@.payload is None
            &&& p256_key_valid(sec1@)
            &&& sign1@.alg matches Some(alg) && is_number(alg, -7)
            &&& es256_signature_valid(sign1@.signature)
            &&& es256_verifies(sec1@, covered(sign1@, payload@), sign1@.signature)
        },
{
}

/// A response is taken where its status is zero, and is malformed otherwise.
pub proof fn law_responses_have_status_zero(root: &CborValue, out: Result<(), VerifyFailure>)
    requires
        call_ensures(enforce_device_response_status, (root,), out),
    ensures
        out is Ok <==> (map_entry(root@, "status"@) matches Some(status) && is_number(status, 0)),
        out matches Err(failure) ==> failure.reason == ReasonCode::MalformedCredential,
{
}

/// A device signs the encoded array of its name, the transcript, the type of the document and its
/// own namespaces, wrapped as an encoded item.
pub proof fn law_devices_sign_the_session(
    transcript: &CborValue,
    doc_type: &str,
    name_spaces: &[u8],
    out: Option<Vec<u8>>,
)
    requires
        call_ensures(build_device_authentication, (transcript, doc_type, name_spaces), out),
    ensures
        out is Some <==> cbor_decoded(name_spaces@) is Some,
        out matches Some(bytes) ==> bytes@ == cbor_encoded(
            Cbor::Tag(
                24,
                Box::new(
                    Cbor::Bytes(
                        cbor_encoded(
                            Cbor::Array(
                                seq![
                                    Cbor::Text("DeviceAuthentication"@),
                                    transcript@,
                                    Cbor::Text(doc_type@),
                                    cbor_decoded(name_spaces@)->0,
                                ],
                            ),
                        ),
                    ),
                ),
            ),
        ),
{
}

/// The parts of a document that its holder binding is checked by.
pub struct BindingParts {
    pub device_signed: Cbor,
    pub device_auth: Cbor,
    pub signature: Cbor,
    pub name_spaces: Cbor,
}

/// Whether a document has the parts that its holder binding is checked by.
pub open spec fn has_parts(document: Cbor, parts: BindingParts) -> bool {
    &&& map_entry(document, "deviceSigned"@) == Some(parts.device_signed)
    &&& map_entry(parts.device_signed, "deviceAuth"@) == Some(parts.device_auth)
    &&& map_entry(parts.device_auth, "deviceSignature"@) == Some(parts.signature)
    &&& map_entry(parts.device_signed, "nameSpaces"@) == Some(parts.name_spaces)
}

/// A holder binding holds where the device key signed, detached, what a device signs of the
/// session: the transcript, the type of the document and the namespaces of the device. A document
/// without a device signature fails the binding; without a transcript the request is not bound; and
/// a signature that does not verify fails the binding.
pub proof fn law_bindings_are_to_the_session(
    document: &CborValue,
    key: &DeviceKey,
    doc_type: &str,
    transcript: Option<&CborValue>,
    supplied: Option<&[u8]>,
    parts: BindingParts,
    item: &CborValue,
    parsed: Result<CoseSign1, VerifyFailure>,
    name_spaces: &[u8],
    payload: Option<Vec<u8>>,
    payload_bytes: &[u8],
    sec1: &[u8],
    verified: Result<(), ()>,
    out: Result<(), VerifyFailure>,
)
    requires
        match supplied {
            Some(bytes) => seen(transcript) == cbor_decoded(bytes@),
            None => transcript is None,
        },
        call_ensures(verify_device_binding, (document, key, doc_type, transcript, supplied), out),
        has_parts(document@, parts),
        item@ == parts.signature,
        call_ensures(parse_cose_sign1, (item,), parsed),
        cbor_decoded(name_spaces@) == Some(parts.name_spaces),
        sec1@ == key.sec1@,
        transcript matches Some(value) ==> call_ensures(
            build_device_authentication,
            (value, doc_type, name_spaces),
            payload,
        ),
        payload matches Some(bytes) ==> payload_bytes@ == bytes@,
        parsed matches Ok(sign1) ==> call_ensures(
            verify_cose_sign1_detached_es256,
            (&sign1, payload_bytes, sec1),
            verified,
        ),
    ensures
        supplied is None ==> (out matches Err(failure) && failure.reason
            == ReasonCode::MissingRequestBinding),
        supplied is Some && parsed is Err ==> (out matches Err(failure) && failure.reason
            == ReasonCode::MalformedCredential),
        supplied is Some && transcript is None ==> (out matches Err(failure) && failure.reason
            == ReasonCode::MalformedCredential),
        supplied is Some && encoded_item_bytes(parts.name_spaces) is None ==> (
        out matches Err(failure) && failure.reason == ReasonCode::MalformedCredential),
        transcript is Some && parsed is Ok && encoded_item_bytes(parts.name_spaces) is Some ==> {
            &&& out is Ok <==> verified is Ok
            &&& out matches Err(failure) ==> failure.reason == ReasonCode::HolderBinding
        },
{
}

/// A document without a device signature fails its holder binding, whatever the session.
pub proof fn law_unsigned_documents_are_not_bound(
    document: &CborValue,
    key: &DeviceKey,
    doc_type: &str,
    transcript: Option<&CborValue>,
    supplied: Option<&[u8]>,
    device_signed: Cbor,
    device_auth: Cbor,
    out: Result<(), VerifyFailure>,
)
    requires
        match supplied {
            Some(bytes) => seen(transcript) == cbor_decoded(bytes@),
            None => transcript is None,
        },
        call_ensures(verify_device_binding, (document, key, doc_type, transcript, supplied), out),
        map_entry(document@, "deviceSigned"@) == Some(device_signed),
        map_entry(device_signed, "deviceAuth"@) == Some(device_auth),
        map_entry(device_auth, "deviceSignature"@) is None,
    ensures
        out matches Err(failure) && failure.reason == ReasonCode::HolderBinding,
{
}

/// The machinery of a list is sound where there is a document and that of each is sound.
pub proof fn law_machinery_is_sound_together(
    documents: &Vec<CborValue>,
    sound: Seq<bool>,
    out: DeviceBindingMachinery,
)
    requires
        sound.len() == documents@.len(),
        forall|i: int|
            0 <= i < sound.len() ==> call_ensures(
                device_binding_machinery_sound,
                (&documents@[i],),
                #[trigger] sound[i],
            ),
        call_ensures(classify_binding_machinery, (documents,), out),
    ensures
        out == DeviceBindingMachinery::Sound <==> sound.len() > 0 && forall|i: int|
            0 <= i < sound.len() ==> #[trigger] sound[i],
{
    let all = contents(documents@);
    assert forall|i: int| 0 <= i < all.len() implies sound[i]
        == crate::mdoc::binding::machinery_sound(#[trigger] all[i]) by {
        assert(sound[i] == sound[i]);
        assert(all[i] == documents@[i]@);
    }
    if out == DeviceBindingMachinery::Sound {
        assert forall|i: int| 0 <= i < sound.len() implies #[trigger] sound[i] by {
            assert(crate::mdoc::binding::machinery_sound(all[i]));
        }
    }
    if sound.len() > 0 && forall|i: int| 0 <= i < sound.len() ==> #[trigger] sound[i] {
        assert forall|i: int| 0 <= i < all.len() implies crate::mdoc::binding::machinery_sound(
            #[trigger] all[i],
        ) by {
            assert(sound[i]);
        }
    }
}

/// The machinery of a document is sound where its mobile security object has a device key and its
/// device signature is of ES256 with bytes of the form of one.
pub proof fn law_sound_machinery(
    document: &CborValue,
    issuer_item: &CborValue,
    issuer_sign1: CoseSign1,
    payload: &[u8],
    inner: Vec<u8>,
    mso: &CborValue,
    key: Result<DeviceKey, VerifyFailure>,
    item: &CborValue,
    sign1: Result<CoseSign1, VerifyFailure>,
    out: bool,
)
    requires
        call_ensures(device_binding_machinery_sound, (document,), out),
        map_entry(document@, "issuerSigned"@) matches Some(issuer_signed) && map_entry(
            issuer_signed,
            "issuerAuth"@,
        ) == Some(issuer_item@),
        call_ensures(parse_cose_sign1, (issuer_item,), Ok(issuer_sign1)),
        issuer_sign1@.payload == Some(payload@),
        call_ensures(unwrap_bstr_tagged_payload, (payload,), Ok(inner)),
        cbor_decoded(inner@) == Some(mso@),
        call_ensures(mso_device_key, (mso,), key),
        map_entry(document@, "deviceSigned"@) matches Some(device_signed) && (map_entry(
            device_signed,
            "deviceAuth"@,
        ) matches Some(device_auth) && map_entry(device_auth, "deviceSignature"@) == Some(item@)),
        call_ensures(parse_cose_sign1, (item,), sign1),
    ensures
        out <==> key is Ok && (sign1 matches Ok(sign1) && {
            &&& sign1@.alg matches Some(alg) && is_number(alg, -7)
            &&& es256_signature_valid(sign1@.signature)
        }),
{
}

/// The number under an integer label of a key, where all entries under it say the same.
pub open spec fn says_number(entries: Seq<(Cbor, Cbor)>, label: int, n: int) -> bool {
    &&& exists|i: int| 0 <= i < entries.len() && is_number((#[trigger] entries[i]).0, label)
    &&& forall|i: int|
        0 <= i < entries.len() && is_number((#[trigger] entries[i]).0, label) ==> is_number(
            entries[i].1,
            n,
        )
}

/// The byte string under an integer label of a key, where all entries under it say the same.
pub open spec fn says_bytes(entries: Seq<(Cbor, Cbor)>, label: int, bytes: Seq<u8>) -> bool {
    &&& exists|i: int| 0 <= i < entries.len() && is_number((#[trigger] entries[i]).0, label)
    &&& forall|i: int|
        0 <= i < entries.len() && is_number((#[trigger] entries[i]).0, label) ==> entries[i].1
            == Cbor::Bytes(bytes)
}

proof fn lemma_says(entries: Seq<(Cbor, Cbor)>, label: i64, n: i64, bytes: Seq<u8>)
    ensures
        says_number(entries, label as int, n as int) ==> labelled_integer(entries, label) == Some(n),
        says_bytes(entries, label as int, bytes) ==> labelled_bytes(entries, label) == Some(bytes),
    decreases entries.len(),
{
    if entries.len() > 0 && !is_number(entries[0].0, label as int) {
        let rest = entries.drop_first();
        lemma_says(rest, label, n, bytes);
        assert forall|i: int|
            0 <= i < rest.len() implies (#[trigger] rest[i]) == entries[i + 1] by {}
        if exists|i: int|
            0 <= i < entries.len() && is_number((#[trigger] entries[i]).0, label as int) {
            let i = choose|i: int|
                0 <= i < entries.len() && is_number((#[trigger] entries[i]).0, label as int);
            assert(rest[i - 1] == entries[i]);
        }
    } else if entries.len() > 0 {
        assert(entries[0] == entries[0]);
    }
}

/// The device key of a mobile security object is the point of the coordinates under -2 and -3 of
/// its key, which has to be of the type 2 on the curve 1, with coordinates of 32 bytes.
pub proof fn law_device_keys_are_read(
    mso: &CborValue,
    entries: Seq<(Cbor, Cbor)>,
    kty: i64,
    crv: i64,
    x: Seq<u8>,
    y: Seq<u8>,
    out: Result<DeviceKey, VerifyFailure>,
)
    requires
        call_ensures(mso_device_key, (mso,), out),
        map_entry(mso@, "deviceKeyInfo"@) matches Some(info) && map_entry(info, "deviceKey"@)
            == Some(Cbor::Pairs(entries)),
        says_number(entries, 1, kty as int),
        says_number(entries, -1, crv as int),
        says_bytes(entries, -2, x),
        says_bytes(entries, -3, y),
    ensures
        out is Ok <==> kty == 2 && crv == 1 && x.len() == 32 && y.len() == 32,
        out matches Ok(key) ==> key.sec1@ == seq![4u8] + x + y,
        out matches Err(failure) ==> failure.reason == ReasonCode::MalformedCredential,
{
    lemma_says(entries, COSE_KEY_KTY, kty, x);
    lemma_says(entries, COSE_KEY_CRV, crv, x);
    lemma_says(entries, COSE_KEY_X, 0, x);
    lemma_says(entries, COSE_KEY_Y, 0, y);
}

} // verus!
