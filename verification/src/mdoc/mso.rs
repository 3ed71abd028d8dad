//! The mobile security object: its validity window and its device key.
use crate::cbor::{
    cbor_decoded, decode, encoded_item_bytes, get_map_entry, integer_label, integer_of,
    lemma_pairs_content, map_entry, pair_contents, unwrap_tagged_cbor_payload, Cbor, CborValue,
};
use crate::crypto::{p256_sec1_from_coords, sec1_point};
use crate::datetime::{instant_of, parse_rfc3339_utc};
use crate::mdoc::cose::is_integer;
use crate::mdoc::failure::VerifyFailure;
use crate::text::{copy_bytes, seen};
use crate::types::{ReasonCode, Validity};
use vstd::prelude::*;

verus! {

/// The COSE_Key label of the key type.
pub const COSE_KEY_KTY: i64 = 1;

/// The key type of elliptic curve keys with two coordinates.
pub const COSE_KTY_EC2: i64 = 2;

/// The COSE_Key label of the curve.
pub const COSE_KEY_CRV: i64 = -1;

/// The curve P-256.
pub const COSE_CRV_P256: i64 = 1;

/// The COSE_Key label of the x-coordinate.
pub const COSE_KEY_X: i64 = -2;

/// The COSE_Key label of the y-coordinate.
pub const COSE_KEY_Y: i64 = -3;

/// The schema version of responses and of mobile security objects.
pub const MDOC_SCHEMA_VERSION: &'static str = "1.0";

/// The bytes inside `bstr`, which must itself encode an item of the form `#6.24(bstr)`.
pub open spec fn wrapped_bytes(bstr: Seq<u8>) -> Option<Seq<u8>> {
    match cbor_decoded(bstr) {
        Some(value) => encoded_item_bytes(value),
        None => None,
    }
}

/// Unwrap a byte string that encodes an item of the form `#6.24(bstr)`.
pub fn unwrap_bstr_tagged_payload(bstr: &[u8]) -> (out: Result<Vec<u8>, VerifyFailure>)
    ensures
        match out {
            Ok(inner) => wrapped_bytes(bstr@) == Some(inner@),
            Err(failure) => wrapped_bytes(bstr@) is None && failure.reason
                == ReasonCode::MalformedCredential,
        },
{
    match decode(bstr) {
        Some(value) => match unwrap_tagged_cbor_payload(&value) {
            Some(inner) => Ok(inner),
            None => Err(VerifyFailure::malformed()),
        },
        None => Err(VerifyFailure::malformed()),
    }
}

/// The instant that a text, or a text under the tag 0, names.
pub open spec fn tdate(value: Cbor) -> Option<int> {
    match value {
        Cbor::Text(text) => instant_of(text),
        Cbor::Tag(tag, inner) => match *inner {
            Cbor::Text(text) => if tag == 0 {
                instant_of(text)
            } else {
                None
            },
            _ => None,
        },
        _ => None,
    }
}

/// The instant in the field `key`.
pub open spec fn tdate_entry(info: Cbor, key: Seq<char>) -> Option<int> {
    match map_entry(info, key) {
        Some(value) => tdate(value),
        None => None,
    }
}

/// Read a timestamp field as Unix seconds.
pub fn tdate_field(info: &CborValue, key: &str) -> (out: Result<i64, VerifyFailure>)
    ensures
        match out {
            Ok(seconds) => tdate_entry(info@, key@) == Some(seconds as int),
            Err(failure) => tdate_entry(info@, key@) is None && failure.reason
                == ReasonCode::MalformedCredential,
        },
{
    proof {
        reveal_with_fuel(crate::cbor::cbor_content, 2);
    }
    let value = match get_map_entry(info, key) {
        Some(value) => value,
        None => {
            return Err(VerifyFailure::malformed());
        },
    };
    let text = match value {
        CborValue::Text(text) => text,
        CborValue::Tag(tag, inner) => match &**inner {
            CborValue::Text(text) => {
                if *tag != 0 {
                    return Err(VerifyFailure::malformed());
                }
                text
            },
            _ => {
                return Err(VerifyFailure::malformed());
            },
        },
        _ => {
            return Err(VerifyFailure::malformed());
        },
    };
    match parse_rfc3339_utc(text.as_str()) {
        Some(seconds) => Ok(seconds),
        None => Err(VerifyFailure::malformed()),
    }
}

/// The validity information of a mobile security object.
pub struct ValidityFacts {
    /// The instant at which the object was signed.
    pub signed: int,
    /// The first valid instant.
    pub valid_from: int,
    /// The last valid instant.
    pub valid_until: int,
}

/// The three instants of the validity information, where all are there.
pub open spec fn validity_facts(mso: Cbor) -> Option<ValidityFacts> {
    match map_entry(mso, "validityInfo"@) {
        Some(info) => match (
            tdate_entry(info, "signed"@),
            tdate_entry(info, "validFrom"@),
            tdate_entry(info, "validUntil"@),
        ) {
            (Some(signed), Some(valid_from), Some(valid_until)) => Some(
                ValidityFacts { signed, valid_from, valid_until },
            ),
            _ => None,
        },
        None => None,
    }
}

/// The validity information at the instant `now`. An object that was signed in the future, or after
/// the start of its own validity, contradicts itself.
pub open spec fn validity_verdict(mso: Cbor, now: int) -> Result<ValidityFacts, ReasonCode> {
    match validity_facts(mso) {
        Some(facts) => if facts.signed > now || facts.signed > facts.valid_from {
            Err(ReasonCode::Tamper)
        } else {
            Ok(facts)
        },
        None => Err(ReasonCode::MalformedCredential),
    }
}

/// Read the validity information: the window, and the instant of the signature.
pub fn parse_validity_info(mso: &CborValue, now_unix: i64) -> (out: Result<
    (Validity, i64),
    VerifyFailure,
>)
    ensures
        match validity_verdict(mso@, now_unix as int) {
            Ok(facts) => {
                &&& out matches Ok((validity, signed))
                &&& validity.not_before matches Some(from) && from == facts.valid_from
                &&& validity.not_after matches Some(until) && until == facts.valid_until
                &&& signed == facts.signed
            },
            Err(reason) => out matches Err(failure) && failure.reason == reason,
        },
{
    let info = match get_map_entry(mso, "validityInfo") {
        Some(info) => info,
        None => {
            return Err(VerifyFailure::malformed());
        },
    };
    let signed: i64 = match tdate_field(info, "signed") {
        Ok(signed) => signed,
        Err(failure) => {
            return Err(failure);
        },
    };
    let valid_from: i64 = match tdate_field(info, "validFrom") {
        Ok(valid_from) => valid_from,
        Err(failure) => {
            return Err(failure);
        },
    };
    let valid_until: i64 = match tdate_field(info, "validUntil") {
        Ok(valid_until) => valid_until,
        Err(failure) => {
            return Err(failure);
        },
    };
    if signed > now_unix || signed > valid_from {
        return Err(VerifyFailure::with_reason(ReasonCode::Tamper));
    }
    Ok((Validity { not_before: Some(valid_from), not_after: Some(valid_until) }, signed))
}

/// Whether an instant lies in a validity window, both ends included.
pub open spec fn in_window(validity: Validity, now: int) -> bool {
    &&& validity.not_before matches Some(from) ==> from <= now
    &&& validity.not_after matches Some(until) ==> now <= until
}

/// Refuse an instant outside the validity window.
pub fn enforce_validity(validity: &Validity, now_unix: i64) -> (out: Result<(), VerifyFailure>)
    ensures
        out is Ok <==> in_window(*validity, now_unix as int),
        out matches Err(failure) ==> failure.reason == ReasonCode::Expired,
{
    if let Some(not_before) = validity.not_before {
        if now_unix < not_before {
            return Err(VerifyFailure::with_reason(ReasonCode::Expired));
        }
    }
    if let Some(not_after) = validity.not_after {
        if now_unix > not_after {
            return Err(VerifyFailure::with_reason(ReasonCode::Expired));
        }
    }
    Ok(())
}

/// Whether the entry at `i` has the integer key `label`.
pub open spec fn label_at(entries: Seq<(CborValue, CborValue)>, label: i64, i: int) -> bool {
    0 <= i < entries.len() && is_integer(entries[i].0@, label)
}

/// Whether `extract` makes `found` of the entry at `i`, and nothing of the entries under the same
/// key before it.
pub open spec fn first_extracted<T, F: Fn(&CborValue) -> Option<T>>(
    extract: F,
    entries: Seq<(CborValue, CborValue)>,
    label: i64,
    i: int,
    found: T,
) -> bool {
    &&& label_at(entries, label, i)
    &&& call_ensures(extract, (&entries[i].1,), Some(found))
    &&& forall|j: int|
        #[trigger] label_at(entries, label, j) && j < i ==> call_ensures(
            extract,
            (&entries[j].1,),
            None,
        )
}

/// Find the value under an integer key of a map item, read by `extract`: what `extract` makes of
/// the first entry under the key that it makes something of.
pub fn find_key_label<T, F: Fn(&CborValue) -> Option<T>>(
    value: &CborValue,
    label: i64,
    extract: F,
) -> (out: Option<T>)
    requires
        forall|v: CborValue| call_requires(extract, (&v,)),
    ensures
        !(*value is Pairs) ==> out is None,
        *value is Pairs && out is Some ==> exists|i: int| #[trigger]
            first_extracted(extract, value->Pairs_0@, label, i, out->0),
        *value is Pairs && out is None ==> forall|j: int| #[trigger]
            label_at(value->Pairs_0@, label, j) ==> call_ensures(
                extract,
                (&value->Pairs_0@[j].1,),
                None,
            ),
{
    match value {
        CborValue::Pairs(entries) => {
            let mut i: usize = 0;
            while i < entries.len()
                invariant
                    i <= entries@.len(),
                    *value == CborValue::Pairs(*entries),
                    forall|v: CborValue| call_requires(extract, (&v,)),
                    forall|j: int|
                        #[trigger] label_at(entries@, label, j) && j < i ==> call_ensures(
                            extract,
                            (&entries@[j].1,),
                            None,
                        ),
                decreases entries@.len() - i,
            {
                let key: Option<i64> = integer_label(&entries[i].0);
                if key == Some(label) {
                    assert(label_at(entries@, label, i as int));
                    let found = extract(&entries[i].1);
                    if found.is_some() {
                        assert(found == Some(found->0));
                        assert(first_extracted(
                            extract,
                            value->Pairs_0@,
                            label,
                            i as int,
                            found->0,
                        ));
                        return found;
                    }
                }
                i += 1;
            }
            None
        },
        _ => None,
    }
}

/// The integer under an integer key: the first entry under the key that is a 64-bit integer.
pub open spec fn labelled_integer(entries: Seq<(Cbor, Cbor)>, label: i64) -> Option<i64>
    decreases entries.len(),
{
    if entries.len() == 0 {
        None
    } else if is_integer(entries[0].0, label) && integer_of(entries[0].1) is Some {
        integer_of(entries[0].1)
    } else {
        labelled_integer(entries.drop_first(), label)
    }
}

/// The byte string under an integer key: the first entry under the key that is one.
pub open spec fn labelled_bytes(entries: Seq<(Cbor, Cbor)>, label: i64) -> Option<Seq<u8>>
    decreases entries.len(),
{
    if entries.len() == 0 {
        None
    } else if is_integer(entries[0].0, label) && entries[0].1 is Bytes {
        Some(entries[0].1->Bytes_0)
    } else {
        labelled_bytes(entries.drop_first(), label)
    }
}

/// The integer that a map item holds under an integer key.
pub open spec fn key_integer(key: Cbor, label: i64) -> Option<i64> {
    match key {
        Cbor::Pairs(entries) => labelled_integer(entries, label),
        _ => None,
    }
}

/// The byte string that a map item holds under an integer key.
pub open spec fn key_bytes(key: Cbor, label: i64) -> Option<Seq<u8>> {
    match key {
        Cbor::Pairs(entries) => labelled_bytes(entries, label),
        _ => None,
    }
}

proof fn lemma_labelled_integer(entries: Seq<(Cbor, Cbor)>, label: i64, i: int)
    requires
        0 <= i <= entries.len(),
        forall|j: int|
            0 <= j < i && is_integer((#[trigger] entries[j]).0, label) ==> integer_of(entries[j].1)
                is None,
        i < entries.len() ==> is_integer(entries[i].0, label) && integer_of(entries[i].1) is Some,
    ensures
        labelled_integer(entries, label) == (if i < entries.len() {
            integer_of(entries[i].1)
        } else {
            None
        }),
    decreases entries.len(),
{
    if i > 0 {
        assert(!(is_integer(entries[0].0, label) && integer_of(entries[0].1) is Some));
        let rest = entries.drop_first();
        assert forall|j: int|
            0 <= j < i - 1 && is_integer((#[trigger] rest[j]).0, label) implies integer_of(
            rest[j].1,
        ) is None by {
            assert(rest[j] == entries[j + 1]);
        }
        lemma_labelled_integer(rest, label, i - 1);
    }
}

proof fn lemma_labelled_bytes(entries: Seq<(Cbor, Cbor)>, label: i64, i: int)
    requires
        0 <= i <= entries.len(),
        forall|j: int|
            0 <= j < i && is_integer((#[trigger] entries[j]).0, label) ==> !(entries[j].1 is Bytes),
        i < entries.len() ==> is_integer(entries[i].0, label) && entries[i].1 is Bytes,
    ensures
        labelled_bytes(entries, label) == (if i < entries.len() {
            Some(entries[i].1->Bytes_0)
        } else {
            None
        }),
    decreases entries.len(),
{
    if i > 0 {
        assert(!(is_integer(entries[0].0, label) && entries[0].1 is Bytes));
        let rest = entries.drop_first();
        assert forall|j: int| 0 <= j < i - 1 && is_integer((#[trigger] rest[j]).0, label) implies !(
        rest[j].1 is Bytes) by {
            assert(rest[j] == entries[j + 1]);
        }
        lemma_labelled_bytes(rest, label, i - 1);
    }
}

fn find_integer(key: &CborValue, label: i64) -> (out: Option<i64>)
    ensures
        out == key_integer(key@, label),
{
    let out: Option<i64> = find_key_label(key, label, integer_label);
    proof {
        if *key is Pairs {
            let entries = key->Pairs_0;
            lemma_pairs_content(entries);
            let all = pair_contents(entries@);
            let i = match out {
                Some(_) => choose|i: int| #[trigger]
                    first_extracted(integer_label, entries@, label, i, out->0),
                None => entries@.len() as int,
            };
            assert forall|j: int| 0 <= j < i && is_integer((#[trigger] all[j]).0, label) implies integer_of(
                all[j].1,
            ) is None by {
                assert(label_at(entries@, label, j));
            }
            lemma_labelled_integer(all, label, i);
        }
    }
    out
}

fn bytes_of(value: &CborValue) -> (out: Option<Vec<u8>>)
    ensures
        match out {
            Some(bytes) => value@ == Cbor::Bytes(bytes@),
            None => !(value@ is Bytes),
        },
{
    match value {
        CborValue::Bytes(bytes) => Some(copy_bytes(bytes)),
        _ => None,
    }
}

fn find_bytes(key: &CborValue, label: i64) -> (out: Option<Vec<u8>>)
    ensures
        seen(out) == key_bytes(key@, label),
{
    let out: Option<Vec<u8>> = find_key_label(key, label, bytes_of);
    proof {
        if *key is Pairs {
            let entries = key->Pairs_0;
            lemma_pairs_content(entries);
            let all = pair_contents(entries@);
            let i = match out {
                Some(_) => choose|i: int| #[trigger]
                    first_extracted(bytes_of, entries@, label, i, out->0),
                None => entries@.len() as int,
            };
            assert forall|j: int| 0 <= j < i && is_integer((#[trigger] all[j]).0, label) implies !(
            all[j].1 is Bytes) by {
                assert(label_at(entries@, label, j));
            }
            lemma_labelled_bytes(all, label, i);
        }
    }
    out
}

/// The SEC1 point of the device key: a COSE_Key of type EC2 on the curve P-256.
pub open spec fn device_key(mso: Cbor) -> Option<Seq<u8>> {
    match map_entry(mso, "deviceKeyInfo"@) {
        Some(info) => match map_entry(info, "deviceKey"@) {
            Some(key) => if key_integer(key, COSE_KEY_KTY) == Some(COSE_KTY_EC2) && key_integer(
                key,
                COSE_KEY_CRV,
            ) == Some(COSE_CRV_P256) {
                match (key_bytes(key, COSE_KEY_X), key_bytes(key, COSE_KEY_Y)) {
                    (Some(x), Some(y)) => sec1_point(x, y),
                    _ => None,
                }
            } else {
                None
            },
            None => None,
        },
        None => None,
    }
}

/// The holder's key, as a SEC1 point.
#[derive(Debug)]
pub struct DeviceKey {
    /// The uncompressed point.
    pub sec1: Vec<u8>,
}

/// Read the device key of a mobile security object.
pub fn mso_device_key(mso: &CborValue) -> (out: Result<DeviceKey, VerifyFailure>)
    ensures
        match out {
            Ok(key) => device_key(mso@) == Some(key.sec1@),
            Err(failure) => device_key(mso@) is None && failure.reason
                == ReasonCode::MalformedCredential,
        },
{
    let info = match get_map_entry(mso, "deviceKeyInfo") {
        Some(info) => info,
        None => {
            return Err(VerifyFailure::malformed());
        },
    };
    let key = match get_map_entry(info, "deviceKey") {
        Some(key) => key,
        None => {
            return Err(VerifyFailure::malformed());
        },
    };
    let kty: Option<i64> = find_integer(key, COSE_KEY_KTY);
    let crv: Option<i64> = find_integer(key, COSE_KEY_CRV);
    if kty != Some(COSE_KTY_EC2) || crv != Some(COSE_CRV_P256) {
        return Err(VerifyFailure::malformed());
    }
    let x = match find_bytes(key, COSE_KEY_X) {
        Some(x) => x,
        None => {
            return Err(VerifyFailure::malformed());
        },
    };
    let y = match find_bytes(key, COSE_KEY_Y) {
        Some(y) => y,
        None => {
            return Err(VerifyFailure::malformed());
        },
    };
    match p256_sec1_from_coords(x.as_slice(), y.as_slice()) {
        Some(sec1) => Ok(DeviceKey { sec1 }),
        None => Err(VerifyFailure::malformed()),
    }
}

} // verus!
