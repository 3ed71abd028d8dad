//! What is refused for the depth of its counter signatures.
use crate::cbor::{cbor_decoded, Cbor, CborValue};
use crate::mdoc::acceptance_laws::is_number;
use crate::mdoc::cose::{is_integer, parse_cose_sign1, untagged, CoseSign1};
use crate::mdoc::failure::VerifyFailure;
use crate::mdoc::nesting::{
    header_within, sign1_nests_within_limit, signature_within, signatures_within,
    COSE_HEADER_COUNTER_SIGNATURE,
};
use vstd::prelude::*;

verus! {

/// Whether a header holds a counter signature whose header holds another, and so on, a number of
/// times.
pub open spec fn signed_over(header: Cbor, times: nat) -> bool
    decreases times,
{
    times > 0 ==> exists|i: int, inner: Cbor|
        {
            &&& header is Pairs && 0 <= i < header->Pairs_0.len()
            &&& is_number((#[trigger] header->Pairs_0[i]).0, 7)
            &&& #[trigger] is_signature_with(header->Pairs_0[i].1, inner)
            &&& signed_over(inner, (times - 1) as nat)
        }
}

/// Whether an item is a signature with an unprotected header: three items, of which it is the
/// second.
pub open spec fn is_signature_with(item: Cbor, header: Cbor) -> bool {
    item matches Cbor::Array(items) && items.len() == 3 && !(items[0] is Array) && items[1]
        == header
}

/// Whether a header holds no counter signature.
pub open spec fn not_signed_over(header: Cbor) -> bool {
    header matches Cbor::Pairs(entries) ==> forall|i: int|
        0 <= i < entries.len() ==> !is_number((#[trigger] entries[i]).0, 7)
}

proof fn lemma_too_deep(header: Cbor, limit: nat)
    requires
        signed_over(header, limit + 1),
    ensures
        !header_within(header, limit),
    decreases limit,
{
    let (i, inner) = choose|i: int, inner: Cbor|
        {
            &&& header is Pairs && 0 <= i < header->Pairs_0.len()
            &&& is_number((#[trigger] header->Pairs_0[i]).0, 7)
            &&& #[trigger] is_signature_with(header->Pairs_0[i].1, inner)
            &&& signed_over(inner, limit)
        };
    let entries = header->Pairs_0;
    assert(is_integer(entries[i].0, COSE_HEADER_COUNTER_SIGNATURE));
    if limit > 0 {
        lemma_too_deep(inner, (limit - 1) as nat);
        assert(!signature_within(entries[i].1, (limit - 1) as nat));
    }
    assert(!signatures_within(entries[i].1, limit));
    if header_within(header, limit) {
        assert(forall|j: int|
            0 <= j < entries.len() && is_integer(
                (#[trigger] entries[j]).0,
                COSE_HEADER_COUNTER_SIGNATURE,
            ) ==> signatures_within(entries[j].1, limit));
    }
}

proof fn lemma_not_deep(header: Cbor, limit: nat)
    requires
        not_signed_over(header),
    ensures
        header_within(header, limit),
{
    if let Cbor::Pairs(entries) = header {
        assert forall|i: int|
            0 <= i < entries.len() && is_integer(
                (#[trigger] entries[i]).0,
                COSE_HEADER_COUNTER_SIGNATURE,
            ) implies signatures_within(entries[i].1, limit) by {
            assert(!is_number(entries[i].0, 7));
        }
    }
}

/// A signature whose header holds counter signatures inside each other more than 64 times is
/// refused; one without any is not refused for its depth.
pub proof fn law_deep_signatures_are_refused(
    value: &CborValue,
    items: Seq<Cbor>,
    within: bool,
    out: Result<CoseSign1, VerifyFailure>,
)
    requires
        value@ == Cbor::Array(items),
        items.len() == 4,
        call_ensures(sign1_nests_within_limit, (value,), within),
        call_ensures(parse_cose_sign1, (value,), out),
    ensures
        signed_over(items[1], 65) ==> !within && out is Err,
        not_signed_over(items[1]) && (items[0] matches Cbor::Bytes(bytes) ==> (cbor_decoded(
            bytes,
        ) matches Some(header) ==> not_signed_over(header))) ==> within,
{
    assert(untagged(value@) == value@);
    if signed_over(items[1], 65) {
        lemma_too_deep(items[1], 64);
    }
    if not_signed_over(items[1]) {
        lemma_not_deep(items[1], 64);
    }
    if let Cbor::Bytes(bytes) = items[0] {
        if let Some(header) = cbor_decoded(bytes) {
            if not_signed_over(header) {
                lemma_not_deep(header, 64);
            }
        }
    }
}

} // verus!
