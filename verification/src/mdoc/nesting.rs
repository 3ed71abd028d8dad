//! How deep counter signatures are nested in COSE headers.
use crate::cbor::{
    cbor_decoded, contents, decode, integer_label, lemma_array_content, lemma_pairs_content,
    pair_contents, Cbor, CborValue,
};
use crate::mdoc::cose::is_integer;
use vstd::prelude::*;

verus! {

/// The label of the header parameter with counter signatures.
pub const COSE_HEADER_COUNTER_SIGNATURE: i64 = 7;

/// How deep counter signatures may be nested: reading that many takes a small part of a stack of
/// ordinary size.
pub const NESTING_LIMIT: u64 = 64;

/// Whether counter signatures are nested at most `limit` deep in a header.
pub open spec fn header_within(header: Cbor, limit: nat) -> bool
    decreases limit, 1int,
{
    header matches Cbor::Pairs(entries) ==> forall|i: int|
        0 <= i < entries.len() && is_integer(
            (#[trigger] entries[i]).0,
            COSE_HEADER_COUNTER_SIGNATURE,
        ) ==> signatures_within(entries[i].1, limit)
}

/// Whether the counter signatures of a header, one or a list of them, are nested at most `limit`
/// deep.
pub open spec fn signatures_within(value: Cbor, limit: nat) -> bool
    decreases limit, 0int,
{
    value matches Cbor::Array(items) ==> limit > 0 && if items.len() > 0 && items[0] is Array {
        forall|i: int|
            0 <= i < items.len() ==> signature_within(#[trigger] items[i], (limit - 1) as nat)
    } else {
        signature_within(value, (limit - 1) as nat)
    }
}

/// Whether counter signatures are nested at most `limit` deep in the headers of a signature.
pub open spec fn signature_within(value: Cbor, limit: nat) -> bool
    decreases limit, 3int,
{
    value matches Cbor::Array(items) ==> (items.len() == 3 ==> protected_within(items[0], limit)
        && header_within(items[1], limit))
}

/// Whether counter signatures are nested at most `limit` deep in an encoded header.
pub open spec fn protected_within(value: Cbor, limit: nat) -> bool
    decreases limit, 2int,
{
    value matches Cbor::Bytes(bytes) ==> (cbor_decoded(bytes) matches Some(header)
        ==> header_within(header, limit))
}

/// Whether counter signatures are nested no deeper than the limit in the headers of a COSE_Sign1.
pub open spec fn sign1_within(value: Cbor) -> bool {
    value matches Cbor::Array(items) ==> (items.len() == 4 ==> protected_within(
        items[0],
        NESTING_LIMIT as nat,
    ) && header_within(items[1], NESTING_LIMIT as nat))
}

proof fn lemma_entry_within(entries: Seq<(Cbor, Cbor)>, i: int, limit: nat)
    requires
        header_within(Cbor::Pairs(entries), limit),
        0 <= i < entries.len(),
        is_integer(entries[i].0, COSE_HEADER_COUNTER_SIGNATURE),
    ensures
        signatures_within(entries[i].1, limit),
{
    let header = Cbor::Pairs(entries);
    assert(header->Pairs_0[i] == entries[i]);
    assert(forall|j: int|
        0 <= j < entries.len() && is_integer(
            (#[trigger] entries[j]).0,
            COSE_HEADER_COUNTER_SIGNATURE,
        ) ==> signatures_within(entries[j].1, limit));
}

fn is_header_within(header: &CborValue, limit: u64) -> (out: bool)
    ensures
        out == header_within(header@, limit as nat),
    decreases limit, 1int,
{
    let entries = match header {
        CborValue::Pairs(entries) => entries,
        _ => {
            return true;
        },
    };
    proof {
        lemma_pairs_content(*entries);
    }
    let ghost all = pair_contents(entries@);
    let mut i: usize = 0;
    while i < entries.len()
        invariant
            i <= entries@.len(),
            all == pair_contents(entries@),
            header@ == Cbor::Pairs(all),
            forall|j: int|
                0 <= j < i && is_integer((#[trigger] all[j]).0, COSE_HEADER_COUNTER_SIGNATURE)
                    ==> signatures_within(all[j].1, limit as nat),
        decreases entries@.len() - i,
    {
        assert(all[i as int] == (entries@[i as int].0@, entries@[i as int].1@));
        let counted = match integer_label(&entries[i].0) {
            Some(label) => label == COSE_HEADER_COUNTER_SIGNATURE,
            None => false,
        };
        if counted && !are_signatures_within(&entries[i].1, limit) {
            proof {
                if header_within(header@, limit as nat) {
                    lemma_entry_within(all, i as int, limit as nat);
                }
            }
            return false;
        }
        i += 1;
    }
    true
}

fn are_signatures_within(value: &CborValue, limit: u64) -> (out: bool)
    ensures
        out == signatures_within(value@, limit as nat),
    decreases limit, 0int,
{
    let items = match value {
        CborValue::Array(items) => items,
        _ => {
            return true;
        },
    };
    proof {
        lemma_array_content(*items);
    }
    if limit == 0 {
        return false;
    }
    let ghost all = contents(items@);
    let several = items.len() > 0 && match &items[0] {
        CborValue::Array(_) => true,
        _ => false,
    };
    assert(items@.len() > 0 ==> all[0] == items@[0]@);
    if !several {
        return is_signature_within(value, limit - 1);
    }
    let mut i: usize = 0;
    while i < items.len()
        invariant
            i <= items@.len(),
            0 < limit,
            all == contents(items@),
            value@ == Cbor::Array(all),
            items@.len() > 0,
            all[0] is Array,
            forall|j: int|
                0 <= j < i ==> signature_within(#[trigger] all[j], (limit - 1) as nat),
        decreases items@.len() - i,
    {
        assert(all[i as int] == items@[i as int]@);
        if !is_signature_within(&items[i], limit - 1) {
            return false;
        }
        i += 1;
    }
    true
}

fn is_signature_within(value: &CborValue, limit: u64) -> (out: bool)
    ensures
        out == signature_within(value@, limit as nat),
    decreases limit, 3int,
{
    match value {
        CborValue::Array(items) => {
            proof {
                lemma_array_content(*items);
            }
            if items.len() != 3 {
                return true;
            }
            assert(contents(items@)[0] == items@[0]@);
            assert(contents(items@)[1] == items@[1]@);
            is_protected_within(&items[0], limit) && is_header_within(&items[1], limit)
        },
        _ => true,
    }
}

fn is_protected_within(value: &CborValue, limit: u64) -> (out: bool)
    ensures
        out == protected_within(value@, limit as nat),
    decreases limit, 2int,
{
    match value {
        CborValue::Bytes(bytes) => match decode(bytes.as_slice()) {
            Some(header) => is_header_within(&header, limit),
            None => true,
        },
        _ => true,
    }
}

/// Whether counter signatures are nested no deeper than the limit in an encoded header.
pub fn header_nests_within_limit(protected: &Vec<u8>) -> (out: bool)
    ensures
        out == protected_within(Cbor::Bytes(protected@), NESTING_LIMIT as nat),
{
    match decode(protected.as_slice()) {
        Some(header) => is_header_within(&header, NESTING_LIMIT),
        None => true,
    }
}

/// Whether counter signatures are nested no deeper than the limit in the headers of a COSE_Sign1.
pub fn sign1_nests_within_limit(value: &CborValue) -> (out: bool)
    ensures
        out == sign1_within(value@),
{
    match value {
        CborValue::Array(items) => {
            proof {
                lemma_array_content(*items);
            }
            if items.len() != 4 {
                return true;
            }
            assert(contents(items@)[0] == items@[0]@);
            assert(contents(items@)[1] == items@[1]@);
            is_protected_within(&items[0], NESTING_LIMIT) && is_header_within(
                &items[1],
                NESTING_LIMIT,
            )
        },
        _ => true,
    }
}

} // verus!
