//! What is captured of the bytes of a response.
use crate::cbor::{cbor_decoded, map_entry, Cbor};
use crate::mdoc::acceptance_laws::is_number;
use crate::mdoc::cursor::{content_end, head_at, lemma_head_progress, tagged_bstr_at};
use crate::mdoc::encoding_laws::{law_heads_are_read_back, short_head};
use crate::mdoc::items::{
    decode_raw_issuer_item, document_items, item_of, raw_items, response_items,
    scan_raw_issuer_items, RawDocumentItems, RawIssuerItem,
};
use crate::mdoc::laws::{
    document_on_the_wire, law_records_are_on_the_wire, list_on_the_wire, on_the_wire,
};
use vstd::prelude::*;

verus! {

/// Whether a record is what its bytes say: its identifiers and its value stand in what they decode
/// to.
pub open spec fn says_itself(record: RawIssuerItem<'_>, inner: Seq<u8>) -> bool {
    &&& cbor_decoded(inner) == Some(record.item@)
    &&& map_entry(record.item@, "digestID"@) matches Some(id) && is_number(
        id,
        record.digest_id as int,
    )
    &&& map_entry(record.item@, "elementIdentifier"@) == Some(Cbor::Text(record.identifier@))
    &&& map_entry(record.item@, "elementValue"@) is Some
}

/// An item is captured where its bytes decode to a map with a number under `digestID`, a text under
/// `elementIdentifier` and something under `elementValue`; it keeps them, and the bytes it was sent
/// in.
pub proof fn law_items_are_captured(
    raw_bytes: &[u8],
    inner: &[u8],
    out: Option<RawIssuerItem<'_>>,
)
    requires
        call_ensures(decode_raw_issuer_item, (raw_bytes, inner), out),
    ensures
        out matches Some(record) ==> record.raw_bytes@ == raw_bytes@ && says_itself(record, inner@),
        out is None ==> !(cbor_decoded(inner@) matches Some(item) && {
            &&& map_entry(item, "digestID"@) matches Some(id) && exists|n: i64| #[trigger]
                is_number(id, n as int)
            &&& map_entry(item, "elementIdentifier"@) matches Some(Cbor::Text(_))
            &&& map_entry(item, "elementValue"@) is Some
        }),
{
}

/// Every captured item stands in the response: its bytes are a part of it, with what they hold at
/// their end, and it is what these bytes say.
pub proof fn law_captured_items_stand_in_the_response(
    device_response: &[u8],
    out: Vec<RawDocumentItems<'_>>,
    k: int,
    name_space: Seq<char>,
    i: int,
)
    requires
        call_ensures(scan_raw_issuer_items, (device_response,), out),
        0 <= k < out@.len(),
        out@[k]@.contains_key(name_space),
        0 <= i < out@[k]@[name_space]@.len(),
    ensures
        exists|from: int, content: int, to: int|
            {
                &&& 0 <= from <= content <= to <= device_response@.len()
                &&& out@[k]@[name_space]@[i].raw_bytes@ == #[trigger] device_response@.subrange(
                    from,
                    to,
                )
                &&& says_itself(
                    out@[k]@[name_space]@[i],
                    #[trigger] device_response@.subrange(content, to),
                )
            },
{
    let response = device_response@;
    let record = out@[k]@[name_space]@[i];
    let all = response_items(out@);
    law_records_are_on_the_wire(response);
    assert(all[k] == document_items(out@[k]@));
    assert(document_on_the_wire(response, all[k]));
    assert(all[k].contains_key(name_space));
    assert(list_on_the_wire(response, all[k][name_space]));
    assert(all[k][name_space] == raw_items(out@[k]@[name_space]@));
    assert(all[k][name_space][i] == record@);
    assert(on_the_wire(response, record@));
    let pos = choose|pos: int| #[trigger]
        tagged_bstr_at(response, pos).0 matches Some((raw, inner)) && item_of(raw, inner) == Some(
            record@,
        );
    let (tag, after_tag) = head_at(response, pos);
    let (bstr, content) = head_at(response, after_tag);
    lemma_head_progress(response, pos);
    lemma_head_progress(response, after_tag);
    let to = content_end(response, content, bstr->0)->0;
    assert(record.raw_bytes@ == response.subrange(pos, to));
    assert(says_itself(record, response.subrange(content, to)));
}

/// An item as it is sent: its bytes in a byte string under the tag 24.
pub open spec fn sent(inner: Seq<u8>) -> Seq<u8> {
    short_head(6, 24) + (short_head(2, inner.len() as int) + inner)
}

/// An item that is sent is found with its whole span and with its bytes.
pub proof fn law_sent_items_are_found(inner: Seq<u8>, rest: Seq<u8>)
    requires
        inner.len() < 0x1_0000_0000,
    ensures
        tagged_bstr_at(sent(inner) + rest, 0) == (
            Some((sent(inner), inner)),
            sent(inner).len() as int,
        ),
{
    let tag = short_head(6, 24);
    let head = short_head(2, inner.len() as int);
    let input = sent(inner) + rest;
    assert(input =~= tag + (head + (inner + rest)));
    law_heads_are_read_back(6, 24, head + (inner + rest));
    law_heads_are_read_back(2, inner.len() as int, inner + rest);
    crate::mdoc::encoding_laws::lemma_head_shift(tag, head + (inner + rest), 0);
    let content = tag.len() + head.len();
    let to = content + inner.len();
    assert(input.subrange(0, to as int) =~= sent(inner));
    assert(input.subrange(content as int, to as int) =~= inner);
}

} // verus!
