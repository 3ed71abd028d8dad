//! Which encodings are taken as one item of definite lengths.
use crate::mdoc::cursor::{big_endian, children_of, head_at, lemma_head_progress, within, CborHead};
use crate::mdoc::failure::VerifyFailure;
use crate::mdoc::grammar::{item_end, items_end, law_items_have_bytes};
use crate::mdoc::verify::reject_indefinite_length_cbor;
use crate::types::ReasonCode;
use vstd::prelude::*;

verus! {

/// The head of an item of a major type with an argument, in the shortest form.
pub open spec fn short_head(major: int, arg: int) -> Seq<u8> {
    if arg < 24 {
        seq![(32 * major + arg) as u8]
    } else if arg < 0x100 {
        seq![(32 * major + 24) as u8, arg as u8]
    } else if arg < 0x1_0000 {
        seq![(32 * major + 25) as u8, (arg / 0x100) as u8, (arg % 0x100) as u8]
    } else {
        seq![
            (32 * major + 26) as u8,
            (arg / 0x100_0000) as u8,
            (arg / 0x1_0000 % 0x100) as u8,
            (arg / 0x100 % 0x100) as u8,
            (arg % 0x100) as u8,
        ]
    }
}

proof fn lemma_big_endian_4(bytes: Seq<u8>)
    requires
        1 <= bytes.len() <= 4,
    ensures
        bytes.len() == 1 ==> big_endian(bytes) == bytes[0],
        bytes.len() == 2 ==> big_endian(bytes) == 0x100 * bytes[0] + bytes[1],
        bytes.len() == 4 ==> big_endian(bytes) == 0x100_0000 * bytes[0] + 0x1_0000 * bytes[1] + 0x100
            * bytes[2] + bytes[3],
{
    reveal_with_fuel(big_endian, 5);
}

/// A head in the shortest form is read as its major type and its argument, and no byte more.
pub proof fn law_heads_are_read_back(major: int, arg: int, rest: Seq<u8>)
    requires
        0 <= major <= 7,
        0 <= arg < 0x1_0000_0000,
    ensures
        head_at(short_head(major, arg) + rest, 0) == (
            Some(CborHead { major: major as u8, arg: arg as u64 }),
            short_head(major, arg).len() as int,
        ),
{
    let head = short_head(major, arg);
    let input = head + rest;
    assert(input[0] == head[0]);
    assert((32 * major) as u8 == 32 * major);
    let info: int = if arg < 24 {
        arg
    } else if arg < 0x100 {
        24
    } else if arg < 0x1_0000 {
        25
    } else {
        26
    };
    assert(head[0] == 32 * major + info);
    assert(head[0] / 32 == major && head[0] % 32 == info);
    if arg >= 24 {
        let bytes = input.subrange(1, head.len() as int);
        assert(bytes =~= head.subrange(1, head.len() as int));
        lemma_big_endian_4(bytes);
        assert(big_endian(bytes) == arg);
        assert(within(input, 1, head.len() as int));
    }
}

/// A head of indefinite length, and a reserved one, is no head.
pub proof fn law_other_heads_are_refused(device_response: &[u8], out: Result<(), VerifyFailure>)
    requires
        call_ensures(reject_indefinite_length_cbor, (device_response,), out),
        device_response@.len() == 0 || device_response@[0] % 32 >= 28,
    ensures
        out matches Err(failure) && failure.reason == ReasonCode::MalformedCredential,
{
}

pub(crate) proof fn lemma_head_shift(pre: Seq<u8>, x: Seq<u8>, p: int)
    requires
        0 <= p,
    ensures
        head_at(pre + x, pre.len() + p) == (head_at(x, p).0, pre.len() + head_at(x, p).1),
{
    let s = pre + x;
    if p < x.len() {
        assert(s[pre.len() + p] == x[p]);
        let info = x[p] % 32;
        let width: int = if info == 24 {
            1
        } else if info == 25 {
            2
        } else if info == 26 {
            4
        } else {
            8
        };
        if p + 1 + width <= x.len() {
            assert(s.subrange(pre.len() + p + 1, pre.len() + p + 1 + width) =~= x.subrange(
                p + 1,
                p + 1 + width,
            ));
        }
    }
}

spec fn shifted(by: int, end: Option<int>) -> Option<int> {
    match end {
        Some(end) => Some(by + end),
        None => None,
    }
}

proof fn lemma_shift(pre: Seq<u8>, x: Seq<u8>, p: int, n: int)
    requires
        0 <= p <= x.len(),
        0 <= n,
    ensures
        item_end(pre + x, pre.len() + p) == shifted(pre.len() as int, item_end(x, p)),
        items_end(pre + x, pre.len() + p, n) == shifted(pre.len() as int, items_end(x, p, n)),
    decreases x.len() - p, n,
{
    let s = pre + x;
    let by = pre.len() as int;
    lemma_head_shift(pre, x, p);
    lemma_head_progress(x, p);
    if let (Some(head), next) = head_at(x, p) {
        if !(head.major == 2 || head.major == 3) {
            lemma_shift(pre, x, next, children_of(head));
        }
    }
    assert(item_end(s, by + p) == shifted(by, item_end(x, p)));
    if n > 0 {
        law_items_have_bytes(x, p, 1);
        if let Some(next) = item_end(x, p) {
            lemma_shift(pre, x, next, n - 1);
        }
    }
}

proof fn lemma_more(x: Seq<u8>, post: Seq<u8>, p: int, n: int)
    requires
        0 <= p <= x.len(),
        0 <= n,
    ensures
        item_end(x, p) is Some ==> item_end(x + post, p) == item_end(x, p),
        items_end(x, p, n) is Some ==> items_end(x + post, p, n) == items_end(x, p, n),
    decreases x.len() - p, n,
{
    let s = x + post;
    lemma_head_progress(x, p);
    if let (Some(head), next) = head_at(x, p) {
        assert(s[p] == x[p]);
        assert(s.subrange(p + 1, next) =~= x.subrange(p + 1, next));
        assert(head_at(s, p) == head_at(x, p));
        if !(head.major == 2 || head.major == 3) {
            lemma_more(x, post, next, children_of(head));
        }
    }
    if n > 0 {
        law_items_have_bytes(x, p, 1);
        if let Some(next) = item_end(x, p) {
            lemma_more(x, post, next, n - 1);
        }
    }
}

/// A byte or text string is one item where exactly the announced bytes follow its head.
pub proof fn law_strings_are_one_item(
    major: int,
    content: Seq<u8>,
    device_response: &[u8],
    out: Result<(), VerifyFailure>,
)
    requires
        call_ensures(reject_indefinite_length_cbor, (device_response,), out),
        major == 2 || major == 3,
        content.len() < 0x1_0000_0000,
        device_response@ == short_head(major, content.len() as int) + content,
    ensures
        out is Ok,
{
    law_heads_are_read_back(major, content.len() as int, content);
}

/// An integer is one item by its head alone, and so is a simple value.
pub proof fn law_plain_heads_are_one_item(
    major: int,
    arg: int,
    device_response: &[u8],
    out: Result<(), VerifyFailure>,
)
    requires
        call_ensures(reject_indefinite_length_cbor, (device_response,), out),
        major == 0 || major == 1 || major == 7,
        0 <= arg < 0x1_0000_0000,
        device_response@ == short_head(major, arg),
    ensures
        out is Ok,
{
    law_heads_are_read_back(major, arg, Seq::empty());
    let head = short_head(major, arg);
    assert(head + Seq::<u8>::empty() =~= head);
    assert(items_end(head, head.len() as int, 0) == Some(head.len() as int));
}

/// A tagged item is one item exactly where what stands behind the tag is one.
pub proof fn law_tagged_items_are_one_item(
    tag: int,
    inner: &[u8],
    inner_out: Result<(), VerifyFailure>,
    device_response: &[u8],
    out: Result<(), VerifyFailure>,
)
    requires
        call_ensures(reject_indefinite_length_cbor, (inner,), inner_out),
        call_ensures(reject_indefinite_length_cbor, (device_response,), out),
        0 <= tag < 0x1_0000_0000,
        device_response@ == short_head(6, tag) + inner@,
    ensures
        out is Ok <==> inner_out is Ok,
{
    let head = short_head(6, tag);
    let x = inner@;
    law_heads_are_read_back(6, tag, x);
    lemma_shift(head, x, 0, 1);
    lemma_one(x, 0);
    assert(item_end(head + x, 0) == items_end(head + x, head.len() as int, 1));
}

proof fn lemma_one(x: Seq<u8>, p: int)
    requires
        0 <= p <= x.len(),
    ensures
        items_end(x, p, 1) == item_end(x, p),
{
    law_items_have_bytes(x, p, 1);
    if let Some(next) = item_end(x, p) {
        assert(items_end(x, next, 0) == Some(next));
    }
}

/// Two items behind the head of an array of two, or of a map of one, are one item; and an item with
/// another behind it is not.
pub proof fn law_pairs_are_one_item(
    first: &[u8],
    second: &[u8],
    device_response: &[u8],
    out: Result<(), VerifyFailure>,
    both: &[u8],
    both_out: Result<(), VerifyFailure>,
)
    requires
        call_ensures(reject_indefinite_length_cbor, (first,), Ok::<(), VerifyFailure>(())),
        call_ensures(reject_indefinite_length_cbor, (second,), Ok::<(), VerifyFailure>(())),
        call_ensures(reject_indefinite_length_cbor, (device_response,), out),
        call_ensures(reject_indefinite_length_cbor, (both,), both_out),
        device_response@ == short_head(4, 2) + (first@ + second@) || device_response@ == short_head(
            5,
            1,
        ) + (first@ + second@),
        both@ == first@ + second@,
    ensures
        out is Ok,
        both_out is Err,
{
    let x = first@;
    let y = second@;
    let xy = x + y;
    law_items_have_bytes(x, 0, 1);
    law_items_have_bytes(y, 0, 1);
    lemma_more(x, y, 0, 1);
    assert(item_end(xy, 0) == Some(x.len() as int));
    lemma_shift(x, y, 0, 1);
    lemma_one(y, 0);
    assert(items_end(xy, x.len() as int, 1) == Some(xy.len() as int));
    assert(items_end(xy, 0, 2) == Some(xy.len() as int));
    let major: int = if device_response@ == short_head(4, 2) + xy {
        4
    } else {
        5
    };
    let arg: int = if major == 4 {
        2
    } else {
        1
    };
    law_heads_are_read_back(major, arg, xy);
    let head = short_head(major, arg);
    lemma_shift(head, xy, 0, 2);
    assert(item_end(head + xy, 0) == items_end(head + xy, head.len() as int, 2));
}

} // verus!
