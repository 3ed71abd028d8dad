//! Complete items of definite lengths, and what the cursor has to do with them.
use crate::mdoc::cursor::{
    children_of, content_end, countable, head_at, lemma_head_progress, skip_at,
};
use vstd::prelude::*;

verus! {

/// Where the complete item at `pos` ends: a head, and behind it the bytes of a string, or the items
/// of an array, of a map or under a tag.
pub open spec fn item_end(input: Seq<u8>, pos: int) -> Option<int>
    decreases input.len() - pos, 0int,
{
    match head_at(input, pos) {
        (Some(head), next) => if head.major == 2 || head.major == 3 {
            content_end(input, next, head)
        } else {
            items_end(input, next, children_of(head))
        },
        (None, _) => None,
    }
}

/// Where the last of `n` complete items from `pos` on ends.
pub open spec fn items_end(input: Seq<u8>, pos: int, n: int) -> Option<int>
    decreases input.len() - pos, 1int,
{
    if n <= 0 {
        Some(pos)
    } else {
        match item_end(input, pos) {
            Some(next) => if pos < next <= input.len() {
                items_end(input, next, n - 1)
            } else {
                None
            },
            None => None,
        }
    }
}

/// An item has at least one byte and stays inside the input; so do the items of a list.
pub proof fn law_items_have_bytes(input: Seq<u8>, pos: int, n: int)
    requires
        0 <= pos <= input.len(),
        0 <= n,
    ensures
        item_end(input, pos) matches Some(end) ==> pos < end <= input.len(),
        items_end(input, pos, n) matches Some(end) ==> pos + n <= end <= input.len(),
    decreases input.len() - pos, n,
{
    lemma_head_progress(input, pos);
    if let (Some(head), next) = head_at(input, pos) {
        if !(head.major == 2 || head.major == 3) {
            law_items_have_bytes(input, next, children_of(head));
        }
    }
    if n > 0 {
        if let Some(next) = item_end(input, pos) {
            law_items_have_bytes(input, next, n - 1);
        }
    }
}

/// Reading some items and then more is reading all of them.
pub proof fn law_items_follow_items(input: Seq<u8>, pos: int, m: int, n: int)
    requires
        0 <= pos <= input.len(),
        0 <= m,
        0 <= n,
    ensures
        items_end(input, pos, m + n) == (match items_end(input, pos, m) {
            Some(middle) => items_end(input, middle, n),
            None => None,
        }),
    decreases input.len() - pos,
{
    if m > 0 {
        law_items_have_bytes(input, pos, 1);
        if let Some(next) = item_end(input, pos) {
            law_items_follow_items(input, next, m - 1, n);
        }
    }
}

/// Skipping is reading past complete items: it succeeds exactly where they are all there, and ends
/// where they end.
pub proof fn law_skipping_reads_past_items(input: Seq<u8>, pos: int, n: int)
    requires
        0 <= pos <= input.len() <= usize::MAX,
        0 <= n,
    ensures
        skip_at(input, pos, n).0 == (items_end(input, pos, n) is Some),
        items_end(input, pos, n) matches Some(end) ==> skip_at(input, pos, n) == (true, end),
    decreases input.len() - pos,
{
    if n > 0 {
        lemma_head_progress(input, pos);
        if let (Some(head), next) = head_at(input, pos) {
            if head.major == 2 || head.major == 3 {
                assert(item_end(input, pos) == content_end(input, next, head));
                if next + head.arg <= input.len() {
                    law_skipping_reads_past_items(input, next + head.arg, n - 1);
                }
            } else {
                let children = children_of(head);
                law_items_follow_items(input, next, children, n - 1);
                law_items_have_bytes(input, next, children);
                law_items_have_bytes(input, next, children + n - 1);
                assert(item_end(input, pos) == items_end(input, next, children));
                assert(items_end(input, pos, n) == items_end(input, next, children + (n - 1)));
                if countable(head) && n - 1 + children <= usize::MAX {
                    law_skipping_reads_past_items(input, next, n - 1 + children);
                }
            }
        }
    }
}

/// An input is skipped as a whole exactly where it is one complete item with nothing behind it.
pub proof fn law_one_complete_item(input: Seq<u8>)
    requires
        input.len() <= usize::MAX,
    ensures
        skip_at(input, 0, 1) == (true, input.len() as int) <==> item_end(input, 0) == Some(
            input.len() as int,
        ),
{
    law_skipping_reads_past_items(input, 0, 1);
    law_items_have_bytes(input, 0, 1);
    if let Some(end) = item_end(input, 0) {
        assert(items_end(input, end, 0) == Some(end));
        assert(items_end(input, 0, 1) == items_end(input, end, 0));
    }
}

} // verus!
