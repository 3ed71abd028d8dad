//! What the walk through the bytes of a response depends on.
use crate::mdoc::cursor::{
    children_of, content_end, count_at, head_at, lemma_head_progress, skip_at, tagged_bstr_at,
    text_at,
};
use crate::mdoc::grammar::{
    item_end, items_end, law_items_follow_items, law_items_have_bytes,
    law_skipping_reads_past_items,
};
use crate::mdoc::items::{
    document_at, document_map_at, documents_at, found_or_empty, issuer_signed_at,
    issuer_signed_map_at, item_of, items_at, items_of_response, items_under, name_spaces_at,
    name_spaces_map_at, response_at, skip_entry_at, RawItem,
};
use vstd::prelude::*;

verus! {

/// Whether the bytes `from..to` of `a` stand in `b` too, `shift` places further on.
pub open spec fn same_bytes(a: Seq<u8>, from: int, to: int, b: Seq<u8>, shift: int) -> bool {
    &&& 0 <= from <= to <= a.len() <= usize::MAX
    &&& 0 <= from + shift
    &&& to + shift <= b.len() <= usize::MAX
    &&& forall|i: int| from <= i < to ==> #[trigger] a[i] == b[i + shift]
}

proof fn lemma_same_span(a: Seq<u8>, from: int, to: int, b: Seq<u8>, shift: int, p: int, q: int)
    requires
        same_bytes(a, from, to, b, shift),
        from <= p <= q <= to,
    ensures
        a.subrange(p, q) == b.subrange(p + shift, q + shift),
{
    let x = a.subrange(p, q);
    let y = b.subrange(p + shift, q + shift);
    assert forall|i: int| 0 <= i < q - p implies x[i] == y[i] by {
        assert(a[p + i] == b[p + i + shift]);
    }
    assert(x =~= y);
}

proof fn lemma_same_head(a: Seq<u8>, from: int, to: int, b: Seq<u8>, shift: int, p: int)
    requires
        same_bytes(a, from, to, b, shift),
        from <= p,
        head_at(a, p).0 is Some,
        head_at(a, p).1 <= to,
    ensures
        head_at(b, p + shift) == (head_at(a, p).0, head_at(a, p).1 + shift),
{
    let next = head_at(a, p).1;
    assert(a[p] == b[p + shift]);
    lemma_same_span(a, from, to, b, shift, p + 1, next);
}

proof fn lemma_same_items(a: Seq<u8>, from: int, to: int, b: Seq<u8>, shift: int, p: int, n: int)
    requires
        same_bytes(a, from, to, b, shift),
        from <= p <= to,
        0 <= n,
    ensures
        item_end(a, p) matches Some(end) ==> (end <= to ==> item_end(b, p + shift) == Some(
            end + shift,
        )),
        items_end(a, p, n) matches Some(end) ==> (end <= to ==> items_end(b, p + shift, n) == Some(
            end + shift,
        )),
    decreases a.len() - p, n,
{
    lemma_head_progress(a, p);
    law_items_have_bytes(a, p, n);
    if let (Some(head), next) = head_at(a, p) {
        if head.major == 2 || head.major == 3 {
            if next + head.arg <= to {
                lemma_same_head(a, from, to, b, shift, p);
            }
        } else {
            law_items_have_bytes(a, next, children_of(head));
            if let Some(end) = item_end(a, p) {
                if end <= to {
                    lemma_same_head(a, from, to, b, shift, p);
                    lemma_same_items(a, from, to, b, shift, next, children_of(head));
                }
            }
        }
    }
    if n > 0 {
        if let Some(next) = item_end(a, p) {
            law_items_have_bytes(a, next, n - 1);
            if let Some(end) = items_end(a, p, n) {
                if end <= to {
                    lemma_same_items(a, from, to, b, shift, next, n - 1);
                }
            }
        }
    }
}

/// The key of an entry is read alike.
proof fn lemma_same_text(a: Seq<u8>, from: int, to: int, b: Seq<u8>, shift: int, p: int)
    requires
        same_bytes(a, from, to, b, shift),
        from <= p <= to,
        item_end(a, p) matches Some(end) && end <= to,
    ensures
        text_at(b, p + shift).0 == text_at(a, p).0,
        text_at(a, p).0 is Some ==> text_at(a, p).1 == item_end(a, p)->Some_0 && text_at(
            b,
            p + shift,
        ).1 == item_end(a, p)->Some_0 + shift,
{
    let (head, next) = head_at(a, p);
    let end = item_end(a, p)->Some_0;
    lemma_head_progress(a, p);
    if head->Some_0.major == 2 || head->Some_0.major == 3 {
        lemma_same_head(a, from, to, b, shift, p);
        lemma_same_span(a, from, to, b, shift, next, end);
    } else {
        law_items_have_bytes(a, next, children_of(head->Some_0));
        lemma_same_head(a, from, to, b, shift, p);
    }
}

/// An entry is two items.
proof fn lemma_entry(input: Seq<u8>, pos: int, n: int)
    requires
        0 <= pos <= input.len(),
        0 < n,
        items_end(input, pos, 2 * n) is Some,
    ensures
        item_end(input, pos) is Some,
        pos < item_end(input, pos)->Some_0 <= input.len(),
        item_end(input, item_end(input, pos)->Some_0) is Some,
        ({
            let value = item_end(input, pos)->Some_0;
            let next = item_end(input, value)->Some_0;
            &&& value < next <= items_end(input, pos, 2 * n)->Some_0 <= input.len()
            &&& items_end(input, next, 2 * (n - 1)) == items_end(input, pos, 2 * n)
        }),
{
    law_items_have_bytes(input, pos, 2 * n);
    let value = item_end(input, pos)->Some_0;
    law_items_have_bytes(input, value, 2 * n - 1);
    let next = item_end(input, value)->Some_0;
    assert(items_end(input, pos, 2 * n) == items_end(input, value, 2 * n - 1));
    assert(items_end(input, value, 2 * n - 1) == items_end(input, next, 2 * n - 2));
    law_items_have_bytes(input, next, 2 * n - 2);
}

/// An entry, the other way round.
proof fn lemma_one_more_entry(input: Seq<u8>, pos: int, value: int, next: int, n: int)
    requires
        0 <= pos <= input.len(),
        0 < n,
        item_end(input, pos) == Some(value),
        item_end(input, value) == Some(next),
        items_end(input, next, 2 * (n - 1)) is Some,
    ensures
        items_end(input, pos, 2 * n) == items_end(input, next, 2 * (n - 1)),
        pos < value < next <= items_end(input, pos, 2 * n)->Some_0 <= input.len(),
{
    law_items_have_bytes(input, pos, 1);
    law_items_have_bytes(input, value, 1);
    law_items_have_bytes(input, next, 2 * (n - 1));
    assert(items_end(input, value, 2 * n - 1) == items_end(input, next, 2 * n - 2));
    assert(items_end(input, pos, 2 * n) == items_end(input, value, 2 * n - 1));
}

/// The head of an array or a map is read alike, and its items make it up.
proof fn lemma_same_count(
    a: Seq<u8>,
    from: int,
    to: int,
    b: Seq<u8>,
    shift: int,
    p: int,
    major: u8,
)
    requires
        same_bytes(a, from, to, b, shift),
        from <= p,
        major == 4 || major == 5,
        count_at(a, p, major).0 is Some,
        count_at(a, p, major).1 <= to,
    ensures
        count_at(b, p + shift, major) == (
            count_at(a, p, major).0,
            count_at(a, p, major).1 + shift,
        ),
        p < count_at(a, p, major).1,
        item_end(a, p) == items_end(
            a,
            count_at(a, p, major).1,
            if major == 4 {
                count_at(a, p, major).0->Some_0 as int
            } else {
                2 * count_at(a, p, major).0->Some_0
            },
        ),
{
    lemma_head_progress(a, p);
    lemma_same_head(a, from, to, b, shift, p);
}

proof fn lemma_same_tagged(a: Seq<u8>, from: int, to: int, b: Seq<u8>, shift: int, p: int)
    requires
        same_bytes(a, from, to, b, shift),
        from <= p,
        tagged_bstr_at(a, p).0 is Some,
        tagged_bstr_at(a, p).1 <= to,
    ensures
        tagged_bstr_at(b, p + shift) == (tagged_bstr_at(a, p).0, tagged_bstr_at(a, p).1 + shift),
        item_end(a, p) == Some(tagged_bstr_at(a, p).1),
{
    let (tag, after_tag) = head_at(a, p);
    let (bstr, first) = head_at(a, after_tag);
    let end = tagged_bstr_at(a, p).1;
    lemma_head_progress(a, p);
    lemma_head_progress(a, after_tag);
    lemma_same_head(a, from, to, b, shift, p);
    lemma_same_head(a, from, to, b, shift, after_tag);
    lemma_same_span(a, from, to, b, shift, p, end);
    lemma_same_span(a, from, to, b, shift, first, end);
    assert(item_end(a, after_tag) == content_end(a, first, bstr->Some_0));
    assert(items_end(a, end, 0) == Some(end));
    assert(items_end(a, after_tag, 1) == Some(end));
    assert(item_end(a, p) == items_end(a, after_tag, 1));
}

/// The items of a namespace are found alike, and are as many items as the walk passed.
proof fn lemma_same_elements(
    a: Seq<u8>,
    from: int,
    to: int,
    b: Seq<u8>,
    shift: int,
    p: int,
    n: int,
    found: Seq<RawItem>,
)
    requires
        same_bytes(a, from, to, b, shift),
        from <= p,
        p <= a.len(),
        0 <= n,
        items_at(a, p, n, found).0 is Some,
        items_at(a, p, n, found).1 <= to,
    ensures
        items_at(b, p + shift, n, found) == (
            items_at(a, p, n, found).0,
            items_at(a, p, n, found).1 + shift,
        ),
        items_end(a, p, n) == Some(items_at(a, p, n, found).1),
    decreases n,
{
    if n > 0 {
        let (tagged, next) = tagged_bstr_at(a, p);
        let (raw, inner) = tagged->Some_0;
        let more = match item_of(raw, inner) {
            Some(item) => found.push(item),
            None => found,
        };
        lemma_tagged_bounds(a, p);
        lemma_same_elements(a, from, to, b, shift, next, n - 1, more);
        law_items_have_bytes(a, next, n - 1);
        lemma_same_tagged(a, from, to, b, shift, p);
    }
}

proof fn lemma_tagged_bounds(input: Seq<u8>, p: int)
    requires
        0 <= p <= input.len(),
        tagged_bstr_at(input, p).0 is Some,
    ensures
        p < tagged_bstr_at(input, p).1 <= input.len(),
{
    lemma_head_progress(input, p);
    lemma_head_progress(input, head_at(input, p).1);
}

/// What `skip_at` passes is one item.
proof fn lemma_skipped_one(input: Seq<u8>, pos: int)
    requires
        0 <= pos <= input.len() <= usize::MAX,
    ensures
        skip_at(input, pos, 1).0 == (item_end(input, pos) is Some),
        item_end(input, pos) matches Some(end) ==> skip_at(input, pos, 1) == (true, end) && pos
            < end <= input.len(),
{
    law_skipping_reads_past_items(input, pos, 1);
    law_items_have_bytes(input, pos, 1);
    if let Some(end) = item_end(input, pos) {
        assert(items_end(input, end, 0) == Some(end));
        assert(items_end(input, pos, 1) == items_end(input, end, 0));
    }
}

proof fn lemma_text_is_item(input: Seq<u8>, p: int)
    requires
        0 <= p <= input.len(),
        text_at(input, p).0 is Some,
    ensures
        item_end(input, p) == Some(text_at(input, p).1),
        p < text_at(input, p).1 <= input.len(),
{
    lemma_head_progress(input, p);
}

proof fn lemma_skipped_entry(input: Seq<u8>, p: int) -> (value: int)
    requires
        0 <= p <= input.len() <= usize::MAX,
        skip_entry_at(input, p).0,
    ensures
        item_end(input, p) == Some(value),
        item_end(input, value) == Some(skip_entry_at(input, p).1),
        p < value < skip_entry_at(input, p).1 <= input.len(),
{
    let value = skip_at(input, p, 1).1;
    lemma_skipped_one(input, p);
    lemma_skipped_one(input, value);
    value
}

proof fn lemma_elements_bounds(input: Seq<u8>, p: int, n: int, found: Seq<RawItem>)
    requires
        0 <= p <= input.len(),
        items_at(input, p, n, found).0 is Some,
    ensures
        p <= items_at(input, p, n, found).1 <= input.len(),
    decreases n,
{
    if n > 0 {
        let (tagged, next) = tagged_bstr_at(input, p);
        let (raw, inner) = tagged->Some_0;
        lemma_tagged_bounds(input, p);
        lemma_elements_bounds(
            input,
            next,
            n - 1,
            match item_of(raw, inner) {
                Some(item) => found.push(item),
                None => found,
            },
        );
    }
}

proof fn lemma_name_spaces_bounds(
    input: Seq<u8>,
    p: int,
    n: int,
    found: Map<Seq<char>, Seq<RawItem>>,
)
    requires
        0 <= p <= input.len() <= usize::MAX,
        name_spaces_at(input, p, n, found).0 is Some,
    ensures
        p <= name_spaces_at(input, p, n, found).1 <= input.len(),
    decreases n,
{
    if n > 0 {
        if let (Some(key), at_items) = text_at(input, p) {
            lemma_text_is_item(input, p);
            let (count, first) = count_at(input, at_items, 4);
            let before = items_under(found, key);
            let (items, next) = items_at(input, first, count->Some_0 as int, before);
            lemma_head_progress(input, at_items);
            lemma_elements_bounds(input, first, count->Some_0 as int, before);
            lemma_name_spaces_bounds(input, next, n - 1, found.insert(key, items->Some_0));
        } else {
            let _ = lemma_skipped_entry(input, p);
            lemma_name_spaces_bounds(input, skip_entry_at(input, p).1, n - 1, found);
        }
    }
}

proof fn lemma_issuer_signed_bounds(
    input: Seq<u8>,
    p: int,
    n: int,
    found: Map<Seq<char>, Seq<RawItem>>,
)
    requires
        0 <= p <= input.len() <= usize::MAX,
        issuer_signed_at(input, p, n, found).0 is Some,
    ensures
        p <= issuer_signed_at(input, p, n, found).1 <= input.len(),
    decreases n,
{
    if n > 0 {
        if let (Some(key), at_value) = text_at(input, p) {
            lemma_text_is_item(input, p);
            if key == "nameSpaces"@ {
                let (more, next) = name_spaces_map_at(input, at_value, found);
                let (count, first) = count_at(input, at_value, 5);
                lemma_head_progress(input, at_value);
                lemma_name_spaces_bounds(input, first, count->Some_0 as int, found);
                lemma_issuer_signed_bounds(input, next, n - 1, more->Some_0);
            } else {
                lemma_skipped_one(input, at_value);
                lemma_issuer_signed_bounds(input, skip_at(input, at_value, 1).1, n - 1, found);
            }
        } else {
            let _ = lemma_skipped_entry(input, p);
            lemma_issuer_signed_bounds(input, skip_entry_at(input, p).1, n - 1, found);
        }
    }
}

proof fn lemma_document_bounds(
    input: Seq<u8>,
    p: int,
    n: int,
    found: Map<Seq<char>, Seq<RawItem>>,
)
    requires
        0 <= p <= input.len() <= usize::MAX,
        document_at(input, p, n, found).0 is Some,
    ensures
        p <= document_at(input, p, n, found).1 <= input.len(),
    decreases n,
{
    if n > 0 {
        if let (Some(key), at_value) = text_at(input, p) {
            lemma_text_is_item(input, p);
            if key == "issuerSigned"@ {
                let (more, next) = issuer_signed_map_at(input, at_value, found);
                let (count, first) = count_at(input, at_value, 5);
                lemma_head_progress(input, at_value);
                lemma_issuer_signed_bounds(input, first, count->Some_0 as int, found);
                lemma_document_bounds(input, next, n - 1, more->Some_0);
            } else {
                lemma_skipped_one(input, at_value);
                lemma_document_bounds(input, skip_at(input, at_value, 1).1, n - 1, found);
            }
        } else {
            let _ = lemma_skipped_entry(input, p);
            lemma_document_bounds(input, skip_entry_at(input, p).1, n - 1, found);
        }
    }
}

/// A key that is no text, and its value, are passed alike.
proof fn lemma_same_skipped_entry(a: Seq<u8>, from: int, to: int, b: Seq<u8>, shift: int, p: int)
    requires
        same_bytes(a, from, to, b, shift),
        from <= p <= a.len(),
        text_at(a, p).0 is None,
        skip_entry_at(a, p).0,
        skip_entry_at(a, p).1 <= to,
    ensures
        text_at(b, p + shift).0 is None,
        skip_entry_at(b, p + shift) == (true, skip_entry_at(a, p).1 + shift),
{
    let value = lemma_skipped_entry(a, p);
    lemma_same_text(a, from, to, b, shift, p);
    lemma_same_items(a, from, to, b, shift, p, 0);
    lemma_same_items(a, from, to, b, shift, value, 0);
    lemma_skipped_one(b, p + shift);
    lemma_skipped_one(b, value + shift);
}

/// The items of namespaces are found alike, and are as many entries as the walk passed.
proof fn lemma_same_name_spaces(
    a: Seq<u8>,
    from: int,
    to: int,
    b: Seq<u8>,
    shift: int,
    p: int,
    n: int,
    found: Map<Seq<char>, Seq<RawItem>>,
)
    requires
        same_bytes(a, from, to, b, shift),
        from <= p <= a.len(),
        0 <= n,
        name_spaces_at(a, p, n, found).0 is Some,
        name_spaces_at(a, p, n, found).1 <= to,
    ensures
        name_spaces_at(b, p + shift, n, found) == (
            name_spaces_at(a, p, n, found).0,
            name_spaces_at(a, p, n, found).1 + shift,
        ),
        items_end(a, p, 2 * n) == Some(name_spaces_at(a, p, n, found).1),
    decreases n,
{
    if n > 0 {
        if let (Some(key), at_items) = text_at(a, p) {
            lemma_text_is_item(a, p);
            let (count, first) = count_at(a, at_items, 4);
            let before = items_under(found, key);
            let (items, next) = items_at(a, first, count->Some_0 as int, before);
            lemma_head_progress(a, at_items);
            lemma_elements_bounds(a, first, count->Some_0 as int, before);
            lemma_same_name_spaces(
                a,
                from,
                to,
                b,
                shift,
                next,
                n - 1,
                found.insert(key, items->Some_0),
            );
            law_items_have_bytes(a, next, 2 * (n - 1));
            lemma_same_elements(a, from, to, b, shift, first, count->Some_0 as int, before);
            lemma_same_count(a, from, to, b, shift, at_items, 4);
            lemma_one_more_entry(a, p, at_items, next, n);
            lemma_same_text(a, from, to, b, shift, p);
        } else {
            let next = skip_entry_at(a, p).1;
            let value = lemma_skipped_entry(a, p);
            lemma_same_name_spaces(a, from, to, b, shift, next, n - 1, found);
            lemma_one_more_entry(a, p, value, next, n);
            lemma_same_skipped_entry(a, from, to, b, shift, p);
        }
    }
}

proof fn lemma_same_name_spaces_map(
    a: Seq<u8>,
    from: int,
    to: int,
    b: Seq<u8>,
    shift: int,
    p: int,
    found: Map<Seq<char>, Seq<RawItem>>,
)
    requires
        same_bytes(a, from, to, b, shift),
        from <= p <= a.len(),
        name_spaces_map_at(a, p, found).0 is Some,
        name_spaces_map_at(a, p, found).1 <= to,
    ensures
        name_spaces_map_at(b, p + shift, found) == (
            name_spaces_map_at(a, p, found).0,
            name_spaces_map_at(a, p, found).1 + shift,
        ),
        item_end(a, p) == Some(name_spaces_map_at(a, p, found).1),
{
    let (count, first) = count_at(a, p, 5);
    lemma_head_progress(a, p);
    lemma_same_name_spaces(a, from, to, b, shift, first, count->Some_0 as int, found);
    law_items_have_bytes(a, first, 2 * count->Some_0);
    lemma_same_count(a, from, to, b, shift, p, 5);
}

/// The items of an `issuerSigned` map are found alike.
proof fn lemma_same_issuer_signed(
    a: Seq<u8>,
    from: int,
    to: int,
    b: Seq<u8>,
    shift: int,
    p: int,
    n: int,
    found: Map<Seq<char>, Seq<RawItem>>,
)
    requires
        same_bytes(a, from, to, b, shift),
        from <= p <= a.len(),
        0 <= n,
        issuer_signed_at(a, p, n, found).0 is Some,
        issuer_signed_at(a, p, n, found).1 <= to,
    ensures
        issuer_signed_at(b, p + shift, n, found) == (
            issuer_signed_at(a, p, n, found).0,
            issuer_signed_at(a, p, n, found).1 + shift,
        ),
        items_end(a, p, 2 * n) == Some(issuer_signed_at(a, p, n, found).1),
    decreases n,
{
    if n > 0 {
        if let (Some(key), at_value) = text_at(a, p) {
            lemma_text_is_item(a, p);
            if key == "nameSpaces"@ {
                let (more, next) = name_spaces_map_at(a, at_value, found);
                let (count, first) = count_at(a, at_value, 5);
                lemma_head_progress(a, at_value);
                lemma_name_spaces_bounds(a, first, count->Some_0 as int, found);
                lemma_same_issuer_signed(a, from, to, b, shift, next, n - 1, more->Some_0);
                law_items_have_bytes(a, next, 2 * (n - 1));
                lemma_same_name_spaces_map(a, from, to, b, shift, at_value, found);
                lemma_one_more_entry(a, p, at_value, next, n);
                lemma_same_text(a, from, to, b, shift, p);
            } else {
                let next = skip_at(a, at_value, 1).1;
                lemma_skipped_one(a, at_value);
                lemma_same_issuer_signed(a, from, to, b, shift, next, n - 1, found);
                lemma_one_more_entry(a, p, at_value, next, n);
                lemma_same_text(a, from, to, b, shift, p);
                lemma_same_items(a, from, to, b, shift, at_value, 0);
                lemma_skipped_one(b, at_value + shift);
            }
        } else {
            let next = skip_entry_at(a, p).1;
            let value = lemma_skipped_entry(a, p);
            lemma_same_issuer_signed(a, from, to, b, shift, next, n - 1, found);
            lemma_one_more_entry(a, p, value, next, n);
            lemma_same_skipped_entry(a, from, to, b, shift, p);
        }
    }
}

proof fn lemma_same_issuer_signed_map(
    a: Seq<u8>,
    from: int,
    to: int,
    b: Seq<u8>,
    shift: int,
    p: int,
    found: Map<Seq<char>, Seq<RawItem>>,
)
    requires
        same_bytes(a, from, to, b, shift),
        from <= p <= a.len(),
        issuer_signed_map_at(a, p, found).0 is Some,
        issuer_signed_map_at(a, p, found).1 <= to,
    ensures
        issuer_signed_map_at(b, p + shift, found) == (
            issuer_signed_map_at(a, p, found).0,
            issuer_signed_map_at(a, p, found).1 + shift,
        ),
        item_end(a, p) == Some(issuer_signed_map_at(a, p, found).1),
{
    let (count, first) = count_at(a, p, 5);
    lemma_head_progress(a, p);
    lemma_same_issuer_signed(a, from, to, b, shift, first, count->Some_0 as int, found);
    law_items_have_bytes(a, first, 2 * count->Some_0);
    lemma_same_count(a, from, to, b, shift, p, 5);
}

/// The items of a document are found alike.
proof fn lemma_same_document(
    a: Seq<u8>,
    from: int,
    to: int,
    b: Seq<u8>,
    shift: int,
    p: int,
    n: int,
    found: Map<Seq<char>, Seq<RawItem>>,
)
    requires
        same_bytes(a, from, to, b, shift),
        from <= p <= a.len(),
        0 <= n,
        document_at(a, p, n, found).0 is Some,
        document_at(a, p, n, found).1 <= to,
    ensures
        document_at(b, p + shift, n, found) == (
            document_at(a, p, n, found).0,
            document_at(a, p, n, found).1 + shift,
        ),
        items_end(a, p, 2 * n) == Some(document_at(a, p, n, found).1),
    decreases n,
{
    if n > 0 {
        if let (Some(key), at_value) = text_at(a, p) {
            lemma_text_is_item(a, p);
            if key == "issuerSigned"@ {
                let (more, next) = issuer_signed_map_at(a, at_value, found);
                let (count, first) = count_at(a, at_value, 5);
                lemma_head_progress(a, at_value);
                lemma_issuer_signed_bounds(a, first, count->Some_0 as int, found);
                lemma_same_document(a, from, to, b, shift, next, n - 1, more->Some_0);
                law_items_have_bytes(a, next, 2 * (n - 1));
                lemma_same_issuer_signed_map(a, from, to, b, shift, at_value, found);
                lemma_one_more_entry(a, p, at_value, next, n);
                lemma_same_text(a, from, to, b, shift, p);
            } else {
                let next = skip_at(a, at_value, 1).1;
                lemma_skipped_one(a, at_value);
                lemma_same_document(a, from, to, b, shift, next, n - 1, found);
                lemma_one_more_entry(a, p, at_value, next, n);
                lemma_same_text(a, from, to, b, shift, p);
                lemma_same_items(a, from, to, b, shift, at_value, 0);
                lemma_skipped_one(b, at_value + shift);
            }
        } else {
            let next = skip_entry_at(a, p).1;
            let value = lemma_skipped_entry(a, p);
            lemma_same_document(a, from, to, b, shift, next, n - 1, found);
            lemma_one_more_entry(a, p, value, next, n);
            lemma_same_skipped_entry(a, from, to, b, shift, p);
        }
    }
}

proof fn lemma_same_document_map(
    a: Seq<u8>,
    from: int,
    to: int,
    b: Seq<u8>,
    shift: int,
    p: int,
)
    requires
        same_bytes(a, from, to, b, shift),
        from <= p <= a.len(),
        document_map_at(a, p).0 is Some,
        document_map_at(a, p).1 <= to,
    ensures
        document_map_at(b, p + shift) == (
            document_map_at(a, p).0,
            document_map_at(a, p).1 + shift,
        ),
        item_end(a, p) == Some(document_map_at(a, p).1),
{
    let (count, first) = count_at(a, p, 5);
    lemma_head_progress(a, p);
    lemma_same_document(a, from, to, b, shift, first, count->Some_0 as int, Map::empty());
    law_items_have_bytes(a, first, 2 * count->Some_0);
    lemma_same_count(a, from, to, b, shift, p, 5);
}

/// The head of a complete item is read alike.
proof fn lemma_complete_head(a: Seq<u8>, from: int, to: int, b: Seq<u8>, shift: int, p: int)
    requires
        same_bytes(a, from, to, b, shift),
        from <= p <= to,
        item_end(a, p) is Some,
        item_end(a, p)->Some_0 <= to,
    ensures
        head_at(a, p).0 is Some,
        head_at(a, p).1 <= item_end(a, p)->Some_0,
        head_at(b, p + shift) == (head_at(a, p).0, head_at(a, p).1 + shift),
        head_at(a, p).0->Some_0.major == 4 ==> items_end(
            a,
            head_at(a, p).1,
            head_at(a, p).0->Some_0.arg as int,
        ) == item_end(a, p),
        head_at(a, p).0->Some_0.major == 5 ==> items_end(
            a,
            head_at(a, p).1,
            2 * head_at(a, p).0->Some_0.arg,
        ) == item_end(a, p),
        head_at(a, p).0->Some_0.major == 6 ==> items_end(a, head_at(a, p).1, 1) == item_end(a, p),
{
    let (head, next) = head_at(a, p);
    lemma_head_progress(a, p);
    if !(head->Some_0.major == 2 || head->Some_0.major == 3) {
        law_items_have_bytes(a, next, children_of(head->Some_0));
    }
    lemma_same_head(a, from, to, b, shift, p);
}

/// Whether a complete item is an encoded item is read alike.
proof fn lemma_capture_tagged(a: Seq<u8>, from: int, to: int, b: Seq<u8>, shift: int, p: int)
    requires
        same_bytes(a, from, to, b, shift),
        from <= p <= to,
        item_end(a, p) is Some,
        item_end(a, p)->Some_0 <= to,
    ensures
        tagged_bstr_at(b, p + shift).0 == tagged_bstr_at(a, p).0,
        tagged_bstr_at(a, p).0 is Some ==> tagged_bstr_at(a, p).1 == item_end(a, p)->Some_0,
{
    lemma_complete_head(a, from, to, b, shift, p);
    lemma_head_progress(a, p);
    let (tag, after_tag) = head_at(a, p);
    if tag->Some_0.major == 6 {
        law_items_have_bytes(a, after_tag, 1);
        let end = item_end(a, p)->Some_0;
        let inner = item_end(a, after_tag);
        assert(inner is Some);
        law_items_have_bytes(a, inner->Some_0, 0);
        assert(items_end(a, inner->Some_0, 0) == Some(inner->Some_0));
        assert(items_end(a, after_tag, 1) == items_end(a, inner->Some_0, 0));
        lemma_complete_head(a, from, to, b, shift, after_tag);
        let (bstr, first) = head_at(a, after_tag);
        lemma_head_progress(a, after_tag);
        if bstr->Some_0.major == 2 {
            lemma_same_span(a, from, to, b, shift, p, end);
            lemma_same_span(a, from, to, b, shift, first, end);
        }
    }
}

/// What the walk through complete items captures depends on their bytes alone, also where the walk
/// stops early.
proof fn lemma_capture_elements(
    a: Seq<u8>,
    from: int,
    to: int,
    b: Seq<u8>,
    shift: int,
    p: int,
    n: int,
    found: Seq<RawItem>,
)
    requires
        same_bytes(a, from, to, b, shift),
        from <= p <= to,
        0 <= n,
        items_end(a, p, n) is Some,
        items_end(a, p, n)->Some_0 <= to,
    ensures
        items_at(b, p + shift, n, found).0 == items_at(a, p, n, found).0,
    decreases n,
{
    if n > 0 {
        law_items_have_bytes(a, p, n);
        let next = item_end(a, p)->Some_0;
        assert(items_end(a, p, n) == items_end(a, next, n - 1));
        law_items_have_bytes(a, next, n - 1);
        lemma_capture_tagged(a, from, to, b, shift, p);
        if let Some((raw, inner)) = tagged_bstr_at(a, p).0 {
            let more = match item_of(raw, inner) {
                Some(item) => found.push(item),
                None => found,
            };
            lemma_same_tagged(a, from, to, b, shift, p);
            lemma_capture_elements(a, from, to, b, shift, next, n - 1, more);
        }
    }
}

/// What the walk through complete namespaces captures depends on their bytes alone, also where the
/// walk stops early.
proof fn lemma_capture_name_spaces(
    a: Seq<u8>,
    from: int,
    to: int,
    b: Seq<u8>,
    shift: int,
    p: int,
    n: int,
    found: Map<Seq<char>, Seq<RawItem>>,
)
    requires
        same_bytes(a, from, to, b, shift),
        from <= p <= to,
        0 <= n,
        items_end(a, p, 2 * n) is Some,
        items_end(a, p, 2 * n)->Some_0 <= to,
    ensures
        name_spaces_at(b, p + shift, n, found).0 == name_spaces_at(a, p, n, found).0,
    decreases n,
{
    if n > 0 {
        lemma_entry(a, p, n);
        let value = item_end(a, p)->Some_0;
        let next = item_end(a, value)->Some_0;
        lemma_same_text(a, from, to, b, shift, p);
        lemma_same_items(a, from, to, b, shift, p, 0);
        lemma_same_items(a, from, to, b, shift, value, 0);
        lemma_skipped_one(a, p);
        lemma_skipped_one(a, value);
        lemma_skipped_one(b, p + shift);
        lemma_skipped_one(b, value + shift);
        if let (Some(key), _) = text_at(a, p) {
            let before = items_under(found, key);
            lemma_complete_head(a, from, to, b, shift, value);
            if let (Some(count), first) = count_at(a, value, 4) {
                lemma_head_progress(a, value);
                lemma_capture_elements(a, from, to, b, shift, first, count as int, before);
                if let Some(items) = items_at(a, first, count as int, before).0 {
                    lemma_elements_bounds(a, first, count as int, before);
                    lemma_same_elements(
                        a,
                        0,
                        a.len() as int,
                        a,
                        0,
                        first,
                        count as int,
                        before,
                    );
                    lemma_same_elements(a, from, to, b, shift, first, count as int, before);
                    lemma_capture_name_spaces(
                        a,
                        from,
                        to,
                        b,
                        shift,
                        next,
                        n - 1,
                        found.insert(key, items),
                    );
                }
            }
        } else {
            lemma_capture_name_spaces(a, from, to, b, shift, next, n - 1, found);
        }
    }
}

proof fn lemma_capture_name_spaces_map(
    a: Seq<u8>,
    from: int,
    to: int,
    b: Seq<u8>,
    shift: int,
    p: int,
    found: Map<Seq<char>, Seq<RawItem>>,
)
    requires
        same_bytes(a, from, to, b, shift),
        from <= p <= to,
        item_end(a, p) is Some,
        item_end(a, p)->Some_0 <= to,
    ensures
        name_spaces_map_at(b, p + shift, found).0 == name_spaces_map_at(a, p, found).0,
{
    lemma_complete_head(a, from, to, b, shift, p);
    if let (Some(count), first) = count_at(a, p, 5) {
        lemma_head_progress(a, p);
        lemma_capture_name_spaces(a, from, to, b, shift, first, count as int, found);
    }
}

/// What the walk through a complete map captures depends on its bytes alone, also where the walk
/// stops early.
proof fn lemma_capture_issuer_signed(
    a: Seq<u8>,
    from: int,
    to: int,
    b: Seq<u8>,
    shift: int,
    p: int,
    n: int,
    found: Map<Seq<char>, Seq<RawItem>>,
)
    requires
        same_bytes(a, from, to, b, shift),
        from <= p <= to,
        0 <= n,
        items_end(a, p, 2 * n) is Some,
        items_end(a, p, 2 * n)->Some_0 <= to,
    ensures
        issuer_signed_at(b, p + shift, n, found).0 == issuer_signed_at(a, p, n, found).0,
    decreases n,
{
    if n > 0 {
        lemma_entry(a, p, n);
        let value = item_end(a, p)->Some_0;
        let next = item_end(a, value)->Some_0;
        lemma_same_text(a, from, to, b, shift, p);
        lemma_same_items(a, from, to, b, shift, p, 0);
        lemma_same_items(a, from, to, b, shift, value, 0);
        lemma_skipped_one(a, p);
        lemma_skipped_one(a, value);
        lemma_skipped_one(b, p + shift);
        lemma_skipped_one(b, value + shift);
        if text_at(a, p).0 == Some("nameSpaces"@) {
            lemma_capture_name_spaces_map(a, from, to, b, shift, value, found);
            if let Some(more) = name_spaces_map_at(a, value, found).0 {
                let (count, first) = count_at(a, value, 5);
                lemma_head_progress(a, value);
                lemma_name_spaces_bounds(a, first, count->Some_0 as int, found);
                lemma_same_name_spaces_map(a, 0, a.len() as int, a, 0, value, found);
                lemma_same_name_spaces_map(a, from, to, b, shift, value, found);
                lemma_capture_issuer_signed(a, from, to, b, shift, next, n - 1, more);
            }
        } else {
            lemma_capture_issuer_signed(a, from, to, b, shift, next, n - 1, found);
        }
    }
}

proof fn lemma_capture_issuer_signed_map(
    a: Seq<u8>,
    from: int,
    to: int,
    b: Seq<u8>,
    shift: int,
    p: int,
    found: Map<Seq<char>, Seq<RawItem>>,
)
    requires
        same_bytes(a, from, to, b, shift),
        from <= p <= to,
        item_end(a, p) is Some,
        item_end(a, p)->Some_0 <= to,
    ensures
        issuer_signed_map_at(b, p + shift, found).0 == issuer_signed_map_at(a, p, found).0,
{
    lemma_complete_head(a, from, to, b, shift, p);
    if let (Some(count), first) = count_at(a, p, 5) {
        lemma_head_progress(a, p);
        lemma_capture_issuer_signed(a, from, to, b, shift, first, count as int, found);
    }
}

/// What the walk through a complete map captures depends on its bytes alone, also where the walk
/// stops early.
proof fn lemma_capture_document(
    a: Seq<u8>,
    from: int,
    to: int,
    b: Seq<u8>,
    shift: int,
    p: int,
    n: int,
    found: Map<Seq<char>, Seq<RawItem>>,
)
    requires
        same_bytes(a, from, to, b, shift),
        from <= p <= to,
        0 <= n,
        items_end(a, p, 2 * n) is Some,
        items_end(a, p, 2 * n)->Some_0 <= to,
    ensures
        document_at(b, p + shift, n, found).0 == document_at(a, p, n, found).0,
    decreases n,
{
    if n > 0 {
        lemma_entry(a, p, n);
        let value = item_end(a, p)->Some_0;
        let next = item_end(a, value)->Some_0;
        lemma_same_text(a, from, to, b, shift, p);
        lemma_same_items(a, from, to, b, shift, p, 0);
        lemma_same_items(a, from, to, b, shift, value, 0);
        lemma_skipped_one(a, p);
        lemma_skipped_one(a, value);
        lemma_skipped_one(b, p + shift);
        lemma_skipped_one(b, value + shift);
        if text_at(a, p).0 == Some("issuerSigned"@) {
            lemma_capture_issuer_signed_map(a, from, to, b, shift, value, found);
            if let Some(more) = issuer_signed_map_at(a, value, found).0 {
                let (count, first) = count_at(a, value, 5);
                lemma_head_progress(a, value);
                lemma_issuer_signed_bounds(a, first, count->Some_0 as int, found);
                lemma_same_issuer_signed_map(a, 0, a.len() as int, a, 0, value, found);
                lemma_same_issuer_signed_map(a, from, to, b, shift, value, found);
                lemma_capture_document(a, from, to, b, shift, next, n - 1, more);
            }
        } else {
            lemma_capture_document(a, from, to, b, shift, next, n - 1, found);
        }
    }
}

proof fn lemma_capture_document_map(
    a: Seq<u8>,
    from: int,
    to: int,
    b: Seq<u8>,
    shift: int,
    p: int,
)
    requires
        same_bytes(a, from, to, b, shift),
        from <= p <= to,
        item_end(a, p) is Some,
        item_end(a, p)->Some_0 <= to,
    ensures
        document_map_at(b, p + shift).0 == document_map_at(a, p).0,
{
    lemma_complete_head(a, from, to, b, shift, p);
    if let (Some(count), first) = count_at(a, p, 5) {
        lemma_head_progress(a, p);
        lemma_capture_document(a, from, to, b, shift, first, count as int, Map::empty());
    }
}

/// Whether each of `n` documents at `pos` can be walked through.
pub open spec fn documents_walked(input: Seq<u8>, pos: int, n: int) -> bool
    decreases n,
{
    n <= 0 || (document_map_at(input, pos).0 is Some && documents_walked(
        input,
        document_map_at(input, pos).1,
        n - 1,
    ))
}

proof fn lemma_document_map_bounds(input: Seq<u8>, p: int)
    requires
        0 <= p <= input.len() <= usize::MAX,
        document_map_at(input, p).0 is Some,
    ensures
        p <= document_map_at(input, p).1 <= input.len(),
{
    let (count, first) = count_at(input, p, 5);
    lemma_head_progress(input, p);
    lemma_document_bounds(input, first, count->Some_0 as int, Map::empty());
}

/// What the walk through complete documents captures depends on their bytes alone, where all but
/// the last can be walked through.
proof fn lemma_capture_documents(
    a: Seq<u8>,
    from: int,
    to: int,
    b: Seq<u8>,
    shift: int,
    p: int,
    n: int,
    found: Seq<Map<Seq<char>, Seq<RawItem>>>,
)
    requires
        same_bytes(a, from, to, b, shift),
        from <= p <= to,
        0 <= n,
        items_end(a, p, n) is Some,
        items_end(a, p, n)->Some_0 <= to,
        documents_walked(a, p, n - 1),
    ensures
        documents_at(b, p + shift, n, found).0 == documents_at(a, p, n, found).0,
    decreases n,
{
    if n > 0 {
        law_items_have_bytes(a, p, n);
        let end = item_end(a, p)->Some_0;
        assert(items_end(a, p, n) == items_end(a, end, n - 1));
        law_items_have_bytes(a, end, n - 1);
        lemma_capture_document_map(a, from, to, b, shift, p);
        let (document, next) = document_map_at(a, p);
        let more = found.push(found_or_empty(document));
        if n > 1 {
            lemma_document_map_bounds(a, p);
            lemma_same_document_map(a, 0, a.len() as int, a, 0, p);
            lemma_same_document_map(a, from, to, b, shift, p);
            lemma_capture_documents(a, from, to, b, shift, next, n - 1, more);
        } else {
            reveal_with_fuel(documents_at, 2);
        }
    }
}

/// The walk through documents captures something of each of them, behind what was captured before.
proof fn lemma_documents_grow(
    input: Seq<u8>,
    p: int,
    n: int,
    found: Seq<Map<Seq<char>, Seq<RawItem>>>,
)
    requires
        0 <= n,
    ensures
        documents_at(input, p, n, found).0.len() == found.len() + n,
        documents_at(input, p, n, found).0.take(found.len() as int) == found,
    decreases n,
{
    if n > 0 {
        let (document, next) = document_map_at(input, p);
        let more = found.push(found_or_empty(document));
        lemma_documents_grow(input, next, n - 1, more);
        let all = documents_at(input, p, n, found).0;
        assert(all.take(found.len() as int) =~= all.take(more.len() as int).take(
            found.len() as int,
        ));
        assert(more.take(found.len() as int) =~= found);
    } else {
        assert(found.take(found.len() as int) =~= found);
    }
}

/// A document of which something was captured can be walked through.
proof fn lemma_captured_is_walked(
    input: Seq<u8>,
    p: int,
    n: int,
    k: int,
    found: Seq<Map<Seq<char>, Seq<RawItem>>>,
)
    requires
        k <= n,
        forall|i: int|
            0 <= i < k ==> #[trigger] documents_at(input, p, n, found).0[found.len() + i]
                != Map::<Seq<char>, Seq<RawItem>>::empty(),
    ensures
        documents_walked(input, p, k),
    decreases n,
{
    if k > 0 {
        let (document, next) = document_map_at(input, p);
        let more = found.push(found_or_empty(document));
        let all = documents_at(input, p, n, found).0;
        lemma_documents_grow(input, next, n - 1, more);
        assert(all == documents_at(input, next, n - 1, more).0);
        assert(all[found.len() as int] == all.take(more.len() as int)[found.len() as int]);
        assert(documents_at(input, p, n, found).0[found.len() + 0int] != Map::<Seq<char>, Seq<RawItem>>::empty());
        assert(document is Some);
        assert forall|i: int| 0 <= i < k - 1 implies #[trigger] documents_at(
            input,
            next,
            n - 1,
            more,
        ).0[more.len() + i] != Map::<Seq<char>, Seq<RawItem>>::empty() by {
            assert(all[found.len() + (i + 1)] != Map::<Seq<char>, Seq<RawItem>>::empty());
        }
        lemma_captured_is_walked(input, next, n - 1, k - 1, more);
    }
}

/// Where the value of the first entry for the documents stands among `n` entries at `pos`.
pub open spec fn first_documents_at(input: Seq<u8>, pos: int, n: int) -> Option<int>
    decreases n,
{
    if n <= 0 {
        None
    } else if text_at(input, pos).0 == Some("documents"@) {
        Some(text_at(input, pos).1)
    } else {
        match items_end(input, pos, 2) {
            Some(next) => first_documents_at(input, next, n - 1),
            None => None,
        }
    }
}

/// The array of documents in the bytes of a response: how many there are, and where the first
/// stands.
pub open spec fn document_array(response: Seq<u8>) -> Option<(int, int)> {
    match count_at(response, 0, 5) {
        (Some(n), first) => match first_documents_at(response, first, n as int) {
            Some(value) => match count_at(response, value, 4) {
                (Some(count), at) => Some((count as int, at)),
                (None, _) => None,
            },
            None => None,
        },
        (None, _) => None,
    }
}

/// What was captured stays in front.
proof fn lemma_response_grows(
    input: Seq<u8>,
    pos: int,
    n: int,
    found: Seq<Map<Seq<char>, Seq<RawItem>>>,
)
    ensures
        found.len() <= response_at(input, pos, n, found).len(),
        response_at(input, pos, n, found).take(found.len() as int) == found,
    decreases n,
{
    assert(found.take(found.len() as int) =~= found);
    if n > 0 {
        match text_at(input, pos) {
            (Some(key), at_value) => if key == "documents"@ {
                if let (Some(count), first) = count_at(input, at_value, 4) {
                    let (more, next) = documents_at(input, first, count as int, found);
                    lemma_documents_grow(input, first, count as int, found);
                    lemma_response_grows(input, next, n - 1, more);
                    let all = response_at(input, pos, n, found);
                    assert(all.take(found.len() as int) =~= all.take(more.len() as int).take(
                        found.len() as int,
                    ));
                }
            } else {
                if let (true, next) = skip_at(input, at_value, 1) {
                    lemma_response_grows(input, next, n - 1, found);
                }
            },
            (None, _) => {
                if let (true, next) = skip_entry_at(input, pos) {
                    lemma_response_grows(input, next, n - 1, found);
                }
            },
        }
    }
}

/// The walk through the entries of a response starts with the first array of documents.
proof fn lemma_response_starts(input: Seq<u8>, pos: int, n: int)
    requires
        0 <= pos <= input.len() <= usize::MAX,
        0 <= n,
        items_end(input, pos, 2 * n) is Some,
        first_documents_at(input, pos, n) is Some,
        count_at(input, first_documents_at(input, pos, n)->Some_0, 4).0 is Some,
    ensures
        ({
            let (count, at) = count_at(input, first_documents_at(input, pos, n)->Some_0, 4);
            let captured = documents_at(input, at, count->Some_0 as int, Seq::empty()).0;
            &&& captured.len() == count->Some_0
            &&& captured.len() <= response_at(input, pos, n, Seq::empty()).len()
            &&& response_at(input, pos, n, Seq::empty()).take(captured.len() as int) == captured
        }),
    decreases n,
{
    lemma_entry(input, pos, n);
    let value = item_end(input, pos)->Some_0;
    let next = lemma_entry_end(input, pos);
    if text_at(input, pos).0 == Some("documents"@) {
        let (count, at) = count_at(input, text_at(input, pos).1, 4);
        let (more, after) = documents_at(input, at, count->Some_0 as int, Seq::empty());
        lemma_documents_grow(input, at, count->Some_0 as int, Seq::empty());
        lemma_response_grows(input, after, n - 1, more);
    } else {
        lemma_skipped_one(input, pos);
        lemma_skipped_one(input, value);
        if text_at(input, pos).0 is Some {
            lemma_text_is_item(input, pos);
        }
        lemma_response_starts(input, next, n - 1);
    }
}

proof fn lemma_entry_end(input: Seq<u8>, pos: int) -> (next: int)
    requires
        0 <= pos <= input.len(),
        item_end(input, pos) is Some,
        item_end(input, item_end(input, pos)->Some_0) is Some,
    ensures
        items_end(input, pos, 2) == Some(next),
        item_end(input, item_end(input, pos)->Some_0) == Some(next),
        pos < next <= input.len(),
{
    let value = item_end(input, pos)->Some_0;
    law_items_have_bytes(input, pos, 1);
    law_items_have_bytes(input, value, 1);
    let next = item_end(input, value)->Some_0;
    assert(items_end(input, next, 0) == Some(next));
    assert(items_end(input, value, 1) == items_end(input, next, 0));
    assert(items_end(input, pos, 2) == items_end(input, value, 1));
    next
}

/// The first array of documents is found alike, and its bytes are the same.
proof fn lemma_same_first_documents(
    a: Seq<u8>,
    from: int,
    to: int,
    b: Seq<u8>,
    shift: int,
    p: int,
    n: int,
) -> (end: int)
    requires
        same_bytes(a, from, to, b, shift),
        from <= p <= to,
        0 <= n,
        items_end(a, p, 2 * n) is Some,
        items_end(a, p, 2 * n)->Some_0 <= to,
        first_documents_at(a, p, n) is Some,
    ensures
        first_documents_at(b, p + shift, n) == Some(first_documents_at(a, p, n)->Some_0 + shift),
        from <= first_documents_at(a, p, n)->Some_0,
        item_end(a, first_documents_at(a, p, n)->Some_0) == Some(end),
        end <= to,
    decreases n,
{
    lemma_entry(a, p, n);
    let value = item_end(a, p)->Some_0;
    let next = lemma_entry_end(a, p);
    lemma_same_text(a, from, to, b, shift, p);
    if text_at(a, p).0 == Some("documents"@) {
        next
    } else {
        lemma_same_items(a, from, to, b, shift, p, 2);
        lemma_same_first_documents(a, from, to, b, shift, next, n - 1)
    }
}

/// With an entry added under another key, the first array of documents is found at the same bytes.
proof fn lemma_inserted_documents(
    a: Seq<u8>,
    from: int,
    split: int,
    b: Seq<u8>,
    shift: int,
    resumed: int,
    p: int,
    m: int,
    n: int,
) -> (moved: int)
    requires
        same_bytes(a, from, split, b, shift),
        same_bytes(a, split, a.len() as int, b, resumed - split),
        from <= p <= split,
        0 <= m <= n,
        items_end(a, p, 2 * m) == Some(split),
        items_end(a, p, 2 * n) is Some,
        text_at(b, split + shift).0 is Some,
        text_at(b, split + shift).0 != Some("documents"@),
        items_end(b, split + shift, 2) == Some(resumed),
        first_documents_at(a, p, n) is Some,
    ensures
        first_documents_at(b, p + shift, n + 1) == Some(first_documents_at(a, p, n)->Some_0 + moved),
        ({
            let value = first_documents_at(a, p, n)->Some_0;
            &&& item_end(a, value) is Some
            &&& (moved == shift && from <= value && item_end(a, value)->Some_0 <= split) || (moved
                == resumed - split && split <= value && item_end(a, value)->Some_0 <= a.len())
        }),
    decreases m,
{
    law_items_have_bytes(a, p, 2 * n);
    if m == 0 {
        let end = lemma_same_first_documents(
            a,
            split,
            a.len() as int,
            b,
            resumed - split,
            p,
            n,
        );
        resumed - split
    } else {
        lemma_entry(a, p, m);
        lemma_entry(a, p, n);
        let value = item_end(a, p)->Some_0;
        let next = lemma_entry_end(a, p);
        lemma_same_text(a, from, split, b, shift, p);
        if text_at(a, p).0 == Some("documents"@) {
            shift
        } else {
            lemma_same_items(a, from, split, b, shift, p, 2);
            lemma_inserted_documents(a, from, split, b, shift, resumed, next, m - 1, n - 1)
        }
    }
}

/// Whether `b` is the map `a` with one entry more behind its first `m` entries, under a text key,
/// and all other bytes but those of the count are the same.
pub open spec fn entry_added(a: Seq<u8>, b: Seq<u8>, m: int, key: Seq<char>) -> bool {
    let (n, pa) = count_at(a, 0, 5);
    let (more, pb) = count_at(b, 0, 5);
    let split = items_end(a, pa, 2 * m)->Some_0;
    let at = split - pa + pb;
    let (added, at_value) = text_at(b, at);
    let resumed = item_end(b, at_value)->Some_0;
    &&& n is Some
    &&& more is Some
    &&& more->Some_0 == n->Some_0 + 1
    &&& 0 <= m <= n->Some_0
    &&& items_end(a, pa, 2 * m) is Some
    &&& same_bytes(a, pa, split, b, pb - pa)
    &&& added == Some(key)
    &&& item_end(b, at_value) is Some
    &&& same_bytes(a, split, a.len() as int, b, resumed - split)
    &&& b.len() == resumed + a.len() - split
}

/// An entry that is added to a response under another key than that of the documents changes
/// nothing of what is captured of its documents, and the response is still one complete item. Where
/// the walk stops early in a document, this holds up to that document.
pub proof fn law_added_entries_are_not_captured(a: Seq<u8>, b: Seq<u8>, m: int, key: Seq<char>)
    requires
        entry_added(a, b, m, key),
        key != "documents"@,
        item_end(a, 0) == Some(a.len() as int),
        document_array(a) matches Some((n, at)) && documents_walked(a, at, n - 1),
    ensures
        item_end(b, 0) == Some(b.len() as int),
        ({
            let n = document_array(a)->Some_0.0;
            &&& n <= items_of_response(a).len()
            &&& n <= items_of_response(b).len()
            &&& items_of_response(b).take(n) == items_of_response(a).take(n)
            &&& items_of_response(a).take(n) == documents_at(
                a,
                document_array(a)->Some_0.1,
                n,
                Seq::empty(),
            ).0
        }),
{
    let (count, pa) = count_at(a, 0, 5);
    let n = count->Some_0 as int;
    let pb = count_at(b, 0, 5).1;
    let split = items_end(a, pa, 2 * m)->Some_0;
    let at = split - pa + pb;
    let at_value = text_at(b, at).1;
    let resumed = item_end(b, at_value)->Some_0;
    lemma_head_progress(a, 0);
    lemma_head_progress(b, 0);
    assert(item_end(a, 0) == items_end(a, pa, 2 * n));
    law_items_have_bytes(a, pa, 2 * m);
    lemma_text_is_item(b, at);
    let after = lemma_entry_end(b, at);
    law_items_follow_items(a, pa, 2 * m, 2 * (n - m));
    lemma_same_items(a, pa, split, b, pb - pa, pa, 2 * m);
    lemma_same_items(a, split, a.len() as int, b, resumed - split, split, 2 * (n - m));
    law_items_follow_items(b, at, 2, 2 * (n - m));
    law_items_follow_items(b, pb, 2 * m, 2 + 2 * (n - m));
    assert(item_end(b, 0) == items_end(b, pb, 2 * (n + 1)));
    let moved = lemma_inserted_documents(a, pa, split, b, pb - pa, resumed, pa, m, n);
    let value = first_documents_at(a, pa, n)->Some_0;
    let end = item_end(a, value)->Some_0;
    let (from, to) = if moved == pb - pa && pa <= value && end <= split {
        (pa, split)
    } else {
        (split, a.len() as int)
    };
    assert(same_bytes(a, from, to, b, moved));
    law_items_have_bytes(a, value, 1);
    lemma_complete_head(a, from, to, b, moved, value);
    lemma_head_progress(a, value);
    let (documents, first) = count_at(a, value, 4);
    lemma_capture_documents(
        a,
        from,
        to,
        b,
        moved,
        first,
        documents->Some_0 as int,
        Seq::empty(),
    );
    lemma_response_starts(a, pa, n);
    lemma_response_starts(b, pb, n + 1);
}

/// The documents of a response of which something was captured can be walked through.
pub proof fn law_captured_documents_are_walked(response: Seq<u8>, k: int)
    requires
        response.len() <= usize::MAX,
        item_end(response, 0) == Some(response.len() as int),
        document_array(response) matches Some((n, _)) && k <= n,
        forall|i: int|
            0 <= i < k ==> #[trigger] items_of_response(response)[i] != Map::<
                Seq<char>,
                Seq<RawItem>,
            >::empty(),
    ensures
        documents_walked(response, document_array(response)->Some_0.1, k),
{
    let (count, pos) = count_at(response, 0, 5);
    let n = count->Some_0 as int;
    let (total, at) = document_array(response)->Some_0;
    lemma_head_progress(response, 0);
    assert(item_end(response, 0) == items_end(response, pos, 2 * n));
    lemma_response_starts(response, pos, n);
    let captured = documents_at(response, at, total, Seq::empty()).0;
    assert forall|i: int| 0 <= i < k implies #[trigger] documents_at(
        response,
        at,
        total,
        Seq::empty(),
    ).0[Seq::<Map<Seq<char>, Seq<RawItem>>>::empty().len() + i] != Map::<
        Seq<char>,
        Seq<RawItem>,
    >::empty() by {
        assert(items_of_response(response).take(captured.len() as int)[i] == captured[i]);
        assert(items_of_response(response)[i] == captured[i]);
    }
    lemma_captured_is_walked(response, at, total, k, Seq::empty());
}

} // verus!
