//! Text and byte-string helpers: comparison, UTF-8, and decimal numerals.
use vstd::prelude::*;
use vstd::utf8::{decode_utf8, encode_utf8, valid_utf8};

verus! {

/// `String::push` appends one character at the end.
pub assume_specification[ String::push ](text: &mut String, c: char)
    ensures
        final(text)@ == old(text)@.push(c),
;

/// The message of `core::str::from_utf8` on bytes that are not UTF-8.
pub uninterp spec fn utf8_error(bytes: Seq<u8>) -> Seq<char>;

/// `core::str::from_utf8` accepts exactly the well-formed UTF-8 byte strings, and the text it
/// returns is the one they encode. The text is handed out as an owned copy, the error as text.
#[verifier::external_body]
pub(crate) fn utf8_text(bytes: &[u8]) -> (out: Result<String, String>)
    ensures
        out is Ok <==> valid_utf8(bytes@),
        out matches Ok(text) ==> text@ == decode_utf8(bytes@),
        out matches Err(message) ==> message@ == utf8_error(bytes@),
{
    match core::str::from_utf8(bytes) {
        Ok(text) => Ok(text.to_owned()),
        Err(error) => Err(error.to_string()),
    }
}

/// Whether two byte strings are the same.
pub fn bytes_eq(a: &[u8], b: &[u8]) -> (out: bool)
    ensures
        out == (a@ == b@),
{
    if a.len() != b.len() {
        return false;
    }
    let mut i: usize = 0;
    while i < a.len()
        invariant
            i <= a.len(),
            a.len() == b.len(),
            forall|j: int| 0 <= j < i ==> a@[j] == b@[j],
        decreases a.len() - i,
    {
        if a[i] != b[i] {
            return false;
        }
        i += 1;
    }
    assert(a@ =~= b@);
    true
}

/// Whether two texts are the same.
pub fn str_eq(a: &str, b: &str) -> (out: bool)
    ensures
        out == (a@ == b@),
{
    let out = bytes_eq(a.as_bytes(), b.as_bytes());
    proof {
        vstd::utf8::encode_utf8_decode_utf8(a@);
        vstd::utf8::encode_utf8_decode_utf8(b@);
    }
    out
}

/// The UTF-8 bytes of a text.
pub fn text_bytes(text: &str) -> (out: Vec<u8>)
    ensures
        out@ == encode_utf8(text@),
{
    vstd::slice::slice_to_vec(text.as_bytes())
}

/// Two texts, one after the other.
pub fn joined(a: &str, b: &str) -> (out: String)
    ensures
        out@ == a@ + b@,
{
    let mut out = a.to_owned();
    out.append(b);
    out
}

/// Three texts, one after the other.
pub fn joined3(a: &str, b: &str, c: &str) -> (out: String)
    ensures
        out@ == a@ + b@ + c@,
{
    let mut out = joined(a, b);
    out.append(c);
    out
}

/// The characters of a text.
pub fn chars_of(text: &str) -> (out: Vec<char>)
    ensures
        out@ == text@,
{
    broadcast use vstd::string::axiom_spec_iter;

    let mut out: Vec<char> = Vec::new();
    for c in iter: text.chars()
        invariant
            iter.seq() == text@,
            out@ == text@.take(iter.index() as int),
    {
        out.push(c);
        assert(out@ =~= text@.take(iter.index() as int + 1));
    }
    assert(text@.take(text@.len() as int) =~= text@);
    out
}

/// The text of a run of characters.
pub fn text_of(chars: &[char]) -> (out: String)
    ensures
        out@ == chars@,
{
    let mut out = String::new();
    let mut i: usize = 0;
    while i < chars.len()
        invariant
            i <= chars.len(),
            out@ == chars@.take(i as int),
        decreases chars.len() - i,
    {
        out.push(chars[i]);
        assert(chars@.take(i as int + 1) =~= chars@.take(i as int).push(chars@[i as int]));
        i += 1;
    }
    assert(chars@.take(chars@.len() as int) =~= chars@);
    out
}

/// The characters with the Unicode property `White_Space`.
pub open spec fn white_space(c: char) -> bool {
    ||| '\u{9}' <= c <= '\u{d}'
    ||| c == ' '
    ||| c == '\u{85}'
    ||| c == '\u{a0}'
    ||| c == '\u{1680}'
    ||| '\u{2000}' <= c <= '\u{200a}'
    ||| c == '\u{2028}'
    ||| c == '\u{2029}'
    ||| c == '\u{202f}'
    ||| c == '\u{205f}'
    ||| c == '\u{3000}'
}

/// Whether a character is white space.
pub fn is_white_space(c: char) -> (out: bool)
    ensures
        out == white_space(c),
{
    ('\u{9}' <= c && c <= '\u{d}') || c == ' ' || c == '\u{85}' || c == '\u{a0}' || c
        == '\u{1680}' || ('\u{2000}' <= c && c <= '\u{200a}') || c == '\u{2028}' || c
        == '\u{2029}' || c == '\u{202f}' || c == '\u{205f}' || c == '\u{3000}'
}

/// A text with every white space character taken out.
pub open spec fn without_white_space(text: Seq<char>) -> Seq<char> {
    text.filter(|c: char| !white_space(c))
}

/// Take every white space character out of a text.
pub fn strip_white_space(text: &str) -> (out: String)
    ensures
        out@ == without_white_space(text@),
{
    let chars = chars_of(text);
    let mut out = String::new();
    let mut i: usize = 0;
    assert(chars@.take(0).filter(|c: char| !white_space(c)) =~= Seq::<char>::empty()) by {
        reveal(Seq::filter);
    }
    while i < chars.len()
        invariant
            i <= chars.len(),
            out@ == without_white_space(chars@.take(i as int)),
        decreases chars.len() - i,
    {
        proof {
            assert(chars@.take(i as int + 1).drop_last() =~= chars@.take(i as int));
            reveal(Seq::filter);
        }
        if !is_white_space(chars[i]) {
            out.push(chars[i]);
        }
        i += 1;
    }
    assert(chars@.take(chars@.len() as int) =~= chars@);
    out
}

/// Whether a text is white space throughout.
pub open spec fn blank(text: Seq<char>) -> bool {
    forall|i: int| 0 <= i < text.len() ==> white_space(#[trigger] text[i])
}

/// A text without the white space at its start and at its end.
pub open spec fn trimmed(text: Seq<char>) -> Seq<char>
    decreases text.len(),
{
    if text.len() == 0 {
        text
    } else if white_space(text[0]) {
        trimmed(text.drop_first())
    } else if white_space(text.last()) {
        trimmed(text.drop_last())
    } else {
        text
    }
}

/// Take the white space at the start and at the end off a text.
pub fn trim(text: &str) -> (out: String)
    ensures
        out@ == trimmed(text@),
{
    let chars = chars_of(text);
    let mut start: usize = 0;
    let mut end: usize = chars.len();
    assert(chars@.subrange(0, chars@.len() as int) =~= chars@);
    while start < end && is_white_space(chars[start])
        invariant
            start <= end == chars.len(),
            trimmed(chars@) == trimmed(chars@.subrange(start as int, end as int)),
        decreases end - start,
    {
        assert(chars@.subrange(start as int, end as int).drop_first() =~= chars@.subrange(
            start as int + 1,
            end as int,
        ));
        start += 1;
    }
    while start < end && is_white_space(chars[end - 1])
        invariant
            start <= end <= chars.len(),
            start < end ==> !white_space(chars@[start as int]),
            trimmed(chars@) == trimmed(chars@.subrange(start as int, end as int)),
        decreases end - start,
    {
        assert(chars@.subrange(start as int, end as int).drop_last() =~= chars@.subrange(
            start as int,
            end as int - 1,
        ));
        end -= 1;
    }
    text_of(vstd::slice::slice_subrange(chars.as_slice(), start, end))
}

/// Whether a text is white space throughout.
pub fn is_blank(text: &str) -> (out: bool)
    ensures
        out == blank(text@),
{
    let chars = chars_of(text);
    let mut i: usize = 0;
    while i < chars.len()
        invariant
            i <= chars.len(),
            chars@ == text@,
            forall|j: int| 0 <= j < i ==> white_space(#[trigger] text@[j]),
        decreases chars.len() - i,
    {
        if !is_white_space(chars[i]) {
            assert(!white_space(text@[i as int]));
            return false;
        }
        i += 1;
    }
    true
}

/// The decimal digit `d`.
pub open spec fn decimal_digit(d: nat) -> char {
    (48 + d) as char
}

/// The decimal numeral of `n`, without leading zeros.
pub open spec fn decimal(n: nat) -> Seq<char>
    decreases n,
{
    if n < 10 {
        seq![decimal_digit(n)]
    } else {
        decimal(n / 10).push(decimal_digit(n % 10))
    }
}

/// The decimal numeral of `n`.
pub fn decimal_text(n: u64) -> (out: String)
    ensures
        out@ == decimal(n as nat),
    decreases n,
{
    let mut out = if n < 10 {
        String::new()
    } else {
        decimal_text(n / 10)
    };
    let digit: u8 = (n % 10) as u8;
    out.push((48u8 + digit) as char);
    proof {
        if n < 10 {
            assert(out@ =~= seq![decimal_digit(n as nat)]);
        }
    }
    out
}

/// The decimal numeral of an integer, with a minus sign in front of a negative one.
pub open spec fn signed_decimal(n: int) -> Seq<char> {
    if n < 0 {
        "-"@ + decimal((-n) as nat)
    } else {
        decimal(n as nat)
    }
}

/// The decimal numeral of an integer.
pub fn signed_decimal_text(n: i64) -> (out: String)
    ensures
        out@ == signed_decimal(n as int),
{
    if n < 0 {
        let magnitude: u64 = (-(n + 1)) as u64 + 1;
        joined("-", decimal_text(magnitude).as_str())
    } else {
        decimal_text(n as u64)
    }
}

/// The sequence of the texts of a vector.
pub open spec fn texts(items: Seq<String>) -> Seq<Seq<char>> {
    items.map_values(|item: String| item@)
}

/// The sequence of the byte strings of a vector.
pub open spec fn byte_strings(items: Seq<Vec<u8>>) -> Seq<Seq<u8>> {
    items.map_values(|item: Vec<u8>| item@)
}

/// The content of an optional value.
pub open spec fn seen<T: View>(item: Option<T>) -> Option<T::V> {
    match item {
        Some(value) => Some(value@),
        None => None,
    }
}

/// Whether `text` is one of `items`.
pub fn contains_text(items: &Vec<String>, text: &str) -> (out: bool)
    ensures
        out == texts(items@).contains(text@),
{
    let mut i: usize = 0;
    while i < items.len()
        invariant
            i <= items.len(),
            forall|j: int| 0 <= j < i ==> texts(items@)[j] != text@,
        decreases items.len() - i,
    {
        if str_eq(items[i].as_str(), text) {
            assert(texts(items@)[i as int] == text@);
            return true;
        }
        i += 1;
    }
    false
}

/// A copy of a byte string.
pub fn copy_bytes(bytes: &Vec<u8>) -> (out: Vec<u8>)
    ensures
        out@ == bytes@,
{
    vstd::slice::slice_to_vec(bytes.as_slice())
}

/// Whether a text comes before another in the order of their characters.
pub open spec fn text_less(a: Seq<char>, b: Seq<char>) -> bool
    decreases a.len(),
{
    if b.len() == 0 {
        false
    } else if a.len() == 0 {
        true
    } else if a[0] != b[0] {
        a[0] < b[0]
    } else {
        text_less(a.drop_first(), b.drop_first())
    }
}

/// Whether `a` comes before `b`.
pub fn is_text_less(a: &str, b: &str) -> (out: bool)
    ensures
        out == text_less(a@, b@),
{
    let left = chars_of(a);
    let right = chars_of(b);
    let mut i: usize = 0;
    assert(left@.skip(0) =~= left@);
    assert(right@.skip(0) =~= right@);
    while i < left.len() && i < right.len()
        invariant
            i <= left@.len(),
            i <= right@.len(),
            left@ == a@,
            right@ == b@,
            text_less(a@, b@) == text_less(left@.skip(i as int), right@.skip(i as int)),
        decreases left@.len() - i,
    {
        assert(left@.skip(i as int).drop_first() =~= left@.skip(i as int + 1));
        assert(right@.skip(i as int).drop_first() =~= right@.skip(i as int + 1));
        if left[i] != right[i] {
            return left[i] < right[i];
        }
        i += 1;
    }
    i < right.len()
}

/// The order of texts is strict and total.
pub proof fn lemma_text_order(a: Seq<char>, b: Seq<char>, c: Seq<char>)
    ensures
        !(text_less(a, b) && text_less(b, a)),
        a == b || text_less(a, b) || text_less(b, a),
        text_less(a, b) && text_less(b, c) ==> text_less(a, c),
    decreases a.len(),
{
    if a.len() > 0 && b.len() > 0 {
        if a[0] == b[0] {
            let rest = if c.len() > 0 {
                c.drop_first()
            } else {
                c
            };
            lemma_text_order(a.drop_first(), b.drop_first(), rest);
            if a.drop_first() == b.drop_first() {
                assert(a =~= seq![a[0]] + a.drop_first());
                assert(b =~= seq![b[0]] + b.drop_first());
            }
        }
    } else if a.len() == 0 && b.len() == 0 {
        assert(a =~= b);
    }
}

/// The one of two texts that comes first; `a` where nothing is against it.
pub open spec fn lesser(a: Seq<char>, b: Option<Seq<char>>) -> Seq<char> {
    match b {
        Some(other) => if text_less(other, a) {
            other
        } else {
            a
        },
        None => a,
    }
}

/// Of the texts on a list that a predicate rejects, the one that comes first.
pub open spec fn least_rejected(list: Seq<Seq<char>>, accepted: spec_fn(Seq<char>) -> bool) -> Option<
    Seq<char>,
>
    decreases list.len(),
{
    if list.len() == 0 {
        None
    } else {
        let rest = least_rejected(list.drop_first(), accepted);
        if accepted(list[0]) {
            rest
        } else {
            Some(lesser(list[0], rest))
        }
    }
}

/// What is reported of a list is on it and is rejected, and nothing else that is rejected comes
/// before it; nothing is reported exactly where nothing is rejected. So neither the order of the
/// list nor repetitions matter.
pub proof fn law_least_rejected(list: Seq<Seq<char>>, accepted: spec_fn(Seq<char>) -> bool)
    ensures
        match least_rejected(list, accepted) {
            Some(text) => list.contains(text) && !accepted(text) && forall|i: int|
                0 <= i < list.len() && !accepted(#[trigger] list[i]) ==> !text_less(list[i], text),
            None => forall|i: int| 0 <= i < list.len() ==> accepted(#[trigger] list[i]),
        },
    decreases list.len(),
{
    if list.len() > 0 {
        let tail = list.drop_first();
        law_least_rejected(tail, accepted);
        let rest = least_rejected(tail, accepted);
        assert forall|i: int| 0 < i < list.len() implies #[trigger] list[i] == tail[i - 1] by {}
        if let Some(other) = rest {
            let j = choose|j: int| 0 <= j < tail.len() && tail[j] == other;
            assert(list[j + 1] == other);
        }
        if !accepted(list[0]) {
            let text = lesser(list[0], rest);
            assert(list[0] == list[0]);
            assert forall|i: int| 0 <= i < list.len() && !accepted(#[trigger] list[i]) implies !(
            text_less(list[i], text)) by {
                lemma_text_order(list[0], list[0], list[0]);
                if let Some(other) = rest {
                    if i > 0 {
                        assert(!text_less(tail[i - 1], other));
                        lemma_text_order(list[i], list[0], other);
                        lemma_text_order(list[0], other, list[i]);
                        lemma_text_order(other, list[i], list[0]);
                    } else {
                        lemma_text_order(list[0], other, list[0]);
                    }
                }
            }
        } else {
            if let Some(other) = rest {
                assert forall|i: int| 0 <= i < list.len() && !accepted(
                    #[trigger] list[i],
                ) implies !text_less(list[i], other) by {
                    assert(!text_less(tail[i - 1], other));
                }
            } else {
                assert forall|i: int| 0 <= i < list.len() implies accepted(#[trigger] list[i]) by {
                    if i > 0 {
                        assert(accepted(tail[i - 1]));
                    }
                }
            }
        }
    }
}

} // verus!
