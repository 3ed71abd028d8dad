//! A forward cursor over encoded CBOR that hands out exact byte spans.
//!
//! Each reading step is described by a function from the input and a position to the outcome and
//! the position after the step. A step that fails leaves the cursor where the failure showed.
use crate::cbor::TAG_ENCODED_CBOR;
use crate::text::{seen, utf8_text};
use vstd::prelude::*;
use vstd::utf8::{decode_utf8, valid_utf8};

verus! {

/// The head of a CBOR item: its major type and its argument.
#[derive(Debug, Clone, Copy, PartialEq, Eq, Structural)]
pub struct CborHead {
    /// The major type, at most 7.
    pub major: u8,
    /// The argument: a value, a length, a count or a tag number.
    pub arg: u64,
}

/// A cursor over `input`, standing at byte `pos`.
#[derive(Debug)]
pub struct CborCursor<'a> {
    /// The bytes that are walked.
    pub input: &'a [u8],
    /// The position of the next byte to read.
    pub pos: usize,
}

/// The number that a byte string is the big-endian form of.
pub open spec fn big_endian(bytes: Seq<u8>) -> nat
    decreases bytes.len(),
{
    if bytes.len() == 0 {
        0
    } else {
        256 * big_endian(bytes.drop_last()) + bytes.last() as nat
    }
}

/// The powers of 256.
pub open spec fn power_256(n: nat) -> nat
    decreases n,
{
    if n == 0 {
        1
    } else {
        256 * power_256((n - 1) as nat)
    }
}

proof fn lemma_big_endian_bound(bytes: Seq<u8>)
    ensures
        big_endian(bytes) < power_256(bytes.len()),
    decreases bytes.len(),
{
    if bytes.len() > 0 {
        lemma_big_endian_bound(bytes.drop_last());
    }
}

proof fn lemma_power_256_u64(n: nat)
    requires
        n <= 8,
    ensures
        power_256(n) <= 0x1_0000_0000_0000_0000,
{
    reveal_with_fuel(power_256, 9);
}

/// Whether the input holds the bytes `from..to`.
pub open spec fn within(input: Seq<u8>, from: int, to: int) -> bool {
    0 <= from <= to <= input.len()
}

/// The head at `pos`, and the position behind what was read of it. Only heads with a definite
/// argument are heads.
pub open spec fn head_at(input: Seq<u8>, pos: int) -> (Option<CborHead>, int) {
    if !(0 <= pos < input.len()) {
        (None, pos)
    } else {
        let major = input[pos] / 32;
        let info = input[pos] % 32;
        if info < 24 {
            (Some(CborHead { major, arg: info as u64 }), pos + 1)
        } else if info < 28 {
            let width: int = if info == 24 {
                1
            } else if info == 25 {
                2
            } else if info == 26 {
                4
            } else {
                8
            };
            if within(input, pos + 1, pos + 1 + width) {
                (
                    Some(
                        CborHead {
                            major,
                            arg: big_endian(input.subrange(pos + 1, pos + 1 + width)) as u64,
                        },
                    ),
                    pos + 1 + width,
                )
            } else {
                (None, pos + 1)
            }
        } else {
            (None, pos + 1)
        }
    }
}

/// How many items follow a head as its content.
pub open spec fn children_of(head: CborHead) -> int {
    if head.major == 4 {
        head.arg as int
    } else if head.major == 5 {
        2 * head.arg
    } else if head.major == 6 {
        1
    } else {
        0
    }
}

/// Whether the argument of a head, and the number of items it announces, can be counted.
pub open spec fn countable(head: CborHead) -> bool {
    &&& (head.major == 4 || head.major == 5) ==> head.arg <= usize::MAX
    &&& children_of(head) <= usize::MAX
}

/// Skip `pending` items from `pos`: whether they are all there, and the position reached.
pub open spec fn skip_at(input: Seq<u8>, pos: int, pending: int) -> (bool, int)
    decreases input.len() - pos,
{
    if pending <= 0 {
        (true, pos)
    } else {
        let (head, next) = head_at(input, pos);
        match head {
            None => (false, next),
            Some(head) => if head.major == 2 || head.major == 3 {
                if next + head.arg > usize::MAX {
                    (false, next)
                } else if next + head.arg > input.len() {
                    (false, next + head.arg)
                } else {
                    skip_at(input, next + head.arg, pending - 1)
                }
            } else if !countable(head) || pending - 1 + children_of(head) > usize::MAX {
                (false, next)
            } else {
                skip_at(input, next, pending - 1 + children_of(head))
            },
        }
    }
}

/// The span of a string item with head `head` whose content starts at `from`.
pub open spec fn content_end(input: Seq<u8>, from: int, head: CborHead) -> Option<int> {
    if within(input, from, from + head.arg) {
        Some(from + head.arg)
    } else {
        None
    }
}

/// The text item at `pos`.
pub open spec fn text_at(input: Seq<u8>, pos: int) -> (Option<Seq<char>>, int) {
    let (head, from) = head_at(input, pos);
    match head {
        Some(head) => if head.major != 3 {
            (None, from)
        } else {
            match content_end(input, from, head) {
                Some(to) => if valid_utf8(input.subrange(from, to)) {
                    (Some(decode_utf8(input.subrange(from, to))), to)
                } else {
                    (None, to)
                },
                None => (None, from),
            }
        },
        None => (None, from),
    }
}

/// The item `#6.24(bstr)` at `pos`: its whole span and the content of the byte string.
pub open spec fn tagged_bstr_at(input: Seq<u8>, pos: int) -> (Option<(Seq<u8>, Seq<u8>)>, int) {
    let (tag, after_tag) = head_at(input, pos);
    if tag is None || tag->0.major != 6 || tag->0.arg != TAG_ENCODED_CBOR {
        (None, after_tag)
    } else {
        let (bstr, from) = head_at(input, after_tag);
        if bstr is None || bstr->0.major != 2 {
            (None, from)
        } else {
            match content_end(input, from, bstr->0) {
                Some(to) => (Some((input.subrange(pos, to), input.subrange(from, to))), to),
                None => (None, from),
            }
        }
    }
}

/// The count of the map (major type 5) or array (major type 4) at `pos`.
pub open spec fn count_at(input: Seq<u8>, pos: int, major: u8) -> (Option<u64>, int) {
    let (head, next) = head_at(input, pos);
    match head {
        Some(head) => if head.major == major {
            (Some(head.arg), next)
        } else {
            (None, next)
        },
        None => (None, next),
    }
}

/// A head that is read moves the cursor forward, and stays inside the input.
pub proof fn lemma_head_progress(input: Seq<u8>, pos: int)
    requires
        0 <= pos,
    ensures
        head_at(input, pos).1 >= pos,
        head_at(input, pos).0 is Some ==> pos < head_at(input, pos).1 <= input.len(),
        pos <= input.len() ==> head_at(input, pos).1 <= input.len(),
{
}

impl<'a> CborCursor<'a> {
    /// A cursor at the start of `input`.
    pub fn new(input: &'a [u8]) -> (out: CborCursor<'a>)
        ensures
            out.input@ == input@,
            out.pos == 0,
    {
        CborCursor { input, pos: 0 }
    }

    /// Read `n` bytes as a big-endian number.
    pub fn read_uint(&mut self, n: usize) -> (out: Option<u64>)
        requires
            n <= 8,
        ensures
            final(self).input@ == old(self).input@,
            match out {
                Some(value) => {
                    &&& within(old(self).input@, old(self).pos as int, old(self).pos + n)
                    &&& value == big_endian(
                        old(self).input@.subrange(old(self).pos as int, old(self).pos + n),
                    )
                    &&& final(self).pos == old(self).pos + n
                },
                None => !within(old(self).input@, old(self).pos as int, old(self).pos + n)
                    && final(self).pos == old(self).pos,
            },
    {
        if self.pos > self.input.len() || n > self.input.len() - self.pos {
            return None;
        }
        let start: usize = self.pos;
        let end: usize = start + n;
        let ghost span = self.input@.subrange(start as int, end as int);
        let mut value: u64 = 0;
        let mut i: usize = start;
        while i < end
            invariant
                start <= i <= end <= self.input@.len(),
                end - start <= 8,
                span == self.input@.subrange(start as int, end as int),
                value == big_endian(span.take(i - start)),
            decreases end - i,
        {
            proof {
                let so_far = span.take(i - start);
                lemma_big_endian_bound(so_far);
                lemma_power_256_u64((i - start + 1) as nat);
                assert(span.take(i - start + 1).drop_last() =~= so_far);
                assert(span.take(i - start + 1).last() == self.input@[i as int]);
                lemma_big_endian_bound(span.take(i - start + 1));
            }
            value = value * 256 + self.input[i] as u64;
            i += 1;
        }
        assert(span.take(end - start) =~= span);
        self.pos = end;
        Some(value)
    }

    /// Read the head of an item. Heads of indefinite length, and reserved ones, are refused.
    pub fn read_head(&mut self) -> (out: Option<CborHead>)
        ensures
            final(self).input@ == old(self).input@,
            (out, final(self).pos as int) == head_at(old(self).input@, old(self).pos as int),
    {
        if self.pos >= self.input.len() {
            return None;
        }
        let initial: u8 = self.input[self.pos];
        self.pos = self.pos + 1;
        let major: u8 = initial / 32;
        let info: u8 = initial % 32;
        let width: usize = if info < 24 {
            return Some(CborHead { major, arg: info as u64 });
        } else if info == 24 {
            1
        } else if info == 25 {
            2
        } else if info == 26 {
            4
        } else if info == 27 {
            8
        } else {
            return None;
        };
        match self.read_uint(width) {
            Some(arg) => Some(CborHead { major, arg }),
            None => None,
        }
    }

    /// How many items follow a head as its content; nothing where they cannot be counted.
    pub fn head_child_count(head: &CborHead) -> (out: Option<usize>)
        requires
            head.major <= 7,
        ensures
            out == (if countable(*head) {
                Some(children_of(*head) as usize)
            } else {
                None
            }),
    {
        if head.major == 4 || head.major == 5 {
            if head.arg > usize::MAX as u64 {
                return None;
            }
            let count: usize = head.arg as usize;
            if head.major == 4 {
                Some(count)
            } else if count <= usize::MAX / 2 {
                Some(2 * count)
            } else {
                None
            }
        } else if head.major == 6 {
            Some(1)
        } else {
            Some(0)
        }
    }

    /// Skip `pending` whole items.
    pub fn skip_pending(&mut self, pending: usize) -> (out: Option<()>)
        ensures
            final(self).input@ == old(self).input@,
            (out is Some, final(self).pos as int) == skip_at(
                old(self).input@,
                old(self).pos as int,
                pending as int,
            ),
    {
        let mut left: usize = pending;
        while left > 0
            invariant
                self.input@ == old(self).input@,
                skip_at(old(self).input@, old(self).pos as int, pending as int) == skip_at(
                    self.input@,
                    self.pos as int,
                    left as int,
                ),
            decreases self.input@.len() - self.pos,
        {
            let ghost before = self.pos as int;
            left = left - 1;
            let head = match self.read_head() {
                Some(head) => head,
                None => {
                    return None;
                },
            };
            proof {
                lemma_head_progress(self.input@, before);
            }
            if head.major == 2 || head.major == 3 {
                if head.arg > usize::MAX as u64 || head.arg as usize > usize::MAX - self.pos {
                    return None;
                }
                self.pos = self.pos + head.arg as usize;
                if self.pos > self.input.len() {
                    return None;
                }
            } else {
                match Self::head_child_count(&head) {
                    Some(children) => {
                        if children > usize::MAX - left {
                            return None;
                        }
                        left = left + children;
                    },
                    None => {
                        return None;
                    },
                }
            }
        }
        Some(())
    }

    /// Skip one whole item.
    pub fn skip_item(&mut self) -> (out: Option<()>)
        ensures
            final(self).input@ == old(self).input@,
            (out is Some, final(self).pos as int) == skip_at(
                old(self).input@,
                old(self).pos as int,
                1,
            ),
    {
        self.skip_pending(1)
    }

    /// The content of a string item whose head was just read.
    fn take_content(&mut self, head: CborHead) -> (out: Option<&'a [u8]>)
        requires
            old(self).pos <= old(self).input@.len(),
        ensures
            final(self).input@ == old(self).input@,
            match content_end(old(self).input@, old(self).pos as int, head) {
                Some(to) => {
                    &&& out is Some
                    &&& out->0@ == old(self).input@.subrange(old(self).pos as int, to)
                    &&& final(self).pos == to
                },
                None => out is None && final(self).pos == old(self).pos,
            },
    {
        let room: usize = self.input.len() - self.pos;
        if head.arg > room as u64 {
            return None;
        }
        let start: usize = self.pos;
        let end: usize = start + head.arg as usize;
        self.pos = end;
        Some(vstd::slice::slice_subrange(self.input, start, end))
    }

    /// Take an item of the form `#6.24(bstr)`: its exact span, and the content of the byte string.
    pub fn take_tagged_bstr_item(&mut self) -> (out: Option<(&'a [u8], &'a [u8])>)
        ensures
            final(self).input@ == old(self).input@,
            (
                match out {
                    Some((raw, inner)) => Some((raw@, inner@)),
                    None => None,
                },
                final(self).pos as int,
            ) == tagged_bstr_at(old(self).input@, old(self).pos as int),
    {
        let start: usize = self.pos;
        let tag = match self.read_head() {
            Some(tag) => tag,
            None => {
                return None;
            },
        };
        if tag.major != 6 || tag.arg != TAG_ENCODED_CBOR {
            return None;
        }
        proof {
            lemma_head_progress(self.input@, start as int);
            lemma_head_progress(self.input@, self.pos as int);
        }
        let bstr = match self.read_head() {
            Some(bstr) => bstr,
            None => {
                return None;
            },
        };
        if bstr.major != 2 {
            return None;
        }
        match self.take_content(bstr) {
            Some(inner) => {
                let raw = vstd::slice::slice_subrange(self.input, start, self.pos);
                Some((raw, inner))
            },
            None => None,
        }
    }

    /// Take a text item.
    pub fn take_text(&mut self) -> (out: Option<String>)
        ensures
            final(self).input@ == old(self).input@,
            (seen(out), final(self).pos as int) == text_at(old(self).input@, old(self).pos as int),
    {
        proof {
            lemma_head_progress(self.input@, self.pos as int);
        }
        let head = match self.read_head() {
            Some(head) => head,
            None => {
                return None;
            },
        };
        if head.major != 3 {
            return None;
        }
        match self.take_content(head) {
            Some(bytes) => match utf8_text(bytes) {
                Ok(text) => Some(text),
                Err(_) => None,
            },
            None => None,
        }
    }

    /// Take the head of a map: its number of entries.
    pub fn read_map_len(&mut self) -> (out: Option<u64>)
        ensures
            final(self).input@ == old(self).input@,
            (out, final(self).pos as int) == count_at(old(self).input@, old(self).pos as int, 5),
    {
        match self.read_head() {
            Some(head) => if head.major == 5 {
                Some(head.arg)
            } else {
                None
            },
            None => None,
        }
    }

    /// Take the head of an array: its number of items.
    pub fn read_array_len(&mut self) -> (out: Option<u64>)
        ensures
            final(self).input@ == old(self).input@,
            (out, final(self).pos as int) == count_at(old(self).input@, old(self).pos as int, 4),
    {
        match self.read_head() {
            Some(head) => if head.major == 4 {
                Some(head.arg)
            } else {
                None
            },
            None => None,
        }
    }
}

} // verus!
