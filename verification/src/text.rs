//! Slices of the source text: where a range of bytes is a range of
//! characters, and the text it holds.

use vstd::prelude::*;
use vstd::string::*;
use vstd::utf8::*;
use crate::lexical::{is_continuation, text_between};

verus! {

/// The bytes of a text can be cut at `index`: no character is cut in two.
/// This holds at the end of the text, after a byte below 128, and before a
/// byte that continues no character.
pub open spec fn cut_at(bytes: Seq<u8>, index: int) -> bool {
    0 <= index <= bytes.len() && (index == bytes.len() || index == 0 || bytes[index - 1] < 128
        || !is_continuation(bytes[index]))
}

/// The position after a byte below 128 is the start of a character or the
/// end of the text.
pub proof fn lemma_boundary_after_ascii(bytes: Seq<u8>, i: int)
    requires
        valid_utf8(bytes),
        0 <= i < bytes.len(),
        bytes[i] < 128,
    ensures
        is_char_boundary(bytes, i + 1),
    decreases bytes.len(),
{
    reveal_with_fuel(is_char_boundary, 2);
    reveal_with_fuel(valid_utf8, 2);
    let width = length_of_first_scalar(bytes);
    let rest = pop_first_scalar(bytes);
    if i == 0 {
        assert(is_char_boundary(rest, 0));
    } else {
        is_char_boundary_iff_not_is_continuation_byte(bytes, i);
        assert(is_char_boundary(bytes, i));
        assert(i >= width);
        lemma_boundary_after_ascii(rest, i - width);
    }
}

/// Where the bytes of a text can be cut, a character starts or the text
/// ends.
pub proof fn lemma_cut_is_boundary(bytes: Seq<u8>, index: int)
    requires
        valid_utf8(bytes),
        cut_at(bytes, index),
    ensures
        is_char_boundary(bytes, index),
{
    is_char_boundary_start_end_of_seq(bytes);
    if index == bytes.len() || index == 0 {
    } else if bytes[index - 1] < 128 {
        lemma_boundary_after_ascii(bytes, index - 1);
    } else {
        is_char_boundary_iff_not_is_continuation_byte(bytes, index);
    }
}

/// The part of `source` between the byte offsets `start` and `end`.
pub(crate) fn piece<'a>(source: &'a str, start: usize, end: usize) -> (part: &'a str)
    requires
        start <= end <= source.spec_bytes().len(),
        is_char_boundary(source.spec_bytes(), start as int),
        is_char_boundary(source.spec_bytes(), end as int),
    ensures
        part.spec_bytes() == source.spec_bytes().subrange(start as int, end as int),
        part@ == text_between(source.spec_bytes(), start as int, end as int),
{
    let ghost bytes = source.spec_bytes();
    let (head, _) = source.split_at(end);
    proof {
        encode_utf8_valid_utf8(source@);
        encode_utf8_valid_utf8(head@);
        is_char_boundary_start_end_of_seq(head.spec_bytes());
        if start < end {
            is_char_boundary_iff_not_is_continuation_byte(bytes, start as int);
            is_char_boundary_iff_not_is_continuation_byte(head.spec_bytes(), start as int);
        }
    }
    let (_, part) = head.split_at(start);
    proof {
        assert(part.spec_bytes() =~= bytes.subrange(start as int, end as int));
        encode_utf8_decode_utf8(part@);
    }
    part
}

} // verus!
