//! Text as bytes: the library states what it does over the UTF-8 bytes of a
//! string, and cuts strings only where a character starts.

use vstd::prelude::*;
use vstd::string::StringSliceAdditionalSpecFns;
use vstd::utf8::*;

verus! {

/// An ASCII byte: a character of its own in UTF-8.
pub open spec fn is_ascii_byte(b: u8) -> bool {
    b < 0x80
}

/// The range from `start` to `end` can be cut out of a text: it lies within the
/// text and both its ends fall where a character starts.
pub open spec fn sliceable(bytes: Seq<u8>, start: int, end: int) -> bool {
    &&& 0 <= start <= end <= bytes.len()
    &&& is_char_boundary(bytes, start)
    &&& is_char_boundary(bytes, end)
}

/// The encoding of a text is the encoding of its parts, one after the other.
pub proof fn lemma_encode_concat(a: Seq<char>, b: Seq<char>)
    ensures
        encode_utf8(a + b) == encode_utf8(a) + encode_utf8(b),
    decreases a.len(),
{
    if a.len() == 0 {
        assert(a + b =~= b);
        assert(encode_utf8(a) + encode_utf8(b) =~= encode_utf8(b));
    } else {
        lemma_encode_concat(a.drop_first(), b);
        assert((a + b).drop_first() =~= a.drop_first() + b);
        assert(encode_utf8(a + b) =~= encode_utf8(a) + encode_utf8(b));
    }
}

/// Texts with the same bytes are the same text.
pub proof fn lemma_encode_injective(a: Seq<char>, b: Seq<char>)
    requires
        encode_utf8(a) == encode_utf8(b),
    ensures
        a == b,
{
    encode_utf8_decode_utf8(a);
    encode_utf8_decode_utf8(b);
}

/// A character starts at every ASCII byte of a text.
pub proof fn lemma_boundary_at_ascii(bytes: Seq<u8>, i: int)
    requires
        valid_utf8(bytes),
        0 <= i < bytes.len(),
        is_ascii_byte(bytes[i]),
    ensures
        is_char_boundary(bytes, i),
{
    is_char_boundary_iff_not_is_continuation_byte(bytes, i);
}

/// A character starts right behind every ASCII byte of a text.
pub proof fn lemma_boundary_after_ascii(bytes: Seq<u8>, i: int)
    requires
        valid_utf8(bytes),
        0 <= i < bytes.len(),
        is_ascii_byte(bytes[i]),
    ensures
        is_char_boundary(bytes, i + 1),
    decreases bytes.len(),
{
    let width = length_of_first_scalar(bytes);
    if i < width {
        reveal_with_fuel(is_char_boundary, 2);
        if i > 0 {
            assert(is_continuation_byte(bytes[i]));
        }
    } else {
        let rest = pop_first_scalar(bytes);
        assert(rest[i - width] == bytes[i]);
        lemma_boundary_after_ascii(rest, i - width);
    }
}

/// Where a character starts in a text, one starts in every prefix of the text
/// that ends where a character starts.
pub proof fn lemma_boundary_in_prefix(bytes: Seq<u8>, start: int, end: int)
    requires
        valid_utf8(bytes),
        sliceable(bytes, start, end),
    ensures
        valid_utf8(bytes.subrange(0, end)),
        is_char_boundary(bytes.subrange(0, end), start),
{
    let head = bytes.subrange(0, end);
    valid_utf8_split(bytes, end);
    if start == end {
        is_char_boundary_start_end_of_seq(head);
    } else {
        is_char_boundary_iff_not_is_continuation_byte(head, start);
        is_char_boundary_iff_not_is_continuation_byte(bytes, start);
    }
}

/// The part of a text from byte `start` up to byte `end`, where both fall on the
/// start of a character and lie within the text.
pub fn slice_str<'a>(arg: &'a str, start: usize, end: usize) -> (part: Option<&'a str>)
    ensures
        part is Some <==> sliceable(arg.spec_bytes(), start as int, end as int),
        part matches Some(s) ==> s.spec_bytes() == arg.spec_bytes().subrange(
            start as int,
            end as int,
        ),
{
    let total: usize = arg.as_bytes().len();
    if start <= end && end <= total && arg.is_char_boundary(start) && arg.is_char_boundary(end) {
        proof {
            encode_utf8_valid_utf8(arg@);
            lemma_boundary_in_prefix(arg.spec_bytes(), start as int, end as int);
        }
        let (head, _) = arg.split_at(end);
        let (_, part) = head.split_at(start);
        assert(part.spec_bytes() =~= arg.spec_bytes().subrange(start as int, end as int));
        Some(part)
    } else {
        None
    }
}

/// Whether two byte strings are equal.
pub fn bytes_eq(a: &[u8], b: &[u8]) -> (same: bool)
    ensures
        same == (a@ == b@),
{
    let width: usize = a.len();
    if b.len() != width {
        return false;
    }
    let mut k: usize = 0;
    while k < width
        invariant
            width == a@.len(),
            width == b@.len(),
            k <= width,
            forall|j: int| 0 <= j < k ==> a@[j] == b@[j],
        decreases width - k,
    {
        if a[k] != b[k] {
            return false;
        }
        k += 1;
    }
    assert(a@ =~= b@);
    true
}

/// `core::str::from_utf8`: the bytes as a text, where they are valid UTF-8, and
/// nothing where they are not. The text has the bytes it was made of.
#[verifier::external_body]
pub(crate) fn from_utf8(bytes: &[u8]) -> (text: Option<&str>)
    ensures
        text is Some <==> valid_utf8(bytes@),
        text matches Some(s) ==> s.spec_bytes() == bytes@,
{
    core::str::from_utf8(bytes).ok()
}

} // verus!
