//! UTF-8 facts and slicing helpers that the lexer relies on.
//!
//! Source text is scanned as bytes. Lexemes are handed out as string slices,
//! so every offset at which the text is cut must be a character boundary.

use vstd::prelude::*;
use vstd::string::StringSliceAdditionalSpecFns;
use vstd::utf8::*;

verus! {

/// The characters that a sequence of ASCII bytes stands for.
pub open spec fn ascii_chars(bytes: Seq<u8>) -> Seq<char> {
    Seq::new(bytes.len(), |i: int| bytes[i] as char)
}

/// Whether every byte is below 0x80.
pub open spec fn all_ascii(bytes: Seq<u8>) -> bool {
    forall|i: int| 0 <= i < bytes.len() ==> #[trigger] bytes[i] < 0x80
}

/// The offset just past the character that starts at `i`.
pub open spec fn char_end(bytes: Seq<u8>, i: int) -> int {
    i + length_of_first_scalar(bytes.subrange(i, bytes.len() as int))
}

/// A character that starts at a boundary ends at a boundary, inside the text.
pub proof fn lemma_char_end_is_boundary(bytes: Seq<u8>, i: int)
    requires
        valid_utf8(bytes),
        is_char_boundary(bytes, i),
        0 <= i < bytes.len(),
    ensures
        valid_first_scalar(bytes.subrange(i, bytes.len() as int)),
        i < char_end(bytes, i) <= bytes.len(),
        is_char_boundary(bytes, char_end(bytes, i)),
    decreases bytes.len(),
{
    let len = bytes.len() as int;
    let first = length_of_first_scalar(bytes);
    let rest = pop_first_scalar(bytes);
    if i == 0 {
        assert(bytes.subrange(0, len) =~= bytes);
        assert(is_char_boundary(rest, 0));
    } else {
        if i < first {
            assert(!is_char_boundary(rest, i - first));
        }
        lemma_char_end_is_boundary(rest, i - first);
        assert(rest.subrange(i - first, rest.len() as int) =~= bytes.subrange(i, len));
    }
}

/// An ASCII byte is a whole character: it starts and ends at a boundary.
pub proof fn lemma_ascii_byte_boundaries(bytes: Seq<u8>, i: int)
    requires
        valid_utf8(bytes),
        0 <= i < bytes.len(),
        bytes[i] < 0x80,
    ensures
        is_char_boundary(bytes, i),
        is_char_boundary(bytes, i + 1),
        char_end(bytes, i) == i + 1,
{
    is_char_boundary_iff_not_is_continuation_byte(bytes, i);
    lemma_char_end_is_boundary(bytes, i);
}

/// Any offset whose byte is not a continuation byte is a boundary, and so is
/// the end of the text.
pub proof fn lemma_boundary_by_byte(bytes: Seq<u8>, i: int)
    requires
        valid_utf8(bytes),
        0 <= i <= bytes.len(),
        i < bytes.len() ==> !is_continuation_byte(bytes[i]),
    ensures
        is_char_boundary(bytes, i),
{
    if i < bytes.len() {
        is_char_boundary_iff_not_is_continuation_byte(bytes, i);
    } else {
        is_char_boundary_start_end_of_seq(bytes);
    }
}

/// ASCII bytes are valid UTF-8 and decode byte by byte.
pub proof fn lemma_ascii_decodes(bytes: Seq<u8>)
    requires
        all_ascii(bytes),
    ensures
        valid_utf8(bytes),
        decode_utf8(bytes) == ascii_chars(bytes),
        encode_utf8(ascii_chars(bytes)) == bytes,
{
    let chars = ascii_chars(bytes);
    assert(is_ascii_chars(chars)) by {
        assert forall|i: int| 0 <= i < chars.len() implies '\0' <= #[trigger] chars[i]
            <= '\u{7f}' by {
            assert(bytes[i] < 0x80);
        }
    }
    is_ascii_chars_encode_utf8(chars);
    assert(encode_utf8(chars) =~= bytes) by {
        assert forall|i: int| 0 <= i < bytes.len() implies encode_utf8(chars)[i] == bytes[i] by {
            assert(bytes[i] < 0x80);
            assert(chars[i] as u8 == encode_utf8(chars)[i]);
        }
    }
    encode_utf8_valid_utf8(chars);
    encode_utf8_decode_utf8(chars);
}

/// The characters of a string slice are the decoding of its bytes.
pub proof fn lemma_str_decodes(s: &str)
    ensures
        valid_utf8(s.spec_bytes()),
        s@ == decode_utf8(s.spec_bytes()),
{
    encode_utf8_valid_utf8(s@);
    encode_utf8_decode_utf8(s@);
}

/// The part of `s` between the byte offsets `from` and `to`.
pub(crate) fn cut<'a>(s: &'a str, from: usize, to: usize) -> (part: &'a str)
    requires
        from <= to <= s.spec_bytes().len(),
        is_char_boundary(s.spec_bytes(), from as int),
        is_char_boundary(s.spec_bytes(), to as int),
    ensures
        part.spec_bytes() == s.spec_bytes().subrange(from as int, to as int),
        part@ == decode_utf8(s.spec_bytes().subrange(from as int, to as int)),
{
    let (head, _) = s.split_at(to);
    proof {
        lemma_str_decodes(s);
        lemma_str_decodes(head);
        if from < to {
            is_char_boundary_iff_not_is_continuation_byte(s.spec_bytes(), from as int);
            is_char_boundary_iff_not_is_continuation_byte(head.spec_bytes(), from as int);
        } else {
            is_char_boundary_start_end_of_seq(head.spec_bytes());
        }
    }
    let (_, part) = head.split_at(from);
    proof {
        assert(part.spec_bytes() =~= s.spec_bytes().subrange(from as int, to as int));
        lemma_str_decodes(part);
    }
    part
}

/// Whether two string slices hold the same characters.
pub(crate) fn same_text(a: &str, b: &str) -> (same: bool)
    ensures
        same == (a@ == b@),
{
    let x = a.as_bytes();
    let y = b.as_bytes();
    proof {
        lemma_str_decodes(a);
        lemma_str_decodes(b);
    }
    if x.len() != y.len() {
        return false;
    }
    let mut i: usize = 0;
    while i < x.len()
        invariant
            x@ == a.spec_bytes(),
            y@ == b.spec_bytes(),
            x@.len() == y@.len(),
            i <= x@.len(),
            forall|k: int| 0 <= k < i ==> x@[k] == y@[k],
        decreases x@.len() - i,
    {
        if x[i] != y[i] {
            assert(a.spec_bytes()[i as int] != b.spec_bytes()[i as int]);
            return false;
        }
        i += 1;
    }
    assert(x@ =~= y@);
    true
}

} // verus!
