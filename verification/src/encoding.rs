//! Facts about the UTF-8 encoding of text that is cut into pieces.
//!
//! A view is a window of bytes inside a UTF-8 buffer. The lemmas here relate
//! the character boundaries of a window to those of the buffer around it,
//! show that a piece of the buffer that is UTF-8 itself lies between two of
//! them, and relate the encoding of a concatenation to the encodings of its
//! parts.
use vstd::prelude::*;
use vstd::utf8::*;

verus! {

/// Encoding distributes over concatenation.
pub proof fn lemma_encode_concat(a: Seq<char>, b: Seq<char>)
    ensures
        encode_utf8(a + b) == encode_utf8(a) + encode_utf8(b),
    decreases a.len(),
{
    if a.len() == 0 {
        assert(a + b =~= b);
        assert(encode_utf8(a) + encode_utf8(b) =~= encode_utf8(b));
    } else {
        lemma_encode_concat(a.drop_first(), b);
        assert((a + b).drop_first() =~= a.drop_first() + b);
        assert(encode_utf8(a + b) =~= encode_utf8(a) + encode_utf8(b));
    }
}

/// Non-empty valid UTF-8 starts on a byte that is no continuation byte.
pub proof fn lemma_first_byte_leads(bytes: Seq<u8>)
    requires
        valid_utf8(bytes),
        bytes.len() > 0,
    ensures
        !is_continuation_byte(bytes[0]),
{
}

/// A window of valid UTF-8 that starts and ends on character boundaries is
/// itself valid UTF-8, and its character boundaries are those of the buffer.
pub proof fn lemma_window(buffer: Seq<u8>, from: int, to: int)
    requires
        valid_utf8(buffer),
        0 <= from <= to <= buffer.len(),
        is_char_boundary(buffer, from),
        is_char_boundary(buffer, to),
    ensures
        valid_utf8(buffer.subrange(from, to)),
        forall|k: int|
            0 <= k <= to - from ==> (#[trigger] is_char_boundary(buffer.subrange(from, to), k)
                <==> is_char_boundary(buffer, from + k)),
{
    let head = buffer.subrange(0, to);
    let window = buffer.subrange(from, to);
    valid_utf8_split(buffer, to);
    assert(is_char_boundary(head, from)) by {
        if from == 0 {
        } else if from == to {
            is_char_boundary_start_end_of_seq(head);
        } else {
            assert(head[from] == buffer[from]);
            is_char_boundary_iff_not_is_continuation_byte(head, from);
            is_char_boundary_iff_not_is_continuation_byte(buffer, from);
        }
    }
    valid_utf8_split(head, from);
    assert(head.subrange(from, head.len() as int) =~= window);
    assert forall|k: int| 0 <= k <= to - from implies (#[trigger] is_char_boundary(window, k)
        <==> is_char_boundary(buffer, from + k)) by {
        if k == 0 {
        } else if k == to - from {
            is_char_boundary_start_end_of_seq(window);
        } else {
            assert(window[k] == buffer[from + k]);
            is_char_boundary_iff_not_is_continuation_byte(window, k);
            is_char_boundary_iff_not_is_continuation_byte(buffer, from + k);
        }
    }
}

/// Where valid UTF-8 begins with a piece that is valid UTF-8 too, the piece
/// ends on a character boundary.
pub proof fn lemma_boundary_after_valid_prefix(bytes: Seq<u8>, n: int)
    requires
        valid_utf8(bytes),
        0 <= n <= bytes.len(),
        valid_utf8(bytes.subrange(0, n)),
    ensures
        is_char_boundary(bytes, n),
    decreases n,
{
    if n > 0 {
        let prefix = bytes.subrange(0, n);
        let k = length_of_first_scalar(bytes);
        assert(prefix[0] == bytes[0]);
        assert(length_of_first_scalar(prefix) == k);
        assert(pop_first_scalar(prefix) =~= pop_first_scalar(bytes).subrange(0, n - k));
        lemma_boundary_after_valid_prefix(pop_first_scalar(bytes), n - k);
    }
}

/// A piece of valid UTF-8 that is not empty and is valid UTF-8 itself begins
/// and ends on character boundaries.
pub proof fn lemma_valid_piece(buffer: Seq<u8>, from: int, to: int)
    requires
        valid_utf8(buffer),
        0 <= from < to <= buffer.len(),
        valid_utf8(buffer.subrange(from, to)),
    ensures
        is_char_boundary(buffer, from),
        is_char_boundary(buffer, to),
{
    let piece = buffer.subrange(from, to);
    let tail = buffer.subrange(from, buffer.len() as int);
    lemma_first_byte_leads(piece);
    assert(piece[0] == buffer[from]);
    is_char_boundary_iff_not_is_continuation_byte(buffer, from);
    valid_utf8_split(buffer, from);
    assert(tail.subrange(0, to - from) =~= piece);
    lemma_boundary_after_valid_prefix(tail, to - from);
    is_char_boundary_start_end_of_seq(buffer);
    lemma_window(buffer, from, buffer.len() as int);
}

} // verus!
