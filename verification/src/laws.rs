//! What holds of every view, whatever buffer it shares.
use crate::shared::{is_window, lies_at, RcStr};
use crate::span::spec_locate;
use vstd::prelude::*;
use vstd::utf8::*;

verus! {

/// A piece of a view's own text is derivable from the view.
///
/// Cut the bytes of `v` at `from` and at `to`. The piece between them begins
/// `from` bytes after `v` does. Found at that address, it is derivable from
/// `v`, wherever the buffer begins; and what is derived shows the bytes of
/// `v` from `from` to `to`, byte for byte.
pub proof fn law_own_piece_is_derivable(v: RcStr, base: int, from: int, to: int)
    requires
        v.wf(),
        0 <= from <= to <= v.spec_len(),
    ensures
        v.derivable(base, base + v.offset() + from, v.bytes().subrange(from, to)),
        spec_locate(base, v.buffer().len() as int, base + v.offset() + from) == Some(
            v.offset() + from,
        ),
        v.buffer().subrange(v.offset() + from, v.offset() + to) == v.bytes().subrange(from, to),
{
    let start = v.offset() as int;
    assert(v.buffer().subrange(start + from, start + to) =~= v.bytes().subrange(from, to));
}

/// The whole of a view and the empty pieces at its two ends are derivable
/// from it.
pub proof fn law_boundary_pieces_are_derivable(v: RcStr, base: int)
    requires
        v.wf(),
    ensures
        v.derivable(base, base + v.offset(), v.bytes()),
        v.derivable(base, base + v.offset(), Seq::<u8>::empty()),
        v.derivable(base, base + v.offset() + v.spec_len(), Seq::<u8>::empty()),
{
    let n = v.spec_len() as int;
    law_own_piece_is_derivable(v, base, 0, n);
    law_own_piece_is_derivable(v, base, 0, 0);
    law_own_piece_is_derivable(v, base, n, n);
    assert(v.bytes().subrange(0, n) =~= v.bytes());
    assert(v.bytes().subrange(0, 0) =~= Seq::<u8>::empty());
    assert(v.bytes().subrange(n, n) =~= Seq::<u8>::empty());
}

/// Empty text is derivable at the address of every byte of the buffer and at
/// the one just past its last byte, whether or not a character begins
/// there.
pub proof fn law_empty_text_is_derivable(v: RcStr, base: int, addr: int)
    requires
        base <= addr <= base + v.buffer().len(),
    ensures
        v.derivable(base, addr, Seq::<u8>::empty()),
{
    assert(v.buffer().subrange(addr - base, addr - base) =~= Seq::<u8>::empty());
}

/// A text that begins before the buffer, or more than one byte past its
/// end, is not derivable; nor is one whose bytes are not those of the
/// buffer at the place where it begins. What is left of foreign text is the
/// empty text at an address of the buffer.
pub proof fn law_foreign_text_is_rejected(v: RcStr, base: int, addr: int, bytes: Seq<u8>)
    requires
        addr < base || base + v.buffer().len() < addr || v.buffer().subrange(
            addr - base,
            addr - base + bytes.len(),
        ) != bytes,
    ensures
        !v.derivable(base, addr, bytes),
{
}

/// Views of one buffer derive alike: what is derivable from one of them is
/// derivable from the other, and a window of one is a window of the other.
/// So a view derived from a derived view is held to the same buffer as the
/// first.
pub proof fn law_views_of_one_buffer_derive_alike(
    v: RcStr,
    w: RcStr,
    base: int,
    addr: int,
    bytes: Seq<u8>,
)
    requires
        v.buffer() == w.buffer(),
    ensures
        v.derivable(base, addr, bytes) == w.derivable(base, addr, bytes),
        forall|start: int, len: int|
            is_window(v.buffer(), start, len) == is_window(w.buffer(), start, len),
        forall|start: int| lies_at(v.buffer(), start, bytes) == lies_at(w.buffer(), start, bytes),
{
}

/// The length of a view is the number of its bytes, and the number of bytes
/// that encode its text.
pub proof fn law_lengths_agree(v: RcStr)
    requires
        v.wf(),
    ensures
        v.spec_len() == v.bytes().len(),
        v.spec_len() == encode_utf8(v@).len(),
        v.bytes() == encode_utf8(v@),
{
    v.lemma_text();
}

} // verus!
