//! Where an address lies in a range of addresses.
use vstd::prelude::*;

verus! {

/// The offset of `addr` in the `len` bytes that start at `base`, if it is
/// one: the first byte has offset 0, and the address one past the last byte
/// has offset `len`.
pub open spec fn spec_locate(base: int, len: int, addr: int) -> Option<int> {
    if base <= addr <= base + len {
        Some(addr - base)
    } else {
        None
    }
}

/// Finds `addr` in the `len` bytes that start at `base`.
pub fn locate(base: usize, len: usize, addr: usize) -> (r: Option<usize>)
    ensures
        match r {
            Some(offset) => spec_locate(base as int, len as int, addr as int) == Some(
                offset as int,
            ),
            None => spec_locate(base as int, len as int, addr as int) is None,
        },
{
    if addr < base {
        None
    } else if addr - base > len {
        None
    } else {
        Some(addr - base)
    }
}

} // verus!
