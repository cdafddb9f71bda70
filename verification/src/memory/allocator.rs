//! The arithmetic of a heap that only grows.

use vstd::prelude::*;

verus! {

/// The least multiple of `align` that is not below `pointer`.
pub open spec fn aligned_up(pointer: int, align: int) -> int {
    if pointer == (pointer / align) * align {
        pointer
    } else {
        (pointer / align) * align + align
    }
}

/// Where an allocation of `size` bytes with the alignment `align` lies on a
/// heap whose first free byte is at `heap_pointer`, and where the first free
/// byte lies behind it. `None` if the allocation would reach beyond the last
/// address.
pub fn bump(heap_pointer: usize, size: usize, align: usize) -> (r: Option<(usize, usize)>)
    requires
        align > 0,
    ensures
        match r {
            Some((address, next)) => {
                &&& address == aligned_up(heap_pointer as int, align as int)
                &&& next == address + size
                &&& address % align == 0
                &&& heap_pointer <= address < heap_pointer + align
            },
            None => aligned_up(heap_pointer as int, align as int) + size > usize::MAX,
        },
{
    let rest = heap_pointer % align;
    proof {
        vstd::arithmetic::div_mod::lemma_fundamental_div_mod(heap_pointer as int, align as int);
        assert((heap_pointer as int / align as int) * align == align * (heap_pointer as int
            / align as int)) by (nonlinear_arith);
        vstd::arithmetic::div_mod::lemma_mod_multiples_basic(
            heap_pointer as int / align as int,
            align as int,
        );
        vstd::arithmetic::div_mod::lemma_mod_multiples_basic(
            heap_pointer as int / align as int + 1,
            align as int,
        );
        assert((heap_pointer as int / align as int + 1) * align == (heap_pointer as int
            / align as int) * align + align) by (nonlinear_arith);
        assert(0 <= (heap_pointer as int / align as int) * align) by (nonlinear_arith)
            requires
                0 <= heap_pointer as int / align as int,
                0 < align,
        ;
    }
    let previous_aligned = heap_pointer - rest;
    let address = if rest == 0 {
        heap_pointer
    } else {
        match previous_aligned.checked_add(align) {
            Some(address) => address,
            None => {
                return None;
            },
        }
    };
    match address.checked_add(size) {
        Some(next) => Some((address, next)),
        None => None,
    }
}

} // verus!
