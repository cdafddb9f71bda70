//! Physical memory: ranges, the memory map and the page allocator.

use vstd::prelude::*;

pub mod allocator;
pub mod builder;
pub mod map;
pub mod map_laws;
pub mod physical;
pub mod physical_laws;
pub mod types;

verus! {

/// Size in bytes of one page of physical memory.
pub const PAGE_SIZE: usize = 4096;

/// A run of `size` bytes of physical memory that starts at `address`.
#[derive(Clone, Copy, Debug, PartialEq, Eq, Structural)]
pub struct MemoryRange {
    pub address: usize,
    pub size: usize,
}

impl MemoryRange {
    /// A range is valid when it holds at least one byte and its last byte has
    /// an address.
    pub open spec fn valid(self) -> bool {
        self.size > 0 && self.address + self.size - 1 <= usize::MAX
    }

    /// Address of the first byte.
    pub open spec fn first(self) -> int {
        self.address as int
    }

    /// Address of the last byte.
    pub open spec fn last(self) -> int {
        self.address + self.size - 1
    }

    /// Whether the byte at `a` lies in the range.
    pub open spec fn contains(self, a: int) -> bool {
        self.first() <= a <= self.last()
    }

    /// Whether the two ranges share a byte.
    pub open spec fn overlaps(self, other: MemoryRange) -> bool {
        self.first() <= other.last() && other.first() <= self.last()
    }

    /// Whether every byte of the range lies in `other`.
    pub open spec fn within(self, other: MemoryRange) -> bool {
        other.first() <= self.first() && self.last() <= other.last()
    }

    /// The range of the bytes from `first` to `last`, both included.
    pub open spec fn spanning(first: int, last: int) -> MemoryRange {
        MemoryRange { address: first as usize, size: (last - first + 1) as usize }
    }

    /// Whether address and size are both multiples of `alignment`.
    pub open spec fn aligned_to(self, alignment: int) -> bool {
        self.address as int % alignment == 0 && self.size as int % alignment == 0
    }

    pub fn from_address_and_size(address: usize, size: usize) -> (r: MemoryRange)
        ensures
            r == (MemoryRange { address, size }),
    {
        MemoryRange { address, size }
    }

    /// The range from `start` to `end`, both included.
    pub fn from_start_and_end(start: usize, end: usize) -> (r: MemoryRange)
        requires
            start <= end,
            end - start < usize::MAX,
        ensures
            r == MemoryRange::spanning(start as int, end as int),
            r.valid(),
            r.first() == start,
            r.last() == end,
    {
        MemoryRange { address: start, size: end - start + 1 }
    }

    pub fn address(&self) -> (r: usize)
        ensures
            r == self.address,
    {
        self.address
    }

    /// Address of the last byte of the range; for a range without bytes the
    /// address before its start.
    pub fn end_address(&self) -> (r: usize)
        requires
            0 <= self.last() <= usize::MAX,
        ensures
            r == self.last(),
    {
        if self.size == 0 {
            self.address - 1
        } else {
            self.address + (self.size - 1)
        }
    }

    pub fn size(&self) -> (r: usize)
        ensures
            r == self.size,
    {
        self.size
    }

    /// The address that `aligned_subset` gives a range that starts at `address`.
    pub open spec fn aligned_address(address: int, alignment: int) -> int {
        if address % alignment != 0 {
            (address % alignment + 1) * alignment
        } else {
            address
        }
    }

    /// The size that `aligned_subset` gives a range of `size` bytes.
    pub open spec fn aligned_size(size: int, alignment: int) -> int {
        if size % alignment != 0 {
            (size % alignment) * alignment
        } else {
            size
        }
    }

    /// Moves address and size onto multiples of `alignment`: a value that is
    /// no multiple is replaced by a multiple derived from its remainder.
    pub fn aligned_subset(&self, alignment: usize) -> (r: MemoryRange)
        requires
            alignment > 0,
            MemoryRange::aligned_address(self.address as int, alignment as int) <= usize::MAX,
            MemoryRange::aligned_size(self.size as int, alignment as int) <= usize::MAX,
        ensures
            r.address == MemoryRange::aligned_address(self.address as int, alignment as int),
            r.size == MemoryRange::aligned_size(self.size as int, alignment as int),
            r.aligned_to(alignment as int),
    {
        let address = if self.address % alignment != 0 {
            ((self.address % alignment) + 1) * alignment
        } else {
            self.address
        };
        let size = if self.size % alignment != 0 {
            (self.size % alignment) * alignment
        } else {
            self.size
        };
        proof {
            let al = alignment as int;
            assert(forall|k: int| #[trigger] (k * al) % al == 0) by (nonlinear_arith)
                requires
                    al > 0,
            ;
            assert(((self.address as int % al + 1) * al) % al == 0);
            assert(((self.size as int % al) * al) % al == 0);
        }
        MemoryRange::from_address_and_size(address, size)
    }
}

impl From<(usize, usize)> for MemoryRange {
    fn from(pair: (usize, usize)) -> (r: MemoryRange) {
        MemoryRange::from_address_and_size(pair.0, pair.1)
    }
}

impl vstd::std_specs::convert::FromSpecImpl<(usize, usize)> for MemoryRange {
    open spec fn obeys_from_spec() -> bool {
        true
    }

    open spec fn from_spec(pair: (usize, usize)) -> MemoryRange {
        MemoryRange { address: pair.0, size: pair.1 }
    }
}

} // verus!
