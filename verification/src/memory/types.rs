//! Physical addresses and address ranges.

use vstd::prelude::*;

verus! {

/// An address in physical memory.
#[derive(Copy, Clone, Debug, Hash, PartialEq, Eq, Structural, PartialOrd, Ord)]
pub struct PhysicalAddr(pub usize);

/// A run of `size` bytes of physical memory that starts at `addr`.
#[derive(Copy, Clone, Debug, Hash, PartialEq, Eq, Structural)]
pub struct PhysicalAddrRange {
    pub addr: PhysicalAddr,
    pub size: usize,
}

impl PhysicalAddrRange {
    /// The range that a devicetree `reg` pair of address and size describes.
    pub fn from_reg(reg: (usize, usize)) -> (r: PhysicalAddrRange)
        ensures
            r == (PhysicalAddrRange { addr: PhysicalAddr(reg.0), size: reg.1 }),
    {
        PhysicalAddrRange { addr: PhysicalAddr(reg.0), size: reg.1 }
    }

    /// The range from `start` to `end`, both included.
    pub fn from_start_end(start: PhysicalAddr, end: PhysicalAddr) -> (r: PhysicalAddrRange)
        requires
            start.0 <= end.0,
            end.0 - start.0 < usize::MAX,
        ensures
            r.addr == start,
            r.size == end.0 - start.0 + 1,
    {
        PhysicalAddrRange { addr: start, size: end.0 - start.0 + 1 }
    }

    pub fn start(&self) -> (r: PhysicalAddr)
        ensures
            r == self.addr,
    {
        self.addr
    }

    /// Address of the last byte of the range; for a range without bytes the
    /// address before its start.
    pub fn end(&self) -> (r: PhysicalAddr)
        requires
            0 <= self.addr.0 + self.size - 1 <= usize::MAX,
        ensures
            r.0 == self.addr.0 + self.size - 1,
    {
        if self.size == 0 {
            PhysicalAddr(self.addr.0 - 1)
        } else {
            PhysicalAddr(self.addr.0 + (self.size - 1))
        }
    }

    pub fn size(&self) -> (r: usize)
        ensures
            r == self.size,
    {
        self.size
    }
}

} // verus!
