//! Fixed-width integers as they are laid out in memory.

use vstd::prelude::*;

verus! {

/// The value of two bytes, the first one being the most significant.
pub open spec fn be_u16(b: Seq<u8>) -> int
    recommends
        b.len() == 2,
{
    b[0] as int * 0x100 + b[1] as int
}

/// The value of four bytes, the first one being the most significant.
pub open spec fn be_u32(b: Seq<u8>) -> int
    recommends
        b.len() == 4,
{
    b[0] as int * 0x100_0000 + b[1] as int * 0x1_0000 + b[2] as int * 0x100 + b[3] as int
}

/// The value of eight bytes, the first one being the most significant.
pub open spec fn be_u64(b: Seq<u8>) -> int
    recommends
        b.len() == 8,
{
    be_u32(b.subrange(0, 4)) * 0x1_0000_0000 + be_u32(b.subrange(4, 8))
}

/// The value of two bytes, the first one being the least significant.
pub open spec fn le_u16(b: Seq<u8>) -> int
    recommends
        b.len() == 2,
{
    b[1] as int * 0x100 + b[0] as int
}

/// The value of four bytes, the first one being the least significant.
pub open spec fn le_u32(b: Seq<u8>) -> int
    recommends
        b.len() == 4,
{
    b[3] as int * 0x100_0000 + b[2] as int * 0x1_0000 + b[1] as int * 0x100 + b[0] as int
}

/// The value of eight bytes, the first one being the least significant.
pub open spec fn le_u64(b: Seq<u8>) -> int
    recommends
        b.len() == 8,
{
    le_u32(b.subrange(4, 8)) * 0x1_0000_0000 + le_u32(b.subrange(0, 4))
}

/// Big-endian value of the two bytes of `bytes` that start at `at`.
pub fn read_be_u16(bytes: &[u8], at: usize) -> (r: u16)
    requires
        at + 2 <= bytes.len(),
    ensures
        r == be_u16(bytes@.subrange(at as int, at + 2)),
{
    let hi: u16 = bytes[at] as u16;
    let lo: u16 = bytes[at + 1] as u16;
    hi * 0x100 + lo
}

/// Big-endian value of the four bytes of `bytes` that start at `at`.
pub fn read_be_u32(bytes: &[u8], at: usize) -> (r: u32)
    requires
        at + 4 <= bytes.len(),
    ensures
        r == be_u32(bytes@.subrange(at as int, at + 4)),
{
    let b0: u32 = bytes[at] as u32;
    let b1: u32 = bytes[at + 1] as u32;
    let b2: u32 = bytes[at + 2] as u32;
    let b3: u32 = bytes[at + 3] as u32;
    b0 * 0x100_0000 + b1 * 0x1_0000 + b2 * 0x100 + b3
}

/// Big-endian value of the eight bytes of `bytes` that start at `at`.
pub fn read_be_u64(bytes: &[u8], at: usize) -> (r: u64)
    requires
        at + 8 <= bytes.len(),
    ensures
        r == be_u64(bytes@.subrange(at as int, at + 8)),
{
    let hi: u64 = read_be_u32(bytes, at) as u64;
    let lo: u64 = read_be_u32(bytes, at + 4) as u64;
    proof {
        let s = bytes@.subrange(at as int, at + 8);
        assert(s.subrange(0, 4) =~= bytes@.subrange(at as int, at + 4));
        assert(s.subrange(4, 8) =~= bytes@.subrange(at + 4, at + 8));
    }
    hi * 0x1_0000_0000 + lo
}

/// Little-endian value of the two bytes of `bytes` that start at `at`.
pub fn read_le_u16(bytes: &[u8], at: usize) -> (r: u16)
    requires
        at + 2 <= bytes.len(),
    ensures
        r == le_u16(bytes@.subrange(at as int, at + 2)),
{
    let lo: u16 = bytes[at] as u16;
    let hi: u16 = bytes[at + 1] as u16;
    hi * 0x100 + lo
}

/// Little-endian value of the four bytes of `bytes` that start at `at`.
pub fn read_le_u32(bytes: &[u8], at: usize) -> (r: u32)
    requires
        at + 4 <= bytes.len(),
    ensures
        r == le_u32(bytes@.subrange(at as int, at + 4)),
{
    let b0: u32 = bytes[at] as u32;
    let b1: u32 = bytes[at + 1] as u32;
    let b2: u32 = bytes[at + 2] as u32;
    let b3: u32 = bytes[at + 3] as u32;
    b3 * 0x100_0000 + b2 * 0x1_0000 + b1 * 0x100 + b0
}

/// Little-endian value of the eight bytes of `bytes` that start at `at`.
pub fn read_le_u64(bytes: &[u8], at: usize) -> (r: u64)
    requires
        at + 8 <= bytes.len(),
    ensures
        r == le_u64(bytes@.subrange(at as int, at + 8)),
{
    let lo: u64 = read_le_u32(bytes, at) as u64;
    let hi: u64 = read_le_u32(bytes, at + 4) as u64;
    proof {
        let s = bytes@.subrange(at as int, at + 8);
        assert(s.subrange(0, 4) =~= bytes@.subrange(at as int, at + 4));
        assert(s.subrange(4, 8) =~= bytes@.subrange(at + 4, at + 8));
    }
    hi * 0x1_0000_0000 + lo
}

/// `v` cut down to the bits that a `usize` holds.
pub open spec fn to_usize(v: int) -> usize {
    (v % (usize::MAX + 1)) as usize
}

/// Cuts `v` down to the bits that a `usize` holds.
pub fn truncate_to_usize(v: u64) -> (r: usize)
    ensures
        r == to_usize(v as int),
        v <= usize::MAX ==> r == v,
{
    if v <= usize::MAX as u64 {
        proof {
            vstd::arithmetic::div_mod::lemma_small_mod(v as nat, (usize::MAX + 1) as nat);
        }
        v as usize
    } else {
        (v % (usize::MAX as u64 + 1)) as usize
    }
}

} // verus!
