//! Byte order of the multi-byte fields of an ELF image.

use vstd::prelude::*;
use crate::bytes::{be_u16, be_u32, be_u64, le_u16, le_u32, le_u64};
use crate::bytes::{read_be_u16, read_be_u32, read_be_u64, read_le_u16, read_le_u32, read_le_u64};

verus! {

/// The order in which the bytes of a multi-byte field are stored.
#[derive(Debug, Hash, PartialEq, Eq, Clone, Copy, Structural)]
pub enum Endianness {
    BigEndian,
    LittleEndian,
}

impl Endianness {
    /// The 16-bit value that two bytes stand for in this byte order.
    pub open spec fn value_u16(self, b: Seq<u8>) -> int {
        match self {
            Endianness::BigEndian => be_u16(b),
            Endianness::LittleEndian => le_u16(b),
        }
    }

    /// The 32-bit value that four bytes stand for in this byte order.
    pub open spec fn value_u32(self, b: Seq<u8>) -> int {
        match self {
            Endianness::BigEndian => be_u32(b),
            Endianness::LittleEndian => le_u32(b),
        }
    }

    /// The 64-bit value that eight bytes stand for in this byte order.
    pub open spec fn value_u64(self, b: Seq<u8>) -> int {
        match self {
            Endianness::BigEndian => be_u64(b),
            Endianness::LittleEndian => le_u64(b),
        }
    }

    /// Reads a 16-bit value from its two bytes.
    pub fn read_u16(&self, bytes: [u8; 2]) -> (r: u16)
        ensures
            r == self.value_u16(bytes@),
    {
        assert(bytes@.subrange(0, 2) =~= bytes@);
        match self {
            Endianness::BigEndian => read_be_u16(bytes.as_slice(), 0),
            Endianness::LittleEndian => read_le_u16(bytes.as_slice(), 0),
        }
    }

    /// Reads a 32-bit value from its four bytes.
    pub fn read_u32(&self, bytes: [u8; 4]) -> (r: u32)
        ensures
            r == self.value_u32(bytes@),
    {
        assert(bytes@.subrange(0, 4) =~= bytes@);
        match self {
            Endianness::BigEndian => read_be_u32(bytes.as_slice(), 0),
            Endianness::LittleEndian => read_le_u32(bytes.as_slice(), 0),
        }
    }

    /// Reads a 64-bit value from its eight bytes.
    pub fn read_u64(&self, bytes: [u8; 8]) -> (r: u64)
        ensures
            r == self.value_u64(bytes@),
    {
        assert(bytes@.subrange(0, 8) =~= bytes@);
        match self {
            Endianness::BigEndian => read_be_u64(bytes.as_slice(), 0),
            Endianness::LittleEndian => read_le_u64(bytes.as_slice(), 0),
        }
    }

    /// Reads the 16-bit value that starts at byte `at` of `bytes`.
    pub fn read_u16_at(&self, bytes: &[u8], at: usize) -> (r: u16)
        requires
            at + 2 <= bytes.len(),
        ensures
            r == self.value_u16(bytes@.subrange(at as int, at + 2)),
    {
        match self {
            Endianness::BigEndian => read_be_u16(bytes, at),
            Endianness::LittleEndian => read_le_u16(bytes, at),
        }
    }

    /// Reads the 32-bit value that starts at byte `at` of `bytes`.
    pub fn read_u32_at(&self, bytes: &[u8], at: usize) -> (r: u32)
        requires
            at + 4 <= bytes.len(),
        ensures
            r == self.value_u32(bytes@.subrange(at as int, at + 4)),
    {
        match self {
            Endianness::BigEndian => read_be_u32(bytes, at),
            Endianness::LittleEndian => read_le_u32(bytes, at),
        }
    }

    /// Reads the 64-bit value that starts at byte `at` of `bytes`.
    pub fn read_u64_at(&self, bytes: &[u8], at: usize) -> (r: u64)
        requires
            at + 8 <= bytes.len(),
        ensures
            r == self.value_u64(bytes@.subrange(at as int, at + 8)),
    {
        match self {
            Endianness::BigEndian => read_be_u64(bytes, at),
            Endianness::LittleEndian => read_le_u64(bytes, at),
        }
    }

    /// Reads the 16-bit value that starts at byte `at` of `bytes`, if two
    /// bytes are left there.
    pub fn checked_read_u16(&self, bytes: &[u8], at: usize) -> (r: Option<u16>)
        ensures
            r == if at + 2 <= bytes@.len() {
                Some(self.value_u16(bytes@.subrange(at as int, at + 2)) as u16)
            } else {
                None
            },
    {
        let len = bytes.len();
        if at > len || len - at < 2 {
            None
        } else {
            Some(self.read_u16_at(bytes, at))
        }
    }

    /// Reads the 32-bit value that starts at byte `at` of `bytes`, if four
    /// bytes are left there.
    pub fn checked_read_u32(&self, bytes: &[u8], at: usize) -> (r: Option<u32>)
        ensures
            r == if at + 4 <= bytes@.len() {
                Some(self.value_u32(bytes@.subrange(at as int, at + 4)) as u32)
            } else {
                None
            },
    {
        let len = bytes.len();
        if at > len || len - at < 4 {
            None
        } else {
            Some(self.read_u32_at(bytes, at))
        }
    }

    /// Reads the 64-bit value that starts at byte `at` of `bytes`, if eight
    /// bytes are left there.
    pub fn checked_read_u64(&self, bytes: &[u8], at: usize) -> (r: Option<u64>)
        ensures
            r == if at + 8 <= bytes@.len() {
                Some(self.value_u64(bytes@.subrange(at as int, at + 8)) as u64)
            } else {
                None
            },
    {
        let len = bytes.len();
        if at > len || len - at < 8 {
            None
        } else {
            Some(self.read_u64_at(bytes, at))
        }
    }
}

} // verus!
