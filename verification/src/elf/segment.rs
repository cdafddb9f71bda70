//! The segments of an ELF image, as its program headers describe them.

use vstd::prelude::*;
use crate::bytes::{to_usize, truncate_to_usize};
use crate::elf::endiannes::Endianness;
use crate::elf::header::Header;
use crate::elf::identification::Class;

verus! {

/// What a segment is for.
#[derive(Debug, Clone, Copy, PartialEq, Eq, Structural)]
pub enum SegmentType {
    Unused,
    Load,
    Dynamic,
    Interpreter,
    Note,
    ProgramHeader,
    TLS,
    Other(u32),
}

/// What the number `id` says a segment is for.
pub open spec fn segment_type_of(id: u32) -> SegmentType {
    if id == 0 {
        SegmentType::Unused
    } else if id == 1 {
        SegmentType::Load
    } else if id == 2 {
        SegmentType::Dynamic
    } else if id == 3 {
        SegmentType::Interpreter
    } else if id == 4 {
        SegmentType::Note
    } else if id == 6 {
        SegmentType::ProgramHeader
    } else if id == 7 {
        SegmentType::TLS
    } else {
        SegmentType::Other(id)
    }
}

/// What may be done with the memory of a segment, as a set of bits.
#[derive(Debug, Clone, Copy, PartialEq, Eq, Structural)]
pub struct SegmentFlags {
    pub bits: u32,
}

impl SegmentFlags {
    /// The bit that allows execution.
    pub const EXECUTABLE: u32 = 0x1;

    /// The bit that allows writing.
    pub const WRITEABLE: u32 = 0x2;

    /// The bit that allows reading.
    pub const READABLE: u32 = 0x4;

    /// The flags with exactly the bits of `bits`, known or not.
    pub fn from_bits_retain(bits: u32) -> (r: SegmentFlags)
        ensures
            r.bits == bits,
    {
        SegmentFlags { bits }
    }

    /// Whether every bit of `bits` is set.
    pub open spec fn has(self, bits: u32) -> bool {
        self.bits & bits == bits
    }

    /// Whether every bit of `bits` is set.
    pub fn contains(&self, bits: u32) -> (r: bool)
        ensures
            r == self.has(bits),
    {
        self.bits & bits == bits
    }
}

/// Bytes of a program header that the methods of a segment read.
pub open spec fn program_header_size(class: Class) -> int {
    match class {
        Class::Class32 => 0x1c,
        Class::Class64 => 0x28,
    }
}

/// A segment of an ELF image.
pub struct Segment<'a> {
    segment_data: &'a [u8],
    data: &'a [u8],
    class: Class,
    endianness: Endianness,
}

impl<'a> Segment<'a> {
    /// The bytes of the program header of the segment.
    pub closed spec fn segment_data(&self) -> Seq<u8> {
        self.segment_data@
    }

    /// The bytes of the image behind the identification.
    pub closed spec fn image(&self) -> Seq<u8> {
        self.data@
    }

    /// The class of the image.
    pub closed spec fn class(&self) -> Class {
        self.class
    }

    /// The byte order of the image.
    pub closed spec fn endianness(&self) -> Endianness {
        self.endianness
    }

    /// The program header holds every field that is read.
    pub open spec fn wf(&self) -> bool {
        self.segment_data().len() >= program_header_size(self.class())
    }

    /// The program header holds the 32-bit field that stands at `loc_32` in
    /// a 32-bit image and at `loc_64` in a 64-bit image.
    pub open spec fn has_u32(&self, loc_32: int, loc_64: int) -> bool {
        match self.class() {
            Class::Class32 => loc_32 + 4 <= self.segment_data().len(),
            Class::Class64 => loc_64 + 4 <= self.segment_data().len(),
        }
    }

    /// The program header holds the field of the width of an address that
    /// stands at `loc_32` in a 32-bit image and at `loc_64` in a 64-bit
    /// image.
    pub open spec fn has_usize(&self, loc_32: int, loc_64: int) -> bool {
        match self.class() {
            Class::Class32 => loc_32 + 4 <= self.segment_data().len(),
            Class::Class64 => loc_64 + 8 <= self.segment_data().len(),
        }
    }

    /// Whether this is the segment with index `i` of the image with the
    /// header `header`: its program header is the one with index `i`, with
    /// the byte behind it.
    pub open spec fn is_segment_of(&self, header: Header<'a>, i: int) -> bool {
        &&& self.segment_data() == header.data().subrange(
            header.locations().loc(i),
            header.locations().loc(i + 1) + 1,
        )
        &&& self.image() == header.data()
        &&& self.class() == header.class()
        &&& self.endianness() == header.endianness()
    }

    /// The 32-bit field that stands at `loc_32` in a 32-bit image and at
    /// `loc_64` in a 64-bit image.
    pub open spec fn u32_at(&self, loc_32: int, loc_64: int) -> u32 {
        let loc = match self.class() {
            Class::Class32 => loc_32,
            Class::Class64 => loc_64,
        };
        self.endianness().value_u32(self.segment_data().subrange(loc, loc + 4)) as u32
    }

    /// The field of the width of an address that stands at `loc_32` in a
    /// 32-bit image and at `loc_64` in a 64-bit image, cut down to the bits
    /// of a `usize`.
    pub open spec fn usize_at(&self, loc_32: int, loc_64: int) -> usize {
        match self.class() {
            Class::Class32 => to_usize(
                self.endianness().value_u32(self.segment_data().subrange(loc_32, loc_32 + 4)),
            ),
            Class::Class64 => to_usize(
                self.endianness().value_u64(self.segment_data().subrange(loc_64, loc_64 + 8)),
            ),
        }
    }

    /// The flags that the program header holds.
    pub open spec fn flag_bits(&self) -> SegmentFlags {
        SegmentFlags { bits: self.u32_at(0x18, 0x04) }
    }

    /// Whether the bytes of the segment lie within the image.
    pub open spec fn data_readable(&self) -> bool {
        self.usize_at(0x04, 0x08) + self.usize_at(0x10, 0x20) <= self.image().len()
    }

    /// The segment whose program header `segment_data` holds, in the image
    /// with the bytes `data` behind its identification.
    pub fn from_bytes(
        segment_data: &'a [u8],
        data: &'a [u8],
        class: Class,
        endianness: Endianness,
    ) -> (r: Segment<'a>)
        ensures
            r.segment_data() == segment_data@,
            r.image() == data@,
            r.class() == class,
            r.endianness() == endianness,
    {
        Segment { segment_data, data, class, endianness }
    }

    /// Whether the program header holds every field that is read.
    pub fn is_complete(&self) -> (r: bool)
        ensures
            r == self.wf(),
    {
        match self.class {
            Class::Class32 => self.segment_data.len() >= 0x1c,
            Class::Class64 => self.segment_data.len() >= 0x28,
        }
    }

    /// Whether the program header holds the 32-bit field that stands at
    /// `loc_32` in a 32-bit image and at `loc_64` in a 64-bit image.
    pub fn holds_u32(&self, loc_32: usize, loc_64: usize) -> (r: bool)
        ensures
            r == self.has_u32(loc_32 as int, loc_64 as int),
    {
        let len = self.segment_data.len();
        let loc = match self.class {
            Class::Class32 => loc_32,
            Class::Class64 => loc_64,
        };
        loc <= len && len - loc >= 4
    }

    /// Whether the program header holds the field of the width of an
    /// address that stands at `loc_32` in a 32-bit image and at `loc_64` in
    /// a 64-bit image.
    pub fn holds_usize(&self, loc_32: usize, loc_64: usize) -> (r: bool)
        ensures
            r == self.has_usize(loc_32 as int, loc_64 as int),
    {
        let len = self.segment_data.len();
        match self.class {
            Class::Class32 => loc_32 <= len && len - loc_32 >= 4,
            Class::Class64 => loc_64 <= len && len - loc_64 >= 8,
        }
    }

    /// What the segment is for.
    pub fn segment_type(&self) -> (r: SegmentType)
        requires
            self.has_u32(0, 0),
        ensures
            r == segment_type_of(self.u32_at(0, 0)),
    {
        let id = self.read_u32(0, 0);
        if id == 0 {
            SegmentType::Unused
        } else if id == 1 {
            SegmentType::Load
        } else if id == 2 {
            SegmentType::Dynamic
        } else if id == 3 {
            SegmentType::Interpreter
        } else if id == 4 {
            SegmentType::Note
        } else if id == 6 {
            SegmentType::ProgramHeader
        } else if id == 7 {
            SegmentType::TLS
        } else {
            SegmentType::Other(id)
        }
    }

    /// The address of the segment in virtual memory.
    pub fn vaddr(&self) -> (r: usize)
        requires
            self.has_usize(0x08, 0x10),
        ensures
            r == self.usize_at(0x08, 0x10),
    {
        self.read_usize(0x08, 0x10)
    }

    /// The address of the segment in physical memory.
    pub fn paddr(&self) -> (r: usize)
        requires
            self.has_usize(0x0c, 0x18),
        ensures
            r == self.usize_at(0x0c, 0x18),
    {
        self.read_usize(0x0c, 0x18)
    }

    /// The size of the segment in memory.
    pub fn memory_size(&self) -> (r: usize)
        requires
            self.has_usize(0x14, 0x20),
        ensures
            r == self.usize_at(0x14, 0x20),
    {
        self.read_usize(0x14, 0x20)
    }

    /// Whether the segment may be executed.
    pub fn executable(&self) -> (r: bool)
        requires
            self.has_u32(0x18, 0x04),
        ensures
            r == self.flag_bits().has(SegmentFlags::EXECUTABLE),
    {
        self.flags().contains(SegmentFlags::EXECUTABLE)
    }

    /// Whether the segment may be written.
    pub fn writeable(&self) -> (r: bool)
        requires
            self.has_u32(0x18, 0x04),
        ensures
            r == self.flag_bits().has(SegmentFlags::WRITEABLE),
    {
        self.flags().contains(SegmentFlags::WRITEABLE)
    }

    /// Whether the segment may be read.
    pub fn readable(&self) -> (r: bool)
        requires
            self.has_u32(0x18, 0x04),
        ensures
            r == self.flag_bits().has(SegmentFlags::READABLE),
    {
        self.flags().contains(SegmentFlags::READABLE)
    }

    /// Whether the bytes of the segment lie within the image.
    pub fn can_read_data(&self) -> (r: bool)
        requires
            self.has_usize(0x04, 0x08),
            self.has_usize(0x10, 0x20),
        ensures
            r == self.data_readable(),
    {
        let offset = self.read_usize(0x04, 0x08);
        let file_size = self.read_usize(0x10, 0x20);
        let len = self.data.len();
        offset <= len && file_size <= len - offset
    }

    /// The bytes of the segment.
    pub fn data(&self) -> (r: &'a [u8])
        requires
            self.has_usize(0x04, 0x08),
            self.has_usize(0x10, 0x20),
            self.data_readable(),
        ensures
            r@ == self.image().subrange(
                self.usize_at(0x04, 0x08) as int,
                self.usize_at(0x04, 0x08) + self.usize_at(0x10, 0x20),
            ),
    {
        let offset = self.read_usize(0x04, 0x08);
        let file_size = self.read_usize(0x10, 0x20);
        let len = self.data.len();
        vstd::slice::slice_subrange(self.data, offset, offset + file_size)
    }

    /// The flags of the segment.
    pub fn flags(&self) -> (r: SegmentFlags)
        requires
            self.has_u32(0x18, 0x04),
        ensures
            r == self.flag_bits(),
    {
        SegmentFlags::from_bits_retain(self.read_u32(0x18, 0x04))
    }

    /// The 32-bit field that stands at `loc_32` in a 32-bit image and at
    /// `loc_64` in a 64-bit image.
    pub fn read_u32(&self, loc_32: usize, loc_64: usize) -> (r: u32)
        requires
            self.has_u32(loc_32 as int, loc_64 as int),
        ensures
            r == self.u32_at(loc_32 as int, loc_64 as int),
    {
        let loc = match self.class {
            Class::Class32 => loc_32,
            Class::Class64 => loc_64,
        };
        self.endianness.read_u32_at(self.segment_data, loc)
    }

    /// The field of the width of an address that stands at `loc_32` in a
    /// 32-bit image and at `loc_64` in a 64-bit image.
    pub fn read_usize(&self, loc_32: usize, loc_64: usize) -> (r: usize)
        requires
            self.has_usize(loc_32 as int, loc_64 as int),
        ensures
            r == self.usize_at(loc_32 as int, loc_64 as int),
    {
        match self.class {
            Class::Class32 => truncate_to_usize(
                self.endianness.read_u32_at(self.segment_data, loc_32) as u64,
            ),
            Class::Class64 => truncate_to_usize(
                self.endianness.read_u64_at(self.segment_data, loc_64),
            ),
        }
    }
}

} // verus!
