//! The header of an ELF image: what stands behind the identification.

use vstd::prelude::*;
use crate::bytes::{to_usize, truncate_to_usize};
use crate::elf::endiannes::Endianness;
use crate::elf::identification::{class_of, endianness_of, Class, Identification, EI_NIDENT};
use crate::elf::machine::Machine;
use crate::elf::segment::Segment;
use crate::elf::{ElfError, ElfResult};

verus! {

/// What kind of file an image is.
#[derive(Debug, Clone, Copy, PartialEq, Eq, Structural)]
pub enum FileType {
    Relocatable,
    Executable,
    Shared,
    Core,
    Other(u16),
}

/// The kind of file that the number `id` stands for.
pub open spec fn file_type_of(id: u16) -> FileType {
    if id == 1 {
        FileType::Relocatable
    } else if id == 2 {
        FileType::Executable
    } else if id == 3 {
        FileType::Shared
    } else if id == 4 {
        FileType::Core
    } else {
        FileType::Other(id)
    }
}

/// Where the program headers lie, counted from the end of the
/// identification: `num` headers of `size` bytes from byte `offset` on.
#[derive(Debug, Clone, Copy, PartialEq, Eq, Structural)]
pub struct HeaderLocations {
    pub offset: usize,
    pub size: u16,
    pub num: u16,
}

impl HeaderLocations {
    /// Where the header with index `i` starts.
    pub open spec fn loc(self, i: int) -> int {
        self.offset + self.size * i
    }

    /// Where the header with index `i` starts.
    pub fn slice_loc(&self, i: u16) -> (r: usize)
        requires
            self.size * i <= u16::MAX,
            self.offset + self.size * i <= usize::MAX,
        ensures
            r == self.loc(i as int),
    {
        assert(self.size * i == (self.size as int) * (i as int));
        self.offset + (self.size * i) as usize
    }

    /// For each header its first byte and the byte behind its last.
    pub fn slices(self) -> (r: Vec<(usize, usize)>)
        requires
            self.size * self.num <= u16::MAX,
            self.offset + self.size * self.num <= usize::MAX,
        ensures
            r@.len() == self.num,
            forall|i: int|
                0 <= i < r@.len() ==> #[trigger] r@[i] == (
                    self.loc(i) as usize,
                    self.loc(i + 1) as usize,
                ),
    {
        let mut slices: Vec<(usize, usize)> = Vec::new();
        let mut i: u16 = 0;
        while i < self.num
            invariant
                i <= self.num,
                self.size * self.num <= u16::MAX,
                self.offset + self.size * self.num <= usize::MAX,
                slices@.len() == i,
                forall|k: int|
                    0 <= k < slices@.len() ==> #[trigger] slices@[k] == (
                        self.loc(k) as usize,
                        self.loc(k + 1) as usize,
                    ),
            decreases self.num - i,
        {
            proof {
                let s = self.size as int;
                let n = self.num as int;
                let j = i as int;
                assert(s * (j + 1) <= s * n && 0 <= s * j <= s * (j + 1)) by (nonlinear_arith)
                    requires
                        0 <= j < n,
                        0 <= s,
                ;
            }
            let from = self.slice_loc(i);
            let to = self.slice_loc(i + 1);
            slices.push((from, to));
            i += 1;
        }
        slices
    }
}

/// Bytes that the header takes behind the identification.
pub open spec fn header_size(class: Class) -> int {
    match class {
        Class::Class32 => 0x24,
        Class::Class64 => 0x30,
    }
}

/// Bytes that an address takes in an image of the given class.
pub open spec fn address_size(class: Class) -> int {
    match class {
        Class::Class32 => 4,
        Class::Class64 => 8,
    }
}

/// The header of an ELF image.
pub struct Header<'a> {
    class: Class,
    endianess: Endianness,
    header_data: &'a [u8],
    data: &'a [u8],
}

impl<'a> Header<'a> {
    /// The class of the image.
    pub closed spec fn class(&self) -> Class {
        self.class
    }

    /// The byte order of the image.
    pub closed spec fn endianness(&self) -> Endianness {
        self.endianess
    }

    /// The bytes of the image behind the identification.
    pub closed spec fn data(&self) -> Seq<u8> {
        self.data@
    }

    /// The bytes of the header.
    pub closed spec fn header_data(&self) -> Seq<u8> {
        self.header_data@
    }

    /// The header is as long as its class asks, and stands at the start of
    /// the bytes behind the identification.
    pub open spec fn wf(&self) -> bool {
        &&& self.data().len() >= header_size(self.class())
        &&& self.header_data() == self.data().take(header_size(self.class()))
    }

    /// Class and byte order are those that the identification `ident` tells.
    pub open spec fn described_by(&self, ident: Seq<u8>) -> bool {
        &&& class_of(ident) == Ok::<Class, ElfError>(self.class())
        &&& endianness_of(ident) == Ok::<Endianness, ElfError>(self.endianness())
    }

    /// Why `from_bytes` refuses `data` under the identification `ident`, if
    /// it does.
    pub open spec fn refusal(data: Seq<u8>, ident: Seq<u8>) -> Option<ElfError> {
        match class_of(ident) {
            Err(e) => Some(e),
            Ok(class) => if data.len() < header_size(class) {
                Some(
                    ElfError::InvaildSize {
                        minimal: header_size(class) as usize,
                        actual: data.len() as usize,
                    },
                )
            } else {
                match endianness_of(ident) {
                    Err(e) => Some(e),
                    Ok(_) => None,
                }
            },
        }
    }

    /// The 16-bit field at `offset`.
    pub open spec fn word_at(&self, offset: int) -> u16 {
        self.endianness().value_u16(self.header_data().subrange(offset, offset + 2)) as u16
    }

    /// The 32-bit field at `offset`.
    pub open spec fn dword_at(&self, offset: int) -> u32 {
        self.endianness().value_u32(self.header_data().subrange(offset, offset + 4)) as u32
    }

    /// The 64-bit field at `offset`.
    pub open spec fn qword_at(&self, offset: int) -> u64 {
        self.endianness().value_u64(self.header_data().subrange(offset, offset + 8)) as u64
    }

    /// The address at `offset`, cut down to the bits of a `usize`.
    pub open spec fn addr_at(&self, offset: int) -> usize {
        match self.class() {
            Class::Class32 => to_usize(self.dword_at(offset) as int),
            Class::Class64 => to_usize(self.qword_at(offset) as int),
        }
    }

    /// Where a field stands that has `bytes` bytes and `addr_fields`
    /// addresses before it.
    pub open spec fn field_offset(&self, bytes: int, addr_fields: int) -> int {
        bytes + address_size(self.class()) * addr_fields
    }

    /// Where the program headers lie. The image gives their place from its
    /// start; here it is counted from the end of the identification.
    pub open spec fn locations(&self) -> HeaderLocations {
        HeaderLocations {
            offset: (self.addr_at(self.field_offset(8, 1)) - EI_NIDENT) as usize,
            size: self.word_at(self.field_offset(14, 3)),
            num: self.word_at(self.field_offset(16, 3)),
        }
    }

    /// Whether the program header table can be read: it lies behind the
    /// identification and, with one byte more, within the image.
    pub open spec fn segments_readable(&self) -> bool {
        &&& self.addr_at(self.field_offset(8, 1)) >= EI_NIDENT
        &&& self.locations().num > 0 ==> {
            &&& self.locations().size * self.locations().num <= u16::MAX
            &&& self.locations().loc(self.locations().num as int) < self.data().len()
        }
    }

    /// Reads the header from `data`, the bytes behind the identification.
    pub fn from_bytes(data: &'a [u8], identification: &Identification) -> (r: ElfResult<Header<'a>>)
        requires
            identification.wf(),
        ensures
            match r {
                Ok(header) => {
                    &&& Header::refusal(data@, identification@) is None
                    &&& header.wf()
                    &&& header.data() == data@
                    &&& header.described_by(identification@)
                },
                Err(e) => Header::refusal(data@, identification@) == Some(e),
            },
    {
        let class = match identification.class() {
            Ok(class) => class,
            Err(e) => {
                return Err(e);
            },
        };
        let size = Header::size(class);
        if data.len() < size {
            return Err(ElfError::InvaildSize { minimal: size, actual: data.len() });
        }
        let endianess = match identification.endiannes() {
            Ok(endianess) => endianess,
            Err(e) => {
                return Err(e);
            },
        };
        let header_data = vstd::slice::slice_subrange(data, 0, size);
        Ok(Header { class, endianess, header_data, data })
    }

    /// What kind of file the image is.
    pub fn file_type(&self) -> (r: FileType)
        requires
            self.wf(),
        ensures
            r == file_type_of(self.word_at(0)),
    {
        let id = self.word(0);
        if id == 1 {
            FileType::Relocatable
        } else if id == 2 {
            FileType::Executable
        } else if id == 3 {
            FileType::Shared
        } else if id == 4 {
            FileType::Core
        } else {
            FileType::Other(id)
        }
    }

    /// The machine that the image is made for.
    pub fn machine(&self) -> (r: Machine)
        requires
            self.wf(),
        ensures
            r == Machine(self.word_at(2)),
    {
        Machine::from_id(self.word(2))
    }

    /// The version that the header tells.
    pub fn version(&self) -> (r: u32)
        requires
            self.wf(),
        ensures
            r == self.dword_at(4),
    {
        self.dword(4)
    }

    /// The address at which the image is entered; none if it is zero.
    pub fn entrypoint(&self) -> (r: Option<usize>)
        requires
            self.wf(),
        ensures
            r == if self.addr_at(8) == 0 {
                None
            } else {
                Some(self.addr_at(8))
            },
    {
        let entry = self.addr(8);
        if entry == 0 {
            None
        } else {
            Some(entry)
        }
    }

    /// Whether the program header table can be read.
    pub fn can_read_segments(&self) -> (r: bool)
        requires
            self.wf(),
        ensures
            r == self.segments_readable(),
    {
        let e_phoff = self.offset(8, 1);
        let e_phentsize = self.offset(14, 3);
        let e_phnum = self.offset(16, 3);
        let table = self.addr(e_phoff);
        if table < EI_NIDENT {
            return false;
        }
        let size = self.word(e_phentsize);
        let num = self.word(e_phnum);
        if num == 0 {
            return true;
        }
        assert(0 <= size as int * num as int <= 0xffff * 0xffff) by (nonlinear_arith)
            requires
                0 <= size <= 0xffff,
                0 <= num <= 0xffff,
        ;
        let bytes: u32 = size as u32 * num as u32;
        if bytes > 0xffff {
            return false;
        }
        let len = self.data.len();
        let offset = table - EI_NIDENT;
        offset < len && bytes as usize <= len - offset - 1
    }

    /// The segments of the image, in the order of the program header table.
    pub fn segments(&self) -> (r: Vec<Segment<'a>>)
        requires
            self.wf(),
            self.segments_readable(),
        ensures
            r@.len() == self.locations().num,
            forall|i: int| 0 <= i < r@.len() ==> (#[trigger] r@[i]).is_segment_of(*self, i),
    {
        let locations = self.segment_header_locations();
        let mut segments: Vec<Segment<'a>> = Vec::new();
        if locations.num == 0 {
            return segments;
        }
        let len = self.data.len();
        let slices = locations.slices();
        let mut i: usize = 0;
        while i < slices.len()
            invariant
                i <= slices@.len(),
                slices@.len() == locations.num,
                locations == self.locations(),
                locations.num > 0,
                locations.size * locations.num <= u16::MAX,
                locations.loc(locations.num as int) < self.data().len(),
                len == self.data@.len(),
                self.data() == self.data@,
                forall|k: int|
                    0 <= k < slices@.len() ==> #[trigger] slices@[k] == (
                        locations.loc(k) as usize,
                        locations.loc(k + 1) as usize,
                    ),
                segments@.len() == i,
                forall|k: int| 0 <= k < segments@.len() ==> (#[trigger] segments@[k]).is_segment_of(
                    *self,
                    k,
                ),
            decreases slices@.len() - i,
        {
            let (from, to) = slices[i];
            proof {
                let s = locations.size as int;
                let n = locations.num as int;
                let j = i as int;
                assert(s * (j + 1) <= s * n && 0 <= s * j <= s * (j + 1)) by (nonlinear_arith)
                    requires
                        0 <= j < n,
                        0 <= s,
                ;
                assert(slices@[i as int] == (
                    locations.loc(i as int) as usize,
                    locations.loc(i + 1) as usize,
                ));
                assert(0 <= locations.loc(i as int) <= locations.loc(i + 1) <= locations.loc(
                    locations.num as int,
                ));
            }
            let segment_data = vstd::slice::slice_subrange(self.data, from, to + 1);
            segments.push(Segment::from_bytes(segment_data, self.data, self.class, self.endianess));
            i += 1;
        }
        segments
    }

    /// Where the program headers lie.
    pub fn segment_header_locations(&self) -> (r: HeaderLocations)
        requires
            self.wf(),
            self.addr_at(self.field_offset(8, 1)) >= EI_NIDENT,
        ensures
            r == self.locations(),
    {
        let e_phoff = self.offset(8, 1);
        let e_phentsize = self.offset(14, 3);
        let e_phnum = self.offset(16, 3);
        HeaderLocations {
            offset: self.addr(e_phoff) - EI_NIDENT,
            size: self.word(e_phentsize),
            num: self.word(e_phnum),
        }
    }

    /// Bytes that the header takes behind the identification.
    pub fn size(class: Class) -> (r: usize)
        ensures
            r == header_size(class),
    {
        match class {
            Class::Class32 => 0x24,
            Class::Class64 => 0x30,
        }
    }

    /// The 16-bit field at `offset`.
    pub fn word(&self, offset: usize) -> (r: u16)
        requires
            offset + 2 <= self.header_data().len(),
        ensures
            r == self.word_at(offset as int),
    {
        self.endianess.read_u16_at(self.header_data, offset)
    }

    /// The 32-bit field at `offset`.
    pub fn dword(&self, offset: usize) -> (r: u32)
        requires
            offset + 4 <= self.header_data().len(),
        ensures
            r == self.dword_at(offset as int),
    {
        self.endianess.read_u32_at(self.header_data, offset)
    }

    /// The 64-bit field at `offset`.
    pub fn qword(&self, offset: usize) -> (r: u64)
        requires
            offset + 8 <= self.header_data().len(),
        ensures
            r == self.qword_at(offset as int),
    {
        self.endianess.read_u64_at(self.header_data, offset)
    }

    /// The address at `offset`.
    pub fn addr(&self, offset: usize) -> (r: usize)
        requires
            offset + address_size(self.class()) <= self.header_data().len(),
        ensures
            r == self.addr_at(offset as int),
    {
        match self.class {
            Class::Class32 => truncate_to_usize(self.dword(offset) as u64),
            Class::Class64 => truncate_to_usize(self.qword(offset)),
        }
    }

    /// Where a field stands that has `bytes` bytes and `addr_fields`
    /// addresses before it.
    pub fn offset(&self, bytes: usize, addr_fields: usize) -> (r: usize)
        requires
            bytes + 8 * addr_fields <= usize::MAX,
        ensures
            r == self.field_offset(bytes as int, addr_fields as int),
    {
        bytes + match self.class {
            Class::Class32 => 4,
            Class::Class64 => 8,
        } * addr_fields
    }
}

} // verus!
