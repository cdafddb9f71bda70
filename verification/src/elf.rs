//! Reader for ELF images.

use vstd::prelude::*;
use crate::elf::header::Header;
use crate::elf::identification::{Identification, EI_NIDENT};
use crate::elf::segment::Segment;

pub mod endiannes;
pub mod header;
pub mod identification;
pub mod machine;
pub mod segment;

verus! {

/// Why bytes could not be read as an ELF image.
#[derive(Debug, Clone, Copy, PartialEq, Eq, Structural)]
pub enum ElfError {
    /// The bytes are `actual` long, and at least `minimal` are needed.
    InvaildSize { minimal: usize, actual: usize },
    /// A field holds a value that has no meaning.
    InvaildValue,
    /// The image does not start as an ELF image does.
    InvaildIdentification,
}

pub type ElfResult<T> = Result<T, ElfError>;

/// An ELF image: its identification and its header.
pub struct Elf<'a> {
    identification: Identification<'a>,
    header: Header<'a>,
}

impl<'a> Elf<'a> {
    /// The identification of the image.
    pub closed spec fn identification(&self) -> Identification<'a> {
        self.identification
    }

    /// The header of the image.
    pub closed spec fn header(&self) -> Header<'a> {
        self.header
    }

    /// Both parts are well formed.
    pub open spec fn wf(&self) -> bool {
        self.identification().wf() && self.header().wf()
    }

    /// What `from_bytes` gives for `bytes`, as far as it fails.
    pub open spec fn refusal(bytes: Seq<u8>) -> Option<ElfError> {
        match Identification::refusal(bytes) {
            Some(e) => Some(e),
            None => if !crate::elf::identification::valid_identification(bytes.take(EI_NIDENT as int)) {
                Some(ElfError::InvaildIdentification)
            } else {
                Header::refusal(bytes.skip(EI_NIDENT as int), bytes.take(EI_NIDENT as int))
            },
        }
    }

    /// Reads an ELF image from its bytes.
    pub fn from_bytes(bytes: &'a [u8]) -> (r: ElfResult<Elf<'a>>)
        ensures
            match r {
                Ok(elf) => {
                    &&& Elf::refusal(bytes@) is None
                    &&& elf.wf()
                    &&& elf.identification()@ == bytes@.take(EI_NIDENT as int)
                    &&& elf.header().data() == bytes@.skip(EI_NIDENT as int)
                    &&& elf.header().described_by(elf.identification()@)
                },
                Err(e) => Elf::refusal(bytes@) == Some(e),
            },
    {
        let identification = match Identification::from_bytes(bytes) {
            Ok(identification) => identification,
            Err(e) => {
                return Err(e);
            },
        };
        if !identification.is_valid() {
            return Err(ElfError::InvaildIdentification);
        }
        let rest = vstd::slice::slice_subrange(bytes, EI_NIDENT, bytes.len());
        assert(rest@ =~= bytes@.skip(EI_NIDENT as int));
        let header = match Header::from_bytes(rest, &identification) {
            Ok(header) => header,
            Err(e) => {
                return Err(e);
            },
        };
        Ok(Elf { identification, header })
    }

    /// The identification and the header of the image.
    pub fn parts(&self) -> (r: (&Identification<'a>, &Header<'a>))
        ensures
            *r.0 == self.identification(),
            *r.1 == self.header(),
    {
        (&self.identification, &self.header)
    }

    /// The segments of the image, in the order of the program header table.
    pub fn segments(&self) -> (r: Vec<Segment<'a>>)
        requires
            self.wf(),
            self.header().segments_readable(),
        ensures
            r@.len() == self.header().locations().num,
            forall|i: int|
                0 <= i < r@.len() ==> (#[trigger] r@[i]).is_segment_of(self.header(), i),
    {
        self.header.segments()
    }
}

} // verus!
