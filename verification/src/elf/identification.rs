//! The identification: the sixteen bytes that every ELF image starts with.

use vstd::prelude::*;
use crate::elf::endiannes::Endianness;
use crate::elf::{ElfError, ElfResult};

verus! {

/// Length of the identification in bytes.
pub const EI_NIDENT: usize = 16;

/// Index of the byte that tells the class.
pub const EI_CLASS: usize = 4;

/// Index of the byte that tells the byte order.
pub const EI_DATA: usize = 5;

/// Index of the byte that tells the version.
pub const EI_VERSION: usize = 6;

/// Whether an image is made for 32-bit or for 64-bit machines.
#[derive(Debug, Hash, PartialEq, Eq, Clone, Copy, Structural)]
pub enum Class {
    Class32,
    Class64,
}

/// Whether the sixteen bytes `ident` start with the magic number of ELF and
/// tell version 1.
pub open spec fn valid_identification(ident: Seq<u8>) -> bool {
    &&& ident[0] == 0x7f
    &&& ident[1] == 0x45
    &&& ident[2] == 0x4c
    &&& ident[3] == 0x46
    &&& ident[EI_VERSION as int] == 1
}

/// The class that the sixteen bytes `ident` tell.
pub open spec fn class_of(ident: Seq<u8>) -> ElfResult<Class> {
    if ident[EI_CLASS as int] == 1 {
        Ok(Class::Class32)
    } else if ident[EI_CLASS as int] == 2 {
        Ok(Class::Class64)
    } else {
        Err(ElfError::InvaildValue)
    }
}

/// The byte order that the sixteen bytes `ident` tell.
pub open spec fn endianness_of(ident: Seq<u8>) -> ElfResult<Endianness> {
    if ident[EI_DATA as int] == 1 {
        Ok(Endianness::LittleEndian)
    } else if ident[EI_DATA as int] == 2 {
        Ok(Endianness::BigEndian)
    } else {
        Err(ElfError::InvaildValue)
    }
}

/// The identification of an ELF image.
#[derive(Debug, Clone, Copy)]
pub struct Identification<'a> {
    bytes: &'a [u8],
}

impl<'a> View for Identification<'a> {
    type V = Seq<u8>;

    closed spec fn view(&self) -> Seq<u8> {
        self.bytes@
    }
}

impl<'a> Identification<'a> {
    /// The identification holds sixteen bytes.
    pub open spec fn wf(&self) -> bool {
        self@.len() == EI_NIDENT
    }

    /// Why `from_bytes` refuses `bytes`, if it does.
    pub open spec fn refusal(bytes: Seq<u8>) -> Option<ElfError> {
        if bytes.len() < EI_NIDENT {
            Some(ElfError::InvaildSize { minimal: EI_NIDENT, actual: bytes.len() as usize })
        } else {
            None
        }
    }

    /// Reads the identification from the first bytes of `bytes`.
    pub fn from_bytes(bytes: &'a [u8]) -> (r: ElfResult<Identification<'a>>)
        ensures
            match r {
                Ok(identification) => {
                    &&& Identification::refusal(bytes@) is None
                    &&& identification.wf()
                    &&& identification@ == bytes@.take(EI_NIDENT as int)
                },
                Err(e) => Identification::refusal(bytes@) == Some(e),
            },
    {
        if bytes.len() < EI_NIDENT {
            Err(ElfError::InvaildSize { minimal: EI_NIDENT, actual: bytes.len() })
        } else {
            Ok(Identification { bytes: vstd::slice::slice_subrange(bytes, 0, EI_NIDENT) })
        }
    }

    /// Whether the image starts with the magic number and tells version 1.
    pub fn is_valid(&self) -> (r: bool)
        requires
            self.wf(),
        ensures
            r == valid_identification(self@),
    {
        let magic = self.magic_number();
        magic[0] == 0x7f && magic[1] == 0x45 && magic[2] == 0x4c && magic[3] == 0x46
            && self.version() == 1
    }

    /// Whether the image is made for 32-bit or for 64-bit machines.
    pub fn class(&self) -> (r: ElfResult<Class>)
        requires
            self.wf(),
        ensures
            r == class_of(self@),
    {
        let byte = self.bytes[EI_CLASS];
        if byte == 1 {
            Ok(Class::Class32)
        } else if byte == 2 {
            Ok(Class::Class64)
        } else {
            Err(ElfError::InvaildValue)
        }
    }

    /// The byte order of the image.
    pub fn endiannes(&self) -> (r: ElfResult<Endianness>)
        requires
            self.wf(),
        ensures
            r == endianness_of(self@),
    {
        let byte = self.bytes[EI_DATA];
        if byte == 1 {
            Ok(Endianness::LittleEndian)
        } else if byte == 2 {
            Ok(Endianness::BigEndian)
        } else {
            Err(ElfError::InvaildValue)
        }
    }

    /// The version of ELF; 1 is the only one there is.
    pub fn version(&self) -> (r: u8)
        requires
            self.wf(),
        ensures
            r == self@[EI_VERSION as int],
    {
        self.bytes[EI_VERSION]
    }

    /// The first four bytes, where the magic number stands.
    pub fn magic_number(&self) -> (r: &'a [u8])
        requires
            self.wf(),
        ensures
            r@ == self@.take(4),
    {
        vstd::slice::slice_subrange(self.bytes, 0, 4)
    }
}

} // verus!
