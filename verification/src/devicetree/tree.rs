//! The blob as a token stream with a table of reserved memory.

use vstd::prelude::*;
use crate::bytes::{be_u64, read_be_u64};
use crate::devicetree::error::DeviceTreeError;
use crate::devicetree::flattened::{block, header_of, FdtHeader};
use crate::devicetree::node::{lemma_with_empty_prefix, lemma_with_prefix_push, with_prefix};
use crate::devicetree::tokenizer::{
    line_models, listing, DeviceTreeTokenizer, Line, LineModel, TokenizerModel,
};

verus! {

/// Bytes that an entry of the table of reserved memory takes.
pub const RESERVE_ENTRY_SIZE: usize = 16;

/// A range of memory that must not be used.
#[derive(Debug, Copy, Clone, PartialEq, Eq, Structural)]
pub struct ReserveEntry {
    pub address: u64,
    pub size: u64,
}

/// The entry that the sixteen bytes at `offset` of `blob` hold.
pub open spec fn entry_at(blob: Seq<u8>, offset: int) -> ReserveEntry {
    ReserveEntry {
        address: be_u64(blob.subrange(offset, offset + 8)) as u64,
        size: be_u64(blob.subrange(offset + 8, offset + 16)) as u64,
    }
}

/// The entries of the table of reserved memory that starts at `offset` of
/// `blob`, up to the entry of two zeros that ends the table. A table that
/// runs to the end of the blob without such an entry cannot be read.
pub open spec fn entries_from(blob: Seq<u8>, offset: int) -> Result<
    Seq<ReserveEntry>,
    DeviceTreeError,
>
    decreases blob.len() - offset,
{
    if offset < 0 || offset + RESERVE_ENTRY_SIZE > blob.len() {
        Err(DeviceTreeError::OutOfStructureBounds)
    } else if entry_at(blob, offset).address == 0 && entry_at(blob, offset).size == 0 {
        Ok(Seq::empty())
    } else {
        with_prefix(seq![entry_at(blob, offset)], entries_from(blob, offset + RESERVE_ENTRY_SIZE))
    }
}

/// Whether both blocks that `header` tells of lie within `len` bytes.
pub open spec fn blocks_within(header: FdtHeader, len: int) -> bool {
    &&& header.off_dt_struct + header.size_dt_struct <= len
    &&& header.off_dt_strings + header.size_dt_strings <= len
}

/// Why `blob` is refused, if it is: its header is cut short, tells another
/// magic number or another version, or tells of blocks beyond the blob.
pub open spec fn refusal(blob: Seq<u8>) -> Option<DeviceTreeError> {
    match header_of(blob) {
        None => Some(DeviceTreeError::OutOfStructureBounds),
        Some(header) => match header.checked() {
            Err(e) => Some(e),
            Ok(_) => if blocks_within(header, blob.len() as int) {
                None
            } else {
                Some(DeviceTreeError::OutOfStructureBounds)
            },
        },
    }
}

/// A devicetree blob of the supported version.
#[derive(Debug, Clone, Copy)]
pub struct DeviceTree<'a> {
    header: FdtHeader,
    blob: &'a [u8],
}

impl<'a> View for DeviceTree<'a> {
    type V = Seq<u8>;

    closed spec fn view(&self) -> Seq<u8> {
        self.blob@
    }
}

impl<'a> DeviceTree<'a> {
    /// The header of the blob.
    pub closed spec fn header_model(&self) -> FdtHeader {
        self.header
    }

    /// The header is that of the blob, and its blocks lie within the blob.
    pub open spec fn wf(&self) -> bool {
        &&& header_of(self@) == Some(self.header_model())
        &&& blocks_within(self.header_model(), self@.len() as int)
    }

    /// Takes `blob` as a devicetree, after a look at its magic number, its
    /// version and the places of its blocks.
    pub fn from_bytes(blob: &'a [u8]) -> (r: Result<DeviceTree<'a>, DeviceTreeError>)
        ensures
            match r {
                Ok(tree) => refusal(blob@) is None && tree.wf() && tree@ == blob@,
                Err(e) => refusal(blob@) == Some(e),
            },
    {
        let header = match FdtHeader::parse(blob) {
            Some(header) => header,
            None => {
                return Err(DeviceTreeError::OutOfStructureBounds);
            },
        };
        match header.check() {
            Err(e) => {
                return Err(e);
            },
            Ok(()) => {},
        }
        let len = blob.len() as u64;
        if header.off_dt_struct() as u64 + header.size_dt_struct() as u64 > len
            || header.off_dt_strings() as u64 + header.size_dt_strings() as u64 > len {
            return Err(DeviceTreeError::OutOfStructureBounds);
        }
        Ok(DeviceTree { header, blob })
    }

    /// The header of the blob.
    pub fn header(&self) -> (r: &FdtHeader)
        ensures
            *r == self.header_model(),
    {
        &self.header
    }

    /// The ranges of memory that the blob says must not be used.
    pub fn reserved_entries(&self) -> (r: Result<Vec<ReserveEntry>, DeviceTreeError>)
        ensures
            match r {
                Ok(entries) => entries_from(self@, self.header_model().off_mem_rsvmap as int)
                    == Ok::<Seq<ReserveEntry>, DeviceTreeError>(entries@),
                Err(e) => entries_from(self@, self.header_model().off_mem_rsvmap as int) == Err::<
                    Seq<ReserveEntry>,
                    DeviceTreeError,
                >(e),
            },
    {
        let len = self.blob.len();
        let start = self.header.off_mem_rsvmap();
        if start as u64 > len as u64 {
            return Err(DeviceTreeError::OutOfStructureBounds);
        }
        let mut offset: usize = start as usize;
        let mut entries: Vec<ReserveEntry> = Vec::new();
        proof {
            lemma_with_empty_prefix(entries_from(self.blob@, offset as int));
        }
        loop
            invariant
                offset <= len,
                len == self.blob@.len(),
                entries_from(self.blob@, self.header.off_mem_rsvmap as int) == with_prefix(
                    entries@,
                    entries_from(self.blob@, offset as int),
                ),
            decreases len - offset,
        {
            if len - offset < RESERVE_ENTRY_SIZE {
                return Err(DeviceTreeError::OutOfStructureBounds);
            }
            let address = read_be_u64(self.blob, offset);
            let size = read_be_u64(self.blob, offset + 8);
            if address == 0 && size == 0 {
                proof {
                    assert(entries@ + Seq::<ReserveEntry>::empty() =~= entries@);
                }
                return Ok(entries);
            }
            proof {
                lemma_with_prefix_push(
                    entries@,
                    ReserveEntry { address, size },
                    entries_from(self.blob@, offset + RESERVE_ENTRY_SIZE),
                );
            }
            entries.push(ReserveEntry { address, size });
            offset += RESERVE_ENTRY_SIZE;
        }
    }

    /// The state of a tokenizer at the start of the structure block.
    pub open spec fn start(&self) -> TokenizerModel {
        TokenizerModel {
            structure: block(
                self@,
                self.header_model().off_dt_struct as int,
                self.header_model().size_dt_struct as int,
            ),
            strings: block(
                self@,
                self.header_model().off_dt_strings as int,
                self.header_model().size_dt_strings as int,
            ),
            position: 0,
        }
    }

    /// The lines that a print of the tree is made of.
    pub fn print(&self) -> (r: Result<Vec<Line<'a>>, DeviceTreeError>)
        requires
            self.wf(),
        ensures
            match r {
                Ok(lines) => listing(self.start(), 0) == Ok::<Seq<LineModel>, DeviceTreeError>(
                    line_models(lines@),
                ),
                Err(e) => listing(self.start(), 0) == Err::<Seq<LineModel>, DeviceTreeError>(e),
            },
    {
        let mut tokenizer = self.tokenizer();
        tokenizer.walk()
    }

    /// A tokenizer at the start of the structure block.
    pub fn tokenizer(&self) -> (r: DeviceTreeTokenizer<'a>)
        requires
            self.wf(),
        ensures
            r.wf(),
            r@ == self.start(),
    {
        let len = self.blob.len();
        let structure_start = self.header.off_dt_struct() as usize;
        let strings_start = self.header.off_dt_strings() as usize;
        let structure = vstd::slice::slice_subrange(
            self.blob,
            structure_start,
            structure_start + self.header.size_dt_struct() as usize,
        );
        let strings = vstd::slice::slice_subrange(
            self.blob,
            strings_start,
            strings_start + self.header.size_dt_strings() as usize,
        );
        DeviceTreeTokenizer::new(structure, strings)
    }
}

} // verus!
