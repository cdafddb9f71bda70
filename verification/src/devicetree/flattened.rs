//! The blob as a whole: its header, its structure block and its strings.

use vstd::prelude::*;
use vstd::string::StringSliceAdditionalSpecFns;
use crate::devicetree::cells::{
    cell, cell_count, cell_span, count_cells, read_cell, read_string, string_at, FDT_BEGIN_NODE,
    FDT_END,
};
use crate::devicetree::error::DeviceTreeError;
use crate::devicetree::node::{node_of, CellSizes, NodeModel, NodeRef};

verus! {

/// Bytes that the header takes at the start of the blob.
pub const FDT_HEADER_SIZE: usize = 40;

/// The header of a devicetree blob, in host byte order.
#[derive(Debug, Clone, Copy, PartialEq, Eq, Structural)]
pub struct FdtHeader {
    pub magic: u32,
    pub totalsize: u32,
    pub off_dt_struct: u32,
    pub off_dt_strings: u32,
    pub off_mem_rsvmap: u32,
    pub version: u32,
    pub last_comp_version: u32,
    pub boot_cpuid_phys: u32,
    pub size_dt_strings: u32,
    pub size_dt_struct: u32,
}

/// The header under its longer name.
pub type DeviceTreeHeader = FdtHeader;

/// The header that the first bytes of `blob` hold; `None` if the blob is
/// shorter than a header.
pub open spec fn header_of(blob: Seq<u8>) -> Option<FdtHeader> {
    if blob.len() < FDT_HEADER_SIZE {
        None
    } else {
        Some(
            FdtHeader {
                magic: cell(blob, 0) as u32,
                totalsize: cell(blob, 1) as u32,
                off_dt_struct: cell(blob, 2) as u32,
                off_dt_strings: cell(blob, 3) as u32,
                off_mem_rsvmap: cell(blob, 4) as u32,
                version: cell(blob, 5) as u32,
                last_comp_version: cell(blob, 6) as u32,
                boot_cpuid_phys: cell(blob, 7) as u32,
                size_dt_strings: cell(blob, 8) as u32,
                size_dt_struct: cell(blob, 9) as u32,
            },
        )
    }
}

impl FdtHeader {
    /// The number that every devicetree blob starts with.
    pub const MAGIC_NUMBER: u32 = 0xd00dfeed;

    /// The version of the blob format that this reader is written for.
    pub const SUPPORTED_VERSION: u32 = 17;

    /// Reads the header from the first bytes of `blob`.
    pub fn parse(blob: &[u8]) -> (r: Option<FdtHeader>)
        ensures
            r == header_of(blob@),
    {
        if blob.len() < FDT_HEADER_SIZE {
            return None;
        }
        Some(
            FdtHeader {
                magic: read_cell(blob, 0),
                totalsize: read_cell(blob, 1),
                off_dt_struct: read_cell(blob, 2),
                off_dt_strings: read_cell(blob, 3),
                off_mem_rsvmap: read_cell(blob, 4),
                version: read_cell(blob, 5),
                last_comp_version: read_cell(blob, 6),
                boot_cpuid_phys: read_cell(blob, 7),
                size_dt_strings: read_cell(blob, 8),
                size_dt_struct: read_cell(blob, 9),
            },
        )
    }

    /// Magic number, in host byte order.
    pub fn magic(&self) -> (r: u32)
        ensures
            r == self.magic,
    {
        self.magic
    }

    /// Whether the magic number is that of a devicetree.
    pub fn is_correct(&self) -> (r: bool)
        ensures
            r == (self.magic == FdtHeader::MAGIC_NUMBER),
    {
        self.magic() == FdtHeader::MAGIC_NUMBER
    }

    /// Version of the blob format.
    pub fn version(&self) -> (r: u32)
        ensures
            r == self.version,
    {
        self.version
    }

    /// Offset of the structure block from the start of the blob.
    pub fn off_dt_struct(&self) -> (r: u32)
        ensures
            r == self.off_dt_struct,
    {
        self.off_dt_struct
    }

    /// Offset of the strings block from the start of the blob.
    pub fn off_dt_strings(&self) -> (r: u32)
        ensures
            r == self.off_dt_strings,
    {
        self.off_dt_strings
    }

    /// Offset of the memory reservation block from the start of the blob.
    pub fn off_mem_rsvmap(&self) -> (r: u32)
        ensures
            r == self.off_mem_rsvmap,
    {
        self.off_mem_rsvmap
    }

    /// Size of the structure block in bytes.
    pub fn size_dt_struct(&self) -> (r: u32)
        ensures
            r == self.size_dt_struct,
    {
        self.size_dt_struct
    }

    /// Size of the strings block in bytes.
    pub fn size_dt_strings(&self) -> (r: u32)
        ensures
            r == self.size_dt_strings,
    {
        self.size_dt_strings
    }

    /// What `check` gives for this header.
    pub open spec fn checked(self) -> Result<(), DeviceTreeError> {
        if self.magic != FdtHeader::MAGIC_NUMBER {
            Err(
                DeviceTreeError::InvaildMagicNumber {
                    provided: self.magic,
                    expected: FdtHeader::MAGIC_NUMBER,
                },
            )
        } else if self.version != FdtHeader::SUPPORTED_VERSION {
            Err(
                DeviceTreeError::UnsupportedVersion {
                    provided: self.version,
                    expected: FdtHeader::SUPPORTED_VERSION,
                },
            )
        } else {
            Ok(())
        }
    }

    /// Checks the magic number, and then the version.
    pub fn check(&self) -> (r: Result<(), DeviceTreeError>)
        ensures
            r == self.checked(),
    {
        if self.magic != FdtHeader::MAGIC_NUMBER {
            Err(
                DeviceTreeError::InvaildMagicNumber {
                    provided: self.magic,
                    expected: FdtHeader::MAGIC_NUMBER,
                },
            )
        } else if self.version != FdtHeader::SUPPORTED_VERSION {
            Err(
                DeviceTreeError::UnsupportedVersion {
                    provided: self.version,
                    expected: FdtHeader::SUPPORTED_VERSION,
                },
            )
        } else {
            Ok(())
        }
    }
}

/// What a flattened devicetree is made of.
pub struct TreeModel {
    pub header: FdtHeader,
    pub structure: Seq<u8>,
    pub strings: Seq<u8>,
}

impl TreeModel {
    /// The structure block holds whole cells, at least two of them; it starts
    /// with a node and ends with the end token.
    pub open spec fn wf(self) -> bool {
        &&& self.structure.len() % 4 == 0
        &&& cell_count(self.structure) >= 2
        &&& cell(self.structure, 0) == FDT_BEGIN_NODE
        &&& cell(self.structure, cell_count(self.structure) - 1) == FDT_END
    }
}

/// The bytes of `blob` that the header gives as its block of whole cells at
/// `offset`, `size` bytes long.
pub open spec fn block(blob: Seq<u8>, offset: int, size: int) -> Seq<u8> {
    blob.subrange(offset, offset + size)
}

/// The tree that `blob` holds, or the reason why it holds none. The header
/// must be complete and start with the magic number; both blocks must lie
/// within the blob; and the structure block must be laid out as a tree.
pub open spec fn tree_of(blob: Seq<u8>) -> Result<TreeModel, DeviceTreeError> {
    match header_of(blob) {
        None => Err(DeviceTreeError::OutOfStructureBounds),
        Some(header) => {
            if header.magic != FdtHeader::MAGIC_NUMBER {
                Err(
                    DeviceTreeError::InvaildMagicNumber {
                        provided: header.magic,
                        expected: FdtHeader::MAGIC_NUMBER,
                    },
                )
            } else if header.off_dt_struct + header.size_dt_struct > blob.len()
                || header.off_dt_strings + header.size_dt_strings > blob.len() {
                Err(DeviceTreeError::OutOfStructureBounds)
            } else {
                let tree = TreeModel {
                    header,
                    structure: block(
                        blob,
                        header.off_dt_struct as int,
                        4 * (header.size_dt_struct as int / 4),
                    ),
                    strings: block(
                        blob,
                        header.off_dt_strings as int,
                        header.size_dt_strings as int,
                    ),
                };
                if tree.wf() {
                    Ok(tree)
                } else {
                    Err(DeviceTreeError::BytesParseError)
                }
            }
        },
    }
}

/// A devicetree blob, read in place.
#[derive(Debug, Clone, Copy)]
pub struct FlattenedDeviceTree<'dt> {
    header: FdtHeader,
    structure: &'dt [u8],
    strings: &'dt [u8],
}

impl<'dt> View for FlattenedDeviceTree<'dt> {
    type V = TreeModel;

    closed spec fn view(&self) -> TreeModel {
        TreeModel { header: self.header, structure: self.structure@, strings: self.strings@ }
    }
}

impl<'dt> FlattenedDeviceTree<'dt> {
    /// See `TreeModel::wf`.
    pub open spec fn wf(&self) -> bool {
        self@.wf()
    }

    /// Takes `blob` as a devicetree.
    pub fn from_bytes(blob: &'dt [u8]) -> (r: Result<FlattenedDeviceTree<'dt>, DeviceTreeError>)
        ensures
            match r {
                Ok(tree) => tree_of(blob@) == Ok::<TreeModel, DeviceTreeError>(tree@) && tree.wf(),
                Err(e) => tree_of(blob@) == Err::<TreeModel, DeviceTreeError>(e),
            },
    {
        let header = match FdtHeader::parse(blob) {
            Some(header) => header,
            None => {
                return Err(DeviceTreeError::OutOfStructureBounds);
            },
        };
        if !header.is_correct() {
            return Err(
                DeviceTreeError::InvaildMagicNumber {
                    provided: header.magic(),
                    expected: FdtHeader::MAGIC_NUMBER,
                },
            );
        }
        let len = blob.len() as u64;
        let structure_end = header.off_dt_struct() as u64 + header.size_dt_struct() as u64;
        let strings_end = header.off_dt_strings() as u64 + header.size_dt_strings() as u64;
        if structure_end > len || strings_end > len {
            return Err(DeviceTreeError::OutOfStructureBounds);
        }
        let structure_start = header.off_dt_struct() as usize;
        let structure_cells = (header.size_dt_struct() / 4) as usize;
        let structure = vstd::slice::slice_subrange(
            blob,
            structure_start,
            structure_start + 4 * structure_cells,
        );
        let strings = vstd::slice::slice_subrange(
            blob,
            header.off_dt_strings() as usize,
            strings_end as usize,
        );
        if structure_cells < 2 || read_cell(structure, 0) != FDT_BEGIN_NODE || read_cell(
            structure,
            structure_cells - 1,
        ) != FDT_END {
            return Err(DeviceTreeError::BytesParseError);
        }
        Ok(FlattenedDeviceTree { header, structure, strings })
    }

    /// The root node: the structure block without the token that ends it,
    /// read with the cell sizes that hold at the root.
    pub fn root(&self) -> (r: Result<NodeRef<'dt>, DeviceTreeError>)
        requires
            self.wf(),
        ensures
            match r {
                Ok(node) => node_of(
                    self@.strings,
                    cell_span(self@.structure, 0, cell_count(self@.structure) - 1),
                    CellSizes::at_root(),
                ) == Ok::<NodeModel, DeviceTreeError>(node@) && node.wf(),
                Err(e) => node_of(
                    self@.strings,
                    cell_span(self@.structure, 0, cell_count(self@.structure) - 1),
                    CellSizes::at_root(),
                ) == Err::<NodeModel, DeviceTreeError>(e),
            },
    {
        let count = count_cells(self.structure);
        let slice = vstd::slice::slice_subrange(self.structure, 0, 4 * (count - 1));
        assert(slice@.subrange(0, 4) =~= self.structure@.subrange(0, 4));
        NodeRef::from_slice(self.strings, slice, CellSizes::default())
    }

    /// The header of the blob.
    pub fn header(&self) -> (r: &FdtHeader)
        ensures
            *r == self@.header,
    {
        &self.header
    }

    /// The bytes of the structure block.
    pub fn structure(&self) -> (r: &'dt [u8])
        ensures
            r@ == self@.structure,
    {
        self.structure
    }

    /// The bytes of the strings block.
    pub fn strings(&self) -> (r: &'dt [u8])
        ensures
            r@ == self@.strings,
    {
        self.strings
    }

    /// The text of the strings block that starts at `offset`.
    pub fn string(&self, offset: usize) -> (r: Result<&'dt str, DeviceTreeError>)
        ensures
            match r {
                Ok(text) => string_at(self@.strings, offset as int) == Ok::<
                    Seq<u8>,
                    DeviceTreeError,
                >(text.spec_bytes()),
                Err(e) => string_at(self@.strings, offset as int) == Err::<
                    Seq<u8>,
                    DeviceTreeError,
                >(e),
            },
    {
        read_string(self.strings, offset)
    }
}

} // verus!
