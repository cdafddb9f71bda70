//! Building the memory map from a devicetree.

use vstd::prelude::*;
use vstd::string::StringSliceAdditionalSpecFns;
use crate::devicetree::error::DeviceTreeError;
use crate::devicetree::flattened::FlattenedDeviceTree;
use crate::devicetree::iter::{named, named_nodes};
use crate::devicetree::node::{
    children_of, find_child, find_property, node_models, node_of, CellSizes, NodeModel, NodeRef,
};
use crate::devicetree::cells::{cell_count, cell_span};
use crate::devicetree::value::reg_of;
use crate::memory::map::{capped, map_of, MemoryMap};
use crate::memory::MemoryRange;

verus! {

/// The most memory nodes that are read.
pub const MAX_MEMORY_NODES: usize = 16;

/// The most children of the node of reserved memory that are read.
pub const MAX_RESERVED_NODES: usize = 15;

/// The range that a pair of address and size describes, if both fit an
/// address of this machine.
pub open spec fn range_of_reg(reg: (u64, u64)) -> Option<MemoryRange> {
    if reg.0 <= usize::MAX && reg.1 <= usize::MAX {
        Some(MemoryRange { address: reg.0 as usize, size: reg.1 as usize })
    } else {
        None
    }
}

/// The range that the property `reg` of `node` describes. A node without
/// the property describes none; a property that cannot be read is an error.
pub open spec fn node_range(node: NodeModel) -> Result<Option<MemoryRange>, DeviceTreeError> {
    match find_property(node.data, node.strings, "reg".spec_bytes(), 0) {
        Err(e) => Err(e),
        Ok(None) => Ok(None),
        Ok(Some(cells)) => match reg_of(cells, node.cell_sizes) {
            Err(e) => Err(e),
            Ok(reg) => Ok(range_of_reg(reg)),
        },
    }
}

/// The ranges that the nodes of `nodes` describe, in their order, or the
/// first error.
pub open spec fn ranges_of(nodes: Seq<NodeModel>) -> Result<Seq<MemoryRange>, DeviceTreeError>
    decreases nodes.len(),
{
    if nodes.len() == 0 {
        Ok(Seq::empty())
    } else {
        match ranges_of(nodes.drop_last()) {
            Err(e) => Err(e),
            Ok(ranges) => match node_range(nodes.last()) {
                Err(e) => Err(e),
                Ok(None) => Ok(ranges),
                Ok(Some(range)) => Ok(ranges.push(range)),
            },
        }
    }
}

/// The ranges of memory that `root` tells of: those of its first
/// `MAX_MEMORY_NODES` children called `memory`.
pub open spec fn available_in(root: NodeModel) -> Result<Seq<MemoryRange>, DeviceTreeError> {
    match children_of(root) {
        Err(e) => Err(e),
        Ok(children) => ranges_of(
            capped(named_nodes(children, "memory".spec_bytes()), MAX_MEMORY_NODES as int),
        ),
    }
}

/// The ranges that `root` reserves: those of the first `MAX_RESERVED_NODES`
/// children of its first child called `reserved-memory`.
pub open spec fn reserved_in(root: NodeModel) -> Result<Seq<MemoryRange>, DeviceTreeError> {
    match find_child(root, "reserved-memory".spec_bytes()) {
        Err(e) => Err(e),
        Ok(None) => Ok(Seq::empty()),
        Ok(Some(node)) => match children_of(node) {
            Err(e) => Err(e),
            Ok(children) => ranges_of(capped(children, MAX_RESERVED_NODES as int)),
        },
    }
}

/// The ranges of the memory map of a tree with the root `root`, for a kernel
/// whose own image lies in `kernel_area`: the memory that the tree tells of,
/// less the kernel's image and what the tree reserves.
pub open spec fn map_in(root: NodeModel, kernel_area: MemoryRange) -> Result<
    Seq<MemoryRange>,
    DeviceTreeError,
> {
    match available_in(root) {
        Err(e) => Err(e),
        Ok(available) => match reserved_in(root) {
            Err(e) => Err(e),
            Ok(reserved) => Ok(map_of(available, seq![kernel_area] + reserved)),
        },
    }
}

/// An error among the first nodes is the error of the whole.
proof fn lemma_ranges_of_error(nodes: Seq<NodeModel>, k: int)
    requires
        0 <= k <= nodes.len(),
        ranges_of(nodes.take(k)) is Err,
    ensures
        ranges_of(nodes) == ranges_of(nodes.take(k)),
    decreases nodes.len() - k,
{
    if k < nodes.len() {
        assert(nodes.take(k + 1).drop_last() =~= nodes.take(k));
        lemma_ranges_of_error(nodes, k + 1);
    } else {
        assert(nodes.take(k) =~= nodes);
    }
}

/// The range that the property `reg` of `node` describes.
pub fn read_range(node: &NodeRef) -> (r: Result<Option<MemoryRange>, DeviceTreeError>)
    requires
        node.wf(),
    ensures
        r == node_range(node@),
{
    let value = match node.property("reg") {
        Err(e) => {
            return Err(e);
        },
        Ok(None) => {
            return Ok(None);
        },
        Ok(Some(value)) => value,
    };
    match value.reg() {
        Err(e) => Err(e),
        Ok((address, size)) => {
            if address <= usize::MAX as u64 && size <= usize::MAX as u64 {
                Ok(Some(MemoryRange::from_address_and_size(address as usize, size as usize)))
            } else {
                Ok(None)
            }
        },
    }
}

/// The ranges that the first `limit` nodes of `nodes` describe.
pub fn read_ranges(nodes: &Vec<NodeRef>, limit: usize) -> (r: Result<
    Vec<MemoryRange>,
    DeviceTreeError,
>)
    requires
        forall|k: int| 0 <= k < nodes@.len() ==> (#[trigger] nodes@[k]).wf(),
    ensures
        match r {
            Ok(ranges) => ranges_of(capped(node_models(nodes@), limit as int)) == Ok::<
                Seq<MemoryRange>,
                DeviceTreeError,
            >(ranges@),
            Err(e) => ranges_of(capped(node_models(nodes@), limit as int)) == Err::<
                Seq<MemoryRange>,
                DeviceTreeError,
            >(e),
        },
{
    let count = if nodes.len() <= limit {
        nodes.len()
    } else {
        limit
    };
    let ghost models = capped(node_models(nodes@), limit as int);
    let mut ranges: Vec<MemoryRange> = Vec::new();
    let mut i: usize = 0;
    assert(models.take(0) =~= Seq::<NodeModel>::empty());
    while i < count
        invariant
            i <= count,
            count == models.len(),
            count <= nodes@.len(),
            models == capped(node_models(nodes@), limit as int),
            forall|k: int| 0 <= k < nodes@.len() ==> (#[trigger] nodes@[k]).wf(),
            forall|k: int| 0 <= k < count ==> models[k] == (#[trigger] nodes@[k])@,
            ranges_of(models.take(i as int)) == Ok::<Seq<MemoryRange>, DeviceTreeError>(ranges@),
        decreases count - i,
    {
        proof {
            assert(models.take(i + 1).drop_last() =~= models.take(i as int));
            assert(models.take(i + 1).last() == nodes@[i as int]@);
        }
        match read_range(&nodes[i]) {
            Err(e) => {
                proof {
                    assert(ranges_of(models.take(i + 1)) == Err::<
                        Seq<MemoryRange>,
                        DeviceTreeError,
                    >(e));
                    lemma_ranges_of_error(models, i + 1);
                }
                return Err(e);
            },
            Ok(None) => {},
            Ok(Some(range)) => {
                ranges.push(range);
            },
        }
        i += 1;
    }
    assert(models.take(i as int) =~= models);
    Ok(ranges)
}

impl MemoryMap {
    /// Builds the memory map from the devicetree `dt`, for a kernel whose
    /// own image lies in `kernel_area`.
    pub fn build_from_devicetree(dt: &FlattenedDeviceTree, kernel_area: MemoryRange) -> (r: Result<
        MemoryMap,
        DeviceTreeError,
    >)
        requires
            dt.wf(),
        ensures
            match r {
                Ok(map) => {
                    &&& map.wf()
                    &&& available_in(
                        node_of(
                            dt@.strings,
                            cell_span(dt@.structure, 0, cell_count(dt@.structure) - 1),
                            CellSizes::at_root(),
                        )->Ok_0,
                    ) matches Ok(available) && (crate::memory::map_laws::share_no_byte(available)
                        ==> map.ordered())
                    &&& node_of(
                        dt@.strings,
                        cell_span(dt@.structure, 0, cell_count(dt@.structure) - 1),
                        CellSizes::at_root(),
                    ) matches Ok(root)
                    &&& map_in(root, kernel_area) == Ok::<Seq<MemoryRange>, DeviceTreeError>(map@)
                },
                Err(e) => match node_of(
                    dt@.strings,
                    cell_span(dt@.structure, 0, cell_count(dt@.structure) - 1),
                    CellSizes::at_root(),
                ) {
                    Err(root_error) => e == root_error,
                    Ok(root) => map_in(root, kernel_area) == Err::<
                        Seq<MemoryRange>,
                        DeviceTreeError,
                    >(e),
                },
            },
    {
        let root = match dt.root() {
            Ok(root) => root,
            Err(e) => {
                return Err(e);
            },
        };
        let children = match root.children() {
            Ok(children) => children,
            Err(e) => {
                return Err(e);
            },
        };
        let memory_nodes = named(&children, "memory");
        let available = match read_ranges(&memory_nodes, MAX_MEMORY_NODES) {
            Ok(available) => available,
            Err(e) => {
                return Err(e);
            },
        };
        let mut reserved: Vec<MemoryRange> = Vec::new();
        reserved.push(kernel_area);
        match root.child("reserved-memory") {
            Err(e) => {
                return Err(e);
            },
            Ok(None) => {
                assert(reserved@ =~= seq![kernel_area] + Seq::<MemoryRange>::empty());
            },
            Ok(Some(node)) => {
                let reserved_nodes = match node.children() {
                    Ok(nodes) => nodes,
                    Err(e) => {
                        return Err(e);
                    },
                };
                let mut ranges = match read_ranges(&reserved_nodes, MAX_RESERVED_NODES) {
                    Ok(ranges) => ranges,
                    Err(e) => {
                        return Err(e);
                    },
                };
                let ghost tail = ranges@;
                reserved.append(&mut ranges);
                assert(reserved@ =~= seq![kernel_area] + tail);
            },
        }
        Ok(MemoryMap::from_ranges(available.as_slice(), reserved.as_slice()))
    }
}

} // verus!
