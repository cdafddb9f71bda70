//! What holds of the cell sizes of nodes and of the reading of `reg`
//! properties.

use vstd::prelude::*;
use vstd::string::StringSliceAdditionalSpecFns;
use crate::bytes::be_u32;
use crate::devicetree::cells::{cell, cell_count, cell_span};
use crate::devicetree::error::DeviceTreeError;
use crate::devicetree::node::{
    child_span_at, children_from, children_of, find_child, find_child_from, find_property,
    first_child_at, lemma_child_span_at, lemma_property_at, node_of, properties_from, property_at,
    CellSizes, NodeModel, PropertyModel, Scan,
};
use crate::devicetree::value::{limbs_value, reg_of, u32_of};

verus! {

/// Whether `node` has no property called `name`.
pub open spec fn sets_nothing(node: NodeModel, name: Seq<u8>) -> bool {
    find_property(node.data, node.strings, name, 0) == Ok::<Option<Seq<u8>>, DeviceTreeError>(None)
}

/// Whether the first property of `node` called `name` holds the one cell
/// `value`.
pub open spec fn sets_cells(node: NodeModel, name: Seq<u8>, value: u32) -> bool {
    find_property(node.data, node.strings, name, 0) matches Ok(Some(cells)) && u32_of(cells) == Ok::<
        u32,
        DeviceTreeError,
    >(value)
}

/// Whether `child` is read from a span of the cells of `parent`, with the
/// cell sizes of `parent` handed down.
pub open spec fn read_under(parent: NodeModel, child: NodeModel) -> bool {
    exists|start: int, end: int|
        #[trigger] node_of(parent.strings, cell_span(parent.data, start, end), parent.cell_sizes)
            == Ok::<NodeModel, DeviceTreeError>(child)
}

/// A node has the cell sizes that it sets itself, and for the rest those
/// that are handed down to it.
pub proof fn lemma_cell_sizes_of_node(
    strings: Seq<u8>,
    slice: Seq<u8>,
    inherited: CellSizes,
    value: u32,
)
    requires
        node_of(strings, slice, inherited) is Ok,
    ensures
        ({
            let node = node_of(strings, slice, inherited)->Ok_0;
            &&& node.strings == strings
            &&& sets_nothing(node, "#address-cells".spec_bytes()) ==> node.cell_sizes.address
                == inherited.address
            &&& sets_nothing(node, "#size-cells".spec_bytes()) ==> node.cell_sizes.size
                == inherited.size
            &&& sets_cells(node, "#address-cells".spec_bytes(), value) ==> node.cell_sizes.address
                == value
            &&& sets_cells(node, "#size-cells".spec_bytes(), value) ==> node.cell_sizes.size
                == value
        }),
{
}

/// Every child that a scan finds is read under its parent.
pub proof fn lemma_children_from(parent: NodeModel, i: int)
    requires
        0 <= i,
        children_from(parent, i) is Ok,
    ensures
        forall|k: int|
            0 <= k < children_from(parent, i)->Ok_0.len() ==> read_under(
                parent,
                #[trigger] children_from(parent, i)->Ok_0[k],
            ),
    decreases cell_count(parent.data) - i,
{
    let kids = children_from(parent, i)->Ok_0;
    match child_span_at(parent.data, i, 0, i) {
        Scan::Found { item, next } => {
            lemma_child_span_at(parent.data, i, 0, i);
            let first = node_of(
                parent.strings,
                cell_span(parent.data, item.0, item.1),
                parent.cell_sizes,
            )->Ok_0;
            assert(read_under(parent, first));
            if next < cell_count(parent.data) {
                lemma_children_from(parent, next);
                let rest = children_from(parent, next)->Ok_0;
                assert(kids == seq![first] + rest);
                assert forall|k: int| 0 <= k < kids.len() implies read_under(
                    parent,
                    #[trigger] kids[k],
                ) by {
                    if k > 0 {
                        assert(kids[k] == rest[k - 1]);
                    }
                }
            }
        },
        _ => {},
    }
}

proof fn lemma_first_child_at(data: Seq<u8>, i: int)
    requires
        0 <= i,
    ensures
        first_child_at(data, i) matches Ok(at) ==> 0 <= at,
    decreases cell_count(data) - i,
{
    if i < cell_count(data) && cell(data, i) != crate::devicetree::cells::FDT_BEGIN_NODE {
        if cell(data, i) == crate::devicetree::cells::FDT_PROP {
            if i + 1 < cell_count(data) && i + 3 + crate::devicetree::cells::cells_for(
                cell(data, i + 1),
            ) < cell_count(data) {
                lemma_first_child_at(
                    data,
                    i + 3 + crate::devicetree::cells::cells_for(cell(data, i + 1)),
                );
            }
        } else {
            lemma_first_child_at(data, i + 1);
        }
    }
}

/// The cell sizes of a child. A child that sets no cell size of its own has
/// the cell sizes of its parent; one that sets a cell size has the one it
/// sets, whatever its parent has.
pub proof fn lemma_child_cell_sizes(parent: NodeModel, k: int, value: u32)
    requires
        children_of(parent) is Ok,
        0 <= k < children_of(parent)->Ok_0.len(),
    ensures
        ({
            let child = children_of(parent)->Ok_0[k];
            &&& sets_nothing(child, "#address-cells".spec_bytes()) ==> child.cell_sizes.address
                == parent.cell_sizes.address
            &&& sets_nothing(child, "#size-cells".spec_bytes()) ==> child.cell_sizes.size
                == parent.cell_sizes.size
            &&& sets_cells(child, "#address-cells".spec_bytes(), value) ==> child.cell_sizes.address
                == value
            &&& sets_cells(child, "#size-cells".spec_bytes(), value) ==> child.cell_sizes.size
                == value
        }),
{
    let at = first_child_at(parent.data, 0)->Ok_0;
    lemma_first_child_at(parent.data, 0);
    lemma_children_from(parent, at);
    let child = children_of(parent)->Ok_0[k];
    assert(read_under(parent, child));
    let (start, end) = choose|start: int, end: int|
        #[trigger] node_of(parent.strings, cell_span(parent.data, start, end), parent.cell_sizes)
            == Ok::<NodeModel, DeviceTreeError>(child);
    lemma_cell_sizes_of_node(
        parent.strings,
        cell_span(parent.data, start, end),
        parent.cell_sizes,
        value,
    );
}

/// The four bytes of the cell with the value `v`.
pub open spec fn cell_bytes(v: u32) -> Seq<u8> {
    seq![
        (v / 0x100_0000) as u8,
        (v / 0x1_0000 % 0x100) as u8,
        (v / 0x100 % 0x100) as u8,
        (v % 0x100) as u8,
    ]
}

/// The bytes of `v` written to `cells` cells, of which there are one or two.
pub open spec fn number_cells(v: u64, cells: u32) -> Seq<u8> {
    if cells == 1 {
        cell_bytes(v as u32)
    } else {
        cell_bytes((v / 0x1_0000_0000) as u32) + cell_bytes((v % 0x1_0000_0000) as u32)
    }
}

/// The cells of the `reg` property that tells `address` and `size` under
/// the cell sizes `sizes`.
pub open spec fn reg_cells(address: u64, size: u64, sizes: CellSizes) -> Seq<u8> {
    number_cells(address, sizes.address) + number_cells(size, sizes.size)
}

/// Whether `v` can be written to `cells` cells, of which there are one or
/// two.
pub open spec fn fits_cells(v: u64, cells: u32) -> bool {
    cells == 2 || (cells == 1 && v < 0x1_0000_0000)
}

/// A cell holds the value whose bytes were written to it.
pub proof fn lemma_cell_bytes(v: u32)
    ensures
        be_u32(cell_bytes(v)) == v,
        cell_bytes(v).len() == 4,
{
}

proof fn lemma_number_cells(v: u64, cells: u32)
    requires
        fits_cells(v, cells),
    ensures
        number_cells(v, cells).len() == 4 * cells,
        limbs_value(number_cells(v, cells)) == v,
{
    let b = number_cells(v, cells);
    if cells == 1 {
        lemma_cell_bytes(v as u32);
        assert(b.subrange(0, 4) =~= b);
        assert(cell_span(b, 0, 0).len() == 0);
        assert(limbs_value(cell_span(b, 0, 0)) == 0);
    } else {
        let hi = (v / 0x1_0000_0000) as u32;
        let lo = (v % 0x1_0000_0000) as u32;
        lemma_cell_bytes(hi);
        lemma_cell_bytes(lo);
        let front = cell_span(b, 0, 1);
        assert(front =~= cell_bytes(hi));
        assert(b.subrange(4, 8) =~= cell_bytes(lo));
        assert(front.subrange(0, 4) =~= front);
        assert(cell_span(front, 0, 0).len() == 0);
        assert(limbs_value(cell_span(front, 0, 0)) == 0);
        assert(limbs_value(front) == hi);
    }
}

/// Reading a `reg` property gives back the address and the size that were
/// written to it, for cell sizes of one or two cells and numbers that fit
/// them.
pub proof fn lemma_reg_round_trip(address: u64, size: u64, sizes: CellSizes)
    requires
        fits_cells(address, sizes.address),
        fits_cells(size, sizes.size),
    ensures
        reg_of(reg_cells(address, size, sizes), sizes) == Ok::<(u64, u64), DeviceTreeError>(
            (address, size),
        ),
{
    let cells = reg_cells(address, size, sizes);
    lemma_number_cells(address, sizes.address);
    lemma_number_cells(size, sizes.size);
    assert(cell_span(cells, 0, sizes.address as int) =~= number_cells(address, sizes.address));
    assert(cell_span(cells, sizes.address as int, sizes.address + sizes.size) =~= number_cells(
        size,
        sizes.size,
    ));
}

/// The cells of the first property of `properties` called `wanted`.
pub open spec fn first_named_property(properties: Seq<PropertyModel>, wanted: Seq<u8>) -> Option<
    Seq<u8>,
>
    decreases properties.len(),
{
    if properties.len() == 0 {
        None
    } else if properties[0].name == wanted {
        Some(properties[0].cells)
    } else {
        first_named_property(properties.drop_first(), wanted)
    }
}

/// The first node of `nodes` called `wanted`.
pub open spec fn first_named_node(nodes: Seq<NodeModel>, wanted: Seq<u8>) -> Option<NodeModel>
    decreases nodes.len(),
{
    if nodes.len() == 0 {
        None
    } else if nodes[0].name == wanted {
        Some(nodes[0])
    } else {
        first_named_node(nodes.drop_first(), wanted)
    }
}

/// Where all properties can be listed, looking one up by name gives the
/// first of the list that has the name.
pub proof fn lemma_property_is_first_match(
    data: Seq<u8>,
    strings: Seq<u8>,
    wanted: Seq<u8>,
    i: int,
)
    requires
        properties_from(data, strings, i) is Ok,
    ensures
        find_property(data, strings, wanted, i) == Ok::<Option<Seq<u8>>, DeviceTreeError>(
            first_named_property(properties_from(data, strings, i)->Ok_0, wanted),
        ),
    decreases cell_count(data) - i,
{
    let list = properties_from(data, strings, i)->Ok_0;
    match property_at(data, strings, i) {
        Scan::Found { item, next } => {
            lemma_property_at(data, strings, i);
            if next < cell_count(data) {
                let rest = properties_from(data, strings, next)->Ok_0;
                assert(list == seq![item] + rest);
                assert(list.drop_first() =~= rest);
                lemma_property_is_first_match(data, strings, wanted, next);
            } else {
                assert(list.drop_first() =~= Seq::<PropertyModel>::empty());
            }
        },
        _ => {},
    }
}

proof fn lemma_child_from_is_first_match(parent: NodeModel, wanted: Seq<u8>, i: int)
    requires
        children_from(parent, i) is Ok,
    ensures
        find_child_from(parent, wanted, i) == Ok::<Option<NodeModel>, DeviceTreeError>(
            first_named_node(children_from(parent, i)->Ok_0, wanted),
        ),
    decreases cell_count(parent.data) - i,
{
    let list = children_from(parent, i)->Ok_0;
    match child_span_at(parent.data, i, 0, i) {
        Scan::Found { item, next } => {
            let first = node_of(
                parent.strings,
                cell_span(parent.data, item.0, item.1),
                parent.cell_sizes,
            )->Ok_0;
            if i < next < cell_count(parent.data) {
                let rest = children_from(parent, next)->Ok_0;
                assert(list == seq![first] + rest);
                assert(list[0] == first);
                assert(list.drop_first() =~= rest);
                lemma_child_from_is_first_match(parent, wanted, next);
            } else {
                assert(list == seq![first]);
                assert(list[0] == first);
                assert(list.drop_first() =~= Seq::<NodeModel>::empty());
                assert(first_named_node(list.drop_first(), wanted) is None);
            }
        },
        Scan::Done => {
            assert(list =~= Seq::<NodeModel>::empty());
        },
        Scan::Failed(e) => {},
    }
}

/// Where all children can be listed, looking one up by name gives the first
/// of the list that has the name.
pub proof fn lemma_child_is_first_match(parent: NodeModel, wanted: Seq<u8>)
    requires
        children_of(parent) is Ok,
    ensures
        find_child(parent, wanted) == Ok::<Option<NodeModel>, DeviceTreeError>(
            first_named_node(children_of(parent)->Ok_0, wanted),
        ),
{
    lemma_child_from_is_first_match(parent, wanted, first_child_at(parent.data, 0)->Ok_0);
}

} // verus!
