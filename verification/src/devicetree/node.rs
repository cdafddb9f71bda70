//! Nodes of a devicetree.
//!
//! A node is a span of cells of the structure block. Its properties and its
//! children are found by scanning the span; nothing is kept between calls.

use vstd::prelude::*;
use vstd::utf8::valid_utf8;
use vstd::string::StringSliceAdditionalSpecFns;
use crate::devicetree::cells::{
    c_string, cell, cell_count, cell_span, cells_for, cells_holding, count_cells, find_byte,
    index_of, lemma_index_of, read_cell, read_string, same_bytes, string_at, utf8_text,
    FDT_BEGIN_NODE, FDT_END_NODE, FDT_PROP,
};
use crate::devicetree::error::DeviceTreeError;
use crate::devicetree::value::{u32_of, DeviceTreeValue};

verus! {

/// How many cells an address and a size take in the `reg` properties of a
/// node.
#[derive(Debug, Clone, Copy, PartialEq, Eq, Structural)]
pub struct CellSizes {
    pub address: u32,
    pub size: u32,
}

impl CellSizes {
    pub fn new(address: u32, size: u32) -> (r: CellSizes)
        ensures
            r == (CellSizes { address, size }),
    {
        CellSizes { address, size }
    }

    /// Cells of an address.
    pub fn address(&self) -> (r: u32)
        ensures
            r == self.address,
    {
        self.address
    }

    /// Cells of a size.
    pub fn size(&self) -> (r: u32)
        ensures
            r == self.size,
    {
        self.size
    }

    /// The cell sizes at the root: two cells of address, one of size.
    pub open spec fn at_root() -> CellSizes {
        CellSizes { address: 2, size: 1 }
    }
}

impl Default for CellSizes {
    fn default() -> (r: CellSizes)
        ensures
            r == CellSizes::at_root(),
    {
        CellSizes { address: 2, size: 1 }
    }
}

/// The byte that parts the name of a node from its unit address.
pub const UNIT_ADDRESS_MARK: u8 = 0x40;

/// What a scan of a span of cells comes upon first.
pub enum Scan<T> {
    /// Nothing: the span is at its end.
    Done,
    /// Something that cannot be read.
    Failed(DeviceTreeError),
    /// An item; the scan for the next one starts at cell `next`.
    Found { item: T, next: int },
}

/// A property as the blob holds it: the bytes of its name and the cells of
/// its value, which are the bytes of the value filled up to whole cells.
pub struct PropertyModel {
    pub name: Seq<u8>,
    pub cells: Seq<u8>,
}

/// A node as the blob holds it.
pub struct NodeModel {
    /// The strings block, where the names of the properties stand.
    pub strings: Seq<u8>,
    /// The name, without unit address.
    pub name: Seq<u8>,
    /// The unit address, where the name has one that is a decimal number.
    pub location: Option<usize>,
    /// The cells behind the name.
    pub data: Seq<u8>,
    /// The cell sizes in effect for the node.
    pub cell_sizes: CellSizes,
}

/// The number that the decimal digits `digits` spell.
pub open spec fn digits_value(digits: Seq<u8>) -> nat
    decreases digits.len(),
{
    if digits.len() == 0 {
        0
    } else {
        (digits_value(digits.drop_last()) * 10 + (digits.last() - 0x30)) as nat
    }
}

/// Whether every byte of `digits` is a decimal digit.
pub open spec fn all_digits(digits: Seq<u8>) -> bool {
    forall|i: int| 0 <= i < digits.len() ==> 0x30 <= #[trigger] digits[i] <= 0x39
}

/// The number that the decimal digits `digits` spell; `None` if there is no
/// digit, if a byte is no digit, or if the number is above the greatest
/// `usize`.
pub open spec fn number_of(digits: Seq<u8>) -> Option<usize> {
    if digits.len() == 0 || !all_digits(digits) || digits_value(digits) > usize::MAX {
        None
    } else {
        Some(digits_value(digits) as usize)
    }
}

/// The number that `text` spells in decimal digits, a plus sign in front
/// being allowed.
pub open spec fn decimal_of(text: Seq<u8>) -> Option<usize> {
    if text.len() > 0 && text[0] == 0x2b {
        number_of(text.skip(1))
    } else {
        number_of(text)
    }
}

/// The name of a node without its unit address: the bytes of `full` before
/// the first `@`.
pub open spec fn bare_name(full: Seq<u8>) -> Seq<u8> {
    full.take(index_of(full, UNIT_ADDRESS_MARK, 0))
}

/// The unit address of a node: the decimal number between the first `@` of
/// `full` and the next one, or the end.
pub open spec fn location_of(full: Seq<u8>) -> Option<usize> {
    let at = index_of(full, UNIT_ADDRESS_MARK, 0);
    if at >= full.len() {
        None
    } else {
        let rest = full.skip(at + 1);
        decimal_of(rest.take(index_of(rest, UNIT_ADDRESS_MARK, 0)))
    }
}

/// The first property at or behind cell `i` of `data`. Cells that open
/// nothing are passed over; the scan ends at the first child, at the end of
/// the cells, and at a property token with less than two cells behind it.
pub open spec fn property_at(data: Seq<u8>, strings: Seq<u8>, i: int) -> Scan<PropertyModel>
    decreases cell_count(data) - i,
{
    if i < 0 || i >= cell_count(data) {
        Scan::Done
    } else if cell(data, i) == FDT_PROP {
        if i + 2 >= cell_count(data) {
            Scan::Done
        } else {
            let len = cell(data, i + 1);
            match string_at(strings, cell(data, i + 2)) {
                Err(e) => Scan::Failed(e),
                Ok(name) => if i + 3 + cells_for(len) > cell_count(data) {
                    Scan::Failed(DeviceTreeError::OutOfStructureBounds)
                } else {
                    Scan::Found {
                        item: PropertyModel {
                            name,
                            cells: cell_span(data, i + 3, i + 3 + cells_for(len)),
                        },
                        next: i + 3 + cells_for(len),
                    }
                },
            }
        }
    } else if cell(data, i) == FDT_BEGIN_NODE {
        Scan::Done
    } else {
        property_at(data, strings, i + 1)
    }
}

/// A property that is found lies behind the cell where the scan began.
pub proof fn lemma_property_at(data: Seq<u8>, strings: Seq<u8>, i: int)
    ensures
        property_at(data, strings, i) matches Scan::Found { next, .. } ==> i < next,
    decreases cell_count(data) - i,
{
    if 0 <= i < cell_count(data) && cell(data, i) != FDT_PROP && cell(data, i) != FDT_BEGIN_NODE {
        lemma_property_at(data, strings, i + 1);
    }
}

/// The items of `prefix` in front of those of `rest`, if `rest` has any to
/// give.
pub open spec fn with_prefix<T>(prefix: Seq<T>, rest: Result<Seq<T>, DeviceTreeError>) -> Result<
    Seq<T>,
    DeviceTreeError,
> {
    match rest {
        Ok(items) => Ok(prefix + items),
        Err(e) => Err(e),
    }
}

/// The properties at or behind cell `i` of `data`, or the first error that
/// the scan meets.
pub open spec fn properties_from(data: Seq<u8>, strings: Seq<u8>, i: int) -> Result<
    Seq<PropertyModel>,
    DeviceTreeError,
>
    decreases cell_count(data) - i,
{
    match property_at(data, strings, i) {
        Scan::Done => Ok(Seq::empty()),
        Scan::Failed(e) => Err(e),
        Scan::Found { item, next } => {
            if next < cell_count(data) {
                proof {
                    lemma_property_at(data, strings, i);
                }
                with_prefix(seq![item], properties_from(data, strings, next))
            } else {
                Ok(seq![item])
            }
        },
    }
}

/// The cells of the first property at or behind cell `i` of `data` whose name
/// is `wanted`. Properties behind it are not looked at; `None` if the scan
/// ends without such a property, and an error if it meets one first.
pub open spec fn find_property(data: Seq<u8>, strings: Seq<u8>, wanted: Seq<u8>, i: int) -> Result<
    Option<Seq<u8>>,
    DeviceTreeError,
>
    decreases cell_count(data) - i,
{
    match property_at(data, strings, i) {
        Scan::Done => Ok(None),
        Scan::Failed(e) => Err(e),
        Scan::Found { item, next } => {
            if item.name == wanted {
                Ok(Some(item.cells))
            } else if next < cell_count(data) {
                proof {
                    lemma_property_at(data, strings, i);
                }
                find_property(data, strings, wanted, next)
            } else {
                Ok(None)
            }
        },
    }
}

/// The number of cells that the property `name` sets, or `default` where the
/// node has no such property.
pub open spec fn cells_of(data: Seq<u8>, strings: Seq<u8>, name: Seq<u8>, default: u32) -> Result<
    u32,
    DeviceTreeError,
> {
    match find_property(data, strings, name, 0) {
        Err(e) => Err(e),
        Ok(None) => Ok(default),
        Ok(Some(cells)) => u32_of(cells),
    }
}

/// The cell sizes in effect for a node with the cells `data`, whose parent
/// hands down `inherited`: what the node sets itself, and for the rest what
/// it inherits.
pub open spec fn cell_sizes_of(data: Seq<u8>, strings: Seq<u8>, inherited: CellSizes) -> Result<
    CellSizes,
    DeviceTreeError,
> {
    match cells_of(data, strings, "#address-cells".spec_bytes(), inherited.address) {
        Err(e) => Err(e),
        Ok(address) => match cells_of(data, strings, "#size-cells".spec_bytes(), inherited.size) {
            Err(e) => Err(e),
            Ok(size) => Ok(CellSizes { address, size }),
        },
    }
}

/// The node that the cells of `slice` hold: a token, the name with its
/// terminator, filled up to whole cells, and behind it the cells of the node.
pub open spec fn node_of(strings: Seq<u8>, slice: Seq<u8>, inherited: CellSizes) -> Result<
    NodeModel,
    DeviceTreeError,
> {
    match c_string(slice.skip(4), 0) {
        None => Err(DeviceTreeError::CStringConversionFail),
        Some(full) => {
            if !valid_utf8(full) {
                Err(DeviceTreeError::InvaildUTF8)
            } else {
                let data = slice.skip(4 * (full.len() as int / 4 + 2));
                match cell_sizes_of(data, strings, inherited) {
                    Err(e) => Err(e),
                    Ok(cell_sizes) => Ok(
                        NodeModel {
                            strings,
                            name: bare_name(full),
                            location: location_of(full),
                            data,
                            cell_sizes,
                        },
                    ),
                }
            }
        },
    }
}

proof fn lemma_digits_value_grows(digits: Seq<u8>, k: int)
    requires
        all_digits(digits),
        0 <= k <= digits.len(),
    ensures
        digits_value(digits.take(k)) <= digits_value(digits),
    decreases digits.len() - k,
{
    if k < digits.len() {
        lemma_digits_value_grows(digits, k + 1);
        assert(digits.take(k + 1).drop_last() =~= digits.take(k));
        assert(digits.take(k + 1).last() == digits[k]);
    } else {
        assert(digits.take(k) =~= digits);
    }
}

/// Reads a number from its decimal digits.
pub fn parse_digits(digits: &[u8]) -> (r: Option<usize>)
    ensures
        r == number_of(digits@),
{
    if digits.len() == 0 {
        return None;
    }
    let mut value: usize = 0;
    let mut k: usize = 0;
    while k < digits.len()
        invariant
            k <= digits@.len(),
            all_digits(digits@.take(k as int)),
            value == digits_value(digits@.take(k as int)),
        decreases digits@.len() - k,
    {
        let byte = digits[k];
        if byte < 0x30 || byte > 0x39 {
            return None;
        }
        proof {
            assert(digits@.take(k + 1).drop_last() =~= digits@.take(k as int));
            assert(digits@.take(k + 1).last() == byte);
            if all_digits(digits@) {
                lemma_digits_value_grows(digits@, k + 1);
            }
        }
        let shifted = match value.checked_mul(10) {
            Some(shifted) => shifted,
            None => {
                return None;
            },
        };
        value = match shifted.checked_add((byte - 0x30) as usize) {
            Some(sum) => sum,
            None => {
                return None;
            },
        };
        k += 1;
    }
    assert(digits@.take(k as int) =~= digits@);
    Some(value)
}

/// Reads a decimal number; a plus sign may stand in front.
pub fn parse_decimal(text: &[u8]) -> (r: Option<usize>)
    ensures
        r == decimal_of(text@),
{
    if text.len() > 0 && text[0] == 0x2b {
        parse_digits(vstd::slice::slice_subrange(text, 1, text.len()))
    } else {
        parse_digits(text)
    }
}

/// The first property at or behind cell `from` of `data`, and the cell at
/// which the scan for the next one starts.
pub fn scan_property<'dt>(
    data: &'dt [u8],
    strings: &'dt [u8],
    cell_sizes: &CellSizes,
    from: usize,
) -> (r: Result<Option<(&'dt str, DeviceTreeValue<'dt>, usize)>, DeviceTreeError>)
    ensures
        match r {
            Ok(None) => property_at(data@, strings@, from as int) is Done,
            Ok(Some((name, value, next))) => {
                &&& property_at(data@, strings@, from as int) == Scan::Found {
                    item: PropertyModel { name: name.spec_bytes(), cells: value.cells() },
                    next: next as int,
                }
                &&& value.wf()
                &&& value.sizes() == *cell_sizes
                &&& from < next
            },
            Err(e) => property_at(data@, strings@, from as int) == Scan::<PropertyModel>::Failed(e),
        },
{
    let count = count_cells(data);
    let len = data.len();
    let mut i: usize = from;
    while i < count
        invariant
            from <= i,
            count == cell_count(data@),
            len == data@.len(),
            property_at(data@, strings@, from as int) == property_at(data@, strings@, i as int),
        decreases count - i,
    {
        let token = read_cell(data, i);
        if token == FDT_PROP {
            if i + 2 >= count {
                return Ok(None);
            }
            let name_offset = read_cell(data, i + 2) as usize;
            let name = match read_string(strings, name_offset) {
                Ok(name) => name,
                Err(e) => {
                    return Err(e);
                },
            };
            let value_len = read_cell(data, i + 1);
            let value_cells = cells_holding(value_len);
            if value_cells > count - (i + 3) {
                return Err(DeviceTreeError::OutOfStructureBounds);
            }
            let cells = vstd::slice::slice_subrange(data, 4 * (i + 3), 4 * (i + 3 + value_cells));
            let value = DeviceTreeValue::wrap_cells(cells, cell_sizes);
            return Ok(Some((name, value, i + 3 + value_cells)));
        } else if token == FDT_BEGIN_NODE {
            return Ok(None);
        }
        i += 1;
    }
    Ok(None)
}

/// The cell of `data` at or behind cell `i` where the first child starts;
/// the number of cells if there is no child. Properties are stepped over by
/// their length; a property token without a length behind it cannot be
/// stepped over.
pub open spec fn first_child_at(data: Seq<u8>, i: int) -> Result<int, DeviceTreeError>
    decreases cell_count(data) - i,
{
    if i < 0 || i >= cell_count(data) {
        Ok(cell_count(data))
    } else if cell(data, i) == FDT_BEGIN_NODE {
        Ok(i)
    } else if cell(data, i) == FDT_PROP {
        if i + 1 >= cell_count(data) {
            Err(DeviceTreeError::OutOfStructureBounds)
        } else if i + 3 + cells_for(cell(data, i + 1)) >= cell_count(data) {
            Ok(cell_count(data))
        } else {
            first_child_at(data, i + 3 + cells_for(cell(data, i + 1)))
        }
    } else {
        first_child_at(data, i + 1)
    }
}

/// The cells of the first child at or behind cell `i` of `data`, as the
/// index of its first cell and the index behind its last. `depth` counts the
/// nodes that are open at cell `i`, `start` is where the outermost of them
/// began. A child ends with the token that closes it at depth one.
pub open spec fn child_span_at(data: Seq<u8>, i: int, depth: int, start: int) -> Scan<(int, int)>
    decreases cell_count(data) - i,
{
    if i < 0 || i >= cell_count(data) {
        Scan::Done
    } else if cell(data, i) == FDT_BEGIN_NODE {
        child_span_at(
            data,
            i + 1,
            depth + 1,
            if depth == 0 {
                i
            } else {
                start
            },
        )
    } else if cell(data, i) == FDT_PROP {
        if i + 1 >= cell_count(data) {
            Scan::Failed(DeviceTreeError::OutOfStructureBounds)
        } else if i + 3 + cells_for(cell(data, i + 1)) >= cell_count(data) {
            Scan::Done
        } else {
            child_span_at(data, i + 3 + cells_for(cell(data, i + 1)), depth, start)
        }
    } else if cell(data, i) == FDT_END_NODE {
        if depth == 1 {
            Scan::Found { item: (start, i + 1), next: i + 1 }
        } else {
            child_span_at(data, i + 1, depth - 1, start)
        }
    } else {
        child_span_at(data, i + 1, depth, start)
    }
}

/// A child that is found spans at least one cell, within the cells that were
/// scanned, and starts with the token that opens a node.
pub proof fn lemma_child_span_at(data: Seq<u8>, i: int, depth: int, start: int)
    requires
        0 <= start <= i,
        depth >= 1 ==> cell(data, start) == FDT_BEGIN_NODE,
    ensures
        child_span_at(data, i, depth, start) matches Scan::Found { item, next } ==> {
            &&& start <= item.0 < item.1 <= cell_count(data)
            &&& i < next
            &&& next == item.1
            &&& cell(data, item.0) == FDT_BEGIN_NODE
        },
    decreases cell_count(data) - i,
{
    if 0 <= i < cell_count(data) {
        if cell(data, i) == FDT_BEGIN_NODE {
            lemma_child_span_at(
                data,
                i + 1,
                depth + 1,
                if depth == 0 {
                    i
                } else {
                    start
                },
            );
        } else if cell(data, i) == FDT_PROP {
            if i + 1 < cell_count(data) && i + 3 + cells_for(cell(data, i + 1)) < cell_count(data) {
                lemma_child_span_at(data, i + 3 + cells_for(cell(data, i + 1)), depth, start);
            }
        } else if cell(data, i) == FDT_END_NODE {
            if depth != 1 {
                lemma_child_span_at(data, i + 1, depth - 1, start);
            }
        } else {
            lemma_child_span_at(data, i + 1, depth, start);
        }
    }
}

/// The children of `parent` that start at or behind cell `i` of its cells,
/// or the first error that the scan meets. Each child inherits the cell sizes
/// of `parent`.
pub open spec fn children_from(parent: NodeModel, i: int) -> Result<Seq<NodeModel>, DeviceTreeError>
    decreases cell_count(parent.data) - i,
{
    match child_span_at(parent.data, i, 0, i) {
        Scan::Done => Ok(Seq::empty()),
        Scan::Failed(e) => Err(e),
        Scan::Found { item, next } => {
            match node_of(
                parent.strings,
                cell_span(parent.data, item.0, item.1),
                parent.cell_sizes,
            ) {
                Err(e) => Err(e),
                Ok(child) => if i < next < cell_count(parent.data) {
                    with_prefix(seq![child], children_from(parent, next))
                } else {
                    Ok(seq![child])
                },
            }
        },
    }
}

/// The children of `parent`, in the order in which the blob holds them.
pub open spec fn children_of(parent: NodeModel) -> Result<Seq<NodeModel>, DeviceTreeError> {
    match first_child_at(parent.data, 0) {
        Err(e) => Err(e),
        Ok(i) => children_from(parent, i),
    }
}

/// The first child called `wanted` that starts at or behind cell `i` of the
/// cells of `parent`. Children behind it are not looked at.
pub open spec fn find_child_from(parent: NodeModel, wanted: Seq<u8>, i: int) -> Result<
    Option<NodeModel>,
    DeviceTreeError,
>
    decreases cell_count(parent.data) - i,
{
    match child_span_at(parent.data, i, 0, i) {
        Scan::Done => Ok(None),
        Scan::Failed(e) => Err(e),
        Scan::Found { item, next } => {
            match node_of(
                parent.strings,
                cell_span(parent.data, item.0, item.1),
                parent.cell_sizes,
            ) {
                Err(e) => Err(e),
                Ok(child) => if child.name == wanted {
                    Ok(Some(child))
                } else if i < next < cell_count(parent.data) {
                    find_child_from(parent, wanted, next)
                } else {
                    Ok(None)
                },
            }
        },
    }
}

/// The first child of `parent` called `wanted`.
pub open spec fn find_child(parent: NodeModel, wanted: Seq<u8>) -> Result<
    Option<NodeModel>,
    DeviceTreeError,
> {
    match first_child_at(parent.data, 0) {
        Err(e) => Err(e),
        Ok(i) => find_child_from(parent, wanted, i),
    }
}

/// The cell of `data` where the first child starts.
pub fn skip_properties(data: &[u8]) -> (r: Result<usize, DeviceTreeError>)
    ensures
        match r {
            Ok(i) => first_child_at(data@, 0) == Ok::<int, DeviceTreeError>(i as int) && i
                <= cell_count(data@),
            Err(e) => first_child_at(data@, 0) == Err::<int, DeviceTreeError>(e),
        },
{
    let count = count_cells(data);
    let mut i: usize = 0;
    while i < count
        invariant
            i <= count,
            count == cell_count(data@),
            first_child_at(data@, 0) == first_child_at(data@, i as int),
        decreases count - i,
    {
        let token = read_cell(data, i);
        if token == FDT_BEGIN_NODE {
            return Ok(i);
        } else if token == FDT_PROP {
            if i + 1 >= count {
                return Err(DeviceTreeError::OutOfStructureBounds);
            }
            let step = 3 + cells_holding(read_cell(data, i + 1));
            if step >= count - i {
                return Ok(count);
            }
            i += step;
        } else {
            i += 1;
        }
    }
    Ok(count)
}

/// The cells of the first child that starts at or behind cell `from` of
/// `data`: the index of its first cell and the index behind its last.
pub fn scan_child(data: &[u8], from: usize) -> (r: Result<Option<(usize, usize)>, DeviceTreeError>)
    ensures
        match r {
            Ok(None) => child_span_at(data@, from as int, 0, from as int) is Done,
            Ok(Some((start, end))) => {
                &&& child_span_at(data@, from as int, 0, from as int) == Scan::Found {
                    item: (start as int, end as int),
                    next: end as int,
                }
                &&& from <= start < end <= cell_count(data@)
                &&& cell(data@, start as int) == FDT_BEGIN_NODE
            },
            Err(e) => child_span_at(data@, from as int, 0, from as int) == Scan::<
                (int, int),
            >::Failed(e),
        },
{
    let count = count_cells(data);
    let mut i: usize = from;
    let mut depth: i64 = 0;
    let mut start: usize = from;
    proof {
        lemma_child_span_at(data@, from as int, 0, from as int);
    }
    while i < count
        invariant
            from <= start <= i,
            count == cell_count(data@),
            count <= usize::MAX / 4,
            -(i - from) <= depth <= i - from,
            depth >= 1 ==> cell(data@, start as int) == FDT_BEGIN_NODE,
            child_span_at(data@, from as int, 0, from as int) == child_span_at(
                data@,
                i as int,
                depth as int,
                start as int,
            ),
        decreases count - i,
    {
        let token = read_cell(data, i);
        if token == FDT_BEGIN_NODE {
            if depth == 0 {
                start = i;
            }
            depth += 1;
            i += 1;
        } else if token == FDT_PROP {
            if i + 1 >= count {
                return Err(DeviceTreeError::OutOfStructureBounds);
            }
            let step = 3 + cells_holding(read_cell(data, i + 1));
            if step >= count - i {
                return Ok(None);
            }
            i += step;
        } else if token == FDT_END_NODE {
            if depth == 1 {
                proof {
                    lemma_child_span_at(data@, i as int, depth as int, start as int);
                }
                return Ok(Some((start, i + 1)));
            }
            depth -= 1;
            i += 1;
        } else {
            i += 1;
        }
    }
    Ok(None)
}

/// The value of the first property of `data` whose name is `wanted`.
pub fn find_value<'dt>(
    data: &'dt [u8],
    strings: &'dt [u8],
    cell_sizes: &CellSizes,
    wanted: &[u8],
) -> (r: Result<Option<DeviceTreeValue<'dt>>, DeviceTreeError>)
    ensures
        match r {
            Ok(None) => find_property(data@, strings@, wanted@, 0) == Ok::<
                Option<Seq<u8>>,
                DeviceTreeError,
            >(None),
            Ok(Some(value)) => {
                &&& find_property(data@, strings@, wanted@, 0) == Ok::<
                    Option<Seq<u8>>,
                    DeviceTreeError,
                >(Some(value.cells()))
                &&& value.wf()
                &&& value.sizes() == *cell_sizes
            },
            Err(e) => find_property(data@, strings@, wanted@, 0) == Err::<
                Option<Seq<u8>>,
                DeviceTreeError,
            >(e),
        },
{
    let count = count_cells(data);
    let mut i: usize = 0;
    while i < count
        invariant
            i <= count,
            count == cell_count(data@),
            find_property(data@, strings@, wanted@, 0) == find_property(
                data@,
                strings@,
                wanted@,
                i as int,
            ),
        decreases count - i,
    {
        match scan_property(data, strings, cell_sizes, i) {
            Ok(None) => {
                return Ok(None);
            },
            Err(e) => {
                return Err(e);
            },
            Ok(Some((name, value, next))) => {
                if same_bytes(name.as_bytes(), wanted) {
                    return Ok(Some(value));
                }
                i = if next < count {
                    next
                } else {
                    count
                };
            },
        }
    }
    Ok(None)
}

/// The number of cells that the property `name` sets, or `default` where
/// there is no such property.
pub fn read_cells(data: &[u8], strings: &[u8], name: &[u8], default: u32) -> (r: Result<
    u32,
    DeviceTreeError,
>)
    ensures
        r == cells_of(data@, strings@, name@, default),
{
    let sizes = CellSizes { address: 0, size: 0 };
    match find_value(data, strings, &sizes, name) {
        Err(e) => Err(e),
        Ok(None) => Ok(default),
        Ok(Some(value)) => value.u32(),
    }
}

/// The cell sizes in effect for a node with the cells `data`.
pub fn read_cell_sizes(data: &[u8], strings: &[u8], inherited: CellSizes) -> (r: Result<
    CellSizes,
    DeviceTreeError,
>)
    ensures
        r == cell_sizes_of(data@, strings@, inherited),
{
    let address = match read_cells(data, strings, "#address-cells".as_bytes(), inherited.address) {
        Ok(address) => address,
        Err(e) => {
            return Err(e);
        },
    };
    let size = match read_cells(data, strings, "#size-cells".as_bytes(), inherited.size) {
        Ok(size) => size,
        Err(e) => {
            return Err(e);
        },
    };
    Ok(CellSizes { address, size })
}

/// The properties as the blob holds them.
pub open spec fn property_models<'a>(items: Seq<(&'a str, DeviceTreeValue<'a>)>) -> Seq<
    PropertyModel,
> {
    items.map_values(
        |p: (&'a str, DeviceTreeValue<'a>)|
            PropertyModel { name: p.0.spec_bytes(), cells: p.1.cells() },
    )
}

/// A view of one node of a devicetree.
#[derive(Clone, Copy)]
pub struct NodeRef<'dt> {
    strings: &'dt [u8],
    name: &'dt str,
    location: Option<usize>,
    data: &'dt [u8],
    cell_sizes: CellSizes,
}

impl<'dt> View for NodeRef<'dt> {
    type V = NodeModel;

    closed spec fn view(&self) -> NodeModel {
        NodeModel {
            strings: self.strings@,
            name: self.name.spec_bytes(),
            location: self.location,
            data: self.data@,
            cell_sizes: self.cell_sizes,
        }
    }
}

impl<'dt> NodeRef<'dt> {
    /// The node holds whole cells.
    pub open spec fn wf(&self) -> bool {
        self@.data.len() % 4 == 0
    }

    /// Reads the node that the cells of `slice` hold, which start with the
    /// token that opens a node. `strings` is the strings block of the tree,
    /// `inherited` the cell sizes of the parent.
    pub fn from_slice(strings: &'dt [u8], slice: &'dt [u8], inherited: CellSizes) -> (r: Result<
        NodeRef<'dt>,
        DeviceTreeError,
    >)
        requires
            slice@.len() % 4 == 0,
            slice@.len() >= 4,
            cell(slice@, 0) == FDT_BEGIN_NODE,
        ensures
            match r {
                Ok(node) => node_of(strings@, slice@, inherited) == Ok::<
                    NodeModel,
                    DeviceTreeError,
                >(node@) && node.wf(),
                Err(e) => node_of(strings@, slice@, inherited) == Err::<
                    NodeModel,
                    DeviceTreeError,
                >(e),
            },
    {
        let rest = vstd::slice::slice_subrange(slice, 4, slice.len());
        assert(rest@ =~= slice@.skip(4));
        let end = find_byte(rest, 0, 0);
        if end >= rest.len() {
            return Err(DeviceTreeError::CStringConversionFail);
        }
        let full_bytes = vstd::slice::slice_subrange(rest, 0, end);
        if utf8_text(full_bytes).is_none() {
            return Err(DeviceTreeError::InvaildUTF8);
        }
        let data = vstd::slice::slice_subrange(slice, 4 * (end / 4 + 2), slice.len());
        assert(data@ =~= slice@.skip(4 * (full_bytes@.len() as int / 4 + 2)));
        let cell_sizes = match read_cell_sizes(data, strings, inherited) {
            Ok(cell_sizes) => cell_sizes,
            Err(e) => {
                return Err(e);
            },
        };
        let at = find_byte(full_bytes, UNIT_ADDRESS_MARK, 0);
        let name_bytes = vstd::slice::slice_subrange(full_bytes, 0, at);
        proof {
            lemma_index_of(full_bytes@, UNIT_ADDRESS_MARK, 0);
            if at < full_bytes@.len() {
                vstd::utf8::is_char_boundary_iff_not_is_continuation_byte(full_bytes@, at as int);
                vstd::utf8::valid_utf8_split(full_bytes@, at as int);
            } else {
                assert(name_bytes@ =~= full_bytes@);
            }
            assert(name_bytes@ =~= bare_name(full_bytes@));
        }
        let name = match utf8_text(name_bytes) {
            Some(name) => name,
            None => {
                return Err(DeviceTreeError::InvaildUTF8);
            },
        };
        let location = if at >= full_bytes.len() {
            None
        } else {
            let tail = vstd::slice::slice_subrange(full_bytes, at + 1, full_bytes.len());
            assert(tail@ =~= full_bytes@.skip(at + 1));
            let stop = find_byte(tail, UNIT_ADDRESS_MARK, 0);
            let piece = vstd::slice::slice_subrange(tail, 0, stop);
            assert(piece@ =~= tail@.take(stop as int));
            parse_decimal(piece)
        };
        Ok(NodeRef { strings, name, location, data, cell_sizes })
    }

    /// The name of the node, without unit address.
    pub fn name(&self) -> (r: &'dt str)
        ensures
            r.spec_bytes() == self@.name,
    {
        self.name
    }

    /// The unit address of the node, where the name has one that is a
    /// decimal number.
    pub fn location(&self) -> (r: Option<usize>)
        ensures
            r == self@.location,
    {
        self.location
    }

    /// The cell sizes in effect for the node.
    pub fn cell_sizes(&self) -> (r: CellSizes)
        ensures
            r == self@.cell_sizes,
    {
        self.cell_sizes
    }

    /// The value of the first property called `name`, if the node has one.
    pub fn property(&self, name: &str) -> (r: Result<Option<DeviceTreeValue<'dt>>, DeviceTreeError>)
        ensures
            match r {
                Ok(None) => find_property(self@.data, self@.strings, name.spec_bytes(), 0) == Ok::<
                    Option<Seq<u8>>,
                    DeviceTreeError,
                >(None),
                Ok(Some(value)) => {
                    &&& find_property(self@.data, self@.strings, name.spec_bytes(), 0) == Ok::<
                        Option<Seq<u8>>,
                        DeviceTreeError,
                    >(Some(value.cells()))
                    &&& value.wf()
                    &&& value.sizes() == self@.cell_sizes
                },
                Err(e) => find_property(self@.data, self@.strings, name.spec_bytes(), 0) == Err::<
                    Option<Seq<u8>>,
                    DeviceTreeError,
                >(e),
            },
    {
        find_value(self.data, self.strings, &self.cell_sizes, name.as_bytes())
    }

    /// The properties of the node with their names, in the order in which
    /// the blob holds them.
    pub fn properties(&self) -> (r: Result<Vec<(&'dt str, DeviceTreeValue<'dt>)>, DeviceTreeError>)
        ensures
            match r {
                Ok(items) => {
                    &&& properties_from(self@.data, self@.strings, 0) == Ok::<
                        Seq<PropertyModel>,
                        DeviceTreeError,
                    >(property_models(items@))
                    &&& forall|k: int|
                        0 <= k < items@.len() ==> (#[trigger] items@[k]).1.wf() && items@[k].1.sizes()
                            == self@.cell_sizes
                },
                Err(e) => properties_from(self@.data, self@.strings, 0) == Err::<
                    Seq<PropertyModel>,
                    DeviceTreeError,
                >(e),
            },
    {
        let count = count_cells(self.data);
        let mut items: Vec<(&'dt str, DeviceTreeValue<'dt>)> = Vec::new();
        let mut i: usize = 0;
        proof {
            assert(property_models(items@) =~= Seq::<PropertyModel>::empty());
            lemma_with_empty_prefix(properties_from(self.data@, self.strings@, 0));
        }
        while i < count
            invariant
                i <= count,
                count == cell_count(self.data@),
                properties_from(self.data@, self.strings@, 0) == with_prefix(
                    property_models(items@),
                    properties_from(self.data@, self.strings@, i as int),
                ),
                forall|k: int|
                    0 <= k < items@.len() ==> (#[trigger] items@[k]).1.wf() && items@[k].1.sizes()
                        == self.cell_sizes,
            decreases count - i,
        {
            match scan_property(self.data, self.strings, &self.cell_sizes, i) {
                Ok(None) => {
                    proof {
                        assert(property_models(items@) + Seq::<PropertyModel>::empty()
                            =~= property_models(items@));
                    }
                    return Ok(items);
                },
                Err(e) => {
                    return Err(e);
                },
                Ok(Some((name, value, next))) => {
                    let ghost before = items@;
                    let ghost item = PropertyModel { name: name.spec_bytes(), cells: value.cells() };
                    items.push((name, value));
                    proof {
                        assert(property_models(items@) =~= property_models(before).push(item));
                        let rest = if next < count {
                            properties_from(self.data@, self.strings@, next as int)
                        } else {
                            Ok(Seq::empty())
                        };
                        lemma_with_prefix_push(property_models(before), item, rest);
                    }
                    i = if next < count {
                        next
                    } else {
                        count
                    };
                },
            }
        }
        proof {
            assert(property_models(items@) + Seq::<PropertyModel>::empty() =~= property_models(
                items@,
            ));
        }
        Ok(items)
    }
}

/// The nodes as the blob holds them.
pub open spec fn node_models<'a>(nodes: Seq<NodeRef<'a>>) -> Seq<NodeModel> {
    nodes.map_values(|n: NodeRef<'a>| n@)
}

impl<'dt> NodeRef<'dt> {
    /// The child whose cells run from cell `start` up to, not including,
    /// cell `end` of the cells of this node.
    fn child_in(&self, start: usize, end: usize) -> (r: Result<NodeRef<'dt>, DeviceTreeError>)
        requires
            self.wf(),
            start < end <= cell_count(self@.data),
            cell(self@.data, start as int) == FDT_BEGIN_NODE,
        ensures
            match r {
                Ok(node) => node_of(
                    self@.strings,
                    cell_span(self@.data, start as int, end as int),
                    self@.cell_sizes,
                ) == Ok::<NodeModel, DeviceTreeError>(node@) && node.wf(),
                Err(e) => node_of(
                    self@.strings,
                    cell_span(self@.data, start as int, end as int),
                    self@.cell_sizes,
                ) == Err::<NodeModel, DeviceTreeError>(e),
            },
    {
        let len = self.data.len();
        let slice = vstd::slice::slice_subrange(self.data, 4 * start, 4 * end);
        assert(slice@.subrange(0, 4) =~= self.data@.subrange(4 * start, 4 * start + 4));
        NodeRef::from_slice(self.strings, slice, self.cell_sizes)
    }

    /// The first child called `name`, if the node has one.
    pub fn child(&self, name: &str) -> (r: Result<Option<NodeRef<'dt>>, DeviceTreeError>)
        requires
            self.wf(),
        ensures
            match r {
                Ok(None) => find_child(self@, name.spec_bytes()) == Ok::<
                    Option<NodeModel>,
                    DeviceTreeError,
                >(None),
                Ok(Some(node)) => find_child(self@, name.spec_bytes()) == Ok::<
                    Option<NodeModel>,
                    DeviceTreeError,
                >(Some(node@)) && node.wf(),
                Err(e) => find_child(self@, name.spec_bytes()) == Err::<
                    Option<NodeModel>,
                    DeviceTreeError,
                >(e),
            },
    {
        let count = count_cells(self.data);
        let mut i: usize = match skip_properties(self.data) {
            Ok(i) => i,
            Err(e) => {
                return Err(e);
            },
        };
        while i < count
            invariant
                i <= count,
                self.wf(),
                count == cell_count(self@.data),
                find_child(self@, name.spec_bytes()) == find_child_from(
                    self@,
                    name.spec_bytes(),
                    i as int,
                ),
            decreases count - i,
        {
            match scan_child(self.data, i) {
                Ok(None) => {
                    return Ok(None);
                },
                Err(e) => {
                    return Err(e);
                },
                Ok(Some((start, end))) => {
                    let node = match self.child_in(start, end) {
                        Ok(node) => node,
                        Err(e) => {
                            return Err(e);
                        },
                    };
                    if same_bytes(node.name.as_bytes(), name.as_bytes()) {
                        return Ok(Some(node));
                    }
                    i = end;
                },
            }
        }
        Ok(None)
    }

    /// The children of the node, in the order in which the blob holds them.
    pub fn children(&self) -> (r: Result<Vec<NodeRef<'dt>>, DeviceTreeError>)
        requires
            self.wf(),
        ensures
            match r {
                Ok(nodes) => {
                    &&& children_of(self@) == Ok::<Seq<NodeModel>, DeviceTreeError>(
                        node_models(nodes@),
                    )
                    &&& forall|k: int| 0 <= k < nodes@.len() ==> (#[trigger] nodes@[k]).wf()
                },
                Err(e) => children_of(self@) == Err::<Seq<NodeModel>, DeviceTreeError>(e),
            },
    {
        let count = count_cells(self.data);
        let mut nodes: Vec<NodeRef<'dt>> = Vec::new();
        let mut i: usize = match skip_properties(self.data) {
            Ok(i) => i,
            Err(e) => {
                return Err(e);
            },
        };
        proof {
            assert(node_models(nodes@) =~= Seq::<NodeModel>::empty());
            lemma_with_empty_prefix(children_from(self@, i as int));
        }
        while i < count
            invariant
                i <= count,
                self.wf(),
                count == cell_count(self@.data),
                children_of(self@) == with_prefix(
                    node_models(nodes@),
                    children_from(self@, i as int),
                ),
                forall|k: int| 0 <= k < nodes@.len() ==> (#[trigger] nodes@[k]).wf(),
            decreases count - i,
        {
            match scan_child(self.data, i) {
                Ok(None) => {
                    proof {
                        assert(node_models(nodes@) + Seq::<NodeModel>::empty() =~= node_models(
                            nodes@,
                        ));
                    }
                    return Ok(nodes);
                },
                Err(e) => {
                    return Err(e);
                },
                Ok(Some((start, end))) => {
                    let node = match self.child_in(start, end) {
                        Ok(node) => node,
                        Err(e) => {
                            return Err(e);
                        },
                    };
                    let ghost before = nodes@;
                    nodes.push(node);
                    proof {
                        assert(node_models(nodes@) =~= node_models(before).push(node@));
                        let rest = if end < count {
                            children_from(self@, end as int)
                        } else {
                            Ok(Seq::empty())
                        };
                        lemma_with_prefix_push(node_models(before), node@, rest);
                    }
                    i = end;
                },
            }
        }
        proof {
            assert(node_models(nodes@) + Seq::<NodeModel>::empty() =~= node_models(nodes@));
        }
        Ok(nodes)
    }
}

/// Nothing in front changes nothing.
pub proof fn lemma_with_empty_prefix<T>(rest: Result<Seq<T>, DeviceTreeError>)
    ensures
        with_prefix(Seq::empty(), rest) == rest,
{
    if let Ok(items) = rest {
        assert(Seq::<T>::empty() + items =~= items);
    }
}

/// An item may go from the front of what follows to the back of what came.
pub proof fn lemma_with_prefix_push<T>(
    prefix: Seq<T>,
    item: T,
    rest: Result<Seq<T>, DeviceTreeError>,
)
    ensures
        with_prefix(prefix, with_prefix(seq![item], rest)) == with_prefix(prefix.push(item), rest),
        with_prefix(seq![item], Ok(Seq::empty())) == Ok::<Seq<T>, DeviceTreeError>(seq![item]),
{
    if let Ok(items) = rest {
        assert(prefix + (seq![item] + items) =~= prefix.push(item) + items);
    }
    assert(seq![item] + Seq::<T>::empty() =~= seq![item]);
}

} // verus!
