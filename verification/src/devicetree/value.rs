//! Values of devicetree properties.

use vstd::prelude::*;
use vstd::utf8::valid_utf8;
use vstd::string::StringSliceAdditionalSpecFns;
use crate::devicetree::cells::{cell, cell_count, cell_span, count_cells, read_cell, utf8_text};
use crate::devicetree::error::DeviceTreeError;
use crate::devicetree::node::CellSizes;

verus! {

/// The number that the cells of `bytes` spell, the first cell being the most
/// significant.
pub open spec fn limbs_value(bytes: Seq<u8>) -> nat
    decreases bytes.len(),
{
    if bytes.len() < 4 {
        0
    } else {
        let n = cell_count(bytes);
        (limbs_value(cell_span(bytes, 0, n - 1)) * 0x1_0000_0000 + cell(bytes, n - 1)) as nat
    }
}

/// `v` as a `usize`, or the greatest `usize` if `v` is above it.
pub open spec fn saturated(v: int) -> usize {
    if v <= usize::MAX {
        v as usize
    } else {
        usize::MAX
    }
}

/// Shifting a cell into a number and cutting to 64 bits needs only the
/// lowest 32 bits of the number.
pub proof fn lemma_shift_in(l: nat, c: nat)
    requires
        c < 0x1_0000_0000,
    ensures
        (l * 0x1_0000_0000 + c) % 0x1_0000_0000_0000_0000 == ((l % 0x1_0000_0000_0000_0000)
            % 0x1_0000_0000) * 0x1_0000_0000 + c,
{
    let b: int = 0x1_0000_0000;
    let q = l as int / b;
    let r = l as int % b;
    vstd::arithmetic::div_mod::lemma_fundamental_div_mod(l as int, b);
    assert(l * b + c == (b * b) * q + (r * b + c)) by (nonlinear_arith)
        requires
            l == b * q + r,
    ;
    assert(0 <= r * b + c < b * b) by (nonlinear_arith)
        requires
            0 <= r < b,
            0 <= c < b,
    ;
    vstd::arithmetic::div_mod::lemma_mod_multiples_vanish(q, r * b + c, b * b);
    vstd::arithmetic::div_mod::lemma_small_mod((r * b + c) as nat, (b * b) as nat);
    vstd::arithmetic::div_mod::lemma_mod_mod(l as int, b, b);
    assert(b * b == 0x1_0000_0000_0000_0000) by (nonlinear_arith)
        requires
            b == 0x1_0000_0000,
    ;
}

/// What `u32` gives for a value of the given cells.
pub open spec fn u32_of(cells: Seq<u8>) -> Result<u32, DeviceTreeError> {
    if cell_count(cells) != 1 {
        Err(
            DeviceTreeError::InvaildPropertySize {
                expected: 1,
                actual: cell_count(cells) as usize,
            },
        )
    } else {
        Ok(cell(cells, 0) as u32)
    }
}

/// What `string` gives for a value of the given cells: the bytes of the text.
pub open spec fn string_of(cells: Seq<u8>) -> Result<Seq<u8>, DeviceTreeError> {
    if valid_utf8(cells) {
        Ok(cells)
    } else {
        Err(DeviceTreeError::InvaildUTF8)
    }
}

/// What `reg` gives for a value of the given cells under the given cell
/// sizes. An address or a size of more than two cells is cut down to its
/// lowest 64 bits.
pub open spec fn reg_of(cells: Seq<u8>, sizes: CellSizes) -> Result<(u64, u64), DeviceTreeError> {
    let expected = sizes.address + sizes.size;
    if cell_count(cells) != expected {
        Err(
            DeviceTreeError::InvaildPropertySize {
                expected: saturated(expected),
                actual: cell_count(cells) as usize,
            },
        )
    } else {
        Ok(
            (
                (limbs_value(cell_span(cells, 0, sizes.address as int))
                    % 0x1_0000_0000_0000_0000) as u64,
                (limbs_value(cell_span(cells, sizes.address as int, expected))
                    % 0x1_0000_0000_0000_0000) as u64,
            ),
        )
    }
}

/// The value of a property: its cells, which are the bytes of the value
/// filled up to whole cells, and the cell sizes of the node that holds it.
/// What the cells mean is decided by the method that reads them.
#[derive(Clone, Copy)]
pub struct DeviceTreeValue<'dt> {
    cells: &'dt [u8],
    cell_sizes: CellSizes,
}

impl<'dt> DeviceTreeValue<'dt> {
    /// The bytes of the cells of the value.
    pub closed spec fn cells(&self) -> Seq<u8> {
        self.cells@
    }

    /// The cell sizes under which `reg` reads the value.
    pub closed spec fn sizes(&self) -> CellSizes {
        self.cell_sizes
    }

    /// The value holds whole cells.
    pub open spec fn wf(&self) -> bool {
        self.cells().len() % 4 == 0
    }

    /// The value made of `cells`, which are the bytes of whole cells.
    pub fn wrap_cells(cells: &'dt [u8], cell_sizes: &CellSizes) -> (r: DeviceTreeValue<'dt>)
        requires
            cells@.len() % 4 == 0,
        ensures
            r.wf(),
            r.cells() == cells@,
            r.sizes() == *cell_sizes,
    {
        DeviceTreeValue { cells, cell_sizes: *cell_sizes }
    }

    /// The value as one 32-bit number.
    pub fn u32(&self) -> (r: Result<u32, DeviceTreeError>)
        requires
            self.wf(),
        ensures
            r == u32_of(self.cells()),
    {
        let n = count_cells(self.cells);
        if n != 1 {
            Err(DeviceTreeError::InvaildPropertySize { expected: 1, actual: n })
        } else {
            Ok(read_cell(self.cells, 0))
        }
    }

    /// The value as text: the bytes of all its cells, those that fill the
    /// last cell included.
    pub fn string(&self) -> (r: Result<&'dt str, DeviceTreeError>)
        requires
            self.wf(),
        ensures
            match r {
                Ok(text) => string_of(self.cells()) == Ok::<Seq<u8>, DeviceTreeError>(
                    text.spec_bytes(),
                ),
                Err(e) => string_of(self.cells()) == Err::<Seq<u8>, DeviceTreeError>(e),
            },
    {
        match utf8_text(self.cells) {
            Some(text) => Ok(text),
            None => Err(DeviceTreeError::InvaildUTF8),
        }
    }

    /// The value as a pair of address and size.
    pub fn reg(&self) -> (r: Result<(u64, u64), DeviceTreeError>)
        requires
            self.wf(),
        ensures
            r == reg_of(self.cells(), self.sizes()),
    {
        let expected: u64 = self.cell_sizes.address() as u64 + self.cell_sizes.size() as u64;
        if expected > usize::MAX as u64 {
            return Err(
                DeviceTreeError::InvaildPropertySize {
                    expected: usize::MAX,
                    actual: count_cells(self.cells),
                },
            );
        }
        let address_cells = self.cell_sizes.address() as usize;
        let size_cells = self.cell_sizes.size() as usize;
        match self.expect_size(address_cells + size_cells) {
            Err(e) => Err(e),
            Ok(()) => {
                let address = self.read_from_cells(0, address_cells);
                let size = self.read_from_cells(address_cells, size_cells);
                Ok((address, size))
            },
        }
    }

    /// Checks that the value holds `expected` cells.
    pub fn expect_size(&self, expected: usize) -> (r: Result<(), DeviceTreeError>)
        ensures
            r == if cell_count(self.cells()) != expected {
                Err::<(), DeviceTreeError>(
                    DeviceTreeError::InvaildPropertySize {
                        expected,
                        actual: cell_count(self.cells()) as usize,
                    },
                )
            } else {
                Ok::<(), DeviceTreeError>(())
            },
    {
        let n = count_cells(self.cells);
        if n != expected {
            Err(DeviceTreeError::InvaildPropertySize { expected, actual: n })
        } else {
            Ok(())
        }
    }

    /// The number that `cells` cells from index `start` on spell, cut down to
    /// its lowest 64 bits.
    pub fn read_from_cells(&self, start: usize, cells: usize) -> (r: u64)
        requires
            start + cells <= cell_count(self.cells()),
        ensures
            r == limbs_value(cell_span(self.cells(), start as int, start + cells))
                % 0x1_0000_0000_0000_0000,
    {
        let total = count_cells(self.cells);
        let mut result: u64 = 0;
        let mut k: usize = 0;
        while k < cells
            invariant
                k <= cells,
                start + cells <= total,
                total == cell_count(self.cells@),
                result == limbs_value(cell_span(self.cells@, start as int, start + k))
                    % 0x1_0000_0000_0000_0000,
            decreases cells - k,
        {
            let value = read_cell(self.cells, start + k) as u64;
            proof {
                let before = cell_span(self.cells@, start as int, start + k);
                let after = cell_span(self.cells@, start as int, start + k + 1);
                assert(cell_count(after) == k + 1);
                assert(cell_span(after, 0, k as int) =~= before);
                assert(after.subrange(4 * k, 4 * k + 4) =~= self.cells@.subrange(
                    4 * (start + k),
                    4 * (start + k) + 4,
                ));
                assert(limbs_value(after) == limbs_value(before) * 0x1_0000_0000 + value);
                lemma_shift_in(limbs_value(before), value as nat);
            }
            result = (result % 0x1_0000_0000) * 0x1_0000_0000 + value;
            k += 1;
        }
        result
    }
}

} // verus!
