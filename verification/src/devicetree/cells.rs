//! The 32-bit cells of a devicetree, the tokens among them, and the strings
//! between them.

use vstd::prelude::*;
use vstd::utf8::valid_utf8;
use vstd::string::StringSliceAdditionalSpecFns;
use crate::bytes::{be_u32, read_be_u32};
use crate::devicetree::error::DeviceTreeError;

verus! {

/// A cell of the structure block.
pub type FdtCell = u32;

/// Token that opens a node; the node's name follows it.
pub const FDT_BEGIN_NODE: FdtCell = 0x00000001;

/// Token that closes a node.
pub const FDT_END_NODE: FdtCell = 0x00000002;

/// Token that opens a property; length, name offset and value follow it.
pub const FDT_PROP: FdtCell = 0x00000003;

/// Token without meaning.
pub const FDT_NOP: FdtCell = 0x00000004;

/// Token that ends the structure block.
pub const FDT_END: FdtCell = 0x00000009;

/// Number of whole cells in `bytes`.
pub open spec fn cell_count(bytes: Seq<u8>) -> int {
    bytes.len() as int / 4
}

/// Value of the cell of `bytes` at index `i`.
pub open spec fn cell(bytes: Seq<u8>, i: int) -> int {
    be_u32(bytes.subrange(4 * i, 4 * i + 4))
}

/// Number of cells that `len` bytes take up.
pub open spec fn cells_for(len: int) -> int {
    (len + 3) / 4
}

/// The cells of `bytes` from index `from` up to, not including, `to`.
pub open spec fn cell_span(bytes: Seq<u8>, from: int, to: int) -> Seq<u8> {
    bytes.subrange(4 * from, 4 * to)
}

/// Index of the first byte of `bytes` at or behind `from` that equals
/// `wanted`; the length of `bytes` if there is none.
pub open spec fn index_of(bytes: Seq<u8>, wanted: u8, from: int) -> int
    decreases bytes.len() - from,
{
    if from < 0 || from >= bytes.len() {
        bytes.len() as int
    } else if bytes[from] == wanted {
        from
    } else {
        index_of(bytes, wanted, from + 1)
    }
}

/// Where `index_of` points.
pub proof fn lemma_index_of(bytes: Seq<u8>, wanted: u8, from: int)
    requires
        0 <= from <= bytes.len(),
    ensures
        from <= index_of(bytes, wanted, from) <= bytes.len(),
        index_of(bytes, wanted, from) < bytes.len() ==> bytes[index_of(bytes, wanted, from)]
            == wanted,
        forall|k: int| from <= k < index_of(bytes, wanted, from) ==> bytes[k] != wanted,
    decreases bytes.len() - from,
{
    if from < bytes.len() && bytes[from] != wanted {
        lemma_index_of(bytes, wanted, from + 1);
    }
}

/// The bytes of the zero-terminated string that starts at `from`, without
/// the terminator; `None` if no zero byte follows.
pub open spec fn c_string(bytes: Seq<u8>, from: int) -> Option<Seq<u8>> {
    if 0 <= from && index_of(bytes, 0, from) < bytes.len() {
        Some(bytes.subrange(from, index_of(bytes, 0, from)))
    } else {
        None
    }
}

/// Number of whole cells in `bytes`.
pub fn count_cells(bytes: &[u8]) -> (r: usize)
    ensures
        r == cell_count(bytes@),
        r <= usize::MAX / 4,
        bytes@.len() <= usize::MAX,
{
    bytes.len() / 4
}

/// Value of the cell of `bytes` at index `i`.
pub fn read_cell(bytes: &[u8], i: usize) -> (r: FdtCell)
    requires
        i < cell_count(bytes@),
    ensures
        r == cell(bytes@, i as int),
{
    let len = bytes.len();
    assert(4 * i + 4 <= len);
    read_be_u32(bytes, 4 * i)
}

/// Number of cells that `len` bytes take up.
pub fn cells_holding(len: u32) -> (r: usize)
    ensures
        r == cells_for(len as int),
        r <= 0x4000_0000,
{
    let whole: u32 = len / 4;
    if len % 4 == 0 {
        whole as usize
    } else {
        whole as usize + 1
    }
}

/// Index of the first byte of `bytes` at or behind `from` that equals
/// `wanted`; the length of `bytes` if there is none.
pub fn find_byte(bytes: &[u8], wanted: u8, from: usize) -> (r: usize)
    ensures
        r == index_of(bytes@, wanted, from as int),
        from <= bytes@.len() ==> from <= r <= bytes@.len(),
{
    if from >= bytes.len() {
        return bytes.len();
    }
    let mut i: usize = from;
    while i < bytes.len() && bytes[i] != wanted
        invariant
            from <= i <= bytes@.len(),
            index_of(bytes@, wanted, from as int) == index_of(bytes@, wanted, i as int),
        decreases bytes@.len() - i,
    {
        i += 1;
    }
    i
}

/// Whether the two slices hold the same bytes.
pub fn same_bytes(a: &[u8], b: &[u8]) -> (r: bool)
    ensures
        r == (a@ == b@),
{
    if a.len() != b.len() {
        return false;
    }
    let mut i: usize = 0;
    while i < a.len()
        invariant
            i <= a@.len(),
            a@.len() == b@.len(),
            forall|k: int| 0 <= k < i ==> a@[k] == b@[k],
        decreases a@.len() - i,
    {
        if a[i] != b[i] {
            return false;
        }
        i += 1;
    }
    assert(a@ =~= b@);
    true
}

/// The text that `bytes` encode, if they are UTF-8.
///
/// Calls `core::str::from_utf8`. Taken on trust: the call gives a string
/// exactly when the bytes are valid UTF-8, and the string then has these
/// bytes.
#[verifier::external_body]
pub(crate) fn utf8_text<'a>(bytes: &'a [u8]) -> (r: Option<&'a str>)
    ensures
        r is Some <==> valid_utf8(bytes@),
        r matches Some(text) ==> text.spec_bytes() == bytes@,
{
    core::str::from_utf8(bytes).ok()
}

/// The bytes of the text that starts at `offset` and ends before the next
/// zero byte. Without a zero byte there is no text; bytes that are no UTF-8
/// are none either.
pub open spec fn string_at(bytes: Seq<u8>, offset: int) -> Result<Seq<u8>, DeviceTreeError> {
    match c_string(bytes, offset) {
        None => Err(DeviceTreeError::CStringConversionFail),
        Some(text) => if valid_utf8(text) {
            Ok(text)
        } else {
            Err(DeviceTreeError::InvaildUTF8)
        },
    }
}

/// The text that starts at `offset` and ends before the next zero byte.
pub fn read_string<'a>(bytes: &'a [u8], offset: usize) -> (r: Result<&'a str, DeviceTreeError>)
    ensures
        match r {
            Ok(text) => string_at(bytes@, offset as int) == Ok::<Seq<u8>, DeviceTreeError>(
                text.spec_bytes(),
            ),
            Err(e) => string_at(bytes@, offset as int) == Err::<Seq<u8>, DeviceTreeError>(e),
        },
{
    let end = find_byte(bytes, 0, offset);
    if end >= bytes.len() {
        return Err(DeviceTreeError::CStringConversionFail);
    }
    match utf8_text(vstd::slice::slice_subrange(bytes, offset, end)) {
        Some(text) => Ok(text),
        None => Err(DeviceTreeError::InvaildUTF8),
    }
}

} // verus!
