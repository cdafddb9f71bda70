//! What can go wrong while a devicetree is read.

use vstd::prelude::*;

verus! {

/// An error met while a devicetree is read.
#[derive(Clone, Copy, Debug, PartialEq, Eq, Structural)]
#[allow(inconsistent_fields)]
pub enum DeviceTreeError {
    /// A property holds `actual` cells where `expected` were called for.
    InvaildPropertySize { expected: usize, actual: usize },
    /// Bytes that should be text are no UTF-8.
    InvaildUTF8,
    /// A name has no terminating zero byte.
    CStringConversionFail,
    /// The blob starts with `provided` instead of the devicetree magic number.
    InvaildMagicNumber { provided: u32, expected: u32 },
    /// The blob has version `provided`; only `expected` is read.
    UnsupportedVersion { provided: u32, expected: u32 },
    /// A block or a token reaches beyond the bytes that hold it.
    OutOfStructureBounds,
    /// A string of the token stream has no terminating zero byte.
    UnterminatedString,
    /// The structure block is not laid out as a tree: it does not start with
    /// a node, or does not end with the end token.
    BytesParseError,
}

} // verus!
