//! Reader for flattened devicetree blobs.
//!
//! The reader works on the bytes of the blob as they are and copies none of
//! them: a node is a view of a span of the structure block, and what it
//! holds is found by scanning that span on every call.

pub mod cells;
pub mod error;
pub mod flattened;
pub mod iter;
pub mod laws;
pub mod node;
pub mod parser;
pub mod tokenizer;
pub mod tree;
pub mod value;

pub use error::DeviceTreeError;
pub use flattened::{FdtHeader, FlattenedDeviceTree};
pub use iter::named;
pub use node::{CellSizes, NodeRef};
pub use parser::DeviceTreeParser;
pub use tokenizer::DeviceTreeTokenizer;
pub use tree::{DeviceTree, ReserveEntry};
pub use value::DeviceTreeValue;
