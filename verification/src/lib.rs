//! Early-boot core of a bare-metal RISC-V kernel.
//!
//! The crate reads a flattened devicetree blob without copying it, derives from
//! it the physical memory that is present and not reserved, and hands that
//! memory out page by page. A small reader for ELF images is included for the
//! tooling around the kernel.

pub mod bytes;
pub mod data_structures;
pub mod devicetree;
pub mod elf;
pub mod memory;
pub mod traps;
