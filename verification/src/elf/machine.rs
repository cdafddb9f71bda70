//! The machine that an ELF image is made for.

use vstd::prelude::*;

verus! {

/// The machine that an image is made for, by its number.
#[derive(Debug, Clone, Copy, Hash, PartialEq, Eq, Structural)]
pub struct Machine(pub u16);

impl Machine {
    pub fn from_id(id: u16) -> (r: Machine)
        ensures
            r == Machine(id),
    {
        Machine(id)
    }

    /// The number of the machine.
    pub fn id(&self) -> (r: u16)
        ensures
            r == self.0,
    {
        self.0
    }

    /// Whether the number is that of a machine with a known name.
    pub open spec fn known(self) -> bool {
        self.0 == 0x03 || self.0 == 0x3e || self.0 == 0x28 || self.0 == 0xb7 || self.0 == 0xf3
    }

    /// The name of the machine, for the numbers that are known.
    pub fn name(&self) -> (r: Option<&'static str>)
        ensures
            r is Some == self.known(),
            self.0 == 0x03 ==> r == Some("x86"),
            self.0 == 0x3e ==> r == Some("x86_64"),
            self.0 == 0x28 ==> r == Some("ARM"),
            self.0 == 0xb7 ==> r == Some("AArch64"),
            self.0 == 0xf3 ==> r == Some("RISC-V"),
    {
        if self.0 == 0x03 {
            Some("x86")
        } else if self.0 == 0x3e {
            Some("x86_64")
        } else if self.0 == 0x28 {
            Some("ARM")
        } else if self.0 == 0xb7 {
            Some("AArch64")
        } else if self.0 == 0xf3 {
            Some("RISC-V")
        } else {
            None
        }
    }
}

} // verus!
