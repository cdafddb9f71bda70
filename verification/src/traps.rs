//! What the cause register says of a trap, and the masks that turn
//! interrupts on and off.

use vstd::prelude::*;

verus! {

/// The cause of a trap as the machine reports it: the highest of its 64
/// bits tells an interrupt from an exception, the others hold a code.
#[derive(Debug, Clone, Copy, PartialEq, Eq, Structural)]
pub struct TrapCause(pub u64);

/// The least cause that tells of an interrupt: the highest bit alone.
pub const INTERRUPT_BIT: u64 = 0x8000_0000_0000_0000;

/// What an interrupt is about.
#[derive(Debug, Clone, Copy, PartialEq, Eq, Structural)]
pub enum InterruptCode {
    Software,
    Timer,
    External,
    CounterOverflow,
    Reseved(u64),
    Platform(u64),
}

/// The cause of a trap, told apart.
#[derive(Debug, Clone, Copy, PartialEq, Eq, Structural)]
pub enum TrapCauseDescription {
    Interrupt(InterruptCode),
    Trap(u64),
}

/// What the code `code` of an interrupt stands for: codes from 16 on are for
/// the platform to use, the others that have no name are reserved.
pub open spec fn interrupt_code_of(code: u64) -> InterruptCode {
    if code == 1 {
        InterruptCode::Software
    } else if code == 5 {
        InterruptCode::Timer
    } else if code == 9 {
        InterruptCode::External
    } else if code == 13 {
        InterruptCode::CounterOverflow
    } else if code >= 16 {
        InterruptCode::Platform(code)
    } else {
        InterruptCode::Reseved(code)
    }
}

/// What the cause `cause` tells.
pub open spec fn description_of(cause: TrapCause) -> TrapCauseDescription {
    if cause.0 >= INTERRUPT_BIT {
        TrapCauseDescription::Interrupt(interrupt_code_of((cause.0 - INTERRUPT_BIT) as u64))
    } else {
        TrapCauseDescription::Trap(cause.0)
    }
}

/// The bit of the interrupt-enable register that belongs to an interrupt.
#[derive(Debug, Clone, Copy, PartialEq, Eq, Structural)]
pub struct InterruptMask(pub u64);

/// The number of the bit that belongs to `code`.
pub open spec fn bit_of(code: InterruptCode) -> u64 {
    match code {
        InterruptCode::Software => 1,
        InterruptCode::Timer => 5,
        InterruptCode::External => 9,
        InterruptCode::CounterOverflow => 13,
        InterruptCode::Platform(c) => c,
        InterruptCode::Reseved(c) => c,
    }
}

/// The mask with the one bit that belongs to `code`; no bit at all where
/// the register has none with that number.
pub open spec fn mask_of(code: InterruptCode) -> InterruptMask {
    if bit_of(code) < 64 {
        InterruptMask(1u64 << bit_of(code))
    } else {
        InterruptMask(0)
    }
}

impl From<TrapCause> for TrapCauseDescription {
    fn from(value: TrapCause) -> (r: TrapCauseDescription) {
        let interrupt_mask: u64 = INTERRUPT_BIT;
        let is_interrupt = (value.0 & interrupt_mask) != 0;
        let cause = value.0;
        assert((cause & 0x8000_0000_0000_0000u64) != 0 <==> cause >= 0x8000_0000_0000_0000u64)
            by (bit_vector);
        if is_interrupt {
            let code = value.0 & !interrupt_mask;
            assert(cause >= 0x8000_0000_0000_0000u64 ==> (cause & !0x8000_0000_0000_0000u64)
                == cause - 0x8000_0000_0000_0000u64) by (bit_vector);
            let code = if code == 1 {
                InterruptCode::Software
            } else if code == 5 {
                InterruptCode::Timer
            } else if code == 9 {
                InterruptCode::External
            } else if code == 13 {
                InterruptCode::CounterOverflow
            } else if code >= 16 {
                InterruptCode::Platform(code)
            } else {
                InterruptCode::Reseved(code)
            };
            TrapCauseDescription::Interrupt(code)
        } else {
            TrapCauseDescription::Trap(value.0)
        }
    }
}

impl vstd::std_specs::convert::FromSpecImpl<TrapCause> for TrapCauseDescription {
    open spec fn obeys_from_spec() -> bool {
        true
    }

    open spec fn from_spec(value: TrapCause) -> TrapCauseDescription {
        description_of(value)
    }
}

impl From<InterruptCode> for InterruptMask {
    fn from(value: InterruptCode) -> (r: InterruptMask) {
        let bit: u64 = match value {
            InterruptCode::Software => 1,
            InterruptCode::Timer => 5,
            InterruptCode::External => 9,
            InterruptCode::CounterOverflow => 13,
            InterruptCode::Platform(c) => c,
            InterruptCode::Reseved(c) => c,
        };
        if bit < 64 {
            InterruptMask(1u64 << bit)
        } else {
            InterruptMask(0)
        }
    }
}

impl vstd::std_specs::convert::FromSpecImpl<InterruptCode> for InterruptMask {
    open spec fn obeys_from_spec() -> bool {
        true
    }

    open spec fn from_spec(value: InterruptCode) -> InterruptMask {
        mask_of(value)
    }
}

} // verus!
