use bootcore::traps::{InterruptCode, InterruptMask, TrapCause, TrapCauseDescription};

const INTERRUPT: u64 = 1 << 63;

#[test]
fn cause_tells_interrupts_from_exceptions() {
    assert_eq!(TrapCauseDescription::from(TrapCause(0)), TrapCauseDescription::Trap(0));
    assert_eq!(TrapCauseDescription::from(TrapCause(5)), TrapCauseDescription::Trap(5));
    assert_eq!(
        TrapCauseDescription::from(TrapCause(INTERRUPT - 1)),
        TrapCauseDescription::Trap(INTERRUPT - 1)
    );
    for (code, expected) in [
        (1u64, InterruptCode::Software),
        (5, InterruptCode::Timer),
        (9, InterruptCode::External),
        (13, InterruptCode::CounterOverflow),
        (0, InterruptCode::Reseved(0)),
        (2, InterruptCode::Reseved(2)),
        (15, InterruptCode::Reseved(15)),
        (16, InterruptCode::Platform(16)),
        (INTERRUPT - 1, InterruptCode::Platform(INTERRUPT - 1)),
    ] {
        assert_eq!(
            TrapCauseDescription::from(TrapCause(INTERRUPT | code)),
            TrapCauseDescription::Interrupt(expected)
        );
    }
    let description: TrapCauseDescription = TrapCause(0x8000_0000_0000_0005).into();
    assert_eq!(description, TrapCauseDescription::Interrupt(InterruptCode::Timer));
}

#[test]
fn mask_has_the_bit_of_the_interrupt() {
    assert_eq!(InterruptMask::from(InterruptCode::Software), InterruptMask(0x2));
    assert_eq!(InterruptMask::from(InterruptCode::Timer), InterruptMask(0x20));
    assert_eq!(InterruptMask::from(InterruptCode::External), InterruptMask(0x200));
    assert_eq!(InterruptMask::from(InterruptCode::CounterOverflow), InterruptMask(0x2000));
    assert_eq!(InterruptMask::from(InterruptCode::Platform(16)), InterruptMask(0x1_0000));
    assert_eq!(InterruptMask::from(InterruptCode::Reseved(0)), InterruptMask(1));
    assert_eq!(InterruptMask::from(InterruptCode::Platform(63)), InterruptMask(INTERRUPT));
    assert_eq!(InterruptMask::from(InterruptCode::Platform(64)), InterruptMask(0));
    assert_eq!(InterruptMask::from(InterruptCode::Platform(u64::MAX)), InterruptMask(0));
}
