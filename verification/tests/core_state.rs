//! Tests of the core-state module and the chip identity text.

use probe_rs::core_state::{
    BreakpointCause, CoreStatus, CortexAState, CortexMState, Dfsr, Dump, HaltReason,
    update_core_status,
};
use probe_rs::chip_info::ArmChipInfo;

#[test]
fn halt_reason_decoding() {
    assert_eq!(Dfsr::from_raw(0).halt_reason(), HaltReason::Unknown);
    assert_eq!(
        Dfsr::from_raw(0b00010).halt_reason(),
        HaltReason::Breakpoint(BreakpointCause::Unknown)
    );
    // A breakpoint wins even when other bits are set alongside it.
    assert_eq!(
        Dfsr::from_raw(0b00011).halt_reason(),
        HaltReason::Breakpoint(BreakpointCause::Unknown)
    );
    // Several bits without a breakpoint cannot be told apart.
    assert_eq!(Dfsr::from_raw(0b10100).halt_reason(), HaltReason::Multiple);
    assert_eq!(Dfsr::from_raw(0b10000).halt_reason(), HaltReason::External);
    assert_eq!(Dfsr::from_raw(0b00100).halt_reason(), HaltReason::Watchpoint);
    assert_eq!(Dfsr::from_raw(0b00001).halt_reason(), HaltReason::Request);
    assert_eq!(Dfsr::from_raw(0b01000).halt_reason(), HaltReason::Exception);
}

#[test]
fn dfsr_masks_undefined_bits() {
    let dfsr = Dfsr::from(0xFFFF_FFE0);
    assert_eq!(dfsr.halt_reason(), HaltReason::Unknown);
    assert_eq!(Dfsr::clear_all().0, 0b11111);
}

#[test]
fn core_status_notification_only_on_change() {
    let mut status = CoreStatus::Unknown;
    assert!(update_core_status(&mut status, CoreStatus::Running));
    assert_eq!(status, CoreStatus::Running);
    assert!(!update_core_status(&mut status, CoreStatus::Running));
    assert!(update_core_status(&mut status,
        CoreStatus::Halted(HaltReason::Breakpoint(BreakpointCause::Unknown))));
}

#[test]
fn cortex_state_initialization() {
    let mut m = CortexMState::new();
    assert!(!m.initialized());
    m.initialize();
    assert!(m.initialized());

    let mut a = CortexAState::new();
    assert!(!a.initialized());
    a.initialize();
    assert!(a.initialized());
}

#[test]
fn dump_zeroes_registers() {
    let dump = Dump::new(0x2000_0000, vec![1, 2, 3, 4]);
    assert_eq!(dump.regs, [0u32; 16]);
}

#[test]
fn chip_info_text() {
    // A manufacturer the JEP106 table knows: bank 0, id 1.
    let code = jep106::JEP106Code::new(0, 1);
    let name = code.get().expect("a known manufacturer");
    let info = ArmChipInfo { manufacturer: code, part: 0x480 };
    assert_eq!(info.display_name(), format!("{} 0x{:04x}", name, 0x480));

    // An unknown code renders its raw bytes instead.
    let unknown = jep106::JEP106Code::new(0, 0);
    assert_eq!(unknown.get(), None);
    let info = ArmChipInfo { manufacturer: unknown, part: 0x12 };
    assert_eq!(
        info.display_name(),
        format!("<unknown manufacturer (cc={:2x}, id={:2x})> 0x{:04x}", 0, 0, 0x12)
    );
}
