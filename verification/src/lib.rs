//! Verified core of an ARM debug-probe driver.
//!
//! Two subsystems carry the real logic. The Debug Access Port (DAP) state
//! machine mediates every register access against a target: it caches the
//! target's latched SELECT register per debug port, suppresses redundant
//! SELECT writes, and switches between debug ports on multidrop targets.
//! The DWARF line-program decomposer turns a sequence of line-program rows
//! into blocks of instructions and resolves breakpoints to verified halt
//! addresses.
//!
//! All probe I/O, chip-specific bring-up hooks and DWARF section parsing
//! happen outside this crate: the functions here are decision and
//! computation steps from plain values to plain values, so that a driver
//! loop performs each planned wire action and commits its outcome.

pub mod dp;
pub mod communication_interface;
pub mod core_state;
pub mod instruction;
pub mod block;
pub mod sequence;
pub mod breakpoint;
pub mod laws;
pub mod chip_info;
