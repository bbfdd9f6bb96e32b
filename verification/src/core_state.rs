//! Core-side state: the debug fault status register, core status caches and
//! register dumps for Cortex-M and Cortex-A cores.

use vstd::prelude::*;

verus! {

/// What caused a breakpoint halt, as far as the core reports it.
#[derive(Debug, Clone, Copy, PartialEq, Eq, Structural)]
pub enum BreakpointCause {
    /// A hardware breakpoint unit match.
    Hardware,
    /// A breakpoint instruction in the program.
    Software,
    /// The core does not say which kind of breakpoint fired.
    Unknown,
}

/// Why a core halted.
#[derive(Debug, Clone, Copy, PartialEq, Eq, Structural)]
pub enum HaltReason {
    /// A breakpoint was hit.
    Breakpoint(BreakpointCause),
    /// An exception (e.g. a vector catch) halted the core.
    Exception,
    /// A watchpoint (data trap) halted the core.
    Watchpoint,
    /// An external debug request halted the core.
    External,
    /// An explicit halt request from the debugger.
    Request,
    /// Several halt conditions were flagged at once.
    Multiple,
    /// The core is halted for an unknown reason.
    Unknown,
}

/// The status of a core as the debugger last observed it.
#[derive(Debug, Clone, Copy, PartialEq, Eq, Structural)]
pub enum CoreStatus {
    /// The core is running.
    Running,
    /// The core is halted, for the given reason.
    Halted(HaltReason),
    /// The core is locked up.
    LockedUp,
    /// The core is sleeping.
    Sleeping,
    /// The status has not been read yet.
    Unknown,
}

/// A semihosting request decoded at the current program counter.
#[derive(Debug, Clone, Copy, PartialEq, Eq, Structural)]
pub enum SemihostingCommand {
    /// The program signalled successful termination.
    ExitSuccess,
    /// The program signalled termination with an error.
    ExitError,
    /// A semihosting operation this driver does not interpret.
    Unknown,
}

/// The value of one core register.
#[derive(Debug, Clone, Copy, PartialEq, Eq, Structural)]
pub enum RegisterValue {
    /// A 32-bit register value.
    U32(u32),
    /// A 64-bit register value.
    U64(u64),
    /// A 128-bit register value.
    U128(u128),
}

/// Record a new core status in the cached one, and say whether the probe
/// must be notified: only when the status actually changed.
pub fn update_core_status(current_status: &mut CoreStatus, new_status: CoreStatus) -> (notify: bool)
    ensures
        *final(current_status) == new_status,
        notify == (*old(current_status) != new_status),
{
    let notify = !(*current_status == new_status);
    *current_status = new_status;
    notify
}

/// The Debug Fault Status Register of a Cortex-M core. Only the low five
/// bits are meaningful; the rest read as zero.
#[derive(Debug, Clone, Copy, PartialEq, Eq, Structural)]
pub struct Dfsr(pub u32);

impl Dfsr {
    /// Only the five defined fault bits are set.
    pub open spec fn wf(self) -> bool {
        self.0 & !0x1Fu32 == 0
    }

    /// An asynchronous debug event from EDBGRQ: bit 4.
    pub open spec fn spec_external(self) -> bool {
        self.0 & 0x10 != 0
    }

    /// A vector catch debug event: bit 3.
    pub open spec fn spec_vcatch(self) -> bool {
        self.0 & 0x8 != 0
    }

    /// A debug event generated by the DWT: bit 2.
    pub open spec fn spec_dwttrap(self) -> bool {
        self.0 & 0x4 != 0
    }

    /// A breakpoint debug event: bit 1.
    pub open spec fn spec_bkpt(self) -> bool {
        self.0 & 0x2 != 0
    }

    /// A halt request debug event: bit 0.
    pub open spec fn spec_halted(self) -> bool {
        self.0 & 0x1 != 0
    }

    /// How many of the five fault bits are set.
    pub open spec fn spec_count(self) -> int {
        (if self.spec_external() { 1int } else { 0 })
        + (if self.spec_vcatch() { 1int } else { 0 })
        + (if self.spec_dwttrap() { 1int } else { 0 })
        + (if self.spec_bkpt() { 1int } else { 0 })
        + (if self.spec_halted() { 1int } else { 0 })
    }

    /// Read the EDBGRQ event bit.
    pub fn external(&self) -> (r: bool)
        ensures
            r == self.spec_external(),
    {
        self.0 & 0x10 != 0
    }

    /// Read the vector catch event bit.
    pub fn vcatch(&self) -> (r: bool)
        ensures
            r == self.spec_vcatch(),
    {
        self.0 & 0x8 != 0
    }

    /// Read the DWT event bit.
    pub fn dwttrap(&self) -> (r: bool)
        ensures
            r == self.spec_dwttrap(),
    {
        self.0 & 0x4 != 0
    }

    /// Read the breakpoint event bit.
    pub fn bkpt(&self) -> (r: bool)
        ensures
            r == self.spec_bkpt(),
    {
        self.0 & 0x2 != 0
    }

    /// Read the halt request event bit.
    pub fn halted(&self) -> (r: bool)
        ensures
            r == self.spec_halted(),
    {
        self.0 & 0x1 != 0
    }

    /// The value whose write clears every fault bit.
    pub fn clear_all() -> (r: Self)
        ensures
            r.0 == 0x1Fu32,
    {
        Dfsr(0b11111)
    }

    /// Build a register value from a raw word, masking the unused bits so
    /// that the bit count is meaningful.
    pub fn from_raw(val: u32) -> (r: Self)
        ensures
            r.0 == val & 0x1Fu32,
            r.wf(),
    {
        proof {
            assert((val & 0x1Fu32) & !0x1Fu32 == 0) by (bit_vector);
        }
        Dfsr(val & 0b11111)
    }

    /// The halt reason encoded in the register.
    pub open spec fn spec_halt_reason(self) -> HaltReason {
        if self.0 == 0 {
            HaltReason::Unknown
        } else if self.spec_count() > 1 {
            if self.spec_bkpt() {
                HaltReason::Breakpoint(BreakpointCause::Unknown)
            } else {
                HaltReason::Multiple
            }
        } else if self.spec_bkpt() {
            HaltReason::Breakpoint(BreakpointCause::Unknown)
        } else if self.spec_external() {
            HaltReason::External
        } else if self.spec_dwttrap() {
            HaltReason::Watchpoint
        } else if self.spec_halted() {
            HaltReason::Request
        } else {
            HaltReason::Exception
        }
    }

    /// Decide why the core halted. When several bits are set, a breakpoint
    /// still wins, because debuggers care most about that; a single set bit
    /// names its reason directly.
    pub fn halt_reason(&self) -> (r: HaltReason)
        requires
            self.wf(),
        ensures
            r == self.spec_halt_reason(),
    {
        let count = (if self.external() { 1u32 } else { 0 })
            + (if self.vcatch() { 1u32 } else { 0 })
            + (if self.dwttrap() { 1u32 } else { 0 })
            + (if self.bkpt() { 1u32 } else { 0 })
            + (if self.halted() { 1u32 } else { 0 });
        if self.0 == 0 {
            HaltReason::Unknown
        } else if count > 1 {
            if self.bkpt() {
                HaltReason::Breakpoint(BreakpointCause::Unknown)
            } else {
                HaltReason::Multiple
            }
        } else if self.bkpt() {
            HaltReason::Breakpoint(BreakpointCause::Unknown)
        } else if self.external() {
            HaltReason::External
        } else if self.dwttrap() {
            HaltReason::Watchpoint
        } else if self.halted() {
            HaltReason::Request
        } else {
            proof {
                let v = self.0;
                assert(v & !0x1Fu32 == 0 && v != 0 && v & 0x10 == 0 && v & 0x4 == 0
                    && v & 0x2 == 0 && v & 0x1 == 0 ==> v & 0x8 != 0) by (bit_vector);
            }
            assert(self.spec_vcatch());
            HaltReason::Exception
        }
    }
}

impl From<u32> for Dfsr {
    /// Mask the unused bits away, so that bit counting stays meaningful.
    fn from(val: u32) -> (r: Self) {
        Dfsr::from_raw(val)
    }
}

impl vstd::std_specs::convert::FromSpecImpl<u32> for Dfsr {
    open spec fn obeys_from_spec() -> bool {
        true
    }

    open spec fn from_spec(val: u32) -> Self {
        Dfsr((val & 0x1Fu32) as u32)
    }
}

/// Core state downloaded from the target: register values and a stack dump.
pub struct Dump {
    /// The register values at the time of the dump.
    pub regs: [u32; 16],
    stack_addr: u32,
    stack: Vec<u8>,
}

impl Dump {
    /// The stack pointer the stack dump starts at.
    pub closed spec fn spec_stack_addr(self) -> u32 {
        self.stack_addr
    }

    /// The dumped stack bytes.
    pub closed spec fn spec_stack(self) -> Seq<u8> {
        self.stack@
    }

    /// The register values at the time of the dump.
    pub closed spec fn spec_regs(self) -> Seq<u32> {
        self.regs@
    }

    /// A dump of the given stack with all register values zeroed.
    pub fn new(stack_addr: u32, stack: Vec<u8>) -> (r: Dump)
        ensures
            forall|i: int| 0 <= i < 16 ==> r.spec_regs()[i] == 0u32,
            r.spec_stack_addr() == stack_addr,
            r.spec_stack() == stack@,
    {
        Dump { regs: [0u32; 16], stack_addr, stack }
    }
}

/// The cached state of a Cortex-M core, kept so the core need not be polled
/// for every question.
pub struct CortexMState {
    initialized: bool,
    hw_breakpoints_enabled: bool,
    current_state: CoreStatus,
    fp_present: bool,
    semihosting_command: Option<SemihostingCommand>,
}

impl CortexMState {
    /// Whether the state has been initialized.
    pub closed spec fn spec_initialized(self) -> bool {
        self.initialized
    }

    /// The cached core status.
    pub closed spec fn spec_current_state(self) -> CoreStatus {
        self.current_state
    }

    /// Fresh, uninitialized state.
    pub fn new() -> (r: Self)
        ensures
            !r.spec_initialized(),
            r.spec_current_state() == CoreStatus::Unknown,
    {
        Self {
            initialized: false,
            hw_breakpoints_enabled: false,
            current_state: CoreStatus::Unknown,
            fp_present: false,
            semihosting_command: None,
        }
    }

    /// Mark the state initialized.
    pub fn initialize(&mut self)
        ensures
            final(self).spec_initialized(),
            final(self).spec_current_state() == old(self).spec_current_state(),
    {
        self.initialized = true;
    }

    /// Whether the state has been initialized.
    pub fn initialized(&self) -> (r: bool)
        ensures
            r == self.spec_initialized(),
    {
        self.initialized
    }
}

/// The cached state of a Cortex-A core.
pub struct CortexAState {
    initialized: bool,
    current_state: CoreStatus,
    is_64_bit: bool,
    register_cache: Vec<Option<(RegisterValue, bool)>>,
    fp_reg_count: usize,
}

impl CortexAState {
    /// Whether the state has been initialized.
    pub closed spec fn spec_initialized(self) -> bool {
        self.initialized
    }

    /// The cached core status.
    pub closed spec fn spec_current_state(self) -> CoreStatus {
        self.current_state
    }

    /// Fresh, uninitialized state.
    pub fn new() -> (r: Self)
        ensures
            !r.spec_initialized(),
            r.spec_current_state() == CoreStatus::Unknown,
    {
        Self {
            initialized: false,
            current_state: CoreStatus::Unknown,
            is_64_bit: false,
            register_cache: Vec::new(),
            fp_reg_count: 0,
        }
    }

    /// Mark the state initialized.
    pub fn initialize(&mut self)
        ensures
            final(self).spec_initialized(),
            final(self).spec_current_state() == old(self).spec_current_state(),
    {
        self.initialized = true;
    }

    /// Whether the state has been initialized.
    pub fn initialized(&self) -> (r: bool)
        ensures
            r == self.spec_initialized(),
    {
        self.initialized
    }
}

} // verus!
