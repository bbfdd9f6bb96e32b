//! The DAP state machine: per-debug-port SELECT caching and port switching.
//!
//! Every logical register access must first latch the right bank and access
//! port in the target's SELECT register. The functions here decide, from the
//! cached SELECT value, which wire writes a driver must issue and what the
//! cache becomes once those writes succeed. The driver performs the wire
//! writes and the chip-specific bring-up hooks between calls and commits
//! each outcome, so the cache always mirrors the last successful wire write.

use vstd::prelude::*;
use crate::dp::{
    ApAddress, DebugPortVersion, DpAddress, DpRegisterAddress, FullyQualifiedApAddress,
    Select1, SelectV1, SelectV3, spec_orun_detect, orun_detect, set_orun_detect,
};

verus! {

/// An error in the communication with an access port or debug port.
#[derive(Debug, Clone, Copy, PartialEq, Eq, Structural)]
pub enum DapError {
    /// An error occurred during SWD communication.
    SwdProtocol,
    /// The target device did not respond to the request.
    NoAcknowledge,
    /// The target device responded with a FAULT response to the request.
    FaultResponse,
    /// The target device responded with a WAIT response to the request.
    WaitResponse,
    /// The parity bit on the read request was incorrect.
    IncorrectParity,
}

impl DapError {
    /// A fixed description of the error.
    pub fn message(&self) -> (r: &'static str)
        ensures
            r@ =~= self.spec_message(),
    {
        match self {
            DapError::SwdProtocol => "An error occurred in the SWD communication between probe and device.",
            DapError::NoAcknowledge => "Target device did not respond to request.",
            DapError::FaultResponse => "Target device responded with a FAULT response to the request.",
            DapError::WaitResponse => "Target device responded with a WAIT response to the request.",
            DapError::IncorrectParity => "Incorrect parity on READ request.",
        }
    }

    /// The description text of each error.
    pub open spec fn spec_message(self) -> Seq<char> {
        match self {
            DapError::SwdProtocol => "An error occurred in the SWD communication between probe and device."@,
            DapError::NoAcknowledge => "Target device did not respond to request."@,
            DapError::FaultResponse => "Target device responded with a FAULT response to the request."@,
            DapError::WaitResponse => "Target device responded with a WAIT response to the request."@,
            DapError::IncorrectParity => "Incorrect parity on READ request."@,
        }
    }
}

/// The cached value of the target's SELECT register(s) for one debug port:
/// a DPv1-style single word, or the DPv3-style SELECT plus SELECT1 pair.
#[derive(Debug, Clone, Copy, PartialEq, Eq, Structural)]
pub enum SelectCache {
    /// The DPv1-style SELECT word, used by DPv0 through DPv2.
    DPv1(SelectV1),
    /// The DPv3-style SELECT and SELECT1 pair.
    DPv3(SelectV3, Select1),
}

/// The debug-port bank latched by a cached SELECT value.
pub open spec fn cache_dp_bank_sel(c: SelectCache) -> u8 {
    match c {
        SelectCache::DPv1(s) => s.spec_dp_bank_sel(),
        SelectCache::DPv3(s, _) => s.spec_dp_bank_sel(),
    }
}

/// The cached SELECT value with its debug-port bank field replaced.
pub open spec fn cache_with_dp_bank(c: SelectCache, bank: u8) -> SelectCache {
    match c {
        SelectCache::DPv1(s) => SelectCache::DPv1(
            SelectV1((s.0 & !0xFu32) | ((bank as u32) & 0xF)),
        ),
        SelectCache::DPv3(s, s1) => SelectCache::DPv3(
            SelectV3((s.0 & !0xFu32) | ((bank as u32) & 0xF)),
            s1,
        ),
    }
}

/// The low SELECT word of a cached value: what a SELECT write carries.
pub open spec fn cache_select_word(c: SelectCache) -> u32 {
    match c {
        SelectCache::DPv1(s) => s.0,
        SelectCache::DPv3(s, _) => s.0,
    }
}

impl SelectCache {
    /// Read the latched debug-port bank.
    pub fn dp_bank_sel(&self) -> (r: u8)
        ensures
            r == cache_dp_bank_sel(*self),
    {
        match self {
            SelectCache::DPv1(s) => s.dp_bank_sel(),
            SelectCache::DPv3(s, _) => s.dp_bank_sel(),
        }
    }

    /// Replace the latched debug-port bank.
    pub fn set_dp_bank_sel(&mut self, bank: u8)
        ensures
            *final(self) == cache_with_dp_bank(*old(self), bank),
    {
        let c = *self;
        *self = match c {
            SelectCache::DPv1(mut s) => {
                s.set_dp_bank_sel(bank);
                SelectCache::DPv1(s)
            }
            SelectCache::DPv3(mut s, s1) => {
                s.set_dp_bank_sel(bank);
                SelectCache::DPv3(s, s1)
            }
        };
    }
}

/// Per-debug-port state: the version learnt on bring-up, and the SELECT
/// cache that mirrors the target's latched SELECT register(s).
#[derive(Debug, Clone, Copy, PartialEq, Eq, Structural)]
pub struct DpState {
    /// The debug-port version, from DPIDR; unknown until bring-up finishes.
    pub debug_port_version: DebugPortVersion,
    /// The cached SELECT value for this debug port.
    pub current_select: SelectCache,
}

impl DpState {
    /// The state of a debug port before its bring-up has finished.
    pub open spec fn spec_new() -> DpState {
        DpState {
            debug_port_version: DebugPortVersion::Unsupported(0xFF),
            current_select: SelectCache::DPv1(SelectV1(0)),
        }
    }

    /// Fresh state for a debug port whose bring-up has not finished.
    pub fn new() -> (r: Self)
        ensures
            r == Self::spec_new(),
    {
        Self {
            debug_port_version: DebugPortVersion::Unsupported(0xFF),
            current_select: SelectCache::DPv1(SelectV1(0)),
        }
    }
}

/// Which SELECT register a planned wire write targets.
#[derive(Debug, Clone, Copy, PartialEq, Eq, Structural)]
pub enum SelectRegister {
    /// The SELECT register (debug-port register 0x8).
    Select,
    /// The SELECT1 register holding the high word of a DPv3 address.
    Select1,
}

/// One wire write of a SELECT register that a driver must issue before the
/// pending register access.
#[derive(Debug, Clone, Copy, PartialEq, Eq, Structural)]
pub struct SelectWrite {
    /// The SELECT register written.
    pub register: SelectRegister,
    /// The word written.
    pub value: u32,
}

/// The SELECT register values latched on the target, as the wire writes
/// leave them.
#[derive(Debug, Clone, Copy, PartialEq, Eq, Structural)]
pub struct TargetSelect {
    /// The latched SELECT word.
    pub select: u32,
    /// The latched SELECT1 word.
    pub select1: u32,
}

/// The target's latched registers after one SELECT write.
pub open spec fn apply_select_write(t: TargetSelect, w: SelectWrite) -> TargetSelect {
    match w.register {
        SelectRegister::Select => TargetSelect { select: w.value, ..t },
        SelectRegister::Select1 => TargetSelect { select1: w.value, ..t },
    }
}

/// The target's latched registers after a run of SELECT writes.
pub open spec fn apply_select_writes(t: TargetSelect, ws: Seq<SelectWrite>) -> TargetSelect
    decreases ws.len(),
{
    if ws.len() == 0 {
        t
    } else {
        apply_select_writes(apply_select_write(t, ws[0]), ws.drop_first())
    }
}

/// The cache agrees with the target's latched SELECT register(s): the cached
/// words equal what the last successful wire writes latched.
pub open spec fn cache_matches_target(c: SelectCache, t: TargetSelect) -> bool {
    match c {
        SelectCache::DPv1(s) => t.select == s.0,
        SelectCache::DPv3(s, s1) => t.select == s.0 && t.select1 == s1.0,
    }
}

/// The plan for latching the debug-port bank before a debug-port register
/// access: the SELECT write to issue and the cache once it succeeds, or
/// `None` when no write is needed.
pub open spec fn dp_bank_select_plan_spec(
    c: SelectCache,
    addr: DpRegisterAddress,
) -> Option<(SelectWrite, SelectCache)> {
    if !addr.is_banked() {
        None
    } else {
        let bank = addr.bank_or_default();
        if cache_dp_bank_sel(c) == bank {
            None
        } else {
            let c1 = cache_with_dp_bank(c, bank);
            Some((
                SelectWrite { register: SelectRegister::Select, value: cache_select_word(c1) },
                c1,
            ))
        }
    }
}

/// The DPv1-style SELECT word with the access-port select and bank fields
/// replaced, in the order the fields are latched.
pub open spec fn v1_with_ap(s: SelectV1, port: u8, ap_bank: u8) -> SelectV1 {
    SelectV1(
        (((s.0 & 0x00FF_FFFFu32) | ((port as u32) << 24)) & !0xF0u32)
            | (((ap_bank as u32) & 0xF) << 4),
    )
}

/// The plan for latching an access-port address before an access-port
/// register access: the SELECT writes to issue (none when the cache already
/// matches) and the cache once they succeed.
pub open spec fn ap_select_plan_spec(
    c: SelectCache,
    ap: ApAddress,
    ap_register_address: u64,
) -> (Seq<SelectWrite>, SelectCache) {
    match (ap, c) {
        (ApAddress::V1(port), SelectCache::DPv1(s)) => {
            let reg8 = (ap_register_address & 0xFF) as u8;
            let ap_bank = reg8 >> 4;
            let s_new = v1_with_ap(s, port, ap_bank);
            let c1 = SelectCache::DPv1(s_new);
            if c1 == c {
                (Seq::<SelectWrite>::empty(), c)
            } else {
                (
                    seq![SelectWrite { register: SelectRegister::Select, value: s_new.0 }],
                    c1,
                )
            }
        }
        (ApAddress::V2(base), SelectCache::DPv3(s, s1)) => {
            let base_value: u64 = match base {
                Some(b) => b,
                None => 0,
            };
            let address = (base_value + ap_register_address) as u64;
            let s_new = SelectV3((s.0 & 0xFu32) | ((((address >> 4) & 0xFFFF_FFFF) as u32) << 4));
            let s1_new = Select1((address >> 32) as u32);
            let c1 = SelectCache::DPv3(s_new, s1_new);
            if c1 == c {
                (Seq::<SelectWrite>::empty(), c)
            } else {
                (
                    seq![
                        SelectWrite { register: SelectRegister::Select, value: s_new.0 },
                        SelectWrite { register: SelectRegister::Select1, value: s1_new.0 },
                    ],
                    c1,
                )
            }
        }
        _ => (Seq::<SelectWrite>::empty(), c),
    }
}

/// An access-port address can only be latched through the matching SELECT
/// flavour: ADIv5 slots through the DPv1-style word, ADIv6 addresses through
/// the DPv3-style pair. Any other pairing is an internal programming error.
pub open spec fn ap_cache_compatible(ap: ApAddress, c: SelectCache) -> bool {
    match (ap, c) {
        (ApAddress::V1(_), SelectCache::DPv1(_)) => true,
        (ApAddress::V2(_), SelectCache::DPv3(_, _)) => true,
        _ => false,
    }
}

/// An ADIv6 access-port address added to a register offset must not wrap.
pub open spec fn ap_address_in_range(ap: ApAddress, ap_register_address: u64) -> bool {
    match ap {
        ApAddress::V1(_) => true,
        ApAddress::V2(base) => {
            let base_value: u64 = match base {
                Some(b) => b,
                None => 0,
            };
            base_value + ap_register_address <= u64::MAX
        }
    }
}

/// What must still happen before a debug port can carry register accesses:
/// switching the wire to it, bringing fresh state up, running the start hook.
#[derive(Debug, Clone, Copy, PartialEq, Eq, Structural)]
pub struct DpSelectPlan {
    /// The wire must be switched: flush, then connect (or the heavier setup).
    pub needs_switch: bool,
    /// No state exists for the port yet: register it and run bring-up.
    pub needs_bring_up: bool,
    /// The start hook must run, because the port is fresh or was switched to.
    pub needs_start: bool,
}

/// Marker for the two phases of the communication interface.
pub trait ArmDebugState {
}

/// The phase before any debug-port handshake: only configuration is held.
#[derive(Debug, Clone, Copy, PartialEq, Eq, Structural)]
pub struct Uninitialized {
    /// Whether overrun detection should be enabled on bring-up.
    pub use_overrun_detect: bool,
}

impl ArmDebugState for Uninitialized {
}

/// The phase after at least one debug port was brought up: the currently
/// selected port and the per-port state.
pub struct Initialized {
    current_dp: DpAddress,
    dps: Vec<(DpAddress, DpState)>,
    use_overrun_detect: bool,
}

impl ArmDebugState for Initialized {
}

impl Initialized {
    /// Each known debug port appears once.
    pub closed spec fn wf(self) -> bool {
        forall|i: int, j: int|
            0 <= i < self.dps@.len() && 0 <= j < self.dps@.len() && i != j
                ==> (#[trigger] self.dps@[i]).0 != (#[trigger] self.dps@[j]).0
    }

    /// The currently selected debug port.
    pub closed spec fn spec_current_dp(self) -> DpAddress {
        self.current_dp
    }

    /// Whether overrun detection is configured on.
    pub closed spec fn spec_use_overrun_detect(self) -> bool {
        self.use_overrun_detect
    }

    /// Whether state exists for a debug port.
    pub closed spec fn has_dp(self, dp: DpAddress) -> bool {
        exists|i: int| 0 <= i < self.dps@.len() && (#[trigger] self.dps@[i]).0 == dp
    }

    /// The index at which a known debug port's state is held.
    pub closed spec fn dp_index_spec(self, dp: DpAddress) -> int {
        choose|i: int| 0 <= i < self.dps@.len() && (#[trigger] self.dps@[i]).0 == dp
    }

    /// The state held for a known debug port.
    pub closed spec fn dp_state_spec(self, dp: DpAddress) -> DpState {
        self.dps@[self.dp_index_spec(dp)].1
    }

    /// The number of known debug ports.
    pub closed spec fn spec_dp_count(self) -> int {
        self.dps@.len() as int
    }

    /// State for a freshly selected debug port: no per-port state yet.
    pub fn new(current_dp: DpAddress, use_overrun_detect: bool) -> (r: Self)
        ensures
            r.wf(),
            r.spec_current_dp() == current_dp,
            r.spec_use_overrun_detect() == use_overrun_detect,
            forall|d: DpAddress| !r.has_dp(d),
    {
        Self { current_dp, dps: Vec::new(), use_overrun_detect }
    }
}

/// The communication interface to an ARM target's debug access port, in
/// either of its two phases. Wire transactions and chip-specific hooks are
/// performed by the surrounding driver; this state machine decides them.
pub struct ArmCommunicationInterface<S: ArmDebugState> {
    /// The phase-specific state.
    pub state: S,
}

impl ArmCommunicationInterface<Uninitialized> {
    /// A just-attached interface: no debug port brought up yet.
    pub fn new(use_overrun_detect: bool) -> (r: Self)
        ensures
            r.state.use_overrun_detect == use_overrun_detect,
    {
        Self { state: Uninitialized { use_overrun_detect } }
    }

    /// The one-way transition into the initialized phase, taken once the
    /// debug-port setup hook has succeeded for `dp`. Consumes the
    /// uninitialized interface; on hook failure the driver keeps it instead.
    pub fn initialize(self, dp: DpAddress) -> (r: ArmCommunicationInterface<Initialized>)
        ensures
            r.state.wf(),
            r.state.spec_current_dp() == dp,
            r.state.spec_use_overrun_detect() == self.state.use_overrun_detect,
            forall|d: DpAddress| !r.state.has_dp(d),
    {
        ArmCommunicationInterface {
            state: Initialized::new(dp, self.state.use_overrun_detect),
        }
    }
}

impl ArmCommunicationInterface<Initialized> {
    /// The currently selected debug port.
    pub fn current_debug_port(&self) -> (r: DpAddress)
        ensures
            r == self.state.spec_current_dp(),
    {
        self.state.current_dp
    }

    /// Find the index of a known debug port.
    fn dp_position(&self, dp: DpAddress) -> (r: Option<usize>)
        requires
            self.state.wf(),
        ensures
            match r {
                Some(i) => self.state.has_dp(dp) && 0 <= i < self.state.dps@.len()
                    && self.state.dps@[i as int].0 == dp
                    && i as int == self.state.dp_index_spec(dp),
                None => !self.state.has_dp(dp),
            },
    {
        let n = self.state.dps.len();
        let mut i: usize = 0;
        while i < n
            invariant
                self.state.wf(),
                n == self.state.dps@.len(),
                0 <= i <= n,
                forall|j: int| 0 <= j < i ==> (#[trigger] self.state.dps@[j]).0 != dp,
            decreases n - i,
        {
            if self.state.dps[i].0 == dp {
                proof {
                    assert(self.state.dps@[i as int].0 == dp);
                    assert(self.state.has_dp(dp));
                    let w = self.state.dp_index_spec(dp);
                    assert(0 <= w < self.state.dps@.len() && self.state.dps@[w].0 == dp);
                    assert(w == i as int);
                }
                return Some(i);
            }
            i = i + 1;
        }
        None
    }

    /// What must happen before `dp` can carry register accesses: nothing if
    /// it is current and known; otherwise the wire switch, bring-up and
    /// start hooks the driver has to run.
    pub fn select_dp_plan(&self, dp: DpAddress) -> (plan: DpSelectPlan)
        requires
            self.state.wf(),
        ensures
            plan.needs_switch == (self.state.spec_current_dp() != dp),
            plan.needs_bring_up == !self.state.has_dp(dp),
            plan.needs_start == (plan.needs_bring_up || plan.needs_switch),
    {
        let needs_switch = !(self.state.current_dp == dp);
        let needs_bring_up = self.dp_position(dp).is_none();
        DpSelectPlan {
            needs_switch,
            needs_bring_up,
            needs_start: needs_bring_up || needs_switch,
        }
    }

    /// Record a successful wire switch to `dp`: it becomes the current port.
    /// Called only after the connect (or setup) hook succeeded.
    pub fn commit_dp_switch(&mut self, dp: DpAddress)
        requires
            old(self).state.wf(),
        ensures
            final(self).state.wf(),
            final(self).state.spec_current_dp() == dp,
            forall|d: DpAddress| final(self).state.has_dp(d) == old(self).state.has_dp(d),
            forall|d: DpAddress| old(self).state.has_dp(d)
                ==> final(self).state.dp_state_spec(d) == old(self).state.dp_state_spec(d),
            final(self).state.spec_use_overrun_detect()
                == old(self).state.spec_use_overrun_detect(),
    {
        self.state.current_dp = dp;
    }

    /// Insert fresh state for a debug port none is held for yet. The driver
    /// then runs the start hook and finishes bring-up with the DPIDR value.
    pub fn register_dp(&mut self, dp: DpAddress)
        requires
            old(self).state.wf(),
            !old(self).state.has_dp(dp),
        ensures
            final(self).state.wf(),
            final(self).state.has_dp(dp),
            final(self).state.dp_state_spec(dp) == DpState::spec_new(),
            final(self).state.spec_current_dp() == old(self).state.spec_current_dp(),
            final(self).state.spec_use_overrun_detect()
                == old(self).state.spec_use_overrun_detect(),
            forall|d: DpAddress| d != dp ==> final(self).state.has_dp(d) == old(self).state.has_dp(d),
            forall|d: DpAddress| d != dp && old(self).state.has_dp(d)
                ==> final(self).state.dp_state_spec(d) == old(self).state.dp_state_spec(d),
    {
        let ghost pre = self.state.dps@;
        self.state.dps.push((dp, DpState::new()));
        proof {
            let post = self.state.dps@;
            assert(post == pre.push((dp, DpState::spec_new())));
            assert(post[pre.len() as int].0 == dp);
            assert(self.state.has_dp(dp));
            assert forall|d: DpAddress| d != dp && old(self).state.has_dp(d)
                implies self.state.has_dp(d)
                    && self.state.dp_state_spec(d) == old(self).state.dp_state_spec(d) by {
                let i = old(self).state.dp_index_spec(d);
                assert(0 <= i < pre.len() && pre[i].0 == d);
                assert(post[i].0 == d);
                assert(self.state.has_dp(d));
                let j = self.state.dp_index_spec(d);
                assert(0 <= j < post.len() && post[j].0 == d);
                assert(j == i);
            }
            assert forall|d: DpAddress| d != dp && self.state.has_dp(d)
                implies old(self).state.has_dp(d) by {
                let j = self.state.dp_index_spec(d);
                assert(0 <= j < post.len() && post[j].0 == d);
                assert(j < pre.len());
                assert(pre[j].0 == d);
            }
            let k = self.state.dp_index_spec(dp);
            assert(0 <= k < post.len() && post[k].0 == dp);
            assert(k == pre.len() as int);
        }
    }

    /// Replace the state of a known debug port.
    fn set_dp_state(&mut self, dp: DpAddress, st: DpState)
        requires
            old(self).state.wf(),
            old(self).state.has_dp(dp),
        ensures
            final(self).state.wf(),
            final(self).state.has_dp(dp),
            final(self).state.dp_state_spec(dp) == st,
            final(self).state.spec_current_dp() == old(self).state.spec_current_dp(),
            final(self).state.spec_use_overrun_detect()
                == old(self).state.spec_use_overrun_detect(),
            forall|d: DpAddress| final(self).state.has_dp(d) == old(self).state.has_dp(d),
            forall|d: DpAddress| d != dp && old(self).state.has_dp(d)
                ==> final(self).state.dp_state_spec(d) == old(self).state.dp_state_spec(d),
    {
        let ghost pre = self.state.dps@;
        let pos = self.dp_position(dp);
        match pos {
            Some(i) => {
                self.state.dps[i] = (dp, st);
                proof {
                    let post = self.state.dps@;
                    assert(post == pre.update(i as int, (dp, st)));
                    assert forall|a: int, b: int|
                        0 <= a < post.len() && 0 <= b < post.len() && a != b
                        implies (#[trigger] post[a]).0 != (#[trigger] post[b]).0 by {
                        assert(pre[a].0 == post[a].0 || a == i);
                        assert(pre[b].0 == post[b].0 || b == i);
                    }
                    assert(post[i as int].0 == dp);
                    assert(self.state.has_dp(dp));
                    let k = self.state.dp_index_spec(dp);
                    assert(0 <= k < post.len() && post[k].0 == dp);
                    assert(k == i as int);
                    assert forall|d: DpAddress| d != dp && old(self).state.has_dp(d)
                        implies self.state.has_dp(d)
                            && self.state.dp_state_spec(d)
                                == old(self).state.dp_state_spec(d) by {
                        let a = old(self).state.dp_index_spec(d);
                        assert(0 <= a < pre.len() && pre[a].0 == d);
                        assert(a != i as int);
                        assert(post[a].0 == d);
                        assert(self.state.has_dp(d));
                        let b = self.state.dp_index_spec(d);
                        assert(0 <= b < post.len() && post[b].0 == d);
                        assert(b == a);
                    }
                    assert forall|d: DpAddress| self.state.has_dp(d)
                        implies old(self).state.has_dp(d) by {
                        let b = self.state.dp_index_spec(d);
                        assert(0 <= b < post.len() && post[b].0 == d);
                        if b == i as int {
                            assert(pre[b].0 == dp);
                        } else {
                            assert(pre[b].0 == d);
                            assert(old(self).state.has_dp(d));
                        }
                    }
                }
            }
            None => {
                proof {
                    assert(false);
                }
            }
        }
    }

    /// Read the state of a known debug port.
    pub fn dp_state(&self, dp: DpAddress) -> (r: DpState)
        requires
            self.state.wf(),
            self.state.has_dp(dp),
        ensures
            r == self.state.dp_state_spec(dp),
    {
        let pos = self.dp_position(dp);
        match pos {
            Some(i) => self.state.dps[i].1,
            None => {
                proof {
                    assert(false);
                }
                DpState::new()
            }
        }
    }

    /// Finish bring-up of a known debug port from the DPIDR value the driver
    /// read: learn the version, and widen the SELECT cache for a DPv3 port.
    pub fn finish_dp_setup(&mut self, dp: DpAddress, dpidr: u32)
        requires
            old(self).state.wf(),
            old(self).state.has_dp(dp),
        ensures
            final(self).state.wf(),
            final(self).state.has_dp(dp),
            final(self).state.dp_state_spec(dp).debug_port_version
                == DebugPortVersion::spec_from_dpidr(dpidr),
            final(self).state.dp_state_spec(dp).current_select
                == if DebugPortVersion::spec_from_dpidr(dpidr) == DebugPortVersion::DPv3 {
                    SelectCache::DPv3(SelectV3(0), Select1(0))
                } else {
                    old(self).state.dp_state_spec(dp).current_select
                },
            final(self).state.spec_current_dp() == old(self).state.spec_current_dp(),
            final(self).state.spec_use_overrun_detect()
                == old(self).state.spec_use_overrun_detect(),
            forall|d: DpAddress| final(self).state.has_dp(d) == old(self).state.has_dp(d),
            forall|d: DpAddress| d != dp && old(self).state.has_dp(d)
                ==> final(self).state.dp_state_spec(d) == old(self).state.dp_state_spec(d),
    {
        let version = DebugPortVersion::from_dpidr(dpidr);
        let old_state = self.dp_state(dp);
        let current_select = if version == DebugPortVersion::DPv3 {
            SelectCache::DPv3(SelectV3(0), Select1(0))
        } else {
            old_state.current_select
        };
        self.set_dp_state(dp, DpState { debug_port_version: version, current_select });
    }

    /// Whether the CTRL/STAT value the driver read back needs a corrective
    /// write: the value to write when its overrun-detect bit disagrees with
    /// the configured policy.
    pub fn overrun_ctrl_update(&self, ctrl: u32) -> (r: Option<u32>)
        ensures
            match r {
                Some(v) => spec_orun_detect(ctrl) != self.state.spec_use_overrun_detect()
                    && spec_orun_detect(v) == self.state.spec_use_overrun_detect()
                    && v & !1u32 == ctrl & !1u32,
                None => spec_orun_detect(ctrl) == self.state.spec_use_overrun_detect(),
            },
    {
        if orun_detect(ctrl) != self.state.use_overrun_detect {
            Some(set_orun_detect(ctrl, self.state.use_overrun_detect))
        } else {
            None
        }
    }

    /// The SELECT write needed before a debug-port register access on the
    /// current debug port, with the cache value to commit once it succeeds;
    /// `None` when the latched bank already fits.
    pub fn select_dp_and_dp_bank(&self, dp: DpAddress, addr: &DpRegisterAddress)
        -> (r: Option<(SelectWrite, SelectCache)>)
        requires
            self.state.wf(),
            self.state.has_dp(dp),
            self.state.spec_current_dp() == dp,
        ensures
            r == dp_bank_select_plan_spec(self.state.dp_state_spec(dp).current_select, *addr),
    {
        let st = self.dp_state(dp);
        if addr.address != 0 && addr.address != 4 {
            return None;
        }
        let bank = match addr.bank {
            Some(b) => b,
            None => 0,
        };
        let mut select = st.current_select;
        if bank != select.dp_bank_sel() {
            select.set_dp_bank_sel(bank);
            let word = match select {
                SelectCache::DPv1(s) => s.0,
                SelectCache::DPv3(s, _) => s.0,
            };
            Some((SelectWrite { register: SelectRegister::Select, value: word }, select))
        } else {
            None
        }
    }

    /// The SELECT writes needed before an access-port register access on the
    /// current debug port, with the cache value to commit once they succeed.
    /// No writes when the cache already latches the right port and bank.
    pub fn select_ap_and_ap_bank(&self, ap: &FullyQualifiedApAddress, ap_register_address: u64)
        -> (r: (Vec<SelectWrite>, SelectCache))
        requires
            self.state.wf(),
            self.state.has_dp(ap.dp),
            self.state.spec_current_dp() == ap.dp,
            ap_cache_compatible(ap.ap, self.state.dp_state_spec(ap.dp).current_select),
            ap_address_in_range(ap.ap, ap_register_address),
        ensures
            ({
                let (ws, c1) = ap_select_plan_spec(
                    self.state.dp_state_spec(ap.dp).current_select,
                    ap.ap,
                    ap_register_address,
                );
                r.0@ == ws && r.1 == c1
            }),
    {
        let st = self.dp_state(ap.dp);
        let mut writes: Vec<SelectWrite> = Vec::new();
        match (ap.ap, st.current_select) {
            (ApAddress::V1(port), SelectCache::DPv1(s)) => {
                let reg8 = (ap_register_address & 0xFF) as u8;
                proof {
                    assert(ap_register_address & 0xFF < 256) by (bit_vector);
                }
                let ap_bank = reg8 >> 4;
                let mut s_new = s;
                s_new.set_ap_sel(port);
                s_new.set_ap_bank_sel(ap_bank);
                let c1 = SelectCache::DPv1(s_new);
                if !(s_new == s) {
                    writes.push(SelectWrite { register: SelectRegister::Select, value: s_new.0 });
                    proof {
                        let (ws, c) = ap_select_plan_spec(
                            st.current_select, ap.ap, ap_register_address);
                        assert(writes@ =~= ws);
                    }
                    (writes, c1)
                } else {
                    proof {
                        let (ws, c) = ap_select_plan_spec(
                            st.current_select, ap.ap, ap_register_address);
                        assert(writes@ =~= ws);
                    }
                    (writes, SelectCache::DPv1(s))
                }
            }
            (ApAddress::V2(base), SelectCache::DPv3(s, s1)) => {
                let base_value: u64 = match base {
                    Some(b) => b,
                    None => 0,
                };
                let address = base_value + ap_register_address;
                proof {
                    assert((address >> 4) & 0xFFFF_FFFF <= 0xFFFF_FFFFu64) by (bit_vector);
                }
                let mut s_new = s;
                s_new.set_addr(((address >> 4) & 0xFFFF_FFFF) as u32);
                let mut s1_new = s1;
                s1_new.set_addr((address >> 32) as u32);
                proof {
                    assert(address >> 32 <= 0xFFFF_FFFFu64) by (bit_vector);
                }
                let c1 = SelectCache::DPv3(s_new, s1_new);
                if !(s_new == s && s1_new == s1) {
                    writes.push(SelectWrite { register: SelectRegister::Select, value: s_new.0 });
                    writes.push(SelectWrite { register: SelectRegister::Select1, value: s1_new.0 });
                    proof {
                        let (ws, c) = ap_select_plan_spec(
                            st.current_select, ap.ap, ap_register_address);
                        assert(writes@ =~= ws);
                    }
                    (writes, c1)
                } else {
                    proof {
                        let (ws, c) = ap_select_plan_spec(
                            st.current_select, ap.ap, ap_register_address);
                        assert(c1 == st.current_select);
                        assert(writes@ =~= ws);
                    }
                    (writes, c1)
                }
            }
            _ => {
                proof {
                    assert(false);
                }
                (writes, st.current_select)
            }
        }
    }

    /// Record that planned SELECT writes for a known debug port succeeded on
    /// the wire: the cache takes the committed value.
    pub fn commit_select(&mut self, dp: DpAddress, cache: SelectCache)
        requires
            old(self).state.wf(),
            old(self).state.has_dp(dp),
        ensures
            final(self).state.wf(),
            final(self).state.has_dp(dp),
            final(self).state.dp_state_spec(dp).current_select == cache,
            final(self).state.dp_state_spec(dp).debug_port_version
                == old(self).state.dp_state_spec(dp).debug_port_version,
            final(self).state.spec_current_dp() == old(self).state.spec_current_dp(),
            final(self).state.spec_use_overrun_detect()
                == old(self).state.spec_use_overrun_detect(),
            forall|d: DpAddress| final(self).state.has_dp(d) == old(self).state.has_dp(d),
            forall|d: DpAddress| d != dp && old(self).state.has_dp(d)
                ==> final(self).state.dp_state_spec(d) == old(self).state.dp_state_spec(d),
    {
        let st = self.dp_state(dp);
        self.set_dp_state(dp, DpState { current_select: cache, ..st });
    }

    /// The debug ports a disconnect must stop besides the current one, in
    /// the order their state was created.
    pub fn disconnect_plan(&self) -> (r: Vec<DpAddress>)
        requires
            self.state.wf(),
        ensures
            forall|i: int| 0 <= i < r@.len()
                ==> #[trigger] r@[i] != self.state.spec_current_dp() && self.state.has_dp(r@[i]),
            forall|d: DpAddress| self.state.has_dp(d) && d != self.state.spec_current_dp()
                ==> r@.contains(d),
            forall|i: int, j: int| 0 <= i < r@.len() && 0 <= j < r@.len() && i != j
                ==> r@[i] != r@[j],
    {
        let n = self.state.dps.len();
        let mut r: Vec<DpAddress> = Vec::new();
        let mut i: usize = 0;
        while i < n
            invariant
                self.state.wf(),
                n == self.state.dps@.len(),
                0 <= i <= n,
                forall|k: int| 0 <= k < r@.len()
                    ==> #[trigger] r@[k] != self.state.spec_current_dp()
                        && self.state.has_dp(r@[k]),
                forall|j: int| 0 <= j < i && (#[trigger] self.state.dps@[j]).0
                    != self.state.spec_current_dp() ==> r@.contains(self.state.dps@[j].0),
                forall|k: int, l: int| 0 <= k < r@.len() && 0 <= l < r@.len() && k != l
                    ==> r@[k] != r@[l],
                forall|k: int| 0 <= k < r@.len()
                    ==> exists|j: int| 0 <= j < i && (#[trigger] self.state.dps@[j]).0
                        == #[trigger] r@[k],
            decreases n - i,
        {
            let dp = self.state.dps[i].0;
            if !(dp == self.state.current_dp) {
                proof {
                    assert forall|k: int| 0 <= k < r@.len() implies #[trigger] r@[k] != dp by {
                        let j = choose|j: int|
                            0 <= j < i && (#[trigger] self.state.dps@[j]).0 == r@[k];
                        assert(self.state.dps@[i as int].0 == dp);
                    }
                }
                let ghost rpre = r@;
                r.push(dp);
                proof {
                    assert(r@ == rpre.push(dp));
                    assert(r@[rpre.len() as int] == dp);
                    assert forall|j: int|
                        0 <= j < i + 1 && (#[trigger] self.state.dps@[j]).0
                            != self.state.spec_current_dp()
                        implies r@.contains(self.state.dps@[j].0) by {
                        if j < i {
                            let k = choose|k: int| 0 <= k < rpre.len()
                                && rpre[k] == self.state.dps@[j].0;
                            assert(r@[k] == self.state.dps@[j].0);
                        } else {
                            assert(r@[rpre.len() as int] == self.state.dps@[j].0);
                        }
                    }
                }
            }
            i = i + 1;
        }
        proof {
            assert forall|d: DpAddress|
                self.state.has_dp(d) && d != self.state.spec_current_dp()
                implies r@.contains(d) by {
                let j = self.state.dp_index_spec(d);
                assert(0 <= j < self.state.dps@.len() && self.state.dps@[j].0 == d);
            }
        }
        r
    }
}

/// The ADIv5 access ports present on a debug port, decided from the IDR
/// values the driver read of slots `0..idrs.len()`: every slot before the
/// first zero IDR, in slot order.
pub fn valid_access_ports(dp: DpAddress, idrs: &Vec<u32>) -> (r: Vec<FullyQualifiedApAddress>)
    requires
        idrs@.len() <= 256,
    ensures
        r@.len() <= idrs@.len(),
        forall|i: int| 0 <= i < r@.len()
            ==> #[trigger] r@[i] == (FullyQualifiedApAddress { dp, ap: ApAddress::V1(i as u8) }),
        forall|i: int| 0 <= i < r@.len() ==> idrs@[i] != 0,
        r@.len() < idrs@.len() ==> idrs@[r@.len() as int] == 0,
{
    let n = idrs.len();
    let mut r: Vec<FullyQualifiedApAddress> = Vec::new();
    let mut i: usize = 0;
    while i < n
        invariant
            n == idrs@.len(),
            n <= 256,
            0 <= i <= n,
            r@.len() == i,
            forall|k: int| 0 <= k < i
                ==> #[trigger] r@[k] == (FullyQualifiedApAddress { dp, ap: ApAddress::V1(k as u8) }),
            forall|k: int| 0 <= k < i ==> idrs@[k] != 0,
        decreases n - i,
    {
        if idrs[i] == 0 {
            return r;
        }
        r.push(FullyQualifiedApAddress { dp, ap: ApAddress::V1(i as u8) });
        i = i + 1;
    }
    r
}

/// The SELECT cache of one debug port mirrors the target's latched SELECT
/// register(s) across any debug-port bank plan: if the cache matched before
/// the operation, it matches again once the planned write (if any) has been
/// applied to the target. With no intervening switch to another port, the
/// cache of a port therefore always equals the target's SELECT after any
/// run of operations.
pub proof fn lemma_dp_bank_plan_preserves_target(
    c: SelectCache,
    t: TargetSelect,
    addr: DpRegisterAddress,
)
    requires
        cache_matches_target(c, t),
    ensures
        match dp_bank_select_plan_spec(c, addr) {
            None => cache_matches_target(c, t),
            Some((w, c1)) => cache_matches_target(c1, apply_select_write(t, w)),
        },
{
}

/// The companion of [`lemma_dp_bank_plan_preserves_target`] for access-port
/// plans: applying the planned SELECT writes to the target leaves it
/// matching the committed cache.
pub proof fn lemma_ap_plan_preserves_target(
    c: SelectCache,
    t: TargetSelect,
    ap: ApAddress,
    ap_register_address: u64,
)
    requires
        cache_matches_target(c, t),
        ap_cache_compatible(ap, c),
    ensures
        ({
            let (ws, c1) = ap_select_plan_spec(c, ap, ap_register_address);
            cache_matches_target(c1, apply_select_writes(t, ws))
        }),
{
    let (ws, c1) = ap_select_plan_spec(c, ap, ap_register_address);
    if ws.len() == 0 {
        assert(apply_select_writes(t, ws) == t);
    } else if ws.len() == 1 {
        let t1 = apply_select_write(t, ws[0]);
        assert(apply_select_writes(t, ws) == apply_select_writes(t1, ws.drop_first()));
        assert(ws.drop_first().len() == 0);
        assert(apply_select_writes(t1, ws.drop_first()) == t1);
    } else {
        let t1 = apply_select_write(t, ws[0]);
        let rest = ws.drop_first();
        assert(apply_select_writes(t, ws) == apply_select_writes(t1, rest));
        let t2 = apply_select_write(t1, rest[0]);
        assert(apply_select_writes(t1, rest) == apply_select_writes(t2, rest.drop_first()));
        assert(rest.drop_first().len() == 0);
        assert(apply_select_writes(t2, rest.drop_first()) == t2);
    }
}

/// The bank cache is idempotent: once an operation on a bank has planned its
/// SELECT write (or found none needed), every further operation on the same
/// bank plans no SELECT write. A run of accesses with identical bank thus
/// issues at most one SELECT write, exactly one when the latched bank
/// differed at the start.
pub proof fn lemma_dp_bank_select_idempotent(
    c: SelectCache,
    a1: DpRegisterAddress,
    a2: DpRegisterAddress,
)
    requires
        a1.wf(),
        a1.is_banked(),
        a2.is_banked(),
        a1.bank_or_default() == a2.bank_or_default(),
    ensures
        match dp_bank_select_plan_spec(c, a1) {
            Some((w, c1)) => dp_bank_select_plan_spec(c1, a2) is None,
            None => dp_bank_select_plan_spec(c, a2) is None,
        },
{
    let bank = a1.bank_or_default();
    match dp_bank_select_plan_spec(c, a1) {
        Some((w, c1)) => {
            let b = bank;
            match c {
                SelectCache::DPv1(s) => {
                    let v = s.0;
                    assert(((v & !0xFu32) | ((b as u32) & 0xF)) & 0xF == (b as u32) & 0xF)
                        by (bit_vector);
                    assert((b as u32) & 0xF == b as u32) by (bit_vector)
                        requires b < 16;
                }
                SelectCache::DPv3(s, _) => {
                    let v = s.0;
                    assert(((v & !0xFu32) | ((b as u32) & 0xF)) & 0xF == (b as u32) & 0xF)
                        by (bit_vector);
                    assert((b as u32) & 0xF == b as u32) by (bit_vector)
                        requires b < 16;
                }
            }
        }
        None => {}
    }
}


/// The cache and target after a run of debug-port register accesses on one
/// debug port: each access plans its SELECT write from the cache, the
/// write is applied to the target, and the cache takes the committed
/// value.
pub open spec fn spec_run_dp_accesses(
    c: SelectCache,
    t: TargetSelect,
    ops: Seq<DpRegisterAddress>,
) -> (SelectCache, TargetSelect)
    decreases ops.len(),
{
    if ops.len() == 0 {
        (c, t)
    } else {
        match dp_bank_select_plan_spec(c, ops[0]) {
            Some((w, c1)) => spec_run_dp_accesses(c1, apply_select_write(t, w),
                ops.drop_first()),
            None => spec_run_dp_accesses(c, t, ops.drop_first()),
        }
    }
}

/// How many SELECT writes a run of debug-port register accesses issues.
pub open spec fn spec_run_select_write_count(
    c: SelectCache,
    ops: Seq<DpRegisterAddress>,
) -> int
    decreases ops.len(),
{
    if ops.len() == 0 {
        0
    } else {
        match dp_bank_select_plan_spec(c, ops[0]) {
            Some((w, c1)) => 1 + spec_run_select_write_count(c1, ops.drop_first()),
            None => spec_run_select_write_count(c, ops.drop_first()),
        }
    }
}

/// After any run of debug-port register accesses on one debug port, with
/// no intervening switch to another port, the SELECT cache still equals
/// the target's latched SELECT register.
pub proof fn lemma_run_preserves_target_match(
    c: SelectCache,
    t: TargetSelect,
    ops: Seq<DpRegisterAddress>,
)
    requires
        cache_matches_target(c, t),
    ensures
        ({
            let (c2, t2) = spec_run_dp_accesses(c, t, ops);
            cache_matches_target(c2, t2)
        }),
    decreases ops.len(),
{
    if ops.len() != 0 {
        lemma_dp_bank_plan_preserves_target(c, t, ops[0]);
        match dp_bank_select_plan_spec(c, ops[0]) {
            Some((w, c1)) => {
                lemma_run_preserves_target_match(c1, apply_select_write(t, w),
                    ops.drop_first());
            }
            None => {
                lemma_run_preserves_target_match(c, t, ops.drop_first());
            }
        }
    }
}

/// A run of accesses that all name the same bank issues at most one SELECT
/// write, and exactly one when the latched bank differed at the start.
pub proof fn lemma_run_same_bank_writes_once(
    c: SelectCache,
    ops: Seq<DpRegisterAddress>,
    bank: u8,
)
    requires
        bank < 16,
        ops.len() > 0,
        forall|i: int| 0 <= i < ops.len()
            ==> (#[trigger] ops[i]).wf() && ops[i].is_banked()
                && ops[i].bank_or_default() == bank,
    ensures
        spec_run_select_write_count(c, ops)
            == if cache_dp_bank_sel(c) == bank { 0int } else { 1int },
    decreases ops.len(),
{
    let first = ops[0];
    match dp_bank_select_plan_spec(c, first) {
        Some((w, c1)) => {
            let v = cache_select_word(c);
            let b = bank;
            assert(((v & !0xFu32) | ((b as u32) & 0xF)) & 0xF == (b as u32) & 0xF)
                by (bit_vector);
            assert((b as u32) & 0xF == b as u32) by (bit_vector)
                requires b < 16;
            match c {
                SelectCache::DPv1(sv) => {
                    let v1 = sv.0;
                    assert(((v1 & !0xFu32) | ((b as u32) & 0xF)) & 0xF == (b as u32) & 0xF)
                        by (bit_vector);
                }
                SelectCache::DPv3(sv, _) => {
                    let v1 = sv.0;
                    assert(((v1 & !0xFu32) | ((b as u32) & 0xF)) & 0xF == (b as u32) & 0xF)
                        by (bit_vector);
                }
            }
            assert(cache_dp_bank_sel(c1) == bank);
            if ops.len() > 1 {
                assert forall|i: int| 0 <= i < ops.drop_first().len()
                    implies (#[trigger] ops.drop_first()[i]).wf()
                        && ops.drop_first()[i].is_banked()
                        && ops.drop_first()[i].bank_or_default() == bank by {
                    assert(ops.drop_first()[i] == ops[i + 1]);
                }
                lemma_run_same_bank_writes_once(c1, ops.drop_first(), bank);
            } else {
                assert(spec_run_select_write_count(c1, ops.drop_first()) == 0);
            }
        }
        None => {
            assert(cache_dp_bank_sel(c) == bank);
            if ops.len() > 1 {
                assert forall|i: int| 0 <= i < ops.drop_first().len()
                    implies (#[trigger] ops.drop_first()[i]).wf()
                        && ops.drop_first()[i].is_banked()
                        && ops.drop_first()[i].bank_or_default() == bank by {
                    assert(ops.drop_first()[i] == ops[i + 1]);
                }
                lemma_run_same_bank_writes_once(c, ops.drop_first(), bank);
            } else {
                assert(spec_run_select_write_count(c, ops.drop_first()) == 0);
            }
        }
    }
}

} // verus!
