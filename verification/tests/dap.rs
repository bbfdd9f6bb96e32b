//! Tests of the DAP state machine: debug-port switching, SELECT caching and
//! access-port enumeration.

use probe_rs::communication_interface::{
    ArmCommunicationInterface, DapError, DpState, SelectCache, SelectRegister, SelectWrite,
    Uninitialized, valid_access_ports,
};
use probe_rs::dp::{
    ApAddress, DebugPortVersion, DpAddress, DpRegisterAddress, FullyQualifiedApAddress,
};

/// A fake target: the SELECT registers latched per debug port, and fixed
/// DPIDR / TARGETID values.
struct FakeDp {
    select: u32,
    select1: u32,
    dpidr: u32,
    targetid: u32,
    select_writes: usize,
}

impl FakeDp {
    fn new(dpidr: u32, targetid: u32) -> FakeDp {
        FakeDp { select: 0, select1: 0, dpidr, targetid, select_writes: 0 }
    }

    fn apply(&mut self, writes: &[SelectWrite]) {
        for w in writes {
            match w.register {
                SelectRegister::Select => self.select = w.value,
                SelectRegister::Select1 => self.select1 = w.value,
            }
            self.select_writes += 1;
        }
    }

    fn read(&self, address: &DpRegisterAddress) -> u32 {
        // The fake target decodes the latched DP bank like real hardware.
        let bank = self.select & 0xF;
        match (bank, address.address) {
            (_, 0x0) => self.dpidr,
            (2, 0x4) => self.targetid,
            _ => 0,
        }
    }
}

/// Bring one debug port up the way the driver loop would.
fn bring_up(
    iface: &mut ArmCommunicationInterface<probe_rs::communication_interface::Initialized>,
    target: &mut FakeDp,
    dp: DpAddress,
) {
    let plan = iface.select_dp_plan(dp);
    if plan.needs_switch {
        iface.commit_dp_switch(dp);
    }
    if plan.needs_bring_up {
        iface.register_dp(dp);
        // The start hook would run here; then CTRL/STAT is read back.
        let ctrl = 0u32;
        if let Some(_fixed) = iface.overrun_ctrl_update(ctrl) {
            // The corrective CTRL write would go on the wire here.
        }
        iface.finish_dp_setup(dp, target.dpidr);
    }
}

/// Read one debug-port register through the plan/commit protocol.
fn read_dp_register(
    iface: &mut ArmCommunicationInterface<probe_rs::communication_interface::Initialized>,
    target: &mut FakeDp,
    dp: DpAddress,
    address: DpRegisterAddress,
) -> u32 {
    if let Some((write, cache)) = iface.select_dp_and_dp_bank(dp, &address) {
        target.apply(&[write]);
        iface.commit_select(dp, cache);
    }
    target.read(&address)
}

#[test]
fn multidrop_read() {
    let dp1 = DpAddress::Multidrop(0x01002927);
    let dp2 = DpAddress::Multidrop(0x11002927);
    // Both DPIDR values indicate a DPv2 debug port (version field 2).
    let mut t1 = FakeDp::new(0x2BA01477 & !0xF000 | 0x2000, 0x01002927);
    let mut t2 = FakeDp::new(0x2BA01477 & !0xF000 | 0x2000, 0x11002927);

    let mut iface = ArmCommunicationInterface::<Uninitialized>::new(false).initialize(dp1);
    bring_up(&mut iface, &mut t1, dp1);
    assert_eq!(iface.current_debug_port(), dp1);
    assert_eq!(iface.dp_state(dp1).debug_port_version, DebugPortVersion::DPv2);

    let dpidr_addr = DpRegisterAddress { bank: None, address: 0x0 };
    let targetid_addr = DpRegisterAddress { bank: Some(2), address: 0x4 };

    let dpidr1 = read_dp_register(&mut iface, &mut t1, dp1, dpidr_addr);
    assert_eq!(DebugPortVersion::from_dpidr(dpidr1), DebugPortVersion::DPv2);
    let targetid1 = read_dp_register(&mut iface, &mut t1, dp1, targetid_addr);
    assert_eq!(targetid1, 0x01002927);

    // Switch to the second debug port and read the same registers.
    bring_up(&mut iface, &mut t2, dp2);
    assert_eq!(iface.current_debug_port(), dp2);
    let dpidr2 = read_dp_register(&mut iface, &mut t2, dp2, dpidr_addr);
    assert_eq!(DebugPortVersion::from_dpidr(dpidr2), DebugPortVersion::DPv2);
    let targetid2 = read_dp_register(&mut iface, &mut t2, dp2, targetid_addr);
    assert_eq!(targetid2, 0x11002927);

    // Switching back must not have corrupted the first port's cache: its
    // latched bank is still 2, so the TARGETID read issues no new SELECT
    // write.
    let plan = iface.select_dp_plan(dp1);
    assert!(plan.needs_switch);
    assert!(!plan.needs_bring_up);
    iface.commit_dp_switch(dp1);
    let writes_before = t1.select_writes;
    let targetid1_again = read_dp_register(&mut iface, &mut t1, dp1, targetid_addr);
    assert_eq!(targetid1_again, 0x01002927);
    assert_eq!(t1.select_writes, writes_before);
    assert_eq!(iface.dp_state(dp1).current_select.dp_bank_sel(), 2);
    assert_eq!(iface.dp_state(dp2).current_select.dp_bank_sel(), 2);
}

#[test]
fn bank_cache_suppression() {
    let dp = DpAddress::Default;
    let mut target = FakeDp::new(0x2000, 0);
    let mut iface = ArmCommunicationInterface::<Uninitialized>::new(false).initialize(dp);
    bring_up(&mut iface, &mut target, dp);

    let addr = DpRegisterAddress { bank: Some(1), address: 0x4 };
    let values = [0xDEADu32, 0xBEEF, 0xCAFE];
    let mut select_writes: usize = 0;
    for _value in values.iter() {
        if let Some((write, cache)) = iface.select_dp_and_dp_bank(dp, &addr) {
            assert_eq!(write.register, SelectRegister::Select);
            assert_eq!(write.value & 0xF, 1, "DP_BANK_SEL must be 1");
            target.apply(&[write]);
            iface.commit_select(dp, cache);
            select_writes += 1;
        }
        // The register write itself would go on the wire here.
    }
    assert_eq!(select_writes, 1);
    assert_eq!(target.select_writes, 1);
}

#[test]
fn ap_enumeration_v1() {
    let dp = DpAddress::Default;
    // Slots 0 and 1 have non-zero IDRs; slot 2 reads zero.
    let idrs = vec![0x04770041u32, 0x04770031, 0, 0x04770041];
    let aps = valid_access_ports(dp, &idrs);
    assert_eq!(aps.len(), 2);
    assert_eq!(aps[0], FullyQualifiedApAddress { dp, ap: ApAddress::V1(0) });
    assert_eq!(aps[1], FullyQualifiedApAddress { dp, ap: ApAddress::V1(1) });
}

#[test]
fn ap_enumeration_v1_empty() {
    let dp = DpAddress::Default;
    let aps = valid_access_ports(dp, &vec![0u32]);
    assert!(aps.is_empty());
    let aps = valid_access_ports(dp, &vec![]);
    assert!(aps.is_empty());
}

#[test]
fn ap_select_plan_v1() {
    let dp = DpAddress::Default;
    let mut target = FakeDp::new(0x2000, 0);
    let mut iface = ArmCommunicationInterface::<Uninitialized>::new(false).initialize(dp);
    bring_up(&mut iface, &mut target, dp);

    let ap = FullyQualifiedApAddress { dp, ap: ApAddress::V1(0x2A) };
    let (writes, cache) = iface.select_ap_and_ap_bank(&ap, 0x40);
    assert_eq!(writes.len(), 1);
    assert_eq!(writes[0].register, SelectRegister::Select);
    assert_eq!(writes[0].value, 0x2A00_0040);
    target.apply(&writes);
    iface.commit_select(dp, cache);

    // The same access port and bank again: the cache suppresses the write.
    let (writes, _cache) = iface.select_ap_and_ap_bank(&ap, 0x4C);
    assert!(writes.is_empty());
}

#[test]
fn ap_select_plan_v2() {
    let dp = DpAddress::Default;
    // A DPv3 debug port: version field 3.
    let mut target = FakeDp::new(0x3000, 0);
    let mut iface = ArmCommunicationInterface::<Uninitialized>::new(false).initialize(dp);
    bring_up(&mut iface, &mut target, dp);
    assert_eq!(iface.dp_state(dp).debug_port_version, DebugPortVersion::DPv3);

    let ap = FullyQualifiedApAddress { dp, ap: ApAddress::V2(Some(0x1000)) };
    let (writes, cache) = iface.select_ap_and_ap_bank(&ap, 0x4);
    assert_eq!(writes.len(), 2);
    assert_eq!(writes[0].register, SelectRegister::Select);
    assert_eq!(writes[0].value, 0x1000);
    assert_eq!(writes[1].register, SelectRegister::Select1);
    assert_eq!(writes[1].value, 0);
    target.apply(&writes);
    iface.commit_select(dp, cache);

    let (writes, _cache) = iface.select_ap_and_ap_bank(&ap, 0x4);
    assert!(writes.is_empty());
}

#[test]
fn overrun_detect_update() {
    let dp = DpAddress::Default;
    let iface = ArmCommunicationInterface::<Uninitialized>::new(true).initialize(dp);
    // Policy on, bit clear: a corrective write setting bit 0 is needed.
    let fixed = iface.overrun_ctrl_update(0x5000_0000).expect("needs update");
    assert_eq!(fixed, 0x5000_0001);
    // Policy on, bit already set: no write.
    assert_eq!(iface.overrun_ctrl_update(0x5000_0001), None);
}

#[test]
fn disconnect_plan_lists_other_ports() {
    let dp1 = DpAddress::Multidrop(1);
    let dp2 = DpAddress::Multidrop(2);
    let dp3 = DpAddress::Multidrop(3);
    let mut t = FakeDp::new(0x2000, 0);
    let mut iface = ArmCommunicationInterface::<Uninitialized>::new(false).initialize(dp1);
    bring_up(&mut iface, &mut t, dp1);
    bring_up(&mut iface, &mut t, dp2);
    bring_up(&mut iface, &mut t, dp3);
    // dp3 is now current; the disconnect must stop dp1 and dp2.
    let plan = iface.disconnect_plan();
    assert_eq!(plan, vec![dp1, dp2]);
}

#[test]
fn debug_port_version_decoding() {
    assert_eq!(DebugPortVersion::from_dpidr(0x0BA00477 & !0xF000), DebugPortVersion::DPv0);
    assert_eq!(DebugPortVersion::from_dpidr(0x1000), DebugPortVersion::DPv1);
    assert_eq!(DebugPortVersion::from_dpidr(0x2BA01477 & !0xF000 | 0x2000), DebugPortVersion::DPv2);
    assert_eq!(DebugPortVersion::from_dpidr(0x3000), DebugPortVersion::DPv3);
    assert_eq!(DebugPortVersion::from_dpidr(0x5000), DebugPortVersion::Unsupported(5));
}

#[test]
fn select_cache_bank_field() {
    let mut cache = DpState::new().current_select;
    assert_eq!(cache.dp_bank_sel(), 0);
    cache.set_dp_bank_sel(0xB);
    assert_eq!(cache.dp_bank_sel(), 0xB);
    match cache {
        SelectCache::DPv1(s) => assert_eq!(s.0, 0xB),
        SelectCache::DPv3(..) => panic!("fresh state caches a DPv1-style SELECT"),
    }
}

#[test]
fn dap_error_messages() {
    assert_eq!(
        DapError::NoAcknowledge.message(),
        "Target device did not respond to request."
    );
    assert_eq!(
        DapError::IncorrectParity.message(),
        "Incorrect parity on READ request."
    );
}

#[test]
fn unbanked_addresses_need_no_select() {
    let dp = DpAddress::Default;
    let mut target = FakeDp::new(0x2000, 0);
    let mut iface = ArmCommunicationInterface::<Uninitialized>::new(false).initialize(dp);
    bring_up(&mut iface, &mut target, dp);
    // Only addresses 0x0 and 0x4 are banked; 0x8 and 0xC never plan a
    // SELECT write, whatever bank is named.
    let select = DpRegisterAddress { bank: Some(7), address: 0x8 };
    assert!(iface.select_dp_and_dp_bank(dp, &select).is_none());
    let rdbuff = DpRegisterAddress { bank: Some(7), address: 0xC };
    assert!(iface.select_dp_and_dp_bank(dp, &rdbuff).is_none());
}

#[test]
fn fresh_port_state_is_unknown() {
    let state = DpState::new();
    assert_eq!(state.debug_port_version, DebugPortVersion::Unsupported(0xFF));
    assert_eq!(state.current_select.dp_bank_sel(), 0);
}

#[test]
fn dap_error_messages_cover_all_variants() {
    assert_eq!(
        DapError::SwdProtocol.message(),
        "An error occurred in the SWD communication between probe and device."
    );
    assert_eq!(
        DapError::FaultResponse.message(),
        "Target device responded with a FAULT response to the request."
    );
    assert_eq!(
        DapError::WaitResponse.message(),
        "Target device responded with a WAIT response to the request."
    );
}
