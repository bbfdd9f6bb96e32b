//! Debug-port addressing and the SELECT register layouts.
//!
//! A `DpAddress` names one debug port on the wire; a `FullyQualifiedApAddress`
//! pairs it with an access-port address. `SelectV1`, `SelectV3` and `Select1`
//! are the bit-exact layouts of the SELECT register that latches which bank
//! and access port the next transaction targets.

use vstd::prelude::*;

verus! {

/// The address of a debug port on the wire.
///
/// `Default` is the single debug port of non-multidrop systems; `Multidrop`
/// carries the 32-bit TARGETID used for SWD multidrop selection.
#[derive(Debug, Clone, Copy, PartialEq, Eq, Structural)]
pub enum DpAddress {
    /// The single debug port of a non-multidrop system.
    Default,
    /// A debug port selected by its 32-bit multidrop target id.
    Multidrop(u32),
}

/// The address of an access port behind a debug port.
#[derive(Debug, Clone, Copy, PartialEq, Eq, Structural)]
pub enum ApAddress {
    /// An ADIv5 access port, named by its 8-bit slot index.
    V1(u8),
    /// An ADIv6 access port, named by its base address in the access-port
    /// memory space; `None` denotes the root.
    V2(Option<u64>),
}

/// The primary key for access-port-targeted operations: a debug port
/// together with an access port behind it.
#[derive(Debug, Clone, Copy, PartialEq, Eq, Structural)]
pub struct FullyQualifiedApAddress {
    /// The debug port the access port hangs off.
    pub dp: DpAddress,
    /// The access port itself.
    pub ap: ApAddress,
}

impl FullyQualifiedApAddress {
    /// Pair an ADIv5 access-port slot with its debug port.
    pub fn v1_with_dp(dp: DpAddress, ap: u8) -> (r: Self)
        ensures
            r.dp == dp,
            r.ap == ApAddress::V1(ap),
    {
        Self { dp, ap: ApAddress::V1(ap) }
    }

    /// The debug port component.
    pub fn dp(&self) -> (r: DpAddress)
        ensures
            r == self.dp,
    {
        self.dp
    }

    /// The access port component.
    pub fn ap(&self) -> (r: ApAddress)
        ensures
            r == self.ap,
    {
        self.ap
    }
}

/// A debug-port register address: an optional bank and a 4-bit-aligned
/// address in `{0x0, 0x4, 0x8, 0xC}`.
#[derive(Debug, Clone, Copy, PartialEq, Eq, Structural)]
pub struct DpRegisterAddress {
    /// The register bank, where the address is banked; `None` reads as bank 0.
    pub bank: Option<u8>,
    /// The register address within the bank.
    pub address: u8,
}

impl DpRegisterAddress {
    /// A debug-port register address is 4-bit aligned and at most 0xC.
    pub open spec fn wf(self) -> bool {
        (self.address == 0x0 || self.address == 0x4 || self.address == 0x8 || self.address == 0xC)
        && match self.bank {
            Some(b) => b < 16,
            None => true,
        }
    }

    /// The bank that must be latched for this access: the stated bank, or 0.
    pub open spec fn bank_or_default(self) -> u8 {
        match self.bank {
            Some(b) => b,
            None => 0,
        }
    }

    /// Only addresses 0x0 and 0x4 are banked; for the rest the latched bank
    /// does not matter.
    pub open spec fn is_banked(self) -> bool {
        self.address == 0x0 || self.address == 0x4
    }
}

/// The address of the SELECT register: debug-port register 0x8, not banked.
pub fn select_register_address() -> (r: DpRegisterAddress)
    ensures
        r == spec_select_register_address(),
{
    DpRegisterAddress { bank: None, address: 0x8 }
}

/// The address of the SELECT register.
pub open spec fn spec_select_register_address() -> DpRegisterAddress {
    DpRegisterAddress { bank: None, address: 0x8 }
}

/// The debug-port version, learnt from the DPIDR register on bring-up.
#[derive(Debug, Clone, Copy, PartialEq, Eq, Structural)]
pub enum DebugPortVersion {
    /// Debug port v0.
    DPv0,
    /// Debug port v1.
    DPv1,
    /// Debug port v2.
    DPv2,
    /// Debug port v3, with the wide SELECT plus SELECT1 registers.
    DPv3,
    /// A version field this driver does not recognise.
    Unsupported(u8),
}

impl DebugPortVersion {
    /// The version encoded by a DPIDR value: bits 12..16.
    pub open spec fn spec_from_dpidr(dpidr: u32) -> DebugPortVersion {
        let field = (dpidr >> 12) & 0xF;
        if field == 0 {
            DebugPortVersion::DPv0
        } else if field == 1 {
            DebugPortVersion::DPv1
        } else if field == 2 {
            DebugPortVersion::DPv2
        } else if field == 3 {
            DebugPortVersion::DPv3
        } else {
            DebugPortVersion::Unsupported(field as u8)
        }
    }

    /// Decode the version field of a DPIDR value.
    pub fn from_dpidr(dpidr: u32) -> (r: DebugPortVersion)
        ensures
            r == Self::spec_from_dpidr(dpidr),
    {
        let field = (dpidr >> 12) & 0xF;
        if field == 0 {
            DebugPortVersion::DPv0
        } else if field == 1 {
            DebugPortVersion::DPv1
        } else if field == 2 {
            DebugPortVersion::DPv2
        } else if field == 3 {
            DebugPortVersion::DPv3
        } else {
            assert((dpidr >> 12) & 0xF < 16) by (bit_vector);
            DebugPortVersion::Unsupported(field as u8)
        }
    }
}

/// The DPv1-style SELECT register value.
///
/// Bits 0..4 are `DP_BANK_SEL`, bits 4..8 are `AP_BANK_SEL`, and
/// bits 24..32 are `AP_SEL`.
#[derive(Debug, Clone, Copy, PartialEq, Eq, Structural)]
pub struct SelectV1(pub u32);

impl SelectV1 {
    /// The latched debug-port bank: bits 0..4.
    pub open spec fn spec_dp_bank_sel(self) -> u8 {
        (self.0 & 0xF) as u8
    }

    /// Read the latched debug-port bank.
    pub fn dp_bank_sel(&self) -> (r: u8)
        ensures
            r == self.spec_dp_bank_sel(),
    {
        (self.0 & 0xF) as u8
    }

    /// Replace the debug-port bank field.
    pub fn set_dp_bank_sel(&mut self, bank: u8)
        ensures
            final(self).0 == (old(self).0 & !0xFu32) | ((bank as u32) & 0xF),
    {
        self.0 = (self.0 & !0xFu32) | ((bank as u32) & 0xF);
    }

    /// Replace the access-port bank field: bits 4..8.
    pub fn set_ap_bank_sel(&mut self, bank: u8)
        ensures
            final(self).0 == (old(self).0 & !0xF0u32) | (((bank as u32) & 0xF) << 4),
    {
        self.0 = (self.0 & !0xF0u32) | (((bank as u32) & 0xF) << 4);
    }

    /// Replace the access-port select field: bits 24..32.
    pub fn set_ap_sel(&mut self, ap: u8)
        ensures
            final(self).0 == (old(self).0 & 0x00FF_FFFFu32) | ((ap as u32) << 24),
    {
        self.0 = (self.0 & 0x00FF_FFFFu32) | ((ap as u32) << 24);
    }
}

/// The DPv3-style SELECT register value.
///
/// Bits 0..4 are `DP_BANK_SEL`; bits 4..32 hold `ADDR[31:4]` of the wide
/// access-port address.
#[derive(Debug, Clone, Copy, PartialEq, Eq, Structural)]
pub struct SelectV3(pub u32);

impl SelectV3 {
    /// The latched debug-port bank: bits 0..4.
    pub open spec fn spec_dp_bank_sel(self) -> u8 {
        (self.0 & 0xF) as u8
    }

    /// Read the latched debug-port bank.
    pub fn dp_bank_sel(&self) -> (r: u8)
        ensures
            r == self.spec_dp_bank_sel(),
    {
        (self.0 & 0xF) as u8
    }

    /// Replace the debug-port bank field.
    pub fn set_dp_bank_sel(&mut self, bank: u8)
        ensures
            final(self).0 == (old(self).0 & !0xFu32) | ((bank as u32) & 0xF),
    {
        self.0 = (self.0 & !0xFu32) | ((bank as u32) & 0xF);
    }

    /// Replace `ADDR[31:4]`: the given word's low 28 bits into bits 4..32.
    pub fn set_addr(&mut self, addr: u32)
        ensures
            final(self).0 == (old(self).0 & 0xFu32) | (addr << 4),
    {
        self.0 = (self.0 & 0xFu32) | (addr << 4);
    }
}

/// The SELECT1 register value: `ADDR[63:32]` of the wide access-port address.
#[derive(Debug, Clone, Copy, PartialEq, Eq, Structural)]
pub struct Select1(pub u32);

impl Select1 {
    /// Replace the whole register.
    pub fn set_addr(&mut self, addr: u32)
        ensures
            final(self).0 == addr,
    {
        self.0 = addr;
    }
}

/// The CTRL/STAT overrun-detect bit: bit 0.
pub open spec fn spec_orun_detect(ctrl: u32) -> bool {
    ctrl & 1 == 1
}

/// Read the overrun-detect bit of a CTRL/STAT value.
pub fn orun_detect(ctrl: u32) -> (r: bool)
    ensures
        r == spec_orun_detect(ctrl),
{
    ctrl & 1 == 1
}

/// Set or clear the overrun-detect bit of a CTRL/STAT value.
pub fn set_orun_detect(ctrl: u32, enable: bool) -> (r: u32)
    ensures
        spec_orun_detect(r) == enable,
        r & !1u32 == ctrl & !1u32,
{
    let r = if enable {
        ctrl | 1
    } else {
        ctrl & !1u32
    };
    proof {
        let c = ctrl;
        assert((c | 1) & 1 == 1 && (c & !1u32) & 1 == 0 && (c | 1) & !1u32 == c & !1u32
            && (c & !1u32) & !1u32 == c & !1u32) by (bit_vector);
    }
    r
}

/// A register address as the probe transport sees it: a raw debug-port or
/// access-port register byte address.
#[derive(Debug, Clone, Copy, PartialEq, Eq, Structural)]
pub enum RegisterAddress {
    /// A debug-port register.
    DpRegister(u8),
    /// An access-port register.
    ApRegister(u8),
}

/// The transport-level byte address of an access-port register: the low
/// byte of its wide address.
pub fn ap_register_transaction_address(ap_register_address: u64) -> (r: u8)
    ensures
        r as u64 == ap_register_address & 0xFF,
{
    assert(ap_register_address & 0xFF < 256) by (bit_vector);
    (ap_register_address & 0xFF) as u8
}

} // verus!
