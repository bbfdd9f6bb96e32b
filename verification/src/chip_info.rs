//! Chip identity read from a target's ROM table: the JEP106 manufacturer
//! code and the part number.

use vstd::prelude::*;

verus! {

#[verifier::external_type_specification]
pub struct ExJEP106Code(jep106::JEP106Code);

/// The manufacturer name the JEP106 table assigns to a continuation code
/// and an id code, where it assigns one.
pub uninterp spec fn manufacturer_name_of(cc: u8, id: u8) -> Option<Seq<char>>;

/// Relies on `jep106::JEP106Code::get`: the manufacturer name is a fixed
/// table lookup of the continuation and id codes alone.
#[verifier::external_body]
fn manufacturer_name(code: &jep106::JEP106Code) -> (r: Option<String>)
    ensures
        match r {
            Some(name) => manufacturer_name_of(code.cc, code.id) == Some(name@),
            None => manufacturer_name_of(code.cc, code.id) is None,
        },
{
    code.get().map(|name| name.to_string())
}

/// Relies on the `format` macro: renders a known manufacturer name with
/// the part number in hexadecimal.
#[verifier::external_body]
fn format_chip(name: &str, part: u16) -> (r: String)
{
    format!("{} 0x{:04x}", name, part)
}

/// Relies on the `format` macro: renders an unknown manufacturer's raw
/// JEP106 codes with the part number in hexadecimal.
#[verifier::external_body]
fn format_unknown_chip(cc: u8, id: u8, part: u16) -> (r: String)
{
    format!("<unknown manufacturer (cc={:2x}, id={:2x})> 0x{:04x}", cc, id, part)
}

/// Information about the chip target we are currently attached to.
///
/// The part number is only unique per the specification; some
/// manufacturers assign one part number to an entire family, so treat it
/// as a hint, not a key.
#[derive(Debug, Clone, Copy)]
pub struct ArmChipInfo {
    /// The JEP106 code of the manufacturer of this chip target.
    pub manufacturer: jep106::JEP106Code,
    /// The part number of the chip target.
    pub part: u16,
}

impl ArmChipInfo {
    /// The chip as text: the manufacturer's name where the JEP106 table
    /// knows it, else its raw codes, followed by the part number.
    pub fn display_name(&self) -> String {
        match manufacturer_name(&self.manufacturer) {
            Some(name) => format_chip(name.as_str(), self.part),
            None => format_unknown_chip(self.manufacturer.cc, self.manufacturer.id, self.part),
        }
    }
}

} // verus!
