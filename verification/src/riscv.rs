//! Custom 32-bit RISC-V instruction encoding shared by the intrinsic
//! transpiler extensions.

use vstd::prelude::*;

verus! {

/// The 7-bit opcode prefix of a custom 32-bit RISC-V instruction.
#[derive(Clone, Copy, PartialEq, Eq, Structural, Debug)]
pub enum RvOpcodePrefix {
    Custom0,
    Custom1,
}

impl RvOpcodePrefix {
    /// The prefix's 7-bit encoding.
    pub fn value(self) -> (r: u8)
        ensures
            r == match self {
                RvOpcodePrefix::Custom0 => 0x0bu8,
                RvOpcodePrefix::Custom1 => 0x2bu8,
            },
    {
        match self {
            RvOpcodePrefix::Custom0 => 0x0b,
            RvOpcodePrefix::Custom1 => 0x2b,
        }
    }
}

/// Trait to implement on an opcode class to fix the 3-bit funct3 field its
/// custom intrinsic 32-bit RISC-V instructions use.
pub trait RvIntrinsic {
    /// The funct3 field of the class's instructions.
    fn funct3() -> u8;
}

} // verus!
