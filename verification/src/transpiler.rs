//! The elliptic-curve transpiler extension: turns custom short-Weierstrass
//! RISC-V instructions into VM instructions.

use vstd::prelude::*;
use rrs_lib::instruction_formats::RType;

verus! {

use crate::riscv::RvIntrinsic;

/// The R-type instruction format of `rrs_lib`, declared so its decoded
/// fields can be reasoned about.
#[verifier::external_type_specification]
pub struct ExRType(RType);

/// Relies on `rrs_lib::instruction_formats::RType::new`: it extracts the
/// standard R-type bit fields of a 32-bit RISC-V instruction.
pub assume_specification[ RType::new ](insn: u32) -> (r: RType)
    ensures
        r.funct7 == (insn >> 25) & 0x7f,
        r.rs2 == ((insn >> 20) & 0x1f) as usize,
        r.rs1 == ((insn >> 15) & 0x1f) as usize,
        r.funct3 == (insn >> 12) & 0x7,
        r.rd == ((insn >> 7) & 0x1f) as usize,
;

/// The opcode prefix of the short-Weierstrass custom instructions.
pub const SW_OPCODE: u8 = 0x2b;

/// The funct3 field of the short-Weierstrass custom instructions.
pub const SW_FUNCT3: u8 = 1;

/// How many base operations the funct7 field multiplexes per curve.
pub const SHORT_WEIERSTRASS_MAX_KINDS: u8 = 8;

/// The number of limbs of one RISC-V register in memory.
pub const RV32_REGISTER_NUM_LIMBS: u32 = 4;

/// The global opcode of a phantom (hint) instruction.
pub const PHANTOM_OPCODE: usize = 1;

/// The base offset of the short-Weierstrass opcode class.
pub const WEIERSTRASS_OPCODE_OFFSET: usize = 0x600;

/// The short-Weierstrass opcode class.
#[derive(Clone, Copy, PartialEq, Eq, PartialOrd, Ord, Debug)]
#[allow(non_camel_case_types)]
pub enum Rv32WeierstrassOpcode {
    EC_ADD_NE,
    SETUP_EC_ADD_NE,
    EC_DOUBLE,
    SETUP_EC_DOUBLE,
}

impl Rv32WeierstrassOpcode {
    /// The index of the opcode within its class.
    pub open spec fn spec_local_index(self) -> usize {
        match self {
            Rv32WeierstrassOpcode::EC_ADD_NE => 0usize,
            Rv32WeierstrassOpcode::SETUP_EC_ADD_NE => 1usize,
            Rv32WeierstrassOpcode::EC_DOUBLE => 2usize,
            Rv32WeierstrassOpcode::SETUP_EC_DOUBLE => 3usize,
        }
    }

    /// The index of the opcode within its class.
    pub fn local_index(self) -> (r: usize)
        ensures
            r == self.spec_local_index(),
    {
        match self {
            Rv32WeierstrassOpcode::EC_ADD_NE => 0,
            Rv32WeierstrassOpcode::SETUP_EC_ADD_NE => 1,
            Rv32WeierstrassOpcode::EC_DOUBLE => 2,
            Rv32WeierstrassOpcode::SETUP_EC_DOUBLE => 3,
        }
    }

    /// The opcode's global index: its class offset plus its local index.
    pub fn with_default_offset(self) -> (r: usize)
        ensures
            r == WEIERSTRASS_OPCODE_OFFSET + self.spec_local_index(),
    {
        WEIERSTRASS_OPCODE_OFFSET + self.local_index()
    }
}

impl RvIntrinsic for Rv32WeierstrassOpcode {
    fn funct3() -> u8 {
        SW_FUNCT3
    }
}

/// The phantom (hint) sub-instructions of the elliptic-curve extension.
#[derive(Clone, Copy, PartialEq, Eq, Structural, Debug)]
pub enum EccPhantom {
    HintDecompress,
}

impl EccPhantom {
    /// The 16-bit discriminant the phantom instruction carries.
    pub fn discriminant(self) -> (r: u16)
        ensures
            r == 0x40u16,
    {
        0x40
    }
}

/// One VM instruction: a global opcode and seven field-element operands.
#[derive(Clone, Copy, PartialEq, Eq, Structural, Debug)]
pub struct Instruction {
    pub opcode: usize,
    pub a: u32,
    pub b: u32,
    pub c: u32,
    pub d: u32,
    pub e: u32,
    pub f: u32,
    pub g: u32,
}

/// The instruction a well-formed short-Weierstrass custom word decodes to.
pub open spec fn decoded_sw_instruction(insn: u32) -> Instruction {
    let funct7 = (insn >> 25) & 0x7f;
    let rs2 = (insn >> 20) & 0x1f;
    let rs1 = (insn >> 15) & 0x1f;
    let rd = (insn >> 7) & 0x1f;
    let base_funct7 = funct7 % 8;
    let curve_idx = (funct7 / 8) as usize;
    let curve_idx_shift = (curve_idx * 4) as usize;
    if base_funct7 == 3 {
        // Decompression hint: a phantom instruction pointing at the operand
        // registers, with the curve index in the upper half of operand c.
        (Instruction {
            opcode: PHANTOM_OPCODE,
            a: (4 * rs1) as u32,
            b: (4 * rs2) as u32,
            c: ((curve_idx as u32) << 16u32) | 0x40u32,
            d: 0u32,
            e: 0u32,
            f: 0u32,
            g: 0u32,
        })
    } else if base_funct7 == 2 {
        let local = if rs2 == 0 {
            Rv32WeierstrassOpcode::SETUP_EC_DOUBLE
        } else {
            Rv32WeierstrassOpcode::SETUP_EC_ADD_NE
        };
        (Instruction {
            opcode: (WEIERSTRASS_OPCODE_OFFSET + local.spec_local_index()
                + curve_idx_shift) as usize,
            a: (4 * rd) as u32,
            b: (4 * rs1) as u32,
            c: (4 * rs2) as u32,
            d: 1u32,
            e: 2u32,
            f: 0u32,
            g: 0u32,
        })
    } else {
        let local = if base_funct7 == 0 {
            Rv32WeierstrassOpcode::EC_ADD_NE
        } else {
            Rv32WeierstrassOpcode::EC_DOUBLE
        };
        (Instruction {
            opcode: (WEIERSTRASS_OPCODE_OFFSET + local.spec_local_index()
                + curve_idx_shift) as usize,
            a: (4 * rd) as u32,
            b: (4 * rs1) as u32,
            c: (4 * rs2) as u32,
            d: 1u32,
            e: 2u32,
            f: 0u32,
            g: 0u32,
        })
    }
}

/// Whether a custom word is addressed to this extension at all.
pub open spec fn is_sw_word(insn: u32) -> bool {
    insn & 0x7f == SW_OPCODE && (insn >> 12) & 0x7 == SW_FUNCT3
}

/// A word addressed to this extension must respect the extension's
/// conventions: only the four known base operations, a zero destination for
/// hints and a zero second source for doubling.
pub open spec fn sw_word_wf(insn: u32) -> bool {
    let funct7 = (insn >> 25) & 0x7f;
    let base_funct7 = funct7 % 8;
    &&& base_funct7 <= 3
    &&& (base_funct7 == 3 ==> (insn >> 7) & 0x1f == 0)
    &&& (base_funct7 == 1 ==> (insn >> 20) & 0x1f == 0)
}

/// The elliptic-curve transpiler extension.
#[derive(Clone, Copy, PartialEq, Eq, Structural, Debug)]
pub struct EccTranspilerExtension;

impl EccTranspilerExtension {
    /// Decodes the next custom instruction of the stream, if it is addressed
    /// to this extension: `None` for an empty stream or a word with a
    /// foreign opcode or funct3, and otherwise the decoded instruction
    /// together with the number of words consumed.
    pub fn process_custom(&self, instruction_stream: &[u32]) -> (r: Option<(Instruction, usize)>)
        requires
            instruction_stream@.len() > 0 && is_sw_word(instruction_stream@[0]) ==> sw_word_wf(
                instruction_stream@[0],
            ),
        ensures
            r is Some <==> instruction_stream@.len() > 0 && is_sw_word(instruction_stream@[0]),
            r matches Some(p) ==> p.1 == 1 && p.0 == decoded_sw_instruction(
                instruction_stream@[0],
            ),
    {
        if instruction_stream.len() == 0 {
            return Option::None;
        }
        let instruction_u32 = instruction_stream[0];
        let opcode = (instruction_u32 & 0x7f) as u8;
        let funct3 = ((instruction_u32 >> 12) & 0b111) as u8;
        proof {
            assert(instruction_u32 & 0x7f <= 0x7f) by (bit_vector);
            assert((instruction_u32 >> 12) & 0x7 <= 0x7) by (bit_vector);
            assert((instruction_u32 >> 12) & 0b111 == (instruction_u32 >> 12) & 0x7) by (bit_vector);
        }
        if opcode != SW_OPCODE {
            return Option::None;
        }
        if funct3 != SW_FUNCT3 {
            return Option::None;
        }
        let dec_insn = RType::new(instruction_u32);
        let base_funct7 = (dec_insn.funct7 % (SHORT_WEIERSTRASS_MAX_KINDS as u32)) as u8;
        let curve_idx = (dec_insn.funct7 / (SHORT_WEIERSTRASS_MAX_KINDS as u32)) as usize;
        proof {
            assert((instruction_u32 >> 25) & 0x7f <= 0x7f) by (bit_vector);
            assert((instruction_u32 >> 20) & 0x1f <= 0x1f) by (bit_vector);
            assert((instruction_u32 >> 15) & 0x1f <= 0x1f) by (bit_vector);
            assert((instruction_u32 >> 7) & 0x1f <= 0x1f) by (bit_vector);
        }
        let curve_idx_shift = curve_idx * 4;
        if base_funct7 == 3 {
            // The decompression hint consumes no destination register; its
            // operands name the point's coordinates.
            return Option::Some(
                (
                    Instruction {
                        opcode: PHANTOM_OPCODE,
                        a: RV32_REGISTER_NUM_LIMBS * (dec_insn.rs1 as u32),
                        b: RV32_REGISTER_NUM_LIMBS * (dec_insn.rs2 as u32),
                        c: ((curve_idx as u32) << 16u32) | 0x40u32,
                        d: 0,
                        e: 0,
                        f: 0,
                        g: 0,
                    },
                    1,
                ),
            );
        }
        let instruction = if base_funct7 == 2 {
            let local_opcode = if dec_insn.rs2 == 0 {
                Rv32WeierstrassOpcode::SETUP_EC_DOUBLE
            } else {
                Rv32WeierstrassOpcode::SETUP_EC_ADD_NE
            };
            Instruction {
                opcode: local_opcode.with_default_offset() + curve_idx_shift,
                a: RV32_REGISTER_NUM_LIMBS * (dec_insn.rd as u32),
                b: RV32_REGISTER_NUM_LIMBS * (dec_insn.rs1 as u32),
                c: RV32_REGISTER_NUM_LIMBS * (dec_insn.rs2 as u32),
                d: 1,
                e: 2,
                f: 0,
                g: 0,
            }
        } else {
            let local_opcode = if base_funct7 == 0 {
                Rv32WeierstrassOpcode::EC_ADD_NE
            } else {
                Rv32WeierstrassOpcode::EC_DOUBLE
            };
            Instruction {
                opcode: local_opcode.with_default_offset() + curve_idx_shift,
                a: RV32_REGISTER_NUM_LIMBS * (dec_insn.rd as u32),
                b: RV32_REGISTER_NUM_LIMBS * (dec_insn.rs1 as u32),
                c: RV32_REGISTER_NUM_LIMBS * (dec_insn.rs2 as u32),
                d: 1,
                e: 2,
                f: 0,
                g: 0,
            }
        };
        Option::Some((instruction, 1))
    }
}

} // verus!
