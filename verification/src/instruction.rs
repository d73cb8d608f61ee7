//! The decoded instructions of the base 32-bit integer instruction set, and
//! the decoder from raw instruction words.
//!
//! A word is cut into the canonical bit fields ([`opcode`], [`field_rd`],
//! [`funct3`], ...). [`decode_spec`] says which instruction, if any, a word
//! stands for; [`Instruction::encoding`] is the word of an instruction. The
//! two are proved inverse to each other at the end of this module.

use vstd::prelude::*;

verus! {

/// Opcode of the register-register operations.
pub const OPCODE_OP: u32 = 0x33;

/// Opcode of the register-immediate operations.
pub const OPCODE_OP_IMM: u32 = 0x13;

/// Opcode of the loads.
pub const OPCODE_LOAD: u32 = 0x03;

/// Opcode of the stores.
pub const OPCODE_STORE: u32 = 0x23;

/// Opcode of the conditional branches.
pub const OPCODE_BRANCH: u32 = 0x63;

/// Opcode of `jal`.
pub const OPCODE_JAL: u32 = 0x6f;

/// Opcode of `jalr`.
pub const OPCODE_JALR: u32 = 0x67;

/// Opcode of `lui`.
pub const OPCODE_LUI: u32 = 0x37;

/// Opcode of `auipc`.
pub const OPCODE_AUIPC: u32 = 0x17;

/// A decoded instruction. Register operands are indices into the register
/// file, `0..=31`; immediates are already sign-extended.
#[derive(Clone, Copy, Debug, PartialEq, Eq, Structural)]
pub enum Instruction {
    /// `add rd, rs1, rs2`: `rd = rs1 + rs2`.
    Add(usize, usize, usize),
    /// `sub rd, rs1, rs2`: `rd = rs1 - rs2`.
    Sub(usize, usize, usize),
    /// `sll rd, rs1, rs2`: `rd = rs1 << (rs2 mod 32)`.
    Sll(usize, usize, usize),
    /// `slt rd, rs1, rs2`: `rd = 1` if `rs1 < rs2` as signed numbers, else 0.
    Slt(usize, usize, usize),
    /// `sltu rd, rs1, rs2`: `rd = 1` if `rs1 < rs2` as unsigned numbers, else 0.
    Sltu(usize, usize, usize),
    /// `xor rd, rs1, rs2`.
    Xor(usize, usize, usize),
    /// `srl rd, rs1, rs2`: logical right shift by `rs2 mod 32`.
    Srl(usize, usize, usize),
    /// `sra rd, rs1, rs2`: arithmetic right shift by `rs2 mod 32`.
    Sra(usize, usize, usize),
    /// `or rd, rs1, rs2`.
    Or(usize, usize, usize),
    /// `and rd, rs1, rs2`.
    And(usize, usize, usize),
    /// `addi rd, rs1, imm`.
    Addi(usize, usize, i32),
    /// `slti rd, rs1, imm`.
    Slti(usize, usize, i32),
    /// `sltiu rd, rs1, imm`: the immediate is sign-extended, then compared unsigned.
    Sltiu(usize, usize, i32),
    /// `xori rd, rs1, imm`.
    Xori(usize, usize, i32),
    /// `ori rd, rs1, imm`.
    Ori(usize, usize, i32),
    /// `andi rd, rs1, imm`.
    Andi(usize, usize, i32),
    /// `slli rd, rs1, shamt`.
    Slli(usize, usize, u32),
    /// `srli rd, rs1, shamt`.
    Srli(usize, usize, u32),
    /// `srai rd, rs1, shamt`.
    Srai(usize, usize, u32),
    /// `lb rd, imm(rs1)`: load a byte, sign-extended.
    Lb(usize, usize, i32),
    /// `lh rd, imm(rs1)`: load a halfword, sign-extended.
    Lh(usize, usize, i32),
    /// `lw rd, imm(rs1)`: load a word.
    Lw(usize, usize, i32),
    /// `lbu rd, imm(rs1)`: load a byte, zero-extended.
    Lbu(usize, usize, i32),
    /// `lhu rd, imm(rs1)`: load a halfword, zero-extended.
    Lhu(usize, usize, i32),
    /// `sb rs2, imm(rs1)`: fields are `(rs1, rs2, imm)`.
    Sb(usize, usize, i32),
    /// `sh rs2, imm(rs1)`: fields are `(rs1, rs2, imm)`.
    Sh(usize, usize, i32),
    /// `sw rs2, imm(rs1)`: fields are `(rs1, rs2, imm)`.
    Sw(usize, usize, i32),
    /// `beq rs1, rs2, offset`.
    Beq(usize, usize, i32),
    /// `bne rs1, rs2, offset`.
    Bne(usize, usize, i32),
    /// `blt rs1, rs2, offset`: signed comparison.
    Blt(usize, usize, i32),
    /// `bge rs1, rs2, offset`: signed comparison.
    Bge(usize, usize, i32),
    /// `bltu rs1, rs2, offset`: unsigned comparison.
    Bltu(usize, usize, i32),
    /// `bgeu rs1, rs2, offset`: unsigned comparison.
    Bgeu(usize, usize, i32),
    /// `jal rd, offset`.
    Jal(usize, i32),
    /// `jalr rd, imm(rs1)`: fields are `(rd, rs1, imm)`.
    Jalr(usize, usize, i32),
    /// `lui rd, imm`: `imm` is the value loaded, its low 12 bits are zero.
    Lui(usize, u32),
    /// `auipc rd, imm`: `imm` is the value added to `pc`, its low 12 bits are zero.
    Auipc(usize, u32),
}

// ---------------------------------------------------------------------------
// Bit fields of an instruction word
// ---------------------------------------------------------------------------
/// Bits 6..0.
pub open spec fn opcode(word: u32) -> u32 {
    word & 0x7f
}

/// Bits 11..7.
pub open spec fn field_rd(word: u32) -> u32 {
    (word >> 7u32) & 0x1f
}

/// Bits 14..12.
pub open spec fn funct3(word: u32) -> u32 {
    (word >> 12u32) & 0x7
}

/// Bits 19..15.
pub open spec fn field_rs1(word: u32) -> u32 {
    (word >> 15u32) & 0x1f
}

/// Bits 24..20.
pub open spec fn field_rs2(word: u32) -> u32 {
    (word >> 20u32) & 0x1f
}

/// Bits 31..25.
pub open spec fn funct7(word: u32) -> u32 {
    word >> 25u32
}

/// The 12 immediate bits of the I format: word bits 31..20.
pub open spec fn bits_i(word: u32) -> u32 {
    word >> 20u32
}

/// The 12 immediate bits of the S format: word bits 31..25 and 11..7.
pub open spec fn bits_s(word: u32) -> u32 {
    ((word >> 25u32) << 5u32) | ((word >> 7u32) & 0x1f)
}

/// The 13 immediate bits of the B format, bit 0 being zero: word bits 31, 7,
/// 30..25 and 11..8.
pub open spec fn bits_b(word: u32) -> u32 {
    ((word >> 31u32) << 12u32) | (((word >> 7u32) & 0x1) << 11u32) | (((word >> 25u32) & 0x3f)
        << 5u32) | (((word >> 8u32) & 0xf) << 1u32)
}

/// The immediate of the U format: word bits 31..12, in place.
pub open spec fn bits_u(word: u32) -> u32 {
    word & 0xffff_f000
}

/// The 21 immediate bits of the J format, bit 0 being zero: word bits 31,
/// 19..12, 20 and 30..21.
pub open spec fn bits_j(word: u32) -> u32 {
    ((word >> 31u32) << 20u32) | (((word >> 12u32) & 0xff) << 12u32) | (((word >> 20u32) & 0x1)
        << 11u32) | (((word >> 21u32) & 0x3ff) << 1u32)
}

/// Reads `bits`, a number below `2 * half`, in two's complement: values from
/// `half` on stand for negative numbers.
pub open spec fn sign_extend(bits: u32, half: int) -> i32 {
    if bits >= half {
        (bits - 2 * half) as i32
    } else {
        bits as i32
    }
}

/// The two's-complement bits of `value` in a field of `2 * half` values.
pub open spec fn truncate(value: i32, half: int) -> u32 {
    if value < 0 {
        (value + 2 * half) as u32
    } else {
        value as u32
    }
}

// ---------------------------------------------------------------------------
// Instruction formats
// ---------------------------------------------------------------------------
/// The word of the R format.
pub open spec fn r_type(op: u32, rd: u32, f3: u32, rs1: u32, rs2: u32, f7: u32) -> u32 {
    op | (rd << 7u32) | (f3 << 12u32) | (rs1 << 15u32) | (rs2 << 20u32) | (f7 << 25u32)
}

/// The word of the I format; `imm` holds the 12 immediate bits.
pub open spec fn i_type(op: u32, rd: u32, f3: u32, rs1: u32, imm: u32) -> u32 {
    op | (rd << 7u32) | (f3 << 12u32) | (rs1 << 15u32) | (imm << 20u32)
}

/// The word of the S format; `imm` holds the 12 immediate bits.
pub open spec fn s_type(op: u32, f3: u32, rs1: u32, rs2: u32, imm: u32) -> u32 {
    op | ((imm & 0x1f) << 7u32) | (f3 << 12u32) | (rs1 << 15u32) | (rs2 << 20u32) | ((imm >> 5u32)
        << 25u32)
}

/// The word of the B format; `imm` holds the 13 immediate bits.
pub open spec fn b_type(op: u32, f3: u32, rs1: u32, rs2: u32, imm: u32) -> u32 {
    op | (((imm >> 11u32) & 0x1) << 7u32) | (((imm >> 1u32) & 0xf) << 8u32) | (f3 << 12u32) | (rs1
        << 15u32) | (rs2 << 20u32) | (((imm >> 5u32) & 0x3f) << 25u32) | ((imm >> 12u32) << 31u32)
}

/// The word of the U format; `imm` is the immediate in place.
pub open spec fn u_type(op: u32, rd: u32, imm: u32) -> u32 {
    op | (rd << 7u32) | imm
}

/// The word of the J format; `imm` holds the 21 immediate bits.
pub open spec fn j_type(op: u32, rd: u32, imm: u32) -> u32 {
    op | (rd << 7u32) | (((imm >> 12u32) & 0xff) << 12u32) | (((imm >> 11u32) & 0x1) << 20u32) | (((
    imm >> 1u32) & 0x3ff) << 21u32) | ((imm >> 20u32) << 31u32)
}

/// A 12-bit signed immediate.
pub open spec fn fits_imm12(imm: i32) -> bool {
    -0x800 <= imm < 0x800
}

/// A branch offset: 13 bits, signed, even.
pub open spec fn fits_branch_offset(offset: i32) -> bool {
    -0x1000 <= offset < 0x1000 && offset % 2 == 0
}

/// A `jal` offset: 21 bits, signed, even.
pub open spec fn fits_jump_offset(offset: i32) -> bool {
    -0x10_0000 <= offset < 0x10_0000 && offset % 2 == 0
}

/// An upper immediate: the low 12 bits are zero.
pub open spec fn fits_upper(imm: u32) -> bool {
    imm % 0x1000 == 0
}

impl Instruction {
    /// The operands can be encoded: register indices are below 32, and each
    /// immediate fits the field of its format.
    pub open spec fn wf(self) -> bool {
        match self {
            Instruction::Add(rd, rs1, rs2)
            | Instruction::Sub(rd, rs1, rs2)
            | Instruction::Sll(rd, rs1, rs2)
            | Instruction::Slt(rd, rs1, rs2)
            | Instruction::Sltu(rd, rs1, rs2)
            | Instruction::Xor(rd, rs1, rs2)
            | Instruction::Srl(rd, rs1, rs2)
            | Instruction::Sra(rd, rs1, rs2)
            | Instruction::Or(rd, rs1, rs2)
            | Instruction::And(rd, rs1, rs2) => rd < 32 && rs1 < 32 && rs2 < 32,
            Instruction::Addi(rd, rs1, imm)
            | Instruction::Slti(rd, rs1, imm)
            | Instruction::Sltiu(rd, rs1, imm)
            | Instruction::Xori(rd, rs1, imm)
            | Instruction::Ori(rd, rs1, imm)
            | Instruction::Andi(rd, rs1, imm)
            | Instruction::Lb(rd, rs1, imm)
            | Instruction::Lh(rd, rs1, imm)
            | Instruction::Lw(rd, rs1, imm)
            | Instruction::Lbu(rd, rs1, imm)
            | Instruction::Lhu(rd, rs1, imm)
            | Instruction::Jalr(rd, rs1, imm) => rd < 32 && rs1 < 32 && fits_imm12(imm),
            Instruction::Slli(rd, rs1, shamt)
            | Instruction::Srli(rd, rs1, shamt)
            | Instruction::Srai(rd, rs1, shamt) => rd < 32 && rs1 < 32 && shamt < 32,
            Instruction::Sb(rs1, rs2, imm)
            | Instruction::Sh(rs1, rs2, imm)
            | Instruction::Sw(rs1, rs2, imm) => rs1 < 32 && rs2 < 32 && fits_imm12(imm),
            Instruction::Beq(rs1, rs2, offset)
            | Instruction::Bne(rs1, rs2, offset)
            | Instruction::Blt(rs1, rs2, offset)
            | Instruction::Bge(rs1, rs2, offset)
            | Instruction::Bltu(rs1, rs2, offset)
            | Instruction::Bgeu(rs1, rs2, offset) => rs1 < 32 && rs2 < 32 && fits_branch_offset(
                offset,
            ),
            Instruction::Jal(rd, offset) => rd < 32 && fits_jump_offset(offset),
            Instruction::Lui(rd, imm) | Instruction::Auipc(rd, imm) => rd < 32 && fits_upper(imm),
        }
    }

    /// The instruction transfers control: it sets `pc` to a computed target
    /// instead of letting it advance to the next instruction.
    pub open spec fn is_control_transfer(self) -> bool {
        match self {
            Instruction::Beq(..)
            | Instruction::Bne(..)
            | Instruction::Blt(..)
            | Instruction::Bge(..)
            | Instruction::Bltu(..)
            | Instruction::Bgeu(..)
            | Instruction::Jal(..)
            | Instruction::Jalr(..) => true,
            _ => false,
        }
    }

    /// The instruction word of a well-formed instruction.
    pub open spec fn encoding(self) -> u32 {
        match self {
            Instruction::Add(rd, rs1, rs2) => r_type(OPCODE_OP, rd as u32, 0, rs1 as u32, rs2 as u32, 0),
            Instruction::Sub(rd, rs1, rs2) => r_type(
                OPCODE_OP,
                rd as u32,
                0,
                rs1 as u32,
                rs2 as u32,
                0x20,
            ),
            Instruction::Sll(rd, rs1, rs2) => r_type(OPCODE_OP, rd as u32, 1, rs1 as u32, rs2 as u32, 0),
            Instruction::Slt(rd, rs1, rs2) => r_type(OPCODE_OP, rd as u32, 2, rs1 as u32, rs2 as u32, 0),
            Instruction::Sltu(rd, rs1, rs2) => r_type(
                OPCODE_OP,
                rd as u32,
                3,
                rs1 as u32,
                rs2 as u32,
                0,
            ),
            Instruction::Xor(rd, rs1, rs2) => r_type(OPCODE_OP, rd as u32, 4, rs1 as u32, rs2 as u32, 0),
            Instruction::Srl(rd, rs1, rs2) => r_type(OPCODE_OP, rd as u32, 5, rs1 as u32, rs2 as u32, 0),
            Instruction::Sra(rd, rs1, rs2) => r_type(
                OPCODE_OP,
                rd as u32,
                5,
                rs1 as u32,
                rs2 as u32,
                0x20,
            ),
            Instruction::Or(rd, rs1, rs2) => r_type(OPCODE_OP, rd as u32, 6, rs1 as u32, rs2 as u32, 0),
            Instruction::And(rd, rs1, rs2) => r_type(OPCODE_OP, rd as u32, 7, rs1 as u32, rs2 as u32, 0),
            Instruction::Addi(rd, rs1, imm) => i_type(
                OPCODE_OP_IMM,
                rd as u32,
                0,
                rs1 as u32,
                truncate(imm, 0x800),
            ),
            Instruction::Slti(rd, rs1, imm) => i_type(
                OPCODE_OP_IMM,
                rd as u32,
                2,
                rs1 as u32,
                truncate(imm, 0x800),
            ),
            Instruction::Sltiu(rd, rs1, imm) => i_type(
                OPCODE_OP_IMM,
                rd as u32,
                3,
                rs1 as u32,
                truncate(imm, 0x800),
            ),
            Instruction::Xori(rd, rs1, imm) => i_type(
                OPCODE_OP_IMM,
                rd as u32,
                4,
                rs1 as u32,
                truncate(imm, 0x800),
            ),
            Instruction::Ori(rd, rs1, imm) => i_type(
                OPCODE_OP_IMM,
                rd as u32,
                6,
                rs1 as u32,
                truncate(imm, 0x800),
            ),
            Instruction::Andi(rd, rs1, imm) => i_type(
                OPCODE_OP_IMM,
                rd as u32,
                7,
                rs1 as u32,
                truncate(imm, 0x800),
            ),
            Instruction::Slli(rd, rs1, shamt) => r_type(OPCODE_OP_IMM, rd as u32, 1, rs1 as u32, shamt, 0),
            Instruction::Srli(rd, rs1, shamt) => r_type(OPCODE_OP_IMM, rd as u32, 5, rs1 as u32, shamt, 0),
            Instruction::Srai(rd, rs1, shamt) => r_type(
                OPCODE_OP_IMM,
                rd as u32,
                5,
                rs1 as u32,
                shamt,
                0x20,
            ),
            Instruction::Lb(rd, rs1, imm) => i_type(
                OPCODE_LOAD,
                rd as u32,
                0,
                rs1 as u32,
                truncate(imm, 0x800),
            ),
            Instruction::Lh(rd, rs1, imm) => i_type(
                OPCODE_LOAD,
                rd as u32,
                1,
                rs1 as u32,
                truncate(imm, 0x800),
            ),
            Instruction::Lw(rd, rs1, imm) => i_type(
                OPCODE_LOAD,
                rd as u32,
                2,
                rs1 as u32,
                truncate(imm, 0x800),
            ),
            Instruction::Lbu(rd, rs1, imm) => i_type(
                OPCODE_LOAD,
                rd as u32,
                4,
                rs1 as u32,
                truncate(imm, 0x800),
            ),
            Instruction::Lhu(rd, rs1, imm) => i_type(
                OPCODE_LOAD,
                rd as u32,
                5,
                rs1 as u32,
                truncate(imm, 0x800),
            ),
            Instruction::Sb(rs1, rs2, imm) => s_type(
                OPCODE_STORE,
                0,
                rs1 as u32,
                rs2 as u32,
                truncate(imm, 0x800),
            ),
            Instruction::Sh(rs1, rs2, imm) => s_type(
                OPCODE_STORE,
                1,
                rs1 as u32,
                rs2 as u32,
                truncate(imm, 0x800),
            ),
            Instruction::Sw(rs1, rs2, imm) => s_type(
                OPCODE_STORE,
                2,
                rs1 as u32,
                rs2 as u32,
                truncate(imm, 0x800),
            ),
            Instruction::Beq(rs1, rs2, offset) => b_type(
                OPCODE_BRANCH,
                0,
                rs1 as u32,
                rs2 as u32,
                truncate(offset, 0x1000),
            ),
            Instruction::Bne(rs1, rs2, offset) => b_type(
                OPCODE_BRANCH,
                1,
                rs1 as u32,
                rs2 as u32,
                truncate(offset, 0x1000),
            ),
            Instruction::Blt(rs1, rs2, offset) => b_type(
                OPCODE_BRANCH,
                4,
                rs1 as u32,
                rs2 as u32,
                truncate(offset, 0x1000),
            ),
            Instruction::Bge(rs1, rs2, offset) => b_type(
                OPCODE_BRANCH,
                5,
                rs1 as u32,
                rs2 as u32,
                truncate(offset, 0x1000),
            ),
            Instruction::Bltu(rs1, rs2, offset) => b_type(
                OPCODE_BRANCH,
                6,
                rs1 as u32,
                rs2 as u32,
                truncate(offset, 0x1000),
            ),
            Instruction::Bgeu(rs1, rs2, offset) => b_type(
                OPCODE_BRANCH,
                7,
                rs1 as u32,
                rs2 as u32,
                truncate(offset, 0x1000),
            ),
            Instruction::Jal(rd, offset) => j_type(OPCODE_JAL, rd as u32, truncate(offset, 0x10_0000)),
            Instruction::Jalr(rd, rs1, imm) => i_type(
                OPCODE_JALR,
                rd as u32,
                0,
                rs1 as u32,
                truncate(imm, 0x800),
            ),
            Instruction::Lui(rd, imm) => u_type(OPCODE_LUI, rd as u32, imm),
            Instruction::Auipc(rd, imm) => u_type(OPCODE_AUIPC, rd as u32, imm),
        }
    }
}

// ---------------------------------------------------------------------------
// What a word decodes to
// ---------------------------------------------------------------------------
/// The register-register operation that `word`, of opcode [`OPCODE_OP`],
/// stands for.
pub open spec fn decode_op_spec(word: u32) -> Option<Instruction> {
    let rd = field_rd(word) as usize;
    let rs1 = field_rs1(word) as usize;
    let rs2 = field_rs2(word) as usize;
    let f3 = funct3(word);
    let f7 = funct7(word);
    if f7 == 0 {
        if f3 == 0 {
            Some(Instruction::Add(rd, rs1, rs2))
        } else if f3 == 1 {
            Some(Instruction::Sll(rd, rs1, rs2))
        } else if f3 == 2 {
            Some(Instruction::Slt(rd, rs1, rs2))
        } else if f3 == 3 {
            Some(Instruction::Sltu(rd, rs1, rs2))
        } else if f3 == 4 {
            Some(Instruction::Xor(rd, rs1, rs2))
        } else if f3 == 5 {
            Some(Instruction::Srl(rd, rs1, rs2))
        } else if f3 == 6 {
            Some(Instruction::Or(rd, rs1, rs2))
        } else {
            Some(Instruction::And(rd, rs1, rs2))
        }
    } else if f7 == 0x20 {
        if f3 == 0 {
            Some(Instruction::Sub(rd, rs1, rs2))
        } else if f3 == 5 {
            Some(Instruction::Sra(rd, rs1, rs2))
        } else {
            None
        }
    } else {
        None
    }
}

/// The register-immediate operation that `word`, of opcode
/// [`OPCODE_OP_IMM`], stands for.
pub open spec fn decode_op_imm_spec(word: u32) -> Option<Instruction> {
    let rd = field_rd(word) as usize;
    let rs1 = field_rs1(word) as usize;
    let imm = sign_extend(bits_i(word), 0x800);
    let shamt = field_rs2(word);
    let f3 = funct3(word);
    let f7 = funct7(word);
    if f3 == 0 {
        Some(Instruction::Addi(rd, rs1, imm))
    } else if f3 == 1 {
        if f7 == 0 {
            Some(Instruction::Slli(rd, rs1, shamt))
        } else {
            None
        }
    } else if f3 == 2 {
        Some(Instruction::Slti(rd, rs1, imm))
    } else if f3 == 3 {
        Some(Instruction::Sltiu(rd, rs1, imm))
    } else if f3 == 4 {
        Some(Instruction::Xori(rd, rs1, imm))
    } else if f3 == 5 {
        if f7 == 0 {
            Some(Instruction::Srli(rd, rs1, shamt))
        } else if f7 == 0x20 {
            Some(Instruction::Srai(rd, rs1, shamt))
        } else {
            None
        }
    } else if f3 == 6 {
        Some(Instruction::Ori(rd, rs1, imm))
    } else {
        Some(Instruction::Andi(rd, rs1, imm))
    }
}

/// The load that `word`, of opcode [`OPCODE_LOAD`], stands for.
pub open spec fn decode_load_spec(word: u32) -> Option<Instruction> {
    let rd = field_rd(word) as usize;
    let rs1 = field_rs1(word) as usize;
    let imm = sign_extend(bits_i(word), 0x800);
    let f3 = funct3(word);
    if f3 == 0 {
        Some(Instruction::Lb(rd, rs1, imm))
    } else if f3 == 1 {
        Some(Instruction::Lh(rd, rs1, imm))
    } else if f3 == 2 {
        Some(Instruction::Lw(rd, rs1, imm))
    } else if f3 == 4 {
        Some(Instruction::Lbu(rd, rs1, imm))
    } else if f3 == 5 {
        Some(Instruction::Lhu(rd, rs1, imm))
    } else {
        None
    }
}

/// The store that `word`, of opcode [`OPCODE_STORE`], stands for.
pub open spec fn decode_store_spec(word: u32) -> Option<Instruction> {
    let rs1 = field_rs1(word) as usize;
    let rs2 = field_rs2(word) as usize;
    let imm = sign_extend(bits_s(word), 0x800);
    let f3 = funct3(word);
    if f3 == 0 {
        Some(Instruction::Sb(rs1, rs2, imm))
    } else if f3 == 1 {
        Some(Instruction::Sh(rs1, rs2, imm))
    } else if f3 == 2 {
        Some(Instruction::Sw(rs1, rs2, imm))
    } else {
        None
    }
}

/// The branch that `word`, of opcode [`OPCODE_BRANCH`], stands for.
pub open spec fn decode_branch_spec(word: u32) -> Option<Instruction> {
    let rs1 = field_rs1(word) as usize;
    let rs2 = field_rs2(word) as usize;
    let offset = sign_extend(bits_b(word), 0x1000);
    let f3 = funct3(word);
    if f3 == 0 {
        Some(Instruction::Beq(rs1, rs2, offset))
    } else if f3 == 1 {
        Some(Instruction::Bne(rs1, rs2, offset))
    } else if f3 == 4 {
        Some(Instruction::Blt(rs1, rs2, offset))
    } else if f3 == 5 {
        Some(Instruction::Bge(rs1, rs2, offset))
    } else if f3 == 6 {
        Some(Instruction::Bltu(rs1, rs2, offset))
    } else if f3 == 7 {
        Some(Instruction::Bgeu(rs1, rs2, offset))
    } else {
        None
    }
}

/// The instruction that `word` stands for; `None` where it matches no
/// supported instruction.
pub open spec fn decode_spec(word: u32) -> Option<Instruction> {
    let op = opcode(word);
    let rd = field_rd(word) as usize;
    if op == OPCODE_OP {
        decode_op_spec(word)
    } else if op == OPCODE_OP_IMM {
        decode_op_imm_spec(word)
    } else if op == OPCODE_LOAD {
        decode_load_spec(word)
    } else if op == OPCODE_STORE {
        decode_store_spec(word)
    } else if op == OPCODE_BRANCH {
        decode_branch_spec(word)
    } else if op == OPCODE_JAL {
        Some(Instruction::Jal(rd, sign_extend(bits_j(word), 0x10_0000)))
    } else if op == OPCODE_JALR {
        if funct3(word) == 0 {
            Some(
                Instruction::Jalr(rd, field_rs1(word) as usize, sign_extend(bits_i(word), 0x800)),
            )
        } else {
            None
        }
    } else if op == OPCODE_LUI {
        Some(Instruction::Lui(rd, bits_u(word)))
    } else if op == OPCODE_AUIPC {
        Some(Instruction::Auipc(rd, bits_u(word)))
    } else {
        None
    }
}

// ---------------------------------------------------------------------------
// The decoder
// ---------------------------------------------------------------------------
/// Every field stays below the bound that its width gives it.
proof fn lemma_field_bounds(word: u32)
    by (bit_vector)
    ensures
        opcode(word) < 0x80,
        field_rd(word) < 32,
        funct3(word) < 8,
        field_rs1(word) < 32,
        field_rs2(word) < 32,
        funct7(word) < 0x80,
        bits_i(word) < 0x1000,
        bits_s(word) < 0x1000,
        bits_b(word) < 0x2000,
        bits_j(word) < 0x20_0000,
{
}

/// Reads `bits` in two's complement, in a field of `2 * half` values.
fn extend_sign(bits: u32, half: u32) -> (value: i32)
    requires
        bits < 2 * half,
        half <= 0x10_0000,
    ensures
        value == sign_extend(bits, half as int),
{
    if bits >= half {
        (bits as i32) - (half as i32) - (half as i32)
    } else {
        bits as i32
    }
}

fn decode_op(word: u32) -> (result: Option<Instruction>)
    ensures
        result == decode_op_spec(word),
{
    proof {
        lemma_field_bounds(word);
    }
    let rd = ((word >> 7) & 0x1f) as usize;
    let rs1 = ((word >> 15) & 0x1f) as usize;
    let rs2 = ((word >> 20) & 0x1f) as usize;
    let f3: u32 = (word >> 12) & 0x7;
    let f7: u32 = word >> 25;
    if f7 == 0 {
        match f3 {
            0 => Some(Instruction::Add(rd, rs1, rs2)),
            1 => Some(Instruction::Sll(rd, rs1, rs2)),
            2 => Some(Instruction::Slt(rd, rs1, rs2)),
            3 => Some(Instruction::Sltu(rd, rs1, rs2)),
            4 => Some(Instruction::Xor(rd, rs1, rs2)),
            5 => Some(Instruction::Srl(rd, rs1, rs2)),
            6 => Some(Instruction::Or(rd, rs1, rs2)),
            _ => Some(Instruction::And(rd, rs1, rs2)),
        }
    } else if f7 == 0x20 {
        match f3 {
            0 => Some(Instruction::Sub(rd, rs1, rs2)),
            5 => Some(Instruction::Sra(rd, rs1, rs2)),
            _ => None,
        }
    } else {
        None
    }
}

fn decode_op_imm(word: u32) -> (result: Option<Instruction>)
    ensures
        result == decode_op_imm_spec(word),
{
    proof {
        lemma_field_bounds(word);
    }
    let rd = ((word >> 7) & 0x1f) as usize;
    let rs1 = ((word >> 15) & 0x1f) as usize;
    let imm = extend_sign(word >> 20, 0x800);
    let shamt: u32 = (word >> 20) & 0x1f;
    let f3: u32 = (word >> 12) & 0x7;
    let f7: u32 = word >> 25;
    match f3 {
        0 => Some(Instruction::Addi(rd, rs1, imm)),
        1 => if f7 == 0 {
            Some(Instruction::Slli(rd, rs1, shamt))
        } else {
            None
        },
        2 => Some(Instruction::Slti(rd, rs1, imm)),
        3 => Some(Instruction::Sltiu(rd, rs1, imm)),
        4 => Some(Instruction::Xori(rd, rs1, imm)),
        5 => if f7 == 0 {
            Some(Instruction::Srli(rd, rs1, shamt))
        } else if f7 == 0x20 {
            Some(Instruction::Srai(rd, rs1, shamt))
        } else {
            None
        },
        6 => Some(Instruction::Ori(rd, rs1, imm)),
        _ => Some(Instruction::Andi(rd, rs1, imm)),
    }
}

fn decode_load(word: u32) -> (result: Option<Instruction>)
    ensures
        result == decode_load_spec(word),
{
    proof {
        lemma_field_bounds(word);
    }
    let rd = ((word >> 7) & 0x1f) as usize;
    let rs1 = ((word >> 15) & 0x1f) as usize;
    let imm = extend_sign(word >> 20, 0x800);
    let f3: u32 = (word >> 12) & 0x7;
    match f3 {
        0 => Some(Instruction::Lb(rd, rs1, imm)),
        1 => Some(Instruction::Lh(rd, rs1, imm)),
        2 => Some(Instruction::Lw(rd, rs1, imm)),
        4 => Some(Instruction::Lbu(rd, rs1, imm)),
        5 => Some(Instruction::Lhu(rd, rs1, imm)),
        _ => None,
    }
}

fn decode_store(word: u32) -> (result: Option<Instruction>)
    ensures
        result == decode_store_spec(word),
{
    proof {
        lemma_field_bounds(word);
    }
    let rs1 = ((word >> 15) & 0x1f) as usize;
    let rs2 = ((word >> 20) & 0x1f) as usize;
    let imm = extend_sign(((word >> 25) << 5) | ((word >> 7) & 0x1f), 0x800);
    let f3: u32 = (word >> 12) & 0x7;
    match f3 {
        0 => Some(Instruction::Sb(rs1, rs2, imm)),
        1 => Some(Instruction::Sh(rs1, rs2, imm)),
        2 => Some(Instruction::Sw(rs1, rs2, imm)),
        _ => None,
    }
}

fn decode_branch(word: u32) -> (result: Option<Instruction>)
    ensures
        result == decode_branch_spec(word),
{
    proof {
        lemma_field_bounds(word);
    }
    let rs1 = ((word >> 15) & 0x1f) as usize;
    let rs2 = ((word >> 20) & 0x1f) as usize;
    let bits: u32 = ((word >> 31) << 12) | (((word >> 7) & 0x1) << 11) | (((word >> 25) & 0x3f)
        << 5) | (((word >> 8) & 0xf) << 1);
    let offset = extend_sign(bits, 0x1000);
    let f3: u32 = (word >> 12) & 0x7;
    match f3 {
        0 => Some(Instruction::Beq(rs1, rs2, offset)),
        1 => Some(Instruction::Bne(rs1, rs2, offset)),
        4 => Some(Instruction::Blt(rs1, rs2, offset)),
        5 => Some(Instruction::Bge(rs1, rs2, offset)),
        6 => Some(Instruction::Bltu(rs1, rs2, offset)),
        7 => Some(Instruction::Bgeu(rs1, rs2, offset)),
        _ => None,
    }
}

/// Tells whether `imm` is a 12-bit signed immediate.
fn is_imm12(imm: i32) -> (fits: bool)
    ensures
        fits == fits_imm12(imm),
{
    -0x800 <= imm && imm < 0x800
}

impl Instruction {
    /// Tells whether the operands can be encoded: register indices below 32,
    /// and each immediate within the field of its format.
    pub fn is_well_formed(&self) -> (ok: bool)
        ensures
            ok == self.wf(),
    {
        match *self {
            Instruction::Add(rd, rs1, rs2)
            | Instruction::Sub(rd, rs1, rs2)
            | Instruction::Sll(rd, rs1, rs2)
            | Instruction::Slt(rd, rs1, rs2)
            | Instruction::Sltu(rd, rs1, rs2)
            | Instruction::Xor(rd, rs1, rs2)
            | Instruction::Srl(rd, rs1, rs2)
            | Instruction::Sra(rd, rs1, rs2)
            | Instruction::Or(rd, rs1, rs2)
            | Instruction::And(rd, rs1, rs2) => rd < 32 && rs1 < 32 && rs2 < 32,
            Instruction::Addi(rd, rs1, imm)
            | Instruction::Slti(rd, rs1, imm)
            | Instruction::Sltiu(rd, rs1, imm)
            | Instruction::Xori(rd, rs1, imm)
            | Instruction::Ori(rd, rs1, imm)
            | Instruction::Andi(rd, rs1, imm)
            | Instruction::Lb(rd, rs1, imm)
            | Instruction::Lh(rd, rs1, imm)
            | Instruction::Lw(rd, rs1, imm)
            | Instruction::Lbu(rd, rs1, imm)
            | Instruction::Lhu(rd, rs1, imm)
            | Instruction::Jalr(rd, rs1, imm) => rd < 32 && rs1 < 32 && is_imm12(imm),
            Instruction::Slli(rd, rs1, shamt)
            | Instruction::Srli(rd, rs1, shamt)
            | Instruction::Srai(rd, rs1, shamt) => rd < 32 && rs1 < 32 && shamt < 32,
            Instruction::Sb(rs1, rs2, imm)
            | Instruction::Sh(rs1, rs2, imm)
            | Instruction::Sw(rs1, rs2, imm) => rs1 < 32 && rs2 < 32 && is_imm12(imm),
            Instruction::Beq(rs1, rs2, offset)
            | Instruction::Bne(rs1, rs2, offset)
            | Instruction::Blt(rs1, rs2, offset)
            | Instruction::Bge(rs1, rs2, offset)
            | Instruction::Bltu(rs1, rs2, offset)
            | Instruction::Bgeu(rs1, rs2, offset) => rs1 < 32 && rs2 < 32 && -0x1000 <= offset
                && offset < 0x1000 && (offset + 0x1000) % 2 == 0,
            Instruction::Jal(rd, offset) => rd < 32 && -0x10_0000 <= offset && offset < 0x10_0000
                && (offset + 0x10_0000) % 2 == 0,
            Instruction::Lui(rd, imm) | Instruction::Auipc(rd, imm) => rd < 32 && imm % 0x1000
                == 0,
        }
    }

    /// Decodes a raw instruction word. Every word yields either the
    /// instruction it stands for or `None`, the outcome for a word that
    /// matches no supported instruction.
    pub fn decode(word: u32) -> (result: Option<Instruction>)
        ensures
            result == decode_spec(word),
    {
        proof {
            lemma_field_bounds(word);
        }
        let op: u32 = word & 0x7f;
        let rd = ((word >> 7) & 0x1f) as usize;
        if op == OPCODE_OP {
            decode_op(word)
        } else if op == OPCODE_OP_IMM {
            decode_op_imm(word)
        } else if op == OPCODE_LOAD {
            decode_load(word)
        } else if op == OPCODE_STORE {
            decode_store(word)
        } else if op == OPCODE_BRANCH {
            decode_branch(word)
        } else if op == OPCODE_JAL {
            let bits: u32 = ((word >> 31) << 20) | (((word >> 12) & 0xff) << 12) | (((word >> 20)
                & 0x1) << 11) | (((word >> 21) & 0x3ff) << 1);
            Some(Instruction::Jal(rd, extend_sign(bits, 0x10_0000)))
        } else if op == OPCODE_JALR {
            if (word >> 12) & 0x7 == 0 {
                let rs1 = ((word >> 15) & 0x1f) as usize;
                Some(Instruction::Jalr(rd, rs1, extend_sign(word >> 20, 0x800)))
            } else {
                None
            }
        } else if op == OPCODE_LUI {
            Some(Instruction::Lui(rd, word & 0xffff_f000))
        } else if op == OPCODE_AUIPC {
            Some(Instruction::Auipc(rd, word & 0xffff_f000))
        } else {
            None
        }
    }
}

// ---------------------------------------------------------------------------
// Decoding and encoding are inverse to each other
// ---------------------------------------------------------------------------
/// The fields of an R-format word are the values it was built from.
proof fn lemma_r_type_fields(op: u32, rd: u32, f3: u32, rs1: u32, rs2: u32, f7: u32)
    by (bit_vector)
    requires
        op < 0x80,
        rd < 32,
        f3 < 8,
        rs1 < 32,
        rs2 < 32,
        f7 < 0x80,
    ensures
        opcode(r_type(op, rd, f3, rs1, rs2, f7)) == op,
        field_rd(r_type(op, rd, f3, rs1, rs2, f7)) == rd,
        funct3(r_type(op, rd, f3, rs1, rs2, f7)) == f3,
        field_rs1(r_type(op, rd, f3, rs1, rs2, f7)) == rs1,
        field_rs2(r_type(op, rd, f3, rs1, rs2, f7)) == rs2,
        funct7(r_type(op, rd, f3, rs1, rs2, f7)) == f7,
{
}

/// The fields of an I-format word are the values it was built from.
proof fn lemma_i_type_fields(op: u32, rd: u32, f3: u32, rs1: u32, imm: u32)
    by (bit_vector)
    requires
        op < 0x80,
        rd < 32,
        f3 < 8,
        rs1 < 32,
        imm < 0x1000,
    ensures
        opcode(i_type(op, rd, f3, rs1, imm)) == op,
        field_rd(i_type(op, rd, f3, rs1, imm)) == rd,
        funct3(i_type(op, rd, f3, rs1, imm)) == f3,
        field_rs1(i_type(op, rd, f3, rs1, imm)) == rs1,
        bits_i(i_type(op, rd, f3, rs1, imm)) == imm,
{
}

/// The fields of an S-format word are the values it was built from.
proof fn lemma_s_type_fields(op: u32, f3: u32, rs1: u32, rs2: u32, imm: u32)
    by (bit_vector)
    requires
        op < 0x80,
        f3 < 8,
        rs1 < 32,
        rs2 < 32,
        imm < 0x1000,
    ensures
        opcode(s_type(op, f3, rs1, rs2, imm)) == op,
        funct3(s_type(op, f3, rs1, rs2, imm)) == f3,
        field_rs1(s_type(op, f3, rs1, rs2, imm)) == rs1,
        field_rs2(s_type(op, f3, rs1, rs2, imm)) == rs2,
        bits_s(s_type(op, f3, rs1, rs2, imm)) == imm,
{
}

/// The fields of a B-format word are the values it was built from.
proof fn lemma_b_type_fields(op: u32, f3: u32, rs1: u32, rs2: u32, imm: u32)
    by (bit_vector)
    requires
        op < 0x80,
        f3 < 8,
        rs1 < 32,
        rs2 < 32,
        imm < 0x2000,
        imm % 2 == 0,
    ensures
        opcode(b_type(op, f3, rs1, rs2, imm)) == op,
        funct3(b_type(op, f3, rs1, rs2, imm)) == f3,
        field_rs1(b_type(op, f3, rs1, rs2, imm)) == rs1,
        field_rs2(b_type(op, f3, rs1, rs2, imm)) == rs2,
        bits_b(b_type(op, f3, rs1, rs2, imm)) == imm,
{
}

/// The fields of a U-format word are the values it was built from.
proof fn lemma_u_type_fields(op: u32, rd: u32, imm: u32)
    by (bit_vector)
    requires
        op < 0x80,
        rd < 32,
        imm % 0x1000 == 0,
    ensures
        opcode(u_type(op, rd, imm)) == op,
        field_rd(u_type(op, rd, imm)) == rd,
        bits_u(u_type(op, rd, imm)) == imm,
{
}

/// The fields of a J-format word are the values it was built from.
proof fn lemma_j_type_fields(op: u32, rd: u32, imm: u32)
    by (bit_vector)
    requires
        op < 0x80,
        rd < 32,
        imm < 0x20_0000,
        imm % 2 == 0,
    ensures
        opcode(j_type(op, rd, imm)) == op,
        field_rd(j_type(op, rd, imm)) == rd,
        bits_j(j_type(op, rd, imm)) == imm,
{
}

/// In each format, a word is rebuilt from its own fields.
proof fn lemma_word_of_fields(word: u32)
    by (bit_vector)
    ensures
        r_type(
            opcode(word),
            field_rd(word),
            funct3(word),
            field_rs1(word),
            field_rs2(word),
            funct7(word),
        ) == word,
        i_type(opcode(word), field_rd(word), funct3(word), field_rs1(word), bits_i(word)) == word,
        s_type(opcode(word), funct3(word), field_rs1(word), field_rs2(word), bits_s(word)) == word,
        b_type(opcode(word), funct3(word), field_rs1(word), field_rs2(word), bits_b(word)) == word,
        u_type(opcode(word), field_rd(word), bits_u(word)) == word,
        j_type(opcode(word), field_rd(word), bits_j(word)) == word,
        bits_b(word) % 2 == 0,
        bits_j(word) % 2 == 0,
        bits_u(word) % 0x1000 == 0,
{
}

/// Decoding the word of a well-formed instruction gives the instruction back.
pub proof fn lemma_decode_encoding(inst: Instruction)
    requires
        inst.wf(),
    ensures
        decode_spec(inst.encoding()) == Some(inst),
{
    match inst {
        Instruction::Add(rd, rs1, rs2)
        | Instruction::Sll(rd, rs1, rs2)
        | Instruction::Slt(rd, rs1, rs2)
        | Instruction::Sltu(rd, rs1, rs2)
        | Instruction::Xor(rd, rs1, rs2)
        | Instruction::Srl(rd, rs1, rs2)
        | Instruction::Or(rd, rs1, rs2)
        | Instruction::And(rd, rs1, rs2) => {
            lemma_r_type_fields(OPCODE_OP, rd as u32, 0, rs1 as u32, rs2 as u32, 0);
            lemma_r_type_fields(OPCODE_OP, rd as u32, 1, rs1 as u32, rs2 as u32, 0);
            lemma_r_type_fields(OPCODE_OP, rd as u32, 2, rs1 as u32, rs2 as u32, 0);
            lemma_r_type_fields(OPCODE_OP, rd as u32, 3, rs1 as u32, rs2 as u32, 0);
            lemma_r_type_fields(OPCODE_OP, rd as u32, 4, rs1 as u32, rs2 as u32, 0);
            lemma_r_type_fields(OPCODE_OP, rd as u32, 5, rs1 as u32, rs2 as u32, 0);
            lemma_r_type_fields(OPCODE_OP, rd as u32, 6, rs1 as u32, rs2 as u32, 0);
            lemma_r_type_fields(OPCODE_OP, rd as u32, 7, rs1 as u32, rs2 as u32, 0);
        },
        Instruction::Sub(rd, rs1, rs2) => {
            lemma_r_type_fields(OPCODE_OP, rd as u32, 0, rs1 as u32, rs2 as u32, 0x20);
        },
        Instruction::Sra(rd, rs1, rs2) => {
            lemma_r_type_fields(OPCODE_OP, rd as u32, 5, rs1 as u32, rs2 as u32, 0x20);
        },
        Instruction::Addi(rd, rs1, imm)
        | Instruction::Slti(rd, rs1, imm)
        | Instruction::Sltiu(rd, rs1, imm)
        | Instruction::Xori(rd, rs1, imm)
        | Instruction::Ori(rd, rs1, imm)
        | Instruction::Andi(rd, rs1, imm) => {
            let bits = truncate(imm, 0x800);
            assert(sign_extend(bits, 0x800) == imm);
            lemma_i_type_fields(OPCODE_OP_IMM, rd as u32, 0, rs1 as u32, bits);
            lemma_i_type_fields(OPCODE_OP_IMM, rd as u32, 2, rs1 as u32, bits);
            lemma_i_type_fields(OPCODE_OP_IMM, rd as u32, 3, rs1 as u32, bits);
            lemma_i_type_fields(OPCODE_OP_IMM, rd as u32, 4, rs1 as u32, bits);
            lemma_i_type_fields(OPCODE_OP_IMM, rd as u32, 6, rs1 as u32, bits);
            lemma_i_type_fields(OPCODE_OP_IMM, rd as u32, 7, rs1 as u32, bits);
        },
        Instruction::Slli(rd, rs1, shamt) => {
            lemma_r_type_fields(OPCODE_OP_IMM, rd as u32, 1, rs1 as u32, shamt, 0);
        },
        Instruction::Srli(rd, rs1, shamt) => {
            lemma_r_type_fields(OPCODE_OP_IMM, rd as u32, 5, rs1 as u32, shamt, 0);
        },
        Instruction::Srai(rd, rs1, shamt) => {
            lemma_r_type_fields(OPCODE_OP_IMM, rd as u32, 5, rs1 as u32, shamt, 0x20);
        },
        Instruction::Lb(rd, rs1, imm)
        | Instruction::Lh(rd, rs1, imm)
        | Instruction::Lw(rd, rs1, imm)
        | Instruction::Lbu(rd, rs1, imm)
        | Instruction::Lhu(rd, rs1, imm) => {
            let bits = truncate(imm, 0x800);
            assert(sign_extend(bits, 0x800) == imm);
            lemma_i_type_fields(OPCODE_LOAD, rd as u32, 0, rs1 as u32, bits);
            lemma_i_type_fields(OPCODE_LOAD, rd as u32, 1, rs1 as u32, bits);
            lemma_i_type_fields(OPCODE_LOAD, rd as u32, 2, rs1 as u32, bits);
            lemma_i_type_fields(OPCODE_LOAD, rd as u32, 4, rs1 as u32, bits);
            lemma_i_type_fields(OPCODE_LOAD, rd as u32, 5, rs1 as u32, bits);
        },
        Instruction::Sb(rs1, rs2, imm)
        | Instruction::Sh(rs1, rs2, imm)
        | Instruction::Sw(rs1, rs2, imm) => {
            let bits = truncate(imm, 0x800);
            assert(sign_extend(bits, 0x800) == imm);
            lemma_s_type_fields(OPCODE_STORE, 0, rs1 as u32, rs2 as u32, bits);
            lemma_s_type_fields(OPCODE_STORE, 1, rs1 as u32, rs2 as u32, bits);
            lemma_s_type_fields(OPCODE_STORE, 2, rs1 as u32, rs2 as u32, bits);
        },
        Instruction::Beq(rs1, rs2, offset)
        | Instruction::Bne(rs1, rs2, offset)
        | Instruction::Blt(rs1, rs2, offset)
        | Instruction::Bge(rs1, rs2, offset)
        | Instruction::Bltu(rs1, rs2, offset)
        | Instruction::Bgeu(rs1, rs2, offset) => {
            let bits = truncate(offset, 0x1000);
            assert(sign_extend(bits, 0x1000) == offset);
            lemma_b_type_fields(OPCODE_BRANCH, 0, rs1 as u32, rs2 as u32, bits);
            lemma_b_type_fields(OPCODE_BRANCH, 1, rs1 as u32, rs2 as u32, bits);
            lemma_b_type_fields(OPCODE_BRANCH, 4, rs1 as u32, rs2 as u32, bits);
            lemma_b_type_fields(OPCODE_BRANCH, 5, rs1 as u32, rs2 as u32, bits);
            lemma_b_type_fields(OPCODE_BRANCH, 6, rs1 as u32, rs2 as u32, bits);
            lemma_b_type_fields(OPCODE_BRANCH, 7, rs1 as u32, rs2 as u32, bits);
        },
        Instruction::Jal(rd, offset) => {
            let bits = truncate(offset, 0x10_0000);
            assert(sign_extend(bits, 0x10_0000) == offset);
            lemma_j_type_fields(OPCODE_JAL, rd as u32, bits);
        },
        Instruction::Jalr(rd, rs1, imm) => {
            let bits = truncate(imm, 0x800);
            assert(sign_extend(bits, 0x800) == imm);
            lemma_i_type_fields(OPCODE_JALR, rd as u32, 0, rs1 as u32, bits);
        },
        Instruction::Lui(rd, imm) => {
            lemma_u_type_fields(OPCODE_LUI, rd as u32, imm);
        },
        Instruction::Auipc(rd, imm) => {
            lemma_u_type_fields(OPCODE_AUIPC, rd as u32, imm);
        },
    }
}

/// Whatever a word decodes to is well formed and has that word as its
/// encoding.
pub proof fn lemma_encoding_of_decoded(word: u32)
    ensures
        decode_spec(word) matches Some(inst) ==> inst.wf() && inst.encoding() == word,
{
    lemma_field_bounds(word);
    lemma_word_of_fields(word);
    assert(truncate(sign_extend(bits_i(word), 0x800), 0x800) == bits_i(word));
    assert(truncate(sign_extend(bits_s(word), 0x800), 0x800) == bits_s(word));
    assert(truncate(sign_extend(bits_b(word), 0x1000), 0x1000) == bits_b(word));
    assert(truncate(sign_extend(bits_j(word), 0x10_0000), 0x10_0000) == bits_j(word));
}

/// A word that does not decode is the encoding of no well-formed instruction.
pub proof fn lemma_undecodable_has_no_instruction(word: u32, inst: Instruction)
    requires
        decode_spec(word) is None,
        inst.wf(),
    ensures
        inst.encoding() != word,
{
    lemma_decode_encoding(inst);
}

} // verus!
