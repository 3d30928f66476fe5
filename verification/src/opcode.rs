use vstd::prelude::*;

verus! {

/// Every operation of the machine. An opcode is one byte: the position of the variant
/// in this list.
#[derive(Clone, Copy, PartialEq, Eq, Structural, Debug)]
pub enum Op {
    Nop,
    Halt,
    Push,
    Pop,
    MovRegImm,
    MovRegReg,
    ZeroExtend,
    SignExtend,
    Add,
    AddImm,
    Sub,
    SubImm,
    And,
    AndImm,
    Or,
    OrImm,
    Xor,
    XorImm,
    Not,
    Cmp,
    CmpImm,
    Mul,
    MulImm,
    Div,
    DivImm,
    Mod,
    ModImm,
    Smul,
    SmulImm,
    Sdiv,
    SdivImm,
    Smod,
    SmodImm,
    Jmp,
    JmpReg,
    Jz,
    JzReg,
    Jnz,
    JnzReg,
    Jc,
    JcReg,
    Jn,
    JnReg,
    Jo,
    JoReg,
    Jno,
    JnoReg,
    Call,
    CallReg,
    Ret,
    In,
    Out,
    Load,
    Store,
    SieRegImm,
    SieRegReg,
    IntImm,
    IntReg,
    Iret,
    Dpl,
    Tur,
    Tkr,
    ShlReg,
    ShlImm,
    ShrReg,
    ShrImm,
    SarReg,
    SarImm,
    RolReg,
    RolImm,
    RorReg,
    RorImm,
    MmapRegRegReg,
    MmapRegRegImm,
    MunmapRegReg,
    MunmapRegImm,
    Mprotect,
    MprotectRegRegRb,
    MprotectRegImmRb,
}

/// The operands an opcode is followed by in the instruction stream.
#[derive(Clone, Copy, PartialEq, Eq, Structural, Debug)]
pub enum OperandShape {
    /// No operand.
    Nothing,
    /// One register.
    Reg,
    /// One 32-bit immediate.
    Word,
    /// One 8-bit immediate.
    Byte,
    /// Two registers.
    RegReg,
    /// A register and an immediate as wide as that register.
    RegImm,
    /// A register and an 8-bit immediate.
    RegByte,
    /// An 8-bit immediate and a register.
    ByteReg,
    /// A register and a 32-bit immediate.
    RegWord,
    /// Three registers.
    RegRegReg,
    /// Two registers and a 32-bit immediate.
    RegRegWord,
    /// A register, a 32-bit immediate and a register.
    RegWordReg,
}

impl Op {
    /// The opcode byte of the operation.
    pub open spec fn code(self) -> u8 {
        match self {
            Op::Nop => 0,
            Op::Halt => 1,
            Op::Push => 2,
            Op::Pop => 3,
            Op::MovRegImm => 4,
            Op::MovRegReg => 5,
            Op::ZeroExtend => 6,
            Op::SignExtend => 7,
            Op::Add => 8,
            Op::AddImm => 9,
            Op::Sub => 10,
            Op::SubImm => 11,
            Op::And => 12,
            Op::AndImm => 13,
            Op::Or => 14,
            Op::OrImm => 15,
            Op::Xor => 16,
            Op::XorImm => 17,
            Op::Not => 18,
            Op::Cmp => 19,
            Op::CmpImm => 20,
            Op::Mul => 21,
            Op::MulImm => 22,
            Op::Div => 23,
            Op::DivImm => 24,
            Op::Mod => 25,
            Op::ModImm => 26,
            Op::Smul => 27,
            Op::SmulImm => 28,
            Op::Sdiv => 29,
            Op::SdivImm => 30,
            Op::Smod => 31,
            Op::SmodImm => 32,
            Op::Jmp => 33,
            Op::JmpReg => 34,
            Op::Jz => 35,
            Op::JzReg => 36,
            Op::Jnz => 37,
            Op::JnzReg => 38,
            Op::Jc => 39,
            Op::JcReg => 40,
            Op::Jn => 41,
            Op::JnReg => 42,
            Op::Jo => 43,
            Op::JoReg => 44,
            Op::Jno => 45,
            Op::JnoReg => 46,
            Op::Call => 47,
            Op::CallReg => 48,
            Op::Ret => 49,
            Op::In => 50,
            Op::Out => 51,
            Op::Load => 52,
            Op::Store => 53,
            Op::SieRegImm => 54,
            Op::SieRegReg => 55,
            Op::IntImm => 56,
            Op::IntReg => 57,
            Op::Iret => 58,
            Op::Dpl => 59,
            Op::Tur => 60,
            Op::Tkr => 61,
            Op::ShlReg => 62,
            Op::ShlImm => 63,
            Op::ShrReg => 64,
            Op::ShrImm => 65,
            Op::SarReg => 66,
            Op::SarImm => 67,
            Op::RolReg => 68,
            Op::RolImm => 69,
            Op::RorReg => 70,
            Op::RorImm => 71,
            Op::MmapRegRegReg => 72,
            Op::MmapRegRegImm => 73,
            Op::MunmapRegReg => 74,
            Op::MunmapRegImm => 75,
            Op::Mprotect => 76,
            Op::MprotectRegRegRb => 77,
            Op::MprotectRegImmRb => 78,
        }
    }

    /// The operands the opcode is followed by.
    pub open spec fn shape(self) -> OperandShape {
        match self {
            Op::Nop => OperandShape::Nothing,
            Op::Halt => OperandShape::Nothing,
            Op::Push => OperandShape::Reg,
            Op::Pop => OperandShape::Reg,
            Op::MovRegImm => OperandShape::RegImm,
            Op::MovRegReg => OperandShape::RegReg,
            Op::ZeroExtend => OperandShape::RegReg,
            Op::SignExtend => OperandShape::RegReg,
            Op::Add => OperandShape::RegReg,
            Op::AddImm => OperandShape::RegImm,
            Op::Sub => OperandShape::RegReg,
            Op::SubImm => OperandShape::RegImm,
            Op::And => OperandShape::RegReg,
            Op::AndImm => OperandShape::RegImm,
            Op::Or => OperandShape::RegReg,
            Op::OrImm => OperandShape::RegImm,
            Op::Xor => OperandShape::RegReg,
            Op::XorImm => OperandShape::RegImm,
            Op::Not => OperandShape::Reg,
            Op::Cmp => OperandShape::RegReg,
            Op::CmpImm => OperandShape::RegImm,
            Op::Mul => OperandShape::RegReg,
            Op::MulImm => OperandShape::RegImm,
            Op::Div => OperandShape::RegReg,
            Op::DivImm => OperandShape::RegImm,
            Op::Mod => OperandShape::RegReg,
            Op::ModImm => OperandShape::RegImm,
            Op::Smul => OperandShape::RegReg,
            Op::SmulImm => OperandShape::RegImm,
            Op::Sdiv => OperandShape::RegReg,
            Op::SdivImm => OperandShape::RegImm,
            Op::Smod => OperandShape::RegReg,
            Op::SmodImm => OperandShape::RegImm,
            Op::Jmp => OperandShape::Word,
            Op::JmpReg => OperandShape::Reg,
            Op::Jz => OperandShape::Word,
            Op::JzReg => OperandShape::Reg,
            Op::Jnz => OperandShape::Word,
            Op::JnzReg => OperandShape::Reg,
            Op::Jc => OperandShape::Word,
            Op::JcReg => OperandShape::Reg,
            Op::Jn => OperandShape::Word,
            Op::JnReg => OperandShape::Reg,
            Op::Jo => OperandShape::Word,
            Op::JoReg => OperandShape::Reg,
            Op::Jno => OperandShape::Word,
            Op::JnoReg => OperandShape::Reg,
            Op::Call => OperandShape::Word,
            Op::CallReg => OperandShape::Reg,
            Op::Ret => OperandShape::Nothing,
            Op::In => OperandShape::RegByte,
            Op::Out => OperandShape::ByteReg,
            Op::Load => OperandShape::RegReg,
            Op::Store => OperandShape::RegReg,
            Op::SieRegImm => OperandShape::RegWord,
            Op::SieRegReg => OperandShape::RegReg,
            Op::IntImm => OperandShape::Byte,
            Op::IntReg => OperandShape::Reg,
            Op::Iret => OperandShape::Nothing,
            Op::Dpl => OperandShape::Nothing,
            Op::Tur => OperandShape::RegReg,
            Op::Tkr => OperandShape::RegReg,
            Op::ShlReg => OperandShape::RegReg,
            Op::ShlImm => OperandShape::RegByte,
            Op::ShrReg => OperandShape::RegReg,
            Op::ShrImm => OperandShape::RegByte,
            Op::SarReg => OperandShape::RegReg,
            Op::SarImm => OperandShape::RegByte,
            Op::RolReg => OperandShape::RegReg,
            Op::RolImm => OperandShape::RegByte,
            Op::RorReg => OperandShape::RegReg,
            Op::RorImm => OperandShape::RegByte,
            Op::MmapRegRegReg => OperandShape::RegRegReg,
            Op::MmapRegRegImm => OperandShape::RegRegWord,
            Op::MunmapRegReg => OperandShape::RegReg,
            Op::MunmapRegImm => OperandShape::RegWord,
            Op::Mprotect => OperandShape::RegReg,
            Op::MprotectRegRegRb => OperandShape::RegRegReg,
            Op::MprotectRegImmRb => OperandShape::RegWordReg,
        }
    }

    /// The assembler mnemonic of the operation.
    pub open spec fn mnemonic(self) -> Seq<char> {
        match self {
            Op::Nop => "NOP"@,
            Op::Halt => "HALT"@,
            Op::Push => "PUSH"@,
            Op::Pop => "POP"@,
            Op::MovRegImm => "MOV"@,
            Op::MovRegReg => "MOV"@,
            Op::ZeroExtend => "ZEXT"@,
            Op::SignExtend => "SEXT"@,
            Op::Add => "ADD"@,
            Op::AddImm => "ADD"@,
            Op::Sub => "SUB"@,
            Op::SubImm => "SUB"@,
            Op::And => "AND"@,
            Op::AndImm => "AND"@,
            Op::Or => "OR"@,
            Op::OrImm => "OR"@,
            Op::Xor => "XOR"@,
            Op::XorImm => "XOR"@,
            Op::Not => "NOT"@,
            Op::Cmp => "CMP"@,
            Op::CmpImm => "CMP"@,
            Op::Mul => "MUL"@,
            Op::MulImm => "MUL"@,
            Op::Div => "DIV"@,
            Op::DivImm => "DIV"@,
            Op::Mod => "MOD"@,
            Op::ModImm => "MOD"@,
            Op::Smul => "SMUL"@,
            Op::SmulImm => "SMUL"@,
            Op::Sdiv => "SDIV"@,
            Op::SdivImm => "SDIV"@,
            Op::Smod => "SMOD"@,
            Op::SmodImm => "SMOD"@,
            Op::Jmp => "JMP"@,
            Op::JmpReg => "JMP"@,
            Op::Jz => "JZ"@,
            Op::JzReg => "JZ"@,
            Op::Jnz => "JNZ"@,
            Op::JnzReg => "JNZ"@,
            Op::Jc => "JC"@,
            Op::JcReg => "JC"@,
            Op::Jn => "JN"@,
            Op::JnReg => "JN"@,
            Op::Jo => "JO"@,
            Op::JoReg => "JO"@,
            Op::Jno => "JNO"@,
            Op::JnoReg => "JNO"@,
            Op::Call => "CALL"@,
            Op::CallReg => "CALL"@,
            Op::Ret => "RET"@,
            Op::In => "IN"@,
            Op::Out => "OUT"@,
            Op::Load => "LOAD"@,
            Op::Store => "STORE"@,
            Op::SieRegImm => "SIE"@,
            Op::SieRegReg => "SIE"@,
            Op::IntImm => "INT"@,
            Op::IntReg => "INT"@,
            Op::Iret => "IRET"@,
            Op::Dpl => "DPL"@,
            Op::Tur => "TUR"@,
            Op::Tkr => "TKR"@,
            Op::ShlReg => "SHL"@,
            Op::ShlImm => "SHL"@,
            Op::ShrReg => "SHR"@,
            Op::ShrImm => "SHR"@,
            Op::SarReg => "SAR"@,
            Op::SarImm => "SAR"@,
            Op::RolReg => "ROL"@,
            Op::RolImm => "ROL"@,
            Op::RorReg => "ROR"@,
            Op::RorImm => "ROR"@,
            Op::MmapRegRegReg => "MMAP"@,
            Op::MmapRegRegImm => "MMAP"@,
            Op::MunmapRegReg => "MUNMAP"@,
            Op::MunmapRegImm => "MUNMAP"@,
            Op::Mprotect => "MPROTECT"@,
            Op::MprotectRegRegRb => "MPROTECT"@,
            Op::MprotectRegImmRb => "MPROTECT"@,
        }
    }

    /// The opcode byte of the operation.
    pub fn as_byte(self) -> (b: u8)
        ensures
            b == self.code(),
    {
        match self {
            Op::Nop => 0,
            Op::Halt => 1,
            Op::Push => 2,
            Op::Pop => 3,
            Op::MovRegImm => 4,
            Op::MovRegReg => 5,
            Op::ZeroExtend => 6,
            Op::SignExtend => 7,
            Op::Add => 8,
            Op::AddImm => 9,
            Op::Sub => 10,
            Op::SubImm => 11,
            Op::And => 12,
            Op::AndImm => 13,
            Op::Or => 14,
            Op::OrImm => 15,
            Op::Xor => 16,
            Op::XorImm => 17,
            Op::Not => 18,
            Op::Cmp => 19,
            Op::CmpImm => 20,
            Op::Mul => 21,
            Op::MulImm => 22,
            Op::Div => 23,
            Op::DivImm => 24,
            Op::Mod => 25,
            Op::ModImm => 26,
            Op::Smul => 27,
            Op::SmulImm => 28,
            Op::Sdiv => 29,
            Op::SdivImm => 30,
            Op::Smod => 31,
            Op::SmodImm => 32,
            Op::Jmp => 33,
            Op::JmpReg => 34,
            Op::Jz => 35,
            Op::JzReg => 36,
            Op::Jnz => 37,
            Op::JnzReg => 38,
            Op::Jc => 39,
            Op::JcReg => 40,
            Op::Jn => 41,
            Op::JnReg => 42,
            Op::Jo => 43,
            Op::JoReg => 44,
            Op::Jno => 45,
            Op::JnoReg => 46,
            Op::Call => 47,
            Op::CallReg => 48,
            Op::Ret => 49,
            Op::In => 50,
            Op::Out => 51,
            Op::Load => 52,
            Op::Store => 53,
            Op::SieRegImm => 54,
            Op::SieRegReg => 55,
            Op::IntImm => 56,
            Op::IntReg => 57,
            Op::Iret => 58,
            Op::Dpl => 59,
            Op::Tur => 60,
            Op::Tkr => 61,
            Op::ShlReg => 62,
            Op::ShlImm => 63,
            Op::ShrReg => 64,
            Op::ShrImm => 65,
            Op::SarReg => 66,
            Op::SarImm => 67,
            Op::RolReg => 68,
            Op::RolImm => 69,
            Op::RorReg => 70,
            Op::RorImm => 71,
            Op::MmapRegRegReg => 72,
            Op::MmapRegRegImm => 73,
            Op::MunmapRegReg => 74,
            Op::MunmapRegImm => 75,
            Op::Mprotect => 76,
            Op::MprotectRegRegRb => 77,
            Op::MprotectRegImmRb => 78,
        }
    }

    /// The operation an opcode byte stands for; `None` for bytes past the last operation.
    pub fn from_byte(b: u8) -> (r: Option<Op>)
        ensures
            r.is_some() <==> b < NUM_OPS,
            r.is_some() ==> r.unwrap().code() == b,
    {
        match b {
            0 => Some(Op::Nop),
            1 => Some(Op::Halt),
            2 => Some(Op::Push),
            3 => Some(Op::Pop),
            4 => Some(Op::MovRegImm),
            5 => Some(Op::MovRegReg),
            6 => Some(Op::ZeroExtend),
            7 => Some(Op::SignExtend),
            8 => Some(Op::Add),
            9 => Some(Op::AddImm),
            10 => Some(Op::Sub),
            11 => Some(Op::SubImm),
            12 => Some(Op::And),
            13 => Some(Op::AndImm),
            14 => Some(Op::Or),
            15 => Some(Op::OrImm),
            16 => Some(Op::Xor),
            17 => Some(Op::XorImm),
            18 => Some(Op::Not),
            19 => Some(Op::Cmp),
            20 => Some(Op::CmpImm),
            21 => Some(Op::Mul),
            22 => Some(Op::MulImm),
            23 => Some(Op::Div),
            24 => Some(Op::DivImm),
            25 => Some(Op::Mod),
            26 => Some(Op::ModImm),
            27 => Some(Op::Smul),
            28 => Some(Op::SmulImm),
            29 => Some(Op::Sdiv),
            30 => Some(Op::SdivImm),
            31 => Some(Op::Smod),
            32 => Some(Op::SmodImm),
            33 => Some(Op::Jmp),
            34 => Some(Op::JmpReg),
            35 => Some(Op::Jz),
            36 => Some(Op::JzReg),
            37 => Some(Op::Jnz),
            38 => Some(Op::JnzReg),
            39 => Some(Op::Jc),
            40 => Some(Op::JcReg),
            41 => Some(Op::Jn),
            42 => Some(Op::JnReg),
            43 => Some(Op::Jo),
            44 => Some(Op::JoReg),
            45 => Some(Op::Jno),
            46 => Some(Op::JnoReg),
            47 => Some(Op::Call),
            48 => Some(Op::CallReg),
            49 => Some(Op::Ret),
            50 => Some(Op::In),
            51 => Some(Op::Out),
            52 => Some(Op::Load),
            53 => Some(Op::Store),
            54 => Some(Op::SieRegImm),
            55 => Some(Op::SieRegReg),
            56 => Some(Op::IntImm),
            57 => Some(Op::IntReg),
            58 => Some(Op::Iret),
            59 => Some(Op::Dpl),
            60 => Some(Op::Tur),
            61 => Some(Op::Tkr),
            62 => Some(Op::ShlReg),
            63 => Some(Op::ShlImm),
            64 => Some(Op::ShrReg),
            65 => Some(Op::ShrImm),
            66 => Some(Op::SarReg),
            67 => Some(Op::SarImm),
            68 => Some(Op::RolReg),
            69 => Some(Op::RolImm),
            70 => Some(Op::RorReg),
            71 => Some(Op::RorImm),
            72 => Some(Op::MmapRegRegReg),
            73 => Some(Op::MmapRegRegImm),
            74 => Some(Op::MunmapRegReg),
            75 => Some(Op::MunmapRegImm),
            76 => Some(Op::Mprotect),
            77 => Some(Op::MprotectRegRegRb),
            78 => Some(Op::MprotectRegImmRb),
            _ => None,
        }
    }

    /// The operands the opcode is followed by.
    pub fn operand_shape(self) -> (s: OperandShape)
        ensures
            s == self.shape(),
    {
        match self {
            Op::Nop => OperandShape::Nothing,
            Op::Halt => OperandShape::Nothing,
            Op::Push => OperandShape::Reg,
            Op::Pop => OperandShape::Reg,
            Op::MovRegImm => OperandShape::RegImm,
            Op::MovRegReg => OperandShape::RegReg,
            Op::ZeroExtend => OperandShape::RegReg,
            Op::SignExtend => OperandShape::RegReg,
            Op::Add => OperandShape::RegReg,
            Op::AddImm => OperandShape::RegImm,
            Op::Sub => OperandShape::RegReg,
            Op::SubImm => OperandShape::RegImm,
            Op::And => OperandShape::RegReg,
            Op::AndImm => OperandShape::RegImm,
            Op::Or => OperandShape::RegReg,
            Op::OrImm => OperandShape::RegImm,
            Op::Xor => OperandShape::RegReg,
            Op::XorImm => OperandShape::RegImm,
            Op::Not => OperandShape::Reg,
            Op::Cmp => OperandShape::RegReg,
            Op::CmpImm => OperandShape::RegImm,
            Op::Mul => OperandShape::RegReg,
            Op::MulImm => OperandShape::RegImm,
            Op::Div => OperandShape::RegReg,
            Op::DivImm => OperandShape::RegImm,
            Op::Mod => OperandShape::RegReg,
            Op::ModImm => OperandShape::RegImm,
            Op::Smul => OperandShape::RegReg,
            Op::SmulImm => OperandShape::RegImm,
            Op::Sdiv => OperandShape::RegReg,
            Op::SdivImm => OperandShape::RegImm,
            Op::Smod => OperandShape::RegReg,
            Op::SmodImm => OperandShape::RegImm,
            Op::Jmp => OperandShape::Word,
            Op::JmpReg => OperandShape::Reg,
            Op::Jz => OperandShape::Word,
            Op::JzReg => OperandShape::Reg,
            Op::Jnz => OperandShape::Word,
            Op::JnzReg => OperandShape::Reg,
            Op::Jc => OperandShape::Word,
            Op::JcReg => OperandShape::Reg,
            Op::Jn => OperandShape::Word,
            Op::JnReg => OperandShape::Reg,
            Op::Jo => OperandShape::Word,
            Op::JoReg => OperandShape::Reg,
            Op::Jno => OperandShape::Word,
            Op::JnoReg => OperandShape::Reg,
            Op::Call => OperandShape::Word,
            Op::CallReg => OperandShape::Reg,
            Op::Ret => OperandShape::Nothing,
            Op::In => OperandShape::RegByte,
            Op::Out => OperandShape::ByteReg,
            Op::Load => OperandShape::RegReg,
            Op::Store => OperandShape::RegReg,
            Op::SieRegImm => OperandShape::RegWord,
            Op::SieRegReg => OperandShape::RegReg,
            Op::IntImm => OperandShape::Byte,
            Op::IntReg => OperandShape::Reg,
            Op::Iret => OperandShape::Nothing,
            Op::Dpl => OperandShape::Nothing,
            Op::Tur => OperandShape::RegReg,
            Op::Tkr => OperandShape::RegReg,
            Op::ShlReg => OperandShape::RegReg,
            Op::ShlImm => OperandShape::RegByte,
            Op::ShrReg => OperandShape::RegReg,
            Op::ShrImm => OperandShape::RegByte,
            Op::SarReg => OperandShape::RegReg,
            Op::SarImm => OperandShape::RegByte,
            Op::RolReg => OperandShape::RegReg,
            Op::RolImm => OperandShape::RegByte,
            Op::RorReg => OperandShape::RegReg,
            Op::RorImm => OperandShape::RegByte,
            Op::MmapRegRegReg => OperandShape::RegRegReg,
            Op::MmapRegRegImm => OperandShape::RegRegWord,
            Op::MunmapRegReg => OperandShape::RegReg,
            Op::MunmapRegImm => OperandShape::RegWord,
            Op::Mprotect => OperandShape::RegReg,
            Op::MprotectRegRegRb => OperandShape::RegRegReg,
            Op::MprotectRegImmRb => OperandShape::RegWordReg,
        }
    }
}

/// Number of defined opcodes; every byte below it is an opcode.
pub const NUM_OPS: u8 = 79;

/// Distinct operations have distinct opcode bytes, so an opcode byte decodes back to its
/// operation.
pub proof fn law_opcode_byte_roundtrip(op: Op)
    ensures
        op.code() < NUM_OPS,
        forall|other: Op| other.code() == op.code() ==> other == op,
{
}

} // verus!
