//! The operand rules of the instruction set, shared by the assembler and the machine.
use vstd::prelude::*;
use crate::argument::Argument;
use crate::opcode::{Op, OperandShape};
use crate::register::{RegisterEncoding, VIEW_RW, VIEW_RB, VIEW_SP, VIEW_CR, VIEW_IP};

verus! {

/// What an operand slot holds, whether label references are resolved or not.
pub enum Slot {
    Absent,
    Reg(RegisterEncoding),
    /// An immediate of the given byte width.
    Imm(nat),
    /// A label, resolved or not (four bytes in the instruction stream).
    Label,
}

/// The slot view of a resolved argument.
pub open spec fn slot_of(a: Argument) -> Slot {
    match a {
        Argument::Absent => Slot::Absent,
        Argument::Register(r) => Slot::Reg(r),
        Argument::Inmm8(_) => Slot::Imm(1),
        Argument::Inmm16(_) => Slot::Imm(2),
        Argument::Inmm32(_) => Slot::Imm(4),
        Argument::Label { .. } => Slot::Label,
    }
}

/// Number of operands of a shape.
pub open spec fn arity(s: OperandShape) -> int {
    match s {
        OperandShape::Nothing => 0,
        OperandShape::Reg | OperandShape::Word | OperandShape::Byte => 1,
        OperandShape::RegReg | OperandShape::RegImm | OperandShape::RegByte
        | OperandShape::ByteReg | OperandShape::RegWord => 2,
        _ => 3,
    }
}

/// Whether operand `k` of a shape is a register.
pub open spec fn is_reg_slot(s: OperandShape, k: int) -> bool {
    match s {
        OperandShape::Reg | OperandShape::RegReg | OperandShape::RegRegReg => true,
        OperandShape::RegImm | OperandShape::RegByte | OperandShape::RegWord => k == 0,
        OperandShape::ByteReg => k == 1,
        OperandShape::RegRegWord => k <= 1,
        OperandShape::RegWordReg => k == 0 || k == 2,
        _ => false,
    }
}

/// Whether a slot is a register slot holding a valid register, or an immediate slot
/// holding an immediate or a label.
pub open spec fn slot_fits(s: OperandShape, k: int, v: Slot) -> bool {
    if is_reg_slot(s, k) {
        v matches Slot::Reg(r) && r.is_valid()
    } else {
        v is Imm || v is Label
    }
}

/// The register in a slot (meaningful for register slots).
pub open spec fn reg_in(v: Slot) -> RegisterEncoding {
    match v {
        Slot::Reg(r) => r,
        _ => RegisterEncoding(0),
    }
}

/// View of a register encoding, by name.
pub open spec fn is_view(r: RegisterEncoding, v: u8) -> bool {
    r.view_bits() == v
}

/// Register-class rules of each operation beyond its shape.
pub open spec fn register_rules(op: Op, a: Slot, b: Slot, c: Slot) -> bool {
    let ra = reg_in(a);
    let rb = reg_in(b);
    let rc = reg_in(c);
    match op {
        Op::MovRegReg => !is_view(ra, VIEW_IP) && !is_view(rb, VIEW_IP) && (ra.width()
            == rb.width() || is_view(ra, VIEW_SP) || is_view(rb, VIEW_SP)),
        Op::MovRegImm => !is_view(ra, VIEW_IP),
        Op::ZeroExtend | Op::SignExtend => ra.width() > rb.width(),
        Op::ShlReg | Op::ShrReg | Op::SarReg | Op::RolReg | Op::RorReg => is_view(rb, VIEW_RB),
        Op::IntReg => is_view(ra, VIEW_RB),
        Op::Load => is_view(rb, VIEW_RW),
        Op::Store => is_view(ra, VIEW_RW),
        Op::SieRegReg => is_view(ra, VIEW_RB) && is_view(rb, VIEW_RW),
        Op::SieRegImm => is_view(ra, VIEW_RB),
        Op::Tur => is_view(ra, VIEW_RW) && (is_view(rb, VIEW_RW) || is_view(rb, VIEW_IP)
            || is_view(rb, VIEW_CR)),
        Op::Tkr => (is_view(ra, VIEW_RW) || is_view(ra, VIEW_IP) || is_view(ra, VIEW_CR)
            || is_view(ra, VIEW_SP)) && is_view(rb, VIEW_RW),
        Op::MmapRegRegReg => is_view(ra, VIEW_RW) && is_view(rb, VIEW_RW) && is_view(rc, VIEW_RW),
        Op::MmapRegRegImm => is_view(ra, VIEW_RW) && is_view(rb, VIEW_RW),
        Op::MunmapRegReg => is_view(ra, VIEW_RW) && is_view(rb, VIEW_RW),
        Op::MunmapRegImm => is_view(ra, VIEW_RW),
        Op::Mprotect => is_view(ra, VIEW_RW) && is_view(rb, VIEW_RB),
        Op::MprotectRegRegRb => is_view(ra, VIEW_RW) && is_view(rb, VIEW_RW) && is_view(
            rc,
            VIEW_RB,
        ),
        Op::MprotectRegImmRb => is_view(ra, VIEW_RW) && is_view(rc, VIEW_RB),
        _ => true,
    }
}

/// An instruction obeys the operand rules: as many operands as its shape, each of the kind
/// the shape asks for, unused slots empty, and the register-class rules of the operation.
pub open spec fn obeys_rules(op: Op, count: usize, a: Slot, b: Slot, c: Slot) -> bool {
    let s = op.shape();
    &&& count == arity(s)
    &&& (arity(s) > 0 ==> slot_fits(s, 0, a))
    &&& (arity(s) > 1 ==> slot_fits(s, 1, b))
    &&& (arity(s) > 2 ==> slot_fits(s, 2, c))
    &&& (arity(s) <= 0 ==> a is Absent)
    &&& (arity(s) <= 1 ==> b is Absent)
    &&& (arity(s) <= 2 ==> c is Absent)
    &&& register_rules(op, a, b, c)
}

/// Byte width of the immediate expected in slot `k` of an operation with first register
/// `r0` (a 32-bit word, a byte, or as wide as the register).
pub open spec fn imm_width(s: OperandShape, k: int, r0: RegisterEncoding) -> nat {
    match s {
        OperandShape::RegImm => r0.width() as nat,
        OperandShape::Byte | OperandShape::RegByte | OperandShape::ByteReg => 1,
        _ => 4,
    }
}

/// Every immediate of the instruction has the width its slot is encoded with (labels count
/// as four bytes).
pub open spec fn widths_consistent(op: Op, a: Slot, b: Slot, c: Slot) -> bool {
    let s = op.shape();
    let r0 = reg_in(a);
    &&& (arity(s) > 0 && !is_reg_slot(s, 0) ==> slot_width(a) == imm_width(s, 0, r0))
    &&& (arity(s) > 1 && !is_reg_slot(s, 1) ==> slot_width(b) == imm_width(s, 1, r0))
    &&& (arity(s) > 2 && !is_reg_slot(s, 2) ==> slot_width(c) == imm_width(s, 2, r0))
}

/// Encoded width of an immediate or label slot.
pub open spec fn slot_width(v: Slot) -> nat {
    match v {
        Slot::Imm(w) => w,
        Slot::Label => 4,
        _ => 0,
    }
}

} // verus!
