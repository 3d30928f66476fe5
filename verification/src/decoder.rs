//! Decoding of instruction operands from the bytes that follow an opcode.
use vstd::prelude::*;
use crate::argument::{Argument, arg_bytes};
use crate::bytes::{half_of, word_of, lemma_be32_roundtrip, lemma_be16_roundtrip};
use crate::instruction::{Instruction, args_bytes, args_size, used_count};
use crate::isa::{arity, obeys_rules, slot_of, widths_consistent};
use crate::opcode::{Op, OperandShape};
use crate::register::{RegisterEncoding, valid_view, view_of, view_width};
use crate::vm_types::{VmError, VmResult};

verus! {

/// Width in bytes of the register encoded by `b`.
pub open spec fn reg_width_of(b: u8) -> nat {
    view_width(view_of(b)) as nat
}

/// Number of operand bytes of a shape, where `first` is the first operand byte (it sets
/// the width of a register-width immediate).
pub open spec fn operands_len(s: OperandShape, first: u8) -> nat {
    match s {
        OperandShape::Nothing => 0,
        OperandShape::Reg | OperandShape::Byte => 1,
        OperandShape::Word => 4,
        OperandShape::RegReg | OperandShape::RegByte | OperandShape::ByteReg => 2,
        OperandShape::RegImm => 1 + reg_width_of(first),
        OperandShape::RegWord => 5,
        OperandShape::RegRegReg => 3,
        OperandShape::RegRegWord | OperandShape::RegWordReg => 6,
    }
}

/// The register operand encoded by a byte, if it names a register.
pub open spec fn reg_arg_of(b: u8) -> Option<Argument> {
    if valid_view(view_of(b)) {
        Some(Argument::Register(RegisterEncoding(b)))
    } else {
        None
    }
}

/// The 32-bit immediate at `i` of `b`.
pub open spec fn word_arg(b: Seq<u8>, i: int) -> Argument {
    Argument::Inmm32(word_of(b[i], b[i + 1], b[i + 2], b[i + 3]))
}

/// The immediate of width `w` at `i` of `b`.
pub open spec fn imm_arg(b: Seq<u8>, i: int, w: nat) -> Argument {
    if w == 1 {
        Argument::Inmm8(b[i])
    } else if w == 2 {
        Argument::Inmm16(half_of(b[i], b[i + 1]))
    } else {
        word_arg(b, i)
    }
}

/// Three operand slots from up to three decoded operands.
pub open spec fn slots3(a: Option<Argument>, b: Option<Argument>, c: Option<Argument>) -> Option<Seq<Argument>> {
    if a is Some && b is Some && c is Some {
        Some(seq![a->0, b->0, c->0])
    } else {
        None
    }
}

/// The operands of `op` decoded from their bytes `b`; `None` when a register byte names no
/// register.
pub open spec fn decoded_args(op: Op, b: Seq<u8>) -> Option<Seq<Argument>> {
    let none = Some(Argument::Absent);
    match op.shape() {
        OperandShape::Nothing => slots3(none, none, none),
        OperandShape::Reg => slots3(reg_arg_of(b[0]), none, none),
        OperandShape::Word => slots3(Some(word_arg(b, 0)), none, none),
        OperandShape::Byte => slots3(Some(Argument::Inmm8(b[0])), none, none),
        OperandShape::RegReg => slots3(reg_arg_of(b[0]), reg_arg_of(b[1]), none),
        OperandShape::RegImm => slots3(reg_arg_of(b[0]), Some(imm_arg(b, 1, reg_width_of(b[0]))), none),
        OperandShape::RegByte => slots3(reg_arg_of(b[0]), Some(Argument::Inmm8(b[1])), none),
        OperandShape::ByteReg => slots3(Some(Argument::Inmm8(b[0])), reg_arg_of(b[1]), none),
        OperandShape::RegWord => slots3(reg_arg_of(b[0]), Some(word_arg(b, 1)), none),
        OperandShape::RegRegReg => slots3(reg_arg_of(b[0]), reg_arg_of(b[1]), reg_arg_of(b[2])),
        OperandShape::RegRegWord => slots3(reg_arg_of(b[0]), reg_arg_of(b[1]), Some(word_arg(b, 2))),
        OperandShape::RegWordReg => slots3(reg_arg_of(b[0]), Some(word_arg(b, 1)), reg_arg_of(b[5])),
    }
}

/// Number of operand bytes of `op` given its first operand byte.
pub fn operands_length(op: Op, first: u8) -> (n: usize)
    ensures
        n == operands_len(op.shape(), first),
        n <= 6,
{
    match op.operand_shape() {
        OperandShape::Nothing => 0,
        OperandShape::Reg | OperandShape::Byte => 1,
        OperandShape::Word => 4,
        OperandShape::RegReg | OperandShape::RegByte | OperandShape::ByteReg => 2,
        OperandShape::RegImm => {
            let v = first & 0xE0;
            let w: usize = if v == 0x40 {
                2
            } else if v == 0x60 {
                1
            } else {
                4
            };
            1 + w
        },
        OperandShape::RegWord => 5,
        OperandShape::RegRegReg => 3,
        OperandShape::RegRegWord | OperandShape::RegWordReg => 6,
    }
}

/// A register operand, or an invalid-opcode error naming the byte and its address.
fn reg_at(b: &[u8], i: usize, ip: u32) -> (r: VmResult<Argument>)
    requires
        i < b@.len(),
        i < 8,
    ensures
        r matches Ok(a) ==> reg_arg_of(b@[i as int]) == Some(a),
        r is Err ==> reg_arg_of(b@[i as int]) is None,
        r matches Err(e) ==> e is InvalidOpcode,
{
    match RegisterEncoding::from_byte(b[i]) {
        Some(reg) => Ok(Argument::Register(reg)),
        None => Err(VmError::InvalidOpcode { opcode: b[i], address: ip.wrapping_add(1 + i as u32) }),
    }
}

fn word_at_exec(b: &[u8], i: usize) -> (a: Argument)
    requires
        i + 4 <= b@.len(),
    ensures
        a == word_arg(b@, i as int),
{
    Argument::Inmm32(((b[i] as u32) << 24) | ((b[i + 1] as u32) << 16) | ((b[i + 2] as u32) << 8) | (b[i + 3] as u32))
}

/// Decodes the operands of `op` from the bytes after its opcode at `ip`. A register byte
/// that names no register is an invalid-opcode error.
pub fn decode_operands(op: Op, b: &[u8], ip: u32) -> (r: VmResult<Instruction>)
    requires
        b@.len() == operands_len(op.shape(), if b@.len() > 0 { b@[0] } else { 0 }),
    ensures
        r is Ok <==> decoded_args(op, b@) is Some,
        r matches Ok(i) ==> i.opcode == op && i.arguments@ == decoded_args(op, b@)->0
            && i.argument_count == arity(op.shape()) && i.size == 1 + args_size(i.arguments@, used_count(i.argument_count)),
        r matches Err(e) ==> e is InvalidOpcode,
{
    let none = Argument::Absent;
    let (args, count): ([Argument; 3], usize) = match op.operand_shape() {
        OperandShape::Nothing => ([none, none, none], 0),
        OperandShape::Reg => ([reg_at(b, 0, ip)?, none, none], 1),
        OperandShape::Word => ([word_at_exec(b, 0), none, none], 1),
        OperandShape::Byte => ([Argument::Inmm8(b[0]), none, none], 1),
        OperandShape::RegReg => {
            let a0 = reg_at(b, 0, ip)?;
            let a1 = reg_at(b, 1, ip)?;
            ([a0, a1, none], 2)
        },
        OperandShape::RegImm => {
            let a0 = reg_at(b, 0, ip)?;
            let v = b[0] & 0xE0;
            let imm = if v == 0x60 {
                Argument::Inmm8(b[1])
            } else if v == 0x40 {
                Argument::Inmm16(((b[1] as u16) << 8) | (b[2] as u16))
            } else {
                word_at_exec(b, 1)
            };
            ([a0, imm, none], 2)
        },
        OperandShape::RegByte => {
            let a0 = reg_at(b, 0, ip)?;
            ([a0, Argument::Inmm8(b[1]), none], 2)
        },
        OperandShape::ByteReg => {
            let a1 = reg_at(b, 1, ip)?;
            ([Argument::Inmm8(b[0]), a1, none], 2)
        },
        OperandShape::RegWord => {
            let a0 = reg_at(b, 0, ip)?;
            ([a0, word_at_exec(b, 1), none], 2)
        },
        OperandShape::RegRegReg => {
            let a0 = reg_at(b, 0, ip)?;
            let a1 = reg_at(b, 1, ip)?;
            let a2 = reg_at(b, 2, ip)?;
            ([a0, a1, a2], 3)
        },
        OperandShape::RegRegWord => {
            let a0 = reg_at(b, 0, ip)?;
            let a1 = reg_at(b, 1, ip)?;
            ([a0, a1, word_at_exec(b, 2)], 3)
        },
        OperandShape::RegWordReg => {
            let a0 = reg_at(b, 0, ip)?;
            let a2 = reg_at(b, 5, ip)?;
            ([a0, word_at_exec(b, 1), a2], 3)
        },
    };
    proof {
        assert(args@ =~= decoded_args(op, b@)->0);
    }
    Ok(Instruction::new(op, args, count))
}

/// How the decoder sees an operand: a label's address is an ordinary 32-bit immediate.
pub open spec fn normalized(a: Argument) -> Argument {
    match a {
        Argument::Label { address, .. } => Argument::Inmm32(address),
        _ => a,
    }
}

proof fn lemma_reg_byte(a: Argument)
    requires
        a matches Argument::Register(r) && r.is_valid(),
    ensures
        arg_bytes(a).len() == 1,
        reg_arg_of(arg_bytes(a)[0]) == Some(a),
{
}

proof fn lemma_word_bytes(a: Argument)
    requires
        a is Inmm32 || a is Label,
    ensures
        arg_bytes(a).len() == 4,
        word_arg(arg_bytes(a), 0) == normalized(a),
{
    match a {
        Argument::Inmm32(v) => lemma_be32_roundtrip(v),
        Argument::Label { address, .. } => lemma_be32_roundtrip(address),
        _ => {},
    }
}

/// Decoding what an instruction is encoded as gives its operands back, labels read as
/// their addresses: for every instruction that obeys the operand rules and whose
/// immediates have the widths their slots are encoded with.
pub proof fn law_decode_encoded(i: Instruction)
    requires
        obeys_rules(i.opcode, i.argument_count, slot_of(i.arguments[0]), slot_of(i.arguments[1]), slot_of(i.arguments[2])),
        widths_consistent(i.opcode, slot_of(i.arguments[0]), slot_of(i.arguments[1]), slot_of(i.arguments[2])),
    ensures
        ({
            let b = args_bytes(i.arguments@, used_count(i.argument_count));
            &&& b.len() == operands_len(i.opcode.shape(), if b.len() > 0 { b[0] } else { 0 })
            &&& decoded_args(i.opcode, b) == Some(seq![normalized(i.arguments[0]), normalized(i.arguments[1]), normalized(i.arguments[2])])
        }),
{
    reveal_with_fuel(args_bytes, 4);
    let a0 = i.arguments[0];
    let a1 = i.arguments[1];
    let a2 = i.arguments[2];
    let b = args_bytes(i.arguments@, used_count(i.argument_count));
    let b0 = arg_bytes(a0);
    let b1 = arg_bytes(a1);
    let b2 = arg_bytes(a2);
    match i.opcode.shape() {
        OperandShape::Nothing => {
            assert(b =~= seq![]);
        },
        OperandShape::Reg => {
            lemma_reg_byte(a0);
            assert(b =~= b0);
        },
        OperandShape::Word => {
            lemma_word_bytes(a0);
            assert(b =~= b0);
        },
        OperandShape::Byte => {
            assert(b =~= b0);
        },
        OperandShape::RegReg => {
            lemma_reg_byte(a0);
            lemma_reg_byte(a1);
            assert(b =~= b0 + b1);
        },
        OperandShape::RegImm => {
            lemma_reg_byte(a0);
            assert(b =~= b0 + b1);
            let r = a0->Register_0;
            if a1 is Inmm8 {
            } else if a1 is Inmm16 {
                lemma_be16_roundtrip(a1->Inmm16_0);
            } else {
                lemma_word_bytes(a1);
            }
        },
        OperandShape::RegByte => {
            lemma_reg_byte(a0);
            assert(b =~= b0 + b1);
        },
        OperandShape::ByteReg => {
            lemma_reg_byte(a1);
            assert(b =~= b0 + b1);
        },
        OperandShape::RegWord => {
            lemma_reg_byte(a0);
            lemma_word_bytes(a1);
            assert(b =~= b0 + b1);
            assert(b.subrange(1, 5) =~= b1);
        },
        OperandShape::RegRegReg => {
            lemma_reg_byte(a0);
            lemma_reg_byte(a1);
            lemma_reg_byte(a2);
            assert(b =~= b0 + b1 + b2);
        },
        OperandShape::RegRegWord => {
            lemma_reg_byte(a0);
            lemma_reg_byte(a1);
            lemma_word_bytes(a2);
            assert(b =~= b0 + b1 + b2);
        },
        OperandShape::RegWordReg => {
            lemma_reg_byte(a0);
            lemma_word_bytes(a1);
            lemma_reg_byte(a2);
            assert(b =~= b0 + b1 + b2);
        },
    }
}

} // verus!
