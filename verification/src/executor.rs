//! What each instruction does to the machine.
use vstd::prelude::*;
use crate::alu::{mask_for_width, sign_bit, add_values, sub_values, mul_values, smul_values, sdiv_values, check_add_overflow, check_sub_overflow, mask_of, sign_of, valid_width, wrap, lemma_mask_mod, signed_value, modulus};
use crate::argument::Argument;
use crate::flags::{Flag, Flags};
use crate::instruction::Instruction;
use crate::memory::{Bus, PERM_READ, PERM_WRITE, readable, storable, loaded, stored, mmap_ok, mapped, all_mapped, unmapped, protected, in_range, munmap_stopped, mprotect_stopped};
use crate::ports::{PortKind, at_cursor, device_read, byte_output, half_output, word_output};
use crate::opcode::Op;
use crate::register::{RegisterEncoding, VIEW_RW, VIEW_IP, VIEW_CR, VIEW_SP};

use crate::text::owned;
use crate::vm::{VM, reg_value, reg_settable, access_fault, written, flagged, lemma_written_then_flagged, push_done, popped, pushed, ip_set, sp_moved, refused, bus_only, has_port, last_on_port, lemma_last_on_port_unique, raise_done, iret_done};
use crate::vm_types::{Interrupt, RegisterFile, VmError, VmResult, interrupt_of, KERNEL_CONTEXT, USER_CONTEXT};

verus! {

/// The register a register operand names, when it names a defined view.
pub open spec fn register_of(a: Argument) -> Option<RegisterEncoding> {
    match a {
        Argument::Register(reg) => if reg.is_valid() {
            Some(reg)
        } else {
            None
        },
        _ => None,
    }
}

/// The register of a register operand naming a defined view; anything else is a malformed
/// instruction.
pub fn expect_register(arg: &Argument) -> (r: VmResult<RegisterEncoding>)
    ensures
        r is Ok <==> register_of(*arg) is Some,
        r matches Ok(reg) ==> register_of(*arg) == Some(reg) && *arg == Argument::Register(reg),
        r matches Err(e) ==> interrupt_of(e) is None,
{
    match arg {
        Argument::Register(reg) => {
            if reg.is_defined() {
                Ok(*reg)
            } else {
                Err(VmError::InvalidRomImage(owned("unsupported register encoding")))
            }
        },
        _ => Err(VmError::InvalidRomImage(owned("expected a register operand"))),
    }
}

/// The value of an immediate operand (a label's address for a label).
pub open spec fn immediate_value(a: Argument) -> Option<u32> {
    match a {
        Argument::Inmm8(v) => Some(v as u32),
        Argument::Inmm16(v) => Some(v as u32),
        Argument::Inmm32(v) => Some(v),
        Argument::Label { address, .. } => Some(address),
        _ => None,
    }
}

/// The value of an immediate operand; anything else is a malformed instruction.
pub fn operand_value(arg: &Argument) -> (r: VmResult<u32>)
    ensures
        r is Ok <==> immediate_value(*arg) is Some,
        r matches Ok(v) ==> immediate_value(*arg) == Some(v),
        r matches Err(e) ==> interrupt_of(e) is None,
{
    match arg {
        Argument::Inmm8(v) => Ok(*v as u32),
        Argument::Inmm16(v) => Ok(*v as u32),
        Argument::Inmm32(v) => Ok(*v),
        Argument::Label { address, .. } => Ok(*address),
        _ => Err(VmError::InvalidRomImage(owned("expected an immediate-style operand"))),
    }
}

/// The value of a source operand in `vm`: a register's value or an immediate.
pub open spec fn source_value(vm: VM, a: Argument) -> Option<u32> {
    match a {
        Argument::Register(reg) => reg_value(vm, reg),
        _ => immediate_value(a),
    }
}

/// The interrupt a source operand that cannot be read raises.
pub open spec fn source_fault(vm: VM, a: Argument) -> Option<Interrupt> {
    match a {
        Argument::Register(reg) => access_fault(vm, reg, false),
        _ => None,
    }
}

/// The value of a source operand: a register's value or an immediate.
pub fn read_source_value(vm: &VM, arg: &Argument) -> (r: VmResult<u32>)
    requires
        vm.wf(),
    ensures
        r is Ok <==> source_value(*vm, *arg) is Some,
        r matches Ok(v) ==> source_value(*vm, *arg) == Some(v),
        r matches Err(e) ==> interrupt_of(e) == source_fault(*vm, *arg),
{
    match arg {
        Argument::Register(reg) => vm.read_register(*reg),
        _ => operand_value(arg),
    }
}

/// `Some(value)` for flag `g` when it is the flag being set, else `None`.
pub open spec fn only(flag: Flag, g: Flag, value: bool) -> Option<bool> {
    if flag == g {
        Some(value)
    } else {
        None
    }
}

/// Sets or clears a flag of the active register file.
fn set_flag(vm: &mut VM, flag: Flag, value: bool)
    requires
        old(vm).wf(),
    ensures
        final(vm).wf(),
        flagged(*old(vm), *final(vm), only(flag, Flag::Zero, value), only(flag, Flag::Negative, value),
            only(flag, Flag::Carry, value), only(flag, Flag::Overflow, value)),
{
    let a = vm.active;
    vm.files[a].flags.assign(flag, value);
}

/// Zero and negative from a result of a width, and carry as given.
fn set_arithmetic_flags(vm: &mut VM, result: u32, width: u8, carry: bool)
    requires
        old(vm).wf(),
    ensures
        final(vm).wf(),
        flagged(*old(vm), *final(vm), Some(result & mask_of(width) == 0),
            Some(result & mask_of(width) & sign_of(width) != 0), Some(carry), None),
{
    let masked = result & mask_for_width(width);
    set_flag(vm, Flag::Zero, masked == 0);
    set_flag(vm, Flag::Negative, masked & sign_bit(width) != 0);
    set_flag(vm, Flag::Carry, carry);
}

/// Zero, negative, carry and overflow.
fn set_arithmetic_flags_with_overflow(vm: &mut VM, result: u32, width: u8, carry: bool, overflow: bool)
    requires
        old(vm).wf(),
    ensures
        final(vm).wf(),
        flagged(*old(vm), *final(vm), Some(result & mask_of(width) == 0),
            Some(result & mask_of(width) & sign_of(width) != 0), Some(carry), Some(overflow)),
{
    set_arithmetic_flags(vm, result, width, carry);
    set_flag(vm, Flag::Overflow, overflow);
}

/// The operations that take a destination register and a source.
#[derive(Clone, Copy, PartialEq, Eq, Structural)]
pub enum ArithmeticOp {
    Add,
    Sub,
    And,
    Or,
    Xor,
    Mul,
    Div,
    Mod,
    Smul,
    Sdiv,
    Smod,
}

/// Result, carry and overflow of an arithmetic operation on two values of a width, or
/// `None` for a division by zero.
pub open spec fn arithmetic_result(op: ArithmeticOp, l: u32, r: u32, w: u8) -> Option<(u32, bool, bool)> {
    match op {
        ArithmeticOp::Add => Some((wrap(l + r, w), l + r > mask_of(w), !crate::alu::fits_signed(signed_value(l, w) + signed_value(r, w), w))),
        ArithmeticOp::Sub => Some((wrap(l - r, w), r > l, !crate::alu::fits_signed(signed_value(l, w) - signed_value(r, w), w))),
        ArithmeticOp::And => Some((l & r, false, false)),
        ArithmeticOp::Or => Some((l | r, false, false)),
        ArithmeticOp::Xor => Some((l ^ r, false, false)),
        ArithmeticOp::Mul => Some((wrap(l * r, w), l * r > mask_of(w), l * r > mask_of(w))),
        ArithmeticOp::Div => if r == 0 {
            None
        } else {
            Some(((l / r) as u32, false, false))
        },
        ArithmeticOp::Mod => if r == 0 {
            None
        } else {
            Some(((l % r) as u32, false, false))
        },
        ArithmeticOp::Smul => Some((
            wrap(signed_value(l, w) * signed_value(r, w), w),
            !crate::alu::fits_signed(signed_value(l, w) * signed_value(r, w), w),
            !crate::alu::fits_signed(signed_value(l, w) * signed_value(r, w), w),
        )),
        ArithmeticOp::Sdiv => if r == 0 {
            None
        } else {
            Some(((crate::alu::trunc_div(signed_value(l, w), signed_value(r, w)) % 0x1_0000_0000) as u32, false, false))
        },
        ArithmeticOp::Smod => if r == 0 {
            None
        } else {
            Some(((crate::alu::trunc_rem(signed_value(l, w), signed_value(r, w)) % 0x1_0000_0000) as u32, false, false))
        },
    }
}

/// Addition and subtraction of values within width `w` wrap around 2^(8`w`). Addition
/// carries when the true sum reaches 2^(8`w`); subtraction borrows (sets carry) when the
/// right operand is the larger. Overflow is the two's-complement test on the top bits:
/// an addition overflows when both operands have the same sign and the result's differs,
/// a subtraction when the operands' signs differ and the result's differs from the left
/// operand's. The bitwise operations clear both.
pub proof fn law_add_sub_flags(l: u32, r: u32, w: u8)
    requires
        valid_width(w),
        l <= mask_of(w),
        r <= mask_of(w),
    ensures
        ({
            let m: int = modulus(w);
            let h: int = sign_of(w) as int;
            &&& arithmetic_result(ArithmeticOp::Add, l, r, w) matches Some((v, c, o))
                && v as int == (if l + r < m { l + r } else { l + r - m })
                && c == (l + r >= m)
                && o == ((l >= h) == (r >= h) && (v >= h) != (l >= h))
            &&& arithmetic_result(ArithmeticOp::Sub, l, r, w) matches Some((v, c, o))
                && v as int == (if l >= r { l - r } else { l - r + m })
                && c == (l < r)
                && o == ((l >= h) != (r >= h) && (v >= h) != (l >= h))
            &&& arithmetic_result(ArithmeticOp::And, l, r, w) matches Some((_, c, o)) && !c && !o
            &&& arithmetic_result(ArithmeticOp::Or, l, r, w) matches Some((_, c, o)) && !c && !o
            &&& arithmetic_result(ArithmeticOp::Xor, l, r, w) matches Some((_, c, o)) && !c && !o
        }),
{
    let m: int = modulus(w);
    let h: int = sign_of(w) as int;
    assert(m == 2 * h && m == mask_of(w) + 1);
    vstd::arithmetic::div_mod::lemma_small_mod(l as nat, m as nat);
    vstd::arithmetic::div_mod::lemma_small_mod(r as nat, m as nat);
    if l + r < m {
        vstd::arithmetic::div_mod::lemma_fundamental_div_mod_converse(l + r, m, 0, l + r);
    } else {
        vstd::arithmetic::div_mod::lemma_fundamental_div_mod_converse(l + r, m, 1, l + r - m);
    }
    if l >= r {
        vstd::arithmetic::div_mod::lemma_fundamental_div_mod_converse(l - r, m, 0, l - r);
    } else {
        vstd::arithmetic::div_mod::lemma_fundamental_div_mod_converse(l - r, m, -1, l - r + m);
    }
}

/// Computes an arithmetic operation on two values of a width.
pub fn compute(op: ArithmeticOp, lhs: u32, rhs: u32, width: u8) -> (r: VmResult<(u32, bool, bool)>)
    requires
        valid_width(width),
        lhs <= mask_of(width),
        rhs <= mask_of(width),
    ensures
        r is Ok <==> arithmetic_result(op, lhs, rhs, width) is Some,
        r matches Ok(x) ==> arithmetic_result(op, lhs, rhs, width) == Some(x),
        r is Err ==> r == Err::<(u32, bool, bool), VmError>(VmError::Interrupt(Interrupt::DivisionByZero)),
{
    match op {
        ArithmeticOp::Add => {
            let (res, carry) = add_values(lhs, rhs, width);
            Ok((res, carry, check_add_overflow(lhs, rhs, width)))
        },
        ArithmeticOp::Sub => {
            let (res, carry) = sub_values(lhs, rhs, width);
            Ok((res, carry, check_sub_overflow(lhs, rhs, width)))
        },
        ArithmeticOp::And => Ok((lhs & rhs, false, false)),
        ArithmeticOp::Or => Ok((lhs | rhs, false, false)),
        ArithmeticOp::Xor => Ok((lhs ^ rhs, false, false)),
        ArithmeticOp::Mul => Ok(mul_values(lhs, rhs, width)),
        ArithmeticOp::Div => {
            if rhs == 0 {
                return Err(VmError::Interrupt(Interrupt::DivisionByZero));
            }
            Ok((lhs / rhs, false, false))
        },
        ArithmeticOp::Mod => {
            if rhs == 0 {
                return Err(VmError::Interrupt(Interrupt::DivisionByZero));
            }
            Ok((lhs % rhs, false, false))
        },
        ArithmeticOp::Smul => Ok(smul_values(lhs, rhs, width)),
        ArithmeticOp::Sdiv | ArithmeticOp::Smod => {
            if rhs == 0 {
                return Err(VmError::Interrupt(Interrupt::DivisionByZero));
            }
            proof {
                crate::alu::lemma_width_facts(width);
                vstd::arithmetic::div_mod::lemma_small_mod(rhs as nat, crate::alu::modulus(width) as nat);
            }
            let (q, rem) = sdiv_values(lhs, rhs, width);
            if matches!(op, ArithmeticOp::Sdiv) {
                Ok((q, false, false))
            } else {
                Ok((rem, false, false))
            }
        },
    }
}

/// What `dst op= src` does in `vm`: the destination, the result, carry and overflow, or the
/// interrupt its failure raises (`None`: a malformed instruction, which raises none).
pub open spec fn arithmetic_outcome(vm: VM, ins: Instruction, op: ArithmeticOp) -> Result<(RegisterEncoding, u32, bool, bool), Option<Interrupt>> {
    match register_of(ins.arguments[0]) {
        None => Err(None),
        Some(dst) => {
            let w = dst.width();
            match reg_value(vm, dst) {
                None => Err(access_fault(vm, dst, false)),
                Some(l) => match source_value(vm, ins.arguments[1]) {
                    None => Err(source_fault(vm, ins.arguments[1])),
                    Some(r) => match arithmetic_result(op, l & mask_of(w), r & mask_of(w), w) {
                        None => Err(Some(Interrupt::DivisionByZero)),
                        Some((v, c, o)) => if reg_settable(vm, dst) {
                            Ok((dst, v, c, o))
                        } else {
                            Err(access_fault(vm, dst, true))
                        },
                    },
                },
            }
        },
    }
}

/// Flags after a result of width `w`: zero and negative from its low `w` bytes.
pub open spec fn zero_of(v: u32, w: u8) -> Option<bool> {
    Some(v & mask_of(w) == 0)
}

/// Negative flag of a result of width `w`.
pub open spec fn negative_of(v: u32, w: u8) -> Option<bool> {
    Some(v & mask_of(w) & sign_of(w) != 0)
}

/// Ensures of `dst op= src`.
pub open spec fn arithmetic_done(a: VM, b: VM, ins: Instruction, op: ArithmeticOp, r: VmResult<()>) -> bool {
    match arithmetic_outcome(a, ins, op) {
        Ok((dst, v, c, o)) => r is Ok && written(a, b, dst, v, zero_of(v, dst.width()), negative_of(v, dst.width()), Some(c), Some(o)),
        Err(fault) => refused(a, b, r, fault),
    }
}

/// `dst op= src` on the destination's width; sets zero, negative, carry and overflow.
/// A failure changes nothing.
pub fn arithmetic(vm: &mut VM, instruction: &Instruction, op: ArithmeticOp) -> (r: VmResult<()>)
    requires
        old(vm).wf(),
    ensures
        final(vm).wf(),
        arithmetic_done(*old(vm), *final(vm), *instruction, op, r),
{
    let dst = expect_register(&instruction.arguments[0])?;
    let width = dst.width_bytes();
    let mask = mask_for_width(width);
    let raw_l = vm.read_register(dst)?;
    let raw_r = read_source_value(vm, &instruction.arguments[1])?;
    let lhs = raw_l & mask;
    let rhs = raw_r & mask;
    proof {
        lemma_mask_mod(raw_l, width);
        lemma_mask_mod(raw_r, width);
    }
    let (result, carry, overflow) = compute(op, lhs, rhs, width)?;
    let ghost before = *vm;
    vm.write_register(dst, result)?;
    let ghost mid = *vm;
    set_arithmetic_flags_with_overflow(vm, result, width, carry, overflow);
    proof {
        lemma_written_then_flagged(before, mid, *vm, dst, result, Some(result & mask_of(width) == 0),
            Some(result & mask_of(width) & sign_of(width) != 0), Some(carry), Some(overflow));
    }
    Ok(())
}

/// What `NOT reg` does in `vm`: the register and its inverted value, or the interrupt its
/// failure raises.
pub open spec fn not_outcome(vm: VM, arg: Argument) -> Result<(RegisterEncoding, u32), Option<Interrupt>> {
    match register_of(arg) {
        None => Err(None),
        Some(reg) => match reg_value(vm, reg) {
            None => Err(access_fault(vm, reg, false)),
            Some(v) => if reg_settable(vm, reg) {
                Ok((reg, !v & mask_of(reg.width())))
            } else {
                Err(access_fault(vm, reg, true))
            },
        },
    }
}

/// Ensures of `NOT reg`.
pub open spec fn not_done(a: VM, b: VM, arg: Argument, r: VmResult<()>) -> bool {
    match not_outcome(a, arg) {
        Ok((reg, v)) => r is Ok && written(a, b, reg, v, zero_of(v, reg.width()), negative_of(v, reg.width()), Some(false), None),
        Err(fault) => refused(a, b, r, fault),
    }
}

/// `NOT reg`: inverts the register view; sets zero and negative, clears carry. A failure
/// changes nothing.
pub fn bitwise_not(vm: &mut VM, arg: &Argument) -> (r: VmResult<()>)
    requires
        old(vm).wf(),
    ensures
        final(vm).wf(),
        not_done(*old(vm), *final(vm), *arg, r),
{
    let reg = expect_register(arg)?;
    let width = reg.width_bytes();
    let value = !vm.read_register(reg)? & mask_for_width(width);
    let ghost before = *vm;
    vm.write_register(reg, value)?;
    let ghost mid = *vm;
    set_arithmetic_flags(vm, value, width, false);
    proof {
        lemma_written_then_flagged(before, mid, *vm, reg, value, Some(value & mask_of(width) == 0),
            Some(value & mask_of(width) & sign_of(width) != 0), Some(false), None);
    }
    Ok(())
}

/// What `CMP dst, src` computes in `vm`: `dst - src` on the destination's width, its borrow
/// and that width, or the interrupt its failure raises.
pub open spec fn compare_outcome(vm: VM, d: Argument, s: Argument) -> Result<(u32, bool, u8), Option<Interrupt>> {
    match register_of(d) {
        None => Err(None),
        Some(dst) => {
            let w = dst.width();
            match reg_value(vm, dst) {
                None => Err(access_fault(vm, dst, false)),
                Some(l) => match source_value(vm, s) {
                    None => Err(source_fault(vm, s)),
                    Some(r) => Ok((wrap((l & mask_of(w)) - (r & mask_of(w)), w), (r & mask_of(w)) > (l & mask_of(w)), w)),
                },
            }
        },
    }
}

/// Ensures of `CMP dst, src`.
pub open spec fn compare_done(a: VM, b: VM, d: Argument, s: Argument, r: VmResult<()>) -> bool {
    match compare_outcome(a, d, s) {
        Ok((v, c, w)) => r is Ok && flagged(a, b, zero_of(v, w), negative_of(v, w), Some(c), None),
        Err(fault) => refused(a, b, r, fault),
    }
}

/// `CMP dst, src`: flags of `dst - src` on the destination's width (zero, negative and
/// carry for a borrow); no register changes. A failure changes nothing.
pub fn compare(vm: &mut VM, dst_arg: &Argument, src_arg: &Argument) -> (r: VmResult<()>)
    requires
        old(vm).wf(),
    ensures
        final(vm).wf(),
        compare_done(*old(vm), *final(vm), *dst_arg, *src_arg, r),
{
    let dst = expect_register(dst_arg)?;
    let width = dst.width_bytes();
    let mask = mask_for_width(width);
    let raw_l = vm.read_register(dst)?;
    let raw_r = read_source_value(vm, src_arg)?;
    let lhs = raw_l & mask;
    let rhs = raw_r & mask;
    proof {
        lemma_mask_mod(raw_l, width);
        lemma_mask_mod(raw_r, width);
    }
    let (result, carry) = sub_values(lhs, rhs, width);
    set_arithmetic_flags(vm, result, width, carry);
    Ok(())
}

/// What `MOV dst, imm` does in `vm`: the destination and the immediate, or the interrupt
/// its failure raises.
pub open spec fn move_immediate_outcome(vm: VM, d: Argument, s: Argument) -> Result<(RegisterEncoding, u32), Option<Interrupt>> {
    match (register_of(d), immediate_value(s)) {
        (Some(dst), Some(v)) => if reg_settable(vm, dst) {
            Ok((dst, v))
        } else {
            Err(access_fault(vm, dst, true))
        },
        _ => Err(None),
    }
}

/// Ensures of `MOV dst, imm`.
pub open spec fn move_immediate_done(a: VM, b: VM, d: Argument, s: Argument, r: VmResult<()>) -> bool {
    match move_immediate_outcome(a, d, s) {
        Ok((dst, v)) => r is Ok && written(a, b, dst, v, None, None, None, None),
        Err(fault) => refused(a, b, r, fault),
    }
}

/// `MOV dst, imm`. A failure changes nothing.
pub fn move_immediate(vm: &mut VM, dst_arg: &Argument, src_arg: &Argument) -> (r: VmResult<()>)
    requires
        old(vm).wf(),
    ensures
        final(vm).wf(),
        move_immediate_done(*old(vm), *final(vm), *dst_arg, *src_arg, r),
{
    let dst = expect_register(dst_arg)?;
    let value = operand_value(src_arg)?;
    vm.write_register(dst, value)
}

/// What copying register operand `s` into register operand `d` reads in `vm`: the
/// destination, the source and the source's value, or the interrupt its failure raises.
pub open spec fn copy_outcome(vm: VM, d: Argument, s: Argument) -> Result<(RegisterEncoding, RegisterEncoding, u32), Option<Interrupt>> {
    match (register_of(d), register_of(s)) {
        (Some(dst), Some(src)) => match reg_value(vm, src) {
            None => Err(access_fault(vm, src, false)),
            Some(v) => if reg_settable(vm, dst) {
                Ok((dst, src, v))
            } else {
                Err(access_fault(vm, dst, true))
            },
        },
        _ => Err(None),
    }
}

/// Ensures of the three register copies: the destination gets the source's value converted
/// by `convert`, or a failure changes nothing.
pub open spec fn copied(a: VM, b: VM, d: Argument, s: Argument, r: VmResult<()>, convert: spec_fn(u32, u8) -> u32) -> bool {
    match copy_outcome(a, d, s) {
        Ok((dst, src, v)) => r is Ok && written(a, b, dst, convert(v, src.width()), None, None, None, None),
        Err(fault) => r matches Err(e) && interrupt_of(e) == fault && b == a,
    }
}

/// The value itself.
pub open spec fn as_is(v: u32, w: u8) -> u32 {
    v
}

/// The low `w` bytes of `v`, zero-extended.
pub open spec fn zero_extended(v: u32, w: u8) -> u32 {
    v & mask_of(w)
}

/// The low `w` bytes of `v`, sign-extended.
pub open spec fn sign_extended(v: u32, w: u8) -> u32 {
    let low = v & mask_of(w);
    if low & sign_of(w) != 0 {
        low | !mask_of(w)
    } else {
        low
    }
}

/// Ensures of `MOV dst, src`.
pub open spec fn move_done(a: VM, b: VM, d: Argument, s: Argument, r: VmResult<()>) -> bool {
    copied(a, b, d, s, r, |v: u32, w: u8| as_is(v, w))
}

/// Ensures of `ZEXT dst, src`.
pub open spec fn zero_extend_done(a: VM, b: VM, d: Argument, s: Argument, r: VmResult<()>) -> bool {
    copied(a, b, d, s, r, |v: u32, w: u8| zero_extended(v, w))
}

/// Ensures of `SEXT dst, src`.
pub open spec fn sign_extend_done(a: VM, b: VM, d: Argument, s: Argument, r: VmResult<()>) -> bool {
    copied(a, b, d, s, r, |v: u32, w: u8| sign_extended(v, w))
}

/// `MOV dst, src`.
pub fn move_register(vm: &mut VM, dst_arg: &Argument, src_arg: &Argument) -> (r: VmResult<()>)
    requires
        old(vm).wf(),
    ensures
        final(vm).wf(),
        move_done(*old(vm), *final(vm), *dst_arg, *src_arg, r),
{
    let dst = expect_register(dst_arg)?;
    let src = expect_register(src_arg)?;
    let value = vm.read_register(src)?;
    vm.write_register(dst, value)
}

/// `ZEXT dst, src`: the source's width of bits, zero-extended.
pub fn zero_extend(vm: &mut VM, dst_arg: &Argument, src_arg: &Argument) -> (r: VmResult<()>)
    requires
        old(vm).wf(),
    ensures
        final(vm).wf(),
        zero_extend_done(*old(vm), *final(vm), *dst_arg, *src_arg, r),
{
    let dst = expect_register(dst_arg)?;
    let src = expect_register(src_arg)?;
    let value = vm.read_register(src)? & mask_for_width(src.width_bytes());
    vm.write_register(dst, value)
}

/// `SEXT dst, src`: the source's width of bits, sign-extended.
pub fn sign_extend(vm: &mut VM, dst_arg: &Argument, src_arg: &Argument) -> (r: VmResult<()>)
    requires
        old(vm).wf(),
    ensures
        final(vm).wf(),
        sign_extend_done(*old(vm), *final(vm), *dst_arg, *src_arg, r),
{
    let dst = expect_register(dst_arg)?;
    let src = expect_register(src_arg)?;
    let width = src.width_bytes();
    let mask = mask_for_width(width);
    let value = vm.read_register(src)? & mask;
    let extended = if value & sign_bit(width) != 0 {
        value | !mask
    } else {
        value
    };
    vm.write_register(dst, extended)
}

/// Ensures of `PUSH reg`.
pub open spec fn push_register_done(a: VM, b: VM, arg: Argument, r: VmResult<()>) -> bool {
    match register_of(arg) {
        None => refused(a, b, r, None),
        Some(reg) => match reg_value(a, reg) {
            None => refused(a, b, r, access_fault(a, reg, false)),
            Some(v) => push_done(a, b, reg.width(), v, r),
        },
    }
}

/// `PUSH reg`: pushes the register's width of bytes.
pub fn push_register(vm: &mut VM, arg: &Argument) -> (r: VmResult<()>)
    requires
        old(vm).wf(),
    ensures
        final(vm).wf(),
        push_register_done(*old(vm), *final(vm), *arg, r),
{
    let reg = expect_register(arg)?;
    let width = reg.width_bytes();
    let value = vm.read_register(reg)?;
    vm.push_value(width, value)
}

/// Ensures of `POP reg`: the register's width of bytes popped and written to it; a refused
/// write leaves the value popped.
pub open spec fn pop_register_done(a: VM, b: VM, arg: Argument, r: VmResult<()>) -> bool {
    match register_of(arg) {
        None => r matches Err(e) && interrupt_of(e) is None && b == a,
        Some(reg) => {
            let w = reg.width();
            let sp = a.files[a.active as int].sp;
            if !readable(a.bus, sp, w as int) {
                r matches Err(e) && interrupt_of(e) == Some(Interrupt::BusFault) && b == a
            } else if sp + w > u32::MAX {
                r matches Err(e) && interrupt_of(e) is None && b == a
            } else {
                exists|m: VM| #[trigger] popped(a, m, w, loaded(a.bus, sp, w as int)->0) && if reg_settable(a, reg) {
                    r is Ok && written(m, b, reg, loaded(a.bus, sp, w as int)->0, None, None, None, None)
                } else {
                    r matches Err(e) && interrupt_of(e) == access_fault(a, reg, true) && b == m
                }
            }
        },
    }
}

/// `POP reg`: pops the register's width of bytes into it.
pub fn pop_register(vm: &mut VM, arg: &Argument) -> (r: VmResult<()>)
    requires
        old(vm).wf(),
    ensures
        final(vm).wf(),
        pop_register_done(*old(vm), *final(vm), *arg, r),
{
    let reg = expect_register(arg)?;
    let width = reg.width_bytes();
    let ghost before = *vm;
    let value = vm.pop_value(width)?;
    let ghost mid = *vm;
    let r = vm.write_register(reg, value);
    proof {
        let sp = before.files[before.active as int].sp;
        assert(loaded(before.bus, sp, width as int)->0 == value);
        assert(popped(before, mid, width, loaded(before.bus, sp, width as int)->0));
    }
    r
}

/// Ensures of a jump to a source operand: the instruction pointer takes its value, or a
/// failure to read it changes nothing.
pub open spec fn jumped(a: VM, b: VM, target: Argument, r: VmResult<()>) -> bool {
    match source_value(a, target) {
        None => r matches Err(e) && interrupt_of(e) == source_fault(a, target) && b == a,
        Some(t) => r is Ok && ip_set(a, b, t),
    }
}

/// Jumps to the target operand's value.
pub fn jump(vm: &mut VM, target: &Argument) -> (r: VmResult<()>)
    requires
        old(vm).wf(),
    ensures
        final(vm).wf(),
        jumped(*old(vm), *final(vm), *target, r),
{
    let t = read_source_value(vm, target)?;
    let a = vm.active;
    vm.files[a].ip = t;
    Ok(())
}

/// Ensures of a conditional jump: a jump when `condition` holds, else a move past the
/// instruction.
pub open spec fn branched(a: VM, b: VM, target: Argument, condition: bool, size: u32, r: VmResult<()>) -> bool {
    if condition {
        jumped(a, b, target, r)
    } else {
        r is Ok && ip_set(a, b, a.files[a.active as int].ip.wrapping_add(size))
    }
}

/// Jumps when `condition` holds, else moves past the instruction.
pub fn conditional_jump(vm: &mut VM, target: &Argument, condition: bool, instruction_size: u32) -> (r: VmResult<()>)
    requires
        old(vm).wf(),
    ensures
        final(vm).wf(),
        branched(*old(vm), *final(vm), *target, condition, instruction_size, r),
{
    if condition {
        jump(vm, target)
    } else {
        let a = vm.active;
        vm.files[a].ip = vm.files[a].ip.wrapping_add(instruction_size);
        Ok(())
    }
}

/// Ensures of `CALL target`: the address after the call is pushed, then the instruction
/// pointer takes the target's value (read after the push).
pub open spec fn call_done(a: VM, b: VM, ins: Instruction, r: VmResult<()>) -> bool {
    let f = a.active as int;
    let sp = a.files[f].sp;
    let back = a.files[f].ip.wrapping_add(ins.size as u32);
    if sp < 4 {
        r matches Err(e) && interrupt_of(e) is None && b == a
    } else if !storable(a.bus, (sp - 4) as u32, 4) {
        r matches Err(e) && interrupt_of(e) == Some(Interrupt::BusFault) && sp_moved(a, b, sp - 4)
    } else {
        exists|m: VM| #[trigger] pushed(a, m, 4, back) && jumped(m, b, ins.arguments[0], r)
    }
}

/// `CALL target`: pushes the address after the call, then jumps.
pub fn call(vm: &mut VM, instruction: &Instruction) -> (r: VmResult<()>)
    requires
        old(vm).wf(),
    ensures
        final(vm).wf(),
        call_done(*old(vm), *final(vm), *instruction, r),
{
    let a = vm.active;
    let return_ip = vm.files[a].ip.wrapping_add(instruction.size as u32);
    let ghost before = *vm;
    vm.push_value(4, return_ip)?;
    let ghost mid = *vm;
    let ghost back = before.files[before.active as int].ip.wrapping_add(instruction.size as u32);
    assert(back == return_ip);
    assert(pushed(before, mid, 4, back));
    let t = match read_source_value(vm, &instruction.arguments[0]) {
        Ok(t) => t,
        Err(e) => {
            assert(pushed(before, mid, 4, back) && jumped(mid, *vm, instruction.arguments[0], Err(e)));
            return Err(e);
        },
    };
    let a2 = vm.active;
    vm.files[a2].ip = t;
    assert(pushed(before, mid, 4, back) && jumped(mid, *vm, instruction.arguments[0], Ok(())));
    Ok(())
}

/// Ensures of `RET`: a word popped into the instruction pointer.
pub open spec fn ret_done(a: VM, b: VM, r: VmResult<()>) -> bool {
    let sp = a.files[a.active as int].sp;
    if !readable(a.bus, sp, 4) {
        r matches Err(e) && interrupt_of(e) == Some(Interrupt::BusFault) && b == a
    } else if sp + 4 > u32::MAX {
        r matches Err(e) && interrupt_of(e) is None && b == a
    } else {
        r is Ok && exists|m: VM| #[trigger] popped(a, m, 4, loaded(a.bus, sp, 4)->0) && ip_set(m, b, loaded(a.bus, sp, 4)->0)
    }
}

/// `RET`: pops the return address into the instruction pointer.
pub fn ret(vm: &mut VM) -> (r: VmResult<()>)
    requires
        old(vm).wf(),
    ensures
        final(vm).wf(),
        ret_done(*old(vm), *final(vm), r),
{
    let ghost before = *vm;
    let ip = vm.pop_value(4)?;
    let ghost mid = *vm;
    let a = vm.active;
    vm.files[a].ip = ip;
    proof {
        let sp = before.files[before.active as int].sp;
        assert(loaded(before.bus, sp, 4)->0 == ip);
        assert(popped(before, mid, 4, loaded(before.bus, sp, 4)->0));
        assert(ip_set(mid, *vm, loaded(before.bus, sp, 4)->0));
    }
    Ok(())
}

/// Machine `b` is `a` with the device in slot `i` read up to position `c`; nothing else
/// changed.
pub open spec fn device_advanced(a: VM, b: VM, i: int, c: int) -> bool {
    &&& b.ports@ == a.ports@.update(i, (a.ports@[i].0, at_cursor(a.ports@[i].1, c)))
    &&& b.files == a.files
    &&& b.active == a.active
    &&& b.cr == a.cr
    &&& b.ivt == a.ivt
    &&& b.bus == a.bus
    &&& b.halted == a.halted
    &&& b.pending_interrupt == a.pending_interrupt
}

/// Ensures of `IN dst, port` once the device in slot `i` answers it: the destination's
/// width is read from the device and written to the destination; a failed read or a refused
/// write leaves the device read.
pub open spec fn input_from(a: VM, b: VM, dst: RegisterEncoding, i: int, r: VmResult<()>) -> bool {
    let (res, c) = device_read(a.ports@[i].1, dst.width());
    exists|m: VM| #[trigger] device_advanced(a, m, i, c) && match res {
        Err(intr) => r matches Err(e) && interrupt_of(e) == Some(intr) && b == m,
        Ok(v) => if reg_settable(a, dst) {
            r is Ok && written(m, b, dst, v, None, None, None, None)
        } else {
            r matches Err(e) && interrupt_of(e) == access_fault(a, dst, true) && b == m
        },
    }
}

/// Ensures of `IN dst, port`: the last device registered for the port answers; without one
/// a bus fault is due.
pub open spec fn input_done(a: VM, b: VM, d: Argument, p: Argument, r: VmResult<()>) -> bool {
    match (register_of(d), immediate_value(p)) {
        (Some(dst), Some(port)) => if !has_port(a.ports@, port) {
            refused(a, b, r, Some(Interrupt::BusFault))
        } else {
            forall|i: int| last_on_port(a.ports@, port, i) ==> #[trigger] input_from(a, b, dst, i, r)
        },
        _ => refused(a, b, r, None),
    }
}

/// `IN dst, port`: reads the destination's width from the device on the port.
pub fn input(vm: &mut VM, dst_arg: &Argument, port_arg: &Argument) -> (r: VmResult<()>)
    requires
        old(vm).wf(),
    ensures
        final(vm).wf(),
        input_done(*old(vm), *final(vm), *dst_arg, *port_arg, r),
{
    let dst = expect_register(dst_arg)?;
    let port = operand_value(port_arg)?;
    let i = vm.port_index(port)?;
    let width = dst.width_bytes();
    assert(vm.ports@[i as int].1.wf());
    let ghost before = *vm;
    let ghost dev = vm.ports@[i as int].1;
    let res: VmResult<u32> = if width == 1 {
        match vm.ports[i].1.read_byte() {
            Ok(v) => Ok(v as u32),
            Err(e) => Err(e),
        }
    } else if width == 2 {
        match vm.ports[i].1.read_half() {
            Ok(v) => Ok(v as u32),
            Err(e) => Err(e),
        }
    } else {
        vm.ports[i].1.read_word()
    };
    proof {
        assert forall|j: int| 0 <= j < vm.ports@.len() implies (#[trigger] vm.ports@[j]).1.wf() by {
            if j != i {
                assert(vm.ports@[j] == before.ports@[j]);
            }
        }
        assert(vm.ports@ =~= before.ports@.update(i as int, (port, at_cursor(dev, device_read(dev, width).1))));
    }
    let ghost mid = *vm;
    let value = match res {
        Ok(v) => v,
        Err(e) => {
            proof {
                assert(device_advanced(before, *vm, i as int, device_read(dev, width).1));
                assert(input_from(before, *vm, dst, i as int, Err(e)));
                assert forall|j: int| last_on_port(before.ports@, port, j) implies #[trigger] input_from(before, *vm, dst, j, Err(e)) by {
                    lemma_last_on_port_unique(before.ports@, port, i as int, j);
                }
            }
            return Err(e);
        },
    };
    let r = vm.write_register(dst, value);
    proof {
        assert(device_advanced(before, mid, i as int, device_read(dev, width).1));
        assert(input_from(before, *vm, dst, i as int, r));
        assert forall|j: int| last_on_port(before.ports@, port, j) implies #[trigger] input_from(before, *vm, dst, j, r) by {
            lemma_last_on_port_unique(before.ports@, port, i as int, j);
        }
    }
    r
}

/// What writing the low `w` bytes of `v` to a device of `kind` appends to its output.
pub open spec fn out_bytes(kind: PortKind, v: u32, w: u8) -> Seq<u8> {
    if w == 1 {
        byte_output(kind, v as u8)
    } else if w == 2 {
        half_output(kind, v as u16)
    } else {
        word_output(kind, v)
    }
}

/// Machine `b` is `a` with `bytes` appended to the output of the device in slot `i`;
/// nothing else changed.
pub open spec fn device_wrote(a: VM, b: VM, i: int, bytes: Seq<u8>) -> bool {
    let d = a.ports@[i].1;
    let e = b.ports@[i].1;
    &&& b.ports@.len() == a.ports@.len()
    &&& forall|j: int| 0 <= j < a.ports@.len() && j != i ==> b.ports@[j] == a.ports@[j]
    &&& b.ports@[i].0 == a.ports@[i].0
    &&& e.output@ == d.output@ + bytes
    &&& e.input == d.input
    &&& e.cursor == d.cursor
    &&& e.kind == d.kind
    &&& e.id == d.id
    &&& b.files == a.files
    &&& b.active == a.active
    &&& b.cr == a.cr
    &&& b.ivt == a.ivt
    &&& b.bus == a.bus
    &&& b.halted == a.halted
    &&& b.pending_interrupt == a.pending_interrupt
}

/// Ensures of `OUT port, src`: the source's width goes to the last device registered for
/// the port; without one a bus fault is due.
pub open spec fn output_done(a: VM, b: VM, p: Argument, s: Argument, r: VmResult<()>) -> bool {
    match (immediate_value(p), register_of(s)) {
        (Some(port), Some(src)) => match reg_value(a, src) {
            None => refused(a, b, r, access_fault(a, src, false)),
            Some(v) => if !has_port(a.ports@, port) {
                refused(a, b, r, Some(Interrupt::BusFault))
            } else {
                r is Ok && forall|i: int| last_on_port(a.ports@, port, i) ==> #[trigger] device_wrote(a, b, i, out_bytes(a.ports@[i].1.kind, v, src.width()))
            },
        },
        _ => refused(a, b, r, None),
    }
}

/// `OUT port, src`: writes the source's width to the device on the port.
pub fn output(vm: &mut VM, port_arg: &Argument, src_arg: &Argument) -> (r: VmResult<()>)
    requires
        old(vm).wf(),
    ensures
        final(vm).wf(),
        output_done(*old(vm), *final(vm), *port_arg, *src_arg, r),
{
    let port = operand_value(port_arg)?;
    let src = expect_register(src_arg)?;
    let value = vm.read_register(src)?;
    let i = vm.port_index(port)?;
    let width = src.width_bytes();
    let ghost before = *vm;
    if width == 1 {
        vm.ports[i].1.write_byte(value as u8);
    } else if width == 2 {
        vm.ports[i].1.write_half(value as u16);
    } else {
        vm.ports[i].1.write_word(value);
    }
    proof {
        assert forall|j: int| 0 <= j < vm.ports@.len() implies (#[trigger] vm.ports@[j]).1.wf() by {
            if j != i {
                assert(vm.ports@[j] == before.ports@[j]);
            }
        }
        assert(device_wrote(before, *vm, i as int, out_bytes(before.ports@[i as int].1.kind, value, width)));
        assert forall|j: int| last_on_port(before.ports@, port, j) implies #[trigger] device_wrote(before, *vm, j, out_bytes(before.ports@[j].1.kind, value, width)) by {
            lemma_last_on_port_unique(before.ports@, port, i as int, j);
        }
    }
    Ok(())
}

/// Ensures of `LOAD dst, addr`: the destination's width read at the address held in the
/// address register and written to the destination; a failure changes nothing.
pub open spec fn load_done(a: VM, b: VM, d: Argument, ad: Argument, r: VmResult<()>) -> bool {
    match (register_of(d), register_of(ad)) {
        (Some(dst), Some(areg)) => match reg_value(a, areg) {
            None => refused(a, b, r, access_fault(a, areg, false)),
            Some(addr) => if !readable(a.bus, addr, dst.width() as int) {
                refused(a, b, r, Some(Interrupt::BusFault))
            } else if !reg_settable(a, dst) {
                refused(a, b, r, access_fault(a, dst, true))
            } else {
                r is Ok && written(a, b, dst, loaded(a.bus, addr, dst.width() as int)->0, None, None, None, None)
            },
        },
        _ => refused(a, b, r, None),
    }
}

/// `LOAD dst, addr`: reads the destination's width from memory.
pub fn load(vm: &mut VM, dst_arg: &Argument, addr_arg: &Argument) -> (r: VmResult<()>)
    requires
        old(vm).wf(),
    ensures
        final(vm).wf(),
        load_done(*old(vm), *final(vm), *dst_arg, *addr_arg, r),
{
    let dst = expect_register(dst_arg)?;
    let addr_reg = expect_register(addr_arg)?;
    let addr = vm.read_register(addr_reg)?;
    let width = dst.width_bytes();
    let value: u32 = if width == 1 {
        vm.bus.read_byte(addr)? as u32
    } else if width == 2 {
        vm.bus.read_u16(addr)? as u32
    } else {
        vm.bus.read_u32(addr)?
    };
    vm.write_register(dst, value)
}

/// Ensures of `STORE addr, src`: the source's width written at the address held in the
/// address register. A refused write is a bus fault and leaves all but the bus as it was (a
/// write that runs past the end of its device may have written the bytes that fit).
pub open spec fn store_done(a: VM, b: VM, ad: Argument, s: Argument, r: VmResult<()>) -> bool {
    match register_of(ad) {
        None => refused(a, b, r, None),
        Some(areg) => match reg_value(a, areg) {
            None => refused(a, b, r, access_fault(a, areg, false)),
            Some(addr) => match register_of(s) {
                None => refused(a, b, r, None),
                Some(src) => match reg_value(a, src) {
                    None => refused(a, b, r, access_fault(a, src, false)),
                    Some(v) => if storable(a.bus, addr, src.width() as int) {
                        r is Ok && bus_only(a, b) && stored(a.bus, b.bus, addr, src.width() as int, v)
                    } else {
                        r matches Err(e) && interrupt_of(e) == Some(Interrupt::BusFault) && bus_only(a, b)
                    },
                },
            },
        },
    }
}

/// `STORE addr, src`: writes the source's width to memory.
pub fn store(vm: &mut VM, addr_arg: &Argument, src_arg: &Argument) -> (r: VmResult<()>)
    requires
        old(vm).wf(),
    ensures
        final(vm).wf(),
        store_done(*old(vm), *final(vm), *addr_arg, *src_arg, r),
{
    let addr_reg = expect_register(addr_arg)?;
    let addr = vm.read_register(addr_reg)?;
    let src = expect_register(src_arg)?;
    let value = vm.read_register(src)?;
    let width = src.width_bytes();
    proof {
        crate::memory::lemma_narrowed_bytes(value);
    }
    if width == 1 {
        vm.bus.write_byte(addr, value as u8)
    } else if width == 2 {
        vm.bus.write_u16(addr, value as u16)
    } else {
        vm.bus.write_u32(addr, value)
    }
}

/// Fails with a privilege violation outside kernel mode.
fn require_kernel(vm: &VM) -> (r: VmResult<()>)
    ensures
        r is Ok <==> vm.active == 0,
        r is Err ==> r == Err::<(), VmError>(VmError::Interrupt(Interrupt::PrivilegeViolation)),
{
    if vm.active != 0 {
        Err(VmError::Interrupt(Interrupt::PrivilegeViolation))
    } else {
        Ok(())
    }
}

/// Machine `b` is `a` with handler `h` for interrupt `i`; nothing else changed.
pub open spec fn vector_set(a: VM, b: VM, i: int, h: u32) -> bool {
    &&& b.ivt@ == a.ivt@.update(i, h)
    &&& b.files == a.files
    &&& b.active == a.active
    &&& b.cr == a.cr
    &&& b.bus == a.bus
    &&& b.ports == a.ports
    &&& b.halted == a.halted
    &&& b.pending_interrupt == a.pending_interrupt
}

/// Ensures of `SIE idx, handler`: in kernel mode, the interrupt numbered by the index
/// register gets the handler operand's value; an index above 255 is a malformed
/// instruction.
pub open spec fn sie_done(a: VM, b: VM, ia: Argument, ha: Argument, r: VmResult<()>) -> bool {
    if a.active != KERNEL_CONTEXT {
        refused(a, b, r, Some(Interrupt::PrivilegeViolation))
    } else {
        match register_of(ia) {
            None => refused(a, b, r, None),
            Some(ireg) => match reg_value(a, ireg) {
                None => refused(a, b, r, access_fault(a, ireg, false)),
                Some(index) => match source_value(a, ha) {
                    None => refused(a, b, r, source_fault(a, ha)),
                    Some(h) => if index > 255 {
                        refused(a, b, r, None)
                    } else {
                        r is Ok && vector_set(a, b, index as int, h)
                    },
                },
            },
        }
    }
}

/// `SIE idx, handler` (kernel only): sets the handler of an interrupt.
pub fn sie(vm: &mut VM, idx_arg: &Argument, addr_arg: &Argument) -> (r: VmResult<()>)
    requires
        old(vm).wf(),
    ensures
        final(vm).wf(),
        sie_done(*old(vm), *final(vm), *idx_arg, *addr_arg, r),
{
    require_kernel(vm)?;
    let idx_reg = expect_register(idx_arg)?;
    let index = vm.read_register(idx_reg)?;
    let address = read_source_value(vm, addr_arg)?;
    if index > 255 {
        return Err(VmError::InvalidRomImage(owned("interrupt index out of range")));
    }
    vm.ivt[index as usize] = address;
    Ok(())
}

/// Ensures of `INT n`: interrupt `n` (its low byte) is delivered, to resume after the
/// instruction.
pub open spec fn int_done(a: VM, b: VM, ins: Instruction, r: VmResult<()>) -> bool {
    match source_value(a, ins.arguments[0]) {
        None => refused(a, b, r, source_fault(a, ins.arguments[0])),
        Some(n) => raise_done(a, b, (n & 0xFF) as u8, a.files[a.active as int].ip.wrapping_add(ins.size as u32), r),
    }
}

/// `INT n`: raises interrupt `n`, to resume after the instruction.
pub fn int_instruction(vm: &mut VM, instruction: &Instruction) -> (r: VmResult<()>)
    requires
        old(vm).wf(),
    ensures
        final(vm).wf(),
        int_done(*old(vm), *final(vm), *instruction, r),
{
    let index = read_source_value(vm, &instruction.arguments[0])?;
    let a = vm.active;
    let resume = vm.files[a].ip.wrapping_add(instruction.size as u32);
    vm.raise_interrupt((index & 0xFF) as u8, resume)
}

/// Machine `b` is `a` but for its register files.
pub open spec fn files_only(a: VM, b: VM) -> bool {
    &&& b.active == a.active
    &&& b.cr == a.cr
    &&& b.ivt == a.ivt
    &&& b.bus == a.bus
    &&& b.ports == a.ports
    &&& b.halted == a.halted
    &&& b.pending_interrupt == a.pending_interrupt
}

/// Ensures of `DPL`.
pub open spec fn dpl_done(a: VM, b: VM, r: VmResult<()>) -> bool {
    if a.active != KERNEL_CONTEXT {
        refused(a, b, r, Some(Interrupt::PrivilegeViolation))
    } else {
        &&& r is Ok
        &&& b.active == USER_CONTEXT
        &&& b.files == a.files
        &&& b.cr == a.cr
        &&& b.ivt == a.ivt
        &&& b.bus == a.bus
        &&& b.ports == a.ports
        &&& b.halted == a.halted
        &&& b.pending_interrupt == a.pending_interrupt
    }
}

/// `DPL` (kernel only): continues in the user register file.
pub fn drop_to_user(vm: &mut VM) -> (r: VmResult<()>)
    requires
        old(vm).wf(),
    ensures
        final(vm).wf(),
        dpl_done(*old(vm), *final(vm), r),
{
    require_kernel(vm)?;
    vm.active = 1;
    Ok(())
}

/// The value `TUR` copies out of user register file `f` for source register `src`: a
/// general register, the instruction pointer or the file's context word.
pub open spec fn user_value(f: RegisterFile, src: RegisterEncoding) -> Option<u32> {
    if src.view_bits() == VIEW_RW {
        Some(f.regs[src.index_bits() as int])
    } else if src.view_bits() == VIEW_IP {
        Some(f.ip)
    } else if src.view_bits() == VIEW_CR {
        Some(f.cr)
    } else {
        None
    }
}

/// Ensures of `TUR dst, src`: in kernel mode, a user register (general, instruction pointer
/// or context word) is copied into the kernel general register of the destination's index.
pub open spec fn tur_done(a: VM, b: VM, d: Argument, s: Argument, r: VmResult<()>) -> bool {
    if a.active != KERNEL_CONTEXT {
        refused(a, b, r, Some(Interrupt::PrivilegeViolation))
    } else {
        match (register_of(d), register_of(s)) {
            (Some(dst), Some(src)) => match user_value(a.files[1], src) {
                None => refused(a, b, r, None),
                Some(v) => {
                    &&& r is Ok
                    &&& files_only(a, b)
                    &&& b.files[1] == a.files[1]
                    &&& b.files[0].regs@ == a.files[0].regs@.update(dst.index_bits() as int, v)
                    &&& b.files[0].ip == a.files[0].ip && b.files[0].sp == a.files[0].sp
                    &&& b.files[0].flags == a.files[0].flags && b.files[0].cr == a.files[0].cr
                },
            },
            _ => refused(a, b, r, None),
        }
    }
}

/// `TUR dst, src` (kernel only): copies a user register (general, ip or cr) into a kernel
/// general register.
pub fn transfer_user_to_kernel(vm: &mut VM, dst_arg: &Argument, src_arg: &Argument) -> (r: VmResult<()>)
    requires
        old(vm).wf(),
    ensures
        final(vm).wf(),
        tur_done(*old(vm), *final(vm), *dst_arg, *src_arg, r),
{
    require_kernel(vm)?;
    let dst = expect_register(dst_arg)?;
    let src = expect_register(src_arg)?;
    proof {
        crate::register::lemma_index_bound(dst.0);
        crate::register::lemma_index_bound(src.0);
    }
    let value = if src.is_rw() {
        vm.files[1].regs[src.index() as usize]
    } else if src.is_ip() {
        vm.files[1].ip
    } else if src.is_cr() {
        vm.files[1].cr
    } else {
        return Err(VmError::InvalidRomImage(owned("TUR: invalid source register")));
    };
    vm.files[0].regs[dst.index() as usize] = value;
    Ok(())
}

/// User register file `g` is `f` with register `dst` (a general register, the instruction
/// pointer, the context word or the stack pointer) set to `v`.
pub open spec fn user_file_set(f: RegisterFile, g: RegisterFile, dst: RegisterEncoding, v: u32) -> bool {
    &&& g.flags == f.flags
    &&& g.regs@ == (if dst.view_bits() == VIEW_RW { f.regs@.update(dst.index_bits() as int, v) } else { f.regs@ })
    &&& g.ip == (if dst.view_bits() == VIEW_IP { v } else { f.ip })
    &&& g.cr == (if dst.view_bits() == VIEW_CR { v } else { f.cr })
    &&& g.sp == (if dst.view_bits() == VIEW_SP { v } else { f.sp })
}

/// Ensures of `TKR dst, src`: in kernel mode, the kernel general register of the source's
/// index is copied into a user register (general, instruction pointer, context word or
/// stack pointer).
pub open spec fn tkr_done(a: VM, b: VM, d: Argument, s: Argument, r: VmResult<()>) -> bool {
    if a.active != KERNEL_CONTEXT {
        refused(a, b, r, Some(Interrupt::PrivilegeViolation))
    } else {
        match (register_of(d), register_of(s)) {
            (Some(dst), Some(src)) => if dst.view_bits() == VIEW_RW || dst.view_bits() == VIEW_IP
                || dst.view_bits() == VIEW_CR || dst.view_bits() == VIEW_SP {
                &&& r is Ok
                &&& files_only(a, b)
                &&& b.files[0] == a.files[0]
                &&& user_file_set(a.files[1], b.files[1], dst, a.files[0].regs[src.index_bits() as int])
            } else {
                refused(a, b, r, None)
            },
            _ => refused(a, b, r, None),
        }
    }
}

/// `TKR dst, src` (kernel only): copies a kernel general register into a user register
/// (general, ip, cr or sp).
pub fn transfer_kernel_to_user(vm: &mut VM, dst_arg: &Argument, src_arg: &Argument) -> (r: VmResult<()>)
    requires
        old(vm).wf(),
    ensures
        final(vm).wf(),
        tkr_done(*old(vm), *final(vm), *dst_arg, *src_arg, r),
{
    require_kernel(vm)?;
    let dst = expect_register(dst_arg)?;
    let src = expect_register(src_arg)?;
    proof {
        crate::register::lemma_index_bound(dst.0);
        crate::register::lemma_index_bound(src.0);
    }
    let value = vm.files[0].regs[src.index() as usize];
    if dst.is_rw() {
        vm.files[1].regs[dst.index() as usize] = value;
    } else if dst.is_ip() {
        vm.files[1].ip = value;
    } else if dst.is_cr() {
        vm.files[1].cr = value;
    } else if dst.is_sp() {
        vm.files[1].sp = value;
    } else {
        return Err(VmError::InvalidRomImage(owned("TKR: invalid destination register")));
    }
    Ok(())
}

/// The shifts and rotations.
#[derive(Clone, Copy, PartialEq, Eq, Structural)]
pub enum ShiftOp {
    Shl,
    Shr,
    Sar,
    Rol,
    Ror,
}

/// Result and carry of a shift of a value of width `w` (in bytes) by `amount`.
pub open spec fn shift_result(op: ShiftOp, value: u32, amount: u32, w: u8) -> (u32, bool) {
    let bits = (w * 8) as u32;
    let mask = mask_of(w);
    match op {
        ShiftOp::Shl => if amount == 0 {
            (value, false)
        } else if amount >= bits {
            (0, false)
        } else {
            (((value << amount) & mask) as u32, (value >> ((bits - amount) as u32)) & 1 != 0)
        },
        ShiftOp::Shr => if amount == 0 {
            (value, false)
        } else if amount >= bits {
            (0, false)
        } else {
            ((value >> amount) as u32, (value >> ((amount - 1) as u32)) & 1 != 0)
        },
        ShiftOp::Sar => if amount == 0 {
            (value, false)
        } else if amount >= bits {
            (if value & sign_of(w) != 0 { mask } else { 0 }, value & sign_of(w) != 0)
        } else {
            (
                if value & sign_of(w) != 0 {
                    ((value >> amount) | (mask & !(mask >> amount))) as u32
                } else {
                    (value >> amount) as u32
                },
                (value >> ((amount - 1) as u32)) & 1 != 0,
            )
        },
        ShiftOp::Rol => {
            let n = (amount % bits) as u32;
            if n == 0 {
                (value, false)
            } else {
                ((((value << n) | (value >> ((bits - n) as u32))) & mask) as u32, false)
            }
        },
        ShiftOp::Ror => {
            let n = (amount % bits) as u32;
            if n == 0 {
                (value, false)
            } else {
                ((((value >> n) | (value << ((bits - n) as u32))) & mask) as u32, false)
            }
        },
    }
}

/// Bit facts about shifts at each register width: the shifted value and the fill of high
/// ones of an arithmetic shift do not overlap, a shift keeps the order of values, the sign
/// test is a comparison, a masked left shift keeps only the low bits that fit, the two
/// halves of a rotation do not overlap, and the low bit is the remainder by two.
proof fn lemma_shift_bits(v: u32, a: u32)
    by (bit_vector)
    ensures
        v <= 0xFFu32 && a < 8 ==> ((v >> a) | (0xFFu32 & !(0xFFu32 >> a))) == (v >> a) + (0xFFu32 - (0xFFu32 >> a)),
        v <= 0xFFFFu32 && a < 16 ==> ((v >> a) | (0xFFFFu32 & !(0xFFFFu32 >> a))) == (v >> a) + (0xFFFFu32 - (0xFFFFu32 >> a)),
        a < 32 ==> ((v >> a) | (0xFFFF_FFFFu32 & !(0xFFFF_FFFFu32 >> a))) == (v >> a) + (0xFFFF_FFFFu32 - (0xFFFF_FFFFu32 >> a)),
        v <= 0xFFu32 ==> (v >> a) <= (0xFFu32 >> a),
        v <= 0xFFFFu32 ==> (v >> a) <= (0xFFFFu32 >> a),
        (v >> a) <= (0xFFFF_FFFFu32 >> a),
        v <= 0xFFu32 ==> ((v & 0x80u32 != 0) == (v >= 0x80u32)),
        v <= 0xFFFFu32 ==> ((v & 0x8000u32 != 0) == (v >= 0x8000u32)),
        (v & 0x8000_0000u32 != 0) == (v >= 0x8000_0000u32),
        v <= 0xFFu32 && 0 < a < 8u32 ==> ((v << a) & 0xFFu32) == ((v & (0xFFu32 >> a)) << a),
        v <= 0xFFu32 && 0 < a < 8u32 ==> (((v << a) | (v >> ((8u32 - a) as u32))) & 0xFFu32) == ((v << a) & 0xFFu32) + (v >> ((8u32 - a) as u32)),
        v <= 0xFFu32 && 0 < a < 8u32 ==> (((v >> a) | (v << ((8u32 - a) as u32))) & 0xFFu32) == (v >> a) + ((v << ((8u32 - a) as u32)) & 0xFFu32),
        v <= 0xFFFFu32 && 0 < a < 16u32 ==> ((v << a) & 0xFFFFu32) == ((v & (0xFFFFu32 >> a)) << a),
        v <= 0xFFFFu32 && 0 < a < 16u32 ==> (((v << a) | (v >> ((16u32 - a) as u32))) & 0xFFFFu32) == ((v << a) & 0xFFFFu32) + (v >> ((16u32 - a) as u32)),
        v <= 0xFFFFu32 && 0 < a < 16u32 ==> (((v >> a) | (v << ((16u32 - a) as u32))) & 0xFFFFu32) == (v >> a) + ((v << ((16u32 - a) as u32)) & 0xFFFFu32),
        v <= 0xFFFF_FFFFu32 && 0 < a < 32u32 ==> ((v << a) & 0xFFFF_FFFFu32) == ((v & (0xFFFF_FFFFu32 >> a)) << a),
        v <= 0xFFFF_FFFFu32 && 0 < a < 32u32 ==> (((v << a) | (v >> ((32u32 - a) as u32))) & 0xFFFF_FFFFu32) == ((v << a) & 0xFFFF_FFFFu32) + (v >> ((32u32 - a) as u32)),
        v <= 0xFFFF_FFFFu32 && 0 < a < 32u32 ==> (((v >> a) | (v << ((32u32 - a) as u32))) & 0xFFFF_FFFFu32) == (v >> a) + ((v << ((32u32 - a) as u32)) & 0xFFFF_FFFFu32),
        (v & 1u32 != 0) == (v % 2 == 1),
{
}

/// An arithmetic right shift of a value of width `w` divides its signed value by
/// 2^`amount`, rounding down: the sign is replicated into the vacated high bits, so a shift
/// by the whole width or more leaves -1 for a negative value and 0 otherwise. The result
/// stays within the width.
pub proof fn law_sar_is_floor_division(value: u32, amount: u32, w: u8)
    requires
        valid_width(w),
        value <= mask_of(w),
    ensures
        shift_result(ShiftOp::Sar, value, amount, w).0 <= mask_of(w),
        amount == 0 ==> shift_result(ShiftOp::Sar, value, amount, w).0 == value,
        0 < amount < 8 * w ==> signed_value(shift_result(ShiftOp::Sar, value, amount, w).0, w)
            == signed_value(value, w) / (vstd::arithmetic::power2::pow2(amount as nat) as int),
        amount >= 8 * w ==> signed_value(shift_result(ShiftOp::Sar, value, amount, w).0, w)
            == (if signed_value(value, w) < 0 { -1int } else { 0int }),
{
    let r = shift_result(ShiftOp::Sar, value, amount, w).0;
    let bits: nat = (8 * w) as nat;
    let big: int = vstd::arithmetic::power2::pow2(bits) as int;
    let half: int = vstd::arithmetic::power2::pow2((bits - 1) as nat) as int;
    lemma_shift_bits(value, amount);
    vstd::arithmetic::power2::lemma2_to64();
    assert(mask_of(w) == big - 1 && sign_of(w) == half && big == 2 * half && modulus(w) == big);
    vstd::arithmetic::div_mod::lemma_small_mod(value as nat, big as nat);
    vstd::arithmetic::div_mod::lemma_small_mod((mask_of(w)) as nat, big as nat);
    vstd::arithmetic::div_mod::lemma_small_mod(0, big as nat);
    let neg = value & sign_of(w) != 0;
    assert(neg == (value >= half));
    assert(signed_value(value, w) == if neg { value - big } else { value as int });
    if 0 < amount && amount < 8 * w {
        let a: nat = amount as nat;
        let p: int = vstd::arithmetic::power2::pow2(a) as int;
        let q: int = vstd::arithmetic::power2::pow2((bits - a) as nat) as int;
        vstd::arithmetic::power2::lemma_pow2_pos(a);
        vstd::arithmetic::power2::lemma_pow2_pos((bits - a) as nat);
        vstd::arithmetic::power2::lemma_pow2_adds(a, (bits - a) as nat);
        assert(big == p * q);
        vstd::bits::lemma_u32_shr_is_div(value, amount);
        vstd::bits::lemma_u32_shr_is_div(mask_of(w), amount);
        let d: int = value as int / p;
        vstd::arithmetic::div_mod::lemma_fundamental_div_mod(value as int, p);
        vstd::arithmetic::div_mod::lemma_mod_pos_bound(value as int, p);
        let m: int = value as int % p;
        assert(value as int == p * d + m);
        if neg {
            assert((big - 1) == (q - 1) * p + (p - 1)) by (nonlinear_arith)
                requires
                    big == p * q,
            ;
            vstd::arithmetic::div_mod::lemma_fundamental_div_mod_converse(big - 1, p, q - 1, p - 1);
            assert(mask_of(w) >> amount == q - 1);
            assert(value - big == (d - q) * p + m) by (nonlinear_arith)
                requires
                    value as int == p * d + m,
                    big == p * q,
            ;
            vstd::arithmetic::div_mod::lemma_fundamental_div_mod_converse(value - big, p, d - q, m);
            if a > 1 {
                vstd::arithmetic::power2::lemma_pow2_strictly_increases((bits - a) as nat, (bits - 1) as nat);
            }
            assert(q <= half);
            assert(r == d + big - q);
            assert(r >= half);
            assert(r <= mask_of(w));
            vstd::arithmetic::div_mod::lemma_small_mod(r as nat, big as nat);
            assert(signed_value(r, w) == r - big);
        } else {
            assert(r == d);
            vstd::arithmetic::div_mod::lemma_div_is_ordered_by_denominator(value as int, 1, p);
            assert(d <= value);
            vstd::arithmetic::div_mod::lemma_small_mod(r as nat, big as nat);
            assert(signed_value(r, w) == r);
        }
    }
}

/// A left shift by `a` of a value within width `w`, kept to the width, is the value times
/// 2^`a` modulo 2^(8`w`).
proof fn lemma_shl_masked(v: u32, a: u32, w: u8)
    requires
        valid_width(w),
        v <= mask_of(w),
        0 < a < 8 * w,
    ensures
        ((v << a) & mask_of(w)) as int == (v as int * vstd::arithmetic::power2::pow2(a as nat)) % (
        vstd::arithmetic::power2::pow2((8 * w) as nat) as int),
{
    let bits: nat = (8 * w) as nat;
    let big: int = vstd::arithmetic::power2::pow2(bits) as int;
    let p: int = vstd::arithmetic::power2::pow2(a as nat) as int;
    let q: int = vstd::arithmetic::power2::pow2((bits - a) as nat) as int;
    lemma_shift_bits(v, a);
    vstd::arithmetic::power2::lemma2_to64();
    assert(mask_of(w) == big - 1);
    vstd::arithmetic::power2::lemma_pow2_pos(a as nat);
    vstd::arithmetic::power2::lemma_pow2_pos((bits - a) as nat);
    vstd::arithmetic::power2::lemma_pow2_adds(a as nat, (bits - a) as nat);
    assert(big == p * q);
    vstd::bits::lemma_u32_shr_is_div(mask_of(w), a);
    assert((big - 1) == (q - 1) * p + (p - 1)) by (nonlinear_arith)
        requires
            big == p * q,
    ;
    vstd::arithmetic::div_mod::lemma_fundamental_div_mod_converse(big - 1, p, q - 1, p - 1);
    assert(mask_of(w) >> a == q - 1);
    vstd::bits::lemma_u32_low_bits_mask_is_mod(v, (bits - a) as nat);
    assert(vstd::bits::low_bits_mask((bits - a) as nat) == q - 1) by {
        vstd::bits::lemma_low_bits_mask_unfold((bits - a) as nat);
    }
    let t: int = v as int % q;
    vstd::arithmetic::div_mod::lemma_mod_pos_bound(v as int, q);
    assert((v & (mask_of(w) >> a)) == t);
    assert(t * p <= (q - 1) * p) by (nonlinear_arith)
        requires
            0 <= t < q,
            p > 0,
    ;
    assert((q - 1) * p == big - p) by (nonlinear_arith)
        requires
            big == p * q,
    ;
    vstd::bits::lemma_u32_shl_is_mul(t as u32, a);
    assert(((v & (mask_of(w) >> a)) << a) == t * p);
    vstd::arithmetic::div_mod::lemma_fundamental_div_mod(v as int, q);
    let k: int = v as int / q;
    assert(v as int * p == k * big + t * p) by (nonlinear_arith)
        requires
            v as int == q * k + t,
            big == p * q,
    ;
    assert(0 <= t * p) by (nonlinear_arith)
        requires
            0 <= t,
            0 < p,
    ;
    vstd::arithmetic::div_mod::lemma_fundamental_div_mod_converse(v as int * p, big, k, t * p);
}

/// A logical shift of a value within width `w` by 0 < `amount` < 8`w`: a left shift
/// multiplies it by 2^`amount` modulo 2^(8`w`) and carries out the last bit shifted past the
/// top, bit 8`w` - `amount`; a right shift divides it by 2^`amount`, rounding down, and
/// carries out the last bit shifted past the bottom, bit `amount` - 1.
pub proof fn law_logical_shifts(value: u32, amount: u32, w: u8)
    requires
        valid_width(w),
        value <= mask_of(w),
        0 < amount < 8 * w,
    ensures
        shift_result(ShiftOp::Shl, value, amount, w).0 as int == (value as int * vstd::arithmetic::power2::pow2(amount as nat))
            % (vstd::arithmetic::power2::pow2((8 * w) as nat) as int),
        shift_result(ShiftOp::Shl, value, amount, w).1 == ((value as int / (vstd::arithmetic::power2::pow2((8 * w - amount) as nat) as int)) % 2 == 1),
        shift_result(ShiftOp::Shr, value, amount, w).0 as int == value as int / (vstd::arithmetic::power2::pow2(amount as nat) as int),
        shift_result(ShiftOp::Shr, value, amount, w).1 == ((value as int / (vstd::arithmetic::power2::pow2((amount - 1) as nat) as int)) % 2 == 1),
{
    let bits: u32 = (8 * w) as u32;
    lemma_shl_masked(value, amount, w);
    vstd::bits::lemma_u32_shr_is_div(value, (bits - amount) as u32);
    lemma_shift_bits(value >> ((bits - amount) as u32), 0);
    vstd::bits::lemma_u32_shr_is_div(value, amount);
    vstd::bits::lemma_u32_shr_is_div(value, (amount - 1) as u32);
    lemma_shift_bits(value >> ((amount - 1) as u32), 0);
}

/// A rotation of a value within width `w` by `amount` turns it by `amount` modulo 8`w`
/// places, n: a left rotation is the value times 2^n modulo 2^(8`w`) plus the n bits that
/// left the top, brought in at the bottom; a right rotation is the value divided by 2^n
/// plus the n bits that left the bottom, brought in at the top. Neither carries out a bit.
pub proof fn law_rotations(value: u32, amount: u32, w: u8)
    requires
        valid_width(w),
        value <= mask_of(w),
    ensures
        ({
            let bits: int = 8 * w;
            let n: int = amount as int % bits;
            let big: int = vstd::arithmetic::power2::pow2(bits as nat) as int;
            &&& shift_result(ShiftOp::Rol, value, amount, w).0 as int == if n == 0 {
                value as int
            } else {
                (value as int * vstd::arithmetic::power2::pow2(n as nat)) % big + value as int / (vstd::arithmetic::power2::pow2((bits - n) as nat) as int)
            }
            &&& shift_result(ShiftOp::Ror, value, amount, w).0 as int == if n == 0 {
                value as int
            } else {
                value as int / (vstd::arithmetic::power2::pow2(n as nat) as int) + (value as int * vstd::arithmetic::power2::pow2((bits - n) as nat)) % big
            }
            &&& !shift_result(ShiftOp::Rol, value, amount, w).1
            &&& !shift_result(ShiftOp::Ror, value, amount, w).1
        }),
{
    let bits: u32 = (8 * w) as u32;
    let n: u32 = amount % bits;
    if n != 0 {
        lemma_shift_bits(value, n);
        lemma_shl_masked(value, n, w);
        lemma_shl_masked(value, (bits - n) as u32, w);
        vstd::bits::lemma_u32_shr_is_div(value, n);
        vstd::bits::lemma_u32_shr_is_div(value, (bits - n) as u32);
    }
}

/// Computes a shift of a value of a register width.
pub fn shift_value(op: ShiftOp, value: u32, amount: u32, width: u8) -> (r: (u32, bool))
    requires
        valid_width(width),
    ensures
        r == shift_result(op, value, amount, width),
{
    let bits: u32 = width as u32 * 8;
    let mask = mask_for_width(width);
    match op {
        ShiftOp::Shl => {
            if amount == 0 {
                (value, false)
            } else if amount >= bits {
                (0, false)
            } else {
                ((value << amount) & mask, (value >> (bits - amount)) & 1 != 0)
            }
        },
        ShiftOp::Shr => {
            if amount == 0 {
                (value, false)
            } else if amount >= bits {
                (0, false)
            } else {
                (value >> amount, (value >> (amount - 1)) & 1 != 0)
            }
        },
        ShiftOp::Sar => {
            let negative = value & sign_bit(width) != 0;
            if amount == 0 {
                (value, false)
            } else if amount >= bits {
                (if negative { mask } else { 0 }, negative)
            } else {
                let res = if negative {
                    (value >> amount) | (mask & !(mask >> amount))
                } else {
                    value >> amount
                };
                (res, (value >> (amount - 1)) & 1 != 0)
            }
        },
        ShiftOp::Rol => {
            let n = amount % bits;
            if n == 0 {
                (value, false)
            } else {
                (((value << n) | (value >> (bits - n))) & mask, false)
            }
        },
        ShiftOp::Ror => {
            let n = amount % bits;
            if n == 0 {
                (value, false)
            } else {
                (((value >> n) | (value << (bits - n))) & mask, false)
            }
        },
    }
}

/// Whether a shift operation is a rotation.
pub open spec fn is_rotation(op: ShiftOp) -> bool {
    op == ShiftOp::Rol || op == ShiftOp::Ror
}

/// What a shift or rotation does in `vm`: the destination, the result and the carry out, or
/// the interrupt its failure raises.
pub open spec fn shift_outcome(vm: VM, ins: Instruction, op: ShiftOp) -> Result<(RegisterEncoding, u32, bool), Option<Interrupt>> {
    match register_of(ins.arguments[0]) {
        None => Err(None),
        Some(dst) => {
            let w = dst.width();
            match reg_value(vm, dst) {
                None => Err(access_fault(vm, dst, false)),
                Some(v) => match source_value(vm, ins.arguments[1]) {
                    None => Err(source_fault(vm, ins.arguments[1])),
                    Some(amount) => {
                        let (res, c) = shift_result(op, v & mask_of(w), amount & 0xFF, w);
                        if reg_settable(vm, dst) {
                            Ok((dst, res, c))
                        } else {
                            Err(access_fault(vm, dst, true))
                        }
                    },
                },
            }
        },
    }
}

/// Ensures of a shift or rotation.
pub open spec fn shift_done(a: VM, b: VM, ins: Instruction, op: ShiftOp, r: VmResult<()>) -> bool {
    match shift_outcome(a, ins, op) {
        Ok((dst, v, c)) => r is Ok && written(a, b, dst, v, Some(v == 0), Some(v & sign_of(dst.width()) != 0),
            if is_rotation(op) { None } else { Some(c) }, None),
        Err(fault) => refused(a, b, r, fault),
    }
}

/// A shift or rotation of the destination by the source's low byte; sets zero and
/// negative, and carry for the shifts (rotations leave it). A failure changes nothing.
pub fn shift(vm: &mut VM, instruction: &Instruction, op: ShiftOp) -> (r: VmResult<()>)
    requires
        old(vm).wf(),
    ensures
        final(vm).wf(),
        shift_done(*old(vm), *final(vm), *instruction, op, r),
{
    let dst = expect_register(&instruction.arguments[0])?;
    let width = dst.width_bytes();
    let value = vm.read_register(dst)? & mask_for_width(width);
    let amount = read_source_value(vm, &instruction.arguments[1])? & 0xFF;
    let (result, carry) = shift_value(op, value, amount, width);
    let ghost before = *vm;
    vm.write_register(dst, result)?;
    let ghost mid = *vm;
    set_flag(vm, Flag::Zero, result == 0);
    set_flag(vm, Flag::Negative, result & sign_bit(width) != 0);
    if !matches!(op, ShiftOp::Rol | ShiftOp::Ror) {
        set_flag(vm, Flag::Carry, carry);
    }
    proof {
        lemma_written_then_flagged(before, mid, *vm, dst, result, Some(result == 0),
            Some(result & sign_of(width) != 0), if is_rotation(op) { None } else { Some(carry) }, None);
    }
    Ok(())
}

/// Pages needed to hold `size` bytes.
pub fn pages_for(size: u32) -> (n: u32)
    ensures
        n as int == (size as int + 4095) / 4096,
{
    let whole = size / 4096;
    if size % 4096 != 0 {
        whole + 1
    } else {
        whole
    }
}

/// The operand values of a page-table instruction: register operands read as registers,
/// the others as sources.
pub open spec fn reg_operand(vm: VM, a: Argument) -> Option<u32> {
    match register_of(a) {
        Some(reg) => reg_value(vm, reg),
        None => None,
    }
}

/// The interrupt a register operand of a page-table instruction raises when it cannot be
/// read.
pub open spec fn reg_operand_fault(vm: VM, a: Argument) -> Option<Interrupt> {
    match register_of(a) {
        Some(reg) => access_fault(vm, reg, false),
        None => None,
    }
}

/// Ensures of a page-table instruction whose bus operation succeeds exactly when `ok` holds
/// and then relates the old and new bus by `done`: in kernel mode, with readable operands,
/// only the bus changes; a failed operation is a bus fault or, for a page range that passes
/// the end of the physical or virtual space, no interrupt, and changes nothing but the bus.
pub open spec fn paging_done(a: VM, b: VM, r: VmResult<()>, ok: bool, done: bool, stopped: bool) -> bool {
    if ok {
        r is Ok && bus_only(a, b) && done
    } else {
        r matches Err(e) && (interrupt_of(e) is None || interrupt_of(e) == Some(Interrupt::BusFault)) && bus_only(a, b)
            && stopped
    }
}

/// Ensures of `MMAP virt, phys, size`.
pub open spec fn mmap_done(a: VM, b: VM, ins: Instruction, r: VmResult<()>) -> bool {
    if a.active != KERNEL_CONTEXT {
        refused(a, b, r, Some(Interrupt::PrivilegeViolation))
    } else {
        match reg_operand(a, ins.arguments[0]) {
            None => refused(a, b, r, reg_operand_fault(a, ins.arguments[0])),
            Some(virt) => match reg_operand(a, ins.arguments[1]) {
                None => refused(a, b, r, reg_operand_fault(a, ins.arguments[1])),
                Some(phys) => match source_value(a, ins.arguments[2]) {
                    None => refused(a, b, r, source_fault(a, ins.arguments[2])),
                    Some(size) => {
                        let count = ((size as int + 4095) / 4096) as u32;
                        paging_done(a, b, r, mmap_ok(a.bus, virt >> 12, phys >> 12, count),
                            mapped(a.bus, b.bus, a.cr, virt >> 12, phys >> 12, count, PERM_READ | PERM_WRITE),
                            b.bus.pages@ == a.bus.pages@)
                    },
                },
            },
        }
    }
}

/// `MMAP virt, phys, size` (kernel only): maps the pages holding `size` bytes from virtual
/// address `virt` to physical address `phys`, readable and writable, in the mapping context.
pub fn mmap_instruction(vm: &mut VM, instruction: &Instruction) -> (r: VmResult<()>)
    requires
        old(vm).wf(),
    ensures
        final(vm).wf(),
        mmap_done(*old(vm), *final(vm), *instruction, r),
{
    require_kernel(vm)?;
    let virt = vm.read_register(expect_register(&instruction.arguments[0])?)?;
    let phys = vm.read_register(expect_register(&instruction.arguments[1])?)?;
    let size = read_source_value(vm, &instruction.arguments[2])?;
    let context = vm.cr;
    vm.bus.mmap(context, virt >> 12, phys >> 12, pages_for(size), PERM_READ | PERM_WRITE)
}

/// Ensures of `MUNMAP virt, size`.
pub open spec fn munmap_done(a: VM, b: VM, ins: Instruction, r: VmResult<()>) -> bool {
    if a.active != KERNEL_CONTEXT {
        refused(a, b, r, Some(Interrupt::PrivilegeViolation))
    } else {
        match reg_operand(a, ins.arguments[0]) {
            None => refused(a, b, r, reg_operand_fault(a, ins.arguments[0])),
            Some(virt) => match source_value(a, ins.arguments[1]) {
                None => refused(a, b, r, source_fault(a, ins.arguments[1])),
                Some(size) => {
                    let count = ((size as int + 4095) / 4096) as u32;
                    paging_done(a, b, r, all_mapped(a.bus, a.cr, virt >> 12, count),
                        unmapped(a.bus, b.bus, a.cr, virt >> 12, count),
                        munmap_stopped(a.bus, b.bus, a.cr, virt >> 12, count))
                },
            },
        }
    }
}

/// `MUNMAP virt, size` (kernel only): unmaps the pages holding `size` bytes from virtual
/// address `virt` in the mapping context.
pub fn munmap_instruction(vm: &mut VM, instruction: &Instruction) -> (r: VmResult<()>)
    requires
        old(vm).wf(),
    ensures
        final(vm).wf(),
        munmap_done(*old(vm), *final(vm), *instruction, r),
{
    require_kernel(vm)?;
    let virt = vm.read_register(expect_register(&instruction.arguments[0])?)?;
    let size = read_source_value(vm, &instruction.arguments[1])?;
    let context = vm.cr;
    vm.bus.munmap(context, virt >> 12, pages_for(size))
}

/// Pages `virt_page .. virt_page + count` of `context` have `permissions` in `b` and keep
/// their targets; every other page is as in `a`.
pub open spec fn reprotected(a: Bus, b: Bus, context: u32, virt_page: u32, count: u32, permissions: u8) -> bool {
    &&& forall|i: int| 0 <= i < count ==> #[trigger] protected(a, b, context, virt_page, permissions, i)
    &&& forall|k: u64| !in_range(k, context, virt_page, count) ==> (#[trigger] b.pages@.contains_key(k)
        == a.pages@.contains_key(k) && (a.pages@.contains_key(k) ==> b.pages@[k] == a.pages@[k]))
}

/// The page count and permissions operands of `MPROTECT`: one page with the permissions
/// register, or a count operand and the permissions register.
pub open spec fn mprotect_operands(vm: VM, ins: Instruction) -> Result<(u32, u32), Option<Interrupt>> {
    if ins.opcode == Op::Mprotect {
        match reg_operand(vm, ins.arguments[1]) {
            None => Err(reg_operand_fault(vm, ins.arguments[1])),
            Some(p) => Ok((1, p)),
        }
    } else {
        match source_value(vm, ins.arguments[1]) {
            None => Err(source_fault(vm, ins.arguments[1])),
            Some(c) => match reg_operand(vm, ins.arguments[2]) {
                None => Err(reg_operand_fault(vm, ins.arguments[2])),
                Some(p) => Ok((c, p)),
            },
        }
    }
}

/// Ensures of `MPROTECT`.
pub open spec fn mprotect_done(a: VM, b: VM, ins: Instruction, r: VmResult<()>) -> bool {
    if a.active != KERNEL_CONTEXT {
        refused(a, b, r, Some(Interrupt::PrivilegeViolation))
    } else {
        match reg_operand(a, ins.arguments[0]) {
            None => refused(a, b, r, reg_operand_fault(a, ins.arguments[0])),
            Some(virt) => match mprotect_operands(a, ins) {
                Err(fault) => refused(a, b, r, fault),
                Ok((count, perms)) => paging_done(a, b, r, all_mapped(a.bus, a.cr, virt >> 12, count),
                    reprotected(a.bus, b.bus, a.cr, virt >> 12, count, (perms & 0xFF) as u8),
                    mprotect_stopped(a.bus, b.bus, a.cr, virt >> 12, count, (perms & 0xFF) as u8)),
            },
        }
    }
}

/// `MPROTECT virt, perms` sets the permissions of the page holding `virt`;
/// `MPROTECT virt, count, perms` those of `count` pages from there (kernel only, in the
/// mapping context).
pub fn mprotect_instruction(vm: &mut VM, instruction: &Instruction) -> (r: VmResult<()>)
    requires
        old(vm).wf(),
    ensures
        final(vm).wf(),
        mprotect_done(*old(vm), *final(vm), *instruction, r),
{
    require_kernel(vm)?;
    let virt = vm.read_register(expect_register(&instruction.arguments[0])?)?;
    let (count, perms) = if matches!(instruction.opcode, Op::Mprotect) {
        let p = vm.read_register(expect_register(&instruction.arguments[1])?)?;
        (1u32, p)
    } else {
        let c = read_source_value(vm, &instruction.arguments[1])?;
        let p = vm.read_register(expect_register(&instruction.arguments[2])?)?;
        (c, p)
    };
    let context = vm.cr;
    vm.bus.mprotect(context, virt >> 12, count, (perms & 0xFF) as u8)
}

/// The instruction's size as an instruction-pointer offset.
pub open spec fn size_offset(ins: Instruction) -> u32 {
    if ins.size > 0xFFFF_FFFF {
        0xFFFF_FFFF
    } else {
        ins.size as u32
    }
}

/// Ensures of executing one decoded instruction, by its operation: what each handler
/// states. Conditional jumps test the active flags as they were before.
pub open spec fn executed(a: VM, b: VM, ins: Instruction, r: VmResult<()>) -> bool {
    let flags = a.files[a.active as int].flags;
    let size = size_offset(ins);
    let a0 = ins.arguments[0];
    let a1 = ins.arguments[1];
    match ins.opcode {
        Op::Nop => r is Ok && b == a,
        Op::Halt => r is Ok && b == (VM { halted: true, ..a }),
        Op::Push => push_register_done(a, b, a0, r),
        Op::Pop => pop_register_done(a, b, a0, r),
        Op::MovRegImm => move_immediate_done(a, b, a0, a1, r),
        Op::MovRegReg => move_done(a, b, a0, a1, r),
        Op::ZeroExtend => zero_extend_done(a, b, a0, a1, r),
        Op::SignExtend => sign_extend_done(a, b, a0, a1, r),
        Op::Add | Op::AddImm => arithmetic_done(a, b, ins, ArithmeticOp::Add, r),
        Op::Sub | Op::SubImm => arithmetic_done(a, b, ins, ArithmeticOp::Sub, r),
        Op::And | Op::AndImm => arithmetic_done(a, b, ins, ArithmeticOp::And, r),
        Op::Or | Op::OrImm => arithmetic_done(a, b, ins, ArithmeticOp::Or, r),
        Op::Xor | Op::XorImm => arithmetic_done(a, b, ins, ArithmeticOp::Xor, r),
        Op::Not => not_done(a, b, a0, r),
        Op::Cmp | Op::CmpImm => compare_done(a, b, a0, a1, r),
        Op::Mul | Op::MulImm => arithmetic_done(a, b, ins, ArithmeticOp::Mul, r),
        Op::Div | Op::DivImm => arithmetic_done(a, b, ins, ArithmeticOp::Div, r),
        Op::Mod | Op::ModImm => arithmetic_done(a, b, ins, ArithmeticOp::Mod, r),
        Op::Smul | Op::SmulImm => arithmetic_done(a, b, ins, ArithmeticOp::Smul, r),
        Op::Sdiv | Op::SdivImm => arithmetic_done(a, b, ins, ArithmeticOp::Sdiv, r),
        Op::Smod | Op::SmodImm => arithmetic_done(a, b, ins, ArithmeticOp::Smod, r),
        Op::Jmp | Op::JmpReg => jumped(a, b, a0, r),
        Op::Jz | Op::JzReg => branched(a, b, a0, flags.has(Flag::Zero), size, r),
        Op::Jnz | Op::JnzReg => branched(a, b, a0, !flags.has(Flag::Zero), size, r),
        Op::Jc | Op::JcReg => branched(a, b, a0, flags.has(Flag::Carry), size, r),
        Op::Jn | Op::JnReg => branched(a, b, a0, flags.has(Flag::Negative), size, r),
        Op::Jo | Op::JoReg => branched(a, b, a0, flags.has(Flag::Overflow), size, r),
        Op::Jno | Op::JnoReg => branched(a, b, a0, !flags.has(Flag::Overflow), size, r),
        Op::Call | Op::CallReg => call_done(a, b, ins, r),
        Op::Ret => ret_done(a, b, r),
        Op::In => input_done(a, b, a0, a1, r),
        Op::Out => output_done(a, b, a0, a1, r),
        Op::Load => load_done(a, b, a0, a1, r),
        Op::Store => store_done(a, b, a0, a1, r),
        Op::SieRegImm | Op::SieRegReg => sie_done(a, b, a0, a1, r),
        Op::IntImm | Op::IntReg => int_done(a, b, ins, r),
        Op::Iret => iret_done(a, b, r),
        Op::Dpl => dpl_done(a, b, r),
        Op::Tur => tur_done(a, b, a0, a1, r),
        Op::Tkr => tkr_done(a, b, a0, a1, r),
        Op::ShlReg | Op::ShlImm => shift_done(a, b, ins, ShiftOp::Shl, r),
        Op::ShrReg | Op::ShrImm => shift_done(a, b, ins, ShiftOp::Shr, r),
        Op::SarReg | Op::SarImm => shift_done(a, b, ins, ShiftOp::Sar, r),
        Op::RolReg | Op::RolImm => shift_done(a, b, ins, ShiftOp::Rol, r),
        Op::RorReg | Op::RorImm => shift_done(a, b, ins, ShiftOp::Ror, r),
        Op::MmapRegRegReg | Op::MmapRegRegImm => mmap_done(a, b, ins, r),
        Op::MunmapRegReg | Op::MunmapRegImm => munmap_done(a, b, ins, r),
        Op::Mprotect | Op::MprotectRegRegRb | Op::MprotectRegImmRb => mprotect_done(a, b, ins, r),
    }
}

/// `RET` right after a `CALL` that succeeded comes back to the instruction after the call,
/// with the stack pointer where it was before the call; it succeeds whenever the pushed
/// address can be read.
pub proof fn law_ret_after_call(a: VM, m: VM, b: VM, call: Instruction, ret_ins: Instruction, r: VmResult<()>)
    requires
        a.active < 2,
        call.opcode == Op::Call || call.opcode == Op::CallReg,
        ret_ins.opcode == Op::Ret,
        executed(a, m, call, Ok(())),
        executed(m, b, ret_ins, r),
    ensures
        readable(m.bus, m.files[m.active as int].sp, 4) ==> r is Ok,
        r is Ok ==> b.active == a.active && b.files[a.active as int].ip == a.files[a.active as int].ip.wrapping_add(call.size as u32)
            && b.files[a.active as int].sp == a.files[a.active as int].sp,
{
    let f = a.active as int;
    let sp = a.files[f].sp;
    let back = a.files[f].ip.wrapping_add(call.size as u32);
    assert(call_done(a, m, call, Ok(())));
    assert(sp >= 4 && storable(a.bus, (sp - 4) as u32, 4));
    let m1 = choose|m1: VM| #[trigger] pushed(a, m1, 4, back) && jumped(m1, m, call.arguments[0], Ok(()));
    crate::memory::law_load_after_store(a.bus, m1.bus, (sp - 4) as u32, 4, back);
    assert(m.bus == m1.bus);
    assert(m.files[f].sp == sp - 4);
    assert(loaded(m.bus, m.files[f].sp, 4) == Some(back));
    assert(ret_done(m, b, r));
}

/// A conditional jump tests one flag of the active register file as it was before the
/// instruction and nothing else: `JZ` jumps exactly when Zero is set, `JNZ` when it is clear,
/// `JC` when Carry is set, `JN` when Negative is set, `JO` when Overflow is set and `JNO` when
/// it is clear. A jump taken lands on the target's value; one not taken succeeds and moves
/// the instruction pointer past the instruction, leaving the flags as they were.
pub proof fn law_conditional_jump_tests_its_flag(a: VM, b: VM, ins: Instruction, r: VmResult<()>)
    requires
        executed(a, b, ins, r),
    ensures
        ({
            let f = a.active as int;
            let flags = a.files[f].flags;
            let cond = match ins.opcode {
                Op::Jz | Op::JzReg => Some(flags.has(Flag::Zero)),
                Op::Jnz | Op::JnzReg => Some(!flags.has(Flag::Zero)),
                Op::Jc | Op::JcReg => Some(flags.has(Flag::Carry)),
                Op::Jn | Op::JnReg => Some(flags.has(Flag::Negative)),
                Op::Jo | Op::JoReg => Some(flags.has(Flag::Overflow)),
                Op::Jno | Op::JnoReg => Some(!flags.has(Flag::Overflow)),
                _ => None,
            };
            cond matches Some(taken) ==> {
                &&& taken ==> (r is Ok ==> source_value(a, ins.arguments[0]) == Some(b.files[f].ip))
                &&& taken ==> (r is Err ==> b == a)
                &&& !taken ==> (r is Ok && b.files[f].ip == a.files[f].ip.wrapping_add(size_offset(ins))
                    && b.files[f].flags == flags)
            }
        }),
{
}

/// Executes one decoded instruction.
pub fn execute_instruction(vm: &mut VM, instruction: &Instruction) -> (r: VmResult<()>)
    requires
        old(vm).wf(),
    ensures
        final(vm).wf(),
        executed(*old(vm), *final(vm), *instruction, r),
{
    let zero = vm.files[vm.active].flags.is_set(Flag::Zero);
    let carry = vm.files[vm.active].flags.is_set(Flag::Carry);
    let negative = vm.files[vm.active].flags.is_set(Flag::Negative);
    let overflow = vm.files[vm.active].flags.is_set(Flag::Overflow);
    let size = if instruction.size > 0xFFFF_FFFF {
        0xFFFF_FFFFu32
    } else {
        instruction.size as u32
    };
    let a0 = &instruction.arguments[0];
    let a1 = &instruction.arguments[1];
    match instruction.opcode {
        Op::Nop => Ok(()),
        Op::Halt => {
            vm.halted = true;
            Ok(())
        },
        Op::Push => push_register(vm, a0),
        Op::Pop => pop_register(vm, a0),
        Op::MovRegImm => move_immediate(vm, a0, a1),
        Op::MovRegReg => move_register(vm, a0, a1),
        Op::ZeroExtend => zero_extend(vm, a0, a1),
        Op::SignExtend => sign_extend(vm, a0, a1),
        Op::Add | Op::AddImm => arithmetic(vm, instruction, ArithmeticOp::Add),
        Op::Sub | Op::SubImm => arithmetic(vm, instruction, ArithmeticOp::Sub),
        Op::And | Op::AndImm => arithmetic(vm, instruction, ArithmeticOp::And),
        Op::Or | Op::OrImm => arithmetic(vm, instruction, ArithmeticOp::Or),
        Op::Xor | Op::XorImm => arithmetic(vm, instruction, ArithmeticOp::Xor),
        Op::Not => bitwise_not(vm, a0),
        Op::Cmp | Op::CmpImm => compare(vm, a0, a1),
        Op::Mul | Op::MulImm => arithmetic(vm, instruction, ArithmeticOp::Mul),
        Op::Div | Op::DivImm => arithmetic(vm, instruction, ArithmeticOp::Div),
        Op::Mod | Op::ModImm => arithmetic(vm, instruction, ArithmeticOp::Mod),
        Op::Smul | Op::SmulImm => arithmetic(vm, instruction, ArithmeticOp::Smul),
        Op::Sdiv | Op::SdivImm => arithmetic(vm, instruction, ArithmeticOp::Sdiv),
        Op::Smod | Op::SmodImm => arithmetic(vm, instruction, ArithmeticOp::Smod),
        Op::Jmp | Op::JmpReg => jump(vm, a0),
        Op::Jz | Op::JzReg => conditional_jump(vm, a0, zero, size),
        Op::Jnz | Op::JnzReg => conditional_jump(vm, a0, !zero, size),
        Op::Jc | Op::JcReg => conditional_jump(vm, a0, carry, size),
        Op::Jn | Op::JnReg => conditional_jump(vm, a0, negative, size),
        Op::Jo | Op::JoReg => conditional_jump(vm, a0, overflow, size),
        Op::Jno | Op::JnoReg => conditional_jump(vm, a0, !overflow, size),
        Op::Call | Op::CallReg => call(vm, instruction),
        Op::Ret => ret(vm),
        Op::In => input(vm, a0, a1),
        Op::Out => output(vm, a0, a1),
        Op::Load => load(vm, a0, a1),
        Op::Store => store(vm, a0, a1),
        Op::SieRegImm | Op::SieRegReg => sie(vm, a0, a1),
        Op::IntImm | Op::IntReg => int_instruction(vm, instruction),
        Op::Iret => vm.iret(),
        Op::Dpl => drop_to_user(vm),
        Op::Tur => transfer_user_to_kernel(vm, a0, a1),
        Op::Tkr => transfer_kernel_to_user(vm, a0, a1),
        Op::ShlReg | Op::ShlImm => shift(vm, instruction, ShiftOp::Shl),
        Op::ShrReg | Op::ShrImm => shift(vm, instruction, ShiftOp::Shr),
        Op::SarReg | Op::SarImm => shift(vm, instruction, ShiftOp::Sar),
        Op::RolReg | Op::RolImm => shift(vm, instruction, ShiftOp::Rol),
        Op::RorReg | Op::RorImm => shift(vm, instruction, ShiftOp::Ror),
        Op::MmapRegRegReg | Op::MmapRegRegImm => mmap_instruction(vm, instruction),
        Op::MunmapRegReg | Op::MunmapRegImm => munmap_instruction(vm, instruction),
        Op::Mprotect | Op::MprotectRegRegRb | Op::MprotectRegImmRb => mprotect_instruction(vm, instruction),
    }
}

} // verus!
