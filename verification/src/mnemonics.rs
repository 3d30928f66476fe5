//! Parsing of one instruction after its mnemonic, by family of operations.
use vstd::prelude::*;
use std::ops::Range;
use crate::argument::Argument;
use crate::asm_error::{AssemblerError, ErrorKind, Result};
use crate::files::FileId;
use crate::lexer::{KindView, Token, TokenKind};
use crate::opcode::Op;
use crate::parser::{Parser, keeps, Operand, operand_of, reg_operand, kind_at, next_pos, reg_at, scope_of, imm_or_label_syntax, reg_or_imm_syntax, shift_amount_syntax, amount_fault, u32_or_rw_syntax, u32_or_rw_fault, fitted, parse_register, take_register, reg_arg, parse_imm_or_label, parse_reg_or_imm, parse_shift_amount, parse_u32_or_rw, fit_imm, pick_alu, pick_jump, inst0, inst1, inst2, inst3, parse_err_in, token_loc, error_at, tok_error, imm_fault, label_fault};
use crate::syntax::{ParsedArgument, ParsedInstruction, parsed_slot};
use crate::register::{RegisterEncoding, VIEW_RW, VIEW_RB, VIEW_SP, VIEW_IP, VIEW_CR};
use crate::text::{str_eq, owned, concat};

verus! {

/// Argument `k` of an instruction stands for operand `k` of `args`, or is absent past them.
pub open spec fn arg_matches(a: ParsedArgument, k: int, args: Seq<Operand>) -> bool {
    if k < args.len() {
        operand_of(a) == args[k]
    } else {
        parsed_slot(a) is Absent
    }
}

/// A well-formed instruction of operation `op` with operands `args`.
pub open spec fn inst_is(i: ParsedInstruction, op: Op, args: Seq<Operand>) -> bool {
    &&& i.opcode == op
    &&& i.argument_count == args.len()
    &&& args.len() <= 3
    &&& arg_matches(i.arguments[0], 0, args)
    &&& arg_matches(i.arguments[1], 1, args)
    &&& arg_matches(i.arguments[2], 2, args)
    &&& i.well_formed()
}

/// Result `r` of parsing an instruction's operands, with the parser then at `b`, is what
/// `syn` gives: the operation, its operands and the position after them, or an error.
pub open spec fn inst_parsed(r: Result<ParsedInstruction>, b: Parser, syn: Option<(Op, Seq<Operand>, int)>) -> bool {
    match syn {
        Some((op, args, j)) => r matches Ok(i) && inst_is(i, op, args) && b.pos == j,
        None => r matches Err(e) && parse_err_in(e, b.tokens@),
    }
}

/// The position after a comma at `i`.
pub open spec fn comma_after(toks: Seq<Token>, i: int) -> Option<int> {
    if kind_at(toks, i) is Comma {
        Some(next_pos(toks, i))
    } else {
        None
    }
}

/// The `rw` register token `i` names.
pub open spec fn rw_at(toks: Seq<Token>, i: int) -> Option<RegisterEncoding> {
    match reg_at(toks, i) {
        Some(r) => if r.view_bits() == VIEW_RW {
            Some(r)
        } else {
            None
        },
        None => None,
    }
}

/// The message and token of the error of an `rw` register expected at `i` as operand
/// `what` of the instruction named `name`: no register, or a register of another view.
pub open spec fn rw_fault(name: Seq<char>, what: Seq<char>, toks: Seq<Token>, i: int) -> Option<(Seq<char>, int)> {
    match reg_at(toks, i) {
        None => Some((name + ": expected "@ + what + " register"@, i)),
        Some(r) => if r.view_bits() == VIEW_RW {
            None
        } else {
            Some((name + ": "@ + what + " register must be rw"@, i))
        },
    }
}

/// The message and token of the error of the operands from `i` of `LOAD dst, addr`.
#[verifier::opaque]
pub open spec fn load_fault(toks: Seq<Token>, i: int) -> Option<(Seq<char>, int)> {
    match reg_at(toks, i) {
        None => Some(("LOAD: expected destination register"@, i)),
        Some(_) => if !(kind_at(toks, next_pos(toks, i)) is Comma) {
            Some(("Expected ','"@, next_pos(toks, i)))
        } else {
            rw_fault("LOAD"@, "address"@, toks, next_pos(toks, next_pos(toks, i)))
        },
    }
}

/// The message and token of the error of the operands from `i` of `STORE addr, src`.
#[verifier::opaque]
pub open spec fn store_fault(toks: Seq<Token>, i: int) -> Option<(Seq<char>, int)> {
    match rw_fault("STORE"@, "address"@, toks, i) {
        Some(f) => Some(f),
        None => if !(kind_at(toks, next_pos(toks, i)) is Comma) {
            Some(("Expected ','"@, next_pos(toks, i)))
        } else {
            let k = next_pos(toks, next_pos(toks, i));
            if reg_at(toks, k) is None {
                Some(("STORE: expected source register"@, k))
            } else {
                None
            }
        },
    }
}

/// The register variant when the operand is a register, the other one otherwise.
pub open spec fn pick(reg_op: Op, other_op: Op, o: Operand) -> Op {
    if o matches Operand::Val(Argument::Register(_)) {
        reg_op
    } else {
        other_op
    }
}

/// `op reg`.
#[verifier::opaque]
pub open spec fn one_reg_syntax(op: Op, toks: Seq<Token>, i: int) -> Option<(Op, Seq<Operand>, int)> {
    match reg_at(toks, i) {
        Some(r) => Some((op, seq![reg_operand(r)], next_pos(toks, i))),
        None => None,
    }
}

/// `MOV dst, src`: two registers of one width (unless one is `sp`), or a register and an
/// immediate or label that fits it; `ip` is neither destination nor source.
#[verifier::opaque]
pub open spec fn mov_syntax(toks: Seq<Token>, i: int, g: Option<Seq<char>>) -> Option<(Op, Seq<Operand>, int)> {
    match reg_at(toks, i) {
        None => None,
        Some(d) => if d.view_bits() == VIEW_IP {
            None
        } else {
            match comma_after(toks, next_pos(toks, i)) {
                None => None,
                Some(k) => match reg_at(toks, k) {
                    Some(src) => if src.view_bits() == VIEW_IP {
                        None
                    } else if d.width() != src.width() && d.view_bits() != VIEW_SP && src.view_bits() != VIEW_SP {
                        None
                    } else {
                        Some((Op::MovRegReg, seq![reg_operand(d), reg_operand(src)], next_pos(toks, k)))
                    },
                    None => match imm_or_label_syntax(toks, k, g) {
                        None => None,
                        Some((o, m)) => match fitted(o, d.width()) {
                            None => None,
                            Some(o2) => Some((Op::MovRegImm, seq![reg_operand(d), o2], m)),
                        },
                    },
                },
            }
        },
    }
}

/// The message and token of the error of `MOV`'s operands from `i`, in the scope of global
/// label `g`, where they are at fault: the destination, the comma, the source register, the
/// immediate or label, or an immediate too wide for the destination.
#[verifier::opaque]
pub open spec fn mov_fault(toks: Seq<Token>, i: int, g: Option<Seq<char>>) -> Option<(Seq<char>, int)> {
    match reg_at(toks, i) {
        None => Some(("MOV: expected destination register"@, i)),
        Some(d) => if d.view_bits() == VIEW_IP {
            Some(("MOV: ip is not a valid destination; use TKR ip, rw"@, i))
        } else if !(kind_at(toks, next_pos(toks, i)) is Comma) {
            Some(("Expected ','"@, next_pos(toks, i)))
        } else {
            let k = next_pos(toks, next_pos(toks, i));
            match reg_at(toks, k) {
                Some(src) => if src.view_bits() == VIEW_IP {
                    Some(("MOV: ip is not a valid source; use TUR rw, ip"@, k))
                } else if d.width() != src.width() && d.view_bits() != VIEW_SP && src.view_bits() != VIEW_SP {
                    Some(("MOV: register views must have the same width"@, k))
                } else {
                    None
                },
                None => match imm_fault(toks, k, g) {
                    Some(f) => Some(f),
                    None => match imm_or_label_syntax(toks, k, g) {
                        Some((o, _)) => if fitted(o, d.width()) is None {
                            if d.width() == 1 {
                                Some(("Immediate out of range for 8-bit register"@, k))
                            } else {
                                Some(("Immediate out of range for 16-bit register"@, k))
                            }
                        } else {
                            None
                        },
                        None => None,
                    },
                },
            }
        },
    }
}

/// `ZEXT`/`SEXT dst, src`: two registers, the destination wider.
#[verifier::opaque]
pub open spec fn extend_syntax(op: Op, toks: Seq<Token>, i: int) -> Option<(Op, Seq<Operand>, int)> {
    match (reg_at(toks, i), comma_after(toks, next_pos(toks, i))) {
        (Some(d), Some(k)) => match reg_at(toks, k) {
            Some(src) => if d.width() <= src.width() {
                None
            } else {
                Some((op, seq![reg_operand(d), reg_operand(src)], next_pos(toks, k)))
            },
            None => None,
        },
        _ => None,
    }
}

/// The message and token of the error of the operands from `i` of the extension named
/// `name`, where they are at fault: the destination, the comma, the source, or a
/// destination no wider than the source.
#[verifier::opaque]
pub open spec fn extend_fault(name: Seq<char>, toks: Seq<Token>, i: int) -> Option<(Seq<char>, int)> {
    match reg_at(toks, i) {
        None => Some((name + ": expected destination register"@, i)),
        Some(d) => if !(kind_at(toks, next_pos(toks, i)) is Comma) {
            Some(("Expected ','"@, next_pos(toks, i)))
        } else {
            let k = next_pos(toks, next_pos(toks, i));
            match reg_at(toks, k) {
                None => Some((name + ": expected source register"@, k)),
                Some(src) => if d.width() <= src.width() {
                    Some((name + ": destination must be wider than source"@, k))
                } else {
                    None
                },
            }
        },
    }
}

/// The message and token of the error of the operands from `i` of the shift or rotation
/// named `name`, where they are at fault: the destination, the comma or the amount.
#[verifier::opaque]
pub open spec fn shift_fault(name: Seq<char>, toks: Seq<Token>, i: int) -> Option<(Seq<char>, int)> {
    match reg_at(toks, i) {
        None => Some((name + ": expected destination register"@, i)),
        Some(_) => if !(kind_at(toks, next_pos(toks, i)) is Comma) {
            Some(("Expected ','"@, next_pos(toks, i)))
        } else {
            amount_fault(name, toks, next_pos(toks, next_pos(toks, i)))
        },
    }
}

/// `op dst, src`: a register and a register, or an immediate or label that fits it.
#[verifier::opaque]
pub open spec fn alu_syntax(reg_op: Op, imm_op: Op, toks: Seq<Token>, i: int, g: Option<Seq<char>>) -> Option<(Op, Seq<Operand>, int)> {
    match (reg_at(toks, i), comma_after(toks, next_pos(toks, i))) {
        (Some(d), Some(k)) => match reg_or_imm_syntax(toks, k, g) {
            None => None,
            Some((o, m)) => match fitted(o, d.width()) {
                None => None,
                Some(o2) => Some((pick(reg_op, imm_op, o2), seq![reg_operand(d), o2], m)),
            },
        },
        _ => None,
    }
}

/// The message and token of the error of the operands from `i` of the arithmetic or logic
/// instruction named `name`, in the scope of global label `g`, where they are at fault: the
/// destination, the comma, the source, or an immediate too wide for the destination.
#[verifier::opaque]
pub open spec fn alu_fault(name: Seq<char>, toks: Seq<Token>, i: int, g: Option<Seq<char>>) -> Option<(Seq<char>, int)> {
    match reg_at(toks, i) {
        None => Some((name + ": expected destination register"@, i)),
        Some(d) => if !(kind_at(toks, next_pos(toks, i)) is Comma) {
            Some(("Expected ','"@, next_pos(toks, i)))
        } else {
            let k = next_pos(toks, next_pos(toks, i));
            if reg_at(toks, k) is Some {
                None
            } else {
                match kind_at(toks, k) {
                    KindView::Number(n) => if fitted(Operand::Val(Argument::Inmm32(n)), d.width()) is None {
                        if d.width() == 1 {
                            Some(("Immediate out of range for 8-bit register"@, k))
                        } else {
                            Some(("Immediate out of range for 16-bit register"@, k))
                        }
                    } else {
                        None
                    },
                    KindView::Char(_) => None,
                    KindView::Dot | KindView::Ident(_) => label_fault(toks, k, g),
                    _ => Some(("Expected register, immediate, or label"@, k)),
                }
            }
        },
    }
}

/// `op dst, amount`: a register and a shift amount.
#[verifier::opaque]
pub open spec fn shift_syntax(reg_op: Op, imm_op: Op, toks: Seq<Token>, i: int) -> Option<(Op, Seq<Operand>, int)> {
    match (reg_at(toks, i), comma_after(toks, next_pos(toks, i))) {
        (Some(d), Some(k)) => match shift_amount_syntax(toks, k) {
            None => None,
            Some((o, m)) => Some((pick(reg_op, imm_op, o), seq![reg_operand(d), o], m)),
        },
        _ => None,
    }
}

/// A jump or call: a register, an immediate or a label.
#[verifier::opaque]
pub open spec fn jump_syntax(label_op: Op, reg_op: Op, toks: Seq<Token>, i: int, g: Option<Seq<char>>) -> Option<(Op, Seq<Operand>, int)> {
    match reg_or_imm_syntax(toks, i, g) {
        None => None,
        Some((o, m)) => Some((pick(reg_op, label_op, o), seq![o], m)),
    }
}

/// A port number up to 255 at `i`.
pub open spec fn port_syntax(toks: Seq<Token>, i: int) -> Option<(u8, int)> {
    match kind_at(toks, i) {
        KindView::Number(n) => if n <= 0xFF {
            Some((n as u8, next_pos(toks, i)))
        } else {
            None
        },
        _ => None,
    }
}

/// `IN dst, port`.
#[verifier::opaque]
pub open spec fn in_syntax(toks: Seq<Token>, i: int) -> Option<(Op, Seq<Operand>, int)> {
    match (reg_at(toks, i), comma_after(toks, next_pos(toks, i))) {
        (Some(d), Some(k)) => match port_syntax(toks, k) {
            Some((p, m)) => Some((Op::In, seq![reg_operand(d), Operand::Val(Argument::Inmm8(p))], m)),
            None => None,
        },
        _ => None,
    }
}

/// `OUT port, src`.
#[verifier::opaque]
pub open spec fn out_syntax(toks: Seq<Token>, i: int) -> Option<(Op, Seq<Operand>, int)> {
    match port_syntax(toks, i) {
        None => None,
        Some((p, j)) => match comma_after(toks, j) {
            None => None,
            Some(k) => match reg_at(toks, k) {
                Some(src) => Some((Op::Out, seq![Operand::Val(Argument::Inmm8(p)), reg_operand(src)], next_pos(toks, k))),
                None => None,
            },
        },
    }
}

/// `LOAD dst, addr`: a register and an `rw` address register.
#[verifier::opaque]
pub open spec fn load_syntax(toks: Seq<Token>, i: int) -> Option<(Op, Seq<Operand>, int)> {
    match (reg_at(toks, i), comma_after(toks, next_pos(toks, i))) {
        (Some(d), Some(k)) => match rw_at(toks, k) {
            Some(a) => Some((Op::Load, seq![reg_operand(d), reg_operand(a)], next_pos(toks, k))),
            None => None,
        },
        _ => None,
    }
}

/// `STORE addr, src`: an `rw` address register and a register.
#[verifier::opaque]
pub open spec fn store_syntax(toks: Seq<Token>, i: int) -> Option<(Op, Seq<Operand>, int)> {
    match (rw_at(toks, i), comma_after(toks, next_pos(toks, i))) {
        (Some(a), Some(k)) => match reg_at(toks, k) {
            Some(src) => Some((Op::Store, seq![reg_operand(a), reg_operand(src)], next_pos(toks, k))),
            None => None,
        },
        _ => None,
    }
}

/// `SIE idx, handler`: an `rb` index and an `rw` register or an immediate or label.
#[verifier::opaque]
pub open spec fn sie_syntax(toks: Seq<Token>, i: int, g: Option<Seq<char>>) -> Option<(Op, Seq<Operand>, int)> {
    match reg_at(toks, i) {
        None => None,
        Some(idx) => if idx.view_bits() != VIEW_RB {
            None
        } else {
            match comma_after(toks, next_pos(toks, i)) {
                None => None,
                Some(k) => match reg_at(toks, k) {
                    Some(a) => if a.view_bits() == VIEW_RW {
                        Some((Op::SieRegReg, seq![reg_operand(idx), reg_operand(a)], next_pos(toks, k)))
                    } else {
                        None
                    },
                    None => match imm_or_label_syntax(toks, k, g) {
                        Some((o, m)) => Some((Op::SieRegImm, seq![reg_operand(idx), o], m)),
                        None => None,
                    },
                },
            }
        },
    }
}

/// `INT n`: an `rb` register or a number up to 255.
#[verifier::opaque]
pub open spec fn int_syntax(toks: Seq<Token>, i: int) -> Option<(Op, Seq<Operand>, int)> {
    match reg_at(toks, i) {
        Some(r) => if r.view_bits() == VIEW_RB {
            Some((Op::IntReg, seq![reg_operand(r)], next_pos(toks, i)))
        } else {
            None
        },
        None => match kind_at(toks, i) {
            KindView::Number(n) => if n <= 0xFF {
                Some((Op::IntImm, seq![Operand::Val(Argument::Inmm8(n as u8))], next_pos(toks, i)))
            } else {
                None
            },
            _ => None,
        },
    }
}

/// `TUR rw, src` (source `rw`, `ip` or `cr`) or `TKR dst, rw` (destination `rw`, `ip`, `cr`
/// or `sp`).
#[verifier::opaque]
pub open spec fn transfer_syntax(to_kernel: bool, toks: Seq<Token>, i: int) -> Option<(Op, Seq<Operand>, int)> {
    match (reg_at(toks, i), comma_after(toks, next_pos(toks, i))) {
        (Some(d), Some(k)) => match reg_at(toks, k) {
            Some(src) => {
                let v = d.view_bits();
                let w = src.view_bits();
                let ok = if to_kernel {
                    v == VIEW_RW && (w == VIEW_RW || w == VIEW_IP || w == VIEW_CR)
                } else {
                    (v == VIEW_RW || v == VIEW_IP || v == VIEW_CR || v == VIEW_SP) && w == VIEW_RW
                };
                if ok {
                    Some((if to_kernel { Op::Tur } else { Op::Tkr }, seq![reg_operand(d), reg_operand(src)], next_pos(toks, k)))
                } else {
                    None
                }
            },
            None => None,
        },
        _ => None,
    }
}

/// `MMAP virt, phys, size`: two `rw` registers and an `rw` register or a 32-bit number.
#[verifier::opaque]
pub open spec fn mmap_syntax(toks: Seq<Token>, i: int) -> Option<(Op, Seq<Operand>, int)> {
    match (rw_at(toks, i), comma_after(toks, next_pos(toks, i))) {
        (Some(v), Some(k1)) => match (rw_at(toks, k1), comma_after(toks, next_pos(toks, k1))) {
            (Some(p), Some(k2)) => match u32_or_rw_syntax(toks, k2) {
                Some((o, m)) => Some((pick(Op::MmapRegRegReg, Op::MmapRegRegImm, o), seq![reg_operand(v), reg_operand(p), o], m)),
                None => None,
            },
            _ => None,
        },
        _ => None,
    }
}

/// `MUNMAP virt, size`: an `rw` register and an `rw` register or a 32-bit number.
#[verifier::opaque]
pub open spec fn munmap_syntax(toks: Seq<Token>, i: int) -> Option<(Op, Seq<Operand>, int)> {
    match (rw_at(toks, i), comma_after(toks, next_pos(toks, i))) {
        (Some(v), Some(k)) => match u32_or_rw_syntax(toks, k) {
            Some((o, m)) => Some((pick(Op::MunmapRegReg, Op::MunmapRegImm, o), seq![reg_operand(v), o], m)),
            None => None,
        },
        _ => None,
    }
}

/// `MPROTECT virt, perms` (an `rw` and an `rb` register, nothing after) or
/// `MPROTECT virt, count, perms` (an `rw` register, an `rw` register or a 32-bit number, an
/// `rb` register).
#[verifier::opaque]
pub open spec fn mprotect_syntax(toks: Seq<Token>, i: int) -> Option<(Op, Seq<Operand>, int)> {
    match (rw_at(toks, i), comma_after(toks, next_pos(toks, i))) {
        (Some(v), Some(k)) => {
            if reg_at(toks, k) matches Some(r) && r.view_bits() == VIEW_RB && !(kind_at(toks, k + 1) is Comma) {
                Some((Op::Mprotect, seq![reg_operand(v), reg_operand(reg_at(toks, k)->0)], next_pos(toks, k)))
            } else {
                mprotect_count_syntax(v, toks, k)
            }
        },
        _ => None,
    }
}

/// `count, perms` of `MPROTECT` from position `k`, the virtual page register being `v`.
pub open spec fn mprotect_count_syntax(v: RegisterEncoding, toks: Seq<Token>, k: int) -> Option<(Op, Seq<Operand>, int)> {
    match u32_or_rw_syntax(toks, k) {
        None => None,
        Some((c, m)) => match comma_after(toks, m) {
            None => None,
            Some(m2) => match reg_at(toks, m2) {
                Some(p) => if p.view_bits() == VIEW_RB {
                    Some((pick(Op::MprotectRegRegRb, Op::MprotectRegImmRb, c), seq![reg_operand(v), c, reg_operand(p)], next_pos(toks, m2)))
                } else {
                    None
                },
                None => None,
            },
        },
    }
}

/// A successful result is a well-formed instruction of an operation with mnemonic `m`.
pub open spec fn parsed_as(r: Result<ParsedInstruction>, m: Seq<char>) -> bool {
    r matches Ok(i) ==> i.well_formed() && i.opcode.mnemonic() == m
}

/// Whether some operation has mnemonic `m`.
pub open spec fn is_mnemonic(m: Seq<char>) -> bool {
    exists|op: Op| #[trigger] op.mnemonic() == m
}

fn parse_one_reg(parser: &mut Parser, op: Op, message: &str) -> (r: Result<ParsedInstruction>)
    requires
        old(parser).wf(),
        op == Op::Push || op == Op::Pop || op == Op::Not,
    ensures
        keeps(*old(parser), *final(parser)),
        r matches Ok(i) ==> i.well_formed() && i.opcode == op,
        inst_parsed(r, *final(parser), one_reg_syntax(op, old(parser).tokens@, old(parser).pos as int)),
        reg_at(old(parser).tokens@, old(parser).pos as int) is None ==> (r matches Err(e)
            && tok_error(e, old(parser).tokens@, old(parser).pos as int, message@)),
{
    proof {
        reveal(one_reg_syntax);
    }
    let reg = take_register(parser, message)?;
    Ok(inst1(op, reg_arg(reg)))
}

#[verifier::rlimit(100)]
#[verifier::spinoff_prover]
fn parse_mov(parser: &mut Parser) -> (r: Result<ParsedInstruction>)
    requires
        old(parser).wf(),
    ensures
        keeps(*old(parser), *final(parser)),
        r matches Ok(i) ==> i.well_formed() && (i.opcode == Op::MovRegImm || i.opcode
            == Op::MovRegReg),
        inst_parsed(r, *final(parser), mov_syntax(old(parser).tokens@, old(parser).pos as int, scope_of(*old(parser)))),
        mov_fault(old(parser).tokens@, old(parser).pos as int, scope_of(*old(parser))) matches Some((m, k))
            ==> (r matches Err(e) && tok_error(e, old(parser).tokens@, k, m)),
{
    proof {
        reveal(mov_syntax);
        reveal(mov_fault);
    }
    let dst_tok = parser.peek(0).duplicate();
    let dst = match parse_register(&dst_tok) {
        Some(d) => d,
        None => {
            return Err(dst_tok.parse_error(owned("MOV: expected destination register")));
        },
    };
    if dst.is_ip() {
        return Err(
            dst_tok.parse_error(owned("MOV: ip is not a valid destination; use TKR ip, rw")),
        );
    }
    parser.advance();
    parser.expect_comma()?;
    let src_tok = parser.peek(0).duplicate();
    match parse_register(&src_tok) {
        Some(src) => {
            if src.is_ip() {
                return Err(
                    src_tok.parse_error(owned("MOV: ip is not a valid source; use TUR rw, ip")),
                );
            }
            parser.advance();
            if dst.width_bytes() != src.width_bytes() && !dst.is_sp() && !src.is_sp() {
                return Err(
                    src_tok.parse_error(owned("MOV: register views must have the same width")),
                );
            }
            Ok(inst2(Op::MovRegReg, reg_arg(dst), reg_arg(src)))
        },
        None => {
            let imm = parse_imm_or_label(parser)?;
            let span = Range { start: src_tok.span.start, end: src_tok.span.end };
            let imm = fit_imm(imm, src_tok.file, span, dst.width_bytes())?;
            Ok(inst2(Op::MovRegImm, reg_arg(dst), imm))
        },
    }
}

fn parse_extend(parser: &mut Parser, op: Op, name: &str) -> (r: Result<ParsedInstruction>)
    requires
        old(parser).wf(),
        op == Op::ZeroExtend || op == Op::SignExtend,
    ensures
        keeps(*old(parser), *final(parser)),
        r matches Ok(i) ==> i.well_formed() && i.opcode == op,
        inst_parsed(r, *final(parser), extend_syntax(op, old(parser).tokens@, old(parser).pos as int)),
        extend_fault(name@, old(parser).tokens@, old(parser).pos as int) matches Some((m, k))
            ==> (r matches Err(e) && tok_error(e, old(parser).tokens@, k, m)),
{
    proof {
        reveal(extend_syntax);
        reveal(extend_fault);
    }
    let dst = take_register(parser, concat(owned(name), ": expected destination register").as_str())?;
    parser.expect_comma()?;
    let src_tok = parser.peek(0).duplicate();
    let src = take_register(parser, concat(owned(name), ": expected source register").as_str())?;
    if dst.width_bytes() <= src.width_bytes() {
        return Err(
            src_tok.parse_error(concat(owned(name), ": destination must be wider than source")),
        );
    }
    Ok(inst2(op, reg_arg(dst), reg_arg(src)))
}

/// The register and immediate variants of one arithmetic or logic operation.
pub open spec fn alu_pair(reg_op: Op, imm_op: Op) -> bool {
    ||| reg_op == Op::Add && imm_op == Op::AddImm
    ||| reg_op == Op::Sub && imm_op == Op::SubImm
    ||| reg_op == Op::And && imm_op == Op::AndImm
    ||| reg_op == Op::Or && imm_op == Op::OrImm
    ||| reg_op == Op::Xor && imm_op == Op::XorImm
    ||| reg_op == Op::Cmp && imm_op == Op::CmpImm
    ||| reg_op == Op::Mul && imm_op == Op::MulImm
    ||| reg_op == Op::Div && imm_op == Op::DivImm
    ||| reg_op == Op::Mod && imm_op == Op::ModImm
    ||| reg_op == Op::Smul && imm_op == Op::SmulImm
    ||| reg_op == Op::Sdiv && imm_op == Op::SdivImm
    ||| reg_op == Op::Smod && imm_op == Op::SmodImm
}

#[verifier::rlimit(50)]
#[verifier::spinoff_prover]
fn parse_alu(parser: &mut Parser, reg_op: Op, imm_op: Op, name: &str) -> (r: Result<
    ParsedInstruction,
>)
    requires
        old(parser).wf(),
        alu_pair(reg_op, imm_op),
    ensures
        keeps(*old(parser), *final(parser)),
        r matches Ok(i) ==> i.well_formed() && (i.opcode == reg_op || i.opcode == imm_op),
        inst_parsed(r, *final(parser), alu_syntax(reg_op, imm_op, old(parser).tokens@, old(parser).pos as int, scope_of(*old(parser)))),
        alu_fault(name@, old(parser).tokens@, old(parser).pos as int, scope_of(*old(parser))) matches Some((m, k))
            ==> (r matches Err(e) && tok_error(e, old(parser).tokens@, k, m)),
{
    proof {
        reveal(alu_syntax);
        reveal(alu_fault);
    }
    let dst = take_register(parser, concat(owned(name), ": expected destination register").as_str())?;
    parser.expect_comma()?;
    let src_tok = parser.peek(0).duplicate();
    let span = Range { start: src_tok.span.start, end: src_tok.span.end };
    let src = parse_reg_or_imm(parser, src_tok.file, span)?;
    let span2 = Range { start: src_tok.span.start, end: src_tok.span.end };
    let src = fit_imm(src, src_tok.file, span2, dst.width_bytes())?;
    let op = pick_alu(reg_op, imm_op, &src);
    Ok(inst2(op, reg_arg(dst), src))
}

/// The register and immediate variants of one shift or rotation.
pub open spec fn shift_pair(reg_op: Op, imm_op: Op) -> bool {
    ||| reg_op == Op::ShlReg && imm_op == Op::ShlImm
    ||| reg_op == Op::ShrReg && imm_op == Op::ShrImm
    ||| reg_op == Op::SarReg && imm_op == Op::SarImm
    ||| reg_op == Op::RolReg && imm_op == Op::RolImm
    ||| reg_op == Op::RorReg && imm_op == Op::RorImm
}

fn parse_shift(parser: &mut Parser, reg_op: Op, imm_op: Op, name: &str) -> (r: Result<
    ParsedInstruction,
>)
    requires
        old(parser).wf(),
        shift_pair(reg_op, imm_op),
    ensures
        keeps(*old(parser), *final(parser)),
        r matches Ok(i) ==> i.well_formed() && (i.opcode == reg_op || i.opcode == imm_op),
        inst_parsed(r, *final(parser), shift_syntax(reg_op, imm_op, old(parser).tokens@, old(parser).pos as int)),
        shift_fault(name@, old(parser).tokens@, old(parser).pos as int) matches Some((m, k))
            ==> (r matches Err(e) && tok_error(e, old(parser).tokens@, k, m)),
{
    proof {
        reveal(shift_syntax);
        reveal(shift_fault);
    }
    let dst = take_register(parser, concat(owned(name), ": expected destination register").as_str())?;
    parser.expect_comma()?;
    let src = parse_shift_amount(parser, name)?;
    let op = pick_alu(reg_op, imm_op, &src);
    Ok(inst2(op, reg_arg(dst), src))
}

/// The label and register variants of one jump or call.
pub open spec fn jump_pair(label_op: Op, reg_op: Op) -> bool {
    ||| label_op == Op::Jmp && reg_op == Op::JmpReg
    ||| label_op == Op::Jz && reg_op == Op::JzReg
    ||| label_op == Op::Jnz && reg_op == Op::JnzReg
    ||| label_op == Op::Jc && reg_op == Op::JcReg
    ||| label_op == Op::Jn && reg_op == Op::JnReg
    ||| label_op == Op::Jo && reg_op == Op::JoReg
    ||| label_op == Op::Jno && reg_op == Op::JnoReg
    ||| label_op == Op::Call && reg_op == Op::CallReg
}

fn parse_jump(parser: &mut Parser, label_op: Op, reg_op: Op) -> (r: Result<ParsedInstruction>)
    requires
        old(parser).wf(),
        jump_pair(label_op, reg_op),
    ensures
        keeps(*old(parser), *final(parser)),
        r matches Ok(i) ==> i.well_formed() && (i.opcode == label_op || i.opcode == reg_op),
        inst_parsed(r, *final(parser), jump_syntax(label_op, reg_op, old(parser).tokens@, old(parser).pos as int, scope_of(*old(parser)))),
        reg_or_imm_fault(old(parser).tokens@, old(parser).pos as int, scope_of(*old(parser))) matches Some((m, k))
            ==> (r matches Err(e) && tok_error(e, old(parser).tokens@, k, m)),
{
    proof {
        reveal(jump_syntax);
    }
    let tok = parser.peek(0).duplicate();
    let target = parse_reg_or_imm(parser, tok.file, Range { start: tok.span.start, end: tok.span.end })?;
    let op = pick_jump(label_op, reg_op, &target);
    Ok(inst1(op, target))
}

/// A port number that fits a byte.
/// The message and token of the error of a port number expected at `i` for the
/// instruction named `name`: no number, or one over 255.
pub open spec fn port_fault(name: Seq<char>, toks: Seq<Token>, i: int) -> Option<(Seq<char>, int)> {
    match kind_at(toks, i) {
        KindView::Number(n) => if n <= 0xFF {
            None
        } else {
            Some((name + ": port must fit in u8"@, i))
        },
        _ => Some((name + ": expected port number"@, i)),
    }
}

/// The message and token of the error of the operands from `i` of `IN dst, port`.
#[verifier::opaque]
pub open spec fn in_fault(toks: Seq<Token>, i: int) -> Option<(Seq<char>, int)> {
    match reg_at(toks, i) {
        None => Some(("IN: expected destination register"@, i)),
        Some(_) => if !(kind_at(toks, next_pos(toks, i)) is Comma) {
            Some(("Expected ','"@, next_pos(toks, i)))
        } else {
            port_fault("IN"@, toks, next_pos(toks, next_pos(toks, i)))
        },
    }
}

/// The message and token of the error of the operands from `i` of `OUT port, src`.
#[verifier::opaque]
pub open spec fn out_fault(toks: Seq<Token>, i: int) -> Option<(Seq<char>, int)> {
    match port_fault("OUT"@, toks, i) {
        Some(f) => Some(f),
        None => if !(kind_at(toks, next_pos(toks, i)) is Comma) {
            Some(("Expected ','"@, next_pos(toks, i)))
        } else {
            let k = next_pos(toks, next_pos(toks, i));
            if reg_at(toks, k) is None {
                Some(("OUT: expected source register"@, k))
            } else {
                None
            }
        },
    }
}

/// The message and token of the error of the operands from `i` of `MMAP virt, phys, size`.
#[verifier::opaque]
pub open spec fn mmap_fault(toks: Seq<Token>, i: int) -> Option<(Seq<char>, int)> {
    match rw_fault("MMAP"@, "virtual address"@, toks, i) {
        Some(f) => Some(f),
        None => if !(kind_at(toks, next_pos(toks, i)) is Comma) {
            Some(("Expected ','"@, next_pos(toks, i)))
        } else {
            let k = next_pos(toks, next_pos(toks, i));
            match rw_fault("MMAP"@, "physical address"@, toks, k) {
                Some(f) => Some(f),
                None => if !(kind_at(toks, next_pos(toks, k)) is Comma) {
                    Some(("Expected ','"@, next_pos(toks, k)))
                } else {
                    u32_or_rw_fault("MMAP"@, "size"@, toks, next_pos(toks, next_pos(toks, k)))
                },
            }
        },
    }
}

/// The message and token of the error of the operands from `i` of `MUNMAP virt, size`.
#[verifier::opaque]
pub open spec fn munmap_fault(toks: Seq<Token>, i: int) -> Option<(Seq<char>, int)> {
    match rw_fault("MUNMAP"@, "virtual address"@, toks, i) {
        Some(f) => Some(f),
        None => if !(kind_at(toks, next_pos(toks, i)) is Comma) {
            Some(("Expected ','"@, next_pos(toks, i)))
        } else {
            u32_or_rw_fault("MUNMAP"@, "size"@, toks, next_pos(toks, next_pos(toks, i)))
        },
    }
}

fn parse_port(parser: &mut Parser, name: &str) -> (r: Result<u8>)
    requires
        old(parser).wf(),
    ensures
        r matches Err(e) ==> parse_err_in(e, old(parser).tokens@),
        keeps(*old(parser), *final(parser)),
        match port_syntax(old(parser).tokens@, old(parser).pos as int) {
            Some((p, j)) => r == Ok::<u8, AssemblerError>(p) && final(parser).pos == j,
            None => r is Err,
        },
        port_fault(name@, old(parser).tokens@, old(parser).pos as int) matches Some((m, k))
            ==> (r matches Err(e) && tok_error(e, old(parser).tokens@, k, m)),
{
    let tok = parser.peek(0).duplicate();
    match tok.kind {
        TokenKind::Number(n) => {
            if n > 0xFF {
                return Err(tok.parse_error(concat(owned(name), ": port must fit in u8")));
            }
            parser.advance();
            Ok(n as u8)
        },
        _ => Err(tok.parse_error(concat(owned(name), ": expected port number"))),
    }
}

fn parse_in(parser: &mut Parser) -> (r: Result<ParsedInstruction>)
    requires
        old(parser).wf(),
    ensures
        keeps(*old(parser), *final(parser)),
        r matches Ok(i) ==> i.well_formed() && i.opcode == Op::In,
        inst_parsed(r, *final(parser), in_syntax(old(parser).tokens@, old(parser).pos as int)),
        in_fault(old(parser).tokens@, old(parser).pos as int) matches Some((m, k))
            ==> (r matches Err(e) && tok_error(e, old(parser).tokens@, k, m)),
{
    proof {
        reveal(in_syntax);
        reveal(in_fault);
    }
    let dst = take_register(parser, "IN: expected destination register")?;
    parser.expect_comma()?;
    let port = parse_port(parser, "IN")?;
    Ok(inst2(Op::In, reg_arg(dst), ParsedArgument::Value(Argument::Inmm8(port))))
}

fn parse_out(parser: &mut Parser) -> (r: Result<ParsedInstruction>)
    requires
        old(parser).wf(),
    ensures
        keeps(*old(parser), *final(parser)),
        r matches Ok(i) ==> i.well_formed() && i.opcode == Op::Out,
        inst_parsed(r, *final(parser), out_syntax(old(parser).tokens@, old(parser).pos as int)),
        out_fault(old(parser).tokens@, old(parser).pos as int) matches Some((m, k))
            ==> (r matches Err(e) && tok_error(e, old(parser).tokens@, k, m)),
{
    proof {
        reveal(out_syntax);
        reveal(out_fault);
    }
    let port = parse_port(parser, "OUT")?;
    parser.expect_comma()?;
    let src = take_register(parser, "OUT: expected source register")?;
    Ok(inst2(Op::Out, ParsedArgument::Value(Argument::Inmm8(port)), reg_arg(src)))
}

fn parse_load(parser: &mut Parser) -> (r: Result<ParsedInstruction>)
    requires
        old(parser).wf(),
    ensures
        keeps(*old(parser), *final(parser)),
        r matches Ok(i) ==> i.well_formed() && i.opcode == Op::Load,
        inst_parsed(r, *final(parser), load_syntax(old(parser).tokens@, old(parser).pos as int)),
        load_fault(old(parser).tokens@, old(parser).pos as int) matches Some((m, k))
            ==> (r matches Err(e) && tok_error(e, old(parser).tokens@, k, m)),
{
    proof {
        reveal(load_syntax);
        reveal(load_fault);
        reveal_strlit("LOAD");
        reveal_strlit("address");
    }
    let dst = take_register(parser, "LOAD: expected destination register")?;
    parser.expect_comma()?;
    let addr = take_rw(parser, "LOAD", "address")?;
    Ok(inst2(Op::Load, reg_arg(dst), reg_arg(addr)))
}

#[verifier::spinoff_prover]
fn parse_store(parser: &mut Parser) -> (r: Result<ParsedInstruction>)
    requires
        old(parser).wf(),
    ensures
        keeps(*old(parser), *final(parser)),
        r matches Ok(i) ==> i.well_formed() && i.opcode == Op::Store,
        inst_parsed(r, *final(parser), store_syntax(old(parser).tokens@, old(parser).pos as int)),
        store_fault(old(parser).tokens@, old(parser).pos as int) matches Some((m, k))
            ==> (r matches Err(e) && tok_error(e, old(parser).tokens@, k, m)),
{
    proof {
        reveal(store_syntax);
        reveal(store_fault);
        reveal_strlit("STORE");
        reveal_strlit("address");
    }
    let addr = take_rw(parser, "STORE", "address")?;
    parser.expect_comma()?;
    let src = take_register(parser, "STORE: expected source register")?;
    Ok(inst2(Op::Store, reg_arg(addr), reg_arg(src)))
}

#[verifier::rlimit(100)]
#[verifier::spinoff_prover]
fn parse_sie(parser: &mut Parser) -> (r: Result<ParsedInstruction>)
    requires
        old(parser).wf(),
    ensures
        keeps(*old(parser), *final(parser)),
        r matches Ok(i) ==> i.well_formed() && (i.opcode == Op::SieRegReg || i.opcode
            == Op::SieRegImm),
        inst_parsed(r, *final(parser), sie_syntax(old(parser).tokens@, old(parser).pos as int, scope_of(*old(parser)))),
{
    proof {
        reveal(sie_syntax);
    }
    let idx_tok = parser.peek(0).duplicate();
    let idx = match parse_register(&idx_tok) {
        Some(x) => x,
        None => {
            return Err(idx_tok.parse_error(owned("SIE: expected index register")));
        },
    };
    if !idx.is_rb() {
        return Err(idx_tok.parse_error(owned("SIE: index register must be rb")));
    }
    parser.advance();
    parser.expect_comma()?;
    let addr_tok = parser.peek(0).duplicate();
    match parse_register(&addr_tok) {
        Some(addr) => {
            if !addr.is_rw() {
                return Err(addr_tok.parse_error(owned("SIE: handler register must be rw")));
            }
            parser.advance();
            Ok(inst2(Op::SieRegReg, reg_arg(idx), reg_arg(addr)))
        },
        None => {
            let imm = parse_imm_or_label(parser)?;
            Ok(inst2(Op::SieRegImm, reg_arg(idx), imm))
        },
    }
}

fn parse_int(parser: &mut Parser) -> (r: Result<ParsedInstruction>)
    requires
        old(parser).wf(),
    ensures
        keeps(*old(parser), *final(parser)),
        r matches Ok(i) ==> i.well_formed() && (i.opcode == Op::IntReg || i.opcode == Op::IntImm),
        inst_parsed(r, *final(parser), int_syntax(old(parser).tokens@, old(parser).pos as int)),
{
    proof {
        reveal(int_syntax);
    }
    let tok = parser.peek(0).duplicate();
    match parse_register(&tok) {
        Some(reg) => {
            if !reg.is_rb() {
                return Err(tok.parse_error(owned("INT: register form requires rb")));
            }
            parser.advance();
            Ok(inst1(Op::IntReg, reg_arg(reg)))
        },
        None => match tok.kind {
            TokenKind::Number(n) => {
                parser.advance();
                if n > 0xFF {
                    return Err(tok.parse_error(owned("INT: vector index must fit in u8")));
                }
                Ok(inst1(Op::IntImm, ParsedArgument::Value(Argument::Inmm8(n as u8))))
            },
            _ => Err(tok.parse_error(owned("INT: expected vector index or register"))),
        },
    }
}

#[verifier::rlimit(100)]
#[verifier::spinoff_prover]
fn parse_transfer(parser: &mut Parser, to_kernel: bool) -> (r: Result<ParsedInstruction>)
    requires
        old(parser).wf(),
    ensures
        keeps(*old(parser), *final(parser)),
        r matches Ok(i) ==> i.well_formed() && i.opcode == (if to_kernel {
            Op::Tur
        } else {
            Op::Tkr
        }),
        inst_parsed(r, *final(parser), transfer_syntax(to_kernel, old(parser).tokens@, old(parser).pos as int)),
{
    proof {
        reveal(transfer_syntax);
    }
    let name = if to_kernel {
        "TUR"
    } else {
        "TKR"
    };
    let dst_tok = parser.peek(0).duplicate();
    let dst = match parse_register(&dst_tok) {
        Some(d) => d,
        None => {
            return Err(error_at(parser, &dst_tok, concat(owned(name), ": expected destination register")));
        },
    };
    if to_kernel {
        if !dst.is_rw() {
            return Err(error_at(parser, &dst_tok, owned("TUR: destination register must be rw")));
        }
    } else {
        if !dst.is_rw() && !dst.is_ip() && !dst.is_cr() && !dst.is_sp() {
            return Err(error_at(parser, &dst_tok, owned("TKR: destination must be rw, ip, cr, or sp")));
        }
    }
    parser.advance();
    parser.expect_comma()?;
    let src_tok = parser.peek(0).duplicate();
    let src = match parse_register(&src_tok) {
        Some(s) => s,
        None => {
            return Err(error_at(parser, &src_tok, concat(owned(name), ": expected source register")));
        },
    };
    if to_kernel {
        if !src.is_rw() && !src.is_ip() && !src.is_cr() {
            return Err(error_at(parser, &src_tok, owned("TUR: source must be rw, ip, or cr")));
        }
    } else {
        if !src.is_rw() {
            return Err(error_at(parser, &src_tok, owned("TKR: source register must be rw")));
        }
    }
    parser.advance();
    let op = if to_kernel {
        Op::Tur
    } else {
        Op::Tkr
    };
    Ok(inst2(op, reg_arg(dst), reg_arg(src)))
}

/// An `rw` register; `what` names the operand in the messages.
fn take_rw(parser: &mut Parser, name: &str, what: &str) -> (r: Result<crate::register::RegisterEncoding>)
    requires
        old(parser).wf(),
    ensures
        r matches Err(e) ==> parse_err_in(e, old(parser).tokens@),
        keeps(*old(parser), *final(parser)),
        r matches Ok(reg) ==> reg.is_valid() && reg.view_bits() == crate::register::VIEW_RW,
        r is Ok <==> rw_at(old(parser).tokens@, old(parser).pos as int) is Some,
        r matches Ok(reg) ==> rw_at(old(parser).tokens@, old(parser).pos as int) == Some(reg) && final(parser).pos == next_pos(old(parser).tokens@, old(parser).pos as int),
        rw_fault(name@, what@, old(parser).tokens@, old(parser).pos as int) matches Some((m, k))
            ==> (r matches Err(e) && tok_error(e, old(parser).tokens@, k, m)),
{
    let tok = parser.peek(0).duplicate();
    let reg = match parse_register(&tok) {
        Some(x) => x,
        None => {
            return Err(tok.parse_error(concat(concat(concat(owned(name), ": expected "), what), " register")));
        },
    };
    if !reg.is_rw() {
        return Err(tok.parse_error(concat(concat(concat(owned(name), ": "), what), " register must be rw")));
    }
    parser.advance();
    Ok(reg)
}

#[verifier::rlimit(100)]
#[verifier::spinoff_prover]
fn parse_mmap(parser: &mut Parser) -> (r: Result<ParsedInstruction>)
    requires
        old(parser).wf(),
    ensures
        keeps(*old(parser), *final(parser)),
        r matches Ok(i) ==> i.well_formed() && (i.opcode == Op::MmapRegRegReg || i.opcode
            == Op::MmapRegRegImm),
        inst_parsed(r, *final(parser), mmap_syntax(old(parser).tokens@, old(parser).pos as int)),
        mmap_fault(old(parser).tokens@, old(parser).pos as int) matches Some((m, k))
            ==> (r matches Err(e) && tok_error(e, old(parser).tokens@, k, m)),
{
    proof {
        reveal(mmap_syntax);
        reveal(mmap_fault);
    }
    let virt = take_rw(parser, "MMAP", "virtual address")?;
    parser.expect_comma()?;
    let phys = take_rw(parser, "MMAP", "physical address")?;
    parser.expect_comma()?;
    let size = parse_u32_or_rw(parser, "MMAP", "size")?;
    let op = pick_alu(Op::MmapRegRegReg, Op::MmapRegRegImm, &size);
    Ok(inst3(op, reg_arg(virt), reg_arg(phys), size))
}

#[verifier::rlimit(100)]
#[verifier::spinoff_prover]
fn parse_munmap(parser: &mut Parser) -> (r: Result<ParsedInstruction>)
    requires
        old(parser).wf(),
    ensures
        keeps(*old(parser), *final(parser)),
        r matches Ok(i) ==> i.well_formed() && (i.opcode == Op::MunmapRegReg || i.opcode
            == Op::MunmapRegImm),
        inst_parsed(r, *final(parser), munmap_syntax(old(parser).tokens@, old(parser).pos as int)),
        munmap_fault(old(parser).tokens@, old(parser).pos as int) matches Some((m, k))
            ==> (r matches Err(e) && tok_error(e, old(parser).tokens@, k, m)),
{
    proof {
        reveal(munmap_syntax);
        reveal(munmap_fault);
    }
    let virt = take_rw(parser, "MUNMAP", "virtual address")?;
    parser.expect_comma()?;
    let size = parse_u32_or_rw(parser, "MUNMAP", "size")?;
    let op = pick_alu(Op::MunmapRegReg, Op::MunmapRegImm, &size);
    Ok(inst2(op, reg_arg(virt), size))
}

/// `MPROTECT rw, rb` (one page) or `MPROTECT rw, count, rb`.
#[verifier::rlimit(100)]
#[verifier::spinoff_prover]
fn parse_mprotect(parser: &mut Parser) -> (r: Result<ParsedInstruction>)
    requires
        old(parser).wf(),
    ensures
        keeps(*old(parser), *final(parser)),
        r matches Ok(i) ==> i.well_formed() && (i.opcode == Op::Mprotect || i.opcode
            == Op::MprotectRegRegRb || i.opcode == Op::MprotectRegImmRb),
        inst_parsed(r, *final(parser), mprotect_syntax(old(parser).tokens@, old(parser).pos as int)),
{
    proof {
        reveal(mprotect_syntax);
    }
    let virt = take_rw(parser, "MPROTECT", "virtual page")?;
    parser.expect_comma()?;
    let tok = parser.peek(0).duplicate();
    if let Some(reg) = parse_register(&tok) {
        if reg.is_rb() && !matches!(parser.peek(1).kind, TokenKind::Comma) {
            parser.advance();
            return Ok(inst2(Op::Mprotect, reg_arg(virt), reg_arg(reg)));
        }
    }
    parse_mprotect_count(parser, virt)
}

/// The `count, perms` operands of `MPROTECT`, the virtual page register being `virt`.
#[verifier::rlimit(100)]
#[verifier::spinoff_prover]
fn parse_mprotect_count(parser: &mut Parser, virt: RegisterEncoding) -> (r: Result<ParsedInstruction>)
    requires
        old(parser).wf(),
        virt.is_valid(),
        virt.view_bits() == VIEW_RW,
    ensures
        keeps(*old(parser), *final(parser)),
        r matches Ok(i) ==> i.well_formed() && (i.opcode == Op::MprotectRegRegRb || i.opcode == Op::MprotectRegImmRb),
        inst_parsed(r, *final(parser), mprotect_count_syntax(virt, old(parser).tokens@, old(parser).pos as int)),
{
    let count = parse_u32_or_rw(parser, "MPROTECT", "page_count")?;
    parser.expect_comma()?;
    let perms_tok = parser.peek(0).duplicate();
    let perms = match parse_register(&perms_tok) {
        Some(p) => p,
        None => {
            return Err(error_at(parser, &perms_tok, owned("MPROTECT: expected permissions register")));
        },
    };
    if !perms.is_rb() {
        return Err(error_at(parser, &perms_tok, owned("MPROTECT: permissions register must be rb")));
    }
    parser.advance();
    let op = pick_alu(Op::MprotectRegRegRb, Op::MprotectRegImmRb, &count);
    Ok(inst3(op, reg_arg(virt), count, reg_arg(perms)))
}

/// The instruction written with mnemonic `m` and its operands from position `i`, in the
/// scope of global label `g`: the operation, its operands and the position after them, or
/// `None` for an unknown mnemonic or operands it does not take.
pub open spec fn instruction_syntax(m: Seq<char>, toks: Seq<Token>, i: int, g: Option<Seq<char>>) -> Option<(Op, Seq<Operand>, int)> {
    if m == "NOP"@ {
        Some((Op::Nop, seq![], i))
    } else if m == "HALT"@ {
        Some((Op::Halt, seq![], i))
    } else if m == "RET"@ {
        Some((Op::Ret, seq![], i))
    } else if m == "IRET"@ {
        Some((Op::Iret, seq![], i))
    } else if m == "DPL"@ {
        Some((Op::Dpl, seq![], i))
    } else if m == "PUSH"@ {
        one_reg_syntax(Op::Push, toks, i)
    } else if m == "POP"@ {
        one_reg_syntax(Op::Pop, toks, i)
    } else if m == "NOT"@ {
        one_reg_syntax(Op::Not, toks, i)
    } else if m == "MOV"@ {
        mov_syntax(toks, i, g)
    } else if m == "ZEXT"@ {
        extend_syntax(Op::ZeroExtend, toks, i)
    } else if m == "SEXT"@ {
        extend_syntax(Op::SignExtend, toks, i)
    } else if m == "ADD"@ {
        alu_syntax(Op::Add, Op::AddImm, toks, i, g)
    } else if m == "SUB"@ {
        alu_syntax(Op::Sub, Op::SubImm, toks, i, g)
    } else if m == "AND"@ {
        alu_syntax(Op::And, Op::AndImm, toks, i, g)
    } else if m == "OR"@ {
        alu_syntax(Op::Or, Op::OrImm, toks, i, g)
    } else if m == "XOR"@ {
        alu_syntax(Op::Xor, Op::XorImm, toks, i, g)
    } else if m == "CMP"@ {
        alu_syntax(Op::Cmp, Op::CmpImm, toks, i, g)
    } else if m == "MUL"@ {
        alu_syntax(Op::Mul, Op::MulImm, toks, i, g)
    } else if m == "DIV"@ {
        alu_syntax(Op::Div, Op::DivImm, toks, i, g)
    } else if m == "MOD"@ {
        alu_syntax(Op::Mod, Op::ModImm, toks, i, g)
    } else if m == "SMUL"@ {
        alu_syntax(Op::Smul, Op::SmulImm, toks, i, g)
    } else if m == "SDIV"@ {
        alu_syntax(Op::Sdiv, Op::SdivImm, toks, i, g)
    } else if m == "SMOD"@ {
        alu_syntax(Op::Smod, Op::SmodImm, toks, i, g)
    } else if m == "SHL"@ {
        shift_syntax(Op::ShlReg, Op::ShlImm, toks, i)
    } else if m == "SHR"@ {
        shift_syntax(Op::ShrReg, Op::ShrImm, toks, i)
    } else if m == "SAR"@ {
        shift_syntax(Op::SarReg, Op::SarImm, toks, i)
    } else if m == "ROL"@ {
        shift_syntax(Op::RolReg, Op::RolImm, toks, i)
    } else if m == "ROR"@ {
        shift_syntax(Op::RorReg, Op::RorImm, toks, i)
    } else if m == "JMP"@ {
        jump_syntax(Op::Jmp, Op::JmpReg, toks, i, g)
    } else if m == "JZ"@ {
        jump_syntax(Op::Jz, Op::JzReg, toks, i, g)
    } else if m == "JNZ"@ {
        jump_syntax(Op::Jnz, Op::JnzReg, toks, i, g)
    } else if m == "JC"@ {
        jump_syntax(Op::Jc, Op::JcReg, toks, i, g)
    } else if m == "JN"@ {
        jump_syntax(Op::Jn, Op::JnReg, toks, i, g)
    } else if m == "JO"@ {
        jump_syntax(Op::Jo, Op::JoReg, toks, i, g)
    } else if m == "JNO"@ {
        jump_syntax(Op::Jno, Op::JnoReg, toks, i, g)
    } else if m == "CALL"@ {
        jump_syntax(Op::Call, Op::CallReg, toks, i, g)
    } else if m == "IN"@ {
        in_syntax(toks, i)
    } else if m == "OUT"@ {
        out_syntax(toks, i)
    } else if m == "LOAD"@ {
        load_syntax(toks, i)
    } else if m == "STORE"@ {
        store_syntax(toks, i)
    } else if m == "SIE"@ {
        sie_syntax(toks, i, g)
    } else if m == "INT"@ {
        int_syntax(toks, i)
    } else if m == "TUR"@ {
        transfer_syntax(true, toks, i)
    } else if m == "TKR"@ {
        transfer_syntax(false, toks, i)
    } else if m == "MMAP"@ {
        mmap_syntax(toks, i)
    } else if m == "MUNMAP"@ {
        munmap_syntax(toks, i)
    } else if m == "MPROTECT"@ {
        mprotect_syntax(toks, i)
    } else {
        None
    }
}

proof fn lemma_mov_named_apart()
    ensures
        "MOV"@ != "NOP"@,
        "MOV"@ != "HALT"@,
        "MOV"@ != "RET"@,
        "MOV"@ != "IRET"@,
        "MOV"@ != "DPL"@,
        "MOV"@ != "PUSH"@,
        "MOV"@ != "POP"@,
        "MOV"@ != "NOT"@,
{
    reveal_strlit("MOV");
    reveal_strlit("NOP");
    reveal_strlit("HALT");
    reveal_strlit("RET");
    reveal_strlit("IRET");
    reveal_strlit("DPL");
    reveal_strlit("PUSH");
    reveal_strlit("POP");
    reveal_strlit("NOT");
    assert("MOV"@[0] != "NOP"@[0]);
    assert("MOV"@.len() != "HALT"@.len());
    assert("MOV"@[0] != "RET"@[0]);
    assert("MOV"@.len() != "IRET"@.len());
    assert("MOV"@[0] != "DPL"@[0]);
    assert("MOV"@.len() != "PUSH"@.len());
    assert("MOV"@[0] != "POP"@[0]);
    assert("MOV"@[0] != "NOT"@[0]);
}

/// Whether `m` names an arithmetic or logic instruction.
pub open spec fn alu_name(m: Seq<char>) -> bool {
    m == "ADD"@
    || m == "SUB"@
    || m == "AND"@
    || m == "OR"@
    || m == "XOR"@
    || m == "CMP"@
    || m == "MUL"@
    || m == "DIV"@
    || m == "MOD"@
    || m == "SMUL"@
    || m == "SDIV"@
    || m == "SMOD"@
}

proof fn lemma_alu_named_apart()
    ensures
        !alu_name("NOP"@),
        !alu_name("HALT"@),
        !alu_name("RET"@),
        !alu_name("IRET"@),
        !alu_name("DPL"@),
        !alu_name("PUSH"@),
        !alu_name("POP"@),
        !alu_name("NOT"@),
        !alu_name("MOV"@),
        !alu_name("ZEXT"@),
        !alu_name("SEXT"@),
{
    reveal_strlit("NOP");
    reveal_strlit("HALT");
    reveal_strlit("RET");
    reveal_strlit("IRET");
    reveal_strlit("DPL");
    reveal_strlit("PUSH");
    reveal_strlit("POP");
    reveal_strlit("NOT");
    reveal_strlit("MOV");
    reveal_strlit("ZEXT");
    reveal_strlit("SEXT");
    reveal_strlit("ADD");
    reveal_strlit("SUB");
    reveal_strlit("AND");
    reveal_strlit("OR");
    reveal_strlit("XOR");
    reveal_strlit("CMP");
    reveal_strlit("MUL");
    reveal_strlit("DIV");
    reveal_strlit("MOD");
    reveal_strlit("SMUL");
    reveal_strlit("SDIV");
    reveal_strlit("SMOD");
    assert("NOP"@[0] != "ADD"@[0]);
    assert("NOP"@[0] != "SUB"@[0]);
    assert("NOP"@[0] != "AND"@[0]);
    assert("NOP"@.len() != "OR"@.len());
    assert("NOP"@[0] != "XOR"@[0]);
    assert("NOP"@[0] != "CMP"@[0]);
    assert("NOP"@[0] != "MUL"@[0]);
    assert("NOP"@[0] != "DIV"@[0]);
    assert("NOP"@[0] != "MOD"@[0]);
    assert("NOP"@.len() != "SMUL"@.len());
    assert("NOP"@.len() != "SDIV"@.len());
    assert("NOP"@.len() != "SMOD"@.len());
    assert("HALT"@.len() != "ADD"@.len());
    assert("HALT"@.len() != "SUB"@.len());
    assert("HALT"@.len() != "AND"@.len());
    assert("HALT"@.len() != "OR"@.len());
    assert("HALT"@.len() != "XOR"@.len());
    assert("HALT"@.len() != "CMP"@.len());
    assert("HALT"@.len() != "MUL"@.len());
    assert("HALT"@.len() != "DIV"@.len());
    assert("HALT"@.len() != "MOD"@.len());
    assert("HALT"@[0] != "SMUL"@[0]);
    assert("HALT"@[0] != "SDIV"@[0]);
    assert("HALT"@[0] != "SMOD"@[0]);
    assert("RET"@[0] != "ADD"@[0]);
    assert("RET"@[0] != "SUB"@[0]);
    assert("RET"@[0] != "AND"@[0]);
    assert("RET"@.len() != "OR"@.len());
    assert("RET"@[0] != "XOR"@[0]);
    assert("RET"@[0] != "CMP"@[0]);
    assert("RET"@[0] != "MUL"@[0]);
    assert("RET"@[0] != "DIV"@[0]);
    assert("RET"@[0] != "MOD"@[0]);
    assert("RET"@.len() != "SMUL"@.len());
    assert("RET"@.len() != "SDIV"@.len());
    assert("RET"@.len() != "SMOD"@.len());
    assert("IRET"@.len() != "ADD"@.len());
    assert("IRET"@.len() != "SUB"@.len());
    assert("IRET"@.len() != "AND"@.len());
    assert("IRET"@.len() != "OR"@.len());
    assert("IRET"@.len() != "XOR"@.len());
    assert("IRET"@.len() != "CMP"@.len());
    assert("IRET"@.len() != "MUL"@.len());
    assert("IRET"@.len() != "DIV"@.len());
    assert("IRET"@.len() != "MOD"@.len());
    assert("IRET"@[0] != "SMUL"@[0]);
    assert("IRET"@[0] != "SDIV"@[0]);
    assert("IRET"@[0] != "SMOD"@[0]);
    assert("DPL"@[0] != "ADD"@[0]);
    assert("DPL"@[0] != "SUB"@[0]);
    assert("DPL"@[0] != "AND"@[0]);
    assert("DPL"@.len() != "OR"@.len());
    assert("DPL"@[0] != "XOR"@[0]);
    assert("DPL"@[0] != "CMP"@[0]);
    assert("DPL"@[0] != "MUL"@[0]);
    assert("DPL"@[1] != "DIV"@[1]);
    assert("DPL"@[0] != "MOD"@[0]);
    assert("DPL"@.len() != "SMUL"@.len());
    assert("DPL"@.len() != "SDIV"@.len());
    assert("DPL"@.len() != "SMOD"@.len());
    assert("PUSH"@.len() != "ADD"@.len());
    assert("PUSH"@.len() != "SUB"@.len());
    assert("PUSH"@.len() != "AND"@.len());
    assert("PUSH"@.len() != "OR"@.len());
    assert("PUSH"@.len() != "XOR"@.len());
    assert("PUSH"@.len() != "CMP"@.len());
    assert("PUSH"@.len() != "MUL"@.len());
    assert("PUSH"@.len() != "DIV"@.len());
    assert("PUSH"@.len() != "MOD"@.len());
    assert("PUSH"@[0] != "SMUL"@[0]);
    assert("PUSH"@[0] != "SDIV"@[0]);
    assert("PUSH"@[0] != "SMOD"@[0]);
    assert("POP"@[0] != "ADD"@[0]);
    assert("POP"@[0] != "SUB"@[0]);
    assert("POP"@[0] != "AND"@[0]);
    assert("POP"@.len() != "OR"@.len());
    assert("POP"@[0] != "XOR"@[0]);
    assert("POP"@[0] != "CMP"@[0]);
    assert("POP"@[0] != "MUL"@[0]);
    assert("POP"@[0] != "DIV"@[0]);
    assert("POP"@[0] != "MOD"@[0]);
    assert("POP"@.len() != "SMUL"@.len());
    assert("POP"@.len() != "SDIV"@.len());
    assert("POP"@.len() != "SMOD"@.len());
    assert("NOT"@[0] != "ADD"@[0]);
    assert("NOT"@[0] != "SUB"@[0]);
    assert("NOT"@[0] != "AND"@[0]);
    assert("NOT"@.len() != "OR"@.len());
    assert("NOT"@[0] != "XOR"@[0]);
    assert("NOT"@[0] != "CMP"@[0]);
    assert("NOT"@[0] != "MUL"@[0]);
    assert("NOT"@[0] != "DIV"@[0]);
    assert("NOT"@[0] != "MOD"@[0]);
    assert("NOT"@.len() != "SMUL"@.len());
    assert("NOT"@.len() != "SDIV"@.len());
    assert("NOT"@.len() != "SMOD"@.len());
    assert("MOV"@[0] != "ADD"@[0]);
    assert("MOV"@[0] != "SUB"@[0]);
    assert("MOV"@[0] != "AND"@[0]);
    assert("MOV"@.len() != "OR"@.len());
    assert("MOV"@[0] != "XOR"@[0]);
    assert("MOV"@[0] != "CMP"@[0]);
    assert("MOV"@[1] != "MUL"@[1]);
    assert("MOV"@[0] != "DIV"@[0]);
    assert("MOV"@[2] != "MOD"@[2]);
    assert("MOV"@.len() != "SMUL"@.len());
    assert("MOV"@.len() != "SDIV"@.len());
    assert("MOV"@.len() != "SMOD"@.len());
    assert("ZEXT"@.len() != "ADD"@.len());
    assert("ZEXT"@.len() != "SUB"@.len());
    assert("ZEXT"@.len() != "AND"@.len());
    assert("ZEXT"@.len() != "OR"@.len());
    assert("ZEXT"@.len() != "XOR"@.len());
    assert("ZEXT"@.len() != "CMP"@.len());
    assert("ZEXT"@.len() != "MUL"@.len());
    assert("ZEXT"@.len() != "DIV"@.len());
    assert("ZEXT"@.len() != "MOD"@.len());
    assert("ZEXT"@[0] != "SMUL"@[0]);
    assert("ZEXT"@[0] != "SDIV"@[0]);
    assert("ZEXT"@[0] != "SMOD"@[0]);
    assert("SEXT"@.len() != "ADD"@.len());
    assert("SEXT"@.len() != "SUB"@.len());
    assert("SEXT"@.len() != "AND"@.len());
    assert("SEXT"@.len() != "OR"@.len());
    assert("SEXT"@.len() != "XOR"@.len());
    assert("SEXT"@.len() != "CMP"@.len());
    assert("SEXT"@.len() != "MUL"@.len());
    assert("SEXT"@.len() != "DIV"@.len());
    assert("SEXT"@.len() != "MOD"@.len());
    assert("SEXT"@[1] != "SMUL"@[1]);
    assert("SEXT"@[1] != "SDIV"@[1]);
    assert("SEXT"@[1] != "SMOD"@[1]);
}

/// Whether `m` names an instruction with one register operand.
pub open spec fn one_reg_name(m: Seq<char>) -> bool {
    m == "PUSH"@
    || m == "POP"@
    || m == "NOT"@
}

/// Whether `m` names a jump or a call.
pub open spec fn jump_name(m: Seq<char>) -> bool {
    m == "JMP"@
    || m == "JZ"@
    || m == "JNZ"@
    || m == "JC"@
    || m == "JN"@
    || m == "JO"@
    || m == "JNO"@
    || m == "CALL"@
}

/// The message and token of the error of a register, immediate or label operand at `i`.
pub open spec fn reg_or_imm_fault(toks: Seq<Token>, i: int, g: Option<Seq<char>>) -> Option<(Seq<char>, int)> {
    if reg_at(toks, i) is Some {
        None
    } else {
        match kind_at(toks, i) {
            KindView::Number(_) | KindView::Char(_) => None,
            KindView::Dot | KindView::Ident(_) => label_fault(toks, i, g),
            _ => Some(("Expected register, immediate, or label"@, i)),
        }
    }
}

/// Whether `m` names a port transfer.
pub open spec fn port_name(m: Seq<char>) -> bool {
    m == "IN"@ || m == "OUT"@
}

proof fn lemma_port_named_apart()
    ensures
        !port_name("NOP"@),
        !port_name("HALT"@),
        !port_name("RET"@),
        !port_name("IRET"@),
        !port_name("DPL"@),
        !port_name("PUSH"@),
        !port_name("POP"@),
        !port_name("NOT"@),
        !port_name("MOV"@),
        !port_name("ZEXT"@),
        !port_name("SEXT"@),
        !port_name("ADD"@),
        !port_name("SUB"@),
        !port_name("AND"@),
        !port_name("OR"@),
        !port_name("XOR"@),
        !port_name("CMP"@),
        !port_name("MUL"@),
        !port_name("DIV"@),
        !port_name("MOD"@),
        !port_name("SMUL"@),
        !port_name("SDIV"@),
        !port_name("SMOD"@),
        !port_name("SHL"@),
        !port_name("SHR"@),
        !port_name("SAR"@),
        !port_name("ROL"@),
        !port_name("ROR"@),
        !port_name("JMP"@),
        !port_name("JZ"@),
        !port_name("JNZ"@),
        !port_name("JC"@),
        !port_name("JN"@),
        !port_name("JO"@),
        !port_name("JNO"@),
        !port_name("CALL"@),
{
    reveal_strlit("NOP");
    reveal_strlit("HALT");
    reveal_strlit("RET");
    reveal_strlit("IRET");
    reveal_strlit("DPL");
    reveal_strlit("PUSH");
    reveal_strlit("POP");
    reveal_strlit("NOT");
    reveal_strlit("MOV");
    reveal_strlit("ZEXT");
    reveal_strlit("SEXT");
    reveal_strlit("ADD");
    reveal_strlit("SUB");
    reveal_strlit("AND");
    reveal_strlit("OR");
    reveal_strlit("XOR");
    reveal_strlit("CMP");
    reveal_strlit("MUL");
    reveal_strlit("DIV");
    reveal_strlit("MOD");
    reveal_strlit("SMUL");
    reveal_strlit("SDIV");
    reveal_strlit("SMOD");
    reveal_strlit("SHL");
    reveal_strlit("SHR");
    reveal_strlit("SAR");
    reveal_strlit("ROL");
    reveal_strlit("ROR");
    reveal_strlit("JMP");
    reveal_strlit("JZ");
    reveal_strlit("JNZ");
    reveal_strlit("JC");
    reveal_strlit("JN");
    reveal_strlit("JO");
    reveal_strlit("JNO");
    reveal_strlit("CALL");
    reveal_strlit("IN");
    reveal_strlit("OUT");
    assert("NOP"@.len() != "IN"@.len() && "NOP"@[0] != "OUT"@[0]);
    assert("HALT"@.len() != "IN"@.len() && "HALT"@.len() != "OUT"@.len());
    assert("RET"@.len() != "IN"@.len() && "RET"@[0] != "OUT"@[0]);
    assert("IRET"@.len() != "IN"@.len() && "IRET"@.len() != "OUT"@.len());
    assert("DPL"@.len() != "IN"@.len() && "DPL"@[0] != "OUT"@[0]);
    assert("PUSH"@.len() != "IN"@.len() && "PUSH"@.len() != "OUT"@.len());
    assert("POP"@.len() != "IN"@.len() && "POP"@[0] != "OUT"@[0]);
    assert("NOT"@.len() != "IN"@.len() && "NOT"@[0] != "OUT"@[0]);
    assert("MOV"@.len() != "IN"@.len() && "MOV"@[0] != "OUT"@[0]);
    assert("ZEXT"@.len() != "IN"@.len() && "ZEXT"@.len() != "OUT"@.len());
    assert("SEXT"@.len() != "IN"@.len() && "SEXT"@.len() != "OUT"@.len());
    assert("ADD"@.len() != "IN"@.len() && "ADD"@[0] != "OUT"@[0]);
    assert("SUB"@.len() != "IN"@.len() && "SUB"@[0] != "OUT"@[0]);
    assert("AND"@.len() != "IN"@.len() && "AND"@[0] != "OUT"@[0]);
    assert("OR"@[0] != "IN"@[0] && "OR"@.len() != "OUT"@.len());
    assert("XOR"@.len() != "IN"@.len() && "XOR"@[0] != "OUT"@[0]);
    assert("CMP"@.len() != "IN"@.len() && "CMP"@[0] != "OUT"@[0]);
    assert("MUL"@.len() != "IN"@.len() && "MUL"@[0] != "OUT"@[0]);
    assert("DIV"@.len() != "IN"@.len() && "DIV"@[0] != "OUT"@[0]);
    assert("MOD"@.len() != "IN"@.len() && "MOD"@[0] != "OUT"@[0]);
    assert("SMUL"@.len() != "IN"@.len() && "SMUL"@.len() != "OUT"@.len());
    assert("SDIV"@.len() != "IN"@.len() && "SDIV"@.len() != "OUT"@.len());
    assert("SMOD"@.len() != "IN"@.len() && "SMOD"@.len() != "OUT"@.len());
    assert("SHL"@.len() != "IN"@.len() && "SHL"@[0] != "OUT"@[0]);
    assert("SHR"@.len() != "IN"@.len() && "SHR"@[0] != "OUT"@[0]);
    assert("SAR"@.len() != "IN"@.len() && "SAR"@[0] != "OUT"@[0]);
    assert("ROL"@.len() != "IN"@.len() && "ROL"@[0] != "OUT"@[0]);
    assert("ROR"@.len() != "IN"@.len() && "ROR"@[0] != "OUT"@[0]);
    assert("JMP"@.len() != "IN"@.len() && "JMP"@[0] != "OUT"@[0]);
    assert("JZ"@[0] != "IN"@[0] && "JZ"@.len() != "OUT"@.len());
    assert("JNZ"@.len() != "IN"@.len() && "JNZ"@[0] != "OUT"@[0]);
    assert("JC"@[0] != "IN"@[0] && "JC"@.len() != "OUT"@.len());
    assert("JN"@[0] != "IN"@[0] && "JN"@.len() != "OUT"@.len());
    assert("JO"@[0] != "IN"@[0] && "JO"@.len() != "OUT"@.len());
    assert("JNO"@.len() != "IN"@.len() && "JNO"@[0] != "OUT"@[0]);
    assert("CALL"@.len() != "IN"@.len() && "CALL"@.len() != "OUT"@.len());
}

/// Whether `m` names a mapping or an unmapping.
pub open spec fn map_name(m: Seq<char>) -> bool {
    m == "MMAP"@ || m == "MUNMAP"@
}

proof fn lemma_map_named_apart()
    ensures
        !map_name("NOP"@),
        !map_name("HALT"@),
        !map_name("RET"@),
        !map_name("IRET"@),
        !map_name("DPL"@),
        !map_name("PUSH"@),
        !map_name("POP"@),
        !map_name("NOT"@),
        !map_name("MOV"@),
        !map_name("ZEXT"@),
        !map_name("SEXT"@),
        !map_name("ADD"@),
        !map_name("SUB"@),
        !map_name("AND"@),
        !map_name("OR"@),
        !map_name("XOR"@),
        !map_name("CMP"@),
        !map_name("MUL"@),
        !map_name("DIV"@),
        !map_name("MOD"@),
        !map_name("SMUL"@),
        !map_name("SDIV"@),
        !map_name("SMOD"@),
        !map_name("SHL"@),
        !map_name("SHR"@),
        !map_name("SAR"@),
        !map_name("ROL"@),
        !map_name("ROR"@),
        !map_name("JMP"@),
        !map_name("JZ"@),
        !map_name("JNZ"@),
        !map_name("JC"@),
        !map_name("JN"@),
        !map_name("JO"@),
        !map_name("JNO"@),
        !map_name("CALL"@),
        !map_name("IN"@),
        !map_name("OUT"@),
        !map_name("LOAD"@),
        !map_name("STORE"@),
        !map_name("SIE"@),
        !map_name("INT"@),
        !map_name("TUR"@),
        !map_name("TKR"@),
{
    reveal_strlit("NOP");
    reveal_strlit("HALT");
    reveal_strlit("RET");
    reveal_strlit("IRET");
    reveal_strlit("DPL");
    reveal_strlit("PUSH");
    reveal_strlit("POP");
    reveal_strlit("NOT");
    reveal_strlit("MOV");
    reveal_strlit("ZEXT");
    reveal_strlit("SEXT");
    reveal_strlit("ADD");
    reveal_strlit("SUB");
    reveal_strlit("AND");
    reveal_strlit("OR");
    reveal_strlit("XOR");
    reveal_strlit("CMP");
    reveal_strlit("MUL");
    reveal_strlit("DIV");
    reveal_strlit("MOD");
    reveal_strlit("SMUL");
    reveal_strlit("SDIV");
    reveal_strlit("SMOD");
    reveal_strlit("SHL");
    reveal_strlit("SHR");
    reveal_strlit("SAR");
    reveal_strlit("ROL");
    reveal_strlit("ROR");
    reveal_strlit("JMP");
    reveal_strlit("JZ");
    reveal_strlit("JNZ");
    reveal_strlit("JC");
    reveal_strlit("JN");
    reveal_strlit("JO");
    reveal_strlit("JNO");
    reveal_strlit("CALL");
    reveal_strlit("IN");
    reveal_strlit("OUT");
    reveal_strlit("LOAD");
    reveal_strlit("STORE");
    reveal_strlit("SIE");
    reveal_strlit("INT");
    reveal_strlit("TUR");
    reveal_strlit("TKR");
    reveal_strlit("MMAP");
    reveal_strlit("MUNMAP");
    assert("NOP"@.len() != "MMAP"@.len() && "NOP"@.len() != "MUNMAP"@.len());
    assert("HALT"@[0] != "MMAP"@[0] && "HALT"@.len() != "MUNMAP"@.len());
    assert("RET"@.len() != "MMAP"@.len() && "RET"@.len() != "MUNMAP"@.len());
    assert("IRET"@[0] != "MMAP"@[0] && "IRET"@.len() != "MUNMAP"@.len());
    assert("DPL"@.len() != "MMAP"@.len() && "DPL"@.len() != "MUNMAP"@.len());
    assert("PUSH"@[0] != "MMAP"@[0] && "PUSH"@.len() != "MUNMAP"@.len());
    assert("POP"@.len() != "MMAP"@.len() && "POP"@.len() != "MUNMAP"@.len());
    assert("NOT"@.len() != "MMAP"@.len() && "NOT"@.len() != "MUNMAP"@.len());
    assert("MOV"@.len() != "MMAP"@.len() && "MOV"@.len() != "MUNMAP"@.len());
    assert("ZEXT"@[0] != "MMAP"@[0] && "ZEXT"@.len() != "MUNMAP"@.len());
    assert("SEXT"@[0] != "MMAP"@[0] && "SEXT"@.len() != "MUNMAP"@.len());
    assert("ADD"@.len() != "MMAP"@.len() && "ADD"@.len() != "MUNMAP"@.len());
    assert("SUB"@.len() != "MMAP"@.len() && "SUB"@.len() != "MUNMAP"@.len());
    assert("AND"@.len() != "MMAP"@.len() && "AND"@.len() != "MUNMAP"@.len());
    assert("OR"@.len() != "MMAP"@.len() && "OR"@.len() != "MUNMAP"@.len());
    assert("XOR"@.len() != "MMAP"@.len() && "XOR"@.len() != "MUNMAP"@.len());
    assert("CMP"@.len() != "MMAP"@.len() && "CMP"@.len() != "MUNMAP"@.len());
    assert("MUL"@.len() != "MMAP"@.len() && "MUL"@.len() != "MUNMAP"@.len());
    assert("DIV"@.len() != "MMAP"@.len() && "DIV"@.len() != "MUNMAP"@.len());
    assert("MOD"@.len() != "MMAP"@.len() && "MOD"@.len() != "MUNMAP"@.len());
    assert("SMUL"@[0] != "MMAP"@[0] && "SMUL"@.len() != "MUNMAP"@.len());
    assert("SDIV"@[0] != "MMAP"@[0] && "SDIV"@.len() != "MUNMAP"@.len());
    assert("SMOD"@[0] != "MMAP"@[0] && "SMOD"@.len() != "MUNMAP"@.len());
    assert("SHL"@.len() != "MMAP"@.len() && "SHL"@.len() != "MUNMAP"@.len());
    assert("SHR"@.len() != "MMAP"@.len() && "SHR"@.len() != "MUNMAP"@.len());
    assert("SAR"@.len() != "MMAP"@.len() && "SAR"@.len() != "MUNMAP"@.len());
    assert("ROL"@.len() != "MMAP"@.len() && "ROL"@.len() != "MUNMAP"@.len());
    assert("ROR"@.len() != "MMAP"@.len() && "ROR"@.len() != "MUNMAP"@.len());
    assert("JMP"@.len() != "MMAP"@.len() && "JMP"@.len() != "MUNMAP"@.len());
    assert("JZ"@.len() != "MMAP"@.len() && "JZ"@.len() != "MUNMAP"@.len());
    assert("JNZ"@.len() != "MMAP"@.len() && "JNZ"@.len() != "MUNMAP"@.len());
    assert("JC"@.len() != "MMAP"@.len() && "JC"@.len() != "MUNMAP"@.len());
    assert("JN"@.len() != "MMAP"@.len() && "JN"@.len() != "MUNMAP"@.len());
    assert("JO"@.len() != "MMAP"@.len() && "JO"@.len() != "MUNMAP"@.len());
    assert("JNO"@.len() != "MMAP"@.len() && "JNO"@.len() != "MUNMAP"@.len());
    assert("CALL"@[0] != "MMAP"@[0] && "CALL"@.len() != "MUNMAP"@.len());
    assert("IN"@.len() != "MMAP"@.len() && "IN"@.len() != "MUNMAP"@.len());
    assert("OUT"@.len() != "MMAP"@.len() && "OUT"@.len() != "MUNMAP"@.len());
    assert("LOAD"@[0] != "MMAP"@[0] && "LOAD"@.len() != "MUNMAP"@.len());
    assert("STORE"@.len() != "MMAP"@.len() && "STORE"@.len() != "MUNMAP"@.len());
    assert("SIE"@.len() != "MMAP"@.len() && "SIE"@.len() != "MUNMAP"@.len());
    assert("INT"@.len() != "MMAP"@.len() && "INT"@.len() != "MUNMAP"@.len());
    assert("TUR"@.len() != "MMAP"@.len() && "TUR"@.len() != "MUNMAP"@.len());
    assert("TKR"@.len() != "MMAP"@.len() && "TKR"@.len() != "MUNMAP"@.len());
}

/// Whether `m` names a load or a store.
pub open spec fn memory_name(m: Seq<char>) -> bool {
    m == "LOAD"@ || m == "STORE"@
}

proof fn lemma_memory_named_apart()
    ensures
        !memory_name("NOP"@),
        !memory_name("HALT"@),
        !memory_name("RET"@),
        !memory_name("IRET"@),
        !memory_name("DPL"@),
        !memory_name("PUSH"@),
        !memory_name("POP"@),
        !memory_name("NOT"@),
        !memory_name("MOV"@),
        !memory_name("ZEXT"@),
        !memory_name("SEXT"@),
        !memory_name("ADD"@),
        !memory_name("SUB"@),
        !memory_name("AND"@),
        !memory_name("OR"@),
        !memory_name("XOR"@),
        !memory_name("CMP"@),
        !memory_name("MUL"@),
        !memory_name("DIV"@),
        !memory_name("MOD"@),
        !memory_name("SMUL"@),
        !memory_name("SDIV"@),
        !memory_name("SMOD"@),
        !memory_name("SHL"@),
        !memory_name("SHR"@),
        !memory_name("SAR"@),
        !memory_name("ROL"@),
        !memory_name("ROR"@),
        !memory_name("JMP"@),
        !memory_name("JZ"@),
        !memory_name("JNZ"@),
        !memory_name("JC"@),
        !memory_name("JN"@),
        !memory_name("JO"@),
        !memory_name("JNO"@),
        !memory_name("CALL"@),
        !memory_name("IN"@),
        !memory_name("OUT"@),
{
    reveal_strlit("NOP");
    reveal_strlit("HALT");
    reveal_strlit("RET");
    reveal_strlit("IRET");
    reveal_strlit("DPL");
    reveal_strlit("PUSH");
    reveal_strlit("POP");
    reveal_strlit("NOT");
    reveal_strlit("MOV");
    reveal_strlit("ZEXT");
    reveal_strlit("SEXT");
    reveal_strlit("ADD");
    reveal_strlit("SUB");
    reveal_strlit("AND");
    reveal_strlit("OR");
    reveal_strlit("XOR");
    reveal_strlit("CMP");
    reveal_strlit("MUL");
    reveal_strlit("DIV");
    reveal_strlit("MOD");
    reveal_strlit("SMUL");
    reveal_strlit("SDIV");
    reveal_strlit("SMOD");
    reveal_strlit("SHL");
    reveal_strlit("SHR");
    reveal_strlit("SAR");
    reveal_strlit("ROL");
    reveal_strlit("ROR");
    reveal_strlit("JMP");
    reveal_strlit("JZ");
    reveal_strlit("JNZ");
    reveal_strlit("JC");
    reveal_strlit("JN");
    reveal_strlit("JO");
    reveal_strlit("JNO");
    reveal_strlit("CALL");
    reveal_strlit("IN");
    reveal_strlit("OUT");
    reveal_strlit("LOAD");
    reveal_strlit("STORE");
    assert("NOP"@.len() != "LOAD"@.len() && "NOP"@.len() != "STORE"@.len());
    assert("HALT"@[0] != "LOAD"@[0] && "HALT"@.len() != "STORE"@.len());
    assert("RET"@.len() != "LOAD"@.len() && "RET"@.len() != "STORE"@.len());
    assert("IRET"@[0] != "LOAD"@[0] && "IRET"@.len() != "STORE"@.len());
    assert("DPL"@.len() != "LOAD"@.len() && "DPL"@.len() != "STORE"@.len());
    assert("PUSH"@[0] != "LOAD"@[0] && "PUSH"@.len() != "STORE"@.len());
    assert("POP"@.len() != "LOAD"@.len() && "POP"@.len() != "STORE"@.len());
    assert("NOT"@.len() != "LOAD"@.len() && "NOT"@.len() != "STORE"@.len());
    assert("MOV"@.len() != "LOAD"@.len() && "MOV"@.len() != "STORE"@.len());
    assert("ZEXT"@[0] != "LOAD"@[0] && "ZEXT"@.len() != "STORE"@.len());
    assert("SEXT"@[0] != "LOAD"@[0] && "SEXT"@.len() != "STORE"@.len());
    assert("ADD"@.len() != "LOAD"@.len() && "ADD"@.len() != "STORE"@.len());
    assert("SUB"@.len() != "LOAD"@.len() && "SUB"@.len() != "STORE"@.len());
    assert("AND"@.len() != "LOAD"@.len() && "AND"@.len() != "STORE"@.len());
    assert("OR"@.len() != "LOAD"@.len() && "OR"@.len() != "STORE"@.len());
    assert("XOR"@.len() != "LOAD"@.len() && "XOR"@.len() != "STORE"@.len());
    assert("CMP"@.len() != "LOAD"@.len() && "CMP"@.len() != "STORE"@.len());
    assert("MUL"@.len() != "LOAD"@.len() && "MUL"@.len() != "STORE"@.len());
    assert("DIV"@.len() != "LOAD"@.len() && "DIV"@.len() != "STORE"@.len());
    assert("MOD"@.len() != "LOAD"@.len() && "MOD"@.len() != "STORE"@.len());
    assert("SMUL"@[0] != "LOAD"@[0] && "SMUL"@.len() != "STORE"@.len());
    assert("SDIV"@[0] != "LOAD"@[0] && "SDIV"@.len() != "STORE"@.len());
    assert("SMOD"@[0] != "LOAD"@[0] && "SMOD"@.len() != "STORE"@.len());
    assert("SHL"@.len() != "LOAD"@.len() && "SHL"@.len() != "STORE"@.len());
    assert("SHR"@.len() != "LOAD"@.len() && "SHR"@.len() != "STORE"@.len());
    assert("SAR"@.len() != "LOAD"@.len() && "SAR"@.len() != "STORE"@.len());
    assert("ROL"@.len() != "LOAD"@.len() && "ROL"@.len() != "STORE"@.len());
    assert("ROR"@.len() != "LOAD"@.len() && "ROR"@.len() != "STORE"@.len());
    assert("JMP"@.len() != "LOAD"@.len() && "JMP"@.len() != "STORE"@.len());
    assert("JZ"@.len() != "LOAD"@.len() && "JZ"@.len() != "STORE"@.len());
    assert("JNZ"@.len() != "LOAD"@.len() && "JNZ"@.len() != "STORE"@.len());
    assert("JC"@.len() != "LOAD"@.len() && "JC"@.len() != "STORE"@.len());
    assert("JN"@.len() != "LOAD"@.len() && "JN"@.len() != "STORE"@.len());
    assert("JO"@.len() != "LOAD"@.len() && "JO"@.len() != "STORE"@.len());
    assert("JNO"@.len() != "LOAD"@.len() && "JNO"@.len() != "STORE"@.len());
    assert("CALL"@[0] != "LOAD"@[0] && "CALL"@.len() != "STORE"@.len());
    assert("IN"@.len() != "LOAD"@.len() && "IN"@.len() != "STORE"@.len());
    assert("OUT"@.len() != "LOAD"@.len() && "OUT"@.len() != "STORE"@.len());
}

/// Whether `m` names a shift or rotation.
pub open spec fn shift_name(m: Seq<char>) -> bool {
    m == "SHL"@ || m == "SHR"@ || m == "SAR"@ || m == "ROL"@ || m == "ROR"@
}

proof fn lemma_shift_named_apart()
    ensures
        !shift_name("ADD"@),
        !shift_name("SUB"@),
        !shift_name("AND"@),
        !shift_name("OR"@),
        !shift_name("XOR"@),
        !shift_name("CMP"@),
        !shift_name("MUL"@),
        !shift_name("DIV"@),
        !shift_name("MOD"@),
        !shift_name("SMUL"@),
        !shift_name("SDIV"@),
        !shift_name("SMOD"@),
        !shift_name("NOP"@),
        !shift_name("HALT"@),
        !shift_name("RET"@),
        !shift_name("IRET"@),
        !shift_name("DPL"@),
        !shift_name("PUSH"@),
        !shift_name("POP"@),
        !shift_name("NOT"@),
        !shift_name("MOV"@),
        !shift_name("ZEXT"@),
        !shift_name("SEXT"@),
{
    reveal_strlit("NOP");
    reveal_strlit("HALT");
    reveal_strlit("RET");
    reveal_strlit("IRET");
    reveal_strlit("DPL");
    reveal_strlit("PUSH");
    reveal_strlit("POP");
    reveal_strlit("NOT");
    reveal_strlit("MOV");
    reveal_strlit("ZEXT");
    reveal_strlit("SEXT");
    reveal_strlit("SHL");
    reveal_strlit("ROL");
    reveal_strlit("ROR");
    assert("NOP"@[0] != "SHL"@[0] && "NOP"@[0] != "ROL"@[0]);
    assert("RET"@[0] != "SHL"@[0] && "RET"@[1] != "ROL"@[1] && "RET"@[1] != "ROR"@[1]);
    assert("DPL"@[0] != "SHL"@[0] && "DPL"@[0] != "ROL"@[0]);
    assert("POP"@[0] != "SHL"@[0] && "POP"@[0] != "ROL"@[0]);
    assert("NOT"@[0] != "SHL"@[0] && "NOT"@[0] != "ROL"@[0]);
    assert("MOV"@[0] != "SHL"@[0] && "MOV"@[0] != "ROL"@[0]);
    assert("HALT"@.len() != "SHL"@.len() && "IRET"@.len() != "SHL"@.len() && "PUSH"@.len() != "SHL"@.len());
    assert("ZEXT"@.len() != "SHL"@.len() && "SEXT"@.len() != "SHL"@.len());
    reveal_strlit("ADD");
    reveal_strlit("SUB");
    reveal_strlit("AND");
    reveal_strlit("OR");
    reveal_strlit("XOR");
    reveal_strlit("CMP");
    reveal_strlit("MUL");
    reveal_strlit("DIV");
    reveal_strlit("MOD");
    reveal_strlit("SMUL");
    reveal_strlit("SDIV");
    reveal_strlit("SMOD");
    reveal_strlit("SHL");
    reveal_strlit("SHR");
    reveal_strlit("SAR");
    reveal_strlit("ROL");
    reveal_strlit("ROR");
    assert("ADD"@[0] != "SHL"@[0] && "ADD"@[0] != "SHR"@[0] && "ADD"@[0] != "SAR"@[0] && "ADD"@[0] != "ROL"@[0] && "ADD"@[0] != "ROR"@[0]);
    assert("SUB"@[1] != "SHL"@[1] && "SUB"@[1] != "SHR"@[1] && "SUB"@[1] != "SAR"@[1] && "SUB"@[0] != "ROL"@[0] && "SUB"@[0] != "ROR"@[0]);
    assert("AND"@[0] != "SHL"@[0] && "AND"@[0] != "SHR"@[0] && "AND"@[0] != "SAR"@[0] && "AND"@[0] != "ROL"@[0] && "AND"@[0] != "ROR"@[0]);
    assert("OR"@.len() != "SHL"@.len() && "OR"@.len() != "ROL"@.len());
    assert("XOR"@[0] != "SHL"@[0] && "XOR"@[0] != "ROL"@[0]);
    assert("CMP"@[0] != "SHL"@[0] && "CMP"@[0] != "ROL"@[0]);
    assert("MUL"@[0] != "SHL"@[0] && "MUL"@[0] != "ROL"@[0]);
    assert("DIV"@[0] != "SHL"@[0] && "DIV"@[0] != "ROL"@[0]);
    assert("MOD"@[0] != "SHL"@[0] && "MOD"@[0] != "ROL"@[0]);
    assert("SMUL"@.len() != "SHL"@.len());
    assert("SDIV"@.len() != "SHL"@.len());
    assert("SMOD"@.len() != "SHL"@.len());
    assert("SHL"@.len() == "SHR"@.len() && "SHL"@.len() == "SAR"@.len() && "SHL"@.len() == "ROL"@.len() && "SHL"@.len() == "ROR"@.len());
}

/// Whether `m` names a zero or sign extension.
pub open spec fn extend_name(m: Seq<char>) -> bool {
    m == "ZEXT"@ || m == "SEXT"@
}

proof fn lemma_extend_named_apart()
    ensures
        !extend_name("NOP"@),
        !extend_name("HALT"@),
        !extend_name("RET"@),
        !extend_name("IRET"@),
        !extend_name("DPL"@),
        !extend_name("PUSH"@),
        !extend_name("POP"@),
        !extend_name("NOT"@),
        !extend_name("MOV"@),
{
    reveal_strlit("NOP");
    reveal_strlit("HALT");
    reveal_strlit("RET");
    reveal_strlit("IRET");
    reveal_strlit("DPL");
    reveal_strlit("PUSH");
    reveal_strlit("POP");
    reveal_strlit("NOT");
    reveal_strlit("MOV");
    reveal_strlit("ZEXT");
    reveal_strlit("SEXT");
    assert("HALT"@[0] != "ZEXT"@[0] && "HALT"@[0] != "SEXT"@[0]);
    assert("IRET"@[0] != "ZEXT"@[0] && "IRET"@[0] != "SEXT"@[0]);
    assert("PUSH"@[0] != "ZEXT"@[0] && "PUSH"@[0] != "SEXT"@[0]);
    assert("NOP"@.len() != "ZEXT"@.len());
    assert("RET"@.len() != "ZEXT"@.len());
    assert("DPL"@.len() != "ZEXT"@.len());
    assert("POP"@.len() != "ZEXT"@.len());
    assert("NOT"@.len() != "ZEXT"@.len());
    assert("MOV"@.len() != "ZEXT"@.len());
    assert("ZEXT"@.len() == "SEXT"@.len());
}

proof fn lemma_one_reg_named_apart()
    ensures
        !one_reg_name("NOP"@),
        !one_reg_name("HALT"@),
        !one_reg_name("RET"@),
        !one_reg_name("IRET"@),
        !one_reg_name("DPL"@),
{
    reveal_strlit("NOP");
    reveal_strlit("HALT");
    reveal_strlit("RET");
    reveal_strlit("IRET");
    reveal_strlit("DPL");
    reveal_strlit("PUSH");
    reveal_strlit("POP");
    reveal_strlit("NOT");
    assert("NOP"@.len() != "PUSH"@.len());
    assert("NOP"@[0] != "POP"@[0]);
    assert("NOP"@[2] != "NOT"@[2]);
    assert("HALT"@[0] != "PUSH"@[0]);
    assert("HALT"@.len() != "POP"@.len());
    assert("HALT"@.len() != "NOT"@.len());
    assert("RET"@.len() != "PUSH"@.len());
    assert("RET"@[0] != "POP"@[0]);
    assert("RET"@[0] != "NOT"@[0]);
    assert("IRET"@[0] != "PUSH"@[0]);
    assert("IRET"@.len() != "POP"@.len());
    assert("IRET"@.len() != "NOT"@.len());
    assert("DPL"@.len() != "PUSH"@.len());
    assert("DPL"@[0] != "POP"@[0]);
    assert("DPL"@[0] != "NOT"@[0]);
}

proof fn lemma_jump_named_apart()
    ensures
        !jump_name("NOP"@),
        !jump_name("HALT"@),
        !jump_name("RET"@),
        !jump_name("IRET"@),
        !jump_name("DPL"@),
        !jump_name("PUSH"@),
        !jump_name("POP"@),
        !jump_name("NOT"@),
        !jump_name("MOV"@),
        !jump_name("ZEXT"@),
        !jump_name("SEXT"@),
        !jump_name("ADD"@),
        !jump_name("SUB"@),
        !jump_name("AND"@),
        !jump_name("OR"@),
        !jump_name("XOR"@),
        !jump_name("CMP"@),
        !jump_name("MUL"@),
        !jump_name("DIV"@),
        !jump_name("MOD"@),
        !jump_name("SMUL"@),
        !jump_name("SDIV"@),
        !jump_name("SMOD"@),
        !jump_name("SHL"@),
        !jump_name("SHR"@),
        !jump_name("SAR"@),
        !jump_name("ROL"@),
        !jump_name("ROR"@),
{
    reveal_strlit("NOP");
    reveal_strlit("HALT");
    reveal_strlit("RET");
    reveal_strlit("IRET");
    reveal_strlit("DPL");
    reveal_strlit("PUSH");
    reveal_strlit("POP");
    reveal_strlit("NOT");
    reveal_strlit("MOV");
    reveal_strlit("ZEXT");
    reveal_strlit("SEXT");
    reveal_strlit("ADD");
    reveal_strlit("SUB");
    reveal_strlit("AND");
    reveal_strlit("OR");
    reveal_strlit("XOR");
    reveal_strlit("CMP");
    reveal_strlit("MUL");
    reveal_strlit("DIV");
    reveal_strlit("MOD");
    reveal_strlit("SMUL");
    reveal_strlit("SDIV");
    reveal_strlit("SMOD");
    reveal_strlit("SHL");
    reveal_strlit("SHR");
    reveal_strlit("SAR");
    reveal_strlit("ROL");
    reveal_strlit("ROR");
    reveal_strlit("JMP");
    reveal_strlit("JZ");
    reveal_strlit("JNZ");
    reveal_strlit("JC");
    reveal_strlit("JN");
    reveal_strlit("JO");
    reveal_strlit("JNO");
    reveal_strlit("CALL");
    assert("NOP"@[0] != "JMP"@[0]);
    assert("NOP"@.len() != "JZ"@.len());
    assert("NOP"@[0] != "JNZ"@[0]);
    assert("NOP"@.len() != "JC"@.len());
    assert("NOP"@.len() != "JN"@.len());
    assert("NOP"@.len() != "JO"@.len());
    assert("NOP"@[0] != "JNO"@[0]);
    assert("NOP"@.len() != "CALL"@.len());
    assert("HALT"@.len() != "JMP"@.len());
    assert("HALT"@.len() != "JZ"@.len());
    assert("HALT"@.len() != "JNZ"@.len());
    assert("HALT"@.len() != "JC"@.len());
    assert("HALT"@.len() != "JN"@.len());
    assert("HALT"@.len() != "JO"@.len());
    assert("HALT"@.len() != "JNO"@.len());
    assert("HALT"@[0] != "CALL"@[0]);
    assert("RET"@[0] != "JMP"@[0]);
    assert("RET"@.len() != "JZ"@.len());
    assert("RET"@[0] != "JNZ"@[0]);
    assert("RET"@.len() != "JC"@.len());
    assert("RET"@.len() != "JN"@.len());
    assert("RET"@.len() != "JO"@.len());
    assert("RET"@[0] != "JNO"@[0]);
    assert("RET"@.len() != "CALL"@.len());
    assert("IRET"@.len() != "JMP"@.len());
    assert("IRET"@.len() != "JZ"@.len());
    assert("IRET"@.len() != "JNZ"@.len());
    assert("IRET"@.len() != "JC"@.len());
    assert("IRET"@.len() != "JN"@.len());
    assert("IRET"@.len() != "JO"@.len());
    assert("IRET"@.len() != "JNO"@.len());
    assert("IRET"@[0] != "CALL"@[0]);
    assert("DPL"@[0] != "JMP"@[0]);
    assert("DPL"@.len() != "JZ"@.len());
    assert("DPL"@[0] != "JNZ"@[0]);
    assert("DPL"@.len() != "JC"@.len());
    assert("DPL"@.len() != "JN"@.len());
    assert("DPL"@.len() != "JO"@.len());
    assert("DPL"@[0] != "JNO"@[0]);
    assert("DPL"@.len() != "CALL"@.len());
    assert("PUSH"@.len() != "JMP"@.len());
    assert("PUSH"@.len() != "JZ"@.len());
    assert("PUSH"@.len() != "JNZ"@.len());
    assert("PUSH"@.len() != "JC"@.len());
    assert("PUSH"@.len() != "JN"@.len());
    assert("PUSH"@.len() != "JO"@.len());
    assert("PUSH"@.len() != "JNO"@.len());
    assert("PUSH"@[0] != "CALL"@[0]);
    assert("POP"@[0] != "JMP"@[0]);
    assert("POP"@.len() != "JZ"@.len());
    assert("POP"@[0] != "JNZ"@[0]);
    assert("POP"@.len() != "JC"@.len());
    assert("POP"@.len() != "JN"@.len());
    assert("POP"@.len() != "JO"@.len());
    assert("POP"@[0] != "JNO"@[0]);
    assert("POP"@.len() != "CALL"@.len());
    assert("NOT"@[0] != "JMP"@[0]);
    assert("NOT"@.len() != "JZ"@.len());
    assert("NOT"@[0] != "JNZ"@[0]);
    assert("NOT"@.len() != "JC"@.len());
    assert("NOT"@.len() != "JN"@.len());
    assert("NOT"@.len() != "JO"@.len());
    assert("NOT"@[0] != "JNO"@[0]);
    assert("NOT"@.len() != "CALL"@.len());
    assert("MOV"@[0] != "JMP"@[0]);
    assert("MOV"@.len() != "JZ"@.len());
    assert("MOV"@[0] != "JNZ"@[0]);
    assert("MOV"@.len() != "JC"@.len());
    assert("MOV"@.len() != "JN"@.len());
    assert("MOV"@.len() != "JO"@.len());
    assert("MOV"@[0] != "JNO"@[0]);
    assert("MOV"@.len() != "CALL"@.len());
    assert("ZEXT"@.len() != "JMP"@.len());
    assert("ZEXT"@.len() != "JZ"@.len());
    assert("ZEXT"@.len() != "JNZ"@.len());
    assert("ZEXT"@.len() != "JC"@.len());
    assert("ZEXT"@.len() != "JN"@.len());
    assert("ZEXT"@.len() != "JO"@.len());
    assert("ZEXT"@.len() != "JNO"@.len());
    assert("ZEXT"@[0] != "CALL"@[0]);
    assert("SEXT"@.len() != "JMP"@.len());
    assert("SEXT"@.len() != "JZ"@.len());
    assert("SEXT"@.len() != "JNZ"@.len());
    assert("SEXT"@.len() != "JC"@.len());
    assert("SEXT"@.len() != "JN"@.len());
    assert("SEXT"@.len() != "JO"@.len());
    assert("SEXT"@.len() != "JNO"@.len());
    assert("SEXT"@[0] != "CALL"@[0]);
    assert("ADD"@[0] != "JMP"@[0]);
    assert("ADD"@.len() != "JZ"@.len());
    assert("ADD"@[0] != "JNZ"@[0]);
    assert("ADD"@.len() != "JC"@.len());
    assert("ADD"@.len() != "JN"@.len());
    assert("ADD"@.len() != "JO"@.len());
    assert("ADD"@[0] != "JNO"@[0]);
    assert("ADD"@.len() != "CALL"@.len());
    assert("SUB"@[0] != "JMP"@[0]);
    assert("SUB"@.len() != "JZ"@.len());
    assert("SUB"@[0] != "JNZ"@[0]);
    assert("SUB"@.len() != "JC"@.len());
    assert("SUB"@.len() != "JN"@.len());
    assert("SUB"@.len() != "JO"@.len());
    assert("SUB"@[0] != "JNO"@[0]);
    assert("SUB"@.len() != "CALL"@.len());
    assert("AND"@[0] != "JMP"@[0]);
    assert("AND"@.len() != "JZ"@.len());
    assert("AND"@[0] != "JNZ"@[0]);
    assert("AND"@.len() != "JC"@.len());
    assert("AND"@.len() != "JN"@.len());
    assert("AND"@.len() != "JO"@.len());
    assert("AND"@[0] != "JNO"@[0]);
    assert("AND"@.len() != "CALL"@.len());
    assert("OR"@.len() != "JMP"@.len());
    assert("OR"@[0] != "JZ"@[0]);
    assert("OR"@.len() != "JNZ"@.len());
    assert("OR"@[0] != "JC"@[0]);
    assert("OR"@[0] != "JN"@[0]);
    assert("OR"@[0] != "JO"@[0]);
    assert("OR"@.len() != "JNO"@.len());
    assert("OR"@.len() != "CALL"@.len());
    assert("XOR"@[0] != "JMP"@[0]);
    assert("XOR"@.len() != "JZ"@.len());
    assert("XOR"@[0] != "JNZ"@[0]);
    assert("XOR"@.len() != "JC"@.len());
    assert("XOR"@.len() != "JN"@.len());
    assert("XOR"@.len() != "JO"@.len());
    assert("XOR"@[0] != "JNO"@[0]);
    assert("XOR"@.len() != "CALL"@.len());
    assert("CMP"@[0] != "JMP"@[0]);
    assert("CMP"@.len() != "JZ"@.len());
    assert("CMP"@[0] != "JNZ"@[0]);
    assert("CMP"@.len() != "JC"@.len());
    assert("CMP"@.len() != "JN"@.len());
    assert("CMP"@.len() != "JO"@.len());
    assert("CMP"@[0] != "JNO"@[0]);
    assert("CMP"@.len() != "CALL"@.len());
    assert("MUL"@[0] != "JMP"@[0]);
    assert("MUL"@.len() != "JZ"@.len());
    assert("MUL"@[0] != "JNZ"@[0]);
    assert("MUL"@.len() != "JC"@.len());
    assert("MUL"@.len() != "JN"@.len());
    assert("MUL"@.len() != "JO"@.len());
    assert("MUL"@[0] != "JNO"@[0]);
    assert("MUL"@.len() != "CALL"@.len());
    assert("DIV"@[0] != "JMP"@[0]);
    assert("DIV"@.len() != "JZ"@.len());
    assert("DIV"@[0] != "JNZ"@[0]);
    assert("DIV"@.len() != "JC"@.len());
    assert("DIV"@.len() != "JN"@.len());
    assert("DIV"@.len() != "JO"@.len());
    assert("DIV"@[0] != "JNO"@[0]);
    assert("DIV"@.len() != "CALL"@.len());
    assert("MOD"@[0] != "JMP"@[0]);
    assert("MOD"@.len() != "JZ"@.len());
    assert("MOD"@[0] != "JNZ"@[0]);
    assert("MOD"@.len() != "JC"@.len());
    assert("MOD"@.len() != "JN"@.len());
    assert("MOD"@.len() != "JO"@.len());
    assert("MOD"@[0] != "JNO"@[0]);
    assert("MOD"@.len() != "CALL"@.len());
    assert("SMUL"@.len() != "JMP"@.len());
    assert("SMUL"@.len() != "JZ"@.len());
    assert("SMUL"@.len() != "JNZ"@.len());
    assert("SMUL"@.len() != "JC"@.len());
    assert("SMUL"@.len() != "JN"@.len());
    assert("SMUL"@.len() != "JO"@.len());
    assert("SMUL"@.len() != "JNO"@.len());
    assert("SMUL"@[0] != "CALL"@[0]);
    assert("SDIV"@.len() != "JMP"@.len());
    assert("SDIV"@.len() != "JZ"@.len());
    assert("SDIV"@.len() != "JNZ"@.len());
    assert("SDIV"@.len() != "JC"@.len());
    assert("SDIV"@.len() != "JN"@.len());
    assert("SDIV"@.len() != "JO"@.len());
    assert("SDIV"@.len() != "JNO"@.len());
    assert("SDIV"@[0] != "CALL"@[0]);
    assert("SMOD"@.len() != "JMP"@.len());
    assert("SMOD"@.len() != "JZ"@.len());
    assert("SMOD"@.len() != "JNZ"@.len());
    assert("SMOD"@.len() != "JC"@.len());
    assert("SMOD"@.len() != "JN"@.len());
    assert("SMOD"@.len() != "JO"@.len());
    assert("SMOD"@.len() != "JNO"@.len());
    assert("SMOD"@[0] != "CALL"@[0]);
    assert("SHL"@[0] != "JMP"@[0]);
    assert("SHL"@.len() != "JZ"@.len());
    assert("SHL"@[0] != "JNZ"@[0]);
    assert("SHL"@.len() != "JC"@.len());
    assert("SHL"@.len() != "JN"@.len());
    assert("SHL"@.len() != "JO"@.len());
    assert("SHL"@[0] != "JNO"@[0]);
    assert("SHL"@.len() != "CALL"@.len());
    assert("SHR"@[0] != "JMP"@[0]);
    assert("SHR"@.len() != "JZ"@.len());
    assert("SHR"@[0] != "JNZ"@[0]);
    assert("SHR"@.len() != "JC"@.len());
    assert("SHR"@.len() != "JN"@.len());
    assert("SHR"@.len() != "JO"@.len());
    assert("SHR"@[0] != "JNO"@[0]);
    assert("SHR"@.len() != "CALL"@.len());
    assert("SAR"@[0] != "JMP"@[0]);
    assert("SAR"@.len() != "JZ"@.len());
    assert("SAR"@[0] != "JNZ"@[0]);
    assert("SAR"@.len() != "JC"@.len());
    assert("SAR"@.len() != "JN"@.len());
    assert("SAR"@.len() != "JO"@.len());
    assert("SAR"@[0] != "JNO"@[0]);
    assert("SAR"@.len() != "CALL"@.len());
    assert("ROL"@[0] != "JMP"@[0]);
    assert("ROL"@.len() != "JZ"@.len());
    assert("ROL"@[0] != "JNZ"@[0]);
    assert("ROL"@.len() != "JC"@.len());
    assert("ROL"@.len() != "JN"@.len());
    assert("ROL"@.len() != "JO"@.len());
    assert("ROL"@[0] != "JNO"@[0]);
    assert("ROL"@.len() != "CALL"@.len());
    assert("ROR"@[0] != "JMP"@[0]);
    assert("ROR"@.len() != "JZ"@.len());
    assert("ROR"@[0] != "JNZ"@[0]);
    assert("ROR"@.len() != "JC"@.len());
    assert("ROR"@.len() != "JN"@.len());
    assert("ROR"@.len() != "JO"@.len());
    assert("ROR"@[0] != "JNO"@[0]);
    assert("ROR"@.len() != "CALL"@.len());
}

/// Parses the operands of the instruction named `mnemonic` (its token already consumed).
/// An unknown mnemonic is a parse error at the mnemonic's location.
#[verifier::rlimit(100)]
#[verifier::spinoff_prover]
pub fn parse_instruction(parser: &mut Parser, mnemonic: &str, file: FileId, span: Range<usize>) -> (r:
    Result<ParsedInstruction>)
    requires
        old(parser).wf(),
        token_loc(old(parser).tokens@, file, span.start as int, span.end as int),
    ensures
        keeps(*old(parser), *final(parser)),
        parsed_as(r, mnemonic@),
        inst_parsed(r, *final(parser), instruction_syntax(mnemonic@, old(parser).tokens@, old(parser).pos as int, scope_of(*old(parser)))),
        !is_mnemonic(mnemonic@) ==> (r matches Err(e) && e.is_parse_at(
            file,
            span.start as int,
            span.end as int,
        )),
        !is_mnemonic(mnemonic@) ==> (r matches Err(e) && e.located() == Some((ErrorKind::Parse, file, span.start as int,
            span.end as int, "Unknown mnemonic: "@ + mnemonic@))),
        mnemonic@ == "MOV"@ ==> (mov_fault(old(parser).tokens@, old(parser).pos as int, scope_of(*old(parser))) matches Some((m, k))
            ==> (r matches Err(e) && tok_error(e, old(parser).tokens@, k, m))),
        alu_name(mnemonic@) ==> (alu_fault(mnemonic@, old(parser).tokens@, old(parser).pos as int, scope_of(*old(parser))) matches Some((m, k))
            ==> (r matches Err(e) && tok_error(e, old(parser).tokens@, k, m))),
        one_reg_name(mnemonic@) ==> (reg_at(old(parser).tokens@, old(parser).pos as int) is None ==> (r matches Err(e)
            && tok_error(e, old(parser).tokens@, old(parser).pos as int, mnemonic@ + " expects a register"@))),
        extend_name(mnemonic@) ==> (extend_fault(mnemonic@, old(parser).tokens@, old(parser).pos as int) matches Some((m, k))
            ==> (r matches Err(e) && tok_error(e, old(parser).tokens@, k, m))),
        shift_name(mnemonic@) ==> (shift_fault(mnemonic@, old(parser).tokens@, old(parser).pos as int) matches Some((m, k))
            ==> (r matches Err(e) && tok_error(e, old(parser).tokens@, k, m))),
        port_name(mnemonic@) ==> ((if mnemonic@ == "IN"@ { in_fault(old(parser).tokens@, old(parser).pos as int) }
            else { out_fault(old(parser).tokens@, old(parser).pos as int) }) matches Some((m, k))
            ==> (r matches Err(e) && tok_error(e, old(parser).tokens@, k, m))),
        map_name(mnemonic@) ==> ((if mnemonic@ == "MMAP"@ { mmap_fault(old(parser).tokens@, old(parser).pos as int) }
            else { munmap_fault(old(parser).tokens@, old(parser).pos as int) }) matches Some((m, k))
            ==> (r matches Err(e) && tok_error(e, old(parser).tokens@, k, m))),
        memory_name(mnemonic@) ==> ((if mnemonic@ == "LOAD"@ { load_fault(old(parser).tokens@, old(parser).pos as int) }
            else { store_fault(old(parser).tokens@, old(parser).pos as int) }) matches Some((m, k))
            ==> (r matches Err(e) && tok_error(e, old(parser).tokens@, k, m))),
        jump_name(mnemonic@) ==> (reg_or_imm_fault(old(parser).tokens@, old(parser).pos as int, scope_of(*old(parser))) matches Some((m, k))
            ==> (r matches Err(e) && tok_error(e, old(parser).tokens@, k, m))),
{
    proof {
        lemma_mov_named_apart();
        lemma_alu_named_apart();
        lemma_one_reg_named_apart();
        lemma_jump_named_apart();
        lemma_extend_named_apart();
        lemma_shift_named_apart();
        lemma_memory_named_apart();
        lemma_port_named_apart();
        lemma_map_named_apart();
    }
    if str_eq(mnemonic, "NOP") {
        proof {
            assert(Op::Nop.mnemonic() == mnemonic@);
        }
        Ok(inst0(Op::Nop))
    }     else if str_eq(mnemonic, "HALT") {
        proof {
            assert(Op::Halt.mnemonic() == mnemonic@);
        }
        Ok(inst0(Op::Halt))
    }     else if str_eq(mnemonic, "RET") {
        proof {
            assert(Op::Ret.mnemonic() == mnemonic@);
        }
        Ok(inst0(Op::Ret))
    }     else if str_eq(mnemonic, "IRET") {
        proof {
            assert(Op::Iret.mnemonic() == mnemonic@);
        }
        Ok(inst0(Op::Iret))
    }     else if str_eq(mnemonic, "DPL") {
        proof {
            assert(Op::Dpl.mnemonic() == mnemonic@);
        }
        Ok(inst0(Op::Dpl))
    }     else if str_eq(mnemonic, "PUSH") {
        proof {
            assert(Op::Push.mnemonic() == mnemonic@);
            reveal_strlit("PUSH");
            reveal_strlit(" expects a register");
            reveal_strlit("PUSH expects a register");
            assert("PUSH expects a register"@ =~= "PUSH"@ + " expects a register"@);
        }
        parse_one_reg(parser, Op::Push, "PUSH expects a register")
    }     else if str_eq(mnemonic, "POP") {
        proof {
            assert(Op::Pop.mnemonic() == mnemonic@);
            reveal_strlit("POP");
            reveal_strlit(" expects a register");
            reveal_strlit("POP expects a register");
            assert("POP expects a register"@ =~= "POP"@ + " expects a register"@);
        }
        parse_one_reg(parser, Op::Pop, "POP expects a register")
    }     else if str_eq(mnemonic, "NOT") {
        proof {
            assert(Op::Not.mnemonic() == mnemonic@);
            reveal_strlit("NOT");
            reveal_strlit(" expects a register");
            reveal_strlit("NOT expects a register");
            assert("NOT expects a register"@ =~= "NOT"@ + " expects a register"@);
        }
        parse_one_reg(parser, Op::Not, "NOT expects a register")
    }     else if str_eq(mnemonic, "MOV") {
        proof {
            assert(Op::MovRegReg.mnemonic() == mnemonic@);
        }
        parse_mov(parser)
    }     else if str_eq(mnemonic, "ZEXT") {
        proof {
            assert(Op::ZeroExtend.mnemonic() == mnemonic@);
        }
        parse_extend(parser, Op::ZeroExtend, "ZEXT")
    }     else if str_eq(mnemonic, "SEXT") {
        proof {
            assert(Op::SignExtend.mnemonic() == mnemonic@);
        }
        parse_extend(parser, Op::SignExtend, "SEXT")
    } else {
        parse_other(parser, mnemonic, file, span)
    }
}

/// Whether `m` names one of the operations `parse_instruction` parses before the
/// arithmetic ones.
pub open spec fn early_name(m: Seq<char>) -> bool {
    ||| m == "NOP"@
    ||| m == "HALT"@
    ||| m == "RET"@
    ||| m == "IRET"@
    ||| m == "DPL"@
    ||| one_reg_name(m)
    ||| m == "MOV"@
    ||| extend_name(m)
}

#[verifier::rlimit(100)]
#[verifier::spinoff_prover]
fn parse_other(parser: &mut Parser, mnemonic: &str, file: FileId, span: Range<usize>) -> (r:
    Result<ParsedInstruction>)
    requires
        old(parser).wf(),
        token_loc(old(parser).tokens@, file, span.start as int, span.end as int),
        !early_name(mnemonic@),
    ensures
        keeps(*old(parser), *final(parser)),
        parsed_as(r, mnemonic@),
        inst_parsed(r, *final(parser), instruction_syntax(mnemonic@, old(parser).tokens@, old(parser).pos as int, scope_of(*old(parser)))),
        !is_mnemonic(mnemonic@) ==> (r matches Err(e) && e.is_parse_at(
            file,
            span.start as int,
            span.end as int,
        )),
        !is_mnemonic(mnemonic@) ==> (r matches Err(e) && e.located() == Some((ErrorKind::Parse, file, span.start as int,
            span.end as int, "Unknown mnemonic: "@ + mnemonic@))),
        alu_name(mnemonic@) ==> (alu_fault(mnemonic@, old(parser).tokens@, old(parser).pos as int, scope_of(*old(parser))) matches Some((m, k))
            ==> (r matches Err(e) && tok_error(e, old(parser).tokens@, k, m))),
        shift_name(mnemonic@) ==> (shift_fault(mnemonic@, old(parser).tokens@, old(parser).pos as int) matches Some((m, k))
            ==> (r matches Err(e) && tok_error(e, old(parser).tokens@, k, m))),
        port_name(mnemonic@) ==> ((if mnemonic@ == "IN"@ { in_fault(old(parser).tokens@, old(parser).pos as int) }
            else { out_fault(old(parser).tokens@, old(parser).pos as int) }) matches Some((m, k))
            ==> (r matches Err(e) && tok_error(e, old(parser).tokens@, k, m))),
        map_name(mnemonic@) ==> ((if mnemonic@ == "MMAP"@ { mmap_fault(old(parser).tokens@, old(parser).pos as int) }
            else { munmap_fault(old(parser).tokens@, old(parser).pos as int) }) matches Some((m, k))
            ==> (r matches Err(e) && tok_error(e, old(parser).tokens@, k, m))),
        memory_name(mnemonic@) ==> ((if mnemonic@ == "LOAD"@ { load_fault(old(parser).tokens@, old(parser).pos as int) }
            else { store_fault(old(parser).tokens@, old(parser).pos as int) }) matches Some((m, k))
            ==> (r matches Err(e) && tok_error(e, old(parser).tokens@, k, m))),
        jump_name(mnemonic@) ==> (reg_or_imm_fault(old(parser).tokens@, old(parser).pos as int, scope_of(*old(parser))) matches Some((m, k))
            ==> (r matches Err(e) && tok_error(e, old(parser).tokens@, k, m))),
{
    proof {
        lemma_alu_named_apart();
        lemma_jump_named_apart();
        lemma_shift_named_apart();
        lemma_memory_named_apart();
        lemma_port_named_apart();
        lemma_map_named_apart();
    }
    if str_eq(mnemonic, "ADD") {
        proof {
            assert(Op::Add.mnemonic() == mnemonic@);
        }
        parse_alu(parser, Op::Add, Op::AddImm, "ADD")
    }     else if str_eq(mnemonic, "SUB") {
        proof {
            assert(Op::Sub.mnemonic() == mnemonic@);
        }
        parse_alu(parser, Op::Sub, Op::SubImm, "SUB")
    }     else if str_eq(mnemonic, "AND") {
        proof {
            assert(Op::And.mnemonic() == mnemonic@);
        }
        parse_alu(parser, Op::And, Op::AndImm, "AND")
    }     else if str_eq(mnemonic, "OR") {
        proof {
            assert(Op::Or.mnemonic() == mnemonic@);
        }
        parse_alu(parser, Op::Or, Op::OrImm, "OR")
    }     else if str_eq(mnemonic, "XOR") {
        proof {
            assert(Op::Xor.mnemonic() == mnemonic@);
        }
        parse_alu(parser, Op::Xor, Op::XorImm, "XOR")
    }     else if str_eq(mnemonic, "CMP") {
        proof {
            assert(Op::Cmp.mnemonic() == mnemonic@);
        }
        parse_alu(parser, Op::Cmp, Op::CmpImm, "CMP")
    }     else if str_eq(mnemonic, "MUL") {
        proof {
            assert(Op::Mul.mnemonic() == mnemonic@);
        }
        parse_alu(parser, Op::Mul, Op::MulImm, "MUL")
    }     else if str_eq(mnemonic, "DIV") {
        proof {
            assert(Op::Div.mnemonic() == mnemonic@);
        }
        parse_alu(parser, Op::Div, Op::DivImm, "DIV")
    }     else if str_eq(mnemonic, "MOD") {
        proof {
            assert(Op::Mod.mnemonic() == mnemonic@);
        }
        parse_alu(parser, Op::Mod, Op::ModImm, "MOD")
    }     else if str_eq(mnemonic, "SMUL") {
        proof {
            assert(Op::Smul.mnemonic() == mnemonic@);
        }
        parse_alu(parser, Op::Smul, Op::SmulImm, "SMUL")
    }     else if str_eq(mnemonic, "SDIV") {
        proof {
            assert(Op::Sdiv.mnemonic() == mnemonic@);
        }
        parse_alu(parser, Op::Sdiv, Op::SdivImm, "SDIV")
    }     else if str_eq(mnemonic, "SMOD") {
        proof {
            assert(Op::Smod.mnemonic() == mnemonic@);
        }
        parse_alu(parser, Op::Smod, Op::SmodImm, "SMOD")
    }     else if str_eq(mnemonic, "SHL") {
        proof {
            assert(Op::ShlReg.mnemonic() == mnemonic@);
        }
        parse_shift(parser, Op::ShlReg, Op::ShlImm, "SHL")
    }     else if str_eq(mnemonic, "SHR") {
        proof {
            assert(Op::ShrReg.mnemonic() == mnemonic@);
        }
        parse_shift(parser, Op::ShrReg, Op::ShrImm, "SHR")
    }     else if str_eq(mnemonic, "SAR") {
        proof {
            assert(Op::SarReg.mnemonic() == mnemonic@);
        }
        parse_shift(parser, Op::SarReg, Op::SarImm, "SAR")
    }     else if str_eq(mnemonic, "ROL") {
        proof {
            assert(Op::RolReg.mnemonic() == mnemonic@);
        }
        parse_shift(parser, Op::RolReg, Op::RolImm, "ROL")
    }     else if str_eq(mnemonic, "ROR") {
        proof {
            assert(Op::RorReg.mnemonic() == mnemonic@);
        }
        parse_shift(parser, Op::RorReg, Op::RorImm, "ROR")
    }     else if str_eq(mnemonic, "JMP") {
        proof {
            assert(Op::Jmp.mnemonic() == mnemonic@);
        }
        parse_jump(parser, Op::Jmp, Op::JmpReg)
    }     else if str_eq(mnemonic, "JZ") {
        proof {
            assert(Op::Jz.mnemonic() == mnemonic@);
        }
        parse_jump(parser, Op::Jz, Op::JzReg)
    }     else if str_eq(mnemonic, "JNZ") {
        proof {
            assert(Op::Jnz.mnemonic() == mnemonic@);
        }
        parse_jump(parser, Op::Jnz, Op::JnzReg)
    }     else if str_eq(mnemonic, "JC") {
        proof {
            assert(Op::Jc.mnemonic() == mnemonic@);
        }
        parse_jump(parser, Op::Jc, Op::JcReg)
    }     else if str_eq(mnemonic, "JN") {
        proof {
            assert(Op::Jn.mnemonic() == mnemonic@);
        }
        parse_jump(parser, Op::Jn, Op::JnReg)
    }     else if str_eq(mnemonic, "JO") {
        proof {
            assert(Op::Jo.mnemonic() == mnemonic@);
        }
        parse_jump(parser, Op::Jo, Op::JoReg)
    }     else if str_eq(mnemonic, "JNO") {
        proof {
            assert(Op::Jno.mnemonic() == mnemonic@);
        }
        parse_jump(parser, Op::Jno, Op::JnoReg)
    }     else if str_eq(mnemonic, "CALL") {
        proof {
            assert(Op::Call.mnemonic() == mnemonic@);
        }
        parse_jump(parser, Op::Call, Op::CallReg)
    }     else if str_eq(mnemonic, "IN") {
        proof {
            assert(Op::In.mnemonic() == mnemonic@);
        }
        parse_in(parser)
    }     else if str_eq(mnemonic, "OUT") {
        proof {
            assert(Op::Out.mnemonic() == mnemonic@);
        }
        parse_out(parser)
    }     else if str_eq(mnemonic, "LOAD") {
        proof {
            assert(Op::Load.mnemonic() == mnemonic@);
        }
        parse_load(parser)
    }     else if str_eq(mnemonic, "STORE") {
        proof {
            assert(Op::Store.mnemonic() == mnemonic@);
        }
        parse_store(parser)
    }     else if str_eq(mnemonic, "SIE") {
        proof {
            assert(Op::SieRegReg.mnemonic() == mnemonic@);
        }
        parse_sie(parser)
    }     else if str_eq(mnemonic, "INT") {
        proof {
            assert(Op::IntReg.mnemonic() == mnemonic@);
        }
        parse_int(parser)
    }     else if str_eq(mnemonic, "TUR") {
        proof {
            assert(Op::Tur.mnemonic() == mnemonic@);
        }
        parse_transfer(parser, true)
    }     else if str_eq(mnemonic, "TKR") {
        proof {
            assert(Op::Tkr.mnemonic() == mnemonic@);
        }
        parse_transfer(parser, false)
    }     else if str_eq(mnemonic, "MMAP") {
        proof {
            assert(Op::MmapRegRegReg.mnemonic() == mnemonic@);
        }
        parse_mmap(parser)
    }     else if str_eq(mnemonic, "MUNMAP") {
        proof {
            assert(Op::MunmapRegReg.mnemonic() == mnemonic@);
        }
        parse_munmap(parser)
    }     else if str_eq(mnemonic, "MPROTECT") {
        proof {
            assert(Op::Mprotect.mnemonic() == mnemonic@);
        }
        parse_mprotect(parser)
    } else {
        proof {
            assert forall|op: Op| #[trigger] op.mnemonic() != mnemonic@ by {
            }
        }
        Err(AssemblerError::parse(file, span, concat(owned("Unknown mnemonic: "), mnemonic)))
    }
}

} // verus!
