//! Reading and writing register views of a register file.
use vstd::prelude::*;
use crate::alu::mask_of;
use crate::register::{RegisterEncoding, VIEW_RW, VIEW_RH, VIEW_RB, VIEW_SP};
use crate::vm_types::RegisterFile;

verus! {

/// Whether a register view lives in a register file: a general register view or the stack
/// pointer.
pub open spec fn in_file(r: RegisterEncoding) -> bool {
    r.view_bits() == VIEW_RW || r.view_bits() == VIEW_RH || r.view_bits() == VIEW_RB
        || r.view_bits() == VIEW_SP
}

/// The value of a register view in a register file: the whole general register, its low
/// half-word or its low byte, or the stack pointer.
pub open spec fn file_read(f: RegisterFile, r: RegisterEncoding) -> u32 {
    view_read(f.regs@, f.sp, r)
}

/// The value of a register view given the general registers and the stack pointer.
pub open spec fn view_read(regs: Seq<u32>, sp: u32, r: RegisterEncoding) -> u32 {
    let i = r.index_bits() as int;
    if r.view_bits() == VIEW_RW {
        regs[i]
    } else if r.view_bits() == VIEW_RH {
        regs[i] & 0xFFFF
    } else if r.view_bits() == VIEW_RB {
        regs[i] & 0xFF
    } else {
        sp
    }
}

/// The general register `i` after writing `v` through a view of width `w`: the low `w`
/// bytes replaced, the others kept.
pub open spec fn merged(old: u32, v: u32, w: u8) -> u32 {
    if w == 4 {
        v
    } else if w == 2 {
        (old & 0xFFFF_0000) | (v & 0xFFFF)
    } else {
        (old & 0xFFFF_FF00) | (v & 0xFF)
    }
}

/// The general registers after writing `v` through a register view.
pub open spec fn regs_written(f: RegisterFile, r: RegisterEncoding, v: u32) -> Seq<u32> {
    let i = r.index_bits() as int;
    if r.view_bits() == VIEW_SP {
        f.regs@
    } else {
        f.regs@.update(i, merged(f.regs@[i], v, r.width()))
    }
}

/// The stack pointer after writing `v` through a register view.
pub open spec fn sp_written(f: RegisterFile, r: RegisterEncoding, v: u32) -> u32 {
    if r.view_bits() == VIEW_SP {
        v
    } else {
        f.sp
    }
}

/// Reads a register view held in a register file.
pub fn read_file(f: &RegisterFile, r: RegisterEncoding) -> (v: u32)
    requires
        in_file(r),
    ensures
        v == file_read(*f, r),
{
    let i = r.index() as usize;
    proof {
        crate::register::lemma_index_bound(r.0);
    }
    if r.is_rw() {
        f.regs[i]
    } else if r.is_rh() {
        f.regs[i] & 0xFFFF
    } else if r.is_rb() {
        f.regs[i] & 0xFF
    } else {
        f.sp
    }
}

/// Writes a register view held in a register file; narrower views keep the upper bits of
/// their general register.
pub fn write_file(f: &mut RegisterFile, r: RegisterEncoding, v: u32)
    requires
        in_file(r),
    ensures
        final(f).ip == old(f).ip,
        final(f).flags == old(f).flags,
        final(f).cr == old(f).cr,
        final(f).regs@ == regs_written(*old(f), r, v),
        final(f).sp == sp_written(*old(f), r, v),
{
    proof {
        crate::register::lemma_index_bound(r.0);
    }
    let i = r.index() as usize;
    if r.is_sp() {
        f.sp = v;
    } else if r.is_rw() {
        f.regs[i] = v;
    } else if r.is_rh() {
        f.regs[i] = (f.regs[i] & 0xFFFF_0000) | (v & 0xFFFF);
    } else {
        f.regs[i] = (f.regs[i] & 0xFFFF_FF00) | (v & 0xFF);
    }
}

/// Reading a register view right after writing it gives the written value reduced to the
/// view's width.
pub proof fn law_register_read_after_write(f: RegisterFile, r: RegisterEncoding, v: u32)
    requires
        in_file(r),
    ensures
        view_read(regs_written(f, r, v), sp_written(f, r, v), r) == v & mask_of(r.width()),
{
    crate::register::lemma_index_bound(r.0);
    let old_v = f.regs@[r.index_bits() as int];
    if r.view_bits() == VIEW_RH {
        assert(((old_v & 0xFFFF_0000) | (v & 0xFFFF)) & 0xFFFF == v & 0xFFFF) by (bit_vector);
    } else if r.view_bits() == VIEW_RB {
        assert(((old_v & 0xFFFF_FF00) | (v & 0xFF)) & 0xFF == v & 0xFF) by (bit_vector);
    } else {
        assert(v & 0xFFFF_FFFF == v) by (bit_vector);
    }
}

/// Writing a byte or half-word view keeps the rest of its general register.
pub proof fn law_narrow_write_keeps_upper(f: RegisterFile, r: RegisterEncoding, v: u32)
    requires
        r.view_bits() == VIEW_RH || r.view_bits() == VIEW_RB,
    ensures
        regs_written(f, r, v)[r.index_bits() as int] & !mask_of(r.width()) == f.regs@[r.index_bits() as int] & !mask_of(r.width()),
{
    crate::register::lemma_index_bound(r.0);
    let old_v = f.regs@[r.index_bits() as int];
    if r.view_bits() == VIEW_RH {
        assert(((old_v & 0xFFFF_0000) | (v & 0xFFFF)) & !0xFFFFu32 == old_v & !0xFFFFu32) by (bit_vector);
    } else {
        assert(((old_v & 0xFFFF_FF00) | (v & 0xFF)) & !0xFFu32 == old_v & !0xFFu32) by (bit_vector);
    }
}

} // verus!
