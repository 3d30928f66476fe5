//! The machine: two register files (kernel and user), the interrupt vector table, the bus
//! and the port devices, and the fetch-decode-execute step.
use vstd::prelude::*;
use crate::decoder::{decode_operands, operands_length, operands_len, decoded_args};
use crate::instruction::{args_size, used_count};
use crate::isa::arity;
use crate::flags::{Flag, Flags};
use crate::instruction::Instruction;
use crate::memory::{Bus, stored, storable, loaded, readable, low_bytes, law_load_after_store, same_layout};
use crate::opcode::Op;
use crate::ports::PortDevice;
use crate::register::{RegisterEncoding, VIEW_CR, VIEW_MR};
use crate::registers::{in_file, read_file, write_file, file_read, regs_written, sp_written};
use crate::text::{owned, push_char, concat};
use crate::vm_types::{Interrupt, RegisterFile, VmError, VmResult, interrupt_of, interrupt_for_error, interrupt_index, KERNEL_CONTEXT, STACK_TOP};

verus! {

/// The machine state.
#[derive(Debug)]
pub struct VM {
    /// Register files: 0 is the kernel's, 1 the user's.
    pub files: [RegisterFile; 2],
    /// The register file in use.
    pub active: usize,
    /// The memory-mapping context register: the context that MMAP, MUNMAP and MPROTECT
    /// change, read and written as `cr` (or `mr`).
    pub cr: u32,
    /// Handler address of each interrupt (0: no handler).
    pub ivt: [u32; 256],
    /// The interrupt being delivered, if one is.
    pub pending_interrupt: Option<u8>,
    pub bus: Bus,
    /// Port devices with their ports (a later entry for the same port wins).
    pub ports: Vec<(u32, PortDevice)>,
    pub halted: bool,
}

/// The value register `reg` reads in `vm`: a general view or the stack pointer of the active
/// register file, or the mapping context register as `cr` (as `mr` in kernel mode only).
pub open spec fn reg_value(vm: VM, reg: RegisterEncoding) -> Option<u32> {
    if in_file(reg) {
        Some(file_read(vm.files[vm.active as int], reg))
    } else if reg.view_bits() == VIEW_CR || (reg.view_bits() == VIEW_MR && vm.active == KERNEL_CONTEXT) {
        Some(vm.cr)
    } else {
        None
    }
}

/// Whether register `reg` can be written in `vm`: a general view or the stack pointer, and
/// in kernel mode `cr` and `mr`.
pub open spec fn reg_settable(vm: VM, reg: RegisterEncoding) -> bool {
    in_file(reg) || ((reg.view_bits() == VIEW_CR || reg.view_bits() == VIEW_MR) && vm.active == KERNEL_CONTEXT)
}

/// The interrupt a refused register access raises: a privilege violation for `mr` (and, when
/// writing, `cr`) outside kernel mode; none when the operand names no register that can be
/// accessed at all.
pub open spec fn access_fault(vm: VM, reg: RegisterEncoding, write: bool) -> Option<Interrupt> {
    if vm.active != KERNEL_CONTEXT && (reg.view_bits() == VIEW_MR || (write && reg.view_bits() == VIEW_CR)) {
        Some(Interrupt::PrivilegeViolation)
    } else {
        None
    }
}

/// `x` when given, else `keep`.
pub open spec fn or_keep(x: Option<bool>, keep: bool) -> bool {
    match x {
        Some(v) => v,
        None => keep,
    }
}

/// Flags `g` are flags `f` with zero, negative, carry and overflow set as given (`None`
/// keeps a flag).
pub open spec fn flags_updated(f: Flags, g: Flags, z: Option<bool>, n: Option<bool>, c: Option<bool>, o: Option<bool>) -> bool {
    &&& g.has(Flag::Zero) == or_keep(z, f.has(Flag::Zero))
    &&& g.has(Flag::Negative) == or_keep(n, f.has(Flag::Negative))
    &&& g.has(Flag::Carry) == or_keep(c, f.has(Flag::Carry))
    &&& g.has(Flag::Overflow) == or_keep(o, f.has(Flag::Overflow))
}

/// Machine `b` is `a` but for its active register file and mapping context register.
pub open spec fn others_kept(a: VM, b: VM) -> bool {
    &&& b.active == a.active
    &&& b.files[1 - a.active as int] == a.files[1 - a.active as int]
    &&& b.halted == a.halted
    &&& b.ivt == a.ivt
    &&& b.bus == a.bus
    &&& b.ports == a.ports
    &&& b.pending_interrupt == a.pending_interrupt
}

/// Machine `b` is `a` with the active flags updated as given and nothing else changed.
pub open spec fn flagged(a: VM, b: VM, z: Option<bool>, n: Option<bool>, c: Option<bool>, o: Option<bool>) -> bool {
    let f = a.active as int;
    &&& others_kept(a, b)
    &&& b.cr == a.cr
    &&& b.files[f].regs == a.files[f].regs
    &&& b.files[f].sp == a.files[f].sp
    &&& b.files[f].ip == a.files[f].ip
    &&& b.files[f].cr == a.files[f].cr
    &&& flags_updated(a.files[f].flags, b.files[f].flags, z, n, c, o)
}

/// Machine `b` is `a` after writing `v` to register `reg` and updating the active flags as
/// given: a general view or the stack pointer changes in the active file, `cr` and `mr`
/// change the mapping context register; nothing else changes.
pub open spec fn written(a: VM, b: VM, reg: RegisterEncoding, v: u32, z: Option<bool>, n: Option<bool>, c: Option<bool>, o: Option<bool>) -> bool {
    let f = a.active as int;
    &&& others_kept(a, b)
    &&& b.files[f].ip == a.files[f].ip
    &&& b.files[f].cr == a.files[f].cr
    &&& flags_updated(a.files[f].flags, b.files[f].flags, z, n, c, o)
    &&& if in_file(reg) {
        &&& b.cr == a.cr
        &&& b.files[f].regs@ == regs_written(a.files[f], reg, v)
        &&& b.files[f].sp == sp_written(a.files[f], reg, v)
    } else {
        &&& b.cr == v
        &&& b.files[f].regs == a.files[f].regs
        &&& b.files[f].sp == a.files[f].sp
    }
}

/// A register write followed by a flag update is one written state.
pub proof fn lemma_written_then_flagged(a: VM, m: VM, b: VM, reg: RegisterEncoding, v: u32, z: Option<bool>, n: Option<bool>, c: Option<bool>, o: Option<bool>)
    requires
        a.active < 2,
        written(a, m, reg, v, None, None, None, None),
        m.files[a.active as int].flags == a.files[a.active as int].flags,
        flagged(m, b, z, n, c, o),
    ensures
        written(a, b, reg, v, z, n, c, o),
{
}

/// The words an interrupt saves on the kernel stack, in the order pushed: the interrupted
/// file's sixteen registers, the resume address and its context word.
pub open spec fn frame_words(f: RegisterFile, resume: u32) -> Seq<u32> {
    f.regs@ + seq![resume, f.cr]
}

/// Bus `buses[k + 1]` is `buses[k]` with word `k` of `words` written at word slot `k`
/// below `sp`.
pub open spec fn link(buses: Seq<Bus>, sp: int, words: Seq<u32>, k: int) -> bool {
    stored(buses[k], buses[k + 1], (sp - 4 * (k + 1)) as u32, 4, words[k])
}

/// Bus `b` is `a` after pushing `words` downward from `sp`, one word each, the first at
/// `sp - 4`.
pub open spec fn words_pushed(a: Bus, b: Bus, sp: int, words: Seq<u32>) -> bool {
    exists|buses: Seq<Bus>|
        #![trigger buses.len(), buses[0]]
        buses.len() == words.len() + 1 && buses[0] == a && buses[words.len() as int] == b
            && forall|k: int| 0 <= k < words.len() ==> #[trigger] link(buses, sp, words, k)
}

/// Word slot `k` below `sp` can be written.
pub open spec fn slot_storable(b: Bus, sp: int, k: int) -> bool {
    storable(b, (sp - 4 * (k + 1)) as u32, 4)
}

/// Whether the 73 bytes of an interrupt frame below `sp` can be written: eighteen words
/// and a status byte.
pub open spec fn frame_fits(b: Bus, sp: int) -> bool {
    &&& sp >= 73
    &&& forall|k: int| 0 <= k < 18 ==> #[trigger] slot_storable(b, sp, k)
    &&& storable(b, (sp - 73) as u32, 1)
}

/// The bus of `vm` switched to the kernel file's context.
pub open spec fn kernel_bus(vm: VM) -> Bus {
    Bus { current_context: vm.files[0].cr, ..vm.bus }
}

/// The status byte an interrupt saves: the interrupted flags above a bit telling whether
/// the user file was interrupted.
pub open spec fn frame_status(vm: VM) -> u8 {
    ((vm.files[vm.active as int].flags.0 & 0x0F) << 1u8) | (if vm.active == 1 { 1u8 } else { 0u8 })
}

/// Writes keep where pages lead and how large devices are, so what can be written.
pub proof fn lemma_layout_keeps_storable(a: Bus, b: Bus, addr: u32, w: int)
    requires
        same_layout(a, b),
        b.pages@ == a.pages@,
        b.current_context == a.current_context,
    ensures
        storable(b, addr, w) == storable(a, addr, w),
{
}

/// Machine `b` is `a` after delivering interrupt `index` to resume at `resume`: the kernel
/// file is active, with the bus in its context; the interrupted file's registers, the resume
/// address and its context word are pushed as words on the kernel stack, then the status
/// byte; the kernel file continues at the handler, or, without one, the machine halts with
/// the interrupt pending.
pub open spec fn delivered(a: VM, b: VM, index: u8, resume: u32) -> bool {
    let sp = a.files[0].sp as int;
    let handler = a.ivt[index as int];
    &&& b.active == 0
    &&& exists|m: Bus| #[trigger] words_pushed(kernel_bus(a), m, sp, frame_words(a.files[a.active as int], resume))
        && stored(m, b.bus, (sp - 73) as u32, 1, frame_status(a) as u32)
    &&& b.files[0].sp == sp - 73
    &&& b.files[0].regs == a.files[0].regs
    &&& b.files[0].flags == a.files[0].flags
    &&& b.files[0].cr == a.files[0].cr
    &&& b.files[1] == a.files[1]
    &&& b.cr == a.cr
    &&& b.ivt == a.ivt
    &&& b.ports == a.ports
    &&& if handler == 0 {
        &&& b.halted
        &&& b.pending_interrupt == Some(index)
        &&& b.files[0].ip == a.files[0].ip
    } else {
        &&& b.halted == a.halted
        &&& b.pending_interrupt is None
        &&& b.files[0].ip == handler
    }
}

/// Word slot `k` of an interrupt frame at `sp` (above its status byte) can be read.
pub open spec fn slot_readable(b: Bus, sp: int, k: int) -> bool {
    readable(b, (sp + 1 + 4 * k) as u32, 4)
}

/// Word slot `k` of an interrupt frame at `sp`: 0 the context word, 1 the resume address,
/// then the registers in the order they are popped.
pub open spec fn frame_word(b: Bus, sp: int, k: int) -> u32 {
    loaded(b, (sp + 1 + 4 * k) as u32, 4)->0
}

/// Whether a whole interrupt frame can be read from `sp` upward: the status byte, then
/// eighteen words, all below the end of the address space.
pub open spec fn frame_readable(b: Bus, sp: int) -> bool {
    &&& sp + 73 <= u32::MAX
    &&& readable(b, sp as u32, 1)
    &&& forall|k: int| 0 <= k < 18 ==> #[trigger] slot_readable(b, sp, k)
}

/// Machine `b` is `a` after returning from the interrupt whose frame is on the kernel
/// stack: the file the status byte names (the user's when its low bit is set) takes the
/// frame's context word, resume address, flags and registers (register `k` from the `k`-th
/// word popped) and becomes active; the kernel stack pointer moves past the frame.
pub open spec fn returned(a: VM, b: VM) -> bool {
    let sp = a.files[0].sp as int;
    let status = loaded(a.bus, sp as u32, 1)->0;
    let t: int = if status & 1 != 0 { 1 } else { 0 };
    &&& b.active == t
    &&& b.files[t].regs@ == Seq::new(16, |k: int| frame_word(a.bus, sp, k + 2))
    &&& b.files[t].ip == frame_word(a.bus, sp, 1)
    &&& b.files[t].cr == frame_word(a.bus, sp, 0)
    &&& b.files[t].flags.0 == ((status as u8) >> 1u8) & 0x0F
    &&& if t == 0 {
        &&& b.files[0].sp == sp + 73
        &&& b.files[1] == a.files[1]
    } else {
        &&& with_sp(a.files[0], b.files[0], sp + 73)
        &&& b.files[1].sp == a.files[1].sp
    }
    &&& b.bus == a.bus
    &&& b.cr == a.cr
    &&& b.ivt == a.ivt
    &&& b.ports == a.ports
    &&& b.halted == a.halted
    &&& b.pending_interrupt == a.pending_interrupt
}

/// Ensures of delivering interrupt `index` to resume at `resume`: it succeeds unless a bus
/// fault meets a pending bus fault (a double fault) or the frame does not fit on the kernel
/// stack, and then the interrupt is delivered.
pub open spec fn raise_done(a: VM, b: VM, index: u8, resume: u32, r: VmResult<()>) -> bool {
    &&& (r is Ok <==> !(a.pending_interrupt == Some(1u8) && index == 1) && frame_fits(kernel_bus(a), a.files[0].sp as int))
    &&& (r is Ok ==> delivered(a, b, index, resume))
    &&& ((a.pending_interrupt == Some(1u8) && index == 1) ==> (r matches Err(e) && e is DoubleFault))
}

/// Ensures of returning from an interrupt: with an empty kernel stack a privilege violation
/// is delivered instead; otherwise it succeeds when the frame can be read, and then the
/// interrupted file is restored.
pub open spec fn iret_done(a: VM, b: VM, r: VmResult<()>) -> bool {
    if a.files[0].sp == STACK_TOP {
        raise_done(a, b, 6, a.files[0].ip, r)
    } else {
        &&& (r is Ok <==> frame_readable(a.bus, a.files[0].sp as int))
        &&& (r is Ok ==> returned(a, b))
    }
}

impl VM {
    /// The active file is one of the two, the bus is consistent, flags use four bits, and
    /// every device's read position lies in its input.
    pub open spec fn wf(&self) -> bool {
        &&& self.active < 2
        &&& self.bus.wf()
        &&& self.files[0].flags.wf()
        &&& self.files[1].flags.wf()
        &&& forall|i: int| 0 <= i < self.ports@.len() ==> (#[trigger] self.ports@[i]).1.wf()
    }

    /// Whether the kernel register file is active.
    pub open spec fn in_kernel(&self) -> bool {
        self.active == KERNEL_CONTEXT
    }

    /// Reads a register: general views and the stack pointer from the active file, `cr`
    /// from the mapping context register (`mr` likewise, in kernel mode only). The
    /// instruction pointer cannot be read this way.
    pub fn read_register(&self, reg: RegisterEncoding) -> (r: VmResult<u32>)
        requires
            self.wf(),
        ensures
            in_file(reg) ==> r == Ok::<u32, VmError>(file_read(self.files[self.active as int], reg)),
            reg.view_bits() == crate::register::VIEW_CR ==> r == Ok::<u32, VmError>(self.cr),
            reg.view_bits() == crate::register::VIEW_MR ==> (if self.in_kernel() {
                r == Ok::<u32, VmError>(self.cr)
            } else {
                r == Err::<u32, VmError>(VmError::Interrupt(Interrupt::PrivilegeViolation))
            }),
            r is Err ==> !in_file(reg) && reg.view_bits() != crate::register::VIEW_CR,
            r is Ok <==> reg_value(*self, reg) is Some,
            r matches Ok(v) ==> reg_value(*self, reg) == Some(v),
            r matches Err(e) ==> interrupt_of(e) == access_fault(*self, reg, false),
    {
        if reg.is_rw() || reg.is_rh() || reg.is_rb() || reg.is_sp() {
            Ok(read_file(&self.files[self.active], reg))
        } else if reg.is_cr() {
            Ok(self.cr)
        } else if reg.is_mr() {
            if self.active != 0 {
                Err(VmError::Interrupt(Interrupt::PrivilegeViolation))
            } else {
                Ok(self.cr)
            }
        } else if reg.is_ip() {
            Err(VmError::InvalidRomImage(owned("ip is not readable via MOV")))
        } else {
            Err(VmError::InvalidRomImage(owned("unsupported register encoding")))
        }
    }

    /// Writes a register: general views and the stack pointer of the active file, or the
    /// mapping context register (kernel mode only). The instruction pointer cannot be
    /// written this way.
    pub fn write_register(&mut self, reg: RegisterEncoding, value: u32) -> (r: VmResult<()>)
        requires
            old(self).wf(),
        ensures
            final(self).wf(),
            final(self).bus == old(self).bus,
            final(self).ports == old(self).ports,
            final(self).ivt == old(self).ivt,
            final(self).active == old(self).active,
            final(self).halted == old(self).halted,
            final(self).pending_interrupt == old(self).pending_interrupt,
            in_file(reg) ==> r is Ok && final(self).cr == old(self).cr
                && final(self).files[old(self).active as int].regs@ == regs_written(old(self).files[old(self).active as int], reg, value)
                && final(self).files[old(self).active as int].sp == sp_written(old(self).files[old(self).active as int], reg, value)
                && final(self).files[old(self).active as int].ip == old(self).files[old(self).active as int].ip
                && final(self).files[old(self).active as int].flags == old(self).files[old(self).active as int].flags
                && final(self).files[old(self).active as int].cr == old(self).files[old(self).active as int].cr
                && final(self).files[1 - old(self).active] == old(self).files[1 - old(self).active],
            !in_file(reg) ==> final(self).files == old(self).files,
            (reg.view_bits() == crate::register::VIEW_CR || reg.view_bits() == crate::register::VIEW_MR) ==> (if old(self).in_kernel() {
                r is Ok && final(self).cr == value
            } else {
                r == Err::<(), VmError>(VmError::Interrupt(Interrupt::PrivilegeViolation)) && final(self).cr == old(self).cr
            }),
            r is Ok <==> reg_settable(*old(self), reg),
            r is Ok ==> written(*old(self), *final(self), reg, value, None, None, None, None),
            r is Ok ==> final(self).files[old(self).active as int].flags == old(self).files[old(self).active as int].flags,
            r matches Err(e) ==> *final(self) == *old(self) && interrupt_of(e) == access_fault(*old(self), reg, true),
    {
        if reg.is_rw() || reg.is_rh() || reg.is_rb() || reg.is_sp() {
            let a = self.active;
            write_file(&mut self.files[a], reg, value);
            Ok(())
        } else if reg.is_cr() || reg.is_mr() {
            if self.active != 0 {
                return Err(VmError::Interrupt(Interrupt::PrivilegeViolation));
            }
            self.cr = value;
            Ok(())
        } else if reg.is_ip() {
            Err(VmError::InvalidRomImage(owned("ip is not writable via MOV")))
        } else {
            Err(VmError::InvalidRomImage(owned("unsupported register encoding")))
        }
    }

    /// Pushes `width` bytes of `value` on the active stack: the stack pointer moves down
    /// first, then the value is written big-endian. A stack pointer below `width` is an
    /// overflow and changes nothing; a width other than 1, 2 or 4 is refused.
    pub fn push_value(&mut self, width: u8, value: u32) -> (r: VmResult<()>)
        requires
            old(self).wf(),
        ensures
            final(self).wf(),
            final(self).active == old(self).active,
            final(self).halted == old(self).halted,
            final(self).ivt == old(self).ivt,
            final(self).cr == old(self).cr,
            old(self).files[old(self).active as int].sp < width ==> (r matches Err(e) && e is AddressOverflow)
                && *final(self) == *old(self),
            r is Ok <==> (width == 1 || width == 2 || width == 4) && old(self).files[old(self).active as int].sp >= width
                && storable(old(self).bus, (old(self).files[old(self).active as int].sp - width) as u32, width as int),
            r is Ok ==> pushed(*old(self), *final(self), width, value),
            (width == 1 || width == 2 || width == 4) ==> push_done(*old(self), *final(self), width, value, r),
    {
        let a = self.active;
        let sp = self.files[a].sp;
        let w = width as u32;
        if sp < w {
            return Err(VmError::AddressOverflow);
        }
        let new_sp = sp - w;
        self.files[a].sp = new_sp;
        let r = if width == 1 {
            self.bus.write_byte(new_sp, value as u8)
        } else if width == 2 {
            self.bus.write_u16(new_sp, value as u16)
        } else if width == 4 {
            self.bus.write_u32(new_sp, value)
        } else {
            Err(VmError::InvalidRomImage(owned("unsupported push width")))
        };
        proof {
            crate::memory::lemma_narrowed_bytes(value);
        }
        r
    }

    /// Pops `width` bytes from the active stack: the value is read big-endian, then the
    /// stack pointer moves up. A width other than 1, 2 or 4 is refused.
    pub fn pop_value(&mut self, width: u8) -> (r: VmResult<u32>)
        requires
            old(self).wf(),
        ensures
            final(self).wf(),
            final(self).active == old(self).active,
            final(self).halted == old(self).halted,
            final(self).ivt == old(self).ivt,
            final(self).cr == old(self).cr,
            final(self).bus == old(self).bus,
            r is Ok <==> (width == 1 || width == 2 || width == 4) && readable(
                old(self).bus,
                old(self).files[old(self).active as int].sp,
                width as int,
            ) && old(self).files[old(self).active as int].sp + width <= u32::MAX,
            r matches Ok(v) ==> popped(*old(self), *final(self), width, v),
            (width == 1 || width == 2 || width == 4) ==> pop_done(*old(self), *final(self), width, r),
    {
        let a = self.active;
        let sp = self.files[a].sp;
        let value = if width == 1 {
            self.bus.read_byte(sp)? as u32
        } else if width == 2 {
            self.bus.read_u16(sp)? as u32
        } else if width == 4 {
            self.bus.read_u32(sp)?
        } else {
            return Err(VmError::InvalidRomImage(owned("unsupported pop width")));
        };
        let w = width as u32;
        if sp > 0xFFFF_FFFF - w {
            return Err(VmError::AddressOverflow);
        }
        self.files[a].sp = sp + w;
        Ok(value)
    }

    fn push_kernel_byte(&mut self, value: u8) -> (r: VmResult<()>)
        requires
            old(self).wf(),
        ensures
            final(self).wf(),
            final(self).active == old(self).active,
            final(self).halted == old(self).halted,
            final(self).ivt == old(self).ivt,
            final(self).cr == old(self).cr,
            final(self).files[1] == old(self).files[1],
            final(self).files[0].ip == old(self).files[0].ip,
            final(self).pending_interrupt == old(self).pending_interrupt,
            r is Ok ==> final(self).files[0].sp == old(self).files[0].sp - 1,
            r is Ok <==> old(self).files[0].sp >= 1 && storable(old(self).bus, (old(self).files[0].sp - 1) as u32, 1),
            r is Ok ==> with_sp(old(self).files[0], final(self).files[0], old(self).files[0].sp - 1),
            r is Ok ==> stored(old(self).bus, final(self).bus, (old(self).files[0].sp - 1) as u32, 1, value as u32),
            final(self).ports == old(self).ports,
    {
        let sp = self.files[0].sp;
        if sp < 1 {
            return Err(VmError::AddressOverflow);
        }
        self.files[0].sp = sp - 1;
        self.bus.write_byte(sp - 1, value)
    }

    fn push_kernel_u32(&mut self, value: u32) -> (r: VmResult<()>)
        requires
            old(self).wf(),
        ensures
            final(self).wf(),
            final(self).active == old(self).active,
            final(self).halted == old(self).halted,
            final(self).ivt == old(self).ivt,
            final(self).cr == old(self).cr,
            final(self).files[1] == old(self).files[1],
            final(self).files[0].ip == old(self).files[0].ip,
            final(self).pending_interrupt == old(self).pending_interrupt,
            r is Ok ==> final(self).files[0].sp == old(self).files[0].sp - 4,
            r is Ok <==> old(self).files[0].sp >= 4 && storable(old(self).bus, (old(self).files[0].sp - 4) as u32, 4),
            r is Ok ==> with_sp(old(self).files[0], final(self).files[0], old(self).files[0].sp - 4),
            r is Ok ==> stored(old(self).bus, final(self).bus, (old(self).files[0].sp - 4) as u32, 4, value),
            final(self).ports == old(self).ports,
    {
        let sp = self.files[0].sp;
        if sp < 4 {
            return Err(VmError::AddressOverflow);
        }
        self.files[0].sp = sp - 4;
        self.bus.write_u32(sp - 4, value)
    }

    fn pop_kernel_byte(&mut self) -> (r: VmResult<u8>)
        requires
            old(self).wf(),
        ensures
            final(self).wf(),
            final(self).active == old(self).active,
            final(self).halted == old(self).halted,
            final(self).ivt == old(self).ivt,
            final(self).cr == old(self).cr,
            final(self).bus == old(self).bus,
            final(self).files[1] == old(self).files[1],
            final(self).pending_interrupt == old(self).pending_interrupt,
            final(self).ports == old(self).ports,
            r is Ok <==> readable(old(self).bus, old(self).files[0].sp, 1) && old(self).files[0].sp + 1 <= u32::MAX,
            r matches Ok(v) ==> loaded(old(self).bus, old(self).files[0].sp, 1) == Some(v as u32),
            r is Ok ==> with_sp(old(self).files[0], final(self).files[0], old(self).files[0].sp + 1),
    {
        let sp = self.files[0].sp;
        let v = self.bus.read_byte(sp)?;
        if sp == 0xFFFF_FFFF {
            return Err(VmError::AddressOverflow);
        }
        self.files[0].sp = sp + 1;
        Ok(v)
    }

    fn pop_kernel_u32(&mut self) -> (r: VmResult<u32>)
        requires
            old(self).wf(),
        ensures
            final(self).wf(),
            final(self).active == old(self).active,
            final(self).halted == old(self).halted,
            final(self).ivt == old(self).ivt,
            final(self).cr == old(self).cr,
            final(self).bus == old(self).bus,
            final(self).files[1] == old(self).files[1],
            final(self).pending_interrupt == old(self).pending_interrupt,
            final(self).ports == old(self).ports,
            r is Ok <==> readable(old(self).bus, old(self).files[0].sp, 4) && old(self).files[0].sp + 4 <= u32::MAX,
            r matches Ok(v) ==> loaded(old(self).bus, old(self).files[0].sp, 4) == Some(v),
            r is Ok ==> with_sp(old(self).files[0], final(self).files[0], old(self).files[0].sp + 4),
    {
        let sp = self.files[0].sp;
        let v = self.bus.read_u32(sp)?;
        if sp > 0xFFFF_FFFB {
            return Err(VmError::AddressOverflow);
        }
        self.files[0].sp = sp + 4;
        Ok(v)
    }

    /// Delivers interrupt `index`, to resume at `resume_ip`: switches to the kernel file and
    /// its context, pushes the interrupted file's sixteen registers, the resume address,
    /// its context word and a status byte (flags above a bit telling whether it was the user
    /// file) on the kernel stack, then jumps to the handler. Without a handler the machine
    /// halts with the interrupt left pending. A bus fault while a bus fault is pending is a
    /// double fault.
    pub fn raise_interrupt(&mut self, index: u8, resume_ip: u32) -> (r: VmResult<()>)
        requires
            old(self).wf(),
        ensures
            final(self).wf(),
            final(self).ivt == old(self).ivt,
            final(self).cr == old(self).cr,
            (old(self).pending_interrupt == Some(1u8) && index == 1) ==> (r matches Err(e) && e is DoubleFault),
            r is Ok ==> final(self).active == 0,
            r is Ok && old(self).ivt[index as int] != 0 ==> final(self).halted == old(self).halted && final(self).files[0].ip == old(self).ivt[index as int]
                && final(self).pending_interrupt is None,
            r is Ok && old(self).ivt[index as int] == 0 ==> final(self).halted && final(self).pending_interrupt == Some(index),
            r is Ok ==> final(self).files[0].sp == old(self).files[0].sp - 73,
            r is Ok <==> !(old(self).pending_interrupt == Some(1u8) && index == 1)
                && frame_fits(kernel_bus(*old(self)), old(self).files[0].sp as int),
            r is Ok ==> delivered(*old(self), *final(self), index, resume_ip),
            raise_done(*old(self), *final(self), index, resume_ip, r),
    {
        let kernel_context = self.files[0].cr;
        self.bus.set_context(kernel_context);
        if index == 1 && matches!(self.pending_interrupt, Some(1u8)) {
            return Err(VmError::DoubleFault { first_interrupt: 1, second_interrupt: index });
        }
        self.pending_interrupt = Some(index);
        let came_from_user: u8 = if self.active == 1 {
            1
        } else {
            0
        };
        let interrupted = self.files[self.active];
        self.active = 0;
        let ghost sp0 = self.files[0].sp;
        let ghost bus0 = self.bus;
        let ghost words = frame_words(interrupted, resume_ip);
        let ghost mut chain: Seq<Bus> = seq![bus0];
        assert(bus0 == kernel_bus(*old(self)));
        assert(words.len() == 18);
        let mut i: usize = 0;
        while i < 18
            invariant
                0 <= i <= 18,
                self.wf(),
                self.active == 0,
                self.ivt == old(self).ivt,
                self.cr == old(self).cr,
                self.halted == old(self).halted,
                self.pending_interrupt == Some(index),
                !(old(self).pending_interrupt == Some(1u8) && index == 1),
                self.files[0].sp == sp0 - 4 * i,
                sp0 == old(self).files[0].sp,
                with_sp(old(self).files[0], self.files[0], sp0 - 4 * i),
                self.files[1] == old(self).files[1],
                self.ports == old(self).ports,
                words == frame_words(interrupted, resume_ip),
                interrupted == old(self).files[old(self).active as int],
                chain.len() == i + 1,
                chain[0] == bus0,
                chain[i as int] == self.bus,
                forall|k: int| 0 <= k < i ==> #[trigger] link(chain, sp0 as int, words, k),
                same_layout(bus0, self.bus),
                self.bus.pages@ == bus0.pages@,
                self.bus.current_context == bus0.current_context,
                frame_fits(bus0, sp0 as int) ==> sp0 >= 73,
                sp0 >= 4 * i,
                forall|k: int| 0 <= k < i ==> #[trigger] slot_storable(bus0, sp0 as int, k),
                bus0 == kernel_bus(*old(self)),
                words.len() == 18,
            decreases 18 - i,
        {
            let w = if i < 16 {
                interrupted.regs[i]
            } else if i == 16 {
                resume_ip
            } else {
                interrupted.cr
            };
            assert(w == words[i as int]);
            let ghost prev = self.bus;
            proof {
                lemma_layout_keeps_storable(bus0, prev, (sp0 - 4 * (i + 1)) as u32, 4);
                if frame_fits(bus0, sp0 as int) {
                    assert(slot_storable(bus0, sp0 as int, i as int));
                }
            }
            self.push_kernel_u32(w)?;
            proof {
                assert(stored(prev, self.bus, (sp0 - 4 * (i + 1)) as u32, 4, w));
                assert(slot_storable(bus0, sp0 as int, i as int));
                let before_chain = chain;
                chain = chain.push(self.bus);
                assert forall|k: int| 0 <= k < i + 1 implies #[trigger] link(chain, sp0 as int, words, k) by {
                    if k < i {
                        assert(link(before_chain, sp0 as int, words, k));
                    }
                }
            }
            i = i + 1;
        }
        assert(words_pushed(bus0, self.bus, sp0 as int, words)) by {
            assert(chain.len() == words.len() + 1 && chain[0] == bus0 && chain[words.len() as int] == self.bus);
        }
        let status: u8 = (interrupted.flags.bits() << 1) | came_from_user;
        proof {
            lemma_layout_keeps_storable(bus0, self.bus, (sp0 - 73) as u32, 1);
        }
        let ghost before_status = self.bus;
        self.push_kernel_byte(status)?;
        proof {
            assert(status == frame_status(*old(self))) by {
                let fl = interrupted.flags.0;
                assert(((fl & 0x0F) << 1u8) | 1u8 == ((fl & 0x0F) << 1u8) | 1u8);
            }
            assert(frame_fits(bus0, sp0 as int));
            assert(stored(before_status, self.bus, (sp0 - 73) as u32, 1, status as u32));
        }
        let handler = self.ivt[index as usize];
        if handler == 0 {
            self.halted = true;
            return Ok(());
        }
        self.files[0].ip = handler;
        self.pending_interrupt = None;
        Ok(())
    }

    /// Returns from an interrupt: pops the status byte, the context word, the resume
    /// address and the sixteen registers (into registers 0 to 15 in popping order) into the
    /// register file the status names, and makes it active. With an empty kernel stack it
    /// raises a privilege violation instead.
    pub fn iret(&mut self) -> (r: VmResult<()>)
        requires
            old(self).wf(),
        ensures
            final(self).wf(),
            final(self).ivt == old(self).ivt,
            final(self).cr == old(self).cr,
            old(self).files[0].sp == STACK_TOP ==> (r is Ok <==> !(old(self).pending_interrupt == Some(1u8) && 6u8 == 1)
                && frame_fits(kernel_bus(*old(self)), old(self).files[0].sp as int)),
            old(self).files[0].sp == STACK_TOP && r is Ok ==> delivered(*old(self), *final(self), 6, old(self).files[0].ip),
            old(self).files[0].sp != STACK_TOP ==> (r is Ok <==> frame_readable(old(self).bus, old(self).files[0].sp as int)),
            old(self).files[0].sp != STACK_TOP && r is Ok ==> returned(*old(self), *final(self)),
            iret_done(*old(self), *final(self), r),
    {
        if self.files[0].sp == STACK_TOP {
            let ip = self.files[0].ip;
            return self.raise_interrupt(6, ip);
        }
        let ghost sp0 = self.files[0].sp as int;
        let ghost bus0 = self.bus;
        let status = self.pop_kernel_byte()?;
        let came_from_user = status & 1 != 0;
        let flags = status >> 1;
        proof {
            if frame_readable(bus0, sp0) {
                assert(slot_readable(bus0, sp0, 0));
                assert(slot_readable(bus0, sp0, 1));
            }
        }
        let cr = self.pop_kernel_u32()?;
        assert(slot_readable(bus0, sp0, 0));
        let ip = self.pop_kernel_u32()?;
        assert(slot_readable(bus0, sp0, 1));
        let mut regs = [0u32; 16];
        let mut i: usize = 0;
        while i < 16
            invariant
                0 <= i <= 16,
                self.wf(),
                self.ivt == old(self).ivt,
                self.cr == old(self).cr,
                self.bus == bus0,
                bus0 == old(self).bus,
                sp0 == old(self).files[0].sp,
                sp0 != STACK_TOP,
                self.active == old(self).active,
                self.halted == old(self).halted,
                self.pending_interrupt == old(self).pending_interrupt,
                self.ports == old(self).ports,
                self.files[1] == old(self).files[1],
                with_sp(old(self).files[0], self.files[0], sp0 + 9 + 4 * i),
                forall|k: int| 0 <= k < i + 2 ==> #[trigger] slot_readable(bus0, sp0, k),
                forall|k: int| 0 <= k < i ==> regs@[k] == frame_word(bus0, sp0, k + 2),
                frame_readable(bus0, sp0) ==> sp0 + 73 <= u32::MAX,
                readable(bus0, sp0 as u32, 1),
                ip == frame_word(bus0, sp0, 1),
                cr == frame_word(bus0, sp0, 0),
                loaded(bus0, sp0 as u32, 1) == Some(status as u32),
            decreases 16 - i,
        {
            proof {
                if frame_readable(bus0, sp0) {
                    assert(slot_readable(bus0, sp0, i + 2));
                }
            }
            regs[i] = self.pop_kernel_u32()?;
            assert(slot_readable(bus0, sp0, i + 2));
            i = i + 1;
        }
        proof {
            assert(frame_readable(bus0, sp0));
            assert(regs@ =~= Seq::new(16, |k: int| frame_word(bus0, sp0, k + 2)));
        }
        let target: usize = if came_from_user {
            1
        } else {
            0
        };
        self.files[target].regs = regs;
        self.files[target].ip = ip;
        self.files[target].cr = cr;
        self.files[target].flags = Flags::from_bits(flags);
        self.active = target;
        Ok(())
    }

    /// Delivers an error as its interrupt (resuming at `resume_ip`), or passes it on when it
    /// is no interrupt.
    pub fn handle_step_error(&mut self, resume_ip: u32, error: VmError) -> (r: VmResult<()>)
        requires
            old(self).wf(),
        ensures
            final(self).wf(),
            interrupt_of(error) is None ==> r == Err::<(), VmError>(error) && *final(self) == *old(self),
            fault_handled(*old(self), *final(self), resume_ip, interrupt_of(error), r),
    {
        match interrupt_for_error(&error) {
            Some(interrupt) => self.raise_interrupt(interrupt.index(), resume_ip),
            None => Err(error),
        }
    }

    /// Index of the device on `port` (the last one registered for it).
    pub fn port_index(&self, port: u32) -> (r: VmResult<usize>)
        ensures
            r matches Ok(i) ==> i < self.ports@.len() && self.ports@[i as int].0 == port,
            r matches Ok(i) ==> last_on_port(self.ports@, port, i as int),
            r is Err ==> forall|i: int| 0 <= i < self.ports@.len() ==> (#[trigger] self.ports@[i]).0 != port,
            r is Ok <==> has_port(self.ports@, port),
            r matches Err(e) ==> e is DeviceError,
    {
        let mut i = self.ports.len();
        while i > 0
            invariant
                i <= self.ports@.len(),
                forall|j: int| i <= j < self.ports@.len() ==> (#[trigger] self.ports@[j]).0 != port,
            decreases i,
        {
            if self.ports[i - 1].0 == port {
                return Ok(i - 1);
            }
            i = i - 1;
        }
        Err(VmError::DeviceError { device: [80u8, 79u8, 82u8, 84u8, 77u8, 65u8, 80u8, 0u8], offset: port, message: owned("no device mapped to port") })
    }

    /// The first interrupt a device has pending, if any.
    pub fn poll_devices(&self) -> (r: Option<Interrupt>)
        ensures
            r is None,
    {
        let mut i: usize = 0;
        while i < self.ports.len()
            invariant
                0 <= i <= self.ports@.len(),
            decreases self.ports@.len() - i,
        {
            if let Some(interrupt) = self.ports[i].1.fetch_interrupt() {
                return Some(interrupt);
            }
            i = i + 1;
        }
        None
    }
}

/// `e` is the decode error of operation `op` fetched at `ip`, with `reason`.
pub open spec fn decode_error(e: VmError, op: Op, ip: u32, reason: Seq<char>) -> bool {
    e matches VmError::DecodeError { address, opcode, arg_index, reason: t } && address == ip
        && opcode == op.code() && arg_index == 0 && t@ == reason
}

/// Upper-case hexadecimal digit of a nibble.
pub open spec fn hex_char(n: u8) -> char {
    if n < 10 {
        ((48 + n) as u8) as char
    } else {
        ((55 + n) as u8) as char
    }
}

fn hex_char_exec(n: u8) -> (c: char)
    requires
        n < 16,
    ensures
        c == hex_char(n),
{
    if n < 10 {
        (48 + n) as char
    } else {
        (55 + n) as char
    }
}

/// The reason given for a byte that names no operation: `0x`, its two upper-case
/// hexadecimal digits, ` is not a valid opcode byte`.
pub fn opcode_byte_text(byte: u8) -> (s: String)
    ensures
        s@ == seq!['0', 'x', hex_char(byte / 16), hex_char(byte % 16)] + " is not a valid opcode byte"@,
{
    let mut s = owned("0x");
    push_char(&mut s, hex_char_exec(byte / 16));
    push_char(&mut s, hex_char_exec(byte % 16));
    proof {
        reveal_strlit("0x");
        assert(s@ =~= seq!['0', 'x', hex_char(byte / 16), hex_char(byte % 16)]);
    }
    concat(s, " is not a valid opcode byte")
}

/// Operations that set the instruction pointer themselves (the others advance it past
/// themselves after they execute).
pub open spec fn controls_ip(op: Op) -> bool {
    match op {
        Op::Halt | Op::Jmp | Op::JmpReg | Op::Jz | Op::JzReg | Op::Jnz | Op::JnzReg | Op::Jc
        | Op::JcReg | Op::Jn | Op::JnReg | Op::Call | Op::CallReg | Op::Ret | Op::Iret
        | Op::IntImm | Op::IntReg => true,
        _ => false,
    }
}

/// Whether an operation sets the instruction pointer itself.
pub fn opcode_controls_ip(op: Op) -> (r: bool)
    ensures
        r == controls_ip(op),
{
    match op {
        Op::Halt | Op::Jmp | Op::JmpReg | Op::Jz | Op::JzReg | Op::Jnz | Op::JnzReg | Op::Jc
        | Op::JcReg | Op::Jn | Op::JnReg | Op::Call | Op::CallReg | Op::Ret | Op::Iret
        | Op::IntImm | Op::IntReg => true,
        _ => false,
    }
}

/// Register file `g` is `f` with its stack pointer set to `sp`.
pub open spec fn with_sp(f: RegisterFile, g: RegisterFile, sp: int) -> bool {
    &&& g.sp == sp
    &&& g.regs == f.regs && g.ip == f.ip && g.flags == f.flags && g.cr == f.cr
}

/// Machine `b` is machine `a` after pushing the low `width` bytes of `value` on the active
/// stack: the stack pointer moved down by `width`, the bytes are written there, nothing
/// else changed.
pub open spec fn pushed(a: VM, b: VM, width: u8, value: u32) -> bool {
    let f = a.active as int;
    let sp = a.files[f].sp;
    &&& width == 1 || width == 2 || width == 4
    &&& sp >= width
    &&& b.active == a.active
    &&& with_sp(a.files[f], b.files[f], sp - width)
    &&& b.files[1 - f] == a.files[1 - f]
    &&& stored(a.bus, b.bus, (sp - width) as u32, width as int, value)
    &&& b.cr == a.cr && b.ivt == a.ivt && b.pending_interrupt == a.pending_interrupt && b.halted == a.halted
    &&& b.ports == a.ports
}

/// Machine `b` is machine `a` after popping `v`, `width` bytes read at the active stack
/// pointer, which then moved up by `width`; nothing else changed.
pub open spec fn popped(a: VM, b: VM, width: u8, v: u32) -> bool {
    let f = a.active as int;
    let sp = a.files[f].sp;
    &&& width == 1 || width == 2 || width == 4
    &&& loaded(a.bus, sp, width as int) == Some(v)
    &&& sp + width <= u32::MAX
    &&& b.active == a.active
    &&& with_sp(a.files[f], b.files[f], sp + width)
    &&& b.files[1 - f] == a.files[1 - f]
    &&& b.bus == a.bus
    &&& b.cr == a.cr && b.ivt == a.ivt && b.pending_interrupt == a.pending_interrupt && b.halted == a.halted
    &&& b.ports == a.ports
}

/// Machine `b` is `a` with the active stack pointer set to `sp`; the bus is left out (a
/// failed write may have written the bytes that fit in its device), nothing else changed.
pub open spec fn sp_moved(a: VM, b: VM, sp: int) -> bool {
    &&& b.active == a.active
    &&& b.files[1 - a.active as int] == a.files[1 - a.active as int]
    &&& b.halted == a.halted
    &&& b.ivt == a.ivt
    &&& b.ports == a.ports
    &&& b.pending_interrupt == a.pending_interrupt
    &&& b.cr == a.cr
    &&& with_sp(a.files[a.active as int], b.files[a.active as int], sp)
}

/// Machine `b` is `a` with the active instruction pointer set to `ip` and nothing else
/// changed.
pub open spec fn ip_set(a: VM, b: VM, ip: u32) -> bool {
    let f = a.active as int;
    &&& others_kept(a, b)
    &&& b.cr == a.cr
    &&& b.files[f].regs == a.files[f].regs
    &&& b.files[f].sp == a.files[f].sp
    &&& b.files[f].flags == a.files[f].flags
    &&& b.files[f].cr == a.files[f].cr
    &&& b.files[f].ip == ip
}

/// What pushing the low `w` bytes of `v` does: with a stack pointer below `w` nothing
/// changes and no interrupt is due; when the bytes below the stack pointer cannot be
/// written the stack pointer has moved and a bus fault is due; otherwise the value is
/// pushed.
pub open spec fn push_done(a: VM, b: VM, w: u8, v: u32, r: VmResult<()>) -> bool {
    let sp = a.files[a.active as int].sp;
    if sp < w {
        r matches Err(e) && interrupt_of(e) is None && b == a
    } else if storable(a.bus, (sp - w) as u32, w as int) {
        r is Ok && pushed(a, b, w, v)
    } else {
        r matches Err(e) && interrupt_of(e) == Some(Interrupt::BusFault) && sp_moved(a, b, sp - w)
    }
}

/// What popping `w` bytes does: when they cannot be read a bus fault is due, when the stack
/// pointer would pass the end of the address space no interrupt is due (nothing changes in
/// either case); otherwise the value read is popped.
pub open spec fn pop_done(a: VM, b: VM, w: u8, r: VmResult<u32>) -> bool {
    let sp = a.files[a.active as int].sp;
    if !readable(a.bus, sp, w as int) {
        r matches Err(e) && interrupt_of(e) == Some(Interrupt::BusFault) && b == a
    } else if sp + w > u32::MAX {
        r matches Err(e) && interrupt_of(e) is None && b == a
    } else {
        r matches Ok(v) && popped(a, b, w, v)
    }
}

/// A failure that leaves the machine as it was, with the interrupt `fault` due (`None`: no
/// interrupt; the step ends with the error).
pub open spec fn refused(a: VM, b: VM, r: VmResult<()>, fault: Option<Interrupt>) -> bool {
    r matches Err(e) && interrupt_of(e) == fault && b == a
}

/// Machine `b` is `a` but for the bus.
pub open spec fn bus_only(a: VM, b: VM) -> bool {
    &&& b.files == a.files
    &&& b.active == a.active
    &&& b.cr == a.cr
    &&& b.ivt == a.ivt
    &&& b.ports == a.ports
    &&& b.halted == a.halted
    &&& b.pending_interrupt == a.pending_interrupt
}

/// Slot `i` holds the last device registered for `port`.
pub open spec fn last_on_port(ports: Seq<(u32, PortDevice)>, port: u32, i: int) -> bool {
    &&& 0 <= i < ports.len()
    &&& ports[i].0 == port
    &&& forall|j: int| i < j < ports.len() ==> (#[trigger] ports[j]).0 != port
}

/// Whether a device is registered for `port`.
pub open spec fn has_port(ports: Seq<(u32, PortDevice)>, port: u32) -> bool {
    exists|i: int| 0 <= i < ports.len() && (#[trigger] ports[i]).0 == port
}

/// At most one slot holds the last device of a port.
pub proof fn lemma_last_on_port_unique(ports: Seq<(u32, PortDevice)>, port: u32, i: int, j: int)
    requires
        last_on_port(ports, port, i),
        last_on_port(ports, port, j),
    ensures
        i == j,
{
    if i < j {
        assert(ports[j].0 != port);
    } else if j < i {
        assert(ports[i].0 != port);
    }
}

/// Instruction `ins` is what decoding operation `op` fetched at `ip` gives.
pub open spec fn decodes_to(bus: Bus, op: Op, ip: u32, ins: Instruction) -> bool {
    match operand_bytes(bus, op, ip) {
        None => false,
        Some(bytes) => match decoded_args(op, bytes) {
            None => false,
            Some(args) => {
                &&& ins.opcode == op
                &&& ins.arguments@ == args
                &&& ins.argument_count == arity(op.shape())
                &&& ins.size == 1 + args_size(args, used_count(ins.argument_count))
            },
        },
    }
}

/// Whether operation `op` fetched at `ip` decodes: its operand bytes can be fetched and name
/// registers where registers are due.
pub open spec fn decodable(bus: Bus, op: Op, ip: u32) -> bool {
    match operand_bytes(bus, op, ip) {
        None => false,
        Some(bytes) => decoded_args(op, bytes) is Some,
    }
}

/// Ensures of handling a failed step: the fault's interrupt is delivered to resume at
/// `resume`; a failure that raises none ends the step with its error, the machine as it
/// was.
pub open spec fn fault_handled(a: VM, b: VM, resume: u32, fault: Option<Interrupt>, r: VmResult<()>) -> bool {
    match fault {
        Some(i) => raise_done(a, b, interrupt_index(i), resume, r),
        None => r is Err && b == a,
    }
}

/// Machine `vm` with its bus switched to the active file's context.
pub open spec fn in_own_context(vm: VM) -> VM {
    VM { bus: Bus { current_context: vm.files[vm.active as int].cr, ..vm.bus }, ..vm }
}

/// After executing `ins` from `c` gave `m` and `res`: on success the machine moves past the
/// instruction unless it halted or the instruction set the instruction pointer itself; a
/// failure's interrupt is delivered to resume past the instruction.
pub open spec fn executed_then(c: VM, b: VM, ins: Instruction, m: VM, res: VmResult<()>, r: VmResult<()>) -> bool {
    let ip = c.files[c.active as int].ip;
    let next = ip.wrapping_add(crate::executor::size_offset(ins));
    &&& crate::executor::executed(c, m, ins, res)
    &&& match res {
        Ok(_) => r is Ok && if !m.halted && !controls_ip(ins.opcode) {
            ip_set(m, b, next)
        } else {
            b == m
        },
        Err(e) => fault_handled(m, b, next, interrupt_of(e), r),
    }
}

/// What a step does once operation `op` was fetched at `ip` in `c`: an instruction that
/// does not decode ends the step with a decode error; otherwise it executes.
pub open spec fn op_stepped(c: VM, b: VM, op: Op, ip: u32, r: VmResult<()>) -> bool {
    if !decodable(c.bus, op, ip) {
        fault_handled(c, b, ip.wrapping_add(1), None, r)
    } else {
        exists|ins: Instruction, m: VM, res: VmResult<()>|
            #[trigger] decodes_to(c.bus, op, ip, ins) && #[trigger] executed_then(c, b, ins, m, res, r)
    }
}

/// Ensures of one step: a halted machine stays as it is; otherwise, in the active file's
/// context, the byte at the instruction pointer must be executable (else a bus fault is
/// delivered to resume past it) and an operation's code (else the step ends with a fetch
/// error), and that operation is decoded and executed.
pub open spec fn stepped(a: VM, b: VM, r: VmResult<()>) -> bool {
    if a.halted {
        r is Ok && b == a
    } else {
        let c = in_own_context(a);
        let ip = a.files[a.active as int].ip;
        if !c.bus.accessible(ip, crate::vm_types::Access::Execute) {
            fault_handled(c, b, ip.wrapping_add(1), Some(Interrupt::BusFault), r)
        } else if c.bus.byte_at(ip) >= crate::opcode::NUM_OPS {
            fault_handled(c, b, ip.wrapping_add(1), None, r)
        } else {
            forall|op: Op| #[trigger] op.code() == c.bus.byte_at(ip) ==> op_stepped(c, b, op, ip, r)
        }
    }
}

/// Step `k` of `trace` is a step of a machine that had not halted, which succeeded with
/// `results[k]`.
pub open spec fn step_ok(trace: Seq<VM>, results: Seq<VmResult<()>>, k: int) -> bool {
    !trace[k].halted && results[k] is Ok && stepped(trace[k], trace[k + 1], results[k])
}

/// Ensures of running for at most `max` steps: a trace of successful steps from `a` ends
/// in a halted machine or after `max` steps with `b` and `Ok`, or one more step from a
/// machine that had not halted fails, giving `b` and that error.
pub open spec fn ran(a: VM, b: VM, max: nat, r: VmResult<()>) -> bool {
    exists|trace: Seq<VM>, results: Seq<VmResult<()>>|
        #![trigger trace.len(), results.len(), trace[0]]
        1 <= trace.len() <= max + 1 && trace.len() == results.len() + 1 && trace[0] == a
            && (forall|k: int| 0 <= k < trace.len() - 1 ==> #[trigger] step_ok(trace, results, k))
            && match r {
                Ok(_) => b == trace.last() && (b.halted || trace.len() == max + 1),
                Err(_) => !trace.last().halted && trace.len() <= max && stepped(trace.last(), b, r),
            }
}

/// Popping right after pushing gives back the low `width` bytes of the pushed value and
/// restores the stack pointer and both register files.
pub proof fn law_pop_after_push(a: VM, b: VM, c: VM, width: u8, value: u32, v: u32)
    requires
        a.active < 2,
        pushed(a, b, width, value),
        popped(b, c, width, v),
    ensures
        v == low_bytes(value, width as int),
        c.files == a.files,
        c.active == a.active,
{
    let f = a.active as int;
    law_load_after_store(a.bus, b.bus, (a.files[f].sp - width) as u32, width as int, value);
    assert(c.files[f] == a.files[f]);
    assert(c.files[1 - f] == a.files[1 - f]);
    assert(c.files =~= a.files);
}

/// Whether the `n` bytes after the opcode at `ip` lie in the address space and are
/// executable.
pub open spec fn fetchable(bus: Bus, ip: u32, n: int) -> bool {
    &&& ip + n <= u32::MAX
    &&& forall|k: int| 1 <= k <= n ==> #[trigger] bus.accessible((ip + k) as u32, crate::vm_types::Access::Execute)
}

/// The `n` bytes after the opcode at `ip`.
pub open spec fn code_after(bus: Bus, ip: u32, n: int) -> Seq<u8> {
    Seq::new(n as nat, |k: int| bus.byte_at((ip + 1 + k) as u32))
}

/// The operand bytes of `op` after its opcode at `ip`, when they can be fetched: their
/// number depends on the first of them.
pub open spec fn operand_bytes(bus: Bus, op: Op, ip: u32) -> Option<Seq<u8>> {
    if operands_len(op.shape(), 0) == 0 {
        Some(seq![])
    } else if !fetchable(bus, ip, 1) {
        None
    } else {
        let n = operands_len(op.shape(), bus.byte_at((ip + 1) as u32)) as int;
        if fetchable(bus, ip, n) {
            Some(code_after(bus, ip, n))
        } else {
            None
        }
    }
}

impl VM {
    /// Fetches the operand bytes of `op` at `ip` (they follow the opcode byte).
    fn fetch_operands(&self, op: Op, ip: u32) -> (r: VmResult<Vec<u8>>)
        requires
            self.wf(),
        ensures
            r matches Ok(b) ==> operand_bytes(self.bus, op, ip) == Some(b@),
            r is Err ==> operand_bytes(self.bus, op, ip) is None,
            r matches Ok(b) ==> b@.len() == operands_len(op.shape(), if b@.len() > 0 { b@[0] } else { 0 }),
    {
        let mut bytes: Vec<u8> = Vec::new();
        let n0 = operands_length(op, 0);
        if n0 == 0 {
            assert(bytes@ =~= seq![]);
            return Ok(bytes);
        }
        if ip == 0xFFFF_FFFF {
            return Err(VmError::AddressOverflow);
        }
        let first = match self.bus.fetch_byte(ip + 1) {
            Ok(b) => b,
            Err(e) => {
                assert(!fetchable(self.bus, ip, 1)) by {
                    assert(!self.bus.accessible((ip + 1) as u32, crate::vm_types::Access::Execute));
                }
                return Err(e);
            },
        };
        assert(fetchable(self.bus, ip, 1));
        bytes.push(first);
        let n = operands_length(op, first);
        let mut k: usize = 1;
        while k < n
            invariant
                1 <= k <= n <= 6,
                bytes@.len() == k,
                bytes@[0] == first,
                first == self.bus.byte_at((ip + 1) as u32),
                n == operands_len(op.shape(), first),
                ip + 1 <= u32::MAX,
                self.wf(),
                fetchable(self.bus, ip, k as int),
                bytes@ == code_after(self.bus, ip, k as int),
            decreases n - k,
        {
            if ip as u64 + 1 + k as u64 > 0xFFFF_FFFFu64 {
                assert(!fetchable(self.bus, ip, n as int));
                return Err(VmError::AddressOverflow);
            }
            let b = match self.bus.fetch_byte(ip + 1 + k as u32) {
                Ok(b) => b,
                Err(e) => {
                    assert(!fetchable(self.bus, ip, n as int)) by {
                        assert(!self.bus.accessible((ip + (k + 1)) as u32, crate::vm_types::Access::Execute));
                    }
                    return Err(e);
                },
            };
            bytes.push(b);
            k = k + 1;
            assert(bytes@ =~= code_after(self.bus, ip, k as int));
        }
        assert(bytes@ =~= code_after(self.bus, ip, n as int)) by {
            if n == 1 {
                assert(bytes@ =~= seq![first]);
            }
        }
        Ok(bytes)
    }

    /// Decodes the instruction whose opcode `op` was fetched at `ip`: its operand bytes
    /// must be fetchable and every register byte must name a register; any failure is a
    /// decode error of that instruction.
    pub fn decode_instruction(&self, op: Op, ip: u32) -> (r: VmResult<Instruction>)
        requires
            self.wf(),
        ensures
            match operand_bytes(self.bus, op, ip) {
                None => r matches Err(e) && decode_error(e, op, ip, "operand fetch failed"@),
                Some(b) => match decoded_args(op, b) {
                    None => r matches Err(e) && decode_error(e, op, ip, "invalid register encoding"@),
                    Some(args) => r matches Ok(i) && i.opcode == op && i.arguments@ == args
                        && i.argument_count == arity(op.shape()) && i.size == 1 + args_size(args, used_count(i.argument_count)),
                },
            },
    {
        let bytes = match self.fetch_operands(op, ip) {
            Ok(b) => b,
            Err(_) => {
                return Err(VmError::DecodeError { address: ip, opcode: op.as_byte(), arg_index: 0, reason: owned("operand fetch failed") });
            },
        };
        match decode_operands(op, bytes.as_slice(), ip) {
            Ok(i) => Ok(i),
            Err(_) => Err(VmError::DecodeError { address: ip, opcode: op.as_byte(), arg_index: 0, reason: owned("invalid register encoding") }),
        }
    }

    /// One step: in the active file's context, fetch the opcode at the instruction pointer,
    /// decode and execute the instruction, and move past it unless it set the instruction
    /// pointer itself. A fault is delivered as its interrupt (resuming past the opcode byte
    /// for fetch and decode faults, past the instruction for execution faults); other
    /// errors end the step with that error. A halted machine does nothing.
    pub fn step(&mut self) -> (r: VmResult<()>)
        requires
            old(self).wf(),
        ensures
            final(self).wf(),
            old(self).halted ==> r is Ok && *final(self) == *old(self),
            stepped(*old(self), *final(self), r),
    {
        if self.halted {
            return Ok(());
        }
        let context = self.files[self.active].cr;
        self.bus.set_context(context);
        let ghost c = *self;
        assert(c == in_own_context(*old(self)));
        if let Some(interrupt) = self.poll_devices() {
            let ip = self.files[self.active].ip;
            return self.raise_interrupt(interrupt.index(), ip);
        }
        let start_ip = self.files[self.active].ip;
        let byte = match self.bus.fetch_byte(start_ip) {
            Ok(b) => b,
            Err(e) => {
                return self.handle_step_error(start_ip.wrapping_add(1), e);
            },
        };
        let op = match Op::from_byte(byte) {
            Some(op) => op,
            None => {
                let e = VmError::FetchError { address: start_ip, reason: opcode_byte_text(byte) };
                return self.handle_step_error(start_ip.wrapping_add(1), e);
            },
        };
        proof {
            crate::opcode::law_opcode_byte_roundtrip(op);
        }
        let instruction = match self.decode_instruction(op, start_ip) {
            Ok(i) => i,
            Err(e) => {
                let r = self.handle_step_error(start_ip.wrapping_add(1), e);
                assert(op_stepped(c, *self, op, start_ip, r));
                return r;
            },
        };
        assert(decodes_to(c.bus, op, start_ip, instruction));
        assert(decodable(c.bus, op, start_ip));
        let size: u32 = if instruction.size > 0xFFFF_FFFF {
            0xFFFF_FFFF
        } else {
            instruction.size as u32
        };
        let res = crate::executor::execute_instruction(self, &instruction);
        let ghost m = *self;
        match res {
            Ok(()) => {},
            Err(e) => {
                let r = self.handle_step_error(start_ip.wrapping_add(size), e);
                assert(executed_then(c, *self, instruction, m, res, r));
                assert(op_stepped(c, *self, op, start_ip, r));
                return r;
            },
        }
        if !self.halted && !opcode_controls_ip(op) {
            let a = self.active;
            self.files[a].ip = start_ip.wrapping_add(size);
        }
        assert(executed_then(c, *self, instruction, m, res, Ok(())));
        assert(op_stepped(c, *self, op, start_ip, Ok(())));
        Ok(())
    }

    /// Steps until the machine halts, an error ends a step, or `max_steps` steps were taken.
    pub fn run_steps(&mut self, max_steps: u64) -> (r: VmResult<()>)
        requires
            old(self).wf(),
        ensures
            final(self).wf(),
            old(self).halted ==> r is Ok && *final(self) == *old(self),
            ran(*old(self), *final(self), max_steps as nat, r),
    {
        let mut n: u64 = 0;
        let ghost mut trace: Seq<VM> = seq![*self];
        let ghost mut results: Seq<VmResult<()>> = seq![];
        while !self.halted && n < max_steps
            invariant
                self.wf(),
                old(self).halted ==> *self == *old(self),
                n <= max_steps,
                trace.len() == n + 1,
                results.len() == n,
                trace[0] == *old(self),
                trace.last() == *self,
                forall|k: int| 0 <= k < trace.len() - 1 ==> #[trigger] step_ok(trace, results, k),
            decreases max_steps - n,
        {
            let ghost before = *self;
            let res = self.step();
            match res {
                Ok(()) => {},
                Err(e) => {
                    assert(ran(*old(self), *self, max_steps as nat, res)) by {
                        assert(trace.len() >= 1 && trace[0] == *old(self) && results.len() == n);
                    }
                    return Err(e);
                },
            }
            proof {
                let prev = trace;
                let prev_results = results;
                trace = trace.push(*self);
                results = results.push(res);
                assert forall|k: int| 0 <= k < trace.len() - 1 implies #[trigger] step_ok(trace, results, k) by {
                    if k < prev.len() - 1 {
                        assert(step_ok(prev, prev_results, k));
                    } else {
                        assert(trace[k] == before && trace[k + 1] == *self && results[k] == res);
                    }
                }
            }
            n = n + 1;
        }
        assert(ran(*old(self), *self, max_steps as nat, Ok(()))) by {
            assert(trace.len() >= 1 && trace[0] == *old(self) && results.len() == n);
        }
        Ok(())
    }

    /// Runs until the machine halts or an error ends a step (for at most 2^64 - 1 steps).
    pub fn run(&mut self) -> (r: VmResult<()>)
        requires
            old(self).wf(),
        ensures
            final(self).wf(),
            ran(*old(self), *final(self), 0xFFFF_FFFF_FFFF_FFFF, r),
    {
        self.run_steps(0xFFFF_FFFF_FFFF_FFFF)
    }
}

} // verus!
