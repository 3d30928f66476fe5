//! The machine's register files, interrupts, fixed layout constants and errors.
use vstd::prelude::*;
use crate::core_error::FvmError;
use crate::flags::Flags;

verus! {

/// Size of the stack: 4 MiB.
pub const STACK_SIZE: u32 = 0x0040_0000;

/// Lowest virtual address of the stack (the last 4 MiB of the address space).
pub const STACK_BASE: u32 = 0xFFC0_0000;

/// Highest virtual address of the stack.
pub const STACK_TOP: u32 = 0xFFFF_FFFF;

/// Index of the kernel register file and the kernel's address-space context.
pub const KERNEL_CONTEXT: u32 = 0;

/// Index of the user register file.
pub const USER_CONTEXT: u32 = 1;

/// A register file: sixteen general registers, the instruction and stack pointers, the
/// condition flags and a context word.
#[derive(Clone, Copy, Debug)]
pub struct RegisterFile {
    pub regs: [u32; 16],
    pub ip: u32,
    pub sp: u32,
    pub flags: Flags,
    pub cr: u32,
}

impl RegisterFile {
    /// Everything zero.
    pub fn new() -> (r: Self)
        ensures
            forall|i: int| 0 <= i < 16 ==> r.regs@[i] == 0,
            r.ip == 0,
            r.sp == 0,
            r.flags.0 == 0,
            r.flags.wf(),
            r.cr == 0,
    {
        RegisterFile { regs: [0u32; 16], ip: 0, sp: 0, flags: Flags::new(), cr: 0 }
    }
}

/// The interrupts the machine raises.
#[derive(Clone, Copy, PartialEq, Eq, Structural, Debug)]
pub enum Interrupt {
    DivisionByZero,
    BusFault,
    InvalidOpcode,
    PrivilegeViolation,
    Syscall,
    DeviceEndOfInput,
}

/// Vector index of an interrupt.
pub open spec fn interrupt_index(i: Interrupt) -> u8 {
    match i {
        Interrupt::DivisionByZero => 0,
        Interrupt::BusFault => 1,
        Interrupt::InvalidOpcode => 2,
        Interrupt::PrivilegeViolation => 6,
        Interrupt::Syscall => 15,
        Interrupt::DeviceEndOfInput => 16,
    }
}

impl Interrupt {
    /// Vector index of the interrupt.
    pub fn index(self) -> (r: u8)
        ensures
            r == interrupt_index(self),
    {
        match self {
            Interrupt::DivisionByZero => 0,
            Interrupt::BusFault => 1,
            Interrupt::InvalidOpcode => 2,
            Interrupt::PrivilegeViolation => 6,
            Interrupt::Syscall => 15,
            Interrupt::DeviceEndOfInput => 16,
        }
    }

    /// The interrupt with a vector index, if any.
    pub fn from_index(index: u8) -> (r: Option<Interrupt>)
        ensures
            r matches Some(i) ==> interrupt_index(i) == index,
            r is None ==> forall|i: Interrupt| interrupt_index(i) != index,
    {
        match index {
            0 => Some(Interrupt::DivisionByZero),
            1 => Some(Interrupt::BusFault),
            2 => Some(Interrupt::InvalidOpcode),
            6 => Some(Interrupt::PrivilegeViolation),
            15 => Some(Interrupt::Syscall),
            16 => Some(Interrupt::DeviceEndOfInput),
            _ => None,
        }
    }
}

/// The access an operation needs from a page.
#[derive(Clone, Copy, PartialEq, Eq, Structural, Debug)]
pub enum Access {
    Read,
    Write,
    Execute,
}

/// Errors of the machine.
#[derive(Debug)]
pub enum VmError {
    Interrupt(Interrupt),
    InvalidRomImage(String),
    UnsupportedRomVersion(u8),
    Layout(String),
    AddressOverflow,
    UnmappedAddress { context: u32, address: u32 },
    PermissionDenied { context: u32, address: u32, required: Access, got: u8 },
    DeviceError { device: [u8; 8], offset: u32, message: String },
    UnmappedPhysicalAddress { address: u32 },
    ValueOutOfRangeForWord(usize),
    InvalidOpcode { opcode: u8, address: u32 },
    FetchError { address: u32, reason: String },
    DecodeError { address: u32, opcode: u8, arg_index: u8, reason: String },
    NoInterruptHandler { interrupt: u8, address: u32 },
    DoubleFault { first_interrupt: u8, second_interrupt: u8 },
    CoreErrors(FvmError),
}

/// The machine's result type.
pub type VmResult<T> = Result<T, VmError>;

/// The interrupt an error is delivered as, if it is delivered at all: interrupts as
/// themselves, memory and device faults as bus faults, bad encodings as invalid opcodes.
pub open spec fn interrupt_of(e: VmError) -> Option<Interrupt> {
    match e {
        VmError::Interrupt(i) => Some(i),
        VmError::UnmappedAddress { .. } => Some(Interrupt::BusFault),
        VmError::PermissionDenied { .. } => Some(Interrupt::BusFault),
        VmError::DeviceError { .. } => Some(Interrupt::BusFault),
        VmError::UnmappedPhysicalAddress { .. } => Some(Interrupt::BusFault),
        VmError::InvalidOpcode { .. } => Some(Interrupt::InvalidOpcode),
        _ => None,
    }
}

/// The interrupt an error is delivered as, if it is delivered at all.
pub fn interrupt_for_error(e: &VmError) -> (r: Option<Interrupt>)
    ensures
        r == interrupt_of(*e),
{
    match e {
        VmError::Interrupt(i) => Some(*i),
        VmError::UnmappedAddress { .. } => Some(Interrupt::BusFault),
        VmError::PermissionDenied { .. } => Some(Interrupt::BusFault),
        VmError::DeviceError { .. } => Some(Interrupt::BusFault),
        VmError::UnmappedPhysicalAddress { .. } => Some(Interrupt::BusFault),
        VmError::InvalidOpcode { .. } => Some(Interrupt::InvalidOpcode),
        _ => None,
    }
}

/// Key of a page in the page tables: the context in the high half, the page number in the
/// low half.
pub open spec fn page_key(context: u32, page: u32) -> u64 {
    ((context as u64) * 0x1_0000_0000 + page as u64) as u64
}

/// A page key is the context times 2^32 plus the page number.
pub broadcast proof fn lemma_page_key(context: u32, page: u32)
    ensures
        #[trigger] page_key(context, page) as int == context as int * 0x1_0000_0000 + page as int,
{
    assert(context as int * 0x1_0000_0000 + page as int <= u64::MAX) by (nonlinear_arith)
        requires
            context <= u32::MAX,
            page <= u32::MAX,
    ;
}

/// Different interrupts have different indices, so an index names at most one interrupt.
pub proof fn law_interrupt_index_injective(a: Interrupt, b: Interrupt)
    ensures
        interrupt_index(a) == interrupt_index(b) ==> a == b,
{
}

} // verus!
