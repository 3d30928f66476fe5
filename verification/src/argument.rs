use vstd::prelude::*;
use crate::bytes::{be16, be32, push_be16, push_be32};
use crate::core_error::FvmError;
use crate::register::RegisterEncoding;
use crate::section::Section;

verus! {

/// An operand of an instruction, or a data item of a data section.
#[derive(Clone, Copy, PartialEq, Eq, Structural, Debug)]
pub enum Argument {
    Absent,
    Register(RegisterEncoding),
    /// A resolved label: its address and the section it lies in.
    Label { address: u32, section: Section },
    Inmm8(u8),
    Inmm16(u16),
    Inmm32(u32),
}

/// Number of bytes the argument occupies in the instruction stream.
pub open spec fn arg_size(a: Argument) -> nat {
    match a {
        Argument::Absent => 0,
        Argument::Register(_) => 1,
        Argument::Inmm8(_) => 1,
        Argument::Inmm16(_) => 2,
        Argument::Inmm32(_) => 4,
        Argument::Label { .. } => 4,
    }
}

/// The bytes the argument is encoded as: a register's encoding byte, an immediate in
/// big-endian order, a label's address in big-endian order.
pub open spec fn arg_bytes(a: Argument) -> Seq<u8> {
    match a {
        Argument::Absent => seq![],
        Argument::Register(r) => seq![r.0],
        Argument::Inmm8(v) => seq![v],
        Argument::Inmm16(v) => be16(v),
        Argument::Inmm32(v) => be32(v),
        Argument::Label { address, .. } => be32(address),
    }
}

/// The encoding of an argument is exactly as long as its size.
pub proof fn law_arg_bytes_len(a: Argument)
    ensures
        arg_bytes(a).len() == arg_size(a),
{
}

impl Argument {
    /// Number of bytes the argument occupies in the instruction stream.
    pub fn size(&self) -> (n: usize)
        ensures
            n == arg_size(*self),
    {
        match self {
            Argument::Absent => 0,
            Argument::Register(_) => 1,
            Argument::Inmm8(_) => 1,
            Argument::Inmm16(_) => 2,
            Argument::Inmm32(_) => 4,
            Argument::Label { .. } => 4,
        }
    }

    /// The bytes the argument is encoded as; never fails.
    pub fn as_bytes(&self) -> (r: Result<Vec<u8>, FvmError>)
        ensures
            r is Ok,
            r matches Ok(b) ==> b@ == arg_bytes(*self),
    {
        let mut out: Vec<u8> = Vec::new();
        match self {
            Argument::Absent => {},
            Argument::Register(reg) => out.push(reg.0),
            Argument::Inmm8(v) => out.push(*v),
            Argument::Inmm16(v) => push_be16(&mut out, *v),
            Argument::Inmm32(v) => push_be32(&mut out, *v),
            Argument::Label { address, .. } => push_be32(&mut out, *address),
        }
        assert(out@ =~= arg_bytes(*self));
        Ok(out)
    }
}

} // verus!
