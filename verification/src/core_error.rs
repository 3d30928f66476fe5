use vstd::prelude::*;

verus! {

/// Errors of the object format and of the core encodings.
#[derive(Clone, Debug)]
pub enum FvmError {
    InvalidRegisterEncoding(u8),
    InvalidFormat(String),
    UnsupportedVersion(u8),
    ValueOutOfRangeForWord(usize),
    UnresolvedLabel(String, u32, u32),
}

} // verus!
