use vstd::prelude::*;
use crate::argument::{Argument, arg_size, arg_bytes};
use crate::core_error::FvmError;
use crate::opcode::Op;

verus! {

/// A single decoded or assembled instruction.
#[derive(Clone, Copy, Debug)]
pub struct Instruction {
    pub opcode: Op,
    pub arguments: [Argument; 3],
    pub argument_count: usize,
    pub size: usize,
}

/// Number of arguments actually used: at most three.
pub open spec fn used_count(count: usize) -> int {
    if count < 3 {
        count as int
    } else {
        3
    }
}

/// Total size of the first `n` arguments.
pub open spec fn args_size(args: Seq<Argument>, n: int) -> nat
    decreases n,
{
    if n <= 0 {
        0
    } else {
        args_size(args, n - 1) + arg_size(args[n - 1])
    }
}

/// Concatenated encodings of the first `n` arguments.
pub open spec fn args_bytes(args: Seq<Argument>, n: int) -> Seq<u8>
    decreases n,
{
    if n <= 0 {
        seq![]
    } else {
        args_bytes(args, n - 1) + arg_bytes(args[n - 1])
    }
}

/// The encoding of an instruction: its opcode byte, then its used arguments.
pub open spec fn instruction_bytes(i: Instruction) -> Seq<u8> {
    seq![i.opcode.code()] + args_bytes(i.arguments@, used_count(i.argument_count))
}

/// The arguments' encodings are as long as their sizes.
pub proof fn lemma_args_bytes_len(args: Seq<Argument>, n: int)
    requires
        n <= args.len(),
    ensures
        args_bytes(args, n).len() == args_size(args, n),
    decreases n,
{
    if n > 0 {
        lemma_args_bytes_len(args, n - 1);
    }
}

/// An instruction's size bound: at most one opcode byte and three four-byte arguments.
pub proof fn lemma_args_size_bound(args: Seq<Argument>, n: int)
    requires
        n <= args.len(),
    ensures
        args_size(args, n) <= 4 * (if n < 0 { 0 } else { n }),
    decreases n,
{
    if n > 0 {
        lemma_args_size_bound(args, n - 1);
    }
}

/// An instruction's recorded size is the length of its encoding.
pub proof fn law_instruction_size(i: Instruction)
    requires
        i.size == 1 + args_size(i.arguments@, used_count(i.argument_count)),
    ensures
        instruction_bytes(i).len() == i.size,
{
    lemma_args_bytes_len(i.arguments@, used_count(i.argument_count));
}

impl Instruction {
    /// Builds an instruction; its size is one opcode byte plus the sizes of the first
    /// `argument_count` arguments (all three if the count is larger).
    pub fn new(opcode: Op, arguments: [Argument; 3], argument_count: usize) -> (r: Self)
        ensures
            r.opcode == opcode,
            r.arguments == arguments,
            r.argument_count == argument_count,
            r.size == 1 + args_size(arguments@, used_count(argument_count)),
    {
        let n: usize = if argument_count < 3 {
            argument_count
        } else {
            3
        };
        let mut size: usize = 1;
        let mut i: usize = 0;
        while i < n
            invariant
                0 <= i <= n <= 3,
                n == used_count(argument_count),
                size == 1 + args_size(arguments@, i as int),
                args_size(arguments@, i as int) <= 4 * i,
            decreases n - i,
        {
            size = size + arguments[i].size();
            i = i + 1;
        }
        Self { opcode, arguments, argument_count, size }
    }

    /// The encoding of the instruction; never fails.
    pub fn as_bytes(&self) -> (r: Result<Vec<u8>, FvmError>)
        ensures
            r matches Ok(b) && b@ == instruction_bytes(*self),
    {
        let mut bytes: Vec<u8> = Vec::new();
        bytes.push(self.opcode.as_byte());
        let n: usize = if self.argument_count < 3 {
            self.argument_count
        } else {
            3
        };
        let mut i: usize = 0;
        while i < n
            invariant
                0 <= i <= n <= 3,
                n == used_count(self.argument_count),
                bytes@ == seq![self.opcode.code()] + args_bytes(self.arguments@, i as int),
            decreases n - i,
        {
            let arg_bytes = self.arguments[i].as_bytes();
            match arg_bytes {
                Ok(b) => {
                    crate::bytes::push_all(&mut bytes, b.as_slice());
                },
                Err(_) => {},
            }
            i = i + 1;
            assert(bytes@ =~= seq![self.opcode.code()] + args_bytes(self.arguments@, i as int));
        }
        Ok(bytes)
    }
}

} // verus!
