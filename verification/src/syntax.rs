use vstd::prelude::*;
use std::ops::Range;
use crate::argument::{Argument, arg_size};
use crate::asm_error::SourceLocation;
use crate::files::FileId;
use crate::instruction::used_count;
use crate::isa::Slot;
use crate::opcode::Op;
use crate::text::owned;

verus! {

/// A reference to a label by name, with where it was written.
#[derive(Debug)]
pub struct LabelRef {
    pub name: String,
    pub file: FileId,
    pub span: Range<usize>,
}

impl LabelRef {
    /// Where the reference was written.
    pub fn loc(&self) -> (l: SourceLocation)
        ensures
            l.file == self.file,
            l.span == self.span,
    {
        SourceLocation { file: self.file, span: Range { start: self.span.start, end: self.span.end } }
    }

    /// A copy of the reference.
    pub fn duplicate(&self) -> (r: LabelRef)
        ensures
            r.name@ == self.name@,
            r.file == self.file,
            r.span == self.span,
    {
        LabelRef {
            name: owned(self.name.as_str()),
            file: self.file,
            span: Range { start: self.span.start, end: self.span.end },
        }
    }
}

/// An operand or data item as parsed: a value, or a label still to resolve.
#[derive(Debug)]
pub enum ParsedArgument {
    Value(Argument),
    LabelRef(LabelRef),
}

/// Size in bytes of a parsed argument (a label reference takes four).
pub open spec fn parsed_size(a: ParsedArgument) -> nat {
    match a {
        ParsedArgument::Value(v) => arg_size(v),
        ParsedArgument::LabelRef(_) => 4,
    }
}

/// Slot view of a parsed argument.
pub open spec fn parsed_slot(a: ParsedArgument) -> Slot {
    match a {
        ParsedArgument::Value(v) => crate::isa::slot_of(v),
        ParsedArgument::LabelRef(_) => Slot::Label,
    }
}

impl ParsedArgument {
    /// Size in bytes of the argument.
    pub fn size(&self) -> (n: usize)
        ensures
            n == parsed_size(*self),
    {
        match self {
            ParsedArgument::Value(argument) => argument.size(),
            ParsedArgument::LabelRef(_) => 4,
        }
    }

    /// An empty operand slot.
    pub fn absent() -> (r: ParsedArgument)
        ensures
            r == ParsedArgument::Value(Argument::Absent),
    {
        ParsedArgument::Value(Argument::Absent)
    }
}

/// Total size of the first `n` parsed arguments.
pub open spec fn parsed_args_size(args: Seq<ParsedArgument>, n: int) -> nat
    decreases n,
{
    if n <= 0 {
        0
    } else {
        parsed_args_size(args, n - 1) + parsed_size(args[n - 1])
    }
}

/// An instruction whose operands may still name labels.
#[derive(Debug)]
pub struct ParsedInstruction {
    pub opcode: Op,
    pub arguments: [ParsedArgument; 3],
    pub argument_count: usize,
    pub size: usize,
}

impl ParsedInstruction {
    /// Builds an instruction; its size is one opcode byte plus the sizes of the first
    /// `argument_count` arguments (all three if the count is larger).
    pub fn new(opcode: Op, arguments: [ParsedArgument; 3], argument_count: usize) -> (r: Self)
        ensures
            r.opcode == opcode,
            r.arguments == arguments,
            r.argument_count == argument_count,
            r.size == 1 + parsed_args_size(arguments@, used_count(argument_count)),
    {
        let n: usize = if argument_count < 3 {
            argument_count
        } else {
            3
        };
        let mut size: usize = 1;
        let mut i: usize = 0;
        while i < n
            invariant
                0 <= i <= n <= 3,
                n == used_count(argument_count),
                size == 1 + parsed_args_size(arguments@, i as int),
                parsed_args_size(arguments@, i as int) <= 4 * i,
            decreases n - i,
        {
            size = size + arguments[i].size();
            i = i + 1;
        }
        Self { opcode, arguments, argument_count, size }
    }

    /// Whether the instruction obeys the operand rules of its operation.
    pub open spec fn well_formed(self) -> bool {
        crate::isa::obeys_rules(
            self.opcode,
            self.argument_count,
            parsed_slot(self.arguments[0]),
            parsed_slot(self.arguments[1]),
            parsed_slot(self.arguments[2]),
        ) && self.size == 1 + parsed_args_size(self.arguments@, used_count(self.argument_count))
    }
}

} // verus!
