use vstd::prelude::*;
use std::ops::Range;
use crate::core_error::FvmError;
use crate::files::{FileId, FileTable};
use crate::text::{owned, concat};

verus! {

/// Where in which file a diagnostic points.
#[derive(Debug)]
pub struct SourceLocation {
    pub file: FileId,
    pub span: Range<usize>,
}

/// Errors of the assembler, by stage, and the file table they refer to.
#[derive(Debug)]
pub enum AssemblerError {
    LexError { loc: SourceLocation, message: String },
    ParseError { loc: SourceLocation, message: String },
    ResolverError { loc: SourceLocation, message: String },
    EmitError { loc: SourceLocation, message: String },
    IoError(String),
    FvmError(FvmError),
    Context { error: Box<AssemblerError>, files: FileTable },
}

/// The assembler's result type.
pub type Result<T> = std::result::Result<T, AssemblerError>;

/// Which stage an error comes from, with its location and message.
pub enum ErrorKind {
    Lex,
    Parse,
    Resolve,
    Emit,
}

impl AssemblerError {
    /// Stage, file, span and message of a located error (looking through contexts).
    pub open spec fn located(self) -> Option<(ErrorKind, FileId, int, int, Seq<char>)>
        decreases self,
    {
        match self {
            AssemblerError::LexError { loc, message } => Some(
                (ErrorKind::Lex, loc.file, loc.span.start as int, loc.span.end as int, message@),
            ),
            AssemblerError::ParseError { loc, message } => Some(
                (ErrorKind::Parse, loc.file, loc.span.start as int, loc.span.end as int, message@),
            ),
            AssemblerError::ResolverError { loc, message } => Some(
                (
                    ErrorKind::Resolve,
                    loc.file,
                    loc.span.start as int,
                    loc.span.end as int,
                    message@,
                ),
            ),
            AssemblerError::EmitError { loc, message } => Some(
                (ErrorKind::Emit, loc.file, loc.span.start as int, loc.span.end as int, message@),
            ),
            AssemblerError::Context { error, .. } => error.located(),
            _ => None,
        }
    }

    /// A parse error, wherever it is located.
    pub open spec fn is_parse(self) -> bool {
        &&& self is ParseError
        &&& self.located() matches Some((k, _, _, _, _)) && k is Parse
    }

    /// Whether the error is a parse error at `file`, `start..end`.
    pub open spec fn is_parse_at(self, file: FileId, start: int, end: int) -> bool {
        &&& self is ParseError
        &&& self.located() matches Some((k, f, s, e, _)) && k is Parse && f == file && s == start && e == end
    }

    /// A lexing error.
    pub fn lex(file: FileId, span: Range<usize>, message: String) -> (e: Self)
        ensures
            e is LexError,
            e.located() == Some((ErrorKind::Lex, file, span.start as int, span.end as int, message@)),
    {
        AssemblerError::LexError { loc: SourceLocation { file, span }, message }
    }

    /// A parse error.
    pub fn parse(file: FileId, span: Range<usize>, message: String) -> (e: Self)
        ensures
            e is ParseError,
            e.located() == Some(
                (ErrorKind::Parse, file, span.start as int, span.end as int, message@),
            ),
    {
        AssemblerError::ParseError { loc: SourceLocation { file, span }, message }
    }

    /// A label-resolution error.
    pub fn resolver(file: FileId, span: Range<usize>, message: String) -> (e: Self)
        ensures
            e is ResolverError,
            e.located() == Some(
                (ErrorKind::Resolve, file, span.start as int, span.end as int, message@),
            ),
    {
        AssemblerError::ResolverError { loc: SourceLocation { file, span }, message }
    }

    /// An emission error.
    pub fn emit(file: FileId, span: Range<usize>, message: String) -> (e: Self)
        ensures
            e is EmitError,
            e.located() == Some((ErrorKind::Emit, file, span.start as int, span.end as int, message@)),
    {
        AssemblerError::EmitError { loc: SourceLocation { file, span }, message }
    }

    /// The location of a located error, looking through contexts.
    pub fn loc(&self) -> (r: Option<&SourceLocation>)
        ensures
            r is Some <==> self.located() is Some,
            r matches Some(l) ==> self.located() matches Some((_, f, s, e, _)) && l.file == f
                && l.span.start == s && l.span.end == e,
        decreases self,
    {
        match self {
            AssemblerError::LexError { loc, .. } => Some(loc),
            AssemblerError::ParseError { loc, .. } => Some(loc),
            AssemblerError::ResolverError { loc, .. } => Some(loc),
            AssemblerError::EmitError { loc, .. } => Some(loc),
            AssemblerError::Context { error, .. } => error.loc(),
            AssemblerError::IoError(_) => None,
            AssemblerError::FvmError(_) => None,
        }
    }

    /// The file table attached to the error, if it carries one.
    pub fn files(&self) -> (r: Option<&FileTable>)
        ensures
            r is Some <==> self is Context,
            r matches Some(t) ==> self matches AssemblerError::Context { files, .. } && t
                == files,
    {
        match self {
            AssemblerError::Context { files, .. } => Some(files),
            _ => None,
        }
    }

    /// Attaches the file table the error's locations refer to.
    pub fn with_files(self, files: FileTable) -> (r: Self)
        ensures
            r matches AssemblerError::Context { error, files: f } && *error == self && f == files,
            r.located() == self.located(),
    {
        AssemblerError::Context { error: Box::new(self), files }
    }

    /// Moves every span of the error `offset` bytes to the right (saturating at the top of
    /// the address range); everything else is unchanged.
    pub fn with_span_offset(self, offset: usize) -> (r: Self)
        ensures
            r.located() == match self.located() {
                Some((k, f, s, e, m)) => Some(
                    (k, f, sat_add(s, offset as int), sat_add(e, offset as int), m),
                ),
                None => None,
            },
            self is IoError ==> r == self,
            self is FvmError ==> r == self,
            self is LexError ==> r is LexError,
            self is ParseError ==> r is ParseError,
            self is ResolverError ==> r is ResolverError,
            self is EmitError ==> r is EmitError,
            self matches AssemblerError::Context { files, .. } ==> r matches AssemblerError::Context { files: f2, .. } && f2 == files,
            r == shifted(self, offset as int),
        decreases self,
    {
        match self {
            AssemblerError::LexError { loc, message } => AssemblerError::LexError {
                loc: shift_loc(loc, offset),
                message,
            },
            AssemblerError::ParseError { loc, message } => AssemblerError::ParseError {
                loc: shift_loc(loc, offset),
                message,
            },
            AssemblerError::ResolverError { loc, message } => AssemblerError::ResolverError {
                loc: shift_loc(loc, offset),
                message,
            },
            AssemblerError::EmitError { loc, message } => AssemblerError::EmitError {
                loc: shift_loc(loc, offset),
                message,
            },
            AssemblerError::Context { error, files } => AssemblerError::Context {
                error: Box::new((*error).with_span_offset(offset)),
                files,
            },
            AssemblerError::IoError(message) => AssemblerError::IoError(message),
            AssemblerError::FvmError(error) => AssemblerError::FvmError(error),
        }
    }

    /// The error's text: the message of a located error, `IO error: ..` for I/O errors,
    /// `error: ..` for object-format errors.
    pub fn text(&self) -> (s: String)
        ensures
            s@ == error_text(*self),
            self.located() matches Some((_, _, _, _, m)) ==> s@ == m,
        decreases self,
    {
        match self {
            AssemblerError::LexError { message, .. } => owned(message.as_str()),
            AssemblerError::ParseError { message, .. } => owned(message.as_str()),
            AssemblerError::ResolverError { message, .. } => owned(message.as_str()),
            AssemblerError::EmitError { message, .. } => owned(message.as_str()),
            AssemblerError::IoError(message) => concat(owned("IO error: "), message.as_str()),
            AssemblerError::FvmError(error) => concat(owned("error: "), fvm_error_text(error).as_str()),
            AssemblerError::Context { error, .. } => error.text(),
        }
    }
}

/// Text of an object-format error.
pub open spec fn fvm_text(e: FvmError) -> Seq<char> {
    match e {
        FvmError::InvalidRegisterEncoding(b) => "Invalid register encoding: 0x"@ + crate::text::hex2(b),
        FvmError::InvalidFormat(m) => "Invalid format: "@ + m@,
        FvmError::UnsupportedVersion(v) => "Unsupported format version: "@ + crate::text::decimal(v as nat),
        FvmError::ValueOutOfRangeForWord(n) => "Value out of range for Word: "@ + crate::text::decimal(n as nat),
        FvmError::UnresolvedLabel(name, line, col) => "Unresolved label: "@ + name@ + " at line "@
            + crate::text::decimal(line as nat) + ", column "@ + crate::text::decimal(col as nat),
    }
}

/// Text of an assembler error.
pub open spec fn error_text(e: AssemblerError) -> Seq<char>
    decreases e,
{
    match e {
        AssemblerError::LexError { message, .. } => message@,
        AssemblerError::ParseError { message, .. } => message@,
        AssemblerError::ResolverError { message, .. } => message@,
        AssemblerError::EmitError { message, .. } => message@,
        AssemblerError::IoError(m) => "IO error: "@ + m@,
        AssemblerError::FvmError(f) => "error: "@ + fvm_text(f),
        AssemblerError::Context { error, .. } => error_text(*error),
    }
}

/// `a + b`, saturating at `usize::MAX`.
pub open spec fn sat_add(a: int, b: int) -> int {
    if a + b > usize::MAX {
        usize::MAX as int
    } else {
        a + b
    }
}

/// A location moved `offset` bytes to the right (saturating).
pub open spec fn shifted_loc(loc: SourceLocation, offset: int) -> SourceLocation {
    SourceLocation {
        file: loc.file,
        span: Range { start: sat_add(loc.span.start as int, offset) as usize, end: sat_add(loc.span.end as int, offset) as usize },
    }
}

/// An error with every location moved `offset` bytes to the right (saturating), the
/// variant, messages and file tables kept.
pub open spec fn shifted(e: AssemblerError, offset: int) -> AssemblerError
    decreases e,
{
    match e {
        AssemblerError::LexError { loc, message } => AssemblerError::LexError { loc: shifted_loc(loc, offset), message },
        AssemblerError::ParseError { loc, message } => AssemblerError::ParseError { loc: shifted_loc(loc, offset), message },
        AssemblerError::ResolverError { loc, message } => AssemblerError::ResolverError { loc: shifted_loc(loc, offset), message },
        AssemblerError::EmitError { loc, message } => AssemblerError::EmitError { loc: shifted_loc(loc, offset), message },
        AssemblerError::Context { error, files } => AssemblerError::Context { error: Box::new(shifted(*error, offset)), files },
        _ => e,
    }
}

fn shift_loc(loc: SourceLocation, offset: usize) -> (r: SourceLocation)
    ensures
        r == shifted_loc(loc, offset as int),
        r.file == loc.file,
        r.span.start == sat_add(loc.span.start as int, offset as int),
        r.span.end == sat_add(loc.span.end as int, offset as int),
{
    SourceLocation {
        file: loc.file,
        span: Range { start: loc.span.start.saturating_add(offset), end: loc.span.end.saturating_add(offset) },
    }
}

/// Text of an object-format error.
pub fn fvm_error_text(e: &FvmError) -> (s: String)
    ensures
        s@ == fvm_text(*e),
{
    match e {
        FvmError::InvalidRegisterEncoding(b) => {
            let mut s = owned("Invalid register encoding: 0x");
            crate::text::push_hex2(&mut s, *b);
            s
        },
        FvmError::InvalidFormat(m) => concat(owned("Invalid format: "), m.as_str()),
        FvmError::UnsupportedVersion(v) => {
            let mut s = owned("Unsupported format version: ");
            crate::text::push_decimal(&mut s, *v as u32);
            s
        },
        FvmError::ValueOutOfRangeForWord(n) => {
            let mut s = owned("Value out of range for Word: ");
            crate::text::push_decimal_wide(&mut s, *n as u64);
            s
        },
        FvmError::UnresolvedLabel(name, line, col) => {
            let mut s = concat(owned("Unresolved label: "), name.as_str());
            s = concat(s, " at line ");
            crate::text::push_decimal(&mut s, *line);
            s = concat(s, ", column ");
            crate::text::push_decimal(&mut s, *col);
            s
        },
    }
}

} // verus!
