//! The assembler pipeline: preprocessing, parsing, label resolution and emission.
use vstd::prelude::*;
use crate::asm_error::Result;
use crate::core_error::FvmError;
use crate::emitter::emit;
use crate::files::FileTable;
use crate::format::FvmFormat;
use crate::lexer::Token;
use crate::parser::{Parser, ParsedFile, parse, program_from, program_of, start_state};
use crate::resolver::{ResolvedFile, resolution, all_resolvable};
use crate::emitter::{emission, entry_address};
use crate::preprocessor::{Preprocessor, SourceLoader, preprocess_with, preprocessing, preprocessed_as, PpOutcome, preprocessed_tree, preprocessing_fails};
use crate::resolver::resolve;
use crate::text::owned;

verus! {

/// What an assembly produces: the object file and the source files it was read from.
#[derive(Debug)]
pub struct AssemblyArtifacts {
    pub format: FvmFormat,
    pub files: FileTable,
}

impl AssemblyArtifacts {
    /// The byte image of the object file.
    pub fn to_bytes(&self) -> (r: std::result::Result<Vec<u8>, FvmError>)
        ensures
            r matches Ok(b) && b@ == crate::format::encode_format(self.format@),
    {
        self.format.to_bytes()
    }
}

/// What assembling a program read from files gives: on success an object file assembled
/// from the preprocessed tokens of the file table it carries; on failure either
/// preprocessing failed over the table the error carries, or the preprocessed tokens of
/// some table did not assemble.
pub open spec fn assembly_outcome(r: Result<AssemblyArtifacts>) -> bool {
    match r {
        Ok(a) => exists|toks: Seq<Token>| preprocessed_tree(a.files.entries(), toks) && #[trigger] assembled(toks, r),
        Err(e) => (e matches crate::asm_error::AssemblerError::Context { files, .. } && preprocessing_fails(files.entries()))
            || exists|files: Seq<(Seq<char>, Seq<char>)>, toks: Seq<Token>| #[trigger] preprocessed_tree(files, toks) && #[trigger] assembled(toks, r),
    }
}

/// Assembles a program given as text (it can include no files); the entry point is the
/// label `main`. Errors carry the file table.
pub fn assemble_source(source: &str) -> (r: Result<AssemblyArtifacts>)
    ensures
        assembly_outcome(r),
        r matches Ok(a) ==> a.files.entries()[0] == ("<source>"@, source@),
        match preprocessing(source@) {
            PpOutcome::Done(ts, _) => exists|toks: Seq<Token>|
                preprocessed_as(toks, ts, vstd::utf8::encode_utf8(source@)) && #[trigger] assembled(toks, r),
            PpOutcome::Failed => r is Err,
            PpOutcome::Includes => true,
        },
{
    match Preprocessor::preprocess_source(source) {
        Ok(p) => assemble_tokens(p.tokens, p.files),
        Err(e) => Err(e),
    }
}

/// Assembles the program in the file at `path` with text `source`, reading included files
/// through `loader`.
pub fn assemble_with<L: SourceLoader>(loader: &mut L, path: &str, source: &str) -> (r: Result<AssemblyArtifacts>)
    ensures
        assembly_outcome(r),
        r matches Ok(a) ==> a.files.entries()[0] == (path@, source@),
        r is Err || exists|toks: Seq<Token>| #[trigger] assembled(toks, r),
        match preprocessing(source@) {
            PpOutcome::Done(ts, _) => exists|toks: Seq<Token>|
                preprocessed_as(toks, ts, vstd::utf8::encode_utf8(source@)) && #[trigger] assembled(toks, r),
            PpOutcome::Failed => r is Err,
            PpOutcome::Includes => true,
        },
{
    match preprocess_with(loader, owned(path), owned(source)) {
        Ok(p) => assemble_tokens(p.tokens, p.files),
        Err(e) => Err(e),
    }
}

/// Assembles the program in the file at `path`, reading it and the files it includes
/// through `loader`; the file itself is resolved against the working directory (`load` is
/// given an empty current path). A file that cannot be read is an I/O error.
pub fn assemble_file<L: SourceLoader>(loader: &mut L, path: &str) -> (r: Result<AssemblyArtifacts>)
    ensures
        r is Err || exists|toks: Seq<Token>| #[trigger] assembled(toks, r),
        exists|loaded: std::result::Result<(String, String), String>|
            old(loader).answers(""@, path@, loaded) && #[trigger] assembled_loaded(loaded, r),
{
    let loaded = loader.load("", path);
    assemble_loaded(loader, loaded)
}

/// What assembling the answer `loaded` of a loader gives: a failed read is an I/O error
/// with its message; a text without active `#include` is preprocessed and assembled.
pub open spec fn assembled_loaded(loaded: std::result::Result<(String, String), String>, r: Result<AssemblyArtifacts>) -> bool {
    &&& r is Err || exists|toks: Seq<Token>| #[trigger] assembled(toks, r)
    &&& match loaded {
        Err(m) => r matches Err(crate::asm_error::AssemblerError::IoError(x)) && x@ == m@,
        Ok((p, text)) => assembly_outcome(r) && (r matches Ok(a) ==> a.files.entries()[0] == (p@, text@)),
    }
    &&& match loaded {
        Err(_) => true,
        Ok((_, text)) => match preprocessing(text@) {
            PpOutcome::Done(ts, _) => exists|toks: Seq<Token>|
                preprocessed_as(toks, ts, vstd::utf8::encode_utf8(text@)) && #[trigger] assembled(toks, r),
            PpOutcome::Failed => r is Err,
            PpOutcome::Includes => true,
        },
    }
}

/// Assembles what reading the main file gave: its resolved path and text, or the message
/// of a failed read, which is an I/O error.
pub fn assemble_loaded<L: SourceLoader>(loader: &mut L, loaded: std::result::Result<(String, String), String>) -> (r: Result<AssemblyArtifacts>)
    ensures
        assembled_loaded(loaded, r),
{
    match loaded {
        Ok((resolved, text)) => assemble_with(loader, resolved.as_str(), text.as_str()),
        Err(message) => Err(crate::asm_error::AssemblerError::IoError(message)),
    }
}

/// Parses, resolves and emits a token stream; errors get the file table attached.
pub fn assemble_tokens(tokens: Vec<Token>, files: FileTable) -> (r: Result<AssemblyArtifacts>)
    ensures
        assembled(tokens@, r),
        r matches Ok(a) ==> a.files == files,
{
    if tokens.len() == 0 {
        return Err(crate::asm_error::AssemblerError::IoError(owned("no tokens to assemble")).with_files(files));
    }
    let ghost toks = tokens@;
    let mut parser = Parser::new(tokens);
    let parsed = match parse(&mut parser) {
        Ok(p) => p,
        Err(e) => {
            return Err(e.with_files(files));
        },
    };
    let ghost pf = parsed;
    let resolved = match resolve(parsed) {
        Ok(r) => r,
        Err(e) => {
            let r = Err(e.with_files(files));
            assert(parsed_then(pf, r));
            return r;
        },
    };
    let ghost rf = resolved;
    match emit(resolved, "main") {
        Ok(format) => {
            let r = Ok(AssemblyArtifacts { format, files });
            assert(resolved_then(pf, rf, r));
            assert(parsed_then(pf, r));
            r
        },
        Err(e) => {
            let r = Err(e.with_files(files));
            assert(resolved_then(pf, rf, r));
            assert(parsed_then(pf, r));
            r
        },
    }
}

/// After resolution gave `rf` for `pf`: the assembly succeeds exactly when the program has
/// a `main` label, with the object file emitted from `rf` and `main` as entry point.
pub open spec fn resolved_then(pf: ParsedFile, rf: ResolvedFile, r: Result<AssemblyArtifacts>) -> bool {
    &&& resolution(pf, rf)
    &&& (r is Ok <==> entry_address(rf.labels@, "main"@) is Some)
    &&& (r matches Ok(a) ==> emission(rf, "main"@, a.format))
}

/// After parsing gave `pf`: every label reference must name a label, then the program is
/// resolved and emitted.
pub open spec fn parsed_then(pf: ParsedFile, r: Result<AssemblyArtifacts>) -> bool {
    &&& pf.wf()
    &&& if all_resolvable(pf) {
        exists|rf: ResolvedFile| #[trigger] resolved_then(pf, rf, r)
    } else {
        r is Err
    }
}

/// Ensures of assembling a token stream: it must not be empty and must parse as a program
/// (from its first token, no global label yet); a parsed file standing for that program is
/// then resolved and emitted.
pub open spec fn assembled(tokens: Seq<Token>, r: Result<AssemblyArtifacts>) -> bool {
    if tokens.len() == 0 {
        r is Err
    } else {
        match program_from(tokens, 0, start_state(None)) {
            None => r is Err,
            Some(v) => exists|pf: ParsedFile| #[trigger] program_of(pf) == v && parsed_then(pf, r),
        }
    }
}

} // verus!
