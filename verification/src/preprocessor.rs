//! The preprocessor: `#include`, `#define`/`#undef` of one-token macros, and
//! `#ifdef`/`#ifndef`/`#else`/`#endif` conditionals, applied line by line before parsing.
use vstd::prelude::*;
use std::ops::Range;
use crate::asm_error::{AssemblerError, Result};
use crate::files::{FileId, FileTable};
use crate::lexer::{KindView, LexTok, Token, TokenKind, make_token, tokenize_bytes, lex_from, token_matches, tokenized, line_col};
use crate::text::{owned, concat, str_eq, utf8_lossy, string_bytes};

verus! {

/// The token stream of a program after preprocessing, and the files it was read from.
#[derive(Debug)]
pub struct Preprocessed {
    pub files: FileTable,
    pub tokens: Vec<Token>,
}

/// Reads the files that `#include` names.
pub trait SourceLoader {
    /// Whether `r` is an answer this loader, in its present state, gives when asked for
    /// `target` from the file at `current`. A loader that states nothing admits every
    /// answer.
    open spec fn answers(&self, current: Seq<char>, target: Seq<char>, r: std::result::Result<(String, String), String>) -> bool {
        true
    }

    /// Resolves `target` (the path as written) against the file at `current` and reads it:
    /// the resolved path and the file's text, or why that failed.
    fn load(&mut self, current: &str, target: &str) -> (r: std::result::Result<(String, String), String>)
        ensures
            old(self).answers(current@, target@, r),
    ;
}

/// A loader for a program given as text alone: it has no files to include.
pub struct NoIncludes;

impl SourceLoader for NoIncludes {
    open spec fn answers(&self, current: Seq<char>, target: Seq<char>, r: std::result::Result<(String, String), String>) -> bool {
        r matches Err(m) && m@ == "no include files are available"@
    }

    fn load(&mut self, current: &str, target: &str) -> (r: std::result::Result<(String, String), String>)
        ensures
            r matches Err(m) && m@ == "no include files are available"@,
    {
        Err(owned("no include files are available"))
    }
}

/// Blank bytes around directives: space, tab, line feed, vertical tab, form feed and
/// carriage return.
pub open spec fn is_ws(c: u8) -> bool {
    c == 32 || (9 <= c && c <= 13)
}

/// A macro name: a letter or `_`, then letters, digits and `_`.
pub open spec fn is_identifier(s: Seq<u8>) -> bool {
    &&& s.len() > 0
    &&& ((65 <= s[0] <= 90) || (97 <= s[0] <= 122) || s[0] == 95)
    &&& forall|i: int|
        1 <= i < s.len() ==> ((65 <= #[trigger] s[i] <= 90) || (97 <= s[i] <= 122) || (48 <= s[i]
            <= 57) || s[i] == 95)
}

/// First position in `i..j` that is not blank, or `j`.
pub open spec fn skip_ws_to(b: Seq<u8>, i: int, j: int) -> int
    decreases j - i,
{
    if i < j && is_ws(b[i]) {
        skip_ws_to(b, i + 1, j)
    } else {
        i
    }
}

/// End of `i..j` without its trailing blanks.
pub open spec fn trim_end_to(b: Seq<u8>, i: int, j: int) -> int
    decreases j - i,
{
    if j > i && is_ws(b[j - 1]) {
        trim_end_to(b, i, j - 1)
    } else {
        j
    }
}

/// First blank position in `i..j`, or `j`.
pub open spec fn find_ws_to(b: Seq<u8>, i: int, j: int) -> int
    decreases j - i,
{
    if i < j && !is_ws(b[i]) {
        find_ws_to(b, i + 1, j)
    } else {
        i
    }
}

/// First position in `i..j` that is not blank, or `j`.
fn skip_ws(b: &[u8], i: usize, j: usize) -> (k: usize)
    requires
        i <= j <= b@.len(),
    ensures
        i <= k <= j,
        forall|m: int| i <= m < k ==> is_ws(#[trigger] b@[m]),
        k < j ==> !is_ws(b@[k as int]),
        k == skip_ws_to(b@, i as int, j as int),
{
    let mut k = i;
    while k < j && (b[k] == 32 || (9 <= b[k] && b[k] <= 13))
        invariant
            i <= k <= j <= b@.len(),
            forall|m: int| i <= m < k ==> is_ws(#[trigger] b@[m]),
            skip_ws_to(b@, k as int, j as int) == skip_ws_to(b@, i as int, j as int),
        decreases j - k,
    {
        k = k + 1;
    }
    k
}

/// End of `i..j` without its trailing blanks.
fn trim_end(b: &[u8], i: usize, j: usize) -> (k: usize)
    requires
        i <= j <= b@.len(),
    ensures
        i <= k <= j,
        forall|m: int| k <= m < j ==> is_ws(#[trigger] b@[m]),
        k > i ==> !is_ws(b@[k - 1]),
        k == trim_end_to(b@, i as int, j as int),
{
    let mut k = j;
    while k > i && (b[k - 1] == 32 || (9 <= b[k - 1] && b[k - 1] <= 13))
        invariant
            i <= k <= j <= b@.len(),
            forall|m: int| k <= m < j ==> is_ws(#[trigger] b@[m]),
            trim_end_to(b@, i as int, k as int) == trim_end_to(b@, i as int, j as int),
        decreases k - i,
    {
        k = k - 1;
    }
    k
}

/// First blank position in `i..j`, or `j`.
fn find_ws(b: &[u8], i: usize, j: usize) -> (k: usize)
    requires
        i <= j <= b@.len(),
    ensures
        i <= k <= j,
        forall|m: int| i <= m < k ==> !is_ws(#[trigger] b@[m]),
        k < j ==> is_ws(b@[k as int]),
        k == find_ws_to(b@, i as int, j as int),
{
    let mut k = i;
    while k < j && !(b[k] == 32 || (9 <= b[k] && b[k] <= 13))
        invariant
            i <= k <= j <= b@.len(),
            forall|m: int| i <= m < k ==> !is_ws(#[trigger] b@[m]),
            find_ws_to(b@, k as int, j as int) == find_ws_to(b@, i as int, j as int),
        decreases j - k,
    {
        k = k + 1;
    }
    k
}

/// Whether `b[i..j]` is a macro name.
fn identifier_at(b: &[u8], i: usize, j: usize) -> (r: bool)
    requires
        i <= j <= b@.len(),
    ensures
        r == is_identifier(b@.subrange(i as int, j as int)),
{
    let ghost s = b@.subrange(i as int, j as int);
    if i >= j {
        return false;
    }
    let c = b[i];
    if !((65 <= c && c <= 90) || (97 <= c && c <= 122) || c == 95) {
        return false;
    }
    let mut k = i + 1;
    while k < j
        invariant
            i < k <= j <= b@.len(),
            s == b@.subrange(i as int, j as int),
            forall|m: int| 1 <= m < k - i ==> ((65 <= #[trigger] s[m] <= 90) || (97 <= s[m] <= 122)
                || (48 <= s[m] <= 57) || s[m] == 95),
        decreases j - k,
    {
        let d = b[k];
        if !((65 <= d && d <= 90) || (97 <= d && d <= 122) || (48 <= d && d <= 57) || d == 95) {
            assert(s[k - i] == d);
            return false;
        }
        k = k + 1;
    }
    true
}

/// Whether `b[i..j]` spells `lit`.
fn range_is(b: &[u8], i: usize, j: usize, lit: &[u8]) -> (r: bool)
    requires
        i <= j <= b@.len(),
    ensures
        r == (b@.subrange(i as int, j as int) == lit@),
{
    if j - i != lit.len() {
        return false;
    }
    let mut k: usize = 0;
    while k < lit.len()
        invariant
            0 <= k <= lit@.len(),
            j - i == lit@.len(),
            i <= j <= b@.len(),
            forall|m: int| 0 <= m < k ==> b@[i + m] == lit@[m],
        decreases lit@.len() - k,
    {
        if b[i + k] != lit[k] {
            assert(b@.subrange(i as int, j as int)[k as int] != lit@[k as int]);
            return false;
        }
        k = k + 1;
    }
    assert(b@.subrange(i as int, j as int) =~= lit@);
    true
}

/// A directive line, with the byte ranges of its operands.
pub enum Directive {
    Include(usize, usize),
    Define(usize, usize, Option<(usize, usize)>),
    Undef(usize, usize),
    IfDef(usize, usize),
    IfNDef(usize, usize),
    Else,
    EndIf,
}

/// The byte ranges a directive refers to lie in `start..end`.
pub open spec fn directive_within(d: Directive, start: int, end: int) -> bool {
    match d {
        Directive::Include(a, e) => start <= a <= e <= end,
        Directive::Define(a, e, v) => start <= a <= e <= end && (v matches Some((x, y)) ==> start
            <= x <= y <= end),
        Directive::Undef(a, e) => start <= a <= e <= end,
        Directive::IfDef(a, e) => start <= a <= e <= end,
        Directive::IfNDef(a, e) => start <= a <= e <= end,
        _ => true,
    }
}

/// The bytes of the directive names.
pub open spec fn word(k: int) -> Seq<u8> {
    if k == 0 {
        seq![105u8, 110, 99, 108, 117, 100, 101]
    } else if k == 1 {
        seq![100u8, 101, 102, 105, 110, 101]
    } else if k == 2 {
        seq![117u8, 110, 100, 101, 102]
    } else if k == 3 {
        seq![105u8, 102, 100, 101, 102]
    } else if k == 4 {
        seq![105u8, 102, 110, 100, 101, 102]
    } else if k == 5 {
        seq![101u8, 108, 115, 101]
    } else {
        seq![101u8, 110, 100, 105, 102]
    }
}

/// The directive the line `b[start..end]` holds, if any: after blanks a `#`, blanks, a
/// directive name (`include`, `define`, `undef`, `ifdef`, `ifndef`, `else`, `endif`) and
/// its operands up to the trailing blanks. `include` needs an operand; `define` a macro
/// name and optionally a value; `undef`, `ifdef` and `ifndef` exactly a macro name. A
/// missing or malformed operand is an error (`Err`); any other line is no directive.
pub open spec fn directive_of(b: Seq<u8>, start: int, end: int) -> std::result::Result<Option<Directive>, ()> {
    let t = skip_ws_to(b, start, end);
    if t >= end || b[t] != 35 {
        Ok(None)
    } else {
        let bs = skip_ws_to(b, t + 1, end);
        let be = trim_end_to(b, bs, end);
        let ne = find_ws_to(b, bs, be);
        let name = b.subrange(bs, ne);
        if bs == be {
            Ok(None)
        } else if name == word(0) {
            let rs = skip_ws_to(b, ne, be);
            if rs == be {
                Err(())
            } else {
                Ok(Some(Directive::Include(rs as usize, be as usize)))
            }
        } else if name == word(1) {
            let ts = skip_ws_to(b, ne, be);
            let ne2 = find_ws_to(b, ts, be);
            let vs = skip_ws_to(b, ne2, be);
            if ts == be || !is_identifier(b.subrange(ts, ne2)) {
                Err(())
            } else {
                Ok(Some(Directive::Define(ts as usize, ne2 as usize, if vs == be { None } else { Some((vs as usize, be as usize)) })))
            }
        } else if name == word(2) || name == word(3) || name == word(4) {
            let rs = skip_ws_to(b, ne, be);
            if !is_identifier(b.subrange(rs, be)) {
                Err(())
            } else if name == word(2) {
                Ok(Some(Directive::Undef(rs as usize, be as usize)))
            } else if name == word(3) {
                Ok(Some(Directive::IfDef(rs as usize, be as usize)))
            } else {
                Ok(Some(Directive::IfNDef(rs as usize, be as usize)))
            }
        } else if name == word(5) {
            Ok(Some(Directive::Else))
        } else if name == word(6) {
            Ok(Some(Directive::EndIf))
        } else {
            Ok(None)
        }
    }
}

/// Reads the directive of the line `b[start..end]`, if it is one: blanks, `#`, a directive
/// name, and its operands. A line whose name is not a directive's is not a directive.
fn parse_directive(b: &[u8], start: usize, end: usize, file: FileId) -> (r: Result<Option<Directive>>)
    requires
        start <= end <= b@.len(),
    ensures
        r matches Ok(Some(d)) ==> directive_within(d, start as int, end as int),
        r matches Err(e) ==> e.is_parse_at(file, start as int, end as int),
        match directive_of(b@, start as int, end as int) {
            Ok(d) => r == Ok::<Option<Directive>, AssemblerError>(d),
            Err(_) => r is Err,
        },
{
    proof {
        assert([105u8, 110, 99, 108, 117, 100, 101]@ =~= word(0));
        assert([100u8, 101, 102, 105, 110, 101]@ =~= word(1));
        assert([117u8, 110, 100, 101, 102]@ =~= word(2));
        assert([105u8, 102, 100, 101, 102]@ =~= word(3));
        assert([105u8, 102, 110, 100, 101, 102]@ =~= word(4));
        assert([101u8, 108, 115, 101]@ =~= word(5));
        assert([101u8, 110, 100, 105, 102]@ =~= word(6));
    }
    let t = skip_ws(b, start, end);
    if t >= end || b[t] != 35 {
        return Ok(None);
    }
    let bs = skip_ws(b, t + 1, end);
    let be = trim_end(b, bs, end);
    if bs == be {
        return Ok(None);
    }
    let ne = find_ws(b, bs, be);
    if range_is(b, bs, ne, &[105u8, 110, 99, 108, 117, 100, 101]) {
        let rs = skip_ws(b, ne, be);
        if rs == be {
            return Err(AssemblerError::parse(file, Range { start, end }, owned("#include expects a value")));
        }
        Ok(Some(Directive::Include(rs, be)))
    } else if range_is(b, bs, ne, &[100u8, 101, 102, 105, 110, 101]) {
        let ts = skip_ws(b, ne, be);
        if ts == be {
            return Err(AssemblerError::parse(file, Range { start, end }, owned("#define expects an identifier")));
        }
        let ne2 = find_ws(b, ts, be);
        if !identifier_at(b, ts, ne2) {
            return Err(AssemblerError::parse(file, Range { start, end }, owned("#define expects an identifier")));
        }
        let vs = skip_ws(b, ne2, be);
        let value = if vs == be {
            None
        } else {
            Some((vs, be))
        };
        Ok(Some(Directive::Define(ts, ne2, value)))
    } else if range_is(b, bs, ne, &[117u8, 110, 100, 101, 102]) || range_is(b, bs, ne, &[105u8, 102, 100, 101, 102]) || range_is(b, bs, ne, &[105u8, 102, 110, 100, 101, 102]) {
        let rs = skip_ws(b, ne, be);
        let which = if range_is(b, bs, ne, &[117u8, 110, 100, 101, 102]) {
            0u8
        } else if range_is(b, bs, ne, &[105u8, 102, 100, 101, 102]) {
            1u8
        } else {
            2u8
        };
        if !identifier_at(b, rs, be) {
            let msg = if which == 0 {
                "#undef expects an identifier"
            } else if which == 1 {
                "#ifdef expects an identifier"
            } else {
                "#ifndef expects an identifier"
            };
            return Err(AssemblerError::parse(file, Range { start, end }, owned(msg)));
        }
        if which == 0 {
            Ok(Some(Directive::Undef(rs, be)))
        } else if which == 1 {
            Ok(Some(Directive::IfDef(rs, be)))
        } else {
            Ok(Some(Directive::IfNDef(rs, be)))
        }
    } else if range_is(b, bs, ne, &[101u8, 108, 115, 101]) {
        Ok(Some(Directive::Else))
    } else if range_is(b, bs, ne, &[101u8, 110, 100, 105, 102]) {
        Ok(Some(Directive::EndIf))
    } else {
        Ok(None)
    }
}

/// An open conditional: where it started, whether its enclosing region is active, whether
/// its current branch is taken, and whether `#else` was seen.
pub struct ConditionalFrame {
    pub loc_file: FileId,
    pub loc_span: Range<usize>,
    pub parent_active: bool,
    pub condition_met: bool,
    pub seen_else: bool,
}

/// Lines are kept when every open conditional is taken within an active region.
pub open spec fn active(frames: Seq<ConditionalFrame>) -> bool {
    forall|i: int| 0 <= i < frames.len() ==> (#[trigger] frames[i]).parent_active && frames[i].condition_met
}

fn is_active(frames: &Vec<ConditionalFrame>) -> (r: bool)
    ensures
        r == active(frames@),
{
    let mut i: usize = 0;
    while i < frames.len()
        invariant
            0 <= i <= frames@.len(),
            forall|j: int| 0 <= j < i ==> (#[trigger] frames@[j]).parent_active && frames@[j].condition_met,
        decreases frames@.len() - i,
    {
        if !(frames[i].parent_active && frames[i].condition_met) {
            return false;
        }
        i = i + 1;
    }
    true
}

/// The macros of a preprocessor: each name's text and the token it stands for, if any.
pub open spec fn macros(defines: Seq<(String, Option<TokenKind>)>) -> Seq<(Seq<char>, Option<KindView>)> {
    defines.map_values(|d: (String, Option<TokenKind>)| (d.0@, match d.1 {
        Some(k) => Some(k.kind_view()),
        None => None,
    }))
}

/// Index of the first macro whose name is written with the bytes `name`, from `i`.
pub open spec fn find_macro(m: Seq<(Seq<char>, Option<KindView>)>, name: Seq<u8>, i: int) -> Option<int>
    decreases m.len() - i,
{
    if i < 0 || i >= m.len() {
        None
    } else if vstd::utf8::encode_utf8(m[i].0) == name {
        Some(i)
    } else {
        find_macro(m, name, i + 1)
    }
}

/// The search for a macro from `i` finds one exactly when a macro from `i` on has that name.
proof fn lemma_find_macro_exists(m: Seq<(Seq<char>, Option<KindView>)>, name: Seq<u8>, i: int)
    requires
        0 <= i,
    ensures
        find_macro(m, name, i) is Some <==> exists|k: int| i <= k < m.len() && vstd::utf8::encode_utf8(
            #[trigger] m[k].0,
        ) == name,
    decreases m.len() - i,
{
    if i < m.len() {
        lemma_find_macro_exists(m, name, i + 1);
        if find_macro(m, name, i) is None {
            assert forall|k: int| i <= k < m.len() implies vstd::utf8::encode_utf8(#[trigger] m[k].0) != name by {
                if k > i {
                }
            }
        }
    }
}

/// The macros after defining the macro written `name` to stand for `rep`: a macro of that
/// name is replaced in place, otherwise the new one comes last.
pub open spec fn macros_defined(m: Seq<(Seq<char>, Option<KindView>)>, name: Seq<u8>, rep: Option<KindView>) -> Seq<(Seq<char>, Option<KindView>)> {
    match find_macro(m, name, 0) {
        Some(i) => m.update(i, (crate::text::lossy_text(name), rep)),
        None => m.push((crate::text::lossy_text(name), rep)),
    }
}

/// The macros after removing the macro written `name`, if there is one.
pub open spec fn macros_undefined(m: Seq<(Seq<char>, Option<KindView>)>, name: Seq<u8>) -> Seq<(Seq<char>, Option<KindView>)> {
    match find_macro(m, name, 0) {
        Some(i) => m.remove(i),
        None => m,
    }
}

/// A token's kind after macro replacement: a name of a macro with a value stands for that
/// value.
pub open spec fn replaced(m: Seq<(Seq<char>, Option<KindView>)>, k: KindView) -> KindView {
    match k {
        KindView::Ident(n) => match find_macro(m, vstd::utf8::encode_utf8(n), 0) {
            Some(d) => match m[d].1 {
                Some(v) => v,
                None => k,
            },
            None => k,
        },
        _ => k,
    }
}

/// The tokens of the line `src[start..end]` with macros replaced, spans in the whole
/// text, or `None` when the line does not tokenize.
pub open spec fn line_tokens(m: Seq<(Seq<char>, Option<KindView>)>, src: Seq<u8>, start: int, end: int) -> Option<Seq<LexTok>> {
    match lex_from(src.subrange(start, end), 0) {
        Err(_) => None,
        Ok(ts) => Some(Seq::new(ts.len(), |k: int| LexTok { kind: replaced(m, ts[k].kind), start: ts[k].start + start, end: ts[k].end + start })),
    }
}

/// The tokens of `ts` that are neither line feeds nor the end of input.
pub open spec fn real_tokens(ts: Seq<LexTok>) -> Seq<LexTok>
    decreases ts.len(),
{
    if ts.len() == 0 {
        seq![]
    } else if ts.last().kind is Newline || ts.last().kind is Eof {
        real_tokens(ts.drop_last())
    } else {
        real_tokens(ts.drop_last()).push(ts.last())
    }
}

/// The token a macro value stands for: its text must tokenize to exactly one token (line
/// feeds aside).
pub open spec fn macro_value(v: Seq<u8>) -> Option<KindView> {
    match lex_from(v, 0) {
        Err(_) => None,
        Ok(ts) => if real_tokens(ts).len() == 1 {
            Some(real_tokens(ts)[0].kind)
        } else {
            None
        },
    }
}

/// The grammar's tokens never stand for the end of input.
pub proof fn lemma_lex_no_eof(b: Seq<u8>, i: int)
    ensures
        lex_from(b, i) matches Ok(ts) ==> forall|k: int| 0 <= k < ts.len() ==> !(#[trigger] ts[k].kind is Eof),
    decreases b.len() - i,
{
    let q = crate::lexer::skip_blank(b, i);
    if !(q < 0 || q >= b.len()) {
        match crate::lexer::scan_at(b, q) {
            crate::lexer::Scan::Fail(_) => {},
            crate::lexer::Scan::Tok(k, e) => {
                crate::lexer::lemma_skip_blank_bounds(b, i);
                crate::lexer::lemma_scan_advances(b, q);
                lemma_lex_no_eof(b, e);
                if lex_from(b, i) is Ok {
                    let rest = lex_from(b, e)->Ok_0;
                    let ts = lex_from(b, i)->Ok_0;
                    assert(ts == seq![LexTok { kind: k, start: q, end: e }] + rest);
                    assert(!(k is Eof));
                    assert forall|j: int| 0 <= j < ts.len() implies !(#[trigger] ts[j].kind is Eof) by {
                        if j > 0 {
                            assert(ts[j] == rest[j - 1]);
                        }
                    }
                }
            },
        }
    }
}

/// Preprocessing state: the files read so far, the macros defined, and the files being
/// included (innermost last).
pub struct Preprocessor {
    pub files: FileTable,
    pub defines: Vec<(String, Option<TokenKind>)>,
    pub include_stack: Vec<String>,
}

impl Preprocessor {
    /// A preprocessor with no files and no macros.
    pub fn new() -> (r: Self)
        ensures
            r.files.entries().len() == 0,
            r.defines@.len() == 0,
            r.include_stack@.len() == 0,
    {
        Preprocessor { files: FileTable::new(), defines: Vec::new(), include_stack: Vec::new() }
    }

    /// Index of the macro named `name`.
    fn lookup(&self, name: &[u8]) -> (r: Option<usize>)
        ensures
            r matches Some(i) ==> i < self.defines@.len(),
            r matches Some(i) ==> find_macro(macros(self.defines@), name@, 0) == Some(i as int),
            r is None ==> find_macro(macros(self.defines@), name@, 0) is None,
    {
        let mut i: usize = 0;
        while i < self.defines.len()
            invariant
                0 <= i <= self.defines@.len(),
                find_macro(macros(self.defines@), name@, 0) == find_macro(macros(self.defines@), name@, i as int),
            decreases self.defines@.len() - i,
        {
            let nb = string_bytes(&self.defines[i].0);
            proof {
                assert(name@.subrange(0, name@.len() as int) =~= name@);
                assert(macros(self.defines@)[i as int].0 == self.defines@[i as int].0@);
            }
            if range_is(name, 0, name.len(), nb) {
                return Some(i);
            }
            i = i + 1;
        }
        None
    }

    /// Defines (or redefines) a macro.
    fn define(&mut self, name: &[u8], replacement: Option<TokenKind>)
        ensures
            final(self).files == old(self).files,
            final(self).include_stack == old(self).include_stack,
            macros(final(self).defines@) == macros_defined(macros(old(self).defines@), name@, match replacement {
                Some(k) => Some(k.kind_view()),
                None => None,
            }),
    {
        match self.lookup(name) {
            Some(i) => {
                let entry = (utf8_lossy(name), replacement);
                self.defines.set(i, entry);
            },
            None => {
                self.defines.push((utf8_lossy(name), replacement));
            },
        }
    }

    /// Removes a macro, if defined.
    fn undefine(&mut self, name: &[u8])
        ensures
            final(self).files == old(self).files,
            final(self).include_stack == old(self).include_stack,
            macros(final(self).defines@) == macros_undefined(macros(old(self).defines@), name@),
    {
        match self.lookup(name) {
            Some(i) => {
                self.defines.remove(i);
            },
            None => {},
        }
    }

    /// Tokens of the active line `source[start..end]` of `file`, with defined names
    /// replaced by their values; spans, lines and columns refer to the whole file.
    fn expand_line(&self, file: FileId, source: &[u8], start: usize, end: usize) -> (r: Result<Vec<Token>>)
        requires
            start <= end <= source@.len(),
        ensures
            r matches Ok(ts) ==> forall|i: int| 0 <= i < ts@.len() ==> (#[trigger] ts@[i]).span.end <= source@.len(),
            r matches Err(e) ==> e.located() is Some,
            match line_tokens(macros(self.defines@), source@, start as int, end as int) {
                None => r is Err,
                Some(lt) => r matches Ok(out) && out@.len() == lt.len()
                    && forall|k: int| 0 <= k < lt.len() ==> token_matches(#[trigger] out@[k], lt[k], file, source@),
            },
    {
        let line = vstd::slice::slice_subrange(source, start, end);
        let tokens = match tokenize_bytes(line, file) {
            Ok(t) => t,
            Err(e) => {
                return Err(e.with_span_offset(start));
            },
        };
        let ghost lt = lex_from(line@, 0)->Ok_0;
        let ghost m = macros(self.defines@);
        proof {
            lemma_lex_no_eof(line@, 0);
            assert(line@ =~= source@.subrange(start as int, end as int));
        }
        let mut out: Vec<Token> = Vec::new();
        let mut i: usize = 0;
        while i < tokens.len()
            invariant
                0 <= i <= tokens@.len(),
                start <= end <= source@.len(),
                line@.len() == end - start,
                line@ == source@.subrange(start as int, end as int),
                m == macros(self.defines@),
                lex_from(line@, 0) == Ok::<Seq<LexTok>, (int, int)>(lt),
                tokenized(line@, file, Ok::<Vec<Token>, AssemblerError>(tokens)),
                forall|k: int| 0 <= k < lt.len() ==> !(#[trigger] lt[k].kind is Eof),
                out@.len() == (if i <= lt.len() { i as int } else { lt.len() as int }),
                forall|k: int| 0 <= k < out@.len() ==> token_matches(#[trigger] out@[k], LexTok { kind: replaced(m, lt[k].kind), start: lt[k].start + start, end: lt[k].end + start }, file, source@),
                forall|j: int|
                    0 <= j < tokens@.len() ==> (#[trigger] tokens@[j]).span.start <= tokens@[j].span.end <= line@.len(),
                forall|j: int| 0 <= j < out@.len() ==> (#[trigger] out@[j]).span.end <= source@.len(),
            decreases tokens@.len() - i,
        {
            proof {
                if i < lt.len() {
                    assert(token_matches(tokens@[i as int], lt[i as int], file, line@));
                }
            }
            let tok = &tokens[i];
            if !matches!(tok.kind, TokenKind::Eof) {
                let span = Range { start: tok.span.start + start, end: tok.span.end + start };
                let kind = match &tok.kind {
                    TokenKind::Ident(name) => match self.lookup(string_bytes(name)) {
                        Some(d) => match &self.defines[d].1 {
                            Some(rep) => rep.duplicate(),
                            None => tok.kind.duplicate(),
                        },
                        None => tok.kind.duplicate(),
                    },
                    _ => tok.kind.duplicate(),
                };
                out.push(make_token(kind, file, source, span));
            }
            i = i + 1;
        }
        proof {
            assert forall|k: int| 0 <= k < lt.len() implies token_matches(#[trigger] out@[k], line_tokens(m, source@, start as int, end as int)->0[k], file, source@) by {
                assert(token_matches(out@[k], LexTok { kind: replaced(m, lt[k].kind), start: lt[k].start + start, end: lt[k].end + start }, file, source@));
            }
        }
        Ok(out)
    }
}

/// The single token a macro value stands for.
fn macro_replacement(value: &[u8], file: FileId, span: Range<usize>) -> (r: Result<TokenKind>)
    ensures
        r matches Err(e) ==> e.located() is Some,
        match macro_value(value@) {
            Some(k) => r matches Ok(t) && t.kind_view() == k,
            None => r is Err,
        },
{
    let tokens = tokenize_bytes(value, file)?;
    let ghost lt = lex_from(value@, 0)->Ok_0;
    let mut found: Option<TokenKind> = None;
    let mut count: usize = 0;
    let mut i: usize = 0;
    while i < tokens.len()
        invariant
            0 <= i <= tokens@.len(),
            count <= i,
            lex_from(value@, 0) == Ok::<Seq<LexTok>, (int, int)>(lt),
            tokenized(value@, file, Ok::<Vec<Token>, AssemblerError>(tokens)),
            count == real_tokens(lt.take(if i <= lt.len() { i as int } else { lt.len() as int })).len(),
            count >= 1 ==> (found matches Some(t) && t.kind_view() == real_tokens(lt.take(if i <= lt.len() { i as int } else { lt.len() as int }))[0].kind),
        decreases tokens@.len() - i,
    {
        let ghost before = lt.take(if i <= lt.len() { i as int } else { lt.len() as int });
        proof {
            if i < lt.len() {
                assert(token_matches(tokens@[i as int], lt[i as int], file, value@));
                assert(lt.take(i + 1).drop_last() =~= lt.take(i as int));
            }
        }
        if !matches!(tokens[i].kind, TokenKind::Eof | TokenKind::Newline) {
            if count == 0 {
                found = Some(tokens[i].kind.duplicate());
            }
            count = count + 1;
        }
        i = i + 1;
    }
    assert(lt.take(lt.len() as int) =~= lt);
    if count != 1 {
        return Err(AssemblerError::parse(file, span, owned("#define values must expand to exactly one token")));
    }
    match found {
        Some(k) => Ok(k),
        None => Err(AssemblerError::parse(file, span, owned("#define values must expand to exactly one token"))),
    }
}

/// Whether `path` is among the files being included.
fn on_stack(stack: &Vec<String>, path: &str) -> (r: bool)
    ensures
        r == exists|i: int| 0 <= i < stack@.len() && (#[trigger] stack@[i])@ == path@,
{
    let mut i: usize = 0;
    while i < stack.len()
        invariant
            0 <= i <= stack@.len(),
            forall|k: int| 0 <= k < i ==> (#[trigger] stack@[k])@ != path@,
        decreases stack@.len() - i,
    {
        if str_eq(stack[i].as_str(), path) {
            return true;
        }
        i = i + 1;
    }
    false
}

/// The path inside the quotes of an include operand `b[i..j]`.
fn include_path(b: &[u8], i: usize, j: usize, file: FileId, span: Range<usize>) -> (r: Result<(usize, usize)>)
    requires
        i <= j <= b@.len(),
    ensures
        r matches Ok((x, y)) ==> i < x <= y < j && b@[x - 1] == 34 && b@[y as int] == 34,
        r matches Err(e) ==> e.located() is Some,
        r is Ok <==> (j - i >= 2 && b@[i as int] == 34 && b@[j - 1] == 34),
{
    if j - i >= 2 && b[i] == 34 && b[j - 1] == 34 {
        Ok((i + 1, j - 1))
    } else {
        Err(AssemblerError::parse(file, span, owned("#include expects a quoted path")))
    }
}

/// Line feed token at `at`, ending a statement.
pub open spec fn line_feed(at: int) -> LexTok {
    LexTok { kind: KindView::Newline, start: at, end: at }
}

/// Tokens `out` ending with a line feed: a line feed at `at` is added unless the last token
/// is one.
pub open spec fn with_line_end(out: Seq<LexTok>, at: int) -> Seq<LexTok> {
    if out.len() == 0 || !(out.last().kind is Newline) {
        out.push(line_feed(at))
    } else {
        out
    }
}

/// Preprocessing state within a file: the macros, the open conditionals, and the tokens
/// so far.
pub struct PpState {
    pub macros: Seq<(Seq<char>, Option<KindView>)>,
    pub frames: Seq<ConditionalFrame>,
    pub out: Seq<LexTok>,
}

/// What a directive line does.
pub enum PpStep {
    /// The state after it.
    Next(PpState),
    /// A preprocessing error.
    Fail,
    /// An active `#include` of a quoted path: what follows depends on the file read.
    Include,
}

/// `#ifdef NAME` and `#ifndef NAME` each open one conditional and change nothing else; the
/// lines after `#ifdef NAME` are kept exactly when lines are kept where it stands and a
/// macro of that name is defined, those after `#ifndef NAME` exactly when lines are kept
/// there and no such macro is defined: for the same macros the two take opposite branches.
pub proof fn law_ifdef_ifndef_opposite(a: usize, b: usize, src: Seq<u8>, file: FileId, o: int, e: int, st: PpState)
    ensures
        ({
            let name = src.subrange(a as int, b as int);
            let defined = exists|k: int| 0 <= k < st.macros.len() && vstd::utf8::encode_utf8(#[trigger] st.macros[k].0) == name;
            &&& apply_directive(Directive::IfDef(a, b), src, file, o, e, st) matches PpStep::Next(s)
                && s.macros == st.macros && s.out == st.out && s.frames.len() == st.frames.len() + 1
                && s.frames.drop_last() == st.frames && (active(s.frames) <==> (active(st.frames) && defined))
            &&& apply_directive(Directive::IfNDef(a, b), src, file, o, e, st) matches PpStep::Next(s)
                && s.macros == st.macros && s.out == st.out && s.frames.len() == st.frames.len() + 1
                && s.frames.drop_last() == st.frames && (active(s.frames) <==> (active(st.frames) && !defined))
        }),
{
    let name = src.subrange(a as int, b as int);
    lemma_find_macro_exists(st.macros, name, 0);
    let act = active(st.frames);
    let here = Range { start: o as usize, end: e as usize };
    let c1 = find_macro(st.macros, name, 0) is Some;
    let f1 = st.frames.push(ConditionalFrame { loc_file: file, loc_span: here, parent_active: act, condition_met: c1, seen_else: false });
    let f2 = st.frames.push(ConditionalFrame { loc_file: file, loc_span: here, parent_active: act, condition_met: !c1, seen_else: false });
    assert(f1.drop_last() =~= st.frames);
    assert(f2.drop_last() =~= st.frames);
    assert(active(f1) <==> (act && c1)) by {
        if act && c1 {
            assert forall|i: int| 0 <= i < f1.len() implies (#[trigger] f1[i]).parent_active && f1[i].condition_met by {
                if i < st.frames.len() {
                    assert(f1[i] == st.frames[i]);
                }
            }
        }
        if active(f1) {
            assert(f1[st.frames.len() as int].condition_met);
            assert forall|i: int| 0 <= i < st.frames.len() implies (#[trigger] st.frames[i]).parent_active && st.frames[i].condition_met by {
                assert(f1[i] == st.frames[i]);
            }
        }
    }
    assert(active(f2) <==> (act && !c1)) by {
        if act && !c1 {
            assert forall|i: int| 0 <= i < f2.len() implies (#[trigger] f2[i]).parent_active && f2[i].condition_met by {
                if i < st.frames.len() {
                    assert(f2[i] == st.frames[i]);
                }
            }
        }
        if active(f2) {
            assert(f2[st.frames.len() as int].condition_met);
            assert forall|i: int| 0 <= i < st.frames.len() implies (#[trigger] st.frames[i]).parent_active && st.frames[i].condition_met by {
                assert(f2[i] == st.frames[i]);
            }
        }
    }
}

/// `#else` turns the innermost open conditional over once: the lines after it are kept
/// exactly when the enclosing lines are kept and the conditional's own test failed, and a
/// second `#else`, or one with no conditional open, is an error. `#endif` closes the
/// innermost conditional, so the lines after it are kept exactly when the enclosing ones
/// are; with no conditional open it is an error.
pub proof fn law_else_and_endif(src: Seq<u8>, file: FileId, o: int, e: int, st: PpState)
    ensures
        (st.frames.len() == 0 || st.frames.last().seen_else) ==> apply_directive(Directive::Else, src, file, o, e, st) is Fail,
        st.frames.len() > 0 && !st.frames.last().seen_else && active(st.frames.drop_last())
            && st.frames.last().parent_active == active(st.frames.drop_last()) ==> (apply_directive(Directive::Else, src, file, o, e, st)
            matches PpStep::Next(s) && s.macros == st.macros && s.out == st.out && s.frames.len() == st.frames.len()
            && (active(s.frames) <==> !st.frames.last().condition_met) && (active(st.frames) <==> st.frames.last().condition_met)),
        st.frames.len() == 0 ==> apply_directive(Directive::EndIf, src, file, o, e, st) is Fail,
        st.frames.len() > 0 ==> (apply_directive(Directive::EndIf, src, file, o, e, st) matches PpStep::Next(s)
            && s.macros == st.macros && s.out == st.out && s.frames == st.frames.drop_last()),
{
    if st.frames.len() > 0 && !st.frames.last().seen_else && active(st.frames.drop_last())
        && st.frames.last().parent_active == active(st.frames.drop_last()) {
        let l = st.frames.last();
        let inner = st.frames.drop_last();
        let f = inner.push(ConditionalFrame { loc_file: l.loc_file, loc_span: l.loc_span,
            parent_active: l.parent_active, condition_met: !l.condition_met, seen_else: true });
        assert(st.frames =~= inner.push(l));
        assert(active(f) <==> !l.condition_met) by {
            if !l.condition_met {
                assert forall|i: int| 0 <= i < f.len() implies (#[trigger] f[i]).parent_active && f[i].condition_met by {
                    if i < inner.len() {
                        assert(f[i] == inner[i]);
                    }
                }
            }
            if active(f) {
                assert(f[inner.len() as int].condition_met);
            }
        }
        assert(active(st.frames) <==> l.condition_met) by {
            if l.condition_met {
                assert forall|i: int| 0 <= i < st.frames.len() implies (#[trigger] st.frames[i]).parent_active && st.frames[i].condition_met by {
                    if i < inner.len() {
                        assert(st.frames[i] == inner[i]);
                    }
                }
            }
            if active(st.frames) {
                assert(st.frames[inner.len() as int].condition_met);
            }
        }
    }
}

/// What directive `d` on the line `src[o..e]` of `file` does in state `st`. Conditionals
/// open, flip (once) and close; `#include`, `#define` and `#undef` act only where lines are
/// kept.
pub open spec fn apply_directive(d: Directive, src: Seq<u8>, file: FileId, o: int, e: int, st: PpState) -> PpStep {
    let act = active(st.frames);
    let here = Range { start: o as usize, end: e as usize };
    match d {
        Directive::IfDef(a, b) => PpStep::Next(PpState {
            frames: st.frames.push(ConditionalFrame { loc_file: file, loc_span: here, parent_active: act,
                condition_met: find_macro(st.macros, src.subrange(a as int, b as int), 0) is Some, seen_else: false }),
            ..st
        }),
        Directive::IfNDef(a, b) => PpStep::Next(PpState {
            frames: st.frames.push(ConditionalFrame { loc_file: file, loc_span: here, parent_active: act,
                condition_met: find_macro(st.macros, src.subrange(a as int, b as int), 0) is None, seen_else: false }),
            ..st
        }),
        Directive::Else => if st.frames.len() == 0 || st.frames.last().seen_else {
            PpStep::Fail
        } else {
            let l = st.frames.last();
            PpStep::Next(PpState {
                frames: st.frames.drop_last().push(ConditionalFrame { loc_file: l.loc_file, loc_span: l.loc_span,
                    parent_active: l.parent_active, condition_met: !l.condition_met, seen_else: true }),
                ..st
            })
        },
        Directive::EndIf => if st.frames.len() == 0 {
            PpStep::Fail
        } else {
            PpStep::Next(PpState { frames: st.frames.drop_last(), ..st })
        },
        Directive::Include(a, b) => if !act {
            PpStep::Next(st)
        } else if b - a >= 2 && src[a as int] == 34 && src[b - 1] == 34 {
            PpStep::Include
        } else {
            PpStep::Fail
        },
        Directive::Define(a, b, v) => if !act {
            PpStep::Next(st)
        } else {
            match v {
                None => PpStep::Next(PpState { macros: macros_defined(st.macros, src.subrange(a as int, b as int), None), ..st }),
                Some((x, y)) => match macro_value(src.subrange(x as int, y as int)) {
                    None => PpStep::Fail,
                    Some(k) => PpStep::Next(PpState { macros: macros_defined(st.macros, src.subrange(a as int, b as int), Some(k)), ..st }),
                },
            }
        },
        Directive::Undef(a, b) => if !act {
            PpStep::Next(st)
        } else {
            PpStep::Next(PpState { macros: macros_undefined(st.macros, src.subrange(a as int, b as int)), ..st })
        },
    }
}

/// What preprocessing a file gives.
pub enum PpOutcome {
    /// Its tokens (without an end-of-input token) and the macros after it.
    Done(Seq<LexTok>, Seq<(Seq<char>, Option<KindView>)>),
    /// A preprocessing error.
    Failed,
    /// An active `#include` was met: what follows depends on the files the loader reads.
    Includes,
}

/// The end of a file: a line feed ends its last line when the text does not, and every
/// conditional must be closed.
pub open spec fn pp_finish(src: Seq<u8>, st: PpState) -> PpOutcome {
    if st.frames.len() > 0 {
        PpOutcome::Failed
    } else if src.len() > 0 && src.last() != 10 && st.out.len() > 0 {
        PpOutcome::Done(st.out.push(line_feed(src.len() as int)), st.macros)
    } else {
        PpOutcome::Done(st.out, st.macros)
    }
}

/// Preprocessing the text `src` of `file` line by line from offset `o` in state `st`: a
/// directive line acts (and, where lines are kept, ends a statement); another line, where
/// lines are kept, gives its tokens with macros replaced.
pub open spec fn pp_from(src: Seq<u8>, file: FileId, o: int, st: PpState) -> PpOutcome
    decreases src.len() - o,
{
    if o < 0 || o >= src.len() {
        pp_finish(src, st)
    } else {
        let e = crate::ports::line_end_at(src, o);
        if e <= o || e > src.len() {
            PpOutcome::Failed
        } else {
            match directive_of(src, o, e) {
                Err(_) => PpOutcome::Failed,
                Ok(None) => if active(st.frames) {
                    match line_tokens(st.macros, src, o, e) {
                        None => PpOutcome::Failed,
                        Some(ts) => pp_from(src, file, e, PpState { out: st.out + ts, ..st }),
                    }
                } else {
                    pp_from(src, file, e, st)
                },
                Ok(Some(d)) => match apply_directive(d, src, file, o, e, st) {
                    PpStep::Fail => PpOutcome::Failed,
                    PpStep::Include => PpOutcome::Includes,
                    PpStep::Next(st2) => pp_from(src, file, e, if active(st2.frames) {
                        PpState { out: with_line_end(st2.out, e), ..st2 }
                    } else {
                        st2
                    }),
                },
            }
        }
    }
}

/// A token of the output as the model sees it: its file, kind and span.
pub open spec fn tok_view(t: Token) -> (FileId, LexTok) {
    (t.file, LexTok { kind: t.kind.kind_view(), start: t.span.start as int, end: t.span.end as int })
}

/// The model's view of a token sequence.
pub open spec fn tviews(ts: Seq<Token>) -> Seq<(FileId, LexTok)> {
    ts.map_values(|t: Token| tok_view(t))
}

/// Tokens `ts` of one file, each with that file.
pub open spec fn tagged(file: FileId, ts: Seq<LexTok>) -> Seq<(FileId, LexTok)> {
    ts.map_values(|t: LexTok| (file, t))
}

/// The bytes of file `f` of the table `files`.
pub open spec fn file_bytes(files: Seq<(Seq<char>, Seq<char>)>, f: int) -> Seq<u8> {
    vstd::utf8::encode_utf8(files[f].1)
}

/// Every token names a file of `files` and has the line and column of its start there.
pub open spec fn lines_ok(ts: Seq<Token>, files: Seq<(Seq<char>, Seq<char>)>) -> bool {
    forall|k: int| 0 <= k < ts.len() ==> (#[trigger] ts[k]).file < files.len()
        && ts[k].line == line_col(file_bytes(files, ts[k].file as int), ts[k].span.start as int).0 as u32
        && ts[k].col == line_col(file_bytes(files, ts[k].file as int), ts[k].span.start as int).1 as u32
}

/// Table `e` begins with table `f`.
pub open spec fn extends(e: Seq<(Seq<char>, Seq<char>)>, f: Seq<(Seq<char>, Seq<char>)>) -> bool {
    e.len() >= f.len() && e.subrange(0, f.len() as int) == f
}

/// The paths of the files being included.
pub open spec fn stack_paths(s: Seq<String>) -> Seq<Seq<char>> {
    s.map_values(|p: String| p@)
}

/// Statement end across files: a line feed of `file` at `at` unless the output already ends
/// with one.
pub open spec fn tree_line_end(out: Seq<(FileId, LexTok)>, file: FileId, at: int) -> Seq<(FileId, LexTok)> {
    if out.len() == 0 || !(out.last().1.kind is Newline) {
        out.push((file, line_feed(at)))
    } else {
        out
    }
}

/// Preprocessing state within a file when included files are followed: the macros, the
/// open conditionals, and the tokens so far of this file and the files it included.
pub struct TreeState {
    pub macros: Seq<(Seq<char>, Option<KindView>)>,
    pub frames: Seq<ConditionalFrame>,
    pub out: Seq<(FileId, LexTok)>,
}

/// What preprocessing a file and the files it includes gives.
pub enum TreeOutcome {
    /// The tokens, the macros after it, and the number of files read by then.
    Done(Seq<(FileId, LexTok)>, Seq<(Seq<char>, Option<KindView>)>, int),
    /// A preprocessing error.
    Failed,
}

/// The end of a file when included files are followed (as `pp_finish`).
pub open spec fn tree_finish(src: Seq<u8>, file: FileId, st: TreeState, next: int) -> TreeOutcome {
    if st.frames.len() > 0 {
        TreeOutcome::Failed
    } else if src.len() > 0 && src.last() != 10 && st.out.len() > 0 {
        TreeOutcome::Done(st.out.push((file, line_feed(src.len() as int))), st.macros, next)
    } else {
        TreeOutcome::Done(st.out, st.macros, next)
    }
}

/// Preprocessing file `file` of the table `files` from offset `o` in state `st`, the files
/// `next..` of the table being those its includes read, in order, and `stack` the paths of
/// the files that include it. A line is handled as in `pp_from`; an active `#include` of a
/// quoted path reads the next file of the table, which must not be the file itself or one
/// including it (a circular include is an error), preprocesses it from a state with the
/// current macros and no open conditional, appends its tokens, continues with the macros it
/// leaves, and ends the statement.
pub open spec fn pp_tree(files: Seq<(Seq<char>, Seq<char>)>, file: FileId, o: int, st: TreeState, next: int,
    stack: Seq<Seq<char>>) -> TreeOutcome
    decreases files.len() - next, file_bytes(files, file as int).len() - o,
{
    let src = file_bytes(files, file as int);
    if next < 0 || next > files.len() || file >= files.len() {
        TreeOutcome::Failed
    } else if o < 0 || o >= src.len() {
        tree_finish(src, file, st, next)
    } else {
        let e = crate::ports::line_end_at(src, o);
        if e <= o || e > src.len() {
            TreeOutcome::Failed
        } else {
            match directive_of(src, o, e) {
                Err(_) => TreeOutcome::Failed,
                Ok(None) => if active(st.frames) {
                    match line_tokens(st.macros, src, o, e) {
                        None => TreeOutcome::Failed,
                        Some(ts) => pp_tree(files, file, e, TreeState { out: st.out + tagged(file, ts), ..st }, next, stack),
                    }
                } else {
                    pp_tree(files, file, e, st, next, stack)
                },
                Ok(Some(d)) => if d is Include && active(st.frames) {
                    let a = d->Include_0 as int;
                    let b = d->Include_1 as int;
                    let inner = stack.push(files[file as int].0);
                    if !(b - a >= 2 && src[a] == 34 && src[b - 1] == 34) {
                        TreeOutcome::Failed
                    } else if next >= files.len() || next >= 0xFFFF_FFFE || inner.contains(files[next].0) {
                        TreeOutcome::Failed
                    } else {
                        match pp_tree(files, next as FileId, 0, TreeState { macros: st.macros, frames: seq![], out: seq![] }, next + 1, inner) {
                            TreeOutcome::Failed => TreeOutcome::Failed,
                            TreeOutcome::Done(ts2, m2, n2) => if n2 <= next || n2 > files.len() {
                                TreeOutcome::Failed
                            } else {
                                let st2 = TreeState { macros: m2, frames: st.frames, out: st.out + ts2 };
                                pp_tree(files, file, e, if active(st2.frames) {
                                    TreeState { out: tree_line_end(st2.out, file, e), ..st2 }
                                } else {
                                    st2
                                }, n2, stack)
                            },
                        }
                    }
                } else {
                    match apply_directive(d, src, file, o, e, PpState { macros: st.macros, frames: st.frames, out: seq![] }) {
                        PpStep::Next(s2) => {
                            let st2 = TreeState { macros: s2.macros, frames: s2.frames, out: st.out };
                            pp_tree(files, file, e, if active(st2.frames) {
                                TreeState { out: tree_line_end(st2.out, file, e), ..st2 }
                            } else {
                                st2
                            }, next, stack)
                        },
                        _ => TreeOutcome::Failed,
                    }
                },
            }
        }
    }
}

/// Preprocessing from offset `o` of `file` with the macros `m`, the conditionals `frames`
/// and the tokens `toks` so far, the files from `next` on being read next.
pub open spec fn tree_at(files: Seq<(Seq<char>, Seq<char>)>, file: FileId, o: int, m: Seq<(Seq<char>, Option<KindView>)>,
    frames: Seq<ConditionalFrame>, toks: Seq<Token>, next: int, stack: Seq<Seq<char>>) -> TreeOutcome {
    pp_tree(files, file, o, TreeState { macros: m, frames, out: tviews(toks) }, next, stack)
}

/// Tokens `ts` of `file` with text `src` are the tokens `g`.
pub open spec fn tokens_are(ts: Seq<Token>, g: Seq<LexTok>, file: FileId, src: Seq<u8>) -> bool {
    &&& ts.len() == g.len()
    &&& forall|k: int| 0 <= k < g.len() ==> token_matches(#[trigger] ts[k], g[k], file, src)
}

/// Adds a Newline token unless the stream already ends with one.
fn end_statement(tokens: &mut Vec<Token>, file: FileId, source: &[u8], at: usize)
    requires
        at <= source@.len(),
    ensures
        final(tokens)@.len() >= old(tokens)@.len(),
        forall|i: int| 0 <= i < old(tokens)@.len() ==> final(tokens)@[i] == old(tokens)@[i],
        forall|g: Seq<LexTok>| tokens_are(old(tokens)@, g, file, source@) ==> tokens_are(final(tokens)@, with_line_end(g, at as int), file, source@),
        tviews(final(tokens)@) == tree_line_end(tviews(old(tokens)@), file, at as int),
        forall|files: Seq<(Seq<char>, Seq<char>)>| lines_ok(old(tokens)@, files) && file < files.len()
            && file_bytes(files, file as int) == source@ ==> #[trigger] lines_ok(final(tokens)@, files),
{
    let ghost before = tokens@;
    let needs = if tokens.len() == 0 {
        true
    } else {
        !matches!(tokens[tokens.len() - 1].kind, TokenKind::Newline)
    };
    if needs {
        tokens.push(make_token(TokenKind::Newline, file, source, Range { start: at, end: at }));
        proof {
            assert(tviews(tokens@) =~= tviews(before).push((file, line_feed(at as int))));
            assert forall|files: Seq<(Seq<char>, Seq<char>)>| lines_ok(before, files) && file < files.len()
                && file_bytes(files, file as int) == source@ implies #[trigger] lines_ok(tokens@, files) by {
                assert forall|k: int| 0 <= k < tokens@.len() implies (#[trigger] tokens@[k]).file < files.len()
                    && tokens@[k].line == line_col(file_bytes(files, tokens@[k].file as int), tokens@[k].span.start as int).0 as u32
                    && tokens@[k].col == line_col(file_bytes(files, tokens@[k].file as int), tokens@[k].span.start as int).1 as u32 by {
                    if k < before.len() {
                        assert(tokens@[k] == before[k]);
                    }
                }
            }
        }
    } else {
        proof {
            assert(tviews(tokens@) =~= tviews(before));
        }
    }
}

/// A table begins with itself.
proof fn lemma_extends_refl(f: Seq<(Seq<char>, Seq<char>)>)
    ensures
        extends(f, f),
{
    assert(f.subrange(0, f.len() as int) =~= f);
}

/// A table that begins with `f` has the files of `f`.
proof fn lemma_extends_keeps(e: Seq<(Seq<char>, Seq<char>)>, f: Seq<(Seq<char>, Seq<char>)>, i: int)
    requires
        extends(e, f),
        0 <= i < f.len(),
    ensures
        e[i] == f[i],
{
    assert(e.subrange(0, f.len() as int)[i] == e[i]);
}

/// Beginning with a table is transitive.
proof fn lemma_extends_trans(e: Seq<(Seq<char>, Seq<char>)>, f: Seq<(Seq<char>, Seq<char>)>, g: Seq<(Seq<char>, Seq<char>)>)
    requires
        extends(e, f),
        extends(f, g),
    ensures
        extends(e, g),
{
    assert forall|i: int| 0 <= i < g.len() implies e.subrange(0, g.len() as int)[i] == g[i] by {
        lemma_extends_keeps(e, f, i);
        lemma_extends_keeps(f, g, i);
    }
    assert(e.subrange(0, g.len() as int) =~= g);
}

/// Carries out a directive other than `#include` on the line `source[offset..end]` of
/// `file`, where `act` tells whether lines are kept there.
fn run_directive(pp: &mut Preprocessor, frames: &mut Vec<ConditionalFrame>, d: &Directive, source: &[u8],
    offset: usize, end: usize, file: FileId, act: bool, Ghost(out): Ghost<Seq<LexTok>>) -> (r: Result<()>)
    requires
        !(*d is Include),
        offset <= end <= source@.len(),
        directive_within(*d, offset as int, end as int),
        act == active(old(frames)@),
    ensures
        final(pp).files == old(pp).files,
        final(pp).include_stack == old(pp).include_stack,
        r matches Err(e) ==> e.located() is Some,
        match apply_directive(*d, source@, file, offset as int, end as int,
            PpState { macros: macros(old(pp).defines@), frames: old(frames)@, out }) {
            PpStep::Next(s2) => r is Ok && s2 == PpState { macros: macros(final(pp).defines@), frames: final(frames)@, out },
            PpStep::Fail => r is Err,
            PpStep::Include => true,
        },
{
    match d {
        Directive::IfDef(a, e) => {
            let defined = pp.lookup(vstd::slice::slice_subrange(source, *a, *e)).is_some();
            frames.push(ConditionalFrame { loc_file: file, loc_span: Range { start: offset, end }, parent_active: act, condition_met: defined, seen_else: false });
        },
        Directive::IfNDef(a, e) => {
            let defined = pp.lookup(vstd::slice::slice_subrange(source, *a, *e)).is_some();
            frames.push(ConditionalFrame { loc_file: file, loc_span: Range { start: offset, end }, parent_active: act, condition_met: !defined, seen_else: false });
        },
        Directive::Else => {
            if frames.len() == 0 {
                return Err(AssemblerError::parse(file, Range { start: offset, end }, owned("Unexpected #else")));
            }
            let last = frames.pop().unwrap();
            if last.seen_else {
                return Err(AssemblerError::parse(file, Range { start: offset, end }, owned("Duplicate #else")));
            }
            frames.push(ConditionalFrame { loc_file: last.loc_file, loc_span: last.loc_span, parent_active: last.parent_active, condition_met: !last.condition_met, seen_else: true });
        },
        Directive::EndIf => {
            if frames.len() == 0 {
                return Err(AssemblerError::parse(file, Range { start: offset, end }, owned("Unexpected #endif")));
            }
            frames.pop();
        },
        Directive::Include(_, _) => {},
        Directive::Define(a, e, value) => {
            if act {
                let replacement = match value {
                    Some((x, y)) => Some(macro_replacement(vstd::slice::slice_subrange(source, *x, *y), file, Range { start: offset, end })?),
                    None => None,
                };
                pp.define(vstd::slice::slice_subrange(source, *a, *e), replacement);
            }
        },
        Directive::Undef(a, e) => {
            if act {
                pp.undefine(vstd::slice::slice_subrange(source, *a, *e));
            }
        },
    }
    Ok(())
}

/// Preprocesses the file `file` of the table line by line, including files through
/// `loader`; returns its tokens (without an end-of-file token).
#[verifier::rlimit(100)]
#[verifier::spinoff_prover]
fn process_file<L: SourceLoader>(pp: &mut Preprocessor, loader: &mut L, file: FileId) -> (r: Result<Vec<Token>>)
    requires
        (file as int) < old(pp).files.entries().len(),
        old(pp).files.entries().len() < u32::MAX,
    ensures
        final(pp).files.entries().len() >= old(pp).files.entries().len(),
        final(pp).files.entries().len() < u32::MAX,
        final(pp).files.entries().len() == old(pp).files.entries().len() ==> final(pp).files == old(pp).files,
        final(pp).files.entries().subrange(0, old(pp).files.entries().len() as int) == old(pp).files.entries(),
        r matches Err(e) ==> e.located() is Some,
        match pp_from(vstd::utf8::encode_utf8(old(pp).files.entries()[file as int].1), file, 0,
            PpState { macros: macros(old(pp).defines@), frames: seq![], out: seq![] }) {
            PpOutcome::Done(ts, m) => r matches Ok(out) && tokens_are(out@, ts, file, vstd::utf8::encode_utf8(old(pp).files.entries()[file as int].1))
                && macros(final(pp).defines@) == m && final(pp).files == old(pp).files,
            PpOutcome::Failed => r is Err,
            PpOutcome::Includes => true,
        },
        r matches Ok(out) ==> lines_ok(out@, final(pp).files.entries()),
        r is Ok ==> stack_paths(final(pp).include_stack@) == stack_paths(old(pp).include_stack@),
        r matches Ok(out) ==> forall|e: Seq<(Seq<char>, Seq<char>)>| #[trigger] extends(e, final(pp).files.entries())
            ==> pp_tree(e, file, 0, TreeState { macros: macros(old(pp).defines@), frames: seq![], out: seq![] },
            old(pp).files.entries().len() as int, stack_paths(old(pp).include_stack@))
            == TreeOutcome::Done(tviews(out@), macros(final(pp).defines@), final(pp).files.entries().len() as int),
        r is Err ==> pp_tree(final(pp).files.entries(), file, 0, TreeState { macros: macros(old(pp).defines@), frames: seq![], out: seq![] },
            old(pp).files.entries().len() as int, stack_paths(old(pp).include_stack@)) is Failed,
    decreases u32::MAX - old(pp).files.entries().len(),
{
    let ghost stk0 = stack_paths(pp.include_stack@);
    let ghost n0 = pp.files.entries().len() as int;
    let ghost init_t = TreeState { macros: macros(pp.defines@), frames: seq![], out: seq![] };
    let path = owned(pp.files.path(file).as_str());
    let source_text = owned(pp.files.source(file));
    let source = string_bytes(&source_text);
    pp.include_stack.push(owned(path.as_str()));
    proof {
        assert(stack_paths(pp.include_stack@) =~= stk0.push(path@));
        assert(tviews(Seq::<Token>::empty()) =~= seq![]);
        assert forall|e: Seq<(Seq<char>, Seq<char>)>| #[trigger] extends(e, pp.files.entries()) implies
            pp_tree(e, file, 0, init_t, n0, stk0) == tree_at(e, file, 0, macros(pp.defines@), seq![], Seq::<Token>::empty(), n0, stk0) by {
        }
    }
    let mut tokens: Vec<Token> = Vec::new();
    let mut frames: Vec<ConditionalFrame> = Vec::new();
    let mut offset: usize = 0;
    let ghost files0 = pp.files;
    let ghost src = source@;
    let ghost goal = pp_from(src, file, 0, PpState { macros: macros(pp.defines@), frames: seq![], out: seq![] });
    let ghost mut out: Seq<LexTok> = seq![];
    assert(src == vstd::utf8::encode_utf8(old(pp).files.entries()[file as int].1));
    while offset < source.len()
        invariant
            0 <= offset <= source@.len(),
            (file as int) < pp.files.entries().len(),
            pp.files.entries().len() >= files0.entries().len(),
            pp.files.entries().len() < u32::MAX,
            pp.files.entries().len() == files0.entries().len() ==> pp.files == files0,
            pp.files.entries().subrange(0, files0.entries().len() as int) == files0.entries(),
            files0 == old(pp).files,
            src == source@,
            src == vstd::utf8::encode_utf8(old(pp).files.entries()[file as int].1),
            goal == pp_from(src, file, 0, PpState { macros: macros(old(pp).defines@), frames: seq![], out: seq![] }),
            goal is Includes || (goal == pp_from(src, file, offset as int, PpState { macros: macros(pp.defines@), frames: frames@, out: out })
                && tokens_are(tokens@, out, file, src) && pp.files == files0),
            stk0 == stack_paths(old(pp).include_stack@),
            (file as int) < old(pp).files.entries().len(),
            n0 == old(pp).files.entries().len(),
            init_t == (TreeState { macros: macros(old(pp).defines@), frames: seq![], out: seq![] }),
            path@ == old(pp).files.entries()[file as int].0,
            stack_paths(pp.include_stack@) == stk0.push(path@),
            lines_ok(tokens@, pp.files.entries()),
            forall|e: Seq<(Seq<char>, Seq<char>)>| #[trigger] extends(e, pp.files.entries()) ==>
                pp_tree(e, file, 0, init_t, n0, stk0) == tree_at(e, file, offset as int, macros(pp.defines@), frames@, tokens@,
                pp.files.entries().len() as int, stk0),
        decreases source@.len() - offset,
    {
        let mut end = offset;
        while end < source.len() && source[end] != 10
            invariant
                offset <= end <= source@.len(),
                src == source@,
                crate::ports::line_end_at(src, offset as int) == crate::ports::line_end_at(src, end as int),
            decreases source@.len() - end,
        {
            end = end + 1;
        }
        if end < source.len() {
            end = end + 1;
        }
        proof {
            crate::ports::lemma_line_end(src, offset as int);
            assert(crate::ports::line_end_at(src, offset as int) == end as int);
        }
        let ghost st = PpState { macros: macros(pp.defines@), frames: frames@, out: out };
        let ghost here = pp_from(src, file, offset as int, st);
        let ghost cur = pp.files.entries();
        let ghost m0 = macros(pp.defines@);
        let ghost f0 = frames@;
        let ghost t0 = tokens@;
        let ghost here_t = tree_at(cur, file, offset as int, m0, f0, t0, cur.len() as int, stk0);
        proof {
            lemma_extends_refl(cur);
            assert(extends(cur, old(pp).files.entries())) by {
                assert(files0.entries() == old(pp).files.entries());
            }
            lemma_extends_keeps(cur, old(pp).files.entries(), file as int);
            assert(file_bytes(cur, file as int) == src);
            assert(pp_tree(cur, file, 0, init_t, n0, stk0) == here_t);
        }
        let directive = match parse_directive(source, offset, end, file) {
            Ok(d) => d,
            Err(e) => {
                assert(here_t is Failed);
                return Err(e);
            },
        };
        match directive {
            None => {
                if is_active(&frames) {
                    let mut line_toks = match pp.expand_line(file, source, offset, end) {
                        Ok(t) => t,
                        Err(e) => {
                            assert(here_t is Failed);
                            return Err(e);
                        },
                    };
                    let ghost lt = line_tokens(macros(pp.defines@), src, offset as int, end as int)->0;
                    let ghost before = tokens@;
                    tokens.append(&mut line_toks);
                    proof {
                        if !(goal is Includes) {
                            assert forall|k: int| 0 <= k < (out + lt).len() implies token_matches(#[trigger] tokens@[k], (out + lt)[k], file, src) by {
                                if k < out.len() {
                                    assert(tokens@[k] == before[k]);
                                }
                            }
                        }
                        out = out + lt;
                        assert forall|k: int| 0 <= k < tokens@.len() implies #[trigger] tviews(tokens@)[k] == (tviews(before) + tagged(file, lt))[k] by {
                            if k >= before.len() {
                                assert(token_matches(tokens@[k], lt[k - before.len()], file, src));
                            }
                        }
                        assert(tviews(tokens@) =~= tviews(before) + tagged(file, lt));
                        assert forall|k: int| 0 <= k < tokens@.len() implies (#[trigger] tokens@[k]).file < cur.len()
                            && tokens@[k].line == line_col(file_bytes(cur, tokens@[k].file as int), tokens@[k].span.start as int).0 as u32
                            && tokens@[k].col == line_col(file_bytes(cur, tokens@[k].file as int), tokens@[k].span.start as int).1 as u32 by {
                            if k < before.len() {
                                assert(tokens@[k] == before[k]);
                            } else {
                                assert(token_matches(tokens@[k], lt[k - before.len()], file, src));
                            }
                        }
                    }
                }
                proof {
                    assert(here == pp_from(src, file, end as int, PpState { macros: macros(pp.defines@), frames: frames@, out: out }));
                    assert forall|e: Seq<(Seq<char>, Seq<char>)>| #[trigger] extends(e, cur) implies
                        tree_at(e, file, offset as int, m0, f0, t0, cur.len() as int, stk0)
                        == tree_at(e, file, end as int, macros(pp.defines@), frames@, tokens@, cur.len() as int, stk0) by {
                        lemma_extends_keeps(e, cur, file as int);
                    }
                }
            },
            Some(d) => {
                let act = is_active(&frames);
                match d {
                    Directive::Include(a, e) => {
                        if act {
                            let (pa, pe) = match include_path(source, a, e, file, Range { start: offset, end }) {
                                Ok(x) => x,
                                Err(er) => {
                                    assert(here_t is Failed);
                                    return Err(er);
                                },
                            };
                            assert(here_t is Failed);
                            let raw = utf8_lossy(vstd::slice::slice_subrange(source, a, e));
                            let inc = utf8_lossy(vstd::slice::slice_subrange(source, pa, pe));
                            let (resolved, text) = match loader.load(path.as_str(), inc.as_str()) {
                                Ok(x) => x,
                                Err(msg) => {
                                    return Err(AssemblerError::parse(file, Range { start: offset, end }, concat(concat(concat(owned("Failed to resolve include "), raw.as_str()), ": "), msg.as_str())));
                                },
                            };
                            if on_stack(&pp.include_stack, resolved.as_str()) {
                                return Err(AssemblerError::parse(file, Range { start: offset, end }, concat(owned("Circular include detected for "), resolved.as_str())));
                            }
                            if pp.files.len() >= 0xFFFF_FFFE {
                                return Err(AssemblerError::parse(file, Range { start: offset, end }, owned("Too many source files")));
                            }
                            proof {
                                assert(!stk0.push(path@).contains(resolved@)) by {
                                    if stk0.push(path@).contains(resolved@) {
                                        let i = choose|i: int| 0 <= i < stk0.push(path@).len() && stk0.push(path@)[i] == resolved@;
                                        assert(stack_paths(pp.include_stack@)[i] == pp.include_stack@[i]@);
                                    }
                                }
                            }
                            let ghost mid = pp.files.entries();
                            let ghost added = (resolved@, text@);
                            let id = pp.files.add(resolved, text);
                            proof {
                                assert(pp.files.entries().subrange(0, files0.entries().len() as int) =~= mid.subrange(0, files0.entries().len() as int));
                                assert(extends(pp.files.entries(), cur)) by {
                                    assert(pp.files.entries().subrange(0, cur.len() as int) =~= cur);
                                }
                                assert(lines_ok(tokens@, pp.files.entries())) by {
                                    assert forall|k: int| 0 <= k < tokens@.len() implies (#[trigger] tokens@[k]).file < pp.files.entries().len()
                                        && tokens@[k].line == line_col(file_bytes(pp.files.entries(), tokens@[k].file as int), tokens@[k].span.start as int).0 as u32
                                        && tokens@[k].col == line_col(file_bytes(pp.files.entries(), tokens@[k].file as int), tokens@[k].span.start as int).1 as u32 by {
                                        lemma_extends_keeps(pp.files.entries(), cur, tokens@[k].file as int);
                                    }
                                }
                            }
                            let ghost mid2 = pp.files.entries();
                            let ghost stk1 = stack_paths(pp.include_stack@);
                            let ghost dm = pp.defines@;
                            let mut sub = match process_file(pp, loader, id) {
                                Ok(t) => t,
                                Err(er) => {
                                    proof {
                                        let fe = pp.files.entries();
                                        assert(extends(fe, mid2)) by {
                                            assert(fe.subrange(0, mid2.len() as int) =~= fe.subrange(0, mid2.len() as int));
                                        }
                                        lemma_extends_trans(fe, mid2, cur);
                                        lemma_extends_keeps(fe, mid2, id as int);
                                        lemma_extends_keeps(fe, cur, file as int);
                                        assert(tree_at(fe, file, offset as int, m0, f0, t0, cur.len() as int, stk0) is Failed);
                                    }
                                    return Err(er);
                                },
                            };
                            let ghost fe = pp.files.entries();
                            let ghost before = tokens@;
                            let ghost sub_v = sub@;
                            tokens.append(&mut sub);
                            proof {
                                assert(pp.files.entries().subrange(0, files0.entries().len() as int) =~= pp.files.entries().subrange(0, mid2.len() as int).subrange(0, files0.entries().len() as int));
                                assert(extends(fe, mid2));
                                lemma_extends_trans(fe, mid2, cur);
                                assert(tviews(tokens@) =~= tviews(before) + tviews(sub_v));
                                assert forall|e2: Seq<(Seq<char>, Seq<char>)>| #[trigger] extends(e2, fe) implies
                                    tree_at(e2, file, offset as int, m0, f0, t0, cur.len() as int, stk0)
                                    == pp_tree(e2, file, end as int, TreeState { macros: macros(pp.defines@), frames: f0, out: if active(f0) {
                                        tree_line_end(tviews(tokens@), file, end as int) } else { tviews(tokens@) } }, fe.len() as int, stk0) by {
                                    lemma_extends_trans(e2, fe, cur);
                                    lemma_extends_trans(e2, fe, mid2);
                                    lemma_extends_keeps(e2, cur, file as int);
                                    lemma_extends_keeps(e2, mid2, id as int);
                                    assert(extends(e2, fe));
                                }
                                assert forall|k: int| 0 <= k < tokens@.len() implies (#[trigger] tokens@[k]).file < fe.len()
                                    && tokens@[k].line == line_col(file_bytes(fe, tokens@[k].file as int), tokens@[k].span.start as int).0 as u32
                                    && tokens@[k].col == line_col(file_bytes(fe, tokens@[k].file as int), tokens@[k].span.start as int).1 as u32 by {
                                    if k < before.len() {
                                        assert(tokens@[k] == before[k]);
                                        lemma_extends_keeps(fe, mid2, tokens@[k].file as int);
                                    } else {
                                        assert(tokens@[k] == sub_v[k - before.len()]);
                                    }
                                }
                            }
                        }
                    },
                    _ => {
                        match run_directive(pp, &mut frames, &d, source, offset, end, file, act, Ghost(out)) {
                            Ok(()) => {},
                            Err(er) => {
                                assert(here_t is Failed);
                                return Err(er);
                            },
                        }
                    },
                }
                let ghost t1 = tokens@;
                let ghost c1 = pp.files.entries();
                if is_active(&frames) {
                    end_statement(&mut tokens, file, source, end);
                    proof {
                        out = with_line_end(out, end as int);
                        assert(extends(c1, old(pp).files.entries())) by {
                            assert(files0.entries() == old(pp).files.entries());
                        }
                        lemma_extends_keeps(c1, old(pp).files.entries(), file as int);
                        assert(lines_ok(tokens@, c1));
                    }
                }
                proof {
                    if !(goal is Includes) {
                        assert(here is Includes || here == pp_from(src, file, end as int, PpState { macros: macros(pp.defines@), frames: frames@, out: out }));
                    }
                    if !(d is Include && act) {
                        assert forall|e: Seq<(Seq<char>, Seq<char>)>| #[trigger] extends(e, cur) implies
                            tree_at(e, file, offset as int, m0, f0, t0, cur.len() as int, stk0)
                            == tree_at(e, file, end as int, macros(pp.defines@), frames@, tokens@, cur.len() as int, stk0) by {
                            lemma_extends_keeps(e, cur, file as int);
                        }
                    }
                }
            },
        }
        proof {
            assert forall|e: Seq<(Seq<char>, Seq<char>)>| #[trigger] extends(e, pp.files.entries()) implies
                pp_tree(e, file, 0, init_t, n0, stk0) == tree_at(e, file, end as int, macros(pp.defines@), frames@, tokens@,
                pp.files.entries().len() as int, stk0) by {
                lemma_extends_trans(e, pp.files.entries(), cur);
            }
        }
        offset = end;
    }
    let ghost cur = pp.files.entries();
    let ghost t0 = tokens@;
    proof {
        lemma_extends_refl(cur);
        assert(extends(cur, old(pp).files.entries())) by {
            assert(files0.entries() == old(pp).files.entries());
        }
        lemma_extends_keeps(cur, old(pp).files.entries(), file as int);
    }
    if source.len() > 0 && source[source.len() - 1] != 10 && tokens.len() > 0 {
        tokens.push(make_token(TokenKind::Newline, file, source, Range { start: source.len(), end: source.len() }));
        proof {
            assert(tviews(tokens@) =~= tviews(t0).push((file, line_feed(source@.len() as int))));
            assert forall|k: int| 0 <= k < tokens@.len() implies (#[trigger] tokens@[k]).file < cur.len()
                && tokens@[k].line == line_col(file_bytes(cur, tokens@[k].file as int), tokens@[k].span.start as int).0 as u32
                && tokens@[k].col == line_col(file_bytes(cur, tokens@[k].file as int), tokens@[k].span.start as int).1 as u32 by {
                if k < t0.len() {
                    assert(tokens@[k] == t0[k]);
                }
            }
        }
    }
    let ghost sb = pp.include_stack@;
    pp.include_stack.pop();
    proof {
        assert(pp.include_stack@ =~= sb.drop_last());
        assert forall|i: int| 0 <= i < stk0.len() implies stack_paths(pp.include_stack@)[i] == stk0[i] by {
            assert(stack_paths(sb)[i] == sb[i]@);
        }
        assert(stack_paths(pp.include_stack@) =~= stk0);
    }
    match frames.pop() {
        Some(frame) => {
            assert(tree_at(cur, file, offset as int, macros(pp.defines@), frames@.push(frame), t0, cur.len() as int, stk0) is Failed);
            Err(AssemblerError::parse(frame.loc_file, frame.loc_span, owned("Unclosed conditional directive")))
        },
        None => {
            proof {
                assert forall|e: Seq<(Seq<char>, Seq<char>)>| #[trigger] extends(e, cur) implies
                    tree_at(e, file, offset as int, macros(pp.defines@), seq![], t0, cur.len() as int, stk0)
                    == TreeOutcome::Done(tviews(tokens@), macros(pp.defines@), cur.len() as int) by {
                    lemma_extends_keeps(e, cur, file as int);
                    assert(frames@ =~= Seq::<ConditionalFrame>::empty());
                }
            }
            Ok(tokens)
        },
    }
}

/// What preprocessing the text `text`, as the first file of a table, gives when it
/// includes no file.
pub open spec fn preprocessing(text: Seq<char>) -> PpOutcome {
    pp_from(vstd::utf8::encode_utf8(text), 0, 0, PpState { macros: seq![], frames: seq![], out: seq![] })
}

/// `tokens` are the tokens `ts` of the first file, whose bytes are `b`, followed by an
/// end-of-file token at the end of `b`.
pub open spec fn preprocessed_as(tokens: Seq<Token>, ts: Seq<LexTok>, b: Seq<u8>) -> bool {
    &&& tokens.len() == ts.len() + 1
    &&& tokens_are(tokens.drop_last(), ts, 0, b)
    &&& token_matches(tokens.last(), LexTok { kind: KindView::Eof, start: b.len() as int, end: b.len() as int }, 0, b)
}

/// `tokens` are what preprocessing the first file of the table `files` gives, the files it
/// includes being the others in the order read, followed by an end-of-file token at the end
/// of the first file.
pub open spec fn preprocessed_tree(files: Seq<(Seq<char>, Seq<char>)>, tokens: Seq<Token>) -> bool {
    &&& files.len() > 0
    &&& tokens.len() > 0
    &&& pp_tree(files, 0, 0, TreeState { macros: seq![], frames: seq![], out: seq![] }, 1, seq![])
        matches TreeOutcome::Done(g, _, n) && g == tviews(tokens.drop_last()) && n == files.len()
    &&& lines_ok(tokens.drop_last(), files)
    &&& token_matches(tokens.last(), LexTok { kind: KindView::Eof, start: file_bytes(files, 0).len() as int,
        end: file_bytes(files, 0).len() as int }, 0, file_bytes(files, 0))
}

/// Preprocessing the first file of the table `files`, the others being the files its
/// includes read, fails.
pub open spec fn preprocessing_fails(files: Seq<(Seq<char>, Seq<char>)>) -> bool {
    pp_tree(files, 0, 0, TreeState { macros: seq![], frames: seq![], out: seq![] }, 1, seq![]) is Failed
}

/// Preprocesses a program given as text, as file `<source>`; includes come from `loader`.
/// The tokens end with an end-of-file token at the end of that text.
pub fn preprocess_with<L: SourceLoader>(loader: &mut L, path: String, source: String) -> (r: Result<Preprocessed>)
    ensures
        r matches Ok(p) ==> p.tokens@.len() > 0 && p.tokens@.last().kind is Eof,
        r matches Ok(p) ==> p.files.entries().len() > 0 && p.files.entries()[0] == (path@, source@),
        match preprocessing(source@) {
            PpOutcome::Done(ts, _) => r matches Ok(p) && preprocessed_as(p.tokens@, ts, vstd::utf8::encode_utf8(source@))
                && p.files.entries() == seq![(path@, source@)],
            PpOutcome::Failed => r is Err,
            PpOutcome::Includes => true,
        },
        r matches Err(e) ==> e.located() is Some && (e matches AssemblerError::Context { files, .. }
            && files.entries().len() > 0 && files.entries()[0] == (path@, source@)),
        r matches Ok(p) ==> preprocessed_tree(p.files.entries(), p.tokens@),
        r matches Err(e) ==> (e matches AssemblerError::Context { files, .. } && preprocessing_fails(files.entries())),
{
    let mut pp = Preprocessor::new();
    let ghost text = source@;
    let root = pp.files.add(path, source);
    proof {
        assert(macros(pp.defines@) =~= seq![]);
    }
    proof {
        assert(pp.files.entries() =~= seq![(path@, source@)]);
        assert(stack_paths(pp.include_stack@) =~= seq![]);
    }
    let ghost e0 = pp.files.entries();
    let mut tokens = match process_file(&mut pp, loader, root) {
        Ok(t) => t,
        Err(e) => {
            let files = pp.files;
            proof {
                assert(files.entries()[0] == files.entries().subrange(0, e0.len() as int)[0]);
            }
            return Err(e.with_files(files));
        },
    };
    let text_bytes = pp.files.source(root).as_bytes();
    let len = text_bytes.len();
    let ghost before = tokens@;
    tokens.push(make_token(TokenKind::Eof, root, text_bytes, Range { start: len, end: len }));
    proof {
        assert(tokens@.drop_last() =~= before);
        lemma_extends_refl(pp.files.entries());
        assert(pp.files.entries()[0] == pp.files.entries().subrange(0, e0.len() as int)[0]);
    }
    Ok(Preprocessed { files: pp.files, tokens })
}

impl Preprocessor {
    /// Preprocesses a program given as text; it can include no files.
    pub fn preprocess_source(source: &str) -> (r: Result<Preprocessed>)
        ensures
            r matches Ok(p) ==> p.tokens@.len() > 0 && p.tokens@.last().kind is Eof,
            r matches Err(e) ==> e.located() is Some && (e matches AssemblerError::Context { files, .. }
                && files.entries().len() > 0 && files.entries()[0] == ("<source>"@, source@)),
            r matches Ok(p) ==> preprocessed_tree(p.files.entries(), p.tokens@),
            r matches Ok(p) ==> p.files.entries()[0] == ("<source>"@, source@),
            r matches Err(e) ==> (e matches AssemblerError::Context { files, .. } && preprocessing_fails(files.entries())),
            match preprocessing(source@) {
                PpOutcome::Done(ts, _) => r matches Ok(p) && preprocessed_as(p.tokens@, ts, vstd::utf8::encode_utf8(source@))
                    && p.files.entries() == seq![("<source>"@, source@)],
                PpOutcome::Failed => r is Err,
                PpOutcome::Includes => true,
            },
    {
        let mut loader = NoIncludes;
        preprocess_with(&mut loader, owned("<source>"), owned(source))
    }
}

} // verus!
