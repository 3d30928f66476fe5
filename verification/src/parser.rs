//! Parser from tokens to sections of data items, instructions and labels.
use vstd::prelude::*;
use std::ops::Range;
use crate::argument::Argument;
use crate::asm_error::{AssemblerError, ErrorKind, Result};
use crate::files::FileId;
use crate::isa::Slot;
use crate::lexer::{KindView, Token, TokenKind};
use crate::opcode::Op;
use crate::register::{RegisterEncoding, VIEW_RW, VIEW_RB};
use crate::section::Section;
use crate::syntax::{LabelRef, ParsedArgument, ParsedInstruction, parsed_slot, parsed_size};
use crate::mnemonics::{parse_instruction, instruction_syntax};
use crate::text::{str_eq, owned, concat, string_bytes, push_decimal, decimal};

verus! {

/// Byte offset within a section's output.
pub type SectionOffset = u32;

/// A label definition: its name, section and offset in that section.
pub type LabelDef = (String, Section, SectionOffset);

/// The parsed program: the data items of the two data sections, the instructions of the
/// code section, and the label definitions.
#[derive(Debug)]
pub struct ParsedFile {
    pub rodata: Vec<ParsedArgument>,
    pub code: Vec<ParsedInstruction>,
    pub data: Vec<ParsedArgument>,
    pub labels: Vec<LabelDef>,
}

/// Label names occur at most once.
pub open spec fn labels_distinct(labels: Seq<LabelDef>) -> bool {
    forall|i: int, j: int|
        0 <= i < labels.len() && 0 <= j < labels.len() && i != j ==> #[trigger] labels[i].0@
            != #[trigger] labels[j].0@
}

/// Total size in bytes of data items.
pub open spec fn data_size(s: Seq<ParsedArgument>) -> nat
    decreases s.len(),
{
    if s.len() == 0 {
        0
    } else {
        data_size(s.drop_last()) + parsed_size(s.last())
    }
}

/// Total size in bytes of instructions.
pub open spec fn code_size(s: Seq<ParsedInstruction>) -> nat
    decreases s.len(),
{
    if s.len() == 0 {
        0
    } else {
        code_size(s.drop_last()) + s.last().size as nat
    }
}

impl ParsedFile {
    /// Size in bytes of one section.
    pub open spec fn section_len(&self, s: Section) -> nat {
        match s {
            Section::RoData => data_size(self.rodata@),
            Section::Code => code_size(self.code@),
            Section::Data => data_size(self.data@),
        }
    }

    /// Every instruction obeys the operand rules, label names are distinct, each label lies
    /// within its section, and the three sections fit the 32-bit address space together.
    pub open spec fn wf(&self) -> bool {
        &&& forall|i: int| 0 <= i < self.code@.len() ==> (#[trigger] self.code@[i]).well_formed()
        &&& labels_distinct(self.labels@)
        &&& forall|i: int|
            0 <= i < self.labels@.len() ==> (#[trigger] self.labels@[i]).2 <= self.section_len(
                self.labels@[i].1,
            )
        &&& data_size(self.rodata@) + code_size(self.code@) + data_size(self.data@) <= u32::MAX
    }
}

/// Parsing state: the token stream, the current position and the last global label.
pub struct Parser {
    pub tokens: Vec<Token>,
    pub pos: usize,
    pub current_global: Option<String>,
}

impl Parser {
    /// The stream ends with a token and the position is inside it.
    pub open spec fn wf(&self) -> bool {
        self.tokens@.len() > 0 && self.pos < self.tokens@.len()
    }

    /// The token at `offset` past the position (the last token when past the end).
    pub open spec fn at(&self, offset: int) -> Token {
        let i = self.pos + offset;
        self.tokens@[if i < self.tokens@.len() { i } else { self.tokens@.len() - 1 }]
    }

    /// A parser at the start of `tokens`.
    pub fn new(tokens: Vec<Token>) -> (r: Self)
        ensures
            r.tokens@ == tokens@,
            r.pos == 0,
            r.current_global is None,
            r.wf() <==> tokens@.len() > 0,
    {
        Self { tokens, pos: 0, current_global: None }
    }

    pub(crate) fn peek(&self, offset: usize) -> (t: &Token)
        requires
            self.wf(),
        ensures
            *t == self.at(offset as int),
            token_loc(self.tokens@, t.file, t.span.start as int, t.span.end as int),
    {
        let last = self.tokens.len() - 1;
        let idx = if offset <= last && self.pos <= last - offset {
            self.pos + offset
        } else {
            last
        };
        &self.tokens[idx]
    }

    pub(crate) fn advance(&mut self)
        requires
            old(self).wf(),
        ensures
            final(self).wf(),
            final(self).tokens == old(self).tokens,
            final(self).current_global == old(self).current_global,
            final(self).pos == (if old(self).pos + 1 < old(self).tokens@.len() {
                old(self).pos + 1
            } else {
                old(self).pos as int
            }),
    {
        let len = self.tokens.len();
        if self.pos < len - 1 {
            self.pos = self.pos + 1;
        }
    }

    pub(crate) fn expect_ident(&mut self) -> (r: Result<(String, FileId, Range<usize>)>)
        requires
            old(self).wf(),
        ensures
            r matches Err(e) ==> parse_err_in(e, old(self).tokens@),
            keeps(*old(self), *final(self)),
            r matches Ok((s, f, sp)) ==> old(self).at(0).kind.kind_view() == KindView::Ident(s@)
                && f == old(self).at(0).file && sp == old(self).at(0).span,
            r is Err <==> !(old(self).at(0).kind is Ident),
            r matches Err(e) ==> e.located() == Some((ErrorKind::Parse, old(self).at(0).file, old(self).at(0).span.start as int,
                old(self).at(0).span.end as int, "Expected identifier"@)),
            r is Ok ==> final(self).pos == next_pos(old(self).tokens@, old(self).pos as int),
    {
        let tok = self.peek(0).duplicate();
        match &tok.kind {
            TokenKind::Ident(s) => {
                let name = owned(s.as_str());
                self.advance();
                Ok((name, tok.file, Range { start: tok.span.start, end: tok.span.end }))
            },
            _ => Err(tok.parse_error(owned("Expected identifier"))),
        }
    }

    pub(crate) fn expect_comma(&mut self) -> (r: Result<()>)
        requires
            old(self).wf(),
        ensures
            r matches Err(e) ==> parse_err_in(e, old(self).tokens@),
            keeps(*old(self), *final(self)),
            r is Ok <==> old(self).at(0).kind is Comma,
            r matches Err(e) ==> tok_error(e, old(self).tokens@, old(self).pos as int, "Expected ','"@),
            r is Ok ==> final(self).pos == next_pos(old(self).tokens@, old(self).pos as int),
    {
        if matches!(self.peek(0).kind, TokenKind::Comma) {
            self.advance();
            Ok(())
        } else {
            Err(self.peek(0).parse_error(owned("Expected ','")))
        }
    }

    pub(crate) fn skip_newlines(&mut self)
        requires
            old(self).wf(),
        ensures
            keeps(*old(self), *final(self)),
            !(final(self).at(0).kind is Newline) || final(self).pos == final(self).tokens@.len()
                - 1,
            final(self).pos == skip_lines(old(self).tokens@, old(self).pos as int),
    {
        while matches!(self.peek(0).kind, TokenKind::Newline) && self.pos < self.tokens.len() - 1
            invariant
                self.wf(),
                keeps(*old(self), *self),
                skip_lines(self.tokens@, self.pos as int) == skip_lines(old(self).tokens@, old(self).pos as int),
            decreases self.tokens@.len() - self.pos,
        {
            self.advance();
        }
    }

    /// Consumes the line feed or end of input that ends a statement.
    pub(crate) fn expect_eol(&mut self) -> (r: Result<()>)
        requires
            old(self).wf(),
        ensures
            r matches Err(e) ==> parse_err_in(e, old(self).tokens@),
            keeps(*old(self), *final(self)),
            r is Ok <==> (old(self).at(0).kind is Newline || old(self).at(0).kind is Eof),
            r matches Err(e) ==> e.located() == Some((ErrorKind::Parse, old(self).at(0).file, old(self).at(0).span.start as int,
                old(self).at(0).span.end as int, "Expected end of line"@)),
            r is Ok ==> final(self).pos == next_pos(old(self).tokens@, old(self).pos as int),
    {
        if matches!(self.peek(0).kind, TokenKind::Newline | TokenKind::Eof) {
            self.advance();
            Ok(())
        } else {
            Err(self.peek(0).parse_error(owned("Expected end of line")))
        }
    }
}

/// The parser moved forward over the same tokens and kept its label scope.
/// Some token of `toks` lies in `file` at `start..end`.
pub open spec fn token_loc(toks: Seq<Token>, file: FileId, start: int, end: int) -> bool {
    exists|i: int| 0 <= i < toks.len() && (#[trigger] toks[i]).file == file && toks[i].span.start == start
        && toks[i].span.end == end
}

/// `e` is a parse error located at a token of `toks`.
pub open spec fn parse_err_in(e: AssemblerError, toks: Seq<Token>) -> bool {
    &&& e is ParseError
    &&& e.located() matches Some((k, f, s, en, _)) && k is Parse && token_loc(toks, f, s, en)
}

/// A parse error with `message` at token `tok` of the parser's stream.
pub(crate) fn error_at(parser: &Parser, tok: &Token, message: String) -> (e: AssemblerError)
    requires
        token_loc(parser.tokens@, tok.file, tok.span.start as int, tok.span.end as int),
    ensures
        parse_err_in(e, parser.tokens@),
        e.located() == Some((ErrorKind::Parse, tok.file, tok.span.start as int, tok.span.end as int, message@)),
{
    tok.parse_error(message)
}

pub open spec fn keeps(a: Parser, b: Parser) -> bool {
    &&& b.wf()
    &&& b.tokens == a.tokens
    &&& b.current_global == a.current_global
    &&& a.pos <= b.pos
}

// ---------------------------------------------------------------------------------------
// Registers.

/// Value of an unsigned 8-bit decimal literal as Rust reads it: an optional `+`, then at
/// least one digit, at most 255.
pub open spec fn u8_literal(s: Seq<u8>) -> Option<int> {
    digits_u8(strip_plus(s))
}

/// The text without one leading `+`.
pub open spec fn strip_plus(s: Seq<u8>) -> Seq<u8> {
    if s.len() > 0 && s[0] == 43 {
        s.drop_first()
    } else {
        s
    }
}

/// Value of a non-empty run of decimal digits when it is at most 255.
pub open spec fn digits_u8(d: Seq<u8>) -> Option<int> {
    if d.len() == 0 || !(forall|i: int| 0 <= i < d.len() ==> crate::lexer::is_digit(#[trigger] d[i])) {
        None
    } else {
        let v = crate::lexer::digits_value(d, 0, d.len() as int, crate::lexer::Radix::Dec);
        if 0 <= v <= 255 {
            Some(v)
        } else {
            None
        }
    }
}

/// The register a name denotes: `sp`, `cr`, `ip`, `mr`, or `rw`/`rh`/`rb` followed by an
/// index below 16.
pub open spec fn register_named(n: Seq<u8>) -> Option<RegisterEncoding> {
    if n == seq![115u8, 112u8] {
        Some(RegisterEncoding(0x80))
    } else if n == seq![99u8, 114u8] {
        Some(RegisterEncoding(0xA0))
    } else if n == seq![105u8, 112u8] {
        Some(RegisterEncoding(0xC0))
    } else if n == seq![109u8, 114u8] {
        Some(RegisterEncoding(0xE0))
    } else if n.len() >= 2 && n[0] == 114 && (n[1] == 119 || n[1] == 104 || n[1] == 98) {
        let base: int = if n[1] == 119 { 0x20 } else if n[1] == 104 { 0x40 } else { 0x60 };
        match u8_literal(n.subrange(2, n.len() as int)) {
            Some(v) => if v < 16 {
                Some(RegisterEncoding((base + v) as u8))
            } else {
                None
            },
            None => None,
        }
    } else {
        None
    }
}

/// The register a token denotes, if it is an identifier naming one.
pub open spec fn token_register(t: Token) -> Option<RegisterEncoding> {
    match t.kind {
        TokenKind::Ident(s) => register_named(vstd::utf8::encode_utf8(s@)),
        _ => None,
    }
}

proof fn lemma_register_valid(base: u8, v: int)
    requires
        base == 0x20 || base == 0x40 || base == 0x60,
        0 <= v < 16,
    ensures
        RegisterEncoding((base + v) as u8).is_valid(),
        RegisterEncoding((base + v) as u8).view_bits() == base,
{
    let b = (base + v) as u8;
    let vv = v as u8;
    assert(b == base + vv);
    assert((base == 0x20u8 || base == 0x40u8 || base == 0x60u8) && vv < 16 ==> ((base + vv)
        as u8) & 0xE0 == base) by (bit_vector);
}

/// Every named register is a valid encoding.
pub proof fn lemma_named_register_valid(n: Seq<u8>)
    ensures
        register_named(n) matches Some(r) ==> r.is_valid(),
{
    assert(0x80u8 & 0xE0 == 0x80) by (bit_vector);
    assert(0xA0u8 & 0xE0 == 0xA0) by (bit_vector);
    assert(0xC0u8 & 0xE0 == 0xC0) by (bit_vector);
    assert(0xE0u8 & 0xE0 == 0xE0) by (bit_vector);
    if register_named(n) is Some && n.len() >= 2 && n[0] == 114 && (n[1] == 119 || n[1] == 104
        || n[1] == 98) && n != seq![115u8, 112u8] && n != seq![99u8, 114u8] && n != seq![
        105u8,
        112u8,
    ] && n != seq![109u8, 114u8] {
        let base: u8 = if n[1] == 119 { 0x20 } else if n[1] == 104 { 0x40 } else { 0x60 };
        let v = u8_literal(n.subrange(2, n.len() as int))->0;
        assert(0 <= v < 16);
        lemma_register_valid(base, v);
    }
}

fn bytes_is(b: &[u8], lit: &[u8]) -> (r: bool)
    ensures
        r == (b@ == lit@),
{
    if b.len() != lit.len() {
        return false;
    }
    let mut i: usize = 0;
    while i < b.len()
        invariant
            0 <= i <= b@.len(),
            b@.len() == lit@.len(),
            forall|j: int| 0 <= j < i ==> b@[j] == lit@[j],
        decreases b@.len() - i,
    {
        if b[i] != lit[i] {
            return false;
        }
        i = i + 1;
    }
    assert(b@ =~= lit@);
    true
}

fn u8_literal_exec(s: &[u8], from: usize) -> (r: Option<u8>)
    requires
        from <= s@.len(),
    ensures
        r matches Some(v) ==> u8_literal(s@.subrange(from as int, s@.len() as int)) == Some(
            v as int,
        ),
        r is None ==> u8_literal(s@.subrange(from as int, s@.len() as int)) is None,
{
    let ghost full = s@.subrange(from as int, s@.len() as int);
    let start = if from < s.len() && s[from] == 43 {
        from + 1
    } else {
        from
    };
    let ghost d = s@.subrange(start as int, s@.len() as int);
    assert(d =~= strip_plus(full));
    if start >= s.len() {
        return None;
    }
    let mut i = start;
    let mut v: u32 = 0;
    while i < s.len()
        invariant
            start <= i <= s@.len(),
            start < s@.len(),
            from <= start <= from + 1,
            from <= s@.len(),
            d == s@.subrange(start as int, s@.len() as int),
            full == s@.subrange(from as int, s@.len() as int),
            d == strip_plus(full),
            forall|j: int| start <= j < i ==> crate::lexer::is_digit(#[trigger] s@[j]),
            forall|j: int| 0 <= j < i - start ==> crate::lexer::is_digit(#[trigger] d[j]),
            v == crate::lexer::digits_value(d, 0, i - start, crate::lexer::Radix::Dec),
            v <= 255,
        decreases s@.len() - i,
    {
        let c = s[i];
        if !(48 <= c && c <= 57) {
            assert(d[i - start] == c);
            assert(!crate::lexer::is_digit(d[i - start]));
            assert(!(forall|j: int| 0 <= j < d.len() ==> crate::lexer::is_digit(#[trigger] d[j])));
            assert(digits_u8(d) is None);
            return None;
        }
        let nv = v * 10 + (c - 48) as u32;
        assert(d[i - start] == c);
        assert(crate::lexer::digits_value(d, 0, i + 1 - start, crate::lexer::Radix::Dec) == v * 10
            + (c - 48));
        if nv > 255 {
            proof {
                if forall|j: int| 0 <= j < d.len() ==> crate::lexer::is_digit(#[trigger] d[j]) {
                    lemma_digits_grow(d, i + 1 - start, d.len() as int);
                }
                assert(digits_u8(d) is None);
            }
            return None;
        }
        v = nv;
        i = i + 1;
    }
    proof {
        lemma_digits_nonneg(d, d.len() as int);
        assert(i - start == d.len());
    }
    Some(v as u8)
}

proof fn lemma_digits_grow(d: Seq<u8>, k: int, n: int)
    requires
        0 <= k <= n <= d.len(),
        forall|j: int| 0 <= j < n ==> crate::lexer::is_digit(#[trigger] d[j]),
    ensures
        crate::lexer::digits_value(d, 0, n, crate::lexer::Radix::Dec) >= crate::lexer::digits_value(
            d,
            0,
            k,
            crate::lexer::Radix::Dec,
        ),
    decreases n - k,
{
    if k < n {
        lemma_digits_grow(d, k, n - 1);
        lemma_digits_nonneg(d, n - 1);
        assert(crate::lexer::is_digit(d[n - 1]));
        assert(crate::lexer::digits_value(d, 0, n, crate::lexer::Radix::Dec)
            == crate::lexer::digits_value(d, 0, n - 1, crate::lexer::Radix::Dec) * 10
            + crate::lexer::digit_value(d[n - 1]));
    }
}

proof fn lemma_digits_nonneg(d: Seq<u8>, n: int)
    requires
        0 <= n <= d.len(),
        forall|j: int| 0 <= j < n ==> crate::lexer::is_digit(#[trigger] d[j]),
    ensures
        crate::lexer::digits_value(d, 0, n, crate::lexer::Radix::Dec) >= 0,
    decreases n,
{
    if n > 0 {
        lemma_digits_nonneg(d, n - 1);
        assert(crate::lexer::is_digit(d[n - 1]));
    }
}

/// The register an identifier token names, if any.
pub fn parse_register(tok: &Token) -> (r: Option<RegisterEncoding>)
    ensures
        r == token_register(*tok),
        r matches Some(reg) ==> reg.is_valid(),
{
    let name = match &tok.kind {
        TokenKind::Ident(s) => s,
        _ => {
            return None;
        },
    };
    let b = string_bytes(name);
    proof {
        lemma_named_register_valid(b@);
    }
    if bytes_is(b, &[115u8, 112u8]) {
        assert([115u8, 112u8]@ =~= seq![115u8, 112u8]);
        return Some(RegisterEncoding::sp());
    }
    assert([115u8, 112u8]@ =~= seq![115u8, 112u8]);
    if bytes_is(b, &[99u8, 114u8]) {
        assert([99u8, 114u8]@ =~= seq![99u8, 114u8]);
        return Some(RegisterEncoding::cr());
    }
    assert([99u8, 114u8]@ =~= seq![99u8, 114u8]);
    if bytes_is(b, &[105u8, 112u8]) {
        assert([105u8, 112u8]@ =~= seq![105u8, 112u8]);
        return Some(RegisterEncoding::ip());
    }
    assert([105u8, 112u8]@ =~= seq![105u8, 112u8]);
    if bytes_is(b, &[109u8, 114u8]) {
        assert([109u8, 114u8]@ =~= seq![109u8, 114u8]);
        return Some(RegisterEncoding::mr());
    }
    assert([109u8, 114u8]@ =~= seq![109u8, 114u8]);
    if b.len() < 2 || b[0] != 114 || !(b[1] == 119 || b[1] == 104 || b[1] == 98) {
        return None;
    }
    let index = match u8_literal_exec(b, 2) {
        Some(v) => v,
        None => {
            return None;
        },
    };
    if index >= 16 {
        return None;
    }
    if b[1] == 119 {
        Some(RegisterEncoding::rw(index))
    } else if b[1] == 104 {
        Some(RegisterEncoding::rh(index))
    } else {
        Some(RegisterEncoding::rb(index))
    }
}

// ---------------------------------------------------------------------------------------
// The operand grammar.

/// Token `i` of `toks` (the last token past the end).
pub open spec fn tok_at(toks: Seq<Token>, i: int) -> Token {
    toks[if i < toks.len() { i } else { toks.len() - 1 }]
}

/// The kind of token `i`.
pub open spec fn kind_at(toks: Seq<Token>, i: int) -> KindView {
    tok_at(toks, i).kind.kind_view()
}

/// The position after `i`: the next token, or `i` itself on the last token.
pub open spec fn next_pos(toks: Seq<Token>, i: int) -> int {
    if i + 1 < toks.len() {
        i + 1
    } else {
        i
    }
}

/// The register token `i` names, if any.
pub open spec fn reg_at(toks: Seq<Token>, i: int) -> Option<RegisterEncoding> {
    token_register(tok_at(toks, i))
}

/// The last global label, which scopes `.local` label names.
pub open spec fn scope_of(p: Parser) -> Option<Seq<char>> {
    match p.current_global {
        Some(g) => Some(g@),
        None => None,
    }
}

/// What an operand stands for: a value, or a reference to the label of that name.
pub enum Operand {
    Val(Argument),
    Label(Seq<char>, FileId, int, int),
}

/// The operand a parsed argument stands for.
pub open spec fn operand_of(a: ParsedArgument) -> Operand {
    match a {
        ParsedArgument::Value(v) => Operand::Val(v),
        ParsedArgument::LabelRef(l) => Operand::Label(l.name@, l.file, l.span.start as int, l.span.end as int),
    }
}

/// An operand read from position `i`: a register.
pub open spec fn reg_operand(r: RegisterEncoding) -> Operand {
    Operand::Val(Argument::Register(r))
}

/// A label reference at `i`: a name, or `.name` in the scope of global label `g` (naming
/// `g.name`); with the position after it.
pub open spec fn label_operand(toks: Seq<Token>, i: int, g: Option<Seq<char>>) -> Option<(Operand, int)> {
    match kind_at(toks, i) {
        KindView::Dot => {
            let j = next_pos(toks, i);
            match (kind_at(toks, j), g) {
                (KindView::Ident(l), Some(s)) => Some((Operand::Label(s + seq!['.'] + l, tok_at(toks, j).file,
                    tok_at(toks, j).span.start as int, tok_at(toks, j).span.end as int), next_pos(toks, j))),
                _ => None,
            }
        },
        KindView::Ident(n) => Some((Operand::Label(n, tok_at(toks, i).file, tok_at(toks, i).span.start as int,
            tok_at(toks, i).span.end as int), next_pos(toks, i))),
        _ => None,
    }
}

/// `e` is a parse error with message `m` at token `k` of `toks`.
pub open spec fn tok_error(e: AssemblerError, toks: Seq<Token>, k: int, m: Seq<char>) -> bool {
    e.located() == Some((ErrorKind::Parse, tok_at(toks, k).file, tok_at(toks, k).span.start as int,
        tok_at(toks, k).span.end as int, m))
}

/// The message and token of the error of a label reference at `i` (a `.` or a name), in
/// the scope of global label `g`.
pub open spec fn label_fault(toks: Seq<Token>, i: int, g: Option<Seq<char>>) -> Option<(Seq<char>, int)> {
    if kind_at(toks, i) is Dot {
        let j = next_pos(toks, i);
        if kind_at(toks, j) is Ident {
            if g is None {
                Some(("Local label reference without a preceding global label"@, j))
            } else {
                None
            }
        } else {
            Some(("Expected identifier"@, j))
        }
    } else {
        None
    }
}

/// The message and token of the error of an immediate or label operand at `i`.
pub open spec fn imm_fault(toks: Seq<Token>, i: int, g: Option<Seq<char>>) -> Option<(Seq<char>, int)> {
    match kind_at(toks, i) {
        KindView::Number(_) | KindView::Char(_) => None,
        KindView::Dot | KindView::Ident(_) => label_fault(toks, i, g),
        _ => Some(("Expected immediate or label"@, i)),
    }
}

/// An immediate (a number, 32 bits wide, or a character, 8 bits wide) or a label reference
/// at `i`.
pub open spec fn imm_or_label_syntax(toks: Seq<Token>, i: int, g: Option<Seq<char>>) -> Option<(Operand, int)> {
    match kind_at(toks, i) {
        KindView::Number(n) => Some((Operand::Val(Argument::Inmm32(n)), next_pos(toks, i))),
        KindView::Char(c) => Some((Operand::Val(Argument::Inmm8(c)), next_pos(toks, i))),
        KindView::Dot | KindView::Ident(_) => label_operand(toks, i, g),
        _ => None,
    }
}

/// A register, or else an immediate or a label reference, at `i`.
pub open spec fn reg_or_imm_syntax(toks: Seq<Token>, i: int, g: Option<Seq<char>>) -> Option<(Operand, int)> {
    match reg_at(toks, i) {
        Some(r) => Some((reg_operand(r), next_pos(toks, i))),
        None => imm_or_label_syntax(toks, i, g),
    }
}

/// A shift amount at `i`: an `rb` register, a number up to 255 or a character.
pub open spec fn shift_amount_syntax(toks: Seq<Token>, i: int) -> Option<(Operand, int)> {
    match reg_at(toks, i) {
        Some(r) => if r.view_bits() == VIEW_RB {
            Some((reg_operand(r), next_pos(toks, i)))
        } else {
            None
        },
        None => match kind_at(toks, i) {
            KindView::Number(n) => if n <= 0xFF {
                Some((Operand::Val(Argument::Inmm8(n as u8)), next_pos(toks, i)))
            } else {
                None
            },
            KindView::Char(c) => Some((Operand::Val(Argument::Inmm8(c)), next_pos(toks, i))),
            _ => None,
        },
    }
}

/// The message and token of the error of the shift amount at `i` of the instruction named
/// `name`: a register other than `rb`, a number over 255, or neither a register nor a number
/// or character.
pub open spec fn amount_fault(name: Seq<char>, toks: Seq<Token>, i: int) -> Option<(Seq<char>, int)> {
    match reg_at(toks, i) {
        Some(r) => if r.view_bits() == VIEW_RB {
            None
        } else {
            Some((name + ": shift amount register must be rb"@, i))
        },
        None => match kind_at(toks, i) {
            KindView::Number(n) => if n <= 0xFF {
                None
            } else {
                Some((name + ": shift amount immediate must fit in u8"@, i))
            },
            KindView::Char(_) => None,
            _ => Some((name + ": expected rb register or imm8 shift amount"@, i)),
        },
    }
}

/// The message and token of the error of operand `what` of the instruction named `name`,
/// an `rw` register or a 32-bit number expected at `i`.
pub open spec fn u32_or_rw_fault(name: Seq<char>, what: Seq<char>, toks: Seq<Token>, i: int) -> Option<(Seq<char>, int)> {
    match reg_at(toks, i) {
        Some(r) => if r.view_bits() == VIEW_RW {
            None
        } else {
            Some((name + ": "@ + what + " register must be rw"@, i))
        },
        None => match kind_at(toks, i) {
            KindView::Number(_) => None,
            _ => Some((name + ": expected rw register or imm32 for "@ + what, i)),
        },
    }
}

/// An `rw` register or a 32-bit number at `i`.
pub open spec fn u32_or_rw_syntax(toks: Seq<Token>, i: int) -> Option<(Operand, int)> {
    match reg_at(toks, i) {
        Some(r) => if r.view_bits() == VIEW_RW {
            Some((reg_operand(r), next_pos(toks, i)))
        } else {
            None
        },
        None => match kind_at(toks, i) {
            KindView::Number(n) => Some((Operand::Val(Argument::Inmm32(n)), next_pos(toks, i))),
            _ => None,
        },
    }
}

/// A 32-bit immediate narrowed to a register width of `w` bytes when it fits (`None`
/// otherwise); other operands as they are.
pub open spec fn fitted(o: Operand, w: u8) -> Option<Operand> {
    match o {
        Operand::Val(Argument::Inmm32(n)) => if w == 1 {
            if n <= 0xFF {
                Some(Operand::Val(Argument::Inmm8(n as u8)))
            } else {
                None
            }
        } else if w == 2 {
            if n <= 0xFFFF {
                Some(Operand::Val(Argument::Inmm16(n as u16)))
            } else {
                None
            }
        } else {
            Some(o)
        },
        _ => Some(o),
    }
}

/// Result `r` of parsing an operand, with the parser then at `b`, is what `syn` gives: the
/// operand and the position after it, or an error.
pub open spec fn operand_parsed(r: Result<ParsedArgument>, b: Parser, syn: Option<(Operand, int)>) -> bool {
    match syn {
        Some((o, j)) => r matches Ok(a) && operand_of(a) == o && b.pos == j,
        None => r matches Err(e) && parse_err_in(e, b.tokens@),
    }
}

// ---------------------------------------------------------------------------------------
// Operand helpers.

/// Whether a parsed argument is a register operand satisfying `view`.
pub open spec fn is_reg_arg(a: ParsedArgument) -> bool {
    a matches ParsedArgument::Value(Argument::Register(r)) && r.is_valid()
}

/// Whether a parsed argument is a valid register with view `v`.
pub open spec fn is_reg_view(a: ParsedArgument, v: u8) -> bool {
    a matches ParsedArgument::Value(Argument::Register(r)) && r.is_valid() && r.view_bits() == v
}

/// Whether a parsed argument is an immediate or a label reference.
pub open spec fn is_imm_arg(a: ParsedArgument) -> bool {
    parsed_slot(a) is Imm || parsed_slot(a) is Label
}

pub(crate) fn reg_arg(r: RegisterEncoding) -> (a: ParsedArgument)
    ensures
        a == ParsedArgument::Value(Argument::Register(r)),
{
    ParsedArgument::Value(Argument::Register(r))
}

/// Takes a register operand; `message` is the error when the token names no register.
pub(crate) fn take_register(parser: &mut Parser, message: &str) -> (r: Result<RegisterEncoding>)
    requires
        old(parser).wf(),
    ensures
        r matches Err(e) ==> parse_err_in(e, old(parser).tokens@),
        keeps(*old(parser), *final(parser)),
        r is Ok <==> token_register(old(parser).at(0)) is Some,
        r matches Ok(reg) ==> Some(reg) == token_register(old(parser).at(0)) && reg.is_valid(),
        r is Ok ==> final(parser).pos == next_pos(old(parser).tokens@, old(parser).pos as int),
        r matches Err(e) ==> tok_error(e, old(parser).tokens@, old(parser).pos as int, message@),
{
    match parse_register(parser.peek(0)) {
        Some(reg) => {
            parser.advance();
            Ok(reg)
        },
        None => Err(parser.peek(0).parse_error(owned(message))),
    }
}

/// A label operand: `name`, or `.local` inside the scope of the last global label.
pub(crate) fn parse_label(parser: &mut Parser, file: FileId, span: Range<usize>) -> (r: Result<ParsedArgument>)
    requires
        old(parser).wf(),
        token_loc(old(parser).tokens@, file, span.start as int, span.end as int),
    ensures
        r matches Err(e) ==> parse_err_in(e, old(parser).tokens@),
        keeps(*old(parser), *final(parser)),
        r matches Ok(a) ==> a is LabelRef,
        operand_parsed(r, *final(parser), label_operand(old(parser).tokens@, old(parser).pos as int, scope_of(*old(parser)))),
        label_fault(old(parser).tokens@, old(parser).pos as int, scope_of(*old(parser))) matches Some((m, k))
            ==> (r matches Err(e) && tok_error(e, old(parser).tokens@, k, m)),
{
    if matches!(parser.peek(0).kind, TokenKind::Dot) {
        parser.advance();
        let (local, lfile, lspan) = parser.expect_ident()?;
        match &parser.current_global {
            None => Err(
                AssemblerError::parse(
                    lfile,
                    lspan,
                    owned("Local label reference without a preceding global label"),
                ),
            ),
            Some(global) => {
                proof {
                    reveal_strlit(".");
                    assert("."@ =~= seq!['.']);
                }
                let full = concat(concat(owned(global.as_str()), "."), local.as_str());
                assert(full@ =~= global@ + seq!['.'] + local@);
                Ok(ParsedArgument::LabelRef(LabelRef { name: full, file: lfile, span: lspan }))
            },
        }
    } else if matches!(parser.peek(0).kind, TokenKind::Ident(_)) {
        let (name, file, span) = parser.expect_ident()?;
        Ok(ParsedArgument::LabelRef(LabelRef { name, file, span }))
    } else {
        Err(AssemblerError::parse(file, span, owned("Expected label")))
    }
}

/// An immediate (number or character) or a label.
pub(crate) fn parse_imm_or_label(parser: &mut Parser) -> (r: Result<ParsedArgument>)
    requires
        old(parser).wf(),
    ensures
        r matches Err(e) ==> parse_err_in(e, old(parser).tokens@),
        keeps(*old(parser), *final(parser)),
        r matches Ok(a) ==> is_imm_arg(a),
        r matches Ok(a) ==> (old(parser).at(0).kind matches TokenKind::Number(n) ==> a
            == ParsedArgument::Value(Argument::Inmm32(n))),
        operand_parsed(r, *final(parser), imm_or_label_syntax(old(parser).tokens@, old(parser).pos as int, scope_of(*old(parser)))),
        imm_fault(old(parser).tokens@, old(parser).pos as int, scope_of(*old(parser))) matches Some((m, k))
            ==> (r matches Err(e) && tok_error(e, old(parser).tokens@, k, m)),
{
    let tok = parser.peek(0).duplicate();
    match &tok.kind {
        TokenKind::Number(n) => {
            parser.advance();
            Ok(ParsedArgument::Value(Argument::Inmm32(*n)))
        },
        TokenKind::Char(c) => {
            parser.advance();
            Ok(ParsedArgument::Value(Argument::Inmm8(*c)))
        },
        TokenKind::Dot | TokenKind::Ident(_) => parse_label(
            parser,
            tok.file,
            Range { start: tok.span.start, end: tok.span.end },
        ),
        _ => Err(tok.parse_error(owned("Expected immediate or label"))),
    }
}

/// A register, an immediate or a label.
pub(crate) fn parse_reg_or_imm(parser: &mut Parser, file: FileId, span: Range<usize>) -> (r: Result<
    ParsedArgument,
>)
    requires
        old(parser).wf(),
        token_loc(old(parser).tokens@, file, span.start as int, span.end as int),
    ensures
        r matches Err(e) ==> parse_err_in(e, old(parser).tokens@),
        keeps(*old(parser), *final(parser)),
        r matches Ok(a) ==> is_reg_arg(a) || is_imm_arg(a),
        r matches Ok(a) ==> (is_reg_arg(a) <==> token_register(old(parser).at(0)) is Some),
        operand_parsed(r, *final(parser), reg_or_imm_syntax(old(parser).tokens@, old(parser).pos as int, scope_of(*old(parser)))),
        reg_at(old(parser).tokens@, old(parser).pos as int) is None ==> (label_fault(old(parser).tokens@, old(parser).pos as int,
            scope_of(*old(parser))) matches Some((m, k)) ==> (r matches Err(e) && tok_error(e, old(parser).tokens@, k, m))),
        reg_at(old(parser).tokens@, old(parser).pos as int) is None && !(kind_at(old(parser).tokens@, old(parser).pos as int) is Number
            || kind_at(old(parser).tokens@, old(parser).pos as int) is Char || kind_at(old(parser).tokens@, old(parser).pos as int) is Dot
            || kind_at(old(parser).tokens@, old(parser).pos as int) is Ident) ==> (r matches Err(e) && e.located() == Some((ErrorKind::Parse,
            file, span.start as int, span.end as int, "Expected register, immediate, or label"@))),
{
    if let Some(reg) = parse_register(parser.peek(0)) {
        parser.advance();
        return Ok(reg_arg(reg));
    }
    let tok = parser.peek(0).duplicate();
    match &tok.kind {
        TokenKind::Number(n) => {
            parser.advance();
            Ok(ParsedArgument::Value(Argument::Inmm32(*n)))
        },
        TokenKind::Char(c) => {
            parser.advance();
            Ok(ParsedArgument::Value(Argument::Inmm8(*c)))
        },
        TokenKind::Dot | TokenKind::Ident(_) => parse_label(
            parser,
            tok.file,
            Range { start: tok.span.start, end: tok.span.end },
        ),
        _ => Err(AssemblerError::parse(file, span, owned("Expected register, immediate, or label"))),
    }
}

/// A shift amount: an `rb` register or an immediate that fits a byte.
pub(crate) fn parse_shift_amount(parser: &mut Parser, mnemonic: &str) -> (r: Result<ParsedArgument>)
    requires
        old(parser).wf(),
    ensures
        r matches Err(e) ==> parse_err_in(e, old(parser).tokens@),
        keeps(*old(parser), *final(parser)),
        r matches Ok(a) ==> is_reg_view(a, VIEW_RB) || parsed_slot(a) == Slot::Imm(1),
        operand_parsed(r, *final(parser), shift_amount_syntax(old(parser).tokens@, old(parser).pos as int)),
        amount_fault(mnemonic@, old(parser).tokens@, old(parser).pos as int) matches Some((m, k))
            ==> (r matches Err(e) && tok_error(e, old(parser).tokens@, k, m)),
{
    if let Some(reg) = parse_register(parser.peek(0)) {
        if !reg.is_rb() {
            return Err(parser.peek(0).parse_error(concat(owned(mnemonic), ": shift amount register must be rb")));
        }
        parser.advance();
        return Ok(reg_arg(reg));
    }
    let tok = parser.peek(0).duplicate();
    match tok.kind {
        TokenKind::Number(n) => {
            if n > 0xFF {
                return Err(tok.parse_error(concat(owned(mnemonic), ": shift amount immediate must fit in u8")));
            }
            parser.advance();
            Ok(ParsedArgument::Value(Argument::Inmm8(n as u8)))
        },
        TokenKind::Char(c) => {
            parser.advance();
            Ok(ParsedArgument::Value(Argument::Inmm8(c)))
        },
        _ => Err(tok.parse_error(concat(owned(mnemonic), ": expected rb register or imm8 shift amount"))),
    }
}

/// An `rw` register or a 32-bit immediate.
pub(crate) fn parse_u32_or_rw(parser: &mut Parser, mnemonic: &str, operand_name: &str) -> (r: Result<
    ParsedArgument,
>)
    requires
        old(parser).wf(),
    ensures
        r matches Err(e) ==> parse_err_in(e, old(parser).tokens@),
        keeps(*old(parser), *final(parser)),
        r matches Ok(a) ==> is_reg_view(a, VIEW_RW) || parsed_slot(a) == Slot::Imm(4),
        operand_parsed(r, *final(parser), u32_or_rw_syntax(old(parser).tokens@, old(parser).pos as int)),
        u32_or_rw_fault(mnemonic@, operand_name@, old(parser).tokens@, old(parser).pos as int) matches Some((m, k))
            ==> (r matches Err(e) && tok_error(e, old(parser).tokens@, k, m)),
{
    if let Some(reg) = parse_register(parser.peek(0)) {
        if !reg.is_rw() {
            return Err(parser.peek(0).parse_error(concat(concat(concat(owned(mnemonic), ": "), operand_name), " register must be rw")));
        }
        parser.advance();
        return Ok(reg_arg(reg));
    }
    let tok = parser.peek(0).duplicate();
    match tok.kind {
        TokenKind::Number(n) => {
            parser.advance();
            Ok(ParsedArgument::Value(Argument::Inmm32(n)))
        },
        _ => Err(tok.parse_error(concat(concat(owned(mnemonic), ": expected rw register or imm32 for "), operand_name))),
    }
}

/// Narrows a 32-bit immediate to the width of the destination register, failing when it
/// does not fit; other arguments are kept.
pub fn fit_imm(arg: ParsedArgument, file: FileId, span: Range<usize>, width: u8) -> (r: Result<ParsedArgument>)
    ensures
        r matches Err(e) ==> e.is_parse_at(file, span.start as int, span.end as int),
        match arg {
            ParsedArgument::Value(Argument::Inmm32(n)) => if width == 1 {
                if n > 0xFF {
                    r matches Err(e) && e.located() == Some((ErrorKind::Parse, file, span.start as int, span.end as int,
                        "Immediate out of range for 8-bit register"@))
                } else {
                    r matches Ok(a) && a == ParsedArgument::Value(Argument::Inmm8(n as u8))
                }
            } else if width == 2 {
                if n > 0xFFFF {
                    r matches Err(e) && e.located() == Some((ErrorKind::Parse, file, span.start as int, span.end as int,
                        "Immediate out of range for 16-bit register"@))
                } else {
                    r matches Ok(a) && a == ParsedArgument::Value(Argument::Inmm16(n as u16))
                }
            } else {
                r matches Ok(a) && a == arg
            },
            _ => r matches Ok(a) && a == arg,
        },
        match fitted(operand_of(arg), width) {
            Some(o) => r matches Ok(a) && operand_of(a) == o,
            None => r is Err,
        },
{
    match arg {
        ParsedArgument::Value(Argument::Inmm32(n)) => {
            if width == 1 {
                if n > 0xFF {
                    return Err(AssemblerError::parse(file, span, owned("Immediate out of range for 8-bit register")));
                }
                Ok(ParsedArgument::Value(Argument::Inmm8(n as u8)))
            } else if width == 2 {
                if n > 0xFFFF {
                    return Err(AssemblerError::parse(file, span, owned("Immediate out of range for 16-bit register")));
                }
                Ok(ParsedArgument::Value(Argument::Inmm16(n as u16)))
            } else {
                Ok(ParsedArgument::Value(Argument::Inmm32(n)))
            }
        },
        other => Ok(other),
    }
}

/// The register-operand variant when the source is a register, the immediate variant
/// otherwise.
pub fn pick_alu(reg_op: Op, imm_op: Op, src: &ParsedArgument) -> (op: Op)
    ensures
        op == (if src matches ParsedArgument::Value(Argument::Register(_)) { reg_op } else { imm_op }),
{
    match src {
        ParsedArgument::Value(Argument::Register(_)) => reg_op,
        _ => imm_op,
    }
}

/// The register-target variant of a jump when the target is a register, the label variant
/// otherwise.
pub fn pick_jump(label_op: Op, reg_op: Op, target: &ParsedArgument) -> (op: Op)
    ensures
        op == (if target matches ParsedArgument::Value(Argument::Register(_)) { reg_op } else { label_op }),
{
    match target {
        ParsedArgument::Value(Argument::Register(_)) => reg_op,
        _ => label_op,
    }
}

pub(crate) fn inst0(op: Op) -> (i: ParsedInstruction)
    ensures
        i.opcode == op,
        i.argument_count == 0,
        parsed_slot(i.arguments[0]) is Absent,
        parsed_slot(i.arguments[1]) is Absent,
        parsed_slot(i.arguments[2]) is Absent,
        i.size == 1 + crate::syntax::parsed_args_size(i.arguments@, crate::instruction::used_count(i.argument_count)),
{
    ParsedInstruction::new(op, [ParsedArgument::absent(), ParsedArgument::absent(), ParsedArgument::absent()], 0)
}

pub(crate) fn inst1(op: Op, a: ParsedArgument) -> (i: ParsedInstruction)
    ensures
        i.opcode == op,
        i.argument_count == 1,
        i.arguments[0] == a,
        parsed_slot(i.arguments[1]) is Absent,
        parsed_slot(i.arguments[2]) is Absent,
        i.size == 1 + crate::syntax::parsed_args_size(i.arguments@, crate::instruction::used_count(i.argument_count)),
{
    ParsedInstruction::new(op, [a, ParsedArgument::absent(), ParsedArgument::absent()], 1)
}

pub(crate) fn inst2(op: Op, a: ParsedArgument, b: ParsedArgument) -> (i: ParsedInstruction)
    ensures
        i.opcode == op,
        i.argument_count == 2,
        i.arguments[0] == a,
        i.arguments[1] == b,
        parsed_slot(i.arguments[2]) is Absent,
        i.size == 1 + crate::syntax::parsed_args_size(i.arguments@, crate::instruction::used_count(i.argument_count)),
{
    ParsedInstruction::new(op, [a, b, ParsedArgument::absent()], 2)
}

pub(crate) fn inst3(op: Op, a: ParsedArgument, b: ParsedArgument, c: ParsedArgument) -> (i: ParsedInstruction)
    ensures
        i.opcode == op,
        i.argument_count == 3,
        i.arguments[0] == a,
        i.arguments[1] == b,
        i.arguments[2] == c,
        i.size == 1 + crate::syntax::parsed_args_size(i.arguments@, crate::instruction::used_count(i.argument_count)),
{
    ParsedInstruction::new(op, [a, b, c], 3)
}

// ---------------------------------------------------------------------------------------
// Data directives.

/// Whether every item is a value of the given byte width (4 admits label references).
pub open spec fn items_of_width(v: Seq<ParsedArgument>, width: nat) -> bool {
    forall|i: int|
        0 <= i < v.len() ==> match #[trigger] v[i] {
            ParsedArgument::Value(Argument::Inmm8(_)) => width == 1,
            ParsedArgument::Value(Argument::Inmm16(_)) => width == 2,
            ParsedArgument::Value(Argument::Inmm32(_)) => width == 4,
            ParsedArgument::LabelRef(_) => width == 4,
            _ => false,
        }
}

/// The first position from `i` that holds no line feed (or the last position).
pub open spec fn skip_lines(toks: Seq<Token>, i: int) -> int
    decreases toks.len() - i,
{
    if 0 <= i < toks.len() - 1 && kind_at(toks, i) is Newline {
        skip_lines(toks, i + 1)
    } else {
        i
    }
}

/// What a data item token gives in a directive of width `w` (1 for `db`, 2 for `dh`, 4
/// for `dw`): `None` when it is no item (the list ends before it), an error when it is out
/// of range (`Some(None)`), else its values (a string gives one byte per character).
pub open spec fn data_item(w: nat, t: Token) -> Option<Option<Seq<Operand>>> {
    let k = t.kind.kind_view();
    if w == 1 {
        match k {
            KindView::Number(n) => Some(if n > 0xFF { None } else { Some(seq![Operand::Val(Argument::Inmm8(n as u8))]) }),
            KindView::Char(c) => Some(Some(seq![Operand::Val(Argument::Inmm8(c))])),
            KindView::Str(b) => Some(Some(Seq::new(b.len(), |x: int| Operand::Val(Argument::Inmm8(b[x]))))),
            _ => None,
        }
    } else if w == 2 {
        match k {
            KindView::Number(n) => Some(if n > 0xFFFF { None } else { Some(seq![Operand::Val(Argument::Inmm16(n as u16))]) }),
            _ => None,
        }
    } else {
        match k {
            KindView::Number(n) => Some(Some(seq![Operand::Val(Argument::Inmm32(n))])),
            KindView::Ident(name) => Some(Some(seq![Operand::Label(name, t.file, t.span.start as int, t.span.end as int)])),
            _ => None,
        }
    }
}

/// The items of a data directive from position `i`, after `acc`: items separated by
/// commas; the list ends before a token that is no item, or after an item no comma
/// follows. With the position after the list.
pub open spec fn data_list(w: nat, toks: Seq<Token>, i: int, acc: Seq<Operand>) -> Option<(Seq<Operand>, int)>
    decreases toks.len() - i,
{
    match data_item(w, tok_at(toks, i)) {
        None => Some((acc, i)),
        Some(None) => None,
        Some(Some(items)) => {
            let j = next_pos(toks, i);
            if kind_at(toks, j) is Comma {
                let j2 = next_pos(toks, j);
                if i < j2 <= toks.len() {
                    data_list(w, toks, j2, acc + items)
                } else {
                    Some((acc + items, j2))
                }
            } else {
                Some((acc + items, j))
            }
        },
    }
}

/// A data directive's operands from position `i`: a list of at least one item.
pub open spec fn data_directive(w: nat, toks: Seq<Token>, i: int) -> Option<(Seq<Operand>, int)> {
    match data_list(w, toks, i, seq![]) {
        Some((items, j)) => if items.len() == 0 {
            None
        } else {
            Some((items, j))
        },
        None => None,
    }
}

/// The operands of parsed arguments.
pub open spec fn operands_of(v: Seq<ParsedArgument>) -> Seq<Operand> {
    v.map_values(|a: ParsedArgument| operand_of(a))
}

proof fn lemma_operands_push(v: Seq<ParsedArgument>, x: ParsedArgument)
    ensures
        operands_of(v.push(x)) == operands_of(v).push(operand_of(x)),
{
    assert(operands_of(v.push(x)) =~= operands_of(v).push(operand_of(x)));
}

/// `db` operands: numbers up to 255, characters, and strings (one byte each).
fn parse_db(parser: &mut Parser, file: FileId, span: Range<usize>) -> (r: Result<Vec<ParsedArgument>>)
    requires
        old(parser).wf(),
        token_loc(old(parser).tokens@, file, span.start as int, span.end as int),
    ensures
        r matches Err(e) ==> parse_err_in(e, old(parser).tokens@),
        keeps(*old(parser), *final(parser)),
        r matches Ok(v) ==> v@.len() > 0 && items_of_width(v@, 1),
        match data_directive(1, old(parser).tokens@, old(parser).pos as int) {
            Some((items, j)) => r matches Ok(v) && operands_of(v@) == items && final(parser).pos == j,
            None => r is Err,
        },
{
    let mut out: Vec<ParsedArgument> = Vec::new();
    let ghost toks = parser.tokens@;
    assert(operands_of(out@) =~= seq![]);
    loop
        invariant_except_break
            data_list(1, toks, old(parser).pos as int, seq![]) == data_list(1, toks, parser.pos as int, operands_of(out@)),
        invariant
            keeps(*old(parser), *parser),
            items_of_width(out@, 1),
            toks == old(parser).tokens@,
        ensures
            keeps(*old(parser), *parser),
            items_of_width(out@, 1),
            data_list(1, toks, old(parser).pos as int, seq![]) matches Some((items, j)) && items == operands_of(out@)
                && j == parser.pos,
        decreases parser.tokens@.len() - parser.pos,
    {
        let before = parser.pos;
        let ghost acc = operands_of(out@);
        let tok = parser.peek(0).duplicate();
        match &tok.kind {
            TokenKind::Number(n) => {
                if *n > 0xFF {
                    return Err(tok.parse_error(owned("db value out of u8 range")));
                }
                proof {
                    lemma_operands_push(out@, ParsedArgument::Value(Argument::Inmm8(*n as u8)));
                }
                out.push(ParsedArgument::Value(Argument::Inmm8(*n as u8)));
                assert(operands_of(out@) =~= acc + seq![Operand::Val(Argument::Inmm8(*n as u8))]);
                parser.advance();
            },
            TokenKind::Char(c) => {
                proof {
                    lemma_operands_push(out@, ParsedArgument::Value(Argument::Inmm8(*c)));
                }
                out.push(ParsedArgument::Value(Argument::Inmm8(*c)));
                assert(operands_of(out@) =~= acc + seq![Operand::Val(Argument::Inmm8(*c))]);
                parser.advance();
            },
            TokenKind::String(bytes) => {
                let mut k: usize = 0;
                while k < bytes.len()
                    invariant
                        0 <= k <= bytes@.len(),
                        items_of_width(out@, 1),
                        operands_of(out@) == acc + Seq::new(k as nat, |x: int| Operand::Val(Argument::Inmm8(bytes@[x]))),
                    decreases bytes@.len() - k,
                {
                    proof {
                        lemma_operands_push(out@, ParsedArgument::Value(Argument::Inmm8(bytes[k as int])));
                        assert(acc + Seq::new((k + 1) as nat, |x: int| Operand::Val(Argument::Inmm8(bytes@[x]))) =~= (acc
                            + Seq::new(k as nat, |x: int| Operand::Val(Argument::Inmm8(bytes@[x])))).push(
                            Operand::Val(Argument::Inmm8(bytes@[k as int])),
                        ));
                    }
                    out.push(ParsedArgument::Value(Argument::Inmm8(bytes[k])));
                    k = k + 1;
                }
                parser.advance();
            },
            _ => {
                break;
            },
        }
        if matches!(parser.peek(0).kind, TokenKind::Comma) {
            parser.advance();
        } else {
            break;
        }
        if parser.pos <= before {
            break;
        }
    }
    if out.len() == 0 {
        return Err(AssemblerError::parse(file, span, owned("db requires at least one operand")));
    }
    Ok(out)
}

/// `dh` operands: numbers up to 0xFFFF.
fn parse_dh(parser: &mut Parser, file: FileId, span: Range<usize>) -> (r: Result<Vec<ParsedArgument>>)
    requires
        old(parser).wf(),
        token_loc(old(parser).tokens@, file, span.start as int, span.end as int),
    ensures
        r matches Err(e) ==> parse_err_in(e, old(parser).tokens@),
        keeps(*old(parser), *final(parser)),
        r matches Ok(v) ==> v@.len() > 0 && items_of_width(v@, 2),
        match data_directive(2, old(parser).tokens@, old(parser).pos as int) {
            Some((items, j)) => r matches Ok(v) && operands_of(v@) == items && final(parser).pos == j,
            None => r is Err,
        },
{
    let mut out: Vec<ParsedArgument> = Vec::new();
    let ghost toks = parser.tokens@;
    assert(operands_of(out@) =~= seq![]);
    loop
        invariant_except_break
            data_list(2, toks, old(parser).pos as int, seq![]) == data_list(2, toks, parser.pos as int, operands_of(out@)),
        invariant
            keeps(*old(parser), *parser),
            items_of_width(out@, 2),
            toks == old(parser).tokens@,
        ensures
            keeps(*old(parser), *parser),
            items_of_width(out@, 2),
            data_list(2, toks, old(parser).pos as int, seq![]) matches Some((items, j)) && items == operands_of(out@)
                && j == parser.pos,
        decreases parser.tokens@.len() - parser.pos,
    {
        let before = parser.pos;
        let ghost acc = operands_of(out@);
        let tok = parser.peek(0).duplicate();
        match tok.kind {
            TokenKind::Number(n) => {
                if n > 0xFFFF {
                    return Err(tok.parse_error(owned("dh value out of u16 range")));
                }
                proof {
                    lemma_operands_push(out@, ParsedArgument::Value(Argument::Inmm16(n as u16)));
                }
                out.push(ParsedArgument::Value(Argument::Inmm16(n as u16)));
                assert(operands_of(out@) =~= acc + seq![Operand::Val(Argument::Inmm16(n as u16))]);
                parser.advance();
            },
            _ => {
                break;
            },
        }
        if matches!(parser.peek(0).kind, TokenKind::Comma) {
            parser.advance();
        } else {
            break;
        }
        if parser.pos <= before {
            break;
        }
    }
    if out.len() == 0 {
        return Err(AssemblerError::parse(file, span, owned("dh requires at least one operand")));
    }
    Ok(out)
}

/// `dw` operands: numbers and label names.
fn parse_dw(parser: &mut Parser, file: FileId, span: Range<usize>) -> (r: Result<Vec<ParsedArgument>>)
    requires
        old(parser).wf(),
        token_loc(old(parser).tokens@, file, span.start as int, span.end as int),
    ensures
        r matches Err(e) ==> parse_err_in(e, old(parser).tokens@),
        keeps(*old(parser), *final(parser)),
        r matches Ok(v) ==> v@.len() > 0 && items_of_width(v@, 4),
        match data_directive(4, old(parser).tokens@, old(parser).pos as int) {
            Some((items, j)) => r matches Ok(v) && operands_of(v@) == items && final(parser).pos == j,
            None => r is Err,
        },
{
    let mut out: Vec<ParsedArgument> = Vec::new();
    let ghost toks = parser.tokens@;
    assert(operands_of(out@) =~= seq![]);
    loop
        invariant_except_break
            data_list(4, toks, old(parser).pos as int, seq![]) == data_list(4, toks, parser.pos as int, operands_of(out@)),
        invariant
            keeps(*old(parser), *parser),
            items_of_width(out@, 4),
            toks == old(parser).tokens@,
        ensures
            keeps(*old(parser), *parser),
            items_of_width(out@, 4),
            data_list(4, toks, old(parser).pos as int, seq![]) matches Some((items, j)) && items == operands_of(out@)
                && j == parser.pos,
        decreases parser.tokens@.len() - parser.pos,
    {
        let before = parser.pos;
        let ghost acc = operands_of(out@);
        let tok = parser.peek(0).duplicate();
        match &tok.kind {
            TokenKind::Number(n) => {
                proof {
                    lemma_operands_push(out@, ParsedArgument::Value(Argument::Inmm32(*n)));
                }
                out.push(ParsedArgument::Value(Argument::Inmm32(*n)));
                assert(operands_of(out@) =~= acc + seq![Operand::Val(Argument::Inmm32(*n))]);
                parser.advance();
            },
            TokenKind::Ident(name) => {
                let label = ParsedArgument::LabelRef(
                    LabelRef {
                        name: owned(name.as_str()),
                        file: tok.file,
                        span: Range { start: tok.span.start, end: tok.span.end },
                    },
                );
                proof {
                    lemma_operands_push(out@, label);
                }
                out.push(label);
                assert(operands_of(out@) =~= acc + seq![Operand::Label(name@, tok.file, tok.span.start as int, tok.span.end as int)]);
                parser.advance();
            },
            _ => {
                break;
            },
        }
        if matches!(parser.peek(0).kind, TokenKind::Comma) {
            parser.advance();
        } else {
            break;
        }
        if parser.pos <= before {
            break;
        }
    }
    if out.len() == 0 {
        return Err(AssemblerError::parse(file, span, owned("dw requires at least one operand")));
    }
    Ok(out)
}

// ---------------------------------------------------------------------------------------
// Top level.

/// Decimal renderings of bytes separated by `", "`.
pub open spec fn byte_list(b: Seq<u8>) -> Seq<char>
    decreases b.len(),
{
    if b.len() == 0 {
        Seq::empty()
    } else if b.len() == 1 {
        decimal(b[0] as nat)
    } else {
        byte_list(b.drop_last()) + ", "@ + decimal(b.last() as nat)
    }
}

/// How a token kind is written in messages (the derived debug form of the kind).
pub open spec fn kind_text(k: KindView) -> Seq<char> {
    match k {
        KindView::Comment => "Comment"@,
        KindView::Ident(s) => "Ident(\""@ + s + "\")"@,
        KindView::Dot => "Dot"@,
        KindView::Colon => "Colon"@,
        KindView::Comma => "Comma"@,
        KindView::Equals => "Equals"@,
        KindView::Newline => "Newline"@,
        KindView::Number(n) => "Number("@ + decimal(n as nat) + ")"@,
        KindView::Str(b) => "String(["@ + byte_list(b) + "])"@,
        KindView::Char(c) => "Char("@ + decimal(c as nat) + ")"@,
        KindView::Eof => "Eof"@,
    }
}

/// Renders a token kind for messages.
pub fn describe_kind(k: &TokenKind) -> (s: String)
    ensures
        s@ == kind_text(k.kind_view()),
{
    match k {
        TokenKind::Comment => owned("Comment"),
        TokenKind::Ident(name) => concat(concat(owned("Ident(\""), name.as_str()), "\")"),
        TokenKind::Dot => owned("Dot"),
        TokenKind::Colon => owned("Colon"),
        TokenKind::Comma => owned("Comma"),
        TokenKind::Equals => owned("Equals"),
        TokenKind::Newline => owned("Newline"),
        TokenKind::Number(n) => {
            let mut s = owned("Number(");
            push_decimal(&mut s, *n);
            concat(s, ")")
        },
        TokenKind::String(b) => {
            let mut s = owned("String([");
            let mut i: usize = 0;
            while i < b.len()
                invariant
                    0 <= i <= b@.len(),
                    s@ == "String(["@ + byte_list(b@.subrange(0, i as int)),
                decreases b@.len() - i,
            {
                let ghost before = s@;
                if i > 0 {
                    s = concat(s, ", ");
                }
                push_decimal(&mut s, b[i] as u32);
                proof {
                    let p = b@.subrange(0, i as int + 1);
                    assert(p.drop_last() =~= b@.subrange(0, i as int));
                    assert(p.last() == b@[i as int]);
                    if i == 0 {
                        assert(byte_list(b@.subrange(0, 0)) =~= Seq::<char>::empty());
                        assert(s@ =~= "String(["@ + byte_list(p));
                    } else {
                        assert(s@ =~= "String(["@ + byte_list(p));
                    }
                }
                i = i + 1;
            }
            assert(b@.subrange(0, b@.len() as int) =~= b@);
            concat(s, "])")
        },
        TokenKind::Char(c) => {
            let mut s = owned("Char(");
            push_decimal(&mut s, *c as u32);
            concat(s, ")")
        },
        TokenKind::Eof => owned("Eof"),
    }
}

proof fn lemma_data_push(s: Seq<ParsedArgument>, x: ParsedArgument)
    ensures
        data_size(s.push(x)) == data_size(s) + parsed_size(x),
{
    assert(s.push(x).drop_last() =~= s);
}

proof fn lemma_code_push(s: Seq<ParsedInstruction>, x: ParsedInstruction)
    ensures
        code_size(s.push(x)) == code_size(s) + x.size,
{
    assert(s.push(x).drop_last() =~= s);
}

/// Appends data items to a section of `len` bytes while the program, with `other` bytes in
/// the other sections, stays within the 32-bit address space; returns the new size.
fn append_data(dst: &mut Vec<ParsedArgument>, items: Vec<ParsedArgument>, len: u32, other: u32, file: FileId, span: Range<usize>) -> (r: Result<u32>)
    requires
        len == data_size(old(dst)@),
        len + other <= u32::MAX,
    ensures
        r matches Err(e) ==> e.is_parse_at(file, span.start as int, span.end as int),
        r matches Ok(n) ==> n == data_size(final(dst)@) && n >= len && n + other <= u32::MAX
            && final(dst)@.len() == old(dst)@.len() + items@.len(),
        r is Ok <==> len + data_size(items@) + other <= u32::MAX,
        r matches Ok(n) ==> n == len + data_size(items@) && operands_of(final(dst)@) == operands_of(old(dst)@) + operands_of(items@),
{
    let mut n: u32 = len;
    let mut i: usize = 0;
    while i < items.len()
        invariant
            0 <= i <= items@.len(),
            n == data_size(dst@),
            n >= len,
            n + other <= u32::MAX,
            dst@.len() == old(dst)@.len() + i,
            n == len + data_size(items@.subrange(0, i as int)),
            operands_of(dst@) == operands_of(old(dst)@) + operands_of(items@.subrange(0, i as int)),
            len + other <= u32::MAX,
        decreases items@.len() - i,
    {
        let size = items[i].size();
        proof {
            assert(items@.subrange(0, i + 1).drop_last() =~= items@.subrange(0, i as int));
            assert(data_size(items@.subrange(0, i + 1)) == data_size(items@.subrange(0, i as int)) + parsed_size(items@[i as int]));
        }
        if size as u64 + n as u64 + other as u64 > 0xFFFF_FFFFu64 {
            proof {
                lemma_data_size_prefix(items@, i + 1);
            }
            return Err(AssemblerError::parse(file, span, owned("Program exceeds the 32-bit address space")));
        }
        let item = match &items[i] {
            ParsedArgument::Value(a) => ParsedArgument::Value(*a),
            ParsedArgument::LabelRef(l) => ParsedArgument::LabelRef(l.duplicate()),
        };
        assert(operand_of(item) == operand_of(items@[i as int]));
        proof {
            lemma_data_push(dst@, item);
            lemma_operands_push(dst@, item);
            assert(operands_of(items@.subrange(0, i + 1)) =~= operands_of(items@.subrange(0, i as int)).push(operand_of(items@[i as int])));
        }
        dst.push(item);
        n = n + size as u32;
        i = i + 1;
    }
    assert(items@.subrange(0, items@.len() as int) =~= items@);
    Ok(n)
}

/// A prefix of data items is no larger than all of them.
proof fn lemma_data_size_prefix(s: Seq<ParsedArgument>, k: int)
    requires
        0 <= k <= s.len(),
    ensures
        data_size(s.subrange(0, k)) <= data_size(s),
    decreases s.len() - k,
{
    if k < s.len() {
        lemma_data_size_prefix(s, k + 1);
        assert(s.subrange(0, k + 1).drop_last() =~= s.subrange(0, k));
    } else {
        assert(s.subrange(0, k) =~= s);
    }
}

/// Data size is operand size.
proof fn lemma_data_size_ops(v: Seq<ParsedArgument>)
    ensures
        data_size(v) == ops_size(operands_of(v)),
    decreases v.len(),
{
    if v.len() > 0 {
        lemma_data_size_ops(v.drop_last());
        assert(operands_of(v).drop_last() =~= operands_of(v.drop_last()));
    }
}

/// The size of operands put together is the sum of their sizes.
proof fn lemma_ops_size_append(a: Seq<Operand>, b: Seq<Operand>)
    ensures
        ops_size(a + b) == ops_size(a) + ops_size(b),
    decreases b.len(),
{
    if b.len() == 0 {
        assert(a + b =~= a);
    } else {
        lemma_ops_size_append(a, b.drop_last());
        assert((a + b).drop_last() =~= a + b.drop_last());
    }
}

/// A parsed instruction's size is one byte more than its operands', which are the operands
/// it was parsed with.
proof fn lemma_inst_size(i: ParsedInstruction, op: Op, args: Seq<Operand>)
    requires
        crate::mnemonics::inst_is(i, op, args),
    ensures
        i.size == 1 + ops_size(args),
        args_of(i) == args,
{
    assert(args_of(i) =~= args);
    let n = args.len();
    let a = i.arguments@;
    assert forall|k: int| 0 <= k < n implies parsed_size(#[trigger] a[k]) == operand_size(args[k]) by {
        assert(operand_of(i.arguments[k]) == args[k]);
    }
    reveal_with_fuel(crate::syntax::parsed_args_size, 4);
    reveal_with_fuel(ops_size, 4);
    if n == 0 {
    } else if n == 1 {
        assert(args.drop_last() =~= Seq::<Operand>::empty());
        assert(parsed_size(a[0]) == operand_size(args[0]));
    } else if n == 2 {
        assert(args.drop_last().drop_last() =~= Seq::<Operand>::empty());
        assert(args.drop_last().last() == args[0]);
        assert(parsed_size(a[0]) == operand_size(args[0]));
        assert(parsed_size(a[1]) == operand_size(args[1]));
    } else {
        assert(args.drop_last().drop_last().drop_last() =~= Seq::<Operand>::empty());
        assert(args.drop_last().drop_last().last() == args[0]);
        assert(args.drop_last().last() == args[1]);
        assert(parsed_size(a[0]) == operand_size(args[0]));
        assert(parsed_size(a[1]) == operand_size(args[1]));
        assert(parsed_size(a[2]) == operand_size(args[2]));
    }
}

/// Whether a label of that name is already defined.
fn has_label(labels: &Vec<LabelDef>, name: &str) -> (r: bool)
    ensures
        r == exists|i: int| 0 <= i < labels@.len() && (#[trigger] labels@[i]).0@ == name@,
{
    let mut i: usize = 0;
    while i < labels.len()
        invariant
            0 <= i <= labels@.len(),
            forall|j: int| 0 <= j < i ==> (#[trigger] labels@[j]).0@ != name@,
        decreases labels@.len() - i,
    {
        if str_eq(labels[i].0.as_str(), name) {
            return true;
        }
        i = i + 1;
    }
    false
}

/// Current size of a section.
fn section_size(section: Section, ro: u32, code: u32, data: u32) -> (n: u32)
    ensures
        n == match section {
            Section::RoData => ro,
            Section::Code => code,
            Section::Data => data,
        },
{
    match section {
        Section::RoData => ro,
        Section::Code => code,
        Section::Data => data,
    }
}

/// Adds a label definition unless the name is taken.
fn define_label(f: &mut ParsedFile, name: String, section: Section, offset: u32, file: FileId, span: Range<usize>) -> (r: Result<()>)
    requires
        old(f).wf(),
        offset == old(f).section_len(section),
    ensures
        r matches Err(e) ==> e.is_parse_at(file, span.start as int, span.end as int),
        r is Ok ==> final(f).wf() && final(f).labels@.len() == old(f).labels@.len() + 1,
        r is Ok ==> final(f).labels@.last().0@ == name@,
        r is Ok ==> final(f).labels@ == old(f).labels@.push((name, section, offset)),
        final(f).rodata == old(f).rodata,
        final(f).code == old(f).code,
        final(f).data == old(f).data,
        r is Err <==> exists|i: int| 0 <= i < old(f).labels@.len() && (#[trigger] old(f).labels@[i]).0@ == name@,
        r matches Err(e) ==> e.located() == Some((ErrorKind::Parse, file, span.start as int, span.end as int, "Duplicate label: "@ + name@)),
{
    if has_label(&f.labels, name.as_str()) {
        return Err(AssemblerError::parse(file, span, concat(owned("Duplicate label: "), name.as_str())));
    }
    let ghost before = f.labels@;
    f.labels.push((name, section, offset));
    proof {
        assert forall|i: int, j: int|
            0 <= i < f.labels@.len() && 0 <= j < f.labels@.len() && i != j implies #[trigger] f.labels@[i].0@
            != #[trigger] f.labels@[j].0@ by {
            if i < before.len() && j < before.len() {
                assert(f.labels@[i] == before[i]);
                assert(f.labels@[j] == before[j]);
            } else if i < before.len() {
                assert(f.labels@[i] == before[i]);
            } else {
                assert(f.labels@[j] == before[j]);
            }
        }
        assert forall|i: int| 0 <= i < f.labels@.len() implies (#[trigger] f.labels@[i]).2 <= f.section_len(f.labels@[i].1) by {
            if i < before.len() {
                assert(f.labels@[i] == before[i]);
            }
        }
    }
    Ok(())
}

/// Size in bytes of an operand (a label reference takes four).
pub open spec fn operand_size(o: Operand) -> nat {
    match o {
        Operand::Val(v) => crate::argument::arg_size(v),
        Operand::Label(..) => 4,
    }
}

/// Total size in bytes of operands.
pub open spec fn ops_size(s: Seq<Operand>) -> nat
    decreases s.len(),
{
    if s.len() == 0 {
        0
    } else {
        ops_size(s.drop_last()) + operand_size(s.last())
    }
}

/// A program as parsed: read-only data, instructions (operation and operands), data, and
/// labels (name, section, offset).
pub struct ProgramView {
    pub rodata: Seq<Operand>,
    pub code: Seq<(Op, Seq<Operand>)>,
    pub data: Seq<Operand>,
    pub labels: Seq<(Seq<char>, Section, u32)>,
}

/// Parsing state between statements: the program so far, the current section, the last
/// global label, and the sizes of the three sections.
pub struct ParseState {
    pub prog: ProgramView,
    pub section: Section,
    pub scope: Option<Seq<char>>,
    pub ro: nat,
    pub code: nat,
    pub data: nat,
}

/// The state a program starts in: nothing parsed, in the code section, with scope `g`.
pub open spec fn start_state(g: Option<Seq<char>>) -> ParseState {
    ParseState {
        prog: ProgramView { rodata: seq![], code: seq![], data: seq![], labels: seq![] },
        section: Section::Code,
        scope: g,
        ro: 0,
        code: 0,
        data: 0,
    }
}

/// The offset the next item of the current section gets.
pub open spec fn current_offset(st: ParseState) -> nat {
    match st.section {
        Section::RoData => st.ro,
        Section::Code => st.code,
        Section::Data => st.data,
    }
}

/// Whether a label of that name is defined.
pub open spec fn label_taken(labels: Seq<(Seq<char>, Section, u32)>, name: Seq<char>) -> bool {
    exists|k: int| 0 <= k < labels.len() && (#[trigger] labels[k]).0 == name
}

/// `st` with label `name` defined at the current offset of the current section, or `None`
/// when the name is taken.
pub open spec fn with_label(st: ParseState, name: Seq<char>) -> Option<ParseState> {
    if label_taken(st.prog.labels, name) {
        None
    } else {
        Some(ParseState {
            prog: ProgramView { labels: st.prog.labels.push((name, st.section, current_offset(st) as u32)), ..st.prog },
            ..st
        })
    }
}

/// Whether the token at `i` ends a statement.
pub open spec fn ends_statement(toks: Seq<Token>, i: int) -> bool {
    kind_at(toks, i) is Newline || kind_at(toks, i) is Eof
}

/// The section a section directive names.
pub open spec fn section_named(name: Seq<char>) -> Option<Section> {
    if name == "rodata"@ {
        Some(Section::RoData)
    } else if name == "code"@ {
        Some(Section::Code)
    } else if name == "data"@ {
        Some(Section::Data)
    } else {
        None
    }
}

/// The width of a data directive's items.
pub open spec fn directive_width(id: Seq<char>) -> nat {
    if id == "db"@ {
        1
    } else if id == "dh"@ {
        2
    } else {
        4
    }
}

/// A data directive of the current (read-only or data) section with operands from `q`.
pub open spec fn data_statement(toks: Seq<Token>, q: int, st: ParseState, id: Seq<char>) -> Option<(ParseState, int)> {
    if st.section == Section::Code {
        None
    } else {
        match data_directive(directive_width(id), toks, q) {
            None => None,
            Some((items, m)) => {
                let n = ops_size(items);
                if st.ro + st.code + st.data + n > u32::MAX || !ends_statement(toks, m) {
                    None
                } else if st.section == Section::RoData {
                    Some((ParseState { prog: ProgramView { rodata: st.prog.rodata + items, ..st.prog }, ro: st.ro + n, ..st }, next_pos(toks, m)))
                } else {
                    Some((ParseState { prog: ProgramView { data: st.prog.data + items, ..st.prog }, data: st.data + n, ..st }, next_pos(toks, m)))
                }
            },
        }
    }
}

/// An instruction of the code section with mnemonic `id` and operands from `q`.
pub open spec fn code_statement(toks: Seq<Token>, q: int, st: ParseState, id: Seq<char>) -> Option<(ParseState, int)> {
    if st.section != Section::Code {
        None
    } else {
        match instruction_syntax(id, toks, q, st.scope) {
            None => None,
            Some((op, args, m)) => {
                let n = 1 + ops_size(args);
                if !ends_statement(toks, m) || st.ro + st.code + st.data + n > u32::MAX {
                    None
                } else {
                    Some((ParseState { prog: ProgramView { code: st.prog.code.push((op, args)), ..st.prog }, code: st.code + n, ..st }, next_pos(toks, m)))
                }
            },
        }
    }
}

/// One statement at position `p`: a local label definition `.name:` (in the scope of the
/// last global label), a section directive `.rodata`, `.code` or `.data`, a global label
/// definition `name:`, a data directive, or an instruction; the state and position after
/// it, or `None` for a parse error.
pub open spec fn statement(toks: Seq<Token>, p: int, st: ParseState) -> Option<(ParseState, int)> {
    match kind_at(toks, p) {
        KindView::Dot => {
            let p1 = next_pos(toks, p);
            match kind_at(toks, p1) {
                KindView::Ident(name) => if kind_at(toks, p1 + 1) is Colon {
                    match st.scope {
                        None => None,
                        Some(g) => match with_label(st, g + seq!['.'] + name) {
                            Some(st2) => Some((st2, next_pos(toks, next_pos(toks, p1)))),
                            None => None,
                        },
                    }
                } else {
                    match section_named(name) {
                        None => None,
                        Some(sec) => {
                            let q = next_pos(toks, p1);
                            if ends_statement(toks, q) {
                                Some((ParseState { section: sec, ..st }, next_pos(toks, q)))
                            } else {
                                None
                            }
                        },
                    }
                },
                _ => None,
            }
        },
        KindView::Ident(id) => if kind_at(toks, p + 1) is Colon {
            match with_label(st, id) {
                Some(st2) => Some((ParseState { scope: Some(id), ..st2 }, next_pos(toks, next_pos(toks, p)))),
                None => None,
            }
        } else if id == "db"@ || id == "dh"@ || id == "dw"@ {
            data_statement(toks, next_pos(toks, p), st, id)
        } else {
            code_statement(toks, next_pos(toks, p), st, id)
        },
        _ => None,
    }
}

/// The program the statements from position `i` give, from state `st`: statements follow
/// one another, blank lines between them, until the end of input; each must move past its
/// first token.
pub open spec fn program_from(toks: Seq<Token>, i: int, st: ParseState) -> Option<ProgramView>
    decreases toks.len() - i,
{
    let p = skip_lines(toks, i);
    if kind_at(toks, p) is Eof {
        Some(st.prog)
    } else {
        match statement(toks, p, st) {
            None => None,
            Some((st2, j)) => if i <= p < j < toks.len() {
                program_from(toks, j, st2)
            } else {
                None
            },
        }
    }
}

/// The message of a parse error at the statement starting at `p`, and the position of the
/// token it points at, where the statement's own form is at fault: a local label outside a
/// global label's scope, a label defined twice, an unknown section or a section directive
/// with more on its line, a `.` without a name, a data directive in `.code`, an instruction
/// outside `.code`, or a token no statement starts with. `None` where the statement is
/// right, or where its operands are at fault.
pub open spec fn statement_fault(toks: Seq<Token>, p: int, st: ParseState) -> Option<(Seq<char>, int)> {
    match kind_at(toks, p) {
        KindView::Dot => {
            let p1 = next_pos(toks, p);
            match kind_at(toks, p1) {
                KindView::Ident(name) => if kind_at(toks, p1 + 1) is Colon {
                    match st.scope {
                        None => Some(("Local label without a preceding global label"@, p1)),
                        Some(g) => if with_label(st, g + seq!['.'] + name) is None {
                            Some(("Duplicate label: "@ + (g + seq!['.'] + name), p))
                        } else {
                            None
                        },
                    }
                } else {
                    match section_named(name) {
                        None => Some(("Unknown section: ."@ + name, p1)),
                        Some(_) => if ends_statement(toks, next_pos(toks, p1)) {
                            None
                        } else {
                            Some(("Expected end of line"@, next_pos(toks, p1)))
                        },
                    }
                },
                _ => Some(("Expected identifier"@, p1)),
            }
        },
        KindView::Ident(id) => if kind_at(toks, p + 1) is Colon {
            if with_label(st, id) is None {
                Some(("Duplicate label: "@ + id, p))
            } else {
                None
            }
        } else if id == "db"@ || id == "dh"@ || id == "dw"@ {
            if st.section == Section::Code {
                Some(("Data directives are not allowed in .code"@, p))
            } else {
                None
            }
        } else if st.section != Section::Code {
            Some(("Instructions are only allowed in .code"@, p))
        } else {
            None
        },
        k => Some(("Unexpected token: "@ + kind_text(k), p)),
    }
}

/// The message and token position of the first parse error of the statements from `i`,
/// where a statement's own form is at fault (see `statement_fault`).
pub open spec fn program_fault(toks: Seq<Token>, i: int, st: ParseState) -> Option<(Seq<char>, int)>
    decreases toks.len() - i,
{
    let p = skip_lines(toks, i);
    if kind_at(toks, p) is Eof {
        None
    } else {
        match statement(toks, p, st) {
            None => statement_fault(toks, p, st),
            Some((st2, j)) => if i <= p < j < toks.len() {
                program_fault(toks, j, st2)
            } else {
                None
            },
        }
    }
}

/// A program that parses has no fault.
proof fn lemma_fault_none(toks: Seq<Token>, i: int, st: ParseState)
    ensures
        program_from(toks, i, st) is Some ==> program_fault(toks, i, st) is None,
    decreases toks.len() - i,
{
    let p = skip_lines(toks, i);
    if !(kind_at(toks, p) is Eof) {
        if let Some((st2, j)) = statement(toks, p, st) {
            if i <= p < j < toks.len() {
                lemma_fault_none(toks, j, st2);
            }
        }
    }
}

/// The operands of a parsed instruction.
pub open spec fn args_of(i: ParsedInstruction) -> Seq<Operand> {
    Seq::new(crate::instruction::used_count(i.argument_count) as nat, |k: int| operand_of(i.arguments[k]))
}

/// What a parsed file stands for.
pub open spec fn program_of(f: ParsedFile) -> ProgramView {
    ProgramView {
        rodata: operands_of(f.rodata@),
        code: f.code@.map_values(|i: ParsedInstruction| (i.opcode, args_of(i))),
        data: operands_of(f.data@),
        labels: f.labels@.map_values(|l: LabelDef| (l.0@, l.1, l.2)),
    }
}

/// The parsing state the loop of `parse` is in.
pub open spec fn loop_state(f: ParsedFile, section: Section, scope: Option<Seq<char>>, ro: u32, code: u32, data: u32) -> ParseState {
    ParseState { prog: program_of(f), section, scope, ro: ro as nat, code: code as nat, data: data as nat }
}

proof fn lemma_skip_lines(toks: Seq<Token>, i: int)
    requires
        0 <= i < toks.len(),
    ensures
        i <= skip_lines(toks, i) < toks.len(),
    decreases toks.len() - i,
{
    if 0 <= i < toks.len() - 1 && kind_at(toks, i) is Newline {
        lemma_skip_lines(toks, i + 1);
    }
}

proof fn lemma_labels_push(v: Seq<LabelDef>, x: LabelDef)
    ensures
        v.push(x).map_values(|l: LabelDef| (l.0@, l.1, l.2)) == v.map_values(|l: LabelDef| (l.0@, l.1, l.2)).push((x.0@, x.1, x.2)),
{
    assert(v.push(x).map_values(|l: LabelDef| (l.0@, l.1, l.2)) =~= v.map_values(|l: LabelDef| (l.0@, l.1, l.2)).push((x.0@, x.1, x.2)));
}

proof fn lemma_code_view_push(v: Seq<ParsedInstruction>, x: ParsedInstruction)
    ensures
        v.push(x).map_values(|i: ParsedInstruction| (i.opcode, args_of(i))) == v.map_values(|i: ParsedInstruction| (i.opcode, args_of(i))).push((x.opcode, args_of(x))),
{
    assert(v.push(x).map_values(|i: ParsedInstruction| (i.opcode, args_of(i))) =~= v.map_values(|i: ParsedInstruction| (i.opcode, args_of(i))).push((x.opcode, args_of(x))));
}

proof fn lemma_label_taken(v: Seq<LabelDef>, name: Seq<char>)
    ensures
        label_taken(v.map_values(|l: LabelDef| (l.0@, l.1, l.2)), name) == exists|i: int| 0 <= i < v.len() && (#[trigger] v[i]).0@ == name,
{
    let m = v.map_values(|l: LabelDef| (l.0@, l.1, l.2));
    if label_taken(m, name) {
        let k = choose|k: int| 0 <= k < m.len() && (#[trigger] m[k]).0 == name;
        assert(v[k].0@ == name);
    }
    if exists|i: int| 0 <= i < v.len() && (#[trigger] v[i]).0@ == name {
        let k = choose|i: int| 0 <= i < v.len() && (#[trigger] v[i]).0@ == name;
        assert(m[k].0 == name);
    }
}

/// Parses a whole program: section directives, labels (global, and `.local` ones scoped
/// by the last global label), data directives in the data sections and instructions in the
/// code section. The first section is the code section.
#[verifier::rlimit(100)]
#[verifier::spinoff_prover]
pub fn parse(parser: &mut Parser) -> (r: Result<ParsedFile>)
    requires
        old(parser).wf(),
    ensures
        r matches Err(e) ==> parse_err_in(e, old(parser).tokens@),
        r matches Ok(f) ==> f.wf(),
        match program_from(old(parser).tokens@, old(parser).pos as int, start_state(scope_of(*old(parser)))) {
            Some(v) => r matches Ok(f) && program_of(f) == v,
            None => r is Err,
        },
        program_fault(old(parser).tokens@, old(parser).pos as int, start_state(scope_of(*old(parser)))) matches Some((m, k))
            ==> (r matches Err(e) && e.located() == Some((ErrorKind::Parse, tok_at(old(parser).tokens@, k).file,
            tok_at(old(parser).tokens@, k).span.start as int, tok_at(old(parser).tokens@, k).span.end as int, m))),
{
    let mut f = ParsedFile { rodata: Vec::new(), code: Vec::new(), data: Vec::new(), labels: Vec::new() };
    let mut ro: u32 = 0;
    let mut code: u32 = 0;
    let mut data: u32 = 0;
    let mut section = Section::Code;
    let ghost toks = parser.tokens@;
    let ghost goal = program_from(toks, parser.pos as int, start_state(scope_of(*parser)));
    let ghost fault = program_fault(toks, parser.pos as int, start_state(scope_of(*parser)));
    proof {
        lemma_fault_none(toks, parser.pos as int, start_state(scope_of(*parser)));
    }
    assert(f.rodata@ =~= Seq::<ParsedArgument>::empty());
    assert(f.data@ =~= Seq::<ParsedArgument>::empty());
    assert(f.code@ =~= Seq::<ParsedInstruction>::empty());
    assert(program_of(f) == start_state(scope_of(*parser)).prog) by {
        assert(operands_of(f.rodata@) =~= seq![]);
        assert(operands_of(f.data@) =~= seq![]);
        assert(f.code@.map_values(|i: ParsedInstruction| (i.opcode, args_of(i))) =~= seq![]);
        assert(f.labels@.map_values(|l: LabelDef| (l.0@, l.1, l.2)) =~= seq![]);
    }
    loop
        invariant_except_break
            goal == program_from(toks, parser.pos as int, loop_state(f, section, scope_of(*parser), ro, code, data)),
            fault == program_fault(toks, parser.pos as int, loop_state(f, section, scope_of(*parser), ro, code, data)),
        invariant
            parser.wf(),
            parser.tokens@ == toks,
            toks == old(parser).tokens@,
            goal == program_from(old(parser).tokens@, old(parser).pos as int, start_state(scope_of(*old(parser)))),
            fault == program_fault(old(parser).tokens@, old(parser).pos as int, start_state(scope_of(*old(parser)))),
            goal is Some ==> fault is None,
            f.wf(),
            ro == data_size(f.rodata@),
            code == code_size(f.code@),
            data == data_size(f.data@),
        ensures
            f.wf(),
            goal == Some(program_of(f)),
        decreases parser.tokens@.len() - parser.pos,
    {
        let ghost i = parser.pos as int;
        let ghost st = loop_state(f, section, scope_of(*parser), ro, code, data);
        parser.skip_newlines();
        let before = parser.pos;
        proof {
            lemma_skip_lines(toks, i);
            lemma_data_size_ops(f.rodata@);
            lemma_data_size_ops(f.data@);
        }
        let ghost p = before as int;
        let tok = parser.peek(0).duplicate();
        match &tok.kind {
            TokenKind::Eof => {
                break;
            },
            TokenKind::Dot => {
                parser.advance();
                if matches!(parser.peek(0).kind, TokenKind::Ident(_)) && matches!(parser.peek(1).kind, TokenKind::Colon) {
                    let ghost p1 = next_pos(toks, p);
                    assert(kind_at(toks, p) is Dot);
                    assert(kind_at(toks, p1) is Ident);
                    assert(kind_at(toks, p1 + 1) is Colon);
                    let (local, lfile, lspan) = parser.expect_ident()?;
                    parser.advance();
                    assert(statement(toks, p, st) == (match st.scope {
                        None => None,
                        Some(g) => match with_label(st, g + seq!['.'] + local@) {
                            Some(st2) => Some((st2, next_pos(toks, next_pos(toks, p1)))),
                            None => None,
                        },
                    }));
                    let full = match &parser.current_global {
                        None => {
                            assert(st.scope is None);
                            assert(program_from(toks, i, st) is None);
                            return Err(AssemblerError::parse(lfile, lspan, owned("Local label without a preceding global label")));
                        },
                        Some(global) => {
                            proof {
                                reveal_strlit(".");
                                assert("."@ =~= seq!['.']);
                            }
                            let full = concat(concat(owned(global.as_str()), "."), local.as_str());
                            assert(full@ =~= global@ + seq!['.'] + local@);
                            full
                        },
                    };
                    let offset = section_size(section, ro, code, data);
                    let ghost full_view = full@;
                    proof {
                        lemma_label_taken(f.labels@, full_view);
                    }
                    let ghost labels0 = f.labels@;
                    define_label(&mut f, full, section, offset, tok.file, Range { start: tok.span.start, end: tok.span.end })?;
                    proof {
                        lemma_labels_push(labels0, f.labels@.last());
                        assert(f.labels@ == labels0.push(f.labels@.last()));
                        assert(program_of(f) == with_label(st, full_view)->0.prog);
                    }
                } else {
                    let (name, nfile, nspan) = parser.expect_ident()?;
                    if str_eq(name.as_str(), "rodata") {
                        section = Section::RoData;
                    } else if str_eq(name.as_str(), "code") {
                        section = Section::Code;
                    } else if str_eq(name.as_str(), "data") {
                        section = Section::Data;
                    } else {
                        return Err(AssemblerError::parse(nfile, nspan, concat(owned("Unknown section: ."), name.as_str())));
                    }
                    parser.expect_eol()?;
                }
            },
            TokenKind::Ident(ident) => {
                if matches!(parser.peek(1).kind, TokenKind::Colon) {
                    let (name, lfile, lspan) = parser.expect_ident()?;
                    parser.advance();
                    let offset = section_size(section, ro, code, data);
                    let scope = owned(name.as_str());
                    let ghost name_view = name@;
                    proof {
                        lemma_label_taken(f.labels@, name_view);
                    }
                    let ghost labels0 = f.labels@;
                    define_label(&mut f, name, section, offset, lfile, lspan)?;
                    proof {
                        lemma_labels_push(labels0, f.labels@.last());
                        assert(f.labels@ == labels0.push(f.labels@.last()));
                        assert(program_of(f) == with_label(st, name_view)->0.prog);
                    }
                    parser.current_global = Some(scope);
                } else {
                    let ifile = tok.file;
                    parser.advance();
                    let is_db = str_eq(ident.as_str(), "db");
                    let is_dh = str_eq(ident.as_str(), "dh");
                    let is_dw = str_eq(ident.as_str(), "dw");
                    if is_db || is_dh || is_dw {
                        if matches!(section, Section::Code) {
                            return Err(AssemblerError::parse(ifile, Range { start: tok.span.start, end: tok.span.end }, owned("Data directives are not allowed in .code")));
                        }
                        let span = Range { start: tok.span.start, end: tok.span.end };
                        let items = if is_db {
                            parse_db(parser, ifile, span)?
                        } else if is_dh {
                            parse_dh(parser, ifile, span)?
                        } else {
                            parse_dw(parser, ifile, span)?
                        };
                        proof {
                            lemma_data_size_ops(items@);
                        }
                        let span2 = Range { start: tok.span.start, end: tok.span.end };
                        let ghost ro0 = f.rodata@;
                        let ghost data0 = f.data@;
                        if matches!(section, Section::RoData) {
                            ro = append_data(&mut f.rodata, items, ro, code + data, ifile, span2)?;
                            proof {
                                lemma_data_size_ops(f.rodata@);
                                assert(operands_of(f.rodata@) == operands_of(ro0) + operands_of(items@));
                            }
                        } else {
                            data = append_data(&mut f.data, items, data, ro + code, ifile, span2)?;
                            proof {
                                lemma_data_size_ops(f.data@);
                                assert(operands_of(f.data@) == operands_of(data0) + operands_of(items@));
                            }
                        }
                        parser.expect_eol()?;
                    } else {
                        if !matches!(section, Section::Code) {
                            return Err(AssemblerError::parse(ifile, Range { start: tok.span.start, end: tok.span.end }, owned("Instructions are only allowed in .code")));
                        }
                        let inst = parse_instruction(parser, ident.as_str(), ifile, Range { start: tok.span.start, end: tok.span.end })?;
                        let ghost syn = instruction_syntax(ident@, toks, next_pos(toks, p), scope_of(*parser));
                        proof {
                            if let Some((sop, sargs, _)) = syn {
                                lemma_inst_size(inst, sop, sargs);
                            }
                        }
                        parser.expect_eol()?;
                        if inst.size > 0xFFFF_FFFF || inst.size as u64 + ro as u64 + code as u64 + data as u64 > 0xFFFF_FFFFu64 {
                            return Err(AssemblerError::parse(ifile, Range { start: tok.span.start, end: tok.span.end }, owned("Program exceeds the 32-bit address space")));
                        }
                        proof {
                            lemma_code_push(f.code@, inst);
                            lemma_code_view_push(f.code@, inst);
                        }
                        code = code + inst.size as u32;
                        f.code.push(inst);
                    }
                }
            },
            _ => {
                return Err(tok.parse_error(concat(owned("Unexpected token: "), describe_kind(&tok.kind).as_str())));
            },
        }
        if parser.pos <= before {
            return Err(parser.peek(0).parse_error(owned("Unexpected end of input")));
        }
    }
    Ok(f)
}

} // verus!
