//! Tokenizer for FVM assembly language.
use vstd::prelude::*;
use std::ops::Range;
use crate::asm_error::{AssemblerError, ErrorKind, Result};
use crate::files::FileId;
use crate::text::{utf8_lossy, latin1, owned};
use vstd::string::StringSliceAdditionalSpecFns;

verus! {

/// Kinds of tokens of the assembly language.
#[derive(Debug, Clone)]
pub enum TokenKind {
    Comment,
    Ident(String),
    Dot,
    Colon,
    Comma,
    Equals,
    Newline,
    Number(u32),
    String(Vec<u8>),
    Char(u8),
    Eof,
}

/// Mathematical contents of a token kind.
pub enum KindView {
    Comment,
    Ident(Seq<char>),
    Dot,
    Colon,
    Comma,
    Equals,
    Newline,
    Number(u32),
    Str(Seq<u8>),
    Char(u8),
    Eof,
}

impl TokenKind {
    /// Mathematical contents of the kind.
    pub open spec fn kind_view(&self) -> KindView {
        match self {
            TokenKind::Comment => KindView::Comment,
            TokenKind::Ident(s) => KindView::Ident(s@),
            TokenKind::Dot => KindView::Dot,
            TokenKind::Colon => KindView::Colon,
            TokenKind::Comma => KindView::Comma,
            TokenKind::Equals => KindView::Equals,
            TokenKind::Newline => KindView::Newline,
            TokenKind::Number(n) => KindView::Number(*n),
            TokenKind::String(b) => KindView::Str(b@),
            TokenKind::Char(c) => KindView::Char(*c),
            TokenKind::Eof => KindView::Eof,
        }
    }

    /// A copy of the kind.
    pub fn duplicate(&self) -> (r: TokenKind)
        ensures
            r.kind_view() == self.kind_view(),
    {
        match self {
            TokenKind::Comment => TokenKind::Comment,
            TokenKind::Ident(s) => TokenKind::Ident(owned(s.as_str())),
            TokenKind::Dot => TokenKind::Dot,
            TokenKind::Colon => TokenKind::Colon,
            TokenKind::Comma => TokenKind::Comma,
            TokenKind::Equals => TokenKind::Equals,
            TokenKind::Newline => TokenKind::Newline,
            TokenKind::Number(n) => TokenKind::Number(*n),
            TokenKind::String(b) => TokenKind::String(b.clone()),
            TokenKind::Char(c) => TokenKind::Char(*c),
            TokenKind::Eof => TokenKind::Eof,
        }
    }
}

/// A token: its kind, where it is, and the line and column it starts at.
#[derive(Debug)]
pub struct Token {
    pub kind: TokenKind,
    pub span: Range<usize>,
    pub file: FileId,
    pub line: u32,
    pub col: u32,
}

impl Token {
    /// A copy of the token.
    pub fn duplicate(&self) -> (r: Token)
        ensures
            r.kind.kind_view() == self.kind.kind_view(),
            r.span == self.span,
            r.file == self.file,
            r.line == self.line,
            r.col == self.col,
    {
        Token {
            kind: self.kind.duplicate(),
            span: Range { start: self.span.start, end: self.span.end },
            file: self.file,
            line: self.line,
            col: self.col,
        }
    }

    /// A parse error located at this token.
    pub fn parse_error(&self, message: String) -> (e: AssemblerError)
        ensures
            e is ParseError,
            e.located() == Some(
                (
                    ErrorKind::Parse,
                    self.file,
                    self.span.start as int,
                    self.span.end as int,
                    message@,
                ),
            ),
    {
        AssemblerError::parse(self.file, Range { start: self.span.start, end: self.span.end }, message)
    }

    /// A lexing error located at this token.
    pub fn lex_error(&self, message: String) -> (e: AssemblerError)
        ensures
            e.located() == Some(
                (ErrorKind::Lex, self.file, self.span.start as int, self.span.end as int, message@),
            ),
    {
        AssemblerError::lex(self.file, Range { start: self.span.start, end: self.span.end }, message)
    }
}

// ---------------------------------------------------------------------------------------
// The token grammar, over the UTF-8 bytes of the source.

/// Blank characters between tokens: space, tab, carriage return.
pub open spec fn is_blank(c: u8) -> bool {
    c == 32 || c == 9 || c == 13
}

/// ASCII letters.
pub open spec fn is_alpha(c: u8) -> bool {
    (65 <= c <= 90) || (97 <= c <= 122)
}

/// ASCII decimal digits.
pub open spec fn is_digit(c: u8) -> bool {
    48 <= c <= 57
}

/// First character of an identifier: a letter or `_`.
pub open spec fn is_ident_start(c: u8) -> bool {
    is_alpha(c) || c == 95
}

/// Later characters of an identifier: a letter, a digit or `_`.
pub open spec fn is_ident_char(c: u8) -> bool {
    is_ident_start(c) || is_digit(c)
}

/// Digit classes of the number syntax.
#[derive(Clone, Copy)]
pub enum Radix {
    Bin,
    Oct,
    Dec,
    Hex,
}

/// Numeric base of a digit class.
pub open spec fn radix_base(r: Radix) -> int {
    match r {
        Radix::Bin => 2,
        Radix::Oct => 8,
        Radix::Dec => 10,
        Radix::Hex => 16,
    }
}

/// Whether `c` is a digit of the class.
pub open spec fn is_radix_digit(c: u8, r: Radix) -> bool {
    match r {
        Radix::Bin => c == 48 || c == 49,
        Radix::Oct => 48 <= c <= 55,
        Radix::Dec => is_digit(c),
        Radix::Hex => is_digit(c) || (65 <= c <= 70) || (97 <= c <= 102),
    }
}

/// Value of a digit character.
pub open spec fn digit_value(c: u8) -> int {
    if is_digit(c) {
        c - 48
    } else if 65 <= c <= 70 {
        c - 55
    } else {
        c - 87
    }
}

/// End of the run of identifier characters starting at `i`.
pub open spec fn ident_end(b: Seq<u8>, i: int) -> int
    decreases b.len() - i,
{
    if 0 <= i < b.len() && is_ident_char(b[i]) {
        ident_end(b, i + 1)
    } else {
        i
    }
}

/// End of the run of digits of class `r` starting at `i`.
pub open spec fn digits_end(b: Seq<u8>, i: int, r: Radix) -> int
    decreases b.len() - i,
{
    if 0 <= i < b.len() && is_radix_digit(b[i], r) {
        digits_end(b, i + 1, r)
    } else {
        i
    }
}

/// Value of the digits `b[start..end]` in base `r`.
pub open spec fn digits_value(b: Seq<u8>, start: int, end: int, r: Radix) -> int
    decreases end - start,
{
    if end <= start {
        0
    } else {
        digits_value(b, start, end - 1, r) * radix_base(r) + digit_value(b[end - 1])
    }
}

/// Index of the first line feed at or after `i` (or the end).
pub open spec fn line_end(b: Seq<u8>, i: int) -> int
    decreases b.len() - i,
{
    if 0 <= i < b.len() && b[i] != 10 {
        line_end(b, i + 1)
    } else {
        i
    }
}

/// Skips blanks and `#` comments (a comment runs to the line feed, which it leaves).
pub open spec fn skip_blank(b: Seq<u8>, i: int) -> int
    decreases b.len() - i, 1int,
{
    if 0 <= i < b.len() && is_blank(b[i]) {
        skip_blank(b, i + 1)
    } else if 0 <= i < b.len() && b[i] == 35 {
        proof {
            lemma_line_end_bounds(b, i + 1);
        }
        skip_blank(b, line_end(b, i + 1))
    } else {
        i
    }
}

/// The byte an escape letter stands for.
pub open spec fn escape_value(c: u8) -> Option<u8> {
    if c == 110 {
        Some(10u8)
    } else if c == 116 {
        Some(9u8)
    } else if c == 114 {
        Some(13u8)
    } else if c == 92 {
        Some(92u8)
    } else if c == 34 {
        Some(34u8)
    } else if c == 39 {
        Some(39u8)
    } else if c == 48 {
        Some(0u8)
    } else {
        None
    }
}

/// Reads the body of a string literal from `i` (after the opening quote): the index after
/// the closing quote and the bytes, or `None` when it is unterminated or has a bad escape.
pub open spec fn string_body(b: Seq<u8>, i: int, acc: Seq<u8>) -> Option<(int, Seq<u8>)>
    decreases b.len() - i,
{
    if i < 0 || i >= b.len() {
        None
    } else if b[i] == 34 {
        Some((i + 1, acc))
    } else if b[i] == 92 {
        if i + 1 >= b.len() {
            None
        } else {
            match escape_value(b[i + 1]) {
                Some(e) => string_body(b, i + 2, acc.push(e)),
                None => None,
            }
        }
    } else {
        string_body(b, i + 1, acc.push(b[i]))
    }
}

/// A backslash in a string literal and the character after it stand for one byte: `\0` for
/// the byte 0, `\n` for a line feed (10), `\t` for a tab (9), `\r` for a carriage return
/// (13), and `\\`, `\"` and `\'` for the character itself; after any other character the
/// literal is refused.
pub proof fn law_string_escapes(b: Seq<u8>, i: int, acc: Seq<u8>)
    requires
        0 <= i,
        i + 1 < b.len(),
        b[i] == 92,
    ensures
        b[i + 1] == 48 ==> string_body(b, i, acc) == string_body(b, i + 2, acc.push(0)),
        b[i + 1] == 110 ==> string_body(b, i, acc) == string_body(b, i + 2, acc.push(10)),
        b[i + 1] == 116 ==> string_body(b, i, acc) == string_body(b, i + 2, acc.push(9)),
        b[i + 1] == 114 ==> string_body(b, i, acc) == string_body(b, i + 2, acc.push(13)),
        (b[i + 1] == 92 || b[i + 1] == 34 || b[i + 1] == 39) ==> string_body(b, i, acc)
            == string_body(b, i + 2, acc.push(b[i + 1])),
        !(b[i + 1] == 48 || b[i + 1] == 110 || b[i + 1] == 116 || b[i + 1] == 114 || b[i + 1] == 92
            || b[i + 1] == 34 || b[i + 1] == 39) ==> string_body(b, i, acc) is None,
{
}

/// A character literal `'\c'` stands for the same byte as the escape in a string: `'\0'`
/// is the byte 0, `'\n'` 10, `'\t'` 9, `'\r'` 13, and `'\\'`, `'\"'` and `'\''` the
/// character itself; any other escaped character is refused.
pub proof fn law_char_escapes(b: Seq<u8>, q: int)
    requires
        0 <= q,
        q + 3 < b.len(),
        b[q + 1] == 92,
        b[q + 3] == 39,
    ensures
        b[q + 2] == 48 ==> scan_char(b, q) == Scan::Tok(KindView::Char(0), q + 4),
        b[q + 2] == 110 ==> scan_char(b, q) == Scan::Tok(KindView::Char(10), q + 4),
        b[q + 2] == 116 ==> scan_char(b, q) == Scan::Tok(KindView::Char(9), q + 4),
        b[q + 2] == 114 ==> scan_char(b, q) == Scan::Tok(KindView::Char(13), q + 4),
        (b[q + 2] == 92 || b[q + 2] == 34 || b[q + 2] == 39) ==> scan_char(b, q) == Scan::Tok(
            KindView::Char(b[q + 2]),
            q + 4,
        ),
        !(b[q + 2] == 48 || b[q + 2] == 110 || b[q + 2] == 116 || b[q + 2] == 114 || b[q + 2] == 92
            || b[q + 2] == 34 || b[q + 2] == 39) ==> scan_char(b, q) is Fail,
{
}

/// Width in bytes of the UTF-8 character whose leading byte is `c`.
pub open spec fn char_width(c: u8) -> int {
    if c < 0x80 {
        1
    } else if c < 0xE0 {
        2
    } else if c < 0xF0 {
        3
    } else {
        4
    }
}

/// Low eight bits of the code point of the character of width `w` at `s`.
pub open spec fn char_low_byte(b: Seq<u8>, s: int, w: int) -> u8 {
    if w == 1 {
        b[s]
    } else {
        (((b[s + w - 2] & 3) << 6) | (b[s + w - 1] & 0x3F)) as u8
    }
}

/// Result of scanning one token.
pub enum Scan {
    /// A token of this kind ending at this index.
    Tok(KindView, int),
    /// No token: the offending text ends at this index.
    Fail(int),
}

/// Scans a number literal at `q`: `0x`/`0o`/`0b` prefixed or decimal, longest match;
/// fails when the value does not fit 32 bits.
pub open spec fn scan_number(b: Seq<u8>, q: int) -> Scan {
    let prefixed = |r: Radix, l1: u8, l2: u8|
        b[q] == 48 && q + 2 < b.len() && (b[q + 1] == l1 || b[q + 1] == l2) && is_radix_digit(
            b[q + 2],
            r,
        );
    let (r, start) = if prefixed(Radix::Hex, 120, 88) {
        (Radix::Hex, q + 2)
    } else if prefixed(Radix::Oct, 111, 79) {
        (Radix::Oct, q + 2)
    } else if prefixed(Radix::Bin, 98, 66) {
        (Radix::Bin, q + 2)
    } else {
        (Radix::Dec, q)
    };
    let end = digits_end(b, start, r);
    let v = digits_value(b, start, end, r);
    if v > u32::MAX {
        Scan::Fail(end)
    } else {
        Scan::Tok(KindView::Number(v as u32), end)
    }
}

/// A number literal is read in base 16 after `0x` or `0X`, base 8 after `0o` or `0O`,
/// base 2 after `0b` or `0B` (when a digit of that base follows), and in base 10 otherwise;
/// it takes all the digits of its base that follow and is refused when its value does not
/// fit 32 bits. Digits `0`-`9` are worth 0-9 and the letters `A`-`F` and `a`-`f` 10-15.
pub proof fn law_number_radixes(b: Seq<u8>, q: int, c: u8)
    requires
        0 <= q < b.len(),
        b[q] == 48,
    ensures
        48 <= c <= 57 ==> digit_value(c) == c - 48,
        65 <= c <= 70 ==> digit_value(c) == c - 55,
        97 <= c <= 102 ==> digit_value(c) == c - 87,
        radix_base(Radix::Bin) == 2 && radix_base(Radix::Oct) == 8 && radix_base(Radix::Dec) == 10 && radix_base(Radix::Hex) == 16,
        is_radix_digit(c, Radix::Bin) <==> (c == 48 || c == 49),
        is_radix_digit(c, Radix::Oct) <==> 48 <= c <= 55,
        is_radix_digit(c, Radix::Dec) <==> 48 <= c <= 57,
        is_radix_digit(c, Radix::Hex) <==> (48 <= c <= 57 || 65 <= c <= 70 || 97 <= c <= 102),
        ({
            let rad = if q + 2 < b.len() && (b[q + 1] == 120 || b[q + 1] == 88) && is_radix_digit(b[q + 2], Radix::Hex) {
                Some(Radix::Hex)
            } else if q + 2 < b.len() && (b[q + 1] == 111 || b[q + 1] == 79) && is_radix_digit(b[q + 2], Radix::Oct) {
                Some(Radix::Oct)
            } else if q + 2 < b.len() && (b[q + 1] == 98 || b[q + 1] == 66) && is_radix_digit(b[q + 2], Radix::Bin) {
                Some(Radix::Bin)
            } else {
                None
            };
            let (r, start) = match rad {
                Some(r) => (r, q + 2),
                None => (Radix::Dec, q),
            };
            let e = digits_end(b, start, r);
            let v = digits_value(b, start, e, r);
            scan_number(b, q) == if v > u32::MAX { Scan::Fail(e) } else { Scan::Tok(KindView::Number(v as u32), e) }
        }),
{
}

/// Scans a character literal at `q` (the opening quote).
pub open spec fn scan_char(b: Seq<u8>, q: int) -> Scan {
    if q + 1 >= b.len() {
        Scan::Fail(q + 1)
    } else if b[q + 1] == 92 {
        if q + 3 < b.len() && escape_value(b[q + 2]) is Some && b[q + 3] == 39 {
            Scan::Tok(KindView::Char(escape_value(b[q + 2])->0), q + 4)
        } else {
            Scan::Fail(q + 1)
        }
    } else {
        let w = char_width(b[q + 1]);
        if q + 1 + w < b.len() && b[q + 1 + w] == 39 {
            Scan::Tok(KindView::Char(char_low_byte(b, q + 1, w)), q + 2 + w)
        } else {
            Scan::Fail(q + 1)
        }
    }
}

/// Scans the token that starts at `q`.
pub open spec fn scan_at(b: Seq<u8>, q: int) -> Scan {
    let c = b[q];
    if is_ident_start(c) {
        let e = ident_end(b, q);
        Scan::Tok(KindView::Ident(latin1(b.subrange(q, e))), e)
    } else if c == 46 {
        Scan::Tok(KindView::Dot, q + 1)
    } else if c == 58 {
        Scan::Tok(KindView::Colon, q + 1)
    } else if c == 44 {
        Scan::Tok(KindView::Comma, q + 1)
    } else if c == 61 {
        Scan::Tok(KindView::Equals, q + 1)
    } else if c == 10 {
        Scan::Tok(KindView::Newline, q + 1)
    } else if is_digit(c) {
        scan_number(b, q)
    } else if c == 34 {
        match string_body(b, q + 1, seq![]) {
            Some((e, s)) => Scan::Tok(KindView::Str(s), e),
            None => Scan::Fail(q + 1),
        }
    } else if c == 39 {
        scan_char(b, q)
    } else {
        Scan::Fail(if q + char_width(c) > b.len() {
            b.len() as int
        } else {
            q + char_width(c)
        })
    }
}

/// A token of the grammar: its kind and byte span.
pub struct LexTok {
    pub kind: KindView,
    pub start: int,
    pub end: int,
}

/// The tokens of `b` from `i` to the end, or the span of the first text that is not a
/// token.
pub open spec fn lex_from(b: Seq<u8>, i: int) -> std::result::Result<Seq<LexTok>, (int, int)>
    decreases b.len() - i,
{
    let q = skip_blank(b, i);
    if q < 0 || q >= b.len() {
        Ok(seq![])
    } else {
        match scan_at(b, q) {
            Scan::Fail(e) => Err((q, e)),
            Scan::Tok(k, e) => {
                proof {
                    lemma_skip_blank_bounds(b, i);
                    lemma_scan_advances(b, q);
                }
                match lex_from(b, e) {
                    Ok(rest) => Ok(seq![LexTok { kind: k, start: q, end: e }] + rest),
                    Err(x) => Err(x),
                }
            },
        }
    }
}

/// Line and column (counted in characters, from 1) of byte offset `n`, saturating.
pub open spec fn line_col(b: Seq<u8>, n: int) -> (int, int)
    decreases n,
{
    if n <= 0 {
        (1, 1)
    } else {
        let (l, c) = line_col(b, n - 1);
        if b[n - 1] == 10 {
            (sat_inc(l), 1)
        } else if 0x80 <= b[n - 1] < 0xC0 {
            (l, c)
        } else {
            (l, sat_inc(c))
        }
    }
}

/// `x + 1`, saturating at `usize::MAX`.
pub open spec fn sat_inc(x: int) -> int {
    if x >= usize::MAX {
        usize::MAX as int
    } else {
        x + 1
    }
}

/// Whether `t` is the token for grammar token `g` of file `file` whose bytes are `b`.
pub open spec fn token_matches(t: Token, g: LexTok, file: FileId, b: Seq<u8>) -> bool {
    &&& t.kind.kind_view() == g.kind
    &&& t.span.start == g.start
    &&& t.span.end == g.end
    &&& t.file == file
    &&& t.line == line_col(b, g.start).0 as u32
    &&& t.col == line_col(b, g.start).1 as u32
}

// ---------------------------------------------------------------------------------------
// Lemmas about the grammar.

pub proof fn lemma_line_end_bounds(b: Seq<u8>, i: int)
    ensures
        line_end(b, i) >= i,
        0 <= i <= b.len() ==> line_end(b, i) <= b.len(),
    decreases b.len() - i,
{
    if 0 <= i < b.len() && b[i] != 10 {
        lemma_line_end_bounds(b, i + 1);
    }
}

pub proof fn lemma_skip_blank_bounds(b: Seq<u8>, i: int)
    ensures
        skip_blank(b, i) >= i,
        0 <= i <= b.len() ==> skip_blank(b, i) <= b.len(),
    decreases b.len() - i, 1int,
{
    if 0 <= i < b.len() && is_blank(b[i]) {
        lemma_skip_blank_bounds(b, i + 1);
    } else if 0 <= i < b.len() && b[i] == 35 {
        lemma_line_end_bounds(b, i + 1);
        lemma_skip_blank_bounds(b, line_end(b, i + 1));
    }
}

pub proof fn lemma_ident_end_bounds(b: Seq<u8>, i: int)
    ensures
        ident_end(b, i) >= i,
        0 <= i <= b.len() ==> ident_end(b, i) <= b.len(),
    decreases b.len() - i,
{
    if 0 <= i < b.len() && is_ident_char(b[i]) {
        lemma_ident_end_bounds(b, i + 1);
    }
}

pub proof fn lemma_digits_end_bounds(b: Seq<u8>, i: int, r: Radix)
    ensures
        digits_end(b, i, r) >= i,
        0 <= i <= b.len() ==> digits_end(b, i, r) <= b.len(),
    decreases b.len() - i,
{
    if 0 <= i < b.len() && is_radix_digit(b[i], r) {
        lemma_digits_end_bounds(b, i + 1, r);
    }
}

pub proof fn lemma_string_body_bounds(b: Seq<u8>, i: int, acc: Seq<u8>)
    ensures
        string_body(b, i, acc) matches Some((e, _)) ==> i < e <= b.len(),
    decreases b.len() - i,
{
    if 0 <= i < b.len() && b[i] != 34 {
        if b[i] == 92 {
            if i + 1 < b.len() {
                if let Some(e) = escape_value(b[i + 1]) {
                    lemma_string_body_bounds(b, i + 2, acc.push(e));
                }
            }
        } else {
            lemma_string_body_bounds(b, i + 1, acc.push(b[i]));
        }
    }
}

pub proof fn lemma_scan_advances(b: Seq<u8>, q: int)
    requires
        0 <= q < b.len(),
    ensures
        scan_at(b, q) matches Scan::Tok(_, e) ==> q < e <= b.len(),
        scan_at(b, q) matches Scan::Fail(e) ==> q < e <= b.len(),
{
    lemma_ident_end_bounds(b, q + 1);
    lemma_digits_end_bounds(b, q + 1, Radix::Dec);
    lemma_digits_end_bounds(b, q + 2, Radix::Hex);
    lemma_digits_end_bounds(b, q + 2, Radix::Oct);
    lemma_digits_end_bounds(b, q + 2, Radix::Bin);
    lemma_string_body_bounds(b, q + 1, seq![]);
    if is_ident_start(b[q]) {
        assert(ident_end(b, q) == ident_end(b, q + 1));
    }
    if is_digit(b[q]) {
        assert(digits_end(b, q, Radix::Dec) == digits_end(b, q + 1, Radix::Dec));
    }
}

// ---------------------------------------------------------------------------------------
// Scanners.

fn is_ident_char_exec(c: u8) -> (r: bool)
    ensures
        r == is_ident_char(c),
{
    (65 <= c && c <= 90) || (97 <= c && c <= 122) || c == 95 || (48 <= c && c <= 57)
}

fn is_radix_digit_exec(c: u8, r: Radix) -> (ok: bool)
    ensures
        ok == is_radix_digit(c, r),
{
    match r {
        Radix::Bin => c == 48 || c == 49,
        Radix::Oct => 48 <= c && c <= 55,
        Radix::Dec => 48 <= c && c <= 57,
        Radix::Hex => (48 <= c && c <= 57) || (65 <= c && c <= 70) || (97 <= c && c <= 102),
    }
}

fn escape_byte(c: u8) -> (r: Option<u8>)
    ensures
        r == escape_value(c),
{
    if c == 110 {
        Some(10)
    } else if c == 116 {
        Some(9)
    } else if c == 114 {
        Some(13)
    } else if c == 92 {
        Some(92)
    } else if c == 34 {
        Some(34)
    } else if c == 39 {
        Some(39)
    } else if c == 48 {
        Some(0)
    } else {
        None
    }
}

fn skip_blank_exec(b: &[u8], i: usize) -> (r: usize)
    requires
        i <= b@.len(),
    ensures
        r == skip_blank(b@, i as int),
        i <= r <= b@.len(),
{
    let mut p = i;
    proof {
        lemma_skip_blank_bounds(b@, i as int);
    }
    while p < b.len() && (b[p] == 32 || b[p] == 9 || b[p] == 13 || b[p] == 35)
        invariant
            i <= p <= b@.len(),
            skip_blank(b@, i as int) == skip_blank(b@, p as int),
        decreases b@.len() - p,
    {
        if b[p] == 35 {
            let mut e = p + 1;
            while e < b.len() && b[e] != 10
                invariant
                    p + 1 <= e <= b@.len(),
                    line_end(b@, (p + 1) as int) == line_end(b@, e as int),
                decreases b@.len() - e,
            {
                e = e + 1;
            }
            p = e;
        } else {
            p = p + 1;
        }
    }
    p
}

fn ident_end_exec(b: &[u8], i: usize) -> (r: usize)
    requires
        i <= b@.len(),
    ensures
        r == ident_end(b@, i as int),
{
    let mut p = i;
    while p < b.len() && is_ident_char_exec(b[p])
        invariant
            i <= p <= b@.len(),
            ident_end(b@, i as int) == ident_end(b@, p as int),
        decreases b@.len() - p,
    {
        p = p + 1;
    }
    p
}

/// Reads the digits of class `r` from `start`: the end of the run and its value, or `None`
/// when the value does not fit 32 bits.
fn digits_exec(b: &[u8], start: usize, r: Radix) -> (res: (usize, Option<u32>))
    requires
        start <= b@.len(),
    ensures
        res.0 == digits_end(b@, start as int, r),
        res.1 is Some <==> digits_value(b@, start as int, res.0 as int, r) <= u32::MAX,
        res.1 matches Some(v) ==> v == digits_value(b@, start as int, res.0 as int, r),
{
    let base: u64 = match r {
        Radix::Bin => 2,
        Radix::Oct => 8,
        Radix::Dec => 10,
        Radix::Hex => 16,
    };
    let mut p = start;
    let mut value: u64 = 0;
    let mut overflow = false;
    while p < b.len() && is_radix_digit_exec(b[p], r)
        invariant
            start <= p <= b@.len(),
            base == radix_base(r),
            digits_end(b@, start as int, r) == digits_end(b@, p as int, r),
            forall|j: int| start <= j < p ==> is_radix_digit(#[trigger] b@[j], r),
            !overflow ==> value == digits_value(b@, start as int, p as int, r),
            !overflow ==> value <= u32::MAX,
            overflow ==> digits_value(b@, start as int, p as int, r) > u32::MAX,
        decreases b@.len() - p,
    {
        let c = b[p];
        let d: u64 = if 48 <= c && c <= 57 {
            (c - 48) as u64
        } else if 65 <= c && c <= 70 {
            (c - 55) as u64
        } else {
            (c - 87) as u64
        };
        proof {
            lemma_digits_value_monotone(b@, start as int, p as int, r);
        }
        if !overflow {
            let next = value * base + d;
            if next > 0xFFFF_FFFF {
                overflow = true;
            } else {
                value = next;
            }
        }
        p = p + 1;
    }
    if overflow {
        (p, None)
    } else {
        (p, Some(value as u32))
    }
}

proof fn lemma_digits_value_monotone(b: Seq<u8>, start: int, p: int, r: Radix)
    requires
        start <= p < b.len(),
        is_radix_digit(b[p], r),
    ensures
        digits_value(b, start, p + 1, r) >= digits_value(b, start, p, r) * radix_base(r),
        digits_value(b, start, p + 1, r) == digits_value(b, start, p, r) * radix_base(r)
            + digit_value(b[p]),
        0 <= digit_value(b[p]) < radix_base(r),
{
}

proof fn lemma_digits_value_nonneg(b: Seq<u8>, start: int, p: int, r: Radix)
    requires
        forall|j: int| start <= j < p ==> is_radix_digit(#[trigger] b[j], r),
    ensures
        digits_value(b, start, p, r) >= 0,
    decreases p - start,
{
    if p > start {
        lemma_digits_value_nonneg(b, start, p - 1, r);
        assert(is_radix_digit(b[p - 1], r));
        assert(digits_value(b, start, p - 1, r) * radix_base(r) >= 0) by (nonlinear_arith)
            requires
                digits_value(b, start, p - 1, r) >= 0,
                radix_base(r) >= 2,
        ;
    }
}

fn scan_number_exec(b: &[u8], q: usize) -> (r: (usize, Option<u32>))
    requires
        q < b@.len(),
        is_digit(b@[q as int]),
    ensures
        scan_number(b@, q as int) == (match r.1 {
            Some(v) => Scan::Tok(KindView::Number(v), r.0 as int),
            None => Scan::Fail(r.0 as int),
        }),
{
    let len = b.len();
    let (r, start) = if b[q] == 48 && len - q > 2 && (b[q + 1] == 120 || b[q + 1] == 88)
        && is_radix_digit_exec(b[q + 2], Radix::Hex) {
        (Radix::Hex, q + 2)
    } else if b[q] == 48 && len - q > 2 && (b[q + 1] == 111 || b[q + 1] == 79)
        && is_radix_digit_exec(b[q + 2], Radix::Oct) {
        (Radix::Oct, q + 2)
    } else if b[q] == 48 && len - q > 2 && (b[q + 1] == 98 || b[q + 1] == 66)
        && is_radix_digit_exec(b[q + 2], Radix::Bin) {
        (Radix::Bin, q + 2)
    } else {
        (Radix::Dec, q)
    };
    let (end, v) = digits_exec(b, start, r);
    proof {
        lemma_digits_end_bounds(b@, start as int, r);
    }
    (end, v)
}

fn scan_string_exec(b: &[u8], q: usize) -> (r: Option<(Vec<u8>, usize)>)
    requires
        q < b@.len(),
    ensures
        match string_body(b@, q + 1, seq![]) {
            Some((e, s)) => r matches Some((v, e2)) && v@ == s && e2 == e,
            None => r is None,
        },
{
    let len = b.len();
    let mut out: Vec<u8> = Vec::new();
    let mut i = q + 1;
    loop
        invariant
            q + 1 <= i <= b@.len() + 1,
            string_body(b@, q + 1, seq![]) == string_body(b@, i as int, out@),
        decreases b@.len() + 1 - i,
    {
        if i >= b.len() {
            return None;
        }
        let c = b[i];
        if c == 34 {
            return Some((out, i + 1));
        } else if c == 92 {
            if i + 1 >= b.len() {
                return None;
            }
            match escape_byte(b[i + 1]) {
                Some(e) => {
                    out.push(e);
                    i = i + 2;
                },
                None => {
                    return None;
                },
            }
        } else {
            out.push(c);
            i = i + 1;
        }
    }
}

fn char_width_exec(c: u8) -> (w: usize)
    ensures
        w == char_width(c),
{
    if c < 0x80 {
        1
    } else if c < 0xE0 {
        2
    } else if c < 0xF0 {
        3
    } else {
        4
    }
}

fn scan_char_exec(b: &[u8], q: usize) -> (r: Option<(u8, usize)>)
    requires
        q < b@.len(),
    ensures
        scan_char(b@, q as int) == (match r {
            Some((v, e)) => Scan::Tok(KindView::Char(v), e as int),
            None => Scan::Fail(q + 1),
        }),
{
    let len = b.len();
    if q + 1 >= len {
        return None;
    }
    if b[q + 1] == 92 {
        if len - q > 3 && b[q + 3] == 39 {
            match escape_byte(b[q + 2]) {
                Some(e) => Some((e, q + 4)),
                None => None,
            }
        } else {
            None
        }
    } else {
        let w = char_width_exec(b[q + 1]);
        if len - q > 1 + w && b[q + 1 + w] == 39 {
            let v = if w == 1 {
                b[q + 1]
            } else {
                ((b[q + w - 1] & 3) << 6) | (b[q + w] & 0x3F)
            };
            Some((v, q + 2 + w))
        } else {
            None
        }
    }
}

/// Line and column of byte offset `n` of `b`.
fn line_col_exec(b: &[u8], n: usize) -> (r: (u32, u32))
    requires
        n <= b@.len(),
    ensures
        r.0 == line_col(b@, n as int).0 as u32,
        r.1 == line_col(b@, n as int).1 as u32,
{
    let mut line: usize = 1;
    let mut col: usize = 1;
    let mut i: usize = 0;
    while i < n
        invariant
            0 <= i <= n <= b@.len(),
            (line as int, col as int) == line_col(b@, i as int),
        decreases n - i,
    {
        let c = b[i];
        if c == 10 {
            line = line.saturating_add(1);
            col = 1;
        } else if 0x80 <= c && c < 0xC0 {
        } else {
            col = col.saturating_add(1);
        }
        i = i + 1;
    }
    (line as u32, col as u32)
}

/// Scans the token at `q`: its kind and end, or the end of the offending text.
fn scan_token(b: &[u8], q: usize) -> (r: std::result::Result<(TokenKind, usize), usize>)
    requires
        q < b@.len(),
    ensures
        match scan_at(b@, q as int) {
            Scan::Tok(k, e) => r matches Ok((t, e2)) && t.kind_view() == k && e2 == e,
            Scan::Fail(e) => r matches Err(e2) && e2 == e,
        },
{
    let c = b[q];
    if (65 <= c && c <= 90) || (97 <= c && c <= 122) || c == 95 {
        let e = ident_end_exec(b, q);
        proof {
            lemma_ident_end_bounds(b@, q as int);
            lemma_ident_run(b@, q as int);
        }
        let text = crate::bytes::copy_range(b, q, e);
        let s = utf8_lossy(text.as_slice());
        Ok((TokenKind::Ident(s), e))
    } else if c == 46 {
        Ok((TokenKind::Dot, q + 1))
    } else if c == 58 {
        Ok((TokenKind::Colon, q + 1))
    } else if c == 44 {
        Ok((TokenKind::Comma, q + 1))
    } else if c == 61 {
        Ok((TokenKind::Equals, q + 1))
    } else if c == 10 {
        Ok((TokenKind::Newline, q + 1))
    } else if 48 <= c && c <= 57 {
        let (e, v) = scan_number_exec(b, q);
        match v {
            Some(n) => Ok((TokenKind::Number(n), e)),
            None => Err(e),
        }
    } else if c == 34 {
        match scan_string_exec(b, q) {
            Some((s, e)) => Ok((TokenKind::String(s), e)),
            None => Err(q + 1),
        }
    } else if c == 39 {
        match scan_char_exec(b, q) {
            Some((v, e)) => Ok((TokenKind::Char(v), e)),
            None => Err(q + 1),
        }
    } else {
        let w = char_width_exec(c);
        if w > b.len() - q {
            Err(b.len())
        } else {
            Err(q + w)
        }
    }
}

/// Identifier characters are ASCII.
proof fn lemma_ident_run(b: Seq<u8>, q: int)
    requires
        0 <= q <= b.len(),
    ensures
        forall|j: int| q <= j < ident_end(b, q) ==> #[trigger] b[j] < 128,
    decreases b.len() - q,
{
    if 0 <= q < b.len() && is_ident_char(b[q]) {
        lemma_ident_run(b, q + 1);
    }
}

/// Tokenizes a source file. The tokens are exactly those of the token grammar
/// (`lex_from`), each with its line and column, followed by an end-of-file token; when the
/// grammar finds text that is no token, the result is a lexing error at that text.
pub fn tokenize(source: &str, file: FileId) -> (r: Result<Vec<Token>>)
    ensures
        tokenized(source.spec_bytes(), file, r),
{
    tokenize_bytes(source.as_bytes(), file)
}

/// What tokenizing `b` gives: the grammar's tokens followed by an end-of-file token, or a
/// lexing error at the first text that is no token.
pub open spec fn tokenized(b: Seq<u8>, file: FileId, r: Result<Vec<Token>>) -> bool {
    match lex_from(b, 0) {
        Ok(toks) => r matches Ok(ts) && ts@.len() == toks.len() + 1 && (forall|i: int|
            0 <= i < toks.len() ==> token_matches(#[trigger] ts@[i], toks[i], file, b))
            && ts@.last().kind.kind_view() == KindView::Eof && ts@.last().span.start
            == b.len() && ts@.last().span.end == b.len() && ts@.last().file == file,
        Err((s, e)) => r matches Err(err) && err.located() matches Some(
            (k, f, s2, e2, _),
        ) && k is Lex && f == file && s2 == s && e2 == e,
    }
}

/// Tokenizes the bytes of a source text, as `tokenize` does.
pub fn tokenize_bytes(b: &[u8], file: FileId) -> (r: Result<Vec<Token>>)
    ensures
        tokenized(b@, file, r),
        r matches Ok(ts) ==> forall|i: int|
            0 <= i < ts@.len() ==> (#[trigger] ts@[i]).span.start <= ts@[i].span.end <= b@.len(),
{
    let ghost bs = b@;
    let mut tokens: Vec<Token> = Vec::new();
    let mut pos: usize = 0;
    let ghost mut done: Seq<LexTok> = seq![];
    loop
        invariant
            bs == b@,
            pos <= bs.len(),
            tokens@.len() == done.len(),
            forall|i: int|
                0 <= i < done.len() ==> token_matches(#[trigger] tokens@[i], done[i], file, bs),
            forall|i: int|
                0 <= i < tokens@.len() ==> (#[trigger] tokens@[i]).span.start <= tokens@[i].span.end
                    <= bs.len(),
            lex_from(bs, 0) == (match lex_from(bs, pos as int) {
                Ok(rest) => Ok(done + rest),
                Err(x) => Err::<Seq<LexTok>, (int, int)>(x),
            }),
        decreases bs.len() - pos,
    {
        let q = skip_blank_exec(b, pos);
        if q >= b.len() {
            let (line, col) = line_col_exec(b, b.len());
            tokens.push(
                Token {
                    kind: TokenKind::Eof,
                    span: Range { start: b.len(), end: b.len() },
                    file,
                    line,
                    col,
                },
            );
            proof {
                assert(lex_from(bs, pos as int) == Ok::<Seq<LexTok>, (int, int)>(seq![]));
                assert(done + seq![] =~= done);
            }
            return Ok(tokens);
        }
        proof {
            lemma_scan_advances(bs, q as int);
        }
        match scan_token(b, q) {
            Err(e) => {
                return Err(
                    AssemblerError::lex(file, Range { start: q, end: e }, owned("Unexpected character")),
                );
            },
            Ok((kind, e)) => {
                let (line, col) = line_col_exec(b, q);
                let ghost g = LexTok { kind: kind.kind_view(), start: q as int, end: e as int };
                let ghost old_tokens = tokens@;
                tokens.push(Token { kind, span: Range { start: q, end: e }, file, line, col });
                proof {
                    assert(token_matches(tokens@[tokens@.len() - 1], g, file, bs));
                    let old_done = done;
                    done = done.push(g);
                    assert forall|i: int| 0 <= i < done.len() implies token_matches(
                        #[trigger] tokens@[i],
                        done[i],
                        file,
                        bs,
                    ) by {
                        if i < old_done.len() {
                            assert(tokens@[i] == old_tokens[i]);
                        }
                    }
                    match lex_from(bs, e as int) {
                        Ok(rest) => {
                            assert(old_done + (seq![g] + rest) =~= done + rest);
                        },
                        Err(_) => {},
                    }
                }
                pos = e;
            },
        }
    }
}


/// A token of `kind` at `span` of file `file` whose bytes are `source`, with the line and
/// column of the span's start.
pub fn make_token(kind: TokenKind, file: FileId, source: &[u8], span: Range<usize>) -> (t: Token)
    requires
        span.start <= source@.len(),
    ensures
        t.kind == kind,
        t.file == file,
        t.span == span,
        t.line == line_col(source@, span.start as int).0 as u32,
        t.col == line_col(source@, span.start as int).1 as u32,
{
    let (line, col) = line_col_exec(source, span.start);
    Token { kind, span, file, line, col }
}

} // verus!
