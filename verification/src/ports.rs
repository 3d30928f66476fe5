//! Port-mapped debug devices: decimal and hexadecimal text, and raw bytes. Each reads from
//! the input it was given and collects what the machine writes.
use vstd::prelude::*;
use crate::lexer::{Radix, digits_value, digit_value, is_radix_digit, radix_base};
use crate::parser::strip_plus;
use crate::text::owned;
use crate::vm_types::{Interrupt, VmError, VmResult, interrupt_of};

verus! {

/// How a port device formats what passes through it.
#[derive(Clone, Copy, PartialEq, Eq, Structural, Debug)]
pub enum PortKind {
    /// One decimal number per line.
    Decimal,
    /// One hexadecimal byte per line (`0x41` or `41` in, `0x41` out).
    Hex,
    /// Bytes as they are.
    Raw,
}

/// A port-mapped device: its kind and identifier, its input and how much of it was read,
/// and what was written to it.
#[derive(Debug)]
pub struct PortDevice {
    pub kind: PortKind,
    pub id: [u8; 8],
    pub input: Vec<u8>,
    pub cursor: usize,
    pub output: Vec<u8>,
}

/// The one-byte white-space characters: space, tab, line feed, vertical tab, form feed,
/// carriage return.
pub open spec fn is_blank(c: u8) -> bool {
    c == 32 || (9 <= c && c <= 13)
}

/// Value of an unsigned number written in base `r`: an optional `+`, then at least one
/// digit.
pub open spec fn unsigned_text(s: Seq<u8>, r: Radix) -> Option<int> {
    let d = strip_plus(s);
    if d.len() == 0 || !(forall|i: int| 0 <= i < d.len() ==> is_radix_digit(#[trigger] d[i], r)) {
        None
    } else {
        Some(digits_value(d, 0, d.len() as int, r))
    }
}

/// The number `s` denotes in base `r` when it is at most `max`.
pub open spec fn number_upto(s: Seq<u8>, r: Radix, max: int) -> Option<int> {
    match unsigned_text(s, r) {
        Some(v) => if v <= max {
            Some(v)
        } else {
            None
        },
        None => None,
    }
}

proof fn lemma_digits_grow(d: Seq<u8>, k: int, n: int, r: Radix)
    requires
        0 <= k <= n <= d.len(),
        forall|j: int| 0 <= j < n ==> is_radix_digit(#[trigger] d[j], r),
    ensures
        digits_value(d, 0, n, r) >= digits_value(d, 0, k, r) >= 0,
    decreases n - k,
{
    if k < n {
        lemma_digits_grow(d, k, n - 1, r);
        assert(is_radix_digit(d[n - 1], r));
        let v = digits_value(d, 0, n - 1, r);
        let b = radix_base(r);
        assert(v * b >= v) by (nonlinear_arith)
            requires
                v >= 0,
                b >= 1,
        ;
    } else {
        lemma_digits_nonneg(d, n, r);
    }
}

proof fn lemma_digits_nonneg(d: Seq<u8>, n: int, r: Radix)
    requires
        0 <= n <= d.len(),
        forall|j: int| 0 <= j < n ==> is_radix_digit(#[trigger] d[j], r),
    ensures
        digits_value(d, 0, n, r) >= 0,
    decreases n,
{
    if n > 0 {
        lemma_digits_nonneg(d, n - 1, r);
        assert(is_radix_digit(d[n - 1], r));
    }
}

/// Parses an unsigned number in base `r` (an optional `+`, then digits) that is at most
/// `max`.
pub fn parse_unsigned(s: &[u8], r: Radix, max: u32) -> (v: Option<u32>)
    ensures
        v matches Some(x) ==> number_upto(s@, r, max as int) == Some(x as int),
        v is None ==> number_upto(s@, r, max as int) is None,
{
    let start: usize = if s.len() > 0 && s[0] == 43 {
        1
    } else {
        0
    };
    let ghost d = s@.subrange(start as int, s@.len() as int);
    assert(d =~= strip_plus(s@));
    if start >= s.len() {
        return None;
    }
    let base: u64 = match r {
        Radix::Bin => 2,
        Radix::Oct => 8,
        Radix::Dec => 10,
        Radix::Hex => 16,
    };
    let mut value: u64 = 0;
    let mut i = start;
    while i < s.len()
        invariant
            start <= i <= s@.len(),
            start < s@.len(),
            d == s@.subrange(start as int, s@.len() as int),
            d == strip_plus(s@),
            base == radix_base(r),
            forall|j: int| 0 <= j < i - start ==> is_radix_digit(#[trigger] d[j], r),
            value == digits_value(d, 0, i - start, r),
            value <= max,
        decreases s@.len() - i,
    {
        let c = s[i];
        let ok = match r {
            Radix::Bin => c == 48 || c == 49,
            Radix::Oct => 48 <= c && c <= 55,
            Radix::Dec => 48 <= c && c <= 57,
            Radix::Hex => (48 <= c && c <= 57) || (65 <= c && c <= 70) || (97 <= c && c <= 102),
        };
        assert(d[i - start] == c);
        if !ok {
            assert(!is_radix_digit(d[i - start], r));
            return None;
        }
        let dv: u64 = if 48 <= c && c <= 57 {
            (c - 48) as u64
        } else if 65 <= c && c <= 70 {
            (c - 55) as u64
        } else {
            (c - 87) as u64
        };
        assert(dv == digit_value(c));
        let next = value * base + dv;
        assert(digits_value(d, 0, i + 1 - start, r) == value * base + dv);
        if next > max as u64 {
            proof {
                if forall|j: int| 0 <= j < d.len() ==> is_radix_digit(#[trigger] d[j], r) {
                    lemma_digits_grow(d, i + 1 - start, d.len() as int, r);
                }
            }
            return None;
        }
        value = next;
        i = i + 1;
    }
    proof {
        lemma_digits_nonneg(d, d.len() as int, r);
    }
    Some(value as u32)
}

/// End of the line starting at `i`: just past its line feed, or the end of the input.
pub open spec fn line_end_at(b: Seq<u8>, i: int) -> int
    decreases b.len() - i,
{
    if i >= b.len() {
        b.len() as int
    } else if b[i] == 10 {
        i + 1
    } else {
        line_end_at(b, i + 1)
    }
}

/// Length in bytes of the white-space character (Unicode `White_Space`, UTF-8 encoded)
/// starting at `i` within `b[i..j]`; 0 when there is none.
pub open spec fn ws_lead(b: Seq<u8>, i: int, j: int) -> int {
    if !(0 <= i < j <= b.len()) {
        0
    } else if is_blank(b[i]) {
        1
    } else if j - i >= 2 && b[i] == 0xC2 && (b[i + 1] == 0x85 || b[i + 1] == 0xA0) {
        2
    } else if j - i >= 3 && ((b[i] == 0xE1 && b[i + 1] == 0x9A && b[i + 2] == 0x80)
        || (b[i] == 0xE2 && b[i + 1] == 0x80 && ((0x80 <= b[i + 2] && b[i + 2] <= 0x8A) || b[i + 2] == 0xA8
            || b[i + 2] == 0xA9 || b[i + 2] == 0xAF))
        || (b[i] == 0xE2 && b[i + 1] == 0x81 && b[i + 2] == 0x9F)
        || (b[i] == 0xE3 && b[i + 1] == 0x80 && b[i + 2] == 0x80)) {
        3
    } else {
        0
    }
}

/// Length in bytes of the white-space character ending at `j` within `b[i..j]`; 0 when
/// there is none.
pub open spec fn ws_trail(b: Seq<u8>, i: int, j: int) -> int {
    if !(0 <= i < j <= b.len()) {
        0
    } else if is_blank(b[j - 1]) {
        1
    } else if j - i >= 2 && ws_lead(b, j - 2, j) == 2 {
        2
    } else if j - i >= 3 && ws_lead(b, j - 3, j) == 3 {
        3
    } else {
        0
    }
}

/// The text `b[i..j]` without surrounding white space (as `str::trim` removes it).
pub open spec fn trimmed(b: Seq<u8>, i: int, j: int) -> Seq<u8>
    decreases j - i,
{
    if i < j && ws_lead(b, i, j) > 0 {
        trimmed(b, i + ws_lead(b, i, j), j)
    } else if i < j && ws_trail(b, i, j) > 0 {
        trimmed(b, i, j - ws_trail(b, i, j))
    } else {
        b.subrange(i, j)
    }
}

pub(crate) fn ws_lead_exec(b: &[u8], i: usize, j: usize) -> (n: usize)
    requires
        i < j <= b@.len(),
    ensures
        n == ws_lead(b@, i as int, j as int),
{
    let c = b[i];
    if c == 32 || (9 <= c && c <= 13) {
        1
    } else if j - i >= 2 && c == 0xC2 && (b[i + 1] == 0x85 || b[i + 1] == 0xA0) {
        2
    } else if j - i >= 3 && ((c == 0xE1 && b[i + 1] == 0x9A && b[i + 2] == 0x80)
        || (c == 0xE2 && b[i + 1] == 0x80 && ((0x80 <= b[i + 2] && b[i + 2] <= 0x8A) || b[i + 2] == 0xA8
            || b[i + 2] == 0xA9 || b[i + 2] == 0xAF))
        || (c == 0xE2 && b[i + 1] == 0x81 && b[i + 2] == 0x9F)
        || (c == 0xE3 && b[i + 1] == 0x80 && b[i + 2] == 0x80)) {
        3
    } else {
        0
    }
}

pub(crate) fn ws_trail_exec(b: &[u8], i: usize, j: usize) -> (n: usize)
    requires
        i < j <= b@.len(),
    ensures
        n == ws_trail(b@, i as int, j as int),
{
    let c = b[j - 1];
    if c == 32 || (9 <= c && c <= 13) {
        1
    } else if j - i >= 2 && ws_lead_exec(b, j - 2, j) == 2 {
        2
    } else if j - i >= 3 && ws_lead_exec(b, j - 3, j) == 3 {
        3
    } else {
        0
    }
}

/// The hexadecimal digits of a byte line: the text without a leading `0x` or `0X`.
pub open spec fn hex_digits(t: Seq<u8>) -> Seq<u8> {
    if t.len() >= 2 && t[0] == 48 && (t[1] == 120 || t[1] == 88) {
        t.subrange(2, t.len() as int)
    } else {
        t
    }
}

pub proof fn lemma_line_end(b: Seq<u8>, i: int)
    requires
        0 <= i <= b.len(),
    ensures
        i <= line_end_at(b, i) <= b.len(),
        i < b.len() ==> i < line_end_at(b, i),
    decreases b.len() - i,
{
    if i < b.len() && b[i] != 10 {
        lemma_line_end(b, i + 1);
    }
}

fn end_of_input(id: [u8; 8]) -> (e: VmError)
    ensures
        e == VmError::Interrupt(Interrupt::DeviceEndOfInput),
{
    VmError::Interrupt(Interrupt::DeviceEndOfInput)
}

fn device_error(id: [u8; 8], message: &str) -> (e: VmError)
    ensures
        e is DeviceError,
{
    VmError::DeviceError { device: id, offset: 0, message: owned(message) }
}

/// The identifier a port device has unless it is given one: `DECIO`, `HEXIO` or `RAWIN`,
/// padded with zero bytes.
pub open spec fn default_port_id(kind: PortKind) -> [u8; 8] {
    match kind {
        PortKind::Decimal => [68u8, 69u8, 67u8, 73u8, 79u8, 0u8, 0u8, 0u8],
        PortKind::Hex => [72u8, 69u8, 88u8, 73u8, 79u8, 0u8, 0u8, 0u8],
        PortKind::Raw => [82u8, 65u8, 87u8, 73u8, 78u8, 0u8, 0u8, 0u8],
    }
}

/// Device `d` with its read position at `c`.
pub open spec fn at_cursor(d: PortDevice, c: int) -> PortDevice {
    PortDevice { cursor: c as usize, ..d }
}

/// What reading one unit from `d` gives, with the read position after it: a raw byte, a
/// line holding a decimal number up to `max`, or a line holding a hexadecimal byte. At the
/// end of the input (and on an empty hexadecimal line) the end-of-input interrupt is due; a
/// line that holds no such number is a device error, delivered as a bus fault.
pub open spec fn unit_read(d: PortDevice, max: u32) -> (Result<u32, Interrupt>, int) {
    let c = d.cursor as int;
    let inp = d.input@;
    if c >= inp.len() {
        (Err(Interrupt::DeviceEndOfInput), c)
    } else {
        let e = line_end_at(inp, c);
        let t = trimmed(inp, c, e);
        match d.kind {
            PortKind::Raw => (Ok(inp[c] as u32), c + 1),
            PortKind::Decimal => match number_upto(t, Radix::Dec, max as int) {
                Some(v) => (Ok(v as u32), e),
                None => (Err(Interrupt::BusFault), e),
            },
            PortKind::Hex => if t.len() == 0 {
                (Err(Interrupt::DeviceEndOfInput), e)
            } else {
                match number_upto(hex_digits(t), Radix::Hex, 255) {
                    Some(v) => (Ok(v as u32), e),
                    None => (Err(Interrupt::BusFault), e),
                }
            },
        }
    }
}

/// Two reads in a row, the first giving the high part: `low` is what the second read gives
/// from where the first left off.
pub open spec fn joined(first: (Result<u32, Interrupt>, int), low: (Result<u32, Interrupt>, int), scale: int) -> (Result<u32, Interrupt>, int) {
    match first.0 {
        Err(i) => (Err(i), first.1),
        Ok(hi) => match low.0 {
            Err(i) => (Err(i), low.1),
            Ok(lo) => (Ok((hi * scale + lo) as u32), low.1),
        },
    }
}

/// Two byte units, high first.
pub open spec fn half_read(d: PortDevice) -> (Result<u32, Interrupt>, int) {
    joined(unit_read(d, 255), unit_read(at_cursor(d, unit_read(d, 255).1), 255), 256)
}

/// Two half-words, high first.
pub open spec fn word_read(d: PortDevice) -> (Result<u32, Interrupt>, int) {
    joined(half_read(d), half_read(at_cursor(d, half_read(d).1)), 65536)
}

/// What reading `w` bytes (1, 2 or 4) from `d` gives: one decimal line holding a number of
/// that width, or that many byte units for the other kinds.
pub open spec fn device_read(d: PortDevice, w: u8) -> (Result<u32, Interrupt>, int) {
    if w == 1 {
        unit_read(d, 255)
    } else if w == 2 {
        if d.kind == PortKind::Decimal {
            unit_read(d, 0xFFFF)
        } else {
            half_read(d)
        }
    } else if d.kind == PortKind::Decimal {
        unit_read(d, 0xFFFF_FFFF)
    } else {
        word_read(d)
    }
}

impl PortDevice {
    /// The read position lies within the input.
    pub open spec fn wf(&self) -> bool {
        self.cursor <= self.input@.len()
    }

    /// A device of `kind` reading `input`, named `id` or after its kind.
    pub fn new(kind: PortKind, id: Option<[u8; 8]>, input: Vec<u8>) -> (r: Self)
        ensures
            r.wf(),
            r.kind == kind,
            r.id == match id {
                Some(x) => x,
                None => default_port_id(kind),
            },
            r.input@ == input@,
            r.cursor == 0,
            r.output@.len() == 0,
    {
        let default_id: [u8; 8] = match kind {
            PortKind::Decimal => [68u8, 69u8, 67u8, 73u8, 79u8, 0u8, 0u8, 0u8],
            PortKind::Hex => [72u8, 69u8, 88u8, 73u8, 79u8, 0u8, 0u8, 0u8],
            PortKind::Raw => [82u8, 65u8, 87u8, 73u8, 78u8, 0u8, 0u8, 0u8],
        };
        let name = match id {
            Some(x) => x,
            None => default_id,
        };
        PortDevice { kind, id: name, input, cursor: 0, output: Vec::new() }
    }

    /// Takes what was written so far, leaving the output empty.
    pub fn take_output(&mut self) -> (out: Vec<u8>)
        ensures
            out@ == old(self).output@,
            final(self).output@.len() == 0,
            final(self).input == old(self).input,
            final(self).cursor == old(self).cursor,
            final(self).kind == old(self).kind,
            final(self).id == old(self).id,
    {
        let mut out: Vec<u8> = Vec::new();
        std::mem::swap(&mut out, &mut self.output);
        out
    }

    /// The next line of input without its surrounding blanks, or `None` at the end.
    fn next_line(&mut self) -> (r: Option<Vec<u8>>)
        requires
            old(self).wf(),
        ensures
            final(self).wf(),
            final(self).input == old(self).input,
            final(self).output == old(self).output,
            final(self).kind == old(self).kind,
            final(self).id == old(self).id,
            old(self).cursor == old(self).input@.len() ==> r is None && final(self).cursor == old(self).cursor,
            old(self).cursor < old(self).input@.len() ==> (r matches Some(t) && t@ == trimmed(
                old(self).input@,
                old(self).cursor as int,
                line_end_at(old(self).input@, old(self).cursor as int),
            ) && final(self).cursor == line_end_at(old(self).input@, old(self).cursor as int)),
    {
        let n = self.input.len();
        if self.cursor >= n {
            return None;
        }
        let start = self.cursor;
        let mut end = start;
        while end < n && self.input[end] != 10
            invariant
                start <= end <= n,
                n == self.input@.len(),
                start < n,
                line_end_at(self.input@, start as int) == line_end_at(self.input@, end as int),
            decreases n - end,
        {
            end = end + 1;
        }
        if end < n {
            end = end + 1;
        }
        let mut i = start;
        let mut j = end;
        while i < j
            invariant
                start <= i <= j,
                j == end,
                end <= n,
                n == self.input@.len(),
                trimmed(self.input@, start as int, end as int) == trimmed(self.input@, i as int, j as int),
            ensures
                start <= i <= j,
                j == end,
                i == j || ws_lead(self.input@, i as int, j as int) == 0,
                trimmed(self.input@, start as int, end as int) == trimmed(self.input@, i as int, j as int),
            decreases j - i,
        {
            let k = ws_lead_exec(self.input.as_slice(), i, j);
            if k == 0 {
                break;
            }
            i = i + k;
        }
        while i < j
            invariant
                start <= i <= j <= end,
                end <= n,
                n == self.input@.len(),
                i == j || ws_lead(self.input@, i as int, j as int) == 0,
                trimmed(self.input@, start as int, end as int) == trimmed(self.input@, i as int, j as int),
            ensures
                start <= i <= j <= end,
                i == j || (ws_lead(self.input@, i as int, j as int) == 0 && ws_trail(self.input@, i as int, j as int) == 0),
                trimmed(self.input@, start as int, end as int) == trimmed(self.input@, i as int, j as int),
            decreases j - i,
        {
            let k = ws_trail_exec(self.input.as_slice(), i, j);
            if k == 0 {
                break;
            }
            j = j - k;
        }
        let line = crate::bytes::copy_range(self.input.as_slice(), i, j);
        self.cursor = end;
        Some(line)
    }

    /// Reads a line holding a decimal number up to `max`.
    fn read_decimal(&mut self, max: u32) -> (r: VmResult<u32>)
        requires
            old(self).wf(),
        ensures
            final(self).wf(),
            final(self).input == old(self).input,
            final(self).output == old(self).output,
            final(self).kind == old(self).kind,
            final(self).id == old(self).id,
            old(self).cursor == old(self).input@.len() ==> (r matches Err(e) && e == VmError::Interrupt(Interrupt::DeviceEndOfInput)),
            old(self).cursor == old(self).input@.len() ==> final(self).cursor == old(self).cursor,
            old(self).cursor < old(self).input@.len() ==> final(self).cursor == line_end_at(old(self).input@, old(self).cursor as int),
            old(self).cursor < old(self).input@.len() ==> ({
                let t = trimmed(old(self).input@, old(self).cursor as int, line_end_at(old(self).input@, old(self).cursor as int));
                match number_upto(t, Radix::Dec, max as int) {
                    Some(v) => r matches Ok(x) && x == v,
                    None => r matches Err(e) && e is DeviceError,
                }
            }),
    {
        match self.next_line() {
            None => Err(end_of_input(self.id)),
            Some(line) => match parse_unsigned(line.as_slice(), Radix::Dec, max) {
                Some(v) => Ok(v),
                None => Err(device_error(self.id, "expected decimal integer")),
            },
        }
    }

    /// Reads a line holding a hexadecimal byte, with or without a `0x` prefix; an empty
    /// line counts as the end of input.
    fn read_hex(&mut self) -> (r: VmResult<u8>)
        requires
            old(self).wf(),
        ensures
            final(self).wf(),
            final(self).input == old(self).input,
            final(self).output == old(self).output,
            final(self).kind == old(self).kind,
            final(self).id == old(self).id,
            old(self).cursor == old(self).input@.len() ==> (r matches Err(e) && e == VmError::Interrupt(Interrupt::DeviceEndOfInput)),
            old(self).cursor == old(self).input@.len() ==> final(self).cursor == old(self).cursor,
            old(self).cursor < old(self).input@.len() ==> final(self).cursor == line_end_at(old(self).input@, old(self).cursor as int),
            old(self).cursor < old(self).input@.len() ==> ({
                let t = trimmed(old(self).input@, old(self).cursor as int, line_end_at(old(self).input@, old(self).cursor as int));
                if t.len() == 0 {
                    r matches Err(e) && e == VmError::Interrupt(Interrupt::DeviceEndOfInput)
                } else {
                    match number_upto(hex_digits(t), Radix::Hex, 255) {
                        Some(v) => r matches Ok(x) && x == v,
                        None => r matches Err(e) && e is DeviceError,
                    }
                }
            }),
    {
        match self.next_line() {
            None => Err(end_of_input(self.id)),
            Some(line) => {
                if line.len() == 0 {
                    return Err(end_of_input(self.id));
                }
                let digits = if line.len() >= 2 && line[0] == 48 && (line[1] == 120 || line[1] == 88) {
                    vstd::slice::slice_subrange(line.as_slice(), 2, line.len())
                } else {
                    line.as_slice()
                };
                assert(digits@ == hex_digits(line@));
                match parse_unsigned(digits, Radix::Hex, 255) {
                    Some(v) => Ok(v as u8),
                    None => Err(device_error(self.id, "expected hex byte")),
                }
            },
        }
    }

    /// Reads one raw byte.
    fn read_raw(&mut self) -> (r: VmResult<u8>)
        requires
            old(self).wf(),
        ensures
            final(self).wf(),
            final(self).input == old(self).input,
            final(self).output == old(self).output,
            final(self).kind == old(self).kind,
            final(self).id == old(self).id,
            old(self).cursor < old(self).input@.len() ==> (r matches Ok(v) && v == old(self).input@[old(self).cursor as int] && final(self).cursor == old(self).cursor + 1),
            old(self).cursor == old(self).input@.len() ==> (r matches Err(e) && e == VmError::Interrupt(Interrupt::DeviceEndOfInput)
                && final(self).cursor == old(self).cursor),
    {
        if self.cursor < self.input.len() {
            let v = self.input[self.cursor];
            self.cursor = self.cursor + 1;
            Ok(v)
        } else {
            Err(end_of_input(self.id))
        }
    }

    /// Reads a byte from the device.
    pub fn read_byte(&mut self) -> (r: VmResult<u8>)
        requires
            old(self).wf(),
        ensures
            final(self).wf(),
            final(self).output == old(self).output,
            final(self).input == old(self).input,
            r matches Err(e) ==> interrupt_of(e) is Some,
            *final(self) == at_cursor(*old(self), device_read(*old(self), 1).1),
            match device_read(*old(self), 1).0 {
                Ok(x) => r matches Ok(v) && v as u32 == x,
                Err(i) => r matches Err(e) && interrupt_of(e) == Some(i),
            },
    {
        match self.kind {
            PortKind::Decimal => {
                let v = self.read_decimal(255)?;
                Ok(v as u8)
            },
            PortKind::Hex => self.read_hex(),
            PortKind::Raw => self.read_raw(),
        }
    }

    /// Reads a half-word: one decimal line, or two bytes (high first).
    pub fn read_half(&mut self) -> (r: VmResult<u16>)
        requires
            old(self).wf(),
        ensures
            final(self).wf(),
            final(self).output == old(self).output,
            final(self).input == old(self).input,
            r matches Err(e) ==> interrupt_of(e) is Some,
            *final(self) == at_cursor(*old(self), device_read(*old(self), 2).1),
            match device_read(*old(self), 2).0 {
                Ok(x) => r matches Ok(v) && v as u32 == x,
                Err(i) => r matches Err(e) && interrupt_of(e) == Some(i),
            },
    {
        match self.kind {
            PortKind::Decimal => {
                let v = self.read_decimal(0xFFFF)?;
                Ok(v as u16)
            },
            _ => {
                let hi = self.read_byte()?;
                let lo = self.read_byte()?;
                assert((((hi as u16) << 8) | (lo as u16)) as u32 == hi as u32 * 256 + lo as u32) by (bit_vector);
                Ok(((hi as u16) << 8) | (lo as u16))
            },
        }
    }

    /// Reads a word: one decimal line, or two half-words (high first).
    pub fn read_word(&mut self) -> (r: VmResult<u32>)
        requires
            old(self).wf(),
        ensures
            final(self).wf(),
            final(self).output == old(self).output,
            final(self).input == old(self).input,
            r matches Err(e) ==> interrupt_of(e) is Some,
            *final(self) == at_cursor(*old(self), device_read(*old(self), 4).1),
            match device_read(*old(self), 4).0 {
                Ok(x) => r matches Ok(v) && v == x,
                Err(i) => r matches Err(e) && interrupt_of(e) == Some(i),
            },
    {
        match self.kind {
            PortKind::Decimal => self.read_decimal(0xFFFF_FFFF),
            _ => {
                let hi = self.read_half()?;
                let lo = self.read_half()?;
                assert(((hi as u32) << 16) | (lo as u32) == hi as u32 * 65536 + lo as u32) by (bit_vector);
                Ok(((hi as u32) << 16) | (lo as u32))
            },
        }
    }

    /// Appends bytes to the output.
    fn emit(&mut self, bytes: &[u8])
        ensures
            final(self).output@ == old(self).output@ + bytes@,
            final(self).input == old(self).input,
            final(self).cursor == old(self).cursor,
            final(self).kind == old(self).kind,
            final(self).id == old(self).id,
    {
        crate::bytes::push_all(&mut self.output, bytes);
    }

    /// Writes a number as a decimal line.
    fn emit_decimal(&mut self, v: u32)
        ensures
            final(self).output@ == old(self).output@ + decimal_line(v),
            final(self).input == old(self).input,
            final(self).cursor == old(self).cursor,
            final(self).kind == old(self).kind,
            final(self).id == old(self).id,
    {
        push_decimal_bytes(&mut self.output, v);
        self.output.push(10);
        proof {
            assert(self.output@ =~= old(self).output@ + decimal_line(v));
        }
    }

    /// Writes a byte: a decimal line, a `0xHH` line, or the byte itself.
    pub fn write_byte(&mut self, value: u8)
        ensures
            final(self).output@ == old(self).output@ + byte_output(old(self).kind, value),
            final(self).input == old(self).input,
            final(self).cursor == old(self).cursor,
            final(self).kind == old(self).kind,
            final(self).id == old(self).id,
    {
        match self.kind {
            PortKind::Decimal => self.emit_decimal(value as u32),
            PortKind::Hex => {
                let hi = value / 16;
                let lo = value % 16;
                let line = [48u8, 120u8, hex_ascii(hi), hex_ascii(lo), 10u8];
                self.emit(&line);
                proof {
                    assert(line@ =~= hex_line(value));
                }
            },
            PortKind::Raw => {
                self.output.push(value);
                assert(self.output@ =~= old(self).output@ + seq![value]);
            },
        }
    }

    /// Writes a half-word: one decimal line, or its two bytes (high first).
    pub fn write_half(&mut self, value: u16)
        ensures
            final(self).output@ == old(self).output@ + half_output(old(self).kind, value),
            final(self).input == old(self).input,
            final(self).cursor == old(self).cursor,
            final(self).kind == old(self).kind,
            final(self).id == old(self).id,
    {
        match self.kind {
            PortKind::Decimal => self.emit_decimal(value as u32),
            _ => {
                self.write_byte((value >> 8) as u8);
                self.write_byte(value as u8);
                assert(self.output@ =~= old(self).output@ + half_output(old(self).kind, value));
            },
        }
    }

    /// Writes a word: one decimal line, or its two half-words (high first).
    pub fn write_word(&mut self, value: u32)
        ensures
            final(self).output@ == old(self).output@ + word_output(old(self).kind, value),
            final(self).input == old(self).input,
            final(self).cursor == old(self).cursor,
            final(self).kind == old(self).kind,
            final(self).id == old(self).id,
    {
        match self.kind {
            PortKind::Decimal => self.emit_decimal(value),
            _ => {
                self.write_half((value >> 16) as u16);
                self.write_half(value as u16);
                assert(self.output@ =~= old(self).output@ + word_output(old(self).kind, value));
            },
        }
    }

    /// A debug device raises no interrupt of its own.
    pub fn fetch_interrupt(&self) -> (r: Option<Interrupt>)
        ensures
            r is None,
    {
        None
    }
}

/// ASCII code of an upper-case hexadecimal digit.
fn hex_ascii(n: u8) -> (c: u8)
    requires
        n < 16,
    ensures
        c == hex_code(n),
{
    if n < 10 {
        48 + n
    } else {
        55 + n
    }
}

/// ASCII code of the upper-case hexadecimal digit of a nibble.
pub open spec fn hex_code(n: u8) -> u8 {
    if n < 10 {
        (48 + n) as u8
    } else {
        (55 + n) as u8
    }
}

/// A byte as the hexadecimal device writes it: `0x`, two upper-case digits, line feed.
pub open spec fn hex_line(v: u8) -> Seq<u8> {
    seq![48u8, 120u8, hex_code(v / 16), hex_code(v % 16), 10u8]
}

/// The line the hexadecimal device writes for byte `v` is `0x`, two upper-case hexadecimal
/// digits and a line feed, and the device reads that text back as `v`: writing a byte and
/// reading it again gives the byte.
pub proof fn law_hex_line_reads_back(v: u8)
    ensures
        hex_line(v).len() == 5,
        hex_line(v)[0] == 48 && hex_line(v)[1] == 120 && hex_line(v)[4] == 10,
        forall|k: int| 2 <= k < 4 ==> (48 <= #[trigger] hex_line(v)[k] <= 57 || 65 <= hex_line(v)[k] <= 70),
        number_upto(hex_digits(hex_line(v).subrange(0, 4)), Radix::Hex, 255) == Some(v as int),
{
    let l = hex_line(v);
    let d = hex_digits(l.subrange(0, 4));
    assert(d =~= seq![l[2], l[3]]);
    assert(strip_plus(d) == d);
    assert(digit_value(l[2]) == v / 16 && digit_value(l[3]) == v % 16);
    assert(digits_value(d, 0, 0, Radix::Hex) == 0);
    assert(digits_value(d, 0, 1, Radix::Hex) == digit_value(d[0]));
    assert(digits_value(d, 0, 2, Radix::Hex) == digit_value(d[0]) * 16 + digit_value(d[1]));
    assert(forall|i: int| 0 <= i < d.len() ==> is_radix_digit(#[trigger] d[i], Radix::Hex));
}

/// The digits of a number stand for it whatever follows them.
proof fn lemma_digits_prefix(b: Seq<u8>, c: Seq<u8>, e: int, r: Radix)
    requires
        0 <= e <= b.len(),
        e <= c.len(),
        forall|j: int| 0 <= j < e ==> b[j] == c[j],
    ensures
        digits_value(b, 0, e, r) == digits_value(c, 0, e, r),
    decreases e,
{
    if e > 0 {
        lemma_digits_prefix(b, c, e - 1, r);
    }
}

/// The decimal device writes a number as its decimal digits, most significant first, with
/// no leading zero (but `0` itself), and reads those digits back as the number.
pub proof fn law_decimal_digits_read_back(n: nat)
    ensures
        decimal_bytes(n).len() > 0,
        forall|j: int| 0 <= j < decimal_bytes(n).len() ==> 48 <= #[trigger] decimal_bytes(n)[j] <= 57,
        decimal_bytes(n).len() > 1 ==> decimal_bytes(n)[0] != 48,
        digits_value(decimal_bytes(n), 0, decimal_bytes(n).len() as int, Radix::Dec) == n,
        unsigned_text(decimal_bytes(n), Radix::Dec) == Some(n as int),
    decreases n,
{
    let d = decimal_bytes(n);
    if n >= 10 {
        law_decimal_digits_read_back(n / 10);
        let h = decimal_bytes(n / 10);
        assert(d == h.push((48 + (n % 10)) as u8));
        lemma_digits_prefix(d, h, h.len() as int, Radix::Dec);
        assert(d[0] == h[0]);
        if n / 10 < 10 {
            assert(h == seq![(48 + (n / 10)) as u8]);
        } else {
            assert(h == decimal_bytes((n / 10) / 10).push((48 + ((n / 10) % 10)) as u8));
            assert(decimal_bytes((n / 10) / 10).len() > 0) by {
                law_decimal_digits_read_back((n / 10) / 10);
            }
        }
        assert(digits_value(d, 0, d.len() as int, Radix::Dec) == digits_value(d, 0, h.len() as int, Radix::Dec) * 10
            + digit_value(d[h.len() as int]));
        assert(digit_value(d[h.len() as int]) == n % 10);
        assert((n / 10) * 10 + n % 10 == n);
    } else {
        assert(d == seq![(48 + n) as u8]);
        assert(digits_value(d, 0, 0, Radix::Dec) == 0);
        assert(digits_value(d, 0, 1, Radix::Dec) == digit_value(d[0]));
    }
    assert(strip_plus(d) == d);
    assert(forall|i: int| 0 <= i < d.len() ==> is_radix_digit(#[trigger] d[i], Radix::Dec));
}

/// ASCII codes of the decimal digits of `n`.
pub open spec fn decimal_bytes(n: nat) -> Seq<u8>
    decreases n,
{
    if n < 10 {
        seq![(48 + n) as u8]
    } else {
        decimal_bytes(n / 10).push((48 + (n % 10)) as u8)
    }
}

/// A number as the decimal device writes it: its digits and a line feed.
pub open spec fn decimal_line(v: u32) -> Seq<u8> {
    decimal_bytes(v as nat).push(10u8)
}

/// Appends the ASCII digits of `n`.
fn push_decimal_bytes(out: &mut Vec<u8>, n: u32)
    ensures
        final(out)@ == old(out)@ + decimal_bytes(n as nat),
    decreases n,
{
    if n >= 10 {
        push_decimal_bytes(out, n / 10);
    }
    let d: u8 = (n % 10) as u8;
    out.push(48 + d);
    proof {
        if n >= 10 {
            assert(old(out)@ + decimal_bytes(n as nat) =~= old(out)@ + decimal_bytes((n / 10) as nat) + seq![
                (48 + (n % 10)) as u8,
            ]);
        } else {
            assert(old(out)@ + decimal_bytes(n as nat) =~= old(out)@.push((48 + n) as u8));
        }
    }
}

/// What writing a byte produces on a device of `kind`.
pub open spec fn byte_output(kind: PortKind, v: u8) -> Seq<u8> {
    match kind {
        PortKind::Decimal => decimal_line(v as u32),
        PortKind::Hex => hex_line(v),
        PortKind::Raw => seq![v],
    }
}

/// What writing a half-word produces on a device of `kind`.
pub open spec fn half_output(kind: PortKind, v: u16) -> Seq<u8> {
    match kind {
        PortKind::Decimal => decimal_line(v as u32),
        _ => byte_output(kind, (v >> 8) as u8) + byte_output(kind, v as u8),
    }
}

/// What writing a word produces on a device of `kind`.
pub open spec fn word_output(kind: PortKind, v: u32) -> Seq<u8> {
    match kind {
        PortKind::Decimal => decimal_line(v),
        _ => half_output(kind, (v >> 16) as u16) + half_output(kind, v as u16),
    }
}

} // verus!
