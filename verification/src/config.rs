//! Machine configuration: main memory size, the ROM image, and extra devices.
use vstd::prelude::*;
use vstd::string::StringSliceAdditionalSpecFns;
use crate::lexer::Radix;
use crate::ports::{unsigned_text, trimmed, parse_unsigned, ws_lead_exec, ws_trail_exec};
use crate::text::owned;

verus! {

/// Settings shared by every kind of device.
#[derive(Debug, Clone)]
pub struct GeneralDeviceConfig {
    /// An 8-byte identifier replacing the device's own.
    pub id: Option<[u8; 8]>,
    /// Whether the machine must fail to start when the device does not fit the address
    /// space.
    pub fail_fast: bool,
}

impl Default for GeneralDeviceConfig {
    fn default() -> (r: Self)
        ensures
            r.id is None,
            !r.fail_fast,
    {
        GeneralDeviceConfig { id: None, fail_fast: false }
    }
}

/// An extra device: a second RAM, or a port device reading from `input` and writing to
/// `output` (file names, or `stdin`/`stdout`/`stderr`).
#[derive(Debug, Clone)]
pub enum DeviceConfig {
    Ram { size: u32, general: GeneralDeviceConfig },
    DecimalIo { port: u32, input: String, output: String, general: GeneralDeviceConfig },
    HexIo { port: u32, input: String, output: String, general: GeneralDeviceConfig },
    RawIo { port: u32, input: String, output: String, general: GeneralDeviceConfig },
}

/// The machine's configuration: main memory size in bytes, the ROM image's file name and
/// the extra devices.
#[derive(Debug, Clone)]
pub struct VmConfig {
    pub mem_size: u32,
    pub rom: String,
    pub devices: Vec<DeviceConfig>,
}

/// ASCII letters.
pub open spec fn is_letter(c: u8) -> bool {
    (65 <= c <= 90) || (97 <= c <= 122)
}

/// ASCII letters in lower case.
pub open spec fn lower(c: u8) -> u8 {
    if 65 <= c <= 90 {
        (c + 32) as u8
    } else {
        c
    }
}

/// Index of the first letter of `t` at or after `i` (its length when none).
pub open spec fn first_letter(t: Seq<u8>, i: int) -> int
    decreases t.len() - i,
{
    if i >= t.len() {
        t.len() as int
    } else if is_letter(t[i]) {
        i
    } else {
        first_letter(t, i + 1)
    }
}

/// Multiplier of a size suffix (in lower case), if it is one: none or `b`/`byte`/`bytes`,
/// `k`/`kb`, `m`/`mb`, `g`/`gb`, `t`/`tb`.
pub open spec fn suffix_multiplier(s: Seq<u8>) -> Option<int> {
    if s.len() == 0 || s == seq![98u8] || s == seq![98u8, 121u8, 116u8, 101u8] || s == seq![98u8, 121u8, 116u8, 101u8, 115u8] {
        Some(1int)
    } else if s == seq![107u8, 98u8] || s == seq![107u8] {
        Some(1024int)
    } else if s == seq![109u8, 98u8] || s == seq![109u8] {
        Some(1048576int)
    } else if s == seq![103u8, 98u8] || s == seq![103u8] {
        Some(1073741824int)
    } else if s == seq![116u8, 98u8] || s == seq![116u8] {
        Some(1099511627776int)
    } else {
        None
    }
}

/// The byte count a size text denotes: surrounding blanks dropped, letters read in lower
/// case, a number (an optional `+` and decimal digits, blanks around it allowed) and then a
/// suffix starting at the first letter; it must fit 32 bits.
pub open spec fn size_value(s: Seq<u8>) -> Option<int> {
    let t = trimmed(s, 0, s.len() as int).map_values(|c: u8| lower(c));
    let p = first_letter(t, 0);
    let num = trimmed(t, 0, p);
    let suf = trimmed(t, p, t.len() as int);
    match (unsigned_text(num, Radix::Dec), suffix_multiplier(suf)) {
        (Some(b), Some(m)) => if b * m <= u32::MAX {
            Some(b * m)
        } else {
            None
        },
        _ => None,
    }
}

fn trim_range(b: &[u8], i: usize, j: usize) -> (r: (usize, usize))
    requires
        i <= j <= b@.len(),
    ensures
        i <= r.0 <= r.1 <= j,
        b@.subrange(r.0 as int, r.1 as int) == trimmed(b@, i as int, j as int),
    decreases j - i,
{
    if i < j {
        let k = ws_lead_exec(b, i, j);
        if k > 0 {
            return trim_range(b, i + k, j);
        }
        let t = ws_trail_exec(b, i, j);
        if t > 0 {
            return trim_range(b, i, j - t);
        }
    }
    (i, j)
}

fn lower_all(b: &[u8]) -> (r: Vec<u8>)
    ensures
        r@ == b@.map_values(|c: u8| lower(c)),
{
    let mut out: Vec<u8> = Vec::new();
    let mut i: usize = 0;
    while i < b.len()
        invariant
            0 <= i <= b@.len(),
            out@ == b@.subrange(0, i as int).map_values(|c: u8| lower(c)),
        decreases b@.len() - i,
    {
        let c = b[i];
        let l = if 65 <= c && c <= 90 {
            c + 32
        } else {
            c
        };
        out.push(l);
        i = i + 1;
        assert(out@ =~= b@.subrange(0, i as int).map_values(|c: u8| lower(c)));
    }
    assert(b@.subrange(0, b@.len() as int) =~= b@);
    out
}

fn first_letter_exec(t: &[u8]) -> (p: usize)
    ensures
        p == first_letter(t@, 0),
        p <= t@.len(),
{
    let mut i: usize = 0;
    while i < t.len() && !((65 <= t[i] && t[i] <= 90) || (97 <= t[i] && t[i] <= 122))
        invariant
            0 <= i <= t@.len(),
            first_letter(t@, 0) == first_letter(t@, i as int),
        decreases t@.len() - i,
    {
        i = i + 1;
    }
    i
}

fn slice_is(b: &[u8], lit: &[u8]) -> (r: bool)
    ensures
        r == (b@ == lit@),
{
    if b.len() != lit.len() {
        return false;
    }
    let mut i: usize = 0;
    while i < b.len()
        invariant
            0 <= i <= b@.len(),
            b@.len() == lit@.len(),
            forall|k: int| 0 <= k < i ==> b@[k] == lit@[k],
        decreases b@.len() - i,
    {
        if b[i] != lit[i] {
            return false;
        }
        i = i + 1;
    }
    assert(b@ =~= lit@);
    true
}

fn multiplier(s: &[u8]) -> (r: Option<u64>)
    ensures
        r matches Some(m) ==> suffix_multiplier(s@) == Some(m as int),
        r is None ==> suffix_multiplier(s@) is None,
{
    let b: [u8; 1] = [98];
    let byte: [u8; 4] = [98, 121, 116, 101];
    let bytes: [u8; 5] = [98, 121, 116, 101, 115];
    let kb: [u8; 2] = [107, 98];
    let k: [u8; 1] = [107];
    let mb: [u8; 2] = [109, 98];
    let m: [u8; 1] = [109];
    let gb: [u8; 2] = [103, 98];
    let g: [u8; 1] = [103];
    let tb: [u8; 2] = [116, 98];
    let t: [u8; 1] = [116];
    proof {
        assert(b@ =~= seq![98u8]);
        assert(byte@ =~= seq![98u8, 121u8, 116u8, 101u8]);
        assert(bytes@ =~= seq![98u8, 121u8, 116u8, 101u8, 115u8]);
        assert(kb@ =~= seq![107u8, 98u8]);
        assert(k@ =~= seq![107u8]);
        assert(mb@ =~= seq![109u8, 98u8]);
        assert(m@ =~= seq![109u8]);
        assert(gb@ =~= seq![103u8, 98u8]);
        assert(g@ =~= seq![103u8]);
        assert(tb@ =~= seq![116u8, 98u8]);
        assert(t@ =~= seq![116u8]);
    }
    if s.len() == 0 || slice_is(s, &b) || slice_is(s, &byte) || slice_is(s, &bytes) {
        Some(1u64)
    } else if slice_is(s, &kb) || slice_is(s, &k) {
        Some(1024u64)
    } else if slice_is(s, &mb) || slice_is(s, &m) {
        Some(1048576u64)
    } else if slice_is(s, &gb) || slice_is(s, &g) {
        Some(1073741824u64)
    } else if slice_is(s, &tb) || slice_is(s, &t) {
        Some(1099511627776u64)
    } else {
        None
    }
}

/// A memory size given as a plain number: it must fit 32 bits.
pub fn memory_size_from_u64(value: u64) -> (r: Result<u32, String>)
    ensures
        r is Ok <==> value <= u32::MAX,
        r matches Ok(v) ==> v == value,
{
    if value > 0xFFFF_FFFFu64 {
        Err(owned("memory size too large for u32"))
    } else {
        Ok(value as u32)
    }
}

/// Reads a memory size such as `128mb`, `2 GB`, `512kb` or a plain byte count. Succeeds
/// exactly when the text denotes a byte count that fits 32 bits.
pub fn parse_human_readable_size(input: &str) -> (r: Result<u32, String>)
    ensures
        r is Ok <==> size_value(input.spec_bytes()) is Some,
        r matches Ok(v) ==> size_value(input.spec_bytes()) == Some(v as int),
{
    let raw = input.as_bytes();
    let (a, b) = trim_range(raw, 0, raw.len());
    let t = lower_all(vstd::slice::slice_subrange(raw, a, b));
    let p = first_letter_exec(t.as_slice());
    let (na, nb) = trim_range(t.as_slice(), 0, p);
    let (sa, sb) = trim_range(t.as_slice(), p, t.len());
    let num = vstd::slice::slice_subrange(t.as_slice(), na, nb);
    let suf = vstd::slice::slice_subrange(t.as_slice(), sa, sb);
    let base = parse_unsigned(num, Radix::Dec, 0xFFFF_FFFF);
    let mult = multiplier(suf);
    match mult {
        None => Err(owned("unknown size suffix")),
        Some(m) => match base {
            Some(bv) => {
                if bv as u64 > 0xFFFF_FFFFu64 / m {
                    proof {
                        let q = 0xFFFF_FFFFu64 / m;
                        assert(bv * m > u32::MAX) by (nonlinear_arith)
                            requires
                                bv > q,
                                q == 0xFFFF_FFFFu64 / m,
                                m >= 1,
                        ;
                    }
                    Err(owned("memory size too large (max 4GB)"))
                } else {
                    proof {
                        let q = 0xFFFF_FFFFu64 / m;
                        assert(bv * m <= u32::MAX) by (nonlinear_arith)
                            requires
                                bv <= q,
                                q == 0xFFFF_FFFFu64 / m,
                                m >= 1,
                        ;
                    }
                    Ok((bv as u64 * m) as u32)
                }
            },
            None => {
                if decimal_number(num) {
                    proof {
                        let b = unsigned_text(num@, Radix::Dec)->0;
                        assert(b > u32::MAX);
                        assert(b * m > u32::MAX) by (nonlinear_arith)
                            requires
                                b > u32::MAX,
                                m >= 1,
                        ;
                    }
                    Err(owned("memory size too large (max 4GB)"))
                } else {
                    Err(owned("invalid number"))
                }
            },
        },
    }
}

/// Whether the text is an optional `+` followed by decimal digits.
fn decimal_number(s: &[u8]) -> (r: bool)
    ensures
        r == unsigned_text(s@, Radix::Dec) is Some,
{
    let start: usize = if s.len() > 0 && s[0] == 43 {
        1
    } else {
        0
    };
    let ghost d = s@.subrange(start as int, s@.len() as int);
    assert(d =~= crate::parser::strip_plus(s@));
    if start >= s.len() {
        return false;
    }
    let mut i = start;
    while i < s.len()
        invariant
            start <= i <= s@.len(),
            d == s@.subrange(start as int, s@.len() as int),
            d == crate::parser::strip_plus(s@),
            forall|j: int| 0 <= j < i - start ==> crate::lexer::is_radix_digit(#[trigger] d[j], Radix::Dec),
        decreases s@.len() - i,
    {
        if !(48 <= s[i] && s[i] <= 57) {
            assert(!crate::lexer::is_radix_digit(d[i - start], Radix::Dec));
            return false;
        }
        i = i + 1;
    }
    true
}

} // verus!
