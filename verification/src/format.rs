use vstd::prelude::*;
use crate::bytes::{be32, word_at, push_be32, push_all, copy_range, read_word, lemma_be32_roundtrip};
use crate::core_error::FvmError;
use crate::section::Section;
use crate::text::{owned, push_hex2, hex2};

verus! {

/// An object file: the three section payloads, the entry point and the relocation table.
#[derive(Clone, Debug)]
pub struct FvmFormat {
    pub version: u8,
    pub entry_point: u32,
    pub ro_data: Vec<u8>,
    pub code: Vec<u8>,
    pub rw_data: Vec<u8>,
    pub relocations: Vec<(Section, u32)>,
}

/// Mathematical contents of an object file.
pub struct FormatView {
    pub version: u8,
    pub entry_point: u32,
    pub ro_data: Seq<u8>,
    pub code: Seq<u8>,
    pub rw_data: Seq<u8>,
    pub relocations: Seq<(Section, u32)>,
}

impl View for FvmFormat {
    type V = FormatView;

    open spec fn view(&self) -> FormatView {
        FormatView {
            version: self.version,
            entry_point: self.entry_point,
            ro_data: self.ro_data@,
            code: self.code@,
            rw_data: self.rw_data@,
            relocations: self.relocations@,
        }
    }
}

/// The format version this library reads and writes.
pub const FVM_VERSION: u8 = 3;

/// Size of the fixed header: magic, version, entry point, three section lengths and the
/// relocation count.
pub const HEADER_SIZE: usize = 25;

/// The four magic bytes `FVM!`.
pub open spec fn magic() -> Seq<u8> {
    seq![0x46u8, 0x56u8, 0x4Du8, 0x21u8]
}

/// Encoding of a relocation table: per entry its section byte and big-endian offset.
pub open spec fn relocs_bytes(r: Seq<(Section, u32)>) -> Seq<u8>
    decreases r.len(),
{
    if r.len() == 0 {
        seq![]
    } else {
        relocs_bytes(r.drop_last()) + seq![r.last().0.code_of()] + be32(r.last().1)
    }
}

/// The 25-byte header of an object file.
pub open spec fn header_bytes(v: FormatView) -> Seq<u8> {
    magic() + seq![v.version] + be32(v.entry_point) + be32(v.ro_data.len() as u32) + be32(
        v.code.len() as u32,
    ) + be32(v.rw_data.len() as u32) + be32(v.relocations.len() as u32)
}

/// The byte image of an object file: header, the three payloads, then the relocation table.
pub open spec fn encode_format(v: FormatView) -> Seq<u8> {
    header_bytes(v) + v.ro_data + v.code + v.rw_data + relocs_bytes(v.relocations)
}

/// Why a byte image is not a readable object file.
pub enum FormatFault {
    TooShort,
    BadMagic,
    BadVersion(u8),
    SectionSizesOverflow,
    RelocationTableOverflow,
    SizeOverflow,
    Truncated,
    TrailingBytes,
    BadRelocationSection(u8),
}

/// The message carried by the error for a fault.
pub open spec fn fault_message(f: FormatFault) -> Seq<char> {
    match f {
        FormatFault::TooShort => "binary is shorter than the 25-byte header"@,
        FormatFault::BadMagic => "binary has an invalid magic header"@,
        FormatFault::BadVersion(_) => seq![],
        FormatFault::SectionSizesOverflow => "binary section sizes overflow"@,
        FormatFault::RelocationTableOverflow => "relocation table size overflow"@,
        FormatFault::SizeOverflow => "binary size overflow"@,
        FormatFault::Truncated => "binary is truncated"@,
        FormatFault::TrailingBytes => "binary has trailing bytes after the relocation table"@,
        FormatFault::BadRelocationSection(b) => "invalid relocation section byte 0x"@ + hex2(b),
    }
}

/// Whether an error is the one reported for a fault.
pub open spec fn reports(e: FvmError, f: FormatFault) -> bool {
    match f {
        FormatFault::BadVersion(v) => e == FvmError::UnsupportedVersion(v),
        _ => e matches FvmError::InvalidFormat(m) && m@ == fault_message(f),
    }
}

/// The section a relocation byte below 3 stands for.
pub open spec fn section_of(b: u8) -> Section {
    if b == 0 {
        Section::RoData
    } else if b == 1 {
        Section::Code
    } else {
        Section::Data
    }
}

/// The first invalid section byte among relocation entries `i..n` of a table at `p`.
pub open spec fn first_bad_section(b: Seq<u8>, p: int, i: int, n: int) -> Option<u8>
    decreases n - i,
{
    if i >= n {
        None
    } else if b[p + 5 * i] >= 3 {
        Some(b[p + 5 * i])
    } else {
        first_bad_section(b, p, i + 1, n)
    }
}

/// The relocation entries of a table of `n` entries at `p`.
pub open spec fn relocation_entries(b: Seq<u8>, p: int, n: int) -> Seq<(Section, u32)> {
    Seq::new(n as nat, |i: int| (section_of(b[p + 5 * i]), word_at(b, p + 5 * i + 1)))
}

/// What a byte image reads as: the object file whose encoding it is, or the first fault
/// found in header order.
pub open spec fn decode_format(b: Seq<u8>) -> Result<FormatView, FormatFault> {
    if b.len() < 25 {
        Err(FormatFault::TooShort)
    } else if b.subrange(0, 4) != magic() {
        Err(FormatFault::BadMagic)
    } else if b[4] != 3 {
        Err(FormatFault::BadVersion(b[4]))
    } else {
        let ro = word_at(b, 9) as int;
        let code = word_at(b, 13) as int;
        let rw = word_at(b, 17) as int;
        let rc = word_at(b, 21) as int;
        let p = 25 + ro + code + rw;
        if p > usize::MAX {
            Err(FormatFault::SectionSizesOverflow)
        } else if 5 * rc > usize::MAX {
            Err(FormatFault::RelocationTableOverflow)
        } else if p + 5 * rc > usize::MAX {
            Err(FormatFault::SizeOverflow)
        } else if b.len() < p + 5 * rc {
            Err(FormatFault::Truncated)
        } else if b.len() > p + 5 * rc {
            Err(FormatFault::TrailingBytes)
        } else {
            match first_bad_section(b, p, 0, rc) {
                Some(byte) => Err(FormatFault::BadRelocationSection(byte)),
                None => Ok(
                    FormatView {
                        version: b[4],
                        entry_point: word_at(b, 5),
                        ro_data: b.subrange(25, 25 + ro),
                        code: b.subrange(25 + ro, 25 + ro + code),
                        rw_data: b.subrange(25 + ro + code, p),
                        relocations: relocation_entries(b, p, rc),
                    },
                ),
            }
        }
    }
}

fn format_error(message: &str) -> (e: FvmError)
    ensures
        e matches FvmError::InvalidFormat(m) && m@ == message@,
{
    FvmError::InvalidFormat(owned(message))
}

/// The big-endian word at `offset`; an error when the image ends before it.
pub fn read_be_u32(bytes: &[u8], offset: usize) -> (r: Result<u32, FvmError>)
    ensures
        r is Ok <==> offset + 4 <= bytes@.len(),
        r matches Ok(w) ==> w == word_at(bytes@, offset as int),
        r matches Err(e) ==> (e matches FvmError::InvalidFormat(m) && (m@ == (if offset + 4
            > usize::MAX { "binary offset overflow"@ } else {
            "unexpected end of binary while reading u32"@
        }))),
{
    match read_word(bytes, offset) {
        Some(w) => Ok(w),
        None => {
            if offset > usize::MAX - 4 {
                Err(format_error("binary offset overflow"))
            } else {
                Err(format_error("unexpected end of binary while reading u32"))
            }
        },
    }
}

impl FvmFormat {
    /// A current-version object file from its parts.
    pub fn new(
        entry_point: u32,
        ro_data: Vec<u8>,
        code: Vec<u8>,
        rw_data: Vec<u8>,
        relocations: Vec<(Section, u32)>,
    ) -> (r: Self)
        ensures
            r.version == FVM_VERSION,
            r.entry_point == entry_point,
            r.ro_data@ == ro_data@,
            r.code@ == code@,
            r.rw_data@ == rw_data@,
            r.relocations@ == relocations@,
    {
        Self { version: FVM_VERSION, entry_point, ro_data, code, rw_data, relocations }
    }

    /// The byte image of the object file (lengths written as 32-bit words); never fails.
    pub fn to_bytes(&self) -> (r: Result<Vec<u8>, FvmError>)
        ensures
            r matches Ok(b) && b@ == encode_format(self@),
    {
        let mut bytes: Vec<u8> = Vec::new();
        bytes.push(0x46);
        bytes.push(0x56);
        bytes.push(0x4D);
        bytes.push(0x21);
        bytes.push(self.version);
        push_be32(&mut bytes, self.entry_point);
        push_be32(&mut bytes, self.ro_data.len() as u32);
        push_be32(&mut bytes, self.code.len() as u32);
        push_be32(&mut bytes, self.rw_data.len() as u32);
        push_be32(&mut bytes, self.relocations.len() as u32);
        assert(bytes@ =~= header_bytes(self@));
        push_all(&mut bytes, self.ro_data.as_slice());
        push_all(&mut bytes, self.code.as_slice());
        push_all(&mut bytes, self.rw_data.as_slice());
        let ghost before = bytes@;
        let mut i: usize = 0;
        while i < self.relocations.len()
            invariant
                0 <= i <= self.relocations.len(),
                bytes@ == before + relocs_bytes(self.relocations@.subrange(0, i as int)),
            decreases self.relocations.len() - i,
        {
            let (section, offset) = self.relocations[i];
            bytes.push(section.as_byte());
            push_be32(&mut bytes, offset);
            proof {
                let r = self.relocations@.subrange(0, i + 1);
                assert(r.drop_last() =~= self.relocations@.subrange(0, i as int));
            }
            i = i + 1;
        }
        assert(self.relocations@.subrange(0, self.relocations.len() as int)
            =~= self.relocations@);
        Ok(bytes)
    }

    /// Reads an object file; fails with the first fault of the image, checked in header
    /// order (see `decode_format`).
    pub fn from_bytes(bytes: &[u8]) -> (r: Result<Self, FvmError>)
        ensures
            match decode_format(bytes@) {
                Ok(v) => r matches Ok(f) && f@ == v,
                Err(fault) => r matches Err(e) && reports(e, fault),
            },
    {
        if bytes.len() < HEADER_SIZE {
            return Err(format_error("binary is shorter than the 25-byte header"));
        }
        if !(bytes[0] == 0x46 && bytes[1] == 0x56 && bytes[2] == 0x4D && bytes[3] == 0x21) {
            proof {
                if bytes@.subrange(0, 4) == magic() {
                    assert(bytes@.subrange(0, 4)[0] == bytes@[0]);
                    assert(bytes@.subrange(0, 4)[1] == bytes@[1]);
                    assert(bytes@.subrange(0, 4)[2] == bytes@[2]);
                    assert(bytes@.subrange(0, 4)[3] == bytes@[3]);
                }
            }
            return Err(format_error("binary has an invalid magic header"));
        }
        assert(bytes@.subrange(0, 4) =~= magic());
        let version = bytes[4];
        if version != FVM_VERSION {
            return Err(FvmError::UnsupportedVersion(version));
        }
        let entry_point = match read_word(bytes, 5) {
            Some(w) => w,
            None => 0,
        };
        let ro = match read_word(bytes, 9) {
            Some(w) => w,
            None => 0,
        } as usize;
        let code_len = match read_word(bytes, 13) {
            Some(w) => w,
            None => 0,
        } as usize;
        let rw = match read_word(bytes, 17) {
            Some(w) => w,
            None => 0,
        } as usize;
        let rc = match read_word(bytes, 21) {
            Some(w) => w,
            None => 0,
        } as usize;
        let payload_end = match HEADER_SIZE.checked_add(ro) {
            Some(a) => match a.checked_add(code_len) {
                Some(b) => b.checked_add(rw),
                None => None,
            },
            None => None,
        };
        let payload_end = match payload_end {
            Some(p) => p,
            None => {
                return Err(format_error("binary section sizes overflow"));
            },
        };
        let table = match rc.checked_mul(5) {
            Some(t) => t,
            None => {
                return Err(format_error("relocation table size overflow"));
            },
        };
        let reloc_end = match payload_end.checked_add(table) {
            Some(e) => e,
            None => {
                return Err(format_error("binary size overflow"));
            },
        };
        if bytes.len() < reloc_end {
            return Err(format_error("binary is truncated"));
        }
        if bytes.len() != reloc_end {
            return Err(format_error("binary has trailing bytes after the relocation table"));
        }
        let ro_data = copy_range(bytes, HEADER_SIZE, HEADER_SIZE + ro);
        let code = copy_range(bytes, HEADER_SIZE + ro, HEADER_SIZE + ro + code_len);
        let rw_data = copy_range(bytes, HEADER_SIZE + ro + code_len, payload_end);
        let mut relocations: Vec<(Section, u32)> = Vec::new();
        let mut i: usize = 0;
        let ghost b = bytes@;
        let ghost p = payload_end as int;
        let ghost n = rc as int;
        let ghost expected = FormatView {
            version: b[4],
            entry_point: word_at(b, 5),
            ro_data: ro_data@,
            code: code@,
            rw_data: rw_data@,
            relocations: relocation_entries(b, p, n),
        };
        assert(match first_bad_section(b, p, 0, n) {
            Some(x) => decode_format(b) == Err::<FormatView, FormatFault>(
                FormatFault::BadRelocationSection(x),
            ),
            None => decode_format(b) == Ok::<FormatView, FormatFault>(expected),
        });
        while i < rc
            invariant
                0 <= i <= rc,
                b == bytes@,
                p == payload_end,
                n == rc,
                payload_end + 5 * rc == bytes@.len(),
                bytes@.len() <= usize::MAX,
                first_bad_section(b, p, 0, n) == first_bad_section(b, p, i as int, n),
                relocations@ == relocation_entries(b, p, i as int),
                match first_bad_section(b, p, 0, n) {
                    Some(x) => decode_format(b) == Err::<FormatView, FormatFault>(
                        FormatFault::BadRelocationSection(x),
                    ),
                    None => decode_format(b) == Ok::<FormatView, FormatFault>(expected),
                },
            decreases rc - i,
        {
            let at = payload_end + 5 * i;
            let byte = bytes[at];
            match Section::from_byte(byte) {
                None => {
                    assert(first_bad_section(b, p, i as int, n) == Some(byte));
                    let mut message = owned("invalid relocation section byte 0x");
                    push_hex2(&mut message, byte);
                    return Err(FvmError::InvalidFormat(message));
                },
                Some(section) => {
                    let offset = match read_word(bytes, at + 1) {
                        Some(w) => w,
                        None => 0,
                    };
                    relocations.push((section, offset));
                    proof {
                        assert(section == section_of(byte));
                        assert(relocations@ =~= relocation_entries(b, p, i + 1));
                    }
                },
            }
            i = i + 1;
        }
        assert(relocations@ =~= expected.relocations);
        Ok(Self { version, entry_point, ro_data, code, rw_data, relocations })
    }
}

/// Length of an encoded relocation table.
pub proof fn lemma_relocs_bytes_len(r: Seq<(Section, u32)>)
    ensures
        relocs_bytes(r).len() == 5 * r.len(),
    decreases r.len(),
{
    if r.len() > 0 {
        lemma_relocs_bytes_len(r.drop_last());
    }
}

/// Entry `i` of an encoded relocation table holds the entry's section byte and offset.
pub proof fn lemma_relocs_bytes_entry(r: Seq<(Section, u32)>, i: int)
    requires
        0 <= i < r.len(),
    ensures
        relocs_bytes(r).len() == 5 * r.len(),
        relocs_bytes(r)[5 * i] == r[i].0.code_of(),
        word_at(relocs_bytes(r), 5 * i + 1) == r[i].1,
    decreases r.len(),
{
    lemma_relocs_bytes_len(r);
    let last = r.last();
    let prefix = relocs_bytes(r.drop_last());
    lemma_relocs_bytes_len(r.drop_last());
    let e = seq![last.0.code_of()] + be32(last.1);
    assert(relocs_bytes(r) == prefix + e);
    if i < r.len() - 1 {
        lemma_relocs_bytes_entry(r.drop_last(), i);
        assert(r.drop_last()[i] == r[i]);
        assert(relocs_bytes(r)[5 * i] == prefix[5 * i]);
        assert(relocs_bytes(r)[5 * i + 1] == prefix[5 * i + 1]);
        assert(relocs_bytes(r)[5 * i + 2] == prefix[5 * i + 2]);
        assert(relocs_bytes(r)[5 * i + 3] == prefix[5 * i + 3]);
        assert(relocs_bytes(r)[5 * i + 4] == prefix[5 * i + 4]);
    } else {
        lemma_be32_roundtrip(last.1);
        assert(relocs_bytes(r)[5 * i] == e[0]);
        assert(relocs_bytes(r)[5 * i + 1] == e[1]);
        assert(relocs_bytes(r)[5 * i + 2] == e[2]);
        assert(relocs_bytes(r)[5 * i + 3] == e[3]);
        assert(relocs_bytes(r)[5 * i + 4] == e[4]);
    }
}

/// No entry of an encoded table has an invalid section byte.
proof fn lemma_relocs_no_bad(b: Seq<u8>, p: int, r: Seq<(Section, u32)>, i: int)
    requires
        0 <= i <= r.len(),
        0 <= p,
        p + 5 * r.len() == b.len(),
        b.subrange(p, b.len() as int) == relocs_bytes(r),
    ensures
        first_bad_section(b, p, i, r.len() as int) is None,
    decreases r.len() - i,
{
    if i < r.len() {
        lemma_relocs_bytes_entry(r, i);
        assert(b[p + 5 * i] == b.subrange(p, b.len() as int)[5 * i]);
        lemma_relocs_no_bad(b, p, r, i + 1);
    }
}

/// Reading the image of a current-version object file gives that object file back,
/// whenever its sizes fit the 32-bit length fields and the image fits in memory.
pub proof fn law_format_roundtrip(v: FormatView)
    requires
        v.version == FVM_VERSION,
        v.ro_data.len() <= u32::MAX,
        v.code.len() <= u32::MAX,
        v.rw_data.len() <= u32::MAX,
        v.relocations.len() <= u32::MAX,
        encode_format(v).len() <= usize::MAX,
    ensures
        decode_format(encode_format(v)) == Ok::<FormatView, FormatFault>(v),
{
    let h = header_bytes(v);
    let e = encode_format(v);
    let ro = v.ro_data.len() as int;
    let code = v.code.len() as int;
    let rw = v.rw_data.len() as int;
    let rc = v.relocations.len() as int;
    lemma_relocs_bytes_len(v.relocations);
    assert(h.len() == 25);
    let p = 25 + ro + code + rw;
    assert(e.len() == p + 5 * rc);
    assert(e.subrange(0, 4) =~= magic());
    assert(e[4] == v.version);
    lemma_be32_roundtrip(v.entry_point);
    lemma_be32_roundtrip(v.ro_data.len() as u32);
    lemma_be32_roundtrip(v.code.len() as u32);
    lemma_be32_roundtrip(v.rw_data.len() as u32);
    lemma_be32_roundtrip(v.relocations.len() as u32);
    assert(e[5] == h[5] && e[6] == h[6] && e[7] == h[7] && e[8] == h[8]);
    assert(word_at(e, 5) == v.entry_point);
    assert(e[9] == h[9] && e[10] == h[10] && e[11] == h[11] && e[12] == h[12]);
    assert(word_at(e, 9) == ro);
    assert(e[13] == h[13] && e[14] == h[14] && e[15] == h[15] && e[16] == h[16]);
    assert(word_at(e, 13) == code);
    assert(e[17] == h[17] && e[18] == h[18] && e[19] == h[19] && e[20] == h[20]);
    assert(word_at(e, 17) == rw);
    assert(e[21] == h[21] && e[22] == h[22] && e[23] == h[23] && e[24] == h[24]);
    assert(word_at(e, 21) == rc);
    assert(e.subrange(25, 25 + ro) =~= v.ro_data);
    assert(e.subrange(25 + ro, 25 + ro + code) =~= v.code);
    assert(e.subrange(25 + ro + code, p) =~= v.rw_data);
    assert(e.subrange(p, e.len() as int) =~= relocs_bytes(v.relocations));
    lemma_relocs_no_bad(e, p, v.relocations, 0);
    assert forall|i: int| 0 <= i < rc implies #[trigger] relocation_entries(e, p, rc)[i]
        == v.relocations[i] by {
        lemma_relocs_bytes_entry(v.relocations, i);
        let t = e.subrange(p, e.len() as int);
        assert(e[p + 5 * i] == t[5 * i]);
        assert(e[p + 5 * i + 1] == t[5 * i + 1]);
        assert(e[p + 5 * i + 2] == t[5 * i + 2]);
        assert(e[p + 5 * i + 3] == t[5 * i + 3]);
        assert(e[p + 5 * i + 4] == t[5 * i + 4]);
        law_section_code(v.relocations[i].0);
    }
    assert(relocation_entries(e, p, rc) =~= v.relocations);
}

proof fn law_section_code(s: Section)
    ensures
        section_of(s.code_of()) == s,
        s.code_of() < 3,
{
}

} // verus!
