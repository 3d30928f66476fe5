//! Placing a program's sections in the address space and rebasing the addresses it holds.
//!
//! The assembler lays the three sections out back to back from address 0. The loader puts
//! each non-empty section on its own pages after the reserved area, in section order, and
//! rewrites every relocated word and the entry point to the new addresses.
use vstd::prelude::*;
use crate::bytes::{word_at, read_word};
use crate::format::{FvmFormat, decode_format, reports};
use crate::section::Section;
use crate::text::owned;
use crate::vm_types::{VmError, VmResult, STACK_BASE};

verus! {

/// Where a section was assumed to start when it was assembled, and where it is placed:
/// its virtual and physical bases, its length and its length rounded up to whole pages.
#[derive(Clone, Copy, Debug)]
pub struct SectionPlacement {
    pub assumed_base: u32,
    pub actual_base: u32,
    pub phys_base: u32,
    pub len: u32,
    pub aligned_len: u32,
}

/// A program ready to be copied into memory: the rebased entry point, the patched section
/// payloads and the placement of each section (`None` for an empty one), in section
/// order.
#[derive(Debug)]
pub struct PatchedProgram {
    pub entry_point: u32,
    pub ro_data: Vec<u8>,
    pub code: Vec<u8>,
    pub rw_data: Vec<u8>,
    pub sections: [Option<SectionPlacement>; 3],
}

/// Why a program cannot be placed.
pub enum LoadFault {
    /// An address computation passes the end of the 32-bit space.
    Overflow,
    /// A section would reach into the stack's virtual region.
    StackOverlap,
    /// A section would not fit below the stack's physical backing.
    PhysicalSpace,
    /// A relocation slot does not lie inside its section.
    SlotOutOfBounds,
    /// An address lies in no section.
    NoSection,
}

/// The error a fault is reported as.
pub open spec fn fault_error(f: LoadFault, e: VmError) -> bool {
    match f {
        LoadFault::Overflow => e is AddressOverflow,
        LoadFault::StackOverlap => e is Layout,
        LoadFault::PhysicalSpace => e is Layout,
        LoadFault::SlotOutOfBounds => e is InvalidRomImage,
        LoadFault::NoSection => e is InvalidRomImage,
    }
}

/// `v` rounded up to a whole number of 4 KiB pages, when that fits 32 bits.
pub open spec fn page_aligned(v: int) -> Option<int> {
    if v == 0 {
        Some(0)
    } else if v + 4095 > u32::MAX {
        None
    } else {
        Some((v + 4095) / 4096 * 4096)
    }
}

/// Placement of a section of `len` bytes assembled at `assumed`, with the virtual and
/// physical cursors at `actual` and `phys`: an empty section takes no room; another starts
/// at both cursors rounded up to a page, takes whole pages, must end at or below the stack's
/// virtual base and at or below `max_end` physically. Gives the placement and the cursors
/// after it.
pub open spec fn place(len: u32, assumed: u32, actual: int, phys: int, max_end: int) -> Result<(Option<SectionPlacement>, int, int), LoadFault> {
    if len == 0 {
        Ok((None, actual, phys))
    } else {
        match (page_aligned(actual), page_aligned(phys), page_aligned(len as int)) {
            (Some(a), Some(p), Some(al)) => {
                if p + al > u32::MAX || a + al > u32::MAX {
                    Err(LoadFault::Overflow)
                } else if a + al > STACK_BASE {
                    Err(LoadFault::StackOverlap)
                } else if p + al > max_end {
                    Err(LoadFault::PhysicalSpace)
                } else {
                    Ok((Some(SectionPlacement {
                        assumed_base: assumed,
                        actual_base: a as u32,
                        phys_base: p as u32,
                        len,
                        aligned_len: al as u32,
                    }), a + al, p + al))
                }
            },
            _ => Err(LoadFault::Overflow),
        }
    }
}

/// Placements of sections of lengths `l0`, `l1`, `l2` (assembled back to back from 0),
/// both cursors starting at `reserved`.
pub open spec fn layouts(l0: u32, l1: u32, l2: u32, reserved: u32, max_end: u32) -> Result<Seq<Option<SectionPlacement>>, LoadFault> {
    if l0 + l1 > u32::MAX {
        Err(LoadFault::Overflow)
    } else {
        match place(l0, 0, reserved as int, reserved as int, max_end as int) {
            Err(f) => Err(f),
            Ok((p0, a0, q0)) => match place(l1, l0, a0, q0, max_end as int) {
                Err(f) => Err(f),
                Ok((p1, a1, q1)) => match place(l2, (l0 + l1) as u32, a1, q1, max_end as int) {
                    Err(f) => Err(f),
                    Ok((p2, _a2, _q2)) => Ok(seq![p0, p1, p2]),
                },
            },
        }
    }
}

/// The section whose assumed range holds `addr`, trying sections from `i` on in order.
pub open spec fn section_from(lay: Seq<Option<SectionPlacement>>, addr: u32, i: int) -> Result<int, LoadFault>
    decreases 3 - i,
{
    if i < 0 || i >= 3 {
        Err(LoadFault::NoSection)
    } else {
        match lay[i] {
            None => section_from(lay, addr, i + 1),
            Some(p) => if p.assumed_base + p.len > u32::MAX {
                Err(LoadFault::Overflow)
            } else if p.assumed_base <= addr < p.assumed_base + p.len {
                Ok(i)
            } else {
                section_from(lay, addr, i + 1)
            },
        }
    }
}

/// `addr` moved from the section's assumed base to its actual base.
pub open spec fn rebased(addr: u32, p: SectionPlacement) -> Option<u32> {
    if p.actual_base + (addr - p.assumed_base) > u32::MAX {
        None
    } else {
        Some((p.actual_base + (addr - p.assumed_base)) as u32)
    }
}

/// The address `addr` stands for once the sections are placed.
pub open spec fn relocated(lay: Seq<Option<SectionPlacement>>, addr: u32) -> Result<u32, LoadFault> {
    match section_from(lay, addr, 0) {
        Err(f) => Err(f),
        Ok(i) => match rebased(addr, lay[i]->0) {
            None => Err(LoadFault::Overflow),
            Some(v) => Ok(v),
        },
    }
}

/// `b` with the big-endian bytes of `v` written at `at`.
pub open spec fn with_word(b: Seq<u8>, at: int, v: u32) -> Seq<u8> {
    b.update(at, (v >> 24) as u8).update(at + 1, (v >> 16) as u8).update(at + 2, (v >> 8) as u8).update(
        at + 3,
        v as u8,
    )
}

/// Section bytes `b` with the address word at `offset` relocated.
pub open spec fn patch_slot(b: Seq<u8>, offset: u32, lay: Seq<Option<SectionPlacement>>) -> Result<Seq<u8>, LoadFault> {
    if offset + 4 > b.len() {
        Err(LoadFault::SlotOutOfBounds)
    } else {
        match relocated(lay, word_at(b, offset as int)) {
            Err(f) => Err(f),
            Ok(v) => Ok(with_word(b, offset as int, v)),
        }
    }
}

/// The section payloads (in section order) after applying the relocations one by one.
pub open spec fn patch_all(secs: Seq<Seq<u8>>, relocs: Seq<(Section, u32)>, lay: Seq<Option<SectionPlacement>>) -> Result<Seq<Seq<u8>>, LoadFault>
    decreases relocs.len(),
{
    if relocs.len() == 0 {
        Ok(secs)
    } else {
        match patch_all(secs, relocs.drop_last(), lay) {
            Err(f) => Err(f),
            Ok(s) => {
                let (sec, off) = relocs.last();
                let i = sec.code_of() as int;
                match patch_slot(s[i], off, lay) {
                    Err(f) => Err(f),
                    Ok(nb) => Ok(s.update(i, nb)),
                }
            },
        }
    }
}

/// What becomes of an object file placed after `reserved` bytes with sections ending at or
/// below `max_end` physically: the placements, the patched payloads and the entry point.
pub open spec fn patched_program(
    ro: Seq<u8>,
    code: Seq<u8>,
    rw: Seq<u8>,
    relocs: Seq<(Section, u32)>,
    entry: u32,
    reserved: u32,
    max_end: u32,
) -> Result<(Seq<Option<SectionPlacement>>, Seq<Seq<u8>>, u32), LoadFault> {
    match layouts(ro.len() as u32, code.len() as u32, rw.len() as u32, reserved, max_end) {
        Err(f) => Err(f),
        Ok(lay) => match patch_all(seq![ro, code, rw], relocs, lay) {
            Err(f) => Err(f),
            Ok(secs) => match relocated(lay, entry) {
                Err(f) => Err(f),
                Ok(e) => Ok((lay, secs, e)),
            },
        },
    }
}

fn overflow<T>() -> (r: VmResult<T>)
    ensures
        r matches Err(e) && e is AddressOverflow,
{
    Err(VmError::AddressOverflow)
}

/// `value` rounded up to a whole number of pages.
fn align_up(value: u32) -> (r: VmResult<u32>)
    ensures
        match page_aligned(value as int) {
            Some(v) => r matches Ok(x) && x == v,
            None => r matches Err(e) && e is AddressOverflow,
        },
{
    if value == 0 {
        return Ok(0);
    }
    if value > 0xFFFF_FFFF - 4095 {
        return overflow();
    }
    Ok((value + 4095) / 4096 * 4096)
}

/// Places one section (see `place`).
fn place_section(len: u32, assumed: u32, actual: u32, phys: u32, max_end: u32) -> (r: VmResult<(Option<SectionPlacement>, u32, u32)>)
    ensures
        match place(len, assumed, actual as int, phys as int, max_end as int) {
            Ok((p, a, q)) => r matches Ok(x) && x.0 == p && x.1 == a && x.2 == q,
            Err(f) => r matches Err(e) && fault_error(f, e),
        },
{
    if len == 0 {
        return Ok((None, actual, phys));
    }
    let a = align_up(actual)?;
    let p = align_up(phys)?;
    let al = align_up(len)?;
    if p as u64 + al as u64 > 0xFFFF_FFFFu64 || a as u64 + al as u64 > 0xFFFF_FFFFu64 {
        return overflow();
    }
    let phys_end = p + al;
    let actual_end = a + al;
    if actual_end > STACK_BASE {
        return Err(VmError::Layout(owned("loaded sections overlap the fixed stack virtual region")));
    }
    if phys_end > max_end {
        return Err(VmError::Layout(owned("loaded sections do not fit below the reserved 4 MiB stack backing region")));
    }
    Ok((Some(SectionPlacement { assumed_base: assumed, actual_base: a, phys_base: p, len, aligned_len: al }), actual_end, phys_end))
}

/// Places sections of the given lengths after `reserved` bytes (see `layouts`).
pub fn compute_section_layouts(lengths: [u32; 3], reserved: u32, max_end: u32) -> (r: VmResult<[Option<SectionPlacement>; 3]>)
    ensures
        match layouts(lengths[0], lengths[1], lengths[2], reserved, max_end) {
            Ok(lay) => r matches Ok(x) && x@ == lay,
            Err(f) => r matches Err(e) && fault_error(f, e),
        },
{
    if lengths[0] as u64 + lengths[1] as u64 > 0xFFFF_FFFFu64 {
        return overflow();
    }
    let (p0, a0, q0) = place_section(lengths[0], 0, reserved, reserved, max_end)?;
    let (p1, a1, q1) = place_section(lengths[1], lengths[0], a0, q0, max_end)?;
    let (p2, _a2, _q2) = place_section(lengths[2], lengths[0] + lengths[1], a1, q1, max_end)?;
    let out = [p0, p1, p2];
    assert(out@ =~= seq![p0, p1, p2]);
    Ok(out)
}

/// The section (by index) whose assumed range holds `address`.
fn infer_target_section(address: u32, layouts: &[Option<SectionPlacement>; 3]) -> (r: VmResult<usize>)
    ensures
        match section_from(layouts@, address, 0) {
            Ok(i) => r matches Ok(x) && x == i,
            Err(f) => r matches Err(e) && fault_error(f, e),
        },
{
    let mut i: usize = 0;
    while i < 3
        invariant
            0 <= i <= 3,
            section_from(layouts@, address, 0) == section_from(layouts@, address, i as int),
        decreases 3 - i,
    {
        match layouts[i] {
            Some(p) => {
                if p.assumed_base as u64 + p.len as u64 > 0xFFFF_FFFFu64 {
                    return overflow();
                }
                if p.assumed_base <= address && address < p.assumed_base + p.len {
                    return Ok(i);
                }
            },
            None => {},
        }
        i = i + 1;
    }
    Err(VmError::InvalidRomImage(owned("address does not fall within any assumed section range")))
}

pub proof fn lemma_section_found(lay: Seq<Option<SectionPlacement>>, addr: u32, i: int)
    requires
        0 <= i,
        lay.len() == 3,
    ensures
        section_from(lay, addr, i) matches Ok(k) ==> 0 <= k < 3 && lay[k] is Some
            && lay[k]->0.assumed_base <= addr,
    decreases 3 - i,
{
    if i < 3 {
        lemma_section_found(lay, addr, i + 1);
    }
}

/// `address` moved into the placed section holding it.
fn relocate(address: u32, layouts: &[Option<SectionPlacement>; 3]) -> (r: VmResult<u32>)
    ensures
        match relocated(layouts@, address) {
            Ok(v) => r matches Ok(x) && x == v,
            Err(f) => r matches Err(e) && fault_error(f, e),
        },
{
    let i = infer_target_section(address, layouts)?;
    proof {
        lemma_section_found(layouts@, address, 0);
    }
    let p = match layouts[i] {
        Some(p) => p,
        None => {
            return Err(VmError::InvalidRomImage(owned("relocation references an empty section")));
        },
    };
    let relative = address - p.assumed_base;
    if p.actual_base as u64 + relative as u64 > 0xFFFF_FFFFu64 {
        return overflow();
    }
    Ok(p.actual_base + relative)
}

/// Relocates the word at `offset` of a section's bytes.
fn patch_slot_in(bytes: &mut Vec<u8>, offset: u32, layouts: &[Option<SectionPlacement>; 3]) -> (r: VmResult<()>)
    ensures
        match patch_slot(old(bytes)@, offset, layouts@) {
            Ok(nb) => r is Ok && final(bytes)@ == nb,
            Err(f) => r matches Err(e) && fault_error(f, e),
        },
{
    let at = offset as usize;
    let value = match read_word(bytes.as_slice(), at) {
        Some(v) => v,
        None => {
            return Err(VmError::InvalidRomImage(owned("relocation slot is out of bounds")));
        },
    };
    assert(at + 4 <= bytes@.len());
    let patched = relocate(value, layouts)?;
    bytes.set(at, (patched >> 24) as u8);
    bytes.set(at + 1, (patched >> 16) as u8);
    bytes.set(at + 2, (patched >> 8) as u8);
    bytes.set(at + 3, patched as u8);
    Ok(())
}

proof fn lemma_patch_error_stays(
    secs: Seq<Seq<u8>>,
    relocs: Seq<(Section, u32)>,
    lay: Seq<Option<SectionPlacement>>,
    n: int,
    m: int,
)
    requires
        0 <= n <= m <= relocs.len(),
        patch_all(secs, relocs.subrange(0, n), lay) is Err,
    ensures
        patch_all(secs, relocs.subrange(0, m), lay) == patch_all(secs, relocs.subrange(0, n), lay),
    decreases m,
{
    if m > n {
        lemma_patch_error_stays(secs, relocs, lay, n, m - 1);
        assert(relocs.subrange(0, m).drop_last() =~= relocs.subrange(0, m - 1));
    }
}

/// Applies every relocation in order to the three section payloads.
fn patch_relocations(
    ro: &mut Vec<u8>,
    code: &mut Vec<u8>,
    rw: &mut Vec<u8>,
    relocations: &Vec<(Section, u32)>,
    layouts: &[Option<SectionPlacement>; 3],
) -> (r: VmResult<()>)
    ensures
        match patch_all(seq![old(ro)@, old(code)@, old(rw)@], relocations@, layouts@) {
            Ok(s) => r is Ok && final(ro)@ == s[0] && final(code)@ == s[1] && final(rw)@ == s[2],
            Err(f) => r matches Err(e) && fault_error(f, e),
        },
{
    let ghost start = seq![ro@, code@, rw@];
    let mut k: usize = 0;
    while k < relocations.len()
        invariant
            0 <= k <= relocations@.len(),
            start == seq![old(ro)@, old(code)@, old(rw)@],
            patch_all(start, relocations@.subrange(0, k as int), layouts@) == Ok::<Seq<Seq<u8>>, LoadFault>(seq![ro@, code@, rw@]),
        decreases relocations@.len() - k,
    {
        let ghost before = seq![ro@, code@, rw@];
        let (sec, off) = relocations[k];
        let ghost pre = relocations@.subrange(0, k as int + 1);
        assert(pre.drop_last() =~= relocations@.subrange(0, k as int));
        assert(pre.last() == relocations@[k as int]);
        let res = match sec {
            Section::RoData => patch_slot_in(ro, off, layouts),
            Section::Code => patch_slot_in(code, off, layouts),
            Section::Data => patch_slot_in(rw, off, layouts),
        };
        if let Err(e) = res {
            proof {
                let i = sec.code_of() as int;
                assert(patch_all(start, pre.drop_last(), layouts@) == Ok::<Seq<Seq<u8>>, LoadFault>(before));
                assert(patch_slot(before[i], off, layouts@) is Err);
                assert(fault_error(patch_slot(before[i], off, layouts@)->Err_0, e));
                assert(patch_all(start, pre, layouts@) == Err::<Seq<Seq<u8>>, LoadFault>(patch_slot(before[i], off, layouts@)->Err_0));
                lemma_patch_error_stays(start, relocations@, layouts@, k as int + 1, relocations@.len() as int);
                assert(relocations@.subrange(0, relocations@.len() as int) =~= relocations@);
                assert(start == seq![old(ro)@, old(code)@, old(rw)@]);
                assert(patch_all(start, relocations@, layouts@) == Err::<Seq<Seq<u8>>, LoadFault>(patch_slot(before[i], off, layouts@)->Err_0));
            }
            return Err(e);
        }
        proof {
            let i = sec.code_of() as int;
            assert(seq![ro@, code@, rw@] =~= before.update(i, seq![ro@, code@, rw@][i]));
        }
        k = k + 1;
    }
    assert(relocations@.subrange(0, relocations@.len() as int) =~= relocations@);
    Ok(())
}

/// Reads an object file and places it after `reserved_bytes` bytes, its sections ending at
/// or below `max_section_phys_end` physically; the relocated words and the entry point are
/// rebased. Fails as the object file's reader does, then as `patched_program` says.
pub fn load_and_patch_program(rom: &[u8], reserved_bytes: u32, max_section_phys_end: u32) -> (r: VmResult<PatchedProgram>)
    ensures
        match decode_format(rom@) {
            Err(fault) => r matches Err(VmError::CoreErrors(e)) && reports(e, fault),
            Ok(v) => match patched_program(v.ro_data, v.code, v.rw_data, v.relocations, v.entry_point, reserved_bytes, max_section_phys_end) {
                Ok((lay, secs, entry)) => r matches Ok(p) && p.sections@ == lay && p.ro_data@ == secs[0]
                    && p.code@ == secs[1] && p.rw_data@ == secs[2] && p.entry_point == entry,
                Err(f) => r matches Err(e) && fault_error(f, e),
            },
        },
{
    let rom = match FvmFormat::from_bytes(rom) {
        Ok(f) => f,
        Err(e) => {
            return Err(VmError::CoreErrors(e));
        },
    };
    let lengths = [rom.ro_data.len() as u32, rom.code.len() as u32, rom.rw_data.len() as u32];
    let sections = compute_section_layouts(lengths, reserved_bytes, max_section_phys_end)?;
    let FvmFormat { version: _, entry_point, ro_data, code, rw_data, relocations } = rom;
    let mut ro_data = ro_data;
    let mut code = code;
    let mut rw_data = rw_data;
    patch_relocations(&mut ro_data, &mut code, &mut rw_data, &relocations, &sections)?;
    let entry_point = relocate(entry_point, &sections)?;
    Ok(PatchedProgram { entry_point, ro_data, code, rw_data, sections })
}

/// A placed section of `len` bytes: page-aligned bases, whole pages, at or after
/// `reserved`, below the stack's virtual base and ending at or below `max_end`
/// physically.
pub open spec fn placement_ok(p: SectionPlacement, len: u32, reserved: int, max_end: int) -> bool {
    &&& p.len == len
    &&& 0 < len <= p.aligned_len
    &&& p.aligned_len % 4096 == 0
    &&& p.actual_base % 4096 == 0
    &&& p.phys_base % 4096 == 0
    &&& reserved <= p.actual_base
    &&& reserved <= p.phys_base
    &&& p.actual_base + p.aligned_len <= STACK_BASE
    &&& p.phys_base + p.aligned_len <= max_end
}

/// When both sections are placed, the first ends (virtually and physically) where the
/// second may start at the earliest.
pub open spec fn placed_before(p: Option<SectionPlacement>, q: Option<SectionPlacement>) -> bool {
    p is Some && q is Some ==> p->0.actual_base + p->0.aligned_len <= q->0.actual_base && p->0.phys_base
        + p->0.aligned_len <= q->0.phys_base
}

proof fn lemma_page_aligned(v: int)
    requires
        0 <= v,
    ensures
        page_aligned(v) matches Some(x) ==> v <= x < v + 4096 && x % 4096 == 0 && x <= u32::MAX,
{
}

proof fn lemma_place(len: u32, assumed: u32, actual: int, phys: int, max_end: int)
    requires
        0 <= actual,
        0 <= phys,
        place(len, assumed, actual, phys, max_end) is Ok,
    ensures
        ({
            let (po, a2, q2) = place(len, assumed, actual, phys, max_end)->Ok_0;
            &&& len == 0 ==> po is None && a2 == actual && q2 == phys
            &&& len > 0 ==> (po matches Some(p) && placement_ok(p, len, 0, max_end) && actual <= p.actual_base && phys <= p.phys_base
                && a2 == p.actual_base + p.aligned_len && q2 == p.phys_base + p.aligned_len)
        }),
{
    lemma_page_aligned(actual);
    lemma_page_aligned(phys);
    lemma_page_aligned(len as int);
    if len > 0 {
        let a = page_aligned(actual)->0;
        let p = page_aligned(phys)->0;
        let al = page_aligned(len as int)->0;
        assert(a <= u32::MAX);
        assert(p <= u32::MAX);
        assert(al <= u32::MAX);
        assert((a as u32) as int == a);
        assert((al as u32) as int == al);
        assert(len <= al);
        let sp = SectionPlacement { assumed_base: assumed, actual_base: a as u32, phys_base: p as u32, len, aligned_len: al as u32 };
        assert(place(len, assumed, actual, phys, max_end) == Ok::<(Option<SectionPlacement>, int, int), LoadFault>((Some(sp), a + al, p + al)));
        assert(placement_ok(sp, len, 0, max_end));
    }
}

/// What placing the sections guarantees: one placement per non-empty section, each within
/// bounds, in section order without overlap.
pub proof fn lemma_layouts(l0: u32, l1: u32, l2: u32, reserved: u32, max_end: u32)
    requires
        layouts(l0, l1, l2, reserved, max_end) is Ok,
    ensures
        ({
            let lay = layouts(l0, l1, l2, reserved, max_end)->Ok_0;
            &&& lay.len() == 3
            &&& (lay[0] is Some <==> l0 > 0) && (lay[1] is Some <==> l1 > 0) && (lay[2] is Some <==> l2 > 0)
            &&& lay[0] matches Some(p) ==> placement_ok(p, l0, reserved as int, max_end as int)
            &&& lay[1] matches Some(p) ==> placement_ok(p, l1, reserved as int, max_end as int)
            &&& lay[2] matches Some(p) ==> placement_ok(p, l2, reserved as int, max_end as int)
            &&& placed_before(lay[0], lay[1])
            &&& placed_before(lay[0], lay[2])
            &&& placed_before(lay[1], lay[2])
        }),
{
    let (p0, a0, q0) = place(l0, 0, reserved as int, reserved as int, max_end as int)->Ok_0;
    lemma_place(l0, 0, reserved as int, reserved as int, max_end as int);
    let (p1, a1, q1) = place(l1, l0, a0, q0, max_end as int)->Ok_0;
    lemma_place(l1, l0, a0, q0, max_end as int);
    lemma_place(l2, (l0 + l1) as u32, a1, q1, max_end as int);
}

/// Relocating keeps every section's length.
pub proof fn lemma_patch_lengths(secs: Seq<Seq<u8>>, relocs: Seq<(Section, u32)>, lay: Seq<Option<SectionPlacement>>)
    requires
        secs.len() == 3,
        patch_all(secs, relocs, lay) is Ok,
    ensures
        patch_all(secs, relocs, lay)->Ok_0.len() == 3,
        forall|i: int| 0 <= i < 3 ==> (#[trigger] patch_all(secs, relocs, lay)->Ok_0[i]).len() == secs[i].len(),
    decreases relocs.len(),
{
    if relocs.len() > 0 {
        lemma_patch_lengths(secs, relocs.drop_last(), lay);
    }
}

/// A relocated address keeps its offset within its section: it lands in the placed
/// section at the same distance from the section's start as before.
pub proof fn law_relocation_keeps_offset(lay: Seq<Option<SectionPlacement>>, addr: u32)
    requires
        lay.len() == 3,
        relocated(lay, addr) is Ok,
    ensures
        ({
            let i = section_from(lay, addr, 0)->Ok_0;
            let p = lay[i]->0;
            let r = relocated(lay, addr)->Ok_0;
            &&& 0 <= i < 3
            &&& p.assumed_base <= addr < p.assumed_base + p.len
            &&& r - p.actual_base == addr - p.assumed_base
            &&& p.actual_base <= r < p.actual_base + p.len
        }),
{
    lemma_section_in_range(lay, addr, 0);
}

proof fn lemma_section_in_range(lay: Seq<Option<SectionPlacement>>, addr: u32, i: int)
    requires
        0 <= i,
        lay.len() == 3,
    ensures
        section_from(lay, addr, i) matches Ok(k) ==> 0 <= k < 3 && lay[k] is Some
            && lay[k]->0.assumed_base <= addr < lay[k]->0.assumed_base + lay[k]->0.len,
    decreases 3 - i,
{
    if i < 3 {
        lemma_section_in_range(lay, addr, i + 1);
    }
}

} // verus!
