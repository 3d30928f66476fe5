//! Booting the machine: the loader-information table at physical address 0, the program's
//! sections and the stack mapped in kernel context 0, and the kernel register file set up
//! to run the program.
use vstd::prelude::*;
use crate::bytes::{be32, push_be32, push_all};
use crate::format::{decode_format, reports};
use crate::memory::{Bus, PageEntry, PhysicalRegionInfo, PAGE_SIZE, PERM_READ, phys_byte, same_layout, resolve_from, mmap_ok, mapped, page_mapped, in_range};
use crate::ports::PortDevice;
use crate::program_patcher::{SectionPlacement, PatchedProgram, load_and_patch_program, patched_program, fault_error, placement_ok, placed_before, lemma_layouts, lemma_patch_lengths, lemma_section_found};
use crate::vm::VM;
use crate::vm_types::{RegisterFile, VmError, VmResult, page_key, STACK_SIZE, STACK_BASE, STACK_TOP, KERNEL_CONTEXT};
use crate::text::owned;

verus! {

/// What a kernel mapping holds.
#[derive(Clone, Copy, Debug, PartialEq, Eq, Structural)]
pub enum KernelMappingKind {
    LoaderInfo,
    Rodata,
    Code,
    Data,
    Stack,
}

/// The byte standing for a mapping kind in the loader information.
pub open spec fn kind_byte(k: KernelMappingKind) -> u8 {
    match k {
        KernelMappingKind::LoaderInfo => 0,
        KernelMappingKind::Rodata => 1,
        KernelMappingKind::Code => 2,
        KernelMappingKind::Data => 3,
        KernelMappingKind::Stack => 4,
    }
}

impl KernelMappingKind {
    /// The byte standing for the kind in the loader information.
    pub fn as_byte(self) -> (b: u8)
        ensures
            b == kind_byte(self),
    {
        match self {
            KernelMappingKind::LoaderInfo => 0,
            KernelMappingKind::Rodata => 1,
            KernelMappingKind::Code => 2,
            KernelMappingKind::Data => 3,
            KernelMappingKind::Stack => 4,
        }
    }
}

/// A mapping the loader made in the kernel context: its kind, physical and virtual bases
/// and its number of pages.
#[derive(Clone, Copy, Debug)]
pub struct KernelMapping {
    pub kind: KernelMappingKind,
    pub phys_base: u32,
    pub virt_base: u32,
    pub page_count: u32,
}

/// Size in bytes of the loader information for `n` memory regions and `p` ports: three
/// counts, 24 bytes per region, 12 per port and 13 for each of the five mappings.
pub open spec fn loader_info_size(n: int, p: int) -> int {
    4 + 24 * n + 4 + 12 * p + 4 + 5 * 13
}

/// Size in bytes of the loader information.
pub fn calculate_loader_info_size(num_regions: u32, num_ports: u32) -> (r: u32)
    requires
        loader_info_size(num_regions as int, num_ports as int) <= u32::MAX,
    ensures
        r == loader_info_size(num_regions as int, num_ports as int),
{
    let memory_size = 4 + num_regions * 24;
    let ports_size = 4 + num_ports * 12;
    let mappings_size: u32 = 4 + 5 * 13;
    memory_size + ports_size + mappings_size
}

/// Number of pages the loader information takes.
pub fn calculate_loader_info_pages(num_regions: u32, num_ports: u32) -> (r: u32)
    requires
        loader_info_size(num_regions as int, num_ports as int) <= u32::MAX,
    ensures
        r == (loader_info_size(num_regions as int, num_ports as int) + 4095) / 4096,
{
    let size = calculate_loader_info_size(num_regions, num_ports);
    let extra: u32 = if size % PAGE_SIZE != 0 {
        1
    } else {
        0
    };
    size / PAGE_SIZE + extra
}

/// Entry of a memory region: base, size, identifier, permissions (read and write) and
/// seven bytes of padding.
pub open spec fn region_entry(r: PhysicalRegionInfo) -> Seq<u8> {
    be32(r.phys_base) + be32(r.size) + r.id@ + seq![3u8, 0u8, 0u8, 0u8, 0u8, 0u8, 0u8, 0u8]
}

/// Entries of the memory regions, in order.
pub open spec fn regions_bytes(rs: Seq<PhysicalRegionInfo>) -> Seq<u8>
    decreases rs.len(),
{
    if rs.len() == 0 {
        seq![]
    } else {
        regions_bytes(rs.drop_last()) + region_entry(rs.last())
    }
}

/// Entries of the ports: the device's identifier, then the port.
pub open spec fn ports_bytes(ps: Seq<(u32, [u8; 8])>) -> Seq<u8>
    decreases ps.len(),
{
    if ps.len() == 0 {
        seq![]
    } else {
        ports_bytes(ps.drop_last()) + ps.last().1@ + be32(ps.last().0)
    }
}

/// Entry of a mapping: kind, physical base, virtual base and page count.
pub open spec fn mapping_entry(m: KernelMapping) -> Seq<u8> {
    seq![kind_byte(m.kind)] + be32(m.phys_base) + be32(m.virt_base) + be32(m.page_count)
}

/// Entries of the mappings, in order.
pub open spec fn mappings_bytes(ms: Seq<KernelMapping>) -> Seq<u8>
    decreases ms.len(),
{
    if ms.len() == 0 {
        seq![]
    } else {
        mappings_bytes(ms.drop_last()) + mapping_entry(ms.last())
    }
}

/// The loader information: each table preceded by its number of entries.
pub open spec fn loader_info(rs: Seq<PhysicalRegionInfo>, ps: Seq<(u32, [u8; 8])>, ms: Seq<KernelMapping>) -> Seq<u8> {
    be32(rs.len() as u32) + regions_bytes(rs) + be32(ps.len() as u32) + ports_bytes(ps) + be32(
        ms.len() as u32,
    ) + mappings_bytes(ms)
}

/// Where a port goes in a table sorted by port: after the entries with smaller ports,
/// searching from `i`.
pub open spec fn insert_pos(t: Seq<(u32, [u8; 8])>, p: u32, i: int) -> int
    decreases t.len() - i,
{
    if i < 0 || i >= t.len() || t[i].0 >= p {
        i
    } else {
        insert_pos(t, p, i + 1)
    }
}

/// A sorted port table with entry `e` added: it replaces the entry of the same port, or is
/// inserted in order.
pub open spec fn table_insert(t: Seq<(u32, [u8; 8])>, e: (u32, [u8; 8])) -> Seq<(u32, [u8; 8])> {
    let pos = insert_pos(t, e.0, 0);
    if pos < t.len() && t[pos].0 == e.0 {
        t.update(pos, e)
    } else {
        t.insert(pos, e)
    }
}

/// The port table of devices listed in order: one entry per port, the last device listed
/// for a port, sorted by port.
pub open spec fn port_table(src: Seq<(u32, [u8; 8])>) -> Seq<(u32, [u8; 8])>
    decreases src.len(),
{
    if src.len() == 0 {
        seq![]
    } else {
        table_insert(port_table(src.drop_last()), src.last())
    }
}

/// Ports and identifiers of the machine's port devices, in order.
pub open spec fn port_ids(ports: Seq<(u32, PortDevice)>) -> Seq<(u32, [u8; 8])> {
    ports.map_values(|e: (u32, PortDevice)| (e.0, e.1.id))
}

proof fn lemma_insert_pos(t: Seq<(u32, [u8; 8])>, p: u32, i: int)
    requires
        0 <= i <= t.len(),
    ensures
        i <= insert_pos(t, p, i) <= t.len(),
        forall|j: int| i <= j < insert_pos(t, p, i) ==> t[j].0 < p,
        insert_pos(t, p, i) < t.len() ==> t[insert_pos(t, p, i)].0 >= p,
    decreases t.len() - i,
{
    if i < t.len() && t[i].0 < p {
        lemma_insert_pos(t, p, i + 1);
    }
}

/// Ports of a table strictly increase.
pub open spec fn sorted_ports(t: Seq<(u32, [u8; 8])>) -> bool {
    forall|i: int, j: int| 0 <= i < j < t.len() ==> #[trigger] t[i].0 < #[trigger] t[j].0
}

/// The identifier of the last device listed for port `p`.
pub open spec fn last_id(src: Seq<(u32, [u8; 8])>, p: u32) -> Option<[u8; 8]>
    decreases src.len(),
{
    if src.len() == 0 {
        None
    } else if src.last().0 == p {
        Some(src.last().1)
    } else {
        last_id(src.drop_last(), p)
    }
}

/// The port table lists each port once, in increasing order, with the last device listed
/// for it, and lists every port a device is listed for.
pub proof fn law_port_table(src: Seq<(u32, [u8; 8])>)
    ensures
        sorted_ports(port_table(src)),
        forall|i: int| 0 <= i < port_table(src).len() ==> last_id(src, #[trigger] port_table(src)[i].0) == Some(port_table(src)[i].1),
        forall|p: u32| #[trigger] last_id(src, p) is Some ==> exists|i: int| 0 <= i < port_table(src).len() && port_table(src)[i].0 == p,
    decreases src.len(),
{
    if src.len() > 0 {
        let rest = src.drop_last();
        let e = src.last();
        law_port_table(rest);
        let t = port_table(rest);
        let pos = insert_pos(t, e.0, 0);
        lemma_insert_pos(t, e.0, 0);
        let t2 = port_table(src);
        assert(t2 == table_insert(t, e));
        if pos < t.len() && t[pos].0 == e.0 {
            assert(t2 == t.update(pos, e));
            assert forall|i: int| 0 <= i < t2.len() implies last_id(src, #[trigger] t2[i].0) == Some(t2[i].1) by {
                if i != pos {
                    assert(t[i].0 != t[pos].0);
                    assert(last_id(rest, t[i].0) == Some(t[i].1));
                }
            }
            assert forall|p: u32| #[trigger] last_id(src, p) is Some implies exists|i: int| 0 <= i < t2.len() && t2[i].0 == p by {
                if p == e.0 {
                    assert(t2[pos].0 == p);
                } else {
                    assert(last_id(rest, p) is Some);
                    let i = choose|i: int| 0 <= i < t.len() && t[i].0 == p;
                    assert(t2[i].0 == p);
                }
            }
        } else {
            assert(t2 == t.insert(pos, e));
            assert forall|i: int, j: int| 0 <= i < j < t2.len() implies #[trigger] t2[i].0 < #[trigger] t2[j].0 by {
                if j < pos {
                } else if i < pos && j == pos {
                } else if i < pos {
                    assert(t2[j] == t[j - 1]);
                } else if i == pos {
                    assert(t2[j] == t[j - 1]);
                    assert(t[pos].0 <= t[j - 1].0);
                } else {
                    assert(t2[j] == t[j - 1]);
                    assert(t2[i] == t[i - 1]);
                }
            }
            assert forall|i: int| 0 <= i < t2.len() implies last_id(src, #[trigger] t2[i].0) == Some(t2[i].1) by {
                if i < pos {
                    assert(t2[i] == t[i]);
                    assert(last_id(rest, t[i].0) == Some(t[i].1));
                } else if i > pos {
                    assert(t2[i] == t[i - 1]);
                    assert(last_id(rest, t[i - 1].0) == Some(t[i - 1].1));
                }
            }
            assert forall|p: u32| #[trigger] last_id(src, p) is Some implies exists|i: int| 0 <= i < t2.len() && t2[i].0 == p by {
                if p == e.0 {
                    assert(t2[pos].0 == p);
                } else {
                    assert(last_id(rest, p) is Some);
                    let i = choose|i: int| 0 <= i < t.len() && t[i].0 == p;
                    if i < pos {
                        assert(t2[i].0 == p);
                    } else {
                        assert(t2[i + 1].0 == p);
                    }
                }
            }
        }
    }
}

/// Builds the port table of the machine's devices (see `port_table`).
pub fn build_port_table(ports: &Vec<(u32, PortDevice)>) -> (r: Vec<(u32, [u8; 8])>)
    ensures
        r@ == port_table(port_ids(ports@)),
        r@.len() <= ports@.len(),
{
    let ghost src = port_ids(ports@);
    let mut out: Vec<(u32, [u8; 8])> = Vec::new();
    let mut k: usize = 0;
    while k < ports.len()
        invariant
            0 <= k <= ports@.len(),
            src == port_ids(ports@),
            out@ == port_table(src.subrange(0, k as int)),
            out@.len() <= k,
        decreases ports@.len() - k,
    {
        let port = ports[k].0;
        let id = ports[k].1.id;
        let ghost pre = src.subrange(0, k as int + 1);
        assert(pre.drop_last() =~= src.subrange(0, k as int));
        assert(pre.last() == (port, id));
        let mut pos: usize = 0;
        while pos < out.len() && out[pos].0 < port
            invariant
                0 <= pos <= out@.len(),
                insert_pos(out@, port, 0) == insert_pos(out@, port, pos as int),
            decreases out@.len() - pos,
        {
            pos = pos + 1;
        }
        if pos < out.len() && out[pos].0 == port {
            out.set(pos, (port, id));
        } else {
            out.insert(pos, (port, id));
        }
        k = k + 1;
    }
    assert(src.subrange(0, ports@.len() as int) =~= src);
    out
}

/// The loader information's bytes (see `loader_info`).
pub fn loader_info_bytes(
    regions: &Vec<PhysicalRegionInfo>,
    ports: &Vec<(u32, [u8; 8])>,
    mappings: &Vec<KernelMapping>,
) -> (r: Vec<u8>)
    requires
        regions@.len() <= u32::MAX,
        ports@.len() <= u32::MAX,
        mappings@.len() <= u32::MAX,
    ensures
        r@ == loader_info(regions@, ports@, mappings@),
{
    let mut bytes: Vec<u8> = Vec::new();
    push_be32(&mut bytes, regions.len() as u32);
    let ghost head = bytes@;
    let mut i: usize = 0;
    while i < regions.len()
        invariant
            0 <= i <= regions@.len(),
            bytes@ == head + regions_bytes(regions@.subrange(0, i as int)),
        decreases regions@.len() - i,
    {
        let r = regions[i];
        assert(regions@.subrange(0, i as int + 1).drop_last() =~= regions@.subrange(0, i as int));
        push_be32(&mut bytes, r.phys_base);
        push_be32(&mut bytes, r.size);
        push_all(&mut bytes, &r.id);
        push_all(&mut bytes, &[3u8, 0, 0, 0, 0, 0, 0, 0]);
        proof {
            assert([3u8, 0, 0, 0, 0, 0, 0, 0]@ =~= seq![3u8, 0u8, 0u8, 0u8, 0u8, 0u8, 0u8, 0u8]);
            assert(bytes@ =~= head + regions_bytes(regions@.subrange(0, i as int + 1)));
        }
        i = i + 1;
    }
    assert(regions@.subrange(0, regions@.len() as int) =~= regions@);
    push_be32(&mut bytes, ports.len() as u32);
    let ghost head2 = bytes@;
    let mut j: usize = 0;
    while j < ports.len()
        invariant
            0 <= j <= ports@.len(),
            bytes@ == head2 + ports_bytes(ports@.subrange(0, j as int)),
        decreases ports@.len() - j,
    {
        let (port, id) = ports[j];
        assert(ports@.subrange(0, j as int + 1).drop_last() =~= ports@.subrange(0, j as int));
        push_all(&mut bytes, &id);
        push_be32(&mut bytes, port);
        assert(bytes@ =~= head2 + ports_bytes(ports@.subrange(0, j as int + 1)));
        j = j + 1;
    }
    assert(ports@.subrange(0, ports@.len() as int) =~= ports@);
    push_be32(&mut bytes, mappings.len() as u32);
    let ghost head3 = bytes@;
    let mut m: usize = 0;
    while m < mappings.len()
        invariant
            0 <= m <= mappings@.len(),
            bytes@ == head3 + mappings_bytes(mappings@.subrange(0, m as int)),
        decreases mappings@.len() - m,
    {
        let e = mappings[m];
        assert(mappings@.subrange(0, m as int + 1).drop_last() =~= mappings@.subrange(0, m as int));
        bytes.push(e.kind.as_byte());
        push_be32(&mut bytes, e.phys_base);
        push_be32(&mut bytes, e.virt_base);
        push_be32(&mut bytes, e.page_count);
        assert(bytes@ =~= head3 + mappings_bytes(mappings@.subrange(0, m as int + 1)));
        m = m + 1;
    }
    assert(mappings@.subrange(0, mappings@.len() as int) =~= mappings@);
    assert(bytes@ =~= loader_info(regions@, ports@, mappings@));
    bytes
}

proof fn lemma_regions_len(rs: Seq<PhysicalRegionInfo>)
    ensures
        regions_bytes(rs).len() == 24 * rs.len(),
    decreases rs.len(),
{
    if rs.len() > 0 {
        lemma_regions_len(rs.drop_last());
    }
}

proof fn lemma_ports_len(ps: Seq<(u32, [u8; 8])>)
    ensures
        ports_bytes(ps).len() == 12 * ps.len(),
    decreases ps.len(),
{
    if ps.len() > 0 {
        lemma_ports_len(ps.drop_last());
    }
}

proof fn lemma_mappings_len(ms: Seq<KernelMapping>)
    ensures
        mappings_bytes(ms).len() == 13 * ms.len(),
    decreases ms.len(),
{
    if ms.len() > 0 {
        lemma_mappings_len(ms.drop_last());
    }
}

/// The first physical region starts at address 0: it is the main RAM.
pub open spec fn main_ram(b: Bus) -> bool {
    b.physical@.len() > 0 && b.physical@[0].phys_base == 0
}

/// Size of the main RAM.
pub open spec fn main_len(b: Bus) -> int {
    b.physical@[0].ram.data@.len() as int
}

/// The page entry of virtual page `v` in the kernel context, if it is mapped.
pub open spec fn kpage(b: Bus, v: int) -> Option<PageEntry> {
    let k = page_key(KERNEL_CONTEXT, v as u32);
    if b.pages@.contains_key(k) {
        Some(b.pages@[k])
    } else {
        None
    }
}

/// Kernel pages `virt_page + j` map main-RAM pages `phys_page + j` with `perm`, for every
/// `j < count`.
pub open spec fn kernel_pages(b: Bus, virt_page: int, phys_page: int, count: int, perm: u8) -> bool {
    forall|j: int|
        0 <= j < count ==> #[trigger] kpage(b, virt_page + j) == Some(
            PageEntry { device: 0, device_page_base: ((phys_page + j) * 4096) as u32, permissions: perm },
        )
}

/// Every page-table key outside `lo .. hi` is as it was.
pub open spec fn pages_kept(a: Bus, b: Bus, lo: int, hi: int) -> bool {
    forall|k: u64|
        !(lo <= k < hi) ==> (#[trigger] b.pages@.contains_key(k) == a.pages@.contains_key(k) && (
        a.pages@.contains_key(k) ==> b.pages@[k] == a.pages@[k]))
}

/// Every physical byte outside `lo .. hi` is as it was.
pub open spec fn bytes_kept(a: Bus, b: Bus, lo: int, hi: int) -> bool {
    forall|x: u32| !(lo <= x < hi) ==> #[trigger] phys_byte(b, x) == phys_byte(a, x)
}

/// The bytes from physical address `at` are `bytes`.
pub open spec fn holds(b: Bus, at: int, bytes: Seq<u8>) -> bool {
    forall|k: int| 0 <= k < bytes.len() ==> #[trigger] phys_byte(b, (at + k) as u32) == Some(bytes[k])
}

proof fn lemma_resolve_main(b: Bus, a: int)
    requires
        main_ram(b),
        0 <= a < main_len(b),
        a <= u32::MAX,
    ensures
        resolve_from(b.physical@, a as u32, 0) == Some((0usize, a as u32)),
{
}

/// Maps `count` kernel pages from `virt_page` to main-RAM pages from `phys_page`.
fn map_main(bus: &mut Bus, virt_page: u32, phys_page: u32, count: u32, perm: u8)
    requires
        old(bus).wf(),
        main_ram(*old(bus)),
        (phys_page + count) * 4096 <= main_len(*old(bus)),
        virt_page + count <= 0x10_0000,
    ensures
        final(bus).wf(),
        final(bus).physical == old(bus).physical,
        final(bus).current_context == old(bus).current_context,
        kernel_pages(*final(bus), virt_page as int, phys_page as int, count as int, perm),
        pages_kept(*old(bus), *final(bus), virt_page as int, virt_page + count),
{
    let ghost a = *bus;
    proof {
        broadcast use crate::vm_types::lemma_page_key;
        assert(main_len(a) <= u32::MAX) by {
            assert(a.physical@[0].ram.wf());
        }
        assert forall|i: int| 0 <= i < count implies phys_page + i < 0x10_0000 && #[trigger] resolve_from(
            a.physical@,
            ((phys_page + i) * 4096) as u32,
            0,
        ) is Some by {
            lemma_resolve_main(a, (phys_page + i) * 4096);
        }
        assert(mmap_ok(a, virt_page, phys_page, count));
    }
    let r = bus.mmap(KERNEL_CONTEXT, virt_page, phys_page, count, perm);
    assert(r is Ok);
    proof {
        broadcast use crate::vm_types::lemma_page_key;
        assert forall|j: int| 0 <= j < count implies #[trigger] kpage(*bus, virt_page + j) == Some(
            PageEntry { device: 0, device_page_base: ((phys_page + j) * 4096) as u32, permissions: perm },
        ) by {
            assert(page_mapped(a, *bus, KERNEL_CONTEXT, virt_page, phys_page, perm, j));
            lemma_resolve_main(a, (phys_page + j) * 4096);
        }
        assert forall|k: u64| !(virt_page <= k < virt_page + count) implies (#[trigger] bus.pages@.contains_key(k)
            == a.pages@.contains_key(k) && (a.pages@.contains_key(k) ==> bus.pages@[k] == a.pages@[k])) by {
            assert(!in_range(k, KERNEL_CONTEXT, virt_page, count));
        }
    }
}

/// Writes bytes into the main RAM at `addr`.
fn write_main(bus: &mut Bus, addr: u32, bytes: &[u8])
    requires
        old(bus).wf(),
        main_ram(*old(bus)),
        addr + bytes@.len() <= main_len(*old(bus)),
    ensures
        final(bus).wf(),
        final(bus).pages == old(bus).pages,
        final(bus).current_context == old(bus).current_context,
        same_layout(*old(bus), *final(bus)),
        holds(*final(bus), addr as int, bytes@),
        bytes_kept(*old(bus), *final(bus), addr as int, addr + bytes@.len()),
{
    let ghost a = *bus;
    proof {
        assert(main_len(a) <= u32::MAX) by {
            assert(a.physical@[0].ram.wf());
        }
        assert forall|k: int| 0 <= k < bytes@.len() implies #[trigger] resolve_from(a.physical@, (addr + k) as u32, 0) is Some by {
            lemma_resolve_main(a, addr + k);
        }
    }
    let r = bus.write_physical_bytes(addr, bytes);
    assert(r is Ok);
}

proof fn lemma_kernel_pages_stay(a: Bus, b: Bus, virt_page: int, phys_page: int, count: int, perm: u8, lo: int, hi: int)
    requires
        kernel_pages(a, virt_page, phys_page, count, perm),
        pages_kept(a, b, lo, hi),
        virt_page + count <= lo || hi <= virt_page,
        0 <= virt_page,
        virt_page + count <= 0x10_0000,
    ensures
        kernel_pages(b, virt_page, phys_page, count, perm),
{
    broadcast use crate::vm_types::lemma_page_key;
    assert forall|j: int| 0 <= j < count implies #[trigger] kpage(b, virt_page + j) == Some(
        PageEntry { device: 0, device_page_base: ((phys_page + j) * 4096) as u32, permissions: perm },
    ) by {
        assert(kpage(a, virt_page + j) == Some(
            PageEntry { device: 0, device_page_base: ((phys_page + j) * 4096) as u32, permissions: perm },
        ));
        let k = page_key(KERNEL_CONTEXT, (virt_page + j) as u32);
        assert(b.pages@.contains_key(k) == a.pages@.contains_key(k));
    }
}

proof fn lemma_holds_stay(a: Bus, b: Bus, at: int, bytes: Seq<u8>, lo: int, hi: int)
    requires
        holds(a, at, bytes),
        bytes_kept(a, b, lo, hi),
        at + bytes.len() <= lo || hi <= at,
        0 <= at,
        at + bytes.len() <= u32::MAX + 1,
    ensures
        holds(b, at, bytes),
{
    assert forall|k: int| 0 <= k < bytes.len() implies #[trigger] phys_byte(b, (at + k) as u32) == Some(bytes[k]) by {
        assert(phys_byte(a, (at + k) as u32) == Some(bytes[k]));
    }
}

/// Writes the loader information at physical address 0 (see `loader_info`), with the port
/// devices' table sorted by port (see `port_table`). Succeeds when every byte lands in a
/// device; then those bytes hold it and no other byte changes.
pub fn write_loader_info(
    bus: &mut Bus,
    regions: &Vec<PhysicalRegionInfo>,
    port_devices: &Vec<(u32, PortDevice)>,
    mappings: &Vec<KernelMapping>,
) -> (r: VmResult<()>)
    requires
        old(bus).wf(),
        regions@.len() <= u32::MAX,
        port_table(port_ids(port_devices@)).len() <= u32::MAX,
        mappings@.len() <= u32::MAX,
    ensures
        final(bus).wf(),
        final(bus).pages == old(bus).pages,
        final(bus).current_context == old(bus).current_context,
        same_layout(*old(bus), *final(bus)),
        ({
            let info = loader_info(regions@, port_table(port_ids(port_devices@)), mappings@);
            &&& r is Ok <==> (info.len() == 0 || info.len() <= 0x1_0000_0000) && forall|k: int|
                0 <= k < info.len() ==> #[trigger] resolve_from(old(bus).physical@, k as u32, 0) is Some
            &&& r is Ok ==> holds(*final(bus), 0, info)
            &&& r is Ok ==> bytes_kept(*old(bus), *final(bus), 0, info.len() as int)
        }),
{
    let ports = build_port_table(port_devices);
    let bytes = loader_info_bytes(regions, &ports, mappings);
    let r = bus.write_physical_bytes(0, bytes.as_slice());
    proof {
        let info = loader_info(regions@, ports@, mappings@);
        assert forall|k: int| 0 <= k < info.len() implies #[trigger] resolve_from(old(bus).physical@, k as u32, 0)
            == resolve_from(old(bus).physical@, (0 + k) as u32, 0) by {
        }
        if r is Ok {
            assert forall|k: int| 0 <= k < info.len() implies #[trigger] phys_byte(*bus, (0 + k) as u32) == Some(info[k]) by {
                assert(phys_byte(*bus, (0 + k) as u32) == Some(bytes@[k]));
            }
        }
    }
    r
}

/// Access bits of a section's pages: read-only data, read and execute for code, read and
/// write for data.
pub open spec fn section_perm(i: int) -> u8 {
    if i == 0 {
        1
    } else if i == 1 {
        5
    } else {
        3
    }
}

/// The mapping the loader reports for a section (zeros when it is empty).
pub open spec fn section_mapping(kind: KernelMappingKind, p: Option<SectionPlacement>) -> KernelMapping {
    match p {
        Some(s) => KernelMapping {
            kind,
            phys_base: s.phys_base,
            virt_base: s.actual_base,
            page_count: s.aligned_len / 4096,
        },
        None => KernelMapping { kind, phys_base: 0, virt_base: 0, page_count: 0 },
    }
}

/// The five mappings the loader reports: its own information, the three sections and the
/// stack, which the last 4 MiB of main RAM back.
pub open spec fn kernel_mappings(lay: Seq<Option<SectionPlacement>>, pages: int, main: int) -> Seq<KernelMapping> {
    seq![
        KernelMapping { kind: KernelMappingKind::LoaderInfo, phys_base: 0, virt_base: 0, page_count: pages as u32 },
        section_mapping(KernelMappingKind::Rodata, lay[0]),
        section_mapping(KernelMappingKind::Code, lay[1]),
        section_mapping(KernelMappingKind::Data, lay[2]),
        KernelMapping {
            kind: KernelMappingKind::Stack,
            phys_base: (main - STACK_SIZE) as u32,
            virt_base: STACK_BASE,
            page_count: STACK_SIZE / 4096,
        },
    ]
}

/// Base, size and identifier of every physical region.
pub open spec fn region_infos(b: Bus) -> Seq<PhysicalRegionInfo> {
    b.physical@.map_values(
        |r: crate::memory::PhysicalRegion|
            PhysicalRegionInfo { phys_base: r.phys_base, size: r.ram.data@.len() as u32, id: r.ram.id },
    )
}

/// Pages the loader information of a machine takes.
pub open spec fn info_pages(vm: VM) -> int {
    (loader_info_size(vm.bus.physical@.len() as int, port_table(port_ids(vm.ports@)).len() as int) + 4095) / 4096
}

/// Where the program's sections start: after the loader information and one spare page.
pub open spec fn program_start(vm: VM) -> int {
    (info_pages(vm) + 1) * 4096
}

/// A section, when there is one, is mapped on its kernel pages with `perm` and its bytes
/// are at its physical base.
pub open spec fn section_loaded(b: Bus, p: Option<SectionPlacement>, bytes: Seq<u8>, perm: u8) -> bool {
    p matches Some(s) ==> kernel_pages(b, (s.actual_base / 4096) as int, (s.phys_base / 4096) as int, (s.aligned_len / 4096) as int, perm)
        && holds(b, s.phys_base as int, bytes)
}

/// Whether kernel page key `k` is one the loader maps: the loader information's, a
/// section's or the stack's.
pub open spec fn boot_page(k: u64, lay: Seq<Option<SectionPlacement>>, pages: int) -> bool {
    ||| k < pages
    ||| (lay[0] matches Some(p) && p.actual_base / 4096 <= k < (p.actual_base + p.aligned_len) / 4096)
    ||| (lay[1] matches Some(p) && p.actual_base / 4096 <= k < (p.actual_base + p.aligned_len) / 4096)
    ||| (lay[2] matches Some(p) && p.actual_base / 4096 <= k < (p.actual_base + p.aligned_len) / 4096)
    ||| STACK_BASE / 4096 <= k < STACK_BASE / 4096 + STACK_SIZE / 4096
}

/// Whether the loader writes physical address `x`: the loader information's bytes or a
/// section's.
pub open spec fn boot_byte(x: u32, lay: Seq<Option<SectionPlacement>>, secs: Seq<Seq<u8>>, info_len: int) -> bool {
    ||| x < info_len
    ||| (lay[0] matches Some(p) && p.phys_base <= x < p.phys_base + secs[0].len())
    ||| (lay[1] matches Some(p) && p.phys_base <= x < p.phys_base + secs[1].len())
    ||| (lay[2] matches Some(p) && p.phys_base <= x < p.phys_base + secs[2].len())
}

/// Machine `b` is machine `a` booted with the placed sections `lay`, their patched bytes
/// `secs` and the entry point `entry`.
#[verifier::opaque]
pub open spec fn booted(a: VM, b: VM, lay: Seq<Option<SectionPlacement>>, secs: Seq<Seq<u8>>, entry: u32) -> bool {
    let main = main_len(a.bus);
    let pages = info_pages(a);
    let info = loader_info(region_infos(a.bus), port_table(port_ids(a.ports@)), kernel_mappings(lay, pages, main));
    &&& b.files[0].ip == entry
    &&& b.files[0].sp == STACK_TOP
    &&& b.files[0].cr == KERNEL_CONTEXT
    &&& b.files[0].regs == a.files[0].regs
    &&& b.files[0].flags == a.files[0].flags
    &&& (forall|i: int| 0 <= i < 16 ==> b.files[1].regs@[i] == 0)
    &&& b.files[1].ip == 0 && b.files[1].sp == 0 && b.files[1].flags.0 == 0 && b.files[1].cr == 0
    &&& b.active == KERNEL_CONTEXT
    &&& b.cr == a.cr && b.ivt == a.ivt && b.pending_interrupt == a.pending_interrupt && b.halted == a.halted
    &&& b.ports == a.ports
    &&& b.bus.current_context == KERNEL_CONTEXT
    &&& same_layout(a.bus, b.bus)
    &&& section_loaded(b.bus, lay[0], secs[0], section_perm(0))
    &&& section_loaded(b.bus, lay[1], secs[1], section_perm(1))
    &&& section_loaded(b.bus, lay[2], secs[2], section_perm(2))
    &&& kernel_pages(b.bus, (STACK_BASE / 4096) as int, (main - STACK_SIZE) / 4096, (STACK_SIZE / 4096) as int, 3)
    &&& kernel_pages(b.bus, 0, 0, pages, 1)
    &&& holds(b.bus, 0, info)
    &&& forall|k: u64| !boot_page(k, lay, pages) ==> (#[trigger] b.bus.pages@.contains_key(k) == a.bus.pages@.contains_key(k)
        && (a.bus.pages@.contains_key(k) ==> b.bus.pages@[k] == a.bus.pages@[k]))
    &&& forall|x: u32| !boot_byte(x, lay, secs, info.len() as int) ==> #[trigger] phys_byte(b.bus, x) == phys_byte(a.bus, x)
}

/// What booting machine `a` from object file `rom` gives: a layout error without a main RAM
/// large enough for the stack, the object file's own error, a placement error, or machine
/// `b` booted.
pub open spec fn boot_outcome(a: VM, b: VM, rom: Seq<u8>, r: VmResult<()>) -> bool {
    if a.bus.physical@.len() == 0 || main_len(a.bus) < STACK_SIZE {
        r matches Err(e) && e is Layout
    } else {
        match decode_format(rom) {
            Err(fault) => r matches Err(VmError::CoreErrors(e)) && reports(e, fault),
            Ok(v) => match patched_program(
                v.ro_data,
                v.code,
                v.rw_data,
                v.relocations,
                v.entry_point,
                program_start(a) as u32,
                (main_len(a.bus) - STACK_SIZE) as u32,
            ) {
                Err(f) => r matches Err(e) && fault_error(f, e),
                Ok((lay, secs, entry)) => r is Ok && booted(a, b, lay, secs, entry),
            },
        }
    }
}

/// First kernel page a section's mapping covers (0 when there is no section).
pub open spec fn vlo(p: Option<SectionPlacement>) -> int {
    match p {
        Some(s) => (s.actual_base / 4096) as int,
        None => 0,
    }
}

/// Kernel page after the last one a section's mapping covers (0 when there is no section).
pub open spec fn vhi(p: Option<SectionPlacement>) -> int {
    match p {
        Some(s) => ((s.actual_base + s.aligned_len) / 4096) as int,
        None => 0,
    }
}

/// First physical byte a section's bytes take (0 when there is no section).
pub open spec fn plo(p: Option<SectionPlacement>) -> int {
    match p {
        Some(s) => s.phys_base as int,
        None => 0,
    }
}

/// Physical address after a section's `n` bytes (0 when there is no section).
pub open spec fn phi(p: Option<SectionPlacement>, n: int) -> int {
    match p {
        Some(s) => s.phys_base + n,
        None => 0,
    }
}

proof fn lemma_kept_same(a: Bus, b: Bus)
    requires
        a.pages == b.pages,
    ensures
        forall|lo: int, hi: int| #[trigger] pages_kept(a, b, lo, hi),
{
}

proof fn lemma_bytes_same(a: Bus, b: Bus)
    requires
        a.physical == b.physical,
    ensures
        forall|lo: int, hi: int| #[trigger] bytes_kept(a, b, lo, hi),
{
}

/// Copies a section's bytes to its physical base and maps its pages with `perm`.
fn load_section(bus: &mut Bus, placement: Option<SectionPlacement>, bytes: &Vec<u8>, perm: u8)
    requires
        old(bus).wf(),
        main_ram(*old(bus)),
        placement matches Some(p) ==> placement_ok(p, p.len, 0, main_len(*old(bus))) && bytes@.len() == p.len,
    ensures
        final(bus).wf(),
        same_layout(*old(bus), *final(bus)),
        final(bus).current_context == old(bus).current_context,
        section_loaded(*final(bus), placement, bytes@, perm),
        pages_kept(*old(bus), *final(bus), vlo(placement), vhi(placement)),
        bytes_kept(*old(bus), *final(bus), plo(placement), phi(placement, bytes@.len() as int)),
{
    match placement {
        Some(p) => {
            let ghost a = *bus;
            write_main(bus, p.phys_base, bytes.as_slice());
            let ghost b = *bus;
            assert(main_ram(b) && main_len(b) == main_len(a));
            map_main(bus, p.actual_base / PAGE_SIZE, p.phys_base / PAGE_SIZE, p.aligned_len / PAGE_SIZE, perm);
            proof {
                lemma_bytes_same(b, *bus);
                lemma_kept_same(a, b);
                assert(bytes_kept(b, *bus, 0, 0));
                lemma_holds_stay(b, *bus, p.phys_base as int, bytes@, 0, 0);
                assert(pages_kept(a, b, 0, 0));
                assert forall|x: u32| !(plo(placement) <= x < phi(placement, bytes@.len() as int)) implies #[trigger] phys_byte(*bus, x)
                    == phys_byte(a, x) by {
                    assert(phys_byte(*bus, x) == phys_byte(b, x));
                }
                assert forall|k: u64| !(vlo(placement) <= k < vhi(placement)) implies (#[trigger] bus.pages@.contains_key(k)
                    == a.pages@.contains_key(k) && (a.pages@.contains_key(k) ==> bus.pages@[k] == a.pages@[k])) by {
                    assert(b.pages@.contains_key(k) == a.pages@.contains_key(k));
                }
            }
        },
        None => {
            proof {
                lemma_kept_same(*old(bus), *bus);
                lemma_bytes_same(*old(bus), *bus);
                assert(pages_kept(*old(bus), *bus, 0, 0));
                assert(bytes_kept(*old(bus), *bus, 0, 0));
            }
        },
    }
}

proof fn lemma_loaded_stays(
    a: Bus,
    b: Bus,
    p: Option<SectionPlacement>,
    bytes: Seq<u8>,
    perm: u8,
    vlo2: int,
    vhi2: int,
    plo2: int,
    phi2: int,
)
    requires
        section_loaded(a, p, bytes, perm),
        pages_kept(a, b, vlo2, vhi2),
        bytes_kept(a, b, plo2, phi2),
        p matches Some(s) ==> (vhi(p) <= vlo2 || vhi2 <= vlo(p)) && (phi(p, bytes.len() as int) <= plo2 || phi2
            <= plo(p)) && placement_ok(s, s.len, 0, u32::MAX as int) && bytes.len() == s.len,
    ensures
        section_loaded(b, p, bytes, perm),
{
    if let Some(s) = p {
        lemma_kernel_pages_stay(a, b, vlo(p), (s.phys_base / 4096) as int, (s.aligned_len / 4096) as int, perm, vlo2, vhi2);
        lemma_holds_stay(a, b, s.phys_base as int, bytes, plo2, phi2);
    }
}

/// Boots the machine from an object file: checks that the first physical region (the main
/// RAM) can back the 4 MiB stack, places and patches the program after the loader
/// information and a spare page, copies and maps its sections in the kernel context
/// (read-only data readable, code readable and executable, data readable and writable),
/// maps the stack readable and writable on the last 4 MiB of main RAM, writes the loader
/// information at physical address 0 and maps it readable, and sets the kernel register
/// file to run the program on a fresh stack with the user register file cleared.
pub fn initialize(vm: &mut VM, rom: &[u8]) -> (r: VmResult<()>)
    requires
        old(vm).wf(),
        old(vm).bus.physical@.len() > 0 ==> main_ram(old(vm).bus),
        24 * old(vm).bus.physical@.len() + 12 * old(vm).ports@.len() + 8268 <= u32::MAX,
    ensures
        final(vm).wf(),
        boot_outcome(*old(vm), *final(vm), rom@, r),
{
    let ghost a = *vm;
    let regions = vm.bus.physical_regions();
    assert(regions@ =~= region_infos(a.bus)) by {
        assert forall|i: int| 0 <= i < regions@.len() implies #[trigger] regions@[i] == region_infos(a.bus)[i] by {
            assert(a.bus.physical@[i].ram.wf());
        }
    }
    if regions.len() == 0 {
        return Err(VmError::Layout(owned("VM requires a main RAM device")));
    }
    let main_size = regions[0].size;
    assert(main_size == main_len(a.bus)) by {
        assert(a.bus.physical@[0].ram.wf());
    }
    if main_size < STACK_SIZE {
        return Err(VmError::Layout(owned("main RAM must be at least 4194304 bytes to back the fixed 4 MiB stack")));
    }
    vm.bus.set_context(KERNEL_CONTEXT);
    vm.files[0].cr = KERNEL_CONTEXT;
    let table = build_port_table(&vm.ports);
    let loader_pages = calculate_loader_info_pages(regions.len() as u32, table.len() as u32);
    assert(loader_pages == info_pages(a));
    let program_start = (loader_pages + 1) * PAGE_SIZE;
    let max_end = main_size - STACK_SIZE;
    let patched = load_and_patch_program(rom, program_start, max_end)?;
    let ghost v = decode_format(rom@)->Ok_0;
    let ghost outcome = patched_program(v.ro_data, v.code, v.rw_data, v.relocations, v.entry_point, program_start, max_end);
    proof {
        let lay = outcome->Ok_0.0;
        assert(v.ro_data.len() <= u32::MAX && v.code.len() <= u32::MAX && v.rw_data.len() <= u32::MAX);
        lemma_layouts(v.ro_data.len() as u32, v.code.len() as u32, v.rw_data.len() as u32, program_start, max_end);
        lemma_patch_lengths(seq![v.ro_data, v.code, v.rw_data], v.relocations, lay);
        lemma_section_found(lay, v.entry_point, 0);
    }
    let ghost before = *vm;
    let ghost lay = patched.sections@;
    let ghost secs = seq![patched.ro_data@, patched.code@, patched.rw_data@];
    let ghost entry = patched.entry_point;
    assert(secs =~= outcome->Ok_0.1);
    boot_program(vm, patched, &regions, &table, loader_pages, main_size);
    proof {
        lemma_booted_from(a, before, *vm, lay, secs, entry);
    }
    Ok(())
}

proof fn lemma_booted_from(a: VM, a2: VM, b: VM, lay: Seq<Option<SectionPlacement>>, secs: Seq<Seq<u8>>, entry: u32)
    requires
        booted(a2, b, lay, secs, entry),
        a2.bus.physical == a.bus.physical,
        a2.bus.pages == a.bus.pages,
        a2.ports == a.ports,
        a2.files[0].regs == a.files[0].regs,
        a2.files[0].flags == a.files[0].flags,
        a2.cr == a.cr,
        a2.ivt == a.ivt,
        a2.pending_interrupt == a.pending_interrupt,
        a2.halted == a.halted,
    ensures
        booted(a, b, lay, secs, entry),
{
    reveal(booted);
}

/// Copies, maps and reports a placed program, and sets the register files to run it.
#[verifier::rlimit(100)]
#[verifier::spinoff_prover]
fn boot_program(
    vm: &mut VM,
    patched: PatchedProgram,
    regions: &Vec<PhysicalRegionInfo>,
    table: &Vec<(u32, [u8; 8])>,
    loader_pages: u32,
    main_size: u32,
)
    requires
        old(vm).wf(),
        main_ram(old(vm).bus),
        old(vm).bus.current_context == KERNEL_CONTEXT,
        old(vm).files[0].cr == KERNEL_CONTEXT,
        main_size == main_len(old(vm).bus),
        main_size >= STACK_SIZE,
        regions@ == region_infos(old(vm).bus),
        table@ == port_table(port_ids(old(vm).ports@)),
        loader_pages == info_pages(*old(vm)),
        regions@.len() <= u32::MAX,
        table@.len() <= u32::MAX,
        loader_info_size(regions@.len() as int, table@.len() as int) <= u32::MAX,
        patched.ro_data@.len() <= u32::MAX,
        patched.code@.len() <= u32::MAX,
        patched.rw_data@.len() <= u32::MAX,
        ({
            let lay = patched.sections@;
            let reserved = (loader_pages + 1) * 4096;
            let max_end = main_size - STACK_SIZE;
            &&& lay.len() == 3
            &&& (lay[0] is Some || lay[1] is Some || lay[2] is Some)
            &&& (lay[0] is Some <==> patched.ro_data@.len() > 0)
            &&& (lay[1] is Some <==> patched.code@.len() > 0)
            &&& (lay[2] is Some <==> patched.rw_data@.len() > 0)
            &&& lay[0] matches Some(p) ==> placement_ok(p, patched.ro_data@.len() as u32, reserved, max_end)
            &&& lay[1] matches Some(p) ==> placement_ok(p, patched.code@.len() as u32, reserved, max_end)
            &&& lay[2] matches Some(p) ==> placement_ok(p, patched.rw_data@.len() as u32, reserved, max_end)
            &&& placed_before(lay[0], lay[1])
            &&& placed_before(lay[0], lay[2])
            &&& placed_before(lay[1], lay[2])
        }),
    ensures
        final(vm).wf(),
        booted(*old(vm), *final(vm), patched.sections@, seq![patched.ro_data@, patched.code@, patched.rw_data@], patched.entry_point),
{
    let ghost a = *vm;
    let ghost lay = patched.sections@;
    let PatchedProgram { entry_point, ro_data, code, rw_data, sections } = patched;
    let ghost b0 = vm.bus;
    load_section(&mut vm.bus, sections[0], &ro_data, PERM_READ);
    let ghost b1 = vm.bus;
    load_section(&mut vm.bus, sections[1], &code, 5);
    let ghost b2 = vm.bus;
    load_section(&mut vm.bus, sections[2], &rw_data, 3);
    let ghost b3 = vm.bus;
    let stack_phys = main_size - STACK_SIZE;
    map_main(&mut vm.bus, STACK_BASE / PAGE_SIZE, stack_phys / PAGE_SIZE, STACK_SIZE / PAGE_SIZE, 3);
    let ghost b4 = vm.bus;
    let mappings = vec![
        KernelMapping { kind: KernelMappingKind::LoaderInfo, phys_base: 0, virt_base: 0, page_count: loader_pages },
        section_mapping_of(KernelMappingKind::Rodata, sections[0]),
        section_mapping_of(KernelMappingKind::Code, sections[1]),
        section_mapping_of(KernelMappingKind::Data, sections[2]),
        KernelMapping { kind: KernelMappingKind::Stack, phys_base: stack_phys, virt_base: STACK_BASE, page_count: STACK_SIZE / PAGE_SIZE },
    ];
    assert(mappings@ =~= kernel_mappings(lay, loader_pages as int, main_size as int));
    let ghost info = loader_info(regions@, table@, mappings@);
    proof {
        lemma_regions_len(regions@);
        lemma_ports_len(table@);
        lemma_mappings_len(mappings@);
        assert(info.len() == loader_info_size(regions@.len() as int, table@.len() as int));
        assert forall|k: int| 0 <= k < info.len() implies #[trigger] resolve_from(b4.physical@, k as u32, 0) is Some by {
            lemma_resolve_main(b4, k);
        }
    }
    let w = write_loader_info(&mut vm.bus, regions, &vm.ports, &mappings);
    assert(w is Ok);
    let ghost b5 = vm.bus;
    map_main(&mut vm.bus, 0, 0, loader_pages, PERM_READ);
    vm.files[0].ip = entry_point;
    vm.files[0].sp = STACK_TOP;
    vm.files[1] = RegisterFile::new();
    vm.active = KERNEL_CONTEXT as usize;
    proof {
        let b6 = vm.bus;
        let pages = loader_pages as int;
        let reserved = (pages + 1) * 4096;
        let il = info.len() as int;
        let ro = ro_data@;
        let cd = code@;
        let rw = rw_data@;
        lemma_bytes_same(b3, b4);
        lemma_kept_same(b4, b5);
        lemma_bytes_same(b5, b6);
        assert(pages_kept(b4, b5, 0, 0));
        assert(bytes_kept(b3, b4, 0, 0));
        assert(bytes_kept(b5, b6, 0, 0));
        assert(il <= pages * 4096);
        // Every present section lies after the reserved area and below the stack.
        assert(lay[0] is Some ==> reserved <= vlo(lay[0]) * 4096 && il <= plo(lay[0]) && vhi(lay[0]) <= STACK_BASE / 4096);
        assert(lay[1] is Some ==> reserved <= vlo(lay[1]) * 4096 && il <= plo(lay[1]) && vhi(lay[1]) <= STACK_BASE / 4096);
        assert(lay[2] is Some ==> reserved <= vlo(lay[2]) * 4096 && il <= plo(lay[2]) && vhi(lay[2]) <= STACK_BASE / 4096);
        assert(pages < STACK_BASE / 4096);
        // Sections loaded first survive the later steps.
        lemma_loaded_stays(b1, b2, lay[0], ro, 1, vlo(lay[1]), vhi(lay[1]), plo(lay[1]), phi(lay[1], cd.len() as int));
        lemma_loaded_stays(b2, b3, lay[0], ro, 1, vlo(lay[2]), vhi(lay[2]), plo(lay[2]), phi(lay[2], rw.len() as int));
        lemma_loaded_stays(b2, b3, lay[1], cd, 5, vlo(lay[2]), vhi(lay[2]), plo(lay[2]), phi(lay[2], rw.len() as int));
        let sb = (STACK_BASE / 4096) as int;
        let sn = (STACK_SIZE / 4096) as int;
        lemma_loaded_stays(b3, b4, lay[0], ro, 1, sb, sb + sn, 0, 0);
        lemma_loaded_stays(b3, b4, lay[1], cd, 5, sb, sb + sn, 0, 0);
        lemma_loaded_stays(b3, b4, lay[2], rw, 3, sb, sb + sn, 0, 0);
        lemma_loaded_stays(b4, b5, lay[0], ro, 1, 0, 0, 0, il);
        lemma_loaded_stays(b4, b5, lay[1], cd, 5, 0, 0, 0, il);
        lemma_loaded_stays(b4, b5, lay[2], rw, 3, 0, 0, 0, il);
        lemma_loaded_stays(b5, b6, lay[0], ro, 1, 0, pages, 0, 0);
        lemma_loaded_stays(b5, b6, lay[1], cd, 5, 0, pages, 0, 0);
        lemma_loaded_stays(b5, b6, lay[2], rw, 3, 0, pages, 0, 0);
        // The stack's pages survive the loader information.
        lemma_kernel_pages_stay(b4, b5, sb, (stack_phys / 4096) as int, sn, 3, 0, 0);
        lemma_kernel_pages_stay(b5, b6, sb, (stack_phys / 4096) as int, sn, 3, 0, pages);
        lemma_holds_stay(b5, b6, 0, info, 0, 0);
        assert(same_layout(a.bus, b6));
        assert forall|k: u64| !boot_page(k, lay, pages) implies (#[trigger] b6.pages@.contains_key(k) == a.bus.pages@.contains_key(k)
            && (a.bus.pages@.contains_key(k) ==> b6.pages@[k] == a.bus.pages@[k])) by {
            assert(b1.pages@.contains_key(k) == b0.pages@.contains_key(k));
            assert(b2.pages@.contains_key(k) == b1.pages@.contains_key(k));
            assert(b3.pages@.contains_key(k) == b2.pages@.contains_key(k));
            assert(b4.pages@.contains_key(k) == b3.pages@.contains_key(k));
            assert(b5.pages@.contains_key(k) == b4.pages@.contains_key(k));
            assert(b6.pages@.contains_key(k) == b5.pages@.contains_key(k));
        }
        assert forall|x: u32| !boot_byte(x, lay, seq![ro, cd, rw], il) implies #[trigger] phys_byte(b6, x) == phys_byte(a.bus, x) by {
            assert(phys_byte(b1, x) == phys_byte(b0, x));
            assert(phys_byte(b2, x) == phys_byte(b1, x));
            assert(phys_byte(b3, x) == phys_byte(b2, x));
            assert(phys_byte(b4, x) == phys_byte(b3, x));
            assert(phys_byte(b5, x) == phys_byte(b4, x));
            assert(phys_byte(b6, x) == phys_byte(b5, x));
        }
        let fa = *old(vm);
        let fb = *vm;
        assert(fb.files[0].ip == entry_point);
        assert(fb.files[0].regs == fa.files[0].regs);
        assert(fb.files[0].flags == fa.files[0].flags);
        assert(fb.files[0].cr == KERNEL_CONTEXT);
        assert(forall|i: int| 0 <= i < 16 ==> fb.files[1].regs@[i] == 0);
        assert(fb.bus.current_context == KERNEL_CONTEXT);
        assert(fb.ports == fa.ports && fb.ivt == fa.ivt && fb.cr == fa.cr);
        assert(section_loaded(fb.bus, lay[0], ro, section_perm(0)));
        assert(section_loaded(fb.bus, lay[1], cd, section_perm(1)));
        assert(section_loaded(fb.bus, lay[2], rw, section_perm(2)));
        assert(kernel_pages(fb.bus, (STACK_BASE / 4096) as int, (main_len(fa.bus) - STACK_SIZE) / 4096, (STACK_SIZE / 4096) as int, 3));
        assert(kernel_pages(fb.bus, 0, 0, info_pages(fa), 1));
        assert(info == loader_info(region_infos(fa.bus), port_table(port_ids(fa.ports@)), kernel_mappings(lay, info_pages(fa), main_len(fa.bus))));
        assert(holds(fb.bus, 0, info));
        reveal(booted);
    }
}

/// The mapping reported for a section (see `section_mapping`).
fn section_mapping_of(kind: KernelMappingKind, p: Option<SectionPlacement>) -> (m: KernelMapping)
    ensures
        m == section_mapping(kind, p),
{
    match p {
        Some(s) => KernelMapping { kind, phys_base: s.phys_base, virt_base: s.actual_base, page_count: s.aligned_len / PAGE_SIZE },
        None => KernelMapping { kind, phys_base: 0, virt_base: 0, page_count: 0 },
    }
}

} // verus!
