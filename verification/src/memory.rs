//! Physical memory (RAM devices laid out one after another) and the bus that translates
//! virtual addresses through per-context page tables.
use vstd::prelude::*;
use std::collections::HashMap;
use crate::text::owned;
use crate::bytes::{half_of, word_at, lemma_be32_roundtrip};
use crate::vm_types::{Access, Interrupt, VmError, VmResult, page_key, interrupt_of};

verus! {

broadcast use {vstd::std_specs::hash::group_hash_axioms, crate::vm_types::lemma_page_key};

/// Size of a page in bytes.
pub const PAGE_SIZE: u32 = 4096;

/// Number of address bits within a page.
pub const PAGE_BITS: u32 = 12;

/// Page permission: readable.
pub const PERM_READ: u8 = 1;

/// Page permission: writable.
pub const PERM_WRITE: u8 = 2;

/// Page permission: executable.
pub const PERM_EXECUTE: u8 = 4;

/// The identifier of the main RAM device: `RAM` padded with zero bytes.
pub open spec fn ram_id() -> [u8; 8] {
    [82u8, 65u8, 77u8, 0u8, 0u8, 0u8, 0u8, 0u8]
}

/// A RAM device: its identifier and its bytes.
#[derive(Debug)]
pub struct Ram {
    pub id: [u8; 8],
    pub data: Vec<u8>,
}

fn device_error(id: [u8; 8], offset: u32, message: &str) -> (e: VmError)
    ensures
        e matches VmError::DeviceError { device, offset: o, message: m } && device == id && o == offset && m@ == message@,
{
    VmError::DeviceError { device: id, offset, message: owned(message) }
}

impl Ram {
    /// Its size fits a 32-bit offset.
    pub open spec fn wf(&self) -> bool {
        self.data@.len() <= u32::MAX
    }

    /// A zeroed RAM of `size` bytes, named `id` or `RAM`.
    pub fn new(size: u32, id: Option<[u8; 8]>) -> (r: Self)
        ensures
            r.wf(),
            r.data@.len() == size,
            forall|i: int| 0 <= i < size ==> r.data@[i] == 0,
            r.id == match id {
                Some(x) => x,
                None => ram_id(),
            },
    {
        let name = match id {
            Some(x) => x,
            None => [82u8, 65u8, 77u8, 0u8, 0u8, 0u8, 0u8, 0u8],
        };
        let mut data: Vec<u8> = Vec::new();
        let mut i: u32 = 0;
        while i < size
            invariant
                0 <= i <= size,
                data@.len() == i,
                forall|j: int| 0 <= j < i ==> data@[j] == 0,
            decreases size - i,
        {
            data.push(0);
            i = i + 1;
        }
        Ram { id: name, data }
    }

    /// Size in bytes.
    pub fn size(&self) -> (n: u32)
        requires
            self.wf(),
        ensures
            n == self.data@.len(),
    {
        self.data.len() as u32
    }

    /// The byte at `offset`; out of bounds is a device error.
    pub fn read_byte(&self, offset: u32) -> (r: VmResult<u8>)
        ensures
            r is Ok <==> offset < self.data@.len(),
            r matches Ok(v) ==> v == self.data@[offset as int],
            r matches Err(e) ==> e is DeviceError,
            r matches Err(e) ==> e matches VmError::DeviceError { device, offset: o, .. } && device == self.id && o == offset,
    {
        if (offset as usize) < self.data.len() {
            Ok(self.data[offset as usize])
        } else {
            Err(device_error(self.id, offset, "read out of bounds"))
        }
    }

    /// Writes the byte at `offset`; out of bounds is a device error.
    pub fn write_byte(&mut self, offset: u32, value: u8) -> (r: VmResult<()>)
        ensures
            r is Ok <==> offset < old(self).data@.len(),
            r is Ok ==> final(self).data@ == old(self).data@.update(offset as int, value),
            r is Err ==> final(self).data@ == old(self).data@,
            final(self).id == old(self).id,
            r matches Err(e) ==> e is DeviceError,
    {
        if (offset as usize) < self.data.len() {
            self.data.set(offset as usize, value);
            Ok(())
        } else {
            Err(device_error(self.id, offset, "write out of bounds"))
        }
    }

    /// The big-endian half-word at `offset`.
    pub fn read_half(&self, offset: u32) -> (r: VmResult<u16>)
        requires
            self.wf(),
        ensures
            r is Ok <==> offset + 2 <= self.data@.len(),
            r matches Ok(v) ==> v == half_of(self.data@[offset as int], self.data@[offset + 1]),
            r matches Err(e) ==> e is DeviceError,
    {
        let hi = self.read_byte(offset)?;
        let lo = self.read_byte(offset + 1)?;
        Ok(((hi as u16) << 8) | (lo as u16))
    }

    /// The big-endian word at `offset`.
    pub fn read_word(&self, offset: u32) -> (r: VmResult<u32>)
        requires
            self.wf(),
        ensures
            r is Ok <==> offset + 4 <= self.data@.len(),
            r matches Ok(v) ==> v == word_at(self.data@, offset as int),
            r matches Err(e) ==> e is DeviceError,
    {
        let b0 = self.read_byte(offset)?;
        let b1 = self.read_byte(offset + 1)?;
        let b2 = self.read_byte(offset + 2)?;
        let b3 = self.read_byte(offset + 3)?;
        Ok(((b0 as u32) << 24) | ((b1 as u32) << 16) | ((b2 as u32) << 8) | (b3 as u32))
    }

    /// Writes a big-endian half-word at `offset`. On failure the bytes that fit before the
    /// end may have been written.
    pub fn write_half(&mut self, offset: u32, value: u16) -> (r: VmResult<()>)
        requires
            old(self).wf(),
        ensures
            final(self).wf(),
            final(self).data@.len() == old(self).data@.len(),
            final(self).id == old(self).id,
            r is Ok <==> offset + 2 <= old(self).data@.len(),
            r is Ok ==> final(self).data@ == old(self).data@.update(offset as int, (value >> 8) as u8).update(offset + 1, value as u8),
            r matches Err(e) ==> e is DeviceError,
    {
        self.write_byte(offset, (value >> 8) as u8)?;
        self.write_byte(offset + 1, value as u8)
    }

    /// Writes a big-endian word at `offset`. On failure the bytes that fit before the end
    /// may have been written.
    pub fn write_word(&mut self, offset: u32, value: u32) -> (r: VmResult<()>)
        requires
            old(self).wf(),
        ensures
            final(self).wf(),
            final(self).data@.len() == old(self).data@.len(),
            final(self).id == old(self).id,
            r is Ok <==> offset + 4 <= old(self).data@.len(),
            r is Ok ==> final(self).data@ == old(self).data@.update(offset as int, (value >> 24) as u8).update(
                offset + 1,
                (value >> 16) as u8,
            ).update(offset + 2, (value >> 8) as u8).update(offset + 3, value as u8),
            r matches Err(e) ==> e is DeviceError,
            final(self).data@ == partly_stored(old(self).data@, offset as int, 4, value),
    {
        let ghost d0 = self.data@;
        let r0 = self.write_byte(offset, (value >> 24) as u8);
        if r0.is_err() {
            assert(self.data@ =~= partly_stored(d0, offset as int, 4, value));
            return r0;
        }
        let r1 = self.write_byte(offset + 1, (value >> 16) as u8);
        if r1.is_err() {
            assert(self.data@ =~= partly_stored(d0, offset as int, 4, value));
            return r1;
        }
        let r2 = self.write_byte(offset + 2, (value >> 8) as u8);
        if r2.is_err() {
            assert(self.data@ =~= partly_stored(d0, offset as int, 4, value));
            return r2;
        }
        let r3 = self.write_byte(offset + 3, value as u8);
        assert(self.data@ =~= partly_stored(d0, offset as int, 4, value));
        r3
    }

    /// Copies `bytes` in at `offset`; a range past the end is a device error and changes
    /// nothing.
    pub fn load_bytes(&mut self, offset: u32, bytes: &[u8]) -> (r: VmResult<()>)
        ensures
            r is Ok <==> offset + bytes@.len() <= old(self).data@.len(),
            r is Ok ==> final(self).data@ == old(self).data@.subrange(0, offset as int) + bytes@
                + old(self).data@.subrange(offset + bytes@.len(), old(self).data@.len() as int),
            r is Err ==> final(self).data@ == old(self).data@,
            final(self).id == old(self).id,
            r matches Err(e) ==> e matches VmError::DeviceError { device, offset: o, .. } && device == old(self).id && o == offset,
    {
        let len = self.data.len();
        if bytes.len() > len || (offset as usize) > len - bytes.len() {
            return Err(device_error(self.id, offset, "load_bytes out of bounds"));
        }
        let start = offset as usize;
        let mut i: usize = 0;
        while i < bytes.len()
            invariant
                0 <= i <= bytes@.len(),
                start + bytes@.len() <= len,
                len == old(self).data@.len(),
                self.data@.len() == len,
                self.id == old(self).id,
                forall|j: int| 0 <= j < start ==> self.data@[j] == old(self).data@[j],
                forall|j: int| start + bytes@.len() <= j < len ==> self.data@[j] == old(self).data@[j],
                forall|j: int| 0 <= j < i ==> self.data@[start + j] == bytes@[j],
                forall|j: int| start + i <= j < start + bytes@.len() ==> self.data@[j] == old(self).data@[j],
            decreases bytes@.len() - i,
        {
            self.data.set(start + i, bytes[i]);
            i = i + 1;
        }
        assert(self.data@ =~= old(self).data@.subrange(0, offset as int) + bytes@ + old(self).data@.subrange(
            offset + bytes@.len(),
            old(self).data@.len() as int,
        ));
        Ok(())
    }
}

/// A RAM device placed in the physical address space.
#[derive(Debug)]
pub struct PhysicalRegion {
    pub phys_base: u32,
    pub ram: Ram,
}

/// What the loader is told about a physical region.
#[derive(Clone, Copy, Debug)]
pub struct PhysicalRegionInfo {
    pub phys_base: u32,
    pub size: u32,
    pub id: [u8; 8],
}

/// A page table entry: which device, where in it the page starts, and the permissions.
#[derive(Clone, Copy, Debug)]
pub struct PageEntry {
    pub device: usize,
    pub device_page_base: u32,
    pub permissions: u8,
}

fn page_key_exec(context: u32, page: u32) -> (k: u64)
    ensures
        k == page_key(context, page),
{
    (context as u64) * 0x1_0000_0000 + page as u64
}

/// Permission bit an access needs.
pub open spec fn perm_bit(a: Access) -> u8 {
    match a {
        Access::Read => PERM_READ,
        Access::Write => PERM_WRITE,
        Access::Execute => PERM_EXECUTE,
    }
}

/// The memory system: physical RAM devices, the page tables of all contexts, and the
/// context whose tables translate addresses.
#[derive(Debug)]
pub struct Bus {
    pub physical: Vec<PhysicalRegion>,
    pub pages: HashMap<u64, PageEntry>,
    pub current_context: u32,
}

/// Physical regions lie one after another from address 0 and fit the 32-bit space.
pub open spec fn regions_wf(p: Seq<PhysicalRegion>) -> bool {
    &&& forall|i: int| 0 <= i < p.len() ==> (#[trigger] p[i]).ram.wf() && p[i].phys_base + p[i].ram.data@.len() <= u32::MAX
}

impl Bus {
    /// Regions fit the address space and page entries name existing devices.
    pub open spec fn wf(&self) -> bool {
        &&& regions_wf(self.physical@)
        &&& forall|k: u64| #[trigger] self.pages@.contains_key(k) ==> self.pages@[k].device < self.physical@.len()
    }

    /// The page entry translating `addr` in the current context.
    pub open spec fn entry_of(&self, addr: u32) -> Option<PageEntry> {
        let k = page_key(self.current_context, addr >> 12);
        if self.pages@.contains_key(k) {
            Some(self.pages@[k])
        } else {
            None
        }
    }

    /// Device and offset `addr` translates to in the current context.
    pub open spec fn target(&self, addr: u32) -> (usize, int) {
        let e = self.entry_of(addr)->0;
        (e.device, e.device_page_base + (addr & 0xFFF))
    }

    /// Whether an access of kind `a` to `addr` is allowed and lands inside its device.
    pub open spec fn accessible(&self, addr: u32, a: Access) -> bool {
        &&& self.entry_of(addr) is Some
        &&& self.entry_of(addr)->0.permissions & perm_bit(a) != 0
        &&& self.target(addr).0 < self.physical@.len()
        &&& self.target(addr).1 < self.physical@[self.target(addr).0 as int].ram.data@.len()
    }

    /// The byte at `addr` (meaningful when accessible).
    pub open spec fn byte_at(&self, addr: u32) -> u8 {
        self.physical@[self.target(addr).0 as int].ram.data@[self.target(addr).1]
    }

    /// A bus with no pages mapped in any context, over the given RAM devices placed one
    /// after another from physical address 0. A device that no longer fits the 32-bit
    /// physical space is an error when its flag says so, and is left out otherwise.
    pub fn new(devices: Vec<(Ram, bool)>) -> (r: VmResult<Self>)
        requires
            forall|i: int| 0 <= i < devices@.len() ==> (#[trigger] devices@[i]).0.wf(),
        ensures
            r matches Ok(b) ==> b.wf() && b.pages@.len() == 0 && b.current_context == 0,
            r matches Ok(b) ==> b.physical@.len() <= devices@.len(),
            r matches Ok(b) ==> (devices@.len() > 0 ==> b.physical@.len() > 0
                && b.physical@[0].phys_base == 0 && b.physical@[0].ram == devices@[0].0),
            r matches Err(e) ==> e is Layout,
            (forall|i: int| 0 <= i < devices@.len() ==> (#[trigger] devices@[i]).1) ==> ((r is Ok <==> prefix_size(
                devices@,
                devices@.len() as int,
            ) <= u32::MAX) && (r matches Ok(b) ==> b.physical@.len() == devices@.len() && forall|i: int|
                0 <= i < devices@.len() ==> (#[trigger] b.physical@[i]).ram == devices@[i].0 && b.physical@[i].phys_base
                    == prefix_size(devices@, i))),
            match placed_regions(devices@, 0, 0, seq![]) {
                Some(p) => r matches Ok(b) && b.physical@ == p,
                None => r is Err,
            },
    {
        let ghost all = devices@;
        let ghost all_ff = forall|i: int| 0 <= i < all.len() ==> (#[trigger] all[i]).1;
        let mut pending = devices;
        let mut rev: Vec<(Ram, bool)> = Vec::new();
        while pending.len() > 0
            invariant
                pending@.len() + rev@.len() == all.len(),
                pending@ == all.subrange(0, pending@.len() as int),
                forall|j: int| 0 <= j < rev@.len() ==> #[trigger] rev@[j] == all[all.len() - 1 - j],
            decreases pending@.len(),
        {
            let d = pending.pop().unwrap();
            rev.push(d);
            assert(pending@ =~= all.subrange(0, pending@.len() as int));
        }
        let mut physical: Vec<PhysicalRegion> = Vec::new();
        let mut cursor: u32 = 0;
        while rev.len() > 0
            invariant
                regions_wf(physical@),
                all == devices@,
                physical@.len() + rev@.len() <= all.len(),
                forall|j: int| 0 <= j < rev@.len() ==> #[trigger] rev@[j] == all[all.len() - 1 - j],
                forall|j: int| 0 <= j < all.len() ==> (#[trigger] all[j]).0.wf(),
                physical@.len() == 0 ==> cursor == 0 && rev@.len() == all.len(),
                all.len() > 0 && physical@.len() > 0 ==> physical@[0].phys_base == 0 && physical@[0].ram == all[0].0,
                all_ff == forall|i: int| 0 <= i < all.len() ==> (#[trigger] all[i]).1,
                all_ff ==> physical@.len() == all.len() - rev@.len() && cursor == prefix_size(all, physical@.len() as int),
                all_ff ==> forall|j: int| 0 <= j < physical@.len() ==> (#[trigger] physical@[j]).ram == all[j].0
                    && physical@[j].phys_base == prefix_size(all, j),
                placed_regions(all, 0, 0, seq![]) == placed_regions(all, all.len() - rev@.len(), cursor as int, physical@),
            decreases rev@.len(),
        {
            let ghost before = physical@.len();
            let ghost idx = all.len() - rev@.len();
            let (ram, fail_fast) = rev.pop().unwrap();
            assert((ram, fail_fast) == all[idx]);
            let size = ram.size();
            if size as u64 + cursor as u64 <= 0xFFFF_FFFFu64 {
                physical.push(PhysicalRegion { phys_base: cursor, ram });
                cursor = cursor + size;
            } else if fail_fast {
                proof {
                    if all_ff {
                        assert(prefix_size(all, idx + 1) == prefix_size(all, idx) + all[idx].0.data@.len());
                        assert(prefix_size(all, idx + 1) > u32::MAX);
                        lemma_prefix_grows(all, idx + 1, all.len() as int);
                    }
                    assert(all_ff ==> prefix_size(all, all.len() as int) > u32::MAX);
                    assert(!all_ff ==> !(forall|i: int| 0 <= i < all.len() ==> (#[trigger] all[i]).1));
                }
                return Err(VmError::Layout(owned("physical address space overflow while mapping a device")));
            } else {
                assert(!all_ff);
            }
        }
        Ok(Bus { physical, pages: HashMap::new(), current_context: 0 })
    }
}

/// The regions the devices from `i` on get, placed one after another from physical
/// address `cursor` after the regions `placed`: a device that no longer fits the 32-bit
/// space fails the whole placement when its flag is set and is skipped otherwise.
pub open spec fn placed_regions(devs: Seq<(Ram, bool)>, i: int, cursor: int, placed: Seq<PhysicalRegion>) -> Option<Seq<PhysicalRegion>>
    decreases devs.len() - i,
{
    if i < 0 || i >= devs.len() {
        Some(placed)
    } else if cursor + devs[i].0.data@.len() <= u32::MAX {
        placed_regions(devs, i + 1, cursor + devs[i].0.data@.len(),
            placed.push(PhysicalRegion { phys_base: cursor as u32, ram: devs[i].0 }))
    } else if devs[i].1 {
        None
    } else {
        placed_regions(devs, i + 1, cursor, placed)
    }
}

/// Devices that fit the 32-bit physical space together are all placed, whatever their
/// flags, in their order, one after another from address 0: device `k` starts where the
/// devices before it end.
pub proof fn law_devices_placed_in_order(devs: Seq<(Ram, bool)>)
    requires
        prefix_size(devs, devs.len() as int) <= u32::MAX,
    ensures
        placed_regions(devs, 0, 0, seq![]) matches Some(p) && p.len() == devs.len()
            && forall|k: int| 0 <= k < devs.len() ==> (#[trigger] p[k]).ram == devs[k].0 && p[k].phys_base == prefix_size(devs, k),
{
    lemma_placed_from(devs, 0, seq![]);
}

proof fn lemma_placed_from(devs: Seq<(Ram, bool)>, i: int, placed: Seq<PhysicalRegion>)
    requires
        0 <= i <= devs.len(),
        prefix_size(devs, devs.len() as int) <= u32::MAX,
        placed.len() == i,
        forall|k: int| 0 <= k < i ==> (#[trigger] placed[k]).ram == devs[k].0 && placed[k].phys_base == prefix_size(devs, k),
    ensures
        placed_regions(devs, i, prefix_size(devs, i), placed) matches Some(p) && p.len() == devs.len()
            && forall|k: int| 0 <= k < devs.len() ==> (#[trigger] p[k]).ram == devs[k].0 && p[k].phys_base == prefix_size(devs, k),
    decreases devs.len() - i,
{
    if i < devs.len() {
        lemma_prefix_grows(devs, i + 1, devs.len() as int);
        lemma_prefix_grows(devs, i, i + 1);
        lemma_prefix_grows(devs, 0, i);
        let next = placed.push(PhysicalRegion { phys_base: prefix_size(devs, i) as u32, ram: devs[i].0 });
        assert forall|k: int| 0 <= k < i + 1 implies (#[trigger] next[k]).ram == devs[k].0 && next[k].phys_base == prefix_size(devs, k) by {
            if k < i {
                assert(next[k] == placed[k]);
            }
        }
        lemma_placed_from(devs, i + 1, next);
    } else {
        assert(placed_regions(devs, i, prefix_size(devs, i), placed) == Some(placed));
    }
}

/// Total size of the first `i` devices.
pub open spec fn prefix_size(d: Seq<(Ram, bool)>, i: int) -> int
    decreases i,
{
    if i <= 0 {
        0
    } else {
        prefix_size(d, i - 1) + d[i - 1].0.data@.len()
    }
}

proof fn lemma_prefix_grows(d: Seq<(Ram, bool)>, i: int, j: int)
    requires
        0 <= i <= j,
    ensures
        prefix_size(d, i) <= prefix_size(d, j),
    decreases j - i,
{
    if i < j {
        lemma_prefix_grows(d, i, j - 1);
    }
}

/// The region containing physical address `addr`, searching from region `i`, with the
/// offset inside it.
pub open spec fn resolve_from(p: Seq<PhysicalRegion>, addr: u32, i: int) -> Option<(usize, u32)>
    decreases p.len() - i,
{
    if i < 0 || i >= p.len() {
        None
    } else if p[i].phys_base <= addr < p[i].phys_base + p[i].ram.data@.len() {
        Some((i as usize, (addr - p[i].phys_base) as u32))
    } else {
        resolve_from(p, addr, i + 1)
    }
}

/// Bus `b` is bus `a` with the bytes of device `d` replaced by `data`.
pub open spec fn same_but_device(a: Bus, b: Bus, d: int, data: Seq<u8>) -> bool {
    &&& b.pages@ == a.pages@
    &&& b.current_context == a.current_context
    &&& b.physical@.len() == a.physical@.len()
    &&& forall|i: int| 0 <= i < a.physical@.len() && i != d ==> #[trigger] b.physical@[i] == a.physical@[i]
    &&& b.physical@[d].phys_base == a.physical@[d].phys_base
    &&& b.physical@[d].ram.id == a.physical@[d].ram.id
    &&& b.physical@[d].ram.data@ == data
}

/// Page `virt_page + i` of `context` maps the device page at physical page `phys_page + i`
/// with `permissions`.
pub open spec fn page_mapped(a: Bus, b: Bus, context: u32, virt_page: u32, phys_page: u32, permissions: u8, i: int) -> bool {
    let k = page_key(context, (virt_page + i) as u32);
    let r = resolve_from(a.physical@, ((phys_page + i) * 4096) as u32, 0);
    let (dd, bb) = r->0;
    &&& b.pages@.contains_key(k)
    &&& r is Some
    &&& b.pages@[k].device == dd
    &&& b.pages@[k].device_page_base == bb
    &&& b.pages@[k].permissions == permissions
}

/// Whether key `k` is one of the keys of `count` pages from `virt_page` in `context`.
pub open spec fn in_range(k: u64, context: u32, virt_page: u32, count: u32) -> bool {
    page_key(context, virt_page) <= k < page_key(context, virt_page) + count
}

/// Pages `virt_page .. virt_page + count` of `context` map the physical pages from
/// `phys_page` with `permissions`; other pages are unchanged.
pub open spec fn mapped(a: Bus, b: Bus, context: u32, virt_page: u32, phys_page: u32, count: u32, permissions: u8) -> bool {
    &&& b.physical == a.physical
    &&& b.current_context == a.current_context
    &&& forall|i: int| 0 <= i < count ==> #[trigger] page_mapped(a, b, context, virt_page, phys_page, permissions, i)
    &&& forall|k: u64|
        !in_range(k, context, virt_page, count) ==> (#[trigger] b.pages@.contains_key(k)
            == a.pages@.contains_key(k) && (a.pages@.contains_key(k) ==> b.pages@[k] == a.pages@[k]))
}

/// The byte at physical address `addr`, if a device holds it.
pub open spec fn phys_byte(b: Bus, addr: u32) -> Option<u8> {
    match resolve_from(b.physical@, addr, 0) {
        Some((d, off)) => Some(b.physical@[d as int].ram.data@[off as int]),
        None => None,
    }
}

/// Both buses have the same devices at the same places, with the same sizes.
pub open spec fn same_layout(a: Bus, b: Bus) -> bool {
    &&& b.physical@.len() == a.physical@.len()
    &&& forall|i: int| 0 <= i < a.physical@.len() ==> (#[trigger] b.physical@[i]).phys_base == a.physical@[i].phys_base
        && b.physical@[i].ram.data@.len() == a.physical@[i].ram.data@.len()
}

/// Resolution depends only on where the devices are and how large they are.
pub proof fn lemma_same_layout_resolves(p: Seq<PhysicalRegion>, q: Seq<PhysicalRegion>, addr: u32, i: int)
    requires
        p.len() == q.len(),
        forall|j: int| 0 <= j < p.len() ==> (#[trigger] q[j]).phys_base == p[j].phys_base
            && q[j].ram.data@.len() == p[j].ram.data@.len(),
    ensures
        resolve_from(p, addr, i) == resolve_from(q, addr, i),
    decreases p.len() - i,
{
    if 0 <= i < p.len() {
        lemma_same_layout_resolves(p, q, addr, i + 1);
    }
}

impl Bus {
    /// Selects the context whose page tables translate addresses.
    pub fn set_context(&mut self, context: u32)
        ensures
            final(self).current_context == context,
            final(self).physical == old(self).physical,
            final(self).pages == old(self).pages,
    {
        self.current_context = context;
    }

    /// The context whose page tables translate addresses.
    pub fn current_context(&self) -> (c: u32)
        ensures
            c == self.current_context,
    {
        self.current_context
    }

    /// Base, size and identifier of every physical region, in order.
    pub fn physical_regions(&self) -> (r: Vec<PhysicalRegionInfo>)
        requires
            self.wf(),
        ensures
            r@.len() == self.physical@.len(),
            forall|i: int|
                0 <= i < r@.len() ==> (#[trigger] r@[i]).phys_base == self.physical@[i].phys_base
                    && r@[i].size == self.physical@[i].ram.data@.len() && r@[i].id
                    == self.physical@[i].ram.id,
    {
        let mut out: Vec<PhysicalRegionInfo> = Vec::new();
        let mut i: usize = 0;
        while i < self.physical.len()
            invariant
                0 <= i <= self.physical@.len(),
                self.wf(),
                out@.len() == i,
                forall|j: int|
                    0 <= j < i ==> (#[trigger] out@[j]).phys_base == self.physical@[j].phys_base
                        && out@[j].size == self.physical@[j].ram.data@.len() && out@[j].id
                        == self.physical@[j].ram.id,
            decreases self.physical@.len() - i,
        {
            let region = &self.physical[i];
            assert(region.ram.wf());
            out.push(PhysicalRegionInfo { phys_base: region.phys_base, size: region.ram.size(), id: region.ram.id });
            i = i + 1;
        }
        out
    }

    /// The region holding physical address `addr` and the offset in it.
    pub fn resolve_physical(&self, addr: u32) -> (r: VmResult<(usize, u32)>)
        requires
            self.wf(),
        ensures
            r matches Ok(x) ==> resolve_from(self.physical@, addr, 0) == Some(x),
            r is Err ==> resolve_from(self.physical@, addr, 0) is None,
            r matches Err(e) ==> e is UnmappedPhysicalAddress,
            r matches Err(e) ==> e == (VmError::UnmappedPhysicalAddress { address: addr }),
    {
        let mut i: usize = 0;
        while i < self.physical.len()
            invariant
                0 <= i <= self.physical@.len(),
                self.wf(),
                resolve_from(self.physical@, addr, 0) == resolve_from(self.physical@, addr, i as int),
            decreases self.physical@.len() - i,
        {
            let base = self.physical[i].phys_base;
            assert(self.physical@[i as int].ram.wf());
            let size = self.physical[i].ram.size();
            if base <= addr && (addr as u64) < base as u64 + size as u64 {
                return Ok((i, addr - base));
            }
            i = i + 1;
        }
        Err(VmError::UnmappedPhysicalAddress { address: addr })
    }

    /// Writes a byte at a physical address.
    pub fn write_physical_byte(&mut self, addr: u32, value: u8) -> (r: VmResult<()>)
        requires
            old(self).wf(),
        ensures
            final(self).wf(),
            final(self).pages == old(self).pages,
            final(self).current_context == old(self).current_context,
            final(self).physical@.len() == old(self).physical@.len(),
            r is Ok <==> resolve_from(old(self).physical@, addr, 0) is Some,
            r is Ok ==> ({
                let (d, off) = resolve_from(old(self).physical@, addr, 0)->0;
                same_but_device(*old(self), *final(self), d as int, old(self).physical@[d as int].ram.data@.update(off as int, value))
            }),
            r is Err ==> final(self).physical == old(self).physical,
            r matches Err(e) ==> e == (VmError::UnmappedPhysicalAddress { address: addr }),
    {
        let (d, off) = self.resolve_physical(addr)?;
        let _regions = self.physical.len();
        proof {
            lemma_resolve_bounds(self.physical@, addr, 0);
        }
        let r = self.physical[d].ram.write_byte(off, value);
        r
    }

    /// Writes bytes at consecutive physical addresses from `addr`; stops at the first that
    /// fails. Succeeds when every address fits 32 bits and lies in a device; then those
    /// addresses hold the bytes and no other physical byte changes.
    pub fn write_physical_bytes(&mut self, addr: u32, bytes: &[u8]) -> (r: VmResult<()>)
        requires
            old(self).wf(),
        ensures
            final(self).wf(),
            final(self).pages == old(self).pages,
            final(self).current_context == old(self).current_context,
            final(self).physical@.len() == old(self).physical@.len(),
            same_layout(*old(self), *final(self)),
            r is Ok <==> (bytes@.len() == 0 || addr + bytes@.len() <= 0x1_0000_0000) && forall|k: int|
                0 <= k < bytes@.len() ==> #[trigger] resolve_from(old(self).physical@, (addr + k) as u32, 0) is Some,
            r is Ok ==> forall|k: int| 0 <= k < bytes@.len() ==> #[trigger] phys_byte(*final(self), (addr + k) as u32) == Some(bytes@[k]),
            r is Ok ==> forall|a: u32| !(addr <= a < addr + bytes@.len()) ==> #[trigger] phys_byte(*final(self), a) == phys_byte(*old(self), a),
            r matches Err(e) ==> exists|k: int| #[trigger] bytes_stopped(*old(self), *final(self), addr, bytes@, k, e),
    {
        let ghost start = *self;
        let mut i: usize = 0;
        while i < bytes.len()
            invariant
                0 <= i <= bytes@.len(),
                start == *old(self),
                self.wf(),
                self.pages == old(self).pages,
                self.current_context == old(self).current_context,
                self.physical@.len() == old(self).physical@.len(),
                same_layout(start, *self),
                i > 0 ==> addr + i <= 0x1_0000_0000,
                forall|k: int| 0 <= k < i ==> #[trigger] resolve_from(start.physical@, (addr + k) as u32, 0) is Some,
                forall|k: int| 0 <= k < i ==> #[trigger] phys_byte(*self, (addr + k) as u32) == Some(bytes@[k]),
                forall|a: u32| !(addr <= a < addr + i) ==> #[trigger] phys_byte(*self, a) == phys_byte(start, a),
            decreases bytes@.len() - i,
        {
            if i > 0xFFFF_FFFF || (addr as u64) + (i as u64) > 0xFFFF_FFFFu64 {
                assert(bytes_stopped(start, *self, addr, bytes@, i as int, VmError::AddressOverflow));
                return Err(VmError::AddressOverflow);
            }
            let a = addr + i as u32;
            let ghost prev = *self;
            let _n = self.physical.len();
            proof {
                lemma_same_layout_resolves(start.physical@, prev.physical@, a, 0);
                lemma_resolve_bounds(prev.physical@, a, 0);
            }
            let w = self.write_physical_byte(a, bytes[i]);
            if w.is_err() {
                proof {
                    assert(bytes_stopped(start, *self, addr, bytes@, i as int, w->Err_0));
                }
                return w;
            }
            proof {
                let (d, off) = resolve_from(prev.physical@, a, 0)->0;
                assert forall|j: int| 0 <= j < prev.physical@.len() implies (#[trigger] self.physical@[j]).phys_base
                    == prev.physical@[j].phys_base && self.physical@[j].ram.data@.len() == prev.physical@[j].ram.data@.len() by {
                    if j != d {
                        assert(self.physical@[j] == prev.physical@[j]);
                    }
                }
                lemma_same_layout_resolves(prev.physical@, self.physical@, a, 0);
                assert(same_layout(start, *self)) by {
                    assert forall|j: int| 0 <= j < self.physical@.len() implies self.physical@[j].phys_base
                        == start.physical@[j].phys_base && self.physical@[j].ram.data@.len() == start.physical@[j].ram.data@.len() by {
                        assert(prev.physical@[j].phys_base == start.physical@[j].phys_base);
                    }
                }
                assert forall|b: u32| b != a implies #[trigger] phys_byte(*self, b) == phys_byte(prev, b) by {
                    lemma_same_layout_resolves(prev.physical@, self.physical@, b, 0);
                    lemma_resolve_bounds(prev.physical@, b, 0);
                    if resolve_from(prev.physical@, b, 0) is Some {
                        let (db, ob) = resolve_from(prev.physical@, b, 0)->0;
                        if db != d {
                            assert(self.physical@[db as int] == prev.physical@[db as int]);
                        }
                    }
                }
                assert forall|k: int| 0 <= k < i + 1 implies #[trigger] phys_byte(*self, (addr + k) as u32) == Some(bytes@[k]) by {
                    if k < i {
                        assert((addr + k) as u32 != a);
                        assert(phys_byte(prev, (addr + k) as u32) == Some(bytes@[k]));
                    }
                }
                assert forall|k: int| 0 <= k < i + 1 implies #[trigger] resolve_from(start.physical@, (addr + k) as u32, 0) is Some by {
                    if k == i {
                        assert((addr + k) as u32 == a);
                    }
                }
                assert forall|b: u32| !(addr <= b < addr + i + 1) implies #[trigger] phys_byte(*self, b) == phys_byte(start, b) by {
                    assert(phys_byte(prev, b) == phys_byte(start, b));
                }
            }
            i = i + 1;
        }
        Ok(())
    }

    /// The byte at a physical address.
    pub fn read_physical_byte(&self, addr: u32) -> (r: VmResult<u8>)
        requires
            self.wf(),
        ensures
            r is Ok <==> resolve_from(self.physical@, addr, 0) is Some,
            r matches Ok(v) ==> ({
                let (d, off) = resolve_from(self.physical@, addr, 0)->0;
                v == self.physical@[d as int].ram.data@[off as int]
            }),
    {
        let (d, off) = self.resolve_physical(addr)?;
        let _regions = self.physical.len();
        proof {
            lemma_resolve_bounds(self.physical@, addr, 0);
        }
        self.physical[d].ram.read_byte(off)
    }

    /// The big-endian word at a physical address (read within its device).
    pub fn read_physical_u32(&self, addr: u32) -> (r: VmResult<u32>)
        requires
            self.wf(),
        ensures
            r matches Ok(v) ==> ({
                let (d, off) = resolve_from(self.physical@, addr, 0)->0;
                resolve_from(self.physical@, addr, 0) is Some && v == word_at(self.physical@[d as int].ram.data@, off as int)
            }),
            r is Ok <==> (resolve_from(self.physical@, addr, 0) matches Some((d, off))
                && off + 4 <= self.physical@[d as int].ram.data@.len()),
            r matches Err(e) ==> e is UnmappedPhysicalAddress || e is DeviceError,
    {
        let (d, off) = self.resolve_physical(addr)?;
        let _regions = self.physical.len();
        proof {
            lemma_resolve_bounds(self.physical@, addr, 0);
        }
        self.physical[d].ram.read_word(off)
    }

    /// Writes a big-endian word at a physical address (within its device).
    pub fn write_physical_u32(&mut self, addr: u32, value: u32) -> (r: VmResult<()>)
        requires
            old(self).wf(),
        ensures
            final(self).wf(),
            final(self).pages == old(self).pages,
            final(self).current_context == old(self).current_context,
            final(self).physical@.len() == old(self).physical@.len(),
            match resolve_from(old(self).physical@, addr, 0) {
                None => r is Err && final(self).physical == old(self).physical,
                Some((d, off)) => same_but_device(*old(self), *final(self), d as int,
                    partly_stored(old(self).physical@[d as int].ram.data@, off as int, 4, value))
                    && (r is Ok <==> off + 4 <= old(self).physical@[d as int].ram.data@.len()),
            },
            r matches Err(e) ==> e is UnmappedPhysicalAddress || e is DeviceError,
    {
        let (d, off) = self.resolve_physical(addr)?;
        let _regions = self.physical.len();
        proof {
            lemma_resolve_bounds(self.physical@, addr, 0);
        }
        self.physical[d].ram.write_word(off, value)
    }
}

/// A region found by resolution exists and holds the address.
pub proof fn lemma_resolve_bounds(p: Seq<PhysicalRegion>, addr: u32, i: int)
    requires
        regions_wf(p),
        0 <= i,
        p.len() <= usize::MAX,
    ensures
        resolve_from(p, addr, i) matches Some((d, off)) ==> d < p.len() && off < p[d as int].ram.data@.len()
            && p[d as int].phys_base + off == addr,
    decreases p.len() - i,
{
    if i < p.len() {
        lemma_resolve_bounds(p, addr, i + 1);
    }
}

/// Whether mapping `count` pages from `virt_page` to the physical pages from `phys_page`
/// succeeds: the virtual pages stay inside the space and every physical page number is
/// below 2^20 and starts inside a device.
pub open spec fn mmap_ok(b: Bus, virt_page: u32, phys_page: u32, count: u32) -> bool {
    &&& virt_page + count <= 0x1_0000_0000
    &&& forall|i: int| 0 <= i < count ==> phys_page + i < 0x10_0000 && #[trigger] resolve_from(
        b.physical@,
        ((phys_page + i) * 4096) as u32,
        0,
    ) is Some
}

/// Whether pages `virt_page .. virt_page + count` of `context` all lie in the address space
/// and are mapped in `b`.
pub open spec fn all_mapped(b: Bus, context: u32, virt_page: u32, count: u32) -> bool {
    &&& virt_page + count <= 0x1_0000_0000
    &&& forall|i: int| 0 <= i < count ==> #[trigger] b.pages@.contains_key(page_key(context, (virt_page + i) as u32))
}

/// Pages `virt_page .. virt_page + count` of `context` are unmapped in `b`; other pages
/// are as in `a`.
pub open spec fn unmapped(a: Bus, b: Bus, context: u32, virt_page: u32, count: u32) -> bool {
    &&& b.physical == a.physical
    &&& forall|i: int| 0 <= i < count ==> !(#[trigger] b.pages@.contains_key(page_key(context, (virt_page + i) as u32)))
    &&& forall|k: u64| !in_range(k, context, virt_page, count) ==> (#[trigger] b.pages@.contains_key(k)
        == a.pages@.contains_key(k) && (a.pages@.contains_key(k) ==> b.pages@[k] == a.pages@[k]))
}

/// Unmapping the pages just mapped leaves them unmapped and every other page as it was
/// before the mapping.
pub proof fn law_munmap_undoes_mmap(a: Bus, b: Bus, c: Bus, context: u32, virt_page: u32, phys_page: u32, count: u32, permissions: u8)
    requires
        mapped(a, b, context, virt_page, phys_page, count, permissions),
        unmapped(b, c, context, virt_page, count),
    ensures
        forall|i: int| 0 <= i < count ==> !(#[trigger] c.pages@.contains_key(page_key(context, (virt_page + i) as u32))),
        forall|k: u64| !in_range(k, context, virt_page, count) ==> (#[trigger] c.pages@.contains_key(k)
            == a.pages@.contains_key(k) && (a.pages@.contains_key(k) ==> c.pages@[k] == a.pages@[k])),
        c.physical == a.physical,
{
    assert(mapped(a, b, context, virt_page, phys_page, count, permissions));
    assert(forall|k: u64| !in_range(k, context, virt_page, count) ==> (#[trigger] b.pages@.contains_key(k)
            == a.pages@.contains_key(k) && (a.pages@.contains_key(k) ==> b.pages@[k] == a.pages@[k])));
}

/// Page `virt_page + i` of `context` is mapped in both buses, to the same device page, and
/// has `permissions` in `b`.
pub open spec fn protected(a: Bus, b: Bus, context: u32, virt_page: u32, permissions: u8, i: int) -> bool {
    let k = page_key(context, (virt_page + i) as u32);
    &&& b.pages@.contains_key(k) && a.pages@.contains_key(k)
    &&& b.pages@[k].permissions == permissions
    &&& b.pages@[k].device == a.pages@[k].device
    &&& b.pages@[k].device_page_base == a.pages@[k].device_page_base
}

/// Pages `virt_page .. virt_page + count` of `context` have `permissions` in `b` and are
/// otherwise as in `a`; other pages are as in `a`.
pub open spec fn reprotected_upto(a: Bus, b: Bus, context: u32, virt_page: u32, permissions: u8, count: u32) -> bool {
    &&& b.physical == a.physical
    &&& forall|i: int| 0 <= i < count ==> #[trigger] protected(a, b, context, virt_page, permissions, i)
    &&& forall|k: u64| !in_range(k, context, virt_page, count) ==> (#[trigger] b.pages@.contains_key(k)
        == a.pages@.contains_key(k) && (a.pages@.contains_key(k) ==> b.pages@[k] == a.pages@[k]))
}

/// Page `virt_page + f` is the first of `count` pages of `context` from `virt_page` that
/// `a` does not map.
pub open spec fn first_unmapped(a: Bus, context: u32, virt_page: u32, count: u32, f: u32) -> bool {
    &&& f < count
    &&& !a.pages@.contains_key(page_key(context, (virt_page + f) as u32))
    &&& forall|m: int| 0 <= m < f ==> #[trigger] a.pages@.contains_key(page_key(context, (virt_page + m) as u32))
}

/// The error of a page operation on `count` pages of `context` from `virt_page` that met an
/// unmapped page: a range past the end of the space is a layout error; otherwise the first
/// unmapped page's address (a layout error when that address does not fit 32 bits).
pub open spec fn unmapped_error(a: Bus, context: u32, virt_page: u32, count: u32, e: VmError) -> bool {
    if virt_page + count > 0x1_0000_0000 {
        e is Layout
    } else {
        exists|f: u32| #[trigger] first_unmapped(a, context, virt_page, count, f) && if (virt_page + f) * 4096 <= u32::MAX {
            e == VmError::UnmappedAddress { context, address: ((virt_page + f) * 4096) as u32 }
        } else {
            e is Layout
        }
    }
}

/// A failed unmapping of `count` pages of `context` from `virt_page`: a range past the end
/// of the space changes nothing; otherwise the pages before the first unmapped one are
/// unmapped and nothing else changes.
pub open spec fn munmap_stopped(a: Bus, b: Bus, context: u32, virt_page: u32, count: u32) -> bool {
    if virt_page + count > 0x1_0000_0000 {
        b.pages@ == a.pages@
    } else {
        exists|f: u32| first_unmapped(a, context, virt_page, count, f) && #[trigger] unmapped(a, b, context, virt_page, f)
    }
}

/// A failed change of permissions of `count` pages of `context` from `virt_page`: a range
/// past the end of the space changes nothing; otherwise the pages before the first
/// unmapped one get the permissions and nothing else changes.
pub open spec fn mprotect_stopped(a: Bus, b: Bus, context: u32, virt_page: u32, count: u32, permissions: u8) -> bool {
    if virt_page + count > 0x1_0000_0000 {
        b.pages@ == a.pages@
    } else {
        exists|f: u32| first_unmapped(a, context, virt_page, count, f) && #[trigger] reprotected_upto(a, b, context, virt_page, permissions, f)
    }
}

/// A write of `bytes` at physical addresses from `addr` that stopped at index `k`: address
/// `addr + k` passes the 32-bit space (an address overflow) or lies in no device (an
/// unmapped physical address); the bytes before it are written and nothing else changed.
pub open spec fn bytes_stopped(a: Bus, b: Bus, addr: u32, bytes: Seq<u8>, k: int, e: VmError) -> bool {
    &&& 0 <= k < bytes.len()
    &&& if addr + k > u32::MAX {
        e == VmError::AddressOverflow
    } else {
        resolve_from(a.physical@, (addr + k) as u32, 0) is None && e == VmError::UnmappedPhysicalAddress { address: (addr + k) as u32 }
    }
    &&& forall|j: int| 0 <= j < k ==> #[trigger] resolve_from(a.physical@, (addr + j) as u32, 0) is Some
    &&& forall|j: int| 0 <= j < k ==> #[trigger] phys_byte(b, (addr + j) as u32) == Some(bytes[j])
    &&& forall|x: u32| !(addr <= x < addr + k) ==> #[trigger] phys_byte(b, x) == phys_byte(a, x)
}

impl Bus {
    /// Maps `page_count` pages of `context` from virtual page `virt_page` to the physical
    /// pages from `phys_page`, with `permissions`. Every physical page must lie in a device
    /// and the page numbers must not pass the end of the space; otherwise nothing changes.
    #[verifier::spinoff_prover]
    pub fn mmap(&mut self, context: u32, virt_page: u32, phys_page: u32, page_count: u32, permissions: u8) -> (r: VmResult<()>)
        requires
            old(self).wf(),
        ensures
            final(self).wf(),
            r is Ok <==> mmap_ok(*old(self), virt_page, phys_page, page_count),
            r is Ok ==> mapped(*old(self), *final(self), context, virt_page, phys_page, page_count, permissions),
            r is Err ==> final(self).pages@ == old(self).pages@ && final(self).physical == old(self).physical
                && final(self).current_context == old(self).current_context,
            r matches Err(e) ==> e is Layout || e is UnmappedPhysicalAddress,
    {
        if virt_page as u64 + page_count as u64 > 0x1_0000_0000u64 {
            return Err(VmError::Layout(owned("MMAP: virtual page range passes the end of the address space")));
        }
        let mut resolved: Vec<(usize, u32)> = Vec::new();
        let mut i: u32 = 0;
        let _regions = self.physical.len();
        while i < page_count
            invariant
                0 <= i <= page_count,
                self.wf(),
                _regions == self.physical@.len(),
                resolved@.len() == i,
                virt_page + page_count <= 0x1_0000_0000,
                i > 0 ==> phys_page + i - 1 < 0x10_0000,
                forall|j: int| 0 <= j < i ==> Some(#[trigger] resolved@[j]) == resolve_from(self.physical@, ((phys_page + j) * 4096) as u32, 0),
            decreases page_count - i,
        {
            if phys_page as u64 + i as u64 >= 0x10_0000u64 {
                return Err(VmError::Layout(owned("MMAP: physical page address overflow")));
            }
            let addr: u32 = (phys_page + i) * PAGE_SIZE;
            let x = match self.resolve_physical(addr) {
                Ok(x) => x,
                Err(e) => {
                    assert(resolve_from(self.physical@, ((phys_page + i) * 4096) as u32, 0) is None);
                    return Err(e);
                },
            };
            resolved.push(x);
            i = i + 1;
        }
        let ghost before = *self;
        assert(mmap_ok(before, virt_page, phys_page, page_count)) by {
            assert forall|m: int| 0 <= m < page_count implies phys_page + m < 0x10_0000 && #[trigger] resolve_from(
                before.physical@,
                ((phys_page + m) * 4096) as u32,
                0,
            ) is Some by {
                assert(Some(resolved@[m]) == resolve_from(before.physical@, ((phys_page + m) * 4096) as u32, 0));
            }
        }
        let mut j: u32 = 0;
        while j < page_count
            invariant
                0 <= j <= page_count,
                mmap_ok(before, virt_page, phys_page, page_count),
                before.physical == old(self).physical,
                virt_page + page_count <= 0x1_0000_0000,
                resolved@.len() == page_count,
                before.wf(),
                self.physical == before.physical,
                self.current_context == before.current_context,
                _regions == self.physical@.len(),
                forall|m: int| 0 <= m < page_count ==> Some(#[trigger] resolved@[m]) == resolve_from(before.physical@, ((phys_page + m) * 4096) as u32, 0),
                forall|m: int| 0 <= m < j ==> #[trigger] page_mapped(before, *self, context, virt_page, phys_page, permissions, m),
                forall|k: u64| !in_range(k, context, virt_page, j) ==> (#[trigger] self.pages@.contains_key(k)
                    == before.pages@.contains_key(k) && (before.pages@.contains_key(k) ==> self.pages@[k] == before.pages@[k])),
                forall|k: u64| #[trigger] self.pages@.contains_key(k) ==> self.pages@[k].device < self.physical@.len(),
            decreases page_count - j,
        {
            let (d, base) = resolved[j as usize];
            proof {
                lemma_resolve_bounds(before.physical@, ((phys_page + j) * 4096) as u32, 0);
            }
            let key = page_key_exec(context, virt_page + j);
            let ghost prev = *self;
            self.pages.insert(key, PageEntry { device: d, device_page_base: base, permissions });
            proof {
                assert forall|m: int| 0 <= m < j + 1 implies #[trigger] page_mapped(before, *self, context, virt_page, phys_page, permissions, m) by {
                    if m < j {
                        assert(page_mapped(before, prev, context, virt_page, phys_page, permissions, m));
                        assert(page_key(context, (virt_page + m) as u32) != key);
                    } else {
                        assert(Some(resolved@[m]) == resolve_from(before.physical@, ((phys_page + m) * 4096) as u32, 0));
                    }
                }
                assert forall|k: u64| !in_range(k, context, virt_page, (j + 1) as u32) implies (#[trigger] self.pages@.contains_key(k)
                    == before.pages@.contains_key(k) && (before.pages@.contains_key(k) ==> self.pages@[k] == before.pages@[k])) by {
                    assert(key == page_key(context, virt_page) + j);
                    assert(k != key);
                    assert(!in_range(k, context, virt_page, j));
                    assert(prev.pages@.contains_key(k) == before.pages@.contains_key(k) && (before.pages@.contains_key(k)
                        ==> prev.pages@[k] == before.pages@[k]));
                    assert(self.pages@.contains_key(k) == prev.pages@.contains_key(k));
                    assert(prev.pages@.contains_key(k) ==> self.pages@[k] == prev.pages@[k]);
                }
            }
            j = j + 1;
        }
        Ok(())
    }

    /// Removes `page_count` page mappings of `context` from `virt_page`; a page that is not
    /// mapped is an error (the pages before it stay removed).
    pub fn munmap(&mut self, context: u32, virt_page: u32, page_count: u32) -> (r: VmResult<()>)
        requires
            old(self).wf(),
        ensures
            final(self).wf(),
            final(self).physical == old(self).physical,
            final(self).current_context == old(self).current_context,
            r is Ok ==> unmapped(*old(self), *final(self), context, virt_page, page_count),
            r is Ok <==> all_mapped(*old(self), context, virt_page, page_count),
            r matches Err(e) ==> e is Layout || e is UnmappedAddress,
            r is Err ==> munmap_stopped(*old(self), *final(self), context, virt_page, page_count),
            r matches Err(e) ==> unmapped_error(*old(self), context, virt_page, page_count, e),
    {
        if virt_page as u64 + page_count as u64 > 0x1_0000_0000u64 {
            return Err(VmError::Layout(owned("MUNMAP: virtual page range passes the end of the address space")));
        }
        let mut i: u32 = 0;
        while i < page_count
            invariant
                0 <= i <= page_count,
                virt_page + page_count <= 0x1_0000_0000,
                self.wf(),
                self.physical == old(self).physical,
                self.current_context == old(self).current_context,
                forall|m: int| 0 <= m < i ==> !(#[trigger] self.pages@.contains_key(page_key(context, (virt_page + m) as u32))),
                forall|m: int| 0 <= m < i ==> #[trigger] old(self).pages@.contains_key(page_key(context, (virt_page + m) as u32)),
                forall|k: u64| !in_range(k, context, virt_page, i) ==> (#[trigger] self.pages@.contains_key(k)
                    == old(self).pages@.contains_key(k) && (old(self).pages@.contains_key(k) ==> self.pages@[k] == old(self).pages@[k])),
            decreases page_count - i,
        {
            let key = page_key_exec(context, virt_page + i);
            assert(!in_range(key, context, virt_page, i));
            let removed = self.pages.remove(&key);
            if removed.is_none() {
                assert(!old(self).pages@.contains_key(page_key(context, (virt_page + i) as u32)));
                assert(unmapped(*old(self), *self, context, virt_page, i));
                assert(first_unmapped(*old(self), context, virt_page, page_count, i));
                let page = virt_page + i;
                if page as u64 * 4096 > 0xFFFF_FFFFu64 {
                    return Err(VmError::Layout(owned("MUNMAP: address overflow")));
                }
                return Err(VmError::UnmappedAddress { context, address: page * PAGE_SIZE });
            }
            i = i + 1;
        }
        Ok(())
    }

    /// Sets the permissions of `page_count` mapped pages of `context` from `virt_page`; a
    /// page that is not mapped is an error (the pages before it keep their new permissions).
    pub fn mprotect(&mut self, context: u32, virt_page: u32, page_count: u32, permissions: u8) -> (r: VmResult<()>)
        requires
            old(self).wf(),
        ensures
            final(self).wf(),
            final(self).physical == old(self).physical,
            final(self).current_context == old(self).current_context,
            r is Ok ==> forall|i: int| 0 <= i < page_count ==> #[trigger] protected(*old(self), *final(self), context, virt_page, permissions, i),
            r is Ok ==> forall|k: u64| !in_range(k, context, virt_page, page_count) ==> (#[trigger] final(self).pages@.contains_key(k)
                == old(self).pages@.contains_key(k) && (old(self).pages@.contains_key(k) ==> final(self).pages@[k] == old(self).pages@[k])),
            r is Ok <==> all_mapped(*old(self), context, virt_page, page_count),
            r matches Err(e) ==> e is Layout || e is UnmappedAddress,
            r is Err ==> mprotect_stopped(*old(self), *final(self), context, virt_page, page_count, permissions),
            r matches Err(e) ==> unmapped_error(*old(self), context, virt_page, page_count, e),
    {
        if virt_page as u64 + page_count as u64 > 0x1_0000_0000u64 {
            return Err(VmError::Layout(owned("MPROTECT: virtual page range passes the end of the address space")));
        }
        let mut i: u32 = 0;
        while i < page_count
            invariant
                0 <= i <= page_count,
                virt_page + page_count <= 0x1_0000_0000,
                self.wf(),
                self.physical == old(self).physical,
                self.current_context == old(self).current_context,
                forall|m: int| 0 <= m < i ==> #[trigger] protected(*old(self), *self, context, virt_page, permissions, m),
                forall|k: u64| !in_range(k, context, virt_page, i) ==> (#[trigger] self.pages@.contains_key(k)
                    == old(self).pages@.contains_key(k) && (old(self).pages@.contains_key(k) ==> self.pages@[k] == old(self).pages@[k])),
            decreases page_count - i,
        {
            let page = virt_page + i;
            let key = page_key_exec(context, page);
            assert(!in_range(key, context, virt_page, i));
            let entry = match self.pages.get(&key) {
                Some(e) => *e,
                None => {
                    assert(!old(self).pages@.contains_key(page_key(context, (virt_page + i) as u32)));
                    assert(reprotected_upto(*old(self), *self, context, virt_page, permissions, i));
                    assert forall|m: int| 0 <= m < i implies #[trigger] old(self).pages@.contains_key(page_key(context, (virt_page + m) as u32)) by {
                        assert(protected(*old(self), *self, context, virt_page, permissions, m));
                    }
                    assert(first_unmapped(*old(self), context, virt_page, page_count, i));
                    if page as u64 * 4096 > 0xFFFF_FFFFu64 {
                        return Err(VmError::Layout(owned("MPROTECT: address overflow")));
                    }
                    return Err(VmError::UnmappedAddress { context, address: page * PAGE_SIZE });
                },
            };
            let ghost prev = *self;
            self.pages.insert(key, PageEntry { device: entry.device, device_page_base: entry.device_page_base, permissions });
            proof {
                assert forall|m: int| 0 <= m < i + 1 implies #[trigger] protected(*old(self), *self, context, virt_page, permissions, m) by {
                    if m < i {
                        assert(protected(*old(self), prev, context, virt_page, permissions, m));
                        assert(page_key(context, (virt_page + m) as u32) != key);
                    } else {
                        assert(!in_range(key, context, virt_page, i));
                    }
                }
                assert forall|k: u64| !in_range(k, context, virt_page, (i + 1) as u32) implies (#[trigger] self.pages@.contains_key(k)
                    == old(self).pages@.contains_key(k) && (old(self).pages@.contains_key(k) ==> self.pages@[k] == old(self).pages@[k])) by {
                    assert(!in_range(k, context, virt_page, i));
                    assert(prev.pages@.contains_key(k) == old(self).pages@.contains_key(k));
                }
            }
            i = i + 1;
        }
        assert forall|m: int| 0 <= m < page_count implies #[trigger] old(self).pages@.contains_key(page_key(context, (virt_page + m) as u32)) by {
            assert(protected(*old(self), *self, context, virt_page, permissions, m));
        }
        Ok(())
    }
}

/// The permission bit an access needs.
fn perm_bit_exec(a: Access) -> (b: u8)
    ensures
        b == perm_bit(a),
{
    match a {
        Access::Read => PERM_READ,
        Access::Write => PERM_WRITE,
        Access::Execute => PERM_EXECUTE,
    }
}

impl Bus {
    /// The page entry translating `addr` in the current context, if the page allows the
    /// access.
    fn lookup(&self, addr: u32, access: Access) -> (r: VmResult<PageEntry>)
        ensures
            r is Ok <==> self.entry_of(addr) is Some && self.entry_of(addr)->0.permissions & perm_bit(access) != 0,
            r matches Ok(e) ==> self.entry_of(addr) == Some(e),
            r matches Err(e) ==> interrupt_of(e) == Some(Interrupt::BusFault),
            r matches Err(e) ==> page_refused(*self, addr, access, e),
    {
        let key = page_key_exec(self.current_context, addr >> 12);
        let entry = match self.pages.get(&key) {
            Some(e) => *e,
            None => {
                return Err(VmError::UnmappedAddress { context: self.current_context, address: addr });
            },
        };
        let bit = perm_bit_exec(access);
        if entry.permissions & bit == 0 {
            return Err(VmError::PermissionDenied { context: self.current_context, address: addr, required: access, got: entry.permissions });
        }
        Ok(entry)
    }

    /// Offset in its device of the byte `addr` translates to through `e`.
    fn device_offset(&self, e: PageEntry, addr: u32) -> (r: VmResult<u32>)
        requires
            self.wf(),
            e.device < self.physical@.len(),
        ensures
            r matches Ok(off) ==> off == e.device_page_base + (addr & 0xFFF),
            r is Err ==> e.device_page_base + (addr & 0xFFF) > u32::MAX,
            r matches Err(er) ==> interrupt_of(er) == Some(Interrupt::BusFault),
            r matches Err(er) ==> er matches VmError::DeviceError { device, .. } && device == self.physical@[e.device as int].ram.id,
    {
        let within = addr & 0xFFF;
        if e.device_page_base as u64 + within as u64 > 0xFFFF_FFFFu64 {
            return Err(device_error(self.physical[e.device].ram.id, e.device_page_base, "offset out of range"));
        }
        Ok(e.device_page_base + within)
    }

    fn read_access(&self, addr: u32, access: Access) -> (r: VmResult<u8>)
        requires
            self.wf(),
        ensures
            r is Ok <==> self.accessible(addr, access),
            r matches Ok(v) ==> v == self.byte_at(addr),
            r matches Err(e) ==> interrupt_of(e) == Some(Interrupt::BusFault),
            r matches Err(e) ==> access_refused(*self, addr, access, e),
    {
        let e = self.lookup(addr, access)?;
        let off = self.device_offset(e, addr)?;
        let _n = self.physical.len();
        assert(self.physical@[e.device as int].ram.wf());
        self.physical[e.device].ram.read_byte(off)
    }

    /// The byte at virtual address `addr` of the current context; the page must be readable.
    pub fn read_byte(&self, addr: u32) -> (r: VmResult<u8>)
        requires
            self.wf(),
        ensures
            r is Ok <==> self.accessible(addr, Access::Read),
            r matches Ok(v) ==> v == self.byte_at(addr),
            r matches Ok(v) ==> loaded(*self, addr, 1) == Some(v as u32),
            r is Ok <==> readable(*self, addr, 1),
            r matches Err(e) ==> interrupt_of(e) == Some(Interrupt::BusFault),
            r matches Err(e) ==> access_refused(*self, addr, Access::Read, e),
    {
        self.read_access(addr, Access::Read)
    }

    /// The byte at virtual address `addr` of the current context; the page must be
    /// executable.
    pub fn fetch_byte(&self, addr: u32) -> (r: VmResult<u8>)
        requires
            self.wf(),
        ensures
            r is Ok <==> self.accessible(addr, Access::Execute),
            r matches Ok(v) ==> v == self.byte_at(addr),
            r matches Err(e) ==> interrupt_of(e) == Some(Interrupt::BusFault),
            r matches Err(e) ==> access_refused(*self, addr, Access::Execute, e),
    {
        self.read_access(addr, Access::Execute)
    }

    /// Writes the byte at virtual address `addr` of the current context; the page must be
    /// writable. Nothing changes on failure.
    pub fn write_byte(&mut self, addr: u32, value: u8) -> (r: VmResult<()>)
        requires
            old(self).wf(),
        ensures
            final(self).wf(),
            r is Ok <==> old(self).accessible(addr, Access::Write),
            r is Ok ==> same_but_device(*old(self), *final(self), old(self).target(addr).0 as int,
                old(self).physical@[old(self).target(addr).0 as int].ram.data@.update(old(self).target(addr).1, value)),
            r is Ok ==> stored(*old(self), *final(self), addr, 1, value as u32),
            r is Ok <==> storable(*old(self), addr, 1),
            r is Err ==> final(self).physical == old(self).physical && final(self).pages == old(self).pages
                && final(self).current_context == old(self).current_context,
            r matches Err(e) ==> interrupt_of(e) == Some(Interrupt::BusFault),
    {
        let e = self.lookup(addr, Access::Write)?;
        let off = self.device_offset(e, addr)?;
        let _n = self.physical.len();
        if off as usize >= self.physical[e.device].ram.data.len() {
            return Err(device_error(self.physical[e.device].ram.id, off, "write out of bounds"));
        }
        self.physical[e.device].ram.write_byte(off, value)
    }

    /// The big-endian half-word at `addr` (its page must be readable; the second byte is
    /// the next byte of the same device).
    pub fn read_u16(&self, addr: u32) -> (r: VmResult<u16>)
        requires
            self.wf(),
        ensures
            r matches Ok(v) ==> self.entry_of(addr) is Some && v == half_of(
                self.physical@[self.target(addr).0 as int].ram.data@[self.target(addr).1],
                self.physical@[self.target(addr).0 as int].ram.data@[self.target(addr).1 + 1],
            ),
            r matches Ok(v) ==> loaded(*self, addr, 2) == Some(v as u32),
            r is Ok <==> readable(*self, addr, 2),
            r matches Err(e) ==> interrupt_of(e) == Some(Interrupt::BusFault),
    {
        let e = self.lookup(addr, Access::Read)?;
        let off = self.device_offset(e, addr)?;
        let _n = self.physical.len();
        assert(self.physical@[e.device as int].ram.wf());
        self.physical[e.device].ram.read_half(off)
    }

    /// The big-endian word at `addr` (its page must be readable; the other bytes are the
    /// next bytes of the same device).
    pub fn read_u32(&self, addr: u32) -> (r: VmResult<u32>)
        requires
            self.wf(),
        ensures
            r matches Ok(v) ==> self.entry_of(addr) is Some && v == word_at(
                self.physical@[self.target(addr).0 as int].ram.data@,
                self.target(addr).1,
            ),
            r matches Ok(v) ==> loaded(*self, addr, 4) == Some(v),
            r is Ok <==> readable(*self, addr, 4),
            r matches Err(e) ==> interrupt_of(e) == Some(Interrupt::BusFault),
    {
        let e = self.lookup(addr, Access::Read)?;
        let off = self.device_offset(e, addr)?;
        let _n = self.physical.len();
        assert(self.physical@[e.device as int].ram.wf());
        self.physical[e.device].ram.read_word(off)
    }

    /// Writes a big-endian half-word at `addr` (its page must be writable).
    pub fn write_u16(&mut self, addr: u32, value: u16) -> (r: VmResult<()>)
        requires
            old(self).wf(),
        ensures
            final(self).wf(),
            final(self).pages == old(self).pages,
            final(self).current_context == old(self).current_context,
            final(self).physical@.len() == old(self).physical@.len(),
            r is Ok ==> stored(*old(self), *final(self), addr, 2, value as u32),
            r is Ok <==> storable(*old(self), addr, 2),
            r matches Err(e) ==> interrupt_of(e) == Some(Interrupt::BusFault),
    {
        let e = self.lookup(addr, Access::Write)?;
        let off = self.device_offset(e, addr)?;
        let _n = self.physical.len();
        assert(self.physical@[e.device as int].ram.wf());
        let r = self.physical[e.device].ram.write_half(off, value);
        proof {
            assert(((value as u32) >> 8) as u8 == (value >> 8) as u8) by (bit_vector);
            assert((value as u32) as u8 == value as u8) by (bit_vector);
        }
        r
    }

    /// Writes a big-endian word at `addr` (its page must be writable).
    pub fn write_u32(&mut self, addr: u32, value: u32) -> (r: VmResult<()>)
        requires
            old(self).wf(),
        ensures
            final(self).wf(),
            final(self).pages == old(self).pages,
            final(self).current_context == old(self).current_context,
            final(self).physical@.len() == old(self).physical@.len(),
            r is Ok ==> old(self).entry_of(addr) is Some && final(self).physical@[old(self).target(addr).0 as int].ram.data@
                == old(self).physical@[old(self).target(addr).0 as int].ram.data@.update(old(self).target(addr).1, (value >> 24) as u8).update(
                old(self).target(addr).1 + 1,
                (value >> 16) as u8,
            ).update(old(self).target(addr).1 + 2, (value >> 8) as u8).update(old(self).target(addr).1 + 3, value as u8),
            r is Ok ==> stored(*old(self), *final(self), addr, 4, value),
            r is Ok <==> storable(*old(self), addr, 4),
            r matches Err(e) ==> interrupt_of(e) == Some(Interrupt::BusFault),
    {
        let e = self.lookup(addr, Access::Write)?;
        let off = self.device_offset(e, addr)?;
        let _n = self.physical.len();
        assert(self.physical@[e.device as int].ram.wf());
        self.physical[e.device].ram.write_word(off, value)
    }
}

/// `e` is the error of a page that refuses an access of kind `a` to `addr`: no mapping
/// gives `UnmappedAddress`, a mapping without the permission gives `PermissionDenied` with
/// the permission required and the page's permissions.
pub open spec fn page_refused(b: Bus, addr: u32, a: Access, e: VmError) -> bool {
    match b.entry_of(addr) {
        None => e == VmError::UnmappedAddress { context: b.current_context, address: addr },
        Some(p) => e == VmError::PermissionDenied { context: b.current_context, address: addr, required: a, got: p.permissions },
    }
}

/// `e` is the error of a refused access of kind `a` to `addr`: the page refuses it, or the
/// page allows it and the byte lies outside the mapped device, a device error of that
/// device.
pub open spec fn access_refused(b: Bus, addr: u32, a: Access, e: VmError) -> bool {
    match b.entry_of(addr) {
        Some(p) => if p.permissions & perm_bit(a) != 0 {
            e matches VmError::DeviceError { device, .. } && device == b.physical@[p.device as int].ram.id
        } else {
            page_refused(b, addr, a, e)
        },
        None => page_refused(b, addr, a, e),
    }
}

/// Whether page-table key `k` belongs to `context`.
pub open spec fn in_context(k: u64, context: u32) -> bool {
    context * 0x1_0000_0000 <= k < context * 0x1_0000_0000 + 0x1_0000_0000
}

impl Bus {
    /// Removes every page mapping of `context`; the other contexts' mappings stay.
    pub fn destroy_context(&mut self, context: u32)
        requires
            old(self).wf(),
        ensures
            final(self).wf(),
            final(self).physical == old(self).physical,
            final(self).current_context == old(self).current_context,
            forall|k: u64| #[trigger] final(self).pages@.contains_key(k) <==> old(self).pages@.contains_key(k) && !in_context(k, context),
            forall|k: u64| #[trigger] final(self).pages@.contains_key(k) ==> final(self).pages@[k] == old(self).pages@[k],
    {
        let lo: u64 = (context as u64) * 0x1_0000_0000;
        let hi: u64 = lo + 0xFFFF_FFFF;
        let mut doomed: Vec<u64> = Vec::new();
        let ghost start = self.pages@;
        let ghost ks = vstd::std_specs::iter::IteratorSpec::remaining(&vstd::std_specs::hash::spec_keys_iter(&self.pages));
        let ghost mut seen: int = 0;
        for k in it: self.pages.keys()
            invariant
                lo == context * 0x1_0000_0000,
                hi == lo + 0xFFFF_FFFF,
                start == self.pages@,
                it.seq() == ks,
                seen == it.index(),
                ks.unref().to_set() == start.dom(),
                forall|j: int| 0 <= j < doomed@.len() ==> start.contains_key(#[trigger] doomed@[j]) && lo <= doomed@[j] <= hi,
                forall|j: int| 0 <= j < it.index() && lo <= *it.seq()[j] <= hi ==> doomed@.contains(*it.seq()[j]),
        {
            let ghost idx = it.index();
            proof {
                seen = idx + 1;
            }
            assert(*k == *it.seq()[idx]);
            assert(ks.unref()[idx] == *k);
            assert(start.dom().contains(*k));
            let ghost before = doomed@;
            if lo <= *k && *k <= hi {
                doomed.push(*k);
                assert(doomed@[doomed@.len() - 1] == *k);
            }
            assert forall|j: int| 0 <= j < idx + 1 && lo <= *it.seq()[j] <= hi implies doomed@.contains(*it.seq()[j]) by {
                if j == idx {
                    assert(doomed@[doomed@.len() - 1] == *k);
                } else {
                    assert(before.contains(*it.seq()[j]));
                    let w = choose|w: int| 0 <= w < before.len() && before[w] == *it.seq()[j];
                    assert(doomed@[w] == before[w]);
                }
            }
        }
        assert(seen == ks.len());
        assert forall|key: u64| start.contains_key(key) && in_context(key, context) implies doomed@.contains(key) by {
            assert(ks.unref().to_set().contains(key));
            let j = choose|j: int| 0 <= j < ks.unref().len() && ks.unref()[j] == key;
            assert(*ks[j] == key);
        }
        let mut i: usize = 0;
        while i < doomed.len()
            invariant
                0 <= i <= doomed@.len(),
                self.wf(),
                self.physical == old(self).physical,
                self.current_context == old(self).current_context,
                start == old(self).pages@,
                forall|key: u64| #[trigger] self.pages@.contains_key(key) <==> start.contains_key(key) && !doomed@.subrange(0, i as int).contains(key),
                forall|key: u64| #[trigger] self.pages@.contains_key(key) ==> self.pages@[key] == start[key],
            decreases doomed@.len() - i,
        {
            let ghost before = self.pages@;
            self.pages.remove(&doomed[i]);
            assert(self.pages@ == before.remove(doomed@[i as int]));
            assert forall|key: u64| #[trigger] self.pages@.contains_key(key) <==> start.contains_key(key) && !doomed@.subrange(0, i as int + 1).contains(key) by {
                let s0 = doomed@.subrange(0, i as int);
                let s1 = doomed@.subrange(0, i as int + 1);
                if key == doomed@[i as int] {
                    assert(s1[i as int] == key);
                } else if s1.contains(key) {
                    let w = choose|w: int| 0 <= w < s1.len() && s1[w] == key;
                    assert(s0[w] == key);
                } else if s0.contains(key) {
                    let w = choose|w: int| 0 <= w < s0.len() && s0[w] == key;
                    assert(s1[w] == key);
                }
            }
            i = i + 1;
        }
        assert(doomed@.subrange(0, doomed@.len() as int) =~= doomed@);
        assert forall|key: u64| #[trigger] self.pages@.contains_key(key) <==> old(self).pages@.contains_key(key) && !in_context(key, context) by {
            if doomed@.contains(key) {
                let j = choose|j: int| 0 <= j < doomed@.len() && doomed@[j] == key;
                assert(start.contains_key(doomed@[j]) && lo <= doomed@[j] <= hi);
            }
        }
    }
}

/// Byte `k` of the low `w` bytes (1, 2 or 4) of `value`, big-endian.
pub open spec fn stored_byte(w: int, value: u32, k: int) -> u8 {
    if w == 1 {
        value as u8
    } else if w == 2 {
        if k == 0 { (value >> 8) as u8 } else { value as u8 }
    } else if k == 0 {
        (value >> 24) as u8
    } else if k == 1 {
        (value >> 16) as u8
    } else if k == 2 {
        (value >> 8) as u8
    } else {
        value as u8
    }
}

/// `data` with the low `w` bytes of `value` written big-endian from `off`, as far as they
/// lie in `data` (a write stops at its end).
pub open spec fn partly_stored(data: Seq<u8>, off: int, w: int, value: u32) -> Seq<u8> {
    Seq::new(data.len(), |j: int| if off <= j < off + w { stored_byte(w, value, j - off) } else { data[j] })
}

/// The low `w` bytes (1, 2 or 4) of `value`, big-endian, written over `data` from `off`.
pub open spec fn stored_bytes(data: Seq<u8>, off: int, w: int, value: u32) -> Seq<u8> {
    if w == 1 {
        data.update(off, value as u8)
    } else if w == 2 {
        data.update(off, (value >> 8) as u8).update(off + 1, value as u8)
    } else {
        data.update(off, (value >> 24) as u8).update(off + 1, (value >> 16) as u8).update(off + 2, (value >> 8) as u8).update(
            off + 3,
            value as u8,
        )
    }
}

/// Bus `b` is bus `a` with the low `w` bytes of `value` written big-endian at virtual
/// address `addr` (the bytes after the first one are the next bytes of the same device).
pub open spec fn stored(a: Bus, b: Bus, addr: u32, w: int, value: u32) -> bool {
    let (d, off) = a.target(addr);
    &&& a.entry_of(addr) is Some
    &&& d < a.physical@.len()
    &&& off + w <= a.physical@[d as int].ram.data@.len()
    &&& same_but_device(a, b, d as int, stored_bytes(a.physical@[d as int].ram.data@, off, w, value))
}

/// The `w` bytes (1, 2 or 4) at virtual address `addr`, read big-endian, when its page is
/// mapped and they lie in the device.
pub open spec fn loaded(b: Bus, addr: u32, w: int) -> Option<u32> {
    let (d, off) = b.target(addr);
    let data = b.physical@[d as int].ram.data@;
    if b.entry_of(addr) is Some && d < b.physical@.len() && off + w <= data.len() {
        if w == 1 {
            Some(data[off] as u32)
        } else if w == 2 {
            Some(half_of(data[off], data[off + 1]) as u32)
        } else {
            Some(word_at(data, off))
        }
    } else {
        None
    }
}

/// Whether `w` bytes can be written at `addr`: its page is writable and they lie in the
/// device.
pub open spec fn storable(b: Bus, addr: u32, w: int) -> bool {
    &&& b.entry_of(addr) is Some
    &&& b.entry_of(addr)->0.permissions & PERM_WRITE != 0
    &&& b.target(addr).0 < b.physical@.len()
    &&& b.target(addr).1 + w <= b.physical@[b.target(addr).0 as int].ram.data@.len()
}

/// Whether `w` bytes can be read at `addr`: its page is readable and they lie in the
/// device.
pub open spec fn readable(b: Bus, addr: u32, w: int) -> bool {
    &&& b.entry_of(addr) is Some
    &&& b.entry_of(addr)->0.permissions & PERM_READ != 0
    &&& loaded(b, addr, w) is Some
}

/// Narrowing a word to a byte or a half-word keeps the bytes a store writes.
pub proof fn lemma_narrowed_bytes(value: u32)
    by (bit_vector)
    ensures
        ((value as u8) as u32) as u8 == value as u8,
        (((value as u16) as u32) >> 8) as u8 == (value >> 8) as u8,
        ((value as u16) as u32) as u8 == value as u8,
{
}

/// The low `w` bytes of `value`.
pub open spec fn low_bytes(value: u32, w: int) -> u32 {
    if w == 1 {
        value & 0xFF
    } else if w == 2 {
        value & 0xFFFF
    } else {
        value
    }
}

/// Reading back what was just written at the same address gives its low bytes, and the
/// page tables and the context do not change.
pub proof fn law_load_after_store(a: Bus, b: Bus, addr: u32, w: int, value: u32)
    requires
        stored(a, b, addr, w, value),
        w == 1 || w == 2 || w == 4,
    ensures
        loaded(b, addr, w) == Some(low_bytes(value, w)),
        b.pages@ == a.pages@,
        b.current_context == a.current_context,
{
    let (d, off) = a.target(addr);
    assert(b.entry_of(addr) == a.entry_of(addr));
    assert(b.target(addr) == a.target(addr));
    let data = b.physical@[d as int].ram.data@;
    if w == 1 {
        assert((value as u8) as u32 == value & 0xFF) by (bit_vector);
    } else if w == 2 {
        assert(half_of((value >> 8) as u8, value as u8) as u32 == value & 0xFFFF) by (bit_vector);
    } else {
        lemma_be32_roundtrip(value);
        assert(data[off] == (value >> 24) as u8);
        assert(data[off + 1] == (value >> 16) as u8);
        assert(data[off + 2] == (value >> 8) as u8);
        assert(data[off + 3] == value as u8);
    }
}

/// A word written at a physical address whose four bytes lie in one device is read back
/// from that address; the device's other bytes and the other devices are unchanged.
pub proof fn law_physical_word_roundtrip(a: Bus, b: Bus, addr: u32, value: u32, d: int, off: int)
    requires
        a.wf(),
        resolve_from(a.physical@, addr, 0) == Some((d as usize, off as u32)),
        0 <= d < a.physical@.len(),
        0 <= off,
        off + 4 <= a.physical@[d].ram.data@.len(),
        same_but_device(a, b, d, partly_stored(a.physical@[d].ram.data@, off, 4, value)),
    ensures
        word_at(b.physical@[d].ram.data@, off) == value,
        forall|j: int| 0 <= j < b.physical@[d].ram.data@.len() && !(off <= j < off + 4)
            ==> #[trigger] b.physical@[d].ram.data@[j] == a.physical@[d].ram.data@[j],
{
    lemma_be32_roundtrip(value);
    let data = b.physical@[d].ram.data@;
    assert(data[off] == (value >> 24) as u8);
    assert(data[off + 1] == (value >> 16) as u8);
    assert(data[off + 2] == (value >> 8) as u8);
    assert(data[off + 3] == value as u8);
}

/// A byte written through the bus is read back from the same address, as long as its page
/// is readable as well as writable; the page tables and the context do not change.
pub proof fn law_read_after_write(a: Bus, b: Bus, addr: u32, value: u8)
    requires
        a.wf(),
        a.accessible(addr, Access::Write),
        same_but_device(a, b, a.target(addr).0 as int, a.physical@[a.target(addr).0 as int].ram.data@.update(a.target(addr).1, value)),
        a.entry_of(addr)->0.permissions & PERM_READ != 0,
    ensures
        b.accessible(addr, Access::Read),
        b.byte_at(addr) == value,
{
    assert(b.entry_of(addr) == a.entry_of(addr));
}

/// A write through the bus changes no other byte of any device.
pub proof fn law_write_is_local(a: Bus, b: Bus, addr: u32, value: u8, d: int, i: int)
    requires
        a.wf(),
        a.accessible(addr, Access::Write),
        same_but_device(a, b, a.target(addr).0 as int, a.physical@[a.target(addr).0 as int].ram.data@.update(a.target(addr).1, value)),
        0 <= d < a.physical@.len(),
        0 <= i < a.physical@[d].ram.data@.len(),
        (d, i) != (a.target(addr).0 as int, a.target(addr).1),
    ensures
        b.physical@[d].ram.data@[i] == a.physical@[d].ram.data@[i],
{
    if d != a.target(addr).0 as int {
        assert(b.physical@[d] == a.physical@[d]);
    }
}

} // verus!
