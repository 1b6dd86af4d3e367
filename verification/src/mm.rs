//! Virtual addresses, page permissions and the per-task set of mapped pages.

use vstd::prelude::*;
use std::collections::HashMap;

verus! {

broadcast use vstd::std_specs::hash::group_hash_axioms;

/// Size of a page in bytes.
pub const PAGE_SIZE: usize = 4096;

/// Map permission bit: readable.
pub const MAP_PERM_R: u8 = 2;
/// Map permission bit: writable.
pub const MAP_PERM_W: u8 = 4;
/// Map permission bit: executable.
pub const MAP_PERM_X: u8 = 8;
/// Map permission bit: accessible from user mode.
pub const MAP_PERM_U: u8 = 16;

/// Page-table-entry flag: valid.
pub const PTE_V: u8 = 1;
/// Page-table-entry flag: readable.
pub const PTE_R: u8 = 2;
/// Page-table-entry flag: writable.
pub const PTE_W: u8 = 4;

/// The page number of the page that holds byte `va`.
pub open spec fn floor_spec(va: int) -> int {
    va / PAGE_SIZE as int
}

/// The number of the first page that starts at or after `va`.
pub open spec fn ceil_spec(va: int) -> int {
    if va == 0 {
        0
    } else {
        (va - 1 + PAGE_SIZE as int) / PAGE_SIZE as int
    }
}

/// Page number of the page containing the virtual address `va`.
pub fn floor(va: usize) -> (vpn: usize)
    ensures
        vpn == floor_spec(va as int),
{
    va / PAGE_SIZE
}

/// Page number of the first page boundary at or above `va`.
pub fn ceil(va: usize) -> (vpn: usize)
    ensures
        vpn == ceil_spec(va as int),
{
    if va == 0 {
        0
    } else {
        (va - 1) / PAGE_SIZE + 1
    }
}

/// Whether `va` lies on a page boundary.
pub fn aligned(va: usize) -> (b: bool)
    ensures
        b == (va % PAGE_SIZE == 0),
{
    va % PAGE_SIZE == 0
}

/// Offset of `va` inside its page.
pub fn page_offset(va: usize) -> (off: usize)
    ensures
        off == va % PAGE_SIZE,
        off < PAGE_SIZE,
{
    va % PAGE_SIZE
}

/// The `satp` value that selects a Sv39 page table whose root is frame `root_ppn`.
pub open spec fn token_spec(root_ppn: usize) -> u64 {
    (8u64 << 60u64) | (root_ppn as u64)
}

/// `m` with every page of `[start, end)` mapped with permission `perm`.
pub open spec fn map_range_spec(m: Map<usize, u8>, start: int, end: int, perm: u8) -> Map<usize, u8> {
    Map::new(
        |v: usize| m.contains_key(v) || (start <= v < end),
        |v: usize| if start <= v < end { perm } else { m[v] },
    )
}

/// `m` with every page of `[start, end)` removed.
pub open spec fn unmap_range_spec(m: Map<usize, u8>, start: int, end: int) -> Map<usize, u8> {
    Map::new(|v: usize| m.contains_key(v) && !(start <= v < end), |v: usize| m[v])
}

/// Some page of `[start, end)` is mapped in `m`.
pub open spec fn overlaps_spec(m: Map<usize, u8>, start: int, end: int) -> bool {
    exists|v: usize| start <= v < end && #[trigger] m.contains_key(v)
}

/// Every page of `[start, end)` is mapped in `m`.
pub open spec fn all_mapped_spec(m: Map<usize, u8>, start: int, end: int) -> bool {
    forall|v: usize| start <= v < end ==> #[trigger] m.contains_key(v)
}

/// The address space of one task: which virtual pages are mapped and with
/// which permission, and the frame that holds the root of its page table.
pub struct MemorySet {
    /// Mapped virtual page number to its map permission bits.
    pub pages: HashMap<usize, u8>,
    /// Physical page number of the page table's root.
    pub root_ppn: usize,
}

impl View for MemorySet {
    type V = Map<usize, u8>;

    open spec fn view(&self) -> Map<usize, u8> {
        self.pages@
    }
}

impl MemorySet {
    /// An address space with no mapped page.
    pub fn new(root_ppn: usize) -> (ms: MemorySet)
        ensures
            ms@ == Map::<usize, u8>::empty(),
            ms.root_ppn == root_ppn,
    {
        MemorySet { pages: HashMap::new(), root_ppn }
    }

    /// A copy of this address space whose page table has its root in `root_ppn`.
    pub fn duplicate(&self, root_ppn: usize) -> (ms: MemorySet)
        ensures
            ms@ == self@,
            ms.root_ppn == root_ppn,
    {
        MemorySet { pages: self.pages.clone(), root_ppn }
    }

    /// The `satp` token of this address space.
    pub fn token(&self) -> (t: u64)
        ensures
            t == token_spec(self.root_ppn),
    {
        (8u64 << 60u64) | (self.root_ppn as u64)
    }

    /// Whether page `vpn` is mapped.
    pub fn is_mapped(&self, vpn: usize) -> (b: bool)
        ensures
            b == self@.contains_key(vpn),
    {
        self.pages.contains_key(&vpn)
    }

    /// The page-table flags of page `vpn`: its permission with the valid
    /// bit set, or `None` where the page is not mapped.
    pub fn translate(&self, vpn: usize) -> (flags: Option<u8>)
        ensures
            flags == (if self@.contains_key(vpn) {
                Some(self@[vpn] | PTE_V)
            } else {
                None::<u8>
            }),
    {
        match self.pages.get(&vpn) {
            Some(perm) => Some(*perm | PTE_V),
            None => None,
        }
    }

    /// Whether any page of `[start_vpn, end_vpn)` is mapped.
    pub fn is_overlap(&self, start_vpn: usize, end_vpn: usize) -> (b: bool)
        ensures
            b == overlaps_spec(self@, start_vpn as int, end_vpn as int),
    {
        let mut v = start_vpn;
        while v < end_vpn
            invariant
                start_vpn <= v,
                forall|u: usize| start_vpn <= u < v ==> !#[trigger] self@.contains_key(u),
            decreases end_vpn - v,
        {
            if self.pages.contains_key(&v) {
                assert(self@.contains_key(v));
                return true;
            }
            v = v + 1;
        }
        false
    }

    /// Whether every page of `[start_vpn, end_vpn)` is mapped.
    pub fn all_mapped(&self, start_vpn: usize, end_vpn: usize) -> (b: bool)
        ensures
            b == all_mapped_spec(self@, start_vpn as int, end_vpn as int),
    {
        let mut v = start_vpn;
        while v < end_vpn
            invariant
                start_vpn <= v,
                forall|u: usize| start_vpn <= u < v ==> #[trigger] self@.contains_key(u),
            decreases end_vpn - v,
        {
            if !self.pages.contains_key(&v) {
                assert(!self@.contains_key(v));
                return false;
            }
            v = v + 1;
        }
        true
    }

    /// Maps every page of `[start_vpn, end_vpn)` with permission `perm`.
    pub fn map_range(&mut self, start_vpn: usize, end_vpn: usize, perm: u8)
        ensures
            final(self)@ == map_range_spec(old(self)@, start_vpn as int, end_vpn as int, perm),
            final(self).root_ppn == old(self).root_ppn,
    {
        let ghost m0 = self@;
        let mut v = start_vpn;
        if end_vpn <= start_vpn {
            assert(self@ =~= map_range_spec(m0, start_vpn as int, end_vpn as int, perm));
            return;
        }
        while v < end_vpn
            invariant
                start_vpn <= v <= end_vpn,
                self@ == map_range_spec(m0, start_vpn as int, v as int, perm),
                self.root_ppn == old(self).root_ppn,
                m0 == old(self)@,
            decreases end_vpn - v,
        {
            self.pages.insert(v, perm);
            assert(self@ =~= map_range_spec(m0, start_vpn as int, v + 1, perm));
            v = v + 1;
        }
        assert(self@ =~= map_range_spec(m0, start_vpn as int, end_vpn as int, perm));
    }

    /// Removes every page of `[start_vpn, end_vpn)`.
    pub fn unmap_range(&mut self, start_vpn: usize, end_vpn: usize)
        ensures
            final(self)@ == unmap_range_spec(old(self)@, start_vpn as int, end_vpn as int),
            final(self).root_ppn == old(self).root_ppn,
    {
        let ghost m0 = self@;
        let mut v = start_vpn;
        if end_vpn <= start_vpn {
            assert(self@ =~= unmap_range_spec(m0, start_vpn as int, end_vpn as int));
            return;
        }
        while v < end_vpn
            invariant
                start_vpn <= v <= end_vpn,
                self@ == unmap_range_spec(m0, start_vpn as int, v as int),
                self.root_ppn == old(self).root_ppn,
                m0 == old(self)@,
            decreases end_vpn - v,
        {
            self.pages.remove(&v);
            assert(self@ =~= unmap_range_spec(m0, start_vpn as int, v + 1));
            v = v + 1;
        }
        assert(self@ =~= unmap_range_spec(m0, start_vpn as int, end_vpn as int));
    }

    /// Maps the pages that cover the addresses `[start_va, end_va)` with `perm`.
    pub fn insert_framed_area(&mut self, start_va: usize, end_va: usize, perm: u8)
        ensures
            final(self)@ == map_range_spec(
                old(self)@,
                floor_spec(start_va as int),
                ceil_spec(end_va as int),
                perm,
            ),
            final(self).root_ppn == old(self).root_ppn,
    {
        let s = floor(start_va);
        let e = ceil(end_va);
        self.map_range(s, e, perm);
    }

    /// Maps `[start_vpn, end_vpn)` for a user `mmap` with permission `perm`.
    pub fn mmap(&mut self, start_vpn: usize, end_vpn: usize, perm: u8)
        ensures
            final(self)@ == map_range_spec(old(self)@, start_vpn as int, end_vpn as int, perm),
            final(self).root_ppn == old(self).root_ppn,
    {
        self.map_range(start_vpn, end_vpn, perm);
    }

    /// Unmaps `[start_vpn, end_vpn)` for a user `munmap`: an error, with
    /// nothing changed, where some page of the range is not mapped.
    pub fn munmap(&mut self, start_vpn: usize, end_vpn: usize) -> (r: Result<(), ()>)
        ensures
            r is Ok <==> all_mapped_spec(old(self)@, start_vpn as int, end_vpn as int),
            r is Ok ==> final(self)@ == unmap_range_spec(old(self)@, start_vpn as int, end_vpn as int),
            r is Err ==> final(self)@ == old(self)@,
            final(self).root_ppn == old(self).root_ppn,
    {
        if !self.all_mapped(start_vpn, end_vpn) {
            return Err(());
        }
        self.unmap_range(start_vpn, end_vpn);
        Ok(())
    }

    /// Releases every user page.
    pub fn recycle_data_pages(&mut self)
        ensures
            final(self)@ == Map::<usize, u8>::empty(),
            final(self).root_ppn == old(self).root_ppn,
    {
        self.pages.clear();
    }
}

} // verus!
