//! Page directory and page table entries of 32-bit two-level paging.

use vstd::prelude::*;
use super::effects::{
    lemma_map_count_after, lemma_map_count_before, lemma_map_effect_start, lemma_map_step,
    lemma_mapped_raw, lemma_page_flags, map_cost, map_count, map_effect, page_count, page_flags,
};
use super::physmem::{
    fill_zero, frame_addr, frame_in_use, free_count, has_free, lowest_free, store_word, store_words,
    word_at, PhysMem,
};
use super::KERNEL_PHYS_WINDOW_SIZE;

verus! {

/// Size of a page and of a frame, in bytes.
pub const PAGE_SIZE: usize = 0x1000;

/// Entry flag (bit 0): the entry is valid.
pub const PAGE_PRESENT: u32 = 0x1;

/// Entry flag (bit 1): the page or table is writable.
pub const PAGE_WRITE: u32 = 0x2;

/// Entry flag (bit 2): the page or table is accessible in user mode.
pub const PAGE_USER: u32 = 0x4;

/// Entry flag (bit 3): write-through caching is enabled.
pub const PAGE_WRITE_THROUGH_ENABLE: u32 = 0x8;

/// Entry flag (bit 4): accesses through the entry are strongly uncached.
pub const PAGE_CACHE_DISABLE: u32 = 0x10;

/// Entry flag (bit 5): the page has been accessed.
pub const PAGE_ACCESSED: u32 = 0x20;

/// Entry flag (bit 6): the page has been written.
pub const PAGE_DIRTY: u32 = 0x40;

/// Entry flag (bit 7): the entry describes a large page.
pub const PAGE_LARGE: u32 = 0x80;

/// A strongly typed virtual address.
#[derive(Debug, Copy, Clone, PartialEq, Eq, Structural)]
pub struct VirtAddr(pub u32);

/// A strongly typed physical address.
#[derive(Debug, Copy, Clone, PartialEq, Eq, Structural)]
pub struct PhysAddr(pub u32);

/// Bit `k` of `word`.
pub open spec fn bit_of(word: u32, k: u32) -> bool {
    (word >> k) & 1 == 1
}

/// `word` with bit `k` replaced by the lowest bit of `val`.
pub open spec fn with_bit(word: u32, k: u32, val: u32) -> u32 {
    (word & !(1u32 << k)) | ((val & 1) << k)
}

/// `word` with bits 12..31 taken over from `addr`. The low twelve bits of
/// `addr` are or-ed into the flags, so a page-aligned `addr` leaves the flags
/// as they were.
pub open spec fn with_base(word: u32, addr: u32) -> u32 {
    addr | (word & 0xfff)
}

/// The physical base held in bits 12..31 of an entry.
pub open spec fn base_of(word: u32) -> u32 {
    word & !0xfffu32
}

/// Replacing bit `k` changes bit `k` to the lowest bit of `val` and leaves
/// every other bit of the word as it was.
pub proof fn lemma_with_bit_exact(word: u32, k: u32, val: u32)
    by (bit_vector)
    requires
        k < 32,
    ensures
        forall|j: u32|
            j < 32 ==> (#[trigger] bit_of(with_bit(word, k, val), j) <==> if j == k {
                val & 1 == 1
            } else {
                bit_of(word, j)
            }),
{
}

/// Setting a bit twice to the same value is the same as setting it once.
pub proof fn lemma_with_bit_idempotent(word: u32, k: u32, val: u32)
    by (bit_vector)
    requires
        k < 32,
    ensures
        with_bit(with_bit(word, k, val), k, val) == with_bit(word, k, val),
{
}

/// Storing a page-aligned base keeps the twelve flag bits and reads back as
/// the same base; storing it twice is the same as storing it once.
pub proof fn lemma_with_base_exact(word: u32, addr: u32)
    by (bit_vector)
    requires
        addr & 0xfff == 0,
    ensures
        base_of(with_base(word, addr)) == addr,
        with_base(word, addr) & 0xfff == word & 0xfff,
        with_base(with_base(word, addr), addr) == with_base(word, addr),
{
}

/// A page directory entry.
#[derive(Debug, Copy, Clone, PartialEq, Eq, Structural)]
pub struct PageDirectoryEntry(pub u32);

impl PageDirectoryEntry {
    pub fn new(val: u32) -> (entry: Self)
        ensures
            entry.0 == val,
    {
        Self(val)
    }

    /// Sets bit 0 (present) to the lowest bit of `val`.
    pub fn set_present(&mut self, val: u32)
        ensures
            final(self).0 == with_bit(old(self).0, 0, val),
    {
        let val = val & 1;
        self.0 = (self.0 & !(1u32 << 0)) | (val << 0);
    }

    /// Sets bit 1 (writable) to the lowest bit of `val`.
    pub fn set_rw(&mut self, val: u32)
        ensures
            final(self).0 == with_bit(old(self).0, 1, val),
    {
        let val = val & 1;
        self.0 = (self.0 & !(1u32 << 1)) | (val << 1);
    }

    /// Sets bit 2 (user-accessible) to the lowest bit of `val`.
    pub fn set_priv(&mut self, val: u32)
        ensures
            final(self).0 == with_bit(old(self).0, 2, val),
    {
        let val = val & 1;
        self.0 = (self.0 & !(1u32 << 2)) | (val << 2);
    }

    /// Sets bit 3 (write-through) to the lowest bit of `val`.
    pub fn set_write_through(&mut self, val: u32)
        ensures
            final(self).0 == with_bit(old(self).0, 3, val),
    {
        let val = val & 1;
        self.0 = (self.0 & !(1u32 << 3)) | (val << 3);
    }

    /// Sets bit 4 (cache-disable) to the lowest bit of `val`.
    pub fn set_cache_disable(&mut self, val: u32)
        ensures
            final(self).0 == with_bit(old(self).0, 4, val),
    {
        let val = val & 1;
        self.0 = (self.0 & !(1u32 << 4)) | (val << 4);
    }

    /// Sets bit 5 (accessed) to the lowest bit of `val`.
    pub fn set_accessed(&mut self, val: u32)
        ensures
            final(self).0 == with_bit(old(self).0, 5, val),
    {
        let val = val & 1;
        self.0 = (self.0 & !(1u32 << 5)) | (val << 5);
    }

    /// Sets bit 7 (large page) to the lowest bit of `val`.
    pub fn set_pagesize(&mut self, val: u32)
        ensures
            final(self).0 == with_bit(old(self).0, 7, val),
    {
        let val = val & 1;
        self.0 = (self.0 & !(1u32 << 7)) | (val << 7);
    }

    /// Stores the physical base of the page table in bits 12..31.
    pub fn set_paddr(&mut self, addr: PhysAddr)
        ensures
            final(self).0 == with_base(old(self).0, addr.0),
    {
        self.0 = addr.0 | (self.0 & 0xfff);
    }

    /// The physical base of the page table the entry points to.
    pub fn get_paddr(&self) -> (addr: PhysAddr)
        ensures
            addr.0 == base_of(self.0),
    {
        PhysAddr(self.0 & !0xfffu32)
    }
}

/// A page table entry.
#[derive(Debug, Copy, Clone, PartialEq, Eq, Structural)]
pub struct PageTableEntry(pub u32);

impl PageTableEntry {
    pub fn new(val: u32) -> (entry: Self)
        ensures
            entry.0 == val,
    {
        Self(val)
    }

    /// Sets bit 0 (present) to the lowest bit of `val`.
    pub fn set_present(&mut self, val: u32)
        ensures
            final(self).0 == with_bit(old(self).0, 0, val),
    {
        let val = val & 1;
        self.0 = (self.0 & !(1u32 << 0)) | (val << 0);
    }

    /// Sets bit 1 (writable) to the lowest bit of `val`.
    pub fn set_rw(&mut self, val: u32)
        ensures
            final(self).0 == with_bit(old(self).0, 1, val),
    {
        let val = val & 1;
        self.0 = (self.0 & !(1u32 << 1)) | (val << 1);
    }

    /// Sets bit 2 (user-accessible) to the lowest bit of `val`.
    pub fn set_priv(&mut self, val: u32)
        ensures
            final(self).0 == with_bit(old(self).0, 2, val),
    {
        let val = val & 1;
        self.0 = (self.0 & !(1u32 << 2)) | (val << 2);
    }

    /// Sets bit 3 (write-through) to the lowest bit of `val`.
    pub fn set_write_through(&mut self, val: u32)
        ensures
            final(self).0 == with_bit(old(self).0, 3, val),
    {
        let val = val & 1;
        self.0 = (self.0 & !(1u32 << 3)) | (val << 3);
    }

    /// Sets bit 4 (cache-disable) to the lowest bit of `val`.
    pub fn set_cache_disable(&mut self, val: u32)
        ensures
            final(self).0 == with_bit(old(self).0, 4, val),
    {
        let val = val & 1;
        self.0 = (self.0 & !(1u32 << 4)) | (val << 4);
    }

    /// Sets bit 5 (accessed) to the lowest bit of `val`.
    pub fn set_accessed(&mut self, val: u32)
        ensures
            final(self).0 == with_bit(old(self).0, 5, val),
    {
        let val = val & 1;
        self.0 = (self.0 & !(1u32 << 5)) | (val << 5);
    }

    /// Sets bit 6 (dirty) to the lowest bit of `val`.
    pub fn set_dirty(&mut self, val: u32)
        ensures
            final(self).0 == with_bit(old(self).0, 6, val),
    {
        let val = val & 1;
        self.0 = (self.0 & !(1u32 << 6)) | (val << 6);
    }

    /// Sets bit 7 (page attribute table) to the lowest bit of `val`.
    pub fn set_page_attribute_table(&mut self, val: u32)
        ensures
            final(self).0 == with_bit(old(self).0, 7, val),
    {
        let val = val & 1;
        self.0 = (self.0 & !(1u32 << 7)) | (val << 7);
    }

    /// Sets bit 8 (global) to the lowest bit of `val`.
    pub fn set_global(&mut self, val: u32)
        ensures
            final(self).0 == with_bit(old(self).0, 8, val),
    {
        let val = val & 1;
        self.0 = (self.0 & !(1u32 << 8)) | (val << 8);
    }

    /// Stores the physical base of the mapped frame in bits 12..31.
    pub fn set_paddr(&mut self, addr: PhysAddr)
        ensures
            final(self).0 == with_base(old(self).0, addr.0),
    {
        self.0 = addr.0 | (self.0 & 0xfff);
    }

    /// The physical base of the frame the entry maps.
    pub fn get_paddr(&self) -> (addr: PhysAddr)
        ensures
            addr.0 == base_of(self.0),
    {
        PhysAddr(self.0 & !0xfffu32)
    }
}

/// Whether an entry has its present bit set.
pub open spec fn present(word: u32) -> bool {
    word & PAGE_PRESENT != 0
}

/// Index in the page directory of the entry that covers `vaddr`: bits 22..31.
pub open spec fn pde_index(vaddr: u32) -> int {
    vaddr as int / 0x40_0000
}

/// Index in its page table of the entry that covers `vaddr`: bits 12..21.
pub open spec fn pte_index(vaddr: u32) -> int {
    (vaddr as int / 0x1000) % 0x400
}

/// The shifts and masks that take an address apart agree with division and
/// remainder, and both indices stay below 1024.
pub proof fn lemma_indices(vaddr: u32)
    ensures
        (vaddr >> 22) & 0x3ff == pde_index(vaddr),
        (vaddr >> 12) & 0x3ff == pte_index(vaddr),
        0 <= pde_index(vaddr) < 1024,
        0 <= pte_index(vaddr) < 1024,
        page_of(vaddr) == pde_index(vaddr) * 1024 + pte_index(vaddr),
{
    assert(vaddr / 0x1000 == (vaddr / 0x40_0000) * 1024 + (vaddr / 0x1000) % 0x400) by (bit_vector);
    assert((vaddr >> 22) & 0x3ff == vaddr / 0x40_0000) by (bit_vector);
    assert((vaddr >> 12) & 0x3ff == (vaddr / 0x1000) % 0x400) by (bit_vector);
    assert(vaddr / 0x40_0000 < 1024) by (bit_vector);
}

/// The base of an entry is page-aligned and not above the entry's value.
pub proof fn lemma_base_of(word: u32)
    ensures
        base_of(word) % 0x1000 == 0,
        base_of(word) <= word,
{
    assert((word & !0xfffu32) % 0x1000 == 0) by (bit_vector);
    assert((word & !0xfffu32) <= word) by (bit_vector);
}

/// An entry made of a page-aligned frame address and flags below 0x1000
/// has that frame as its base and those flags as its low bits.
pub proof fn lemma_entry_parts(frame: u32, flags: u32)
    requires
        frame % 0x1000 == 0,
        flags < 0x1000,
    ensures
        base_of(frame | flags) == frame,
        (frame | flags) & 0xfff == flags,
        present(frame | flags) <==> flags & 1 != 0,
{
    assert(frame % 0x1000 == 0 && flags < 0x1000 ==> ((frame | flags) & !0xfffu32) == frame && (frame
        | flags) & 0xfff == flags && ((frame | flags) & 1 != 0 <==> flags & 1 != 0)) by (bit_vector);
}

/// The byte at physical address `addr` lies in the frame that starts at
/// `frame`.
pub open spec fn in_frame(addr: int, frame: u32) -> bool {
    frame <= addr < frame + 0x1000
}

/// The page number of a virtual address.
pub open spec fn page_of(vaddr: u32) -> int {
    vaddr as int / 0x1000
}

/// State of a page table mapping: what a walk of the tables finds for one
/// virtual address.
#[derive(Debug, Copy, Clone, PartialEq, Eq, Structural)]
pub struct Mapping {
    /// Physical address of the page directory entry for this mapping.
    pub pde: Option<PhysAddr>,
    /// Physical address of the page table entry for this mapping; absent
    /// where the directory entry is not present.
    pub pte: Option<PhysAddr>,
    /// Base address of the frame backing the page; absent where the walk
    /// reaches an entry that is not present.
    pub page: Option<PhysAddr>,
}

/// A page directory, identified by the physical address of the frame that
/// holds its 1024 entries.
#[derive(Debug, Copy, Clone, PartialEq, Eq, Structural)]
pub struct PageDirectory {
    pub table: PhysAddr,
}

/// A page table, identified by the physical address of the frame that holds
/// its 1024 entries.
#[derive(Debug, Copy, Clone, PartialEq, Eq, Structural)]
pub struct PageTable {
    pub table: PhysAddr,
}

impl PageTable {
    /// The frame at `self.table` lies inside the kernel's window.
    pub open spec fn in_window(&self) -> bool {
        self.table.0 + PAGE_SIZE <= KERNEL_PHYS_WINDOW_SIZE
    }

    /// Creates a `PageTable` from the physical address of its frame.
    pub fn from_paddr(paddr: PhysAddr) -> (ptb: Self)
        ensures
            ptb.table == paddr,
    {
        Self { table: paddr }
    }

    /// Overwrites the entry at `index` with `entry`.
    pub fn set_entry(&self, mem: &mut PhysMem, index: usize, entry: u32)
        requires
            old(mem).wf(),
            self.in_window(),
            index < 1024,
        ensures
            final(mem).wf(),
            final(mem).bitmap() == old(mem).bitmap(),
            final(mem).ram() == store_word(old(mem).ram(), self.table.0 + index * 4, entry),
    {
        let entry_paddr = PhysAddr(self.table.0 + (index * 4) as u32);
        mem.write_u32(entry_paddr, entry);
    }

    /// The entry at `index`.
    pub fn get_entry(&self, mem: &PhysMem, index: usize) -> (entry: PageTableEntry)
        requires
            mem.wf(),
            self.in_window(),
            index < 1024,
        ensures
            entry.0 == word_at(mem.ram(), self.table.0 + index * 4),
    {
        let entry_paddr = PhysAddr(self.table.0 + (index * 4) as u32);
        PageTableEntry::new(mem.read_u32(entry_paddr))
    }
}

impl PageDirectory {
    /// The frame at `self.table` lies inside the kernel's window.
    pub open spec fn in_window(&self) -> bool {
        self.table.0 + PAGE_SIZE <= KERNEL_PHYS_WINDOW_SIZE
    }

    /// Physical address of the directory entry that covers `vaddr`.
    pub open spec fn pde_slot(&self, vaddr: u32) -> int {
        self.table.0 + pde_index(vaddr) * 4
    }

    /// The directory whose frame is at `paddr`.
    pub open spec fn at(paddr: PhysAddr) -> PageDirectory {
        PageDirectory { table: paddr }
    }

    /// The directory entry at `index`.
    pub open spec fn entry(&self, ram: Seq<u8>, index: int) -> u32 {
        word_at(ram, self.table.0 + index * 4)
    }

    /// The directory entry that covers `vaddr`.
    pub open spec fn pde(&self, ram: Seq<u8>, vaddr: u32) -> u32 {
        self.entry(ram, pde_index(vaddr))
    }

    /// Physical address of the table entry that covers `vaddr`, going by
    /// the base held in the directory entry.
    pub open spec fn pte_slot(&self, ram: Seq<u8>, vaddr: u32) -> int {
        base_of(self.pde(ram, vaddr)) + pte_index(vaddr) * 4
    }

    /// The table entry that covers `vaddr`.
    pub open spec fn pte(&self, ram: Seq<u8>, vaddr: u32) -> u32 {
        word_at(ram, self.pte_slot(ram, vaddr))
    }

    /// The frame that the table entry for `vaddr` points to.
    pub open spec fn frame(&self, ram: Seq<u8>, vaddr: u32) -> u32 {
        base_of(self.pte(ram, vaddr))
    }

    /// A walk for `vaddr` stays inside the kernel's window: the directory
    /// does, and so does the page table of a present directory entry.
    pub open spec fn walkable(&self, ram: Seq<u8>, vaddr: u32) -> bool {
        &&& self.in_window()
        &&& present(self.pde(ram, vaddr)) ==> base_of(self.pde(ram, vaddr)) + PAGE_SIZE
            <= KERNEL_PHYS_WINDOW_SIZE
    }

    /// What a walk of the directory and the table finds for `vaddr`.
    pub open spec fn walk(&self, ram: Seq<u8>, vaddr: u32) -> Mapping {
        let pde = self.pde(ram, vaddr);
        let pte = self.pte(ram, vaddr);
        Mapping {
            pde: Some(PhysAddr(self.pde_slot(vaddr) as u32)),
            pte: if present(pde) {
                Some(PhysAddr(self.pte_slot(ram, vaddr) as u32))
            } else {
                None
            },
            page: if present(pde) && present(pte) {
                Some(PhysAddr(base_of(pte)))
            } else {
                None
            },
        }
    }

    /// The byte at physical address `addr` belongs to the directory's frame
    /// or to the frame of one of its page tables.
    pub open spec fn owns(&self, ram: Seq<u8>, addr: int) -> bool {
        in_frame(addr, self.table.0) || exists|i: int|
            0 <= i < 1024 && present(#[trigger] self.entry(ram, i)) && in_frame(
                addr,
                base_of(self.entry(ram, i)),
            )
    }

    /// The directory and each of its page tables sit in frames that the
    /// allocator has handed out, and no two of them share a frame.
    pub open spec fn wf_on(&self, bitmap: Seq<u8>, ram: Seq<u8>) -> bool {
        &&& frame_in_use(bitmap, self.table.0)
        &&& forall|i: int|
            0 <= i < 1024 && present(#[trigger] self.entry(ram, i)) ==> frame_in_use(
                bitmap,
                base_of(self.entry(ram, i)),
            ) && base_of(self.entry(ram, i)) != self.table.0
        &&& forall|i: int, j: int|
            0 <= i < 1024 && 0 <= j < 1024 && i != j && present(#[trigger] self.entry(ram, i))
                && present(#[trigger] self.entry(ram, j)) ==> base_of(self.entry(ram, i))
                != base_of(self.entry(ram, j))
    }

    /// Physical memory is well formed and holds this directory well formed.
    pub open spec fn wf(&self, mem: &PhysMem) -> bool {
        mem.wf() && self.wf_on(mem.bitmap(), mem.ram())
    }

    /// Bitmap and RAM after `map_raw(vaddr, raw)`.
    pub open spec fn mapped_raw(
        &self,
        bitmap: Seq<u8>,
        ram: Seq<u8>,
        vaddr: u32,
        raw: u32,
    ) -> (Seq<u8>, Seq<u8>) {
        if present(self.pde(ram, vaddr)) {
            (bitmap, self.ram_after_map_present(ram, vaddr, raw))
        } else {
            let t = lowest_free(bitmap);
            (bitmap.update(t, 1), self.ram_after_map_absent(ram, frame_addr(t), vaddr, raw))
        }
    }

    /// Bitmap and RAM after one page of `map`: the lowest free frame is
    /// taken and `vaddr` is mapped to it with `flags`.
    pub open spec fn mapped_page(
        &self,
        bitmap: Seq<u8>,
        ram: Seq<u8>,
        vaddr: u32,
        flags: u32,
    ) -> (Seq<u8>, Seq<u8>) {
        let f = lowest_free(bitmap);
        self.mapped_raw(bitmap.update(f, 1), ram, vaddr, frame_addr(f) | flags)
    }

    /// Bitmap and RAM after `map` has gone through the first `n` pages that
    /// start at `vaddr`, in ascending order.
    pub open spec fn mapped_pages(
        &self,
        bitmap: Seq<u8>,
        ram: Seq<u8>,
        vaddr: u32,
        n: nat,
        flags: u32,
    ) -> (Seq<u8>, Seq<u8>)
        decreases n,
    {
        if n == 0 {
            (bitmap, ram)
        } else {
            let before = self.mapped_pages(bitmap, ram, vaddr, (n - 1) as nat, flags);
            self.mapped_page(before.0, before.1, (vaddr + (n - 1) * 0x1000) as u32, flags)
        }
    }

    /// RAM after `map_raw(vaddr, raw)` on a directory whose entry for
    /// `vaddr` is present: only the table entry changes.
    pub open spec fn ram_after_map_present(&self, ram: Seq<u8>, vaddr: u32, raw: u32) -> Seq<u8> {
        store_word(ram, self.pte_slot(ram, vaddr), raw)
    }

    /// RAM after `map_raw(vaddr, raw)` on a directory whose entry for
    /// `vaddr` is not present: the frame `table` is cleared and becomes the
    /// page table, entered in the directory as present, writable and
    /// user-accessible, and its entry for `vaddr` is set.
    pub open spec fn ram_after_map_absent(
        &self,
        ram: Seq<u8>,
        table: u32,
        vaddr: u32,
        raw: u32,
    ) -> Seq<u8> {
        store_word(
            store_word(
                fill_zero(ram, table as int, PAGE_SIZE as int),
                self.pde_slot(vaddr),
                table | PAGE_PRESENT | PAGE_WRITE | PAGE_USER,
            ),
            table + pte_index(vaddr) * 4,
            raw,
        )
    }

    /// Allocates a new, empty `PageDirectory`.
    pub fn new(mem: &mut PhysMem) -> (pgd: Self)
        requires
            old(mem).wf(),
            free_count(old(mem).bitmap()) >= 1,
        ensures
            final(mem).wf(),
            pgd.table.0 == frame_addr(lowest_free(old(mem).bitmap())),
            !old(mem).in_use(pgd.table.0),
            final(mem).bitmap() == old(mem).bitmap().update(lowest_free(old(mem).bitmap()), 1),
            final(mem).ram() == fill_zero(old(mem).ram(), pgd.table.0 as int, PAGE_SIZE as int),
            free_count(final(mem).bitmap()) + 1 == free_count(old(mem).bitmap()),
    {
        let page = mem.alloc_phys_zeroed();
        Self { table: page }
    }

    /// Creates a `PageDirectory` from the physical address of its frame.
    pub fn from_paddr(paddr: PhysAddr) -> (pgd: Self)
        ensures
            pgd.table == paddr,
    {
        Self { table: paddr }
    }

    /// Overwrites the entry at `index` with `entry`.
    pub fn set_entry(&self, mem: &mut PhysMem, index: usize, entry: u32)
        requires
            old(mem).wf(),
            self.in_window(),
            index < 1024,
        ensures
            final(mem).wf(),
            final(mem).bitmap() == old(mem).bitmap(),
            final(mem).ram() == store_word(old(mem).ram(), self.table.0 + index * 4, entry),
    {
        let entry_paddr = PhysAddr(self.table.0 + (index * 4) as u32);
        mem.write_u32(entry_paddr, entry);
    }

    /// The entry at `index`.
    pub fn get_entry(&self, mem: &PhysMem, index: usize) -> (entry: PageDirectoryEntry)
        requires
            mem.wf(),
            self.in_window(),
            index < 1024,
        ensures
            entry.0 == word_at(mem.ram(), self.table.0 + index * 4),
    {
        let entry_paddr = PhysAddr(self.table.0 + (index * 4) as u32);
        PageDirectoryEntry::new(mem.read_u32(entry_paddr))
    }

    /// Maps the `size` bytes at `vaddr`: one newly allocated frame for each
    /// page of 4 KiB, entered as present, writable if `write` and
    /// user-accessible if `user`.
    #[verifier::rlimit(50)]
    pub fn map(&self, mem: &mut PhysMem, vaddr: VirtAddr, size: usize, write: bool, user: bool)
        requires
            self.wf(old(mem)),
            vaddr.0 + size <= u32::MAX,
            free_count(old(mem).bitmap()) >= map_cost(
                *self,
                old(mem).ram(),
                vaddr.0,
                page_count(size),
            ),
        ensures
            final(mem).wf(),
            (final(mem).bitmap(), final(mem).ram()) == self.mapped_pages(
                old(mem).bitmap(),
                old(mem).ram(),
                vaddr.0,
                page_count(size),
                page_flags(write, user),
            ),
            map_effect(
                *self,
                old(mem).bitmap(),
                old(mem).ram(),
                final(mem).bitmap(),
                final(mem).ram(),
                vaddr.0,
                page_count(size),
                page_flags(write, user),
            ),
            map_count(
                *self,
                old(mem).bitmap(),
                old(mem).ram(),
                final(mem).bitmap(),
                final(mem).ram(),
                vaddr.0,
                page_count(size),
            ),
    {
        let pages: usize = size / PAGE_SIZE + if size % PAGE_SIZE != 0 {
            1
        } else {
            0
        };
        let mut k: usize = 0;
        proof {
            lemma_map_effect_start(*self, mem.bitmap(), mem.ram(), vaddr.0, page_flags(write, user));
        }
        while k < pages
            invariant
                k <= pages,
                pages == page_count(size),
                vaddr.0 + size <= u32::MAX,
                mem.wf(),
                old(mem).wf(),
                free_count(old(mem).bitmap()) >= map_cost(*self, old(mem).ram(), vaddr.0, pages as nat),
                map_count(
                    *self,
                    old(mem).bitmap(),
                    old(mem).ram(),
                    mem.bitmap(),
                    mem.ram(),
                    vaddr.0,
                    k as nat,
                ),
                (mem.bitmap(), mem.ram()) == self.mapped_pages(
                    old(mem).bitmap(),
                    old(mem).ram(),
                    vaddr.0,
                    k as nat,
                    page_flags(write, user),
                ),
                map_effect(
                    *self,
                    old(mem).bitmap(),
                    old(mem).ram(),
                    mem.bitmap(),
                    mem.ram(),
                    vaddr.0,
                    k as nat,
                    page_flags(write, user),
                ),
            decreases pages - k,
        {
            let ghost bitmap1 = mem.bitmap();
            let ghost ram1 = mem.ram();
            proof {
                lemma_page_flags(write, user);
                lemma_map_count_before(
                    *self,
                    old(mem).bitmap(),
                    old(mem).ram(),
                    bitmap1,
                    ram1,
                    vaddr.0,
                    k as nat,
                    pages as nat,
                );
                lemma_map_step(
                    *self,
                    old(mem).bitmap(),
                    old(mem).ram(),
                    bitmap1,
                    ram1,
                    vaddr.0,
                    k as nat,
                    page_flags(write, user),
                );
            }
            let cur = VirtAddr(vaddr.0 + (k * PAGE_SIZE) as u32);
            // Allocate a new frame and enter it in the page table.
            let page = mem.alloc_phys();
            let new_ptb_entry = PageTableEntry::new(
                page.0 | PAGE_PRESENT | if write {
                    PAGE_WRITE
                } else {
                    0
                } | if user {
                    PAGE_USER
                } else {
                    0
                },
            );
            proof {
                let p = page.0;
                assert(p | 1 | 0 | 0 == p | 1 && p | 1 | 2 | 0 == p | 3 && p | 1 | 0 | 4 == p | 5 && p
                    | 1 | 2 | 4 == p | 7) by (bit_vector);
            }
            proof {
                lemma_mapped_raw(
                    *self,
                    mem.bitmap(),
                    mem.ram(),
                    cur.0,
                    new_ptb_entry.0,
                );
            }
            self.map_raw(mem, cur, new_ptb_entry.0);
            proof {
                lemma_map_count_after(
                    *self,
                    old(mem).bitmap(),
                    old(mem).ram(),
                    bitmap1,
                    ram1,
                    mem.bitmap(),
                    mem.ram(),
                    vaddr.0,
                    k as nat,
                    new_ptb_entry.0,
                );
            }
            k += 1;
        }
    }

    /// Maps `vaddr` to the raw page table entry `raw`. Where the directory
    /// has no page table for `vaddr` yet, one is allocated first.
    pub fn map_raw(&self, mem: &mut PhysMem, vaddr: VirtAddr, raw: u32)
        requires
            old(mem).wf(),
            self.walkable(old(mem).ram(), vaddr.0),
            !present(self.pde(old(mem).ram(), vaddr.0)) ==> free_count(old(mem).bitmap()) >= 1,
        ensures
            final(mem).wf(),
            (final(mem).bitmap(), final(mem).ram()) == self.mapped_raw(
                old(mem).bitmap(),
                old(mem).ram(),
                vaddr.0,
                raw,
            ),
            self.wf(old(mem)) ==> self.wf(final(mem)) && present(
                self.pde(final(mem).ram(), vaddr.0),
            ) && self.pte(final(mem).ram(), vaddr.0) == raw,
    {
        proof {
            if !present(self.pde(mem.ram(), vaddr.0)) {
                crate::paging::physmem::lemma_free_count_positive(mem.bitmap());
            }
            if self.wf(mem) {
                lemma_mapped_raw(*self, mem.bitmap(), mem.ram(), vaddr.0, raw);
            }
        }
        proof {
            lemma_indices(vaddr.0);
        }
        let pgd_index = ((vaddr.0 >> 22) & 0x3ff) as usize;
        let ptb_index = ((vaddr.0 >> 12) & 0x3ff) as usize;

        let mut entry = self.get_entry(mem, pgd_index);

        // If the entry is not present, allocate a blank page table and
        // update the corresponding directory entry.
        if entry.0 & PAGE_PRESENT == 0 {
            let new_ptb = mem.alloc_phys_zeroed();
            let new_pgd_entry = PageDirectoryEntry::new(
                new_ptb.0 | PAGE_PRESENT | PAGE_WRITE | PAGE_USER,
            );
            self.set_entry(mem, pgd_index, new_pgd_entry.0);
            entry = new_pgd_entry;
            proof {
                let f = new_ptb.0;
                assert(f % 0x1000 == 0 ==> ((f | 1 | 2 | 4) & !0xfffu32) == f) by (bit_vector);
            }
        }
        let ptb = PageTable::from_paddr(entry.get_paddr());
        ptb.set_entry(mem, ptb_index, raw);
    }

    /// A walk for `vaddr` finds both entries present and reaches a frame
    /// inside the kernel's window.
    pub open spec fn resolves(&self, ram: Seq<u8>, vaddr: u32) -> bool {
        &&& present(self.pde(ram, vaddr))
        &&& present(self.pte(ram, vaddr))
        &&& self.frame(ram, vaddr) + PAGE_SIZE <= KERNEL_PHYS_WINDOW_SIZE
    }

    /// The physical address behind `vaddr`: its offset in the frame that
    /// its page is mapped to.
    pub open spec fn phys_of(&self, ram: Seq<u8>, vaddr: u32) -> int {
        self.frame(ram, vaddr) + vaddr % 0x1000
    }

    /// The byte that a read at `vaddr` finds, if the address resolves.
    pub open spec fn byte_at(&self, ram: Seq<u8>, vaddr: u32) -> Option<u8> {
        if self.resolves(ram, vaddr) {
            Some(ram[self.phys_of(ram, vaddr)])
        } else {
            None
        }
    }

    /// Reads the byte at the virtual address `vaddr`, or finds that the
    /// address does not resolve.
    pub fn read_u8(&self, mem: &PhysMem, vaddr: VirtAddr) -> (byte: Option<u8>)
        requires
            self.wf(mem),
        ensures
            byte == self.byte_at(mem.ram(), vaddr.0),
    {
        let mapping = self.translate(mem, vaddr);
        match mapping.page {
            Some(frame) => {
                if frame.0 > KERNEL_PHYS_WINDOW_SIZE - PAGE_SIZE as u32 {
                    None
                } else {
                    Some(mem.read_u8(PhysAddr(frame.0 + vaddr.0 % (PAGE_SIZE as u32))))
                }
            },
            None => None,
        }
    }

    /// Writes the words of `words` one after the other from the virtual
    /// address `vaddr` on, within one page.
    pub fn write_words(&self, mem: &mut PhysMem, vaddr: VirtAddr, words: &Vec<u32>)
        requires
            self.wf(old(mem)),
            self.resolves(old(mem).ram(), vaddr.0),
            vaddr.0 % 0x1000 + 4 * words.len() <= PAGE_SIZE,
        ensures
            final(mem).wf(),
            final(mem).bitmap() == old(mem).bitmap(),
            final(mem).ram() == store_words(
                old(mem).ram(),
                self.phys_of(old(mem).ram(), vaddr.0),
                words@,
            ),
    {
        let mapping = self.translate(mem, vaddr);
        let frame = mapping.page.unwrap();
        mem.write_words(PhysAddr(frame.0 + vaddr.0 % (PAGE_SIZE as u32)), words);
    }

    /// The physical address of this page directory.
    pub fn get_paddr(&self) -> (paddr: PhysAddr)
        ensures
            paddr == self.table,
    {
        self.table
    }

    /// Walks the directory and the table for `vaddr`.
    pub fn translate(&self, mem: &PhysMem, vaddr: VirtAddr) -> (ret: Mapping)
        requires
            mem.wf(),
            self.walkable(mem.ram(), vaddr.0),
        ensures
            ret == self.walk(mem.ram(), vaddr.0),
    {
        proof {
            lemma_indices(vaddr.0);
        }
        let mut ret = Mapping { pde: None, pte: None, page: None };

        let pde_index = ((vaddr.0 >> 22) & 0x3ff) as usize;
        let pte_index = ((vaddr.0 >> 12) & 0x3ff) as usize;

        ret.pde = Some(PhysAddr(self.table.0 + (pde_index * 4) as u32));

        let pde = self.get_entry(mem, pde_index);
        if pde.0 & PAGE_PRESENT == 0 {
            return ret;
        }
        let ptb = PageTable::from_paddr(pde.get_paddr());
        ret.pte = Some(PhysAddr(ptb.table.0 + (pte_index * 4) as u32));

        let pte = ptb.get_entry(mem, pte_index);
        if pte.0 & PAGE_PRESENT == 0 {
            return ret;
        }
        ret.page = Some(pte.get_paddr());
        ret
    }
}

} // verus!
