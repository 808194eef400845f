//! A virtual memory manager: address spaces and their dynamic pages.

use vstd::prelude::*;
use super::effects::{
    fresh_space, frame_base, lemma_footprint_kept, lemma_fresh_page_walk, lemma_page_flags,
    page_mapped,
    lemma_frame_kept, lemma_fresh_space_kept, lemma_new_directory, only_fresh,
    lemma_mapped_raw, lemma_outside_bytes, lemma_owned_in_window, lemma_tables_needed_same,
    map_cost, map_count, map_effect, nth_page, map_raw_effect, outside, page_count,
    page_flags,
};
use super::pagemem::{
    in_frame, lemma_indices, pde_index, present, Mapping, PageDirectory, PhysAddr, VirtAddr, PAGE_PRESENT, PAGE_SIZE,
    PAGE_WRITE,
};
use super::physmem::{
    fill_bytes, fill_zero, frame_addr, frame_in_use, frame_index, free_count, has_free, is_managed,
    lemma_frame_of_index, lemma_free_count_positive, lemma_free_count_update, lemma_lowest_free,
    lowest_free, PhysMem, BITMAP_SIZE,
};
use super::{KERNEL_PHYS_WINDOW_SIZE, KERNEL_VMEM_ALLOCATOR_BITMAP, KERNEL_VMEM_BASE};

verus! {

/// Number of dynamic pages of an address space: one byte of its bitmap
/// page for each.
pub const VMEM_PAGES: usize = 0x1000;

/// The `n` bytes of `bits` that start at `start` are all clear.
pub open spec fn run_free(bits: Seq<u8>, start: int, n: int) -> bool {
    forall|j: int| start <= j < start + n ==> #[trigger] bits[j] == 0
}

/// `bits` holds a run of `n` clear bytes.
pub open spec fn has_run(bits: Seq<u8>, n: int) -> bool {
    exists|s: int| 0 <= s && s + n <= bits.len() && #[trigger] run_free(bits, s, n)
}

/// `start` is where the lowest run of `n` clear bytes of `bits` begins.
pub open spec fn is_lowest_run(bits: Seq<u8>, start: int, n: int) -> bool {
    &&& 0 <= start
    &&& start + n <= bits.len()
    &&& run_free(bits, start, n)
    &&& forall|s: int| 0 <= s < start ==> !#[trigger] run_free(bits, s, n)
}

/// Where the lowest run of `n` clear bytes begins, in a bitmap that has
/// such a run.
pub open spec fn lowest_run(bits: Seq<u8>, n: int) -> int {
    choose|s: int| is_lowest_run(bits, s, n)
}

/// The lowest run of clear bytes is unique.
pub proof fn lemma_lowest_run(bits: Seq<u8>, start: int, n: int)
    requires
        is_lowest_run(bits, start, n),
    ensures
        lowest_run(bits, n) == start,
{
    let s = lowest_run(bits, n);
    assert(is_lowest_run(bits, s, n));
    if s < start {
        assert(!run_free(bits, s, n));
    } else if start < s {
        assert(!run_free(bits, start, n));
    }
}

/// The two frames that `VirtMem::new` takes were free, are distinct and
/// are cleared, and nothing else has changed when they are.
#[verifier::rlimit(50)]
pub proof fn lemma_created_frames(bitmap: Seq<u8>, ram: Seq<u8>)
    requires
        bitmap.len() == BITMAP_SIZE,
        ram.len() == KERNEL_PHYS_WINDOW_SIZE,
        forall|i: int| 0 <= i < BITMAP_SIZE ==> #[trigger] bitmap[i] <= 1,
        free_count(bitmap) >= 3,
    ensures
        ({
            let vm = VirtMem::created_space(bitmap);
            let (bitmap2, ram2) = VirtMem::cleared(bitmap, ram);
            let d = vm.pgd.table.0;
            let b = vm.allocator_bitmap.0;
            &&& has_free(bitmap)
            &&& has_free(bitmap.update(lowest_free(bitmap), 1))
            &&& has_free(bitmap2)
            &&& bitmap2.len() == BITMAP_SIZE
            &&& ram2.len() == KERNEL_PHYS_WINDOW_SIZE
            &&& is_managed(d)
            &&& is_managed(b)
            &&& d != b
            &&& !frame_in_use(bitmap, d)
            &&& !frame_in_use(bitmap, b)
            &&& frame_in_use(bitmap2, d)
            &&& frame_in_use(bitmap2, b)
            &&& free_count(bitmap2) + 2 == free_count(bitmap)
            &&& only_fresh(bitmap, ram, bitmap2, ram2)
            &&& forall|a: int| in_frame(a, d) || in_frame(a, b) ==> #[trigger] ram2[a] == 0
        }),
{
    lemma_free_count_positive(bitmap);
    lemma_lowest_free(bitmap);
    let di = lowest_free(bitmap);
    let bitmap1 = bitmap.update(di, 1);
    lemma_free_count_update(bitmap, di, 1);
    lemma_free_count_positive(bitmap1);
    lemma_lowest_free(bitmap1);
    let bi = lowest_free(bitmap1);
    let bitmap2 = bitmap1.update(bi, 1);
    lemma_free_count_update(bitmap1, bi, 1);
    lemma_free_count_positive(bitmap2);
    let d = frame_addr(di);
    let b = frame_addr(bi);
    assert(d == 0x40_0000 + di * 0x1000);
    assert(b == 0x40_0000 + bi * 0x1000);
    assert(frame_index(d) == di && frame_index(b) == bi);
    let ram1 = fill_zero(ram, d as int, 0x1000);
    let ram2 = fill_zero(ram1, b as int, 0x1000);
    assert(VirtMem::cleared(bitmap, ram) == (bitmap2, ram2));
    assert forall|a: int|
        0 <= a < KERNEL_PHYS_WINDOW_SIZE && frame_in_use(bitmap, frame_base(a)) implies #[trigger] ram2[a]
        == ram[a] by {
        assert(frame_base(a) != d && frame_base(a) != b);
        assert(ram1[a] == ram[a]);
    }
}

/// What `VirtMem::new` creates: a well-formed address space built from
/// frames that were free, with its bitmap cleared and mapped, and nothing
/// else touched.
#[verifier::rlimit(50)]
pub proof fn lemma_created(bitmap: Seq<u8>, ram: Seq<u8>)
    requires
        bitmap.len() == BITMAP_SIZE,
        ram.len() == KERNEL_PHYS_WINDOW_SIZE,
        forall|i: int| 0 <= i < BITMAP_SIZE ==> #[trigger] bitmap[i] <= 1,
        free_count(bitmap) >= 3,
    ensures
        ({
            let vm = VirtMem::created_space(bitmap);
            let (bitmap3, ram3) = VirtMem::created(bitmap, ram);
            &&& bitmap3.len() == BITMAP_SIZE
            &&& ram3.len() == KERNEL_PHYS_WINDOW_SIZE
            &&& vm.pgd.wf_on(bitmap3, ram3)
            &&& frame_in_use(bitmap3, vm.allocator_bitmap.0)
            &&& outside(vm.pgd, ram3, vm.allocator_bitmap.0)
            &&& vm.maps_bitmap(ram3)
            &&& vm.bits(ram3) == Seq::new(VMEM_PAGES as nat, |i: int| 0u8)
            &&& free_count(bitmap3) + 3 == free_count(bitmap)
            &&& forall|i: int|
                0 <= i < 1024 ==> (present(#[trigger] vm.pgd.entry(ram3, i)) <==> i == pde_index(
                    KERNEL_VMEM_ALLOCATOR_BITMAP,
                ))
            &&& only_fresh(bitmap, ram, bitmap3, ram3)
            &&& fresh_space(vm.pgd, bitmap, ram3)
            &&& vm.pgd.wf_on(VirtMem::cleared(bitmap, ram).0, VirtMem::cleared(bitmap, ram).1)
        }),
{
    lemma_created_frames(bitmap, ram);
    let vm = VirtMem::created_space(bitmap);
    let pgd = vm.pgd;
    let d = pgd.table.0;
    let b = vm.allocator_bitmap.0;
    let (bitmap2, ram2) = VirtMem::cleared(bitmap, ram);
    lemma_new_directory(pgd, bitmap2, ram2);
    let raw = b | PAGE_PRESENT | PAGE_WRITE;
    lemma_mapped_raw(pgd, bitmap2, ram2, KERNEL_VMEM_ALLOCATOR_BITMAP, raw);
    let (bitmap3, ram3) = pgd.mapped_raw(bitmap2, ram2, KERNEL_VMEM_ALLOCATOR_BITMAP, raw);
    assert(VirtMem::created(bitmap, ram) == (bitmap3, ram3));
    assert(map_raw_effect(pgd, bitmap2, ram2, bitmap3, ram3, KERNEL_VMEM_ALLOCATOR_BITMAP, raw));
    lemma_indices(KERNEL_VMEM_ALLOCATOR_BITMAP);
    assert forall|i: int| 0 <= i < 1024 implies (present(#[trigger] pgd.entry(ram3, i)) <==> i
        == pde_index(KERNEL_VMEM_ALLOCATOR_BITMAP)) by {
        if i != pde_index(KERNEL_VMEM_ALLOCATOR_BITMAP) {
            assert(pgd.entry(ram3, i) == pgd.entry(ram2, i));
            assert(!present(pgd.entry(ram2, i)));
        }
    }
    assert forall|a: int| pgd.owns(ram2, a) implies in_frame(a, d) by {
        if !in_frame(a, d) {
            let i = choose|i: int| 0 <= i < 1024 && present(#[trigger] pgd.entry(ram2, i));
        }
    }
    assert(outside(pgd, ram2, b));
    lemma_frame_kept(pgd, bitmap2, ram2, bitmap3, ram3, b);
    assert(vm.bits(ram3) =~= Seq::new(VMEM_PAGES as nat, |i: int| 0u8)) by {
        assert forall|i: int| 0 <= i < VMEM_PAGES implies vm.bits(ram3)[i] == 0 by {
            assert(in_frame(b + i, b));
            assert(ram3[b + i] == ram2[b + i]);
        }
    }
    assert(fresh_space(pgd, bitmap, ram2)) by {
        assert forall|a: int| #[trigger] pgd.owns(ram2, a) implies !frame_in_use(
            bitmap,
            frame_base(a),
        ) by {
            assert(in_frame(a, d));
            assert(frame_base(a) == d);
        }
    }
    lemma_fresh_space_kept(pgd, bitmap, bitmap2, ram2, bitmap3, ram3);
    assert(only_fresh(bitmap, ram, bitmap3, ram3)) by {
        assert forall|i: int| 0 <= i < BITMAP_SIZE implies (bitmap[i] == 1 ==> #[trigger] bitmap3[i] == 1)
            && (bitmap[i] <= 1 ==> bitmap3[i] <= 1) by {
            assert(bitmap[i] == 1 ==> bitmap2[i] == 1);
            assert(bitmap[i] <= 1 ==> bitmap2[i] <= 1);
        }
        assert forall|a: int|
            0 <= a < KERNEL_PHYS_WINDOW_SIZE && frame_in_use(
                bitmap,
                frame_base(a),
            ) implies #[trigger] ram3[a] == ram[a] by {
            assert(ram2[a] == ram[a]);
        }
    }
}

/// A virtual address space.
#[derive(Debug, Copy, Clone, PartialEq, Eq, Structural)]
pub struct VirtMem {
    /// The page directory of this address space.
    pub pgd: PageDirectory,
    /// The frame that holds the allocation bitmap of this address space,
    /// one byte for each dynamic page.
    pub allocator_bitmap: PhysAddr,
}

impl VirtMem {
    /// The directory is well formed, and the bitmap sits in a frame that
    /// the allocator has handed out and that is none of the directory's own.
    pub open spec fn wf(&self, mem: &PhysMem) -> bool {
        &&& self.pgd.wf(mem)
        &&& mem.in_use(self.allocator_bitmap.0)
        &&& outside(self.pgd, mem.ram(), self.allocator_bitmap.0)
    }

    /// The allocation bitmap: byte `i` is 1 where dynamic page `i` is
    /// allocated.
    pub open spec fn bits(&self, ram: Seq<u8>) -> Seq<u8> {
        ram.subrange(self.allocator_bitmap.0 as int, self.allocator_bitmap.0 + VMEM_PAGES)
    }

    /// The page directory entry flags and frame behind the fixed address of
    /// the bitmap: the address space maps its bitmap there, writable.
    pub open spec fn maps_bitmap(&self, ram: Seq<u8>) -> bool {
        &&& present(self.pgd.pde(ram, KERNEL_VMEM_ALLOCATOR_BITMAP))
        &&& self.pgd.pte(ram, KERNEL_VMEM_ALLOCATOR_BITMAP) == self.allocator_bitmap.0 | PAGE_PRESENT
            | PAGE_WRITE
    }

    /// The address space that `new` creates: its directory in the lowest
    /// free frame, its bitmap in the next.
    pub open spec fn created_space(bitmap: Seq<u8>) -> VirtMem {
        let d = lowest_free(bitmap);
        let b = lowest_free(bitmap.update(d, 1));
        VirtMem {
            pgd: PageDirectory { table: PhysAddr(frame_addr(d)) },
            allocator_bitmap: PhysAddr(frame_addr(b)),
        }
    }

    /// Bitmap and RAM after `new` has cleared its two frames, before it
    /// maps the bitmap.
    pub open spec fn cleared(bitmap: Seq<u8>, ram: Seq<u8>) -> (Seq<u8>, Seq<u8>) {
        let d = lowest_free(bitmap);
        let bitmap1 = bitmap.update(d, 1);
        let ram1 = fill_zero(ram, frame_addr(d) as int, PAGE_SIZE as int);
        let b = lowest_free(bitmap1);
        (bitmap1.update(b, 1), fill_zero(ram1, frame_addr(b) as int, PAGE_SIZE as int))
    }

    /// Bitmap and RAM after `new`: the two lowest free frames are cleared,
    /// the first becomes the directory and the second the bitmap, and the
    /// bitmap is mapped at its fixed address.
    pub open spec fn created(bitmap: Seq<u8>, ram: Seq<u8>) -> (Seq<u8>, Seq<u8>) {
        let d = lowest_free(bitmap);
        let bitmap1 = bitmap.update(d, 1);
        let ram1 = fill_zero(ram, frame_addr(d) as int, PAGE_SIZE as int);
        let b = lowest_free(bitmap1);
        let bitmap2 = bitmap1.update(b, 1);
        let ram2 = fill_zero(ram1, frame_addr(b) as int, PAGE_SIZE as int);
        PageDirectory { table: PhysAddr(frame_addr(d)) }.mapped_raw(
            bitmap2,
            ram2,
            KERNEL_VMEM_ALLOCATOR_BITMAP,
            frame_addr(b) | PAGE_PRESENT | PAGE_WRITE,
        )
    }

    /// Creates a new address space: a new page directory and a cleared
    /// bitmap page, mapped at its fixed virtual address.
    pub fn new(mem: &mut PhysMem) -> (vmem: Self)
        requires
            old(mem).wf(),
            free_count(old(mem).bitmap()) >= 3,
        ensures
            final(mem).wf(),
            vmem.wf(final(mem)),
            vmem == Self::created_space(old(mem).bitmap()),
            (final(mem).bitmap(), final(mem).ram()) == Self::created(
                old(mem).bitmap(),
                old(mem).ram(),
            ),
            !old(mem).in_use(vmem.pgd.table.0),
            !old(mem).in_use(vmem.allocator_bitmap.0),
            vmem.maps_bitmap(final(mem).ram()),
            vmem.bits(final(mem).ram()) == Seq::new(VMEM_PAGES as nat, |i: int| 0u8),
            free_count(final(mem).bitmap()) + 3 == free_count(old(mem).bitmap()),
            forall|i: int|
                0 <= i < 1024 ==> (present(#[trigger] vmem.pgd.entry(final(mem).ram(), i)) <==> i
                    == pde_index(KERNEL_VMEM_ALLOCATOR_BITMAP)),
            only_fresh(old(mem).bitmap(), old(mem).ram(), final(mem).bitmap(), final(mem).ram()),
            fresh_space(vmem.pgd, old(mem).bitmap(), final(mem).ram()),
    {
        proof {
            lemma_created_frames(mem.bitmap(), mem.ram());
            lemma_created(mem.bitmap(), mem.ram());
        }
        let pgd = PageDirectory::new(mem);
        let bitmap = mem.alloc_phys_zeroed();
        pgd.map_raw(
            mem,
            VirtAddr(KERNEL_VMEM_ALLOCATOR_BITMAP),
            bitmap.0 | PAGE_PRESENT | PAGE_WRITE,
        );
        Self { pgd: pgd, allocator_bitmap: bitmap }
    }

    /// The address space that the page directory at `cr3` makes up,
    /// together with the bitmap that it maps at the fixed virtual address.
    pub fn get_current(mem: &PhysMem, cr3: PhysAddr) -> (vmem: Self)
        requires
            mem.wf(),
            PageDirectory::at(cr3).walkable(mem.ram(), KERNEL_VMEM_ALLOCATOR_BITMAP),
            present(PageDirectory::at(cr3).pde(mem.ram(), KERNEL_VMEM_ALLOCATOR_BITMAP)),
            present(PageDirectory::at(cr3).pte(mem.ram(), KERNEL_VMEM_ALLOCATOR_BITMAP)),
        ensures
            vmem.pgd.table == cr3,
            vmem.allocator_bitmap.0 == vmem.pgd.frame(mem.ram(), KERNEL_VMEM_ALLOCATOR_BITMAP),
    {
        let pgd = PageDirectory::from_paddr(cr3);
        let mapping = pgd.translate(mem, VirtAddr(KERNEL_VMEM_ALLOCATOR_BITMAP));
        Self { pgd: pgd, allocator_bitmap: mapping.page.unwrap() }
    }

    /// The physical address of the page directory, as it is loaded into
    /// CR3.
    pub fn get_pgd_paddr(&self) -> (paddr: PhysAddr)
        ensures
            paddr == self.pgd.table,
    {
        self.pgd.get_paddr()
    }

    /// Adds a mapping of `size` bytes at `vaddr` to the address space, with
    /// newly allocated frames behind it.
    pub fn map(&self, mem: &mut PhysMem, vaddr: VirtAddr, size: usize, write: bool, user: bool)
        requires
            self.pgd.wf(old(mem)),
            vaddr.0 + size <= u32::MAX,
            free_count(old(mem).bitmap()) >= map_cost(
                self.pgd,
                old(mem).ram(),
                vaddr.0,
                page_count(size),
            ),
        ensures
            final(mem).wf(),
            (final(mem).bitmap(), final(mem).ram()) == self.pgd.mapped_pages(
                old(mem).bitmap(),
                old(mem).ram(),
                vaddr.0,
                page_count(size),
                page_flags(write, user),
            ),
            map_effect(
                self.pgd,
                old(mem).bitmap(),
                old(mem).ram(),
                final(mem).bitmap(),
                final(mem).ram(),
                vaddr.0,
                page_count(size),
                page_flags(write, user),
            ),
            map_count(
                self.pgd,
                old(mem).bitmap(),
                old(mem).ram(),
                final(mem).bitmap(),
                final(mem).ram(),
                vaddr.0,
                page_count(size),
            ),
    {
        self.pgd.map(mem, vaddr, size, write, user);
    }

    /// Maps `vaddr` to the raw page table entry `raw`.
    pub fn map_raw(&self, mem: &mut PhysMem, vaddr: VirtAddr, raw: u32)
        requires
            old(mem).wf(),
            self.pgd.walkable(old(mem).ram(), vaddr.0),
            !present(self.pgd.pde(old(mem).ram(), vaddr.0)) ==> free_count(old(mem).bitmap()) >= 1,
        ensures
            final(mem).wf(),
            (final(mem).bitmap(), final(mem).ram()) == self.pgd.mapped_raw(
                old(mem).bitmap(),
                old(mem).ram(),
                vaddr.0,
                raw,
            ),
            self.pgd.wf(old(mem)) ==> map_raw_effect(
                self.pgd,
                old(mem).bitmap(),
                old(mem).ram(),
                final(mem).bitmap(),
                final(mem).ram(),
                vaddr.0,
                raw,
            ),
    {
        proof {
            if !present(self.pgd.pde(mem.ram(), vaddr.0)) {
                lemma_free_count_positive(mem.bitmap());
            }
            if self.pgd.wf(mem) {
                lemma_mapped_raw(self.pgd, mem.bitmap(), mem.ram(), vaddr.0, raw);
            }
        }
        self.pgd.map_raw(mem, vaddr, raw);
    }

    /// Allocates `npages` dynamic pages: the lowest run of that many free
    /// pages of the address space, each backed by a newly allocated frame.
    /// Returns the virtual address of the first.
    #[verifier::rlimit(50)]
    pub fn alloc_virt_pages(&self, mem: &mut PhysMem, npages: usize, write: bool, user: bool) -> (addr:
        VirtAddr)
        requires
            self.wf(old(mem)),
            1 <= npages <= VMEM_PAGES,
            has_run(self.bits(old(mem).ram()), npages as int),
            free_count(old(mem).bitmap()) >= map_cost(
                self.pgd,
                old(mem).ram(),
                (KERNEL_VMEM_BASE + lowest_run(self.bits(old(mem).ram()), npages as int) * PAGE_SIZE) as u32,
                npages as nat,
            ),
        ensures
            final(mem).wf(),
            self.wf(final(mem)),
            addr.0 == KERNEL_VMEM_BASE + lowest_run(self.bits(old(mem).ram()), npages as int)
                * PAGE_SIZE,
            (final(mem).bitmap(), final(mem).ram()) == self.pgd.mapped_pages(
                old(mem).bitmap(),
                fill_bytes(
                    old(mem).ram(),
                    self.allocator_bitmap.0 + lowest_run(self.bits(old(mem).ram()), npages as int),
                    npages as int,
                    1,
                ),
                addr.0,
                npages as nat,
                page_flags(write, user),
            ),
            self.bits(final(mem).ram()) == fill_bytes(
                self.bits(old(mem).ram()),
                lowest_run(self.bits(old(mem).ram()), npages as int),
                npages as int,
                1,
            ),
            map_effect(
                self.pgd,
                old(mem).bitmap(),
                fill_bytes(
                    old(mem).ram(),
                    self.allocator_bitmap.0 + lowest_run(self.bits(old(mem).ram()), npages as int),
                    npages as int,
                    1,
                ),
                final(mem).bitmap(),
                final(mem).ram(),
                addr.0,
                npages as nat,
                page_flags(write, user),
            ),
            map_count(
                self.pgd,
                old(mem).bitmap(),
                old(mem).ram(),
                final(mem).bitmap(),
                final(mem).ram(),
                addr.0,
                npages as nat,
            ),
            forall|k: int|
                0 <= k < npages ==> fresh_walk(
                    #[trigger] self.pgd.walk(final(mem).ram(), nth_page(addr.0, k)),
                    old(mem).bitmap(),
                    final(mem).bitmap(),
                ),
    {
        let ghost bits0 = self.bits(mem.ram());
        let ghost ram0 = mem.ram();
        let ghost bitmap0 = mem.bitmap();
        let bm = self.allocator_bitmap;
        // Find the lowest window of `npages` free pages.
        let mut alloc_index: usize = 0;
        loop
            invariant
                mem.wf(),
                mem.ram() == ram0,
                bits0 == self.bits(ram0),
                bm == self.allocator_bitmap,
                mem.in_use(bm.0),
                1 <= npages <= VMEM_PAGES,
                has_run(bits0, npages as int),
                alloc_index + npages <= VMEM_PAGES,
                forall|s: int| 0 <= s < alloc_index ==> !#[trigger] run_free(bits0, s, npages as int),
            ensures
                is_lowest_run(bits0, alloc_index as int, npages as int),
            decreases VMEM_PAGES - alloc_index,
        {
            let mut j: usize = 0;
            let mut free = true;
            while free && j < npages
                invariant
                    mem.wf(),
                    mem.ram() == ram0,
                    bits0 == self.bits(ram0),
                    bm == self.allocator_bitmap,
                    mem.in_use(bm.0),
                    j <= npages,
                    alloc_index + npages <= VMEM_PAGES,
                    free ==> forall|i: int| alloc_index <= i < alloc_index + j ==> #[trigger] bits0[i]
                        == 0,
                    !free ==> !run_free(bits0, alloc_index as int, npages as int),
                decreases
                        npages - j + if free {
                            1int
                        } else {
                            0int
                        },
            {
                let byte = mem.read_u8(PhysAddr(bm.0 + (alloc_index + j) as u32));
                proof {
                    assert(bits0[alloc_index + j] == ram0[bm.0 + alloc_index + j]);
                }
                if byte != 0 {
                    free = false;
                } else {
                    j += 1;
                }
            }
            if free {
                break ;
            }
            proof {
                let s = choose|s: int|
                    0 <= s && s + npages <= bits0.len() && #[trigger] run_free(bits0, s, npages as int);
                assert(s > alloc_index);
            }
            alloc_index += 1;
        }
        proof {
            lemma_lowest_run(bits0, alloc_index as int, npages as int);
        }
        // Update the allocation bitmap.
        mem.fill(PhysAddr(bm.0 + alloc_index as u32), npages, 1);
        let ghost ram1 = mem.ram();
        proof {
            lemma_outside_bytes(self.pgd, bitmap0, ram0, bm.0);
            assert forall|a: int| self.pgd.owns(ram0, a) implies #[trigger] ram1[a] == ram0[a] by {
                lemma_owned_in_window(self.pgd, bitmap0, ram0, a);
                assert(!in_frame(a, bm.0));
            }
            lemma_footprint_kept(self.pgd, bitmap0, ram0, bitmap0, ram1);
            assert(self.bits(ram1) =~= fill_bytes(bits0, alloc_index as int, npages as int, 1));
            assert(page_count((npages * PAGE_SIZE) as usize) == npages);
            lemma_tables_needed_same(
                self.pgd,
                ram0,
                ram1,
                (KERNEL_VMEM_BASE + alloc_index * PAGE_SIZE) as u32,
                npages as nat,
            );
        }
        // Determine the allocation address and create the mapping.
        let alloc_addr = VirtAddr(KERNEL_VMEM_BASE + ((alloc_index * PAGE_SIZE) as u32));
        self.map(mem, alloc_addr, npages * PAGE_SIZE, write, user);
        proof {
            assert(map_count(self.pgd, bitmap0, ram0, mem.bitmap(), mem.ram(), alloc_addr.0, npages as nat));
            assert forall|k: int| 0 <= k < npages implies fresh_walk(
                #[trigger] self.pgd.walk(mem.ram(), nth_page(alloc_addr.0, k)),
                bitmap0,
                mem.bitmap(),
            ) by {
                lemma_page_flags(write, user);
                assert(page_mapped(
                    self.pgd,
                    bitmap0,
                    mem.bitmap(),
                    mem.ram(),
                    nth_page(alloc_addr.0, k),
                    page_flags(write, user),
                ));
                lemma_fresh_page_walk(
                    self.pgd,
                    bitmap0,
                    mem.bitmap(),
                    mem.ram(),
                    nth_page(alloc_addr.0, k),
                    page_flags(write, user),
                );
            }
            lemma_frame_kept(self.pgd, bitmap0, ram1, mem.bitmap(), mem.ram(), bm.0);
            assert(self.bits(mem.ram()) =~= self.bits(ram1)) by {
                assert forall|i: int| 0 <= i < VMEM_PAGES implies self.bits(mem.ram())[i] == self.bits(
                    ram1,
                )[i] by {
                    assert(in_frame(bm.0 + i, bm.0));
                }
            }
        }
        alloc_addr
    }

    /// Index in the allocation bitmap of the dynamic page at `addr`.
    pub open spec fn page_index(addr: u32) -> int {
        (addr - KERNEL_VMEM_BASE) / (PAGE_SIZE as int)
    }

    /// Frees the `npages` dynamic pages at `addr`: the frame behind each is
    /// returned to the physical allocator, and the pages are marked free in
    /// the bitmap of the address space.
    #[verifier::rlimit(50)]
    pub fn free_virt_pages(&self, mem: &mut PhysMem, addr: VirtAddr, npages: usize)
        requires
            old(mem).wf(),
            self.allocator_bitmap.0 + VMEM_PAGES <= KERNEL_PHYS_WINDOW_SIZE,
            addr.0 >= KERNEL_VMEM_BASE,
            Self::page_index(addr.0) + npages <= VMEM_PAGES,
            addr.0 + npages * PAGE_SIZE <= u32::MAX,
            pages_backed(self.pgd, old(mem).bitmap(), old(mem).ram(), addr.0, npages as int),
        ensures
            final(mem).wf(),
            final(mem).bitmap() == frames_freed(
                self.pgd,
                old(mem).bitmap(),
                old(mem).ram(),
                addr.0,
                npages as nat,
            ),
            final(mem).ram() == fill_bytes(
                old(mem).ram(),
                self.allocator_bitmap.0 + Self::page_index(addr.0),
                npages as int,
                0,
            ),
            forall|k: int|
                0 <= k < npages ==> !final(mem).in_use(
                    #[trigger] nth_frame(self.pgd, old(mem).ram(), addr.0, k),
                ),
            self.bits(final(mem).ram()) == fill_bytes(
                self.bits(old(mem).ram()),
                Self::page_index(addr.0),
                npages as int,
                0,
            ),
    {
        let ghost bitmap0 = mem.bitmap();
        let ghost ram0 = mem.ram();
        // Get the allocator bitmap index.
        let bitmap_index = ((addr.0 - KERNEL_VMEM_BASE) / (PAGE_SIZE as u32)) as usize;

        // Free the backing physical memory.
        let mut k: usize = 0;
        while k < npages
            invariant
                k <= npages,
                mem.wf(),
                mem.ram() == ram0,
                bitmap0.len() == BITMAP_SIZE,
                addr.0 + npages * PAGE_SIZE <= u32::MAX,
                mem.bitmap() == frames_freed(self.pgd, bitmap0, ram0, addr.0, k as nat),
                pages_backed(self.pgd, bitmap0, ram0, addr.0, npages as int),
            decreases npages - k,
        {
            let virt_page = addr.0 + (k * PAGE_SIZE) as u32;
            proof {
                lemma_free_step(self.pgd, bitmap0, ram0, addr.0, npages as int, k as nat);
            }
            let mapping = self.pgd.translate(mem, VirtAddr(virt_page));
            let page = mapping.page.unwrap();
            mem.free_phys(page);
            k += 1;
        }

        // Update the allocation bitmap.
        mem.fill(PhysAddr(self.allocator_bitmap.0 + bitmap_index as u32), npages, 0);
        proof {
            assert(self.bits(mem.ram()) =~= fill_bytes(
                self.bits(ram0),
                Self::page_index(addr.0),
                npages as int,
                0,
            ));
            assert forall|j: int| 0 <= j < npages implies !frame_in_use(
                mem.bitmap(),
                #[trigger] nth_frame(self.pgd, ram0, addr.0, j),
            ) by {
                lemma_free_step(self.pgd, bitmap0, ram0, addr.0, npages as int, j as nat);
                lemma_frames_freed_clear(self.pgd, bitmap0, ram0, addr.0, npages as nat, j);
            }
        }
    }
}

/// A walk that finds everything present and ends in a frame that the
/// allocator has handed out since `bitmap`: the frame was free in `bitmap`
/// and is in use in `bitmap2`.
pub open spec fn fresh_walk(mapping: Mapping, bitmap: Seq<u8>, bitmap2: Seq<u8>) -> bool {
    &&& mapping.pde is Some
    &&& mapping.pte is Some
    &&& mapping.page is Some
    &&& frame_in_use(bitmap2, mapping.page.unwrap().0)
    &&& !frame_in_use(bitmap, mapping.page.unwrap().0)
}

/// The frame behind page `k` of the range that starts at `addr`.
pub open spec fn nth_frame(pgd: PageDirectory, ram: Seq<u8>, addr: u32, k: int) -> u32 {
    pgd.frame(ram, nth_page(addr, k))
}

/// Each of the `n` pages from `addr` is backed, no two by the same frame.
pub open spec fn pages_backed(
    pgd: PageDirectory,
    bitmap: Seq<u8>,
    ram: Seq<u8>,
    addr: u32,
    n: int,
) -> bool {
    &&& forall|k: int| 0 <= k < n ==> #[trigger] page_backed(pgd, bitmap, ram, nth_page(addr, k))
    &&& forall|k: int, l: int|
        0 <= k < l < n ==> #[trigger] nth_frame(pgd, ram, addr, k) != #[trigger] nth_frame(
            pgd,
            ram,
            addr,
            l,
        )
}

/// The frame behind each of the `n` pages from `addr` is one that the
/// allocator manages.
pub open spec fn frames_managed(pgd: PageDirectory, ram: Seq<u8>, addr: u32, n: int) -> bool {
    forall|j: int| 0 <= j < n ==> is_managed(#[trigger] nth_frame(pgd, ram, addr, j))
}

/// Freeing frames keeps the length of the bitmap.
pub proof fn lemma_frames_freed_len(pgd: PageDirectory, bitmap: Seq<u8>, ram: Seq<u8>, addr: u32, n: nat)
    requires
        bitmap.len() == BITMAP_SIZE,
        frames_managed(pgd, ram, addr, n as int),
    ensures
        frames_freed(pgd, bitmap, ram, addr, n).len() == bitmap.len(),
    decreases n,
{
    if n > 0 {
        lemma_frames_freed_len(pgd, bitmap, ram, addr, (n - 1) as nat);
        assert(is_managed(nth_frame(pgd, ram, addr, n - 1)));
    }
}

/// Freeing the frames behind a range leaves the state of every frame that
/// is behind none of its pages as it was.
pub proof fn lemma_frames_freed_other(
    pgd: PageDirectory,
    bitmap: Seq<u8>,
    ram: Seq<u8>,
    addr: u32,
    n: nat,
    index: int,
)
    requires
        bitmap.len() == BITMAP_SIZE,
        frames_managed(pgd, ram, addr, n as int),
        0 <= index < BITMAP_SIZE,
        forall|j: int| 0 <= j < n ==> frame_index(#[trigger] nth_frame(pgd, ram, addr, j)) != index,
    ensures
        frames_freed(pgd, bitmap, ram, addr, n)[index] == bitmap[index],
    decreases n,
{
    if n > 0 {
        lemma_frames_freed_len(pgd, bitmap, ram, addr, (n - 1) as nat);
        lemma_frames_freed_other(pgd, bitmap, ram, addr, (n - 1) as nat, index);
        assert(frame_index(nth_frame(pgd, ram, addr, n - 1)) != index);
        assert(is_managed(nth_frame(pgd, ram, addr, n - 1)));
    }
}

/// Freeing the frames behind a range leaves the frame behind each of its
/// pages free.
pub proof fn lemma_frames_freed_clear(
    pgd: PageDirectory,
    bitmap: Seq<u8>,
    ram: Seq<u8>,
    addr: u32,
    n: nat,
    k: int,
)
    requires
        bitmap.len() == BITMAP_SIZE,
        frames_managed(pgd, ram, addr, n as int),
        0 <= k < n,
    ensures
        frames_freed(pgd, bitmap, ram, addr, n)[frame_index(nth_frame(pgd, ram, addr, k))] == 0,
    decreases n,
{
    lemma_frames_freed_len(pgd, bitmap, ram, addr, (n - 1) as nat);
    assert(is_managed(nth_frame(pgd, ram, addr, n - 1)));
    assert(is_managed(nth_frame(pgd, ram, addr, k)));
    if k < n - 1 {
        lemma_frames_freed_clear(pgd, bitmap, ram, addr, (n - 1) as nat, k);
    }
}

/// One more page of `free_virt_pages`: the frame behind page `k` is still
/// in use when the frames behind the pages before it have been freed.
#[verifier::rlimit(50)]
pub proof fn lemma_free_step(
    pgd: PageDirectory,
    bitmap: Seq<u8>,
    ram: Seq<u8>,
    addr: u32,
    n: int,
    k: nat,
)
    requires
        bitmap.len() == BITMAP_SIZE,
        pages_backed(pgd, bitmap, ram, addr, n),
        k < n,
    ensures
        frames_managed(pgd, ram, addr, n),
        frame_in_use(
            frames_freed(pgd, bitmap, ram, addr, k),
            pgd.frame(ram, nth_page(addr, k as int)),
        ),
        page_backed(pgd, bitmap, ram, nth_page(addr, k as int)),
{
    assert forall|j: int| 0 <= j < n implies is_managed(#[trigger] nth_frame(pgd, ram, addr, j)) by {
        assert(page_backed(pgd, bitmap, ram, nth_page(addr, j)));
    }
    let f = nth_frame(pgd, ram, addr, k as int);
    assert(page_backed(pgd, bitmap, ram, nth_page(addr, k as int)));
    assert forall|j: int| 0 <= j < k implies frame_index(#[trigger] nth_frame(pgd, ram, addr, j))
        != frame_index(f) by {
        assert(nth_frame(pgd, ram, addr, j) != nth_frame(pgd, ram, addr, k as int));
        assert(is_managed(nth_frame(pgd, ram, addr, j)));
        lemma_frame_of_index(nth_frame(pgd, ram, addr, j));
        lemma_frame_of_index(f);
    }
    lemma_frames_freed_other(pgd, bitmap, ram, addr, k, frame_index(f));
}

/// The page of `vaddr` is backed: a walk for it stays inside the window and
/// finds both entries present, and the frame it reaches is in use.
pub open spec fn page_backed(pgd: PageDirectory, bitmap: Seq<u8>, ram: Seq<u8>, vaddr: u32) -> bool {
    &&& pgd.walkable(ram, vaddr)
    &&& present(pgd.pde(ram, vaddr))
    &&& present(pgd.pte(ram, vaddr))
    &&& frame_in_use(bitmap, pgd.frame(ram, vaddr))
}

/// The allocator bitmap after the frames behind the first `n` pages from
/// `addr` have been freed.
pub open spec fn frames_freed(
    pgd: PageDirectory,
    bitmap: Seq<u8>,
    ram: Seq<u8>,
    addr: u32,
    n: nat,
) -> Seq<u8>
    decreases n,
{
    if n == 0 {
        bitmap
    } else {
        frames_freed(pgd, bitmap, ram, addr, (n - 1) as nat).update(
            frame_index(pgd.frame(ram, nth_page(addr, n - 1))),
            0,
        )
    }
}

} // verus!
