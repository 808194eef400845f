//! Paging: the physical frame allocator, the two-level page tables and the
//! virtual address spaces built on them.

use vstd::prelude::*;
use effects::{absent_tables, identity_effect, lemma_confined_taken, lemma_identity_step};
use pagemem::{PageDirectory, VirtAddr, PAGE_PRESENT, PAGE_SIZE, PAGE_WRITE};
use physmem::{free_count, PhysMem};
use virtmem::VirtMem;

pub mod effects;
pub mod pagemem;
pub mod physmem;
pub mod virtmem;

verus! {

/// The virtual base in every address space where physical memory is linearly
/// mapped. With a base of 0 the window is an identity mapping.
pub const KERNEL_PHYS_WINDOW_BASE: u32 = 0;

/// Size of the kernel physical window: 128 MiB, the size of RAM.
pub const KERNEL_PHYS_WINDOW_SIZE: u32 = 0x800_0000;

/// Base virtual address of the window used for dynamic allocations.
pub const KERNEL_VMEM_BASE: u32 = 0x1337_0000;

/// Virtual address at which each space maps its own allocation bitmap.
pub const KERNEL_VMEM_ALLOCATOR_BITMAP: u32 = 0xdead_0000;

/// Physical base address of the area served by the frame allocator.
pub const PHYS_ALLOCATOR_BASE: usize = 0x40_0000;

/// Number of pages of the kernel physical window.
pub const KERNEL_PHYS_WINDOW_PAGES: u32 = 0x8000;

/// Bitmap and RAM after the identity mapping has gone through the first `n`
/// pages of the window, in ascending order.
pub open spec fn identity_mapped(
    pgd: PageDirectory,
    bitmap: Seq<u8>,
    ram: Seq<u8>,
    n: nat,
) -> (Seq<u8>, Seq<u8>)
    decreases n,
{
    if n == 0 {
        (bitmap, ram)
    } else {
        let before = identity_mapped(pgd, bitmap, ram, (n - 1) as nat);
        let paddr = ((n - 1) * 0x1000) as u32;
        pgd.mapped_raw(before.0, before.1, paddr, paddr | 3)
    }
}

/// Identity maps the physical memory of the kernel's window into the
/// address space `vmem`, present and writable, at virtual address
/// `KERNEL_PHYS_WINDOW_BASE`.
pub fn setup_identity_mapping(vmem: &VirtMem, mem: &mut PhysMem)
    requires
        vmem.pgd.wf(old(mem)),
        free_count(old(mem).bitmap()) >= absent_tables(vmem.pgd, old(mem).ram(), 32),
    ensures
        final(mem).wf(),
        (final(mem).bitmap(), final(mem).ram()) == identity_mapped(
            vmem.pgd,
            old(mem).bitmap(),
            old(mem).ram(),
            KERNEL_PHYS_WINDOW_PAGES as nat,
        ),
        identity_effect(
            vmem.pgd,
            old(mem).bitmap(),
            old(mem).ram(),
            final(mem).bitmap(),
            final(mem).ram(),
            KERNEL_PHYS_WINDOW_PAGES as nat,
        ),
{
    let mut k: u32 = 0;
    proof {
        lemma_confined_taken(vmem.pgd, mem.bitmap(), mem.ram(), 0);
    }
    while k < KERNEL_PHYS_WINDOW_PAGES
        invariant
            k <= KERNEL_PHYS_WINDOW_PAGES,
            mem.wf(),
            old(mem).wf(),
            free_count(old(mem).bitmap()) >= absent_tables(vmem.pgd, old(mem).ram(), 32),
            (mem.bitmap(), mem.ram()) == identity_mapped(
                vmem.pgd,
                old(mem).bitmap(),
                old(mem).ram(),
                k as nat,
            ),
            identity_effect(
                vmem.pgd,
                old(mem).bitmap(),
                old(mem).ram(),
                mem.bitmap(),
                mem.ram(),
                k as nat,
            ),
        decreases KERNEL_PHYS_WINDOW_PAGES - k,
    {
        proof {
            lemma_identity_step(
                vmem.pgd,
                old(mem).bitmap(),
                old(mem).ram(),
                mem.bitmap(),
                mem.ram(),
                k as nat,
            );
        }
        let paddr: u32 = k * (PAGE_SIZE as u32);
        let vaddr = VirtAddr(KERNEL_PHYS_WINDOW_BASE + paddr);
        proof {
            assert(paddr | 1 | 2 == paddr | 3) by (bit_vector);
        }
        vmem.map_raw(mem, vaddr, paddr | PAGE_PRESENT | PAGE_WRITE);
        k += 1;
    }
}

} // verus!
