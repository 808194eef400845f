use kernel_core::paging::pagemem::{
    Mapping, PageDirectory, PageDirectoryEntry, PageTable, PageTableEntry, PhysAddr, VirtAddr,
    PAGE_PRESENT, PAGE_SIZE, PAGE_USER, PAGE_WRITE,
};
use kernel_core::paging::physmem::{PhysMem, BASE_ALLOCATOR, BITMAP_SIZE};
use kernel_core::paging::virtmem::VirtMem;
use kernel_core::paging::{
    setup_identity_mapping, KERNEL_PHYS_WINDOW_SIZE, KERNEL_VMEM_ALLOCATOR_BITMAP, KERNEL_VMEM_BASE,
};

const BASE: u32 = BASE_ALLOCATOR as u32;

fn check_pde_setter(set: fn(&mut PageDirectoryEntry, u32), bit: u32) {
    let mut entry = PageDirectoryEntry::new(0);
    set(&mut entry, 1);
    assert_eq!(entry.0, 1 << bit);
    set(&mut entry, 1);
    assert_eq!(entry.0, 1 << bit);
    set(&mut entry, 0);
    assert_eq!(entry.0, 0);
    // Only the lowest bit of the value counts.
    set(&mut entry, 2);
    assert_eq!(entry.0, 0);
    set(&mut entry, 3);
    assert_eq!(entry.0, 1 << bit);
    // Every other bit stays.
    let mut full = PageDirectoryEntry::new(0xffff_ffff);
    set(&mut full, 0);
    assert_eq!(full.0, !(1u32 << bit));
    set(&mut full, 0);
    assert_eq!(full.0, !(1u32 << bit));
    set(&mut full, 1);
    assert_eq!(full.0, 0xffff_ffff);
}

fn check_pte_setter(set: fn(&mut PageTableEntry, u32), bit: u32) {
    let mut entry = PageTableEntry::new(0);
    set(&mut entry, 1);
    assert_eq!(entry.0, 1 << bit);
    set(&mut entry, 1);
    assert_eq!(entry.0, 1 << bit);
    set(&mut entry, 0);
    assert_eq!(entry.0, 0);
    set(&mut entry, 0xfffe);
    assert_eq!(entry.0, 0);
    let mut full = PageTableEntry::new(0xffff_ffff);
    set(&mut full, 0);
    assert_eq!(full.0, !(1u32 << bit));
    set(&mut full, 1);
    assert_eq!(full.0, 0xffff_ffff);
}

#[test]
fn pde_setters_touch_their_bit_only() {
    check_pde_setter(PageDirectoryEntry::set_present, 0);
    check_pde_setter(PageDirectoryEntry::set_rw, 1);
    check_pde_setter(PageDirectoryEntry::set_priv, 2);
    check_pde_setter(PageDirectoryEntry::set_write_through, 3);
    check_pde_setter(PageDirectoryEntry::set_cache_disable, 4);
    check_pde_setter(PageDirectoryEntry::set_accessed, 5);
    check_pde_setter(PageDirectoryEntry::set_pagesize, 7);
}

#[test]
fn pte_setters_touch_their_bit_only() {
    check_pte_setter(PageTableEntry::set_present, 0);
    check_pte_setter(PageTableEntry::set_rw, 1);
    check_pte_setter(PageTableEntry::set_priv, 2);
    check_pte_setter(PageTableEntry::set_write_through, 3);
    check_pte_setter(PageTableEntry::set_cache_disable, 4);
    check_pte_setter(PageTableEntry::set_accessed, 5);
    check_pte_setter(PageTableEntry::set_dirty, 6);
    check_pte_setter(PageTableEntry::set_page_attribute_table, 7);
    check_pte_setter(PageTableEntry::set_global, 8);
}

#[test]
fn entry_base_keeps_flags() {
    let mut pde = PageDirectoryEntry::new(0x0000_0007);
    pde.set_paddr(PhysAddr(0x0040_3000));
    assert_eq!(pde.0, 0x0040_3007);
    assert_eq!(pde.get_paddr(), PhysAddr(0x0040_3000));
    pde.set_paddr(PhysAddr(0x0040_3000));
    assert_eq!(pde.0, 0x0040_3007);

    let mut pte = PageTableEntry::new(0x0000_0103);
    pte.set_paddr(PhysAddr(0x07fd_f000));
    assert_eq!(pte.0, 0x07fd_f103);
    assert_eq!(pte.get_paddr(), PhysAddr(0x07fd_f000));
    assert_eq!(PageTableEntry::new(0xffff_ffff).get_paddr(), PhysAddr(0xffff_f000));
}

#[test]
fn alloc_phys_hands_out_lowest_free_frame() {
    let mut mem = PhysMem::new();
    assert_eq!(mem.free_frames(), BITMAP_SIZE);
    let first = mem.alloc_phys();
    assert_eq!(first, PhysAddr(BASE));
    let second = mem.alloc_phys();
    assert_eq!(second, PhysAddr(BASE + 0x1000));
    let third = mem.alloc_phys();
    assert_eq!(third, PhysAddr(BASE + 0x2000));
    assert!(mem.is_allocated(first));
    assert!(mem.is_allocated(second));
    assert_eq!(mem.free_frames(), BITMAP_SIZE - 3);
    mem.free_phys(second);
    assert!(!mem.is_allocated(second));
    assert!(mem.is_allocated(first));
    assert!(mem.is_allocated(third));
    // The freed frame is the lowest free one again.
    assert_eq!(mem.alloc_phys(), second);
    assert_eq!(mem.alloc_phys(), PhysAddr(BASE + 0x3000));
}

#[test]
fn alloc_phys_never_repeats_a_frame_in_use() {
    let mut mem = PhysMem::new();
    let mut held: Vec<PhysAddr> = Vec::new();
    for round in 0..200u32 {
        let frame = mem.alloc_phys();
        assert!(!held.contains(&frame));
        held.push(frame);
        // Free every third frame as we go, in a scattered order.
        if round % 3 == 2 {
            let victim = held.remove((round as usize * 7) % held.len());
            mem.free_phys(victim);
        }
    }
}

#[test]
fn alloc_free_pairs_restore_the_bitmap() {
    let mut mem = PhysMem::new();
    // Some frames stay in use throughout.
    let kept_a = mem.alloc_phys();
    let kept_b = mem.alloc_phys();
    mem.free_phys(kept_a);
    let free_before = mem.free_frames();
    let mut frames: Vec<PhysAddr> = Vec::new();
    for _ in 0..64 {
        frames.push(mem.alloc_phys());
    }
    assert_eq!(mem.free_frames(), free_before - 64);
    // Free them in a scattered order.
    let mut step = 0usize;
    while !frames.is_empty() {
        step = (step * 31 + 17) % frames.len();
        mem.free_phys(frames.remove(step));
    }
    assert_eq!(mem.free_frames(), free_before);
    assert!(!mem.is_allocated(kept_a));
    assert!(mem.is_allocated(kept_b));
    for index in 0..70u32 {
        let addr = PhysAddr(BASE + index * 0x1000);
        assert_eq!(mem.is_allocated(addr), addr == kept_b);
    }
}

#[test]
fn is_allocated_rejects_frames_that_are_not_managed() {
    let mut mem = PhysMem::new();
    let frame = mem.alloc_phys();
    assert!(!mem.is_allocated(PhysAddr(frame.0 + 4)));
    assert!(!mem.is_allocated(PhysAddr(0)));
    assert!(!mem.is_allocated(PhysAddr(BASE - 0x1000)));
    assert!(!mem.is_allocated(PhysAddr(BASE + (BITMAP_SIZE as u32) * 0x1000)));
    assert!(!mem.is_allocated(PhysAddr(0xffff_f000)));
}

#[test]
fn alloc_phys_zeroed_clears_the_frame() {
    let mut mem = PhysMem::new();
    let frame = mem.alloc_phys();
    mem.write_u32(frame, 0xdead_beef);
    mem.write_u32(PhysAddr(frame.0 + 0xffc), 0x1234_5678);
    mem.free_phys(frame);
    // A plain allocation leaves the contents.
    let again = mem.alloc_phys();
    assert_eq!(again, frame);
    assert_eq!(mem.read_u32(frame), 0xdead_beef);
    mem.free_phys(frame);
    let cleared = mem.alloc_phys_zeroed();
    assert_eq!(cleared, frame);
    assert_eq!(mem.read_u32(frame), 0);
    assert_eq!(mem.read_u32(PhysAddr(frame.0 + 0xffc)), 0);
}

#[test]
fn words_are_little_endian() {
    let mut mem = PhysMem::new();
    mem.write_u32(PhysAddr(0x1000), 0x1122_3344);
    assert_eq!(mem.read_u8(PhysAddr(0x1000)), 0x44);
    assert_eq!(mem.read_u8(PhysAddr(0x1001)), 0x33);
    assert_eq!(mem.read_u8(PhysAddr(0x1002)), 0x22);
    assert_eq!(mem.read_u8(PhysAddr(0x1003)), 0x11);
    assert_eq!(mem.read_u32(PhysAddr(0x1000)), 0x1122_3344);
    mem.write_u8(PhysAddr(0x1001), 0xaa);
    assert_eq!(mem.read_u32(PhysAddr(0x1000)), 0x1122_aa44);
    // The neighbours are untouched.
    assert_eq!(mem.read_u32(PhysAddr(0x0ffc)), 0);
    assert_eq!(mem.read_u32(PhysAddr(0x1004)), 0);
    // The last word of the window can be reached.
    mem.write_u32(PhysAddr(KERNEL_PHYS_WINDOW_SIZE - 4), 0xffff_ffff);
    assert_eq!(mem.read_u32(PhysAddr(KERNEL_PHYS_WINDOW_SIZE - 4)), 0xffff_ffff);
}

#[test]
fn fill_and_write_words() {
    let mut mem = PhysMem::new();
    mem.fill(PhysAddr(0x2000), 5, 0x7f);
    assert_eq!(mem.read_u8(PhysAddr(0x1fff)), 0);
    assert_eq!(mem.read_u8(PhysAddr(0x2000)), 0x7f);
    assert_eq!(mem.read_u8(PhysAddr(0x2004)), 0x7f);
    assert_eq!(mem.read_u8(PhysAddr(0x2005)), 0);
    mem.write_words(PhysAddr(0x3000), &vec![1, 2, 0xffff_ffff]);
    assert_eq!(mem.read_u32(PhysAddr(0x3000)), 1);
    assert_eq!(mem.read_u32(PhysAddr(0x3004)), 2);
    assert_eq!(mem.read_u32(PhysAddr(0x3008)), 0xffff_ffff);
    assert_eq!(mem.read_u32(PhysAddr(0x300c)), 0);
    mem.zero_frame(PhysAddr(0x3000));
    assert_eq!(mem.read_u32(PhysAddr(0x3008)), 0);
}

#[test]
fn physical_window_is_an_identity() {
    assert_eq!(PhysMem::translate(PhysAddr(0x1234), 4), VirtAddr(0x1234));
    assert_eq!(
        PhysMem::translate(PhysAddr(KERNEL_PHYS_WINDOW_SIZE - 4), 4),
        VirtAddr(KERNEL_PHYS_WINDOW_SIZE - 4)
    );
}

#[test]
fn translate_on_an_empty_directory_finds_no_table() {
    let mut mem = PhysMem::new();
    let pgd = PageDirectory::new(&mut mem);
    assert_eq!(pgd.get_paddr(), PhysAddr(BASE));
    let mapping = pgd.translate(&mem, VirtAddr(0x1234_5678));
    assert_eq!(
        mapping,
        Mapping { pde: Some(PhysAddr(BASE + 4 * 0x48)), pte: None, page: None }
    );
}

#[test]
fn map_raw_allocates_a_table_once() {
    let mut mem = PhysMem::new();
    let pgd = PageDirectory::new(&mut mem);
    let free_before = mem.free_frames();
    pgd.map_raw(&mut mem, VirtAddr(0x1000_0000), 0x0abc_d007);
    // The page table is the next frame, entered present, writable, user.
    let table = BASE + 0x1000;
    assert_eq!(mem.free_frames(), free_before - 1);
    assert_eq!(pgd.get_entry(&mem, 0x40).0, table | 7);
    assert_eq!(PageTable::from_paddr(PhysAddr(table)).get_entry(&mem, 0).0, 0x0abc_d007);
    assert_eq!(
        pgd.translate(&mem, VirtAddr(0x1000_0abc)),
        Mapping {
            pde: Some(PhysAddr(BASE + 4 * 0x40)),
            pte: Some(PhysAddr(table)),
            page: Some(PhysAddr(0x0abc_d000)),
        }
    );
    // A second page of the same 4 MiB uses the same table.
    pgd.map_raw(&mut mem, VirtAddr(0x1000_3000), 0x0000_5001);
    assert_eq!(mem.free_frames(), free_before - 1);
    assert_eq!(
        pgd.translate(&mem, VirtAddr(0x1000_3000)),
        Mapping {
            pde: Some(PhysAddr(BASE + 4 * 0x40)),
            pte: Some(PhysAddr(table + 12)),
            page: Some(PhysAddr(0x0000_5000)),
        }
    );
    // The first mapping is as it was, and mapping again overwrites.
    assert_eq!(pgd.translate(&mem, VirtAddr(0x1000_0000)).page, Some(PhysAddr(0x0abc_d000)));
    pgd.map_raw(&mut mem, VirtAddr(0x1000_0000), 0x0123_4003);
    assert_eq!(pgd.translate(&mem, VirtAddr(0x1000_0000)).page, Some(PhysAddr(0x0123_4000)));
    // Another 4 MiB takes another table.
    pgd.map_raw(&mut mem, VirtAddr(0xffc0_0000), 0x0000_9003);
    assert_eq!(mem.free_frames(), free_before - 2);
    assert_eq!(pgd.get_entry(&mem, 0x3ff).0, (BASE + 0x2000) | 7);
}

#[test]
fn translate_stops_at_an_entry_that_is_not_present() {
    let mut mem = PhysMem::new();
    let pgd = PageDirectory::new(&mut mem);
    pgd.map_raw(&mut mem, VirtAddr(0x0040_0000), 0x0000_7002);
    let mapping = pgd.translate(&mem, VirtAddr(0x0040_0000));
    assert_eq!(mapping.pde, Some(PhysAddr(BASE + 4)));
    assert_eq!(mapping.pte, Some(PhysAddr(BASE + 0x1000)));
    assert_eq!(mapping.page, None);
    // The neighbouring page has a table but no entry.
    let neighbour = pgd.translate(&mem, VirtAddr(0x0040_1000));
    assert_eq!(neighbour.pte, Some(PhysAddr(BASE + 0x1004)));
    assert_eq!(neighbour.page, None);
}

#[test]
fn set_entry_and_get_entry_address_the_slots() {
    let mut mem = PhysMem::new();
    let pgd = PageDirectory::from_paddr(PhysAddr(0x0050_0000));
    pgd.set_entry(&mut mem, 3, 0xaabb_ccdd);
    assert_eq!(mem.read_u32(PhysAddr(0x0050_000c)), 0xaabb_ccdd);
    assert_eq!(pgd.get_entry(&mem, 3).0, 0xaabb_ccdd);
    assert_eq!(pgd.get_entry(&mem, 2).0, 0);
    let ptb = PageTable::from_paddr(PhysAddr(0x0060_0000));
    ptb.set_entry(&mut mem, 1023, 0x1);
    assert_eq!(mem.read_u32(PhysAddr(0x0060_0ffc)), 1);
    assert_eq!(ptb.get_entry(&mem, 1023).0, 1);
}

#[test]
fn map_backs_each_page_with_a_frame_of_its_own() {
    for (write, user, flags) in
        [(false, false, 1u32), (true, false, 3), (false, true, 5), (true, true, 7)]
    {
        let mut mem = PhysMem::new();
        let pgd = PageDirectory::new(&mut mem);
        // 0x2001 bytes are three pages; the range crosses into a second table.
        pgd.map(&mut mem, VirtAddr(0x007f_f000), 0x2001, write, user);
        let mut frames: Vec<u32> = Vec::new();
        for page in 0..3u32 {
            let vaddr = VirtAddr(0x007f_f000 + page * 0x1000);
            let mapping = pgd.translate(&mem, vaddr);
            let frame = mapping.page.expect("page is mapped");
            assert!(mem.is_allocated(frame));
            assert!(!frames.contains(&frame.0));
            frames.push(frame.0);
            let slot = mapping.pte.expect("table exists");
            assert_eq!(mem.read_u32(slot), frame.0 | flags);
        }
        // Directory, two tables and three frames.
        assert_eq!(mem.free_frames(), BITMAP_SIZE - 6);
        // In the order of allocation: frame, then its table where needed.
        assert_eq!(frames, vec![BASE + 0x1000, BASE + 0x3000, BASE + 0x5000]);
        assert_eq!(pgd.translate(&mem, VirtAddr(0x0080_2000)).page, None);
        assert_eq!(pgd.translate(&mem, VirtAddr(0x007f_e000)).page, None);
    }
}

#[test]
fn map_of_no_bytes_maps_nothing() {
    let mut mem = PhysMem::new();
    let pgd = PageDirectory::new(&mut mem);
    pgd.map(&mut mem, VirtAddr(0x1000), 0, true, true);
    assert_eq!(mem.free_frames(), BITMAP_SIZE - 1);
    assert_eq!(pgd.translate(&mem, VirtAddr(0x1000)).pte, None);
}

#[test]
fn new_address_space_maps_its_bitmap() {
    let mut mem = PhysMem::new();
    let vmem = VirtMem::new(&mut mem);
    assert_eq!(vmem.get_pgd_paddr(), PhysAddr(BASE));
    assert_eq!(vmem.allocator_bitmap, PhysAddr(BASE + 0x1000));
    let mapping = vmem.pgd.translate(&mem, VirtAddr(KERNEL_VMEM_ALLOCATOR_BITMAP));
    assert_eq!(mapping.page, Some(vmem.allocator_bitmap));
    assert_eq!(
        mem.read_u32(mapping.pte.unwrap()),
        vmem.allocator_bitmap.0 | PAGE_PRESENT | PAGE_WRITE
    );
    assert_eq!(mem.free_frames(), BITMAP_SIZE - 3);
    // The address space is found again from its directory.
    assert_eq!(VirtMem::get_current(&mem, vmem.get_pgd_paddr()), vmem);
}

#[test]
fn alloc_virt_pages_takes_the_lowest_run() {
    let mut mem = PhysMem::new();
    let vmem = VirtMem::new(&mut mem);
    let a = vmem.alloc_virt_pages(&mut mem, 1, true, false);
    assert_eq!(a, VirtAddr(KERNEL_VMEM_BASE));
    let b = vmem.alloc_virt_pages(&mut mem, 2, true, true);
    assert_eq!(b, VirtAddr(KERNEL_VMEM_BASE + 0x1000));
    let c = vmem.alloc_virt_pages(&mut mem, 1, false, true);
    assert_eq!(c, VirtAddr(KERNEL_VMEM_BASE + 0x3000));
    for index in 0..4u32 {
        assert_eq!(mem.read_u8(PhysAddr(vmem.allocator_bitmap.0 + index)), 1);
    }
    assert_eq!(mem.read_u8(PhysAddr(vmem.allocator_bitmap.0 + 4)), 0);
    // A hole of one page is too small for two.
    vmem.free_virt_pages(&mut mem, a, 1);
    let d = vmem.alloc_virt_pages(&mut mem, 2, true, true);
    assert_eq!(d, VirtAddr(KERNEL_VMEM_BASE + 0x4000));
    let e = vmem.alloc_virt_pages(&mut mem, 1, true, true);
    assert_eq!(e, a);
}

#[test]
fn fresh_virtual_pages_walk_to_allocated_frames() {
    let mut mem = PhysMem::new();
    let vmem = VirtMem::new(&mut mem);
    let mut in_use_before: Vec<bool> = Vec::new();
    for index in 0..16u32 {
        in_use_before.push(mem.is_allocated(PhysAddr(BASE + index * 0x1000)));
    }
    let addr = vmem.alloc_virt_pages(&mut mem, 3, true, true);
    let mut frames: Vec<PhysAddr> = Vec::new();
    for page in 0..3u32 {
        let mapping = vmem.pgd.translate(&mem, VirtAddr(addr.0 + page * 0x1000));
        assert!(mapping.pde.is_some());
        let pde = mem.read_u32(mapping.pde.unwrap());
        assert_eq!(pde & PAGE_PRESENT, PAGE_PRESENT);
        let pte = mem.read_u32(mapping.pte.expect("directory entry is present"));
        assert_eq!(pte & 0xfff, PAGE_PRESENT | PAGE_WRITE | PAGE_USER);
        let frame = mapping.page.expect("table entry is present");
        assert!(mem.is_allocated(frame));
        let index = ((frame.0 - BASE) / 0x1000) as usize;
        assert!(!in_use_before[index]);
        assert!(!frames.contains(&frame));
        frames.push(frame);
    }
}

#[test]
fn free_virt_pages_frees_frames_and_bits() {
    let mut mem = PhysMem::new();
    let vmem = VirtMem::new(&mut mem);
    let keep = vmem.alloc_virt_pages(&mut mem, 1, true, true);
    let addr = vmem.alloc_virt_pages(&mut mem, 3, true, true);
    let free_before = mem.free_frames();
    let mut frames: Vec<PhysAddr> = Vec::new();
    for page in 0..3u32 {
        frames.push(vmem.pgd.translate(&mem, VirtAddr(addr.0 + page * 0x1000)).page.unwrap());
    }
    let kept_frame = vmem.pgd.translate(&mem, keep).page.unwrap();
    vmem.free_virt_pages(&mut mem, addr, 3);
    for frame in &frames {
        assert!(!mem.is_allocated(*frame));
    }
    assert!(mem.is_allocated(kept_frame));
    assert_eq!(mem.free_frames(), free_before + 3);
    assert_eq!(mem.read_u8(vmem.allocator_bitmap), 1);
    for index in 1..4u32 {
        assert_eq!(mem.read_u8(PhysAddr(vmem.allocator_bitmap.0 + index)), 0);
    }
    // The pages can be allocated again.
    assert_eq!(vmem.alloc_virt_pages(&mut mem, 3, true, true), addr);
}

#[test]
fn identity_mapping_covers_the_window() {
    let mut mem = PhysMem::new();
    let vmem = VirtMem::new(&mut mem);
    let free_before = mem.free_frames();
    setup_identity_mapping(&vmem, &mut mem);
    // One page table for each 4 MiB of the 128 MiB.
    assert_eq!(mem.free_frames(), free_before - 32);
    for vaddr in [0u32, 0x1000, 0x0012_3456, 0x0040_0000, 0x07ff_f000, 0x07ff_ffff] {
        let mapping = vmem.pgd.translate(&mem, VirtAddr(vaddr));
        assert_eq!(mapping.page, Some(PhysAddr(vaddr & !0xfff)));
        assert_eq!(mem.read_u32(mapping.pte.unwrap()), (vaddr & !0xfff) | PAGE_PRESENT | PAGE_WRITE);
        assert_eq!(vmem.pgd.read_u8(&mem, VirtAddr(vaddr)), Some(mem.read_u8(PhysAddr(vaddr))));
    }
    assert_eq!(vmem.pgd.translate(&mem, VirtAddr(0x0800_0000)).pte, None);
    // The bitmap is still mapped.
    assert_eq!(
        vmem.pgd.translate(&mem, VirtAddr(KERNEL_VMEM_ALLOCATOR_BITMAP)).page,
        Some(vmem.allocator_bitmap)
    );
}

#[test]
fn virtual_reads_and_writes_go_through_the_tables() {
    let mut mem = PhysMem::new();
    let vmem = VirtMem::new(&mut mem);
    let addr = vmem.alloc_virt_pages(&mut mem, 1, true, true);
    let frame = vmem.pgd.translate(&mem, addr).page.unwrap();
    vmem.pgd.write_words(&mut mem, VirtAddr(addr.0 + 0x10), &vec![0x0403_0201, 0x0807_0605]);
    assert_eq!(mem.read_u32(PhysAddr(frame.0 + 0x10)), 0x0403_0201);
    assert_eq!(vmem.pgd.read_u8(&mem, VirtAddr(addr.0 + 0x10)), Some(1));
    assert_eq!(vmem.pgd.read_u8(&mem, VirtAddr(addr.0 + 0x17)), Some(8));
    assert_eq!(vmem.pgd.read_u8(&mem, VirtAddr(addr.0 + 0x1000)), None);
    assert_eq!(vmem.pgd.read_u8(&mem, VirtAddr(0x4000_0000)), None);
    // A frame outside the window cannot be read.
    vmem.map_raw(&mut mem, VirtAddr(0x5000_0000), 0x0800_0000 | PAGE_PRESENT | PAGE_USER);
    assert_eq!(vmem.pgd.read_u8(&mem, VirtAddr(0x5000_0000)), None);
    assert_eq!(PAGE_SIZE, 0x1000);
}
