//! What mapping does to physical memory: the relations between the state
//! before and the state after that the contracts of the paging layer use,
//! and their proofs.

use vstd::prelude::*;
use super::pagemem::{
    base_of, in_frame, lemma_base_of, lemma_entry_parts, lemma_indices, page_of, pde_index, present,
    pte_index, PageDirectory, PhysAddr, PAGE_PRESENT, PAGE_SIZE, PAGE_USER, PAGE_WRITE,
};
use super::physmem::{
    fill_zero, frame_addr, frame_in_use, frame_index, free_count, has_free, is_managed,
    lemma_free_count_positive, lemma_free_count_update, lemma_lowest_free, lemma_word_at_same,
    lemma_word_at_stored, lemma_word_at_zeroed, lowest_free, store_word, BITMAP_SIZE,
};
use super::KERNEL_PHYS_WINDOW_SIZE;

verus! {

/// Changes to physical memory that stay within what a directory may touch:
/// no frame is freed; no directory entry that was present changes; a page
/// table that is new sits in a frame that was free; and no byte changes
/// outside the directory's frame and the frames of its page tables.
pub open spec fn changes_confined(
    pgd: PageDirectory,
    bitmap: Seq<u8>,
    ram: Seq<u8>,
    bitmap2: Seq<u8>,
    ram2: Seq<u8>,
) -> bool {
    &&& bitmap2.len() == BITMAP_SIZE
    &&& ram2.len() == KERNEL_PHYS_WINDOW_SIZE
    &&& forall|i: int|
        0 <= i < BITMAP_SIZE ==> (bitmap[i] == 1 ==> #[trigger] bitmap2[i] == 1) && (bitmap[i] <= 1
            ==> bitmap2[i] <= 1)
    &&& forall|i: int|
        0 <= i < 1024 && present(pgd.entry(ram, i)) ==> #[trigger] pgd.entry(ram2, i) == pgd.entry(
            ram,
            i,
        )
    &&& forall|i: int|
        0 <= i < 1024 && !present(pgd.entry(ram, i)) && present(#[trigger] pgd.entry(ram2, i))
            ==> !frame_in_use(bitmap, base_of(pgd.entry(ram2, i)))
    &&& forall|a: int|
        0 <= a < KERNEL_PHYS_WINDOW_SIZE && !pgd.owns(ram2, a) ==> #[trigger] ram2[a] == ram[a]
}

/// What `map_raw(vaddr, raw)` does to a well-formed directory, as a
/// relation between the state before and the state after: the directory
/// stays well formed, `vaddr` is mapped to `raw`, every other page is mapped
/// as before, no frame is freed and at most one is taken, and the only
/// bytes that change lie in the directory's frame or in the page table for
/// `vaddr`, which is either one of the directory's tables or was free.
pub open spec fn map_raw_effect(
    pgd: PageDirectory,
    bitmap: Seq<u8>,
    ram: Seq<u8>,
    bitmap2: Seq<u8>,
    ram2: Seq<u8>,
    vaddr: u32,
    raw: u32,
) -> bool {
    &&& pgd.wf_on(bitmap2, ram2)
    &&& changes_confined(pgd, bitmap, ram, bitmap2, ram2)
    &&& present(pgd.pde(ram2, vaddr))
    &&& pgd.pte(ram2, vaddr) == raw
    &&& present(pgd.pde(ram, vaddr)) ==> bitmap2 == bitmap
    &&& !present(pgd.pde(ram, vaddr)) ==> free_count(bitmap2) + 1 == free_count(bitmap)
    &&& forall|i: int|
        0 <= i < 1024 && i != pde_index(vaddr) ==> #[trigger] pgd.entry(ram2, i) == pgd.entry(ram, i)
    &&& forall|v: u32|
        page_of(v) != page_of(vaddr) && present(pgd.pde(ram, v)) ==> #[trigger] pgd.pte(ram2, v)
            == pgd.pte(ram, v)
}

proof fn lemma_frames_apart(f: u32, g: u32)
    requires
        f % 0x1000 == 0,
        g % 0x1000 == 0,
        f != g,
    ensures
        f + 0x1000 <= g || g + 0x1000 <= f,
{
}

#[verifier::rlimit(50)]
proof fn lemma_mapped_present(pgd: PageDirectory, bitmap: Seq<u8>, ram: Seq<u8>, vaddr: u32, raw: u32)
    requires
        bitmap.len() == BITMAP_SIZE,
        ram.len() == KERNEL_PHYS_WINDOW_SIZE,
        pgd.wf_on(bitmap, ram),
        present(pgd.pde(ram, vaddr)),
    ensures
        map_raw_effect(
            pgd,
            bitmap,
            ram,
            bitmap,
            pgd.ram_after_map_present(ram, vaddr, raw),
            vaddr,
            raw,
        ),
{
    lemma_indices(vaddr);
    let di = pde_index(vaddr);
    let ti = pte_index(vaddr);
    let d = pgd.table.0;
    let t = base_of(pgd.entry(ram, di));
    lemma_base_of(pgd.entry(ram, di));
    let slot = t + ti * 4;
    let ram2 = store_word(ram, slot, raw);
    assert(pgd.ram_after_map_present(ram, vaddr, raw) == ram2);
    lemma_word_at_stored(ram, slot, raw);
    lemma_frames_apart(t, d);
    assert forall|i: int| 0 <= i < 1024 implies #[trigger] pgd.entry(ram2, i) == pgd.entry(ram, i) by {
        lemma_word_at_same(ram2, ram, d + i * 4);
    }
    assert(pgd.pte(ram2, vaddr) == raw);
    assert forall|v: u32|
        page_of(v) != page_of(vaddr) && present(pgd.pde(ram, v)) implies #[trigger] pgd.pte(ram2, v)
        == pgd.pte(ram, v) by {
        lemma_indices(v);
        let t2 = base_of(pgd.entry(ram, pde_index(v)));
        lemma_base_of(pgd.entry(ram, pde_index(v)));
        assert(pgd.entry(ram2, pde_index(v)) == pgd.entry(ram, pde_index(v)));
        if pde_index(v) != di {
            lemma_frames_apart(t, t2);
        }
        lemma_word_at_same(ram2, ram, t2 + pte_index(v) * 4);
    }
    assert forall|a: int|
        0 <= a < KERNEL_PHYS_WINDOW_SIZE && !pgd.owns(ram2, a) implies #[trigger] ram2[a]
        == ram[a] by {
        assert(present(pgd.entry(ram2, di)));
        assert(!in_frame(a, base_of(pgd.entry(ram2, di))));
    }
    assert(changes_confined(pgd, bitmap, ram, bitmap, ram2));
    assert(pgd.wf_on(bitmap, ram2)) by {
        assert forall|i: int| 0 <= i < 1024 && present(#[trigger] pgd.entry(ram2, i)) implies frame_in_use(
            bitmap,
            base_of(pgd.entry(ram2, i)),
        ) && base_of(pgd.entry(ram2, i)) != pgd.table.0 by {
            assert(pgd.entry(ram2, i) == pgd.entry(ram, i));
        }
        assert forall|i: int, j: int|
            0 <= i < 1024 && 0 <= j < 1024 && i != j && present(#[trigger] pgd.entry(ram2, i))
                && present(#[trigger] pgd.entry(ram2, j)) implies base_of(pgd.entry(ram2, i))
            != base_of(pgd.entry(ram2, j)) by {
            assert(pgd.entry(ram2, i) == pgd.entry(ram, i));
            assert(pgd.entry(ram2, j) == pgd.entry(ram, j));
        }
    }
}

#[verifier::rlimit(50)]
proof fn lemma_mapped_absent(pgd: PageDirectory, bitmap: Seq<u8>, ram: Seq<u8>, vaddr: u32, raw: u32)
    requires
        bitmap.len() == BITMAP_SIZE,
        ram.len() == KERNEL_PHYS_WINDOW_SIZE,
        pgd.wf_on(bitmap, ram),
        !present(pgd.pde(ram, vaddr)),
        has_free(bitmap),
    ensures
        map_raw_effect(
            pgd,
            bitmap,
            ram,
            bitmap.update(lowest_free(bitmap), 1),
            pgd.ram_after_map_absent(ram, frame_addr(lowest_free(bitmap)), vaddr, raw),
            vaddr,
            raw,
        ),
{
    lemma_indices(vaddr);
    let di = pde_index(vaddr);
    let ti = pte_index(vaddr);
    let d = pgd.table.0;
    lemma_lowest_free(bitmap);
    let fi = lowest_free(bitmap);
    let f = frame_addr(fi);
    let bitmap2 = bitmap.update(fi, 1);
    let entry = f | PAGE_PRESENT | PAGE_WRITE | PAGE_USER;
    assert(f == 0x40_0000 + fi * 0x1000);
    assert(f % 0x1000 == 0);
    assert(frame_index(f) == fi);
    assert(is_managed(f));
    assert(f % 0x1000 == 0 ==> ((f | 1 | 2 | 4) & !0xfffu32) == f && (f | 1 | 2 | 4) & 1 != 0)
        by (bit_vector);
    let ram0 = fill_zero(ram, f as int, 0x1000);
    let ram1 = store_word(ram0, d + di * 4, entry);
    let ram2 = store_word(ram1, f + ti * 4, raw);
    assert(pgd.ram_after_map_absent(ram, f, vaddr, raw) == ram2);
    lemma_free_count_update(bitmap, fi, 1);
    lemma_word_at_stored(ram0, d + di * 4, entry);
    lemma_word_at_stored(ram1, f + ti * 4, raw);
    lemma_frames_apart(f, d);
    assert forall|a: int|
        0 <= a < KERNEL_PHYS_WINDOW_SIZE && !in_frame(a, f) && !(d + di * 4 <= a < d + di * 4 + 4)
        implies #[trigger] ram2[a] == ram[a] by {
        assert(ram1[a] == ram0[a]);
    }
    assert forall|i: int| 0 <= i < 1024 && i != di implies #[trigger] pgd.entry(ram2, i)
        == pgd.entry(ram, i) by {
        lemma_word_at_same(ram2, ram, d + i * 4);
    }
    assert(pgd.entry(ram2, di) == entry) by {
        lemma_word_at_same(ram2, ram1, d + di * 4);
    }
    assert(pgd.pte(ram2, vaddr) == raw);
    assert forall|v: u32|
        page_of(v) != page_of(vaddr) && present(pgd.pde(ram, v)) implies #[trigger] pgd.pte(ram2, v)
        == pgd.pte(ram, v) by {
        lemma_indices(v);
        let t2 = base_of(pgd.entry(ram, pde_index(v)));
        lemma_base_of(pgd.entry(ram, pde_index(v)));
        assert(pgd.entry(ram2, pde_index(v)) == pgd.entry(ram, pde_index(v)));
        lemma_frames_apart(f, t2);
        lemma_frames_apart(d, t2);
        lemma_word_at_same(ram2, ram, t2 + pte_index(v) * 4);
    }
    assert forall|a: int|
        0 <= a < KERNEL_PHYS_WINDOW_SIZE && !pgd.owns(ram2, a) implies #[trigger] ram2[a]
        == ram[a] by {
        assert(present(pgd.entry(ram2, di)));
        assert(!in_frame(a, base_of(pgd.entry(ram2, di))));
    }
    assert(changes_confined(pgd, bitmap, ram, bitmap2, ram2));
    assert(pgd.wf_on(bitmap2, ram2)) by {
        assert forall|i: int| 0 <= i < 1024 && present(#[trigger] pgd.entry(ram2, i)) implies frame_in_use(
            bitmap2,
            base_of(pgd.entry(ram2, i)),
        ) && base_of(pgd.entry(ram2, i)) != pgd.table.0 by {
            if i != di {
                assert(pgd.entry(ram2, i) == pgd.entry(ram, i));
            }
        }
        assert forall|i: int, j: int|
            0 <= i < 1024 && 0 <= j < 1024 && i != j && present(#[trigger] pgd.entry(ram2, i))
                && present(#[trigger] pgd.entry(ram2, j)) implies base_of(pgd.entry(ram2, i))
            != base_of(pgd.entry(ram2, j)) by {
            if i != di {
                assert(pgd.entry(ram2, i) == pgd.entry(ram, i));
            }
            if j != di {
                assert(pgd.entry(ram2, j) == pgd.entry(ram, j));
            }
        }
    }
}

/// `map_raw` on a well-formed directory has the effect that
/// [`map_raw_effect`] describes.
pub proof fn lemma_mapped_raw(pgd: PageDirectory, bitmap: Seq<u8>, ram: Seq<u8>, vaddr: u32, raw: u32)
    requires
        bitmap.len() == BITMAP_SIZE,
        ram.len() == KERNEL_PHYS_WINDOW_SIZE,
        pgd.wf_on(bitmap, ram),
        !present(pgd.pde(ram, vaddr)) ==> has_free(bitmap),
    ensures
        map_raw_effect(
            pgd,
            bitmap,
            ram,
            pgd.mapped_raw(bitmap, ram, vaddr, raw).0,
            pgd.mapped_raw(bitmap, ram, vaddr, raw).1,
            vaddr,
            raw,
        ),
{
    if present(pgd.pde(ram, vaddr)) {
        lemma_mapped_present(pgd, bitmap, ram, vaddr, raw);
    } else {
        lemma_mapped_absent(pgd, bitmap, ram, vaddr, raw);
    }
}

/// Number of pages that `map` goes through for `size` bytes: one for each
/// started 4 KiB.
pub open spec fn page_count(size: usize) -> nat {
    (size / PAGE_SIZE + if size % PAGE_SIZE != 0 {
        1int
    } else {
        0int
    }) as nat
}

/// Flags of an entry that `map` installs: present, writable if `write`,
/// user-accessible if `user`.
pub open spec fn page_flags(write: bool, user: bool) -> u32 {
    if write {
        if user {
            7
        } else {
            3
        }
    } else {
        if user {
            5
        } else {
            1
        }
    }
}

/// The flags that `map` installs fit in the low twelve bits and hold the
/// present bit.
pub proof fn lemma_page_flags(write: bool, user: bool)
    ensures
        page_flags(write, user) < 0x1000,
        page_flags(write, user) & 1 == 1,
{
    assert(1u32 & 1 == 1 && 3u32 & 1 == 1 && 5u32 & 1 == 1 && 7u32 & 1 == 1) by (bit_vector);
}

/// Virtual address of page `k` of a range that starts at `vaddr`.
pub open spec fn nth_page(vaddr: u32, k: int) -> u32 {
    (vaddr + k * 0x1000) as u32
}

/// The page of `vaddr` is mapped, with `flags`, to a frame that was free in
/// `bitmap`, is in use in `bitmap2` and is none of the directory's own.
pub open spec fn page_mapped(
    pgd: PageDirectory,
    bitmap: Seq<u8>,
    bitmap2: Seq<u8>,
    ram2: Seq<u8>,
    vaddr: u32,
    flags: u32,
) -> bool {
    &&& present(pgd.pde(ram2, vaddr))
    &&& pgd.pte(ram2, vaddr) & 0xfff == flags
    &&& !frame_in_use(bitmap, pgd.frame(ram2, vaddr))
    &&& frame_in_use(bitmap2, pgd.frame(ram2, vaddr))
    &&& !pgd.owns(ram2, pgd.frame(ram2, vaddr) as int)
}

/// What `map` of `n` pages from `vaddr` does to a well-formed directory, as
/// a relation between the state before and the state after: the directory
/// stays well formed; each page of the range is mapped, with `flags`, to a
/// frame that was free before and is in use after, no two to the same frame;
/// every page outside the range is mapped as before; no frame is freed; and
/// no byte changes outside the directory and its page tables.
pub open spec fn map_effect(
    pgd: PageDirectory,
    bitmap: Seq<u8>,
    ram: Seq<u8>,
    bitmap2: Seq<u8>,
    ram2: Seq<u8>,
    vaddr: u32,
    n: nat,
    flags: u32,
) -> bool {
    &&& pgd.wf_on(bitmap2, ram2)
    &&& changes_confined(pgd, bitmap, ram, bitmap2, ram2)
    &&& forall|k: int|
        0 <= k < n ==> #[trigger] page_mapped(pgd, bitmap, bitmap2, ram2, nth_page(vaddr, k), flags)
    &&& forall|k: int, l: int|
        0 <= k < l < n ==> #[trigger] pgd.frame(ram2, nth_page(vaddr, k)) != #[trigger] pgd.frame(
            ram2,
            nth_page(vaddr, l),
        )
    &&& forall|v: u32|
        !(page_of(vaddr) <= page_of(v) < page_of(vaddr) + n) && present(pgd.pde(ram, v))
            ==> #[trigger] pgd.pte(ram2, v) == pgd.pte(ram, v)
}

/// Confined changes compose, and a directory's footprint only grows under
/// them.
#[verifier::rlimit(50)]
pub proof fn lemma_confined_chain(
    pgd: PageDirectory,
    bitmap: Seq<u8>,
    ram: Seq<u8>,
    bitmap1: Seq<u8>,
    ram1: Seq<u8>,
    bitmap2: Seq<u8>,
    ram2: Seq<u8>,
)
    requires
        bitmap.len() == BITMAP_SIZE,
        changes_confined(pgd, bitmap, ram, bitmap1, ram1),
        changes_confined(pgd, bitmap1, ram1, bitmap2, ram2),
    ensures
        changes_confined(pgd, bitmap, ram, bitmap2, ram2),
        forall|a: int| pgd.owns(ram1, a) ==> pgd.owns(ram2, a),
{
    assert forall|a: int| pgd.owns(ram1, a) implies pgd.owns(ram2, a) by {
        if !in_frame(a, pgd.table.0) {
            let i = choose|i: int|
                0 <= i < 1024 && present(#[trigger] pgd.entry(ram1, i)) && in_frame(
                    a,
                    base_of(pgd.entry(ram1, i)),
                );
            assert(pgd.entry(ram2, i) == pgd.entry(ram1, i));
        }
    }
    assert forall|i: int| 0 <= i < BITMAP_SIZE implies (bitmap[i] == 1 ==> #[trigger] bitmap2[i] == 1)
        && (bitmap[i] <= 1 ==> bitmap2[i] <= 1) by {
        assert(bitmap[i] == 1 ==> bitmap1[i] == 1);
        assert(bitmap[i] <= 1 ==> bitmap1[i] <= 1);
    }
    assert forall|i: int| 0 <= i < 1024 && present(pgd.entry(ram, i)) implies #[trigger] pgd.entry(
        ram2,
        i,
    ) == pgd.entry(ram, i) by {
        assert(pgd.entry(ram1, i) == pgd.entry(ram, i));
    }
    assert forall|i: int|
        0 <= i < 1024 && !present(pgd.entry(ram, i)) && present(
            #[trigger] pgd.entry(ram2, i),
        ) implies !frame_in_use(bitmap, base_of(pgd.entry(ram2, i))) by {
        let t = base_of(pgd.entry(ram2, i));
        if present(pgd.entry(ram1, i)) {
            assert(pgd.entry(ram2, i) == pgd.entry(ram1, i));
        } else {
            assert(!frame_in_use(bitmap1, t));
            if frame_in_use(bitmap, t) {
                assert(bitmap1[frame_index(t)] == 1);
            }
        }
    }
    assert forall|a: int|
        0 <= a < KERNEL_PHYS_WINDOW_SIZE && !pgd.owns(ram2, a) implies #[trigger] ram2[a]
        == ram[a] by {
        assert(ram2[a] == ram1[a]);
        assert(!pgd.owns(ram1, a));
    }
}

/// Taking a free frame, or leaving memory as it is, is a confined change.
pub proof fn lemma_confined_taken(pgd: PageDirectory, bitmap: Seq<u8>, ram: Seq<u8>, index: int)
    requires
        bitmap.len() == BITMAP_SIZE,
        ram.len() == KERNEL_PHYS_WINDOW_SIZE,
        0 <= index < BITMAP_SIZE,
    ensures
        changes_confined(pgd, bitmap, ram, bitmap.update(index, 1), ram),
        changes_confined(pgd, bitmap, ram, bitmap, ram),
{
}

/// Before its first page `map` has changed nothing.
pub proof fn lemma_map_effect_start(
    pgd: PageDirectory,
    bitmap: Seq<u8>,
    ram: Seq<u8>,
    vaddr: u32,
    flags: u32,
)
    requires
        bitmap.len() == BITMAP_SIZE,
        ram.len() == KERNEL_PHYS_WINDOW_SIZE,
        pgd.wf_on(bitmap, ram),
    ensures
        map_effect(pgd, bitmap, ram, bitmap, ram, vaddr, 0, flags),
{
}

/// A directory that is well formed stays so when a free frame is taken.
pub proof fn lemma_wf_on_taken(pgd: PageDirectory, bitmap: Seq<u8>, ram: Seq<u8>, index: int)
    requires
        bitmap.len() == BITMAP_SIZE,
        pgd.wf_on(bitmap, ram),
        0 <= index < bitmap.len(),
    ensures
        pgd.wf_on(bitmap.update(index, 1), ram),
{
    let bitmap2 = bitmap.update(index, 1);
    assert forall|i: int| 0 <= i < 1024 && present(#[trigger] pgd.entry(ram, i)) implies frame_in_use(
        bitmap2,
        base_of(pgd.entry(ram, i)),
    ) by {
        assert(frame_in_use(bitmap, base_of(pgd.entry(ram, i))));
    }
}

/// One more page of `map`: from the effect of `k` pages to that of `k + 1`.
#[verifier::rlimit(50)]
pub proof fn lemma_map_step(
    pgd: PageDirectory,
    bitmap: Seq<u8>,
    ram: Seq<u8>,
    bitmap1: Seq<u8>,
    ram1: Seq<u8>,
    vaddr: u32,
    k: nat,
    flags: u32,
)
    requires
        bitmap.len() == BITMAP_SIZE,
        ram.len() == KERNEL_PHYS_WINDOW_SIZE,
        map_effect(pgd, bitmap, ram, bitmap1, ram1, vaddr, k, flags),
        free_count(bitmap1) >= 1,
        !present(pgd.pde(ram1, nth_page(vaddr, k as int))) ==> free_count(bitmap1) >= 2,
        vaddr + k * 0x1000 <= u32::MAX,
        flags < 0x1000,
        flags & 1 == 1,
    ensures
        has_free(bitmap1),
        ({
            let f = lowest_free(bitmap1);
            let v = nth_page(vaddr, k as int);
            &&& pgd.wf_on(bitmap1.update(f, 1), ram1)
            &&& !present(pgd.pde(ram1, v)) ==> has_free(bitmap1.update(f, 1))
            &&& map_effect(
                pgd,
                bitmap,
                ram,
                pgd.mapped_page(bitmap1, ram1, v, flags).0,
                pgd.mapped_page(bitmap1, ram1, v, flags).1,
                vaddr,
                k + 1,
                flags,
            )
        }),
{
    lemma_free_count_positive(bitmap1);
    lemma_lowest_free(bitmap1);
    let fi = lowest_free(bitmap1);
    let f = frame_addr(fi);
    let v = nth_page(vaddr, k as int);
    let bitmap1a = bitmap1.update(fi, 1);
    lemma_free_count_update(bitmap1, fi, 1);
    if !present(pgd.pde(ram1, v)) {
        lemma_free_count_positive(bitmap1a);
    }
    lemma_wf_on_taken(pgd, bitmap1, ram1, fi);
    assert(f == 0x40_0000 + fi * 0x1000);
    assert(f % 0x1000 == 0);
    assert(frame_index(f) == fi);
    assert(is_managed(f));
    assert(!frame_in_use(bitmap1, f));
    lemma_entry_parts(f, flags);
    let raw = f | flags;
    lemma_mapped_raw(pgd, bitmap1a, ram1, v, raw);
    let bitmap2 = pgd.mapped_raw(bitmap1a, ram1, v, raw).0;
    let ram2 = pgd.mapped_raw(bitmap1a, ram1, v, raw).1;
    assert(map_raw_effect(pgd, bitmap1a, ram1, bitmap2, ram2, v, raw));
    lemma_indices(v);
    // The table for `v` is one of the directory's tables afterwards.
    let t = base_of(pgd.pde(ram2, v));
    lemma_base_of(pgd.pde(ram2, v));
    assert(present(pgd.entry(ram2, pde_index(v))));
    lemma_confined_taken(pgd, bitmap1, ram1, fi);
    lemma_confined_chain(pgd, bitmap, ram, bitmap1, ram1, bitmap1a, ram1);
    lemma_confined_chain(pgd, bitmap, ram, bitmap1a, ram1, bitmap2, ram2);
    // The new frame is no table of the directory.
    assert(!pgd.owns(ram2, f as int)) by {
        if pgd.owns(ram2, f as int) {
            lemma_frames_apart(f, pgd.table.0);
            let i = choose|i: int|
                0 <= i < 1024 && present(#[trigger] pgd.entry(ram2, i)) && in_frame(
                    f as int,
                    base_of(pgd.entry(ram2, i)),
                );
            lemma_base_of(pgd.entry(ram2, i));
            if base_of(pgd.entry(ram2, i)) != f {
                lemma_frames_apart(f, base_of(pgd.entry(ram2, i)));
            }
            if i == pde_index(v) && !present(pgd.pde(ram1, v)) {
                assert(!frame_in_use(bitmap1a, t));
            } else {
                assert(pgd.entry(ram2, i) == pgd.entry(ram1, i));
                assert(frame_in_use(bitmap1, base_of(pgd.entry(ram1, i))));
            }
        }
    }
    assert forall|j: int| 0 <= j < k + 1 implies #[trigger] page_mapped(
        pgd,
        bitmap,
        bitmap2,
        ram2,
        nth_page(vaddr, j),
        flags,
    ) by {
        let vj = nth_page(vaddr, j);
        if j < k {
            assert(page_mapped(pgd, bitmap, bitmap1, ram1, nth_page(vaddr, j), flags));
            lemma_indices(vj);
            assert(page_of(vj) != page_of(v));
            let e1 = pgd.pte(ram1, vj);
            assert(present(pgd.pde(ram1, vj)));
            assert(pgd.entry(ram2, pde_index(vj)) == pgd.entry(ram1, pde_index(vj)));
            assert(pgd.pte(ram2, vj) == e1);
            assert(frame_in_use(bitmap1, base_of(e1)));
            assert(frame_in_use(bitmap1a, base_of(e1)));
            assert(frame_in_use(bitmap2, base_of(e1)));
            if pgd.owns(ram2, base_of(e1) as int) {
                lemma_base_of(e1);
                lemma_frames_apart(base_of(e1), pgd.table.0);
                let i = choose|i: int|
                    0 <= i < 1024 && present(#[trigger] pgd.entry(ram2, i)) && in_frame(
                        base_of(e1) as int,
                        base_of(pgd.entry(ram2, i)),
                    );
                lemma_base_of(pgd.entry(ram2, i));
                if base_of(pgd.entry(ram2, i)) != base_of(e1) {
                    lemma_frames_apart(base_of(e1), base_of(pgd.entry(ram2, i)));
                }
                if i == pde_index(v) && !present(pgd.pde(ram1, v)) {
                    assert(!frame_in_use(bitmap1a, t));
                } else {
                    assert(pgd.entry(ram2, i) == pgd.entry(ram1, i));
                    assert(pgd.owns(ram1, base_of(e1) as int));
                }
            }
        } else {
            assert(vj == v);
            assert(!frame_in_use(bitmap, f)) by {
                if frame_in_use(bitmap, f) {
                    assert(bitmap1[fi] == 1);
                }
            }
            assert(bitmap1a[fi] == 1);
            assert(bitmap2[fi] == 1);
        }
    }
    assert forall|j: int, l: int| 0 <= j < l < k + 1 implies #[trigger] pgd.frame(
        ram2,
        nth_page(vaddr, j),
    ) != #[trigger] pgd.frame(ram2, nth_page(vaddr, l)) by {
        let vj = nth_page(vaddr, j);
        let vl = nth_page(vaddr, l);
        assert(page_mapped(pgd, bitmap, bitmap1, ram1, nth_page(vaddr, j), flags));
        assert(page_of(vj) != page_of(v));
        assert(present(pgd.pde(ram1, vj)));
        assert(pgd.pte(ram2, vj) == pgd.pte(ram1, vj));
        if l < k {
            assert(page_mapped(pgd, bitmap, bitmap1, ram1, nth_page(vaddr, l), flags));
            assert(pgd.frame(ram1, vj) != pgd.frame(ram1, vl));
            assert(page_of(vl) != page_of(v));
            assert(present(pgd.pde(ram1, vl)));
            assert(pgd.pte(ram2, vl) == pgd.pte(ram1, vl));
        } else {
            assert(vl == v);
            assert(frame_in_use(bitmap1, base_of(pgd.pte(ram1, vj))));
        }
    }
    assert forall|u: u32|
        !(page_of(vaddr) <= page_of(u) < page_of(vaddr) + (k + 1)) && present(
            pgd.pde(ram, u),
        ) implies #[trigger] pgd.pte(ram2, u) == pgd.pte(ram, u) by {
        lemma_indices(u);
        assert(page_of(u) != page_of(v));
        assert(pgd.entry(ram1, pde_index(u)) == pgd.entry(ram, pde_index(u)));
        assert(pgd.pte(ram1, u) == pgd.pte(ram, u));
        assert(pgd.pte(ram2, u) == pgd.pte(ram1, u));
    }
    assert(map_effect(pgd, bitmap, ram, bitmap2, ram2, vaddr, k + 1, flags));
}

/// A directory is untouched by changes that free no frame and leave the
/// bytes of its own frames as they are: it stays well formed, with the same
/// entries, the same page tables and the same table entries.
#[verifier::rlimit(50)]
pub proof fn lemma_footprint_kept(
    pgd: PageDirectory,
    bitmap: Seq<u8>,
    ram: Seq<u8>,
    bitmap2: Seq<u8>,
    ram2: Seq<u8>,
)
    requires
        bitmap.len() == BITMAP_SIZE,
        bitmap2.len() == BITMAP_SIZE,
        ram.len() == KERNEL_PHYS_WINDOW_SIZE,
        ram2.len() == KERNEL_PHYS_WINDOW_SIZE,
        pgd.wf_on(bitmap, ram),
        forall|i: int| 0 <= i < BITMAP_SIZE && bitmap[i] == 1 ==> #[trigger] bitmap2[i] == 1,
        forall|a: int| pgd.owns(ram, a) ==> #[trigger] ram2[a] == ram[a],
    ensures
        pgd.wf_on(bitmap2, ram2),
        forall|i: int| 0 <= i < 1024 ==> #[trigger] pgd.entry(ram2, i) == pgd.entry(ram, i),
        forall|v: u32| present(pgd.pde(ram, v)) ==> #[trigger] pgd.pte(ram2, v) == pgd.pte(ram, v),
        forall|a: int| pgd.owns(ram2, a) <==> pgd.owns(ram, a),
{
    let d = pgd.table.0;
    assert forall|i: int| 0 <= i < 1024 implies #[trigger] pgd.entry(ram2, i) == pgd.entry(ram, i) by {
        assert(in_frame(d + i * 4, d) && in_frame(d + i * 4 + 3, d));
        assert(pgd.owns(ram, d + i * 4) && pgd.owns(ram, d + i * 4 + 1) && pgd.owns(ram, d + i * 4 + 2)
            && pgd.owns(ram, d + i * 4 + 3));
        lemma_word_at_same(ram2, ram, d + i * 4);
    }
    assert forall|v: u32| present(pgd.pde(ram, v)) implies #[trigger] pgd.pte(ram2, v) == pgd.pte(
        ram,
        v,
    ) by {
        lemma_indices(v);
        let i = pde_index(v);
        let t = base_of(pgd.entry(ram, i));
        assert(pgd.entry(ram2, i) == pgd.entry(ram, i));
        let slot = t + pte_index(v) * 4;
        assert(in_frame(slot, t) && in_frame(slot + 3, t));
        assert(pgd.owns(ram, slot) && pgd.owns(ram, slot + 1) && pgd.owns(ram, slot + 2) && pgd.owns(
            ram,
            slot + 3,
        ));
        lemma_word_at_same(ram2, ram, slot);
    }
    assert forall|a: int| pgd.owns(ram2, a) <==> pgd.owns(ram, a) by {
        if pgd.owns(ram2, a) && !in_frame(a, d) {
            let i = choose|i: int|
                0 <= i < 1024 && present(#[trigger] pgd.entry(ram2, i)) && in_frame(
                    a,
                    base_of(pgd.entry(ram2, i)),
                );
            assert(pgd.entry(ram2, i) == pgd.entry(ram, i));
        }
        if pgd.owns(ram, a) && !in_frame(a, d) {
            let i = choose|i: int|
                0 <= i < 1024 && present(#[trigger] pgd.entry(ram, i)) && in_frame(
                    a,
                    base_of(pgd.entry(ram, i)),
                );
            assert(pgd.entry(ram2, i) == pgd.entry(ram, i));
        }
    }
    assert forall|i: int| 0 <= i < 1024 && present(#[trigger] pgd.entry(ram2, i)) implies frame_in_use(
        bitmap2,
        base_of(pgd.entry(ram2, i)),
    ) && base_of(pgd.entry(ram2, i)) != pgd.table.0 by {
        assert(pgd.entry(ram2, i) == pgd.entry(ram, i));
    }
    assert forall|i: int, j: int|
        0 <= i < 1024 && 0 <= j < 1024 && i != j && present(#[trigger] pgd.entry(ram2, i)) && present(
            #[trigger] pgd.entry(ram2, j),
        ) implies base_of(pgd.entry(ram2, i)) != base_of(pgd.entry(ram2, j)) by {
        assert(pgd.entry(ram2, i) == pgd.entry(ram, i));
        assert(pgd.entry(ram2, j) == pgd.entry(ram, j));
    }
}

/// The frame `frame` is none of the directory's own: neither its frame nor
/// one of its page tables.
pub open spec fn outside(pgd: PageDirectory, ram: Seq<u8>, frame: u32) -> bool {
    !pgd.owns(ram, frame as int)
}

/// A byte of an aligned frame is owned by a well-formed directory only if
/// the whole frame is.
pub proof fn lemma_outside_bytes(pgd: PageDirectory, bitmap: Seq<u8>, ram: Seq<u8>, frame: u32)
    requires
        pgd.wf_on(bitmap, ram),
        frame % 0x1000 == 0,
        outside(pgd, ram, frame),
    ensures
        forall|a: int| in_frame(a, frame) ==> !pgd.owns(ram, a),
{
    assert forall|a: int| in_frame(a, frame) implies !pgd.owns(ram, a) by {
        if pgd.owns(ram, a) {
            if in_frame(a, pgd.table.0) {
                if frame != pgd.table.0 {
                    lemma_frames_apart(frame, pgd.table.0);
                }
            } else {
                let i = choose|i: int|
                    0 <= i < 1024 && present(#[trigger] pgd.entry(ram, i)) && in_frame(
                        a,
                        base_of(pgd.entry(ram, i)),
                    );
                let t = base_of(pgd.entry(ram, i));
                lemma_base_of(pgd.entry(ram, i));
                if frame != t {
                    lemma_frames_apart(frame, t);
                }
                assert(in_frame(frame as int, t));
            }
        }
    }
}

/// Under confined changes a frame that was in use and was none of the
/// directory's own keeps its bytes, and is still none of the directory's
/// own.
#[verifier::rlimit(50)]
pub proof fn lemma_frame_kept(
    pgd: PageDirectory,
    bitmap: Seq<u8>,
    ram: Seq<u8>,
    bitmap2: Seq<u8>,
    ram2: Seq<u8>,
    frame: u32,
)
    requires
        bitmap.len() == BITMAP_SIZE,
        ram.len() == KERNEL_PHYS_WINDOW_SIZE,
        pgd.wf_on(bitmap, ram),
        pgd.wf_on(bitmap2, ram2),
        changes_confined(pgd, bitmap, ram, bitmap2, ram2),
        frame_in_use(bitmap, frame),
        outside(pgd, ram, frame),
    ensures
        outside(pgd, ram2, frame),
        frame_in_use(bitmap2, frame),
        forall|a: int| in_frame(a, frame) ==> #[trigger] ram2[a] == ram[a],
{
    if pgd.owns(ram2, frame as int) {
        if in_frame(frame as int, pgd.table.0) {
            assert(pgd.owns(ram, frame as int));
        } else {
            let i = choose|i: int|
                0 <= i < 1024 && present(#[trigger] pgd.entry(ram2, i)) && in_frame(
                    frame as int,
                    base_of(pgd.entry(ram2, i)),
                );
            let t = base_of(pgd.entry(ram2, i));
            lemma_base_of(pgd.entry(ram2, i));
            if frame != t {
                lemma_frames_apart(frame, t);
            }
            if present(pgd.entry(ram, i)) {
                assert(pgd.entry(ram2, i) == pgd.entry(ram, i));
                assert(pgd.owns(ram, frame as int));
            } else {
                assert(!frame_in_use(bitmap, t));
            }
        }
    }
    lemma_outside_bytes(pgd, bitmap2, ram2, frame);
    assert(bitmap2[frame_index(frame)] == 1);
}

/// A directory in a cleared frame that is in use has no entry present and
/// is well formed.
pub proof fn lemma_new_directory(pgd: PageDirectory, bitmap: Seq<u8>, ram: Seq<u8>)
    requires
        frame_in_use(bitmap, pgd.table.0),
        ram.len() == KERNEL_PHYS_WINDOW_SIZE,
        forall|a: int| in_frame(a, pgd.table.0) ==> #[trigger] ram[a] == 0,
    ensures
        pgd.wf_on(bitmap, ram),
        forall|i: int| 0 <= i < 1024 ==> #[trigger] pgd.entry(ram, i) == 0,
        forall|i: int| 0 <= i < 1024 ==> !present(#[trigger] pgd.entry(ram, i)),
{
    let d = pgd.table.0;
    assert(0u32 & 1 == 0) by (bit_vector);
    assert forall|i: int| 0 <= i < 1024 implies #[trigger] pgd.entry(ram, i) == 0 by {
        assert(in_frame(d + i * 4, d) && in_frame(d + i * 4 + 3, d));
        assert(fill_zero(ram, d as int, 0x1000) =~= ram);
        lemma_word_at_zeroed(ram, d as int, 0x1000, d + i * 4);
    }
}

/// Every byte that a well-formed directory owns lies inside the kernel's
/// window.
pub proof fn lemma_owned_in_window(pgd: PageDirectory, bitmap: Seq<u8>, ram: Seq<u8>, addr: int)
    requires
        pgd.wf_on(bitmap, ram),
        pgd.owns(ram, addr),
    ensures
        0 <= addr < KERNEL_PHYS_WINDOW_SIZE,
{
    if !in_frame(addr, pgd.table.0) {
        let i = choose|i: int|
            0 <= i < 1024 && present(#[trigger] pgd.entry(ram, i)) && in_frame(
                addr,
                base_of(pgd.entry(ram, i)),
            );
        assert(frame_in_use(bitmap, base_of(pgd.entry(ram, i))));
    }
}

/// Page `k` of the physical window is mapped to frame `k`, present and
/// writable.
pub open spec fn identity_page(pgd: PageDirectory, ram: Seq<u8>, k: int) -> bool {
    &&& present(pgd.pde(ram, (k * 0x1000) as u32))
    &&& pgd.pte(ram, (k * 0x1000) as u32) == ((k * 0x1000) as u32) | 3
}

/// Number of the first `m` directory entries that are not present: the
/// page tables that an identity mapping of that many times 4 MiB allocates.
pub open spec fn absent_tables(pgd: PageDirectory, ram: Seq<u8>, m: nat) -> nat
    decreases m,
{
    if m == 0 {
        0
    } else {
        absent_tables(pgd, ram, (m - 1) as nat) + if present(pgd.entry(ram, m - 1)) {
            0nat
        } else {
            1nat
        }
    }
}

/// The number of absent page tables grows with the number of entries.
pub proof fn lemma_absent_tables_grows(pgd: PageDirectory, ram: Seq<u8>, k: nat, m: nat)
    requires
        k <= m,
    ensures
        absent_tables(pgd, ram, k) <= absent_tables(pgd, ram, m),
        absent_tables(pgd, ram, m) <= m,
    decreases m,
{
    if k < m {
        lemma_absent_tables_grows(pgd, ram, k, (m - 1) as nat);
    } else if m > 0 {
        lemma_absent_tables_grows(pgd, ram, (m - 1) as nat, (m - 1) as nat);
    }
}

/// Where none of the first `m` directory entries is present, all of them
/// count.
pub proof fn lemma_absent_tables_all(pgd: PageDirectory, ram: Seq<u8>, m: nat)
    requires
        forall|i: int| 0 <= i < m ==> !present(#[trigger] pgd.entry(ram, i)),
    ensures
        absent_tables(pgd, ram, m) == m,
    decreases m,
{
    if m > 0 {
        lemma_absent_tables_all(pgd, ram, (m - 1) as nat);
    }
}

/// Number of started blocks of 4 MiB in `n` pages.
pub open spec fn blocks(n: nat) -> nat {
    (n + 1023) / 1024
}

/// What the identity mapping of the first `n` pages does to a well-formed
/// directory, as a relation between the state before and the state after:
/// the directory stays well formed; each of the `n` pages is mapped to the
/// frame of its own address, present and writable; every page above them is
/// mapped as before; the changes are confined to the directory and its page
/// tables; one frame is taken for each started 4 MiB that had no page
/// table; and the directory entries that are present are those that were
/// and those of the started 4 MiB.
pub open spec fn identity_effect(
    pgd: PageDirectory,
    bitmap: Seq<u8>,
    ram: Seq<u8>,
    bitmap2: Seq<u8>,
    ram2: Seq<u8>,
    n: nat,
) -> bool {
    &&& pgd.wf_on(bitmap2, ram2)
    &&& changes_confined(pgd, bitmap, ram, bitmap2, ram2)
    &&& free_count(bitmap2) + absent_tables(pgd, ram, blocks(n)) == free_count(bitmap)
    &&& forall|i: int|
        0 <= i < 1024 ==> (present(#[trigger] pgd.entry(ram2, i)) <==> present(pgd.entry(ram, i)) || i
            < blocks(n))
    &&& forall|k: int| 0 <= k < n ==> #[trigger] identity_page(pgd, ram2, k)
    &&& forall|v: u32|
        page_of(v) >= n && present(pgd.pde(ram, v)) ==> #[trigger] pgd.pte(ram2, v) == pgd.pte(ram, v)
}

/// One more page of the identity mapping: from the effect of `k` pages to
/// that of `k + 1`.
#[verifier::rlimit(50)]
pub proof fn lemma_identity_step(
    pgd: PageDirectory,
    bitmap: Seq<u8>,
    ram: Seq<u8>,
    bitmap1: Seq<u8>,
    ram1: Seq<u8>,
    k: nat,
)
    requires
        bitmap.len() == BITMAP_SIZE,
        ram.len() == KERNEL_PHYS_WINDOW_SIZE,
        identity_effect(pgd, bitmap, ram, bitmap1, ram1, k),
        free_count(bitmap) >= absent_tables(pgd, ram, 32),
        k < 0x8000,
    ensures
        ({
            let v = (k * 0x1000) as u32;
            &&& !present(pgd.pde(ram1, v)) ==> has_free(bitmap1)
            &&& identity_effect(
                pgd,
                bitmap,
                ram,
                pgd.mapped_raw(bitmap1, ram1, v, v | 3).0,
                pgd.mapped_raw(bitmap1, ram1, v, v | 3).1,
                k + 1,
            )
        }),
{
    let v = (k * 0x1000) as u32;
    let i = k as int / 1024;
    lemma_indices(v);
    assert(page_of(v) == k);
    assert(pde_index(v) == i);
    assert(present(pgd.entry(ram1, i)) <==> present(pgd.entry(ram, i)) || i < blocks(k));
    if k % 1024 == 0 {
        assert(blocks(k) == i);
        assert(blocks(k + 1) == i + 1);
        assert(absent_tables(pgd, ram, (i + 1) as nat) == absent_tables(pgd, ram, i as nat)
            + if present(pgd.entry(ram, i)) {
            0nat
        } else {
            1nat
        });
        lemma_absent_tables_grows(pgd, ram, (i + 1) as nat, 32);
    } else {
        assert(blocks(k) == i + 1);
        assert(blocks(k + 1) == i + 1);
    }
    if !present(pgd.pde(ram1, v)) {
        lemma_free_count_positive(bitmap1);
    }
    lemma_mapped_raw(pgd, bitmap1, ram1, v, v | 3);
    let bitmap2 = pgd.mapped_raw(bitmap1, ram1, v, v | 3).0;
    let ram2 = pgd.mapped_raw(bitmap1, ram1, v, v | 3).1;
    assert(map_raw_effect(pgd, bitmap1, ram1, bitmap2, ram2, v, v | 3));
    lemma_confined_chain(pgd, bitmap, ram, bitmap1, ram1, bitmap2, ram2);
    assert forall|j: int| 0 <= j < k + 1 implies #[trigger] identity_page(pgd, ram2, j) by {
        if j < k {
            let vj = (j * 0x1000) as u32;
            assert(identity_page(pgd, ram1, j));
            lemma_indices(vj);
            assert(page_of(vj) == j);
            assert(pgd.entry(ram2, pde_index(vj)) == pgd.entry(ram1, pde_index(vj)));
            assert(pgd.pte(ram2, vj) == pgd.pte(ram1, vj));
        }
    }
    assert forall|u: u32| page_of(u) >= k + 1 && present(pgd.pde(ram, u)) implies #[trigger] pgd.pte(
        ram2,
        u,
    ) == pgd.pte(ram, u) by {
        lemma_indices(u);
        assert(pgd.entry(ram1, pde_index(u)) == pgd.entry(ram, pde_index(u)));
        assert(pgd.pte(ram1, u) == pgd.pte(ram, u));
        assert(pgd.pte(ram2, u) == pgd.pte(ram1, u));
    }
    assert forall|j: int| 0 <= j < 1024 implies (present(#[trigger] pgd.entry(ram2, j)) <==> present(
        pgd.entry(ram, j),
    ) || j < blocks(k + 1)) by {
        if j != i {
            assert(pgd.entry(ram2, j) == pgd.entry(ram1, j));
        }
    }
    assert(free_count(bitmap2) + absent_tables(pgd, ram, blocks(k + 1)) == free_count(bitmap));
    assert(identity_effect(pgd, bitmap, ram, bitmap2, ram2, k + 1));
}

/// Start of the frame in which the byte at physical address `addr` lies.
pub open spec fn frame_base(addr: int) -> u32 {
    (addr - addr % 0x1000) as u32
}

/// Two directories that share no frame: no byte is owned by both.
pub open spec fn apart(pgd: PageDirectory, other: PageDirectory, ram: Seq<u8>) -> bool {
    forall|a: int| !(#[trigger] pgd.owns(ram, a) && other.owns(ram, a))
}

/// Changes to physical memory that touch only frames that were free: no
/// frame is freed, and every byte of a frame that was in use stays as it
/// was.
pub open spec fn only_fresh(bitmap: Seq<u8>, ram: Seq<u8>, bitmap2: Seq<u8>, ram2: Seq<u8>) -> bool {
    &&& bitmap2.len() == BITMAP_SIZE
    &&& ram2.len() == KERNEL_PHYS_WINDOW_SIZE
    &&& forall|i: int|
        0 <= i < BITMAP_SIZE ==> (bitmap[i] == 1 ==> #[trigger] bitmap2[i] == 1) && (bitmap[i] <= 1
            ==> bitmap2[i] <= 1)
    &&& forall|a: int|
        0 <= a < KERNEL_PHYS_WINDOW_SIZE && frame_in_use(bitmap, frame_base(a)) ==> #[trigger] ram2[a]
            == ram[a]
}

/// Every frame of the directory was free in `bitmap`: the directory has
/// been built since.
pub open spec fn fresh_space(pgd: PageDirectory, bitmap: Seq<u8>, ram: Seq<u8>) -> bool {
    forall|a: int| #[trigger] pgd.owns(ram, a) ==> !frame_in_use(bitmap, frame_base(a))
}

/// A byte that a well-formed directory owns lies in a frame that is in
/// use.
pub proof fn lemma_owned_in_use(pgd: PageDirectory, bitmap: Seq<u8>, ram: Seq<u8>, addr: int)
    requires
        pgd.wf_on(bitmap, ram),
        pgd.owns(ram, addr),
    ensures
        frame_in_use(bitmap, frame_base(addr)),
        0 <= addr < KERNEL_PHYS_WINDOW_SIZE,
{
    lemma_owned_in_window(pgd, bitmap, ram, addr);
    if in_frame(addr, pgd.table.0) {
        assert(frame_base(addr) == pgd.table.0);
    } else {
        let i = choose|i: int|
            0 <= i < 1024 && present(#[trigger] pgd.entry(ram, i)) && in_frame(
                addr,
                base_of(pgd.entry(ram, i)),
            );
        lemma_base_of(pgd.entry(ram, i));
        assert(frame_base(addr) == base_of(pgd.entry(ram, i)));
    }
}

/// A well-formed directory is untouched by changes that touch only frames
/// that were free.
pub proof fn lemma_fresh_kept(
    pgd: PageDirectory,
    bitmap: Seq<u8>,
    ram: Seq<u8>,
    bitmap2: Seq<u8>,
    ram2: Seq<u8>,
)
    requires
        bitmap.len() == BITMAP_SIZE,
        ram.len() == KERNEL_PHYS_WINDOW_SIZE,
        pgd.wf_on(bitmap, ram),
        only_fresh(bitmap, ram, bitmap2, ram2),
    ensures
        pgd.wf_on(bitmap2, ram2),
        forall|i: int| 0 <= i < 1024 ==> #[trigger] pgd.entry(ram2, i) == pgd.entry(ram, i),
        forall|v: u32| present(pgd.pde(ram, v)) ==> #[trigger] pgd.pte(ram2, v) == pgd.pte(ram, v),
        forall|a: int| pgd.owns(ram2, a) <==> pgd.owns(ram, a),
{
    assert forall|a: int| pgd.owns(ram, a) implies #[trigger] ram2[a] == ram[a] by {
        lemma_owned_in_use(pgd, bitmap, ram, a);
    }
    lemma_footprint_kept(pgd, bitmap, ram, bitmap2, ram2);
}

/// A directory that has been built since `bitmap0` stays so under confined
/// changes, and those changes touch no frame that was in use in `bitmap0`.
#[verifier::rlimit(50)]
pub proof fn lemma_fresh_space_kept(
    pgd: PageDirectory,
    bitmap0: Seq<u8>,
    bitmap1: Seq<u8>,
    ram1: Seq<u8>,
    bitmap2: Seq<u8>,
    ram2: Seq<u8>,
)
    requires
        bitmap0.len() == BITMAP_SIZE,
        bitmap1.len() == BITMAP_SIZE,
        ram1.len() == KERNEL_PHYS_WINDOW_SIZE,
        forall|i: int| 0 <= i < BITMAP_SIZE && bitmap0[i] == 1 ==> #[trigger] bitmap1[i] == 1,
        fresh_space(pgd, bitmap0, ram1),
        pgd.wf_on(bitmap1, ram1),
        pgd.wf_on(bitmap2, ram2),
        changes_confined(pgd, bitmap1, ram1, bitmap2, ram2),
    ensures
        fresh_space(pgd, bitmap0, ram2),
        forall|a: int|
            0 <= a < KERNEL_PHYS_WINDOW_SIZE && frame_in_use(bitmap0, frame_base(a))
                ==> #[trigger] ram2[a] == ram1[a],
{
    assert forall|a: int| #[trigger] pgd.owns(ram2, a) implies !frame_in_use(
        bitmap0,
        frame_base(a),
    ) by {
        if in_frame(a, pgd.table.0) {
            assert(pgd.owns(ram1, a));
        } else {
            let i = choose|i: int|
                0 <= i < 1024 && present(#[trigger] pgd.entry(ram2, i)) && in_frame(
                    a,
                    base_of(pgd.entry(ram2, i)),
                );
            let t = base_of(pgd.entry(ram2, i));
            lemma_base_of(pgd.entry(ram2, i));
            assert(frame_base(a) == t);
            if present(pgd.entry(ram1, i)) {
                assert(pgd.entry(ram2, i) == pgd.entry(ram1, i));
                assert(pgd.owns(ram1, a));
            } else {
                assert(!frame_in_use(bitmap1, t));
                if frame_in_use(bitmap0, t) {
                    assert(bitmap1[frame_index(t)] == 1);
                }
            }
        }
    }
    assert forall|a: int|
        0 <= a < KERNEL_PHYS_WINDOW_SIZE && frame_in_use(bitmap0, frame_base(a)) implies #[trigger] ram2[a]
        == ram1[a] by {
        assert(!pgd.owns(ram2, a));
    }
}

/// Under confined changes to a directory, a byte that it does not own, in
/// a frame that is in use, is not owned afterwards either, and keeps its
/// value.
#[verifier::rlimit(50)]
proof fn lemma_foreign_byte(
    pgd: PageDirectory,
    bitmap: Seq<u8>,
    ram: Seq<u8>,
    bitmap2: Seq<u8>,
    ram2: Seq<u8>,
    a: int,
)
    requires
        changes_confined(pgd, bitmap, ram, bitmap2, ram2),
        !pgd.owns(ram, a),
        frame_in_use(bitmap, frame_base(a)),
        0 <= a < KERNEL_PHYS_WINDOW_SIZE,
    ensures
        !pgd.owns(ram2, a),
        ram2[a] == ram[a],
{
    if pgd.owns(ram2, a) {
        let i = choose|i: int|
            0 <= i < 1024 && present(#[trigger] pgd.entry(ram2, i)) && in_frame(
                a,
                base_of(pgd.entry(ram2, i)),
            );
        let t = base_of(pgd.entry(ram2, i));
        lemma_base_of(pgd.entry(ram2, i));
        assert(frame_base(a) == t);
        if present(pgd.entry(ram, i)) {
            assert(pgd.entry(ram2, i) == pgd.entry(ram, i));
            assert(in_frame(a, base_of(pgd.entry(ram, i))));
        } else {
            assert(!frame_in_use(bitmap, t));
        }
    }
}

/// Confined changes to one directory leave another directory that shares
/// no frame with it untouched, and the two still share no frame.
#[verifier::rlimit(50)]
pub proof fn lemma_other_kept(
    pgd: PageDirectory,
    other: PageDirectory,
    bitmap: Seq<u8>,
    ram: Seq<u8>,
    bitmap2: Seq<u8>,
    ram2: Seq<u8>,
)
    requires
        bitmap.len() == BITMAP_SIZE,
        ram.len() == KERNEL_PHYS_WINDOW_SIZE,
        pgd.wf_on(bitmap, ram),
        other.wf_on(bitmap, ram),
        apart(pgd, other, ram),
        changes_confined(pgd, bitmap, ram, bitmap2, ram2),
    ensures
        other.wf_on(bitmap2, ram2),
        apart(pgd, other, ram2),
        forall|i: int| 0 <= i < 1024 ==> #[trigger] other.entry(ram2, i) == other.entry(ram, i),
        forall|v: u32| present(other.pde(ram, v)) ==> #[trigger] other.pte(ram2, v) == other.pte(ram, v),
        forall|a: int| other.owns(ram2, a) <==> other.owns(ram, a),
{
    assert forall|a: int| other.owns(ram, a) implies #[trigger] ram2[a] == ram[a] by {
        lemma_owned_in_use(other, bitmap, ram, a);
        assert(!(pgd.owns(ram, a) && other.owns(ram, a)));
        lemma_foreign_byte(pgd, bitmap, ram, bitmap2, ram2, a);
    }
    lemma_footprint_kept(other, bitmap, ram, bitmap2, ram2);
    assert forall|a: int| !(#[trigger] pgd.owns(ram2, a) && other.owns(ram2, a)) by {
        if other.owns(ram2, a) {
            assert(other.owns(ram, a));
            lemma_owned_in_use(other, bitmap, ram, a);
            assert(!(pgd.owns(ram, a) && other.owns(ram, a)));
            lemma_foreign_byte(pgd, bitmap, ram, bitmap2, ram2, a);
        }
    }
}

/// A directory built from frames that were free in `bitmap0` shares no
/// frame with a directory that was well formed then.
pub proof fn lemma_fresh_apart(
    pgd: PageDirectory,
    other: PageDirectory,
    bitmap0: Seq<u8>,
    ram0: Seq<u8>,
    ram2: Seq<u8>,
)
    requires
        other.wf_on(bitmap0, ram0),
        fresh_space(pgd, bitmap0, ram2),
        forall|a: int| other.owns(ram2, a) <==> other.owns(ram0, a),
    ensures
        apart(pgd, other, ram2),
        apart(other, pgd, ram2),
{
    assert forall|a: int| !(pgd.owns(ram2, a) && other.owns(ram2, a)) by {
        if other.owns(ram2, a) {
            lemma_owned_in_use(other, bitmap0, ram0, a);
        }
    }
}

/// The page of `vaddr` is mapped by the table entry `entry`.
pub open spec fn maps_to(pgd: PageDirectory, ram: Seq<u8>, vaddr: u32, entry: u32) -> bool {
    present(pgd.pde(ram, vaddr)) && pgd.pte(ram, vaddr) == entry
}

/// `map_raw` leaves the mapping of every other page as it was.
pub proof fn lemma_maps_kept_by_map_raw(
    pgd: PageDirectory,
    bitmap: Seq<u8>,
    ram: Seq<u8>,
    bitmap2: Seq<u8>,
    ram2: Seq<u8>,
    vaddr: u32,
    raw: u32,
    v: u32,
    entry: u32,
)
    requires
        map_raw_effect(pgd, bitmap, ram, bitmap2, ram2, vaddr, raw),
        maps_to(pgd, ram, v, entry),
        page_of(v) != page_of(vaddr),
    ensures
        maps_to(pgd, ram2, v, entry),
{
    lemma_indices(v);
    assert(pgd.entry(ram2, pde_index(v)) == pgd.entry(ram, pde_index(v)));
    assert(pgd.pte(ram2, v) == pgd.pte(ram, v));
}

/// `map` leaves the mapping of every page outside its range as it was.
pub proof fn lemma_maps_kept_by_map(
    pgd: PageDirectory,
    bitmap: Seq<u8>,
    ram: Seq<u8>,
    bitmap2: Seq<u8>,
    ram2: Seq<u8>,
    vaddr: u32,
    n: nat,
    flags: u32,
    v: u32,
    entry: u32,
)
    requires
        map_effect(pgd, bitmap, ram, bitmap2, ram2, vaddr, n, flags),
        maps_to(pgd, ram, v, entry),
        !(page_of(vaddr) <= page_of(v) < page_of(vaddr) + n),
    ensures
        maps_to(pgd, ram2, v, entry),
{
    lemma_indices(v);
    assert(pgd.entry(ram2, pde_index(v)) == pgd.entry(ram, pde_index(v)));
    assert(pgd.pte(ram2, v) == pgd.pte(ram, v));
}

/// An address space under construction since the state `(bitmap0, ram0)`:
/// its directory is well formed and built from frames that were free then,
/// as is the frame `bm` of its bitmap, which is none of the directory's
/// own; and nothing that was in use then has been touched.
pub open spec fn building(
    pgd: PageDirectory,
    bm: u32,
    bitmap0: Seq<u8>,
    ram0: Seq<u8>,
    bitmap: Seq<u8>,
    ram: Seq<u8>,
) -> bool {
    &&& pgd.wf_on(bitmap, ram)
    &&& frame_in_use(bitmap, bm)
    &&& outside(pgd, ram, bm)
    &&& !frame_in_use(bitmap0, bm)
    &&& fresh_space(pgd, bitmap0, ram)
    &&& only_fresh(bitmap0, ram0, bitmap, ram)
}

/// Confined changes to the directory of an address space under
/// construction leave it under construction.
#[verifier::rlimit(50)]
pub proof fn lemma_building_confined(
    pgd: PageDirectory,
    bm: u32,
    bitmap0: Seq<u8>,
    ram0: Seq<u8>,
    bitmap1: Seq<u8>,
    ram1: Seq<u8>,
    bitmap2: Seq<u8>,
    ram2: Seq<u8>,
)
    requires
        bitmap0.len() == BITMAP_SIZE,
        ram0.len() == KERNEL_PHYS_WINDOW_SIZE,
        building(pgd, bm, bitmap0, ram0, bitmap1, ram1),
        pgd.wf_on(bitmap2, ram2),
        changes_confined(pgd, bitmap1, ram1, bitmap2, ram2),
    ensures
        building(pgd, bm, bitmap0, ram0, bitmap2, ram2),
        forall|a: int| in_frame(a, bm) ==> #[trigger] ram2[a] == ram1[a],
{
    lemma_fresh_space_kept(pgd, bitmap0, bitmap1, ram1, bitmap2, ram2);
    lemma_frame_kept(pgd, bitmap1, ram1, bitmap2, ram2, bm);
    assert forall|i: int| 0 <= i < BITMAP_SIZE implies (bitmap0[i] == 1 ==> #[trigger] bitmap2[i] == 1)
        && (bitmap0[i] <= 1 ==> bitmap2[i] <= 1) by {
        assert(bitmap0[i] == 1 ==> bitmap1[i] == 1);
        assert(bitmap0[i] <= 1 ==> bitmap1[i] <= 1);
    }
    assert forall|a: int|
        0 <= a < KERNEL_PHYS_WINDOW_SIZE && frame_in_use(bitmap0, frame_base(a)) implies #[trigger] ram2[a]
        == ram0[a] by {
        assert(ram1[a] == ram0[a]);
    }
}

/// Writing into a frame that was free in `bitmap0` and is none of the
/// directory's own leaves an address space under construction so, with
/// every page mapped as before.
#[verifier::rlimit(50)]
pub proof fn lemma_building_written(
    pgd: PageDirectory,
    bm: u32,
    bitmap0: Seq<u8>,
    ram0: Seq<u8>,
    bitmap1: Seq<u8>,
    ram1: Seq<u8>,
    ram2: Seq<u8>,
    frame: u32,
)
    requires
        bitmap0.len() == BITMAP_SIZE,
        ram0.len() == KERNEL_PHYS_WINDOW_SIZE,
        bitmap1.len() == BITMAP_SIZE,
        ram1.len() == KERNEL_PHYS_WINDOW_SIZE,
        ram2.len() == KERNEL_PHYS_WINDOW_SIZE,
        building(pgd, bm, bitmap0, ram0, bitmap1, ram1),
        frame % 0x1000 == 0,
        outside(pgd, ram1, frame),
        !frame_in_use(bitmap0, frame),
        forall|a: int|
            0 <= a < KERNEL_PHYS_WINDOW_SIZE && !in_frame(a, frame) ==> #[trigger] ram2[a] == ram1[a],
    ensures
        building(pgd, bm, bitmap0, ram0, bitmap1, ram2),
        forall|v: u32, entry: u32|
            maps_to(pgd, ram1, v, entry) ==> #[trigger] maps_to(pgd, ram2, v, entry),
        forall|a: int| pgd.owns(ram2, a) <==> pgd.owns(ram1, a),
{
    lemma_outside_bytes(pgd, bitmap1, ram1, frame);
    assert forall|a: int| pgd.owns(ram1, a) implies #[trigger] ram2[a] == ram1[a] by {
        lemma_owned_in_window(pgd, bitmap1, ram1, a);
    }
    lemma_footprint_kept(pgd, bitmap1, ram1, bitmap1, ram2);
    assert forall|v: u32, entry: u32| maps_to(pgd, ram1, v, entry) implies #[trigger] maps_to(
        pgd,
        ram2,
        v,
        entry,
    ) by {
        lemma_indices(v);
        assert(pgd.entry(ram2, pde_index(v)) == pgd.entry(ram1, pde_index(v)));
        assert(pgd.pte(ram2, v) == pgd.pte(ram1, v));
    }
    assert forall|a: int|
        0 <= a < KERNEL_PHYS_WINDOW_SIZE && frame_in_use(bitmap0, frame_base(a)) implies #[trigger] ram2[a]
        == ram0[a] by {
        assert(frame_base(a) != frame);
        assert(!in_frame(a, frame));
        assert(ram1[a] == ram0[a]);
    }
    assert(fresh_space(pgd, bitmap0, ram2)) by {
        assert forall|a: int| #[trigger] pgd.owns(ram2, a) implies !frame_in_use(
            bitmap0,
            frame_base(a),
        ) by {
            assert(pgd.owns(ram1, a));
        }
    }
}

/// A page that has just been mapped with the present flag walks to its
/// frame: the walk of the directory finds the directory entry and the
/// table entry present, and a frame that the allocator has handed out
/// since `bitmap`.
pub proof fn lemma_fresh_page_walk(
    pgd: PageDirectory,
    bitmap: Seq<u8>,
    bitmap2: Seq<u8>,
    ram2: Seq<u8>,
    vaddr: u32,
    flags: u32,
)
    requires
        page_mapped(pgd, bitmap, bitmap2, ram2, vaddr, flags),
        flags & 1 == 1,
    ensures
        present(pgd.pde(ram2, vaddr)),
        present(pgd.pte(ram2, vaddr)),
        pgd.walk(ram2, vaddr).pde is Some,
        pgd.walk(ram2, vaddr).pte is Some,
        pgd.walk(ram2, vaddr).page == Some(PhysAddr(pgd.frame(ram2, vaddr))),
        frame_in_use(bitmap2, pgd.frame(ram2, vaddr)),
        !frame_in_use(bitmap, pgd.frame(ram2, vaddr)),
{
    let e = pgd.pte(ram2, vaddr);
    assert(e & 0xfff == flags && flags & 1 == 1 ==> e & 1 != 0) by (bit_vector);
}

/// Page `k` of a range that starts at `vaddr` makes `map` allocate a page
/// table: the directory has none for it, and it is the first page of the
/// range in its 4 MiB.
pub open spec fn needs_table(pgd: PageDirectory, ram: Seq<u8>, vaddr: u32, k: int) -> bool {
    !present(pgd.pde(ram, nth_page(vaddr, k))) && (k == 0 || pde_index(nth_page(vaddr, k))
        != pde_index(nth_page(vaddr, k - 1)))
}

/// Number of page tables that `map` allocates for the first `n` pages from
/// `vaddr`.
pub open spec fn tables_needed(pgd: PageDirectory, ram: Seq<u8>, vaddr: u32, n: nat) -> nat
    decreases n,
{
    if n == 0 {
        0
    } else {
        tables_needed(pgd, ram, vaddr, (n - 1) as nat) + if needs_table(pgd, ram, vaddr, n - 1) {
            1nat
        } else {
            0nat
        }
    }
}

/// Number of frames that `map` takes for the `n` pages from `vaddr`: one
/// behind each page, and the page tables that are missing.
pub open spec fn map_cost(pgd: PageDirectory, ram: Seq<u8>, vaddr: u32, n: nat) -> nat {
    n + tables_needed(pgd, ram, vaddr, n)
}

/// The directory entry at `index` covers one of the `n` pages from
/// `vaddr`.
pub open spec fn range_touches(vaddr: u32, n: nat, index: int) -> bool {
    n > 0 && pde_index(vaddr) <= index <= pde_index(nth_page(vaddr, n - 1))
}

/// What `map` of `n` pages from `vaddr` costs: it takes exactly
/// `map_cost` frames, and the directory entries that are present after it
/// are those that were and those that cover the range.
pub open spec fn map_count(
    pgd: PageDirectory,
    bitmap: Seq<u8>,
    ram: Seq<u8>,
    bitmap2: Seq<u8>,
    ram2: Seq<u8>,
    vaddr: u32,
    n: nat,
) -> bool {
    &&& free_count(bitmap2) + map_cost(pgd, ram, vaddr, n) == free_count(bitmap)
    &&& forall|i: int|
        0 <= i < 1024 ==> (present(#[trigger] pgd.entry(ram2, i)) <==> present(pgd.entry(ram, i))
            || range_touches(vaddr, n, i))
}

/// The number of page tables that a range needs grows with the range.
pub proof fn lemma_tables_needed_grows(pgd: PageDirectory, ram: Seq<u8>, vaddr: u32, k: nat, n: nat)
    requires
        k <= n,
    ensures
        tables_needed(pgd, ram, vaddr, k) <= tables_needed(pgd, ram, vaddr, n),
    decreases n,
{
    if k < n {
        lemma_tables_needed_grows(pgd, ram, vaddr, k, (n - 1) as nat);
    }
}

/// The number of page tables that a range needs depends on the directory
/// entries only.
pub proof fn lemma_tables_needed_same(
    pgd: PageDirectory,
    ram: Seq<u8>,
    ram2: Seq<u8>,
    vaddr: u32,
    n: nat,
)
    requires
        forall|i: int| 0 <= i < 1024 ==> #[trigger] pgd.entry(ram2, i) == pgd.entry(ram, i),
    ensures
        tables_needed(pgd, ram2, vaddr, n) == tables_needed(pgd, ram, vaddr, n),
    decreases n,
{
    if n > 0 {
        lemma_tables_needed_same(pgd, ram, ram2, vaddr, (n - 1) as nat);
        lemma_indices(nth_page(vaddr, n - 1));
        assert(pgd.entry(ram2, pde_index(nth_page(vaddr, n - 1))) == pgd.entry(
            ram,
            pde_index(nth_page(vaddr, n - 1)),
        ));
    }
}

/// Before page `k` of `map`: as many frames are free as the page takes,
/// where enough were free for the whole range.
#[verifier::rlimit(50)]
pub proof fn lemma_map_count_before(
    pgd: PageDirectory,
    bitmap: Seq<u8>,
    ram: Seq<u8>,
    bitmap1: Seq<u8>,
    ram1: Seq<u8>,
    vaddr: u32,
    k: nat,
    n: nat,
)
    requires
        map_count(pgd, bitmap, ram, bitmap1, ram1, vaddr, k),
        free_count(bitmap) >= map_cost(pgd, ram, vaddr, n),
        k < n,
        vaddr + k * 0x1000 <= u32::MAX,
    ensures
        free_count(bitmap1) >= 1,
        !present(pgd.pde(ram1, nth_page(vaddr, k as int))) ==> free_count(bitmap1) >= 2,
        present(pgd.pde(ram1, nth_page(vaddr, k as int))) <==> !needs_table(
            pgd,
            ram,
            vaddr,
            k as int,
        ),
{
    lemma_tables_needed_grows(pgd, ram, vaddr, k + 1, n);
    let v = nth_page(vaddr, k as int);
    lemma_indices(v);
    lemma_indices(vaddr);
    assert(present(pgd.entry(ram1, pde_index(v))) <==> present(pgd.entry(ram, pde_index(v)))
        || range_touches(vaddr, k, pde_index(v)));
    if k > 0 {
        lemma_indices(nth_page(vaddr, k - 1));
    }
}

/// After page `k` of `map`: the count of `k + 1` pages.
#[verifier::rlimit(50)]
pub proof fn lemma_map_count_after(
    pgd: PageDirectory,
    bitmap: Seq<u8>,
    ram: Seq<u8>,
    bitmap1: Seq<u8>,
    ram1: Seq<u8>,
    bitmap2: Seq<u8>,
    ram2: Seq<u8>,
    vaddr: u32,
    k: nat,
    raw: u32,
)
    requires
        bitmap1.len() == BITMAP_SIZE,
        map_count(pgd, bitmap, ram, bitmap1, ram1, vaddr, k),
        vaddr + k * 0x1000 <= u32::MAX,
        has_free(bitmap1),
        map_raw_effect(
            pgd,
            bitmap1.update(lowest_free(bitmap1), 1),
            ram1,
            bitmap2,
            ram2,
            nth_page(vaddr, k as int),
            raw,
        ),
    ensures
        map_count(pgd, bitmap, ram, bitmap2, ram2, vaddr, k + 1),
{
    let v = nth_page(vaddr, k as int);
    lemma_lowest_free(bitmap1);
    lemma_free_count_update(bitmap1, lowest_free(bitmap1), 1);
    lemma_indices(v);
    lemma_indices(vaddr);
    if k > 0 {
        lemma_indices(nth_page(vaddr, k - 1));
    }
    assert(present(pgd.entry(ram1, pde_index(v))) <==> present(pgd.entry(ram, pde_index(v)))
        || range_touches(vaddr, k, pde_index(v)));
    assert(present(pgd.pde(ram1, v)) <==> !needs_table(pgd, ram, vaddr, k as int));
    assert forall|i: int| 0 <= i < 1024 implies (present(#[trigger] pgd.entry(ram2, i)) <==> present(
        pgd.entry(ram, i),
    ) || range_touches(vaddr, k + 1, i)) by {
        if i != pde_index(v) {
            assert(pgd.entry(ram2, i) == pgd.entry(ram1, i));
        }
    }
}

/// Where the directory entries are the same, and the table entries behind
/// those that are present, every walk finds the same.
pub proof fn lemma_same_walks(pgd: PageDirectory, ram: Seq<u8>, ram2: Seq<u8>, vaddr: u32)
    requires
        forall|i: int| 0 <= i < 1024 ==> #[trigger] pgd.entry(ram2, i) == pgd.entry(ram, i),
        forall|v: u32| present(pgd.pde(ram, v)) ==> #[trigger] pgd.pte(ram2, v) == pgd.pte(ram, v),
    ensures
        pgd.walk(ram2, vaddr) == pgd.walk(ram, vaddr),
{
    lemma_indices(vaddr);
    assert(pgd.entry(ram2, pde_index(vaddr)) == pgd.entry(ram, pde_index(vaddr)));
    if present(pgd.pde(ram, vaddr)) {
        assert(pgd.pte(ram2, vaddr) == pgd.pte(ram, vaddr));
    }
}

} // verus!
