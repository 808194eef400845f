//! Physical memory: the bytes behind the kernel's identity window and the
//! bitmap allocator that hands out its frames.

use vstd::prelude::*;
use super::pagemem::{PhysAddr, VirtAddr, PAGE_SIZE};
use super::{KERNEL_PHYS_WINDOW_BASE, KERNEL_PHYS_WINDOW_SIZE};

verus! {

/// Number of frames the allocator manages:
/// (0x7fe0000 - 0x400000) / 4096.
pub const BITMAP_SIZE: usize = 0x7be0;

/// Physical address of the first frame the allocator manages.
pub const BASE_ALLOCATOR: usize = 0x40_0000;

/// Index in the allocator bitmap of the frame that starts at `addr`.
pub open spec fn frame_index(addr: u32) -> int {
    (addr - BASE_ALLOCATOR) / (PAGE_SIZE as int)
}

/// Physical address of the frame with bitmap index `index`.
pub open spec fn frame_addr(index: int) -> u32 {
    (BASE_ALLOCATOR + index * PAGE_SIZE) as u32
}

/// `addr` is the page-aligned start of a frame that the allocator manages.
pub open spec fn is_managed(addr: u32) -> bool {
    &&& addr % (PAGE_SIZE as u32) == 0
    &&& BASE_ALLOCATOR <= addr
    &&& frame_index(addr) < BITMAP_SIZE
}

/// The frame at `addr` is managed by the allocator and marked in use in
/// `bitmap`.
pub open spec fn frame_in_use(bitmap: Seq<u8>, addr: u32) -> bool {
    is_managed(addr) && bitmap[frame_index(addr)] == 1
}

/// Number of free frames in a bitmap.
pub open spec fn free_count(bitmap: Seq<u8>) -> nat
    decreases bitmap.len(),
{
    if bitmap.len() == 0 {
        0
    } else {
        free_count(bitmap.drop_last()) + if bitmap.last() == 0 {
            1nat
        } else {
            0nat
        }
    }
}

/// Some frame of the bitmap is free.
pub open spec fn has_free(bitmap: Seq<u8>) -> bool {
    exists|i: int| 0 <= i < bitmap.len() && #[trigger] bitmap[i] == 0
}

/// `index` is the lowest free frame of the bitmap.
pub open spec fn is_lowest_free(bitmap: Seq<u8>, index: int) -> bool {
    &&& 0 <= index < bitmap.len()
    &&& bitmap[index] == 0
    &&& forall|j: int| 0 <= j < index ==> #[trigger] bitmap[j] != 0
}

/// The lowest free frame of a bitmap that has one.
pub open spec fn lowest_free(bitmap: Seq<u8>) -> int {
    choose|i: int| is_lowest_free(bitmap, i)
}

/// The little-endian 32-bit word stored in the four bytes at `addr`.
#[verifier::opaque]
pub open spec fn word_at(ram: Seq<u8>, addr: int) -> u32 {
    (ram[addr] as u32) | ((ram[addr + 1] as u32) << 8) | ((ram[addr + 2] as u32) << 16) | ((ram[addr
        + 3] as u32) << 24)
}

/// `ram` after storing `val` as a little-endian word in the four bytes at
/// `addr`.
#[verifier::opaque]
pub open spec fn store_word(ram: Seq<u8>, addr: int, val: u32) -> Seq<u8> {
    ram.update(addr, val as u8).update(addr + 1, (val >> 8) as u8).update(
        addr + 2,
        (val >> 16) as u8,
    ).update(addr + 3, (val >> 24) as u8)
}

/// `ram` after clearing the `len` bytes that start at `start`.
pub open spec fn fill_zero(ram: Seq<u8>, start: int, len: int) -> Seq<u8> {
    Seq::new(ram.len(), |i: int| if start <= i < start + len { 0u8 } else { ram[i] })
}

/// `ram` after setting each of the `len` bytes that start at `start` to
/// `val`.
pub open spec fn fill_bytes(ram: Seq<u8>, start: int, len: int, val: u8) -> Seq<u8> {
    Seq::new(ram.len(), |i: int| if start <= i < start + len { val } else { ram[i] })
}

/// `ram` after storing the words of `words` one after the other from
/// `addr` on, each little-endian.
pub open spec fn store_words(ram: Seq<u8>, addr: int, words: Seq<u32>) -> Seq<u8>
    decreases words.len(),
{
    if words.len() == 0 {
        ram
    } else {
        store_word(
            store_words(ram, addr, words.drop_last()),
            addr + 4 * (words.len() - 1),
            words.last(),
        )
    }
}

/// A bitmap has at most one lowest free frame, and has one whenever any
/// frame is free.
pub proof fn lemma_lowest_free(bitmap: Seq<u8>)
    requires
        has_free(bitmap),
    ensures
        is_lowest_free(bitmap, lowest_free(bitmap)),
        forall|i: int| is_lowest_free(bitmap, i) ==> i == lowest_free(bitmap),
{
    let w = choose|i: int| 0 <= i < bitmap.len() && #[trigger] bitmap[i] == 0;
    lemma_lowest_free_below(bitmap, w);
    let l = lowest_free(bitmap);
    assert forall|i: int| is_lowest_free(bitmap, i) implies i == l by {
        if i < l {
            assert(bitmap[i] != 0);
        } else if l < i {
            assert(bitmap[l] != 0);
        }
    }
}

proof fn lemma_lowest_free_below(bitmap: Seq<u8>, w: int)
    requires
        0 <= w < bitmap.len(),
        bitmap[w] == 0,
    ensures
        exists|i: int| is_lowest_free(bitmap, i),
    decreases w,
{
    if forall|j: int| 0 <= j < w ==> #[trigger] bitmap[j] != 0 {
        assert(is_lowest_free(bitmap, w));
    } else {
        let j = choose|j: int| 0 <= j < w && !(#[trigger] bitmap[j] != 0);
        lemma_lowest_free_below(bitmap, j);
    }
}

/// A managed frame is the frame of its index, so two managed frames with
/// the same index are the same frame.
pub proof fn lemma_frame_of_index(addr: u32)
    requires
        is_managed(addr),
    ensures
        frame_addr(frame_index(addr)) == addr,
        0 <= frame_index(addr) < BITMAP_SIZE,
        addr + PAGE_SIZE <= KERNEL_PHYS_WINDOW_SIZE,
{
    let q = addr as int / 0x1000;
    assert(addr == 0x1000 * q);
    let off = addr - 0x40_0000;
    assert(off == 0x1000 * (q - 0x400));
    assert(off / 0x1000 == q - 0x400);
}

/// A bitmap whose frames are all free has as many free frames as it is
/// long.
pub proof fn lemma_free_count_all(bitmap: Seq<u8>)
    requires
        forall|i: int| 0 <= i < bitmap.len() ==> #[trigger] bitmap[i] == 0,
    ensures
        free_count(bitmap) == bitmap.len(),
    decreases bitmap.len(),
{
    if bitmap.len() > 0 {
        lemma_free_count_all(bitmap.drop_last());
    }
}

/// A bitmap with a positive number of free frames has a free frame.
pub proof fn lemma_free_count_positive(bitmap: Seq<u8>)
    requires
        free_count(bitmap) > 0,
    ensures
        has_free(bitmap),
    decreases bitmap.len(),
{
    if bitmap.last() == 0 {
        assert(bitmap[bitmap.len() - 1] == 0);
    } else {
        lemma_free_count_positive(bitmap.drop_last());
        let i = choose|i: int| 0 <= i < bitmap.drop_last().len() && #[trigger] bitmap.drop_last()[i] == 0;
        assert(bitmap[i] == 0);
    }
}

/// Marking a free frame as used lowers the number of free frames by one;
/// marking a used frame as free raises it by one.
pub proof fn lemma_free_count_update(bitmap: Seq<u8>, index: int, val: u8)
    requires
        0 <= index < bitmap.len(),
    ensures
        bitmap[index] == 0 && val != 0 ==> free_count(bitmap.update(index, val)) == free_count(bitmap)
            - 1,
        bitmap[index] != 0 && val == 0 ==> free_count(bitmap.update(index, val)) == free_count(bitmap)
            + 1,
        (bitmap[index] == 0) == (val == 0) ==> free_count(bitmap.update(index, val)) == free_count(
            bitmap,
        ),
    decreases bitmap.len(),
{
    let after = bitmap.update(index, val);
    if index == bitmap.len() - 1 {
        assert(after.drop_last() =~= bitmap.drop_last());
    } else {
        lemma_free_count_update(bitmap.drop_last(), index, val);
        assert(after.drop_last() =~= bitmap.drop_last().update(index, val));
    }
}

/// A word that was stored is the word that is read back, and storing it
/// changes no byte outside its four bytes.
pub proof fn lemma_word_at_stored(ram: Seq<u8>, addr: int, val: u32)
    requires
        0 <= addr,
        addr + 4 <= ram.len(),
    ensures
        word_at(store_word(ram, addr, val), addr) == val,
        store_word(ram, addr, val).len() == ram.len(),
        forall|a: int|
            0 <= a < ram.len() && !(addr <= a < addr + 4) ==> #[trigger] store_word(ram, addr, val)[a]
                == ram[a],
{
    reveal(word_at);
    reveal(store_word);
    assert(((val as u8) as u32) | ((((val >> 8) as u8) as u32) << 8) | ((((val >> 16) as u8) as u32)
        << 16) | ((((val >> 24) as u8) as u32) << 24) == val) by (bit_vector);
}

/// Words that were stored one after the other are the words that are read
/// back, and storing them changes no byte outside their range.
pub proof fn lemma_store_words(ram: Seq<u8>, addr: int, words: Seq<u32>)
    requires
        0 <= addr,
        addr + 4 * words.len() <= ram.len(),
    ensures
        store_words(ram, addr, words).len() == ram.len(),
        forall|j: int|
            0 <= j < words.len() ==> #[trigger] word_at(store_words(ram, addr, words), addr + 4 * j)
                == words[j],
        forall|a: int|
            0 <= a < ram.len() && !(addr <= a < addr + 4 * words.len()) ==> #[trigger] store_words(
                ram,
                addr,
                words,
            )[a] == ram[a],
    decreases words.len(),
{
    if words.len() > 0 {
        let before = store_words(ram, addr, words.drop_last());
        let at = addr + 4 * (words.len() - 1);
        lemma_store_words(ram, addr, words.drop_last());
        lemma_word_at_stored(before, at, words.last());
        let after = store_words(ram, addr, words);
        assert forall|j: int| 0 <= j < words.len() implies #[trigger] word_at(after, addr + 4 * j)
            == words[j] by {
            if j < words.len() - 1 {
                lemma_word_at_same(after, before, addr + 4 * j);
                assert(words.drop_last()[j] == words[j]);
            }
        }
    }
}

/// A word depends on its four bytes only.
pub proof fn lemma_word_at_same(ram1: Seq<u8>, ram2: Seq<u8>, addr: int)
    requires
        ram1[addr] == ram2[addr],
        ram1[addr + 1] == ram2[addr + 1],
        ram1[addr + 2] == ram2[addr + 2],
        ram1[addr + 3] == ram2[addr + 3],
    ensures
        word_at(ram1, addr) == word_at(ram2, addr),
{
    reveal(word_at);
}

/// Every word that lies inside a cleared range reads as zero.
pub proof fn lemma_word_at_zeroed(ram: Seq<u8>, start: int, len: int, addr: int)
    requires
        0 <= start <= addr,
        addr + 4 <= start + len,
        start + len <= ram.len(),
    ensures
        word_at(fill_zero(ram, start, len), addr) == 0,
{
    reveal(word_at);
    assert((0u8 as u32) | ((0u8 as u32) << 8) | ((0u8 as u32) << 16) | ((0u8 as u32) << 24) == 0)
        by (bit_vector);
}

/// Physical memory: the frame allocator's bitmap and the bytes of RAM that
/// the identity window makes reachable to the kernel.
pub struct PhysMem {
    /// One byte per managed frame: 0 for a free frame, 1 for a frame in use.
    frames: Vec<u8>,
    /// The bytes of the window, indexed by physical address.
    window: Vec<u8>,
}

impl PhysMem {
    /// The allocator bitmap: one byte per managed frame.
    pub closed spec fn bitmap(&self) -> Seq<u8> {
        self.frames@
    }

    /// The bytes of RAM, indexed by physical address.
    pub closed spec fn ram(&self) -> Seq<u8> {
        self.window@
    }

    /// The bitmap covers every managed frame and marks each as free (0) or
    /// in use (1); RAM spans the whole window.
    pub open spec fn wf(&self) -> bool {
        &&& self.bitmap().len() == BITMAP_SIZE
        &&& self.ram().len() == KERNEL_PHYS_WINDOW_SIZE
        &&& forall|i: int| 0 <= i < BITMAP_SIZE ==> #[trigger] self.bitmap()[i] <= 1
    }

    /// The frame at `addr` is managed by the allocator and in use.
    pub open spec fn in_use(&self, addr: u32) -> bool {
        frame_in_use(self.bitmap(), addr)
    }

    /// Number of frames that are free.
    pub fn free_frames(&self) -> (n: usize)
        requires
            self.wf(),
        ensures
            n == free_count(self.bitmap()),
    {
        let mut n: usize = 0;
        let mut i: usize = 0;
        while i < BITMAP_SIZE
            invariant
                i <= BITMAP_SIZE,
                self.frames@.len() == BITMAP_SIZE,
                n == free_count(self.frames@.take(i as int)),
                n <= i,
            decreases BITMAP_SIZE - i,
        {
            proof {
                assert(self.frames@.take(i + 1).drop_last() =~= self.frames@.take(i as int));
            }
            if self.frames[i] == 0 {
                n += 1;
            }
            i += 1;
        }
        proof {
            assert(self.frames@.take(BITMAP_SIZE as int) =~= self.frames@);
        }
        n
    }

    /// Physical memory at boot: every frame free, every byte zero.
    pub fn new() -> (mem: Self)
        ensures
            mem.wf(),
            forall|i: int| 0 <= i < BITMAP_SIZE ==> #[trigger] mem.bitmap()[i] == 0,
            forall|i: int| 0 <= i < KERNEL_PHYS_WINDOW_SIZE ==> #[trigger] mem.ram()[i] == 0,
            free_count(mem.bitmap()) == BITMAP_SIZE,
    {
        let frames = vec![0u8; BITMAP_SIZE];
        let window = vec![0u8; KERNEL_PHYS_WINDOW_SIZE as usize];
        proof {
            lemma_free_count_all(frames@);
        }
        Self { frames, window }
    }

    /// Allocates the lowest free frame and returns its address. The frame's
    /// contents are left as they are.
    pub fn alloc_phys(&mut self) -> (addr: PhysAddr)
        requires
            old(self).wf(),
            free_count(old(self).bitmap()) >= 1,
        ensures
            final(self).wf(),
            is_managed(addr.0),
            frame_index(addr.0) == lowest_free(old(self).bitmap()),
            addr.0 == frame_addr(lowest_free(old(self).bitmap())),
            !old(self).in_use(addr.0),
            final(self).bitmap() == old(self).bitmap().update(frame_index(addr.0), 1),
            final(self).ram() == old(self).ram(),
            free_count(final(self).bitmap()) + 1 == free_count(old(self).bitmap()),
    {
        proof {
            lemma_free_count_positive(self.bitmap());
            lemma_lowest_free(self.bitmap());
            lemma_free_count_update(self.bitmap(), lowest_free(self.bitmap()), 1);
        }
        let mut i: usize = 0;
        while self.frames[i] != 0
            invariant
                self.frames@ == old(self).bitmap(),
                self.frames@.len() == BITMAP_SIZE,
                0 <= i <= lowest_free(self.frames@),
                is_lowest_free(self.frames@, lowest_free(self.frames@)),
                forall|j: int| 0 <= j < i ==> #[trigger] self.frames@[j] != 0,
            decreases BITMAP_SIZE - i,
        {
            i += 1;
        }
        assert(is_lowest_free(self.frames@, i as int));
        self.frames.set(i, 1);
        let addr: u32 = (BASE_ALLOCATOR + i * PAGE_SIZE) as u32;
        assert(addr % 4096 == 0 && (addr - BASE_ALLOCATOR) / 4096 == i) by (nonlinear_arith)
            requires
                addr == 0x40_0000 + i * 4096,
                BASE_ALLOCATOR == 0x40_0000,
        ;
        PhysAddr(addr)
    }

    /// Allocates the lowest free frame, fills it with zero bytes and returns
    /// its address.
    pub fn alloc_phys_zeroed(&mut self) -> (addr: PhysAddr)
        requires
            old(self).wf(),
            free_count(old(self).bitmap()) >= 1,
        ensures
            final(self).wf(),
            is_managed(addr.0),
            frame_index(addr.0) == lowest_free(old(self).bitmap()),
            addr.0 == frame_addr(lowest_free(old(self).bitmap())),
            !old(self).in_use(addr.0),
            free_count(final(self).bitmap()) + 1 == free_count(old(self).bitmap()),
            final(self).bitmap() == old(self).bitmap().update(frame_index(addr.0), 1),
            final(self).ram() == fill_zero(old(self).ram(), addr.0 as int, PAGE_SIZE as int),
    {
        let page = self.alloc_phys();
        self.zero_frame(page);
        page
    }

    /// Returns the frame at `addr` to the allocator.
    pub fn free_phys(&mut self, addr: PhysAddr)
        requires
            old(self).wf(),
            old(self).in_use(addr.0),
        ensures
            final(self).wf(),
            final(self).bitmap() == old(self).bitmap().update(frame_index(addr.0), 0),
            final(self).ram() == old(self).ram(),
            !final(self).in_use(addr.0),
            free_count(final(self).bitmap()) == free_count(old(self).bitmap()) + 1,
    {
        proof {
            lemma_frame_of_index(addr.0);
            lemma_free_count_update(self.bitmap(), frame_index(addr.0), 0);
        }
        let offset: u32 = addr.0 - BASE_ALLOCATOR as u32;
        assert(offset >> 12 == offset / 4096) by (bit_vector);
        let index = (offset >> 12) as usize;
        self.frames.set(index, 0);
    }

    /// Whether the frame at `addr` is managed by the allocator and in use.
    pub fn is_allocated(&self, addr: PhysAddr) -> (used: bool)
        requires
            self.wf(),
        ensures
            used == self.in_use(addr.0),
    {
        if addr.0 % (PAGE_SIZE as u32) != 0 || addr.0 < BASE_ALLOCATOR as u32 {
            return false;
        }
        let index = ((addr.0 - BASE_ALLOCATOR as u32) / (PAGE_SIZE as u32)) as usize;
        index < BITMAP_SIZE && self.frames[index] == 1
    }

    /// The address at which the kernel reaches the `size` bytes of physical
    /// memory at `paddr` through its window.
    pub fn translate(paddr: PhysAddr, size: usize) -> (vaddr: VirtAddr)
        requires
            paddr.0 + size <= KERNEL_PHYS_WINDOW_SIZE,
        ensures
            vaddr.0 == paddr.0 + KERNEL_PHYS_WINDOW_BASE,
    {
        VirtAddr(paddr.0 + KERNEL_PHYS_WINDOW_BASE)
    }

    /// Reads the byte at `paddr`.
    pub fn read_u8(&self, paddr: PhysAddr) -> (val: u8)
        requires
            self.wf(),
            paddr.0 < KERNEL_PHYS_WINDOW_SIZE,
        ensures
            val == self.ram()[paddr.0 as int],
    {
        let at = Self::translate(paddr, 1);
        self.window[(at.0 - KERNEL_PHYS_WINDOW_BASE) as usize]
    }

    /// Writes the byte at `paddr`.
    pub fn write_u8(&mut self, paddr: PhysAddr, val: u8)
        requires
            old(self).wf(),
            paddr.0 < KERNEL_PHYS_WINDOW_SIZE,
        ensures
            final(self).wf(),
            final(self).bitmap() == old(self).bitmap(),
            final(self).ram() == old(self).ram().update(paddr.0 as int, val),
    {
        let at = Self::translate(paddr, 1);
        self.window.set((at.0 - KERNEL_PHYS_WINDOW_BASE) as usize, val);
    }

    /// Reads the little-endian word at `paddr`.
    pub fn read_u32(&self, paddr: PhysAddr) -> (val: u32)
        requires
            self.wf(),
            paddr.0 + 4 <= KERNEL_PHYS_WINDOW_SIZE,
        ensures
            val == word_at(self.ram(), paddr.0 as int),
    {
        proof {
            reveal(word_at);
        }
        let at = Self::translate(paddr, 4);
        let i = (at.0 - KERNEL_PHYS_WINDOW_BASE) as usize;
        (self.window[i] as u32) | ((self.window[i + 1] as u32) << 8) | ((self.window[i + 2] as u32)
            << 16) | ((self.window[i + 3] as u32) << 24)
    }

    /// Writes the little-endian word at `paddr`.
    pub fn write_u32(&mut self, paddr: PhysAddr, val: u32)
        requires
            old(self).wf(),
            paddr.0 + 4 <= KERNEL_PHYS_WINDOW_SIZE,
        ensures
            final(self).wf(),
            final(self).bitmap() == old(self).bitmap(),
            final(self).ram() == store_word(old(self).ram(), paddr.0 as int, val),
    {
        proof {
            reveal(store_word);
        }
        let at = Self::translate(paddr, 4);
        let i = (at.0 - KERNEL_PHYS_WINDOW_BASE) as usize;
        self.window.set(i, #[verifier::truncate] (val as u8));
        self.window.set(i + 1, #[verifier::truncate] ((val >> 8) as u8));
        self.window.set(i + 2, #[verifier::truncate] ((val >> 16) as u8));
        self.window.set(i + 3, #[verifier::truncate] ((val >> 24) as u8));
    }

    /// Sets each of the `len` bytes that start at `paddr` to `val`.
    pub fn fill(&mut self, paddr: PhysAddr, len: usize, val: u8)
        requires
            old(self).wf(),
            paddr.0 + len <= KERNEL_PHYS_WINDOW_SIZE,
        ensures
            final(self).wf(),
            final(self).bitmap() == old(self).bitmap(),
            final(self).ram() == fill_bytes(old(self).ram(), paddr.0 as int, len as int, val),
    {
        let at = Self::translate(paddr, len);
        let start = (at.0 - KERNEL_PHYS_WINDOW_BASE) as usize;
        let mut k: usize = 0;
        while k < len
            invariant
                k <= len,
                start == paddr.0,
                start + len <= KERNEL_PHYS_WINDOW_SIZE,
                self.wf(),
                self.frames@ == old(self).bitmap(),
                self.window@ =~= fill_bytes(old(self).ram(), start as int, k as int, val),
            decreases len - k,
        {
            self.window.set(start + k, val);
            k += 1;
        }
    }

    /// Writes the words of `words` one after the other from `paddr` on.
    pub fn write_words(&mut self, paddr: PhysAddr, words: &Vec<u32>)
        requires
            old(self).wf(),
            paddr.0 + 4 * words.len() <= KERNEL_PHYS_WINDOW_SIZE,
        ensures
            final(self).wf(),
            final(self).bitmap() == old(self).bitmap(),
            final(self).ram() == store_words(old(self).ram(), paddr.0 as int, words@),
    {
        let mut i: usize = 0;
        while i < words.len()
            invariant
                i <= words.len(),
                paddr.0 + 4 * words.len() <= KERNEL_PHYS_WINDOW_SIZE,
                self.wf(),
                self.bitmap() == old(self).bitmap(),
                self.ram() == store_words(old(self).ram(), paddr.0 as int, words@.take(i as int)),
            decreases words.len() - i,
        {
            proof {
                assert(words@.take(i + 1).drop_last() =~= words@.take(i as int));
            }
            self.write_u32(PhysAddr(paddr.0 + (4 * i) as u32), words[i]);
            i += 1;
        }
        proof {
            assert(words@.take(words.len() as int) =~= words@);
        }
    }

    /// Fills the frame that starts at `paddr` with zero bytes.
    pub fn zero_frame(&mut self, paddr: PhysAddr)
        requires
            old(self).wf(),
            paddr.0 + PAGE_SIZE <= KERNEL_PHYS_WINDOW_SIZE,
        ensures
            final(self).wf(),
            final(self).bitmap() == old(self).bitmap(),
            final(self).ram() == fill_zero(old(self).ram(), paddr.0 as int, PAGE_SIZE as int),
    {
        let at = Self::translate(paddr, PAGE_SIZE);
        let start = (at.0 - KERNEL_PHYS_WINDOW_BASE) as usize;
        let mut k: usize = 0;
        while k < PAGE_SIZE
            invariant
                k <= PAGE_SIZE,
                start == paddr.0,
                start + PAGE_SIZE <= KERNEL_PHYS_WINDOW_SIZE,
                self.wf(),
                self.frames@ == old(self).bitmap(),
                self.window@ =~= fill_zero(old(self).ram(), start as int, k as int),
            decreases PAGE_SIZE - k,
        {
            self.window.set(start + k, 0);
            k += 1;
        }
    }
}

/// One request to the frame allocator.
#[derive(Debug, Copy, Clone, PartialEq, Eq, Structural)]
pub enum FrameOp {
    /// `alloc_phys`.
    Alloc,
    /// `free_phys` of the frame at this address.
    Free(PhysAddr),
}

/// The allocator after one request: its bitmap, and the indices of the
/// frames that it has handed out in the schedule and not got back. `None`
/// where the request cannot be met: an allocation with no frame free, or
/// the return of a frame that the schedule does not hold.
pub open spec fn step_op(state: Option<(Seq<u8>, Set<int>)>, op: FrameOp) -> Option<
    (Seq<u8>, Set<int>),
> {
    match state {
        None => None,
        Some((bitmap, held)) => match op {
            FrameOp::Alloc => if has_free(bitmap) {
                Some((bitmap.update(lowest_free(bitmap), 1), held.insert(lowest_free(bitmap))))
            } else {
                None
            },
            FrameOp::Free(addr) => if frame_in_use(bitmap, addr.0) && held.contains(
                frame_index(addr.0),
            ) {
                Some((bitmap.update(frame_index(addr.0), 0), held.remove(frame_index(addr.0))))
            } else {
                None
            },
        },
    }
}

/// The allocator after a schedule of requests that starts from `bitmap`
/// with no frame held.
pub open spec fn run_ops(bitmap: Seq<u8>, ops: Seq<FrameOp>) -> Option<(Seq<u8>, Set<int>)>
    decreases ops.len(),
{
    if ops.len() == 0 {
        Some((bitmap, Set::empty()))
    } else {
        step_op(run_ops(bitmap, ops.drop_last()), ops.last())
    }
}

/// The index of the frame that request `i` of a schedule hands out, where
/// it is an allocation.
pub open spec fn granted(bitmap: Seq<u8>, ops: Seq<FrameOp>, i: int) -> int {
    lowest_free(run_ops(bitmap, ops.take(i)).unwrap().0)
}

/// Where a schedule can be met, each of its beginnings can.
pub proof fn lemma_run_prefix(bitmap: Seq<u8>, ops: Seq<FrameOp>, k: int)
    requires
        run_ops(bitmap, ops) is Some,
        0 <= k <= ops.len(),
    ensures
        run_ops(bitmap, ops.take(k)) is Some,
    decreases ops.len(),
{
    if k == ops.len() {
        assert(ops.take(k) =~= ops);
    } else {
        lemma_run_prefix(bitmap, ops.drop_last(), k);
        assert(ops.drop_last().take(k) =~= ops.take(k));
    }
}

/// Throughout a schedule the frames that it holds are frames that were
/// free at its start and are in use now, and every other frame is as it
/// was at the start.
pub proof fn lemma_run_state(bitmap: Seq<u8>, ops: Seq<FrameOp>)
    requires
        bitmap.len() == BITMAP_SIZE,
        run_ops(bitmap, ops) is Some,
    ensures
        ({
            let (after, held) = run_ops(bitmap, ops).unwrap();
            &&& after.len() == bitmap.len()
            &&& forall|x: int|
                #[trigger] held.contains(x) ==> 0 <= x < bitmap.len() && bitmap[x] == 0 && after[x]
                    == 1
            &&& forall|x: int|
                0 <= x < bitmap.len() && !held.contains(x) ==> #[trigger] after[x] == bitmap[x]
        }),
    decreases ops.len(),
{
    if ops.len() > 0 {
        lemma_run_state(bitmap, ops.drop_last());
        let (before, held0) = run_ops(bitmap, ops.drop_last()).unwrap();
        let (after, held) = run_ops(bitmap, ops).unwrap();
        match ops.last() {
            FrameOp::Alloc => {
                lemma_lowest_free(before);
                let g = lowest_free(before);
                assert(after == before.update(g, 1));
                assert(held == held0.insert(g));
                assert(!held0.contains(g)) by {
                    if held0.contains(g) {
                        assert(before[g] == 1);
                    }
                }
                assert forall|x: int| #[trigger] held.contains(x) implies 0 <= x < bitmap.len()
                    && bitmap[x] == 0 && after[x] == 1 by {
                    if x != g {
                        assert(held0.contains(x));
                        assert(before[x] == 1);
                    }
                }
                assert forall|x: int|
                    0 <= x < bitmap.len() && !held.contains(x) implies #[trigger] after[x]
                    == bitmap[x] by {
                    assert(before[x] == bitmap[x]);
                }
            },
            FrameOp::Free(addr) => {
                let g = frame_index(addr.0);
                lemma_frame_of_index(addr.0);
                assert(after == before.update(g, 0));
                assert(held == held0.remove(g));
                assert(before[g] == 1);
                assert forall|x: int| #[trigger] held.contains(x) implies 0 <= x < bitmap.len()
                    && bitmap[x] == 0 && after[x] == 1 by {
                    assert(held0.contains(x));
                    assert(before[x] == 1);
                }
                assert forall|x: int|
                    0 <= x < bitmap.len() && !held.contains(x) implies #[trigger] after[x]
                    == bitmap[x] by {
                    if x != g {
                        assert(before[x] == bitmap[x]);
                    }
                }
            },
        }
    }
}

/// A schedule of allocations and frees that has got back every frame that
/// it handed out leaves the bitmap as it found it.
pub proof fn lemma_balanced_schedule_restores(bitmap: Seq<u8>, ops: Seq<FrameOp>)
    requires
        bitmap.len() == BITMAP_SIZE,
        run_ops(bitmap, ops) is Some,
        run_ops(bitmap, ops).unwrap().1 =~= Set::<int>::empty(),
    ensures
        run_ops(bitmap, ops).unwrap().0 == bitmap,
{
    lemma_run_state(bitmap, ops);
    assert(run_ops(bitmap, ops).unwrap().0 =~= bitmap);
}

/// A frame that allocation `i` of a schedule hands out is held until a
/// later request frees it.
pub proof fn lemma_held_until_freed(bitmap: Seq<u8>, ops: Seq<FrameOp>, i: int, j: int)
    requires
        bitmap.len() == BITMAP_SIZE,
        run_ops(bitmap, ops) is Some,
        0 <= i < j <= ops.len(),
        ops[i] == FrameOp::Alloc,
        forall|k: int|
            i < k < j ==> #[trigger] ops[k] != FrameOp::Free(
                PhysAddr(frame_addr(granted(bitmap, ops, i))),
            ),
    ensures
        run_ops(bitmap, ops.take(j)) is Some,
        run_ops(bitmap, ops.take(j)).unwrap().1.contains(granted(bitmap, ops, i)),
    decreases j,
{
    lemma_run_prefix(bitmap, ops, j);
    lemma_run_prefix(bitmap, ops, j - 1);
    assert(ops.take(j).drop_last() =~= ops.take(j - 1));
    assert(ops.take(j).last() == ops[j - 1]);
    let g = granted(bitmap, ops, i);
    if j == i + 1 {
    } else {
        lemma_held_until_freed(bitmap, ops, i, j - 1);
        lemma_run_state(bitmap, ops.take(j - 1));
        let (before, _held) = run_ops(bitmap, ops.take(j - 1)).unwrap();
        match ops[j - 1] {
            FrameOp::Alloc => {},
            FrameOp::Free(addr) => {
                if frame_index(addr.0) == g {
                    lemma_frame_of_index(addr.0);
                    assert(addr == PhysAddr(frame_addr(g)));
                }
            },
        }
    }
}

/// `alloc_phys` never returns the same address twice without a `free_phys`
/// of it in between: where two allocations of a schedule hand out the
/// same frame, a request between them frees it.
pub proof fn lemma_alloc_never_repeats(bitmap: Seq<u8>, ops: Seq<FrameOp>, i: int, j: int)
    requires
        bitmap.len() == BITMAP_SIZE,
        run_ops(bitmap, ops) is Some,
        0 <= i < j < ops.len(),
        ops[i] == FrameOp::Alloc,
        ops[j] == FrameOp::Alloc,
        granted(bitmap, ops, i) == granted(bitmap, ops, j),
    ensures
        exists|k: int|
            i < k < j && #[trigger] ops[k] == FrameOp::Free(
                PhysAddr(frame_addr(granted(bitmap, ops, i))),
            ),
{
    let g = granted(bitmap, ops, i);
    if forall|k: int| i < k < j ==> #[trigger] ops[k] != FrameOp::Free(PhysAddr(frame_addr(g))) {
        lemma_held_until_freed(bitmap, ops, i, j);
        lemma_run_state(bitmap, ops.take(j));
        lemma_run_prefix(bitmap, ops, j + 1);
        assert(ops.take(j + 1).drop_last() =~= ops.take(j));
        assert(ops.take(j + 1).last() == ops[j]);
        let (before, _held) = run_ops(bitmap, ops.take(j)).unwrap();
        lemma_lowest_free(before);
        assert(before[g] == 1);
    }
}

} // verus!
