//! Setting up the frame allocator from the bootloader's memory map: frames of usable
//! regions are free, except those holding the allocator's bitmap and those of the
//! kernel, its modules and bootloader-reclaimable memory.
use vstd::prelude::*;
use super::PAGE_SIZE;
use super::frame_allocator::{BitmapFrameAllocator, max_frames, MAX_FRAMES};

verus! {

/// Memory map entry types.
pub const MEMMAP_USABLE: u64 = 0;
pub const MEMMAP_RESERVED: u64 = 1;
pub const MEMMAP_ACPI_RECLAIMABLE: u64 = 2;
pub const MEMMAP_ACPI_NVS: u64 = 3;
pub const MEMMAP_BAD_MEMORY: u64 = 4;
pub const MEMMAP_BOOTLOADER_RECLAIMABLE: u64 = 5;
pub const MEMMAP_EXECUTABLE_AND_MODULES: u64 = 6;
pub const MEMMAP_FRAMEBUFFER: u64 = 7;

/// One region of physical memory as the bootloader reports it.
#[derive(Debug, Clone, Copy, PartialEq, Eq)]
pub struct MemmapEntry {
    pub base: u64,
    pub length: u64,
    pub type_: u64,
}

/// First frame of the entry.
pub open spec fn start_frame(e: MemmapEntry) -> int {
    e.base as int / 4096
}

/// Number of whole frames of the entry.
pub open spec fn frame_count(e: MemmapEntry) -> int {
    e.length as int / 4096
}

/// Frame `j` lies in the entry.
pub open spec fn covers(e: MemmapEntry, j: int) -> bool {
    start_frame(e) <= j < start_frame(e) + frame_count(e)
}

/// The kernel, its modules or bootloader-reclaimable memory: never handed out.
pub open spec fn is_protected(e: MemmapEntry) -> bool {
    e.type_ == MEMMAP_BOOTLOADER_RECLAIMABLE || e.type_ == MEMMAP_EXECUTABLE_AND_MODULES
}

/// The highest end address of a usable entry among the first `n`.
pub open spec fn usable_end(es: Seq<MemmapEntry>, n: int) -> int
    decreases n,
{
    if n <= 0 {
        0
    } else {
        let prev = usable_end(es, n - 1);
        let e = es[n - 1];
        if e.type_ == MEMMAP_USABLE && e.base + e.length > prev {
            e.base + e.length
        } else {
            prev
        }
    }
}

/// Frames tracked: up to the end of the highest usable region.
pub open spec fn tracked_frames(es: Seq<MemmapEntry>) -> int {
    usable_end(es, es.len() as int) / 4096
}

/// Bytes of the bitmap.
pub open spec fn bitmap_bytes(es: Seq<MemmapEntry>) -> int {
    (tracked_frames(es) + 7) / 8
}

/// Index of the first usable entry large enough to hold the bitmap.
pub open spec fn bitmap_entry(es: Seq<MemmapEntry>) -> int {
    choose|i: int| 0 <= i < es.len() && holds_bitmap(es, i) && forall|k: int| 0 <= k < i ==> !holds_bitmap(es, k)
}

pub open spec fn holds_bitmap(es: Seq<MemmapEntry>, i: int) -> bool {
    es[i].type_ == MEMMAP_USABLE && es[i].length >= bitmap_bytes(es)
}

/// The frames the bitmap occupies.
pub open spec fn in_bitmap(es: Seq<MemmapEntry>, j: int) -> bool {
    let b = es[bitmap_entry(es)].base / 4096;
    b <= j < b + (bitmap_bytes(es) + 4095) / 4096
}

/// Frame `j` is free once the allocator is set up.
pub open spec fn initially_free(es: Seq<MemmapEntry>, j: int) -> bool {
    &&& exists|i: int| 0 <= i < es.len() && es[i].type_ == MEMMAP_USABLE && #[trigger] covers(es[i], j)
    &&& !in_bitmap(es, j)
    &&& !exists|i: int| 0 <= i < es.len() && is_protected(es[i]) && start_frame(es[i]) < tracked_frames(es)
        && #[trigger] covers(es[i], j)
}

/// Every address stays in the 52-bit physical space.
pub open spec fn entries_in_range(es: Seq<MemmapEntry>) -> bool {
    forall|i: int| 0 <= i < es.len() ==> #[trigger] es[i].base + es[i].length <= max_frames() * 4096
}

proof fn lemma_usable_end_bound(es: Seq<MemmapEntry>, n: int)
    requires
        entries_in_range(es),
        n <= es.len(),
    ensures
        0 <= usable_end(es, n) <= max_frames() * 4096,
    decreases n,
{
    if n > 0 {
        lemma_usable_end_bound(es, n - 1);
        assert(es[n - 1].base + es[n - 1].length <= max_frames() * 4096);
    }
}

/// The entry is usable and can hold `size` bytes.
fn fits_bitmap(e: &MemmapEntry, size: usize) -> (r: bool)
    ensures
        r == (e.type_ == MEMMAP_USABLE && e.length >= size),
{
    e.type_ == MEMMAP_USABLE && e.length >= size as u64
}

/// The end of the highest usable region.
fn highest_usable_end(entries: &Vec<MemmapEntry>) -> (m: u64)
    requires
        entries_in_range(entries@),
    ensures
        m == usable_end(entries@, entries@.len() as int),
{
    let ghost es = entries@;
    let mut max_addr: u64 = 0;
    let mut i: usize = 0;
    while i < entries.len()
        invariant
            i <= es.len(),
            es == entries@,
            entries_in_range(es),
            max_addr == usable_end(es, i as int),
        decreases es.len() - i,
    {
        proof {
            lemma_usable_end_bound(es, i as int);
        }
        let e = entries[i];
        assert(e.base + e.length <= max_frames() * 4096);
        if e.type_ == MEMMAP_USABLE && e.base + e.length > max_addr {
            max_addr = e.base + e.length;
        }
        i = i + 1;
    }
    max_addr
}

/// Index of the first usable region that can hold `bitmap_size` bytes; the number of
/// entries when there is none.
fn first_bitmap_holder(entries: &Vec<MemmapEntry>, bitmap_size: usize) -> (k: usize)
    requires
        bitmap_size == bitmap_bytes(entries@),
    ensures
        k <= entries@.len(),
        forall|m: int| 0 <= m < k ==> !holds_bitmap(entries@, m),
        k < entries@.len() ==> holds_bitmap(entries@, k as int),
{
    let ghost es = entries@;
    let mut k: usize = 0;
    while k < entries.len() && !fits_bitmap(&entries[k], bitmap_size)
        invariant
            k <= es.len(),
            es == entries@,
            bitmap_size == bitmap_bytes(es),
            forall|m: int| 0 <= m < k ==> !holds_bitmap(es, m),
        decreases es.len() - k,
    {
        k = k + 1;
    }
    k
}

/// The frame allocator for the memory map `entries`, as [`init`] builds it; `None` when an
/// entry reaches past the 52-bit physical space, no usable entry can hold the bitmap, or
/// `usize` is too narrow for every frame number.
pub fn try_init(entries: &Vec<MemmapEntry>) -> (r: Option<BitmapFrameAllocator>)
    ensures
        r is Some <==> {
            &&& entries_in_range(entries@)
            &&& exists|i: int| 0 <= i < entries@.len() && holds_bitmap(entries@, i)
            &&& max_frames() * 2 + 16 <= usize::MAX
        },
        r matches Some(a) ==> {
            &&& a.wf()
            &&& a.total() == tracked_frames(entries@)
            &&& forall|j: int| 0 <= j < a.total() ==> #[trigger] a.is_used(j) == !initially_free(entries@, j)
        },
{
    let ghost es = entries@;
    if (usize::MAX as u64) < MAX_FRAMES * 2 + 16 {
        return None;
    }
    let mut i: usize = 0;
    while i < entries.len()
        invariant
            i <= es.len(),
            es == entries@,
            forall|m: int| 0 <= m < i ==> #[trigger] es[m].base + es[m].length <= max_frames() * 4096,
        decreases es.len() - i,
    {
        let e = entries[i];
        match e.base.checked_add(e.length) {
            Some(end) => {
                if end > MAX_FRAMES * PAGE_SIZE {
                    return None;
                }
            },
            None => {
                return None;
            },
        }
        i = i + 1;
    }
    let max_addr = highest_usable_end(entries);
    proof {
        lemma_usable_end_bound(es, es.len() as int);
    }
    let total_frames = (max_addr / PAGE_SIZE) as usize;
    let bitmap_size = (total_frames + 7) / 8;
    let k = first_bitmap_holder(entries, bitmap_size);
    if k == entries.len() {
        return None;
    }
    Some(init(entries))
}

/// Build the frame allocator from the memory map `entries`. Some usable entry must be
/// large enough for the bitmap, and usize must hold every frame number.
pub fn init(entries: &Vec<MemmapEntry>) -> (a: BitmapFrameAllocator)
    requires
        entries_in_range(entries@),
        exists|i: int| 0 <= i < entries@.len() && holds_bitmap(entries@, i),
        max_frames() * 2 + 16 <= usize::MAX,
    ensures
        a.wf(),
        a.total() == tracked_frames(entries@),
        forall|j: int| 0 <= j < a.total() ==> #[trigger] a.is_used(j) == !initially_free(entries@, j),
{
    let ghost es = entries@;
    let max_addr = highest_usable_end(entries);
    proof {
        lemma_usable_end_bound(es, es.len() as int);
    }
    let total_frames = (max_addr / PAGE_SIZE) as usize;
    let bitmap_size = (total_frames + 7) / 8;
    let k = first_bitmap_holder(entries, bitmap_size);
    if k == entries.len() {
        proof {
            let i = choose|i: int| 0 <= i < es.len() && holds_bitmap(es, i);
            assert(!holds_bitmap(es, i));
        }
        return BitmapFrameAllocator::new(0);
    }
    assert(holds_bitmap(es, k as int));
    assert(bitmap_entry(es) == k) by {
        let c = bitmap_entry(es);
        assert(0 <= c < es.len() && holds_bitmap(es, c) && forall|m: int| 0 <= m < c ==> !holds_bitmap(es, m));
        if c < k {
            assert(!holds_bitmap(es, c));
        } else if c > k {
            assert(!holds_bitmap(es, k as int));
        }
    }
    let bitmap_phys = entries[k].base;
    let mut a = BitmapFrameAllocator::new(total_frames);
    proof {
        a.lemma_bit_len();
    }
    // Usable regions are free.
    let mut i: usize = 0;
    while i < entries.len()
        invariant
            i <= es.len(),
            es == entries@,
            entries_in_range(es),
            a.wf(),
            a.total() == total_frames == tracked_frames(es),
            max_frames() * 2 + 16 <= usize::MAX,
            forall|j: int| 0 <= j < a.bit_len() ==> #[trigger] a.is_used(j) == !(j < a.total()
                && exists|m: int| 0 <= m < i && es[m].type_ == MEMMAP_USABLE && #[trigger] covers(es[m], j)),
        decreases es.len() - i,
    {
        let e = entries[i];
        assert(e.base + e.length <= max_frames() * 4096);
        if e.type_ == MEMMAP_USABLE {
            let start = (e.base / PAGE_SIZE) as usize;
            let count = (e.length / PAGE_SIZE) as usize;
            assert(start as int == start_frame(e) && count as int == frame_count(e));
            let ghost before = a;
            a.mark_region_free(start, count);
            proof {
                assert forall|j: int| 0 <= j < a.bit_len() implies #[trigger] a.is_used(j) == !(j < a.total()
                    && exists|m: int| 0 <= m < i + 1 && es[m].type_ == MEMMAP_USABLE && #[trigger] covers(es[m], j)) by {
                    before.lemma_bit_len();
                    a.lemma_bit_len();
                    assert(before.is_used(j) == !(j < a.total()
                        && exists|m: int| 0 <= m < i && es[m].type_ == MEMMAP_USABLE && #[trigger] covers(es[m], j)));
                    if j < a.total() && covers(es[i as int], j) {
                        assert(es[i as int].type_ == MEMMAP_USABLE);
                        assert(exists|m: int| 0 <= m < i + 1 && es[m].type_ == MEMMAP_USABLE && #[trigger] covers(es[m], j));
                    }
                    if exists|m: int| 0 <= m < i + 1 && es[m].type_ == MEMMAP_USABLE && #[trigger] covers(es[m], j) {
                        let m = choose|m: int| 0 <= m < i + 1 && es[m].type_ == MEMMAP_USABLE && #[trigger] covers(es[m], j);
                        if m < i {
                            assert(exists|m2: int| 0 <= m2 < i && es[m2].type_ == MEMMAP_USABLE && #[trigger] covers(es[m2], j));
                        }
                    }
                }
            }
        } else {
            proof {
                assert forall|j: int| 0 <= j < a.bit_len() implies #[trigger] a.is_used(j) == !(j < a.total()
                    && exists|m: int| 0 <= m < i + 1 && es[m].type_ == MEMMAP_USABLE && #[trigger] covers(es[m], j)) by {
                    if exists|m: int| 0 <= m < i + 1 && es[m].type_ == MEMMAP_USABLE && #[trigger] covers(es[m], j) {
                        let m = choose|m: int| 0 <= m < i + 1 && es[m].type_ == MEMMAP_USABLE && #[trigger] covers(es[m], j);
                        assert(m != i);
                        assert(exists|m2: int| 0 <= m2 < i && es[m2].type_ == MEMMAP_USABLE && #[trigger] covers(es[m2], j));
                    }
                }
            }
        }
        i = i + 1;
    }
    // The bitmap's own frames are in use.
    let bitmap_start_frame = (bitmap_phys / PAGE_SIZE) as usize;
    let bitmap_frame_count = ((bitmap_size as u64 + PAGE_SIZE - 1) / PAGE_SIZE) as usize;
    assert(bitmap_phys <= max_frames() * 4096) by {
        assert(es[k as int].base + es[k as int].length <= max_frames() * 4096);
    }
    let ghost before_bm = a;
    a.mark_region_used(bitmap_start_frame, bitmap_frame_count);
    proof {
        assert forall|j: int| 0 <= j < a.bit_len() implies #[trigger] a.is_used(j) == !(j < a.total()
            && (exists|m: int| 0 <= m < es.len() && es[m].type_ == MEMMAP_USABLE && #[trigger] covers(es[m], j))
            && !in_bitmap(es, j)
            && !exists|m: int| 0 <= m < 0 && is_protected(es[m]) && start_frame(es[m]) < tracked_frames(es)
                && #[trigger] covers(es[m], j)) by {
            before_bm.lemma_bit_len();
            a.lemma_bit_len();
            assert(before_bm.is_used(j) == !(j < a.total()
                && exists|m: int| 0 <= m < es.len() && es[m].type_ == MEMMAP_USABLE && #[trigger] covers(es[m], j)));
        }
    }
    // The kernel, its modules and bootloader-reclaimable memory are in use.
    let mut i: usize = 0;
    while i < entries.len()
        invariant
            i <= es.len(),
            es == entries@,
            entries_in_range(es),
            a.wf(),
            a.total() == total_frames == tracked_frames(es),
            max_frames() * 2 + 16 <= usize::MAX,
            bitmap_entry(es) == k,
            bitmap_start_frame == es[k as int].base / 4096,
            bitmap_frame_count == (bitmap_bytes(es) + 4095) / 4096,
            forall|j: int| 0 <= j < a.bit_len() ==> #[trigger] a.is_used(j) == !(j < a.total()
                && (exists|m: int| 0 <= m < es.len() && es[m].type_ == MEMMAP_USABLE && #[trigger] covers(es[m], j))
                && !in_bitmap(es, j)
                && !exists|m: int| 0 <= m < i && is_protected(es[m]) && start_frame(es[m]) < tracked_frames(es)
                    && #[trigger] covers(es[m], j)),
        decreases es.len() - i,
    {
        let e = entries[i];
        assert(e.base + e.length <= max_frames() * 4096);
        let protected = e.type_ == MEMMAP_BOOTLOADER_RECLAIMABLE || e.type_ == MEMMAP_EXECUTABLE_AND_MODULES;
        let start = (e.base / PAGE_SIZE) as usize;
        let count = (e.length / PAGE_SIZE) as usize;
        assert(start as int == start_frame(e) && count as int == frame_count(e));
        let ghost before = a;
        if protected && start < total_frames {
            a.mark_region_used(start, count);
        }
        proof {
            assert forall|j: int| 0 <= j < a.bit_len() implies #[trigger] a.is_used(j) == !(j < a.total()
                && (exists|m: int| 0 <= m < es.len() && es[m].type_ == MEMMAP_USABLE && #[trigger] covers(es[m], j))
                && !in_bitmap(es, j)
                && !exists|m: int| 0 <= m < i + 1 && is_protected(es[m]) && start_frame(es[m]) < tracked_frames(es)
                    && #[trigger] covers(es[m], j)) by {
                before.lemma_bit_len();
                a.lemma_bit_len();
                assert(before.is_used(j) == !(j < a.total()
                    && (exists|m: int| 0 <= m < es.len() && es[m].type_ == MEMMAP_USABLE && #[trigger] covers(es[m], j))
                    && !in_bitmap(es, j)
                    && !exists|m: int| 0 <= m < i && is_protected(es[m]) && start_frame(es[m]) < tracked_frames(es)
                        && #[trigger] covers(es[m], j)));
                if covers(es[i as int], j) && is_protected(es[i as int]) && start_frame(es[i as int]) < tracked_frames(es) {
                    assert(exists|m: int| 0 <= m < i + 1 && is_protected(es[m]) && start_frame(es[m]) < tracked_frames(es)
                        && #[trigger] covers(es[m], j));
                }
                if exists|m: int| 0 <= m < i + 1 && is_protected(es[m]) && start_frame(es[m]) < tracked_frames(es)
                    && #[trigger] covers(es[m], j) {
                    let m = choose|m: int| 0 <= m < i + 1 && is_protected(es[m]) && start_frame(es[m]) < tracked_frames(es)
                        && #[trigger] covers(es[m], j);
                    if m < i {
                        assert(exists|m2: int| 0 <= m2 < i && is_protected(es[m2]) && start_frame(es[m2]) < tracked_frames(es)
                            && #[trigger] covers(es[m2], j));
                    }
                }
            }
        }
        i = i + 1;
    }
    proof {
        a.lemma_bit_len();
    }
    a
}

} // verus!
