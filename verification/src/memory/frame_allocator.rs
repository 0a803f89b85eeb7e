use vstd::prelude::*;
use super::PAGE_SIZE;

verus! {

/// Largest number of frames a bitmap may track, as a constant.
pub const MAX_FRAMES: u64 = 0x100_0000_0000;

/// Largest number of frames a bitmap may track (4 PiB of physical memory), so that every
/// frame address fits the 52-bit physical address space.
pub open spec fn max_frames() -> nat {
    MAX_FRAMES as nat
}

/// Bit `i` of the bitmap `bm` (bit `i % 8` of byte `i / 8`) is set.
pub open spec fn bit_of(bm: Seq<u8>, i: int) -> bool {
    (bm[i / 8] >> ((i % 8) as u8)) & 1u8 == 1u8
}

/// Number of clear bits among the first `n` bits of `bm`.
pub open spec fn zeros_below(bm: Seq<u8>, n: int) -> nat
    decreases n,
{
    if n <= 0 {
        0
    } else {
        zeros_below(bm, n - 1) + if bit_of(bm, n - 1) {
            0nat
        } else {
            1nat
        }
    }
}

proof fn lemma_bit_set(b: u8, k: u8, m: u8)
    requires
        k < 8,
        m < 8,
    ensures
        ((b | (1u8 << k)) >> m) & 1u8 == if m == k {
            1u8
        } else {
            (b >> m) & 1u8
        },
{
    assert(((b | (1u8 << k)) >> m) & 1u8 == if m == k {
        1u8
    } else {
        (b >> m) & 1u8
    }) by (bit_vector)
        requires
            k < 8,
            m < 8,
    ;
}

proof fn lemma_bit_clear(b: u8, k: u8, m: u8)
    requires
        k < 8,
        m < 8,
    ensures
        ((b & !(1u8 << k)) >> m) & 1u8 == if m == k {
            0u8
        } else {
            (b >> m) & 1u8
        },
{
    assert(((b & !(1u8 << k)) >> m) & 1u8 == if m == k {
        0u8
    } else {
        (b >> m) & 1u8
    }) by (bit_vector)
        requires
            k < 8,
            m < 8,
    ;
}

proof fn lemma_full_byte(m: u8)
    requires
        m < 8,
    ensures
        (0xFFu8 >> m) & 1u8 == 1u8,
{
    assert((0xFFu8 >> m) & 1u8 == 1u8) by (bit_vector)
        requires
            m < 8,
    ;
}

proof fn lemma_zeros_all_used(bm: Seq<u8>, n: int)
    requires
        forall|j: int| 0 <= j < n ==> bit_of(bm, j),
    ensures
        zeros_below(bm, n) == 0,
    decreases n,
{
    if n > 0 {
        lemma_zeros_all_used(bm, n - 1);
    }
}

proof fn lemma_zeros_after_flip(before: Seq<u8>, after: Seq<u8>, i: int, n: int)
    requires
        forall|j: int| 0 <= j < n && j != i ==> bit_of(after, j) == bit_of(before, j),
    ensures
        zeros_below(after, n) + (if 0 <= i < n && !bit_of(before, i) { 1int } else { 0int })
            == zeros_below(before, n) + (if 0 <= i < n && !bit_of(after, i) { 1int } else { 0int }),
    decreases n,
{
    if n > 0 {
        lemma_zeros_after_flip(before, after, i, n - 1);
    }
}

proof fn lemma_zeros_bound(bm: Seq<u8>, n: int)
    ensures
        zeros_below(bm, n) <= if n > 0 { n } else { 0 },
    decreases n,
{
    if n > 0 {
        lemma_zeros_bound(bm, n - 1);
    }
}

/// Bitmap physical frame allocator: bit `i` set means frame `i` is allocated.
pub struct BitmapFrameAllocator {
    bitmap: Vec<u8>,
    total_frames: usize,
    next_free: usize,
}

/// `after` is `before` with the free, tracked frame at page-aligned `addr` taken.
pub open spec fn frame_taken(before: BitmapFrameAllocator, after: BitmapFrameAllocator, addr: u64) -> bool {
    let i = addr / PAGE_SIZE;
    &&& addr % PAGE_SIZE == 0
    &&& i < before.total()
    &&& !before.is_used(i as int)
    &&& after.total() == before.total()
    &&& forall|j: int| 0 <= j < after.bit_len() ==> #[trigger] after.is_used(j) == (j == i || before.is_used(j))
    &&& after.free_count() + 1 == before.free_count()
}

/// `after` is `before` with the frame at `addr` marked free.
pub open spec fn frame_returned(before: BitmapFrameAllocator, after: BitmapFrameAllocator, addr: u64) -> bool {
    let i = addr / PAGE_SIZE;
    &&& after.total() == before.total()
    &&& forall|j: int| 0 <= j < after.bit_len() ==> #[trigger] after.is_used(j) == (j != i && before.is_used(j))
    &&& after.free_count() == before.free_count() + if i < before.total() && before.is_used(i as int) {
        1int
    } else {
        0int
    }
}

/// The `n` frames from `start` are tracked and free in `a`.
pub open spec fn frames_free(a: BitmapFrameAllocator, start: int, n: int) -> bool {
    &&& 0 <= start
    &&& start + n <= a.total()
    &&& forall|j: int| start <= j < start + n ==> !#[trigger] a.is_used(j)
}

/// Number of frames below `n` that `a` has not marked allocated.
pub open spec fn free_frames_below(a: BitmapFrameAllocator, n: int) -> nat
    decreases n,
{
    if n <= 0 {
        0
    } else {
        free_frames_below(a, n - 1) + if a.is_used(n - 1) {
            0nat
        } else {
            1nat
        }
    }
}

/// When none of the first `n` frames is marked allocated, all `n` of them count as free.
pub proof fn lemma_free_frames_below_all(a: BitmapFrameAllocator, n: int)
    requires
        n >= 0,
        forall|j: int| 0 <= j < n ==> !#[trigger] a.is_used(j),
    ensures
        free_frames_below(a, n) == n,
    decreases n,
{
    if n > 0 {
        lemma_free_frames_below_all(a, n - 1);
        assert(!a.is_used(n - 1));
    }
}

/// At most `n` of the first `n` frames are free.
pub proof fn lemma_free_frames_below_bound(a: BitmapFrameAllocator, n: int)
    requires
        n >= 0,
    ensures
        free_frames_below(a, n) <= n,
    decreases n,
{
    if n > 0 {
        lemma_free_frames_below_bound(a, n - 1);
    }
}

proof fn lemma_zeros_are_free_frames(a: BitmapFrameAllocator, n: int)
    ensures
        zeros_below(a.bits(), n) == free_frames_below(a, n),
    decreases n,
{
    if n > 0 {
        lemma_zeros_are_free_frames(a, n - 1);
    }
}

/// Freeing the frame an allocation has just taken gives back the same used frames and the
/// same number of free frames.
pub proof fn lemma_free_undoes_allocate(
    a0: BitmapFrameAllocator,
    a1: BitmapFrameAllocator,
    a2: BitmapFrameAllocator,
    addr: u64,
)
    requires
        a0.wf(),
        a1.wf(),
        a2.wf(),
        frame_taken(a0, a1, addr),
        frame_returned(a1, a2, addr),
    ensures
        a2.total() == a0.total(),
        a2.free_count() == a0.free_count(),
        forall|j: int| 0 <= j < a0.bit_len() ==> #[trigger] a2.is_used(j) == a0.is_used(j),
{
    a0.lemma_bit_len();
    a1.lemma_bit_len();
    a2.lemma_bit_len();
    let i = addr / PAGE_SIZE;
    assert(a1.is_used(i as int));
    assert forall|j: int| 0 <= j < a0.bit_len() implies #[trigger] a2.is_used(j) == a0.is_used(j) by {
        assert(a2.is_used(j) == (j != i && a1.is_used(j)));
        assert(a1.is_used(j) == (j == i || a0.is_used(j)));
    }
}

impl BitmapFrameAllocator {
    /// The bitmap bytes.
    pub closed spec fn bits(&self) -> Seq<u8> {
        self.bitmap@
    }

    /// Frame `i` is marked allocated.
    pub closed spec fn is_used(&self, i: int) -> bool {
        bit_of(self.bitmap@, i)
    }

    pub closed spec fn total(&self) -> nat {
        self.total_frames as nat
    }

    /// Where the next search for a free frame starts.
    pub closed spec fn cursor(&self) -> nat {
        self.next_free as nat
    }

    /// Number of bits the bitmap holds (tracked frames rounded up to whole bytes).
    pub closed spec fn bit_len(&self) -> nat {
        (self.bitmap@.len() * 8) as nat
    }

    /// Frames below `total` that are free.
    pub closed spec fn free_count(&self) -> nat {
        zeros_below(self.bitmap@, self.total_frames as int)
    }

    /// The free count is the number of tracked frames whose bit is clear.
    pub proof fn lemma_free_count(&self)
        ensures
            self.free_count() == free_frames_below(*self, self.total() as int),
    {
        lemma_zeros_are_free_frames(*self, self.total_frames as int);
    }

    pub closed spec fn wf(&self) -> bool {
        &&& self.total_frames <= max_frames()
        &&& self.total_frames + 8 <= usize::MAX
        &&& self.bitmap@.len() == (self.total_frames + 7) / 8
        &&& self.next_free <= self.total_frames
    }

    /// The bitmap covers every tracked frame and at most seven padding bits.
    pub proof fn lemma_bit_len(&self)
        requires
            self.wf(),
        ensures
            self.total() <= self.bit_len() <= self.total() + 7,
            self.bit_len() == ((self.total() + 7) / 8) * 8,
            self.total() <= max_frames(),
            self.cursor() <= self.total(),
    {
        let t = self.total_frames as int;
        let l = self.bitmap@.len() as int;
        assert(l == (t + 7) / 8);
        assert(t <= l * 8 <= t + 7) by (nonlinear_arith)
            requires
                l == (t + 7) / 8,
                t >= 0,
        ;
    }

    /// A bitmap tracking `total_frames` frames, all marked allocated.
    pub fn new(total_frames: usize) -> (a: Self)
        requires
            total_frames <= max_frames(),
            total_frames + 8 <= usize::MAX,
        ensures
            a.wf(),
            a.total() == total_frames,
            a.cursor() == 0,
            forall|i: int| 0 <= i < a.bit_len() ==> a.is_used(i),
            a.bit_len() == ((total_frames + 7) / 8) * 8,
    {
        let bitmap_size = (total_frames + 7) / 8;
        let bitmap: Vec<u8> = vec![0xFFu8; bitmap_size];
        let a = BitmapFrameAllocator { bitmap, total_frames, next_free: 0 };
        assert forall|i: int| 0 <= i < a.bit_len() implies a.is_used(i) by {
            lemma_full_byte((i % 8) as u8);
        }
        a
    }

    pub fn is_set(&self, index: usize) -> (r: bool)
        requires
            index / 8 < self.bits().len(),
        ensures
            r == self.is_used(index as int),
    {
        let byte = index / 8;
        let bit = (index % 8) as u8;
        (self.bitmap[byte] >> bit) & 1 == 1
    }

    pub fn set_bit(&mut self, index: usize)
        requires
            index / 8 < old(self).bits().len(),
        ensures
            final(self).bits().len() == old(self).bits().len(),
            final(self).total() == old(self).total(),
            final(self).cursor() == old(self).cursor(),
            forall|j: int|
                0 <= j < final(self).bit_len() ==> #[trigger] final(self).is_used(j) == (j == index || old(
                    self,
                ).is_used(j)),
            old(self).wf() ==> final(self).wf(),
    {
        let byte = index / 8;
        let bit = (index % 8) as u8;
        let old_byte = self.bitmap[byte];
        self.bitmap.set(byte, old_byte | (1u8 << bit));
        proof {
            assert forall|j: int| 0 <= j < self.bit_len() implies #[trigger] self.is_used(j) == (j
                == index || old(self).is_used(j)) by {
                if j / 8 == byte as int {
                    lemma_bit_set(old_byte, bit, (j % 8) as u8);
                }
            }
        }
    }

    pub fn clear_bit(&mut self, index: usize)
        requires
            index / 8 < old(self).bits().len(),
        ensures
            final(self).bits().len() == old(self).bits().len(),
            final(self).total() == old(self).total(),
            final(self).cursor() == old(self).cursor(),
            forall|j: int|
                0 <= j < final(self).bit_len() ==> #[trigger] final(self).is_used(j) == (j != index && old(
                    self,
                ).is_used(j)),
            old(self).wf() ==> final(self).wf(),
    {
        let byte = index / 8;
        let bit = (index % 8) as u8;
        let old_byte = self.bitmap[byte];
        self.bitmap.set(byte, old_byte & !(1u8 << bit));
        proof {
            assert forall|j: int| 0 <= j < self.bit_len() implies #[trigger] self.is_used(j) == (j
                != index && old(self).is_used(j)) by {
                if j / 8 == byte as int {
                    lemma_bit_clear(old_byte, bit, (j % 8) as u8);
                }
            }
        }
    }

    /// Mark the frames `start_frame .. start_frame + count` that exist as free.
    pub fn mark_region_free(&mut self, start_frame: usize, count: usize)
        requires
            old(self).wf(),
            start_frame + count <= usize::MAX,
        ensures
            final(self).wf(),
            final(self).total() == old(self).total(),
            final(self).cursor() == old(self).cursor(),
            forall|j: int|
                0 <= j < final(self).bit_len() ==> #[trigger] final(self).is_used(j) == if start_frame <= j
                    < start_frame + count && j < old(self).total() {
                    false
                } else {
                    old(self).is_used(j)
                },
    {
        let end = start_frame + count;
        let mut i = start_frame;
        while i < end
            invariant
                self.wf(),
                self.total_frames == old(self).total_frames,
                self.next_free == old(self).next_free,
                self.bitmap@.len() == old(self).bitmap@.len(),
                start_frame <= i <= end,
                end == start_frame + count,
                forall|j: int|
                    0 <= j < self.bit_len() ==> #[trigger] self.is_used(j) == if start_frame <= j < i && j
                        < self.total_frames {
                        false
                    } else {
                        old(self).is_used(j)
                    },
            decreases end - i,
        {
            if i < self.total_frames {
                self.clear_bit(i);
            }
            i = i + 1;
        }
    }

    /// Mark the frames `start_frame .. start_frame + count` that exist as allocated.
    pub fn mark_region_used(&mut self, start_frame: usize, count: usize)
        requires
            old(self).wf(),
            start_frame + count <= usize::MAX,
        ensures
            final(self).wf(),
            final(self).total() == old(self).total(),
            final(self).cursor() == old(self).cursor(),
            forall|j: int|
                0 <= j < final(self).bit_len() ==> #[trigger] final(self).is_used(j) == if start_frame <= j
                    < start_frame + count && j < old(self).total() {
                    true
                } else {
                    old(self).is_used(j)
                },
    {
        let end = start_frame + count;
        let mut i = start_frame;
        while i < end
            invariant
                self.wf(),
                self.total_frames == old(self).total_frames,
                self.next_free == old(self).next_free,
                self.bitmap@.len() == old(self).bitmap@.len(),
                start_frame <= i <= end,
                end == start_frame + count,
                forall|j: int|
                    0 <= j < self.bit_len() ==> #[trigger] self.is_used(j) == if start_frame <= j < i && j
                        < self.total_frames {
                        true
                    } else {
                        old(self).is_used(j)
                    },
            decreases end - i,
        {
            if i < self.total_frames {
                self.set_bit(i);
            }
            i = i + 1;
        }
    }

    /// Take the first run of `n` contiguous free frames, returning the index of its first
    /// frame; `None`, changing nothing, when no such run exists.
    pub fn allocate_run(&mut self, n: usize) -> (r: Option<usize>)
        requires
            old(self).wf(),
            n >= 1,
        ensures
            final(self).wf(),
            final(self).total() == old(self).total(),
            match r {
                None => {
                    &&& *final(self) == *old(self)
                    &&& forall|s: int| !frames_free(*old(self), s, n as int)
                },
                Some(s) => {
                    &&& frames_free(*old(self), s as int, n as int)
                    &&& forall|t: int| 0 <= t < s ==> !frames_free(*old(self), t, n as int)
                    &&& forall|j: int| 0 <= j < final(self).bit_len() ==> #[trigger] final(self).is_used(j)
                        == ((s <= j < s + n) || old(self).is_used(j))
                    &&& final(self).free_count() + n == old(self).free_count()
                },
            },
    {
        proof {
            self.lemma_bit_len();
        }
        let mut s: usize = 0;
        while s <= self.total_frames && n <= self.total_frames - s
            invariant
                self.wf(),
                *self == *old(self),
                n >= 1,
                forall|t: int| 0 <= t < s ==> !frames_free(*old(self), t, n as int),
            decreases self.total_frames + 1 - s,
        {
            // Is the run from `s` free?
            let mut j: usize = 0;
            let mut free = true;
            while j < n
                invariant
                    self.wf(),
                    *self == *old(self),
                    s + n <= self.total_frames,
                    j <= n,
                    free ==> forall|m: int| s <= m < s + j ==> !self.is_used(m),
                    !free ==> !frames_free(*self, s as int, n as int),
                ensures
                    *self == *old(self),
                    free ==> forall|m: int| s <= m < s + n ==> !self.is_used(m),
                    !free ==> !frames_free(*self, s as int, n as int),
                decreases n - j,
            {
                proof {
                    self.lemma_bit_len();
                }
                if self.is_set(s + j) {
                    free = false;
                    assert(!frames_free(*self, s as int, n as int));
                    break;
                }
                j = j + 1;
            }
            if free {
                assert(frames_free(*old(self), s as int, n as int));
                let mut k: usize = 0;
                while k < n
                    invariant
                        self.wf(),
                        self.total() == old(self).total(),
                        self.bit_len() == old(self).bit_len(),
                        s + n <= self.total_frames,
                        k <= n,
                        frames_free(*old(self), s as int, n as int),
                        forall|m: int| 0 <= m < self.bit_len() ==> #[trigger] self.is_used(m)
                            == ((s <= m < s + k) || old(self).is_used(m)),
                        self.free_count() + k == old(self).free_count(),
                    decreases n - k,
                {
                    proof {
                        self.lemma_bit_len();
                        assert(!old(self).is_used((s + k) as int));
                        assert(!self.is_used((s + k) as int));
                    }
                    let ghost before = *self;
                    let _ = self.take_frame(s + k);
                    proof {
                        self.lemma_bit_len();
                        before.lemma_bit_len();
                        assert forall|m: int| 0 <= m < self.bit_len() implies #[trigger] self.is_used(m)
                            == ((s <= m < s + k + 1) || old(self).is_used(m)) by {
                            assert(self.is_used(m) == (m == s + k || before.is_used(m)));
                        }
                    }
                    k = k + 1;
                }
                return Some(s);
            }
            s = s + 1;
        }
        proof {
            assert forall|t: int| !frames_free(*old(self), t, n as int) by {
                if 0 <= t && t >= s as int {
                    assert(t + n > old(self).total());
                }
            }
        }
        None
    }

    /// Allocate a free frame and return its start address. The search starts at the cursor
    /// and wraps around to frame 0.
    pub fn allocate_frame(&mut self) -> (r: Option<u64>)
        requires
            old(self).wf(),
        ensures
            final(self).wf(),
            final(self).total() == old(self).total(),
            match r {
                None => {
                    &&& *final(self) == *old(self)
                    &&& forall|j: int| 0 <= j < old(self).total() ==> old(self).is_used(j)
                    &&& old(self).free_count() == 0
                },
                Some(addr) => {
                    let i = addr / PAGE_SIZE;
                    &&& frame_taken(*old(self), *final(self), addr)
                    &&& (if i >= old(self).cursor() {
                        forall|j: int| old(self).cursor() <= j < i ==> old(self).is_used(j)
                    } else {
                        &&& forall|j: int| old(self).cursor() <= j < old(self).total() ==> old(self).is_used(j)
                        &&& forall|j: int| 0 <= j < i ==> old(self).is_used(j)
                    })
                    &&& final(self).cursor() == i + 1
                },
            },
    {
        let mut i = self.next_free;
        while i < self.total_frames
            invariant
                self.wf(),
                *self == *old(self),
                self.next_free <= i <= self.total_frames,
                forall|j: int| self.next_free <= j < i ==> self.is_used(j),
            decreases self.total_frames - i,
        {
            if !self.is_set(i) {
                return self.take_frame(i);
            }
            i = i + 1;
        }
        let mut i: usize = 0;
        while i < self.next_free
            invariant
                self.wf(),
                *self == *old(self),
                i <= self.next_free,
                forall|j: int| self.next_free <= j < self.total_frames ==> self.is_used(j),
                forall|j: int| 0 <= j < i ==> self.is_used(j),
            decreases self.next_free - i,
        {
            if !self.is_set(i) {
                return self.take_frame(i);
            }
            i = i + 1;
        }
        proof {
            self.lemma_bit_len();
            assert forall|j: int| 0 <= j < self.total_frames implies bit_of(self.bitmap@, j) by {
                assert(self.is_used(j));
            }
            lemma_zeros_all_used(self.bitmap@, self.total_frames as int);
        }
        None
    }

    /// Mark the free frame `i` allocated, move the cursor past it and return its address.
    fn take_frame(&mut self, i: usize) -> (r: Option<u64>)
        requires
            old(self).wf(),
            i < old(self).total(),
            !old(self).is_used(i as int),
        ensures
            final(self).wf(),
            final(self).total() == old(self).total(),
            r == Some(((i as u64) * PAGE_SIZE) as u64),
            forall|j: int|
                0 <= j < final(self).bit_len() ==> #[trigger] final(self).is_used(j) == (j == i
                    || old(self).is_used(j)),
            final(self).cursor() == i + 1,
            final(self).free_count() + 1 == old(self).free_count(),
    {
        proof {
            old(self).lemma_bit_len();
        }
        self.set_bit(i);
        proof {
            assert forall|j: int| 0 <= j < self.total_frames && j != i implies bit_of(self.bitmap@, j)
                == bit_of(old(self).bitmap@, j) by {
                assert(self.is_used(j) == (j == i || old(self).is_used(j)));
            }
            assert(self.is_used(i as int));
        }
        let ghost mid = *self;
        self.next_free = i + 1;
        proof {
            assert forall|j: int| 0 <= j < self.bit_len() implies #[trigger] self.is_used(j) == (j == i
                || old(self).is_used(j)) by {
                assert(mid.is_used(j) == (j == i || old(self).is_used(j)));
            }
            lemma_zeros_after_flip(old(self).bitmap@, self.bitmap@, i as int, self.total_frames as int);
        }
        Some((i as u64) * PAGE_SIZE)
    }

    /// Return the frame starting at `frame_addr` to the pool.
    pub fn free_frame(&mut self, frame_addr: u64)
        requires
            old(self).wf(),
            frame_addr / PAGE_SIZE < old(self).bit_len(),
        ensures
            final(self).wf(),
            frame_returned(*old(self), *final(self), frame_addr),
            final(self).cursor() == if frame_addr / PAGE_SIZE < old(self).cursor() {
                (frame_addr / PAGE_SIZE) as nat
            } else {
                old(self).cursor()
            },
    {
        proof {
            old(self).lemma_bit_len();
        }
        let index = (frame_addr / PAGE_SIZE) as usize;
        assert(index as int == frame_addr / PAGE_SIZE);
        self.clear_bit(index);
        proof {
            assert forall|j: int| 0 <= j < self.total_frames && j != index implies bit_of(self.bitmap@, j)
                == bit_of(old(self).bitmap@, j) by {
                assert(self.is_used(j) == (j != index && old(self).is_used(j)));
            }
            if index < self.total_frames {
                assert(!self.is_used(index as int));
            }
        }
        let ghost mid = *self;
        if index < self.next_free {
            self.next_free = index;
        }
        proof {
            assert forall|j: int| 0 <= j < self.bit_len() implies #[trigger] self.is_used(j) == (j
                != frame_addr / PAGE_SIZE && old(self).is_used(j)) by {
                assert(mid.is_used(j) == (j != index && old(self).is_used(j)));
            }
            lemma_zeros_after_flip(old(self).bitmap@, self.bitmap@, index as int, self.total_frames as int);
        }
    }

    /// Number of free frames among the tracked ones.
    pub fn free_frames(&self) -> (n: usize)
        requires
            self.wf(),
        ensures
            n == self.free_count(),
    {
        let mut n: usize = 0;
        let mut i: usize = 0;
        while i < self.total_frames
            invariant
                self.wf(),
                i <= self.total_frames,
                n == zeros_below(self.bitmap@, i as int),
            decreases self.total_frames - i,
        {
            proof {
                lemma_zeros_bound(self.bitmap@, i as int);
            }
            if !self.is_set(i) {
                n = n + 1;
            }
            i = i + 1;
        }
        n
    }

    /// `(free, total)`: the frames below the total whose bit is clear, and the total.
    pub fn stats(&self) -> (r: (usize, usize))
        requires
            self.wf(),
        ensures
            r.0 == self.free_count(),
            r.1 == self.total(),
            r.0 <= r.1,
    {
        proof {
            lemma_zeros_bound(self.bitmap@, self.total_frames as int);
        }
        (self.free_frames(), self.total_frames)
    }
}

} // verus!
