//! Where the kernel heap lives and which pages back it.
use vstd::prelude::*;
use super::PAGE_SIZE;

verus! {

/// First address of the kernel heap, clear of the direct map.
pub const HEAP_START: u64 = 0xFFFF_A000_0000_0000;

/// Size of the kernel heap: 1 MiB.
pub const HEAP_SIZE: u64 = 1024 * 1024;

/// Start of the page that holds address `a`.
pub open spec fn page_of(a: int) -> int {
    a - a % (PAGE_SIZE as int)
}

/// The pages to map for `size` bytes from `start`: every page from the one holding
/// `start` to the one holding the last byte, in increasing order.
pub open spec fn pages_spanning(start: int, size: int) -> Seq<u64> {
    let first = page_of(start);
    let last = page_of(start + size - 1);
    Seq::new(((last - first) / PAGE_SIZE as int + 1) as nat, |i: int| (first + PAGE_SIZE * i) as u64)
}

/// The pages that back `size` bytes from `start`.
pub fn heap_pages(start: u64, size: u64) -> (pages: Vec<u64>)
    requires
        size > 0,
        start + size + PAGE_SIZE <= u64::MAX,
    ensures
        pages@ == pages_spanning(start as int, size as int),
{
    let first = start - start % PAGE_SIZE;
    let end = start + size - 1;
    let last = end - end % PAGE_SIZE;
    let ghost k: int = (last - first) / PAGE_SIZE as int;
    assert(first <= last);
    assert(last == first + PAGE_SIZE * k) by (nonlinear_arith)
        requires
            first == start - start % 4096,
            last == end - end % 4096,
            k == (last - first) / 4096,
            start <= end,
            PAGE_SIZE == 4096,
    {
        assert(first % 4096 == 0);
        assert(last % 4096 == 0);
    }
    let mut pages: Vec<u64> = Vec::new();
    let mut current = first;
    while current <= last
        invariant
            first <= last,
            last == first + PAGE_SIZE * k,
            last + PAGE_SIZE <= u64::MAX,
            0 <= k,
            current == first + PAGE_SIZE * pages@.len(),
            pages@.len() <= k + 1,
            forall|i: int| 0 <= i < pages@.len() ==> pages@[i] == first + PAGE_SIZE * i,
        decreases last + PAGE_SIZE - current,
    {
        pages.push(current);
        assert(pages@.len() <= k + 1) by (nonlinear_arith)
            requires
                current <= last,
                current == first + 4096 * (pages@.len() - 1),
                last == first + 4096 * k,
        ;
        current = current + PAGE_SIZE;
    }
    assert(pages@.len() == k + 1) by (nonlinear_arith)
        requires
            current > last,
            current == first + 4096 * pages@.len(),
            last == first + 4096 * k,
            pages@.len() <= k + 1,
    ;
    assert(pages@ =~= pages_spanning(start as int, size as int));
    pages
}

} // verus!
