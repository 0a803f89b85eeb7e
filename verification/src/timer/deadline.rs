use vstd::prelude::*;
use crate::task::TaskId;
use crate::task::scheduler::{Scheduler, spec_unblock_all};

verus! {

#[derive(Debug, Clone, Copy, PartialEq, Eq, Structural)]
pub struct DeadlineEntry {
    pub deadline_tick: u64,
    pub task_id: TaskId,
    pub callback_id: u64,
}

/// Tasks of `es`, in order.
pub open spec fn tasks_of(es: Seq<DeadlineEntry>) -> Seq<TaskId> {
    es.map_values(|e: DeadlineEntry| e.task_id)
}

/// No two entries of `es` share a callback id.
pub open spec fn ids_unique(es: Seq<DeadlineEntry>) -> bool {
    forall|i: int, j: int| 0 <= i < j < es.len() ==> es[i].callback_id != es[j].callback_id
}

/// Some entry of `es` has callback id `c`.
pub open spec fn has_callback(es: Seq<DeadlineEntry>, c: u64) -> bool {
    exists|k: int| 0 <= k < es.len() && es[k].callback_id == c
}

/// With unique callback ids, dropping the entries of one id removes one entry if it is
/// pending and none otherwise.
pub proof fn lemma_cancel_count(es: Seq<DeadlineEntry>, c: u64)
    requires
        ids_unique(es),
    ensures
        es.filter(|e: DeadlineEntry| e.callback_id != c).len() + (if has_callback(es, c) { 1int } else { 0int })
            == es.len(),
        ids_unique(es.filter(|e: DeadlineEntry| e.callback_id != c)),
        !has_callback(es.filter(|e: DeadlineEntry| e.callback_id != c), c),
    decreases es.len(),
{
    broadcast use vstd::seq_lib::group_filter_ensures;
    let pred = |e: DeadlineEntry| e.callback_id != c;
    if es.len() == 0 {
        assert(es.filter(pred) =~= Seq::<DeadlineEntry>::empty());
    } else {
        let init = es.drop_last();
        assert(ids_unique(init));
        lemma_cancel_count(init, c);
        assert(init.push(es.last()) =~= es);
        init.lemma_filter_push(es.last(), pred);
        let fi = init.filter(pred);
        let f = es.filter(pred);
        if pred(es.last()) {
            assert(f == fi.push(es.last()));
            assert forall|i: int, j: int| 0 <= i < j < f.len() implies f[i].callback_id != f[j].callback_id by {
                if j == f.len() - 1 {
                    assert(f[i] == fi[i]);
                    assert(fi.contains(f[i]));
                    init.lemma_filter_contains_rev(pred, f[i]);
                    assert(init.contains(f[i]));
                    let k = choose|k: int| 0 <= k < init.len() && init[k] == f[i];
                    assert(es[k].callback_id != es[es.len() - 1].callback_id);
                } else {
                    assert(f[i] == fi[i] && f[j] == fi[j]);
                }
            }
            assert(!has_callback(f, c)) by {
                if has_callback(f, c) {
                    let k = choose|k: int| 0 <= k < f.len() && f[k].callback_id == c;
                    if k < fi.len() {
                        assert(f[k] == fi[k]);
                    }
                }
            }
        } else {
            assert(f == fi);
        }
        if es.last().callback_id == c {
            assert(has_callback(es, c));
            assert(!has_callback(init, c)) by {
                if has_callback(init, c) {
                    let k = choose|k: int| 0 <= k < init.len() && init[k].callback_id == c;
                    assert(es[k].callback_id != es[es.len() - 1].callback_id);
                }
            }
        } else {
            assert(has_callback(es, c) == has_callback(init, c)) by {
                if has_callback(es, c) {
                    let k = choose|k: int| 0 <= k < es.len() && es[k].callback_id == c;
                    assert(k < init.len() && init[k].callback_id == c);
                }
                if has_callback(init, c) {
                    let k = choose|k: int| 0 <= k < init.len() && init[k].callback_id == c;
                    assert(es[k].callback_id == c);
                }
            }
        }
    }
}

/// Well-formed queue for the callback counter `counter`: its callback ids are distinct and
/// each was handed out before the counter reached its current value.
pub open spec fn queue_wf(es: Seq<DeadlineEntry>, counter: u64) -> bool {
    &&& ids_unique(es)
    &&& forall|k: int| 0 <= k < es.len() ==> #[trigger] es[k].callback_id < counter
}

/// Removing one entry keeps the ids distinct, and what stays was there before.
proof fn lemma_remove_keeps_ids(es: Seq<DeadlineEntry>, k: int)
    requires
        0 <= k < es.len(),
    ensures
        ids_unique(es) ==> ids_unique(es.remove(k)),
        forall|j: int| 0 <= j < es.remove(k).len() ==> es.contains(#[trigger] es.remove(k)[j]),
{
    let r = es.remove(k);
    assert forall|j: int| 0 <= j < r.len() implies es.contains(#[trigger] r[j]) by {
        if j < k {
            assert(r[j] == es[j]);
        } else {
            assert(r[j] == es[j + 1]);
        }
    }
    if ids_unique(es) {
        assert forall|i: int, j: int| 0 <= i < j < r.len() implies r[i].callback_id != r[j].callback_id by {
            let i2 = if i < k { i } else { i + 1 };
            let j2 = if j < k { j } else { j + 1 };
            assert(r[i] == es[i2] && r[j] == es[j2]);
        }
    }
}

/// An entry that keeps every entry of `es` passes a filter over `es` unchanged.
proof fn lemma_filter_keeps_all(es: Seq<DeadlineEntry>, c: u64)
    requires
        forall|k: int| 0 <= k < es.len() ==> #[trigger] es[k].callback_id != c,
    ensures
        es.filter(|e: DeadlineEntry| e.callback_id != c) == es,
    decreases es.len(),
{
    let pred = |e: DeadlineEntry| e.callback_id != c;
    if es.len() == 0 {
        assert(es.filter(pred) =~= es);
    } else {
        let init = es.drop_last();
        assert forall|k: int| 0 <= k < init.len() implies #[trigger] init[k].callback_id != c by {
            assert(init[k] == es[k]);
        }
        lemma_filter_keeps_all(init, c);
        assert(init.push(es.last()) =~= es);
        init.lemma_filter_push(es.last(), pred);
        assert(pred(es.last()));
    }
}

/// Cancelling the id that scheduling has just handed out gives back the queue as it was:
/// in a well-formed queue no other entry carries that id.
pub proof fn lemma_cancel_undoes_schedule(es: Seq<DeadlineEntry>, counter: u64, deadline_tick: u64, task_id: TaskId)
    requires
        queue_wf(es, counter),
    ensures
        es.push(DeadlineEntry { deadline_tick, task_id, callback_id: counter }).filter(
            |e: DeadlineEntry| e.callback_id != counter,
        ) == es,
{
    let pred = |e: DeadlineEntry| e.callback_id != counter;
    let e = DeadlineEntry { deadline_tick, task_id, callback_id: counter };
    es.lemma_filter_push(e, pred);
    assert(!pred(e));
    assert forall|k: int| 0 <= k < es.len() implies #[trigger] es[k].callback_id != counter by {
        assert(es[k].callback_id < counter);
    }
    lemma_filter_keeps_all(es, counter);
}

/// Pending wake-ups, fired earliest deadline first.
pub struct DeadlineQueue {
    heap: Vec<DeadlineEntry>,
}

impl DeadlineQueue {
    /// The pending entries (their order carries no meaning).
    pub closed spec fn entries(&self) -> Seq<DeadlineEntry> {
        self.heap@
    }

    pub fn new() -> (q: Self)
        ensures
            q.entries() == Seq::<DeadlineEntry>::empty(),
            forall|counter: u64| #[trigger] queue_wf(q.entries(), counter),
    {
        DeadlineQueue { heap: Vec::new() }
    }

    /// Wake `task_id` at `deadline_tick`; the callback id comes from `next_callback`.
    pub fn schedule(&mut self, task_id: TaskId, deadline_tick: u64, next_callback: &mut u64) -> (id: u64)
        ensures
            id == *old(next_callback),
            *final(next_callback) == (if id == u64::MAX { 0 } else { id + 1 }),
            final(self).entries() == old(self).entries().push(DeadlineEntry { deadline_tick, task_id, callback_id: id }),
            ids_unique(old(self).entries()) && !has_callback(old(self).entries(), id) ==> ids_unique(final(self).entries()),
            queue_wf(old(self).entries(), id) && id < u64::MAX ==> queue_wf(final(self).entries(), *final(next_callback)),
    {
        let id = *next_callback;
        *next_callback = next_callback.wrapping_add(1);
        self.heap.push(DeadlineEntry { deadline_tick, task_id, callback_id: id });
        proof {
            let es = self.heap@;
            if queue_wf(old(self).heap@, id) {
                assert(!has_callback(old(self).heap@, id)) by {
                    if has_callback(old(self).heap@, id) {
                        let k = choose|k: int| 0 <= k < old(self).heap@.len() && old(self).heap@[k].callback_id == id;
                        assert(old(self).heap@[k].callback_id < id);
                    }
                }
                assert forall|k: int| 0 <= k < es.len() implies #[trigger] es[k].callback_id < *next_callback || id == u64::MAX by {
                    if k < es.len() - 1 {
                        assert(es[k] == old(self).heap@[k]);
                    }
                }
            }
            if ids_unique(old(self).heap@) && !has_callback(old(self).heap@, id) {
                assert forall|i: int, j: int| 0 <= i < j < es.len() implies es[i].callback_id != es[j].callback_id by {
                    if j == es.len() - 1 {
                        assert(old(self).heap@[i] == es[i]);
                    }
                }
            }
        }
        id
    }

    /// Drop every entry with `callback_id`. With unique callback ids (as a queue filled
    /// from one counter has) the count falls by one when the id is pending and stays
    /// otherwise; a second cancel of the same id changes nothing.
    pub fn cancel(&mut self, callback_id: u64)
        ensures
            final(self).entries() == old(self).entries().filter(|e: DeadlineEntry| e.callback_id != callback_id),
            !has_callback(final(self).entries(), callback_id),
            ids_unique(old(self).entries()) ==> ids_unique(final(self).entries())
                && final(self).entries().len() + (if has_callback(old(self).entries(), callback_id) { 1int } else { 0int })
                == old(self).entries().len(),
            forall|counter: u64| #[trigger] queue_wf(old(self).entries(), counter) ==> queue_wf(final(self).entries(), counter),
    {
        let ghost pred = |e: DeadlineEntry| e.callback_id != callback_id;
        let ghost q0 = self.heap@;
        let mut kept: Vec<DeadlineEntry> = Vec::new();
        let mut i: usize = 0;
        while i < self.heap.len()
            invariant
                self.heap@ == q0,
                pred == (|e: DeadlineEntry| e.callback_id != callback_id),
                i <= q0.len(),
                kept@ == q0.take(i as int).filter(pred),
            decreases q0.len() - i,
        {
            let e = self.heap[i];
            proof {
                assert(q0.take(i + 1) =~= q0.take(i as int).push(q0[i as int]));
                q0.take(i as int).lemma_filter_push(q0[i as int], pred);
            }
            if e.callback_id != callback_id {
                kept.push(e);
            }
            i = i + 1;
        }
        assert(q0.take(i as int) =~= q0);
        self.heap = kept;
        proof {
            broadcast use vstd::seq_lib::group_filter_ensures;
            assert forall|counter: u64| #[trigger] queue_wf(q0, counter) implies queue_wf(self.heap@, counter) by {
                lemma_cancel_count(q0, callback_id);
                let f = self.heap@;
                assert forall|k: int| 0 <= k < f.len() implies #[trigger] f[k].callback_id < counter by {
                    assert(q0.filter(pred).contains(f[k]));
                    q0.lemma_filter_contains_rev(pred, f[k]);
                    let m = choose|m: int| 0 <= m < q0.len() && q0[m] == f[k];
                    assert(q0[m].callback_id < counter);
                }
            }
            if ids_unique(q0) {
                lemma_cancel_count(q0, callback_id);
            } else {
                broadcast use vstd::seq_lib::group_filter_ensures;
                assert(!has_callback(q0.filter(pred), callback_id)) by {
                    if has_callback(q0.filter(pred), callback_id) {
                        let k = choose|k: int| 0 <= k < q0.filter(pred).len() && q0.filter(pred)[k].callback_id == callback_id;
                        assert(q0.filter(pred).contains(q0.filter(pred)[k]));
                    }
                }
            }
        }
    }

    /// Index of an entry with the earliest deadline (the first such), if any.
    fn earliest(&self) -> (r: Option<usize>)
        ensures
            self.entries().len() == 0 <==> r is None,
            match r {
                Some(k) => k < self.entries().len() && forall|j: int|
                    0 <= j < self.entries().len() ==> self.entries()[k as int].deadline_tick
                        <= #[trigger] self.entries()[j].deadline_tick,
                None => true,
            },
    {
        if self.heap.len() == 0 {
            return None;
        }
        let mut best: usize = 0;
        let mut i: usize = 1;
        while i < self.heap.len()
            invariant
                1 <= i <= self.heap@.len(),
                best < i,
                forall|j: int| 0 <= j < i ==> self.heap@[best as int].deadline_tick <= #[trigger] self.heap@[j].deadline_tick,
            decreases self.heap@.len() - i,
        {
            if self.heap[i].deadline_tick < self.heap[best].deadline_tick {
                best = i;
            }
            i = i + 1;
        }
        Some(best)
    }

    /// Fire every entry whose deadline is at or before `current_tick`, earliest first,
    /// waking its task; return how many fired.
    pub fn check_expired(&mut self, current_tick: u64, sched: &mut Scheduler) -> (fired: usize)
        ensures
            final(sched).saved_contexts() == old(sched).saved_contexts(),
            final(sched).wf() == old(sched).wf(),
            forall|j: int| 0 <= j < final(self).entries().len() ==> #[trigger] final(self).entries()[j].deadline_tick > current_tick,
            exists|popped: Seq<DeadlineEntry>| {
                &&& popped.len() == fired
                &&& old(self).entries().to_multiset() == final(self).entries().to_multiset().add(popped.to_multiset())
                &&& forall|a: int, b: int| 0 <= a < b < popped.len() ==> popped[a].deadline_tick <= popped[b].deadline_tick
                &&& forall|a: int| 0 <= a < popped.len() ==> #[trigger] popped[a].deadline_tick <= current_tick
                &&& final(sched).view() == spec_unblock_all(old(sched).view(), tasks_of(popped))
            },
            forall|counter: u64| #[trigger] queue_wf(old(self).entries(), counter) ==> queue_wf(final(self).entries(), counter),
    {
        broadcast use vstd::seq_lib::group_to_multiset_ensures;
        let ghost mut popped: Seq<DeadlineEntry> = Seq::empty();
        let mut fired: usize = 0;
        let n0 = self.heap.len();
        loop
            invariant_except_break
                fired == popped.len(),
                fired <= old(self).entries().len(),
                old(self).entries().to_multiset() == self.heap@.to_multiset().add(popped.to_multiset()),
                forall|a: int, b: int| 0 <= a < b < popped.len() ==> popped[a].deadline_tick <= popped[b].deadline_tick,
                forall|a: int| 0 <= a < popped.len() ==> #[trigger] popped[a].deadline_tick <= current_tick,
                forall|a: int, j: int| 0 <= a < popped.len() && 0 <= j < self.heap@.len() ==> #[trigger] popped[a].deadline_tick <= #[trigger] self.heap@[j].deadline_tick,
                sched.view() == spec_unblock_all(old(sched).view(), tasks_of(popped)),
                sched.saved_contexts() == old(sched).saved_contexts(),
                sched.wf() == old(sched).wf(),
                self.heap@.len() + popped.len() == n0,
                n0 == old(self).entries().len(),
                ids_unique(old(self).entries()) ==> ids_unique(self.heap@),
                forall|j: int| 0 <= j < self.heap@.len() ==> old(self).entries().contains(#[trigger] self.heap@[j]),
            ensures
                fired == popped.len(),
                old(self).entries().to_multiset() == self.heap@.to_multiset().add(popped.to_multiset()),
                forall|a: int, b: int| 0 <= a < b < popped.len() ==> popped[a].deadline_tick <= popped[b].deadline_tick,
                forall|a: int| 0 <= a < popped.len() ==> #[trigger] popped[a].deadline_tick <= current_tick,
                forall|j: int| 0 <= j < self.heap@.len() ==> #[trigger] self.heap@[j].deadline_tick > current_tick,
                sched.view() == spec_unblock_all(old(sched).view(), tasks_of(popped)),
                sched.saved_contexts() == old(sched).saved_contexts(),
                sched.wf() == old(sched).wf(),
                ids_unique(old(self).entries()) ==> ids_unique(self.heap@),
                forall|j: int| 0 <= j < self.heap@.len() ==> old(self).entries().contains(#[trigger] self.heap@[j]),
            decreases self.heap@.len(),
        {
            let k = match self.earliest() {
                Some(k) => k,
                None => break,
            };
            if self.heap[k].deadline_tick > current_tick {
                break;
            }
            let ghost before = self.heap@;
            let entry = self.heap.remove(k);
            proof {
                lemma_remove_keeps_ids(before, k as int);
                assert(self.heap@ == before.remove(k as int));
                vstd::seq_lib::to_multiset_remove(before, k as int);
                let p2 = popped.push(entry);
                vstd::seq_lib::to_multiset_build(popped, entry);
                assert(before.contains(entry)) by {
                    assert(before[k as int] == entry);
                }
                before.to_multiset_ensures();
                assert(before.to_multiset().count(entry) > 0);
                assert(self.heap@.to_multiset().insert(entry) =~= before.to_multiset());
                assert(self.heap@.to_multiset().add(p2.to_multiset()) =~= before.to_multiset().add(popped.to_multiset()));
                assert(tasks_of(p2).drop_last() =~= tasks_of(popped));
                assert forall|a: int, j: int| 0 <= a < p2.len() && 0 <= j < self.heap@.len() implies #[trigger] p2[a].deadline_tick <= #[trigger] self.heap@[j].deadline_tick by {
                    if j < k {
                        assert(self.heap@[j] == before[j]);
                    } else {
                        assert(self.heap@[j] == before[j + 1]);
                    }
                }
                assert forall|a: int, b: int| 0 <= a < b < p2.len() implies p2[a].deadline_tick <= p2[b].deadline_tick by {
                    if b == popped.len() {
                        assert(p2[b] == before[k as int]);
                    }
                }
                popped = p2;
            }
            sched.unblock(entry.task_id);
            fired = fired + 1;
        }
        proof {
            let es = old(self).entries();
            assert forall|counter: u64| #[trigger] queue_wf(es, counter) implies queue_wf(self.heap@, counter) by {
                assert forall|k: int| 0 <= k < self.heap@.len() implies #[trigger] self.heap@[k].callback_id < counter by {
                    assert(es.contains(self.heap@[k]));
                    let m = choose|m: int| 0 <= m < es.len() && es[m] == self.heap@[k];
                    assert(es[m].callback_id < counter);
                }
            }
        }
        fired
    }

    pub fn pending_count(&self) -> (n: usize)
        ensures
            n == self.entries().len(),
    {
        self.heap.len()
    }
}

/// Register a wake-up of `task_id` at `deadline_tick` in `queue`.
pub fn schedule(queue: &mut DeadlineQueue, task_id: TaskId, deadline_tick: u64, next_callback: &mut u64) -> (id: u64)
    ensures
        id == *old(next_callback),
        *final(next_callback) == (if id == u64::MAX { 0 } else { id + 1 }),
        final(queue).entries() == old(queue).entries().push(DeadlineEntry { deadline_tick, task_id, callback_id: id }),
        queue_wf(old(queue).entries(), id) && id < u64::MAX ==> queue_wf(final(queue).entries(), *final(next_callback)),
{
    queue.schedule(task_id, deadline_tick, next_callback)
}

/// Cancel the wake-up `callback_id` in `queue`.
pub fn cancel(queue: &mut DeadlineQueue, callback_id: u64)
    ensures
        final(queue).entries() == old(queue).entries().filter(|e: DeadlineEntry| e.callback_id != callback_id),
        forall|counter: u64| #[trigger] queue_wf(old(queue).entries(), counter) ==> queue_wf(final(queue).entries(), counter),
{
    queue.cancel(callback_id);
}

/// Timer interrupt hook: fire the deadlines due at `current_tick`.
pub fn tick(queue: &mut DeadlineQueue, current_tick: u64, sched: &mut Scheduler)
    ensures
        final(sched).saved_contexts() == old(sched).saved_contexts(),
        final(sched).wf() == old(sched).wf(),
        forall|j: int| 0 <= j < final(queue).entries().len() ==> #[trigger] final(queue).entries()[j].deadline_tick > current_tick,
        exists|popped: Seq<DeadlineEntry>| {
            &&& old(queue).entries().to_multiset() == final(queue).entries().to_multiset().add(popped.to_multiset())
            &&& forall|a: int, b: int| 0 <= a < b < popped.len() ==> popped[a].deadline_tick <= popped[b].deadline_tick
            &&& forall|a: int| 0 <= a < popped.len() ==> #[trigger] popped[a].deadline_tick <= current_tick
            &&& final(sched).view() == spec_unblock_all(old(sched).view(), tasks_of(popped))
        },
        forall|counter: u64| #[trigger] queue_wf(old(queue).entries(), counter) ==> queue_wf(final(queue).entries(), counter),
{
    let _ = queue.check_expired(current_tick, sched);
}

} // verus!
