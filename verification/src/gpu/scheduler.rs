use vstd::prelude::*;
use crate::agent::AgentId;
use crate::capability::CapId;
use crate::capability::permissions::{PermissionBits, EXECUTE_BIT};
use crate::capability::table::{CapabilityTable, validate_result};

verus! {

#[derive(Debug, Clone, Copy, PartialEq, Eq, Structural)]
pub enum InferenceStatus {
    Queued,
    Running,
    Completed,
    Failed,
}

/// Urgency of an inference request; `Urgent` is served first.
#[derive(Debug, Clone, Copy, PartialEq, Eq, Structural)]
pub enum InferencePriority {
    Urgent,
    Normal,
    Batch,
}

/// Rank of a priority: 0 for `Urgent`, 1 for `Normal`, 2 for `Batch`.
pub open spec fn priority_rank(p: InferencePriority) -> int {
    match p {
        InferencePriority::Urgent => 0,
        InferencePriority::Normal => 1,
        InferencePriority::Batch => 2,
    }
}

impl InferencePriority {
    pub fn rank(self) -> (r: u8)
        ensures
            r == priority_rank(self),
    {
        match self {
            InferencePriority::Urgent => 0,
            InferencePriority::Normal => 1,
            InferencePriority::Batch => 2,
        }
    }
}

pub type RequestId = u64;

#[derive(Debug)]
pub struct InferenceRequest {
    pub id: RequestId,
    pub agent_id: AgentId,
    pub model_id: String,
    pub priority: InferencePriority,
    pub deadline_tick: Option<u64>,
    pub submitted_tick: u64,
}

impl Clone for InferenceRequest {
    fn clone(&self) -> (r: Self)
        ensures
            r == *self,
    {
        InferenceRequest {
            id: self.id,
            agent_id: self.agent_id,
            model_id: self.model_id.clone(),
            priority: self.priority,
            deadline_tick: self.deadline_tick,
            submitted_tick: self.submitted_tick,
        }
    }
}

/// `a` is served strictly before `b`: higher priority first; within a priority a request
/// with a deadline before one without and earlier deadlines first; between requests with
/// the same deadline, or both without one, the earlier submission first.
pub open spec fn served_before(a: InferenceRequest, b: InferenceRequest) -> bool {
    if priority_rank(a.priority) != priority_rank(b.priority) {
        priority_rank(a.priority) < priority_rank(b.priority)
    } else {
        match (a.deadline_tick, b.deadline_tick) {
            (Some(x), Some(y)) => x < y || (x == y && a.submitted_tick < b.submitted_tick),
            (Some(_), None) => true,
            (None, Some(_)) => false,
            (None, None) => a.submitted_tick < b.submitted_tick,
        }
    }
}

/// `served_before(a, b)`, computed.
pub fn is_served_before(a: &InferenceRequest, b: &InferenceRequest) -> (r: bool)
    ensures
        r == served_before(*a, *b),
{
    let pa = a.priority.rank();
    let pb = b.priority.rank();
    if pa != pb {
        return pa < pb;
    }
    match (a.deadline_tick, b.deadline_tick) {
        (Some(x), Some(y)) => x < y || (x == y && a.submitted_tick < b.submitted_tick),
        (Some(_), None) => true,
        (None, Some(_)) => false,
        (None, None) => a.submitted_tick < b.submitted_tick,
    }
}

/// The request has a deadline that has passed at `now`.
pub open spec fn expired_at(r: InferenceRequest, now: u64) -> bool {
    match r.deadline_tick {
        Some(d) => now > d,
        None => false,
    }
}

/// Inference queue served in [`served_before`] order, with the request being served and
/// completion counters.
pub struct GpuScheduler {
    queue: Vec<InferenceRequest>,
    current: Option<InferenceRequest>,
    total_completed: u64,
    total_failed: u64,
}

impl GpuScheduler {
    /// The queued requests (their order carries no meaning).
    pub closed spec fn queued(&self) -> Seq<InferenceRequest> {
        self.queue@
    }

    pub closed spec fn serving(&self) -> Option<InferenceRequest> {
        self.current
    }

    pub closed spec fn completed(&self) -> u64 {
        self.total_completed
    }

    pub closed spec fn failed(&self) -> u64 {
        self.total_failed
    }

    pub fn new() -> (g: Self)
        ensures
            g.queued() == Seq::<InferenceRequest>::empty(),
            g.serving() is None,
            g.completed() == 0,
            g.failed() == 0,
    {
        GpuScheduler { queue: Vec::new(), current: None, total_completed: 0, total_failed: 0 }
    }

    /// Queue a request submitted at `now`, with the id taken from `next_id` (which wraps).
    pub fn submit(
        &mut self,
        agent_id: AgentId,
        model_id: String,
        priority: InferencePriority,
        deadline_tick: Option<u64>,
        now: u64,
        next_id: &mut u64,
    ) -> (id: RequestId)
        ensures
            id == *old(next_id),
            *final(next_id) == (if id == u64::MAX { 0 } else { id + 1 }),
            final(self).queued() == old(self).queued().push(
                InferenceRequest { id, agent_id, model_id, priority, deadline_tick, submitted_tick: now },
            ),
            final(self).serving() == old(self).serving(),
            final(self).completed() == old(self).completed(),
            final(self).failed() == old(self).failed(),
    {
        let id = *next_id;
        *next_id = next_id.wrapping_add(1);
        self.queue.push(InferenceRequest { id, agent_id, model_id, priority, deadline_tick, submitted_tick: now });
        id
    }

    /// Take the request to serve next (one that no queued request is served before) and
    /// make it the current one.
    pub fn dequeue(&mut self) -> (r: Option<InferenceRequest>)
        ensures
            final(self).completed() == old(self).completed(),
            final(self).failed() == old(self).failed(),
            old(self).queued().len() == 0 ==> r is None && *final(self) == *old(self),
            old(self).queued().len() > 0 ==> exists|k: int| {
                &&& 0 <= k < old(self).queued().len()
                &&& forall|j: int| 0 <= j < old(self).queued().len() ==> !served_before(#[trigger] old(self).queued()[j], old(self).queued()[k])
                &&& forall|j: int| 0 <= j < old(self).queued().len() ==> priority_rank(old(self).queued()[k].priority)
                    <= priority_rank(#[trigger] old(self).queued()[j].priority)
                &&& forall|j: int| 0 <= j < old(self).queued().len() && priority_rank(#[trigger] old(self).queued()[j].priority)
                    == priority_rank(old(self).queued()[k].priority) && old(self).queued()[j].deadline_tick is Some
                    ==> old(self).queued()[k].deadline_tick is Some && old(self).queued()[k].deadline_tick.unwrap()
                        <= old(self).queued()[j].deadline_tick.unwrap()
                &&& r == Some(old(self).queued()[k])
                &&& final(self).serving() == Some(old(self).queued()[k])
                &&& final(self).queued() == old(self).queued().remove(k)
            },
    {
        if self.queue.len() == 0 {
            return None;
        }
        let mut best: usize = 0;
        let mut i: usize = 1;
        while i < self.queue.len()
            invariant
                *self == *old(self),
                1 <= i <= self.queue@.len(),
                best < i,
                forall|j: int| 0 <= j < i ==> !served_before(#[trigger] self.queue@[j], self.queue@[best as int]),
            decreases self.queue@.len() - i,
        {
            if is_served_before(&self.queue[i], &self.queue[best]) {
                proof {
                    assert forall|j: int| 0 <= j < i + 1 implies !served_before(#[trigger] self.queue@[j], self.queue@[i as int]) by {
                        lemma_served_before_order(self.queue@[j], self.queue@[best as int], self.queue@[i as int]);
                    }
                }
                best = i;
            }
            i = i + 1;
        }
        proof {
            let q = self.queue@;
            assert forall|j: int| 0 <= j < q.len() implies priority_rank(q[best as int].priority)
                <= priority_rank(#[trigger] q[j].priority) by {
                lemma_served_before_ranks(q[j], q[best as int]);
            }
            assert forall|j: int| 0 <= j < q.len() && priority_rank(#[trigger] q[j].priority)
                == priority_rank(q[best as int].priority) && q[j].deadline_tick is Some
                implies q[best as int].deadline_tick is Some && q[best as int].deadline_tick.unwrap()
                <= q[j].deadline_tick.unwrap() by {
                lemma_served_before_ranks(q[j], q[best as int]);
            }
        }
        let req = self.queue.remove(best);
        self.current = Some(req.clone());
        Some(req)
    }

    /// Count the current request as completed, if there is one.
    pub fn complete_current(&mut self)
        requires
            old(self).serving() is Some ==> old(self).completed() < u64::MAX,
        ensures
            final(self).serving() is None,
            final(self).queued() == old(self).queued(),
            final(self).failed() == old(self).failed(),
            final(self).completed() == old(self).completed() + if old(self).serving() is Some { 1int } else { 0int },
    {
        if self.current.take().is_some() {
            self.total_completed = self.total_completed + 1;
        }
    }

    /// Count the current request as failed, if there is one.
    pub fn fail_current(&mut self)
        requires
            old(self).serving() is Some ==> old(self).failed() < u64::MAX,
        ensures
            final(self).serving() is None,
            final(self).queued() == old(self).queued(),
            final(self).completed() == old(self).completed(),
            final(self).failed() == old(self).failed() + if old(self).serving() is Some { 1int } else { 0int },
    {
        if self.current.take().is_some() {
            self.total_failed = self.total_failed + 1;
        }
    }

    /// Drop the queued requests whose deadline has passed at `current_tick`, count them as
    /// failed and return how many there were.
    pub fn expire_deadlines(&mut self, current_tick: u64) -> (n: usize)
        requires
            old(self).failed() + old(self).queued().len() <= u64::MAX,
        ensures
            final(self).queued() == old(self).queued().filter(|r: InferenceRequest| !expired_at(r, current_tick)),
            n == old(self).queued().len() - final(self).queued().len(),
            final(self).failed() == old(self).failed() + n,
            final(self).serving() == old(self).serving(),
            final(self).completed() == old(self).completed(),
    {
        let ghost pred = |r: InferenceRequest| !expired_at(r, current_tick);
        let ghost q0 = self.queue@;
        let mut kept: Vec<InferenceRequest> = Vec::new();
        let mut expired: usize = 0;
        let mut old_queue: Vec<InferenceRequest> = Vec::new();
        std::mem::swap(&mut old_queue, &mut self.queue);
        let mut i: usize = 0;
        while i < old_queue.len()
            invariant
                old_queue@ == q0,
                pred == (|r: InferenceRequest| !expired_at(r, current_tick)),
                i <= q0.len(),
                kept@ == q0.take(i as int).filter(pred),
                expired + kept@.len() == i,
            decreases q0.len() - i,
        {
            let r = &old_queue[i];
            let is_expired = match r.deadline_tick {
                Some(d) => current_tick > d,
                None => false,
            };
            proof {
                assert(q0.take(i + 1) =~= q0.take(i as int).push(q0[i as int]));
                q0.take(i as int).lemma_filter_push(q0[i as int], pred);
                assert(is_expired == expired_at(q0[i as int], current_tick));
                assert(pred(q0[i as int]) == !is_expired);
            }
            if is_expired {
                expired = expired + 1;
            } else {
                kept.push(r.clone());
            }
            i = i + 1;
        }
        assert(q0.take(i as int) =~= q0);
        self.queue = kept;
        self.total_failed = self.total_failed + expired as u64;
        expired
    }

    pub fn queue_length(&self) -> (n: usize)
        ensures
            n == self.queued().len(),
    {
        self.queue.len()
    }

    /// `(completed, failed, queued)`.
    pub fn stats(&self) -> (r: (u64, u64, usize))
        ensures
            r == (self.completed(), self.failed(), self.queued().len() as usize),
    {
        (self.total_completed, self.total_failed, self.queue.len())
    }
}

/// The serving order is a strict order: irreflexive and transitive.
pub proof fn lemma_served_before_order(a: InferenceRequest, b: InferenceRequest, c: InferenceRequest)
    ensures
        !served_before(a, a),
        served_before(a, b) && served_before(b, c) ==> served_before(a, c),
        served_before(a, b) ==> !served_before(b, a),
{
}

/// How the serving order ranks two requests: a more urgent priority goes first; within a
/// priority a request with a deadline goes before one without, and of two deadlines the
/// numerically earlier one goes first; only equal deadlines (or none at all) fall back to
/// submission order.
pub proof fn lemma_served_before_ranks(a: InferenceRequest, b: InferenceRequest)
    ensures
        priority_rank(a.priority) < priority_rank(b.priority) ==> served_before(a, b),
        priority_rank(a.priority) == priority_rank(b.priority) && a.deadline_tick is Some
            && b.deadline_tick is Some && a.deadline_tick.unwrap() < b.deadline_tick.unwrap()
            ==> served_before(a, b),
        priority_rank(a.priority) == priority_rank(b.priority) && a.deadline_tick is Some
            && b.deadline_tick is None ==> served_before(a, b),
        priority_rank(a.priority) == priority_rank(b.priority) && a.deadline_tick == b.deadline_tick
            ==> (served_before(a, b) <==> a.submitted_tick < b.submitted_tick),
{
}

/// Capability-gated submission: the agent must hold EXECUTE on `cap_id`.
pub fn submit_request(
    gpu: &mut GpuScheduler,
    caps: &CapabilityTable,
    agent_id: AgentId,
    model_id: String,
    priority: InferencePriority,
    deadline_tick: Option<u64>,
    cap_id: CapId,
    now: u64,
    next_id: &mut u64,
) -> (r: Result<RequestId, &'static str>)
    requires
        caps.wf(),
    ensures
        validate_result(caps.caps(), cap_id as int, agent_id, EXECUTE_BIT) is Err ==> (r matches Err(m)
            && m@ == "insufficient inference capability"@) && *final(gpu) == *old(gpu) && *final(next_id) == *old(next_id),
        validate_result(caps.caps(), cap_id as int, agent_id, EXECUTE_BIT) is Ok ==> {
            let id = *old(next_id);
            &&& r == Ok::<RequestId, &'static str>(id)
            &&& *final(next_id) == (if id == u64::MAX { 0 } else { id + 1 })
            &&& final(gpu).queued() == old(gpu).queued().push(
                InferenceRequest { id, agent_id, model_id, priority, deadline_tick, submitted_tick: now },
            )
            &&& final(gpu).serving() == old(gpu).serving()
            &&& final(gpu).completed() == old(gpu).completed()
            &&& final(gpu).failed() == old(gpu).failed()
        },
{
    if caps.validate(cap_id, agent_id, PermissionBits::execute()).is_err() {
        let m = "insufficient inference capability";
        proof {
            reveal_strlit("insufficient inference capability");
        }
        return Err(m);
    }
    let id = gpu.submit(agent_id, model_id, priority, deadline_tick, now, next_id);
    Ok(id)
}

} // verus!
