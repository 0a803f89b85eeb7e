use vstd::prelude::*;
use std::collections::VecDeque;
use super::{Task, TaskId, TaskState, Priority, priority_index};
use super::context::CpuContext;

verus! {

/// Number of slots of the context table; task ids must stay below it.
pub const MAX_TASKS: usize = 64;

/// Turns of a scheduling round: four prefer the realtime queue, two the normal queue and
/// one the background queue, so every level gets a share of the CPU.
pub const ROUND_TURNS: u8 = 7;

/// Mathematical model of the scheduler: three ready queues (realtime, normal, background),
/// the running task, the blocked tasks and the turn within the round.
pub struct SchedView {
    pub queues: Seq<Seq<Task>>,
    pub current: Option<Task>,
    pub blocked: Seq<Task>,
    pub turn: nat,
}

/// The ready queue that turn `turn` of the round prefers.
pub open spec fn preferred(turn: nat) -> int {
    if turn < 4 {
        0
    } else if turn < 6 {
        1
    } else {
        2
    }
}

/// `t` with its state replaced by `s`.
pub open spec fn with_state(t: Task, s: TaskState) -> Task {
    Task { state: s, ..t }
}

/// Take the first task of the highest non-empty ready queue and mark it running.
pub open spec fn spec_pick_highest(v: SchedView) -> (Option<Task>, SchedView) {
    if v.queues[0].len() > 0 {
        (
            Some(with_state(v.queues[0][0], TaskState::Running)),
            SchedView { queues: v.queues.update(0, v.queues[0].drop_first()), ..v },
        )
    } else if v.queues[1].len() > 0 {
        (
            Some(with_state(v.queues[1][0], TaskState::Running)),
            SchedView { queues: v.queues.update(1, v.queues[1].drop_first()), ..v },
        )
    } else if v.queues[2].len() > 0 {
        (
            Some(with_state(v.queues[2][0], TaskState::Running)),
            SchedView { queues: v.queues.update(2, v.queues[2].drop_first()), ..v },
        )
    } else {
        (None, v)
    }
}

/// Take the first task of the queue the turn prefers, or, when that queue is empty, of the
/// highest non-empty one, and mark it running.
pub open spec fn spec_pick(v: SchedView) -> (Option<Task>, SchedView) {
    let p = preferred(v.turn);
    if v.queues[p].len() > 0 {
        (
            Some(with_state(v.queues[p][0], TaskState::Running)),
            SchedView { queues: v.queues.update(p, v.queues[p].drop_first()), ..v },
        )
    } else {
        spec_pick_highest(v)
    }
}

/// Put the current task back: a running one at the back of its ready queue (as ready), a
/// blocked one on the blocked list; any other current task is dropped.
pub open spec fn spec_requeue(v: SchedView) -> SchedView {
    match v.current {
        Some(c) => if c.state == TaskState::Running {
            let p = priority_index(c.priority);
            SchedView {
                queues: v.queues.update(p, v.queues[p].push(with_state(c, TaskState::Ready))),
                current: None,
                blocked: v.blocked,
                turn: v.turn,
            }
        } else if c.state == TaskState::Blocked {
            SchedView { queues: v.queues, current: None, blocked: v.blocked.push(c), turn: v.turn }
        } else {
            SchedView { queues: v.queues, current: None, blocked: v.blocked, turn: v.turn }
        },
        None => v,
    }
}

/// One scheduling decision: requeue the current task, pick the next one, and move to the
/// next turn of the round.
pub open spec fn spec_schedule(v: SchedView) -> SchedView {
    let r = spec_requeue(v);
    let (next, rest) = spec_pick(r);
    SchedView { current: next, turn: (v.turn + 1) % (ROUND_TURNS as nat), ..rest }
}

/// The first blocked task with id `id` (if any) is back at the end of its ready queue.
#[verifier::opaque]
pub open spec fn spec_unblock(v: SchedView, id: TaskId) -> SchedView {
    if exists|k: int| 0 <= k < v.blocked.len() && v.blocked[k].id == id {
        let k = choose|k: int|
            {
                &&& 0 <= k < v.blocked.len()
                &&& v.blocked[k].id == id
                &&& forall|j: int| 0 <= j < k ==> v.blocked[j].id != id
            };
        let t = with_state(v.blocked[k], TaskState::Ready);
        let p = priority_index(t.priority);
        SchedView {
            queues: v.queues.update(p, v.queues[p].push(t)),
            current: v.current,
            blocked: v.blocked.remove(k),
            turn: v.turn,
        }
    } else {
        v
    }
}

/// Unblock each id of `ids` in turn, first to last.
pub open spec fn spec_unblock_all(v: SchedView, ids: Seq<TaskId>) -> SchedView
    decreases ids.len(),
{
    if ids.len() == 0 {
        v
    } else {
        spec_unblock(spec_unblock_all(v, ids.drop_last()), ids.last())
    }
}

proof fn lemma_first_blocked(v: SchedView, id: TaskId, k: int)
    requires
        0 <= k < v.blocked.len(),
        v.blocked[k].id == id,
        forall|j: int| 0 <= j < k ==> v.blocked[j].id != id,
    ensures
        ({
            let t = with_state(v.blocked[k], TaskState::Ready);
            let p = priority_index(t.priority);
            spec_unblock(v, id) == (SchedView {
                queues: v.queues.update(p, v.queues[p].push(t)),
                current: v.current,
                blocked: v.blocked.remove(k),
                turn: v.turn,
            })
        }),
{
    reveal(spec_unblock);
    let k2 = choose|k: int|
        {
            &&& 0 <= k < v.blocked.len()
            &&& v.blocked[k].id == id
            &&& forall|j: int| 0 <= j < k ==> v.blocked[j].id != id
        };
    assert(k2 == k) by {
        if k2 < k {
            assert(v.blocked[k2].id != id);
        }
        if k < k2 {
            assert(v.blocked[k].id != id);
        }
    }
}

/// Number of tasks the scheduler holds.
pub open spec fn spec_task_count(v: SchedView) -> int {
    v.queues[0].len() + v.queues[1].len() + v.queues[2].len() + v.blocked.len() + if v.current is Some {
        1int
    } else {
        0int
    }
}

/// Three-level priority scheduler. Saved contexts live in a fixed table indexed by task id.
pub struct Scheduler {
    realtime: VecDeque<Task>,
    normal: VecDeque<Task>,
    background: VecDeque<Task>,
    current: Option<Task>,
    blocked: Vec<Task>,
    contexts: Vec<CpuContext>,
    turn: u8,
}

impl Scheduler {
    pub closed spec fn view(&self) -> SchedView {
        SchedView {
            queues: seq![self.realtime@, self.normal@, self.background@],
            current: self.current,
            blocked: self.blocked@,
            turn: self.turn as nat,
        }
    }

    /// The saved contexts, indexed by task id.
    pub closed spec fn saved_contexts(&self) -> Seq<CpuContext> {
        self.contexts@
    }

    pub closed spec fn wf(&self) -> bool {
        &&& self.contexts@.len() == MAX_TASKS
        &&& self.turn < ROUND_TURNS
    }

    /// What well-formedness gives of the view: three ready queues and a turn of the round.
    pub proof fn lemma_view_wf(&self)
        requires
            self.wf(),
        ensures
            self.view().queues.len() == 3,
            self.view().turn < ROUND_TURNS,
    {
    }

    pub fn new() -> (s: Self)
        ensures
            s.wf(),
            s.view().queues == seq![Seq::<Task>::empty(), Seq::<Task>::empty(), Seq::<Task>::empty()],
            s.view().current is None,
            s.view().blocked == Seq::<Task>::empty(),
            s.view().turn == 0,
            forall|i: int| 0 <= i < MAX_TASKS ==> s.saved_contexts()[i] == CpuContext::empty_spec(),
    {
        let mut contexts: Vec<CpuContext> = Vec::new();
        let mut i: usize = 0;
        while i < MAX_TASKS
            invariant
                i <= MAX_TASKS,
                contexts@.len() == i,
                forall|j: int| 0 <= j < i ==> contexts@[j] == CpuContext::empty_spec(),
            decreases MAX_TASKS - i,
        {
            contexts.push(CpuContext::empty());
            i = i + 1;
        }
        let s = Scheduler {
            realtime: VecDeque::new(),
            normal: VecDeque::new(),
            background: VecDeque::new(),
            current: None,
            blocked: Vec::new(),
            contexts,
            turn: 0,
        };
        assert(s.view().queues =~= seq![Seq::<Task>::empty(), Seq::<Task>::empty(), Seq::<Task>::empty()]);
        s
    }

    fn push_ready(&mut self, task: Task)
        ensures
            final(self).view() == (SchedView {
                queues: old(self).view().queues.update(
                    priority_index(task.priority),
                    old(self).view().queues[priority_index(task.priority)].push(task),
                ),
                ..old(self).view()
            }),
            final(self).contexts == old(self).contexts,
    {
        match task.priority {
            Priority::Realtime => self.realtime.push_back(task),
            Priority::Normal => self.normal.push_back(task),
            Priority::Background => self.background.push_back(task),
        }
        assert(self.view().queues =~= old(self).view().queues.update(
            priority_index(task.priority),
            old(self).view().queues[priority_index(task.priority)].push(task),
        ));
    }

    /// Add a task to the back of its ready queue and record its initial context.
    pub fn spawn(&mut self, task: Task)
        requires
            old(self).wf(),
            task.id < MAX_TASKS,
        ensures
            final(self).wf(),
            final(self).view() == (SchedView {
                queues: old(self).view().queues.update(
                    priority_index(task.priority),
                    old(self).view().queues[priority_index(task.priority)].push(task),
                ),
                ..old(self).view()
            }),
            final(self).saved_contexts() == old(self).saved_contexts().update(task.id as int, task.context),
    {
        let id = task.id as usize;
        self.contexts.set(id, task.context);
        self.push_ready(task);
    }

    /// Take the first task of the highest non-empty ready queue, marked running.
    fn pick_highest(&mut self) -> (r: Option<Task>)
        ensures
            (r, final(self).view()) == spec_pick_highest(old(self).view()),
            final(self).contexts == old(self).contexts,
            final(self).turn == old(self).turn,
    {
        if let Some(mut task) = self.realtime.pop_front() {
            task.state = TaskState::Running;
            assert(self.view().queues =~= old(self).view().queues.update(0, old(self).view().queues[0].drop_first()));
            return Some(task);
        }
        if let Some(mut task) = self.normal.pop_front() {
            task.state = TaskState::Running;
            assert(self.view().queues =~= old(self).view().queues.update(1, old(self).view().queues[1].drop_first()));
            return Some(task);
        }
        if let Some(mut task) = self.background.pop_front() {
            task.state = TaskState::Running;
            assert(self.view().queues =~= old(self).view().queues.update(2, old(self).view().queues[2].drop_first()));
            return Some(task);
        }
        None
    }

    /// Take the first task of the queue the turn prefers, else of the highest non-empty one.
    fn pick_next(&mut self) -> (r: Option<Task>)
        ensures
            (r, final(self).view()) == spec_pick(old(self).view()),
            final(self).contexts == old(self).contexts,
            final(self).turn == old(self).turn,
    {
        let preferred_task = if self.turn < 4 {
            self.realtime.pop_front()
        } else if self.turn < 6 {
            self.normal.pop_front()
        } else {
            self.background.pop_front()
        };
        match preferred_task {
            Some(mut task) => {
                task.state = TaskState::Running;
                let ghost p = preferred(old(self).view().turn);
                assert(self.view().queues =~= old(self).view().queues.update(p, old(self).view().queues[p].drop_first()));
                Some(task)
            },
            None => {
                assert(self.view() == old(self).view());
                self.pick_highest()
            },
        }
    }

    /// Requeue the current task (see [`spec_requeue`]) and make the next ready task current.
    pub fn schedule(&mut self)
        requires
            old(self).wf(),
        ensures
            final(self).wf(),
            final(self).view() == spec_schedule(old(self).view()),
            final(self).saved_contexts() == old(self).saved_contexts(),
    {
        if let Some(mut current) = self.current.take() {
            if current.state == TaskState::Running {
                current.state = TaskState::Ready;
                self.push_ready(current);
            } else if current.state == TaskState::Blocked {
                self.blocked.push(current);
            }
        }
        assert(self.view() == spec_requeue(old(self).view()));
        let next = self.pick_next();
        self.current = next;
        self.turn = if self.turn + 1 == ROUND_TURNS { 0 } else { self.turn + 1 };
    }

    /// The running task's id, or 0 when idle.
    pub fn current_id(&self) -> (r: usize)
        ensures
            r == match self.view().current {
                Some(t) => t.id as usize,
                None => 0,
            },
    {
        match &self.current {
            Some(t) => t.id as usize,
            None => 0,
        }
    }

    /// Mark the running task blocked; it moves to the blocked list at the next `schedule`.
    pub fn block_current(&mut self) -> (r: Option<TaskId>)
        ensures
            final(self).saved_contexts() == old(self).saved_contexts(),
            final(self).wf() == old(self).wf(),
            match old(self).view().current {
                Some(t) => {
                    &&& r == Some(t.id)
                    &&& final(self).view() == (SchedView { current: Some(with_state(t, TaskState::Blocked)), ..old(self).view() })
                },
                None => r is None && final(self).view() == old(self).view(),
            },
    {
        match self.current.take() {
            Some(mut task) => {
                task.state = TaskState::Blocked;
                let id = task.id;
                self.current = Some(task);
                Some(id)
            },
            None => None,
        }
    }

    /// Move the first blocked task with id `task_id` to the back of its ready queue.
    pub fn unblock(&mut self, task_id: TaskId) -> (r: bool)
        ensures
            final(self).saved_contexts() == old(self).saved_contexts(),
            final(self).wf() == old(self).wf(),
            r == exists|k: int| 0 <= k < old(self).view().blocked.len() && old(self).view().blocked[k].id == task_id,
            final(self).view() == spec_unblock(old(self).view(), task_id),
    {
        let mut i: usize = 0;
        while i < self.blocked.len()
            invariant
                *self == *old(self),
                i <= self.blocked@.len(),
                forall|j: int| 0 <= j < i ==> self.blocked@[j].id != task_id,
            decreases self.blocked@.len() - i,
        {
            if self.blocked[i].id == task_id {
                let mut task = self.blocked.remove(i);
                task.state = TaskState::Ready;
                self.push_ready(task);
                proof {
                    lemma_first_blocked(old(self).view(), task_id, i as int);
                }
                return true;
            }
            i = i + 1;
        }
        proof {
            reveal(spec_unblock);
        }
        false
    }

    /// Drop the running task, returning its id.
    pub fn kill_current(&mut self) -> (r: Option<TaskId>)
        ensures
            final(self).saved_contexts() == old(self).saved_contexts(),
            final(self).wf() == old(self).wf(),
            r == match old(self).view().current {
                Some(t) => Some(t.id),
                None => None::<TaskId>,
            },
            final(self).view() == (SchedView { current: None, ..old(self).view() }),
    {
        match self.current.take() {
            Some(task) => Some(task.id),
            None => None,
        }
    }

    pub fn current_task(&self) -> (r: Option<&Task>)
        ensures
            match (r, self.view().current) {
                (Some(a), Some(b)) => *a == b,
                (None, None) => true,
                _ => false,
            },
    {
        self.current.as_ref()
    }

    /// Number of tasks queued, blocked or running.
    pub fn task_count(&self) -> (n: usize)
        requires
            spec_task_count(self.view()) <= usize::MAX,
        ensures
            n == spec_task_count(self.view()),
    {
        let running: usize = if self.current.is_some() { 1 } else { 0 };
        self.realtime.len() + self.normal.len() + self.background.len() + self.blocked.len() + running
    }

    /// Length of the ready queue of `priority`.
    pub fn queue_len(&self, priority: Priority) -> (n: usize)
        ensures
            n == self.view().queues[priority_index(priority)].len(),
    {
        match priority {
            Priority::Realtime => self.realtime.len(),
            Priority::Normal => self.normal.len(),
            Priority::Background => self.background.len(),
        }
    }

    /// Number of blocked tasks.
    pub fn blocked_len(&self) -> (n: usize)
        ensures
            n == self.view().blocked.len(),
    {
        self.blocked.len()
    }

    /// The saved context of task slot `id`.
    pub fn context_of(&self, id: usize) -> (c: CpuContext)
        requires
            self.wf(),
            id < MAX_TASKS,
        ensures
            c == self.saved_contexts()[id as int],
    {
        self.contexts[id]
    }

    /// Record the saved context of task slot `id` after a switch away from it.
    pub fn save_context(&mut self, id: usize, ctx: CpuContext)
        requires
            old(self).wf(),
            id < MAX_TASKS,
        ensures
            final(self).wf(),
            final(self).view() == old(self).view(),
            final(self).saved_contexts() == old(self).saved_contexts().update(id as int, ctx),
    {
        self.contexts.set(id, ctx);
    }
}

/// Timer preemption decision: reschedule and report `(old_id, new_id)` when a different,
/// non-idle task must be switched to.
pub fn timer_tick(sched: &mut Scheduler) -> (r: Option<(usize, usize)>)
    requires
        old(sched).wf(),
    ensures
        final(sched).wf(),
        final(sched).view() == spec_schedule(old(sched).view()),
        final(sched).saved_contexts() == old(sched).saved_contexts(),
        ({
            let old_id: usize = match old(sched).view().current {
                Some(t) => t.id as usize,
                None => 0,
            };
            let new_id: usize = match final(sched).view().current {
                Some(t) => t.id as usize,
                None => 0,
            };
            r == if old_id == new_id || new_id == 0 {
                None
            } else {
                Some((old_id, new_id))
            }
        }),
{
    let old_id = sched.current_id();
    sched.schedule();
    let new_id = sched.current_id();
    if old_id == new_id || new_id == 0 {
        return None;
    }
    Some((old_id, new_id))
}

/// Rescheduling never loses a task that is running or blocked: the number of tasks is
/// unchanged unless the current task was marked ready or dead outside the scheduler.
pub proof fn lemma_schedule_conserves_tasks(v: SchedView)
    requires
        v.queues.len() == 3,
        v.current is Some ==> (v.current.unwrap().state == TaskState::Running || v.current.unwrap().state
            == TaskState::Blocked),
    ensures
        spec_task_count(spec_schedule(v)) == spec_task_count(v),
{
}

proof fn lemma_first_exists(b: Seq<Task>, id: TaskId, k0: int)
    requires
        0 <= k0 < b.len(),
        b[k0].id == id,
    ensures
        exists|k: int| 0 <= k < b.len() && b[k].id == id && forall|j: int| 0 <= j < k ==> b[j].id != id,
    decreases k0,
{
    if exists|j: int| 0 <= j < k0 && b[j].id == id {
        let j = choose|j: int| 0 <= j < k0 && b[j].id == id;
        lemma_first_exists(b, id, j);
    } else {
        assert(forall|j: int| 0 <= j < k0 ==> b[j].id != id);
    }
}

proof fn lemma_unblock_count(v: SchedView, id: TaskId)
    requires
        v.queues.len() == 3,
    ensures
        spec_unblock(v, id).queues.len() == 3,
        spec_task_count(spec_unblock(v, id)) == spec_task_count(v),
{
    if exists|k: int| 0 <= k < v.blocked.len() && v.blocked[k].id == id {
        let k0 = choose|k: int| 0 <= k < v.blocked.len() && v.blocked[k].id == id;
        lemma_first_exists(v.blocked, id, k0);
        let k = choose|k: int| 0 <= k < v.blocked.len() && v.blocked[k].id == id && forall|j: int|
            0 <= j < k ==> v.blocked[j].id != id;
        lemma_first_blocked(v, id, k);
        let t = with_state(v.blocked[k], TaskState::Ready);
        let p = priority_index(t.priority);
        let u = spec_unblock(v, id);
        assert(u.blocked.len() == v.blocked.len() - 1);
        assert(u.queues[p].len() == v.queues[p].len() + 1);
        if p == 0 {
            assert(u.queues[1] == v.queues[1] && u.queues[2] == v.queues[2]);
        } else if p == 1 {
            assert(u.queues[0] == v.queues[0] && u.queues[2] == v.queues[2]);
        } else {
            assert(u.queues[0] == v.queues[0] && u.queues[1] == v.queues[1]);
        }
    } else {
        reveal(spec_unblock);
    }
}

/// No task is lost or made up by blocking the running task, by waking blocked tasks one
/// after another, or by rescheduling a running or blocked task: the task count is kept.
pub proof fn lemma_task_count_kept(v: SchedView, ids: Seq<TaskId>)
    requires
        v.queues.len() == 3,
    ensures
        v.current matches Some(t) ==> spec_task_count(
            SchedView { current: Some(with_state(t, TaskState::Blocked)), ..v },
        ) == spec_task_count(v),
        spec_unblock_all(v, ids).queues.len() == 3,
        spec_task_count(spec_unblock_all(v, ids)) == spec_task_count(v),
    decreases ids.len(),
{
    if ids.len() > 0 {
        lemma_task_count_kept(v, ids.drop_last());
        lemma_unblock_count(spec_unblock_all(v, ids.drop_last()), ids.last());
    }
}

/// The pick rule: a turn takes the oldest task of the queue it prefers when that queue
/// holds one, and otherwise the oldest task of the highest non-empty queue; only the queue
/// taken from shrinks.
pub proof fn lemma_pick_respects_priority(v: SchedView, p: int)
    requires
        v.queues.len() == 3,
        0 <= p < 3,
        v.queues[p].len() > 0,
        p == preferred(v.turn) || (v.queues[preferred(v.turn)].len() == 0 && forall|q: int|
            0 <= q < p ==> v.queues[q].len() == 0),
    ensures
        spec_pick(v).0 == Some(with_state(v.queues[p][0], TaskState::Running)),
        spec_pick(v).1.queues == v.queues.update(p, v.queues[p].drop_first()),
{
    if p != preferred(v.turn) {
        if p == 1 {
            assert(v.queues[0].len() == 0);
        }
        if p == 2 {
            assert(v.queues[0].len() == 0);
            assert(v.queues[1].len() == 0);
        }
    }
}

/// `n` scheduling decisions in a row.
pub open spec fn schedule_n(v: SchedView, n: nat) -> SchedView
    decreases n,
{
    if n == 0 {
        v
    } else {
        schedule_n(spec_schedule(v), (n - 1) as nat)
    }
}

/// Turns until the round next prefers queue `q`, from turn `turn`.
pub open spec fn turns_until(turn: nat, q: int) -> nat {
    if q == 0 {
        if turn < 4 { 0 } else { (7 - turn) as nat }
    } else if q == 1 {
        if turn < 4 { (4 - turn) as nat } else if turn < 6 { 0 } else { 5 }
    } else {
        (6 - turn) as nat
    }
}

proof fn lemma_turns_until(turn: nat, q: int)
    requires
        turn < 7,
        0 <= q < 3,
    ensures
        turns_until(turn, q) <= 6,
        (turns_until(turn, q) == 0) == (preferred(turn) == q),
        preferred(turn) != q ==> turns_until((turn + 1) % 7, q) + 1 == turns_until(turn, q),
{
}

proof fn lemma_schedule_n_step(v: SchedView, n: nat)
    ensures
        schedule_n(v, n + 1) == schedule_n(spec_schedule(v), n),
{
    assert((n + 1) as nat - 1 == n);
}

proof fn lemma_waits_bounded(v: SchedView, q: int, k: int)
    requires
        v.queues.len() == 3,
        v.turn < 7,
        0 <= q < 3,
        0 <= k < v.queues[q].len(),
    ensures
        exists|i: nat| {
            &&& 1 <= i <= turns_until(v.turn, q) + 7 * k + 1
            &&& #[trigger] schedule_n(v, i).current matches Some(t) && t.id == v.queues[q][k].id
        },
    decreases 7 * k + turns_until(v.turn, q),
{
    lemma_turns_until(v.turn, q);
    let id = v.queues[q][k].id;
    let r = spec_requeue(v);
    assert(r.queues.len() == 3 && r.turn == v.turn);
    assert(r.queues[q].len() >= v.queues[q].len() && r.queues[q][k] == v.queues[q][k]);
    let v1 = spec_schedule(v);
    let p = preferred(v.turn);
    lemma_schedule_n_step(v, 0);
    assert(schedule_n(v1, 0) == v1);
    assert(v1.turn == (v.turn + 1) % 7);
    assert(v1.queues.len() == 3);
    // The queue the pick takes from.
    let h: int = if r.queues[p].len() > 0 {
        p
    } else if r.queues[0].len() > 0 {
        0
    } else if r.queues[1].len() > 0 {
        1
    } else {
        2
    };
    assert(r.queues[h].len() > 0) by {
        assert(r.queues[q].len() > 0);
    }
    assert(v1.current == Some(with_state(r.queues[h][0], TaskState::Running)));
    assert(v1.queues == r.queues.update(h, r.queues[h].drop_first()));
    if h == q {
        if k == 0 {
            assert(schedule_n(v, 1).current matches Some(t) && t.id == id);
        } else {
            assert(v1.queues[q][k - 1] == v.queues[q][k]);
            lemma_turns_until(v1.turn, q);
            lemma_waits_bounded(v1, q, k - 1);
            let i1 = choose|i: nat| {
                &&& 1 <= i <= turns_until(v1.turn, q) + 7 * (k - 1) + 1
                &&& #[trigger] schedule_n(v1, i).current matches Some(t) && t.id == v1.queues[q][k - 1].id
            };
            lemma_schedule_n_step(v, i1);
            assert(schedule_n(v, i1 + 1).current matches Some(t) && t.id == id);
        }
    } else {
        assert(v1.queues[q] == r.queues[q]);
        assert(p != q);
        assert(turns_until(v1.turn, q) + 1 == turns_until(v.turn, q));
        lemma_waits_bounded(v1, q, k);
        let i1 = choose|i: nat| {
            &&& 1 <= i <= turns_until(v1.turn, q) + 7 * k + 1
            &&& #[trigger] schedule_n(v1, i).current matches Some(t) && t.id == v1.queues[q][k].id
        };
        lemma_schedule_n_step(v, i1);
        assert(schedule_n(v, i1 + 1).current matches Some(t) && t.id == id);
    }
}

/// Fairness: a ready task at position `k` of any ready queue becomes the running task
/// within `7 * (k + 1)` scheduling decisions, whatever its priority.
pub proof fn lemma_every_ready_task_runs(v: SchedView, q: int, k: int)
    requires
        v.queues.len() == 3,
        v.turn < ROUND_TURNS,
        0 <= q < 3,
        0 <= k < v.queues[q].len(),
    ensures
        exists|i: nat| {
            &&& 1 <= i <= 7 * (k + 1)
            &&& #[trigger] schedule_n(v, i).current matches Some(t) && t.id == v.queues[q][k].id
        },
{
    lemma_turns_until(v.turn, q);
    lemma_waits_bounded(v, q, k);
}

} // verus!
