use vstd::prelude::*;
use super::{AgentId, AgentState, AgentConfig, AgentError};
use super::registry::{Agent, AgentRegistry};
use super::supervisor::{notify_child_death, killed};
use super::tree::{reaches, removal_closed, lemma_closed_same_shape, lemma_closed_trans, lemma_closed_detach};
use crate::task::{Task, TaskState, Priority, priority_index, stack_frame, KERNEL_STACK_PAGES, KERNEL_STACK_SIZE, STACK_RUN_FRAMES};
use crate::task::context::CpuContext;
use crate::task::scheduler::{Scheduler, SchedView, MAX_TASKS};
use crate::ipc::message::{Mailboxes, register_mailbox};
use crate::memory::frame_allocator::{BitmapFrameAllocator, frames_free};
use crate::memory::PAGE_SIZE;

verus! {

/// Restarts an agent is allowed before its failures escalate.
pub const DEFAULT_MAX_RESTARTS: u32 = 5;

/// A subset of a finite set with an element removed is smaller.
pub proof fn lemma_smaller(small: Set<AgentId>, big: Set<AgentId>, gone: AgentId)
    requires
        big.finite(),
        small.subset_of(big),
        big.contains(gone),
        !small.contains(gone),
    ensures
        small.len() < big.len(),
{
    vstd::set_lib::lemma_len_subset(small, big.remove(gone));
}

/// Create an agent: a task running `entry` (at normal priority, named after the agent),
/// its mailbox and its registry entry, listed among its parent's children. Refused with
/// `MaxChildren`, changing nothing, when the parent already has its maximum number of
/// children.
pub fn spawn(
    registry: &mut AgentRegistry,
    parent_id: Option<AgentId>,
    config: AgentConfig,
    entry: u64,
    hhdm_offset: u64,
    next_id: &mut u64,
    frames: &mut BitmapFrameAllocator,
    mailboxes: &mut Mailboxes,
    sched: &mut Scheduler,
) -> (r: Result<AgentId, AgentError>)
    requires
        old(registry).wf(),
        old(sched).wf(),
        *old(next_id) < MAX_TASKS,
        forall|k: AgentId| #[trigger] old(registry).agents().contains_key(k) ==> k < *old(next_id),
        old(frames).wf(),
        exists|s: int| frames_free(*old(frames), s, STACK_RUN_FRAMES as int),
        hhdm_offset + old(frames).total() * PAGE_SIZE <= u64::MAX,
    ensures
        final(registry).wf(),
        ({
            let full = match parent_id {
                Some(p) => old(registry).agents().contains_key(p)
                    && old(registry).agents()[p].children@.len() >= old(registry).agents()[p].config.resource_limits.max_children,
                None => false,
            };
            if full {
                &&& r == Err::<AgentId, AgentError>(AgentError::MaxChildren)
                &&& *final(registry) == *old(registry)
                &&& *final(next_id) == *old(next_id)
                &&& *final(frames) == *old(frames)
                &&& *final(mailboxes) == *old(mailboxes)
                &&& *final(sched) == *old(sched)
            } else {
                let id = *old(next_id);
                let agent = Agent {
                    id,
                    config,
                    state: AgentState::Running,
                    parent: parent_id,
                    children: final(registry).agents()[id].children,
                    restart_count: 0,
                    max_restarts: DEFAULT_MAX_RESTARTS,
                };
                &&& r == Ok::<AgentId, AgentError>(id)
                &&& *final(next_id) == id + 1
                &&& final(registry).agents().contains_key(id)
                &&& final(registry).agents()[id] == agent
                &&& agent.children@ == Seq::<AgentId>::empty()
                &&& final(registry).names() == old(registry).names().insert(config.name@, id)
                &&& forall|k: AgentId| #[trigger] old(registry).agents().contains_key(k) && Some(k) != parent_id
                    ==> final(registry).agents()[k] == old(registry).agents()[k]
                &&& final(registry).agents().dom() == old(registry).agents().dom().insert(id)
                &&& forall|p: AgentId| parent_id == Some(p) && #[trigger] old(registry).agents().contains_key(p) ==> {
                    &&& super::registry::same_but_children(old(registry).agents()[p], final(registry).agents()[p])
                    &&& final(registry).agents()[p].children@ == old(registry).agents()[p].children@.push(id)
                }
                &&& final(mailboxes)@ == old(mailboxes)@.insert(id, Seq::empty())
                &&& final(frames).free_count() + STACK_RUN_FRAMES == old(frames).free_count()
                &&& exists|t: Task| {
                    &&& t.id == id
                    &&& t.name@ == config.name@
                    &&& t.priority == Priority::Normal
                    &&& t.state == TaskState::Ready
                    &&& t.context == (CpuContext {
                        rsp: t.kernel_stack_top,
                        rbp: 0,
                        rbx: 0,
                        r12: 0,
                        r13: 0,
                        r14: 0,
                        r15: 0,
                        rip: entry,
                    })
                    &&& t.kernel_stack_top == t.kernel_stack_bottom + KERNEL_STACK_SIZE
                    &&& frames_free(*old(frames), stack_frame(t, hhdm_offset) - 1, STACK_RUN_FRAMES as int)
                    &&& forall|j: int| 0 <= j < final(frames).bit_len() ==> #[trigger] final(frames).is_used(j)
                        == ((stack_frame(t, hhdm_offset) - 1 <= j < stack_frame(t, hhdm_offset) + KERNEL_STACK_PAGES)
                        || old(frames).is_used(j))
                    &&& final(sched).view() == (SchedView {
                        queues: old(sched).view().queues.update(
                            priority_index(Priority::Normal),
                            old(sched).view().queues[priority_index(Priority::Normal)].push(t),
                        ),
                        ..old(sched).view()
                    })
                }
            }
        }),
{
    match parent_id {
        Some(parent) => match registry.get(parent) {
            Some(p) => {
                if p.children.len() >= p.config.resource_limits.max_children {
                    return Err(AgentError::MaxChildren);
                }
            },
            None => {},
        },
        None => {},
    }
    let name = config.name.clone();
    let task = Task::new(name, Priority::Normal, entry, hhdm_offset, next_id, frames);
    let agent_id = task.id;
    register_mailbox(mailboxes, agent_id);
    let ghost reg0 = *registry;
    let agent = Agent {
        id: agent_id,
        config,
        state: AgentState::Running,
        parent: parent_id,
        children: Vec::new(),
        restart_count: 0,
        max_restarts: DEFAULT_MAX_RESTARTS,
    };
    let ghost a = agent;
    registry.register(agent);
    let ghost reg1 = *registry;
    proof {
        assert forall|k: AgentId| #[trigger] reg0.agents().contains_key(k) implies reg1.agents()[k] == reg0.agents()[k] by {
            assert(k != agent_id);
        }
    }
    match parent_id {
        Some(parent) => {
            proof {
                if reg0.agents().contains_key(parent) {
                    assert(parent < agent_id);
                }
            }
            if parent < agent_id {
                registry.add_child(parent, agent_id);
                proof {
                    assert(reg1.agents().contains_key(agent_id));
                    assert(registry.agents()[agent_id] == reg1.agents()[agent_id]);
                    assert forall|k: AgentId| #[trigger] reg0.agents().contains_key(k) && Some(k) != parent_id
                        implies registry.agents()[k] == reg0.agents()[k] by {
                        assert(reg1.agents().contains_key(k));
                        assert(k != agent_id);
                    }
                }
            }
        },
        None => {},
    }
    proof {
        assert(!reg0.agents().contains_key(agent_id));
        assert(reg1.agents().dom() =~= reg0.agents().dom().insert(agent_id));
    }
    let ghost t = task;
    sched.spawn(task);
    proof {
        assert(registry.agents().dom() =~= reg0.agents().dom().insert(agent_id));
        assert(registry.agents()[agent_id] == a);
        assert(t.name@ == config.name@);
        assert(forall|k: AgentId| #[trigger] reg0.agents().contains_key(k) && Some(k) != parent_id
            ==> registry.agents()[k] == reg0.agents()[k]);
        assert(registry.names() == reg0.names().insert(config.name@, agent_id));
        assert(mailboxes@ == old(mailboxes)@.insert(agent_id, Seq::empty()));
    }
    Ok(agent_id)
}

/// Kill agent `agent_id`: mark it dead, kill each of its children (recursively), take it
/// off its parent's children, unregister it and let the parent's supervisor react.
/// Afterwards no agent that was below it remains, and every agent removed along the way
/// (by the supervisors too) went with everything below it. `NotFound`, changing nothing,
/// when there is no such agent.
pub fn kill(registry: &mut AgentRegistry, agent_id: AgentId) -> (r: Result<(), AgentError>)
    requires
        old(registry).wf(),
    ensures
        final(registry).wf(),
        killed(old(registry).agents(), final(registry).agents(), agent_id),
        removal_closed(old(registry).agents(), final(registry).agents()),
        !old(registry).agents().contains_key(agent_id) ==> r == Err::<(), AgentError>(AgentError::NotFound)
            && *final(registry) == *old(registry),
        old(registry).agents().contains_key(agent_id) ==> {
            &&& r == Ok::<(), AgentError>(())
            &&& !final(registry).agents().contains_key(agent_id)
            &&& forall|y: AgentId, n: nat| #[trigger] reaches(old(registry).agents(), agent_id, y, n)
                ==> !final(registry).agents().contains_key(y)
        },
    decreases old(registry).agents().dom().len(), 2nat, (u64::MAX - agent_id) as nat,
{
    let ghost entry = old(registry).agents();
    proof {
        old(registry).lemma_wf();
    }
    let (parent_id, children) = match registry.get(agent_id) {
        Some(a) => (a.parent, a.children.clone()),
        None => return Err(AgentError::NotFound),
    };
    assert(children@ == entry[agent_id].children@);
    assert(forall|j: int| 0 <= j < children@.len() ==> agent_id < #[trigger] children@[j]);
    registry.set_state(agent_id, AgentState::Dead);
    proof {
        assert(registry.agents().dom() =~= entry.dom());
        lemma_closed_same_shape(entry, registry.agents());
    }
    let mut i: usize = 0;
    while i < children.len()
        invariant
            i <= children@.len(),
            registry.wf(),
            entry == old(registry).agents(),
            entry.dom().finite(),
            entry.contains_key(agent_id),
            children@ == entry[agent_id].children@,
            forall|j: int| 0 <= j < children@.len() ==> agent_id < #[trigger] children@[j],
            registry.agents().dom().subset_of(entry.dom()),
            removal_closed(entry, registry.agents()),
            forall|j: int| 0 <= j < i ==> !registry.agents().contains_key(#[trigger] children@[j]),
        decreases children@.len() - i,
    {
        let c = children[i];
        proof {
            vstd::set_lib::lemma_len_subset(registry.agents().dom(), entry.dom());
        }
        let ghost before = registry.agents();
        let _ = kill(registry, c);
        proof {
            lemma_closed_trans(entry, before, registry.agents());
            if before.contains_key(c) {
                assert(reaches(before, c, c, 0));
            }
        }
        i = i + 1;
    }
    let ghost ma = registry.agents();
    proof {
        if ma.contains_key(agent_id) {
            assert forall|j: int| 0 <= j < ma[agent_id].children@.len()
                implies !ma.contains_key(#[trigger] ma[agent_id].children@[j]) by {
                let c = ma[agent_id].children@[j];
                assert(ma[agent_id].children@.contains(c));
                assert(entry[agent_id].children@.contains(c));
                let k = choose|k: int| 0 <= k < children@.len() && children@[k] == c;
            }
        }
    }
    match parent_id {
        Some(parent) => registry.remove_child(parent, agent_id),
        None => {},
    }
    let ghost mb = registry.agents();
    proof {
        assert forall|k: AgentId, c: AgentId| ma.contains_key(k) && #[trigger] mb[k].children@.contains(c)
            implies ma[k].children@.contains(c) by {
            if parent_id == Some(k) {
                ma[k].children@.lemma_filter_contains_rev(|x: AgentId| x != agent_id, c);
            }
        }
        assert forall|k: AgentId, c: AgentId| ma.contains_key(k) && #[trigger] ma[k].children@.contains(c) && c != agent_id
            implies mb[k].children@.contains(c) by {
            if parent_id == Some(k) {
                broadcast use vstd::seq_lib::group_filter_ensures;
                let f = ma[k].children@.filter(|x: AgentId| x != agent_id);
                let j = choose|j: int| 0 <= j < ma[k].children@.len() && ma[k].children@[j] == c;
                assert(f.contains(c));
            }
        }
    }
    let _ = registry.unregister(agent_id);
    proof {
        assert(reaches(entry, agent_id, agent_id, 0));
        lemma_closed_detach(ma, mb, registry.agents(), agent_id);
        lemma_closed_trans(entry, ma, registry.agents());
    }
    let ghost mc = registry.agents();
    proof {
        lemma_smaller(mc.dom(), entry.dom(), agent_id);
        assert forall|y: AgentId, n: nat| #[trigger] reaches(entry, agent_id, y, n) implies !mc.contains_key(y) by {
        }
    }
    match parent_id {
        Some(parent) => {
            notify_child_death(registry, parent, agent_id);
            proof {
                lemma_closed_trans(entry, mc, registry.agents());
            }
        },
        None => {},
    }
    proof {
        assert(removal_closed(entry, mc));
        assert(killed(entry, registry.agents(), agent_id));
    }
    Ok(())
}

/// Mark agent `agent_id` suspended; `NotFound` when there is none.
pub fn suspend(registry: &mut AgentRegistry, agent_id: AgentId) -> (r: Result<(), AgentError>)
    requires
        old(registry).wf(),
    ensures
        final(registry).wf(),
        final(registry).names() == old(registry).names(),
        old(registry).agents().contains_key(agent_id) ==> r == Ok::<(), AgentError>(())
            && final(registry).agents() == old(registry).agents().insert(
                agent_id,
                Agent { state: AgentState::Suspended, ..old(registry).agents()[agent_id] },
            ),
        !old(registry).agents().contains_key(agent_id) ==> r == Err::<(), AgentError>(AgentError::NotFound)
            && final(registry).agents() == old(registry).agents(),
{
    if registry.set_state(agent_id, AgentState::Suspended) {
        Ok(())
    } else {
        Err(AgentError::NotFound)
    }
}

/// Mark agent `agent_id` running again; `NotFound` when there is none.
pub fn resume(registry: &mut AgentRegistry, agent_id: AgentId) -> (r: Result<(), AgentError>)
    requires
        old(registry).wf(),
    ensures
        final(registry).wf(),
        final(registry).names() == old(registry).names(),
        old(registry).agents().contains_key(agent_id) ==> r == Ok::<(), AgentError>(())
            && final(registry).agents() == old(registry).agents().insert(
                agent_id,
                Agent { state: AgentState::Running, ..old(registry).agents()[agent_id] },
            ),
        !old(registry).agents().contains_key(agent_id) ==> r == Err::<(), AgentError>(AgentError::NotFound)
            && final(registry).agents() == old(registry).agents(),
{
    if registry.set_state(agent_id, AgentState::Running) {
        Ok(())
    } else {
        Err(AgentError::NotFound)
    }
}

} // verus!
