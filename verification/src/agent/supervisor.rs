use vstd::prelude::*;
use super::{AgentId, RestartPolicy};
use super::registry::{Agent, AgentRegistry};
use super::lifecycle::{kill, lemma_smaller};
use super::tree::{reaches, removal_closed, lemma_closed_refl, lemma_closed_same_shape, lemma_closed_trans};

verus! {

/// `after` is what killing agent `id` makes of `before`: nothing changes when there is no
/// such agent; otherwise there is a state `mid` in which `id` and everything below it are
/// gone (agents being removed only together with everything below them), and `after` is
/// `mid` once the supervisor of `id`'s parent (if any) has reacted to its death.
pub open spec fn killed(before: Map<AgentId, Agent>, after: Map<AgentId, Agent>, id: AgentId) -> bool
    decreases before.dom().len(), 0nat,
{
    if !before.contains_key(id) {
        after == before
    } else {
        exists|mid: Map<AgentId, Agent>| {
            &&& #[trigger] removal_closed(before, mid)
            &&& !mid.contains_key(id)
            &&& forall|y: AgentId, n: nat| #[trigger] reaches(before, id, y, n) ==> !mid.contains_key(y)
            &&& mid.dom().len() < before.dom().len()
            &&& match before[id].parent {
                Some(p) => supervised(mid, after, p, id),
                None => after == mid,
            }
        }
    }
}

/// `after` is what the supervisor of `parent` makes of `before` when its child `child`
/// dies: nothing when `parent` is gone; when its restarts are used up or its policy is
/// `Escalate`, `parent` is killed in turn (see [`escalated`]); `RestartOne` and
/// `RestartAll` count one more restart; `Permanent` changes nothing.
pub open spec fn supervised(before: Map<AgentId, Agent>, after: Map<AgentId, Agent>, parent: AgentId, child: AgentId) -> bool
    decreases before.dom().len(), 2nat,
{
    if !before.contains_key(parent) {
        after == before
    } else {
        let p = before[parent];
        if p.restart_count >= p.max_restarts || p.config.restart_policy == RestartPolicy::Escalate {
            escalated(before, after, parent)
        } else if p.config.restart_policy == RestartPolicy::RestartOne
            || p.config.restart_policy == RestartPolicy::RestartAll {
            after == before.insert(parent, Agent { restart_count: (p.restart_count + 1) as u32, ..p })
        } else {
            after == before
        }
    }
}

/// `after` is what escalating a failure of `id` makes of `before`: `id` is killed (see
/// [`killed`]), and then the supervisor of its own parent, if any, reacts.
pub open spec fn escalated(before: Map<AgentId, Agent>, after: Map<AgentId, Agent>, id: AgentId) -> bool
    decreases before.dom().len(), 1nat,
{
    before.contains_key(id) && exists|mid: Map<AgentId, Agent>| {
        &&& killed(before, mid, id)
        &&& #[trigger] mid.dom().len() < before.dom().len()
        &&& match before[id].parent {
            Some(g) => supervised(mid, after, g, id),
            None => after == mid,
        }
    }
}

/// A child of `parent_id` died: apply the parent's restart policy (see [`supervised`]),
/// up the tree as far as failures escalate. Once the parent has used up its restarts, or
/// when its policy is `Escalate`, the parent itself is killed and its own parent's policy
/// applied; `RestartOne` and `RestartAll` count a restart; `Permanent` does nothing.
/// Nothing happens when the parent is gone.
pub fn notify_child_death(registry: &mut AgentRegistry, parent_id: AgentId, dead_child_id: AgentId)
    requires
        old(registry).wf(),
    ensures
        final(registry).wf(),
        supervised(old(registry).agents(), final(registry).agents(), parent_id, dead_child_id),
        removal_closed(old(registry).agents(), final(registry).agents()),
        !old(registry).agents().contains_key(parent_id) ==> *final(registry) == *old(registry),
        old(registry).agents().contains_key(parent_id) ==> {
            let p = old(registry).agents()[parent_id];
            if p.restart_count >= p.max_restarts {
                !final(registry).agents().contains_key(parent_id)
            } else {
                match p.config.restart_policy {
                    RestartPolicy::RestartOne | RestartPolicy::RestartAll => {
                        &&& final(registry).agents() == old(registry).agents().insert(
                            parent_id,
                            Agent { restart_count: (p.restart_count + 1) as u32, ..p },
                        )
                        &&& final(registry).names() == old(registry).names()
                    },
                    RestartPolicy::Escalate => !final(registry).agents().contains_key(parent_id),
                    RestartPolicy::Permanent => *final(registry) == *old(registry),
                }
            }
        },
    decreases old(registry).agents().dom().len(), 4nat, 0nat,
{
    proof {
        lemma_closed_refl(old(registry).agents());
    }
    let (policy, restart_count, max_restarts) = match registry.get(parent_id) {
        Some(p) => (p.config.restart_policy, p.restart_count, p.max_restarts),
        None => return,
    };
    if restart_count >= max_restarts {
        escalate(registry, parent_id);
        return;
    }
    match policy {
        RestartPolicy::RestartOne => {
            registry.increment_restart_count(parent_id);
            proof {
                assert(registry.agents().dom() =~= old(registry).agents().dom());
                lemma_closed_same_shape(old(registry).agents(), registry.agents());
            }
        },
        RestartPolicy::RestartAll => {
            registry.increment_restart_count(parent_id);
            proof {
                assert(registry.agents().dom() =~= old(registry).agents().dom());
                lemma_closed_same_shape(old(registry).agents(), registry.agents());
            }
        },
        RestartPolicy::Escalate => {
            escalate(registry, parent_id);
        },
        RestartPolicy::Permanent => {},
    }
}

/// Kill `agent_id` and notify its own parent.
fn escalate(registry: &mut AgentRegistry, agent_id: AgentId)
    requires
        old(registry).wf(),
        old(registry).agents().contains_key(agent_id),
    ensures
        final(registry).wf(),
        escalated(old(registry).agents(), final(registry).agents(), agent_id),
        removal_closed(old(registry).agents(), final(registry).agents()),
        !final(registry).agents().contains_key(agent_id),
    decreases old(registry).agents().dom().len(), 3nat, 0nat,
{
    let ghost entry = old(registry).agents();
    proof {
        old(registry).lemma_wf();
    }
    let parent = match registry.get(agent_id) {
        Some(a) => a.parent,
        None => None,
    };
    let _ = kill(registry, agent_id);
    let ghost m1 = registry.agents();
    proof {
        assert(reaches(entry, agent_id, agent_id, 0));
        lemma_smaller(m1.dom(), entry.dom(), agent_id);
    }
    match parent {
        Some(grandparent) => {
            notify_child_death(registry, grandparent, agent_id);
            proof {
                lemma_closed_trans(entry, m1, registry.agents());
            }
        },
        None => {},
    }
    proof {
        assert(parent == entry[agent_id].parent);
        assert(m1.dom().len() < entry.dom().len());
        assert(killed(entry, m1, agent_id));
        assert(escalated(entry, registry.agents(), agent_id));
    }
}

} // verus!
