//! The agents below an agent, and changes to the registry that remove an agent only
//! together with everything below it.
use vstd::prelude::*;
use super::AgentId;
use super::registry::Agent;

verus! {

/// `y` is `x` or lies below it, at most `n` levels down, following the children lists of
/// the agents present in `m`.
pub open spec fn reaches(m: Map<AgentId, Agent>, x: AgentId, y: AgentId, n: nat) -> bool
    decreases n,
{
    x == y || (n > 0 && m.contains_key(x) && exists|j: int|
        0 <= j < m[x].children@.len() && reaches(m, #[trigger] m[x].children@[j], y, (n - 1) as nat))
}

/// `after` comes from `before` by removing agents, each together with every agent below
/// it, and by dropping from children lists only agents that are gone.
pub open spec fn removal_closed(before: Map<AgentId, Agent>, after: Map<AgentId, Agent>) -> bool {
    &&& after.dom().subset_of(before.dom())
    &&& forall|k: AgentId, c: AgentId| #[trigger] after.contains_key(k) && after[k].children@.contains(c)
        ==> #[trigger] before[k].children@.contains(c)
    &&& forall|k: AgentId, c: AgentId| after.contains_key(k) && #[trigger] before[k].children@.contains(c)
        && after.contains_key(c) ==> after[k].children@.contains(c)
    &&& forall|x: AgentId, y: AgentId, n: nat| before.contains_key(x) && !after.contains_key(x)
        && #[trigger] reaches(before, x, y, n) ==> !after.contains_key(y)
}

/// Changing nothing is such a change.
pub proof fn lemma_closed_refl(m: Map<AgentId, Agent>)
    ensures
        removal_closed(m, m),
{
}

/// A change that keeps every agent and every children list is such a change.
pub proof fn lemma_closed_same_shape(before: Map<AgentId, Agent>, after: Map<AgentId, Agent>)
    requires
        after.dom() == before.dom(),
        forall|k: AgentId| #[trigger] before.contains_key(k) ==> after[k].children@ == before[k].children@,
    ensures
        removal_closed(before, after),
{
    assert forall|k: AgentId, c: AgentId| #[trigger] after.contains_key(k) && after[k].children@.contains(c)
        implies #[trigger] before[k].children@.contains(c) by {
        assert(before.contains_key(k));
    }
    assert forall|k: AgentId, c: AgentId| after.contains_key(k) && #[trigger] before[k].children@.contains(c)
        && after.contains_key(c) implies after[k].children@.contains(c) by {
        assert(before.contains_key(k));
    }
}

/// Whatever an agent kept by such a change reached before and still exists, it still
/// reaches.
proof fn lemma_reach_kept(before: Map<AgentId, Agent>, after: Map<AgentId, Agent>, x: AgentId, y: AgentId, n: nat)
    requires
        removal_closed(before, after),
        after.contains_key(x),
        after.contains_key(y),
        reaches(before, x, y, n),
    ensures
        reaches(after, x, y, n),
    decreases n,
{
    if x != y {
        let j = choose|j: int|
            0 <= j < before[x].children@.len() && reaches(before, #[trigger] before[x].children@[j], y, (n - 1) as nat);
        let c = before[x].children@[j];
        if !after.contains_key(c) {
            if before.contains_key(c) {
                assert(!after.contains_key(y));
            } else {
                assert(c == y);
            }
        }
        assert(before[x].children@.contains(c));
        assert(after[x].children@.contains(c));
        let k = choose|k: int| 0 <= k < after[x].children@.len() && after[x].children@[k] == c;
        lemma_reach_kept(before, after, c, y, (n - 1) as nat);
        assert(reaches(after, after[x].children@[k], y, (n - 1) as nat));
    }
}

/// Two such changes in a row make one.
pub proof fn lemma_closed_trans(m0: Map<AgentId, Agent>, m1: Map<AgentId, Agent>, m2: Map<AgentId, Agent>)
    requires
        removal_closed(m0, m1),
        removal_closed(m1, m2),
    ensures
        removal_closed(m0, m2),
{
    assert forall|k: AgentId, c: AgentId| #[trigger] m2.contains_key(k) && m2[k].children@.contains(c)
        implies #[trigger] m0[k].children@.contains(c) by {
        assert(m1[k].children@.contains(c));
    }
    assert forall|k: AgentId, c: AgentId| m2.contains_key(k) && #[trigger] m0[k].children@.contains(c)
        && m2.contains_key(c) implies m2[k].children@.contains(c) by {
        assert(m1.contains_key(k) && m1.contains_key(c));
        assert(m1[k].children@.contains(c));
    }
    assert forall|x: AgentId, y: AgentId, n: nat| m0.contains_key(x) && !m2.contains_key(x)
        && #[trigger] reaches(m0, x, y, n) implies !m2.contains_key(y) by {
        if m1.contains_key(x) && m1.contains_key(y) {
            lemma_reach_kept(m0, m1, x, y, n);
        }
    }
}

/// Removing `id`, after every child of `id` is gone, while children lists lose at most
/// `id`, is such a change.
pub proof fn lemma_closed_detach(
    before: Map<AgentId, Agent>,
    mid: Map<AgentId, Agent>,
    after: Map<AgentId, Agent>,
    id: AgentId,
)
    requires
        mid.dom() == before.dom(),
        forall|k: AgentId, c: AgentId| before.contains_key(k) && #[trigger] mid[k].children@.contains(c)
            ==> before[k].children@.contains(c),
        forall|k: AgentId, c: AgentId| before.contains_key(k) && #[trigger] before[k].children@.contains(c) && c != id
            ==> mid[k].children@.contains(c),
        after == mid.remove(id),
        before.contains_key(id) ==> forall|j: int| 0 <= j < before[id].children@.len()
            ==> !before.contains_key(#[trigger] before[id].children@[j]),
    ensures
        removal_closed(before, after),
{
    assert forall|k: AgentId, c: AgentId| #[trigger] after.contains_key(k) && after[k].children@.contains(c)
        implies #[trigger] before[k].children@.contains(c) by {
        assert(mid[k].children@.contains(c));
    }
    assert forall|x: AgentId, y: AgentId, n: nat| before.contains_key(x) && !after.contains_key(x)
        && #[trigger] reaches(before, x, y, n) implies !after.contains_key(y) by {
        assert(x == id);
        if x != y {
            let j = choose|j: int|
                0 <= j < before[x].children@.len() && reaches(before, #[trigger] before[x].children@[j], y, (n - 1) as nat);
            assert(!before.contains_key(before[x].children@[j]));
        }
    }
}

} // verus!
