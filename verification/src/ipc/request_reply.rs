use vstd::prelude::*;
use std::collections::BTreeMap;
use vstd::std_specs::iter::IteratorSpec;
use super::{IpcError, MessageId, MessageType};
use super::key_order::lemma_keys_increase;
use super::message::{Mailboxes, Message, MessageView, send, send_outcome};
use crate::task::TaskId;
use crate::task::scheduler::{Scheduler, SchedView, spec_unblock, spec_unblock_all};
use crate::capability::CapId;
use crate::capability::permissions::{PermissionBits, WRITE_BIT};
use crate::capability::table::{CapabilityTable, validate_result};

verus! {

/// A request waiting for its reply.
#[derive(Clone, Copy, PartialEq, Eq, Structural)]
pub struct PendingRequest {
    pub requester: TaskId,
    pub deadline_tick: u64,
}

/// Requests waiting for a reply and replies waiting to be collected, keyed by the request's
/// message id.
pub struct RequestTable {
    pending: BTreeMap<u64, PendingRequest>,
    replies: BTreeMap<u64, Message>,
}

/// Requesters of the requests of `ids` that have expired at `now`, in the order of `ids`.
pub open spec fn expired_requesters(pending: Map<u64, PendingRequest>, ids: Seq<u64>, now: u64) -> Seq<TaskId>
    decreases ids.len(),
{
    if ids.len() == 0 {
        Seq::empty()
    } else {
        let rest = expired_requesters(pending, ids.drop_last(), now);
        if now >= pending[ids.last()].deadline_tick {
            rest.push(pending[ids.last()].requester)
        } else {
            rest
        }
    }
}

impl RequestTable {
    pub closed spec fn pending_view(&self) -> Map<u64, PendingRequest> {
        self.pending@
    }

    pub closed spec fn replies_view(&self) -> Map<u64, MessageView> {
        self.replies@.map_values(|m: Message| m@)
    }

    pub fn new() -> (t: Self)
        ensures
            t.pending_view() == Map::<u64, PendingRequest>::empty(),
            t.replies_view() == Map::<u64, MessageView>::empty(),
    {
        let t = RequestTable { pending: BTreeMap::new(), replies: BTreeMap::new() };
        assert(t.replies_view() =~= Map::<u64, MessageView>::empty());
        t
    }
}

/// Send a request (WRITE on `sender_cap` required) and register it for a reply due before
/// `now + timeout_ticks`. The caller blocks afterwards.
pub fn request(
    table: &mut RequestTable,
    sender: TaskId,
    recipient: TaskId,
    payload: Vec<u8>,
    sender_cap: CapId,
    timeout_ticks: u64,
    now: u64,
    caps: &CapabilityTable,
    mailboxes: &mut Mailboxes,
    next_msg_id: &mut u64,
    sched: &mut Scheduler,
) -> (r: Result<MessageId, IpcError>)
    requires
        caps.wf(),
        now + timeout_ticks <= u64::MAX,
    ensures
        final(table).replies_view() == old(table).replies_view(),
        final(sched).saved_contexts() == old(sched).saved_contexts(),
        final(sched).wf() == old(sched).wf(),
        validate_result(caps.caps(), sender_cap as int, sender, WRITE_BIT) is Err ==> {
            &&& r == Err::<MessageId, IpcError>(IpcError::CapabilityDenied)
            &&& final(mailboxes)@ == old(mailboxes)@
            &&& *final(next_msg_id) == *old(next_msg_id)
            &&& *final(sched) == *old(sched)
            &&& final(table).pending_view() == old(table).pending_view()
        },
        validate_result(caps.caps(), sender_cap as int, sender, WRITE_BIT) is Ok ==> {
            &&& send_outcome(
                sender,
                recipient,
                MessageType::Request,
                payload@,
                None,
                None,
                old(mailboxes)@,
                final(mailboxes)@,
                *old(next_msg_id),
                *final(next_msg_id),
                old(sched).view(),
                final(sched).view(),
                r,
            )
            &&& match r {
                Ok(id) => final(table).pending_view() == old(table).pending_view().insert(
                    id.0,
                    PendingRequest { requester: sender, deadline_tick: (now + timeout_ticks) as u64 },
                ),
                Err(_) => final(table).pending_view() == old(table).pending_view(),
            }
        },
{
    if caps.validate(sender_cap, sender, PermissionBits::write()).is_err() {
        return Err(IpcError::CapabilityDenied);
    }
    let msg_id = match send(
        sender,
        recipient,
        MessageType::Request,
        payload,
        None,
        None,
        sender_cap,
        caps,
        mailboxes,
        next_msg_id,
        sched,
    ) {
        Ok(id) => id,
        Err(e) => return Err(e),
    };
    let deadline = now + timeout_ticks;
    broadcast use vstd::std_specs::btree::group_btree_axioms;
    table.pending.insert(msg_id.0, PendingRequest { requester: sender, deadline_tick: deadline });
    Ok(msg_id)
}

/// The reply `sender` gives `requester` to the request `original`, carrying `payload`.
pub open spec fn reply_view(sender: TaskId, requester: TaskId, original: MessageId, payload: Seq<u8>) -> MessageView {
    MessageView {
        id: MessageId(0),
        sender,
        recipient: requester,
        msg_type: MessageType::Reply,
        payload,
        cap_transfer: None,
        reply_to: Some(original),
    }
}

/// Answer the pending request `original_msg_id`: the reply is stored for its requester,
/// who is woken. Without such a pending request the reply is refused.
pub fn reply(
    table: &mut RequestTable,
    sender: TaskId,
    original_msg_id: MessageId,
    payload: Vec<u8>,
    sender_cap: CapId,
    sched: &mut Scheduler,
) -> (r: Result<(), IpcError>)
    ensures
        !old(table).pending_view().contains_key(original_msg_id.0) ==> {
            &&& r == Err::<(), IpcError>(IpcError::RecipientNotFound)
            &&& final(table).pending_view() == old(table).pending_view()
            &&& final(table).replies_view() == old(table).replies_view()
            &&& *final(sched) == *old(sched)
        },
        old(table).pending_view().contains_key(original_msg_id.0) ==> {
            let req = old(table).pending_view()[original_msg_id.0];
            &&& r == Ok::<(), IpcError>(())
            &&& final(table).pending_view() == old(table).pending_view().remove(original_msg_id.0)
            &&& final(table).replies_view() == old(table).replies_view().insert(
                original_msg_id.0,
                reply_view(sender, req.requester, original_msg_id, payload@),
            )
            &&& final(sched).view() == spec_unblock(old(sched).view(), req.requester)
            &&& final(sched).saved_contexts() == old(sched).saved_contexts()
            &&& final(sched).wf() == old(sched).wf()
        },
{
    broadcast use vstd::std_specs::btree::group_btree_axioms;
    let pending = match table.pending.remove(&original_msg_id.0) {
        Some(p) => p,
        None => return Err(IpcError::RecipientNotFound),
    };
    let reply_msg = Message {
        id: MessageId(0),
        sender,
        recipient: pending.requester,
        msg_type: MessageType::Reply,
        payload,
        cap_transfer: None,
        reply_to: Some(original_msg_id),
    };
    let ghost mv = reply_msg@;
    table.replies.insert(original_msg_id.0, reply_msg);
    assert(table.replies_view() =~= old(table).replies_view().insert(original_msg_id.0, mv));
    sched.unblock(pending.requester);
    Ok(())
}

/// Collecting a reply gives back what `reply` stored: after a successful reply to the
/// request `id` with `payload`, collecting `id` yields a reply message to `id` that carries
/// `payload` from the replier to the requester; collecting `id` again yields nothing; and
/// an id that has never been answered (nor was waiting) yields nothing.
pub proof fn lemma_collect_after_reply(
    replies: Map<u64, MessageView>,
    id: MessageId,
    sender: TaskId,
    requester: TaskId,
    payload: Seq<u8>,
)
    ensures
        ({
            let stored = replies.insert(id.0, reply_view(sender, requester, id, payload));
            &&& stored.contains_key(id.0)
            &&& stored[id.0].reply_to == Some(id)
            &&& stored[id.0].payload == payload
            &&& stored[id.0].sender == sender
            &&& stored[id.0].recipient == requester
            &&& stored[id.0].msg_type == MessageType::Reply
            &&& !stored.remove(id.0).contains_key(id.0)
            &&& forall|j: u64| j != id.0 && !#[trigger] replies.contains_key(j) ==> !stored.contains_key(j)
        }),
{
}

/// Take the reply to `msg_id`, if it has arrived.
pub fn collect_reply(table: &mut RequestTable, msg_id: MessageId) -> (r: Option<Message>)
    ensures
        final(table).pending_view() == old(table).pending_view(),
        final(table).replies_view() == old(table).replies_view().remove(msg_id.0),
        match r {
            Some(m) => old(table).replies_view().contains_key(msg_id.0) && m@ == old(
                table,
            ).replies_view()[msg_id.0],
            None => !old(table).replies_view().contains_key(msg_id.0),
        },
{
    broadcast use vstd::std_specs::btree::group_btree_axioms;
    let r = table.replies.remove(&msg_id.0);
    assert(table.replies_view() =~= old(table).replies_view().remove(msg_id.0));
    r
}

impl RequestTable {
    /// The ids (increasing) and requesters of the pending requests expired at `now`.
    fn expired_entries(&self, now: u64) -> (r: (Vec<u64>, Vec<TaskId>, Ghost<Seq<u64>>))
        ensures
            r.2@.to_set() == self.pending_view().dom(),
            forall|i: int, j: int| 0 <= i < j < r.2@.len() ==> r.2@[i] < r.2@[j],
            r.0@ == expired_ids(self.pending_view(), r.2@, now),
            r.1@ == expired_requesters(self.pending_view(), r.2@, now),
    {
        broadcast use vstd::std_specs::btree::group_btree_axioms;
        let ghost m = self.pending@;
        let mut expired: Vec<u64> = Vec::new();
        let mut requesters: Vec<TaskId> = Vec::new();
        let ghost key_seq = vstd::std_specs::btree::spec_keys_iter(&self.pending).remaining();
        let ghost ks = key_seq.unref();
        let ghost mut seen: Seq<u64> = Seq::empty();
        for k in it: self.pending.keys()
            invariant
                self.pending@ == m,
                it.seq().unref().to_set() == m.dom(),
                it.seq() == key_seq,
                ks == key_seq.unref(),
                seen == it.seq().unref().take(it.index()),
                expired@ == expired_ids(m, seen, now),
                requesters@ == expired_requesters(m, seen, now),
        {
            let key: u64 = *k;
            proof {
                assert(it.seq().unref()[it.index()] == key);
                assert(it.seq().unref().to_set().contains(key));
                assert(it.seq().unref().take(it.index() + 1).drop_last() =~= it.seq().unref().take(it.index()));
                assert(it.seq().unref().take(it.index() + 1).last() == key);
            }
            let ghost seen_before = seen;
            proof {
                seen = seen.push(key);
                assert(seen.drop_last() =~= seen_before);
                assert(seen.last() == key);
            }
            match self.pending.get(&key) {
                Some(req) => {
                    if now >= req.deadline_tick {
                        expired.push(key);
                        requesters.push(req.requester);
                    }
                },
                None => {},
            }
        }
        proof {
            assert(seen == ks);
            assert(vstd::std_specs::btree::increasing_seq(key_seq));
            lemma_keys_increase(key_seq);
            assert(ks.to_set() == m.dom());
        }
        (expired, requesters, Ghost(seen))
    }

    /// Drop the pending requests of `ids`.
    fn remove_pending(&mut self, ids: &Vec<u64>)
        ensures
            final(self).replies_view() == old(self).replies_view(),
            forall|k: u64| #[trigger] final(self).pending_view().contains_key(k) == (old(self).pending_view().contains_key(k) && !ids@.contains(k)),
            forall|k: u64| #[trigger] final(self).pending_view().contains_key(k) ==> final(self).pending_view()[k] == old(self).pending_view()[k],
    {
        broadcast use vstd::std_specs::btree::group_btree_axioms;
        let ghost m = self.pending@;
        let mut i: usize = 0;
        while i < ids.len()
            invariant
                i <= ids@.len(),
                forall|k: u64| #[trigger] self.pending@.contains_key(k) == (m.contains_key(k) && !ids@.take(i as int).contains(k)),
                forall|k: u64| #[trigger] self.pending@.contains_key(k) ==> self.pending@[k] == m[k],
                self.replies@ == old(self).replies@,
            decreases ids@.len() - i,
        {
            let key = ids[i];
            let ghost before = self.pending@;
            self.pending.remove(&key);
            proof {
                assert(self.pending@ == before.remove(key));
                let t0 = ids@.take(i as int);
                let t1 = ids@.take(i + 1);
                assert(t1 =~= t0.push(key));
                assert forall|k: u64| #[trigger] self.pending@.contains_key(k) == (m.contains_key(k) && !t1.contains(k)) by {
                    assert(before.contains_key(k) == (m.contains_key(k) && !t0.contains(k)));
                    if t1.contains(k) && !t0.contains(k) {
                        let x = choose|x: int| 0 <= x < t1.len() && #[trigger] t1[x] == k;
                        if x < i {
                            assert(t0[x] == k);
                        }
                    }
                    if t0.contains(k) {
                        let x = choose|x: int| 0 <= x < t0.len() && #[trigger] t0[x] == k;
                        assert(t1[x] == k);
                    }
                    if k == key {
                        assert(t1[i as int] == k);
                    }
                }
                assert forall|k: u64| #[trigger] self.pending@.contains_key(k) implies self.pending@[k] == m[k] by {
                    assert(before.contains_key(k));
                }
            }
            i = i + 1;
        }
        assert(ids@.take(i as int) =~= ids@);
    }
}

/// Drop every pending request whose deadline has passed at `now` and wake its requester,
/// in increasing order of request id.
pub fn check_timeouts(table: &mut RequestTable, now: u64, sched: &mut Scheduler)
    ensures
        final(table).replies_view() == old(table).replies_view(),
        final(table).pending_view() == old(table).pending_view().restrict(
            old(table).pending_view().dom().filter(|id: u64| now < old(table).pending_view()[id].deadline_tick),
        ),
        final(sched).saved_contexts() == old(sched).saved_contexts(),
        final(sched).wf() == old(sched).wf(),
        exists|ids: Seq<u64>| {
            &&& ids.to_set() == old(table).pending_view().dom()
            &&& forall|i: int, j: int| 0 <= i < j < ids.len() ==> ids[i] < ids[j]
            &&& final(sched).view() == spec_unblock_all(
                old(sched).view(),
                expired_requesters(old(table).pending_view(), ids, now),
            )
        },
{
    let ghost m = table.pending_view();
    let (expired, requesters, Ghost(ks)) = table.expired_entries(now);
    table.remove_pending(&expired);
    let mut j: usize = 0;
    while j < requesters.len()
        invariant
            j <= requesters@.len(),
            sched.view() == spec_unblock_all(old(sched).view(), requesters@.take(j as int)),
            sched.saved_contexts() == old(sched).saved_contexts(),
            sched.wf() == old(sched).wf(),
        decreases requesters@.len() - j,
    {
        sched.unblock(requesters[j]);
        assert(requesters@.take(j + 1).drop_last() =~= requesters@.take(j as int));
        j = j + 1;
    }
    proof {
        assert(requesters@.take(j as int) =~= requesters@);
        lemma_expired_ids_contains(m, ks, now);
        let keep = m.dom().filter(|id: u64| now < m[id].deadline_tick);
        assert forall|k: u64| #[trigger] table.pending_view().contains_key(k) == keep.contains(k) by {
            assert(ks.to_set().contains(k) == ks.contains(k));
        }
        assert(table.pending_view() =~= m.restrict(keep));
    }
}

proof fn lemma_expired_ids_contains(m: Map<u64, PendingRequest>, ids: Seq<u64>, now: u64)
    ensures
        forall|k: u64| #[trigger] expired_ids(m, ids, now).contains(k) == (ids.contains(k) && now >= m[k].deadline_tick),
    decreases ids.len(),
{
    if ids.len() > 0 {
        let p = ids.drop_last();
        lemma_expired_ids_contains(m, p, now);
        let e = expired_ids(m, p, now);
        assert forall|k: u64| #[trigger] expired_ids(m, ids, now).contains(k) == (ids.contains(k) && now >= m[k].deadline_tick) by {
            if ids.contains(k) && !p.contains(k) {
                let x = choose|x: int| 0 <= x < ids.len() && ids[x] == k;
                if x < ids.len() - 1 {
                    assert(p[x] == k);
                }
            }
            if p.contains(k) {
                let x = choose|x: int| 0 <= x < p.len() && p[x] == k;
                assert(ids[x] == k);
            }
            if now >= m[ids.last()].deadline_tick {
                let e2 = e.push(ids.last());
                if e2.contains(k) && !e.contains(k) {
                    let x = choose|x: int| 0 <= x < e2.len() && e2[x] == k;
                    assert(x == e.len());
                }
                if e.contains(k) {
                    let x = choose|x: int| 0 <= x < e.len() && e[x] == k;
                    assert(e2[x] == k);
                }
                assert(e2[e.len() as int] == ids.last());
            }
        }
    }
}

/// The ids of `ids` whose request has expired at `now`, in order.
pub open spec fn expired_ids(pending: Map<u64, PendingRequest>, ids: Seq<u64>, now: u64) -> Seq<u64>
    decreases ids.len(),
{
    if ids.len() == 0 {
        Seq::empty()
    } else {
        let rest = expired_ids(pending, ids.drop_last(), now);
        if now >= pending[ids.last()].deadline_tick {
            rest.push(ids.last())
        } else {
            rest
        }
    }
}

} // verus!
