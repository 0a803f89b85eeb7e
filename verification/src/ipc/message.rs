use vstd::prelude::*;
use std::collections::{BTreeMap, VecDeque};
use super::{IpcError, MessageId, MessageType};
use crate::task::TaskId;
use crate::task::scheduler::{Scheduler, SchedView, spec_unblock};
use crate::capability::CapId;
use crate::capability::permissions::{PermissionBits, WRITE_BIT};
use crate::capability::table::{CapabilityTable, validate_result};

verus! {

/// A mailbox holds at most this many messages.
pub const MAILBOX_CAPACITY: usize = 256;

#[derive(Debug)]
pub struct Message {
    pub id: MessageId,
    pub sender: TaskId,
    pub recipient: TaskId,
    pub msg_type: MessageType,
    pub payload: Vec<u8>,
    pub cap_transfer: Option<CapId>,
    pub reply_to: Option<MessageId>,
}

/// A message with its payload taken as a sequence of bytes.
pub struct MessageView {
    pub id: MessageId,
    pub sender: TaskId,
    pub recipient: TaskId,
    pub msg_type: MessageType,
    pub payload: Seq<u8>,
    pub cap_transfer: Option<CapId>,
    pub reply_to: Option<MessageId>,
}

impl View for Message {
    type V = MessageView;

    open spec fn view(&self) -> MessageView {
        MessageView {
            id: self.id,
            sender: self.sender,
            recipient: self.recipient,
            msg_type: self.msg_type,
            payload: self.payload@,
            cap_transfer: self.cap_transfer,
            reply_to: self.reply_to,
        }
    }
}

impl Clone for Message {
    fn clone(&self) -> (r: Self)
        ensures
            r@ == self@,
    {
        Message {
            id: self.id,
            sender: self.sender,
            recipient: self.recipient,
            msg_type: self.msg_type,
            payload: self.payload.clone(),
            cap_transfer: self.cap_transfer,
            reply_to: self.reply_to,
        }
    }
}

/// Take a fresh message id from `counter` (which wraps like an atomic counter).
pub fn next_message_id(counter: &mut u64) -> (id: MessageId)
    ensures
        id == MessageId(*old(counter)),
        *final(counter) == (if *old(counter) == u64::MAX { 0 } else { *old(counter) + 1 }),
{
    let id = *counter;
    *counter = counter.wrapping_add(1);
    MessageId(id)
}

/// A FIFO of messages for one task.
pub struct Mailbox {
    queue: VecDeque<Message>,
}

impl View for Mailbox {
    type V = Seq<MessageView>;

    closed spec fn view(&self) -> Seq<MessageView> {
        self.queue@.map_values(|m: Message| m@)
    }
}

impl Mailbox {
    pub fn new() -> (m: Self)
        ensures
            m@ == Seq::<MessageView>::empty(),
    {
        let m = Mailbox { queue: VecDeque::with_capacity(16) };
        assert(m@ =~= Seq::<MessageView>::empty());
        m
    }

    /// Append `msg`, refusing with `MailboxFull` once the capacity is reached.
    pub fn push(&mut self, msg: Message) -> (r: Result<(), IpcError>)
        ensures
            old(self)@.len() >= MAILBOX_CAPACITY ==> r == Err::<(), IpcError>(IpcError::MailboxFull)
                && final(self)@ == old(self)@,
            old(self)@.len() < MAILBOX_CAPACITY ==> r == Ok::<(), IpcError>(()) && final(self)@ == old(
                self,
            )@.push(msg@),
    {
        if self.queue.len() >= MAILBOX_CAPACITY {
            return Err(IpcError::MailboxFull);
        }
        let ghost m = msg@;
        self.queue.push_back(msg);
        assert(self@ =~= old(self)@.push(m));
        Ok(())
    }

    /// Remove and return the oldest message.
    pub fn pop(&mut self) -> (r: Option<Message>)
        ensures
            old(self)@.len() == 0 ==> r is None && final(self)@ == old(self)@,
            old(self)@.len() > 0 ==> r is Some && r.unwrap()@ == old(self)@[0] && final(self)@ == old(
                self,
            )@.drop_first(),
    {
        let r = self.queue.pop_front();
        assert(self@ =~= if old(self)@.len() > 0 { old(self)@.drop_first() } else { old(self)@ });
        r
    }

    pub fn len(&self) -> (n: usize)
        ensures
            n == self@.len(),
    {
        self.queue.len()
    }
}

/// The mailboxes of all tasks, keyed by task id.
pub struct Mailboxes {
    map: BTreeMap<TaskId, Mailbox>,
}

impl View for Mailboxes {
    type V = Map<TaskId, Seq<MessageView>>;

    closed spec fn view(&self) -> Map<TaskId, Seq<MessageView>> {
        self.map@.map_values(|m: Mailbox| m@)
    }
}

impl Mailboxes {
    pub fn new() -> (m: Self)
        ensures
            m@ == Map::<TaskId, Seq<MessageView>>::empty(),
    {
        let m = Mailboxes { map: BTreeMap::new() };
        assert(m@ =~= Map::<TaskId, Seq<MessageView>>::empty());
        m
    }

    /// Remove the mailbox of `task_id`, returning it.
    fn take(&mut self, task_id: TaskId) -> (r: Option<Mailbox>)
        ensures
            match r {
                Some(mb) => old(self)@.contains_key(task_id) && mb@ == old(self)@[task_id],
                None => !old(self)@.contains_key(task_id),
            },
            final(self)@ == old(self)@.remove(task_id),
    {
        broadcast use vstd::std_specs::btree::group_btree_axioms;
        let r = self.map.remove(&task_id);
        assert(self@ =~= old(self)@.remove(task_id));
        r
    }

    /// Store `mb` as the mailbox of `task_id`.
    fn put(&mut self, task_id: TaskId, mb: Mailbox)
        ensures
            final(self)@ == old(self)@.insert(task_id, mb@),
    {
        broadcast use vstd::std_specs::btree::group_btree_axioms;
        self.map.insert(task_id, mb);
        assert(self@ =~= old(self)@.insert(task_id, mb@));
    }
}

impl Mailboxes {
    /// Queue `msg` in the mailbox of its recipient, if that mailbox exists and has room.
    pub fn deliver(&mut self, msg: Message) -> (r: Result<(), IpcError>)
        ensures
            !old(self)@.contains_key(msg.recipient) ==> r == Err::<(), IpcError>(IpcError::RecipientNotFound)
                && final(self)@ == old(self)@,
            old(self)@.contains_key(msg.recipient) && old(self)@[msg.recipient].len() >= MAILBOX_CAPACITY
                ==> r == Err::<(), IpcError>(IpcError::MailboxFull) && final(self)@ == old(self)@,
            old(self)@.contains_key(msg.recipient) && old(self)@[msg.recipient].len() < MAILBOX_CAPACITY
                ==> r == Ok::<(), IpcError>(()) && final(self)@ == old(self)@.insert(
                msg.recipient,
                old(self)@[msg.recipient].push(msg@),
            ),
            r is Ok ==> final(self)@ == after_deliveries(old(self)@, msg.recipient, seq![msg@]),
    {
        let t = msg.recipient;
        let ghost mv = msg@;
        let mut mailbox = match self.take(t) {
            Some(mb) => mb,
            None => return Err(IpcError::RecipientNotFound),
        };
        let pushed = mailbox.push(msg);
        self.put(t, mailbox);
        proof {
            if pushed is Err {
                assert(self@ =~= old(self)@);
            } else {
                assert(seq![mv].drop_last() =~= Seq::<MessageView>::empty());
                assert(after_deliveries(old(self)@, t, seq![mv].drop_last()) == old(self)@);
            }
        }
        pushed
    }
}

/// Give `task_id` a fresh, empty mailbox (replacing any previous one).
pub fn register_mailbox(mailboxes: &mut Mailboxes, task_id: TaskId)
    ensures
        final(mailboxes)@ == old(mailboxes)@.insert(task_id, Seq::empty()),
{
    mailboxes.put(task_id, Mailbox::new());
}

/// Drop the mailbox of `task_id` with any queued messages.
pub fn unregister_mailbox(mailboxes: &mut Mailboxes, task_id: TaskId)
    ensures
        final(mailboxes)@ == old(mailboxes)@.remove(task_id),
{
    let _ = mailboxes.take(task_id);
}

/// What a send with a valid capability does: it takes the next message id; without a
/// mailbox for the recipient it fails with `RecipientNotFound`, with a full one with
/// `MailboxFull`; otherwise the message is queued and the recipient is unblocked.
pub open spec fn send_outcome(
    sender: TaskId,
    recipient: TaskId,
    msg_type: MessageType,
    payload: Seq<u8>,
    cap_transfer: Option<CapId>,
    reply_to: Option<MessageId>,
    old_mb: Map<TaskId, Seq<MessageView>>,
    new_mb: Map<TaskId, Seq<MessageView>>,
    old_counter: u64,
    new_counter: u64,
    old_sched: SchedView,
    new_sched: SchedView,
    r: Result<MessageId, IpcError>,
) -> bool {
    let id = MessageId(old_counter);
    let msg = MessageView { id, sender, recipient, msg_type, payload, cap_transfer, reply_to };
    &&& new_counter == (if old_counter == u64::MAX { 0 } else { old_counter + 1 })
    &&& if !old_mb.contains_key(recipient) {
        &&& r == Err::<MessageId, IpcError>(IpcError::RecipientNotFound)
        &&& new_mb == old_mb
        &&& new_sched == old_sched
    } else if old_mb[recipient].len() >= MAILBOX_CAPACITY {
        &&& r == Err::<MessageId, IpcError>(IpcError::MailboxFull)
        &&& new_mb == old_mb
        &&& new_sched == old_sched
    } else {
        &&& r == Ok::<MessageId, IpcError>(id)
        &&& new_mb == old_mb.insert(recipient, old_mb[recipient].push(msg))
        &&& new_sched == spec_unblock(old_sched, recipient)
    }
}

/// A mailbox is first in, first out: after `i` receives the next one returns the `i`-th
/// message delivered, and a delivery to a mailbox appends behind everything waiting.
pub proof fn lemma_mailbox_fifo(q: Seq<MessageView>, i: int, m: MessageView)
    requires
        0 <= i < q.len(),
    ensures
        q.skip(i)[0] == q[i],
        q.skip(i).drop_first() == q.skip(i + 1),
        q.push(m).skip(q.len() as int)[0] == m,
        forall|j: int| 0 <= j < q.len() ==> #[trigger] q.push(m)[j] == q[j],
{
    assert(q.skip(i).drop_first() =~= q.skip(i + 1));
}

/// Every mailbox holds at most `MAILBOX_CAPACITY` messages.
pub open spec fn within_capacity(mb: Map<TaskId, Seq<MessageView>>) -> bool {
    forall|t: TaskId| #[trigger] mb.contains_key(t) ==> mb[t].len() <= MAILBOX_CAPACITY
}

/// The capacity bound holds in every reachable state: a send never fills a mailbox past
/// it, and a receive only shortens one.
pub proof fn lemma_capacity_kept(
    sender: TaskId,
    recipient: TaskId,
    msg_type: MessageType,
    payload: Seq<u8>,
    cap_transfer: Option<CapId>,
    reply_to: Option<MessageId>,
    old_mb: Map<TaskId, Seq<MessageView>>,
    new_mb: Map<TaskId, Seq<MessageView>>,
    old_counter: u64,
    new_counter: u64,
    old_sched: SchedView,
    new_sched: SchedView,
    r: Result<MessageId, IpcError>,
    t: TaskId,
)
    requires
        within_capacity(old_mb),
        send_outcome(sender, recipient, msg_type, payload, cap_transfer, reply_to, old_mb, new_mb,
            old_counter, new_counter, old_sched, new_sched, r),
    ensures
        within_capacity(new_mb),
        within_capacity(Map::<TaskId, Seq<MessageView>>::empty()),
        within_capacity(old_mb.insert(t, Seq::empty())),
        old_mb.contains_key(t) && old_mb[t].len() > 0 ==> within_capacity(old_mb.insert(t, old_mb[t].drop_first())),
        within_capacity(old_mb.remove(t)),
{
}

/// What a receive by `t` returns on the mailboxes `mb`: the oldest waiting message.
pub open spec fn received(mb: Map<TaskId, Seq<MessageView>>, t: TaskId) -> Option<MessageView> {
    if mb.contains_key(t) && mb[t].len() > 0 {
        Some(mb[t][0])
    } else {
        None
    }
}

/// The mailboxes after a receive by `t`.
pub open spec fn after_receive(mb: Map<TaskId, Seq<MessageView>>, t: TaskId) -> Map<TaskId, Seq<MessageView>> {
    if mb.contains_key(t) && mb[t].len() > 0 {
        mb.insert(t, mb[t].drop_first())
    } else {
        mb
    }
}

/// The mailboxes after `k` receives by `t`.
pub open spec fn after_receives(mb: Map<TaskId, Seq<MessageView>>, t: TaskId, k: nat) -> Map<
    TaskId,
    Seq<MessageView>,
>
    decreases k,
{
    if k == 0 {
        mb
    } else {
        after_receive(after_receives(mb, t, (k - 1) as nat), t)
    }
}

/// The mailboxes after the messages `ms` were delivered to `t`, in order.
pub open spec fn after_deliveries(mb: Map<TaskId, Seq<MessageView>>, t: TaskId, ms: Seq<MessageView>) -> Map<
    TaskId,
    Seq<MessageView>,
>
    decreases ms.len(),
{
    if ms.len() == 0 {
        mb
    } else {
        let prev = after_deliveries(mb, t, ms.drop_last());
        prev.insert(t, prev[t].push(ms.last()))
    }
}

proof fn lemma_deliveries_append(mb: Map<TaskId, Seq<MessageView>>, t: TaskId, ms: Seq<MessageView>)
    requires
        mb.contains_key(t),
    ensures
        after_deliveries(mb, t, ms).contains_key(t),
        after_deliveries(mb, t, ms)[t] == mb[t] + ms,
        forall|u: TaskId| u != t ==> #[trigger] after_deliveries(mb, t, ms).contains_key(u) == mb.contains_key(u)
            && (mb.contains_key(u) ==> after_deliveries(mb, t, ms)[u] == mb[u]),
    decreases ms.len(),
{
    if ms.len() > 0 {
        lemma_deliveries_append(mb, t, ms.drop_last());
        assert(mb[t] + ms.drop_last() + seq![ms.last()] =~= mb[t] + ms);
    }
}

proof fn lemma_receives_skip(mb: Map<TaskId, Seq<MessageView>>, t: TaskId, k: nat)
    requires
        mb.contains_key(t),
        k <= mb[t].len(),
    ensures
        after_receives(mb, t, k).contains_key(t),
        after_receives(mb, t, k)[t] == mb[t].skip(k as int),
    decreases k,
{
    if k > 0 {
        lemma_receives_skip(mb, t, (k - 1) as nat);
        assert(mb[t].skip(k - 1).drop_first() =~= mb[t].skip(k as int));
    }
}

/// Mailboxes are first in, first out: once `t` has a mailbox holding `q`, and the messages
/// `ms` are delivered to it in order, successive receives by `t` return the messages of
/// `q` and then those of `ms`, in order, each one shortening the mailbox by one; once they
/// are all taken a receive returns nothing. A task without a mailbox receives nothing.
pub proof fn lemma_fifo_delivery_order(mb: Map<TaskId, Seq<MessageView>>, t: TaskId, ms: Seq<MessageView>)
    requires
        mb.contains_key(t),
    ensures
        forall|i: nat| i < mb[t].len() + ms.len() ==> #[trigger] received(
            after_receives(after_deliveries(mb, t, ms), t, i),
            t,
        ) == Some((mb[t] + ms)[i as int]),
        forall|i: nat| i <= mb[t].len() + ms.len() ==> #[trigger] after_receives(after_deliveries(mb, t, ms), t, i)[t].len()
            == mb[t].len() + ms.len() - i,
        received(after_receives(after_deliveries(mb, t, ms), t, (mb[t].len() + ms.len()) as nat), t) is None,
        forall|u: TaskId| !mb.contains_key(u) ==> #[trigger] received(mb, u) is None,
{
    let d = after_deliveries(mb, t, ms);
    lemma_deliveries_append(mb, t, ms);
    assert forall|i: nat| i <= mb[t].len() + ms.len() implies #[trigger] after_receives(d, t, i)[t].len()
        == mb[t].len() + ms.len() - i by {
        lemma_receives_skip(d, t, i);
    }
    assert forall|i: nat| i < mb[t].len() + ms.len() implies #[trigger] received(after_receives(d, t, i), t) == Some(
        (mb[t] + ms)[i as int],
    ) by {
        lemma_receives_skip(d, t, i);
    }
    lemma_receives_skip(d, t, (mb[t].len() + ms.len()) as nat);
}

/// Send a message. The sender must hold WRITE on `sender_cap`; on success the message is
/// queued in the recipient's mailbox and the recipient is woken if it was blocked.
pub fn send(
    sender: TaskId,
    recipient: TaskId,
    msg_type: MessageType,
    payload: Vec<u8>,
    cap_transfer: Option<CapId>,
    reply_to: Option<MessageId>,
    sender_cap: CapId,
    caps: &CapabilityTable,
    mailboxes: &mut Mailboxes,
    next_msg_id: &mut u64,
    sched: &mut Scheduler,
) -> (r: Result<MessageId, IpcError>)
    requires
        caps.wf(),
    ensures
        validate_result(caps.caps(), sender_cap as int, sender, WRITE_BIT) is Err ==> {
            &&& r == Err::<MessageId, IpcError>(IpcError::CapabilityDenied)
            &&& final(mailboxes)@ == old(mailboxes)@
            &&& *final(next_msg_id) == *old(next_msg_id)
            &&& *final(sched) == *old(sched)
        },
        validate_result(caps.caps(), sender_cap as int, sender, WRITE_BIT) is Ok ==> send_outcome(
            sender,
            recipient,
            msg_type,
            payload@,
            cap_transfer,
            reply_to,
            old(mailboxes)@,
            final(mailboxes)@,
            *old(next_msg_id),
            *final(next_msg_id),
            old(sched).view(),
            final(sched).view(),
            r,
        ),
        final(sched).saved_contexts() == old(sched).saved_contexts(),
        final(sched).wf() == old(sched).wf(),
{
    if caps.validate(sender_cap, sender, PermissionBits::write()).is_err() {
        return Err(IpcError::CapabilityDenied);
    }
    let msg_id = next_message_id(next_msg_id);
    let msg = Message { id: msg_id, sender, recipient, msg_type, payload, cap_transfer, reply_to };
    let ghost mv = msg@;
    let mut mailbox = match mailboxes.take(recipient) {
        Some(mb) => mb,
        None => {
            assert(mailboxes@ =~= old(mailboxes)@);
            return Err(IpcError::RecipientNotFound);
        },
    };
    let pushed = mailbox.push(msg);
    mailboxes.put(recipient, mailbox);
    match pushed {
        Err(e) => {
            assert(mailboxes@ =~= old(mailboxes)@);
            return Err(e);
        },
        Ok(()) => {},
    }
    assert(mailboxes@ =~= old(mailboxes)@.insert(recipient, old(mailboxes)@[recipient].push(mv)));
    sched.unblock(recipient);
    Ok(msg_id)
}

/// Non-blocking receive: the oldest message of `task_id`'s mailbox.
pub fn receive(mailboxes: &mut Mailboxes, task_id: TaskId) -> (r: Option<Message>)
    ensures
        !old(mailboxes)@.contains_key(task_id) ==> r is None && final(mailboxes)@ == old(mailboxes)@,
        old(mailboxes)@.contains_key(task_id) && old(mailboxes)@[task_id].len() == 0 ==> r is None
            && final(mailboxes)@ == old(mailboxes)@,
        old(mailboxes)@.contains_key(task_id) && old(mailboxes)@[task_id].len() > 0 ==> {
            &&& r is Some
            &&& r.unwrap()@ == old(mailboxes)@[task_id][0]
            &&& final(mailboxes)@ == old(mailboxes)@.insert(task_id, old(mailboxes)@[task_id].drop_first())
        },
        match r {
            Some(m) => received(old(mailboxes)@, task_id) == Some(m@),
            None => received(old(mailboxes)@, task_id) is None,
        },
        final(mailboxes)@ == after_receive(old(mailboxes)@, task_id),
{
    let mut mailbox = match mailboxes.take(task_id) {
        Some(mb) => mb,
        None => return None,
    };
    let r = mailbox.pop();
    mailboxes.put(task_id, mailbox);
    proof {
        if old(mailboxes)@[task_id].len() == 0 {
            assert(mailboxes@ =~= old(mailboxes)@);
        }
    }
    r
}

/// Number of messages waiting for `task_id` (0 without a mailbox).
pub fn mailbox_len(mailboxes: &Mailboxes, task_id: TaskId) -> (n: usize)
    ensures
        n == if mailboxes@.contains_key(task_id) {
            mailboxes@[task_id].len() as int
        } else {
            0
        },
{
    broadcast use vstd::std_specs::btree::group_btree_axioms;
    match mailboxes.map.get(&task_id) {
        Some(mb) => mb.len(),
        None => 0,
    }
}

} // verus!
