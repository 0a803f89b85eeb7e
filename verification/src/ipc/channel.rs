use vstd::prelude::*;
use super::{IpcError, MessageId, MessageType};
use super::message::{Mailboxes, MessageView, Message, MAILBOX_CAPACITY};
use crate::task::TaskId;
use crate::capability::CapId;
use crate::capability::resource::str_eq;
use crate::capability::permissions::{PermissionBits, SUBSCRIBE_BIT, PUBLISH_BIT};
use crate::capability::table::{CapabilityTable, validate_result};

verus! {

pub type ChannelId = u64;

/// A named publish/subscribe channel.
#[derive(Debug)]
pub struct Channel {
    pub id: ChannelId,
    pub name: String,
    pub subscribers: Vec<(TaskId, CapId)>,
}

pub struct ChannelView {
    pub id: ChannelId,
    pub name: Seq<char>,
    pub subscribers: Seq<(TaskId, CapId)>,
}

impl View for Channel {
    type V = ChannelView;

    open spec fn view(&self) -> ChannelView {
        ChannelView { id: self.id, name: self.name@, subscribers: self.subscribers@ }
    }
}

/// Position of the channel called `name` in `chs`, or -1.
pub open spec fn find_channel(chs: Seq<ChannelView>, name: Seq<char>) -> int {
    if exists|k: int| 0 <= k < chs.len() && chs[k].name == name {
        choose|k: int| 0 <= k < chs.len() && chs[k].name == name
    } else {
        -1
    }
}

/// Names are unique and every channel lists each subscribing task once.
pub open spec fn channels_wf(chs: Seq<ChannelView>) -> bool {
    &&& forall|i: int, j: int| 0 <= i < j < chs.len() ==> chs[i].name != chs[j].name
    &&& forall|k: int| 0 <= k < chs.len() ==> subscribers_unique(#[trigger] chs[k].subscribers)
}

pub open spec fn subscribers_unique(s: Seq<(TaskId, CapId)>) -> bool {
    forall|i: int, j: int| 0 <= i < j < s.len() ==> s[i].0 != s[j].0
}

/// Task `t` is among the subscribers `s`.
pub open spec fn is_subscribed(s: Seq<(TaskId, CapId)>, t: TaskId) -> bool {
    exists|i: int| 0 <= i < s.len() && s[i].0 == t
}

/// The subscribing tasks of `s`, in order, except `sender`.
pub open spec fn recipients(s: Seq<(TaskId, CapId)>, sender: TaskId) -> Seq<TaskId>
    decreases s.len(),
{
    if s.len() == 0 {
        Seq::empty()
    } else {
        let rest = recipients(s.drop_last(), sender);
        if s.last().0 != sender {
            rest.push(s.last().0)
        } else {
            rest
        }
    }
}

/// The subscribers `s` without task `t`.
pub open spec fn without_task(s: Seq<(TaskId, CapId)>, t: TaskId) -> Seq<(TaskId, CapId)>
    decreases s.len(),
{
    if s.len() == 0 {
        Seq::empty()
    } else {
        let rest = without_task(s.drop_last(), t);
        if s.last().0 != t {
            rest.push(s.last())
        } else {
            rest
        }
    }
}

/// The broadcast copy of `payload` that `sender` publishes to `t`.
pub open spec fn published(sender: TaskId, t: TaskId, payload: Seq<u8>) -> MessageView {
    MessageView {
        id: MessageId(0),
        sender,
        recipient: t,
        msg_type: MessageType::Data,
        payload,
        cap_transfer: None,
        reply_to: None,
    }
}

/// Best-effort delivery to each task of `ts`: a task with a mailbox that is not full
/// receives its copy; the others are skipped.
pub open spec fn deliver_all(
    m: Map<TaskId, Seq<MessageView>>,
    ts: Seq<TaskId>,
    sender: TaskId,
    payload: Seq<u8>,
) -> Map<TaskId, Seq<MessageView>>
    decreases ts.len(),
{
    if ts.len() == 0 {
        m
    } else {
        let prev = deliver_all(m, ts.drop_last(), sender, payload);
        let t = ts.last();
        if prev.contains_key(t) && prev[t].len() < MAILBOX_CAPACITY {
            prev.insert(t, prev[t].push(published(sender, t, payload)))
        } else {
            prev
        }
    }
}

/// All channels, at most one per name.
pub struct ChannelTable {
    channels: Vec<Channel>,
    next_channel_id: u64,
}

impl ChannelTable {
    pub closed spec fn view(&self) -> Seq<ChannelView> {
        self.channels@.map_values(|c: Channel| c@)
    }

    pub closed spec fn next_id(&self) -> u64 {
        self.next_channel_id
    }

    pub closed spec fn wf(&self) -> bool {
        channels_wf(self.view())
    }

    pub fn new() -> (t: Self)
        ensures
            t.wf(),
            t.view() == Seq::<ChannelView>::empty(),
            t.next_id() == 1,
    {
        let t = ChannelTable { channels: Vec::new(), next_channel_id: 1 };
        assert(t.view() =~= Seq::<ChannelView>::empty());
        t
    }

    /// Index of the channel called `name`, if any.
    fn lookup(&self, name: &str) -> (r: Option<usize>)
        requires
            self.wf(),
        ensures
            match r {
                Some(i) => i == find_channel(self.view(), name@) && 0 <= i < self.view().len(),
                None => find_channel(self.view(), name@) == -1,
            },
    {
        let mut i: usize = 0;
        while i < self.channels.len()
            invariant
                i <= self.channels@.len(),
                self.wf(),
                forall|j: int| 0 <= j < i ==> self.view()[j].name != name@,
            decreases self.channels@.len() - i,
        {
            if str_eq(self.channels[i].name.as_str(), name) {
                proof {
                    let k = choose|k: int| 0 <= k < self.view().len() && self.view()[k].name == name@;
                    assert(self.view()[i as int].name == name@);
                    if k != i {
                        if k < i {
                            assert(self.view()[k].name != name@);
                        } else {
                            assert(self.view()[i as int].name != self.view()[k].name);
                        }
                    }
                }
                return Some(i);
            }
            i = i + 1;
        }
        proof {
            if exists|k: int| 0 <= k < self.view().len() && self.view()[k].name == name@ {
                let k = choose|k: int| 0 <= k < self.view().len() && self.view()[k].name == name@;
                assert(self.view()[k].name != name@);
            }
        }
        None
    }
}

impl ChannelTable {
    /// Replace the channel at index `i` by `ch`.
    fn replace(&mut self, i: usize, ch: Channel)
        requires
            i < old(self).view().len(),
        ensures
            final(self).view() == old(self).view().update(i as int, ch@),
            final(self).next_id() == old(self).next_id(),
    {
        let ghost cv = ch@;
        self.channels.set(i, ch);
        assert(self.view() =~= old(self).view().update(i as int, cv));
    }

    /// Remove and return the channel at index `i`.
    fn take_at(&mut self, i: usize) -> (ch: Channel)
        requires
            i < old(self).view().len(),
        ensures
            ch@ == old(self).view()[i as int],
            final(self).view() == old(self).view().remove(i as int),
            final(self).next_id() == old(self).next_id(),
    {
        let ch = self.channels.remove(i);
        assert(self.view() =~= old(self).view().remove(i as int));
        ch
    }

    /// Put `ch` back at index `i`.
    fn put_at(&mut self, i: usize, ch: Channel)
        requires
            i <= old(self).view().len(),
        ensures
            final(self).view() == old(self).view().insert(i as int, ch@),
            final(self).next_id() == old(self).next_id(),
    {
        let ghost cv = ch@;
        self.channels.insert(i, ch);
        assert(self.view() =~= old(self).view().insert(i as int, cv));
    }
}

/// Create (or replace) the channel called `name`, with no subscribers.
pub fn create(table: &mut ChannelTable, name: String) -> (id: ChannelId)
    requires
        old(table).wf(),
    ensures
        final(table).wf(),
        id == old(table).next_id(),
        final(table).next_id() == (if id == u64::MAX { 0 } else { id + 1 }),
        ({
            let cv = ChannelView { id, name: name@, subscribers: Seq::empty() };
            let k = find_channel(old(table).view(), name@);
            final(table).view() == if k == -1 {
                old(table).view().push(cv)
            } else {
                old(table).view().update(k, cv)
            }
        }),
{
    let id = table.next_channel_id;
    table.next_channel_id = table.next_channel_id.wrapping_add(1);
    let ghost n = name@;
    let found = table.lookup(name.as_str());
    let channel = Channel { id, name, subscribers: Vec::new() };
    let ghost cv = channel@;
    assert(cv.subscribers =~= Seq::<(TaskId, CapId)>::empty());
    match found {
        Some(i) => {
            table.replace(i, channel);
            proof {
                let v = table.view();
                assert forall|a: int, b: int| 0 <= a < b < v.len() implies v[a].name != v[b].name by {
                    let o = old(table).view();
                    if a == i {
                        assert(o[a].name == n);
                    } else if b == i {
                        assert(o[b].name == n);
                    }
                }
                assert forall|k: int| 0 <= k < v.len() implies subscribers_unique(#[trigger] v[k].subscribers) by {
                    if k != i {
                        assert(v[k] == old(table).view()[k]);
                    }
                }
            }
        },
        None => {
            table.channels.push(channel);
            proof {
                let v = table.view();
                let o = old(table).view();
                assert(v =~= o.push(cv));
                assert forall|a: int, b: int| 0 <= a < b < v.len() implies v[a].name != v[b].name by {
                    if b == o.len() {
                        assert(!(0 <= a < o.len() && o[a].name == n));
                    }
                }
                assert forall|k: int| 0 <= k < v.len() implies subscribers_unique(#[trigger] v[k].subscribers) by {
                    if k < o.len() {
                        assert(v[k] == o[k]);
                    }
                }
            }
        },
    }
    id
}

/// Subscribe `task_id` to the channel called `channel_name`; the task must hold SUBSCRIBE
/// on `cap_id`. Subscribing twice keeps one entry.
pub fn subscribe(
    table: &mut ChannelTable,
    channel_name: &str,
    task_id: TaskId,
    cap_id: CapId,
    caps: &CapabilityTable,
) -> (r: Result<(), IpcError>)
    requires
        old(table).wf(),
        caps.wf(),
    ensures
        final(table).wf(),
        final(table).next_id() == old(table).next_id(),
        validate_result(caps.caps(), cap_id as int, task_id, SUBSCRIBE_BIT) is Err ==> r
            == Err::<(), IpcError>(IpcError::CapabilityDenied) && final(table).view() == old(table).view(),
        validate_result(caps.caps(), cap_id as int, task_id, SUBSCRIBE_BIT) is Ok && find_channel(
            old(table).view(),
            channel_name@,
        ) == -1 ==> r == Err::<(), IpcError>(IpcError::RecipientNotFound) && final(table).view() == old(
            table,
        ).view(),
        validate_result(caps.caps(), cap_id as int, task_id, SUBSCRIBE_BIT) is Ok && find_channel(
            old(table).view(),
            channel_name@,
        ) != -1 ==> {
            let k = find_channel(old(table).view(), channel_name@);
            let c = old(table).view()[k];
            &&& r == Ok::<(), IpcError>(())
            &&& final(table).view() == old(table).view().update(
                k,
                ChannelView {
                    subscribers: if is_subscribed(c.subscribers, task_id) {
                        c.subscribers
                    } else {
                        c.subscribers.push((task_id, cap_id))
                    },
                    ..c
                },
            )
        },
{
    if caps.validate(cap_id, task_id, PermissionBits::subscribe()).is_err() {
        return Err(IpcError::CapabilityDenied);
    }
    let i = match table.lookup(channel_name) {
        Some(i) => i,
        None => return Err(IpcError::RecipientNotFound),
    };
    let mut ch = table.take_at(i);
    let ghost before = ch@;
    let mut present = false;
    let mut j: usize = 0;
    while j < ch.subscribers.len()
        invariant
            j <= ch.subscribers@.len(),
            ch@ == before,
            present == exists|x: int| 0 <= x < j && ch.subscribers@[x].0 == task_id,
        decreases ch.subscribers@.len() - j,
    {
        if ch.subscribers[j].0 == task_id {
            present = true;
        }
        j = j + 1;
    }
    if !present {
        ch.subscribers.push((task_id, cap_id));
    }
    let ghost after = ch@;
    table.put_at(i, ch);
    proof {
        let o = old(table).view();
        let v = table.view();
        assert(v =~= o.update(i as int, after));
        assert(subscribers_unique(o[i as int].subscribers));
        assert forall|k: int| 0 <= k < v.len() implies subscribers_unique(#[trigger] v[k].subscribers) by {
            if k != i {
                assert(v[k] == o[k]);
            }
        }
        assert forall|a: int, b: int| 0 <= a < b < v.len() implies v[a].name != v[b].name by {
            assert(v[a].name == o[a].name);
            assert(v[b].name == o[b].name);
        }
    }
    Ok(())
}

/// Remove `task_id` from the subscribers of the channel called `channel_name`.
pub fn unsubscribe(table: &mut ChannelTable, channel_name: &str, task_id: TaskId) -> (r: Result<
    (),
    IpcError,
>)
    requires
        old(table).wf(),
    ensures
        final(table).wf(),
        final(table).next_id() == old(table).next_id(),
        find_channel(old(table).view(), channel_name@) == -1 ==> r == Err::<(), IpcError>(
            IpcError::RecipientNotFound,
        ) && final(table).view() == old(table).view(),
        find_channel(old(table).view(), channel_name@) != -1 ==> {
            let k = find_channel(old(table).view(), channel_name@);
            let c = old(table).view()[k];
            &&& r == Ok::<(), IpcError>(())
            &&& final(table).view() == old(table).view().update(
                k,
                ChannelView { subscribers: without_task(c.subscribers, task_id), ..c },
            )
        },
{
    let i = match table.lookup(channel_name) {
        Some(i) => i,
        None => return Err(IpcError::RecipientNotFound),
    };
    let mut ch = table.take_at(i);
    let ghost before = ch@;
    let mut kept: Vec<(TaskId, CapId)> = Vec::new();
    let mut j: usize = 0;
    while j < ch.subscribers.len()
        invariant
            j <= ch.subscribers@.len(),
            ch@ == before,
            kept@ == without_task(ch.subscribers@.take(j as int), task_id),
            forall|a: int| 0 <= a < kept@.len() ==> #[trigger] kept@[a].0 != task_id,
            forall|a: int| 0 <= a < kept@.len() ==> exists|x: int| 0 <= x < j && ch.subscribers@[x] == #[trigger] kept@[a],
        decreases ch.subscribers@.len() - j,
    {
        let e = ch.subscribers[j];
        assert(ch.subscribers@.take(j + 1).drop_last() =~= ch.subscribers@.take(j as int));
        if e.0 != task_id {
            kept.push(e);
        }
        j = j + 1;
    }
    assert(ch.subscribers@.take(j as int) =~= ch.subscribers@);
    ch.subscribers = kept;
    let ghost after = ch@;
    table.put_at(i, ch);
    proof {
        let o = old(table).view();
        let v = table.view();
        assert(v =~= o.update(i as int, after));
        lemma_without_task_unique(before.subscribers, task_id);
        assert forall|k: int| 0 <= k < v.len() implies subscribers_unique(#[trigger] v[k].subscribers) by {
            if k != i {
                assert(v[k] == o[k]);
            }
        }
        assert forall|a: int, b: int| 0 <= a < b < v.len() implies v[a].name != v[b].name by {
            assert(v[a].name == o[a].name);
            assert(v[b].name == o[b].name);
        }
    }
    Ok(())
}

proof fn lemma_without_task_unique(s: Seq<(TaskId, CapId)>, t: TaskId)
    requires
        subscribers_unique(s),
    ensures
        subscribers_unique(without_task(s, t)),
        forall|a: int| 0 <= a < without_task(s, t).len() ==> exists|x: int| 0 <= x < s.len() && s[x] == #[trigger] without_task(s, t)[a],
    decreases s.len(),
{
    if s.len() > 0 {
        let p = s.drop_last();
        assert(subscribers_unique(p));
        lemma_without_task_unique(p, t);
        let w = without_task(p, t);
        assert forall|a: int| 0 <= a < w.len() implies exists|x: int| 0 <= x < s.len() && s[x] == #[trigger] w[a] by {
            let x = choose|x: int| 0 <= x < p.len() && p[x] == w[a];
            assert(s[x] == w[a]);
        }
        if s.last().0 != t {
            let w2 = w.push(s.last());
            assert forall|a: int, b: int| 0 <= a < b < w2.len() implies w2[a].0 != w2[b].0 by {
                if b == w.len() {
                    let x = choose|x: int| 0 <= x < p.len() && p[x] == w[a];
                    assert(s[x] == w[a]);
                    assert(x < s.len() - 1);
                }
            }
            assert forall|a: int| 0 <= a < w2.len() implies exists|x: int| 0 <= x < s.len() && s[x] == #[trigger] w2[a] by {
                if a == w.len() {
                    assert(s[s.len() - 1] == w2[a]);
                } else {
                    assert(w2[a] == w[a]);
                }
            }
        }
    }
}

/// Publish `payload` to every subscriber of the channel except the sender, who must hold
/// PUBLISH on `publish_cap`. Delivery is best effort; the result counts the recipients.
pub fn publish(
    table: &ChannelTable,
    channel_name: &str,
    sender: TaskId,
    payload: Vec<u8>,
    publish_cap: CapId,
    caps: &CapabilityTable,
    mailboxes: &mut Mailboxes,
) -> (r: Result<usize, IpcError>)
    requires
        table.wf(),
        caps.wf(),
    ensures
        validate_result(caps.caps(), publish_cap as int, sender, PUBLISH_BIT) is Err ==> r == Err::<
            usize,
            IpcError,
        >(IpcError::CapabilityDenied) && final(mailboxes)@ == old(mailboxes)@,
        validate_result(caps.caps(), publish_cap as int, sender, PUBLISH_BIT) is Ok && find_channel(
            table.view(),
            channel_name@,
        ) == -1 ==> r == Err::<usize, IpcError>(IpcError::RecipientNotFound) && final(mailboxes)@ == old(
            mailboxes,
        )@,
        validate_result(caps.caps(), publish_cap as int, sender, PUBLISH_BIT) is Ok && find_channel(
            table.view(),
            channel_name@,
        ) != -1 ==> {
            let c = table.view()[find_channel(table.view(), channel_name@)];
            let ts = recipients(c.subscribers, sender);
            &&& r == Ok::<usize, IpcError>(ts.len() as usize)
            &&& final(mailboxes)@ == deliver_all(old(mailboxes)@, ts, sender, payload@)
        },
{
    if caps.validate(publish_cap, sender, PermissionBits::publish()).is_err() {
        return Err(IpcError::CapabilityDenied);
    }
    let i = match table.lookup(channel_name) {
        Some(i) => i,
        None => return Err(IpcError::RecipientNotFound),
    };
    let subs = &table.channels[i].subscribers;
    let ghost c = table.view()[i as int];
    let mut targets: Vec<TaskId> = Vec::new();
    let mut j: usize = 0;
    while j < subs.len()
        invariant
            j <= subs@.len(),
            subs@ == c.subscribers,
            targets@ == recipients(subs@.take(j as int), sender),
            targets@.len() <= j,
        decreases subs@.len() - j,
    {
        assert(subs@.take(j + 1).drop_last() =~= subs@.take(j as int));
        if subs[j].0 != sender {
            targets.push(subs[j].0);
        }
        j = j + 1;
    }
    assert(subs@.take(j as int) =~= subs@);
    let count = targets.len();
    let mut k: usize = 0;
    while k < targets.len()
        invariant
            k <= targets@.len(),
            mailboxes@ == deliver_all(old(mailboxes)@, targets@.take(k as int), sender, payload@),
        decreases targets@.len() - k,
    {
        let t = targets[k];
        let msg = Message {
            id: MessageId(0),
            sender,
            recipient: t,
            msg_type: MessageType::Data,
            payload: payload.clone(),
            cap_transfer: None,
            reply_to: None,
        };
        assert(msg@ == published(sender, t, payload@));
        let _ = mailboxes.deliver(msg);
        assert(targets@.take(k + 1).drop_last() =~= targets@.take(k as int));
        k = k + 1;
    }
    assert(targets@.take(k as int) =~= targets@);
    Ok(count)
}

} // verus!
