//! System call handlers. Each takes what user space handed in as plain values (the bytes
//! behind a pointer, `None` for a null pointer) and the kernel state it acts on, and gives
//! back the value of the result register: negative on failure.
use vstd::prelude::*;
use crate::agent::{AgentId, AgentState};
use crate::agent::registry::AgentRegistry;
use crate::agent::lifecycle::kill;
use crate::agent::supervisor::killed;
use crate::agent::tree::reaches;
use crate::capability::{CapId, CapabilityTable};
use crate::capability::permissions::WRITE_BIT;
use crate::capability::table::validate_result;
use crate::ipc::MessageType;
use crate::ipc::message::{Mailboxes, send, send_outcome, receive};
use crate::storage::context_store::{ContextStore, agent_path, context_lookup};
use crate::storage::disk_format::utf8_str;
use crate::storage::oxide_fs::{OxideFs, slice_to_vec, file_at};
use crate::task::{TaskId, TaskState};
use crate::task::scheduler::{Scheduler, SchedView, with_state, spec_schedule};
use crate::timer::deadline::{DeadlineQueue, DeadlineEntry, queue_wf};
use vstd::utf8::{valid_utf8, decode_utf8};

verus! {

/// Longest text one `print` call writes.
pub const MAX_PRINT_LEN: usize = 4096;

/// Longest payload one IPC send carries.
pub const MAX_IPC_PAYLOAD: usize = 65536;

/// Longest storage key, in bytes.
pub const MAX_KEY_LEN: usize = 256;

/// Longest stored value, in bytes.
pub const MAX_VALUE_LEN: usize = 65536;

/// The number user space sees for an agent state.
pub open spec fn state_code(s: AgentState) -> i64 {
    match s {
        AgentState::Initializing => 0,
        AgentState::Running => 1,
        AgentState::Waiting => 2,
        AgentState::Suspended => 3,
        AgentState::Dead => 4,
    }
}

/// A key that is given, at most `MAX_KEY_LEN` bytes long and valid UTF-8.
pub open spec fn key_ok(key: Option<&[u8]>) -> bool {
    key matches Some(k) && k@.len() <= MAX_KEY_LEN && valid_utf8(k@)
}

/// A valid key and a value of at most `MAX_VALUE_LEN` bytes.
pub open spec fn set_args_ok(key: Option<&[u8]>, value: Option<&[u8]>) -> bool {
    &&& key_ok(key)
    &&& value matches Some(v) && v@.len() <= MAX_VALUE_LEN
}

/// The text to write for `print`: the bytes as a string when they are given, at most
/// `MAX_PRINT_LEN` long and valid UTF-8; `None` (the call returns -1) otherwise. The call
/// returns the length on success.
pub fn sys_print<'a>(data: Option<&'a [u8]>) -> (r: Option<&'a str>)
    ensures
        r is Some <==> (data matches Some(d) && d@.len() <= MAX_PRINT_LEN && valid_utf8(d@)),
        r matches Some(s) ==> (data matches Some(d) && s@ == decode_utf8(d@)),
{
    match data {
        None => None,
        Some(d) => {
            if d.len() > MAX_PRINT_LEN {
                return None;
            }
            let r = utf8_str(d);
            proof {
                if let Some(s) = r {
                    vstd::utf8::encode_utf8_decode_utf8(s@);
                }
            }
            r
        },
    }
}

/// The number of agents.
pub fn sys_agent_list(registry: &AgentRegistry) -> (r: i64)
    ensures
        r == registry.agents().len() as i64,
{
    let n = registry.count();
    n as i64
}

/// The state of agent `agent_id` as a number, -1 if there is none.
pub fn sys_agent_status(registry: &AgentRegistry, agent_id: AgentId) -> (r: i64)
    requires
        registry.wf(),
    ensures
        r == if registry.agents().contains_key(agent_id) {
            state_code(registry.agents()[agent_id].state)
        } else {
            -1i64
        },
{
    match registry.get(agent_id) {
        Some(agent) => match agent.state {
            AgentState::Initializing => 0,
            AgentState::Running => 1,
            AgentState::Waiting => 2,
            AgentState::Suspended => 3,
            AgentState::Dead => 4,
        },
        None => -1,
    }
}

/// Kill agent `agent_id` and every agent below it: 0, or -1 when there is no such agent.
pub fn sys_agent_kill(registry: &mut AgentRegistry, agent_id: AgentId) -> (r: i64)
    requires
        old(registry).wf(),
    ensures
        final(registry).wf(),
        killed(old(registry).agents(), final(registry).agents(), agent_id),
        !old(registry).agents().contains_key(agent_id) ==> r == -1 && *final(registry) == *old(registry),
        old(registry).agents().contains_key(agent_id) ==> r == 0
            && forall|y: AgentId, n: nat| #[trigger] reaches(old(registry).agents(), agent_id, y, n)
                ==> !final(registry).agents().contains_key(y),
{
    match kill(registry, agent_id) {
        Ok(()) => 0,
        Err(_) => -1,
    }
}

/// Send `payload` from `sender` to `recipient` as a data message: the message id, or -1
/// when the payload is missing or longer than `MAX_IPC_PAYLOAD` (nothing changes then) or
/// the send fails.
pub fn sys_ipc_send(
    sender: TaskId,
    recipient: TaskId,
    payload: Option<&[u8]>,
    cap_id: CapId,
    caps: &CapabilityTable,
    mailboxes: &mut Mailboxes,
    next_msg_id: &mut u64,
    sched: &mut Scheduler,
) -> (r: i64)
    requires
        caps.wf(),
    ensures
        final(sched).saved_contexts() == old(sched).saved_contexts(),
        final(sched).wf() == old(sched).wf(),
        match payload {
            Some(p) if p@.len() <= MAX_IPC_PAYLOAD => {
                &&& (validate_result(caps.caps(), cap_id as int, sender, WRITE_BIT) is Err ==> {
                    &&& r == -1
                    &&& final(mailboxes)@ == old(mailboxes)@
                    &&& *final(next_msg_id) == *old(next_msg_id)
                    &&& *final(sched) == *old(sched)
                })
                &&& (validate_result(caps.caps(), cap_id as int, sender, WRITE_BIT) is Ok ==> exists|res|
                    #[trigger] send_outcome(sender, recipient, MessageType::Data, p@, None, None, old(mailboxes)@,
                        final(mailboxes)@, *old(next_msg_id), *final(next_msg_id), old(sched).view(),
                        final(sched).view(), res)
                    && r == match res {
                        Ok(id) => id.0 as i64,
                        Err(_) => -1i64,
                    })
            },
            _ => {
                &&& r == -1
                &&& final(mailboxes)@ == old(mailboxes)@
                &&& *final(next_msg_id) == *old(next_msg_id)
                &&& *final(sched) == *old(sched)
            },
        },
{
    let p = match payload {
        Some(p) => p,
        None => return -1,
    };
    if p.len() > MAX_IPC_PAYLOAD {
        return -1;
    }
    let bytes = slice_to_vec(p);
    match send(sender, recipient, MessageType::Data, bytes, None, None, cap_id, caps, mailboxes, next_msg_id, sched) {
        Ok(id) => id.0 as i64,
        Err(_) => -1,
    }
}

/// Take the oldest message for `task_id`: 1 when there was one, 0 otherwise.
pub fn sys_ipc_receive(mailboxes: &mut Mailboxes, task_id: TaskId) -> (r: i64)
    ensures
        (old(mailboxes)@.contains_key(task_id) && old(mailboxes)@[task_id].len() > 0) ==> {
            &&& r == 1
            &&& final(mailboxes)@ == old(mailboxes)@.insert(task_id, old(mailboxes)@[task_id].drop_first())
        },
        !(old(mailboxes)@.contains_key(task_id) && old(mailboxes)@[task_id].len() > 0) ==> r == 0
            && final(mailboxes)@ == old(mailboxes)@,
{
    match receive(mailboxes, task_id) {
        Some(_) => 1,
        None => 0,
    }
}

/// Store `value` under `key` for `agent_id` at tick `now`: 0, or -1 (nothing changes)
/// when either is missing, the key is longer than `MAX_KEY_LEN` or not UTF-8, or the value
/// is longer than `MAX_VALUE_LEN`.
pub fn sys_storage_set(
    store: &mut ContextStore,
    fs: &mut OxideFs,
    agent_id: AgentId,
    key: Option<&[u8]>,
    value: Option<&[u8]>,
    now: u64,
) -> (r: i64)
    requires
        old(store).wf(),
        old(fs).wf(),
        old(fs).next_blob() < u64::MAX,
        old(fs).total() + MAX_VALUE_LEN <= u64::MAX,
    ensures
        final(store).wf(),
        final(fs).wf(),
        set_args_ok(key, value) ==> {
            &&& r == 0
            &&& file_at(*final(fs), agent_path(agent_id, decode_utf8(key.unwrap()@))) == Some(value.unwrap()@)
            &&& final(store).cached()[agent_id][decode_utf8(key.unwrap()@)] == value.unwrap()@
        },
        !set_args_ok(key, value) ==> {
            &&& r == -1
            &&& final(store).cached() == old(store).cached()
            &&& final(fs).entries() == old(fs).entries()
        },
{
    let (k, v) = match (key, value) {
        (Some(k), Some(v)) => (k, v),
        _ => return -1,
    };
    if k.len() > MAX_KEY_LEN || v.len() > MAX_VALUE_LEN {
        return -1;
    }
    let key_str = match utf8_str(k) {
        Some(s) => s,
        None => return -1,
    };
    proof {
        vstd::utf8::encode_utf8_decode_utf8(key_str@);
    }
    store.set(fs, agent_id, key_str, v, now);
    0
}

/// The length of the value of `key` for `agent_id`, or -1 when the key is missing, longer
/// than `MAX_KEY_LEN` or not UTF-8, or nothing is stored under it.
pub fn sys_storage_get(store: &ContextStore, fs: &OxideFs, agent_id: AgentId, key: Option<&[u8]>) -> (r: i64)
    requires
        store.wf(),
        fs.wf(),
    ensures
        !key_ok(key) ==> r == -1,
        key_ok(key) ==> {
            r == match context_lookup(*store, *fs, agent_id, decode_utf8(key.unwrap()@)) {
                Some(d) => d.len() as i64,
                None => -1i64,
            }
        },
{
    let k = match key {
        Some(k) => k,
        None => return -1,
    };
    if k.len() > MAX_KEY_LEN {
        return -1;
    }
    let key_str = match utf8_str(k) {
        Some(s) => s,
        None => return -1,
    };
    proof {
        vstd::utf8::encode_utf8_decode_utf8(key_str@);
    }
    match store.get(fs, agent_id, key_str) {
        Some(data) => data.len() as i64,
        None => -1,
    }
}

/// Put the running task to sleep for `ticks` ticks from `current_tick`: a wake-up at
/// `current_tick + ticks` is queued for it and it is marked blocked; with no running task
/// nothing changes. Always 0.
pub fn sys_sleep(
    ticks: u64,
    current_tick: u64,
    sched: &mut Scheduler,
    queue: &mut DeadlineQueue,
    next_callback: &mut u64,
) -> (r: i64)
    requires
        current_tick + ticks <= u64::MAX,
    ensures
        r == 0,
        final(sched).saved_contexts() == old(sched).saved_contexts(),
        final(sched).wf() == old(sched).wf(),
        queue_wf(old(queue).entries(), *old(next_callback)) && *old(next_callback) < u64::MAX
            ==> queue_wf(final(queue).entries(), *final(next_callback)),
        match old(sched).view().current {
            Some(t) => {
                &&& final(queue).entries() == old(queue).entries().push(
                    DeadlineEntry { deadline_tick: (current_tick + ticks) as u64, task_id: t.id, callback_id: *old(next_callback) },
                )
                &&& final(sched).view() == (SchedView { current: Some(with_state(t, TaskState::Blocked)), ..old(sched).view() })
            },
            None => {
                &&& final(queue).entries() == old(queue).entries()
                &&& *final(sched) == *old(sched)
                &&& *final(next_callback) == *old(next_callback)
            },
        },
{
    let deadline = current_tick + ticks;
    let task_id = match sched.current_task() {
        Some(t) => Some(t.id),
        None => None,
    };
    match task_id {
        Some(tid) => {
            let _ = queue.schedule(tid, deadline, next_callback);
            let _ = sched.block_current();
        },
        None => {},
    }
    0
}

/// A system call as decoded from the registers: its kind and arguments, the bytes behind
/// pointers already copied in (`None` for a null pointer).
pub enum Syscall<'a> {
    Exit(i32),
    Print(Option<&'a [u8]>),
    Yield,
    AgentList,
    AgentStatus(AgentId),
    AgentKill(AgentId),
    IpcSend { sender: TaskId, recipient: TaskId, payload: Option<&'a [u8]>, cap: CapId },
    IpcReceive(TaskId),
    StorageSet { agent: AgentId, key: Option<&'a [u8]>, value: Option<&'a [u8]> },
    StorageGet { agent: AgentId, key: Option<&'a [u8]> },
    Sleep(u64),
    Unknown(u64),
}

/// The kernel state the system calls act on.
pub struct KernelState {
    pub registry: AgentRegistry,
    pub caps: CapabilityTable,
    pub mailboxes: Mailboxes,
    pub next_msg_id: u64,
    pub sched: Scheduler,
    pub store: ContextStore,
    pub fs: OxideFs,
    pub deadlines: DeadlineQueue,
    pub next_callback: u64,
}

/// The state a system call may be made in.
pub open spec fn kernel_ready(k: KernelState, call: Syscall, now: u64) -> bool {
    &&& k.registry.wf()
    &&& k.caps.wf()
    &&& k.sched.wf()
    &&& k.store.wf()
    &&& k.fs.wf()
    &&& k.fs.next_blob() < u64::MAX
    &&& k.fs.total() + MAX_VALUE_LEN <= u64::MAX
    &&& (call matches Syscall::Sleep(t) ==> now + t <= u64::MAX)
}

/// Route a system call made at tick `now` to its handler and return the result register:
/// the handler's result, and -1 for an unknown call, which changes nothing. `Yield` and
/// `Exit` reschedule (the switch itself is the caller's); `Exit` first drops the running
/// task. For `Print` the result is the length of the text to write, or -1.
pub fn dispatch(k: &mut KernelState, call: Syscall, now: u64) -> (r: i64)
    requires
        kernel_ready(*old(k), call, now),
    ensures
        final(k).registry.wf(),
        final(k).sched.wf(),
        final(k).store.wf(),
        final(k).fs.wf(),
        match call {
            Syscall::Unknown(_) => r == -1 && *final(k) == *old(k),
            Syscall::Exit(_) => {
                &&& r == 0
                &&& final(k).sched.view() == spec_schedule(SchedView { current: None, ..old(k).sched.view() })
            },
            Syscall::Yield => r == 0 && final(k).sched.view() == spec_schedule(old(k).sched.view()),
            Syscall::Print(data) => r == if data matches Some(d) && d@.len() <= MAX_PRINT_LEN && valid_utf8(d@) {
                data.unwrap()@.len() as i64
            } else {
                -1i64
            },
            Syscall::AgentList => r == old(k).registry.agents().len() as i64,
            Syscall::AgentStatus(id) => r == if old(k).registry.agents().contains_key(id) {
                state_code(old(k).registry.agents()[id].state)
            } else {
                -1i64
            },
            Syscall::AgentKill(id) => {
                &&& killed(old(k).registry.agents(), final(k).registry.agents(), id)
                &&& r == if old(k).registry.agents().contains_key(id) { 0i64 } else { -1i64 }
            },
            Syscall::IpcSend { sender, recipient, payload, cap } => match payload {
                Some(p) if p@.len() <= MAX_IPC_PAYLOAD => {
                    &&& (validate_result(old(k).caps.caps(), cap as int, sender, WRITE_BIT) is Err ==> {
                        &&& r == -1
                        &&& final(k).mailboxes@ == old(k).mailboxes@
                    })
                    &&& (validate_result(old(k).caps.caps(), cap as int, sender, WRITE_BIT) is Ok ==> exists|res|
                        #[trigger] send_outcome(sender, recipient, MessageType::Data, p@, None, None,
                            old(k).mailboxes@, final(k).mailboxes@, old(k).next_msg_id, final(k).next_msg_id,
                            old(k).sched.view(), final(k).sched.view(), res)
                        && r == match res {
                            Ok(id) => id.0 as i64,
                            Err(_) => -1i64,
                        })
                },
                _ => r == -1 && final(k).mailboxes@ == old(k).mailboxes@,
            },
            Syscall::IpcReceive(t) => r == if old(k).mailboxes@.contains_key(t) && old(k).mailboxes@[t].len() > 0 {
                1i64
            } else {
                0i64
            },
            Syscall::StorageSet { agent, key, value } => r == if set_args_ok(key, value) { 0i64 } else { -1i64 },
            Syscall::StorageGet { agent, key } => r == if key_ok(key) {
                match context_lookup(old(k).store, old(k).fs, agent, decode_utf8(key.unwrap()@)) {
                    Some(d) => d.len() as i64,
                    None => -1i64,
                }
            } else {
                -1i64
            },
            Syscall::Sleep(_) => r == 0,
        },
{
    match call {
        Syscall::Exit(_) => {
            let _ = k.sched.kill_current();
            k.sched.schedule();
            0
        },
        Syscall::Print(data) => match sys_print(data) {
            Some(_) => {
                let d = data.unwrap();
                d.len() as i64
            },
            None => -1,
        },
        Syscall::Yield => {
            k.sched.schedule();
            0
        },
        Syscall::AgentList => sys_agent_list(&k.registry),
        Syscall::AgentStatus(id) => sys_agent_status(&k.registry, id),
        Syscall::AgentKill(id) => sys_agent_kill(&mut k.registry, id),
        Syscall::IpcSend { sender, recipient, payload, cap } => {
            let ghost k0 = *k;
            let r = sys_ipc_send(
                sender,
                recipient,
                payload,
                cap,
                &k.caps,
                &mut k.mailboxes,
                &mut k.next_msg_id,
                &mut k.sched,
            );
            proof {
                if payload is Some && payload.unwrap()@.len() <= MAX_IPC_PAYLOAD {
                    let p = payload.unwrap();
                    if validate_result(k0.caps.caps(), cap as int, sender, WRITE_BIT) is Ok {
                        let res = choose|res| #[trigger] send_outcome(sender, recipient, MessageType::Data, p@, None, None,
                            k0.mailboxes@, k.mailboxes@, k0.next_msg_id, k.next_msg_id,
                            k0.sched.view(), k.sched.view(), res)
                            && r == match res {
                                Ok(id) => id.0 as i64,
                                Err(_) => -1i64,
                            };
                        assert(send_outcome(sender, recipient, MessageType::Data, p@, None, None,
                            k0.mailboxes@, k.mailboxes@, k0.next_msg_id, k.next_msg_id,
                            k0.sched.view(), k.sched.view(), res));
                    }
                }
            }
            r
        },
        Syscall::IpcReceive(t) => sys_ipc_receive(&mut k.mailboxes, t),
        Syscall::StorageSet { agent, key, value } => sys_storage_set(&mut k.store, &mut k.fs, agent, key, value, now),
        Syscall::StorageGet { agent, key } => sys_storage_get(&k.store, &k.fs, agent, key),
        Syscall::Sleep(ticks) => sys_sleep(ticks, now, &mut k.sched, &mut k.deadlines, &mut k.next_callback),
        Syscall::Unknown(_) => -1,
    }
}

} // verus!
