use oxide_kernel::capability::{CapabilityTable, PermissionBits, ResourceRef};
use oxide_kernel::gpu::scheduler::{GpuScheduler, InferencePriority};
use oxide_kernel::ipc::message::{mailbox_len, receive, register_mailbox, send, Mailboxes};
use oxide_kernel::ipc::{IpcError, MessageType};
use oxide_kernel::memory::frame_allocator::BitmapFrameAllocator;
use oxide_kernel::task::scheduler::Scheduler;
use oxide_kernel::task::{Priority, Task};
use oxide_kernel::timer::clock::{millis, ms_to_ticks};
use oxide_kernel::timer::deadline::{schedule, tick, DeadlineQueue};

fn task(name: &str, p: Priority, next_id: &mut u64, frames: &mut BitmapFrameAllocator) -> Task {
    Task::new(name.to_string(), p, 0x1000, 0, next_id, frames)
}

fn frames() -> BitmapFrameAllocator {
    let mut f = BitmapFrameAllocator::new(128);
    f.mark_region_free(0, 128);
    f
}

#[test]
fn scheduler_runs_realtime_first_then_round_robin() {
    let mut f = frames();
    let mut next = 1u64;
    let mut s = Scheduler::new();
    s.spawn(task("a", Priority::Normal, &mut next, &mut f));
    s.spawn(task("b", Priority::Normal, &mut next, &mut f));
    s.spawn(task("rt", Priority::Realtime, &mut next, &mut f));
    s.schedule();
    assert_eq!(s.current_id(), 3);
    s.schedule();
    assert_eq!(s.current_id(), 3);
    assert_eq!(s.task_count(), 3);
    s.kill_current();
    s.schedule();
    assert_eq!(s.current_id(), 1);
    s.schedule();
    assert_eq!(s.current_id(), 2);
    s.schedule();
    assert_eq!(s.current_id(), 1);
}

#[test]
fn blocked_tasks_wait_until_unblocked() {
    let mut f = frames();
    let mut next = 1u64;
    let mut s = Scheduler::new();
    s.spawn(task("a", Priority::Normal, &mut next, &mut f));
    s.schedule();
    assert_eq!(s.block_current(), Some(1));
    s.schedule();
    assert_eq!(s.blocked_len(), 1);
    assert!(s.unblock(1));
    assert!(!s.unblock(1));
    assert_eq!(s.blocked_len(), 0);
}

#[test]
fn messages_need_a_send_capability_and_a_mailbox() {
    let mut caps = CapabilityTable::new();
    let cap = caps.create_root(1, ResourceRef::Agent(2), PermissionBits::write());
    let mut mb = Mailboxes::new();
    let mut next_msg = 1u64;
    let mut s = Scheduler::new();
    assert_eq!(send(1, 2, MessageType::Data, vec![1], None, None, cap, &caps, &mut mb, &mut next_msg, &mut s),
        Err(IpcError::RecipientNotFound));
    register_mailbox(&mut mb, 2);
    let id = send(1, 2, MessageType::Data, vec![1, 2], None, None, cap, &caps, &mut mb, &mut next_msg, &mut s).unwrap();
    // The refused delivery above already took message id 1.
    assert_eq!(id.0, 2);
    assert_eq!(mailbox_len(&mb, 2), 1);
    let m = receive(&mut mb, 2).unwrap();
    assert_eq!((m.sender, m.payload.clone()), (1, vec![1, 2]));
    assert!(receive(&mut mb, 2).is_none());
    assert_eq!(send(3, 2, MessageType::Data, vec![], None, None, cap, &caps, &mut mb, &mut next_msg, &mut s),
        Err(IpcError::CapabilityDenied));
}

#[test]
fn clock_conversions() {
    assert_eq!(millis(250, 100), 2500);
    assert_eq!(ms_to_ticks(1500, 100), 150);
}

#[test]
fn deadlines_fire_in_order() {
    let mut f = frames();
    let mut next = 1u64;
    let mut s = Scheduler::new();
    s.spawn(task("a", Priority::Normal, &mut next, &mut f));
    s.schedule();
    assert_eq!(s.block_current(), Some(1));
    s.schedule();
    assert_eq!(s.blocked_len(), 1);
    let mut q = DeadlineQueue::new();
    let mut cb = 1u64;
    schedule(&mut q, 1, 50, &mut cb);
    schedule(&mut q, 1, 10, &mut cb);
    assert_eq!(q.pending_count(), 2);
    tick(&mut q, 20, &mut s);
    assert_eq!(q.pending_count(), 1);
    assert_eq!(s.blocked_len(), 0);
}

#[test]
fn gpu_requests_by_priority_then_age() {
    let mut g = GpuScheduler::new();
    let mut next = 1u64;
    g.submit(1, "m".to_string(), InferencePriority::Batch, None, 5, &mut next);
    g.submit(2, "m".to_string(), InferencePriority::Urgent, None, 6, &mut next);
    g.submit(3, "m".to_string(), InferencePriority::Urgent, None, 7, &mut next);
    assert_eq!(g.dequeue().unwrap().agent_id, 2);
    assert_eq!(g.dequeue().unwrap().agent_id, 3);
    assert_eq!(g.dequeue().unwrap().agent_id, 1);
    assert!(g.dequeue().is_none());
}
