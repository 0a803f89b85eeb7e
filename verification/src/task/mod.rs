pub mod context;
pub mod scheduler;

use vstd::prelude::*;
use context::CpuContext;
use crate::memory::PAGE_SIZE;
use crate::memory::frame_allocator::{BitmapFrameAllocator, frames_free};

verus! {

/// Identifier of a kernel task; agents share this id space.
pub type TaskId = u64;

#[derive(Debug, Clone, Copy, PartialEq, Eq, Structural)]
pub enum TaskState {
    Ready,
    Running,
    Blocked,
    Dead,
}

/// Scheduling class: of each round of seven turns `Realtime` is preferred in four, `Normal`
/// in two and `Background` in one.
#[derive(Debug, Clone, Copy, PartialEq, Eq, Structural)]
pub enum Priority {
    Realtime,
    Normal,
    Background,
}

/// Index of the ready queue of a priority (0 is served first).
pub open spec fn priority_index(p: Priority) -> int {
    match p {
        Priority::Realtime => 0,
        Priority::Normal => 1,
        Priority::Background => 2,
    }
}

impl Priority {
    /// Index of the ready queue of this priority.
    pub fn index(self) -> (i: usize)
        ensures
            i == priority_index(self),
    {
        match self {
            Priority::Realtime => 0,
            Priority::Normal => 1,
            Priority::Background => 2,
        }
    }
}

/// Pages of a kernel stack.
pub const KERNEL_STACK_PAGES: u64 = 4;

/// Bytes of a kernel stack (16 KiB).
pub const KERNEL_STACK_SIZE: u64 = 16384;

#[derive(Debug)]
pub struct Task {
    pub id: TaskId,
    pub name: String,
    pub state: TaskState,
    pub priority: Priority,
    pub context: CpuContext,
    pub kernel_stack_bottom: u64,
    pub kernel_stack_top: u64,
}

/// Index of the first physical frame of the kernel stack of `t`.
pub open spec fn stack_frame(t: Task, hhdm_offset: u64) -> int {
    (t.kernel_stack_bottom - hhdm_offset) / (PAGE_SIZE as int)
}

/// Frames taken for a kernel stack: a guard frame, then the stack's own frames.
pub const STACK_RUN_FRAMES: usize = 5;

impl Task {
    /// Create a ready task that starts at `entry`, with the id taken from `next_id`. Its
    /// kernel stack is four contiguous frames (16 KiB) addressed through the direct map at
    /// `hhdm_offset`; the frame just below is taken too and left unused, as the guard page
    /// that the page tables leave unmapped so that an overflow faults. The frames are the
    /// first run of five contiguous free frames.
    pub fn new(
        name: String,
        priority: Priority,
        entry: u64,
        hhdm_offset: u64,
        next_id: &mut u64,
        frames: &mut BitmapFrameAllocator,
    ) -> (t: Self)
        requires
            *old(next_id) < u64::MAX,
            old(frames).wf(),
            exists|s: int| frames_free(*old(frames), s, STACK_RUN_FRAMES as int),
            hhdm_offset + old(frames).total() * PAGE_SIZE <= u64::MAX,
        ensures
            t.id == *old(next_id),
            *final(next_id) == *old(next_id) + 1,
            t.name == name,
            t.state == TaskState::Ready,
            t.priority == priority,
            t.kernel_stack_top == t.kernel_stack_bottom + KERNEL_STACK_SIZE,
            t.kernel_stack_bottom >= hhdm_offset,
            (t.kernel_stack_bottom - hhdm_offset) % (PAGE_SIZE as int) == 0,
            frames_free(*old(frames), stack_frame(t, hhdm_offset) - 1, STACK_RUN_FRAMES as int),
            forall|s: int| 0 <= s < stack_frame(t, hhdm_offset) - 1
                ==> !frames_free(*old(frames), s, STACK_RUN_FRAMES as int),
            forall|j: int| 0 <= j < final(frames).bit_len() ==> #[trigger] final(frames).is_used(j)
                == ((stack_frame(t, hhdm_offset) - 1 <= j < stack_frame(t, hhdm_offset) + KERNEL_STACK_PAGES)
                || old(frames).is_used(j)),
            t.context == (CpuContext {
                rsp: t.kernel_stack_top,
                rbp: 0,
                rbx: 0,
                r12: 0,
                r13: 0,
                r14: 0,
                r15: 0,
                rip: entry,
            }),
            final(frames).wf(),
            final(frames).total() == old(frames).total(),
            final(frames).free_count() + STACK_RUN_FRAMES == old(frames).free_count(),
    {
        let id = *next_id;
        *next_id = *next_id + 1;
        let guard = match frames.allocate_run(STACK_RUN_FRAMES) {
            Some(g) => g,
            None => {
                assert(false);
                0
            },
        };
        proof {
            frames.lemma_bit_len();
            assert(guard + STACK_RUN_FRAMES <= frames.total());
            assert((guard + 1) * 4096 + 16384 <= frames.total() * 4096) by (nonlinear_arith)
                requires
                    guard + 5 <= frames.total(),
            ;
        }
        let stack_phys = (guard as u64 + 1) * PAGE_SIZE;
        let stack_bottom = stack_phys + hhdm_offset;
        let stack_top = stack_bottom + KERNEL_STACK_SIZE;
        let context = CpuContext {
            rsp: stack_top,
            rbp: 0,
            rbx: 0,
            r12: 0,
            r13: 0,
            r14: 0,
            r15: 0,
            rip: entry,
        };
        let t = Task {
            id,
            name,
            state: TaskState::Ready,
            priority,
            context,
            kernel_stack_bottom: stack_bottom,
            kernel_stack_top: stack_top,
        };
        assert(stack_frame(t, hhdm_offset) == guard + 1) by (nonlinear_arith)
            requires
                t.kernel_stack_bottom - hhdm_offset == (guard + 1) * 4096,
                PAGE_SIZE == 4096,
        ;
        t
    }
}

} // verus!
