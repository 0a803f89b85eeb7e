//! User-space processes and the frame that enters ring 3.
use vstd::prelude::*;
use crate::task::TaskId;
use crate::capability::CapId;

verus! {

/// Ring-3 code segment selector (GDT index 3).
pub const USER_CODE_SELECTOR: u16 = 0x1B;
/// Ring-3 data segment selector (GDT index 4).
pub const USER_DATA_SELECTOR: u16 = 0x23;
/// Top of a process's user stack, below the kernel half.
pub const USER_STACK_TOP: u64 = 0x0000_7FFF_FFFF_F000;
/// RFLAGS on entry: interrupts enabled.
pub const USER_RFLAGS: u64 = 0x200;

#[derive(Debug)]
pub struct Process {
    pub pid: TaskId,
    pub name: String,
    pub capabilities: Vec<CapId>,
    pub entry_point: u64,
    pub user_stack_top: u64,
}

/// The `iretq` frame that enters ring 3: instruction pointer, code segment, flags, stack
/// pointer, stack segment.
#[derive(Debug, Clone, Copy, PartialEq, Eq)]
pub struct UserModeFrame {
    pub rip: u64,
    pub cs: u64,
    pub rflags: u64,
    pub rsp: u64,
    pub ss: u64,
}

impl Process {
    pub fn new(pid: TaskId, name: String, entry_point: u64) -> (p: Self)
        ensures
            p.pid == pid,
            p.name == name,
            p.capabilities@ == Seq::<CapId>::empty(),
            p.entry_point == entry_point,
            p.user_stack_top == USER_STACK_TOP,
    {
        Process { pid, name, capabilities: Vec::new(), entry_point, user_stack_top: USER_STACK_TOP }
    }

    /// The frame `iretq` pops to start this process in ring 3.
    pub fn usermode_frame(&self) -> (f: UserModeFrame)
        ensures
            f == (UserModeFrame {
                rip: self.entry_point,
                cs: USER_CODE_SELECTOR as u64,
                rflags: USER_RFLAGS,
                rsp: self.user_stack_top,
                ss: USER_DATA_SELECTOR as u64,
            }),
    {
        UserModeFrame {
            rip: self.entry_point,
            cs: USER_CODE_SELECTOR as u64,
            rflags: USER_RFLAGS,
            rsp: self.user_stack_top,
            ss: USER_DATA_SELECTOR as u64,
        }
    }
}

} // verus!
