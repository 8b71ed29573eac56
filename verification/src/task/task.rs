//! Tasks of the cooperative scheduler.
use vstd::prelude::*;

verus! {

/// Size in bytes of a task's stack.
pub const STACK_CAPACITY: usize = 16384;

#[derive(Clone, Copy, Debug, PartialEq, Eq, Structural)]
pub enum State {
    Ready,
    Running,
    Waiting,
}

pub struct Task {
    pub id: u8,
    pub state: State,
    pub saved_stack_pointer: usize,
    pub stack: Vec<u8>,
    /// The tick at which a waiting task becomes ready again (0: none).
    pub wake_on_tick: u64,
}

/// The registers saved on a task's stack when it is switched out.
#[derive(Debug, Clone, Copy)]
pub struct Registers {
    pub r15: u64,
    pub r14: u64,
    pub r13: u64,
    pub r12: u64,
    pub r11: u64,
    pub r10: u64,
    pub r9: u64,
    pub r8: u64,
    pub rdi: u64,
    pub rsi: u64,
    pub rbp: u64,
    pub rbx: u64,
    pub rdx: u64,
    pub rcx: u64,
    pub rax: u64,
    pub rip: u64,
    pub cs: u64,
    pub rflags: u64,
    pub rsp: u64,
    pub ss: u64,
}

impl Registers {
    /// The registers a new task starts with: entry point, kernel code segment, interrupts
    /// enabled, stack pointer at the top of its stack; all others zero.
    pub fn initial(entry_point: u64, stack_top: u64) -> (r: Self)
        ensures
            r.rip == entry_point && r.cs == 8 && r.rflags == 0x202 && r.rsp == stack_top && r.ss == 0,
            r.rax == 0 && r.rbx == 0 && r.rcx == 0 && r.rdx == 0 && r.rsi == 0 && r.rdi == 0 && r.rbp == 0,
            r.r8 == 0 && r.r9 == 0 && r.r10 == 0 && r.r11 == 0 && r.r12 == 0 && r.r13 == 0 && r.r14 == 0 && r.r15 == 0,
    {
        Registers {
            r15: 0,
            r14: 0,
            r13: 0,
            r12: 0,
            r11: 0,
            r10: 0,
            r9: 0,
            r8: 0,
            rdi: 0,
            rsi: 0,
            rbp: 0,
            rbx: 0,
            rdx: 0,
            rcx: 0,
            rax: 0,
            rip: entry_point,
            cs: 8,
            rflags: 0x202,
            rsp: stack_top,
            ss: 0,
        }
    }
}

} // verus!
