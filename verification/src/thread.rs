//! Thread metadata and saved execution context.
//!
//! A thread is the schedulable execution unit of the kernel runtime. Processes
//! own resources; threads carry the saved CPU context and the start mode they
//! need to run within those resources.
use vstd::prelude::*;

use crate::process::ProcessId;

verus! {

/// Callee-saved register set captured by the cooperative context switcher.
#[derive(Clone, Copy, Debug, PartialEq, Eq, Structural)]
pub struct ThreadContext {
    pub rsp: u64,
    pub rbx: u64,
    pub rbp: u64,
    pub r12: u64,
    pub r13: u64,
    pub r14: u64,
    pub r15: u64,
}

impl ThreadContext {
    /// The all-zero register set.
    pub open spec fn spec_zeroed() -> Self {
        ThreadContext { rsp: 0, rbx: 0, rbp: 0, r12: 0, r13: 0, r14: 0, r15: 0 }
    }

    /// Returns a zeroed context suitable for bootstrap initialization.
    pub fn zeroed() -> (r: Self)
        ensures
            r == Self::spec_zeroed(),
    {
        ThreadContext { rsp: 0, rbx: 0, rbp: 0, r12: 0, r13: 0, r14: 0, r15: 0 }
    }
}

/// Scheduler-assigned identifier of a thread slot.
#[derive(Clone, Copy, Debug, PartialEq, Eq, Structural)]
pub struct ThreadId(pub usize);

/// Scheduler-visible lifecycle states of a thread.
#[derive(Clone, Copy, Debug, PartialEq, Eq, Structural)]
pub enum ThreadState {
    Runnable,
    Running,
    Blocked,
}

/// Why a blocked thread sleeps instead of remaining runnable.
#[derive(Clone, Copy, Debug, PartialEq, Eq, Structural)]
pub enum ThreadBlockReason {
    NotBlocked,
    WaitingForChild(ProcessId),
}

/// User-mode entry metadata prepared before the first ring transition.
#[derive(Clone, Copy, Debug, PartialEq, Eq, Structural)]
pub struct UserThreadStart {
    pub entry_point: u64,
    pub user_stack_top: u64,
}

/// How a newly created thread begins executing: a kernel routine, named by
/// the address the platform layer jumps to, or a first entry into ring 3.
#[derive(Clone, Copy, Debug, PartialEq, Eq, Structural)]
pub enum ThreadStart {
    Kernel(u64),
    User(UserThreadStart),
}

/// Scheduler-owned thread record.
#[derive(Clone, Copy)]
pub struct Thread {
    id: ThreadId,
    name: &'static str,
    process_id: ProcessId,
    start: ThreadStart,
    state: ThreadState,
    block_reason: ThreadBlockReason,
    wait_result: Option<usize>,
    context: ThreadContext,
    kernel_stack_top: u64,
}

impl Thread {
    pub closed spec fn spec_id(&self) -> ThreadId {
        self.id
    }

    pub closed spec fn spec_name(&self) -> &'static str {
        self.name
    }

    pub closed spec fn spec_process_id(&self) -> ProcessId {
        self.process_id
    }

    pub closed spec fn spec_start(&self) -> ThreadStart {
        self.start
    }

    pub closed spec fn spec_state(&self) -> ThreadState {
        self.state
    }

    pub closed spec fn spec_block_reason(&self) -> ThreadBlockReason {
        self.block_reason
    }

    pub closed spec fn spec_wait_result(&self) -> Option<usize> {
        self.wait_result
    }

    pub closed spec fn spec_context(&self) -> ThreadContext {
        self.context
    }

    pub closed spec fn spec_kernel_stack_top(&self) -> u64 {
        self.kernel_stack_top
    }

    /// Identity, owner, start mode and kernel stack agree with `other`.
    pub open spec fn same_setup(&self, other: &Self) -> bool {
        &&& self.spec_id() == other.spec_id()
        &&& self.spec_name() == other.spec_name()
        &&& self.spec_process_id() == other.spec_process_id()
        &&& self.spec_start() == other.spec_start()
        &&& self.spec_kernel_stack_top() == other.spec_kernel_stack_top()
    }

    /// Constructs a runnable thread record with an already prepared kernel
    /// stack and saved context.
    pub fn new(
        id: ThreadId,
        name: &'static str,
        process_id: ProcessId,
        start: ThreadStart,
        context: ThreadContext,
        kernel_stack_top: u64,
    ) -> (r: Self)
        ensures
            r.spec_id() == id,
            r.spec_name() == name,
            r.spec_process_id() == process_id,
            r.spec_start() == start,
            r.spec_state() == ThreadState::Runnable,
            r.spec_block_reason() == ThreadBlockReason::NotBlocked,
            r.spec_wait_result() is None,
            r.spec_context() == context,
            r.spec_kernel_stack_top() == kernel_stack_top,
    {
        Thread {
            id,
            name,
            process_id,
            start,
            state: ThreadState::Runnable,
            block_reason: ThreadBlockReason::NotBlocked,
            wait_result: None,
            context,
            kernel_stack_top,
        }
    }

    /// Returns the stable thread id of this slot.
    pub fn id(&self) -> (r: ThreadId)
        ensures
            r == self.spec_id(),
    {
        self.id
    }

    /// Returns the owning process of this thread.
    pub fn process_id(&self) -> (r: ProcessId)
        ensures
            r == self.spec_process_id(),
    {
        self.process_id
    }

    /// Returns the thread's start mode.
    pub fn start(&self) -> (r: ThreadStart)
        ensures
            r == self.spec_start(),
    {
        self.start
    }

    /// Returns the thread's current scheduler state.
    pub fn state(&self) -> (r: ThreadState)
        ensures
            r == self.spec_state(),
    {
        self.state
    }

    /// Updates the thread's scheduler state; nothing else changes.
    pub fn set_state(&mut self, state: ThreadState)
        ensures
            final(self).same_setup(&*old(self)),
            final(self).spec_context() == old(self).spec_context(),
            final(self).spec_state() == state,
            final(self).spec_block_reason() == old(self).spec_block_reason(),
            final(self).spec_wait_result() == old(self).spec_wait_result(),
    {
        self.state = state;
    }

    /// Marks the thread as blocked while it waits for a child to exit.
    pub fn block_for_child(&mut self, process_id: ProcessId)
        ensures
            final(self).same_setup(&*old(self)),
            final(self).spec_context() == old(self).spec_context(),
            final(self).spec_state() == ThreadState::Blocked,
            final(self).spec_block_reason() == ThreadBlockReason::WaitingForChild(process_id),
            final(self).spec_wait_result() == old(self).spec_wait_result(),
    {
        self.state = ThreadState::Blocked;
        self.block_reason = ThreadBlockReason::WaitingForChild(process_id);
    }

    /// Clears any blocking reason and makes the thread runnable again.
    pub fn wake(&mut self)
        ensures
            final(self).same_setup(&*old(self)),
            final(self).spec_context() == old(self).spec_context(),
            final(self).spec_state() == ThreadState::Runnable,
            final(self).spec_block_reason() == ThreadBlockReason::NotBlocked,
            final(self).spec_wait_result() == old(self).spec_wait_result(),
    {
        self.state = ThreadState::Runnable;
        self.block_reason = ThreadBlockReason::NotBlocked;
    }

    /// Stores the result the blocked thread observes when it resumes.
    pub fn set_wait_result(&mut self, status: usize)
        ensures
            final(self).same_setup(&*old(self)),
            final(self).spec_context() == old(self).spec_context(),
            final(self).spec_state() == old(self).spec_state(),
            final(self).spec_block_reason() == old(self).spec_block_reason(),
            final(self).spec_wait_result() == Some(status),
    {
        self.wait_result = Some(status);
    }

    /// Consumes the current wait result, if one exists.
    pub fn take_wait_result(&mut self) -> (r: Option<usize>)
        ensures
            r == old(self).spec_wait_result(),
            final(self).same_setup(&*old(self)),
            final(self).spec_context() == old(self).spec_context(),
            final(self).spec_state() == old(self).spec_state(),
            final(self).spec_block_reason() == old(self).spec_block_reason(),
            final(self).spec_wait_result() is None,
    {
        let result = self.wait_result;
        self.wait_result = None;
        result
    }

    /// The saved context the context switcher reads and writes.
    pub fn context_mut(&mut self) -> (r: &mut ThreadContext)
        ensures
            *r == old(self).spec_context(),
            final(self).same_setup(&*old(self)),
            final(self).spec_context() == *final(r),
            final(self).spec_state() == old(self).spec_state(),
            final(self).spec_block_reason() == old(self).spec_block_reason(),
            final(self).spec_wait_result() == old(self).spec_wait_result(),
    {
        &mut self.context
    }

    /// A copy of the saved context.
    pub fn context(&self) -> (r: ThreadContext)
        ensures
            r == self.spec_context(),
    {
        self.context
    }

    /// Returns the kernel stack top that is loaded into the TSS before this
    /// thread runs.
    pub fn kernel_stack_top(&self) -> (r: u64)
        ensures
            r == self.spec_kernel_stack_top(),
    {
        self.kernel_stack_top
    }
}

} // verus!
