//! Cooperative scheduler state: process and thread tables, round-robin thread
//! selection, child-process launch, waiting and exit.
//!
//! Every operation is a state transition that returns what the platform layer
//! has to do next (which address space and kernel stack to activate, which
//! saved contexts to switch between); the platform performs the switch.
use vstd::prelude::*;
use vstd::string::StringSliceAdditionalSpecFns;

use crate::env::{key_error, lookup, EnvironmentError, MAX_ENV_VALUE_LEN, MAX_ENV_VARS};
use crate::io::{HandleId, KernelObject, StdioHandles};
use crate::memory::types::{AddressSpace, LoadedUserProgram, OwnedPages};
use crate::process::{env_listing, install_all, valid_cwd, Process, ProcessExitAction, ProcessId, ProcessState};
use crate::terminal::{TerminalEndpoint, TERMINAL_OUTPUT_CAPACITY};
use crate::thread::{Thread, ThreadContext, ThreadId, ThreadStart, ThreadState, UserThreadStart, ThreadBlockReason};

verus! {

pub const MAX_PROCESSES: usize = 8;
pub const MAX_THREADS: usize = 12;
pub const THREAD_STACK_SIZE: usize = 0x1_0000;

/// First empty slot of a table.
pub open spec fn first_empty<T>(slots: Seq<Option<T>>) -> Option<int> {
    if exists|i: int| 0 <= i < slots.len() && #[trigger] slots[i] is None {
        Some(choose|i: int| 0 <= i < slots.len() && #[trigger] slots[i] is None
            && forall|j: int| 0 <= j < i ==> slots[j] is Some)
    } else {
        None
    }
}

fn find_empty<T>(slots: &Vec<Option<T>>) -> (r: Option<usize>)
    ensures
        match first_empty(slots@) {
            Some(i) => r == Some(i as usize),
            None => r is None,
        },
{
    let mut index: usize = 0;
    while index < slots.len()
        invariant
            index <= slots@.len(),
            forall|j: int| 0 <= j < index ==> #[trigger] slots@[j] is Some,
        decreases slots@.len() - index,
    {
        if slots[index].is_none() {
            proof {
                let w = choose|i: int| 0 <= i < slots@.len() && #[trigger] slots@[i] is None
                    && forall|j: int| 0 <= j < i ==> slots@[j] is Some;
                if w < index {
                    assert(slots@[w] is Some);
                } else if w > index {
                    assert(slots@[index as int] is Some);
                }
            }
            return Some(index);
        }
        index += 1;
    }
    None
}

/// Process creation inputs.
pub struct ProcessConfig {
    pub name: &'static str,
    pub address_space: AddressSpace,
    /// Whether the process' stdio is bound to the terminal session.
    pub terminal_endpoint: bool,
    pub owned_pages: OwnedPages,
    pub exit_action: ProcessExitAction,
}

/// Child process launch failures surfaced to userspace.
#[derive(Clone, Copy, Debug, PartialEq, Eq, Structural)]
pub enum SpawnError {
    InvalidPath,
    FileNotFound,
    InvalidExecutable,
    ResourceUnavailable,
}

/// Failures of the current-process environment services.
#[derive(Clone, Copy, Debug, PartialEq, Eq, Structural)]
pub enum EnvironmentAccessError {
    InvalidKey,
    NotFound,
    BufferTooSmall,
    KeyTooLong,
    ValueTooLong,
    CapacityExceeded,
    ResourceUnavailable,
}

/// The service error an environment error is reported as.
pub open spec fn spec_map_environment_error(error: EnvironmentError) -> EnvironmentAccessError {
    match error {
        EnvironmentError::InvalidKey => EnvironmentAccessError::InvalidKey,
        EnvironmentError::KeyTooLong => EnvironmentAccessError::KeyTooLong,
        EnvironmentError::ValueTooLong => EnvironmentAccessError::ValueTooLong,
        EnvironmentError::CapacityExceeded => EnvironmentAccessError::CapacityExceeded,
    }
}

pub fn map_environment_error(error: EnvironmentError) -> (r: EnvironmentAccessError)
    ensures
        r == spec_map_environment_error(error),
{
    match error {
        EnvironmentError::InvalidKey => EnvironmentAccessError::InvalidKey,
        EnvironmentError::KeyTooLong => EnvironmentAccessError::KeyTooLong,
        EnvironmentError::ValueTooLong => EnvironmentAccessError::ValueTooLong,
        EnvironmentError::CapacityExceeded => EnvironmentAccessError::CapacityExceeded,
    }
}

/// What the platform activates before a thread runs.
#[derive(Clone, Copy)]
pub struct ThreadActivation {
    pub thread_id: ThreadId,
    pub kernel_stack_top: u64,
    pub address_space: AddressSpace,
}

/// A switch from the current thread to the next: save into `current`'s
/// context, activate the address space and stack, resume `next`.
#[derive(Clone, Copy)]
pub struct PreparedSwitch {
    pub current: ThreadId,
    pub next: ThreadId,
    pub next_space: AddressSpace,
    pub next_stack_top: u64,
}

/// Outcome of the current process exiting: the pages it owned, and either the
/// thread to resume or a request to shut the system down.
pub enum ProcessExit {
    Switch { next: ThreadId, next_space: AddressSpace, next_stack_top: u64, released_pages: OwnedPages },
    Shutdown { released_pages: OwnedPages },
}

/// Whether a thread may be picked to run.
pub open spec fn is_runnable(thread: Option<Thread>) -> bool {
    match thread {
        Some(t) => t.spec_state() == ThreadState::Runnable || t.spec_state() == ThreadState::Running,
        None => false,
    }
}

/// Round-robin search over slots `start + offset, start + offset + 1, ...`
/// (wrapping) for a runnable thread that is not the idle thread.
pub open spec fn round_robin_from(threads: Seq<Option<Thread>>, idle: Option<ThreadId>, start: int, offset: int) -> Option<int>
    decreases threads.len() - offset,
{
    if offset >= threads.len() || offset < 0 {
        None
    } else {
        let i = (start + offset) % (threads.len() as int);
        if is_runnable(threads[i]) && idle != Some(ThreadId(i as usize)) {
            Some(i)
        } else {
            round_robin_from(threads, idle, start, offset + 1)
        }
    }
}

/// The thread to run after `current` in a thread table.
pub open spec fn next_runnable_in(threads: Seq<Option<Thread>>, idle: Option<ThreadId>, current: Option<ThreadId>) -> Option<ThreadId> {
    match round_robin_from(threads, idle, match current { Some(t) => (t.0 + 1) % (MAX_THREADS as int), None => 0 }, 0) {
        Some(i) => Some(ThreadId(i as usize)),
        None => match idle {
            Some(idle) => if is_runnable(threads[idle.0 as int]) { Some(idle) } else { None },
            None => None,
        },
    }
}

/// What ending the current process with `status` comes to, from `before`
/// to `after`, with `r` what the platform does next.
pub open spec fn exit_outcome(before: Scheduler, after: Scheduler, status: usize, r: Option<ProcessExit>) -> bool {
    match before.spec_current() {
        None => r is None && after == before,
        Some(c) => {
            let pid = before.thread_at(c).spec_process_id();
            let process = before.process_at(pid);
            let threads = before.spec_threads().update(c.0 as int, None);
            &&& after.spec_processes() == before.spec_processes().update(pid.0 as int, None)
            &&& after.spec_threads()[c.0 as int] is None
            &&& match r {
                Some(ProcessExit::Shutdown { released_pages }) => {
                    &&& process.spec_exit_action() == ProcessExitAction::ShutdownSystem
                    &&& released_pages@ == process.spec_owned_pages()
                    &&& after.spec_current() is None
                    &&& after.spec_threads() == threads
                },
                Some(ProcessExit::Switch { next, next_space, next_stack_top, released_pages }) => {
                    &&& process.spec_exit_action() == ProcessExitAction::Continue
                    &&& released_pages@ == process.spec_owned_pages()
                    &&& after.spec_current() == Some(next)
                    &&& after.thread_at(next).spec_state() == ThreadState::Running
                    &&& next_stack_top == after.thread_at(next).spec_kernel_stack_top()
                    &&& next_space == after.process_at(after.thread_at(next).spec_process_id()).spec_address_space()
                    &&& match process.spec_waiting_thread() {
                        Some(w) => next == w
                            && after.thread_at(w).spec_wait_result() == Some(status)
                            && after.thread_at(w).spec_block_reason() == ThreadBlockReason::NotBlocked,
                        None => Some(next) == next_runnable_in(threads, before.spec_idle(), Some(c)),
                    }
                    &&& forall|i: int| 0 <= i < MAX_THREADS && i != c.0 && i != next.0 ==>
                        #[trigger] after.spec_threads()[i] == before.spec_threads()[i]
                },
                None => {
                    &&& process.spec_exit_action() == ProcessExitAction::Continue
                    &&& process.spec_waiting_thread() is None
                    &&& next_runnable_in(threads, before.spec_idle(), Some(c)) is None
                    &&& after.spec_current() is None
                    &&& after.spec_threads() == threads
                },
            }
        },
    }
}

/// The scheduler tables.
pub struct Scheduler {
    processes: Vec<Option<Process>>,
    threads: Vec<Option<Thread>>,
    current_thread: Option<ThreadId>,
    idle_thread: Option<ThreadId>,
    bootstrap_context: ThreadContext,
    stack_base: u64,
}

impl Scheduler {
    pub closed spec fn spec_processes(&self) -> Seq<Option<Process>> {
        self.processes@
    }

    pub closed spec fn spec_threads(&self) -> Seq<Option<Thread>> {
        self.threads@
    }

    pub closed spec fn spec_current(&self) -> Option<ThreadId> {
        self.current_thread
    }

    pub closed spec fn spec_idle(&self) -> Option<ThreadId> {
        self.idle_thread
    }

    pub closed spec fn spec_stack_base(&self) -> u64 {
        self.stack_base
    }

    /// Slot `id` holds a thread.
    pub open spec fn has_thread(&self, id: ThreadId) -> bool {
        id.0 < self.spec_threads().len() && self.spec_threads()[id.0 as int] is Some
    }

    /// Slot `id` holds a process.
    pub open spec fn has_process(&self, id: ProcessId) -> bool {
        id.0 < self.spec_processes().len() && self.spec_processes()[id.0 as int] is Some
    }

    pub open spec fn thread_at(&self, id: ThreadId) -> Thread {
        self.spec_threads()[id.0 as int].unwrap()
    }

    pub open spec fn process_at(&self, id: ProcessId) -> Process {
        self.spec_processes()[id.0 as int].unwrap()
    }

    /// The process the current thread belongs to.
    pub open spec fn current_process(&self) -> Option<ProcessId> {
        match self.spec_current() {
            Some(t) => Some(self.thread_at(t).spec_process_id()),
            None => None,
        }
    }

    /// The thread to run after `current`: round robin over the non-idle
    /// threads, falling back to the idle thread.
    pub open spec fn spec_next_runnable(&self, current: Option<ThreadId>) -> Option<ThreadId> {
        next_runnable_in(self.spec_threads(), self.spec_idle(), current)
    }

    pub open spec fn wf(&self) -> bool {
        &&& self.spec_processes().len() == MAX_PROCESSES
        &&& self.spec_threads().len() == MAX_THREADS
        &&& forall|i: int| 0 <= i < MAX_PROCESSES && #[trigger] self.spec_processes()[i] is Some ==>
            self.spec_processes()[i].unwrap().wf() && self.spec_processes()[i].unwrap().spec_id() == ProcessId(i as usize)
        &&& forall|i: int| 0 <= i < MAX_THREADS && #[trigger] self.spec_threads()[i] is Some ==>
            self.spec_threads()[i].unwrap().spec_id() == ThreadId(i as usize)
            && self.has_process(self.spec_threads()[i].unwrap().spec_process_id())
        &&& self.spec_current() is Some ==> self.has_thread(self.spec_current().unwrap())
        &&& self.spec_idle() is Some ==> self.spec_idle().unwrap().0 < MAX_THREADS
        &&& self.spec_stack_base() as int + MAX_THREADS * THREAD_STACK_SIZE <= u64::MAX
    }
}


impl Scheduler {
    /// Empty tables; thread `i`'s kernel stack occupies
    /// `[stack_base + i * THREAD_STACK_SIZE, stack_base + (i + 1) * THREAD_STACK_SIZE)`.
    pub fn new(stack_base: u64) -> (r: Self)
        requires
            stack_base as int + MAX_THREADS * THREAD_STACK_SIZE <= u64::MAX,
        ensures
            r.wf(),
            r.spec_stack_base() == stack_base,
            forall|i: int| 0 <= i < MAX_PROCESSES ==> #[trigger] r.spec_processes()[i] is None,
            forall|i: int| 0 <= i < MAX_THREADS ==> #[trigger] r.spec_threads()[i] is None,
            r.spec_current() is None,
            r.spec_idle() is None,
    {
        let mut processes: Vec<Option<Process>> = Vec::new();
        while processes.len() < MAX_PROCESSES
            invariant
                processes@.len() <= MAX_PROCESSES,
                forall|i: int| 0 <= i < processes@.len() ==> #[trigger] processes@[i] is None,
            decreases MAX_PROCESSES - processes@.len(),
        {
            processes.push(None);
        }
        let mut threads: Vec<Option<Thread>> = Vec::new();
        while threads.len() < MAX_THREADS
            invariant
                threads@.len() <= MAX_THREADS,
                forall|i: int| 0 <= i < threads@.len() ==> #[trigger] threads@[i] is None,
            decreases MAX_THREADS - threads@.len(),
        {
            threads.push(None);
        }
        Scheduler {
            processes,
            threads,
            current_thread: None,
            idle_thread: None,
            bootstrap_context: ThreadContext::zeroed(),
            stack_base,
        }
    }

    /// Forgets every process and thread.
    pub fn reset(&mut self)
        requires
            old(self).wf(),
        ensures
            final(self).wf(),
            final(self).spec_stack_base() == old(self).spec_stack_base(),
            forall|i: int| 0 <= i < MAX_PROCESSES ==> #[trigger] final(self).spec_processes()[i] is None,
            forall|i: int| 0 <= i < MAX_THREADS ==> #[trigger] final(self).spec_threads()[i] is None,
            final(self).spec_current() is None,
            final(self).spec_idle() is None,
    {
        *self = Scheduler::new(self.stack_base);
    }

    /// The thread that runs now.
    pub fn current_thread(&self) -> (r: Option<ThreadId>)
        ensures
            r == self.spec_current(),
    {
        self.current_thread
    }

    /// Makes `thread_id` the fallback that runs when nothing else can.
    pub fn set_idle_thread(&mut self, thread_id: ThreadId)
        requires
            old(self).wf(),
            thread_id.0 < MAX_THREADS,
        ensures
            final(self).wf(),
            final(self).spec_idle() == Some(thread_id),
            final(self).spec_processes() == old(self).spec_processes(),
            final(self).spec_threads() == old(self).spec_threads(),
            final(self).spec_current() == old(self).spec_current(),
    {
        self.idle_thread = Some(thread_id);
    }

    /// The process in slot `process_id`.
    pub fn process(&self, process_id: ProcessId) -> (r: &Process)
        requires
            self.wf(),
            self.has_process(process_id),
        ensures
            *r == self.process_at(process_id),
            r.wf(),
    {
        self.processes[process_id.0].as_ref().unwrap()
    }

    /// The thread in slot `thread_id`.
    pub fn thread(&self, thread_id: ThreadId) -> (r: &Thread)
        requires
            self.wf(),
            self.has_thread(thread_id),
        ensures
            *r == self.thread_at(thread_id),
            r.spec_id() == thread_id,
            self.has_process(r.spec_process_id()),
    {
        self.threads[thread_id.0].as_ref().unwrap()
    }

    /// Saved context of a thread, or of the bootstrap flow when `None`.
    pub fn context(&self, thread_id: Option<ThreadId>) -> (r: ThreadContext)
        requires
            self.wf(),
            thread_id is Some ==> self.has_thread(thread_id.unwrap()),
        ensures
            thread_id is Some ==> r == self.thread_at(thread_id.unwrap()).spec_context(),
    {
        match thread_id {
            Some(id) => self.threads[id.0].as_ref().unwrap().context(),
            None => self.bootstrap_context,
        }
    }

    /// Records the registers a thread was suspended with.
    pub fn save_context(&mut self, thread_id: ThreadId, context: ThreadContext)
        requires
            old(self).wf(),
            old(self).has_thread(thread_id),
        ensures
            final(self).wf(),
            final(self).spec_processes() == old(self).spec_processes(),
            final(self).spec_current() == old(self).spec_current(),
            final(self).spec_idle() == old(self).spec_idle(),
            final(self).has_thread(thread_id),
            final(self).thread_at(thread_id).spec_context() == context,
            final(self).thread_at(thread_id).same_setup(&old(self).thread_at(thread_id)),
            final(self).thread_at(thread_id).spec_state() == old(self).thread_at(thread_id).spec_state(),
            final(self).thread_at(thread_id).spec_wait_result() == old(self).thread_at(thread_id).spec_wait_result(),
            forall|i: int| 0 <= i < MAX_THREADS && i != thread_id.0 ==>
                #[trigger] final(self).spec_threads()[i] == old(self).spec_threads()[i],
    {
        let mut thread = *self.threads[thread_id.0].as_ref().unwrap();
        *thread.context_mut() = context;
        self.threads.set(thread_id.0, Some(thread));
    }

    /// Sets the state of one thread; nothing else changes.
    fn set_thread_state(&mut self, thread_id: ThreadId, state: ThreadState)
        requires
            old(self).wf(),
            old(self).has_thread(thread_id),
        ensures
            final(self).wf(),
            final(self).spec_processes() == old(self).spec_processes(),
            final(self).spec_current() == old(self).spec_current(),
            final(self).spec_idle() == old(self).spec_idle(),
            final(self).spec_stack_base() == old(self).spec_stack_base(),
            final(self).has_thread(thread_id),
            final(self).thread_at(thread_id).spec_state() == state,
            final(self).thread_at(thread_id).same_setup(&old(self).thread_at(thread_id)),
            final(self).thread_at(thread_id).spec_block_reason() == old(self).thread_at(thread_id).spec_block_reason(),
            final(self).thread_at(thread_id).spec_wait_result() == old(self).thread_at(thread_id).spec_wait_result(),
            forall|i: int| 0 <= i < MAX_THREADS && i != thread_id.0 ==>
                #[trigger] final(self).spec_threads()[i] == old(self).spec_threads()[i],
    {
        let mut thread = *self.threads[thread_id.0].as_ref().unwrap();
        thread.set_state(state);
        self.threads.set(thread_id.0, Some(thread));
    }

    /// Round-robin pick of a runnable thread other than the idle thread,
    /// starting after `current`.
    fn next_non_idle_runnable_thread(&self, current: Option<ThreadId>) -> (r: Option<ThreadId>)
        requires
            self.wf(),
            current is Some ==> current.unwrap().0 < usize::MAX,
        ensures
            r == match round_robin_from(self.spec_threads(), self.spec_idle(),
                match current { Some(t) => (t.0 + 1) % (MAX_THREADS as int), None => 0 }, 0) {
                Some(i) => Some(ThreadId(i as usize)),
                None => None::<ThreadId>,
            },
    {
        let len = self.threads.len();
        let start = match current {
            Some(thread_id) => (thread_id.0 + 1) % len,
            None => 0,
        };
        let ghost start_spec: int = start as int;
        let mut offset: usize = 0;
        while offset < len
            invariant
                self.wf(),
                len == MAX_THREADS,
                start < len,
                start_spec == start as int,
                start_spec == match current { Some(t) => (t.0 + 1) % (MAX_THREADS as int), None => 0 },
                offset <= len,
                round_robin_from(self.spec_threads(), self.spec_idle(), start_spec, 0)
                    == round_robin_from(self.spec_threads(), self.spec_idle(), start_spec, offset as int),
            decreases len - offset,
        {
            let index = (start + offset) % len;
            match self.threads[index] {
                Some(thread) => {
                    let is_idle = match self.idle_thread {
                        Some(idle) => idle.0 == index,
                        None => false,
                    };
                    let state = thread.state();
                    if !is_idle && (state == ThreadState::Runnable || state == ThreadState::Running) {
                        return Some(ThreadId(index));
                    }
                },
                None => {},
            }
            offset += 1;
        }
        None
    }

    /// The thread to run next: a runnable non-idle thread in round-robin
    /// order after `current`, else the idle thread if it can run.
    pub fn next_runnable_thread(&self, current: Option<ThreadId>) -> (r: Option<ThreadId>)
        requires
            self.wf(),
            current is Some ==> current.unwrap().0 < usize::MAX,
        ensures
            r == self.spec_next_runnable(current),
            r is Some ==> self.has_thread(r.unwrap()) && is_runnable(self.spec_threads()[r.unwrap().0 as int]),
    {
        proof {
            lemma_round_robin_picks_runnable(self.spec_threads(), self.spec_idle(),
                match current { Some(t) => (t.0 + 1) % (MAX_THREADS as int), None => 0 }, 0);
        }
        let non_idle = self.next_non_idle_runnable_thread(current);
        if non_idle.is_some() {
            return non_idle;
        }
        match self.idle_thread {
            Some(idle) => match self.threads[idle.0] {
                Some(thread) => {
                    let state = thread.state();
                    if state == ThreadState::Runnable || state == ThreadState::Running {
                        Some(idle)
                    } else {
                        None
                    }
                },
                None => None,
            },
            None => None,
        }
    }

    /// Kernel stack and address space of a thread.
    pub fn activation(&self, thread_id: ThreadId) -> (r: ThreadActivation)
        requires
            self.wf(),
            self.has_thread(thread_id),
        ensures
            r.thread_id == thread_id,
            r.kernel_stack_top == self.thread_at(thread_id).spec_kernel_stack_top(),
            r.address_space == self.process_at(self.thread_at(thread_id).spec_process_id()).spec_address_space(),
    {
        let thread = self.thread(thread_id);
        let process = self.process(thread.process_id());
        ThreadActivation {
            thread_id,
            kernel_stack_top: thread.kernel_stack_top(),
            address_space: process.address_space(),
        }
    }
}

/// A thread found by the round-robin search exists, can run and is not idle.
pub proof fn lemma_round_robin_picks_runnable(threads: Seq<Option<Thread>>, idle: Option<ThreadId>, start: int, offset: int)
    requires
        threads.len() > 0,
    ensures
        match round_robin_from(threads, idle, start, offset) {
            Some(i) => 0 <= i < threads.len() && is_runnable(threads[i]) && idle != Some(ThreadId(i as usize)),
            None => true,
        },
    decreases threads.len() - offset,
{
    if 0 <= offset < threads.len() {
        let i = (start + offset) % (threads.len() as int);
        if !(is_runnable(threads[i]) && idle != Some(ThreadId(i as usize))) {
            lemma_round_robin_picks_runnable(threads, idle, start, offset + 1);
        }
    }
}


/// Kernel stack top of thread slot `slot`: the end of its stack region,
/// rounded down to 16 bytes.
pub open spec fn spec_stack_top(stack_base: u64, slot: int) -> u64 {
    ((stack_base + (slot + 1) * THREAD_STACK_SIZE) as u64) & !0xfu64
}

/// The kernel stack top of each thread slot lies inside the slot's own
/// stack region, `[stack_base + slot * THREAD_STACK_SIZE, stack_base +
/// (slot + 1) * THREAD_STACK_SIZE)`, at most its end, 16-byte aligned.
pub proof fn lemma_stack_top_in_slot(stack_base: u64, slot: int)
    requires
        0 <= slot < MAX_THREADS,
        stack_base + MAX_THREADS * THREAD_STACK_SIZE <= u64::MAX,
    ensures
        stack_base + slot * THREAD_STACK_SIZE < spec_stack_top(stack_base, slot),
        spec_stack_top(stack_base, slot) <= stack_base + (slot + 1) * THREAD_STACK_SIZE,
        spec_stack_top(stack_base, slot) % 16 == 0,
{
    assert((slot + 1) * THREAD_STACK_SIZE <= MAX_THREADS * THREAD_STACK_SIZE) by (nonlinear_arith)
        requires
            0 <= slot < MAX_THREADS,
    ;
    let end = (stack_base + (slot + 1) * THREAD_STACK_SIZE) as u64;
    crate::util::lemma_bit_facts(end, 0, 0, 0);
}

/// Different thread slots get kernel stacks that do not overlap: the stack
/// of a lower slot ends at or below the start of a higher slot's, whose top
/// lies above that start.
pub proof fn lemma_stacks_apart(stack_base: u64, a: int, b: int)
    requires
        0 <= a < b < MAX_THREADS,
        stack_base + MAX_THREADS * THREAD_STACK_SIZE <= u64::MAX,
    ensures
        spec_stack_top(stack_base, a) <= stack_base + b * THREAD_STACK_SIZE < spec_stack_top(stack_base, b),
        spec_stack_top(stack_base, a) < spec_stack_top(stack_base, b),
{
    lemma_stack_top_in_slot(stack_base, a);
    lemma_stack_top_in_slot(stack_base, b);
    assert((a + 1) * THREAD_STACK_SIZE <= b * THREAD_STACK_SIZE) by (nonlinear_arith)
        requires
            a < b,
    ;
}

impl Scheduler {
    /// Only the process table may differ from `other`.
    pub open spec fn same_threads(&self, other: &Self) -> bool {
        &&& self.spec_threads() == other.spec_threads()
        &&& self.spec_current() == other.spec_current()
        &&& self.spec_idle() == other.spec_idle()
        &&& self.spec_stack_base() == other.spec_stack_base()
    }

    fn initial_context_for(&self, slot: usize) -> (r: (ThreadContext, u64))
        requires
            self.wf(),
            slot < MAX_THREADS,
        ensures
            r.1 == spec_stack_top(self.spec_stack_base(), slot as int),
            r.0 == (ThreadContext { rsp: (r.1 - 8) as u64, ..ThreadContext::spec_zeroed() }),
    {
        let top: u64 = self.stack_base + (slot as u64 + 1) * THREAD_STACK_SIZE as u64;
        let aligned = top & !0xfu64;
        assert(aligned >= top - 15 && aligned <= top) by (bit_vector)
            requires
                aligned == top & !0xfu64,
                top >= 15,
        ;
        let mut context = ThreadContext::zeroed();
        context.rsp = aligned - 8;
        (context, aligned)
    }

    /// Creates a process in the first free slot, binding its stdio to the
    /// terminal session when asked; `None` when every slot is taken.
    pub fn try_create_process(&mut self, config: ProcessConfig) -> (r: Option<ProcessId>)
        requires
            old(self).wf(),
            config.owned_pages.wf(),
        ensures
            final(self).wf(),
            final(self).same_threads(&*old(self)),
            match first_empty(old(self).spec_processes()) {
                None => r is None && final(self).spec_processes() == old(self).spec_processes(),
                Some(i) => {
                    let p = final(self).process_at(ProcessId(i as usize));
                    &&& r == Some(ProcessId(i as usize))
                    &&& final(self).spec_processes() == old(self).spec_processes().update(i, Some(p))
                    &&& p.spec_id() == ProcessId(i as usize)
                    &&& p.spec_address_space() == config.address_space
                    &&& p.spec_owned_pages() == config.owned_pages@
                    &&& p.spec_exit_action() == config.exit_action
                    &&& p.spec_state() == ProcessState::Running
                    &&& p.spec_waiting_thread() is None
                    &&& p.spec_cwd() == seq![crate::process::SLASH]
                    &&& p.spec_env() == Seq::<(Seq<u8>, Seq<u8>)>::empty()
                    &&& forall|fd: usize| fd < 3 ==> #[trigger] p.fd_object(fd)
                        == if config.terminal_endpoint { Some(KernelObject::TerminalEndpoint) } else { None }
                },
            },
    {
        let slot = match find_empty(&self.processes) {
            Some(slot) => slot,
            None => return None,
        };
        let process_id = ProcessId(slot);
        let mut process = Process::new(process_id, config.name, config.address_space, config.owned_pages, config.exit_action);
        if config.terminal_endpoint {
            proof {
                crate::process::lemma_first_free_at(process.spec_handles(), 0);
            }
            let stdin = match process.install_handle(KernelObject::TerminalEndpoint) {
                Some(h) => h,
                None => return None,
            };
            proof {
                crate::process::lemma_first_free_at(process.spec_handles(), 1);
            }
            let stdout = match process.install_handle(KernelObject::TerminalEndpoint) {
                Some(h) => h,
                None => return None,
            };
            proof {
                crate::process::lemma_first_free_at(process.spec_handles(), 2);
            }
            let stderr = match process.install_handle(KernelObject::TerminalEndpoint) {
                Some(h) => h,
                None => return None,
            };
            process.set_stdio(StdioHandles::new(stdin, stdout, stderr));
        }
        self.processes.set(slot, Some(process));
        proof {
            let p = self.process_at(process_id);
            assert forall|fd: usize| fd < 3 implies #[trigger] p.fd_object(fd)
                == if config.terminal_endpoint { Some(KernelObject::TerminalEndpoint) } else { None } by {
                if config.terminal_endpoint {
                    assert(p.spec_handles()[fd as int] == Some(KernelObject::TerminalEndpoint));
                }
            }
            assert forall|i: int| 0 <= i < MAX_THREADS && #[trigger] self.spec_threads()[i] is Some implies
                self.has_process(self.spec_threads()[i].unwrap().spec_process_id()) by {
                assert(old(self).has_process(old(self).spec_threads()[i].unwrap().spec_process_id()));
            }
        }
        Some(process_id)
    }

    /// Creates a runnable thread of process `process_id` in the first free
    /// thread slot, with a fresh context on that slot's kernel stack; `None`
    /// when every slot is taken.
    pub fn try_create_thread(&mut self, name: &'static str, process_id: ProcessId, start: ThreadStart) -> (r: Option<ThreadId>)
        requires
            old(self).wf(),
            old(self).has_process(process_id),
        ensures
            final(self).wf(),
            final(self).spec_processes() == old(self).spec_processes(),
            final(self).spec_current() == old(self).spec_current(),
            final(self).spec_idle() == old(self).spec_idle(),
            final(self).spec_stack_base() == old(self).spec_stack_base(),
            match first_empty(old(self).spec_threads()) {
                None => r is None && final(self).spec_threads() == old(self).spec_threads(),
                Some(i) => {
                    let t = final(self).thread_at(ThreadId(i as usize));
                    &&& r == Some(ThreadId(i as usize))
                    &&& final(self).spec_threads() == old(self).spec_threads().update(i, Some(t))
                    &&& t.spec_id() == ThreadId(i as usize)
                    &&& t.spec_name() == name
                    &&& t.spec_process_id() == process_id
                    &&& t.spec_start() == start
                    &&& t.spec_state() == ThreadState::Runnable
                    &&& t.spec_block_reason() == ThreadBlockReason::NotBlocked
                    &&& t.spec_wait_result() is None
                    &&& t.spec_kernel_stack_top() == spec_stack_top(old(self).spec_stack_base(), i)
                    &&& t.spec_context() == (ThreadContext {
                        rsp: (spec_stack_top(old(self).spec_stack_base(), i) - 8) as u64,
                        ..ThreadContext::spec_zeroed()
                    })
                },
            },
    {
        let slot = match find_empty(&self.threads) {
            Some(slot) => slot,
            None => return None,
        };
        let thread_id = ThreadId(slot);
        let (context, kernel_stack_top) = self.initial_context_for(slot);
        self.threads.set(slot, Some(Thread::new(thread_id, name, process_id, start, context, kernel_stack_top)));
        Some(thread_id)
    }
}


impl Scheduler {
    /// Threads other than `a` and `b` are unchanged.
    pub open spec fn threads_same_except(&self, other: &Self, a: ThreadId, b: ThreadId) -> bool {
        forall|i: int| 0 <= i < MAX_THREADS && i != a.0 && i != b.0 ==>
            #[trigger] self.spec_threads()[i] == other.spec_threads()[i]
    }

    /// Picks the first thread to run from bootstrap and marks it running.
    pub fn start(&mut self) -> (r: Option<ThreadActivation>)
        requires
            old(self).wf(),
        ensures
            final(self).wf(),
            final(self).spec_processes() == old(self).spec_processes(),
            match old(self).spec_next_runnable(None) {
                None => r is None && *final(self) == *old(self),
                Some(n) => {
                    &&& r is Some && r.unwrap().thread_id == n
                    &&& r.unwrap().kernel_stack_top == old(self).thread_at(n).spec_kernel_stack_top()
                    &&& r.unwrap().address_space == old(self).process_at(old(self).thread_at(n).spec_process_id()).spec_address_space()
                    &&& final(self).spec_current() == Some(n)
                    &&& final(self).thread_at(n).spec_state() == ThreadState::Running
                    &&& final(self).threads_same_except(&*old(self), n, n)
                },
            },
    {
        let next = match self.next_runnable_thread(None) {
            Some(next) => next,
            None => return None,
        };
        self.current_thread = Some(next);
        self.set_thread_state(next, ThreadState::Running);
        Some(self.activation(next))
    }

    /// Moves the current thread aside (blocked, or runnable again) and makes
    /// the next runnable thread current. `None`, with nothing changed, when no
    /// thread is current, none can run, or only the current one can and it
    /// is not blocking.
    pub fn prepare_switch(&mut self, block_current: bool) -> (r: Option<PreparedSwitch>)
        requires
            old(self).wf(),
        ensures
            final(self).wf(),
            final(self).spec_processes() == old(self).spec_processes(),
            final(self).spec_idle() == old(self).spec_idle(),
            match old(self).spec_current() {
                None => r is None && *final(self) == *old(self),
                Some(c) => match old(self).spec_next_runnable(Some(c)) {
                    None => r is None && *final(self) == *old(self),
                    Some(n) => if n == c && !block_current {
                        r is None && *final(self) == *old(self)
                    } else {
                        &&& r is Some
                        &&& r.unwrap().current == c
                        &&& r.unwrap().next == n
                        &&& r.unwrap().next_stack_top == old(self).thread_at(n).spec_kernel_stack_top()
                        &&& r.unwrap().next_space == old(self).process_at(old(self).thread_at(n).spec_process_id()).spec_address_space()
                        &&& final(self).spec_current() == Some(n)
                        &&& final(self).thread_at(n).spec_state() == ThreadState::Running
                        &&& n != c ==> final(self).thread_at(c).spec_state()
                            == if block_current { ThreadState::Blocked } else { ThreadState::Runnable }
                        &&& final(self).threads_same_except(&*old(self), c, n)
                    },
                },
            },
    {
        let current = match self.current_thread {
            Some(current) => current,
            None => return None,
        };
        let next = match self.next_runnable_thread(Some(current)) {
            Some(next) => next,
            None => return None,
        };
        if next == current && !block_current {
            return None;
        }
        let current_state = if block_current { ThreadState::Blocked } else { ThreadState::Runnable };
        self.set_thread_state(current, current_state);
        self.set_thread_state(next, ThreadState::Running);
        self.current_thread = Some(next);
        let activation = self.activation(next);
        Some(PreparedSwitch {
            current,
            next,
            next_space: activation.address_space,
            next_stack_top: activation.kernel_stack_top,
        })
    }

    /// Blocks the current thread until `child_process` exits and switches to
    /// the next runnable thread. When no thread can run, `None` is returned
    /// with the current thread left blocked.
    pub fn prepare_wait_for_child(&mut self, child_process: ProcessId) -> (r: Option<PreparedSwitch>)
        requires
            old(self).wf(),
        ensures
            final(self).wf(),
            final(self).spec_processes() == old(self).spec_processes(),
            final(self).spec_idle() == old(self).spec_idle(),
            match old(self).spec_current() {
                None => r is None && *final(self) == *old(self),
                Some(c) => {
                    let blocked = old(self).spec_threads().update(c.0 as int, final(self).spec_threads()[c.0 as int]);
                    &&& final(self).has_thread(c)
                    &&& final(self).thread_at(c).spec_state() == ThreadState::Blocked
                    &&& final(self).thread_at(c).spec_block_reason() == ThreadBlockReason::WaitingForChild(child_process)
                    &&& final(self).thread_at(c).same_setup(&old(self).thread_at(c))
                    &&& final(self).thread_at(c).spec_wait_result() == old(self).thread_at(c).spec_wait_result()
                    &&& match next_runnable_in(blocked, old(self).spec_idle(), Some(c)) {
                        None => r is None && final(self).spec_current() == Some(c) && final(self).spec_threads() == blocked,
                        Some(n) => {
                            &&& r is Some
                            &&& r.unwrap().current == c
                            &&& r.unwrap().next == n
                            &&& n != c
                            &&& r.unwrap().next_stack_top == old(self).thread_at(n).spec_kernel_stack_top()
                            &&& r.unwrap().next_space == old(self).process_at(old(self).thread_at(n).spec_process_id()).spec_address_space()
                            &&& final(self).spec_current() == Some(n)
                            &&& final(self).thread_at(n).spec_state() == ThreadState::Running
                            &&& final(self).threads_same_except(&*old(self), c, n)
                        },
                    }
                },
            },
    {
        let current = match self.current_thread {
            Some(current) => current,
            None => return None,
        };
        let mut thread = *self.threads[current.0].as_ref().unwrap();
        thread.block_for_child(child_process);
        self.threads.set(current.0, Some(thread));
        let ghost blocked = self.threads@;
        proof {
            assert(self.wf()) by {
                assert(old(self).has_thread(current));
            }
        }
        let next = match self.next_runnable_thread(Some(current)) {
            Some(next) => next,
            None => {
                assert(blocked == old(self).spec_threads().update(current.0 as int, self.spec_threads()[current.0 as int]));
                return None;
            },
        };
        assert(next != current);
        self.set_thread_state(next, ThreadState::Running);
        self.current_thread = Some(next);
        let activation = self.activation(next);
        proof {
            assert(blocked =~= old(self).spec_threads().update(current.0 as int, self.spec_threads()[current.0 as int]));
        }
        Some(PreparedSwitch {
            current,
            next,
            next_space: activation.address_space,
            next_stack_top: activation.kernel_stack_top,
        })
    }

    /// Takes the wait result of the current thread.
    pub fn take_current_wait_result(&mut self) -> (r: Option<usize>)
        requires
            old(self).wf(),
        ensures
            final(self).wf(),
            final(self).spec_processes() == old(self).spec_processes(),
            final(self).spec_current() == old(self).spec_current(),
            match old(self).spec_current() {
                None => r is None && *final(self) == *old(self),
                Some(c) => r == old(self).thread_at(c).spec_wait_result()
                    && final(self).thread_at(c).spec_wait_result() is None
                    && final(self).threads_same_except(&*old(self), c, c),
            },
    {
        let current = match self.current_thread {
            Some(current) => current,
            None => return None,
        };
        let mut thread = *self.threads[current.0].as_ref().unwrap();
        let result = thread.take_wait_result();
        self.threads.set(current.0, Some(thread));
        result
    }
}


impl Scheduler {
    fn take_process(&mut self, id: ProcessId) -> (r: Process)
        requires
            old(self).spec_processes().len() == MAX_PROCESSES,
            old(self).has_process(id),
        ensures
            r == old(self).process_at(id),
            final(self).spec_processes() == old(self).spec_processes().update(id.0 as int, None),
            final(self).same_threads(&*old(self)),
    {
        let slot = self.processes.remove(id.0);
        self.processes.insert(id.0, None);
        assert(self.processes@ =~= old(self).processes@.update(id.0 as int, None));
        slot.unwrap()
    }

    /// Whether the current thread may exit: it is its process' only thread
    /// and the thread waiting on that process, if any, is another live one.
    pub open spec fn exit_allowed(&self) -> bool {
        match self.spec_current() {
            None => true,
            Some(c) => {
                let pid = self.thread_at(c).spec_process_id();
                &&& forall|i: int| 0 <= i < MAX_THREADS && i != c.0 && #[trigger] self.spec_threads()[i] is Some ==>
                    self.spec_threads()[i].unwrap().spec_process_id() != pid
                &&& match self.process_at(pid).spec_waiting_thread() {
                    Some(w) => self.has_thread(w) && w != c,
                    None => true,
                }
            },
        }
    }

    /// Whether the current thread may exit now.
    pub fn exit_allowed_now(&self) -> (r: bool)
        requires
            self.wf(),
        ensures
            r == self.exit_allowed(),
    {
        let current = match self.current_thread {
            Some(current) => current,
            None => return true,
        };
        let process_id = self.thread(current).process_id();
        let mut index: usize = 0;
        while index < MAX_THREADS
            invariant
                self.wf(),
                self.spec_current() == Some(current),
                process_id == self.thread_at(current).spec_process_id(),
                index <= MAX_THREADS,
                forall|i: int| 0 <= i < index && i != current.0 && #[trigger] self.spec_threads()[i] is Some ==>
                    self.spec_threads()[i].unwrap().spec_process_id() != process_id,
            decreases MAX_THREADS - index,
        {
            if index != current.0 {
                if let Some(thread) = &self.threads[index] {
                    if thread.process_id() == process_id {
                        return false;
                    }
                }
            }
            index += 1;
        }
        match self.process(process_id).waiting_thread() {
            Some(waiter) => waiter.0 < MAX_THREADS && self.threads[waiter.0].is_some() && waiter.0 != current.0,
            None => true,
        }
    }

    /// Ends the current thread's process with `status`: the thread and the
    /// process leave the tables, the process' pages are handed back, and the
    /// thread waiting on the process (if any) is woken with the status and
    /// runs next; otherwise the next runnable thread does. A process marked
    /// to shut the system down asks for that instead. When nothing can run,
    /// `None` is returned and no thread is current.
    pub fn prepare_exit_current_process(&mut self, status: usize) -> (r: Option<ProcessExit>)
        requires
            old(self).wf(),
            old(self).exit_allowed(),
        ensures
            final(self).wf(),
            final(self).spec_idle() == old(self).spec_idle(),
            exit_outcome(*old(self), *final(self), status, r),
    {
        let current = match self.current_thread {
            Some(current) => current,
            None => return None,
        };
        let process_id = self.thread(current).process_id();
        let mut process = self.take_process(process_id);
        process.mark_exited(status);
        let waiting = process.take_waiting_thread();
        let exit_action = process.exit_action();
        self.threads.set(current.0, None);
        self.current_thread = None;
        let released_pages = process.take_owned_pages();
        proof {
            assert forall|i: int| 0 <= i < MAX_THREADS && #[trigger] self.spec_threads()[i] is Some implies
                self.has_process(self.spec_threads()[i].unwrap().spec_process_id()) by {
                assert(old(self).spec_threads()[i] is Some);
                assert(old(self).has_process(old(self).spec_threads()[i].unwrap().spec_process_id()));
            }
        }
        if exit_action == ProcessExitAction::ShutdownSystem {
            return Some(ProcessExit::Shutdown { released_pages });
        }
        let next = match waiting {
            Some(waiting_thread) => {
                let mut thread = *self.threads[waiting_thread.0].as_ref().unwrap();
                thread.set_wait_result(status);
                thread.wake();
                self.threads.set(waiting_thread.0, Some(thread));
                waiting_thread
            },
            None => match self.next_runnable_thread(Some(current)) {
                Some(next) => next,
                None => return None,
            },
        };
        self.current_thread = Some(next);
        self.set_thread_state(next, ThreadState::Running);
        let activation = self.activation(next);
        Some(ProcessExit::Switch {
            next,
            next_space: activation.address_space,
            next_stack_top: activation.kernel_stack_top,
            released_pages,
        })
    }
}


/// Installing three objects into an empty table puts them in slots 0, 1 and
/// 2, and fails exactly when one of them is missing.
pub proof fn lemma_install_fresh(handles: Seq<Option<KernelObject>>, objects: Seq<Option<KernelObject>>)
    requires
        handles.len() == crate::io::MAX_PROCESS_HANDLES,
        forall|i: int| 0 <= i < handles.len() ==> #[trigger] handles[i] is None,
        objects.len() == 3,
    ensures
        install_all(handles, objects).2 == (objects[0] is Some && objects[1] is Some && objects[2] is Some),
        install_all(handles, objects).2 ==> install_all(handles, objects).1 == seq![HandleId(0), HandleId(1), HandleId(2)]
            && install_all(handles, objects).0[0] == objects[0]
            && install_all(handles, objects).0[1] == objects[1]
            && install_all(handles, objects).0[2] == objects[2],
{
    reveal_with_fuel(install_all, 4);
    crate::process::lemma_first_free_at(handles, 0);
    let h1 = handles.update(0, objects[0]);
    let h2 = h1.update(1, objects[1]);
    if objects[0] is Some {
        crate::process::lemma_first_free_at(h1, 1);
        if objects[1] is Some {
            crate::process::lemma_first_free_at(h2, 2);
        }
    }
    let o1 = objects.drop_first();
    let o2 = o1.drop_first();
    let o3 = o2.drop_first();
    assert(o1[0] == objects[1]);
    assert(o2[0] == objects[2]);
    assert(o3.len() == 0);
    if objects[0] is Some && objects[1] is Some && objects[2] is Some {
        let h3 = h2.update(2, objects[2]);
        assert(install_all(h3, o3).1 =~= Seq::<HandleId>::empty());
        assert(install_all(h2, o2).1 =~= seq![HandleId(2)]);
        assert(install_all(h1, o1).1 =~= seq![HandleId(1), HandleId(2)]);
        assert(install_all(handles, objects).1 =~= seq![HandleId(0), HandleId(1), HandleId(2)]);
    }
}

impl Scheduler {
    /// The stdio objects a child of `parent_thread` receives.
    pub open spec fn child_stdio(&self, parent_thread: ThreadId, silent_stdio: bool) -> Seq<Option<KernelObject>> {
        let parent = self.process_at(self.thread_at(parent_thread).spec_process_id());
        if silent_stdio {
            seq![parent.fd_object(0), Some(KernelObject::Null), Some(KernelObject::Null)]
        } else {
            seq![parent.fd_object(0), parent.fd_object(1), parent.fd_object(2)]
        }
    }

    /// Creates a child process of `parent_thread`'s process running
    /// `program`: stdio inherited (stdin only, with output nulled, when
    /// `silent_stdio`), working directory and environment copied, the parent
    /// thread recorded as its waiter, and one runnable user thread at the
    /// program entry. It fails, handing the program back and leaving the
    /// tables as they were, when no process slot is free, a parent stream
    /// is unbound, or no thread slot is free.
    pub fn spawn_child_process(&mut self, parent_thread: ThreadId, program: LoadedUserProgram, silent_stdio: bool)
        -> (r: Result<ProcessId, LoadedUserProgram>)
        requires
            old(self).wf(),
            old(self).has_thread(parent_thread),
            program.owned_pages.wf(),
        ensures
            final(self).wf(),
            final(self).spec_current() == old(self).spec_current(),
            final(self).spec_idle() == old(self).spec_idle(),
            ({
                let objects = old(self).child_stdio(parent_thread, silent_stdio);
                first_empty(old(self).spec_processes()) is Some
                    && objects[0] is Some && objects[1] is Some && objects[2] is Some
                    && first_empty(old(self).spec_threads()) is Some
            }) == r is Ok,
            r is Err ==> {
                let back = r->Err_0;
                &&& final(self).spec_processes() == old(self).spec_processes()
                &&& final(self).spec_threads() == old(self).spec_threads()
                &&& back.address_space == program.address_space
                &&& back.entry_point == program.entry_point
                &&& back.user_stack_top == program.user_stack_top
                &&& back.owned_pages@ == program.owned_pages@
                &&& back.owned_pages.wf()
            },
            r is Ok ==> {
                let pid = r->Ok_0;
                let parent = old(self).process_at(old(self).thread_at(parent_thread).spec_process_id());
                let child = final(self).process_at(pid);
                let objects = old(self).child_stdio(parent_thread, silent_stdio);
                let tid = ThreadId(first_empty(old(self).spec_threads()).unwrap() as usize);
                let thread = final(self).thread_at(tid);
                &&& Some(pid.0 as int) == first_empty(old(self).spec_processes())
                &&& final(self).spec_processes() == old(self).spec_processes().update(pid.0 as int, Some(child))
                &&& child.spec_id() == pid
                &&& child.spec_address_space() == program.address_space
                &&& child.spec_owned_pages() == program.owned_pages@
                &&& child.spec_exit_action() == ProcessExitAction::Continue
                &&& child.spec_state() == ProcessState::Running
                &&& child.spec_waiting_thread() == Some(parent_thread)
                &&& child.spec_cwd() == parent.spec_cwd()
                &&& child.spec_env() == parent.spec_env()
                &&& child.fd_object(0) == objects[0]
                &&& child.fd_object(1) == objects[1]
                &&& child.fd_object(2) == objects[2]
                &&& final(self).spec_threads() == old(self).spec_threads().update(tid.0 as int, Some(thread))
                &&& thread.spec_process_id() == pid
                &&& thread.spec_start() == ThreadStart::User(UserThreadStart {
                    entry_point: program.entry_point,
                    user_stack_top: program.user_stack_top,
                })
                &&& thread.spec_state() == ThreadState::Runnable
            },
    {
        let LoadedUserProgram { address_space, entry_point, user_stack_top, owned_pages } = program;
        let parent_process_id = self.thread(parent_thread).process_id();
        let slot = match find_empty(&self.processes) {
            Some(slot) => slot,
            None => return Err(LoadedUserProgram { address_space, entry_point, user_stack_top, owned_pages }),
        };
        let process_id = ProcessId(slot);
        let mut child = Process::new(process_id, "user-child", address_space, owned_pages, ProcessExitAction::Continue);
        let ghost objects = self.child_stdio(parent_thread, silent_stdio);
        proof {
            lemma_install_fresh(child.spec_handles(), objects);
        }
        let inherited_stdio = if silent_stdio {
            self.process(parent_process_id).inherit_stdio_silent_into(&mut child)
        } else {
            self.process(parent_process_id).inherit_stdio_into(&mut child)
        };
        if inherited_stdio.is_none() {
            let address_space = child.address_space();
            let owned_pages = child.take_owned_pages();
            return Err(LoadedUserProgram { address_space, entry_point, user_stack_top, owned_pages });
        }
        let _ = self.process(parent_process_id).inherit_cwd_into(&mut child);
        let _ = self.process(parent_process_id).inherit_env_into(&mut child);
        child.set_waiting_thread(parent_thread);
        proof {
            child.lemma_wf();
        }
        self.processes.set(slot, Some(child));
        proof {
            assert forall|i: int| 0 <= i < MAX_THREADS && #[trigger] self.spec_threads()[i] is Some implies
                self.has_process(self.spec_threads()[i].unwrap().spec_process_id()) by {
                assert(old(self).has_process(old(self).spec_threads()[i].unwrap().spec_process_id()));
            }
        }
        let start = ThreadStart::User(UserThreadStart { entry_point, user_stack_top });
        let created = self.try_create_thread("user-child-main", process_id, start);
        if created.is_none() {
            let mut child = self.take_process(process_id);
            let address_space = child.address_space();
            let owned_pages = child.take_owned_pages();
            proof {
                assert(self.spec_processes() =~= old(self).spec_processes());
            }
            return Err(LoadedUserProgram { address_space, entry_point, user_stack_top, owned_pages });
        }
        Ok(process_id)
    }
}


impl Scheduler {
    fn put_process(&mut self, id: ProcessId, process: Process)
        requires
            old(self).spec_processes().len() == MAX_PROCESSES,
            id.0 < MAX_PROCESSES,
        ensures
            final(self).spec_processes() == old(self).spec_processes().update(id.0 as int, Some(process)),
            final(self).same_threads(&*old(self)),
    {
        self.processes.set(id.0, Some(process));
    }

    /// The process of the current thread.
    pub fn current_process_id(&self) -> (r: Option<ProcessId>)
        requires
            self.wf(),
        ensures
            r == self.current_process(),
            r is Some ==> self.has_process(r.unwrap()),
    {
        match self.current_thread {
            Some(current) => Some(self.thread(current).process_id()),
            None => None,
        }
    }
}

/// Resets the scheduler to empty tables.
pub fn init(scheduler: &mut Scheduler)
    requires
        old(scheduler).wf(),
    ensures
        final(scheduler).wf(),
        forall|i: int| 0 <= i < MAX_PROCESSES ==> #[trigger] final(scheduler).spec_processes()[i] is None,
        forall|i: int| 0 <= i < MAX_THREADS ==> #[trigger] final(scheduler).spec_threads()[i] is None,
        final(scheduler).spec_current() is None,
        final(scheduler).spec_idle() is None,
{
    scheduler.reset();
}

/// Creates a process; a free process slot is required.
pub fn create_process(scheduler: &mut Scheduler, config: ProcessConfig) -> (r: ProcessId)
    requires
        old(scheduler).wf(),
        config.owned_pages.wf(),
        first_empty(old(scheduler).spec_processes()) is Some,
    ensures
        final(scheduler).wf(),
        final(scheduler).same_threads(&*old(scheduler)),
        Some(r.0 as int) == first_empty(old(scheduler).spec_processes()),
        final(scheduler).has_process(r),
        final(scheduler).process_at(r).spec_address_space() == config.address_space,
        final(scheduler).process_at(r).spec_exit_action() == config.exit_action,
        forall|i: int| 0 <= i < MAX_PROCESSES && i != r.0 ==>
            #[trigger] final(scheduler).spec_processes()[i] == old(scheduler).spec_processes()[i],
{
    scheduler.try_create_process(config).unwrap()
}

/// Sets one environment variable of process `process_id`.
pub fn set_process_env(scheduler: &mut Scheduler, process_id: ProcessId, key: &str, value: &str)
    -> (r: Result<(), EnvironmentAccessError>)
    requires
        old(scheduler).wf(),
        old(scheduler).has_process(process_id),
    ensures
        final(scheduler).wf(),
        final(scheduler).same_threads(&*old(scheduler)),
        final(scheduler).has_process(process_id),
        final(scheduler).process_at(process_id).same_except_env(&old(scheduler).process_at(process_id)),
        forall|i: int| 0 <= i < MAX_PROCESSES && i != process_id.0 ==>
            #[trigger] final(scheduler).spec_processes()[i] == old(scheduler).spec_processes()[i],
        match key_error(key.spec_bytes()) {
            Some(e) => r == Err::<(), EnvironmentAccessError>(spec_map_environment_error(e)),
            None => if value.spec_bytes().len() > MAX_ENV_VALUE_LEN {
                r == Err::<(), EnvironmentAccessError>(EnvironmentAccessError::ValueTooLong)
            } else if lookup(old(scheduler).process_at(process_id).spec_env(), key.spec_bytes()) is None
                && old(scheduler).process_at(process_id).spec_env().len() == MAX_ENV_VARS {
                r == Err::<(), EnvironmentAccessError>(EnvironmentAccessError::CapacityExceeded)
            } else {
                r is Ok && lookup(final(scheduler).process_at(process_id).spec_env(), key.spec_bytes()) == Some(value.spec_bytes())
            },
        },
{
    let mut process = scheduler.take_process(process_id);
    let result = process.set_env(key, value);
    scheduler.put_process(process_id, process);
    proof {
        assert forall|i: int| 0 <= i < MAX_THREADS && #[trigger] scheduler.spec_threads()[i] is Some implies
            scheduler.has_process(scheduler.spec_threads()[i].unwrap().spec_process_id()) by {
            assert(old(scheduler).has_process(old(scheduler).spec_threads()[i].unwrap().spec_process_id()));
        }
    }
    match result {
        Ok(()) => Ok(()),
        Err(error) => Err(map_environment_error(error)),
    }
}

/// Replaces the working directory of a process; refused (`None`, nothing
/// changed) for a path that is not a valid working directory.
pub fn set_process_cwd(scheduler: &mut Scheduler, process_id: ProcessId, cwd: &str) -> (r: Option<()>)
    requires
        old(scheduler).wf(),
        old(scheduler).has_process(process_id),
    ensures
        final(scheduler).wf(),
        final(scheduler).same_threads(&*old(scheduler)),
        final(scheduler).has_process(process_id),
        final(scheduler).process_at(process_id).same_except_cwd(&old(scheduler).process_at(process_id)),
        forall|i: int| 0 <= i < MAX_PROCESSES && i != process_id.0 ==>
            #[trigger] final(scheduler).spec_processes()[i] == old(scheduler).spec_processes()[i],
        r is Some == valid_cwd(cwd.spec_bytes()),
        r is Some ==> final(scheduler).process_at(process_id).spec_cwd() == cwd.spec_bytes(),
        r is None ==> *final(scheduler) == *old(scheduler),
{
    if !cwd_is_valid(cwd) {
        return None;
    }
    let mut process = scheduler.take_process(process_id);
    let result = process.set_cwd(cwd);
    scheduler.put_process(process_id, process);
    proof {
        assert forall|i: int| 0 <= i < MAX_THREADS && #[trigger] scheduler.spec_threads()[i] is Some implies
            scheduler.has_process(scheduler.spec_threads()[i].unwrap().spec_process_id()) by {
            assert(old(scheduler).has_process(old(scheduler).spec_threads()[i].unwrap().spec_process_id()));
        }
    }
    result
}

/// Whether `cwd` can be a working directory: absolute and short enough.
fn cwd_is_valid(cwd: &str) -> (r: bool)
    ensures
        r == valid_cwd(cwd.spec_bytes()),
{
    let bytes = cwd.as_bytes();
    bytes.len() != 0 && bytes[0] == 0x2fu8 && bytes.len() <= crate::process::MAX_CWD_LEN
}

/// Creates a kernel thread of an existing process; a free thread slot is
/// required. `entry` is the address of the kernel routine it starts in.
pub fn create_kernel_thread(scheduler: &mut Scheduler, name: &'static str, process_id: ProcessId, entry: u64) -> (r: ThreadId)
    requires
        old(scheduler).wf(),
        old(scheduler).has_process(process_id),
        first_empty(old(scheduler).spec_threads()) is Some,
    ensures
        final(scheduler).wf(),
        final(scheduler).spec_processes() == old(scheduler).spec_processes(),
        Some(r.0 as int) == first_empty(old(scheduler).spec_threads()),
        final(scheduler).has_thread(r),
        final(scheduler).thread_at(r).spec_process_id() == process_id,
        final(scheduler).thread_at(r).spec_start() == ThreadStart::Kernel(entry),
        final(scheduler).thread_at(r).spec_state() == ThreadState::Runnable,
{
    scheduler.try_create_thread(name, process_id, ThreadStart::Kernel(entry)).unwrap()
}

/// Creates a user thread of an existing process; a free thread slot is
/// required.
pub fn create_user_thread(scheduler: &mut Scheduler, name: &'static str, process_id: ProcessId, entry_point: u64,
    user_stack_top: u64) -> (r: ThreadId)
    requires
        old(scheduler).wf(),
        old(scheduler).has_process(process_id),
        first_empty(old(scheduler).spec_threads()) is Some,
    ensures
        final(scheduler).wf(),
        final(scheduler).spec_processes() == old(scheduler).spec_processes(),
        Some(r.0 as int) == first_empty(old(scheduler).spec_threads()),
        final(scheduler).has_thread(r),
        final(scheduler).thread_at(r).spec_process_id() == process_id,
        final(scheduler).thread_at(r).spec_start() == ThreadStart::User(UserThreadStart { entry_point, user_stack_top }),
        final(scheduler).thread_at(r).spec_state() == ThreadState::Runnable,
{
    let start = ThreadStart::User(UserThreadStart { entry_point, user_stack_top });
    scheduler.try_create_thread(name, process_id, start).unwrap()
}

/// Makes a thread the idle fallback.
pub fn mark_idle_thread(scheduler: &mut Scheduler, thread_id: ThreadId)
    requires
        old(scheduler).wf(),
        thread_id.0 < MAX_THREADS,
    ensures
        final(scheduler).wf(),
        final(scheduler).spec_idle() == Some(thread_id),
        final(scheduler).spec_processes() == old(scheduler).spec_processes(),
        final(scheduler).spec_threads() == old(scheduler).spec_threads(),
        final(scheduler).spec_current() == old(scheduler).spec_current(),
{
    scheduler.set_idle_thread(thread_id);
}

/// How the current thread starts; a current thread is required.
pub fn run_current_thread_start(scheduler: &Scheduler) -> (r: ThreadStart)
    requires
        scheduler.wf(),
        scheduler.spec_current() is Some,
    ensures
        r == scheduler.thread_at(scheduler.spec_current().unwrap()).spec_start(),
{
    let current = scheduler.current_thread().unwrap();
    scheduler.thread(current).start()
}

/// Reads from a standard stream of the current process; nothing without one.
pub fn current_process_read(scheduler: &Scheduler, terminal: &mut TerminalEndpoint, fd: usize, buffer: &mut [u8]) -> (r: usize)
    requires
        scheduler.wf(),
        old(terminal).wf(),
    ensures
        final(terminal).wf(),
        final(terminal).pending_output() == old(terminal).pending_output(),
        final(buffer)@.len() == old(buffer)@.len(),
        scheduler.current_process() is None ==> r == 0 && final(buffer)@ == old(buffer)@
            && final(terminal).pending_input() == old(terminal).pending_input(),
        scheduler.current_process() is Some ==> match scheduler.process_at(scheduler.current_process().unwrap()).fd_object(fd) {
            Some(KernelObject::TerminalEndpoint) => {
                let n = if old(buffer)@.len() < old(terminal).pending_input().len() {
                    old(buffer)@.len()
                } else {
                    old(terminal).pending_input().len()
                };
                &&& r == n
                &&& final(buffer)@ == old(terminal).pending_input().take(n as int)
                    + old(buffer)@.subrange(n as int, old(buffer)@.len() as int)
                &&& final(terminal).pending_input() == old(terminal).pending_input().skip(n as int)
            },
            _ => r == 0 && final(buffer)@ == old(buffer)@
                && final(terminal).pending_input() == old(terminal).pending_input(),
        },
{
    match scheduler.current_process_id() {
        Some(process_id) => scheduler.process(process_id).read(terminal, fd, buffer),
        None => 0,
    }
}

/// Writes to a standard stream of the current process; nothing without one.
pub fn current_process_write(scheduler: &Scheduler, terminal: &mut TerminalEndpoint, fd: usize, buffer: &[u8]) -> (r: usize)
    requires
        scheduler.wf(),
        old(terminal).wf(),
    ensures
        final(terminal).wf(),
        final(terminal).pending_input() == old(terminal).pending_input(),
        scheduler.current_process() is None ==> r == 0 && final(terminal).pending_output() == old(terminal).pending_output(),
        scheduler.current_process() is Some ==> match scheduler.process_at(scheduler.current_process().unwrap()).fd_object(fd) {
            Some(KernelObject::TerminalEndpoint) => {
                let room = TERMINAL_OUTPUT_CAPACITY - old(terminal).pending_output().len();
                let n = if buffer@.len() < room { buffer@.len() as int } else { room };
                &&& r == n
                &&& final(terminal).pending_output() == old(terminal).pending_output() + buffer@.take(n)
            },
            Some(KernelObject::Null) => r == buffer@.len() && final(terminal).pending_output() == old(terminal).pending_output(),
            None => r == 0 && final(terminal).pending_output() == old(terminal).pending_output(),
        },
{
    match scheduler.current_process_id() {
        Some(process_id) => scheduler.process(process_id).write(terminal, fd, buffer),
        None => 0,
    }
}

/// Copies the current process' working directory into `buffer`.
pub fn current_process_getcwd(scheduler: &Scheduler, buffer: &mut [u8]) -> (r: Option<usize>)
    requires
        scheduler.wf(),
    ensures
        scheduler.current_process() is None ==> r is None && final(buffer)@ == old(buffer)@,
        scheduler.current_process() is Some ==> {
            let cwd = scheduler.process_at(scheduler.current_process().unwrap()).spec_cwd();
            &&& old(buffer)@.len() < cwd.len() ==> r is None && final(buffer)@ == old(buffer)@
            &&& old(buffer)@.len() >= cwd.len() ==> r == Some(cwd.len() as usize)
                && final(buffer)@ == cwd + old(buffer)@.subrange(cwd.len() as int, old(buffer)@.len() as int)
        },
{
    match scheduler.current_process_id() {
        Some(process_id) => scheduler.process(process_id).copy_cwd_into(buffer),
        None => None,
    }
}

/// Copies the value of one environment variable of the current process into
/// `buffer` and returns its length.
pub fn current_process_get_env(scheduler: &Scheduler, key: &str, buffer: &mut [u8]) -> (r: Result<usize, EnvironmentAccessError>)
    requires
        scheduler.wf(),
    ensures
        scheduler.current_process() is None ==> r == Err::<usize, EnvironmentAccessError>(EnvironmentAccessError::ResourceUnavailable),
        scheduler.current_process() is Some ==> {
            let env = scheduler.process_at(scheduler.current_process().unwrap()).spec_env();
            match key_error(key.spec_bytes()) {
                Some(e) => r == Err::<usize, EnvironmentAccessError>(spec_map_environment_error(e)),
                None => match lookup(env, key.spec_bytes()) {
                    None => r == Err::<usize, EnvironmentAccessError>(EnvironmentAccessError::NotFound),
                    Some(v) => if old(buffer)@.len() < v.len() {
                        r == Err::<usize, EnvironmentAccessError>(EnvironmentAccessError::BufferTooSmall)
                    } else {
                        r == Ok::<usize, EnvironmentAccessError>(v.len() as usize)
                            && final(buffer)@ == v + old(buffer)@.subrange(v.len() as int, old(buffer)@.len() as int)
                    },
                },
            }
        },
        r is Err ==> final(buffer)@ == old(buffer)@,
{
    let process_id = match scheduler.current_process_id() {
        Some(process_id) => process_id,
        None => return Err(EnvironmentAccessError::ResourceUnavailable),
    };
    let value = match scheduler.process(process_id).env(key) {
        Ok(Some(value)) => value,
        Ok(None) => return Err(EnvironmentAccessError::NotFound),
        Err(error) => return Err(map_environment_error(error)),
    };
    let bytes = value.as_bytes();
    if buffer.len() < bytes.len() {
        return Err(EnvironmentAccessError::BufferTooSmall);
    }
    let ghost before = buffer@;
    crate::process::copy_bytes(buffer, 0, bytes);
    assert(buffer@ =~= bytes@ + before.subrange(bytes@.len() as int, before.len() as int));
    Ok(bytes.len())
}

/// Lists the current process' environment into `buffer`.
pub fn current_process_list_env(scheduler: &Scheduler, buffer: &mut [u8]) -> (r: Result<usize, EnvironmentAccessError>)
    requires
        scheduler.wf(),
    ensures
        scheduler.current_process() is None ==> r == Err::<usize, EnvironmentAccessError>(EnvironmentAccessError::ResourceUnavailable),
        scheduler.current_process() is Some ==> {
            let listing = env_listing(scheduler.process_at(scheduler.current_process().unwrap()).spec_env());
            &&& listing.len() <= old(buffer)@.len() ==> r == Ok::<usize, EnvironmentAccessError>(listing.len() as usize)
                && final(buffer)@.take(listing.len() as int) == listing
            &&& listing.len() > old(buffer)@.len() ==> r == Err::<usize, EnvironmentAccessError>(EnvironmentAccessError::CapacityExceeded)
        },
{
    let process_id = match scheduler.current_process_id() {
        Some(process_id) => process_id,
        None => return Err(EnvironmentAccessError::ResourceUnavailable),
    };
    match scheduler.process(process_id).list_env_into(buffer) {
        Ok(len) => Ok(len),
        Err(error) => Err(map_environment_error(error)),
    }
}

/// Sets one environment variable of the current process.
pub fn current_process_set_env(scheduler: &mut Scheduler, key: &str, value: &str) -> (r: Result<(), EnvironmentAccessError>)
    requires
        old(scheduler).wf(),
    ensures
        final(scheduler).wf(),
        final(scheduler).same_threads(&*old(scheduler)),
        old(scheduler).current_process() is None ==> r == Err::<(), EnvironmentAccessError>(EnvironmentAccessError::ResourceUnavailable)
            && *final(scheduler) == *old(scheduler),
        old(scheduler).current_process() is Some ==> {
            let pid = old(scheduler).current_process().unwrap();
            let env = old(scheduler).process_at(pid).spec_env();
            &&& final(scheduler).has_process(pid)
            &&& final(scheduler).process_at(pid).same_except_env(&old(scheduler).process_at(pid))
            &&& forall|i: int| 0 <= i < MAX_PROCESSES && i != pid.0 ==>
                #[trigger] final(scheduler).spec_processes()[i] == old(scheduler).spec_processes()[i]
            &&& match key_error(key.spec_bytes()) {
                Some(e) => r == Err::<(), EnvironmentAccessError>(spec_map_environment_error(e)),
                None => if value.spec_bytes().len() > MAX_ENV_VALUE_LEN {
                    r == Err::<(), EnvironmentAccessError>(EnvironmentAccessError::ValueTooLong)
                } else if lookup(env, key.spec_bytes()) is None && env.len() == MAX_ENV_VARS {
                    r == Err::<(), EnvironmentAccessError>(EnvironmentAccessError::CapacityExceeded)
                } else {
                    r is Ok && lookup(final(scheduler).process_at(pid).spec_env(), key.spec_bytes()) == Some(value.spec_bytes())
                },
            }
        },
{
    let process_id = match scheduler.current_process_id() {
        Some(process_id) => process_id,
        None => return Err(EnvironmentAccessError::ResourceUnavailable),
    };
    set_process_env(scheduler, process_id, key, value)
}

/// Removes one environment variable of the current process; `NotFound` when
/// it was not set.
pub fn current_process_unset_env(scheduler: &mut Scheduler, key: &str) -> (r: Result<(), EnvironmentAccessError>)
    requires
        old(scheduler).wf(),
    ensures
        final(scheduler).wf(),
        final(scheduler).same_threads(&*old(scheduler)),
        old(scheduler).current_process() is None ==> r == Err::<(), EnvironmentAccessError>(EnvironmentAccessError::ResourceUnavailable)
            && *final(scheduler) == *old(scheduler),
        old(scheduler).current_process() is Some ==> {
            let pid = old(scheduler).current_process().unwrap();
            let env = old(scheduler).process_at(pid).spec_env();
            &&& final(scheduler).has_process(pid)
            &&& final(scheduler).process_at(pid).same_except_env(&old(scheduler).process_at(pid))
            &&& forall|i: int| 0 <= i < MAX_PROCESSES && i != pid.0 ==>
                #[trigger] final(scheduler).spec_processes()[i] == old(scheduler).spec_processes()[i]
            &&& match key_error(key.spec_bytes()) {
                Some(e) => r == Err::<(), EnvironmentAccessError>(spec_map_environment_error(e)),
                None => {
                    &&& lookup(final(scheduler).process_at(pid).spec_env(), key.spec_bytes()) is None
                    &&& (lookup(env, key.spec_bytes()) is Some ==> r is Ok)
                    &&& (lookup(env, key.spec_bytes()) is None ==> r == Err::<(), EnvironmentAccessError>(EnvironmentAccessError::NotFound))
                },
            }
        },
{
    let process_id = match scheduler.current_process_id() {
        Some(process_id) => process_id,
        None => return Err(EnvironmentAccessError::ResourceUnavailable),
    };
    let mut process = scheduler.take_process(process_id);
    let result = process.remove_env(key);
    scheduler.put_process(process_id, process);
    proof {
        assert forall|i: int| 0 <= i < MAX_THREADS && #[trigger] scheduler.spec_threads()[i] is Some implies
            scheduler.has_process(scheduler.spec_threads()[i].unwrap().spec_process_id()) by {
            assert(old(scheduler).has_process(old(scheduler).spec_threads()[i].unwrap().spec_process_id()));
        }
    }
    match result {
        Ok(true) => Ok(()),
        Ok(false) => Err(EnvironmentAccessError::NotFound),
        Err(error) => Err(map_environment_error(error)),
    }
}

/// Yields to another runnable thread: the switch to perform, if any.
pub fn yield_now(scheduler: &mut Scheduler) -> (r: Option<PreparedSwitch>)
    requires
        old(scheduler).wf(),
    ensures
        final(scheduler).wf(),
        final(scheduler).spec_processes() == old(scheduler).spec_processes(),
        match old(scheduler).spec_current() {
            None => r is None && *final(scheduler) == *old(scheduler),
            Some(c) => match old(scheduler).spec_next_runnable(Some(c)) {
                None => r is None && *final(scheduler) == *old(scheduler),
                Some(n) => if n == c {
                    r is None && *final(scheduler) == *old(scheduler)
                } else {
                    &&& r is Some && r.unwrap().current == c && r.unwrap().next == n
                    &&& final(scheduler).spec_current() == Some(n)
                    &&& final(scheduler).thread_at(n).spec_state() == ThreadState::Running
                    &&& final(scheduler).thread_at(c).spec_state() == ThreadState::Runnable
                    &&& final(scheduler).threads_same_except(&*old(scheduler), c, n)
                },
            },
        },
{
    scheduler.prepare_switch(false)
}

/// Blocks the current thread on `child_process`: the switch to perform. Once
/// the child has exited and the thread runs again, its wait result holds the
/// child's exit status.
pub fn wait_for_child(scheduler: &mut Scheduler, child_process: ProcessId) -> (r: Option<PreparedSwitch>)
    requires
        old(scheduler).wf(),
    ensures
        final(scheduler).wf(),
        final(scheduler).spec_processes() == old(scheduler).spec_processes(),
        old(scheduler).spec_current() is None ==> r is None && *final(scheduler) == *old(scheduler),
        old(scheduler).spec_current() is Some ==> final(scheduler).thread_at(old(scheduler).spec_current().unwrap()).spec_block_reason()
            == ThreadBlockReason::WaitingForChild(child_process),
        r is Some ==> r.unwrap().current == old(scheduler).spec_current().unwrap()
            && final(scheduler).spec_current() == Some(r.unwrap().next),
{
    scheduler.prepare_wait_for_child(child_process)
}

/// Ends the current process with `status`: what the platform does next.
pub fn exit_current_process(scheduler: &mut Scheduler, status: usize) -> (r: Option<ProcessExit>)
    requires
        old(scheduler).wf(),
        old(scheduler).exit_allowed(),
    ensures
        final(scheduler).wf(),
        final(scheduler).spec_idle() == old(scheduler).spec_idle(),
        exit_outcome(*old(scheduler), *final(scheduler), status, r),
{
    scheduler.prepare_exit_current_process(status)
}

} // verus!
