//! Process resource ownership and stdio-backed I/O.
//!
//! A process owns an address space, a handle table, its standard streams, a
//! working directory and an environment block. Threads execute within a
//! process but do not duplicate these resources.
use vstd::prelude::*;
use vstd::string::StringSliceAdditionalSpecFns;

use crate::env::{string_bytes, entries_wf, validate_key, Environment, EnvironmentError, key_error, lookup, EQUALS_SIGN};
use crate::io::{HandleId, KernelObject, StdioHandles, MAX_PROCESS_HANDLES, DEFAULT_INVALID_HANDLE};
use crate::memory::allocator::PhysicalAllocator;
use crate::memory::types::{in_owned_page, AddressSpace, OwnedPages, MAX_FREE_RANGES, PAGE_SIZE};
use crate::terminal::{TerminalEndpoint, TERMINAL_OUTPUT_CAPACITY};
use crate::thread::ThreadId;

verus! {

pub const MAX_CWD_LEN: usize = 256;
pub const SLASH: u8 = 0x2f;
pub const NEWLINE: u8 = 0x0a;

/// Scheduler-assigned identifier of a process slot.
#[derive(Clone, Copy, Debug, PartialEq, Eq, Structural)]
pub struct ProcessId(pub usize);

/// Lifecycle state of a process slot.
#[derive(Clone, Copy, Debug, PartialEq, Eq, Structural)]
pub enum ProcessState {
    Running,
    Exited(usize),
}

/// What the system does when a process exits.
#[derive(Clone, Copy, Debug, PartialEq, Eq, Structural)]
pub enum ProcessExitAction {
    Continue,
    ShutdownSystem,
}

/// The `KEY=VALUE\n` lines of an environment, in entry order.
pub open spec fn env_listing(entries: Seq<(Seq<u8>, Seq<u8>)>) -> Seq<u8>
    decreases entries.len(),
{
    if entries.len() == 0 {
        Seq::empty()
    } else {
        let last = entries.last();
        env_listing(entries.drop_last()) + last.0 + seq![EQUALS_SIGN] + last.1 + seq![NEWLINE]
    }
}

/// Whether `path` is a working directory a process can hold.
pub open spec fn valid_cwd(path: Seq<u8>) -> bool {
    0 < path.len() <= MAX_CWD_LEN && path[0] == SLASH
}

/// First free slot of a handle table.
pub open spec fn first_free(handles: Seq<Option<KernelObject>>) -> Option<int> {
    if exists|i: int| 0 <= i < handles.len() && #[trigger] handles[i] is None {
        Some(choose|i: int| 0 <= i < handles.len() && #[trigger] handles[i] is None
            && forall|j: int| 0 <= j < i ==> handles[j] is Some)
    } else {
        None
    }
}

/// The first free slot of a table whose first `k` slots are taken and
/// whose slot `k` is free is `k`.
pub proof fn lemma_first_free_at(handles: Seq<Option<KernelObject>>, k: int)
    requires
        0 <= k < handles.len(),
        handles[k] is None,
        forall|j: int| 0 <= j < k ==> #[trigger] handles[j] is Some,
    ensures
        first_free(handles) == Some(k),
{
    assert(handles[k] is None);
    let w = choose|i: int| 0 <= i < handles.len() && #[trigger] handles[i] is None
        && forall|j: int| 0 <= j < i ==> handles[j] is Some;
    if w < k {
        assert(handles[w] is Some);
    } else if w > k {
        assert(handles[k] is Some);
    }
}

/// Installs `objects` one after the other into the first free slots. Gives
/// the resulting table, the handles used, and whether every object was
/// present and found a slot; it stops at the first that was not or did not.
pub open spec fn install_all(handles: Seq<Option<KernelObject>>, objects: Seq<Option<KernelObject>>)
    -> (Seq<Option<KernelObject>>, Seq<HandleId>, bool)
    decreases objects.len(),
{
    if objects.len() == 0 {
        (handles, Seq::empty(), true)
    } else {
        match objects[0] {
            None => (handles, Seq::empty(), false),
            Some(o) => match first_free(handles) {
                None => (handles, Seq::empty(), false),
                Some(i) => {
                    let rest = install_all(handles.update(i, Some(o)), objects.drop_first());
                    (rest.0, seq![HandleId(i as usize)] + rest.1, rest.2)
                },
            },
        }
    }
}

/// Process metadata and owned resources.
pub struct Process {
    id: ProcessId,
    name: &'static str,
    address_space: AddressSpace,
    handles: Vec<Option<KernelObject>>,
    stdio: StdioHandles,
    state: ProcessState,
    waiting_thread: Option<ThreadId>,
    cwd: String,
    owned_pages: OwnedPages,
    env: Environment,
    exit_action: ProcessExitAction,
}

impl Process {
    pub closed spec fn spec_id(&self) -> ProcessId {
        self.id
    }

    pub closed spec fn spec_address_space(&self) -> AddressSpace {
        self.address_space
    }

    pub closed spec fn spec_handles(&self) -> Seq<Option<KernelObject>> {
        self.handles@
    }

    pub closed spec fn spec_stdio(&self) -> StdioHandles {
        self.stdio
    }

    pub closed spec fn spec_state(&self) -> ProcessState {
        self.state
    }

    pub closed spec fn spec_waiting_thread(&self) -> Option<ThreadId> {
        self.waiting_thread
    }

    /// Working directory bytes.
    pub closed spec fn spec_cwd(&self) -> Seq<u8> {
        string_bytes(self.cwd)
    }

    pub closed spec fn spec_owned_pages(&self) -> Seq<u64> {
        self.owned_pages@
    }

    pub closed spec fn spec_env(&self) -> Seq<(Seq<u8>, Seq<u8>)> {
        self.env@
    }

    pub closed spec fn spec_exit_action(&self) -> ProcessExitAction {
        self.exit_action
    }

    pub closed spec fn wf(&self) -> bool {
        &&& self.handles@.len() == MAX_PROCESS_HANDLES
        &&& valid_cwd(string_bytes(self.cwd))
        &&& self.owned_pages.wf()
        &&& self.env.wf()
    }

    /// What a well-formed process guarantees to other modules.
    pub proof fn lemma_wf(&self)
        requires
            self.wf(),
        ensures
            self.spec_handles().len() == MAX_PROCESS_HANDLES,
            valid_cwd(self.spec_cwd()),
    {
    }

    /// The object behind `handle`, if one is installed there.
    pub open spec fn object_at(&self, handle: HandleId) -> Option<KernelObject> {
        if handle.0 < MAX_PROCESS_HANDLES {
            self.spec_handles()[handle.0 as int]
        } else {
            None
        }
    }

    /// The object standard stream `fd` (0, 1 or 2) is bound to.
    pub open spec fn fd_object(&self, fd: usize) -> Option<KernelObject> {
        if fd == 0 {
            self.object_at(self.spec_stdio().stdin)
        } else if fd == 1 {
            self.object_at(self.spec_stdio().stdout)
        } else if fd == 2 {
            self.object_at(self.spec_stdio().stderr)
        } else {
            None
        }
    }

    /// Index of the first free handle slot.
    pub open spec fn first_free_slot(&self) -> Option<int> {
        if exists|i: int| 0 <= i < self.spec_handles().len() && #[trigger] self.spec_handles()[i] is None {
            Some(choose|i: int| 0 <= i < self.spec_handles().len() && #[trigger] self.spec_handles()[i] is None
                && forall|j: int| 0 <= j < i ==> self.spec_handles()[j] is Some)
        } else {
            None
        }
    }

    /// Only the handle table may differ from `other`.
    pub open spec fn same_except_handles(&self, other: &Self) -> bool {
        &&& self.spec_id() == other.spec_id()
        &&& self.spec_address_space() == other.spec_address_space()
        &&& self.spec_stdio() == other.spec_stdio()
        &&& self.spec_state() == other.spec_state()
        &&& self.spec_waiting_thread() == other.spec_waiting_thread()
        &&& self.spec_cwd() == other.spec_cwd()
        &&& self.spec_owned_pages() == other.spec_owned_pages()
        &&& self.spec_env() == other.spec_env()
        &&& self.spec_exit_action() == other.spec_exit_action()
    }

    /// Creates a running process with no handles, invalid stdio bindings, `/`
    /// as working directory and an empty environment.
    pub fn new(
        id: ProcessId,
        name: &'static str,
        address_space: AddressSpace,
        owned_pages: OwnedPages,
        exit_action: ProcessExitAction,
    ) -> (r: Self)
        requires
            owned_pages.wf(),
        ensures
            r.wf(),
            r.spec_handles().len() == MAX_PROCESS_HANDLES,
            r.spec_id() == id,
            r.spec_address_space() == address_space,
            forall|i: int| 0 <= i < MAX_PROCESS_HANDLES ==> #[trigger] r.spec_handles()[i] is None,
            r.spec_stdio() == (StdioHandles {
                stdin: HandleId(DEFAULT_INVALID_HANDLE),
                stdout: HandleId(DEFAULT_INVALID_HANDLE),
                stderr: HandleId(DEFAULT_INVALID_HANDLE),
            }),
            r.spec_state() == ProcessState::Running,
            r.spec_waiting_thread() is None,
            r.spec_cwd() == seq![SLASH],
            r.spec_owned_pages() == owned_pages@,
            r.spec_env() == Seq::<(Seq<u8>, Seq<u8>)>::empty(),
            r.spec_exit_action() == exit_action,
    {
        let mut handles: Vec<Option<KernelObject>> = Vec::new();
        while handles.len() < MAX_PROCESS_HANDLES
            invariant
                handles@.len() <= MAX_PROCESS_HANDLES,
                forall|i: int| 0 <= i < handles@.len() ==> #[trigger] handles@[i] is None,
            decreases MAX_PROCESS_HANDLES - handles@.len(),
        {
            handles.push(None);
        }
        let root = "/";
        proof {
            reveal_strlit("/");
        }
        let cwd = root.to_owned();
        assert(string_bytes(cwd) =~= seq![SLASH]) by {
            vstd::string::is_ascii_spec_bytes(root);
        }
        Process {
            id,
            name,
            address_space,
            handles,
            stdio: StdioHandles::empty(),
            state: ProcessState::Running,
            waiting_thread: None,
            cwd,
            owned_pages,
            env: Environment::new(),
            exit_action,
        }
    }
}


impl Process {
    /// Installs `object` into the first free handle slot.
    pub fn install_handle(&mut self, object: KernelObject) -> (r: Option<HandleId>)
        requires
            old(self).wf(),
        ensures
            final(self).wf(),
            final(self).same_except_handles(&*old(self)),
            match first_free(old(self).spec_handles()) {
                Some(i) => r == Some(HandleId(i as usize))
                    && final(self).spec_handles() == old(self).spec_handles().update(i, Some(object)),
                None => r is None && final(self).spec_handles() == old(self).spec_handles(),
            },
            r matches Some(h) ==> h.0 < old(self).spec_handles().len() && old(self).spec_handles()[h.0 as int] is None
                && forall|j: int| 0 <= j < h.0 ==> #[trigger] old(self).spec_handles()[j] is Some,
            r is None ==> forall|j: int| 0 <= j < old(self).spec_handles().len() ==> #[trigger] old(self).spec_handles()[j] is Some,
    {
        let mut index: usize = 0;
        while index < self.handles.len()
            invariant
                self.wf(),
                *self == *old(self),
                index <= self.handles@.len(),
                forall|j: int| 0 <= j < index ==> #[trigger] self.handles@[j] is Some,
            decreases self.handles@.len() - index,
        {
            if self.handles[index].is_none() {
                proof {
                    let h = self.handles@;
                    assert(h[index as int] is None);
                    let w = choose|i: int| 0 <= i < h.len() && #[trigger] h[i] is None
                        && forall|j: int| 0 <= j < i ==> h[j] is Some;
                    if w < index {
                        assert(h[w] is Some);
                    } else if w > index {
                        assert(h[index as int] is Some);
                    }
                }
                self.handles.set(index, Some(object));
                return Some(HandleId(index));
            }
            index += 1;
        }
        None
    }

    /// Replaces the standard stream bindings.
    pub fn set_stdio(&mut self, stdio: StdioHandles)
        requires
            old(self).wf(),
        ensures
            final(self).wf(),
            final(self).spec_stdio() == stdio,
            final(self).spec_handles() == old(self).spec_handles(),
            final(self).spec_id() == old(self).spec_id(),
            final(self).spec_address_space() == old(self).spec_address_space(),
            final(self).spec_state() == old(self).spec_state(),
            final(self).spec_waiting_thread() == old(self).spec_waiting_thread(),
            final(self).spec_cwd() == old(self).spec_cwd(),
            final(self).spec_owned_pages() == old(self).spec_owned_pages(),
            final(self).spec_env() == old(self).spec_env(),
            final(self).spec_exit_action() == old(self).spec_exit_action(),
    {
        self.stdio = stdio;
    }

    /// The address space this process' threads run in.
    pub fn address_space(&self) -> (r: AddressSpace)
        ensures
            r == self.spec_address_space(),
    {
        self.address_space
    }

    /// Lifecycle state.
    pub fn state(&self) -> (r: ProcessState)
        ensures
            r == self.spec_state(),
    {
        self.state
    }

    /// What the system does when this process exits.
    pub fn exit_action(&self) -> (r: ProcessExitAction)
        ensures
            r == self.spec_exit_action(),
    {
        self.exit_action
    }

    /// Marks the process as exited with `status`.
    pub fn mark_exited(&mut self, status: usize)
        requires
            old(self).wf(),
        ensures
            final(self).wf(),
            final(self).spec_state() == ProcessState::Exited(status),
            final(self).spec_handles() == old(self).spec_handles(),
            final(self).spec_stdio() == old(self).spec_stdio(),
            final(self).spec_id() == old(self).spec_id(),
            final(self).spec_address_space() == old(self).spec_address_space(),
            final(self).spec_waiting_thread() == old(self).spec_waiting_thread(),
            final(self).spec_cwd() == old(self).spec_cwd(),
            final(self).spec_owned_pages() == old(self).spec_owned_pages(),
            final(self).spec_env() == old(self).spec_env(),
            final(self).spec_exit_action() == old(self).spec_exit_action(),
    {
        self.state = ProcessState::Exited(status);
    }

    /// Remembers which thread waits synchronously on this process.
    /// The thread waiting for this process to exit, if any.
    pub fn waiting_thread(&self) -> (r: Option<ThreadId>)
        ensures
            r == self.spec_waiting_thread(),
    {
        self.waiting_thread
    }

    pub fn set_waiting_thread(&mut self, thread_id: ThreadId)
        requires
            old(self).wf(),
        ensures
            final(self).wf(),
            final(self).spec_waiting_thread() == Some(thread_id),
            final(self).spec_state() == old(self).spec_state(),
            final(self).spec_handles() == old(self).spec_handles(),
            final(self).spec_stdio() == old(self).spec_stdio(),
            final(self).spec_id() == old(self).spec_id(),
            final(self).spec_address_space() == old(self).spec_address_space(),
            final(self).spec_cwd() == old(self).spec_cwd(),
            final(self).spec_owned_pages() == old(self).spec_owned_pages(),
            final(self).spec_env() == old(self).spec_env(),
            final(self).spec_exit_action() == old(self).spec_exit_action(),
    {
        self.waiting_thread = Some(thread_id);
    }

    /// Removes and returns the thread waiting on this process.
    pub fn take_waiting_thread(&mut self) -> (r: Option<ThreadId>)
        requires
            old(self).wf(),
        ensures
            final(self).wf(),
            r == old(self).spec_waiting_thread(),
            final(self).spec_waiting_thread() is None,
            final(self).spec_state() == old(self).spec_state(),
            final(self).spec_handles() == old(self).spec_handles(),
            final(self).spec_stdio() == old(self).spec_stdio(),
            final(self).spec_id() == old(self).spec_id(),
            final(self).spec_address_space() == old(self).spec_address_space(),
            final(self).spec_cwd() == old(self).spec_cwd(),
            final(self).spec_owned_pages() == old(self).spec_owned_pages(),
            final(self).spec_env() == old(self).spec_env(),
            final(self).spec_exit_action() == old(self).spec_exit_action(),
    {
        let thread_id = self.waiting_thread;
        self.waiting_thread = None;
        thread_id
    }

    fn resolve_handle(&self, handle: HandleId) -> (r: Option<KernelObject>)
        requires
            self.wf(),
        ensures
            r == self.object_at(handle),
    {
        if handle.0 < self.handles.len() {
            self.handles[handle.0]
        } else {
            None
        }
    }

    fn resolve_fd(&self, fd: usize) -> (r: Option<KernelObject>)
        requires
            self.wf(),
        ensures
            r == self.fd_object(fd),
    {
        let handle = match fd {
            0 => self.stdio.stdin,
            1 => self.stdio.stdout,
            2 => self.stdio.stderr,
            _ => return None,
        };
        self.resolve_handle(handle)
    }

    fn install_stdio(&self, child: &mut Process, objects: [Option<KernelObject>; 3]) -> (r: Option<()>)
        requires
            old(child).wf(),
        ensures
            final(child).wf(),
            ({
                let res = install_all(old(child).spec_handles(), objects@);
                &&& final(child).spec_handles() == res.0
                &&& r is Some == res.2
                &&& r is Some ==> final(child).spec_stdio() == (StdioHandles { stdin: res.1[0], stdout: res.1[1], stderr: res.1[2] })
                &&& r is None ==> final(child).spec_stdio() == old(child).spec_stdio()
            }),
            final(child).spec_id() == old(child).spec_id(),
            final(child).spec_address_space() == old(child).spec_address_space(),
            final(child).spec_state() == old(child).spec_state(),
            final(child).spec_waiting_thread() == old(child).spec_waiting_thread(),
            final(child).spec_cwd() == old(child).spec_cwd(),
            final(child).spec_owned_pages() == old(child).spec_owned_pages(),
            final(child).spec_env() == old(child).spec_env(),
            final(child).spec_exit_action() == old(child).spec_exit_action(),
    {
        proof {
            reveal_with_fuel(install_all, 4);
            assert(objects@.drop_first().drop_first().drop_first().len() == 0);
        }
        let ghost h0 = child.spec_handles();
        let stdin = match objects[0] {
            Some(o) => match child.install_handle(o) {
                Some(h) => h,
                None => return None,
            },
            None => return None,
        };
        let ghost h1 = child.spec_handles();
        let stdout = match objects[1] {
            Some(o) => match child.install_handle(o) {
                Some(h) => h,
                None => {
                    assert(objects@.drop_first()[0] == objects@[1]);
                    return None;
                },
            },
            None => {
                assert(objects@.drop_first()[0] == objects@[1]);
                return None;
            },
        };
        let ghost h2 = child.spec_handles();
        let stderr = match objects[2] {
            Some(o) => match child.install_handle(o) {
                Some(h) => h,
                None => {
                    assert(objects@.drop_first().drop_first()[0] == objects@[2]);
                    return None;
                },
            },
            None => {
                assert(objects@.drop_first().drop_first()[0] == objects@[2]);
                return None;
            },
        };
        proof {
            assert(objects@.drop_first()[0] == objects@[1]);
            assert(objects@.drop_first().drop_first()[0] == objects@[2]);
            let r3 = install_all(h2.update(stderr.0 as int, objects@[2]), objects@.drop_first().drop_first().drop_first());
            let r2 = install_all(h1.update(stdout.0 as int, objects@[1]), objects@.drop_first().drop_first());
            let r1 = install_all(h0.update(stdin.0 as int, objects@[0]), objects@.drop_first());
            assert(r2.1 =~= seq![stderr]);
            assert(r1.1 =~= seq![stdout, stderr]);
        }
        child.set_stdio(StdioHandles::new(stdin, stdout, stderr));
        Some(())
    }

    /// Installs this process' three standard streams into `child` and binds
    /// the child's stdio to them.
    pub fn inherit_stdio_into(&self, child: &mut Process) -> (r: Option<()>)
        requires
            self.wf(),
            old(child).wf(),
        ensures
            final(child).wf(),
            ({
                let res = install_all(old(child).spec_handles(), seq![self.fd_object(0), self.fd_object(1), self.fd_object(2)]);
                &&& final(child).spec_handles() == res.0
                &&& r is Some == res.2
                &&& r is Some ==> final(child).spec_stdio() == (StdioHandles { stdin: res.1[0], stdout: res.1[1], stderr: res.1[2] })
                &&& r is None ==> final(child).spec_stdio() == old(child).spec_stdio()
            }),
            final(child).spec_id() == old(child).spec_id(),
            final(child).spec_address_space() == old(child).spec_address_space(),
            final(child).spec_state() == old(child).spec_state(),
            final(child).spec_waiting_thread() == old(child).spec_waiting_thread(),
            final(child).spec_cwd() == old(child).spec_cwd(),
            final(child).spec_owned_pages() == old(child).spec_owned_pages(),
            final(child).spec_env() == old(child).spec_env(),
            final(child).spec_exit_action() == old(child).spec_exit_action(),
    {
        let objects = [self.resolve_fd(0), self.resolve_fd(1), self.resolve_fd(2)];
        assert(objects@ =~= seq![self.fd_object(0), self.fd_object(1), self.fd_object(2)]);
        self.install_stdio(child, objects)
    }

    /// Like `inherit_stdio_into`, but the child's output streams go to the
    /// null object; only stdin is shared.
    pub fn inherit_stdio_silent_into(&self, child: &mut Process) -> (r: Option<()>)
        requires
            self.wf(),
            old(child).wf(),
        ensures
            final(child).wf(),
            ({
                let res = install_all(old(child).spec_handles(),
                    seq![self.fd_object(0), Some(KernelObject::Null), Some(KernelObject::Null)]);
                &&& final(child).spec_handles() == res.0
                &&& r is Some == res.2
                &&& r is Some ==> final(child).spec_stdio() == (StdioHandles { stdin: res.1[0], stdout: res.1[1], stderr: res.1[2] })
                &&& r is None ==> final(child).spec_stdio() == old(child).spec_stdio()
            }),
            final(child).spec_id() == old(child).spec_id(),
            final(child).spec_address_space() == old(child).spec_address_space(),
            final(child).spec_state() == old(child).spec_state(),
            final(child).spec_waiting_thread() == old(child).spec_waiting_thread(),
            final(child).spec_cwd() == old(child).spec_cwd(),
            final(child).spec_owned_pages() == old(child).spec_owned_pages(),
            final(child).spec_env() == old(child).spec_env(),
            final(child).spec_exit_action() == old(child).spec_exit_action(),
    {
        let objects = [self.resolve_fd(0), Some(KernelObject::Null), Some(KernelObject::Null)];
        assert(objects@ =~= seq![self.fd_object(0), Some(KernelObject::Null), Some(KernelObject::Null)]);
        self.install_stdio(child, objects)
    }
}


/// Copies `bytes` into `buffer` at `at`.
pub(crate) fn copy_bytes(buffer: &mut [u8], at: usize, bytes: &[u8])
    requires
        at + bytes@.len() <= old(buffer)@.len(),
    ensures
        final(buffer)@ == old(buffer)@.subrange(0, at as int) + bytes@
            + old(buffer)@.subrange(at + bytes@.len(), old(buffer)@.len() as int),
{
    let total = buffer.len();
    let mut index: usize = 0;
    while index < bytes.len()
        invariant
            total == buffer@.len(),
            at + bytes@.len() <= buffer@.len(),
            buffer@.len() == old(buffer)@.len(),
            index <= bytes@.len(),
            buffer@ == old(buffer)@.subrange(0, at as int) + bytes@.take(index as int)
                + old(buffer)@.subrange(at + index, old(buffer)@.len() as int),
        decreases bytes@.len() - index,
    {
        buffer[at + index] = bytes[index];
        index += 1;
        assert(buffer@ =~= old(buffer)@.subrange(0, at as int) + bytes@.take(index as int)
            + old(buffer)@.subrange(at + index, old(buffer)@.len() as int));
    }
    assert(bytes@.take(bytes@.len() as int) =~= bytes@);
}

impl Process {
    /// Only the working directory may differ from `other`.
    pub open spec fn same_except_cwd(&self, other: &Self) -> bool {
        &&& self.spec_id() == other.spec_id()
        &&& self.spec_address_space() == other.spec_address_space()
        &&& self.spec_handles() == other.spec_handles()
        &&& self.spec_stdio() == other.spec_stdio()
        &&& self.spec_state() == other.spec_state()
        &&& self.spec_waiting_thread() == other.spec_waiting_thread()
        &&& self.spec_owned_pages() == other.spec_owned_pages()
        &&& self.spec_env() == other.spec_env()
        &&& self.spec_exit_action() == other.spec_exit_action()
    }

    /// Only the environment may differ from `other`.
    pub open spec fn same_except_env(&self, other: &Self) -> bool {
        &&& self.spec_id() == other.spec_id()
        &&& self.spec_address_space() == other.spec_address_space()
        &&& self.spec_handles() == other.spec_handles()
        &&& self.spec_stdio() == other.spec_stdio()
        &&& self.spec_state() == other.spec_state()
        &&& self.spec_waiting_thread() == other.spec_waiting_thread()
        &&& self.spec_cwd() == other.spec_cwd()
        &&& self.spec_owned_pages() == other.spec_owned_pages()
        &&& self.spec_exit_action() == other.spec_exit_action()
    }

    /// The working directory, an absolute path.
    pub fn cwd(&self) -> (r: &str)
        requires
            self.wf(),
        ensures
            r.spec_bytes() == self.spec_cwd(),
    {
        self.cwd.as_str()
    }

    /// Replaces the working directory; refused (`None`, nothing changed) for an
    /// empty or relative path or one longer than the directory capacity.
    pub fn set_cwd(&mut self, cwd: &str) -> (r: Option<()>)
        requires
            old(self).wf(),
        ensures
            final(self).wf(),
            final(self).same_except_cwd(&*old(self)),
            r is Some == valid_cwd(cwd.spec_bytes()),
            r is Some ==> final(self).spec_cwd() == cwd.spec_bytes(),
            r is None ==> final(self).spec_cwd() == old(self).spec_cwd(),
    {
        let bytes = cwd.as_bytes();
        if bytes.len() == 0 || bytes[0] != SLASH || bytes.len() > MAX_CWD_LEN {
            return None;
        }
        self.cwd = cwd.to_owned();
        Some(())
    }

    /// Gives `child` this process' working directory; always succeeds.
    pub fn inherit_cwd_into(&self, child: &mut Process) -> (r: Option<()>)
        requires
            self.wf(),
            old(child).wf(),
        ensures
            r is Some,
            final(child).wf(),
            final(child).same_except_cwd(&*old(child)),
            final(child).spec_cwd() == self.spec_cwd(),
    {
        child.set_cwd(self.cwd())
    }

    /// Copies the working directory into `buffer`; `None` when it does not fit.
    pub fn copy_cwd_into(&self, buffer: &mut [u8]) -> (r: Option<usize>)
        requires
            self.wf(),
        ensures
            old(buffer)@.len() < self.spec_cwd().len() ==> r is None && final(buffer)@ == old(buffer)@,
            old(buffer)@.len() >= self.spec_cwd().len() ==> r == Some(self.spec_cwd().len() as usize)
                && final(buffer)@ == self.spec_cwd() + old(buffer)@.subrange(self.spec_cwd().len() as int, old(buffer)@.len() as int),
    {
        let cwd = self.cwd.as_str().as_bytes();
        if buffer.len() < cwd.len() {
            return None;
        }
        copy_bytes(buffer, 0, cwd);
        assert(old(buffer)@.subrange(0, 0) + cwd@ =~= cwd@);
        Some(cwd.len())
    }

    /// Removes the owned page list, leaving the process owning none.
    pub fn take_owned_pages(&mut self) -> (r: OwnedPages)
        requires
            old(self).wf(),
        ensures
            final(self).wf(),
            r.wf(),
            r@ == old(self).spec_owned_pages(),
            final(self).spec_owned_pages() == Seq::<u64>::empty(),
            final(self).spec_id() == old(self).spec_id(),
            final(self).spec_address_space() == old(self).spec_address_space(),
            final(self).spec_handles() == old(self).spec_handles(),
            final(self).spec_stdio() == old(self).spec_stdio(),
            final(self).spec_state() == old(self).spec_state(),
            final(self).spec_waiting_thread() == old(self).spec_waiting_thread(),
            final(self).spec_cwd() == old(self).spec_cwd(),
            final(self).spec_env() == old(self).spec_env(),
            final(self).spec_exit_action() == old(self).spec_exit_action(),
    {
        let mut pages = OwnedPages::empty();
        core::mem::swap(&mut pages, &mut self.owned_pages);
        pages
    }

    /// Consumes the process and returns the pages it owns.
    pub fn release_owned_pages(self) -> (r: OwnedPages)
        requires
            self.wf(),
        ensures
            r.wf(),
            r@ == self.spec_owned_pages(),
    {
        self.owned_pages
    }

    /// Consumes the process and returns its pages to the allocator.
    pub fn release_resources(self, allocator: &mut PhysicalAllocator)
        requires
            self.wf(),
            old(allocator).wf(),
            old(allocator).spec_regions().len() + self.spec_owned_pages().len() <= MAX_FREE_RANGES,
            forall|i: int| 0 <= i < self.spec_owned_pages().len() ==> #[trigger] self.spec_owned_pages()[i] + PAGE_SIZE <= u64::MAX,
        ensures
            final(allocator).wf(),
            forall|a: int| #[trigger] final(allocator).is_free(a) <==> old(allocator).is_free(a)
                || in_owned_page(self.spec_owned_pages(), a),
    {
        self.release_owned_pages().release(allocator);
    }

    /// Reads from standard stream `fd` into `buffer` until it is full or the
    /// stream has no more input; returns the byte count. Descriptors other
    /// than 0, 1 and 2, and unbound streams, read nothing.
    pub fn read(&self, terminal: &mut TerminalEndpoint, fd: usize, buffer: &mut [u8]) -> (r: usize)
        requires
            self.wf(),
            old(terminal).wf(),
        ensures
            final(terminal).wf(),
            final(terminal).pending_output() == old(terminal).pending_output(),
            final(buffer)@.len() == old(buffer)@.len(),
            match self.fd_object(fd) {
                Some(KernelObject::TerminalEndpoint) => {
                    let n = if old(buffer)@.len() < old(terminal).pending_input().len() {
                        old(buffer)@.len()
                    } else {
                        old(terminal).pending_input().len()
                    };
                    &&& r == n
                    &&& final(buffer)@ == old(terminal).pending_input().take(n as int)
                        + old(buffer)@.subrange(n as int, old(buffer)@.len() as int)
                    &&& final(terminal).pending_input() == old(terminal).pending_input().skip(n as int)
                },
                _ => r == 0 && final(buffer)@ == old(buffer)@
                    && final(terminal).pending_input() == old(terminal).pending_input(),
            },
    {
        let object = match self.resolve_fd(fd) {
            Some(object) => object,
            None => return 0,
        };
        let ghost input = terminal.pending_input();
        let mut read: usize = 0;
        while read < buffer.len()
            invariant
                terminal.wf(),
                self.wf(),
                self.fd_object(fd) == Some(object),
                terminal.pending_output() == old(terminal).pending_output(),
                input == old(terminal).pending_input(),
                buffer@.len() == old(buffer)@.len(),
                read <= buffer@.len(),
                object == KernelObject::TerminalEndpoint ==> read <= input.len()
                    && terminal.pending_input() == input.skip(read as int)
                    && buffer@ == input.take(read as int) + old(buffer)@.subrange(read as int, old(buffer)@.len() as int),
                object == KernelObject::Null ==> read == 0 && buffer@ == old(buffer)@
                    && terminal.pending_input() == input,
            ensures
                terminal.wf(),
                terminal.pending_output() == old(terminal).pending_output(),
                buffer@.len() == old(buffer)@.len(),
                object == KernelObject::TerminalEndpoint ==> read <= input.len()
                    && (read == buffer@.len() || read == input.len())
                    && terminal.pending_input() == input.skip(read as int)
                    && buffer@ == input.take(read as int) + old(buffer)@.subrange(read as int, old(buffer)@.len() as int),
                object == KernelObject::Null ==> read == 0 && buffer@ == old(buffer)@
                    && terminal.pending_input() == input,
            decreases buffer@.len() - read,
        {
            let byte = match object.read_byte(terminal) {
                Some(byte) => byte,
                None => break,
            };
            proof {
                assert(input.skip(read as int)[0] == input[read as int]);
                assert(input.skip(read as int).drop_first() =~= input.skip(read + 1));
            }
            buffer[read] = byte;
            read += 1;
            assert(buffer@ =~= input.take(read as int) + old(buffer)@.subrange(read as int, old(buffer)@.len() as int));
        }
        read
    }

    /// Writes `buffer` to standard stream `fd` until the stream refuses a
    /// byte; returns how many were accepted. Descriptors other than 0, 1 and
    /// 2, and unbound streams, accept nothing; the null object accepts all.
    pub fn write(&self, terminal: &mut TerminalEndpoint, fd: usize, buffer: &[u8]) -> (r: usize)
        requires
            self.wf(),
            old(terminal).wf(),
        ensures
            final(terminal).wf(),
            final(terminal).pending_input() == old(terminal).pending_input(),
            match self.fd_object(fd) {
                Some(KernelObject::TerminalEndpoint) => {
                    let room = TERMINAL_OUTPUT_CAPACITY - old(terminal).pending_output().len();
                    let n = if buffer@.len() < room { buffer@.len() as int } else { room };
                    &&& r == n
                    &&& final(terminal).pending_output() == old(terminal).pending_output() + buffer@.take(n)
                },
                Some(KernelObject::Null) => r == buffer@.len()
                    && final(terminal).pending_output() == old(terminal).pending_output(),
                None => r == 0 && final(terminal).pending_output() == old(terminal).pending_output(),
            },
    {
        let object = match self.resolve_fd(fd) {
            Some(object) => object,
            None => return 0,
        };
        let ghost output = terminal.pending_output();
        proof {
            terminal.lemma_within_capacity();
        }
        let mut written: usize = 0;
        while written < buffer.len()
            invariant
                terminal.wf(),
                terminal.pending_input() == old(terminal).pending_input(),
                output == old(terminal).pending_output(),
                output.len() <= TERMINAL_OUTPUT_CAPACITY,
                written <= buffer@.len(),
                object == KernelObject::TerminalEndpoint ==> output.len() + written <= TERMINAL_OUTPUT_CAPACITY
                    && terminal.pending_output() == output + buffer@.take(written as int),
                object == KernelObject::Null ==> terminal.pending_output() == output,
            ensures
                terminal.wf(),
                terminal.pending_input() == old(terminal).pending_input(),
                written <= buffer@.len(),
                object == KernelObject::TerminalEndpoint ==> output.len() + written <= TERMINAL_OUTPUT_CAPACITY
                    && (written == buffer@.len() || output.len() + written == TERMINAL_OUTPUT_CAPACITY)
                    && terminal.pending_output() == output + buffer@.take(written as int),
                object == KernelObject::Null ==> written == buffer@.len() && terminal.pending_output() == output,
            decreases buffer@.len() - written,
        {
            if !object.write_byte(terminal, buffer[written]) {
                break;
            }
            written += 1;
            assert(output + buffer@.take(written as int) =~= (output + buffer@.take(written - 1)).push(buffer@[written - 1]));
        }
        proof {
            assert(terminal.wf());
        }
        written
    }
}


impl Process {
    /// Looks up one environment variable after checking the key.
    pub fn env(&self, key: &str) -> (r: Result<Option<&str>, EnvironmentError>)
        requires
            self.wf(),
        ensures
            match key_error(key.spec_bytes()) {
                Some(e) => r == Err::<Option<&str>, EnvironmentError>(e),
                None => r is Ok && match lookup(self.spec_env(), key.spec_bytes()) {
                    Some(v) => r.unwrap() is Some && r.unwrap().unwrap().spec_bytes() == v,
                    None => r.unwrap() is None,
                },
            },
    {
        validate_key(key)?;
        Ok(self.env.get(key))
    }

    /// Inserts or updates one environment variable.
    pub fn set_env(&mut self, key: &str, value: &str) -> (r: Result<(), EnvironmentError>)
        requires
            old(self).wf(),
        ensures
            final(self).wf(),
            final(self).same_except_env(&*old(self)),
            match key_error(key.spec_bytes()) {
                Some(e) => r == Err::<(), EnvironmentError>(e) && final(self).spec_env() == old(self).spec_env(),
                None => if value.spec_bytes().len() > crate::env::MAX_ENV_VALUE_LEN {
                    r == Err::<(), EnvironmentError>(EnvironmentError::ValueTooLong) && final(self).spec_env() == old(self).spec_env()
                } else if lookup(old(self).spec_env(), key.spec_bytes()) is None
                    && old(self).spec_env().len() == crate::env::MAX_ENV_VARS {
                    r == Err::<(), EnvironmentError>(EnvironmentError::CapacityExceeded) && final(self).spec_env() == old(self).spec_env()
                } else {
                    &&& r is Ok
                    &&& lookup(final(self).spec_env(), key.spec_bytes()) == Some(value.spec_bytes())
                    &&& forall|k: Seq<u8>| k != key.spec_bytes() ==> #[trigger] lookup(final(self).spec_env(), k) == lookup(old(self).spec_env(), k)
                },
            },
    {
        let r = self.env.set(key, value);
        proof {
            assert forall|k: Seq<u8>| k != key.spec_bytes() implies #[trigger] lookup(self.spec_env(), k)
                == lookup(old(self).spec_env(), k) by {
                assert(self.env.spec_get(k) == old(self).env.spec_get(k));
            }
        }
        r
    }

    /// Removes one environment variable after checking the key; tells whether
    /// it was set.
    pub fn remove_env(&mut self, key: &str) -> (r: Result<bool, EnvironmentError>)
        requires
            old(self).wf(),
        ensures
            final(self).wf(),
            final(self).same_except_env(&*old(self)),
            match key_error(key.spec_bytes()) {
                Some(e) => r == Err::<bool, EnvironmentError>(e) && final(self).spec_env() == old(self).spec_env(),
                None => {
                    &&& r == Ok::<bool, EnvironmentError>(lookup(old(self).spec_env(), key.spec_bytes()) is Some)
                    &&& lookup(final(self).spec_env(), key.spec_bytes()) is None
                    &&& forall|k: Seq<u8>| k != key.spec_bytes() ==> #[trigger] lookup(final(self).spec_env(), k) == lookup(old(self).spec_env(), k)
                },
            },
    {
        validate_key(key)?;
        let removed = self.env.remove(key);
        proof {
            assert forall|k: Seq<u8>| k != key.spec_bytes() implies #[trigger] lookup(self.spec_env(), k)
                == lookup(old(self).spec_env(), k) by {
                assert(self.env.spec_get(k) == old(self).env.spec_get(k));
            }
        }
        Ok(removed)
    }

    /// Copies this process' environment into `child`'s, replacing it.
    pub fn inherit_env_into(&self, child: &mut Process) -> (r: Result<(), EnvironmentError>)
        requires
            self.wf(),
            old(child).wf(),
        ensures
            r is Ok,
            final(child).wf(),
            final(child).same_except_env(&*old(child)),
            final(child).spec_env() == self.spec_env(),
    {
        self.env.inherit_into(&mut child.env)
    }

    /// Writes the environment as `KEY=VALUE` lines into `buffer` and returns
    /// the byte count; `CapacityExceeded` when the listing does not fit.
    pub fn list_env_into(&self, buffer: &mut [u8]) -> (r: Result<usize, EnvironmentError>)
        requires
            self.wf(),
        ensures
            env_listing(self.spec_env()).len() <= old(buffer)@.len() ==>
                r == Ok::<usize, EnvironmentError>(env_listing(self.spec_env()).len() as usize)
                && final(buffer)@.take(env_listing(self.spec_env()).len() as int) == env_listing(self.spec_env()),
            env_listing(self.spec_env()).len() > old(buffer)@.len() ==>
                r == Err::<usize, EnvironmentError>(EnvironmentError::CapacityExceeded),
    {
        let total = buffer.len();
        let mut written: usize = 0;
        let mut index: usize = 0;
        let count = self.env.len();
        while index < count
            invariant
                self.wf(),
                count == self.spec_env().len(),
                total == buffer@.len(),
                total == old(buffer)@.len(),
                index <= count,
                written as int == env_listing(self.spec_env().take(index as int)).len(),
                written <= total,
                buffer@.take(written as int) == env_listing(self.spec_env().take(index as int)),
            decreases count - index,
        {
            let (key, value) = self.env.entry(index);
            let key_bytes = key.as_bytes();
            let value_bytes = value.as_bytes();
            let ghost entries = self.spec_env();
            proof {
                assert(entries.take(index + 1).drop_last() =~= entries.take(index as int));
                assert(entries.take(index + 1).last() == entries[index as int]);
            }
            if key_bytes.len() > total - written || value_bytes.len() > total - written - key_bytes.len()
                || total - written - key_bytes.len() - value_bytes.len() < 2 {
                proof {
                    lemma_listing_grows(entries, index as int + 1);
                }
                return Err(EnvironmentError::CapacityExceeded);
            }
            let ghost before = buffer@;
            copy_bytes(buffer, written, key_bytes);
            buffer[written + key_bytes.len()] = EQUALS_SIGN;
            copy_bytes(buffer, written + key_bytes.len() + 1, value_bytes);
            buffer[written + key_bytes.len() + 1 + value_bytes.len()] = NEWLINE;
            let next = written + key_bytes.len() + value_bytes.len() + 2;
            proof {
                let line = key_bytes@ + seq![EQUALS_SIGN] + value_bytes@ + seq![NEWLINE];
                assert(env_listing(entries.take(index + 1)) == env_listing(entries.take(index as int)) + line);
                assert(buffer@.take(next as int) =~= before.take(written as int) + line);
            }
            written = next;
            index += 1;
        }
        assert(self.spec_env().take(count as int) =~= self.spec_env());
        Ok(written)
    }
}

/// A listing is at least as long as the listing of any prefix of it.
proof fn lemma_listing_grows(entries: Seq<(Seq<u8>, Seq<u8>)>, n: int)
    requires
        0 <= n <= entries.len(),
    ensures
        env_listing(entries.take(n)).len() <= env_listing(entries).len(),
    decreases entries.len() - n,
{
    if n < entries.len() {
        lemma_listing_grows(entries, n + 1);
        assert(entries.take(n + 1).drop_last() =~= entries.take(n));
    } else {
        assert(entries.take(n) =~= entries);
    }
}

} // verus!
