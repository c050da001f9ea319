//! Services of the current process that reach the root filesystem and the
//! program loader: working directory, file and directory reads, and child
//! program launch.
use vstd::prelude::*;
use vstd::string::StringSliceAdditionalSpecFns;

use crate::elf::ElfImage;
use crate::memory::kernel::{kernel_view_kept, same_layout, window_mapped, MemoryState};
use crate::memory::paging::taken_page;
use crate::memory::loader::{image_ready, lemma_taken_releasable, load_owed, load_plan, load_user_program};
use crate::memory::types::ProgramStartup;
use crate::process::{valid_cwd, ProcessId, MAX_CWD_LEN};
use crate::scheduler::{first_empty, is_runnable, next_runnable_in, round_robin_from, set_process_cwd, PreparedSwitch, Scheduler, SpawnError};
use crate::thread::{ThreadBlockReason, ThreadId, ThreadStart, ThreadState, UserThreadStart};
use crate::storage::fat32::FatResolvedPath;
use crate::storage::path::{normalize_path, spec_normalize};
use crate::storage::rootfs::RootFs;
use crate::storage::StorageError;
use crate::util::utf8_str;

verus! {

/// `path` resolved against the working directory `cwd` into a path no longer
/// than a working directory, or why it cannot be.
pub open spec fn resolved_path(cwd: Seq<u8>, path: Seq<u8>) -> Result<Seq<u8>, StorageError> {
    if path.len() == 0 {
        Err(StorageError::InvalidPath)
    } else {
        match spec_normalize(cwd, path, MAX_CWD_LEN as int) {
            None => Err(StorageError::InvalidPath),
            Some(out) => if vstd::utf8::valid_utf8(out) { Ok(out) } else { Err(StorageError::InvalidPath) },
        }
    }
}

/// The working directory of the current process, when there is one.
pub open spec fn current_cwd(scheduler: Scheduler) -> Option<Seq<u8>> {
    match scheduler.current_process() {
        Some(pid) => Some(scheduler.process_at(pid).spec_cwd()),
        None => None,
    }
}

/// Resolves `path` against `cwd`.
fn resolve_path(cwd: &str, path: &str) -> (r: Result<Vec<u8>, StorageError>)
    ensures
        match resolved_path(cwd.spec_bytes(), path.spec_bytes()) {
            Ok(out) => r is Ok && r.unwrap()@ == out,
            Err(error) => r == Err::<Vec<u8>, StorageError>(error),
        },
{
    let mut buffer: Vec<u8> = Vec::new();
    while buffer.len() < MAX_CWD_LEN
        invariant
            buffer@.len() <= MAX_CWD_LEN,
        decreases MAX_CWD_LEN - buffer@.len(),
    {
        buffer.push(0);
    }
    let normalized = normalize_path(cwd, path, buffer.as_mut_slice());
    let len = match normalized {
        Ok(len) => len,
        Err(error) => return Err(error),
    };
    let ghost full = buffer@;
    buffer.truncate(len);
    assert(buffer@ == full.subrange(0, len as int));
    if utf8_str(buffer.as_slice()).is_none() {
        return Err(StorageError::InvalidPath);
    }
    Ok(buffer)
}

/// Resolves `path` against the current process' working directory and makes
/// it the new one, when it names a directory of the root filesystem.
pub fn current_process_chdir(scheduler: &mut Scheduler, root: Option<&RootFs>, path: &str) -> (r: Result<(), StorageError>)
    requires
        old(scheduler).wf(),
    ensures
        final(scheduler).wf(),
        final(scheduler).same_threads(&*old(scheduler)),
        r is Err ==> *final(scheduler) == *old(scheduler),
        match current_cwd(*old(scheduler)) {
            None => r == Err::<(), StorageError>(StorageError::RootFsUnavailable),
            Some(cwd) => match resolved_path(cwd, path.spec_bytes()) {
                Err(error) => r == Err::<(), StorageError>(error),
                Ok(target) => match root {
                    None => r == Err::<(), StorageError>(StorageError::RootFsUnavailable),
                    Some(fs) => match fs.spec_resolve(target) {
                        Err(error) => r == Err::<(), StorageError>(error),
                        Ok(FatResolvedPath::File(_)) => r == Err::<(), StorageError>(StorageError::NotADirectory),
                        Ok(_) => if valid_cwd(target) {
                            let pid = old(scheduler).current_process().unwrap();
                            &&& r is Ok
                            &&& final(scheduler).process_at(pid).spec_cwd() == target
                            &&& final(scheduler).process_at(pid).same_except_cwd(&old(scheduler).process_at(pid))
                            &&& forall|i: int| 0 <= i < crate::scheduler::MAX_PROCESSES && i != pid.0 ==>
                                #[trigger] final(scheduler).spec_processes()[i] == old(scheduler).spec_processes()[i]
                        } else {
                            r == Err::<(), StorageError>(StorageError::InvalidPath)
                        },
                    },
                },
            },
        },
{
    let process_id = match scheduler.current_process_id() {
        Some(process_id) => process_id,
        None => return Err(StorageError::RootFsUnavailable),
    };
    let target = match resolve_path(scheduler.process(process_id).cwd(), path) {
        Ok(target) => target,
        Err(error) => return Err(error),
    };
    let text = match utf8_str(target.as_slice()) {
        Some(text) => text,
        None => return Err(StorageError::InvalidPath),
    };
    let fs = match root {
        Some(fs) => fs,
        None => return Err(StorageError::RootFsUnavailable),
    };
    match fs.ensure_dir(text) {
        Ok(()) => {},
        Err(error) => return Err(error),
    }
    match set_process_cwd(scheduler, process_id, text) {
        Some(()) => Ok(()),
        None => Err(StorageError::InvalidPath),
    }
}

/// Reads the file at `path`, resolved against the current process' working
/// directory, into `buffer`; returns its size.
pub fn current_process_read_file(scheduler: &Scheduler, root: Option<&RootFs>, path: &str, buffer: &mut [u8])
    -> (r: Result<usize, StorageError>)
    requires
        scheduler.wf(),
    ensures
        match current_cwd(*scheduler) {
            None => r == Err::<usize, StorageError>(StorageError::RootFsUnavailable),
            Some(cwd) => match resolved_path(cwd, path.spec_bytes()) {
                Err(error) => r == Err::<usize, StorageError>(error),
                Ok(target) => match root {
                    None => r == Err::<usize, StorageError>(StorageError::RootFsUnavailable),
                    Some(fs) => match fs.spec_resolve(target) {
                        Err(error) => r == Err::<usize, StorageError>(error),
                        Ok(FatResolvedPath::File(entry)) => if old(buffer)@.len() < entry.size {
                            r == Err::<usize, StorageError>(StorageError::BufferTooSmall)
                        } else {
                            match fs.fs.file_chain(&fs.device, entry.first_cluster, entry.size as int, fs.fs.partition_sector_count as int) {
                                Ok(bytes) => r == Ok::<usize, StorageError>(entry.size as usize)
                                    && final(buffer)@.take(entry.size as int) == bytes,
                                Err(error) => r == Err::<usize, StorageError>(error),
                            }
                        },
                        Ok(_) => r == Err::<usize, StorageError>(StorageError::NotAFile),
                    },
                },
            },
        },
{
    let process_id = match scheduler.current_process_id() {
        Some(process_id) => process_id,
        None => return Err(StorageError::RootFsUnavailable),
    };
    let target = match resolve_path(scheduler.process(process_id).cwd(), path) {
        Ok(target) => target,
        Err(error) => return Err(error),
    };
    let text = match utf8_str(target.as_slice()) {
        Some(text) => text,
        None => return Err(StorageError::InvalidPath),
    };
    match root {
        Some(fs) => fs.read_file_into(text, buffer),
        None => Err(StorageError::RootFsUnavailable),
    }
}

/// Lists the directory at `path`, resolved against the current process'
/// working directory, into `buffer`; returns the listing's length.
pub fn current_process_read_dir(scheduler: &Scheduler, root: Option<&RootFs>, path: &str, buffer: &mut [u8])
    -> (r: Result<usize, StorageError>)
    requires
        scheduler.wf(),
    ensures
        match current_cwd(*scheduler) {
            None => r == Err::<usize, StorageError>(StorageError::RootFsUnavailable),
            Some(cwd) => match resolved_path(cwd, path.spec_bytes()) {
                Err(error) => r == Err::<usize, StorageError>(error),
                Ok(target) => match root {
                    None => r == Err::<usize, StorageError>(StorageError::RootFsUnavailable),
                    Some(fs) => {
                        let listing = match fs.spec_resolve(target) {
                            Err(error) => Err(error),
                            Ok(FatResolvedPath::File(_)) => Err(StorageError::NotADirectory),
                            Ok(FatResolvedPath::RootDirectory) => fs.fs.list_chain(&fs.device, fs.fs.root_cluster,
                                old(buffer)@.len() as int, fs.fs.partition_sector_count as int),
                            Ok(FatResolvedPath::Directory(c)) => fs.fs.list_chain(&fs.device, c,
                                old(buffer)@.len() as int, fs.fs.partition_sector_count as int),
                        };
                        match listing {
                            Ok(names) => r == Ok::<usize, StorageError>(names.len() as usize)
                                && final(buffer)@.take(names.len() as int) == names,
                            Err(error) => r == Err::<usize, StorageError>(error),
                        }
                    },
                },
            },
        },
{
    let process_id = match scheduler.current_process_id() {
        Some(process_id) => process_id,
        None => return Err(StorageError::RootFsUnavailable),
    };
    let target = match resolve_path(scheduler.process(process_id).cwd(), path) {
        Ok(target) => target,
        Err(error) => return Err(error),
    };
    let text = match utf8_str(target.as_slice()) {
        Some(text) => text,
        None => return Err(StorageError::InvalidPath),
    };
    match root {
        Some(fs) => fs.read_dir(text, buffer),
        None => Err(StorageError::RootFsUnavailable),
    }
}


/// The launch error reported for a storage error met while finding the
/// program.
pub open spec fn spec_spawn_storage_error(error: StorageError) -> SpawnError {
    match error {
        StorageError::InvalidPath | StorageError::PathNotAbsolute | StorageError::InvalidShortName => SpawnError::InvalidPath,
        StorageError::FileNotFound | StorageError::NotAFile => SpawnError::FileNotFound,
        _ => SpawnError::ResourceUnavailable,
    }
}

fn map_storage_spawn_error(error: StorageError) -> (r: SpawnError)
    ensures
        r == spec_spawn_storage_error(error),
{
    match error {
        StorageError::InvalidPath | StorageError::PathNotAbsolute | StorageError::InvalidShortName => SpawnError::InvalidPath,
        StorageError::FileNotFound | StorageError::NotAFile => SpawnError::FileNotFound,
        _ => SpawnError::ResourceUnavailable,
    }
}

/// The program a launch of `path` from the current process would load, as
/// its resolved path and the bytes of its file, or why no file is found.
pub open spec fn spawn_source(scheduler: Scheduler, root: Option<&RootFs>, path: Seq<u8>) -> Result<(Seq<u8>, Seq<u8>), SpawnError> {
    match current_cwd(scheduler) {
        None => Err(SpawnError::ResourceUnavailable),
        Some(cwd) => match resolved_path(cwd, path) {
            Err(error) => Err(spec_spawn_storage_error(error)),
            Ok(target) => match root {
                None => Err(SpawnError::ResourceUnavailable),
                Some(fs) => match fs.spec_read_file(target) {
                    Err(error) => Err(spec_spawn_storage_error(error)),
                    Ok(bytes) => Ok((target, bytes)),
                },
            },
        },
    }
}

/// The scheduler has room for a child of the current thread: a free
/// process slot, every stream to hand down, and a free thread slot.
pub open spec fn room_for_child(scheduler: Scheduler, silent_stdio: bool) -> bool {
    let objects = scheduler.child_stdio(scheduler.spec_current().unwrap(), silent_stdio);
    &&& first_empty(scheduler.spec_processes()) is Some
    &&& objects[0] is Some && objects[1] is Some && objects[2] is Some
    &&& first_empty(scheduler.spec_threads()) is Some
}

/// Loads the program at `path`, resolved against the current process'
/// working directory, from the root filesystem and starts it as a child of
/// the current thread, with stdio inherited (output nulled when
/// `silent_stdio`). Returns the child process.
#[verifier::spinoff_prover]
#[verifier::rlimit(40)]
pub fn spawn_user_process(
    scheduler: &mut Scheduler,
    memory: &mut MemoryState,
    root: Option<&RootFs>,
    path: &str,
    argv_tail: &[u8],
    silent_stdio: bool,
) -> (r: Result<ProcessId, SpawnError>)
    requires
        old(scheduler).wf(),
        old(memory).wf(),
    ensures
        final(scheduler).wf(),
        final(memory).wf(),
        same_layout(*final(memory), *old(memory)),
        kernel_view_kept(*final(memory), *old(memory)),
        forall|a: int| #[trigger] final(memory).allocator.is_free(a) ==> old(memory).allocator.is_free(a),
        final(scheduler).spec_current() == old(scheduler).spec_current(),
        match spawn_source(*old(scheduler), root, path.spec_bytes()) {
            Err(error) => r == Err::<ProcessId, SpawnError>(error) && *final(scheduler) == *old(scheduler)
                && *final(memory) == *old(memory),
            Ok((target, bytes)) => {
                let current = old(scheduler).spec_current().unwrap();
                let parent = old(scheduler).process_at(old(scheduler).thread_at(current).spec_process_id());
                &&& load_plan(bytes, target, argv_tail@) is Err ==> r == Err::<ProcessId, SpawnError>(SpawnError::InvalidExecutable)
                &&& r == Err::<ProcessId, SpawnError>(SpawnError::InvalidExecutable)
                    ==> !load_owed(*old(memory), bytes, target, argv_tail@)
                &&& load_owed(*old(memory), bytes, target, argv_tail@) && room_for_child(*old(scheduler), silent_stdio)
                    ==> r is Ok
                &&& r is Err ==> final(scheduler).spec_processes() == old(scheduler).spec_processes()
                    && final(scheduler).spec_threads() == old(scheduler).spec_threads()
                    && (r == Err::<ProcessId, SpawnError>(SpawnError::InvalidExecutable)
                        || (r == Err::<ProcessId, SpawnError>(SpawnError::ResourceUnavailable)
                            && load_plan(bytes, target, argv_tail@) is Ok && !room_for_child(*old(scheduler), silent_stdio)))
                &&& r is Ok ==> {
                    let pid = r->Ok_0;
                    let (image, args, strings_start, stack_start) = load_plan(bytes, target, argv_tail@)->Ok_0;
                    let child = final(scheduler).process_at(pid);
                    let tid = ThreadId(first_empty(old(scheduler).spec_threads()).unwrap() as usize);
                    &&& load_plan(bytes, target, argv_tail@) is Ok
                    &&& room_for_child(*old(scheduler), silent_stdio)
                    &&& Some(pid.0 as int) == first_empty(old(scheduler).spec_processes())
                    &&& final(scheduler).has_process(pid)
                    &&& child.spec_waiting_thread() == Some(current)
                    &&& child.spec_cwd() == parent.spec_cwd()
                    &&& child.spec_env() == parent.spec_env()
                    &&& child.fd_object(0) == old(scheduler).child_stdio(current, silent_stdio)[0]
                    &&& child.fd_object(1) == old(scheduler).child_stdio(current, silent_stdio)[1]
                    &&& child.fd_object(2) == old(scheduler).child_stdio(current, silent_stdio)[2]
                    &&& final(scheduler).spec_threads() == old(scheduler).spec_threads().update(tid.0 as int,
                        Some(final(scheduler).thread_at(tid)))
                    &&& final(scheduler).thread_at(tid).spec_state() == ThreadState::Runnable
                    &&& final(scheduler).thread_at(tid).spec_process_id() == pid
                    &&& final(scheduler).thread_at(tid).spec_start() == ThreadStart::User(UserThreadStart {
                        entry_point: image.entry,
                        user_stack_top: stack_start as u64,
                    })
                    &&& image_ready(final(memory).memory, child.spec_address_space().spec_root(), stack_start as u64,
                        bytes, target, argv_tail@)
                    &&& window_mapped(final(memory).memory, child.spec_address_space().spec_root(),
                        final(memory).phys_window_end as int)
                }
            },
        },
{
    let current = match scheduler.current_thread() {
        Some(current) => current,
        None => return Err(SpawnError::ResourceUnavailable),
    };
    let (target, file) = match find_program(scheduler, root, path) {
        Ok(found) => found,
        Err(error) => return Err(error),
    };
    let text = match utf8_str(target.as_slice()) {
        Some(text) => text,
        None => return Err(SpawnError::InvalidPath),
    };
    let startup = ProgramStartup { argv0: text, argv_tail };
    let ghost before = *memory;
    let program = match load_user_program(memory, file.as_slice(), &startup) {
        Ok(program) => program,
        Err(_) => return Err(SpawnError::InvalidExecutable),
    };
    match scheduler.spawn_child_process(current, program, silent_stdio) {
        Ok(child) => Ok(child),
        Err(back) => {
            hand_back(memory, &back.owned_pages, Ghost(before));
            Err(SpawnError::ResourceUnavailable)
        },
    }
}

/// Finds the program file at `path` for a launch from the current process.
fn find_program(scheduler: &Scheduler, root: Option<&RootFs>, path: &str) -> (r: Result<(Vec<u8>, Vec<u8>), SpawnError>)
    requires
        scheduler.wf(),
    ensures
        match spawn_source(*scheduler, root, path.spec_bytes()) {
            Err(error) => r == Err::<(Vec<u8>, Vec<u8>), SpawnError>(error),
            Ok((target, bytes)) => r is Ok && r->Ok_0.0@ == target && r->Ok_0.1@ == bytes,
        },
        r is Ok ==> vstd::utf8::valid_utf8(r->Ok_0.0@),
{
    let process_id = match scheduler.current_process_id() {
        Some(process_id) => process_id,
        None => return Err(SpawnError::ResourceUnavailable),
    };
    let target = match resolve_path(scheduler.process(process_id).cwd(), path) {
        Ok(target) => target,
        Err(error) => return Err(map_storage_spawn_error(error)),
    };
    let text = match utf8_str(target.as_slice()) {
        Some(text) => text,
        None => return Err(SpawnError::InvalidPath),
    };
    let fs = match root {
        Some(fs) => fs,
        None => return Err(SpawnError::ResourceUnavailable),
    };
    match fs.read_file(text) {
        Ok(file) => Ok((target, file)),
        Err(error) => Err(map_storage_spawn_error(error)),
    }
}

/// Hands the pages of a program that could not be started back to free
/// memory.
fn hand_back(memory: &mut MemoryState, pages: &crate::memory::types::OwnedPages, before: Ghost<MemoryState>)
    requires
        before@.wf(),
        old(memory).wf(),
        same_layout(*old(memory), before@),
        kernel_view_kept(*old(memory), before@),
        forall|a: int| #[trigger] old(memory).allocator.is_free(a) ==> before@.allocator.is_free(a),
        forall|i: int| 0 <= i < pages@.len() ==> (#[trigger] pages@[i]) as int % crate::memory::types::PAGE_SIZE as int == 0
            && taken_page(pages@[i], before@.allocator, old(memory).allocator),
    ensures
        final(memory).wf(),
        same_layout(*final(memory), before@),
        kernel_view_kept(*final(memory), before@),
        forall|a: int| #[trigger] final(memory).allocator.is_free(a) ==> before@.allocator.is_free(a),
        final(memory).memory == old(memory).memory,
        forall|a: int| #[trigger] old(memory).allocator.is_free(a) ==> final(memory).allocator.is_free(a),
        forall|a: int| #[trigger] final(memory).allocator.is_free(a) ==> old(memory).allocator.is_free(a)
            || crate::memory::kernel::in_pages(pages@, a),
        old(memory).allocator.spec_regions().len() + pages@.len() <= crate::memory::types::MAX_FREE_RANGES
            ==> forall|a: int| crate::memory::kernel::in_pages(pages@, a) ==> #[trigger] final(memory).allocator.is_free(a),
{
    let ghost loaded = *memory;
    proof {
        lemma_taken_releasable(loaded, before@, pages@);
    }
    memory.release_pages(pages);
    proof {
        assert forall|a: int| #[trigger] memory.allocator.is_free(a) implies before@.allocator.is_free(a) by {
            if !loaded.allocator.is_free(a) {
                let i = choose|i: int| 0 <= i < pages@.len() && #[trigger] pages@[i] <= a
                    && a < pages@[i] + crate::memory::types::PAGE_SIZE;
                assert(taken_page(pages@[i], before@.allocator, loaded.allocator));
            }
        }
    }
}


/// What a launch that then waits for the child comes to: the outcome of
/// `spawn_user_process`, and on success the current thread blocked on the
/// child with the switch to the next thread prepared.
pub open spec fn spawn_wait_outcome(
    before: Scheduler,
    after: Scheduler,
    memory_before: MemoryState,
    memory_after: MemoryState,
    root: Option<&RootFs>,
    path: Seq<u8>,
    argv_tail: Seq<u8>,
    silent_stdio: bool,
    r: Result<(ProcessId, PreparedSwitch), SpawnError>,
) -> bool {
    &&& after.wf()
    &&& memory_after.wf()
    &&& same_layout(memory_after, memory_before)
    &&& kernel_view_kept(memory_after, memory_before)
    &&& forall|a: int| #[trigger] memory_after.allocator.is_free(a) ==> memory_before.allocator.is_free(a)
    &&& match spawn_source(before, root, path) {
        Err(error) => r == Err::<(ProcessId, PreparedSwitch), SpawnError>(error) && after == before && memory_after == memory_before,
        Ok((target, bytes)) => {
            let current = before.spec_current().unwrap();
            &&& load_plan(bytes, target, argv_tail) is Err ==> r == Err::<(ProcessId, PreparedSwitch), SpawnError>(SpawnError::InvalidExecutable)
            &&& r == Err::<(ProcessId, PreparedSwitch), SpawnError>(SpawnError::InvalidExecutable)
                ==> !load_owed(memory_before, bytes, target, argv_tail)
            &&& r == Err::<(ProcessId, PreparedSwitch), SpawnError>(SpawnError::ResourceUnavailable)
                ==> load_plan(bytes, target, argv_tail) is Ok && !room_for_child(before, silent_stdio)
            &&& r is Err ==> r->Err_0 == SpawnError::InvalidExecutable || r->Err_0 == SpawnError::ResourceUnavailable
            &&& load_owed(memory_before, bytes, target, argv_tail) && room_for_child(before, silent_stdio) ==> r is Ok
            &&& r is Ok ==> {
                let (pid, switch) = r->Ok_0;
                let (image, args, strings_start, stack_start) = load_plan(bytes, target, argv_tail)->Ok_0;
                let child = after.process_at(pid);
                &&& load_plan(bytes, target, argv_tail) is Ok
                &&& after.has_process(pid)
                &&& child.spec_waiting_thread() == Some(current)
                &&& child.fd_object(0) == before.child_stdio(current, silent_stdio)[0]
                &&& child.fd_object(1) == before.child_stdio(current, silent_stdio)[1]
                &&& child.fd_object(2) == before.child_stdio(current, silent_stdio)[2]
                &&& switch.current == current
                &&& after.spec_current() == Some(switch.next)
                &&& after.thread_at(current).spec_block_reason() == ThreadBlockReason::WaitingForChild(pid)
                &&& image_ready(memory_after.memory, child.spec_address_space().spec_root(), stack_start as u64,
                    bytes, target, argv_tail)
            }
        },
    }
}

/// A runnable thread in slot `t` of a full table means the search after
/// `current` finds a thread to run.
proof fn lemma_runnable_found(threads: Seq<Option<crate::thread::Thread>>, idle: Option<ThreadId>, current: ThreadId, t: int)
    requires
        threads.len() == crate::scheduler::MAX_THREADS,
        0 <= t < threads.len(),
        current.0 < threads.len(),
        is_runnable(threads[t]),
    ensures
        next_runnable_in(threads, idle, Some(current)) is Some,
{
    let n = threads.len() as int;
    let start = (current.0 + 1) % n;
    if idle != Some(ThreadId(t as usize)) {
        let j = if t >= start { t - start } else { t + n - start };
        lemma_search_reaches(threads, idle, start, 0, j);
    }
}

/// The search from `offset` reaches slot `start + j` for `offset <= j`, so
/// it finds a thread when that slot holds a runnable one other than idle.
proof fn lemma_search_reaches(threads: Seq<Option<crate::thread::Thread>>, idle: Option<ThreadId>, start: int, offset: int, j: int)
    requires
        threads.len() > 0,
        0 <= offset <= j < threads.len(),
        is_runnable(threads[(start + j) % (threads.len() as int)]),
        idle != Some(ThreadId(((start + j) % (threads.len() as int)) as usize)),
    ensures
        round_robin_from(threads, idle, start, offset) is Some,
    decreases j - offset,
{
    let i = (start + offset) % (threads.len() as int);
    if !(is_runnable(threads[i]) && idle != Some(ThreadId(i as usize))) {
        if offset < j {
            lemma_search_reaches(threads, idle, start, offset + 1, j);
        }
    }
}

/// Launches the program at `path` as a child of the current thread and
/// blocks the current thread until the child exits; returns the child and
/// the switch to perform. Its exit status is the current thread's wait
/// result once it runs again.
pub fn spawn_user_process_and_wait(
    scheduler: &mut Scheduler,
    memory: &mut MemoryState,
    root: Option<&RootFs>,
    path: &str,
    argv_tail: &[u8],
) -> (r: Result<(ProcessId, PreparedSwitch), SpawnError>)
    requires
        old(scheduler).wf(),
        old(memory).wf(),
    ensures
        spawn_wait_outcome(*old(scheduler), *final(scheduler), *old(memory), *final(memory), root, path.spec_bytes(), argv_tail@,
            false, r),
{
    spawn_and_wait(scheduler, memory, root, path, argv_tail, false)
}

/// As `spawn_user_process_and_wait`, with the child's standard output and
/// error nulled.
pub fn spawn_user_process_and_wait_silent(
    scheduler: &mut Scheduler,
    memory: &mut MemoryState,
    root: Option<&RootFs>,
    path: &str,
    argv_tail: &[u8],
) -> (r: Result<(ProcessId, PreparedSwitch), SpawnError>)
    requires
        old(scheduler).wf(),
        old(memory).wf(),
    ensures
        spawn_wait_outcome(*old(scheduler), *final(scheduler), *old(memory), *final(memory), root, path.spec_bytes(), argv_tail@,
            true, r),
{
    spawn_and_wait(scheduler, memory, root, path, argv_tail, true)
}

fn spawn_and_wait(
    scheduler: &mut Scheduler,
    memory: &mut MemoryState,
    root: Option<&RootFs>,
    path: &str,
    argv_tail: &[u8],
    silent_stdio: bool,
) -> (r: Result<(ProcessId, PreparedSwitch), SpawnError>)
    requires
        old(scheduler).wf(),
        old(memory).wf(),
    ensures
        spawn_wait_outcome(*old(scheduler), *final(scheduler), *old(memory), *final(memory), root, path.spec_bytes(), argv_tail@,
            silent_stdio, r),
{
    let ghost before = *scheduler;
    let child = match spawn_user_process(scheduler, memory, root, path, argv_tail, silent_stdio) {
        Ok(child) => child,
        Err(error) => return Err(error),
    };
    let ghost mid = *scheduler;
    match scheduler.prepare_wait_for_child(child) {
        Some(switch) => Ok((child, switch)),
        None => {
            proof {
                // the child's thread can run, so some thread is found
                let c = before.spec_current().unwrap();
                let tid = first_empty(before.spec_threads()).unwrap();
                let blocked = mid.spec_threads().update(c.0 as int, scheduler.spec_threads()[c.0 as int]);
                assert(before.spec_threads()[tid] is None);
                assert(tid != c.0);
                assert(blocked[tid] == mid.spec_threads()[tid]);
                assert(is_runnable(blocked[tid]));
                lemma_runnable_found(blocked, mid.spec_idle(), c, tid);
            }
            Err(SpawnError::ResourceUnavailable)
        },
    }
}

} // verus!
