//! The system-call ABI: how a trap frame names a call and its arguments, and
//! the numbers each call returns in `rax` for its outcomes.
//!
//! The call number is in `rax` and the first four arguments in `rdi`, `rsi`,
//! `rdx` and `rcx`. Failures come back as numbers counted down from
//! `usize::MAX`.
use vstd::prelude::*;

use vstd::string::StringSliceAdditionalSpecFns;

use crate::arch::TrapFrame;
use crate::env::{key_error, lookup, MAX_ENV_VALUE_LEN, MAX_ENV_VARS};
use crate::io::KernelObject;
use crate::memory::kernel::MemoryState;
use crate::process::{valid_cwd, ProcessId};
use crate::scheduler::{
    current_process_get_env, current_process_getcwd, current_process_read, current_process_set_env,
    current_process_unset_env, current_process_write, spec_map_environment_error, EnvironmentAccessError,
    PreparedSwitch, Scheduler, SpawnError, MAX_PROCESSES,
};
use crate::services::{
    current_cwd, current_process_chdir, current_process_read_dir, current_process_read_file, resolved_path,
    spawn_user_process_and_wait, spawn_wait_outcome,
};
use crate::storage::fat32::FatResolvedPath;
use crate::storage::rootfs::RootFs;
use crate::storage::StorageError;
use crate::terminal::{TerminalEndpoint, TERMINAL_OUTPUT_CAPACITY};
use crate::util::utf8_str;

verus! {

pub const SYS_READ: u64 = 0;
pub const SYS_WRITE: u64 = 1;
pub const SYS_YIELD: u64 = 2;
pub const SYS_EXIT: u64 = 3;
pub const SYS_SPAWN_WAIT: u64 = 4;
pub const SYS_READ_DIR: u64 = 5;
pub const SYS_CHDIR: u64 = 6;
pub const SYS_GETCWD: u64 = 7;
pub const SYS_READ_FILE: u64 = 8;
pub const SYS_GET_ENV: u64 = 9;
pub const SYS_SET_ENV: u64 = 10;
pub const SYS_UNSET_ENV: u64 = 11;

/// A system call, decoded from a trap frame. Addresses are user addresses
/// of the buffers, lengths their sizes in bytes.
#[derive(Clone, Copy, Debug, PartialEq, Eq, Structural)]
pub enum SyscallRequest {
    Read { fd: usize, buffer: u64, len: usize },
    Write { fd: usize, buffer: u64, len: usize },
    Yield,
    Exit { status: usize },
    SpawnWait { path: u64, path_len: usize, argv: u64, argv_len: usize },
    ReadDir { path: u64, path_len: usize, buffer: u64, buffer_len: usize },
    Chdir { path: u64, path_len: usize },
    Getcwd { buffer: u64, buffer_len: usize },
    ReadFile { path: u64, path_len: usize, buffer: u64, buffer_len: usize },
    GetEnv { key: u64, key_len: usize, buffer: u64, buffer_len: usize },
    SetEnv { key: u64, key_len: usize, value: u64, value_len: usize },
    UnsetEnv { key: u64, key_len: usize },
    /// An unknown call number; it returns 0.
    Unknown,
}

/// The call a trap frame makes.
pub open spec fn spec_request(frame: TrapFrame) -> SyscallRequest {
    let a = frame.rdi;
    let b = frame.rsi;
    let c = frame.rdx;
    let d = frame.rcx;
    if frame.rax == SYS_READ {
        SyscallRequest::Read { fd: a as usize, buffer: b, len: c as usize }
    } else if frame.rax == SYS_WRITE {
        SyscallRequest::Write { fd: a as usize, buffer: b, len: c as usize }
    } else if frame.rax == SYS_YIELD {
        SyscallRequest::Yield
    } else if frame.rax == SYS_EXIT {
        SyscallRequest::Exit { status: a as usize }
    } else if frame.rax == SYS_SPAWN_WAIT {
        SyscallRequest::SpawnWait { path: a, path_len: b as usize, argv: c, argv_len: d as usize }
    } else if frame.rax == SYS_READ_DIR {
        SyscallRequest::ReadDir { path: a, path_len: b as usize, buffer: c, buffer_len: d as usize }
    } else if frame.rax == SYS_CHDIR {
        SyscallRequest::Chdir { path: a, path_len: b as usize }
    } else if frame.rax == SYS_GETCWD {
        SyscallRequest::Getcwd { buffer: a, buffer_len: b as usize }
    } else if frame.rax == SYS_READ_FILE {
        SyscallRequest::ReadFile { path: a, path_len: b as usize, buffer: c, buffer_len: d as usize }
    } else if frame.rax == SYS_GET_ENV {
        SyscallRequest::GetEnv { key: a, key_len: b as usize, buffer: c, buffer_len: d as usize }
    } else if frame.rax == SYS_SET_ENV {
        SyscallRequest::SetEnv { key: a, key_len: b as usize, value: c, value_len: d as usize }
    } else if frame.rax == SYS_UNSET_ENV {
        SyscallRequest::UnsetEnv { key: a, key_len: b as usize }
    } else {
        SyscallRequest::Unknown
    }
}

/// The system-call ABI: the call number is `rax`, and a call's arguments, in
/// the order the call declares them, are `rdi`, `rsi`, `rdx` and `rcx`.
pub proof fn lemma_syscall_abi(f: TrapFrame)
    ensures
        f.rax == 0 ==> spec_request(f) == (SyscallRequest::Read { fd: f.rdi as usize, buffer: f.rsi, len: f.rdx as usize }),
        f.rax == 1 ==> spec_request(f) == (SyscallRequest::Write { fd: f.rdi as usize, buffer: f.rsi, len: f.rdx as usize }),
        f.rax == 2 ==> spec_request(f) == SyscallRequest::Yield,
        f.rax == 3 ==> spec_request(f) == (SyscallRequest::Exit { status: f.rdi as usize }),
        f.rax == 4 ==> spec_request(f) == (SyscallRequest::SpawnWait {
            path: f.rdi, path_len: f.rsi as usize, argv: f.rdx, argv_len: f.rcx as usize }),
        f.rax == 5 ==> spec_request(f) == (SyscallRequest::ReadDir {
            path: f.rdi, path_len: f.rsi as usize, buffer: f.rdx, buffer_len: f.rcx as usize }),
        f.rax == 6 ==> spec_request(f) == (SyscallRequest::Chdir { path: f.rdi, path_len: f.rsi as usize }),
        f.rax == 7 ==> spec_request(f) == (SyscallRequest::Getcwd { buffer: f.rdi, buffer_len: f.rsi as usize }),
        f.rax == 8 ==> spec_request(f) == (SyscallRequest::ReadFile {
            path: f.rdi, path_len: f.rsi as usize, buffer: f.rdx, buffer_len: f.rcx as usize }),
        f.rax == 9 ==> spec_request(f) == (SyscallRequest::GetEnv {
            key: f.rdi, key_len: f.rsi as usize, buffer: f.rdx, buffer_len: f.rcx as usize }),
        f.rax == 10 ==> spec_request(f) == (SyscallRequest::SetEnv {
            key: f.rdi, key_len: f.rsi as usize, value: f.rdx, value_len: f.rcx as usize }),
        f.rax == 11 ==> spec_request(f) == (SyscallRequest::UnsetEnv { key: f.rdi, key_len: f.rsi as usize }),
        f.rax > 11 ==> spec_request(f) == SyscallRequest::Unknown,
{
}

/// Two frames that agree on `rax` and the four argument registers make the
/// same call: nothing else of a frame is read.
pub proof fn lemma_request_reads_only_arguments(f: TrapFrame, g: TrapFrame)
    requires
        f.rax == g.rax,
        f.rdi == g.rdi,
        f.rsi == g.rsi,
        f.rdx == g.rdx,
        f.rcx == g.rcx,
    ensures
        spec_request(f) == spec_request(g),
{
}

/// The error numbers of the ABI, counted down from `usize::MAX` in the order
/// each call lists its failures; successes return their value (0 for calls
/// that return nothing).
pub proof fn lemma_error_numbers(n: usize)
    ensures
        spawn_wait_code(Ok(n)) == n,
        spawn_wait_code(Err(SpawnError::InvalidPath)) == usize::MAX,
        spawn_wait_code(Err(SpawnError::FileNotFound)) == usize::MAX - 1,
        spawn_wait_code(Err(SpawnError::InvalidExecutable)) == usize::MAX - 2,
        spawn_wait_code(Err(SpawnError::ResourceUnavailable)) == usize::MAX - 3,
        read_dir_code(Ok(n)) == n,
        read_dir_code(Err(StorageError::InvalidPath)) == usize::MAX,
        read_dir_code(Err(StorageError::PathNotAbsolute)) == usize::MAX,
        read_dir_code(Err(StorageError::FileNotFound)) == usize::MAX - 1,
        read_dir_code(Err(StorageError::NotADirectory)) == usize::MAX - 1,
        read_dir_code(Err(StorageError::BufferTooSmall)) == usize::MAX - 2,
        read_dir_code(Err(StorageError::RootFsUnavailable)) == usize::MAX - 3,
        chdir_code(Ok(())) == 0,
        chdir_code(Err(StorageError::InvalidPath)) == usize::MAX,
        chdir_code(Err(StorageError::FileNotFound)) == usize::MAX - 1,
        chdir_code(Err(StorageError::NotADirectory)) == usize::MAX - 1,
        chdir_code(Err(StorageError::RootFsUnavailable)) == usize::MAX - 2,
        getcwd_code(Some(n)) == n,
        getcwd_code(None) == usize::MAX,
        read_file_code(Ok(n)) == n,
        read_file_code(Err(StorageError::InvalidPath)) == usize::MAX,
        read_file_code(Err(StorageError::FileNotFound)) == usize::MAX - 1,
        read_file_code(Err(StorageError::NotAFile)) == usize::MAX - 2,
        read_file_code(Err(StorageError::BufferTooSmall)) == usize::MAX - 3,
        read_file_code(Err(StorageError::RootFsUnavailable)) == usize::MAX - 4,
        get_env_code(Ok(n)) == n,
        get_env_code(Err(EnvironmentAccessError::InvalidKey)) == usize::MAX,
        get_env_code(Err(EnvironmentAccessError::NotFound)) == usize::MAX - 1,
        get_env_code(Err(EnvironmentAccessError::BufferTooSmall)) == usize::MAX - 2,
        get_env_code(Err(EnvironmentAccessError::ResourceUnavailable)) == usize::MAX - 3,
        set_env_code(Ok(())) == 0,
        set_env_code(Err(EnvironmentAccessError::InvalidKey)) == usize::MAX,
        set_env_code(Err(EnvironmentAccessError::KeyTooLong)) == usize::MAX - 1,
        set_env_code(Err(EnvironmentAccessError::ValueTooLong)) == usize::MAX - 2,
        set_env_code(Err(EnvironmentAccessError::CapacityExceeded)) == usize::MAX - 3,
        set_env_code(Err(EnvironmentAccessError::ResourceUnavailable)) == usize::MAX - 4,
        unset_env_code(Ok(())) == 0,
        unset_env_code(Err(EnvironmentAccessError::InvalidKey)) == usize::MAX,
        unset_env_code(Err(EnvironmentAccessError::NotFound)) == usize::MAX - 1,
        unset_env_code(Err(EnvironmentAccessError::ResourceUnavailable)) == usize::MAX - 2,
{
}

/// A call number past the last known one decodes to an unknown call, which
/// `immediate_result` answers at once with 0; `finish` then changes only
/// `rax`.
pub proof fn lemma_unknown_call(frame: TrapFrame)
    requires
        frame.rax > SYS_UNSET_ENV,
    ensures
        spec_request(frame) == SyscallRequest::Unknown,
{
}

/// Decodes the system call a trap frame makes; the platform performs it and
/// puts the number it comes to in `rax`.
pub fn dispatch(frame: &TrapFrame) -> (r: SyscallRequest)
    ensures
        r == spec_request(*frame),
{
    let a = frame.rdi;
    let b = frame.rsi;
    let c = frame.rdx;
    let d = frame.rcx;
    match frame.rax {
        SYS_READ => SyscallRequest::Read { fd: a as usize, buffer: b, len: c as usize },
        SYS_WRITE => SyscallRequest::Write { fd: a as usize, buffer: b, len: c as usize },
        SYS_YIELD => SyscallRequest::Yield,
        SYS_EXIT => SyscallRequest::Exit { status: a as usize },
        SYS_SPAWN_WAIT => SyscallRequest::SpawnWait { path: a, path_len: b as usize, argv: c, argv_len: d as usize },
        SYS_READ_DIR => SyscallRequest::ReadDir { path: a, path_len: b as usize, buffer: c, buffer_len: d as usize },
        SYS_CHDIR => SyscallRequest::Chdir { path: a, path_len: b as usize },
        SYS_GETCWD => SyscallRequest::Getcwd { buffer: a, buffer_len: b as usize },
        SYS_READ_FILE => SyscallRequest::ReadFile { path: a, path_len: b as usize, buffer: c, buffer_len: d as usize },
        SYS_GET_ENV => SyscallRequest::GetEnv { key: a, key_len: b as usize, buffer: c, buffer_len: d as usize },
        SYS_SET_ENV => SyscallRequest::SetEnv { key: a, key_len: b as usize, value: c, value_len: d as usize },
        SYS_UNSET_ENV => SyscallRequest::UnsetEnv { key: a, key_len: b as usize },
        _ => SyscallRequest::Unknown,
    }
}

/// The number a `spawn wait` call returns in `rax` for `result`.
pub open spec fn spawn_wait_code(result: Result<usize, SpawnError>) -> usize {
    match result {
        Ok(status) => status,
        Err(SpawnError::InvalidPath) => usize::MAX,
        Err(SpawnError::FileNotFound) => (usize::MAX - 1) as usize,
        Err(SpawnError::InvalidExecutable) => (usize::MAX - 2) as usize,
        Err(SpawnError::ResourceUnavailable) => (usize::MAX - 3) as usize,
    }
}

/// The number a call returns at once, with no work to do: 0 for a yield
/// and for an unknown call number. Exit returns nothing; the other calls
/// return what their work comes to.
pub fn immediate_result(request: &SyscallRequest) -> (r: Option<usize>)
    ensures
        r == match *request {
            SyscallRequest::Yield | SyscallRequest::Unknown => Some(0usize),
            _ => None,
        },
{
    match request {
        SyscallRequest::Yield | SyscallRequest::Unknown => Some(0),
        _ => None,
    }
}

/// Hands a call's result back in `rax`; nothing else of the frame changes.
pub fn finish(frame: &mut TrapFrame, result: usize)
    ensures
        *final(frame) == (TrapFrame { rax: result as u64, ..*old(frame) }),
{
    frame.rax = result as u64;
}

/// What a launch-and-wait returns: the child's exit status, or an error
/// number.
pub fn spawn_wait_result(result: Result<usize, SpawnError>) -> (r: usize)
    ensures
        r == spawn_wait_code(result),
{
    match result {
        Ok(status) => status,
        Err(SpawnError::InvalidPath) => usize::MAX,
        Err(SpawnError::FileNotFound) => usize::MAX - 1,
        Err(SpawnError::InvalidExecutable) => usize::MAX - 2,
        Err(SpawnError::ResourceUnavailable) => usize::MAX - 3,
    }
}

/// The number a `read dir` call returns in `rax` for `result`.
pub open spec fn read_dir_code(result: Result<usize, StorageError>) -> usize {
    match result {
        Ok(n) => n,
        Err(StorageError::InvalidPath) | Err(StorageError::PathNotAbsolute) | Err(StorageError::InvalidShortName) => usize::MAX,
        Err(StorageError::FileNotFound) | Err(StorageError::NotADirectory) => (usize::MAX - 1) as usize,
        Err(StorageError::BufferTooSmall) => (usize::MAX - 2) as usize,
        Err(_) => (usize::MAX - 3) as usize,
    }
}

/// What a directory listing returns: its length, or an error number.
pub fn read_dir_result(result: Result<usize, StorageError>) -> (r: usize)
    ensures
        r == read_dir_code(result),
{
    match result {
        Ok(n) => n,
        Err(StorageError::InvalidPath) | Err(StorageError::PathNotAbsolute) | Err(StorageError::InvalidShortName) => usize::MAX,
        Err(StorageError::FileNotFound) | Err(StorageError::NotADirectory) => usize::MAX - 1,
        Err(StorageError::BufferTooSmall) => usize::MAX - 2,
        Err(_) => usize::MAX - 3,
    }
}

/// The number a `chdir` call returns in `rax` for `result`.
pub open spec fn chdir_code(result: Result<(), StorageError>) -> usize {
    match result {
        Ok(()) => 0,
        Err(StorageError::InvalidPath) | Err(StorageError::PathNotAbsolute) | Err(StorageError::InvalidShortName) => usize::MAX,
        Err(StorageError::FileNotFound) | Err(StorageError::NotADirectory) => (usize::MAX - 1) as usize,
        Err(_) => (usize::MAX - 2) as usize,
    }
}

/// What a change of directory returns: 0, or an error number.
pub fn chdir_result(result: Result<(), StorageError>) -> (r: usize)
    ensures
        r == chdir_code(result),
{
    match result {
        Ok(()) => 0,
        Err(StorageError::InvalidPath) | Err(StorageError::PathNotAbsolute) | Err(StorageError::InvalidShortName) => usize::MAX,
        Err(StorageError::FileNotFound) | Err(StorageError::NotADirectory) => usize::MAX - 1,
        Err(_) => usize::MAX - 2,
    }
}

/// The number a `getcwd` call returns in `rax` for `result`.
pub open spec fn getcwd_code(result: Option<usize>) -> usize {
    match result {
        Some(n) => n,
        None => usize::MAX,
    }
}

/// What reading the working directory returns: its length, or the
/// too-small error number.
pub fn getcwd_result(result: Option<usize>) -> (r: usize)
    ensures
        r == getcwd_code(result),
{
    match result {
        Some(n) => n,
        None => usize::MAX,
    }
}

/// The number a `read file` call returns in `rax` for `result`.
pub open spec fn read_file_code(result: Result<usize, StorageError>) -> usize {
    match result {
        Ok(n) => n,
        Err(StorageError::InvalidPath) | Err(StorageError::PathNotAbsolute) | Err(StorageError::InvalidShortName) => usize::MAX,
        Err(StorageError::FileNotFound) => (usize::MAX - 1) as usize,
        Err(StorageError::NotAFile) => (usize::MAX - 2) as usize,
        Err(StorageError::BufferTooSmall) => (usize::MAX - 3) as usize,
        Err(_) => (usize::MAX - 4) as usize,
    }
}

/// What reading a file returns: its size, or an error number.
pub fn read_file_result(result: Result<usize, StorageError>) -> (r: usize)
    ensures
        r == read_file_code(result),
{
    match result {
        Ok(n) => n,
        Err(StorageError::InvalidPath) | Err(StorageError::PathNotAbsolute) | Err(StorageError::InvalidShortName) => usize::MAX,
        Err(StorageError::FileNotFound) => usize::MAX - 1,
        Err(StorageError::NotAFile) => usize::MAX - 2,
        Err(StorageError::BufferTooSmall) => usize::MAX - 3,
        Err(_) => usize::MAX - 4,
    }
}

/// The number a `get env` call returns in `rax` for `result`.
pub open spec fn get_env_code(result: Result<usize, EnvironmentAccessError>) -> usize {
    match result {
        Ok(n) => n,
        Err(EnvironmentAccessError::InvalidKey) | Err(EnvironmentAccessError::KeyTooLong)
            | Err(EnvironmentAccessError::ValueTooLong) | Err(EnvironmentAccessError::CapacityExceeded) => usize::MAX,
        Err(EnvironmentAccessError::NotFound) => (usize::MAX - 1) as usize,
        Err(EnvironmentAccessError::BufferTooSmall) => (usize::MAX - 2) as usize,
        Err(EnvironmentAccessError::ResourceUnavailable) => (usize::MAX - 3) as usize,
    }
}

/// What reading an environment variable returns: the value's length, or an
/// error number.
pub fn get_env_result(result: Result<usize, EnvironmentAccessError>) -> (r: usize)
    ensures
        r == get_env_code(result),
{
    match result {
        Ok(n) => n,
        Err(EnvironmentAccessError::InvalidKey) | Err(EnvironmentAccessError::KeyTooLong)
            | Err(EnvironmentAccessError::ValueTooLong) | Err(EnvironmentAccessError::CapacityExceeded) => usize::MAX,
        Err(EnvironmentAccessError::NotFound) => usize::MAX - 1,
        Err(EnvironmentAccessError::BufferTooSmall) => usize::MAX - 2,
        Err(EnvironmentAccessError::ResourceUnavailable) => usize::MAX - 3,
    }
}

/// The number a `set env` call returns in `rax` for `result`.
pub open spec fn set_env_code(result: Result<(), EnvironmentAccessError>) -> usize {
    match result {
        Ok(()) => 0,
        Err(EnvironmentAccessError::InvalidKey) => usize::MAX,
        Err(EnvironmentAccessError::KeyTooLong) => (usize::MAX - 1) as usize,
        Err(EnvironmentAccessError::ValueTooLong) => (usize::MAX - 2) as usize,
        Err(EnvironmentAccessError::CapacityExceeded) => (usize::MAX - 3) as usize,
        Err(_) => (usize::MAX - 4) as usize,
    }
}

/// What setting an environment variable returns: 0, or an error number.
pub fn set_env_result(result: Result<(), EnvironmentAccessError>) -> (r: usize)
    ensures
        r == set_env_code(result),
{
    match result {
        Ok(()) => 0,
        Err(EnvironmentAccessError::InvalidKey) => usize::MAX,
        Err(EnvironmentAccessError::KeyTooLong) => usize::MAX - 1,
        Err(EnvironmentAccessError::ValueTooLong) => usize::MAX - 2,
        Err(EnvironmentAccessError::CapacityExceeded) => usize::MAX - 3,
        Err(_) => usize::MAX - 4,
    }
}

/// The number a `unset env` call returns in `rax` for `result`.
pub open spec fn unset_env_code(result: Result<(), EnvironmentAccessError>) -> usize {
    match result {
        Ok(()) => 0,
        Err(EnvironmentAccessError::InvalidKey) | Err(EnvironmentAccessError::KeyTooLong)
            | Err(EnvironmentAccessError::ValueTooLong) | Err(EnvironmentAccessError::CapacityExceeded) => usize::MAX,
        Err(EnvironmentAccessError::NotFound) => (usize::MAX - 1) as usize,
        Err(_) => (usize::MAX - 2) as usize,
    }
}

/// What removing an environment variable returns: 0, or an error number.
pub fn unset_env_result(result: Result<(), EnvironmentAccessError>) -> (r: usize)
    ensures
        r == unset_env_code(result),
{
    match result {
        Ok(()) => 0,
        Err(EnvironmentAccessError::InvalidKey) | Err(EnvironmentAccessError::KeyTooLong)
            | Err(EnvironmentAccessError::ValueTooLong) | Err(EnvironmentAccessError::CapacityExceeded) => usize::MAX,
        Err(EnvironmentAccessError::NotFound) => usize::MAX - 1,
        Err(_) => usize::MAX - 2,
    }
}

/// A string argument: its bytes, when they lay in user memory and are UTF-8.
pub open spec fn text_arg(bytes: Option<&[u8]>) -> Option<Seq<u8>> {
    match bytes {
        Some(b) => if vstd::utf8::valid_utf8(b@) { Some(b@) } else { None },
        None => None,
    }
}

/// A string argument, read from the bytes the user handed in.
fn user_text<'a>(bytes: Option<&'a [u8]>) -> (r: Option<&'a str>)
    ensures
        r is Some <==> text_arg(bytes) is Some,
        r is Some ==> r.unwrap().spec_bytes() == text_arg(bytes).unwrap(),
{
    match bytes {
        Some(b) => utf8_str(b),
        None => None,
    }
}

/// The length of what came back, or the error.
pub open spec fn byte_count<E>(result: Result<Seq<u8>, E>) -> Result<usize, E> {
    match result {
        Ok(bytes) => Ok(bytes.len() as usize),
        Err(error) => Err(error),
    }
}

/// Reads from a standard stream of the current process into the user's
/// buffer; 0 when the buffer is not in user memory.
pub fn syscall_read(scheduler: &Scheduler, terminal: &mut TerminalEndpoint, fd: usize, buffer: &mut [u8], buffer_mapped: bool)
    -> (r: usize)
    requires
        scheduler.wf(),
        old(terminal).wf(),
    ensures
        final(terminal).wf(),
        final(terminal).pending_output() == old(terminal).pending_output(),
        final(buffer)@.len() == old(buffer)@.len(),
        !buffer_mapped || scheduler.current_process() is None ==> r == 0 && final(buffer)@ == old(buffer)@
            && final(terminal).pending_input() == old(terminal).pending_input(),
        buffer_mapped && scheduler.current_process() is Some ==> match scheduler.process_at(scheduler.current_process().unwrap()).fd_object(fd) {
            Some(KernelObject::TerminalEndpoint) => {
                let n = if old(buffer)@.len() < old(terminal).pending_input().len() {
                    old(buffer)@.len()
                } else {
                    old(terminal).pending_input().len()
                };
                &&& r == n
                &&& final(buffer)@ == old(terminal).pending_input().take(n as int)
                    + old(buffer)@.subrange(n as int, old(buffer)@.len() as int)
                &&& final(terminal).pending_input() == old(terminal).pending_input().skip(n as int)
            },
            _ => r == 0 && final(buffer)@ == old(buffer)@
                && final(terminal).pending_input() == old(terminal).pending_input(),
        },
{
    if !buffer_mapped {
        return 0;
    }
    current_process_read(scheduler, terminal, fd, buffer)
}

/// Writes the user's buffer to a standard stream of the current process;
/// 0 when the buffer is not in user memory.
pub fn syscall_write(scheduler: &Scheduler, terminal: &mut TerminalEndpoint, fd: usize, buffer: Option<&[u8]>) -> (r: usize)
    requires
        scheduler.wf(),
        old(terminal).wf(),
    ensures
        final(terminal).wf(),
        final(terminal).pending_input() == old(terminal).pending_input(),
        buffer is None || scheduler.current_process() is None ==> r == 0
            && final(terminal).pending_output() == old(terminal).pending_output(),
        buffer is Some && scheduler.current_process() is Some ==> {
            let bytes = buffer.unwrap()@;
            match scheduler.process_at(scheduler.current_process().unwrap()).fd_object(fd) {
                Some(KernelObject::TerminalEndpoint) => {
                    let room = TERMINAL_OUTPUT_CAPACITY - old(terminal).pending_output().len();
                    let n = if bytes.len() < room { bytes.len() as int } else { room };
                    &&& r == n
                    &&& final(terminal).pending_output() == old(terminal).pending_output() + bytes.take(n)
                },
                Some(KernelObject::Null) => r == bytes.len() && final(terminal).pending_output() == old(terminal).pending_output(),
                None => r == 0 && final(terminal).pending_output() == old(terminal).pending_output(),
            }
        },
{
    match buffer {
        Some(bytes) => current_process_write(scheduler, terminal, fd, bytes),
        None => 0,
    }
}

/// Launches the program at the user's path and blocks the caller on it; a
/// path that is not user text is an invalid path, an argument block outside
/// user memory leaves no resource to launch with.
pub fn syscall_spawn_wait(
    scheduler: &mut Scheduler,
    memory: &mut MemoryState,
    root: Option<&RootFs>,
    path: Option<&[u8]>,
    argv_tail: Option<&[u8]>,
) -> (r: Result<(ProcessId, PreparedSwitch), SpawnError>)
    requires
        old(scheduler).wf(),
        old(memory).wf(),
    ensures
        text_arg(path) is None ==> r == Err::<(ProcessId, PreparedSwitch), SpawnError>(SpawnError::InvalidPath)
            && *final(scheduler) == *old(scheduler) && *final(memory) == *old(memory),
        text_arg(path) is Some && argv_tail is None
            ==> r == Err::<(ProcessId, PreparedSwitch), SpawnError>(SpawnError::ResourceUnavailable)
            && *final(scheduler) == *old(scheduler) && *final(memory) == *old(memory),
        text_arg(path) is Some && argv_tail is Some ==> spawn_wait_outcome(*old(scheduler), *final(scheduler),
            *old(memory), *final(memory), root, text_arg(path).unwrap(), argv_tail.unwrap()@, false, r),
{
    let path = match user_text(path) {
        Some(path) => path,
        None => return Err(SpawnError::InvalidPath),
    };
    let argv_tail = match argv_tail {
        Some(argv_tail) => argv_tail,
        None => return Err(SpawnError::ResourceUnavailable),
    };
    spawn_user_process_and_wait(scheduler, memory, root, path, argv_tail)
}

/// What listing the directory at `path` for the current process comes to,
/// for a buffer of `capacity` bytes.
pub open spec fn dir_listing(scheduler: Scheduler, root: Option<&RootFs>, path: Seq<u8>, capacity: int)
    -> Result<Seq<u8>, StorageError> {
    match current_cwd(scheduler) {
        None => Err(StorageError::RootFsUnavailable),
        Some(cwd) => match resolved_path(cwd, path) {
            Err(error) => Err(error),
            Ok(target) => match root {
                None => Err(StorageError::RootFsUnavailable),
                Some(fs) => match fs.spec_resolve(target) {
                    Err(error) => Err(error),
                    Ok(FatResolvedPath::File(_)) => Err(StorageError::NotADirectory),
                    Ok(FatResolvedPath::RootDirectory) => fs.fs.list_chain(&fs.device, fs.fs.root_cluster,
                        capacity, fs.fs.partition_sector_count as int),
                    Ok(FatResolvedPath::Directory(c)) => fs.fs.list_chain(&fs.device, c,
                        capacity, fs.fs.partition_sector_count as int),
                },
            },
        },
    }
}

/// Lists a directory into the user's buffer.
pub fn syscall_read_dir(scheduler: &Scheduler, root: Option<&RootFs>, path: Option<&[u8]>, buffer: &mut [u8],
    buffer_mapped: bool) -> (r: usize)
    requires
        scheduler.wf(),
    ensures
        text_arg(path) is None ==> r == usize::MAX && final(buffer)@ == old(buffer)@,
        text_arg(path) is Some && !buffer_mapped ==> r == usize::MAX - 3 && final(buffer)@ == old(buffer)@,
        text_arg(path) is Some && buffer_mapped ==> {
            let listing = dir_listing(*scheduler, root, text_arg(path).unwrap(), old(buffer)@.len() as int);
            &&& r == read_dir_code(byte_count(listing))
            &&& listing matches Ok(names) ==> final(buffer)@.take(names.len() as int) == names
        },
{
    let path = match user_text(path) {
        Some(path) => path,
        None => return usize::MAX,
    };
    if !buffer_mapped {
        return usize::MAX - 3;
    }
    let result = current_process_read_dir(scheduler, root, path, buffer);
    read_dir_result(result)
}

/// What changing the current process' directory to `path` comes to: the
/// new directory, or the error.
pub open spec fn chdir_target(scheduler: Scheduler, root: Option<&RootFs>, path: Seq<u8>) -> Result<Seq<u8>, StorageError> {
    match current_cwd(scheduler) {
        None => Err(StorageError::RootFsUnavailable),
        Some(cwd) => match resolved_path(cwd, path) {
            Err(error) => Err(error),
            Ok(target) => match root {
                None => Err(StorageError::RootFsUnavailable),
                Some(fs) => match fs.spec_resolve(target) {
                    Err(error) => Err(error),
                    Ok(FatResolvedPath::File(_)) => Err(StorageError::NotADirectory),
                    Ok(_) => if valid_cwd(target) { Ok(target) } else { Err(StorageError::InvalidPath) },
                },
            },
        },
    }
}

/// Changes the current process' working directory to the user's path.
pub fn syscall_chdir(scheduler: &mut Scheduler, root: Option<&RootFs>, path: Option<&[u8]>) -> (r: usize)
    requires
        old(scheduler).wf(),
    ensures
        final(scheduler).wf(),
        text_arg(path) is None ==> r == usize::MAX && *final(scheduler) == *old(scheduler),
        text_arg(path) is Some ==> match chdir_target(*old(scheduler), root, text_arg(path).unwrap()) {
            Err(error) => r == chdir_code(Err(error)) && *final(scheduler) == *old(scheduler),
            Ok(target) => {
                let pid = old(scheduler).current_process().unwrap();
                &&& r == 0
                &&& final(scheduler).same_threads(&*old(scheduler))
                &&& final(scheduler).process_at(pid).spec_cwd() == target
                &&& final(scheduler).process_at(pid).same_except_cwd(&old(scheduler).process_at(pid))
                &&& forall|i: int| 0 <= i < MAX_PROCESSES && i != pid.0 ==>
                    #[trigger] final(scheduler).spec_processes()[i] == old(scheduler).spec_processes()[i]
            },
        },
{
    let path = match user_text(path) {
        Some(path) => path,
        None => return usize::MAX,
    };
    let result = current_process_chdir(scheduler, root, path);
    chdir_result(result)
}

/// What reading the current process' working directory into a buffer of
/// `capacity` bytes comes to.
pub open spec fn cwd_fit(scheduler: Scheduler, capacity: int) -> Option<Seq<u8>> {
    match scheduler.current_process() {
        None => None,
        Some(pid) => {
            let cwd = scheduler.process_at(pid).spec_cwd();
            if capacity < cwd.len() { None } else { Some(cwd) }
        },
    }
}

/// Copies the current process' working directory into the user's buffer.
pub fn syscall_getcwd(scheduler: &Scheduler, buffer: &mut [u8], buffer_mapped: bool) -> (r: usize)
    requires
        scheduler.wf(),
    ensures
        !buffer_mapped ==> r == usize::MAX - 1 && final(buffer)@ == old(buffer)@,
        buffer_mapped ==> match cwd_fit(*scheduler, old(buffer)@.len() as int) {
            None => r == usize::MAX && final(buffer)@ == old(buffer)@,
            Some(cwd) => r == cwd.len() && final(buffer)@ == cwd + old(buffer)@.subrange(cwd.len() as int, old(buffer)@.len() as int),
        },
{
    if !buffer_mapped {
        return usize::MAX - 1;
    }
    let ghost before = buffer@;
    let _capacity = buffer.len();
    let result = current_process_getcwd(scheduler, buffer);
    proof {
        if let Some(cwd) = cwd_fit(*scheduler, before.len() as int) {
            assert(cwd.len() <= before.len());
            assert(result == Some(cwd.len() as usize));
        }
    }
    getcwd_result(result)
}

/// What reading a file at `path` for the current process into a buffer of
/// `capacity` bytes comes to: the file's size and bytes, or the error.
pub open spec fn file_read(scheduler: Scheduler, root: Option<&RootFs>, path: Seq<u8>, capacity: int)
    -> Result<(int, Seq<u8>), StorageError> {
    match current_cwd(scheduler) {
        None => Err(StorageError::RootFsUnavailable),
        Some(cwd) => match resolved_path(cwd, path) {
            Err(error) => Err(error),
            Ok(target) => match root {
                None => Err(StorageError::RootFsUnavailable),
                Some(fs) => match fs.spec_resolve(target) {
                    Err(error) => Err(error),
                    Ok(FatResolvedPath::File(entry)) => if capacity < entry.size {
                        Err(StorageError::BufferTooSmall)
                    } else {
                        match fs.fs.file_chain(&fs.device, entry.first_cluster, entry.size as int,
                            fs.fs.partition_sector_count as int) {
                            Ok(bytes) => Ok((entry.size as int, bytes)),
                            Err(error) => Err(error),
                        }
                    },
                    Ok(_) => Err(StorageError::NotAFile),
                },
            },
        },
    }
}

/// Reads a file into the user's buffer.
pub fn syscall_read_file(scheduler: &Scheduler, root: Option<&RootFs>, path: Option<&[u8]>, buffer: &mut [u8],
    buffer_mapped: bool) -> (r: usize)
    requires
        scheduler.wf(),
    ensures
        text_arg(path) is None ==> r == usize::MAX && final(buffer)@ == old(buffer)@,
        text_arg(path) is Some && !buffer_mapped ==> r == usize::MAX - 4 && final(buffer)@ == old(buffer)@,
        text_arg(path) is Some && buffer_mapped ==> match file_read(*scheduler, root, text_arg(path).unwrap(),
            old(buffer)@.len() as int) {
            Ok((size, bytes)) => r == size && final(buffer)@.take(size) == bytes,
            Err(error) => r == read_file_code(Err(error)),
        },
{
    let path = match user_text(path) {
        Some(path) => path,
        None => return usize::MAX,
    };
    if !buffer_mapped {
        return usize::MAX - 4;
    }
    let result = current_process_read_file(scheduler, root, path, buffer);
    read_file_result(result)
}

/// What reading variable `key` of the current process into a buffer of
/// `capacity` bytes comes to: its value, or the error.
pub open spec fn env_value(scheduler: Scheduler, key: Seq<u8>, capacity: int) -> Result<Seq<u8>, EnvironmentAccessError> {
    match scheduler.current_process() {
        None => Err(EnvironmentAccessError::ResourceUnavailable),
        Some(pid) => match key_error(key) {
            Some(e) => Err(spec_map_environment_error(e)),
            None => match lookup(scheduler.process_at(pid).spec_env(), key) {
                None => Err(EnvironmentAccessError::NotFound),
                Some(v) => if capacity < v.len() { Err(EnvironmentAccessError::BufferTooSmall) } else { Ok(v) },
            },
        },
    }
}

/// Copies an environment variable of the current process into the user's
/// buffer.
pub fn syscall_get_env(scheduler: &Scheduler, key: Option<&[u8]>, buffer: &mut [u8], buffer_mapped: bool) -> (r: usize)
    requires
        scheduler.wf(),
    ensures
        text_arg(key) is None ==> r == usize::MAX && final(buffer)@ == old(buffer)@,
        text_arg(key) is Some && !buffer_mapped ==> r == usize::MAX - 3 && final(buffer)@ == old(buffer)@,
        text_arg(key) is Some && buffer_mapped ==> {
            let value = env_value(*scheduler, text_arg(key).unwrap(), old(buffer)@.len() as int);
            &&& r == get_env_code(byte_count(value))
            &&& value matches Ok(v) ==> final(buffer)@ == v + old(buffer)@.subrange(v.len() as int, old(buffer)@.len() as int)
            &&& value is Err ==> final(buffer)@ == old(buffer)@
        },
{
    let key = match user_text(key) {
        Some(key) => key,
        None => return usize::MAX,
    };
    if !buffer_mapped {
        return usize::MAX - 3;
    }
    let result = current_process_get_env(scheduler, key, buffer);
    get_env_result(result)
}

/// What setting variable `key` to `value` for the current process comes
/// to.
pub open spec fn env_set(scheduler: Scheduler, key: Seq<u8>, value: Seq<u8>) -> Result<(), EnvironmentAccessError> {
    match scheduler.current_process() {
        None => Err(EnvironmentAccessError::ResourceUnavailable),
        Some(pid) => {
            let env = scheduler.process_at(pid).spec_env();
            match key_error(key) {
                Some(e) => Err(spec_map_environment_error(e)),
                None => if value.len() > MAX_ENV_VALUE_LEN {
                    Err(EnvironmentAccessError::ValueTooLong)
                } else if lookup(env, key) is None && env.len() == MAX_ENV_VARS {
                    Err(EnvironmentAccessError::CapacityExceeded)
                } else {
                    Ok(())
                },
            }
        },
    }
}

/// Sets an environment variable of the current process from the user's key
/// and value.
pub fn syscall_set_env(scheduler: &mut Scheduler, key: Option<&[u8]>, value: Option<&[u8]>) -> (r: usize)
    requires
        old(scheduler).wf(),
    ensures
        final(scheduler).wf(),
        text_arg(key) is None ==> r == usize::MAX && *final(scheduler) == *old(scheduler),
        text_arg(key) is Some && text_arg(value) is None ==> r == usize::MAX - 4 && *final(scheduler) == *old(scheduler),
        text_arg(key) is Some && text_arg(value) is Some ==> {
            let k = text_arg(key).unwrap();
            let v = text_arg(value).unwrap();
            &&& r == set_env_code(env_set(*old(scheduler), k, v))
            &&& final(scheduler).same_threads(&*old(scheduler))
            &&& old(scheduler).current_process() is Some ==> {
                let pid = old(scheduler).current_process().unwrap();
                &&& final(scheduler).process_at(pid).same_except_env(&old(scheduler).process_at(pid))
                &&& forall|i: int| 0 <= i < MAX_PROCESSES && i != pid.0 ==>
                    #[trigger] final(scheduler).spec_processes()[i] == old(scheduler).spec_processes()[i]
                &&& env_set(*old(scheduler), k, v) is Ok ==> lookup(final(scheduler).process_at(pid).spec_env(), k) == Some(v)
            }
        },
{
    let key = match user_text(key) {
        Some(key) => key,
        None => return usize::MAX,
    };
    let value = match user_text(value) {
        Some(value) => value,
        None => return usize::MAX - 4,
    };
    let result = current_process_set_env(scheduler, key, value);
    set_env_result(result)
}

/// What removing variable `key` of the current process comes to.
pub open spec fn env_unset(scheduler: Scheduler, key: Seq<u8>) -> Result<(), EnvironmentAccessError> {
    match scheduler.current_process() {
        None => Err(EnvironmentAccessError::ResourceUnavailable),
        Some(pid) => match key_error(key) {
            Some(e) => Err(spec_map_environment_error(e)),
            None => if lookup(scheduler.process_at(pid).spec_env(), key) is Some {
                Ok(())
            } else {
                Err(EnvironmentAccessError::NotFound)
            },
        },
    }
}

/// Removes an environment variable of the current process.
pub fn syscall_unset_env(scheduler: &mut Scheduler, key: Option<&[u8]>) -> (r: usize)
    requires
        old(scheduler).wf(),
    ensures
        final(scheduler).wf(),
        text_arg(key) is None ==> r == usize::MAX && *final(scheduler) == *old(scheduler),
        text_arg(key) is Some ==> {
            let k = text_arg(key).unwrap();
            &&& r == unset_env_code(env_unset(*old(scheduler), k))
            &&& final(scheduler).same_threads(&*old(scheduler))
            &&& old(scheduler).current_process() is Some ==> {
                let pid = old(scheduler).current_process().unwrap();
                &&& final(scheduler).process_at(pid).same_except_env(&old(scheduler).process_at(pid))
                &&& forall|i: int| 0 <= i < MAX_PROCESSES && i != pid.0 ==>
                    #[trigger] final(scheduler).spec_processes()[i] == old(scheduler).spec_processes()[i]
                &&& key_error(k) is None ==> lookup(final(scheduler).process_at(pid).spec_env(), k) is None
            }
        },
{
    let key = match user_text(key) {
        Some(key) => key,
        None => return usize::MAX,
    };
    let result = current_process_unset_env(scheduler, key);
    unset_env_result(result)
}

} // verus!
