use lazers::arch::TrapFrame;
use lazers::scheduler::{EnvironmentAccessError, SpawnError};
use lazers::storage::StorageError;
use lazers::syscall::{
    chdir_result, dispatch, get_env_result, getcwd_result, read_dir_result, read_file_result, set_env_result,
    finish, immediate_result, spawn_wait_result, unset_env_result, SyscallRequest,
};

fn frame(rax: u64, rdi: u64, rsi: u64, rdx: u64, rcx: u64) -> TrapFrame {
    TrapFrame {
        rax, rbx: 0, rcx, rdx, rbp: 0, rdi, rsi, r8: 0, r9: 0, r10: 0, r11: 0, r12: 0, r13: 0, r14: 0, r15: 0,
        vector: 0x80, error_code: 0, rip: 0, cs: 0x23, rflags: 0, rsp: 0, ss: 0,
    }
}

#[test]
fn calls_decode_from_registers() {
    assert_eq!(dispatch(&frame(0, 0, 0x1000, 16, 0)), SyscallRequest::Read { fd: 0, buffer: 0x1000, len: 16 });
    assert_eq!(dispatch(&frame(1, 1, 0x2000, 3, 0)), SyscallRequest::Write { fd: 1, buffer: 0x2000, len: 3 });
    assert_eq!(dispatch(&frame(2, 0, 0, 0, 0)), SyscallRequest::Yield);
    assert_eq!(dispatch(&frame(3, 7, 0, 0, 0)), SyscallRequest::Exit { status: 7 });
    assert_eq!(
        dispatch(&frame(4, 0x10, 5, 0x20, 6)),
        SyscallRequest::SpawnWait { path: 0x10, path_len: 5, argv: 0x20, argv_len: 6 }
    );
    assert_eq!(dispatch(&frame(6, 0x10, 5, 0, 0)), SyscallRequest::Chdir { path: 0x10, path_len: 5 });
    assert_eq!(dispatch(&frame(7, 0x30, 64, 0, 0)), SyscallRequest::Getcwd { buffer: 0x30, buffer_len: 64 });
    assert_eq!(dispatch(&frame(11, 0x10, 4, 0, 0)), SyscallRequest::UnsetEnv { key: 0x10, key_len: 4 });
    assert_eq!(dispatch(&frame(99, 1, 2, 3, 4)), SyscallRequest::Unknown);
}

#[test]
fn failures_count_down_from_the_top() {
    assert_eq!(spawn_wait_result(Ok(3)), 3);
    assert_eq!(spawn_wait_result(Err(SpawnError::InvalidPath)), usize::MAX);
    assert_eq!(spawn_wait_result(Err(SpawnError::FileNotFound)), usize::MAX - 1);
    assert_eq!(spawn_wait_result(Err(SpawnError::InvalidExecutable)), usize::MAX - 2);
    assert_eq!(spawn_wait_result(Err(SpawnError::ResourceUnavailable)), usize::MAX - 3);
    assert_eq!(read_dir_result(Err(StorageError::NotADirectory)), usize::MAX - 1);
    assert_eq!(read_dir_result(Err(StorageError::BufferTooSmall)), usize::MAX - 2);
    assert_eq!(read_dir_result(Err(StorageError::RootFsUnavailable)), usize::MAX - 3);
    assert_eq!(chdir_result(Ok(())), 0);
    assert_eq!(chdir_result(Err(StorageError::PathNotAbsolute)), usize::MAX);
    assert_eq!(chdir_result(Err(StorageError::AhciCommandTimeout)), usize::MAX - 2);
    assert_eq!(getcwd_result(None), usize::MAX);
    assert_eq!(getcwd_result(Some(1)), 1);
    assert_eq!(read_file_result(Err(StorageError::NotAFile)), usize::MAX - 2);
    assert_eq!(read_file_result(Err(StorageError::BufferTooSmall)), usize::MAX - 3);
    assert_eq!(read_file_result(Err(StorageError::InvalidGptHeader)), usize::MAX - 4);
    assert_eq!(get_env_result(Err(EnvironmentAccessError::KeyTooLong)), usize::MAX);
    assert_eq!(get_env_result(Err(EnvironmentAccessError::NotFound)), usize::MAX - 1);
    assert_eq!(set_env_result(Err(EnvironmentAccessError::CapacityExceeded)), usize::MAX - 3);
    assert_eq!(set_env_result(Err(EnvironmentAccessError::NotFound)), usize::MAX - 4);
    assert_eq!(unset_env_result(Err(EnvironmentAccessError::NotFound)), usize::MAX - 1);
    assert_eq!(unset_env_result(Err(EnvironmentAccessError::BufferTooSmall)), usize::MAX - 2);
}

#[test]
fn yield_and_unknown_calls_return_zero_in_rax() {
    let mut unknown = frame(99, 1, 2, 3, 4);
    let request = dispatch(&unknown);
    assert_eq!(immediate_result(&request), Some(0));
    finish(&mut unknown, immediate_result(&request).unwrap());
    assert_eq!(unknown.rax, 0);
    assert_eq!(unknown.rdi, 1);
    assert_eq!(unknown.rcx, 4);
    assert_eq!(immediate_result(&dispatch(&frame(2, 0, 0, 0, 0))), Some(0));
    assert_eq!(immediate_result(&dispatch(&frame(0, 1, 0x1000, 4, 0))), None);
}
