use lazers::bootstrap::{create_bootstrap_process, BootstrapProcessConfig};
use lazers::memory::kernel::{MemoryRegion, MemoryRegionKind, MemoryState};
use lazers::memory::phys::PhysicalMemory;
use lazers::memory::types::AddressSpace;
use lazers::scheduler::{create_kernel_thread, current_process_getcwd, Scheduler, SpawnError};
use lazers::services::{
    current_process_chdir, current_process_read_dir, current_process_read_file, spawn_user_process_and_wait,
    spawn_user_process_and_wait_silent,
};
use lazers::storage::StorageError;
use lazers::syscall::{
    syscall_chdir, syscall_get_env, syscall_getcwd, syscall_read_dir, syscall_read_file, syscall_set_env,
    syscall_spawn_wait, syscall_unset_env,
};

fn running_scheduler() -> Scheduler {
    let mut scheduler = Scheduler::new(0x10_0000);
    let config = BootstrapProcessConfig { name: "kernel", terminal_endpoint: true };
    let process = create_bootstrap_process(&mut scheduler, AddressSpace::new(0x1000), config);
    create_kernel_thread(&mut scheduler, "shell", process, 0x1);
    scheduler.start().unwrap();
    scheduler
}

fn memory_state() -> MemoryState {
    let memory = PhysicalMemory::new(0x100_0000, 0x2_0000);
    let mut state = MemoryState::new(memory);
    let regions = [MemoryRegion { start: 0x100_0000, page_count: 32, kind: MemoryRegionKind::Usable }];
    state.initialize_allocator(&regions, None).unwrap();
    state
}

#[test]
fn services_need_a_current_process() {
    let mut scheduler = Scheduler::new(0x10_0000);
    assert_eq!(current_process_chdir(&mut scheduler, None, "/"), Err(StorageError::RootFsUnavailable));
    let mut buffer = [0u8; 8];
    assert_eq!(current_process_read_file(&scheduler, None, "/a", &mut buffer), Err(StorageError::RootFsUnavailable));
    assert_eq!(current_process_read_dir(&scheduler, None, "/", &mut buffer), Err(StorageError::RootFsUnavailable));
    let mut memory = memory_state();
    assert!(matches!(
        spawn_user_process_and_wait(&mut scheduler, &mut memory, None, "/bin/a", b""),
        Err(SpawnError::ResourceUnavailable)
    ));
}

#[test]
fn empty_paths_are_invalid() {
    let mut scheduler = running_scheduler();
    assert_eq!(current_process_chdir(&mut scheduler, None, ""), Err(StorageError::InvalidPath));
    let mut buffer = [0u8; 8];
    assert_eq!(current_process_read_file(&scheduler, None, "", &mut buffer), Err(StorageError::InvalidPath));
    let mut memory = memory_state();
    assert!(matches!(
        spawn_user_process_and_wait_silent(&mut scheduler, &mut memory, None, "", b""),
        Err(SpawnError::InvalidPath)
    ));
}

#[test]
fn without_a_root_filesystem_nothing_is_found() {
    let mut scheduler = running_scheduler();
    assert_eq!(current_process_chdir(&mut scheduler, None, "bin"), Err(StorageError::RootFsUnavailable));
    let mut cwd = [0u8; 8];
    assert_eq!(current_process_getcwd(&scheduler, &mut cwd), Some(1));
    assert_eq!(cwd[0], b'/');
    let mut buffer = [0u8; 8];
    assert_eq!(current_process_read_dir(&scheduler, None, "..", &mut buffer), Err(StorageError::RootFsUnavailable));
    let mut memory = memory_state();
    assert!(matches!(
        spawn_user_process_and_wait(&mut scheduler, &mut memory, None, "/bin/a", b""),
        Err(SpawnError::ResourceUnavailable)
    ));
}

#[test]
fn system_calls_check_their_user_arguments() {
    let mut scheduler = running_scheduler();
    let mut buffer = [0u8; 16];
    let bad_utf8: &[u8] = &[0xff, 0xfe];

    assert_eq!(syscall_read_dir(&scheduler, None, None, &mut buffer, true), usize::MAX);
    assert_eq!(syscall_read_dir(&scheduler, None, Some(bad_utf8), &mut buffer, true), usize::MAX);
    assert_eq!(syscall_read_dir(&scheduler, None, Some(b"/"), &mut buffer, false), usize::MAX - 3);
    assert_eq!(syscall_read_dir(&scheduler, None, Some(b"/"), &mut buffer, true), usize::MAX - 3);
    assert_eq!(syscall_read_file(&scheduler, None, Some(b"/a"), &mut buffer, false), usize::MAX - 4);
    assert_eq!(syscall_read_file(&scheduler, None, Some(b""), &mut buffer, true), usize::MAX);
    assert_eq!(syscall_chdir(&mut scheduler, None, None), usize::MAX);
    assert_eq!(syscall_chdir(&mut scheduler, None, Some(b"/bin")), usize::MAX - 2);

    assert_eq!(syscall_getcwd(&scheduler, &mut buffer, false), usize::MAX - 1);
    assert_eq!(syscall_getcwd(&scheduler, &mut [], true), usize::MAX);
    assert_eq!(syscall_getcwd(&scheduler, &mut buffer, true), 1);
    assert_eq!(buffer[0], b'/');

    assert_eq!(syscall_set_env(&mut scheduler, Some(b"HOME"), None), usize::MAX - 4);
    assert_eq!(syscall_set_env(&mut scheduler, Some(b"A=B"), Some(b"x")), usize::MAX);
    assert_eq!(syscall_set_env(&mut scheduler, Some(b"HOME"), Some(b"/home")), 0);
    assert_eq!(syscall_get_env(&scheduler, Some(b"HOME"), &mut buffer, false), usize::MAX - 3);
    assert_eq!(syscall_get_env(&scheduler, Some(b"HOME"), &mut [0u8; 2], true), usize::MAX - 2);
    assert_eq!(syscall_get_env(&scheduler, Some(b"HOME"), &mut buffer, true), 5);
    assert_eq!(&buffer[..5], b"/home");
    assert_eq!(syscall_unset_env(&mut scheduler, Some(b"HOME")), 0);
    assert_eq!(syscall_unset_env(&mut scheduler, Some(b"HOME")), usize::MAX - 1);
    assert_eq!(syscall_get_env(&scheduler, Some(b"HOME"), &mut buffer, true), usize::MAX - 1);

    let mut memory = memory_state();
    assert!(matches!(
        syscall_spawn_wait(&mut scheduler, &mut memory, None, Some(bad_utf8), Some(b"")),
        Err(SpawnError::InvalidPath)
    ));
    assert!(matches!(
        syscall_spawn_wait(&mut scheduler, &mut memory, None, Some(b"/bin/a"), None),
        Err(SpawnError::ResourceUnavailable)
    ));
}
