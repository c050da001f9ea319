use lazers::bootstrap::{
    create_bootstrap_process, current_process_read_stdin_byte, current_process_write_stderr_byte,
    current_process_write_stdout_byte, run_current_thread_entry, BootstrapProcessConfig,
};
use lazers::io::KernelObject;
use lazers::memory::types::AddressSpace;
use lazers::scheduler::{create_kernel_thread, Scheduler};
use lazers::task::{echo_task_entry, TaskStdio, TextTask, TextTaskEntry};
use lazers::terminal::{TerminalEndpoint, TERMINAL_OUTPUT_CAPACITY};
use lazers::thread::ThreadStart;

fn drain(terminal: &mut TerminalEndpoint) -> Vec<u8> {
    let mut out = Vec::new();
    while let Some(byte) = terminal.pop_output_byte() {
        out.push(byte);
    }
    out
}

fn terminal_task(stdout: KernelObject) -> TextTask {
    TextTask::new(
        TextTaskEntry::Echo,
        TaskStdio { stdin: KernelObject::TerminalEndpoint, stdout, stderr: KernelObject::TerminalEndpoint },
    )
}

#[test]
fn echo_writes_back_printable_newline_and_delete() {
    let mut terminal = TerminalEndpoint::new();
    for byte in [b'h', b'i', 0x01, b'\n', 0x7f, 0x1b, b'~'] {
        assert!(terminal.push_input_byte(byte));
    }
    let task = terminal_task(KernelObject::TerminalEndpoint);
    echo_task_entry(&task, &mut terminal);
    assert_eq!(drain(&mut terminal), vec![b'h', b'i', b'\n', 0x7f, b'~']);
    assert_eq!(terminal.pop_input_byte(), None);
}

#[test]
fn echo_to_null_output_only_consumes_input() {
    let mut terminal = TerminalEndpoint::new();
    terminal.push_input_byte(b'a');
    let task = terminal_task(KernelObject::Null);
    task.run_step(&mut terminal);
    assert_eq!(drain(&mut terminal), Vec::<u8>::new());
    assert_eq!(terminal.pop_input_byte(), None);
}

#[test]
fn echo_drops_what_the_output_cannot_hold() {
    let mut terminal = TerminalEndpoint::new();
    let task = terminal_task(KernelObject::TerminalEndpoint);
    for _ in 0..TERMINAL_OUTPUT_CAPACITY - 1 {
        assert!(task.write_stdout_byte(&mut terminal, b'.'));
    }
    terminal.push_input_byte(b'x');
    terminal.push_input_byte(b'y');
    echo_task_entry(&task, &mut terminal);
    let out = drain(&mut terminal);
    assert_eq!(out.len(), TERMINAL_OUTPUT_CAPACITY);
    assert_eq!(*out.last().unwrap(), b'x');
}

#[test]
fn task_streams_read_and_write_bytes() {
    let mut terminal = TerminalEndpoint::new();
    let task = terminal_task(KernelObject::TerminalEndpoint);
    assert_eq!(task.read_stdin_byte(&mut terminal), None);
    terminal.push_input_byte(b'q');
    assert_eq!(task.read_stdin_byte(&mut terminal), Some(b'q'));
    assert!(task.write_stderr_byte(&mut terminal, b'!'));
    assert_eq!(drain(&mut terminal), vec![b'!']);
}

#[test]
fn bootstrap_process_streams_reach_the_terminal() {
    let mut scheduler = Scheduler::new(0x10_0000);
    let config = BootstrapProcessConfig { name: "kernel", terminal_endpoint: true };
    let process = create_bootstrap_process(&mut scheduler, AddressSpace::new(0x1000), config);
    assert_eq!(process.0, 0);
    let thread = create_kernel_thread(&mut scheduler, "shell", process, 0xdead);
    let mut terminal = TerminalEndpoint::new();
    // nothing runs yet: no current process
    assert_eq!(current_process_read_stdin_byte(&scheduler, &mut terminal), None);
    assert!(!current_process_write_stdout_byte(&scheduler, &mut terminal, b'a'));

    scheduler.start().unwrap();
    assert_eq!(run_current_thread_entry(&scheduler), ThreadStart::Kernel(0xdead));
    assert_eq!(thread.0, 0);
    terminal.push_input_byte(b'z');
    assert_eq!(current_process_read_stdin_byte(&scheduler, &mut terminal), Some(b'z'));
    assert_eq!(current_process_read_stdin_byte(&scheduler, &mut terminal), None);
    assert!(current_process_write_stdout_byte(&scheduler, &mut terminal, b'o'));
    assert!(current_process_write_stderr_byte(&scheduler, &mut terminal, b'e'));
    assert_eq!(drain(&mut terminal), vec![b'o', b'e']);
}

#[test]
fn bootstrap_process_without_terminal_has_no_streams() {
    let mut scheduler = Scheduler::new(0x10_0000);
    let config = BootstrapProcessConfig { name: "kernel", terminal_endpoint: false };
    let process = create_bootstrap_process(&mut scheduler, AddressSpace::new(0x1000), config);
    create_kernel_thread(&mut scheduler, "worker", process, 0x1);
    scheduler.start().unwrap();
    let mut terminal = TerminalEndpoint::new();
    terminal.push_input_byte(b'z');
    assert_eq!(current_process_read_stdin_byte(&scheduler, &mut terminal), None);
    assert!(!current_process_write_stdout_byte(&scheduler, &mut terminal, b'o'));
}
