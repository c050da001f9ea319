//! The boot-time process and byte-wise standard streams of the current
//! process, for kernel tasks that talk to the terminal session directly.
use vstd::prelude::*;

use crate::io::KernelObject;
use crate::memory::types::{AddressSpace, OwnedPages};
use crate::process::{ProcessExitAction, ProcessId, ProcessState};
use crate::scheduler::{current_process_read, current_process_write, first_empty, ProcessConfig, Scheduler, MAX_PROCESSES};
use crate::terminal::{TerminalEndpoint, TERMINAL_OUTPUT_CAPACITY};
use crate::thread::ThreadStart;

verus! {

/// The process created at boot: its name, and whether its standard streams
/// are bound to the terminal session.
#[derive(Clone, Copy)]
pub struct BootstrapProcessConfig {
    pub name: &'static str,
    pub terminal_endpoint: bool,
}

/// Creates the boot-time process in the kernel address space `kernel_space`,
/// with its standard streams bound to the terminal session when the config
/// asks for it. A free process slot is required.
pub fn create_bootstrap_process(scheduler: &mut Scheduler, kernel_space: AddressSpace, config: BootstrapProcessConfig)
    -> (r: ProcessId)
    requires
        old(scheduler).wf(),
        first_empty(old(scheduler).spec_processes()) is Some,
    ensures
        final(scheduler).wf(),
        final(scheduler).same_threads(&*old(scheduler)),
        Some(r.0 as int) == first_empty(old(scheduler).spec_processes()),
        final(scheduler).has_process(r),
        forall|i: int| 0 <= i < MAX_PROCESSES && i != r.0 ==>
            #[trigger] final(scheduler).spec_processes()[i] == old(scheduler).spec_processes()[i],
        ({
            let p = final(scheduler).process_at(r);
            &&& p.spec_id() == r
            &&& p.spec_address_space() == kernel_space
            &&& p.spec_owned_pages() == Seq::<u64>::empty()
            &&& p.spec_exit_action() == ProcessExitAction::Continue
            &&& p.spec_state() == ProcessState::Running
            &&& forall|fd: usize| fd < 3 ==> #[trigger] p.fd_object(fd)
                == if config.terminal_endpoint { Some(KernelObject::TerminalEndpoint) } else { None }
        }),
{
    let process_config = ProcessConfig {
        name: config.name,
        address_space: kernel_space,
        terminal_endpoint: config.terminal_endpoint,
        owned_pages: OwnedPages::empty(),
        exit_action: ProcessExitAction::Continue,
    };
    scheduler.try_create_process(process_config).unwrap()
}

/// The object behind standard stream `fd` of the current process, if any.
pub open spec fn current_stream(scheduler: Scheduler, fd: usize) -> Option<KernelObject> {
    match scheduler.current_process() {
        Some(pid) => scheduler.process_at(pid).fd_object(fd),
        None => None,
    }
}

/// Takes one byte of input from the current process' standard input.
pub fn current_process_read_stdin_byte(scheduler: &Scheduler, terminal: &mut TerminalEndpoint) -> (r: Option<u8>)
    requires
        scheduler.wf(),
        old(terminal).wf(),
    ensures
        final(terminal).wf(),
        final(terminal).pending_output() == old(terminal).pending_output(),
        current_stream(*scheduler, 0) == Some(KernelObject::TerminalEndpoint) && old(terminal).pending_input().len() > 0 ==>
            r == Some(old(terminal).pending_input()[0])
                && final(terminal).pending_input() == old(terminal).pending_input().drop_first(),
        !(current_stream(*scheduler, 0) == Some(KernelObject::TerminalEndpoint) && old(terminal).pending_input().len() > 0) ==>
            r is None && final(terminal).pending_input() == old(terminal).pending_input(),
{
    let mut buffer: Vec<u8> = Vec::new();
    buffer.push(0);
    let read = current_process_read(scheduler, terminal, 0, buffer.as_mut_slice());
    if read == 1 {
        proof {
            assert(old(terminal).pending_input().skip(1) =~= old(terminal).pending_input().drop_first());
        }
        Some(buffer[0])
    } else {
        None
    }
}

/// What writing one byte to standard stream `fd` of the current process
/// reports and does to the terminal output.
pub open spec fn stream_write(scheduler: Scheduler, fd: usize, output: Seq<u8>, byte: u8) -> (bool, Seq<u8>) {
    match current_stream(scheduler, fd) {
        Some(KernelObject::TerminalEndpoint) => if output.len() < TERMINAL_OUTPUT_CAPACITY {
            (true, output.push(byte))
        } else {
            (false, output)
        },
        Some(KernelObject::Null) => (true, output),
        None => (false, output),
    }
}

fn write_stream_byte(scheduler: &Scheduler, terminal: &mut TerminalEndpoint, fd: usize, byte: u8) -> (r: bool)
    requires
        scheduler.wf(),
        old(terminal).wf(),
    ensures
        final(terminal).wf(),
        final(terminal).pending_input() == old(terminal).pending_input(),
        (r, final(terminal).pending_output()) == stream_write(*scheduler, fd, old(terminal).pending_output(), byte),
{
    let mut buffer: Vec<u8> = Vec::new();
    buffer.push(byte);
    proof {
        old(terminal).lemma_within_capacity();
        assert(buffer@.take(1) =~= seq![byte]);
        assert(buffer@.take(0) =~= Seq::<u8>::empty());
        assert(old(terminal).pending_output() + Seq::<u8>::empty() =~= old(terminal).pending_output());
    }
    current_process_write(scheduler, terminal, fd, buffer.as_slice()) == 1
}

/// Writes one byte to the current process' standard output; reports
/// whether it was accepted.
pub fn current_process_write_stdout_byte(scheduler: &Scheduler, terminal: &mut TerminalEndpoint, byte: u8) -> (r: bool)
    requires
        scheduler.wf(),
        old(terminal).wf(),
    ensures
        final(terminal).wf(),
        final(terminal).pending_input() == old(terminal).pending_input(),
        (r, final(terminal).pending_output()) == stream_write(*scheduler, 1, old(terminal).pending_output(), byte),
{
    write_stream_byte(scheduler, terminal, 1, byte)
}

/// Writes one byte to the current process' standard error; reports whether
/// it was accepted.
pub fn current_process_write_stderr_byte(scheduler: &Scheduler, terminal: &mut TerminalEndpoint, byte: u8) -> (r: bool)
    requires
        scheduler.wf(),
        old(terminal).wf(),
    ensures
        final(terminal).wf(),
        final(terminal).pending_input() == old(terminal).pending_input(),
        (r, final(terminal).pending_output()) == stream_write(*scheduler, 2, old(terminal).pending_output(), byte),
{
    write_stream_byte(scheduler, terminal, 2, byte)
}

/// The entry of the current thread, which the platform then runs; a current
/// thread is required.
pub fn run_current_thread_entry(scheduler: &Scheduler) -> (r: ThreadStart)
    requires
        scheduler.wf(),
        scheduler.spec_current() is Some,
    ensures
        r == scheduler.thread_at(scheduler.spec_current().unwrap()).spec_start(),
{
    crate::scheduler::run_current_thread_start(scheduler)
}

} // verus!
