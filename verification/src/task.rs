//! Kernel text tasks: small routines that read their standard input and
//! write their standard output a byte at a time.
use vstd::prelude::*;

use crate::io::KernelObject;
use crate::terminal::{TerminalEndpoint, TERMINAL_OUTPUT_CAPACITY};

verus! {

/// The routines a text task can run.
#[derive(Clone, Copy, Debug, PartialEq, Eq, Structural)]
pub enum TextTaskEntry {
    /// Writes back every newline, DEL and printable ASCII byte of its input.
    Echo,
}

/// The objects behind a text task's standard streams.
#[derive(Clone, Copy, Debug, PartialEq, Eq, Structural)]
pub struct TaskStdio {
    pub stdin: KernelObject,
    pub stdout: KernelObject,
    pub stderr: KernelObject,
}

/// A kernel text task: its streams and the routine it runs.
pub struct TextTask {
    stdio: TaskStdio,
    entry: TextTaskEntry,
}

/// The bytes the echo routine writes back for `input`: newlines, DEL and
/// printable ASCII, in order.
pub open spec fn echoed(input: Seq<u8>) -> Seq<u8>
    decreases input.len(),
{
    if input.len() == 0 {
        Seq::empty()
    } else {
        let rest = echoed(input.drop_last());
        let b = input.last();
        if b == 0x0a || b == 0x7f || (0x20 <= b && b <= 0x7e) { rest.push(b) } else { rest }
    }
}

/// `output` after pushing `extra` byte by byte into a queue that holds at
/// most `cap` bytes and drops what does not fit.
pub open spec fn pushed_within(output: Seq<u8>, extra: Seq<u8>, cap: int) -> Seq<u8>
    decreases extra.len(),
{
    if extra.len() == 0 {
        output
    } else {
        let before = pushed_within(output, extra.drop_last(), cap);
        if before.len() < cap { before.push(extra.last()) } else { before }
    }
}

/// The terminal after the echo routine ran with `stdio` on input `input`
/// and output `output`: all input taken and its echo pushed to the output,
/// when standard input is the terminal; nothing otherwise.
pub open spec fn echo_outcome(stdio: TaskStdio, input: Seq<u8>, output: Seq<u8>, new_input: Seq<u8>, new_output: Seq<u8>) -> bool {
    match stdio.stdin {
        KernelObject::Null => new_input == input && new_output == output,
        KernelObject::TerminalEndpoint => {
            &&& new_input == Seq::<u8>::empty()
            &&& new_output == match stdio.stdout {
                KernelObject::TerminalEndpoint => pushed_within(output, echoed(input), TERMINAL_OUTPUT_CAPACITY as int),
                KernelObject::Null => output,
            }
        },
    }
}

impl TextTask {
    pub closed spec fn spec_stdio(&self) -> TaskStdio {
        self.stdio
    }

    pub closed spec fn spec_entry(&self) -> TextTaskEntry {
        self.entry
    }

    pub fn new(entry: TextTaskEntry, stdio: TaskStdio) -> (r: Self)
        ensures
            r.spec_stdio() == stdio,
            r.spec_entry() == entry,
    {
        TextTask { stdio, entry }
    }

    /// Runs the task's routine once.
    pub fn run_step(&self, terminal: &mut TerminalEndpoint)
        requires
            old(terminal).wf(),
        ensures
            final(terminal).wf(),
            self.spec_entry() == TextTaskEntry::Echo ==> echo_outcome(self.spec_stdio(), old(terminal).pending_input(),
                old(terminal).pending_output(), final(terminal).pending_input(), final(terminal).pending_output()),
    {
        match self.entry {
            TextTaskEntry::Echo => echo_task_entry(self, terminal),
        }
    }

    /// Takes one byte from standard input, if one is pending.
    pub fn read_stdin_byte(&self, terminal: &mut TerminalEndpoint) -> (r: Option<u8>)
        requires
            old(terminal).wf(),
        ensures
            final(terminal).wf(),
            final(terminal).pending_output() == old(terminal).pending_output(),
            self.spec_stdio().stdin == KernelObject::TerminalEndpoint && old(terminal).pending_input().len() > 0 ==>
                r == Some(old(terminal).pending_input()[0])
                    && final(terminal).pending_input() == old(terminal).pending_input().drop_first(),
            !(self.spec_stdio().stdin == KernelObject::TerminalEndpoint && old(terminal).pending_input().len() > 0) ==>
                r is None && final(terminal).pending_input() == old(terminal).pending_input(),
    {
        self.stdio.stdin.read_byte(terminal)
    }

    /// Writes one byte to standard output; reports whether it was accepted.
    pub fn write_stdout_byte(&self, terminal: &mut TerminalEndpoint, byte: u8) -> (r: bool)
        requires
            old(terminal).wf(),
        ensures
            final(terminal).wf(),
            final(terminal).pending_input() == old(terminal).pending_input(),
            self.spec_stdio().stdout == KernelObject::Null ==> r && final(terminal).pending_output() == old(terminal).pending_output(),
            self.spec_stdio().stdout == KernelObject::TerminalEndpoint ==>
                r == (old(terminal).pending_output().len() < TERMINAL_OUTPUT_CAPACITY)
                && final(terminal).pending_output() == if r { old(terminal).pending_output().push(byte) } else { old(terminal).pending_output() },
    {
        self.stdio.stdout.write_byte(terminal, byte)
    }

    /// Writes one byte to standard error; reports whether it was accepted.
    pub fn write_stderr_byte(&self, terminal: &mut TerminalEndpoint, byte: u8) -> (r: bool)
        requires
            old(terminal).wf(),
        ensures
            final(terminal).wf(),
            final(terminal).pending_input() == old(terminal).pending_input(),
            self.spec_stdio().stderr == KernelObject::Null ==> r && final(terminal).pending_output() == old(terminal).pending_output(),
            self.spec_stdio().stderr == KernelObject::TerminalEndpoint ==>
                r == (old(terminal).pending_output().len() < TERMINAL_OUTPUT_CAPACITY)
                && final(terminal).pending_output() == if r { old(terminal).pending_output().push(byte) } else { old(terminal).pending_output() },
    {
        self.stdio.stderr.write_byte(terminal, byte)
    }
}

/// The echo routine: takes every pending input byte and writes back the
/// newlines, DELs and printable ASCII among them.
pub fn echo_task_entry(task: &TextTask, terminal: &mut TerminalEndpoint)
    requires
        old(terminal).wf(),
    ensures
        final(terminal).wf(),
        echo_outcome(task.spec_stdio(), old(terminal).pending_input(), old(terminal).pending_output(),
            final(terminal).pending_input(), final(terminal).pending_output()),
{
    let ghost input = old(terminal).pending_input();
    let ghost output = old(terminal).pending_output();
    let ghost mut taken: int = 0;
    loop
        invariant
            terminal.wf(),
            input == old(terminal).pending_input(),
            output == old(terminal).pending_output(),
            0 <= taken <= input.len(),
            task.spec_stdio().stdin == KernelObject::Null ==> taken == 0 && terminal.pending_input() == input
                && terminal.pending_output() == output,
            task.spec_stdio().stdin == KernelObject::TerminalEndpoint ==> {
                &&& terminal.pending_input() == input.skip(taken)
                &&& terminal.pending_output() == match task.spec_stdio().stdout {
                    KernelObject::TerminalEndpoint => pushed_within(output, echoed(input.take(taken)), TERMINAL_OUTPUT_CAPACITY as int),
                    KernelObject::Null => output,
                }
            },
        ensures
            terminal.wf(),
            echo_outcome(task.spec_stdio(), input, output, terminal.pending_input(), terminal.pending_output()),
        decreases input.len() - taken,
    {
        let ghost before = terminal.pending_output();
        let byte = match task.read_stdin_byte(terminal) {
            Some(byte) => byte,
            None => {
                proof {
                    if task.spec_stdio().stdin == KernelObject::TerminalEndpoint {
                        assert(taken == input.len());
                        assert(input.take(taken) =~= input);
                        assert(terminal.pending_input() =~= Seq::<u8>::empty());
                    }
                }
                break;
            },
        };
        let ghost prefix = input.take(taken);
        proof {
            assert(input.take(taken + 1).drop_last() =~= prefix);
            assert(input.take(taken + 1).last() == byte);
            assert(input.skip(taken).drop_first() =~= input.skip(taken + 1));
            taken = taken + 1;
        }
        if byte == 0x0a || byte == 0x7f || (0x20 <= byte && byte <= 0x7e) {
            let _ = task.write_stdout_byte(terminal, byte);
            proof {
                assert(echoed(input.take(taken)) == echoed(prefix).push(byte));
                assert(echoed(input.take(taken)).drop_last() =~= echoed(prefix));
            }
        } else {
            proof {
                assert(echoed(input.take(taken)) == echoed(prefix));
            }
        }
    }
}

} // verus!
