//! Process handles and standard-stream bindings.
//!
//! Processes reach kernel objects through small per-process handle tables, so
//! callers never see the objects' concrete types and later spawn and
//! inheritance rules have one ownership model to build on.
use vstd::prelude::*;

use crate::terminal::{TerminalEndpoint, TERMINAL_OUTPUT_CAPACITY};

verus! {

/// Installable handles per process.
pub const MAX_PROCESS_HANDLES: usize = 8;
/// Handle number that never names an installed object.
pub const DEFAULT_INVALID_HANDLE: usize = usize::MAX;

/// Index into a process-local handle table.
#[derive(Clone, Copy, Debug, PartialEq, Eq, Structural)]
pub struct HandleId(pub usize);

/// Kernel objects that can live behind a process handle: the terminal
/// session's endpoint, or a sink that swallows writes and never has input.
#[derive(Clone, Copy, Debug, PartialEq, Eq, Structural)]
pub enum KernelObject {
    TerminalEndpoint,
    Null,
}

impl KernelObject {
    /// Reads one byte from the object; `terminal` is the session endpoint.
    pub fn read_byte(self, terminal: &mut TerminalEndpoint) -> (r: Option<u8>)
        requires
            old(terminal).wf(),
        ensures
            final(terminal).wf(),
            final(terminal).pending_output() == old(terminal).pending_output(),
            self == KernelObject::Null ==> r is None && final(terminal).pending_input() == old(terminal).pending_input(),
            self == KernelObject::TerminalEndpoint ==> if old(terminal).pending_input().len() == 0 {
                r is None && final(terminal).pending_input() == old(terminal).pending_input()
            } else {
                r == Some(old(terminal).pending_input()[0])
                    && final(terminal).pending_input() == old(terminal).pending_input().drop_first()
            },
    {
        match self {
            KernelObject::TerminalEndpoint => terminal.pop_input_byte(),
            KernelObject::Null => None,
        }
    }

    /// Writes one byte to the object; reports whether it was accepted.
    pub fn write_byte(self, terminal: &mut TerminalEndpoint, byte: u8) -> (r: bool)
        requires
            old(terminal).wf(),
        ensures
            final(terminal).wf(),
            final(terminal).pending_input() == old(terminal).pending_input(),
            self == KernelObject::Null ==> r && final(terminal).pending_output() == old(terminal).pending_output(),
            self == KernelObject::TerminalEndpoint ==> r == (old(terminal).pending_output().len() < TERMINAL_OUTPUT_CAPACITY)
                && final(terminal).pending_output() == if r {
                    old(terminal).pending_output().push(byte)
                } else {
                    old(terminal).pending_output()
                },
    {
        match self {
            KernelObject::TerminalEndpoint => terminal.push_output_byte(byte),
            KernelObject::Null => true,
        }
    }
}

/// Standard stream bindings of a process.
#[derive(Clone, Copy, Debug, PartialEq, Eq, Structural)]
pub struct StdioHandles {
    pub stdin: HandleId,
    pub stdout: HandleId,
    pub stderr: HandleId,
}

impl StdioHandles {
    /// Bundles already installed handles.
    pub fn new(stdin: HandleId, stdout: HandleId, stderr: HandleId) -> (r: Self)
        ensures
            r == (StdioHandles { stdin, stdout, stderr }),
    {
        StdioHandles { stdin, stdout, stderr }
    }

    /// Bindings for a process without usable standard streams: every stream
    /// names the invalid handle.
    pub fn empty() -> (r: Self)
        ensures
            r.stdin == HandleId(DEFAULT_INVALID_HANDLE),
            r.stdout == HandleId(DEFAULT_INVALID_HANDLE),
            r.stderr == HandleId(DEFAULT_INVALID_HANDLE),
    {
        StdioHandles {
            stdin: HandleId(DEFAULT_INVALID_HANDLE),
            stdout: HandleId(DEFAULT_INVALID_HANDLE),
            stderr: HandleId(DEFAULT_INVALID_HANDLE),
        }
    }
}

} // verus!
