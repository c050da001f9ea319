//! Terminal endpoint queues and the fullscreen terminal surface.
//!
//! The endpoint is the byte-stream object processes talk to through stdio.
//! The surface is the hardware-facing side: it turns keyboard events into input
//! bytes and drains output bytes into the framebuffer console.
use vstd::prelude::*;

use crate::console::FramebufferConsole;
use crate::keyboard::{printable_byte, key_printable_byte, KeyCode, KeyEvent, KeyState};
use crate::queue::RingQueue;

verus! {

pub const TERMINAL_INPUT_CAPACITY: usize = 256;
pub const TERMINAL_OUTPUT_CAPACITY: usize = 1024;
/// Byte delivered for the Enter key.
pub const NEWLINE: u8 = 0x0a;
/// Byte delivered for the Backspace key (ASCII DEL).
pub const DELETE: u8 = 0x7f;

/// Bidirectional byte queues of one interactive text session.
pub struct TerminalEndpoint {
    input: RingQueue<u8>,
    output: RingQueue<u8>,
}

impl TerminalEndpoint {
    /// Bytes typed at the terminal and not yet read.
    pub closed spec fn pending_input(&self) -> Seq<u8> {
        self.input.items()
    }

    /// Bytes written by programs and not yet presented.
    pub closed spec fn pending_output(&self) -> Seq<u8> {
        self.output.items()
    }

    pub closed spec fn wf(&self) -> bool {
        &&& self.input.wf()
        &&& self.output.wf()
        &&& self.input.spec_capacity() == TERMINAL_INPUT_CAPACITY
        &&& self.output.spec_capacity() == TERMINAL_OUTPUT_CAPACITY
    }

    /// Neither queue holds more than its capacity.
    pub proof fn lemma_within_capacity(&self)
        requires
            self.wf(),
        ensures
            self.pending_input().len() <= TERMINAL_INPUT_CAPACITY,
            self.pending_output().len() <= TERMINAL_OUTPUT_CAPACITY,
    {
        self.input.lemma_within_capacity();
        self.output.lemma_within_capacity();
    }

    /// Creates an endpoint with empty input and output queues.
    pub fn new() -> (r: Self)
        ensures
            r.wf(),
            r.pending_input() == Seq::<u8>::empty(),
            r.pending_output() == Seq::<u8>::empty(),
    {
        TerminalEndpoint {
            input: RingQueue::new(TERMINAL_INPUT_CAPACITY, 0u8),
            output: RingQueue::new(TERMINAL_OUTPUT_CAPACITY, 0u8),
        }
    }

    /// Queues one translated input byte for the foreground program; refused
    /// when the input queue is full.
    pub fn push_input_byte(&mut self, byte: u8) -> (r: bool)
        requires
            old(self).wf(),
        ensures
            final(self).wf(),
            final(self).pending_output() == old(self).pending_output(),
            r == (old(self).pending_input().len() < TERMINAL_INPUT_CAPACITY),
            final(self).pending_input() == if r { old(self).pending_input().push(byte) } else { old(self).pending_input() },
    {
        self.input.push(byte)
    }

    /// Takes the oldest pending input byte.
    pub fn pop_input_byte(&mut self) -> (r: Option<u8>)
        requires
            old(self).wf(),
        ensures
            final(self).wf(),
            final(self).pending_output() == old(self).pending_output(),
            old(self).pending_input().len() == 0 ==> r is None && final(self).pending_input() == old(self).pending_input(),
            old(self).pending_input().len() > 0 ==> r == Some(old(self).pending_input()[0])
                && final(self).pending_input() == old(self).pending_input().drop_first(),
    {
        self.input.pop()
    }

    /// Queues one output byte emitted by a program; refused when the output
    /// queue is full.
    pub fn push_output_byte(&mut self, byte: u8) -> (r: bool)
        requires
            old(self).wf(),
        ensures
            final(self).wf(),
            final(self).pending_input() == old(self).pending_input(),
            r == (old(self).pending_output().len() < TERMINAL_OUTPUT_CAPACITY),
            final(self).pending_output() == if r { old(self).pending_output().push(byte) } else { old(self).pending_output() },
    {
        self.output.push(byte)
    }

    /// Takes the oldest pending output byte for presentation.
    pub fn pop_output_byte(&mut self) -> (r: Option<u8>)
        requires
            old(self).wf(),
        ensures
            final(self).wf(),
            final(self).pending_input() == old(self).pending_input(),
            old(self).pending_output().len() == 0 ==> r is None && final(self).pending_output() == old(self).pending_output(),
            old(self).pending_output().len() > 0 ==> r == Some(old(self).pending_output()[0])
                && final(self).pending_output() == old(self).pending_output().drop_first(),
    {
        self.output.pop()
    }
}

/// Creates the single endpoint of the bootstrap terminal session; the caller
/// owns it for the lifetime of the system.
pub fn primary_endpoint() -> (r: TerminalEndpoint)
    ensures
        r.wf(),
        r.pending_input() == Seq::<u8>::empty(),
        r.pending_output() == Seq::<u8>::empty(),
{
    TerminalEndpoint::new()
}

/// The byte a key event feeds to the terminal: presses of Enter and Backspace
/// give newline and DEL, other presses their printable character.
pub open spec fn input_byte_for(event: KeyEvent) -> Option<u8> {
    if event.state != KeyState::Pressed {
        None
    } else if event.key == KeyCode::Enter {
        Some(NEWLINE)
    } else if event.key == KeyCode::Backspace {
        Some(DELETE)
    } else {
        printable_byte(event.key, event.shift_active)
    }
}

/// Translates a keyboard event into a terminal input byte when it is one.
pub fn key_event_to_input_byte(event: KeyEvent) -> (r: Option<u8>)
    ensures
        r == input_byte_for(event),
{
    if event.state != KeyState::Pressed {
        return None;
    }
    match event.key {
        KeyCode::Enter => Some(NEWLINE),
        KeyCode::Backspace => Some(DELETE),
        _ => key_printable_byte(event.key, event.shift_active),
    }
}

/// Presentation side of the primary terminal session.
pub struct TerminalSurface {}

impl TerminalSurface {
    pub fn new() -> (r: Self) {
        TerminalSurface {}
    }

    /// Marks the console cursor position as the start of interactive output.
    pub fn begin_session(&self, console: &mut FramebufferConsole)
        requires
            old(console).wf(),
        ensures
            final(console).wf(),
            final(console).spec_input_floor() == Some(old(console).spec_cursor()),
            final(console).spec_cursor() == old(console).spec_cursor(),
    {
        console.begin_terminal_session();
    }

    /// Feeds the input byte of one keyboard event to the endpoint.
    pub fn handle_key_event(&self, endpoint: &mut TerminalEndpoint, event: KeyEvent)
        requires
            old(endpoint).wf(),
        ensures
            final(endpoint).wf(),
            final(endpoint).pending_output() == old(endpoint).pending_output(),
            final(endpoint).pending_input() == match input_byte_for(event) {
                Some(b) => if old(endpoint).pending_input().len() < TERMINAL_INPUT_CAPACITY {
                    old(endpoint).pending_input().push(b)
                } else {
                    old(endpoint).pending_input()
                },
                None => old(endpoint).pending_input(),
            },
    {
        if let Some(byte) = key_event_to_input_byte(event) {
            let _ = endpoint.push_input_byte(byte);
        }
    }

    /// Drains every pending output byte into the console.
    pub fn flush_output(&self, endpoint: &mut TerminalEndpoint, console: &mut FramebufferConsole)
        requires
            old(endpoint).wf(),
            old(console).wf(),
        ensures
            final(endpoint).wf(),
            final(console).wf(),
            final(endpoint).pending_input() == old(endpoint).pending_input(),
            final(endpoint).pending_output() == Seq::<u8>::empty(),
    {
        loop
            invariant
                endpoint.wf(),
                console.wf(),
                endpoint.pending_input() == old(endpoint).pending_input(),
            ensures
                endpoint.wf(),
                console.wf(),
                endpoint.pending_input() == old(endpoint).pending_input(),
                endpoint.pending_output().len() == 0,
            decreases endpoint.pending_output().len(),
        {
            match endpoint.pop_output_byte() {
                Some(byte) => console.write_terminal_byte(byte),
                None => break,
            }
        }
        assert(endpoint.pending_output() =~= Seq::<u8>::empty());
    }
}

} // verus!
