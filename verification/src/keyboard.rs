//! PS/2 set-1 scancode decoding: tracks the shift keys and the extended-code
//! prefix, turns controller bytes into key events and queues them.
use vstd::prelude::*;

use crate::queue::RingQueue;

verus! {

/// Number of decoded events the keyboard keeps until they are consumed.
pub const EVENT_QUEUE_CAPACITY: usize = 64;
/// Prefix byte announcing an extended scancode.
pub const EXTENDED_PREFIX: u8 = 0xe0;

#[derive(Clone, Copy, Debug, PartialEq, Eq, Structural)]
pub enum KeyState {
    Pressed,
    Released,
}

#[derive(Clone, Copy, Debug, PartialEq, Eq, Structural)]
pub enum KeyCode {
    A,
    B,
    C,
    D,
    E,
    F,
    G,
    H,
    I,
    J,
    K,
    L,
    M,
    N,
    O,
    P,
    Q,
    R,
    S,
    T,
    U,
    V,
    W,
    X,
    Y,
    Z,
    Digit0,
    Digit1,
    Digit2,
    Digit3,
    Digit4,
    Digit5,
    Digit6,
    Digit7,
    Digit8,
    Digit9,
    Space,
    Minus,
    Equals,
    LeftBracket,
    RightBracket,
    Backslash,
    Semicolon,
    Apostrophe,
    Grave,
    Comma,
    Period,
    Slash,
    Enter,
    Backspace,
    LeftShift,
    RightShift,
    Unknown,
}

#[derive(Clone, Copy, Debug, PartialEq, Eq, Structural)]
pub struct KeyEvent {
    pub key: KeyCode,
    pub state: KeyState,
    pub shift_active: bool,
}

/// `normal` or `shifted` depending on the shift state.
pub open spec fn spec_shifted_byte(normal: u8, shifted: u8, shift_active: bool) -> u8 {
    if shift_active { shifted } else { normal }
}

fn shifted_byte(normal: u8, shifted: u8, shift_active: bool) -> (r: u8)
    ensures
        r == spec_shifted_byte(normal, shifted, shift_active),
{
    if shift_active { shifted } else { normal }
}

/// The US-layout character a key produces, for keys that print one.
pub open spec fn printable_byte(key: KeyCode, shifted: bool) -> Option<u8> {
    match key {
        KeyCode::A => Some(spec_shifted_byte(0x61, 0x41, shifted)),
        KeyCode::B => Some(spec_shifted_byte(0x62, 0x42, shifted)),
        KeyCode::C => Some(spec_shifted_byte(0x63, 0x43, shifted)),
        KeyCode::D => Some(spec_shifted_byte(0x64, 0x44, shifted)),
        KeyCode::E => Some(spec_shifted_byte(0x65, 0x45, shifted)),
        KeyCode::F => Some(spec_shifted_byte(0x66, 0x46, shifted)),
        KeyCode::G => Some(spec_shifted_byte(0x67, 0x47, shifted)),
        KeyCode::H => Some(spec_shifted_byte(0x68, 0x48, shifted)),
        KeyCode::I => Some(spec_shifted_byte(0x69, 0x49, shifted)),
        KeyCode::J => Some(spec_shifted_byte(0x6a, 0x4a, shifted)),
        KeyCode::K => Some(spec_shifted_byte(0x6b, 0x4b, shifted)),
        KeyCode::L => Some(spec_shifted_byte(0x6c, 0x4c, shifted)),
        KeyCode::M => Some(spec_shifted_byte(0x6d, 0x4d, shifted)),
        KeyCode::N => Some(spec_shifted_byte(0x6e, 0x4e, shifted)),
        KeyCode::O => Some(spec_shifted_byte(0x6f, 0x4f, shifted)),
        KeyCode::P => Some(spec_shifted_byte(0x70, 0x50, shifted)),
        KeyCode::Q => Some(spec_shifted_byte(0x71, 0x51, shifted)),
        KeyCode::R => Some(spec_shifted_byte(0x72, 0x52, shifted)),
        KeyCode::S => Some(spec_shifted_byte(0x73, 0x53, shifted)),
        KeyCode::T => Some(spec_shifted_byte(0x74, 0x54, shifted)),
        KeyCode::U => Some(spec_shifted_byte(0x75, 0x55, shifted)),
        KeyCode::V => Some(spec_shifted_byte(0x76, 0x56, shifted)),
        KeyCode::W => Some(spec_shifted_byte(0x77, 0x57, shifted)),
        KeyCode::X => Some(spec_shifted_byte(0x78, 0x58, shifted)),
        KeyCode::Y => Some(spec_shifted_byte(0x79, 0x59, shifted)),
        KeyCode::Z => Some(spec_shifted_byte(0x7a, 0x5a, shifted)),
        KeyCode::Digit0 => Some(spec_shifted_byte(0x30, 0x29, shifted)),
        KeyCode::Digit1 => Some(spec_shifted_byte(0x31, 0x21, shifted)),
        KeyCode::Digit2 => Some(spec_shifted_byte(0x32, 0x40, shifted)),
        KeyCode::Digit3 => Some(spec_shifted_byte(0x33, 0x23, shifted)),
        KeyCode::Digit4 => Some(spec_shifted_byte(0x34, 0x24, shifted)),
        KeyCode::Digit5 => Some(spec_shifted_byte(0x35, 0x25, shifted)),
        KeyCode::Digit6 => Some(spec_shifted_byte(0x36, 0x5e, shifted)),
        KeyCode::Digit7 => Some(spec_shifted_byte(0x37, 0x26, shifted)),
        KeyCode::Digit8 => Some(spec_shifted_byte(0x38, 0x2a, shifted)),
        KeyCode::Digit9 => Some(spec_shifted_byte(0x39, 0x28, shifted)),
        KeyCode::Minus => Some(spec_shifted_byte(0x2d, 0x5f, shifted)),
        KeyCode::Equals => Some(spec_shifted_byte(0x3d, 0x2b, shifted)),
        KeyCode::LeftBracket => Some(spec_shifted_byte(0x5b, 0x7b, shifted)),
        KeyCode::RightBracket => Some(spec_shifted_byte(0x5d, 0x7d, shifted)),
        KeyCode::Backslash => Some(spec_shifted_byte(0x5c, 0x7c, shifted)),
        KeyCode::Semicolon => Some(spec_shifted_byte(0x3b, 0x3a, shifted)),
        KeyCode::Apostrophe => Some(spec_shifted_byte(0x27, 0x22, shifted)),
        KeyCode::Grave => Some(spec_shifted_byte(0x60, 0x7e, shifted)),
        KeyCode::Comma => Some(spec_shifted_byte(0x2c, 0x3c, shifted)),
        KeyCode::Period => Some(spec_shifted_byte(0x2e, 0x3e, shifted)),
        KeyCode::Slash => Some(spec_shifted_byte(0x2f, 0x3f, shifted)),
        KeyCode::Space => Some(0x20),
        _ => None,
    }
}

/// Character byte of a printable key under the given shift state.
pub fn key_printable_byte(key: KeyCode, shifted: bool) -> (r: Option<u8>)
    ensures
        r == printable_byte(key, shifted),
{
    match key {
        KeyCode::A => Some(shifted_byte(0x61, 0x41, shifted)),
        KeyCode::B => Some(shifted_byte(0x62, 0x42, shifted)),
        KeyCode::C => Some(shifted_byte(0x63, 0x43, shifted)),
        KeyCode::D => Some(shifted_byte(0x64, 0x44, shifted)),
        KeyCode::E => Some(shifted_byte(0x65, 0x45, shifted)),
        KeyCode::F => Some(shifted_byte(0x66, 0x46, shifted)),
        KeyCode::G => Some(shifted_byte(0x67, 0x47, shifted)),
        KeyCode::H => Some(shifted_byte(0x68, 0x48, shifted)),
        KeyCode::I => Some(shifted_byte(0x69, 0x49, shifted)),
        KeyCode::J => Some(shifted_byte(0x6a, 0x4a, shifted)),
        KeyCode::K => Some(shifted_byte(0x6b, 0x4b, shifted)),
        KeyCode::L => Some(shifted_byte(0x6c, 0x4c, shifted)),
        KeyCode::M => Some(shifted_byte(0x6d, 0x4d, shifted)),
        KeyCode::N => Some(shifted_byte(0x6e, 0x4e, shifted)),
        KeyCode::O => Some(shifted_byte(0x6f, 0x4f, shifted)),
        KeyCode::P => Some(shifted_byte(0x70, 0x50, shifted)),
        KeyCode::Q => Some(shifted_byte(0x71, 0x51, shifted)),
        KeyCode::R => Some(shifted_byte(0x72, 0x52, shifted)),
        KeyCode::S => Some(shifted_byte(0x73, 0x53, shifted)),
        KeyCode::T => Some(shifted_byte(0x74, 0x54, shifted)),
        KeyCode::U => Some(shifted_byte(0x75, 0x55, shifted)),
        KeyCode::V => Some(shifted_byte(0x76, 0x56, shifted)),
        KeyCode::W => Some(shifted_byte(0x77, 0x57, shifted)),
        KeyCode::X => Some(shifted_byte(0x78, 0x58, shifted)),
        KeyCode::Y => Some(shifted_byte(0x79, 0x59, shifted)),
        KeyCode::Z => Some(shifted_byte(0x7a, 0x5a, shifted)),
        KeyCode::Digit0 => Some(shifted_byte(0x30, 0x29, shifted)),
        KeyCode::Digit1 => Some(shifted_byte(0x31, 0x21, shifted)),
        KeyCode::Digit2 => Some(shifted_byte(0x32, 0x40, shifted)),
        KeyCode::Digit3 => Some(shifted_byte(0x33, 0x23, shifted)),
        KeyCode::Digit4 => Some(shifted_byte(0x34, 0x24, shifted)),
        KeyCode::Digit5 => Some(shifted_byte(0x35, 0x25, shifted)),
        KeyCode::Digit6 => Some(shifted_byte(0x36, 0x5e, shifted)),
        KeyCode::Digit7 => Some(shifted_byte(0x37, 0x26, shifted)),
        KeyCode::Digit8 => Some(shifted_byte(0x38, 0x2a, shifted)),
        KeyCode::Digit9 => Some(shifted_byte(0x39, 0x28, shifted)),
        KeyCode::Minus => Some(shifted_byte(0x2d, 0x5f, shifted)),
        KeyCode::Equals => Some(shifted_byte(0x3d, 0x2b, shifted)),
        KeyCode::LeftBracket => Some(shifted_byte(0x5b, 0x7b, shifted)),
        KeyCode::RightBracket => Some(shifted_byte(0x5d, 0x7d, shifted)),
        KeyCode::Backslash => Some(shifted_byte(0x5c, 0x7c, shifted)),
        KeyCode::Semicolon => Some(shifted_byte(0x3b, 0x3a, shifted)),
        KeyCode::Apostrophe => Some(shifted_byte(0x27, 0x22, shifted)),
        KeyCode::Grave => Some(shifted_byte(0x60, 0x7e, shifted)),
        KeyCode::Comma => Some(shifted_byte(0x2c, 0x3c, shifted)),
        KeyCode::Period => Some(shifted_byte(0x2e, 0x3e, shifted)),
        KeyCode::Slash => Some(shifted_byte(0x2f, 0x3f, shifted)),
        KeyCode::Space => Some(0x20),
        _ => None,
    }
}

/// The key a set-1 make code (release bit cleared) stands for.
pub open spec fn spec_decode_key(scan_code: u8) -> KeyCode {
    match scan_code {
        0x02 => KeyCode::Digit1,
        0x03 => KeyCode::Digit2,
        0x04 => KeyCode::Digit3,
        0x05 => KeyCode::Digit4,
        0x06 => KeyCode::Digit5,
        0x07 => KeyCode::Digit6,
        0x08 => KeyCode::Digit7,
        0x09 => KeyCode::Digit8,
        0x0a => KeyCode::Digit9,
        0x0b => KeyCode::Digit0,
        0x0c => KeyCode::Minus,
        0x0d => KeyCode::Equals,
        0x0e => KeyCode::Backspace,
        0x10 => KeyCode::Q,
        0x11 => KeyCode::W,
        0x12 => KeyCode::E,
        0x13 => KeyCode::R,
        0x14 => KeyCode::T,
        0x15 => KeyCode::Y,
        0x16 => KeyCode::U,
        0x17 => KeyCode::I,
        0x18 => KeyCode::O,
        0x19 => KeyCode::P,
        0x1a => KeyCode::LeftBracket,
        0x1b => KeyCode::RightBracket,
        0x1c => KeyCode::Enter,
        0x1e => KeyCode::A,
        0x1f => KeyCode::S,
        0x20 => KeyCode::D,
        0x21 => KeyCode::F,
        0x22 => KeyCode::G,
        0x23 => KeyCode::H,
        0x24 => KeyCode::J,
        0x25 => KeyCode::K,
        0x26 => KeyCode::L,
        0x27 => KeyCode::Semicolon,
        0x28 => KeyCode::Apostrophe,
        0x29 => KeyCode::Grave,
        0x2a => KeyCode::LeftShift,
        0x2b => KeyCode::Backslash,
        0x2c => KeyCode::Z,
        0x2d => KeyCode::X,
        0x2e => KeyCode::C,
        0x2f => KeyCode::V,
        0x30 => KeyCode::B,
        0x31 => KeyCode::N,
        0x32 => KeyCode::M,
        0x33 => KeyCode::Comma,
        0x34 => KeyCode::Period,
        0x35 => KeyCode::Slash,
        0x36 => KeyCode::RightShift,
        0x39 => KeyCode::Space,
        _ => KeyCode::Unknown,
    }
}

/// Maps a set-1 scan code (without the release bit) to its key.
pub fn decode_key(scan_code: u8) -> (r: KeyCode)
    ensures
        r == spec_decode_key(scan_code),
{
    match scan_code {
        0x02 => KeyCode::Digit1,
        0x03 => KeyCode::Digit2,
        0x04 => KeyCode::Digit3,
        0x05 => KeyCode::Digit4,
        0x06 => KeyCode::Digit5,
        0x07 => KeyCode::Digit6,
        0x08 => KeyCode::Digit7,
        0x09 => KeyCode::Digit8,
        0x0a => KeyCode::Digit9,
        0x0b => KeyCode::Digit0,
        0x0c => KeyCode::Minus,
        0x0d => KeyCode::Equals,
        0x0e => KeyCode::Backspace,
        0x10 => KeyCode::Q,
        0x11 => KeyCode::W,
        0x12 => KeyCode::E,
        0x13 => KeyCode::R,
        0x14 => KeyCode::T,
        0x15 => KeyCode::Y,
        0x16 => KeyCode::U,
        0x17 => KeyCode::I,
        0x18 => KeyCode::O,
        0x19 => KeyCode::P,
        0x1a => KeyCode::LeftBracket,
        0x1b => KeyCode::RightBracket,
        0x1c => KeyCode::Enter,
        0x1e => KeyCode::A,
        0x1f => KeyCode::S,
        0x20 => KeyCode::D,
        0x21 => KeyCode::F,
        0x22 => KeyCode::G,
        0x23 => KeyCode::H,
        0x24 => KeyCode::J,
        0x25 => KeyCode::K,
        0x26 => KeyCode::L,
        0x27 => KeyCode::Semicolon,
        0x28 => KeyCode::Apostrophe,
        0x29 => KeyCode::Grave,
        0x2a => KeyCode::LeftShift,
        0x2b => KeyCode::Backslash,
        0x2c => KeyCode::Z,
        0x2d => KeyCode::X,
        0x2e => KeyCode::C,
        0x2f => KeyCode::V,
        0x30 => KeyCode::B,
        0x31 => KeyCode::N,
        0x32 => KeyCode::M,
        0x33 => KeyCode::Comma,
        0x34 => KeyCode::Period,
        0x35 => KeyCode::Slash,
        0x36 => KeyCode::RightShift,
        0x39 => KeyCode::Space,
        _ => KeyCode::Unknown,
    }
}

/// Converts a key press into the character it types; releases and keys that
/// print nothing give `None`.
pub fn event_to_char(event: KeyEvent) -> (r: Option<char>)
    ensures
        event.state != KeyState::Pressed ==> r is None,
        event.state == KeyState::Pressed ==> match printable_byte(event.key, event.shift_active) {
            Some(b) => r == Some(b as char),
            None => r is None,
        },
{
    if event.state != KeyState::Pressed {
        return None;
    }
    match key_printable_byte(event.key, event.shift_active) {
        Some(byte) => Some(byte as char),
        None => None,
    }
}

/// The event a non-prefix byte decodes to, with the shift state it was
/// decoded under; `None` for keys outside the decoder's table.
pub open spec fn set1_event(byte: u8, shift_active: bool) -> Option<KeyEvent> {
    let key = spec_decode_key(byte & 0x7f);
    if key == KeyCode::Unknown {
        None
    } else {
        Some(KeyEvent {
            key,
            state: if byte & 0x80 != 0 { KeyState::Released } else { KeyState::Pressed },
            shift_active,
        })
    }
}

/// Decoder state: which shift keys are held, whether the previous byte was the
/// extended prefix, and the decoded events not yet consumed.
pub struct Keyboard {
    left_shift_active: bool,
    right_shift_active: bool,
    extended_prefix: bool,
    queue: RingQueue<KeyEvent>,
}

impl Keyboard {
    pub closed spec fn left_shift(&self) -> bool {
        self.left_shift_active
    }

    pub closed spec fn right_shift(&self) -> bool {
        self.right_shift_active
    }

    pub closed spec fn pending_prefix(&self) -> bool {
        self.extended_prefix
    }

    /// Decoded events, oldest first.
    pub closed spec fn events(&self) -> Seq<KeyEvent> {
        self.queue.items()
    }

    pub closed spec fn wf(&self) -> bool {
        self.queue.wf() && self.queue.spec_capacity() == EVENT_QUEUE_CAPACITY
    }

    /// A decoder with no key held and no queued event.
    pub fn new() -> (r: Self)
        ensures
            r.wf(),
            !r.left_shift(),
            !r.right_shift(),
            !r.pending_prefix(),
            r.events() == Seq::<KeyEvent>::empty(),
    {
        let fill = KeyEvent { key: KeyCode::Unknown, state: KeyState::Released, shift_active: false };
        Keyboard {
            left_shift_active: false,
            right_shift_active: false,
            extended_prefix: false,
            queue: RingQueue::new(EVENT_QUEUE_CAPACITY, fill),
        }
    }

    /// Whether either shift key is held.
    pub fn shift_active(&self) -> (r: bool)
        ensures
            r == (self.left_shift() || self.right_shift()),
    {
        self.left_shift_active || self.right_shift_active
    }

    /// Decodes one byte of a plain (non-extended) scancode.
    fn decode_set1(&self, byte: u8) -> (r: Option<KeyEvent>)
        ensures
            r == set1_event(byte, self.left_shift() || self.right_shift()),
    {
        let released = byte & 0x80 != 0;
        let scan_code = byte & 0x7f;
        let key = decode_key(scan_code);
        if key == KeyCode::Unknown {
            return None;
        }
        Some(KeyEvent {
            key,
            state: if released { KeyState::Released } else { KeyState::Pressed },
            shift_active: self.shift_active(),
        })
    }

    /// Decodes the byte after an extended prefix; no extended key is mapped,
    /// so every such byte is dropped.
    fn decode_extended(&self, byte: u8) -> (r: Option<KeyEvent>)
        ensures
            r is None,
    {
        None
    }

    /// Feeds one controller byte through the decoder.
    pub fn process_byte(&mut self, byte: u8)
        requires
            old(self).wf(),
        ensures
            final(self).wf(),
            byte == EXTENDED_PREFIX ==> final(self).pending_prefix()
                && final(self).left_shift() == old(self).left_shift()
                && final(self).right_shift() == old(self).right_shift()
                && final(self).events() == old(self).events(),
            byte != EXTENDED_PREFIX && old(self).pending_prefix() ==> !final(self).pending_prefix()
                && final(self).left_shift() == old(self).left_shift()
                && final(self).right_shift() == old(self).right_shift()
                && final(self).events() == old(self).events(),
            byte != EXTENDED_PREFIX && !old(self).pending_prefix() ==> !final(self).pending_prefix()
                && match set1_event(byte, false) {
                None => final(self).left_shift() == old(self).left_shift()
                    && final(self).right_shift() == old(self).right_shift()
                    && final(self).events() == old(self).events(),
                Some(e) => {
                    let pressed = e.state == KeyState::Pressed;
                    &&& final(self).left_shift() == (if e.key == KeyCode::LeftShift { pressed } else { old(self).left_shift() })
                    &&& final(self).right_shift() == (if e.key == KeyCode::RightShift { pressed } else { old(self).right_shift() })
                    &&& final(self).events() == if old(self).events().len() < EVENT_QUEUE_CAPACITY {
                        old(self).events().push(KeyEvent {
                            shift_active: final(self).left_shift() || final(self).right_shift(),
                            ..e
                        })
                    } else {
                        old(self).events()
                    }
                },
            },
    {
        if byte == EXTENDED_PREFIX {
            self.extended_prefix = true;
            return;
        }
        let event = if self.extended_prefix {
            self.extended_prefix = false;
            self.decode_extended(byte)
        } else {
            self.decode_set1(byte)
        };
        let mut event = match event {
            Some(event) => event,
            None => return,
        };
        match event.key {
            KeyCode::LeftShift => self.left_shift_active = event.state == KeyState::Pressed,
            KeyCode::RightShift => self.right_shift_active = event.state == KeyState::Pressed,
            _ => {},
        }
        event.shift_active = self.shift_active();
        let _ = self.queue.push(event);
    }
}

/// The decoder's state: a pending extended prefix, the two shift keys, and
/// the queued events.
pub open spec fn decoder_state(k: Keyboard) -> (bool, bool, bool, Seq<KeyEvent>) {
    (k.pending_prefix(), k.left_shift(), k.right_shift(), k.events())
}

/// The decoder's state after one more controller byte.
pub open spec fn decoder_step(m: (bool, bool, bool, Seq<KeyEvent>), byte: u8) -> (bool, bool, bool, Seq<KeyEvent>) {
    if byte == EXTENDED_PREFIX {
        (true, m.1, m.2, m.3)
    } else if m.0 {
        (false, m.1, m.2, m.3)
    } else {
        match set1_event(byte, false) {
            None => (false, m.1, m.2, m.3),
            Some(e) => {
                let pressed = e.state == KeyState::Pressed;
                let left = if e.key == KeyCode::LeftShift { pressed } else { m.1 };
                let right = if e.key == KeyCode::RightShift { pressed } else { m.2 };
                let events = if m.3.len() < EVENT_QUEUE_CAPACITY {
                    m.3.push(KeyEvent { shift_active: left || right, ..e })
                } else {
                    m.3
                };
                (false, left, right, events)
            },
        }
    }
}

/// The decoder's state after `bytes`, in order.
pub open spec fn decoder_fed(m: (bool, bool, bool, Seq<KeyEvent>), bytes: Seq<u8>) -> (bool, bool, bool, Seq<KeyEvent>)
    decreases bytes.len(),
{
    if bytes.len() == 0 {
        m
    } else {
        decoder_step(decoder_fed(m, bytes.drop_last()), bytes.last())
    }
}

/// Feeds every byte read from the controller's data port through the decoder.
pub fn poll(keyboard: &mut Keyboard, controller_bytes: &[u8])
    requires
        old(keyboard).wf(),
    ensures
        final(keyboard).wf(),
        decoder_state(*final(keyboard)) == decoder_fed(decoder_state(*old(keyboard)), controller_bytes@),
        final(keyboard).events().len() >= old(keyboard).events().len(),
        final(keyboard).events().subrange(0, old(keyboard).events().len() as int) == old(keyboard).events(),
{
    let mut index: usize = 0;
    while index < controller_bytes.len()
        invariant
            keyboard.wf(),
            index <= controller_bytes@.len(),
            decoder_state(*keyboard) == decoder_fed(decoder_state(*old(keyboard)), controller_bytes@.take(index as int)),
            keyboard.events().len() >= old(keyboard).events().len(),
            keyboard.events().subrange(0, old(keyboard).events().len() as int) == old(keyboard).events(),
        decreases controller_bytes.len() - index,
    {
        let ghost before = keyboard.events();
        let ghost state_before = decoder_state(*keyboard);
        keyboard.process_byte(controller_bytes[index]);
        proof {
            assert(keyboard.events().subrange(0, before.len() as int) == before);
            assert(keyboard.events().subrange(0, old(keyboard).events().len() as int)
                =~= before.subrange(0, old(keyboard).events().len() as int));
            assert(decoder_state(*keyboard) == decoder_step(state_before, controller_bytes@[index as int]));
            let next = controller_bytes@.take(index + 1);
            assert(next.drop_last() =~= controller_bytes@.take(index as int));
        }
        index += 1;
    }
    proof {
        assert(controller_bytes@.take(index as int) =~= controller_bytes@);
    }
}

/// Takes the oldest decoded key event.
pub fn pop_event(keyboard: &mut Keyboard) -> (r: Option<KeyEvent>)
    requires
        old(keyboard).wf(),
    ensures
        final(keyboard).wf(),
        final(keyboard).left_shift() == old(keyboard).left_shift(),
        final(keyboard).right_shift() == old(keyboard).right_shift(),
        final(keyboard).pending_prefix() == old(keyboard).pending_prefix(),
        old(keyboard).events().len() == 0 ==> r is None && final(keyboard).events() == old(keyboard).events(),
        old(keyboard).events().len() > 0 ==> r == Some(old(keyboard).events()[0])
            && final(keyboard).events() == old(keyboard).events().drop_first(),
{
    keyboard.queue.pop()
}


/// The keys of one row of the US keyboard, left to right.
pub open spec fn us_row_keys(row: int) -> Seq<KeyCode> {
    if row == 0 {
        seq![KeyCode::Digit1, KeyCode::Digit2, KeyCode::Digit3, KeyCode::Digit4, KeyCode::Digit5, KeyCode::Digit6, KeyCode::Digit7, KeyCode::Digit8, KeyCode::Digit9, KeyCode::Digit0, KeyCode::Minus, KeyCode::Equals]
    } else if row == 1 {
        seq![KeyCode::Q, KeyCode::W, KeyCode::E, KeyCode::R, KeyCode::T, KeyCode::Y, KeyCode::U, KeyCode::I, KeyCode::O, KeyCode::P, KeyCode::LeftBracket, KeyCode::RightBracket]
    } else if row == 2 {
        seq![KeyCode::A, KeyCode::S, KeyCode::D, KeyCode::F, KeyCode::G, KeyCode::H, KeyCode::J, KeyCode::K, KeyCode::L, KeyCode::Semicolon, KeyCode::Apostrophe, KeyCode::Grave]
    } else if row == 3 {
        seq![KeyCode::Backslash, KeyCode::Z, KeyCode::X, KeyCode::C, KeyCode::V, KeyCode::B, KeyCode::N, KeyCode::M, KeyCode::Comma, KeyCode::Period, KeyCode::Slash]
    } else {
        Seq::empty()
    }
}

/// What the keys of one row of the US keyboard type, left to right, without
/// and with shift.
pub open spec fn us_row_bytes(row: int, shifted: bool) -> Seq<u8> {
    if row == 0 {
        if shifted { seq![0x21u8, 0x40u8, 0x23u8, 0x24u8, 0x25u8, 0x5eu8, 0x26u8, 0x2au8, 0x28u8, 0x29u8, 0x5fu8, 0x2bu8] } else { seq![0x31u8, 0x32u8, 0x33u8, 0x34u8, 0x35u8, 0x36u8, 0x37u8, 0x38u8, 0x39u8, 0x30u8, 0x2du8, 0x3du8] }
    } else if row == 1 {
        if shifted { seq![0x51u8, 0x57u8, 0x45u8, 0x52u8, 0x54u8, 0x59u8, 0x55u8, 0x49u8, 0x4fu8, 0x50u8, 0x7bu8, 0x7du8] } else { seq![0x71u8, 0x77u8, 0x65u8, 0x72u8, 0x74u8, 0x79u8, 0x75u8, 0x69u8, 0x6fu8, 0x70u8, 0x5bu8, 0x5du8] }
    } else if row == 2 {
        if shifted { seq![0x41u8, 0x53u8, 0x44u8, 0x46u8, 0x47u8, 0x48u8, 0x4au8, 0x4bu8, 0x4cu8, 0x3au8, 0x22u8, 0x7eu8] } else { seq![0x61u8, 0x73u8, 0x64u8, 0x66u8, 0x67u8, 0x68u8, 0x6au8, 0x6bu8, 0x6cu8, 0x3bu8, 0x27u8, 0x60u8] }
    } else if row == 3 {
        if shifted { seq![0x7cu8, 0x5au8, 0x58u8, 0x43u8, 0x56u8, 0x42u8, 0x4eu8, 0x4du8, 0x3cu8, 0x3eu8, 0x3fu8] } else { seq![0x5cu8, 0x7au8, 0x78u8, 0x63u8, 0x76u8, 0x62u8, 0x6eu8, 0x6du8, 0x2cu8, 0x2eu8, 0x2fu8] }
    } else {
        Seq::empty()
    }
}

/// The set-1 make code of the leftmost key of each row of the US keyboard.
pub open spec fn us_row_start(row: int) -> int {
    if row == 0 { 0x02 } else if row == 1 { 0x10 } else if row == 2 { 0x1e } else { 0x2b }
}

/// The set-1 make codes of the digit row follow the US keys left to right, and each
/// key types its US character, shifted or not.
pub proof fn lemma_set1_digit_row()
    ensures
        us_row_keys(0).len() == 12,
        forall|s: u8| us_row_start(0) <= s < us_row_start(0) + 12 ==> {
            &&& spec_decode_key(s) == us_row_keys(0)[s - us_row_start(0)]
            &&& printable_byte(spec_decode_key(s), false) == Some(us_row_bytes(0, false)[s - us_row_start(0)])
            &&& printable_byte(spec_decode_key(s), true) == Some(us_row_bytes(0, true)[s - us_row_start(0)])
        },
{
    assert forall|s: u8| us_row_start(0) <= s < us_row_start(0) + 12 implies {
        &&& spec_decode_key(s) == us_row_keys(0)[s - us_row_start(0)]
        &&& printable_byte(spec_decode_key(s), false) == Some(us_row_bytes(0, false)[s - us_row_start(0)])
        &&& printable_byte(spec_decode_key(s), true) == Some(us_row_bytes(0, true)[s - us_row_start(0)])
    } by {
        if s == 0x02 {
        } else if s == 0x03 {
        } else if s == 0x04 {
        } else if s == 0x05 {
        } else if s == 0x06 {
        } else if s == 0x07 {
        } else if s == 0x08 {
        } else if s == 0x09 {
        } else if s == 0x0a {
        } else if s == 0x0b {
        } else if s == 0x0c {
        } else if s == 0x0d {
        }
    }
}

/// The set-1 make codes of the top letter row follow the US keys left to right, and each
/// key types its US character, shifted or not.
pub proof fn lemma_set1_top_row()
    ensures
        us_row_keys(1).len() == 12,
        forall|s: u8| us_row_start(1) <= s < us_row_start(1) + 12 ==> {
            &&& spec_decode_key(s) == us_row_keys(1)[s - us_row_start(1)]
            &&& printable_byte(spec_decode_key(s), false) == Some(us_row_bytes(1, false)[s - us_row_start(1)])
            &&& printable_byte(spec_decode_key(s), true) == Some(us_row_bytes(1, true)[s - us_row_start(1)])
        },
{
    assert forall|s: u8| us_row_start(1) <= s < us_row_start(1) + 12 implies {
        &&& spec_decode_key(s) == us_row_keys(1)[s - us_row_start(1)]
        &&& printable_byte(spec_decode_key(s), false) == Some(us_row_bytes(1, false)[s - us_row_start(1)])
        &&& printable_byte(spec_decode_key(s), true) == Some(us_row_bytes(1, true)[s - us_row_start(1)])
    } by {
        if s == 0x10 {
        } else if s == 0x11 {
        } else if s == 0x12 {
        } else if s == 0x13 {
        } else if s == 0x14 {
        } else if s == 0x15 {
        } else if s == 0x16 {
        } else if s == 0x17 {
        } else if s == 0x18 {
        } else if s == 0x19 {
        } else if s == 0x1a {
        } else if s == 0x1b {
        }
    }
}

/// The set-1 make codes of the home row follow the US keys left to right, and each
/// key types its US character, shifted or not.
pub proof fn lemma_set1_home_row()
    ensures
        us_row_keys(2).len() == 12,
        forall|s: u8| us_row_start(2) <= s < us_row_start(2) + 12 ==> {
            &&& spec_decode_key(s) == us_row_keys(2)[s - us_row_start(2)]
            &&& printable_byte(spec_decode_key(s), false) == Some(us_row_bytes(2, false)[s - us_row_start(2)])
            &&& printable_byte(spec_decode_key(s), true) == Some(us_row_bytes(2, true)[s - us_row_start(2)])
        },
{
    assert forall|s: u8| us_row_start(2) <= s < us_row_start(2) + 12 implies {
        &&& spec_decode_key(s) == us_row_keys(2)[s - us_row_start(2)]
        &&& printable_byte(spec_decode_key(s), false) == Some(us_row_bytes(2, false)[s - us_row_start(2)])
        &&& printable_byte(spec_decode_key(s), true) == Some(us_row_bytes(2, true)[s - us_row_start(2)])
    } by {
        if s == 0x1e {
        } else if s == 0x1f {
        } else if s == 0x20 {
        } else if s == 0x21 {
        } else if s == 0x22 {
        } else if s == 0x23 {
        } else if s == 0x24 {
        } else if s == 0x25 {
        } else if s == 0x26 {
        } else if s == 0x27 {
        } else if s == 0x28 {
        } else if s == 0x29 {
        }
    }
}

/// The set-1 make codes of the bottom row follow the US keys left to right, and each
/// key types its US character, shifted or not.
pub proof fn lemma_set1_bottom_row()
    ensures
        us_row_keys(3).len() == 11,
        forall|s: u8| us_row_start(3) <= s < us_row_start(3) + 11 ==> {
            &&& spec_decode_key(s) == us_row_keys(3)[s - us_row_start(3)]
            &&& printable_byte(spec_decode_key(s), false) == Some(us_row_bytes(3, false)[s - us_row_start(3)])
            &&& printable_byte(spec_decode_key(s), true) == Some(us_row_bytes(3, true)[s - us_row_start(3)])
        },
{
    assert forall|s: u8| us_row_start(3) <= s < us_row_start(3) + 11 implies {
        &&& spec_decode_key(s) == us_row_keys(3)[s - us_row_start(3)]
        &&& printable_byte(spec_decode_key(s), false) == Some(us_row_bytes(3, false)[s - us_row_start(3)])
        &&& printable_byte(spec_decode_key(s), true) == Some(us_row_bytes(3, true)[s - us_row_start(3)])
    } by {
        if s == 0x2b {
        } else if s == 0x2c {
        } else if s == 0x2d {
        } else if s == 0x2e {
        } else if s == 0x2f {
        } else if s == 0x30 {
        } else if s == 0x31 {
        } else if s == 0x32 {
        } else if s == 0x33 {
        } else if s == 0x34 {
        } else if s == 0x35 {
        }
    }
}

/// The keys off the four character rows: backspace, enter, both shift keys
/// and the space bar; every other make code is a key the decoder does not
/// know.
pub proof fn lemma_set1_other_keys()
    ensures
        spec_decode_key(0x0e) == KeyCode::Backspace,
        spec_decode_key(0x1c) == KeyCode::Enter,
        spec_decode_key(0x2a) == KeyCode::LeftShift,
        spec_decode_key(0x36) == KeyCode::RightShift,
        spec_decode_key(0x39) == KeyCode::Space,

        forall|s: u8| !(0x02 <= s <= 0x0e) && !(0x10 <= s <= 0x1c) && !(0x1e <= s <= 0x36) && s != 0x39
            ==> spec_decode_key(s) == KeyCode::Unknown,
        printable_byte(KeyCode::Space, false) == Some(0x20u8) && printable_byte(KeyCode::Space, true) == Some(0x20u8),
        printable_byte(KeyCode::Enter, false) is None && printable_byte(KeyCode::Backspace, false) is None,
{
}


/// A make code presses the key it names and the same code with the top bit
/// set (its break code) releases that key; codes of keys the decoder does
/// not know give no event.
pub proof fn lemma_make_and_break(s: u8, shift_active: bool)
    requires
        s < 0x80,
    ensures
        spec_decode_key(s) != KeyCode::Unknown ==> set1_event(s, shift_active)
            == Some(KeyEvent { key: spec_decode_key(s), state: KeyState::Pressed, shift_active }),
        spec_decode_key(s) != KeyCode::Unknown ==> set1_event(s | 0x80u8, shift_active)
            == Some(KeyEvent { key: spec_decode_key(s), state: KeyState::Released, shift_active }),
        spec_decode_key(s) == KeyCode::Unknown ==> set1_event(s, shift_active) is None && set1_event(s | 0x80u8, shift_active) is None,
{
    crate::util::lemma_bit_facts(0, 0, 0, s);
}

} // verus!
