//! Input events as the terminal receives them: key presses with their
//! modifiers, and text.

use vstd::prelude::*;
use crate::render_abi::MessageKind;

verus! {

#[derive(Clone, Copy, Debug, PartialEq, Eq, Structural)]
pub enum KeyState {
    Pressed,
    Released,
    Repeat,
}

/// The keys the terminal knows: a key that types a character, and the
/// named keys.
#[derive(Clone, Copy, Debug, PartialEq, Eq, Structural)]
pub enum KeyCode {
    Character(u8),
    Escape,
    Enter,
    Backspace,
    Tab,
    Up,
    Down,
    Left,
    Right,
    Home,
    End,
    Delete,
    PageUp,
    PageDown,
    Other,
}

impl KeyCode {
    /// The character a character key types.
    pub fn character_byte(self) -> (r: Option<u8>)
        ensures
            r == (match self {
                KeyCode::Character(byte) => Some(byte),
                _ => None,
            }),
    {
        match self {
            KeyCode::Character(byte) => Some(byte),
            _ => None,
        }
    }
}

/// An input event: a key with its state and modifiers, or text.
#[derive(Clone, Debug, PartialEq)]
pub struct InputMessage {
    pub kind: MessageKind,
    pub state: KeyState,
    pub code: KeyCode,
    pub modifiers: u16,
    pub text: Vec<u8>,
}

impl InputMessage {
    pub fn key(code: KeyCode, state: KeyState, modifiers: u16) -> (r: InputMessage)
        ensures
            r.kind == MessageKind::Key,
            r.state == state,
            r.code == code,
            r.modifiers == modifiers,
            r.text@ == Seq::<u8>::empty(),
    {
        InputMessage { kind: MessageKind::Key, state, code, modifiers, text: Vec::new() }
    }

    /// Typed or pasted text.
    pub fn text(bytes: &[u8], pasted: bool) -> (r: InputMessage)
        ensures
            r.kind == (if pasted { MessageKind::Paste } else { MessageKind::Text }),
            r.state == KeyState::Pressed,
            r.code == KeyCode::Other,
            r.modifiers == 0,
            r.text@ == bytes@,
    {
        let text = crate::aml::slice_range(bytes, 0, bytes.len());
        assert(text@ =~= bytes@);
        InputMessage {
            kind: if pasted { MessageKind::Paste } else { MessageKind::Text },
            state: KeyState::Pressed,
            code: KeyCode::Other,
            modifiers: 0,
            text,
        }
    }
}

} // verus!
