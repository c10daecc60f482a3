//! Pieces of the terminal emulator: the CSI parameter parser and the key
//! to byte translation for control and shifted characters.

use vstd::prelude::*;

verus! {

pub const MAX_PARAMS: usize = 16;

#[derive(Clone, Copy, Debug, PartialEq, Eq, Structural)]
pub enum ParserState {
    Ground,
    Escape,
    Csi,
}

/// Escape-sequence parser state: the numeric parameters of a control
/// sequence and the one being read.
#[derive(Clone, Debug)]
pub struct Parser {
    pub state: ParserState,
    pub params: Vec<u16>,
    pub param_count: usize,
    pub current: u16,
    pub has_current: bool,
}

impl Parser {
    pub open spec fn wf(&self) -> bool {
        &&& self.params@.len() == MAX_PARAMS
        &&& self.param_count <= MAX_PARAMS
    }

    pub fn new() -> (r: Self)
        ensures
            r.wf(),
            r.state == ParserState::Ground,
            r.param_count == 0,
            r.current == 0,
            !r.has_current,
            forall|i: int| 0 <= i < MAX_PARAMS ==> r.params@[i] == 0,
    {
        let mut params: Vec<u16> = Vec::new();
        let mut i: usize = 0;
        while i < MAX_PARAMS
            invariant
                i <= MAX_PARAMS,
                params@.len() == i,
                forall|j: int| 0 <= j < i ==> params@[j] == 0,
            decreases MAX_PARAMS - i,
        {
            params.push(0);
            i += 1;
        }
        Parser { state: ParserState::Ground, params, param_count: 0, current: 0, has_current: false }
    }

    /// Forget the parameters of the sequence in progress.
    pub fn reset_csi(&mut self)
        requires
            old(self).wf(),
        ensures
            final(self).wf(),
            final(self).param_count == 0,
            final(self).current == 0,
            !final(self).has_current,
            final(self).state == old(self).state,
            final(self).params@ == old(self).params@,
    {
        self.param_count = 0;
        self.current = 0;
        self.has_current = false;
    }

    /// Close the parameter being read (an absent one counts as 0); beyond
    /// `MAX_PARAMS` parameters are dropped.
    pub fn push_param(&mut self)
        requires
            old(self).wf(),
        ensures
            final(self).wf(),
            final(self).current == 0,
            !final(self).has_current,
            final(self).state == old(self).state,
            old(self).param_count < MAX_PARAMS ==> final(self).param_count == old(self).param_count + 1
                && final(self).params@ == old(self).params@.update(
                old(self).param_count as int,
                if old(self).has_current { old(self).current } else { 0 },
            ),
            old(self).param_count >= MAX_PARAMS ==> final(self).param_count == old(self).param_count
                && final(self).params@ == old(self).params@,
    {
        if self.param_count < MAX_PARAMS {
            let value = if self.has_current { self.current } else { 0 };
            self.params.set(self.param_count, value);
            self.param_count += 1;
        }
        self.current = 0;
        self.has_current = false;
    }

    /// Parameter `index`, with `default` for an absent or zero value.
    pub fn param(&self, index: usize, default: u16) -> (r: u16)
        requires
            self.wf(),
        ensures
            r == (if index < MAX_PARAMS && self.params@[index as int] != 0 {
                self.params@[index as int]
            } else {
                default
            }),
    {
        if index < self.params.len() && self.params[index] != 0 {
            self.params[index]
        } else {
            default
        }
    }
}

pub open spec fn is_ascii_upper(byte: u8) -> bool {
    0x41 <= byte <= 0x5a
}

pub open spec fn is_ascii_lower(byte: u8) -> bool {
    0x61 <= byte <= 0x7a
}

/// The control character that Ctrl sends with `byte`: DEL for `?`, the
/// letter's control code for either case, and the low five bits for the
/// other characters from space to underscore.
pub open spec fn control_byte_spec(byte: u8) -> Option<u8> {
    if byte == 0x3f {
        Some(0x7fu8)
    } else if is_ascii_lower(byte) {
        Some((byte - 0x60) as u8)
    } else if is_ascii_upper(byte) || (0x20 <= byte <= 0x5f) {
        Some((byte % 32) as u8)
    } else {
        None
    }
}

pub fn control_byte(byte: u8) -> (r: Option<u8>)
    ensures
        r == control_byte_spec(byte),
{
    if byte == 0x3f {
        Some(0x7f)
    } else if 0x61 <= byte && byte <= 0x7a {
        let upper = byte - 0x20;
        assert(upper & 0x1f == (byte - 0x60) as u8) by (bit_vector)
            requires
                0x61 <= byte <= 0x7a,
                upper == byte - 0x20,
        ;
        Some(upper & 0x1f)
    } else if (0x41 <= byte && byte <= 0x5a) || (0x20 <= byte && byte <= 0x5f) {
        assert(byte & 0x1f == byte % 32) by (bit_vector);
        Some(byte & 0x1f)
    } else {
        None
    }
}

pub const SHIFT_FROM: [u8; 21] = [
    0x31, 0x32, 0x33, 0x34, 0x35, 0x36, 0x37, 0x38, 0x39, 0x30, 0x2d, 0x3d, 0x5b, 0x5d, 0x3b, 0x27,
    0x2c, 0x2e, 0x2f, 0x60, 0x5c,
];

pub const SHIFT_TO: [u8; 21] = [
    0x21, 0x40, 0x23, 0x24, 0x25, 0x5e, 0x26, 0x2a, 0x28, 0x29, 0x5f, 0x2b, 0x7b, 0x7d, 0x3a, 0x22,
    0x3c, 0x3e, 0x3f, 0x7e, 0x7c,
];

/// The character a US keyboard gives with Shift for `byte`: the entry of
/// the shift table, or the byte itself.
pub open spec fn shifted_spec(byte: u8) -> u8 {
    if exists|i: int| 0 <= i < 21 && SHIFT_FROM@[i] == byte {
        SHIFT_TO@[choose|i: int| 0 <= i < 21 && SHIFT_FROM@[i] == byte]
    } else {
        byte
    }
}

pub fn shifted_ascii(byte: u8) -> (r: u8)
    ensures
        r == shifted_spec(byte),
{
    let mut i: usize = 0;
    while i < 21
        invariant
            i <= 21,
            forall|j: int| 0 <= j < i ==> SHIFT_FROM@[j] != byte,
        decreases 21 - i,
    {
        if SHIFT_FROM[i] == byte {
            proof {
                let k = choose|k: int| 0 <= k < 21 && SHIFT_FROM@[k] == byte;
                assert(SHIFT_FROM@[i as int] == byte);
                if k != i {
                    // the table has no repeated entries
                    assert(SHIFT_FROM@[k] != SHIFT_FROM@[i as int]);
                }
            }
            return SHIFT_TO[i];
        }
        i += 1;
    }
    byte
}

pub const MOD_SHIFT: u16 = 1;
pub const MOD_CTRL: u16 = 2;
pub const MOD_ALT: u16 = 4;
pub const MOD_CAPS_LOCK: u16 = 8;

/// The character a key gives under `modifiers`: letters follow Shift
/// exclusive-or Caps Lock, other characters follow Shift.
pub open spec fn modified_spec(byte: u8, modifiers: u16) -> u8 {
    if is_ascii_upper(byte) || is_ascii_lower(byte) {
        let upper = ((modifiers & MOD_SHIFT) != 0) != ((modifiers & MOD_CAPS_LOCK) != 0);
        if upper {
            if is_ascii_lower(byte) { (byte - 0x20) as u8 } else { byte }
        } else {
            if is_ascii_upper(byte) { (byte + 0x20) as u8 } else { byte }
        }
    } else if (modifiers & MOD_SHIFT) != 0 {
        shifted_spec(byte)
    } else {
        byte
    }
}

pub fn modified_character(byte: u8, modifiers: u16) -> (r: u8)
    ensures
        r == modified_spec(byte, modifiers),
{
    let lower = 0x61 <= byte && byte <= 0x7a;
    let upper_letter = 0x41 <= byte && byte <= 0x5a;
    if lower || upper_letter {
        let upper = ((modifiers & MOD_SHIFT) != 0) != ((modifiers & MOD_CAPS_LOCK) != 0);
        if upper {
            if lower { byte - 0x20 } else { byte }
        } else {
            if upper_letter { byte + 0x20 } else { byte }
        }
    } else if (modifiers & MOD_SHIFT) != 0 {
        shifted_ascii(byte)
    } else {
        byte
    }
}

} // verus!
