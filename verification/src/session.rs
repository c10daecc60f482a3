//! Output buffering and UTF-8 aware line helpers for the session service.

use vstd::prelude::*;

verus! {

pub const MAX_LINE_BYTES: usize = 256;
pub const MAX_OUTPUT_BYTES: usize = 512;

/// The bytes of `s` that still fit after `out` in an output buffer.
pub open spec fn append_bounded(out: Seq<u8>, s: Seq<u8>) -> Seq<u8> {
    let room = MAX_OUTPUT_BYTES - out.len();
    if room <= 0 {
        out
    } else if s.len() <= room {
        out + s
    } else {
        out + s.take(room)
    }
}

/// The decimal digits of the lowest `k` places of `v`, without leading
/// zeros beyond the number itself.
pub open spec fn low_digits(v: nat, k: nat) -> Seq<u8>
    decreases k,
{
    if v == 0 || k == 0 {
        Seq::empty()
    } else {
        low_digits(v / 10, (k - 1) as nat).push((48 + v % 10) as u8)
    }
}

/// What `push_decimal` writes for `v`: its decimal form, cut to the
/// lowest three places.
pub open spec fn decimal_text(v: nat) -> Seq<u8> {
    if v == 0 {
        seq![48u8]
    } else {
        low_digits(v, 3)
    }
}

/// A bounded buffer of output bytes.
#[derive(Clone, Debug)]
pub struct ShellOutput {
    bytes: Vec<u8>,
}

impl ShellOutput {
    /// The bytes written so far.
    pub closed spec fn view(&self) -> Seq<u8> {
        self.bytes@
    }

    pub open spec fn wf(&self) -> bool {
        self@.len() <= MAX_OUTPUT_BYTES
    }

    pub fn new() -> (r: Self)
        ensures
            r@ == Seq::<u8>::empty(),
            r.wf(),
    {
        ShellOutput { bytes: Vec::new() }
    }

    pub fn len(&self) -> (r: usize)
        ensures
            r == self@.len(),
    {
        self.bytes.len()
    }

    /// Append `byte` unless the buffer is full.
    pub fn push(&mut self, byte: u8)
        requires
            old(self).wf(),
        ensures
            final(self).wf(),
            final(self)@ == append_bounded(old(self)@, seq![byte]),
    {
        if self.bytes.len() < MAX_OUTPUT_BYTES {
            self.bytes.push(byte);
        }
    }

    /// Append as much of `bytes` as fits.
    pub fn extend(&mut self, bytes: &[u8])
        requires
            old(self).wf(),
        ensures
            final(self).wf(),
            final(self)@ == append_bounded(old(self)@, bytes@),
    {
        let room = MAX_OUTPUT_BYTES - self.bytes.len();
        let count = if bytes.len() < room { bytes.len() } else { room };
        let ghost start = self.bytes@;
        let mut i: usize = 0;
        while i < count
            invariant
                count <= bytes@.len(),
                count <= MAX_OUTPUT_BYTES - start.len(),
                start.len() <= MAX_OUTPUT_BYTES,
                i <= count,
                self.bytes@ == start + bytes@.take(i as int),
            decreases count - i,
        {
            self.bytes.push(bytes[i]);
            i += 1;
            assert(self.bytes@ =~= start + bytes@.take(i as int));
        }
        assert(bytes@.take(bytes@.len() as int) =~= bytes@);
    }

    pub fn as_bytes(&self) -> (r: &[u8])
        ensures
            r@ == self@,
    {
        self.bytes.as_slice()
    }

    /// Append the decimal form of `value`, cut to its lowest three places.
    pub fn push_decimal(&mut self, value: usize)
        requires
            old(self).wf(),
        ensures
            final(self).wf(),
            final(self)@ == append_bounded(old(self)@, decimal_text(value as nat)),
    {
        if value == 0 {
            self.push(48);
            return;
        }
        let mut digits: Vec<u8> = Vec::new();
        let mut rest = value;
        let mut count: usize = 0;
        while rest != 0 && count < 3
            invariant
                count <= 3,
                digits@.len() == count,
                low_digits(value as nat, 3) == low_digits(rest as nat, (3 - count) as nat) + digits@.reverse(),
            decreases 3 - count,
        {
            proof {
                assert(low_digits(rest as nat, (3 - count) as nat) == low_digits(
                    (rest / 10) as nat,
                    (3 - count - 1) as nat,
                ).push((48 + rest % 10) as u8));
            }
            let digit = (48 + rest % 10) as u8;
            let ghost before = digits@;
            digits.push(digit);
            assert(digits@.reverse() =~= seq![digit] + before.reverse());
            rest = rest / 10;
            count += 1;
        }
        assert(low_digits(rest as nat, (3 - count) as nat) == Seq::<u8>::empty());
        assert(digits@.reverse() =~= low_digits(value as nat, 3));
        let ghost start = self@;
        let mut k = count;
        while k > 0
            invariant
                k <= count,
                count == digits@.len(),
                self.wf(),
                self@ == append_bounded(start, digits@.reverse().take((count - k) as int)),
                start.len() <= MAX_OUTPUT_BYTES,
            decreases k,
        {
            k -= 1;
            let ghost prefix = digits@.reverse().take((count - k - 1) as int);
            proof {
                assert(digits@.reverse().take((count - k) as int) =~= prefix.push(digits@[k as int]));
            }
            self.push(digits[k]);
            assert(self@ =~= append_bounded(start, digits@.reverse().take((count - k) as int)));
        }
        assert(digits@.reverse().take(count as int) =~= digits@.reverse());
    }
}

/// Bytes of the form `10xxxxxx` continue a UTF-8 sequence.
pub open spec fn is_continuation(byte: u8) -> bool {
    0x80 <= byte < 0xc0
}

pub fn is_utf8_continuation(byte: u8) -> (r: bool)
    ensures
        r == is_continuation(byte),
{
    assert((byte & 0xc0 == 0x80) == (0x80 <= byte < 0xc0)) by (bit_vector);
    byte & 0xc0 == 0x80
}

/// Whether `bytes`, of the width its lead byte announces, is one
/// well-formed UTF-8 character: continuation bytes throughout, with the
/// second byte's range narrowed after E0, ED, F0 and F4 so that no
/// character is encoded overlong, as a surrogate, or past U+10FFFF.
pub open spec fn well_formed_sequence(bytes: Seq<u8>) -> bool {
    let first = bytes[0];
    let second = bytes[1];
    let low = if first == 0xe0 {
        0xa0u8
    } else if first == 0xf0 {
        0x90u8
    } else {
        0x80u8
    };
    let high = if first == 0xed {
        0x9fu8
    } else if first == 0xf4 {
        0x8fu8
    } else {
        0xbfu8
    };
    &&& bytes.len() == lead_width(first)
    &&& bytes.len() >= 2
    &&& low <= second <= high
    &&& forall|i: int| 2 <= i < bytes.len() ==> #[trigger] is_continuation(bytes[i])
}

fn well_formed_head(bytes: &[u8], width: usize) -> (r: bool)
    requires
        2 <= width <= 4,
        width == lead_width(bytes@[0]),
        bytes@.len() >= width,
    ensures
        r == well_formed_sequence(bytes@.take(width as int)),
{
    let first = bytes[0];
    let second = bytes[1];
    let low: u8 = if first == 0xe0 {
        0xa0
    } else if first == 0xf0 {
        0x90
    } else {
        0x80
    };
    let high: u8 = if first == 0xed {
        0x9f
    } else if first == 0xf4 {
        0x8f
    } else {
        0xbf
    };
    if second < low || second > high {
        return false;
    }
    let mut i: usize = 2;
    while i < width
        invariant
            2 <= i <= width,
            width <= bytes@.len(),
            forall|k: int| 2 <= k < i ==> #[trigger] is_continuation(bytes@[k]),
        decreases width - i,
    {
        if !is_utf8_continuation(bytes[i]) {
            assert(bytes@.take(width as int)[i as int] == bytes@[i as int]);
            return false;
        }
        i += 1;
    }
    assert forall|k: int| 2 <= k < width implies #[trigger] is_continuation(bytes@.take(width as int)[k]) by {
        assert(bytes@.take(width as int)[k] == bytes@[k]);
    }
    true
}

/// The length a lead byte announces: 2, 3 or 4, else 1.
pub open spec fn lead_width(first: u8) -> int {
    if 0xc2 <= first <= 0xdf {
        2
    } else if 0xe0 <= first <= 0xef {
        3
    } else if 0xf0 <= first <= 0xf4 {
        4
    } else {
        1
    }
}

/// The width of the UTF-8 sequence at the start of `bytes`: the announced
/// width when that many bytes are there and form one well-formed
/// character, else 1 (0 for no bytes).
pub open spec fn sequence_width(bytes: Seq<u8>) -> int {
    if bytes.len() == 0 {
        0
    } else {
        let width = lead_width(bytes[0]);
        if width == 1 || bytes.len() < width || !well_formed_sequence(bytes.take(width)) {
            1
        } else {
            width
        }
    }
}

pub fn utf8_sequence_width(bytes: &[u8]) -> (r: usize)
    ensures
        r == sequence_width(bytes@),
{
    if bytes.len() == 0 {
        return 0;
    }
    let first = bytes[0];
    let width: usize = if 0xc2 <= first && first <= 0xdf {
        2
    } else if 0xe0 <= first && first <= 0xef {
        3
    } else if 0xf0 <= first && first <= 0xf4 {
        4
    } else {
        return 1;
    };
    if bytes.len() < width {
        return 1;
    }
    if well_formed_head(bytes, width) {
        width
    } else {
        1
    }
}

/// The start of the character before position `index`: scanning down from
/// `index - 1` past continuation bytes, stopping at 0.
pub open spec fn previous_start(bytes: Seq<u8>, i: int) -> int
    decreases i,
{
    if i <= 0 {
        0
    } else if !is_continuation(bytes[i]) {
        i
    } else {
        previous_start(bytes, i - 1)
    }
}

pub fn previous_boundary(bytes: &[u8], index: usize) -> (r: usize)
    requires
        index <= bytes@.len(),
    ensures
        r == previous_start(bytes@, index - 1),
{
    let mut i = if index > 0 { index - 1 } else { 0 };
    while i > 0 && is_utf8_continuation(bytes[i])
        invariant
            index <= bytes@.len(),
            i < index || i == 0,
            i <= bytes@.len(),
            previous_start(bytes@, index - 1) == previous_start(bytes@, i as int),
        decreases i,
    {
        i -= 1;
    }
    i
}

/// The end of the character at position `i` of the first `len` bytes:
/// the next position that does not hold a continuation byte.
pub open spec fn next_start(bytes: Seq<u8>, i: int, len: int) -> int
    decreases len - i,
{
    if i >= len {
        len
    } else if !is_continuation(bytes[i]) {
        i
    } else {
        next_start(bytes, i + 1, len)
    }
}

pub fn next_boundary(bytes: &[u8], index: usize, len: usize) -> (r: usize)
    requires
        len <= bytes@.len(),
        index < len,
    ensures
        r == next_start(bytes@, index + 1, len as int),
{
    let mut i = index + 1;
    while i < len && is_utf8_continuation(bytes[i])
        invariant
            index < i <= len,
            len <= bytes@.len(),
            next_start(bytes@, index + 1, len as int) == next_start(bytes@, i as int, len as int),
        decreases len - i,
    {
        i += 1;
    }
    i
}

/// The number of characters: the bytes that do not continue a sequence.
pub open spec fn char_count(bytes: Seq<u8>) -> int
    decreases bytes.len(),
{
    if bytes.len() == 0 {
        0
    } else {
        char_count(bytes.drop_last()) + if is_continuation(bytes.last()) { 0int } else { 1int }
    }
}

pub fn display_width(bytes: &[u8]) -> (r: usize)
    ensures
        r == char_count(bytes@),
{
    let mut count: usize = 0;
    let mut i: usize = 0;
    while i < bytes.len()
        invariant
            i <= bytes@.len(),
            count <= i,
            count == char_count(bytes@.take(i as int)),
        decreases bytes@.len() - i,
    {
        assert(bytes@.take(i + 1).drop_last() =~= bytes@.take(i as int));
        if !is_utf8_continuation(bytes[i]) {
            count += 1;
        }
        i += 1;
    }
    assert(bytes@.take(bytes@.len() as int) =~= bytes@);
    count
}

pub open spec fn is_name_start(byte: u8) -> bool {
    (0x41 <= byte <= 0x5a) || (0x61 <= byte <= 0x7a) || byte == 0x5f
}

pub open spec fn is_name_byte(byte: u8) -> bool {
    is_name_start(byte) || (0x30 <= byte <= 0x39)
}

/// The length of the identifier that starts the line, or 0.
pub open spec fn command_name_length(bytes: Seq<u8>) -> int {
    if bytes.len() == 0 || !is_name_start(bytes[0]) {
        0
    } else {
        name_run(bytes, 0)
    }
}

/// The first position at or after `i` that does not hold a name byte.
pub open spec fn name_run(bytes: Seq<u8>, i: int) -> int
    decreases bytes.len() - i,
{
    if i < 0 || i >= bytes.len() {
        bytes.len() as int
    } else if !is_name_byte(bytes[i]) {
        i
    } else {
        name_run(bytes, i + 1)
    }
}

pub fn command_name_len(bytes: &[u8]) -> (r: usize)
    ensures
        r == command_name_length(bytes@),
{
    if bytes.len() == 0 {
        return 0;
    }
    let first = bytes[0];
    if !((0x41 <= first && first <= 0x5a) || (0x61 <= first && first <= 0x7a) || first == 0x5f) {
        return 0;
    }
    let mut i: usize = 0;
    while i < bytes.len()
        invariant
            i <= bytes@.len(),
            command_name_length(bytes@) == name_run(bytes@, 0),
            name_run(bytes@, 0) == name_run(bytes@, i as int),
        decreases bytes@.len() - i,
    {
        let b = bytes[i];
        if !((0x41 <= b && b <= 0x5a) || (0x61 <= b && b <= 0x7a) || b == 0x5f || (0x30 <= b && b
            <= 0x39)) {
            return i;
        }
        i += 1;
    }
    bytes.len()
}

/// Colour escape lengths: command and string colours, and reset.
pub const COMMAND_COLOR_BYTES: usize = 5;
pub const STRING_COLOR_BYTES: usize = 5;
pub const RESET_COLOR_BYTES: usize = 4;

/// The number of string literals that start at or after position `i`,
/// `in_string` telling whether `i` lies inside one already.
pub open spec fn string_count(bytes: Seq<u8>, i: int, in_string: bool) -> int
    decreases bytes.len() - i,
{
    if i < 0 || i >= bytes.len() {
        0
    } else if in_string {
        string_count(bytes, i + 1, bytes[i] != 0x22)
    } else if bytes[i] == 0x22 {
        1 + string_count(bytes, i + 1, true)
    } else {
        string_count(bytes, i + 1, false)
    }
}

/// Bytes that highlighting adds to the line: a command colour pair when
/// the line starts with a name, and a string colour pair per literal.
pub open spec fn syntax_extra(bytes: Seq<u8>, command_len: int) -> int {
    (if command_len == 0 { 0 } else { (COMMAND_COLOR_BYTES + RESET_COLOR_BYTES) as int })
        + string_count(bytes, command_len, false) * (STRING_COLOR_BYTES + RESET_COLOR_BYTES)
}

pub fn syntax_extra_bytes(bytes: &[u8], command_len: usize) -> (r: usize)
    requires
        bytes@.len() <= MAX_LINE_BYTES,
    ensures
        r == syntax_extra(bytes@, command_len as int),
{
    let mut strings: usize = 0;
    let mut in_string = false;
    let mut index = command_len;
    while index < bytes.len()
        invariant
            bytes@.len() <= MAX_LINE_BYTES,
            strings <= index,
            strings == 0 || index <= bytes@.len(),
            index >= bytes@.len() ==> string_count(bytes@, index as int, in_string) == 0,
            string_count(bytes@, command_len as int, false) == strings + string_count(
                bytes@,
                index as int,
                in_string,
            ),
        decreases bytes@.len() - index,
    {
        if in_string {
            in_string = bytes[index] != 0x22;
        } else if bytes[index] == 0x22 {
            strings += 1;
            in_string = true;
        }
        index += 1;
    }
    let extra = if command_len == 0 { 0 } else { COMMAND_COLOR_BYTES + RESET_COLOR_BYTES };
    extra + strings * (STRING_COLOR_BYTES + RESET_COLOR_BYTES)
}

/// Append the escape that moves the cursor `distance` cells in
/// `direction`, if the distance is not zero.
pub fn move_cursor(output: &mut ShellOutput, direction: u8, distance: usize)
    requires
        old(output).wf(),
    ensures
        final(output).wf(),
        final(output)@ == if distance == 0 {
            old(output)@
        } else {
            append_bounded(
                append_bounded(append_bounded(old(output)@, seq![0x1bu8, 0x5bu8]), decimal_text(distance as nat)),
                seq![direction],
            )
        },
{
    if distance == 0 {
        return;
    }
    output.extend(&[0x1bu8, 0x5bu8]);
    output.push_decimal(distance);
    output.push(direction);
}

} // verus!
