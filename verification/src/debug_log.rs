//! The kernel's debug log: the last lines written, kept in a ring, read
//! back by cursor, and the hexadecimal lines it is given.

use vstd::prelude::*;

verus! {

pub const LOG_EVENTS: usize = 32;
pub const LOG_BYTES: usize = 160;
/// Room a hexadecimal value takes at the end of a line.
pub const HEX_DIGITS: usize = 16;

/// The log lines kept when it was taken, oldest first, with the cursors
/// of the first and of the next line.
#[derive(Clone, Copy)]
pub struct Snapshot {
    pub lines: [[u8; LOG_BYTES]; LOG_EVENTS],
    pub lengths: [u16; LOG_EVENTS],
    pub len: usize,
    pub first_cursor: u64,
    pub next_cursor: u64,
}

/// The ring the log lines go to: line `n` sits in slot `n % LOG_EVENTS`.
pub struct LogRing {
    lines: [[u8; LOG_BYTES]; LOG_EVENTS],
    lengths: [u16; LOG_EVENTS],
    head: usize,
}

/// The ring as values: each slot's bytes and length, and how many lines
/// were written.
pub struct RingView {
    pub lines: Seq<Seq<u8>>,
    pub lengths: Seq<u16>,
    pub head: usize,
}

/// A line of zeros.
pub open spec fn zero_line() -> Seq<u8> {
    Seq::new(LOG_BYTES as nat, |j: int| 0u8)
}

pub open spec fn min_usize(a: usize, b: usize) -> usize {
    if a <= b {
        a
    } else {
        b
    }
}

/// The first `LOG_BYTES` of `message`, zero padded.
pub open spec fn stored_line(message: Seq<u8>) -> Seq<u8> {
    let n = min_usize(message.len() as usize, LOG_BYTES);
    message.take(n as int) + Seq::new((LOG_BYTES - n) as nat, |i: int| 0u8)
}

/// The ring after one more line.
pub open spec fn recorded(r: RingView, message: Seq<u8>) -> RingView {
    let slot = (r.head % LOG_EVENTS) as int;
    RingView {
        lines: r.lines.update(slot, stored_line(message)),
        lengths: r.lengths.update(slot, min_usize(message.len() as usize, LOG_BYTES) as u16),
        head: if r.head == usize::MAX {
            0
        } else {
            (r.head + 1) as usize
        },
    }
}

/// `s` is what taking a snapshot of `r` gives: the last lines written,
/// at most `LOG_EVENTS`, oldest first, zeros after them.
pub open spec fn snapshot_of(r: RingView, s: Snapshot) -> bool {
    let len = min_usize(r.head, LOG_EVENTS);
    &&& s.len == len
    &&& s.first_cursor == r.head - len
    &&& s.next_cursor == r.head
    &&& forall|i: int|
        0 <= i < len ==> (#[trigger] s.lines@[i])@ == r.lines[(r.head - len + i) % (LOG_EVENTS as int)]
            && s.lengths@[i] == r.lengths[(r.head - len + i) % (LOG_EVENTS as int)]
    &&& forall|i: int|
        len <= i < LOG_EVENTS ==> (#[trigger] s.lines@[i])@ == zero_line() && s.lengths@[i]
            == 0
}

/// Reading the line at `cursor` from a snapshot: the cursor after it,
/// how many bytes it has, and whether lines before it were lost. A
/// cursor past the kept lines reads nothing.
pub open spec fn since_out(s: Snapshot, cursor: u64) -> (u64, usize, bool) {
    let gap = cursor < s.first_cursor;
    let start = if cursor < s.first_cursor {
        s.first_cursor
    } else if cursor > s.next_cursor {
        s.next_cursor
    } else {
        cursor
    };
    let index = start - s.first_cursor;
    if index >= s.len {
        (s.next_cursor, 0, gap)
    } else {
        let length = min_usize(s.lengths@[index] as usize, LOG_BYTES);
        (if start == u64::MAX {
            u64::MAX
        } else {
            (start + 1) as u64
        }, length, gap)
    }
}

/// The hexadecimal digit for `nibble`.
pub open spec fn hex_char(nibble: u64) -> u8 {
    if nibble < 10 {
        (0x30 + nibble) as u8
    } else {
        (0x57 + nibble) as u8
    }
}

/// Digit `k` of `value` in sixteen hexadecimal digits, most significant
/// first.
pub open spec fn hex_digit(value: u64, k: int) -> u8 {
    hex_char((value >> ((60 - 4 * k) as u64)) & 0xf)
}

impl LogRing {
    pub closed spec fn view(&self) -> RingView {
        RingView { lines: Seq::new(LOG_EVENTS as nat, |i: int| self.lines@[i]@), lengths: self.lengths@, head: self.head }
    }

    /// Slots hold `LOG_BYTES` each.
    pub open spec fn wf(&self) -> bool {
        &&& self@.lines.len() == LOG_EVENTS
        &&& self@.lengths.len() == LOG_EVENTS
        &&& forall|i: int| 0 <= i < LOG_EVENTS ==> (#[trigger] self@.lines[i]).len() == LOG_BYTES
    }

    /// An empty log.
    pub fn new() -> (r: Self)
        ensures
            r.wf(),
            r@.head == 0,
            forall|i: int| 0 <= i < LOG_EVENTS ==> r@.lengths[i] == 0,
    {
        LogRing { lines: [[0u8; LOG_BYTES]; LOG_EVENTS], lengths: [0u16; LOG_EVENTS], head: 0 }
    }

    /// Keep `message`, cut to `LOG_BYTES`, as the newest line.
    pub fn record(&mut self, message: &[u8])
        requires
            old(self).wf(),
        ensures
            final(self).wf(),
            final(self)@ == recorded(old(self)@, message@),
    {
        let index = self.head % LOG_EVENTS;
        let length = if message.len() < LOG_BYTES {
            message.len()
        } else {
            LOG_BYTES
        };
        let mut line = [0u8; LOG_BYTES];
        let mut i: usize = 0;
        while i < length
            invariant
                i <= length <= LOG_BYTES,
                length <= message@.len(),
                forall|j: int| 0 <= j < i ==> #[trigger] line@[j] == message@[j],
                forall|j: int| i <= j < LOG_BYTES ==> #[trigger] line@[j] == 0,
            decreases length - i,
        {
            line[i] = message[i];
            i += 1;
        }
        assert(line@ =~= stored_line(message@));
        let ghost before = self@;
        self.lines[index] = line;
        self.lengths[index] = length as u16;
        self.head = if self.head == usize::MAX {
            0
        } else {
            self.head + 1
        };
        assert(self@.lines =~= before.lines.update(index as int, stored_line(message@)));
        assert(self@.lengths =~= before.lengths.update(index as int, length as u16));
    }

    /// The lines kept, oldest first.
    pub fn snapshot(&self) -> (s: Snapshot)
        requires
            self.wf(),
        ensures
            snapshot_of(self@, s),
    {
        let head = self.head;
        let len = if head < LOG_EVENTS {
            head
        } else {
            LOG_EVENTS
        };
        let mut lines = [[0u8; LOG_BYTES]; LOG_EVENTS];
        let mut lengths = [0u16; LOG_EVENTS];
        let mut i: usize = 0;
        while i < len
            invariant
                self.wf(),
                head == self@.head,
                len == min_usize(head, LOG_EVENTS),
                i <= len,
                forall|k: int|
                    0 <= k < i ==> (#[trigger] lines@[k])@ == self@.lines[(head - len + k) % (LOG_EVENTS as int)]
                        && lengths@[k] == self@.lengths[(head - len + k) % (LOG_EVENTS as int)],
                forall|k: int|
                    i <= k < LOG_EVENTS ==> (#[trigger] lines@[k])@ == zero_line()
                        && lengths@[k] == 0,
            decreases len - i,
        {
            let source = (head - len + i) % LOG_EVENTS;
            assert(self@.lines[source as int] == self.lines@[source as int]@);
            let ghost before_lines = lines@;
            let ghost before_lengths = lengths@;
            lines[i] = self.lines[source];
            lengths[i] = self.lengths[source];
            assert forall|k: int| 0 <= k < i + 1 implies (#[trigger] lines@[k])@ == self@.lines[(head - len + k) % (
            LOG_EVENTS as int)] && lengths@[k] == self@.lengths[(head - len + k) % (LOG_EVENTS as int)] by {
                if k < i {
                    assert(lines@[k] == before_lines[k]);
                    assert(lengths@[k] == before_lengths[k]);
                }
            }
            assert forall|k: int| i + 1 <= k < LOG_EVENTS implies (#[trigger] lines@[k])@ == zero_line() && lengths@[k] == 0 by {
                assert(lines@[k] == before_lines[k]);
                assert(lengths@[k] == before_lengths[k]);
            }
            i += 1;
        }
        let s = Snapshot { lines, lengths, len, first_cursor: (head - len) as u64, next_cursor: head as u64 };
        assert forall|k: int| 0 <= k < len implies (#[trigger] s.lines@[k])@ == self@.lines[(self@.head - len + k) % (
        LOG_EVENTS as int)] && s.lengths@[k] == self@.lengths[(self@.head - len + k) % (LOG_EVENTS as int)] by {
            assert(s.lines@[k] == lines@[k]);
        }
        assert forall|k: int| len <= k < LOG_EVENTS implies (#[trigger] s.lines@[k])@ == zero_line() && s.lengths@[k] == 0 by {
            assert(s.lines@[k] == lines@[k]);
        }
        assert(len == min_usize(self@.head, LOG_EVENTS));
        assert(snapshot_of(self@, s));
        s
    }
}

/// Copy the line at `cursor` into `output`; the cursor after it, its
/// length, and whether lines before it were lost.
pub fn since(snapshot: &Snapshot, cursor: u64, output: &mut [u8; LOG_BYTES]) -> (r: (u64, usize, bool))
    requires
        snapshot.first_cursor <= snapshot.next_cursor,
        snapshot.len <= LOG_EVENTS,
    ensures
        r == since_out(*snapshot, cursor),
        ({
            let (_, length, _) = r;
            let index = (if cursor < snapshot.first_cursor {
                snapshot.first_cursor
            } else if cursor > snapshot.next_cursor {
                snapshot.next_cursor
            } else {
                cursor
            }) - snapshot.first_cursor;
            &&& forall|j: int| 0 <= j < length ==> #[trigger] final(output)@[j] == snapshot.lines@[index]@[j]
            &&& forall|j: int| length <= j < LOG_BYTES ==> #[trigger] final(output)@[j] == old(output)@[j]
        }),
{
    let gap = cursor < snapshot.first_cursor;
    let start = if cursor < snapshot.first_cursor {
        snapshot.first_cursor
    } else if cursor > snapshot.next_cursor {
        snapshot.next_cursor
    } else {
        cursor
    };
    let offset = start - snapshot.first_cursor;
    if offset >= snapshot.len as u64 {
        return (snapshot.next_cursor, 0, gap);
    }
    let index = offset as usize;
    let length = if (snapshot.lengths[index] as usize) < LOG_BYTES {
        snapshot.lengths[index] as usize
    } else {
        LOG_BYTES
    };
    let line = snapshot.lines[index];
    let mut i: usize = 0;
    while i < length
        invariant
            i <= length <= LOG_BYTES,
            forall|j: int| 0 <= j < i ==> #[trigger] output@[j] == line@[j],
            forall|j: int| i <= j < LOG_BYTES ==> #[trigger] output@[j] == old(output)@[j],
        decreases length - i,
    {
        output[i] = line[i];
        i += 1;
    }
    let next = if start == u64::MAX {
        u64::MAX
    } else {
        start + 1
    };
    (next, length, gap)
}

/// `prefix`, cut to leave room, then `value` in sixteen hexadecimal
/// digits.
pub fn hex_u64_line(prefix: &[u8], value: u64) -> (r: Vec<u8>)
    ensures
        ({
            let n = min_usize(prefix@.len() as usize, (LOG_BYTES - HEX_DIGITS) as usize);
            &&& r@.len() == n + HEX_DIGITS
            &&& r@.take(n as int) == prefix@.take(n as int)
            &&& forall|k: int| 0 <= k < HEX_DIGITS ==> #[trigger] r@[n + k] == hex_digit(value, k)
        }),
{
    let limit = LOG_BYTES - HEX_DIGITS;
    let n = if prefix.len() < limit {
        prefix.len()
    } else {
        limit
    };
    let mut line: Vec<u8> = Vec::new();
    let mut i: usize = 0;
    while i < n
        invariant
            i <= n <= prefix@.len(),
            line@ == prefix@.take(i as int),
        decreases n - i,
    {
        line.push(prefix[i]);
        i += 1;
        assert(line@ =~= prefix@.take(i as int));
    }
    let mut k: usize = 0;
    while k < HEX_DIGITS
        invariant
            k <= HEX_DIGITS,
            line@.len() == n + k,
            line@.take(n as int) == prefix@.take(n as int),
            forall|j: int| 0 <= j < k ==> #[trigger] line@[n + j] == hex_digit(value, j),
        decreases HEX_DIGITS - k,
    {
        let shift = (60 - 4 * k) as u64;
        let nibble = (value >> shift) & 0xf;
        assert(nibble <= 15) by (bit_vector)
            requires
                nibble == (value >> shift) & 0xf,
        ;
        let digit = if nibble < 10 {
            (0x30 + nibble) as u8
        } else {
            (0x57 + nibble) as u8
        };
        let ghost before = line@;
        line.push(digit);
        assert(line@.take(n as int) =~= before.take(n as int));
        k += 1;
    }
    line
}

/// The line just written is what a snapshot taken next gives back at the
/// cursor it was written under: cut to `LOG_BYTES`, with no lines lost
/// before it, and the cursor after it next.
pub proof fn lemma_written_line_reads_back(r: RingView, message: Seq<u8>, s: Snapshot)
    requires
        r.lines.len() == LOG_EVENTS,
        r.lengths.len() == LOG_EVENTS,
        r.head < usize::MAX,
        snapshot_of(recorded(r, message), s),
    ensures
        ({
            let n = min_usize(message.len() as usize, LOG_BYTES);
            &&& since_out(s, r.head as u64) == ((r.head + 1) as u64, n, false)
            &&& s.lines@[(r.head - s.first_cursor) as int]@.take(n as int) == message.take(n as int)
        }),
{
    let after = recorded(r, message);
    let len = min_usize(after.head, LOG_EVENTS);
    let index = len - 1;
    assert(after.head == r.head + 1);
    assert((after.head - len + index) % (LOG_EVENTS as int) == (r.head as int) % (LOG_EVENTS as int));
    assert(s.lines@[index]@ == after.lines[(after.head - len + index) % (LOG_EVENTS as int)]);
    assert(s.lengths@[index] == after.lengths[(after.head - len + index) % (LOG_EVENTS as int)]);
    let n = min_usize(message.len() as usize, LOG_BYTES);
    assert(stored_line(message).take(n as int) =~= message.take(n as int));
}

/// The ring after the lines `messages`, in order.
pub open spec fn recorded_all(r: RingView, messages: Seq<Seq<u8>>) -> RingView
    decreases messages.len(),
{
    if messages.len() == 0 {
        r
    } else {
        recorded(recorded_all(r, messages.drop_last()), messages.last())
    }
}

proof fn lemma_recorded_all_slots(r: RingView, messages: Seq<Seq<u8>>, j: int)
    requires
        r.lines.len() == LOG_EVENTS,
        r.lengths.len() == LOG_EVENTS,
        r.head + messages.len() < usize::MAX,
        0 <= j < messages.len(),
        messages.len() - LOG_EVENTS <= j,
    ensures
        recorded_all(r, messages).head == r.head + messages.len(),
        recorded_all(r, messages).lines.len() == LOG_EVENTS,
        recorded_all(r, messages).lengths.len() == LOG_EVENTS,
        recorded_all(r, messages).lines[(r.head + j) % (LOG_EVENTS as int)] == stored_line(messages[j]),
        recorded_all(r, messages).lengths[(r.head + j) % (LOG_EVENTS as int)] == min_usize(
            messages[j].len() as usize,
            LOG_BYTES,
        ) as u16,
    decreases messages.len(),
{
    let n = messages.len() as int;
    let before = messages.drop_last();
    lemma_recorded_all_shape(r, before);
    if j < n - 1 {
        lemma_recorded_all_slots(r, before, j);
        assert(before[j] == messages[j]);
        let a = r.head + j;
        let b = r.head + n - 1;
        assert(a % 32 != b % 32) by (nonlinear_arith)
            requires
                0 < b - a < 32,
                0 <= a,
        ;
    }
}

proof fn lemma_recorded_all_shape(r: RingView, messages: Seq<Seq<u8>>)
    requires
        r.lines.len() == LOG_EVENTS,
        r.lengths.len() == LOG_EVENTS,
        r.head + messages.len() < usize::MAX,
    ensures
        recorded_all(r, messages).head == r.head + messages.len(),
        recorded_all(r, messages).lines.len() == LOG_EVENTS,
        recorded_all(r, messages).lengths.len() == LOG_EVENTS,
    decreases messages.len(),
{
    if messages.len() > 0 {
        lemma_recorded_all_shape(r, messages.drop_last());
    }
}

/// Over any run of lines, a snapshot taken afterwards gives back each of
/// the last `LOG_EVENTS` lines at the cursor it was written under, cut to
/// `LOG_BYTES`: the ring keeps the newest lines and loses only older ones.
pub proof fn lemma_ring_keeps_last_lines(r: RingView, messages: Seq<Seq<u8>>, s: Snapshot, j: int)
    requires
        r.lines.len() == LOG_EVENTS,
        r.lengths.len() == LOG_EVENTS,
        r.head + messages.len() < usize::MAX,
        snapshot_of(recorded_all(r, messages), s),
        0 <= j < messages.len(),
        messages.len() - LOG_EVENTS <= j,
    ensures
        s.first_cursor <= r.head + j < s.next_cursor,
        s.lines@[r.head + j - s.first_cursor]@ == stored_line(messages[j]),
        s.lengths@[r.head + j - s.first_cursor] == min_usize(messages[j].len() as usize, LOG_BYTES) as u16,
{
    lemma_recorded_all_slots(r, messages, j);
    let after = recorded_all(r, messages);
    let len = min_usize(after.head, LOG_EVENTS);
    let i = r.head + j - s.first_cursor;
    assert(0 <= i < len);
    assert(after.head - len + i == r.head + j);
    assert(s.lines@[i]@ == after.lines[(after.head - len + i) % (LOG_EVENTS as int)]);
    assert(s.lengths@[i] == after.lengths[(r.head + j) % (LOG_EVENTS as int)]);
}

} // verus!
