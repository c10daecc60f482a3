//! The mathematical model of the session's line editor: its state, the
//! text it writes, and what each key does to both.

use vstd::prelude::*;
use crate::session::{
    append_bounded, decimal_text, char_count, previous_start, next_start, command_name_length,
    syntax_extra, sequence_width, MAX_LINE_BYTES, MAX_OUTPUT_BYTES,
};
use crate::completion::{
    CompletionRequest, CompletionResponse, CompletionStatus, response_valid_for,
    MAX_COMPLETION_CANDIDATES, MAX_COMPLETION_ITEM_BYTES,
};

verus! {

pub const MAX_HISTORY_ENTRIES: usize = 8;
pub const MAX_HISTORY_BYTES: usize = 128;
pub const COMPLETION_TIMEOUT_TICKS: u8 = 32;

/// `ESC [36m logos ESC [0m SP ESC [33m > ESC [0m SP`
pub open spec fn prompt_text() -> Seq<u8> {
    seq![
        0x1bu8, 0x5b, 0x33, 0x36, 0x6d, 0x6c, 0x6f, 0x67, 0x6f, 0x73, 0x1b, 0x5b, 0x30, 0x6d, 0x20,
        0x1b, 0x5b, 0x33, 0x33, 0x6d, 0x3e, 0x1b, 0x5b, 0x30, 0x6d, 0x20,
    ]
}

/// `ESC [36m`
pub open spec fn command_color() -> Seq<u8> {
    seq![0x1bu8, 0x5b, 0x33, 0x36, 0x6d]
}

/// `ESC [32m`
pub open spec fn string_color() -> Seq<u8> {
    seq![0x1bu8, 0x5b, 0x33, 0x32, 0x6d]
}

/// `ESC [0m`
pub open spec fn reset_color() -> Seq<u8> {
    seq![0x1bu8, 0x5b, 0x30, 0x6d]
}

/// `ESC [2m`
pub open spec fn dim_color() -> Seq<u8> {
    seq![0x1bu8, 0x5b, 0x32, 0x6d]
}

/// `ESC [K`: erase to the end of the line.
pub open spec fn erase_to_end() -> Seq<u8> {
    seq![0x1bu8, 0x5b, 0x4b]
}

/// `ESC [2J ESC [H`: clear the screen and home the cursor.
pub open spec fn clear_screen_text() -> Seq<u8> {
    seq![0x1bu8, 0x5b, 0x32, 0x4a, 0x1b, 0x5b, 0x48]
}

/// `CR LF`
pub open spec fn newline_text() -> Seq<u8> {
    seq![0x0du8, 0x0a]
}

/// `CR LF completion unavailable CR LF`
pub open spec fn completion_error_text() -> Seq<u8> {
    seq![
        0x0du8, 0x0a, 0x63, 0x6f, 0x6d, 0x70, 0x6c, 0x65, 0x74, 0x69, 0x6f, 0x6e, 0x20, 0x75, 0x6e,
        0x61, 0x76, 0x61, 0x69, 0x6c, 0x61, 0x62, 0x6c, 0x65, 0x0d, 0x0a,
    ]
}

/// What `move_cursor` appends: `ESC [ <distance> <direction>`, or nothing
/// for a zero distance.
pub open spec fn cursor_move_out(out: Seq<u8>, direction: u8, distance: nat) -> Seq<u8> {
    if distance == 0 {
        out
    } else {
        append_bounded(
            append_bounded(append_bounded(out, seq![0x1bu8, 0x5bu8]), decimal_text(distance)),
            seq![direction],
        )
    }
}

/// The full state of a line editor.
pub struct EditorState {
    pub line: Seq<u8>,
    pub cursor: int,
    pub history: Seq<Seq<u8>>,
    pub history_cursor: int,
    pub escape_state: u8,
    pub escape_param: u8,
    pub escape_modifier: u8,
    pub completion_enabled: bool,
    pub line_revision: u8,
    pub completion_requested: bool,
    pub completion_next_id: u16,
    pub completion_pending_id: Option<u16>,
    pub completion_pending_request: Option<CompletionRequest>,
    pub completion_wait: u8,
    pub completion_active: bool,
    pub replace_start: int,
    pub replace_end: int,
    pub completion_count: int,
    pub lengths: [u8; MAX_COMPLETION_CANDIDATES],
    pub cursor_offsets: [u8; MAX_COMPLETION_CANDIDATES],
    pub candidates: [[u8; MAX_COMPLETION_ITEM_BYTES]; MAX_COMPLETION_CANDIDATES],
    pub selected: int,
}

/// The bounds every editor state keeps.
pub open spec fn editor_wf(s: EditorState) -> bool {
    &&& s.line.len() <= MAX_LINE_BYTES
    &&& 0 <= s.cursor <= s.line.len()
    &&& s.history.len() <= MAX_HISTORY_ENTRIES
    &&& forall|i: int| 0 <= i < s.history.len() ==> (#[trigger] s.history[i]).len() <= MAX_HISTORY_BYTES
    &&& 0 <= s.history_cursor <= s.history.len()
    &&& 0 <= s.completion_count <= MAX_COMPLETION_CANDIDATES
    &&& 0 <= s.selected
    &&& (s.completion_count == 0 ==> s.selected == 0)
    &&& (s.completion_count > 0 ==> s.selected < s.completion_count)
    &&& 0 <= s.replace_start <= usize::MAX
    &&& 0 <= s.replace_end <= usize::MAX
}

pub open spec fn next_revision(revision: u8) -> u8 {
    if revision == 255 {
        0
    } else {
        (revision + 1) as u8
    }
}

/// A new line and cursor, which counts as an edit of the line.
pub open spec fn edit(s: EditorState, line: Seq<u8>, cursor: int) -> EditorState {
    EditorState { line, cursor, line_revision: next_revision(s.line_revision), ..s }
}

pub open spec fn with_cursor(s: EditorState, cursor: int) -> EditorState {
    EditorState { cursor, ..s }
}

// ----- highlighting and redraw -----

/// The position just past the string literal whose body starts at `j`:
/// after its closing quote, or the end of the line.
pub open spec fn string_end(line: Seq<u8>, j: int) -> int
    decreases line.len() - j,
{
    if j < 0 || j >= line.len() {
        line.len() as int
    } else if line[j] == 0x22 {
        j + 1
    } else {
        string_end(line, j + 1)
    }
}

pub proof fn lemma_string_end_bounds(line: Seq<u8>, j: int)
    requires
        0 <= j <= line.len(),
    ensures
        j <= string_end(line, j) <= line.len(),
        j < line.len() ==> j < string_end(line, j),
    decreases line.len() - j,
{
    if j < line.len() && line[j] != 0x22 {
        lemma_string_end_bounds(line, j + 1);
    }
}

/// The line from position `i` on, with each string literal coloured.
pub open spec fn highlight_rest(line: Seq<u8>, i: int) -> Seq<u8>
    decreases line.len() - i,
{
    if i < 0 || i >= line.len() {
        Seq::empty()
    } else if line[i] == 0x22 {
        let e = string_end(line, i + 1);
        proof {
            lemma_string_end_bounds(line, i + 1);
        }
        string_color() + line.subrange(i, e) + reset_color() + highlight_rest(line, e)
    } else {
        seq![line[i]] + highlight_rest(line, i + 1)
    }
}

/// The line with its command name and string literals coloured.
pub open spec fn highlighted(line: Seq<u8>) -> Seq<u8> {
    let command = command_name_length(line);
    (if command == 0 {
        Seq::empty()
    } else {
        command_color() + line.take(command) + reset_color()
    }) + highlight_rest(line, command)
}

/// What highlighting appends: the coloured line when it fits with room to
/// spare for what follows it, else the plain line.
pub open spec fn highlight_out(line: Seq<u8>, out: Seq<u8>) -> Seq<u8> {
    let command = command_name_length(line);
    let extra = syntax_extra(line, command);
    let available = if out.len() + 15 <= MAX_OUTPUT_BYTES {
        MAX_OUTPUT_BYTES - (out.len() + 15)
    } else {
        0
    };
    if line.len() + extra > available {
        append_bounded(out, line)
    } else {
        out + highlighted(line)
    }
}

/// The candidate at `index` of the completion menu, if there is one.
pub open spec fn candidate_at(s: EditorState, index: int) -> Option<Seq<u8>> {
    if index < 0 || index >= s.completion_count || index >= MAX_COMPLETION_CANDIDATES {
        None
    } else if s.lengths@[index] > MAX_COMPLETION_ITEM_BYTES {
        None
    } else {
        Some(s.candidates@[index]@.take(s.lengths@[index] as int))
    }
}

pub open spec fn min_int(a: int, b: int) -> int {
    if a <= b {
        a
    } else {
        b
    }
}

pub open spec fn max_int(a: int, b: int) -> int {
    if a >= b {
        a
    } else {
        b
    }
}

/// The replaced range of the line, clamped to the line.
pub open spec fn replace_range(s: EditorState) -> (int, int) {
    let start = min_int(s.replace_start, s.line.len() as int);
    let end = max_int(min_int(s.replace_end, s.line.len() as int), start);
    (start, end)
}

/// The dimmed rest of the selected candidate after the part already
/// typed, with its width; nothing when the candidate does not extend what
/// is typed.
pub open spec fn ghost_out(s: EditorState, out: Seq<u8>) -> (Seq<u8>, int) {
    match candidate_at(s, s.selected) {
        None => (out, 0),
        Some(candidate) => {
            let (start, end) = replace_range(s);
            let prefix = s.line.subrange(start, end);
            if prefix.len() <= candidate.len() && candidate.take(prefix.len() as int) == prefix {
                let rest = candidate.skip(prefix.len() as int);
                (
                    append_bounded(append_bounded(append_bounded(out, dim_color()), rest), reset_color()),
                    char_count(rest),
                )
            } else {
                (out, 0)
            }
        },
    }
}

/// What redrawing the line appends: return to column 0, the prompt, the
/// highlighted line, the completion ghost, a colour reset, an erase to
/// the end of the line, and a move back to the cursor.
#[verifier::opaque]
pub open spec fn redraw_out(s: EditorState, out: Seq<u8>) -> Seq<u8> {
    let o1 = append_bounded(append_bounded(out, seq![0x0du8]), prompt_text());
    let o2 = highlight_out(s.line, o1);
    let (o3, ghost_width) = ghost_out(s, o2);
    let o4 = append_bounded(append_bounded(o3, reset_color()), erase_to_end());
    cursor_move_out(
        o4,
        0x44,
        (char_count(s.line.subrange(s.cursor, s.line.len() as int)) + ghost_width) as nat,
    )
}

/// An edit of the line followed by a redraw.
pub open spec fn edit_out(s: EditorState, out: Seq<u8>, line: Seq<u8>, cursor: int) -> (EditorState, Seq<u8>) {
    let t = edit(s, line, cursor);
    (t, redraw_out(t, out))
}

// ----- words -----

pub proof fn lemma_previous_start_bounds(bytes: Seq<u8>, i: int)
    ensures
        i >= 0 ==> 0 <= previous_start(bytes, i) <= i,
        i < 0 ==> previous_start(bytes, i) == 0,
    decreases i,
{
    if i > 0 && crate::session::is_continuation(bytes[i]) {
        lemma_previous_start_bounds(bytes, i - 1);
    }
}

pub proof fn lemma_next_start_bounds(bytes: Seq<u8>, i: int, len: int)
    requires
        i <= len,
    ensures
        i <= next_start(bytes, i, len) <= len,
    decreases len - i,
{
    if i < len && crate::session::is_continuation(bytes[i]) {
        lemma_next_start_bounds(bytes, i + 1, len);
    }
}

/// Back over the spaces before position `i`.
pub open spec fn back_spaces(line: Seq<u8>, i: int) -> int
    decreases i,
{
    if i > 0 && line[i - 1] == 0x20 {
        back_spaces(line, i - 1)
    } else {
        i
    }
}

/// Back over the characters before position `i` up to a space.
pub open spec fn back_word(line: Seq<u8>, i: int) -> int
    decreases i,
{
    if i > 0 && line[i - 1] != 0x20 {
        proof {
            lemma_previous_start_bounds(line, i - 1);
        }
        back_word(line, previous_start(line, i - 1))
    } else {
        i
    }
}

/// The start of the word before position `i`.
pub open spec fn word_start(line: Seq<u8>, i: int) -> int {
    back_word(line, back_spaces(line, i))
}

/// Forward over the spaces from position `i`.
pub open spec fn forward_spaces(line: Seq<u8>, i: int) -> int
    decreases line.len() - i,
{
    if 0 <= i < line.len() && line[i] == 0x20 {
        forward_spaces(line, i + 1)
    } else {
        i
    }
}

/// Forward over the characters from position `i` up to a space.
pub open spec fn forward_word(line: Seq<u8>, i: int) -> int
    decreases line.len() - i,
{
    if 0 <= i < line.len() && line[i] != 0x20 {
        proof {
            lemma_next_start_bounds(line, i + 1, line.len() as int);
        }
        forward_word(line, next_start(line, i + 1, line.len() as int))
    } else {
        i
    }
}

/// The end of the word at or after position `i`.
pub open spec fn word_end(line: Seq<u8>, i: int) -> int {
    forward_word(line, forward_spaces(line, i))
}

pub proof fn lemma_word_start_bounds(line: Seq<u8>, i: int)
    requires
        0 <= i <= line.len(),
    ensures
        0 <= word_start(line, i) <= i,
{
    lemma_back_spaces_bounds(line, i);
    lemma_back_word_bounds(line, back_spaces(line, i));
}

proof fn lemma_back_spaces_bounds(line: Seq<u8>, i: int)
    requires
        0 <= i <= line.len(),
    ensures
        0 <= back_spaces(line, i) <= i,
    decreases i,
{
    if i > 0 && line[i - 1] == 0x20 {
        lemma_back_spaces_bounds(line, i - 1);
    }
}

proof fn lemma_back_word_bounds(line: Seq<u8>, i: int)
    requires
        0 <= i <= line.len(),
    ensures
        0 <= back_word(line, i) <= i,
    decreases i,
{
    if i > 0 && line[i - 1] != 0x20 {
        lemma_previous_start_bounds(line, i - 1);
        lemma_back_word_bounds(line, previous_start(line, i - 1));
    }
}

pub proof fn lemma_word_end_bounds(line: Seq<u8>, i: int)
    requires
        0 <= i <= line.len(),
    ensures
        i <= word_end(line, i) <= line.len(),
{
    lemma_forward_spaces_bounds(line, i);
    lemma_forward_word_bounds(line, forward_spaces(line, i));
}

proof fn lemma_forward_spaces_bounds(line: Seq<u8>, i: int)
    requires
        0 <= i <= line.len(),
    ensures
        i <= forward_spaces(line, i) <= line.len(),
    decreases line.len() - i,
{
    if i < line.len() && line[i] == 0x20 {
        lemma_forward_spaces_bounds(line, i + 1);
    }
}

proof fn lemma_forward_word_bounds(line: Seq<u8>, i: int)
    requires
        0 <= i <= line.len(),
    ensures
        i <= forward_word(line, i) <= line.len(),
    decreases line.len() - i,
{
    if i < line.len() && line[i] != 0x20 {
        lemma_next_start_bounds(line, i + 1, line.len() as int);
        lemma_forward_word_bounds(line, next_start(line, i + 1, line.len() as int));
    }
}

proof fn lemma_next_start_skips_continuations(bytes: Seq<u8>, i: int, len: int)
    requires
        0 <= i <= len <= bytes.len(),
    ensures
        forall|j: int| i <= j < next_start(bytes, i, len) ==> #[trigger] bytes[j] != 0x20,
        i <= next_start(bytes, i, len) <= len,
    decreases len - i,
{
    if i < len && crate::session::is_continuation(bytes[i]) {
        lemma_next_start_skips_continuations(bytes, i + 1, len);
    }
}

proof fn lemma_forward_spaces_shape(line: Seq<u8>, i: int)
    requires
        0 <= i <= line.len(),
    ensures
        i <= forward_spaces(line, i) <= line.len(),
        forall|j: int| i <= j < forward_spaces(line, i) ==> #[trigger] line[j] == 0x20,
        forward_spaces(line, i) == line.len() || line[forward_spaces(line, i)] != 0x20,
    decreases line.len() - i,
{
    if i < line.len() && line[i] == 0x20 {
        lemma_forward_spaces_shape(line, i + 1);
    }
}

proof fn lemma_forward_word_shape(line: Seq<u8>, i: int)
    requires
        0 <= i <= line.len(),
    ensures
        i <= forward_word(line, i) <= line.len(),
        forall|j: int| i <= j < forward_word(line, i) ==> #[trigger] line[j] != 0x20,
        forward_word(line, i) == line.len() || line[forward_word(line, i)] == 0x20,
        i < line.len() && line[i] != 0x20 ==> i < forward_word(line, i),
    decreases line.len() - i,
{
    if i < line.len() && line[i] != 0x20 {
        let next = next_start(line, i + 1, line.len() as int);
        lemma_next_start_skips_continuations(line, i + 1, line.len() as int);
        lemma_forward_word_shape(line, next);
    }
}

/// Positions `i` to `k` of `line` hold spaces only, `k` to `e` no
/// space, and `k` is not followed by a further space.
pub open spec fn spaces_then_word(line: Seq<u8>, i: int, k: int, e: int) -> bool {
    &&& i <= k <= e
    &&& forall|j: int| i <= j < k ==> #[trigger] line[j] == 0x20
    &&& forall|j: int| k <= j < e ==> #[trigger] line[j] != 0x20
    &&& k == line.len() || line[k] != 0x20
}

/// Moving to the end of the next word (Ctrl+Right, and what Ctrl+Delete
/// deletes up to): from a position before the end of the line, the move
/// passes every space at the position, then every character of the word
/// that follows, and stops at the next space or at the end of the line.
/// It always moves forward.
pub proof fn lemma_word_end_passes_spaces_then_word(line: Seq<u8>, i: int)
    requires
        0 <= i < line.len(),
    ensures
        i < word_end(line, i) <= line.len(),
        word_end(line, i) == line.len() || line[word_end(line, i)] == 0x20,
        exists|k: int| #[trigger] spaces_then_word(line, i, k, word_end(line, i)),
{
    let k = forward_spaces(line, i);
    lemma_forward_spaces_shape(line, i);
    lemma_forward_word_shape(line, k);
    if k == i {
        assert(line[i] != 0x20);
    }
    assert(spaces_then_word(line, i, k, word_end(line, i)));
}

// ----- editing keys -----

pub open spec fn insert_out(s: EditorState, out: Seq<u8>, bytes: Seq<u8>) -> (EditorState, Seq<u8>) {
    if bytes.len() > MAX_LINE_BYTES - s.line.len() {
        (s, out)
    } else {
        edit_out(s, out, s.line.take(s.cursor) + bytes + s.line.skip(s.cursor), s.cursor + bytes.len())
    }
}

pub open spec fn backspace_out(s: EditorState, out: Seq<u8>) -> (EditorState, Seq<u8>) {
    if s.cursor == 0 {
        (s, out)
    } else {
        let start = previous_start(s.line, s.cursor - 1);
        edit_out(s, out, s.line.take(start) + s.line.skip(s.cursor), start)
    }
}

pub open spec fn delete_forward_out(s: EditorState, out: Seq<u8>) -> (EditorState, Seq<u8>) {
    if s.cursor >= s.line.len() {
        (s, out)
    } else {
        let end = next_start(s.line, s.cursor + 1, s.line.len() as int);
        edit_out(s, out, s.line.take(s.cursor) + s.line.skip(end), s.cursor)
    }
}

pub open spec fn delete_to_end_out(s: EditorState, out: Seq<u8>) -> (EditorState, Seq<u8>) {
    edit_out(s, out, s.line.take(s.cursor), s.cursor)
}

pub open spec fn clear_line_out(s: EditorState, out: Seq<u8>) -> (EditorState, Seq<u8>) {
    edit_out(s, out, Seq::empty(), 0)
}

pub open spec fn delete_word_out(s: EditorState, out: Seq<u8>) -> (EditorState, Seq<u8>) {
    let start = word_start(s.line, s.cursor);
    edit_out(s, out, s.line.take(start) + s.line.skip(s.cursor), start)
}

pub open spec fn delete_word_forward_out(s: EditorState, out: Seq<u8>) -> (EditorState, Seq<u8>) {
    let end = word_end(s.line, s.cursor);
    edit_out(s, out, s.line.take(s.cursor) + s.line.skip(end), s.cursor)
}

/// `ESC [D`
pub open spec fn left_text() -> Seq<u8> {
    seq![0x1bu8, 0x5b, 0x44]
}

/// `ESC [C`
pub open spec fn right_text() -> Seq<u8> {
    seq![0x1bu8, 0x5b, 0x43]
}

pub open spec fn move_left_out(s: EditorState, out: Seq<u8>) -> (EditorState, Seq<u8>) {
    if s.cursor > 0 {
        (with_cursor(s, previous_start(s.line, s.cursor - 1)), append_bounded(out, left_text()))
    } else {
        (s, out)
    }
}

pub open spec fn move_right_out(s: EditorState, out: Seq<u8>) -> (EditorState, Seq<u8>) {
    if s.cursor < s.line.len() {
        (
            with_cursor(s, next_start(s.line, s.cursor + 1, s.line.len() as int)),
            append_bounded(out, right_text()),
        )
    } else {
        (s, out)
    }
}

pub open spec fn move_word_left_out(s: EditorState, out: Seq<u8>) -> (EditorState, Seq<u8>) {
    let start = word_start(s.line, s.cursor);
    (
        with_cursor(s, start),
        cursor_move_out(out, 0x44, char_count(s.line.subrange(start, s.cursor)) as nat),
    )
}

pub open spec fn move_word_right_out(s: EditorState, out: Seq<u8>) -> (EditorState, Seq<u8>) {
    let end = word_end(s.line, s.cursor);
    (
        with_cursor(s, end),
        cursor_move_out(out, 0x43, char_count(s.line.subrange(s.cursor, end)) as nat),
    )
}

pub open spec fn move_home_out(s: EditorState, out: Seq<u8>) -> (EditorState, Seq<u8>) {
    (with_cursor(s, 0), cursor_move_out(out, 0x44, char_count(s.line.take(s.cursor)) as nat))
}

pub open spec fn move_end_out(s: EditorState, out: Seq<u8>) -> (EditorState, Seq<u8>) {
    (
        with_cursor(s, s.line.len() as int),
        cursor_move_out(out, 0x43, char_count(s.line.subrange(s.cursor, s.line.len() as int)) as nat),
    )
}

pub open spec fn clear_screen_out(s: EditorState, out: Seq<u8>) -> (EditorState, Seq<u8>) {
    (s, redraw_out(s, append_bounded(out, clear_screen_text())))
}

// ----- history -----

/// The history after a committed line: the line, cut to an entry's
/// capacity, joins the end, and the oldest entry leaves when it is full.
pub open spec fn record_history(s: EditorState, line: Seq<u8>) -> EditorState {
    if line.len() == 0 {
        s
    } else {
        let entry = line.take(min_int(line.len() as int, MAX_HISTORY_BYTES as int));
        let history = if s.history.len() >= MAX_HISTORY_ENTRIES {
            s.history.drop_first().push(entry)
        } else {
            s.history.push(entry)
        };
        EditorState { history, history_cursor: history.len() as int, ..s }
    }
}

/// Up (`previous`) or down through the history; past the newest entry
/// the line is empty.
pub open spec fn recall_history_out(s: EditorState, out: Seq<u8>, previous: bool) -> (EditorState, Seq<u8>) {
    if s.history.len() == 0 {
        (s, out)
    } else {
        let position = if previous {
            if s.history_cursor > 0 {
                s.history_cursor - 1
            } else {
                0
            }
        } else if s.history_cursor < s.history.len() {
            s.history_cursor + 1
        } else {
            s.history_cursor
        };
        let moved = EditorState { history_cursor: position, ..s };
        if position < s.history.len() {
            edit_out(moved, out, s.history[position], s.history[position].len() as int)
        } else {
            edit_out(moved, out, Seq::empty(), 0)
        }
    }
}

// ----- completion -----

pub open spec fn clear_completion(s: EditorState) -> EditorState {
    EditorState {
        completion_requested: false,
        completion_pending_id: None,
        completion_pending_request: None,
        completion_wait: 0,
        completion_active: false,
        completion_count: 0,
        selected: 0,
        ..s
    }
}

/// Ask for completions of the current line, when the provider is enabled
/// and no request is outstanding.
pub open spec fn request_completion(s: EditorState) -> EditorState {
    if s.completion_enabled && s.completion_pending_id is None {
        EditorState { completion_requested: true, ..s }
    } else {
        s
    }
}

pub open spec fn dismiss_out(s: EditorState, out: Seq<u8>) -> (EditorState, Seq<u8>) {
    let t = clear_completion(s);
    if s.completion_active {
        (t, redraw_out(t, out))
    } else {
        (t, out)
    }
}

/// Move the selection up (`up`) or down the menu, wrapping around.
pub open spec fn select_out(s: EditorState, out: Seq<u8>, up: bool) -> (EditorState, Seq<u8>) {
    if s.completion_count == 0 {
        (s, out)
    } else {
        let selected = if up {
            if s.selected == 0 {
                s.completion_count - 1
            } else {
                s.selected - 1
            }
        } else {
            (s.selected + 1) % s.completion_count
        };
        let t = EditorState { selected, ..s };
        (t, redraw_out(t, out))
    }
}

/// Replace the completed range by the selected candidate and put the
/// cursor where the candidate asks; nothing when the result would not fit.
pub open spec fn accept_out(s: EditorState, out: Seq<u8>) -> (EditorState, Seq<u8>) {
    match candidate_at(s, s.selected) {
        None => (s, out),
        Some(candidate) => {
            let (start, end) = replace_range(s);
            let length = start + candidate.len() + (s.line.len() - end);
            if length > MAX_LINE_BYTES {
                (s, out)
            } else {
                let cursor = start + min_int(
                    s.cursor_offsets@[s.selected] as int,
                    candidate.len() as int,
                );
                let t = clear_completion(
                    edit(s, s.line.take(start) + candidate + s.line.skip(end), cursor),
                );
                (t, redraw_out(t, out))
            }
        },
    }
}

/// Switch the provider off and report it once.
pub open spec fn completion_failed_out(s: EditorState, out: Seq<u8>) -> (EditorState, Seq<u8>) {
    let t = clear_completion(EditorState { completion_enabled: false, ..s });
    let o = if s.completion_active {
        redraw_out(t, out)
    } else {
        out
    };
    (t, redraw_out(t, append_bounded(o, completion_error_text())))
}

pub open spec fn completion_tick_out(s: EditorState, out: Seq<u8>) -> (EditorState, Seq<u8>) {
    if s.completion_pending_id is None {
        (s, out)
    } else {
        let wait = if s.completion_wait == 255 {
            255u8
        } else {
            (s.completion_wait + 1) as u8
        };
        let t = EditorState { completion_wait: wait, ..s };
        if wait >= COMPLETION_TIMEOUT_TICKS {
            completion_failed_out(t, out)
        } else {
            (t, out)
        }
    }
}

/// What a provider's answer does: ignored unless it answers the pending
/// request; a malformed answer disables completion; candidates open the
/// menu; no match closes it.
pub open spec fn apply_response_out(s: EditorState, out: Seq<u8>, response: CompletionResponse) -> (EditorState, Seq<u8>) {
    match s.completion_pending_request {
        None => (s, out),
        Some(request) => {
            if s.completion_pending_id != Some(response.request_id) {
                (s, out)
            } else if !response_valid_for(response, request) {
                completion_failed_out(s, out)
            } else {
                let settled = EditorState {
                    completion_pending_id: None,
                    completion_pending_request: None,
                    completion_wait: 0,
                    ..s
                };
                match response.status {
                    CompletionStatus::Found => {
                        if response.candidate_count != 0 {
                            let t = EditorState {
                                replace_start: response.replace_start as int,
                                replace_end: response.replace_end as int,
                                completion_count: response.candidate_count as int,
                                lengths: response.lengths,
                                cursor_offsets: response.cursor_offsets,
                                candidates: response.candidates,
                                selected: 0,
                                completion_active: true,
                                ..settled
                            };
                            (t, redraw_out(t, out))
                        } else {
                            (settled, out)
                        }
                    },
                    CompletionStatus::NoMatch => dismiss_out(settled, out),
                    _ => completion_failed_out(
                        EditorState { completion_enabled: false, ..settled },
                        out,
                    ),
                }
            }
        },
    }
}

/// The identifier that follows `id`, skipping 0.
pub open spec fn next_request_id(id: u16) -> u16 {
    if id == 65535 {
        1
    } else {
        (id + 1) as u16
    }
}

/// `request` asks for completions of the line of `s` under `id`.
pub open spec fn request_describes(request: CompletionRequest, s: EditorState, id: u16) -> bool {
    &&& request.request_id == id
    &&& request.line_revision == s.line_revision
    &&& request.cursor == s.cursor
    &&& request.line_len == s.line.len()
    &&& request.line_view() == s.line
}

// ----- escape sequences -----

pub open spec fn is_digit(byte: u8) -> bool {
    0x30 <= byte <= 0x39
}

/// `value * 10 + digit`, saturating at 255 after each step.
pub open spec fn saturating_digit(value: u8, digit: u8) -> u8 {
    let product = if value * 10 > 255 {
        255
    } else {
        value * 10
    };
    if product + (digit - 0x30) > 255 {
        255u8
    } else {
        (product + (digit - 0x30)) as u8
    }
}

pub open spec fn with_escape(s: EditorState, escape_state: u8) -> EditorState {
    EditorState { escape_state, ..s }
}

/// Run a key's effect, then leave the escape sequence.
pub open spec fn finish_escape(r: (EditorState, Seq<u8>)) -> (EditorState, Seq<u8>) {
    (with_escape(r.0, 0), r.1)
}

/// One byte of an escape sequence: `ESC [` then a final letter, or
/// parameters, `;` and a modifier before `~`, `C` or `D`.
#[verifier::opaque]
pub open spec fn escape_out(s: EditorState, out: Seq<u8>, byte: u8) -> (EditorState, Seq<u8>) {
    if s.escape_state == 1 {
        (with_escape(s, if byte == 0x5b { 2 } else { 0 }), out)
    } else if s.escape_state == 2 {
        if byte == 0x41 {
            finish_escape(recall_history_out(s, out, true))
        } else if byte == 0x42 {
            finish_escape(recall_history_out(s, out, false))
        } else if byte == 0x43 {
            finish_escape(move_right_out(s, out))
        } else if byte == 0x44 {
            finish_escape(move_left_out(s, out))
        } else if byte == 0x48 {
            finish_escape(move_home_out(s, out))
        } else if byte == 0x46 {
            finish_escape(move_end_out(s, out))
        } else if is_digit(byte) {
            (EditorState { escape_param: (byte - 0x30) as u8, escape_state: 3, ..s }, out)
        } else {
            (with_escape(s, 0), out)
        }
    } else if s.escape_state == 3 {
        if is_digit(byte) {
            (EditorState { escape_param: saturating_digit(s.escape_param, byte), ..s }, out)
        } else if byte == 0x3b {
            (EditorState { escape_modifier: 0, escape_state: 4, ..s }, out)
        } else if byte == 0x7e {
            if s.escape_param == 3 {
                finish_escape(delete_forward_out(s, out))
            } else {
                (with_escape(s, 0), out)
            }
        } else {
            (with_escape(s, 0), out)
        }
    } else if s.escape_state == 4 {
        if is_digit(byte) {
            (EditorState { escape_modifier: saturating_digit(s.escape_modifier, byte), ..s }, out)
        } else if byte == 0x43 && s.escape_param == 1 && s.escape_modifier == 5 {
            finish_escape(move_word_right_out(s, out))
        } else if byte == 0x44 && s.escape_param == 1 && s.escape_modifier == 5 {
            finish_escape(move_word_left_out(s, out))
        } else if byte == 0x7e && s.escape_param == 3 && s.escape_modifier == 5 {
            finish_escape(delete_word_forward_out(s, out))
        } else {
            (with_escape(s, 0), out)
        }
    } else {
        (with_escape(s, 0), out)
    }
}

// ----- one input byte -----

/// A request for completions follows every change of the line.
pub open spec fn after_change(s: EditorState, revision: u8) -> EditorState {
    if s.line_revision != revision {
        request_completion(s)
    } else {
        s
    }
}

/// A single control or text byte outside an escape sequence.
#[verifier::opaque]
pub open spec fn control_out(s: EditorState, out: Seq<u8>, byte: u8) -> (EditorState, Seq<u8>) {
    if byte == 0x1b {
        (with_escape(s, 1), out)
    } else if byte == 0x01 {
        move_home_out(s, out)
    } else if byte == 0x05 {
        move_end_out(s, out)
    } else if byte == 0x0b {
        delete_to_end_out(s, out)
    } else if byte == 0x0c {
        clear_screen_out(s, out)
    } else if byte == 0x15 {
        clear_line_out(s, out)
    } else if byte == 0x17 {
        delete_word_out(s, out)
    } else if byte == 0x09 {
        (request_completion(s), out)
    } else if byte == 0x08 || byte == 0x7f {
        backspace_out(s, out)
    } else if (0x20 <= byte <= 0x7e) || byte >= 0x80 {
        insert_out(s, out, seq![byte])
    } else {
        (s, out)
    }
}

/// Enter: the line goes to history and out as the command, and a new
/// empty line starts.
pub open spec fn commit_out(s: EditorState, out: Seq<u8>) -> (EditorState, Seq<u8>) {
    let recorded = record_history(s, s.line);
    (clear_completion(edit(recorded, Seq::empty(), 0)), append_bounded(out, newline_text()))
}

/// What one step consumes and produces.
pub struct Step {
    pub state: EditorState,
    pub out: Seq<u8>,
    pub consumed: int,
    pub command: Option<Seq<u8>>,
}

pub open spec fn plain_step(r: (EditorState, Seq<u8>), consumed: int) -> Step {
    Step { state: r.0, out: r.1, consumed, command: None }
}

/// The byte at the head of `rest` once any completion menu is settled.
#[verifier::opaque]
pub open spec fn byte_step(s: EditorState, out: Seq<u8>, rest: Seq<u8>) -> Step {
    let byte = rest[0];
    let revision = s.line_revision;
    if s.escape_state != 0 {
        let (t, o) = escape_out(s, out, byte);
        plain_step((after_change(t, revision), o), 1)
    } else {
        let width = if byte >= 0x80 {
            sequence_width(rest)
        } else {
            1
        };
        if width > 1 {
            let (t, o) = insert_out(s, out, rest.take(width));
            plain_step((request_completion(t), o), width)
        } else if byte == 0x0d || byte == 0x0a {
            let (t, o) = commit_out(s, out);
            Step { state: t, out: o, consumed: 1, command: Some(s.line) }
        } else {
            let (t, o) = control_out(s, out, byte);
            plain_step((after_change(t, revision), o), 1)
        }
    }
}

pub open spec fn starts_with_arrow(rest: Seq<u8>, letter: u8) -> bool {
    rest.len() >= 3 && rest[0] == 0x1b && rest[1] == 0x5b && rest[2] == letter
}

/// The byte, or arrow sequence, at the head of `rest`.
#[verifier::opaque]
pub open spec fn step(s: EditorState, out: Seq<u8>, rest: Seq<u8>) -> Step {
    let byte = rest[0];
    if s.completion_active {
        if starts_with_arrow(rest, 0x41) {
            plain_step(select_out(s, out, true), 3)
        } else if starts_with_arrow(rest, 0x42) {
            plain_step(select_out(s, out, false), 3)
        } else if byte == 0x09 {
            let (t, o) = accept_out(s, out);
            plain_step((request_completion(t), o), 1)
        } else if byte == 0x1b {
            plain_step(dismiss_out(s, out), 1)
        } else {
            let (t, o) = dismiss_out(s, out);
            byte_step(t, o, rest)
        }
    } else if s.completion_pending_id is Some && byte != 0x09 {
        byte_step(clear_completion(s), out, rest)
    } else {
        byte_step(s, out, rest)
    }
}

pub proof fn lemma_sequence_width_bounds(rest: Seq<u8>)
    requires
        rest.len() > 0,
    ensures
        1 <= sequence_width(rest) <= rest.len(),
{
}

pub proof fn lemma_step_consumes(s: EditorState, out: Seq<u8>, rest: Seq<u8>)
    requires
        rest.len() > 0,
    ensures
        1 <= step(s, out, rest).consumed <= rest.len(),
        step(s, out, rest).command matches Some(line) ==> line == s.line,
{
    reveal(step);
    reveal(byte_step);
    lemma_sequence_width_bounds(rest);
}

/// Feeding `bytes` from position `i`: the state, the output and the
/// committed command once Enter arrives, or the end of the input.
pub open spec fn feed(s: EditorState, out: Seq<u8>, bytes: Seq<u8>, i: int) -> (EditorState, Seq<u8>, Option<Seq<u8>>)
    decreases bytes.len() - i,
{
    if i < 0 || i >= bytes.len() {
        (s, out, None)
    } else {
        let r = step(s, out, bytes.skip(i));
        proof {
            lemma_step_consumes(s, out, bytes.skip(i));
        }
        match r.command {
            Some(command) => (r.state, r.out, Some(command)),
            None => feed(r.state, r.out, bytes, i + r.consumed),
        }
    }
}


/// What taking the pending completion request does: nothing is sent
/// unless one was asked for and the provider is enabled; otherwise the
/// request describes the current line under the next identifier, and it
/// becomes the pending one.
pub open spec fn take_request_result(s: EditorState, t: EditorState, r: Option<CompletionRequest>) -> bool {
    if !s.completion_requested || !s.completion_enabled {
        &&& t == EditorState { completion_requested: false, ..s }
        &&& r is None
    } else {
        let id = s.completion_next_id;
        &&& r is Some
        &&& request_describes(r.unwrap(), s, id)
        &&& t == EditorState {
            completion_requested: false,
            completion_next_id: next_request_id(id),
            completion_pending_id: Some(id),
            completion_pending_request: r,
            completion_wait: 0,
            ..s
        }
    }
}

/// A fresh editor with an empty line and history.
pub open spec fn initial_state(s: EditorState, completion_enabled: bool) -> bool {
    &&& s.line == Seq::<u8>::empty()
    &&& s.cursor == 0
    &&& s.history == Seq::<Seq<u8>>::empty()
    &&& s.history_cursor == 0
    &&& s.escape_state == 0
    &&& s.escape_param == 0
    &&& s.escape_modifier == 0
    &&& s.completion_enabled == completion_enabled
    &&& s.line_revision == 0
    &&& !s.completion_requested
    &&& s.completion_next_id == 1
    &&& s.completion_pending_id is None
    &&& s.completion_pending_request is None
    &&& s.completion_wait == 0
    &&& !s.completion_active
    &&& s.replace_start == 0
    &&& s.replace_end == 0
    &&& s.completion_count == 0
    &&& s.selected == 0
}


// ----- laws -----

/// Plain typing: no escape sequence or completion menu in progress, and
/// the cursor at the end of the line.
pub open spec fn plain_typing(s: EditorState) -> bool {
    &&& s.escape_state == 0
    &&& !s.completion_active
    &&& s.completion_pending_id is None
    &&& s.cursor == s.line.len()
}

pub open spec fn printable(text: Seq<u8>) -> bool {
    forall|i: int| 0 <= i < text.len() ==> 0x20 <= #[trigger] text[i] <= 0x7e
}

proof fn lemma_typing_from(s: EditorState, out: Seq<u8>, text: Seq<u8>, i: int, typed: Seq<u8>)
    requires
        plain_typing(s),
        printable(text),
        0 <= i <= text.len(),
        s.line == typed + text.take(i),
        typed.len() + text.len() <= MAX_LINE_BYTES,
    ensures
        feed(s, out, text.push(0x0d), i).2 == Some(typed + text),
    decreases text.len() - i,
{
    reveal(step);
    reveal(byte_step);
    reveal(control_out);
    let bytes = text.push(0x0d);
    let rest = bytes.skip(i);
    lemma_step_consumes(s, out, rest);
    if i == text.len() {
        assert(rest[0] == 0x0d);
        assert(text.take(i) =~= text);
    } else {
        let byte = text[i];
        assert(rest[0] == byte);
        assert(0x20 <= byte <= 0x7e);
        let r = step(s, out, rest);
        let inserted = edit(s, s.line.take(s.cursor) + seq![byte] + s.line.skip(s.cursor), s.cursor + 1);
        assert(s.line.take(s.cursor) =~= s.line);
        assert(s.line.skip(s.cursor) =~= Seq::<u8>::empty());
        assert(inserted.line =~= typed + text.take(i + 1));
        assert(r.state == request_completion(inserted));
        assert(r.consumed == 1);
        lemma_typing_from(r.state, r.out, text, i + 1, typed);
    }
}

/// Printable text typed at the end of the line, then Enter, hands on the
/// line followed by that text, when the result fits in a line.
pub proof fn lemma_typed_text_is_committed(s: EditorState, out: Seq<u8>, text: Seq<u8>)
    requires
        plain_typing(s),
        printable(text),
        s.line.len() + text.len() <= MAX_LINE_BYTES,
    ensures
        feed(s, out, text.push(0x0d), 0).2 == Some(s.line + text),
{
    assert(s.line + text.take(0) =~= s.line);
    lemma_typing_from(s, out, text, 0, s.line);
}

/// Completion is off and nothing has been asked of it.
pub open spec fn completion_off(s: EditorState) -> bool {
    !s.completion_enabled && !s.completion_requested
}

proof fn lemma_escape_keeps_off(s: EditorState, out: Seq<u8>, byte: u8)
    requires
        completion_off(s),
    ensures
        completion_off(escape_out(s, out, byte).0),
{
    reveal(escape_out);
}

proof fn lemma_step_keeps_off(s: EditorState, out: Seq<u8>, rest: Seq<u8>)
    requires
        completion_off(s),
        rest.len() > 0,
    ensures
        completion_off(step(s, out, rest).state),
{
    reveal(step);
    reveal(byte_step);
    reveal(control_out);
    let byte = rest[0];
    lemma_escape_keeps_off(s, out, byte);
    lemma_escape_keeps_off(clear_completion(s), out, byte);
    let dismissed = dismiss_out(s, out);
    lemma_escape_keeps_off(dismissed.0, dismissed.1, byte);
}

/// Once completion is off with nothing asked of it, no input turns it
/// back on or asks for completions.
pub proof fn lemma_completion_stays_off(s: EditorState, out: Seq<u8>, bytes: Seq<u8>, i: int)
    requires
        completion_off(s),
    ensures
        completion_off(feed(s, out, bytes, i).0),
    decreases bytes.len() - i,
{
    if 0 <= i < bytes.len() {
        let r = step(s, out, bytes.skip(i));
        lemma_step_consumes(s, out, bytes.skip(i));
        lemma_step_keeps_off(s, out, bytes.skip(i));
        if r.command is None {
            lemma_completion_stays_off(r.state, r.out, bytes, i + r.consumed);
        }
    }
}

/// A failed provider is switched off and asked nothing more.
pub proof fn lemma_failure_switches_completion_off(s: EditorState, out: Seq<u8>)
    ensures
        completion_off(completion_failed_out(s, out).0),
{
}

} // verus!
