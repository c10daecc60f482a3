//! The session's bounded line editor: it edits one line with cursor keys,
//! history and completion, and hands the line on when Enter is pressed.

use vstd::prelude::*;
use crate::session::{
    ShellOutput, append_bounded, char_count, command_name_length, command_name_len, name_run,
    string_count, syntax_extra, syntax_extra_bytes, display_width, move_cursor,
    previous_boundary, next_boundary, utf8_sequence_width,
    MAX_LINE_BYTES, MAX_OUTPUT_BYTES,
};
use crate::completion::{
    CompletionRequest, CompletionResponse, CompletionStatus, MAX_COMPLETION_CANDIDATES,
    MAX_COMPLETION_ITEM_BYTES,
};
use crate::editor_model::{
    prompt_text, command_color, string_color, reset_color, dim_color, completion_error_text,
    highlighted, highlight_rest, highlight_out, string_end, lemma_string_end_bounds,
    EditorState, editor_wf, candidate_at, ghost_out, redraw_out, replace_range, edit, with_cursor,
    word_start, word_end, back_spaces, back_word, forward_spaces, forward_word,
    lemma_previous_start_bounds, lemma_next_start_bounds, insert_out, backspace_out,
    delete_forward_out, delete_to_end_out, clear_line_out, delete_word_out,
    delete_word_forward_out, move_left_out, move_right_out, move_word_left_out,
    move_word_right_out, move_home_out, move_end_out, clear_screen_out, record_history,
    recall_history_out, escape_out, with_escape, is_digit, saturating_digit, min_int,
    MAX_HISTORY_ENTRIES, MAX_HISTORY_BYTES, clear_completion, request_completion, dismiss_out,
    select_out, accept_out, completion_failed_out, completion_tick_out, apply_response_out,
    take_request_result, COMPLETION_TIMEOUT_TICKS, initial_state, control_out, commit_out,
    byte_step, step, feed, lemma_sequence_width_bounds, lemma_step_consumes,
};
use crate::aml::slice_range;

verus! {

pub fn prompt_bytes() -> (r: [u8; 26])
    ensures
        r@ == prompt_text(),
{
    [
        0x1b, 0x5b, 0x33, 0x36, 0x6d, 0x6c, 0x6f, 0x67, 0x6f, 0x73, 0x1b, 0x5b, 0x30, 0x6d, 0x20,
        0x1b, 0x5b, 0x33, 0x33, 0x6d, 0x3e, 0x1b, 0x5b, 0x30, 0x6d, 0x20,
    ]
}

fn command_color_bytes() -> (r: [u8; 5])
    ensures
        r@ == command_color(),
{
    [0x1b, 0x5b, 0x33, 0x36, 0x6d]
}

fn string_color_bytes() -> (r: [u8; 5])
    ensures
        r@ == string_color(),
{
    [0x1b, 0x5b, 0x33, 0x32, 0x6d]
}

fn reset_color_bytes() -> (r: [u8; 4])
    ensures
        r@ == reset_color(),
{
    [0x1b, 0x5b, 0x30, 0x6d]
}

fn dim_color_bytes() -> (r: [u8; 4])
    ensures
        r@ == dim_color(),
{
    [0x1b, 0x5b, 0x32, 0x6d]
}

fn completion_error_bytes() -> (r: [u8; 26])
    ensures
        r@ == completion_error_text(),
{
    [
        0x0d, 0x0a, 0x63, 0x6f, 0x6d, 0x70, 0x6c, 0x65, 0x74, 0x69, 0x6f, 0x6e, 0x20, 0x75, 0x6e,
        0x61, 0x76, 0x61, 0x69, 0x6c, 0x61, 0x62, 0x6c, 0x65, 0x0d, 0x0a,
    ]
}

/// `line` with the bytes from `start` to `end` replaced by `middle`.
pub fn splice(line: &[u8], start: usize, end: usize, middle: &[u8]) -> (r: Vec<u8>)
    requires
        start <= end <= line@.len(),
    ensures
        r@ == line@.take(start as int) + middle@ + line@.skip(end as int),
{
    let mut out: Vec<u8> = Vec::new();
    let mut i: usize = 0;
    while i < start
        invariant
            i <= start <= end <= line@.len(),
            out@ == line@.take(i as int),
        decreases start - i,
    {
        out.push(line[i]);
        i += 1;
        assert(out@ =~= line@.take(i as int));
    }
    let mut j: usize = 0;
    while j < middle.len()
        invariant
            start <= end <= line@.len(),
            j <= middle@.len(),
            out@ == line@.take(start as int) + middle@.take(j as int),
        decreases middle@.len() - j,
    {
        out.push(middle[j]);
        j += 1;
        assert(out@ =~= line@.take(start as int) + middle@.take(j as int));
    }
    assert(middle@.take(middle@.len() as int) =~= middle@);
    let mut k: usize = end;
    while k < line.len()
        invariant
            start <= end <= k <= line@.len(),
            out@ == line@.take(start as int) + middle@ + line@.subrange(end as int, k as int),
        decreases line@.len() - k,
    {
        out.push(line[k]);
        k += 1;
        assert(out@ =~= line@.take(start as int) + middle@ + line@.subrange(end as int, k as int));
    }
    assert(line@.subrange(end as int, line@.len() as int) =~= line@.skip(end as int));
    out
}

pub proof fn lemma_char_count_le(bytes: Seq<u8>)
    ensures
        0 <= char_count(bytes) <= bytes.len(),
    decreases bytes.len(),
{
    if bytes.len() > 0 {
        lemma_char_count_le(bytes.drop_last());
    }
}

proof fn lemma_append_fits(out: Seq<u8>, s: Seq<u8>)
    requires
        out.len() + s.len() <= MAX_OUTPUT_BYTES,
    ensures
        append_bounded(out, s) == out + s,
{
}

proof fn lemma_name_run_bounds(bytes: Seq<u8>, i: int)
    requires
        0 <= i,
    ensures
        name_run(bytes, i) <= bytes.len(),
        i <= bytes.len() ==> i <= name_run(bytes, i),
    decreases bytes.len() - i,
{
    if i < bytes.len() && crate::session::is_name_byte(bytes[i]) {
        lemma_name_run_bounds(bytes, i + 1);
    }
}

proof fn lemma_command_name_bounds(bytes: Seq<u8>)
    ensures
        0 <= command_name_length(bytes) <= bytes.len(),
{
    if bytes.len() > 0 && crate::session::is_name_start(bytes[0]) {
        lemma_name_run_bounds(bytes, 0);
    }
}

proof fn lemma_string_count_in_string(line: Seq<u8>, j: int)
    requires
        0 <= j <= line.len(),
    ensures
        string_count(line, j, true) == string_count(line, string_end(line, j), false),
    decreases line.len() - j,
{
    if j < line.len() && line[j] != 0x22 {
        lemma_string_count_in_string(line, j + 1);
    }
}

proof fn lemma_highlight_rest_len(line: Seq<u8>, i: int)
    requires
        0 <= i <= line.len(),
    ensures
        highlight_rest(line, i).len() == (line.len() - i) + 9 * string_count(line, i, false),
    decreases line.len() - i,
{
    if i < line.len() {
        if line[i] == 0x22 {
            let e = string_end(line, i + 1);
            lemma_string_end_bounds(line, i + 1);
            lemma_string_count_in_string(line, i + 1);
            lemma_highlight_rest_len(line, e);
        } else {
            lemma_highlight_rest_len(line, i + 1);
        }
    }
}

proof fn lemma_highlighted_len(line: Seq<u8>)
    ensures
        highlighted(line).len() == line.len() + syntax_extra(line, command_name_length(line)),
{
    lemma_command_name_bounds(line);
    lemma_highlight_rest_len(line, command_name_length(line));
}

/// Append the line, its command name and string literals coloured when
/// the colours fit.
fn highlight_line(line: &[u8], output: &mut ShellOutput)
    requires
        old(output).wf(),
        line@.len() <= MAX_LINE_BYTES,
    ensures
        final(output).wf(),
        final(output)@ == highlight_out(line@, old(output)@),
{
    let command_len = command_name_len(line);
    let extra = syntax_extra_bytes(line, command_len);
    let reserve: usize = 15;
    let available = if output.len() + reserve <= MAX_OUTPUT_BYTES {
        MAX_OUTPUT_BYTES - (output.len() + reserve)
    } else {
        0
    };
    if extra > available || line.len() > available - extra {
        output.extend(line);
        return;
    }
    let ghost start = output@;
    let ghost whole = start + highlighted(line@);
    proof {
        lemma_highlighted_len(line@);
        lemma_command_name_bounds(line@);
    }
    let mut index: usize = 0;
    if command_len != 0 {
        let name = slice_range(line, 0, command_len);
        proof {
            lemma_append_fits(output@, command_color());
            lemma_append_fits(output@ + command_color(), line@.take(command_len as int));
            lemma_append_fits(
                output@ + command_color() + line@.take(command_len as int),
                reset_color(),
            );
            assert(line@.subrange(0, command_len as int) =~= line@.take(command_len as int));
        }
        output.extend(&command_color_bytes());
        output.extend(name.as_slice());
        output.extend(&reset_color_bytes());
        index = command_len;
        assert(whole =~= output@ + highlight_rest(line@, index as int));
    } else {
        assert(whole =~= output@ + highlight_rest(line@, index as int));
    }
    while index < line.len()
        invariant
            line@.len() <= MAX_LINE_BYTES,
            index <= line@.len(),
            output.wf(),
            whole.len() <= MAX_OUTPUT_BYTES,
            output@ + highlight_rest(line@, index as int) == whole,
        decreases line@.len() - index,
    {
        if line[index] == 0x22 {
            let first = index;
            index += 1;
            let mut closed = false;
            while index < line.len() && !closed
                invariant
                    first < index <= line@.len(),
                    line@[first as int] == 0x22,
                    !closed ==> string_end(line@, first + 1) == string_end(line@, index as int),
                    closed ==> string_end(line@, first + 1) == index,
                decreases line@.len() - index,
            {
                closed = line[index] == 0x22;
                index += 1;
            }
            let body = slice_range(line, first, index);
            let ghost rest = highlight_rest(line@, index as int);
            proof {
                lemma_string_end_bounds(line@, first + 1);
                assert(highlight_rest(line@, first as int) == string_color() + line@.subrange(
                    first as int,
                    index as int,
                ) + reset_color() + rest);
                lemma_append_fits(output@, string_color());
                lemma_append_fits(output@ + string_color(), body@);
                lemma_append_fits(output@ + string_color() + body@, reset_color());
            }
            output.extend(&string_color_bytes());
            output.extend(body.as_slice());
            output.extend(&reset_color_bytes());
            assert(output@ + rest =~= whole);
        } else {
            let ghost rest = highlight_rest(line@, index as int + 1);
            proof {
                assert(highlight_rest(line@, index as int) == seq![line@[index as int]] + rest);
                lemma_append_fits(output@, seq![line@[index as int]]);
            }
            output.push(line[index]);
            index += 1;
            assert(output@ + rest =~= whole);
        }
    }
    assert(highlight_rest(line@, index as int) =~= Seq::<u8>::empty());
    assert(output@ =~= whole);
}


/// A line editor with history and completion.
pub struct LineEditor {
    line: Vec<u8>,
    cursor: usize,
    history: Vec<Vec<u8>>,
    history_cursor: usize,
    escape_state: u8,
    escape_param: u8,
    escape_modifier: u8,
    completion_enabled: bool,
    line_revision: u8,
    completion_requested: bool,
    completion_next_id: u16,
    completion_pending_id: Option<u16>,
    completion_pending_request: Option<CompletionRequest>,
    completion_wait: u8,
    completion_active: bool,
    completion_replace_start: usize,
    completion_replace_end: usize,
    completion_count: usize,
    completion_lengths: [u8; MAX_COMPLETION_CANDIDATES],
    completion_cursor_offsets: [u8; MAX_COMPLETION_CANDIDATES],
    completion_candidates: [[u8; MAX_COMPLETION_ITEM_BYTES]; MAX_COMPLETION_CANDIDATES],
    completion_selected: usize,
}

impl LineEditor {
    pub closed spec fn view(&self) -> EditorState {
        EditorState {
            line: self.line@,
            cursor: self.cursor as int,
            history: self.history@.map_values(|entry: Vec<u8>| entry@),
            history_cursor: self.history_cursor as int,
            escape_state: self.escape_state,
            escape_param: self.escape_param,
            escape_modifier: self.escape_modifier,
            completion_enabled: self.completion_enabled,
            line_revision: self.line_revision,
            completion_requested: self.completion_requested,
            completion_next_id: self.completion_next_id,
            completion_pending_id: self.completion_pending_id,
            completion_pending_request: self.completion_pending_request,
            completion_wait: self.completion_wait,
            completion_active: self.completion_active,
            replace_start: self.completion_replace_start as int,
            replace_end: self.completion_replace_end as int,
            completion_count: self.completion_count as int,
            lengths: self.completion_lengths,
            cursor_offsets: self.completion_cursor_offsets,
            candidates: self.completion_candidates,
            selected: self.completion_selected as int,
        }
    }

    pub open spec fn wf(&self) -> bool {
        editor_wf(self@)
    }

    /// The candidate at `index` of the menu.
    fn completion_candidate(&self, index: usize) -> (r: Option<Vec<u8>>)
        ensures
            match candidate_at(self@, index as int) {
                None => r is None,
                Some(candidate) => r is Some && r.unwrap()@ == candidate,
            },
    {
        if index >= self.completion_count || index >= MAX_COMPLETION_CANDIDATES {
            return None;
        }
        let length = self.completion_lengths[index] as usize;
        if length > MAX_COMPLETION_ITEM_BYTES {
            return None;
        }
        let item = self.completion_candidates[index];
        let mut out: Vec<u8> = Vec::new();
        let mut i: usize = 0;
        while i < length
            invariant
                length <= MAX_COMPLETION_ITEM_BYTES,
                item@.len() == MAX_COMPLETION_ITEM_BYTES,
                i <= length,
                out@ == item@.take(i as int),
            decreases length - i,
        {
            out.push(item[i]);
            i += 1;
            assert(out@ =~= item@.take(i as int));
        }
        Some(out)
    }

    /// Append the dimmed rest of the selected candidate; its width.
    fn append_completion_ghost(&self, output: &mut ShellOutput) -> (r: usize)
        requires
            old(output).wf(),
            self.wf(),
        ensures
            final(output).wf(),
            (final(output)@, r as int) == ghost_out(self@, old(output)@),
            r <= MAX_COMPLETION_ITEM_BYTES,
    {
        let candidate = match self.completion_candidate(self.completion_selected) {
            None => {
                return 0;
            },
            Some(candidate) => candidate,
        };
        let length = self.line.len();
        let start = if self.completion_replace_start < length {
            self.completion_replace_start
        } else {
            length
        };
        let clamped = if self.completion_replace_end < length {
            self.completion_replace_end
        } else {
            length
        };
        let end = if clamped > start {
            clamped
        } else {
            start
        };
        let prefix_len = end - start;
        let ghost prefix = self.line@.subrange(start as int, end as int);
        if prefix_len > candidate.len() {
            return 0;
        }
        let mut i: usize = 0;
        while i < prefix_len
            invariant
                start <= end <= self.line@.len(),
                prefix_len == end - start,
                prefix_len <= candidate@.len(),
                i <= prefix_len,
                prefix == self.line@.subrange(start as int, end as int),
                candidate@.take(i as int) == prefix.take(i as int),
                output@ == old(output)@,
                output.wf(),
                candidate_at(self@, self.completion_selected as int) == Some(candidate@),
                replace_range(self@) == (start as int, end as int),
            decreases prefix_len - i,
        {
            if candidate[i] != self.line[start + i] {
                assert(candidate@.take(prefix_len as int)[i as int] != prefix[i as int]);
                return 0;
            }
            i += 1;
            assert(candidate@.take(i as int) =~= prefix.take(i as int));
        }
        assert(prefix.take(prefix_len as int) =~= prefix);
        let rest = slice_range(candidate.as_slice(), prefix_len, candidate.len());
        assert(rest@ =~= candidate@.skip(prefix_len as int));
        proof {
            lemma_char_count_le(rest@);
        }
        output.extend(&dim_color_bytes());
        output.extend(rest.as_slice());
        output.extend(&reset_color_bytes());
        display_width(rest.as_slice())
    }

    /// Redraw the prompt and line and put the cursor back in place.
    fn redraw(&self, output: &mut ShellOutput)
        requires
            old(output).wf(),
            self.wf(),
        ensures
            final(output).wf(),
            final(output)@ == redraw_out(self@, old(output)@),
    {
        reveal(redraw_out);
        output.push(0x0d);
        output.extend(&prompt_bytes());
        highlight_line(self.line.as_slice(), output);
        let ghost_width = self.append_completion_ghost(output);
        output.extend(&reset_color_bytes());
        output.extend(&[0x1bu8, 0x5b, 0x4b]);
        let tail = slice_range(self.line.as_slice(), self.cursor, self.line.len());
        let width = display_width(tail.as_slice());
        proof {
            lemma_char_count_le(tail@);
        }
        move_cursor(output, 0x44, width + ghost_width);
    }
}


/// The start of the word before `cursor`.
fn word_start_position(line: &[u8], cursor: usize) -> (r: usize)
    requires
        cursor <= line@.len(),
    ensures
        r == word_start(line@, cursor as int),
        r <= cursor,
{
    let mut i = cursor;
    while i > 0 && line[i - 1] == 0x20
        invariant
            i <= cursor <= line@.len(),
            back_spaces(line@, cursor as int) == back_spaces(line@, i as int),
        decreases i,
    {
        i -= 1;
    }
    let ghost spaces = i as int;
    while i > 0 && line[i - 1] != 0x20
        invariant
            i <= spaces <= cursor <= line@.len(),
            back_word(line@, spaces) == back_word(line@, i as int),
        decreases i,
    {
        proof {
            lemma_previous_start_bounds(line@, i - 1);
        }
        i = previous_boundary(line, i);
    }
    i
}

/// The end of the word at or after `cursor`.
fn word_end_position(line: &[u8], cursor: usize) -> (r: usize)
    requires
        cursor <= line@.len(),
    ensures
        r == word_end(line@, cursor as int),
        cursor <= r <= line@.len(),
{
    let length = line.len();
    let mut i = cursor;
    while i < length && line[i] == 0x20
        invariant
            cursor <= i <= length,
            length == line@.len(),
            forward_spaces(line@, cursor as int) == forward_spaces(line@, i as int),
        decreases length - i,
    {
        i += 1;
    }
    let ghost spaces = i as int;
    while i < length && line[i] != 0x20
        invariant
            cursor <= spaces <= i <= length,
            length == line@.len(),
            forward_word(line@, spaces) == forward_word(line@, i as int),
        decreases length - i,
    {
        proof {
            lemma_next_start_bounds(line@, i + 1, length as int);
        }
        i = next_boundary(line, i, length);
    }
    i
}

impl LineEditor {
    /// Replace the line and cursor, as an edit of the line.
    fn set_line(&mut self, line: Vec<u8>, cursor: usize)
        ensures
            final(self)@ == edit(old(self)@, line@, cursor as int),
    {
        self.line = line;
        self.cursor = cursor;
        self.line_revision = if self.line_revision == 255 {
            0
        } else {
            self.line_revision + 1
        };
        assert(self.history@.map_values(|entry: Vec<u8>| entry@) =~= old(self)@.history);
    }

    fn set_cursor(&mut self, cursor: usize)
        ensures
            final(self)@ == with_cursor(old(self)@, cursor as int),
    {
        self.cursor = cursor;
        assert(self.history@.map_values(|entry: Vec<u8>| entry@) =~= old(self)@.history);
    }

    fn insert(&mut self, bytes: &[u8], output: &mut ShellOutput)
        requires
            old(self).wf(),
            old(output).wf(),
        ensures
            final(self).wf(),
            final(output).wf(),
            (final(self)@, final(output)@) == insert_out(old(self)@, old(output)@, bytes@),
    {
        if bytes.len() > MAX_LINE_BYTES - self.line.len() {
            return;
        }
        let line = splice(self.line.as_slice(), self.cursor, self.cursor, bytes);
        self.set_line(line, self.cursor + bytes.len());
        self.redraw(output);
    }

    fn backspace(&mut self, output: &mut ShellOutput)
        requires
            old(self).wf(),
            old(output).wf(),
        ensures
            final(self).wf(),
            final(output).wf(),
            (final(self)@, final(output)@) == backspace_out(old(self)@, old(output)@),
    {
        if self.cursor == 0 {
            return;
        }
        let start = previous_boundary(self.line.as_slice(), self.cursor);
        proof {
            lemma_previous_start_bounds(self.line@, self.cursor - 1);
        }
        let line = splice(self.line.as_slice(), start, self.cursor, &[]);
        assert(line@ =~= self.line@.take(start as int) + self.line@.skip(self.cursor as int));
        self.set_line(line, start);
        self.redraw(output);
    }

    fn delete_forward(&mut self, output: &mut ShellOutput)
        requires
            old(self).wf(),
            old(output).wf(),
        ensures
            final(self).wf(),
            final(output).wf(),
            (final(self)@, final(output)@) == delete_forward_out(old(self)@, old(output)@),
    {
        if self.cursor >= self.line.len() {
            return;
        }
        let end = next_boundary(self.line.as_slice(), self.cursor, self.line.len());
        proof {
            lemma_next_start_bounds(self.line@, self.cursor + 1, self.line@.len() as int);
        }
        let line = splice(self.line.as_slice(), self.cursor, end, &[]);
        assert(line@ =~= self.line@.take(self.cursor as int) + self.line@.skip(end as int));
        self.set_line(line, self.cursor);
        self.redraw(output);
    }

    fn delete_to_end(&mut self, output: &mut ShellOutput)
        requires
            old(self).wf(),
            old(output).wf(),
        ensures
            final(self).wf(),
            final(output).wf(),
            (final(self)@, final(output)@) == delete_to_end_out(old(self)@, old(output)@),
    {
        let line = slice_range(self.line.as_slice(), 0, self.cursor);
        assert(line@ =~= self.line@.take(self.cursor as int));
        self.set_line(line, self.cursor);
        self.redraw(output);
    }

    fn clear_line(&mut self, output: &mut ShellOutput)
        requires
            old(self).wf(),
            old(output).wf(),
        ensures
            final(self).wf(),
            final(output).wf(),
            (final(self)@, final(output)@) == clear_line_out(old(self)@, old(output)@),
    {
        self.set_line(Vec::new(), 0);
        self.redraw(output);
    }

    fn delete_word(&mut self, output: &mut ShellOutput)
        requires
            old(self).wf(),
            old(output).wf(),
        ensures
            final(self).wf(),
            final(output).wf(),
            (final(self)@, final(output)@) == delete_word_out(old(self)@, old(output)@),
    {
        let start = word_start_position(self.line.as_slice(), self.cursor);
        let line = splice(self.line.as_slice(), start, self.cursor, &[]);
        assert(line@ =~= self.line@.take(start as int) + self.line@.skip(self.cursor as int));
        self.set_line(line, start);
        self.redraw(output);
    }

    fn delete_word_forward(&mut self, output: &mut ShellOutput)
        requires
            old(self).wf(),
            old(output).wf(),
        ensures
            final(self).wf(),
            final(output).wf(),
            (final(self)@, final(output)@) == delete_word_forward_out(old(self)@, old(output)@),
    {
        let end = word_end_position(self.line.as_slice(), self.cursor);
        let line = splice(self.line.as_slice(), self.cursor, end, &[]);
        assert(line@ =~= self.line@.take(self.cursor as int) + self.line@.skip(end as int));
        self.set_line(line, self.cursor);
        self.redraw(output);
    }

    fn move_left(&mut self, output: &mut ShellOutput)
        requires
            old(self).wf(),
            old(output).wf(),
        ensures
            final(self).wf(),
            final(output).wf(),
            (final(self)@, final(output)@) == move_left_out(old(self)@, old(output)@),
    {
        if self.cursor > 0 {
            let start = previous_boundary(self.line.as_slice(), self.cursor);
            proof {
                lemma_previous_start_bounds(self.line@, self.cursor - 1);
            }
            self.set_cursor(start);
            output.extend(&[0x1bu8, 0x5b, 0x44]);
        }
    }

    fn move_right(&mut self, output: &mut ShellOutput)
        requires
            old(self).wf(),
            old(output).wf(),
        ensures
            final(self).wf(),
            final(output).wf(),
            (final(self)@, final(output)@) == move_right_out(old(self)@, old(output)@),
    {
        if self.cursor < self.line.len() {
            let end = next_boundary(self.line.as_slice(), self.cursor, self.line.len());
            proof {
                lemma_next_start_bounds(self.line@, self.cursor + 1, self.line@.len() as int);
            }
            self.set_cursor(end);
            output.extend(&[0x1bu8, 0x5b, 0x43]);
        }
    }

    fn move_word_left(&mut self, output: &mut ShellOutput)
        requires
            old(self).wf(),
            old(output).wf(),
        ensures
            final(self).wf(),
            final(output).wf(),
            (final(self)@, final(output)@) == move_word_left_out(old(self)@, old(output)@),
    {
        let old_cursor = self.cursor;
        let start = word_start_position(self.line.as_slice(), self.cursor);
        let passed = slice_range(self.line.as_slice(), start, old_cursor);
        self.set_cursor(start);
        move_cursor(output, 0x44, display_width(passed.as_slice()));
    }

    fn move_word_right(&mut self, output: &mut ShellOutput)
        requires
            old(self).wf(),
            old(output).wf(),
        ensures
            final(self).wf(),
            final(output).wf(),
            (final(self)@, final(output)@) == move_word_right_out(old(self)@, old(output)@),
    {
        let old_cursor = self.cursor;
        let end = word_end_position(self.line.as_slice(), self.cursor);
        let passed = slice_range(self.line.as_slice(), old_cursor, end);
        self.set_cursor(end);
        move_cursor(output, 0x43, display_width(passed.as_slice()));
    }

    fn move_home(&mut self, output: &mut ShellOutput)
        requires
            old(self).wf(),
            old(output).wf(),
        ensures
            final(self).wf(),
            final(output).wf(),
            (final(self)@, final(output)@) == move_home_out(old(self)@, old(output)@),
    {
        let passed = slice_range(self.line.as_slice(), 0, self.cursor);
        assert(passed@ =~= self.line@.take(self.cursor as int));
        self.set_cursor(0);
        move_cursor(output, 0x44, display_width(passed.as_slice()));
    }

    fn move_end(&mut self, output: &mut ShellOutput)
        requires
            old(self).wf(),
            old(output).wf(),
        ensures
            final(self).wf(),
            final(output).wf(),
            (final(self)@, final(output)@) == move_end_out(old(self)@, old(output)@),
    {
        let passed = slice_range(self.line.as_slice(), self.cursor, self.line.len());
        let length = self.line.len();
        self.set_cursor(length);
        move_cursor(output, 0x43, display_width(passed.as_slice()));
    }

    fn clear_screen(&mut self, output: &mut ShellOutput)
        requires
            old(self).wf(),
            old(output).wf(),
        ensures
            final(self).wf(),
            final(output).wf(),
            (final(self)@, final(output)@) == clear_screen_out(old(self)@, old(output)@),
    {
        output.extend(&[0x1bu8, 0x5b, 0x32, 0x4a, 0x1b, 0x5b, 0x48]);
        self.redraw(output);
    }
}


fn saturating_digit_value(value: u8, digit: u8) -> (r: u8)
    requires
        is_digit(digit),
    ensures
        r == saturating_digit(value, digit),
{
    let product: u16 = value as u16 * 10;
    let product: u16 = if product > 255 {
        255
    } else {
        product
    };
    let sum: u16 = product + (digit - 0x30) as u16;
    if sum > 255 {
        255
    } else {
        sum as u8
    }
}

impl LineEditor {
    fn set_escape(&mut self, state: u8)
        ensures
            final(self)@ == with_escape(old(self)@, state),
    {
        self.escape_state = state;
        assert(self.history@.map_values(|entry: Vec<u8>| entry@) =~= old(self)@.history);
    }

    fn record_history(&mut self, line: &[u8])
        requires
            old(self).wf(),
            line@.len() <= MAX_LINE_BYTES,
        ensures
            final(self).wf(),
            final(self)@ == record_history(old(self)@, line@),
    {
        if line.len() == 0 {
            return;
        }
        let length = if line.len() < MAX_HISTORY_BYTES {
            line.len()
        } else {
            MAX_HISTORY_BYTES
        };
        let entry = slice_range(line, 0, length);
        assert(entry@ =~= line@.take(min_int(line@.len() as int, MAX_HISTORY_BYTES as int)));
        let ghost before = self@.history;
        if self.history.len() >= MAX_HISTORY_ENTRIES {
            self.history.remove(0);
            assert(self.history@.map_values(|e: Vec<u8>| e@) =~= before.drop_first());
        }
        self.history.push(entry);
        self.history_cursor = self.history.len();
        let ghost expected = record_history(old(self)@, line@);
        assert(self.history@.map_values(|e: Vec<u8>| e@) =~= expected.history);
    }

    fn recall_history(&mut self, previous: bool, output: &mut ShellOutput)
        requires
            old(self).wf(),
            old(output).wf(),
        ensures
            final(self).wf(),
            final(output).wf(),
            (final(self)@, final(output)@) == recall_history_out(old(self)@, old(output)@, previous),
    {
        let count = self.history.len();
        if count == 0 {
            return;
        }
        let position = if previous {
            if self.history_cursor > 0 {
                self.history_cursor - 1
            } else {
                0
            }
        } else if self.history_cursor < count {
            self.history_cursor + 1
        } else {
            self.history_cursor
        };
        self.history_cursor = position;
        assert(self.history@.map_values(|e: Vec<u8>| e@) =~= old(self)@.history);
        if position < count {
            let entry = slice_range(self.history[position].as_slice(), 0, self.history[position].len());
            assert(entry@ =~= old(self)@.history[position as int]);
            let length = entry.len();
            self.set_line(entry, length);
        } else {
            self.set_line(Vec::new(), 0);
        }
        self.redraw(output);
    }

    fn feed_escape(&mut self, byte: u8, output: &mut ShellOutput)
        requires
            old(self).wf(),
            old(output).wf(),
        ensures
            final(self).wf(),
            final(output).wf(),
            (final(self)@, final(output)@) == escape_out(old(self)@, old(output)@, byte),
    {
        reveal(escape_out);
        if self.escape_state == 1 {
            self.set_escape(if byte == 0x5b { 2 } else { 0 });
        } else if self.escape_state == 2 {
            if byte == 0x41 {
                self.recall_history(true, output);
                self.set_escape(0);
            } else if byte == 0x42 {
                self.recall_history(false, output);
                self.set_escape(0);
            } else if byte == 0x43 {
                self.move_right(output);
                self.set_escape(0);
            } else if byte == 0x44 {
                self.move_left(output);
                self.set_escape(0);
            } else if byte == 0x48 {
                self.move_home(output);
                self.set_escape(0);
            } else if byte == 0x46 {
                self.move_end(output);
                self.set_escape(0);
            } else if 0x30 <= byte && byte <= 0x39 {
                self.escape_param = byte - 0x30;
                self.set_escape(3);
            } else {
                self.set_escape(0);
            }
        } else if self.escape_state == 3 {
            if 0x30 <= byte && byte <= 0x39 {
                self.escape_param = saturating_digit_value(self.escape_param, byte);
                assert(self.history@.map_values(|e: Vec<u8>| e@) =~= old(self)@.history);
            } else if byte == 0x3b {
                self.escape_modifier = 0;
                self.set_escape(4);
            } else if byte == 0x7e {
                if self.escape_param == 3 {
                    self.delete_forward(output);
                }
                self.set_escape(0);
            } else {
                self.set_escape(0);
            }
        } else if self.escape_state == 4 {
            if 0x30 <= byte && byte <= 0x39 {
                self.escape_modifier = saturating_digit_value(self.escape_modifier, byte);
                assert(self.history@.map_values(|e: Vec<u8>| e@) =~= old(self)@.history);
            } else if byte == 0x43 && self.escape_param == 1 && self.escape_modifier == 5 {
                self.move_word_right(output);
                self.set_escape(0);
            } else if byte == 0x44 && self.escape_param == 1 && self.escape_modifier == 5 {
                self.move_word_left(output);
                self.set_escape(0);
            } else if byte == 0x7e && self.escape_param == 3 && self.escape_modifier == 5 {
                self.delete_word_forward(output);
                self.set_escape(0);
            } else {
                self.set_escape(0);
            }
        } else {
            self.set_escape(0);
        }
    }
}


impl LineEditor {
    fn clear_completion_state(&mut self)
        requires
            old(self).wf(),
        ensures
            final(self).wf(),
            final(self)@ == clear_completion(old(self)@),
    {
        self.completion_requested = false;
        self.completion_pending_id = None;
        self.completion_pending_request = None;
        self.completion_wait = 0;
        self.completion_active = false;
        self.completion_count = 0;
        self.completion_selected = 0;
        assert(self.history@.map_values(|e: Vec<u8>| e@) =~= old(self)@.history);
    }

    fn request_completion(&mut self)
        requires
            old(self).wf(),
        ensures
            final(self).wf(),
            final(self)@ == request_completion(old(self)@),
    {
        if self.completion_enabled && self.completion_pending_id.is_none() {
            self.completion_requested = true;
        }
        assert(self.history@.map_values(|e: Vec<u8>| e@) =~= old(self)@.history);
    }

    fn dismiss_completion(&mut self, output: &mut ShellOutput)
        requires
            old(self).wf(),
            old(output).wf(),
        ensures
            final(self).wf(),
            final(output).wf(),
            (final(self)@, final(output)@) == dismiss_out(old(self)@, old(output)@),
    {
        let had_menu = self.completion_active;
        self.clear_completion_state();
        if had_menu {
            self.redraw(output);
        }
    }

    fn select_completion(&mut self, up: bool, output: &mut ShellOutput)
        requires
            old(self).wf(),
            old(output).wf(),
        ensures
            final(self).wf(),
            final(output).wf(),
            (final(self)@, final(output)@) == select_out(old(self)@, old(output)@, up),
    {
        if self.completion_count == 0 {
            return;
        }
        self.completion_selected = if up {
            if self.completion_selected == 0 {
                self.completion_count - 1
            } else {
                self.completion_selected - 1
            }
        } else {
            (self.completion_selected + 1) % self.completion_count
        };
        assert(self.history@.map_values(|e: Vec<u8>| e@) =~= old(self)@.history);
        self.redraw(output);
    }

    fn accept_completion(&mut self, output: &mut ShellOutput)
        requires
            old(self).wf(),
            old(output).wf(),
        ensures
            final(self).wf(),
            final(output).wf(),
            (final(self)@, final(output)@) == accept_out(old(self)@, old(output)@),
    {
        let candidate = match self.completion_candidate(self.completion_selected) {
            None => {
                return;
            },
            Some(candidate) => candidate,
        };
        let length = self.line.len();
        let start = if self.completion_replace_start < length {
            self.completion_replace_start
        } else {
            length
        };
        let clamped = if self.completion_replace_end < length {
            self.completion_replace_end
        } else {
            length
        };
        let end = if clamped > start {
            clamped
        } else {
            start
        };
        let new_length = start + candidate.len() + (length - end);
        if new_length > MAX_LINE_BYTES {
            return;
        }
        let offset = self.completion_cursor_offsets[self.completion_selected] as usize;
        let cursor = start + if offset < candidate.len() {
            offset
        } else {
            candidate.len()
        };
        let line = splice(self.line.as_slice(), start, end, candidate.as_slice());
        self.set_line(line, cursor);
        self.clear_completion_state();
        self.redraw(output);
    }

    pub fn completion_failed(&mut self, output: &mut ShellOutput)
        requires
            old(self).wf(),
            old(output).wf(),
        ensures
            final(self).wf(),
            final(output).wf(),
            (final(self)@, final(output)@) == completion_failed_out(old(self)@, old(output)@),
    {
        self.completion_enabled = false;
        let had_menu = self.completion_active;
        assert(self.history@.map_values(|e: Vec<u8>| e@) =~= old(self)@.history);
        self.clear_completion_state();
        if had_menu {
            self.redraw(output);
        }
        output.extend(&completion_error_bytes());
        self.redraw(output);
    }

    pub fn completion_tick(&mut self, output: &mut ShellOutput)
        requires
            old(self).wf(),
            old(output).wf(),
        ensures
            final(self).wf(),
            final(output).wf(),
            (final(self)@, final(output)@) == completion_tick_out(old(self)@, old(output)@),
    {
        if self.completion_pending_id.is_none() {
            return;
        }
        self.completion_wait = if self.completion_wait == 255 {
            255
        } else {
            self.completion_wait + 1
        };
        assert(self.history@.map_values(|e: Vec<u8>| e@) =~= old(self)@.history);
        if self.completion_wait >= COMPLETION_TIMEOUT_TICKS {
            self.completion_failed(output);
        }
    }

    pub fn completion_pending(&self) -> (r: bool)
        ensures
            r == (self@.completion_pending_id is Some),
    {
        self.completion_pending_id.is_some()
    }

    pub fn apply_completion_response(&mut self, response: CompletionResponse, output: &mut ShellOutput)
        requires
            old(self).wf(),
            old(output).wf(),
        ensures
            final(self).wf(),
            final(output).wf(),
            (final(self)@, final(output)@) == apply_response_out(old(self)@, old(output)@, response),
    {
        let request = match self.completion_pending_request {
            None => {
                return;
            },
            Some(request) => request,
        };
        match self.completion_pending_id {
            Some(id) => {
                if id != response.request_id {
                    return;
                }
            },
            None => {
                return;
            },
        }
        if !response.is_valid_for(&request) {
            self.completion_failed(output);
            return;
        }
        self.completion_pending_id = None;
        self.completion_pending_request = None;
        self.completion_wait = 0;
        assert(self.history@.map_values(|e: Vec<u8>| e@) =~= old(self)@.history);
        match response.status {
            CompletionStatus::Found => {
                if response.candidate_count != 0 {
                    self.completion_replace_start = response.replace_start as usize;
                    self.completion_replace_end = response.replace_end as usize;
                    self.completion_count = response.candidate_count as usize;
                    self.completion_lengths = response.lengths;
                    self.completion_cursor_offsets = response.cursor_offsets;
                    self.completion_candidates = response.candidates;
                    self.completion_selected = 0;
                    self.completion_active = true;
                    assert(self.history@.map_values(|e: Vec<u8>| e@) =~= old(self)@.history);
                    self.redraw(output);
                }
            },
            CompletionStatus::NoMatch => {
                self.dismiss_completion(output);
            },
            CompletionStatus::Unavailable | CompletionStatus::Malformed => {
                self.completion_enabled = false;
                assert(self.history@.map_values(|e: Vec<u8>| e@) =~= old(self)@.history);
                self.completion_failed(output);
            },
        }
    }

    pub fn take_completion_request(&mut self) -> (r: Option<CompletionRequest>)
        requires
            old(self).wf(),
        ensures
            final(self).wf(),
            take_request_result(old(self)@, final(self)@, r),
    {
        if !self.completion_requested || !self.completion_enabled {
            self.completion_requested = false;
            assert(self.history@.map_values(|e: Vec<u8>| e@) =~= old(self)@.history);
            return None;
        }
        self.completion_requested = false;
        let request_id = self.completion_next_id;
        self.completion_next_id = if request_id == 65535 {
            1
        } else {
            request_id + 1
        };
        let made = CompletionRequest::new(request_id, self.line.as_slice(), self.cursor);
        let mut request = match made {
            Some(request) => request,
            None => {
                return None;
            },
        };
        request.line_revision = self.line_revision;
        self.completion_pending_id = Some(request_id);
        self.completion_pending_request = Some(request);
        self.completion_wait = 0;
        assert(self.history@.map_values(|e: Vec<u8>| e@) =~= old(self)@.history);
        Some(request)
    }
}


impl LineEditor {
    pub fn new() -> (r: Self)
        ensures
            r.wf(),
            initial_state(r@, true),
    {
        Self::new_with_completion(true)
    }

    pub fn new_with_completion(completion_enabled: bool) -> (r: Self)
        ensures
            r.wf(),
            initial_state(r@, completion_enabled),
    {
        let r = LineEditor {
            line: Vec::new(),
            cursor: 0,
            history: Vec::new(),
            history_cursor: 0,
            escape_state: 0,
            escape_param: 0,
            escape_modifier: 0,
            completion_enabled,
            line_revision: 0,
            completion_requested: false,
            completion_next_id: 1,
            completion_pending_id: None,
            completion_pending_request: None,
            completion_wait: 0,
            completion_active: false,
            completion_replace_start: 0,
            completion_replace_end: 0,
            completion_count: 0,
            completion_lengths: [0u8; MAX_COMPLETION_CANDIDATES],
            completion_cursor_offsets: [0u8; MAX_COMPLETION_CANDIDATES],
            completion_candidates: [[0u8; MAX_COMPLETION_ITEM_BYTES]; MAX_COMPLETION_CANDIDATES],
            completion_selected: 0,
        };
        assert(r.history@.map_values(|e: Vec<u8>| e@) =~= Seq::<Seq<u8>>::empty());
        r
    }

    /// Append the prompt.
    pub fn prompt(&self, output: &mut ShellOutput)
        requires
            old(output).wf(),
        ensures
            final(output).wf(),
            final(output)@ == append_bounded(old(output)@, prompt_text()),
    {
        output.extend(&prompt_bytes());
    }

    /// The line being edited.
    pub fn line(&self) -> (r: &[u8])
        ensures
            r@ == self@.line,
    {
        self.line.as_slice()
    }

    /// The cursor's byte offset in the line.
    pub fn cursor(&self) -> (r: usize)
        ensures
            r == self@.cursor,
    {
        self.cursor
    }

    fn control(&mut self, byte: u8, output: &mut ShellOutput)
        requires
            old(self).wf(),
            old(output).wf(),
        ensures
            final(self).wf(),
            final(output).wf(),
            (final(self)@, final(output)@) == control_out(old(self)@, old(output)@, byte),
    {
        reveal(control_out);
        if byte == 0x1b {
            self.set_escape(1);
        } else if byte == 0x01 {
            self.move_home(output);
        } else if byte == 0x05 {
            self.move_end(output);
        } else if byte == 0x0b {
            self.delete_to_end(output);
        } else if byte == 0x0c {
            self.clear_screen(output);
        } else if byte == 0x15 {
            self.clear_line(output);
        } else if byte == 0x17 {
            self.delete_word(output);
        } else if byte == 0x09 {
            self.request_completion();
        } else if byte == 0x08 || byte == 0x7f {
            self.backspace(output);
        } else if (0x20 <= byte && byte <= 0x7e) || byte >= 0x80 {
            let single = [byte];
            assert(single@ =~= seq![byte]);
            self.insert(&single, output);
        }
    }

    /// Enter: record and hand out the line, and start an empty one.
    fn commit(&mut self, command: &mut [u8; MAX_LINE_BYTES], output: &mut ShellOutput) -> (r: usize)
        requires
            old(self).wf(),
            old(output).wf(),
        ensures
            final(self).wf(),
            final(output).wf(),
            (final(self)@, final(output)@) == commit_out(old(self)@, old(output)@),
            r == old(self)@.line.len(),
            final(command)@ == old(self)@.line + old(command)@.skip(r as int),
    {
        let length = self.line.len();
        let line = slice_range(self.line.as_slice(), 0, length);
        assert(line@ =~= self.line@);
        self.record_history(line.as_slice());
        let mut i: usize = 0;
        while i < length
            invariant
                length == line@.len(),
                length <= MAX_LINE_BYTES,
                i <= length,
                command@.len() == MAX_LINE_BYTES,
                command@ == line@.take(i as int) + old(command)@.skip(i as int),
            decreases length - i,
        {
            command.set(i, line[i]);
            i += 1;
            assert(command@ =~= line@.take(i as int) + old(command)@.skip(i as int));
        }
        assert(line@.take(length as int) =~= line@);
        self.set_line(Vec::new(), 0);
        self.clear_completion_state();
        output.extend(&[0x0du8, 0x0a]);
        length
    }

    /// One byte, once any completion menu is settled.
    fn process_byte(
        &mut self,
        bytes: &[u8],
        index: usize,
        command: &mut [u8; MAX_LINE_BYTES],
        output: &mut ShellOutput,
    ) -> (r: (usize, Option<usize>))
        requires
            old(self).wf(),
            old(output).wf(),
            index < bytes@.len(),
        ensures
            final(self).wf(),
            final(output).wf(),
            ({
                let st = byte_step(old(self)@, old(output)@, bytes@.skip(index as int));
                &&& final(self)@ == st.state
                &&& final(output)@ == st.out
                &&& r.0 == st.consumed
                &&& match st.command {
                    Some(line) => r.1 == Some(line.len() as usize) && final(command)@ == line
                        + old(command)@.skip(line.len() as int),
                    None => r.1 is None && final(command)@ == old(command)@,
                }
            }),
    {
        reveal(byte_step);
        let ghost rest = bytes@.skip(index as int);
        let byte = bytes[index];
        let revision = self.line_revision;
        if self.escape_state != 0 {
            self.feed_escape(byte, output);
            if self.line_revision != revision {
                self.request_completion();
            }
            return (1, None);
        }
        let width = if byte >= 0x80 {
            let tail = slice_range(bytes, index, bytes.len());
            assert(tail@ =~= rest);
            utf8_sequence_width(tail.as_slice())
        } else {
            1
        };
        proof {
            lemma_sequence_width_bounds(rest);
        }
        if width > 1 {
            let chars = slice_range(bytes, index, index + width);
            assert(chars@ =~= rest.take(width as int));
            self.insert(chars.as_slice(), output);
            self.request_completion();
            return (width, None);
        }
        if byte == 0x0d || byte == 0x0a {
            let length = self.commit(command, output);
            return (1, Some(length));
        }
        self.control(byte, output);
        if self.line_revision != revision {
            self.request_completion();
        }
        (1, None)
    }

    /// One byte, or an arrow sequence while the completion menu is open.
    fn process_step(
        &mut self,
        bytes: &[u8],
        index: usize,
        command: &mut [u8; MAX_LINE_BYTES],
        output: &mut ShellOutput,
    ) -> (r: (usize, Option<usize>))
        requires
            old(self).wf(),
            old(output).wf(),
            index < bytes@.len(),
        ensures
            final(self).wf(),
            final(output).wf(),
            ({
                let st = step(old(self)@, old(output)@, bytes@.skip(index as int));
                &&& final(self)@ == st.state
                &&& final(output)@ == st.out
                &&& r.0 == st.consumed
                &&& match st.command {
                    Some(line) => r.1 == Some(line.len() as usize) && final(command)@ == line
                        + old(command)@.skip(line.len() as int),
                    None => r.1 is None && final(command)@ == old(command)@,
                }
            }),
    {
        reveal(step);
        let ghost rest = bytes@.skip(index as int);
        let byte = bytes[index];
        if self.completion_active {
            let arrow = bytes.len() - index >= 3 && bytes[index] == 0x1b && bytes[index + 1] == 0x5b;
            if arrow && bytes[index + 2] == 0x41 {
                self.select_completion(true, output);
                return (3, None);
            }
            if arrow && bytes[index + 2] == 0x42 {
                self.select_completion(false, output);
                return (3, None);
            }
            if byte == 0x09 {
                self.accept_completion(output);
                self.request_completion();
                return (1, None);
            }
            if byte == 0x1b {
                self.dismiss_completion(output);
                return (1, None);
            }
            self.dismiss_completion(output);
        } else if self.completion_pending_id.is_some() && byte != 0x09 {
            self.clear_completion_state();
        }
        self.process_byte(bytes, index, command, output)
    }

    /// Feed input bytes; when Enter arrives, the line goes to `command`
    /// and its length is returned, and the bytes after it are left unread.
    pub fn input_for_command(
        &mut self,
        bytes: &[u8],
        command: &mut [u8; MAX_LINE_BYTES],
        output: &mut ShellOutput,
    ) -> (r: Option<usize>)
        requires
            old(self).wf(),
            old(output).wf(),
        ensures
            final(self).wf(),
            final(output).wf(),
            ({
                let (state, out, committed) = feed(old(self)@, old(output)@, bytes@, 0);
                &&& final(self)@ == state
                &&& final(output)@ == out
                &&& match committed {
                    Some(line) => r == Some(line.len() as usize) && line.len() <= MAX_LINE_BYTES
                        && final(command)@ == line + old(command)@.skip(line.len() as int),
                    None => r is None && final(command)@ == old(command)@,
                }
            }),
    {
        let ghost goal = feed(old(self)@, old(output)@, bytes@, 0);
        let mut index: usize = 0;
        while index < bytes.len()
            invariant
                self.wf(),
                output.wf(),
                index <= bytes@.len(),
                goal == feed(self@, output@, bytes@, index as int),
                goal == feed(old(self)@, old(output)@, bytes@, 0),
                command@ == old(command)@,
            decreases bytes@.len() - index,
        {
            let ghost before = self@;
            let ghost before_out = output@;
            proof {
                lemma_step_consumes(before, before_out, bytes@.skip(index as int));
            }
            let (consumed, committed) = self.process_step(bytes, index, command, output);
            let ghost st = step(before, before_out, bytes@.skip(index as int));
            match committed {
                Some(length) => {
                    assert(feed(before, before_out, bytes@, index as int) == (
                        st.state,
                        st.out,
                        st.command,
                    ));
                    return Some(length);
                },
                None => {
                    assert(feed(before, before_out, bytes@, index as int) == feed(
                        st.state,
                        st.out,
                        bytes@,
                        index + consumed,
                    ));
                    index += consumed;
                },
            }
        }
        None
    }
}

} // verus!
