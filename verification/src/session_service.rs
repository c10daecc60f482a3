//! The session service: it edits a command line, hands completed lines on
//! to be run, and follows each command's output with a fresh prompt.

use vstd::prelude::*;
use crate::session::{ShellOutput, append_bounded, MAX_LINE_BYTES, MAX_OUTPUT_BYTES};
use crate::completion::{CompletionRequest, CompletionResponse};
use crate::editor_model::{
    EditorState, editor_wf, prompt_text, newline_text, feed, take_request_result,
    apply_response_out, completion_tick_out, completion_failed_out, initial_state,
};
use crate::line_editor::LineEditor;

verus! {

/// Room kept at the end of the output for a line end and the prompt.
pub open spec fn reserved_room() -> int {
    prompt_text().len() + 2int
}

/// How much of a command's output is shown after `out`: all of it, or as
/// much as leaves the reserved room.
pub open spec fn shown_output(out: Seq<u8>, bytes: Seq<u8>) -> Seq<u8> {
    let available = if out.len() + reserved_room() <= MAX_OUTPUT_BYTES {
        MAX_OUTPUT_BYTES - (out.len() + reserved_room())
    } else {
        0
    };
    if bytes.len() <= available {
        bytes
    } else {
        bytes.take(available)
    }
}

/// `out` ended as a line: nothing more when it ends with LF, LF after a
/// trailing CR, else CR LF.
pub open spec fn end_line(out: Seq<u8>) -> Seq<u8> {
    if out.len() > 0 && out.last() == 0x0a {
        out
    } else if out.len() > 0 && out.last() == 0x0d {
        append_bounded(out, seq![0x0au8])
    } else {
        append_bounded(out, newline_text())
    }
}

/// A command's output: what fits of it, a line end, and the prompt.
pub open spec fn command_output_text(out: Seq<u8>, bytes: Seq<u8>) -> Seq<u8> {
    append_bounded(end_line(append_bounded(out, shown_output(out, bytes))), prompt_text())
}

/// The session service around one line editor.
pub struct SessionService {
    session: LineEditor,
}

impl SessionService {
    pub closed spec fn view(&self) -> EditorState {
        self.session@
    }

    pub closed spec fn wf(&self) -> bool {
        self.session.wf()
    }

    pub fn new() -> (r: Self)
        ensures
            r.wf(),
            initial_state(r@, true),
    {
        SessionService { session: LineEditor::new() }
    }

    pub fn new_with_completion(enabled: bool) -> (r: Self)
        ensures
            r.wf(),
            initial_state(r@, enabled),
    {
        SessionService { session: LineEditor::new_with_completion(enabled) }
    }

    pub fn prompt(&self, output: &mut ShellOutput)
        requires
            old(output).wf(),
        ensures
            final(output).wf(),
            final(output)@ == append_bounded(old(output)@, prompt_text()),
    {
        self.session.prompt(output);
    }

    pub fn input_for_command(
        &mut self,
        bytes: &[u8],
        command: &mut [u8; MAX_LINE_BYTES],
        output: &mut ShellOutput,
    ) -> (r: Option<usize>)
        requires
            old(self).wf(),
            old(output).wf(),
        ensures
            final(self).wf(),
            final(output).wf(),
            ({
                let (state, out, committed) = feed(old(self)@, old(output)@, bytes@, 0);
                &&& final(self)@ == state
                &&& final(output)@ == out
                &&& match committed {
                    Some(line) => r == Some(line.len() as usize) && line.len() <= MAX_LINE_BYTES
                        && final(command)@ == line + old(command)@.skip(line.len() as int),
                    None => r is None && final(command)@ == old(command)@,
                }
            }),
    {
        self.session.input_for_command(bytes, command, output)
    }

    /// Append a command's output, ended as a line, and then the prompt.
    pub fn command_output(&self, bytes: &[u8], output: &mut ShellOutput)
        requires
            old(output).wf(),
        ensures
            final(output).wf(),
            final(output)@ == command_output_text(old(output)@, bytes@),
    {
        let reserve: usize = 28;
        let available = if output.len() + reserve <= MAX_OUTPUT_BYTES {
            MAX_OUTPUT_BYTES - (output.len() + reserve)
        } else {
            0
        };
        let count = if bytes.len() <= available {
            bytes.len()
        } else {
            available
        };
        let shown = crate::aml::slice_range(bytes, 0, count);
        assert(shown@ =~= shown_output(output@, bytes@));
        output.extend(shown.as_slice());
        let length = output.len();
        if length > 0 && output.as_bytes()[length - 1] == 0x0a {
        } else if length > 0 && output.as_bytes()[length - 1] == 0x0d {
            output.push(0x0a);
        } else {
            output.extend(&[0x0du8, 0x0a]);
        }
        self.prompt(output);
    }

    pub fn take_completion_request(&mut self) -> (r: Option<CompletionRequest>)
        requires
            old(self).wf(),
        ensures
            final(self).wf(),
            take_request_result(old(self)@, final(self)@, r),
    {
        self.session.take_completion_request()
    }

    pub fn apply_completion_response(&mut self, response: CompletionResponse, output: &mut ShellOutput)
        requires
            old(self).wf(),
            old(output).wf(),
        ensures
            final(self).wf(),
            final(output).wf(),
            (final(self)@, final(output)@) == apply_response_out(old(self)@, old(output)@, response),
    {
        self.session.apply_completion_response(response, output);
    }

    pub fn completion_pending(&self) -> (r: bool)
        ensures
            r == (self@.completion_pending_id is Some),
    {
        self.session.completion_pending()
    }

    pub fn completion_tick(&mut self, output: &mut ShellOutput)
        requires
            old(self).wf(),
            old(output).wf(),
        ensures
            final(self).wf(),
            final(output).wf(),
            (final(self)@, final(output)@) == completion_tick_out(old(self)@, old(output)@),
    {
        self.session.completion_tick(output);
    }

    pub fn completion_failed(&mut self, output: &mut ShellOutput)
        requires
            old(self).wf(),
            old(output).wf(),
        ensures
            final(self).wf(),
            final(output).wf(),
            (final(self)@, final(output)@) == completion_failed_out(old(self)@, old(output)@),
    {
        self.session.completion_failed(output);
    }
}

/// A command's output always ends with the prompt, and the prompt follows
/// a line end, whenever the output buffer had the reserved room left.
pub proof fn lemma_command_output_ends_with_prompt(out: Seq<u8>, bytes: Seq<u8>)
    requires
        out.len() + reserved_room() <= MAX_OUTPUT_BYTES,
    ensures
        ({
            let text = command_output_text(out, bytes);
            let ended = end_line(append_bounded(out, shown_output(out, bytes)));
            &&& text == ended + prompt_text()
            &&& ended.len() > 0 && ended.last() == 0x0a
            &&& ended.take(out.len() as int) == out
        }),
{
    let shown = shown_output(out, bytes);
    let first = append_bounded(out, shown);
    assert(first == out + shown);
    let ended = end_line(first);
    assert(ended.len() <= first.len() + 2);
    assert(ended.take(out.len() as int) =~= out);
    assert(append_bounded(ended, prompt_text()) == ended + prompt_text());
}

} // verus!
