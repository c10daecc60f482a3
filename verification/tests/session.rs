use logos::completion::{CompletionResponse, CompletionStatus};
use logos::line_editor::LineEditor;
use logos::session::{ShellOutput, MAX_LINE_BYTES, MAX_OUTPUT_BYTES};
use logos::session_service::SessionService;

const PROMPT: &[u8] = b"\x1b[36mlogos\x1b[0m \x1b[33m>\x1b[0m ";
const COMMAND_COLOR: &[u8] = b"\x1b[36m";
const STRING_COLOR: &[u8] = b"\x1b[32m";
const DIM_COLOR: &[u8] = b"\x1b[2m";

fn contains(haystack: &[u8], needle: &[u8]) -> bool {
    haystack.windows(needle.len()).any(|window| window == needle)
}

#[test]
fn line_input_commits_on_enter() {
    let mut editor = LineEditor::new();
    let mut command = [0; MAX_LINE_BYTES];
    let mut output = ShellOutput::new();
    assert_eq!(editor.input_for_command(b"echo hi", &mut command, &mut output), None);
    assert_eq!(editor.input_for_command(b"\r", &mut command, &mut output), Some(7));
    assert_eq!(&command[..7], b"echo hi");
}

#[test]
fn history_navigation_is_bounded_and_redraws_the_line() {
    let mut editor = LineEditor::new();
    let mut command = [0; MAX_LINE_BYTES];
    let mut output = ShellOutput::new();
    editor.input_for_command(b"first\r", &mut command, &mut output);
    editor.input_for_command(b"second\r", &mut command, &mut output);
    output = ShellOutput::new();
    editor.input_for_command(b"\x1b[A", &mut command, &mut output);
    assert!(output.as_bytes().windows(6).any(|window| window == b"second"));
    output = ShellOutput::new();
    editor.input_for_command(b"\x1b[B", &mut command, &mut output);
    assert!(output.as_bytes().windows(5).any(|window| window == b"logos"));
}

#[test]
fn command_output_is_followed_by_a_prompt() {
    let service = SessionService::new();
    let mut output = ShellOutput::new();
    service.command_output(b"ok\r\n", &mut output);
    assert_eq!(output.as_bytes(), b"ok\r\n\x1b[36mlogos\x1b[0m \x1b[33m>\x1b[0m ");
}

#[test]
fn command_output_reserves_newline_and_prompt() {
    let service = SessionService::new();
    let mut output = ShellOutput::new();
    service.command_output(&[b'x'; MAX_OUTPUT_BYTES], &mut output);
    assert!(output.as_bytes().ends_with(PROMPT));
    assert!(output.as_bytes().windows(2).any(|window| window == b"\r\n"));
}

#[test]
fn line_editor_highlights_command_names_and_strings() {
    let mut editor = LineEditor::new();
    let mut command = [0; MAX_LINE_BYTES];
    let mut output = ShellOutput::new();
    editor.input_for_command(b"echo(\"hi\")", &mut command, &mut output);
    assert!(output.as_bytes().windows(COMMAND_COLOR.len()).any(|window| window == COMMAND_COLOR));
    assert!(output.as_bytes().windows(STRING_COLOR.len()).any(|window| window == STRING_COLOR));
}

#[test]
fn line_editor_supports_cursor_editing_and_controls() {
    let mut editor = LineEditor::new();
    let mut command = [0; MAX_LINE_BYTES];
    let mut output = ShellOutput::new();
    editor.input_for_command(b"ac\x1b[Db\r", &mut command, &mut output);
    assert_eq!(&command[..3], b"abc");

    output = ShellOutput::new();
    let length = editor.input_for_command(b"hello world\x17\r", &mut command, &mut output).unwrap();
    assert_eq!(&command[..length], b"hello ");
}

#[test]
fn word_navigation_and_home_end_are_bounded() {
    let mut editor = LineEditor::new();
    let mut command = [0; MAX_LINE_BYTES];
    let mut output = ShellOutput::new();
    editor.input_for_command(b"one two three", &mut command, &mut output);
    assert_eq!(editor.cursor(), 13);

    editor.input_for_command(b"\x1b[1;5D", &mut command, &mut output);
    assert_eq!(editor.cursor(), 8);
    editor.input_for_command(b"\x1b[1;5D", &mut command, &mut output);
    assert_eq!(editor.cursor(), 4);
    editor.input_for_command(b"\x1b[1;5C", &mut command, &mut output);
    assert_eq!(editor.cursor(), 7);

    editor.input_for_command(b"\x1b[H", &mut command, &mut output);
    assert_eq!(editor.cursor(), 0);
    editor.input_for_command(b"\x1b[F", &mut command, &mut output);
    assert_eq!(editor.cursor(), 13);
}

#[test]
fn ctrl_delete_removes_the_forward_word() {
    let mut editor = LineEditor::new();
    let mut command = [0; MAX_LINE_BYTES];
    let mut output = ShellOutput::new();
    editor.input_for_command(b"one two three\x1b[H\x1b[3;5~\r", &mut command, &mut output);
    assert_eq!(&command[..10], b" two three");
}

#[test]
fn line_editor_preserves_utf8_and_edits_by_character() {
    let mut editor = LineEditor::new();
    let mut command = [0; MAX_LINE_BYTES];
    let mut output = ShellOutput::new();
    let length = editor.input_for_command(b"echo \xc3\xa9\r", &mut command, &mut output).unwrap();
    assert_eq!(&command[..length], b"echo \xc3\xa9");

    editor.input_for_command(b"\xc3\xa9", &mut command, &mut output);
    let length = editor.input_for_command(b"\x7f\r", &mut command, &mut output).unwrap();
    assert_eq!(length, 0);
}

#[test]
fn line_editor_rejects_utf8_that_would_exceed_byte_limit() {
    let mut editor = LineEditor::new();
    let mut command = [0; MAX_LINE_BYTES];
    let mut output = ShellOutput::new();
    let prefix = [b'a'; MAX_LINE_BYTES - 1];
    editor.input_for_command(&prefix, &mut command, &mut output);
    let length = editor.input_for_command(b"\xc3\xa9\r", &mut command, &mut output).unwrap();
    assert_eq!(length, MAX_LINE_BYTES - 1);
    assert_eq!(&command[..length], &prefix);
}

#[test]
fn proactive_completion_requests_follow_line_edits() {
    let mut editor = LineEditor::new();
    let mut command = [0; MAX_LINE_BYTES];
    let mut output = ShellOutput::new();

    editor.input_for_command(b"he", &mut command, &mut output);
    let first = editor.take_completion_request().unwrap();
    assert_eq!(first.line(), Some(b"he".to_vec()));

    editor.input_for_command(b"l", &mut command, &mut output);
    let second = editor.take_completion_request().unwrap();
    assert_ne!(second.request_id, first.request_id);
    assert_ne!(second.line_revision, first.line_revision);
    assert_eq!(second.line(), Some(b"hel".to_vec()));

    editor.input_for_command(b"p\r", &mut command, &mut output);
    assert!(editor.take_completion_request().is_none());
}

#[test]
fn targeted_completion_renders_ghost_and_accepts_with_tab() {
    let mut editor = LineEditor::new();
    let mut command = [0; MAX_LINE_BYTES];
    let mut output = ShellOutput::new();
    editor.input_for_command(b"he\t", &mut command, &mut output);
    let request = editor.take_completion_request().unwrap();
    let mut response = CompletionResponse::empty(request.request_id, CompletionStatus::Found);
    response.line_revision = request.line_revision;
    response.replace_end = 2;
    assert!(response.push_candidate(b"help()"));
    editor.apply_completion_response(response, &mut output);
    assert!(output.as_bytes().windows(DIM_COLOR.len()).any(|window| window == DIM_COLOR));
    assert!(!output.as_bytes().windows(4).any(|window| window == b"\x1b[1B"));

    output = ShellOutput::new();
    editor.input_for_command(b"\t\r", &mut command, &mut output);
    assert_eq!(&command[..6], b"help()");
}

#[test]
fn completion_accepts_string_argument_with_inner_cursor() {
    let mut editor = LineEditor::new();
    let mut command = [0; MAX_LINE_BYTES];
    let mut output = ShellOutput::new();
    editor.input_for_command(b"echo", &mut command, &mut output);
    let request = editor.take_completion_request().unwrap();
    let mut response = CompletionResponse::empty(request.request_id, CompletionStatus::Found);
    response.line_revision = request.line_revision;
    response.replace_end = 4;
    assert!(response.push_candidate_with_cursor(b"echo(\"\")", 6));
    editor.apply_completion_response(response, &mut output);
    editor.input_for_command(b"\t", &mut command, &mut output);
    assert_eq!(editor.line(), b"echo(\"\")");
    assert_eq!(editor.cursor(), 6);
}

#[test]
fn completion_accepts_multi_argument_helper_in_first_slot() {
    let mut editor = LineEditor::new();
    let mut command = [0; MAX_LINE_BYTES];
    let mut output = ShellOutput::new();
    editor.input_for_command(b"write", &mut command, &mut output);
    let request = editor.take_completion_request().unwrap();
    let mut response = CompletionResponse::empty(request.request_id, CompletionStatus::Found);
    response.line_revision = request.line_revision;
    response.replace_end = 5;
    assert!(response.push_candidate_with_cursor(b"write(\"\", \"\")", 7));
    editor.apply_completion_response(response, &mut output);
    editor.input_for_command(b"\t", &mut command, &mut output);
    assert_eq!(editor.line(), b"write(\"\", \"\")");
    assert_eq!(editor.cursor(), 7);
}

#[test]
fn targeted_completion_navigates_and_dismisses() {
    let mut editor = LineEditor::new();
    let mut command = [0; MAX_LINE_BYTES];
    let mut output = ShellOutput::new();
    editor.input_for_command(b"net.", &mut command, &mut output);
    editor.input_for_command(b"\t", &mut command, &mut output);
    let request = editor.take_completion_request().unwrap();
    let mut response = CompletionResponse::empty(request.request_id, CompletionStatus::Found);
    response.line_revision = request.line_revision;
    response.replace_start = 4;
    response.replace_end = 4;
    assert!(response.push_candidate(b"status"));
    assert!(response.push_candidate(b"ping()"));
    editor.apply_completion_response(response, &mut output);
    editor.input_for_command(b"\x1b[B\t", &mut command, &mut output);
    assert_eq!(editor.line(), b"net.ping()");

    editor.input_for_command(b"\t", &mut command, &mut output);
    let request = editor.take_completion_request().unwrap();
    let mut response = CompletionResponse::empty(request.request_id, CompletionStatus::Found);
    response.line_revision = request.line_revision;
    response.replace_start = 10;
    response.replace_end = 10;
    assert!(response.push_candidate(b"status"));
    editor.apply_completion_response(response, &mut output);
    editor.input_for_command(b"\x1b", &mut command, &mut output);
    assert_eq!(editor.line(), b"net.ping()");
}

#[test]
fn completion_failure_disables_provider_after_one_diagnostic() {
    let mut editor = LineEditor::new();
    let mut command = [0; MAX_LINE_BYTES];
    let mut output = ShellOutput::new();
    editor.input_for_command(b"he\t", &mut command, &mut output);
    let request = editor.take_completion_request().unwrap();
    let mut response = CompletionResponse::empty(request.request_id, CompletionStatus::Unavailable);
    response.line_revision = request.line_revision;
    editor.apply_completion_response(response, &mut output);
    assert!(output
        .as_bytes()
        .windows(b"completion unavailable".len())
        .any(|window| window == b"completion unavailable"));
    output = ShellOutput::new();
    editor.input_for_command(b"\t", &mut command, &mut output);
    assert!(editor.take_completion_request().is_none());
}

// ----- further cases -----

#[test]
fn redraw_writes_prompt_highlighted_line_and_cursor_move() {
    let mut editor = LineEditor::new_with_completion(false);
    let mut command = [0; MAX_LINE_BYTES];
    let mut output = ShellOutput::new();
    editor.input_for_command(b"ab\x1b[D", &mut command, &mut output);
    output = ShellOutput::new();
    editor.input_for_command(b"x", &mut command, &mut output);
    let mut expected = b"\r".to_vec();
    expected.extend_from_slice(PROMPT);
    expected.extend_from_slice(b"\x1b[36maxb\x1b[0m");
    expected.extend_from_slice(b"\x1b[0m\x1b[K\x1b[1D");
    assert_eq!(output.as_bytes(), &expected[..]);
}

#[test]
fn history_keeps_the_newest_entries() {
    let mut editor = LineEditor::new_with_completion(false);
    let mut command = [0; MAX_LINE_BYTES];
    let mut output = ShellOutput::new();
    for index in 0..10u8 {
        editor.input_for_command(&[b'a' + index, b'\r'], &mut command, &mut output);
    }
    for _ in 0..20 {
        editor.input_for_command(b"\x1b[A", &mut command, &mut output);
    }
    assert_eq!(editor.line(), b"c");
    editor.input_for_command(b"\x1b[B", &mut command, &mut output);
    assert_eq!(editor.line(), b"d");
}

#[test]
fn backspace_at_start_and_delete_at_end_do_nothing() {
    let mut editor = LineEditor::new_with_completion(false);
    let mut command = [0; MAX_LINE_BYTES];
    let mut output = ShellOutput::new();
    editor.input_for_command(b"\x7f\x1b[3~", &mut command, &mut output);
    assert_eq!(editor.line(), b"");
    editor.input_for_command(b"ab\x1b[3~\x0b\x01\x1b[3~", &mut command, &mut output);
    assert_eq!(editor.line(), b"b");
    assert_eq!(editor.cursor(), 0);
    editor.input_for_command(b"\x05c\x15", &mut command, &mut output);
    assert_eq!(editor.line(), b"");
}

#[test]
fn bytes_after_enter_are_left_unread() {
    let mut editor = LineEditor::new_with_completion(false);
    let mut command = [b'z'; MAX_LINE_BYTES];
    let mut output = ShellOutput::new();
    assert_eq!(editor.input_for_command(b"ls\rrest", &mut command, &mut output), Some(2));
    assert_eq!(&command[..3], b"lsz");
    assert_eq!(editor.line(), b"");
}

#[test]
fn command_output_adds_missing_line_end() {
    let service = SessionService::new();
    let mut output = ShellOutput::new();
    service.command_output(b"done", &mut output);
    let mut expected = b"done\r\n".to_vec();
    expected.extend_from_slice(PROMPT);
    assert_eq!(output.as_bytes(), &expected[..]);
    let mut output = ShellOutput::new();
    service.command_output(b"cr\r", &mut output);
    let mut expected = b"cr\r\n".to_vec();
    expected.extend_from_slice(PROMPT);
    assert_eq!(output.as_bytes(), &expected[..]);
}

#[test]
fn completion_times_out_after_silence() {
    let mut service = SessionService::new();
    let mut command = [0; MAX_LINE_BYTES];
    let mut output = ShellOutput::new();
    service.input_for_command(b"he", &mut command, &mut output);
    assert!(service.take_completion_request().is_some());
    assert!(service.completion_pending());
    output = ShellOutput::new();
    for _ in 0..31 {
        service.completion_tick(&mut output);
    }
    assert!(service.completion_pending());
    service.completion_tick(&mut output);
    assert!(!service.completion_pending());
    assert!(contains(output.as_bytes(), b"completion unavailable"));
}

#[test]
fn stale_completion_response_is_ignored() {
    let mut editor = LineEditor::new();
    let mut command = [0; MAX_LINE_BYTES];
    let mut output = ShellOutput::new();
    editor.input_for_command(b"he", &mut command, &mut output);
    let request = editor.take_completion_request().unwrap();
    let mut response =
        CompletionResponse::empty(request.request_id.wrapping_add(7), CompletionStatus::Found);
    response.line_revision = request.line_revision;
    assert!(response.push_candidate(b"help()"));
    output = ShellOutput::new();
    editor.apply_completion_response(response, &mut output);
    assert!(output.as_bytes().is_empty());
    assert!(editor.completion_pending());
}
