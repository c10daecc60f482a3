use logos::input_abi::{InputMessage, KeyCode, KeyState};
use logos::render_abi::MAX_COLUMNS;
use logos::terminal::{MOD_ALT, MOD_CTRL, MOD_SHIFT};
use logos::terminal_model::{DEFAULT_BACKGROUND, DEFAULT_FOREGROUND, DEFAULT_ROWS};
use logos::terminal_state::{Terminal, TerminalService};

const ANSI_RED: u32 = 0x00ff_6b6b;

fn drain(terminal: &mut Terminal) -> usize {
    let mut count = 0;
    while terminal.next_render().is_some() {
        count += 1;
    }
    count
}

#[test]
fn text_and_scroll_are_bounded() {
    let mut terminal = Terminal::new();
    drain(&mut terminal);
    terminal.feed(b"hello\nworld");
    assert!(drain(&mut terminal) > 0);
    terminal.feed(b"\x1b[2J");
    assert!(drain(&mut terminal) > 0);
}

#[test]
fn utf8_text_decodes_to_one_terminal_cell() {
    let mut terminal = Terminal::new();
    terminal.feed(b"\xc3\xa9");
    assert_eq!(terminal.screen_cell(0).unwrap().codepoint, 0xe9);
    assert_eq!(terminal.cursor(), (1, 0));
}

#[test]
fn cursor_and_erase_are_bounded() {
    let mut terminal = Terminal::new();
    terminal.feed(b"\x1b[2;4Hx\x1b[2K");
    assert_eq!(terminal.cursor(), (4, 1));
    assert!(drain(&mut terminal) > 0);
}

#[test]
fn ansi_sgr_applies_theme_colors_to_cells() {
    let mut terminal = Terminal::new();
    drain(&mut terminal);
    terminal.feed(b"\x1b[31mred\x1b[0m");
    assert_eq!(terminal.screen_cell(0).unwrap().foreground, ANSI_RED);
    assert_eq!(terminal.screen_cell(3).unwrap().foreground, DEFAULT_FOREGROUND);
    assert_eq!(terminal.screen_cell(0).unwrap().background, DEFAULT_BACKGROUND);
}

#[test]
fn page_navigation_uses_bounded_scrollback() {
    let mut terminal = Terminal::new();
    for _ in 0..(DEFAULT_ROWS + 2) {
        terminal.feed(b"x\n");
    }
    drain(&mut terminal);
    let event = InputMessage::key(KeyCode::PageUp, KeyState::Pressed, 0);
    assert!(terminal.input(&event).is_none());
    assert!(terminal.view_offset() > 0);
    assert!(drain(&mut terminal) > 0);
    let event = InputMessage::key(KeyCode::PageUp, KeyState::Repeat, 0);
    assert!(terminal.input(&event).is_none());
    let event = InputMessage::key(KeyCode::PageDown, KeyState::Pressed, 0);
    assert!(terminal.input(&event).is_none());
    assert_eq!(terminal.view_offset(), 0);
}

#[test]
fn semantic_input_is_small_and_stable() {
    let mut terminal = Terminal::new();
    let event = InputMessage::key(KeyCode::Up, KeyState::Pressed, 0);
    assert_eq!(terminal.input(&event), Some(b"\x1b[A".to_vec()));
}

#[test]
fn ctrl_arrows_use_word_navigation_sequences() {
    let mut terminal = Terminal::new();
    let left = InputMessage::key(KeyCode::Left, KeyState::Pressed, MOD_CTRL);
    assert_eq!(terminal.input(&left), Some(b"\x1b[1;5D".to_vec()));
    let right = InputMessage::key(KeyCode::Right, KeyState::Pressed, MOD_CTRL);
    assert_eq!(terminal.input(&right), Some(b"\x1b[1;5C".to_vec()));
    let home = InputMessage::key(KeyCode::Home, KeyState::Pressed, 0);
    assert_eq!(terminal.input(&home), Some(b"\x1b[H".to_vec()));
    let end = InputMessage::key(KeyCode::End, KeyState::Pressed, 0);
    assert_eq!(terminal.input(&end), Some(b"\x1b[F".to_vec()));
}

#[test]
fn render_is_chunked() {
    let mut terminal = Terminal::new();
    assert!(drain(&mut terminal) > 1);
    assert!(terminal.next_render().is_none());
}

#[test]
fn render_positions_use_display_stride() {
    let mut terminal = Terminal::new();
    let mut saw_second_row = false;
    while let Some(message) = terminal.next_render() {
        for index in 0..message.count as usize {
            if message.positions[index] == MAX_COLUMNS as u16 {
                saw_second_row = true;
            }
        }
    }
    assert!(saw_second_row);
}

// ----- further cases -----

#[test]
fn a_fresh_screen_renders_in_sixteen_messages() {
    let mut terminal = Terminal::new();
    let mut sizes = Vec::new();
    while let Some(message) = terminal.next_render() {
        sizes.push(message.count);
    }
    assert_eq!(sizes.len(), 16);
    assert!(sizes[..15].iter().all(|count| *count == 128));
    assert_eq!(sizes[15], 80);
}

#[test]
fn one_changed_cell_renders_alone() {
    let mut terminal = Terminal::new();
    drain(&mut terminal);
    terminal.feed(b"\x1b[3;5Hz");
    let message = terminal.next_render().unwrap();
    assert_eq!(message.count, 1);
    assert_eq!(message.positions[0], 2 * MAX_COLUMNS as u16 + 4);
    assert_eq!(message.cells[0].codepoint, b'z' as u32);
    assert_eq!(message.cursor_column, 5);
    assert_eq!(message.cursor_row, 2);
    assert!(terminal.next_render().is_none());
}

#[test]
fn paging_shows_scrolled_lines() {
    let mut terminal = Terminal::new();
    terminal.feed(b"first\n");
    for _ in 0..DEFAULT_ROWS {
        terminal.feed(b"\n");
    }
    drain(&mut terminal);
    terminal.input(&InputMessage::key(KeyCode::PageUp, KeyState::Pressed, 0));
    assert_eq!(terminal.view_offset(), 2);
    let message = terminal.next_render().unwrap();
    assert_eq!(message.positions[0], 0);
    assert_eq!(message.cells[0].codepoint, b'f' as u32);
    terminal.feed(b"");
    assert_eq!(terminal.view_offset(), 0);
}

#[test]
fn invalid_utf8_becomes_replacement_characters() {
    let mut terminal = Terminal::new();
    terminal.feed(b"\xc3A\xff\xed\xa0\x80");
    assert_eq!(terminal.screen_cell(0).unwrap().codepoint, 0xfffd);
    assert_eq!(terminal.screen_cell(1).unwrap().codepoint, b'A' as u32);
    assert_eq!(terminal.screen_cell(2).unwrap().codepoint, 0xfffd);
    assert_eq!(terminal.screen_cell(3).unwrap().codepoint, 0xfffd);
    assert_eq!(terminal.cursor(), (4, 0));
}

#[test]
fn tabs_backspace_and_wrap_move_the_cursor() {
    let mut terminal = Terminal::new();
    terminal.feed(b"ab\tc\x08");
    assert_eq!(terminal.cursor(), (8, 0));
    terminal.feed(b"\x1b[1;80Hxy");
    assert_eq!(terminal.cursor(), (1, 1));
    assert_eq!(terminal.screen_cell(80).unwrap().codepoint, b'y' as u32);
}

#[test]
fn erase_and_reset_blank_the_screen() {
    let mut terminal = Terminal::new();
    terminal.feed(b"abcdef\x1b[1;3H\x1b[1K");
    assert_eq!(terminal.screen_cell(2).unwrap().codepoint, b' ' as u32);
    assert_eq!(terminal.screen_cell(3).unwrap().codepoint, b'd' as u32);
    terminal.feed(b"\x1b[1;90mX\x1bc");
    assert_eq!(terminal.cursor(), (0, 0));
    assert_eq!(terminal.screen_cell(3).unwrap().codepoint, b' ' as u32);
    terminal.feed(b"Y");
    assert_eq!(terminal.screen_cell(0).unwrap().foreground, DEFAULT_FOREGROUND);
    assert_eq!(terminal.screen_cell(0).unwrap().attributes, 0);
}

#[test]
fn sgr_attributes_and_bright_colours() {
    let mut terminal = Terminal::new();
    terminal.feed(b"\x1b[1;4;92;104mA\x1b[22mB");
    let a = terminal.screen_cell(0).unwrap();
    assert_eq!(a.attributes, 1 | 4);
    assert_eq!(a.foreground, 0x00a5_d6a7);
    assert_eq!(a.background, 0x0079_c0ff);
    assert_eq!(terminal.screen_cell(1).unwrap().attributes, 4);
}

#[test]
fn keys_with_modifiers_become_bytes() {
    let mut service = TerminalService::new();
    let ctrl_c = InputMessage::key(KeyCode::Character(b'c'), KeyState::Pressed, MOD_CTRL);
    assert_eq!(service.input(&ctrl_c), Some(vec![0x03]));
    let alt_x = InputMessage::key(KeyCode::Character(b'x'), KeyState::Pressed, MOD_ALT | MOD_SHIFT);
    assert_eq!(service.input(&alt_x), Some(vec![0x1b, b'X']));
    let plain = InputMessage::key(KeyCode::Character(b'x'), KeyState::Pressed, 0);
    assert_eq!(service.input(&plain), None);
    let released = InputMessage::key(KeyCode::Enter, KeyState::Released, 0);
    assert_eq!(service.input(&released), None);
    let delete = InputMessage::key(KeyCode::Delete, KeyState::Repeat, 0);
    assert_eq!(service.input(&delete), Some(b"\x1b[3~".to_vec()));
    let text = InputMessage::text("héllo".as_bytes(), true);
    assert_eq!(service.input(&text), Some("héllo".as_bytes().to_vec()));
    service.session_output_bytes(b"ok");
    assert!(service.next_render().is_some());
}
