use logos::boot_resources::PixelFormat;
use logos::display::{Display, DisplayError, Glyph, GlyphTable, GLYPH_HEIGHT};
use logos::render_abi::{MessageKind, RenderMessage, MAX_COLUMNS};
use logos::terminal_state::Terminal;

#[test]
fn display_applies_terminal_diffs_and_rejects_stale_pages() {
    let mut terminal = Terminal::new();
    let mut display = Display::new(7);
    while let Some(message) = terminal.next_render() {
        display.apply(7, &message).unwrap();
    }
    assert_eq!(display.size(), (80, 25));
    terminal.feed(b"A");
    while let Some(message) = terminal.next_render() {
        display.apply(7, &message).unwrap();
    }
    assert_eq!(display.cell(0, 0).unwrap().codepoint, b'A' as u32);
    assert_eq!(
        display.apply(6, &RenderMessage::empty(MessageKind::RenderCells)),
        Err(DisplayError::StaleGeneration)
    );
}

#[test]
fn malformed_render_is_atomic() {
    let mut display = Display::new(7);
    let mut valid = RenderMessage::empty(MessageKind::RenderCells);
    valid.columns = 80;
    valid.rows = 25;
    valid.count = 1;
    valid.positions[0] = 0;
    valid.cells[0].codepoint = b'A' as u32;
    display.apply(7, &valid).unwrap();
    let applied = display.applied_cells();

    let mut invalid = RenderMessage::empty(MessageKind::FullRedraw);
    invalid.columns = 80;
    invalid.rows = 25;
    invalid.count = 2;
    invalid.positions[0] = 0;
    invalid.positions[1] = (25 * MAX_COLUMNS) as u16;
    invalid.cells[0].codepoint = b'X' as u32;

    assert_eq!(display.apply(7, &invalid), Err(DisplayError::InvalidMessage));
    assert_eq!(display.cell(0, 0).unwrap().codepoint, b'A' as u32);
    assert_eq!(display.applied_cells(), applied);
}

#[test]
fn stale_generations_and_other_kinds_are_refused() {
    let mut display = Display::new(3);
    assert_eq!(
        display.apply(2, &RenderMessage::empty(MessageKind::RenderCells)),
        Err(DisplayError::StaleGeneration)
    );
    assert_eq!(
        display.apply(3, &RenderMessage::empty(MessageKind::Input)),
        Err(DisplayError::InvalidMessage)
    );
    assert_eq!(
        display.apply(3, &RenderMessage::empty(MessageKind::RenderCells)),
        Err(DisplayError::InvalidMessage)
    );
    display.replace_generation(4);
    assert_eq!(display.generation(), 4);
    assert_eq!(display.applied_cells(), 0);
}

#[test]
fn cursor_is_clamped_and_full_redraw_blanks() {
    let mut display = Display::new(1);
    let mut message = RenderMessage::empty(MessageKind::RenderCells);
    message.columns = 10;
    message.rows = 5;
    message.cursor_column = 30;
    message.cursor_row = 2;
    message.count = 2;
    message.positions[0] = (MAX_COLUMNS + 3) as u16;
    message.cells[0].codepoint = b'q' as u32;
    message.positions[1] = (MAX_COLUMNS + 3) as u16;
    message.cells[1].codepoint = b'z' as u32;
    display.apply(1, &message).unwrap();
    assert_eq!(display.size(), (10, 5));
    assert_eq!(display.cursor(), (9, 2));
    assert_eq!(display.cell(3, 1).unwrap().codepoint, b'z' as u32);
    assert!(display.cell(10, 1).is_none());
    let mut redraw = RenderMessage::empty(MessageKind::FullRedraw);
    redraw.columns = 10;
    redraw.rows = 5;
    display.apply(1, &redraw).unwrap();
    assert_eq!(display.cell(3, 1).unwrap().codepoint, 0);
    assert_eq!(display.applied_cells(), 2);
}

fn font() -> GlyphTable {
    let mut ell = [0u8; GLYPH_HEIGHT];
    for row in ell.iter_mut().skip(2).take(12) {
        *row = 0x10;
    }
    GlyphTable { glyphs: vec![Glyph { codepoint: b'l' as u32, rows: ell }, Glyph { codepoint: b' ' as u32, rows: [0; GLYPH_HEIGHT] }], replacement: [0xff; GLYPH_HEIGHT] }
}

#[test]
fn dirty_cells_rasterize_once_with_gop_pixel_order() {
    let mut terminal = Terminal::new();
    let mut display = Display::new(7);
    while let Some(message) = terminal.next_render() {
        display.apply(7, &message).unwrap();
    }
    terminal.feed(b"l");
    while let Some(message) = terminal.next_render() {
        display.apply(7, &message).unwrap();
    }
    let mut font = font();
    let mut framebuffer = std::vec![0u8; 640 * 400 * 4];
    assert_eq!(
        display.render(&mut framebuffer, 640, 400, 640 * 4, PixelFormat::Bgr8, &mut font).unwrap(),
        80 * 25
    );
    assert_eq!(
        display.render(&mut framebuffer, 640, 400, 640 * 4, PixelFormat::Bgr8, &mut font).unwrap(),
        0
    );
    assert!(framebuffer.iter().any(|byte| *byte != 0));
}

#[test]
fn rendering_draws_glyph_pixels_in_the_named_byte_order() {
    let mut display = Display::new(1);
    let mut message = RenderMessage::empty(MessageKind::RenderCells);
    message.columns = 2;
    message.rows = 1;
    message.count = 1;
    message.positions[0] = 1;
    message.cells[0].codepoint = b'l' as u32;
    message.cells[0].foreground = 0x00112233;
    message.cells[0].background = 0x00445566;
    display.apply(1, &message).unwrap();
    let font = font();
    let stride = 16 * 4 + 8;
    let mut framebuffer = vec![0xeeu8; stride * 16 + 4];
    assert_eq!(display.render(&mut framebuffer, 16, 16, 60, PixelFormat::Rgb8, &font), Err(DisplayError::InvalidFramebuffer));
    assert_eq!(display.render(&mut framebuffer, 16, 16, stride, PixelFormat::Rgb8, &font), Ok(2));
    // Cell 1, glyph row 2, pixel 3 is set (0x10 is the fourth pixel from the left).
    let set = 2 * stride + (8 + 3) * 4;
    assert_eq!(&framebuffer[set..set + 4], &[0x11, 0x22, 0x33, 0]);
    let clear = 2 * stride + (8 + 2) * 4;
    assert_eq!(&framebuffer[clear..clear + 4], &[0x44, 0x55, 0x66, 0]);
    // Bytes past the page's pixels in each line stay as they were.
    assert_eq!(framebuffer[16 * 4], 0xee);
    assert_eq!(framebuffer[stride * 16], 0xee);
    assert_eq!(display.render(&mut framebuffer, 16, 16, stride, PixelFormat::Bgr8, &font), Ok(0));
    display.replace_generation(2);
    assert_eq!(display.render(&mut framebuffer, 16, 16, stride, PixelFormat::Bgr8, &font), Ok(2));
    assert_eq!(&framebuffer[set..set + 4], &[0, 0, 0, 0]);
}
