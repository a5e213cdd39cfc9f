use vt100::parser::Parser;
use vt100::screen::Screen;

fn row_text(screen: &Screen, row: u16) -> String {
    let (_, cols) = screen.size();
    let mut s = String::new();
    for col in 0..cols {
        let cell = screen.cell(row, col).unwrap();
        if cell.is_wide_continuation() {
            continue;
        }
        let text = cell.contents();
        if text.is_empty() {
            s.push(' ');
        } else {
            s.push_str(&text);
        }
    }
    s.trim_end().to_string()
}

#[test]
fn shrinking_rows_with_cursor_at_bottom_moves_top_rows_into_history() {
    let mut parser = Parser::new(3, 4, 10);
    parser.process(b"ab\r\ncd\r\nef");
    parser.set_size(2, 4);
    let screen = parser.screen();
    assert_eq!(screen.size(), (2, 4));
    assert_eq!(row_text(screen, 0), "cd");
    assert_eq!(row_text(screen, 1), "ef");
    assert_eq!(screen.cursor_position(), (1, 2));
    assert_eq!(screen.grid().scrollback_rows(), 1);
}

#[test]
fn growing_rows_brings_rows_back_from_history() {
    let mut parser = Parser::new(3, 4, 10);
    parser.process(b"ab\r\ncd\r\nef");
    parser.set_size(2, 4);
    parser.set_size(3, 4);
    let screen = parser.screen();
    assert_eq!(screen.size(), (3, 4));
    assert_eq!(row_text(screen, 0), "ab");
    assert_eq!(row_text(screen, 1), "cd");
    assert_eq!(row_text(screen, 2), "ef");
    assert_eq!(screen.cursor_position(), (2, 2));
    assert_eq!(screen.grid().scrollback_rows(), 0);
    parser.set_size(4, 4);
    let screen = parser.screen();
    assert_eq!(screen.size(), (4, 4));
    assert_eq!(row_text(screen, 0), "ab");
    assert_eq!(row_text(screen, 3), "");
    assert_eq!(screen.cursor_position(), (2, 2));
}

#[test]
fn shrinking_rows_with_cursor_at_top_cuts_bottom_rows() {
    let mut parser = Parser::new(3, 4, 10);
    parser.process(b"ab\r\ncd\r\nef\x1b[H");
    parser.set_size(2, 4);
    let screen = parser.screen();
    assert_eq!(row_text(screen, 0), "ab");
    assert_eq!(row_text(screen, 1), "cd");
    assert_eq!(screen.cursor_position(), (0, 0));
    assert_eq!(screen.grid().scrollback_rows(), 0);
}

#[test]
fn shrinking_without_history_drops_the_rows() {
    let mut parser = Parser::new(3, 4, 0);
    parser.process(b"ab\r\ncd\r\nef");
    parser.set_size(1, 4);
    let screen = parser.screen();
    assert_eq!(screen.size(), (1, 4));
    assert_eq!(row_text(screen, 0), "ef");
    assert_eq!(screen.cursor_position(), (0, 2));
    assert_eq!(screen.grid().scrollback_rows(), 0);
}

#[test]
fn changing_columns_truncates_and_pads() {
    let mut parser = Parser::new(1, 6, 0);
    parser.process(b"abcdef");
    assert!(parser.screen().grid().pending_wrap());
    parser.set_size(1, 4);
    assert_eq!(parser.screen().size(), (1, 4));
    assert_eq!(row_text(parser.screen(), 0), "abcd");
    assert_eq!(parser.screen().cursor_position(), (0, 3));
    assert!(!parser.screen().grid().pending_wrap());
    parser.set_size(1, 6);
    assert_eq!(row_text(parser.screen(), 0), "abcd");
    assert!(!parser.screen().cell(0, 4).unwrap().has_contents());
    assert!(!parser.screen().cell(0, 5).unwrap().has_contents());
}

#[test]
fn wide_character_cut_in_two_is_erased() {
    let mut parser = Parser::new(1, 6, 0);
    parser.process("ab\u{4e2d}c".as_bytes());
    parser.set_size(1, 3);
    let screen = parser.screen();
    assert_eq!(row_text(screen, 0), "ab");
    assert!(!screen.cell(0, 2).unwrap().has_contents());
    assert!(!screen.cell(0, 2).unwrap().is_wide());
}

#[test]
fn wrapped_flag_is_dropped_when_width_changes() {
    let mut parser = Parser::new(2, 3, 0);
    parser.process(b"abcd");
    assert!(parser.screen().row_wrapped(0));
    parser.set_size(2, 3);
    assert!(parser.screen().row_wrapped(0));
    parser.set_size(2, 5);
    assert!(!parser.screen().row_wrapped(0));
}

#[test]
fn degenerate_sizes_are_clamped() {
    let mut parser = Parser::new(3, 4, 0);
    parser.process(b"ab");
    parser.set_size(0, 0);
    assert_eq!(parser.screen().size(), (1, 2));
    assert_eq!(row_text(parser.screen(), 0), "ab");
    assert_eq!(parser.screen().cursor_position(), (0, 1));
}

#[test]
fn resize_keeps_screen_usable() {
    let mut parser = Parser::new(3, 4, 2);
    parser.process(b"\x1b[2;3r\x1b[?1049h");
    parser.set_size(5, 7);
    parser.process(b"\x1b[5;7Hx\x1b[?1049l\x1b[5;1Hyz");
    assert_eq!(parser.screen().size(), (5, 7));
    assert_eq!(row_text(parser.screen(), 4), "yz");
    let (rows, cols) = parser.screen().size();
    for row in 0..rows {
        for col in 0..cols {
            let cont = parser.screen().cell(row, col).unwrap().is_wide_continuation();
            let prev_wide = col > 0 && parser.screen().cell(row, col - 1).unwrap().is_wide();
            assert_eq!(cont, prev_wide);
        }
    }
}
