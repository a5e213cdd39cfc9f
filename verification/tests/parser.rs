use vt100::attrs::Attrs;
use vt100::attrs::Color;
use vt100::parser::Parser;
use vt100::screen::Screen;

fn row_text(screen: &Screen, row: u16) -> String {
    let (_, cols) = screen.size();
    let mut s = String::new();
    for col in 0..cols {
        let cell = screen.cell(row, col).unwrap();
        if cell.is_wide_continuation() {
            continue;
        }
        let text = cell.contents();
        if text.is_empty() {
            s.push(' ');
        } else {
            s.push_str(&text);
        }
    }
    s.trim_end().to_string()
}

#[test]
fn bold_red_text_scenario() {
    let mut parser = Parser::default();
    parser.process(b"\x1b[1;31mHi\x1b[0m");
    let screen = parser.screen();
    assert_eq!(screen.size(), (24, 80));
    let h = screen.cell(0, 0).unwrap();
    let i = screen.cell(0, 1).unwrap();
    assert_eq!(h.contents(), "H");
    assert_eq!(i.contents(), "i");
    for cell in [h, i] {
        assert_eq!(cell.fgcolor(), Color::Idx(1));
        assert_eq!(cell.bgcolor(), Color::Default);
        assert!(cell.bold());
        assert!(!cell.italic());
        assert!(!cell.underline());
        assert!(!cell.inverse());
    }
    for col in 2..80 {
        let cell = screen.cell(0, col).unwrap();
        assert!(!cell.has_contents());
        assert_eq!(cell.contents(), "");
        assert_eq!(*cell.attrs(), Attrs::default());
    }
    assert_eq!(screen.cursor_position(), (0, 2));
    assert_eq!(screen.attrs(), Attrs::default());
}

#[test]
fn bell_counts_and_writes_nothing() {
    let mut parser = Parser::default();
    assert_eq!(parser.screen().bell_count(), 0);
    parser.process(b"\x07");
    assert_eq!(parser.screen().bell_count(), 1);
    assert_eq!(parser.screen().cursor_position(), (0, 0));
    for row in 0..24 {
        for col in 0..80 {
            assert!(!parser.screen().cell(row, col).unwrap().has_contents());
        }
    }
    parser.process(b"\x07\x07");
    assert_eq!(parser.screen().bell_count(), 3);
}

#[test]
fn new_clamps_degenerate_sizes() {
    let parser = Parser::new(0, 0, 0);
    assert_eq!(parser.screen().size(), (1, 2));
    let parser = Parser::new(3, 1, 0);
    assert_eq!(parser.screen().size(), (3, 2));
}

#[test]
fn text_advances_and_wraps() {
    let mut parser = Parser::new(3, 4, 0);
    parser.process(b"abcd");
    assert_eq!(parser.screen().cursor_position(), (0, 3));
    assert!(!parser.screen().row_wrapped(0));
    parser.process(b"e");
    assert_eq!(parser.screen().cursor_position(), (1, 1));
    assert!(parser.screen().row_wrapped(0));
    assert_eq!(row_text(parser.screen(), 0), "abcd");
    assert_eq!(row_text(parser.screen(), 1), "e");
}

#[test]
fn wrap_at_bottom_scrolls_into_history() {
    let mut parser = Parser::new(2, 3, 10);
    parser.process(b"abcdefg");
    assert_eq!(row_text(parser.screen(), 0), "def");
    assert_eq!(row_text(parser.screen(), 1), "g");
    assert!(parser.screen().row_wrapped(0));
    assert!(!parser.screen().row_wrapped(1));
    assert_eq!(parser.screen().grid().scrollback_rows(), 1);
    assert_eq!(parser.screen().cursor_position(), (1, 1));
}

#[test]
fn wide_character_takes_two_cells() {
    let mut parser = Parser::new(2, 5, 0);
    parser.process("a\u{4e2d}b".as_bytes());
    let screen = parser.screen();
    assert_eq!(screen.cell(0, 0).unwrap().contents(), "a");
    assert!(screen.cell(0, 1).unwrap().is_wide());
    assert_eq!(screen.cell(0, 1).unwrap().contents(), "\u{4e2d}");
    assert!(screen.cell(0, 2).unwrap().is_wide_continuation());
    assert_eq!(screen.cell(0, 2).unwrap().contents(), "");
    assert_eq!(screen.cell(0, 3).unwrap().contents(), "b");
    assert_eq!(screen.cursor_position(), (0, 4));
}

#[test]
fn wide_character_is_not_split_between_rows() {
    let mut parser = Parser::new(2, 4, 0);
    parser.process("abc\u{4e2d}".as_bytes());
    let screen = parser.screen();
    assert_eq!(row_text(screen, 0), "abc");
    assert!(!screen.cell(0, 3).unwrap().has_contents());
    assert!(screen.row_wrapped(0));
    assert!(screen.cell(1, 0).unwrap().is_wide());
    assert!(screen.cell(1, 1).unwrap().is_wide_continuation());
    assert_eq!(screen.cursor_position(), (1, 2));
}

#[test]
fn overwriting_half_of_a_wide_character_erases_it() {
    let mut parser = Parser::new(1, 6, 0);
    parser.process("\u{4e2d}\u{4e2d}".as_bytes());
    parser.process(b"\x1b[1;2Hx");
    let screen = parser.screen();
    assert!(!screen.cell(0, 0).unwrap().has_contents());
    assert_eq!(screen.cell(0, 1).unwrap().contents(), "x");
    assert!(!screen.cell(0, 1).unwrap().is_wide_continuation());
    assert!(screen.cell(0, 2).unwrap().is_wide());
    assert!(screen.cell(0, 3).unwrap().is_wide_continuation());
    for row in 0..1 {
        for col in 0..6u16 {
            let cont = screen.cell(row, col).unwrap().is_wide_continuation();
            let prev_wide = col > 0 && screen.cell(row, col - 1).unwrap().is_wide();
            assert_eq!(cont, prev_wide);
        }
    }
}

#[test]
fn combining_mark_joins_previous_cell() {
    let mut parser = Parser::new(2, 4, 0);
    parser.process("e\u{301}x".as_bytes());
    let screen = parser.screen();
    assert_eq!(screen.cell(0, 0).unwrap().contents(), "e\u{301}");
    assert_eq!(screen.cell(0, 1).unwrap().contents(), "x");
    assert_eq!(screen.cursor_position(), (0, 2));
}

#[test]
fn combining_mark_without_a_cell_is_dropped() {
    let mut parser = Parser::new(2, 4, 0);
    parser.process("\u{301}".as_bytes());
    assert!(!parser.screen().cell(0, 0).unwrap().has_contents());
    assert_eq!(parser.screen().cursor_position(), (0, 0));
}

#[test]
fn utf8_may_be_split_between_calls() {
    let mut parser = Parser::new(1, 4, 0);
    let bytes = "\u{4e2d}".as_bytes();
    parser.process(&bytes[..1]);
    parser.process(&bytes[1..2]);
    parser.process(&bytes[2..]);
    assert_eq!(parser.screen().cell(0, 0).unwrap().contents(), "\u{4e2d}");
}

#[test]
fn control_sequence_may_be_split_between_calls() {
    let mut parser = Parser::default();
    parser.process(b"\x1b");
    parser.process(b"[");
    parser.process(b"1");
    parser.process(b"0;2");
    parser.process(b"0");
    parser.process(b"H");
    assert_eq!(parser.screen().cursor_position(), (9, 19));
}

#[test]
fn invalid_utf8_is_skipped() {
    let mut parser = Parser::new(1, 8, 0);
    parser.process(b"a\xffb\xc3(c\xe4\xb8d\xc0\x80e\xed\xa0\x80f");
    assert_eq!(row_text(parser.screen(), 0), "ab(cdef");
}

#[test]
fn unknown_sequences_are_absorbed() {
    let mut parser = Parser::new(2, 10, 0);
    parser.process(b"a\x1b[5zb\x1b[?9999hc\x1b(Bd\x1bPq#0;2\x1b\\e\x1b[1;2;3 qf\x1b[>0cg");
    assert_eq!(row_text(parser.screen(), 0), "abcdefg");
    assert_eq!(parser.screen().cursor_position(), (0, 7));
}

#[test]
fn cursor_movement_is_clamped() {
    let mut parser = Parser::new(5, 10, 0);
    parser.process(b"\x1b[99;99H");
    assert_eq!(parser.screen().cursor_position(), (4, 9));
    parser.process(b"\x1b[A\x1b[3D");
    assert_eq!(parser.screen().cursor_position(), (3, 6));
    parser.process(b"\x1b[100A\x1b[100D");
    assert_eq!(parser.screen().cursor_position(), (0, 0));
    parser.process(b"\x1b[2B\x1b[4C");
    assert_eq!(parser.screen().cursor_position(), (2, 4));
    parser.process(b"\x1b[100B\x1b[100C");
    assert_eq!(parser.screen().cursor_position(), (4, 9));
    parser.process(b"\x1b[3G");
    assert_eq!(parser.screen().cursor_position(), (4, 2));
    parser.process(b"\x1b[2d");
    assert_eq!(parser.screen().cursor_position(), (1, 2));
    parser.process(b"\x1b[H");
    assert_eq!(parser.screen().cursor_position(), (0, 0));
    parser.process(b"\x1b[;4H");
    assert_eq!(parser.screen().cursor_position(), (0, 3));
    parser.process(b"\x1b[3;f");
    assert_eq!(parser.screen().cursor_position(), (2, 0));
}

#[test]
fn control_characters_move_the_cursor() {
    let mut parser = Parser::new(3, 20, 0);
    parser.process(b"ab\x08");
    assert_eq!(parser.screen().cursor_position(), (0, 1));
    parser.process(b"\t");
    assert_eq!(parser.screen().cursor_position(), (0, 8));
    parser.process(b"\t\t\t");
    assert_eq!(parser.screen().cursor_position(), (0, 19));
    parser.process(b"\n");
    assert_eq!(parser.screen().cursor_position(), (1, 19));
    parser.process(b"\r");
    assert_eq!(parser.screen().cursor_position(), (1, 0));
    parser.process(b"\x0b\x0c");
    assert_eq!(parser.screen().cursor_position(), (2, 0));
    assert_eq!(row_text(parser.screen(), 0), "");
    assert_eq!(row_text(parser.screen(), 1), "");
    assert_eq!(row_text(parser.screen(), 2), "");
}

#[test]
fn line_feed_at_bottom_scrolls() {
    let mut parser = Parser::new(2, 4, 0);
    parser.process(b"ab\r\ncd\r\nef");
    assert_eq!(row_text(parser.screen(), 0), "cd");
    assert_eq!(row_text(parser.screen(), 1), "ef");
}

#[test]
fn erase_uses_current_attributes() {
    let mut parser = Parser::new(2, 6, 0);
    parser.process(b"abcdef\x1b[1;3H\x1b[44m\x1b[K");
    let screen = parser.screen();
    assert_eq!(row_text(screen, 0), "ab");
    for col in 2..6 {
        assert_eq!(screen.cell(0, col).unwrap().bgcolor(), Color::Idx(4));
        assert!(!screen.cell(0, col).unwrap().has_contents());
    }
    assert_eq!(screen.cell(0, 1).unwrap().bgcolor(), Color::Default);
}

#[test]
fn erase_in_line_modes() {
    let mut parser = Parser::new(1, 6, 0);
    parser.process(b"abcdef\x1b[1;3H\x1b[1K");
    assert_eq!(row_text(parser.screen(), 0), "   def");
    parser.process(b"\x1b[2K");
    assert_eq!(row_text(parser.screen(), 0), "");
    assert_eq!(parser.screen().cursor_position(), (0, 2));
}

#[test]
fn erase_in_display_modes() {
    let mut parser = Parser::new(3, 3, 0);
    parser.process(b"abc\r\ndef\r\nghi\x1b[2;2H\x1b[J");
    assert_eq!(row_text(parser.screen(), 0), "abc");
    assert_eq!(row_text(parser.screen(), 1), "d");
    assert_eq!(row_text(parser.screen(), 2), "");
    let mut parser = Parser::new(3, 3, 0);
    parser.process(b"abc\r\ndef\r\nghi\x1b[2;2H\x1b[1J");
    assert_eq!(row_text(parser.screen(), 0), "");
    assert_eq!(row_text(parser.screen(), 1), "  f");
    assert_eq!(row_text(parser.screen(), 2), "ghi");
    parser.process(b"\x1b[2J");
    assert_eq!(row_text(parser.screen(), 1), "");
    assert_eq!(row_text(parser.screen(), 2), "");
    assert_eq!(parser.screen().cursor_position(), (1, 1));
}

#[test]
fn erase_characters() {
    let mut parser = Parser::new(1, 6, 0);
    parser.process(b"abcdef\x1b[1;2H\x1b[2X");
    assert_eq!(row_text(parser.screen(), 0), "a  def");
    parser.process(b"\x1b[99X");
    assert_eq!(row_text(parser.screen(), 0), "a");
}

#[test]
fn scroll_region_confines_scrolling() {
    let mut parser = Parser::new(4, 2, 0);
    parser.process(b"a\r\nb\r\nc\r\nd");
    parser.process(b"\x1b[2;3r");
    assert_eq!(parser.screen().cursor_position(), (0, 0));
    parser.process(b"\x1b[S");
    assert_eq!(row_text(parser.screen(), 0), "a");
    assert_eq!(row_text(parser.screen(), 1), "c");
    assert_eq!(row_text(parser.screen(), 2), "");
    assert_eq!(row_text(parser.screen(), 3), "d");
    parser.process(b"\x1b[T");
    assert_eq!(row_text(parser.screen(), 1), "");
    assert_eq!(row_text(parser.screen(), 2), "c");
    parser.process(b"\x1b[3;1H\n");
    assert_eq!(row_text(parser.screen(), 1), "c");
    assert_eq!(row_text(parser.screen(), 2), "");
    assert_eq!(parser.screen().cursor_position(), (2, 0));
    parser.process(b"\x1b[2;1H\x1bM");
    assert_eq!(row_text(parser.screen(), 1), "");
    assert_eq!(row_text(parser.screen(), 2), "c");
}

#[test]
fn origin_mode_addresses_from_region_top() {
    let mut parser = Parser::new(6, 4, 0);
    parser.process(b"\x1b[3;5r\x1b[?6h");
    assert_eq!(parser.screen().cursor_position(), (2, 0));
    parser.process(b"\x1b[2;2H");
    assert_eq!(parser.screen().cursor_position(), (3, 1));
    parser.process(b"\x1b[9;1H");
    assert_eq!(parser.screen().cursor_position(), (4, 0));
    parser.process(b"\x1b[?6l");
    assert_eq!(parser.screen().cursor_position(), (0, 0));
}

#[test]
fn alternate_screen_keeps_primary_contents() {
    let mut parser = Parser::new(2, 4, 0);
    parser.process(b"ab");
    assert!(!parser.screen().alternate_screen());
    parser.process(b"\x1b[?1049h");
    assert!(parser.screen().alternate_screen());
    assert_eq!(row_text(parser.screen(), 0), "");
    assert_eq!(parser.screen().cursor_position(), (0, 0));
    parser.process(b"xy");
    assert_eq!(row_text(parser.screen(), 0), "xy");
    parser.process(b"\x1b[?1049l");
    assert!(!parser.screen().alternate_screen());
    assert_eq!(row_text(parser.screen(), 0), "ab");
    assert_eq!(parser.screen().cursor_position(), (0, 2));
    parser.process(b"\x1b[?47h");
    assert_eq!(row_text(parser.screen(), 0), "");
}

#[test]
fn modes_are_set_and_reset() {
    let mut parser = Parser::default();
    parser.process(b"\x1b=\x1b[?1h\x1b[?2004h\x1b[?1000;1006h\x1b[?25l");
    let m = parser.screen().modes();
    assert!(m.application_keypad);
    assert!(m.application_cursor);
    assert!(m.bracketed_paste);
    assert!(m.mouse_press_release);
    assert!(m.mouse_sgr);
    assert!(!m.mouse_button_motion);
    assert!(!m.mouse_any_motion);
    assert!(!m.mouse_utf8);
    assert!(parser.screen().hide_cursor());
    parser.process(b"\x1b>\x1b[?1l\x1b[?2004l\x1b[?1000l\x1b[?1006l\x1b[?25h\x1b[?1002h\x1b[?1003h\x1b[?1005h");
    let m = parser.screen().modes();
    assert!(!m.application_keypad);
    assert!(!m.application_cursor);
    assert!(!m.bracketed_paste);
    assert!(!m.mouse_press_release);
    assert!(!m.mouse_sgr);
    assert!(m.mouse_button_motion);
    assert!(m.mouse_any_motion);
    assert!(m.mouse_utf8);
    assert!(!parser.screen().hide_cursor());
}

#[test]
fn title_is_set_by_osc() {
    let mut parser = Parser::default();
    parser.process(b"\x1b]2;hello\x07");
    assert_eq!(parser.screen().title().as_slice(), b"hello");
    parser.process(b"\x1b]0;world\x1b\\");
    assert_eq!(parser.screen().title().as_slice(), b"world");
    parser.process(b"\x1b]1;icon\x07\x1b]52;c;abcd\x07");
    assert_eq!(parser.screen().title().as_slice(), b"world");
    parser.process(b"\x1b]2;\x07");
    assert_eq!(parser.screen().title().as_slice(), b"");
    assert_eq!(parser.screen().bell_count(), 0);
}

#[test]
fn attribute_forms_are_parsed() {
    let mut parser = Parser::default();
    parser.process(b"\x1b[38;5;200;48;2;1;2;3;1;3;4;7m");
    let a = parser.screen().attrs();
    assert_eq!(a.fgcolor, Color::Idx(200));
    assert_eq!(a.bgcolor, Color::Rgb(1, 2, 3));
    assert!(a.bold && a.italic && a.underline && a.inverse);
    parser.process(b"\x1b[22;23;24;27;39;49m");
    assert_eq!(parser.screen().attrs(), Attrs::default());
    parser.process(b"\x1b[97;100m");
    assert_eq!(parser.screen().attrs().fgcolor, Color::Idx(15));
    assert_eq!(parser.screen().attrs().bgcolor, Color::Idx(8));
    parser.process(b"\x1b[m");
    assert_eq!(parser.screen().attrs(), Attrs::default());
    parser.process(b"\x1b[1;38;5;999;4m");
    assert_eq!(parser.screen().attrs().fgcolor, Color::Default);
    assert!(parser.screen().attrs().bold);
    assert!(parser.screen().attrs().underline);
}

#[test]
fn save_and_restore_cursor() {
    let mut parser = Parser::new(5, 10, 0);
    parser.process(b"\x1b[3;4H\x1b[1m\x1b7\x1b[H\x1b[m\x1b8");
    assert_eq!(parser.screen().cursor_position(), (2, 3));
    assert!(parser.screen().attrs().bold);
}

#[test]
fn reset_keeps_size_and_bell_count() {
    let mut parser = Parser::new(5, 10, 0);
    parser.process(b"\x07abc\x1b[1m\x1b]2;t\x07\x1b[?1049h\x1bc");
    let screen = parser.screen();
    assert_eq!(screen.size(), (5, 10));
    assert_eq!(screen.bell_count(), 1);
    assert_eq!(screen.cursor_position(), (0, 0));
    assert_eq!(screen.attrs(), Attrs::default());
    assert_eq!(screen.title().as_slice(), b"");
    assert!(!screen.alternate_screen());
    assert_eq!(row_text(screen, 0), "");
}

#[test]
fn clone_is_independent() {
    let mut parser = Parser::new(2, 4, 0);
    parser.process(b"ab");
    let snapshot = parser.screen().clone();
    parser.process(b"cd\x1b[2J");
    assert_eq!(row_text(&snapshot, 0), "ab");
    assert_eq!(snapshot.cursor_position(), (0, 2));
    assert_eq!(row_text(parser.screen(), 0), "");
}
