use vt100::parser::Parser;
use vt100::screen::Screen;

fn same_display(a: &Screen, b: &Screen) -> bool {
    if a.size() != b.size() {
        return false;
    }
    let (rows, cols) = a.size();
    for row in 0..rows {
        if a.row_wrapped(row) != b.row_wrapped(row) {
            return false;
        }
        for col in 0..cols {
            if a.cell(row, col).unwrap() != b.cell(row, col).unwrap() {
                return false;
            }
        }
    }
    a.cursor_position() == b.cursor_position()
        && a.grid().pending_wrap() == b.grid().pending_wrap()
        && a.hide_cursor() == b.hide_cursor()
        && a.attrs() == b.attrs()
        && a.modes() == b.modes()
        && a.title() == b.title()
        && a.bell_count() == b.bell_count()
}

fn explain(a: &Screen, b: &Screen) -> String {
    let (rows, cols) = a.size();
    let mut s = String::new();
    for row in 0..rows {
        if a.row_wrapped(row) != b.row_wrapped(row) {
            s.push_str(&format!("row {} wrapped {} vs {}\n", row, a.row_wrapped(row), b.row_wrapped(row)));
        }
        for col in 0..cols {
            let x = a.cell(row, col).unwrap();
            let y = b.cell(row, col).unwrap();
            if x != y {
                s.push_str(&format!("cell {},{}: {:?} vs {:?}\n", row, col, x, y));
            }
        }
    }
    s.push_str(&format!(
        "cursor {:?}/{} vs {:?}/{}; attrs {:?} vs {:?}; bells {} vs {}",
        a.cursor_position(),
        a.grid().pending_wrap(),
        b.cursor_position(),
        b.grid().pending_wrap(),
        a.attrs(),
        b.attrs(),
        a.bell_count(),
        b.bell_count()
    ));
    s
}

fn check_full(base: &Screen, empty: &Screen) {
    let (rows, cols) = base.size();
    let mut full = Parser::new(rows, cols, 0);
    full.process(&base.state_formatted());
    full.process(&base.bells_diff(empty));
    assert!(same_display(full.screen(), base), "full: {}", explain(base, full.screen()));
    assert_eq!(full.screen().state_formatted(), base.state_formatted());
}

fn check_diff_empty(base: &Screen, empty: &Screen) {
    let (rows, cols) = base.size();
    let mut diff = Parser::new(rows, cols, 0);
    diff.process(&base.state_diff(empty));
    diff.process(&base.bells_diff(empty));
    assert!(same_display(diff.screen(), base), "diff from empty: {}", explain(base, diff.screen()));
}

fn check_rows(base: &Screen, empty: &Screen) {
    let (rows, cols) = base.size();
    let mut replay = Parser::new(rows, cols, 0);
    let mut wrapped = false;
    for (idx, row) in base.rows_formatted(0, cols).iter().enumerate() {
        replay.process(b"\x1b[m");
        if !wrapped {
            replay.process(format!("\x1b[{}H", idx + 1).as_bytes());
        }
        replay.process(row);
        wrapped = base.row_wrapped(idx as u16);
    }
    replay.process(&base.cursor_state_formatted());
    replay.process(&base.attributes_formatted());
    replay.process(&base.input_mode_formatted());
    replay.process(&base.title_formatted());
    replay.process(&base.bells_diff(empty));
    assert!(same_display(replay.screen(), base), "rows: {}", explain(base, replay.screen()));
}

fn check_stream(rows: u16, cols: u16, stream: &[u8]) {
    let mut base = Parser::new(rows, cols, 5);
    let mut tracker = Parser::new(rows, cols, 0);
    let empty = Parser::new(rows, cols, 0).screen().clone();
    let mut prev = base.screen().clone();
    for (i, byte) in stream.iter().enumerate() {
        base.process(&[*byte]);
        check_full(base.screen(), &empty);
        check_diff_empty(base.screen(), &empty);
        tracker.process(&base.screen().state_diff(&prev));
        tracker.process(&base.screen().bells_diff(&prev));
        assert!(
            same_display(tracker.screen(), base.screen()),
            "incremental diff at byte {}: {}",
            i,
            explain(base.screen(), tracker.screen())
        );
        check_rows(base.screen(), &empty);
        prev = base.screen().clone();
    }
}

#[test]
fn round_trip_plain_text() {
    check_stream(4, 10, b"hello\r\nworld, this is a long line that wraps around\r\n\r\nx");
}

#[test]
fn round_trip_attributes() {
    check_stream(
        3,
        12,
        b"\x1b[1;31mHi\x1b[0m \x1b[44mblue\x1b[K\x1b[m\r\n\x1b[38;5;200;48;2;1;2;3;3;4;7mfancy\x1b[22;27m!",
    );
}

#[test]
fn round_trip_wide_and_combining() {
    check_stream(
        3,
        6,
        "a\u{4e2d}b\u{4e2d}\u{4e2d}e\u{301}\u{302}xx\u{4e2d}\u{301}y\u{4e2d}\u{4e2d}\u{4e2d}".as_bytes(),
    );
}

#[test]
fn round_trip_wrap_then_edit() {
    check_stream(
        4,
        5,
        b"abcdefgh\x1b[1;5H\x1b[X\x1b[2;1H\x1b[K\x1b[1;1Hxyz\x1b[1;5Hq\x1b[4;5Hlast!more\x1b[1;4H\x1b[K",
    );
}

#[test]
fn round_trip_pending_wrap_at_corner() {
    check_stream(2, 4, "abcdefgh\x1b[1;4Hz\u{301}\x1b[2;3H\u{4e2d}".as_bytes());
}

#[test]
fn round_trip_scroll_regions_and_modes() {
    check_stream(
        5,
        8,
        b"1\r\n2\r\n3\r\n4\r\n5\x1b[2;4r\x1b[?6h\x1b[3;1Hx\n\n\ny\x1bM\x1bM\x1bM\x1bM\x1b[r\x1b[?6l\x1b[S\x1b[2T\x1b=\x1b[?1;2004;1000;1002;1003;1005;1006h\x1b[?25l\x1b[?1002l\x1b>",
    );
}

#[test]
fn round_trip_alternate_screen_title_and_bells() {
    check_stream(
        3,
        6,
        b"main\x07\x1b]2;a title\x07\x1b[?1049halt\x07\x07\x1b[1m\x1b]0;\xc3\xa9t\xc3\xa9\x1b\\\x1b[?1049l!\x1b7\x1b[3;3H\x1b[m\x1b8?\x1bc\x07z",
    );
}

#[test]
fn round_trip_pseudo_random_streams() {
    let pieces: [&[u8]; 40] = [
        b"a", b"b", b"xyz", b" ", "\u{4e2d}".as_bytes(), "\u{301}".as_bytes(), "\u{e9}".as_bytes(),
        b"\r", b"\n", b"\r\n", b"\x08", b"\t", b"\x07", b"\x1b[H", b"\x1b[2;3H", b"\x1b[3;6H",
        b"\x1b[A", b"\x1b[B", b"\x1b[C", b"\x1b[D", b"\x1b[K", b"\x1b[1K", b"\x1b[2K", b"\x1b[J",
        b"\x1b[1J", b"\x1b[2J", b"\x1b[X", b"\x1b[3X", b"\x1b[S", b"\x1b[T", b"\x1b[1m", b"\x1b[41m",
        b"\x1b[m", b"\x1b[38;5;100m", b"\x1b[2;3r", b"\x1b[r", b"\x1bM", b"\x1b[?1049h",
        b"\x1b[?1049l", b"\x1b[6G",
    ];
    let mut seed: u32 = 12345;
    for round in 0..12 {
        let mut stream: Vec<u8> = Vec::new();
        for _ in 0..60 {
            seed = seed.wrapping_mul(1664525).wrapping_add(1013904223);
            let pick = ((seed >> 16) as usize) % pieces.len();
            stream.extend_from_slice(pieces[pick]);
        }
        let (rows, cols) = if round % 2 == 0 { (3, 6) } else { (4, 5) };
        check_stream(rows, cols, &stream);
    }
}

#[test]
fn bells_diff_counts_additional_bells() {
    let mut parser = Parser::default();
    let empty = parser.screen().clone();
    parser.process(b"\x07");
    assert_eq!(parser.screen().bells_diff(&empty), b"\x07");
    let one = parser.screen().clone();
    parser.process(b"\x07\x07\x07");
    assert_eq!(parser.screen().bells_diff(&one), b"\x07\x07\x07");
    assert_eq!(parser.screen().bells_diff(&empty), b"\x07\x07\x07\x07");
    assert_eq!(one.bells_diff(parser.screen()), b"");
    assert_eq!(one.bells_diff(&one), b"");
}

#[test]
fn component_formatters_concrete_bytes() {
    let mut parser = Parser::new(2, 4, 0);
    parser.process(b"\x1b[1;31m\x1b]2;t\x07\x1b[?25l\x1b[2;3H\x1b=");
    let screen = parser.screen();
    assert_eq!(screen.cursor_state_formatted(), b"\x1b[?25l\x1b[2;3H");
    assert_eq!(screen.attributes_formatted(), b"\x1b[31;49;1;23;24;27m");
    assert_eq!(screen.title_formatted(), b"\x1b]2;t\x07");
    assert_eq!(
        screen.input_mode_formatted(),
        b"\x1b=\x1b[?1l\x1b[?2004l\x1b[?1000l\x1b[?1002l\x1b[?1003l\x1b[?1005l\x1b[?1006l"
    );
}

#[test]
fn contents_formatted_concrete_bytes() {
    let mut parser = Parser::new(2, 4, 0);
    parser.process(b"a\x1b[1mb");
    assert_eq!(parser.screen().contents_formatted(), b"\x1b[H\x1b[Ja\x1b[1mb\x1b[22m\x1b[K\r\n\x1b[K");
    assert_eq!(parser.screen().row_formatted(0, 0, 4), b"a\x1b[1mb\x1b[22m\x1b[K");
    assert_eq!(parser.screen().row_formatted(0, 1, 2), b"\x1b[1mb\x1b[22m\x1b[X\x1b[C");
    assert_eq!(parser.screen().row_formatted(1, 0, 4), b"\x1b[K");
    assert_eq!(parser.screen().row_formatted(2, 0, 4), b"");
    assert_eq!(parser.screen().row_formatted(0, 4, 4), b"");
    assert_eq!(parser.screen().row_formatted(0, 0, 0), b"");
}

#[test]
fn wrapped_row_is_formatted_with_a_wrap() {
    let mut parser = Parser::new(2, 3, 0);
    parser.process(b"abcd");
    assert_eq!(parser.screen().row_formatted(0, 0, 3), b"abc \x1b[2;1H");
    assert_eq!(
        parser.screen().contents_formatted(),
        b"\x1b[H\x1b[Jabc \x1b[2;1Hd\x1b[K"
    );
}

#[test]
fn state_diff_skips_rows_that_are_equal() {
    let mut parser = Parser::new(3, 4, 0);
    parser.process(b"ab\r\ncd\r\nef");
    let prev = parser.screen().clone();
    assert_eq!(parser.screen().state_diff(&prev), b"");
    parser.process(b"\x1b[2;1Hx");
    assert_eq!(parser.screen().state_diff(&prev), b"\x1b[2;1Hxd\x1b[K\x1b[2;2H");
    let prev = parser.screen().clone();
    parser.process(b"\x1b[1m");
    assert_eq!(parser.screen().state_diff(&prev), b"\x1b[1m");
    let prev = parser.screen().clone();
    parser.process(b"\x1b[?25l\x1b]2;x\x07\x1b[?2004h");
    assert_eq!(parser.screen().state_diff(&prev), b"\x1b[?25l\x1b[?2004h\x1b]2;x\x07");
}

#[test]
fn state_diff_of_other_size_is_full_state() {
    let mut parser = Parser::new(3, 4, 0);
    parser.process(b"ab");
    let other = Parser::new(3, 5, 0);
    assert_eq!(parser.screen().state_diff(other.screen()), parser.screen().state_formatted());
}

#[test]
fn formatting_is_restartable() {
    let mut parser = Parser::new(3, 6, 0);
    parser.process("a\u{4e2d}\x1b[44m   \x1b[mz".as_bytes());
    let first = parser.screen().rows_formatted(0, 6);
    let second = parser.screen().rows_formatted(0, 6);
    assert_eq!(first, second);
    assert_eq!(first.len(), 3);
    assert_eq!(first[0], parser.screen().row_formatted(0, 0, 6));
}

#[test]
fn empty_attribute_change_leaves_attributes_alone_on_replay() {
    let mut parser = Parser::default();
    parser.process(b"\x1b[1;31;44m");
    let before = parser.screen().attrs();
    let mut buf = Vec::new();
    vt100::term::Attrs::new().write_buf(&mut buf);
    parser.process(&buf);
    assert_eq!(parser.screen().attrs(), before);
    assert!(before.bold);
    let mut buf = Vec::new();
    vt100::term::Attrs::new().italic(true).write_buf(&mut buf);
    parser.process(&buf);
    let after = parser.screen().attrs();
    assert!(after.italic);
    assert!(after.bold);
    assert_eq!(after.fgcolor, before.fgcolor);
    assert_eq!(after.bgcolor, before.bgcolor);
}
