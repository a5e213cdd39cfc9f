use vt100::attrs::Color;
use vt100::grid::Pos;
use vt100::term::Attrs;
use vt100::term::ClearScreen;
use vt100::term::EraseChar;
use vt100::term::HideCursor;
use vt100::term::MoveRight;
use vt100::term::MoveTo;
use vt100::term::CRLF;

fn sgr(a: Attrs) -> Vec<u8> {
    let mut buf = Vec::new();
    a.write_buf(&mut buf);
    buf
}

#[test]
fn clear_screen_bytes() {
    let mut buf = Vec::new();
    ClearScreen::new().write_buf(&mut buf);
    assert_eq!(buf, b"\x1b[H\x1b[J");
    ClearScreen::default().write_buf(&mut buf);
    assert_eq!(buf, b"\x1b[H\x1b[J\x1b[H\x1b[J");
}

#[test]
fn crlf_bytes() {
    let mut buf = vec![b'x'];
    CRLF::new().write_buf(&mut buf);
    assert_eq!(buf, b"x\r\n");
}

#[test]
fn move_to_home_uses_short_form() {
    let mut buf = Vec::new();
    MoveTo::new(Pos { row: 0, col: 0 }).write_buf(&mut buf);
    assert_eq!(buf, b"\x1b[H");
    let mut buf = Vec::new();
    MoveTo::default().write_buf(&mut buf);
    assert_eq!(buf, b"\x1b[H");
}

#[test]
fn move_to_counts_from_one() {
    let mut buf = Vec::new();
    MoveTo::new(Pos { row: 4, col: 9 }).write_buf(&mut buf);
    assert_eq!(buf, b"\x1b[5;10H");
    let mut buf = Vec::new();
    MoveTo::new(Pos { row: 0, col: 1 }).write_buf(&mut buf);
    assert_eq!(buf, b"\x1b[1;2H");
    let mut buf = Vec::new();
    MoveTo::new(Pos { row: 65535, col: 65535 }).write_buf(&mut buf);
    assert_eq!(buf, b"\x1b[65536;65536H");
}

#[test]
fn move_right_forms() {
    let mut buf = Vec::new();
    MoveRight::new(0).write_buf(&mut buf);
    assert_eq!(buf, b"");
    MoveRight::new(1).write_buf(&mut buf);
    assert_eq!(buf, b"\x1b[C");
    let mut buf = Vec::new();
    MoveRight::default().write_buf(&mut buf);
    assert_eq!(buf, b"\x1b[C");
    let mut buf = Vec::new();
    MoveRight::new(12).write_buf(&mut buf);
    assert_eq!(buf, b"\x1b[12C");
}

#[test]
fn erase_char_forms() {
    let mut buf = Vec::new();
    EraseChar::new(0).write_buf(&mut buf);
    assert_eq!(buf, b"");
    EraseChar::default().write_buf(&mut buf);
    assert_eq!(buf, b"\x1b[X");
    let mut buf = Vec::new();
    EraseChar::new(300).write_buf(&mut buf);
    assert_eq!(buf, b"\x1b[300X");
}

#[test]
fn hide_cursor_bytes() {
    let mut buf = Vec::new();
    HideCursor::new(true).write_buf(&mut buf);
    assert_eq!(buf, b"\x1b[?25l");
    let mut buf = Vec::new();
    HideCursor::new(false).write_buf(&mut buf);
    assert_eq!(buf, b"\x1b[?25h");
    let mut buf = Vec::new();
    HideCursor::default().write_buf(&mut buf);
    assert_eq!(buf, b"\x1b[?25h");
}

#[test]
fn attrs_without_fields_writes_nothing() {
    assert_eq!(sgr(Attrs::new()), b"");
    assert_eq!(sgr(Attrs::default()), b"");
    let mut buf = vec![b'x'];
    Attrs::new().write_buf(&mut buf);
    assert_eq!(buf, b"x");
}

#[test]
fn attrs_foreground_forms() {
    assert_eq!(sgr(Attrs::new().fgcolor(Color::Default)), b"\x1b[39m");
    assert_eq!(sgr(Attrs::new().fgcolor(Color::Idx(0))), b"\x1b[30m");
    assert_eq!(sgr(Attrs::new().fgcolor(Color::Idx(7))), b"\x1b[37m");
    assert_eq!(sgr(Attrs::new().fgcolor(Color::Idx(8))), b"\x1b[90m");
    assert_eq!(sgr(Attrs::new().fgcolor(Color::Idx(15))), b"\x1b[97m");
    assert_eq!(sgr(Attrs::new().fgcolor(Color::Idx(16))), b"\x1b[38;5;16m");
    assert_eq!(sgr(Attrs::new().fgcolor(Color::Idx(255))), b"\x1b[38;5;255m");
    assert_eq!(sgr(Attrs::new().fgcolor(Color::Rgb(1, 20, 255))), b"\x1b[38;2;1;20;255m");
}

#[test]
fn attrs_background_forms() {
    assert_eq!(sgr(Attrs::new().bgcolor(Color::Default)), b"\x1b[49m");
    assert_eq!(sgr(Attrs::new().bgcolor(Color::Idx(0))), b"\x1b[40m");
    assert_eq!(sgr(Attrs::new().bgcolor(Color::Idx(7))), b"\x1b[47m");
    assert_eq!(sgr(Attrs::new().bgcolor(Color::Idx(8))), b"\x1b[100m");
    assert_eq!(sgr(Attrs::new().bgcolor(Color::Idx(15))), b"\x1b[107m");
    assert_eq!(sgr(Attrs::new().bgcolor(Color::Idx(16))), b"\x1b[48;5;16m");
    assert_eq!(sgr(Attrs::new().bgcolor(Color::Rgb(0, 0, 0))), b"\x1b[48;2;0;0;0m");
}

#[test]
fn attrs_text_modes() {
    assert_eq!(sgr(Attrs::new().bold(true)), b"\x1b[1m");
    assert_eq!(sgr(Attrs::new().bold(false)), b"\x1b[22m");
    assert_eq!(sgr(Attrs::new().italic(true)), b"\x1b[3m");
    assert_eq!(sgr(Attrs::new().italic(false)), b"\x1b[23m");
    assert_eq!(sgr(Attrs::new().underline(true)), b"\x1b[4m");
    assert_eq!(sgr(Attrs::new().underline(false)), b"\x1b[24m");
    assert_eq!(sgr(Attrs::new().inverse(true)), b"\x1b[7m");
    assert_eq!(sgr(Attrs::new().inverse(false)), b"\x1b[27m");
}

#[test]
fn attrs_fields_come_in_fixed_order() {
    let a = Attrs::new()
        .inverse(true)
        .underline(false)
        .italic(true)
        .bold(true)
        .bgcolor(Color::Idx(200))
        .fgcolor(Color::Idx(1));
    assert_eq!(sgr(a), b"\x1b[31;48;5;200;1;3;24;7m");
}
