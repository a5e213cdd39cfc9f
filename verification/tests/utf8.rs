use vt100::attrs::Attrs;
use vt100::cell::Cell;
use vt100::utf8::write_char;
use vt100::width::char_width;

#[test]
fn write_char_matches_utf8() {
    let samples = [
        '\0', 'a', '\u{7f}', '\u{80}', '\u{e9}', '\u{7ff}', '\u{800}', '\u{4e2d}', '\u{d7ff}',
        '\u{e000}', '\u{ffff}', '\u{10000}', '\u{1f600}', '\u{10ffff}',
    ];
    for c in samples {
        let mut buf = Vec::new();
        write_char(&mut buf, c);
        assert_eq!(buf, c.to_string().as_bytes(), "{:?}", c);
    }
}

#[test]
fn write_char_exact_bytes() {
    let mut buf = vec![b'>'];
    write_char(&mut buf, '\u{e9}');
    write_char(&mut buf, '\u{4e2d}');
    write_char(&mut buf, '\u{1f600}');
    assert_eq!(buf, b">\xc3\xa9\xe4\xb8\xad\xf0\x9f\x98\x80");
}

#[test]
fn cell_contents_are_written_as_utf8() {
    let mut cell = Cell::default();
    let mut buf = Vec::new();
    cell.write_contents(&mut buf);
    assert_eq!(buf, b"");
    cell.set('e', Attrs::default());
    cell.append('\u{301}');
    cell.write_contents(&mut buf);
    assert_eq!(buf, "e\u{301}".as_bytes());
    assert_eq!(String::from_utf8(buf).unwrap(), cell.contents());
}

#[test]
fn char_width_of_samples() {
    assert_eq!(char_width(' '), 1);
    assert_eq!(char_width('a'), 1);
    assert_eq!(char_width('~'), 1);
    assert_eq!(char_width('\u{e9}'), 1);
    assert_eq!(char_width('\u{4e2d}'), 2);
    assert_eq!(char_width('\u{1f600}'), 2);
    assert_eq!(char_width('\u{301}'), 0);
    assert_eq!(char_width('\u{7}'), 0);
    assert_eq!(char_width('\u{7f}'), 0);
    assert_eq!(char_width('\u{85}'), 0);
}
