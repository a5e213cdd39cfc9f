use vt100::attrs::Attrs;
use vt100::attrs::Color;
use vt100::cell::Cell;

fn red_bold() -> Attrs {
    Attrs {
        fgcolor: Color::Idx(1),
        bgcolor: Color::Default,
        bold: true,
        italic: false,
        underline: false,
        inverse: false,
    }
}

#[test]
fn default_cell_is_blank() {
    let cell = Cell::default();
    assert_eq!(cell.contents(), "");
    assert!(!cell.has_contents());
    assert!(!cell.is_wide());
    assert!(!cell.is_wide_continuation());
    assert_eq!(cell.fgcolor(), Color::Default);
    assert_eq!(cell.bgcolor(), Color::Default);
    assert!(!cell.bold());
    assert!(!cell.italic());
    assert!(!cell.underline());
    assert!(!cell.inverse());
}

#[test]
fn set_stores_character_and_attrs() {
    let mut cell = Cell::default();
    cell.set('H', red_bold());
    assert_eq!(cell.contents(), "H");
    assert!(cell.has_contents());
    assert!(!cell.is_wide());
    assert_eq!(cell.fgcolor(), Color::Idx(1));
    assert!(cell.bold());
    assert_eq!(*cell.attrs(), red_bold());
}

#[test]
fn set_flags_wide_characters() {
    let mut cell = Cell::default();
    cell.set('\u{4e2d}', Attrs::default());
    assert!(cell.is_wide());
    assert_eq!(cell.contents(), "\u{4e2d}");
    cell.set('a', Attrs::default());
    assert!(!cell.is_wide());
}

#[test]
fn set_resets_continuation_and_marks() {
    let mut cell = Cell::default();
    cell.set('e', Attrs::default());
    cell.append('\u{301}');
    cell.set_wide_continuation(true);
    cell.set('x', Attrs::default());
    assert_eq!(cell.contents(), "x");
    assert!(!cell.is_wide_continuation());
}

#[test]
fn append_adds_combining_marks() {
    let mut cell = Cell::default();
    cell.set('e', Attrs::default());
    cell.append('\u{301}');
    assert_eq!(cell.contents(), "e\u{301}");
}

#[test]
fn append_to_blank_cell_inserts_space() {
    let mut cell = Cell::default();
    cell.append('\u{301}');
    assert_eq!(cell.contents(), " \u{301}");
    assert!(cell.has_contents());
}

#[test]
fn append_beyond_capacity_is_dropped() {
    let mut cell = Cell::default();
    cell.set('a', Attrs::default());
    for _ in 0..5 {
        cell.append('\u{301}');
    }
    assert_eq!(cell.contents().chars().count(), 6);
    let before = cell;
    cell.append('\u{302}');
    assert!(cell == before);
    assert_eq!(cell.contents(), "a\u{301}\u{301}\u{301}\u{301}\u{301}");
}

#[test]
fn clear_empties_and_replaces_attrs() {
    let mut cell = Cell::default();
    cell.set('\u{4e2d}', Attrs::default());
    cell.clear(red_bold());
    assert_eq!(cell.contents(), "");
    assert!(!cell.has_contents());
    assert!(!cell.is_wide());
    assert_eq!(cell.fgcolor(), Color::Idx(1));
    assert!(cell.bold());
}

#[test]
fn continuation_cell_counts_as_occupied() {
    let mut cell = Cell::default();
    cell.set_wide_continuation(true);
    assert!(cell.is_wide_continuation());
    assert!(cell.has_contents());
    assert_eq!(cell.contents(), "");
    cell.set_wide_continuation(false);
    assert!(!cell.is_wide_continuation());
    assert!(!cell.has_contents());
}

#[test]
fn equality_ignores_stale_storage() {
    let mut a = Cell::default();
    a.set('a', Attrs::default());
    a.append('\u{301}');
    a.clear(Attrs::default());
    let b = Cell::default();
    assert!(a == b);
    a.set('q', Attrs::default());
    assert!(a != b);
    let mut c = Cell::default();
    c.set('q', red_bold());
    assert!(a != c);
    c.set('q', Attrs::default());
    assert!(a == c);
    c.set_wide_continuation(true);
    assert!(a != c);
}

#[test]
fn set_with_width_flags_by_the_given_width() {
    let mut cell = Cell::default();
    cell.set_wide_continuation(true);
    cell.set_with_width('x', 2, red_bold());
    assert_eq!(cell.contents(), "x");
    assert!(cell.is_wide());
    assert!(!cell.is_wide_continuation());
    assert_eq!(*cell.attrs(), red_bold());
    cell.set_with_width('x', 3, Attrs::default());
    assert!(cell.is_wide());
    cell.set_with_width('\u{4e2d}', 1, Attrs::default());
    assert!(!cell.is_wide());
    cell.set_with_width('y', 0, Attrs::default());
    assert!(!cell.is_wide());
    assert_eq!(cell.contents(), "y");
}

#[test]
fn contents_never_exceed_six_characters() {
    let mut cell = Cell::default();
    for _ in 0..20 {
        cell.append('\u{301}');
        assert!(cell.contents().chars().count() <= 6);
    }
    assert_eq!(cell.contents().chars().count(), 6);
}

#[test]
fn cells_are_eq() {
    fn needs_eq<T: Eq>(_: &T) {}
    needs_eq(&Cell::default());
}
