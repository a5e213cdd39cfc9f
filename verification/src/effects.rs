//! What each sequence that the library writes does to a screen.

use vstd::prelude::*;
use crate::attrs::Attrs;
use crate::attrs::Color;
use crate::format::attrs_change;
use crate::format::attrs_diff;
use crate::format::attrs_set;
use crate::format::clear_row_forward;
use crate::format::input_mode_numbers;
use crate::format::keypad_mode;
use crate::format::mode_diff;
use crate::format::modes_diff;
use crate::format::private_mode;
use crate::format::private_modes_diff;
use crate::grid::Pos;
use crate::parser::ParserView;
use crate::replay::clamped;
use crate::screen::Modes;
use crate::screen::ScreenView;
use crate::screen::is_title;
use crate::screen::sgr;
use crate::screen::sgr_one;
use crate::term::CRLF;
use crate::term::ClearScreen;
use crate::term::HideCursor;
use crate::term::MoveTo;
use crate::term::bg_params;
use crate::term::bg_part;
use crate::term::csi;
use crate::term::fg_params;
use crate::term::fg_part;
use crate::term::mode_param;
use crate::term::mode_part;
use crate::term::repeated;

verus! {

/// The parameters that select a foreground color set that color.
pub proof fn lemma_sgr_fg(attrs: Attrs, color: Color, rest: Seq<u16>)
    ensures
        sgr(attrs, clamped(fg_params(color)) + rest) == sgr(
            Attrs { fgcolor: color, ..attrs },
            rest,
        ),
{
    let head = clamped(fg_params(color));
    let all = head + rest;
    assert(all.skip(head.len() as int) =~= rest);
    assert(forall|k: int| 0 <= k < head.len() ==> all[k] == head[k]);
    reveal_with_fuel(sgr, 2);
}

/// The parameters that select a background color set that color.
pub proof fn lemma_sgr_bg(attrs: Attrs, color: Color, rest: Seq<u16>)
    ensures
        sgr(attrs, clamped(bg_params(color)) + rest) == sgr(
            Attrs { bgcolor: color, ..attrs },
            rest,
        ),
{
    let head = clamped(bg_params(color));
    let all = head + rest;
    assert(all.skip(head.len() as int) =~= rest);
    assert(forall|k: int| 0 <= k < head.len() ==> all[k] == head[k]);
    reveal_with_fuel(sgr, 2);
}

/// The parameter that switches a text mode.
pub proof fn lemma_sgr_mode(attrs: Attrs, value: bool, on: u32, off: u32, rest: Seq<u16>)
    requires
        on < 30,
        off < 30,
    ensures
        sgr(attrs, clamped(mode_param(value, on, off)) + rest) == sgr(
            sgr_one(
                attrs,
                if value {
                    on as u16
                } else {
                    off as u16
                },
            ),
            rest,
        ),
{
    let head = clamped(mode_param(value, on, off));
    let all = head + rest;
    assert(all.skip(1) =~= rest);
    assert(all[0] == head[0]);
    reveal_with_fuel(sgr, 2);
}

/// No parameter changes nothing.
pub proof fn lemma_sgr_none(attrs: Attrs)
    ensures
        sgr(attrs, Seq::empty()) == attrs,
{
    reveal_with_fuel(sgr, 1);
}

/// A foreground color that may be left alone.
pub proof fn lemma_sgr_fg_part(attrs: Attrs, color: Option<Color>, rest: Seq<u16>)
    ensures
        sgr(attrs, clamped(fg_part(color)) + rest) == sgr(
            Attrs {
                fgcolor: match color {
                    Some(c) => c,
                    None => attrs.fgcolor,
                },
                ..attrs
            },
            rest,
        ),
{
    match color {
        Some(c) => {
            lemma_sgr_fg(attrs, c, rest);
        },
        None => {
            assert(clamped(fg_part(color)) + rest =~= rest);
        },
    }
}

/// A background color that may be left alone.
pub proof fn lemma_sgr_bg_part(attrs: Attrs, color: Option<Color>, rest: Seq<u16>)
    ensures
        sgr(attrs, clamped(bg_part(color)) + rest) == sgr(
            Attrs {
                bgcolor: match color {
                    Some(c) => c,
                    None => attrs.bgcolor,
                },
                ..attrs
            },
            rest,
        ),
{
    match color {
        Some(c) => {
            lemma_sgr_bg(attrs, c, rest);
        },
        None => {
            assert(clamped(bg_part(color)) + rest =~= rest);
        },
    }
}

/// A text mode that may be left alone.
pub proof fn lemma_sgr_mode_part(attrs: Attrs, value: Option<bool>, on: u32, off: u32, rest: Seq<u16>)
    requires
        on < 30,
        off < 30,
    ensures
        sgr(attrs, clamped(mode_part(value, on, off)) + rest) == match value {
            Some(v) => sgr(
                sgr_one(
                    attrs,
                    if v {
                        on as u16
                    } else {
                        off as u16
                    },
                ),
                rest,
            ),
            None => sgr(attrs, rest),
        },
{
    match value {
        Some(v) => {
            lemma_sgr_mode(attrs, v, on, off, rest);
        },
        None => {
            assert(clamped(mode_part(value, on, off)) + rest =~= rest);
        },
    }
}

/// The attributes after the change `change` was made to `attrs`.
pub open spec fn changed(attrs: Attrs, change: crate::term::Attrs) -> Attrs {
    Attrs {
        fgcolor: match change.fgcolor {
            Some(c) => c,
            None => attrs.fgcolor,
        },
        bgcolor: match change.bgcolor {
            Some(c) => c,
            None => attrs.bgcolor,
        },
        bold: match change.bold {
            Some(v) => v,
            None => attrs.bold,
        },
        italic: match change.italic {
            Some(v) => v,
            None => attrs.italic,
        },
        underline: match change.underline {
            Some(v) => v,
            None => attrs.underline,
        },
        inverse: match change.inverse {
            Some(v) => v,
            None => attrs.inverse,
        },
    }
}

/// The parameters of a change, clamped, are the clamped parameters of its
/// fields one after the other.
pub proof fn lemma_change_params(change: crate::term::Attrs)
    ensures
        clamped(change.params()) == clamped(fg_part(change.fgcolor)) + (clamped(
            bg_part(change.bgcolor),
        ) + (clamped(mode_part(change.bold, 1, 22)) + (clamped(mode_part(change.italic, 3, 23))
            + (clamped(mode_part(change.underline, 4, 24)) + (clamped(
            mode_part(change.inverse, 7, 27),
        ) + Seq::<u16>::empty()))))),
        change.params().len() <= 14,
{
    let p_fg = fg_part(change.fgcolor);
    let p_bg = bg_part(change.bgcolor);
    let p_bold = mode_part(change.bold, 1, 22);
    let p_italic = mode_part(change.italic, 3, 23);
    let p_underline = mode_part(change.underline, 4, 24);
    let p_inverse = mode_part(change.inverse, 7, 27);
    assert(clamped(change.params()) =~= clamped(p_fg) + (clamped(p_bg) + (clamped(p_bold) + (
    clamped(p_italic) + (clamped(p_underline) + (clamped(p_inverse) + Seq::<u16>::empty()))))));
}

/// Read as attribute parameters, the parameters of a change make that
/// change: the fields that are set are set, the others stay.
pub proof fn lemma_sgr_change(attrs: Attrs, change: crate::term::Attrs)
    ensures
        sgr(attrs, clamped(change.params())) == changed(attrs, change),
        change.params().len() <= 14,
{
    lemma_change_params(change);
    let empty = Seq::<u16>::empty();
    let r5 = clamped(mode_part(change.inverse, 7, 27)) + empty;
    let r4 = clamped(mode_part(change.underline, 4, 24)) + r5;
    let r3 = clamped(mode_part(change.italic, 3, 23)) + r4;
    let r2 = clamped(mode_part(change.bold, 1, 22)) + r3;
    let r1 = clamped(bg_part(change.bgcolor)) + r2;
    let a1 = Attrs {
        fgcolor: match change.fgcolor {
            Some(c) => c,
            None => attrs.fgcolor,
        },
        ..attrs
    };
    let a2 = Attrs {
        bgcolor: match change.bgcolor {
            Some(c) => c,
            None => attrs.bgcolor,
        },
        ..a1
    };
    let a3 = Attrs {
        bold: match change.bold {
            Some(v) => v,
            None => attrs.bold,
        },
        ..a2
    };
    let a4 = Attrs {
        italic: match change.italic {
            Some(v) => v,
            None => attrs.italic,
        },
        ..a3
    };
    let a5 = Attrs {
        underline: match change.underline {
            Some(v) => v,
            None => attrs.underline,
        },
        ..a4
    };
    lemma_sgr_fg_part(attrs, change.fgcolor, r1);
    lemma_sgr_bg_part(a1, change.bgcolor, r2);
    lemma_sgr_mode_part(a2, change.bold, 1, 22, r3);
    lemma_sgr_mode_part(a3, change.italic, 3, 23, r4);
    lemma_sgr_mode_part(a4, change.underline, 4, 24, r5);
    lemma_sgr_mode_part(a5, change.inverse, 7, 27, empty);
    lemma_sgr_none(changed(attrs, change));
}

impl ScreenView {
    /// The screen with other attributes for text.
    pub open spec fn with_attrs(self, attrs: Attrs) -> ScreenView {
        ScreenView { attrs, ..self }
    }
}

impl ParserView {
    /// A change of attributes, read by a parser at rest, makes that change:
    /// the fields that are set are set, and the others stay as they are. A
    /// change that sets nothing changes nothing.
    pub proof fn lemma_feed_attrs(self, change: crate::term::Attrs)
        requires
            self.at_rest(),
        ensures
            self.feed(change.bytes()).at_rest(),
            self.feed(change.bytes()).screen == self.screen.with_attrs(
                changed(self.screen.attrs, change),
            ),
            change.params().len() == 0 ==> self.feed(change.bytes()).screen == self.screen,
    {
        lemma_sgr_change(self.screen.attrs, change);
        if change.params().len() == 0 {
            self.lemma_feed_none();
            lemma_sgr_none(self.screen.attrs);
            assert(clamped(change.params()) =~= Seq::<u16>::empty());
        } else {
            self.lemma_feed_csi(change.params(), 0x6d);
            reveal(ScreenView::csi_dispatch);
        }
    }

    /// The sequence that leads from the attributes in use to others makes
    /// them the attributes in use.
    pub proof fn lemma_feed_attrs_diff(self, to: Attrs)
        requires
            self.at_rest(),
        ensures
            self.feed(attrs_diff(self.screen.attrs, to)).at_rest(),
            self.feed(attrs_diff(self.screen.attrs, to)).screen == self.screen.with_attrs(to),
    {
        let from = self.screen.attrs;
        if from == to {
            self.lemma_feed_none();
        } else {
            let change = attrs_change(from, to);
            assert(change.params().len() > 0);
            self.lemma_feed_attrs(change);
        }
    }

    /// The sequence that sets every attribute makes them the attributes in
    /// use.
    pub proof fn lemma_feed_attrs_set(self, to: Attrs)
        requires
            self.at_rest(),
        ensures
            self.feed(attrs_set(to).bytes()).at_rest(),
            self.feed(attrs_set(to).bytes()).screen == self.screen.with_attrs(to),
    {
        assert(attrs_set(to).params().len() > 0);
        self.lemma_feed_attrs(attrs_set(to));
    }

    /// The sequence that moves the cursor to a position on the screen puts
    /// it there, where addresses count from the top left corner.
    pub proof fn lemma_feed_move_to(self, pos: Pos)
        requires
            self.at_rest(),
            self.screen.grid.wf(),
            !self.screen.grid.origin_mode,
            pos.row < self.screen.grid.rows.len(),
            pos.col < self.screen.grid.cols,
        ensures
            self.feed((MoveTo { row: pos.row, col: pos.col }).bytes()).at_rest(),
            self.feed((MoveTo { row: pos.row, col: pos.col }).bytes()).screen
                == self.screen.with_grid(
                self.screen.grid.moved_to(pos.row as int, pos.col as int),
            ),
    {
        self.screen.grid.lemma_wf_facts();
        let m = MoveTo { row: pos.row, col: pos.col };
        let params = if pos.row == 0 && pos.col == 0 {
            Seq::<u32>::empty()
        } else {
            seq![(pos.row + 1) as u32, (pos.col + 1) as u32]
        };
        assert(m.bytes() =~= csi(params, 0x48));
        self.lemma_feed_csi(params, 0x48);
        reveal(ScreenView::csi_dispatch);
    }

    /// The sequence `ESC [ n H` puts the cursor at the start of row `n`,
    /// counted from one.
    pub proof fn lemma_feed_move_to_row(self, row: u16)
        requires
            self.at_rest(),
            self.screen.grid.wf(),
            !self.screen.grid.origin_mode,
            row < self.screen.grid.rows.len(),
        ensures
            self.feed(csi(seq![(row + 1) as u32], 0x48)).at_rest(),
            self.feed(csi(seq![(row + 1) as u32], 0x48)).screen == self.screen.with_grid(
                self.screen.grid.moved_to(row as int, 0),
            ),
    {
        self.screen.grid.lemma_wf_facts();
        self.lemma_feed_csi(seq![(row + 1) as u32], 0x48);
        reveal(ScreenView::csi_dispatch);
    }

    /// The sequence `ESC [ m` makes the attributes plain.
    pub proof fn lemma_feed_reset_attrs(self)
        requires
            self.at_rest(),
        ensures
            self.feed(csi(Seq::<u32>::empty(), 0x6d)).at_rest(),
            self.feed(csi(Seq::<u32>::empty(), 0x6d)).screen == self.screen.with_attrs(
                Attrs::plain(),
            ),
    {
        self.lemma_feed_csi(Seq::<u32>::empty(), 0x6d);
        reveal(ScreenView::csi_dispatch);
        assert(clamped(Seq::<u32>::empty()) =~= Seq::<u16>::empty());
    }

    /// The sequence that erases characters erases them, with the
    /// attributes in use.
    pub proof fn lemma_feed_erase_chars(self, count: u16)
        requires
            self.at_rest(),
            count >= 1,
        ensures
            self.feed(repeated(count, 0x58)).at_rest(),
            self.feed(repeated(count, 0x58)).screen == self.screen.with_grid(
                self.screen.grid.erase_chars(count as int, self.screen.attrs),
            ),
    {
        let params = if count == 1 {
            Seq::<u32>::empty()
        } else {
            seq![count as u32]
        };
        assert(repeated(count, 0x58) =~= csi(params, 0x58));
        self.lemma_feed_csi(params, 0x58);
        reveal(ScreenView::csi_dispatch);
    }

    /// The sequence that moves the cursor to the right moves it.
    pub proof fn lemma_feed_move_right(self, count: u16)
        requires
            self.at_rest(),
            count >= 1,
        ensures
            self.feed(repeated(count, 0x43)).at_rest(),
            self.feed(repeated(count, 0x43)).screen == self.screen.with_grid(
                self.screen.grid.cursor_right(count as int),
            ),
    {
        let params = if count == 1 {
            Seq::<u32>::empty()
        } else {
            seq![count as u32]
        };
        assert(repeated(count, 0x43) =~= csi(params, 0x43));
        self.lemma_feed_csi(params, 0x43);
        reveal(ScreenView::csi_dispatch);
    }

    /// The sequence that erases to the end of the line erases it, with the
    /// attributes in use.
    pub proof fn lemma_feed_clear_row_forward(self)
        requires
            self.at_rest(),
        ensures
            self.feed(clear_row_forward()).at_rest(),
            self.feed(clear_row_forward()).screen == self.screen.with_grid(
                self.screen.grid.erase_line(0, self.screen.attrs),
            ),
    {
        assert(clear_row_forward() =~= csi(Seq::<u32>::empty(), 0x4b));
        self.lemma_feed_csi(Seq::<u32>::empty(), 0x4b);
        reveal(ScreenView::csi_dispatch);
    }

    /// The sequence that clears the screen puts the cursor in the top left
    /// corner and erases from there, with the attributes in use.
    pub proof fn lemma_feed_clear_screen(self)
        requires
            self.at_rest(),
            self.screen.grid.wf(),
            !self.screen.grid.origin_mode,
        ensures
            self.feed(ClearScreen::bytes()).at_rest(),
            self.feed(ClearScreen::bytes()).screen == self.screen.with_grid(
                self.screen.grid.moved_to(0, 0).erase_display(0, self.screen.attrs),
            ),
    {
        self.screen.grid.lemma_wf_facts();
        let none = Seq::<u32>::empty();
        assert(ClearScreen::bytes() =~= csi(none, 0x48) + csi(none, 0x4a));
        self.lemma_feed_concat(csi(none, 0x48), csi(none, 0x4a));
        self.lemma_feed_csi(none, 0x48);
        self.feed(csi(none, 0x48)).lemma_feed_csi(none, 0x4a);
        reveal(ScreenView::csi_dispatch);
    }

    /// Carriage return and line feed take the cursor to the start of the
    /// next line.
    pub proof fn lemma_feed_crlf(self)
        requires
            self.at_rest(),
        ensures
            self.feed(CRLF::bytes()).at_rest(),
            self.feed(CRLF::bytes()).screen == self.screen.with_grid(
                self.screen.grid.carriage_return().line_feed(self.screen.attrs),
            ),
    {
        assert(CRLF::bytes() =~= seq![0x0du8] + seq![0x0au8]);
        self.lemma_feed_concat(seq![0x0du8], seq![0x0au8]);
        self.lemma_feed_control(0x0d);
        self.feed(seq![0x0du8]).lemma_feed_control(0x0a);
        reveal(ScreenView::control);
    }

    /// The sequence that shows or hides the cursor does so.
    pub proof fn lemma_feed_hide_cursor(self, hide: bool)
        requires
            self.at_rest(),
        ensures
            self.feed((HideCursor { hide }).bytes()).at_rest(),
            self.feed((HideCursor { hide }).bytes()).screen == (ScreenView {
                hide_cursor: hide,
                ..self.screen
            }),
    {
        assert((HideCursor { hide }).bytes() =~= private_mode(25, !hide)) by {
            reveal(private_mode);
            reveal_with_fuel(crate::term::decimal, 3);
        }
        self.lemma_feed_private_mode(25, !hide);
        reveal(ScreenView::csi_dispatch);
        lemma_set_modes_one(self.screen, 25, !hide);
    }

    /// The sequence for one private input mode switches that mode, if it
    /// is written at all.
    pub proof fn lemma_feed_mode_diff(self, known: bool, was: bool, mode: u16, on: bool)
        requires
            self.at_rest(),
            mode == 1 || mode == 1000 || mode == 1002 || mode == 1003 || mode == 1005 || mode
                == 1006 || mode == 2004,
            known ==> self.screen.modes.switched(mode, was) == self.screen.modes,
        ensures
            self.feed(mode_diff(known, was, on, private_mode(mode, on))).at_rest(),
            self.feed(mode_diff(known, was, on, private_mode(mode, on))).screen == (ScreenView {
                modes: self.screen.modes.switched(mode, on),
                ..self.screen
            }),
    {
        reveal(mode_diff);
        if known && was == on {
            self.lemma_feed_none();
        } else {
            self.lemma_feed_private_mode(mode, on);
            reveal(ScreenView::csi_dispatch);
            lemma_set_modes_one(self.screen, mode, on);
        }
    }

    /// The sequence for the keypad mode switches that mode, if it is
    /// written at all.
    pub proof fn lemma_feed_keypad_diff(self, known: bool, was: bool, on: bool)
        requires
            self.at_rest(),
            known ==> self.screen.modes.application_keypad == was,
        ensures
            self.feed(mode_diff(known, was, on, keypad_mode(on))).at_rest(),
            self.feed(mode_diff(known, was, on, keypad_mode(on))).screen == (ScreenView {
                modes: Modes { application_keypad: on, ..self.screen.modes },
                ..self.screen
            }),
    {
        reveal(mode_diff);
        if known && was == on {
            self.lemma_feed_none();
        } else {
            self.lemma_feed_keypad_mode(on);
            reveal(ScreenView::escape_dispatch);
        }
    }

    /// The sequences for the first `k` private input modes switch those
    /// modes.
    pub proof fn lemma_feed_private_modes(self, known: bool, prev: Modes, modes: Modes, k: int)
        requires
            self.at_rest(),
            known ==> forall|j: int|
                0 <= j < 7 ==> self.screen.modes.private(#[trigger] input_mode_numbers()[j])
                    == prev.private(input_mode_numbers()[j]),
            0 <= k <= 7,
        ensures
            self.feed(private_modes_diff(known, prev, modes, k)).at_rest(),
            self.feed(private_modes_diff(known, prev, modes, k)).screen == (ScreenView {
                modes: switched_upto(self.screen.modes, modes, k),
                ..self.screen
            }),
        decreases k,
    {
        if k == 0 {
            self.lemma_feed_none();
        } else {
            let mode = input_mode_numbers()[k - 1];
            let front = private_modes_diff(known, prev, modes, k - 1);
            let last = mode_diff(
                known,
                prev.private(mode),
                modes.private(mode),
                private_mode(mode, modes.private(mode)),
            );
            self.lemma_feed_private_modes(known, prev, modes, k - 1);
            self.lemma_feed_concat(front, last);
            let before = switched_upto(self.screen.modes, modes, k - 1);
            lemma_switched_upto_keeps(self.screen.modes, modes, k - 1, k - 1);
            assert(known ==> before.switched(mode, prev.private(mode)) == before) by {
                lemma_switched_same(before, mode);
            }
            self.feed(front).lemma_feed_mode_diff(
                known,
                prev.private(mode),
                mode,
                modes.private(mode),
            );
        }
    }

    /// The sequences that switch the input modes make them what they are
    /// meant to be.
    pub proof fn lemma_feed_modes_diff(self, known: bool, prev: Modes, modes: Modes)
        requires
            self.at_rest(),
            known ==> self.screen.modes == prev,
        ensures
            self.feed(modes_diff(known, prev, modes)).at_rest(),
            self.feed(modes_diff(known, prev, modes)).screen == (ScreenView {
                modes,
                ..self.screen
            }),
    {
        let keypad = mode_diff(
            known,
            prev.application_keypad,
            modes.application_keypad,
            keypad_mode(modes.application_keypad),
        );
        self.lemma_feed_keypad_diff(known, prev.application_keypad, modes.application_keypad);
        let after = self.feed(keypad);
        let kept = Modes { application_keypad: modes.application_keypad, ..self.screen.modes };
        assert(after.screen.modes == kept);
        if known {
            assert forall|j: int| 0 <= j < 7 implies kept.private(
                #[trigger] input_mode_numbers()[j],
            ) == prev.private(input_mode_numbers()[j]) by {
                let m = input_mode_numbers()[j];
                assert(kept.private(m) == self.screen.modes.private(m));
            }
        }
        after.lemma_feed_private_modes(known, prev, modes, 7);
        self.lemma_feed_concat(keypad, private_modes_diff(known, prev, modes, 7));
        lemma_switched_all(kept, modes);
    }

    /// The sequence that sets the title sets it.
    pub proof fn lemma_feed_title_set(self, title: Seq<u8>)
        requires
            self.at_rest(),
            is_title(title),
        ensures
            self.feed(seq![0x1bu8, 0x5d, 0x32, 0x3b] + title + seq![0x07u8]).at_rest(),
            self.feed(seq![0x1bu8, 0x5d, 0x32, 0x3b] + title + seq![0x07u8]).screen
                == (ScreenView { title, ..self.screen }),
    {
        self.lemma_feed_title(title);
        reveal(ScreenView::osc_dispatch);
        assert((seq![0x32u8, 0x3b] + title).skip(2) =~= title);
    }

    /// A run of bells adds as many to the count of bells, as long as the
    /// counter does not run over.
    pub proof fn lemma_feed_bells_count(self, n: nat)
        requires
            self.at_rest(),
            self.screen.bells + n <= u64::MAX,
        ensures
            self.feed(Seq::new(n, |i: int| 0x07u8)).at_rest(),
            self.feed(Seq::new(n, |i: int| 0x07u8)).screen == (ScreenView {
                bells: self.screen.bells + n,
                ..self.screen
            }),
    {
        self.lemma_feed_bells(n);
        lemma_rung(self.screen, n);
    }
}

/// The modes after the first `k` private input modes were switched to what
/// they are in `modes`.
pub open spec fn switched_upto(now: Modes, modes: Modes, k: int) -> Modes
    decreases k,
{
    if k <= 0 {
        now
    } else {
        let mode = input_mode_numbers()[k - 1];
        switched_upto(now, modes, k - 1).switched(mode, modes.private(mode))
    }
}

/// Switching a mode to what it is changes nothing.
pub proof fn lemma_switched_same(modes: Modes, mode: u16)
    ensures
        modes.switched(mode, modes.private(mode)) == modes,
{
}

/// The modes that are not among the first `k` are as they were.
pub proof fn lemma_switched_upto_keeps(now: Modes, modes: Modes, k: int, j: int)
    requires
        0 <= k <= j < 7,
    ensures
        switched_upto(now, modes, k).private(input_mode_numbers()[j]) == now.private(
            input_mode_numbers()[j],
        ),
        switched_upto(now, modes, k).application_keypad == now.application_keypad,
    decreases k,
{
    if k > 0 {
        lemma_switched_upto_keeps(now, modes, k - 1, j);
    }
}

/// The modes that are among the first `k` are what they are in `modes`.
pub proof fn lemma_switched_upto_sets(now: Modes, modes: Modes, k: int, j: int)
    requires
        0 <= j < k <= 7,
    ensures
        switched_upto(now, modes, k).private(input_mode_numbers()[j]) == modes.private(
            input_mode_numbers()[j],
        ),
    decreases k,
{
    if j < k - 1 {
        lemma_switched_upto_sets(now, modes, k - 1, j);
    }
}

/// With all private input modes switched, the modes are those of `modes`,
/// if the keypad mode is.
pub proof fn lemma_switched_all(now: Modes, modes: Modes)
    requires
        now.application_keypad == modes.application_keypad,
    ensures
        switched_upto(now, modes, 7) == modes,
{
    let all = switched_upto(now, modes, 7);
    lemma_switched_upto_keeps(now, modes, 0, 0);
    assert(all.application_keypad == now.application_keypad) by {
        lemma_keypad_kept(now, modes, 7);
    }
    lemma_switched_upto_sets(now, modes, 7, 0);
    lemma_switched_upto_sets(now, modes, 7, 1);
    lemma_switched_upto_sets(now, modes, 7, 2);
    lemma_switched_upto_sets(now, modes, 7, 3);
    lemma_switched_upto_sets(now, modes, 7, 4);
    lemma_switched_upto_sets(now, modes, 7, 5);
    lemma_switched_upto_sets(now, modes, 7, 6);
}

/// Switching private modes leaves the keypad mode as it is.
pub proof fn lemma_keypad_kept(now: Modes, modes: Modes, k: int)
    requires
        0 <= k <= 7,
    ensures
        switched_upto(now, modes, k).application_keypad == now.application_keypad,
    decreases k,
{
    if k > 0 {
        lemma_keypad_kept(now, modes, k - 1);
    }
}

/// Switching the private modes of a list of one mode is switching that
/// mode.
pub proof fn lemma_set_modes_one(screen: ScreenView, mode: u16, on: bool)
    ensures
        screen.set_modes(seq![mode], on) == screen.set_mode(mode, on),
{
    reveal_with_fuel(ScreenView::set_modes, 2);
    assert(seq![mode].skip(1) =~= Seq::<u16>::empty());
}

/// The bell rung `n` times adds `n` to the count of bells.
pub proof fn lemma_rung(screen: ScreenView, n: nat)
    requires
        screen.bells + n <= u64::MAX,
    ensures
        screen.rung(n) == (ScreenView { bells: screen.bells + n, ..screen }),
    decreases n,
{
    reveal(ScreenView::control);
    if n > 0 {
        lemma_rung(screen, (n - 1) as nat);
    }
}

} // verus!
