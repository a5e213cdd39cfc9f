//! The screen: what a terminal shows, and how control functions change it.

use vstd::prelude::*;
use crate::attrs::Attrs;
use crate::attrs::Color;
use crate::cell::Cell;
use crate::grid::Grid;
use crate::grid::GridView;
use crate::grid::is_erase_function;
use crate::grid::is_index_function;
use crate::grid::max_int;
use crate::row::is_text_char;

verus! {

/// The modes of terminal input that programs switch on and off.
#[derive(Clone, Copy, Debug, PartialEq, Eq, Structural)]
pub struct Modes {
    /// The keypad sends application sequences.
    pub application_keypad: bool,
    /// The cursor keys send application sequences.
    pub application_cursor: bool,
    /// Pasted text is put between brackets.
    pub bracketed_paste: bool,
    /// The mouse reports presses and releases of its buttons.
    pub mouse_press_release: bool,
    /// The mouse also reports motion while a button is down.
    pub mouse_button_motion: bool,
    /// The mouse reports every motion.
    pub mouse_any_motion: bool,
    /// Mouse reports are written in the UTF-8 encoding.
    pub mouse_utf8: bool,
    /// Mouse reports are written in the SGR encoding.
    pub mouse_sgr: bool,
}

impl Modes {
    /// Every mode off.
    pub open spec fn none() -> Modes {
        Modes {
            application_keypad: false,
            application_cursor: false,
            bracketed_paste: false,
            mouse_press_release: false,
            mouse_button_motion: false,
            mouse_any_motion: false,
            mouse_utf8: false,
            mouse_sgr: false,
        }
    }

    /// Whether the private input mode with number `mode` is on. A number
    /// that names no input mode is taken as off.
    pub open spec fn private(self, mode: u16) -> bool {
        if mode == 1 {
            self.application_cursor
        } else if mode == 1000 {
            self.mouse_press_release
        } else if mode == 1002 {
            self.mouse_button_motion
        } else if mode == 1003 {
            self.mouse_any_motion
        } else if mode == 1005 {
            self.mouse_utf8
        } else if mode == 1006 {
            self.mouse_sgr
        } else if mode == 2004 {
            self.bracketed_paste
        } else {
            false
        }
    }

    /// The modes after the private mode with number `mode` was switched. A
    /// number that names no input mode changes nothing.
    pub open spec fn switched(self, mode: u16, on: bool) -> Modes {
        if mode == 1 {
            Modes { application_cursor: on, ..self }
        } else if mode == 1000 {
            Modes { mouse_press_release: on, ..self }
        } else if mode == 1002 {
            Modes { mouse_button_motion: on, ..self }
        } else if mode == 1003 {
            Modes { mouse_any_motion: on, ..self }
        } else if mode == 1005 {
            Modes { mouse_utf8: on, ..self }
        } else if mode == 1006 {
            Modes { mouse_sgr: on, ..self }
        } else if mode == 2004 {
            Modes { bracketed_paste: on, ..self }
        } else {
            self
        }
    }
}

impl Modes {
    /// Whether the private input mode with number `mode` is on.
    pub fn is_on(&self, mode: u16) -> (on: bool)
        ensures
            on == self.private(mode),
    {
        if mode == 1 {
            self.application_cursor
        } else if mode == 1000 {
            self.mouse_press_release
        } else if mode == 1002 {
            self.mouse_button_motion
        } else if mode == 1003 {
            self.mouse_any_motion
        } else if mode == 1005 {
            self.mouse_utf8
        } else if mode == 1006 {
            self.mouse_sgr
        } else if mode == 2004 {
            self.bracketed_paste
        } else {
            false
        }
    }

    /// Switches the private mode with number `mode`.
    pub fn switch(self, mode: u16, on: bool) -> (m: Modes)
        ensures
            m == self.switched(mode, on),
    {
        if mode == 1 {
            Modes { application_cursor: on, ..self }
        } else if mode == 1000 {
            Modes { mouse_press_release: on, ..self }
        } else if mode == 1002 {
            Modes { mouse_button_motion: on, ..self }
        } else if mode == 1003 {
            Modes { mouse_any_motion: on, ..self }
        } else if mode == 1005 {
            Modes { mouse_utf8: on, ..self }
        } else if mode == 1006 {
            Modes { mouse_sgr: on, ..self }
        } else if mode == 2004 {
            Modes { bracketed_paste: on, ..self }
        } else {
            self
        }
    }
}

impl Default for Modes {
    fn default() -> (m: Self)
        ensures
            m == Modes::none(),
    {
        Modes {
            application_keypad: false,
            application_cursor: false,
            bracketed_paste: false,
            mouse_press_release: false,
            mouse_button_motion: false,
            mouse_any_motion: false,
            mouse_utf8: false,
            mouse_sgr: false,
        }
    }
}

/// The attributes after one of the two colors was replaced.
pub open spec fn with_color(attrs: Attrs, foreground: bool, color: Color) -> Attrs {
    if foreground {
        Attrs { fgcolor: color, ..attrs }
    } else {
        Attrs { bgcolor: color, ..attrs }
    }
}

/// The attributes after one attribute parameter that stands for itself.
/// A parameter that is not known changes nothing.
pub open spec fn sgr_one(attrs: Attrs, p: u16) -> Attrs {
    if p == 0 {
        Attrs::plain()
    } else if p == 1 {
        Attrs { bold: true, ..attrs }
    } else if p == 3 {
        Attrs { italic: true, ..attrs }
    } else if p == 4 {
        Attrs { underline: true, ..attrs }
    } else if p == 7 {
        Attrs { inverse: true, ..attrs }
    } else if p == 22 {
        Attrs { bold: false, ..attrs }
    } else if p == 23 {
        Attrs { italic: false, ..attrs }
    } else if p == 24 {
        Attrs { underline: false, ..attrs }
    } else if p == 27 {
        Attrs { inverse: false, ..attrs }
    } else if 30 <= p <= 37 {
        Attrs { fgcolor: Color::Idx((p - 30) as u8), ..attrs }
    } else if p == 39 {
        Attrs { fgcolor: Color::Default, ..attrs }
    } else if 40 <= p <= 47 {
        Attrs { bgcolor: Color::Idx((p - 40) as u8), ..attrs }
    } else if p == 49 {
        Attrs { bgcolor: Color::Default, ..attrs }
    } else if 90 <= p <= 97 {
        Attrs { fgcolor: Color::Idx((p - 82) as u8), ..attrs }
    } else if 100 <= p <= 107 {
        Attrs { bgcolor: Color::Idx((p - 92) as u8), ..attrs }
    } else {
        attrs
    }
}

/// The attributes after a list of attribute parameters, read from the
/// left. The parameters 38 and 48 take the following ones with them: `5`
/// and a color index, or `2` and the three parts of a direct color. A color
/// with a part above 255 is passed over; a 38 or 48 that is followed by
/// neither form ends the list.
#[verifier::opaque]
pub open spec fn sgr(attrs: Attrs, params: Seq<u16>) -> Attrs
    decreases params.len(),
{
    if params.len() == 0 {
        attrs
    } else if params[0] == 38 || params[0] == 48 {
        if params.len() >= 3 && params[1] == 5 {
            let next = if params[2] <= 255 {
                with_color(attrs, params[0] == 38, Color::Idx(params[2] as u8))
            } else {
                attrs
            };
            sgr(next, params.skip(3))
        } else if params.len() >= 5 && params[1] == 2 {
            let next = if params[2] <= 255 && params[3] <= 255 && params[4] <= 255 {
                with_color(
                    attrs,
                    params[0] == 38,
                    Color::Rgb(params[2] as u8, params[3] as u8, params[4] as u8),
                )
            } else {
                attrs
            };
            sgr(next, params.skip(5))
        } else {
            attrs
        }
    } else {
        sgr(sgr_one(attrs, params[0]), params.skip(1))
    }
}

/// Whether every byte can stand in a title: control characters end or
/// leave the sequence that sets it.
pub open spec fn is_title(title: Seq<u8>) -> bool {
    forall|i: int| 0 <= i < title.len() ==> #[trigger] title[i] >= 0x20
}

/// What a screen holds, as a mathematical value.
pub struct ScreenView {
    /// The grid that is shown.
    pub grid: GridView,
    /// The grid that is not shown: the alternate one, or the primary one
    /// while the alternate one is shown.
    pub other: GridView,
    /// Whether the alternate grid is the one shown.
    pub alternate: bool,
    /// The attributes that text is written with.
    pub attrs: Attrs,
    /// The attributes kept by the last save of the cursor.
    pub saved_attrs: Attrs,
    /// Whether the cursor is hidden.
    pub hide_cursor: bool,
    /// The input modes.
    pub modes: Modes,
    /// The title of the window.
    pub title: Seq<u8>,
    /// How often the bell has rung.
    pub bells: nat,
}

impl ScreenView {
    /// A blank screen of the given size.
    pub open spec fn blank(rows: nat, cols: nat, scrollback_len: nat) -> ScreenView {
        ScreenView {
            grid: GridView::blank(rows, cols, scrollback_len),
            other: GridView::blank(rows, cols, 0),
            alternate: false,
            attrs: Attrs::plain(),
            saved_attrs: Attrs::plain(),
            hide_cursor: false,
            modes: Modes::none(),
            title: Seq::empty(),
            bells: 0,
        }
    }

    /// The invariant of a screen: both grids are well-formed and of one
    /// size, the title holds no control character, and the count of bells
    /// fits its counter.
    pub open spec fn wf(self) -> bool {
        &&& self.grid.wf()
        &&& self.other.wf()
        &&& self.grid.rows.len() == self.other.rows.len()
        &&& self.grid.cols == self.other.cols
        &&& is_title(self.title)
        &&& self.bells <= u64::MAX
    }

    /// The screen with another grid shown.
    pub open spec fn with_grid(self, grid: GridView) -> ScreenView {
        ScreenView { grid, ..self }
    }

    /// A character of text arrives.
    #[verifier::opaque]
    pub open spec fn text(self, c: char) -> ScreenView {
        self.with_grid(self.grid.put_text(c, self.attrs))
    }

    /// The bell rings. The counter stops at the largest number it can hold.
    pub open spec fn bell(self) -> ScreenView {
        ScreenView {
            bells: if self.bells < u64::MAX {
                self.bells + 1
            } else {
                self.bells
            },
            ..self
        }
    }

    /// A control character arrives: bell, backspace, tab, the three line
    /// feeds and carriage return act, the others do nothing.
    #[verifier::opaque]
    pub open spec fn control(self, b: u8) -> ScreenView {
        if b == 0x07 {
            self.bell()
        } else if b == 0x08 {
            self.with_grid(self.grid.cursor_left(1))
        } else if b == 0x09 {
            self.with_grid(self.grid.tab())
        } else if b == 0x0a || b == 0x0b || b == 0x0c {
            self.with_grid(self.grid.line_feed(self.attrs))
        } else if b == 0x0d {
            self.with_grid(self.grid.carriage_return())
        } else {
            self
        }
    }

    /// The cursor, its attributes and the origin mode are kept for later.
    pub open spec fn save_cursor(self) -> ScreenView {
        ScreenView { grid: self.grid.save_cursor(), saved_attrs: self.attrs, ..self }
    }

    /// The cursor, its attributes and the origin mode kept last come back.
    pub open spec fn restore_cursor(self) -> ScreenView {
        ScreenView { grid: self.grid.restore_cursor(), attrs: self.saved_attrs, ..self }
    }

    /// The screen as it was made, but for its size, its history limits and
    /// the count of bells.
    pub open spec fn reset(self) -> ScreenView {
        let primary = if self.alternate {
            self.other
        } else {
            self.grid
        };
        let alternate = if self.alternate {
            self.grid
        } else {
            self.other
        };
        ScreenView {
            grid: GridView::blank(primary.rows.len(), primary.cols, primary.scrollback_len),
            other: GridView::blank(alternate.rows.len(), alternate.cols, alternate.scrollback_len),
            bells: self.bells,
            ..Self::blank(0, 0, 0)
        }
    }

    /// The function that follows a bare escape character: `7` keeps the
    /// cursor and `8` brings it back, `=` and `>` switch the keypad mode,
    /// `c` resets the screen, `D`, `E` and `M` move by a line. Any other
    /// function changes nothing.
    #[verifier::opaque]
    pub open spec fn escape_dispatch(self, b: u8) -> ScreenView {
        if is_index_function(b) {
            self.with_grid(self.grid.index_function(b, self.attrs))
        } else if b == 0x37 {
            self.save_cursor()
        } else if b == 0x38 {
            self.restore_cursor()
        } else if b == 0x3d {
            ScreenView { modes: Modes { application_keypad: true, ..self.modes }, ..self }
        } else if b == 0x3e {
            ScreenView { modes: Modes { application_keypad: false, ..self.modes }, ..self }
        } else if b == 0x63 {
            self.reset()
        } else {
            self
        }
    }

    /// The alternate grid is shown, blank. Nothing happens if it is shown
    /// already.
    pub open spec fn enter_alternate(self) -> ScreenView {
        if self.alternate {
            self
        } else {
            ScreenView { grid: self.other.cleared(), other: self.grid, alternate: true, ..self }
        }
    }

    /// The primary grid is shown again, as it was left.
    pub open spec fn leave_alternate(self) -> ScreenView {
        if self.alternate {
            ScreenView { grid: self.other, other: self.grid, alternate: false, ..self }
        } else {
            self
        }
    }

    /// The private mode with number `mode` is switched. A number that is
    /// not known changes nothing.
    pub open spec fn set_mode(self, mode: u16, on: bool) -> ScreenView {
        if mode == 6 {
            self.with_grid(self.grid.set_origin_mode(on))
        } else if mode == 25 {
            ScreenView { hide_cursor: !on, ..self }
        } else if mode == 47 || mode == 1049 {
            if on {
                self.enter_alternate()
            } else {
                self.leave_alternate()
            }
        } else {
            ScreenView { modes: self.modes.switched(mode, on), ..self }
        }
    }

    /// The private modes named by `params` are switched, from the left.
    pub open spec fn set_modes(self, params: Seq<u16>, on: bool) -> ScreenView
        decreases params.len(),
    {
        if params.len() == 0 {
            self
        } else {
            self.set_mode(params[0], on).set_modes(params.skip(1), on)
        }
    }

    /// A control sequence with the private marker `?`.
    pub open spec fn private_dispatch(self, params: Seq<u16>, function: u8) -> ScreenView {
        if function == 0x68 {
            self.set_modes(params, true)
        } else if function == 0x6c {
            self.set_modes(params, false)
        } else {
            self
        }
    }

    /// The attributes are set by the parameters of the control function
    /// `m`; without parameters they become plain.
    pub open spec fn attrs_function(self, params: Seq<u16>) -> ScreenView {
        ScreenView {
            attrs: if params.len() == 0 {
                Attrs::plain()
            } else {
                sgr(self.attrs, params)
            },
            ..self
        }
    }

    /// A control sequence without marker: `m` sets attributes, `r` the
    /// scroll region, and the others erase, scroll or move the cursor. A
    /// function that is not known changes nothing.
    pub open spec fn plain_dispatch(self, params: Seq<u16>, function: u8) -> ScreenView {
        if function == 0x6d {
            self.attrs_function(params)
        } else if function == 0x72 {
            self.with_grid(self.grid.region_function(params))
        } else if is_erase_function(function) {
            self.with_grid(self.grid.erase_function(params, function, self.attrs))
        } else {
            self.with_grid(self.grid.cursor_function(params, function))
        }
    }

    /// A control sequence: its marker, its parameters and its function.
    #[verifier::opaque]
    pub open spec fn csi_dispatch(self, private: bool, params: Seq<u16>, function: u8) -> ScreenView {
        if private {
            self.private_dispatch(params, function)
        } else {
            self.plain_dispatch(params, function)
        }
    }

    /// An operating-system command: `0;` or `2;` and a text set the title,
    /// anything else does nothing.
    #[verifier::opaque]
    pub open spec fn osc_dispatch(self, payload: Seq<u8>) -> ScreenView {
        if payload.len() >= 2 && (payload[0] == 0x30 || payload[0] == 0x32) && payload[1] == 0x3b {
            ScreenView { title: payload.skip(2), ..self }
        } else {
            self
        }
    }

    /// The screen brought to another size: both grids are.
    pub open spec fn resized(self, rows: nat, cols: nat) -> ScreenView {
        ScreenView {
            grid: self.grid.resized(rows, cols),
            other: self.other.resized(rows, cols),
            ..self
        }
    }

    /// Bringing the screen to another size keeps the invariant and reaches
    /// that size.
    pub proof fn lemma_resized_wf(self, rows: nat, cols: nat)
        requires
            self.wf(),
            1 <= rows <= 0xffff,
            2 <= cols <= 0xffff,
        ensures
            self.resized(rows, cols).wf(),
            self.resized(rows, cols).grid.rows.len() == rows,
            self.resized(rows, cols).grid.cols == cols,
    {
        self.grid.lemma_resized_wf(rows, cols);
        self.other.lemma_resized_wf(rows, cols);
    }

    /// A blank screen is well-formed.
    pub proof fn lemma_blank_wf(rows: nat, cols: nat, scrollback_len: nat)
        requires
            1 <= rows <= 0xffff,
            2 <= cols <= 0xffff,
        ensures
            Self::blank(rows, cols, scrollback_len).wf(),
    {
        GridView::lemma_blank_wf(rows, cols, scrollback_len);
        GridView::lemma_blank_wf(rows, cols, 0);
    }

    /// A character of text keeps the invariant, the size and the bells that
    /// have rung.
    pub proof fn lemma_text_wf(self, c: char)
        requires
            self.wf(),
            is_text_char(c),
        ensures
            self.text(c).bells >= self.bells,
            self.text(c).grid.sized_as(self.grid),
            self.text(c).wf(),
    {
        reveal(ScreenView::text);
        self.grid.lemma_put_text_wf(c, self.attrs);
    }

    /// A control character keeps the invariant and the size, and takes no
    /// bell back.
    pub proof fn lemma_control_wf(self, b: u8)
        requires
            self.wf(),
        ensures
            self.control(b).bells >= self.bells,
            self.control(b).grid.sized_as(self.grid),
            self.control(b).wf(),
    {
        reveal(ScreenView::control);
        let g = self.grid;
        g.lemma_line_feed_wf(self.attrs);
        g.lemma_moved_to_wf(g.pos.row as int, g.pos.col - 1);
        g.lemma_moved_to_wf(g.pos.row as int, (g.pos.col / 8 + 1) * 8);
        g.lemma_moved_to_wf(g.pos.row as int, 0);
    }

    /// An escape function keeps the invariant, the size and the bells that
    /// have rung.
    pub proof fn lemma_escape_dispatch_wf(self, b: u8)
        requires
            self.wf(),
        ensures
            self.escape_dispatch(b).bells >= self.bells,
            self.escape_dispatch(b).grid.sized_as(self.grid),
            self.escape_dispatch(b).wf(),
    {
        reveal(ScreenView::escape_dispatch);
        self.grid.lemma_wf_facts();
        self.grid.lemma_index_function_wf(b, self.attrs);
        self.grid.lemma_modes_wf(0, 0, false);
        GridView::lemma_blank_wf(self.grid.rows.len(), self.grid.cols, self.grid.scrollback_len);
        GridView::lemma_blank_wf(self.grid.rows.len(), self.grid.cols, self.other.scrollback_len);
    }

    /// Switching a private mode keeps the invariant, the size and the bells
    /// that have rung.
    pub proof fn lemma_set_mode_wf(self, mode: u16, on: bool)
        requires
            self.wf(),
        ensures
            self.set_mode(mode, on).bells >= self.bells,
            self.set_mode(mode, on).grid.sized_as(self.grid),
            self.set_mode(mode, on).wf(),
    {
        self.grid.lemma_modes_wf(0, 0, on);
        self.other.lemma_modes_wf(0, 0, on);
    }

    /// Switching private modes keeps the invariant, the size and the bells
    /// that have rung.
    pub proof fn lemma_set_modes_wf(self, params: Seq<u16>, on: bool)
        requires
            self.wf(),
        ensures
            self.set_modes(params, on).bells >= self.bells,
            self.set_modes(params, on).grid.sized_as(self.grid),
            self.set_modes(params, on).wf(),
        decreases params.len(),
    {
        if params.len() > 0 {
            self.lemma_set_mode_wf(params[0], on);
            self.set_mode(params[0], on).lemma_set_modes_wf(params.skip(1), on);
        }
    }

    /// Showing another well-formed grid of the same size keeps the invariant.
    pub proof fn lemma_with_grid_wf(self, grid: GridView)
        requires
            self.wf(),
            grid.wf(),
            grid.sized_as(self.grid),
        ensures
            self.with_grid(grid).wf(),
    {
    }

    /// A control sequence without marker keeps the invariant, the size and
    /// the bells that have rung.
    pub proof fn lemma_plain_dispatch_wf(self, params: Seq<u16>, function: u8)
        requires
            self.wf(),
        ensures
            self.plain_dispatch(params, function).bells >= self.bells,
            self.plain_dispatch(params, function).grid.sized_as(self.grid),
            self.plain_dispatch(params, function).wf(),
    {
        self.grid.lemma_region_function_wf(params);
        self.grid.lemma_erase_function_wf(params, function, self.attrs);
        self.grid.lemma_cursor_function_wf(params, function);
    }

    /// A control sequence keeps the invariant, the size and the bells that
    /// have rung.
    pub proof fn lemma_csi_dispatch_wf(self, private: bool, params: Seq<u16>, function: u8)
        requires
            self.wf(),
        ensures
            self.csi_dispatch(private, params, function).bells >= self.bells,
            self.csi_dispatch(private, params, function).grid.sized_as(self.grid),
            self.csi_dispatch(private, params, function).wf(),
    {
        reveal(ScreenView::csi_dispatch);
        if private {
            self.lemma_set_modes_wf(params, true);
            self.lemma_set_modes_wf(params, false);
        } else {
            self.lemma_plain_dispatch_wf(params, function);
        }
    }

    /// An operating-system command keeps the invariant, the size and the
    /// bells that have rung.
    pub proof fn lemma_osc_dispatch_wf(self, payload: Seq<u8>)
        requires
            self.wf(),
            is_title(payload),
        ensures
            self.osc_dispatch(payload).bells >= self.bells,
            self.osc_dispatch(payload).grid.sized_as(self.grid),
            self.osc_dispatch(payload).wf(),
    {
        reveal(ScreenView::osc_dispatch);
    }
}


/// The attributes after one attribute parameter that stands for itself.
pub fn apply_sgr_one(attrs: Attrs, p: u16) -> (a: Attrs)
    ensures
        a == sgr_one(attrs, p),
{
    let mut a = attrs;
    if p == 0 {
        a = Attrs::default();
    } else if p == 1 {
        a.bold = true;
    } else if p == 3 {
        a.italic = true;
    } else if p == 4 {
        a.underline = true;
    } else if p == 7 {
        a.inverse = true;
    } else if p == 22 {
        a.bold = false;
    } else if p == 23 {
        a.italic = false;
    } else if p == 24 {
        a.underline = false;
    } else if p == 27 {
        a.inverse = false;
    } else if 30 <= p && p <= 37 {
        a.fgcolor = Color::Idx((p - 30) as u8);
    } else if p == 39 {
        a.fgcolor = Color::Default;
    } else if 40 <= p && p <= 47 {
        a.bgcolor = Color::Idx((p - 40) as u8);
    } else if p == 49 {
        a.bgcolor = Color::Default;
    } else if 90 <= p && p <= 97 {
        a.fgcolor = Color::Idx((p - 82) as u8);
    } else if 100 <= p && p <= 107 {
        a.bgcolor = Color::Idx((p - 92) as u8);
    }
    a
}

fn set_color(attrs: Attrs, foreground: bool, color: Color) -> (a: Attrs)
    ensures
        a == with_color(attrs, foreground, color),
{
    let mut a = attrs;
    if foreground {
        a.fgcolor = color;
    } else {
        a.bgcolor = color;
    }
    a
}

/// The attributes after a list of attribute parameters.
pub fn apply_sgr(attrs: Attrs, params: &Vec<u16>) -> (a: Attrs)
    ensures
        a == sgr(attrs, params@),
{
    let mut a = attrs;
    let mut i: usize = 0;
    let n = params.len();
    assert(params@.skip(0) =~= params@);
    proof {
        reveal_with_fuel(sgr, 2);
    }
    while i < n
        invariant
            i <= n,
            n == params@.len(),
            sgr(a, params@.skip(i as int)) == sgr(attrs, params@),
        decreases n - i,
    {
        let ghost rest = params@.skip(i as int);
        let p = params[i];
        assert(rest[0] == p);
        proof {
            reveal_with_fuel(sgr, 2);
        }
        if p == 38 || p == 48 {
            if n - i >= 3 && params[i + 1] == 5 {
                assert(rest[1] == params@[i + 1] && rest[2] == params@[i + 2]);
                assert(rest.skip(3) =~= params@.skip(i + 3));
                if params[i + 2] <= 255 {
                    a = set_color(a, p == 38, Color::Idx(params[i + 2] as u8));
                }
                i += 3;
            } else if n - i >= 5 && params[i + 1] == 2 {
                assert(rest[1] == params@[i + 1] && rest[2] == params@[i + 2] && rest[3]
                    == params@[i + 3] && rest[4] == params@[i + 4]);
                assert(rest.skip(5) =~= params@.skip(i + 5));
                if params[i + 2] <= 255 && params[i + 3] <= 255 && params[i + 4] <= 255 {
                    a = set_color(
                        a,
                        p == 38,
                        Color::Rgb(params[i + 2] as u8, params[i + 3] as u8, params[i + 4] as u8),
                    );
                }
                i += 5;
            } else {
                assert(n - i >= 2 ==> rest[1] == params@[i + 1]);
                assert(sgr(a, rest) == a);
                i = n;
            }
        } else {
            assert(rest.skip(1) =~= params@.skip(i + 1));
            a = apply_sgr_one(a, p);
            i += 1;
        }
    }
    a
}

/// Represents the state of a terminal: what it shows, where the cursor is,
/// and the modes that programs have set.
#[derive(Debug)]
pub struct Screen {
    grid: Grid,
    other: Grid,
    alternate: bool,
    attrs: Attrs,
    saved_attrs: Attrs,
    hide_cursor: bool,
    modes: Modes,
    title: Vec<u8>,
    bells: u64,
}

impl View for Screen {
    type V = ScreenView;

    closed spec fn view(&self) -> ScreenView {
        ScreenView {
            grid: self.grid@,
            other: self.other@,
            alternate: self.alternate,
            attrs: self.attrs,
            saved_attrs: self.saved_attrs,
            hide_cursor: self.hide_cursor,
            modes: self.modes,
            title: self.title@,
            bells: self.bells as nat,
        }
    }
}

impl Clone for Screen {
    /// A copy that shares nothing with the screen it was made from.
    fn clone(&self) -> (screen: Self)
        ensures
            screen@ == self@,
    {
        let mut title: Vec<u8> = Vec::new();
        let mut i: usize = 0;
        while i < self.title.len()
            invariant
                i <= self.title.len(),
                title@ == self.title@.take(i as int),
            decreases self.title.len() - i,
        {
            title.push(self.title[i]);
            assert(title@ =~= self.title@.take(i + 1));
            i += 1;
        }
        assert(title@ =~= self.title@);
        Screen {
            grid: self.grid.clone(),
            other: self.other.clone(),
            alternate: self.alternate,
            attrs: self.attrs,
            saved_attrs: self.saved_attrs,
            hide_cursor: self.hide_cursor,
            modes: self.modes,
            title,
            bells: self.bells,
        }
    }
}

impl Screen {
    /// A blank screen. A size of no rows is taken as one row, and one of
    /// fewer than two columns as two columns.
    pub fn new(rows: u16, cols: u16, scrollback_len: usize) -> (screen: Self)
        ensures
            screen@ == ScreenView::blank(
                max_int(rows as int, 1) as nat,
                max_int(cols as int, 2) as nat,
                scrollback_len as nat,
            ),
            screen@.wf(),
    {
        let rows = if rows < 1 { 1 } else { rows };
        let cols = if cols < 2 { 2 } else { cols };
        proof {
            ScreenView::lemma_blank_wf(rows as nat, cols as nat, scrollback_len as nat);
        }
        Screen {
            grid: Grid::new(rows, cols, scrollback_len),
            other: Grid::new(rows, cols, 0),
            alternate: false,
            attrs: Attrs::default(),
            saved_attrs: Attrs::default(),
            hide_cursor: false,
            modes: Modes::default(),
            title: Vec::new(),
            bells: 0,
        }
    }

    /// Resizes the terminal. Every row is cut or padded to the new width,
    /// and what is cut off is lost; rows leave into the history or come back
    /// from it until the new height is reached, and the cursor stays on the
    /// screen. A size of no rows is taken as one row, and one of fewer than
    /// two columns as two columns.
    pub fn set_size(&mut self, rows: u16, cols: u16)
        requires
            old(self)@.wf(),
        ensures
            final(self)@ == old(self)@.resized(
                max_int(rows as int, 1) as nat,
                max_int(cols as int, 2) as nat,
            ),
            final(self)@.wf(),
    {
        let rows = if rows < 1 { 1 } else { rows };
        let cols = if cols < 2 { 2 } else { cols };
        proof {
            old(self)@.lemma_resized_wf(rows as nat, cols as nat);
        }
        self.grid.resize(rows, cols);
        self.other.resize(rows, cols);
    }

    /// The grid that is shown.
    pub fn grid(&self) -> (grid: &Grid)
        ensures
            grid@ == self@.grid,
    {
        &self.grid
    }

    /// Returns the current size of the terminal, rows first.
    pub fn size(&self) -> (size: (u16, u16))
        requires
            self@.wf(),
        ensures
            size.0 == self@.grid.rows.len(),
            size.1 == self@.grid.cols,
    {
        let s = self.grid.size();
        (s.rows, s.cols)
    }

    /// Returns the current cursor position of the terminal, row first.
    pub fn cursor_position(&self) -> (pos: (u16, u16))
        ensures
            pos.0 == self@.grid.pos.row,
            pos.1 == self@.grid.pos.col,
    {
        let p = self.grid.pos();
        (p.row, p.col)
    }

    /// Returns the cell at the given location on the screen, if there is
    /// one.
    pub fn cell(&self, row: u16, col: u16) -> (cell: Option<&Cell>)
        requires
            self@.wf(),
        ensures
            match cell {
                Some(c) => row < self@.grid.rows.len() && col < self@.grid.cols
                    && c@ == self@.grid.rows[row as int].cells[col as int],
                None => row >= self@.grid.rows.len() || col >= self@.grid.cols,
            },
    {
        match self.grid.row(row) {
            Some(r) => {
                proof {
                    self@.grid.lemma_wf_facts();
                }
                assert(self@.grid.rows[row as int].wf(self@.grid.cols));
                r.get(col)
            },
            None => None,
        }
    }

    /// Returns whether the text of the given row runs on into the next row.
    /// A row that the screen does not have does not.
    pub fn row_wrapped(&self, row: u16) -> (w: bool)
        ensures
            w == (row < self@.grid.rows.len() && self@.grid.rows[row as int].wrapped),
    {
        match self.grid.row(row) {
            Some(r) => r.wrapped(),
            None => false,
        }
    }

    /// Returns the terminal's window title.
    pub fn title(&self) -> (title: &Vec<u8>)
        ensures
            title@ == self@.title,
    {
        &self.title
    }

    /// Returns how often the bell has rung on this screen.
    pub fn bell_count(&self) -> (n: u64)
        ensures
            n == self@.bells,
    {
        self.bells
    }

    /// Returns the attributes that text is written with.
    pub fn attrs(&self) -> (a: Attrs)
        ensures
            a == self@.attrs,
    {
        self.attrs
    }

    /// Returns the input modes.
    pub fn modes(&self) -> (m: Modes)
        ensures
            m == self@.modes,
    {
        self.modes
    }

    /// Returns whether the cursor is hidden.
    pub fn hide_cursor(&self) -> (h: bool)
        ensures
            h == self@.hide_cursor,
    {
        self.hide_cursor
    }

    /// Returns whether the alternate screen is shown.
    pub fn alternate_screen(&self) -> (a: bool)
        ensures
            a == self@.alternate,
    {
        self.alternate
    }

    /// Takes one character of text.
    pub fn text(&mut self, c: char)
        requires
            old(self)@.wf(),
            is_text_char(c),
        ensures
            final(self)@ == old(self)@.text(c),
            final(self)@.wf(),
    {
        proof {
            reveal(ScreenView::text);
        }
        proof {
            old(self)@.lemma_text_wf(c);
        }
        self.grid.put_text(c, self.attrs);
    }

    /// Takes one control character.
    pub fn control(&mut self, b: u8)
        requires
            old(self)@.wf(),
        ensures
            final(self)@ == old(self)@.control(b),
            final(self)@.wf(),
    {
        proof {
            reveal(ScreenView::control);
        }
        proof {
            old(self)@.lemma_control_wf(b);
        }
        if b == 0x07 {
            if self.bells < u64::MAX {
                self.bells += 1;
            }
        } else if b == 0x08 {
            self.grid.cursor_left(1);
        } else if b == 0x09 {
            self.grid.tab();
        } else if b == 0x0a || b == 0x0b || b == 0x0c {
            self.grid.line_feed(self.attrs);
        } else if b == 0x0d {
            self.grid.carriage_return();
        }
    }

    fn reset(&mut self)
        requires
            old(self)@.wf(),
        ensures
            final(self)@ == old(self)@.reset(),
    {
        proof {
            self@.grid.lemma_wf_facts();
        }
        if self.alternate {
            core::mem::swap(&mut self.grid, &mut self.other);
            self.alternate = false;
        }
        let size = self.grid.size();
        let keep = self.grid.scrollback_limit();
        let keep_other = self.other.scrollback_limit();
        self.grid = Grid::new(size.rows, size.cols, keep);
        self.other = Grid::new(size.rows, size.cols, keep_other);
        self.attrs = Attrs::default();
        self.saved_attrs = Attrs::default();
        self.hide_cursor = false;
        self.modes = Modes::default();
        self.title = Vec::new();
    }

    /// Takes the function that follows a bare escape character.
    pub fn escape_dispatch(&mut self, b: u8)
        requires
            old(self)@.wf(),
        ensures
            final(self)@ == old(self)@.escape_dispatch(b),
            final(self)@.wf(),
    {
        proof {
            reveal(ScreenView::escape_dispatch);
        }
        proof {
            old(self)@.lemma_escape_dispatch_wf(b);
        }
        if b == 0x44 || b == 0x45 || b == 0x4d {
            self.grid.index_function(b, self.attrs);
        } else if b == 0x37 {
            self.grid.save_cursor();
            self.saved_attrs = self.attrs;
        } else if b == 0x38 {
            self.grid.restore_cursor();
            self.attrs = self.saved_attrs;
        } else if b == 0x3d {
            self.modes.application_keypad = true;
        } else if b == 0x3e {
            self.modes.application_keypad = false;
        } else if b == 0x63 {
            self.reset();
        }
    }

    fn enter_alternate(&mut self)
        requires
            old(self)@.wf(),
        ensures
            final(self)@ == old(self)@.enter_alternate(),
    {
        if !self.alternate {
            core::mem::swap(&mut self.grid, &mut self.other);
            self.grid.clear();
            self.alternate = true;
        }
    }

    fn leave_alternate(&mut self)
        requires
            old(self)@.wf(),
        ensures
            final(self)@ == old(self)@.leave_alternate(),
    {
        if self.alternate {
            core::mem::swap(&mut self.grid, &mut self.other);
            self.alternate = false;
        }
    }

    fn set_mode(&mut self, mode: u16, on: bool)
        requires
            old(self)@.wf(),
        ensures
            final(self)@ == old(self)@.set_mode(mode, on),
            final(self)@.wf(),
    {
        proof {
            old(self)@.lemma_set_mode_wf(mode, on);
        }
        if mode == 6 {
            self.grid.set_origin_mode(on);
        } else if mode == 25 {
            self.hide_cursor = !on;
        } else if mode == 47 || mode == 1049 {
            if on {
                self.enter_alternate();
            } else {
                self.leave_alternate();
            }
        } else {
            self.modes = self.modes.switch(mode, on);
        }
    }

    fn set_modes(&mut self, params: &Vec<u16>, on: bool)
        requires
            old(self)@.wf(),
        ensures
            final(self)@ == old(self)@.set_modes(params@, on),
            final(self)@.wf(),
    {
        let mut i: usize = 0;
        assert(params@.skip(0) =~= params@);
        while i < params.len()
            invariant
                i <= params.len(),
                self@.wf(),
                self@.set_modes(params@.skip(i as int), on) == old(self)@.set_modes(params@, on),
            decreases params.len() - i,
        {
            assert(params@.skip(i as int).skip(1) =~= params@.skip(i + 1));
            self.set_mode(params[i], on);
            i += 1;
        }
    }

    fn plain_dispatch(&mut self, params: &Vec<u16>, function: u8)
        requires
            old(self)@.wf(),
        ensures
            final(self)@ == old(self)@.plain_dispatch(params@, function),
    {
        if function == 0x6d {
            if params.len() == 0 {
                self.attrs = Attrs::default();
            } else {
                self.attrs = apply_sgr(self.attrs, params);
            }
        } else if function == 0x72 {
            self.grid.region_function(params);
        } else if function == 0x4a || function == 0x4b || function == 0x53 || function == 0x54
            || function == 0x58 {
            self.grid.erase_function(params, function, self.attrs);
        } else {
            self.grid.cursor_function(params, function);
        }
    }

    /// Takes a control sequence: its marker, its parameters and its
    /// function.
    pub fn csi_dispatch(&mut self, private: bool, params: &Vec<u16>, function: u8)
        requires
            old(self)@.wf(),
        ensures
            final(self)@ == old(self)@.csi_dispatch(private, params@, function),
            final(self)@.wf(),
    {
        proof {
            reveal(ScreenView::csi_dispatch);
        }
        proof {
            old(self)@.lemma_csi_dispatch_wf(private, params@, function);
        }
        if private {
            if function == 0x68 {
                self.set_modes(params, true);
            } else if function == 0x6c {
                self.set_modes(params, false);
            }
        } else {
            self.plain_dispatch(params, function);
        }
    }

    /// Takes an operating-system command.
    pub fn osc_dispatch(&mut self, payload: &Vec<u8>)
        requires
            old(self)@.wf(),
            is_title(payload@),
        ensures
            final(self)@ == old(self)@.osc_dispatch(payload@),
            final(self)@.wf(),
    {
        proof {
            reveal(ScreenView::osc_dispatch);
        }
        if payload.len() >= 2 && (payload[0] == 0x30 || payload[0] == 0x32) && payload[1] == 0x3b {
            let mut title: Vec<u8> = Vec::new();
            let mut i: usize = 2;
            while i < payload.len()
                invariant
                    2 <= i <= payload.len(),
                    title@ == payload@.subrange(2, i as int),
                decreases payload.len() - i,
            {
                title.push(payload[i]);
                assert(title@ =~= payload@.subrange(2, i + 1));
                i += 1;
            }
            assert(title@ =~= payload@.skip(2));
            self.title = title;
        }
    }
}

} // verus!
