//! What a screen shows, written as the control sequences that draw it.

use vstd::prelude::*;
use crate::attrs::Attrs;
use crate::cell::Cell;
use crate::cell::CellView;
use crate::grid::Pos;
use crate::grid::min_int;
use crate::row::Row;
use crate::row::RowView;
use crate::screen::Modes;
use crate::screen::Screen;
use crate::screen::ScreenView;
use crate::term::CRLF;
use crate::term::ClearScreen;
use crate::term::EraseChar;
use crate::term::HideCursor;
use crate::term::MoveRight;
use crate::term::MoveTo;
use crate::term::decimal;
use crate::term::repeated;
use crate::term::write_bytes;
use crate::term::write_decimal;
use crate::utf8::utf8_text;

verus! {

/// What a screen shows: the part of a screen that the control sequences
/// written here reproduce.
pub struct Shown {
    /// The visible rows, from top to bottom.
    pub rows: Seq<RowView>,
    /// The number of cells in each row.
    pub cols: nat,
    /// Where the cursor is.
    pub pos: Pos,
    /// Whether the cursor has written the last cell of its row and waits to
    /// wrap.
    pub pending_wrap: bool,
    /// Whether the cursor is hidden.
    pub hide_cursor: bool,
    /// The attributes that text is written with.
    pub attrs: Attrs,
    /// The input modes.
    pub modes: Modes,
    /// The title of the window.
    pub title: Seq<u8>,
    /// How often the bell has rung.
    pub bells: nat,
}

impl ScreenView {
    /// What a well-formed screen shows is well-formed.
    pub proof fn lemma_shown_wf(self)
        requires
            self.wf(),
        ensures
            self.shown().wf(),
    {
        self.grid.lemma_wf_facts();
    }

    /// What the screen shows.
    pub open spec fn shown(self) -> Shown {
        Shown {
            rows: self.grid.rows,
            cols: self.grid.cols,
            pos: self.grid.pos,
            pending_wrap: self.grid.pending_wrap,
            hide_cursor: self.hide_cursor,
            attrs: self.attrs,
            modes: self.modes,
            title: self.title,
            bells: self.bells,
        }
    }
}

/// The change of attributes that leads from `from` to `to`: every field
/// that differs is set, the others are left alone.
pub open spec fn attrs_change(from: Attrs, to: Attrs) -> crate::term::Attrs {
    crate::term::Attrs {
        fgcolor: if from.fgcolor != to.fgcolor {
            Some(to.fgcolor)
        } else {
            None
        },
        bgcolor: if from.bgcolor != to.bgcolor {
            Some(to.bgcolor)
        } else {
            None
        },
        bold: if from.bold != to.bold {
            Some(to.bold)
        } else {
            None
        },
        italic: if from.italic != to.italic {
            Some(to.italic)
        } else {
            None
        },
        underline: if from.underline != to.underline {
            Some(to.underline)
        } else {
            None
        },
        inverse: if from.inverse != to.inverse {
            Some(to.inverse)
        } else {
            None
        },
    }
}

/// The sequence that changes the attributes from `from` to `to`: nothing
/// where they are equal.
pub open spec fn attrs_diff(from: Attrs, to: Attrs) -> Seq<u8> {
    if from == to {
        Seq::empty()
    } else {
        attrs_change(from, to).bytes()
    }
}

/// The change that sets every attribute to what it is in `to`.
pub open spec fn attrs_set(to: Attrs) -> crate::term::Attrs {
    crate::term::Attrs {
        fgcolor: Some(to.fgcolor),
        bgcolor: Some(to.bgcolor),
        bold: Some(to.bold),
        italic: Some(to.italic),
        underline: Some(to.underline),
        inverse: Some(to.inverse),
    }
}

/// `ESC [ K`: erases from the cursor to the end of the line.
pub open spec fn clear_row_forward() -> Seq<u8> {
    seq![0x1bu8, 0x5b, 0x4b]
}

/// The part of a row from `start` up to `end`. Half a wide character at
/// either edge is shown as a blank cell.
pub open spec fn clipped(cells: Seq<CellView>, start: int, end: int) -> Seq<CellView> {
    Seq::new(
        max_nat(end - start),
        |k: int|
            {
                let c = cells[start + k];
                if (k == 0 && c.wide_continuation) || (start + k == end - 1 && c.wide) {
                    CellView::blank(c.attrs)
                } else {
                    c
                }
            },
    )
}

/// A number that is not negative, or zero in place of a negative one.
pub open spec fn max_nat(n: int) -> nat {
    if n > 0 {
        n as nat
    } else {
        0
    }
}

/// Where the run of blank cells with the attributes `attrs` that reaches
/// `i` ends.
pub open spec fn run_end(cells: Seq<CellView>, i: int, attrs: Attrs) -> int
    decreases cells.len() - i,
{
    if 0 <= i < cells.len() && !cells[i].occupied() && cells[i].attrs == attrs {
        run_end(cells, i + 1, attrs)
    } else {
        i
    }
}

/// A run of blank cells ends at or behind its start, and inside the row.
pub proof fn lemma_run_end_bounds(cells: Seq<CellView>, i: int, attrs: Attrs)
    ensures
        i <= run_end(cells, i, attrs),
        0 <= i <= cells.len() ==> run_end(cells, i, attrs) <= cells.len(),
    decreases cells.len() - i,
{
    if 0 <= i < cells.len() && !cells[i].occupied() && cells[i].attrs == attrs {
        lemma_run_end_bounds(cells, i + 1, attrs);
    }
}

#[via_fn]
proof fn cells_formatted_decreases(cells: Seq<CellView>, i: int, pen: Attrs, to_line_end: bool) {
    if 0 <= i < cells.len() {
        lemma_run_end_bounds(cells, i + 1, cells[i].attrs);
    }
}

/// The cells from `i` on as text and control sequences, for a cursor that
/// stands on cell `i` and writes with the attributes `pen`. A cell with
/// text is written, behind a change of attributes where its attributes are
/// not those of the cell before. A run of blank cells with the same
/// attributes is erased and stepped over; with `to_line_end`, a run that
/// reaches the end is erased by one erasure to the end of the line.
#[verifier::opaque]
pub open spec fn cells_formatted(cells: Seq<CellView>, i: int, pen: Attrs, to_line_end: bool) -> Seq<
    u8,
>
    decreases cells.len() - i,
    via cells_formatted_decreases
{
    if i < 0 || i >= cells.len() {
        Seq::empty()
    } else {
        let cell = cells[i];
        if cell.text.len() > 0 {
            attrs_diff(pen, cell.attrs) + utf8_text(cell.text) + cells_formatted(
                cells,
                i + 1,
                cell.attrs,
                to_line_end,
            )
        } else if cell.wide_continuation {
            cells_formatted(cells, i + 1, pen, to_line_end)
        } else {
            let j = run_end(cells, i + 1, cell.attrs);
            if j == cells.len() && to_line_end {
                attrs_diff(pen, cell.attrs) + clear_row_forward()
            } else {
                attrs_diff(pen, cell.attrs) + repeated((j - i) as u16, 0x58) + repeated(
                    (j - i) as u16,
                    0x43,
                ) + cells_formatted(cells, j, cell.attrs, to_line_end)
            }
        }
    }
}

/// What makes a row run on into the next: behind the last cell a space is
/// written, which wraps. If the last cell is blank it first gets a space
/// for the cursor to wrap from, and is erased again afterwards. The cursor
/// ends at the start of the next row.
pub open spec fn wrap_tail(last: CellView, r: int, cols: int) -> Seq<u8> {
    if last.occupied() {
        seq![0x20u8] + (MoveTo { row: (r + 1) as u16, col: 0 }).bytes()
    } else {
        seq![0x20u8, 0x20u8] + (MoveTo { row: r as u16, col: (cols - 1) as u16 }).bytes()
            + repeated(1, 0x58) + (MoveTo { row: (r + 1) as u16, col: 0 }).bytes()
    }
}

impl Shown {
    /// Whether this can be what a well-formed screen shows.
    pub open spec fn wf(self) -> bool {
        &&& 1 <= self.rows.len() <= 0xffff
        &&& 2 <= self.cols <= 0xffff
        &&& forall|r: int| 0 <= r < self.rows.len() ==> (#[trigger] self.rows[r]).wf(self.cols)
        &&& self.pos.row < self.rows.len()
        &&& self.pos.col < self.cols
        &&& (self.pending_wrap ==> self.pos.col == self.cols - 1
            && self.rows[self.pos.row as int].cells[self.cols - 1].occupied()
            && !self.rows[self.pos.row as int].wrapped)
        &&& !self.rows[self.rows.len() - 1].wrapped
        &&& crate::screen::is_title(self.title)
        &&& self.bells <= u64::MAX
    }

    /// Whether row `r` runs on into a row below it.
    pub open spec fn wraps(self, r: int) -> bool {
        0 <= r && r + 1 < self.rows.len() && self.rows[r].wrapped
    }

    /// The cells of row `r` from column `start` on, `width` of them or as
    /// many as there are.
    pub open spec fn row_cells(self, r: int, start: int, width: int) -> Seq<CellView> {
        if 0 <= r < self.rows.len() && 0 <= start {
            clipped(self.rows[r].cells, start, min_int(start + width, self.cols as int))
        } else {
            Seq::empty()
        }
    }

    /// The columns from `start` on of row `r` as text and control
    /// sequences, for a cursor that stands at their start and writes with
    /// the attributes `pen`. Where the columns reach the end of a row that
    /// runs on, the cursor is taken to the start of the next row in the way
    /// that makes the row run on.
    pub open spec fn row_formatted(self, r: int, start: int, width: int, pen: Attrs) -> Seq<u8> {
        let cells = self.row_cells(r, start, width);
        if cells.len() == 0 {
            Seq::empty()
        } else {
            let reaches = start + width >= self.cols;
            let wrapping = reaches && self.wraps(r);
            cells_formatted(cells, 0, pen, reaches && !wrapping) + if wrapping {
                wrap_tail(cells.last(), r, self.cols as int)
            } else {
                Seq::empty()
            }
        }
    }

    /// The attributes that the cursor writes with after those columns.
    pub open spec fn row_pen(self, r: int, start: int, width: int, pen: Attrs) -> Attrs {
        let cells = self.row_cells(r, start, width);
        if cells.len() == 0 {
            pen
        } else {
            cells.last().attrs
        }
    }

    /// The rows from `r` on, for a cursor that stands at the start of row
    /// `r` and writes with the attributes `pen`. A row that does not run on
    /// is followed by carriage return and line feed, unless it is the last.
    pub open spec fn rows_formatted_from(self, r: int, pen: Attrs) -> Seq<u8>
        decreases self.rows.len() - r,
    {
        if r < 0 || r >= self.rows.len() {
            Seq::empty()
        } else {
            self.row_formatted(r, 0, self.cols as int, pen) + (if r + 1 < self.rows.len()
                && !self.rows[r].wrapped {
                CRLF::bytes()
            } else {
                Seq::empty()
            }) + self.rows_formatted_from(r + 1, self.row_pen(r, 0, self.cols as int, pen))
        }
    }

    /// The attributes that the cursor writes with after the rows from `r`
    /// on.
    pub open spec fn rows_pen_from(self, r: int, pen: Attrs) -> Attrs
        decreases self.rows.len() - r,
    {
        if r < 0 || r >= self.rows.len() {
            pen
        } else {
            self.rows_pen_from(r + 1, self.row_pen(r, 0, self.cols as int, pen))
        }
    }

    /// The visible contents: the screen is cleared and every row written,
    /// for a terminal that writes with plain attributes.
    pub open spec fn contents_formatted(self) -> Seq<u8> {
        ClearScreen::bytes() + self.rows_formatted_from(0, Attrs::plain())
    }

    /// The column of the cell that a waiting cursor has written.
    pub open spec fn pending_col(self) -> int {
        self.rows[self.pos.row as int].owner(self.cols - 1)
    }

    /// The cell that a waiting cursor has written.
    pub open spec fn pending_cell(self) -> CellView {
        self.rows[self.pos.row as int].cells[self.pending_col()]
    }

    /// The cursor is put in its place. A cursor that waits to wrap gets
    /// there by writing the cell under it once more.
    pub open spec fn cursor_position_formatted(self) -> Seq<u8> {
        if self.pending_wrap {
            (MoveTo { row: self.pos.row, col: self.pending_col() as u16 }).bytes() + attrs_set(
                self.pending_cell().attrs,
            ).bytes() + utf8_text(self.pending_cell().text)
        } else {
            (MoveTo { row: self.pos.row, col: self.pos.col }).bytes()
        }
    }

    /// The attributes that the cursor writes with after it was put in its
    /// place, if it wrote with `pen` before.
    pub open spec fn cursor_pen(self, pen: Attrs) -> Attrs {
        if self.pending_wrap {
            self.pending_cell().attrs
        } else {
            pen
        }
    }

    /// The cursor is shown or hidden and put in its place.
    pub open spec fn cursor_state_formatted(self) -> Seq<u8> {
        (HideCursor { hide: self.hide_cursor }).bytes() + self.cursor_position_formatted()
    }

    /// Every attribute is set to what text is written with.
    pub open spec fn attributes_formatted(self) -> Seq<u8> {
        attrs_set(self.attrs).bytes()
    }

    /// Every input mode is switched to what it is.
    pub open spec fn input_mode_formatted(self) -> Seq<u8> {
        modes_diff(false, self.modes, self.modes)
    }

    /// The title is set.
    pub open spec fn title_formatted(self) -> Seq<u8> {
        seq![0x1bu8, 0x5d, 0x32, 0x3b] + self.title + seq![0x07u8]
    }

    /// One bell for each time the bell has rung more often than on
    /// `prev`.
    pub open spec fn bells_diff(self, prev: Shown) -> Seq<u8> {
        Seq::new(max_nat(self.bells - prev.bells), |i: int| 0x07u8)
    }

    /// All that the screen shows, for a blank terminal of the same size:
    /// the contents, the cursor, the attributes, the input modes and the
    /// title.
    pub open spec fn state_formatted(self) -> Seq<u8> {
        self.contents_formatted() + self.cursor_state_formatted() + self.attributes_formatted()
            + self.input_mode_formatted() + self.title_formatted()
    }

    /// Whether row `r` is written when `prev` is turned into this: it
    /// differs, or the row above is written and runs on into it.
    pub open spec fn row_differs(self, prev: Shown, r: int, carried: bool) -> bool {
        carried || self.rows[r] != prev.rows[r]
    }

    /// The rows from `r` on that differ from those of `prev`, each one
    /// behind a move to its start unless the row above has taken the cursor
    /// there. With `carried`, the row above is written and runs on.
    pub open spec fn rows_diff_from(self, prev: Shown, r: int, carried: bool, pen: Attrs) -> Seq<
        u8,
    >
        decreases self.rows.len() - r,
    {
        if r < 0 || r >= self.rows.len() {
            Seq::empty()
        } else if self.row_differs(prev, r, carried) {
            (if carried {
                Seq::empty()
            } else {
                (MoveTo { row: r as u16, col: 0 }).bytes()
            }) + self.row_formatted(r, 0, self.cols as int, pen) + self.rows_diff_from(
                prev,
                r + 1,
                self.wraps(r),
                self.row_pen(r, 0, self.cols as int, pen),
            )
        } else {
            self.rows_diff_from(prev, r + 1, false, pen)
        }
    }

    /// The attributes that the cursor writes with after those rows.
    pub open spec fn rows_diff_pen(self, prev: Shown, r: int, carried: bool, pen: Attrs) -> Attrs
        decreases self.rows.len() - r,
    {
        if r < 0 || r >= self.rows.len() {
            pen
        } else if self.row_differs(prev, r, carried) {
            self.rows_diff_pen(
                prev,
                r + 1,
                self.wraps(r),
                self.row_pen(r, 0, self.cols as int, pen),
            )
        } else {
            self.rows_diff_pen(prev, r + 1, false, pen)
        }
    }

    /// Whether any row from `r` on is written.
    pub open spec fn rows_diff_any(self, prev: Shown, r: int, carried: bool) -> bool
        decreases self.rows.len() - r,
    {
        if r < 0 || r >= self.rows.len() {
            false
        } else if self.row_differs(prev, r, carried) {
            true
        } else {
            self.rows_diff_any(prev, r + 1, false)
        }
    }

    /// Whether the cursor has to be put in its place when `prev` is turned
    /// into this: it is elsewhere, or rows are written, which moves it.
    pub open spec fn cursor_differs(self, prev: Shown) -> bool {
        self.pos != prev.pos || self.pending_wrap != prev.pending_wrap || self.rows_diff_any(
            prev,
            0,
            false,
        )
    }

    /// The cursor is shown or hidden if that differs from `prev`, and put
    /// in its place if it has to be.
    pub open spec fn cursor_state_diff(self, prev: Shown) -> Seq<u8> {
        (if self.hide_cursor != prev.hide_cursor {
            (HideCursor { hide: self.hide_cursor }).bytes()
        } else {
            Seq::empty()
        }) + (if self.cursor_differs(prev) {
            self.cursor_position_formatted()
        } else {
            Seq::empty()
        })
    }

    /// The attributes that the cursor writes with after rows and cursor of
    /// this were written over `prev`.
    pub open spec fn diff_pen(self, prev: Shown) -> Attrs {
        let drawn = self.rows_diff_pen(prev, 0, false, prev.attrs);
        if self.cursor_differs(prev) {
            self.cursor_pen(drawn)
        } else {
            drawn
        }
    }

    /// The title is set if it differs from that of `prev`.
    pub open spec fn title_diff(self, prev: Shown) -> Seq<u8> {
        if self.title == prev.title {
            Seq::empty()
        } else {
            self.title_formatted()
        }
    }

    /// What turns a terminal that shows `prev` into one that shows this:
    /// the rows that differ, then cursor, attributes, input modes and title
    /// as far as they differ. For a `prev` of another size this is all that
    /// the screen shows.
    pub open spec fn state_diff(self, prev: Shown) -> Seq<u8> {
        if self.rows.len() != prev.rows.len() || self.cols != prev.cols {
            self.state_formatted()
        } else {
            self.rows_diff_from(prev, 0, false, prev.attrs) + self.cursor_state_diff(prev)
                + attrs_diff(self.diff_pen(prev), self.attrs) + modes_diff(
                true,
                prev.modes,
                self.modes,
            ) + self.title_diff(prev)
        }
    }
}

/// The sequence that switches the keypad mode.
#[verifier::opaque]
pub open spec fn keypad_mode(on: bool) -> Seq<u8> {
    seq![0x1bu8, if on { 0x3du8 } else { 0x3eu8 }]
}

/// The sequence that switches the private mode with number `mode`.
#[verifier::opaque]
pub open spec fn private_mode(mode: u16, on: bool) -> Seq<u8> {
    seq![0x1bu8, 0x5b, 0x3f] + decimal(mode as nat) + seq![if on { 0x68u8 } else { 0x6cu8 }]
}

/// The sequence for one mode: nothing if the mode is known to be as it
/// was.
#[verifier::opaque]
pub open spec fn mode_diff(known: bool, was: bool, on: bool, sequence: Seq<u8>) -> Seq<u8> {
    if known && was == on {
        Seq::empty()
    } else {
        sequence
    }
}

/// The numbers of the private modes that are input modes, in the order in
/// which they are written.
pub open spec fn input_mode_numbers() -> Seq<u16> {
    seq![1u16, 2004, 1000, 1002, 1003, 1005, 1006]
}

/// The sequences that switch the first `k` private input modes, as far as
/// they have to be written.
pub open spec fn private_modes_diff(known: bool, prev: Modes, modes: Modes, k: int) -> Seq<u8>
    decreases k,
{
    if k <= 0 {
        Seq::empty()
    } else {
        let mode = input_mode_numbers()[k - 1];
        private_modes_diff(known, prev, modes, k - 1) + mode_diff(
            known,
            prev.private(mode),
            modes.private(mode),
            private_mode(mode, modes.private(mode)),
        )
    }
}

/// The sequences that switch the input modes to `modes`: those that differ
/// from `prev`, or all of them where `known` says that nothing is known of
/// the modes before. The keypad mode comes first, then the private modes.
pub open spec fn modes_diff(known: bool, prev: Modes, modes: Modes) -> Seq<u8> {
    mode_diff(
        known,
        prev.application_keypad,
        modes.application_keypad,
        keypad_mode(modes.application_keypad),
    ) + private_modes_diff(known, prev, modes, 7)
}


/// The part of a well-formed row between two columns is a well-formed row.
pub proof fn lemma_clipped_wf(row: RowView, cols: nat, start: int, end: int)
    requires
        row.wf(cols),
        0 <= start < end <= cols,
    ensures
        (RowView { cells: clipped(row.cells, start, end), wrapped: false }).wf((end - start) as nat),
        start == 0 && end == cols ==> clipped(row.cells, start, end) == row.cells,
{
    let c = clipped(row.cells, start, end);
    let n = (end - start) as nat;
    let r = RowView { cells: c, wrapped: false };
    assert forall|i: int| 0 <= i < n implies (#[trigger] r.cells[i]).wf() by {
        row.lemma_wf_at(cols, start + i);
    }
    assert forall|i: int| 0 <= i < n implies #[trigger] r.linked(i) by {
        row.lemma_wf_at(cols, start + i);
    }
    row.lemma_wf_at(cols, end - 1);
    if start == 0 && end == cols {
        row.lemma_wf_at(cols, 0);
        assert(c =~= row.cells);
    }
}

/// Appends the sequence that changes the attributes from `from` to `to`.
pub fn write_attrs_diff(buf: &mut Vec<u8>, from: Attrs, to: Attrs)
    ensures
        final(buf)@ == old(buf)@ + attrs_diff(from, to),
{
    if from == to {
        assert(buf@ =~= old(buf)@ + attrs_diff(from, to));
        return ;
    }
    let change = crate::term::Attrs {
        fgcolor: if from.fgcolor != to.fgcolor { Some(to.fgcolor) } else { None },
        bgcolor: if from.bgcolor != to.bgcolor { Some(to.bgcolor) } else { None },
        bold: if from.bold != to.bold { Some(to.bold) } else { None },
        italic: if from.italic != to.italic { Some(to.italic) } else { None },
        underline: if from.underline != to.underline { Some(to.underline) } else { None },
        inverse: if from.inverse != to.inverse { Some(to.inverse) } else { None },
    };
    change.write_buf(buf);
}

/// Appends the sequence that sets every attribute to what it is in `to`.
pub fn write_attrs_set(buf: &mut Vec<u8>, to: Attrs)
    ensures
        final(buf)@ == old(buf)@ + attrs_set(to).bytes(),
{
    let change = crate::term::Attrs {
        fgcolor: Some(to.fgcolor),
        bgcolor: Some(to.bgcolor),
        bold: Some(to.bold),
        italic: Some(to.italic),
        underline: Some(to.underline),
        inverse: Some(to.inverse),
    };
    change.write_buf(buf);
}

fn shown_cell(row: &Row, start: usize, end: usize, k: usize) -> (cell: Cell)
    requires
        start + k < end <= row@.cells.len(),
    ensures
        cell@ == clipped(row@.cells, start as int, end as int)[k as int],
{
    let c = *row.cell_at(start + k);
    if (k == 0 && c.is_wide_continuation()) || (start + k == end - 1 && c.is_wide()) {
        let mut blank = c;
        blank.clear(*c.attrs());
        blank
    } else {
        c
    }
}

fn find_run_end(row: &Row, start: usize, end: usize, from: usize, attrs: Attrs) -> (j: usize)
    requires
        start < end <= row@.cells.len(),
        from <= end - start,
    ensures
        j == run_end(clipped(row@.cells, start as int, end as int), from as int, attrs),
        from <= j <= end - start,
{
    let n = end - start;
    let ghost cells = clipped(row@.cells, start as int, end as int);
    let mut j = from;
    loop
        invariant
            start < end <= row@.cells.len(),
            n == end - start,
            cells == clipped(row@.cells, start as int, end as int),
            from <= j <= n,
            run_end(cells, j as int, attrs) == run_end(cells, from as int, attrs),
        ensures
            j == run_end(cells, from as int, attrs),
        decreases n - j,
    {
        if j >= n {
            break ;
        }
        let c = shown_cell(row, start, end, j);
        if c.has_contents() || !(*c.attrs() == attrs) {
            break ;
        }
        j += 1;
    }
    j
}

/// What the invariant of a row says of one cell of a part of it.
pub proof fn lemma_clipped_cell(row: RowView, start: int, end: int, i: int)
    requires
        row.wf(row.cells.len()),
        0 <= start < end <= row.cells.len(),
        0 <= i < end - start,
    ensures
        clipped(row.cells, start, end)[i].wf(),
        clipped(row.cells, start, end)[i].wide_continuation ==> i > 0 && clipped(
            row.cells,
            start,
            end,
        )[i].attrs == clipped(row.cells, start, end)[i - 1].attrs,
{
    lemma_clipped_wf(row, row.cells.len(), start, end);
    let r = RowView { cells: clipped(row.cells, start, end), wrapped: false };
    r.lemma_wf_at((end - start) as nat, i);
}

/// Joining three runs of bytes gives the same whichever two are joined
/// first.
pub proof fn lemma_join(a: Seq<u8>, b: Seq<u8>, c: Seq<u8>)
    ensures
        a + (b + c) == (a + b) + c,
{
    assert(a + (b + c) =~= (a + b) + c);
}

/// What `cells_formatted` is, one cell or one run at a time.
pub proof fn lemma_cells_formatted_unfold(
    cells: Seq<CellView>,
    i: int,
    pen: Attrs,
    to_line_end: bool,
)
    ensures
        cells_formatted(cells, i, pen, to_line_end) == if i < 0 || i >= cells.len() {
            Seq::<u8>::empty()
        } else if cells[i].text.len() > 0 {
            attrs_diff(pen, cells[i].attrs) + utf8_text(cells[i].text) + cells_formatted(
                cells,
                i + 1,
                cells[i].attrs,
                to_line_end,
            )
        } else if cells[i].wide_continuation {
            cells_formatted(cells, i + 1, pen, to_line_end)
        } else if run_end(cells, i + 1, cells[i].attrs) == cells.len() && to_line_end {
            attrs_diff(pen, cells[i].attrs) + clear_row_forward()
        } else {
            attrs_diff(pen, cells[i].attrs) + repeated(
                (run_end(cells, i + 1, cells[i].attrs) - i) as u16,
                0x58,
            ) + repeated((run_end(cells, i + 1, cells[i].attrs) - i) as u16, 0x43)
                + cells_formatted(
                cells,
                run_end(cells, i + 1, cells[i].attrs),
                cells[i].attrs,
                to_line_end,
            )
        },
{
    reveal_with_fuel(cells_formatted, 2);
}

/// What `cells_formatted` is at a cell with text.
pub proof fn lemma_cells_formatted_text(
    cells: Seq<CellView>,
    i: int,
    pen: Attrs,
    to_line_end: bool,
)
    requires
        0 <= i < cells.len(),
        cells[i].text.len() > 0,
    ensures
        cells_formatted(cells, i, pen, to_line_end) == attrs_diff(pen, cells[i].attrs) + utf8_text(
            cells[i].text,
        ) + cells_formatted(cells, i + 1, cells[i].attrs, to_line_end),
{
    lemma_cells_formatted_unfold(cells, i, pen, to_line_end);
}

/// What `cells_formatted` is at the second half of a wide character.
pub proof fn lemma_cells_formatted_skip(
    cells: Seq<CellView>,
    i: int,
    pen: Attrs,
    to_line_end: bool,
)
    requires
        0 <= i < cells.len(),
        cells[i].text.len() == 0,
        cells[i].wide_continuation,
    ensures
        cells_formatted(cells, i, pen, to_line_end) == cells_formatted(
            cells,
            i + 1,
            pen,
            to_line_end,
        ),
{
    lemma_cells_formatted_unfold(cells, i, pen, to_line_end);
}

/// What `cells_formatted` is at a run of blank cells.
pub proof fn lemma_cells_formatted_run(
    cells: Seq<CellView>,
    i: int,
    pen: Attrs,
    to_line_end: bool,
)
    requires
        0 <= i < cells.len(),
        cells[i].text.len() == 0,
        !cells[i].wide_continuation,
    ensures
        cells_formatted(cells, i, pen, to_line_end) == if run_end(cells, i + 1, cells[i].attrs)
            == cells.len() && to_line_end {
            attrs_diff(pen, cells[i].attrs) + clear_row_forward()
        } else {
            attrs_diff(pen, cells[i].attrs) + repeated(
                (run_end(cells, i + 1, cells[i].attrs) - i) as u16,
                0x58,
            ) + repeated((run_end(cells, i + 1, cells[i].attrs) - i) as u16, 0x43)
                + cells_formatted(
                cells,
                run_end(cells, i + 1, cells[i].attrs),
                cells[i].attrs,
                to_line_end,
            )
        },
        cells_formatted(cells, cells.len() as int, cells[i].attrs, to_line_end) == Seq::<u8>::empty(),
{
    lemma_cells_formatted_unfold(cells, i, pen, to_line_end);
    lemma_cells_formatted_unfold(cells, cells.len() as int, cells[i].attrs, to_line_end);
}

fn write_text_cell(
    buf: &mut Vec<u8>,
    cell: &Cell,
    pen: Attrs,
    Ghost(cells): Ghost<Seq<CellView>>,
    Ghost(i): Ghost<int>,
    Ghost(to_line_end): Ghost<bool>,
)
    requires
        0 <= i < cells.len(),
        cell@ == cells[i],
        cells[i].text.len() > 0,
    ensures
        old(buf)@ + cells_formatted(cells, i, pen, to_line_end) == final(buf)@ + cells_formatted(
            cells,
            i + 1,
            cells[i].attrs,
            to_line_end,
        ),
{
    let attrs = *cell.attrs();
    write_attrs_diff(buf, pen, attrs);
    cell.write_contents(buf);
    proof {
        let next = cells_formatted(cells, i + 1, attrs, to_line_end);
        lemma_cells_formatted_text(cells, i, pen, to_line_end);
        lemma_join(old(buf)@, attrs_diff(pen, attrs), utf8_text(cell@.text));
        lemma_join(old(buf)@, attrs_diff(pen, attrs) + utf8_text(cell@.text), next);
    }
}

fn write_blank_run(
    buf: &mut Vec<u8>,
    attrs: Attrs,
    pen: Attrs,
    count: u16,
    to_end: bool,
    Ghost(cells): Ghost<Seq<CellView>>,
    Ghost(i): Ghost<int>,
    Ghost(to_line_end): Ghost<bool>,
)
    requires
        0 <= i < cells.len(),
        cells[i].text.len() == 0,
        !cells[i].wide_continuation,
        cells[i].attrs == attrs,
        count == run_end(cells, i + 1, attrs) - i,
        to_end == (run_end(cells, i + 1, attrs) == cells.len() && to_line_end),
    ensures
        old(buf)@ + cells_formatted(cells, i, pen, to_line_end) == final(buf)@ + cells_formatted(
            cells,
            run_end(cells, i + 1, attrs),
            attrs,
            to_line_end,
        ),
{
    write_attrs_diff(buf, pen, attrs);
    proof {
        lemma_cells_formatted_run(cells, i, pen, to_line_end);
    }
    if to_end {
        let ghost mid = buf@;
        buf.push(0x1b);
        buf.push(0x5b);
        buf.push(0x4b);
        proof {
            assert(buf@ =~= mid + clear_row_forward());
            lemma_join(old(buf)@, attrs_diff(pen, attrs), clear_row_forward());
            assert(buf@ + Seq::<u8>::empty() =~= buf@);
        }
    } else {
        EraseChar::new(count).write_buf(buf);
        MoveRight::new(count).write_buf(buf);
        proof {
            let next = cells_formatted(cells, run_end(cells, i + 1, attrs), attrs, to_line_end);
            let d = attrs_diff(pen, attrs);
            let e = repeated(count, 0x58);
            let m = repeated(count, 0x43);
            lemma_join(old(buf)@, d, e);
            lemma_join(old(buf)@, d + e, m);
            lemma_join(old(buf)@, d + e + m, next);
        }
    }
}

fn write_cell(
    buf: &mut Vec<u8>,
    row: &Row,
    start: usize,
    end: usize,
    i: usize,
    pen: Attrs,
    to_line_end: bool,
) -> (next: (usize, Attrs))
    requires
        row@.wf(row@.cells.len()),
        start < end <= row@.cells.len(),
        row@.cells.len() <= 0xffff,
        i < end - start,
        i > 0 ==> pen == clipped(row@.cells, start as int, end as int)[i - 1].attrs,
    ensures
        i < next.0 <= end - start,
        next.1 == clipped(row@.cells, start as int, end as int)[next.0 - 1].attrs,
        old(buf)@ + cells_formatted(
            clipped(row@.cells, start as int, end as int),
            i as int,
            pen,
            to_line_end,
        ) == final(buf)@ + cells_formatted(
            clipped(row@.cells, start as int, end as int),
            next.0 as int,
            next.1,
            to_line_end,
        ),
{
    let n = end - start;
    let ghost cells = clipped(row@.cells, start as int, end as int);
    proof {
        lemma_clipped_cell(row@, start as int, end as int, i as int);
    }
    let cell = shown_cell(row, start, end, i);
    if cell.is_wide_continuation() {
        proof {
            lemma_cells_formatted_skip(cells, i as int, pen, to_line_end);
        }
        (i + 1, pen)
    } else if cell.has_contents() {
        write_text_cell(buf, &cell, pen, Ghost(cells), Ghost(i as int), Ghost(to_line_end));
        (i + 1, *cell.attrs())
    } else {
        let attrs = *cell.attrs();
        let j = find_run_end(row, start, end, i + 1, attrs);
        proof {
            lemma_run_cells(cells, i + 1, attrs);
            if j > i + 1 {
                assert(cells[j - 1].attrs == attrs);
            }
        }
        write_blank_run(
            buf,
            attrs,
            pen,
            (j - i) as u16,
            j == n && to_line_end,
            Ghost(cells),
            Ghost(i as int),
            Ghost(to_line_end),
        );
        (j, attrs)
    }
}

fn write_cells(
    buf: &mut Vec<u8>,
    row: &Row,
    start: usize,
    end: usize,
    pen: Attrs,
    to_line_end: bool,
) -> (last: Attrs)
    requires
        row@.wf(row@.cells.len()),
        start < end <= row@.cells.len(),
        row@.cells.len() <= 0xffff,
    ensures
        final(buf)@ == old(buf)@ + cells_formatted(
            clipped(row@.cells, start as int, end as int),
            0,
            pen,
            to_line_end,
        ),
        last == clipped(row@.cells, start as int, end as int).last().attrs,
{
    let n = end - start;
    let ghost cells = clipped(row@.cells, start as int, end as int);
    let mut i: usize = 0;
    let mut cur = pen;
    while i < n
        invariant
            row@.wf(row@.cells.len()),
            start < end <= row@.cells.len(),
            row@.cells.len() <= 0xffff,
            n == end - start,
            cells == clipped(row@.cells, start as int, end as int),
            i <= n,
            i > 0 ==> cur == cells[i - 1].attrs,
            buf@ + cells_formatted(cells, i as int, cur, to_line_end) == old(buf)@
                + cells_formatted(cells, 0, pen, to_line_end),
        decreases n - i,
    {
        let next = write_cell(buf, row, start, end, i, cur, to_line_end);
        i = next.0;
        cur = next.1;
    }
    proof {
        lemma_cells_formatted_unfold(cells, n as int, cur, to_line_end);
        assert(buf@ =~= buf@ + Seq::<u8>::empty());
    }
    cur
}

/// The cells of a run of blank cells are blank and have the attributes of
/// the run.
pub proof fn lemma_run_cells(cells: Seq<CellView>, i: int, attrs: Attrs)
    requires
        0 <= i,
    ensures
        forall|k: int|
            i <= k < run_end(cells, i, attrs) ==> !(#[trigger] cells[k]).occupied() && cells[k].attrs
                == attrs,
    decreases cells.len() - i,
{
    if 0 <= i < cells.len() && !cells[i].occupied() && cells[i].attrs == attrs {
        lemma_run_cells(cells, i + 1, attrs);
    }
}

fn write_wrap_tail(buf: &mut Vec<u8>, last: &Cell, r: u16, cols: u16)
    requires
        r < 0xffff,
        cols >= 1,
    ensures
        final(buf)@ == old(buf)@ + wrap_tail(last@, r as int, cols as int),
{
    if last.has_contents() {
        buf.push(0x20);
        MoveTo::new(Pos { row: r + 1, col: 0 }).write_buf(buf);
        assert(buf@ =~= old(buf)@ + wrap_tail(last@, r as int, cols as int));
    } else {
        buf.push(0x20);
        buf.push(0x20);
        MoveTo::new(Pos { row: r, col: cols - 1 }).write_buf(buf);
        EraseChar::new(1).write_buf(buf);
        MoveTo::new(Pos { row: r + 1, col: 0 }).write_buf(buf);
        assert(buf@ =~= old(buf)@ + wrap_tail(last@, r as int, cols as int));
    }
}

fn write_keypad_mode(buf: &mut Vec<u8>, known: bool, was: bool, on: bool)
    ensures
        final(buf)@ == old(buf)@ + mode_diff(known, was, on, keypad_mode(on)),
{
    proof {
        reveal(mode_diff);
    }
    if known && was == on {
        assert(buf@ =~= old(buf)@ + Seq::<u8>::empty());
    } else {
        buf.push(0x1b);
        buf.push(if on { 0x3d } else { 0x3e });
        proof {
            reveal(keypad_mode);
        }
        assert(buf@ =~= old(buf)@ + keypad_mode(on));
    }
}

fn write_private_mode(buf: &mut Vec<u8>, known: bool, was: bool, mode: u16, on: bool)
    ensures
        final(buf)@ == old(buf)@ + mode_diff(known, was, on, private_mode(mode, on)),
{
    proof {
        reveal(mode_diff);
    }
    if known && was == on {
        assert(buf@ =~= old(buf)@ + Seq::<u8>::empty());
    } else {
        buf.push(0x1b);
        buf.push(0x5b);
        buf.push(0x3f);
        write_decimal(buf, mode as u32);
        buf.push(if on { 0x68 } else { 0x6c });
        proof {
            reveal(private_mode);
        }
        assert(buf@ =~= old(buf)@ + private_mode(mode, on));
    }
}

fn input_mode_number(i: usize) -> (mode: u16)
    requires
        i < 7,
    ensures
        mode == input_mode_numbers()[i as int],
{
    if i == 0 {
        1
    } else if i == 1 {
        2004
    } else if i == 2 {
        1000
    } else if i == 3 {
        1002
    } else if i == 4 {
        1003
    } else if i == 5 {
        1005
    } else {
        1006
    }
}

/// Appends the sequences that switch the input modes to `modes`: those
/// that differ from `prev`, or all of them where `known` is false.
pub fn write_modes_diff(buf: &mut Vec<u8>, known: bool, prev: Modes, modes: Modes)
    ensures
        final(buf)@ == old(buf)@ + modes_diff(known, prev, modes),
{
    write_keypad_mode(buf, known, prev.application_keypad, modes.application_keypad);
    let ghost head = buf@;
    let mut i: usize = 0;
    assert(buf@ =~= head + private_modes_diff(known, prev, modes, 0));
    while i < 7
        invariant
            i <= 7,
            buf@ == head + private_modes_diff(known, prev, modes, i as int),
        decreases 7 - i,
    {
        let mode = input_mode_number(i);
        let ghost before = private_modes_diff(known, prev, modes, i as int);
        write_private_mode(buf, known, prev.is_on(mode), mode, modes.is_on(mode));
        proof {
            lemma_join(
                head,
                before,
                mode_diff(
                    known,
                    prev.private(mode),
                    modes.private(mode),
                    private_mode(mode, modes.private(mode)),
                ),
            );
        }
        i += 1;
    }
    proof {
        lemma_join(
            old(buf)@,
            mode_diff(
                known,
                prev.application_keypad,
                modes.application_keypad,
                keypad_mode(modes.application_keypad),
            ),
            private_modes_diff(known, prev, modes, 7),
        );
    }
}

impl Screen {
    fn write_row(&self, buf: &mut Vec<u8>, r: u16, start: u16, width: u16, pen: Attrs) -> (last:
        Attrs)
        requires
            self@.wf(),
        ensures
            final(buf)@ == old(buf)@ + self@.shown().row_formatted(
                r as int,
                start as int,
                width as int,
                pen,
            ),
            last == self@.shown().row_pen(r as int, start as int, width as int, pen),
    {
        let ghost d = self@.shown();
        proof {
            self@.grid.lemma_wf_facts();
        }
        let size = self.grid().size();
        if r >= size.rows || start >= size.cols || width == 0 {
            proof {
                assert(d.row_cells(r as int, start as int, width as int) =~= Seq::<
                    CellView,
                >::empty());
                assert(buf@ =~= old(buf)@ + Seq::<u8>::empty());
            }
            return pen;
        }
        let row = self.grid().row(r).unwrap();
        assert(d.rows[r as int].wf(d.cols));
        let reaches = width >= size.cols - start;
        let end: u16 = if reaches { size.cols } else { start + width };
        let wrapping = reaches && r + 1 < size.rows && row.wrapped();
        let ghost cells = d.row_cells(r as int, start as int, width as int);
        assert(cells == clipped(row@.cells, start as int, end as int));
        assert(cells.len() == end - start);
        let last = write_cells(buf, row, start as usize, end as usize, pen, reaches && !wrapping);
        if wrapping {
            let cell = shown_cell(row, start as usize, end as usize, (end - start - 1) as usize);
            write_wrap_tail(buf, &cell, r, size.cols);
            assert(buf@ =~= old(buf)@ + d.row_formatted(r as int, start as int, width as int, pen));
        } else {
            assert(buf@ =~= old(buf)@ + d.row_formatted(r as int, start as int, width as int, pen));
        }
        last
    }

    /// Returns the columns from `start` on of row `row`, `width` of them or
    /// as many as there are, as text and control sequences: what draws them
    /// for a cursor that stands at their start and writes with plain
    /// attributes. A row that the screen does not have gives nothing.
    pub fn row_formatted(&self, row: u16, start: u16, width: u16) -> (bytes: Vec<u8>)
        requires
            self@.wf(),
        ensures
            bytes@ == self@.shown().row_formatted(
                row as int,
                start as int,
                width as int,
                Attrs::plain(),
            ),
    {
        let mut buf: Vec<u8> = Vec::new();
        self.write_row(&mut buf, row, start, width, Attrs::default());
        assert(buf@ =~= self@.shown().row_formatted(
            row as int,
            start as int,
            width as int,
            Attrs::plain(),
        ));
        buf
    }

    /// Returns the rows of the screen, each as `row_formatted` gives it,
    /// from the top.
    pub fn rows_formatted(&self, start: u16, width: u16) -> (rows: Vec<Vec<u8>>)
        requires
            self@.wf(),
        ensures
            rows@.len() == self@.shown().rows.len(),
            forall|r: int|
                0 <= r < rows@.len() ==> (#[trigger] rows@[r])@ == self@.shown().row_formatted(
                    r,
                    start as int,
                    width as int,
                    Attrs::plain(),
                ),
    {
        proof {
            self@.grid.lemma_wf_facts();
        }
        let size = self.grid().size();
        let mut rows: Vec<Vec<u8>> = Vec::new();
        let mut r: u16 = 0;
        while r < size.rows
            invariant
                self@.wf(),
                r <= size.rows,
                size.rows == self@.shown().rows.len(),
                rows@.len() == r,
                forall|k: int|
                    0 <= k < r ==> (#[trigger] rows@[k])@ == self@.shown().row_formatted(
                        k,
                        start as int,
                        width as int,
                        Attrs::plain(),
                    ),
            decreases size.rows - r,
        {
            rows.push(self.row_formatted(r, start, width));
            r += 1;
        }
        rows
    }

    fn write_rows(&self, buf: &mut Vec<u8>, pen: Attrs) -> (last: Attrs)
        requires
            self@.wf(),
        ensures
            final(buf)@ == old(buf)@ + self@.shown().rows_formatted_from(0, pen),
            last == self@.shown().rows_pen_from(0, pen),
    {
        let ghost d = self@.shown();
        proof {
            self@.grid.lemma_wf_facts();
        }
        let size = self.grid().size();
        let mut r: u16 = 0;
        let mut cur = pen;
        while r < size.rows
            invariant
                self@.wf(),
                d == self@.shown(),
                r <= size.rows,
                size.rows == d.rows.len(),
                size.cols == d.cols,
                buf@ + d.rows_formatted_from(r as int, cur) == old(buf)@ + d.rows_formatted_from(
                    0,
                    pen,
                ),
                d.rows_pen_from(r as int, cur) == d.rows_pen_from(0, pen),
            decreases size.rows - r,
        {
            let ghost before = buf@;
            let ghost rest = d.rows_formatted_from(r as int, cur);
            let next = self.write_row(buf, r, 0, size.cols, cur);
            if r + 1 < size.rows && !self.row_wrapped(r) {
                CRLF::new().write_buf(buf);
            }
            proof {
                assert(buf@ + d.rows_formatted_from(r + 1, next) =~= before + rest);
            }
            cur = next;
            r += 1;
        }
        proof {
            assert(d.rows_formatted_from(r as int, cur) =~= Seq::<u8>::empty());
            assert(buf@ =~= buf@ + Seq::<u8>::empty());
        }
        cur
    }

    /// Returns the visible contents as text and control sequences: the
    /// screen is cleared and every row written, for a terminal that writes
    /// with plain attributes.
    pub fn contents_formatted(&self) -> (bytes: Vec<u8>)
        requires
            self@.wf(),
        ensures
            bytes@ == self@.shown().contents_formatted(),
    {
        let mut buf: Vec<u8> = Vec::new();
        ClearScreen::new().write_buf(&mut buf);
        self.write_rows(&mut buf, Attrs::default());
        assert(buf@ =~= self@.shown().contents_formatted());
        buf
    }

    fn write_cursor_position(&self, buf: &mut Vec<u8>)
        requires
            self@.wf(),
        ensures
            final(buf)@ == old(buf)@ + self@.shown().cursor_position_formatted(),
    {
        let ghost d = self@.shown();
        proof {
            self@.grid.lemma_wf_facts();
        }
        let pos = self.grid().pos();
        if self.grid().pending_wrap() {
            let row = self.grid().row(pos.row).unwrap();
            assert(d.rows[pos.row as int].wf(d.cols));
            let size = self.grid().size();
            let last = size.cols - 1;
            let col = if row.cell_at(last as usize).is_wide_continuation() {
                last - 1
            } else {
                last
            };
            let cell = row.cell_at(col as usize);
            MoveTo::new(Pos { row: pos.row, col }).write_buf(buf);
            write_attrs_set(buf, *cell.attrs());
            cell.write_contents(buf);
            assert(buf@ =~= old(buf)@ + d.cursor_position_formatted());
        } else {
            MoveTo::new(pos).write_buf(buf);
        }
    }

    /// Returns the sequences that show or hide the cursor and put it in its
    /// place.
    pub fn cursor_state_formatted(&self) -> (bytes: Vec<u8>)
        requires
            self@.wf(),
        ensures
            bytes@ == self@.shown().cursor_state_formatted(),
    {
        let mut buf: Vec<u8> = Vec::new();
        HideCursor::new(self.hide_cursor()).write_buf(&mut buf);
        self.write_cursor_position(&mut buf);
        assert(buf@ =~= self@.shown().cursor_state_formatted());
        buf
    }

    /// Returns the sequence that sets every attribute to what text is
    /// written with.
    pub fn attributes_formatted(&self) -> (bytes: Vec<u8>)
        ensures
            bytes@ == self@.shown().attributes_formatted(),
    {
        let mut buf: Vec<u8> = Vec::new();
        write_attrs_set(&mut buf, self.attrs());
        assert(buf@ =~= self@.shown().attributes_formatted());
        buf
    }

    /// Returns the sequences that switch every input mode to what it is.
    pub fn input_mode_formatted(&self) -> (bytes: Vec<u8>)
        ensures
            bytes@ == self@.shown().input_mode_formatted(),
    {
        let mut buf: Vec<u8> = Vec::new();
        write_modes_diff(&mut buf, false, self.modes(), self.modes());
        assert(buf@ =~= self@.shown().input_mode_formatted());
        buf
    }

    fn write_title(&self, buf: &mut Vec<u8>)
        ensures
            final(buf)@ == old(buf)@ + self@.shown().title_formatted(),
    {
        buf.push(0x1b);
        buf.push(0x5d);
        buf.push(0x32);
        buf.push(0x3b);
        let ghost head = buf@;
        write_bytes(buf, self.title().as_slice());
        buf.push(0x07);
        assert(buf@ =~= old(buf)@ + self@.shown().title_formatted());
    }

    /// Returns the sequence that sets the title.
    pub fn title_formatted(&self) -> (bytes: Vec<u8>)
        ensures
            bytes@ == self@.shown().title_formatted(),
    {
        let mut buf: Vec<u8> = Vec::new();
        self.write_title(&mut buf);
        assert(buf@ =~= self@.shown().title_formatted());
        buf
    }

    /// Returns one bell for each time the bell has rung more often on this
    /// screen than on `prev`.
    pub fn bells_diff(&self, prev: &Screen) -> (bytes: Vec<u8>)
        ensures
            bytes@ == self@.shown().bells_diff(prev@.shown()),
    {
        let mut buf: Vec<u8> = Vec::new();
        let now = self.bell_count();
        let then = prev.bell_count();
        let count: u64 = if now > then { now - then } else { 0 };
        let mut i: u64 = 0;
        while i < count
            invariant
                i <= count,
                buf@.len() == i,
                forall|k: int| 0 <= k < i ==> #[trigger] buf@[k] == 0x07u8,
            decreases count - i,
        {
            buf.push(0x07);
            i += 1;
        }
        assert(buf@ =~= self@.shown().bells_diff(prev@.shown()));
        buf
    }

    fn write_state(&self, buf: &mut Vec<u8>)
        requires
            self@.wf(),
        ensures
            final(buf)@ == old(buf)@ + self@.shown().state_formatted(),
    {
        let ghost d = self@.shown();
        ClearScreen::new().write_buf(buf);
        self.write_rows(buf, Attrs::default());
        HideCursor::new(self.hide_cursor()).write_buf(buf);
        self.write_cursor_position(buf);
        write_attrs_set(buf, self.attrs());
        write_modes_diff(buf, false, self.modes(), self.modes());
        self.write_title(buf);
        assert(buf@ =~= old(buf)@ + d.state_formatted());
    }

    /// Returns all that the screen shows as text and control sequences, for
    /// a blank terminal of the same size: the contents, the cursor, the
    /// attributes, the input modes and the title.
    pub fn state_formatted(&self) -> (bytes: Vec<u8>)
        requires
            self@.wf(),
        ensures
            bytes@ == self@.shown().state_formatted(),
    {
        let mut buf: Vec<u8> = Vec::new();
        self.write_state(&mut buf);
        assert(buf@ =~= self@.shown().state_formatted());
        buf
    }

    fn write_rows_diff(&self, buf: &mut Vec<u8>, prev: &Screen) -> (end: (Attrs, bool))
        requires
            self@.wf(),
            prev@.wf(),
            self@.grid.sized_as(prev@.grid),
        ensures
            final(buf)@ == old(buf)@ + self@.shown().rows_diff_from(
                prev@.shown(),
                0,
                false,
                prev@.attrs,
            ),
            end.0 == self@.shown().rows_diff_pen(prev@.shown(), 0, false, prev@.attrs),
            end.1 == self@.shown().rows_diff_any(prev@.shown(), 0, false),
    {
        let ghost d = self@.shown();
        let ghost p = prev@.shown();
        proof {
            self@.grid.lemma_wf_facts();
            prev@.grid.lemma_wf_facts();
        }
        let size = self.grid().size();
        let mut r: u16 = 0;
        let mut pen = prev.attrs();
        let mut carried = false;
        let mut any = false;
        while r < size.rows
            invariant
                self@.wf(),
                prev@.wf(),
                d == self@.shown(),
                p == prev@.shown(),
                r <= size.rows,
                size.rows == d.rows.len(),
                size.rows == p.rows.len(),
                size.cols == d.cols,
                carried ==> any,
                buf@ + d.rows_diff_from(p, r as int, carried, pen) == old(buf)@ + d.rows_diff_from(
                    p,
                    0,
                    false,
                    prev@.attrs,
                ),
                d.rows_diff_pen(p, r as int, carried, pen) == d.rows_diff_pen(
                    p,
                    0,
                    false,
                    prev@.attrs,
                ),
                (any || d.rows_diff_any(p, r as int, carried)) == d.rows_diff_any(p, 0, false),
            decreases size.rows - r,
        {
            let ghost before = buf@;
            let ghost rest = d.rows_diff_from(p, r as int, carried, pen);
            let mine = self.grid().row(r).unwrap();
            let theirs = prev.grid().row(r).unwrap();
            if carried || !mine.same_as(theirs) {
                if !carried {
                    MoveTo::new(Pos { row: r, col: 0 }).write_buf(buf);
                }
                let next = self.write_row(buf, r, 0, size.cols, pen);
                let wraps = r + 1 < size.rows && mine.wrapped();
                proof {
                    assert(buf@ + d.rows_diff_from(p, r + 1, wraps, next) =~= before + rest);
                }
                pen = next;
                carried = wraps;
                any = true;
            } else {
                carried = false;
            }
            r += 1;
        }
        proof {
            assert(d.rows_diff_from(p, r as int, carried, pen) =~= Seq::<u8>::empty());
            assert(buf@ =~= buf@ + Seq::<u8>::empty());
        }
        (pen, any)
    }

    /// Returns what turns a terminal that shows `prev` into one that shows
    /// this screen: the rows that differ, then cursor, attributes, input
    /// modes and title as far as they differ. For a `prev` of another size
    /// the result is that of `state_formatted`.
    pub fn state_diff(&self, prev: &Screen) -> (bytes: Vec<u8>)
        requires
            self@.wf(),
            prev@.wf(),
        ensures
            bytes@ == self@.shown().state_diff(prev@.shown()),
    {
        let ghost d = self@.shown();
        let ghost p = prev@.shown();
        let size = self.size();
        let prev_size = prev.size();
        if size.0 != prev_size.0 || size.1 != prev_size.1 {
            return self.state_formatted();
        }
        let mut buf: Vec<u8> = Vec::new();
        let (drawn, any) = self.write_rows_diff(&mut buf, prev);
        let ghost b1 = buf@;
        if self.hide_cursor() != prev.hide_cursor() {
            HideCursor::new(self.hide_cursor()).write_buf(&mut buf);
        }
        let pos = self.grid().pos();
        let prev_pos = prev.grid().pos();
        let moved = pos.row != prev_pos.row || pos.col != prev_pos.col
            || self.grid().pending_wrap() != prev.grid().pending_wrap() || any;
        let mut pen = drawn;
        if moved {
            self.write_cursor_position(&mut buf);
            if self.grid().pending_wrap() {
                proof {
                    self@.grid.lemma_wf_facts();
                }
                let size = self.grid().size();
                let row = self.grid().row(pos.row).unwrap();
                assert(d.rows[pos.row as int].wf(d.cols));
                let last = size.cols - 1;
                let col = if row.cell_at(last as usize).is_wide_continuation() {
                    last - 1
                } else {
                    last
                };
                pen = *row.cell_at(col as usize).attrs();
            }
        }
        let ghost b2 = buf@;
        assert(b2 =~= b1 + d.cursor_state_diff(p));
        assert(pen == d.diff_pen(p));
        write_attrs_diff(&mut buf, pen, self.attrs());
        write_modes_diff(&mut buf, true, prev.modes(), self.modes());
        if !vec_equal(self.title(), prev.title()) {
            self.write_title(&mut buf);
        }
        assert(buf@ =~= d.state_diff(p));
        buf
    }
}

/// Whether two byte strings are the same.
pub fn vec_equal(a: &Vec<u8>, b: &Vec<u8>) -> (same: bool)
    ensures
        same == (a@ == b@),
{
    if a.len() != b.len() {
        return false;
    }
    let mut i: usize = 0;
    while i < a.len()
        invariant
            i <= a@.len(),
            a@.len() == b@.len(),
            forall|k: int| 0 <= k < i ==> a@[k] == b@[k],
        decreases a@.len() - i,
    {
        if a[i] != b[i] {
            return false;
        }
        i += 1;
    }
    assert(a@ =~= b@);
    true
}

} // verus!
