//! The grid of cells behind a screen.

use vstd::prelude::*;
use crate::attrs::Attrs;
use crate::row::Row;
use crate::row::RowView;
use crate::row::is_text_char;
use crate::row::row_views;
use crate::width::char_width;
use crate::width::display_width;

verus! {

/// A position on the grid, counted from the top left corner.
#[derive(Clone, Copy, Debug, PartialEq, Eq, Structural)]
pub struct Pos {
    pub row: u16,
    pub col: u16,
}

impl Default for Pos {
    /// The top left corner.
    fn default() -> (pos: Self)
        ensures
            pos == (Pos { row: 0, col: 0 }),
    {
        Pos { row: 0, col: 0 }
    }
}

/// The smaller of two numbers.
pub open spec fn min_int(a: int, b: int) -> int {
    if a <= b {
        a
    } else {
        b
    }
}

/// The larger of two numbers.
pub open spec fn max_int(a: int, b: int) -> int {
    if a >= b {
        a
    } else {
        b
    }
}

/// The parameter at `i`, or `default` where it is missing or zero.
pub open spec fn param(params: Seq<u16>, i: int, default: int) -> int {
    if i < params.len() && params[i] != 0 {
        params[i] as int
    } else {
        default
    }
}

/// Whether the byte names one of the functions that erase or scroll.
pub open spec fn is_erase_function(function: u8) -> bool {
    function == 0x4a || function == 0x4b || function == 0x53 || function == 0x54 || function
        == 0x58
}

/// Whether the byte names one of the escape functions that move the cursor by
/// a line.
pub open spec fn is_index_function(function: u8) -> bool {
    function == 0x44 || function == 0x45 || function == 0x4d
}

/// A history of rows that holds at most `limit` of them: the new row goes to
/// the end, and the oldest one leaves when the history is full.
pub open spec fn pushed_bounded(history: Seq<RowView>, row: RowView, limit: nat) -> Seq<RowView> {
    if limit == 0 {
        history
    } else if history.len() >= limit {
        history.drop_first().push(row)
    } else {
        history.push(row)
    }
}

/// What a grid holds, as a mathematical value.
pub struct GridView {
    /// The visible rows, from top to bottom.
    pub rows: Seq<RowView>,
    /// The number of cells in each row.
    pub cols: nat,
    /// Where the cursor is.
    pub pos: Pos,
    /// Whether the cursor has written the last cell of its row and the next
    /// character goes to the start of the next row.
    pub pending_wrap: bool,
    /// The position kept by the last save of the cursor.
    pub saved_pos: Pos,
    /// The first row of the scroll region.
    pub scroll_top: u16,
    /// The last row of the scroll region.
    pub scroll_bottom: u16,
    /// Whether cursor addresses count from the top of the scroll region.
    pub origin_mode: bool,
    /// The origin mode kept by the last save of the cursor.
    pub saved_origin_mode: bool,
    /// Rows that have left the top of the screen, oldest first.
    pub scrollback: Seq<RowView>,
    /// How many rows the history keeps.
    pub scrollback_len: nat,
}

impl GridView {
    /// A grid of blank cells with the cursor in the top left corner.
    pub open spec fn blank(rows: nat, cols: nat, scrollback_len: nat) -> GridView {
        GridView {
            rows: Seq::new(rows, |r: int| RowView::blank(cols, Attrs::plain())),
            cols,
            pos: Pos { row: 0, col: 0 },
            pending_wrap: false,
            saved_pos: Pos { row: 0, col: 0 },
            scroll_top: 0,
            scroll_bottom: (rows - 1) as u16,
            origin_mode: false,
            saved_origin_mode: false,
            scrollback: Seq::empty(),
            scrollback_len,
        }
    }

    /// The invariant of a grid: every row is well-formed and as wide as the
    /// grid, the cursor, the saved cursor and the scroll region lie on the
    /// grid, a cursor that waits to wrap sits on a written last cell of a row
    /// that does not yet run on, and the last row never runs on. The history
    /// holds no more rows than it may, and they are well-formed too.
    #[verifier::opaque]
    pub open spec fn wf(self) -> bool {
        &&& 1 <= self.rows.len() <= 0xffff
        &&& 2 <= self.cols <= 0xffff
        &&& forall|r: int| 0 <= r < self.rows.len() ==> (#[trigger] self.rows[r]).wf(self.cols)
        &&& self.pos.row < self.rows.len()
        &&& self.pos.col < self.cols
        &&& self.saved_pos.row < self.rows.len()
        &&& self.saved_pos.col < self.cols
        &&& self.scroll_top <= self.scroll_bottom < self.rows.len()
        &&& (self.pending_wrap ==> self.pos.col == self.cols - 1
            && self.rows[self.pos.row as int].cells[self.cols - 1].occupied()
            && !self.rows[self.pos.row as int].wrapped)
        &&& !self.rows[self.rows.len() - 1].wrapped
        &&& self.scrollback.len() <= self.scrollback_len
        &&& forall|i: int|
            0 <= i < self.scrollback.len() ==> (#[trigger] self.scrollback[i]).wf(self.cols)
    }

    /// Whether two grids have as many rows and columns as each other.
    pub open spec fn sized_as(self, other: GridView) -> bool {
        self.rows.len() == other.rows.len() && self.cols == other.cols
    }

    /// Whether the scroll region is the whole screen and addresses count
    /// from the top left corner.
    pub open spec fn plain_addressing(self) -> bool {
        self.scroll_top == 0 && self.scroll_bottom == self.rows.len() - 1 && !self.origin_mode
    }

    /// The grid with row `r` replaced.
    pub open spec fn with_row(self, r: int, row: RowView) -> GridView {
        GridView { rows: self.rows.update(r, row), ..self }
    }

    /// The grid with the cursor at the given place, or as near to it as the
    /// grid reaches.
    pub open spec fn moved_to(self, row: int, col: int) -> GridView {
        GridView {
            pos: Pos {
                row: max_int(0, min_int(row, self.rows.len() - 1)) as u16,
                col: max_int(0, min_int(col, self.cols - 1)) as u16,
            },
            pending_wrap: false,
            ..self
        }
    }

    /// The cursor moves up by `n` rows and stops at the top of the scroll
    /// region, or at the top of the screen if it is above the region.
    pub open spec fn cursor_up(self, n: int) -> GridView {
        let limit = if self.pos.row >= self.scroll_top {
            self.scroll_top as int
        } else {
            0
        };
        self.moved_to(max_int(self.pos.row - n, limit), self.pos.col as int)
    }

    /// The cursor moves down by `n` rows and stops at the bottom of the
    /// scroll region, or at the bottom of the screen if it is below the
    /// region.
    pub open spec fn cursor_down(self, n: int) -> GridView {
        let limit = if self.pos.row <= self.scroll_bottom {
            self.scroll_bottom as int
        } else {
            self.rows.len() - 1
        };
        self.moved_to(min_int(self.pos.row + n, limit), self.pos.col as int)
    }

    /// The cursor moves right by `n` columns and stops at the last one.
    pub open spec fn cursor_right(self, n: int) -> GridView {
        self.moved_to(self.pos.row as int, self.pos.col + n)
    }

    /// The cursor moves left by `n` columns and stops at the first one.
    pub open spec fn cursor_left(self, n: int) -> GridView {
        self.moved_to(self.pos.row as int, self.pos.col - n)
    }

    /// The cursor moves to column `col` of its row.
    pub open spec fn cursor_to_col(self, col: int) -> GridView {
        self.moved_to(self.pos.row as int, col)
    }

    /// The row that the address `row` names: counted from the top of the
    /// scroll region and kept inside it in origin mode, from the top of the
    /// screen otherwise.
    pub open spec fn addressed_row(self, row: int) -> int {
        if self.origin_mode {
            min_int(self.scroll_top + row, self.scroll_bottom as int)
        } else {
            row
        }
    }

    /// The cursor moves to the addressed row, in its column.
    pub open spec fn cursor_to_row(self, row: int) -> GridView {
        self.moved_to(self.addressed_row(row), self.pos.col as int)
    }

    /// The cursor moves to the addressed position.
    pub open spec fn cursor_to(self, row: int, col: int) -> GridView {
        self.moved_to(self.addressed_row(row), col)
    }

    /// The cursor moves to the first column.
    pub open spec fn carriage_return(self) -> GridView {
        self.moved_to(self.pos.row as int, 0)
    }

    /// The cursor moves to the next tab stop; they stand every eight columns.
    pub open spec fn tab(self) -> GridView {
        self.moved_to(self.pos.row as int, (self.pos.col / 8 + 1) * 8)
    }

    /// Whether the scroll region is the whole screen.
    pub open spec fn region_is_screen(self) -> bool {
        self.scroll_top == 0 && self.scroll_bottom == self.rows.len() - 1
    }

    /// The rows of the scroll region move up by one. The top row of the
    /// region leaves, into the history if the region is the whole screen,
    /// and a blank row comes in at the bottom.
    pub open spec fn scrolled_up_once(self, attrs: Attrs) -> GridView {
        GridView {
            rows: self.rows.remove(self.scroll_top as int).insert(
                self.scroll_bottom as int,
                RowView::blank(self.cols, attrs),
            ),
            scrollback: if self.region_is_screen() {
                pushed_bounded(self.scrollback, self.rows[self.scroll_top as int], self.scrollback_len)
            } else {
                self.scrollback
            },
            pending_wrap: false,
            ..self
        }
    }

    /// The rows of the scroll region move down by one. The bottom row of the
    /// region leaves and a blank row comes in at the top. The row that is
    /// now the last of the region has lost its next row, so it no longer
    /// runs on.
    pub open spec fn scrolled_down_once(self, attrs: Attrs) -> GridView {
        let moved = self.rows.remove(self.scroll_bottom as int).insert(
            self.scroll_top as int,
            RowView::blank(self.cols, attrs),
        );
        GridView {
            rows: moved.update(
                self.scroll_bottom as int,
                RowView { wrapped: false, ..moved[self.scroll_bottom as int] },
            ),
            pending_wrap: false,
            ..self
        }
    }

    /// The rows of the scroll region move up `n` times.
    pub open spec fn scrolled_up(self, n: nat, attrs: Attrs) -> GridView
        decreases n,
    {
        if n == 0 {
            self
        } else {
            self.scrolled_up_once(attrs).scrolled_up((n - 1) as nat, attrs)
        }
    }

    /// The rows of the scroll region move down `n` times.
    pub open spec fn scrolled_down(self, n: nat, attrs: Attrs) -> GridView
        decreases n,
    {
        if n == 0 {
            self
        } else {
            self.scrolled_down_once(attrs).scrolled_down((n - 1) as nat, attrs)
        }
    }

    /// The number of rows in the scroll region.
    pub open spec fn region_height(self) -> int {
        self.scroll_bottom - self.scroll_top + 1
    }

    /// Scrolling up by `n` rows. After as many rows as the region has the
    /// region is blank, so no more are moved.
    pub open spec fn scroll_up(self, n: int, attrs: Attrs) -> GridView {
        self.scrolled_up(max_int(0, min_int(n, self.region_height())) as nat, attrs)
    }

    /// Scrolling down by `n` rows.
    pub open spec fn scroll_down(self, n: int, attrs: Attrs) -> GridView {
        self.scrolled_down(max_int(0, min_int(n, self.region_height())) as nat, attrs)
    }

    /// The cursor moves down one row; at the bottom of the scroll region the
    /// region scrolls up instead, and on the last row of the screen below
    /// the region the cursor stays.
    pub open spec fn line_feed(self, attrs: Attrs) -> GridView {
        if self.pos.row == self.scroll_bottom {
            self.scrolled_up_once(attrs)
        } else {
            self.moved_to(self.pos.row + 1, self.pos.col as int)
        }
    }

    /// The cursor moves up one row; at the top of the scroll region the
    /// region scrolls down instead.
    pub open spec fn reverse_index(self, attrs: Attrs) -> GridView {
        if self.pos.row == self.scroll_top {
            self.scrolled_down_once(attrs)
        } else {
            self.moved_to(self.pos.row - 1, self.pos.col as int)
        }
    }

    /// Whether a line feed on the cursor's row leads to a fresh row: it
    /// does not on the last row of the screen when that lies below the
    /// scroll region.
    pub open spec fn can_advance(self) -> bool {
        self.pos.row == self.scroll_bottom || self.pos.row + 1 < self.rows.len()
    }

    /// The cursor runs over the end of its row: the row is marked as running
    /// on, and the cursor goes to the start of the next row.
    pub open spec fn wrapped_around(self, attrs: Attrs) -> GridView {
        let row = self.pos.row as int;
        let marked = if self.can_advance() {
            self.with_row(row, RowView { wrapped: true, ..self.rows[row] })
        } else {
            self
        };
        marked.line_feed(attrs).carriage_return()
    }

    /// The cell that a combining mark goes to: the one the cursor has just
    /// written. That is the cell under a cursor that waits to wrap, else the
    /// cell to its left, else the last cell of the row above if that row
    /// runs on into this one.
    pub open spec fn mark_target(self) -> Option<(int, int)> {
        if self.pending_wrap {
            Some((self.pos.row as int, self.pos.col as int))
        } else if self.pos.col > 0 {
            Some((self.pos.row as int, self.pos.col - 1))
        } else if self.pos.row > 0 && self.rows[self.pos.row - 1].wrapped {
            Some((self.pos.row - 1, self.cols - 1))
        } else {
            None
        }
    }

    /// A combining mark is added to the character written last, if there is
    /// one.
    pub open spec fn put_mark(self, c: char) -> GridView {
        match self.mark_target() {
            Some((r, col)) => self.with_row(r, self.rows[r].marked(col, c)),
            None => self,
        }
    }

    /// A character that takes room and fits on the cursor's row is written
    /// at the cursor, and the cursor moves behind it. A cursor that has
    /// written the last cell of its row stays there and waits to wrap.
    pub open spec fn placed(self, c: char, attrs: Attrs) -> GridView {
        let w = RowView::span(c);
        let row = self.pos.row as int;
        let col = self.pos.col as int;
        let written = self.with_row(row, self.rows[row].written(col, c, attrs));
        if col + w >= self.cols {
            GridView {
                pos: Pos { row: self.pos.row, col: (self.cols - 1) as u16 },
                pending_wrap: true,
                ..written
            }
        } else {
            GridView {
                pos: Pos { row: self.pos.row, col: (col + w) as u16 },
                pending_wrap: false,
                ..written
            }
        }
    }

    /// A character that takes room is written at the cursor, on the next row
    /// if it does not fit on this one or the cursor waits to wrap.
    pub open spec fn put_char(self, c: char, attrs: Attrs) -> GridView {
        let w = RowView::span(c);
        let g = if self.pending_wrap || self.pos.col + w > self.cols {
            self.wrapped_around(attrs)
        } else {
            self
        };
        g.placed(c, attrs)
    }

    /// A character arrives as text: one without width joins the character
    /// before it, any other is written at the cursor.
    pub open spec fn put_text(self, c: char, attrs: Attrs) -> GridView {
        if display_width(c) == 0 {
            self.put_mark(c)
        } else {
            self.put_char(c, attrs)
        }
    }

    /// Erasing `n` characters from the cursor on. Whether the row runs on
    /// is left as it was.
    pub open spec fn erase_chars(self, n: int, attrs: Attrs) -> GridView {
        let row = self.pos.row as int;
        GridView {
            rows: self.rows.update(
                row,
                self.rows[row].erased(
                    self.pos.col as int,
                    min_int(self.pos.col + n, self.cols as int),
                    attrs,
                    false,
                ),
            ),
            pending_wrap: false,
            ..self
        }
    }

    /// Erasing in the cursor's row: with mode 0 from the cursor to the end,
    /// with mode 1 from the start up to the cursor, with mode 2 all of it.
    /// Any other mode erases nothing.
    pub open spec fn erase_line(self, mode: int, attrs: Attrs) -> GridView {
        let row = self.pos.row as int;
        let old_row = self.rows[row];
        let new_row = if mode == 0 {
            old_row.erased(self.pos.col as int, self.cols as int, attrs, true)
        } else if mode == 1 {
            old_row.erased(0, self.pos.col + 1, attrs, true)
        } else if mode == 2 {
            old_row.erased(0, self.cols as int, attrs, true)
        } else {
            old_row
        };
        GridView { rows: self.rows.update(row, new_row), pending_wrap: false, ..self }
    }

    /// Erasing on the screen: with mode 0 from the cursor to the end of the
    /// screen, with mode 1 from the start of the screen up to the cursor,
    /// with mode 2 all of it, with mode 3 all of it and the history. Any
    /// other mode erases nothing.
    pub open spec fn erase_display(self, mode: int, attrs: Attrs) -> GridView {
        let row = self.pos.row as int;
        let col = self.pos.col as int;
        let cols = self.cols;
        let rows = self.rows;
        if mode == 0 {
            GridView {
                rows: Seq::new(
                    rows.len(),
                    |r: int|
                        if r < row {
                            rows[r]
                        } else if r == row {
                            rows[r].erased(col, cols as int, attrs, true)
                        } else {
                            RowView::blank(cols, attrs)
                        },
                ),
                pending_wrap: false,
                ..self
            }
        } else if mode == 1 {
            GridView {
                rows: Seq::new(
                    rows.len(),
                    |r: int|
                        if r < row {
                            RowView::blank(cols, attrs)
                        } else if r == row {
                            rows[r].erased(0, col + 1, attrs, true)
                        } else {
                            rows[r]
                        },
                ),
                pending_wrap: false,
                ..self
            }
        } else if mode == 2 || mode == 3 {
            GridView {
                rows: Seq::new(rows.len(), |r: int| RowView::blank(cols, attrs)),
                pending_wrap: false,
                scrollback: if mode == 3 {
                    Seq::empty()
                } else {
                    self.scrollback
                },
                ..self
            }
        } else {
            GridView { pending_wrap: false, ..self }
        }
    }

    /// Setting the scroll region to the rows from `top` to `bottom`. A
    /// region of less than two rows, or one that leaves the screen, is
    /// refused. The cursor goes to the origin.
    pub open spec fn set_scroll_region(self, top: int, bottom: int) -> GridView {
        if 0 <= top < bottom < self.rows.len() {
            (GridView { scroll_top: top as u16, scroll_bottom: bottom as u16, ..self }).cursor_to(0, 0)
        } else {
            self
        }
    }

    /// Switching origin mode; the cursor goes to the origin.
    pub open spec fn set_origin_mode(self, on: bool) -> GridView {
        (GridView { origin_mode: on, ..self }).cursor_to(0, 0)
    }

    /// Keeping the cursor's position and the origin mode for later.
    pub open spec fn save_cursor(self) -> GridView {
        GridView { saved_pos: self.pos, saved_origin_mode: self.origin_mode, ..self }
    }

    /// Going back to the position and origin mode kept last.
    pub open spec fn restore_cursor(self) -> GridView {
        GridView {
            pos: self.saved_pos,
            origin_mode: self.saved_origin_mode,
            pending_wrap: false,
            ..self
        }
    }

    /// The grid with every cell blank, the cursor in the top left corner,
    /// and size and history as before.
    pub open spec fn cleared(self) -> GridView {
        GridView {
            scrollback: self.scrollback,
            ..Self::blank(self.rows.len(), self.cols, self.scrollback_len)
        }
    }

    /// The control functions that move the cursor: `A` up, `B` down, `C`
    /// right, `D` left, `G` to a column, `H` and `f` to a position, `d` to a
    /// row. Counts and addresses start at one, which is also what a missing
    /// parameter stands for. Any other function changes nothing.
    pub open spec fn cursor_function(self, params: Seq<u16>, function: u8) -> GridView {
        let n = param(params, 0, 1);
        if function == 0x41 {
            self.cursor_up(n)
        } else if function == 0x42 {
            self.cursor_down(n)
        } else if function == 0x43 {
            self.cursor_right(n)
        } else if function == 0x44 {
            self.cursor_left(n)
        } else if function == 0x47 {
            self.cursor_to_col(n - 1)
        } else if function == 0x48 || function == 0x66 {
            self.cursor_to(n - 1, param(params, 1, 1) - 1)
        } else if function == 0x64 {
            self.cursor_to_row(n - 1)
        } else {
            self
        }
    }

    /// The control functions that erase or scroll: `J` erases on the
    /// screen, `K` in the line, `X` a number of characters, `S` scrolls up
    /// and `T` down. Any other function changes nothing.
    pub open spec fn erase_function(self, params: Seq<u16>, function: u8, attrs: Attrs) -> GridView {
        if function == 0x4a {
            self.erase_display(param(params, 0, 0), attrs)
        } else if function == 0x4b {
            self.erase_line(param(params, 0, 0), attrs)
        } else if function == 0x53 {
            self.scroll_up(param(params, 0, 1), attrs)
        } else if function == 0x54 {
            self.scroll_down(param(params, 0, 1), attrs)
        } else if function == 0x58 {
            self.erase_chars(param(params, 0, 1), attrs)
        } else {
            self
        }
    }

    /// The escape functions that move by a line: `D` is a line feed, `E` a
    /// line feed to the first column, `M` a line feed upwards.
    pub open spec fn index_function(self, function: u8, attrs: Attrs) -> GridView {
        if function == 0x44 {
            self.line_feed(attrs)
        } else if function == 0x45 {
            self.line_feed(attrs).carriage_return()
        } else if function == 0x4d {
            self.reverse_index(attrs)
        } else {
            self
        }
    }

    /// The scroll region as the control function `r` sets it: the first
    /// parameter is the top row, the second the bottom row, both counted from
    /// one; a missing one stands for the edge of the screen.
    pub open spec fn region_function(self, params: Seq<u16>) -> GridView {
        self.set_scroll_region(
            param(params, 0, 1) - 1,
            min_int(param(params, 1, self.rows.len() as int), self.rows.len() as int) - 1,
        )
    }

    /// Moving the cursor keeps the invariant and the size.
    pub proof fn lemma_cursor_function_wf(self, params: Seq<u16>, function: u8)
        requires
            self.wf(),
        ensures
            self.cursor_function(params, function).wf(),
            self.cursor_function(params, function).sized_as(self),
    {
        reveal(GridView::wf);
        let g = self.cursor_function(params, function);
        if g != self {
            let row = g.pos.row as int;
            let col = g.pos.col as int;
            self.lemma_moved_to_wf(row, col);
            self.lemma_wf_facts();
            assert(g == self.moved_to(row, col));
        }
    }

    /// Erasing and scrolling keep the invariant and the size.
    pub proof fn lemma_erase_function_wf(self, params: Seq<u16>, function: u8, attrs: Attrs)
        requires
            self.wf(),
        ensures
            self.erase_function(params, function, attrs).wf(),
            self.erase_function(params, function, attrs).sized_as(self),
    {
        reveal(GridView::wf);
        let n = param(params, 0, 1);
        self.lemma_erase_wf(n, param(params, 0, 0), attrs);
        self.lemma_scrolled_up_wf(max_int(0, min_int(n, self.region_height())) as nat, attrs);
        self.lemma_scrolled_down_wf(max_int(0, min_int(n, self.region_height())) as nat, attrs);
    }

    /// Moving by a line keeps the invariant and the size.
    pub proof fn lemma_index_function_wf(self, function: u8, attrs: Attrs)
        requires
            self.wf(),
        ensures
            self.index_function(function, attrs).wf(),
            self.index_function(function, attrs).sized_as(self),
    {
        reveal(GridView::wf);
        self.lemma_line_feed_wf(attrs);
        let fed = self.line_feed(attrs);
        fed.lemma_moved_to_wf(fed.pos.row as int, 0);
    }

    /// Setting the scroll region keeps the invariant and the size.
    pub proof fn lemma_region_function_wf(self, params: Seq<u16>)
        requires
            self.wf(),
        ensures
            self.region_function(params).wf(),
            self.region_function(params).sized_as(self),
    {
        reveal(GridView::wf);
        self.lemma_modes_wf(
            param(params, 0, 1) - 1,
            min_int(param(params, 1, self.rows.len() as int), self.rows.len() as int) - 1,
            false,
        );
    }

    /// The grid with every row, shown or kept, cut or padded to `cols`
    /// cells. The cursor and the saved cursor stay on the grid, and the
    /// cursor no longer waits to wrap.
    pub open spec fn with_cols(self, cols: nat) -> GridView {
        GridView {
            rows: Seq::new(self.rows.len(), |k: int| self.rows[k].resized(cols)),
            scrollback: Seq::new(self.scrollback.len(), |k: int| self.scrollback[k].resized(cols)),
            cols,
            pos: Pos { row: self.pos.row, col: min_int(self.pos.col as int, cols - 1) as u16 },
            saved_pos: Pos {
                row: self.saved_pos.row,
                col: min_int(self.saved_pos.col as int, cols - 1) as u16,
            },
            pending_wrap: false,
            ..self
        }
    }

    /// The grid with one row less. If the cursor is on the last row, the
    /// top row leaves into the history and the cursor moves up with what it
    /// stands on; else the last row is cut off. The scroll region becomes
    /// the whole screen.
    pub open spec fn shrunk_once(self) -> GridView {
        let last = self.rows.len() - 2;
        if self.pos.row == self.rows.len() - 1 {
            GridView {
                rows: self.rows.drop_first(),
                scrollback: pushed_bounded(self.scrollback, self.rows[0], self.scrollback_len),
                pos: Pos { row: (self.pos.row - 1) as u16, col: self.pos.col },
                saved_pos: Pos {
                    row: min_int(self.saved_pos.row as int, last) as u16,
                    col: self.saved_pos.col,
                },
                scroll_top: 0,
                scroll_bottom: last as u16,
                ..self
            }
        } else {
            let cut = self.rows.drop_last();
            GridView {
                rows: cut.update(last, RowView { wrapped: false, ..cut[last] }),
                saved_pos: Pos {
                    row: min_int(self.saved_pos.row as int, last) as u16,
                    col: self.saved_pos.col,
                },
                scroll_top: 0,
                scroll_bottom: last as u16,
                ..self
            }
        }
    }

    /// The grid with one row more. If the history holds rows, the newest of
    /// them comes back as the top row and the cursor moves down with what it
    /// stands on; else a blank row is added at the bottom. The scroll region
    /// becomes the whole screen.
    pub open spec fn grown_once(self) -> GridView {
        if self.scrollback.len() > 0 {
            GridView {
                rows: self.rows.insert(0, self.scrollback.last()),
                scrollback: self.scrollback.drop_last(),
                pos: Pos { row: (self.pos.row + 1) as u16, col: self.pos.col },
                scroll_top: 0,
                scroll_bottom: self.rows.len() as u16,
                ..self
            }
        } else {
            GridView {
                rows: self.rows.push(RowView::blank(self.cols, Attrs::plain())),
                scroll_top: 0,
                scroll_bottom: self.rows.len() as u16,
                ..self
            }
        }
    }

    /// How many rows the grid is away from having `rows` of them.
    pub open spec fn rows_off(self, rows: nat) -> nat {
        if self.rows.len() > rows {
            (self.rows.len() - rows) as nat
        } else {
            (rows - self.rows.len()) as nat
        }
    }

    /// The grid brought to `rows` rows, one row at a time.
    pub open spec fn sized_to(self, rows: nat) -> GridView
        decreases self.rows_off(rows),
    {
        if self.rows.len() > rows && rows >= 1 {
            self.shrunk_once().sized_to(rows)
        } else if self.rows.len() < rows {
            self.grown_once().sized_to(rows)
        } else {
            self
        }
    }

    /// The grid brought to another size: first every row is cut or padded
    /// to `cols` cells, what is cut off is lost; then rows leave or come
    /// until there are `rows` of them.
    pub open spec fn resized(self, rows: nat, cols: nat) -> GridView {
        self.with_cols(cols).sized_to(rows)
    }

    /// Cutting or padding every row keeps the invariant.
    pub proof fn lemma_with_cols_wf(self, cols: nat)
        requires
            self.wf(),
            2 <= cols <= 0xffff,
        ensures
            self.with_cols(cols).wf(),
            self.with_cols(cols).rows.len() == self.rows.len(),
            self.with_cols(cols).cols == cols,
    {
        reveal(GridView::wf);
        let g = self.with_cols(cols);
        assert forall|r: int| 0 <= r < g.rows.len() implies (#[trigger] g.rows[r]).wf(cols) by {
            assert(self.rows[r].wf(self.cols));
            self.rows[r].lemma_resized_wf(self.cols, cols);
        }
        assert forall|i: int| 0 <= i < g.scrollback.len() implies (#[trigger] g.scrollback[i]).wf(
            cols,
        ) by {
            assert(self.scrollback[i].wf(self.cols));
            self.scrollback[i].lemma_resized_wf(self.cols, cols);
        }
        let last = self.rows.len() - 1;
        assert(self.rows[last].wf(self.cols));
    }

    /// Taking one row away keeps the invariant.
    pub proof fn lemma_shrunk_once_wf(self)
        requires
            self.wf(),
            self.rows.len() >= 2,
        ensures
            self.shrunk_once().wf(),
            self.shrunk_once().rows.len() == self.rows.len() - 1,
            self.shrunk_once().cols == self.cols,
    {
        reveal(GridView::wf);
        let g = self.shrunk_once();
        let last = self.rows.len() - 2;
        if self.pos.row == self.rows.len() - 1 {
            assert forall|r: int| 0 <= r < g.rows.len() implies (#[trigger] g.rows[r]).wf(
                g.cols,
            ) by {
                assert(g.rows[r] == self.rows[r + 1]);
            }
            assert(self.rows[0].wf(self.cols));
            Self::lemma_pushed_bounded_wf(
                self.scrollback,
                self.rows[0],
                self.scrollback_len,
                self.cols,
            );
            assert(g.rows[g.pos.row as int] == self.rows[self.pos.row as int]);
            assert(g.rows[last] == self.rows[last + 1]);
        } else {
            assert forall|r: int| 0 <= r < g.rows.len() implies (#[trigger] g.rows[r]).wf(
                g.cols,
            ) by {
                assert(self.rows[r].wf(self.cols));
                self.rows[r].lemma_wrap_wf(self.cols, false);
            }
            assert(self.rows[self.pos.row as int].wf(self.cols));
        }
    }

    /// Adding one row keeps the invariant.
    pub proof fn lemma_grown_once_wf(self)
        requires
            self.wf(),
            self.rows.len() < 0xffff,
        ensures
            self.grown_once().wf(),
            self.grown_once().rows.len() == self.rows.len() + 1,
            self.grown_once().cols == self.cols,
    {
        reveal(GridView::wf);
        let g = self.grown_once();
        RowView::lemma_blank_wf(self.cols, Attrs::plain());
        if self.scrollback.len() > 0 {
            assert forall|r: int| 0 <= r < g.rows.len() implies (#[trigger] g.rows[r]).wf(
                g.cols,
            ) by {
                if r > 0 {
                    assert(g.rows[r] == self.rows[r - 1]);
                } else {
                    assert(g.rows[0] == self.scrollback[self.scrollback.len() - 1]);
                }
            }
            assert forall|i: int| 0 <= i < g.scrollback.len() implies (#[trigger] g.scrollback[i]).wf(
                g.cols,
            ) by {
                assert(g.scrollback[i] == self.scrollback[i]);
            }
            assert(g.rows[g.pos.row as int] == self.rows[self.pos.row as int]);
            assert(g.rows[g.rows.len() - 1] == self.rows[self.rows.len() - 1]);
        } else {
            assert forall|r: int| 0 <= r < g.rows.len() implies (#[trigger] g.rows[r]).wf(
                g.cols,
            ) by {
                if r < self.rows.len() {
                    assert(g.rows[r] == self.rows[r]);
                }
            }
            assert(g.rows[g.pos.row as int] == self.rows[self.pos.row as int]);
        }
    }

    /// Bringing the grid to a number of rows keeps the invariant and reaches
    /// that number.
    pub proof fn lemma_sized_to_wf(self, rows: nat)
        requires
            self.wf(),
            1 <= rows <= 0xffff,
        ensures
            self.sized_to(rows).wf(),
            self.sized_to(rows).rows.len() == rows,
            self.sized_to(rows).cols == self.cols,
        decreases self.rows_off(rows),
    {
        self.lemma_wf_facts();
        if self.rows.len() > rows {
            self.lemma_shrunk_once_wf();
            self.shrunk_once().lemma_sized_to_wf(rows);
        } else if self.rows.len() < rows {
            self.lemma_grown_once_wf();
            self.grown_once().lemma_sized_to_wf(rows);
        }
    }

    /// Bringing the grid to another size keeps the invariant and reaches that
    /// size.
    pub proof fn lemma_resized_wf(self, rows: nat, cols: nat)
        requires
            self.wf(),
            1 <= rows <= 0xffff,
            2 <= cols <= 0xffff,
        ensures
            self.resized(rows, cols).wf(),
            self.resized(rows, cols).rows.len() == rows,
            self.resized(rows, cols).cols == cols,
    {
        self.lemma_with_cols_wf(cols);
        self.with_cols(cols).lemma_sized_to_wf(rows);
    }

    /// What the invariant says of sizes and positions.
    pub proof fn lemma_wf_facts(self)
        requires
            self.wf(),
        ensures
            1 <= self.rows.len() <= 0xffff,
            2 <= self.cols <= 0xffff,
            forall|r: int| 0 <= r < self.rows.len() ==> (#[trigger] self.rows[r]).wf(self.cols),
            self.pos.row < self.rows.len(),
            self.pos.col < self.cols,
            self.scroll_top <= self.scroll_bottom < self.rows.len(),
            self.pending_wrap ==> self.pos.col == self.cols - 1
                && self.rows[self.pos.row as int].cells[self.cols - 1].occupied()
                && !self.rows[self.pos.row as int].wrapped,
            !self.rows[self.rows.len() - 1].wrapped,
            self.saved_pos.row < self.rows.len(),
            self.saved_pos.col < self.cols,
            self.scrollback.len() <= self.scrollback_len,
            forall|i: int|
                0 <= i < self.scrollback.len() ==> (#[trigger] self.scrollback[i]).wf(self.cols),
    {
        reveal(GridView::wf);
    }

    /// A history that takes one more well-formed row holds well-formed
    /// rows, and no more than it may.
    pub proof fn lemma_pushed_bounded_wf(history: Seq<RowView>, row: RowView, limit: nat, cols: nat)
        requires
            history.len() <= limit,
            forall|i: int| 0 <= i < history.len() ==> (#[trigger] history[i]).wf(cols),
            row.wf(cols),
        ensures
            pushed_bounded(history, row, limit).len() <= limit,
            forall|i: int|
                0 <= i < pushed_bounded(history, row, limit).len() ==> (#[trigger] pushed_bounded(
                    history,
                    row,
                    limit,
                )[i]).wf(cols),
    {
        let p = pushed_bounded(history, row, limit);
        assert forall|i: int| 0 <= i < p.len() implies (#[trigger] p[i]).wf(cols) by {
            if limit == 0 {
            } else if history.len() >= limit {
                if i < p.len() - 1 {
                    assert(p[i] == history[i + 1]);
                }
            } else {
                if i < history.len() {
                    assert(p[i] == history[i]);
                }
            }
        }
    }

    /// A blank grid is well-formed, and its addresses count from the top left
    /// corner of the whole screen.
    pub proof fn lemma_blank_wf(rows: nat, cols: nat, scrollback_len: nat)
        requires
            1 <= rows <= 0xffff,
            2 <= cols <= 0xffff,
        ensures
            Self::blank(rows, cols, scrollback_len).wf(),
            Self::blank(rows, cols, scrollback_len).plain_addressing(),
    {
        reveal(GridView::wf);
        let g = Self::blank(rows, cols, scrollback_len);
        assert forall|r: int| 0 <= r < g.rows.len() implies (#[trigger] g.rows[r]).wf(g.cols) by {
            RowView::lemma_blank_wf(cols, Attrs::plain());
        }
    }

    /// Putting the cursor somewhere keeps the invariant and the size.
    pub proof fn lemma_moved_to_wf(self, row: int, col: int)
        requires
            self.wf(),
        ensures
            self.moved_to(row, col).sized_as(self),
            self.moved_to(row, col).wf(),
    {
        reveal(GridView::wf);
    }

    /// Replacing a row by a well-formed one keeps the invariant, if the last
    /// row does not run on and a waiting cursor still stands on something
    /// written.
    pub proof fn lemma_with_row_wf(self, r: int, row: RowView)
        requires
            self.wf(),
            0 <= r < self.rows.len(),
            row.wf(self.cols),
            r == self.rows.len() - 1 ==> !row.wrapped,
            self.pending_wrap && r == self.pos.row ==> row.cells[self.cols - 1].occupied()
                && !row.wrapped,
        ensures
            self.with_row(r, row).wf(),
    {
        reveal(GridView::wf);
        let g = self.with_row(r, row);
        assert forall|k: int| 0 <= k < g.rows.len() implies (#[trigger] g.rows[k]).wf(g.cols) by {
            if k != r {
                assert(self.rows[k].wf(self.cols));
            }
        }
    }

    /// Scrolling up by one row keeps the invariant and the size.
    pub proof fn lemma_scrolled_up_once_wf(self, attrs: Attrs)
        requires
            self.wf(),
        ensures
            self.scrolled_up_once(attrs).sized_as(self),
            self.scrolled_up_once(attrs).wf(),
            self.scrolled_up_once(attrs).rows.len() == self.rows.len(),
    {
        reveal(GridView::wf);
        let g = self.scrolled_up_once(attrs);
        let top = self.scroll_top as int;
        let bottom = self.scroll_bottom as int;
        RowView::lemma_blank_wf(self.cols, attrs);
        assert forall|k: int| 0 <= k < g.rows.len() implies (#[trigger] g.rows[k]).wf(g.cols) by {
            if k < top {
                assert(g.rows[k] == self.rows[k]);
            } else if k < bottom {
                assert(g.rows[k] == self.rows[k + 1]);
            } else if k == bottom {
            } else {
                assert(g.rows[k] == self.rows[k]);
            }
        }
        let last = self.rows.len() - 1;
        if bottom < last {
            assert(g.rows[last] == self.rows[last]);
        }
        assert(self.rows[top].wf(self.cols));
        Self::lemma_pushed_bounded_wf(
            self.scrollback,
            self.rows[top],
            self.scrollback_len,
            self.cols,
        );
    }

    /// Scrolling down by one row keeps the invariant and the size.
    pub proof fn lemma_scrolled_down_once_wf(self, attrs: Attrs)
        requires
            self.wf(),
        ensures
            self.scrolled_down_once(attrs).sized_as(self),
            self.scrolled_down_once(attrs).wf(),
            self.scrolled_down_once(attrs).rows.len() == self.rows.len(),
    {
        reveal(GridView::wf);
        let g = self.scrolled_down_once(attrs);
        let top = self.scroll_top as int;
        let bottom = self.scroll_bottom as int;
        RowView::lemma_blank_wf(self.cols, attrs);
        assert forall|k: int| 0 <= k < g.rows.len() implies (#[trigger] g.rows[k]).wf(g.cols) by {
            if k < top {
                assert(g.rows[k] == self.rows[k]);
            } else if k == top {
            } else if k <= bottom {
                assert(self.rows[k - 1].wf(self.cols));
                self.rows[k - 1].lemma_wrap_wf(self.cols, false);
                self.rows[k - 1].lemma_wrap_wf(self.cols, self.rows[k - 1].wrapped);
                assert(g.rows[k].cells == self.rows[k - 1].cells);
                assert(g.rows[k] == self.rows[k - 1] || g.rows[k] == (RowView {
                    wrapped: false,
                    ..self.rows[k - 1]
                }));
            } else {
                assert(g.rows[k] == self.rows[k]);
            }
        }
        let last = self.rows.len() - 1;
        if bottom < last {
            assert(g.rows[last] == self.rows[last]);
        }
    }

    /// Scrolling up keeps the invariant and the size.
    pub proof fn lemma_scrolled_up_wf(self, n: nat, attrs: Attrs)
        requires
            self.wf(),
        ensures
            self.scrolled_up(n, attrs).sized_as(self),
            self.scrolled_up(n, attrs).wf(),
        decreases n,
    {
        reveal(GridView::wf);
        if n > 0 {
            self.lemma_scrolled_up_once_wf(attrs);
            self.scrolled_up_once(attrs).lemma_scrolled_up_wf((n - 1) as nat, attrs);
        }
    }

    /// Scrolling down keeps the invariant and the size.
    pub proof fn lemma_scrolled_down_wf(self, n: nat, attrs: Attrs)
        requires
            self.wf(),
        ensures
            self.scrolled_down(n, attrs).sized_as(self),
            self.scrolled_down(n, attrs).wf(),
        decreases n,
    {
        reveal(GridView::wf);
        if n > 0 {
            self.lemma_scrolled_down_once_wf(attrs);
            self.scrolled_down_once(attrs).lemma_scrolled_down_wf((n - 1) as nat, attrs);
        }
    }

    /// A line feed, up or down, keeps the invariant and the size.
    pub proof fn lemma_line_feed_wf(self, attrs: Attrs)
        requires
            self.wf(),
        ensures
            self.line_feed(attrs).sized_as(self),
            self.reverse_index(attrs).sized_as(self),
            self.line_feed(attrs).wf(),
            self.reverse_index(attrs).wf(),
    {
        reveal(GridView::wf);
        self.lemma_scrolled_up_once_wf(attrs);
        self.lemma_scrolled_down_once_wf(attrs);
    }

    /// A cursor that runs over the end of its row leaves a well-formed
    /// grid, and stands in the first column without waiting.
    pub proof fn lemma_wrapped_around_wf(self, attrs: Attrs)
        requires
            self.wf(),
        ensures
            self.wrapped_around(attrs).sized_as(self),
            self.wrapped_around(attrs).wf(),
            self.wrapped_around(attrs).pos.col == 0,
            !self.wrapped_around(attrs).pending_wrap,
            self.wrapped_around(attrs).cols == self.cols,
    {
        reveal(GridView::wf);
        let row = self.pos.row as int;
        let marked = if self.can_advance() {
            self.with_row(row, RowView { wrapped: true, ..self.rows[row] })
        } else {
            self
        };
        // the mark may break the invariant for a moment: the cursor's row
        // runs on while the cursor still waits, and the row may be the last
        let settled = GridView { pending_wrap: false, ..self };
        let fed = marked.line_feed(attrs);
        assert(fed.wf()) by {
            RowView::lemma_blank_wf(self.cols, attrs);
            let top = self.scroll_top as int;
            let bottom = self.scroll_bottom as int;
            assert(self.rows[row].wf(self.cols));
            assert forall|k: int| 0 <= k < marked.rows.len() implies (#[trigger] marked.rows[k]).wf(
                self.cols,
            ) by {
                assert(self.rows[k].wf(self.cols));
                self.rows[k].lemma_wrap_wf(self.cols, true);
            }
            assert forall|k: int| 0 <= k < fed.rows.len() implies (#[trigger] fed.rows[k]).wf(
                fed.cols,
            ) by {
                if self.pos.row == self.scroll_bottom {
                    if k < top {
                        assert(fed.rows[k] == marked.rows[k]);
                    } else if k < bottom {
                        assert(fed.rows[k] == marked.rows[k + 1]);
                    } else if k == bottom {
                    } else {
                        assert(fed.rows[k] == marked.rows[k]);
                    }
                }
            }
            let last = self.rows.len() - 1;
            if self.pos.row == self.scroll_bottom {
                if bottom < last {
                    assert(fed.rows[last] == marked.rows[last]);
                }
            }
        }
    }

    /// A combining mark keeps the invariant and the size.
    pub proof fn lemma_put_mark_wf(self, c: char)
        requires
            self.wf(),
            display_width(c) == 0,
            c as u32 >= 0x80,
        ensures
            self.put_mark(c).sized_as(self),
            self.put_mark(c).wf(),
    {
        reveal(GridView::wf);
        match self.mark_target() {
            Some((r, col)) => {
                let row = self.rows[r];
                assert(row.wf(self.cols));
                row.lemma_marked_wf(self.cols, col, c);
                let t = row.owner(col);
                let m = row.marked(col, c);
                assert(row.cells[self.cols - 1].occupied() ==> m.cells[self.cols - 1].occupied()) by {
                    row.lemma_wf_at(self.cols, t);
                }
                self.lemma_with_row_wf(r, m);
            },
            None => {},
        }
    }

    /// A character that takes room keeps the invariant and the size.
    pub proof fn lemma_put_char_wf(self, c: char, attrs: Attrs)
        requires
            self.wf(),
            display_width(c) >= 1,
            is_text_char(c),
        ensures
            self.put_char(c, attrs).sized_as(self),
            self.put_char(c, attrs).wf(),
    {
        reveal(GridView::wf);
        let w = RowView::span(c);
        let g = if self.pending_wrap || self.pos.col + w > self.cols {
            self.wrapped_around(attrs)
        } else {
            self
        };
        self.lemma_wrapped_around_wf(attrs);
        let row = g.pos.row as int;
        let col = g.pos.col as int;
        assert(g.rows[row].wf(g.cols));
        g.rows[row].lemma_written_wf(g.cols, col, c, attrs);
        let new_row = g.rows[row].written(col, c, attrs);
        let written = g.with_row(row, new_row);
        let last = g.rows.len() - 1;
        assert(!g.pending_wrap);
        if row == last {
            assert(!g.rows[row].wrapped);
        }
        g.lemma_with_row_wf(row, new_row);
    }

    /// A character of text keeps the invariant and the size.
    pub proof fn lemma_put_text_wf(self, c: char, attrs: Attrs)
        requires
            self.wf(),
            is_text_char(c),
        ensures
            self.put_text(c, attrs).sized_as(self),
            self.put_text(c, attrs).wf(),
    {
        reveal(GridView::wf);
        if display_width(c) == 0 {
            self.lemma_put_mark_wf(c);
        } else {
            self.lemma_put_char_wf(c, attrs);
        }
    }

    /// Erasing characters, in the line or on the screen, keeps the invariant
    /// and the size.
    pub proof fn lemma_erase_wf(self, n: int, mode: int, attrs: Attrs)
        requires
            self.wf(),
        ensures
            self.erase_chars(n, attrs).sized_as(self),
            self.erase_line(mode, attrs).sized_as(self),
            self.erase_display(mode, attrs).sized_as(self),
            self.erase_chars(n, attrs).wf(),
            self.erase_line(mode, attrs).wf(),
            self.erase_display(mode, attrs).wf(),
    {
        reveal(GridView::wf);
        let row = self.pos.row as int;
        let col = self.pos.col as int;
        let cols = self.cols;
        let old_row = self.rows[row];
        assert(old_row.wf(cols));
        old_row.lemma_erased_wf(cols, col, min_int(col + n, cols as int), attrs, false);
        old_row.lemma_erased_wf(cols, col, cols as int, attrs, true);
        old_row.lemma_erased_wf(cols, 0, col + 1, attrs, true);
        old_row.lemma_erased_wf(cols, 0, cols as int, attrs, true);
        RowView::lemma_blank_wf(cols, attrs);
        let settled = GridView { pending_wrap: false, ..self };
        settled.lemma_with_row_wf(
            row,
            old_row.erased(col, min_int(col + n, cols as int), attrs, false),
        );
        assert(self.erase_chars(n, attrs) == settled.with_row(
            row,
            old_row.erased(col, min_int(col + n, cols as int), attrs, false),
        ));
        let line = self.erase_line(mode, attrs);
        assert forall|k: int| 0 <= k < line.rows.len() implies (#[trigger] line.rows[k]).wf(
            cols,
        ) by {
            assert(self.rows[k].wf(cols));
        }
        let disp = self.erase_display(mode, attrs);
        assert forall|k: int| 0 <= k < disp.rows.len() implies (#[trigger] disp.rows[k]).wf(
            cols,
        ) by {
            assert(self.rows[k].wf(cols));
        }
    }

    /// Setting the scroll region or the origin mode, keeping the cursor or
    /// bringing it back, and clearing the grid keep the invariant and the
    /// size.
    pub proof fn lemma_modes_wf(self, top: int, bottom: int, on: bool)
        requires
            self.wf(),
        ensures
            self.set_scroll_region(top, bottom).sized_as(self),
            self.set_origin_mode(on).sized_as(self),
            self.save_cursor().sized_as(self),
            self.restore_cursor().sized_as(self),
            self.cleared().sized_as(self),
            self.set_scroll_region(top, bottom).wf(),
            self.set_origin_mode(on).wf(),
            self.save_cursor().wf(),
            self.restore_cursor().wf(),
            self.cleared().wf(),
    {
        reveal(GridView::wf);
        Self::lemma_blank_wf(self.rows.len(), self.cols, self.scrollback_len);
    }
}


/// The size of a grid.
#[derive(Clone, Copy, Debug, PartialEq, Eq, Structural)]
pub struct Size {
    pub rows: u16,
    pub cols: u16,
}

proof fn lemma_row_views_update(rows: Seq<Row>, r: int, row: Row)
    requires
        0 <= r < rows.len(),
    ensures
        row_views(rows.update(r, row)) == row_views(rows).update(r, row@),
{
    assert(row_views(rows.update(r, row)) =~= row_views(rows).update(r, row@));
}

proof fn lemma_row_views_remove_insert(rows: Seq<Row>, from: int, to: int, row: Row)
    requires
        0 <= from < rows.len(),
        0 <= to < rows.len(),
    ensures
        row_views(rows.remove(from)) == row_views(rows).remove(from),
        row_views(rows.remove(from).insert(to, row)) == row_views(rows).remove(from).insert(
            to,
            row@,
        ),
{
    assert(row_views(rows.remove(from)) =~= row_views(rows).remove(from));
    assert(row_views(rows.remove(from).insert(to, row)) =~= row_views(rows).remove(from).insert(
        to,
        row@,
    ));
}

/// The parameter at `i`, or `default` where it is missing or zero.
pub fn param_or(params: &Vec<u16>, i: usize, default: u16) -> (p: u16)
    ensures
        p == param(params@, i as int, default as int),
{
    if i < params.len() && params[i] != 0 {
        params[i]
    } else {
        default
    }
}

/// The grid of cells behind a screen: the visible rows, the rows that have
/// scrolled off, the cursor and the scroll region.
#[derive(Debug)]
pub struct Grid {
    cols: u16,
    pos: Pos,
    pending_wrap: bool,
    saved_pos: Pos,
    rows: Vec<Row>,
    scrollback: Vec<Row>,
    scrollback_len: usize,
    scroll_top: u16,
    scroll_bottom: u16,
    origin_mode: bool,
    saved_origin_mode: bool,
}

impl View for Grid {
    type V = GridView;

    closed spec fn view(&self) -> GridView {
        GridView {
            rows: row_views(self.rows@),
            cols: self.cols as nat,
            pos: self.pos,
            pending_wrap: self.pending_wrap,
            saved_pos: self.saved_pos,
            scroll_top: self.scroll_top,
            scroll_bottom: self.scroll_bottom,
            origin_mode: self.origin_mode,
            saved_origin_mode: self.saved_origin_mode,
            scrollback: row_views(self.scrollback@),
            scrollback_len: self.scrollback_len as nat,
        }
    }
}

fn clone_rows(rows: &Vec<Row>) -> (copy: Vec<Row>)
    ensures
        row_views(copy@) == row_views(rows@),
{
    let mut copy: Vec<Row> = Vec::new();
    let mut i: usize = 0;
    while i < rows.len()
        invariant
            i <= rows.len(),
            copy@.len() == i,
            forall|k: int| 0 <= k < i ==> (#[trigger] copy@[k])@ == rows@[k]@,
        decreases rows.len() - i,
    {
        copy.push(rows[i].clone());
        i += 1;
    }
    assert(row_views(copy@) =~= row_views(rows@));
    copy
}

impl Clone for Grid {
    fn clone(&self) -> (grid: Self)
        ensures
            grid@ == self@,
    {
        Grid {
            cols: self.cols,
            pos: self.pos,
            pending_wrap: self.pending_wrap,
            saved_pos: self.saved_pos,
            rows: clone_rows(&self.rows),
            scrollback: clone_rows(&self.scrollback),
            scrollback_len: self.scrollback_len,
            scroll_top: self.scroll_top,
            scroll_bottom: self.scroll_bottom,
            origin_mode: self.origin_mode,
            saved_origin_mode: self.saved_origin_mode,
        }
    }
}

impl Grid {
    /// A grid of blank cells with the cursor in the top left corner.
    pub fn new(rows: u16, cols: u16, scrollback_len: usize) -> (grid: Self)
        requires
            rows >= 1,
            cols >= 2,
        ensures
            grid@ == GridView::blank(rows as nat, cols as nat, scrollback_len as nat),
            grid@.wf(),
    {
        proof {
            reveal(GridView::wf);
        }
        let mut v: Vec<Row> = Vec::new();
        let mut i: u16 = 0;
        while i < rows
            invariant
                i <= rows,
                v@.len() == i,
                forall|k: int|
                    0 <= k < i ==> (#[trigger] v@[k])@ == RowView::blank(cols as nat, Attrs::plain()),
            decreases rows - i,
        {
            v.push(Row::new(cols, Attrs::default()));
            i += 1;
        }
        let grid = Grid {
            cols,
            pos: Pos { row: 0, col: 0 },
            pending_wrap: false,
            saved_pos: Pos { row: 0, col: 0 },
            rows: v,
            scrollback: Vec::new(),
            scrollback_len,
            scroll_top: 0,
            scroll_bottom: rows - 1,
            origin_mode: false,
            saved_origin_mode: false,
        };
        proof {
            let b = GridView::blank(rows as nat, cols as nat, scrollback_len as nat);
            assert(grid@.rows =~= b.rows);
            assert(grid@.scrollback =~= b.scrollback);
            GridView::lemma_blank_wf(rows as nat, cols as nat, scrollback_len as nat);
        }
        grid
    }

    /// The number of rows and columns.
    pub fn size(&self) -> (size: Size)
        requires
            self@.wf(),
        ensures
            size.rows == self@.rows.len(),
            size.cols == self@.cols,
    {
        proof {
            reveal(GridView::wf);
        }
        Size { rows: self.rows.len() as u16, cols: self.cols }
    }

    /// Where the cursor is.
    pub fn pos(&self) -> (pos: Pos)
        ensures
            pos == self@.pos,
    {
        self.pos
    }

    /// Whether the cursor has written the last cell of its row and waits to
    /// wrap.
    pub fn pending_wrap(&self) -> (p: bool)
        ensures
            p == self@.pending_wrap,
    {
        self.pending_wrap
    }

    /// The row at `row`, if the grid has one there.
    pub fn row(&self, row: u16) -> (r: Option<&Row>)
        ensures
            match r {
                Some(x) => row < self@.rows.len() && x@ == self@.rows[row as int],
                None => row >= self@.rows.len(),
            },
    {
        if (row as usize) < self.rows.len() {
            Some(&self.rows[row as usize])
        } else {
            None
        }
    }

    /// The number of rows kept in the history.
    pub fn scrollback_rows(&self) -> (n: usize)
        ensures
            n == self@.scrollback.len(),
    {
        self.scrollback.len()
    }

    /// How many rows the history keeps.
    pub fn scrollback_limit(&self) -> (n: usize)
        ensures
            n == self@.scrollback_len,
    {
        self.scrollback_len
    }

    /// Puts the cursor at the given place, or as near to it as the grid
    /// reaches.
    pub fn move_to(&mut self, row: u16, col: u16)
        requires
            old(self)@.wf(),
        ensures
            final(self)@ == old(self)@.moved_to(row as int, col as int),
            final(self)@.wf(),
    {
        proof {
            reveal(GridView::wf);
        }
        let last_row = (self.rows.len() - 1) as u16;
        let last_col = self.cols - 1;
        self.pos = Pos {
            row: if row > last_row { last_row } else { row },
            col: if col > last_col { last_col } else { col },
        };
        self.pending_wrap = false;
    }

    /// Moves the cursor up by `n` rows; it stops at the top of the scroll
    /// region, or at the top of the screen if it is above the region.
    pub fn cursor_up(&mut self, n: u16)
        requires
            old(self)@.wf(),
        ensures
            final(self)@ == old(self)@.cursor_up(n as int),
            final(self)@.wf(),
    {
        proof {
            reveal(GridView::wf);
        }
        let limit = if self.pos.row >= self.scroll_top { self.scroll_top } else { 0 };
        let row = if n > self.pos.row - limit { limit } else { self.pos.row - n };
        self.move_to(row, self.pos.col);
    }

    /// Moves the cursor down by `n` rows; it stops at the bottom of the
    /// scroll region, or at the bottom of the screen if it is below the
    /// region.
    pub fn cursor_down(&mut self, n: u16)
        requires
            old(self)@.wf(),
        ensures
            final(self)@ == old(self)@.cursor_down(n as int),
            final(self)@.wf(),
    {
        proof {
            reveal(GridView::wf);
        }
        let limit = if self.pos.row <= self.scroll_bottom {
            self.scroll_bottom
        } else {
            (self.rows.len() - 1) as u16
        };
        let row = if n > limit - self.pos.row { limit } else { self.pos.row + n };
        self.move_to(row, self.pos.col);
    }

    /// Moves the cursor right by `n` columns; it stops at the last one.
    pub fn cursor_right(&mut self, n: u16)
        requires
            old(self)@.wf(),
        ensures
            final(self)@ == old(self)@.cursor_right(n as int),
            final(self)@.wf(),
    {
        proof {
            reveal(GridView::wf);
        }
        let last = self.cols - 1;
        let col = if n > last - self.pos.col { last } else { self.pos.col + n };
        self.move_to(self.pos.row, col);
    }

    /// Moves the cursor left by `n` columns; it stops at the first one.
    pub fn cursor_left(&mut self, n: u16)
        requires
            old(self)@.wf(),
        ensures
            final(self)@ == old(self)@.cursor_left(n as int),
            final(self)@.wf(),
    {
        proof {
            reveal(GridView::wf);
        }
        let col = if n > self.pos.col { 0 } else { self.pos.col - n };
        self.move_to(self.pos.row, col);
    }

    /// Moves the cursor to column `col` of its row.
    pub fn cursor_to_col(&mut self, col: u16)
        requires
            old(self)@.wf(),
        ensures
            final(self)@ == old(self)@.cursor_to_col(col as int),
            final(self)@.wf(),
    {
        proof {
            reveal(GridView::wf);
        }
        self.move_to(self.pos.row, col);
    }

    fn addressed_row(&self, row: u16) -> (r: u16)
        requires
            self@.wf(),
        ensures
            r == min_int(self@.addressed_row(row as int), self@.rows.len() - 1),
    {
        proof {
            reveal(GridView::wf);
        }
        if self.origin_mode {
            if row > self.scroll_bottom - self.scroll_top {
                self.scroll_bottom
            } else {
                self.scroll_top + row
            }
        } else {
            let last = (self.rows.len() - 1) as u16;
            if row > last { last } else { row }
        }
    }

    /// Moves the cursor to the addressed row, in its column.
    pub fn cursor_to_row(&mut self, row: u16)
        requires
            old(self)@.wf(),
        ensures
            final(self)@ == old(self)@.cursor_to_row(row as int),
            final(self)@.wf(),
    {
        proof {
            reveal(GridView::wf);
        }
        let r = self.addressed_row(row);
        self.move_to(r, self.pos.col);
    }

    /// Moves the cursor to the addressed position.
    pub fn cursor_to(&mut self, row: u16, col: u16)
        requires
            old(self)@.wf(),
        ensures
            final(self)@ == old(self)@.cursor_to(row as int, col as int),
            final(self)@.wf(),
    {
        proof {
            reveal(GridView::wf);
        }
        let r = self.addressed_row(row);
        self.move_to(r, col);
    }

    /// Moves the cursor to the first column.
    pub fn carriage_return(&mut self)
        requires
            old(self)@.wf(),
        ensures
            final(self)@ == old(self)@.carriage_return(),
            final(self)@.wf(),
    {
        proof {
            reveal(GridView::wf);
        }
        self.move_to(self.pos.row, 0);
    }

    /// Moves the cursor to the next tab stop.
    pub fn tab(&mut self)
        requires
            old(self)@.wf(),
        ensures
            final(self)@ == old(self)@.tab(),
            final(self)@.wf(),
    {
        proof {
            reveal(GridView::wf);
        }
        let next: u32 = (self.pos.col as u32 / 8 + 1) * 8;
        let col: u16 = if next > 0xffff { 0xffff } else { next as u16 };
        self.move_to(self.pos.row, col);
    }

    /// Moves the rows of the scroll region up by one.
    pub fn scroll_up_once(&mut self, attrs: Attrs)
        requires
            old(self)@.wf(),
        ensures
            final(self)@ == old(self)@.scrolled_up_once(attrs),
            final(self)@.wf(),
    {
        proof {
            reveal(GridView::wf);
        }
        let top = self.scroll_top as usize;
        let bottom = self.scroll_bottom as usize;
        let keep = top == 0 && bottom == self.rows.len() - 1;
        let ghost before = self.rows@;
        let ghost history = self.scrollback@;
        let gone = self.rows.remove(top);
        let fresh = Row::new(self.cols, attrs);
        self.rows.insert(bottom, fresh);
        proof {
            lemma_row_views_remove_insert(before, top as int, bottom as int, fresh);
        }
        if keep && self.scrollback_len > 0 {
            if self.scrollback.len() >= self.scrollback_len {
                self.scrollback.remove(0);
            }
            self.scrollback.push(gone);
            assert(row_views(self.scrollback@) =~= pushed_bounded(
                row_views(history),
                before[top as int]@,
                self.scrollback_len as nat,
            ));
        }
        self.pending_wrap = false;
        proof {
            old(self)@.lemma_scrolled_up_once_wf(attrs);
        }
    }

    /// Moves the rows of the scroll region down by one.
    pub fn scroll_down_once(&mut self, attrs: Attrs)
        requires
            old(self)@.wf(),
        ensures
            final(self)@ == old(self)@.scrolled_down_once(attrs),
            final(self)@.wf(),
    {
        proof {
            reveal(GridView::wf);
        }
        let top = self.scroll_top as usize;
        let bottom = self.scroll_bottom as usize;
        let ghost before = self.rows@;
        self.rows.remove(bottom);
        let fresh = Row::new(self.cols, attrs);
        self.rows.insert(top, fresh);
        proof {
            lemma_row_views_remove_insert(before, bottom as int, top as int, fresh);
        }
        let ghost moved = self.rows@;
        self.rows[bottom].wrap(false);
        proof {
            lemma_row_views_update(moved, bottom as int, self.rows@[bottom as int]);
        }
        self.pending_wrap = false;
        proof {
            old(self)@.lemma_scrolled_down_once_wf(attrs);
        }
    }

    fn region_height(&self) -> (h: u16)
        requires
            self@.wf(),
        ensures
            h == self@.region_height(),
    {
        proof {
            reveal(GridView::wf);
        }
        self.scroll_bottom - self.scroll_top + 1
    }

    /// Scrolls the region up by `n` rows.
    pub fn scroll_up(&mut self, n: u16, attrs: Attrs)
        requires
            old(self)@.wf(),
        ensures
            final(self)@ == old(self)@.scroll_up(n as int, attrs),
            final(self)@.wf(),
    {
        proof {
            reveal(GridView::wf);
        }
        let height = self.region_height();
        let count = if n > height { height } else { n };
        let mut i: u16 = 0;
        while i < count
            invariant
                i <= count,
                self@.wf(),
                self@.scrolled_up((count - i) as nat, attrs) == old(self)@.scrolled_up(
                    count as nat,
                    attrs,
                ),
            decreases count - i,
        {
            self.scroll_up_once(attrs);
            i += 1;
        }
    }

    /// Scrolls the region down by `n` rows.
    pub fn scroll_down(&mut self, n: u16, attrs: Attrs)
        requires
            old(self)@.wf(),
        ensures
            final(self)@ == old(self)@.scroll_down(n as int, attrs),
            final(self)@.wf(),
    {
        proof {
            reveal(GridView::wf);
        }
        let height = self.region_height();
        let count = if n > height { height } else { n };
        let mut i: u16 = 0;
        while i < count
            invariant
                i <= count,
                self@.wf(),
                self@.scrolled_down((count - i) as nat, attrs) == old(self)@.scrolled_down(
                    count as nat,
                    attrs,
                ),
            decreases count - i,
        {
            self.scroll_down_once(attrs);
            i += 1;
        }
    }

    /// Moves the cursor down one row, scrolling at the bottom of the scroll
    /// region.
    pub fn line_feed(&mut self, attrs: Attrs)
        requires
            old(self)@.wf(),
        ensures
            final(self)@ == old(self)@.line_feed(attrs),
            final(self)@.wf(),
    {
        proof {
            reveal(GridView::wf);
        }
        if self.pos.row == self.scroll_bottom {
            self.scroll_up_once(attrs);
        } else {
            let next = if self.pos.row == 0xffff { 0xffff } else { self.pos.row + 1 };
            self.move_to(next, self.pos.col);
        }
    }

    /// Moves the cursor up one row, scrolling at the top of the scroll
    /// region.
    pub fn reverse_index(&mut self, attrs: Attrs)
        requires
            old(self)@.wf(),
        ensures
            final(self)@ == old(self)@.reverse_index(attrs),
            final(self)@.wf(),
    {
        proof {
            reveal(GridView::wf);
        }
        if self.pos.row == self.scroll_top {
            self.scroll_down_once(attrs);
        } else {
            let prev = if self.pos.row == 0 { 0 } else { self.pos.row - 1 };
            self.move_to(prev, self.pos.col);
        }
    }

    fn wrap_around(&mut self, attrs: Attrs)
        requires
            old(self)@.wf(),
        ensures
            final(self)@ == old(self)@.wrapped_around(attrs),
            final(self)@.wf(),
            final(self)@.pos.col == 0,
            !final(self)@.pending_wrap,
            final(self)@.cols == old(self)@.cols,
    {
        proof {
            reveal(GridView::wf);
        }
        let row = self.pos.row as usize;
        let ghost before = self.rows@;
        if self.pos.row == self.scroll_bottom || row + 1 < self.rows.len() {
            self.rows[row].wrap(true);
            proof {
                lemma_row_views_update(before, row as int, self.rows@[row as int]);
            }
        }
        let ghost marked = self@;
        proof {
            old(self)@.lemma_wrapped_around_wf(attrs);
        }
        // between the mark and the line feed the grid need not be well-formed
        if self.pos.row == self.scroll_bottom {
            let top = self.scroll_top as usize;
            let bottom = self.scroll_bottom as usize;
            let keep = top == 0 && bottom == self.rows.len() - 1;
            let ghost mid = self.rows@;
            let ghost history = self.scrollback@;
            let gone = self.rows.remove(top);
            let fresh = Row::new(self.cols, attrs);
            self.rows.insert(bottom, fresh);
            proof {
                lemma_row_views_remove_insert(mid, top as int, bottom as int, fresh);
            }
            if keep && self.scrollback_len > 0 {
                if self.scrollback.len() >= self.scrollback_len {
                    self.scrollback.remove(0);
                }
                self.scrollback.push(gone);
                assert(row_views(self.scrollback@) =~= pushed_bounded(
                    row_views(history),
                    mid[top as int]@,
                    self.scrollback_len as nat,
                ));
            }
            self.pending_wrap = false;
            assert(self@ == marked.line_feed(attrs));
        } else {
            let last_row = (self.rows.len() - 1) as u16;
            let next = if self.pos.row >= last_row { last_row } else { self.pos.row + 1 };
            self.pos = Pos { row: next, col: self.pos.col };
            self.pending_wrap = false;
            assert(self@ == marked.line_feed(attrs));
        }
        self.pos = Pos { row: self.pos.row, col: 0 };
    }

    /// Takes one character of text: a character without width joins the
    /// character written last, any other is written at the cursor.
    pub fn put_text(&mut self, c: char, attrs: Attrs)
        requires
            old(self)@.wf(),
            is_text_char(c),
        ensures
            final(self)@ == old(self)@.put_text(c, attrs),
            final(self)@.wf(),
    {
        proof {
            reveal(GridView::wf);
        }
        proof {
            old(self)@.lemma_put_text_wf(c, attrs);
        }
        let width = char_width(c);
        if width == 0 {
            let ghost before = self.rows@;
            if self.pending_wrap {
                let row = self.pos.row as usize;
                self.rows[row].mark(self.pos.col as usize, c);
                proof {
                    lemma_row_views_update(before, row as int, self.rows@[row as int]);
                }
            } else if self.pos.col > 0 {
                let row = self.pos.row as usize;
                self.rows[row].mark((self.pos.col - 1) as usize, c);
                proof {
                    lemma_row_views_update(before, row as int, self.rows@[row as int]);
                }
            } else if self.pos.row > 0 && self.rows[(self.pos.row - 1) as usize].wrapped() {
                let row = (self.pos.row - 1) as usize;
                assert(old(self)@.rows[row as int].wf(self.cols as nat));
                self.rows[row].mark((self.cols - 1) as usize, c);
                proof {
                    lemma_row_views_update(before, row as int, self.rows@[row as int]);
                }
            }
        } else {
            let w: u16 = if width >= 2 { 2 } else { 1 };
            if self.pending_wrap || self.pos.col as u32 + w as u32 > self.cols as u32 {
                self.wrap_around(attrs);
            }
            let ghost g = self@;
            let ghost before = self.rows@;
            let row = self.pos.row as usize;
            let col = self.pos.col;
            assert(g.rows[row as int].wf(g.cols));
            self.rows[row].write(col as usize, c, attrs);
            proof {
                lemma_row_views_update(before, row as int, self.rows@[row as int]);
            }
            if col as u32 + w as u32 >= self.cols as u32 {
                self.pos = Pos { row: self.pos.row, col: self.cols - 1 };
                self.pending_wrap = true;
            } else {
                self.pos = Pos { row: self.pos.row, col: col + w };
                self.pending_wrap = false;
            }
        }
    }

    /// Erases `n` characters from the cursor on.
    pub fn erase_chars(&mut self, n: u16, attrs: Attrs)
        requires
            old(self)@.wf(),
        ensures
            final(self)@ == old(self)@.erase_chars(n as int, attrs),
            final(self)@.wf(),
    {
        proof {
            reveal(GridView::wf);
        }
        proof {
            old(self)@.lemma_erase_wf(n as int, 0, attrs);
        }
        let row = self.pos.row as usize;
        let col = self.pos.col;
        let end = if n > self.cols - col { self.cols } else { col + n };
        let ghost before = self.rows@;
        assert(old(self)@.rows[row as int].wf(self.cols as nat));
        self.rows[row].erase(col as usize, end as usize, attrs, false);
        proof {
            lemma_row_views_update(before, row as int, self.rows@[row as int]);
        }
        self.pending_wrap = false;
    }

    /// Erases in the cursor's row: with mode 0 from the cursor to the end,
    /// with mode 1 from the start up to the cursor, with mode 2 all of it.
    pub fn erase_line(&mut self, mode: u16, attrs: Attrs)
        requires
            old(self)@.wf(),
        ensures
            final(self)@ == old(self)@.erase_line(mode as int, attrs),
            final(self)@.wf(),
    {
        proof {
            reveal(GridView::wf);
        }
        proof {
            old(self)@.lemma_erase_wf(0, mode as int, attrs);
        }
        let row = self.pos.row as usize;
        let col = self.pos.col as usize;
        let cols = self.cols as usize;
        let ghost before = self.rows@;
        assert(old(self)@.rows[row as int].wf(self.cols as nat));
        if mode == 0 {
            self.rows[row].erase(col, cols, attrs, true);
        } else if mode == 1 {
            self.rows[row].erase(0, col + 1, attrs, true);
        } else if mode == 2 {
            self.rows[row].erase(0, cols, attrs, true);
        }
        proof {
            lemma_row_views_update(before, row as int, self.rows@[row as int]);
            assert(self@.rows =~= old(self)@.erase_line(mode as int, attrs).rows);
        }
        self.pending_wrap = false;
    }

    fn blank_rows(&mut self, from: usize, to: usize, attrs: Attrs)
        requires
            from <= to <= old(self)@.rows.len(),
        ensures
            final(self)@ == (GridView {
                rows: Seq::new(
                    old(self)@.rows.len(),
                    |r: int|
                        if from <= r < to {
                            RowView::blank(old(self)@.cols, attrs)
                        } else {
                            old(self)@.rows[r]
                        },
                ),
                ..old(self)@
            }),
    {
        let mut r: usize = from;
        while r < to
            invariant
                from <= r <= to <= self.rows@.len(),
                self.rows@.len() == old(self).rows@.len(),
                self@ == (GridView { rows: self@.rows, ..old(self)@ }),
                forall|k: int|
                    0 <= k < self.rows@.len() ==> (#[trigger] self.rows@[k])@ == if from <= k < r {
                        RowView::blank(self.cols as nat, attrs)
                    } else {
                        old(self)@.rows[k]
                    },
            decreases to - r,
        {
            self.rows[r] = Row::new(self.cols, attrs);
            r += 1;
        }
        assert(self@.rows =~= Seq::new(
            old(self)@.rows.len(),
            |r: int|
                if from <= r < to {
                    RowView::blank(old(self)@.cols, attrs)
                } else {
                    old(self)@.rows[r]
                },
        ));
    }

    fn erase_row_part(&mut self, lo: usize, hi: usize, attrs: Attrs)
        requires
            old(self)@.wf(),
            hi <= old(self)@.cols,
        ensures
            final(self)@ == (GridView {
                rows: old(self)@.rows.update(
                    old(self)@.pos.row as int,
                    old(self)@.rows[old(self)@.pos.row as int].erased(
                        lo as int,
                        hi as int,
                        attrs,
                        true,
                    ),
                ),
                pending_wrap: false,
                ..old(self)@
            }),
    {
        proof {
            reveal(GridView::wf);
        }
        let row = self.pos.row as usize;
        let ghost before = self.rows@;
        assert(old(self)@.rows[row as int].wf(self.cols as nat));
        self.rows[row].erase(lo, hi, attrs, true);
        proof {
            lemma_row_views_update(before, row as int, self.rows@[row as int]);
        }
        self.pending_wrap = false;
    }

    fn erase_below(&mut self, attrs: Attrs)
        requires
            old(self)@.wf(),
        ensures
            final(self)@ == old(self)@.erase_display(0, attrs),
    {
        proof {
            reveal(GridView::wf);
        }
        let row = self.pos.row as usize;
        let len = self.rows.len();
        self.erase_row_part(self.pos.col as usize, self.cols as usize, attrs);
        self.blank_rows(row + 1, len, attrs);
        assert(self@.rows =~= old(self)@.erase_display(0, attrs).rows);
    }

    fn erase_above(&mut self, attrs: Attrs)
        requires
            old(self)@.wf(),
        ensures
            final(self)@ == old(self)@.erase_display(1, attrs),
    {
        proof {
            reveal(GridView::wf);
        }
        let row = self.pos.row as usize;
        self.erase_row_part(0, self.pos.col as usize + 1, attrs);
        self.blank_rows(0, row, attrs);
        assert(self@.rows =~= old(self)@.erase_display(1, attrs).rows);
    }

    fn erase_all(&mut self, history: bool, attrs: Attrs)
        requires
            old(self)@.wf(),
        ensures
            final(self)@ == old(self)@.erase_display(
                if history {
                    3
                } else {
                    2
                },
                attrs,
            ),
    {
        proof {
            reveal(GridView::wf);
        }
        let len = self.rows.len();
        self.pending_wrap = false;
        self.blank_rows(0, len, attrs);
        if history {
            self.scrollback.clear();
            assert(row_views(self.scrollback@) =~= Seq::<RowView>::empty());
        }
        assert(self@.rows =~= old(self)@.erase_display(if history { 3 } else { 2 }, attrs).rows);
    }

    /// Erases on the screen: with mode 0 from the cursor to the end of the
    /// screen, with mode 1 from the start of the screen up to the cursor,
    /// with mode 2 all of it, with mode 3 all of it and the history.
    pub fn erase_display(&mut self, mode: u16, attrs: Attrs)
        requires
            old(self)@.wf(),
        ensures
            final(self)@ == old(self)@.erase_display(mode as int, attrs),
            final(self)@.wf(),
    {
        proof {
            reveal(GridView::wf);
        }
        proof {
            old(self)@.lemma_erase_wf(0, mode as int, attrs);
        }
        if mode == 0 {
            self.erase_below(attrs);
        } else if mode == 1 {
            self.erase_above(attrs);
        } else if mode == 2 {
            self.erase_all(false, attrs);
        } else if mode == 3 {
            self.erase_all(true, attrs);
        } else {
            self.pending_wrap = false;
        }
    }

    fn resize_rows(rows: &mut Vec<Row>, cols: u16)
        requires
            cols > 0,
        ensures
            row_views(final(rows)@) == Seq::new(
                row_views(old(rows)@).len(),
                |k: int| row_views(old(rows)@)[k].resized(cols as nat),
            ),
    {
        let mut k: usize = 0;
        while k < rows.len()
            invariant
                cols > 0,
                k <= rows@.len(),
                rows@.len() == old(rows)@.len(),
                forall|j: int|
                    0 <= j < rows@.len() ==> (#[trigger] rows@[j])@ == if j < k {
                        old(rows)@[j]@.resized(cols as nat)
                    } else {
                        old(rows)@[j]@
                    },
            decreases rows@.len() - k,
        {
            rows[k].resize(cols);
            k += 1;
        }
        assert(row_views(rows@) =~= Seq::new(
            row_views(old(rows)@).len(),
            |k: int| row_views(old(rows)@)[k].resized(cols as nat),
        ));
    }

    fn set_cols(&mut self, cols: u16)
        requires
            old(self)@.wf(),
            cols >= 2,
        ensures
            final(self)@ == old(self)@.with_cols(cols as nat),
            final(self)@.wf(),
    {
        proof {
            reveal(GridView::wf);
        }
        proof {
            old(self)@.lemma_with_cols_wf(cols as nat);
        }
        Self::resize_rows(&mut self.rows, cols);
        Self::resize_rows(&mut self.scrollback, cols);
        let last = cols - 1;
        self.cols = cols;
        self.pos = Pos { row: self.pos.row, col: if self.pos.col > last { last } else { self.pos.col } };
        self.saved_pos = Pos {
            row: self.saved_pos.row,
            col: if self.saved_pos.col > last { last } else { self.saved_pos.col },
        };
        self.pending_wrap = false;
    }

    fn shrink_once(&mut self)
        requires
            old(self)@.wf(),
            old(self)@.rows.len() >= 2,
        ensures
            final(self)@ == old(self)@.shrunk_once(),
            final(self)@.wf(),
    {
        proof {
            reveal(GridView::wf);
        }
        proof {
            old(self)@.lemma_shrunk_once_wf();
        }
        let len = self.rows.len();
        let last = (len - 2) as u16;
        let ghost before = self.rows@;
        let ghost history = self.scrollback@;
        if self.pos.row as usize == len - 1 {
            let gone = self.rows.remove(0);
            assert(row_views(self.rows@) =~= row_views(before).drop_first());
            if self.scrollback_len > 0 {
                if self.scrollback.len() >= self.scrollback_len {
                    self.scrollback.remove(0);
                }
                self.scrollback.push(gone);
            }
            assert(row_views(self.scrollback@) =~= pushed_bounded(
                row_views(history),
                before[0]@,
                self.scrollback_len as nat,
            ));
            self.pos = Pos { row: self.pos.row - 1, col: self.pos.col };
        } else {
            self.rows.pop();
            let ghost cut = self.rows@;
            assert(row_views(cut) =~= row_views(before).drop_last());
            self.rows[len - 2].wrap(false);
            proof {
                lemma_row_views_update(cut, len - 2, self.rows@[len - 2]);
            }
        }
        self.saved_pos = Pos {
            row: if self.saved_pos.row > last { last } else { self.saved_pos.row },
            col: self.saved_pos.col,
        };
        self.scroll_top = 0;
        self.scroll_bottom = last;
    }

    fn grow_once(&mut self)
        requires
            old(self)@.wf(),
            old(self)@.rows.len() < 0xffff,
        ensures
            final(self)@ == old(self)@.grown_once(),
            final(self)@.wf(),
    {
        proof {
            reveal(GridView::wf);
        }
        proof {
            old(self)@.lemma_grown_once_wf();
        }
        let len = self.rows.len();
        let ghost before = self.rows@;
        let ghost history = self.scrollback@;
        match self.scrollback.pop() {
            Some(row) => {
                assert(row_views(self.scrollback@) =~= row_views(history).drop_last());
                self.rows.insert(0, row);
                assert(row_views(self.rows@) =~= row_views(before).insert(
                    0,
                    row_views(history).last(),
                ));
                self.pos = Pos { row: self.pos.row + 1, col: self.pos.col };
            },
            None => {
                assert(row_views(self.scrollback@) =~= row_views(history));
                let fresh = Row::new(self.cols, Attrs::default());
                self.rows.push(fresh);
                assert(row_views(self.rows@) =~= row_views(before).push(
                    RowView::blank(self.cols as nat, Attrs::plain()),
                ));
            },
        }
        self.scroll_top = 0;
        self.scroll_bottom = len as u16;
    }

    /// Brings the grid to another size. Every row is cut or padded to
    /// `cols` cells; then rows leave, from the top into the history as long
    /// as the cursor is on the last row and from the bottom otherwise, or
    /// come, from the history as long as it holds any and blank ones at the
    /// bottom otherwise, until there are `rows` of them.
    pub fn resize(&mut self, rows: u16, cols: u16)
        requires
            old(self)@.wf(),
            rows >= 1,
            cols >= 2,
        ensures
            final(self)@ == old(self)@.resized(rows as nat, cols as nat),
            final(self)@.wf(),
            final(self)@.rows.len() == rows,
            final(self)@.cols == cols,
    {
        proof {
            reveal(GridView::wf);
        }
        proof {
            old(self)@.lemma_resized_wf(rows as nat, cols as nat);
        }
        self.set_cols(cols);
        let want = rows as usize;
        while self.rows.len() != want
            invariant
                self@.wf(),
                want == rows,
                rows >= 1,
                self@.sized_to(rows as nat) == old(self)@.resized(rows as nat, cols as nat),
            decreases self@.rows_off(rows as nat),
        {
            proof {
                self@.lemma_wf_facts();
            }
            if self.rows.len() > want {
                self.shrink_once();
            } else {
                self.grow_once();
            }
        }
    }

    /// Performs one of the control functions that move the cursor.
    pub fn cursor_function(&mut self, params: &Vec<u16>, function: u8)
        requires
            old(self)@.wf(),
        ensures
            final(self)@ == old(self)@.cursor_function(params@, function),
            final(self)@.wf(),
    {
        proof {
            reveal(GridView::wf);
        }
        let n = param_or(params, 0, 1);
        if function == 0x41 {
            self.cursor_up(n);
        } else if function == 0x42 {
            self.cursor_down(n);
        } else if function == 0x43 {
            self.cursor_right(n);
        } else if function == 0x44 {
            self.cursor_left(n);
        } else if function == 0x47 {
            self.cursor_to_col(n - 1);
        } else if function == 0x48 || function == 0x66 {
            self.cursor_to(n - 1, param_or(params, 1, 1) - 1);
        } else if function == 0x64 {
            self.cursor_to_row(n - 1);
        }
    }

    /// Performs one of the control functions that erase or scroll.
    pub fn erase_function(&mut self, params: &Vec<u16>, function: u8, attrs: Attrs)
        requires
            old(self)@.wf(),
        ensures
            final(self)@ == old(self)@.erase_function(params@, function, attrs),
            final(self)@.wf(),
    {
        proof {
            reveal(GridView::wf);
        }
        if function == 0x4a {
            self.erase_display(param_or(params, 0, 0), attrs);
        } else if function == 0x4b {
            self.erase_line(param_or(params, 0, 0), attrs);
        } else if function == 0x53 {
            self.scroll_up(param_or(params, 0, 1), attrs);
        } else if function == 0x54 {
            self.scroll_down(param_or(params, 0, 1), attrs);
        } else if function == 0x58 {
            self.erase_chars(param_or(params, 0, 1), attrs);
        }
    }

    /// Performs one of the escape functions that move by a line.
    pub fn index_function(&mut self, function: u8, attrs: Attrs)
        requires
            old(self)@.wf(),
        ensures
            final(self)@ == old(self)@.index_function(function, attrs),
            final(self)@.wf(),
    {
        proof {
            reveal(GridView::wf);
        }
        if function == 0x44 {
            self.line_feed(attrs);
        } else if function == 0x45 {
            self.line_feed(attrs);
            self.carriage_return();
        } else if function == 0x4d {
            self.reverse_index(attrs);
        }
    }

    /// Sets the scroll region from the parameters of the control function
    /// `r`.
    pub fn region_function(&mut self, params: &Vec<u16>)
        requires
            old(self)@.wf(),
        ensures
            final(self)@ == old(self)@.region_function(params@),
            final(self)@.wf(),
    {
        proof {
            reveal(GridView::wf);
        }
        let rows = self.rows.len() as u16;
        let first = param_or(params, 0, 1);
        let last = param_or(params, 1, rows);
        let bottom = if last > rows { rows } else { last };
        self.set_scroll_region(first - 1, bottom - 1);
    }

    /// Sets the scroll region to the rows from `top` to `bottom` and puts
    /// the cursor at the origin. A region of less than two rows, or one that
    /// leaves the screen, is refused.
    pub fn set_scroll_region(&mut self, top: u16, bottom: u16)
        requires
            old(self)@.wf(),
        ensures
            final(self)@ == old(self)@.set_scroll_region(top as int, bottom as int),
            final(self)@.wf(),
    {
        proof {
            reveal(GridView::wf);
        }
        if top < bottom && (bottom as usize) < self.rows.len() {
            self.scroll_top = top;
            self.scroll_bottom = bottom;
            self.cursor_to(0, 0);
        }
    }

    /// Switches origin mode and puts the cursor at the origin.
    pub fn set_origin_mode(&mut self, on: bool)
        requires
            old(self)@.wf(),
        ensures
            final(self)@ == old(self)@.set_origin_mode(on),
            final(self)@.wf(),
    {
        proof {
            reveal(GridView::wf);
        }
        self.origin_mode = on;
        self.cursor_to(0, 0);
    }

    /// Keeps the cursor's position and the origin mode for later.
    pub fn save_cursor(&mut self)
        requires
            old(self)@.wf(),
        ensures
            final(self)@ == old(self)@.save_cursor(),
            final(self)@.wf(),
    {
        proof {
            reveal(GridView::wf);
        }
        self.saved_pos = self.pos;
        self.saved_origin_mode = self.origin_mode;
    }

    /// Goes back to the position and origin mode kept last.
    pub fn restore_cursor(&mut self)
        requires
            old(self)@.wf(),
        ensures
            final(self)@ == old(self)@.restore_cursor(),
            final(self)@.wf(),
    {
        proof {
            reveal(GridView::wf);
        }
        self.pos = self.saved_pos;
        self.origin_mode = self.saved_origin_mode;
        self.pending_wrap = false;
    }

    /// Blanks every cell and puts the cursor in the top left corner; size
    /// and history stay.
    pub fn clear(&mut self)
        requires
            old(self)@.wf(),
        ensures
            final(self)@ == old(self)@.cleared(),
            final(self)@.wf(),
    {
        proof {
            reveal(GridView::wf);
        }
        let len = self.rows.len();
        self.pending_wrap = false;
        self.blank_rows(0, len, Attrs::default());
        self.pos = Pos { row: 0, col: 0 };
        self.saved_pos = Pos { row: 0, col: 0 };
        self.scroll_top = 0;
        self.scroll_bottom = (len - 1) as u16;
        self.origin_mode = false;
        self.saved_origin_mode = false;
        proof {
            old(self)@.lemma_modes_wf(0, 0, false);
            assert(self@.rows =~= old(self)@.cleared().rows);
        }
    }
}

} // verus!
