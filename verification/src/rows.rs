//! What the parser does with a formatted row: it draws that row.

use vstd::prelude::*;
use crate::attrs::Attrs;
use crate::cell::CellView;
use crate::format::Shown;
use crate::format::attrs_diff;
use crate::format::attrs_set;
use crate::format::cells_formatted;
use crate::format::clear_row_forward;
use crate::format::lemma_cells_formatted_run;
use crate::format::lemma_cells_formatted_skip;
use crate::format::lemma_cells_formatted_text;
use crate::format::lemma_cells_formatted_unfold;
use crate::format::lemma_clipped_wf;
use crate::format::modes_diff;
use crate::format::run_end;
use crate::format::wrap_tail;
use crate::grid::GridView;
use crate::grid::Pos;
use crate::parser::ParserView;
use crate::redraw::cells_drawn;
use crate::redraw::drawing;
use crate::redraw::lemma_draw_blank;
use crate::redraw::lemma_draw_done;
use crate::redraw::lemma_draw_line_end;
use crate::redraw::lemma_draw_text;
use crate::redraw::lemma_row_ok_at;
use crate::redraw::lemma_row_typed;
use crate::redraw::row_ok;
use crate::redraw::row_typed;
use crate::row::RowView;
use crate::row::is_text_char;
use crate::screen::ScreenView;
use crate::screen::is_title;
use crate::term::CRLF;
use crate::term::HideCursor;
use crate::term::MoveTo;
use crate::term::repeated;
use crate::utf8::utf8;
use crate::utf8::utf8_text;

verus! {

/// Every character in a well-formed cell can stand in a cell.
pub proof fn lemma_cell_text_chars(cell: CellView)
    requires
        cell.wf(),
    ensures
        forall|k: int| 0 <= k < cell.text.len() ==> is_text_char(#[trigger] cell.text[k]),
{
    assert forall|k: int| 0 <= k < cell.text.len() implies is_text_char(#[trigger] cell.text[k]) by {
        if k > 0 {
            assert(cell.text[k] as u32 >= 0x80);
        }
    }
}

impl ParserView {
    /// The bytes for a cell with text, read while the row is drawn, draw
    /// that cell.
    pub proof fn lemma_feed_text_cell(
        self,
        s0: ScreenView,
        r: int,
        cells: Seq<CellView>,
        i: int,
        to_line_end: bool,
    ) -> (next: int)
        requires
            self.at_rest(),
            drawing(s0, self.screen, r, cells, i, to_line_end),
            i < cells.len(),
            cells[i].text.len() > 0,
        ensures
            i < next <= cells.len(),
            cells_formatted(cells, i, self.screen.attrs, to_line_end) == attrs_diff(
                self.screen.attrs,
                cells[i].attrs,
            ) + utf8_text(cells[i].text) + cells_formatted(cells, next, cells[i].attrs, to_line_end),
            self.feed(
                attrs_diff(self.screen.attrs, cells[i].attrs) + utf8_text(cells[i].text),
            ).at_rest(),
            self.feed(
                attrs_diff(self.screen.attrs, cells[i].attrs) + utf8_text(cells[i].text),
            ).screen.attrs == cells[i].attrs,
            drawing(
                s0,
                self.feed(
                    attrs_diff(self.screen.attrs, cells[i].attrs) + utf8_text(cells[i].text),
                ).screen,
                r,
                cells,
                next,
                to_line_end,
            ),
    {
        let cell = cells[i];
        let a = cell.attrs;
        let pen = self.screen.attrs;
        let cols = self.screen.grid.cols;
        let w = RowView::span(cell.text[0]);
        lemma_row_ok_at(cells, cols, i);
        lemma_cells_formatted_text(cells, i, pen, to_line_end);
        lemma_draw_text(s0, self.screen, r, cells, i, to_line_end);
        if w == 2 {
            lemma_cells_formatted_skip(cells, i + 1, a, to_line_end);
        }
        let d = attrs_diff(pen, a);
        let t = utf8_text(cell.text);
        self.lemma_feed_attrs_diff(a);
        let p1 = self.feed(d);
        lemma_cell_text_chars(cell);
        p1.lemma_feed_text(cell.text);
        self.lemma_feed_concat(d, t);
        i + w
    }

    /// The bytes for a run of blank cells that is erased and stepped over,
    /// read while the row is drawn, draw that run.
    pub proof fn lemma_feed_blank_run(
        self,
        s0: ScreenView,
        r: int,
        cells: Seq<CellView>,
        i: int,
        to_line_end: bool,
    ) -> (next: int)
        requires
            self.at_rest(),
            drawing(s0, self.screen, r, cells, i, to_line_end),
            i < cells.len(),
            cells[i].text.len() == 0,
            !(run_end(cells, i + 1, cells[i].attrs) == cells.len() && to_line_end),
        ensures
            i < next <= cells.len(),
            next == run_end(cells, i + 1, cells[i].attrs),
            cells_formatted(cells, i, self.screen.attrs, to_line_end) == attrs_diff(
                self.screen.attrs,
                cells[i].attrs,
            ) + repeated((next - i) as u16, 0x58) + repeated((next - i) as u16, 0x43)
                + cells_formatted(cells, next, cells[i].attrs, to_line_end),
            self.feed(
                attrs_diff(self.screen.attrs, cells[i].attrs) + repeated((next - i) as u16, 0x58)
                    + repeated((next - i) as u16, 0x43),
            ).at_rest(),
            self.feed(
                attrs_diff(self.screen.attrs, cells[i].attrs) + repeated((next - i) as u16, 0x58)
                    + repeated((next - i) as u16, 0x43),
            ).screen.attrs == cells[i].attrs,
            drawing(
                s0,
                self.feed(
                    attrs_diff(self.screen.attrs, cells[i].attrs) + repeated(
                        (next - i) as u16,
                        0x58,
                    ) + repeated((next - i) as u16, 0x43),
                ).screen,
                r,
                cells,
                next,
                to_line_end,
            ),
    {
        let cell = cells[i];
        let a = cell.attrs;
        let pen = self.screen.attrs;
        let cols = self.screen.grid.cols;
        let j = run_end(cells, i + 1, a);
        self.screen.grid.lemma_wf_facts();
        lemma_row_ok_at(cells, cols, i);
        lemma_cells_formatted_run(cells, i, pen, to_line_end);
        lemma_draw_blank(s0, self.screen, r, cells, i, to_line_end);
        let count = (j - i) as u16;
        let d = attrs_diff(pen, a);
        let e = repeated(count, 0x58);
        let m = repeated(count, 0x43);
        self.lemma_feed_attrs_diff(a);
        let p1 = self.feed(d);
        p1.lemma_feed_erase_chars(count);
        let p2 = p1.feed(e);
        p2.lemma_feed_move_right(count);
        self.lemma_feed_concat(d, e);
        self.lemma_feed_concat(d + e, m);
        j
    }

    /// The bytes for a run of blank cells that is erased to the end of the
    /// line, read while the row is drawn, finish the row.
    pub proof fn lemma_feed_line_end(self, s0: ScreenView, r: int, cells: Seq<CellView>, i: int)
        requires
            self.at_rest(),
            drawing(s0, self.screen, r, cells, i, true),
            i < cells.len(),
            cells[i].text.len() == 0,
            run_end(cells, i + 1, cells[i].attrs) == cells.len(),
        ensures
            self.feed(cells_formatted(cells, i, self.screen.attrs, true)).at_rest(),
            cells_drawn(
                s0,
                self.feed(cells_formatted(cells, i, self.screen.attrs, true)).screen,
                r,
                cells,
                true,
            ),
    {
        let cell = cells[i];
        let a = cell.attrs;
        let pen = self.screen.attrs;
        let cols = self.screen.grid.cols;
        lemma_row_ok_at(cells, cols, i);
        lemma_cells_formatted_run(cells, i, pen, true);
        lemma_draw_line_end(s0, self.screen, r, cells, i);
        let d = attrs_diff(pen, a);
        self.lemma_feed_attrs_diff(a);
        let p1 = self.feed(d);
        p1.lemma_feed_clear_row_forward();
        self.lemma_feed_concat(d, clear_row_forward());
    }

    /// The bytes for the cells of a row from `i` on, read while the row is
    /// drawn up to `i`, draw the rest of the row.
    pub proof fn lemma_feed_cells(
        self,
        s0: ScreenView,
        r: int,
        cells: Seq<CellView>,
        i: int,
        to_line_end: bool,
    )
        requires
            self.at_rest(),
            drawing(s0, self.screen, r, cells, i, to_line_end),
        ensures
            self.feed(cells_formatted(cells, i, self.screen.attrs, to_line_end)).at_rest(),
            cells_drawn(
                s0,
                self.feed(cells_formatted(cells, i, self.screen.attrs, to_line_end)).screen,
                r,
                cells,
                to_line_end,
            ),
        decreases cells.len() - i,
    {
        let pen = self.screen.attrs;
        let all = cells_formatted(cells, i, pen, to_line_end);
        if i >= cells.len() {
            lemma_cells_formatted_unfold(cells, i, pen, to_line_end);
            self.lemma_feed_none();
            lemma_draw_done(s0, self.screen, r, cells, to_line_end);
        } else if cells[i].text.len() > 0 {
            let next = self.lemma_feed_text_cell(s0, r, cells, i, to_line_end);
            let head = attrs_diff(pen, cells[i].attrs) + utf8_text(cells[i].text);
            let after = self.feed(head);
            after.lemma_feed_cells(s0, r, cells, next, to_line_end);
            self.lemma_feed_concat(
                head,
                cells_formatted(cells, next, cells[i].attrs, to_line_end),
            );
        } else if run_end(cells, i + 1, cells[i].attrs) == cells.len() && to_line_end {
            self.lemma_feed_line_end(s0, r, cells, i);
        } else {
            let next = self.lemma_feed_blank_run(s0, r, cells, i, to_line_end);
            let head = attrs_diff(pen, cells[i].attrs) + repeated((next - i) as u16, 0x58)
                + repeated((next - i) as u16, 0x43);
            let after = self.feed(head);
            after.lemma_feed_cells(s0, r, cells, next, to_line_end);
            self.lemma_feed_concat(
                head,
                cells_formatted(cells, next, cells[i].attrs, to_line_end),
            );
        }
    }
}

impl ScreenView {
    /// The screen with other rows, cursor and attributes for text.
    pub open spec fn repainted(self, rows: Seq<RowView>, pos: Pos, pending: bool, attrs: Attrs) -> ScreenView {
        ScreenView {
            grid: GridView { rows, pos, pending_wrap: pending, ..self.grid },
            attrs,
            ..self
        }
    }

    /// Whether `other` is this screen but for what the rows hold, the
    /// cursor and the attributes for text.
    pub open spec fn painted(self, other: ScreenView) -> bool {
        other == self.repainted(
            other.grid.rows,
            other.grid.pos,
            other.grid.pending_wrap,
            other.attrs,
        ) && other.grid.rows.len() == self.grid.rows.len()
    }

    /// A space that arrives at a cursor that waits to wrap makes the
    /// cursor's row run on and is written at the start of the next row.
    pub proof fn lemma_space_wraps(self)
        requires
            self.wf(),
            self.grid.plain_addressing(),
            self.grid.pending_wrap,
            self.grid.pos.row + 1 < self.grid.rows.len(),
        ensures
            self.text(' ').wf(),
            self.text(' ') == self.repainted(
                self.grid.rows.update(
                    self.grid.pos.row as int,
                    RowView { wrapped: true, ..self.grid.rows[self.grid.pos.row as int] },
                ).update(
                    self.grid.pos.row + 1,
                    self.grid.rows[self.grid.pos.row + 1].written(0, ' ', self.attrs),
                ),
                Pos { row: (self.grid.pos.row + 1) as u16, col: 1 },
                false,
                self.attrs,
            ),
    {
        self.lemma_text_wf(' ');
        self.grid.lemma_wf_facts();
        reveal(ScreenView::text);
        let g = self.grid;
        let r = g.pos.row as int;
        let marked = g.with_row(r, RowView { wrapped: true, ..g.rows[r] });
        let around = g.wrapped_around(self.attrs);
        assert(around == (GridView {
            pos: Pos { row: (r + 1) as u16, col: 0 },
            pending_wrap: false,
            ..marked
        }));
        assert(around.placed(' ', self.attrs).rows =~= g.rows.update(
            r,
            RowView { wrapped: true, ..g.rows[r] },
        ).update(r + 1, g.rows[r + 1].written(0, ' ', self.attrs)));
    }

    /// A space that arrives at a cursor on the last cell of its row, which
    /// does not wait to wrap, is written there, and the cursor waits.
    pub proof fn lemma_space_at_end(self)
        requires
            self.wf(),
            !self.grid.pending_wrap,
            self.grid.pos.col == self.grid.cols - 1,
        ensures
            self.text(' ').wf(),
            self.text(' ') == self.repainted(
                self.grid.rows.update(
                    self.grid.pos.row as int,
                    self.grid.rows[self.grid.pos.row as int].written(
                        self.grid.cols - 1,
                        ' ',
                        self.attrs,
                    ),
                ),
                self.grid.pos,
                true,
                self.attrs,
            ),
    {
        self.lemma_text_wf(' ');
        self.grid.lemma_wf_facts();
        self.lemma_text_placed(' ');
    }
}

/// Whether the screen `t` is the screen `s` with the row `row` drawn as
/// row `r`: that row is as wanted, the rows around it are untouched, but
/// for the next one if the row runs on, and the cursor stands at the start
/// of the next row if the row runs on, and on the row if not.
pub open spec fn row_done(s: ScreenView, t: ScreenView, r: int, row: RowView, wraps: bool) -> bool {
    &&& t.wf()
    &&& t.grid.plain_addressing()
    &&& s.painted(t)
    &&& 0 <= r < t.grid.rows.len()
    &&& t.grid.rows[r] == row
    &&& (forall|k: int|
        0 <= k < t.grid.rows.len() && k != r && !(wraps && k == r + 1) ==> #[trigger] t.grid.rows[k]
            == s.grid.rows[k])
    &&& t.attrs == row.cells.last().attrs
    &&& (wraps ==> t.grid.pos == (Pos { row: (r + 1) as u16, col: 0 }) && !t.grid.pending_wrap)
    &&& (!wraps ==> t.grid.pos.row == r)
}

impl ParserView {
    /// A space, read by a parser at rest, is taken as text.
    pub proof fn lemma_feed_space(self)
        requires
            self.at_rest(),
        ensures
            self.feed(seq![0x20u8]).at_rest(),
            self.feed(seq![0x20u8]).screen == self.screen.text(' '),
    {
        assert(utf8(' ') =~= seq![0x20u8]);
        self.lemma_feed_char(' ');
    }

    /// What makes a row run on, read behind the cells of the row, makes it
    /// run on and takes the cursor to the start of the next row.
    pub proof fn lemma_feed_wrap_tail(self, s0: ScreenView, r: int, cells: Seq<CellView>)
        requires
            self.at_rest(),
            cells_drawn(s0, self.screen, r, cells, false),
            s0.grid.plain_addressing(),
            s0.wf(),
            r + 1 < s0.grid.rows.len(),
            cells.len() == s0.grid.cols,
        ensures
            self.feed(wrap_tail(cells.last(), r, cells.len() as int)).at_rest(),
            row_done(
                s0,
                self.feed(wrap_tail(cells.last(), r, cells.len() as int)).screen,
                r,
                RowView { cells, wrapped: true },
                true,
            ),
    {
        let s = self.screen;
        let g = s.grid;
        let cols = g.cols as int;
        let last = cells.last();
        g.lemma_wf_facts();
        s0.grid.lemma_wf_facts();
        assert(g.rows[r].wf(g.cols));
        let to_next = (MoveTo { row: (r + 1) as u16, col: 0 }).bytes();
        if last.occupied() {
            self.lemma_feed_space();
            let p1 = self.feed(seq![0x20u8]);
            s.lemma_space_wraps();
            p1.lemma_feed_move_to(Pos { row: (r + 1) as u16, col: 0 });
            self.lemma_feed_concat(seq![0x20u8], to_next);
            let t = p1.feed(to_next).screen;
            p1.screen.grid.lemma_moved_to_wf(r + 1, 0);
            p1.screen.lemma_with_grid_wf(p1.screen.grid.moved_to(r + 1, 0));
            assert(t.grid.rows[r] == (RowView { cells, wrapped: true }));
        } else {
            let back = (MoveTo { row: r as u16, col: (cols - 1) as u16 }).bytes();
            let erase = repeated(1, 0x58);
            self.lemma_feed_space();
            let p1 = self.feed(seq![0x20u8]);
            s.lemma_space_at_end();
            p1.lemma_feed_space();
            let p2 = p1.feed(seq![0x20u8]);
            p1.screen.lemma_space_wraps();
            p2.lemma_feed_move_to(Pos { row: r as u16, col: (cols - 1) as u16 });
            let p3 = p2.feed(back);
            p2.screen.grid.lemma_moved_to_wf(r, cols - 1);
            p2.screen.lemma_with_grid_wf(p2.screen.grid.moved_to(r, cols - 1));
            p3.lemma_feed_erase_chars(1);
            let p4 = p3.feed(erase);
            p3.screen.grid.lemma_erase_wf(1, 0, p3.screen.attrs);
            p3.screen.lemma_with_grid_wf(p3.screen.grid.erase_chars(1, p3.screen.attrs));
            p4.lemma_feed_move_to(Pos { row: (r + 1) as u16, col: 0 });
            let p5 = p4.feed(to_next);
            p4.screen.grid.lemma_moved_to_wf(r + 1, 0);
            p4.screen.lemma_with_grid_wf(p4.screen.grid.moved_to(r + 1, 0));
            assert(seq![0x20u8, 0x20u8] =~= seq![0x20u8] + seq![0x20u8]);
            self.lemma_feed_concat(seq![0x20u8], seq![0x20u8]);
            self.lemma_feed_concat(seq![0x20u8, 0x20u8], back);
            self.lemma_feed_concat(seq![0x20u8, 0x20u8] + back, erase);
            self.lemma_feed_concat(seq![0x20u8, 0x20u8] + back + erase, to_next);
            let t = p5.screen;
            let row1 = g.rows[r].written(cols - 1, ' ', s.attrs);
            crate::redraw::lemma_unoccupied_is_blank(last);
            assert(t.grid.rows[r].cells =~= cells);
            assert(t.grid.rows[r] == (RowView { cells, wrapped: true }));
        }
    }
}

impl ScreenView {
    /// Whether the screen can take the rows of `d` by the sequences that
    /// draw them: it is well-formed and as large as `d`, and addresses
    /// count from the top left corner of the whole screen.
    pub open spec fn ready_for(self, d: Shown) -> bool {
        &&& self.wf()
        &&& self.grid.plain_addressing()
        &&& self.grid.rows.len() == d.rows.len()
        &&& self.grid.cols == d.cols
    }

    /// Carriage return and line feed above the last row take the cursor to
    /// the start of the next row.
    pub proof fn lemma_crlf_moves(self)
        requires
            self.wf(),
            self.grid.plain_addressing(),
            self.grid.pos.row + 1 < self.grid.rows.len(),
        ensures
            self.with_grid(self.grid.carriage_return().line_feed(self.attrs)).wf(),
            self.with_grid(self.grid.carriage_return().line_feed(self.attrs)) == self.repainted(
                self.grid.rows,
                Pos { row: (self.grid.pos.row + 1) as u16, col: 0 },
                false,
                self.attrs,
            ),
    {
        let g = self.grid;
        g.lemma_wf_facts();
        g.lemma_moved_to_wf(g.pos.row as int, 0);
        let cr = g.carriage_return();
        cr.lemma_moved_to_wf(g.pos.row + 1, 0);
        self.lemma_with_grid_wf(cr.line_feed(self.attrs));
    }
}

impl ParserView {
    /// A formatted row, read by a parser whose cursor stands at the start
    /// of that row, draws the row.
    pub proof fn lemma_feed_row(self, d: Shown, r: int)
        requires
            self.at_rest(),
            self.screen.ready_for(d),
            d.wf(),
            0 <= r < d.rows.len(),
            self.screen.grid.pos == (Pos { row: r as u16, col: 0 }),
            !self.screen.grid.pending_wrap,
        ensures
            self.feed(d.row_formatted(r, 0, d.cols as int, self.screen.attrs)).at_rest(),
            row_done(
                self.screen,
                self.feed(d.row_formatted(r, 0, d.cols as int, self.screen.attrs)).screen,
                r,
                d.rows[r],
                d.wraps(r),
            ),
            d.row_pen(r, 0, d.cols as int, self.screen.attrs) == d.rows[r].cells.last().attrs,
    {
        let s = self.screen;
        let g = s.grid;
        let cols = d.cols;
        let pen = s.attrs;
        let row = d.rows[r];
        let cells = d.row_cells(r, 0, cols as int);
        assert(row.wf(cols));
        lemma_clipped_wf(row, cols, 0, cols as int);
        assert(cells == row.cells);
        assert(row_ok(cells, cols)) by {
            reveal(row_ok);
            row.lemma_wrap_wf(cols, false);
        }
        g.lemma_wf_facts();
        let wraps = d.wraps(r);
        lemma_row_ok_at(cells, cols, 0);
        assert(drawing(s, s, r, cells, 0, !wraps)) by {
            assert(g.rows.update(r, g.rows[r]) =~= g.rows);
            assert(g.rows[r].wf(g.cols));
            assert(g.rows[r].cells.take(0) =~= cells.take(0));
        }
        self.lemma_feed_cells(s, r, cells, 0, !wraps);
        let body = cells_formatted(cells, 0, pen, !wraps);
        let p1 = self.feed(body);
        if wraps {
            p1.lemma_feed_wrap_tail(s, r, cells);
            self.lemma_feed_concat(body, wrap_tail(cells.last(), r, cols as int));
        } else {
            assert(body + Seq::<u8>::empty() =~= body);
            let t = p1.screen;
            assert(t.grid.rows[r] == row);
            assert(t.grid.rows =~= g.rows.update(r, t.grid.rows[r]));
        }
    }

    /// The formatted rows from `r` on, read by a parser whose cursor stands
    /// at the start of row `r` and whose rows above are drawn, draw the
    /// rest.
    pub proof fn lemma_feed_rows(self, d: Shown, r: int)
        requires
            self.at_rest(),
            self.screen.ready_for(d),
            d.wf(),
            0 <= r < d.rows.len(),
            self.screen.grid.pos == (Pos { row: r as u16, col: 0 }),
            !self.screen.grid.pending_wrap,
            self.screen.grid.rows.take(r) == d.rows.take(r),
        ensures
            self.feed(d.rows_formatted_from(r, self.screen.attrs)).at_rest(),
            self.feed(d.rows_formatted_from(r, self.screen.attrs)).screen.ready_for(d),
            self.screen.painted(self.feed(d.rows_formatted_from(r, self.screen.attrs)).screen),
            self.feed(d.rows_formatted_from(r, self.screen.attrs)).screen.grid.rows == d.rows,
            self.feed(d.rows_formatted_from(r, self.screen.attrs)).screen.attrs == d.rows_pen_from(
                r,
                self.screen.attrs,
            ),
        decreases d.rows.len() - r,
    {
        let s = self.screen;
        let pen = s.attrs;
        let cols = d.cols as int;
        let len = d.rows.len() as int;
        let row_bytes = d.row_formatted(r, 0, cols, pen);
        let next_pen = d.row_pen(r, 0, cols, pen);
        let sep = if r + 1 < len && !d.rows[r].wrapped {
            CRLF::bytes()
        } else {
            Seq::<u8>::empty()
        };
        let rest = d.rows_formatted_from(r + 1, next_pen);
        assert(d.rows_formatted_from(r, pen) == row_bytes + sep + rest);
        self.lemma_feed_row(d, r);
        let p1 = self.feed(row_bytes);
        let t = p1.screen;
        let p2 = p1.feed(sep);
        if r + 1 < len && !d.rows[r].wrapped {
            p1.lemma_feed_crlf();
            t.lemma_crlf_moves();
        } else {
            p1.lemma_feed_none();
        }
        self.lemma_feed_concat(row_bytes, sep);
        self.lemma_feed_concat(row_bytes + sep, rest);
        let u = p2.screen;
        assert(u.grid.rows == t.grid.rows);
        assert(u.attrs == next_pen);
        assert(d.rows_pen_from(r, pen) == d.rows_pen_from(r + 1, next_pen));
        assert(r + 1 >= len ==> d.rows_pen_from(r + 1, next_pen) == next_pen);
        assert(u.grid.rows.take(r + 1) =~= d.rows.take(r + 1)) by {
            assert forall|k: int| 0 <= k < r + 1 implies u.grid.rows[k] == d.rows[k] by {
                if k < r {
                    assert(s.grid.rows.take(r)[k] == s.grid.rows[k]);
                    assert(d.rows.take(r)[k] == d.rows[k]);
                    assert(t.grid.rows[k] == s.grid.rows[k]);
                }
            }
        }
        if r + 1 < len {
            p2.lemma_feed_rows(d, r + 1);
        } else {
            assert(rest =~= Seq::<u8>::empty());
            p2.lemma_feed_none();
            assert(u.grid.rows =~= u.grid.rows.take(len));
            assert(d.rows =~= d.rows.take(len));
        }
    }

    /// The sequence that clears the screen, read by a parser at rest,
    /// leaves the cursor in the top left corner of a screen that is ready
    /// to be drawn on.
    pub proof fn lemma_feed_clear(self, d: Shown)
        requires
            self.at_rest(),
            self.screen.ready_for(d),
        ensures
            self.feed(crate::term::ClearScreen::bytes()).at_rest(),
            self.feed(crate::term::ClearScreen::bytes()).screen.ready_for(d),
            self.screen.painted(self.feed(crate::term::ClearScreen::bytes()).screen),
            self.feed(crate::term::ClearScreen::bytes()).screen.grid.pos == (Pos { row: 0, col: 0 }),
            !self.feed(crate::term::ClearScreen::bytes()).screen.grid.pending_wrap,
            self.feed(crate::term::ClearScreen::bytes()).screen.attrs == self.screen.attrs,
    {
        let s = self.screen;
        let g = s.grid;
        g.lemma_wf_facts();
        self.lemma_feed_clear_screen();
        g.lemma_moved_to_wf(0, 0);
        let home = g.moved_to(0, 0);
        home.lemma_erase_wf(0, 0, s.attrs);
        s.lemma_with_grid_wf(home.erase_display(0, s.attrs));
    }
}

impl ScreenView {
    /// Typing once more the cell that a waiting cursor has written leaves
    /// the row as it is, and the cursor waits again.
    pub proof fn lemma_retyped(self, d: Shown)
        requires
            self.ready_for(d),
            d.wf(),
            d.pending_wrap,
            self.grid.rows == d.rows,
            self.grid.pos == (Pos { row: d.pos.row, col: d.pending_col() as u16 }),
            !self.grid.pending_wrap,
            self.attrs == d.pending_cell().attrs,
        ensures
            self.typed(d.pending_cell().text).wf(),
            self.typed(d.pending_cell().text) == self.repainted(d.rows, d.pos, true, self.attrs),
            forall|k: int|
                0 <= k < d.pending_cell().text.len() ==> is_text_char(
                    #[trigger] d.pending_cell().text[k],
                ),
    {
        let g = self.grid;
        let cols = d.cols;
        let r = d.pos.row as int;
        let row = d.rows[r];
        let col = d.pending_col();
        let cell = d.pending_cell();
        g.lemma_wf_facts();
        assert(row.wf(cols));
        row.lemma_wf_at(cols, cols - 1);
        row.lemma_wf_at(cols, col);
        assert(row_ok(row.cells, cols)) by {
            reveal(row_ok);
            row.lemma_wrap_wf(cols, false);
        }
        assert(cell.text.len() > 0);
        assert(col + RowView::span(cell.text[0]) == cols);
        lemma_row_typed(row, row.cells, cols, col);
        lemma_cell_text_chars(cell);
        self.lemma_typed_redrawn(cell);
        let typed = row_typed(row, col, cell, cell.text.len() as int);
        assert(typed.cells =~= typed.cells.take(cols as int));
        assert(row.cells =~= row.cells.take(cols as int));
        assert(typed == row);
        assert(g.rows.update(r, row) =~= g.rows);
    }
}

impl ParserView {
    /// The sequences that put a waiting cursor in its place: it is moved
    /// onto the cell it has written, and that cell is written once more.
    pub proof fn lemma_feed_cursor_pending(self, d: Shown)
        requires
            self.at_rest(),
            self.screen.ready_for(d),
            d.wf(),
            d.pending_wrap,
            self.screen.grid.rows == d.rows,
        ensures
            self.feed(d.cursor_position_formatted()).at_rest(),
            self.feed(d.cursor_position_formatted()).screen == self.screen.repainted(
                d.rows,
                d.pos,
                true,
                d.pending_cell().attrs,
            ),
            self.feed(d.cursor_position_formatted()).screen.wf(),
    {
        let s = self.screen;
        let g = s.grid;
        let r = d.pos.row as int;
        let col = d.pending_col();
        let cell = d.pending_cell();
        let to = (MoveTo { row: d.pos.row, col: col as u16 }).bytes();
        let set = attrs_set(cell.attrs).bytes();
        let text = utf8_text(cell.text);
        let s1 = s.with_grid(g.moved_to(r, col));
        let s2 = s1.with_attrs(cell.attrs);
        assert(0 <= col < d.cols && s1.wf() && s1.grid.pos == (Pos {
            row: d.pos.row,
            col: col as u16,
        }) && !s1.grid.pending_wrap && s1.grid.rows == d.rows && s1.ready_for(d)) by {
            g.lemma_wf_facts();
            assert(d.rows[r].wf(d.cols));
            d.rows[r].lemma_wf_at(d.cols, d.cols - 1);
            g.lemma_moved_to_wf(r, col);
            s.lemma_with_grid_wf(g.moved_to(r, col));
        }
        assert(self.feed(to).at_rest() && self.feed(to).screen == s1) by {
            g.lemma_wf_facts();
            self.lemma_feed_move_to(Pos { row: d.pos.row, col: col as u16 });
        }
        let p1 = self.feed(to);
        assert(p1.feed(set).at_rest() && p1.feed(set).screen == s2) by {
            p1.lemma_feed_attrs_set(cell.attrs);
        }
        let p2 = p1.feed(set);
        assert(s2.ready_for(d));
        s2.lemma_retyped(d);
        assert(p2.feed(text).at_rest() && p2.feed(text).screen == s2.typed(cell.text)) by {
            p2.lemma_feed_text(cell.text);
        }
        self.lemma_feed_concat(to, set);
        self.lemma_feed_concat(to + set, text);
    }

    /// The sequences that put the cursor in its place, read by a parser
    /// whose screen holds the rows they were made for, put it there.
    pub proof fn lemma_feed_cursor_position(self, d: Shown)
        requires
            self.at_rest(),
            self.screen.ready_for(d),
            d.wf(),
            self.screen.grid.rows == d.rows,
        ensures
            self.feed(d.cursor_position_formatted()).at_rest(),
            self.feed(d.cursor_position_formatted()).screen == self.screen.repainted(
                d.rows,
                d.pos,
                d.pending_wrap,
                d.cursor_pen(self.screen.attrs),
            ),
            self.feed(d.cursor_position_formatted()).screen.wf(),
    {
        let s = self.screen;
        let g = s.grid;
        if d.pending_wrap {
            self.lemma_feed_cursor_pending(d);
        } else {
            g.lemma_wf_facts();
            self.lemma_feed_move_to(d.pos);
            g.lemma_moved_to_wf(d.pos.row as int, d.pos.col as int);
            s.lemma_with_grid_wf(g.moved_to(d.pos.row as int, d.pos.col as int));
        }
    }

    /// The sequences that show or hide the cursor and put it in its
    /// place.
    pub proof fn lemma_feed_cursor_state(self, d: Shown)
        requires
            self.at_rest(),
            self.screen.ready_for(d),
            d.wf(),
            self.screen.grid.rows == d.rows,
        ensures
            self.feed(d.cursor_state_formatted()).at_rest(),
            self.feed(d.cursor_state_formatted()).screen.wf(),
            self.feed(d.cursor_state_formatted()).screen == (ScreenView {
                hide_cursor: d.hide_cursor,
                ..self.screen.repainted(
                    d.rows,
                    d.pos,
                    d.pending_wrap,
                    d.cursor_pen(self.screen.attrs),
                )
            }),
    {
        let hide = (HideCursor { hide: d.hide_cursor }).bytes();
        self.lemma_feed_hide_cursor(d.hide_cursor);
        let p1 = self.feed(hide);
        p1.lemma_feed_cursor_position(d);
        self.lemma_feed_concat(hide, d.cursor_position_formatted());
    }

    /// The sequences that set attributes, input modes and title.
    pub proof fn lemma_feed_settings(self, d: Shown)
        requires
            self.at_rest(),
            crate::screen::is_title(d.title),
        ensures
            self.feed(
                d.attributes_formatted() + d.input_mode_formatted() + d.title_formatted(),
            ).at_rest(),
            self.feed(
                d.attributes_formatted() + d.input_mode_formatted() + d.title_formatted(),
            ).screen == (ScreenView {
                attrs: d.attrs,
                modes: d.modes,
                title: d.title,
                ..self.screen
            }),
    {
        let a = d.attributes_formatted();
        let m = d.input_mode_formatted();
        let t = d.title_formatted();
        self.lemma_feed_attrs_set(d.attrs);
        let p1 = self.feed(a);
        p1.lemma_feed_modes_diff(false, d.modes, d.modes);
        let p2 = p1.feed(m);
        p2.lemma_feed_title_set(d.title);
        self.lemma_feed_concat(a, m);
        self.lemma_feed_concat(a + m, t);
    }
}

/// Whether the rows of the screen `s` are those of `d` above row `r` and
/// those of `prev` from row `r` on, but for row `r` itself if the row above
/// was drawn and runs on: then the cursor stands at the start of row `r`.
pub open spec fn rows_mixed(s: ScreenView, d: Shown, prev: Shown, r: int, carried: bool) -> bool {
    &&& s.grid.rows.take(r) == d.rows.take(r)
    &&& (forall|k: int|
        r <= k < d.rows.len() && !(carried && k == r) ==> #[trigger] s.grid.rows[k] == prev.rows[k])
    &&& (carried ==> r < d.rows.len() && s.grid.pos == (Pos { row: r as u16, col: 0 })
        && !s.grid.pending_wrap)
}

impl ParserView {
    /// One row that differs, read behind the move to its start unless the
    /// cursor is there, is drawn, and the rows around it stay.
    pub proof fn lemma_feed_row_diff(self, d: Shown, prev: Shown, r: int, carried: bool)
        requires
            self.at_rest(),
            self.screen.ready_for(d),
            d.wf(),
            0 <= r < d.rows.len(),
            rows_mixed(self.screen, d, prev, r, carried),
        ensures
            ({
                let head = (if carried {
                    Seq::<u8>::empty()
                } else {
                    (MoveTo { row: r as u16, col: 0 }).bytes()
                }) + d.row_formatted(r, 0, d.cols as int, self.screen.attrs);
                let q = self.feed(head);
                &&& q.at_rest()
                &&& q.screen.ready_for(d)
                &&& self.screen.painted(q.screen)
                &&& q.screen.attrs == d.row_pen(r, 0, d.cols as int, self.screen.attrs)
                &&& rows_mixed(q.screen, d, prev, r + 1, d.wraps(r))
            }),
    {
        let s = self.screen;
        let to = if carried {
            Seq::<u8>::empty()
        } else {
            (MoveTo { row: r as u16, col: 0 }).bytes()
        };
        let row_bytes = d.row_formatted(r, 0, d.cols as int, s.attrs);
        let p1 = self.feed(to);
        let s1 = p1.screen;
        s.grid.lemma_wf_facts();
        if carried {
            self.lemma_feed_none();
        } else {
            self.lemma_feed_move_to(Pos { row: r as u16, col: 0 });
            s.grid.lemma_moved_to_wf(r, 0);
            s.lemma_with_grid_wf(s.grid.moved_to(r, 0));
        }
        assert(s1.grid.rows == s.grid.rows);
        p1.lemma_feed_row(d, r);
        self.lemma_feed_concat(to, row_bytes);
        let t = p1.feed(row_bytes).screen;
        assert(t.grid.rows.take(r + 1) =~= d.rows.take(r + 1)) by {
            assert forall|k: int| 0 <= k < r + 1 implies t.grid.rows[k] == d.rows[k] by {
                if k < r {
                    assert(s.grid.rows.take(r)[k] == s.grid.rows[k]);
                    assert(d.rows.take(r)[k] == d.rows[k]);
                    assert(t.grid.rows[k] == s1.grid.rows[k]);
                }
            }
        }
        assert forall|k: int| r + 1 <= k < d.rows.len() && !(d.wraps(r) && k == r + 1) implies #[trigger] t.grid.rows[k]
            == prev.rows[k] by {
            assert(t.grid.rows[k] == s1.grid.rows[k]);
            assert(s.grid.rows[k] == prev.rows[k]);
        }
    }

    /// The rows from `r` on that differ from those of `prev`, read by a
    /// parser whose screen holds the rows of `prev` there, are drawn.
    pub proof fn lemma_feed_rows_diff(self, d: Shown, prev: Shown, r: int, carried: bool)
        requires
            self.at_rest(),
            self.screen.ready_for(d),
            d.wf(),
            prev.rows.len() == d.rows.len(),
            0 <= r <= d.rows.len(),
            rows_mixed(self.screen, d, prev, r, carried),
        ensures
            ({
                let q = self.feed(d.rows_diff_from(prev, r, carried, self.screen.attrs));
                &&& q.at_rest()
                &&& q.screen.ready_for(d)
                &&& self.screen.painted(q.screen)
                &&& q.screen.grid.rows == d.rows
                &&& q.screen.attrs == d.rows_diff_pen(prev, r, carried, self.screen.attrs)
                &&& (!d.rows_diff_any(prev, r, carried) ==> q.screen == self.screen)
            }),
        decreases d.rows.len() - r,
    {
        let s = self.screen;
        let pen = s.attrs;
        let len = d.rows.len() as int;
        if r >= len {
            self.lemma_feed_none();
            assert(s.grid.rows =~= s.grid.rows.take(len));
            assert(d.rows =~= d.rows.take(len));
        } else if d.row_differs(prev, r, carried) {
            let head = (if carried {
                Seq::<u8>::empty()
            } else {
                (MoveTo { row: r as u16, col: 0 }).bytes()
            }) + d.row_formatted(r, 0, d.cols as int, pen);
            let next_pen = d.row_pen(r, 0, d.cols as int, pen);
            let rest = d.rows_diff_from(prev, r + 1, d.wraps(r), next_pen);
            self.lemma_feed_row_diff(d, prev, r, carried);
            let p1 = self.feed(head);
            p1.lemma_feed_rows_diff(d, prev, r + 1, d.wraps(r));
            self.lemma_feed_concat(head, rest);
        } else {
            assert(s.grid.rows[r] == prev.rows[r]);
            assert(s.grid.rows.take(r + 1) =~= d.rows.take(r + 1)) by {
                assert forall|k: int| 0 <= k < r + 1 implies s.grid.rows[k] == d.rows[k] by {
                    if k < r {
                        assert(s.grid.rows.take(r)[k] == s.grid.rows[k]);
                        assert(d.rows.take(r)[k] == d.rows[k]);
                    }
                }
            }
            self.lemma_feed_rows_diff(d, prev, r + 1, false);
        }
    }
}

impl ParserView {
    /// The sequences that show or hide the cursor and put it in its place,
    /// as far as that differs from `prev`.
    pub proof fn lemma_feed_cursor_state_diff(self, d: Shown, prev: Shown)
        requires
            self.at_rest(),
            self.screen.ready_for(d),
            d.wf(),
            self.screen.grid.rows == d.rows,
            self.screen.hide_cursor == prev.hide_cursor,
            !d.cursor_differs(prev) ==> self.screen.grid.pos == d.pos
                && self.screen.grid.pending_wrap == d.pending_wrap,
        ensures
            self.feed(d.cursor_state_diff(prev)).at_rest(),
            self.feed(d.cursor_state_diff(prev)).screen.wf(),
            self.feed(d.cursor_state_diff(prev)).screen == (ScreenView {
                hide_cursor: d.hide_cursor,
                ..self.screen.repainted(
                    d.rows,
                    d.pos,
                    d.pending_wrap,
                    if d.cursor_differs(prev) {
                        d.cursor_pen(self.screen.attrs)
                    } else {
                        self.screen.attrs
                    },
                )
            }),
    {
        let hide = if d.hide_cursor != prev.hide_cursor {
            (HideCursor { hide: d.hide_cursor }).bytes()
        } else {
            Seq::<u8>::empty()
        };
        let place = if d.cursor_differs(prev) {
            d.cursor_position_formatted()
        } else {
            Seq::<u8>::empty()
        };
        if d.hide_cursor != prev.hide_cursor {
            self.lemma_feed_hide_cursor(d.hide_cursor);
        } else {
            self.lemma_feed_none();
        }
        let p1 = self.feed(hide);
        if d.cursor_differs(prev) {
            p1.lemma_feed_cursor_position(d);
        } else {
            p1.lemma_feed_none();
        }
        self.lemma_feed_concat(hide, place);
    }

    /// The sequences that set attributes, input modes and title, as far as
    /// they differ from `prev`.
    pub proof fn lemma_feed_settings_diff(self, d: Shown, prev: Shown)
        requires
            self.at_rest(),
            is_title(d.title),
            self.screen.modes == prev.modes,
            self.screen.title == prev.title,
        ensures
            self.feed(
                attrs_diff(self.screen.attrs, d.attrs) + modes_diff(true, prev.modes, d.modes)
                    + d.title_diff(prev),
            ).at_rest(),
            self.feed(
                attrs_diff(self.screen.attrs, d.attrs) + modes_diff(true, prev.modes, d.modes)
                    + d.title_diff(prev),
            ).screen == (ScreenView {
                attrs: d.attrs,
                modes: d.modes,
                title: d.title,
                ..self.screen
            }),
    {
        let a = attrs_diff(self.screen.attrs, d.attrs);
        let m = modes_diff(true, prev.modes, d.modes);
        let t = d.title_diff(prev);
        self.lemma_feed_attrs_diff(d.attrs);
        let p1 = self.feed(a);
        p1.lemma_feed_modes_diff(true, prev.modes, d.modes);
        let p2 = p1.feed(m);
        if d.title == prev.title {
            p2.lemma_feed_none();
        } else {
            p2.lemma_feed_title_set(d.title);
        }
        self.lemma_feed_concat(a, m);
        self.lemma_feed_concat(a + m, t);
    }
}

} // verus!
