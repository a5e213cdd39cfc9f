//! What writing text and erasing do to the row under the cursor.

use vstd::prelude::*;
use crate::attrs::Attrs;
use crate::cell::CellView;
use crate::format::lemma_run_cells;
use crate::format::lemma_run_end_bounds;
use crate::format::run_end;
use crate::grid::GridView;
use crate::grid::Pos;
use crate::grid::min_int;
use crate::row::RowView;
use crate::screen::ScreenView;
use crate::width::display_width;

verus! {

impl ScreenView {
    /// The screen with one row, the cursor and the attributes for text
    /// replaced.
    pub open spec fn redrawn(self, r: int, row: RowView, pos: Pos, pending: bool, attrs: Attrs) -> ScreenView {
        ScreenView {
            grid: GridView {
                rows: self.grid.rows.update(r, row),
                pos,
                pending_wrap: pending,
                ..self.grid
            },
            attrs,
            ..self
        }
    }

    /// Whether `other` is this screen but for row `r`, the cursor and the
    /// attributes for text.
    pub open spec fn differs_in_row(self, other: ScreenView, r: int) -> bool {
        other == self.redrawn(
            r,
            other.grid.rows[r],
            other.grid.pos,
            other.grid.pending_wrap,
            other.attrs,
        )
    }

    /// A character that takes room, arriving where it fits, is written at
    /// the cursor.
    pub proof fn lemma_text_placed(self, c: char)
        requires
            self.wf(),
            display_width(c) >= 1,
            !self.grid.pending_wrap,
            self.grid.pos.col + RowView::span(c) <= self.grid.cols,
        ensures
            self.text(c) == self.with_grid(self.grid.placed(c, self.attrs)),
    {
        reveal(ScreenView::text);
    }

    /// A character without width, arriving behind a cell that the cursor
    /// has just written, joins that cell.
    pub proof fn lemma_text_marked(self, c: char)
        requires
            self.wf(),
            display_width(c) == 0,
            self.grid.pending_wrap || self.grid.pos.col > 0,
        ensures
            self.text(c) == self.with_grid(
                self.grid.with_row(
                    self.grid.pos.row as int,
                    self.grid.rows[self.grid.pos.row as int].marked(
                        if self.grid.pending_wrap {
                            self.grid.pos.col as int
                        } else {
                            self.grid.pos.col - 1
                        },
                        c,
                    ),
                ),
            ),
    {
        reveal(ScreenView::text);
    }
}

/// The cell `cell` with only the first `k` characters of its text.
pub open spec fn cell_prefix(cell: CellView, k: int) -> CellView {
    CellView { text: cell.text.take(k), ..cell }
}

/// The row after the base character of `cell` was written at `col` and its
/// first `k` characters have arrived.
pub open spec fn row_typed(row: RowView, col: int, cell: CellView, k: int) -> RowView {
    let written = row.written(col, cell.text[0], cell.attrs);
    RowView { cells: written.cells.update(col, cell_prefix(cell, k)), ..written }
}

/// The screen after the first `k` characters of `cell` have arrived at the
/// cursor.
pub open spec fn screen_typed(s: ScreenView, cell: CellView, k: int) -> ScreenView {
    let g = s.grid;
    let placed = g.placed(cell.text[0], cell.attrs);
    s.with_grid(
        GridView {
            rows: g.rows.update(
                g.pos.row as int,
                row_typed(g.rows[g.pos.row as int], g.pos.col as int, cell, k),
            ),
            ..placed
        },
    )
}

/// Typing the text of a well-formed cell at a cursor that has room for it
/// writes the base character and joins the marks to it.
pub proof fn lemma_typed_cell(s: ScreenView, cell: CellView, k: int)
    requires
        s.wf(),
        cell.wf(),
        !cell.wide_continuation,
        1 <= k <= cell.text.len(),
        s.attrs == cell.attrs,
        !s.grid.pending_wrap,
        s.grid.pos.col + RowView::span(cell.text[0]) <= s.grid.cols,
        !s.grid.rows[s.grid.pos.row as int].cells[s.grid.pos.col as int].wide_continuation,
    ensures
        s.typed(cell.text.take(k)) == screen_typed(s, cell, k),
        s.typed(cell.text.take(k)).wf(),
    decreases k,
{
    let g = s.grid;
    let r = g.pos.row as int;
    let col = g.pos.col as int;
    let base = cell.text[0];
    let text = cell.text.take(k);
    g.lemma_wf_facts();
    assert(g.rows[r].wf(g.cols));
    assert(text.drop_last() =~= cell.text.take(k - 1));
    assert(text.last() == cell.text[k - 1]);
    if k == 1 {
        assert(cell.text.take(0) =~= Seq::<char>::empty());
        assert(s.typed(cell.text.take(0)) == s);
        s.lemma_text_placed(base);
        s.lemma_text_wf(base);
        let written = g.rows[r].written(col, base, cell.attrs);
        assert(cell_prefix(cell, 1) == CellView::with_char(base, cell.attrs)) by {
            assert(cell.text.take(1) =~= seq![base]);
        }
        assert(written.cells.update(col, cell_prefix(cell, 1)) =~= written.cells);
        assert(screen_typed(s, cell, 1).grid.rows =~= g.placed(base, cell.attrs).rows);
    } else {
        lemma_typed_cell(s, cell, k - 1);
        let before = screen_typed(s, cell, k - 1);
        let mark = cell.text[k - 1];
        assert(display_width(mark) == 0 && mark as u32 >= 0x80);
        let w = RowView::span(base);
        before.lemma_text_marked(mark);
        before.lemma_text_wf(mark);
        let target = if before.grid.pending_wrap {
            before.grid.pos.col as int
        } else {
            before.grid.pos.col - 1
        };
        let row_before = row_typed(g.rows[r], col, cell, k - 1);
        assert(before.grid.rows[r] == row_before);
        assert(row_before.owner(target) == col);
        assert(cell_prefix(cell, k - 1).appended(mark) == cell_prefix(cell, k)) by {
            assert(cell.text.take(k - 1).push(mark) =~= cell.text.take(k));
        }
        assert(row_before.marked(target, mark).cells =~= row_typed(g.rows[r], col, cell, k).cells);
        assert(before.grid.rows.update(r, row_before.marked(target, mark)) =~= screen_typed(
            s,
            cell,
            k,
        ).grid.rows);
    }
}

/// Whether `cells` can be the cells of a row of `cols` columns.
#[verifier::opaque]
pub open spec fn row_ok(cells: Seq<CellView>, cols: nat) -> bool {
    (RowView { cells, wrapped: false }).wf(cols)
}

/// A cell that holds nothing is the blank cell with its attributes.
pub proof fn lemma_unoccupied_is_blank(cell: CellView)
    requires
        !cell.occupied(),
    ensures
        cell == CellView::blank(cell.attrs),
{
    assert(cell.text =~= Seq::<char>::empty());
}

/// The facts about cell `i` and its neighbours that a target row holds.
pub proof fn lemma_row_ok_at(cells: Seq<CellView>, cols: nat, i: int)
    requires
        row_ok(cells, cols),
        0 <= i < cols,
    ensures
        cells.len() == cols,
        cells[i].wf(),
        cells[i].wide_continuation <==> (i > 0 && cells[i - 1].wide),
        cells[i].wide_continuation ==> cells[i].attrs == cells[i - 1].attrs,
        i > 0 ==> cells[i - 1].wf(),
        i + 1 < cols ==> cells[i + 1].wf() && (cells[i + 1].wide_continuation <==> cells[i].wide)
            && (cells[i + 1].wide_continuation ==> cells[i + 1].attrs == cells[i].attrs),
        !cells[cols - 1].wide,
{
    reveal(row_ok);
    let target = RowView { cells, wrapped: false };
    target.lemma_wf_at(cols, i);
}

/// Typing the cell that the target has at `i` into a row that agrees with
/// the target before `i` makes the row agree with the target up to behind
/// that cell.
pub proof fn lemma_row_typed(row: RowView, cells: Seq<CellView>, cols: nat, i: int)
    requires
        row.wf(cols),
        row_ok(cells, cols),
        0 <= i < cols,
        row.cells.take(i) == cells.take(i),
        cells[i].text.len() > 0,
        !cells[i].wide_continuation,
    ensures
        cells[i].wf(),
        !row.cells[i].wide_continuation,
        i + RowView::span(cells[i].text[0]) <= cols,
        row_typed(row, i, cells[i], cells[i].text.len() as int).cells.take(
            i + RowView::span(cells[i].text[0]),
        ) == cells.take(i + RowView::span(cells[i].text[0])),
        row_typed(row, i, cells[i], cells[i].text.len() as int).cells.len() == cols,
        i + RowView::span(cells[i].text[0]) < cols ==> !cells[i + RowView::span(
            cells[i].text[0],
        )].wide_continuation,
        cells[i + RowView::span(cells[i].text[0]) - 1].attrs == cells[i].attrs,
        cells[i + RowView::span(cells[i].text[0]) - 1].occupied(),
{
    let cell = cells[i];
    let w = RowView::span(cell.text[0]);
    let len = cell.text.len() as int;
    let typed = row_typed(row, i, cell, len);
    lemma_row_ok_at(cells, cols, i);
    row.lemma_wf_at(cols, i);
    if i > 0 {
        assert(row.cells.take(i)[i - 1] == row.cells[i - 1]);
        assert(cells.take(i)[i - 1] == cells[i - 1]);
    }
    assert(!row.cells[i].wide_continuation);
    assert(cell.text.take(len) =~= cell.text);
    assert(cell_prefix(cell, len) == cell);
    if w == 2 {
        assert(i + 1 < cols);
        assert(cells[i + 1].text =~= Seq::<char>::empty());
    }
    if i + w < cols {
        lemma_row_ok_at(cells, cols, i + w);
    }
    let written = row.written(i, cell.text[0], cell.attrs);
    assert forall|k: int| 0 <= k < i + w implies typed.cells[k] == cells[k] by {
        if k < i {
            assert(row.cells.take(i)[k] == row.cells[k]);
            assert(cells.take(i)[k] == cells[k]);
            assert(written.cells[k] == row.cells[k]);
        } else if k == i {
        } else {
            assert(written.cells[k] == CellView::continuation(cell.attrs));
            assert(cells[k] == CellView::continuation(cell.attrs));
        }
    }
    assert(typed.cells.take(i + w) =~= cells.take(i + w));
}

/// Erasing the run of blank cells that the target has at `i` in a row that
/// agrees with the target before `i` makes the row agree with the target
/// up to the end of the run.
pub proof fn lemma_row_blank_run(row: RowView, cells: Seq<CellView>, cols: nat, i: int, unwrap: bool)
    requires
        row.wf(cols),
        row_ok(cells, cols),
        0 <= i < cols,
        row.cells.take(i) == cells.take(i),
        cells[i].text.len() == 0,
        !cells[i].wide_continuation,
    ensures
        i < run_end(cells, i + 1, cells[i].attrs) <= cols,
        row.erased(i, run_end(cells, i + 1, cells[i].attrs), cells[i].attrs, unwrap).cells.take(
            run_end(cells, i + 1, cells[i].attrs),
        ) == cells.take(run_end(cells, i + 1, cells[i].attrs)),
        row.erased(i, run_end(cells, i + 1, cells[i].attrs), cells[i].attrs, unwrap).cells.len()
            == cols,
        run_end(cells, i + 1, cells[i].attrs) < cols ==> !cells[run_end(
            cells,
            i + 1,
            cells[i].attrs,
        )].wide_continuation,
        cells[run_end(cells, i + 1, cells[i].attrs) - 1].attrs == cells[i].attrs,
        !cells[run_end(cells, i + 1, cells[i].attrs) - 1].occupied(),
{
    let a = cells[i].attrs;
    let j = run_end(cells, i + 1, a);
    lemma_row_ok_at(cells, cols, i);
    lemma_run_end_bounds(cells, i + 1, a);
    lemma_run_cells(cells, i + 1, a);
    row.lemma_wf_at(cols, i);
    if i > 0 {
        assert(row.cells.take(i)[i - 1] == row.cells[i - 1]);
        assert(cells.take(i)[i - 1] == cells[i - 1]);
    }
    assert(!row.cells[i].wide_continuation);
    if j < cols {
        lemma_row_ok_at(cells, cols, j);
    }
    if j > i + 1 {
        assert(!cells[j - 1].occupied());
    }
    let erased = row.erased(i, j, a, unwrap);
    assert forall|k: int| 0 <= k < j implies erased.cells[k] == cells[k] by {
        if k < i {
            assert(row.cells.take(i)[k] == row.cells[k]);
            assert(cells.take(i)[k] == cells[k]);
        } else {
            lemma_unoccupied_is_blank(cells[k]);
        }
    }
    assert(erased.cells.take(j) =~= cells.take(j));
}

impl ScreenView {
    /// Redrawing a row that was redrawn is redrawing it once.
    pub proof fn lemma_redrawn_again(
        self,
        s: ScreenView,
        r: int,
        row: RowView,
        pos: Pos,
        pending: bool,
        attrs: Attrs,
    )
        requires
            self.differs_in_row(s, r),
            0 <= r < self.grid.rows.len(),
        ensures
            self.differs_in_row(s.redrawn(r, row, pos, pending, attrs), r),
            s.redrawn(r, row, pos, pending, attrs).grid.rows[r] == row,
            s.redrawn(r, row, pos, pending, attrs).grid.sized_as(s.grid),
            s.grid.sized_as(self.grid),
    {
        let t = s.redrawn(r, row, pos, pending, attrs);
        assert(self.grid.rows.update(r, s.grid.rows[r]).update(r, row) =~= self.grid.rows.update(
            r,
            row,
        ));
    }

    /// Typing the text of a cell is redrawing the cursor's row.
    pub proof fn lemma_typed_redrawn(self, cell: CellView)
        requires
            self.wf(),
            cell.wf(),
            !cell.wide_continuation,
            cell.text.len() > 0,
            self.attrs == cell.attrs,
            !self.grid.pending_wrap,
            self.grid.pos.col + RowView::span(cell.text[0]) <= self.grid.cols,
            !self.grid.rows[self.grid.pos.row as int].cells[self.grid.pos.col as int].wide_continuation,
        ensures
            self.typed(cell.text).wf(),
            self.typed(cell.text) == self.redrawn(
                self.grid.pos.row as int,
                row_typed(
                    self.grid.rows[self.grid.pos.row as int],
                    self.grid.pos.col as int,
                    cell,
                    cell.text.len() as int,
                ),
                Pos {
                    row: self.grid.pos.row,
                    col: min_int(
                        self.grid.pos.col + RowView::span(cell.text[0]),
                        self.grid.cols - 1,
                    ) as u16,
                },
                self.grid.pos.col + RowView::span(cell.text[0]) >= self.grid.cols,
                self.attrs,
            ),
    {
        lemma_typed_cell(self, cell, cell.text.len() as int);
        assert(cell.text.take(cell.text.len() as int) =~= cell.text);
        self.grid.lemma_wf_facts();
    }

    /// Erasing characters and stepping over them is redrawing the cursor's
    /// row.
    pub proof fn lemma_erased_redrawn(self, n: int)
        requires
            self.wf(),
            n >= 1,
        ensures
            self.with_grid(self.grid.erase_chars(n, self.attrs).cursor_right(n)).wf(),
            self.with_grid(self.grid.erase_chars(n, self.attrs)).with_grid(
                self.grid.erase_chars(n, self.attrs).cursor_right(n),
            ) == self.redrawn(
                self.grid.pos.row as int,
                self.grid.rows[self.grid.pos.row as int].erased(
                    self.grid.pos.col as int,
                    min_int(self.grid.pos.col + n, self.grid.cols as int),
                    self.attrs,
                    false,
                ),
                Pos {
                    row: self.grid.pos.row,
                    col: min_int(self.grid.pos.col + n, self.grid.cols - 1) as u16,
                },
                false,
                self.attrs,
            ),
    {
        let g = self.grid;
        g.lemma_wf_facts();
        let erased = g.erase_chars(n, self.attrs);
        g.lemma_erase_wf(n, 0, self.attrs);
        erased.lemma_moved_to_wf(erased.pos.row as int, erased.pos.col + n);
        self.lemma_with_grid_wf(erased.cursor_right(n));
    }

    /// Erasing to the end of the line is redrawing the cursor's row.
    pub proof fn lemma_line_erased_redrawn(self)
        requires
            self.wf(),
        ensures
            self.with_grid(self.grid.erase_line(0, self.attrs)).wf(),
            self.with_grid(self.grid.erase_line(0, self.attrs)) == self.redrawn(
                self.grid.pos.row as int,
                self.grid.rows[self.grid.pos.row as int].erased(
                    self.grid.pos.col as int,
                    self.grid.cols as int,
                    self.attrs,
                    true,
                ),
                self.grid.pos,
                false,
                self.attrs,
            ),
    {
        let g = self.grid;
        g.lemma_wf_facts();
        g.lemma_erase_wf(0, 0, self.attrs);
        self.lemma_with_grid_wf(g.erase_line(0, self.attrs));
    }
}

/// Whether the screen `s` is in the middle of drawing the cells `cells`
/// into row `r` of the screen `s0`: the cells before `i` are drawn, the
/// cursor stands on cell `i` and writes with the attributes of the cell
/// before, and nothing else has changed.
pub open spec fn drawing(
    s0: ScreenView,
    s: ScreenView,
    r: int,
    cells: Seq<CellView>,
    i: int,
    to_line_end: bool,
) -> bool {
    let g = s.grid;
    &&& s.wf()
    &&& s0.differs_in_row(s, r)
    &&& 0 <= r < g.rows.len()
    &&& r < s0.grid.rows.len()
    &&& g.pos.row == r
    &&& row_ok(cells, g.cols)
    &&& cells.len() == g.cols
    &&& g.rows[r].cells.len() == g.cols
    &&& 0 <= i <= g.cols
    &&& g.rows[r].cells.take(i) == cells.take(i)
    &&& (i < g.cols ==> g.pos.col == i && !g.pending_wrap && !cells[i].wide_continuation)
    &&& (i == g.cols ==> g.pos.col == g.cols - 1 && g.pending_wrap == cells[g.cols - 1].occupied()
        && (to_line_end ==> cells[g.cols - 1].occupied()))
    &&& (i > 0 ==> s.attrs == cells[i - 1].attrs)
}

/// Whether the screen `t` is the screen `s0` with the cells `cells` drawn
/// into row `r`.
pub open spec fn cells_drawn(
    s0: ScreenView,
    t: ScreenView,
    r: int,
    cells: Seq<CellView>,
    to_line_end: bool,
) -> bool {
    let g = t.grid;
    &&& t.wf()
    &&& s0.differs_in_row(t, r)
    &&& 0 <= r < g.rows.len()
    &&& g.rows[r].cells == cells
    &&& g.pos.row == r
    &&& t.attrs == cells.last().attrs
    &&& (to_line_end ==> !g.rows[r].wrapped)
    &&& (!to_line_end ==> g.pos.col == g.cols - 1 && g.pending_wrap == cells.last().occupied())
}

/// Drawing a cell with text: its attributes are set and its text typed.
pub proof fn lemma_draw_text(
    s0: ScreenView,
    s: ScreenView,
    r: int,
    cells: Seq<CellView>,
    i: int,
    to_line_end: bool,
)
    requires
        drawing(s0, s, r, cells, i, to_line_end),
        i < s.grid.cols,
        cells[i].text.len() > 0,
    ensures
        i + RowView::span(cells[i].text[0]) <= s.grid.cols,
        drawing(
            s0,
            s.with_attrs(cells[i].attrs).typed(cells[i].text),
            r,
            cells,
            i + RowView::span(cells[i].text[0]),
            to_line_end,
        ),
{
    let g = s.grid;
    let cell = cells[i];
    let s1 = s.with_attrs(cell.attrs);
    g.lemma_wf_facts();
    assert(g.rows[r].wf(g.cols));
    lemma_row_typed(g.rows[r], cells, g.cols, i);
    s1.lemma_typed_redrawn(cell);
    let w = RowView::span(cell.text[0]);
    let row = row_typed(g.rows[r], i, cell, cell.text.len() as int);
    let pos = Pos { row: g.pos.row, col: min_int(i + w, g.cols - 1) as u16 };
    s0.lemma_redrawn_again(s1, r, row, pos, i + w >= g.cols, s1.attrs);
    assert(s0.differs_in_row(s1, r));
}

/// Drawing a run of blank cells that is not erased to the end of the line:
/// its attributes are set, the cells erased and stepped over.
pub proof fn lemma_draw_blank(
    s0: ScreenView,
    s: ScreenView,
    r: int,
    cells: Seq<CellView>,
    i: int,
    to_line_end: bool,
)
    requires
        drawing(s0, s, r, cells, i, to_line_end),
        i < s.grid.cols,
        cells[i].text.len() == 0,
        !(run_end(cells, i + 1, cells[i].attrs) == cells.len() && to_line_end),
    ensures
        i < run_end(cells, i + 1, cells[i].attrs) <= s.grid.cols,
        drawing(
            s0,
            s.with_attrs(cells[i].attrs).with_grid(
                s.grid.erase_chars(run_end(cells, i + 1, cells[i].attrs) - i, cells[i].attrs),
            ).with_grid(
                s.grid.erase_chars(
                    run_end(cells, i + 1, cells[i].attrs) - i,
                    cells[i].attrs,
                ).cursor_right(run_end(cells, i + 1, cells[i].attrs) - i),
            ),
            r,
            cells,
            run_end(cells, i + 1, cells[i].attrs),
            to_line_end,
        ),
{
    let g = s.grid;
    let a = cells[i].attrs;
    let j = run_end(cells, i + 1, a);
    let s1 = s.with_attrs(a);
    g.lemma_wf_facts();
    assert(g.rows[r].wf(g.cols));
    lemma_row_blank_run(g.rows[r], cells, g.cols, i, false);
    s1.lemma_erased_redrawn(j - i);
    let row = g.rows[r].erased(i, j, a, false);
    let pos = Pos { row: g.pos.row, col: min_int(j, g.cols - 1) as u16 };
    s0.lemma_redrawn_again(s1, r, row, pos, false, a);
    assert(s0.differs_in_row(s1, r));
}

/// Drawing a run of blank cells that reaches the end of the line by one
/// erasure: its attributes are set and the line erased from the cursor on.
pub proof fn lemma_draw_line_end(
    s0: ScreenView,
    s: ScreenView,
    r: int,
    cells: Seq<CellView>,
    i: int,
)
    requires
        drawing(s0, s, r, cells, i, true),
        i < s.grid.cols,
        cells[i].text.len() == 0,
        run_end(cells, i + 1, cells[i].attrs) == cells.len(),
    ensures
        cells_drawn(
            s0,
            s.with_attrs(cells[i].attrs).with_grid(s.grid.erase_line(0, cells[i].attrs)),
            r,
            cells,
            true,
        ),
{
    let g = s.grid;
    let a = cells[i].attrs;
    let cols = g.cols as int;
    let s1 = s.with_attrs(a);
    g.lemma_wf_facts();
    assert(g.rows[r].wf(g.cols));
    lemma_row_blank_run(g.rows[r], cells, g.cols, i, true);
    s1.lemma_line_erased_redrawn();
    let row = g.rows[r].erased(i, cols, a, true);
    s0.lemma_redrawn_again(s1, r, row, g.pos, false, a);
    assert(s0.differs_in_row(s1, r));
    assert(row.cells =~= row.cells.take(cols));
    assert(cells =~= cells.take(cols));
}

/// All cells are drawn once drawing has reached the end of the row.
pub proof fn lemma_draw_done(
    s0: ScreenView,
    s: ScreenView,
    r: int,
    cells: Seq<CellView>,
    to_line_end: bool,
)
    requires
        drawing(s0, s, r, cells, s.grid.cols as int, to_line_end),
    ensures
        cells_drawn(s0, s, r, cells, to_line_end),
{
    let g = s.grid;
    let cols = g.cols as int;
    g.lemma_wf_facts();
    assert(g.rows[r].cells =~= g.rows[r].cells.take(cols));
    assert(cells =~= cells.take(cols));
}

} // verus!
