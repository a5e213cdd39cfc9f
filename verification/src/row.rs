//! One line of the grid.

use vstd::prelude::*;
use crate::attrs::Attrs;
use crate::cell::Cell;
use crate::cell::CellView;
use crate::width::char_width;
use crate::width::display_width;

verus! {

/// Whether `c` can stand in a cell: control characters of the ASCII range
/// cannot.
pub open spec fn is_text_char(c: char) -> bool {
    c as u32 >= 0x20 && c as u32 != 0x7f
}

impl CellView {
    /// The second column of a wide character.
    pub open spec fn continuation(attrs: Attrs) -> CellView {
        CellView { text: Seq::empty(), wide: false, wide_continuation: true, attrs }
    }

    /// Whether the cell is one that writing text to a screen can leave
    /// behind: a base character that takes room, followed by marks that take
    /// none, with the wide flag set for a base of two columns.
    pub open spec fn wf(self) -> bool {
        &&& self.text.len() <= 6
        &&& (self.wide_continuation ==> self.text.len() == 0)
        &&& (self.text.len() == 0 ==> !self.wide)
        &&& (self.text.len() > 0 ==> is_text_char(self.text[0]) && display_width(self.text[0]) >= 1
            && (self.wide <==> display_width(self.text[0]) >= 2))
        &&& forall|k: int|
            1 <= k < self.text.len() ==> display_width(#[trigger] self.text[k]) == 0
                && self.text[k] as u32 >= 0x80
    }
}

/// What a row holds, as a mathematical value.
pub struct RowView {
    /// The cells, from left to right.
    pub cells: Seq<CellView>,
    /// Whether text ran over the end of this row onto the next one.
    pub wrapped: bool,
}

impl RowView {
    /// A row of `cols` blank cells.
    pub open spec fn blank(cols: nat, attrs: Attrs) -> RowView {
        RowView { cells: Seq::new(cols, |i: int| CellView::blank(attrs)), wrapped: false }
    }

    /// Whether cell `i` fits the cell to its left: it is the second half of
    /// a wide character exactly if that cell holds one, and then it has the
    /// attributes of that cell.
    pub open spec fn linked(self, i: int) -> bool {
        &&& (self.cells[i].wide_continuation <==> (i > 0 && self.cells[i - 1].wide))
        &&& (self.cells[i].wide_continuation ==> i > 0 && self.cells[i].attrs == self.cells[i
            - 1].attrs)
    }

    /// Whether the row has `cols` well-formed cells and every wide character
    /// in it is followed by its second half, and only they are. The second
    /// half has the attributes of the first.
    pub open spec fn wf(self, cols: nat) -> bool {
        &&& self.cells.len() == cols
        &&& forall|i: int| 0 <= i < cols ==> (#[trigger] self.cells[i]).wf()
        &&& forall|i: int| 0 <= i < cols ==> #[trigger] self.linked(i)
        &&& (cols > 0 ==> !self.cells[cols - 1].wide)
    }

    /// The row after the cells from `lo` up to `hi` were erased. A wide
    /// character that the range cuts in two is erased as a whole. With
    /// `unwrap`, erasing the last cell also ends the row's run onto the next.
    pub open spec fn erased(self, lo: int, hi: int, attrs: Attrs, unwrap: bool) -> RowView {
        if lo >= hi {
            self
        } else {
            RowView {
                cells: Seq::new(
                    self.cells.len(),
                    |j: int|
                        if (lo <= j < hi) || (j == lo - 1 && self.cells[lo].wide_continuation) || (j
                            == hi && self.cells[hi - 1].wide) {
                            CellView::blank(attrs)
                        } else {
                            self.cells[j]
                        },
                ),
                wrapped: if unwrap && hi == self.cells.len() {
                    false
                } else {
                    self.wrapped
                },
            }
        }
    }

    /// The number of columns that writing `c` fills.
    pub open spec fn span(c: char) -> int {
        if display_width(c) >= 2 {
            2
        } else {
            1
        }
    }

    /// The row after the character `c` was written at `col`. What was there
    /// is erased first; a wide character also takes the next cell. Writing
    /// into the last cell ends the row's run onto the next.
    pub open spec fn written(self, col: int, c: char, attrs: Attrs) -> RowView {
        let w = Self::span(c);
        let e = self.erased(col, col + w, attrs, false);
        let first = e.cells.update(col, CellView::with_char(c, attrs));
        RowView {
            cells: if w == 2 {
                first.update(col + 1, CellView::continuation(attrs))
            } else {
                first
            },
            wrapped: if col + w == self.cells.len() {
                false
            } else {
                self.wrapped
            },
        }
    }

    /// The cell that a mark arriving behind column `col` belongs to: that
    /// cell, or the wide character it is the second half of.
    pub open spec fn owner(self, col: int) -> int {
        if self.cells[col].wide_continuation && col > 0 {
            col - 1
        } else {
            col
        }
    }

    /// The row after the combining mark `c` was added to the character at
    /// `col`.
    pub open spec fn marked(self, col: int, c: char) -> RowView {
        let t = self.owner(col);
        RowView { cells: self.cells.update(t, self.cells[t].appended(c)), ..self }
    }

    /// The row cut or padded to `cols` cells. A wide character that loses
    /// its second half is erased.
    pub open spec fn resized(self, cols: nat) -> RowView {
        RowView {
            cells: Seq::new(
                cols,
                |j: int|
                    if j >= self.cells.len() || (j == cols - 1 && self.cells[j].wide) {
                        CellView::blank(Attrs::plain())
                    } else {
                        self.cells[j]
                    },
            ),
            wrapped: if cols == self.cells.len() {
                self.wrapped
            } else {
                false
            },
        }
    }

    /// A blank row is well-formed.
    pub proof fn lemma_blank_wf(cols: nat, attrs: Attrs)
        ensures
            Self::blank(cols, attrs).wf(cols),
    {
        let b = Self::blank(cols, attrs);
        assert forall|i: int| 0 <= i < cols implies #[trigger] b.linked(i) by {}
    }

    /// The facts about cell `i` and its neighbours that the invariant of a
    /// row holds.
    pub proof fn lemma_wf_at(self, cols: nat, i: int)
        requires
            self.wf(cols),
            0 <= i < cols,
        ensures
            self.cells[i].wf(),
            self.linked(i),
            i > 0 ==> self.cells[i - 1].wf() && self.linked(i - 1),
            i + 1 < cols ==> self.cells[i + 1].wf() && self.linked(i + 1),
            !self.cells[cols - 1].wide,
            self.cells.len() == cols,
    {
        assert(self.linked(i));
        if i > 0 {
            assert(self.linked(i - 1));
            assert(self.cells[i - 1].wf());
        }
        if i + 1 < cols {
            assert(self.linked(i + 1));
            assert(self.cells[i + 1].wf());
        }
    }

    /// Whether a row runs on does not matter for its invariant.
    pub proof fn lemma_wrap_wf(self, cols: nat, wrapped: bool)
        requires
            self.wf(cols),
        ensures
            (RowView { wrapped, ..self }).wf(cols),
    {
        let r = RowView { wrapped, ..self };
        assert forall|i: int| 0 <= i < cols implies (#[trigger] r.cells[i]).wf() by {
            assert(self.cells[i].wf());
        }
        assert forall|i: int| 0 <= i < cols implies #[trigger] r.linked(i) by {
            assert(self.linked(i));
        }
    }

    /// Erasing cells keeps the invariant of the row.
    pub proof fn lemma_erased_wf(self, cols: nat, lo: int, hi: int, attrs: Attrs, unwrap: bool)
        requires
            self.wf(cols),
            0 <= lo,
            hi <= cols,
        ensures
            self.erased(lo, hi, attrs, unwrap).wf(cols),
    {
        let e = self.erased(lo, hi, attrs, unwrap);
        if lo < hi {
            self.lemma_wf_at(cols, lo);
            self.lemma_wf_at(cols, hi - 1);
            if lo > 0 {
                self.lemma_wf_at(cols, lo - 1);
            }
            if hi < cols {
                self.lemma_wf_at(cols, hi);
            }
            assert forall|i: int| 0 <= i < cols implies #[trigger] e.linked(i) by {
                self.lemma_wf_at(cols, i);
            }
        }
    }

    /// Writing a character that takes room and fits into the row keeps the
    /// invariant of the row.
    pub proof fn lemma_written_wf(self, cols: nat, col: int, c: char, attrs: Attrs)
        requires
            self.wf(cols),
            0 <= col,
            col + Self::span(c) <= cols,
            display_width(c) >= 1,
            is_text_char(c),
        ensures
            self.written(col, c, attrs).wf(cols),
    {
        let w = Self::span(c);
        let e = self.erased(col, col + w, attrs, false);
        self.lemma_erased_wf(cols, col, col + w, attrs, false);
        let r = self.written(col, c, attrs);
        assert(CellView::with_char(c, attrs).wf());
        assert(CellView::continuation(attrs).wf());
        e.lemma_wf_at(cols, col);
        e.lemma_wf_at(cols, col + w - 1);
        self.lemma_wf_at(cols, col + w - 1);
        if col + w < cols {
            e.lemma_wf_at(cols, col + w);
        }
        assert forall|i: int| 0 <= i < cols implies (#[trigger] r.cells[i]).wf() by {
            assert(e.cells[i].wf());
        }
        assert forall|i: int| 0 <= i < cols implies #[trigger] r.linked(i) by {
            e.lemma_wf_at(cols, i);
        }
    }

    /// Adding a combining mark keeps the invariant of the row, and the cell
    /// that takes the mark is no second half of a wide character.
    pub proof fn lemma_marked_wf(self, cols: nat, col: int, c: char)
        requires
            self.wf(cols),
            0 <= col < cols,
            display_width(c) == 0,
            c as u32 >= 0x80,
        ensures
            self.marked(col, c).wf(cols),
            0 <= self.owner(col) < cols,
            !self.cells[self.owner(col)].wide_continuation,
    {
        let t = self.owner(col);
        let r = self.marked(col, c);
        let old_cell = self.cells[t];
        let new_cell = old_cell.appended(c);
        self.lemma_wf_at(cols, col);
        self.lemma_wf_at(cols, t);
        assert(new_cell.wf()) by {
            assert forall|k: int| 1 <= k < new_cell.text.len() implies display_width(
                #[trigger] new_cell.text[k],
            ) == 0 && new_cell.text[k] as u32 >= 0x80 by {
                if k < old_cell.text.len() {
                    assert(new_cell.text[k] == old_cell.text[k]);
                }
            }
        }
        assert forall|i: int| 0 <= i < cols implies (#[trigger] r.cells[i]).wf() by {
            assert(self.cells[i].wf());
        }
        assert forall|i: int| 0 <= i < cols implies #[trigger] r.linked(i) by {
            self.lemma_wf_at(cols, i);
        }
    }

    /// Cutting or padding a row leaves a well-formed row of the new width.
    pub proof fn lemma_resized_wf(self, old_cols: nat, cols: nat)
        requires
            self.wf(old_cols),
        ensures
            self.resized(cols).wf(cols),
    {
        let r = self.resized(cols);
        assert forall|i: int| 0 <= i < cols implies (#[trigger] r.cells[i]).wf() by {
            if i < old_cols {
                assert(self.cells[i].wf());
            }
        }
        assert forall|i: int| 0 <= i < cols implies #[trigger] r.linked(i) by {
            if i < old_cols {
                self.lemma_wf_at(old_cols, i);
            }
            if 0 < i <= old_cols {
                self.lemma_wf_at(old_cols, i - 1);
            }
        }
    }
}

/// The cells of a row as mathematical values.
pub open spec fn cell_views(cells: Seq<Cell>) -> Seq<CellView> {
    Seq::new(cells.len(), |i: int| cells[i]@)
}

/// Rows as mathematical values.
pub open spec fn row_views(rows: Seq<Row>) -> Seq<RowView> {
    Seq::new(rows.len(), |i: int| rows[i]@)
}

/// One line of the grid: its cells, and whether its text runs on.
#[derive(Debug)]
pub struct Row {
    cells: Vec<Cell>,
    wrapped: bool,
}

impl View for Row {
    type V = RowView;

    closed spec fn view(&self) -> RowView {
        RowView { cells: cell_views(self.cells@), wrapped: self.wrapped }
    }
}

impl Clone for Row {
    fn clone(&self) -> (row: Self)
        ensures
            row@ == self@,
    {
        let mut cells: Vec<Cell> = Vec::new();
        let mut i: usize = 0;
        while i < self.cells.len()
            invariant
                i <= self.cells.len(),
                cells@ == self.cells@.take(i as int),
            decreases self.cells.len() - i,
        {
            cells.push(self.cells[i]);
            assert(cells@ =~= self.cells@.take(i + 1));
            i += 1;
        }
        assert(cells@ =~= self.cells@);
        Row { cells, wrapped: self.wrapped }
    }
}

impl Row {
    /// A row of `cols` blank cells.
    pub fn new(cols: u16, attrs: Attrs) -> (row: Self)
        ensures
            row@ == RowView::blank(cols as nat, attrs),
    {
        let mut cells: Vec<Cell> = Vec::new();
        let mut i: u16 = 0;
        while i < cols
            invariant
                i <= cols,
                cells@.len() == i,
                forall|j: int| 0 <= j < i ==> (#[trigger] cells@[j])@ == CellView::blank(attrs),
            decreases cols - i,
        {
            let mut cell = Cell::default();
            cell.clear(attrs);
            cells.push(cell);
            i += 1;
        }
        let row = Row { cells, wrapped: false };
        assert(row@.cells =~= RowView::blank(cols as nat, attrs).cells);
        row
    }

    /// The number of cells in the row.
    pub fn cols(&self) -> (n: usize)
        ensures
            n == self@.cells.len(),
    {
        self.cells.len()
    }

    /// The cell at `col`, if the row has one there.
    pub fn get(&self, col: u16) -> (cell: Option<&Cell>)
        ensures
            match cell {
                Some(c) => col < self@.cells.len() && c@ == self@.cells[col as int],
                None => col >= self@.cells.len(),
            },
    {
        if (col as usize) < self.cells.len() {
            Some(&self.cells[col as usize])
        } else {
            None
        }
    }

    /// The cell at `col`.
    pub fn cell_at(&self, col: usize) -> (cell: &Cell)
        requires
            col < self@.cells.len(),
        ensures
            cell@ == self@.cells[col as int],
    {
        &self.cells[col]
    }

    /// Whether two rows hold the same cells and run on alike.
    pub fn same_as(&self, other: &Row) -> (same: bool)
        ensures
            same == (self@ == other@),
    {
        if self.wrapped != other.wrapped || self.cells.len() != other.cells.len() {
            assert(self@.cells.len() == self.cells@.len() && other@.cells.len()
                == other.cells@.len());
            return false;
        }
        let mut i: usize = 0;
        while i < self.cells.len()
            invariant
                i <= self.cells@.len(),
                self.cells@.len() == other.cells@.len(),
                forall|k: int| 0 <= k < i ==> (#[trigger] self.cells@[k])@ == other.cells@[k]@,
            decreases self.cells@.len() - i,
        {
            if !(self.cells[i] == other.cells[i]) {
                assert(self@.cells[i as int] != other@.cells[i as int]);
                return false;
            }
            i += 1;
        }
        assert(self@.cells =~= other@.cells);
        true
    }

    /// Whether text ran over the end of this row onto the next one.
    pub fn wrapped(&self) -> (w: bool)
        ensures
            w == self@.wrapped,
    {
        self.wrapped
    }

    /// Records whether text ran over the end of this row.
    pub fn wrap(&mut self, wrapped: bool)
        ensures
            final(self)@ == (RowView { wrapped, ..old(self)@ }),
    {
        self.wrapped = wrapped;
    }

    fn blank_cell(&mut self, j: usize, attrs: Attrs)
        requires
            j < old(self)@.cells.len(),
        ensures
            final(self)@ == (RowView {
                cells: old(self)@.cells.update(j as int, CellView::blank(attrs)),
                ..old(self)@
            }),
    {
        self.cells[j].clear(attrs);
        assert(self@.cells =~= old(self)@.cells.update(j as int, CellView::blank(attrs)));
    }

    /// Erases the cells from `lo` up to `hi`, and all of a wide character
    /// that the range cuts in two. With `unwrap`, erasing the last cell also
    /// ends the row's run onto the next.
    pub fn erase(&mut self, lo: usize, hi: usize, attrs: Attrs, unwrap: bool)
        requires
            hi <= old(self)@.cells.len(),
        ensures
            final(self)@ == old(self)@.erased(lo as int, hi as int, attrs, unwrap),
    {
        if lo >= hi {
            return ;
        }
        let ghost before = self@;
        let left = lo > 0 && self.cells[lo].is_wide_continuation();
        let right = hi < self.cells.len() && self.cells[hi - 1].is_wide();
        if left {
            self.blank_cell(lo - 1, attrs);
        }
        if right {
            self.blank_cell(hi, attrs);
        }
        let mut j: usize = lo;
        while j < hi
            invariant
                lo <= j <= hi <= before.cells.len(),
                self@.wrapped == before.wrapped,
                self@.cells.len() == before.cells.len(),
                forall|k: int|
                    0 <= k < before.cells.len() ==> #[trigger] self@.cells[k] == if (lo <= k < j)
                        || (k == lo - 1 && left) || (k == hi && right) {
                        CellView::blank(attrs)
                    } else {
                        before.cells[k]
                    },
            decreases hi - j,
        {
            self.blank_cell(j, attrs);
            j += 1;
        }
        if unwrap && hi == self.cells.len() {
            self.wrapped = false;
        }
        assert(self@.cells =~= before.erased(lo as int, hi as int, attrs, unwrap).cells);
    }

    /// Writes the character `c` at `col`, over what was there. A wide
    /// character also takes the next cell.
    pub fn write(&mut self, col: usize, c: char, attrs: Attrs)
        requires
            col + RowView::span(c) <= old(self)@.cells.len(),
        ensures
            final(self)@ == old(self)@.written(col as int, c, attrs),
    {
        let ghost before = self@;
        assert(before.cells.len() == self.cells@.len());
        let w: usize = if char_width(c) >= 2 {
            2
        } else {
            1
        };
        let n = self.cells.len();
        assert(col + w <= n);
        self.erase(col, col + w, attrs, false);
        assert(self@.cells.len() == self.cells@.len());
        self.cells[col].set(c, attrs);
        if w == 2 {
            self.cells[col + 1].clear(attrs);
            self.cells[col + 1].set_wide_continuation(true);
        }
        if col + w == n {
            self.wrapped = false;
        }
        assert(self@.cells =~= before.written(col as int, c, attrs).cells);
    }

    /// Adds the combining mark `c` to the character at `col`, or to the wide
    /// character that `col` is the second half of.
    pub fn mark(&mut self, col: usize, c: char)
        requires
            col < old(self)@.cells.len(),
        ensures
            final(self)@ == old(self)@.marked(col as int, c),
    {
        let t = if col > 0 && self.cells[col].is_wide_continuation() {
            col - 1
        } else {
            col
        };
        self.cells[t].append(c);
        assert(self@.cells =~= old(self)@.marked(col as int, c).cells);
    }

    /// Cuts or pads the row to `cols` cells. A wide character that loses its
    /// second half is erased.
    pub fn resize(&mut self, cols: u16)
        requires
            cols > 0,
        ensures
            final(self)@ == old(self)@.resized(cols as nat),
    {
        let ghost before = self@;
        let n = cols as usize;
        if n != self.cells.len() {
            self.wrapped = false;
        }
        self.cells.truncate(n);
        while self.cells.len() < n
            invariant
                self.cells@.len() <= n,
                before.cells.len() < n ==> self.cells@.len() >= before.cells.len(),
                before.cells.len() >= n ==> self.cells@.len() == n,
                self.wrapped == before.resized(cols as nat).wrapped,
                forall|k: int|
                    0 <= k < self.cells@.len() ==> (#[trigger] self.cells@[k])@ == if k
                        >= before.cells.len() {
                        CellView::blank(Attrs::plain())
                    } else {
                        before.cells[k]
                    },
            decreases n - self.cells@.len(),
        {
            self.cells.push(Cell::default());
        }
        if self.cells[n - 1].is_wide() {
            self.cells[n - 1].clear(Attrs::default());
        }
        assert(self@.cells =~= before.resized(cols as nat).cells);
    }
}

} // verus!
