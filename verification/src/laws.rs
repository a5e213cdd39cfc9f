//! What holds of every screen that a parser can reach: what the library
//! writes for a screen, read again, gives a screen that shows the same.

use vstd::prelude::*;
use crate::attrs::Attrs;
use crate::format::Shown;
use crate::format::attrs_diff;
use crate::format::lemma_join;
use crate::format::max_nat;
use crate::format::modes_diff;
use crate::grid::GridView;
use crate::grid::Pos;
use crate::parser::ParserView;
use crate::rows::rows_mixed;
use crate::screen::ScreenView;
use crate::term::ClearScreen;
use crate::term::csi;

verus! {

/// The screen that a parser in front of a blank screen of the given size
/// reaches by reading `stream`.
pub open spec fn reached(rows: nat, cols: nat, scrollback_len: nat, stream: Seq<u8>) -> ScreenView {
    ParserView::new(rows, cols, scrollback_len).feed(stream).screen
}

/// Every screen that a parser reaches is well-formed and has the size it
/// was made with.
pub proof fn lemma_reached_wf(rows: nat, cols: nat, scrollback_len: nat, stream: Seq<u8>)
    requires
        1 <= rows <= 0xffff,
        2 <= cols <= 0xffff,
    ensures
        reached(rows, cols, scrollback_len, stream).wf(),
        reached(rows, cols, scrollback_len, stream).shown().wf(),
        reached(rows, cols, scrollback_len, stream).grid.rows.len() == rows,
        reached(rows, cols, scrollback_len, stream).grid.cols == cols,
{
    let fresh = ParserView::new(rows, cols, scrollback_len);
    ParserView::lemma_new_wf(rows, cols, scrollback_len);
    fresh.lemma_feed_wf(stream);
    reached(rows, cols, scrollback_len, stream).lemma_shown_wf();
}

/// A blank screen is ready to take the rows of anything shown at its size.
pub proof fn lemma_blank_ready(rows: nat, cols: nat, scrollback_len: nat, d: Shown)
    requires
        1 <= rows <= 0xffff,
        2 <= cols <= 0xffff,
        d.rows.len() == rows,
        d.cols == cols,
    ensures
        ParserView::new(rows, cols, scrollback_len).at_rest(),
        ParserView::new(rows, cols, scrollback_len).wf(),
        ParserView::new(rows, cols, scrollback_len).screen.ready_for(d),
        ParserView::new(rows, cols, scrollback_len).screen.attrs == Attrs::plain(),
        ParserView::new(rows, cols, scrollback_len).screen.bells == 0,
{
    ParserView::lemma_new_wf(rows, cols, scrollback_len);
    GridView::lemma_blank_wf(rows, cols, scrollback_len);
}

impl ParserView {
    /// The visible contents as formatted, read by a parser that writes
    /// with plain attributes, are drawn.
    pub proof fn lemma_feed_contents_formatted(self, d: Shown)
        requires
            self.at_rest(),
            self.screen.ready_for(d),
            d.wf(),
            self.screen.attrs == Attrs::plain(),
        ensures
            self.feed(d.contents_formatted()).at_rest(),
            self.feed(d.contents_formatted()).screen.ready_for(d),
            self.screen.painted(self.feed(d.contents_formatted()).screen),
            self.feed(d.contents_formatted()).screen.grid.rows == d.rows,
    {
        let clear = ClearScreen::bytes();
        let rows = d.rows_formatted_from(0, Attrs::plain());
        self.lemma_feed_clear(d);
        let p1 = self.feed(clear);
        assert(p1.screen.grid.rows.take(0) =~= d.rows.take(0));
        p1.lemma_feed_rows(d, 0);
        self.lemma_feed_concat(clear, rows);
    }

    /// All that a screen shows as formatted, read by a parser at rest in
    /// front of a screen of the same size that writes with plain
    /// attributes, makes that screen show the same, but for the count of
    /// bells.
    pub proof fn lemma_feed_state_formatted(self, d: Shown)
        requires
            self.at_rest(),
            self.screen.ready_for(d),
            d.wf(),
            self.screen.attrs == Attrs::plain(),
        ensures
            self.feed(d.state_formatted()).at_rest(),
            self.feed(d.state_formatted()).screen.ready_for(d),
            self.feed(d.state_formatted()).screen.shown() == (Shown {
                bells: self.screen.bells,
                ..d
            }),
    {
        let contents = d.contents_formatted();
        let cursor = d.cursor_state_formatted();
        let a = d.attributes_formatted();
        let m = d.input_mode_formatted();
        let t = d.title_formatted();
        self.lemma_feed_contents_formatted(d);
        let p1 = self.feed(contents);
        p1.lemma_feed_cursor_state(d);
        let p2 = p1.feed(cursor);
        p2.lemma_feed_settings(d);
        self.lemma_feed_concat(contents, cursor);
        self.lemma_feed_concat(contents + cursor, a + m + t);
        lemma_join(contents + cursor, a, m);
        lemma_join(contents + cursor, a + m, t);
    }
}

/// Reading all that a screen shows, as `state_formatted` writes it, and
/// then the bells that `bells_diff` writes against a blank screen, makes a
/// blank screen of the same size show the same as the screen that was
/// written: the same cells in every row, the same rows running on, the same
/// cursor, attributes, input modes, title and count of bells. This holds of
/// every screen that a parser reaches from a blank screen by any stream of
/// bytes.
pub proof fn lemma_round_trip_full(
    rows: nat,
    cols: nat,
    scrollback_len: nat,
    stream: Seq<u8>,
    replay_scrollback_len: nat,
)
    requires
        1 <= rows <= 0xffff,
        2 <= cols <= 0xffff,
    ensures
        ({
            let a = reached(rows, cols, scrollback_len, stream).shown();
            let empty = ParserView::new(rows, cols, replay_scrollback_len);
            let replayed = empty.feed(a.state_formatted() + a.bells_diff(empty.screen.shown()));
            replayed.at_rest() && replayed.screen.wf() && replayed.screen.shown() == a
        }),
{
    let a = reached(rows, cols, scrollback_len, stream).shown();
    let empty = ParserView::new(rows, cols, replay_scrollback_len);
    lemma_reached_wf(rows, cols, scrollback_len, stream);
    lemma_blank_ready(rows, cols, replay_scrollback_len, a);
    empty.lemma_feed_state_formatted(a);
    let p1 = empty.feed(a.state_formatted());
    let bells = a.bells_diff(empty.screen.shown());
    assert(max_nat(a.bells - 0) == a.bells);
    p1.lemma_feed_bells_count(a.bells);
    empty.lemma_feed_concat(a.state_formatted(), bells);
}

/// The formatted rows depend on nothing but the rows and their width.
pub proof fn lemma_rows_formatted_same(d1: Shown, d2: Shown, r: int, pen: Attrs)
    requires
        d1.rows == d2.rows,
        d1.cols == d2.cols,
    ensures
        d1.rows_formatted_from(r, pen) == d2.rows_formatted_from(r, pen),
    decreases d1.rows.len() - r,
{
    if 0 <= r < d1.rows.len() {
        assert(d1.row_formatted(r, 0, d1.cols as int, pen) == d2.row_formatted(
            r,
            0,
            d2.cols as int,
            pen,
        ));
        lemma_rows_formatted_same(d1, d2, r + 1, d1.row_pen(r, 0, d1.cols as int, pen));
    }
}

/// All that a screen shows as formatted does not depend on the count of
/// bells.
pub proof fn lemma_state_formatted_without_bells(d: Shown, bells: nat)
    ensures
        (Shown { bells, ..d }).state_formatted() == d.state_formatted(),
{
    lemma_rows_formatted_same(Shown { bells, ..d }, d, 0, Attrs::plain());
}

/// Formatting is idempotent: the screen that comes of reading all that a
/// screen shows is formatted to the same bytes as the screen that was
/// written.
pub proof fn lemma_format_idempotent(
    rows: nat,
    cols: nat,
    scrollback_len: nat,
    stream: Seq<u8>,
    replay_scrollback_len: nat,
)
    requires
        1 <= rows <= 0xffff,
        2 <= cols <= 0xffff,
    ensures
        ({
            let a = reached(rows, cols, scrollback_len, stream).shown();
            let empty = ParserView::new(rows, cols, replay_scrollback_len);
            let replayed = empty.feed(a.state_formatted());
            replayed.screen.shown().state_formatted() == a.state_formatted()
        }),
{
    let a = reached(rows, cols, scrollback_len, stream).shown();
    let empty = ParserView::new(rows, cols, replay_scrollback_len);
    lemma_reached_wf(rows, cols, scrollback_len, stream);
    lemma_blank_ready(rows, cols, replay_scrollback_len, a);
    empty.lemma_feed_state_formatted(a);
    let b = empty.feed(a.state_formatted()).screen.shown();
    assert(b == (Shown { bells: 0, ..a }));
    lemma_state_formatted_without_bells(a, 0);
}

/// On every screen that a parser reaches, a cell is the second half of a
/// wide character exactly if the cell to its left in the same row holds a
/// wide character, and no row ends in a wide character.
pub proof fn lemma_wide_characters(
    rows: nat,
    cols: nat,
    scrollback_len: nat,
    stream: Seq<u8>,
    row: int,
    col: int,
)
    requires
        1 <= rows <= 0xffff,
        2 <= cols <= 0xffff,
        0 <= row < rows,
        0 <= col < cols,
    ensures
        ({
            let cells = reached(rows, cols, scrollback_len, stream).grid.rows[row].cells;
            &&& cells.len() == cols
            &&& (cells[col].wide_continuation <==> (col > 0 && cells[col - 1].wide))
            &&& !cells[cols - 1].wide
        }),
{
    let s = reached(rows, cols, scrollback_len, stream);
    lemma_reached_wf(rows, cols, scrollback_len, stream);
    s.grid.lemma_wf_facts();
    assert(s.grid.rows[row].wf(cols));
    s.grid.rows[row].lemma_wf_at(cols, col);
}

impl ParserView {
    /// What turns `prev` into `d`, read by a parser at rest in front of a
    /// screen that shows `prev`, makes that screen show `d`, but for the
    /// count of bells.
    pub proof fn lemma_feed_state_diff(self, d: Shown, prev: Shown)
        requires
            self.at_rest(),
            self.screen.ready_for(d),
            d.wf(),
            self.screen.shown() == prev,
        ensures
            self.feed(d.state_diff(prev)).at_rest(),
            self.feed(d.state_diff(prev)).screen.ready_for(d),
            self.feed(d.state_diff(prev)).screen.shown() == (Shown { bells: prev.bells, ..d }),
    {
        let s = self.screen;
        let rows = d.rows_diff_from(prev, 0, false, prev.attrs);
        let cursor = d.cursor_state_diff(prev);
        let a = attrs_diff(d.diff_pen(prev), d.attrs);
        let m = modes_diff(true, prev.modes, d.modes);
        let t = d.title_diff(prev);
        assert(rows_mixed(s, d, prev, 0, false)) by {
            assert(s.grid.rows.take(0) =~= d.rows.take(0));
        }
        self.lemma_feed_rows_diff(d, prev, 0, false);
        let p1 = self.feed(rows);
        p1.lemma_feed_cursor_state_diff(d, prev);
        let p2 = p1.feed(cursor);
        assert(p2.screen.attrs == d.diff_pen(prev));
        p2.lemma_feed_settings_diff(d, prev);
        self.lemma_feed_concat(rows, cursor);
        self.lemma_feed_concat(rows + cursor, a + m + t);
        lemma_join(rows + cursor, a, m);
        lemma_join(rows + cursor, a + m, t);
    }
}

/// Reading what turns one screen into another, as `state_diff` and
/// `bells_diff` write it, makes a screen that shows the first show the
/// second. The screen that reads has to count its addresses from the top
/// left corner of the whole screen, as every screen does that has only read
/// what this library writes; it still does afterwards, so that the next
/// difference can follow.
pub proof fn lemma_round_trip_diff(tracker: ParserView, prev: ScreenView, a: ScreenView)
    requires
        tracker.at_rest(),
        tracker.screen.wf(),
        tracker.screen.grid.plain_addressing(),
        tracker.screen.shown() == prev.shown(),
        a.wf(),
        a.grid.sized_as(prev.grid),
        a.bells >= prev.bells,
    ensures
        ({
            let replayed = tracker.feed(
                a.shown().state_diff(prev.shown()) + a.shown().bells_diff(prev.shown()),
            );
            &&& replayed.at_rest()
            &&& replayed.screen.wf()
            &&& replayed.screen.grid.plain_addressing()
            &&& replayed.screen.shown() == a.shown()
        }),
{
    let d = a.shown();
    let p = prev.shown();
    a.lemma_shown_wf();
    tracker.lemma_feed_state_diff(d, p);
    let p1 = tracker.feed(d.state_diff(p));
    assert(max_nat(d.bells - p.bells) == d.bells - p.bells);
    p1.lemma_feed_bells_count((d.bells - p.bells) as nat);
    tracker.lemma_feed_concat(d.state_diff(p), d.bells_diff(p));
}

/// Reading what turns a blank screen into a screen that a parser has
/// reached makes a blank screen of the same size show the same as that
/// screen.
pub proof fn lemma_round_trip_diff_from_empty(
    rows: nat,
    cols: nat,
    scrollback_len: nat,
    stream: Seq<u8>,
    replay_scrollback_len: nat,
)
    requires
        1 <= rows <= 0xffff,
        2 <= cols <= 0xffff,
    ensures
        ({
            let a = reached(rows, cols, scrollback_len, stream).shown();
            let empty = ParserView::new(rows, cols, replay_scrollback_len);
            let replayed = empty.feed(
                a.state_diff(empty.screen.shown()) + a.bells_diff(empty.screen.shown()),
            );
            replayed.at_rest() && replayed.screen.wf() && replayed.screen.shown() == a
        }),
{
    let a = reached(rows, cols, scrollback_len, stream);
    let empty = ParserView::new(rows, cols, replay_scrollback_len);
    lemma_reached_wf(rows, cols, scrollback_len, stream);
    lemma_blank_ready(rows, cols, replay_scrollback_len, a.shown());
    lemma_round_trip_diff(empty, empty.screen, a);
}

/// The first `n` of a list of runs of bytes, joined.
pub open spec fn joined(units: Seq<Seq<u8>>, n: int) -> Seq<u8>
    decreases n,
{
    if n <= 0 {
        Seq::empty()
    } else {
        joined(units, n - 1) + units[n - 1]
    }
}

/// The parser that follows another one through the first `n` of a list of
/// runs of bytes: behind each run it reads what turns the screen before the
/// run into the screen behind it.
pub open spec fn follower(
    rows: nat,
    cols: nat,
    scrollback_len: nat,
    units: Seq<Seq<u8>>,
    n: int,
) -> ParserView
    decreases n,
{
    if n <= 0 {
        ParserView::new(rows, cols, 0)
    } else {
        let before = reached(rows, cols, scrollback_len, joined(units, n - 1)).shown();
        let now = reached(rows, cols, scrollback_len, joined(units, n)).shown();
        follower(rows, cols, scrollback_len, units, n - 1).feed(
            now.state_diff(before) + now.bells_diff(before),
        )
    }
}

/// A parser that, behind every run of bytes that another parser reads,
/// reads the difference that the run has made, shows at every step what
/// the other parser shows.
pub proof fn lemma_round_trip_incremental(
    rows: nat,
    cols: nat,
    scrollback_len: nat,
    units: Seq<Seq<u8>>,
    n: int,
)
    requires
        1 <= rows <= 0xffff,
        2 <= cols <= 0xffff,
        0 <= n <= units.len(),
    ensures
        follower(rows, cols, scrollback_len, units, n).at_rest(),
        follower(rows, cols, scrollback_len, units, n).screen.wf(),
        follower(rows, cols, scrollback_len, units, n).screen.grid.plain_addressing(),
        follower(rows, cols, scrollback_len, units, n).screen.shown() == reached(
            rows,
            cols,
            scrollback_len,
            joined(units, n),
        ).shown(),
    decreases n,
{
    let now = reached(rows, cols, scrollback_len, joined(units, n));
    lemma_reached_wf(rows, cols, scrollback_len, joined(units, n));
    if n == 0 {
        let fresh = ParserView::new(rows, cols, scrollback_len);
        fresh.lemma_feed_none();
        lemma_blank_ready(rows, cols, 0, now.shown());
    } else {
        let before = reached(rows, cols, scrollback_len, joined(units, n - 1));
        lemma_round_trip_incremental(rows, cols, scrollback_len, units, n - 1);
        lemma_reached_wf(rows, cols, scrollback_len, joined(units, n - 1));
        let fresh = ParserView::new(rows, cols, scrollback_len);
        ParserView::lemma_new_wf(rows, cols, scrollback_len);
        fresh.lemma_feed_concat(joined(units, n - 1), units[n - 1]);
        fresh.lemma_feed_wf(joined(units, n - 1));
        fresh.feed(joined(units, n - 1)).lemma_feed_wf(units[n - 1]);
        lemma_round_trip_diff(follower(rows, cols, scrollback_len, units, n - 1), before, now);
    }
}

/// What draws the rows from `r` on one by one: before each row the
/// attributes are made plain, and the cursor is put at the start of the
/// row unless the row above runs on into it; then comes the row as
/// `row_formatted` gives it for all its columns.
pub open spec fn rows_replay_from(d: Shown, r: int) -> Seq<u8>
    decreases d.rows.len() - r,
{
    if r < 0 || r >= d.rows.len() {
        Seq::empty()
    } else {
        csi(Seq::<u32>::empty(), 0x6d) + (if r > 0 && d.rows[r - 1].wrapped {
            Seq::empty()
        } else {
            csi(seq![(r + 1) as u32], 0x48)
        }) + d.row_formatted(r, 0, d.cols as int, Attrs::plain()) + rows_replay_from(d, r + 1)
    }
}

/// What draws a screen row by row: the rows, then cursor, attributes,
/// input modes and title, and the bells rung since `empty`.
pub open spec fn rows_replay(d: Shown, empty: Shown) -> Seq<u8> {
    rows_replay_from(d, 0) + d.cursor_state_formatted() + (d.attributes_formatted()
        + d.input_mode_formatted() + d.title_formatted()) + d.bells_diff(empty)
}

impl ParserView {
    /// The start of one row in a replay row by row: the attributes are
    /// plain and the cursor stands at the start of the row.
    pub proof fn lemma_feed_row_start(self, d: Shown, r: int)
        requires
            self.at_rest(),
            self.screen.ready_for(d),
            d.wf(),
            0 <= r < d.rows.len(),
            r > 0 && d.rows[r - 1].wrapped ==> self.screen.grid.pos == (Pos {
                row: r as u16,
                col: 0,
            }) && !self.screen.grid.pending_wrap,
        ensures
            ({
                let head = csi(Seq::<u32>::empty(), 0x6d) + (if r > 0 && d.rows[r - 1].wrapped {
                    Seq::<u8>::empty()
                } else {
                    csi(seq![(r + 1) as u32], 0x48)
                });
                let q = self.feed(head);
                &&& q.at_rest()
                &&& q.screen.ready_for(d)
                &&& q.screen == self.screen.repainted(
                    self.screen.grid.rows,
                    Pos { row: r as u16, col: 0 },
                    false,
                    Attrs::plain(),
                )
            }),
    {
        let s = self.screen;
        let reset = csi(Seq::<u32>::empty(), 0x6d);
        let to = if r > 0 && d.rows[r - 1].wrapped {
            Seq::<u8>::empty()
        } else {
            csi(seq![(r + 1) as u32], 0x48)
        };
        s.grid.lemma_wf_facts();
        self.lemma_feed_reset_attrs();
        let p1 = self.feed(reset);
        if r > 0 && d.rows[r - 1].wrapped {
            p1.lemma_feed_none();
        } else {
            p1.lemma_feed_move_to_row(r as u16);
            s.grid.lemma_moved_to_wf(r, 0);
            p1.screen.lemma_with_grid_wf(s.grid.moved_to(r, 0));
        }
        self.lemma_feed_concat(reset, to);
    }

    /// The rows from `r` on, replayed one by one, are drawn.
    pub proof fn lemma_feed_rows_replay(self, d: Shown, r: int)
        requires
            self.at_rest(),
            self.screen.ready_for(d),
            d.wf(),
            0 <= r <= d.rows.len(),
            self.screen.grid.rows.take(r) == d.rows.take(r),
            0 < r < d.rows.len() && d.rows[r - 1].wrapped ==> self.screen.grid.pos == (Pos {
                row: r as u16,
                col: 0,
            }) && !self.screen.grid.pending_wrap,
        ensures
            self.feed(rows_replay_from(d, r)).at_rest(),
            self.feed(rows_replay_from(d, r)).screen.ready_for(d),
            self.screen.painted(self.feed(rows_replay_from(d, r)).screen),
            self.feed(rows_replay_from(d, r)).screen.grid.rows == d.rows,
        decreases d.rows.len() - r,
    {
        let s = self.screen;
        let len = d.rows.len() as int;
        if r >= len {
            self.lemma_feed_none();
            assert(s.grid.rows =~= s.grid.rows.take(len));
            assert(d.rows =~= d.rows.take(len));
        } else {
            let head = csi(Seq::<u32>::empty(), 0x6d) + (if r > 0 && d.rows[r - 1].wrapped {
                Seq::<u8>::empty()
            } else {
                csi(seq![(r + 1) as u32], 0x48)
            });
            let row_bytes = d.row_formatted(r, 0, d.cols as int, Attrs::plain());
            let rest = rows_replay_from(d, r + 1);
            self.lemma_feed_row_start(d, r);
            let p1 = self.feed(head);
            p1.lemma_feed_row(d, r);
            let p2 = p1.feed(row_bytes);
            let t = p2.screen;
            assert(t.grid.rows.take(r + 1) =~= d.rows.take(r + 1)) by {
                assert forall|k: int| 0 <= k < r + 1 implies t.grid.rows[k] == d.rows[k] by {
                    if k < r {
                        assert(s.grid.rows.take(r)[k] == s.grid.rows[k]);
                        assert(d.rows.take(r)[k] == d.rows[k]);
                        assert(t.grid.rows[k] == p1.screen.grid.rows[k]);
                    }
                }
            }
            p2.lemma_feed_rows_replay(d, r + 1);
            self.lemma_feed_concat(head, row_bytes);
            self.lemma_feed_concat(head + row_bytes, rest);
        }
    }
}

/// Drawing a screen row by row makes a blank screen of the same size show
/// the same as the screen that was written: before each row the attributes
/// are made plain and the cursor is put at the start of the row, unless
/// the row above runs on; then the row is read as `row_formatted` gives it;
/// and behind the rows come cursor, attributes, input modes, title and
/// bells.
pub proof fn lemma_round_trip_rows(
    rows: nat,
    cols: nat,
    scrollback_len: nat,
    stream: Seq<u8>,
    replay_scrollback_len: nat,
)
    requires
        1 <= rows <= 0xffff,
        2 <= cols <= 0xffff,
    ensures
        ({
            let a = reached(rows, cols, scrollback_len, stream).shown();
            let empty = ParserView::new(rows, cols, replay_scrollback_len);
            let replayed = empty.feed(rows_replay(a, empty.screen.shown()));
            replayed.at_rest() && replayed.screen.wf() && replayed.screen.shown() == a
        }),
{
    let a = reached(rows, cols, scrollback_len, stream).shown();
    let empty = ParserView::new(rows, cols, replay_scrollback_len);
    lemma_reached_wf(rows, cols, scrollback_len, stream);
    lemma_blank_ready(rows, cols, replay_scrollback_len, a);
    let drawn = rows_replay_from(a, 0);
    let cursor = a.cursor_state_formatted();
    let settings = a.attributes_formatted() + a.input_mode_formatted() + a.title_formatted();
    let bells = a.bells_diff(empty.screen.shown());
    assert(empty.screen.grid.rows.take(0) =~= a.rows.take(0));
    empty.lemma_feed_rows_replay(a, 0);
    let p1 = empty.feed(drawn);
    p1.lemma_feed_cursor_state(a);
    let p2 = p1.feed(cursor);
    p2.lemma_feed_settings(a);
    let p3 = p2.feed(settings);
    assert(max_nat(a.bells - 0) == a.bells);
    p3.lemma_feed_bells_count(a.bells);
    empty.lemma_feed_concat(drawn, cursor);
    empty.lemma_feed_concat(drawn + cursor, settings);
    empty.lemma_feed_concat(drawn + cursor + settings, bells);
}

} // verus!
