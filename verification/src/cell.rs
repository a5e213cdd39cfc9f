//! A single character position of the terminal.

use vstd::prelude::*;
use vstd::std_specs::cmp::PartialEqSpecImpl;
use crate::attrs::Attrs;
use crate::attrs::Color;
use crate::utf8::utf8_text;
use crate::utf8::write_char;
use crate::width::char_width;
use crate::width::display_width;

verus! {

/// How many characters a cell can hold: one base character and five
/// combining marks.
pub const CODEPOINTS_IN_CELL: usize = 6;

/// What a cell holds, as a mathematical value.
pub struct CellView {
    /// The base character followed by its combining marks; empty for a blank
    /// cell.
    pub text: Seq<char>,
    /// Whether the text is a character that takes two columns.
    pub wide: bool,
    /// Whether the cell is the second column of the wide character to its
    /// left.
    pub wide_continuation: bool,
    /// The attributes the cell is drawn with.
    pub attrs: Attrs,
}

impl CellView {
    /// A cell without text, drawn with `attrs`.
    pub open spec fn blank(attrs: Attrs) -> CellView {
        CellView { text: Seq::empty(), wide: false, wide_continuation: false, attrs }
    }

    /// A cell that holds the single character `c`.
    pub open spec fn with_char(c: char, attrs: Attrs) -> CellView {
        CellView { text: seq![c], wide: display_width(c) > 1, wide_continuation: false, attrs }
    }

    /// The cell after one more character was added to its text: a full cell
    /// stays as it is, and a cell without text gets a space to carry the mark.
    pub open spec fn appended(self, c: char) -> CellView {
        if self.text.len() >= CODEPOINTS_IN_CELL {
            self
        } else if self.text.len() == 0 {
            CellView { text: seq![' ', c], ..self }
        } else {
            CellView { text: self.text.push(c), ..self }
        }
    }

    /// Whether the cell holds anything: text, or one half of a wide character.
    pub open spec fn occupied(self) -> bool {
        self.text.len() > 0 || self.wide || self.wide_continuation
    }
}

/// The number of characters that a length byte counts.
pub closed spec fn count_of(len: u8) -> nat {
    (len & 0x0f) as nat
}

/// Whether a length byte flags a wide character.
pub closed spec fn wide_of(len: u8) -> bool {
    len & 0x80 == 0x80
}

/// Whether a length byte flags the second half of a wide character.
pub closed spec fn continuation_of(len: u8) -> bool {
    len & 0x40 == 0x40
}

/// Whether a length byte counts at most six characters and has no bit set
/// besides the count and the two flags.
pub closed spec fn len_ok(len: u8) -> bool {
    len & 0x3f <= 6
}

proof fn lemma_len_constants()
    by (bit_vector)
    ensures
        0u8 & 0x0f == 0,
        0u8 & 0x80 != 0x80,
        0u8 & 0x40 != 0x40,
        0u8 & 0x3f <= 6,
        1u8 & 0x0f == 1,
        1u8 & 0x80 != 0x80,
        1u8 & 0x40 != 0x40,
        1u8 & 0x3f <= 6,
{
}

proof fn lemma_len_flag(len: u8)
    by (bit_vector)
    ensures
        (len | 0x80) & 0x0f == len & 0x0f,
        (len | 0x80) & 0x80 == 0x80,
        ((len | 0x80) & 0x40 == 0x40) == (len & 0x40 == 0x40),
        (len | 0x80) & 0x3f == len & 0x3f,
        (len & 0x7f) & 0x0f == len & 0x0f,
        (len & 0x7f) & 0x80 != 0x80,
        ((len & 0x7f) & 0x40 == 0x40) == (len & 0x40 == 0x40),
        (len & 0x7f) & 0x3f == len & 0x3f,
        (len | 0x40) & 0x0f == len & 0x0f,
        (len | 0x40) & 0x40 == 0x40,
        ((len | 0x40) & 0x80 == 0x80) == (len & 0x80 == 0x80),
        (len | 0x40) & 0x3f == len & 0x3f,
        (len & 0xbf) & 0x0f == len & 0x0f,
        (len & 0xbf) & 0x40 != 0x40,
        ((len & 0xbf) & 0x80 == 0x80) == (len & 0x80 == 0x80),
        (len & 0xbf) & 0x3f == len & 0x3f,
{
}

proof fn lemma_len_count(len: u8)
    by (bit_vector)
    requires
        len & 0x3f <= 6,
    ensures
        len & 0x0f == len & 0x3f,
        len & 0x0f <= 6,
        (len > 0) == (len & 0x0f > 0 || len & 0x80 == 0x80 || len & 0x40 == 0x40),
        len & 0x0f < 6 ==> len < 255 && (len + 1) as u8 & 0x0f == (len & 0x0f) + 1 && (len + 1) as u8
            & 0x3f <= 6 && (((len + 1) as u8 & 0x80 == 0x80) == (len & 0x80 == 0x80)) && (((len
            + 1) as u8 & 0x40 == 0x40) == (len & 0x40 == 0x40)),
{
}

proof fn lemma_len_determined(a: u8, b: u8)
    by (bit_vector)
    requires
        a & 0x3f <= 6,
        b & 0x3f <= 6,
        a & 0x0f == b & 0x0f,
        (a & 0x80 == 0x80) == (b & 0x80 == 0x80),
        (a & 0x40 == 0x40) == (b & 0x40 == 0x40),
    ensures
        a == b,
{
}

/// `String::push` puts one character at the end of the string.
pub assume_specification[ String::push ](s: &mut String, c: char)
    ensures
        final(s)@ == old(s)@.push(c),
;

/// Represents a single terminal cell.
#[derive(Clone, Copy, Debug)]
pub struct Cell {
    contents: [char; 6],
    len: u8,
    attrs: Attrs,
}

impl View for Cell {
    type V = CellView;

    closed spec fn view(&self) -> CellView {
        CellView {
            text: self.contents@.subrange(0, count_of(self.len) as int),
            wide: wide_of(self.len),
            wide_continuation: continuation_of(self.len),
            attrs: self.attrs,
        }
    }
}

impl Default for Cell {
    /// A blank cell with plain attributes.
    fn default() -> (cell: Self)
        ensures
            cell@ == CellView::blank(Attrs::plain()),
    {
        proof {
            lemma_len_constants();
        }
        let cell = Cell { contents: [' ', ' ', ' ', ' ', ' ', ' '], len: 0, attrs: Attrs::default() };
        assert(cell@.text =~= Seq::empty());
        cell
    }
}

impl PartialEq for Cell {
    /// Two cells are equal when they hold the same text, flags and
    /// attributes; what the storage holds beyond the text does not count.
    fn eq(&self, other: &Self) -> (r: bool) {
        proof {
            use_type_invariant(self);
            use_type_invariant(other);
            lemma_len_count(self.len);
            lemma_len_count(other.len);
            if count_of(self.len) == count_of(other.len) && wide_of(self.len) == wide_of(other.len)
                && continuation_of(self.len) == continuation_of(other.len) {
                lemma_len_determined(self.len, other.len);
            }
        }
        if self.len != other.len {
            assert(self@ != other@) by {
                assert(self@.text.len() == count_of(self.len));
                assert(other@.text.len() == count_of(other.len));
            }
            return false;
        }
        if !(self.attrs == other.attrs) {
            return false;
        }
        let len = self.len();
        let mut i: usize = 0;
        while i < len
            invariant
                i <= len <= 6,
                len == count_of(self.len),
                self.len == other.len,
                forall|j: int| 0 <= j < i ==> self.contents@[j] == other.contents@[j],
            decreases len - i,
        {
            if self.contents[i] != other.contents[i] {
                assert(self@.text[i as int] != other@.text[i as int]);
                return false;
            }
            i += 1;
        }
        assert(self@.text =~= other@.text);
        true
    }
}

impl Eq for Cell {

}

impl PartialEqSpecImpl for Cell {
    open spec fn obeys_eq_spec() -> bool {
        true
    }

    open spec fn eq_spec(&self, other: &Self) -> bool {
        self@ == other@
    }
}

impl Cell {
    #[verifier::type_invariant]
    spec fn inv(self) -> bool {
        len_ok(self.len)
    }

    /// The number of characters the cell holds.
    fn len(&self) -> (n: usize)
        ensures
            n == self@.text.len(),
            n == count_of(self.len),
            n <= CODEPOINTS_IN_CELL,
    {
        proof {
            use_type_invariant(self);
            lemma_len_count(self.len);
        }
        (self.len & 0x0f) as usize
    }

    /// Replaces what the cell holds by the character `c`, drawn with `a`.
    /// The cell is flagged wide when `c` takes more than one column.
    pub fn set(&mut self, c: char, a: Attrs)
        ensures
            final(self)@ == CellView::with_char(c, a),
            final(self)@.text.len() <= CODEPOINTS_IN_CELL,
    {
        self.set_with_width(c, char_width(c), a);
    }

    /// Replaces what the cell holds by the character `c`, which takes
    /// `width` columns, drawn with `a`. The cell is flagged wide when the
    /// width is more than one column, and it is no second half of a wide
    /// character any more.
    pub fn set_with_width(&mut self, c: char, width: usize, a: Attrs)
        ensures
            final(self)@ == (CellView {
                text: seq![c],
                wide: width > 1,
                wide_continuation: false,
                attrs: a,
            }),
    {
        proof {
            use_type_invariant(&*self);
            lemma_len_constants();
        }
        self.contents[0] = c;
        self.len = 1;
        self.set_wide(width > 1);
        proof {
            use_type_invariant(&*self);
        }
        self.attrs = a;
        assert(self@.text =~= seq![c]);
    }

    /// Adds a combining mark to the text of the cell. A cell that is full
    /// drops the mark; a cell without text gets a space for the mark to sit
    /// on.
    pub fn append(&mut self, c: char)
        ensures
            final(self)@ == old(self)@.appended(c),
            final(self)@.text.len() <= CODEPOINTS_IN_CELL,
    {
        proof {
            use_type_invariant(&*self);
            lemma_len_count(self.len);
        }
        if self.len() >= CODEPOINTS_IN_CELL {
            return ;
        }
        if self.len() == 0 {
            proof {
                lemma_len_count(self.len);
            }
            let i = self.len();
            self.contents[i] = ' ';
            self.len += 1;
        }
        proof {
            lemma_len_count(self.len);
        }
        let i = self.len();
        self.contents[i] = c;
        self.len += 1;
        assert(self@.text =~= old(self)@.appended(c).text);
    }

    /// Empties the cell: no text, no flag, and `attrs` as its attributes.
    pub fn clear(&mut self, attrs: Attrs)
        ensures
            final(self)@ == CellView::blank(attrs),
    {
        proof {
            lemma_len_constants();
        }
        self.len = 0;
        self.attrs = attrs;
        assert(self@.text =~= Seq::empty());
    }

    /// Returns the text contents of the cell: the base character and then
    /// the combining marks, in the order in which they arrived, at most six
    /// characters in all.
    ///
    /// Can include multiple unicode characters if combining characters are
    /// used, but will contain at most one character with a non-zero character
    /// width.
    #[must_use]
    pub fn contents(&self) -> (s: String)
        ensures
            s@ == self@.text,
            s@.len() <= CODEPOINTS_IN_CELL,
    {
        let mut s = String::new();
        let len = self.len();
        let mut i: usize = 0;
        while i < len
            invariant
                i <= len <= 6,
                len == count_of(self.len),
                s@ == self.contents@.subrange(0, i as int),
            decreases len - i,
        {
            s.push(self.contents[i]);
            assert(self.contents@.subrange(0, i + 1) =~= self.contents@.subrange(0, i as int).push(
                self.contents@[i as int],
            ));
            i += 1;
        }
        s
    }

    /// Appends the text contents of the cell to `buf`, as UTF-8.
    pub fn write_contents(&self, buf: &mut Vec<u8>)
        ensures
            final(buf)@ == old(buf)@ + utf8_text(self@.text),
    {
        let len = self.len();
        let mut i: usize = 0;
        assert(self.contents@.subrange(0, 0) =~= Seq::<char>::empty());
        while i < len
            invariant
                i <= len <= 6,
                len == count_of(self.len),
                buf@ == old(buf)@ + utf8_text(self.contents@.subrange(0, i as int)),
            decreases len - i,
        {
            write_char(buf, self.contents[i]);
            proof {
                let next = self.contents@.subrange(0, i + 1);
                assert(next.drop_last() =~= self.contents@.subrange(0, i as int));
                assert(next.last() == self.contents@[i as int]);
                assert(buf@ =~= old(buf)@ + utf8_text(next));
            }
            i += 1;
        }
    }

    /// Returns whether the cell contains any text data. The second half of a
    /// wide character counts as holding some, though it has no text of its
    /// own.
    #[must_use]
    pub fn has_contents(&self) -> (r: bool)
        ensures
            r == self@.occupied(),
    {
        proof {
            use_type_invariant(self);
            lemma_len_count(self.len);
        }
        self.len > 0
    }

    /// Returns whether the text data in the cell represents a wide character.
    #[must_use]
    pub fn is_wide(&self) -> (r: bool)
        ensures
            r == self@.wide,
    {
        self.len & 0x80 == 0x80
    }

    /// Returns whether the cell contains the second half of a wide character
    /// (in other words, whether the previous cell in the row contains a wide
    /// character).
    #[must_use]
    pub fn is_wide_continuation(&self) -> (r: bool)
        ensures
            r == self@.wide_continuation,
    {
        self.len & 0x40 == 0x40
    }

    fn set_wide(&mut self, wide: bool)
        ensures
            final(self)@ == (CellView { wide, ..old(self)@ }),
    {
        proof {
            use_type_invariant(&*self);
            lemma_len_flag(self.len);
        }
        if wide {
            self.len |= 0x80;
        } else {
            self.len &= 0x7f;
        }
    }

    /// Sets or clears the flag that marks the cell as the second half of a
    /// wide character.
    pub fn set_wide_continuation(&mut self, wide: bool)
        ensures
            final(self)@ == (CellView { wide_continuation: wide, ..old(self)@ }),
    {
        proof {
            use_type_invariant(&*self);
            lemma_len_flag(self.len);
        }
        if wide {
            self.len |= 0x40;
        } else {
            self.len &= 0xbf;
        }
    }

    /// The attributes the cell is drawn with.
    pub fn attrs(&self) -> (a: &Attrs)
        ensures
            *a == self@.attrs,
    {
        &self.attrs
    }

    /// Returns the foreground color of the cell.
    #[must_use]
    pub fn fgcolor(&self) -> (c: Color)
        ensures
            c == self@.attrs.fgcolor,
    {
        self.attrs.fgcolor
    }

    /// Returns the background color of the cell.
    #[must_use]
    pub fn bgcolor(&self) -> (c: Color)
        ensures
            c == self@.attrs.bgcolor,
    {
        self.attrs.bgcolor
    }

    /// Returns whether the cell should be rendered with the bold text
    /// attribute.
    #[must_use]
    pub fn bold(&self) -> (b: bool)
        ensures
            b == self@.attrs.bold,
    {
        self.attrs.bold()
    }

    /// Returns whether the cell should be rendered with the italic text
    /// attribute.
    #[must_use]
    pub fn italic(&self) -> (b: bool)
        ensures
            b == self@.attrs.italic,
    {
        self.attrs.italic()
    }

    /// Returns whether the cell should be rendered with the underlined text
    /// attribute.
    #[must_use]
    pub fn underline(&self) -> (b: bool)
        ensures
            b == self@.attrs.underline,
    {
        self.attrs.underline()
    }

    /// Returns whether the cell should be rendered with the inverse text
    /// attribute.
    #[must_use]
    pub fn inverse(&self) -> (b: bool)
        ensures
            b == self@.attrs.inverse,
    {
        self.attrs.inverse()
    }
}

} // verus!
