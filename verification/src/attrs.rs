//! Rendering attributes of a terminal cell.

use vstd::prelude::*;

verus! {

/// A color of the terminal palette.
#[derive(Clone, Copy, Debug, PartialEq, Eq, Structural)]
pub enum Color {
    /// The default foreground or background color of the terminal.
    Default,
    /// One of the 256 indexed colors.
    Idx(u8),
    /// A direct color, by its red, green and blue parts.
    Rgb(u8, u8, u8),
}

impl Default for Color {
    fn default() -> (c: Self)
        ensures
            c == Color::Default,
    {
        Color::Default
    }
}

/// The attributes a cell is drawn with: two colors and four text modes.
#[derive(Clone, Copy, Debug, PartialEq, Eq, Structural)]
pub struct Attrs {
    pub fgcolor: Color,
    pub bgcolor: Color,
    pub bold: bool,
    pub italic: bool,
    pub underline: bool,
    pub inverse: bool,
}

impl Default for Attrs {
    fn default() -> (a: Self)
        ensures
            a == Attrs::plain(),
    {
        Attrs {
            fgcolor: Color::Default,
            bgcolor: Color::Default,
            bold: false,
            italic: false,
            underline: false,
            inverse: false,
        }
    }
}

impl Attrs {
    /// The attributes of a terminal that has received no attribute sequence:
    /// default colors, every text mode off.
    pub open spec fn plain() -> Attrs {
        Attrs {
            fgcolor: Color::Default,
            bgcolor: Color::Default,
            bold: false,
            italic: false,
            underline: false,
            inverse: false,
        }
    }

    /// Whether text is drawn bold.
    pub fn bold(&self) -> (b: bool)
        ensures
            b == self.bold,
    {
        self.bold
    }

    /// Whether text is drawn italic.
    pub fn italic(&self) -> (b: bool)
        ensures
            b == self.italic,
    {
        self.italic
    }

    /// Whether text is drawn underlined.
    pub fn underline(&self) -> (b: bool)
        ensures
            b == self.underline,
    {
        self.underline
    }

    /// Whether foreground and background are exchanged.
    pub fn inverse(&self) -> (b: bool)
        ensures
            b == self.inverse,
    {
        self.inverse
    }
}

} // verus!
