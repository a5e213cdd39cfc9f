//! Control sequences that a terminal understands, each as a small value that
//! writes its own bytes.

use vstd::prelude::*;
use crate::attrs::Color;
use crate::grid::Pos;

verus! {

/// The escape byte that starts every control sequence.
pub const ESC: u8 = 0x1b;

/// The decimal digits of `n`, most significant first.
pub open spec fn decimal(n: nat) -> Seq<u8>
    decreases n,
{
    if n < 10 {
        seq![(0x30 + n) as u8]
    } else {
        decimal(n / 10).push((0x30 + n % 10) as u8)
    }
}

/// The parameters of a control sequence as text: decimal numbers with a
/// semicolon between each two.
pub open spec fn params_text(params: Seq<u32>) -> Seq<u8>
    decreases params.len(),
{
    if params.len() == 0 {
        Seq::empty()
    } else if params.len() == 1 {
        decimal(params[0] as nat)
    } else {
        params_text(params.drop_last()) + seq![0x3bu8] + decimal(params.last() as nat)
    }
}

/// A control sequence: the introducer `ESC [`, the parameters, and the byte
/// that names the function.
pub open spec fn csi(params: Seq<u32>, function: u8) -> Seq<u8> {
    seq![0x1bu8, 0x5bu8] + params_text(params) + seq![function]
}

/// Appends the decimal digits of `n` to `buf`.
pub fn write_decimal(buf: &mut Vec<u8>, n: u32)
    ensures
        final(buf)@ == old(buf)@ + decimal(n as nat),
    decreases n,
{
    if n >= 10 {
        write_decimal(buf, n / 10);
    }
    buf.push(0x30u8 + (n % 10) as u8);
    assert(buf@ =~= old(buf)@ + decimal(n as nat));
}

proof fn lemma_params_text_step(params: Seq<u32>, i: int)
    requires
        0 <= i < params.len(),
    ensures
        params_text(params.take(i + 1)) == if i == 0 {
            decimal(params[0] as nat)
        } else {
            params_text(params.take(i)) + seq![0x3bu8] + decimal(params[i] as nat)
        },
{
    assert(params.take(i + 1).drop_last() =~= params.take(i));
}

/// Appends the control sequence with the given parameters and function byte
/// to `buf`.
pub fn write_csi(buf: &mut Vec<u8>, params: &Vec<u32>, function: u8)
    ensures
        final(buf)@ == old(buf)@ + csi(params@, function),
{
    buf.push(ESC);
    buf.push(0x5bu8);
    let mut i: usize = 0;
    while i < params.len()
        invariant
            i <= params.len(),
            buf@ == old(buf)@ + seq![0x1bu8, 0x5bu8] + params_text(params@.take(i as int)),
        decreases params.len() - i,
    {
        if i > 0 {
            buf.push(0x3bu8);
        }
        write_decimal(buf, params[i]);
        proof {
            lemma_params_text_step(params@, i as int);
            assert(buf@ =~= old(buf)@ + seq![0x1bu8, 0x5bu8] + params_text(
                params@.take(i + 1),
            ));
        }
        i += 1;
    }
    assert(params@.take(i as int) =~= params@);
    buf.push(function);
    assert(buf@ =~= old(buf)@ + csi(params@, function));
}

/// Appends the bytes of `bytes` to `buf`.
pub fn write_bytes(buf: &mut Vec<u8>, bytes: &[u8])
    ensures
        final(buf)@ == old(buf)@ + bytes@,
{
    let mut i: usize = 0;
    while i < bytes.len()
        invariant
            i <= bytes.len(),
            buf@ == old(buf)@ + bytes@.take(i as int),
        decreases bytes.len() - i,
    {
        buf.push(bytes[i]);
        assert(buf@ =~= old(buf)@ + bytes@.take(i + 1));
        i += 1;
    }
    assert(bytes@.take(i as int) =~= bytes@);
}

/// Clears the screen and puts the cursor in the top left corner.
#[derive(Debug)]
pub struct ClearScreen;

impl Default for ClearScreen {
    fn default() -> Self {
        ClearScreen
    }
}

impl ClearScreen {
    /// The sequence that clears the screen.
    pub fn new() -> Self {
        ClearScreen
    }

    /// `ESC [ H`, then `ESC [ J`.
    pub open spec fn bytes() -> Seq<u8> {
        seq![0x1bu8, 0x5b, 0x48, 0x1b, 0x5b, 0x4a]
    }

    /// Appends the sequence to `buf`.
    pub fn write_buf(&self, buf: &mut Vec<u8>)
        ensures
            final(buf)@ == old(buf)@ + Self::bytes(),
    {
        buf.push(ESC);
        buf.push(0x5bu8);
        buf.push(0x48u8);
        buf.push(ESC);
        buf.push(0x5bu8);
        buf.push(0x4au8);
        assert(buf@ =~= old(buf)@ + Self::bytes());
    }
}

/// Moves the cursor to the start of the next line.
#[derive(Debug)]
pub struct CRLF;

impl Default for CRLF {
    fn default() -> Self {
        CRLF
    }
}

impl CRLF {
    /// The sequence that starts a new line.
    pub fn new() -> Self {
        CRLF
    }

    /// A carriage return, then a line feed.
    pub open spec fn bytes() -> Seq<u8> {
        seq![0x0du8, 0x0a]
    }

    /// Appends the sequence to `buf`.
    pub fn write_buf(&self, buf: &mut Vec<u8>)
        ensures
            final(buf)@ == old(buf)@ + Self::bytes(),
    {
        buf.push(0x0du8);
        buf.push(0x0au8);
        assert(buf@ =~= old(buf)@ + Self::bytes());
    }
}

/// Moves the cursor to a position on the screen.
#[derive(Debug)]
pub struct MoveTo {
    pub row: u16,
    pub col: u16,
}

impl Default for MoveTo {
    fn default() -> (m: Self)
        ensures
            m.row == 0,
            m.col == 0,
    {
        MoveTo { row: 0, col: 0 }
    }
}

impl MoveTo {
    /// The sequence that moves the cursor to `pos`.
    pub fn new(pos: Pos) -> (m: Self)
        ensures
            m.row == pos.row,
            m.col == pos.col,
    {
        MoveTo { row: pos.row, col: pos.col }
    }

    /// The short form `ESC [ H` for the top left corner; otherwise
    /// `ESC [ row ; col H`, with both numbers counted from one.
    pub open spec fn bytes(&self) -> Seq<u8> {
        if self.row == 0 && self.col == 0 {
            seq![0x1bu8, 0x5b, 0x48]
        } else {
            csi(seq![(self.row + 1) as u32, (self.col + 1) as u32], 0x48)
        }
    }

    /// Appends the sequence to `buf`.
    pub fn write_buf(&self, buf: &mut Vec<u8>)
        ensures
            final(buf)@ == old(buf)@ + self.bytes(),
    {
        if self.row == 0 && self.col == 0 {
            buf.push(ESC);
            buf.push(0x5bu8);
            buf.push(0x48u8);
            assert(buf@ =~= old(buf)@ + self.bytes());
        } else {
            let mut params: Vec<u32> = Vec::new();
            params.push(self.row as u32 + 1);
            params.push(self.col as u32 + 1);
            assert(params@ =~= seq![(self.row + 1) as u32, (self.col + 1) as u32]);
            write_csi(buf, &params, 0x48u8);
        }
    }
}

/// Sets some of the attributes that following text is drawn with, and leaves
/// the others as they are.
#[derive(Debug)]
pub struct Attrs {
    pub fgcolor: Option<Color>,
    pub bgcolor: Option<Color>,
    pub bold: Option<bool>,
    pub italic: Option<bool>,
    pub underline: Option<bool>,
    pub inverse: Option<bool>,
}

impl Default for Attrs {
    fn default() -> (a: Self)
        ensures
            a == Attrs::unchanged(),
    {
        Attrs { fgcolor: None, bgcolor: None, bold: None, italic: None, underline: None, inverse: None }
    }
}

/// The parameters that select a foreground color.
pub open spec fn fg_params(color: Color) -> Seq<u32> {
    match color {
        Color::Default => seq![39u32],
        Color::Idx(i) => if i < 8 {
            seq![(i + 30) as u32]
        } else if i < 16 {
            seq![(i + 82) as u32]
        } else {
            seq![38u32, 5, i as u32]
        },
        Color::Rgb(r, g, b) => seq![38u32, 2, r as u32, g as u32, b as u32],
    }
}

/// The parameters that select a background color.
pub open spec fn bg_params(color: Color) -> Seq<u32> {
    match color {
        Color::Default => seq![49u32],
        Color::Idx(i) => if i < 8 {
            seq![(i + 40) as u32]
        } else if i < 16 {
            seq![(i + 92) as u32]
        } else {
            seq![48u32, 5, i as u32]
        },
        Color::Rgb(r, g, b) => seq![48u32, 2, r as u32, g as u32, b as u32],
    }
}

/// The parameter that switches a text mode on or off.
pub open spec fn mode_param(value: bool, on: u32, off: u32) -> Seq<u32> {
    if value {
        seq![on]
    } else {
        seq![off]
    }
}

/// The parameters for a foreground color that may be left alone.
pub open spec fn fg_part(color: Option<Color>) -> Seq<u32> {
    match color {
        Some(c) => fg_params(c),
        None => Seq::empty(),
    }
}

/// The parameters for a background color that may be left alone.
pub open spec fn bg_part(color: Option<Color>) -> Seq<u32> {
    match color {
        Some(c) => bg_params(c),
        None => Seq::empty(),
    }
}

/// The parameter for a text mode that may be left alone.
pub open spec fn mode_part(value: Option<bool>, on: u32, off: u32) -> Seq<u32> {
    match value {
        Some(v) => mode_param(v, on, off),
        None => Seq::empty(),
    }
}

fn push_color_params(params: &mut Vec<u32>, color: Color, base: u8)
    requires
        base == 30 || base == 40,
    ensures
        final(params)@ == old(params)@ + (if base == 30 {
            fg_params(color)
        } else {
            bg_params(color)
        }),
{
    let ghost wanted = if base == 30 {
        fg_params(color)
    } else {
        bg_params(color)
    };
    match color {
        Color::Default => {
            params.push((base + 9) as u32);
        },
        Color::Idx(i) => {
            if i < 8 {
                params.push((i + base) as u32);
            } else if i < 16 {
                params.push((i + base + 52) as u32);
            } else {
                params.push((base + 8) as u32);
                params.push(5);
                params.push(i as u32);
            }
        },
        Color::Rgb(r, g, b) => {
            params.push((base + 8) as u32);
            params.push(2);
            params.push(r as u32);
            params.push(g as u32);
            params.push(b as u32);
        },
    }
    assert(params@ =~= old(params)@ + wanted);
}

fn push_mode_param(params: &mut Vec<u32>, value: Option<bool>, on: u32, off: u32)
    ensures
        final(params)@ == old(params)@ + mode_part(value, on, off),
{
    match value {
        Some(v) => {
            params.push(if v { on } else { off });
            assert(params@ =~= old(params)@ + mode_param(v, on, off));
        },
        None => {
            assert(params@ =~= old(params)@ + Seq::<u32>::empty());
        },
    }
}

impl Attrs {
    /// The change that leaves every attribute as it is.
    pub open spec fn unchanged() -> Attrs {
        Attrs { fgcolor: None, bgcolor: None, bold: None, italic: None, underline: None, inverse: None }
    }

    /// The change that leaves every attribute as it is.
    pub fn new() -> (a: Self)
        ensures
            a == Attrs::unchanged(),
    {
        Attrs::default()
    }

    /// The same change, which also sets the foreground color.
    pub fn fgcolor(self, fgcolor: Color) -> (a: Self)
        ensures
            a == (Attrs { fgcolor: Some(fgcolor), ..self }),
    {
        let mut a = self;
        a.fgcolor = Some(fgcolor);
        a
    }

    /// The same change, which also sets the background color.
    pub fn bgcolor(self, bgcolor: Color) -> (a: Self)
        ensures
            a == (Attrs { bgcolor: Some(bgcolor), ..self }),
    {
        let mut a = self;
        a.bgcolor = Some(bgcolor);
        a
    }

    /// The same change, which also switches bold text.
    pub fn bold(self, bold: bool) -> (a: Self)
        ensures
            a == (Attrs { bold: Some(bold), ..self }),
    {
        let mut a = self;
        a.bold = Some(bold);
        a
    }

    /// The same change, which also switches italic text.
    pub fn italic(self, italic: bool) -> (a: Self)
        ensures
            a == (Attrs { italic: Some(italic), ..self }),
    {
        let mut a = self;
        a.italic = Some(italic);
        a
    }

    /// The same change, which also switches underlined text.
    pub fn underline(self, underline: bool) -> (a: Self)
        ensures
            a == (Attrs { underline: Some(underline), ..self }),
    {
        let mut a = self;
        a.underline = Some(underline);
        a
    }

    /// The same change, which also switches inverse text.
    pub fn inverse(self, inverse: bool) -> (a: Self)
        ensures
            a == (Attrs { inverse: Some(inverse), ..self }),
    {
        let mut a = self;
        a.inverse = Some(inverse);
        a
    }

    /// The parameters of the sequence: those of the fields that are set, in
    /// the order foreground, background, bold, italic, underline, inverse.
    pub open spec fn params(&self) -> Seq<u32> {
        fg_part(self.fgcolor) + bg_part(self.bgcolor) + mode_part(self.bold, 1, 22) + mode_part(
            self.italic,
            3,
            23,
        ) + mode_part(self.underline, 4, 24) + mode_part(self.inverse, 7, 27)
    }

    /// One sequence `ESC [ ... m` with the parameters of the fields that are
    /// set. With no field set this is nothing at all: a sequence without
    /// parameters would be read as a reset of every attribute, and a change
    /// that sets nothing must leave every attribute as it is.
    pub open spec fn bytes(&self) -> Seq<u8> {
        if self.params().len() == 0 {
            Seq::empty()
        } else {
            csi(self.params(), 0x6d)
        }
    }

    /// Appends the sequence to `buf`.
    pub fn write_buf(&self, buf: &mut Vec<u8>)
        ensures
            final(buf)@ == old(buf)@ + self.bytes(),
    {
        let mut params: Vec<u32> = Vec::new();
        match self.fgcolor {
            Some(c) => {
                push_color_params(&mut params, c, 30);
            },
            None => {},
        }
        assert(params@ =~= fg_part(self.fgcolor));
        let ghost p1 = params@;
        match self.bgcolor {
            Some(c) => {
                push_color_params(&mut params, c, 40);
            },
            None => {},
        }
        assert(params@ =~= p1 + bg_part(self.bgcolor));
        push_mode_param(&mut params, self.bold, 1, 22);
        push_mode_param(&mut params, self.italic, 3, 23);
        push_mode_param(&mut params, self.underline, 4, 24);
        push_mode_param(&mut params, self.inverse, 7, 27);
        if params.len() == 0 {
            assert(buf@ =~= old(buf)@ + self.bytes());
        } else {
            write_csi(buf, &params, 0x6du8);
        }
    }
}

/// A repeated function as text: nothing for a count of zero, the bare
/// function for a count of one, and the count as parameter otherwise.
pub open spec fn repeated(count: u16, function: u8) -> Seq<u8> {
    if count == 0 {
        Seq::empty()
    } else if count == 1 {
        seq![0x1bu8, 0x5b, function]
    } else {
        csi(seq![count as u32], function)
    }
}

fn write_repeated(buf: &mut Vec<u8>, count: u16, function: u8)
    ensures
        final(buf)@ == old(buf)@ + repeated(count, function),
{
    if count == 0 {
        assert(buf@ =~= old(buf)@ + repeated(count, function));
    } else if count == 1 {
        buf.push(ESC);
        buf.push(0x5bu8);
        buf.push(function);
        assert(buf@ =~= old(buf)@ + repeated(count, function));
    } else {
        let mut params: Vec<u32> = Vec::new();
        params.push(count as u32);
        assert(params@ =~= seq![count as u32]);
        write_csi(buf, &params, function);
    }
}

/// Moves the cursor to the right by a number of columns.
#[derive(Debug)]
pub struct MoveRight {
    pub count: u16,
}

impl MoveRight {
    /// The sequence that moves the cursor `count` columns to the right.
    pub fn new(count: u16) -> (m: Self)
        ensures
            m.count == count,
    {
        MoveRight { count }
    }

    /// Nothing for no column, `ESC [ C` for one, `ESC [ n C` for more.
    pub open spec fn bytes(&self) -> Seq<u8> {
        repeated(self.count, 0x43)
    }

    /// Appends the sequence to `buf`.
    pub fn write_buf(&self, buf: &mut Vec<u8>)
        ensures
            final(buf)@ == old(buf)@ + self.bytes(),
    {
        write_repeated(buf, self.count, 0x43u8);
    }
}

impl Default for MoveRight {
    /// One column to the right.
    fn default() -> (m: Self)
        ensures
            m.count == 1,
    {
        MoveRight { count: 1 }
    }
}

/// Erases a number of characters, starting with the one under the cursor.
#[derive(Debug)]
pub struct EraseChar {
    pub count: u16,
}

impl EraseChar {
    /// The sequence that erases `count` characters.
    pub fn new(count: u16) -> (e: Self)
        ensures
            e.count == count,
    {
        EraseChar { count }
    }

    /// Nothing for no character, `ESC [ X` for one, `ESC [ n X` for more.
    pub open spec fn bytes(&self) -> Seq<u8> {
        repeated(self.count, 0x58)
    }

    /// Appends the sequence to `buf`.
    pub fn write_buf(&self, buf: &mut Vec<u8>)
        ensures
            final(buf)@ == old(buf)@ + self.bytes(),
    {
        write_repeated(buf, self.count, 0x58u8);
    }
}

impl Default for EraseChar {
    /// One character.
    fn default() -> (e: Self)
        ensures
            e.count == 1,
    {
        EraseChar { count: 1 }
    }
}

/// Hides or shows the cursor.
#[derive(Debug)]
pub struct HideCursor {
    pub hide: bool,
}

impl Default for HideCursor {
    /// Shows the cursor.
    fn default() -> (h: Self)
        ensures
            !h.hide,
    {
        HideCursor { hide: false }
    }
}

impl HideCursor {
    /// The sequence that hides the cursor if `hide` is set, and shows it
    /// if not.
    pub fn new(hide: bool) -> (h: Self)
        ensures
            h.hide == hide,
    {
        HideCursor { hide }
    }

    /// `ESC [ ? 25 l` to hide the cursor, `ESC [ ? 25 h` to show it.
    pub open spec fn bytes(&self) -> Seq<u8> {
        seq![0x1bu8, 0x5b, 0x3f, 0x32, 0x35, if self.hide { 0x6cu8 } else { 0x68u8 }]
    }

    /// Appends the sequence to `buf`.
    pub fn write_buf(&self, buf: &mut Vec<u8>)
        ensures
            final(buf)@ == old(buf)@ + self.bytes(),
    {
        buf.push(ESC);
        buf.push(0x5bu8);
        buf.push(0x3fu8);
        buf.push(0x32u8);
        buf.push(0x35u8);
        buf.push(if self.hide { 0x6cu8 } else { 0x68u8 });
        assert(buf@ =~= old(buf)@ + self.bytes());
    }
}

} // verus!
