//! The state machine that reads a byte stream and drives the screen.

use vstd::prelude::*;
use crate::grid::min_int;
use crate::screen::Screen;
use crate::screen::ScreenView;
use crate::screen::is_title;

verus! {

/// Where the parser stands between two bytes.
#[derive(Clone, Copy, Debug, PartialEq, Eq, Structural)]
pub enum State {
    /// Plain text.
    Ground,
    /// An escape character was seen.
    Escape,
    /// An escape sequence with intermediate bytes, which is passed over.
    EscapeIntermediate,
    /// Inside a control sequence, reading parameters.
    Csi,
    /// Inside a control sequence that will not be performed.
    CsiIgnore,
    /// Inside an operating-system command, reading its text.
    Osc,
    /// An escape character was seen inside an operating-system command.
    OscEscape,
    /// Inside a string that is passed over.
    Ignore,
    /// An escape character was seen inside a string that is passed over.
    IgnoreEscape,
}

/// Whether a number is a Unicode scalar value.
pub open spec fn is_scalar(v: u32) -> bool {
    v < 0xd800 || (0xe000 <= v && v <= 0x10ffff)
}

/// The largest number of parameters that a control sequence can carry
/// before its last one.
pub const MAX_PARAMS: usize = 16;

/// `char::from_u32` gives the character with the given number, if that
/// number is a Unicode scalar value.
pub assume_specification[ char::from_u32 ](v: u32) -> (c: Option<char>)
    ensures
        match c {
            Some(ch) => ch as u32 == v && is_scalar(v),
            None => !is_scalar(v),
        },
;

/// What a parser holds, as a mathematical value.
pub struct ParserView {
    /// The screen that the parser drives.
    pub screen: ScreenView,
    /// Where the parser stands.
    pub state: State,
    /// Whether the control sequence being read has the marker `?`.
    pub private: bool,
    /// The parameters of the control sequence that are complete.
    pub params: Seq<u16>,
    /// The parameter that is being read.
    pub current: u16,
    /// Whether any parameter byte of the control sequence was seen.
    pub started: bool,
    /// The text of the operating-system command read so far.
    pub osc: Seq<u8>,
    /// How many bytes of a character of several bytes are still to come.
    pub utf8_need: u8,
    /// The bits of that character read so far.
    pub utf8_acc: u32,
    /// The smallest number that may be written with as many bytes.
    pub utf8_min: u32,
}

impl ParserView {
    /// A parser in front of a blank screen.
    pub open spec fn new(rows: nat, cols: nat, scrollback_len: nat) -> ParserView {
        ParserView {
            screen: ScreenView::blank(rows, cols, scrollback_len),
            state: State::Ground,
            private: false,
            params: Seq::empty(),
            current: 0,
            started: false,
            osc: Seq::empty(),
            utf8_need: 0,
            utf8_acc: 0,
            utf8_min: 0,
        }
    }

    /// The invariant of a parser: the screen is well-formed, at most
    /// seventeen parameters are kept, the text of a command holds no
    /// control character, and the bits of a character in progress are few
    /// enough to take the bytes still to come.
    pub open spec fn wf(self) -> bool {
        &&& self.screen.wf()
        &&& self.params.len() <= MAX_PARAMS + 1
        &&& (self.state == State::Csi ==> self.params.len() <= MAX_PARAMS)
        &&& is_title(self.osc)
        &&& self.utf8_need <= 3
        &&& (self.utf8_need > 0 ==> self.utf8_min >= 0x80)
        &&& (self.utf8_need == 3 ==> self.utf8_acc <= 0x7)
        &&& (self.utf8_need == 2 ==> self.utf8_acc <= 0x1ff)
        &&& (self.utf8_need == 1 ==> self.utf8_acc <= 0x7fff)
    }

    /// Whether the parser stands between two sequences, with no byte of an
    /// unfinished character behind it.
    pub open spec fn at_rest(self) -> bool {
        self.state == State::Ground && self.utf8_need == 0
    }

    /// The parser in front of another screen.
    pub open spec fn with_screen(self, screen: ScreenView) -> ParserView {
        ParserView { screen, ..self }
    }

    /// The parser in another state.
    pub open spec fn to(self, state: State) -> ParserView {
        ParserView { state, ..self }
    }

    /// The parser after an escape character: what was read of a character
    /// of several bytes is dropped.
    pub open spec fn enter_escape(self) -> ParserView {
        ParserView { state: State::Escape, utf8_need: 0, ..self }
    }

    /// The parser at the start of a control sequence.
    pub open spec fn enter_csi(self) -> ParserView {
        ParserView {
            state: State::Csi,
            private: false,
            params: Seq::empty(),
            current: 0,
            started: false,
            ..self
        }
    }

    /// The parser at the start of an operating-system command.
    pub open spec fn enter_osc(self) -> ParserView {
        ParserView { state: State::Osc, osc: Seq::empty(), ..self }
    }

    /// A byte arrives that is not part of a character in progress. Control
    /// characters act, printable ASCII is text, the first byte of a longer
    /// character starts one, and every other byte is passed over.
    pub open spec fn fresh(self, b: u8) -> ParserView {
        let idle = ParserView { utf8_need: 0, ..self };
        if b == 0x1b {
            idle.enter_escape()
        } else if b < 0x20 {
            idle.with_screen(self.screen.control(b))
        } else if b < 0x7f {
            idle.with_screen(self.screen.text(b as char))
        } else if 0xc2 <= b <= 0xdf {
            ParserView { utf8_need: 1, utf8_acc: (b - 0xc0) as u32, utf8_min: 0x80, ..self }
        } else if 0xe0 <= b <= 0xef {
            ParserView { utf8_need: 2, utf8_acc: (b - 0xe0) as u32, utf8_min: 0x800, ..self }
        } else if 0xf0 <= b <= 0xf4 {
            ParserView { utf8_need: 3, utf8_acc: (b - 0xf0) as u32, utf8_min: 0x10000, ..self }
        } else {
            idle
        }
    }

    /// A continuation byte arrives for the character in progress. With the
    /// last one the character is text, unless its number is no scalar value
    /// or could have been written with fewer bytes: then it is dropped.
    pub open spec fn continued(self, b: u8) -> ParserView {
        let acc = (self.utf8_acc * 64 + (b - 0x80)) as u32;
        if self.utf8_need > 1 {
            ParserView { utf8_need: (self.utf8_need - 1) as u8, utf8_acc: acc, ..self }
        } else {
            let idle = ParserView { utf8_need: 0, ..self };
            if acc >= self.utf8_min && is_scalar(acc) {
                idle.with_screen(self.screen.text(acc as char))
            } else {
                idle
            }
        }
    }

    /// A byte arrives in plain text.
    pub open spec fn ground(self, b: u8) -> ParserView {
        if self.utf8_need > 0 && 0x80 <= b <= 0xbf {
            self.continued(b)
        } else {
            self.fresh(b)
        }
    }

    /// A byte arrives behind an escape character.
    pub open spec fn escape(self, b: u8) -> ParserView {
        if b == 0x1b {
            self.enter_escape()
        } else if b == 0x18 || b == 0x1a {
            self.to(State::Ground)
        } else if b < 0x20 {
            self.with_screen(self.screen.control(b)).to(State::Escape)
        } else if b < 0x30 {
            self.to(State::EscapeIntermediate)
        } else if b == 0x5b {
            self.enter_csi()
        } else if b == 0x5d {
            self.enter_osc()
        } else if b == 0x50 || b == 0x58 || b == 0x5e || b == 0x5f {
            self.to(State::Ignore)
        } else if b < 0x7f {
            self.with_screen(self.screen.escape_dispatch(b)).to(State::Ground)
        } else if b == 0x7f {
            self.to(State::Escape)
        } else {
            self.to(State::Ground)
        }
    }

    /// A byte arrives inside an escape sequence that is passed over.
    pub open spec fn escape_intermediate(self, b: u8) -> ParserView {
        if b == 0x1b {
            self.enter_escape()
        } else if b == 0x18 || b == 0x1a {
            self.to(State::Ground)
        } else if b < 0x20 {
            self.with_screen(self.screen.control(b))
        } else if b < 0x30 || b == 0x7f {
            self
        } else {
            self.to(State::Ground)
        }
    }

    /// The parameters of a control sequence when its function arrives.
    pub open spec fn final_params(self) -> Seq<u16> {
        if self.started {
            self.params.push(self.current)
        } else {
            self.params
        }
    }

    /// A byte arrives inside a control sequence.
    pub open spec fn csi(self, b: u8) -> ParserView {
        if b == 0x1b {
            self.enter_escape()
        } else if b == 0x18 || b == 0x1a {
            self.to(State::Ground)
        } else if b < 0x20 {
            self.with_screen(self.screen.control(b))
        } else if b < 0x30 {
            self.to(State::CsiIgnore)
        } else if b < 0x3a {
            ParserView {
                current: min_int(self.current * 10 + (b - 0x30), 0xffff) as u16,
                started: true,
                ..self
            }
        } else if b == 0x3b {
            if self.params.len() >= MAX_PARAMS {
                self.to(State::CsiIgnore)
            } else {
                ParserView {
                    params: self.params.push(self.current),
                    current: 0,
                    started: true,
                    ..self
                }
            }
        } else if b == 0x3f {
            if !self.started && !self.private {
                ParserView { private: true, ..self }
            } else {
                self.to(State::CsiIgnore)
            }
        } else if b < 0x40 {
            self.to(State::CsiIgnore)
        } else if b < 0x7f {
            ParserView {
                screen: self.screen.csi_dispatch(self.private, self.final_params(), b),
                state: State::Ground,
                params: self.final_params(),
                ..self
            }
        } else {
            self
        }
    }

    /// A byte arrives inside a control sequence that will not be performed.
    pub open spec fn csi_ignore(self, b: u8) -> ParserView {
        if b == 0x1b {
            self.enter_escape()
        } else if b == 0x18 || b == 0x1a {
            self.to(State::Ground)
        } else if b < 0x20 {
            self.with_screen(self.screen.control(b))
        } else if 0x40 <= b < 0x7f {
            self.to(State::Ground)
        } else {
            self
        }
    }

    /// A byte arrives inside an operating-system command. The bell ends the
    /// command and performs it.
    pub open spec fn osc_byte(self, b: u8) -> ParserView {
        if b == 0x07 {
            self.with_screen(self.screen.osc_dispatch(self.osc)).to(State::Ground)
        } else if b == 0x1b {
            self.to(State::OscEscape)
        } else if b == 0x18 || b == 0x1a {
            self.to(State::Ground)
        } else if b < 0x20 {
            self
        } else {
            ParserView { osc: self.osc.push(b), ..self }
        }
    }

    /// A byte arrives behind an escape character inside an operating-system
    /// command. A backslash ends the command and performs it; anything else
    /// drops the command and is read as the byte behind an escape character.
    pub open spec fn osc_escape(self, b: u8) -> ParserView {
        if b == 0x5c {
            self.with_screen(self.screen.osc_dispatch(self.osc)).to(State::Ground)
        } else {
            self.escape(b)
        }
    }

    /// A byte arrives inside a string that is passed over.
    pub open spec fn ignore(self, b: u8) -> ParserView {
        if b == 0x07 || b == 0x18 || b == 0x1a {
            self.to(State::Ground)
        } else if b == 0x1b {
            self.to(State::IgnoreEscape)
        } else {
            self
        }
    }

    /// A byte arrives behind an escape character inside a string that is
    /// passed over.
    pub open spec fn ignore_escape(self, b: u8) -> ParserView {
        if b == 0x5c {
            self.to(State::Ground)
        } else {
            self.escape(b)
        }
    }

    /// The parser after one more byte.
    #[verifier::opaque]
    pub open spec fn step(self, b: u8) -> ParserView {
        match self.state {
            State::Ground => self.ground(b),
            State::Escape => self.escape(b),
            State::EscapeIntermediate => self.escape_intermediate(b),
            State::Csi => self.csi(b),
            State::CsiIgnore => self.csi_ignore(b),
            State::Osc => self.osc_byte(b),
            State::OscEscape => self.osc_escape(b),
            State::Ignore => self.ignore(b),
            State::IgnoreEscape => self.ignore_escape(b),
        }
    }

    /// The parser after a run of bytes, taken one by one from the left.
    #[verifier::opaque]
    pub open spec fn feed(self, bytes: Seq<u8>) -> ParserView
        decreases bytes.len(),
    {
        if bytes.len() == 0 {
            self
        } else {
            self.feed(bytes.drop_last()).step(bytes.last())
        }
    }

    /// A new parser is well-formed and at rest.
    pub proof fn lemma_new_wf(rows: nat, cols: nat, scrollback_len: nat)
        requires
            1 <= rows <= 0xffff,
            2 <= cols <= 0xffff,
        ensures
            Self::new(rows, cols, scrollback_len).wf(),
            Self::new(rows, cols, scrollback_len).at_rest(),
    {
        ScreenView::lemma_blank_wf(rows, cols, scrollback_len);
    }

    /// A byte in plain text keeps the invariant, the size of the screen and
    /// the bells that have rung.
    pub proof fn lemma_ground_wf(self, b: u8)
        requires
            self.wf(),
        ensures
            self.ground(b).screen.bells >= self.screen.bells,
            self.ground(b).screen.grid.sized_as(self.screen.grid),
            self.ground(b).wf(),
    {
        if self.utf8_need > 0 && 0x80 <= b <= 0xbf {
            let acc = (self.utf8_acc * 64 + (b - 0x80)) as u32;
            if self.utf8_need == 1 && acc >= self.utf8_min && is_scalar(acc) {
                self.screen.lemma_text_wf(acc as char);
            }
        } else {
            self.screen.lemma_control_wf(b);
            if 0x20 <= b < 0x7f {
                self.screen.lemma_text_wf(b as char);
            }
        }
    }

    /// A byte behind an escape character keeps the invariant, the size of
    /// the screen and the bells that have rung.
    pub proof fn lemma_escape_wf(self, b: u8)
        requires
            self.wf(),
        ensures
            self.escape(b).screen.bells >= self.screen.bells,
            self.escape(b).screen.grid.sized_as(self.screen.grid),
            self.escape(b).wf(),
    {
        self.screen.lemma_control_wf(b);
        self.screen.lemma_escape_dispatch_wf(b);
    }

    /// Every byte leaves the invariant of the parser in place.
    pub proof fn lemma_step_wf(self, b: u8)
        requires
            self.wf(),
        ensures
            self.step(b).screen.bells >= self.screen.bells,
            self.step(b).screen.grid.sized_as(self.screen.grid),
            self.step(b).wf(),
    {
        reveal(ParserView::step);
        self.lemma_ground_wf(b);
        self.lemma_escape_wf(b);
        self.screen.lemma_control_wf(b);
        self.screen.lemma_csi_dispatch_wf(self.private, self.final_params(), b);
        self.screen.lemma_osc_dispatch_wf(self.osc);
    }

    /// Every run of bytes leaves the invariant of the parser in place.
    pub proof fn lemma_feed_wf(self, bytes: Seq<u8>)
        requires
            self.wf(),
        ensures
            self.feed(bytes).screen.bells >= self.screen.bells,
            self.feed(bytes).screen.grid.sized_as(self.screen.grid),
            self.feed(bytes).wf(),
        decreases bytes.len(),
    {
        reveal_with_fuel(ParserView::feed, 2);
        if bytes.len() > 0 {
            self.lemma_feed_wf(bytes.drop_last());
            self.feed(bytes.drop_last()).lemma_step_wf(bytes.last());
        }
    }

    /// Feeding two runs of bytes one after the other is feeding them as
    /// one run.
    pub proof fn lemma_feed_concat(self, first: Seq<u8>, second: Seq<u8>)
        ensures
            self.feed(first + second) == self.feed(first).feed(second),
        decreases second.len(),
    {
        reveal_with_fuel(ParserView::feed, 2);
        if second.len() == 0 {
            assert(first + second =~= first);
        } else {
            assert((first + second).drop_last() =~= first + second.drop_last());
            self.lemma_feed_concat(first, second.drop_last());
        }
    }
}


/// Reads a byte stream and keeps the screen that it describes.
#[derive(Debug)]
pub struct Parser {
    screen: Screen,
    state: State,
    private: bool,
    params: Vec<u16>,
    current: u16,
    started: bool,
    osc: Vec<u8>,
    utf8_need: u8,
    utf8_acc: u32,
    utf8_min: u32,
}

impl View for Parser {
    type V = ParserView;

    closed spec fn view(&self) -> ParserView {
        ParserView {
            screen: self.screen@,
            state: self.state,
            private: self.private,
            params: self.params@,
            current: self.current,
            started: self.started,
            osc: self.osc@,
            utf8_need: self.utf8_need,
            utf8_acc: self.utf8_acc,
            utf8_min: self.utf8_min,
        }
    }
}

impl Default for Parser {
    /// A parser for a terminal of 24 rows and 80 columns that keeps no
    /// history.
    fn default() -> (parser: Self)
        ensures
            parser@ == ParserView::new(24, 80, 0),
            parser@.wf(),
    {
        Parser::new(24, 80, 0)
    }
}

impl Parser {
    /// Creates a new terminal parser of the given size and with the given
    /// amount of scrollback. A size of no rows is taken as one row, and one
    /// of fewer than two columns as two columns.
    pub fn new(rows: u16, cols: u16, scrollback_len: usize) -> (parser: Self)
        ensures
            parser@ == ParserView::new(
                crate::grid::max_int(rows as int, 1) as nat,
                crate::grid::max_int(cols as int, 2) as nat,
                scrollback_len as nat,
            ),
            parser@.wf(),
    {
        Parser {
            screen: Screen::new(rows, cols, scrollback_len),
            state: State::Ground,
            private: false,
            params: Vec::new(),
            current: 0,
            started: false,
            osc: Vec::new(),
            utf8_need: 0,
            utf8_acc: 0,
            utf8_min: 0,
        }
    }

    /// Resizes the terminal, as `Screen::set_size` does. What the parser
    /// has read of an unfinished sequence stays.
    pub fn set_size(&mut self, rows: u16, cols: u16)
        requires
            old(self)@.wf(),
        ensures
            final(self)@ == old(self)@.with_screen(
                old(self)@.screen.resized(
                    crate::grid::max_int(rows as int, 1) as nat,
                    crate::grid::max_int(cols as int, 2) as nat,
                ),
            ),
            final(self)@.wf(),
    {
        self.screen.set_size(rows, cols);
    }

    /// Returns a reference to the screen that the parser drives.
    pub fn screen(&self) -> (screen: &Screen)
        ensures
            screen@ == self@.screen,
    {
        &self.screen
    }

    fn enter_escape(&mut self)
        ensures
            final(self)@ == old(self)@.enter_escape(),
    {
        self.state = State::Escape;
        self.utf8_need = 0;
    }

    fn enter_csi(&mut self)
        ensures
            final(self)@ == old(self)@.enter_csi(),
    {
        self.state = State::Csi;
        self.private = false;
        self.params = Vec::new();
        self.current = 0;
        self.started = false;
    }

    fn continued(&mut self, b: u8)
        requires
            old(self)@.wf(),
            old(self)@.utf8_need > 0,
            0x80 <= b <= 0xbf,
        ensures
            final(self)@ == old(self)@.continued(b),
    {
        let acc: u32 = self.utf8_acc * 64 + (b - 0x80) as u32;
        if self.utf8_need > 1 {
            self.utf8_need = self.utf8_need - 1;
            self.utf8_acc = acc;
        } else {
            self.utf8_need = 0;
            if acc >= self.utf8_min {
                match char::from_u32(acc) {
                    Some(c) => {
                        proof {
                            vstd::utf8::char_u32_cast(c, acc);
                        }
                        self.screen.text(c);
                    },
                    None => {},
                }
            }
        }
    }

    fn fresh(&mut self, b: u8)
        requires
            old(self)@.wf(),
        ensures
            final(self)@ == old(self)@.fresh(b),
    {
        if b == 0x1b {
            self.enter_escape();
        } else if b < 0x20 {
            self.utf8_need = 0;
            self.screen.control(b);
        } else if b < 0x7f {
            self.utf8_need = 0;
            self.screen.text(b as char);
        } else if 0xc2 <= b && b <= 0xdf {
            self.utf8_need = 1;
            self.utf8_acc = (b - 0xc0) as u32;
            self.utf8_min = 0x80;
        } else if 0xe0 <= b && b <= 0xef {
            self.utf8_need = 2;
            self.utf8_acc = (b - 0xe0) as u32;
            self.utf8_min = 0x800;
        } else if 0xf0 <= b && b <= 0xf4 {
            self.utf8_need = 3;
            self.utf8_acc = (b - 0xf0) as u32;
            self.utf8_min = 0x10000;
        } else {
            self.utf8_need = 0;
        }
    }

    fn ground(&mut self, b: u8)
        requires
            old(self)@.wf(),
        ensures
            final(self)@ == old(self)@.ground(b),
    {
        if self.utf8_need > 0 && 0x80 <= b && b <= 0xbf {
            self.continued(b);
        } else {
            self.fresh(b);
        }
    }

    fn escape(&mut self, b: u8)
        requires
            old(self)@.wf(),
        ensures
            final(self)@ == old(self)@.escape(b),
    {
        if b == 0x1b {
            self.enter_escape();
        } else if b == 0x18 || b == 0x1a {
            self.state = State::Ground;
        } else if b < 0x20 {
            self.screen.control(b);
            self.state = State::Escape;
        } else if b < 0x30 {
            self.state = State::EscapeIntermediate;
        } else if b == 0x5b {
            self.enter_csi();
        } else if b == 0x5d {
            self.state = State::Osc;
            self.osc = Vec::new();
        } else if b == 0x50 || b == 0x58 || b == 0x5e || b == 0x5f {
            self.state = State::Ignore;
        } else if b < 0x7f {
            self.screen.escape_dispatch(b);
            self.state = State::Ground;
        } else if b == 0x7f {
            self.state = State::Escape;
        } else {
            self.state = State::Ground;
        }
    }

    fn escape_intermediate(&mut self, b: u8)
        requires
            old(self)@.wf(),
        ensures
            final(self)@ == old(self)@.escape_intermediate(b),
    {
        if b == 0x1b {
            self.enter_escape();
        } else if b == 0x18 || b == 0x1a {
            self.state = State::Ground;
        } else if b < 0x20 {
            self.screen.control(b);
        } else if b < 0x30 || b == 0x7f {
        } else {
            self.state = State::Ground;
        }
    }

    fn csi_param(&mut self, b: u8)
        requires
            old(self)@.wf(),
            0x30 <= b < 0x40,
        ensures
            final(self)@ == old(self)@.csi(b),
    {
        if b < 0x3a {
            let next: u32 = self.current as u32 * 10 + (b - 0x30) as u32;
            self.current = if next > 0xffff { 0xffff } else { next as u16 };
            self.started = true;
        } else if b == 0x3b {
            if self.params.len() >= MAX_PARAMS {
                self.state = State::CsiIgnore;
            } else {
                self.params.push(self.current);
                self.current = 0;
                self.started = true;
            }
        } else if b == 0x3f {
            if !self.started && !self.private {
                self.private = true;
            } else {
                self.state = State::CsiIgnore;
            }
        } else {
            self.state = State::CsiIgnore;
        }
    }

    fn csi(&mut self, b: u8)
        requires
            old(self)@.wf(),
        ensures
            final(self)@ == old(self)@.csi(b),
    {
        if b == 0x1b {
            self.enter_escape();
        } else if b == 0x18 || b == 0x1a {
            self.state = State::Ground;
        } else if b < 0x20 {
            self.screen.control(b);
        } else if b < 0x30 {
            self.state = State::CsiIgnore;
        } else if b < 0x40 {
            self.csi_param(b);
        } else if b < 0x7f {
            if self.started {
                self.params.push(self.current);
            }
            self.screen.csi_dispatch(self.private, &self.params, b);
            self.state = State::Ground;
        }
    }

    fn csi_ignore(&mut self, b: u8)
        requires
            old(self)@.wf(),
        ensures
            final(self)@ == old(self)@.csi_ignore(b),
    {
        if b == 0x1b {
            self.enter_escape();
        } else if b == 0x18 || b == 0x1a {
            self.state = State::Ground;
        } else if b < 0x20 {
            self.screen.control(b);
        } else if 0x40 <= b && b < 0x7f {
            self.state = State::Ground;
        }
    }

    fn osc_end(&mut self)
        requires
            old(self)@.wf(),
        ensures
            final(self)@ == old(self)@.with_screen(
                old(self)@.screen.osc_dispatch(old(self)@.osc),
            ).to(State::Ground),
    {
        self.screen.osc_dispatch(&self.osc);
        self.state = State::Ground;
    }

    fn osc_byte(&mut self, b: u8)
        requires
            old(self)@.wf(),
        ensures
            final(self)@ == old(self)@.osc_byte(b),
    {
        if b == 0x07 {
            self.osc_end();
        } else if b == 0x1b {
            self.state = State::OscEscape;
        } else if b == 0x18 || b == 0x1a {
            self.state = State::Ground;
        } else if b < 0x20 {
        } else {
            self.osc.push(b);
        }
    }

    fn ignore(&mut self, b: u8)
        ensures
            final(self)@ == old(self)@.ignore(b),
    {
        if b == 0x07 || b == 0x18 || b == 0x1a {
            self.state = State::Ground;
        } else if b == 0x1b {
            self.state = State::IgnoreEscape;
        }
    }

    /// Takes one byte.
    pub fn step(&mut self, b: u8)
        requires
            old(self)@.wf(),
        ensures
            final(self)@ == old(self)@.step(b),
            final(self)@.wf(),
    {
        proof {
            reveal(ParserView::step);
        }
        proof {
            old(self)@.lemma_step_wf(b);
        }
        match self.state {
            State::Ground => self.ground(b),
            State::Escape => self.escape(b),
            State::EscapeIntermediate => self.escape_intermediate(b),
            State::Csi => self.csi(b),
            State::CsiIgnore => self.csi_ignore(b),
            State::Osc => self.osc_byte(b),
            State::OscEscape => {
                if b == 0x5c {
                    self.osc_end();
                } else {
                    self.escape(b);
                }
            },
            State::Ignore => self.ignore(b),
            State::IgnoreEscape => {
                if b == 0x5c {
                    self.state = State::Ground;
                } else {
                    self.escape(b);
                }
            },
        }
    }

    /// Processes the contents of the given byte string, and updates the
    /// screen that the parser drives. The bytes may end in the middle of a
    /// sequence or of a character: the next call goes on from there.
    pub fn process(&mut self, bytes: &[u8])
        requires
            old(self)@.wf(),
        ensures
            final(self)@ == old(self)@.feed(bytes@),
            final(self)@.wf(),
    {
        let mut i: usize = 0;
        proof {
            reveal_with_fuel(ParserView::feed, 2);
        }
        while i < bytes.len()
            invariant
                i <= bytes.len(),
                self@.wf(),
                self@ == old(self)@.feed(bytes@.take(i as int)),
            decreases bytes.len() - i,
        {
            proof {
                reveal_with_fuel(ParserView::feed, 2);
            }
            assert(bytes@.take(i + 1).drop_last() =~= bytes@.take(i as int));
            self.step(bytes[i]);
            i += 1;
        }
        assert(bytes@.take(i as int) =~= bytes@);
    }
}

} // verus!
