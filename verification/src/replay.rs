//! What the parser does with the sequences that the library writes.

use vstd::prelude::*;
use crate::format::keypad_mode;
use crate::format::private_mode;
use crate::grid::min_int;
use crate::parser::MAX_PARAMS;
use crate::parser::ParserView;
use crate::parser::State;
use crate::parser::is_scalar;
use crate::row::is_text_char;
use crate::screen::ScreenView;
use crate::screen::is_title;
use crate::term::csi;
use crate::term::decimal;
use crate::term::params_text;
use crate::utf8::utf8;
use crate::utf8::utf8_text;

verus! {

/// The parameters as the parser keeps them: a number above 65535 is taken
/// as 65535.
pub open spec fn clamped(params: Seq<u32>) -> Seq<u16> {
    Seq::new(params.len(), |i: int| min_int(params[i] as int, 0xffff) as u16)
}

impl ParserView {
    /// Feeding no byte changes nothing.
    pub proof fn lemma_feed_none(self)
        ensures
            self.feed(Seq::empty()) == self,
    {
        reveal_with_fuel(ParserView::feed, 2);
    }

    /// Feeding one byte is one step.
    pub proof fn lemma_feed_one(self, b: u8)
        ensures
            self.feed(seq![b]) == self.step(b),
    {
        reveal_with_fuel(ParserView::feed, 2);
        assert(seq![b].drop_last() =~= Seq::<u8>::empty());
    }

    /// Feeding a run of bytes and one more.
    pub proof fn lemma_feed_push(self, bytes: Seq<u8>, b: u8)
        ensures
            self.feed(bytes.push(b)) == self.feed(bytes).step(b),
            self.feed(bytes + seq![b]) == self.feed(bytes).step(b),
    {
        reveal_with_fuel(ParserView::feed, 2);
        assert(bytes.push(b).drop_last() =~= bytes);
        assert(bytes + seq![b] =~= bytes.push(b));
    }

    /// Feeding two bytes is two steps.
    pub proof fn lemma_feed_two(self, a: u8, b: u8)
        ensures
            self.feed(seq![a, b]) == self.step(a).step(b),
    {
        self.lemma_feed_one(a);
        self.lemma_feed_push(seq![a], b);
        assert(seq![a].push(b) =~= seq![a, b]);
    }

    /// Feeding three bytes is three steps.
    pub proof fn lemma_feed_three(self, a: u8, b: u8, c: u8)
        ensures
            self.feed(seq![a, b, c]) == self.step(a).step(b).step(c),
    {
        self.lemma_feed_two(a, b);
        self.lemma_feed_push(seq![a, b], c);
        assert(seq![a, b].push(c) =~= seq![a, b, c]);
    }

    /// The digits of a number, read inside a control sequence at the start
    /// of a parameter, give that number, or 65535 for a larger one.
    pub proof fn lemma_feed_decimal(self, n: nat)
        requires
            self.state == State::Csi,
            self.current == 0,
        ensures
            self.feed(decimal(n)) == (ParserView {
                current: min_int(n as int, 0xffff) as u16,
                started: true,
                ..self
            }),
        decreases n,
    {
        reveal(ParserView::step);
        if n < 10 {
            self.lemma_feed_one((0x30 + n) as u8);
        } else {
            self.lemma_feed_decimal(n / 10);
            self.lemma_feed_push(decimal(n / 10), (0x30 + n % 10) as u8);
        }
    }

    /// The parameters of a control sequence, read at its start, are kept
    /// as they were written.
    pub proof fn lemma_feed_params(self, params: Seq<u32>)
        requires
            self.state == State::Csi,
            self.current == 0,
            self.params.len() == 0,
            !self.started,
            0 < params.len() <= MAX_PARAMS,
        ensures
            self.feed(params_text(params)) == (ParserView {
                params: clamped(params).drop_last(),
                current: clamped(params).last(),
                started: true,
                ..self
            }),
        decreases params.len(),
    {
        reveal(ParserView::step);
        if params.len() == 1 {
            self.lemma_feed_decimal(params[0] as nat);
            assert(clamped(params).drop_last() =~= self.params);
        } else {
            let front = params.drop_last();
            self.lemma_feed_params(front);
            let after_front = self.feed(params_text(front));
            let after_semicolon = after_front.step(0x3b);
            assert(after_front.params.push(after_front.current) =~= clamped(params).drop_last());
            self.lemma_feed_push(params_text(front), 0x3b);
            after_semicolon.lemma_feed_decimal(params.last() as nat);
            self.lemma_feed_concat(params_text(front) + seq![0x3bu8], decimal(params.last() as nat));
        }
    }

    /// The two bytes that start a control sequence take a parser at rest
    /// to the start of the parameters.
    pub proof fn lemma_feed_csi_start(self)
        requires
            self.at_rest(),
        ensures
            self.feed(seq![0x1bu8, 0x5bu8]) == self.enter_csi(),
    {
        reveal(ParserView::step);
        self.lemma_feed_two(0x1b, 0x5b);
    }

    /// The function byte ends a control sequence and performs it.
    pub proof fn lemma_step_csi_function(self, function: u8)
        requires
            self.state == State::Csi,
            0x40 <= function < 0x7f,
        ensures
            self.step(function) == (ParserView {
                screen: self.screen.csi_dispatch(self.private, self.final_params(), function),
                state: State::Ground,
                params: self.final_params(),
                ..self
            }),
    {
        reveal(ParserView::step);
    }

    /// A control sequence without marker, read by a parser at rest, is
    /// performed with its parameters, and the parser is at rest again.
    pub proof fn lemma_feed_csi(self, params: Seq<u32>, function: u8)
        requires
            self.at_rest(),
            params.len() <= MAX_PARAMS,
            0x40 <= function < 0x7f,
        ensures
            self.feed(csi(params, function)).at_rest(),
            self.feed(csi(params, function)).screen == self.screen.csi_dispatch(
                false,
                clamped(params),
                function,
            ),
    {
        let head = seq![0x1bu8, 0x5bu8];
        let entered = self.enter_csi();
        self.lemma_feed_csi_start();
        let read = entered.feed(params_text(params));
        self.lemma_feed_concat(head, params_text(params));
        self.lemma_feed_push(head + params_text(params), function);
        if params.len() == 0 {
            assert(clamped(params) =~= Seq::<u16>::empty());
            assert(read == entered);
            assert(read.final_params() =~= clamped(params));
        } else {
            entered.lemma_feed_params(params);
            assert(clamped(params).drop_last().push(clamped(params).last()) =~= clamped(params));
        }
        read.lemma_step_csi_function(function);
    }

    /// The three bytes that start a control sequence with the marker `?`.
    pub proof fn lemma_feed_private_start(self)
        requires
            self.at_rest(),
        ensures
            self.feed(seq![0x1bu8, 0x5bu8, 0x3fu8]) == (ParserView {
                private: true,
                ..self.enter_csi()
            }),
    {
        reveal(ParserView::step);
        self.lemma_feed_three(0x1b, 0x5b, 0x3f);
    }

    /// The sequence that switches one private mode is performed as such.
    pub proof fn lemma_feed_private_mode(self, mode: u16, on: bool)
        requires
            self.at_rest(),
        ensures
            self.feed(private_mode(mode, on)).at_rest(),
            self.feed(private_mode(mode, on)).screen == self.screen.csi_dispatch(
                true,
                seq![mode],
                if on {
                    0x68u8
                } else {
                    0x6cu8
                },
            ),
    {
        reveal(private_mode);
        let head = seq![0x1bu8, 0x5bu8, 0x3fu8];
        let function = if on {
            0x68u8
        } else {
            0x6cu8
        };
        self.lemma_feed_private_start();
        let entered = self.feed(head);
        entered.lemma_feed_decimal(mode as nat);
        let read = entered.feed(decimal(mode as nat));
        self.lemma_feed_concat(head, decimal(mode as nat));
        self.lemma_feed_push(head + decimal(mode as nat), function);
        assert(read.final_params() =~= seq![mode]);
        read.lemma_step_csi_function(function);
    }

    /// The sequence that switches the keypad mode is performed as such.
    pub proof fn lemma_feed_keypad_mode(self, on: bool)
        requires
            self.at_rest(),
        ensures
            self.feed(keypad_mode(on)).at_rest(),
            self.feed(keypad_mode(on)).screen == self.screen.escape_dispatch(
                if on {
                    0x3du8
                } else {
                    0x3eu8
                },
            ),
    {
        reveal(ParserView::step);
        reveal(keypad_mode);
        self.lemma_feed_two(0x1b, if on { 0x3du8 } else { 0x3eu8 });
    }

    /// A control character other than escape, read by a parser at rest, is
    /// performed.
    pub proof fn lemma_feed_control(self, b: u8)
        requires
            self.at_rest(),
            b < 0x20,
            b != 0x1b,
        ensures
            self.feed(seq![b]).at_rest(),
            self.feed(seq![b]).screen == self.screen.control(b),
    {
        reveal(ParserView::step);
        self.lemma_feed_one(b);
    }

    /// The bytes of a character that can stand in a cell, read by a parser
    /// at rest, are taken as that character.
    pub proof fn lemma_feed_char(self, c: char)
        requires
            self.at_rest(),
            is_text_char(c),
        ensures
            self.feed(utf8(c)).at_rest(),
            self.feed(utf8(c)).screen == self.screen.text(c),
    {
        let v = c as u32;
        vstd::utf8::char_u32_cast(c, v);
        if v < 0x80 {
            self.lemma_feed_char_1(c);
        } else if v < 0x800 {
            self.lemma_feed_char_2(c);
        } else if v < 0x10000 {
            self.lemma_feed_char_3(c);
        } else {
            self.lemma_feed_char_4(c);
        }
    }

    proof fn lemma_feed_char_1(self, c: char)
        requires
            self.at_rest(),
            is_text_char(c),
            (c as u32) < 0x80,
        ensures
            self.feed(utf8(c)).at_rest(),
            self.feed(utf8(c)).screen == self.screen.text(c),
    {
        reveal(ParserView::step);
        let v = c as u32;
        let b = v as u8;
        vstd::utf8::char_u32_cast(c, v);
        assert((b as char) == c) by {
            assert(b as u32 == v);
            assert((b as char) == (v as char));
        }
        self.lemma_feed_one(b);
    }

    proof fn lemma_feed_char_2(self, c: char)
        requires
            self.at_rest(),
            0x80 <= (c as u32) < 0x800,
        ensures
            self.feed(utf8(c)).at_rest(),
            self.feed(utf8(c)).screen == self.screen.text(c),
    {
        reveal(ParserView::step);
        let v = c as u32;
        vstd::utf8::char_u32_cast(c, v);
        let b0 = (0xc0 + v / 0x40) as u8;
        let b1 = (0x80 + v % 0x40) as u8;
        self.lemma_feed_two(b0, b1);
        let s1 = self.step(b0);
        assert(s1.utf8_need == 1 && s1.utf8_acc == v / 0x40 && s1.utf8_min == 0x80);
        assert((s1.utf8_acc * 64 + (b1 - 0x80)) as u32 == v);
    }

    proof fn lemma_feed_char_3(self, c: char)
        requires
            self.at_rest(),
            0x800 <= (c as u32) < 0x10000,
        ensures
            self.feed(utf8(c)).at_rest(),
            self.feed(utf8(c)).screen == self.screen.text(c),
    {
        reveal(ParserView::step);
        let v = c as u32;
        vstd::utf8::char_u32_cast(c, v);
        let b0 = (0xe0 + v / 0x1000) as u8;
        let b1 = (0x80 + (v / 0x40) % 0x40) as u8;
        let b2 = (0x80 + v % 0x40) as u8;
        self.lemma_feed_three(b0, b1, b2);
        let s1 = self.step(b0);
        assert(s1.utf8_need == 2 && s1.utf8_acc == v / 0x1000 && s1.utf8_min == 0x800);
        let s2 = s1.step(b1);
        assert(s2.utf8_need == 1 && s2.utf8_acc == v / 0x40 && s2.utf8_min == 0x800);
        assert((s2.utf8_acc * 64 + (b2 - 0x80)) as u32 == v);
    }

    proof fn lemma_step_continuation(self, b: u8)
        requires
            self.state == State::Ground,
            self.utf8_need > 1,
            0x80 <= b <= 0xbf,
        ensures
            self.step(b) == (ParserView {
                utf8_need: (self.utf8_need - 1) as u8,
                utf8_acc: (self.utf8_acc * 64 + (b - 0x80)) as u32,
                ..self
            }),
    {
        reveal(ParserView::step);
    }

    proof fn lemma_step_last_continuation(self, b: u8)
        requires
            self.state == State::Ground,
            self.utf8_need == 1,
            0x80 <= b <= 0xbf,
            (self.utf8_acc * 64 + (b - 0x80)) as u32 >= self.utf8_min,
            is_scalar((self.utf8_acc * 64 + (b - 0x80)) as u32),
        ensures
            self.step(b) == (ParserView {
                utf8_need: 0,
                screen: self.screen.text(((self.utf8_acc * 64 + (b - 0x80)) as u32) as char),
                ..self
            }),
    {
        reveal(ParserView::step);
    }

    proof fn lemma_step_lead_4(self, b: u8)
        requires
            self.at_rest(),
            0xf0 <= b <= 0xf4,
        ensures
            self.step(b) == (ParserView {
                utf8_need: 3,
                utf8_acc: (b - 0xf0) as u32,
                utf8_min: 0x10000,
                ..self
            }),
    {
        reveal(ParserView::step);
    }

    proof fn lemma_feed_char_4(self, c: char)
        requires
            self.at_rest(),
            0x10000 <= (c as u32),
        ensures
            self.feed(utf8(c)).at_rest(),
            self.feed(utf8(c)).screen == self.screen.text(c),
    {
        let v = c as u32;
        vstd::utf8::char_u32_cast(c, v);
        assert(v <= 0x10ffff);
        let b0 = (0xf0 + v / 0x40000) as u8;
        let b1 = (0x80 + (v / 0x1000) % 0x40) as u8;
        let b2 = (0x80 + (v / 0x40) % 0x40) as u8;
        let b3 = (0x80 + v % 0x40) as u8;
        self.lemma_feed_three(b0, b1, b2);
        self.lemma_feed_push(seq![b0, b1, b2], b3);
        assert(seq![b0, b1, b2].push(b3) =~= utf8(c));
        self.lemma_step_lead_4(b0);
        let s1 = self.step(b0);
        s1.lemma_step_continuation(b1);
        let s2 = s1.step(b1);
        assert(s2.utf8_acc == v / 0x1000);
        s2.lemma_step_continuation(b2);
        let s3 = s2.step(b2);
        assert(s3.utf8_acc == v / 0x40);
        assert((s3.utf8_acc * 64 + (b3 - 0x80)) as u32 == v);
        s3.lemma_step_last_continuation(b3);
    }

    /// A run of characters that can stand in cells, read by a parser at
    /// rest, is taken character by character.
    pub proof fn lemma_feed_text(self, text: Seq<char>)
        requires
            self.at_rest(),
            forall|i: int| 0 <= i < text.len() ==> is_text_char(#[trigger] text[i]),
        ensures
            self.feed(utf8_text(text)).at_rest(),
            self.feed(utf8_text(text)).screen == self.screen.typed(text),
        decreases text.len(),
    {
        if text.len() > 0 {
            self.lemma_feed_text(text.drop_last());
            self.lemma_feed_concat(utf8_text(text.drop_last()), utf8(text.last()));
            self.feed(utf8_text(text.drop_last())).lemma_feed_char(text.last());
        } else {
            self.lemma_feed_none();
        }
    }

    /// Inside an operating-system command, bytes that are no control
    /// characters are kept as its text.
    pub proof fn lemma_feed_osc_text(self, text: Seq<u8>)
        requires
            self.state == State::Osc,
            is_title(text),
        ensures
            self.feed(text) == (ParserView { osc: self.osc + text, ..self }),
        decreases text.len(),
    {
        reveal(ParserView::step);
        if text.len() == 0 {
            assert(self.osc + text =~= self.osc);
            assert(text =~= Seq::<u8>::empty());
            self.lemma_feed_none();
        } else {
            self.lemma_feed_osc_text(text.drop_last());
            assert(text.drop_last().push(text.last()) =~= text);
            self.lemma_feed_push(text.drop_last(), text.last());
            assert((self.osc + text.drop_last()).push(text.last()) =~= self.osc + text);
        }
    }

    /// The sequence that sets the title is performed as an
    /// operating-system command with that title.
    pub proof fn lemma_feed_title(self, title: Seq<u8>)
        requires
            self.at_rest(),
            is_title(title),
        ensures
            self.feed(seq![0x1bu8, 0x5d, 0x32, 0x3b] + title + seq![0x07u8]).at_rest(),
            self.feed(seq![0x1bu8, 0x5d, 0x32, 0x3b] + title + seq![0x07u8]).screen
                == self.screen.osc_dispatch(seq![0x32u8, 0x3b] + title),
    {
        let head = seq![0x1bu8, 0x5d];
        let text = seq![0x32u8, 0x3b] + title;
        self.lemma_feed_osc_start();
        let entered = self.feed(head);
        entered.lemma_feed_osc_text(text);
        self.lemma_feed_concat(head, text);
        self.lemma_feed_push(head + text, 0x07);
        entered.feed(text).lemma_step_osc_end();
        assert(head + text =~= seq![0x1bu8, 0x5d, 0x32, 0x3b] + title);
        assert(entered.osc + text =~= text);
    }

    proof fn lemma_feed_osc_start(self)
        requires
            self.at_rest(),
        ensures
            self.feed(seq![0x1bu8, 0x5d]) == self.enter_osc(),
    {
        reveal(ParserView::step);
        self.lemma_feed_two(0x1b, 0x5d);
    }

    proof fn lemma_step_osc_end(self)
        requires
            self.state == State::Osc,
        ensures
            self.step(0x07) == self.with_screen(self.screen.osc_dispatch(self.osc)).to(
                State::Ground,
            ),
    {
        reveal(ParserView::step);
    }
}

impl ScreenView {
    /// The screen after a run of characters arrived as text.
    pub open spec fn typed(self, text: Seq<char>) -> ScreenView
        decreases text.len(),
    {
        if text.len() == 0 {
            self
        } else {
            self.typed(text.drop_last()).text(text.last())
        }
    }

    /// The screen after the bell rang `n` times.
    pub open spec fn rung(self, n: nat) -> ScreenView
        decreases n,
    {
        if n == 0 {
            self
        } else {
            self.rung((n - 1) as nat).control(0x07)
        }
    }
}

impl ParserView {
    /// A run of bells, read by a parser at rest, rings the bell as often.
    pub proof fn lemma_feed_bells(self, n: nat)
        requires
            self.at_rest(),
        ensures
            self.feed(Seq::new(n, |i: int| 0x07u8)).at_rest(),
            self.feed(Seq::new(n, |i: int| 0x07u8)).screen == self.screen.rung(n),
        decreases n,
    {
        let all = Seq::new(n, |i: int| 0x07u8);
        if n > 0 {
            let front = Seq::new((n - 1) as nat, |i: int| 0x07u8);
            self.lemma_feed_bells((n - 1) as nat);
            assert(front.push(0x07u8) =~= all);
            self.lemma_feed_push(front, 0x07);
            let before = self.feed(front);
            before.lemma_feed_control(0x07);
            before.lemma_feed_one(0x07);
        } else {
            assert(all =~= Seq::<u8>::empty());
            self.lemma_feed_none();
        }
    }
}

} // verus!
