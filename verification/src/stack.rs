//! The stack helpers: a lockable byte stack, and a graphics stack
//! that folds a pushed list of SGR parameter values into a style.
//!
//! These drive the code path in which a caller feeds parameter values
//! one by one and asks for the resulting style at the sequence's end;
//! `parse_ansi` is specified by the fold `spec_parse_ansi`.

use crate::code::{ansi_code_of, AnsiCode};
use crate::color::Color;
use crate::error::Error;
use crate::parser::{is_digit_byte, num_val};
use crate::style::{Modifiers, Style};
use vstd::prelude::*;

verus! {

/// A stack with a lock flag; locking or unlocking empties it.
#[derive(Debug)]
pub struct Stack<T> {
    st: Vec<T>,
    lock: bool,
}

impl<T> View for Stack<T> {
    type V = Seq<T>;

    closed spec fn view(&self) -> Seq<T> {
        self.st@
    }
}

impl<T> Stack<T> {
    /// True when the stack has been unlocked and not locked since.
    pub closed spec fn spec_unlocked(&self) -> bool {
        !self.lock
    }

    /// Builds an empty, locked stack.
    pub fn new() -> (r: Self)
        ensures
            r@ == Seq::<T>::empty(),
            !r.spec_unlocked(),
    {
        let r = Self { st: Vec::<T>::new(), lock: true };
        proof {
            assert(r@ =~= Seq::<T>::empty());
        }
        r
    }

    /// Pushes a value on top.
    pub fn push(&mut self, value: T)
        ensures
            final(self)@ == old(self)@.push(value),
            final(self).spec_unlocked() == old(self).spec_unlocked(),
    {
        self.st.push(value);
    }

    /// Pops the top value, if any.
    pub fn pop(&mut self) -> (r: Option<T>)
        ensures
            old(self)@.len() == 0 ==> r is None && final(self)@ == old(self)@,
            old(self)@.len() > 0 ==> r == Some(old(self)@.last()) && final(self)@ == old(
                self,
            )@.drop_last(),
            final(self).spec_unlocked() == old(self).spec_unlocked(),
    {
        self.st.pop()
    }

    /// The bottom value, if any.
    pub fn first(&self) -> (r: Option<&T>)
        ensures
            self@.len() == 0 ==> r is None,
            self@.len() > 0 ==> (r matches Some(v) && *v == self@[0]),
    {
        if self.st.len() == 0 {
            None
        } else {
            Some(&self.st[0])
        }
    }

    /// The top value, if any.
    pub fn last(&self) -> (r: Option<&T>)
        ensures
            self@.len() == 0 ==> r is None,
            self@.len() > 0 ==> (r matches Some(v) && *v == self@.last()),
    {
        if self.st.len() == 0 {
            None
        } else {
            Some(&self.st[self.st.len() - 1])
        }
    }

    /// The stored values, bottom first.
    pub fn iter(&self) -> (r: &Vec<T>)
        ensures
            r@ == self@,
    {
        &self.st
    }

    /// How many values the stack holds.
    pub fn len(&self) -> (r: usize)
        ensures
            r == self@.len(),
    {
        self.st.len()
    }

    /// Empties the stack without touching the lock.
    pub fn clear(&mut self)
        ensures
            final(self)@ == Seq::<T>::empty(),
            final(self).spec_unlocked() == old(self).spec_unlocked(),
    {
        self.st.clear();
        proof {
            assert(self@ =~= Seq::<T>::empty());
        }
    }

    /// Empties the stack and locks it.
    pub fn lock(&mut self)
        ensures
            final(self)@ == Seq::<T>::empty(),
            !final(self).spec_unlocked(),
    {
        self.st.clear();
        self.lock = true;
        proof {
            assert(self@ =~= Seq::<T>::empty());
        }
    }

    /// Empties the stack and unlocks it.
    pub fn unlock(&mut self)
        ensures
            final(self)@ == Seq::<T>::empty(),
            final(self).spec_unlocked(),
    {
        self.st.clear();
        self.lock = false;
        proof {
            assert(self@ =~= Seq::<T>::empty());
        }
    }

    /// True when the stack holds nothing.
    pub fn is_empty(&self) -> (r: bool)
        ensures
            r == (self@.len() == 0),
    {
        self.st.is_empty()
    }

    /// True when the stack is unlocked.
    pub fn is_unlocked(&self) -> (r: bool)
        ensures
            r == self.spec_unlocked(),
    {
        !self.lock
    }
}

/// The value of a digit stack is never negative.
pub proof fn lemma_num_val_nonneg(s: Seq<u8>, i: int, j: int)
    requires
        i <= j,
        forall|k: int| i <= k < j ==> is_digit_byte(s[k]),
    ensures
        num_val(s, i, j) >= 0,
    decreases j - i,
{
    if i < j {
        lemma_num_val_nonneg(s, i, j - 1);
    }
}

/// A prefix of a digit stack is worth no more than the whole.
pub proof fn lemma_num_val_mono(s: Seq<u8>, i: int, k: int, n: int)
    requires
        i <= k <= n,
        forall|q: int| i <= q < n ==> is_digit_byte(s[q]),
    ensures
        num_val(s, i, k) <= num_val(s, i, n),
    decreases n - k,
{
    if k < n {
        lemma_num_val_mono(s, i, k, n - 1);
        lemma_num_val_nonneg(s, i, n - 1);
    }
}

impl Stack<u8> {
    /// Reads the whole stack as one decimal numeral, bottom first, and
    /// empties it; an empty stack is the one error.
    pub fn parse_usize(&mut self) -> (r: Result<usize, Error>)
        requires
            forall|k: int| 0 <= k < old(self)@.len() ==> is_digit_byte(old(self)@[k]),
            num_val(old(self)@, 0, old(self)@.len() as int) <= usize::MAX,
        ensures
            old(self)@.len() == 0 ==> r == Err::<usize, Error>(Error::UsizeParsingError)
                && final(self)@ == old(self)@,
            old(self)@.len() > 0 ==> r == Ok::<usize, Error>(
                num_val(old(self)@, 0, old(self)@.len() as int) as usize,
            ) && final(self)@ == Seq::<u8>::empty(),
            final(self).spec_unlocked() == old(self).spec_unlocked(),
    {
        if self.is_empty() {
            return Err(Error::UsizeParsingError);
        }
        let ghost s = self@;
        let n = self.st.len();
        let mut num: usize = 0;
        let mut k: usize = 0;
        while k < n
            invariant
                k <= n == s.len() <= usize::MAX,
                self@ == s,
                self.spec_unlocked() == old(self).spec_unlocked(),
                forall|q: int| 0 <= q < s.len() ==> is_digit_byte(s[q]),
                num_val(s, 0, s.len() as int) <= usize::MAX,
                num == num_val(s, 0, k as int),
            decreases n - k,
        {
            let d = self.st[k];
            proof {
                lemma_num_val_nonneg(s, 0, k as int);
                lemma_num_val_mono(s, 0, k + 1 as int, s.len() as int);
                assert(num_val(s, 0, k + 1 as int) == num_val(s, 0, k as int) * 10 + (s[k as int]
                    - 48));
            }
            num = num * 10 + ((d - 48) as usize);
            k = k + 1;
        }
        self.clear();
        Ok(num)
    }

    /// Reads the stack as a color payload and empties it: its top
    /// value as an indexed color at depth two, its top three values as
    /// an RGB color at depth four; any other depth is an error that
    /// leaves the contents in place.
    pub fn parse_color(&mut self) -> (r: Result<Color, Error>)
        ensures
            ({
                let n = old(self)@.len();
                &&& n == 2 ==> r == Ok::<Color, Error>(Color::Indexed(old(self)@.last()))
                    && final(self)@ == Seq::<u8>::empty()
                &&& n == 4 ==> r == Ok::<Color, Error>(
                    Color::Rgb(old(self)@[n - 3], old(self)@[n - 2], old(self)@[n - 1]),
                ) && final(self)@ == Seq::<u8>::empty()
                &&& !(n == 2 || n == 4) ==> r == Err::<Color, Error>(Error::ColorParsingError)
                    && final(self)@ == old(self)@
            }),
            final(self).spec_unlocked() == old(self).spec_unlocked(),
    {
        let n = self.len();
        if n == 2 {
            let idx = self.pop().unwrap();
            self.clear();
            Ok(Color::Indexed(idx))
        } else if n == 4 {
            let b = self.pop().unwrap();
            let g = self.pop().unwrap();
            let r_ = self.pop().unwrap();
            self.clear();
            Ok(Color::Rgb(r_, g, b))
        } else {
            Err(Error::ColorParsingError)
        }
    }
}

/// Which of the two color layers a structured color payload fills.
#[derive(Debug, Clone, Copy, PartialEq, Eq, Structural)]
pub enum ColorLayer {
    Background,
    Foreground,
}

/// The graphics stack: a pushed list of SGR parameter values, folded
/// into a style by `parse_ansi`.
#[derive(Debug)]
pub struct AnsiGraphicsStack {
    stack: Vec<usize>,
    lock: bool,
}

impl View for AnsiGraphicsStack {
    type V = Seq<usize>;

    closed spec fn view(&self) -> Seq<usize> {
        self.stack@
    }
}

/// The state the parameter fold threads: the style so far, the color
/// payload being collected, whether one is being collected, and for
/// which layer.
pub open spec fn ansi_fold_start() -> (Style, Seq<u8>, bool, Option<ColorLayer>) {
    (Style::spec_default(), Seq::empty(), false, None)
}

/// One step of the parameter fold, exactly as `parse_ansi` performs
/// it: values over 255 drop the pending payload; while a payload is
/// collected, values feed it; once it is complete (or its selector is
/// neither 2 nor 5) the collector closes, so later values act as SGR
/// codes again; outside a payload the value acts as an SGR code.
pub open spec fn ansi_step(
    st: (Style, Seq<u8>, bool, Option<ColorLayer>),
    sequence: usize,
) -> (Style, Seq<u8>, bool, Option<ColorLayer>) {
    let (style, cstack, unlocked, layer) = st;
    if sequence > 255 {
        (style, Seq::empty(), false, layer)
    } else {
        let code8 = sequence as u8;
        if unlocked {
            if cstack.len() == 0 {
                (style, cstack.push(code8), true, layer)
            } else if cstack[0] == 2 {
                let c2 = if cstack.len() <= 4 {
                    cstack.push(code8)
                } else {
                    cstack
                };
                if c2.len() == 4 {
                    match layer {
                        Some(ColorLayer::Foreground) => (
                            Style { fg: Some(Color::Rgb(c2[1], c2[2], c2[3])), ..style },
                            Seq::empty(),
                            false,
                            layer,
                        ),
                        Some(ColorLayer::Background) => (
                            Style { bg: Some(Color::Rgb(c2[1], c2[2], c2[3])), ..style },
                            Seq::empty(),
                            false,
                            layer,
                        ),
                        None => (style, Seq::empty(), false, layer),
                    }
                } else {
                    (style, c2, true, layer)
                }
            } else if cstack[0] == 5 {
                let c2 = if cstack.len() <= 2 {
                    cstack.push(code8)
                } else {
                    cstack
                };
                if c2.len() == 2 {
                    match layer {
                        Some(ColorLayer::Foreground) => (
                            Style { fg: Some(Color::Indexed(c2[1])), ..style },
                            Seq::empty(),
                            false,
                            layer,
                        ),
                        Some(ColorLayer::Background) => (
                            Style { bg: Some(Color::Indexed(c2[1])), ..style },
                            Seq::empty(),
                            false,
                            layer,
                        ),
                        None => (style, Seq::empty(), false, layer),
                    }
                } else {
                    (style, c2, true, layer)
                }
            } else {
                (style, Seq::empty(), false, layer)
            }
        } else {
            match ansi_code_of(code8) {
                AnsiCode::Reset => (Style::spec_default(), cstack, unlocked, layer),
                AnsiCode::Bold => (
                    Style { modifiers: Modifiers { bold: true, ..style.modifiers }, ..style },
                    cstack,
                    unlocked,
                    layer,
                ),
                AnsiCode::Faint => (
                    Style { modifiers: Modifiers { dim: true, ..style.modifiers }, ..style },
                    cstack,
                    unlocked,
                    layer,
                ),
                AnsiCode::Italic => (
                    Style { modifiers: Modifiers { italic: true, ..style.modifiers }, ..style },
                    cstack,
                    unlocked,
                    layer,
                ),
                AnsiCode::Underline => (
                    Style { modifiers: Modifiers { underline: true, ..style.modifiers }, ..style },
                    cstack,
                    unlocked,
                    layer,
                ),
                AnsiCode::SlowBlink => (
                    Style { modifiers: Modifiers { slow_blink: true, ..style.modifiers }, ..style },
                    cstack,
                    unlocked,
                    layer,
                ),
                AnsiCode::RapidBlink => (
                    Style {
                        modifiers: Modifiers { rapid_blink: true, ..style.modifiers },
                        ..style
                    },
                    cstack,
                    unlocked,
                    layer,
                ),
                AnsiCode::Reverse => (
                    Style { modifiers: Modifiers { reverse: true, ..style.modifiers }, ..style },
                    cstack,
                    unlocked,
                    layer,
                ),
                AnsiCode::Conceal => (
                    Style { modifiers: Modifiers { hidden: true, ..style.modifiers }, ..style },
                    cstack,
                    unlocked,
                    layer,
                ),
                AnsiCode::CrossedOut => (
                    Style {
                        modifiers: Modifiers { crossed_out: true, ..style.modifiers },
                        ..style
                    },
                    cstack,
                    unlocked,
                    layer,
                ),
                AnsiCode::DefaultForegroundColor => (
                    Style { fg: Some(Color::Reset), ..style },
                    cstack,
                    unlocked,
                    layer,
                ),
                AnsiCode::DefaultBackgroundColor => (
                    Style { bg: Some(Color::Reset), ..style },
                    cstack,
                    unlocked,
                    layer,
                ),
                AnsiCode::SetForegroundColor => (
                    style,
                    Seq::empty(),
                    true,
                    Some(ColorLayer::Foreground),
                ),
                AnsiCode::SetBackgroundColor => (
                    style,
                    Seq::empty(),
                    true,
                    Some(ColorLayer::Background),
                ),
                AnsiCode::ForegroundColor(c) => (
                    Style { fg: Some(c), ..style },
                    cstack,
                    unlocked,
                    layer,
                ),
                AnsiCode::BackgroundColor(c) => (
                    Style { bg: Some(c), ..style },
                    cstack,
                    unlocked,
                    layer,
                ),
                _ => (style, cstack, unlocked, layer),
            }
        }
    }
}

/// The parameter fold over a whole list of pushed values.
pub open spec fn ansi_fold(
    st: (Style, Seq<u8>, bool, Option<ColorLayer>),
    codes: Seq<usize>,
) -> (Style, Seq<u8>, bool, Option<ColorLayer>)
    decreases codes.len(),
{
    if codes.len() == 0 {
        st
    } else {
        ansi_fold(ansi_step(st, codes[0]), codes.drop_first())
    }
}

/// The style a pushed list of SGR parameter values denotes.
pub open spec fn spec_parse_ansi(codes: Seq<usize>) -> Style {
    ansi_fold(ansi_fold_start(), codes).0
}

impl AnsiGraphicsStack {
    /// True when the stack has been unlocked and not locked since.
    pub closed spec fn spec_unlocked(&self) -> bool {
        !self.lock
    }

    /// Builds an empty, locked graphics stack.
    pub fn new() -> (r: Self)
        ensures
            r@ == Seq::<usize>::empty(),
            !r.spec_unlocked(),
    {
        let r = Self { stack: Vec::new(), lock: true };
        proof {
            assert(r@ =~= Seq::<usize>::empty());
        }
        r
    }

    /// Pushes one parameter value.
    pub fn push(&mut self, sequence: usize)
        ensures
            final(self)@ == old(self)@.push(sequence),
            final(self).spec_unlocked() == old(self).spec_unlocked(),
    {
        self.stack.push(sequence);
    }

    /// The pushed values, oldest first.
    pub fn iter(&self) -> (r: &Vec<usize>)
        ensures
            r@ == self@,
    {
        &self.stack
    }

    /// Empties the stack and locks it.
    pub fn lock(&mut self)
        ensures
            final(self)@ == Seq::<usize>::empty(),
            !final(self).spec_unlocked(),
    {
        self.stack.clear();
        self.lock = true;
        proof {
            assert(self@ =~= Seq::<usize>::empty());
        }
    }

    /// Empties the stack and unlocks it.
    pub fn unlock(&mut self)
        ensures
            final(self)@ == Seq::<usize>::empty(),
            final(self).spec_unlocked(),
    {
        self.stack.clear();
        self.lock = false;
        proof {
            assert(self@ =~= Seq::<usize>::empty());
        }
    }

    /// True when the stack is locked.
    pub fn is_locked(&self) -> (r: bool)
        ensures
            r == !self.spec_unlocked(),
    {
        self.lock
    }

    /// True when the stack is unlocked.
    pub fn is_unlocked(&self) -> (r: bool)
        ensures
            r == self.spec_unlocked(),
    {
        !self.lock
    }

    /// Folds the pushed parameter values into the style they denote,
    /// as `spec_parse_ansi` states it; the stack is left as it is.
    pub fn parse_ansi(&mut self) -> (r: Result<Style, Error>)
        ensures
            r == Ok::<Style, Error>(spec_parse_ansi(old(self)@)),
            final(self)@ == old(self)@,
            final(self).spec_unlocked() == old(self).spec_unlocked(),
    {
        let ghost codes = self@;
        let mut style = Style::default();
        let mut color_stack: Stack<u8> = Stack::new();
        let mut layer: Option<ColorLayer> = None;
        let n = self.stack.len();
        let mut k: usize = 0;
        proof {
            assert(codes.skip(0) =~= codes);
        }
        while k < n
            invariant
                k <= n == codes.len(),
                self@ == codes,
                self.spec_unlocked() == old(self).spec_unlocked(),
                ansi_fold(ansi_fold_start(), codes) == ansi_fold(
                    (style, color_stack@, color_stack.spec_unlocked(), layer),
                    codes.skip(k as int),
                ),
                color_stack.spec_unlocked() ==> layer is Some,
            decreases n - k,
        {
            let ghost pre = (style, color_stack@, color_stack.spec_unlocked(), layer);
            let sequence = self.stack[k];
            proof {
                let tail = codes.skip(k as int);
                assert(tail[0] == codes[k as int]);
                assert(tail.drop_first() =~= codes.skip(k as int + 1));
            }
            if sequence > 255 {
                color_stack.lock();
            } else {
                let code8 = sequence as u8;
                if color_stack.is_unlocked() {
                    if color_stack.is_empty() {
                        color_stack.push(code8);
                    } else {
                        let head = *color_stack.first().unwrap();
                        if head == 2 {
                            if color_stack.len() <= 4 {
                                color_stack.push(code8);
                            }
                            if color_stack.len() == 4 {
                                match layer {
                                    Some(ColorLayer::Foreground) => {
                                        let c = color_stack.parse_color().unwrap();
                                        style = Style { fg: Some(c), ..style };
                                        color_stack.lock();
                                    },
                                    Some(ColorLayer::Background) => {
                                        let c = color_stack.parse_color().unwrap();
                                        style = Style { bg: Some(c), ..style };
                                        color_stack.lock();
                                    },
                                    None => {
                                        color_stack.lock();
                                    },
                                }
                            }
                        } else if head == 5 {
                            if color_stack.len() <= 2 {
                                color_stack.push(code8);
                            }
                            if color_stack.len() == 2 {
                                match layer {
                                    Some(ColorLayer::Foreground) => {
                                        let c = color_stack.parse_color().unwrap();
                                        style = Style { fg: Some(c), ..style };
                                        color_stack.lock();
                                    },
                                    Some(ColorLayer::Background) => {
                                        let c = color_stack.parse_color().unwrap();
                                        style = Style { bg: Some(c), ..style };
                                        color_stack.lock();
                                    },
                                    None => {
                                        color_stack.lock();
                                    },
                                }
                            }
                        } else {
                            color_stack.lock();
                        }
                    }
                } else {
                    match AnsiCode::from(code8) {
                        AnsiCode::Reset => {
                            style = Style::default();
                        },
                        AnsiCode::Bold => {
                            style = Style {
                                modifiers: Modifiers { bold: true, ..style.modifiers },
                                ..style
                            };
                        },
                        AnsiCode::Faint => {
                            style = Style {
                                modifiers: Modifiers { dim: true, ..style.modifiers },
                                ..style
                            };
                        },
                        AnsiCode::Italic => {
                            style = Style {
                                modifiers: Modifiers { italic: true, ..style.modifiers },
                                ..style
                            };
                        },
                        AnsiCode::Underline => {
                            style = Style {
                                modifiers: Modifiers { underline: true, ..style.modifiers },
                                ..style
                            };
                        },
                        AnsiCode::SlowBlink => {
                            style = Style {
                                modifiers: Modifiers { slow_blink: true, ..style.modifiers },
                                ..style
                            };
                        },
                        AnsiCode::RapidBlink => {
                            style = Style {
                                modifiers: Modifiers { rapid_blink: true, ..style.modifiers },
                                ..style
                            };
                        },
                        AnsiCode::Reverse => {
                            style = Style {
                                modifiers: Modifiers { reverse: true, ..style.modifiers },
                                ..style
                            };
                        },
                        AnsiCode::Conceal => {
                            style = Style {
                                modifiers: Modifiers { hidden: true, ..style.modifiers },
                                ..style
                            };
                        },
                        AnsiCode::CrossedOut => {
                            style = Style {
                                modifiers: Modifiers { crossed_out: true, ..style.modifiers },
                                ..style
                            };
                        },
                        AnsiCode::DefaultForegroundColor => {
                            style = Style { fg: Some(Color::Reset), ..style };
                        },
                        AnsiCode::DefaultBackgroundColor => {
                            style = Style { bg: Some(Color::Reset), ..style };
                        },
                        AnsiCode::SetForegroundColor => {
                            layer = Some(ColorLayer::Foreground);
                            color_stack.unlock();
                        },
                        AnsiCode::SetBackgroundColor => {
                            layer = Some(ColorLayer::Background);
                            color_stack.unlock();
                        },
                        AnsiCode::ForegroundColor(c) => {
                            style = Style { fg: Some(c), ..style };
                        },
                        AnsiCode::BackgroundColor(c) => {
                            style = Style { bg: Some(c), ..style };
                        },
                        _ => {},
                    }
                }
            }
            proof {
                assert((style, color_stack@, color_stack.spec_unlocked(), layer) == ansi_step(
                    pre,
                    codes[k as int],
                ));
            }
            k = k + 1;
        }
        proof {
            assert(codes.skip(codes.len() as int) =~= Seq::<usize>::empty());
        }
        Ok(style)
    }
}

} // verus!
