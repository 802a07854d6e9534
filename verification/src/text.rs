//! The parsed document: lines of styled spans.
//!
//! The owned types copy every span's text; the `Ref` types borrow it
//! from the input buffer instead. Both sides view a span as the pair
//! of its character sequence and its style, so documents of either
//! kind can be compared through one model.

use crate::style::Style;
use vstd::prelude::*;

verus! {

/// A contiguous text run sharing one resolved style, with owned text.
#[derive(Debug, Clone, PartialEq)]
pub struct Span {
    pub content: String,
    pub style: Style,
}

impl View for Span {
    type V = (Seq<char>, Style);

    open spec fn view(&self) -> (Seq<char>, Style) {
        (self.content@, self.style)
    }
}

impl DeepView for Span {
    type V = (Seq<char>, Style);

    open spec fn deep_view(&self) -> (Seq<char>, Style) {
        self.view()
    }
}

/// An ordered sequence of spans, ended at a source newline.
#[derive(Debug, Clone, PartialEq)]
pub struct Line {
    pub spans: Vec<Span>,
}

impl View for Line {
    type V = Seq<(Seq<char>, Style)>;

    open spec fn view(&self) -> Seq<(Seq<char>, Style)> {
        self.spans.deep_view()
    }
}

impl DeepView for Line {
    type V = Seq<(Seq<char>, Style)>;

    open spec fn deep_view(&self) -> Seq<(Seq<char>, Style)> {
        self.view()
    }
}

/// The full parsed output: an ordered sequence of lines.
#[derive(Debug, Clone, PartialEq)]
pub struct Text {
    pub lines: Vec<Line>,
}

impl View for Text {
    type V = Seq<Seq<(Seq<char>, Style)>>;

    open spec fn view(&self) -> Seq<Seq<(Seq<char>, Style)>> {
        self.lines.deep_view()
    }
}

impl DeepView for Text {
    type V = Seq<Seq<(Seq<char>, Style)>>;

    open spec fn deep_view(&self) -> Seq<Seq<(Seq<char>, Style)>> {
        self.view()
    }
}

/// A span whose text borrows the input buffer.
#[derive(Debug, Clone, Copy, PartialEq)]
pub struct SpanRef<'a> {
    pub content: &'a str,
    pub style: Style,
}

impl<'a> View for SpanRef<'a> {
    type V = (Seq<char>, Style);

    open spec fn view(&self) -> (Seq<char>, Style) {
        (self.content@, self.style)
    }
}

impl<'a> DeepView for SpanRef<'a> {
    type V = (Seq<char>, Style);

    open spec fn deep_view(&self) -> (Seq<char>, Style) {
        self.view()
    }
}

/// A line whose spans borrow the input buffer.
#[derive(Debug, Clone, PartialEq)]
pub struct LineRef<'a> {
    pub spans: Vec<SpanRef<'a>>,
}

impl<'a> View for LineRef<'a> {
    type V = Seq<(Seq<char>, Style)>;

    open spec fn view(&self) -> Seq<(Seq<char>, Style)> {
        self.spans.deep_view()
    }
}

impl<'a> DeepView for LineRef<'a> {
    type V = Seq<(Seq<char>, Style)>;

    open spec fn deep_view(&self) -> Seq<(Seq<char>, Style)> {
        self.view()
    }
}

/// A document whose text borrows the input buffer.
#[derive(Debug, Clone, PartialEq)]
pub struct TextRef<'a> {
    pub lines: Vec<LineRef<'a>>,
}

impl<'a> View for TextRef<'a> {
    type V = Seq<Seq<(Seq<char>, Style)>>;

    open spec fn view(&self) -> Seq<Seq<(Seq<char>, Style)>> {
        self.lines.deep_view()
    }
}

impl<'a> DeepView for TextRef<'a> {
    type V = Seq<Seq<(Seq<char>, Style)>>;

    open spec fn deep_view(&self) -> Seq<Seq<(Seq<char>, Style)>> {
        self.view()
    }
}

} // verus!
