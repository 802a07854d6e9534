use crate::color::Color;
use vstd::prelude::*;

verus! {

/// The set of text attributes a span can carry, one flag per attribute.
#[derive(Debug, Clone, Copy, PartialEq, Eq, Structural)]
pub struct Modifiers {
    pub bold: bool,
    pub dim: bool,
    pub italic: bool,
    pub underline: bool,
    pub slow_blink: bool,
    pub rapid_blink: bool,
    pub reverse: bool,
    pub hidden: bool,
    pub crossed_out: bool,
}

impl Modifiers {
    /// The empty attribute set.
    pub open spec fn spec_none() -> Modifiers {
        Modifiers {
            bold: false,
            dim: false,
            italic: false,
            underline: false,
            slow_blink: false,
            rapid_blink: false,
            reverse: false,
            hidden: false,
            crossed_out: false,
        }
    }

    /// Builds the empty attribute set.
    pub fn none() -> (r: Modifiers)
        ensures
            r == Modifiers::spec_none(),
    {
        Modifiers {
            bold: false,
            dim: false,
            italic: false,
            underline: false,
            slow_blink: false,
            rapid_blink: false,
            reverse: false,
            hidden: false,
            crossed_out: false,
        }
    }
}

/// The resolved style of a span: an optional foreground and background
/// color and a set of attribute flags. A field left `None` means the
/// stream has said nothing about it; `Some(Color::Reset)` means the
/// stream asked for the terminal's default explicitly.
#[derive(Debug, Clone, Copy, PartialEq, Eq)]
pub struct Style {
    pub fg: Option<Color>,
    pub bg: Option<Color>,
    pub modifiers: Modifiers,
}

impl Style {
    /// The neutral style every parse starts from: nothing set.
    pub open spec fn spec_default() -> Style {
        Style { fg: None, bg: None, modifiers: Modifiers::spec_none() }
    }

    /// The style after a full reset: both colors pinned to the terminal
    /// default and no attributes.
    pub open spec fn spec_reset() -> Style {
        Style {
            fg: Some(Color::Reset),
            bg: Some(Color::Reset),
            modifiers: Modifiers::spec_none(),
        }
    }

    /// Builds the style a full reset leaves behind.
    pub fn reset() -> (r: Style)
        ensures
            r == Style::spec_reset(),
    {
        Style { fg: Some(Color::Reset), bg: Some(Color::Reset), modifiers: Modifiers::none() }
    }
}

impl Default for Style {
    /// Builds the neutral style.
    fn default() -> (r: Style)
        ensures
            r == Style::spec_default(),
    {
        Style { fg: None, bg: None, modifiers: Modifiers::none() }
    }
}

} // verus!
