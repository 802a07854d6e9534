use vstd::prelude::*;

verus! {

/// A terminal color as the document model carries it: one of the sixteen
/// named palette colors, an 8-bit indexed color, a 24-bit RGB color, or
/// the `Reset` sentinel that stands for the terminal's default.
#[derive(Debug, Clone, Copy, PartialEq, Eq, Structural)]
pub enum Color {
    Reset,
    Black,
    Red,
    Green,
    Yellow,
    Blue,
    Magenta,
    Cyan,
    Gray,
    DarkGray,
    LightRed,
    LightGreen,
    LightYellow,
    LightBlue,
    LightMagenta,
    LightCyan,
    White,
    Rgb(u8, u8, u8),
    Indexed(u8),
}

/// A concrete color as an escape sequence names one: the sixteen palette
/// colors, an RGB triple, or an 8-bit index, with no default sentinel.
#[derive(Debug, Clone, Copy, PartialEq, Eq, Structural)]
pub enum AnsiColor {
    Black,
    Red,
    Green,
    Yellow,
    Blue,
    Magenta,
    Cyan,
    Gray,
    DarkGray,
    LightRed,
    LightGreen,
    LightYellow,
    LightBlue,
    LightMagenta,
    LightCyan,
    White,
    RGB(u8, u8, u8),
    Indexed(u8),
}

/// The `Color` that stands for a given `AnsiColor`.
pub open spec fn color_of_ansi(ansi: AnsiColor) -> Color {
    match ansi {
        AnsiColor::Black => Color::Black,
        AnsiColor::Red => Color::Red,
        AnsiColor::Green => Color::Green,
        AnsiColor::Yellow => Color::Yellow,
        AnsiColor::Blue => Color::Blue,
        AnsiColor::Magenta => Color::Magenta,
        AnsiColor::Cyan => Color::Cyan,
        AnsiColor::Gray => Color::Gray,
        AnsiColor::DarkGray => Color::DarkGray,
        AnsiColor::LightRed => Color::LightRed,
        AnsiColor::LightGreen => Color::LightGreen,
        AnsiColor::LightYellow => Color::LightYellow,
        AnsiColor::LightBlue => Color::LightBlue,
        AnsiColor::LightMagenta => Color::LightMagenta,
        AnsiColor::LightCyan => Color::LightCyan,
        AnsiColor::White => Color::White,
        AnsiColor::RGB(r, g, b) => Color::Rgb(r, g, b),
        AnsiColor::Indexed(c) => Color::Indexed(c),
    }
}

impl From<AnsiColor> for Color {
    fn from(ansi: AnsiColor) -> (r: Color) {
        match ansi {
            AnsiColor::Black => Color::Black,
            AnsiColor::Red => Color::Red,
            AnsiColor::Green => Color::Green,
            AnsiColor::Yellow => Color::Yellow,
            AnsiColor::Blue => Color::Blue,
            AnsiColor::Magenta => Color::Magenta,
            AnsiColor::Cyan => Color::Cyan,
            AnsiColor::Gray => Color::Gray,
            AnsiColor::DarkGray => Color::DarkGray,
            AnsiColor::LightRed => Color::LightRed,
            AnsiColor::LightGreen => Color::LightGreen,
            AnsiColor::LightYellow => Color::LightYellow,
            AnsiColor::LightBlue => Color::LightBlue,
            AnsiColor::LightMagenta => Color::LightMagenta,
            AnsiColor::LightCyan => Color::LightCyan,
            AnsiColor::White => Color::White,
            AnsiColor::RGB(r, g, b) => Color::Rgb(r, g, b),
            AnsiColor::Indexed(c) => Color::Indexed(c),
        }
    }
}

impl vstd::std_specs::convert::FromSpecImpl<AnsiColor> for Color {
    open spec fn obeys_from_spec() -> bool {
        true
    }

    open spec fn from_spec(ansi: AnsiColor) -> Color {
        color_of_ansi(ansi)
    }
}

} // verus!
