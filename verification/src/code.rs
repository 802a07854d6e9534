use crate::color::Color;
use vstd::prelude::*;

verus! {

/// The decoded meaning of one numeric SGR parameter.
///
/// `AnsiCode::from(n)` classifies a parameter `n`; codes the mapper has
/// no effect for come back as `Code(n)`.
#[derive(Debug, Clone, Copy, PartialEq, Eq, Structural)]
#[non_exhaustive]
pub enum AnsiCode {
    /// Reset the whole style
    Reset,
    /// Set font to bold
    Bold,
    /// Set font to faint
    Faint,
    /// Set font to italic
    Italic,
    /// Set font to underline
    Underline,
    /// Set cursor to slowblink
    SlowBlink,
    /// Set cursor to rapidblink
    RapidBlink,
    /// Invert the colors
    Reverse,
    /// Conceal text
    Conceal,
    /// Display crossed out text
    CrossedOut,
    /// Choose primary font
    PrimaryFont,
    /// Choose alternate font
    AlternateFont,
    /// Choose one of the alternate fonts
    AlternateFonts(u8),
    /// Fraktur font
    Fraktur,
    /// Turn off bold
    BoldOff,
    /// Set text to normal weight
    Normal,
    /// Turn off italic
    NotItalic,
    /// Turn off underline
    UnderlineOff,
    /// Turn off blinking
    BlinkOff,
    /// Don't invert colors
    InvertOff,
    /// Reveal text
    Reveal,
    /// Turn off crossed out text
    CrossedOutOff,
    /// Set foreground color (4-bit)
    ForegroundColor(Color),
    /// Set foreground color (8-bit and 24-bit)
    SetForegroundColor,
    /// Default foreground color
    DefaultForegroundColor,
    /// Set background color (4-bit)
    BackgroundColor(Color),
    /// Set background color (8-bit and 24-bit)
    SetBackgroundColor,
    /// Default background color
    DefaultBackgroundColor,
    /// Other, unsupported codes
    Code(u8),
}

/// The classification `AnsiCode::from` gives each numeric parameter.
pub open spec fn ansi_code_of(code: u8) -> AnsiCode {
    match code {
        0u8 => AnsiCode::Reset,
        1u8 => AnsiCode::Bold,
        2u8 => AnsiCode::Faint,
        3u8 => AnsiCode::Italic,
        4u8 => AnsiCode::Underline,
        5u8 => AnsiCode::SlowBlink,
        6u8 => AnsiCode::RapidBlink,
        7u8 => AnsiCode::Reverse,
        8u8 => AnsiCode::Conceal,
        9u8 => AnsiCode::CrossedOut,
        10u8 => AnsiCode::PrimaryFont,
        11u8 => AnsiCode::AlternateFont,
        20u8 => AnsiCode::Fraktur,
        21u8 => AnsiCode::BoldOff,
        22u8 => AnsiCode::Normal,
        23u8 => AnsiCode::NotItalic,
        24u8 => AnsiCode::UnderlineOff,
        25u8 => AnsiCode::BlinkOff,
        27u8 => AnsiCode::InvertOff,
        28u8 => AnsiCode::Reveal,
        29u8 => AnsiCode::CrossedOutOff,
        30u8 => AnsiCode::ForegroundColor(Color::Black),
        31u8 => AnsiCode::ForegroundColor(Color::Red),
        32u8 => AnsiCode::ForegroundColor(Color::Green),
        33u8 => AnsiCode::ForegroundColor(Color::Yellow),
        34u8 => AnsiCode::ForegroundColor(Color::Blue),
        35u8 => AnsiCode::ForegroundColor(Color::Magenta),
        36u8 => AnsiCode::ForegroundColor(Color::Cyan),
        37u8 => AnsiCode::ForegroundColor(Color::Gray),
        38u8 => AnsiCode::SetForegroundColor,
        39u8 => AnsiCode::DefaultForegroundColor,
        40u8 => AnsiCode::BackgroundColor(Color::Black),
        41u8 => AnsiCode::BackgroundColor(Color::Red),
        42u8 => AnsiCode::BackgroundColor(Color::Green),
        43u8 => AnsiCode::BackgroundColor(Color::Yellow),
        44u8 => AnsiCode::BackgroundColor(Color::Blue),
        45u8 => AnsiCode::BackgroundColor(Color::Magenta),
        46u8 => AnsiCode::BackgroundColor(Color::Cyan),
        47u8 => AnsiCode::BackgroundColor(Color::Gray),
        48u8 => AnsiCode::SetBackgroundColor,
        49u8 => AnsiCode::DefaultBackgroundColor,
        90u8 => AnsiCode::ForegroundColor(Color::DarkGray),
        91u8 => AnsiCode::ForegroundColor(Color::LightRed),
        92u8 => AnsiCode::ForegroundColor(Color::LightGreen),
        93u8 => AnsiCode::ForegroundColor(Color::LightYellow),
        94u8 => AnsiCode::ForegroundColor(Color::LightBlue),
        95u8 => AnsiCode::ForegroundColor(Color::LightMagenta),
        96u8 => AnsiCode::ForegroundColor(Color::LightCyan),
        97u8 => AnsiCode::ForegroundColor(Color::White),
        100u8 => AnsiCode::BackgroundColor(Color::DarkGray),
        101u8 => AnsiCode::BackgroundColor(Color::LightRed),
        102u8 => AnsiCode::BackgroundColor(Color::LightGreen),
        103u8 => AnsiCode::BackgroundColor(Color::LightYellow),
        104u8 => AnsiCode::BackgroundColor(Color::LightBlue),
        105u8 => AnsiCode::BackgroundColor(Color::LightMagenta),
        106u8 => AnsiCode::BackgroundColor(Color::LightCyan),
        107u8 => AnsiCode::BackgroundColor(Color::White),
        _ => AnsiCode::Code(code),
    }
}

impl From<u8> for AnsiCode {
    fn from(code: u8) -> (r: Self) {
        match code {
            0u8 => AnsiCode::Reset,
            1u8 => AnsiCode::Bold,
            2u8 => AnsiCode::Faint,
            3u8 => AnsiCode::Italic,
            4u8 => AnsiCode::Underline,
            5u8 => AnsiCode::SlowBlink,
            6u8 => AnsiCode::RapidBlink,
            7u8 => AnsiCode::Reverse,
            8u8 => AnsiCode::Conceal,
            9u8 => AnsiCode::CrossedOut,
            10u8 => AnsiCode::PrimaryFont,
            11u8 => AnsiCode::AlternateFont,
            20u8 => AnsiCode::Fraktur,
            21u8 => AnsiCode::BoldOff,
            22u8 => AnsiCode::Normal,
            23u8 => AnsiCode::NotItalic,
            24u8 => AnsiCode::UnderlineOff,
            25u8 => AnsiCode::BlinkOff,
            27u8 => AnsiCode::InvertOff,
            28u8 => AnsiCode::Reveal,
            29u8 => AnsiCode::CrossedOutOff,
            30u8 => AnsiCode::ForegroundColor(Color::Black),
            31u8 => AnsiCode::ForegroundColor(Color::Red),
            32u8 => AnsiCode::ForegroundColor(Color::Green),
            33u8 => AnsiCode::ForegroundColor(Color::Yellow),
            34u8 => AnsiCode::ForegroundColor(Color::Blue),
            35u8 => AnsiCode::ForegroundColor(Color::Magenta),
            36u8 => AnsiCode::ForegroundColor(Color::Cyan),
            37u8 => AnsiCode::ForegroundColor(Color::Gray),
            38u8 => AnsiCode::SetForegroundColor,
            39u8 => AnsiCode::DefaultForegroundColor,
            40u8 => AnsiCode::BackgroundColor(Color::Black),
            41u8 => AnsiCode::BackgroundColor(Color::Red),
            42u8 => AnsiCode::BackgroundColor(Color::Green),
            43u8 => AnsiCode::BackgroundColor(Color::Yellow),
            44u8 => AnsiCode::BackgroundColor(Color::Blue),
            45u8 => AnsiCode::BackgroundColor(Color::Magenta),
            46u8 => AnsiCode::BackgroundColor(Color::Cyan),
            47u8 => AnsiCode::BackgroundColor(Color::Gray),
            48u8 => AnsiCode::SetBackgroundColor,
            49u8 => AnsiCode::DefaultBackgroundColor,
            90u8 => AnsiCode::ForegroundColor(Color::DarkGray),
            91u8 => AnsiCode::ForegroundColor(Color::LightRed),
            92u8 => AnsiCode::ForegroundColor(Color::LightGreen),
            93u8 => AnsiCode::ForegroundColor(Color::LightYellow),
            94u8 => AnsiCode::ForegroundColor(Color::LightBlue),
            95u8 => AnsiCode::ForegroundColor(Color::LightMagenta),
            96u8 => AnsiCode::ForegroundColor(Color::LightCyan),
            97u8 => AnsiCode::ForegroundColor(Color::White),
            100u8 => AnsiCode::BackgroundColor(Color::DarkGray),
            101u8 => AnsiCode::BackgroundColor(Color::LightRed),
            102u8 => AnsiCode::BackgroundColor(Color::LightGreen),
            103u8 => AnsiCode::BackgroundColor(Color::LightYellow),
            104u8 => AnsiCode::BackgroundColor(Color::LightBlue),
            105u8 => AnsiCode::BackgroundColor(Color::LightMagenta),
            106u8 => AnsiCode::BackgroundColor(Color::LightCyan),
            107u8 => AnsiCode::BackgroundColor(Color::White),
            _ => AnsiCode::Code(code),
        }
    }
}

impl vstd::std_specs::convert::FromSpecImpl<u8> for AnsiCode {
    open spec fn obeys_from_spec() -> bool {
        true
    }

    open spec fn from_spec(code: u8) -> AnsiCode {
        ansi_code_of(code)
    }
}

} // verus!
