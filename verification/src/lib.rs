//! Parses a byte stream holding UTF-8 text interleaved with ANSI SGR
//! escape sequences into a document of styled lines and spans.
//!
//! The only caller-visible failure is invalid UTF-8 inside a text run;
//! malformed or unrecognized escape content is skipped, never fatal.

pub mod ansi;
pub mod code;
pub mod color;
pub mod error;
pub mod parser;
pub mod stack;
pub mod style;
pub mod text;

pub use ansi::{ansi_to_text, ansi_to_text_override_style, to_text};
pub use code::AnsiCode;
pub use color::{AnsiColor, Color};
pub use error::Error;
pub use stack::{AnsiGraphicsStack, ColorLayer, Stack};
pub use style::{Modifiers, Style};
pub use text::{Line, LineRef, Span, SpanRef, Text, TextRef};
