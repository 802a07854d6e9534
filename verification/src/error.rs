use vstd::prelude::*;

verus! {

/// Everything the library can report instead of a document.
///
/// `Utf8Error` is the only failure a parse surfaces: a text run held
/// invalid UTF-8. The remaining variants belong to the stack helpers,
/// which callers drive directly.
#[derive(Debug, Clone, Copy, PartialEq, Eq, Structural)]
pub enum Error {
    /// A text run was not valid UTF-8; the whole parse is abandoned.
    Utf8Error,
    /// `parse_usize` was asked to read a number off an empty stack.
    UsizeParsingError,
    /// `parse_color` found a stack depth no color payload has.
    ColorParsingError,
    /// A color payload arrived before its layer was chosen.
    UnknownLayer,
    /// A stack that should have held an element was empty.
    StackEmpty,
}

} // verus!
