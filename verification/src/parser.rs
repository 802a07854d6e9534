//! The escape-sequence grammar and the scanner.
//!
//! A document is produced in three layers, each with a spec-level model
//! that the executable code is proved to match exactly:
//!  - the SGR grammar `ESC [ <params> m`, with structured 8-bit and
//!    24-bit color payloads (`spec_sgr`);
//!  - the consumer that skips every other escape form without ever
//!    failing (`spec_skip_escape`);
//!  - the scanner that folds text runs and style mutations into lines
//!    of styled runs (`spec_runs`, `spec_doc_from`).

use crate::code::{ansi_code_of, AnsiCode};
use crate::color::Color;
use crate::style::{Modifiers, Style};
use vstd::prelude::*;

verus! {

/// One decoded SGR parameter: the numeric code, and the structured
/// color payload that codes 38 and 48 carry.
#[derive(Debug, Clone, Copy, PartialEq, Eq)]
pub struct AnsiItem {
    pub code: u8,
    pub color: Option<Color>,
}

/// True of the ASCII digits `0`..`9`.
pub open spec fn is_digit_byte(b: u8) -> bool {
    48 <= b <= 57
}

/// True of the ASCII letters, which terminate a control sequence.
pub open spec fn is_alpha_byte(b: u8) -> bool {
    (65 <= b <= 90) || (97 <= b <= 122)
}

/// The first position in `[i, end)` holding `b`, or `end` if none does.
pub open spec fn find_byte(s: Seq<u8>, i: int, end: int, b: u8) -> int
    decreases end - i,
{
    if i < end {
        if s[i] == b {
            i
        } else {
            find_byte(s, i + 1, end, b)
        }
    } else {
        end
    }
}

/// The first position in `[i, end)` holding an ASCII letter, or `end`.
pub open spec fn first_alpha(s: Seq<u8>, i: int, end: int) -> int
    decreases end - i,
{
    if i < end {
        if is_alpha_byte(s[i]) {
            i
        } else {
            first_alpha(s, i + 1, end)
        }
    } else {
        end
    }
}

/// The end of the digit run that starts at `i`: the first position in
/// `[i, end)` holding a non-digit, or `end`.
pub open spec fn digit_run_end(s: Seq<u8>, i: int, end: int) -> int
    decreases end - i,
{
    if i < end && is_digit_byte(s[i]) {
        digit_run_end(s, i + 1, end)
    } else {
        i
    }
}

/// The value of the decimal numeral written in `s[i..j)`.
pub open spec fn num_val(s: Seq<u8>, i: int, j: int) -> int
    decreases j - i,
{
    if i < j {
        num_val(s, i, j - 1) * 10 + (s[j - 1] - 48)
    } else {
        0
    }
}

/// Parses one decimal number that must fit in a byte: the digit run at
/// `i` and its value, or `None` when no digit stands at `i` or the
/// value exceeds 255.
pub open spec fn spec_u8_num(s: Seq<u8>, i: int, end: int) -> Option<(int, u8)> {
    let j = digit_run_end(s, i, end);
    if j == i {
        None
    } else if num_val(s, i, j) > 255 {
        None
    } else {
        Some((j, num_val(s, i, j) as u8))
    }
}

/// Parses a structured color payload: a type selector, a mandatory
/// semicolon, then three channel numbers after selector 2 or one index
/// number after selector 5. Any other selector, or a missing number,
/// fails the payload.
pub open spec fn spec_color(s: Seq<u8>, i: int, end: int) -> Option<(int, Color)> {
    let j = digit_run_end(s, i, end);
    if j == i {
        None
    } else if !(j < end && s[j] == 59) {
        None
    } else {
        let sel = num_val(s, i, j);
        let k = if j + 1 < end && s[j + 1] == 59 {
            j + 2
        } else {
            j + 1
        };
        if sel == 2 {
            match spec_u8_num(s, k, end) {
                Some((p1, r)) => if p1 < end && s[p1] == 59 {
                    match spec_u8_num(s, p1 + 1, end) {
                        Some((p2, g)) => if p2 < end && s[p2] == 59 {
                            match spec_u8_num(s, p2 + 1, end) {
                                Some((p3, b)) => Some((p3, Color::Rgb(r, g, b))),
                                None => None,
                            }
                        } else {
                            None
                        },
                        None => None,
                    }
                } else {
                    None
                },
                None => None,
            }
        } else if sel == 5 {
            match spec_u8_num(s, k, end) {
                Some((p1, idx)) => Some((p1, Color::Indexed(idx))),
                None => None,
            }
        } else {
            None
        }
    }
}

/// Parses one SGR parameter: its numeric code, the color payload that
/// codes 38 and 48 require, and at most one trailing semicolon.
pub open spec fn spec_item(s: Seq<u8>, i: int, end: int) -> Option<(int, AnsiItem)> {
    match spec_u8_num(s, i, end) {
        None => None,
        Some((j, code)) => if code == 38 || code == 48 {
            let j2 = if j < end && s[j] == 59 {
                j + 1
            } else {
                j
            };
            match spec_color(s, j2, end) {
                None => None,
                Some((k, col)) => {
                    let k2 = if k < end && s[k] == 59 {
                        k + 1
                    } else {
                        k
                    };
                    Some((k2, AnsiItem { code, color: Some(col) }))
                },
            }
        } else {
            let j2 = if j < end && s[j] == 59 {
                j + 1
            } else {
                j
            };
            Some((j2, AnsiItem { code, color: None }))
        },
    }
}

/// Parses the parameter list of an SGR sequence: parameters as long as
/// a digit starts one, failing the whole list when a started parameter
/// cannot be completed.
pub open spec fn spec_items(s: Seq<u8>, i: int, end: int) -> Option<(int, Seq<AnsiItem>)>
    decreases end - i,
    via spec_items_dec
{
    if i < end && is_digit_byte(s[i]) {
        match spec_item(s, i, end) {
            None => None,
            Some((j, it)) => match spec_items(s, j, end) {
                None => None,
                Some((k, rest)) => Some((k, seq![it] + rest)),
            },
        }
    } else {
        Some((i, Seq::empty()))
    }
}

#[via_fn]
proof fn spec_items_dec(s: Seq<u8>, i: int, end: int) {
    if i < end && is_digit_byte(s[i]) {
        lemma_item_bounds(s, i, end);
    }
}

/// Parses a complete SGR sequence `ESC [ <params> m` at `i`: the
/// position after the final `m` and the decoded parameters, or `None`
/// when the bytes at `i` are not such a sequence.
pub open spec fn spec_sgr(s: Seq<u8>, i: int, end: int) -> Option<(int, Seq<AnsiItem>)> {
    if i + 1 < end && s[i] == 27 && s[i + 1] == 91 {
        match spec_items(s, i + 2, end) {
            None => None,
            Some((j, items)) => if j < end && s[j] == 109 {
                Some((j + 1, items))
            } else {
                None
            },
        }
    } else {
        None
    }
}

/// The position after the escape at `i` once it is discarded: through
/// the first letter for a `[` sequence, through the first bell byte for
/// a `]` sequence, and one byte otherwise — always at least one byte,
/// so the scanner always advances.
pub open spec fn spec_skip_escape(s: Seq<u8>, i: int, end: int) -> int
    recommends
        i < end,
{
    if i + 1 < end && s[i + 1] == 91 {
        let fa = first_alpha(s, i + 2, end);
        if fa < end {
            fa + 1
        } else {
            end
        }
    } else if i + 1 < end && s[i + 1] == 93 {
        let fb = find_byte(s, i + 2, end, 7);
        if fb < end {
            fb + 1
        } else {
            end
        }
    } else {
        i + 1
    }
}

/// The style mutation one decoded parameter performs, as the mapping
/// table gives it.
pub open spec fn spec_apply_item(st: Style, it: AnsiItem) -> Style {
    match ansi_code_of(it.code) {
        AnsiCode::Reset => Style::spec_reset(),
        AnsiCode::Bold => Style { modifiers: Modifiers { bold: true, ..st.modifiers }, ..st },
        AnsiCode::Faint => Style { modifiers: Modifiers { dim: true, ..st.modifiers }, ..st },
        AnsiCode::Italic => Style { modifiers: Modifiers { italic: true, ..st.modifiers }, ..st },
        AnsiCode::Underline => Style {
            modifiers: Modifiers { underline: true, ..st.modifiers },
            ..st
        },
        AnsiCode::SlowBlink => Style {
            modifiers: Modifiers { slow_blink: true, ..st.modifiers },
            ..st
        },
        AnsiCode::RapidBlink => Style {
            modifiers: Modifiers { rapid_blink: true, ..st.modifiers },
            ..st
        },
        AnsiCode::Reverse => Style { modifiers: Modifiers { reverse: true, ..st.modifiers }, ..st },
        AnsiCode::Conceal => Style { modifiers: Modifiers { hidden: true, ..st.modifiers }, ..st },
        AnsiCode::CrossedOut => Style {
            modifiers: Modifiers { crossed_out: true, ..st.modifiers },
            ..st
        },
        AnsiCode::BoldOff => Style {
            modifiers: Modifiers { bold: false, dim: false, ..st.modifiers },
            ..st
        },
        AnsiCode::Normal => Style {
            modifiers: Modifiers { bold: false, dim: false, ..st.modifiers },
            ..st
        },
        AnsiCode::NotItalic => Style {
            modifiers: Modifiers { italic: false, ..st.modifiers },
            ..st
        },
        AnsiCode::UnderlineOff => Style {
            modifiers: Modifiers { underline: false, ..st.modifiers },
            ..st
        },
        AnsiCode::BlinkOff => Style {
            modifiers: Modifiers { slow_blink: false, rapid_blink: false, ..st.modifiers },
            ..st
        },
        AnsiCode::InvertOff => Style {
            modifiers: Modifiers { reverse: false, ..st.modifiers },
            ..st
        },
        AnsiCode::Reveal => Style { modifiers: Modifiers { hidden: false, ..st.modifiers }, ..st },
        AnsiCode::CrossedOutOff => Style {
            modifiers: Modifiers { crossed_out: false, ..st.modifiers },
            ..st
        },
        AnsiCode::ForegroundColor(c) => Style { fg: Some(c), ..st },
        AnsiCode::BackgroundColor(c) => Style { bg: Some(c), ..st },
        AnsiCode::SetForegroundColor => match it.color {
            Some(c) => Style { fg: Some(c), ..st },
            None => st,
        },
        AnsiCode::SetBackgroundColor => match it.color {
            Some(c) => Style { bg: Some(c), ..st },
            None => st,
        },
        AnsiCode::DefaultForegroundColor => Style { fg: Some(Color::Reset), ..st },
        AnsiCode::DefaultBackgroundColor => Style { bg: Some(Color::Reset), ..st },
        _ => st,
    }
}

/// Applies decoded parameters left to right onto a carried-in style.
pub open spec fn spec_apply_seq(st: Style, items: Seq<AnsiItem>) -> Style
    decreases items.len(),
{
    if items.len() == 0 {
        st
    } else {
        spec_apply_seq(spec_apply_item(st, items[0]), items.drop_first())
    }
}

/// The style one whole SGR sequence leaves behind: an empty parameter
/// list is a full reset; otherwise the parameters patch the carried-in
/// style left to right.
pub open spec fn spec_apply_sgr(st: Style, items: Seq<AnsiItem>) -> Style {
    if items.len() == 0 {
        Style::spec_reset()
    } else {
        spec_apply_seq(st, items)
    }
}

/// The runs of one newline-free stretch `[i, end)`, scanned under the
/// carried-in style `st`: each run is `(lo, hi, style)` with `s[lo..hi)`
/// its text bytes, escape-free and nonempty, under the style in force
/// while it accumulated. Also yields the style carried out of the
/// stretch.
pub open spec fn spec_runs(s: Seq<u8>, i: int, end: int, st: Style) -> (
    Seq<(int, int, Style)>,
    Style,
)
    decreases end - i,
    via spec_runs_dec
{
    if i >= end {
        (Seq::empty(), st)
    } else if s[i] == 27 {
        match spec_sgr(s, i, end) {
            Some((j, items)) => spec_runs(s, j, end, spec_apply_sgr(st, items)),
            None => spec_runs(s, spec_skip_escape(s, i, end), end, st),
        }
    } else {
        let j = find_byte(s, i, end, 27);
        let (rest, out) = spec_runs(s, j, end, st);
        (seq![(i, j, st)] + rest, out)
    }
}

#[via_fn]
proof fn spec_runs_dec(s: Seq<u8>, i: int, end: int, st: Style) {
    if i < end {
        if s[i] == 27 {
            lemma_sgr_bounds(s, i, end);
            lemma_skip_bounds(s, i, end);
        } else {
            lemma_find_byte(s, i, end, 27);
        }
    }
}

/// The whole document of `s` from position `i` under carried style
/// `st`: one line of runs per newline-terminated stretch, and a final
/// line for trailing bytes only when it holds at least one run.
pub open spec fn spec_doc_from(s: Seq<u8>, i: int, st: Style) -> Seq<Seq<(int, int, Style)>>
    decreases s.len() - i,
    via spec_doc_from_dec
{
    let e = find_byte(s, i, s.len() as int, 10);
    let (runs, out) = spec_runs(s, i, e, st);
    if e < s.len() {
        seq![runs] + spec_doc_from(s, e + 1, out)
    } else {
        if runs.len() == 0 {
            Seq::empty()
        } else {
            seq![runs]
        }
    }
}

#[via_fn]
proof fn spec_doc_from_dec(s: Seq<u8>, i: int, st: Style) {
    if i <= s.len() {
        lemma_find_byte(s, i, s.len() as int, 10);
    }
}

/// The document of `s`: lines of styled runs, scanned from the neutral
/// style.
pub open spec fn doc_runs(s: Seq<u8>) -> Seq<Seq<(int, int, Style)>> {
    spec_doc_from(s, 0, Style::spec_default())
}

/// Where `find_byte` lands: inside the range only on `b`, past every
/// position that is not `b`.
pub proof fn lemma_find_byte(s: Seq<u8>, i: int, end: int, b: u8)
    requires
        i <= end,
    ensures
        i <= find_byte(s, i, end, b) <= end,
        find_byte(s, i, end, b) < end ==> s[find_byte(s, i, end, b)] == b,
        forall|k: int| i <= k < find_byte(s, i, end, b) ==> s[k] != b,
    decreases end - i,
{
    if i < end && s[i] != b {
        lemma_find_byte(s, i + 1, end, b);
    }
}

/// Where `first_alpha` lands: inside the range only on a letter, past
/// every position that is not one.
pub proof fn lemma_first_alpha(s: Seq<u8>, i: int, end: int)
    requires
        i <= end,
    ensures
        i <= first_alpha(s, i, end) <= end,
        first_alpha(s, i, end) < end ==> is_alpha_byte(s[first_alpha(s, i, end)]),
        forall|k: int| i <= k < first_alpha(s, i, end) ==> !is_alpha_byte(s[k]),
    decreases end - i,
{
    if i < end && !is_alpha_byte(s[i]) {
        lemma_first_alpha(s, i + 1, end);
    }
}

/// Where the digit run that starts at `i` ends: digits throughout, and
/// a non-digit (or the range's end) at its end.
pub proof fn lemma_digit_run_end(s: Seq<u8>, i: int, end: int)
    requires
        i <= end,
    ensures
        i <= digit_run_end(s, i, end) <= end,
        digit_run_end(s, i, end) < end ==> !is_digit_byte(s[digit_run_end(s, i, end)]),
        forall|k: int| i <= k < digit_run_end(s, i, end) ==> is_digit_byte(s[k]),
        i < end && is_digit_byte(s[i]) ==> digit_run_end(s, i, end) > i,
    decreases end - i,
{
    if i < end && is_digit_byte(s[i]) {
        lemma_digit_run_end(s, i + 1, end);
    }
}

/// A successful `spec_u8_num` consumes at least one byte and stays in
/// the range.
pub proof fn lemma_u8_num_bounds(s: Seq<u8>, i: int, end: int)
    requires
        i <= end,
    ensures
        spec_u8_num(s, i, end) matches Some(r) ==> i < r.0 <= end,
{
    lemma_digit_run_end(s, i, end);
}

/// A successful `spec_color` consumes at least one byte and stays in
/// the range.
pub proof fn lemma_color_bounds(s: Seq<u8>, i: int, end: int)
    requires
        i <= end,
    ensures
        spec_color(s, i, end) matches Some(r) ==> i < r.0 <= end,
{
    lemma_digit_run_end(s, i, end);
    let j = digit_run_end(s, i, end);
    if j != i && j < end && s[j] == 59 {
        let k = if j + 1 < end && s[j + 1] == 59 {
            j + 2
        } else {
            j + 1
        };
        lemma_u8_num_bounds(s, k, end);
        if let Some((p1, _)) = spec_u8_num(s, k, end) {
            if p1 < end {
                lemma_u8_num_bounds(s, p1 + 1, end);
                if let Some((p2, _)) = spec_u8_num(s, p1 + 1, end) {
                    if p2 < end {
                        lemma_u8_num_bounds(s, p2 + 1, end);
                    }
                }
            }
        }
    }
}

/// A successful `spec_item` consumes at least one byte and stays in
/// the range.
pub proof fn lemma_item_bounds(s: Seq<u8>, i: int, end: int)
    requires
        i <= end,
    ensures
        spec_item(s, i, end) matches Some(r) ==> i < r.0 <= end,
{
    lemma_u8_num_bounds(s, i, end);
    if let Some((j, code)) = spec_u8_num(s, i, end) {
        let j2: int = if j < end && s[j] == 59 {
            j + 1
        } else {
            j
        };
        lemma_color_bounds(s, j2, end);
    }
}

/// A successful parameter list never leaves the range or moves
/// backwards.
pub proof fn lemma_items_bounds(s: Seq<u8>, i: int, end: int)
    requires
        i <= end,
    ensures
        spec_items(s, i, end) matches Some(r) ==> i <= r.0 <= end,
    decreases end - i,
{
    if i < end && is_digit_byte(s[i]) {
        lemma_item_bounds(s, i, end);
        if let Some((j, _)) = spec_item(s, i, end) {
            lemma_items_bounds(s, j, end);
        }
    }
}

/// A successful SGR sequence consumes at least `ESC [ m` and stays in
/// the range.
pub proof fn lemma_sgr_bounds(s: Seq<u8>, i: int, end: int)
    requires
        i <= end,
    ensures
        spec_sgr(s, i, end) matches Some(r) ==> i + 2 < r.0 <= end,
{
    if i + 1 < end && s[i] == 27 && s[i + 1] == 91 {
        lemma_items_bounds(s, i + 2, end);
    }
}

/// Discarding an escape always advances and stays in the range.
pub proof fn lemma_skip_bounds(s: Seq<u8>, i: int, end: int)
    requires
        i < end,
    ensures
        i < spec_skip_escape(s, i, end) <= end,
{
    if i + 1 < end && s[i + 1] == 91 {
        lemma_first_alpha(s, i + 2, end);
    } else if i + 1 < end && s[i + 1] == 93 {
        lemma_find_byte(s, i + 2, end, 7);
    }
}

/// A stretch of digits with a non-digit (or the range's end) after it
/// is exactly where `digit_run_end` lands.
pub proof fn lemma_digit_run_locate(s: Seq<u8>, i: int, j: int, end: int)
    requires
        i <= j <= end,
        forall|k: int| i <= k < j ==> is_digit_byte(s[k]),
        j == end || !is_digit_byte(s[j]),
    ensures
        digit_run_end(s, i, end) == j,
    decreases j - i,
{
    if i < j {
        lemma_digit_run_locate(s, i + 1, j, end);
    }
}

/// A stretch free of `b` with `b` (or the range's end) after it is
/// exactly where `find_byte` lands.
pub proof fn lemma_find_byte_locate(s: Seq<u8>, i: int, j: int, end: int, b: u8)
    requires
        i <= j <= end,
        forall|k: int| i <= k < j ==> s[k] != b,
        j == end || s[j] == b,
    ensures
        find_byte(s, i, end, b) == j,
    decreases j - i,
{
    if i < j {
        lemma_find_byte_locate(s, i + 1, j, end, b);
    }
}

/// A stretch free of letters with a letter (or the range's end) after
/// it is exactly where `first_alpha` lands.
pub proof fn lemma_first_alpha_locate(s: Seq<u8>, i: int, j: int, end: int)
    requires
        i <= j <= end,
        forall|k: int| i <= k < j ==> !is_alpha_byte(s[k]),
        j == end || is_alpha_byte(s[j]),
    ensures
        first_alpha(s, i, end) == j,
    decreases j - i,
{
    if i < j {
        lemma_first_alpha_locate(s, i + 1, j, end);
    }
}

/// Reads the digit run at `i`: where it ends, and its value capped at
/// 256 so that an overflowing parameter is still recognized as one.
fn scan_number(s: &[u8], i: usize, end: usize) -> (r: (usize, u32))
    requires
        i <= end <= s@.len(),
    ensures
        i <= r.0 <= end,
        r.0 == digit_run_end(s@, i as int, end as int),
        num_val(s@, i as int, r.0 as int) <= 255 ==> r.1 == num_val(s@, i as int, r.0 as int),
        num_val(s@, i as int, r.0 as int) > 255 ==> r.1 == 256,
{
    let mut j = i;
    let mut acc: u32 = 0;
    loop
        invariant
            i <= j <= end <= s@.len(),
            forall|k: int| i <= k < j ==> is_digit_byte(s@[k]),
            num_val(s@, i as int, j as int) <= 255 ==> acc == num_val(s@, i as int, j as int),
            num_val(s@, i as int, j as int) > 255 ==> acc == 256,
            acc <= 256,
        ensures
            i <= j <= end,
            forall|k: int| i <= k < j ==> is_digit_byte(s@[k]),
            j == end || !is_digit_byte(s@[j as int]),
            num_val(s@, i as int, j as int) <= 255 ==> acc == num_val(s@, i as int, j as int),
            num_val(s@, i as int, j as int) > 255 ==> acc == 256,
        decreases end - j,
    {
        if j >= end {
            break;
        }
        let b = s[j];
        if b < 48 || b > 57 {
            break;
        }
        proof {
            assert(num_val(s@, i as int, j + 1 as int) == num_val(s@, i as int, j as int) * 10 + (
            s@[j as int] - 48));
        }
        acc = acc * 10 + ((b - 48) as u32);
        if acc > 255 {
            acc = 256;
        }
        j = j + 1;
    }
    proof {
        lemma_digit_run_locate(s@, i as int, j as int, end as int);
    }
    (j, acc)
}

/// Parses one decimal parameter that must fit in a byte, as
/// `spec_u8_num` states it.
fn u8_num(s: &[u8], i: usize, end: usize) -> (r: Option<(usize, u8)>)
    requires
        i <= end <= s@.len(),
    ensures
        (match r {
            Some(p) => spec_u8_num(s@, i as int, end as int) == Some((p.0 as int, p.1)),
            None => spec_u8_num(s@, i as int, end as int) is None,
        }),
        (match r {
            Some(p) => i < p.0 <= end,
            None => true,
        }),
{
    let (j, acc) = scan_number(s, i, end);
    if j == i {
        None
    } else if acc > 255 {
        None
    } else {
        Some((j, acc as u8))
    }
}

/// Parses a structured color payload, as `spec_color` states it.
fn color_at(s: &[u8], i: usize, end: usize) -> (r: Option<(usize, Color)>)
    requires
        i <= end <= s@.len(),
    ensures
        (match r {
            Some(p) => spec_color(s@, i as int, end as int) == Some((p.0 as int, p.1)),
            None => spec_color(s@, i as int, end as int) is None,
        }),
        (match r {
            Some(p) => i < p.0 <= end,
            None => true,
        }),
{
    let (j, sel) = scan_number(s, i, end);
    if j == i {
        return None;
    }
    if !(j < end && s[j] == 59) {
        return None;
    }
    let k = if j + 1 < end && s[j + 1] == 59 {
        j + 2
    } else {
        j + 1
    };
    if sel == 2 {
        let first = u8_num(s, k, end);
        match first {
            None => None,
            Some((p1, red)) => {
                if !(p1 < end && s[p1] == 59) {
                    return None;
                }
                let second = u8_num(s, p1 + 1, end);
                match second {
                    None => None,
                    Some((p2, green)) => {
                        if !(p2 < end && s[p2] == 59) {
                            return None;
                        }
                        let third = u8_num(s, p2 + 1, end);
                        match third {
                            None => None,
                            Some((p3, blue)) => Some((p3, Color::Rgb(red, green, blue))),
                        }
                    },
                }
            },
        }
    } else if sel == 5 {
        match u8_num(s, k, end) {
            None => None,
            Some((p1, idx)) => Some((p1, Color::Indexed(idx))),
        }
    } else {
        None
    }
}

/// Parses one SGR parameter, as `spec_item` states it.
fn item_at(s: &[u8], i: usize, end: usize) -> (r: Option<(usize, AnsiItem)>)
    requires
        i <= end <= s@.len(),
    ensures
        (match r {
            Some(p) => spec_item(s@, i as int, end as int) == Some((p.0 as int, p.1)),
            None => spec_item(s@, i as int, end as int) is None,
        }),
        (match r {
            Some(p) => i < p.0 <= end,
            None => true,
        }),
{
    let first = u8_num(s, i, end);
    match first {
        None => None,
        Some((j, code)) => {
            if code == 38 || code == 48 {
                let j2 = if j < end && s[j] == 59 {
                    j + 1
                } else {
                    j
                };
                match color_at(s, j2, end) {
                    None => None,
                    Some((k, col)) => {
                        let k2 = if k < end && s[k] == 59 {
                            k + 1
                        } else {
                            k
                        };
                        Some((k2, AnsiItem { code, color: Some(col) }))
                    },
                }
            } else {
                let j2 = if j < end && s[j] == 59 {
                    j + 1
                } else {
                    j
                };
                Some((j2, AnsiItem { code, color: None }))
            }
        },
    }
}

/// Parses the parameter list of an SGR sequence, as `spec_items`
/// states it.
fn items_at(s: &[u8], i: usize, end: usize) -> (r: Option<(usize, Vec<AnsiItem>)>)
    requires
        i <= end <= s@.len(),
    ensures
        (match r {
            Some(p) => spec_items(s@, i as int, end as int) == Some((p.0 as int, p.1@)),
            None => spec_items(s@, i as int, end as int) is None,
        }),
        (match r {
            Some(p) => i <= p.0 <= end,
            None => true,
        }),
{
    let mut pos = i;
    let mut acc: Vec<AnsiItem> = Vec::new();
    loop
        invariant
            i <= pos <= end <= s@.len(),
            forall|k: int, rest: Seq<AnsiItem>|
                spec_items(s@, pos as int, end as int) == Some((k, rest)) ==> spec_items(
                    s@,
                    i as int,
                    end as int,
                ) == Some((k, acc@ + rest)),
            spec_items(s@, pos as int, end as int) is None ==> spec_items(
                s@,
                i as int,
                end as int,
            ) is None,
        ensures
            i <= pos <= end,
            spec_items(s@, i as int, end as int) == Some((pos as int, acc@)),
        decreases end - pos,
    {
        if pos >= end {
            proof {
                assert(spec_items(s@, pos as int, end as int) == Some(
                    (pos as int, Seq::<AnsiItem>::empty()),
                ));
                assert(acc@ + Seq::<AnsiItem>::empty() =~= acc@);
            }
            break;
        }
        let b = s[pos];
        if b < 48 || b > 57 {
            proof {
                assert(spec_items(s@, pos as int, end as int) == Some(
                    (pos as int, Seq::<AnsiItem>::empty()),
                ));
                assert(acc@ + Seq::<AnsiItem>::empty() =~= acc@);
            }
            break;
        }
        let ghost old_pos = pos as int;
        let ghost old_acc = acc@;
        let parsed = item_at(s, pos, end);
        match parsed {
            None => {
                return None;
            },
            Some((j, it)) => {
                acc.push(it);
                pos = j;
                proof {
                    assert forall|k: int, rest: Seq<AnsiItem>|
                        spec_items(s@, pos as int, end as int) == Some((k, rest)) implies spec_items(
                        s@,
                        i as int,
                        end as int,
                    ) == Some((k, acc@ + rest)) by {
                        assert(spec_items(s@, old_pos, end as int) == Some(
                            (k, seq![it] + rest),
                        ));
                        assert(old_acc + (seq![it] + rest) =~= acc@ + rest);
                    }
                }
            },
        }
    }
    Some((pos, acc))
}

/// Parses a complete SGR sequence at `i`, as `spec_sgr` states it.
fn sgr_at(s: &[u8], i: usize, end: usize) -> (r: Option<(usize, Vec<AnsiItem>)>)
    requires
        i <= end <= s@.len(),
    ensures
        (match r {
            Some(p) => spec_sgr(s@, i as int, end as int) == Some((p.0 as int, p.1@)),
            None => spec_sgr(s@, i as int, end as int) is None,
        }),
        (match r {
            Some(p) => i + 2 < p.0 <= end,
            None => true,
        }),
{
    if i < end && i + 1 < end && s[i] == 27 && s[i + 1] == 91 {
        match items_at(s, i + 2, end) {
            None => None,
            Some((j, items)) => {
                if j < end && s[j] == 109 {
                    Some((j + 1, items))
                } else {
                    None
                }
            },
        }
    } else {
        None
    }
}

/// Consumes the escape at `i` that is not an SGR sequence, as
/// `spec_skip_escape` states it.
fn skip_escape_at(s: &[u8], i: usize, end: usize) -> (r: usize)
    requires
        i < end <= s@.len(),
    ensures
        r as int == spec_skip_escape(s@, i as int, end as int),
        i < r <= end,
{
    if i + 1 < end && s[i + 1] == 91 {
        let mut j = i + 2;
        loop
            invariant
                i + 2 <= j <= end <= s@.len(),
                forall|k: int| i + 2 <= k < j ==> !is_alpha_byte(s@[k]),
            ensures
                i + 2 <= j <= end,
                forall|k: int| i + 2 <= k < j ==> !is_alpha_byte(s@[k]),
                j == end || is_alpha_byte(s@[j as int]),
            decreases end - j,
        {
            if j >= end {
                break;
            }
            let b = s[j];
            if (65 <= b && b <= 90) || (97 <= b && b <= 122) {
                break;
            }
            j = j + 1;
        }
        proof {
            lemma_first_alpha_locate(s@, i + 2 as int, j as int, end as int);
        }
        if j < end {
            j + 1
        } else {
            end
        }
    } else if i + 1 < end && s[i + 1] == 93 {
        let mut j = i + 2;
        loop
            invariant
                i + 2 <= j <= end <= s@.len(),
                forall|k: int| i + 2 <= k < j ==> s@[k] != 7,
            ensures
                i + 2 <= j <= end,
                forall|k: int| i + 2 <= k < j ==> s@[k] != 7,
                j == end || s@[j as int] == 7,
            decreases end - j,
        {
            if j >= end {
                break;
            }
            let b = s[j];
            if b == 7 {
                break;
            }
            j = j + 1;
        }
        proof {
            lemma_find_byte_locate(s@, i + 2 as int, j as int, end as int, 7);
        }
        if j < end {
            j + 1
        } else {
            end
        }
    } else {
        i + 1
    }
}

/// Performs the style mutation of one decoded parameter, as
/// `spec_apply_item` states it.
fn apply_item(st: Style, it: &AnsiItem) -> (r: Style)
    ensures
        r == spec_apply_item(st, *it),
{
    match AnsiCode::from(it.code) {
        AnsiCode::Reset => Style::reset(),
        AnsiCode::Bold => Style { modifiers: Modifiers { bold: true, ..st.modifiers }, ..st },
        AnsiCode::Faint => Style { modifiers: Modifiers { dim: true, ..st.modifiers }, ..st },
        AnsiCode::Italic => Style { modifiers: Modifiers { italic: true, ..st.modifiers }, ..st },
        AnsiCode::Underline => Style {
            modifiers: Modifiers { underline: true, ..st.modifiers },
            ..st
        },
        AnsiCode::SlowBlink => Style {
            modifiers: Modifiers { slow_blink: true, ..st.modifiers },
            ..st
        },
        AnsiCode::RapidBlink => Style {
            modifiers: Modifiers { rapid_blink: true, ..st.modifiers },
            ..st
        },
        AnsiCode::Reverse => Style { modifiers: Modifiers { reverse: true, ..st.modifiers }, ..st },
        AnsiCode::Conceal => Style { modifiers: Modifiers { hidden: true, ..st.modifiers }, ..st },
        AnsiCode::CrossedOut => Style {
            modifiers: Modifiers { crossed_out: true, ..st.modifiers },
            ..st
        },
        AnsiCode::BoldOff => Style {
            modifiers: Modifiers { bold: false, dim: false, ..st.modifiers },
            ..st
        },
        AnsiCode::Normal => Style {
            modifiers: Modifiers { bold: false, dim: false, ..st.modifiers },
            ..st
        },
        AnsiCode::NotItalic => Style {
            modifiers: Modifiers { italic: false, ..st.modifiers },
            ..st
        },
        AnsiCode::UnderlineOff => Style {
            modifiers: Modifiers { underline: false, ..st.modifiers },
            ..st
        },
        AnsiCode::BlinkOff => Style {
            modifiers: Modifiers { slow_blink: false, rapid_blink: false, ..st.modifiers },
            ..st
        },
        AnsiCode::InvertOff => Style {
            modifiers: Modifiers { reverse: false, ..st.modifiers },
            ..st
        },
        AnsiCode::Reveal => Style { modifiers: Modifiers { hidden: false, ..st.modifiers }, ..st },
        AnsiCode::CrossedOutOff => Style {
            modifiers: Modifiers { crossed_out: false, ..st.modifiers },
            ..st
        },
        AnsiCode::ForegroundColor(c) => Style { fg: Some(c), ..st },
        AnsiCode::BackgroundColor(c) => Style { bg: Some(c), ..st },
        AnsiCode::SetForegroundColor => match it.color {
            Some(c) => Style { fg: Some(c), ..st },
            None => st,
        },
        AnsiCode::SetBackgroundColor => match it.color {
            Some(c) => Style { bg: Some(c), ..st },
            None => st,
        },
        AnsiCode::DefaultForegroundColor => Style { fg: Some(Color::Reset), ..st },
        AnsiCode::DefaultBackgroundColor => Style { bg: Some(Color::Reset), ..st },
        _ => st,
    }
}

/// Applies one whole SGR sequence onto a carried-in style, as
/// `spec_apply_sgr` states it.
fn apply_sgr(st: Style, items: &Vec<AnsiItem>) -> (r: Style)
    ensures
        r == spec_apply_sgr(st, items@),
{
    if items.len() == 0 {
        return Style::reset();
    }
    let mut cur = st;
    let mut k: usize = 0;
    proof {
        assert(items@.skip(0) =~= items@);
    }
    while k < items.len()
        invariant
            0 <= k <= items.len(),
            spec_apply_seq(st, items@) == spec_apply_seq(cur, items@.skip(k as int)),
        decreases items.len() - k,
    {
        proof {
            let tail = items@.skip(k as int);
            assert(tail[0] == items@[k as int]);
            assert(tail.drop_first() =~= items@.skip(k as int + 1));
        }
        cur = apply_item(cur, &items[k]);
        k = k + 1;
    }
    proof {
        assert(items@.skip(items@.len() as int) =~= Seq::<AnsiItem>::empty());
    }
    cur
}

/// One raw run of a scanned line: the input bytes `[lo, hi)` and the
/// style in force while they accumulated.
#[derive(Debug, Clone, Copy, PartialEq, Eq)]
pub struct RawRun {
    pub lo: usize,
    pub hi: usize,
    pub style: Style,
}

impl View for RawRun {
    type V = (int, int, Style);

    open spec fn view(&self) -> (int, int, Style) {
        (self.lo as int, self.hi as int, self.style)
    }
}

impl DeepView for RawRun {
    type V = (int, int, Style);

    open spec fn deep_view(&self) -> (int, int, Style) {
        self.view()
    }
}

/// Scans one newline-free stretch `[i, end)` under the carried-in
/// style, as `spec_runs` states it: the runs of the stretch and the
/// style carried out of it.
pub(crate) fn scan_segment(s: &[u8], i: usize, end: usize, st: Style) -> (r: (Vec<RawRun>, Style))
    requires
        i <= end <= s@.len(),
    ensures
        r.0.deep_view() == spec_runs(s@, i as int, end as int, st).0,
        r.1 == spec_runs(s@, i as int, end as int, st).1,
{
    let mut pos = i;
    let mut cur = st;
    let mut acc: Vec<RawRun> = Vec::new();
    proof {
        assert(acc.deep_view() =~= Seq::<(int, int, Style)>::empty());
        assert(acc.deep_view() + spec_runs(s@, i as int, end as int, st).0 =~= spec_runs(
            s@,
            i as int,
            end as int,
            st,
        ).0);
    }
    loop
        invariant
            i <= pos <= end <= s@.len(),
            spec_runs(s@, i as int, end as int, st).0 == acc.deep_view() + spec_runs(
                s@,
                pos as int,
                end as int,
                cur,
            ).0,
            spec_runs(s@, i as int, end as int, st).1 == spec_runs(
                s@,
                pos as int,
                end as int,
                cur,
            ).1,
        ensures
            pos == end,
            spec_runs(s@, i as int, end as int, st).0 == acc.deep_view(),
            spec_runs(s@, i as int, end as int, st).1 == cur,
        decreases end - pos,
    {
        if pos >= end {
            proof {
                assert(spec_runs(s@, pos as int, end as int, cur).0 =~= Seq::<(
                    int,
                    int,
                    Style,
                )>::empty());
                assert(acc.deep_view() + spec_runs(s@, pos as int, end as int, cur).0
                    =~= acc.deep_view());
            }
            break;
        }
        let b = s[pos];
        if b == 27 {
            let parsed = sgr_at(s, pos, end);
            match parsed {
                Some((j, items)) => {
                    cur = apply_sgr(cur, &items);
                    pos = j;
                },
                None => {
                    pos = skip_escape_at(s, pos, end);
                },
            }
        } else {
            let mut j = pos;
            loop
                invariant
                    pos <= j <= end <= s@.len(),
                    forall|k: int| pos <= k < j ==> s@[k] != 27,
                ensures
                    pos <= j <= end,
                    forall|k: int| pos <= k < j ==> s@[k] != 27,
                    j == end || s@[j as int] == 27,
                decreases end - j,
            {
                if j >= end {
                    break;
                }
                if s[j] == 27 {
                    break;
                }
                j = j + 1;
            }
            proof {
                lemma_find_byte_locate(s@, pos as int, j as int, end as int, 27);
            }
            let ghost old_dv = acc.deep_view();
            let ghost old_pos = pos as int;
            acc.push(RawRun { lo: pos, hi: j, style: cur });
            proof {
                assert(acc.deep_view() =~= old_dv.push((old_pos, j as int, cur)));
                let rest = spec_runs(s@, j as int, end as int, cur).0;
                assert(old_dv + (seq![(old_pos, j as int, cur)] + rest) =~= acc.deep_view()
                    + rest);
            }
            pos = j;
        }
    }
    (acc, cur)
}

/// The meaning `style` gives the front of `s`: a parsed SGR sequence
/// with the style it leaves, a discarded non-SGR escape with no style,
/// or nothing when `s` does not start with an escape.
pub open spec fn spec_style(prev: Style, s: Seq<u8>) -> Option<(int, Option<Style>)> {
    match spec_sgr(s, 0, s.len() as int) {
        Some((p, items)) => Some((p, Some(spec_apply_sgr(prev, items)))),
        None => if s.len() > 0 && s[0] == 27 {
            Some((spec_skip_escape(s, 0, s.len() as int), None))
        } else {
            None
        },
    }
}

/// Reads the escape at the front of `s` under the carried-in style
/// `prev`: how many bytes it spans, and the style it leaves when it is
/// an SGR sequence.
pub fn style(prev: Style, s: &[u8]) -> (r: Option<(usize, Option<Style>)>)
    ensures
        (match r {
            Some((p, Some(st))) => spec_style(prev, s@) == Some((p as int, Some(st))),
            Some((p, None::<Style>)) => spec_style(prev, s@) == Some((p as int, None::<Style>)),
            None => spec_style(prev, s@) is None,
        }),
{
    let parsed = sgr_at(s, 0, s.len());
    match parsed {
        Some((p, items)) => Some((p, Some(apply_sgr(prev, &items)))),
        None => {
            if s.len() > 0 && s[0] == 27 {
                Some((skip_escape_at(s, 0, s.len()), None))
            } else {
                None
            }
        },
    }
}

/// Parses a structured color payload at the front of `s`, as
/// `spec_color` states it: the bytes consumed and the color.
pub fn color(s: &[u8]) -> (r: Option<(usize, Color)>)
    ensures
        (match r {
            Some(p) => spec_color(s@, 0, s@.len() as int) == Some((p.0 as int, p.1)),
            None => spec_color(s@, 0, s@.len() as int) is None,
        }),
{
    color_at(s, 0, s.len())
}

/// Every run a stretch scan yields lies inside the stretch and is
/// nonempty.
pub proof fn lemma_runs_bounds(s: Seq<u8>, i: int, end: int, st: Style)
    requires
        i <= end,
    ensures
        forall|k: int|
            0 <= k < spec_runs(s, i, end, st).0.len() ==> i <= (#[trigger] spec_runs(
                s,
                i,
                end,
                st,
            ).0[k]).0 < spec_runs(s, i, end, st).0[k].1 <= end,
    decreases end - i,
{
    if i >= end {
    } else if s[i] == 27 {
        lemma_sgr_bounds(s, i, end);
        lemma_skip_bounds(s, i, end);
        match spec_sgr(s, i, end) {
            Some((j, items)) => {
                let st2 = spec_apply_sgr(st, items);
                lemma_runs_bounds(s, j, end, st2);
                assert forall|k: int| 0 <= k < spec_runs(s, i, end, st).0.len() implies i <= (
                #[trigger] spec_runs(s, i, end, st).0[k]).0 < spec_runs(s, i, end, st).0[k].1
                    <= end by {
                    assert(spec_runs(s, i, end, st).0[k] == spec_runs(s, j, end, st2).0[k]);
                }
            },
            None => {
                let j = spec_skip_escape(s, i, end);
                lemma_runs_bounds(s, j, end, st);
                assert forall|k: int| 0 <= k < spec_runs(s, i, end, st).0.len() implies i <= (
                #[trigger] spec_runs(s, i, end, st).0[k]).0 < spec_runs(s, i, end, st).0[k].1
                    <= end by {
                    assert(spec_runs(s, i, end, st).0[k] == spec_runs(s, j, end, st).0[k]);
                }
            },
        }
    } else {
        lemma_find_byte(s, i, end, 27);
        let j = find_byte(s, i, end, 27);
        lemma_runs_bounds(s, j, end, st);
        assert forall|k: int| 0 <= k < spec_runs(s, i, end, st).0.len() implies i <= (
        #[trigger] spec_runs(s, i, end, st).0[k]).0 < spec_runs(s, i, end, st).0[k].1 <= end by {
            if k == 0 {
                assert(spec_runs(s, i, end, st).0[k] == (i, j, st));
            } else {
                assert(spec_runs(s, i, end, st).0[k] == spec_runs(s, j, end, st).0[k - 1]);
            }
        }
    }
}

/// Every run of every line of a document lies inside the input and is
/// nonempty.
pub proof fn lemma_doc_bounds(s: Seq<u8>, i: int, st: Style)
    requires
        0 <= i,
    ensures
        forall|li: int, ri: int|
            0 <= li < spec_doc_from(s, i, st).len() && 0 <= ri < spec_doc_from(s, i, st)[li].len()
                ==> 0 <= (#[trigger] spec_doc_from(s, i, st)[li][ri]).0 < spec_doc_from(
                s,
                i,
                st,
            )[li][ri].1 <= s.len(),
    decreases s.len() - i,
{
    let e = find_byte(s, i, s.len() as int, 10);
    let (runs, out) = spec_runs(s, i, e, st);
    if i <= s.len() {
        lemma_find_byte(s, i, s.len() as int, 10);
        lemma_runs_bounds(s, i, e, st);
        if e < s.len() {
            lemma_doc_bounds(s, e + 1, out);
            assert forall|li: int, ri: int|
                0 <= li < spec_doc_from(s, i, st).len() && 0 <= ri < spec_doc_from(
                    s,
                    i,
                    st,
                )[li].len() implies 0 <= (#[trigger] spec_doc_from(s, i, st)[li][ri]).0
                < spec_doc_from(s, i, st)[li][ri].1 <= s.len() by {
                if li == 0 {
                    assert(spec_doc_from(s, i, st)[li] == runs);
                } else {
                    assert(spec_doc_from(s, i, st)[li] == spec_doc_from(s, e + 1, out)[li - 1]);
                }
            }
        }
    }
}

/// Scans the whole input into lines of raw runs, as `doc_runs` states
/// it.
pub(crate) fn scan_raw(bytes: &[u8]) -> (r: Vec<Vec<RawRun>>)
    ensures
        r.deep_view() == doc_runs(bytes@),
{
    let len = bytes.len();
    let mut pos: usize = 0;
    let mut cur = Style::default();
    let mut out: Vec<Vec<RawRun>> = Vec::new();
    proof {
        assert(out.deep_view() =~= Seq::<Seq<(int, int, Style)>>::empty());
        assert(out.deep_view() + spec_doc_from(bytes@, 0, Style::spec_default()) =~= spec_doc_from(
            bytes@,
            0,
            Style::spec_default(),
        ));
    }
    loop
        invariant_except_break
            doc_runs(bytes@) == out.deep_view() + spec_doc_from(bytes@, pos as int, cur),
        invariant
            pos <= len == bytes@.len(),
        ensures
            doc_runs(bytes@) == out.deep_view(),
        decreases len - pos,
    {
        let mut e = pos;
        loop
            invariant
                pos <= e <= len == bytes@.len(),
                forall|k: int| pos <= k < e ==> bytes@[k] != 10,
            ensures
                pos <= e <= len,
                forall|k: int| pos <= k < e ==> bytes@[k] != 10,
                e == len || bytes@[e as int] == 10,
            decreases len - e,
        {
            if e >= len {
                break;
            }
            if bytes[e] == 10 {
                break;
            }
            e = e + 1;
        }
        proof {
            lemma_find_byte_locate(bytes@, pos as int, e as int, len as int, 10);
        }
        let (runs, st2) = scan_segment(bytes, pos, e, cur);
        let ghost old_dv = out.deep_view();
        let ghost runs_spec = spec_runs(bytes@, pos as int, e as int, cur).0;
        if e < len {
            out.push(runs);
            proof {
                assert(out.deep_view() =~= old_dv.push(runs_spec));
                let rest = spec_doc_from(bytes@, e + 1 as int, st2);
                assert(old_dv + (seq![runs_spec] + rest) =~= out.deep_view() + rest);
            }
            cur = st2;
            pos = e + 1;
        } else {
            if runs.len() > 0 {
                proof {
                    assert(runs.deep_view().len() == runs@.len());
                }
                out.push(runs);
                proof {
                    assert(out.deep_view() =~= old_dv.push(runs_spec));
                    assert(old_dv + seq![runs_spec] =~= out.deep_view());
                }
            } else {
                proof {
                    assert(runs_spec.len() == 0);
                    assert(old_dv + Seq::<Seq<(int, int, Style)>>::empty() =~= out.deep_view());
                }
            }
            break;
        }
    }
    out
}

/// The document plain text yields: split at every newline, one
/// neutral-styled run per nonempty stretch, the trailing stretch kept
/// only when nonempty.
pub open spec fn plain_doc_from(s: Seq<u8>, i: int) -> Seq<Seq<(int, int, Style)>>
    decreases s.len() - i,
    via plain_doc_from_dec
{
    let e = find_byte(s, i, s.len() as int, 10);
    let runs: Seq<(int, int, Style)> = if i < e {
        seq![(i, e, Style::spec_default())]
    } else {
        Seq::empty()
    };
    if e < s.len() {
        seq![runs] + plain_doc_from(s, e + 1)
    } else {
        if runs.len() == 0 {
            Seq::empty()
        } else {
            seq![runs]
        }
    }
}

#[via_fn]
proof fn plain_doc_from_dec(s: Seq<u8>, i: int) {
    if i <= s.len() {
        lemma_find_byte(s, i, s.len() as int, 10);
    }
}

/// A newline-free stretch with no escape byte scans to a single run —
/// the whole stretch — under the carried-in style, which it leaves
/// unchanged.
pub proof fn lemma_plain_runs(s: Seq<u8>, i: int, end: int, st: Style)
    requires
        i <= end,
        forall|k: int| i <= k < end ==> s[k] != 27,
    ensures
        spec_runs(s, i, end, st).1 == st,
        i == end ==> spec_runs(s, i, end, st).0 =~= Seq::<(int, int, Style)>::empty(),
        i < end ==> spec_runs(s, i, end, st).0 =~= seq![(i, end, st)],
{
    if i < end {
        lemma_find_byte_locate(s, i, end, end, 27);
        assert(spec_runs(s, end, end, st).0 =~= Seq::<(int, int, Style)>::empty());
        assert(spec_runs(s, i, end, st).0 =~= seq![(i, end, st)] + Seq::<(
            int,
            int,
            Style,
        )>::empty());
    }
}

/// Text with no escape byte splits into lines solely on the newline
/// byte, and every run carries the neutral style: the scan equals the
/// plain split.
pub proof fn lemma_plain_text(s: Seq<u8>)
    requires
        forall|k: int| 0 <= k < s.len() ==> s[k] != 27,
    ensures
        doc_runs(s) == plain_doc_from(s, 0),
{
    lemma_plain_text_from(s, 0);
}

/// The generalization of `lemma_plain_text` to any start position.
proof fn lemma_plain_text_from(s: Seq<u8>, i: int)
    requires
        0 <= i,
        forall|k: int| 0 <= k < s.len() ==> s[k] != 27,
    ensures
        spec_doc_from(s, i, Style::spec_default()) == plain_doc_from(s, i),
    decreases s.len() - i,
{
    let e = find_byte(s, i, s.len() as int, 10);
    if i <= s.len() {
        lemma_find_byte(s, i, s.len() as int, 10);
        lemma_plain_runs(s, i, e, Style::spec_default());
        if e < s.len() {
            lemma_plain_text_from(s, e + 1);
        }
        assert(spec_doc_from(s, i, Style::spec_default()) =~= plain_doc_from(s, i));
    } else {
        assert(spec_doc_from(s, i, Style::spec_default()) =~= plain_doc_from(s, i));
    }
}

/// The decimal numeral of `n`, most significant digit first.
pub open spec fn dec_digits(n: int) -> Seq<u8>
    recommends
        0 <= n,
    decreases n,
{
    if n <= 9 {
        seq![(48 + n) as u8]
    } else {
        dec_digits(n / 10).push((48 + n % 10) as u8)
    }
}

/// A decimal numeral is nonempty and made of digit bytes.
pub proof fn lemma_dec_digits_shape(n: int)
    requires
        0 <= n,
    ensures
        dec_digits(n).len() >= 1,
        forall|k: int| 0 <= k < dec_digits(n).len() ==> is_digit_byte(#[trigger] dec_digits(n)[k]),
    decreases n,
{
    if n > 9 {
        lemma_dec_digits_shape(n / 10);
    }
}

/// Reading the decimal numeral of `n` back as a number gives `n`.
pub proof fn lemma_num_val_of_digits(s: Seq<u8>, i: int, n: int)
    requires
        0 <= n,
        0 <= i,
        i + dec_digits(n).len() <= s.len(),
        s.subrange(i, i + dec_digits(n).len() as int) == dec_digits(n),
    ensures
        num_val(s, i, i + dec_digits(n).len() as int) == n,
    decreases n,
{
    let d = dec_digits(n);
    let j = i + d.len() as int;
    assert(s[j - 1] == d[d.len() - 1]);
    if n <= 9 {
        assert(num_val(s, i, j) == num_val(s, i, i) * 10 + (s[i] - 48));
    } else {
        let d2 = dec_digits(n / 10);
        assert(s.subrange(i, j - 1) =~= d2) by {
            assert forall|k: int| 0 <= k < d2.len() implies s.subrange(i, j - 1)[k] == d2[k] by {
                assert(s[i + k] == d[k]);
            }
        }
        lemma_num_val_of_digits(s, i, n / 10);
        vstd::arithmetic::div_mod::lemma_fundamental_div_mod(n, 10);
    }
}

/// The 256-color law: for every index `n`, the sequence
/// `ESC [ 3 8 ; 5 ; <digits of n> m` followed by plain text scans to a
/// single line holding a single run — the text — whose style is the
/// neutral base with foreground `Indexed(n)`.
pub proof fn lemma_indexed_foreground(n: u8, tail: Seq<u8>)
    requires
        tail.len() > 0,
        forall|k: int| 0 <= k < tail.len() ==> tail[k] != 27 && tail[k] != 10,
    ensures
        ({
            let d = dec_digits(n as int);
            let s = seq![27u8, 91u8, 51u8, 56u8, 59u8, 53u8, 59u8] + d + seq![109u8] + tail;
            let st = Style { fg: Some(Color::Indexed(n)), ..Style::spec_default() };
            doc_runs(s) == seq![seq![(8 + d.len() as int, s.len() as int, st)]]
        }),
{
    let d = dec_digits(n as int);
    let dlen = d.len() as int;
    let s = seq![27u8, 91u8, 51u8, 56u8, 59u8, 53u8, 59u8] + d + seq![109u8] + tail;
    let st = Style { fg: Some(Color::Indexed(n)), ..Style::spec_default() };
    let len = s.len() as int;
    lemma_dec_digits_shape(n as int);
    assert(len == 8 + dlen + tail.len());
    assert(s[0] == 27 && s[1] == 91 && s[2] == 51 && s[3] == 56 && s[4] == 59 && s[5] == 53 && s[6]
        == 59);
    assert(forall|k: int| 0 <= k < dlen ==> s[7 + k] == d[k]);
    assert(s[7 + dlen] == 109);
    assert(forall|k: int| 0 <= k < tail.len() ==> s[8 + dlen + k] == tail[k]);

    // the code number 38
    lemma_digit_run_locate(s, 2, 4, len);
    assert(num_val(s, 2, 3) == num_val(s, 2, 2) * 10 + (s[2] - 48));
    assert(num_val(s, 2, 4) == num_val(s, 2, 3) * 10 + (s[3] - 48));
    assert(spec_u8_num(s, 2, len) == Some((4int, 38u8)));

    // the selector 5 and its mandatory semicolon
    lemma_digit_run_locate(s, 5, 6, len);
    assert(num_val(s, 5, 6) == num_val(s, 5, 5) * 10 + (s[5] - 48));

    // the index digits, terminated by the final letter
    assert(s.subrange(7, 7 + dlen) =~= d);
    lemma_digit_run_locate(s, 7, 7 + dlen, len);
    lemma_num_val_of_digits(s, 7, n as int);
    assert(spec_u8_num(s, 7, len) == Some((7 + dlen, n)));
    assert(spec_color(s, 5, len) == Some((7 + dlen, Color::Indexed(n))));

    // one parameter, then the terminator
    let item = AnsiItem { code: 38u8, color: Some(Color::Indexed(n)) };
    assert(spec_item(s, 2, len) == Some((7 + dlen, item)));
    assert(spec_items(s, 7 + dlen, len) == Some((7 + dlen, Seq::<AnsiItem>::empty())));
    assert(seq![item] + Seq::<AnsiItem>::empty() =~= seq![item]);
    assert(spec_items(s, 2, len) == Some((7 + dlen, seq![item])));
    assert(spec_sgr(s, 0, len) == Some((8 + dlen, seq![item])));

    // the style the sequence leaves
    assert(seq![item].drop_first() =~= Seq::<AnsiItem>::empty());
    assert(seq![item][0] == item);
    assert(spec_apply_item(Style::spec_default(), item) == st);
    assert(spec_apply_seq(Style::spec_default(), seq![item]) == spec_apply_seq(
        st,
        seq![item].drop_first(),
    ));
    assert(spec_apply_seq(st, Seq::<AnsiItem>::empty()) == st);
    assert(spec_apply_sgr(Style::spec_default(), seq![item]) == st);

    // the text run under it
    lemma_find_byte_locate(s, 8 + dlen, len, len, 27);
    assert(spec_runs(s, len, len, st).0 =~= Seq::<(int, int, Style)>::empty());
    assert(spec_runs(s, 8 + dlen, len, st).0 =~= seq![(8 + dlen, len, st)]);
    assert(spec_runs(s, 0, len, Style::spec_default()).0 == spec_runs(s, 8 + dlen, len, st).0);

    // no newline anywhere: one line, kept because it holds a run
    lemma_find_byte_locate(s, 0, len, len, 10);
    assert(doc_runs(s) =~= seq![spec_runs(s, 0, len, Style::spec_default()).0]);
    assert(doc_runs(s) == seq![seq![(8 + dlen, len, st)]]);
}

} // verus!
