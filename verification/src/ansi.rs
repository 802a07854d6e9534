//! The entry points: one shared scan, two ways to materialize span
//! text.
//!
//! `ansi_to_text` copies every span's text into owned storage;
//! `to_text` hands out slices of the input instead. Both are proved
//! against the same document model (`doc_view`), so for one input they
//! yield structurally identical documents by construction.

use crate::error::Error;
use crate::parser::{doc_runs, scan_raw, RawRun};
use crate::style::Style;
use crate::text::{Line, LineRef, Span, SpanRef, Text, TextRef};
use vstd::prelude::*;
use vstd::utf8::{decode_utf8, encode_utf8_decode_utf8, valid_utf8};
use vstd::slice::slice_subrange;
use vstd::string::StringSliceAdditionalSpecFns;

verus! {

/// The text bytes of one raw run.
pub open spec fn run_bytes(s: Seq<u8>, r: (int, int, Style)) -> Seq<u8> {
    s.subrange(r.0, r.1)
}

/// True when every text run of the document is valid UTF-8 — exactly
/// when a parse returns a document rather than a decode error.
pub open spec fn doc_ok(s: Seq<u8>) -> bool {
    forall|li: int, ri: int|
        0 <= li < doc_runs(s).len() && 0 <= ri < doc_runs(s)[li].len() ==> valid_utf8(
            run_bytes(s, #[trigger] doc_runs(s)[li][ri]),
        )
}

/// The document both output strategies must produce: every raw run
/// decoded to its characters, under its style.
pub open spec fn doc_view(s: Seq<u8>) -> Seq<Seq<(Seq<char>, Style)>> {
    doc_runs(s).map(
        |li: int, line: Seq<(int, int, Style)>|
            line.map(|ri: int, r: (int, int, Style)| (decode_utf8(run_bytes(s, r)), r.2)),
    )
}

/// Relies on `simdutf8::basic::from_utf8`: it returns the input bytes
/// as a `&str` exactly when they are valid UTF-8, and the returned
/// slice is those very bytes.
#[verifier::external_body]
fn utf8_to_str(bytes: &[u8]) -> (r: Option<&str>)
    ensures
        r is Some <==> valid_utf8(bytes@),
        r matches Some(t) ==> t.spec_bytes() == bytes@,
{
    match simdutf8::basic::from_utf8(bytes) {
        Ok(t) => Some(t),
        Err(_) => None,
    }
}

/// Decodes the input bytes `[lo, hi)` as UTF-8: the characters they
/// encode, or nothing when they are not valid UTF-8.
fn run_str<'a>(s: &'a [u8], lo: usize, hi: usize) -> (r: Option<&'a str>)
    requires
        lo <= hi <= s@.len(),
    ensures
        r is Some <==> valid_utf8(s@.subrange(lo as int, hi as int)),
        r matches Some(t) ==> t@ == decode_utf8(s@.subrange(lo as int, hi as int)),
{
    let sub = slice_subrange(s, lo, hi);
    let r = utf8_to_str(sub);
    proof {
        if let Some(t) = r {
            encode_utf8_decode_utf8(t@);
        }
    }
    r
}

/// Converts a byte stream with ANSI SGR escapes into a document whose
/// spans own their text.
///
/// Returns the document exactly when every text run is valid UTF-8;
/// the one error is `Utf8Error`. Malformed or unrecognized escape
/// content never fails the parse: it is skipped by the scanner.
pub fn ansi_to_text(bytes: &[u8]) -> (r: Result<Text, Error>)
    ensures
        r is Ok <==> doc_ok(bytes@),
        r matches Ok(t) ==> t@ == doc_view(bytes@),
        r matches Err(e) ==> e == Error::Utf8Error,
{
    let raw = scan_raw(bytes);
    let n = raw.len();
    let mut lines: Vec<Line> = Vec::new();
    let mut li: usize = 0;
    while li < n
        invariant
            li <= n == raw@.len(),
            raw.deep_view() == doc_runs(bytes@),
            lines@.len() == li,
            lines.deep_view() == doc_view(bytes@).subrange(0, li as int),
            forall|a: int, b: int|
                0 <= a < li && 0 <= b < doc_runs(bytes@)[a].len() ==> valid_utf8(
                    run_bytes(bytes@, #[trigger] doc_runs(bytes@)[a][b]),
                ),
        decreases n - li,
    {
        let runs: &Vec<RawRun> = &raw[li];
        proof {
            assert(runs.deep_view() == doc_runs(bytes@)[li as int]);
        }
        let m = runs.len();
        let mut spans: Vec<Span> = Vec::new();
        let mut ri: usize = 0;
        while ri < m
            invariant
                ri <= m == runs@.len(),
                li < raw@.len(),
                raw.deep_view() == doc_runs(bytes@),
                runs.deep_view() == doc_runs(bytes@)[li as int],
                spans@.len() == ri,
                spans.deep_view() == doc_view(bytes@)[li as int].subrange(0, ri as int),
                forall|b: int|
                    0 <= b < ri ==> valid_utf8(
                        run_bytes(bytes@, #[trigger] doc_runs(bytes@)[li as int][b]),
                    ),
            decreases m - ri,
        {
            let run = runs[ri];
            proof {
                crate::parser::lemma_doc_bounds(bytes@, 0, Style::spec_default());
                assert(run@ == doc_runs(bytes@)[li as int][ri as int]);
            }
            let ghost rb = run_bytes(bytes@, (run.lo as int, run.hi as int, run.style));
            let piece = run_str(bytes, run.lo, run.hi);
            match piece {
                None => {
                    proof {
                        assert(!valid_utf8(
                            run_bytes(bytes@, doc_runs(bytes@)[li as int][ri as int]),
                        ));
                        assert(!doc_ok(bytes@));
                    }
                    return Err(Error::Utf8Error);
                },
                Some(t) => {
                    let ghost old_spans = spans.deep_view();
                    spans.push(Span { content: t.to_owned(), style: run.style });
                    proof {
                        assert(spans.deep_view() =~= old_spans.push((decode_utf8(rb), run.style)));
                        assert(doc_view(bytes@)[li as int][ri as int] == (
                            decode_utf8(rb),
                            run.style,
                        ));
                        assert(spans.deep_view() =~= doc_view(bytes@)[li as int].subrange(
                            0,
                            ri + 1 as int,
                        ));
                    }
                    ri = ri + 1;
                },
            }
        }
        let ghost old_lines = lines.deep_view();
        lines.push(Line { spans });
        proof {
            assert(doc_view(bytes@)[li as int].subrange(
                0,
                doc_view(bytes@)[li as int].len() as int,
            ) =~= doc_view(bytes@)[li as int]);
            assert(lines.deep_view() =~= old_lines.push(doc_view(bytes@)[li as int]));
            assert(lines.deep_view() =~= doc_view(bytes@).subrange(0, li + 1 as int));
        }
        li = li + 1;
    }
    proof {
        assert(lines.deep_view() =~= doc_view(bytes@));
        assert(doc_ok(bytes@));
    }
    Ok(Text { lines })
}

/// Converts a byte stream with ANSI SGR escapes into a document whose
/// spans borrow the input buffer, avoiding text copies.
///
/// Returns the document exactly when every text run is valid UTF-8;
/// the one error is `Utf8Error`. The document equals, span for span,
/// what `ansi_to_text` returns for the same bytes.
pub fn to_text<'a>(bytes: &'a [u8]) -> (r: Result<TextRef<'a>, Error>)
    ensures
        r is Ok <==> doc_ok(bytes@),
        r matches Ok(t) ==> t@ == doc_view(bytes@),
        r matches Err(e) ==> e == Error::Utf8Error,
{
    let raw = scan_raw(bytes);
    let n = raw.len();
    let mut lines: Vec<LineRef<'a>> = Vec::new();
    let mut li: usize = 0;
    while li < n
        invariant
            li <= n == raw@.len(),
            raw.deep_view() == doc_runs(bytes@),
            lines@.len() == li,
            lines.deep_view() == doc_view(bytes@).subrange(0, li as int),
            forall|a: int, b: int|
                0 <= a < li && 0 <= b < doc_runs(bytes@)[a].len() ==> valid_utf8(
                    run_bytes(bytes@, #[trigger] doc_runs(bytes@)[a][b]),
                ),
        decreases n - li,
    {
        let runs: &Vec<RawRun> = &raw[li];
        proof {
            assert(runs.deep_view() == doc_runs(bytes@)[li as int]);
        }
        let m = runs.len();
        let mut spans: Vec<SpanRef<'a>> = Vec::new();
        let mut ri: usize = 0;
        while ri < m
            invariant
                ri <= m == runs@.len(),
                li < raw@.len(),
                raw.deep_view() == doc_runs(bytes@),
                runs.deep_view() == doc_runs(bytes@)[li as int],
                spans@.len() == ri,
                spans.deep_view() == doc_view(bytes@)[li as int].subrange(0, ri as int),
                forall|b: int|
                    0 <= b < ri ==> valid_utf8(
                        run_bytes(bytes@, #[trigger] doc_runs(bytes@)[li as int][b]),
                    ),
            decreases m - ri,
        {
            let run = runs[ri];
            proof {
                crate::parser::lemma_doc_bounds(bytes@, 0, Style::spec_default());
                assert(run@ == doc_runs(bytes@)[li as int][ri as int]);
            }
            let ghost rb = run_bytes(bytes@, (run.lo as int, run.hi as int, run.style));
            let piece = run_str(bytes, run.lo, run.hi);
            match piece {
                None => {
                    proof {
                        assert(!valid_utf8(
                            run_bytes(bytes@, doc_runs(bytes@)[li as int][ri as int]),
                        ));
                        assert(!doc_ok(bytes@));
                    }
                    return Err(Error::Utf8Error);
                },
                Some(t) => {
                    let ghost old_spans = spans.deep_view();
                    spans.push(SpanRef { content: t, style: run.style });
                    proof {
                        assert(spans.deep_view() =~= old_spans.push((decode_utf8(rb), run.style)));
                        assert(doc_view(bytes@)[li as int][ri as int] == (
                            decode_utf8(rb),
                            run.style,
                        ));
                        assert(spans.deep_view() =~= doc_view(bytes@)[li as int].subrange(
                            0,
                            ri + 1 as int,
                        ));
                    }
                    ri = ri + 1;
                },
            }
        }
        let ghost old_lines = lines.deep_view();
        lines.push(LineRef { spans });
        proof {
            assert(doc_view(bytes@)[li as int].subrange(
                0,
                doc_view(bytes@)[li as int].len() as int,
            ) =~= doc_view(bytes@)[li as int]);
            assert(lines.deep_view() =~= old_lines.push(doc_view(bytes@)[li as int]));
            assert(lines.deep_view() =~= doc_view(bytes@).subrange(0, li + 1 as int));
        }
        li = li + 1;
    }
    proof {
        assert(lines.deep_view() =~= doc_view(bytes@));
        assert(doc_ok(bytes@));
    }
    Ok(TextRef { lines })
}

/// The text bytes of one line under the override strategy: its runs'
/// bytes in order, with every escape stripped.
pub open spec fn line_concat(s: Seq<u8>, runs: Seq<(int, int, Style)>) -> Seq<u8>
    decreases runs.len(),
{
    if runs.len() == 0 {
        Seq::empty()
    } else {
        line_concat(s, runs.drop_last()) + run_bytes(s, runs.last())
    }
}

/// True when every line's stripped text is valid UTF-8 — exactly when
/// the override strategy returns a document.
pub open spec fn override_ok(s: Seq<u8>) -> bool {
    forall|li: int|
        0 <= li < doc_runs(s).len() ==> valid_utf8(line_concat(s, #[trigger] doc_runs(s)[li]))
}

/// The document the override strategy produces: the same lines as the
/// styled parse, each collapsed to at most one span, every span under
/// the one given style.
pub open spec fn override_view(s: Seq<u8>, st: Style) -> Seq<Seq<(Seq<char>, Style)>> {
    doc_runs(s).map(
        |li: int, runs: Seq<(int, int, Style)>|
            if line_concat(s, runs).len() == 0 {
                Seq::<(Seq<char>, Style)>::empty()
            } else {
                seq![(decode_utf8(line_concat(s, runs)), st)]
            },
    )
}

/// Converts a byte stream with ANSI SGR escapes into a document in
/// which every escape is stripped and every span carries the one
/// style given, in place of whatever the stream asked for.
///
/// The lines are those of `ansi_to_text`; each holds its stripped
/// text as a single span, or no span when nothing remains. UTF-8 is
/// checked over each line's stripped text as a whole.
pub fn ansi_to_text_override_style(bytes: &[u8], style: Style) -> (r: Result<Text, Error>)
    ensures
        r is Ok <==> override_ok(bytes@),
        r matches Ok(t) ==> t@ == override_view(bytes@, style),
        r matches Err(e) ==> e == Error::Utf8Error,
{
    let raw = scan_raw(bytes);
    let n = raw.len();
    let mut lines: Vec<Line> = Vec::new();
    let mut li: usize = 0;
    while li < n
        invariant
            li <= n == raw@.len(),
            raw.deep_view() == doc_runs(bytes@),
            lines@.len() == li,
            lines.deep_view() == override_view(bytes@, style).subrange(0, li as int),
            forall|a: int|
                0 <= a < li ==> valid_utf8(line_concat(bytes@, #[trigger] doc_runs(bytes@)[a])),
        decreases n - li,
    {
        let runs: &Vec<RawRun> = &raw[li];
        proof {
            assert(runs.deep_view() == doc_runs(bytes@)[li as int]);
        }
        let m = runs.len();
        let mut buf: Vec<u8> = Vec::new();
        let mut ri: usize = 0;
        while ri < m
            invariant
                ri <= m == runs@.len(),
                li < raw@.len(),
                raw.deep_view() == doc_runs(bytes@),
                runs.deep_view() == doc_runs(bytes@)[li as int],
                buf@ == line_concat(bytes@, runs.deep_view().subrange(0, ri as int)),
            decreases m - ri,
        {
            let run = runs[ri];
            proof {
                crate::parser::lemma_doc_bounds(bytes@, 0, Style::spec_default());
                assert(run@ == doc_runs(bytes@)[li as int][ri as int]);
            }
            let ghost old_buf = buf@;
            let sub = slice_subrange(bytes, run.lo, run.hi);
            let mut bi: usize = 0;
            while bi < sub.len()
                invariant
                    bi <= sub@.len(),
                    buf@ == old_buf + sub@.subrange(0, bi as int),
                decreases sub@.len() - bi,
            {
                buf.push(sub[bi]);
                proof {
                    assert(buf@ =~= old_buf + sub@.subrange(0, bi + 1 as int));
                }
                bi = bi + 1;
            }
            proof {
                assert(sub@.subrange(0, sub@.len() as int) =~= sub@);
                let pre = runs.deep_view().subrange(0, ri + 1 as int);
                assert(pre.drop_last() =~= runs.deep_view().subrange(0, ri as int));
                assert(pre.last() == doc_runs(bytes@)[li as int][ri as int]);
                assert(buf@ == line_concat(bytes@, pre));
            }
            ri = ri + 1;
        }
        proof {
            assert(runs.deep_view().subrange(0, runs.deep_view().len() as int)
                =~= runs.deep_view());
            assert(buf@ == line_concat(bytes@, doc_runs(bytes@)[li as int]));
        }
        let ghost old_lines = lines.deep_view();
        if buf.len() == 0 {
            lines.push(Line { spans: Vec::new() });
            proof {
                assert(override_view(bytes@, style)[li as int] =~= Seq::<(
                    Seq<char>,
                    Style,
                )>::empty());
                assert(lines.deep_view() =~~= old_lines.push(override_view(bytes@, style)[li as int]));
                assert(lines.deep_view() =~= override_view(bytes@, style).subrange(
                    0,
                    li + 1 as int,
                ));
            }
        } else {
            let piece = utf8_to_str(buf.as_slice());
            match piece {
                None => {
                    proof {
                        assert(!valid_utf8(line_concat(bytes@, doc_runs(bytes@)[li as int])));
                        assert(!override_ok(bytes@));
                    }
                    return Err(Error::Utf8Error);
                },
                Some(t) => {
                    proof {
                        encode_utf8_decode_utf8(t@);
                    }
                    let mut spans: Vec<Span> = Vec::new();
                    spans.push(Span { content: t.to_owned(), style });
                    lines.push(Line { spans });
                    proof {
                        assert(override_view(bytes@, style)[li as int] =~= seq![
                            (decode_utf8(line_concat(bytes@, doc_runs(bytes@)[li as int])), style),
                        ]);
                        assert(lines.deep_view()[li as int] =~= override_view(bytes@, style)[li as int]);
                        assert(lines.deep_view() =~= override_view(bytes@, style).subrange(
                            0,
                            li + 1 as int,
                        ));
                    }
                },
            }
        }
        li = li + 1;
    }
    proof {
        assert(lines.deep_view() =~= override_view(bytes@, style));
        assert(override_ok(bytes@));
    }
    Ok(Text { lines })
}

/// The owned and the borrowing strategies run the one scan and are
/// each proved to return `doc_view` of the input, so for one input
/// they produce structurally identical documents.
pub proof fn lemma_strategies_agree(
    s: Seq<u8>,
    owned: Seq<Seq<(Seq<char>, Style)>>,
    borrowed: Seq<Seq<(Seq<char>, Style)>>,
)
    requires
        owned == doc_view(s),
        borrowed == doc_view(s),
    ensures
        owned == borrowed,
{
}

} // verus!
