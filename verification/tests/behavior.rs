use ansi_to_tui::{
    ansi_to_text, ansi_to_text_override_style, to_text, AnsiCode, AnsiColor, AnsiGraphicsStack,
    Color, Error, Line, Modifiers, Span, Stack, Style, Text,
};

fn span(text: &str, style: Style) -> Span {
    Span { content: text.to_string(), style }
}

fn fg(c: Color) -> Style {
    Style { fg: Some(c), ..Style::default() }
}

#[test]
fn red_span() {
    // one line, one span, red foreground
    let text = ansi_to_text(b"\x1b[31mred").unwrap();
    let expected = Text { lines: vec![Line { spans: vec![span("red", fg(Color::Red))] }] };
    assert_eq!(text, expected);
}

#[test]
fn unknown_code_ignored() {
    // code 200 is retained but has no effect; 31 still applies
    let text = ansi_to_text(b"\x1b[200;31mred").unwrap();
    let expected = Text { lines: vec![Line { spans: vec![span("red", fg(Color::Red))] }] };
    assert_eq!(text, expected);
}

#[test]
fn style_survives_newline() {
    let text = ansi_to_text(b"A\x1b[31mB\nC").unwrap();
    let expected = Text {
        lines: vec![
            Line { spans: vec![span("A", Style::default()), span("B", fg(Color::Red))] },
            Line { spans: vec![span("C", fg(Color::Red))] },
        ],
    };
    assert_eq!(text, expected);
}

#[test]
fn carriage_return_is_text() {
    let text = ansi_to_text(b"A\rB").unwrap();
    let expected = Text { lines: vec![Line { spans: vec![span("A\rB", Style::default())] }] };
    assert_eq!(text, expected);
}

#[test]
fn plain_text_splits_on_newline_only() {
    let text = ansi_to_text(b"one\ntwo\rstill two\nthree").unwrap();
    let expected = Text {
        lines: vec![
            Line { spans: vec![span("one", Style::default())] },
            Line { spans: vec![span("two\rstill two", Style::default())] },
            Line { spans: vec![span("three", Style::default())] },
        ],
    };
    assert_eq!(text, expected);
}

#[test]
fn empty_input_empty_document() {
    assert_eq!(ansi_to_text(b"").unwrap(), Text { lines: vec![] });
    assert!(to_text(b"").unwrap().lines.is_empty());
}

#[test]
fn invalid_utf8_is_fatal() {
    assert_eq!(ansi_to_text(b"\xff"), Err(Error::Utf8Error));
    assert_eq!(ansi_to_text(b"\x1b[31mAA\xc3\x28BB"), Err(Error::Utf8Error));
    assert_eq!(to_text(b"ok\n\xff"), Err(Error::Utf8Error));
}

#[test]
fn truncated_color_payload_dropped() {
    // 38;5 without an index fails the whole sequence, which is then
    // consumed as garbage up to and including the final letter
    let text = ansi_to_text(b"\x1b[38;5mX").unwrap();
    let expected = Text { lines: vec![Line { spans: vec![span("X", Style::default())] }] };
    assert_eq!(text, expected);
}

#[test]
fn overflowing_code_dropped() {
    let text = ansi_to_text(b"\x1b[31;300mX").unwrap();
    let expected = Text { lines: vec![Line { spans: vec![span("X", Style::default())] }] };
    assert_eq!(text, expected);
}

#[test]
fn override_style_strips_escapes() {
    let style = fg(Color::Blue);
    let text = ansi_to_text_override_style(b"A\x1b[31mB\nC\n\nD", style).unwrap();
    let expected = Text {
        lines: vec![
            Line { spans: vec![span("AB", style)] },
            Line { spans: vec![span("C", style)] },
            Line { spans: vec![] },
            Line { spans: vec![span("D", style)] },
        ],
    };
    assert_eq!(text, expected);
}

#[test]
fn override_style_reports_invalid_utf8() {
    let style = Style::default();
    assert_eq!(ansi_to_text_override_style(b"A\xffB", style), Err(Error::Utf8Error));
}

#[test]
fn stack_parse_usize() {
    let mut stack: Stack<u8> = Stack::new();
    assert_eq!(stack.parse_usize(), Err(Error::UsizeParsingError));
    stack.push(b'1');
    stack.push(b'0');
    stack.push(b'7');
    assert_eq!(stack.parse_usize(), Ok(107));
    assert!(stack.is_empty());
}

#[test]
fn stack_parse_color_wrong_depth() {
    let mut stack: Stack<u8> = Stack::new();
    assert_eq!(stack.parse_color(), Err(Error::ColorParsingError));
    stack.push(9);
    assert_eq!(stack.parse_color(), Err(Error::ColorParsingError));
    assert_eq!(stack.len(), 1);
    stack.push(8);
    stack.push(7);
    assert_eq!(stack.parse_color(), Err(Error::ColorParsingError));
    // a failed read leaves the contents in place
    assert_eq!(stack.iter(), &vec![9u8, 8, 7]);
    stack.push(6);
    stack.push(5);
    assert_eq!(stack.parse_color(), Err(Error::ColorParsingError));
}

#[test]
fn stack_parse_color_valid_depths() {
    let mut stack: Stack<u8> = Stack::new();
    stack.push(5);
    stack.push(30);
    assert_eq!(stack.parse_color(), Ok(Color::Indexed(30)));
    assert!(stack.is_empty());
    for v in [2, 10, 20, 30] {
        stack.push(v);
    }
    assert_eq!(stack.parse_color(), Ok(Color::Rgb(10, 20, 30)));
    assert!(stack.is_empty());
}

#[test]
fn stack_basics() {
    let mut stack: Stack<u8> = Stack::new();
    assert!(!stack.is_unlocked());
    stack.unlock();
    assert!(stack.is_unlocked());
    stack.push(1);
    stack.push(2);
    assert_eq!(stack.len(), 2);
    assert_eq!(stack.first(), Some(&1));
    assert_eq!(stack.last(), Some(&2));
    assert_eq!(stack.iter(), &vec![1u8, 2]);
    assert_eq!(stack.pop(), Some(2));
    stack.clear();
    assert!(stack.is_empty());
    assert!(stack.is_unlocked());
    stack.lock();
    assert!(!stack.is_unlocked());
}

#[test]
fn graphics_stack_named_colors() {
    let mut gs = AnsiGraphicsStack::new();
    assert!(gs.is_locked());
    gs.unlock();
    assert!(gs.is_unlocked());
    gs.push(1);
    gs.push(31);
    let style = gs.parse_ansi().unwrap();
    assert_eq!(
        style,
        Style {
            fg: Some(Color::Red),
            bg: None,
            modifiers: Modifiers { bold: true, ..Style::default().modifiers },
        }
    );
    assert_eq!(gs.iter(), &vec![1usize, 31]);
}

#[test]
fn graphics_stack_structured_colors() {
    let mut gs = AnsiGraphicsStack::new();
    for v in [38, 2, 10, 20, 30] {
        gs.push(v);
    }
    assert_eq!(gs.parse_ansi().unwrap().fg, Some(Color::Rgb(10, 20, 30)));
    let mut gs = AnsiGraphicsStack::new();
    for v in [48, 5, 7] {
        gs.push(v);
    }
    assert_eq!(gs.parse_ansi().unwrap().bg, Some(Color::Indexed(7)));
}

#[test]
fn graphics_stack_codes_apply_after_color_payload() {
    // once a payload is complete the collector closes: 1 adds Bold
    let mut gs = AnsiGraphicsStack::new();
    for v in [38, 5, 3, 1] {
        gs.push(v);
    }
    let style = gs.parse_ansi().unwrap();
    assert_eq!(style.fg, Some(Color::Indexed(3)));
    assert!(style.modifiers.bold);
    // and a second structured color is decoded, not swallowed
    let mut gs = AnsiGraphicsStack::new();
    for v in [38, 2, 10, 20, 30, 48, 5, 7, 1] {
        gs.push(v);
    }
    let style = gs.parse_ansi().unwrap();
    assert_eq!(style.fg, Some(Color::Rgb(10, 20, 30)));
    assert_eq!(style.bg, Some(Color::Indexed(7)));
    assert!(style.modifiers.bold);
}

#[test]
fn graphics_stack_reset_clears() {
    let mut gs = AnsiGraphicsStack::new();
    gs.push(31);
    gs.push(0);
    gs.push(4);
    let style = gs.parse_ansi().unwrap();
    assert_eq!(
        style,
        Style {
            fg: None,
            bg: None,
            modifiers: Modifiers { underline: true, ..Style::default().modifiers },
        }
    );
}

#[test]
fn ansi_color_conversion() {
    assert_eq!(Color::from(AnsiColor::Black), Color::Black);
    assert_eq!(Color::from(AnsiColor::RGB(1, 2, 3)), Color::Rgb(1, 2, 3));
    assert_eq!(Color::from(AnsiColor::Indexed(9)), Color::Indexed(9));
    assert_eq!(Color::from(AnsiColor::White), Color::White);
}

#[test]
fn ansi_code_conversion() {
    assert_eq!(AnsiCode::from(0), AnsiCode::Reset);
    assert_eq!(AnsiCode::from(1), AnsiCode::Bold);
    assert_eq!(AnsiCode::from(31), AnsiCode::ForegroundColor(Color::Red));
    assert_eq!(AnsiCode::from(48), AnsiCode::SetBackgroundColor);
    assert_eq!(AnsiCode::from(107), AnsiCode::BackgroundColor(Color::White));
    assert_eq!(AnsiCode::from(200), AnsiCode::Code(200));
}

#[test]
fn reset_differs_from_default() {
    assert_ne!(Style::reset(), Style::default());
    let text = ansi_to_text(b"\x1b[mX").unwrap();
    assert_eq!(text.lines[0].spans[0].style, Style::reset());
}

#[test]
fn trailing_semicolon_accepted() {
    let text = ansi_to_text(b"\x1b[31;mX").unwrap();
    assert_eq!(text.lines[0].spans[0].style.fg, Some(Color::Red));
}

#[test]
fn doubled_semicolon_in_color_payload() {
    let text = ansi_to_text(b"\x1b[38;2;;1;2;3mX").unwrap();
    assert_eq!(text.lines[0].spans[0].style.fg, Some(Color::Rgb(1, 2, 3)));
}
