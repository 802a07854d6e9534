use ansi_to_tui::{ansi_to_text, to_text, Color, Line, Modifiers, Span, Style, Text};

fn span(text: &str, style: Style) -> Span {
    Span { content: text.to_string(), style }
}

fn fg(c: Color) -> Style {
    Style { fg: Some(c), ..Style::default() }
}

fn line(spans: Vec<Span>) -> Line {
    Line { spans }
}

fn raw_line(text: &str) -> Line {
    if text.is_empty() {
        Line { spans: vec![] }
    } else {
        Line { spans: vec![span(text, Style::default())] }
    }
}

fn owned_of_borrowed(doc: &ansi_to_tui::TextRef) -> Text {
    Text {
        lines: doc
            .lines
            .iter()
            .map(|l| Line {
                spans: l
                    .spans
                    .iter()
                    .map(|s| Span { content: s.content.to_string(), style: s.style })
                    .collect(),
            })
            .collect(),
    }
}

fn test_both(bytes: impl AsRef<[u8]>, other: Text) {
    let bytes = bytes.as_ref();
    let zero_copy = to_text(bytes).unwrap();
    let owned = ansi_to_text(bytes).unwrap();
    let zero_copy = owned_of_borrowed(&zero_copy);
    assert_eq!(
        zero_copy, owned,
        "zero-copy and owned version of the methods have diverged this is for sure a bug in the library"
    );
    assert_eq!(owned, other);
    assert_eq!(zero_copy, other);
}

#[test]
fn test_empty_op() {
    let string = b"\x1b[32mGREEN\x1b[mFOO\nFOO";
    let output = Text {
        lines: vec![
            line(vec![span("GREEN", fg(Color::Green)), span("FOO", Style::reset())]),
            line(vec![span("FOO", Style::reset())]),
        ],
    };
    test_both(string, output);
}

#[test]
fn test_string() {
    let string: Vec<u8> = "FOO".to_string().bytes().collect();
    let output = Text { lines: vec![raw_line("FOO")] };
    test_both(string, output);
}

#[test]
fn test_unicode() {
    let bytes = "AAA🅱️🅱️🅱️".as_bytes().to_vec();
    let output = Text { lines: vec![raw_line("AAA🅱️🅱️🅱️")] };
    test_both(bytes, output);
}

#[test]
fn test_ascii_rgb() {
    let bytes: Vec<u8> = b"\x1b[38;2;100;100;100mAAABBB".to_vec();
    let output = Text { lines: vec![line(vec![span("AAABBB", fg(Color::Rgb(100, 100, 100)))])] };
    test_both(bytes, output);
}

#[test]
fn test_ascii_newlines() {
    let bytes = "LINE_1\n\n\n\n\n\n\nLINE_8".as_bytes().to_vec();
    let output = Text {
        lines: vec![
            raw_line("LINE_1"),
            raw_line(""),
            raw_line(""),
            raw_line(""),
            raw_line(""),
            raw_line(""),
            raw_line(""),
            raw_line("LINE_8"),
        ],
    };
    test_both(bytes, output);
}

#[test]
fn test_reset() {
    let string = "\x1b[33mA\x1b[0mB";
    let output = Text {
        lines: vec![line(vec![span("A", fg(Color::Yellow)), span("B", Style::reset())])],
    };
    test_both(string, output);
}

#[test]
fn test_screen_modes() {
    let bytes: Vec<u8> = b"\x1b[?25hAAABBB".to_vec();
    let output = Text { lines: vec![raw_line("AAABBB")] };
    test_both(bytes, output);
}

#[test]
fn test_cursor_shape_and_color() {
    // malformed -> malformed -> empty
    let bytes = b"\x1b[4 q\x1b]12;#fab1ed\x07";
    let output = Text { lines: vec![] };
    test_both(bytes, output);
}

#[test]
fn test_malformed_simple() {
    let bytes = b"\x1b[";
    let output = Text { lines: vec![] };
    test_both(bytes, output);
}

#[test]
fn test_malformed_complex() {
    let bytes: Vec<u8> = b"\x1b\x1b[0\x1b[m\x1b".to_vec();
    let output = Text { lines: vec![] };
    test_both(bytes, output);
}

#[test]
fn empty_span() {
    // Yellow -> Red -> Green -> "Hello" -> Reset -> "World"
    let bytes: Vec<u8> = b"\x1b[33m\x1b[31m\x1b[32mHello\x1b[0mWorld".to_vec();
    let output = Text {
        lines: vec![line(vec![span("Hello", fg(Color::Green)), span("World", Style::reset())])],
    };
    test_both(bytes, output);
}

#[test]
fn test_color_and_style_reset() {
    let bytes: Vec<u8> = String::from(
        "\u{1b}[32m* \u{1b}[0mRunning before-startup command \u{1b}[1mcommand\u{1b}[0m=make my-simple-package.cabal\n\
        \u{1b}[32m* \u{1b}[0m$ make my-simple-package.cabal\n\
        Build profile: -w ghc-9.0.2 -O1\n",
    )
    .into_bytes();
    let reset_bold = Style {
        modifiers: Modifiers { bold: true, ..Style::reset().modifiers },
        ..Style::reset()
    };
    let reset_green = Style { fg: Some(Color::Green), ..Style::reset() };
    let output = Text {
        lines: vec![
            line(vec![
                span("* ", fg(Color::Green)),
                span("Running before-startup command ", Style::reset()),
                span("command", reset_bold),
                span("=make my-simple-package.cabal", Style::reset()),
            ]),
            line(vec![
                span("* ", reset_green),
                span("$ make my-simple-package.cabal", Style::reset()),
            ]),
            line(vec![span("Build profile: -w ghc-9.0.2 -O1", Style::reset())]),
        ],
    };
    test_both(bytes, output);
}

#[test]
fn test_foreground() {
    for i in 0..256 {
        let bytes = format!("\x1b[38;5;{}mHELLO", i).as_bytes().to_vec();
        let output = Text { lines: vec![line(vec![span("HELLO", fg(Color::Indexed(i as u8)))])] };
        test_both(bytes, output);
    }
}

#[test]
fn test_background() {
    for i in 0..256 {
        let bytes = format!("\x1b[48;5;{}mHELLO", i).as_bytes().to_vec();
        let style = Style { bg: Some(Color::Indexed(i as u8)), ..Style::default() };
        let output = Text { lines: vec![line(vec![span("HELLO", style)])] };
        test_both(bytes, output);
    }
}

#[test]
fn test_rgb() {
    for i in 1..=255u8 {
        for j in 1..=255u8 {
            let bytes = format!("\x1b[38;2;{i};{i};{i};48;2;{j};{j};{j}mHELLO")
                .as_bytes()
                .to_vec();
            let style = Style {
                fg: Some(Color::Rgb(i, i, i)),
                bg: Some(Color::Rgb(j, j, j)),
                ..Style::default()
            };
            let output = Text { lines: vec![line(vec![span("HELLO", style)])] };
            test_both(bytes, output);
        }
    }
}

#[test]
fn test_reset_sequences() {
    let bytes = "not, \x1b[1mbold\x1b[22m, not anymore".as_bytes().to_vec();
    let bold = Style {
        modifiers: Modifiers { bold: true, ..Style::default().modifiers },
        ..Style::default()
    };
    let output = Text {
        lines: vec![line(vec![
            span("not, ", Style::default()),
            span("bold", bold),
            span(", not anymore", Style::default()),
        ])],
    };
    test_both(bytes, output);
}
