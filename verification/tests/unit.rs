use ansi_to_tui::parser::{color, style};
use ansi_to_tui::{ansi_to_text, Color, Error, Modifiers, Stack, Style};

#[test]
fn test_color() {
    let mut stack: Stack<u8> = Stack::new();
    stack.push(30);
    // a single value is no complete payload — the selector is missing —
    // so this is an error, and the value stays for the next attempt
    assert_eq!(stack.parse_color(), Err(Error::ColorParsingError));
    stack.push(30);
    stack.push(3);
    stack.push(55);
    assert_eq!(stack.parse_color().unwrap(), Color::Rgb(30, 3, 55));
}

#[test]
fn test_bytes() {
    let bytes = vec![27_u8, 91, 51, 49, 109, 65, 65, 65];
    println!("{:#?}", ansi_to_text(&bytes))
}

#[test]
fn color_test() {
    let c = color(b"2;255;255;255").unwrap();
    assert_eq!(c.1, Color::Rgb(255, 255, 255));
    let c = color(b"5;255").unwrap();
    assert_eq!(c.1, Color::Indexed(255));
    let err = color(b"10;255");
    assert!(err.is_none());
}

#[test]
fn ansi_items_test() {
    let sc = Style::default();
    let t = style(sc, b"\x1b[38;2;3;3;3m").unwrap().1.unwrap();
    assert_eq!(t, Style { fg: Some(Color::Rgb(3, 3, 3)), ..sc });
    assert_eq!(
        style(sc, b"\x1b[38;5;3m").unwrap().1.unwrap(),
        Style { fg: Some(Color::Indexed(3)), ..sc }
    );
    assert_eq!(
        style(sc, b"\x1b[38;5;3;48;5;3m").unwrap().1.unwrap(),
        Style { fg: Some(Color::Indexed(3)), bg: Some(Color::Indexed(3)), ..sc }
    );
    assert_eq!(
        style(sc, b"\x1b[38;5;3;48;5;3;1m").unwrap().1.unwrap(),
        Style {
            fg: Some(Color::Indexed(3)),
            bg: Some(Color::Indexed(3)),
            modifiers: Modifiers { bold: true, ..sc.modifiers },
        }
    );
}
