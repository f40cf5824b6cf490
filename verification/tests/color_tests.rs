use cailoxo::color::{ansi_pair, color_escape, color_escape_would_break};
use cailoxo::error::GenerateError;

fn esc(c: &str, bg: bool) -> Result<String, GenerateError> {
    let s = c.to_string();
    color_escape(Some(&s), bg)
}

#[test]
fn no_color_gives_no_escape() {
    assert_eq!(color_escape(None, false).unwrap(), "");
    assert_eq!(esc("transparent", true).unwrap(), "");
    assert_eq!(esc("default", false).unwrap(), "");
}

#[test]
fn palette_index_colors() {
    assert_eq!(esc("0", false).unwrap(), "\u{1b}[38;5;0m");
    assert_eq!(esc("4", true).unwrap(), "\u{1b}[48;5;4m");
    assert_eq!(esc("255", false).unwrap(), "\u{1b}[38;5;255m");
    assert_eq!(esc("+7", false).unwrap(), "\u{1b}[38;5;7m");
    assert_eq!(esc("007", true).unwrap(), "\u{1b}[48;5;7m");
}

#[test]
fn out_of_range_index_is_not_a_palette_color() {
    assert!(matches!(esc("256", false), Err(GenerateError::UnsupportedColor(c)) if c == "256"));
    assert!(matches!(esc("-1", false), Err(GenerateError::UnsupportedColor(_))));
    assert!(matches!(esc("+", false), Err(GenerateError::UnsupportedColor(_))));
}

#[test]
fn hex_colors() {
    assert_eq!(esc("#cdd6f4", false).unwrap(), "\u{1b}[38;2;205;214;244m");
    assert_eq!(esc("#1E1E2E", true).unwrap(), "\u{1b}[48;2;30;30;46m");
    assert_eq!(esc("#+f+f+f", true).unwrap(), "\u{1b}[48;2;15;15;15m");
}

#[test]
fn bad_hex_colors() {
    assert!(matches!(esc("#zz0000", false), Err(GenerateError::InvalidHexColor)));
    assert!(matches!(esc("#00000g", false), Err(GenerateError::InvalidHexColor)));
    assert!(matches!(esc("#\u{e9}1234", false), Err(GenerateError::InvalidHexColor)));
    assert!(matches!(esc("#12345", false), Err(GenerateError::UnsupportedColor(_))));
}

#[test]
fn named_colors() {
    assert_eq!(esc("black", false).unwrap(), "\u{1b}[38;5;0m");
    assert_eq!(esc("blue", true).unwrap(), "\u{1b}[48;5;4m");
    assert_eq!(esc("white", false).unwrap(), "\u{1b}[38;5;7m");
    assert_eq!(esc("bright-black", false).unwrap(), "\u{1b}[38;5;8m");
    assert_eq!(esc("darkGray", false).unwrap(), "\u{1b}[38;5;8m");
    assert_eq!(esc("lightCyan", true).unwrap(), "\u{1b}[48;5;14m");
    assert_eq!(esc("bright-white", false).unwrap(), "\u{1b}[38;5;15m");
}

#[test]
fn unknown_color_is_rejected() {
    match esc("purple", false) {
        Err(GenerateError::UnsupportedColor(c)) => assert_eq!(c, "purple"),
        other => panic!("unexpected {:?}", other),
    }
}

#[test]
fn ansi_pair_joins_foreground_and_background() {
    let fg = "0".to_string();
    let bg = "#010203".to_string();
    assert_eq!(ansi_pair(Some(&fg), Some(&bg)).unwrap(), "\u{1b}[38;5;0m\u{1b}[48;2;1;2;3m");
    assert_eq!(ansi_pair(None, Some(&fg)).unwrap(), "\u{1b}[48;5;0m");
    let bad = "nope".to_string();
    assert!(matches!(ansi_pair(Some(&fg), Some(&bad)), Err(GenerateError::UnsupportedColor(c)) if c == "nope"));
}

#[test]
fn colors_that_would_slice_inside_a_character() {
    assert!(color_escape_would_break("#1\u{e9}234"));
    assert!(color_escape_would_break("#ab1\u{e9}3"));
    assert!(!color_escape_would_break("#zz1\u{e9}3"));
    assert!(!color_escape_would_break("#\u{e9}1234"));
    assert!(!color_escape_would_break("#cdd6f4"));
    assert!(!color_escape_would_break("blue"));
    assert!(!color_escape_would_break("transparent"));
}

#[test]
fn named_colors_match_their_palette_index() {
    let table: [(&[&str], u8); 16] = [
        (&["black"], 0),
        (&["red"], 1),
        (&["green"], 2),
        (&["yellow"], 3),
        (&["blue"], 4),
        (&["magenta"], 5),
        (&["cyan"], 6),
        (&["white"], 7),
        (&["bright-black", "darkGray"], 8),
        (&["bright-red", "lightRed"], 9),
        (&["bright-green", "lightGreen"], 10),
        (&["bright-yellow", "lightYellow"], 11),
        (&["bright-blue", "lightBlue"], 12),
        (&["bright-magenta", "lightMagenta"], 13),
        (&["bright-cyan", "lightCyan"], 14),
        (&["bright-white", "lightWhite"], 15),
    ];
    for (names, code) in table {
        for name in names {
            for bg in [false, true] {
                let expected = format!("\u{1b}[{};5;{}m", if bg { 48 } else { 38 }, code);
                assert_eq!(esc(name, bg).unwrap(), expected);
                assert_eq!(esc(&code.to_string(), bg).unwrap(), expected);
            }
        }
    }
    assert!(matches!(esc("Blue", false), Err(GenerateError::UnsupportedColor(c)) if c == "Blue"));
}

#[test]
fn background_changes_only_the_selector() {
    for c in ["0", "255", "+7", "#cdd6f4", "red", "lightWhite", "transparent", "#zz0000", "purple"] {
        match (esc(c, false), esc(c, true)) {
            (Ok(f), Ok(b)) => {
                if f.is_empty() {
                    assert!(b.is_empty());
                } else {
                    assert_eq!(b, f.replacen("\u{1b}[38;", "\u{1b}[48;", 1));
                }
            }
            (Err(GenerateError::InvalidHexColor), Err(GenerateError::InvalidHexColor)) => {}
            (Err(GenerateError::UnsupportedColor(a)), Err(GenerateError::UnsupportedColor(b))) => {
                assert_eq!(a, b)
            }
            other => panic!("unexpected {:?}", other),
        }
    }
}

#[test]
fn ansi_pair_reports_the_foreground_first() {
    let bad_fg = "nope".to_string();
    let bad_bg = "#zz0000".to_string();
    assert!(matches!(ansi_pair(Some(&bad_fg), Some(&bad_bg)), Err(GenerateError::UnsupportedColor(c)) if c == "nope"));
    assert!(matches!(ansi_pair(None, Some(&bad_bg)), Err(GenerateError::InvalidHexColor)));
}
