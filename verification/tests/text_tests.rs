use game_search::sudoku::text::{cell_text, is_whitespace, parse_cell, trim};
use game_search::sudoku::CellValue;

#[test]
fn is_whitespace_agrees_with_std_on_every_character() {
    for code in 0..=0x10ffffu32 {
        if let Some(c) = char::from_u32(code) {
            assert_eq!(is_whitespace(c), c.is_whitespace(), "U+{:04X}", code);
        }
    }
}

#[test]
fn is_whitespace_on_known_characters() {
    for c in [' ', '\t', '\n', '\r', '\u{b}', '\u{c}', '\u{85}', '\u{a0}', '\u{3000}'] {
        assert!(is_whitespace(c));
    }
    for c in ['0', '.', '#', 'a', '\u{0}', '\u{200b}', '\u{feff}'] {
        assert!(!is_whitespace(c));
    }
}

#[test]
fn trim_agrees_with_std() {
    for text in [
        "",
        " ",
        "\n",
        " \t\r\n",
        "003020600\n",
        "003020600\r\n",
        "  003020600",
        "\u{a0}12 34\u{2003}\n",
        "a",
        " a",
        "a ",
        " a b ",
        "\u{200b} x \u{200b}",
        "é\u{3000}",
    ] {
        assert_eq!(trim(text), text.trim(), "{:?}", text);
    }
}

#[test]
fn trim_keeps_inner_white_space() {
    assert_eq!(trim("  1 2\t3 \n"), "1 2\t3");
}

#[test]
fn parse_cell_knows_placeholders_and_digits() {
    assert_eq!(parse_cell('0'), Some(CellValue::NotSet));
    assert_eq!(parse_cell('.'), Some(CellValue::NotSet));
    assert_eq!(parse_cell('#'), Some(CellValue::NotSet));
    for (i, c) in "123456789".chars().enumerate() {
        assert_eq!(parse_cell(c), Some(CellValue::Digit(i + 1)));
    }
}

#[test]
fn parse_cell_refuses_other_characters() {
    for c in ['/', ':', 'a', ' ', '-', '+', '\n', '١', '１', '\u{0}'] {
        assert_eq!(parse_cell(c), None, "{:?}", c);
    }
}

#[test]
fn cell_text_of_each_value() {
    assert_eq!(cell_text(CellValue::NotSet), ".");
    for d in 1..=9usize {
        assert_eq!(cell_text(CellValue::Digit(d)), d.to_string());
    }
}
