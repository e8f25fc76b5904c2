//! Tests of card-swipe parsing.

use minnehack_check_in::cards::{parse_card, CardParse};

#[test]
fn parse_err() {
    let data = "%E?\n";
    assert_eq!(parse_card(data), CardParse::BadRead);
}

#[test]
fn parse_fields() {
    assert_eq!(
        parse_card("%JOHN/DOE^1234?\n"),
        CardParse::Card(vec!["JOHN/DOE".to_string(), "1234".to_string()]),
    );
    assert_eq!(parse_card("%single?\n"), CardParse::Card(vec!["single".to_string()]));
    assert_eq!(parse_card("%?\n"), CardParse::Card(vec![String::new()]));
    assert_eq!(
        parse_card("%^^?\n"),
        CardParse::Card(vec![String::new(), String::new(), String::new()]),
    );
    // A field may carry a '?' as long as a later caret follows it.
    assert_eq!(
        parse_card("%a?b^c?\n"),
        CardParse::Card(vec!["a?b".to_string(), "c".to_string()]),
    );
}

#[test]
fn parse_rejects_invalid_lines() {
    assert_eq!(parse_card(""), CardParse::BadParse);
    assert_eq!(parse_card("no frame"), CardParse::BadParse);
    assert_eq!(parse_card("%unterminated"), CardParse::BadParse);
    assert_eq!(parse_card("%missing newline?"), CardParse::BadParse);
    // A '?' inside the final field ends the line too soon.
    assert_eq!(parse_card("%a?b?\n"), CardParse::BadParse);
    // Anything after the reader's error line is invalid.
    assert_eq!(parse_card("%E?\nmore"), CardParse::BadParse);
    // Trailing text after the terminator is invalid.
    assert_eq!(parse_card("%abc?\nxyz"), CardParse::BadParse);
}
