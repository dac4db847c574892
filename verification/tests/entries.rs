use decklist_price::entry::{validate_card_list, validate_card_list_entry, Entry, ParseError};
use regex::Regex;

#[test]
fn test_validate_card_list_entry() {
    let entry = "3 Mountain";
    let result = validate_card_list_entry(entry);
    assert!(result.is_ok());
    let parsed = result.unwrap();
    let (count, name) = (parsed.quantity(), parsed.card_name().to_string());
    assert_eq!(count, 3);
    assert_eq!(name, "Mountain");

    let invalid_entry = "Mountain 3";
    let result = validate_card_list_entry(invalid_entry);
    assert!(result.is_err());

    let empty_entry = "";
    let result = validate_card_list_entry(empty_entry);
    assert!(result.is_err());

    let malformed_entry = "3";
    let result = validate_card_list_entry(malformed_entry);
    assert!(result.is_err());

    let no_count_entry = "Mountain";
    let result = validate_card_list_entry(no_count_entry);
    assert!(result.is_err());

    let whitespace_entry = "   ";
    let result = validate_card_list_entry(whitespace_entry);
    assert!(result.is_err());

    let float_entry = "3.0 Mountain";
    let result = validate_card_list_entry(float_entry);
    assert!(result.is_err());
}

#[test]
fn test_validate_card_list() {
    let entries = vec!["3 Mountain", "2 Island", "1 Plains"];
    let result = validate_card_list(&entries);
    assert!(result.is_ok());
    let valid_entries = result.unwrap();
    assert_eq!(valid_entries.len(), 3);
    assert_eq!(valid_entries[0].quantity(), 3);
    assert_eq!(valid_entries[0].card_name(), "Mountain");
    assert_eq!(valid_entries[1].quantity(), 2);
    assert_eq!(valid_entries[1].card_name(), "Island");
    assert_eq!(valid_entries[2].quantity(), 1);
    assert_eq!(valid_entries[2].card_name(), "Plains");

    let invalid_entries = vec!["3 Mountain", "Island", "1 Plains"];
    let result = validate_card_list(&invalid_entries);
    assert!(result.is_err());
}

fn parsed(line: &str) -> Option<(u32, String)> {
    validate_card_list_entry(line).ok().map(|e| (e.quantity(), e.card_name().to_string()))
}

#[test]
fn a_valid_line_gives_its_quantity_and_trimmed_name() {
    assert_eq!(parsed("3 Mountain"), Some((3, "Mountain".to_string())));
    assert_eq!(parsed("  12\t  Jace, the Mind Sculptor   "), Some((12, "Jace, the Mind Sculptor".to_string())));
    assert_eq!(parsed("0 Island"), Some((0, "Island".to_string())));
    assert_eq!(parsed("007 Swords to Plowshares"), Some((7, "Swords to Plowshares".to_string())));
    assert_eq!(parsed("1 4"), Some((1, "4".to_string())));
    assert_eq!(parsed("2 Lim-D\u{fb}l's Vault"), Some((2, "Lim-D\u{fb}l's Vault".to_string())));
    assert_eq!(parsed("1\u{a0}Plains"), Some((1, "Plains".to_string())));
    assert_eq!(parsed("1 \n Plains"), Some((1, "Plains".to_string())));
    assert_eq!(parsed("1 a\rb"), Some((1, "a\rb".to_string())));
}

#[test]
fn a_line_without_the_shape_of_an_entry_has_an_invalid_format() {
    let lines = [
        "Mountain", "", "   ", "3", "3.0 Mountain", "Mountain 3", "3Mountain", "-3 Mountain",
        "+3 Mountain", "3 ", " 3", "3 a\nb", "x 3 Mountain", "\u{bd} Mountain", "\u{2167} Mountain",
        "3\u{b2} Mountain", "\u{663}", "\u{663}Mountain",
    ];
    for line in lines {
        match validate_card_list_entry(line) {
            Err(ParseError::InvalidFormat(text)) => assert_eq!(text, line),
            other => panic!("{:?} gave {:?}", line, other),
        }
    }
}

#[test]
fn a_quantity_beyond_32_bits_is_an_invalid_quantity() {
    assert_eq!(parsed("4294967295 Mountain"), Some((4294967295, "Mountain".to_string())));
    assert_eq!(parsed("00000000004294967295 Mountain"), Some((4294967295, "Mountain".to_string())));
    for line in ["4294967296 Mountain", "99999999999999999999999999 Mountain", " 4294967300 x "] {
        match validate_card_list_entry(line) {
            Err(ParseError::InvalidQuantity(text)) => assert_eq!(text, line),
            other => panic!("{:?} gave {:?}", line, other),
        }
    }
}

#[test]
fn a_quantity_in_digits_of_another_script_is_an_invalid_quantity() {
    for line in ["\u{663} Mountain", "3\u{663} Mountain", "\u{663}3 Mountain", " \u{ff13}\tIsland ", "\u{967}\u{968} x"] {
        match validate_card_list_entry(line) {
            Err(ParseError::InvalidQuantity(text)) => assert_eq!(text, line),
            other => panic!("{:?} gave {:?}", line, other),
        }
    }
}

#[test]
fn parse_errors_say_what_is_wrong_with_which_line() {
    let format = validate_card_list_entry("Mountain 3").unwrap_err();
    assert_eq!(format.line(), "Mountain 3");
    assert_eq!(format.message(), "Invalid card entry format: Mountain 3");
    let quantity = validate_card_list_entry("4294967296 Mountain").unwrap_err();
    assert_eq!(quantity.line(), "4294967296 Mountain");
    assert_eq!(quantity.message(), "Invalid count in entry: 4294967296 Mountain");
    let copy = quantity.clone();
    assert_eq!(copy.message(), quantity.message());
}

#[test]
fn validation_reports_the_first_line_that_is_no_entry() {
    let lines = vec!["3 Mountain", "Island", "99999999999 Plains", "x"];
    match validate_card_list(&lines) {
        Err(ParseError::InvalidFormat(text)) => assert_eq!(text, "Island"),
        other => panic!("gave {:?}", other),
    }
    let lines = vec!["3 Mountain", "99999999999 Plains", "Island"];
    match validate_card_list(&lines) {
        Err(ParseError::InvalidQuantity(text)) => assert_eq!(text, "99999999999 Plains"),
        other => panic!("gave {:?}", other),
    }
}

#[test]
fn validation_of_no_lines_gives_no_entries() {
    let lines: Vec<&str> = Vec::new();
    assert!(validate_card_list(&lines).unwrap().is_empty());
}

#[test]
fn an_entry_is_made_of_a_card_name_only() {
    let entry = Entry::new(4, "Lightning Bolt").unwrap();
    assert_eq!(entry.quantity(), 4);
    assert_eq!(entry.card_name(), "Lightning Bolt");
    let copy = entry.clone();
    assert_eq!(copy.quantity(), 4);
    assert_eq!(copy.card_name(), "Lightning Bolt");
    assert!(Entry::new(1, "").is_none());
    assert!(Entry::new(1, " Bolt").is_none());
    assert!(Entry::new(1, "Bolt\t").is_none());
    assert!(Entry::new(1, "Light\nning").is_none());
    assert!(Entry::new(0, "x").is_some());
}

#[test]
fn what_is_read_from_a_line_can_be_made_as_an_entry() {
    for line in ["3 Mountain", " 2   Fire // Ice ", "1 \u{c6}ther Vial"] {
        let entry = validate_card_list_entry(line).unwrap();
        let made = Entry::new(entry.quantity(), entry.card_name()).unwrap();
        assert_eq!(made.quantity(), entry.quantity());
        assert_eq!(made.card_name(), entry.card_name());
    }
}

#[test]
fn the_grammar_agrees_with_its_regular_expression() {
    let pattern = Regex::new(r"(?i)^(?P<count>\d+)\s+(?P<name>.+?)\s*?$").unwrap();
    let lines = [
        "3 Mountain", "Mountain 3", "", "3", "Mountain", "   ", "3.0 Mountain", "  3   Island  ",
        "3\tIsland", "3\u{a0}Island", "03 Island", "0 Island", "4294967295 x", "4294967296 x",
        "3 a b  c", "3 a\nb", "3 \n a", "3 a\rb", "3 a\n", "3Island", "3 .", "1 2 3", "\u{663} x",
        "3\u{663} x", "12 Jace, the Mind Sculptor", "1 Fire // Ice", "-1 x", "1  \u{2003} x y ",
        "9 \u{c6}ther Vial", "1 x\u{3000}", "1\n2 x", "1 x\t\ty", "\u{ff11}\u{ff12} x", "\u{bd} x",
        "\u{2167} x", "3\u{b2} x", "\u{1d7ce} zero", "\u{663}", "\u{96f}\u{a0}\u{96f}",
    ];
    for line in lines {
        let expected = match pattern.captures(line.trim()) {
            None => Err("format"),
            Some(caps) => match caps.name("count").unwrap().as_str().parse::<u32>() {
                Err(_) => Err("quantity"),
                Ok(count) => Ok((count, caps.name("name").unwrap().as_str().trim().to_string())),
            },
        };
        let got = match validate_card_list_entry(line) {
            Ok(entry) => Ok((entry.quantity(), entry.card_name().to_string())),
            Err(ParseError::InvalidFormat(_)) => Err("format"),
            Err(ParseError::InvalidQuantity(_)) => Err("quantity"),
        };
        assert_eq!(got, expected, "for {:?}", line);
    }
}
