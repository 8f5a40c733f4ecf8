use committed::parse_conventional;
use committed::parse_plain;
use committed::CheckError;
use committed::ParsedMessage;

#[test]
fn conventional_full_header_and_body() {
    let parsed = parse_conventional("feat(parser)!: Add new rule\n\nBody text").unwrap();
    match parsed {
        ParsedMessage::Conventional { ctype, scope, breaking, description, body } => {
            assert_eq!(ctype, "feat");
            assert_eq!(scope, Some("parser".to_string()));
            assert!(breaking);
            assert_eq!(description, "Add new rule");
            assert_eq!(body, Some("Body text".to_string()));
        }
        _ => panic!("expected a conventional message"),
    }
}

#[test]
fn conventional_minimal_header() {
    let parsed = parse_conventional("fix: something").unwrap();
    match parsed {
        ParsedMessage::Conventional { ctype, scope, breaking, description, body } => {
            assert_eq!(ctype, "fix");
            assert_eq!(scope, None);
            assert!(!breaking);
            assert_eq!(description, "something");
            assert_eq!(body, None);
        }
        _ => panic!("expected a conventional message"),
    }
}

#[test]
fn conventional_rejects_uppercase_type() {
    assert_eq!(parse_conventional("Fix bug"), Err(CheckError::Grammar));
}

#[test]
fn conventional_rejects_missing_separator() {
    assert_eq!(parse_conventional("feat add rule"), Err(CheckError::Grammar));
}

#[test]
fn conventional_rejects_empty_description() {
    assert_eq!(parse_conventional("feat: "), Err(CheckError::Grammar));
}

#[test]
fn conventional_rejects_unclosed_scope() {
    assert_eq!(parse_conventional("feat(parser: Add rule"), Err(CheckError::Grammar));
}

#[test]
fn conventional_rejects_body_without_blank_line() {
    assert_eq!(parse_conventional("feat: Add rule\nBody right away"), Err(CheckError::Grammar));
}

#[test]
fn conventional_rejects_empty_message() {
    assert_eq!(parse_conventional(""), Err(CheckError::Grammar));
}

#[test]
fn conventional_trailing_newline_means_no_body() {
    let parsed = parse_conventional("feat: Add rule\n").unwrap();
    match parsed {
        ParsedMessage::Conventional { body, .. } => assert_eq!(body, None),
        _ => panic!("expected a conventional message"),
    }
}

#[test]
fn plain_subject_and_body() {
    let parsed = parse_plain("Fix bug\n\nDetails").unwrap();
    match parsed {
        ParsedMessage::Plain { subject, body } => {
            assert_eq!(subject, "Fix bug");
            assert_eq!(body, "Details");
        }
        _ => panic!("expected a plain message"),
    }
}

#[test]
fn plain_rejects_empty_message() {
    assert_eq!(parse_plain(""), Err(CheckError::EmptyMessage));
}

#[test]
fn plain_trims_trailing_whitespace_from_subject() {
    let parsed = parse_plain("Fix bug   \nrest").unwrap();
    match parsed {
        ParsedMessage::Plain { subject, body } => {
            assert_eq!(subject, "Fix bug");
            assert_eq!(body, "rest");
        }
        _ => panic!("expected a plain message"),
    }
}

#[test]
fn plain_single_line_has_empty_body() {
    let parsed = parse_plain("Fix bug").unwrap();
    match parsed {
        ParsedMessage::Plain { subject, body } => {
            assert_eq!(subject, "Fix bug");
            assert_eq!(body, "");
        }
        _ => panic!("expected a plain message"),
    }
}
