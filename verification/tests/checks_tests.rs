use committed::check_capitalized_subject;
use committed::check_line_length;
use committed::check_message;
use committed::check_subject_length;
use committed::CheckError;
use committed::Config;
use committed::Style;

#[test]
fn capitalized_uppercase_unicode_letter_passes() {
    assert_eq!(check_capitalized_subject("Ångström"), Ok(()));
}

#[test]
fn capitalized_lowercase_unicode_letter_fails() {
    assert_eq!(
        check_capitalized_subject("ångström"),
        Err(CheckError::Capitalization { subject: "ångström".to_string() })
    );
}

#[test]
fn capitalized_caseless_leading_character_fails() {
    assert_eq!(
        check_capitalized_subject("3 fixes"),
        Err(CheckError::Capitalization { subject: "3 fixes".to_string() })
    );
}

#[test]
fn capitalized_empty_subject_fails() {
    assert_eq!(
        check_capitalized_subject(""),
        Err(CheckError::Capitalization { subject: "".to_string() })
    );
}

#[test]
fn combining_mark_counts_as_one_grapheme() {
    // "e" followed by a combining acute accent: two code points, one cluster.
    let msg = "e\u{301}xx";
    assert_eq!(check_subject_length(msg, 3), Ok(()));
    assert_eq!(
        check_subject_length(msg, 2),
        Err(CheckError::SubjectLength { actual: 3, limit: 2 })
    );
}

#[test]
fn multi_codepoint_emoji_counts_as_one_grapheme() {
    // A regional-indicator flag: two code points, one cluster.
    let msg = "\u{1F1F7}\u{1F1FA}!";
    assert_eq!(check_subject_length(msg, 2), Ok(()));
    assert_eq!(
        check_subject_length(msg, 1),
        Err(CheckError::SubjectLength { actual: 2, limit: 1 })
    );
}

#[test]
fn subject_boundary_exact_limit_passes_one_less_fails() {
    let msg = "abcde\nbody";
    assert_eq!(check_subject_length(msg, 5), Ok(()));
    assert_eq!(
        check_subject_length(msg, 4),
        Err(CheckError::SubjectLength { actual: 5, limit: 4 })
    );
}

#[test]
fn subject_trailing_whitespace_is_trimmed() {
    assert_eq!(check_subject_length("abc   \nrest", 3), Ok(()));
}

#[test]
fn line_length_reports_first_offending_line() {
    let msg = "Short\nThis line is long\nx";
    assert_eq!(check_line_length(msg, 20), Ok(()));
    assert_eq!(
        check_line_length(msg, 10),
        Err(CheckError::LineLength { actual: 17, limit: 10 })
    );
}

#[test]
fn line_length_trims_trailing_whitespace_per_line() {
    assert_eq!(check_line_length("abc      \nde    ", 3), Ok(()));
}

#[test]
fn check_message_default_config_flags_lowercase_description() {
    let cfg = Config::default();
    assert_eq!(
        check_message("fix: something", &cfg),
        Err(CheckError::Capitalization { subject: "something".to_string() })
    );
}

#[test]
fn check_message_default_config_passes_capitalized_description() {
    let cfg = Config::default();
    assert_eq!(check_message("fix: Something", &cfg), Ok(()));
}

#[test]
fn check_message_zero_limits_disable_length_checks() {
    let cfg = Config {
        subject_length: Some(0),
        subject_capitalized: Some(false),
        line_length: Some(0),
        style: Some(Style::Plain),
    };
    let long = "x".repeat(500);
    assert_eq!(check_message(&long, &cfg), Ok(()));
}

#[test]
fn check_message_capitalization_flag_off_disables_that_check() {
    let cfg = Config {
        subject_length: None,
        subject_capitalized: Some(false),
        line_length: None,
        style: Some(Style::Conventional),
    };
    assert_eq!(check_message("fix: something", &cfg), Ok(()));
}

#[test]
fn check_message_subject_length_before_line_length() {
    // Both rules are broken; the subject-length error must win.
    let cfg = Config {
        subject_length: Some(5),
        subject_capitalized: Some(false),
        line_length: Some(5),
        style: Some(Style::Plain),
    };
    assert_eq!(
        check_message("A long subject\nand a very long body line", &cfg),
        Err(CheckError::SubjectLength { actual: 14, limit: 5 })
    );
}

#[test]
fn check_message_line_length_catches_long_body_line() {
    let cfg = Config {
        subject_length: Some(50),
        subject_capitalized: Some(false),
        line_length: Some(10),
        style: Some(Style::Plain),
    };
    assert_eq!(
        check_message("Short\n\na very long body line here", &cfg),
        Err(CheckError::LineLength { actual: 26, limit: 10 })
    );
}

#[test]
fn check_message_plain_empty_message_fails() {
    let cfg = Config {
        subject_length: None,
        subject_capitalized: None,
        line_length: None,
        style: Some(Style::Plain),
    };
    assert_eq!(check_message("", &cfg), Err(CheckError::EmptyMessage));
}

#[test]
fn check_message_conventional_grammar_error() {
    let cfg = Config::default();
    assert_eq!(check_message("Fix bug", &cfg), Err(CheckError::Grammar));
}
