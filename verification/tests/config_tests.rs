use committed::Config;
use committed::Style;

#[test]
fn defaults_when_unset() {
    let cfg = Config::default();
    assert_eq!(cfg.subject_length(), 50);
    assert!(cfg.subject_capitalized());
    assert_eq!(cfg.line_length(), 72);
    assert_eq!(cfg.style(), Style::Conventional);
}

#[test]
fn explicit_values_override_defaults() {
    let cfg = Config {
        subject_length: Some(10),
        subject_capitalized: Some(false),
        line_length: Some(20),
        style: Some(Style::Plain),
    };
    assert_eq!(cfg.subject_length(), 10);
    assert!(!cfg.subject_capitalized());
    assert_eq!(cfg.line_length(), 20);
    assert_eq!(cfg.style(), Style::Plain);
}

#[test]
fn zero_is_kept_as_configured() {
    let cfg = Config {
        subject_length: Some(0),
        subject_capitalized: None,
        line_length: Some(0),
        style: None,
    };
    assert_eq!(cfg.subject_length(), 0);
    assert_eq!(cfg.line_length(), 0);
}
