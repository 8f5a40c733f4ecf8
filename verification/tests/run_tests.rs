use committed::check_all;
use committed::CheckError;
use committed::Config;
use committed::RunError;
use committed::Repository;
use committed::Style;

fn history() -> Repository {
    let mut repo = Repository::new();
    assert!(repo.add_commit("a1".to_string(), "feat: Add parser".to_string(), vec![]));
    assert!(repo.add_commit("b2".to_string(), "fix: something".to_string(), vec![0]));
    assert!(repo.add_commit("c3".to_string(), "docs: Improve readme".to_string(), vec![1]));
    repo
}

#[test]
fn default_config_flags_lowercase_description_end_to_end() {
    let repo = history();
    let cfg = Config::default();
    assert_eq!(
        check_all(&repo, "b2", &cfg),
        Err(RunError::Commit {
            id: "b2".to_string(),
            error: CheckError::Capitalization { subject: "something".to_string() },
        })
    );
}

#[test]
fn run_stops_at_first_failing_commit() {
    let repo = history();
    let cfg = Config::default();
    // Over a1..c3 the commits run newest first: c3 passes, then b2 fails.
    assert_eq!(
        check_all(&repo, "a1..c3", &cfg),
        Err(RunError::Commit {
            id: "b2".to_string(),
            error: CheckError::Capitalization { subject: "something".to_string() },
        })
    );
}

#[test]
fn all_commits_passing_yields_ok() {
    let repo = history();
    let cfg = Config {
        subject_length: None,
        subject_capitalized: Some(false),
        line_length: None,
        style: None,
    };
    assert_eq!(check_all(&repo, "a1..c3", &cfg), Ok(()));
}

#[test]
fn unresolvable_expression_fails_the_run() {
    let repo = history();
    let cfg = Config::default();
    assert_eq!(
        check_all(&repo, "nope", &cfg),
        Err(RunError::Revision { expression: "nope".to_string() })
    );
}

#[test]
fn zero_thresholds_never_fail_length_checks() {
    let mut repo = Repository::new();
    let long_subject = "w".repeat(300);
    assert!(repo.add_commit("z9".to_string(), long_subject, vec![]));
    let cfg = Config {
        subject_length: Some(0),
        subject_capitalized: Some(false),
        line_length: Some(0),
        style: Some(Style::Plain),
    };
    assert_eq!(check_all(&repo, "z9", &cfg), Ok(()));
}
