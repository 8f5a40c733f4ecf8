use committed::RunError;
use committed::Repository;

fn linear_history() -> Repository {
    let mut repo = Repository::new();
    assert!(repo.add_commit("A".to_string(), "Feat: first".to_string(), vec![]));
    assert!(repo.add_commit("B".to_string(), "Feat: second".to_string(), vec![0]));
    assert!(repo.add_commit("C".to_string(), "Feat: third".to_string(), vec![1]));
    repo
}

#[test]
fn range_resolves_newest_first_excluding_base() {
    let repo = linear_history();
    let records = repo.resolve("A..C").unwrap();
    let ids: Vec<&str> = records.iter().map(|r| r.id.as_str()).collect();
    assert_eq!(ids, vec!["C", "B"]);
}

#[test]
fn single_ref_resolves_to_that_commit() {
    let repo = linear_history();
    let records = repo.resolve("C").unwrap();
    assert_eq!(records.len(), 1);
    assert_eq!(records[0].id, "C");
    assert_eq!(records[0].message, "Feat: third");
}

#[test]
fn unknown_ref_is_a_revision_error() {
    let repo = linear_history();
    assert_eq!(
        repo.resolve("D"),
        Err(RunError::Revision { expression: "D".to_string() })
    );
    assert_eq!(
        repo.resolve("A..D"),
        Err(RunError::Revision { expression: "A..D".to_string() })
    );
    assert_eq!(
        repo.resolve("D..C"),
        Err(RunError::Revision { expression: "D..C".to_string() })
    );
}

#[test]
fn full_range_from_root_excludes_the_root() {
    let repo = linear_history();
    let records = repo.resolve("B..C").unwrap();
    let ids: Vec<&str> = records.iter().map(|r| r.id.as_str()).collect();
    assert_eq!(ids, vec!["C"]);
}

#[test]
fn merge_history_follows_all_parents() {
    // A diamond: A is the root, B and C both branch from A, D merges B and C.
    let mut repo = Repository::new();
    assert!(repo.add_commit("A".to_string(), "Feat: a".to_string(), vec![]));
    assert!(repo.add_commit("B".to_string(), "Feat: b".to_string(), vec![0]));
    assert!(repo.add_commit("C".to_string(), "Feat: c".to_string(), vec![0]));
    assert!(repo.add_commit("D".to_string(), "Feat: d".to_string(), vec![1, 2]));
    let records = repo.resolve("B..D").unwrap();
    let ids: Vec<&str> = records.iter().map(|r| r.id.as_str()).collect();
    assert_eq!(ids, vec!["D", "C"]);
}

#[test]
fn duplicate_identifier_is_refused() {
    let mut repo = Repository::new();
    assert!(repo.add_commit("A".to_string(), "Feat: a".to_string(), vec![]));
    assert!(!repo.add_commit("A".to_string(), "Feat: again".to_string(), vec![]));
}

#[test]
fn unknown_parent_index_is_refused() {
    let mut repo = Repository::new();
    assert!(!repo.add_commit("A".to_string(), "Feat: a".to_string(), vec![3]));
}
