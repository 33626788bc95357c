use eggplan::model::SubjectState;
use eggplan::worktree::{field, manifest_of, subject_from, Budget, GitSubjectOptions, GitSubjectSource};
use sha2::{Digest, Sha256};

#[test]
fn sources_keep_root_identity_bounds_and_exclusion() {
    let source = GitSubjectSource::new("/work", "epr_repo");
    assert_eq!(source.root(), "/work");
    assert_eq!(source.repository_id(), "epr_repo");
    assert_eq!(source.options(), GitSubjectOptions::default());
    assert_eq!(source.options().max_paths, 10_000);
    assert_eq!(source.excluded_root(), None);
    let tuned = source
        .with_options(GitSubjectOptions { max_paths: 1, max_content_bytes: 2, max_submodule_depth: 0 })
        .excluding_path(".eggplan");
    assert_eq!(tuned.excluded_root(), Some(".eggplan"));
    assert_eq!(tuned.options().max_paths, 1);
    assert_eq!(tuned.root(), "/work");
}

#[test]
fn budgets_count_paths_and_bytes_against_bounds() {
    let mut budget = Budget::new(GitSubjectOptions { max_paths: 1, max_content_bytes: 10, max_submodule_depth: 2 });
    assert!(budget.add_path());
    assert!(!budget.add_path());
    assert!(budget.add_bytes(10));
    assert!(!budget.add_bytes(1));
    assert!(budget.depth_ok(2));
    assert!(!budget.depth_ok(3));
    budget.bytes = u64::MAX - 1;
    assert!(!budget.add_bytes(5));
    assert_eq!(budget.bytes, u64::MAX);
}

#[test]
fn manifests_are_length_prefixed_and_path_ordered() {
    let mut out = vec![];
    field(&mut out, b"ab");
    assert_eq!(out, [2, 0, 0, 0, 0, 0, 0, 0, b'a', b'b']);
    let rows = vec![("z".to_string(), vec![1u8]), ("a".to_string(), vec![2u8, 3])];
    let manifest = manifest_of(&rows);
    let mut expected = vec![];
    field(&mut expected, &[2, 3]);
    field(&mut expected, &[1]);
    assert_eq!(manifest, expected);
    assert_eq!(manifest_of(&vec![]), Vec::<u8>::new());
}

#[test]
fn subjects_are_clean_for_an_empty_manifest_and_digest_a_dirty_one() {
    let head = "a".repeat(40);
    let clean = subject_from("epr_repo", &head, &[]).unwrap();
    assert_eq!(clean.state, SubjectState::Clean);
    assert_eq!(clean.dirty_digest, None);
    assert_eq!(clean.subject_kind, "git");
    let dirty = subject_from("epr_repo", &head, b"manifest").unwrap();
    assert_eq!(dirty.state, SubjectState::Dirty);
    let hex: String = Sha256::digest(b"manifest").iter().map(|b| format!("{b:02x}")).collect();
    assert_eq!(dirty.dirty_digest, Some(format!("sha256:{hex}")));
    assert!(subject_from("", &head, &[]).is_err());
}
