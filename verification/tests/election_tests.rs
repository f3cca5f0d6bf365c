use voteer::election::Election;

fn strings(xs: &[&str]) -> Vec<String> {
    xs.iter().map(|v| v.to_string()).collect()
}

fn names(e: &Election) -> Vec<String> {
    e.get_candidates().into_iter().map(|c| c.name).collect()
}

fn counts(e: &Election) -> Vec<u64> {
    e.get_candidates().iter().map(|c| c.supported).collect()
}

#[test]
fn creation_deduplicates_first_seen() {
    let e = Election::new(&strings(&["x", "y", "x", "z", "y", "x"]), true, 0, "dups");
    assert_eq!(strings(&["x", "y", "z"]), names(&e));
    assert_eq!(vec![0, 0, 0], counts(&e));
}

#[test]
fn creation_accepts_empty_candidate_list() {
    let e = Election::new(&strings(&[]), false, 3, "empty");
    assert!(e.get_candidates().is_empty());
}

#[test]
fn creation_accepts_fully_duplicate_list() {
    let e = Election::new(&strings(&["same", "same", "same"]), false, 4, "one");
    assert_eq!(strings(&["same"]), names(&e));
}

#[test]
fn single_choice_vote_replaces_previous_ballot() {
    let mut e = Election::new(&strings(&["A", "B", "C"]), false, 0, "coin");
    let voter = "erin".to_string();

    let changed = e.vote(&strings(&["B"]), &voter);
    assert!(changed);
    assert_eq!(vec![0, 1, 0], counts(&e));

    let changed = e.vote(&strings(&["B"]), &voter);
    assert!(!changed);
    assert_eq!(vec![0, 1, 0], counts(&e));

    let changed = e.vote(&strings(&["C"]), &voter);
    assert!(changed);
    assert_eq!(vec![0, 0, 1], counts(&e));

    let changed = e.revoke_vote(&strings(&["C"]), &voter);
    assert!(changed);
    assert_eq!(vec![0, 0, 0], counts(&e));
}

#[test]
fn multi_choice_vote_is_exact_replacement() {
    let mut e = Election::new(&strings(&["a", "b", "c", "d"]), true, 1, "multi");
    let voter = "frank".to_string();

    assert!(e.vote(&strings(&["a", "b"]), &voter));
    assert_eq!(vec![1, 1, 0, 0], counts(&e));

    // the new ballot replaces the old one entirely
    assert!(e.vote(&strings(&["b", "d"]), &voter));
    assert_eq!(vec![0, 1, 0, 1], counts(&e));

    // an immediate repeat of the same ballot changes nothing
    assert!(!e.vote(&strings(&["b", "d"]), &voter));
    assert_eq!(vec![0, 1, 0, 1], counts(&e));
}

#[test]
fn invalid_ballots_are_silent_no_ops() {
    let mut e = Election::new(&strings(&["a", "b"]), false, 2, "single");
    let voter = "grace".to_string();
    assert!(e.vote(&strings(&["a"]), &voter));
    assert_eq!(vec![1, 0], counts(&e));

    // zero options on a single-choice election
    assert!(!e.vote(&strings(&[]), &voter));
    assert_eq!(vec![1, 0], counts(&e));

    // more than one option on a single-choice election
    assert!(!e.vote(&strings(&["a", "b"]), &voter));
    assert_eq!(vec![1, 0], counts(&e));

    let mut m = Election::new(&strings(&["a", "b"]), true, 3, "multi");
    assert!(m.vote(&strings(&["a"]), &voter));
    // zero options on a multi-choice election
    assert!(!m.vote(&strings(&[]), &voter));
    assert_eq!(vec![1, 0], counts(&m));
}

#[test]
fn vote_with_unknown_name_only_clears_selection() {
    let mut e = Election::new(&strings(&["a", "b"]), true, 5, "m");
    let voter = "heidi".to_string();
    assert!(e.vote(&strings(&["a", "b"]), &voter));
    // a ballot of unknown names is valid and removes the voter everywhere
    assert!(e.vote(&strings(&["nobody"]), &voter));
    assert_eq!(vec![0, 0], counts(&e));
}

#[test]
fn revoke_is_scoped_to_named_candidates() {
    let mut e = Election::new(&strings(&["a", "b", "c"]), true, 6, "m");
    let voter = "ivan".to_string();
    let other = "judy".to_string();
    assert!(e.vote(&strings(&["a", "b", "c"]), &voter));
    assert!(e.vote(&strings(&["a"]), &other));
    assert_eq!(vec![2, 1, 1], counts(&e));

    // only "a" is revoked; "b" and "c" keep the voter
    assert!(e.revoke_vote(&strings(&["a"]), &voter));
    assert_eq!(vec![1, 1, 1], counts(&e));

    // unknown names are ignored, and revoking where absent changes nothing
    assert!(!e.revoke_vote(&strings(&["a", "nobody"]), &voter));
    assert_eq!(vec![1, 1, 1], counts(&e));

    // the other voter's support was never touched
    assert!(e.revoke_vote(&strings(&["a"]), &other));
    assert_eq!(vec![0, 1, 1], counts(&e));
}
