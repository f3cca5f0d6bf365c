use voteer::registry::Voteer;

fn strings(xs: &[&str]) -> Vec<String> {
    xs.iter().map(|v| v.to_string()).collect()
}

fn counts(contract: &Voteer, id: u128) -> Vec<u64> {
    contract.get_candidates(id).iter().map(|c| c.supported).collect()
}

#[test]
fn create_election_test_single() {
    let mut contract = Voteer::new();

    let candidates = vec!["head\u{ff1a} watch movie", "tail: play basketball", "stand: read a book"]
        .iter()
        .map(|v| v.to_string())
        .collect::<Vec<_>>();
    let election_name = "to do what by flip a coin".to_string();
    let signer = "bob_near".to_string();
    let election_id = contract.create_election(&candidates, false, &election_name, &signer);
    let options = contract.get_candidates(election_id);
    assert_eq!(candidates.len(), options.len());

    for (c1, c2) in candidates.iter().zip(options.iter()) {
        assert_eq!(c1, &c2.name);
        assert_eq!(0, c2.supported);
    }

    // vote once
    contract.vote(election_id, &vec![candidates[1].to_string()], &signer);
    let options = contract.get_candidates(election_id);
    assert_eq!(candidates.len(), options.len());
    for (c1, c2) in candidates.iter().zip(options.iter()) {
        assert_eq!(c1, &c2.name);
        if c1 == &candidates[1].to_string() {
            assert_eq!(1, c2.supported);
        } else {
            assert_eq!(0, c2.supported);
        }
    }

    // repeat vote won't work
    contract.vote(election_id, &vec![candidates[1].to_string()], &signer);
    let options = contract.get_candidates(election_id);
    assert_eq!(candidates.len(), options.len());
    for (c1, c2) in candidates.iter().zip(options.iter()) {
        assert_eq!(c1, &c2.name);
        if c1 == &candidates[1].to_string() {
            assert_eq!(1, c2.supported);
        } else {
            assert_eq!(0, c2.supported);
        }
    }

    // test user's election
    let elections = contract.get_elections(&"bob_near".to_string());
    assert_eq!(1, elections.len());
    assert_eq!(election_name, elections[0].name);
}

#[test]
fn unknown_election_and_creator_are_empty() {
    let mut contract = Voteer::new();
    assert!(contract.get_candidates(0).is_empty());
    assert!(contract.get_elections(&"nobody".to_string()).is_empty());

    let id = contract.create_election(
        &strings(&["a", "b"]),
        false,
        &"one".to_string(),
        &"alice".to_string(),
    );
    assert!(contract.get_candidates(id + 1).is_empty());
    assert!(contract.get_elections(&"bob".to_string()).is_empty());

    // voting or revoking against an unknown id is a silent no-op
    contract.vote(id + 7, &strings(&["a"]), &"alice".to_string());
    contract.revoke(id + 7, &strings(&["a"]), &"alice".to_string());
    assert_eq!(vec![0, 0], counts(&contract, id));
}

#[test]
fn creator_index_keeps_creation_order() {
    let mut contract = Voteer::new();
    let alice = "alice".to_string();
    let bob = "bob".to_string();
    let id0 = contract.create_election(&strings(&["x"]), false, &"first".to_string(), &alice);
    let id1 = contract.create_election(&strings(&["y"]), false, &"second".to_string(), &bob);
    let id2 = contract.create_election(&strings(&["z"]), false, &"third".to_string(), &alice);

    let of_alice = contract.get_elections(&alice);
    assert_eq!(2, of_alice.len());
    assert_eq!(id0, of_alice[0].id);
    assert_eq!("first", of_alice[0].name);
    assert_eq!(id2, of_alice[1].id);
    assert_eq!("third", of_alice[1].name);

    let of_bob = contract.get_elections(&bob);
    assert_eq!(1, of_bob.len());
    assert_eq!(id1, of_bob[0].id);
    assert_eq!("second", of_bob[0].name);
}

#[test]
fn last5_of_seven_elections_descending() {
    let mut contract = Voteer::new();
    let creator = "carol".to_string();
    for k in 0..7u32 {
        let name = format!("election {}", k);
        contract.create_election(&strings(&["yes", "no"]), false, &name, &creator);
    }
    let recent = contract.get_last5elections();
    assert_eq!(5, recent.len());
    let ids: Vec<u128> = recent.iter().map(|e| e.id).collect();
    assert_eq!(vec![6, 5, 4, 3, 2], ids);
    assert_eq!("election 6", recent[0].name);
    assert_eq!("election 2", recent[4].name);
}

#[test]
fn last5_of_two_elections() {
    let mut contract = Voteer::new();
    let creator = "dave".to_string();
    contract.create_election(&strings(&["a"]), false, &"zero".to_string(), &creator);
    contract.create_election(&strings(&["b"]), false, &"one".to_string(), &creator);
    let recent = contract.get_last5elections();
    assert_eq!(2, recent.len());
    assert_eq!(1, recent[0].id);
    assert_eq!("one", recent[0].name);
    assert_eq!(0, recent[1].id);
    assert_eq!("zero", recent[1].name);
}

#[test]
fn coin_flip_scenario() {
    let mut contract = Voteer::new();
    let voter = "erin".to_string();
    let id = contract.create_election(
        &strings(&["A", "B", "C"]),
        false,
        &"coin".to_string(),
        &voter,
    );
    contract.vote(id, &strings(&["B"]), &voter);
    assert_eq!(vec![0, 1, 0], counts(&contract, id));

    contract.vote(id, &strings(&["B"]), &voter);
    assert_eq!(vec![0, 1, 0], counts(&contract, id));

    contract.vote(id, &strings(&["C"]), &voter);
    assert_eq!(vec![0, 0, 1], counts(&contract, id));

    contract.revoke(id, &strings(&["C"]), &voter);
    assert_eq!(vec![0, 0, 0], counts(&contract, id));
}
