use voteer::keys;

#[test]
fn namespace_keys_are_digest_sized() {
    // every hash input is longer or shorter than a digest, so a 32-byte
    // result shows the hash actually ran
    assert_eq!(32, keys::candidate_map_key(0).len());
    assert_eq!(32, keys::candidate_vec_key(0).len());
    assert_eq!(32, keys::supporter_set_key(0, 0).len());
    assert_eq!(32, keys::user_election_set_key(&"bob_near".to_string()).len());
    assert_eq!(32, keys::user_election_set_key(&"".to_string()).len());
}

#[test]
fn namespace_keys_are_deterministic() {
    assert_eq!(keys::candidate_map_key(7), keys::candidate_map_key(7));
    assert_eq!(keys::supporter_set_key(7, 3), keys::supporter_set_key(7, 3));
    assert_eq!(
        keys::user_election_set_key(&"alice".to_string()),
        keys::user_election_set_key(&"alice".to_string()),
    );
}

#[test]
fn distinct_identifiers_give_distinct_keys() {
    // across families, for the same election id
    assert_ne!(keys::candidate_map_key(0), keys::candidate_vec_key(0));
    assert_ne!(keys::candidate_map_key(0), keys::supporter_set_key(0, 0));

    // within a family, across ids and candidate indices
    assert_ne!(keys::candidate_map_key(0), keys::candidate_map_key(1));
    assert_ne!(keys::supporter_set_key(0, 0), keys::supporter_set_key(0, 1));
    assert_ne!(keys::supporter_set_key(0, 0), keys::supporter_set_key(1, 0));

    // across creators
    assert_ne!(
        keys::user_election_set_key(&"alice".to_string()),
        keys::user_election_set_key(&"bob".to_string()),
    );
}
