//! One election: a fixed, deduplicated candidate list and one supporter set
//! per candidate, each set addressed by its own hash-derived namespace key.
//!
//! `vote` replaces the voter's entire selection: every candidate's set is
//! brought in line with the ballot, so re-voting is idempotent and changing
//! one's mind is a single call.  `revoke_vote` is deliberately narrower: it
//! removes the voter only from the candidates it names.

use vstd::prelude::*;

verus! {

use crate::keys;

/// One candidate's display name and current supporter count, for reading.
pub struct Candidate {
    pub name: String,
    pub supported: u64,
}

/// A named election with an immutable candidate list, a supporter set per
/// candidate (a duplicate-free vector of voter identities), and the storage
/// namespace keys that back each piece of state.
pub struct Election {
    /// Display name of the election.
    pub name: String,
    /// Whether a ballot may name more than one candidate.
    pub multiple: bool,
    /// Candidate names, pairwise distinct, in creation order.
    pub candidates: Vec<String>,
    /// Supporter sets, index-aligned with `candidates`.
    pub supporters: Vec<Vec<String>>,
    /// Namespace key of each candidate's supporter set, index-aligned.
    pub supporter_keys: Vec<Vec<u8>>,
    /// Namespace key of the candidate-to-supporter-set map.
    pub map_key: Vec<u8>,
    /// Namespace key of the candidate-name list.
    pub list_key: Vec<u8>,
}

/// Whether a ballot of `n_options` entries is admissible: multi-choice
/// elections want at least one entry, single-choice exactly one.
pub open spec fn ballot_allowed(multiple: bool, n_options: nat) -> bool {
    if multiple {
        n_options >= 1
    } else {
        n_options == 1
    }
}

/// Set-style insertion into a duplicate-free sequence: append the value
/// unless it is already present.
pub open spec fn member_insert(s: Seq<Seq<char>>, v: Seq<char>) -> Seq<Seq<char>> {
    if s.contains(v) {
        s
    } else {
        s.push(v)
    }
}

/// Set-style removal from a sequence: drop every occurrence of the value,
/// keeping the order of the rest.
pub open spec fn member_remove(s: Seq<Seq<char>>, v: Seq<char>) -> Seq<Seq<char>>
    decreases s.len(),
{
    if s.len() == 0 {
        Seq::empty()
    } else {
        let rest = member_remove(s.drop_last(), v);
        if s.last() == v {
            rest
        } else {
            rest.push(s.last())
        }
    }
}

/// The candidate list after creation-time deduplication: first occurrences
/// survive, in their original order.
pub open spec fn dedup(s: Seq<Seq<char>>) -> Seq<Seq<char>>
    decreases s.len(),
{
    if s.len() == 0 {
        Seq::empty()
    } else {
        member_insert(dedup(s.drop_last()), s.last())
    }
}

/// Every supporter set after a valid vote: the voter is inserted where the
/// ballot names the candidate and removed everywhere else.
pub open spec fn supporters_after_vote(
    cands: Seq<Seq<char>>,
    supps: Seq<Seq<Seq<char>>>,
    options: Seq<Seq<char>>,
    voter: Seq<char>,
) -> Seq<Seq<Seq<char>>> {
    Seq::new(
        supps.len(),
        |i: int|
            if options.contains(cands[i]) {
                member_insert(supps[i], voter)
            } else {
                member_remove(supps[i], voter)
            },
    )
}

/// Whether a valid vote would touch any supporter set: true iff some
/// candidate's current membership of the voter disagrees with the ballot.
pub open spec fn vote_changes(
    cands: Seq<Seq<char>>,
    supps: Seq<Seq<Seq<char>>>,
    options: Seq<Seq<char>>,
    voter: Seq<char>,
) -> bool {
    exists|i: int|
        0 <= i < supps.len() && (#[trigger] options.contains(cands[i])) != supps[i].contains(voter)
}

/// Every supporter set after a revocation: the voter is removed from the
/// candidates the ballot names; all other sets are left exactly as they are.
pub open spec fn supporters_after_revoke(
    cands: Seq<Seq<char>>,
    supps: Seq<Seq<Seq<char>>>,
    options: Seq<Seq<char>>,
    voter: Seq<char>,
) -> Seq<Seq<Seq<char>>> {
    Seq::new(
        supps.len(),
        |i: int|
            if options.contains(cands[i]) {
                member_remove(supps[i], voter)
            } else {
                supps[i]
            },
    )
}

/// Whether a revocation would touch any supporter set.
pub open spec fn revoke_changes(
    cands: Seq<Seq<char>>,
    supps: Seq<Seq<Seq<char>>>,
    options: Seq<Seq<char>>,
    voter: Seq<char>,
) -> bool {
    exists|i: int|
        0 <= i < supps.len() && (#[trigger] options.contains(cands[i])) && supps[i].contains(voter)
}

/// Membership after a set-style insertion, and preservation of set-ness.
pub proof fn lemma_member_insert_properties(s: Seq<Seq<char>>, v: Seq<char>)
    ensures
        forall|w: Seq<char>|
            #[trigger] member_insert(s, v).contains(w) <==> (s.contains(w) || w == v),
        s.no_duplicates() ==> member_insert(s, v).no_duplicates(),
        s.contains(v) ==> member_insert(s, v) == s,
{
    assert forall|w: Seq<char>|
        #[trigger] member_insert(s, v).contains(w) <==> (s.contains(w) || w == v) by {
        if member_insert(s, v).contains(w) {
            if !s.contains(v) {
                let k = choose|k: int| 0 <= k < s.push(v).len() && s.push(v)[k] == w;
                if k < s.len() {
                    assert(s[k] == w);
                }
            }
        }
        if s.contains(w) {
            if !s.contains(v) {
                let k = choose|k: int| 0 <= k < s.len() && s[k] == w;
                assert(s.push(v)[k] == w);
            }
        }
        if w == v && !s.contains(v) {
            assert(s.push(v)[s.len() as int] == v);
        }
    }
    if s.no_duplicates() && !s.contains(v) {
        assert forall|i: int, j: int|
            0 <= i < member_insert(s, v).len() && 0 <= j < member_insert(s, v).len() && i != j
            implies member_insert(s, v)[i] != member_insert(s, v)[j] by {
            if i < s.len() && j < s.len() {
            } else if i < s.len() {
                assert(s[i] == s.push(v)[i]);
            } else if j < s.len() {
                assert(s[j] == s.push(v)[j]);
            }
        }
    }
}

/// Membership after a set-style removal, preservation of set-ness, and the
/// fact that removing an absent value changes nothing.
pub proof fn lemma_member_remove_properties(s: Seq<Seq<char>>, v: Seq<char>)
    ensures
        forall|w: Seq<char>|
            #[trigger] member_remove(s, v).contains(w) <==> (s.contains(w) && w != v),
        s.no_duplicates() ==> member_remove(s, v).no_duplicates(),
        !s.contains(v) ==> member_remove(s, v) == s,
    decreases s.len(),
{
    if s.len() == 0 {
        assert forall|w: Seq<char>|
            #[trigger] member_remove(s, v).contains(w) <==> (s.contains(w) && w != v) by {
            assert(!member_remove(s, v).contains(w));
            assert(!s.contains(w));
        }
        assert(member_remove(s, v) =~= s);
    } else {
        let head = s.drop_last();
        let last = s.last();
        let rest = member_remove(head, v);
        lemma_member_remove_properties(head, v);
        assert forall|w: Seq<char>|
            #[trigger] member_remove(s, v).contains(w) <==> (s.contains(w) && w != v) by {
            lemma_contains_split(s, w);
            if last != v {
                lemma_contains_split_push(rest, last, w);
            }
        }
        if s.no_duplicates() {
            assert(head.no_duplicates()) by {
                assert(forall|i: int| 0 <= i < head.len() ==> head[i] == s[i]);
            }
            if last != v {
                assert(!head.contains(last)) by {
                    if head.contains(last) {
                        let k = choose|k: int| 0 <= k < head.len() && head[k] == last;
                        assert(s[k] == s[s.len() - 1]);
                    }
                }
                assert(!rest.contains(last));
                assert forall|i: int, j: int|
                    0 <= i < member_remove(s, v).len() && 0 <= j < member_remove(s, v).len() && i
                    != j implies member_remove(s, v)[i] != member_remove(s, v)[j] by {
                    if i < rest.len() && j < rest.len() {
                    } else if i < rest.len() {
                        assert(rest[i] == rest.push(last)[i]);
                    } else if j < rest.len() {
                        assert(rest[j] == rest.push(last)[j]);
                    }
                }
            }
        }
        if !s.contains(v) {
            assert(!head.contains(v)) by {
                if head.contains(v) {
                    let k = choose|k: int| 0 <= k < head.len() && head[k] == v;
                    assert(s[k] == v);
                }
            }
            assert(last != v) by {
                assert(s[s.len() - 1] == last);
            }
            assert(member_remove(s, v) =~= s);
        }
    }
}

/// A sequence holds a value iff its last element is that value or the rest
/// of it holds the value.
proof fn lemma_contains_split(s: Seq<Seq<char>>, w: Seq<char>)
    requires
        s.len() > 0,
    ensures
        s.contains(w) <==> (s.drop_last().contains(w) || s.last() == w),
{
    if s.contains(w) {
        let k = choose|k: int| 0 <= k < s.len() && s[k] == w;
        if k < s.len() - 1 {
            assert(s.drop_last()[k] == w);
        }
    }
    if s.drop_last().contains(w) {
        let k = choose|k: int| 0 <= k < s.drop_last().len() && s.drop_last()[k] == w;
        assert(s[k] == w);
    }
    if s.last() == w {
        assert(s[s.len() - 1] == w);
    }
}

/// Same splitting fact, phrased for a pushed element.
proof fn lemma_contains_split_push(s: Seq<Seq<char>>, x: Seq<char>, w: Seq<char>)
    ensures
        s.push(x).contains(w) <==> (s.contains(w) || x == w),
{
    assert(s.push(x).len() > 0);
    lemma_contains_split(s.push(x), w);
    assert(s.push(x).drop_last() =~= s);
    assert(s.push(x).last() == x);
}

/// Whether `v` (seen through its element views) holds the string `x`.
fn contains_string(v: &Vec<String>, x: &String) -> (found: bool)
    ensures
        found == v.deep_view().contains(x@),
{
    let n: usize = v.len();
    let mut k: usize = 0;
    while k < n
        invariant
            n == v@.len(),
            k <= n,
            forall|t: int| 0 <= t < k ==> v.deep_view()[t] != x@,
        decreases n - k,
    {
        if v[k] == *x {
            proof {
                assert(v.deep_view()[k as int] == x@);
            }
            return true;
        }
        k += 1;
    }
    false
}

/// Inserts `voter` into the duplicate-free set `s` unless already present;
/// reports whether the set actually changed.
fn set_insert_voter(s: &mut Vec<String>, voter: &String) -> (added: bool)
    ensures
        added == !old(s).deep_view().contains(voter@),
        final(s).deep_view() == member_insert(old(s).deep_view(), voter@),
{
    if contains_string(s, voter) {
        false
    } else {
        s.push(voter.clone());
        proof {
            assert(s.deep_view() =~= old(s).deep_view().push(voter@));
        }
        true
    }
}

/// Removes every occurrence of `voter` from `s`, keeping the order of the
/// rest; reports whether the set actually changed.
fn set_remove_voter(s: &mut Vec<String>, voter: &String) -> (removed: bool)
    ensures
        removed == old(s).deep_view().contains(voter@),
        final(s).deep_view() == member_remove(old(s).deep_view(), voter@),
{
    let n: usize = s.len();
    let mut out: Vec<String> = Vec::new();
    let mut removed = false;
    let mut k: usize = 0;
    while k < n
        invariant
            n == s@.len(),
            k <= n,
            *s == *old(s),
            out.deep_view() == member_remove(s.deep_view().take(k as int), voter@),
            removed == s.deep_view().take(k as int).contains(voter@),
        decreases n - k,
    {
        let ghost prefix = s.deep_view().take(k as int);
        let ghost prefix1 = s.deep_view().take(k as int + 1);
        proof {
            assert(prefix1.drop_last() =~= prefix);
            assert(prefix1.last() == s.deep_view()[k as int]);
            lemma_contains_split(prefix1, voter@);
        }
        if s[k] == *voter {
            removed = true;
            proof {
                assert(s.deep_view()[k as int] == voter@);
            }
        } else {
            out.push(s[k].clone());
            proof {
                assert(s.deep_view()[k as int] != voter@);
                assert(out.deep_view() =~= member_remove(prefix, voter@).push(
                    s.deep_view()[k as int],
                ));
            }
        }
        k += 1;
    }
    proof {
        assert(s.deep_view().take(n as int) =~= s.deep_view());
    }
    *s = out;
    removed
}

impl Election {
    /// The candidate names as a sequence of character sequences.
    pub open spec fn cands(self) -> Seq<Seq<char>> {
        self.candidates.deep_view()
    }

    /// The supporter sets as sequences of voter-identity views.
    pub open spec fn supps(self) -> Seq<Seq<Seq<char>>> {
        self.supporters.deep_view()
    }

    /// Structural invariant: the three per-candidate vectors are aligned,
    /// candidate names are pairwise distinct, and each supporter set is
    /// duplicate-free.
    pub open spec fn wf(self) -> bool {
        &&& self.supporters@.len() == self.candidates@.len()
        &&& self.supporter_keys@.len() == self.candidates@.len()
        &&& self.cands().no_duplicates()
        &&& forall|i: int|
            0 <= i < self.supps().len() ==> (#[trigger] self.supps()[i]).no_duplicates()
    }

    /// Builds an election with id `election_id`: deduplicates `candidates`
    /// keeping first occurrences in order, gives every surviving candidate an
    /// empty supporter set, and derives each piece of state's namespace key.
    pub fn new(candidates: &Vec<String>, multiple: bool, election_id: u128, name: &str) -> (e:
        Election)
        ensures
            e.wf(),
            e.name@ == name@,
            e.multiple == multiple,
            e.cands() == dedup(candidates.deep_view()),
            forall|i: int| 0 <= i < e.supps().len() ==> e.supps()[i] == Seq::<Seq<char>>::empty(),
            forall|i: int|
                0 <= i < e.supporter_keys@.len() ==> e.supporter_keys.deep_view()[i]
                    == keys::sha256_of(keys::supporter_set_preimage(election_id, i as u64)),
            e.map_key@ == keys::sha256_of(keys::candidate_map_preimage(election_id)),
            e.list_key@ == keys::sha256_of(keys::candidate_vec_preimage(election_id)),
    {
        let mut e = Election {
            name: name.to_owned(),
            multiple,
            candidates: Vec::new(),
            supporters: Vec::new(),
            supporter_keys: Vec::new(),
            map_key: keys::candidate_map_key(election_id),
            list_key: keys::candidate_vec_key(election_id),
        };
        proof {
            assert(e.cands() =~= dedup(candidates.deep_view().take(0)));
        }
        let n: usize = candidates.len();
        let mut k: usize = 0;
        while k < n
            invariant
                k <= n,
                n == candidates@.len(),
                e.name@ == name@,
                e.multiple == multiple,
                e.map_key@ == keys::sha256_of(keys::candidate_map_preimage(election_id)),
                e.list_key@ == keys::sha256_of(keys::candidate_vec_preimage(election_id)),
                e.cands() == dedup(candidates.deep_view().take(k as int)),
                e.supporters@.len() == e.candidates@.len(),
                e.supporter_keys@.len() == e.candidates@.len(),
                e.cands().no_duplicates(),
                forall|i: int|
                    0 <= i < e.supps().len() ==> e.supps()[i] == Seq::<Seq<char>>::empty(),
                forall|i: int|
                    0 <= i < e.supporter_keys@.len() ==> e.supporter_keys.deep_view()[i]
                        == keys::sha256_of(keys::supporter_set_preimage(election_id, i as u64)),
            decreases n - k,
        {
            let ghost prefix = candidates.deep_view().take(k as int);
            let ghost prefix1 = candidates.deep_view().take(k as int + 1);
            proof {
                assert(prefix1.drop_last() =~= prefix);
                assert(prefix1.last() == candidates.deep_view()[k as int]);
                lemma_member_insert_properties(dedup(prefix), candidates.deep_view()[k as int]);
            }
            let candidate = &candidates[k];
            proof {
                assert(candidate@ == candidates.deep_view()[k as int]);
            }
            if !contains_string(&e.candidates, candidate) {
                let ghost cands_before = e.cands();
                let ghost supps_before = e.supps();
                let ghost keys_before = e.supporter_keys.deep_view();
                let key = keys::supporter_set_key(election_id, e.candidates.len() as u64);
                e.supporter_keys.push(key);
                e.supporters.push(Vec::new());
                e.candidates.push(candidate.clone());
                proof {
                    assert(e.cands() =~= cands_before.push(candidates.deep_view()[k as int]));
                    assert(e.supps()[e.supps().len() - 1] =~= Seq::<Seq<char>>::empty());
                    assert(e.supps() =~= supps_before.push(Seq::<Seq<char>>::empty()));
                    assert(e.supporter_keys.deep_view()[keys_before.len() as int] =~= key@);
                    assert(e.supporter_keys.deep_view() =~= keys_before.push(key@));
                    assert forall|i: int|
                        0 <= i < e.supps().len() implies e.supps()[i]
                        == Seq::<Seq<char>>::empty() by {
                        if i < supps_before.len() {
                            assert(supps_before[i] == Seq::<Seq<char>>::empty());
                        }
                    }
                    assert forall|i: int|
                        0 <= i < e.supporter_keys@.len() implies e.supporter_keys.deep_view()[i]
                        == keys::sha256_of(keys::supporter_set_preimage(election_id, i as u64)) by {
                        if i < keys_before.len() {
                            assert(keys_before[i] == keys::sha256_of(
                                keys::supporter_set_preimage(election_id, i as u64),
                            ));
                        }
                    }
                }
            }
            k += 1;
        }
        proof {
            assert(candidates.deep_view().take(n as int) =~= candidates.deep_view());
        }
        e
    }

    /// Casts a complete ballot.  An inadmissible ballot (see
    /// [`ballot_allowed`]) is a silent no-op.  A valid one replaces the
    /// voter's entire selection: the voter is inserted into the supporter set
    /// of every candidate the ballot names and removed from every other.
    /// Returns whether any supporter set actually changed.
    pub fn vote(&mut self, options: &Vec<String>, voter: &String) -> (changed: bool)
        requires
            old(self).wf(),
        ensures
            final(self).wf(),
            final(self).name == old(self).name,
            final(self).multiple == old(self).multiple,
            final(self).candidates == old(self).candidates,
            final(self).supporter_keys == old(self).supporter_keys,
            final(self).map_key == old(self).map_key,
            final(self).list_key == old(self).list_key,
            !ballot_allowed(old(self).multiple, options@.len()) ==> *final(self) == *old(self)
                && changed == false,
            ballot_allowed(old(self).multiple, options@.len()) ==> final(self).supps()
                == supporters_after_vote(
                old(self).cands(),
                old(self).supps(),
                options.deep_view(),
                voter@,
            ) && changed == vote_changes(
                old(self).cands(),
                old(self).supps(),
                options.deep_view(),
                voter@,
            ),
    {
        if !((self.multiple && options.len() >= 1) || (!self.multiple && options.len() == 1)) {
            return false;
        }
        let ghost cands0 = self.cands();
        let ghost supps0 = self.supps();
        let ghost opts = options.deep_view();
        let mut changed = false;
        let n: usize = self.candidates.len();
        let mut idx: usize = 0;
        while idx < n
            invariant
                idx <= n,
                n == self.candidates@.len(),
                self.name == old(self).name,
                self.multiple == old(self).multiple,
                self.candidates == old(self).candidates,
                self.supporter_keys == old(self).supporter_keys,
                self.map_key == old(self).map_key,
                self.list_key == old(self).list_key,
                cands0 == old(self).cands(),
                supps0 == old(self).supps(),
                opts == options.deep_view(),
                self.supporters@.len() == n,
                supps0.len() == n,
                forall|t: int|
                    0 <= t < idx ==> #[trigger] self.supps()[t] == (if opts.contains(cands0[t]) {
                        member_insert(supps0[t], voter@)
                    } else {
                        member_remove(supps0[t], voter@)
                    }),
                forall|t: int| idx <= t < n ==> #[trigger] self.supps()[t] == supps0[t],
                forall|t: int|
                    0 <= t < n ==> (#[trigger] self.supps()[t]).no_duplicates(),
                changed == exists|t: int|
                    0 <= t < idx && (#[trigger] opts.contains(cands0[t])) != supps0[t].contains(
                        voter@,
                    ),
            decreases n - idx,
        {
            proof {
                lemma_member_insert_properties(supps0[idx as int], voter@);
                lemma_member_remove_properties(supps0[idx as int], voter@);
                assert(self.candidates.deep_view()[idx as int] == cands0[idx as int]);
            }
            let in_ballot = contains_string(options, &self.candidates[idx]);
            let ghost svec_prev = self.supporters@;
            let ghost supps_prev = self.supps();
            let flipped: bool;
            if in_ballot {
                flipped = set_insert_voter(&mut self.supporters[idx], voter);
            } else {
                flipped = set_remove_voter(&mut self.supporters[idx], voter);
            }
            let changed1 = changed || flipped;
            proof {
                assert(supps_prev[idx as int] == supps0[idx as int]);
                assert(svec_prev[idx as int].deep_view() == supps0[idx as int]);
                assert forall|t: int|
                    0 <= t < n && t != idx as int implies #[trigger] self.supps()[t]
                    == supps_prev[t] by {
                    assert(self.supporters@[t] == svec_prev[t]);
                }
                assert(self.supps()[idx as int] == (if opts.contains(cands0[idx as int]) {
                    member_insert(supps0[idx as int], voter@)
                } else {
                    member_remove(supps0[idx as int], voter@)
                }));
                assert(flipped == (opts.contains(cands0[idx as int]) != supps0[idx as int].contains(
                    voter@,
                )));
                assert(changed1 == exists|t: int|
                    0 <= t < idx + 1 && (#[trigger] opts.contains(cands0[t])) != supps0[t].contains(
                        voter@,
                    )) by {
                    if changed1 {
                        if changed {
                            let t = choose|t: int|
                                0 <= t < idx && (#[trigger] opts.contains(cands0[t]))
                                    != supps0[t].contains(voter@);
                            assert(0 <= t < idx + 1 && opts.contains(cands0[t])
                                != supps0[t].contains(voter@));
                        } else {
                            assert(opts.contains(cands0[idx as int]) != supps0[idx as int].contains(
                                voter@,
                            ));
                        }
                    } else {
                        assert forall|t: int| 0 <= t < idx + 1 implies !((#[trigger] opts.contains(
                            cands0[t],
                        )) != supps0[t].contains(voter@)) by {
                            if t == idx {
                                assert(!flipped);
                            }
                        }
                    }
                }
            }
            changed = changed1;
            idx += 1;
        }
        proof {
            assert(self.supps() =~= supporters_after_vote(cands0, supps0, opts, voter@));
        }
        changed
    }

    /// Withdraws the voter's support from exactly the candidates the ballot
    /// names; unknown names are ignored and every other candidate's set is
    /// untouched.  Returns whether any supporter set actually changed.
    pub fn revoke_vote(&mut self, options: &Vec<String>, voter: &String) -> (changed: bool)
        requires
            old(self).wf(),
        ensures
            final(self).wf(),
            final(self).name == old(self).name,
            final(self).multiple == old(self).multiple,
            final(self).candidates == old(self).candidates,
            final(self).supporter_keys == old(self).supporter_keys,
            final(self).map_key == old(self).map_key,
            final(self).list_key == old(self).list_key,
            final(self).supps() == supporters_after_revoke(
                old(self).cands(),
                old(self).supps(),
                options.deep_view(),
                voter@,
            ),
            changed == revoke_changes(
                old(self).cands(),
                old(self).supps(),
                options.deep_view(),
                voter@,
            ),
    {
        let ghost cands0 = self.cands();
        let ghost supps0 = self.supps();
        let ghost opts = options.deep_view();
        let mut changed = false;
        let n: usize = self.candidates.len();
        let mut idx: usize = 0;
        while idx < n
            invariant
                idx <= n,
                n == self.candidates@.len(),
                self.name == old(self).name,
                self.multiple == old(self).multiple,
                self.candidates == old(self).candidates,
                self.supporter_keys == old(self).supporter_keys,
                self.map_key == old(self).map_key,
                self.list_key == old(self).list_key,
                cands0 == old(self).cands(),
                supps0 == old(self).supps(),
                opts == options.deep_view(),
                self.supporters@.len() == n,
                supps0.len() == n,
                forall|t: int|
                    0 <= t < idx ==> #[trigger] self.supps()[t] == (if opts.contains(cands0[t]) {
                        member_remove(supps0[t], voter@)
                    } else {
                        supps0[t]
                    }),
                forall|t: int| idx <= t < n ==> #[trigger] self.supps()[t] == supps0[t],
                forall|t: int|
                    0 <= t < n ==> (#[trigger] self.supps()[t]).no_duplicates(),
                changed == exists|t: int|
                    0 <= t < idx && (#[trigger] opts.contains(cands0[t])) && supps0[t].contains(
                        voter@,
                    ),
            decreases n - idx,
        {
            proof {
                lemma_member_remove_properties(supps0[idx as int], voter@);
                assert(self.candidates.deep_view()[idx as int] == cands0[idx as int]);
            }
            let in_ballot = contains_string(options, &self.candidates[idx]);
            let ghost svec_prev = self.supporters@;
            let ghost supps_prev = self.supps();
            let mut flipped = false;
            if in_ballot {
                flipped = set_remove_voter(&mut self.supporters[idx], voter);
            }
            let changed1 = changed || flipped;
            proof {
                assert(supps_prev[idx as int] == supps0[idx as int]);
                assert(svec_prev[idx as int].deep_view() == supps0[idx as int]);
                assert forall|t: int|
                    0 <= t < n && t != idx as int implies #[trigger] self.supps()[t]
                    == supps_prev[t] by {
                    assert(self.supporters@[t] == svec_prev[t]);
                }
                assert(self.supps()[idx as int] == (if opts.contains(cands0[idx as int]) {
                    member_remove(supps0[idx as int], voter@)
                } else {
                    supps0[idx as int]
                }));
                assert(flipped == (opts.contains(cands0[idx as int]) && supps0[idx as int].contains(
                    voter@,
                )));
                assert(changed1 == exists|t: int|
                    0 <= t < idx + 1 && (#[trigger] opts.contains(cands0[t])) && supps0[t].contains(
                        voter@,
                    )) by {
                    if changed1 {
                        if changed {
                            let t = choose|t: int|
                                0 <= t < idx && (#[trigger] opts.contains(cands0[t]))
                                    && supps0[t].contains(voter@);
                            assert(0 <= t < idx + 1 && opts.contains(cands0[t])
                                && supps0[t].contains(voter@));
                        } else {
                            assert(opts.contains(cands0[idx as int]) && supps0[idx as int].contains(
                                voter@,
                            ));
                        }
                    } else {
                        assert forall|t: int| 0 <= t < idx + 1 implies !((#[trigger] opts.contains(
                            cands0[t],
                        )) && supps0[t].contains(voter@)) by {
                            if t == idx {
                                assert(!flipped);
                            }
                        }
                    }
                }
            }
            changed = changed1;
            idx += 1;
        }
        proof {
            assert(self.supps() =~= supporters_after_revoke(cands0, supps0, opts, voter@));
        }
        changed
    }

    /// Reads, in creation order, each candidate's name and current supporter
    /// count.
    pub fn get_candidates(&self) -> (r: Vec<Candidate>)
        requires
            self.wf(),
        ensures
            r@.len() == self.cands().len(),
            forall|i: int|
                0 <= i < r@.len() ==> (#[trigger] r@[i]).name@ == self.cands()[i] && r@[i].supported
                    == self.supps()[i].len() as u64,
    {
        let n: usize = self.candidates.len();
        let mut r: Vec<Candidate> = Vec::with_capacity(n);
        let mut idx: usize = 0;
        while idx < n
            invariant
                idx <= n,
                n == self.candidates@.len(),
                self.supporters@.len() == n,
                r@.len() == idx,
                forall|i: int|
                    0 <= i < idx ==> (#[trigger] r@[i]).name@ == self.cands()[i] && r@[i].supported
                        == self.supps()[i].len() as u64,
            decreases n - idx,
        {
            let name = self.candidates[idx].clone();
            let supported = self.supporters[idx].len() as u64;
            proof {
                assert(self.supps()[idx as int].len() == self.supporters@[idx as int]@.len());
            }
            r.push(Candidate { name, supported });
            idx += 1;
        }
        r
    }
}

/// Law: deduplication keeps exactly the distinct names — the result is
/// duplicate-free, holds the same set of names as the input, and its length
/// is the number of distinct names.  That the surviving occurrences keep
/// their first-seen order is [`lemma_dedup_first_seen_order`].
pub proof fn lemma_dedup_distinct(s: Seq<Seq<char>>)
    ensures
        dedup(s).no_duplicates(),
        forall|w: Seq<char>| #[trigger] dedup(s).contains(w) <==> s.contains(w),
        dedup(s).to_set() == s.to_set(),
        dedup(s).len() == s.to_set().len(),
    decreases s.len(),
{
    if s.len() == 0 {
        assert forall|w: Seq<char>| #[trigger] dedup(s).contains(w) <==> s.contains(w) by {
            assert(!dedup(s).contains(w));
            assert(!s.contains(w));
        }
    } else {
        let head = s.drop_last();
        lemma_dedup_distinct(head);
        lemma_member_insert_properties(dedup(head), s.last());
        assert(dedup(s) == member_insert(dedup(head), s.last()));
        assert forall|w: Seq<char>| #[trigger] dedup(s).contains(w) <==> s.contains(w) by {
            lemma_contains_split(s, w);
            assert(member_insert(dedup(head), s.last()).contains(w) <==> (dedup(head).contains(w)
                || w == s.last()));
            assert(dedup(head).contains(w) <==> head.contains(w));
        }
    }
    assert forall|w: Seq<char>| #[trigger] s.to_set().contains(w) implies dedup(s).to_set().contains(
        w,
    ) by {
        assert(s.contains(w));
    }
    assert forall|w: Seq<char>| #[trigger] dedup(s).to_set().contains(w) implies s.to_set().contains(
        w,
    ) by {
        assert(dedup(s).contains(w));
    }
    assert(dedup(s).to_set() =~= s.to_set());
    dedup(s).unique_seq_to_set();
}

/// The position of the first occurrence of `v` in `s` (meaningful only when
/// `s` holds `v`).
pub open spec fn first_index(s: Seq<Seq<char>>, v: Seq<char>) -> int
    decreases s.len(),
{
    if s.len() == 0 {
        0
    } else if s[0] == v {
        0
    } else {
        1 + first_index(s.drop_first(), v)
    }
}

/// On a sequence that holds the value, [`first_index`] points at its
/// earliest occurrence.
proof fn lemma_first_index_props(s: Seq<Seq<char>>, x: Seq<char>)
    requires
        s.contains(x),
    ensures
        0 <= first_index(s, x) < s.len(),
        s[first_index(s, x)] == x,
        forall|p: int| 0 <= p < first_index(s, x) ==> s[p] != x,
    decreases s.len(),
{
    if s[0] == x {
    } else {
        let tail = s.drop_first();
        assert(tail.contains(x)) by {
            let k = choose|k: int| 0 <= k < s.len() && s[k] == x;
            assert(tail[k - 1] == x);
        }
        lemma_first_index_props(tail, x);
        assert forall|p: int| 0 <= p < first_index(s, x) implies s[p] != x by {
            if p > 0 {
                assert(tail[p - 1] == s[p]);
                assert(tail[p - 1] != x);
            }
        }
    }
}

/// How [`first_index`] behaves when one element is appended.
proof fn lemma_first_index_push(s: Seq<Seq<char>>, y: Seq<char>, x: Seq<char>)
    ensures
        s.contains(x) ==> first_index(s.push(y), x) == first_index(s, x),
        !s.contains(x) && x == y ==> first_index(s.push(y), x) == s.len(),
    decreases s.len(),
{
    if s.len() == 0 {
        if x == y {
            assert(s.push(y)[0] == y);
        }
    } else {
        let tail = s.drop_first();
        assert(s.push(y).drop_first() =~= tail.push(y));
        assert(s.push(y)[0] == s[0]);
        if s[0] == x {
            assert(s.contains(x)) by {
                assert(s[0] == x);
            }
        } else {
            lemma_first_index_push(tail, y, x);
            assert(s.contains(x) <==> tail.contains(x)) by {
                if s.contains(x) {
                    let k = choose|k: int| 0 <= k < s.len() && s[k] == x;
                    assert(k != 0);
                    assert(tail[k - 1] == x);
                }
                if tail.contains(x) {
                    let k = choose|k: int| 0 <= k < tail.len() && tail[k] == x;
                    assert(s[k + 1] == x);
                }
            }
        }
    }
}

/// Law: deduplication keeps the surviving occurrences in first-seen order —
/// of any two entries of the deduplicated list, the earlier one first occurs
/// earlier in the input.
pub proof fn lemma_dedup_first_seen_order(s: Seq<Seq<char>>)
    ensures
        forall|i: int, j: int|
            0 <= i < j < dedup(s).len() ==> first_index(s, dedup(s)[i]) < first_index(
                s,
                dedup(s)[j],
            ),
    decreases s.len(),
{
    if s.len() == 0 {
    } else {
        let head = s.drop_last();
        let last = s.last();
        let d = dedup(head);
        lemma_dedup_first_seen_order(head);
        lemma_dedup_distinct(head);
        assert(s =~= head.push(last));
        assert forall|i: int, j: int|
            0 <= i < j < dedup(s).len() implies first_index(s, dedup(s)[i]) < first_index(
            s,
            dedup(s)[j],
        ) by {
            let xi = dedup(s)[i];
            let xj = dedup(s)[j];
            if d.contains(last) {
                assert(dedup(s) == d);
                assert(d.contains(xi)) by {
                    assert(d[i] == xi);
                }
                assert(d.contains(xj)) by {
                    assert(d[j] == xj);
                }
                assert(head.contains(xi));
                assert(head.contains(xj));
                lemma_first_index_push(head, last, xi);
                lemma_first_index_push(head, last, xj);
            } else {
                assert(dedup(s) == d.push(last));
                if j < d.len() {
                    assert(d[i] == xi && d[j] == xj);
                    assert(d.contains(xi)) by {
                        assert(d[i] == xi);
                    }
                    assert(d.contains(xj)) by {
                        assert(d[j] == xj);
                    }
                    assert(head.contains(xi));
                    assert(head.contains(xj));
                    lemma_first_index_push(head, last, xi);
                    lemma_first_index_push(head, last, xj);
                } else {
                    assert(xj == last);
                    assert(!head.contains(last));
                    lemma_first_index_push(head, last, xj);
                    assert(first_index(s, xj) == head.len());
                    assert(d.contains(xi)) by {
                        assert(d[i] == xi);
                    }
                    assert(head.contains(xi));
                    lemma_first_index_push(head, last, xi);
                    lemma_first_index_props(head, xi);
                }
            }
        }
    }
}

/// Law: on a single-choice ballot naming `option`, a vote leaves the voter
/// supporting exactly the candidates called `option` and no other, whatever
/// the supporter sets held before; every other voter's membership is
/// untouched everywhere.
pub proof fn lemma_vote_single_choice(
    cands: Seq<Seq<char>>,
    supps: Seq<Seq<Seq<char>>>,
    option: Seq<char>,
    voter: Seq<char>,
)
    requires
        supps.len() == cands.len(),
    ensures
        forall|i: int|
            0 <= i < cands.len() ==> ((#[trigger] supporters_after_vote(
                cands,
                supps,
                seq![option],
                voter,
            )[i]).contains(voter) <==> cands[i] == option),
        forall|i: int, w: Seq<char>|
            0 <= i < cands.len() && w != voter ==> ((#[trigger] supporters_after_vote(
                cands,
                supps,
                seq![option],
                voter,
            )[i].contains(w)) <==> supps[i].contains(w)),
{
    assert forall|i: int| 0 <= i < cands.len() implies ((#[trigger] supporters_after_vote(
        cands,
        supps,
        seq![option],
        voter,
    )[i]).contains(voter) <==> cands[i] == option) by {
        lemma_member_insert_properties(supps[i], voter);
        lemma_member_remove_properties(supps[i], voter);
        lemma_singleton_contains(option, cands[i]);
    }
    assert forall|i: int, w: Seq<char>|
        0 <= i < cands.len() && w != voter implies ((#[trigger] supporters_after_vote(
        cands,
        supps,
        seq![option],
        voter,
    )[i].contains(w)) <==> supps[i].contains(w)) by {
        lemma_member_insert_properties(supps[i], voter);
        lemma_member_remove_properties(supps[i], voter);
    }
}

/// A one-element sequence holds exactly its element.
proof fn lemma_singleton_contains(option: Seq<char>, w: Seq<char>)
    ensures
        seq![option].contains(w) <==> w == option,
{
    if seq![option].contains(w) {
        let k = choose|k: int| 0 <= k < seq![option].len() && seq![option][k] == w;
        assert(k == 0);
    }
    if w == option {
        assert(seq![option][0] == w);
    }
}

/// Law: a valid vote replaces the voter's whole selection — afterwards the
/// voter supports exactly the candidates the ballot names — and an immediate
/// repeat of the same ballot changes no supporter set and reports no change.
pub proof fn lemma_vote_replaces_selection(
    cands: Seq<Seq<char>>,
    supps: Seq<Seq<Seq<char>>>,
    options: Seq<Seq<char>>,
    voter: Seq<char>,
)
    requires
        supps.len() == cands.len(),
    ensures
        forall|i: int|
            0 <= i < cands.len() ==> ((#[trigger] supporters_after_vote(
                cands,
                supps,
                options,
                voter,
            )[i]).contains(voter) <==> options.contains(cands[i])),
        !vote_changes(cands, supporters_after_vote(cands, supps, options, voter), options, voter),
        supporters_after_vote(
            cands,
            supporters_after_vote(cands, supps, options, voter),
            options,
            voter,
        ) == supporters_after_vote(cands, supps, options, voter),
{
    let post = supporters_after_vote(cands, supps, options, voter);
    assert forall|i: int| 0 <= i < cands.len() implies ((#[trigger] post[i]).contains(voter)
        <==> options.contains(cands[i])) by {
        lemma_member_insert_properties(supps[i], voter);
        lemma_member_remove_properties(supps[i], voter);
    }
    assert forall|i: int| 0 <= i < cands.len() implies #[trigger] supporters_after_vote(
        cands,
        post,
        options,
        voter,
    )[i] == post[i] by {
        lemma_member_insert_properties(supps[i], voter);
        lemma_member_remove_properties(supps[i], voter);
        lemma_member_remove_properties(post[i], voter);
    }
    assert(supporters_after_vote(cands, post, options, voter) =~= post);
}

/// Law: revocation is scoped — the voter is gone from every candidate the
/// ballot names, every candidate it does not name keeps its supporter set
/// exactly, and other voters' memberships never move.
pub proof fn lemma_revoke_scoped(
    cands: Seq<Seq<char>>,
    supps: Seq<Seq<Seq<char>>>,
    options: Seq<Seq<char>>,
    voter: Seq<char>,
)
    requires
        supps.len() == cands.len(),
    ensures
        forall|i: int|
            0 <= i < cands.len() && !options.contains(cands[i])
                ==> #[trigger] supporters_after_revoke(cands, supps, options, voter)[i]
                == supps[i],
        forall|i: int|
            0 <= i < cands.len() && options.contains(cands[i]) ==> !(
            #[trigger] supporters_after_revoke(cands, supps, options, voter)[i]).contains(voter),
        forall|i: int, w: Seq<char>|
            0 <= i < cands.len() && w != voter ==> ((#[trigger] supporters_after_revoke(
                cands,
                supps,
                options,
                voter,
            )[i].contains(w)) <==> supps[i].contains(w)),
{
    assert forall|i: int|
        0 <= i < cands.len() && options.contains(cands[i]) implies !(
    #[trigger] supporters_after_revoke(cands, supps, options, voter)[i]).contains(voter) by {
        lemma_member_remove_properties(supps[i], voter);
    }
    assert forall|i: int, w: Seq<char>|
        0 <= i < cands.len() && w != voter implies ((#[trigger] supporters_after_revoke(
        cands,
        supps,
        options,
        voter,
    )[i].contains(w)) <==> supps[i].contains(w)) by {
        lemma_member_remove_properties(supps[i], voter);
    }
}

} // verus!
