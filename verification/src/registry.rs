//! The registry owning every election: it allocates monotonically increasing
//! election ids, keeps a per-creator index of the elections each identity
//! created, and delegates voting and revocation to the election itself.
//! Every lookup of an unknown election id or creator is a silent no-op that
//! returns an empty result — nothing in here ever fails.

use vstd::prelude::*;

verus! {

use crate::election::{ballot_allowed, dedup, supporters_after_revoke, supporters_after_vote};
use crate::election::{Candidate, Election};
use crate::keys;

/// One election's display name and id, for listing.
pub struct ElectionInfo {
    pub name: String,
    pub id: u128,
}

/// One creator's entry in the per-creator index: their identity, the
/// namespace key of their election list, and the ids they created, oldest
/// first.
pub struct UserElections {
    pub user: String,
    pub key: Vec<u8>,
    pub ids: Vec<u128>,
}

/// The index of the entry for `user`, or -1 if there is none.
pub open spec fn find_user(entries: Seq<UserElections>, user: Seq<char>) -> int
    decreases entries.len(),
{
    if entries.len() == 0 {
        -1
    } else if entries[0].user@ == user {
        0
    } else {
        let r = find_user(entries.drop_first(), user);
        if r == -1 {
            -1
        } else {
            r + 1
        }
    }
}

/// What [`find_user`] returns: -1 exactly when no entry matches, else the
/// unique matching index.
pub proof fn lemma_find_user(entries: Seq<UserElections>, user: Seq<char>)
    ensures
        find_user(entries, user) == -1 ==> forall|k: int|
            0 <= k < entries.len() ==> (#[trigger] entries[k]).user@ != user,
        find_user(entries, user) != -1 ==> 0 <= find_user(entries, user) < entries.len()
            && entries[find_user(entries, user)].user@ == user && forall|k: int|
            0 <= k < find_user(entries, user) ==> (#[trigger] entries[k]).user@ != user,
    decreases entries.len(),
{
    if entries.len() == 0 {
    } else if entries[0].user@ == user {
    } else {
        let tail = entries.drop_first();
        lemma_find_user(tail, user);
        let r = find_user(tail, user);
        if r == -1 {
            assert forall|k: int| 0 <= k < entries.len() implies (#[trigger] entries[k]).user@
                != user by {
                if k > 0 {
                    assert(tail[k - 1] == entries[k]);
                    assert(tail[k - 1].user@ != user);
                }
            }
        } else {
            assert(entries[r + 1] == tail[r]);
            assert forall|k: int| 0 <= k < r + 1 implies (#[trigger] entries[k]).user@ != user by {
                if k > 0 {
                    assert(tail[k - 1] == entries[k]);
                    assert(tail[k - 1].user@ != user);
                }
            }
        }
    }
}

/// The whole voting service: the id counter, every election keyed by its id,
/// and the per-creator index.
pub struct Voteer {
    /// Source of fresh election ids; equals the number of elections created.
    pub election_count: u128,
    /// Every election, at the index equal to its id.
    pub elections: Vec<Election>,
    /// Per-creator index; at most one entry per creator identity.
    pub user_election: Vec<UserElections>,
}

impl Voteer {
    /// Structural invariant: ids are exactly `0 .. election_count`, every
    /// election is well formed, creators are indexed at most once, and every
    /// indexed id refers to an existing election.
    pub open spec fn wf(self) -> bool {
        &&& self.elections@.len() as int == self.election_count as int
        &&& forall|i: int| 0 <= i < self.elections@.len() ==> (#[trigger] self.elections@[i]).wf()
        &&& forall|i: int, j: int|
            0 <= i < j < self.user_election@.len() ==> self.user_election@[i].user@
                != self.user_election@[j].user@
        &&& forall|i: int, k: int|
            0 <= i < self.user_election@.len() && 0 <= k < self.user_election@[i].ids@.len()
                ==> (#[trigger] self.user_election@[i].ids@[k]) < self.election_count
    }

    /// A fresh registry with no elections.
    pub fn new() -> (v: Voteer)
        ensures
            v.wf(),
            v.election_count == 0,
            v.elections@.len() == 0,
            v.user_election@.len() == 0,
    {
        Voteer { election_count: 0, elections: Vec::new(), user_election: Vec::new() }
    }

    /// Creates an election under the next free id and records it in
    /// `creator`'s index, opening that index on first use.  Always succeeds
    /// and returns the new id.
    pub fn create_election(
        &mut self,
        candidates: &Vec<String>,
        multiple: bool,
        name: &String,
        creator: &String,
    ) -> (id: u128)
        requires
            old(self).wf(),
        ensures
            final(self).wf(),
            id == old(self).election_count,
            final(self).election_count == old(self).election_count + 1,
            final(self).elections@.len() == old(self).elections@.len() + 1,
            forall|i: int|
                0 <= i < old(self).elections@.len()
                    ==> final(self).elections@[i] == old(self).elections@[i],
            ({
                let e = final(self).elections@.last();
                &&& e.wf()
                &&& e.name@ == name@
                &&& e.multiple == multiple
                &&& e.cands() == dedup(candidates.deep_view())
                &&& forall|i: int|
                    0 <= i < e.supps().len() ==> e.supps()[i] == Seq::<Seq<char>>::empty()
                &&& forall|i: int|
                    0 <= i < e.supporter_keys@.len() ==> e.supporter_keys.deep_view()[i]
                        == keys::sha256_of(keys::supporter_set_preimage(id, i as u64))
                &&& e.map_key@ == keys::sha256_of(keys::candidate_map_preimage(id))
                &&& e.list_key@ == keys::sha256_of(keys::candidate_vec_preimage(id))
            }),
            ({
                let j = find_user(old(self).user_election@, creator@);
                if j == -1 {
                    &&& final(self).user_election@.len() == old(self).user_election@.len() + 1
                    &&& forall|k: int|
                        0 <= k < old(self).user_election@.len() ==> final(self).user_election@[k]
                            == old(self).user_election@[k]
                    &&& final(self).user_election@.last().user@ == creator@
                    &&& final(self).user_election@.last().ids@ == seq![id]
                    &&& final(self).user_election@.last().key@ == keys::sha256_of(
                        keys::user_election_set_preimage(creator@),
                    )
                } else {
                    &&& final(self).user_election@.len() == old(self).user_election@.len()
                    &&& forall|k: int|
                        0 <= k < old(self).user_election@.len() && k != j
                            ==> final(self).user_election@[k] == old(self).user_election@[k]
                    &&& final(self).user_election@[j].user == old(self).user_election@[j].user
                    &&& final(self).user_election@[j].key == old(self).user_election@[j].key
                    &&& final(self).user_election@[j].ids@
                        == old(self).user_election@[j].ids@.push(id)
                }
            }),
    {
        let election_id = self.election_count;
        let nelec: usize = self.elections.len();
        proof {
            assert(self.elections@.len() == nelec);
            assert(self.election_count as int == nelec as int);
            assert(self.election_count < u128::MAX);
        }
        self.election_count = election_id + 1;
        let e = Election::new(candidates, multiple, election_id, name.as_str());
        self.elections.push(e);
        let n: usize = self.user_election.len();
        let mut j: usize = n;
        let mut k: usize = 0;
        while k < n
            invariant
                k <= n,
                n == self.user_election@.len(),
                j == n || (j < k && self.user_election@[j as int].user@ == creator@ && forall|t: int|
                    0 <= t < j ==> (#[trigger] self.user_election@[t]).user@ != creator@),
                j == n ==> forall|t: int|
                    0 <= t < k ==> (#[trigger] self.user_election@[t]).user@ != creator@,
            decreases n - k,
        {
            if j == n {
                if self.user_election[k].user == *creator {
                    j = k;
                }
            }
            k += 1;
        }
        proof {
            lemma_find_user(old(self).user_election@, creator@);
            assert(self.user_election@ == old(self).user_election@);
            if j < n {
                let r = find_user(old(self).user_election@, creator@);
                assert(self.user_election@[j as int].user@ == creator@);
                assert(r != -1);
                assert(r == j as int) by {
                    if r < j as int {
                        assert(self.user_election@[r].user@ != creator@);
                    } else if r > j as int {
                        assert(self.user_election@[j as int].user@ != creator@);
                    }
                }
            } else {
                assert(find_user(old(self).user_election@, creator@) == -1) by {
                    let r = find_user(old(self).user_election@, creator@);
                    if r != -1 {
                        assert(self.user_election@[r].user@ != creator@);
                    }
                }
            }
        }
        if j < n {
            let entry = &mut self.user_election[j];
            entry.ids.push(election_id);
        } else {
            let key = keys::user_election_set_key(creator);
            let mut ids: Vec<u128> = Vec::new();
            ids.push(election_id);
            self.user_election.push(UserElections { user: creator.clone(), key, ids });
            proof {
                assert(self.user_election@.last().ids@ =~= seq![election_id]);
            }
        }
        election_id
    }

    /// Casts `voter`'s complete ballot in election `election_id`; unknown
    /// ids and inadmissible ballots are silent no-ops.
    pub fn vote(&mut self, election_id: u128, options: &Vec<String>, voter: &String)
        requires
            old(self).wf(),
        ensures
            final(self).wf(),
            final(self).election_count == old(self).election_count,
            final(self).user_election == old(self).user_election,
            election_id >= old(self).election_count ==> *final(self) == *old(self),
            election_id < old(self).election_count ==> {
                let i = election_id as int;
                &&& final(self).elections@.len() == old(self).elections@.len()
                &&& forall|k: int|
                    0 <= k < old(self).elections@.len() && k != i ==> final(self).elections@[k]
                        == old(self).elections@[k]
                &&& ({
                    let e0 = old(self).elections@[i];
                    let e1 = final(self).elections@[i];
                    &&& e1.name == e0.name
                    &&& e1.multiple == e0.multiple
                    &&& e1.candidates == e0.candidates
                    &&& e1.supporter_keys == e0.supporter_keys
                    &&& e1.map_key == e0.map_key
                    &&& e1.list_key == e0.list_key
                    &&& !ballot_allowed(e0.multiple, options@.len()) ==> e1 == e0
                    &&& ballot_allowed(e0.multiple, options@.len()) ==> e1.supps()
                        == supporters_after_vote(
                        e0.cands(),
                        e0.supps(),
                        options.deep_view(),
                        voter@,
                    )
                })
            },
    {
        if election_id < self.election_count {
            let nelec: usize = self.elections.len();
            proof {
                assert((election_id as int) < (nelec as int));
            }
            let idx = election_id as usize;
            proof {
                assert(idx as int == election_id as int);
            }
            let e = &mut self.elections[idx];
            // the change flag only gates a write-back in a persistent
            // deployment; an in-place registry has nothing left to persist
            let _changed = e.vote(options, voter);
        }
    }

    /// Withdraws `voter`'s support from the candidates named in `options` in
    /// election `election_id`; unknown ids are silent no-ops.
    pub fn revoke(&mut self, election_id: u128, options: &Vec<String>, voter: &String)
        requires
            old(self).wf(),
        ensures
            final(self).wf(),
            final(self).election_count == old(self).election_count,
            final(self).user_election == old(self).user_election,
            election_id >= old(self).election_count ==> *final(self) == *old(self),
            election_id < old(self).election_count ==> {
                let i = election_id as int;
                &&& final(self).elections@.len() == old(self).elections@.len()
                &&& forall|k: int|
                    0 <= k < old(self).elections@.len() && k != i ==> final(self).elections@[k]
                        == old(self).elections@[k]
                &&& ({
                    let e0 = old(self).elections@[i];
                    let e1 = final(self).elections@[i];
                    &&& e1.name == e0.name
                    &&& e1.multiple == e0.multiple
                    &&& e1.candidates == e0.candidates
                    &&& e1.supporter_keys == e0.supporter_keys
                    &&& e1.map_key == e0.map_key
                    &&& e1.list_key == e0.list_key
                    &&& e1.supps() == supporters_after_revoke(
                        e0.cands(),
                        e0.supps(),
                        options.deep_view(),
                        voter@,
                    )
                })
            },
    {
        if election_id < self.election_count {
            let nelec: usize = self.elections.len();
            proof {
                assert((election_id as int) < (nelec as int));
            }
            let idx = election_id as usize;
            proof {
                assert(idx as int == election_id as int);
            }
            let e = &mut self.elections[idx];
            let _changed = e.revoke_vote(options, voter);
        }
    }

    /// Reads election `election_id`'s candidates with their supporter
    /// counts, in creation order; an unknown id yields the empty list.
    pub fn get_candidates(&self, election_id: u128) -> (r: Vec<Candidate>)
        requires
            self.wf(),
        ensures
            election_id >= self.election_count ==> r@.len() == 0,
            election_id < self.election_count ==> {
                let e = self.elections@[election_id as int];
                &&& r@.len() == e.cands().len()
                &&& forall|i: int|
                    0 <= i < r@.len() ==> (#[trigger] r@[i]).name@ == e.cands()[i] && r@[i].supported
                        == e.supps()[i].len() as u64
            },
    {
        if election_id < self.election_count {
            let nelec: usize = self.elections.len();
            proof {
                assert((election_id as int) < (nelec as int));
            }
            let idx = election_id as usize;
            proof {
                assert(idx as int == election_id as int);
            }
            self.elections[idx].get_candidates()
        } else {
            Vec::new()
        }
    }

    /// Lists the elections `user_id` created, oldest first, with their
    /// names; a creator with none yields the empty list.
    pub fn get_elections(&self, user_id: &String) -> (r: Vec<ElectionInfo>)
        requires
            self.wf(),
        ensures
            ({
                let j = find_user(self.user_election@, user_id@);
                if j == -1 {
                    r@.len() == 0
                } else {
                    let ids = self.user_election@[j].ids@;
                    &&& r@.len() == ids.len()
                    &&& forall|k: int|
                        0 <= k < ids.len() ==> (#[trigger] r@[k]).id == ids[k] && r@[k].name@
                            == self.elections@[ids[k] as int].name@
                }
            }),
    {
        let n: usize = self.user_election.len();
        let mut j: usize = n;
        let mut k: usize = 0;
        while k < n
            invariant
                k <= n,
                n == self.user_election@.len(),
                j == n || (j < k && self.user_election@[j as int].user@ == user_id@ && forall|t: int|
                    0 <= t < j ==> (#[trigger] self.user_election@[t]).user@ != user_id@),
                j == n ==> forall|t: int|
                    0 <= t < k ==> (#[trigger] self.user_election@[t]).user@ != user_id@,
            decreases n - k,
        {
            if j == n {
                if self.user_election[k].user == *user_id {
                    j = k;
                }
            }
            k += 1;
        }
        proof {
            lemma_find_user(self.user_election@, user_id@);
            if j < n {
                let r = find_user(self.user_election@, user_id@);
                assert(r != -1);
                assert(r == j as int) by {
                    if r < j as int {
                        assert(self.user_election@[r].user@ != user_id@);
                    } else if r > j as int {
                        assert(self.user_election@[j as int].user@ != user_id@);
                    }
                }
            } else {
                assert(find_user(self.user_election@, user_id@) == -1) by {
                    let r = find_user(self.user_election@, user_id@);
                    if r != -1 {
                        assert(self.user_election@[r].user@ != user_id@);
                    }
                }
            }
        }
        let mut r: Vec<ElectionInfo> = Vec::new();
        if j < n {
            let m: usize = self.user_election[j].ids.len();
            let mut t: usize = 0;
            while t < m
                invariant
                    t <= m,
                    j < self.user_election@.len(),
                    m == self.user_election@[j as int].ids@.len(),
                    self.wf(),
                    forall|k2: int|
                        0 <= k2 < self.user_election@[j as int].ids@.len()
                            ==> (#[trigger] self.user_election@[j as int].ids@[k2])
                            < self.election_count,
                    r@.len() == t,
                    forall|k2: int|
                        0 <= k2 < t ==> (#[trigger] r@[k2]).id == self.user_election@[j as int].ids@[k2]
                            && r@[k2].name@ == self.elections@[self.user_election@[j as int].ids@[k2] as int].name@,
                decreases m - t,
            {
                let id = self.user_election[j].ids[t];
                let nelec: usize = self.elections.len();
                proof {
                    assert(id == self.user_election@[j as int].ids@[t as int]);
                    assert((id as int) < (nelec as int));
                }
                let idx = id as usize;
                proof {
                    assert(idx as int == id as int);
                }
                let name = self.elections[idx].name.clone();
                r.push(ElectionInfo { name, id });
                t += 1;
            }
        }
        r
    }

    /// Lists the most recently created elections, newest first, capped at
    /// five.
    pub fn get_last5elections(self) -> (r: Vec<ElectionInfo>)
        requires
            self.wf(),
        ensures
            r@.len() as int == if self.election_count >= 5 {
                5
            } else {
                self.election_count as int
            },
            forall|k: int|
                0 <= k < r@.len() ==> (#[trigger] r@[k]).id as int == self.election_count as int - 1
                    - k && r@[k].name@ == self.elections@[self.election_count as int - 1 - k].name@,
    {
        let sz: usize = if self.election_count < 5 {
            self.election_count as usize
        } else {
            5
        };
        let mut r: Vec<ElectionInfo> = Vec::new();
        let mut k: usize = 0;
        while k < sz
            invariant
                k <= sz,
                self.wf(),
                sz as int == if self.election_count >= 5 {
                    5
                } else {
                    self.election_count as int
                },
                sz as int <= self.election_count as int,
                r@.len() == k,
                forall|t: int|
                    0 <= t < k ==> (#[trigger] r@[t]).id as int == self.election_count as int - 1
                        - t && r@[t].name@ == self.elections@[self.election_count as int - 1
                        - t].name@,
            decreases sz - k,
        {
            let id = self.election_count - 1 - (k as u128);
            let nelec: usize = self.elections.len();
            proof {
                assert((id as int) < (nelec as int));
            }
            let idx = id as usize;
            proof {
                assert(idx as int == id as int);
            }
            let name = self.elections[idx].name.clone();
            r.push(ElectionInfo { name, id });
            k += 1;
        }
        r
    }
}

} // verus!
