//! Storage-namespace key derivation.
//!
//! The persistent store is one flat namespace shared by every election, every
//! candidate's supporter set and every creator's election list.  Each logical
//! collection therefore gets its own 32-byte key, derived by hashing a fixed
//! textual tag followed by a binary encoding of the identifiers that single
//! the collection out (election id, candidate index, creator identity).
//!
//! The lemmas at the bottom show that distinct identifiers always produce
//! distinct hash *inputs*; collision resistance of SHA-256 then keeps the
//! derived keys themselves apart in practice.

use vstd::prelude::*;

verus! {

use vstd::bytes::{lemma_auto_spec_u128_to_from_le_bytes, lemma_auto_spec_u64_to_from_le_bytes};
use vstd::bytes::{spec_u128_to_le_bytes, spec_u64_to_le_bytes, u128_to_le_bytes, u64_to_le_bytes};
use vstd::utf8::{encode_utf8, encode_utf8_decode_utf8};

/// The SHA-256 digest of a byte sequence, left abstract: the library never
/// states which bytes the digest holds, only that equal inputs hash alike.
pub uninterp spec fn sha256_of(bytes: Seq<u8>) -> Seq<u8>;

/// Relies on `near_sdk::env::sha256`: it hashes the bytes with SHA-256, so
/// the result depends on the input bytes alone and is 32 bytes long.
#[verifier::external_body]
fn sha256(bytes: &Vec<u8>) -> (digest: Vec<u8>)
    ensures
        digest@ == sha256_of(bytes@),
        digest@.len() == 32,
{
    near_sdk::env::sha256(bytes.as_slice())
}

/// Tag of the map from candidate index to supporter set: `"CandidateMap"`.
pub open spec fn candidate_map_tag() -> Seq<u8> {
    seq![0x43u8, 0x61, 0x6e, 0x64, 0x69, 0x64, 0x61, 0x74, 0x65, 0x4d, 0x61, 0x70]
}

/// Tag of the ordered candidate-name list: `"CandidateVec"`.
pub open spec fn candidate_vec_tag() -> Seq<u8> {
    seq![0x43u8, 0x61, 0x6e, 0x64, 0x69, 0x64, 0x61, 0x74, 0x65, 0x56, 0x65, 0x63]
}

/// Tag of a single candidate's supporter set: `"SupporterSet"`.
pub open spec fn supporter_set_tag() -> Seq<u8> {
    seq![0x53u8, 0x75, 0x70, 0x70, 0x6f, 0x72, 0x74, 0x65, 0x72, 0x53, 0x65, 0x74]
}

/// Tag of a creator's list of election ids: `"UserElectionSet_"`.
pub open spec fn user_election_set_tag() -> Seq<u8> {
    seq![0x55u8, 0x73, 0x65, 0x72, 0x45, 0x6c, 0x65, 0x63, 0x74, 0x69, 0x6f, 0x6e, 0x53, 0x65, 0x74, 0x5f]
}

/// Hash input that addresses the candidate-to-supporter-set map of one election.
pub open spec fn candidate_map_preimage(election_id: u128) -> Seq<u8> {
    candidate_map_tag() + spec_u128_to_le_bytes(election_id)
}

/// Hash input that addresses the candidate-name list of one election.
pub open spec fn candidate_vec_preimage(election_id: u128) -> Seq<u8> {
    candidate_vec_tag() + spec_u128_to_le_bytes(election_id)
}

/// Hash input that addresses the supporter set of one candidate of one election.
pub open spec fn supporter_set_preimage(election_id: u128, idx: u64) -> Seq<u8> {
    supporter_set_tag() + spec_u128_to_le_bytes(election_id) + spec_u64_to_le_bytes(idx)
}

/// Hash input that addresses the election-id list of one creator.
pub open spec fn user_election_set_preimage(user: Seq<char>) -> Seq<u8> {
    user_election_set_tag() + encode_utf8(user)
}

fn candidate_map_tag_bytes() -> (t: Vec<u8>)
    ensures
        t@ == candidate_map_tag(),
{
    let mut t: Vec<u8> = Vec::new();
    t.push(0x43);
    t.push(0x61);
    t.push(0x6e);
    t.push(0x64);
    t.push(0x69);
    t.push(0x64);
    t.push(0x61);
    t.push(0x74);
    t.push(0x65);
    t.push(0x4d);
    t.push(0x61);
    t.push(0x70);
    proof {
        assert(t@ =~= candidate_map_tag());
    }
    t
}

fn candidate_vec_tag_bytes() -> (t: Vec<u8>)
    ensures
        t@ == candidate_vec_tag(),
{
    let mut t: Vec<u8> = Vec::new();
    t.push(0x43);
    t.push(0x61);
    t.push(0x6e);
    t.push(0x64);
    t.push(0x69);
    t.push(0x64);
    t.push(0x61);
    t.push(0x74);
    t.push(0x65);
    t.push(0x56);
    t.push(0x65);
    t.push(0x63);
    proof {
        assert(t@ =~= candidate_vec_tag());
    }
    t
}

fn supporter_set_tag_bytes() -> (t: Vec<u8>)
    ensures
        t@ == supporter_set_tag(),
{
    let mut t: Vec<u8> = Vec::new();
    t.push(0x53);
    t.push(0x75);
    t.push(0x70);
    t.push(0x70);
    t.push(0x6f);
    t.push(0x72);
    t.push(0x74);
    t.push(0x65);
    t.push(0x72);
    t.push(0x53);
    t.push(0x65);
    t.push(0x74);
    proof {
        assert(t@ =~= supporter_set_tag());
    }
    t
}

fn user_election_set_tag_bytes() -> (t: Vec<u8>)
    ensures
        t@ == user_election_set_tag(),
{
    let mut t: Vec<u8> = Vec::new();
    t.push(0x55);
    t.push(0x73);
    t.push(0x65);
    t.push(0x72);
    t.push(0x45);
    t.push(0x6c);
    t.push(0x65);
    t.push(0x63);
    t.push(0x74);
    t.push(0x69);
    t.push(0x6f);
    t.push(0x6e);
    t.push(0x53);
    t.push(0x65);
    t.push(0x74);
    t.push(0x5f);
    proof {
        assert(t@ =~= user_election_set_tag());
    }
    t
}

/// Namespace key of the candidate-to-supporter-set map of `election_id`.
pub fn candidate_map_key(election_id: u128) -> (k: Vec<u8>)
    ensures
        k@ == sha256_of(candidate_map_preimage(election_id)),
        k@.len() == 32,
{
    let mut bytes = candidate_map_tag_bytes();
    let mut id_bytes = u128_to_le_bytes(election_id);
    bytes.append(&mut id_bytes);
    sha256(&bytes)
}

/// Namespace key of the candidate-name list of `election_id`.
pub fn candidate_vec_key(election_id: u128) -> (k: Vec<u8>)
    ensures
        k@ == sha256_of(candidate_vec_preimage(election_id)),
        k@.len() == 32,
{
    let mut bytes = candidate_vec_tag_bytes();
    let mut id_bytes = u128_to_le_bytes(election_id);
    bytes.append(&mut id_bytes);
    sha256(&bytes)
}

/// Namespace key of the supporter set of candidate `idx` of `election_id`.
pub fn supporter_set_key(election_id: u128, idx: u64) -> (k: Vec<u8>)
    ensures
        k@ == sha256_of(supporter_set_preimage(election_id, idx)),
        k@.len() == 32,
{
    let mut bytes = supporter_set_tag_bytes();
    let mut id_bytes = u128_to_le_bytes(election_id);
    bytes.append(&mut id_bytes);
    let mut idx_bytes = u64_to_le_bytes(idx);
    bytes.append(&mut idx_bytes);
    sha256(&bytes)
}

/// Namespace key of the election-id list created by `user`.
pub fn user_election_set_key(user: &String) -> (k: Vec<u8>)
    ensures
        k@ == sha256_of(user_election_set_preimage(user@)),
        k@.len() == 32,
{
    let mut bytes = user_election_set_tag_bytes();
    bytes.extend_from_slice(user.as_str().as_bytes());
    proof {
        assert(bytes@ =~= user_election_set_preimage(user@));
    }
    sha256(&bytes)
}

/// Law: within each family of namespace keys, distinct identifiers always
/// hash distinct inputs, so only a SHA-256 collision could ever make two of
/// the derived keys coincide.
pub proof fn lemma_preimages_injective(a: u128, b: u128, i: u64, j: u64, u: Seq<char>, v: Seq<char>)
    ensures
        candidate_map_preimage(a) == candidate_map_preimage(b) ==> a == b,
        candidate_vec_preimage(a) == candidate_vec_preimage(b) ==> a == b,
        supporter_set_preimage(a, i) == supporter_set_preimage(b, j) ==> a == b && i == j,
        user_election_set_preimage(u) == user_election_set_preimage(v) ==> u == v,
{
    lemma_auto_spec_u128_to_from_le_bytes();
    lemma_auto_spec_u64_to_from_le_bytes();
    if candidate_map_preimage(a) == candidate_map_preimage(b) {
        assert(spec_u128_to_le_bytes(a) =~= candidate_map_preimage(a).subrange(12, 28));
        assert(spec_u128_to_le_bytes(b) =~= candidate_map_preimage(b).subrange(12, 28));
    }
    if candidate_vec_preimage(a) == candidate_vec_preimage(b) {
        assert(spec_u128_to_le_bytes(a) =~= candidate_vec_preimage(a).subrange(12, 28));
        assert(spec_u128_to_le_bytes(b) =~= candidate_vec_preimage(b).subrange(12, 28));
    }
    if supporter_set_preimage(a, i) == supporter_set_preimage(b, j) {
        assert(spec_u128_to_le_bytes(a) =~= supporter_set_preimage(a, i).subrange(12, 28));
        assert(spec_u128_to_le_bytes(b) =~= supporter_set_preimage(b, j).subrange(12, 28));
        assert(spec_u64_to_le_bytes(i) =~= supporter_set_preimage(a, i).subrange(28, 36));
        assert(spec_u64_to_le_bytes(j) =~= supporter_set_preimage(b, j).subrange(28, 36));
    }
    if user_election_set_preimage(u) == user_election_set_preimage(v) {
        assert(encode_utf8(u) =~= user_election_set_preimage(u).subrange(
            16,
            user_election_set_preimage(u).len() as int,
        ));
        assert(encode_utf8(v) =~= user_election_set_preimage(v).subrange(
            16,
            user_election_set_preimage(v).len() as int,
        ));
        encode_utf8_decode_utf8(u);
        encode_utf8_decode_utf8(v);
    }
}

/// Law: the four families of namespace keys hash pairwise distinct inputs,
/// whatever identifiers they are given, because each family starts with its
/// own tag.
pub proof fn lemma_preimage_families_disjoint(a: u128, b: u128, i: u64, u: Seq<char>)
    ensures
        candidate_map_preimage(a) != candidate_vec_preimage(b),
        candidate_map_preimage(a) != supporter_set_preimage(b, i),
        candidate_map_preimage(a) != user_election_set_preimage(u),
        candidate_vec_preimage(a) != supporter_set_preimage(b, i),
        candidate_vec_preimage(a) != user_election_set_preimage(u),
        supporter_set_preimage(a, i) != user_election_set_preimage(u),
{
    assert(candidate_map_preimage(a)[9] == 0x4du8);
    assert(candidate_vec_preimage(b)[9] == 0x56u8);
    assert(candidate_map_preimage(a)[0] == 0x43u8);
    assert(candidate_vec_preimage(a)[0] == 0x43u8);
    assert(supporter_set_preimage(b, i)[0] == 0x53u8);
    assert(supporter_set_preimage(a, i)[0] == 0x53u8);
    assert(user_election_set_preimage(u)[0] == 0x55u8);
}

} // verus!
