use psyche::bloom::Bloom;
use psyche::committee_selection::WitnessProof;
use psyche::coordinator::{Coordinator, Witness};
use psyche::shuffle::compute_shuffled_index;
use sha2::Digest;

fn digest(bytes: &[u8]) -> [u8; 32] {
    sha2::Sha256::digest(bytes).into()
}

fn keyed_bloom() -> Bloom {
    Bloom::with_keys(512, [3, 17, 99, 12345, 0, 0, 0, 0], 4)
}

fn witness_confirming(commitments: &[[u8; 32]]) -> Witness {
    let mut order = keyed_bloom();
    for c in commitments {
        order.add(&digest(c));
    }
    Witness {
        proof: WitnessProof { witness: true, position: 0, index: 0 },
        participant_bloom: keyed_bloom(),
        order_bloom: order,
    }
}

#[test]
fn bloom_contains_what_was_added() {
    let mut b = keyed_bloom();
    let a = digest(b"a");
    let c = digest(b"c");
    assert!(!b.contains(&a));
    b.add(&a);
    assert!(b.contains(&a));
    b.add(&c);
    assert!(b.contains(&a));
    assert!(b.contains(&c));
}

#[test]
fn zeroed_bloom_contains_everything() {
    let b = Bloom::zeroed();
    assert!(b.contains(&digest(b"anything")));
}

#[test]
fn consensus_picks_the_commitment_with_most_votes() {
    let a = [1u8; 32];
    let b = [2u8; 32];
    let witnesses = vec![witness_confirming(&[a]), witness_confirming(&[a]), witness_confirming(&[b])];
    assert_eq!(Coordinator::select_consensus_commitment_by_witnesses(&[a, b], &witnesses, 2), Some(0));
    assert_eq!(Coordinator::select_consensus_commitment_by_witnesses(&[b, a], &witnesses, 2), Some(1));
    // quorum zero asks for every witness
    assert_eq!(Coordinator::select_consensus_commitment_by_witnesses(&[a, b], &witnesses, 0), None);
    assert_eq!(Coordinator::select_consensus_commitment_by_witnesses(&[a, b], &witnesses, 3), None);
    assert_eq!(Coordinator::select_consensus_commitment_by_witnesses(&[], &witnesses, 1), None);
}

#[test]
fn consensus_vote_goes_to_first_confirmed_commitment() {
    let a = [1u8; 32];
    let b = [2u8; 32];
    // each witness confirms both; each votes only for the first in the list
    let witnesses = vec![witness_confirming(&[a, b]), witness_confirming(&[a, b])];
    assert_eq!(Coordinator::select_consensus_commitment_by_witnesses(&[a, b], &witnesses, 0), Some(0));
    assert_eq!(Coordinator::select_consensus_commitment_by_witnesses(&[b, a], &witnesses, 0), Some(0));
}

#[test]
fn consensus_ties_go_to_the_last() {
    let a = [1u8; 32];
    let b = [2u8; 32];
    let witnesses = vec![witness_confirming(&[a]), witness_confirming(&[b])];
    assert_eq!(Coordinator::select_consensus_commitment_by_witnesses(&[a, b], &witnesses, 1), Some(1));
}

#[test]
fn shuffled_indices_form_a_permutation() {
    let seed = digest(b"seed");
    let mut seen = vec![false; 10];
    for i in 0..10u64 {
        let p = compute_shuffled_index(i, 10, &seed);
        assert!(p < 10);
        assert!(!seen[p as usize]);
        seen[p as usize] = true;
    }
    assert_eq!(compute_shuffled_index(0, 1, &seed), 0);
}
