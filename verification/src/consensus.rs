use vstd::prelude::*;
use crate::coordinator::{Commitment, Coordinator, Witness, witness_wf};
use crate::hashing::{sha256, sha256_spec};

verus! {

/// Commitment `i` is the first of `keys` that the witness's order bloom contains.
pub open spec fn first_match_is(w: Witness, keys: Seq<Seq<u8>>, i: int) -> bool {
    &&& 0 <= i < keys.len()
    &&& w.order_bloom.spec_contains(keys[i])
    &&& forall|j: int| 0 <= j < i ==> !w.order_bloom.spec_contains(#[trigger] keys[j])
}

/// The votes for commitment `i`: the witnesses whose first confirmed commitment it is.
pub open spec fn consensus_votes(witnesses: Seq<Witness>, keys: Seq<Seq<u8>>, i: int) -> nat
    decreases witnesses.len(),
{
    if witnesses.len() == 0 {
        0
    } else {
        consensus_votes(witnesses.drop_last(), keys, i) + if first_match_is(witnesses.last(), keys, i) {
            1nat
        } else {
            0nat
        }
    }
}

/// A vote count reaches the quorum: all witnesses when the quorum is zero, else at
/// least the quorum.
pub open spec fn reaches_quorum(votes: nat, num_witnesses: nat, quorum: u16) -> bool {
    if quorum == 0 {
        votes == num_witnesses
    } else {
        votes >= quorum
    }
}

/// The bloom keys of the commitments: their digests.
pub open spec fn consensus_keys(commitments: Seq<Commitment>) -> Seq<Seq<u8>> {
    Seq::new(commitments.len(), |i: int| sha256_spec(commitments[i]@))
}

/// Commitment `i` qualifies: it reaches the quorum.
pub open spec fn qualifies(witnesses: Seq<Witness>, keys: Seq<Seq<u8>>, quorum: u16, i: int) -> bool {
    reaches_quorum(consensus_votes(witnesses, keys, i), witnesses.len(), quorum)
}

/// `i` is the consensus choice among the first `n` commitments: it qualifies, no
/// qualifying commitment has more votes, and every later qualifying one has fewer
/// (of several with the most votes, the last is chosen).
pub open spec fn is_consensus_choice(witnesses: Seq<Witness>, keys: Seq<Seq<u8>>, quorum: u16, n: int, i: int) -> bool {
    &&& 0 <= i < n
    &&& qualifies(witnesses, keys, quorum, i)
    &&& forall|j: int| 0 <= j < n && qualifies(witnesses, keys, quorum, j)
        ==> consensus_votes(witnesses, keys, j) <= consensus_votes(witnesses, keys, i)
    &&& forall|j: int| i < j < n && qualifies(witnesses, keys, quorum, j)
        ==> consensus_votes(witnesses, keys, j) < consensus_votes(witnesses, keys, i)
}

/// The consensus choice among the first `n` commitments, if any qualifies.
pub open spec fn consensus_index(witnesses: Seq<Witness>, keys: Seq<Seq<u8>>, quorum: u16, n: int) -> Option<int> {
    if exists|i: int| is_consensus_choice(witnesses, keys, quorum, n, i) {
        Some(choose|i: int| is_consensus_choice(witnesses, keys, quorum, n, i))
    } else {
        None
    }
}

/// There is at most one consensus choice.
pub proof fn lemma_consensus_choice_unique(witnesses: Seq<Witness>, keys: Seq<Seq<u8>>, quorum: u16, n: int, i: int, j: int)
    requires
        is_consensus_choice(witnesses, keys, quorum, n, i),
        is_consensus_choice(witnesses, keys, quorum, n, j),
    ensures
        i == j,
{
    if i < j {
        assert(consensus_votes(witnesses, keys, j) < consensus_votes(witnesses, keys, i));
    } else if j < i {
        assert(consensus_votes(witnesses, keys, i) < consensus_votes(witnesses, keys, j));
    }
}

proof fn lemma_votes_bound(witnesses: Seq<Witness>, keys: Seq<Seq<u8>>, i: int)
    ensures
        consensus_votes(witnesses, keys, i) <= witnesses.len(),
    decreases witnesses.len(),
{
    if witnesses.len() > 0 {
        lemma_votes_bound(witnesses.drop_last(), keys, i);
    }
}

/// A witness's first confirmed commitment is unique.
proof fn lemma_first_match_unique(w: Witness, keys: Seq<Seq<u8>>, i: int, j: int)
    requires
        first_match_is(w, keys, i),
        first_match_is(w, keys, j),
    ensures
        i == j,
{
    if i < j {
        assert(!w.order_bloom.spec_contains(keys[i]));
    } else if j < i {
        assert(!w.order_bloom.spec_contains(keys[j]));
    }
}

/// The digests of the commitments.
fn commitment_digests(commitments: &[Commitment]) -> (out: Vec<[u8; 32]>)
    ensures
        out@.len() == commitments@.len(),
        forall|i: int| 0 <= i < out@.len() ==> (#[trigger] out@[i])@ == consensus_keys(commitments@)[i],
{
    let mut out: Vec<[u8; 32]> = Vec::new();
    let mut i: usize = 0;
    while i < commitments.len()
        invariant
            i <= commitments@.len(),
            out@.len() == i,
            forall|k: int| 0 <= k < i ==> (#[trigger] out@[k])@ == consensus_keys(commitments@)[k],
        decreases commitments@.len() - i,
    {
        let d = sha256(&commitments[i]);
        out.push(d);
        i += 1;
    }
    out
}

impl Coordinator {
    /// Picks the commitment the witnesses agree on. Each witness votes for the first
    /// commitment its order bloom confirms; among the commitments whose votes reach
    /// the quorum (all witnesses when the quorum is zero) the one with the most votes
    /// is chosen, the last of several ties. `None` when none reaches the quorum.
    pub fn select_consensus_commitment_by_witnesses(
        commitments: &[Commitment],
        witnesses: &[Witness],
        witness_quorum: u16,
    ) -> (r: Option<usize>)
        requires
            witnesses@.len() <= u16::MAX,
            forall|j: int| 0 <= j < witnesses@.len() ==> witness_wf(#[trigger] witnesses@[j]),
        ensures
            match r {
                Some(i) => is_consensus_choice(
                    witnesses@,
                    consensus_keys(commitments@),
                    witness_quorum,
                    commitments@.len() as int,
                    i as int,
                ),
                None => forall|j: int|
                    0 <= j < commitments@.len() ==> !qualifies(
                        witnesses@,
                        consensus_keys(commitments@),
                        witness_quorum,
                        j,
                    ),
            },
            r matches Some(i) ==> consensus_index(witnesses@, consensus_keys(commitments@), witness_quorum, commitments@.len() as int) == Some(i as int),
            r is None ==> consensus_index(witnesses@, consensus_keys(commitments@), witness_quorum, commitments@.len() as int) is None,
    {
        let ghost keys = consensus_keys(commitments@);
        let digests = commitment_digests(commitments);
        let n = commitments.len();
        let mut scores: Vec<u16> = Vec::new();
        let mut i: usize = 0;
        while i < n
            invariant
                i <= n == commitments@.len(),
                scores@.len() == i,
                forall|k: int| 0 <= k < i ==> scores@[k] == 0,
            decreases n - i,
        {
            scores.push(0);
            i += 1;
        }
        let mut w: usize = 0;
        while w < witnesses.len()
            invariant
                w <= witnesses@.len() <= u16::MAX,
                n == commitments@.len(),
                scores@.len() == n,
                keys == consensus_keys(commitments@),
                digests@.len() == n,
                forall|k: int| 0 <= k < n ==> (#[trigger] digests@[k])@ == keys[k],
                forall|j: int| 0 <= j < witnesses@.len() ==> witness_wf(#[trigger] witnesses@[j]),
                forall|k: int| 0 <= k < n ==> scores@[k] == consensus_votes(#[trigger] witnesses@.take(w as int), keys, k),
            decreases witnesses@.len() - w,
        {
            let ghost prefix = witnesses@.take(w as int);
            let ghost wit = witnesses@[w as int];
            proof {
                assert(witnesses@.take(w + 1).drop_last() =~= prefix);
                assert(witnesses@.take(w + 1).last() == wit);
                assert forall|k: int| 0 <= k < n implies scores@[k] < u16::MAX by {
                    lemma_votes_bound(prefix, keys, k);
                }
            }
            let mut c: usize = 0;
            let mut found = false;
            while c < n
                invariant_except_break
                    c <= n,
                    !found,
                    forall|j: int| 0 <= j < c ==> !wit.order_bloom.spec_contains(#[trigger] keys[j]),
                invariant
                    n == commitments@.len(),
                    w < witnesses@.len(),
                    wit == witnesses@[w as int],
                    witness_wf(wit),
                    keys == consensus_keys(commitments@),
                    digests@.len() == n,
                    forall|k: int| 0 <= k < n ==> (#[trigger] digests@[k])@ == keys[k],
                    scores@.len() == n,
                    forall|k: int| 0 <= k < n ==> scores@[k] < u16::MAX,
                ensures
                    found ==> c < n && first_match_is(wit, keys, c as int),
                    !found ==> forall|j: int| 0 <= j < n ==> !wit.order_bloom.spec_contains(#[trigger] keys[j]),
                decreases n - c,
            {
                if witnesses[w].order_bloom.contains(&digests[c]) {
                    found = true;
                    break;
                }
                c += 1;
            }
            let ghost old_scores = scores@;
            if found {
                let s = scores[c] + 1;
                scores.set(c, s);
            }
            proof {
                let next = witnesses@.take(w + 1);
                assert forall|k: int| 0 <= k < n implies scores@[k] == consensus_votes(#[trigger] witnesses@.take(w + 1), keys, k) by {
                    assert(next.drop_last() =~= prefix);
                    if found {
                        if k != c {
                            if first_match_is(wit, keys, k) {
                                lemma_first_match_unique(wit, keys, k, c as int);
                            }
                        }
                    } else {
                        assert(!first_match_is(wit, keys, k)) by {
                            if first_match_is(wit, keys, k) {
                                assert(wit.order_bloom.spec_contains(keys[k]));
                            }
                        }
                    }
                }
            }
            w += 1;
        }
        proof {
            assert(witnesses@.take(witnesses@.len() as int) =~= witnesses@);
        }
        let num_witnesses = witnesses.len();
        let mut best: Option<usize> = None;
        let mut i: usize = 0;
        while i < n
            invariant
                i <= n == commitments@.len(),
                num_witnesses == witnesses@.len(),
                scores@.len() == n,
                keys == consensus_keys(commitments@),
                forall|k: int| 0 <= k < n ==> scores@[k] == consensus_votes(#[trigger] witnesses@, keys, k),
                match best {
                    Some(b) => is_consensus_choice(witnesses@, keys, witness_quorum, i as int, b as int),
                    None => forall|j: int| 0 <= j < i ==> !qualifies(witnesses@, keys, witness_quorum, j),
                },
            decreases n - i,
        {
            let score = scores[i];
            let ok = if witness_quorum == 0 {
                score as usize == num_witnesses
            } else {
                score >= witness_quorum
            };
            assert(ok == qualifies(witnesses@, keys, witness_quorum, i as int));
            match best {
                Some(b) => {
                    if ok && score >= scores[b] {
                        best = Some(i);
                    }
                },
                None => {
                    if ok {
                        best = Some(i);
                    }
                },
            }
            i += 1;
        }
        proof {
            let n_int = n as int;
            match best {
                Some(b) => {
                    let c = choose|x: int| is_consensus_choice(witnesses@, keys, witness_quorum, n_int, x);
                    lemma_consensus_choice_unique(witnesses@, keys, witness_quorum, n_int, c, b as int);
                },
                None => {
                    if exists|x: int| is_consensus_choice(witnesses@, keys, witness_quorum, n_int, x) {
                        let c = choose|x: int| is_consensus_choice(witnesses@, keys, witness_quorum, n_int, x);
                        assert(qualifies(witnesses@, keys, witness_quorum, c));
                    }
                },
            }
        }
        best
    }
}

} // verus!
