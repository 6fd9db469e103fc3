use vstd::prelude::*;
use crate::client_round::{
    has_key, key_index, value_of, keys_unique, BlobHash, PayloadState, RoundState, RoundStateView, TrainingResult,
};
use crate::bloom::Bloom;
use crate::client_round::batches_unique;
use crate::committee_selection::{
    selection_fits, selection_for, Committee, CommitteeProof, CommitteeSelection, NodeId, SelectionView, WitnessProof,
};
use crate::data_selection::{assignment_fits, assignment_for_round, lemma_assignment_keys_unique};
use crate::consensus::{consensus_index, consensus_keys};
use crate::coordinator::{Commitment, Coordinator, CoordinatorView, Witness, witness_wf};
use crate::data_selection::BatchId;
use crate::witnessing::{trainer_health_fits, trainer_healthy};

verus! {

/// Why a training step cannot start, as far as the client's own bookkeeping
/// decides it.
#[derive(Clone, Copy, Debug, PartialEq, Eq, Structural)]
pub enum TrainError {
    NoTrainers,
    NoActiveRound,
    NoCommitteeInfo,
    NotInThisRound,
}

/// Whether a training step checks the previous round's trainers: never in the
/// first round of an epoch; otherwise the round needs its committee information,
/// only witnesses check, and they need a previous round.
pub open spec fn health_check_plan_spec(first_round: bool, round: RoundStateView, has_previous_round: bool) -> Result<bool, TrainError> {
    if first_round {
        Ok(false)
    } else {
        match round.committee_info {
            None => Err(TrainError::NoCommitteeInfo),
            Some((_, wp, _)) => if !wp.witness {
                Ok(false)
            } else if !has_previous_round {
                Err(TrainError::NoActiveRound)
            } else {
                Ok(true)
            },
        }
    }
}

/// Decides whether this training step sends health checks.
pub fn health_check_plan(first_round: bool, round: &RoundState, has_previous_round: bool) -> (r: Result<bool, TrainError>)
    ensures
        r == health_check_plan_spec(first_round, round@, has_previous_round),
{
    if first_round {
        return Ok(false);
    }
    let witness = match &round.committee_info {
        Some(info) => info.1.witness,
        None => {
            return Err(TrainError::NoCommitteeInfo);
        },
    };
    if !witness {
        Ok(false)
    } else if !has_previous_round {
        Err(TrainError::NoActiveRound)
    } else {
        Ok(true)
    }
}

/// The committee proof that a selection gives client `i`.
pub open spec fn proof_for(cs: SelectionView, i: nat) -> CommitteeProof {
    CommitteeProof { committee: cs.committee_of(i), position: cs.committee_position(i) as u64, index: i as u64 }
}

/// The proofs of the first `n` clients that train under the selection but whose
/// work the witnesses do not confirm, in client order.
pub open spec fn unhealthy_trainers(
    c: CoordinatorView,
    cs: SelectionView,
    witnesses: Seq<Witness>,
    quorum: u16,
    n: nat,
) -> Seq<CommitteeProof>
    decreases n,
{
    if n == 0 {
        Seq::empty()
    } else {
        let rest = unhealthy_trainers(c, cs, witnesses, quorum, (n - 1) as nat);
        let i = (n - 1) as nat;
        if cs.committee_of(i) == Committee::Trainer && !trainer_healthy(c, c.epoch_state.clients[i as int].id, witnesses, quorum) {
            rest.push(proof_for(cs, i))
        } else {
            rest
        }
    }
}

/// The health checks a witness sends: the proofs of the trainers whose work of the
/// previous round the witnesses do not confirm.
pub fn health_check_candidates(
    state: &Coordinator,
    selection: &CommitteeSelection,
    witnesses: &[Witness],
    witness_quorum: u16,
) -> (checks: Vec<CommitteeProof>)
    requires
        selection@.wf(),
        state@.epoch_state.clients.len() <= selection.total_nodes,
        forall|i: int| 0 <= i < state@.epoch_state.clients.len()
            ==> trainer_health_fits(state@, (#[trigger] state@.epoch_state.clients[i]).id, witnesses@, witness_quorum),
    ensures
        checks@ == unhealthy_trainers(state@, selection@, witnesses@, witness_quorum, state@.epoch_state.clients.len()),
{
    let mut checks: Vec<CommitteeProof> = Vec::new();
    let n = state.epoch_state.clients.len();
    let mut i: usize = 0;
    while i < n
        invariant
            i <= n == state@.epoch_state.clients.len() <= selection.total_nodes,
            selection@.wf(),
            forall|k: int| 0 <= k < state@.epoch_state.clients.len()
                ==> trainer_health_fits(state@, (#[trigger] state@.epoch_state.clients[k]).id, witnesses@, witness_quorum),
            checks@ == unhealthy_trainers(state@, selection@, witnesses@, witness_quorum, i as nat),
        decreases n - i,
    {
        let proof = selection.get_committee(i as u64);
        let id = state.epoch_state.clients[i].id;
        assert(trainer_health_fits(state@, state@.epoch_state.clients[i as int].id, witnesses@, witness_quorum));
        if proof.committee == Committee::Trainer && !Coordinator::trainer_healthy_by_witnesses(state, &id, witnesses, witness_quorum) {
            checks.push(proof);
        }
        i += 1;
    }
    checks
}

/// Why results cannot be applied: no round to take them from, or the payload of a
/// batch's consensus commitment is not ready (still deserializing, still
/// downloading) or unknown.
#[derive(Clone, Copy, Debug)]
pub enum ApplyError {
    NoActiveRound,
    DidNotFinishDeserializingCommitment(Commitment, BatchId),
    DidNotBeginDownloadingCommitment(Commitment, BatchId),
    UnknownCommitment(Commitment, BatchId),
}

/// The recorded results for a batch, in arrival order.
pub open spec fn batch_results(s: Seq<(NodeId, TrainingResult)>, batch: BatchId) -> Seq<(NodeId, TrainingResult)>
    decreases s.len(),
{
    if s.len() == 0 {
        Seq::empty()
    } else {
        let rest = batch_results(s.drop_last(), batch);
        if s.last().1.batch_id == batch {
            rest.push(s.last())
        } else {
            rest
        }
    }
}

/// The commitments of recorded results.
pub open spec fn result_commitments(s: Seq<(NodeId, TrainingResult)>) -> Seq<Commitment> {
    Seq::new(s.len(), |i: int| s[i].1.commitment)
}

/// One batch of the apply phase, on the payloads not yet taken: a batch without
/// results or without a consensus commitment is skipped; otherwise the consensus
/// commitment's payload is taken if it finished deserializing, and is an error if
/// it is still deserializing, still downloading, or unknown.
pub open spec fn apply_batch(
    results: Seq<(NodeId, TrainingResult)>,
    payloads: Seq<(BlobHash, PayloadState)>,
    witnesses: Seq<Witness>,
    quorum: u16,
    batch: BatchId,
) -> Result<(Option<BlobHash>, Seq<(BlobHash, PayloadState)>), ApplyError> {
    let entries = batch_results(results, batch);
    let commitments = result_commitments(entries);
    match consensus_index(witnesses, consensus_keys(commitments), quorum, commitments.len() as int) {
        None => Ok((None, payloads)),
        Some(i) => {
            let chosen = entries[i].1;
            let hash = chosen.ticket_hash;
            if !has_key(payloads, hash) {
                Err(ApplyError::UnknownCommitment(chosen.commitment, batch))
            } else {
                match value_of(payloads, hash) {
                    PayloadState::Deserializing(true) => Ok((Some(hash), payloads.remove(key_index(payloads, hash)))),
                    PayloadState::Deserializing(false) => Err(
                        ApplyError::DidNotFinishDeserializingCommitment(chosen.commitment, batch),
                    ),
                    PayloadState::Downloading(..) => Err(
                        ApplyError::DidNotBeginDownloadingCommitment(chosen.commitment, batch),
                    ),
                }
            }
        },
    }
}

/// The apply phase over the batches in order: the payloads to apply, in order, and
/// the payloads left; or the first error.
pub open spec fn apply_plan(
    results: Seq<(NodeId, TrainingResult)>,
    payloads: Seq<(BlobHash, PayloadState)>,
    witnesses: Seq<Witness>,
    quorum: u16,
    batches: Seq<BatchId>,
) -> Result<(Seq<BlobHash>, Seq<(BlobHash, PayloadState)>), ApplyError>
    decreases batches.len(),
{
    if batches.len() == 0 {
        Ok((Seq::empty(), payloads))
    } else {
        match apply_plan(results, payloads, witnesses, quorum, batches.drop_last()) {
            Err(e) => Err(e),
            Ok((taken, rest)) => match apply_batch(results, rest, witnesses, quorum, batches.last()) {
                Err(e) => Err(e),
                Ok((None, rest2)) => Ok((taken, rest2)),
                Ok((Some(h), rest2)) => Ok((taken.push(h), rest2)),
            },
        }
    }
}

/// The recorded results for a batch.
fn results_for_batch(results: &Vec<(NodeId, TrainingResult)>, batch: BatchId) -> (out: Vec<(NodeId, TrainingResult)>)
    ensures
        out@ == batch_results(results@, batch),
{
    let mut out: Vec<(NodeId, TrainingResult)> = Vec::new();
    let mut i: usize = 0;
    while i < results.len()
        invariant
            i <= results@.len(),
            out@ == batch_results(results@.take(i as int), batch),
        decreases results@.len() - i,
    {
        assert(results@.take(i + 1).drop_last() =~= results@.take(i as int));
        let e = results[i];
        if e.1.batch_id == batch {
            out.push(e);
        }
        i += 1;
    }
    assert(results@.take(results@.len() as int) =~= results@);
    out
}

/// The commitments of recorded results.
fn commitments_of(entries: &Vec<(NodeId, TrainingResult)>) -> (out: Vec<Commitment>)
    ensures
        out@ == result_commitments(entries@),
{
    let mut out: Vec<Commitment> = Vec::new();
    let mut i: usize = 0;
    while i < entries.len()
        invariant
            i <= entries@.len(),
            out@ == result_commitments(entries@.take(i as int)),
        decreases entries@.len() - i,
    {
        out.push(entries[i].1.commitment);
        i += 1;
        assert(out@ =~= result_commitments(entries@.take(i as int)));
    }
    assert(entries@.take(entries@.len() as int) =~= entries@);
    out
}

/// The slot of the round whose results a training step applies: the current
/// round in cooldown, the previous one otherwise.
pub open spec fn apply_slot(c: CoordinatorView) -> Option<int> {
    c.round_slot(c.run_state != crate::coordinator::RunState::Cooldown)
}

/// What the apply phase of a training step comes to: nothing in the first round of
/// an epoch; an error without a round to take results from; otherwise the plan
/// over the round's results and payloads, judged by that round's witnesses.
pub open spec fn apply_results_spec(
    c: CoordinatorView,
    round: RoundStateView,
    batches: Seq<BatchId>,
) -> Result<Option<Seq<BlobHash>>, ApplyError> {
    if c.epoch_state.first_round {
        Ok(None)
    } else {
        match apply_slot(c) {
            None => Err(ApplyError::NoActiveRound),
            Some(slot) => match apply_plan(
                round.results,
                round.downloads,
                c.epoch_state.rounds[slot].witnesses,
                c.config.witness_quorum,
                batches,
            ) {
                Err(e) => Err(e),
                Ok((taken, _)) => Ok(Some(taken)),
            },
        }
    }
}

/// Once the plan fails on a prefix of the batches, it fails the same way on all of
/// them.
proof fn lemma_plan_error_persists(
    results: Seq<(NodeId, TrainingResult)>,
    payloads: Seq<(BlobHash, PayloadState)>,
    witnesses: Seq<Witness>,
    quorum: u16,
    batches: Seq<BatchId>,
    m: int,
)
    requires
        0 <= m <= batches.len(),
        apply_plan(results, payloads, witnesses, quorum, batches.take(m)) is Err,
    ensures
        apply_plan(results, payloads, witnesses, quorum, batches) == apply_plan(results, payloads, witnesses, quorum, batches.take(m)),
    decreases batches.len(),
{
    if batches.len() == m {
        assert(batches.take(m) =~= batches);
    } else {
        assert(batches.drop_last().take(m) =~= batches.take(m));
        lemma_plan_error_persists(results, payloads, witnesses, quorum, batches.drop_last(), m);
    }
}

/// The apply phase of a training step: picks, for each batch of the round, the
/// payload of the commitment the witnesses agree on. The round's payloads and
/// results are handed over (the round keeps none of them) unless nothing is
/// applied in the first round of an epoch or there is no round to apply.
pub fn apply_results(state: &Coordinator, current_round: &mut RoundState, batch_ids: &[BatchId]) -> (r: Result<Option<Vec<BlobHash>>, ApplyError>)
    requires
        state.inv(),
        old(current_round)@.wf(),
        !state@.epoch_state.first_round && apply_slot(state@) is Some ==> {
            &&& old(current_round)@.downloads.len() > 0
            &&& old(current_round)@.results.len() > 0
        },
    ensures
        match (r, apply_results_spec(state@, old(current_round)@, batch_ids@)) {
            (Ok(None), Ok(None)) => true,
            (Ok(Some(v)), Ok(Some(taken))) => v@ == taken,
            (Err(e), Err(e2)) => e == e2,
            _ => false,
        },
        final(current_round)@ == (if r is Err && r != Err::<Option<Vec<BlobHash>>, ApplyError>(ApplyError::NoActiveRound) || r matches Ok(Some(_)) {
            RoundStateView { downloads: Seq::empty(), results: Seq::empty(), ..old(current_round)@ }
        } else {
            old(current_round)@
        }),
{
    if state.epoch_state.first_round {
        return Ok(None);
    }
    let round = if state.run_state == crate::coordinator::RunState::Cooldown {
        state.current_round()
    } else {
        state.previous_round()
    };
    let round = match round {
        Some(r) => r,
        None => {
            return Err(ApplyError::NoActiveRound);
        },
    };
    let ghost slot = apply_slot(state@).unwrap();
    assert(round@ == state@.epoch_state.rounds[slot]);
    let witnesses = crate::witnessing::live_witnesses(round);
    let quorum = state.config.witness_quorum;
    let ghost round_witnesses = state@.epoch_state.rounds[slot].witnesses;
    let ghost old_round = current_round@;
    let mut payloads: Vec<(BlobHash, PayloadState)> = Vec::new();
    std::mem::swap(&mut payloads, &mut current_round.downloads);
    let mut results: Vec<(NodeId, TrainingResult)> = Vec::new();
    std::mem::swap(&mut results, &mut current_round.results);
    let ghost results0 = results@;
    let ghost emptied = RoundStateView { downloads: Seq::empty(), results: Seq::empty(), ..old_round };
    assert(current_round@ == emptied);
    let mut taken: Vec<BlobHash> = Vec::new();
    let mut b: usize = 0;
    while b < batch_ids.len()
        invariant
            b <= batch_ids@.len(),
            results@ == results0,
            results0 == old_round.results,
            old_round == old(current_round)@,
            !state@.epoch_state.first_round,
            apply_slot(state@) == Some(slot),
            round_witnesses == state@.epoch_state.rounds[slot].witnesses,
            quorum == state@.config.witness_quorum,
            emptied == (RoundStateView { downloads: Seq::empty(), results: Seq::empty(), ..old_round }),
            current_round@ == emptied,
            witnesses@ == round_witnesses,
            witnesses@.len() <= 16,
            forall|j: int| 0 <= j < witnesses@.len() ==> witness_wf(#[trigger] witnesses@[j]),
            keys_unique(payloads@),
            apply_plan(results0, old_round.downloads, round_witnesses, quorum, batch_ids@.take(b as int))
                == Ok::<(Seq<BlobHash>, Seq<(BlobHash, PayloadState)>), ApplyError>((taken@, payloads@)),
        decreases batch_ids@.len() - b,
    {
        let ghost prefix = batch_ids@.take(b as int);
        assert(batch_ids@.take(b + 1).drop_last() =~= prefix);
        let batch = batch_ids[b];
        let entries = results_for_batch(&results, batch);
        let commitments = commitments_of(&entries);
        let chosen = Coordinator::select_consensus_commitment_by_witnesses(commitments.as_slice(), witnesses.as_slice(), quorum);
        match chosen {
            None => {},
            Some(i) => {
                let result = entries[i].1;
                let hash = result.ticket_hash;
                match crate::client_round::position_of_key(&payloads, &hash) {
                    None => {
                        proof {
                            assert(apply_batch(results0, payloads@, round_witnesses, quorum, batch)
                                == Err::<(Option<BlobHash>, Seq<(BlobHash, PayloadState)>), ApplyError>(ApplyError::UnknownCommitment(result.commitment, batch)));
                            lemma_plan_error_persists(results0, old_round.downloads, round_witnesses, quorum, batch_ids@, b + 1);
                        }
                        return Err(ApplyError::UnknownCommitment(result.commitment, batch));
                    },
                    Some(k) => {
                        proof {
                            crate::client_round::lemma_key_index_pub(payloads@, hash, k as int);
                        }
                        match payloads[k].1 {
                            PayloadState::Deserializing(true) => {
                                let ghost before = payloads@;
                                payloads.remove(k);
                                taken.push(hash);
                                proof {
                                    let d = payloads@;
                                    assert forall|x: int, y: int| 0 <= x < d.len() && 0 <= y < d.len() && (#[trigger] d[x]).0 == (#[trigger] d[y]).0 implies x == y by {
                                        let xx = if x < k { x } else { x + 1 };
                                        let yy = if y < k { y } else { y + 1 };
                                        assert(before[xx].0 == before[yy].0);
                                    }
                                }
                            },
                            PayloadState::Deserializing(false) => {
                                proof {
                                    lemma_plan_error_persists(results0, old_round.downloads, round_witnesses, quorum, batch_ids@, b + 1);
                                }
                                return Err(ApplyError::DidNotFinishDeserializingCommitment(result.commitment, batch));
                            },
                            PayloadState::Downloading(..) => {
                                proof {
                                    lemma_plan_error_persists(results0, old_round.downloads, round_witnesses, quorum, batch_ids@, b + 1);
                                }
                                return Err(ApplyError::DidNotBeginDownloadingCommitment(result.commitment, batch));
                            },
                        }
                    },
                }
            },
        }
        b += 1;
    }
    assert(batch_ids@.take(batch_ids@.len() as int) =~= batch_ids@);
    Ok(Some(taken))
}

/// The witness proof that a selection gives client `i`.
pub open spec fn witness_proof_for(cs: SelectionView, i: nat) -> WitnessProof {
    WitnessProof { witness: cs.is_witness(i), position: cs.witness_position(i) as u64, index: i as u64 }
}

/// The round state a training step starts from: the current round's height, no
/// payloads, results or counts yet, the current round's data assignment, the
/// blooms only if this client witnesses, this client's proofs under the current
/// round's selection, and the batches it awaits.
pub open spec fn training_round(
    c: CoordinatorView,
    cs: CommitteeSelection,
    client_index: u64,
    blooms: Option<(Bloom, Bloom)>,
    awaited: Seq<BatchId>,
) -> RoundStateView {
    let sel = cs@;
    RoundStateView {
        height: c.cur().height,
        sent_witness: false,
        downloads: Seq::empty(),
        results: Seq::empty(),
        commitments_per_client: Seq::empty(),
        data_assignments: assignment_for_round(c, c.cur(), sel),
        blooms: if sel.is_witness(client_index as nat) {
            blooms
        } else {
            None
        },
        committee_info: Some((proof_for(sel, client_index as nat), witness_proof_for(sel, client_index as nat), cs)),
        batch_ids_not_yet_trained_on: Some((awaited.len() as usize, awaited)),
    }
}

/// The round state a training step starts from; the blooms are kept only if this
/// client witnesses this round.
pub fn start_training_round(
    state: &Coordinator,
    client_index: u64,
    blooms: Option<(Bloom, Bloom)>,
    awaited: Vec<BatchId>,
) -> (r: RoundState)
    requires
        state.inv(),
        selection_fits(state@.config, state@.cur()),
        assignment_fits(state@, state@.cur(), selection_for(state@.config, state@.cur())),
        client_index < state@.cur().clients_len,
        blooms matches Some((p, o)) ==> p.wf() && o.wf(),
        batches_unique(awaited@),
    ensures
        r@.committee_info matches Some((_, _, cs)) && cs@ == selection_for(state@.config, state@.cur())
            && r@ == training_round(state@, cs, client_index, blooms, awaited@),
        r@.wf(),
{
    let cs = match CommitteeSelection::from_coordinator(state, false) {
        Ok(cs) => cs,
        Err(_) => {
            proof {
                assert(state@.round_slot(false) is Some);
            }
            return RoundState::new();
        },
    };
    let committee_proof = cs.get_committee(client_index);
    let witness_proof = cs.get_witness(client_index);
    let round = state.current_round_unchecked();
    let data_assignments = crate::data_selection::assign_data_for_state(state, &cs);
    let n = awaited.len();
    let kept_blooms = if witness_proof.witness {
        blooms
    } else {
        None
    };
    let r = RoundState {
        height: round.height,
        sent_witness: false,
        downloads: Vec::new(),
        results: Vec::new(),
        commitments_per_client: Vec::new(),
        data_assignments,
        blooms: kept_blooms,
        committee_info: Some((committee_proof, witness_proof, cs)),
        batch_ids_not_yet_trained_on: Some((n, awaited)),
    };
    proof {
        assert(r@ =~= training_round(state@, cs, client_index, blooms, awaited@));
        lemma_assignment_keys_unique(state@, state@.cur(), cs@);
    }
    r
}

/// How long to wait before the next try at fetching a batch after `retry_count`
/// failed tries: one second, doubling with each further failure; after five
/// failed tries the fetch gives up.
pub open spec fn fetch_retry_delay_ms(retry_count: u32) -> Option<u64> {
    if retry_count < 5 {
        Some((1000 * vstd::arithmetic::power2::pow2(retry_count as nat)) as u64)
    } else {
        None
    }
}

/// The wait before the next try at fetching a batch, or `None` to give up.
pub fn fetch_retry_delay(retry_count: u32) -> (r: Option<u64>)
    ensures
        r == fetch_retry_delay_ms(retry_count),
{
    if retry_count < 5 {
        let mut delay: u64 = 1000;
        let mut k: u32 = 0;
        proof {
            vstd::arithmetic::power2::lemma2_to64();
        }
        while k < retry_count
            invariant
                k <= retry_count < 5,
                delay == 1000 * vstd::arithmetic::power2::pow2(k as nat),
            decreases retry_count - k,
        {
            proof {
                vstd::arithmetic::power2::lemma_pow2_unfold((k + 1) as nat);
                vstd::arithmetic::power2::lemma_pow2_strictly_increases(k as nat, 4);
                vstd::arithmetic::power2::lemma2_to64();
            }
            delay = delay * 2;
            k += 1;
        }
        Some(delay)
    } else {
        None
    }
}

/// How many micro-batches a training batch splits into, or `None` when the
/// micro-batch size does not divide the batch (the trainer then stops).
pub open spec fn grad_accum_steps_spec(batch_len: nat, micro_batch_size: nat) -> Option<nat> {
    if batch_len % micro_batch_size != 0 {
        None
    } else {
        Some(batch_len / micro_batch_size)
    }
}

/// Splits a training batch into micro-batches for gradient accumulation.
pub fn grad_accum_steps(batch_len: usize, micro_batch_size: usize) -> (r: Option<usize>)
    requires
        micro_batch_size > 0,
    ensures
        match grad_accum_steps_spec(batch_len as nat, micro_batch_size as nat) {
            Some(n) => r == Some(n as usize),
            None => r is None,
        },
{
    if batch_len % micro_batch_size != 0 {
        None
    } else {
        Some(batch_len / micro_batch_size)
    }
}

/// How many entries a compressed update keeps: the start-up count during the first
/// `startup_steps` steps, the regular count after them.
pub fn compression_topk(step: u32, startup_steps: u32, startup_topk: i64, topk: i64) -> (r: i64)
    ensures
        r == if step <= startup_steps { startup_topk } else { topk },
{
    if step <= startup_steps {
        startup_topk
    } else {
        topk
    }
}

} // verus!
