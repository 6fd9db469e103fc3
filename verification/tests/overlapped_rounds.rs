use psyche::bloom::Bloom;
use psyche::committee_selection::{Committee, CommitteeSelection};
use psyche::coordinator::Client;
use psyche::data_selection::BatchId;
use psyche::overlapped_client::{
    skips_apply, OverlapContext, OverlapRounds, StepBroadcast, StepPayload, StepPayloadError, StepPayloadOutcome,
    StepResult, StepRetries, StepRound,
};
use psyche::overlapped_phases::{
    checkpoint_report, cooldown_action, phase_tick, train_entry, training_done, warmup_action, CheckpointReport,
    CooldownAction, CooldownError, EnterWarmupError, PhaseTick, TrainEntry, TrainEntryError, TrainEntryFacts,
    WarmupAction,
};
use psyche::coordinator::RunState;
use sha2::Digest;

fn node(i: u8) -> [u8; 32] {
    let mut a = [0u8; 32];
    a[0] = i;
    a
}

fn digest(bytes: &[u8]) -> [u8; 32] {
    sha2::Sha256::digest(bytes).into()
}

fn keyed_bloom() -> Bloom {
    Bloom::with_keys(512, [3, 17, 99, 12345, 0, 0, 0, 0], 4)
}

fn ctx(step: u32, overlapped: bool, greedy: bool) -> OverlapContext {
    OverlapContext {
        step,
        overlapped,
        greedy_data: greedy,
        max_batches_per_client: 1,
        data_indicies_per_batch: 4,
    }
}

fn clients() -> Vec<Client> {
    vec![Client::new(node(1)), Client::new(node(2))]
}

/// Two rounds for client 1; in the current one client 2 trains data 0..=3 and
/// client 1 trains 4..=7, and client 1 witnesses.
fn rounds() -> (OverlapRounds, CommitteeSelection) {
    let cs = CommitteeSelection::new(0, 0, 0, 2, 99);
    let mut r = OverlapRounds::new(node(1));
    r.begin_round(
        false,
        1,
        0,
        cs,
        vec![(BatchId { start: 0, end: 3 }, node(2)), (BatchId { start: 4, end: 7 }, node(1))],
        vec![0, 1],
        (keyed_bloom(), keyed_bloom(), keyed_bloom()),
    );
    (r, cs)
}

fn result(cs: &CommitteeSelection, step: u32, index: u64, batch: u64, ticket: u8) -> StepResult {
    StepResult {
        step,
        batch_id: batch,
        commitment: [ticket; 32],
        ticket_hash: [ticket.wrapping_add(100); 32],
        proof: cs.get_committee(index),
    }
}

#[test]
fn results_are_checked_against_the_data_assignment() {
    let (mut r, cs) = rounds();
    let c = ctx(5, false, false);
    let res = result(&cs, 5, 1, 0, 1);
    assert_eq!(res.proof.committee, Committee::Trainer);
    let got = r.handle_broadcast_from_identity(c, &node(2), Some(node(2)), StepBroadcast::TrainingResult(res), &clients());
    assert_eq!(got, Some(res.ticket_hash));
    assert_eq!(r.current_round.results.len(), 1);
    assert_eq!(r.current_round.commitments_per_client, vec![(node(2), 1)]);
    assert!(matches!(r.current_round.downloads[0].1, StepPayload::Downloading(_, 0, _)));
    // the same payload again
    let again = r.handle_broadcast_from_identity(c, &node(2), Some(node(2)), StepBroadcast::TrainingResult(res), &clients());
    assert_eq!(again, None);
    assert_eq!(r.current_round.results.len(), 1);
    // batch 1 starts at data index 4, which client 1 trains
    let wrong = result(&cs, 5, 1, 1, 2);
    assert_eq!(r.handle_broadcast_from_identity(c, &node(2), None, StepBroadcast::TrainingResult(wrong), &clients()), None);
    // a proof for another client's slot
    let forged = result(&cs, 5, 0, 0, 3);
    assert_eq!(r.handle_broadcast_from_identity(c, &node(2), Some(node(2)), StepBroadcast::TrainingResult(forged), &clients()), None);
    // this client's own result is recorded but not fetched
    let own = result(&cs, 5, 0, 1, 4);
    assert_eq!(r.handle_broadcast_from_identity(c, &node(1), None, StepBroadcast::TrainingResult(own), &clients()), None);
    assert_eq!(r.current_round.results.len(), 2);
}

#[test]
fn taken_results_vote_in_the_witness_blooms() {
    let (mut r, cs) = rounds();
    let res = result(&cs, 5, 1, 0, 1);
    r.handle_broadcast_from_identity(ctx(5, false, false), &node(2), None, StepBroadcast::TrainingResult(res), &clients());
    let (commits, participants, order) = r.current_round.blooms.unwrap();
    assert!(commits.contains(&digest(&res.commitment)));
    assert!(participants.contains(&digest(&node(2))));
    assert!(order.contains(&digest(&res.commitment)));
}

#[test]
fn greedy_data_caps_results_per_client() {
    let (mut r, cs) = rounds();
    let c = ctx(5, false, true);
    // with greedy data any batch is fine, up to the cap of one per client
    let first = result(&cs, 5, 1, 1, 1);
    assert!(r.handle_broadcast_from_identity(c, &node(2), None, StepBroadcast::TrainingResult(first), &clients()).is_some());
    let second = result(&cs, 5, 1, 0, 2);
    assert_eq!(r.handle_broadcast_from_identity(c, &node(2), None, StepBroadcast::TrainingResult(second), &clients()), None);
    assert_eq!(r.current_round.commitments_per_client, vec![(node(2), 1)]);
}

#[test]
fn results_are_routed_by_step() {
    let (mut r, cs) = rounds();
    r.previous_round.data_assignments = vec![(BatchId { start: 0, end: 3 }, node(2))];
    let res = result(&cs, 4, 1, 0, 1);
    // without overlap a result from an earlier step is dropped
    assert_eq!(r.handle_broadcast_from_identity(ctx(5, false, false), &node(2), None, StepBroadcast::TrainingResult(res), &clients()), None);
    assert!(r.previous_round.results.is_empty());
    // with overlap it goes to the previous round
    assert_eq!(r.handle_broadcast_from_identity(ctx(5, true, false), &node(2), None, StepBroadcast::TrainingResult(res), &clients()), Some(res.ticket_hash));
    assert_eq!(r.previous_round.results.len(), 1);
    assert!(r.current_round.results.is_empty());
    // two steps back it is dropped even with overlap
    let old = result(&cs, 3, 1, 0, 2);
    assert_eq!(r.handle_broadcast_from_identity(ctx(5, true, false), &node(2), None, StepBroadcast::TrainingResult(old), &clients()), None);
    // an announcement names its blob unless it is this client's own
    assert_eq!(r.handle_broadcast_from_identity(ctx(5, true, false), &node(2), None, StepBroadcast::PeerAnnouncement([7; 32]), &clients()), Some([7; 32]));
    assert_eq!(r.handle_broadcast_from_identity(ctx(5, true, false), &node(1), None, StepBroadcast::PeerAnnouncement([7; 32]), &clients()), None);
}

#[test]
fn payloads_are_stored_once_and_tracked() {
    let (mut r, cs) = rounds();
    let c = ctx(5, false, false);
    let res = result(&cs, 5, 1, 0, 1);
    r.handle_broadcast_from_identity(c, &node(2), None, StepBroadcast::TrainingResult(res), &clients());
    assert_eq!(r.handle_payload(&res.ticket_hash), Ok(StepPayloadOutcome::Stored(false, 1)));
    assert_eq!(r.current_round.batch_ids_not_yet_trained_on, Some(vec![1]));
    assert!(matches!(r.current_round.downloads[0].1, StepPayload::Deserializing));
    assert_eq!(r.handle_payload(&res.ticket_hash), Ok(StepPayloadOutcome::AlreadyDeserializing));
    assert_eq!(r.handle_payload(&[9; 32]), Ok(StepPayloadOutcome::UnknownDownload));
    let own = result(&cs, 5, 0, 1, 4);
    r.handle_broadcast_from_identity(c, &node(1), None, StepBroadcast::TrainingResult(own), &clients());
    assert_eq!(r.handle_payload(&own.ticket_hash), Ok(StepPayloadOutcome::Stored(true, 0)));
    assert_eq!(r.current_round.batch_ids_not_yet_trained_on, Some(vec![]));
}

#[test]
fn payload_without_own_proofs_is_an_error() {
    let mut round = StepRound::new();
    let res = StepResult {
        step: 0,
        batch_id: 0,
        commitment: [1; 32],
        ticket_hash: [2; 32],
        proof: CommitteeSelection::new(0, 0, 0, 1, 1).get_committee(0),
    };
    round.results.push((node(2), res));
    round.downloads.push(([2; 32], StepPayload::Downloading(node(2), 0, [2; 32])));
    assert_eq!(round.store_payload(&[2; 32]), Err(StepPayloadError::NoSelfProofs));
    // a download without its result is no commitment
    round.downloads.push(([3; 32], StepPayload::Downloading(node(2), 0, [3; 32])));
    assert_eq!(round.store_payload(&[3; 32]), Ok(StepPayloadOutcome::NoCommitment));
}

#[test]
fn witnesses_are_sent_once_from_the_right_round() {
    let (mut r, _cs) = rounds();
    // not ready before training finished
    assert!(r.opportunistic_witness(true, false, false, false).is_none());
    // not ready while payloads are still outstanding
    assert!(r.opportunistic_witness(true, true, false, false).is_none());
    r.current_round.all_batches_finished_deserializing = true;
    let w = r.opportunistic_witness(true, true, false, false).unwrap();
    assert_eq!(w.index, 0);
    assert!(w.proof.witness);
    assert!(r.current_round.sent_witness);
    assert!(r.round_witness(false, 0).is_none());
    // with overlap the witness phase reports the previous round
    let cs = r.current_round.committee_info.unwrap().2;
    r.begin_round(true, 2, 0, cs, vec![], vec![], (keyed_bloom(), keyed_bloom(), keyed_bloom()));
    assert!(r.previous_round.sent_witness);
    assert!(r.round_witness(true, 0).is_none());
    assert!(!r.current_round.sent_witness);
    assert!(r.round_witness(false, 0).is_some());
}

#[test]
fn starting_a_step_rotates_the_rounds() {
    let (mut r, cs) = rounds();
    r.current_round.sent_witness = true;
    r.current_round.height = 0;
    r.begin_round(true, 1, 1, cs, vec![], vec![3], (keyed_bloom(), keyed_bloom(), keyed_bloom()));
    // the warm-up round of an overlapping run sends its witness again
    assert!(!r.previous_round.sent_witness);
    assert_eq!(r.previous_round.data_assignments.len(), 2);
    assert_eq!(r.current_round.height, 1);
    assert_eq!(r.current_round.batch_ids_not_yet_trained_on, Some(vec![3]));
    let (committee, witness, _) = r.current_round.committee_info.unwrap();
    assert_eq!(committee.index, 1);
    assert_eq!(witness.index, 1);
    assert!(r.current_round.results.is_empty());
    // the inputs to apply come from the previous round when rounds overlap
    let (downloads, results) = r.take_apply_inputs(true);
    assert!(downloads.is_empty() && results.is_empty());
    assert!(skips_apply(true, false, 7));
    assert!(skips_apply(false, true, 1));
    assert!(!skips_apply(false, true, 2));
    assert!(!skips_apply(false, false, 1));
}

#[test]
fn coordinator_states_enter_each_phase_once() {
    assert_eq!(phase_tick(false, None, RunState::Warmup), (PhaseTick::NotMember, None));
    assert_eq!(phase_tick(true, None, RunState::WaitingForMembers), (PhaseTick::Nothing, Some(RunState::WaitingForMembers)));
    assert_eq!(phase_tick(true, None, RunState::Warmup), (PhaseTick::Enter(RunState::Warmup), Some(RunState::Warmup)));
    assert_eq!(phase_tick(true, Some(RunState::Warmup), RunState::Warmup), (PhaseTick::Nothing, Some(RunState::Warmup)));
    assert_eq!(
        phase_tick(true, Some(RunState::Warmup), RunState::RoundTrain),
        (PhaseTick::Enter(RunState::RoundTrain), Some(RunState::RoundTrain))
    );
    assert_eq!(phase_tick(true, Some(RunState::RoundTrain), RunState::RoundTrain), (PhaseTick::Nothing, Some(RunState::RoundTrain)));
    // a client that joins mid-round has missed warmup and forgets what it saw
    assert_eq!(phase_tick(true, None, RunState::RoundWitness), (PhaseTick::MissedWarmup, None));
    assert_eq!(phase_tick(true, None, RunState::Cooldown), (PhaseTick::MissedWarmup, None));
}

#[test]
fn phase_entry_decisions() {
    assert_eq!(warmup_action(false, false, false), Ok(WarmupAction::NoModel));
    assert_eq!(warmup_action(true, true, true), Ok(WarmupAction::StartEvals));
    assert_eq!(warmup_action(true, false, true), Err(EnterWarmupError::ApplyStillRunning));
    assert_eq!(warmup_action(true, false, false), Ok(WarmupAction::LoadModel));
    assert_eq!(cooldown_action(false, false, 0), Ok(CooldownAction::StartEvals));
    assert_eq!(cooldown_action(true, false, 9), Err(CooldownError::NoAvailableTrainersForCheckpointing));
    assert_eq!(cooldown_action(true, true, 9), Ok(CooldownAction::Checkpoint(8)));
    let facts = TrainEntryFacts {
        nothing_loaded: true,
        load_started: true,
        load_finished: true,
        evals_running: false,
        checkpointing: false,
        has_round: true,
        round_height: 1,
        first_round: false,
        overlapped: true,
        witnessed_previous: Some(true),
    };
    assert_eq!(train_entry(facts), Ok(TrainEntry { take_loaded_model: true, skip_apply: true, health_check: true }));
    assert_eq!(train_entry(TrainEntryFacts { load_started: false, ..facts }), Err(TrainEntryError::DataModelLoadNotStarted));
    assert_eq!(train_entry(TrainEntryFacts { load_finished: false, ..facts }), Err(TrainEntryError::DataModelLoadUnfinished));
    assert_eq!(train_entry(TrainEntryFacts { evals_running: true, ..facts }), Err(TrainEntryError::EvalsStillRunning));
    assert_eq!(train_entry(TrainEntryFacts { checkpointing: true, ..facts }), Err(TrainEntryError::CheckpointingStillRunning));
    assert_eq!(train_entry(TrainEntryFacts { has_round: false, ..facts }), Err(TrainEntryError::NoActiveRound));
    assert_eq!(train_entry(TrainEntryFacts { witnessed_previous: None, ..facts }), Err(TrainEntryError::NoCommitteeInfo));
    assert_eq!(
        train_entry(TrainEntryFacts { nothing_loaded: false, load_started: false, round_height: 3, witnessed_previous: Some(false), ..facts }),
        Ok(TrainEntry { take_loaded_model: false, skip_apply: false, health_check: false })
    );
    assert_eq!(
        train_entry(TrainEntryFacts { first_round: true, witnessed_previous: None, ..facts }),
        Ok(TrainEntry { take_loaded_model: true, skip_apply: true, health_check: false })
    );
}

#[test]
fn training_results_commit_to_the_batch() {
    let (r, cs) = rounds();
    let res = r.training_result(5, 9, [4; 32]).unwrap();
    let mut bytes = node(1).to_vec();
    bytes.extend_from_slice(&9u64.to_be_bytes());
    assert_eq!(res.commitment, digest(&bytes));
    assert_eq!(res.proof, cs.get_committee(0));
    assert_eq!((res.step, res.batch_id, res.ticket_hash), (5, 9, [4; 32]));
    let empty = OverlapRounds::new(node(1));
    assert_eq!(empty.training_result(5, 9, [4; 32]).err(), Some(StepPayloadError::NoSelfProofs));
    assert!(training_done(false, 2, 2, false, Some(true)));
    assert!(training_done(false, 2, 2, false, None));
    assert!(!training_done(false, 2, 2, false, Some(false)));
    assert!(!training_done(false, 1, 2, false, Some(true)));
    assert!(!training_done(false, 2, 2, true, Some(true)));
    assert!(!training_done(true, 2, 2, false, Some(true)));
    assert_eq!(checkpoint_report(&[node(3), node(1)], &node(1), true), CheckpointReport::Hub);
    assert_eq!(checkpoint_report(&[node(3), node(1)], &node(1), false), CheckpointReport::Nothing);
    assert_eq!(checkpoint_report(&[node(3)], &node(1), true), CheckpointReport::Nothing);
}

#[test]
fn failed_downloads_are_retried_three_times() {
    let (mut r, cs) = rounds();
    let res = result(&cs, 5, 1, 0, 1);
    r.handle_broadcast_from_identity(ctx(5, false, false), &node(2), None, StepBroadcast::TrainingResult(res), &clients());
    let hash = res.ticket_hash;
    let mut retries = StepRetries::new();
    for n in 1..=3usize {
        assert_eq!(r.retry_failed_download(&mut retries, &hash), Some(hash));
        assert_eq!(retries.counts, vec![(hash, n)]);
    }
    // the fourth failure is given up
    assert_eq!(r.retry_failed_download(&mut retries, &hash), None);
    assert_eq!(retries.counts, vec![(hash, 3)]);
    // a download the rounds do not know is not retried
    assert_eq!(r.retry_failed_download(&mut retries, &[9; 32]), None);
    // nor one already handed over for deserializing
    retries.download_completed(&hash);
    assert!(retries.counts.is_empty());
    r.handle_payload(&hash).unwrap();
    assert_eq!(r.retry_failed_download(&mut retries, &hash), None);
    // downloads of the previous round are retried too
    r.begin_round(false, 2, 0, cs, vec![], vec![], (keyed_bloom(), keyed_bloom(), keyed_bloom()));
    r.previous_round.downloads.push(([8; 32], StepPayload::Downloading(node(2), 1, [8; 32])));
    assert_eq!(r.retry_failed_download(&mut retries, &[8; 32]), Some([8; 32]));
}
