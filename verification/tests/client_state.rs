use psyche::bloom::Bloom;
use psyche::client_round::{ClientRounds, DistroOutcome, MessageOutcome, PayloadState, TrainingResult};
use psyche::client_steps::{client_index, next_init_action, next_step, ActiveStep, InitAction, InitStage, StepError, StepTransition};
use psyche::committee_selection::{Committee, CommitteeSelection};
use psyche::coordinator::{Client, RunState};
use psyche::data_selection::BatchId;
use psyche::client_loop::{DownloadRetries, RetryDecision};
use psyche::client_loop::{bootstrap_plan, next_rebroadcast_index, pruning_for, BlobPruning};
use psyche::client_steps::{device_for, group_models, is_checkpoint_extra_file, DevicePlacement};
use sha2::Digest;

fn node(i: u8) -> [u8; 32] {
    let mut a = [0u8; 32];
    a[0] = i;
    a
}

fn digest(bytes: &[u8]) -> [u8; 32] {
    sha2::Sha256::digest(bytes).into()
}

fn keyed_bloom() -> Bloom {
    Bloom::with_keys(512, [3, 17, 99, 12345, 0, 0, 0, 0], 4)
}

const B0: BatchId = BatchId { start: 0, end: 15 };
const B1: BatchId = BatchId { start: 16, end: 31 };

fn rounds() -> (ClientRounds, CommitteeSelection, Vec<Client>) {
    let cs = CommitteeSelection::new(0, 0, 0, 2, 99);
    let mut r = ClientRounds::new(node(1));
    r.current_round.data_assignments = vec![(B0, node(2)), (B1, node(1))];
    r.current_round.committee_info = Some((cs.get_committee(0), cs.get_witness(0), cs));
    r.current_round.blooms = Some((keyed_bloom(), keyed_bloom()));
    r.current_round.batch_ids_not_yet_trained_on = Some((2, vec![B0, B1]));
    let clients = vec![Client::new(node(1)), Client::new(node(2))];
    (r, cs, clients)
}

fn result_from(cs: &CommitteeSelection, index: u64, batch: BatchId, ticket: u8) -> TrainingResult {
    TrainingResult {
        step: 1,
        batch_id: batch,
        commitment: [ticket; 32],
        ticket_hash: [ticket.wrapping_add(100); 32],
        proof: cs.get_committee(index),
        nonce: 0,
    }
}

#[test]
fn gossiped_results_are_checked_and_recorded() {
    let (mut r, cs, clients) = rounds();
    let res = result_from(&cs, 1, B0, 1);
    assert_eq!(res.proof.committee, Committee::Trainer);
    assert_eq!(r.apply_message(&node(2), res, &clients), MessageOutcome::Accepted(true));
    assert_eq!(r.current_round.results.len(), 1);
    assert_eq!(r.current_round.commitments_per_client, vec![(node(2), 1)]);
    assert_eq!(r.current_round.downloads.len(), 1);
    // the same payload again
    assert_eq!(r.apply_message(&node(2), res, &clients), MessageOutcome::AlreadyDownloading);
    // a batch assigned to someone else
    let wrong = result_from(&cs, 1, B1, 2);
    assert_eq!(r.apply_message(&node(2), wrong, &clients), MessageOutcome::NotAssignee);
    // a proof for another client's index
    let forged = result_from(&cs, 0, B0, 3);
    assert_eq!(r.apply_message(&node(2), forged, &clients), MessageOutcome::CommitteeRejected);
    // a batch no round assigns
    let unknown = result_from(&cs, 1, BatchId { start: 100, end: 110 }, 4);
    assert_eq!(r.apply_message(&node(2), unknown, &clients), MessageOutcome::UnknownBatch);
    // this client's own result needs no download
    let own = result_from(&cs, 0, B1, 5);
    assert_eq!(r.apply_message(&node(1), own, &clients), MessageOutcome::Accepted(false));
    assert_eq!(r.current_round.results.len(), 2);
}

#[test]
fn results_go_to_the_previous_round_when_it_assigns_the_batch() {
    let (mut r, cs, clients) = rounds();
    r.previous_round.data_assignments = vec![(BatchId { start: 100, end: 110 }, node(2))];
    r.previous_round.committee_info = r.current_round.committee_info;
    let res = result_from(&cs, 1, BatchId { start: 100, end: 110 }, 7);
    assert_eq!(r.apply_message(&node(2), res, &clients), MessageOutcome::Accepted(true));
    assert_eq!(r.previous_round.results.len(), 1);
    assert_eq!(r.current_round.results.len(), 0);
}

#[test]
fn payloads_vote_in_the_blooms() {
    let (mut r, cs, clients) = rounds();
    let res = result_from(&cs, 1, B0, 1);
    r.apply_message(&node(2), res, &clients);
    let hash = res.ticket_hash;
    assert_eq!(r.apply_distro_result(&hash), DistroOutcome::Stored(B0, false));
    let (participants, order) = r.current_round.blooms.unwrap();
    assert!(participants.contains(&digest(&node(2))));
    assert!(order.contains(&digest(&res.commitment)));
    assert_eq!(r.current_round.batch_ids_not_yet_trained_on.as_ref().unwrap().1, vec![B1]);
    assert_eq!(r.current_round.batch_ids_not_yet_trained_on.as_ref().unwrap().0, 1);
    assert!(matches!(r.current_round.downloads[0].1, PayloadState::Deserializing(false)));
    assert_eq!(r.apply_distro_result(&hash), DistroOutcome::AlreadyDeserializing);
    assert_eq!(r.apply_distro_result(&[9u8; 32]), DistroOutcome::UnknownDownload);
    // the last awaited batch ends the wait
    let own = result_from(&cs, 0, B1, 5);
    r.apply_message(&node(1), own, &clients);
    assert_eq!(r.apply_distro_result(&own.ticket_hash), DistroOutcome::Stored(B1, true));
    assert!(r.current_round.batch_ids_not_yet_trained_on.is_none());
}

#[test]
fn early_witness_waits_for_previous_payloads() {
    let (mut r, cs, clients) = rounds();
    assert!(r.opportunistic_witness_ready(true));
    assert!(!r.opportunistic_witness_ready(false));
    r.previous_round.data_assignments = vec![(BatchId { start: 100, end: 110 }, node(2))];
    r.previous_round.committee_info = r.current_round.committee_info;
    let res = result_from(&cs, 1, BatchId { start: 100, end: 110 }, 7);
    r.apply_message(&node(2), res, &clients);
    assert!(!r.opportunistic_witness_ready(true));
    assert_eq!(r.apply_distro_result(&res.ticket_hash), DistroOutcome::Stored(BatchId { start: 100, end: 110 }, false));
    assert!(!r.opportunistic_witness_ready(true));
    r.mark_deserialized(&res.ticket_hash);
    assert!(r.opportunistic_witness_ready(true));
}

#[test]
fn witness_is_sent_once() {
    let (mut r, _cs, _clients) = rounds();
    let w = r.current_round.get_witness_to_send().unwrap();
    assert!(w.proof.witness);
    assert!(r.current_round.sent_witness);
    assert!(r.current_round.get_witness_to_send().is_none());
}

#[test]
fn step_transitions_follow_the_run_state() {
    assert_eq!(next_step(ActiveStep::Warmup, Some(0), RunState::RoundTrain), Ok(StepTransition::StartTraining));
    assert_eq!(next_step(ActiveStep::Training, Some(0), RunState::RoundWitness), Ok(StepTransition::StartWitness));
    assert_eq!(next_step(ActiveStep::Witness, Some(0), RunState::RoundTrain), Ok(StepTransition::StartTraining));
    assert_eq!(next_step(ActiveStep::Witness, Some(0), RunState::Cooldown), Ok(StepTransition::StartCooldown));
    assert_eq!(next_step(ActiveStep::Cooldown, Some(0), RunState::Warmup), Ok(StepTransition::StartWarmup));
    assert_eq!(next_step(ActiveStep::Training, Some(0), RunState::RoundTrain), Ok(StepTransition::Stay));
    assert_eq!(
        next_step(ActiveStep::Training, Some(0), RunState::Cooldown),
        Err(StepError::Desync { active_step: ActiveStep::Training, run_state: RunState::Cooldown })
    );
    assert_eq!(next_step(ActiveStep::Training, None, RunState::RoundTrain), Ok(StepTransition::StartWarmup));
    assert_eq!(next_step(ActiveStep::Warmup, None, RunState::RoundTrain), Ok(StepTransition::Stay));
    assert!(ActiveStep::Warmup.allowed_in_run_state(RunState::WaitingForMembers));
    assert!(!ActiveStep::Cooldown.allowed_in_run_state(RunState::Warmup));
    assert_eq!(ActiveStep::Witness.to_string(), "Witness");
}

#[test]
fn run_manager_waits_for_warmup_and_initialization() {
    assert_eq!(next_init_action(InitStage::NotYetInitialized(true), RunState::Warmup), InitAction::StartInit);
    assert_eq!(next_init_action(InitStage::NotYetInitialized(true), RunState::RoundTrain), InitAction::Wait);
    assert_eq!(next_init_action(InitStage::Initializing(true), RunState::WaitingForMembers), InitAction::Wait);
    assert_eq!(next_init_action(InitStage::Initializing(false), RunState::Warmup), InitAction::Wait);
    assert_eq!(next_init_action(InitStage::Initializing(true), RunState::Warmup), InitAction::FinishInit);
    assert_eq!(next_init_action(InitStage::Running, RunState::Cooldown), InitAction::Apply);
}

#[test]
fn client_index_is_first_match() {
    let clients = vec![Client::new(node(3)), Client::new(node(1)), Client::new(node(1))];
    assert_eq!(client_index(&clients, &node(1)), Some(1));
    assert_eq!(client_index(&clients, &node(9)), None);
}

#[test]
fn failed_downloads_back_off_then_give_up() {
    let mut r = DownloadRetries::new();
    let h = [7u8; 32];
    assert_eq!(r.on_download_failed(&h, 4, 1000), RetryDecision::RetryAfter(2000));
    assert_eq!(r.entries[0].1.retry_at_ms, Some(3000));
    assert!(r.take_due(2999).is_empty());
    assert_eq!(r.take_due(3000), vec![(h, 4)]);
    assert!(r.take_due(5000).is_empty());
    assert_eq!(r.on_download_failed(&h, 4, 5000), RetryDecision::RetryAfter(4000));
    assert_eq!(r.on_download_failed(&h, 4, 9000), RetryDecision::RetryAfter(8000));
    assert_eq!(r.entries[0].1.retries, 3);
    assert_eq!(r.on_download_failed(&h, 4, 17000), RetryDecision::GiveUp);
    assert!(r.entries.is_empty());
    assert_eq!(r.on_download_failed(&h, 4, 0), RetryDecision::RetryAfter(2000));
    assert!(r.on_download_complete(&h));
    assert!(!r.on_download_complete(&h));
}

#[test]
fn bootstrap_and_pruning_decisions() {
    let participants = [node(1), node(2), node(3), node(4)];
    let plan = bootstrap_plan(&participants, &node(1), &[node(3)]);
    assert_eq!(plan.candidates, vec![node(2), node(4)]);
    assert_eq!(plan.count, 2);
    let outsider = bootstrap_plan(&participants, &node(9), &[]);
    assert!(outsider.candidates.is_empty());
    assert_eq!(outsider.count, 0);
    let full = bootstrap_plan(&participants, &node(1), &[node(5), node(6), node(7), node(8)]);
    assert_eq!(full.count, 0);
    assert_eq!(pruning_for(Some(RunState::Warmup), RunState::RoundTrain, 10), BlobPruning::BeforeStep(8));
    assert_eq!(pruning_for(None, RunState::RoundTrain, 1), BlobPruning::BeforeStep(0));
    assert_eq!(pruning_for(Some(RunState::RoundTrain), RunState::RoundTrain, 10), BlobPruning::Keep);
    assert_eq!(pruning_for(Some(RunState::RoundWitness), RunState::Cooldown, 10), BlobPruning::ClearBroadcasts);
    assert_eq!(next_rebroadcast_index(2, 3), 0);
    assert_eq!(next_rebroadcast_index(0, 3), 1);
}

#[test]
fn replicas_are_placed_on_devices() {
    assert_eq!(device_for(0, 0, 1), DevicePlacement::CudaIfAvailable);
    assert_eq!(device_for(2, 0, 1), DevicePlacement::Cuda(2));
    assert_eq!(device_for(1, 1, 2), DevicePlacement::Cuda(3));
    assert_eq!(device_for(0, 1, 4), DevicePlacement::Cuda(1));
    assert!(is_checkpoint_extra_file("tokenizer.json"));
    assert!(is_checkpoint_extra_file("config.json"));
    assert!(!is_checkpoint_extra_file("model.safetensors"));
    assert!(!is_checkpoint_extra_file("my_config.json"));
}

#[test]
fn loaded_models_are_grouped_for_tensor_parallelism() {
    assert_eq!(group_models(vec![1, 2, 3, 4, 5], 2), vec![vec![1, 2], vec![3, 4], vec![5]]);
    assert_eq!(group_models(vec![1, 2, 3, 4], 2), vec![vec![1, 2], vec![3, 4]]);
    assert_eq!(group_models(vec![1, 2, 3], 1), vec![vec![1], vec![2], vec![3]]);
    assert_eq!(group_models(Vec::<u8>::new(), 4), Vec::<Vec<u8>>::new());
    // a group size of zero keeps everything together
    assert_eq!(group_models(vec![1, 2, 3], 0), vec![vec![1, 2, 3]]);
}
