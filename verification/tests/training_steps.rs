use psyche::client_round::{ClientRounds, PayloadState, RoundState, TrainingResult};
use psyche::client_steps::{ActiveStep, StepError, StepMachine, StepTransition};
use psyche::client_training::{
    apply_results, compression_topk, fetch_retry_delay, grad_accum_steps, health_check_candidates, health_check_plan,
    start_training_round, ApplyError, TrainError,
};
use psyche::bloom::Bloom;
use psyche::committee_selection::Committee;
use psyche::coordinator::Witness;
use psyche::data_selection::assign_data_for_state;
use psyche::committee_selection::CommitteeSelection;
use psyche::coordinator::{
    Coordinator, CoordinatorConfig, CoordinatorEpochState, CoordinatorProgress, RunState, TickResult,
};
use psyche::data_selection::BatchId;
use psyche::model::{Model, LLM};

fn node(i: u8) -> [u8; 32] {
    let mut a = [0u8; 32];
    a[0] = i;
    a
}

fn coordinator() -> Coordinator {
    Coordinator {
        run_id: [0u8; 64],
        run_state: RunState::WaitingForMembers,
        model: Model::LLM(LLM::dummy()),
        config: CoordinatorConfig {
            warmup_time: 10,
            cooldown_time: 5,
            max_round_train_time: 20,
            round_witness_time: 5,
            min_clients: 2,
            batches_per_round: 4,
            data_indicies_per_batch: 8,
            verification_percent: 0,
            witness_nodes: 0,
            witness_quorum: 0,
            rounds_per_epoch: 3,
            total_steps: 100,
            overlapped: false,
            checkpointers: vec![],
        },
        progress: CoordinatorProgress::default(),
        prev_epoch_progress: CoordinatorProgress::default(),
        epoch_state: CoordinatorEpochState::default(),
        run_state_start_unix_timestamp: 0,
        tick: 0,
        last_tick_unix_timestamp: 0,
        last_step_unix_timestamp: 0,
    }
}

#[test]
fn fetch_retries_back_off_then_give_up() {
    assert_eq!(fetch_retry_delay(0), Some(1000));
    assert_eq!(fetch_retry_delay(1), Some(2000));
    assert_eq!(fetch_retry_delay(4), Some(16000));
    assert_eq!(fetch_retry_delay(5), None);
}

#[test]
fn health_checks_only_from_witnesses_after_the_first_round() {
    let cs = CommitteeSelection::new(0, 0, 0, 2, 1);
    let mut round = RoundState::new();
    assert_eq!(health_check_plan(true, &round, true), Ok(false));
    assert_eq!(health_check_plan(false, &round, true), Err(TrainError::NoCommitteeInfo));
    round.committee_info = Some((cs.get_committee(0), cs.get_witness(0), cs));
    assert_eq!(health_check_plan(false, &round, false), Err(TrainError::NoActiveRound));
    assert_eq!(health_check_plan(false, &round, true), Ok(true));
}

#[test]
fn nothing_is_applied_in_the_first_round() {
    let mut c = coordinator();
    let ids = [node(1), node(2)];
    assert_eq!(c.tick(Some(&ids), 100, 7), Ok(TickResult::Ticked));
    assert_eq!(c.tick(None, 110, 7), Ok(TickResult::Ticked));
    let mut round = RoundState::new();
    assert!(matches!(apply_results(&c, &mut round, &[]), Ok(None)));
}

#[test]
fn apply_takes_the_agreed_payloads() {
    let mut c = coordinator();
    let ids = [node(1), node(2)];
    c.tick(Some(&ids), 100, 7).unwrap();
    c.tick(None, 110, 7).unwrap();
    c.tick(None, 130, 7).unwrap();
    assert_eq!(c.run_state, RunState::RoundWitness);
    // pretend the next round has started without witnesses of the previous one
    c.epoch_state.first_round = false;
    c.epoch_state.rounds_head = 1;
    c.epoch_state.rounds[1].height = 1;
    c.epoch_state.rounds[1].clients_len = 2;
    c.run_state = RunState::RoundTrain;
    let cs = CommitteeSelection::new(0, 0, 0, 2, 1);
    let batch = BatchId { start: 0, end: 15 };
    let result = TrainingResult {
        step: 1,
        batch_id: batch,
        commitment: [4u8; 32],
        ticket_hash: [5u8; 32],
        proof: cs.get_committee(1),
        nonce: 0,
    };
    let mut round = RoundState::new();
    round.results.push((node(2), result));
    round.downloads.push(([5u8; 32], PayloadState::Deserializing(true)));
    // with no witnesses and quorum zero every commitment gets all (zero) votes
    let applied = apply_results(&c, &mut round, &[batch]).unwrap().unwrap();
    assert_eq!(applied, vec![[5u8; 32]]);
    assert!(round.downloads.is_empty());
    assert!(round.results.is_empty());

    let mut unfinished = RoundState::new();
    unfinished.results.push((node(2), result));
    unfinished.downloads.push(([5u8; 32], PayloadState::Deserializing(false)));
    assert!(matches!(
        apply_results(&c, &mut unfinished, &[batch]),
        Err(ApplyError::DidNotFinishDeserializingCommitment(_, b)) if b == batch
    ));
}

#[test]
fn micro_batches_must_divide_the_batch() {
    assert_eq!(grad_accum_steps(8, 2), Some(4));
    assert_eq!(grad_accum_steps(8, 8), Some(1));
    assert_eq!(grad_accum_steps(8, 3), None);
    assert_eq!(grad_accum_steps(0, 4), Some(0));
}

#[test]
fn compression_keeps_more_entries_at_start_up() {
    assert_eq!(compression_topk(1, 10, 64, 8), 64);
    assert_eq!(compression_topk(10, 10, 64, 8), 64);
    assert_eq!(compression_topk(11, 10, 64, 8), 8);
}

#[test]
fn a_training_round_starts_from_the_coordinator_round() {
    let mut c = coordinator();
    let ids = [node(1), node(2)];
    c.tick(Some(&ids), 100, 7).unwrap();
    c.tick(None, 110, 7).unwrap();
    let cs = CommitteeSelection::from_coordinator(&c, false).unwrap();
    let batch = BatchId { start: 0, end: 7 };
    let r = start_training_round(&c, 1, Some((Bloom::zeroed(), Bloom::zeroed())), vec![batch]);
    assert_eq!(r.height, c.current_round().unwrap().height);
    let (committee, witness, selection) = r.committee_info.unwrap();
    assert_eq!(committee, cs.get_committee(1));
    assert_eq!(witness, cs.get_witness(1));
    assert_eq!(selection.total_nodes, cs.total_nodes);
    // every client witnesses here, so the blooms are kept
    assert!(witness.witness);
    assert!(r.blooms.is_some());
    assert_eq!(r.data_assignments, assign_data_for_state(&c, &cs));
    assert_eq!(r.batch_ids_not_yet_trained_on, Some((1, vec![batch])));
    assert!(r.downloads.is_empty() && r.results.is_empty() && !r.sent_witness);
}

#[test]
fn unconfirmed_trainers_are_health_checked() {
    let mut c = coordinator();
    let ids = [node(1), node(2)];
    c.tick(Some(&ids), 100, 7).unwrap();
    c.tick(None, 110, 7).unwrap();
    c.tick(None, 130, 7).unwrap();
    c.epoch_state.first_round = false;
    c.epoch_state.rounds_head = 1;
    c.epoch_state.rounds[1].height = 1;
    c.epoch_state.rounds[1].clients_len = 2;
    c.run_state = RunState::RoundTrain;
    let previous = CommitteeSelection::from_coordinator(&c, true).unwrap();
    // no witnesses and no quorum: nothing to confirm, nobody is checked
    assert!(health_check_candidates(&c, &previous, &[], 0).is_empty());
    // a witness whose order bloom holds nothing confirms no trainer
    let empty = Bloom::with_keys(512, [3, 17, 99, 12345, 0, 0, 0, 0], 4);
    let w = Witness { proof: previous.get_witness(0), participant_bloom: empty, order_bloom: empty };
    let checks = health_check_candidates(&c, &previous, &[w], 0);
    assert_eq!(checks, vec![previous.get_committee(0), previous.get_committee(1)]);
    assert!(checks.iter().all(|p| p.committee == Committee::Trainer));
    // an all-zero bloom reports everything, so every trainer is confirmed
    let full = Witness { proof: previous.get_witness(0), participant_bloom: Bloom::zeroed(), order_bloom: Bloom::zeroed() };
    assert!(health_check_candidates(&c, &previous, &[full], 0).is_empty());
}

#[test]
fn the_step_machine_resets_rounds_on_warmup_and_keeps_member_states() {
    let mut c = coordinator();
    let ids = [node(1), node(2)];
    c.tick(Some(&ids), 100, 7).unwrap();
    c.tick(None, 110, 7).unwrap();
    assert_eq!(c.run_state, RunState::RoundTrain);

    // a member in warmup starts training and keeps the new state
    let mut member = StepMachine { active_step: ActiveStep::Warmup, rounds: ClientRounds::new(node(1)), coordinator_state: coordinator() };
    member.rounds.current_round.height = 5;
    assert_eq!(member.apply_state(c.clone()), Ok(StepTransition::StartTraining));
    assert_eq!(member.active_step, ActiveStep::Training);
    assert_eq!(member.rounds.current_round.height, 5);
    assert_eq!(member.coordinator_state.run_state, RunState::RoundTrain);

    // a member out of step desyncs and is left between steps
    let mut late = StepMachine { active_step: ActiveStep::Cooldown, rounds: ClientRounds::new(node(2)), coordinator_state: coordinator() };
    assert_eq!(
        late.apply_state(c.clone()),
        Err(StepError::Desync { active_step: ActiveStep::Cooldown, run_state: RunState::RoundTrain })
    );
    assert_eq!(late.active_step, ActiveStep::Intermediate);
    assert_eq!(late.coordinator_state.run_state, RunState::WaitingForMembers);

    // a non-member that was training goes back to warmup with empty rounds
    let mut outsider = StepMachine { active_step: ActiveStep::Training, rounds: ClientRounds::new(node(9)), coordinator_state: coordinator() };
    outsider.rounds.current_round.height = 5;
    outsider.rounds.previous_round.sent_witness = true;
    assert_eq!(outsider.apply_state(c.clone()), Ok(StepTransition::StartWarmup));
    assert_eq!(outsider.active_step, ActiveStep::Warmup);
    assert_eq!(outsider.rounds.current_round.height, 0);
    assert!(!outsider.rounds.previous_round.sent_witness);
    assert_eq!(outsider.coordinator_state.run_state, RunState::WaitingForMembers);

    // a non-member already warming up keeps its rounds
    outsider.rounds.current_round.height = 3;
    assert_eq!(outsider.apply_state(c.clone()), Ok(StepTransition::Stay));
    assert_eq!(outsider.rounds.current_round.height, 3);
}
