use psyche::bloom::Bloom;
use psyche::committee_selection::CommitteeSelection;
use psyche::coordinator::{
    ClientState, Coordinator, CoordinatorConfig, CoordinatorEpochState, CoordinatorError, CoordinatorProgress,
    RunState, TickResult, Witness,
};
use psyche::data_selection::{assign_data_for_state, get_batch_ids_for_node, get_batch_ids_for_round, BatchId};
use psyche::model::{Model, LLM};

fn node(i: u8) -> [u8; 32] {
    let mut a = [0u8; 32];
    a[0] = i;
    a
}

fn coordinator(run_state: RunState) -> Coordinator {
    Coordinator {
        run_id: [0u8; 64],
        run_state,
        model: Model::LLM(LLM::dummy()),
        config: CoordinatorConfig {
            warmup_time: 10,
            cooldown_time: 5,
            max_round_train_time: 20,
            round_witness_time: 5,
            min_clients: 2,
            batches_per_round: 4,
            data_indicies_per_batch: 8,
            verification_percent: 0,
            witness_nodes: 0,
            witness_quorum: 0,
            rounds_per_epoch: 3,
            total_steps: 100,
            overlapped: false,
            checkpointers: vec![],
        },
        progress: CoordinatorProgress::default(),
        prev_epoch_progress: CoordinatorProgress::default(),
        epoch_state: CoordinatorEpochState::default(),
        run_state_start_unix_timestamp: 0,
        tick: 0,
        last_tick_unix_timestamp: 0,
        last_step_unix_timestamp: 0,
    }
}

fn training_coordinator() -> Coordinator {
    let mut c = coordinator(RunState::WaitingForMembers);
    let ids = [node(1), node(2)];
    assert_eq!(c.tick(Some(&ids), 100, 7), Ok(TickResult::Ticked));
    assert_eq!(c.tick(None, 110, 7), Ok(TickResult::Ticked));
    assert_eq!(c.run_state, RunState::RoundTrain);
    c
}

#[test]
fn waiting_for_members_needs_min_clients() {
    let mut c = coordinator(RunState::WaitingForMembers);
    let one = [node(1)];
    assert_eq!(c.tick(Some(&one), 50, 1), Ok(TickResult::Ticked));
    assert_eq!(c.run_state, RunState::WaitingForMembers);
    assert_eq!(c.tick, 1);
    assert_eq!(c.last_tick_unix_timestamp, 50);
    let two = [node(1), node(2)];
    assert_eq!(c.tick(Some(&two), 60, 1), Ok(TickResult::Ticked));
    assert_eq!(c.run_state, RunState::Warmup);
    assert_eq!(c.run_state_start_unix_timestamp, 60);
    assert_eq!(c.epoch_state.clients.len(), 2);
    assert_eq!(c.epoch_state.clients[0].id, node(1));
    assert_eq!(c.epoch_state.clients[1].id, node(2));
    assert_eq!(c.epoch_state.clients[0].state, ClientState::Healthy);
    assert_eq!(c.tick, 2);
}

#[test]
fn remaining_clients_are_not_joined_twice() {
    let mut c = coordinator(RunState::WaitingForMembers);
    c.epoch_state.clients.push(psyche::coordinator::Client::new(node(1)));
    let ids = [node(1), node(2)];
    assert_eq!(c.tick(Some(&ids), 60, 1), Ok(TickResult::Ticked));
    assert_eq!(c.epoch_state.clients.len(), 2);
    assert_eq!(c.epoch_state.clients[0].id, node(1));
    assert_eq!(c.epoch_state.clients[1].id, node(2));
}

#[test]
fn warmup_then_training_then_witness_then_cooldown() {
    let mut c = coordinator(RunState::WaitingForMembers);
    let ids = [node(1), node(2)];
    c.tick(Some(&ids), 100, 7).unwrap();
    assert_eq!(c.tick(None, 105, 7), Ok(TickResult::Ticked));
    assert_eq!(c.run_state, RunState::Warmup);
    assert_eq!(c.tick(None, 110, 7), Ok(TickResult::Ticked));
    assert_eq!(c.run_state, RunState::RoundTrain);
    let round = c.current_round().unwrap();
    assert_eq!(round.height, 0);
    assert_eq!(round.data_index, 0);
    assert_eq!(round.random_seed, 7);
    assert_eq!(round.clients_len, 2);
    assert_eq!(c.tick(None, 129, 7), Ok(TickResult::Ticked));
    assert_eq!(c.run_state, RunState::RoundTrain);
    assert_eq!(c.tick(None, 130, 7), Ok(TickResult::Ticked));
    assert_eq!(c.run_state, RunState::RoundWitness);
    // no witnesses: the epoch cools down
    assert_eq!(c.tick(None, 135, 9), Ok(TickResult::Ticked));
    assert_eq!(c.run_state, RunState::Cooldown);
    assert_eq!(c.progress.step, 2);
    assert_eq!(c.tick(None, 140, 9), Ok(TickResult::EpochEnd(true)));
    assert_eq!(c.run_state, RunState::WaitingForMembers);
    assert_eq!(c.progress.epoch, 1);
    assert_eq!(c.progress.epoch_start_data_index, 32);
    assert_eq!(c.prev_epoch_progress.step, 2);
}

#[test]
fn halted_run_refuses_ticks() {
    let mut c = coordinator(RunState::Uninitialized);
    assert_eq!(c.tick(None, 10, 1), Err(CoordinatorError::Halted));
    assert_eq!(c.tick, 0);
    let mut f = coordinator(RunState::Finished);
    assert_eq!(f.tick(None, 10, 1), Err(CoordinatorError::Halted));
}

#[test]
fn pause_then_resume() {
    let mut c = training_coordinator();
    assert_eq!(c.pause(), Ok(()));
    assert_eq!(c.tick(None, 111, 1), Ok(TickResult::EpochEnd(false)));
    assert_eq!(c.run_state, RunState::Paused);
    assert!(!c.epoch_state.pause);
    assert_eq!(c.tick(None, 112, 1), Err(CoordinatorError::Halted));
    assert_eq!(c.resume(200), Ok(()));
    assert_eq!(c.run_state, RunState::WaitingForMembers);
    assert_eq!(c.run_state_start_unix_timestamp, 200);
    let mut t = training_coordinator();
    assert_eq!(t.resume(200), Err(CoordinatorError::CannotResume));
}

#[test]
fn witnesses_are_recorded_once_and_close_training() {
    let mut c = training_coordinator();
    let selection = CommitteeSelection::from_coordinator(&c, false).unwrap();
    let w0 = Witness { proof: selection.get_witness(0), participant_bloom: Bloom::zeroed(), order_bloom: Bloom::zeroed() };
    assert!(w0.proof.witness);
    assert_eq!(c.witness(&node(1), w0, 115), Ok(()));
    assert_eq!(c.current_round().unwrap().num_witnesses, 1);
    assert_eq!(c.witness(&node(1), w0, 116), Err(CoordinatorError::DuplicateWitness));
    // a proof for another client's index is invalid
    assert_eq!(c.witness(&node(2), w0, 116), Err(CoordinatorError::InvalidWitness));
    let w1 = Witness { proof: selection.get_witness(1), participant_bloom: Bloom::zeroed(), order_bloom: Bloom::zeroed() };
    assert_eq!(c.witness(&node(2), w1, 117), Ok(()));
    // every client witnessed: witnessing begins at once
    assert_eq!(c.run_state, RunState::RoundWitness);
    assert_eq!(c.run_state_start_unix_timestamp, 117);
}

#[test]
fn witness_outside_rounds_is_refused() {
    let mut c = training_coordinator();
    let selection = CommitteeSelection::from_coordinator(&c, false).unwrap();
    let w0 = Witness { proof: selection.get_witness(0), participant_bloom: Bloom::zeroed(), order_bloom: Bloom::zeroed() };
    c.run_state = RunState::Cooldown;
    assert_eq!(c.witness(&node(1), w0, 115), Err(CoordinatorError::InvalidRunState));
}

#[test]
fn data_is_split_among_trainers() {
    let c = training_coordinator();
    let selection = CommitteeSelection::from_coordinator(&c, false).unwrap();
    let assignments = assign_data_for_state(&c, &selection);
    assert_eq!(assignments.len(), 2);
    let mut batches: Vec<BatchId> = assignments.iter().map(|a| a.0).collect();
    batches.sort_by_key(|b| b.start);
    assert_eq!(batches, vec![BatchId { start: 0, end: 15 }, BatchId { start: 16, end: 31 }]);
    assert_ne!(assignments[0].1, assignments[1].1);
    let mine = get_batch_ids_for_node(&assignments, &node(1));
    assert_eq!(mine.len(), 1);
    let round = c.current_round().unwrap();
    let ids = get_batch_ids_for_round(round, &c, 3);
    assert_eq!(ids, vec![BatchId { start: 0, end: 10 }, BatchId { start: 11, end: 21 }, BatchId { start: 22, end: 31 }]);
    assert_eq!(c.get_target_global_batch_size(), 32);
}

#[test]
fn total_tokens_counts_sequence_length() {
    let mut c = training_coordinator();
    assert_eq!(c.total_tokens(), 0);
    c.current_round_mut().unwrap().data_index = 3;
    assert_eq!(c.total_tokens(), 3 * 2048);
}

#[test]
fn withdraw_and_checkpoint() {
    let mut c = training_coordinator();
    assert_eq!(c.withdraw(1), Ok(()));
    assert_eq!(c.epoch_state.clients[1].state, ClientState::Withdrawn);
    assert_eq!(c.withdraw(1), Err(CoordinatorError::InvalidWithdraw));
    assert_eq!(c.withdraw(5), Err(CoordinatorError::InvalidWithdraw));
    let hub = psyche::model::HubRepo::dummy();
    assert_eq!(c.checkpoint(&node(1), hub), Err(CoordinatorError::InvalidCheckpoint));
    c.config.checkpointers.push(node(1));
    assert_eq!(c.checkpoint(&node(1), hub), Ok(()));
    assert!(c.epoch_state.checkpointed);
    assert_eq!(c.checkpoint(&node(1), hub), Err(CoordinatorError::InvalidCheckpoint));
}

#[test]
fn run_state_numbers_and_names() {
    for i in 0..8usize {
        assert_eq!(RunState::try_from(i).unwrap().to_index(), i);
    }
    assert_eq!(RunState::try_from(8), Err(CoordinatorError::InvalidRunState));
    assert_eq!(RunState::RoundTrain.to_string(), "Training");
    assert_eq!(RunState::WaitingForMembers.to_string(), "Waiting for members");
    assert_eq!(CoordinatorError::WitnessesFull.to_string(), "Witnesses full");
}

#[test]
fn config_check_rejects_zero_timings() {
    let c = coordinator(RunState::WaitingForMembers);
    assert!(c.config.check());
    let mut bad = c.config.clone();
    bad.max_round_train_time = 0;
    assert!(!bad.check());
    let mut bad2 = c.config.clone();
    bad2.total_steps = 0;
    assert!(!bad2.check());
}

#[test]
fn historical_rounds_and_clients() {
    let c = training_coordinator();
    assert!(c.previous_round().is_none());
    assert!(c.previous_previous_round().is_none());
    let clients = c.get_historical_clients(2);
    assert_eq!(clients.len(), 2);
    assert_eq!(clients[0].id, node(1));
    assert!(c.get_client_at_historical_index(5, 2).is_none());
}

#[test]
fn next_round_data_index_moves_by_a_round() {
    assert_eq!(Coordinator::get_next_round_data_index(10, 4, 8), 42);
}

#[test]
fn trainers_are_shuffled_by_the_round_seed() {
    let mut c = coordinator(RunState::WaitingForMembers);
    c.config.min_clients = 10;
    c.config.batches_per_round = 10;
    c.config.data_indicies_per_batch = 1;
    let ids: Vec<[u8; 32]> = (0..10u8).map(node).collect();
    c.tick(Some(&ids), 100, 7).unwrap();
    c.tick(None, 110, 7).unwrap();
    let selection = CommitteeSelection::from_coordinator(&c, false).unwrap();
    let assignments = assign_data_for_state(&c, &selection);
    assert_eq!(assignments.len(), 10);
    let order: Vec<[u8; 32]> = assignments.iter().map(|a| a.1).collect();
    assert_ne!(order, ids);
    let mut sorted = order.clone();
    sorted.sort();
    assert_eq!(sorted, ids);
    for (i, a) in assignments.iter().enumerate() {
        assert_eq!(a.0, BatchId { start: i as u64, end: i as u64 });
    }
}
