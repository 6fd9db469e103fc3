use psyche::simple_coordinator::{report_state_change, Backend, Client, Coordinator, Round, RunState};

struct Offer(Vec<u32>);

impl Backend<u32> for Offer {
    fn select_new_clients(&self) -> &[u32] {
        &self.0
    }
}

fn simple() -> Coordinator<u32> {
    Coordinator {
        run_state: RunState::WaitingForMembers,
        run_state_start_unix_timestamp: 0,
        warmup_time: 10,
        max_rounds: 2,
        max_round_time: 5,
        rounds: [Round::empty(), Round::empty(), Round::empty(), Round::empty()],
        rounds_head: 0,
        min_clients: 2,
        clients: Vec::<Client<u32>>::new(),
        dropped_clients: Vec::new(),
        last_step_unix_timestamp: 0,
        data_indicies_per_round: 100,
        verification_percent: 0,
        epoch: 0,
    }
}

#[test]
fn simple_coordinator_runs_rounds() {
    let c = simple().step(&Offer(vec![1]), 5, 0);
    assert_eq!(c.run_state, RunState::WaitingForMembers);
    assert_eq!(c.last_step_unix_timestamp, 5);
    let c = c.step(&Offer(vec![1, 2]), 6, 0);
    assert_eq!(c.run_state, RunState::Warmup);
    assert_eq!(c.clients.len(), 2);
    let c = c.step(&Offer(vec![]), 10, 0);
    assert_eq!(c.run_state, RunState::Warmup);
    let c = c.step(&Offer(vec![]), 16, 0);
    assert_eq!(c.run_state, RunState::RoundStart);
    let c = c.step(&Offer(vec![]), 17, 42);
    assert_eq!(c.rounds_head, 0);
    assert_eq!(c.rounds[0].height, 0);
    assert_eq!(c.rounds[0].data_index, 100);
    assert_eq!(c.rounds[0].random_seed, 42);
    assert_eq!(c.rounds[0].clients_len, 2);
    // while slot zero still holds height zero, a round counts as the first one
    let mut c = c.step(&Offer(vec![]), 18, 43);
    assert_eq!(c.rounds_head, 0);
    assert_eq!(c.rounds[0].data_index, 200);
    assert_eq!(c.rounds[0].random_seed, 43);
    c.max_rounds = 3;
    c.rounds[0].height = 1;
    let c = c.step(&Offer(vec![]), 19, 44);
    assert_eq!(c.rounds_head, 1);
    assert_eq!(c.rounds[1].height, 2);
    assert_eq!(c.rounds[1].data_index, 100);
    // the last round: nothing more happens
    let c = c.step(&Offer(vec![]), 20, 45);
    assert_eq!(c.rounds_head, 1);
    assert_eq!(c.rounds[1].random_seed, 44);
    assert_eq!(c.last_step_unix_timestamp, 20);
}

#[test]
fn simple_coordinator_waits_again_without_clients() {
    let mut c = simple();
    c.run_state = RunState::RoundStart;
    let c = c.step_with_clients(&[], 3, 1);
    assert_eq!(c.run_state, RunState::WaitingForMembers);
    assert_eq!(c.run_state_start_unix_timestamp, 3);
}

#[test]
fn watcher_reports_changes_only() {
    assert!(report_state_change(None, RunState::Warmup));
    assert!(!report_state_change(Some(RunState::Warmup), RunState::Warmup));
    assert!(report_state_change(Some(RunState::Warmup), RunState::RoundStart));
}
