use vstd::prelude::*;

verus! {

/// The phases of the simple coordinator.
#[derive(Clone, Copy, Debug, PartialEq, Eq, Structural)]
pub enum RunState {
    WaitingForMembers,
    Warmup,
    RoundStart,
}

/// A member of the run.
#[derive(Clone, Copy, Debug)]
pub struct Client<I> {
    pub id: I,
}

/// A round: its height, how many clients took part, where its data starts and its
/// random seed.
#[derive(Clone, Copy, Debug)]
pub struct Round {
    pub height: u32,
    pub clients_len: u32,
    pub data_index: u64,
    pub random_seed: u64,
}

/// What is kept of an earlier round.
#[derive(Clone, Copy, Debug)]
pub struct PrevRound {
    pub data_index: u64,
    pub clients_len: u32,
}

/// The state a simple coordinator publishes.
pub struct State<I> {
    pub run_state: RunState,
    pub run_state_start_unix_timestamp: u64,
    pub warmup_time: u64,
    pub round: u32,
    pub max_rounds: u32,
    pub max_round_time: u64,
    pub prev_round_info: [PrevRound; 4],
    pub min_clients: u32,
    pub clients: Vec<Client<I>>,
    pub dropped_clients: Vec<Client<I>>,
    pub last_step_unix_timestamp: u64,
    pub data_index: u64,
}

/// Where a coordinator learns who wants to join.
pub trait Backend<I> {
    fn select_new_clients(&self) -> &[I];
}

/// Where a coordinator learns who wants to join.
pub trait CoordinatorBackend<T> {
    fn select_new_clients(&self) -> &[T];
}

/// A coordinator that gathers members, warms up, then runs rounds over a ring of
/// four round slots.
pub struct Coordinator<I> {
    pub run_state: RunState,
    pub run_state_start_unix_timestamp: u64,
    pub warmup_time: u64,
    pub max_rounds: u32,
    pub max_round_time: u64,
    pub rounds: [Round; 4],
    pub rounds_head: u32,
    pub min_clients: u32,
    pub clients: Vec<Client<I>>,
    pub dropped_clients: Vec<Client<I>>,
    pub last_step_unix_timestamp: u64,
    pub data_indicies_per_round: u32,
    pub verification_percent: u8,
    pub epoch: u32,
}

/// The coordinator as the specifications see it.
#[verifier::ext_equal]
pub struct SimpleCoordinatorView<I> {
    pub run_state: RunState,
    pub run_state_start_unix_timestamp: u64,
    pub warmup_time: u64,
    pub max_rounds: u32,
    pub max_round_time: u64,
    pub rounds: Seq<Round>,
    pub rounds_head: u32,
    pub min_clients: u32,
    pub clients: Seq<Client<I>>,
    pub dropped_clients: Seq<Client<I>>,
    pub last_step_unix_timestamp: u64,
    pub data_indicies_per_round: u32,
    pub verification_percent: u8,
    pub epoch: u32,
}

impl<I> View for Coordinator<I> {
    type V = SimpleCoordinatorView<I>;

    open spec fn view(&self) -> SimpleCoordinatorView<I> {
        SimpleCoordinatorView {
            run_state: self.run_state,
            run_state_start_unix_timestamp: self.run_state_start_unix_timestamp,
            warmup_time: self.warmup_time,
            max_rounds: self.max_rounds,
            max_round_time: self.max_round_time,
            rounds: self.rounds@,
            rounds_head: self.rounds_head,
            min_clients: self.min_clients,
            clients: self.clients@,
            dropped_clients: self.dropped_clients@,
            last_step_unix_timestamp: self.last_step_unix_timestamp,
            data_indicies_per_round: self.data_indicies_per_round,
            verification_percent: self.verification_percent,
            epoch: self.epoch,
        }
    }
}

/// The all-zero round.
pub open spec fn empty_round() -> Round {
    Round { height: 0, clients_len: 0, data_index: 0, random_seed: 0 }
}

impl Round {
    /// The all-zero round.
    pub fn empty() -> (r: Self)
        ensures
            r == empty_round(),
    {
        Round { height: 0, clients_len: 0, data_index: 0, random_seed: 0 }
    }
}

impl<I> SimpleCoordinatorView<I> {
    /// The coordinator after entering `state` at `ts`.
    pub open spec fn with_state(self, ts: u64, state: RunState) -> SimpleCoordinatorView<I> {
        SimpleCoordinatorView { run_state_start_unix_timestamp: ts, run_state: state, ..self }
    }

    /// Waiting for members: once the backend offers at least `min_clients`, they
    /// become the clients, every round slot is cleared and warmup begins.
    pub open spec fn wait_for_members(self, offered: Seq<I>, ts: u64) -> SimpleCoordinatorView<I> {
        if offered.len() as u32 >= self.min_clients {
            SimpleCoordinatorView {
                clients: Seq::new(offered.len(), |i: int| Client { id: offered[i] }),
                rounds: Seq::new(4, |i: int| empty_round()),
                ..self
            }.with_state(ts, RunState::Warmup)
        } else {
            self
        }
    }

    /// Warmup: once `warmup_time` has passed, rounds start.
    pub open spec fn warm_up(self, ts: u64) -> SimpleCoordinatorView<I> {
        if ts >= self.warmup_time + self.run_state_start_unix_timestamp {
            self.with_state(ts, RunState::RoundStart)
        } else {
            self
        }
    }

    /// Starting a round: back to waiting when too few clients are left; at the last
    /// round nothing happens; otherwise the next slot of the ring (the first slot for
    /// the very first round) takes the clients' count, the next height, the data
    /// index moved on by a round's worth and the random seed.
    pub open spec fn start_round(self, ts: u64, seed: u64) -> SimpleCoordinatorView<I> {
        if (self.clients.len() as u32) < self.min_clients {
            self.with_state(ts, RunState::WaitingForMembers)
        } else {
            let first = self.rounds_head == 0 && self.rounds[0].height == 0;
            let cur = self.rounds[self.rounds_head as int];
            if !first && cur.height == self.max_rounds - 1 {
                self
            } else {
                let next_head: int = if first { 0 } else { (self.rounds_head + 1) % 4 };
                let next_height: u32 = if first { 0 } else { (cur.height + 1) as u32 };
                let old_round = self.rounds[next_head];
                SimpleCoordinatorView {
                    rounds_head: next_head as u32,
                    rounds: self.rounds.update(next_head, Round {
                        clients_len: self.clients.len() as u32,
                        height: next_height,
                        data_index: (old_round.data_index + self.data_indicies_per_round) as u64,
                        random_seed: seed,
                    }),
                    ..self
                }
            }
        }
    }

    /// One step: the phase's work with the clients the backend offers, then the
    /// step's time is recorded.
    pub open spec fn step(self, offered: Seq<I>, ts: u64, seed: u64) -> SimpleCoordinatorView<I> {
        let next = match self.run_state {
            RunState::WaitingForMembers => self.wait_for_members(offered, ts),
            RunState::Warmup => self.warm_up(ts),
            RunState::RoundStart => self.start_round(ts, seed),
        };
        SimpleCoordinatorView { last_step_unix_timestamp: ts, ..next }
    }

    /// The inputs on which a step stays within its types: in warmup the deadline
    /// fits; when starting a round the head is in range, the height limit is at
    /// least one past the first round, and the next slot's data index has room.
    pub open spec fn step_fits(self, ts: u64) -> bool {
        &&& self.run_state == RunState::Warmup ==> self.warmup_time + self.run_state_start_unix_timestamp <= u64::MAX
        &&& self.run_state == RunState::RoundStart && (self.clients.len() as u32) >= self.min_clients ==> {
            &&& self.rounds_head < 4
            &&& !(self.rounds_head == 0 && self.rounds[0].height == 0) ==> {
                &&& self.max_rounds >= 1
                &&& self.rounds[self.rounds_head as int].height < u32::MAX
            }
            &&& forall|i: int| 0 <= i < 4 ==> (#[trigger] self.rounds[i]).data_index + self.data_indicies_per_round <= u64::MAX
        }
    }
}

/// A step keeps the ring of four round slots with its head in range, records the
/// step's time, and a round it starts takes its data from the slot's previous
/// data index moved on by one round's worth.
pub proof fn lemma_step_keeps_ring<I>(c: SimpleCoordinatorView<I>, offered: Seq<I>, ts: u64, seed: u64)
    requires
        c.rounds.len() == 4,
        c.rounds_head < 4,
        c.step_fits(ts),
    ensures
        c.step(offered, ts, seed).rounds.len() == 4,
        c.step(offered, ts, seed).rounds_head < 4,
        c.step(offered, ts, seed).last_step_unix_timestamp == ts,
        c.run_state == RunState::RoundStart && c.step(offered, ts, seed).rounds != c.rounds ==> {
            let after = c.step(offered, ts, seed);
            let h = after.rounds_head as int;
            &&& after.rounds[h].data_index == c.rounds[h].data_index + c.data_indicies_per_round
            &&& after.rounds[h].random_seed == seed
        },
{
}

/// A watcher reports a state when it is the first one it sees or its run state
/// differs from the previous one's.
pub open spec fn should_report(prev: Option<RunState>, next: RunState) -> bool {
    match prev {
        None => true,
        Some(p) => p != next,
    }
}

/// Whether a watcher reports a newly seen state.
pub fn report_state_change(prev: Option<RunState>, next: RunState) -> (r: bool)
    ensures
        r == should_report(prev, next),
{
    match prev {
        None => true,
        Some(p) => p != next,
    }
}

impl<I: Copy> Coordinator<I> {
    fn change_state(&mut self, unix_timestamp: u64, new_state: RunState)
        ensures
            final(self)@ == old(self)@.with_state(unix_timestamp, new_state),
    {
        self.run_state_start_unix_timestamp = unix_timestamp;
        self.run_state = new_state;
    }

    fn waiting_for_members(&mut self, clients: &[I], unix_timestamp: u64)
        ensures
            final(self)@ == old(self)@.wait_for_members(clients@, unix_timestamp),
    {
        if clients.len() as u32 >= self.min_clients {
            let mut members: Vec<Client<I>> = Vec::new();
            let mut i: usize = 0;
            while i < clients.len()
                invariant
                    i <= clients@.len(),
                    members@ == Seq::new(i as nat, |k: int| Client { id: clients@[k] }),
                decreases clients@.len() - i,
            {
                members.push(Client { id: clients[i] });
                i += 1;
                assert(members@ =~= Seq::new(i as nat, |k: int| Client { id: clients@[k] }));
            }
            self.clients = members;
            self.rounds = [Round::empty(), Round::empty(), Round::empty(), Round::empty()];
            assert(self.rounds@ =~= Seq::new(4, |k: int| empty_round()));
            self.change_state(unix_timestamp, RunState::Warmup);
        }
    }

    fn warmup(&mut self, unix_timestamp: u64)
        requires
            old(self).warmup_time + old(self).run_state_start_unix_timestamp <= u64::MAX,
        ensures
            final(self)@ == old(self)@.warm_up(unix_timestamp),
    {
        if unix_timestamp >= self.warmup_time + self.run_state_start_unix_timestamp {
            self.change_state(unix_timestamp, RunState::RoundStart);
        }
    }

    fn round_start(&mut self, unix_timestamp: u64, random_seed: u64)
        requires
            old(self)@.run_state == RunState::RoundStart,
            old(self)@.step_fits(unix_timestamp),
        ensures
            final(self)@ == old(self)@.start_round(unix_timestamp, random_seed),
    {
        if (self.clients.len() as u32) < self.min_clients {
            self.change_state(unix_timestamp, RunState::WaitingForMembers);
            return;
        }
        let first = self.rounds_head == 0 && self.rounds[0].height == 0;
        let (next_rounds_head, next_height) = if first {
            (0usize, 0u32)
        } else {
            let current_round = &self.rounds[self.rounds_head as usize];
            if current_round.height == self.max_rounds - 1 {
                return;
            } else {
                (((self.rounds_head + 1) % 4) as usize, current_round.height + 1)
            }
        };
        let old_round = self.rounds[next_rounds_head];
        assert(old_round.data_index + self.data_indicies_per_round <= u64::MAX);
        let round = Round {
            clients_len: self.clients.len() as u32,
            height: next_height,
            data_index: old_round.data_index + self.data_indicies_per_round as u64,
            random_seed,
        };
        self.rounds[next_rounds_head] = round;
        self.rounds_head = next_rounds_head as u32;
        assert(self@ =~= old(self)@.start_round(unix_timestamp, random_seed));
    }

    /// One step with the clients that the backend offers.
    pub fn step_with_clients(self, clients: &[I], unix_timestamp: u64, random_seed: u64) -> (r: Self)
        requires
            self@.step_fits(unix_timestamp),
        ensures
            r@ == self@.step(clients@, unix_timestamp, random_seed),
    {
        let mut next = self;
        match next.run_state {
            RunState::WaitingForMembers => next.waiting_for_members(clients, unix_timestamp),
            RunState::Warmup => next.warmup(unix_timestamp),
            RunState::RoundStart => next.round_start(unix_timestamp, random_seed),
        }
        next.last_step_unix_timestamp = unix_timestamp;
        next
    }

    /// One step, asking the backend who wants to join. Whatever the backend offers,
    /// the step's time is recorded and the coordinator moves as `step` says for
    /// those clients.
    pub fn step<B: Backend<I>>(self, backend: &B, unix_timestamp: u64, random_seed: u64) -> (r: Self)
        requires
            self@.step_fits(unix_timestamp),
        ensures
            r@.last_step_unix_timestamp == unix_timestamp,
            exists|offered: Seq<I>| r@ == self@.step(offered, unix_timestamp, random_seed),
    {
        let clients = backend.select_new_clients();
        let r = self.step_with_clients(clients, unix_timestamp, random_seed);
        assert(r@ == self@.step(clients@, unix_timestamp, random_seed));
        r
    }
}

} // verus!
