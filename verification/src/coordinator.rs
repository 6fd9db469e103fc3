use vstd::prelude::*;
use crate::bloom::Bloom;
use crate::committee_selection::{ids_equal, Committee, CommitteeProof, CommitteeSelection, NodeId, WitnessProof};
use crate::model::{Checkpoint, HubRepo, LLMTrainingDataType, Model};

verus! {

/// Largest length of a run id.
pub const SOLANA_MAX_STRING_LEN: usize = 64;

/// Largest length of a URL.
pub const SOLANA_MAX_URL_STRING_LEN: usize = 192;

/// Largest number of clients (current and exited) of an epoch.
pub const SOLANA_MAX_NUM_CLIENTS: usize = 64;

/// Largest number of witnesses of a round.
pub const SOLANA_MAX_NUM_WITNESSES: usize = 16;

/// Largest number of checkpointers.
pub const SOLANA_MAX_NUM_CHECKPOINTERS: usize = 4;

/// Number of rounds kept in the ring of recent rounds.
pub const NUM_STORED_ROUNDS: usize = 4;

/// The phase of a run.
#[derive(Clone, Copy, Debug, PartialEq, Eq, Structural)]
pub enum RunState {
    Uninitialized,
    WaitingForMembers,
    Warmup,
    RoundTrain,
    RoundWitness,
    Cooldown,
    Finished,
    Paused,
}

/// Whether a client is still taking part in the epoch.
#[derive(Clone, Copy, Debug, PartialEq, Eq, Structural)]
pub enum ClientState {
    Healthy,
    Dropped,
    Withdrawn,
    Ejected,
}

/// A client of the run.
#[derive(Clone, Copy, Debug)]
pub struct Client {
    pub id: NodeId,
    pub state: ClientState,
    pub exited_height: u32,
}

/// A witness's report for a round: its proof and the blooms of the participants
/// and commitments it saw.
#[derive(Clone, Copy, Debug)]
pub struct Witness {
    pub proof: WitnessProof,
    pub participant_bloom: Bloom,
    pub order_bloom: Bloom,
}

/// A training round; its witnesses are the first `num_witnesses` slots.
#[derive(Clone, Copy, Debug)]
pub struct Round {
    pub witnesses: [Witness; 16],
    pub num_witnesses: u16,
    pub data_index: u64,
    pub random_seed: u64,
    pub height: u32,
    pub clients_len: u16,
    pub tie_breaker_tasks: u16,
}

/// Errors of the coordinator's operations.
#[derive(Clone, Copy, Debug, PartialEq, Eq, Structural)]
pub enum CoordinatorError {
    NoActiveRound,
    InvalidWitness,
    InvalidRunState,
    DuplicateWitness,
    InvalidHealthCheck,
    Halted,
    InvalidCheckpoint,
    WitnessesFull,
    CannotResume,
    InvalidWithdraw,
    InvalidCommitteeSelection,
}

/// What a tick did.
#[derive(Clone, Copy, Debug, PartialEq, Eq, Structural)]
pub enum TickResult {
    Ticked,
    /// the epoch ended; `true` when it finished successfully
    EpochEnd(bool),
}

/// A commitment to a training result.
pub type Commitment = [u8; 32];

/// The committee proofs of clients reported unhealthy.
pub type HealthChecks = Vec<CommitteeProof>;

/// The run's configuration.
#[derive(Clone, Debug)]
pub struct CoordinatorConfig {
    pub warmup_time: u64,
    pub cooldown_time: u64,
    pub max_round_train_time: u64,
    pub round_witness_time: u64,
    pub min_clients: u16,
    pub batches_per_round: u16,
    pub data_indicies_per_batch: u16,
    pub verification_percent: u8,
    pub witness_nodes: u16,
    pub witness_quorum: u16,
    pub rounds_per_epoch: u32,
    pub total_steps: u32,
    pub overlapped: bool,
    pub checkpointers: Vec<NodeId>,
}

/// The state of the current epoch.
#[derive(Clone, Debug)]
pub struct CoordinatorEpochState {
    pub rounds: [Round; 4],
    pub clients: Vec<Client>,
    pub exited_clients: Vec<Client>,
    pub rounds_head: u32,
    pub first_round: bool,
    pub checkpointed: bool,
    pub pause: bool,
}

/// Progress through the run.
#[derive(Clone, Copy, Debug, PartialEq, Eq, Structural)]
pub struct CoordinatorProgress {
    pub epoch: u16,
    pub step: u32,
    pub epoch_start_data_index: u64,
}

/// The coordinator of a training run.
#[derive(Clone, Debug)]
pub struct Coordinator {
    pub run_id: [u8; 64],
    pub run_state: RunState,
    pub model: Model,
    pub config: CoordinatorConfig,
    pub progress: CoordinatorProgress,
    pub prev_epoch_progress: CoordinatorProgress,
    pub epoch_state: CoordinatorEpochState,
    pub run_state_start_unix_timestamp: u64,
    pub tick: u64,
    pub last_tick_unix_timestamp: u64,
    pub last_step_unix_timestamp: u64,
}

/// The round as the specifications see it: its live witnesses as a sequence.
#[verifier::ext_equal]
pub struct RoundView {
    pub witnesses: Seq<Witness>,
    pub num_witnesses: u16,
    pub data_index: u64,
    pub random_seed: u64,
    pub height: u32,
    pub clients_len: u16,
    pub tie_breaker_tasks: u16,
}

impl View for Round {
    type V = RoundView;

    open spec fn view(&self) -> RoundView {
        RoundView {
            witnesses: self.witnesses@.take(self.num_witnesses as int),
            num_witnesses: self.num_witnesses,
            data_index: self.data_index,
            random_seed: self.random_seed,
            height: self.height,
            clients_len: self.clients_len,
            tie_breaker_tasks: self.tie_breaker_tasks,
        }
    }
}

/// The configuration as the specifications see it.
#[verifier::ext_equal]
pub struct ConfigView {
    pub warmup_time: u64,
    pub cooldown_time: u64,
    pub max_round_train_time: u64,
    pub round_witness_time: u64,
    pub min_clients: u16,
    pub batches_per_round: u16,
    pub data_indicies_per_batch: u16,
    pub verification_percent: u8,
    pub witness_nodes: u16,
    pub witness_quorum: u16,
    pub rounds_per_epoch: u32,
    pub total_steps: u32,
    pub overlapped: bool,
    pub checkpointers: Seq<NodeId>,
}

impl View for CoordinatorConfig {
    type V = ConfigView;

    open spec fn view(&self) -> ConfigView {
        ConfigView {
            warmup_time: self.warmup_time,
            cooldown_time: self.cooldown_time,
            max_round_train_time: self.max_round_train_time,
            round_witness_time: self.round_witness_time,
            min_clients: self.min_clients,
            batches_per_round: self.batches_per_round,
            data_indicies_per_batch: self.data_indicies_per_batch,
            verification_percent: self.verification_percent,
            witness_nodes: self.witness_nodes,
            witness_quorum: self.witness_quorum,
            rounds_per_epoch: self.rounds_per_epoch,
            total_steps: self.total_steps,
            overlapped: self.overlapped,
            checkpointers: self.checkpointers@,
        }
    }
}

/// The epoch state as the specifications see it.
#[verifier::ext_equal]
pub struct EpochStateView {
    pub rounds: Seq<RoundView>,
    pub clients: Seq<Client>,
    pub exited_clients: Seq<Client>,
    pub rounds_head: u32,
    pub first_round: bool,
    pub checkpointed: bool,
    pub pause: bool,
}

impl View for CoordinatorEpochState {
    type V = EpochStateView;

    open spec fn view(&self) -> EpochStateView {
        EpochStateView {
            rounds: self.rounds@.map_values(|r: Round| r@),
            clients: self.clients@,
            exited_clients: self.exited_clients@,
            rounds_head: self.rounds_head,
            first_round: self.first_round,
            checkpointed: self.checkpointed,
            pause: self.pause,
        }
    }
}

/// The coordinator as the specifications see it.
#[verifier::ext_equal]
pub struct CoordinatorView {
    pub run_id: Seq<u8>,
    pub run_state: RunState,
    pub model: Model,
    pub config: ConfigView,
    pub progress: CoordinatorProgress,
    pub prev_epoch_progress: CoordinatorProgress,
    pub epoch_state: EpochStateView,
    pub run_state_start_unix_timestamp: u64,
    pub tick: u64,
    pub last_tick_unix_timestamp: u64,
    pub last_step_unix_timestamp: u64,
}

impl View for Coordinator {
    type V = CoordinatorView;

    open spec fn view(&self) -> CoordinatorView {
        CoordinatorView {
            run_id: self.run_id@,
            run_state: self.run_state,
            model: self.model,
            config: self.config@,
            progress: self.progress,
            prev_epoch_progress: self.prev_epoch_progress,
            epoch_state: self.epoch_state@,
            run_state_start_unix_timestamp: self.run_state_start_unix_timestamp,
            tick: self.tick,
            last_tick_unix_timestamp: self.last_tick_unix_timestamp,
            last_step_unix_timestamp: self.last_step_unix_timestamp,
        }
    }
}

/// The run state is one in which nothing advances.
pub open spec fn halted_state(s: RunState) -> bool {
    s == RunState::Uninitialized || s == RunState::Finished || s == RunState::Paused
}

impl CoordinatorView {
    /// The round at the head of the ring.
    pub open spec fn cur(self) -> RoundView {
        self.epoch_state.rounds[self.epoch_state.rounds_head as int]
    }

    /// The coordinator keeps its structure: a ring of four rounds with the head in
    /// range, at most sixteen witnesses per round, each with well-formed blooms, at
    /// most sixty-four current plus exited clients, and, while a round runs, a
    /// current round that counts exactly the current clients and whose witnesses
    /// name current client slots.
    pub open spec fn wf(self) -> bool {
        &&& self.epoch_state.rounds.len() == NUM_STORED_ROUNDS
        &&& self.epoch_state.rounds_head < NUM_STORED_ROUNDS
        &&& forall|r: int| 0 <= r < NUM_STORED_ROUNDS ==> {
            let round = #[trigger] self.epoch_state.rounds[r];
            &&& round.num_witnesses <= SOLANA_MAX_NUM_WITNESSES
            &&& round.witnesses.len() == round.num_witnesses
            &&& forall|j: int| 0 <= j < round.witnesses.len() ==> witness_wf(#[trigger] round.witnesses[j])
        }
        &&& self.epoch_state.clients.len() + self.epoch_state.exited_clients.len() <= SOLANA_MAX_NUM_CLIENTS
        &&& (self.run_state == RunState::RoundTrain || self.run_state == RunState::RoundWitness) ==> {
            &&& self.cur().clients_len == self.epoch_state.clients.len()
            &&& forall|j: int| 0 <= j < self.cur().witnesses.len() ==>
                (#[trigger] self.cur().witnesses[j]).proof.index < self.epoch_state.clients.len()
        }
    }

    /// Nothing advances: uninitialized, finished or paused.
    pub open spec fn halted(self) -> bool {
        halted_state(self.run_state)
    }

    /// A round is under way: not halted and past warmup.
    pub open spec fn active(self) -> bool {
        !self.halted() && !(self.run_state == RunState::WaitingForMembers || self.run_state == RunState::Warmup)
    }

    /// The ring slot of the current round, or with `previous` of the one before it.
    pub open spec fn round_slot(self, previous: bool) -> Option<int> {
        if self.epoch_state.rounds_head >= NUM_STORED_ROUNDS {
            None
        } else if previous {
            self.previous_round_slot()
        } else {
            Some(self.epoch_state.rounds_head as int)
        }
    }

    /// The ring slot of the round before the current one, when there is one.
    pub open spec fn previous_round_slot(self) -> Option<int> {
        let head = self.epoch_state.rounds_head;
        if head == 0 && self.cur().height == 0 {
            None
        } else if head == 0 {
            Some(NUM_STORED_ROUNDS - 1)
        } else {
            Some(head - 1)
        }
    }

    /// The ring slot of the round two before the current one, when there is one.
    pub open spec fn previous_previous_round_slot(self) -> Option<int> {
        let head = self.epoch_state.rounds_head;
        if head == 0 && self.cur().height <= 1 {
            None
        } else if head == 0 {
            Some(NUM_STORED_ROUNDS - 2)
        } else if head == 1 {
            Some(NUM_STORED_ROUNDS - 1)
        } else {
            Some(head - 2)
        }
    }

    /// The client at index `n` of a round that had `prev_clients_len` clients: a
    /// current client below the current count, otherwise the exited client that
    /// many places from the end of the exited list.
    pub open spec fn historical_client(self, n: nat, prev_clients_len: u16) -> Option<Client> {
        let clients = self.epoch_state.clients;
        let exited = self.epoch_state.exited_clients;
        if n < clients.len() {
            Some(clients[n as int])
        } else if n < prev_clients_len {
            let offset = prev_clients_len - n - 1;
            if offset < exited.len() {
                Some(exited[exited.len() - 1 - offset])
            } else {
                None
            }
        } else {
            None
        }
    }
}

/// A witness's blooms are well formed.
pub open spec fn witness_wf(w: Witness) -> bool {
    w.participant_bloom.wf() && w.order_bloom.wf()
}

/// The display name of a run state.
pub open spec fn run_state_name(s: RunState) -> Seq<char> {
    match s {
        RunState::Uninitialized => "Uninitialized"@,
        RunState::WaitingForMembers => "Waiting for members"@,
        RunState::Warmup => "Warmup"@,
        RunState::RoundTrain => "Training"@,
        RunState::RoundWitness => "Witness"@,
        RunState::Cooldown => "Cooldown"@,
        RunState::Finished => "Finished"@,
        RunState::Paused => "Paused"@,
    }
}

/// The number of a run state.
pub open spec fn run_state_index(s: RunState) -> nat {
    match s {
        RunState::Uninitialized => 0,
        RunState::WaitingForMembers => 1,
        RunState::Warmup => 2,
        RunState::RoundTrain => 3,
        RunState::RoundWitness => 4,
        RunState::Cooldown => 5,
        RunState::Finished => 6,
        RunState::Paused => 7,
    }
}

impl RunState {
    /// The run state numbered `value`; numbers above seven are invalid.
    pub fn try_from(value: usize) -> (r: Result<RunState, CoordinatorError>)
        ensures
            value <= 7 ==> (r matches Ok(s) && run_state_index(s) == value),
            value > 7 ==> r == Err::<RunState, CoordinatorError>(CoordinatorError::InvalidRunState),
    {
        match value {
            0 => Ok(RunState::Uninitialized),
            1 => Ok(RunState::WaitingForMembers),
            2 => Ok(RunState::Warmup),
            3 => Ok(RunState::RoundTrain),
            4 => Ok(RunState::RoundWitness),
            5 => Ok(RunState::Cooldown),
            6 => Ok(RunState::Finished),
            7 => Ok(RunState::Paused),
            _ => Err(CoordinatorError::InvalidRunState),
        }
    }

    /// The number of the run state.
    pub fn to_index(self) -> (n: usize)
        ensures
            n == run_state_index(self),
    {
        match self {
            RunState::Uninitialized => 0,
            RunState::WaitingForMembers => 1,
            RunState::Warmup => 2,
            RunState::RoundTrain => 3,
            RunState::RoundWitness => 4,
            RunState::Cooldown => 5,
            RunState::Finished => 6,
            RunState::Paused => 7,
        }
    }

    /// The run state's display name.
    pub fn to_string(&self) -> (s: String)
        ensures
            s@ == run_state_name(*self),
    {
        broadcast use vstd::string::to_string_from_display_ensures_for_str;
        match self {
            RunState::Uninitialized => "Uninitialized".to_string(),
            RunState::WaitingForMembers => "Waiting for members".to_string(),
            RunState::Warmup => "Warmup".to_string(),
            RunState::RoundTrain => "Training".to_string(),
            RunState::RoundWitness => "Witness".to_string(),
            RunState::Cooldown => "Cooldown".to_string(),
            RunState::Finished => "Finished".to_string(),
            RunState::Paused => "Paused".to_string(),
        }
    }
}

/// The display text of a coordinator error.
pub open spec fn coordinator_error_text(e: CoordinatorError) -> Seq<char> {
    match e {
        CoordinatorError::NoActiveRound => "No active round"@,
        CoordinatorError::InvalidWitness => "Invalid witness"@,
        CoordinatorError::InvalidRunState => "Invalid run state"@,
        CoordinatorError::DuplicateWitness => "Duplicate witness"@,
        CoordinatorError::InvalidHealthCheck => "Invalid health check"@,
        CoordinatorError::Halted => "Halted"@,
        CoordinatorError::InvalidCheckpoint => "Invalid checkpoint"@,
        CoordinatorError::WitnessesFull => "Witnesses full"@,
        CoordinatorError::CannotResume => "Cannot resume"@,
        CoordinatorError::InvalidWithdraw => "Invalid withdraw"@,
        CoordinatorError::InvalidCommitteeSelection => "Invalid committee selection"@,
    }
}

impl CoordinatorError {
    /// The error's display text.
    pub fn to_string(&self) -> (s: String)
        ensures
            s@ == coordinator_error_text(*self),
    {
        broadcast use vstd::string::to_string_from_display_ensures_for_str;
        match self {
            CoordinatorError::NoActiveRound => "No active round".to_string(),
            CoordinatorError::InvalidWitness => "Invalid witness".to_string(),
            CoordinatorError::InvalidRunState => "Invalid run state".to_string(),
            CoordinatorError::DuplicateWitness => "Duplicate witness".to_string(),
            CoordinatorError::InvalidHealthCheck => "Invalid health check".to_string(),
            CoordinatorError::Halted => "Halted".to_string(),
            CoordinatorError::InvalidCheckpoint => "Invalid checkpoint".to_string(),
            CoordinatorError::WitnessesFull => "Witnesses full".to_string(),
            CoordinatorError::CannotResume => "Cannot resume".to_string(),
            CoordinatorError::InvalidWithdraw => "Invalid withdraw".to_string(),
            CoordinatorError::InvalidCommitteeSelection => "Invalid committee selection".to_string(),
        }
    }
}

impl Client {
    /// A healthy client with the given id that has not exited.
    pub fn new(id: NodeId) -> (c: Self)
        ensures
            c.id == id,
            c.state == ClientState::Healthy,
            c.exited_height == 0,
    {
        Client { id, state: ClientState::Healthy, exited_height: 0 }
    }

    /// Clients are the same client when their ids are equal.
    pub fn same_client(&self, other: &Client) -> (r: bool)
        ensures
            r == (self.id == other.id),
    {
        ids_equal(&self.id, &other.id)
    }
}

impl Witness {
    /// An all-zero witness.
    pub fn zeroed() -> (w: Witness)
        ensures
            witness_wf(w),
            w.proof == (WitnessProof { witness: false, position: 0, index: 0 }),
            w.participant_bloom.all_zero(),
            w.order_bloom.all_zero(),
    {
        Witness {
            proof: WitnessProof { witness: false, position: 0, index: 0 },
            participant_bloom: Bloom::zeroed(),
            order_bloom: Bloom::zeroed(),
        }
    }
}

impl Round {
    /// An all-zero round: no witnesses, height zero, no clients.
    pub fn empty() -> (r: Round)
        ensures
            r@ == Round::empty_view(),
            r.num_witnesses == 0,
    {
        let w = Witness::zeroed();
        let witnesses = [w; 16];
        assert(witnesses@.take(0) =~= Seq::<Witness>::empty());
        Round {
            witnesses,
            num_witnesses: 0,
            data_index: 0,
            random_seed: 0,
            height: 0,
            clients_len: 0,
            tie_breaker_tasks: 0,
        }
    }
}

impl CoordinatorEpochState {
    /// A fresh epoch: empty rounds and client lists, head at slot zero, first round
    /// pending, not checkpointed, not pausing.
    pub fn default() -> (s: Self)
        ensures
            forall|r: int| 0 <= r < 4 ==> (#[trigger] s@.rounds[r]) == Round::empty_view(),
            s@.rounds.len() == 4,
            s@.clients.len() == 0,
            s@.exited_clients.len() == 0,
            s@.rounds_head == 0,
            s@.first_round,
            !s@.checkpointed,
            !s@.pause,
    {
        let r = Round::empty();
        let rounds = [r, r, r, r];
        assert(rounds@.map_values(|x: Round| x@) =~= seq![r@, r@, r@, r@]);
        CoordinatorEpochState {
            rounds,
            clients: Vec::new(),
            exited_clients: Vec::new(),
            rounds_head: 0,
            first_round: true,
            checkpointed: false,
            pause: false,
        }
    }
}

impl Round {
    /// The view of an empty round.
    pub open spec fn empty_view() -> RoundView {
        RoundView {
            witnesses: Seq::empty(),
            num_witnesses: 0,
            data_index: 0,
            random_seed: 0,
            height: 0,
            clients_len: 0,
            tie_breaker_tasks: 0,
        }
    }
}

impl CoordinatorProgress {
    /// Progress at the start of a run: epoch zero, step one, data index zero.
    pub fn default() -> (p: Self)
        ensures
            p == (CoordinatorProgress { epoch: 0, step: 1, epoch_start_data_index: 0 }),
    {
        CoordinatorProgress { epoch: 0, step: 1, epoch_start_data_index: 0 }
    }
}

/// A configuration can drive a run: all round timings, client, batch, epoch and
/// step counts are non-zero (warmup and cooldown may be zero).
pub open spec fn config_is_valid(c: ConfigView) -> bool {
    &&& c.max_round_train_time != 0
    &&& c.round_witness_time != 0
    &&& c.min_clients != 0
    &&& c.batches_per_round != 0
    &&& c.data_indicies_per_batch != 0
    &&& c.rounds_per_epoch != 0
    &&& c.total_steps != 0
}

impl CoordinatorConfig {
    /// Checks that the configuration can drive a run.
    pub fn check(&self) -> (ok: bool)
        ensures
            ok == config_is_valid(self@),
    {
        self.max_round_train_time != 0 && self.round_witness_time != 0 && self.min_clients != 0
            && self.batches_per_round != 0 && self.data_indicies_per_batch != 0
            && self.rounds_per_epoch != 0 && self.total_steps != 0
    }
}

/// The current clients that stay healthy, in order.
pub open spec fn healthy_clients(s: Seq<Client>) -> Seq<Client>
    decreases s.len(),
{
    if s.len() == 0 {
        s
    } else {
        let rest = healthy_clients(s.drop_last());
        if s.last().state == ClientState::Healthy {
            rest.push(s.last())
        } else {
            rest
        }
    }
}

/// The current clients that are no longer healthy, in order, stamped with the
/// height at which they exit.
pub open spec fn exiting_clients(s: Seq<Client>, height: u32) -> Seq<Client>
    decreases s.len(),
{
    if s.len() == 0 {
        Seq::empty()
    } else {
        let rest = exiting_clients(s.drop_last(), height);
        if s.last().state == ClientState::Healthy {
            rest
        } else {
            rest.push(Client { exited_height: height, ..s.last() })
        }
    }
}

/// Some client of `clients` has identity `id`.
pub open spec fn has_client_id(clients: Seq<Client>, id: NodeId) -> bool {
    exists|j: int| 0 <= j < clients.len() && (#[trigger] clients[j]).id == id
}

/// The clients of the next epoch: the remaining clients followed by a fresh healthy
/// client for each pending id that is not already a remaining client.
pub open spec fn joined_clients(prev: Seq<Client>, pending: Seq<NodeId>) -> Seq<Client>
    decreases pending.len(),
{
    if pending.len() == 0 {
        prev
    } else {
        let rest = joined_clients(prev, pending.drop_last());
        let id = pending.last();
        if has_client_id(prev, id) {
            rest
        } else {
            rest.push(Client { id, state: ClientState::Healthy, exited_height: 0 })
        }
    }
}

/// The data index after a round that consumed `batches_per_round` batches of
/// `data_indicies_per_batch` indices.
pub open spec fn next_round_data_index(data_index: u64, batches_per_round: u16, data_indicies_per_batch: u16) -> int {
    data_index + batches_per_round * data_indicies_per_batch
}

impl CoordinatorView {
    /// Enters `s` at time `ts`.
    pub open spec fn with_state(self, ts: u64, s: RunState) -> CoordinatorView {
        CoordinatorView { run_state: s, run_state_start_unix_timestamp: ts, ..self }
    }

    /// The state entered at the end of an epoch: waiting for members while steps
    /// remain, finished otherwise.
    pub open spec fn waiting_or_finished(self) -> RunState {
        if self.progress.step < self.config.total_steps {
            RunState::WaitingForMembers
        } else {
            RunState::Finished
        }
    }

    /// `duration` has passed since the run state began, at a later tick time.
    pub open spec fn timed_out(self, ts: u64, duration: u64) -> bool {
        self.run_state_start_unix_timestamp != ts && ts >= duration + self.run_state_start_unix_timestamp
    }

    /// The clock arithmetic of `timed_out` fits in 64 bits.
    pub open spec fn timeout_fits(self, ts: u64, duration: u64) -> bool {
        self.run_state_start_unix_timestamp != ts ==> duration + self.run_state_start_unix_timestamp <= u64::MAX
    }

    /// Moves the clients that are no longer healthy to the exited list, stamped
    /// with `height`.
    pub open spec fn move_clients_to_exited(self, height: u32) -> CoordinatorView {
        let e = self.epoch_state;
        CoordinatorView {
            epoch_state: EpochStateView {
                clients: healthy_clients(e.clients),
                exited_clients: e.exited_clients + exiting_clients(e.clients, height),
                ..e
            },
            ..self
        }
    }

    /// The arithmetic of starting the next round fits its types.
    pub open spec fn next_round_fits(self) -> bool {
        !self.epoch_state.first_round ==> {
            &&& self.cur().height + 1 <= u32::MAX
            &&& next_round_data_index(self.cur().data_index, self.config.batches_per_round, self.config.data_indicies_per_batch) <= u64::MAX
        }
    }

    /// Starts a training round: the first round of an epoch goes to slot zero at
    /// height zero from the epoch's start data index, later rounds to the next slot
    /// of the ring at the next height and data index; the round records the client
    /// count, seed and tie-breaker tasks and has no witnesses yet.
    pub open spec fn start_round_train(self, ts: u64, random_seed: u64, tie_breaker_tasks: u16) -> CoordinatorView {
        let e = self.epoch_state;
        let first = e.first_round;
        let head: int = if first { 0 } else { (e.rounds_head + 1) % 4 };
        let height: int = if first { 0 } else { self.cur().height + 1 };
        let data_index: int = if first {
            self.progress.epoch_start_data_index as int
        } else {
            next_round_data_index(self.cur().data_index, self.config.batches_per_round, self.config.data_indicies_per_batch)
        };
        let round = RoundView {
            witnesses: Seq::empty(),
            num_witnesses: 0,
            data_index: data_index as u64,
            random_seed,
            height: height as u32,
            clients_len: e.clients.len() as u16,
            tie_breaker_tasks,
        };
        CoordinatorView {
            epoch_state: EpochStateView { rounds: e.rounds.update(head, round), rounds_head: head as u32, ..e },
            ..self
        }.with_state(ts, RunState::RoundTrain)
    }

    /// Ends the epoch's rounds: waiting for members while steps remain, else finished.
    pub open spec fn start_waiting_for_members(self, ts: u64) -> CoordinatorView {
        self.with_state(ts, self.waiting_or_finished())
    }

    /// The clients of the next epoch.
    pub open spec fn next_epoch_clients(self, pending: Seq<NodeId>) -> Seq<Client> {
        let moved = self.move_clients_to_exited(self.cur().height);
        joined_clients(moved.epoch_state.clients, pending)
    }

    /// The model after the clients are known: a run with no remaining clients loads
    /// a P2P checkpoint from the hub; a later epoch with remaining clients shares a
    /// hub checkpoint over P2P.
    pub open spec fn next_epoch_model(self, remaining: Seq<Client>) -> Model {
        match self.model {
            Model::LLM(llm) => if remaining.len() == 0 {
                match llm.checkpoint {
                    Checkpoint::P2P(r) => Model::LLM(crate::model::LLM { checkpoint: Checkpoint::Hub(r), ..llm }),
                    _ => self.model,
                }
            } else if self.progress.epoch != 0 {
                match llm.checkpoint {
                    Checkpoint::Hub(r) => Model::LLM(crate::model::LLM { checkpoint: Checkpoint::P2P(r), ..llm }),
                    _ => self.model,
                }
            } else {
                self.model
            },
        }
    }

    /// Waiting for members: once at least `min_clients` ids are pending (their count
    /// taken as a `u16`), the non-healthy clients exit, the epoch state is reset with
    /// the remaining clients plus the new pending ids, and warmup begins.
    pub open spec fn tick_waiting_for_members(self, pending: Option<Seq<NodeId>>, ts: u64) -> CoordinatorView {
        match pending {
            None => self,
            Some(p) => if (p.len() as u16) >= self.config.min_clients {
                let moved = self.move_clients_to_exited(self.cur().height);
                let remaining = moved.epoch_state.clients;
                CoordinatorView {
                    model: self.next_epoch_model(remaining),
                    epoch_state: EpochStateView {
                        rounds: Seq::new(4, |i: int| Round::empty_view()),
                        clients: joined_clients(remaining, p),
                        exited_clients: Seq::empty(),
                        rounds_head: 0,
                        first_round: true,
                        checkpointed: false,
                        pause: false,
                    },
                    ..self
                }.with_state(ts, RunState::Warmup)
            } else {
                self
            },
        }
    }

    /// Warmup: once `warmup_time` has passed the first round starts, otherwise
    /// clients that are no longer healthy exit; with fewer than `min_clients`
    /// clients left the epoch ends unsuccessfully.
    pub open spec fn tick_warmup(self, ts: u64, random_seed: u64) -> (CoordinatorView, TickResult) {
        let s1 = if self.timed_out(ts, self.config.warmup_time) {
            self.start_round_train(ts, random_seed, 0)
        } else {
            self.move_clients_to_exited(0)
        };
        if s1.epoch_state.clients.len() < self.config.min_clients {
            (s1.start_waiting_for_members(ts), TickResult::EpochEnd(false))
        } else {
            (s1, TickResult::Ticked)
        }
    }

    /// Training: once `max_round_train_time` has passed, witnessing begins.
    pub open spec fn tick_round_train(self, ts: u64) -> CoordinatorView {
        if self.timed_out(ts, self.config.max_round_train_time) {
            self.with_state(ts, RunState::RoundWitness)
        } else {
            self
        }
    }

    /// The state after a witness round times out, before the next phase starts:
    /// the step advances and clients that are no longer healthy exit.
    pub open spec fn witness_round_closed(self) -> CoordinatorView {
        CoordinatorView {
            progress: CoordinatorProgress { step: (self.progress.step + 1) as u32, ..self.progress },
            epoch_state: EpochStateView { first_round: false, ..self.epoch_state },
            ..self
        }.move_clients_to_exited(self.cur().height)
    }

    /// After a witness round the epoch cools down when it reached its last round,
    /// lost too many clients, or got no witnesses or fewer than the quorum.
    pub open spec fn witness_round_ends_epoch(self) -> bool {
        let closed = self.witness_round_closed();
        let height = self.cur().height;
        let num_witnesses = self.cur().witnesses.len();
        height == self.config.rounds_per_epoch - 1 || closed.epoch_state.clients.len() < self.config.min_clients
            || num_witnesses == 0 || num_witnesses < self.config.witness_quorum
    }

    /// Witnessing: once `round_witness_time` has passed the step advances, the
    /// clients that are no longer healthy exit, and either cooldown or the next
    /// training round begins.
    pub open spec fn tick_round_witness(self, ts: u64, random_seed: u64) -> CoordinatorView {
        if self.timed_out(ts, self.config.round_witness_time) {
            let closed = self.witness_round_closed();
            if self.witness_round_ends_epoch() {
                closed.with_state(ts, RunState::Cooldown)
            } else {
                closed.start_round_train(ts, random_seed, 0)
            }
        } else {
            self
        }
    }

    /// Cooldown ends on a checkpoint, or after `cooldown_time` when that is non-zero.
    pub open spec fn cooldown_over(self, ts: u64) -> bool {
        self.epoch_state.checkpointed || (self.config.cooldown_time > 0 && self.timed_out(ts, self.config.cooldown_time))
    }

    /// Cooldown: when it is over the epoch's progress is saved, the next epoch starts
    /// at the data index after the current round, clients that are no longer healthy
    /// exit, and the run waits for members (or finishes).
    pub open spec fn tick_cooldown(self, ts: u64) -> (CoordinatorView, TickResult) {
        if self.cooldown_over(ts) {
            let progress = CoordinatorProgress {
                epoch: (self.progress.epoch + 1) as u16,
                epoch_start_data_index: next_round_data_index(
                    self.cur().data_index,
                    self.config.batches_per_round,
                    self.config.data_indicies_per_batch,
                ) as u64,
                ..self.progress
            };
            let s1 = CoordinatorView { prev_epoch_progress: self.progress, progress, ..self };
            (s1.move_clients_to_exited(self.cur().height).start_waiting_for_members(ts), TickResult::EpochEnd(true))
        } else {
            (self, TickResult::Ticked)
        }
    }

    /// One tick: a halted run refuses; a pending pause pauses the run and ends the
    /// epoch; otherwise the current phase advances. A successful tick counts itself
    /// and records its time.
    pub open spec fn tick(self, pending: Option<Seq<NodeId>>, ts: u64, random_seed: u64) -> (CoordinatorView, Result<TickResult, CoordinatorError>) {
        if self.halted() {
            (self, Err(CoordinatorError::Halted))
        } else {
            let (s, r) = if self.epoch_state.pause {
                (CoordinatorView { epoch_state: EpochStateView { pause: false, ..self.epoch_state }, ..self }.with_state(ts, RunState::Paused),
                 TickResult::EpochEnd(false))
            } else if self.run_state == RunState::WaitingForMembers {
                (self.tick_waiting_for_members(pending, ts), TickResult::Ticked)
            } else if self.run_state == RunState::Cooldown {
                self.tick_cooldown(ts)
            } else if self.run_state == RunState::Warmup {
                self.tick_warmup(ts, random_seed)
            } else if self.run_state == RunState::RoundTrain {
                (self.tick_round_train(ts), TickResult::Ticked)
            } else {
                (self.tick_round_witness(ts, random_seed), TickResult::Ticked)
            };
            (CoordinatorView { tick: (s.tick + 1) as u64, last_tick_unix_timestamp: ts, ..s }, Ok(r))
        }
    }

    /// The inputs on which a tick stays within its types and capacities.
    pub open spec fn tick_fits(self, pending: Option<Seq<NodeId>>, ts: u64) -> bool {
        !self.halted() ==> {
            &&& self.tick < u64::MAX
            &&& !self.epoch_state.pause ==> {
                &&& self.run_state == RunState::WaitingForMembers ==> match pending {
                    Some(p) => (p.len() as u16) >= self.config.min_clients ==>
                        self.next_epoch_clients(p).len() <= SOLANA_MAX_NUM_CLIENTS,
                    None => true,
                }
                &&& self.run_state == RunState::Warmup ==> {
                    &&& self.timeout_fits(ts, self.config.warmup_time)
                    &&& self.timed_out(ts, self.config.warmup_time) ==> self.next_round_fits()
                }
                &&& self.run_state == RunState::RoundTrain ==> self.timeout_fits(ts, self.config.max_round_train_time)
                &&& self.run_state == RunState::RoundWitness ==> {
                    &&& self.timeout_fits(ts, self.config.round_witness_time)
                    &&& self.timed_out(ts, self.config.round_witness_time) ==> {
                        &&& self.progress.step < u32::MAX
                        &&& self.config.rounds_per_epoch > 0
                        &&& !self.witness_round_ends_epoch() ==> self.witness_round_closed().next_round_fits()
                    }
                }
                &&& self.run_state == RunState::Cooldown ==> {
                    &&& !self.epoch_state.checkpointed && self.config.cooldown_time > 0 ==> self.timeout_fits(ts, self.config.cooldown_time)
                    &&& self.cooldown_over(ts) ==> {
                        &&& self.progress.epoch < u16::MAX
                        &&& next_round_data_index(self.cur().data_index, self.config.batches_per_round, self.config.data_indicies_per_batch) <= u64::MAX
                    }
                }
            }
        }
    }
}

/// The view of rounds after replacing one slot.
pub(crate) proof fn lemma_rounds_view_update(rounds: [Round; 4], i: int, r: Round)
    requires
        0 <= i < 4,
    ensures
        rounds@.update(i, r).map_values(|x: Round| x@) =~= rounds@.map_values(|x: Round| x@).update(i, r@),
{
}

/// Healthy and exiting clients split the clients.
pub proof fn lemma_exit_split_len(s: Seq<Client>, height: u32)
    ensures
        healthy_clients(s).len() + exiting_clients(s, height).len() == s.len(),
    decreases s.len(),
{
    if s.len() > 0 {
        lemma_exit_split_len(s.drop_last(), height);
    }
}

/// Copies a list of clients.
fn copy_clients(v: &Vec<Client>) -> (out: Vec<Client>)
    ensures
        out@ == v@,
{
    let mut out: Vec<Client> = Vec::new();
    let mut i: usize = 0;
    while i < v.len()
        invariant
            i <= v@.len(),
            out@ == v@.take(i as int),
        decreases v@.len() - i,
    {
        out.push(v[i]);
        assert(v@.take(i + 1) =~= v@.take(i as int).push(v@[i as int]));
        i += 1;
    }
    assert(v@.take(v@.len() as int) =~= v@);
    out
}

/// Whether some client has identity `id`.
fn contains_client_id(clients: &Vec<Client>, id: &NodeId) -> (r: bool)
    ensures
        r == has_client_id(clients@, *id),
{
    let mut j: usize = 0;
    while j < clients.len()
        invariant
            j <= clients@.len(),
            forall|k: int| 0 <= k < j ==> (#[trigger] clients@[k]).id != *id,
        decreases clients@.len() - j,
    {
        if ids_equal(&clients[j].id, id) {
            return true;
        }
        j += 1;
    }
    false
}

impl Coordinator {
    /// Nothing advances: uninitialized, finished or paused.
    pub fn halted(&self) -> (r: bool)
        ensures
            r == self@.halted(),
    {
        match self.run_state {
            RunState::Uninitialized | RunState::Finished | RunState::Paused => true,
            _ => false,
        }
    }

    /// A round is under way: not halted and past warmup.
    pub fn active(&self) -> (r: bool)
        ensures
            r == self@.active(),
    {
        !self.halted() && !matches!(self.run_state, RunState::WaitingForMembers | RunState::Warmup)
    }

    pub(crate) fn change_state(&mut self, unix_timestamp: u64, new_state: RunState)
        requires
            old(self).run_state != new_state,
        ensures
            final(self)@ == old(self)@.with_state(unix_timestamp, new_state),
    {
        self.run_state_start_unix_timestamp = unix_timestamp;
        self.run_state = new_state;
    }

    fn check_timeout(&self, unix_timestamp: u64, duration: u64) -> (r: bool)
        requires
            self@.timeout_fits(unix_timestamp, duration),
        ensures
            r == self@.timed_out(unix_timestamp, duration),
    {
        self.run_state_start_unix_timestamp != unix_timestamp
            && unix_timestamp >= duration + self.run_state_start_unix_timestamp
    }

    /// The data index after a round of `batches_per_round` batches of
    /// `data_indicies_per_batch` indices.
    pub fn get_next_round_data_index(data_index: u64, batches_per_round: u16, data_indicies_per_batch: u16) -> (r: u64)
        requires
            next_round_data_index(data_index, batches_per_round, data_indicies_per_batch) <= u64::MAX,
        ensures
            r == next_round_data_index(data_index, batches_per_round, data_indicies_per_batch),
    {
        assert(batches_per_round as u64 * data_indicies_per_batch as u64 <= 0xffff * 0xffff) by (nonlinear_arith)
            requires batches_per_round <= 0xffff, data_indicies_per_batch <= 0xffff;
        data_index + (batches_per_round as u64 * data_indicies_per_batch as u64)
    }

    fn move_clients_to_exited(&mut self, height: u32)
        ensures
            final(self)@ == old(self)@.move_clients_to_exited(height),
            final(self).epoch_state.clients@.len() + final(self).epoch_state.exited_clients@.len()
                == old(self).epoch_state.clients@.len() + old(self).epoch_state.exited_clients@.len(),
    {
        let ghost clients_before = self.epoch_state.clients@;
        let ghost exited_before = self.epoch_state.exited_clients@;
        let mut kept: Vec<Client> = Vec::new();
        let mut exited = copy_clients(&self.epoch_state.exited_clients);
        let mut i: usize = 0;
        while i < self.epoch_state.clients.len()
            invariant
                i <= clients_before.len(),
                self.epoch_state.clients@ == clients_before,
                kept@ == healthy_clients(clients_before.take(i as int)),
                exited@ == exited_before + exiting_clients(clients_before.take(i as int), height),
            decreases clients_before.len() - i,
        {
            let c = self.epoch_state.clients[i];
            assert(clients_before.take(i + 1).drop_last() =~= clients_before.take(i as int));
            if c.state != ClientState::Healthy {
                let mut e = c;
                e.exited_height = height;
                exited.push(e);
            } else {
                kept.push(c);
            }
            i += 1;
        }
        assert(clients_before.take(clients_before.len() as int) =~= clients_before);
        self.epoch_state.exited_clients = exited;
        self.epoch_state.clients = kept;
        proof {
            lemma_exit_split_len(clients_before, height);
        }
    }

    fn start_round_train(&mut self, unix_timestamp: u64, random_seed: u64, tie_breaker_tasks: u16)
        requires
            old(self).epoch_state.rounds_head < 4,
            old(self).run_state != RunState::RoundTrain,
            old(self)@.next_round_fits(),
        ensures
            final(self)@ == old(self)@.start_round_train(unix_timestamp, random_seed, tie_breaker_tasks),
    {
        let head = self.epoch_state.rounds_head as usize;
        let ghost before = self@;
        let (next_head, next_height, next_data_index) = if self.epoch_state.first_round {
            (0usize, 0u32, self.progress.epoch_start_data_index)
        } else {
            let current = self.epoch_state.rounds[head];
            (
                (head + 1) % 4,
                current.height + 1,
                Self::get_next_round_data_index(
                    current.data_index,
                    self.config.batches_per_round,
                    self.config.data_indicies_per_batch,
                ),
            )
        };
        let mut round = self.epoch_state.rounds[next_head];
        round.clients_len = self.epoch_state.clients.len() as u16;
        round.height = next_height;
        round.data_index = next_data_index;
        round.tie_breaker_tasks = tie_breaker_tasks;
        round.random_seed = random_seed;
        round.num_witnesses = 0;
        assert(round.witnesses@.take(0) =~= Seq::<Witness>::empty());
        proof {
            lemma_rounds_view_update(self.epoch_state.rounds, next_head as int, round);
        }
        self.epoch_state.rounds[next_head] = round;
        self.epoch_state.rounds_head = next_head as u32;
        self.change_state(unix_timestamp, RunState::RoundTrain);
    }

    fn start_waiting_for_members(&mut self, unix_timestamp: u64)
        requires
            old(self).run_state != old(self)@.waiting_or_finished(),
        ensures
            final(self)@ == old(self)@.start_waiting_for_members(unix_timestamp),
    {
        let next = if self.progress.step < self.config.total_steps {
            RunState::WaitingForMembers
        } else {
            RunState::Finished
        };
        self.change_state(unix_timestamp, next);
    }
}

/// The pending ids as a sequence.
pub open spec fn pending_view(pending: Option<&[NodeId]>) -> Option<Seq<NodeId>> {
    match pending {
        Some(p) => Some(p@),
        None => None,
    }
}

impl Coordinator {
    /// The coordinator's invariant: every round holds at most sixteen witness slots
    /// and the view is well formed.
    pub open spec fn inv(&self) -> bool {
        self@.wf()
    }

    fn tick_waiting_for_members(&mut self, pending_clients: Option<&[NodeId]>, unix_timestamp: u64) -> (r: TickResult)
        requires
            old(self).run_state == RunState::WaitingForMembers,
            old(self).epoch_state.rounds_head < 4,
            match pending_view(pending_clients) {
                Some(p) => (#[verifier::truncate] (p.len() as u16)) >= old(self).config.min_clients ==>
                    old(self)@.next_epoch_clients(p).len() <= SOLANA_MAX_NUM_CLIENTS,
                None => true,
            },
        ensures
            final(self)@ == old(self)@.tick_waiting_for_members(pending_view(pending_clients), unix_timestamp),
            r == TickResult::Ticked,
    {
        let pending = match pending_clients {
            None => {
                return TickResult::Ticked;
            },
            Some(p) => p,
        };
        if #[verifier::truncate] (pending.len() as u16) >= self.config.min_clients {
            let ghost before = self@;
            let height = self.epoch_state.rounds[self.epoch_state.rounds_head as usize].height;
            self.move_clients_to_exited(height);
            let ghost remaining = self.epoch_state.clients@;
            let mut next = copy_clients(&self.epoch_state.clients);
            let mut i: usize = 0;
            while i < pending.len()
                invariant
                    i <= pending@.len(),
                    self.epoch_state.clients@ == remaining,
                    next@ == joined_clients(remaining, pending@.take(i as int)),
                decreases pending@.len() - i,
            {
                let id = pending[i];
                assert(pending@.take(i + 1).drop_last() =~= pending@.take(i as int));
                if !contains_client_id(&self.epoch_state.clients, &id) {
                    next.push(Client::new(id));
                }
                i += 1;
            }
            assert(pending@.take(pending@.len() as int) =~= pending@);
            let remaining_empty = self.epoch_state.clients.len() == 0;
            match self.model {
                Model::LLM(llm) => {
                    let mut llm = llm;
                    if remaining_empty {
                        if let Checkpoint::P2P(hub_repo) = llm.checkpoint {
                            llm.checkpoint = Checkpoint::Hub(hub_repo);
                        }
                    } else if self.progress.epoch != 0 {
                        if let Checkpoint::Hub(hub_repo) = llm.checkpoint {
                            llm.checkpoint = Checkpoint::P2P(hub_repo);
                        }
                    }
                    self.model = Model::LLM(llm);
                },
            }
            let mut fresh = CoordinatorEpochState::default();
            fresh.clients = next;
            assert(fresh@.rounds =~= Seq::new(4, |i: int| Round::empty_view()));
            self.epoch_state = fresh;
            self.change_state(unix_timestamp, RunState::Warmup);
        }
        TickResult::Ticked
    }

    fn tick_warmup(&mut self, unix_timestamp: u64, random_seed: u64) -> (r: TickResult)
        requires
            old(self).run_state == RunState::Warmup,
            old(self).epoch_state.rounds_head < 4,
            old(self).epoch_state.clients@.len() <= SOLANA_MAX_NUM_CLIENTS,
            old(self)@.timeout_fits(unix_timestamp, old(self).config.warmup_time),
            old(self)@.timed_out(unix_timestamp, old(self).config.warmup_time) ==> old(self)@.next_round_fits(),
        ensures
            (final(self)@, r) == old(self)@.tick_warmup(unix_timestamp, random_seed),
    {
        if self.check_timeout(unix_timestamp, self.config.warmup_time) {
            self.start_round_train(unix_timestamp, random_seed, 0);
        } else {
            self.move_clients_to_exited(0);
        }
        if (self.epoch_state.clients.len() as u16) < self.config.min_clients {
            self.start_waiting_for_members(unix_timestamp);
            TickResult::EpochEnd(false)
        } else {
            TickResult::Ticked
        }
    }

    fn tick_round_train(&mut self, unix_timestamp: u64) -> (r: TickResult)
        requires
            old(self).run_state == RunState::RoundTrain,
            old(self)@.timeout_fits(unix_timestamp, old(self).config.max_round_train_time),
        ensures
            final(self)@ == old(self)@.tick_round_train(unix_timestamp),
            r == TickResult::Ticked,
    {
        if self.check_timeout(unix_timestamp, self.config.max_round_train_time) {
            self.change_state(unix_timestamp, RunState::RoundWitness);
        }
        TickResult::Ticked
    }

    fn tick_round_witness(&mut self, unix_timestamp: u64, random_seed: u64) -> (r: TickResult)
        requires
            old(self).run_state == RunState::RoundWitness,
            old(self).inv(),
            old(self)@.timeout_fits(unix_timestamp, old(self).config.round_witness_time),
            old(self)@.timed_out(unix_timestamp, old(self).config.round_witness_time) ==> {
                &&& old(self).progress.step < u32::MAX
                &&& old(self).config.rounds_per_epoch > 0
                &&& !old(self)@.witness_round_ends_epoch() ==> old(self)@.witness_round_closed().next_round_fits()
            },
        ensures
            final(self)@ == old(self)@.tick_round_witness(unix_timestamp, random_seed),
            r == TickResult::Ticked,
    {
        if self.check_timeout(unix_timestamp, self.config.round_witness_time) {
            let ghost before = self@;
            let head = self.epoch_state.rounds_head as usize;
            self.epoch_state.first_round = false;
            self.progress.step += 1;
            let current = self.epoch_state.rounds[head];
            let height = current.height;
            let num_witnesses = current.num_witnesses;
            self.move_clients_to_exited(height);
            if height == self.config.rounds_per_epoch - 1
                || self.epoch_state.clients.len() < self.config.min_clients as usize
                || num_witnesses == 0
                || num_witnesses < self.config.witness_quorum
            {
                self.change_state(unix_timestamp, RunState::Cooldown);
            } else {
                self.start_round_train(unix_timestamp, random_seed, 0);
            }
        }
        TickResult::Ticked
    }

    fn tick_cooldown(&mut self, unix_timestamp: u64) -> (r: TickResult)
        requires
            old(self).run_state == RunState::Cooldown,
            old(self).epoch_state.rounds_head < 4,
            !old(self).epoch_state.checkpointed && old(self).config.cooldown_time > 0 ==>
                old(self)@.timeout_fits(unix_timestamp, old(self).config.cooldown_time),
            old(self)@.cooldown_over(unix_timestamp) ==> {
                &&& old(self).progress.epoch < u16::MAX
                &&& next_round_data_index(old(self)@.cur().data_index, old(self).config.batches_per_round,
                    old(self).config.data_indicies_per_batch) <= u64::MAX
            },
        ensures
            (final(self)@, r) == old(self)@.tick_cooldown(unix_timestamp),
    {
        if self.epoch_state.checkpointed
            || (self.config.cooldown_time > 0 && self.check_timeout(unix_timestamp, self.config.cooldown_time))
        {
            self.prev_epoch_progress = self.progress;
            let current = self.epoch_state.rounds[self.epoch_state.rounds_head as usize];
            self.progress.epoch_start_data_index = Self::get_next_round_data_index(
                current.data_index,
                self.config.batches_per_round,
                self.config.data_indicies_per_batch,
            );
            self.progress.epoch += 1;
            self.move_clients_to_exited(current.height);
            self.start_waiting_for_members(unix_timestamp);
            TickResult::EpochEnd(true)
        } else {
            TickResult::Ticked
        }
    }

    /// Advances the run by one tick. `new_clients` are the ids waiting to join,
    /// `random_seed` seeds the next round's committees.
    pub fn tick(&mut self, new_clients: Option<&[NodeId]>, unix_timestamp: u64, random_seed: u64) -> (r: Result<TickResult, CoordinatorError>)
        requires
            old(self).inv(),
            old(self)@.tick_fits(pending_view(new_clients), unix_timestamp),
        ensures
            (final(self)@, r) == old(self)@.tick(pending_view(new_clients), unix_timestamp, random_seed),
            final(self).inv(),
    {
        proof {
            lemma_tick_keeps_wf(self@, pending_view(new_clients), unix_timestamp, random_seed);
        }
        let ret = match self.run_state {
            RunState::Uninitialized | RunState::Finished | RunState::Paused => {
                return Err(CoordinatorError::Halted);
            },
            run_state => {
                if self.epoch_state.pause {
                    self.epoch_state.pause = false;
                    self.change_state(unix_timestamp, RunState::Paused);
                    TickResult::EpochEnd(false)
                } else if run_state == RunState::WaitingForMembers {
                    self.tick_waiting_for_members(new_clients, unix_timestamp)
                } else if run_state == RunState::Cooldown {
                    self.tick_cooldown(unix_timestamp)
                } else if run_state == RunState::Warmup {
                    self.tick_warmup(unix_timestamp, random_seed)
                } else if run_state == RunState::RoundTrain {
                    self.tick_round_train(unix_timestamp)
                } else {
                    self.tick_round_witness(unix_timestamp, random_seed)
                }
            },
        };
        self.tick = self.tick + 1;
        self.last_tick_unix_timestamp = unix_timestamp;
        Ok(ret)
    }
}

/// Moving clients to the exited list keeps everything the invariant speaks of but
/// the active-round count: rounds are untouched and the client total is conserved.
proof fn lemma_move_keeps_counts(c: CoordinatorView, height: u32)
    ensures
        c.move_clients_to_exited(height).epoch_state.clients.len()
            + c.move_clients_to_exited(height).epoch_state.exited_clients.len()
            == c.epoch_state.clients.len() + c.epoch_state.exited_clients.len(),
        c.move_clients_to_exited(height).epoch_state.clients.len() <= c.epoch_state.clients.len(),
{
    lemma_exit_split_len(c.epoch_state.clients, height);
}

/// Starting a round from a state whose rounds and client counts are in shape gives
/// a well-formed coordinator.
proof fn lemma_start_round_train_wf(c: CoordinatorView, ts: u64, seed: u64)
    requires
        c.epoch_state.rounds.len() == NUM_STORED_ROUNDS,
        c.epoch_state.rounds_head < NUM_STORED_ROUNDS,
        forall|r: int| 0 <= r < NUM_STORED_ROUNDS ==> {
            let round = #[trigger] c.epoch_state.rounds[r];
            &&& round.num_witnesses <= SOLANA_MAX_NUM_WITNESSES
            &&& round.witnesses.len() == round.num_witnesses
            &&& forall|j: int| 0 <= j < round.witnesses.len() ==> witness_wf(#[trigger] round.witnesses[j])
        },
        c.epoch_state.clients.len() + c.epoch_state.exited_clients.len() <= SOLANA_MAX_NUM_CLIENTS,
    ensures
        c.start_round_train(ts, seed, 0).wf(),
{
    let n = c.start_round_train(ts, seed, 0);
    assert forall|r: int| 0 <= r < NUM_STORED_ROUNDS implies {
        let round = #[trigger] n.epoch_state.rounds[r];
        &&& round.num_witnesses <= SOLANA_MAX_NUM_WITNESSES
        &&& round.witnesses.len() == round.num_witnesses
        &&& forall|j: int| 0 <= j < round.witnesses.len() ==> witness_wf(#[trigger] round.witnesses[j])
    } by {
        let round = c.epoch_state.rounds[r];
    }
}

/// The run states a tick may lead to from each run state.
pub open spec fn tick_edge(from: RunState, to: RunState) -> bool {
    to == from || to == RunState::Paused || match from {
        RunState::WaitingForMembers => to == RunState::Warmup,
        RunState::Warmup => to == RunState::RoundTrain || to == RunState::WaitingForMembers || to == RunState::Finished,
        RunState::RoundTrain => to == RunState::RoundWitness,
        RunState::RoundWitness => to == RunState::RoundTrain || to == RunState::Cooldown,
        RunState::Cooldown => to == RunState::WaitingForMembers || to == RunState::Finished,
        _ => false,
    }
}

/// A tick moves the run only along the phase graph: waiting for members to warmup,
/// warmup to training (or back to waiting, or finished), training to witnessing,
/// witnessing to training or cooldown, cooldown to waiting or finished, or
/// anywhere into a pause; a halted run stays where it is. A successful tick
/// counts itself and records its time; a refused one changes nothing. The step
/// never goes back and moves by at most one.
pub proof fn lemma_tick_moves(c: CoordinatorView, pending: Option<Seq<NodeId>>, ts: u64, seed: u64)
    ensures
        tick_edge(c.run_state, c.tick(pending, ts, seed).0.run_state),
        c.halted() ==> c.tick(pending, ts, seed).0 == c,
        c.tick(pending, ts, seed).1 is Ok ==> {
            &&& c.tick(pending, ts, seed).0.tick == (c.tick + 1) as u64
            &&& c.tick(pending, ts, seed).0.last_tick_unix_timestamp == ts
        },
        c.tick(pending, ts, seed).1 is Err ==> c.tick(pending, ts, seed).0 == c,
        c.tick(pending, ts, seed).0.progress.step == c.progress.step
            || c.tick(pending, ts, seed).0.progress.step == (c.progress.step + 1) as u32,
{
}

/// The rounds of an epoch stay below `rounds_per_epoch`: warmup only runs for a
/// fresh epoch, and a running round's height is below the number of rounds an
/// epoch has.
pub open spec fn epoch_heights_ok(c: CoordinatorView) -> bool {
    &&& c.run_state == RunState::Warmup ==> c.epoch_state.first_round
    &&& (c.run_state == RunState::RoundTrain || c.run_state == RunState::RoundWitness)
        ==> c.cur().height < c.config.rounds_per_epoch
}

/// An epoch never goes past `rounds_per_epoch` rounds: when the witness round at
/// height `rounds_per_epoch - 1` times out the run cools down, and no tick ever
/// starts a round at a height of `rounds_per_epoch` or more. An earlier witness
/// round that times out with enough healthy clients and witnesses goes on to the
/// next training round, one height up.
pub proof fn lemma_epoch_ends_after_its_rounds(c: CoordinatorView, pending: Option<Seq<NodeId>>, ts: u64, seed: u64)
    requires
        c.wf(),
        c.config.rounds_per_epoch > 0,
        epoch_heights_ok(c),
    ensures
        epoch_heights_ok(c.tick(pending, ts, seed).0),
        (!c.halted() && !c.epoch_state.pause && c.run_state == RunState::RoundWitness
            && c.timed_out(ts, c.config.round_witness_time)
            && c.cur().height == c.config.rounds_per_epoch - 1)
            ==> c.tick(pending, ts, seed).0.run_state == RunState::Cooldown,
        (!c.halted() && !c.epoch_state.pause && c.run_state == RunState::RoundWitness
            && c.timed_out(ts, c.config.round_witness_time)
            && c.cur().height < c.config.rounds_per_epoch - 1
            && healthy_clients(c.epoch_state.clients).len() >= c.config.min_clients
            && c.cur().witnesses.len() > 0 && c.cur().witnesses.len() >= c.config.witness_quorum)
            ==> {
                &&& c.tick(pending, ts, seed).0.run_state == RunState::RoundTrain
                &&& c.tick(pending, ts, seed).0.cur().height == c.cur().height + 1
            },
{
    if !c.halted() && !c.epoch_state.pause && c.run_state == RunState::RoundWitness
        && c.timed_out(ts, c.config.round_witness_time) {
        let closed = c.witness_round_closed();
        assert(closed.cur() == c.cur());
        assert(closed.config == c.config);
        if !c.witness_round_ends_epoch() {
            let n = closed.start_round_train(ts, seed, 0);
            let head = (closed.epoch_state.rounds_head + 1) % 4;
            assert(n.epoch_state.rounds_head == head);
            assert(n.cur().height == c.cur().height + 1);
        }
    }
    if !c.halted() && !c.epoch_state.pause && c.run_state == RunState::Warmup
        && c.timed_out(ts, c.config.warmup_time) {
        let n = c.start_round_train(ts, seed, 0);
        assert(n.epoch_state.rounds_head == 0);
        assert(n.cur().height == 0);
    }
}

/// An accepted checkpoint records the reported repository: a model that loads its
/// checkpoint from the hub (or over P2P) afterwards names exactly the reported
/// repository that way, and the rest of the model stays as it was.
pub proof fn lemma_checkpoint_records_repo(c: CoordinatorView, from: NodeId, hub_repo: HubRepo)
    ensures
        c.checkpoint(from, hub_repo).1 is Ok ==> match c.model {
            Model::LLM(llm) => match c.checkpoint(from, hub_repo).0.model {
                Model::LLM(after) => {
                    &&& (llm.checkpoint is Hub ==> after.checkpoint == Checkpoint::Hub(hub_repo))
                    &&& (llm.checkpoint is P2P ==> after.checkpoint == Checkpoint::P2P(hub_repo))
                    &&& (!(llm.checkpoint is Hub) && !(llm.checkpoint is P2P) ==> after.checkpoint == llm.checkpoint)
                    &&& after.architecture == llm.architecture
                    &&& after.max_seq_len == llm.max_seq_len
                    &&& after.data_type == llm.data_type
                    &&& after.data_location == llm.data_location
                    &&& after.optimizer == llm.optimizer
                },
            },
        },
        c.checkpoint(from, hub_repo).1 is Ok ==> c.checkpoint(from, hub_repo).0.epoch_state.checkpointed,
{
}

/// The coordinator's invariant holds after every tick: a tick from a well-formed
/// coordinator, on inputs within its types and capacities, leaves it well formed.
pub proof fn lemma_tick_keeps_wf(c: CoordinatorView, pending: Option<Seq<NodeId>>, ts: u64, seed: u64)
    requires
        c.wf(),
        c.tick_fits(pending, ts),
    ensures
        c.tick(pending, ts, seed).0.wf(),
{
    if !c.halted() && !c.epoch_state.pause {
        if c.run_state == RunState::WaitingForMembers {
            match pending {
                Some(p) => {
                    if (p.len() as u16) >= c.config.min_clients {
                        let n = c.tick_waiting_for_members(pending, ts);
                        assert forall|r: int| 0 <= r < NUM_STORED_ROUNDS implies {
                            let round = #[trigger] n.epoch_state.rounds[r];
                            &&& round.num_witnesses <= SOLANA_MAX_NUM_WITNESSES
                            &&& round.witnesses.len() == round.num_witnesses
                            &&& forall|j: int| 0 <= j < round.witnesses.len() ==> witness_wf(#[trigger] round.witnesses[j])
                        } by {}
                    }
                },
                None => {},
            }
        } else if c.run_state == RunState::Cooldown {
            lemma_move_keeps_counts(c, c.cur().height);
        } else if c.run_state == RunState::Warmup {
            if c.timed_out(ts, c.config.warmup_time) {
                lemma_start_round_train_wf(c, ts, seed);
            } else {
                lemma_move_keeps_counts(c, 0);
            }
        } else if c.run_state == RunState::RoundWitness {
            if c.timed_out(ts, c.config.round_witness_time) {
                let closed0 = CoordinatorView {
                    progress: CoordinatorProgress { step: (c.progress.step + 1) as u32, ..c.progress },
                    epoch_state: EpochStateView { first_round: false, ..c.epoch_state },
                    ..c
                };
                lemma_move_keeps_counts(closed0, c.cur().height);
                if !c.witness_round_ends_epoch() {
                    lemma_start_round_train_wf(c.witness_round_closed(), ts, seed);
                }
            }
        }
    }
}

/// A proof that `id` is one of the checkpointers.
pub open spec fn is_checkpointer(checkpointers: Seq<NodeId>, id: NodeId) -> bool {
    exists|j: int| 0 <= j < checkpointers.len() && checkpointers[j] == id
}

impl CoordinatorView {
    /// The model with its checkpoint pointed at `hub_repo`, keeping a hub checkpoint a
    /// hub checkpoint and a P2P one P2P; other checkpoints stay.
    pub open spec fn model_with_checkpoint(self, hub_repo: HubRepo) -> Model {
        match self.model {
            Model::LLM(llm) => match llm.checkpoint {
                Checkpoint::P2P(_) => Model::LLM(crate::model::LLM { checkpoint: Checkpoint::P2P(hub_repo), ..llm }),
                Checkpoint::Hub(_) => Model::LLM(crate::model::LLM { checkpoint: Checkpoint::Hub(hub_repo), ..llm }),
                _ => self.model,
            },
        }
    }

    /// A checkpointer reports a checkpoint: accepted once per epoch, and only from a
    /// configured checkpointer.
    pub open spec fn checkpoint(self, from: NodeId, hub_repo: HubRepo) -> (CoordinatorView, Result<(), CoordinatorError>) {
        if !self.epoch_state.checkpointed && is_checkpointer(self.config.checkpointers, from) {
            (CoordinatorView {
                model: self.model_with_checkpoint(hub_repo),
                epoch_state: EpochStateView { checkpointed: true, ..self.epoch_state },
                ..self
            }, Ok(()))
        } else {
            (self, Err(CoordinatorError::InvalidCheckpoint))
        }
    }

    /// A healthy client withdraws.
    pub open spec fn withdraw(self, index: u64) -> (CoordinatorView, Result<(), CoordinatorError>) {
        let clients = self.epoch_state.clients;
        if index < clients.len() && clients[index as int].state == ClientState::Healthy {
            (CoordinatorView {
                epoch_state: EpochStateView {
                    clients: clients.update(index as int, Client { state: ClientState::Withdrawn, ..clients[index as int] }),
                    ..self.epoch_state
                },
                ..self
            }, Ok(()))
        } else {
            (self, Err(CoordinatorError::InvalidWithdraw))
        }
    }

    /// A paused run resumes from the progress saved at the end of the previous epoch.
    pub open spec fn resume(self, ts: u64) -> (CoordinatorView, Result<(), CoordinatorError>) {
        if self.run_state != RunState::Paused {
            (self, Err(CoordinatorError::CannotResume))
        } else {
            (CoordinatorView { progress: self.prev_epoch_progress, ..self }.start_waiting_for_members(ts), Ok(()))
        }
    }
}

impl Coordinator {
    /// The round at the head of the ring, if the head is in range.
    pub fn current_round(&self) -> (r: Option<&Round>)
        ensures
            self.epoch_state.rounds_head < 4 ==> r == Some(&self.epoch_state.rounds[self.epoch_state.rounds_head as int]),
            self.epoch_state.rounds_head >= 4 ==> r is None,
    {
        if (self.epoch_state.rounds_head as usize) < 4 {
            Some(&self.epoch_state.rounds[self.epoch_state.rounds_head as usize])
        } else {
            None
        }
    }

    /// The data index of the current round, zero when the head is out of range.
    pub open spec fn current_data_index(&self) -> u64 {
        if self.epoch_state.rounds_head < 4 {
            self.epoch_state.rounds[self.epoch_state.rounds_head as int].data_index
        } else {
            0
        }
    }

    /// The sequence length of the model's training samples.
    pub open spec fn seq_len(&self) -> u32 {
        match self.model {
            Model::LLM(llm) => llm.max_seq_len,
        }
    }

    /// Tokens trained so far: the current round's data index times the sequence
    /// length of a pretraining sample.
    pub fn total_tokens(&self) -> (r: u64)
        requires
            match self.model {
                Model::LLM(llm) => llm.data_type == LLMTrainingDataType::Pretraining,
            },
            self.current_data_index() * self.seq_len() <= u64::MAX,
        ensures
            r == self.current_data_index() * self.seq_len(),
    {
        let data_index = match self.current_round() {
            Some(round) => round.data_index,
            None => 0,
        };
        let seq_len = match &self.model {
            Model::LLM(llm) => llm.max_seq_len as u64,
        };
        data_index * seq_len
    }

    /// Tokens a round trains on: its batches times their indices times the sequence
    /// length of a pretraining sample, counted in 32 bits.
    pub fn tokens_per_round(&self) -> (r: u32)
        requires
            match self.model {
                Model::LLM(llm) => llm.data_type == LLMTrainingDataType::Pretraining,
            },
            self.config.batches_per_round * self.config.data_indicies_per_batch * self.seq_len() <= u32::MAX,
        ensures
            r == self.config.batches_per_round * self.config.data_indicies_per_batch * self.seq_len(),
    {
        let seq_len = match &self.model {
            Model::LLM(llm) => llm.max_seq_len,
        };
        let b = self.config.batches_per_round as u32;
        let d = self.config.data_indicies_per_batch as u32;
        assert(b * d <= 0xffff * 0xffff) by (nonlinear_arith)
            requires b <= 0xffff, d <= 0xffff;
        assert(b * d <= b * d * seq_len || seq_len == 0) by (nonlinear_arith)
            requires b * d >= 0, seq_len >= 0;
        if seq_len == 0 {
            assert(b * d * seq_len == 0) by (nonlinear_arith)
                requires seq_len == 0;
            return 0;
        }
        let bd = b * d;
        bd * seq_len
    }

    /// The round at the head of the ring.
    pub fn current_round_unchecked(&self) -> (r: &Round)
        requires
            self.epoch_state.rounds_head < 4,
        ensures
            *r == self.epoch_state.rounds[self.epoch_state.rounds_head as int],
    {
        &self.epoch_state.rounds[self.epoch_state.rounds_head as usize]
    }

    /// The coordinators agree everywhere but in their round slots.
    pub open spec fn same_but_rounds(&self, other: &Coordinator) -> bool {
        &&& self.run_id == other.run_id
        &&& self.run_state == other.run_state
        &&& self.model == other.model
        &&& self.config == other.config
        &&& self.progress == other.progress
        &&& self.prev_epoch_progress == other.prev_epoch_progress
        &&& self.epoch_state.clients == other.epoch_state.clients
        &&& self.epoch_state.exited_clients == other.epoch_state.exited_clients
        &&& self.epoch_state.rounds_head == other.epoch_state.rounds_head
        &&& self.epoch_state.first_round == other.epoch_state.first_round
        &&& self.epoch_state.checkpointed == other.epoch_state.checkpointed
        &&& self.epoch_state.pause == other.epoch_state.pause
        &&& self.run_state_start_unix_timestamp == other.run_state_start_unix_timestamp
        &&& self.tick == other.tick
        &&& self.last_tick_unix_timestamp == other.last_tick_unix_timestamp
        &&& self.last_step_unix_timestamp == other.last_step_unix_timestamp
    }

    /// The round at the head of the ring, to change in place.
    pub fn current_round_mut_unchecked(&mut self) -> (r: &mut Round)
        requires
            old(self).epoch_state.rounds_head < 4,
        ensures
            *r == old(self).epoch_state.rounds[old(self).epoch_state.rounds_head as int],
            final(self).same_but_rounds(old(self)),
            final(self).epoch_state.rounds@ == old(self).epoch_state.rounds@.update(
                old(self).epoch_state.rounds_head as int,
                *final(r),
            ),
    {
        let head = self.epoch_state.rounds_head as usize;
        &mut self.epoch_state.rounds[head]
    }

    /// The round at the head of the ring to change in place, if the head is in range.
    pub fn current_round_mut(&mut self) -> (r: Option<&mut Round>)
        ensures
            old(self).epoch_state.rounds_head >= 4 ==> r is None && *final(self) == *old(self),
            old(self).epoch_state.rounds_head < 4 ==> {
                &&& r is Some
                &&& *r->0 == old(self).epoch_state.rounds[old(self).epoch_state.rounds_head as int]
                &&& final(self).same_but_rounds(old(self))
                &&& final(self).epoch_state.rounds@ == old(self).epoch_state.rounds@.update(
                    old(self).epoch_state.rounds_head as int,
                    *final(r->0),
                )
            },
    {
        if (self.epoch_state.rounds_head as usize) < 4 {
            Some(self.current_round_mut_unchecked())
        } else {
            None
        }
    }

    /// The round before the current one: none at the very first round of an epoch,
    /// otherwise the previous slot of the ring.
    pub fn previous_round(&self) -> (r: Option<&Round>)
        ensures
            self.epoch_state.rounds_head >= 4 ==> r is None,
            self.epoch_state.rounds_head < 4 ==> match self@.previous_round_slot() {
                Some(i) => r == Some(&self.epoch_state.rounds[i]),
                None => r is None,
            },
    {
        match self.current_round() {
            Some(round) => {
                if self.epoch_state.rounds_head == 0 && round.height == 0 {
                    None
                } else if self.epoch_state.rounds_head == 0 {
                    Some(&self.epoch_state.rounds[NUM_STORED_ROUNDS - 1])
                } else {
                    Some(&self.epoch_state.rounds[self.epoch_state.rounds_head as usize - 1])
                }
            },
            None => None,
        }
    }

    /// The round two before the current one: none within the first two rounds of
    /// an epoch, otherwise two slots back in the ring.
    pub fn previous_previous_round(&self) -> (r: Option<&Round>)
        ensures
            self.epoch_state.rounds_head >= 4 ==> r is None,
            self.epoch_state.rounds_head < 4 ==> match self@.previous_previous_round_slot() {
                Some(i) => r == Some(&self.epoch_state.rounds[i]),
                None => r is None,
            },
    {
        match self.current_round() {
            Some(round) => {
                if self.epoch_state.rounds_head == 0 && round.height <= 1 {
                    None
                } else if self.epoch_state.rounds_head == 0 {
                    Some(&self.epoch_state.rounds[NUM_STORED_ROUNDS - 2])
                } else if self.epoch_state.rounds_head == 1 {
                    Some(&self.epoch_state.rounds[NUM_STORED_ROUNDS - 1])
                } else {
                    Some(&self.epoch_state.rounds[self.epoch_state.rounds_head as usize - 2])
                }
            },
            None => None,
        }
    }

    /// The client at index `n` of a round that had `prev_clients_len` clients.
    pub fn get_client_at_historical_index(&self, n: usize, prev_clients_len: u16) -> (r: Option<&Client>)
        ensures
            match self@.historical_client(n as nat, prev_clients_len) {
                Some(c) => r matches Some(x) && *x == c,
                None => r is None,
            },
    {
        if n < self.epoch_state.clients.len() {
            Some(&self.epoch_state.clients[n])
        } else if n < prev_clients_len as usize {
            let offset: usize = prev_clients_len as usize - n - 1;
            let len = self.epoch_state.exited_clients.len();
            if offset < len {
                Some(&self.epoch_state.exited_clients[len - 1 - offset])
            } else {
                None
            }
        } else {
            None
        }
    }

    /// The clients of a round that had `clients_len` clients, in index order,
    /// skipping indices with no client.
    pub fn get_historical_clients(&self, clients_len: u16) -> (r: Vec<Client>)
        ensures
            r@ == historical_clients(self@, clients_len, clients_len as nat),
    {
        let mut out: Vec<Client> = Vec::new();
        let mut i: u16 = 0;
        while i < clients_len
            invariant
                i <= clients_len,
                out@ == historical_clients(self@, clients_len, i as nat),
            decreases clients_len - i,
        {
            match self.get_client_at_historical_index(i as usize, clients_len) {
                Some(c) => out.push(*c),
                None => {},
            }
            i += 1;
        }
        out
    }

    /// A checkpointer reports the repository of this epoch's checkpoint.
    pub fn checkpoint(&mut self, from: &NodeId, hub_repo: HubRepo) -> (r: Result<(), CoordinatorError>)
        ensures
            (final(self)@, r) == old(self)@.checkpoint(*from, hub_repo),
            old(self).inv() ==> final(self).inv(),
    {
        let mut is_checkpointer_found = false;
        let mut j: usize = 0;
        while j < self.config.checkpointers.len()
            invariant
                j <= self.config.checkpointers@.len(),
                is_checkpointer_found == (exists|k: int| 0 <= k < j && self.config.checkpointers@[k] == *from),
            decreases self.config.checkpointers@.len() - j,
        {
            if ids_equal(&self.config.checkpointers[j], from) {
                is_checkpointer_found = true;
            }
            j += 1;
        }
        if !self.epoch_state.checkpointed && is_checkpointer_found {
            match self.model {
                Model::LLM(llm) => {
                    let mut llm = llm;
                    match llm.checkpoint {
                        Checkpoint::P2P(_) => llm.checkpoint = Checkpoint::P2P(hub_repo),
                        Checkpoint::Hub(_) => llm.checkpoint = Checkpoint::Hub(hub_repo),
                        _ => {},
                    }
                    self.model = Model::LLM(llm);
                },
            }
            self.epoch_state.checkpointed = true;
            Ok(())
        } else {
            Err(CoordinatorError::InvalidCheckpoint)
        }
    }

    /// Client `index` withdraws if it is healthy.
    pub fn withdraw(&mut self, index: u64) -> (r: Result<(), CoordinatorError>)
        ensures
            (final(self)@, r) == old(self)@.withdraw(index),
            old(self).inv() ==> final(self).inv(),
    {
        if index < self.epoch_state.clients.len() as u64 {
            let i = index as usize;
            let mut client = self.epoch_state.clients[i];
            if client.state == ClientState::Healthy {
                client.state = ClientState::Withdrawn;
                self.epoch_state.clients.set(i, client);
                return Ok(());
            }
        }
        Err(CoordinatorError::InvalidWithdraw)
    }

    /// Asks the run to pause at the next tick.
    pub fn pause(&mut self) -> (r: Result<(), CoordinatorError>)
        ensures
            final(self)@ == (CoordinatorView {
                epoch_state: EpochStateView { pause: true, ..old(self)@.epoch_state },
                ..old(self)@
            }),
            r == Ok::<(), CoordinatorError>(()),
            old(self).inv() ==> final(self).inv(),
    {
        self.epoch_state.pause = true;
        Ok(())
    }

    /// Resumes a paused run from the previous epoch's progress.
    pub fn resume(&mut self, unix_timestamp: u64) -> (r: Result<(), CoordinatorError>)
        ensures
            (final(self)@, r) == old(self)@.resume(unix_timestamp),
            old(self).inv() ==> final(self).inv(),
    {
        if self.run_state != RunState::Paused {
            return Err(CoordinatorError::CannotResume);
        }
        self.progress = self.prev_epoch_progress;
        self.start_waiting_for_members(unix_timestamp);
        Ok(())
    }
}

/// The clients of a round that had `clients_len` clients among the first `k`
/// indices, skipping indices with no client.
pub open spec fn historical_clients(c: CoordinatorView, clients_len: u16, k: nat) -> Seq<Client>
    decreases k,
{
    if k == 0 {
        Seq::empty()
    } else {
        let rest = historical_clients(c, clients_len, (k - 1) as nat);
        match c.historical_client((k - 1) as nat, clients_len) {
            Some(x) => rest.push(x),
            None => rest,
        }
    }
}

} // verus!
