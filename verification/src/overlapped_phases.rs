use vstd::prelude::*;
use crate::committee_selection::{CommitteeProof, NodeId};
use crate::coordinator::RunState;
use crate::client_round::BlobHash;
use crate::hashing::{sha256_pair, sha256_spec};
use crate::overlapped_client::{OverlapRounds, StepPayloadError, StepResult};
use crate::witnessing::{be_bytes_u64, u64_be_bytes};

verus! {

/// The run states a client that overlaps rounds knows how to follow.
pub open spec fn phase_known(s: RunState) -> bool {
    match s {
        RunState::WaitingForMembers | RunState::Warmup | RunState::RoundTrain | RunState::RoundWitness | RunState::Cooldown => true,
        _ => false,
    }
}

/// How a new coordinator state lands on a client that overlaps rounds.
#[derive(Clone, Copy, Debug, PartialEq, Eq, Structural)]
pub enum PhaseTick {
    /// The client is not one of the run's clients: nothing is done or remembered.
    NotMember,
    /// Nothing to do for this state; it is remembered as the previous one.
    Nothing,
    /// The phase begins and its entry work is done; the state is remembered.
    Enter(RunState),
    /// The client missed warmup: the previous state is forgotten until the next one.
    MissedWarmup,
}

/// The tick for a coordinator state `now`, given the state seen before (if any):
/// waiting for members asks nothing; warmup begins unless it already had; the other
/// phases need a state seen before (else warmup was missed) and begin unless they
/// already had.
pub open spec fn phase_tick_spec(is_member: bool, prev: Option<RunState>, now: RunState) -> PhaseTick {
    if !is_member {
        PhaseTick::NotMember
    } else {
        match now {
            RunState::WaitingForMembers => PhaseTick::Nothing,
            RunState::Warmup => if prev == Some(RunState::Warmup) {
                PhaseTick::Nothing
            } else {
                PhaseTick::Enter(RunState::Warmup)
            },
            _ => match prev {
                None => PhaseTick::MissedWarmup,
                Some(p) => if p == now {
                    PhaseTick::Nothing
                } else {
                    PhaseTick::Enter(now)
                },
            },
        }
    }
}

/// The previous state remembered after a tick.
pub open spec fn remembered_after(tick: PhaseTick, prev: Option<RunState>, now: RunState) -> Option<RunState> {
    match tick {
        PhaseTick::NotMember => prev,
        PhaseTick::MissedWarmup => None,
        _ => Some(now),
    }
}

/// Decides how a new coordinator state lands on the client, and what it remembers.
pub fn phase_tick(is_member: bool, prev: Option<RunState>, now: RunState) -> (r: (PhaseTick, Option<RunState>))
    requires
        phase_known(now),
    ensures
        r.0 == phase_tick_spec(is_member, prev, now),
        r.1 == remembered_after(r.0, prev, now),
{
    let tick = if !is_member {
        PhaseTick::NotMember
    } else {
        match now {
            RunState::WaitingForMembers => PhaseTick::Nothing,
            RunState::Warmup => match prev {
                Some(RunState::Warmup) => PhaseTick::Nothing,
                _ => PhaseTick::Enter(RunState::Warmup),
            },
            _ => match prev {
                None => PhaseTick::MissedWarmup,
                Some(p) => if p == now {
                    PhaseTick::Nothing
                } else {
                    PhaseTick::Enter(now)
                },
            },
        }
    };
    let remembered = match tick {
        PhaseTick::NotMember => prev,
        PhaseTick::MissedWarmup => None,
        _ => Some(now),
    };
    (tick, remembered)
}

/// After a missed warmup the client only re-enters the run through warmup: with no
/// state remembered, every training, witness or cooldown state is a missed warmup
/// again, and a warmup state begins warmup.
pub proof fn lemma_missed_warmup_waits_for_warmup(now: RunState)
    requires
        phase_known(now),
    ensures
        now != RunState::WaitingForMembers && now != RunState::Warmup ==> phase_tick_spec(true, None, now) == PhaseTick::MissedWarmup,
        phase_tick_spec(true, None, RunState::Warmup) == PhaseTick::Enter(RunState::Warmup),
        remembered_after(phase_tick_spec(true, None, RunState::Warmup), None, RunState::Warmup) == Some(RunState::Warmup),
{
}

/// Each phase is entered once: ticking the same state again, after it was
/// remembered, asks nothing.
pub proof fn lemma_phase_entered_once(prev: Option<RunState>, now: RunState)
    requires
        phase_known(now),
    ensures
        ({
            let tick = phase_tick_spec(true, prev, now);
            tick != PhaseTick::MissedWarmup ==> phase_tick_spec(true, remembered_after(tick, prev, now), now) == PhaseTick::Nothing
        }),
{
}

/// What entering warmup starts.
#[derive(Clone, Copy, Debug, PartialEq, Eq, Structural)]
pub enum WarmupAction {
    /// The run has no model: nothing to start.
    NoModel,
    /// Load the data provider and the model.
    LoadModel,
    /// The trainers are loaded already: run evaluations while waiting.
    StartEvals,
}

/// Why warmup could not be entered.
#[derive(Clone, Copy, Debug, PartialEq, Eq, Structural)]
pub enum EnterWarmupError {
    /// The last step's results are still being applied, so the trainers are busy.
    ApplyStillRunning,
}

/// Entering warmup: without a model nothing starts; without loaded trainers the
/// model is loaded, unless results are still being applied; with trainers,
/// evaluations start.
pub open spec fn warmup_action_spec(has_model: bool, trainers_loaded: bool, applying: bool) -> Result<WarmupAction, EnterWarmupError> {
    if !has_model {
        Ok(WarmupAction::NoModel)
    } else if trainers_loaded {
        Ok(WarmupAction::StartEvals)
    } else if applying {
        Err(EnterWarmupError::ApplyStillRunning)
    } else {
        Ok(WarmupAction::LoadModel)
    }
}

/// Decides what entering warmup starts.
pub fn warmup_action(has_model: bool, trainers_loaded: bool, applying: bool) -> (r: Result<WarmupAction, EnterWarmupError>)
    ensures
        r == warmup_action_spec(has_model, trainers_loaded, applying),
{
    if !has_model {
        Ok(WarmupAction::NoModel)
    } else if trainers_loaded {
        Ok(WarmupAction::StartEvals)
    } else if applying {
        Err(EnterWarmupError::ApplyStillRunning)
    } else {
        Ok(WarmupAction::LoadModel)
    }
}

/// What entering cooldown starts.
#[derive(Clone, Copy, Debug, PartialEq, Eq, Structural)]
pub enum CooldownAction {
    /// Save (and maybe upload) a checkpoint of the model trained through this step.
    Checkpoint(u32),
    /// No checkpoint is configured: run evaluations.
    StartEvals,
}

/// Why cooldown could not be entered.
#[derive(Clone, Copy, Debug, PartialEq, Eq, Structural)]
pub enum CooldownError {
    /// A checkpoint is configured but no trainer is free to extract the model from.
    NoAvailableTrainersForCheckpointing,
}

/// Entering cooldown at `step`: with a checkpoint configured, a free trainer saves
/// the model of the step before; without one, evaluations start.
pub open spec fn cooldown_action_spec(checkpoint_configured: bool, trainer_free: bool, step: u32) -> Result<CooldownAction, CooldownError> {
    if !checkpoint_configured {
        Ok(CooldownAction::StartEvals)
    } else if !trainer_free {
        Err(CooldownError::NoAvailableTrainersForCheckpointing)
    } else {
        Ok(CooldownAction::Checkpoint((step - 1) as u32))
    }
}

/// Decides what entering cooldown starts.
pub fn cooldown_action(checkpoint_configured: bool, trainer_free: bool, step: u32) -> (r: Result<CooldownAction, CooldownError>)
    requires
        checkpoint_configured && trainer_free ==> step > 0,
    ensures
        r == cooldown_action_spec(checkpoint_configured, trainer_free, step),
{
    if !checkpoint_configured {
        Ok(CooldownAction::StartEvals)
    } else if !trainer_free {
        Err(CooldownError::NoAvailableTrainersForCheckpointing)
    } else {
        Ok(CooldownAction::Checkpoint(step - 1))
    }
}

/// What the start of a training step still waits for or may not overlap with.
#[derive(Clone, Copy, Debug, PartialEq, Eq, Structural)]
pub enum TrainEntryError {
    /// The first step needs the data and model loading, which never started.
    DataModelLoadNotStarted,
    /// The first step needs the data and model loading, which has not finished.
    DataModelLoadUnfinished,
    /// Evaluations still hold the trainers.
    EvalsStillRunning,
    /// A checkpoint is still being written.
    CheckpointingStillRunning,
    /// The coordinator has no round to train in.
    NoActiveRound,
    /// A step after the first has no proofs of this client for the round before.
    NoCommitteeInfo,
}

/// What starting a training step does besides rotating the rounds.
#[derive(Clone, Copy, Debug, PartialEq, Eq, Structural)]
pub struct TrainEntry {
    /// Take over the loaded data provider, model and tokenizer first.
    pub take_loaded_model: bool,
    /// Start without applying results (see `skips_apply`).
    pub skip_apply: bool,
    /// Check the health of the round before's trainers (this client witnessed it).
    pub health_check: bool,
}

/// The facts about the client that starting a training step looks at.
#[derive(Clone, Copy, Debug)]
pub struct TrainEntryFacts {
    /// Nothing is loaded yet: no trainers, no data fetcher, no tokenizer.
    pub nothing_loaded: bool,
    pub load_started: bool,
    pub load_finished: bool,
    pub evals_running: bool,
    pub checkpointing: bool,
    pub has_round: bool,
    pub round_height: u32,
    pub first_round: bool,
    pub overlapped: bool,
    /// Whether this client witnessed the round before, if it has proofs for it.
    pub witnessed_previous: Option<bool>,
}

/// Starting a training step, checked in order: a client with nothing loaded needs a
/// started and finished load; evaluations and checkpointing must be over; the
/// coordinator must have a round; results are applied except on the first round
/// (and, overlapping, the epoch's first training round); after the first round the
/// client needs its proofs for the round before, and checks health if it witnessed.
pub open spec fn train_entry_spec(f: TrainEntryFacts) -> Result<TrainEntry, TrainEntryError> {
    if f.nothing_loaded && !f.load_started {
        Err(TrainEntryError::DataModelLoadNotStarted)
    } else if f.nothing_loaded && !f.load_finished {
        Err(TrainEntryError::DataModelLoadUnfinished)
    } else if f.evals_running {
        Err(TrainEntryError::EvalsStillRunning)
    } else if f.checkpointing {
        Err(TrainEntryError::CheckpointingStillRunning)
    } else if !f.has_round {
        Err(TrainEntryError::NoActiveRound)
    } else if !f.first_round && f.witnessed_previous is None {
        Err(TrainEntryError::NoCommitteeInfo)
    } else {
        Ok(TrainEntry {
            take_loaded_model: f.nothing_loaded,
            skip_apply: crate::overlapped_client::skips_apply_spec(f.first_round, f.overlapped, f.round_height),
            health_check: !f.first_round && f.witnessed_previous == Some(true),
        })
    }
}

/// Decides how a training step starts.
pub fn train_entry(f: TrainEntryFacts) -> (r: Result<TrainEntry, TrainEntryError>)
    ensures
        r == train_entry_spec(f),
{
    if f.nothing_loaded {
        if !f.load_started {
            return Err(TrainEntryError::DataModelLoadNotStarted);
        }
        if !f.load_finished {
            return Err(TrainEntryError::DataModelLoadUnfinished);
        }
    }
    if f.evals_running {
        return Err(TrainEntryError::EvalsStillRunning);
    }
    if f.checkpointing {
        return Err(TrainEntryError::CheckpointingStillRunning);
    }
    if !f.has_round {
        return Err(TrainEntryError::NoActiveRound);
    }
    let skip_apply = crate::overlapped_client::skips_apply(f.first_round, f.overlapped, f.round_height);
    let health_check = if f.first_round {
        false
    } else {
        match f.witnessed_previous {
            None => {
                return Err(TrainEntryError::NoCommitteeInfo);
            },
            Some(w) => w,
        }
    };
    Ok(TrainEntry { take_loaded_model: f.nothing_loaded, skip_apply, health_check })
}

/// What a finished checkpoint is reported as.
#[derive(Clone, Copy, Debug, PartialEq, Eq, Structural)]
pub enum CheckpointReport {
    /// Nothing to report: this client is no checkpointer, or it saved locally only.
    Nothing,
    /// Report the uploaded repository.
    Hub,
}

/// A finished checkpoint is reported only by one of the run's checkpointers, and only
/// when it was uploaded.
pub open spec fn checkpoint_report_spec(checkpointers: Seq<NodeId>, me: NodeId, uploaded: bool) -> CheckpointReport {
    if checkpointers.contains(me) && uploaded {
        CheckpointReport::Hub
    } else {
        CheckpointReport::Nothing
    }
}

/// Decides how a finished checkpoint is reported.
pub fn checkpoint_report(checkpointers: &[NodeId], me: &NodeId, uploaded: bool) -> (r: CheckpointReport)
    ensures
        r == checkpoint_report_spec(checkpointers@, *me, uploaded),
{
    let mut i: usize = 0;
    while i < checkpointers.len()
        invariant
            i <= checkpointers@.len(),
            forall|j: int| 0 <= j < i ==> checkpointers@[j] != *me,
        decreases checkpointers@.len() - i,
    {
        if crate::committee_selection::ids_equal(&checkpointers[i], me) {
            proof {
                assert(checkpointers@.contains(*me));
            }
            return if uploaded {
                CheckpointReport::Hub
            } else {
                CheckpointReport::Nothing
            };
        }
        i += 1;
    }
    CheckpointReport::Nothing
}

/// The commitment a client makes to a batch it trained: `sha256(id ++ be64(batch))`.
pub open spec fn step_commitment(id: NodeId, batch_id: u64) -> Seq<u8> {
    sha256_spec(id@ + u64_be_bytes(batch_id))
}

impl OverlapRounds {
    /// The result this client gossips for a batch it trained at `step`: its
    /// commitment to the batch, the payload's blob and its committee proof for the
    /// current round, which it must have.
    pub fn training_result(&self, step: u32, batch_id: u64, ticket_hash: BlobHash) -> (r: Result<StepResult, StepPayloadError>)
        ensures
            match self@.current.committee_info {
                None => r == Err::<StepResult, StepPayloadError>(StepPayloadError::NoSelfProofs),
                Some((cp, _, _)) => r matches Ok(res) && {
                    &&& res.step == step
                    &&& res.batch_id == batch_id
                    &&& res.commitment@ == step_commitment(self.identity, batch_id)
                    &&& res.ticket_hash == ticket_hash
                    &&& res.proof == cp
                },
            },
    {
        let proof = match &self.current_round.committee_info {
            Some(info) => info.0,
            None => {
                return Err(StepPayloadError::NoSelfProofs);
            },
        };
        let be = be_bytes_u64(batch_id);
        let commitment = sha256_pair(&self.identity, &be);
        Ok(StepResult { step, batch_id, commitment, ticket_hash, proof })
    }
}

/// Whether this client's training for the round is done, so evaluations may start:
/// only with data assigned (not greedy), once, when every trainer is back and either
/// all assigned data was handed out and consumed or there is no data to wait for.
pub open spec fn training_done_spec(
    already_done: bool,
    trainers_back: usize,
    data_parallelism: usize,
    greedy_data: bool,
    data_drained: Option<bool>,
) -> bool {
    &&& !already_done
    &&& trainers_back == data_parallelism
    &&& !greedy_data
    &&& match data_drained {
        Some(d) => d,
        None => true,
    }
}

/// Decides whether this client's training for the round just finished.
pub fn training_done(
    already_done: bool,
    trainers_back: usize,
    data_parallelism: usize,
    greedy_data: bool,
    data_drained: Option<bool>,
) -> (r: bool)
    ensures
        r == training_done_spec(already_done, trainers_back, data_parallelism, greedy_data, data_drained),
{
    if already_done || trainers_back != data_parallelism || greedy_data {
        return false;
    }
    match data_drained {
        Some(d) => d,
        None => true,
    }
}

} // verus!
