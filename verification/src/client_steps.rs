use vstd::prelude::*;
use crate::committee_selection::{ids_equal, NodeId};
use crate::coordinator::{Client, Coordinator, RunState};
use crate::client_round::{ClientRounds, RoundState, RoundStateView};

verus! {

/// The step a client's state machine is in. `Intermediate` exists while one step
/// hands over to the next, and after a hand-over failed on a desync.
#[derive(Clone, Copy, Debug, PartialEq, Eq, Structural)]
pub enum ActiveStep {
    Intermediate,
    Warmup,
    Training,
    Witness,
    Cooldown,
}

/// A step may go on in a run state: warmup while waiting for members or warming
/// up, cooldown in cooldown, training in training, witnessing in witnessing.
pub open spec fn step_allowed(step: ActiveStep, run_state: RunState) -> bool {
    match (step, run_state) {
        (ActiveStep::Warmup, RunState::Warmup) => true,
        (ActiveStep::Warmup, RunState::WaitingForMembers) => true,
        (ActiveStep::Cooldown, RunState::Cooldown) => true,
        (ActiveStep::Training, RunState::RoundTrain) => true,
        (ActiveStep::Witness, RunState::RoundWitness) => true,
        _ => false,
    }
}

/// The display name of a step.
pub open spec fn step_name(step: ActiveStep) -> Seq<char> {
    match step {
        ActiveStep::Intermediate => "Intermediate"@,
        ActiveStep::Warmup => "Warmup"@,
        ActiveStep::Training => "Training"@,
        ActiveStep::Witness => "Witness"@,
        ActiveStep::Cooldown => "Cooldown"@,
    }
}

impl ActiveStep {
    /// Whether this step may go on in the run state.
    pub fn allowed_in_run_state(&self, run_state: RunState) -> (r: bool)
        requires
            *self != ActiveStep::Intermediate,
        ensures
            r == step_allowed(*self, run_state),
    {
        match (self, run_state) {
            (ActiveStep::Warmup, RunState::Warmup) => true,
            (ActiveStep::Warmup, RunState::WaitingForMembers) => true,
            (ActiveStep::Cooldown, RunState::Cooldown) => true,
            (ActiveStep::Training, RunState::RoundTrain) => true,
            (ActiveStep::Witness, RunState::RoundWitness) => true,
            _ => false,
        }
    }

    /// The step's display name.
    pub fn to_string(&self) -> (s: String)
        ensures
            s@ == step_name(*self),
    {
        match self {
            ActiveStep::Intermediate => "Intermediate".to_string(),
            ActiveStep::Warmup => "Warmup".to_string(),
            ActiveStep::Training => "Training".to_string(),
            ActiveStep::Witness => "Witness".to_string(),
            ActiveStep::Cooldown => "Cooldown".to_string(),
        }
    }
}

/// What a new coordinator state asks of the step machine: keep the step, or finish
/// it and start another.
#[derive(Clone, Copy, Debug, PartialEq, Eq, Structural)]
pub enum StepTransition {
    Stay,
    StartWarmup,
    StartTraining,
    StartWitness,
    StartCooldown,
}

/// The step machine fell out of step with the coordinator.
#[derive(Clone, Copy, Debug, PartialEq, Eq, Structural)]
pub enum StepError {
    Desync { active_step: ActiveStep, run_state: RunState },
}

/// The step a transition leads to.
pub open spec fn step_after(step: ActiveStep, t: StepTransition) -> ActiveStep {
    match t {
        StepTransition::Stay => step,
        StepTransition::StartWarmup => ActiveStep::Warmup,
        StepTransition::StartTraining => ActiveStep::Training,
        StepTransition::StartWitness => ActiveStep::Witness,
        StepTransition::StartCooldown => ActiveStep::Cooldown,
    }
}

/// The transition a coordinator state asks for. A client that is not one of the
/// run's clients goes back to warmup (staying there if it is already warming up).
/// A member starts training from warmup or witnessing when the round trains,
/// witnesses after training when the round witnesses, cools down after witnessing
/// when the epoch cools down, and warms up again after cooldown when the run waits
/// for members or warms up. Otherwise it keeps its step where the step may go on,
/// and has desynced where it may not.
pub open spec fn step_transition(step: ActiveStep, is_member: bool, run_state: RunState) -> Result<StepTransition, StepError> {
    if !is_member {
        match step {
            ActiveStep::Warmup => Ok(StepTransition::Stay),
            _ => Ok(StepTransition::StartWarmup),
        }
    } else {
        match (step, run_state) {
            (ActiveStep::Warmup, RunState::RoundTrain) => Ok(StepTransition::StartTraining),
            (ActiveStep::Training, RunState::RoundWitness) => Ok(StepTransition::StartWitness),
            (ActiveStep::Witness, RunState::RoundTrain) => Ok(StepTransition::StartTraining),
            (ActiveStep::Witness, RunState::Cooldown) => Ok(StepTransition::StartCooldown),
            (ActiveStep::Cooldown, RunState::WaitingForMembers) => Ok(StepTransition::StartWarmup),
            (ActiveStep::Cooldown, RunState::Warmup) => Ok(StepTransition::StartWarmup),
            _ => if step_allowed(step, run_state) {
                Ok(StepTransition::Stay)
            } else {
                Err(StepError::Desync { active_step: step, run_state })
            },
        }
    }
}

/// Decides how the step machine answers a new coordinator state; `client_index` is
/// this client's place among the run's clients, if it is one of them.
pub fn next_step(step: ActiveStep, client_index: Option<u64>, run_state: RunState) -> (r: Result<StepTransition, StepError>)
    requires
        step != ActiveStep::Intermediate,
    ensures
        r == step_transition(step, client_index is Some, run_state),
{
    if client_index.is_none() {
        return match step {
            ActiveStep::Warmup => Ok(StepTransition::Stay),
            _ => Ok(StepTransition::StartWarmup),
        };
    }
    match (step, run_state) {
        (ActiveStep::Warmup, RunState::RoundTrain) => Ok(StepTransition::StartTraining),
        (ActiveStep::Training, RunState::RoundWitness) => Ok(StepTransition::StartWitness),
        (ActiveStep::Witness, RunState::RoundTrain) => Ok(StepTransition::StartTraining),
        (ActiveStep::Witness, RunState::Cooldown) => Ok(StepTransition::StartCooldown),
        (ActiveStep::Cooldown, RunState::WaitingForMembers) => Ok(StepTransition::StartWarmup),
        (ActiveStep::Cooldown, RunState::Warmup) => Ok(StepTransition::StartWarmup),
        _ => {
            if step.allowed_in_run_state(run_state) {
                Ok(StepTransition::Stay)
            } else {
                Err(StepError::Desync { active_step: step, run_state })
            }
        },
    }
}

/// A member's step machine never ends up in a step that may not go on in the new
/// run state, and it desyncs only when its step may not go on there.
pub proof fn lemma_member_step_allowed(step: ActiveStep, run_state: RunState)
    requires
        step != ActiveStep::Intermediate,
    ensures
        step_transition(step, true, run_state) matches Ok(t) ==> step_allowed(step_after(step, t), run_state),
        step_transition(step, true, run_state) is Err <==> !step_allowed(step, run_state) && !(
            (step == ActiveStep::Warmup && run_state == RunState::RoundTrain)
            || (step == ActiveStep::Training && run_state == RunState::RoundWitness)
            || (step == ActiveStep::Witness && run_state == RunState::RoundTrain)
            || (step == ActiveStep::Witness && run_state == RunState::Cooldown)
            || (step == ActiveStep::Cooldown && run_state == RunState::WaitingForMembers)
            || (step == ActiveStep::Cooldown && run_state == RunState::Warmup)),
{
}

/// `identity` is one of the clients.
pub open spec fn is_member(clients: Seq<Client>, identity: NodeId) -> bool {
    exists|i: int| 0 <= i < clients.len() && clients[i].id == identity
}

/// A client's step machine: the step it is in, its two rounds, and the coordinator
/// state it last took in as one of the run's clients.
pub struct StepMachine {
    pub active_step: ActiveStep,
    pub rounds: ClientRounds,
    pub coordinator_state: Coordinator,
}

impl StepMachine {
    /// Takes in a new coordinator state. The step moves as `step_transition` says
    /// for this client (a member when its identity is among the state's clients).
    /// Every start of warmup resets both rounds to empty ones; any other
    /// transition leaves them to the step it starts (a non-member already warming
    /// up keeps them). A member that moves without desync keeps the new state as
    /// its coordinator state; a non-member keeps the old one. On a desync the
    /// machine is left between steps (`Intermediate`), with its rounds and
    /// coordinator state unchanged.
    pub fn apply_state(&mut self, state: Coordinator) -> (r: Result<StepTransition, StepError>)
        requires
            old(self).active_step != ActiveStep::Intermediate,
        ensures
            ({
                let member = is_member(state.epoch_state.clients@, old(self).rounds.identity);
                &&& r == step_transition(old(self).active_step, member, state.run_state)
                &&& final(self).rounds.identity == old(self).rounds.identity
                &&& match r {
                    Ok(t) => {
                        &&& final(self).active_step == step_after(old(self).active_step, t)
                        &&& if t == StepTransition::StartWarmup {
                            &&& final(self).rounds.current_round@ == RoundStateView::empty()
                            &&& final(self).rounds.previous_round@ == RoundStateView::empty()
                        } else {
                            final(self).rounds@ == old(self).rounds@
                        }
                        &&& final(self).coordinator_state == (if member { state } else { old(self).coordinator_state })
                    },
                    Err(_) => {
                        &&& final(self).active_step == ActiveStep::Intermediate
                        &&& final(self).rounds@ == old(self).rounds@
                        &&& final(self).coordinator_state == old(self).coordinator_state
                    },
                }
            }),
    {
        let n = state.epoch_state.clients.len();
        assert(state.epoch_state.clients@.len() == n);
        let idx = client_index(state.epoch_state.clients.as_slice(), &self.rounds.identity);
        proof {
            match idx {
                Some(i) => {
                    assert(state.epoch_state.clients@[i as int].id == self.rounds.identity);
                },
                None => {},
            }
        }
        let t = match next_step(self.active_step, idx, state.run_state) {
            Ok(t) => t,
            Err(e) => {
                self.active_step = ActiveStep::Intermediate;
                return Err(e);
            },
        };
        self.active_step = match t {
            StepTransition::Stay => self.active_step,
            StepTransition::StartWarmup => ActiveStep::Warmup,
            StepTransition::StartTraining => ActiveStep::Training,
            StepTransition::StartWitness => ActiveStep::Witness,
            StepTransition::StartCooldown => ActiveStep::Cooldown,
        };
        if t == StepTransition::StartWarmup {
            self.rounds.current_round = RoundState::new();
            self.rounds.previous_round = RoundState::new();
        }
        if idx.is_some() {
            self.coordinator_state = state;
        }
        Ok(t)
    }
}

/// The place of the first client with this identity.
pub open spec fn is_client_index(clients: Seq<Client>, identity: NodeId, i: int) -> bool {
    &&& 0 <= i < clients.len()
    &&& clients[i].id == identity
    &&& forall|j: int| 0 <= j < i ==> (#[trigger] clients[j]).id != identity
}

/// This client's place among the run's clients: the first with its identity.
pub fn client_index(clients: &[Client], identity: &NodeId) -> (r: Option<u64>)
    requires
        clients@.len() <= u64::MAX,
    ensures
        match r {
            Some(i) => is_client_index(clients@, *identity, i as int),
            None => forall|j: int| 0 <= j < clients@.len() ==> (#[trigger] clients@[j]).id != *identity,
        },
{
    let mut i: usize = 0;
    while i < clients.len()
        invariant
            i <= clients@.len() <= u64::MAX,
            forall|j: int| 0 <= j < i ==> (#[trigger] clients@[j]).id != *identity,
        decreases clients@.len() - i,
    {
        if ids_equal(&clients[i].id, identity) {
            return Some(i as u64);
        }
        i += 1;
    }
    None
}

/// How far a client's run has got: not initialized (still holding its init
/// configuration, or not), initializing (finished or not), or running.
#[derive(Clone, Copy, Debug, PartialEq, Eq, Structural)]
pub enum InitStage {
    NotYetInitialized(bool),
    Initializing(bool),
    Running,
}

/// What a new coordinator state asks of the run manager.
#[derive(Clone, Copy, Debug, PartialEq, Eq, Structural)]
pub enum InitAction {
    /// Nothing to do yet.
    Wait,
    /// Start initializing the run with this state.
    StartInit,
    /// Take the finished initialization; if it succeeded, run and apply the state.
    FinishInit,
    /// Apply the state to the running step machine.
    Apply,
}

/// The run manager's answer to a new coordinator state: an uninitialized client
/// starts initializing at warmup and waits otherwise; while initializing it waits
/// when the run falls back to waiting for members or the initialization has not
/// finished, and takes it once finished; a running client applies the state.
pub open spec fn init_action(stage: InitStage, run_state: RunState) -> InitAction {
    match stage {
        InitStage::NotYetInitialized(has_config) => if has_config && run_state == RunState::Warmup {
            InitAction::StartInit
        } else {
            InitAction::Wait
        },
        InitStage::Initializing(finished) => if run_state == RunState::WaitingForMembers || !finished {
            InitAction::Wait
        } else {
            InitAction::FinishInit
        },
        InitStage::Running => InitAction::Apply,
    }
}

/// Decides the run manager's answer to a new coordinator state. A run that gave up
/// its init configuration is initializing, never still uninitialized.
pub fn next_init_action(stage: InitStage, run_state: RunState) -> (r: InitAction)
    requires
        stage != InitStage::NotYetInitialized(false),
    ensures
        r == init_action(stage, run_state),
{
    match stage {
        InitStage::NotYetInitialized(has_config) => {
            if has_config && run_state == RunState::Warmup {
                InitAction::StartInit
            } else {
                InitAction::Wait
            }
        },
        InitStage::Initializing(finished) => {
            if run_state == RunState::WaitingForMembers || !finished {
                InitAction::Wait
            } else {
                InitAction::FinishInit
            }
        },
        InitStage::Running => InitAction::Apply,
    }
}

/// Where a model replica is placed.
#[derive(Clone, Copy, Debug, PartialEq, Eq, Structural)]
pub enum DevicePlacement {
    /// The first GPU if there is one, else the CPU.
    CudaIfAvailable,
    /// The GPU with this number.
    Cuda(usize),
}

/// The device of replica `dp` of the data-parallel group, shard `tp` of the
/// tensor-parallel group of `tensor_parallelism` shards: without tensor
/// parallelism the first replica may run on the CPU and replica `dp` runs on GPU
/// `dp`; with it, shards are laid out replica by replica.
pub open spec fn device_for_spec(dp: nat, tp: nat, tensor_parallelism: nat) -> DevicePlacement {
    if tensor_parallelism == 1 {
        if dp == 0 {
            DevicePlacement::CudaIfAvailable
        } else {
            DevicePlacement::Cuda(dp as usize)
        }
    } else {
        DevicePlacement::Cuda((dp * tensor_parallelism + tp) as usize)
    }
}

/// Places a model replica.
pub fn device_for(dp: usize, tp: usize, tensor_parallelism: usize) -> (r: DevicePlacement)
    requires
        tensor_parallelism != 1 ==> dp * tensor_parallelism + tp <= usize::MAX,
    ensures
        r == device_for_spec(dp as nat, tp as nat, tensor_parallelism as nat),
{
    if tensor_parallelism == 1 {
        if dp == 0 {
            DevicePlacement::CudaIfAvailable
        } else {
            DevicePlacement::Cuda(dp)
        }
    } else {
        assert(dp * tensor_parallelism <= usize::MAX) by (nonlinear_arith)
            requires
                dp * tensor_parallelism + tp <= usize::MAX,
                tp >= 0,
        ;
        DevicePlacement::Cuda(dp * tensor_parallelism + tp)
    }
}

/// The file names a checkpoint carries besides the weights.
pub open spec fn checkpoint_extra_name(name: Seq<char>) -> bool {
    name == "config.json"@ || name == "tokenizer.json"@ || name == "tokenizer_config.json"@
        || name == "special_tokens_map.json"@ || name == "generation_config.json"@
}

/// Whether a file, by its last path component, is one a checkpoint carries
/// besides the weights: the model and generation configs and the tokenizer files.
pub fn is_checkpoint_extra_file(name: &str) -> (r: bool)
    ensures
        r == checkpoint_extra_name(name@),
{
    let n = name.to_owned();
    n == "config.json".to_owned() || n == "tokenizer.json".to_owned() || n == "tokenizer_config.json".to_owned()
        || n == "special_tokens_map.json".to_owned() || n == "generation_config.json".to_owned()
}

/// The groups laid end to end.
pub open spec fn concat_groups<T>(gs: Seq<Seq<T>>) -> Seq<T>
    decreases gs.len(),
{
    if gs.len() == 0 {
        Seq::empty()
    } else {
        concat_groups(gs.drop_last()) + gs.last()
    }
}

/// The contents of each group.
pub open spec fn group_views<T>(gs: Seq<Vec<T>>) -> Seq<Seq<T>> {
    gs.map_values(|g: Vec<T>| g@)
}

/// `gs` splits `items` into tensor-parallel groups of `size`: laid end to end they
/// give `items` back, no group is empty, every group but the last holds exactly
/// `size`, and (for a positive size) the last holds at most `size`.
pub open spec fn grouped_by<T>(gs: Seq<Seq<T>>, items: Seq<T>, size: nat) -> bool {
    &&& concat_groups(gs) == items
    &&& forall|i: int| 0 <= i < gs.len() ==> #[trigger] gs[i].len() > 0
    &&& forall|i: int| 0 <= i < gs.len() - 1 ==> #[trigger] gs[i].len() == size
    &&& (size > 0 && gs.len() > 0 ==> gs.last().len() <= size)
}

proof fn lemma_concat_push_last<T>(gs: Seq<Seq<T>>, x: T)
    requires
        gs.len() > 0,
    ensures
        concat_groups(gs.update(gs.len() - 1, gs.last().push(x))) == concat_groups(gs).push(x),
{
    let hs = gs.update(gs.len() - 1, gs.last().push(x));
    assert(hs.drop_last() =~= gs.drop_last());
    assert(concat_groups(gs.drop_last()) + gs.last().push(x) =~= (concat_groups(gs.drop_last()) + gs.last()).push(x));
}

proof fn lemma_concat_push_group<T>(gs: Seq<Seq<T>>, x: T)
    ensures
        concat_groups(gs.push(seq![x])) == concat_groups(gs).push(x),
{
    assert(gs.push(seq![x]).drop_last() =~= gs);
    assert(concat_groups(gs) + seq![x] =~= concat_groups(gs).push(x));
}

/// Splits loaded models, in load order, into tensor-parallel groups of `size`.
pub fn group_models<T>(models: Vec<T>, size: usize) -> (groups: Vec<Vec<T>>)
    ensures
        grouped_by(group_views(groups@), models@, size as nat),
{
    let ghost all = models@;
    let mut models = models;
    let mut groups: Vec<Vec<T>> = Vec::new();
    let mut taken: usize = 0;
    let total: usize = models.len();
    proof {
        assert(total == all.len());
        assert(group_views(groups@) =~= Seq::<Seq<T>>::empty());
        assert(all.take(0) =~= Seq::<T>::empty());
        assert(all.skip(0) =~= all);
    }
    while models.len() > 0
        invariant
            taken + models@.len() == all.len(),
            all.len() <= usize::MAX,
            models@ == all.skip(taken as int),
            grouped_by(group_views(groups@), all.take(taken as int), size as nat),
        decreases models@.len(),
    {
        let ghost before = group_views(groups@);
        let model = models.remove(0);
        let start_new = match groups.last() {
            Some(g) => g.len() == size,
            None => true,
        };
        if start_new {
            let mut g = Vec::new();
            g.push(model);
            groups.push(g);
            proof {
                assert(g@ =~= seq![model]);
                assert(group_views(groups@) =~= before.push(seq![model]));
                lemma_concat_push_group(before, model);
            }
        } else {
            let mut g = groups.pop().unwrap();
            let ghost old_g = g@;
            g.push(model);
            groups.push(g);
            proof {
                assert(before.last() == old_g);
                assert(group_views(groups@) =~= before.update(before.len() - 1, old_g.push(model)));
                lemma_concat_push_last(before, model);
            }
        }
        proof {
            assert(models@ =~= all.skip(taken + 1));
            assert(model == all[taken as int]);
            assert(all.take(taken + 1) =~= all.take(taken as int).push(model));
        }
        taken = taken + 1;
    }
    proof {
        assert(all.take(taken as int) =~= all);
    }
    groups
}

} // verus!
