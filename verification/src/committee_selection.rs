use vstd::prelude::*;
use vstd::string::StringSliceAdditionalSpecFns;
use crate::hashing::{sha256, sha256_pair, sha256_spec};
use crate::coordinator::{ConfigView, Coordinator, CoordinatorError, RoundView};
use crate::shuffle::{compute_shuffled_index, shuffle_position, shuffled_below, lemma_shuffle_counts, nat_range, lemma_nat_range};

verus! {

/// Salt mixed into the seed when shuffling committee positions.
pub const COMMITTEE_SALT: &'static str = "committee";

/// Salt mixed into the seed when shuffling witness positions.
pub const WITNESS_SALT: &'static str = "witness";

/// The identity of a node: its 32-byte public key.
pub type NodeId = [u8; 32];

/// The role a client plays in a round.
#[derive(Clone, Copy, Debug, PartialEq, Eq, Structural)]
pub enum Committee {
    TieBreaker,
    Verifier,
    Trainer,
}

/// A client's claim of its committee, checkable against a selection.
#[derive(Clone, Copy, Debug, PartialEq, Eq, Structural)]
pub struct CommitteeProof {
    pub committee: Committee,
    pub position: u64,
    pub index: u64,
}

/// A client's claim of whether it witnesses, checkable against a selection.
#[derive(Clone, Copy, Debug, PartialEq, Eq, Structural)]
pub struct WitnessProof {
    pub witness: bool,
    pub position: u64,
    pub index: u64,
}

/// How the clients of a round split into tie breakers, verifiers and trainers, and
/// which of them witness; positions come from a seeded shuffle of client indices.
#[derive(Clone, Copy, Debug)]
pub struct CommitteeSelection {
    pub tie_breaker_nodes: u64,
    pub verifier_nodes: u64,
    pub total_nodes: u64,
    pub witness_nodes: u64,
    pub seed: [u8; 32],
}

/// The little-endian bytes of a `u64`.
pub open spec fn u64_le_bytes(x: u64) -> Seq<u8> {
    Seq::new(8, |i: int| ((x >> (8 * i) as u64) & 0xff) as u8)
}

/// The bytes of a salt string.
pub open spec fn salt_bytes(salt: &str) -> Seq<u8> {
    salt.spec_bytes()
}

/// The display name of a committee.
pub open spec fn committee_name(c: Committee) -> Seq<char> {
    match c {
        Committee::TieBreaker => "Tie breaker"@,
        Committee::Verifier => "Verifier"@,
        Committee::Trainer => "Trainer"@,
    }
}

/// The committee of a shuffled position: the first `tie_breaker_nodes` positions
/// break ties, the next `verifier_nodes` verify, the rest train.
pub open spec fn committee_at(tie_breaker_nodes: u64, verifier_nodes: u64, position: nat) -> Committee {
    if position < tie_breaker_nodes {
        Committee::TieBreaker
    } else if position < tie_breaker_nodes + verifier_nodes {
        Committee::Verifier
    } else {
        Committee::Trainer
    }
}

/// Whether a shuffled position witnesses: every position when `witness_nodes` is
/// zero, otherwise the first `witness_nodes` positions.
pub open spec fn witness_at(witness_nodes: u64, position: nat) -> bool {
    witness_nodes == 0 || position < witness_nodes
}

/// Identities compare equal exactly when all their bytes do.
pub fn ids_equal(a: &NodeId, b: &NodeId) -> (r: bool)
    ensures
        r == (*a == *b),
{
    let mut i: usize = 0;
    while i < 32
        invariant
            i <= 32,
            forall|j: int| 0 <= j < i ==> a@[j] == b@[j],
        decreases 32 - i,
    {
        if a[i] != b[i] {
            return false;
        }
        i += 1;
    }
    proof {
        broadcast use vstd::array::axiom_array_ext_equal;
        assert(*a =~= *b);
    }
    true
}

/// The little-endian bytes of a `u64`.
fn le_bytes_u64(x: u64) -> (out: [u8; 8])
    ensures
        out@ == u64_le_bytes(x),
{
    let out = [
        (x & 0xff) as u8,
        ((x >> 8u64) & 0xff) as u8,
        ((x >> 16u64) & 0xff) as u8,
        ((x >> 24u64) & 0xff) as u8,
        ((x >> 32u64) & 0xff) as u8,
        ((x >> 40u64) & 0xff) as u8,
        ((x >> 48u64) & 0xff) as u8,
        ((x >> 56u64) & 0xff) as u8,
    ];
    assert(out@ =~= u64_le_bytes(x)) by {
        assert(x >> 0u64 == x) by (bit_vector);
    }
    out
}

/// A selection as the specifications see it.
#[verifier::ext_equal]
pub struct SelectionView {
    pub tie_breaker_nodes: u64,
    pub verifier_nodes: u64,
    pub total_nodes: u64,
    pub witness_nodes: u64,
    pub seed: Seq<u8>,
}

impl View for CommitteeSelection {
    type V = SelectionView;

    open spec fn view(&self) -> SelectionView {
        SelectionView {
            tie_breaker_nodes: self.tie_breaker_nodes,
            verifier_nodes: self.verifier_nodes,
            total_nodes: self.total_nodes,
            witness_nodes: self.witness_nodes,
            seed: self.seed@,
        }
    }
}

impl SelectionView {
    /// The bounds every selection keeps.
    pub open spec fn wf(self) -> bool {
        &&& self.tie_breaker_nodes <= self.total_nodes
        &&& self.verifier_nodes <= self.total_nodes - self.tie_breaker_nodes
        &&& (self.witness_nodes == 0 || self.witness_nodes <= self.total_nodes)
    }

    /// The shuffle seed for a salt.
    pub open spec fn salted_seed(self, salt: Seq<u8>) -> Seq<u8> {
        sha256_spec(self.seed + salt)
    }

    /// Shuffled committee position of a client index.
    pub open spec fn committee_position(self, index: nat) -> nat {
        shuffle_position(index, self.total_nodes as nat, self.salted_seed(salt_bytes(COMMITTEE_SALT)))
    }

    /// Shuffled witness position of a client index.
    pub open spec fn witness_position(self, index: nat) -> nat {
        shuffle_position(index, self.total_nodes as nat, self.salted_seed(salt_bytes(WITNESS_SALT)))
    }

    /// The committee of a client index.
    pub open spec fn committee_of(self, index: nat) -> Committee {
        committee_at(self.tie_breaker_nodes, self.verifier_nodes, self.committee_position(index))
    }

    /// Whether a client index witnesses.
    pub open spec fn is_witness(self, index: nat) -> bool {
        witness_at(self.witness_nodes, self.witness_position(index))
    }

    /// The committee proof is the one the selection gives its index.
    pub open spec fn spec_verify_committee(self, proof: CommitteeProof) -> bool {
        proof.position == self.committee_position(proof.index as nat)
            && proof.committee == self.committee_of(proof.index as nat)
    }

    /// The witness proof is the one the selection gives its index.
    pub open spec fn spec_verify_witness(self, proof: WitnessProof) -> bool {
        proof.position == self.witness_position(proof.index as nat)
            && proof.witness == self.is_witness(proof.index as nat)
    }
}

impl CommitteeSelection {
    /// Splits `total_nodes` clients: `tie_breaker_nodes` tie breakers,
    /// `verification_percent` percent of the rest (rounded down) verifiers, the rest
    /// trainers; the shuffle seed is `sha256` of the little-endian bytes of `seed`.
    pub fn new(
        tie_breaker_nodes: usize,
        witness_nodes: usize,
        verification_percent: u8,
        total_nodes: usize,
        seed: u64,
    ) -> (cs: Self)
        requires
            total_nodes < u64::MAX,
            total_nodes >= tie_breaker_nodes,
            witness_nodes == 0 || total_nodes >= witness_nodes,
            verification_percent <= 100,
            (total_nodes - tie_breaker_nodes) * verification_percent <= usize::MAX,
        ensures
            cs@.wf(),
            cs.tie_breaker_nodes == tie_breaker_nodes,
            cs.verifier_nodes == (total_nodes - tie_breaker_nodes) * verification_percent / 100,
            cs.total_nodes == total_nodes,
            cs.witness_nodes == witness_nodes,
            cs.seed@ == sha256_spec(u64_le_bytes(seed)),
    {
        let free_nodes = total_nodes - tie_breaker_nodes;
        let verifier_nodes = (free_nodes * verification_percent as usize) / 100;
        assert(verifier_nodes <= free_nodes) by (nonlinear_arith)
            requires
                verifier_nodes == (free_nodes * verification_percent) / 100,
                verification_percent <= 100,
        ;
        let seed_bytes = le_bytes_u64(seed);
        let seed = sha256(&seed_bytes);
        CommitteeSelection {
            tie_breaker_nodes: tie_breaker_nodes as u64,
            verifier_nodes: verifier_nodes as u64,
            total_nodes: total_nodes as u64,
            witness_nodes: witness_nodes as u64,
            seed,
        }
    }

    /// Shuffled position of `index` under the seed salted with `salt`.
    fn compute_shuffled_index(&self, index: u64, salt: &str) -> (position: u64)
        requires
            index < self.total_nodes,
        ensures
            position == shuffle_position(index as nat, self.total_nodes as nat, self@.salted_seed(salt_bytes(salt))),
            position < self.total_nodes,
    {
        let seed = sha256_pair(&self.seed, salt.as_bytes());
        compute_shuffled_index(index, self.total_nodes, &seed)
    }

    /// The witness status of client `index`, with its proof.
    pub fn get_witness(&self, index: u64) -> (proof: WitnessProof)
        requires
            index < self.total_nodes,
        ensures
            proof.index == index,
            proof.position == self@.witness_position(index as nat),
            proof.witness == self@.is_witness(index as nat),
            proof.position < self.total_nodes,
    {
        let position = self.compute_shuffled_index(index, WITNESS_SALT);
        let witness = self.get_witness_from_position(position);
        WitnessProof { witness, position, index }
    }

    /// The committee of client `index`, with its proof.
    pub fn get_committee(&self, index: u64) -> (proof: CommitteeProof)
        requires
            self@.wf(),
            index < self.total_nodes,
        ensures
            proof.index == index,
            proof.position == self@.committee_position(index as nat),
            proof.committee == self@.committee_of(index as nat),
            proof.position < self.total_nodes,
    {
        let position = self.compute_shuffled_index(index, COMMITTEE_SALT);
        let committee = self.get_committee_from_position(position);
        CommitteeProof { committee, position, index }
    }

    /// The committee of a shuffled position.
    pub fn get_committee_from_position(&self, committee_position: u64) -> (c: Committee)
        requires
            self@.wf(),
        ensures
            c == committee_at(self.tie_breaker_nodes, self.verifier_nodes, committee_position as nat),
    {
        if committee_position < self.tie_breaker_nodes {
            Committee::TieBreaker
        } else if committee_position < self.tie_breaker_nodes + self.verifier_nodes {
            Committee::Verifier
        } else {
            Committee::Trainer
        }
    }

    /// Whether a shuffled position witnesses.
    fn get_witness_from_position(&self, witness_position: u64) -> (w: bool)
        ensures
            w == witness_at(self.witness_nodes, witness_position as nat),
    {
        if self.witness_nodes == 0 {
            true
        } else {
            witness_position < self.witness_nodes
        }
    }

    /// The proof names a client slot holding `client_id` and is the committee proof
    /// the selection gives that slot.
    pub fn verify_committee_for_client(
        &self,
        client_id: &NodeId,
        proof: &CommitteeProof,
        clients: &[crate::coordinator::Client],
    ) -> (ok: bool)
        requires
            self@.wf(),
            proof.index < clients@.len() ==> proof.index < self.total_nodes,
        ensures
            ok == (Self::spec_verify_client(client_id, proof.index, clients@) && self@.spec_verify_committee(*proof)),
    {
        Self::verify_client(client_id, proof.index, clients) && self.verify_committee(proof)
    }

    /// The proof names a client slot holding `client_id` and is the witness proof the
    /// selection gives that slot.
    pub fn verify_witness_for_client(
        &self,
        client_id: &NodeId,
        proof: &WitnessProof,
        clients: &[crate::coordinator::Client],
    ) -> (ok: bool)
        requires
            self@.wf(),
            proof.index < clients@.len() ==> proof.index < self.total_nodes,
        ensures
            ok == (Self::spec_verify_client(client_id, proof.index, clients@) && self@.spec_verify_witness(*proof)),
    {
        Self::verify_client(client_id, proof.index, clients) && self.verify_witness(proof)
    }

    /// Slot `index` of `clients` exists and holds `client_id`.
    pub open spec fn spec_verify_client(client_id: &NodeId, index: u64, clients: Seq<crate::coordinator::Client>) -> bool {
        index < clients.len() && clients[index as int].id == *client_id
    }

    fn verify_client(client_id: &NodeId, index: u64, clients: &[crate::coordinator::Client]) -> (ok: bool)
        ensures
            ok == Self::spec_verify_client(client_id, index, clients@),
    {
        if index < clients.len() as u64 {
            ids_equal(&clients[index as usize].id, client_id)
        } else {
            false
        }
    }

    /// Checks a committee proof against the selection.
    pub fn verify_committee(&self, proof: &CommitteeProof) -> (ok: bool)
        requires
            self@.wf(),
            proof.index < self.total_nodes,
        ensures
            ok == self@.spec_verify_committee(*proof),
    {
        let position = self.compute_shuffled_index(proof.index, COMMITTEE_SALT);
        proof.position == position && proof.committee == self.get_committee_from_position(position)
    }

    /// Checks a witness proof against the selection.
    pub fn verify_witness(&self, proof: &WitnessProof) -> (ok: bool)
        requires
            proof.index < self.total_nodes,
        ensures
            ok == self@.spec_verify_witness(*proof),
    {
        let position = self.compute_shuffled_index(proof.index, WITNESS_SALT);
        proof.position == position && proof.witness == self.get_witness_from_position(position)
    }

    /// The shuffle seed.
    pub fn get_seed(&self) -> (seed: [u8; 32])
        ensures
            seed == self.seed,
    {
        self.seed
    }

    /// Number of tie-breaker positions.
    pub fn get_num_tie_breaker_nodes(&self) -> (n: u64)
        ensures
            n == self.tie_breaker_nodes,
    {
        self.tie_breaker_nodes
    }

    /// Number of verifier positions.
    pub fn get_num_verifier_nodes(&self) -> (n: u64)
        ensures
            n == self.verifier_nodes,
    {
        self.verifier_nodes
    }

    /// Number of trainer positions: all the others.
    pub fn get_num_trainer_nodes(&self) -> (n: u64)
        requires
            self@.wf(),
        ensures
            n == self.total_nodes - self.tie_breaker_nodes - self.verifier_nodes,
    {
        self.total_nodes - self.tie_breaker_nodes - self.verifier_nodes
    }
}

impl Committee {
    /// The committee's display name.
    pub fn to_string(&self) -> (s: String)
        ensures
            s@ == committee_name(*self),
    {
        broadcast use vstd::string::to_string_from_display_ensures_for_str;
        match self {
            Committee::TieBreaker => "Tie breaker".to_string(),
            Committee::Verifier => "Verifier".to_string(),
            Committee::Trainer => "Trainer".to_string(),
        }
    }
}

/// The client indices of a selection that fall in a committee.
pub open spec fn committee_members(cs: SelectionView, c: Committee) -> Set<nat> {
    Set::new(|i: nat| i < cs.total_nodes && cs.committee_of(i) == c)
}

/// The client indices of a selection that witness.
pub open spec fn witness_members(cs: SelectionView) -> Set<nat> {
    Set::new(|i: nat| i < cs.total_nodes && cs.is_witness(i))
}

/// Committee sizes are exact: of the `total_nodes` client indices exactly
/// `tie_breaker_nodes` break ties, exactly `verifier_nodes` verify and the remaining
/// `total_nodes - tie_breaker_nodes - verifier_nodes` train.
pub proof fn lemma_committee_sizes(cs: SelectionView)
    requires
        cs.wf(),
    ensures
        committee_members(cs, Committee::TieBreaker).finite(),
        committee_members(cs, Committee::TieBreaker).len() == cs.tie_breaker_nodes,
        committee_members(cs, Committee::Verifier).finite(),
        committee_members(cs, Committee::Verifier).len() == cs.verifier_nodes,
        committee_members(cs, Committee::Trainer).finite(),
        committee_members(cs, Committee::Trainer).len()
            == cs.total_nodes - cs.tie_breaker_nodes - cs.verifier_nodes,
{
    let n = cs.total_nodes as nat;
    let seed = cs.salted_seed(salt_bytes(COMMITTEE_SALT));
    let t = cs.tie_breaker_nodes as nat;
    let tv = (cs.tie_breaker_nodes + cs.verifier_nodes) as nat;
    lemma_shuffle_counts(n, seed, t);
    lemma_shuffle_counts(n, seed, tv);
    lemma_shuffle_counts(n, seed, n);
    let low = shuffled_below(n, seed, t);
    let mid = shuffled_below(n, seed, tv);
    let all = shuffled_below(n, seed, n);
    assert(committee_members(cs, Committee::TieBreaker) =~= low);
    assert(committee_members(cs, Committee::Verifier) =~= mid.difference(low));
    assert forall|i: nat| #[trigger] committee_members(cs, Committee::Trainer).contains(i) <==> all.difference(mid).contains(i) by {
        if i < n {
            crate::shuffle::lemma_shuffled_index_bound(i, n, seed, crate::shuffle::SHUFFLE_ROUND_COUNT as nat);
        }
    }
    assert(committee_members(cs, Committee::Trainer) =~= all.difference(mid));
    assert(mid.intersect(low) =~= low);
    assert(all.intersect(mid) =~= mid);
    vstd::set_lib::lemma_set_difference_len(mid, low);
    vstd::set_lib::lemma_set_difference_len(all, mid);
}

/// Witness count is exact: every client index witnesses when `witness_nodes` is
/// zero, otherwise exactly `witness_nodes` of them do.
pub proof fn lemma_witness_count(cs: SelectionView)
    requires
        cs.wf(),
    ensures
        witness_members(cs).finite(),
        witness_members(cs).len() == if cs.witness_nodes == 0 {
            cs.total_nodes
        } else {
            cs.witness_nodes
        },
{
    let n = cs.total_nodes as nat;
    let seed = cs.salted_seed(salt_bytes(WITNESS_SALT));
    if cs.witness_nodes == 0 {
        lemma_nat_range(n);
        assert(witness_members(cs) =~= nat_range(n));
    } else {
        lemma_shuffle_counts(n, seed, cs.witness_nodes as nat);
        assert(witness_members(cs) =~= shuffled_below(n, seed, cs.witness_nodes as nat));
    }
}

/// Proofs the selection hands out verify, and only they do: a committee proof for a
/// client index verifies exactly when its committee and position are those the
/// selection gives that index (and likewise for witness proofs).
pub proof fn lemma_proofs_verify(cs: SelectionView, index: u64, committee: CommitteeProof, witness: WitnessProof)
    requires
        committee.index == index,
        witness.index == index,
    ensures
        cs.spec_verify_committee(committee) <==> (committee.committee == cs.committee_of(index as nat)
            && committee.position == cs.committee_position(index as nat)),
        cs.spec_verify_witness(witness) <==> (witness.witness == cs.is_witness(index as nat)
            && witness.position == cs.witness_position(index as nat)),
{
}

/// A client's own proofs verify for it: the committee and witness proofs that the
/// selection hands out for slot `i` pass both checks for the identity at that
/// slot.
pub proof fn lemma_own_proofs_verify(cs: SelectionView, clients: Seq<crate::coordinator::Client>, i: u64)
    requires
        i < clients.len(),
        i < cs.total_nodes,
    ensures
        CommitteeSelection::spec_verify_client(&clients[i as int].id, i, clients),
        cs.spec_verify_committee(CommitteeProof {
            committee: cs.committee_of(i as nat),
            position: cs.committee_position(i as nat) as u64,
            index: i,
        }),
        cs.spec_verify_witness(WitnessProof {
            witness: cs.is_witness(i as nat),
            position: cs.witness_position(i as nat) as u64,
            index: i,
        }),
{
    crate::shuffle::lemma_shuffled_index_bound(i as nat, cs.total_nodes as nat, cs.salted_seed(salt_bytes(COMMITTEE_SALT)), crate::shuffle::SHUFFLE_ROUND_COUNT as nat);
    crate::shuffle::lemma_shuffled_index_bound(i as nat, cs.total_nodes as nat, cs.salted_seed(salt_bytes(WITNESS_SALT)), crate::shuffle::SHUFFLE_ROUND_COUNT as nat);
}

/// The selection a round of a run implies: the round's tie-breaker tasks and
/// client count, the run's witness count and verification percentage, and the
/// round's random seed.
pub open spec fn selection_for(config: ConfigView, round: RoundView) -> SelectionView {
    SelectionView {
        tie_breaker_nodes: round.tie_breaker_tasks as u64,
        verifier_nodes: ((round.clients_len - round.tie_breaker_tasks) * config.verification_percent / 100) as u64,
        total_nodes: round.clients_len as u64,
        witness_nodes: config.witness_nodes as u64,
        seed: sha256_spec(u64_le_bytes(round.random_seed)),
    }
}

/// A round's numbers make a selection: no more tie breakers or witnesses than
/// clients, and a percentage.
pub open spec fn selection_fits(config: ConfigView, round: RoundView) -> bool {
    &&& round.tie_breaker_tasks <= round.clients_len
    &&& (config.witness_nodes == 0 || config.witness_nodes <= round.clients_len)
    &&& config.verification_percent <= 100
}

impl CommitteeSelection {
    /// The selection of the run's current round, or with `previous_round` of the
    /// round before it; fails when there is no such round.
    pub fn from_coordinator(coordinator: &Coordinator, previous_round: bool) -> (r: Result<Self, CoordinatorError>)
        requires
            coordinator@.round_slot(previous_round) matches Some(i) ==> selection_fits(coordinator@.config, coordinator@.epoch_state.rounds[i]),
        ensures
            match coordinator@.round_slot(previous_round) {
                Some(i) => r matches Ok(cs) && cs@ == selection_for(coordinator@.config, coordinator@.epoch_state.rounds[i]) && cs@.wf(),
                None => r == Err::<CommitteeSelection, CoordinatorError>(CoordinatorError::NoActiveRound),
            },
    {
        let round = if previous_round {
            coordinator.previous_round()
        } else {
            coordinator.current_round()
        };
        match round {
            None => Err(CoordinatorError::NoActiveRound),
            Some(round) => {
                assert((round.clients_len - round.tie_breaker_tasks) * coordinator.config.verification_percent <= 0xffff * 0xff) by (nonlinear_arith)
                    requires
                        round.tie_breaker_tasks <= round.clients_len,
                        round.clients_len <= 0xffff,
                        coordinator.config.verification_percent <= 0xff,
                ;
                let cs = Self::new(
                    round.tie_breaker_tasks as usize,
                    coordinator.config.witness_nodes as usize,
                    coordinator.config.verification_percent,
                    round.clients_len as usize,
                    round.random_seed,
                );
                Ok(cs)
            },
        }
    }
}

} // verus!
