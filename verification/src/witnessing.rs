use vstd::prelude::*;
use crate::bloom::Bloom;
use crate::committee_selection::{
    ids_equal, selection_fits, selection_for, Committee, CommitteeProof, CommitteeSelection, NodeId, SelectionView,
};
use crate::coordinator::{
    Client, ClientState, Commitment, Coordinator, CoordinatorError, CoordinatorView, EpochStateView, Round,
    RoundView, RunState, Witness, witness_wf, NUM_STORED_ROUNDS, SOLANA_MAX_NUM_WITNESSES,
};
use crate::data_selection::{
    assignment_fits, assignment_for_round, batches_of, BatchId, get_batch_ids_for_node,
};
use crate::hashing::{sha256, sha256_pair, sha256_spec};

verus! {

/// The big-endian bytes of a `u64`.
pub open spec fn u64_be_bytes(x: u64) -> Seq<u8> {
    Seq::new(8, |i: int| ((x >> (8 * (7 - i)) as u64) & 0xff) as u8)
}

/// A trainer's commitment to a batch: `sha256(id ++ be64(batch start))`.
pub open spec fn batch_commitment(id: NodeId, batch: BatchId) -> Seq<u8> {
    sha256_spec(id@ + u64_be_bytes(batch.start))
}

/// The key under which witnesses record a commitment in their order bloom: its hash.
pub open spec fn bloom_key(commitment: Seq<u8>) -> Seq<u8> {
    sha256_spec(commitment)
}

/// The bloom keys of a trainer's commitments to its batches.
pub open spec fn commitment_keys(id: NodeId, batches: Seq<BatchId>) -> Seq<Seq<u8>> {
    Seq::new(batches.len(), |i: int| bloom_key(batch_commitment(id, batches[i])))
}

/// How many of the keys a witness's order bloom contains.
pub open spec fn witness_hits(w: Witness, keys: Seq<Seq<u8>>) -> nat
    decreases keys.len(),
{
    if keys.len() == 0 {
        0
    } else {
        witness_hits(w, keys.drop_last()) + if w.order_bloom.spec_contains(keys.last()) {
            1nat
        } else {
            0nat
        }
    }
}

/// A trainer's health score: one point per witness per confirmed commitment.
pub open spec fn health_score(witnesses: Seq<Witness>, keys: Seq<Seq<u8>>) -> nat
    decreases witnesses.len(),
{
    if witnesses.len() == 0 {
        0
    } else {
        health_score(witnesses.drop_last(), keys) + witness_hits(witnesses.last(), keys)
    }
}

proof fn lemma_witness_hits_bound(w: Witness, keys: Seq<Seq<u8>>)
    ensures
        witness_hits(w, keys) <= keys.len(),
    decreases keys.len(),
{
    if keys.len() > 0 {
        lemma_witness_hits_bound(w, keys.drop_last());
    }
}

proof fn lemma_health_score_bound(witnesses: Seq<Witness>, keys: Seq<Seq<u8>>)
    ensures
        health_score(witnesses, keys) <= witnesses.len() * keys.len(),
    decreases witnesses.len(),
{
    if witnesses.len() > 0 {
        lemma_health_score_bound(witnesses.drop_last(), keys);
        lemma_witness_hits_bound(witnesses.last(), keys);
        assert((witnesses.len() - 1) * keys.len() + keys.len() == witnesses.len() * keys.len()) by (nonlinear_arith);
    }
}

/// The big-endian bytes of a `u64`.
pub(crate) fn be_bytes_u64(x: u64) -> (out: [u8; 8])
    ensures
        out@ == u64_be_bytes(x),
{
    let out = [
        ((x >> 56u64) & 0xff) as u8,
        ((x >> 48u64) & 0xff) as u8,
        ((x >> 40u64) & 0xff) as u8,
        ((x >> 32u64) & 0xff) as u8,
        ((x >> 24u64) & 0xff) as u8,
        ((x >> 16u64) & 0xff) as u8,
        ((x >> 8u64) & 0xff) as u8,
        (x & 0xff) as u8,
    ];
    assert(out@ =~= u64_be_bytes(x)) by {
        assert(x >> 0u64 == x) by (bit_vector);
    }
    out
}

/// Copies the live witnesses of a round.
pub(crate) fn live_witnesses(round: &Round) -> (out: Vec<Witness>)
    requires
        round.num_witnesses <= SOLANA_MAX_NUM_WITNESSES,
    ensures
        out@ == round@.witnesses,
{
    let mut out: Vec<Witness> = Vec::new();
    let mut i: u16 = 0;
    while i < round.num_witnesses
        invariant
            i <= round.num_witnesses <= 16,
            out@ == round.witnesses@.take(i as int),
        decreases round.num_witnesses - i,
    {
        out.push(round.witnesses[i as usize]);
        assert(round.witnesses@.take(i + 1) =~= round.witnesses@.take(i as int).push(round.witnesses@[i as int]));
        i += 1;
    }
    out
}

impl Coordinator {
    /// A trainer's health score: for each witness, one point for each of the
    /// trainer's batches whose commitment the witness's order bloom confirms.
    pub fn trainer_healthy_score_by_witnesses(batch_ids: &[BatchId], id: &NodeId, witnesses: &[Witness]) -> (score: u16)
        requires
            witnesses@.len() * batch_ids@.len() <= u16::MAX,
            forall|j: int| 0 <= j < witnesses@.len() ==> witness_wf(#[trigger] witnesses@[j]),
        ensures
            score == health_score(witnesses@, commitment_keys(*id, batch_ids@)),
    {
        let ghost keys = commitment_keys(*id, batch_ids@);
        let mut commitments: Vec<[u8; 32]> = Vec::new();
        let mut b: usize = 0;
        while b < batch_ids.len()
            invariant
                b <= batch_ids@.len(),
                commitments@.len() == b,
                forall|k: int| 0 <= k < b ==> (#[trigger] commitments@[k])@ == batch_commitment(*id, batch_ids@[k]),
            decreases batch_ids@.len() - b,
        {
            let be = be_bytes_u64(batch_ids[b].start);
            let c = sha256_pair(id, &be);
            commitments.push(c);
            b += 1;
        }
        let mut score: u16 = 0;
        let mut w: usize = 0;
        proof {
            lemma_health_score_bound(witnesses@, keys);
        }
        while w < witnesses.len()
            invariant
                w <= witnesses@.len(),
                commitments@.len() == batch_ids@.len(),
                keys == commitment_keys(*id, batch_ids@),
                forall|k: int| 0 <= k < batch_ids@.len() ==> (#[trigger] commitments@[k])@ == batch_commitment(*id, batch_ids@[k]),
                forall|j: int| 0 <= j < witnesses@.len() ==> witness_wf(#[trigger] witnesses@[j]),
                witnesses@.len() * batch_ids@.len() <= u16::MAX,
                score == health_score(witnesses@.take(w as int), keys),
            decreases witnesses@.len() - w,
        {
            let mut c: usize = 0;
            let ghost before = score;
            proof {
                lemma_health_score_bound(witnesses@.take(w as int), keys);
                assert(w * batch_ids@.len() + batch_ids@.len() <= witnesses@.len() * batch_ids@.len()) by (nonlinear_arith)
                    requires
                        w < witnesses@.len(),
                ;
            }
            while c < commitments.len()
                invariant
                    w < witnesses@.len(),
                    c <= commitments@.len(),
                    commitments@.len() == batch_ids@.len(),
                    keys == commitment_keys(*id, batch_ids@),
                    forall|k: int| 0 <= k < batch_ids@.len() ==> (#[trigger] commitments@[k])@ == batch_commitment(*id, batch_ids@[k]),
                    witness_wf(witnesses@[w as int]),
                    before == health_score(witnesses@.take(w as int), keys),
                    before <= w * batch_ids@.len(),
                    w * batch_ids@.len() + batch_ids@.len() <= u16::MAX,
                    score == before + witness_hits(witnesses@[w as int], keys.take(c as int)),
                decreases commitments@.len() - c,
            {
                proof {
                    lemma_witness_hits_bound(witnesses@[w as int], keys.take(c as int));
                    assert(keys.take(c + 1).drop_last() =~= keys.take(c as int));
                }
                let key = sha256(&commitments[c]);
                if witnesses[w].order_bloom.contains(&key) {
                    score += 1;
                }
                c += 1;
            }
            assert(keys.take(commitments@.len() as int) =~= keys);
            assert(witnesses@.take(w + 1).drop_last() =~= witnesses@.take(w as int));
            w += 1;
        }
        assert(witnesses@.take(witnesses@.len() as int) =~= witnesses@);
        score
    }
}

/// The round before the current one.
pub open spec fn previous_round_of(c: CoordinatorView) -> RoundView {
    c.epoch_state.rounds[c.round_slot(true).unwrap()]
}

/// The batches the previous round assigned to `id`.
pub open spec fn node_batches(c: CoordinatorView, id: NodeId) -> Seq<BatchId> {
    let round = previous_round_of(c);
    batches_of(assignment_for_round(c, round, selection_for(c.config, round)), id)
}

/// A trainer is healthy by the witnesses: with no quorum set, every witness
/// confirmed every one of its batches of the previous round; otherwise its score
/// reaches the quorum for each batch.
pub open spec fn trainer_healthy(c: CoordinatorView, id: NodeId, witnesses: Seq<Witness>, witness_quorum: u16) -> bool {
    let batches = node_batches(c, id);
    let score = health_score(witnesses, commitment_keys(id, batches));
    if witness_quorum == 0 {
        score == witnesses.len() * batches.len()
    } else {
        score >= witness_quorum * batches.len()
    }
}

/// The inputs on which judging a trainer's health stays within its types and never
/// meets a committee it cannot serve: there is a previous round whose numbers make
/// a selection and whose data can be assigned, the witnesses are well formed, and
/// the score and quorum arithmetic fits in 16 bits.
pub open spec fn trainer_health_fits(c: CoordinatorView, id: NodeId, witnesses: Seq<Witness>, witness_quorum: u16) -> bool {
    &&& c.round_slot(true) is Some
    &&& selection_fits(c.config, previous_round_of(c))
    &&& assignment_fits(c, previous_round_of(c), selection_for(c.config, previous_round_of(c)))
    &&& forall|j: int| 0 <= j < witnesses.len() ==> witness_wf(#[trigger] witnesses[j])
    &&& witnesses.len() * node_batches(c, id).len() <= u16::MAX
    &&& witness_quorum != 0 ==> witness_quorum * node_batches(c, id).len() <= u16::MAX
}

impl Coordinator {
    /// Whether the witnesses confirm the trainer's work of the previous round.
    pub fn trainer_healthy_by_witnesses(coordinator: &Self, id: &NodeId, witnesses: &[Witness], witness_quorum: u16) -> (healthy: bool)
        requires
            trainer_health_fits(coordinator@, *id, witnesses@, witness_quorum),
        ensures
            healthy == trainer_healthy(coordinator@, *id, witnesses@, witness_quorum),
    {
        let prev_selection = match CommitteeSelection::from_coordinator(coordinator, true) {
            Ok(cs) => cs,
            Err(_) => {
                return false;
            },
        };
        let prev_round = match coordinator.previous_round() {
            Some(r) => r,
            None => {
                return false;
            },
        };
        let assignments = crate::data_selection::assign_data_for_round(coordinator, prev_round, &prev_selection);
        let batch_ids = get_batch_ids_for_node(&assignments, id);
        let score = Self::trainer_healthy_score_by_witnesses(batch_ids.as_slice(), id, witnesses);
        if witness_quorum == 0 {
            score as usize == witnesses.len() * batch_ids.len()
        } else {
            assert(batch_ids@.len() <= u16::MAX) by (nonlinear_arith)
                requires
                    witness_quorum >= 1,
                    witness_quorum * batch_ids@.len() <= u16::MAX,
            ;
            score >= witness_quorum * batch_ids.len() as u16
        }
    }
}

/// Whether a health-check proof claims a healthy client. With no previous round
/// every client counts as healthy. Otherwise the proof must name a client of the
/// previous round, be a valid committee proof for that client under the current
/// round's selection, and the witnesses of the previous round must confirm the
/// trainer; proofs failing any of this do not claim a healthy client.
#[verifier::opaque]
pub open spec fn healthy_spec(c: CoordinatorView, proof: CommitteeProof) -> bool {
    match c.round_slot(true) {
        None => true,
        Some(pi) => {
            let round = c.epoch_state.rounds[pi];
            if proof.index < round.clients_len {
                match c.historical_client(proof.index as nat, round.clients_len) {
                    None => false,
                    Some(client) => {
                        let cs = selection_for(c.config, c.cur());
                        if !(CommitteeSelection::spec_verify_client(&client.id, proof.index, c.epoch_state.clients)
                            && cs.spec_verify_committee(proof)) {
                            false
                        } else {
                            trainer_healthy(c, client.id, round.witnesses, c.config.witness_quorum)
                        }
                    },
                }
            } else {
                false
            }
        },
    }
}

/// The inputs on which judging a proof stays within its types and committees: the
/// current round's numbers make a selection covering the proof's slot, and a valid
/// proof names a trainer whose health can be judged.
pub open spec fn healthy_fits(c: CoordinatorView, proof: CommitteeProof) -> bool {
    &&& c.epoch_state.rounds_head < NUM_STORED_ROUNDS
    &&& match c.round_slot(true) {
        None => true,
        Some(pi) => {
            let round = c.epoch_state.rounds[pi];
            proof.index < round.clients_len ==> match c.historical_client(proof.index as nat, round.clients_len) {
                None => true,
                Some(client) => {
                    let cs = selection_for(c.config, c.cur());
                    &&& selection_fits(c.config, c.cur())
                    &&& proof.index < c.epoch_state.clients.len() ==> proof.index < c.cur().clients_len
                    &&& (CommitteeSelection::spec_verify_client(&client.id, proof.index, c.epoch_state.clients)
                        && cs.spec_verify_committee(proof)) ==> {
                        &&& proof.committee == Committee::Trainer
                        &&& trainer_health_fits(c, client.id, round.witnesses, c.config.witness_quorum)
                    }
                },
            }
        },
    }
}

impl Coordinator {
    /// Whether a health-check proof claims a healthy client.
    pub fn healthy(&self, proof: &CommitteeProof) -> (r: bool)
        requires
            self.inv(),
            healthy_fits(self@, *proof),
        ensures
            r == healthy_spec(self@, *proof),
    {
        reveal(healthy_spec);
        let round = match self.previous_round() {
            Some(round) => round,
            None => {
                return true;
            },
        };
        let index = proof.index;
        if index < round.clients_len as u64 {
            let client = match self.get_client_at_historical_index(index as usize, round.clients_len) {
                Some(client) => client,
                None => {
                    return false;
                },
            };
            let selection = match CommitteeSelection::from_coordinator(self, false) {
                Ok(selection) => selection,
                Err(_) => {
                    return false;
                },
            };
            if !selection.verify_committee_for_client(&client.id, proof, self.epoch_state.clients.as_slice()) {
                return false;
            }
            let witnesses = live_witnesses(round);
            Self::trainer_healthy_by_witnesses(self, &client.id, witnesses.as_slice(), self.config.witness_quorum)
        } else {
            false
        }
    }
}

/// Dropping the healthy clients named by health-check proofs, in order: each named
/// client that is still healthy becomes dropped.
pub open spec fn drop_checked(clients: Seq<Client>, checks: Seq<CommitteeProof>) -> Seq<Client>
    decreases checks.len(),
{
    if checks.len() == 0 {
        clients
    } else {
        let before = drop_checked(clients, checks.drop_last());
        let i = checks.last().index as int;
        if before[i].state == ClientState::Healthy {
            before.update(i, Client { state: ClientState::Dropped, ..before[i] })
        } else {
            before
        }
    }
}

/// How many clients the health-check proofs drop.
pub open spec fn drop_count(clients: Seq<Client>, checks: Seq<CommitteeProof>) -> nat
    decreases checks.len(),
{
    if checks.len() == 0 {
        0
    } else {
        let before = drop_checked(clients, checks.drop_last());
        drop_count(clients, checks.drop_last()) + if before[checks.last().index as int].state == ClientState::Healthy {
            1nat
        } else {
            0nat
        }
    }
}

/// The number of healthy clients.
pub open spec fn healthy_count(clients: Seq<Client>) -> nat
    decreases clients.len(),
{
    if clients.len() == 0 {
        0
    } else {
        healthy_count(clients.drop_last()) + if clients.last().state == ClientState::Healthy {
            1nat
        } else {
            0nat
        }
    }
}

proof fn lemma_healthy_count_bound(clients: Seq<Client>)
    ensures
        healthy_count(clients) <= clients.len(),
    decreases clients.len(),
{
    if clients.len() > 0 {
        lemma_healthy_count_bound(clients.drop_last());
    }
}

proof fn lemma_healthy_count_drop(clients: Seq<Client>, i: int, c: Client)
    requires
        0 <= i < clients.len(),
        clients[i].state == ClientState::Healthy,
        c.state != ClientState::Healthy,
    ensures
        healthy_count(clients.update(i, c)) + 1 == healthy_count(clients),
    decreases clients.len(),
{
    if i < clients.len() - 1 {
        assert(clients.update(i, c).drop_last() =~= clients.drop_last().update(i, c));
        lemma_healthy_count_drop(clients.drop_last(), i, c);
    } else {
        assert(clients.update(i, c).drop_last() =~= clients.drop_last());
    }
}

/// Dropping keeps the length and trades healthy clients for the count.
proof fn lemma_drop_checked(clients: Seq<Client>, checks: Seq<CommitteeProof>)
    requires
        forall|k: int| 0 <= k < checks.len() ==> (#[trigger] checks[k]).index < clients.len(),
    ensures
        drop_checked(clients, checks).len() == clients.len(),
        drop_count(clients, checks) + healthy_count(drop_checked(clients, checks)) == healthy_count(clients),
    decreases checks.len(),
{
    if checks.len() > 0 {
        let prefix = checks.drop_last();
        assert forall|k: int| 0 <= k < prefix.len() implies (#[trigger] prefix[k]).index < clients.len() by {
            assert(prefix[k] == checks[k]);
        }
        lemma_drop_checked(clients, prefix);
        let before = drop_checked(clients, prefix);
        let i = checks.last().index as int;
        assert(checks.last() == checks[checks.len() - 1]);
        if before[i].state == ClientState::Healthy {
            lemma_healthy_count_drop(before, i, Client { state: ClientState::Dropped, ..before[i] });
        }
    }
}

/// A health check: refused while halted or when any proof claims a healthy client;
/// otherwise every named client still healthy is dropped and the number dropped is
/// returned.
pub open spec fn health_check_spec(c: CoordinatorView, checks: Seq<CommitteeProof>) -> (CoordinatorView, Result<u32, CoordinatorError>) {
    if c.halted() {
        (c, Err(CoordinatorError::Halted))
    } else if exists|k: int| 0 <= k < checks.len() && healthy_spec(c, #[trigger] checks[k]) {
        (c, Err(CoordinatorError::InvalidHealthCheck))
    } else {
        (CoordinatorView {
            epoch_state: EpochStateView { clients: drop_checked(c.epoch_state.clients, checks), ..c.epoch_state },
            ..c
        }, Ok(drop_count(c.epoch_state.clients, checks) as u32))
    }
}

/// The inputs on which a health check stays within its types: each proof judged
/// can be judged, and when none claims a healthy client every proof names a current
/// client slot.
#[verifier::opaque]
pub open spec fn health_check_fits(c: CoordinatorView, checks: Seq<CommitteeProof>) -> bool {
    !c.halted() ==> {
        &&& forall|k: int| 0 <= k < checks.len() ==>
            (forall|j: int| 0 <= j < k ==> !healthy_spec(c, #[trigger] checks[j])) ==> healthy_fits(c, #[trigger] checks[k])
        &&& (forall|k: int| 0 <= k < checks.len() ==> !healthy_spec(c, #[trigger] checks[k])) ==>
            forall|k: int| 0 <= k < checks.len() ==> (#[trigger] checks[k]).index < c.epoch_state.clients.len()
    }
}

/// Drops the healthy clients the proofs name, returning how many were dropped.
fn drop_clients(clients: &mut Vec<Client>, checks: &Vec<CommitteeProof>) -> (dropped: u32)
    requires
        old(clients)@.len() <= 64,
        forall|j: int| 0 <= j < checks@.len() ==> (#[trigger] checks@[j]).index < old(clients)@.len(),
    ensures
        final(clients)@ == drop_checked(old(clients)@, checks@),
        dropped == drop_count(old(clients)@, checks@),
{
    let ghost clients0 = clients@;
    proof {
        lemma_drop_checked(clients0, checks@);
        lemma_healthy_count_bound(clients0);
    }
    let mut dropped: u32 = 0;
    let mut k: usize = 0;
    while k < checks.len()
        invariant
            k <= checks@.len(),
            forall|j: int| 0 <= j < checks@.len() ==> (#[trigger] checks@[j]).index < clients0.len(),
            clients@ == drop_checked(clients0, checks@.take(k as int)),
            dropped == drop_count(clients0, checks@.take(k as int)),
            clients0.len() <= 64,
        decreases checks@.len() - k,
    {
        proof {
            let prefix = checks@.take(k as int);
            assert forall|j: int| 0 <= j < prefix.len() implies (#[trigger] prefix[j]).index < clients0.len() by {
                assert(prefix[j] == checks@[j]);
            }
            lemma_drop_checked(clients0, prefix);
            lemma_healthy_count_bound(clients0);
            assert(checks@.take(k + 1).drop_last() =~= prefix);
        }
        let index = checks[k].index as usize;
        let mut client = clients[index];
        if client.state == ClientState::Healthy {
            client.state = ClientState::Dropped;
            clients.set(index, client);
            dropped += 1;
        }
        k += 1;
    }
    assert(checks@.take(checks@.len() as int) =~= checks@);
    dropped
}

impl Coordinator {
    /// Whether any proof claims a healthy client.
    fn any_healthy(&self, checks: &Vec<CommitteeProof>) -> (r: bool)
        requires
            self.inv(),
            !self@.halted(),
            health_check_fits(self@, checks@),
        ensures
            r == exists|k: int| 0 <= k < checks@.len() && healthy_spec(self@, #[trigger] checks@[k]),
    {
        let mut k: usize = 0;
        while k < checks.len()
            invariant
                self.inv(),
                !self@.halted(),
                k <= checks@.len(),
                health_check_fits(self@, checks@),
                forall|j: int| 0 <= j < k ==> !healthy_spec(self@, #[trigger] checks@[j]),
            decreases checks@.len() - k,
        {
            assert(healthy_fits(self@, checks@[k as int])) by {
                reveal(health_check_fits);
            }
            if self.healthy(&checks[k]) {
                return true;
            }
            k += 1;
        }
        false
    }

    /// Reports clients as unhealthy; refused if any of them is healthy.
    pub fn health_check(&mut self, _from: &NodeId, checks: Vec<CommitteeProof>) -> (r: Result<u32, CoordinatorError>)
        requires
            old(self).inv(),
            health_check_fits(old(self)@, checks@),
        ensures
            (final(self)@, r) == health_check_spec(old(self)@, checks@),
            final(self).inv(),
    {
        if self.halted() {
            return Err(CoordinatorError::Halted);
        }
        if self.any_healthy(&checks) {
            return Err(CoordinatorError::InvalidHealthCheck);
        }
        proof {
            reveal(health_check_fits);
            lemma_drop_checked(self.epoch_state.clients@, checks@);
        }
        let dropped = drop_clients(&mut self.epoch_state.clients, &checks);
        Ok(dropped)
    }
}

/// A witness report: refused while halted, when the proof is not this client's
/// witness proof under the current round's selection or says it does not witness,
/// outside training and witnessing, when the client already witnessed this round,
/// or when the round's witness slots are full. Otherwise the witness is recorded;
/// once the round has as many witnesses as the run wants (all clients when the
/// configured count is zero) training gives way to witnessing.
pub open spec fn witness_spec(c: CoordinatorView, from: NodeId, w: Witness, ts: u64) -> (CoordinatorView, Result<(), CoordinatorError>) {
    let cur = c.cur();
    let head = c.epoch_state.rounds_head as int;
    if c.halted() {
        (c, Err(CoordinatorError::Halted))
    } else if !(CommitteeSelection::spec_verify_client(&from, w.proof.index, c.epoch_state.clients)
        && selection_for(c.config, cur).spec_verify_witness(w.proof)) || !w.proof.witness {
        (c, Err(CoordinatorError::InvalidWitness))
    } else if !(c.run_state == RunState::RoundWitness || c.run_state == RunState::RoundTrain) {
        (c, Err(CoordinatorError::InvalidRunState))
    } else if exists|j: int| 0 <= j < cur.witnesses.len()
        && c.epoch_state.clients[(#[trigger] cur.witnesses[j]).proof.index as int].id == from {
        (c, Err(CoordinatorError::DuplicateWitness))
    } else if cur.num_witnesses == SOLANA_MAX_NUM_WITNESSES {
        (c, Err(CoordinatorError::WitnessesFull))
    } else {
        let round = RoundView { witnesses: cur.witnesses.push(w), num_witnesses: (cur.num_witnesses + 1) as u16, ..cur };
        let c1 = CoordinatorView {
            epoch_state: EpochStateView { rounds: c.epoch_state.rounds.update(head, round), ..c.epoch_state },
            ..c
        };
        let witness_nodes: nat = if c.config.witness_nodes == 0 {
            c.epoch_state.clients.len()
        } else {
            c.config.witness_nodes as nat
        };
        if round.witnesses.len() == witness_nodes && c.run_state != RunState::RoundWitness {
            (c1.with_state(ts, RunState::RoundWitness), Ok(()))
        } else {
            (c1, Ok(()))
        }
    }
}

impl Coordinator {
    /// Records a witness report from client `from`.
    pub fn witness(&mut self, from: &NodeId, witness: Witness, unix_timestamp: u64) -> (r: Result<(), CoordinatorError>)
        requires
            old(self).inv(),
            witness_wf(witness),
            !old(self)@.halted() ==> {
                &&& selection_fits(old(self)@.config, old(self)@.cur())
                &&& witness.proof.index < old(self)@.epoch_state.clients.len() ==> witness.proof.index < old(self)@.cur().clients_len
            },
        ensures
            (final(self)@, r) == witness_spec(old(self)@, *from, witness, unix_timestamp),
            final(self).inv(),
    {
        if self.halted() {
            return Err(CoordinatorError::Halted);
        }
        let selection = match CommitteeSelection::from_coordinator(self, false) {
            Ok(cs) => cs,
            Err(e) => {
                return Err(e);
            },
        };
        if !selection.verify_witness_for_client(from, &witness.proof, self.epoch_state.clients.as_slice()) || !witness.proof.witness {
            return Err(CoordinatorError::InvalidWitness);
        }
        if !(self.run_state == RunState::RoundWitness || self.run_state == RunState::RoundTrain) {
            return Err(CoordinatorError::InvalidRunState);
        }
        let witness_nodes = if self.config.witness_nodes == 0 {
            self.epoch_state.clients.len()
        } else {
            self.config.witness_nodes as usize
        };
        let head = self.epoch_state.rounds_head as usize;
        let mut round = self.epoch_state.rounds[head];
        let ghost cur = self@.cur();
        assert(round@ == cur);
        assert(round.num_witnesses <= 16);
        let mut j: u16 = 0;
        while j < round.num_witnesses
            invariant
                self.inv(),
                round@ == self@.cur(),
                cur == self@.cur(),
                round.num_witnesses <= 16,
                self.run_state == RunState::RoundWitness || self.run_state == RunState::RoundTrain,
                j <= round.num_witnesses,
                !self@.halted(),
                witness.proof.witness,
                CommitteeSelection::spec_verify_client(from, witness.proof.index, self@.epoch_state.clients),
                selection_for(self@.config, cur).spec_verify_witness(witness.proof),
                forall|k: int| 0 <= k < j ==> self@.epoch_state.clients[(#[trigger] cur.witnesses[k]).proof.index as int].id != *from,
            decreases round.num_witnesses - j,
        {
            assert(round.witnesses@[j as int] == cur.witnesses[j as int]);
            assert(cur.witnesses[j as int].proof.index < self@.epoch_state.clients.len());
            let index = round.witnesses[j as usize].proof.index as usize;
            if ids_equal(&self.epoch_state.clients[index].id, from) {
                assert(self@.epoch_state.clients[(cur.witnesses[j as int]).proof.index as int].id == *from);
                return Err(CoordinatorError::DuplicateWitness);
            }
            j += 1;
        }
        if round.num_witnesses as usize == SOLANA_MAX_NUM_WITNESSES {
            return Err(CoordinatorError::WitnessesFull);
        }
        let n = round.num_witnesses as usize;
        round.witnesses[n] = witness;
        round.num_witnesses = round.num_witnesses + 1;
        assert(round.witnesses@.take(n + 1) =~= cur.witnesses.push(witness));
        proof {
            crate::coordinator::lemma_rounds_view_update(self.epoch_state.rounds, head as int, round);
        }
        self.epoch_state.rounds[head] = round;
        if round.num_witnesses as usize == witness_nodes && !(self.run_state == RunState::RoundWitness) {
            self.change_state(unix_timestamp, RunState::RoundWitness);
        }
        Ok(())
    }
}

/// A refused request changes nothing: a witness report, a health check, a
/// checkpoint, a withdrawal or a resume that the coordinator refuses leaves it as it
/// was. An accepted witness report adds exactly that witness to the current round,
/// and an accepted health check only changes client states, and only from healthy
/// to dropped.
pub proof fn lemma_refusals_change_nothing(
    c: CoordinatorView,
    from: NodeId,
    w: Witness,
    ts: u64,
    checks: Seq<CommitteeProof>,
    hub_repo: crate::model::HubRepo,
    index: u64,
)
    ensures
        witness_spec(c, from, w, ts).1 is Err ==> witness_spec(c, from, w, ts).0 == c,
        health_check_spec(c, checks).1 is Err ==> health_check_spec(c, checks).0 == c,
        c.checkpoint(from, hub_repo).1 is Err ==> c.checkpoint(from, hub_repo).0 == c,
        c.withdraw(index).1 is Err ==> c.withdraw(index).0 == c,
        c.resume(ts).1 is Err ==> c.resume(ts).0 == c,
        c.wf() && witness_spec(c, from, w, ts).1 is Ok ==> {
            let after = witness_spec(c, from, w, ts).0;
            after.epoch_state.rounds[c.epoch_state.rounds_head as int].witnesses == c.cur().witnesses.push(w)
        },
        (forall|k: int| 0 <= k < checks.len() ==> (#[trigger] checks[k]).index < c.epoch_state.clients.len())
            && health_check_spec(c, checks).1 is Ok ==> {
            let after = health_check_spec(c, checks).0.epoch_state.clients;
            &&& after.len() == c.epoch_state.clients.len()
            &&& forall|i: int| 0 <= i < after.len() ==> (#[trigger] after[i]) == c.epoch_state.clients[i]
                || (c.epoch_state.clients[i].state == ClientState::Healthy
                    && after[i] == Client { state: ClientState::Dropped, ..c.epoch_state.clients[i] })
        },
{
    if (forall|k: int| 0 <= k < checks.len() ==> (#[trigger] checks[k]).index < c.epoch_state.clients.len())
        && health_check_spec(c, checks).1 is Ok {
        lemma_drop_checked_shape(c.epoch_state.clients, checks);
    }
}

/// Dropping the checked clients keeps every slot, changing at most a healthy
/// client to a dropped one.
proof fn lemma_drop_checked_shape(clients: Seq<Client>, checks: Seq<CommitteeProof>)
    requires
        forall|k: int| 0 <= k < checks.len() ==> (#[trigger] checks[k]).index < clients.len(),
    ensures
        drop_checked(clients, checks).len() == clients.len(),
        forall|i: int| 0 <= i < clients.len() ==> (#[trigger] drop_checked(clients, checks)[i]) == clients[i]
            || (clients[i].state == ClientState::Healthy
                && drop_checked(clients, checks)[i] == Client { state: ClientState::Dropped, ..clients[i] }),
    decreases checks.len(),
{
    if checks.len() > 0 {
        let rest = checks.drop_last();
        assert forall|k: int| 0 <= k < rest.len() implies (#[trigger] rest[k]).index < clients.len() by {
            assert(rest[k] == checks[k]);
        }
        lemma_drop_checked_shape(clients, rest);
        assert(checks.last() == checks[checks.len() - 1]);
    }
}

/// A witness confirms each key at most once, and not a key missing from its order
/// bloom.
proof fn lemma_hits_bound(w: Witness, keys: Seq<Seq<u8>>, k: int)
    ensures
        witness_hits(w, keys) <= keys.len(),
        0 <= k < keys.len() && !w.order_bloom.spec_contains(keys[k]) ==> witness_hits(w, keys) <= keys.len() - 1,
    decreases keys.len(),
{
    if keys.len() > 0 {
        let rest = keys.drop_last();
        if k == keys.len() - 1 {
            lemma_hits_bound(w, rest, k);
        } else {
            if 0 <= k < rest.len() {
                assert(rest[k] == keys[k]);
            }
            lemma_hits_bound(w, rest, k);
        }
    }
}

/// The witnesses' score for a trainer is at most one point per witness per key,
/// and a key that no witness confirms costs every witness its point.
proof fn lemma_score_bound(ws: Seq<Witness>, keys: Seq<Seq<u8>>, k: int)
    ensures
        health_score(ws, keys) <= ws.len() * keys.len(),
        (0 <= k < keys.len() && forall|j: int| 0 <= j < ws.len() ==> !(#[trigger] ws[j]).order_bloom.spec_contains(keys[k]))
            ==> health_score(ws, keys) <= ws.len() * (keys.len() - 1),
    decreases ws.len(),
{
    if ws.len() > 0 {
        let rest = ws.drop_last();
        lemma_score_bound(rest, keys, k);
        lemma_hits_bound(ws.last(), keys, k);
        assert(ws.len() * keys.len() == rest.len() * keys.len() + keys.len()) by (nonlinear_arith)
            requires
                ws.len() == rest.len() + 1,
        ;
        if 0 <= k < keys.len() && forall|j: int| 0 <= j < ws.len() ==> !(#[trigger] ws[j]).order_bloom.spec_contains(keys[k]) {
            assert forall|j: int| 0 <= j < rest.len() implies !(#[trigger] rest[j]).order_bloom.spec_contains(keys[k]) by {
                assert(rest[j] == ws[j]);
            }
            assert(!ws[ws.len() - 1].order_bloom.spec_contains(keys[k]));
            assert(ws.len() * (keys.len() - 1) == rest.len() * (keys.len() - 1) + (keys.len() - 1)) by (nonlinear_arith)
                requires
                    ws.len() == rest.len() + 1,
            ;
        }
    }
}

/// With a non-zero quorum a trainer is healthy only if the witnesses' score
/// reaches the quorum for each of its batches. Since a witness confirms each batch
/// at most once, a trainer with a batch that no witness confirms is unhealthy
/// whenever the quorum is at least the number of witnesses.
pub proof fn lemma_health_needs_quorum_per_batch(c: CoordinatorView, id: NodeId, witnesses: Seq<Witness>, q: u16, k: int)
    requires
        q > 0,
    ensures
        trainer_healthy(c, id, witnesses, q) ==> health_score(witnesses, commitment_keys(id, node_batches(c, id)))
            >= q * node_batches(c, id).len(),
        ({
            let keys = commitment_keys(id, node_batches(c, id));
            (0 <= k < keys.len() && q >= witnesses.len()
                && forall|j: int| 0 <= j < witnesses.len() ==> !(#[trigger] witnesses[j]).order_bloom.spec_contains(keys[k]))
                ==> !trainer_healthy(c, id, witnesses, q)
        }),
{
    let batches = node_batches(c, id);
    let keys = commitment_keys(id, batches);
    lemma_score_bound(witnesses, keys, k);
    let n = keys.len();
    let w = witnesses.len();
    if 0 <= k < n && q >= w {
        assert(q * n >= w * n) by (nonlinear_arith)
            requires
                q >= w,
        ;
        assert(q * n > w * (n - 1)) by (nonlinear_arith)
            requires
                q * n >= w * n,
                n >= 1,
                q >= 1,
        ;
    }
}

/// Training closes exactly when enough witnesses reported: an accepted witness
/// report during training that brings the round's witness count to the configured
/// number of witnesses (to the number of clients when none is configured) moves the
/// run to witnessing, and one that leaves the count below that keeps training
/// going; one during witnessing leaves witnessing under way. An accepted report
/// adds one witness to the current round.
pub proof fn lemma_enough_witnesses_close_training(c: CoordinatorView, from: NodeId, w: Witness, ts: u64)
    requires
        c.wf(),
    ensures
        ({
            let (after, r) = witness_spec(c, from, w, ts);
            let wanted: nat = if c.config.witness_nodes == 0 { c.epoch_state.clients.len() } else { c.config.witness_nodes as nat };
            r is Ok ==> {
                &&& after.epoch_state.rounds_head == c.epoch_state.rounds_head
                &&& after.cur().num_witnesses == c.cur().num_witnesses + 1
                &&& (c.run_state == RunState::RoundTrain && after.cur().num_witnesses == wanted
                    ==> after.run_state == RunState::RoundWitness)
                &&& (c.run_state == RunState::RoundTrain && after.cur().num_witnesses != wanted
                    ==> after.run_state == RunState::RoundTrain)
                &&& (c.run_state == RunState::RoundWitness ==> after.run_state == RunState::RoundWitness)
            }
        }),
{
    let head = c.epoch_state.rounds_head as int;
    let r0 = c.epoch_state.rounds[head];
    assert(r0.witnesses.len() == r0.num_witnesses);
}

} // verus!
