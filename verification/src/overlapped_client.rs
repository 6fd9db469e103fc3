use vstd::prelude::*;
use crate::bloom::Bloom;
use crate::client_round::{has_key, key_index, keys_unique, value_of, set_value, position_of_key, BlobHash};
use crate::committee_selection::{ids_equal, Committee, CommitteeProof, CommitteeSelection, NodeId, WitnessProof};
use crate::coordinator::{Client, Commitment};
use crate::data_selection::BatchId;
use crate::hashing::{sha256, sha256_spec};

verus! {

/// A trainer's gossiped result in a client that overlaps rounds: batches are
/// numbered, and the payload is the blob named by `ticket_hash`.
#[derive(Clone, Copy, Debug)]
pub struct StepResult {
    pub step: u32,
    pub batch_id: u64,
    pub commitment: Commitment,
    pub ticket_hash: BlobHash,
    pub proof: CommitteeProof,
}

/// Where a payload stands: being downloaded (from whom, for which batch, under which
/// blob), or handed over for deserializing.
#[derive(Clone, Copy, Debug)]
pub enum StepPayload {
    Downloading(NodeId, u64, BlobHash),
    Deserializing,
}

/// What such a client knows of the run at the moment: the step, whether rounds
/// overlap, whether data is handed out greedily (and the cap per client then), and
/// how many data indices a batch holds.
#[derive(Clone, Copy, Debug)]
pub struct OverlapContext {
    pub step: u32,
    pub overlapped: bool,
    pub greedy_data: bool,
    pub max_batches_per_client: u32,
    pub data_indicies_per_batch: u32,
}

/// What a client that overlaps rounds tracks of one round: payloads, accepted
/// results, counts per client, who trains which data indices, three witness blooms
/// (commitments, participants, order), its proofs and selection, the batches it
/// still awaits and whether all payloads have been deserialized.
pub struct StepRound {
    pub height: u32,
    pub sent_witness: bool,
    pub downloads: Vec<(BlobHash, StepPayload)>,
    pub results: Vec<(NodeId, StepResult)>,
    pub commitments_per_client: Vec<(NodeId, u32)>,
    pub data_assignments: Vec<(BatchId, NodeId)>,
    pub blooms: Option<(Bloom, Bloom, Bloom)>,
    pub committee_info: Option<(CommitteeProof, WitnessProof, CommitteeSelection)>,
    pub batch_ids_not_yet_trained_on: Option<Vec<u64>>,
    pub all_batches_finished_deserializing: bool,
}

/// The round as the specifications see it.
#[verifier::ext_equal]
pub struct StepRoundView {
    pub height: u32,
    pub sent_witness: bool,
    pub downloads: Seq<(BlobHash, StepPayload)>,
    pub results: Seq<(NodeId, StepResult)>,
    pub commitments_per_client: Seq<(NodeId, u32)>,
    pub data_assignments: Seq<(BatchId, NodeId)>,
    pub blooms: Option<(Bloom, Bloom, Bloom)>,
    pub committee_info: Option<(CommitteeProof, WitnessProof, CommitteeSelection)>,
    pub batch_ids_not_yet_trained_on: Option<Seq<u64>>,
    pub all_batches_finished_deserializing: bool,
}

impl View for StepRound {
    type V = StepRoundView;

    open spec fn view(&self) -> StepRoundView {
        StepRoundView {
            height: self.height,
            sent_witness: self.sent_witness,
            downloads: self.downloads@,
            results: self.results@,
            commitments_per_client: self.commitments_per_client@,
            data_assignments: self.data_assignments@,
            blooms: self.blooms,
            committee_info: self.committee_info,
            batch_ids_not_yet_trained_on: match self.batch_ids_not_yet_trained_on {
                Some(ids) => Some(ids@),
                None => None,
            },
            all_batches_finished_deserializing: self.all_batches_finished_deserializing,
        }
    }
}

/// Position `i` holds the first assignment whose data indices contain `data_id`.
pub open spec fn is_first_containing(s: Seq<(BatchId, NodeId)>, data_id: u64, i: int) -> bool {
    &&& 0 <= i < s.len()
    &&& s[i].0.start <= data_id <= s[i].0.end
    &&& forall|j: int| 0 <= j < i ==> !((#[trigger] s[j]).0.start <= data_id && data_id <= s[j].0.end)
}

/// Who trains data index `data_id`: the node of the first assignment containing it.
pub open spec fn assignee_of(s: Seq<(BatchId, NodeId)>, data_id: u64) -> Option<NodeId> {
    if exists|i: int| is_first_containing(s, data_id, i) {
        Some(s[choose|i: int| is_first_containing(s, data_id, i)].1)
    } else {
        None
    }
}

/// Finds who trains a data index.
fn find_assignee(s: &Vec<(BatchId, NodeId)>, data_id: u64) -> (r: Option<NodeId>)
    ensures
        r == assignee_of(s@, data_id),
{
    let mut i: usize = 0;
    while i < s.len()
        invariant
            i <= s@.len(),
            forall|j: int| 0 <= j < i ==> !((#[trigger] s@[j]).0.start <= data_id && data_id <= s@[j].0.end),
        decreases s@.len() - i,
    {
        let (b, node) = s[i];
        if b.start <= data_id && data_id <= b.end {
            proof {
                assert(is_first_containing(s@, data_id, i as int));
                let c = choose|k: int| is_first_containing(s@, data_id, k);
                if c < i {
                    assert(!((s@[c]).0.start <= data_id && data_id <= s@[c].0.end));
                } else if c > i {
                    assert(!((s@[i as int]).0.start <= data_id && data_id <= s@[i as int].0.end));
                }
            }
            return Some(node);
        }
        i += 1;
    }
    proof {
        if exists|k: int| is_first_containing(s@, data_id, k) {
            let c = choose|k: int| is_first_containing(s@, data_id, k);
            assert(!((s@[c]).0.start <= data_id && data_id <= s@[c].0.end));
        }
    }
    None
}

/// No batch id occurs twice.
pub open spec fn ids_unique(s: Seq<u64>) -> bool {
    forall|i: int, j: int| 0 <= i < s.len() && 0 <= j < s.len() && s[i] == s[j] ==> i == j
}

/// `s` without batch id `id` (it occurs at most once).
pub open spec fn without_id(s: Seq<u64>, id: u64) -> Seq<u64> {
    if s.contains(id) {
        s.remove(s.index_of(id))
    } else {
        s
    }
}

/// How many results the round accepted from `from`.
pub open spec fn step_commitments_of(r: StepRoundView, from: NodeId) -> u32 {
    if has_key(r.commitments_per_client, from) {
        value_of(r.commitments_per_client, from)
    } else {
        0
    }
}

/// The sender's result passes the committee check, when it is to be checked: the
/// round must have a selection under which the proof checks out.
pub open spec fn step_committee_ok(r: StepRoundView, checked: Option<NodeId>, result: StepResult, clients: Seq<Client>) -> bool {
    match checked {
        None => true,
        Some(id) => match r.committee_info {
            Some((_, _, cs)) => CommitteeSelection::spec_verify_client(&id, result.proof.index, clients)
                && cs@.spec_verify_committee(result.proof),
            None => false,
        },
    }
}

/// The data rule for a result: with greedy data a client may commit up to the cap;
/// otherwise the sender must train the batch's first data index.
pub open spec fn data_rule_ok(r: StepRoundView, ctx: OverlapContext, from: NodeId, result: StepResult) -> bool {
    if ctx.greedy_data {
        step_commitments_of(r, from) < ctx.max_batches_per_client
    } else {
        assignee_of(r.data_assignments, (result.batch_id * ctx.data_indicies_per_batch) as u64) == Some(from)
    }
}

impl StepRoundView {
    /// Whether a result from `from` is taken in: it passes the committee check, comes
    /// from a trainer, names an unknown payload and keeps the data rule.
    pub open spec fn takes(self, ctx: OverlapContext, from: NodeId, checked: Option<NodeId>, result: StepResult, clients: Seq<Client>) -> bool {
        &&& step_committee_ok(self, checked, result, clients)
        &&& result.proof.committee == Committee::Trainer
        &&& !has_key(self.downloads, result.ticket_hash)
        &&& data_rule_ok(self, ctx, from, result)
    }

    /// The round after taking in a result: the sender's count grows by one, a witness
    /// with blooms votes for the commitment in its commitment and order blooms and
    /// notes the sender in its participant bloom, the result is recorded and its
    /// payload marked as downloading.
    pub open spec fn taken(self, from: NodeId, result: StepResult, after: StepRoundView) -> bool {
        &&& after.height == self.height
        &&& after.sent_witness == self.sent_witness
        &&& after.data_assignments == self.data_assignments
        &&& after.committee_info == self.committee_info
        &&& after.batch_ids_not_yet_trained_on == self.batch_ids_not_yet_trained_on
        &&& after.all_batches_finished_deserializing == self.all_batches_finished_deserializing
        &&& after.commitments_per_client == set_value(
            self.commitments_per_client,
            from,
            (step_commitments_of(self, from) + 1) as u32,
        )
        &&& after.results == self.results.push((from, result))
        &&& after.downloads == self.downloads.push(
            (result.ticket_hash, StepPayload::Downloading(from, result.batch_id, result.ticket_hash)),
        )
        &&& if self.committee_info matches Some((_, wp, _)) && wp.witness && self.blooms is Some {
            let (c, p, o) = self.blooms.unwrap();
            after.blooms matches Some((c2, p2, o2)) && {
                &&& c.adds(sha256_spec(result.commitment@), c2)
                &&& p.adds(sha256_spec(from@), p2)
                &&& o.adds(sha256_spec(result.commitment@), o2)
            }
        } else {
            after.blooms == self.blooms
        }
    }

    /// The round's shape: keyed entries are unique and the blooms well formed.
    pub open spec fn wf(self) -> bool {
        &&& keys_unique(self.downloads)
        &&& keys_unique(self.commitments_per_client)
        &&& (self.blooms matches Some((c, p, o)) ==> c.wf() && p.wf() && o.wf())
        &&& (self.committee_info matches Some((_, _, cs)) ==> cs@.wf())
        &&& (self.batch_ids_not_yet_trained_on matches Some(ids) ==> ids_unique(ids))
    }

    /// The inputs on which taking in a result cannot fail: the selection covers the
    /// proof's index, the first data index of the batch fits in 64 bits, and the
    /// sender's count has room to grow.
    pub open spec fn take_fits(self, ctx: OverlapContext, from: NodeId, checked: Option<NodeId>, result: StepResult, clients: Seq<Client>) -> bool {
        &&& checked is Some ==> match self.committee_info {
            Some((_, _, cs)) => result.proof.index < clients.len() ==> result.proof.index < cs.total_nodes,
            None => true,
        }
        &&& !ctx.greedy_data ==> result.batch_id * ctx.data_indicies_per_batch <= u64::MAX
        &&& step_commitments_of(self, from) < u32::MAX
    }
}

impl StepRound {
    /// Takes in a gossiped result for this round; says whether it was taken.
    pub fn take_result(
        &mut self,
        ctx: OverlapContext,
        from: &NodeId,
        checked: Option<NodeId>,
        result: StepResult,
        clients: &[Client],
    ) -> (taken: bool)
        requires
            old(self)@.wf(),
            old(self)@.take_fits(ctx, *from, checked, result, clients@),
        ensures
            final(self)@.wf(),
            taken == old(self)@.takes(ctx, *from, checked, result, clients@),
            taken ==> old(self)@.taken(*from, result, final(self)@),
            !taken ==> final(self)@ == old(self)@,
    {
        match checked {
            Some(id) => {
                let ok = match &self.committee_info {
                    Some(info) => info.2.verify_committee_for_client(&id, &result.proof, clients),
                    None => false,
                };
                if !ok {
                    return false;
                }
            },
            None => {},
        }
        if result.proof.committee != Committee::Trainer {
            return false;
        }
        if position_of_key(&self.downloads, &result.ticket_hash).is_some() {
            return false;
        }
        let count = match position_of_key(&self.commitments_per_client, from) {
            Some(i) => {
                proof {
                    crate::client_round::lemma_key_index_pub(self.commitments_per_client@, *from, i as int);
                }
                self.commitments_per_client[i].1
            },
            None => 0,
        };
        if ctx.greedy_data {
            if count >= ctx.max_batches_per_client {
                return false;
            }
        } else {
            let first_data_id = result.batch_id * ctx.data_indicies_per_batch as u64;
            let correct = match find_assignee(&self.data_assignments, first_data_id) {
                Some(node) => ids_equal(&node, from),
                None => false,
            };
            if !correct {
                return false;
            }
        }
        let ghost before = self@;
        proof {
            crate::client_round::lemma_set_value_unique(before.commitments_per_client, *from, (count + 1) as u32);
        }
        match position_of_key(&self.commitments_per_client, from) {
            Some(i) => {
                proof {
                    crate::client_round::lemma_key_index_pub(self.commitments_per_client@, *from, i as int);
                }
                self.commitments_per_client.set(i, (*from, count + 1));
            },
            None => {
                self.commitments_per_client.push((*from, count + 1));
            },
        }
        let is_witness = match &self.committee_info {
            Some(info) => info.1.witness,
            None => false,
        };
        if is_witness {
            match self.blooms {
                Some((mut commit_bloom, mut participant_bloom, mut order_bloom)) => {
                    let commitment_digest = sha256(&result.commitment);
                    let from_digest = sha256(from);
                    commit_bloom.add(&commitment_digest);
                    participant_bloom.add(&from_digest);
                    order_bloom.add(&commitment_digest);
                    self.blooms = Some((commit_bloom, participant_bloom, order_bloom));
                },
                None => {},
            }
        }
        self.results.push((*from, result));
        self.downloads.push((result.ticket_hash, StepPayload::Downloading(*from, result.batch_id, result.ticket_hash)));
        proof {
            let d = self.downloads@;
            assert forall|x: int, y: int| 0 <= x < d.len() && 0 <= y < d.len() && (#[trigger] d[x]).0 == (#[trigger] d[y]).0 implies x == y by {
                if x < before.downloads.len() && y < before.downloads.len() {
                    assert(before.downloads[x].0 == before.downloads[y].0);
                } else if x < before.downloads.len() {
                    assert(before.downloads[x].0 == result.ticket_hash);
                } else if y < before.downloads.len() {
                    assert(before.downloads[y].0 == result.ticket_hash);
                }
            }
        }
        true
    }
}

/// What became of a downloaded payload in a client that overlaps rounds.
#[derive(Clone, Copy, Debug, PartialEq, Eq, Structural)]
pub enum StepPayloadOutcome {
    /// No round knows its blob.
    UnknownDownload,
    /// It is already being deserialized.
    AlreadyDeserializing,
    /// No recorded result of its sender names its blob for its batch.
    NoCommitment,
    /// Stored for deserializing: whether no awaited batch is left, and how many are.
    Stored(bool, usize),
}

/// Why a payload could not be taken in.
#[derive(Clone, Copy, Debug, PartialEq, Eq, Structural)]
pub enum StepPayloadError {
    /// The round holding the payload has no proofs of this client's own.
    NoSelfProofs,
}

/// The recorded result is `from`'s result for batch `batch` whose payload is `hash`.
pub open spec fn step_result_matches(e: (NodeId, StepResult), from: NodeId, batch: u64, hash: BlobHash) -> bool {
    e.0 == from && e.1.batch_id == batch && e.1.ticket_hash == hash
}

/// Position `i` holds the first matching result.
pub open spec fn is_first_step_result(s: Seq<(NodeId, StepResult)>, from: NodeId, batch: u64, hash: BlobHash, i: int) -> bool {
    &&& 0 <= i < s.len()
    &&& step_result_matches(s[i], from, batch, hash)
    &&& forall|j: int| 0 <= j < i ==> !step_result_matches(#[trigger] s[j], from, batch, hash)
}

/// Some recorded result matches.
pub open spec fn has_step_result(s: Seq<(NodeId, StepResult)>, from: NodeId, batch: u64, hash: BlobHash) -> bool {
    exists|i: int| 0 <= i < s.len() && step_result_matches(#[trigger] s[i], from, batch, hash)
}

/// The position of the first matching result.
pub open spec fn first_step_result(s: Seq<(NodeId, StepResult)>, from: NodeId, batch: u64, hash: BlobHash) -> int {
    choose|i: int| is_first_step_result(s, from, batch, hash, i)
}

proof fn lemma_first_step_result(s: Seq<(NodeId, StepResult)>, from: NodeId, batch: u64, hash: BlobHash, i: int)
    requires
        is_first_step_result(s, from, batch, hash, i),
    ensures
        first_step_result(s, from, batch, hash) == i,
        has_step_result(s, from, batch, hash),
{
    let j = first_step_result(s, from, batch, hash);
    assert(is_first_step_result(s, from, batch, hash, j));
    if j < i {
        assert(!step_result_matches(s[j], from, batch, hash));
    } else if i < j {
        assert(!step_result_matches(s[i], from, batch, hash));
    }
    assert(step_result_matches(s[i], from, batch, hash));
}

/// The position of the first result of `from` for batch `batch` with payload `hash`.
fn position_of_step_result(s: &Vec<(NodeId, StepResult)>, from: &NodeId, batch: u64, hash: &BlobHash) -> (r: Option<usize>)
    ensures
        match r {
            Some(i) => is_first_step_result(s@, *from, batch, *hash, i as int),
            None => !has_step_result(s@, *from, batch, *hash),
        },
{
    let mut i: usize = 0;
    while i < s.len()
        invariant
            i <= s@.len(),
            forall|j: int| 0 <= j < i ==> !step_result_matches(#[trigger] s@[j], *from, batch, *hash),
        decreases s@.len() - i,
    {
        if ids_equal(&s[i].0, from) && s[i].1.batch_id == batch && ids_equal(&s[i].1.ticket_hash, hash) {
            return Some(i);
        }
        i += 1;
    }
    None
}

/// The position of batch id `b` among those still awaited.
fn position_of_id(s: &Vec<u64>, b: u64) -> (r: Option<usize>)
    ensures
        match r {
            Some(i) => i < s@.len() && s@[i as int] == b,
            None => !s@.contains(b),
        },
{
    let mut i: usize = 0;
    while i < s.len()
        invariant
            i <= s@.len(),
            forall|j: int| 0 <= j < i ==> s@[j] != b,
        decreases s@.len() - i,
    {
        if s[i] == b {
            return Some(i);
        }
        i += 1;
    }
    None
}

impl StepRoundView {
    /// What storing the payload `hash` (one of this round's downloads) comes to: a
    /// payload already deserializing, or without a matching recorded result, is left
    /// alone; a round without its own proofs refuses it; otherwise it is stored,
    /// reporting whether the awaited batches are all in and how many are left.
    pub open spec fn payload_outcome(self, hash: BlobHash) -> Result<StepPayloadOutcome, StepPayloadError> {
        match value_of(self.downloads, hash) {
            StepPayload::Deserializing => Ok(StepPayloadOutcome::AlreadyDeserializing),
            StepPayload::Downloading(from, batch, _) => if !has_step_result(self.results, from, batch, hash) {
                Ok(StepPayloadOutcome::NoCommitment)
            } else if self.committee_info is None {
                Err(StepPayloadError::NoSelfProofs)
            } else {
                match self.batch_ids_not_yet_trained_on {
                    Some(ids) => {
                        let rest = without_id(ids, batch);
                        Ok(StepPayloadOutcome::Stored(rest.len() == 0, rest.len() as usize))
                    },
                    None => Ok(StepPayloadOutcome::Stored(false, 0)),
                }
            },
        }
    }

    /// The round after storing the payload `hash`. While the round has training data,
    /// a witness with blooms notes the sender in its participant bloom and, if the
    /// batch was still awaited, votes for its commitment in the order bloom; the
    /// batch is then no longer awaited. The payload is then deserializing.
    pub open spec fn payload_applied(self, hash: BlobHash, after: StepRoundView) -> bool {
        match self.payload_outcome(hash) {
            Ok(StepPayloadOutcome::Stored(_, _)) => {
                let from = value_of(self.downloads, hash)->Downloading_0;
                let batch = value_of(self.downloads, hash)->Downloading_1;
                let commitment = self.results[first_step_result(self.results, from, batch, hash)].1.commitment;
                let witness = self.committee_info.unwrap().1.witness;
                &&& after.height == self.height
                &&& after.sent_witness == self.sent_witness
                &&& after.results == self.results
                &&& after.commitments_per_client == self.commitments_per_client
                &&& after.data_assignments == self.data_assignments
                &&& after.committee_info == self.committee_info
                &&& after.all_batches_finished_deserializing == self.all_batches_finished_deserializing
                &&& after.downloads == self.downloads.update(
                    key_index(self.downloads, hash),
                    (hash, StepPayload::Deserializing),
                )
                &&& match self.batch_ids_not_yet_trained_on {
                    None => after.batch_ids_not_yet_trained_on is None && after.blooms == self.blooms,
                    Some(ids) => {
                        &&& after.batch_ids_not_yet_trained_on == Some(without_id(ids, batch))
                        &&& if witness && self.blooms is Some {
                            let (c, p, o) = self.blooms.unwrap();
                            after.blooms matches Some((c2, p2, o2)) && {
                                &&& c2 == c
                                &&& p.adds(sha256_spec(from@), p2)
                                &&& if ids.contains(batch) {
                                    o.adds(sha256_spec(commitment@), o2)
                                } else {
                                    o2 == o
                                }
                            }
                        } else {
                            after.blooms == self.blooms
                        }
                    },
                }
            },
            _ => after == self,
        }
    }
}

impl StepRound {
    /// Stores a downloaded payload that this round knows.
    pub fn store_payload(&mut self, hash: &BlobHash) -> (r: Result<StepPayloadOutcome, StepPayloadError>)
        requires
            old(self)@.wf(),
            has_key(old(self)@.downloads, *hash),
        ensures
            r == old(self)@.payload_outcome(*hash),
            old(self)@.payload_applied(*hash, final(self)@),
            final(self)@.wf(),
    {
        let ghost before = self@;
        let di = match position_of_key(&self.downloads, hash) {
            Some(i) => i,
            None => {
                return Ok(StepPayloadOutcome::UnknownDownload);
            },
        };
        proof {
            crate::client_round::lemma_key_index_pub(self.downloads@, *hash, di as int);
        }
        let (from, batch_id) = match self.downloads[di].1 {
            StepPayload::Downloading(f, b, _) => (f, b),
            StepPayload::Deserializing => {
                return Ok(StepPayloadOutcome::AlreadyDeserializing);
            },
        };
        let ri = match position_of_step_result(&self.results, &from, batch_id, hash) {
            Some(i) => i,
            None => {
                return Ok(StepPayloadOutcome::NoCommitment);
            },
        };
        proof {
            lemma_first_step_result(self.results@, from, batch_id, *hash, ri as int);
        }
        let commitment = self.results[ri].1.commitment;
        let witness = match &self.committee_info {
            Some(info) => info.1.witness,
            None => {
                return Err(StepPayloadError::NoSelfProofs);
            },
        };
        let outcome = match self.batch_ids_not_yet_trained_on.take() {
            Some(mut remaining) => {
                let awaited = position_of_id(&remaining, batch_id);
                if witness {
                    match self.blooms {
                        Some((commit_bloom, mut participant_bloom, mut order_bloom)) => {
                            let from_digest = sha256(&from);
                            participant_bloom.add(&from_digest);
                            if awaited.is_some() {
                                let commitment_digest = sha256(&commitment);
                                order_bloom.add(&commitment_digest);
                            }
                            self.blooms = Some((commit_bloom, participant_bloom, order_bloom));
                        },
                        None => {},
                    }
                }
                let ghost ids = remaining@;
                match awaited {
                    Some(i) => {
                        proof {
                            assert(ids.contains(batch_id));
                            let k = ids.index_of(batch_id);
                            assert(ids[k] == ids[i as int]);
                        }
                        remaining.remove(i);
                        proof {
                            assert(remaining@ == without_id(ids, batch_id));
                            assert forall|x: int, y: int| 0 <= x < remaining@.len() && 0 <= y < remaining@.len() && remaining@[x] == remaining@[y] implies x == y by {
                                let xx = if x < i { x } else { x + 1 };
                                let yy = if y < i { y } else { y + 1 };
                                assert(ids[xx] == ids[yy]);
                            }
                        }
                    },
                    None => {},
                }
                let left = remaining.len();
                self.batch_ids_not_yet_trained_on = Some(remaining);
                StepPayloadOutcome::Stored(left == 0, left)
            },
            None => StepPayloadOutcome::Stored(false, 0),
        };
        self.downloads.set(di, (*hash, StepPayload::Deserializing));
        proof {
            let d = self.downloads@;
            assert forall|i: int, j: int| 0 <= i < d.len() && 0 <= j < d.len() && (#[trigger] d[i]).0 == (#[trigger] d[j]).0 implies i == j by {
                assert(before.downloads[i].0 == before.downloads[j].0);
            }
        }
        Ok(outcome)
    }
}

/// A witness report of a client that overlaps rounds: its slot, its proof and the
/// blooms of commitments, participants and order it saw.
#[derive(Clone, Copy, Debug)]
pub struct StepWitness {
    pub index: u64,
    pub proof: WitnessProof,
    pub commit_bloom: Bloom,
    pub participant_bloom: Bloom,
    pub order_bloom: Bloom,
}

impl StepRoundView {
    /// The empty round.
    pub open spec fn empty() -> StepRoundView {
        StepRoundView {
            height: 0,
            sent_witness: false,
            downloads: Seq::empty(),
            results: Seq::empty(),
            commitments_per_client: Seq::empty(),
            data_assignments: Seq::empty(),
            blooms: None,
            committee_info: None,
            batch_ids_not_yet_trained_on: None,
            all_batches_finished_deserializing: false,
        }
    }

    /// The witness the round sends for slot `index`, if it has one to send: none once
    /// sent, without committee information, when this client does not witness, or
    /// without blooms; otherwise its proof and blooms, and the round notes it sent.
    pub open spec fn witness_to_send(self, index: u64) -> (StepRoundView, Option<StepWitness>) {
        if self.sent_witness {
            (self, None)
        } else {
            match self.committee_info {
                None => (self, None),
                Some((_, wp, _)) => if !wp.witness {
                    (self, None)
                } else {
                    match self.blooms {
                        None => (self, None),
                        Some((c, p, o)) => (
                            StepRoundView { sent_witness: true, ..self },
                            Some(StepWitness { index, proof: wp, commit_bloom: c, participant_bloom: p, order_bloom: o }),
                        ),
                    }
                },
            }
        }
    }
}

impl StepRound {
    /// The empty round.
    pub fn new() -> (r: Self)
        ensures
            r@ == StepRoundView::empty(),
            r@.wf(),
    {
        StepRound {
            height: 0,
            sent_witness: false,
            downloads: Vec::new(),
            results: Vec::new(),
            commitments_per_client: Vec::new(),
            data_assignments: Vec::new(),
            blooms: None,
            committee_info: None,
            batch_ids_not_yet_trained_on: None,
            all_batches_finished_deserializing: false,
        }
    }

    /// Takes the witness to send for this round, at most once.
    pub fn get_witness_to_send(&mut self, index: u64) -> (r: Option<StepWitness>)
        ensures
            (final(self)@, r) == old(self)@.witness_to_send(index),
    {
        if self.sent_witness {
            return None;
        }
        let witness_proof = match &self.committee_info {
            Some(info) => info.1,
            None => {
                return None;
            },
        };
        if !witness_proof.witness {
            return None;
        }
        let (commit_bloom, participant_bloom, order_bloom) = match self.blooms {
            Some(b) => b,
            None => {
                return None;
            },
        };
        self.sent_witness = true;
        Some(StepWitness { index, proof: witness_proof, commit_bloom, participant_bloom, order_bloom })
    }
}

/// What peers gossip to a client that overlaps rounds: a training result, or an
/// announcement carrying a blob to fetch.
#[derive(Clone, Copy, Debug)]
pub enum StepBroadcast {
    TrainingResult(StepResult),
    PeerAnnouncement(BlobHash),
}

/// The rounds such a client keeps: the one it trains in and the one before.
pub struct OverlapRounds {
    pub identity: NodeId,
    pub current_round: StepRound,
    pub previous_round: StepRound,
}

/// The rounds as the specifications see them.
pub struct OverlapRoundsView {
    pub identity: NodeId,
    pub current: StepRoundView,
    pub previous: StepRoundView,
}

impl View for OverlapRounds {
    type V = OverlapRoundsView;

    open spec fn view(&self) -> OverlapRoundsView {
        OverlapRoundsView { identity: self.identity, current: self.current_round@, previous: self.previous_round@ }
    }
}

/// Which round a result for `step` goes to: `Some(true)` the current one,
/// `Some(false)` the previous one (only when rounds overlap), `None` neither.
pub open spec fn round_for_step(ctx: OverlapContext, step: u32) -> Option<bool> {
    if step == ctx.step {
        Some(true)
    } else if ctx.overlapped && step == ctx.step - 1 {
        Some(false)
    } else {
        None
    }
}

/// The blob a client fetches for a taken broadcast: none for its own.
pub open spec fn blob_to_fetch(identity: NodeId, from: NodeId, hash: BlobHash) -> Option<BlobHash> {
    if from == identity {
        None
    } else {
        Some(hash)
    }
}

impl OverlapRoundsView {
    /// Both rounds keep their shape.
    pub open spec fn wf(self) -> bool {
        self.current.wf() && self.previous.wf()
    }

    /// The inputs on which handling a broadcast cannot fail: with overlapping rounds
    /// a result from another step needs a step before the current one, and the round
    /// a result goes to must be able to take it.
    pub open spec fn broadcast_fits(
        self,
        ctx: OverlapContext,
        from: NodeId,
        checked: Option<NodeId>,
        message: StepBroadcast,
        clients: Seq<Client>,
    ) -> bool {
        match message {
            StepBroadcast::PeerAnnouncement(_) => true,
            StepBroadcast::TrainingResult(res) => {
                &&& (ctx.overlapped && res.step != ctx.step ==> ctx.step > 0)
                &&& match round_for_step(ctx, res.step) {
                    Some(true) => self.current.take_fits(ctx, from, checked, res, clients),
                    Some(false) => self.previous.take_fits(ctx, from, checked, res, clients),
                    None => true,
                }
            },
        }
    }

    /// Handling a broadcast: an announcement changes nothing and names its blob; a
    /// result for neither round is dropped; otherwise the round it goes to takes it
    /// in or leaves it, the other round stays as it was, and a taken result names its
    /// blob. A client never fetches its own blob.
    pub open spec fn broadcast_handled(
        self,
        ctx: OverlapContext,
        from: NodeId,
        checked: Option<NodeId>,
        message: StepBroadcast,
        clients: Seq<Client>,
        after: OverlapRoundsView,
        r: Option<BlobHash>,
    ) -> bool {
        &&& after.identity == self.identity
        &&& match message {
            StepBroadcast::PeerAnnouncement(hash) => after == self && r == blob_to_fetch(self.identity, from, hash),
            StepBroadcast::TrainingResult(res) => match round_for_step(ctx, res.step) {
                None => after == self && r is None,
                Some(cur) => {
                    let round = if cur { self.current } else { self.previous };
                    let after_round = if cur { after.current } else { after.previous };
                    &&& (if cur { after.previous == self.previous } else { after.current == self.current })
                    &&& if round.takes(ctx, from, checked, res, clients) {
                        round.taken(from, res, after_round) && r == blob_to_fetch(self.identity, from, res.ticket_hash)
                    } else {
                        after_round == round && r is None
                    }
                },
            },
        }
    }

    /// Which round knows the payload `hash`: `Some(true)` the current one (checked
    /// first), `Some(false)` the previous one, `None` neither.
    pub open spec fn payload_round(self, hash: BlobHash) -> Option<bool> {
        if has_key(self.current.downloads, hash) {
            Some(true)
        } else if has_key(self.previous.downloads, hash) {
            Some(false)
        } else {
            None
        }
    }
}

impl OverlapRounds {
    /// Two empty rounds for `identity`.
    pub fn new(identity: NodeId) -> (r: Self)
        ensures
            r@.identity == identity,
            r@.current == StepRoundView::empty(),
            r@.previous == StepRoundView::empty(),
            r@.wf(),
    {
        OverlapRounds { identity, current_round: StepRound::new(), previous_round: StepRound::new() }
    }

    /// Handles a broadcast from `from`; gives the blob to fetch, if any.
    pub fn handle_broadcast_from_identity(
        &mut self,
        ctx: OverlapContext,
        from: &NodeId,
        checked: Option<NodeId>,
        message: StepBroadcast,
        clients: &[Client],
    ) -> (r: Option<BlobHash>)
        requires
            old(self)@.wf(),
            old(self)@.broadcast_fits(ctx, *from, checked, message, clients@),
        ensures
            final(self)@.wf(),
            old(self)@.broadcast_handled(ctx, *from, checked, message, clients@, final(self)@, r),
    {
        let hash = match message {
            StepBroadcast::PeerAnnouncement(hash) => hash,
            StepBroadcast::TrainingResult(res) => {
                let taken = if res.step == ctx.step {
                    self.current_round.take_result(ctx, from, checked, res, clients)
                } else if ctx.overlapped && res.step == ctx.step - 1 {
                    self.previous_round.take_result(ctx, from, checked, res, clients)
                } else {
                    return None;
                };
                if !taken {
                    return None;
                }
                res.ticket_hash
            },
        };
        if ids_equal(from, &self.identity) {
            None
        } else {
            Some(hash)
        }
    }

    /// Stores a downloaded payload in the round that knows it.
    pub fn handle_payload(&mut self, hash: &BlobHash) -> (r: Result<StepPayloadOutcome, StepPayloadError>)
        requires
            old(self)@.wf(),
        ensures
            final(self)@.wf(),
            final(self)@.identity == old(self)@.identity,
            match old(self)@.payload_round(*hash) {
                None => r == Ok::<StepPayloadOutcome, StepPayloadError>(StepPayloadOutcome::UnknownDownload) && final(self)@ == old(self)@,
                Some(true) => {
                    &&& r == old(self)@.current.payload_outcome(*hash)
                    &&& old(self)@.current.payload_applied(*hash, final(self)@.current)
                    &&& final(self)@.previous == old(self)@.previous
                },
                Some(false) => {
                    &&& r == old(self)@.previous.payload_outcome(*hash)
                    &&& old(self)@.previous.payload_applied(*hash, final(self)@.previous)
                    &&& final(self)@.current == old(self)@.current
                },
            },
    {
        if position_of_key(&self.current_round.downloads, hash).is_some() {
            self.current_round.store_payload(hash)
        } else if position_of_key(&self.previous_round.downloads, hash).is_some() {
            self.previous_round.store_payload(hash)
        } else {
            Ok(StepPayloadOutcome::UnknownDownload)
        }
    }
}

/// Whether a round is ready for an early witness: it has committee information and
/// either all its payloads are deserialized or, with overlapping rounds, it is one of
/// the first two rounds of the epoch.
pub open spec fn ready_for_witness(r: StepRoundView, overlapped: bool) -> bool {
    r.committee_info is Some && (r.all_batches_finished_deserializing || (overlapped && r.height <= 1))
}

/// The round a training step starts from: the round's height, its data assignment
/// and awaited batches, this client's proofs under the selection, and the fresh
/// blooms only if this client witnesses; nothing received yet.
pub open spec fn started_round(
    height: u32,
    index: u64,
    cs: CommitteeSelection,
    data_assignments: Seq<(BatchId, NodeId)>,
    batch_ids: Seq<u64>,
    fresh_blooms: (Bloom, Bloom, Bloom),
) -> StepRoundView {
    let wp = crate::client_training::witness_proof_for(cs@, index as nat);
    StepRoundView {
        height,
        data_assignments,
        batch_ids_not_yet_trained_on: Some(batch_ids),
        blooms: if wp.witness { Some(fresh_blooms) } else { None },
        committee_info: Some((crate::client_training::proof_for(cs@, index as nat), wp, cs)),
        ..StepRoundView::empty()
    }
}

/// The round that becomes the previous one when a step starts: the current round,
/// made to send its witness again if it was the warm-up round of an overlapping run.
pub open spec fn retired_round(r: StepRoundView, overlapped: bool) -> StepRoundView {
    if r.height == 0 && overlapped {
        StepRoundView { sent_witness: false, ..r }
    } else {
        r
    }
}

/// Whether a step starts without applying results: the first round of a run, and in
/// an overlapping run the first training round of an epoch.
pub open spec fn skips_apply_spec(first_round: bool, overlapped: bool, height: u32) -> bool {
    first_round || (overlapped && height == 1)
}

/// Whether a step starts without applying results.
pub fn skips_apply(first_round: bool, overlapped: bool, height: u32) -> (r: bool)
    ensures
        r == skips_apply_spec(first_round, overlapped, height),
{
    first_round || (overlapped && height == 1)
}

impl OverlapRounds {
    /// The witness to send at the witness phase: from the previous round when
    /// rounds overlap, else from the current one.
    pub fn round_witness(&mut self, overlapped: bool, index: u64) -> (r: Option<StepWitness>)
        requires
            old(self)@.wf(),
        ensures
            final(self)@.wf(),
            final(self)@.identity == old(self)@.identity,
            if overlapped {
                &&& (final(self)@.previous, r) == old(self)@.previous.witness_to_send(index)
                &&& final(self)@.current == old(self)@.current
            } else {
                &&& (final(self)@.current, r) == old(self)@.current.witness_to_send(index)
                &&& final(self)@.previous == old(self)@.previous
            },
    {
        if overlapped {
            self.previous_round.get_witness_to_send(index)
        } else {
            self.current_round.get_witness_to_send(index)
        }
    }

    /// The witness to send before the witness phase, once this client's training for
    /// the step is done and the round it witnesses is ready: the previous round when
    /// rounds overlap past the first round, else the current one.
    pub fn opportunistic_witness(
        &mut self,
        is_train: bool,
        training_finished: bool,
        overlapped: bool,
        first_round: bool,
    ) -> (r: Option<StepWitness>)
        requires
            old(self)@.wf(),
        ensures
            final(self)@.wf(),
            final(self)@.identity == old(self)@.identity,
            ({
                let prev = overlapped && !first_round;
                let round = if prev { old(self)@.previous } else { old(self)@.current };
                let after = if prev { final(self)@.previous } else { final(self)@.current };
                &&& (if prev { final(self)@.current == old(self)@.current } else { final(self)@.previous == old(self)@.previous })
                &&& if is_train && training_finished && ready_for_witness(round, overlapped) {
                    (after, r) == round.witness_to_send(round.committee_info.unwrap().1.index)
                } else {
                    after == round && r is None
                }
            }),
    {
        let round = if overlapped && !first_round {
            &mut self.previous_round
        } else {
            &mut self.current_round
        };
        if !(is_train && training_finished) {
            return None;
        }
        let index = match &round.committee_info {
            Some(info) => info.1.index,
            None => {
                return None;
            },
        };
        if round.all_batches_finished_deserializing || (overlapped && round.height <= 1) {
            round.get_witness_to_send(index)
        } else {
            None
        }
    }

    /// Starts a training step: the current round becomes the previous one and a new
    /// round begins with the given assignment, awaited batches and selection.
    pub fn begin_round(
        &mut self,
        overlapped: bool,
        height: u32,
        index: u64,
        selection: CommitteeSelection,
        data_assignments: Vec<(BatchId, NodeId)>,
        batch_ids: Vec<u64>,
        fresh_blooms: (Bloom, Bloom, Bloom),
    )
        requires
            old(self)@.wf(),
            selection@.wf(),
            index < selection.total_nodes,
            ids_unique(batch_ids@),
            fresh_blooms.0.wf() && fresh_blooms.1.wf() && fresh_blooms.2.wf(),
        ensures
            final(self)@.wf(),
            final(self)@.identity == old(self)@.identity,
            final(self)@.previous == retired_round(old(self)@.current, overlapped),
            final(self)@.current == started_round(height, index, selection, data_assignments@, batch_ids@, fresh_blooms),
    {
        let committee_proof = selection.get_committee(index);
        let witness_proof = selection.get_witness(index);
        let mut retired = StepRound::new();
        std::mem::swap(&mut retired, &mut self.current_round);
        if retired.height == 0 && overlapped {
            retired.sent_witness = false;
        }
        self.previous_round = retired;
        self.current_round.height = height;
        self.current_round.data_assignments = data_assignments;
        self.current_round.batch_ids_not_yet_trained_on = Some(batch_ids);
        self.current_round.blooms = if witness_proof.witness {
            Some(fresh_blooms)
        } else {
            None
        };
        self.current_round.committee_info = Some((committee_proof, witness_proof, selection));
        proof {
            assert(self.current_round@ =~= started_round(height, index, selection, data_assignments@, batch_ids@, fresh_blooms));
        }
    }

    /// Hands the payloads and results of the round to apply over for applying: the
    /// previous round's when rounds overlap, else the current one's; that round
    /// keeps none.
    pub fn take_apply_inputs(&mut self, overlapped: bool) -> (r: (Vec<(BlobHash, StepPayload)>, Vec<(NodeId, StepResult)>))
        requires
            old(self)@.wf(),
        ensures
            final(self)@.wf(),
            final(self)@.identity == old(self)@.identity,
            ({
                let round = if overlapped { old(self)@.previous } else { old(self)@.current };
                let after = if overlapped { final(self)@.previous } else { final(self)@.current };
                &&& r.0@ == round.downloads
                &&& r.1@ == round.results
                &&& after == StepRoundView { downloads: Seq::empty(), results: Seq::empty(), ..round }
                &&& (if overlapped { final(self)@.current == old(self)@.current } else { final(self)@.previous == old(self)@.previous })
            }),
    {
        let round = if overlapped {
            &mut self.previous_round
        } else {
            &mut self.current_round
        };
        let mut downloads = Vec::new();
        let mut results = Vec::new();
        std::mem::swap(&mut downloads, &mut round.downloads);
        std::mem::swap(&mut results, &mut round.results);
        (downloads, results)
    }
}

/// A round sends its witness at most once: once it handed one out, asking again
/// gives none.
pub proof fn lemma_step_witness_sent_once(r: StepRoundView, index: u64, again: u64)
    requires
        r.witness_to_send(index).1 is Some,
    ensures
        r.witness_to_send(index).0.sent_witness,
        r.witness_to_send(index).0.witness_to_send(again).1 is None,
{
}

/// With greedy data no client ever gets more results taken in a round than the cap:
/// a taken result leaves its sender at most at the cap.
pub proof fn lemma_greedy_cap_respected(
    r: StepRoundView,
    ctx: OverlapContext,
    from: NodeId,
    checked: Option<NodeId>,
    result: StepResult,
    clients: Seq<Client>,
    after: StepRoundView,
)
    requires
        r.wf(),
        ctx.greedy_data,
        r.takes(ctx, from, checked, result, clients),
        r.taken(from, result, after),
    ensures
        step_commitments_of(after, from) <= ctx.max_batches_per_client,
        step_commitments_of(after, from) == step_commitments_of(r, from) + 1,
{
    let s = r.commitments_per_client;
    let v = (step_commitments_of(r, from) + 1) as u32;
    let t = set_value(s, from, v);
    if has_key(s, from) {
        let k = key_index(s, from);
        assert(s[k].0 == from);
        assert(t[k] == (from, v));
        crate::client_round::lemma_set_value_unique(s, from, v);
        crate::client_round::lemma_key_index_pub(t, from, k);
    } else {
        let k = s.len() as int;
        assert(t[k] == (from, v));
        crate::client_round::lemma_set_value_unique(s, from, v);
        crate::client_round::lemma_key_index_pub(t, from, k);
    }
}

/// A payload is stored at most once: after it was stored, storing it again finds
/// it already deserializing and changes nothing.
pub proof fn lemma_step_payload_stored_once(r: StepRoundView, hash: BlobHash, after: StepRoundView)
    requires
        r.wf(),
        has_key(r.downloads, hash),
        r.payload_outcome(hash) matches Ok(StepPayloadOutcome::Stored(_, _)),
        r.payload_applied(hash, after),
    ensures
        has_key(after.downloads, hash),
        after.payload_outcome(hash) == Ok::<StepPayloadOutcome, StepPayloadError>(StepPayloadOutcome::AlreadyDeserializing),
        after.payload_applied(hash, after),
{
    let i = key_index(r.downloads, hash);
    let d = after.downloads;
    assert(r.downloads[i].0 == hash);
    assert(d[i] == (hash, StepPayload::Deserializing));
    assert forall|x: int, y: int| 0 <= x < d.len() && 0 <= y < d.len() && (#[trigger] d[x]).0 == (#[trigger] d[y]).0 implies x == y by {
        assert(r.downloads[x].0 == r.downloads[y].0);
    }
    crate::client_round::lemma_key_index_pub(d, hash, i);
}

/// How often a client that overlaps rounds retries a failed download.
pub const STEP_DOWNLOAD_RETRIES: usize = 3;

/// How often each failed download was retried; each blob is listed at most once.
pub struct StepRetries {
    pub counts: Vec<(BlobHash, usize)>,
}

/// How often the blob `hash` was retried so far.
pub open spec fn retry_count(s: Seq<(BlobHash, usize)>, hash: BlobHash) -> usize {
    if has_key(s, hash) {
        value_of(s, hash)
    } else {
        0
    }
}

/// The counts without the one for `hash`.
pub open spec fn without_count(s: Seq<(BlobHash, usize)>, hash: BlobHash) -> Seq<(BlobHash, usize)> {
    if has_key(s, hash) {
        s.remove(key_index(s, hash))
    } else {
        s
    }
}

impl OverlapRoundsView {
    /// The blob to fetch again for the payload `hash`, if a round is still
    /// downloading it (the current round is asked first).
    pub open spec fn downloading_blob(self, hash: BlobHash) -> Option<BlobHash> {
        if has_key(self.current.downloads, hash) && value_of(self.current.downloads, hash) is Downloading {
            Some(value_of(self.current.downloads, hash)->Downloading_2)
        } else if has_key(self.previous.downloads, hash) && value_of(self.previous.downloads, hash) is Downloading {
            Some(value_of(self.previous.downloads, hash)->Downloading_2)
        } else {
            None
        }
    }
}

/// The blob a round is downloading under `hash`, if any.
fn downloading_in(downloads: &Vec<(BlobHash, StepPayload)>, hash: &BlobHash) -> (r: Option<BlobHash>)
    requires
        keys_unique(downloads@),
    ensures
        r == (if has_key(downloads@, *hash) && value_of(downloads@, *hash) is Downloading {
            Some(value_of(downloads@, *hash)->Downloading_2)
        } else {
            None::<BlobHash>
        }),
{
    match position_of_key(downloads, hash) {
        Some(i) => {
            proof {
                crate::client_round::lemma_key_index_pub(downloads@, *hash, i as int);
            }
            match downloads[i].1 {
                StepPayload::Downloading(_, _, blob) => Some(blob),
                StepPayload::Deserializing => None,
            }
        },
        None => None,
    }
}

impl StepRetries {
    /// No failed downloads.
    pub fn new() -> (r: Self)
        ensures
            r.counts@.len() == 0,
            r.wf(),
    {
        StepRetries { counts: Vec::new() }
    }

    /// Each blob is listed at most once, and none was retried more often than
    /// allowed.
    pub open spec fn wf(&self) -> bool {
        &&& keys_unique(self.counts@)
        &&& forall|i: int| 0 <= i < self.counts@.len() ==> (#[trigger] self.counts@[i]).1 <= STEP_DOWNLOAD_RETRIES
    }

    /// A download finished: its retry count, if any, is forgotten.
    pub fn download_completed(&mut self, hash: &BlobHash)
        requires
            old(self).wf(),
        ensures
            final(self).wf(),
            final(self).counts@ == without_count(old(self).counts@, *hash),
    {
        match position_of_key(&self.counts, hash) {
            Some(i) => {
                proof {
                    crate::client_round::lemma_key_index_pub(self.counts@, *hash, i as int);
                }
                let ghost before = self.counts@;
                self.counts.remove(i);
                proof {
                    let d = self.counts@;
                    assert forall|x: int, y: int| 0 <= x < d.len() && 0 <= y < d.len() && (#[trigger] d[x]).0 == (#[trigger] d[y]).0 implies x == y by {
                        let xx = if x < i { x } else { x + 1 };
                        let yy = if y < i { y } else { y + 1 };
                        assert(before[xx].0 == before[yy].0);
                    }
                    assert forall|k: int| 0 <= k < d.len() implies (#[trigger] d[k]).1 <= STEP_DOWNLOAD_RETRIES by {
                        let kk = if k < i { k } else { k + 1 };
                        assert(before[kk].1 <= STEP_DOWNLOAD_RETRIES);
                    }
                }
            },
            None => {},
        }
    }
}

impl OverlapRounds {
    /// A download failed: after the allowed retries it is given up; otherwise, if a
    /// round is still downloading it, its blob is fetched again and its retry count
    /// goes up by one.
    pub fn retry_failed_download(&self, retries: &mut StepRetries, hash: &BlobHash) -> (r: Option<BlobHash>)
        requires
            self@.wf(),
            old(retries).wf(),
        ensures
            final(retries).wf(),
            r == (if retry_count(old(retries).counts@, *hash) >= STEP_DOWNLOAD_RETRIES {
                None::<BlobHash>
            } else {
                self@.downloading_blob(*hash)
            }),
            final(retries).counts@ == (if r is Some {
                set_value(old(retries).counts@, *hash, (retry_count(old(retries).counts@, *hash) + 1) as usize)
            } else {
                old(retries).counts@
            }),
    {
        let pos = position_of_key(&retries.counts, hash);
        let count = match pos {
            Some(i) => {
                proof {
                    crate::client_round::lemma_key_index_pub(retries.counts@, *hash, i as int);
                }
                retries.counts[i].1
            },
            None => 0,
        };
        if count >= STEP_DOWNLOAD_RETRIES {
            return None;
        }
        let blob = match downloading_in(&self.current_round.downloads, hash) {
            Some(b) => b,
            None => match downloading_in(&self.previous_round.downloads, hash) {
                Some(b) => b,
                None => {
                    return None;
                },
            },
        };
        proof {
            crate::client_round::lemma_set_value_unique(retries.counts@, *hash, (count + 1) as usize);
        }
        let ghost before = retries.counts@;
        match pos {
            Some(i) => {
                retries.counts.set(i, (*hash, count + 1));
            },
            None => {
                retries.counts.push((*hash, count + 1));
            },
        }
        proof {
            let d = retries.counts@;
            assert forall|k: int| 0 <= k < d.len() implies (#[trigger] d[k]).1 <= STEP_DOWNLOAD_RETRIES by {
                if k < before.len() && d[k] == before[k] {
                    assert(before[k].1 <= STEP_DOWNLOAD_RETRIES);
                }
            }
        }
        Some(blob)
    }
}

} // verus!
