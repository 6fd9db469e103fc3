use vstd::prelude::*;
use crate::bloom::Bloom;
use crate::committee_selection::{ids_equal, Committee, CommitteeProof, CommitteeSelection, NodeId, WitnessProof};
use crate::coordinator::{Client, Commitment, Witness};
use crate::data_selection::BatchId;
use crate::hashing::{sha256, sha256_spec};

verus! {

/// The hash that names a payload blob.
pub type BlobHash = [u8; 32];

/// A trainer's gossiped result for a batch; its payload is the blob named by
/// `ticket_hash`.
#[derive(Clone, Copy, Debug)]
pub struct TrainingResult {
    pub step: u32,
    pub batch_id: BatchId,
    pub commitment: Commitment,
    pub ticket_hash: BlobHash,
    pub proof: CommitteeProof,
    pub nonce: u32,
}

/// Where a payload stands: being downloaded (from whom, for which batch, under
/// which blob), or handed over for deserializing (and whether that finished).
#[derive(Clone, Copy, Debug)]
pub enum PayloadState {
    Downloading(NodeId, BatchId, BlobHash),
    Deserializing(bool),
}

/// What a client tracks of one training round: the payloads it fetches, the results
/// it accepted (in arrival order), how many each client committed, who trains
/// which batch, its witness blooms, its committee proofs and selection, and the
/// batches whose payloads it still waits for (with their count).
pub struct RoundState {
    pub height: u32,
    pub sent_witness: bool,
    pub downloads: Vec<(BlobHash, PayloadState)>,
    pub results: Vec<(NodeId, TrainingResult)>,
    pub commitments_per_client: Vec<(NodeId, u32)>,
    pub data_assignments: Vec<(BatchId, NodeId)>,
    pub blooms: Option<(Bloom, Bloom)>,
    pub committee_info: Option<(CommitteeProof, WitnessProof, CommitteeSelection)>,
    pub batch_ids_not_yet_trained_on: Option<(usize, Vec<BatchId>)>,
}

/// The round state as the specifications see it.
#[verifier::ext_equal]
pub struct RoundStateView {
    pub height: u32,
    pub sent_witness: bool,
    pub downloads: Seq<(BlobHash, PayloadState)>,
    pub results: Seq<(NodeId, TrainingResult)>,
    pub commitments_per_client: Seq<(NodeId, u32)>,
    pub data_assignments: Seq<(BatchId, NodeId)>,
    pub blooms: Option<(Bloom, Bloom)>,
    pub committee_info: Option<(CommitteeProof, WitnessProof, CommitteeSelection)>,
    pub batch_ids_not_yet_trained_on: Option<(usize, Seq<BatchId>)>,
}

impl View for RoundState {
    type V = RoundStateView;

    open spec fn view(&self) -> RoundStateView {
        RoundStateView {
            height: self.height,
            sent_witness: self.sent_witness,
            downloads: self.downloads@,
            results: self.results@,
            commitments_per_client: self.commitments_per_client@,
            data_assignments: self.data_assignments@,
            blooms: self.blooms,
            committee_info: self.committee_info,
            batch_ids_not_yet_trained_on: match self.batch_ids_not_yet_trained_on {
                Some((n, ids)) => Some((n, ids@)),
                None => None,
            },
        }
    }
}

/// Some entry has key `k`.
pub open spec fn has_key<K, V>(s: Seq<(K, V)>, k: K) -> bool {
    exists|i: int| 0 <= i < s.len() && (#[trigger] s[i]).0 == k
}

/// The position of an entry with key `k`.
pub open spec fn key_index<K, V>(s: Seq<(K, V)>, k: K) -> int {
    choose|i: int| 0 <= i < s.len() && (#[trigger] s[i]).0 == k
}

/// The value stored under key `k`.
pub open spec fn value_of<K, V>(s: Seq<(K, V)>, k: K) -> V {
    s[key_index(s, k)].1
}

/// No key occurs twice.
pub open spec fn keys_unique<K, V>(s: Seq<(K, V)>) -> bool {
    forall|i: int, j: int|
        0 <= i < s.len() && 0 <= j < s.len() && (#[trigger] s[i]).0 == (#[trigger] s[j]).0 ==> i == j
}

/// `s` with `k` mapped to `v`: replaced in place where present, appended otherwise.
pub open spec fn set_value<K, V>(s: Seq<(K, V)>, k: K, v: V) -> Seq<(K, V)> {
    if has_key(s, k) {
        s.update(key_index(s, k), (k, v))
    } else {
        s.push((k, v))
    }
}

/// No batch occurs twice.
pub open spec fn batches_unique(s: Seq<BatchId>) -> bool {
    forall|i: int, j: int| 0 <= i < s.len() && 0 <= j < s.len() && s[i] == s[j] ==> i == j
}

/// `s` without batch `b` (it occurs at most once).
pub open spec fn without_batch(s: Seq<BatchId>, b: BatchId) -> Seq<BatchId> {
    if s.contains(b) {
        s.remove(s.index_of(b))
    } else {
        s
    }
}

proof fn lemma_key_index<K, V>(s: Seq<(K, V)>, k: K, i: int)
    requires
        keys_unique(s),
        0 <= i < s.len(),
        s[i].0 == k,
    ensures
        has_key(s, k),
        key_index(s, k) == i,
{
    assert(s[i].0 == k);
    let j = key_index(s, k);
    assert(s[j].0 == s[i].0);
}

/// With unique keys, the entry at `i` is the one its key finds.
pub proof fn lemma_key_index_pub<K, V>(s: Seq<(K, V)>, k: K, i: int)
    requires
        keys_unique(s),
        0 <= i < s.len(),
        s[i].0 == k,
    ensures
        has_key(s, k),
        key_index(s, k) == i,
{
    lemma_key_index(s, k, i);
}

pub(crate) proof fn lemma_set_value_unique<K, V>(s: Seq<(K, V)>, k: K, v: V)
    requires
        keys_unique(s),
    ensures
        keys_unique(set_value(s, k, v)),
{
    let t = set_value(s, k, v);
    if has_key(s, k) {
        let ki = key_index(s, k);
        assert forall|i: int, j: int| 0 <= i < t.len() && 0 <= j < t.len() && (#[trigger] t[i]).0 == (#[trigger] t[j]).0 implies i == j by {
            if i != ki && j != ki {
                assert(s[i].0 == s[j].0);
            } else if i == ki && j != ki {
                assert(s[j].0 == s[ki].0);
            } else if j == ki && i != ki {
                assert(s[i].0 == s[ki].0);
            }
        }
    } else {
        assert forall|i: int, j: int| 0 <= i < t.len() && 0 <= j < t.len() && (#[trigger] t[i]).0 == (#[trigger] t[j]).0 implies i == j by {
            if i < s.len() && j < s.len() {
                assert(s[i].0 == s[j].0);
            } else if i < s.len() {
                assert(s[i].0 == k);
            } else if j < s.len() {
                assert(s[j].0 == k);
            }
        }
    }
}

/// The position of the entry keyed by batch `k`.
fn position_of_batch<V>(s: &Vec<(BatchId, V)>, k: BatchId) -> (r: Option<usize>)
    ensures
        match r {
            Some(i) => i < s@.len() && s@[i as int].0 == k,
            None => !has_key(s@, k),
        },
{
    let mut i: usize = 0;
    while i < s.len()
        invariant
            i <= s@.len(),
            forall|j: int| 0 <= j < i ==> (#[trigger] s@[j]).0 != k,
        decreases s@.len() - i,
    {
        if s[i].0 == k {
            return Some(i);
        }
        i += 1;
    }
    None
}

/// The position of the entry keyed by the 32 bytes `k`.
pub(crate) fn position_of_key<V>(s: &Vec<([u8; 32], V)>, k: &[u8; 32]) -> (r: Option<usize>)
    ensures
        match r {
            Some(i) => i < s@.len() && s@[i as int].0 == *k,
            None => !has_key(s@, *k),
        },
{
    let mut i: usize = 0;
    while i < s.len()
        invariant
            i <= s@.len(),
            forall|j: int| 0 <= j < i ==> (#[trigger] s@[j]).0 != *k,
        decreases s@.len() - i,
    {
        if ids_equal(&s[i].0, k) {
            return Some(i);
        }
        i += 1;
    }
    None
}

impl RoundStateView {
    /// The shape every round state keeps: keyed entries are unique, blooms and the
    /// selection are well formed, and no batch is awaited twice.
    pub open spec fn wf(self) -> bool {
        &&& keys_unique(self.downloads)
        &&& keys_unique(self.commitments_per_client)
        &&& keys_unique(self.data_assignments)
        &&& (self.blooms matches Some((p, o)) ==> p.wf() && o.wf())
        &&& (self.committee_info matches Some((_, _, cs)) ==> cs@.wf())
        &&& (self.batch_ids_not_yet_trained_on matches Some((_, ids)) ==> batches_unique(ids))
    }

    /// The empty round state.
    pub open spec fn empty() -> RoundStateView {
        RoundStateView {
            height: 0,
            sent_witness: false,
            downloads: Seq::empty(),
            results: Seq::empty(),
            commitments_per_client: Seq::empty(),
            data_assignments: Seq::empty(),
            blooms: None,
            committee_info: None,
            batch_ids_not_yet_trained_on: None,
        }
    }

    /// The witness a round sends, if it has one to send: none once sent, without
    /// committee information, when this client does not witness, or without
    /// blooms; otherwise its witness proof and blooms, and the round notes it sent.
    pub open spec fn witness_to_send(self) -> (RoundStateView, Option<Witness>) {
        if self.sent_witness {
            (self, None)
        } else {
            match self.committee_info {
                None => (self, None),
                Some((_, wp, _)) => if !wp.witness {
                    (self, None)
                } else {
                    match self.blooms {
                        None => (self, None),
                        Some((p, o)) => (
                            RoundStateView { sent_witness: true, ..self },
                            Some(Witness { proof: wp, participant_bloom: p, order_bloom: o }),
                        ),
                    }
                },
            }
        }
    }
}

impl RoundState {
    /// The empty round state.
    pub fn new() -> (r: Self)
        ensures
            r@ == RoundStateView::empty(),
            r@.wf(),
    {
        RoundState {
            height: 0,
            sent_witness: false,
            downloads: Vec::new(),
            results: Vec::new(),
            commitments_per_client: Vec::new(),
            data_assignments: Vec::new(),
            blooms: None,
            committee_info: None,
            batch_ids_not_yet_trained_on: None,
        }
    }

    /// Takes the witness to send for this round, at most once.
    pub fn get_witness_to_send(&mut self) -> (r: Option<Witness>)
        ensures
            (final(self)@, r) == old(self)@.witness_to_send(),
    {
        if self.sent_witness {
            return None;
        }
        let witness_proof = match &self.committee_info {
            Some(info) => info.1,
            None => {
                return None;
            },
        };
        if !witness_proof.witness {
            return None;
        }
        let (participant_bloom, order_bloom) = match self.blooms {
            Some(b) => b,
            None => {
                return None;
            },
        };
        self.sent_witness = true;
        Some(Witness { proof: witness_proof, participant_bloom, order_bloom })
    }
}

/// What became of a gossiped training result.
#[derive(Clone, Copy, Debug, PartialEq, Eq, Structural)]
pub enum MessageOutcome {
    /// Its batch is assigned in neither the current nor the previous round.
    UnknownBatch,
    /// It came from another client whose committee proof does not check out (or the
    /// round has no committee information).
    CommitteeRejected,
    /// Its payload is already known.
    AlreadyDownloading,
    /// The sender is not the batch's assignee.
    NotAssignee,
    /// Recorded; the flag says whether the payload is to be downloaded (it is not
    /// for this client's own results).
    Accepted(bool),
}

/// The sender is this client, or another client whose committee proof checks out
/// under the round's selection.
pub open spec fn committee_check_passes(
    r: RoundStateView,
    identity: NodeId,
    from: NodeId,
    result: TrainingResult,
    clients: Seq<Client>,
) -> bool {
    from == identity || match r.committee_info {
        Some((_, _, cs)) => CommitteeSelection::spec_verify_client(&from, result.proof.index, clients)
            && cs@.spec_verify_committee(result.proof),
        None => false,
    }
}

/// How many results the round accepted from `from`.
pub open spec fn commitments_of(r: RoundStateView, from: NodeId) -> u32 {
    if has_key(r.commitments_per_client, from) {
        value_of(r.commitments_per_client, from)
    } else {
        0
    }
}

impl RoundStateView {
    /// A result for a batch of this round: refused when the committee check fails,
    /// when its payload is already known, or when the sender is not the batch's
    /// assignee. Otherwise the sender's count grows by one, the result is recorded
    /// and its payload is marked as downloading.
    pub open spec fn accept(
        self,
        identity: NodeId,
        from: NodeId,
        result: TrainingResult,
        clients: Seq<Client>,
    ) -> (RoundStateView, MessageOutcome) {
        if !committee_check_passes(self, identity, from, result, clients) {
            (self, MessageOutcome::CommitteeRejected)
        } else if has_key(self.downloads, result.ticket_hash) {
            (self, MessageOutcome::AlreadyDownloading)
        } else if !(has_key(self.data_assignments, result.batch_id) && value_of(self.data_assignments, result.batch_id) == from) {
            (self, MessageOutcome::NotAssignee)
        } else {
            (
                RoundStateView {
                    commitments_per_client: set_value(
                        self.commitments_per_client,
                        from,
                        (commitments_of(self, from) + 1) as u32,
                    ),
                    results: self.results.push((from, result)),
                    downloads: self.downloads.push(
                        (result.ticket_hash, PayloadState::Downloading(from, result.batch_id, result.ticket_hash)),
                    ),
                    ..self
                },
                MessageOutcome::Accepted(from != identity),
            )
        }
    }

    /// The inputs on which accepting a result cannot fail: the selection covers the
    /// proof's index, a result that passes the committee check comes from a trainer,
    /// and the sender's count has room to grow.
    pub open spec fn accept_fits(
        self,
        identity: NodeId,
        from: NodeId,
        result: TrainingResult,
        clients: Seq<Client>,
    ) -> bool {
        &&& from != identity ==> match self.committee_info {
            Some((_, _, cs)) => result.proof.index < clients.len() ==> result.proof.index < cs.total_nodes,
            None => true,
        }
        &&& committee_check_passes(self, identity, from, result, clients) ==> result.proof.committee == Committee::Trainer
        &&& commitments_of(self, from) < u32::MAX
    }
}

impl RoundState {
    /// Records a gossiped result for a batch of this round.
    pub fn accept_result(
        &mut self,
        identity: &NodeId,
        from: &NodeId,
        result: TrainingResult,
        clients: &[Client],
    ) -> (r: MessageOutcome)
        requires
            old(self)@.wf(),
            old(self)@.accept_fits(*identity, *from, result, clients@),
        ensures
            (final(self)@, r) == old(self)@.accept(*identity, *from, result, clients@),
            final(self)@.wf(),
    {
        let check_committee = !ids_equal(from, identity);
        if check_committee {
            let accepted = match &self.committee_info {
                Some(info) => info.2.verify_committee_for_client(from, &result.proof, clients),
                None => false,
            };
            if !accepted {
                return MessageOutcome::CommitteeRejected;
            }
        }
        if position_of_key(&self.downloads, &result.ticket_hash).is_some() {
            return MessageOutcome::AlreadyDownloading;
        }
        let correct_assignee = match position_of_batch(&self.data_assignments, result.batch_id) {
            Some(i) => {
                proof {
                    lemma_key_index(self.data_assignments@, result.batch_id, i as int);
                }
                ids_equal(&self.data_assignments[i].1, from)
            },
            None => false,
        };
        if !correct_assignee {
            return MessageOutcome::NotAssignee;
        }
        let ghost before = self@;
        proof {
            lemma_set_value_unique(before.commitments_per_client, *from, (commitments_of(before, *from) + 1) as u32);
        }
        match position_of_key(&self.commitments_per_client, from) {
            Some(i) => {
                proof {
                    lemma_key_index(self.commitments_per_client@, *from, i as int);
                }
                let count = self.commitments_per_client[i].1;
                self.commitments_per_client.set(i, (*from, count + 1));
            },
            None => {
                self.commitments_per_client.push((*from, 1));
            },
        }
        self.results.push((*from, result));
        self.downloads.push(
            (result.ticket_hash, PayloadState::Downloading(*from, result.batch_id, result.ticket_hash)),
        );
        proof {
            let d = self.downloads@;
            assert forall|i: int, j: int| 0 <= i < d.len() && 0 <= j < d.len() && (#[trigger] d[i]).0 == (#[trigger] d[j]).0 implies i == j by {
                if i < before.downloads.len() && j < before.downloads.len() {
                    assert(before.downloads[i].0 == before.downloads[j].0);
                } else if i < before.downloads.len() {
                    assert(before.downloads[i].0 == result.ticket_hash);
                } else if j < before.downloads.len() {
                    assert(before.downloads[j].0 == result.ticket_hash);
                }
            }
            assert(self@ =~= before.accept(*identity, *from, result, clients@).0);
        }
        MessageOutcome::Accepted(check_committee)
    }
}

/// What became of a downloaded payload.
#[derive(Clone, Copy, Debug, PartialEq, Eq, Structural)]
pub enum DistroOutcome {
    /// No round knows its blob.
    UnknownDownload,
    /// It is already being deserialized.
    AlreadyDeserializing,
    /// No recorded result of its sender names its blob for its batch.
    NoCommitment,
    /// Stored for deserializing; the batch it belongs to, and whether it was the
    /// last payload the round waited for.
    Stored(BatchId, bool),
}

/// The recorded result is `from`'s result for `batch` whose payload is `hash`.
pub open spec fn result_matches(e: (NodeId, TrainingResult), from: NodeId, batch: BatchId, hash: BlobHash) -> bool {
    e.0 == from && e.1.batch_id == batch && e.1.ticket_hash == hash
}

/// Position `i` holds the first matching result.
pub open spec fn is_first_result(s: Seq<(NodeId, TrainingResult)>, from: NodeId, batch: BatchId, hash: BlobHash, i: int) -> bool {
    &&& 0 <= i < s.len()
    &&& result_matches(s[i], from, batch, hash)
    &&& forall|j: int| 0 <= j < i ==> !result_matches(#[trigger] s[j], from, batch, hash)
}

/// Some recorded result matches.
pub open spec fn has_result(s: Seq<(NodeId, TrainingResult)>, from: NodeId, batch: BatchId, hash: BlobHash) -> bool {
    exists|i: int| 0 <= i < s.len() && result_matches(#[trigger] s[i], from, batch, hash)
}

/// The position of the first matching result.
pub open spec fn first_result(s: Seq<(NodeId, TrainingResult)>, from: NodeId, batch: BatchId, hash: BlobHash) -> int {
    choose|i: int| is_first_result(s, from, batch, hash, i)
}

proof fn lemma_first_result(s: Seq<(NodeId, TrainingResult)>, from: NodeId, batch: BatchId, hash: BlobHash, i: int)
    requires
        is_first_result(s, from, batch, hash, i),
    ensures
        first_result(s, from, batch, hash) == i,
        has_result(s, from, batch, hash),
{
    let j = first_result(s, from, batch, hash);
    assert(is_first_result(s, from, batch, hash, j));
    if j < i {
        assert(!result_matches(s[j], from, batch, hash));
    } else if i < j {
        assert(!result_matches(s[i], from, batch, hash));
    }
    assert(result_matches(s[i], from, batch, hash));
}

impl RoundStateView {
    /// The batches still awaited once `batch`'s payload arrives, if the round
    /// still awaits any.
    pub open spec fn remaining_after(self, batch: BatchId) -> Option<Seq<BatchId>> {
        match self.batch_ids_not_yet_trained_on {
            Some((_, ids)) => Some(without_batch(ids, batch)),
            None => None,
        }
    }

    /// What storing the payload `hash` (one of this round's downloads) comes to: an
    /// already deserializing payload and one without a matching recorded result are
    /// left alone; otherwise it is stored, reporting whether no batch is left to
    /// wait for.
    pub open spec fn distro_outcome(self, hash: BlobHash) -> DistroOutcome {
        match value_of(self.downloads, hash) {
            PayloadState::Deserializing(_) => DistroOutcome::AlreadyDeserializing,
            PayloadState::Downloading(from, batch, _) => if !has_result(self.results, from, batch, hash) {
                DistroOutcome::NoCommitment
            } else {
                DistroOutcome::Stored(
                    batch,
                    match self.remaining_after(batch) {
                        Some(rest) => rest.len() == 0,
                        None => false,
                    },
                )
            },
        }
    }

    /// The round after storing the payload `hash`. While the round still waits for
    /// batches, the sender joins the participant bloom (if the round has blooms), the
    /// consensus vote goes to the order bloom if the batch was awaited, the batch is
    /// no longer awaited, and once none is left the round stops waiting. The payload
    /// is then deserializing.
    pub open spec fn distro_applied(self, hash: BlobHash, after: RoundStateView) -> bool {
        match self.distro_outcome(hash) {
            DistroOutcome::Stored(batch, _) => {
                let from = value_of(self.downloads, hash)->Downloading_0;
                let commitment = self.results[first_result(self.results, from, batch, hash)].1.commitment;
                &&& after.height == self.height
                &&& after.sent_witness == self.sent_witness
                &&& after.results == self.results
                &&& after.commitments_per_client == self.commitments_per_client
                &&& after.data_assignments == self.data_assignments
                &&& after.committee_info == self.committee_info
                &&& after.downloads == self.downloads.update(
                    key_index(self.downloads, hash),
                    (hash, PayloadState::Deserializing(false)),
                )
                &&& match self.batch_ids_not_yet_trained_on {
                    None => after.batch_ids_not_yet_trained_on is None && after.blooms == self.blooms,
                    Some((_, ids)) => {
                        let rest = without_batch(ids, batch);
                        &&& after.batch_ids_not_yet_trained_on == (if rest.len() == 0 {
                            None
                        } else {
                            Some((rest.len() as usize, rest))
                        })
                        &&& match self.blooms {
                            None => after.blooms is None,
                            Some((p, o)) => match after.blooms {
                                None => false,
                                Some((p2, o2)) => {
                                    &&& p.adds(sha256_spec(from@), p2)
                                    &&& if ids.contains(batch) {
                                        o.adds(sha256_spec(commitment@), o2)
                                    } else {
                                        o2 == o
                                    }
                                },
                            },
                        }
                    },
                }
            },
            _ => after == self,
        }
    }
}

/// The position of the first result of `from` for `batch` with payload `hash`.
fn position_of_result(s: &Vec<(NodeId, TrainingResult)>, from: &NodeId, batch: BatchId, hash: &BlobHash) -> (r: Option<usize>)
    ensures
        match r {
            Some(i) => is_first_result(s@, *from, batch, *hash, i as int),
            None => !has_result(s@, *from, batch, *hash),
        },
{
    let mut i: usize = 0;
    while i < s.len()
        invariant
            i <= s@.len(),
            forall|j: int| 0 <= j < i ==> !result_matches(#[trigger] s@[j], *from, batch, *hash),
        decreases s@.len() - i,
    {
        if ids_equal(&s[i].0, from) && s[i].1.batch_id == batch && ids_equal(&s[i].1.ticket_hash, hash) {
            return Some(i);
        }
        i += 1;
    }
    None
}

/// The position of `b` in the awaited batches.
fn position_of_awaited(s: &Vec<BatchId>, b: BatchId) -> (r: Option<usize>)
    ensures
        match r {
            Some(i) => i < s@.len() && s@[i as int] == b,
            None => !s@.contains(b),
        },
{
    let mut i: usize = 0;
    while i < s.len()
        invariant
            i <= s@.len(),
            forall|j: int| 0 <= j < i ==> s@[j] != b,
        decreases s@.len() - i,
    {
        if s[i] == b {
            return Some(i);
        }
        i += 1;
    }
    None
}

impl RoundState {
    /// Stores a downloaded payload that this round knows.
    pub fn store_payload(&mut self, hash: &BlobHash) -> (r: DistroOutcome)
        requires
            old(self)@.wf(),
            has_key(old(self)@.downloads, *hash),
        ensures
            r == old(self)@.distro_outcome(*hash),
            old(self)@.distro_applied(*hash, final(self)@),
            final(self)@.wf(),
    {
        let ghost before = self@;
        let di = match position_of_key(&self.downloads, hash) {
            Some(i) => i,
            None => {
                return DistroOutcome::UnknownDownload;
            },
        };
        proof {
            lemma_key_index(self.downloads@, *hash, di as int);
        }
        let (from, batch_id) = match self.downloads[di].1 {
            PayloadState::Downloading(f, b, _) => (f, b),
            PayloadState::Deserializing(_) => {
                return DistroOutcome::AlreadyDeserializing;
            },
        };
        let ri = match position_of_result(&self.results, &from, batch_id, hash) {
            Some(i) => i,
            None => {
                return DistroOutcome::NoCommitment;
            },
        };
        proof {
            lemma_first_result(self.results@, from, batch_id, *hash, ri as int);
        }
        let commitment = self.results[ri].1.commitment;
        let just_finished = match self.batch_ids_not_yet_trained_on.take() {
            Some((_, mut remaining)) => {
                let awaited = position_of_awaited(&remaining, batch_id);
                match self.blooms {
                    Some((mut participant_bloom, mut order_bloom)) => {
                        let from_digest = sha256(&from);
                        participant_bloom.add(&from_digest);
                        if awaited.is_some() {
                            let commitment_digest = sha256(&commitment);
                            order_bloom.add(&commitment_digest);
                        }
                        self.blooms = Some((participant_bloom, order_bloom));
                    },
                    None => {},
                }
                let ghost ids = remaining@;
                match awaited {
                    Some(i) => {
                        proof {
                            assert(ids.contains(batch_id));
                            let k = ids.index_of(batch_id);
                            assert(ids[k] == ids[i as int]);
                        }
                        remaining.remove(i);
                        proof {
                            assert(remaining@ == without_batch(ids, batch_id));
                            assert forall|x: int, y: int| 0 <= x < remaining@.len() && 0 <= y < remaining@.len() && remaining@[x] == remaining@[y] implies x == y by {
                                let xx = if x < i { x } else { x + 1 };
                                let yy = if y < i { y } else { y + 1 };
                                assert(ids[xx] == ids[yy]);
                            }
                        }
                    },
                    None => {},
                }
                let left = remaining.len();
                if left == 0 {
                    true
                } else {
                    self.batch_ids_not_yet_trained_on = Some((left, remaining));
                    false
                }
            },
            None => false,
        };
        self.downloads.set(di, (*hash, PayloadState::Deserializing(false)));
        proof {
            let d = self.downloads@;
            assert forall|i: int, j: int| 0 <= i < d.len() && 0 <= j < d.len() && (#[trigger] d[i]).0 == (#[trigger] d[j]).0 implies i == j by {
                assert(before.downloads[i].0 == before.downloads[j].0);
            }
        }
        DistroOutcome::Stored(batch_id, just_finished)
    }
}

/// A client's view of the two rounds in flight: the one it trains now and the one
/// before it, whose results may still arrive.
pub struct ClientRounds {
    pub identity: NodeId,
    pub current_round: RoundState,
    pub previous_round: RoundState,
}

/// The two rounds as the specifications see them.
#[verifier::ext_equal]
pub struct ClientRoundsView {
    pub identity: NodeId,
    pub current_round: RoundStateView,
    pub previous_round: RoundStateView,
}

impl View for ClientRounds {
    type V = ClientRoundsView;

    open spec fn view(&self) -> ClientRoundsView {
        ClientRoundsView {
            identity: self.identity,
            current_round: self.current_round@,
            previous_round: self.previous_round@,
        }
    }
}

impl ClientRoundsView {
    /// Both rounds keep their shape.
    pub open spec fn wf(self) -> bool {
        self.current_round.wf() && self.previous_round.wf()
    }

    /// A gossiped result goes to the round that assigns its batch, the current one
    /// first; a batch neither round assigns is unknown.
    pub open spec fn apply_message(self, from: NodeId, result: TrainingResult, clients: Seq<Client>) -> (ClientRoundsView, MessageOutcome) {
        if has_key(self.current_round.data_assignments, result.batch_id) {
            let (r, o) = self.current_round.accept(self.identity, from, result, clients);
            (ClientRoundsView { current_round: r, ..self }, o)
        } else if has_key(self.previous_round.data_assignments, result.batch_id) {
            let (r, o) = self.previous_round.accept(self.identity, from, result, clients);
            (ClientRoundsView { previous_round: r, ..self }, o)
        } else {
            (self, MessageOutcome::UnknownBatch)
        }
    }

    /// The inputs on which a gossiped result can be taken in without failing.
    pub open spec fn message_fits(self, from: NodeId, result: TrainingResult, clients: Seq<Client>) -> bool {
        if has_key(self.current_round.data_assignments, result.batch_id) {
            self.current_round.accept_fits(self.identity, from, result, clients)
        } else if has_key(self.previous_round.data_assignments, result.batch_id) {
            self.previous_round.accept_fits(self.identity, from, result, clients)
        } else {
            true
        }
    }

    /// What storing a downloaded payload comes to: it goes to the round that fetches
    /// it, the current one first; otherwise it is unknown.
    pub open spec fn distro_outcome(self, hash: BlobHash) -> DistroOutcome {
        if has_key(self.current_round.downloads, hash) {
            self.current_round.distro_outcome(hash)
        } else if has_key(self.previous_round.downloads, hash) {
            self.previous_round.distro_outcome(hash)
        } else {
            DistroOutcome::UnknownDownload
        }
    }

    /// The rounds after storing a downloaded payload.
    pub open spec fn distro_applied(self, hash: BlobHash, after: ClientRoundsView) -> bool {
        &&& after.identity == self.identity
        &&& if has_key(self.current_round.downloads, hash) {
            self.current_round.distro_applied(hash, after.current_round) && after.previous_round == self.previous_round
        } else if has_key(self.previous_round.downloads, hash) {
            self.previous_round.distro_applied(hash, after.previous_round) && after.current_round == self.current_round
        } else {
            after == self
        }
    }

    /// Every payload of the previous round has been deserialized.
    pub open spec fn previous_payloads_ready(self) -> bool {
        forall|i: int| 0 <= i < self.previous_round.downloads.len()
            ==> (#[trigger] self.previous_round.downloads[i]).1 == PayloadState::Deserializing(true)
    }

    /// A witness of the current round may send its witness early: its training is
    /// done, the previous round awaits no batch, and every payload of the previous
    /// round has been deserialized.
    pub open spec fn opportunistic_witness_ready(self, training_finished: bool) -> bool {
        &&& self.current_round.committee_info matches Some((_, wp, _)) && wp.witness
        &&& training_finished
        &&& self.previous_round.batch_ids_not_yet_trained_on is None
        &&& self.previous_payloads_ready()
    }
}

impl ClientRounds {
    /// Two empty rounds for this client.
    pub fn new(identity: NodeId) -> (r: Self)
        ensures
            r@.identity == identity,
            r@.current_round == RoundStateView::empty(),
            r@.previous_round == RoundStateView::empty(),
            r@.wf(),
    {
        ClientRounds { identity, current_round: RoundState::new(), previous_round: RoundState::new() }
    }

    /// Takes in a gossiped training result.
    pub fn apply_message(&mut self, from: &NodeId, result: TrainingResult, clients: &[Client]) -> (r: MessageOutcome)
        requires
            old(self)@.wf(),
            old(self)@.message_fits(*from, result, clients@),
        ensures
            (final(self)@, r) == old(self)@.apply_message(*from, result, clients@),
            final(self)@.wf(),
    {
        let identity = self.identity;
        if position_of_batch(&self.current_round.data_assignments, result.batch_id).is_some() {
            self.current_round.accept_result(&identity, from, result, clients)
        } else if position_of_batch(&self.previous_round.data_assignments, result.batch_id).is_some() {
            self.previous_round.accept_result(&identity, from, result, clients)
        } else {
            MessageOutcome::UnknownBatch
        }
    }

    /// Stores a downloaded payload in the round that fetches it.
    pub fn apply_distro_result(&mut self, hash: &BlobHash) -> (r: DistroOutcome)
        requires
            old(self)@.wf(),
        ensures
            r == old(self)@.distro_outcome(*hash),
            old(self)@.distro_applied(*hash, final(self)@),
            final(self)@.wf(),
    {
        if position_of_key(&self.current_round.downloads, hash).is_some() {
            self.current_round.store_payload(hash)
        } else if position_of_key(&self.previous_round.downloads, hash).is_some() {
            self.previous_round.store_payload(hash)
        } else {
            DistroOutcome::UnknownDownload
        }
    }

    /// Marks a payload's deserializing as finished, in the round that holds it.
    pub fn mark_deserialized(&mut self, hash: &BlobHash)
        requires
            old(self)@.wf(),
        ensures
            final(self)@.wf(),
            final(self)@.identity == old(self)@.identity,
            has_key(old(self)@.current_round.downloads, *hash) ==> {
                &&& final(self)@.current_round == RoundStateView {
                    downloads: old(self)@.current_round.downloads.update(
                        key_index(old(self)@.current_round.downloads, *hash),
                        (*hash, PayloadState::Deserializing(true)),
                    ),
                    ..old(self)@.current_round
                }
                &&& final(self)@.previous_round == old(self)@.previous_round
            },
            !has_key(old(self)@.current_round.downloads, *hash) && has_key(old(self)@.previous_round.downloads, *hash) ==> {
                &&& final(self)@.previous_round == RoundStateView {
                    downloads: old(self)@.previous_round.downloads.update(
                        key_index(old(self)@.previous_round.downloads, *hash),
                        (*hash, PayloadState::Deserializing(true)),
                    ),
                    ..old(self)@.previous_round
                }
                &&& final(self)@.current_round == old(self)@.current_round
            },
            !has_key(old(self)@.current_round.downloads, *hash) && !has_key(old(self)@.previous_round.downloads, *hash)
                ==> final(self)@ == old(self)@,
    {
        match position_of_key(&self.current_round.downloads, hash) {
            Some(i) => {
                proof {
                    lemma_key_index(self.current_round.downloads@, *hash, i as int);
                }
                let ghost d = self.current_round.downloads@;
                self.current_round.downloads.set(i, (*hash, PayloadState::Deserializing(true)));
                proof {
                    let e = self.current_round.downloads@;
                    assert forall|x: int, y: int| 0 <= x < e.len() && 0 <= y < e.len() && (#[trigger] e[x]).0 == (#[trigger] e[y]).0 implies x == y by {
                        assert(d[x].0 == d[y].0);
                    }
                }
                return;
            },
            None => {},
        }
        match position_of_key(&self.previous_round.downloads, hash) {
            Some(i) => {
                proof {
                    lemma_key_index(self.previous_round.downloads@, *hash, i as int);
                }
                let ghost d = self.previous_round.downloads@;
                self.previous_round.downloads.set(i, (*hash, PayloadState::Deserializing(true)));
                proof {
                    let e = self.previous_round.downloads@;
                    assert forall|x: int, y: int| 0 <= x < e.len() && 0 <= y < e.len() && (#[trigger] e[x]).0 == (#[trigger] e[y]).0 implies x == y by {
                        assert(d[x].0 == d[y].0);
                    }
                }
            },
            None => {},
        }
    }

    /// Whether this client, a witness of the current round, may send its witness
    /// before the witness phase begins.
    pub fn opportunistic_witness_ready(&self, training_finished: bool) -> (r: bool)
        ensures
            r == self@.opportunistic_witness_ready(training_finished),
    {
        let is_witness = match &self.current_round.committee_info {
            Some(info) => info.1.witness,
            None => false,
        };
        if !is_witness || !training_finished || self.previous_round.batch_ids_not_yet_trained_on.is_some() {
            return false;
        }
        let mut i: usize = 0;
        while i < self.previous_round.downloads.len()
            invariant
                i <= self@.previous_round.downloads.len(),
                forall|j: int| 0 <= j < i ==> (#[trigger] self@.previous_round.downloads[j]).1 == PayloadState::Deserializing(true),
            decreases self@.previous_round.downloads.len() - i,
        {
            match self.previous_round.downloads[i].1 {
                PayloadState::Deserializing(true) => {},
                _ => {
                    return false;
                },
            }
            i += 1;
        }
        true
    }
}

/// A round sends its witness at most once: once a witness was taken, asking again
/// gives none.
pub proof fn lemma_witness_sent_once(r: RoundStateView)
    requires
        r.witness_to_send().1 is Some,
    ensures
        r.witness_to_send().0.witness_to_send().1 is None,
        r.witness_to_send().0.sent_witness,
{
}

/// A result is only ever recorded from the batch's assignee, with a committee proof
/// that checks out (or from this client itself), and for a payload not yet known.
pub proof fn lemma_accepted_results_are_assigned(
    r: RoundStateView,
    identity: NodeId,
    from: NodeId,
    result: TrainingResult,
    clients: Seq<Client>,
)
    requires
        r.accept(identity, from, result, clients).1 is Accepted,
    ensures
        committee_check_passes(r, identity, from, result, clients),
        !has_key(r.downloads, result.ticket_hash),
        has_key(r.data_assignments, result.batch_id),
        value_of(r.data_assignments, result.batch_id) == from,
        r.accept(identity, from, result, clients).0.results == r.results.push((from, result)),
{
}

/// A payload is stored at most once: after it was stored, storing it again finds
/// it already deserializing and changes nothing.
pub proof fn lemma_payload_stored_once(r: RoundStateView, hash: BlobHash, after: RoundStateView)
    requires
        r.wf(),
        has_key(r.downloads, hash),
        r.distro_outcome(hash) is Stored,
        r.distro_applied(hash, after),
    ensures
        has_key(after.downloads, hash),
        after.distro_outcome(hash) == DistroOutcome::AlreadyDeserializing,
        after.distro_applied(hash, after),
{
    let i = key_index(r.downloads, hash);
    let d = after.downloads;
    assert(r.downloads[i].0 == hash);
    assert(d[i] == (hash, PayloadState::Deserializing(false)));
    assert forall|x: int, y: int| 0 <= x < d.len() && 0 <= y < d.len() && (#[trigger] d[x]).0 == (#[trigger] d[y]).0 implies x == y by {
        assert(r.downloads[x].0 == r.downloads[y].0);
    }
    lemma_key_index(d, hash, i);
}

} // verus!
