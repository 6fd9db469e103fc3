use vstd::prelude::*;
use crate::client_round::{has_key, key_index, keys_unique, position_of_key, value_of, BlobHash};
use crate::committee_selection::{ids_equal, NodeId};
use crate::coordinator::RunState;

verus! {

/// How many times a failed download is tried again.
pub const MAX_DOWNLOAD_RETRIES: usize = 3;

/// The wait before the first retry of a failed download, in milliseconds; it
/// doubles with each further retry.
pub const DOWNLOAD_RETRY_BACKOFF_BASE_MS: u64 = 2000;

/// The number of peers a client connects to when it joins the gossip.
pub const MAX_NUM_BOOTSTRAP_PEERS: usize = 3;

/// The id occurs in the list.
pub open spec fn listed(ids: Seq<NodeId>, id: NodeId) -> bool {
    exists|i: int| 0 <= i < ids.len() && ids[i] == id
}

/// The run's clients a client may connect to: none unless it is one of them;
/// otherwise the others it is not connected to yet, in order.
pub open spec fn bootstrap_candidates(participants: Seq<NodeId>, me: NodeId, connected: Seq<NodeId>) -> Seq<NodeId>
    decreases participants.len(),
{
    if participants.len() == 0 {
        Seq::empty()
    } else {
        let rest = bootstrap_candidates(participants.drop_last(), me, connected);
        let p = participants.last();
        if p != me && !listed(connected, p) {
            rest.push(p)
        } else {
            rest
        }
    }
}

/// Which peers a client may connect to, and how many of them (picked at random
/// among the candidates) it connects to: enough to bring it up to the bootstrap
/// count, and none while it is not one of the run's clients.
pub struct BootstrapPlan {
    pub candidates: Vec<NodeId>,
    pub count: usize,
}

fn is_listed(ids: &[NodeId], id: &NodeId) -> (r: bool)
    ensures
        r == listed(ids@, *id),
{
    let mut i: usize = 0;
    while i < ids.len()
        invariant
            i <= ids@.len(),
            forall|j: int| 0 <= j < i ==> ids@[j] != *id,
        decreases ids@.len() - i,
    {
        if ids_equal(&ids[i], id) {
            return true;
        }
        i += 1;
    }
    false
}

/// Plans which peers to connect to after a new coordinator state.
pub fn bootstrap_plan(participants: &[NodeId], me: &NodeId, connected: &[NodeId]) -> (r: BootstrapPlan)
    ensures
        listed(participants@, *me) ==> {
            &&& r.candidates@ == bootstrap_candidates(participants@, *me, connected@)
            &&& r.count == (if connected@.len() >= MAX_NUM_BOOTSTRAP_PEERS { 0 } else { MAX_NUM_BOOTSTRAP_PEERS - connected@.len() })
        },
        !listed(participants@, *me) ==> r.candidates@.len() == 0 && r.count == 0,
{
    if !is_listed(participants, me) {
        return BootstrapPlan { candidates: Vec::new(), count: 0 };
    }
    let mut candidates: Vec<NodeId> = Vec::new();
    let mut i: usize = 0;
    while i < participants.len()
        invariant
            i <= participants@.len(),
            candidates@ == bootstrap_candidates(participants@.take(i as int), *me, connected@),
        decreases participants@.len() - i,
    {
        assert(participants@.take(i + 1).drop_last() =~= participants@.take(i as int));
        let p = participants[i];
        if !ids_equal(&p, me) && !is_listed(connected, &p) {
            candidates.push(p);
        }
        i += 1;
    }
    assert(participants@.take(participants@.len() as int) =~= participants@);
    let count = MAX_NUM_BOOTSTRAP_PEERS.saturating_sub(connected.len());
    BootstrapPlan { candidates, count }
}

/// What a change of run state asks of the blob store and the rebroadcast list.
#[derive(Clone, Copy, Debug, PartialEq, Eq, Structural)]
pub enum BlobPruning {
    /// The run state did not change, or needs nothing.
    Keep,
    /// A new training round: drop blobs and broadcasts of steps before `min_step`.
    BeforeStep(u32),
    /// Cooldown: drop the broadcasts.
    ClearBroadcasts,
}

/// The pruning a new coordinator state asks for: on entering training, everything
/// older than two steps back goes; on entering cooldown, the broadcasts go.
pub open spec fn pruning_spec(old: Option<RunState>, new: RunState, step: u32) -> BlobPruning {
    if old == Some(new) {
        BlobPruning::Keep
    } else {
        match new {
            RunState::RoundTrain => BlobPruning::BeforeStep(if step >= 2 { (step - 2) as u32 } else { 0 }),
            RunState::Cooldown => BlobPruning::ClearBroadcasts,
            _ => BlobPruning::Keep,
        }
    }
}

/// Decides the pruning for a new coordinator state.
pub fn pruning_for(old: Option<RunState>, new: RunState, step: u32) -> (r: BlobPruning)
    ensures
        r == pruning_spec(old, new, step),
{
    let changed = match old {
        Some(o) => o != new,
        None => true,
    };
    if !changed {
        return BlobPruning::Keep;
    }
    match new {
        RunState::RoundTrain => BlobPruning::BeforeStep(step.saturating_sub(2)),
        RunState::Cooldown => BlobPruning::ClearBroadcasts,
        _ => BlobPruning::Keep,
    }
}

/// Which broadcast to send again next: the one after the last, going round.
pub fn next_rebroadcast_index(index: usize, len: usize) -> (r: usize)
    requires
        len > 0,
        index < usize::MAX,
    ensures
        r == (index + 1) % (len as int),
        r < len,
{
    (index + 1) % len
}

/// A failed download waiting to be tried again: how often it was tried again, when
/// (in milliseconds) it is due, if it is, and its tag.
#[derive(Clone, Copy, Debug, PartialEq, Eq, Structural)]
pub struct RetryInfo {
    pub retries: usize,
    pub retry_at_ms: Option<u64>,
    pub tag: u32,
}

/// What to do about a failed download.
#[derive(Clone, Copy, Debug, PartialEq, Eq, Structural)]
pub enum RetryDecision {
    /// Tried often enough; forget it.
    GiveUp,
    /// Try again after this many milliseconds.
    RetryAfter(u64),
}

/// The failed downloads being retried, by blob.
pub struct DownloadRetries {
    pub entries: Vec<(BlobHash, RetryInfo)>,
}

/// The wait before retry number `retries + 1`.
pub open spec fn backoff_ms(retries: nat) -> nat {
    (DOWNLOAD_RETRY_BACKOFF_BASE_MS * vstd::arithmetic::power2::pow2(retries)) as nat
}

/// The entries without the one for `hash`.
pub open spec fn without_key(s: Seq<(BlobHash, RetryInfo)>, hash: BlobHash) -> Seq<(BlobHash, RetryInfo)> {
    if has_key(s, hash) {
        s.remove(key_index(s, hash))
    } else {
        s
    }
}

/// How often a blob was tried again so far.
pub open spec fn retries_of(s: Seq<(BlobHash, RetryInfo)>, hash: BlobHash) -> usize {
    if has_key(s, hash) {
        value_of(s, hash).retries
    } else {
        0
    }
}

/// An entry is due at `now`: its time has come and it may still be retried.
pub open spec fn is_due(info: RetryInfo, now_ms: u64) -> bool {
    &&& info.retry_at_ms matches Some(t) && now_ms >= t
    &&& info.retries <= MAX_DOWNLOAD_RETRIES
}

impl DownloadRetries {
    /// No failed downloads.
    pub fn new() -> (r: Self)
        ensures
            r.entries@.len() == 0,
    {
        DownloadRetries { entries: Vec::new() }
    }

    /// Each blob has at most one entry, and none has been retried more often than
    /// allowed.
    pub open spec fn wf(&self) -> bool {
        &&& keys_unique(self.entries@)
        &&& forall|i: int| 0 <= i < self.entries@.len() ==> (#[trigger] self.entries@[i]).1.retries <= MAX_DOWNLOAD_RETRIES
    }

    fn remove_entry(&mut self, hash: &BlobHash) -> (found: bool)
        requires
            old(self).wf(),
        ensures
            final(self).wf(),
            found == has_key(old(self).entries@, *hash),
            final(self).entries@ == without_key(old(self).entries@, *hash),
    {
        match position_of_key(&self.entries, hash) {
            Some(i) => {
                proof {
                    crate::client_round::lemma_key_index_pub(self.entries@, *hash, i as int);
                }
                let ghost before = self.entries@;
                self.entries.remove(i);
                proof {
                    let d = self.entries@;
                    assert forall|x: int, y: int| 0 <= x < d.len() && 0 <= y < d.len() && (#[trigger] d[x]).0 == (#[trigger] d[y]).0 implies x == y by {
                        let xx = if x < i { x } else { x + 1 };
                        let yy = if y < i { y } else { y + 1 };
                        assert(before[xx].0 == before[yy].0);
                    }
                    assert forall|k: int| 0 <= k < d.len() implies (#[trigger] d[k]).1.retries <= MAX_DOWNLOAD_RETRIES by {
                        let kk = if k < i { k } else { k + 1 };
                        assert(before[kk].1.retries <= MAX_DOWNLOAD_RETRIES);
                    }
                }
                true
            },
            None => false,
        }
    }

    /// A download finished: its retry entry, if any, is dropped; says whether it had
    /// one.
    pub fn on_download_complete(&mut self, hash: &BlobHash) -> (was_retried: bool)
        requires
            old(self).wf(),
        ensures
            final(self).wf(),
            was_retried == has_key(old(self).entries@, *hash),
            final(self).entries@ == without_key(old(self).entries@, *hash),
    {
        self.remove_entry(hash)
    }

    /// A download failed at `now_ms`: after the last allowed retry it is given up
    /// and forgotten; otherwise it is due again after the base wait doubled once per
    /// earlier retry, with its retry count raised by one.
    pub fn on_download_failed(&mut self, hash: &BlobHash, tag: u32, now_ms: u64) -> (r: RetryDecision)
        requires
            old(self).wf(),
        ensures
            final(self).wf(),
            retries_of(old(self).entries@, *hash) >= MAX_DOWNLOAD_RETRIES ==> {
                &&& r == RetryDecision::GiveUp
                &&& final(self).entries@ == without_key(old(self).entries@, *hash)
            },
            retries_of(old(self).entries@, *hash) < MAX_DOWNLOAD_RETRIES ==> {
                let wait = backoff_ms(retries_of(old(self).entries@, *hash) as nat);
                let info = RetryInfo {
                    retries: (retries_of(old(self).entries@, *hash) + 1) as usize,
                    retry_at_ms: Some(if now_ms + wait <= u64::MAX { (now_ms + wait) as u64 } else { u64::MAX }),
                    tag,
                };
                &&& r == RetryDecision::RetryAfter(wait as u64)
                &&& final(self).entries@ == without_key(old(self).entries@, *hash).push((*hash, info))
            },
    {
        let retries = match position_of_key(&self.entries, hash) {
            Some(i) => {
                proof {
                    crate::client_round::lemma_key_index_pub(self.entries@, *hash, i as int);
                }
                self.entries[i].1.retries
            },
            None => 0,
        };
        if retries >= MAX_DOWNLOAD_RETRIES {
            self.remove_entry(hash);
            return RetryDecision::GiveUp;
        }
        let mut wait: u64 = DOWNLOAD_RETRY_BACKOFF_BASE_MS;
        let mut k: usize = 0;
        proof {
            vstd::arithmetic::power2::lemma2_to64();
        }
        while k < retries
            invariant
                k <= retries < MAX_DOWNLOAD_RETRIES,
                wait == DOWNLOAD_RETRY_BACKOFF_BASE_MS * vstd::arithmetic::power2::pow2(k as nat),
            decreases retries - k,
        {
            proof {
                vstd::arithmetic::power2::lemma_pow2_unfold((k + 1) as nat);
                vstd::arithmetic::power2::lemma_pow2_strictly_increases(k as nat, 3);
                vstd::arithmetic::power2::lemma2_to64();
            }
            wait = wait * 2;
            k += 1;
        }
        let due = now_ms.saturating_add(wait);
        self.remove_entry(hash);
        let ghost before = self.entries@;
        self.entries.push((*hash, RetryInfo { retries: retries + 1, retry_at_ms: Some(due), tag }));
        proof {
            let d = self.entries@;
            assert(!has_key(before, *hash));
            assert forall|x: int, y: int| 0 <= x < d.len() && 0 <= y < d.len() && (#[trigger] d[x]).0 == (#[trigger] d[y]).0 implies x == y by {
                if x < before.len() && y < before.len() {
                    assert(before[x].0 == before[y].0);
                } else if x < before.len() {
                    assert(before[x].0 == *hash);
                } else if y < before.len() {
                    assert(before[y].0 == *hash);
                }
            }
            assert forall|k2: int| 0 <= k2 < d.len() implies (#[trigger] d[k2]).1.retries <= MAX_DOWNLOAD_RETRIES by {
                if k2 < before.len() {
                    assert(before[k2].1.retries <= MAX_DOWNLOAD_RETRIES);
                }
            }
        }
        RetryDecision::RetryAfter(wait)
    }

    /// The downloads due again at `now_ms`, in order, with their tags; they are no
    /// longer due (until they fail again).
    pub fn take_due(&mut self, now_ms: u64) -> (due: Vec<(BlobHash, u32)>)
        requires
            old(self).wf(),
        ensures
            final(self).wf(),
            final(self).entries@.len() == old(self).entries@.len(),
            forall|i: int| 0 <= i < old(self).entries@.len() ==> {
                let e = #[trigger] old(self).entries@[i];
                final(self).entries@[i] == if is_due(e.1, now_ms) {
                    (e.0, RetryInfo { retry_at_ms: None, ..e.1 })
                } else {
                    e
                }
            },
            due@ == due_list(old(self).entries@, now_ms),
    {
        let ghost start = self.entries@;
        let mut due: Vec<(BlobHash, u32)> = Vec::new();
        let mut i: usize = 0;
        while i < self.entries.len()
            invariant
                i <= self.entries@.len() == start.len(),
                forall|k: int| 0 <= k < i ==> {
                    let e = #[trigger] start[k];
                    self.entries@[k] == if is_due(e.1, now_ms) {
                        (e.0, RetryInfo { retry_at_ms: None, ..e.1 })
                    } else {
                        e
                    }
                },
                forall|k: int| i <= k < start.len() ==> self.entries@[k] == #[trigger] start[k],
                due@ == due_list(start.take(i as int), now_ms),
            decreases start.len() - i,
        {
            assert(start.take(i + 1).drop_last() =~= start.take(i as int));
            let (hash, info) = self.entries[i];
            assert((hash, info) == start[i as int]);
            let is_now = match info.retry_at_ms {
                Some(t) => now_ms >= t && info.retries <= MAX_DOWNLOAD_RETRIES,
                None => false,
            };
            if is_now {
                due.push((hash, info.tag));
                self.entries.set(i, (hash, RetryInfo { retry_at_ms: None, ..info }));
            }
            i += 1;
        }
        proof {
            assert(start.take(start.len() as int) =~= start);
            let d = self.entries@;
            assert forall|x: int, y: int| 0 <= x < d.len() && 0 <= y < d.len() && (#[trigger] d[x]).0 == (#[trigger] d[y]).0 implies x == y by {
                assert(start[x].0 == start[y].0);
            }
            assert forall|k: int| 0 <= k < d.len() implies (#[trigger] d[k]).1.retries <= MAX_DOWNLOAD_RETRIES by {
                assert(start[k].1.retries <= MAX_DOWNLOAD_RETRIES);
            }
        }
        due
    }
}

/// The due downloads of the entries, in order, with their tags.
pub open spec fn due_list(s: Seq<(BlobHash, RetryInfo)>, now_ms: u64) -> Seq<(BlobHash, u32)>
    decreases s.len(),
{
    if s.len() == 0 {
        Seq::empty()
    } else {
        let rest = due_list(s.drop_last(), now_ms);
        if is_due(s.last().1, now_ms) {
            rest.push((s.last().0, s.last().1.tag))
        } else {
            rest
        }
    }
}

} // verus!
