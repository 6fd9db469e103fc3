use vstd::prelude::*;
use vstd::arithmetic::div_mod::{lemma_fundamental_div_mod, lemma_div_pos_is_pos, lemma_basic_div, lemma_small_mod};
use crate::committee_selection::{Committee, CommitteeSelection, NodeId, SelectionView};
use crate::coordinator::{Coordinator, CoordinatorView, Round, RoundView};
use crate::shuffle::{chacha_shuffle_spec, deterministic_shuffle};

verus! {

/// A batch: the closed interval of data indices `start..=end`.
#[derive(Clone, Copy, Debug, PartialEq, Eq, Structural)]
pub struct BatchId {
    pub start: u64,
    pub end: u64,
}

/// Number of non-empty batches when `total` indices are split among `n` nodes.
pub open spec fn num_batches(total: nat, n: nat) -> nat {
    if total < n {
        total
    } else {
        n
    }
}

/// Size of node `i`'s share: `total / n`, plus one for the first `total % n` nodes.
pub open spec fn batch_len(total: nat, n: nat, i: nat) -> nat {
    total / n + if i < total % n {
        1nat
    } else {
        0nat
    }
}

/// First index of node `i`'s share: the shares are laid out back to back from
/// `data_index`.
pub open spec fn batch_start(data_index: nat, total: nat, n: nat, i: nat) -> nat {
    data_index + i * (total / n) + if i < total % n {
        i
    } else {
        total % n
    }
}

/// Node `i`'s batch.
pub open spec fn batch_at(data_index: nat, total: nat, n: nat, i: nat) -> BatchId {
    BatchId {
        start: batch_start(data_index, total, n, i) as u64,
        end: (batch_start(data_index, total, n, i) + batch_len(total, n, i) - 1) as u64,
    }
}

/// The non-empty batches of `total` indices from `data_index` split among `n`
/// nodes, in node order.
pub open spec fn batch_partition(data_index: nat, total: nat, n: nat) -> Seq<BatchId> {
    Seq::new(num_batches(total, n), |i: int| batch_at(data_index, total, n, i as nat))
}

/// Layout of the shares: non-empty exactly for the first `num_batches` nodes, each
/// starting where the previous ends, the last ending at `data_index + total`.
pub proof fn lemma_batch_layout(data_index: nat, total: nat, n: nat, i: nat)
    requires
        n > 0,
        i <= n,
    ensures
        i < num_batches(total, n) ==> batch_len(total, n, i) >= 1,
        num_batches(total, n) <= i < n ==> batch_len(total, n, i) == 0,
        i < n ==> batch_start(data_index, total, n, i + 1) == batch_start(data_index, total, n, i) + batch_len(total, n, i),
        batch_start(data_index, total, n, num_batches(total, n)) == data_index + total,
        num_batches(total, n) <= n,
        i <= num_batches(total, n) ==> batch_start(data_index, total, n, i) <= data_index + total,
{
    let b = total / n;
    let r = total % n;
    lemma_fundamental_div_mod(total as int, n as int);
    if total < n {
        lemma_basic_div(total as int, n as int);
        lemma_small_mod(total, n);
        assert(b == 0);
        assert(r == total);
    } else {
        lemma_div_pos_is_pos(total as int, n as int);
        lemma_small_mod_bound(total, n);
        assert(b >= 1) by (nonlinear_arith)
            requires
                total == n * b + r,
                r < n,
                total >= n,
                b >= 0,
        ;
    }
    assert((i + 1) * b == i * b + b) by (nonlinear_arith);
    assert(n * b == b * n) by (nonlinear_arith);
    if i <= num_batches(total, n) {
        if total >= n {
            assert(i * b <= n * b) by (nonlinear_arith)
                requires
                    i <= n,
            ;
        } else {
            assert(i * b == 0) by (nonlinear_arith)
                requires
                    b == 0,
            ;
        }
    }
}

/// Shares start strictly later node by node among the non-empty ones.
proof fn lemma_starts_increase(data_index: nat, total: nat, n: nat, i: nat, j: nat)
    requires
        n > 0,
        i < j <= num_batches(total, n),
    ensures
        batch_start(data_index, total, n, i) < batch_start(data_index, total, n, j),
    decreases j - i,
{
    lemma_batch_layout(data_index, total, n, i);
    if i + 1 < j {
        lemma_starts_increase(data_index, total, n, i + 1, j);
    }
}

/// The batches of a round tile its data: there is one per node while there are
/// indices to go round, none is empty, the first starts at `data_index`, each next
/// one starts right after the previous one ends, and the last ends at
/// `data_index + total - 1`.
pub proof fn lemma_batch_partition_tiles(data_index: u64, total: u64, n: u64)
    requires
        n > 0,
        data_index + total <= u64::MAX,
    ensures
        batch_partition(data_index as nat, total as nat, n as nat).len() == if total < n { total as nat } else { n as nat },
        forall|i: int| 0 <= i < batch_partition(data_index as nat, total as nat, n as nat).len() ==> {
            let b = #[trigger] batch_partition(data_index as nat, total as nat, n as nat)[i];
            b.start <= b.end
        },
        batch_partition(data_index as nat, total as nat, n as nat).len() > 0 ==> {
            &&& batch_partition(data_index as nat, total as nat, n as nat)[0].start == data_index
            &&& batch_partition(data_index as nat, total as nat, n as nat).last().end == data_index + total - 1
        },
        forall|i: int| 0 <= i < batch_partition(data_index as nat, total as nat, n as nat).len() - 1 ==>
            (#[trigger] batch_partition(data_index as nat, total as nat, n as nat)[i + 1]).start
                == batch_partition(data_index as nat, total as nat, n as nat)[i].end + 1,
{
    let d = data_index as nat;
    let t = total as nat;
    let m = n as nat;
    let ps = batch_partition(d, t, m);
    let nb = num_batches(t, m);
    lemma_batch_layout(d, t, m, nb);
    assert forall|i: int| 0 <= i < ps.len() implies {
        let b = #[trigger] ps[i];
        b.start <= b.end
    } by {
        lemma_batch_layout(d, t, m, i as nat);
        lemma_batch_layout(d, t, m, (i + 1) as nat);
        if i + 1 < nb {
            lemma_starts_increase(d, t, m, (i + 1) as nat, nb);
        }
    }
    if ps.len() > 0 {
        lemma_batch_layout(d, t, m, 0);
        lemma_batch_layout(d, t, m, (nb - 1) as nat);
        assert(batch_start(d, t, m, 0) == d);
    }
    assert forall|i: int| 0 <= i < ps.len() - 1 implies (#[trigger] ps[i + 1]).start == ps[i].end + 1 by {
        lemma_batch_layout(d, t, m, i as nat);
        lemma_batch_layout(d, t, m, (i + 1) as nat);
        lemma_starts_increase(d, t, m, (i + 1) as nat, nb);
    }
}

/// No batch is assigned twice in a round.
pub proof fn lemma_assignment_keys_unique(c: CoordinatorView, round: RoundView, cs: SelectionView)
    requires
        assignment_fits(c, round, cs),
    ensures
        forall|i: int, j: int|
            0 <= i < assignment_for_round(c, round, cs).len() && 0 <= j < assignment_for_round(c, round, cs).len()
            && (#[trigger] assignment_for_round(c, round, cs)[i]).0 == (#[trigger] assignment_for_round(c, round, cs)[j]).0
            ==> i == j,
{
    let a = assignment_for_round(c, round, cs);
    let trainers = trainer_indices(cs, c.epoch_state.clients.len());
    let order = chacha_shuffle_spec(trainers, round.random_seed);
    let total = target_batch_size(c);
    let d = round.data_index as nat;
    if trainers.len() > 0 {
        assert forall|i: int, j: int| 0 <= i < a.len() && 0 <= j < a.len() && (#[trigger] a[i]).0 == (#[trigger] a[j]).0 implies i == j by {
            let m = order.len();
            let nb = num_batches(total, m);
            if m > 0 {
                lemma_batch_layout(d, total, m, nb);
                lemma_batch_layout(d, total, m, i as nat);
                lemma_batch_layout(d, total, m, j as nat);
                if i < j {
                    lemma_starts_increase(d, total, m, i as nat, j as nat);
                    lemma_starts_increase(d, total, m, j as nat, nb);
                } else if j < i {
                    lemma_starts_increase(d, total, m, j as nat, i as nat);
                    lemma_starts_increase(d, total, m, i as nat, nb);
                }
            }
        }
    }
}

proof fn lemma_small_mod_bound(total: nat, n: nat)
    requires
        n > 0,
    ensures
        total % n < n,
{
}

/// Splits `total` indices from `start` among `n` nodes.
fn partition_batches(start: u64, total: u64, n: u64) -> (ids: Vec<BatchId>)
    requires
        n > 0,
        start + total <= u64::MAX,
    ensures
        ids@ == batch_partition(start as nat, total as nat, n as nat),
{
    let base = total / n;
    let rem = total % n;
    let ghost nb = num_batches(total as nat, n as nat);
    let ghost full = batch_partition(start as nat, total as nat, n as nat);
    let mut ids: Vec<BatchId> = Vec::new();
    let mut current = start;
    let mut i: u64 = 0;
    proof {
        lemma_batch_layout(start as nat, total as nat, n as nat, 0);
    }
    while i < n
        invariant
            n > 0,
            i <= n,
            base == total / n,
            rem == total % n,
            start + total <= u64::MAX,
            nb == num_batches(total as nat, n as nat),
            full == batch_partition(start as nat, total as nat, n as nat),
            i <= nb ==> current == batch_start(start as nat, total as nat, n as nat, i as nat) && ids@ == full.take(i as int),
            i > nb ==> current == batch_start(start as nat, total as nat, n as nat, nb) && ids@ == full,
        decreases n - i,
    {
        proof {
            lemma_batch_layout(start as nat, total as nat, n as nat, i as nat);
            lemma_batch_layout(start as nat, total as nat, n as nat, (i + 1) as nat);
        }
        let size = base + if i < rem {
            1
        } else {
            0
        };
        assert(size == batch_len(total as nat, n as nat, i as nat));
        if size > 0 {
            let end = current + size - 1;
            ids.push(BatchId { start: current, end });
            current = end + 1;
            assert(full.take(i + 1) =~= full.take(i as int).push(full[i as int]));
        }
        proof {
            if i == nb {
                assert(full.take(i as int) =~= full);
            }
        }
        i += 1;
    }
    proof {
        if n <= nb {
            assert(full.take(n as int) =~= full);
        }
    }
    ids
}

/// The client indices below `n` whose committee is `Trainer`, in index order.
pub open spec fn trainer_indices(cs: SelectionView, n: nat) -> Seq<u64>
    decreases n,
{
    if n == 0 {
        Seq::empty()
    } else {
        let rest = trainer_indices(cs, (n - 1) as nat);
        if cs.committee_of((n - 1) as nat) == Committee::Trainer {
            rest.push((n - 1) as u64)
        } else {
            rest
        }
    }
}

/// The number of data indices a round consumes: `batches_per_round` batches of
/// `data_indicies_per_batch` indices.
pub open spec fn target_batch_size(c: CoordinatorView) -> nat {
    (c.config.batches_per_round * c.config.data_indicies_per_batch) as nat
}

/// The data assignment of a round: the trainers, shuffled by the round's seed, take
/// consecutive shares of the round's data from its data index, the first
/// `total % n` of them one index more; nodes with an empty share get nothing.
pub open spec fn assignment_for_round(c: CoordinatorView, round: RoundView, cs: SelectionView) -> Seq<(BatchId, NodeId)> {
    let trainers = trainer_indices(cs, c.epoch_state.clients.len());
    let order = chacha_shuffle_spec(trainers, round.random_seed);
    let total = target_batch_size(c);
    if trainers.len() == 0 {
        Seq::empty()
    } else {
        Seq::new(
            num_batches(total, order.len()),
            |i: int| (batch_at(round.data_index as nat, total, order.len(), i as nat), c.epoch_state.clients[order[i] as int].id),
        )
    }
}

/// The inputs on which assigning a round's data stays within its types and never
/// meets a committee it cannot yet serve: the selection covers every client, tie
/// breakers only appear when the round has no tie-breaker tasks and verifiers only
/// when nothing is verified, and the round's data fits in 64 bits.
pub open spec fn assignment_fits(c: CoordinatorView, round: RoundView, cs: SelectionView) -> bool {
    &&& cs.wf()
    &&& c.epoch_state.clients.len() <= cs.total_nodes
    &&& forall|i: nat| i < c.epoch_state.clients.len() ==> {
        &&& (#[trigger] cs.committee_of(i)) == Committee::TieBreaker ==> round.tie_breaker_tasks == 0
        &&& cs.committee_of(i) == Committee::Verifier ==> c.config.verification_percent == 0
    }
    &&& round.data_index + target_batch_size(c) <= u64::MAX
}

/// The batches assigned to `node`, in order.
pub open spec fn batches_of(assignments: Seq<(BatchId, NodeId)>, node: NodeId) -> Seq<BatchId>
    decreases assignments.len(),
{
    if assignments.len() == 0 {
        Seq::empty()
    } else {
        let rest = batches_of(assignments.drop_last(), node);
        if assignments.last().1 == node {
            rest.push(assignments.last().0)
        } else {
            rest
        }
    }
}

/// The trainers of a round in the order its seed shuffles them.
pub open spec fn trainer_order(c: CoordinatorView, round: RoundView, cs: SelectionView) -> Seq<u64> {
    chacha_shuffle_spec(trainer_indices(cs, c.epoch_state.clients.len()), round.random_seed)
}

/// Every batch is well formed, and the batches are disjoint and strictly ascending.
pub open spec fn batches_ascending(s: Seq<BatchId>) -> bool {
    &&& forall|i: int| 0 <= i < s.len() ==> (#[trigger] s[i]).start <= s[i].end
    &&& forall|i: int, j: int| 0 <= i < j < s.len() ==> (#[trigger] s[i]).end < (#[trigger] s[j]).start
}

/// `a` comes before `b` in batch order: by start, then by end.
pub open spec fn batch_before(a: BatchId, b: BatchId) -> bool {
    a.start < b.start || (a.start == b.start && a.end < b.end)
}

/// The batches are in strictly ascending batch order, as the keys of an ordered
/// map are.
pub open spec fn batches_sorted(s: Seq<BatchId>) -> bool {
    forall|i: int, j: int| 0 <= i < j < s.len() ==> batch_before(#[trigger] s[i], #[trigger] s[j])
}

/// Disjoint ascending batches are in batch order.
proof fn lemma_ascending_sorted(s: Seq<BatchId>)
    requires
        batches_ascending(s),
    ensures
        batches_sorted(s),
{
    assert forall|i: int, j: int| 0 <= i < j < s.len() implies batch_before(#[trigger] s[i], #[trigger] s[j]) by {
        assert(s[i].start <= s[i].end);
    }
}

/// The batches one node was assigned keep the order of the assignment, and none
/// comes after the assignment's last batch.
proof fn lemma_batches_of_sorted(s: Seq<(BatchId, NodeId)>, node: NodeId)
    requires
        batches_sorted(assignment_keys(s)),
    ensures
        batches_sorted(batches_of(s, node)),
        s.len() > 0 ==> forall|k: int| 0 <= k < batches_of(s, node).len()
            ==> (batch_before(#[trigger] batches_of(s, node)[k], s.last().0) || batches_of(s, node)[k] == s.last().0),
    decreases s.len(),
{
    if s.len() > 0 {
        let t = s.drop_last();
        let ks = assignment_keys(s);
        let kt = assignment_keys(t);
        assert forall|i: int, j: int| 0 <= i < j < kt.len() implies batch_before(#[trigger] kt[i], #[trigger] kt[j]) by {
            assert(kt[i] == ks[i]);
            assert(kt[j] == ks[j]);
        }
        lemma_batches_of_sorted(t, node);
        let rest = batches_of(t, node);
        let last = s.last().0;
        assert(ks[s.len() - 1] == last);
        assert forall|k: int| 0 <= k < rest.len() implies batch_before(#[trigger] rest[k], last) by {
            assert(t.len() > 0);
            assert(ks[t.len() - 1] == t.last().0);
            assert(batch_before(ks[t.len() - 1], ks[s.len() - 1]));
        }
        if s.last().1 == node {
            let r = rest.push(last);
            assert(batches_of(s, node) == r);
            assert forall|i: int, j: int| 0 <= i < j < r.len() implies batch_before(#[trigger] r[i], #[trigger] r[j]) by {
                assert(r[i] == rest[i]);
                if j < rest.len() {
                    assert(r[j] == rest[j]);
                }
            }
            assert forall|k: int| 0 <= k < r.len() implies (batch_before(#[trigger] r[k], last) || r[k] == last) by {
                if k < rest.len() {
                    assert(r[k] == rest[k]);
                }
            }
        }
    }
}

/// The batches of an assignment, in its order.
pub open spec fn assignment_keys(s: Seq<(BatchId, NodeId)>) -> Seq<BatchId> {
    s.map_values(|e: (BatchId, NodeId)| e.0)
}

/// Batches laid back to back are ascending.
proof fn lemma_adjacent_batches_ascending(s: Seq<BatchId>)
    requires
        forall|i: int| 0 <= i < s.len() ==> (#[trigger] s[i]).start <= s[i].end,
        forall|i: int| 0 <= i < s.len() - 1 ==> (#[trigger] s[i + 1]).start == s[i].end + 1,
    ensures
        batches_ascending(s),
{
    assert forall|i: int, j: int| 0 <= i < j < s.len() implies (#[trigger] s[i]).end < (#[trigger] s[j]).start by {
        lemma_adjacent_chain(s, i, j);
    }
}

proof fn lemma_adjacent_chain(s: Seq<BatchId>, i: int, j: int)
    requires
        forall|k: int| 0 <= k < s.len() ==> (#[trigger] s[k]).start <= s[k].end,
        forall|k: int| 0 <= k < s.len() - 1 ==> (#[trigger] s[k + 1]).start == s[k].end + 1,
        0 <= i < j < s.len(),
    ensures
        s[i].end < s[j].start,
    decreases j - i,
{
    assert(s[(j - 1) + 1].start == s[j - 1].end + 1);
    if i + 1 < j {
        lemma_adjacent_chain(s, i, j - 1);
        assert(s[j - 1].start <= s[j - 1].end);
    }
}

/// The batches one node was assigned keep the ascending order of the assignment,
/// and none ends after the assignment's last batch.
proof fn lemma_batches_of_ascending(s: Seq<(BatchId, NodeId)>, node: NodeId)
    requires
        batches_ascending(assignment_keys(s)),
    ensures
        batches_ascending(batches_of(s, node)),
        s.len() > 0 ==> forall|k: int| 0 <= k < batches_of(s, node).len() ==> (#[trigger] batches_of(s, node)[k]).end <= s.last().0.end,
    decreases s.len(),
{
    if s.len() > 0 {
        let t = s.drop_last();
        let ks = assignment_keys(s);
        let kt = assignment_keys(t);
        assert forall|i: int| 0 <= i < kt.len() implies (#[trigger] kt[i]).start <= kt[i].end by {
            assert(kt[i] == ks[i]);
        }
        assert forall|i: int, j: int| 0 <= i < j < kt.len() implies (#[trigger] kt[i]).end < (#[trigger] kt[j]).start by {
            assert(kt[i] == ks[i]);
            assert(kt[j] == ks[j]);
        }
        lemma_batches_of_ascending(t, node);
        let rest = batches_of(t, node);
        let last = s.last().0;
        assert(ks[s.len() - 1] == last);
        assert(last.start <= last.end);
        assert forall|k: int| 0 <= k < rest.len() implies (#[trigger] rest[k]).end < last.start by {
            assert(t.len() > 0);
            assert(ks[t.len() - 1] == t.last().0);
            assert(ks[t.len() - 1].end < ks[s.len() - 1].start);
        }
        if s.last().1 == node {
            let r = rest.push(last);
            assert(batches_of(s, node) == r);
            assert forall|i: int| 0 <= i < r.len() implies (#[trigger] r[i]).start <= r[i].end by {
                if i < rest.len() {
                    assert(r[i] == rest[i]);
                }
            }
            assert forall|i: int, j: int| 0 <= i < j < r.len() implies (#[trigger] r[i]).end < (#[trigger] r[j]).start by {
                assert(r[i] == rest[i]);
                if j < rest.len() {
                    assert(r[j] == rest[j]);
                }
            }
        }
    }
}

impl Coordinator {
    /// The number of data indices a round consumes.
    pub fn get_target_global_batch_size(&self) -> (n: u64)
        ensures
            n == target_batch_size(self@),
    {
        assert(self.config.batches_per_round as u64 * self.config.data_indicies_per_batch as u64 <= 0xffff * 0xffff) by (nonlinear_arith)
            requires self.config.batches_per_round <= 0xffff, self.config.data_indicies_per_batch <= 0xffff;
        self.config.batches_per_round as u64 * self.config.data_indicies_per_batch as u64
    }
}

/// Assigns the data of `round` to the trainers of `committee_selection`.
pub(crate) fn assign_data_for_round(coordinator: &Coordinator, round: &Round, committee_selection: &CommitteeSelection) -> (assignments: Vec<(BatchId, NodeId)>)
    requires
        assignment_fits(coordinator@, round@, committee_selection@),
    ensures
        assignments@ == assignment_for_round(coordinator@, round@, committee_selection@),
        forall|i: int| 0 <= i < assignments@.len() ==> assigned_to_trainer(coordinator@, committee_selection@, #[trigger] assignments@[i].1),
        trainer_indices(committee_selection@, coordinator@.epoch_state.clients.len()).len() > 0 ==>
            trainer_order(coordinator@, round@, committee_selection@).to_multiset()
                == trainer_indices(committee_selection@, coordinator@.epoch_state.clients.len()).to_multiset(),
        batches_ascending(assignment_keys(assignments@)),
        batches_sorted(assignment_keys(assignments@)),
        assignments@.len() == num_batches(target_batch_size(coordinator@), trainer_indices(committee_selection@, coordinator@.epoch_state.clients.len()).len()),
        forall|i: int, j: int| 0 <= i < j < assignments@.len()
            ==> (#[trigger] trainer_order(coordinator@, round@, committee_selection@)[i]) != (#[trigger] trainer_order(coordinator@, round@, committee_selection@)[j]),
{
    let ghost c = coordinator@;
    let ghost cs = committee_selection@;
    let n_clients = coordinator.epoch_state.clients.len();
    let mut trainers: Vec<u64> = Vec::new();
    let mut i: usize = 0;
    while i < n_clients
        invariant
            i <= n_clients,
            n_clients == c.epoch_state.clients.len(),
            coordinator@ == c,
            assignment_fits(c, round@, cs),
            committee_selection@ == cs,
            trainers@ == trainer_indices(cs, i as nat),
        decreases n_clients - i,
    {
        let committee = committee_selection.get_committee(i as u64).committee;
        if committee == Committee::Trainer {
            trainers.push(i as u64);
        }
        i += 1;
    }
    if trainers.len() == 0 {
        let empty: Vec<(BatchId, NodeId)> = Vec::new();
        assert(num_batches(target_batch_size(c), 0) == 0);
        assert(assignment_keys(empty@) =~= Seq::<BatchId>::empty());
        proof {
            lemma_ascending_sorted(assignment_keys(empty@));
        }
        return empty;
    }
    let ghost unshuffled = trainers@;
    proof {
        lemma_trainer_indices_bound(cs, n_clients as nat);
    }
    deterministic_shuffle(&mut trainers, round.random_seed);
    proof {
        broadcast use vstd::seq_lib::to_multiset_contains, vstd::seq_lib::to_multiset_len;
        assert forall|k: int| 0 <= k < trainers@.len() implies (#[trigger] trainers@[k]) < n_clients by {
            assert(trainers@.contains(trainers@[k]));
            assert(trainers@.to_multiset().count(trainers@[k]) > 0);
            assert(unshuffled.contains(trainers@[k]));
        }
        assert(trainers@.to_multiset().len() == unshuffled.to_multiset().len());
        assert(trainers@.len() == unshuffled.len());
        lemma_trainer_indices_increasing(cs, n_clients as nat);
        assert(unshuffled.no_duplicates());
        unshuffled.lemma_multiset_has_no_duplicates();
        trainers@.lemma_multiset_has_no_duplicates_conv();
    }
    let total = coordinator.get_target_global_batch_size();
    let n = trainers.len() as u64;
    let batches = partition_batches(round.data_index, total, n);
    let mut assignments: Vec<(BatchId, NodeId)> = Vec::new();
    let mut j: usize = 0;
    while j < batches.len()
        invariant
            j <= batches@.len(),
            batches@ == crate::data_selection::batch_partition(round.data_index as nat, total as nat, n as nat),
            batches@.len() <= n,
            n == trainers@.len(),
            n_clients == coordinator.epoch_state.clients@.len(),
            forall|k: int| 0 <= k < trainers@.len() ==> (#[trigger] trainers@[k]) < n_clients,
            assignments@ == Seq::new(j as nat, |k: int| (batches@[k], coordinator.epoch_state.clients@[trainers@[k] as int].id)),
        decreases batches@.len() - j,
    {
        let t = trainers[j];
        assert(t == trainers@[j as int]);
        assert(t < n_clients);
        let ti = t as usize;
        assert(ti as int == t as int);
        let node = coordinator.epoch_state.clients[ti].id;
        assignments.push((batches[j], node));
        assert(assignments@ =~= Seq::new((j + 1) as nat, |k: int| (batches@[k], coordinator.epoch_state.clients@[trainers@[k] as int].id)));
        j += 1;
    }
    assert(assignments@ =~= assignment_for_round(c, round@, cs));
    proof {
        lemma_batch_partition_tiles(round.data_index, total, n);
        let ks = assignment_keys(assignments@);
        assert(ks =~= batches@);
        lemma_adjacent_batches_ascending(batches@);
        lemma_ascending_sorted(ks);
    }
    proof {
        lemma_trainer_indices_are_trainers(cs, n_clients as nat);
        broadcast use vstd::seq_lib::to_multiset_contains;
        assert forall|i: int| 0 <= i < assignments@.len() implies assigned_to_trainer(c, cs, #[trigger] assignments@[i].1) by {
            let k = trainers@[i];
            assert(trainers@.contains(k));
            assert(trainers@.to_multiset().count(k) > 0);
            assert(unshuffled.contains(k));
            let u = choose|u: int| 0 <= u < unshuffled.len() && unshuffled[u] == k;
            assert(cs.committee_of(unshuffled[u] as nat) == Committee::Trainer);
            assert(c.epoch_state.clients[k as int].id == assignments@[i].1);
        }
    }
    assignments
}

/// `node` is the identity of a client that trains under the selection.
pub open spec fn assigned_to_trainer(c: CoordinatorView, cs: SelectionView, node: NodeId) -> bool {
    exists|k: nat| k < c.epoch_state.clients.len() && cs.committee_of(k) == Committee::Trainer
        && (#[trigger] c.epoch_state.clients[k as int]).id == node
}

/// Trainer indices are indices of trainers.
proof fn lemma_trainer_indices_are_trainers(cs: SelectionView, n: nat)
    requires
        n <= u64::MAX,
    ensures
        forall|k: int| 0 <= k < trainer_indices(cs, n).len()
            ==> cs.committee_of((#[trigger] trainer_indices(cs, n)[k]) as nat) == Committee::Trainer,
    decreases n,
{
    if n > 0 {
        lemma_trainer_indices_are_trainers(cs, (n - 1) as nat);
        let rest = trainer_indices(cs, (n - 1) as nat);
        assert forall|k: int| 0 <= k < trainer_indices(cs, n).len()
            implies cs.committee_of((#[trigger] trainer_indices(cs, n)[k]) as nat) == Committee::Trainer by {
            if k < rest.len() {
                assert(trainer_indices(cs, n)[k] == rest[k]);
            }
        }
    }
}

/// Trainer indices come in strictly ascending order.
proof fn lemma_trainer_indices_increasing(cs: SelectionView, n: nat)
    requires
        n <= u64::MAX,
    ensures
        forall|i: int, j: int| 0 <= i < j < trainer_indices(cs, n).len()
            ==> (#[trigger] trainer_indices(cs, n)[i]) < (#[trigger] trainer_indices(cs, n)[j]),
    decreases n,
{
    if n > 0 {
        lemma_trainer_indices_increasing(cs, (n - 1) as nat);
        lemma_trainer_indices_bound(cs, (n - 1) as nat);
        let rest = trainer_indices(cs, (n - 1) as nat);
        let t = trainer_indices(cs, n);
        if cs.committee_of((n - 1) as nat) == Committee::Trainer {
            assert(t == rest.push((n - 1) as u64));
            assert forall|i: int, j: int| 0 <= i < j < t.len() implies (#[trigger] t[i]) < (#[trigger] t[j]) by {
                assert(t[i] == rest[i]);
                if j < rest.len() {
                    assert(t[j] == rest[j]);
                } else {
                    assert(rest[i] < n - 1);
                }
            }
        } else {
            assert(t == rest);
        }
    }
}

/// Trainer indices are client indices.
proof fn lemma_trainer_indices_bound(cs: SelectionView, n: nat)
    ensures
        forall|k: int| 0 <= k < trainer_indices(cs, n).len() ==> (#[trigger] trainer_indices(cs, n)[k]) < n,
    decreases n,
{
    if n > 0 {
        lemma_trainer_indices_bound(cs, (n - 1) as nat);
        let rest = trainer_indices(cs, (n - 1) as nat);
        assert forall|k: int| 0 <= k < trainer_indices(cs, n).len() implies (#[trigger] trainer_indices(cs, n)[k]) < n by {
            if k < rest.len() {
                assert(trainer_indices(cs, n)[k] == rest[k]);
            }
        }
    }
}

/// Assigns the current round's data to its trainers: the trainers, shuffled by the
/// round's seed, take consecutive shares of the round's data.
pub fn assign_data_for_state(coordinator: &Coordinator, committee_selection: &CommitteeSelection) -> (assignments: Vec<(BatchId, NodeId)>)
    requires
        coordinator.epoch_state.rounds_head < 4,
        assignment_fits(coordinator@, coordinator@.cur(), committee_selection@),
    ensures
        assignments@ == assignment_for_round(coordinator@, coordinator@.cur(), committee_selection@),
        forall|i: int| 0 <= i < assignments@.len() ==> assigned_to_trainer(coordinator@, committee_selection@, #[trigger] assignments@[i].1),
        trainer_indices(committee_selection@, coordinator@.epoch_state.clients.len()).len() > 0 ==>
            trainer_order(coordinator@, coordinator@.cur(), committee_selection@).to_multiset()
                == trainer_indices(committee_selection@, coordinator@.epoch_state.clients.len()).to_multiset(),
        batches_ascending(assignment_keys(assignments@)),
        batches_sorted(assignment_keys(assignments@)),
        assignments@.len() == num_batches(target_batch_size(coordinator@), trainer_indices(committee_selection@, coordinator@.epoch_state.clients.len()).len()),
        forall|i: int, j: int| 0 <= i < j < assignments@.len()
            ==> (#[trigger] trainer_order(coordinator@, coordinator@.cur(), committee_selection@)[i]) != (#[trigger] trainer_order(coordinator@, coordinator@.cur(), committee_selection@)[j]),
{
    let round = coordinator.current_round_unchecked();
    assign_data_for_round(coordinator, round, committee_selection)
}

/// The batches of a round split among `num_trainer_nodes` trainers, in order.
pub fn get_batch_ids_for_round(round: &Round, coordinator: &Coordinator, num_trainer_nodes: u64) -> (ids: Vec<BatchId>)
    requires
        num_trainer_nodes > 0,
        round.data_index + target_batch_size(coordinator@) <= u64::MAX,
    ensures
        ids@ == batch_partition(round.data_index as nat, target_batch_size(coordinator@), num_trainer_nodes as nat),
{
    let total = coordinator.get_target_global_batch_size();
    partition_batches(round.data_index, total, num_trainer_nodes)
}

/// The batches assigned to `node_identity`, in the assignment's order. The
/// assignment is keyed in ascending batch order, as an ordered map is, so the
/// result is too; where its batches are also disjoint, so are the result's.
pub fn get_batch_ids_for_node(tree: &Vec<(BatchId, NodeId)>, node_identity: &NodeId) -> (ids: Vec<BatchId>)
    requires
        batches_sorted(assignment_keys(tree@)),
    ensures
        ids@ == batches_of(tree@, *node_identity),
        batches_sorted(ids@),
        batches_ascending(assignment_keys(tree@)) ==> batches_ascending(ids@),
{
    proof {
        lemma_batches_of_sorted(tree@, *node_identity);
        if batches_ascending(assignment_keys(tree@)) {
            lemma_batches_of_ascending(tree@, *node_identity);
        }
    }
    let mut ids: Vec<BatchId> = Vec::new();
    let mut i: usize = 0;
    while i < tree.len()
        invariant
            i <= tree@.len(),
            ids@ == batches_of(tree@.take(i as int), *node_identity),
        decreases tree@.len() - i,
    {
        let (batch, node) = tree[i];
        assert(tree@.take(i + 1).drop_last() =~= tree@.take(i as int));
        if crate::committee_selection::ids_equal(&node, node_identity) {
            ids.push(batch);
        }
        i += 1;
    }
    assert(tree@.take(tree@.len() as int) =~= tree@);
    ids
}

} // verus!
