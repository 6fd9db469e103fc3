use vstd::prelude::*;
use rand::seq::SliceRandom;
use rand_chacha::rand_core::SeedableRng;

verus! {

/// Where a training sequence starts: a file and a byte offset in it.
#[derive(Clone, Copy, Debug, PartialEq, Eq, Structural)]
pub struct SequencePointer {
    pub file_index: usize,
    pub byte_offset: usize,
}

/// How many sequences start in a file: one every `step` bytes strictly below
/// `limit` (the file's length less one sequence).
pub open spec fn num_sequences(limit: nat, step: nat) -> nat {
    if limit == 0 {
        0
    } else {
        ((limit - 1) as nat / step + 1) as nat
    }
}

/// The sequences of file `f`, which is `len` bytes long, for sequences of `step`
/// bytes: one at every multiple of `step` below `len - step`.
pub open spec fn file_sequences(f: nat, len: nat, step: nat) -> Seq<SequencePointer> {
    Seq::new(
        num_sequences((len - step) as nat, step),
        |k: int| SequencePointer { file_index: f as usize, byte_offset: (k * step) as usize },
    )
}

/// The sequences of all files, file by file.
pub open spec fn all_sequences(lens: Seq<usize>, step: nat) -> Seq<SequencePointer>
    decreases lens.len(),
{
    if lens.len() == 0 {
        Seq::empty()
    } else {
        all_sequences(lens.drop_last(), step) + file_sequences((lens.len() - 1) as nat, lens.last() as nat, step)
    }
}

proof fn lemma_count_sequences(limit: nat, step: nat, k: nat)
    requires
        step > 0,
        k * step >= limit,
        k == 0 || (k - 1) * step < limit,
    ensures
        k == num_sequences(limit, step),
{
    if limit > 0 {
        assert(k > 0) by (nonlinear_arith)
            requires
                k * step >= limit,
                limit > 0,
        ;
        vstd::arithmetic::div_mod::lemma_fundamental_div_mod((limit - 1) as int, step as int);
        let q = (limit - 1) as nat / step;
        let r = (limit - 1) as nat % step;
        assert(q == k - 1) by (nonlinear_arith)
            requires
                limit - 1 == step * q + r,
                0 <= r < step,
                (k - 1) * step <= limit - 1,
                k * step >= limit,
                k >= 1,
                step > 0,
        ;
    }
}

/// Lists where every sequence of every file starts, file by file: in each file one
/// every `seq_len_in_bytes` bytes, strictly below its length less one sequence.
/// Every file must hold at least one sequence's worth of bytes.
pub fn sequence_pointers(file_lens: &[usize], seq_len_in_bytes: usize) -> (out: Vec<SequencePointer>)
    requires
        seq_len_in_bytes > 0,
        forall|i: int| 0 <= i < file_lens@.len() ==> (#[trigger] file_lens@[i]) >= seq_len_in_bytes,
    ensures
        out@ == all_sequences(file_lens@, seq_len_in_bytes as nat),
{
    let mut out: Vec<SequencePointer> = Vec::new();
    let mut f: usize = 0;
    while f < file_lens.len()
        invariant
            f <= file_lens@.len(),
            seq_len_in_bytes > 0,
            forall|i: int| 0 <= i < file_lens@.len() ==> (#[trigger] file_lens@[i]) >= seq_len_in_bytes,
            out@ == all_sequences(file_lens@.take(f as int), seq_len_in_bytes as nat),
        decreases file_lens@.len() - f,
    {
        let limit = file_lens[f] - seq_len_in_bytes;
        let ghost before = out@;
        let mut off: usize = 0;
        let ghost mut k: nat = 0;
        while off < limit
            invariant
                off == k * seq_len_in_bytes,
                off < limit + seq_len_in_bytes,
                f < file_lens@.len(),
                limit == file_lens@[f as int] - seq_len_in_bytes,
                (k == 0 || (k - 1) * seq_len_in_bytes < limit),
                seq_len_in_bytes > 0,
                out@ == before + Seq::new(
                    k,
                    |j: int| SequencePointer { file_index: f, byte_offset: (j * seq_len_in_bytes) as usize },
                ),
            decreases limit + seq_len_in_bytes - off,
        {
            out.push(SequencePointer { file_index: f, byte_offset: off });
            proof {
                assert(out@ =~= before + Seq::new(
                    k + 1,
                    |j: int| SequencePointer { file_index: f, byte_offset: (j * seq_len_in_bytes) as usize },
                ));
                assert((k + 1) * seq_len_in_bytes == k * seq_len_in_bytes + seq_len_in_bytes) by (nonlinear_arith);
                k = k + 1;
            }
            off = off + seq_len_in_bytes;
        }
        proof {
            lemma_count_sequences(limit as nat, seq_len_in_bytes as nat, k);
            assert(file_lens@.take(f + 1).drop_last() =~= file_lens@.take(f as int));
            assert(out@ =~= all_sequences(file_lens@.take(f + 1), seq_len_in_bytes as nat));
        }
        f += 1;
    }
    assert(file_lens@.take(file_lens@.len() as int) =~= file_lens@);
    out
}

/// The seeded permutation that shuffling a vector with a ChaCha8 generator seeded
/// from `seed` applies to it.
pub uninterp spec fn chacha_seeded_shuffle_spec(items: Seq<u64>, seed: Seq<u8>) -> Seq<u64>;

/// Calls `rand::seq::SliceRandom::shuffle` on the vector with a
/// `rand_chacha::ChaCha8Rng` built by `SeedableRng::from_seed(seed)`. Claimed: the
/// new contents are `chacha_seeded_shuffle_spec` of the old contents and the seed
/// (the generator is a pure function of the seed), and a permutation of the old
/// contents (the shuffle only swaps elements).
#[verifier::external_body]
fn seeded_shuffle(items: &mut Vec<u64>, seed: [u8; 32])
    ensures
        final(items)@ == chacha_seeded_shuffle_spec(old(items)@, seed@),
        final(items)@.to_multiset() == old(items)@.to_multiset(),
{
    let mut rng = rand_chacha::ChaCha8Rng::from_seed(seed);
    items.as_mut_slice().shuffle(&mut rng);
}

/// The indices `0..n`.
pub open spec fn identity_order(n: nat) -> Seq<u64> {
    Seq::new(n, |i: int| i as u64)
}

/// Reading a sequence through an ordering of its positions keeps its elements.
proof fn lemma_reorder_multiset<A>(s: Seq<A>, p: Seq<u64>)
    requires
        s.len() <= u64::MAX,
        p.to_multiset() == identity_order(s.len()).to_multiset(),
    ensures
        p.len() == s.len(),
        Seq::new(p.len(), |i: int| s[p[i] as int]).to_multiset() == s.to_multiset(),
    decreases s.len(),
{
    broadcast use vstd::seq_lib::to_multiset_len, vstd::seq_lib::to_multiset_contains,
        vstd::seq_lib::to_multiset_build, vstd::seq_lib::to_multiset_remove,
        vstd::multiset::group_multiset_axioms;
    let n = s.len();
    assert(p.to_multiset().len() == identity_order(n).to_multiset().len());
    let out = Seq::new(p.len(), |i: int| s[p[i] as int]);
    if n == 0 {
        assert(out =~= Seq::<A>::empty());
        assert(s =~= Seq::<A>::empty());
    } else {
        let m = (n - 1) as nat;
        assert(identity_order(n) =~= identity_order(m).push(m as u64));
        assert(identity_order(n).to_multiset() == identity_order(m).to_multiset().insert(m as u64));
        assert(p.to_multiset().count(m as u64) > 0);
        assert(p.contains(m as u64));
        let k = choose|k: int| 0 <= k < p.len() && p[k] == m as u64;
        let q = p.remove(k);
        assert(q.to_multiset() == p.to_multiset().remove(m as u64));
        assert(q.to_multiset() =~= identity_order(m).to_multiset());
        let t = s.drop_last();
        assert forall|i: int| 0 <= i < q.len() implies (#[trigger] q[i]) < m by {
            assert(q.contains(q[i]));
            assert(identity_order(m).to_multiset().count(q[i]) > 0);
            assert(identity_order(m).contains(q[i]));
        }
        lemma_reorder_multiset(t, q);
        let inner = Seq::new(q.len(), |i: int| t[q[i] as int]);
        assert(out.remove(k) =~= inner);
        assert(out.remove(k).to_multiset() == out.to_multiset().remove(out[k]));
        assert(out[k] == s.last());
        assert(s =~= t.push(s.last()));
        assert(out.to_multiset().count(s.last()) > 0) by {
            assert(out.contains(out[k]));
        }
        assert(out.to_multiset() =~= s.to_multiset());
    }
}

/// The sequences in the order that the seeded shuffle of their positions gives.
pub open spec fn shuffled_sequences(seqs: Seq<SequencePointer>, seed: Seq<u8>) -> Seq<SequencePointer> {
    let order = chacha_seeded_shuffle_spec(identity_order(seqs.len()), seed);
    Seq::new(order.len(), |i: int| seqs[order[i] as int])
}

/// Shuffles the sequences with a generator seeded from `seed`, so that no file
/// biases the order; the result holds the same sequences.
pub fn shuffle_sequences(seqs: Vec<SequencePointer>, seed: [u8; 32]) -> (out: Vec<SequencePointer>)
    requires
        seqs@.len() <= u64::MAX,
    ensures
        out@ == shuffled_sequences(seqs@, seed@),
        out@.len() == seqs@.len(),
        out@.to_multiset() == seqs@.to_multiset(),
{
    let n = seqs.len();
    let mut order: Vec<u64> = Vec::new();
    let mut i: usize = 0;
    while i < n
        invariant
            i <= n == seqs@.len() <= u64::MAX,
            order@ == identity_order(i as nat),
        decreases n - i,
    {
        order.push(i as u64);
        i += 1;
        assert(order@ =~= identity_order(i as nat));
    }
    let ghost unshuffled = order@;
    seeded_shuffle(&mut order, seed);
    proof {
        broadcast use vstd::seq_lib::to_multiset_contains, vstd::seq_lib::to_multiset_len;
        assert forall|k: int| 0 <= k < order@.len() implies (#[trigger] order@[k]) < n by {
            assert(order@.contains(order@[k]));
            assert(order@.to_multiset().count(order@[k]) > 0);
            assert(unshuffled.contains(order@[k]));
        }
        assert(order@.to_multiset().len() == unshuffled.to_multiset().len());
    }
    let mut out: Vec<SequencePointer> = Vec::new();
    let mut j: usize = 0;
    while j < order.len()
        invariant
            j <= order@.len(),
            n == seqs@.len(),
            forall|k: int| 0 <= k < order@.len() ==> (#[trigger] order@[k]) < n,
            out@ == Seq::new(j as nat, |k: int| seqs@[order@[k] as int]),
        decreases order@.len() - j,
    {
        let idx = order[j];
        assert(idx < n);
        out.push(seqs[idx as usize]);
        j += 1;
        assert(out@ =~= Seq::new(j as nat, |k: int| seqs@[order@[k] as int]));
    }
    proof {
        lemma_reorder_multiset(seqs@, order@);
    }
    out
}

/// Why a sample cannot be read.
#[derive(Clone, Copy, Debug, PartialEq, Eq, Structural)]
pub enum DataError {
    /// The sample id is not below the number of samples.
    OutOfBounds { data_id: usize, len: usize },
}

/// Where sample `data_id` lies: its file and the byte range of its sequence plus
/// one token, which pretraining reads as the last target.
pub open spec fn sample_range_spec(
    seqs: Seq<SequencePointer>,
    seq_len: nat,
    token_size: nat,
    data_id: nat,
) -> Result<(usize, usize, usize), DataError> {
    if data_id >= seqs.len() {
        Err(DataError::OutOfBounds { data_id: data_id as usize, len: seqs.len() as usize })
    } else {
        let p = seqs[data_id as int];
        Ok((p.file_index, p.byte_offset, (p.byte_offset + token_size * (seq_len + 1)) as usize))
    }
}

/// Finds the bytes of sample `data_id`: its file and the byte range to read.
pub fn sample_range(seqs: &Vec<SequencePointer>, seq_len: usize, token_size_in_bytes: usize, data_id: usize) -> (r: Result<(usize, usize, usize), DataError>)
    requires
        forall|i: int| 0 <= i < seqs@.len() ==> (#[trigger] seqs@[i]).byte_offset + token_size_in_bytes * (seq_len + 1) <= usize::MAX,
    ensures
        r == sample_range_spec(seqs@, seq_len as nat, token_size_in_bytes as nat, data_id as nat),
{
    if data_id >= seqs.len() {
        return Err(DataError::OutOfBounds { data_id, len: seqs.len() });
    }
    let p = seqs[data_id];
    assert(p.byte_offset + token_size_in_bytes * (seq_len + 1) <= usize::MAX);
    assert(token_size_in_bytes * (seq_len + 1) <= usize::MAX) by (nonlinear_arith)
        requires
            p.byte_offset + token_size_in_bytes * (seq_len + 1) <= usize::MAX,
            p.byte_offset >= 0,
    ;
    assert(seq_len + 1 <= usize::MAX || token_size_in_bytes == 0) by (nonlinear_arith)
        requires
            token_size_in_bytes * (seq_len + 1) <= usize::MAX,
    ;
    let data_len = if token_size_in_bytes == 0 {
        0
    } else {
        token_size_in_bytes * (seq_len + 1)
    };
    Ok((p.file_index, p.byte_offset, p.byte_offset + data_len))
}

} // verus!
