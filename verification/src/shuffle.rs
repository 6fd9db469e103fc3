use vstd::prelude::*;
use rand::seq::SliceRandom;
use rand::SeedableRng;
use crate::hashing::{concat_bytes, sha256_pair, sha256_spec};

verus! {

/// Number of swap-or-not rounds applied by `compute_shuffled_index`.
pub const SHUFFLE_ROUND_COUNT: u8 = 90;

/// Little-endian value of a byte string.
pub open spec fn le_value(s: Seq<u8>) -> nat
    decreases s.len(),
{
    if s.len() == 0 {
        0
    } else {
        s[0] as nat + 256 * le_value(s.drop_first())
    }
}

/// Largest little-endian value representable in `k` bytes.
pub open spec fn le_max(k: nat) -> nat
    decreases k,
{
    if k == 0 {
        0
    } else {
        255 + 256 * le_max((k - 1) as nat)
    }
}

/// The four little-endian bytes of a `u32`.
pub open spec fn u32_le_bytes(x: u32) -> Seq<u8> {
    seq![
        (x & 0xff) as u8,
        ((x >> 8u32) & 0xff) as u8,
        ((x >> 16u32) & 0xff) as u8,
        ((x >> 24u32) & 0xff) as u8,
    ]
}

/// The pivot of round `round`: the first eight bytes of `sha256(seed ++ [round])`,
/// read little-endian, modulo `count`.
pub open spec fn round_pivot(seed: Seq<u8>, round: u8, count: nat) -> nat {
    le_value(sha256_spec(seed.push(round)).subrange(0, 8)) % count
}

/// The partner of `index` in a round with pivot `pivot`: `(pivot + count - index) % count`.
pub open spec fn flip_of(pivot: nat, index: nat, count: nat) -> nat {
    if pivot >= index {
        (pivot - index) as nat
    } else {
        (pivot + count - index) as nat
    }
}

/// The decision bit of a round for a position: bit `position % 8` of byte
/// `(position % 256) / 8` of `sha256(seed ++ [round] ++ le32(position / 256))`.
pub open spec fn round_bit(seed: Seq<u8>, round: u8, position: nat) -> bool {
    let block = ((position / 256) as u64) as u32;
    let source = sha256_spec(seed.push(round) + u32_le_bytes(block));
    let byte = source[((position % 256) / 8) as int];
    (byte >> ((position % 8) as u8)) % 2 == 1
}

/// One swap-or-not round: `index` moves to its partner when the bit of the larger
/// of the two says so.
pub open spec fn swap_or_not(index: nat, count: nat, seed: Seq<u8>, round: u8) -> nat {
    let flip = flip_of(round_pivot(seed, round, count), index, count);
    let position = if index >= flip { index } else { flip };
    if round_bit(seed, round, position) {
        flip
    } else {
        index
    }
}

/// The position of `index` after the first `rounds` rounds.
pub open spec fn shuffled_index(index: nat, count: nat, seed: Seq<u8>, rounds: nat) -> nat
    decreases rounds,
{
    if rounds == 0 {
        index
    } else {
        swap_or_not(
            shuffled_index(index, count, seed, (rounds - 1) as nat),
            count,
            seed,
            (rounds - 1) as u8,
        )
    }
}

/// The full shuffle: `SHUFFLE_ROUND_COUNT` rounds.
pub open spec fn shuffle_position(index: nat, count: nat, seed: Seq<u8>) -> nat {
    shuffled_index(index, count, seed, SHUFFLE_ROUND_COUNT as nat)
}

/// Eight bytes hold values up to `u64::MAX`.
pub(crate) proof fn lemma_le_max_eight()
    ensures
        le_max(8) == 0xffff_ffff_ffff_ffffnat,
{
    reveal_with_fuel(le_max, 9);
}

/// Reads the first eight bytes of a digest as a little-endian `u64`.
fn le_u64_prefix(h: &[u8; 32]) -> (v: u64)
    ensures
        v == le_value(h@.subrange(0, 8)),
{
    proof {
        lemma_le_max_eight();
    }
    let mut v: u64 = 0;
    let mut i: usize = 8;
    assert(h@.subrange(8, 8) =~= Seq::<u8>::empty());
    while i > 0
        invariant
            i <= 8,
            h@.len() == 32,
            v == le_value(h@.subrange(i as int, 8)),
            v <= le_max((8 - i) as nat),
            le_max(8) == 0xffff_ffff_ffff_ffffnat,
        decreases i,
    {
        i -= 1;
        assert(h@.subrange(i as int, 8).drop_first() =~= h@.subrange(i + 1, 8));
        assert(le_max((8 - i) as nat) == 255 + 256 * le_max((8 - i - 1) as nat));
        proof {
            if i > 0 {
                reveal_with_fuel(le_max, 2);
                lemma_le_max_monotone((8 - i) as nat, 8);
            }
        }
        v = h[i] as u64 + 256 * v;
    }
    v
}

/// More bytes hold larger values.
pub(crate) proof fn lemma_le_max_monotone(a: nat, b: nat)
    requires
        a <= b,
    ensures
        le_max(a) <= le_max(b),
    decreases b,
{
    if a < b {
        lemma_le_max_monotone(a, (b - 1) as nat);
    }
}

/// The four little-endian bytes of a `u32`.
fn u32_le(x: u32) -> (out: [u8; 4])
    ensures
        out@ == u32_le_bytes(x),
{
    let out = [
        (x & 0xff) as u8,
        ((x >> 8u32) & 0xff) as u8,
        ((x >> 16u32) & 0xff) as u8,
        ((x >> 24u32) & 0xff) as u8,
    ];
    assert(out@ =~= u32_le_bytes(x));
    out
}

/// Computes where `index` lands in a seeded permutation of `0..index_count`
/// (swap-or-not shuffle).
pub fn compute_shuffled_index(index: u64, index_count: u64, seed: &[u8; 32]) -> (r: u64)
    requires
        index < index_count,
    ensures
        r == shuffle_position(index as nat, index_count as nat, seed@),
        r < index_count,
{
    let mut cur = index;
    let mut round: u8 = 0;
    while round < SHUFFLE_ROUND_COUNT
        invariant
            round <= SHUFFLE_ROUND_COUNT,
            cur < index_count,
            cur == shuffled_index(index as nat, index_count as nat, seed@, round as nat),
        decreases SHUFFLE_ROUND_COUNT - round,
    {
        let round_bytes: [u8; 1] = [round];
        assert(seed@ + round_bytes@ =~= seed@.push(round));
        let pivot_hash = sha256_pair(seed, &round_bytes);
        let pivot = le_u64_prefix(&pivot_hash) % index_count;
        let flip = if pivot >= cur {
            pivot - cur
        } else {
            pivot + (index_count - cur)
        };
        let position = if cur >= flip {
            cur
        } else {
            flip
        };
        let block = (position / 256) as u32;
        let prefix = concat_bytes(seed, &round_bytes);
        let block_bytes = u32_le(block);
        let source = sha256_pair(prefix.as_slice(), &block_bytes);
        let byte = source[((position % 256) / 8) as usize];
        let bit = (byte >> ((position % 8) as u8)) % 2;
        if bit == 1 {
            cur = flip;
        }
        round += 1;
    }
    cur
}

/// `flip_of` pairs indices: the partner of the partner is the index itself.
proof fn lemma_flip_involution(pivot: nat, index: nat, count: nat)
    requires
        pivot < count,
        index < count,
    ensures
        flip_of(pivot, index, count) < count,
        flip_of(pivot, flip_of(pivot, index, count), count) == index,
{
}

/// Each swap-or-not round is an involution on `0..count`.
pub proof fn lemma_swap_or_not_involution(index: nat, count: nat, seed: Seq<u8>, round: u8)
    requires
        index < count,
    ensures
        swap_or_not(index, count, seed, round) < count,
        swap_or_not(swap_or_not(index, count, seed, round), count, seed, round) == index,
{
    let pivot = round_pivot(seed, round, count);
    lemma_flip_involution(pivot, index, count);
}

/// After any number of rounds an index of `0..count` stays in `0..count`.
pub proof fn lemma_shuffled_index_bound(index: nat, count: nat, seed: Seq<u8>, rounds: nat)
    requires
        index < count,
    ensures
        shuffled_index(index, count, seed, rounds) < count,
    decreases rounds,
{
    if rounds > 0 {
        lemma_shuffled_index_bound(index, count, seed, (rounds - 1) as nat);
        lemma_swap_or_not_involution(
            shuffled_index(index, count, seed, (rounds - 1) as nat),
            count,
            seed,
            (rounds - 1) as u8,
        );
    }
}

/// Distinct indices of `0..count` never land on the same position.
pub proof fn lemma_shuffled_index_injective(
    i: nat,
    j: nat,
    count: nat,
    seed: Seq<u8>,
    rounds: nat,
)
    requires
        i < count,
        j < count,
        shuffled_index(i, count, seed, rounds) == shuffled_index(j, count, seed, rounds),
    ensures
        i == j,
    decreases rounds,
{
    if rounds > 0 {
        let r = (rounds - 1) as nat;
        let a = shuffled_index(i, count, seed, r);
        let b = shuffled_index(j, count, seed, r);
        lemma_shuffled_index_bound(i, count, seed, r);
        lemma_shuffled_index_bound(j, count, seed, r);
        lemma_swap_or_not_involution(a, count, seed, r as u8);
        lemma_swap_or_not_involution(b, count, seed, r as u8);
        lemma_shuffled_index_injective(i, j, count, seed, r);
    }
}

/// Bit `k` of a byte, read by shifting, is the bit a one-hot mask selects.
proof fn lemma_shifted_bit(byte: u8, k: u8)
    requires
        k < 8,
    ensures
        ((byte >> k) % 2 == 1) <==> (byte & (1u8 << k) != 0),
{
    assert(((byte >> k) % 2 == 1) <==> (byte & (1u8 << k) != 0)) by (bit_vector)
        requires
            k < 8,
    ;
}

/// One round of the shuffle moves an index to its partner exactly when the round's
/// decision bit is set. The partner is `(pivot + count - index) % count`, with the
/// pivot the first eight bytes of `sha256(seed ++ [round])` read little-endian,
/// modulo `count`; the position is the larger of the index and its partner; the
/// bit is bit `position % 8`, counted from the least significant, of byte
/// `(position % 256) / 8` of `sha256(seed ++ [round] ++ le32(position / 256))`.
pub proof fn lemma_round_moves_on_set_bit(index: nat, count: nat, seed: Seq<u8>, round: u8)
    requires
        index < count,
    ensures
        ({
            let pivot = le_value(sha256_spec(seed.push(round)).subrange(0, 8)) % count;
            let partner: int = (pivot + count - index) % (count as int);
            let position: int = if index >= partner { index as int } else { partner };
            let digest = sha256_spec(seed.push(round) + u32_le_bytes(((position / 256) as u64) as u32));
            let byte: u8 = digest[(position % 256) / 8];
            swap_or_not(index, count, seed, round) as int
                == if byte & (1u8 << ((position % 8) as u8)) != 0 { partner } else { index as int }
        }),
{
    let pivot = round_pivot(seed, round, count);
    let partner: int = (pivot + count - index) % (count as int);
    let flip = flip_of(pivot, index, count);
    assert(pivot < count);
    if pivot >= index {
        assert((pivot + count - index) % (count as int) == pivot - index) by (nonlinear_arith)
            requires
                pivot >= index,
                pivot < count,
                index < count,
        ;
    } else {
        assert((pivot + count - index) % (count as int) == pivot + count - index) by (nonlinear_arith)
            requires
                pivot < index,
                index < count,
        ;
    }
    assert(flip as int == partner);
    let position: int = if index >= partner { index as int } else { partner };
    let digest = sha256_spec(seed.push(round) + u32_le_bytes(((position / 256) as u64) as u32));
    let byte: u8 = digest[(position % 256) / 8];
    lemma_shifted_bit(byte, (position % 8) as u8);
}

/// The seeded permutation that `deterministic_shuffle` applies to a sequence.
pub uninterp spec fn chacha_shuffle_spec(items: Seq<u64>, seed: u64) -> Seq<u64>;

/// Calls `rand::seq::SliceRandom::shuffle` on the vector with a
/// `rand_chacha::ChaCha8Rng` built by `SeedableRng::seed_from_u64(seed)`.
/// Claimed: the new contents are `chacha_shuffle_spec` of the old contents and the
/// seed (the generator is a pure function of the seed), and they are a permutation
/// of the old contents (the shuffle only swaps elements).
#[verifier::external_body]
pub(crate) fn deterministic_shuffle(items: &mut Vec<u64>, seed: u64)
    ensures
        final(items)@ == chacha_shuffle_spec(old(items)@, seed),
        final(items)@.to_multiset() == old(items)@.to_multiset(),
{
    let mut rng = rand_chacha::ChaCha8Rng::seed_from_u64(seed);
    items.as_mut_slice().shuffle(&mut rng);
}

/// The natural numbers below `n`.
pub open spec fn nat_range(n: nat) -> Set<nat> {
    Set::new(|i: nat| i < n)
}

/// `nat_range(n)` is finite with `n` elements.
pub proof fn lemma_nat_range(n: nat)
    ensures
        nat_range(n).finite(),
        nat_range(n).len() == n,
    decreases n,
{
    if n == 0 {
        assert(nat_range(n) =~= Set::empty());
    } else {
        lemma_nat_range((n - 1) as nat);
        assert(nat_range((n - 1) as nat).insert((n - 1) as nat) =~= nat_range(n));
    }
}

/// The indices of `0..count` that the shuffle sends below `k`.
pub open spec fn shuffled_below(count: nat, seed: Seq<u8>, k: nat) -> Set<nat> {
    Set::new(|i: nat| i < count && shuffle_position(i, count, seed) < k)
}

/// The shuffle is a permutation of `0..count`: for every `k <= count`, exactly `k`
/// indices land on positions below `k`.
pub proof fn lemma_shuffle_counts(count: nat, seed: Seq<u8>, k: nat)
    requires
        k <= count,
    ensures
        shuffled_below(count, seed, k).finite(),
        shuffled_below(count, seed, k).len() == k,
{
    let f = |i: nat| shuffle_position(i, count, seed);
    let all = nat_range(count);
    lemma_nat_range(count);
    lemma_nat_range(k);
    assert forall|i: nat, j: nat| all.contains(i) && all.contains(j) && #[trigger] f(i) == #[trigger] f(j)
        implies i == j by {
        lemma_shuffled_index_injective(i, j, count, seed, SHUFFLE_ROUND_COUNT as nat);
    }
    assert(vstd::relations::injective_on(f, all));
    let image = all.map(f);
    vstd::set_lib::lemma_map_size(all, image, f);
    assert forall|j: nat| image.contains(j) implies all.contains(j) by {
        let i = choose|i: nat| all.contains(i) && f(i) == j;
        lemma_shuffled_index_bound(i, count, seed, SHUFFLE_ROUND_COUNT as nat);
    }
    vstd::set_lib::lemma_subset_equality(image, all);
    let below = shuffled_below(count, seed, k);
    assert(below.subset_of(all));
    vstd::set_lib::lemma_len_subset(below, all);
    let target = nat_range(k);
    assert forall|j: nat| #[trigger] target.contains(j) implies below.map(f).contains(j) by {
        assert(image.contains(j));
        let i = choose|i: nat| all.contains(i) && f(i) == j;
        assert(below.contains(i));
    }
    assert(below.map(f) =~= target);
    vstd::set_lib::lemma_map_size(below, target, f);
}

} // verus!
