use vstd::prelude::*;
use crate::shuffle::le_value;

verus! {

/// Number of 64-bit words of a witness bloom filter.
pub const BLOOM_WORDS: usize = 16;

/// Largest number of hash keys of a witness bloom filter.
pub const BLOOM_MAX_KEYS: usize = 8;

/// Largest number of bits of a witness bloom filter.
pub const BLOOM_MAX_BITS: u64 = 1024;

/// A fixed-capacity bloom filter over 32-byte digests: `num_bits` bits stored in
/// `BLOOM_WORDS` words, probed once per key.
#[derive(Clone, Copy, Debug)]
pub struct Bloom {
    pub bits: [u64; 16],
    pub keys: [u64; 8],
    pub num_keys: u8,
    pub num_bits: u64,
}

/// The 64-bit word of a digest that the filter hashes: its first eight bytes,
/// little-endian.
pub open spec fn digest_word(item: Seq<u8>) -> u64 {
    le_value(item.subrange(0, 8)) as u64
}

/// The bit that key `key` probes for `item` in a filter of `num_bits` bits.
pub open spec fn probe_index(item: Seq<u8>, key: u64, num_bits: u64) -> nat {
    ((digest_word(item) ^ key) % num_bits) as nat
}

/// Whether bit `b` is set in the words.
pub open spec fn bit_set(words: Seq<u64>, b: nat) -> bool {
    (words[(b / 64) as int] >> ((b % 64) as u64)) & 1u64 == 1u64
}

impl Bloom {
    /// The shape every filter keeps.
    pub open spec fn wf(self) -> bool {
        &&& self.num_bits <= BLOOM_MAX_BITS
        &&& self.num_keys as usize <= BLOOM_MAX_KEYS
        &&& (self.num_keys > 0 ==> self.num_bits > 0)
    }

    /// Every word of bits and every key is zero, and the filter has no bits and no
    /// keys.
    pub open spec fn all_zero(self) -> bool {
        &&& forall|i: int| 0 <= i < 16 ==> #[trigger] self.bits[i] == 0
        &&& forall|i: int| 0 <= i < 8 ==> #[trigger] self.keys[i] == 0
        &&& self.num_keys == 0
        &&& self.num_bits == 0
    }

    /// The all-zero filter: no bits and no keys, so it reports every item present.
    pub fn zeroed() -> (bloom: Bloom)
        ensures
            bloom.all_zero(),
            bloom.wf(),
            bloom.num_bits == 0,
            bloom.num_keys == 0,
            forall|item: Seq<u8>| #[trigger] bloom.spec_contains(item),
    {
        Bloom { bits: [0u64; 16], keys: [0u64; 8], num_keys: 0, num_bits: 0 }
    }

    /// Bit `b` of the filter is set.
    pub open spec fn has_bit(self, b: nat) -> bool {
        bit_set(self.bits@, b)
    }

    /// The filter reports `item` as present: every key's probe hits a set bit.
    pub open spec fn spec_contains(self, item: Seq<u8>) -> bool {
        forall|k: int|
            0 <= k < self.num_keys ==> #[trigger] self.has_bit(
                probe_index(item, self.keys@[k], self.num_bits),
            )
    }

    /// `b` is one of the bits that `item` probes.
    pub open spec fn probes(self, item: Seq<u8>, b: nat) -> bool {
        exists|k: int| 0 <= k < self.num_keys && probe_index(item, self.keys@[k], self.num_bits) == b
    }

    /// `after` is this filter with `item` added: the same shape, and below `num_bits`
    /// exactly the bits set here and the bits that `item` probes.
    pub open spec fn adds(self, item: Seq<u8>, after: Bloom) -> bool {
        &&& after.keys == self.keys
        &&& after.num_keys == self.num_keys
        &&& after.num_bits == self.num_bits
        &&& forall|b: nat| b < self.num_bits ==> (#[trigger] after.has_bit(b) <==> (self.has_bit(b) || self.probes(item, b)))
    }

    /// An empty filter of `num_bits` bits probed with the given keys.
    pub fn with_keys(num_bits: u64, keys: [u64; 8], num_keys: u8) -> (bloom: Bloom)
        requires
            0 < num_bits <= BLOOM_MAX_BITS,
            num_keys as usize <= BLOOM_MAX_KEYS,
        ensures
            bloom.wf(),
            bloom.num_bits == num_bits,
            bloom.keys == keys,
            bloom.num_keys == num_keys,
            forall|b: nat| b < num_bits ==> !#[trigger] bloom.has_bit(b),
    {
        let bits = [0u64; 16];
        let bloom = Bloom { bits, keys, num_keys, num_bits };
        assert forall|b: nat| b < num_bits implies !#[trigger] bloom.has_bit(b) by {
            let w = bloom.bits@[(b / 64) as int];
            assert(w == 0u64);
            let s = (b % 64) as u64;
            assert((0u64 >> s) & 1u64 == 0u64) by (bit_vector);
        }
        bloom
    }

    /// Reads the first eight bytes of a digest as a little-endian word.
    fn word_of(item: &[u8; 32]) -> (w: u64)
        ensures
            w == digest_word(item@),
    {
        let mut v: u64 = 0;
        let mut i: usize = 8;
        assert(item@.subrange(8, 8) =~= Seq::<u8>::empty());
        proof {
            crate::shuffle::lemma_le_max_eight();
        }
        while i > 0
            invariant
                i <= 8,
                item@.len() == 32,
                v == le_value(item@.subrange(i as int, 8)),
                v <= crate::shuffle::le_max((8 - i) as nat),
                crate::shuffle::le_max(8) == 0xffff_ffff_ffff_ffffnat,
            decreases i,
        {
            i -= 1;
            assert(item@.subrange(i as int, 8).drop_first() =~= item@.subrange(i + 1, 8));
            proof {
                reveal_with_fuel(crate::shuffle::le_max, 2);
                crate::shuffle::lemma_le_max_monotone((8 - i) as nat, 8);
            }
            v = item[i] as u64 + 256 * v;
        }
        v
    }

    /// Tests whether bit `b` is set.
    fn test_bit(&self, b: u64) -> (r: bool)
        requires
            self.wf(),
            b < self.num_bits,
        ensures
            r == self.has_bit(b as nat),
    {
        let w = self.bits[(b / 64) as usize];
        (w >> (b % 64)) & 1 == 1
    }

    /// Reports whether `item` may have been added: true for every added item, and
    /// false for an item whose probes miss.
    pub fn contains(&self, item: &[u8; 32]) -> (r: bool)
        requires
            self.wf(),
        ensures
            r == self.spec_contains(item@),
    {
        let word = Self::word_of(item);
        let mut k: u8 = 0;
        while k < self.num_keys
            invariant
                self.wf(),
                k <= self.num_keys,
                word == digest_word(item@),
                forall|j: int|
                    0 <= j < k ==> #[trigger] self.has_bit(
                        probe_index(item@, self.keys@[j], self.num_bits),
                    ),
            decreases self.num_keys - k,
        {
            let b = (word ^ self.keys[k as usize]) % self.num_bits;
            assert(b as nat == probe_index(item@, self.keys@[k as int], self.num_bits));
            if !self.test_bit(b) {
                return false;
            }
            k += 1;
        }
        true
    }

    /// Sets bit `b`, leaving every other bit as it was.
    fn set_bit(&mut self, b: u64)
        requires
            old(self).wf(),
            b < old(self).num_bits,
        ensures
            final(self).wf(),
            final(self).keys == old(self).keys,
            final(self).num_keys == old(self).num_keys,
            final(self).num_bits == old(self).num_bits,
            final(self).has_bit(b as nat),
            forall|c: nat|
                c < old(self).num_bits && c != b ==> #[trigger] final(self).has_bit(c) == old(self).has_bit(c),
    {
        let wi = (b / 64) as usize;
        let s = b % 64;
        let w = self.bits[wi];
        let nw = w | (1u64 << s);
        self.bits[wi] = nw;
        assert(((w | (1u64 << s)) >> s) & 1u64 == 1u64) by (bit_vector)
            requires
                s < 64,
        ;
        assert forall|c: nat| c < old(self).num_bits && c != b implies #[trigger] self.has_bit(c) == old(self).has_bit(c) by {
            if (c / 64) as int == wi as int {
                let t = (c % 64) as u64;
                vstd::arithmetic::div_mod::lemma_fundamental_div_mod(c as int, 64);
                vstd::arithmetic::div_mod::lemma_fundamental_div_mod(b as int, 64);
                assert(t != s);
                assert(((w | (1u64 << s)) >> t) & 1u64 == (w >> t) & 1u64) by (bit_vector)
                    requires
                        s < 64,
                        t < 64,
                        t != s,
                ;
            }
        }
    }

    /// Adds `item`: afterwards the filter contains it, and everything it contained
    /// before.
    pub fn add(&mut self, item: &[u8; 32])
        requires
            old(self).wf(),
        ensures
            final(self).wf(),
            final(self).keys == old(self).keys,
            final(self).num_keys == old(self).num_keys,
            final(self).num_bits == old(self).num_bits,
            final(self).spec_contains(item@),
            forall|b: nat| b < old(self).num_bits && #[trigger] old(self).has_bit(b) ==> final(self).has_bit(b),
            old(self).adds(item@, *final(self)),
    {
        let word = Self::word_of(item);
        let mut k: u8 = 0;
        let ghost start = *self;
        while k < self.num_keys
            invariant
                self.wf(),
                k <= self.num_keys,
                self.keys == start.keys,
                self.num_keys == start.num_keys,
                self.num_bits == start.num_bits,
                word == digest_word(item@),
                forall|j: int|
                    0 <= j < k ==> #[trigger] self.has_bit(
                        probe_index(item@, self.keys@[j], self.num_bits),
                    ),
                forall|b: nat| b < start.num_bits && #[trigger] start.has_bit(b) ==> self.has_bit(b),
                forall|c: nat| c < start.num_bits ==> (#[trigger] self.has_bit(c) <==> (start.has_bit(c)
                    || exists|j: int| 0 <= j < k && probe_index(item@, start.keys@[j], start.num_bits) == c)),
            decreases self.num_keys - k,
        {
            let b = (word ^ self.keys[k as usize]) % self.num_bits;
            assert(b as nat == probe_index(item@, self.keys@[k as int], self.num_bits));
            let ghost before = *self;
            self.set_bit(b);
            assert forall|c: nat| c < start.num_bits implies (#[trigger] self.has_bit(c) <==> (start.has_bit(c)
                || exists|j: int| 0 <= j < k + 1 && probe_index(item@, start.keys@[j], start.num_bits) == c)) by {
                if c == b as nat {
                    assert(probe_index(item@, start.keys@[k as int], start.num_bits) == c);
                } else {
                    assert(before.has_bit(c) == self.has_bit(c));
                    if exists|j: int| 0 <= j < k + 1 && probe_index(item@, start.keys@[j], start.num_bits) == c {
                        let j = choose|j: int| 0 <= j < k + 1 && probe_index(item@, start.keys@[j], start.num_bits) == c;
                        assert(j != k);
                    }
                }
            }
            assert forall|j: int| 0 <= j < k + 1 implies #[trigger] self.has_bit(
                probe_index(item@, self.keys@[j], self.num_bits),
            ) by {
                if j < k {
                    assert(before.has_bit(probe_index(item@, before.keys@[j], before.num_bits)));
                }
            }
            assert forall|c: nat| c < start.num_bits && #[trigger] start.has_bit(c) implies self.has_bit(c) by {
                assert(before.has_bit(c));
            }
            k += 1;
        }
    }
}

/// Adding an item never removes another: whatever the filter reported present
/// before an `add` it still reports present after it.
pub proof fn lemma_contains_preserved_by_add(before: Bloom, after: Bloom, item: Seq<u8>)
    requires
        before.wf(),
        before.keys == after.keys,
        before.num_keys == after.num_keys,
        before.num_bits == after.num_bits,
        forall|b: nat| b < before.num_bits && #[trigger] before.has_bit(b) ==> after.has_bit(b),
        before.spec_contains(item),
    ensures
        after.spec_contains(item),
{
    assert forall|k: int| 0 <= k < after.num_keys implies #[trigger] after.has_bit(
        probe_index(item, after.keys@[k], after.num_bits),
    ) by {
        assert(before.has_bit(probe_index(item, before.keys@[k], before.num_bits)));
        assert(probe_index(item, before.keys@[k], before.num_bits) < before.num_bits);
    }
}

} // verus!
