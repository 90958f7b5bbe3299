//! The register array of a sketch as a sequence of buckets, and the rule by
//! which a hash value and another array improve it.
//!
//! A bucket holds a rank and a signature. The rank is the greatest rank of
//! the hash values that were routed to the bucket, the signature the least
//! of their signatures. A bucket that nothing was routed to has rank zero
//! and the greatest signature there is. Absorbing a hash value and merging
//! two arrays improve a bucket by one and the same rule.

use vstd::prelude::*;
use vstd::arithmetic::power2::{pow2, lemma_pow2_unfold, lemma2_to64, lemma2_to64_rest};

verus! {

/// Number of buckets of every sketch.
pub const BUCKETS: usize = 16384;

/// One more than the greatest signature.
pub const SIGNATURES: u16 = 1024;

/// The signature of a bucket that nothing was routed to: the greatest.
pub const EMPTY_SIGNATURE: u16 = 1023;

/// The greatest rank a hash value can have.
pub const MAX_RANK: u8 = 51;

/// One more than the greatest rank that a bucket can hold.
pub const RANKS: u8 = 64;

/// One cell of the register array.
#[derive(Clone, Copy, Debug, PartialEq, Eq, Structural)]
pub struct Bucket {
    /// The greatest rank that was routed to this bucket; zero if none was.
    pub rank: u8,
    /// The least signature that was routed to this bucket.
    pub min_signature: u16,
}

/// Number of binary digits of `v`; zero has none.
pub open spec fn bit_length(v: nat) -> nat
    decreases v,
{
    if v == 0 {
        0
    } else {
        1 + bit_length(v / 2)
    }
}

/// The lower 64 bits of a hash value.
pub open spec fn low_half(h: u128) -> int {
    h as int % 0x1_0000_0000_0000_0000
}

/// The upper 64 bits of a hash value.
pub open spec fn high_half(h: u128) -> int {
    h as int / 0x1_0000_0000_0000_0000
}

/// The bucket a hash value is routed to: the top 14 bits of its lower half.
pub open spec fn bucket_of(h: u128) -> int {
    low_half(h) / 0x4_0000_0000_0000
}

/// What is left of the lower half once the bucket bits are taken: 50 bits.
pub open spec fn remainder_of(h: u128) -> int {
    low_half(h) % 0x4_0000_0000_0000
}

/// The rank of a hash value: one more than the number of leading zero bits of
/// its 50-bit remainder. It lies between 1 and 51.
pub open spec fn rank_of(h: u128) -> int {
    51 - bit_length(remainder_of(h) as nat)
}

/// The signature of a hash value: the lowest ten bits of its upper half.
pub open spec fn signature_of(h: u128) -> int {
    high_half(h) % 1024
}

/// What a hash value offers to its bucket: its rank and its signature.
pub open spec fn offer_of(h: u128) -> Bucket {
    Bucket { rank: rank_of(h) as u8, min_signature: signature_of(h) as u16 }
}

/// The bucket that nothing was routed to.
pub open spec fn empty_bucket() -> Bucket {
    Bucket { rank: 0, min_signature: EMPTY_SIGNATURE }
}

/// The update rule: the greater of the two ranks and the lesser of the two
/// signatures.
pub open spec fn joined(x: Bucket, y: Bucket) -> Bucket {
    Bucket {
        rank: if x.rank >= y.rank {
            x.rank
        } else {
            y.rank
        },
        min_signature: if x.min_signature <= y.min_signature {
            x.min_signature
        } else {
            y.min_signature
        },
    }
}

/// Whether rank and signature of a bucket fit the six and ten bits that a
/// record has for them.
pub open spec fn in_range(bucket: Bucket) -> bool {
    bucket.rank < RANKS && bucket.min_signature < SIGNATURES
}

/// Whether a sequence of buckets is the register array of a sketch: 16384
/// buckets, each in range.
pub open spec fn well_formed(registers: Seq<Bucket>) -> bool {
    &&& registers.len() == BUCKETS
    &&& forall|i: int| 0 <= i < registers.len() ==> in_range(#[trigger] registers[i])
}

/// The register array of a sketch that has absorbed nothing.
pub open spec fn empty_registers() -> Seq<Bucket> {
    Seq::new(BUCKETS as nat, |i: int| empty_bucket())
}

/// The register array after `h` was absorbed: the bucket of `h` is joined
/// with what `h` offers, every other bucket stays as it is.
pub open spec fn absorbed(registers: Seq<Bucket>, h: u128) -> Seq<Bucket> {
    registers.update(bucket_of(h), joined(registers[bucket_of(h)], offer_of(h)))
}

/// The register array after each hash value of `hashes` was absorbed in turn.
pub open spec fn absorbed_all(registers: Seq<Bucket>, hashes: Seq<u128>) -> Seq<Bucket>
    decreases hashes.len(),
{
    if hashes.len() == 0 {
        registers
    } else {
        absorbed(absorbed_all(registers, hashes.drop_last()), hashes.last())
    }
}

/// The union of two register arrays: bucket by bucket the join of the two.
pub open spec fn merged(a: Seq<Bucket>, b: Seq<Bucket>) -> Seq<Bucket> {
    Seq::new(a.len(), |i: int| joined(a[i], b[i]))
}

impl Bucket {
    /// The bucket that nothing was routed to.
    pub fn empty() -> (bucket: Bucket)
        ensures
            bucket == empty_bucket(),
    {
        Bucket { rank: 0, min_signature: EMPTY_SIGNATURE }
    }

    /// Whether nothing was routed to this bucket.
    pub fn is_empty(&self) -> (empty: bool)
        ensures
            empty == (*self == empty_bucket()),
    {
        self.rank == 0 && self.min_signature == EMPTY_SIGNATURE
    }

    /// This bucket improved by another: the greater rank and the lesser
    /// signature.
    pub fn join(&self, other: &Bucket) -> (bucket: Bucket)
        ensures
            bucket == joined(*self, *other),
    {
        Bucket {
            rank: if self.rank >= other.rank {
                self.rank
            } else {
                other.rank
            },
            min_signature: if self.min_signature <= other.min_signature {
                self.min_signature
            } else {
                other.min_signature
            },
        }
    }
}

/// The values that a hash value contributes to a sketch.
#[derive(Clone, Copy, Debug, PartialEq, Eq, Structural)]
pub struct HashParts {
    /// Index of the bucket that the hash value is routed to.
    pub bucket: usize,
    /// Rank of the hash value.
    pub rank: u8,
    /// Signature of the hash value.
    pub signature: u16,
}

impl HashParts {
    /// What these parts offer to their bucket.
    pub open spec fn offered(self) -> Bucket {
        Bucket { rank: self.rank, min_signature: self.signature }
    }

    /// What these parts offer to their bucket.
    pub fn offer(&self) -> (bucket: Bucket)
        ensures
            bucket == self.offered(),
    {
        Bucket { rank: self.rank, min_signature: self.signature }
    }
}

proof fn lemma_bit_length_bound(v: nat, k: nat)
    requires
        v < pow2(k),
    ensures
        bit_length(v) <= k,
    decreases k,
{
    if v != 0 {
        if k == 0 {
            assert(pow2(0) == 1) by {
                lemma2_to64();
            }
        } else {
            lemma_pow2_unfold(k);
            lemma_bit_length_bound(v / 2, (k - 1) as nat);
        }
    }
}

/// The rank of every hash value lies between 1 and 51, its bucket below
/// 16384 and its signature below 1024, so what it offers is in range.
pub proof fn hash_parts_in_range(h: u128)
    ensures
        0 <= bucket_of(h) < BUCKETS,
        1 <= rank_of(h) <= MAX_RANK,
        0 <= signature_of(h) < SIGNATURES,
        in_range(offer_of(h)),
{
    lemma2_to64_rest();
    lemma_bit_length_bound(remainder_of(h) as nat, 50);
}

/// Derives bucket, rank and signature from a hash value.
pub fn hash_parts(h: u128) -> (parts: HashParts)
    ensures
        parts.bucket == bucket_of(h),
        parts.rank == rank_of(h),
        parts.signature == signature_of(h),
        parts.offered() == offer_of(h),
        parts.bucket < BUCKETS,
        1 <= parts.rank <= MAX_RANK,
        parts.signature < SIGNATURES,
{
    let low: u64 = (h % 0x1_0000_0000_0000_0000u128) as u64;
    let high: u64 = (h / 0x1_0000_0000_0000_0000u128) as u64;
    let bucket: usize = (low / 0x4_0000_0000_0000u64) as usize;
    let remainder: u64 = low % 0x4_0000_0000_0000u64;
    let mut rest: u64 = remainder;
    let mut digits: u8 = 0;
    proof {
        lemma2_to64_rest();
    }
    while rest != 0
        invariant
            digits <= 50,
            rest < pow2((50 - digits) as nat),
            bit_length(remainder as nat) == digits + bit_length(rest as nat),
        decreases rest,
    {
        proof {
            if digits == 50 {
                lemma2_to64();
            } else {
                lemma_pow2_unfold((50 - digits) as nat);
            }
        }
        rest = rest / 2;
        digits = digits + 1;
    }
    let signature: u16 = (high % 1024) as u16;
    HashParts { bucket, rank: 51 - digits, signature }
}

/// Merging an array with itself changes nothing.
pub proof fn merge_is_idempotent(a: Seq<Bucket>)
    ensures
        merged(a, a) == a,
{
    assert(merged(a, a) =~= a);
}

/// The order of the two operands of a merge does not matter.
pub proof fn merge_is_commutative(a: Seq<Bucket>, b: Seq<Bucket>)
    requires
        a.len() == b.len(),
    ensures
        merged(a, b) == merged(b, a),
{
    assert(merged(a, b) =~= merged(b, a));
}

/// Three arrays merge to the same array however the merges are grouped.
pub proof fn merge_is_associative(a: Seq<Bucket>, b: Seq<Bucket>, c: Seq<Bucket>)
    requires
        a.len() == b.len(),
        b.len() == c.len(),
    ensures
        merged(merged(a, b), c) == merged(a, merged(b, c)),
{
    assert(merged(merged(a, b), c) =~= merged(a, merged(b, c)));
}

/// Merging with the array of an empty sketch changes nothing.
pub proof fn merge_with_empty(a: Seq<Bucket>)
    requires
        well_formed(a),
    ensures
        merged(a, empty_registers()) == a,
        merged(empty_registers(), a) == a,
{
    assert(merged(a, empty_registers()) =~= a);
    assert(merged(empty_registers(), a) =~= a);
}

/// A merge keeps the number of buckets; in every bucket the rank is the
/// greater of the two ranks and the signature the lesser of the two
/// signatures, so no rank falls and no signature rises.
pub proof fn merge_only_improves(a: Seq<Bucket>, b: Seq<Bucket>)
    requires
        a.len() == b.len(),
    ensures
        merged(a, b).len() == a.len(),
        forall|i: int|
            0 <= i < a.len() ==> (#[trigger] merged(a, b)[i]).rank >= a[i].rank && merged(
                a,
                b,
            )[i].rank >= b[i].rank,
        forall|i: int|
            0 <= i < a.len() ==> (#[trigger] merged(a, b)[i]).min_signature <= a[i].min_signature
                && merged(a, b)[i].min_signature <= b[i].min_signature,
        well_formed(a) && well_formed(b) ==> well_formed(merged(a, b)),
{
}

/// Absorbing a hash value keeps the number of buckets and changes none but
/// the bucket of the hash value; there the rank becomes the greater of the
/// old rank and the rank of the hash value, the signature the lesser of the
/// old signature and the signature of the hash value. So no rank falls and
/// no signature rises.
pub proof fn absorb_only_improves(registers: Seq<Bucket>, h: u128)
    requires
        well_formed(registers),
    ensures
        well_formed(absorbed(registers, h)),
        forall|i: int|
            0 <= i < BUCKETS && i != bucket_of(h) ==> #[trigger] absorbed(registers, h)[i]
                == registers[i],
        absorbed(registers, h)[bucket_of(h)].rank >= rank_of(h),
        absorbed(registers, h)[bucket_of(h)].min_signature <= signature_of(h),
        forall|i: int|
            0 <= i < BUCKETS ==> (#[trigger] absorbed(registers, h)[i]).rank >= registers[i].rank
                && absorbed(registers, h)[i].min_signature <= registers[i].min_signature,
{
    hash_parts_in_range(h);
}

/// Absorbing the same hash value a second time changes nothing.
pub proof fn absorb_is_idempotent(registers: Seq<Bucket>, h: u128)
    requires
        well_formed(registers),
    ensures
        absorbed(absorbed(registers, h), h) == absorbed(registers, h),
{
    hash_parts_in_range(h);
    assert(absorbed(absorbed(registers, h), h) =~= absorbed(registers, h));
}

/// Two hash values may be absorbed in either order.
pub proof fn absorb_order_is_free(registers: Seq<Bucket>, g: u128, h: u128)
    requires
        well_formed(registers),
    ensures
        absorbed(absorbed(registers, g), h) == absorbed(absorbed(registers, h), g),
{
    hash_parts_in_range(g);
    hash_parts_in_range(h);
    assert(absorbed(absorbed(registers, g), h) =~= absorbed(absorbed(registers, h), g));
}

/// Absorbing into one of two arrays and then merging gives what merging
/// first and absorbing into the result gives.
pub proof fn merge_of_absorbed(a: Seq<Bucket>, b: Seq<Bucket>, h: u128)
    requires
        well_formed(a),
        well_formed(b),
    ensures
        merged(absorbed(a, h), b) == absorbed(merged(a, b), h),
        merged(a, absorbed(b, h)) == absorbed(merged(a, b), h),
{
    hash_parts_in_range(h);
    assert(merged(absorbed(a, h), b) =~= absorbed(merged(a, b), h));
    assert(merged(a, absorbed(b, h)) =~= absorbed(merged(a, b), h));
}

/// Absorbing a sequence of hash values keeps the array well formed; no rank
/// falls and no signature rises.
pub proof fn absorb_all_only_improves(registers: Seq<Bucket>, hashes: Seq<u128>)
    requires
        well_formed(registers),
    ensures
        well_formed(absorbed_all(registers, hashes)),
        forall|i: int|
            0 <= i < BUCKETS ==> (#[trigger] absorbed_all(registers, hashes)[i]).rank
                >= registers[i].rank && absorbed_all(registers, hashes)[i].min_signature
                <= registers[i].min_signature,
    decreases hashes.len(),
{
    if hashes.len() > 0 {
        absorb_all_only_improves(registers, hashes.drop_last());
        absorb_only_improves(absorbed_all(registers, hashes.drop_last()), hashes.last());
    }
}

/// Absorption and union follow the same rule: merging an array with the
/// sketch of a sequence of hash values gives what absorbing the sequence
/// into the array gives.
pub proof fn merge_with_sketch_of(a: Seq<Bucket>, hashes: Seq<u128>)
    requires
        well_formed(a),
    ensures
        merged(a, absorbed_all(empty_registers(), hashes)) == absorbed_all(a, hashes),
    decreases hashes.len(),
{
    if hashes.len() == 0 {
        merge_with_empty(a);
    } else {
        let front = hashes.drop_last();
        merge_with_sketch_of(a, front);
        absorb_all_only_improves(empty_registers(), front);
        merge_of_absorbed(a, absorbed_all(empty_registers(), front), hashes.last());
    }
}

/// The sketch of two streams, one after the other, is the union of the
/// sketches of the two.
pub proof fn sketch_of_concatenation(first: Seq<u128>, second: Seq<u128>)
    ensures
        absorbed_all(empty_registers(), first + second) == merged(
            absorbed_all(empty_registers(), first),
            absorbed_all(empty_registers(), second),
        ),
    decreases second.len(),
{
    let a = absorbed_all(empty_registers(), first);
    absorb_all_only_improves(empty_registers(), first);
    merge_with_sketch_of(a, second);
    lemma_absorbed_all_continues(empty_registers(), first, second);
}

proof fn lemma_absorbed_all_continues(registers: Seq<Bucket>, first: Seq<u128>, second: Seq<u128>)
    ensures
        absorbed_all(registers, first + second) == absorbed_all(
            absorbed_all(registers, first),
            second,
        ),
    decreases second.len(),
{
    if second.len() == 0 {
        assert(first + second =~= first);
    } else {
        lemma_absorbed_all_continues(registers, first, second.drop_last());
        assert((first + second).drop_last() =~= first + second.drop_last());
        assert((first + second).last() == second.last());
    }
}

} // verus!
