//! The sketch: a register array that absorbs elements, merges with other
//! sketches and is saved to and loaded from bytes.
//!
//! Every sketch has the same number of buckets, so any two sketches can be
//! merged and compared; a serialized sketch of another bucket count is
//! rejected when it is loaded. The estimate of cardinality is a
//! floating-point computation of the `hyperminhash` crate, on the sketch of
//! that crate that `outside` builds from the registers; it reads the ranks.
//! The estimates of intersection and similarity follow from the estimates of
//! two sketches and of their union.

use vstd::prelude::*;
use vstd::slice::{slice_subrange, slice_to_vec};
use vstd::std_specs::cmp::PartialEqSpecImpl;
use crate::registers::{absorbed, absorbed_all, empty_bucket, empty_registers, merged, well_formed, Bucket, BUCKETS};
use crate::codec::{bytes_to_words, long_bytes, check_layout, decoded, header_bytes, pack, packed, serialized, unpack, unpacked, words_to_bytes, DecodeError, HEADER_BYTES, SERIALIZED_BYTES};
use crate::engine::{sketch_load, sketch_registers, xxh3_128};
use crate::entry::{CompositeEntry, Part};

verus! {

/// A fixed-size summary of the distinct elements of a stream.
///
/// Its view is the register array: 16384 buckets in bucket order.
pub struct CardinalitySketch {
    /// One 16-bit word per bucket: the rank in the upper six bits, the
    /// signature in the lower ten.
    words: Vec<u16>,
}

impl View for CardinalitySketch {
    type V = Seq<Bucket>;

    closed spec fn view(&self) -> Seq<Bucket> {
        Seq::new(self.words@.len(), |i: int| unpacked(self.words@[i] as int))
    }
}

/// The digests of the elements that consist of one hash value each.
pub open spec fn digests_of(hashes: Seq<u64>) -> Seq<u128> {
    Seq::new(hashes.len(), |i: int| xxh3_128(long_bytes(hashes[i])))
}

/// The register of the `hyperminhash` crate that stands for a bucket: zero
/// for a bucket of rank zero, else the rank times 1024, plus the signature.
pub open spec fn estimator_word(bucket: Bucket) -> int {
    if bucket.rank == 0 {
        0
    } else {
        packed(bucket)
    }
}

/// The register array of the `hyperminhash` crate that stands for a register
/// array of this library.
pub open spec fn estimator_registers(registers: Seq<Bucket>) -> Seq<u16> {
    Seq::new(registers.len(), |i: int| estimator_word(registers[i]) as u16)
}

impl CardinalitySketch {
    #[verifier::type_invariant]
    closed spec fn valid(self) -> bool {
        self.words@.len() == BUCKETS
    }

    /// The number of buckets, which is the same for every sketch.
    pub fn bucket_count(&self) -> (n: usize)
        ensures
            n == BUCKETS,
            well_formed(self@),
    {
        proof {
            use_type_invariant(self);
        }
        BUCKETS
    }

    /// A sketch that has absorbed nothing: every bucket has rank zero and
    /// the greatest signature.
    pub fn new() -> (s: Self)
        ensures
            s@ == empty_registers(),
    {
        let empty: u16 = pack(&Bucket::empty());
        let mut words: Vec<u16> = Vec::new();
        let mut at: usize = 0;
        while at < BUCKETS
            invariant
                at <= BUCKETS,
                words@.len() == at,
                unpacked(empty as int) == empty_bucket(),
                forall|j: int| 0 <= j < at ==> words@[j] == empty,
            decreases BUCKETS - at,
        {
            words.push(empty);
            at = at + 1;
        }
        let s = CardinalitySketch { words };
        assert(s@ =~= empty_registers());
        s
    }

    /// Rebuilds a sketch from its serialized form. The buffer is rejected
    /// unless it has the length of a serialized sketch and its header names
    /// the version and the bucket count of this library; the error names the
    /// first of these checks that failed.
    pub fn load(buf: &[u8]) -> (r: Result<Self, DecodeError>)
        ensures
            match r {
                Ok(s) => decoded(buf@) == Ok::<Seq<Bucket>, DecodeError>(s@),
                Err(e) => decoded(buf@) == Err::<Seq<Bucket>, DecodeError>(e),
            },
    {
        match check_layout(buf) {
            Err(e) => Err(e),
            Ok(()) => {
                let payload = slice_subrange(buf, HEADER_BYTES, SERIALIZED_BYTES);
                let words = bytes_to_words(payload);
                let s = CardinalitySketch { words };
                assert(s@ =~= decoded(buf@)->Ok_0);
                Ok(s)
            },
        }
    }

    /// The serialized form of this sketch: 32776 bytes.
    pub fn save(&self) -> (bytes: Vec<u8>)
        ensures
            bytes@ == serialized(self@),
            bytes@.len() == SERIALIZED_BYTES,
    {
        proof {
            use_type_invariant(self);
        }
        let mut bytes = header_bytes();
        let mut payload = words_to_bytes(self.words.as_slice());
        assert(payload@ =~= crate::codec::record_bytes(self@));
        bytes.append(&mut payload);
        bytes
    }

    /// The bucket at `index`, where there is one.
    pub fn bucket(&self, index: usize) -> (bucket: Option<Bucket>)
        ensures
            bucket == (if index < BUCKETS {
                Some(self@[index as int])
            } else {
                None
            }),
    {
        proof {
            use_type_invariant(self);
        }
        if index < BUCKETS {
            Some(unpack(self.words[index]))
        } else {
            None
        }
    }

    /// Absorbs the element that `entry` stands for. In the bucket that the
    /// entry's digest selects the rank becomes the greater of the old rank
    /// and the rank of the digest, the signature the lesser of the old
    /// signature and the signature of the digest; every other bucket stays
    /// as it is.
    pub fn add_entry(&mut self, entry: &CompositeEntry)
        ensures
            final(self)@ == absorbed(old(self)@, xxh3_128(entry@)),
    {
        proof {
            use_type_invariant(&*self);
            crate::registers::absorb_only_improves(self@, xxh3_128(entry@));
        }
        let parts = entry.parts();
        let improved = unpack(self.words[parts.bucket]).join(&parts.offer());
        self.words[parts.bucket] = pack(&improved);
        assert(self@ =~= absorbed(old(self)@, xxh3_128(entry@)));
    }

    /// Absorbs one element that consists of a single part.
    pub fn add(&mut self, part: &Part)
        ensures
            final(self)@ == absorbed(old(self)@, xxh3_128(part.framed())),
    {
        let mut entry = CompositeEntry::new();
        entry.add(part);
        assert(entry@ =~= part.framed());
        self.add_entry(&entry);
    }

    /// A sketch of the given hash values, each absorbed as an element of its
    /// own.
    pub fn from_hashes(hashes: &[u64]) -> (s: Self)
        ensures
            s@ == absorbed_all(empty_registers(), digests_of(hashes@)),
    {
        let mut s = CardinalitySketch::new();
        let ghost all = digests_of(hashes@);
        let mut at: usize = 0;
        while at < hashes.len()
            invariant
                at <= hashes@.len(),
                all == digests_of(hashes@),
                s@ == absorbed_all(empty_registers(), all.take(at as int)),
            decreases hashes@.len() - at,
        {
            let part = Part::Hash(hashes[at]);
            s.add(&part);
            proof {
                assert(all.take(at + 1).drop_last() =~= all.take(at as int));
                assert(all.take(at + 1).last() == xxh3_128(part.framed()));
            }
            at = at + 1;
        }
        proof {
            assert(all.take(at as int) =~= all);
        }
        s
    }

    /// Merges `other` into this sketch: in every bucket the rank becomes the
    /// greater of the two ranks and the signature the lesser of the two
    /// signatures. `other` is left as it is.
    pub fn union(&mut self, other: &CardinalitySketch)
        ensures
            final(self)@ == merged(old(self)@, other@),
    {
        proof {
            use_type_invariant(&*self);
            use_type_invariant(other);
        }
        let mut at: usize = 0;
        while at < BUCKETS
            invariant
                at <= BUCKETS,
                self.words@.len() == BUCKETS,
                other.words@.len() == BUCKETS,
                old(self).words@.len() == BUCKETS,
                forall|j: int| 0 <= j < at ==> unpacked(self.words@[j] as int) == #[trigger] merged(old(self)@, other@)[j],
                forall|j: int| at <= j < BUCKETS ==> self.words@[j] == #[trigger] old(self).words@[j],
            decreases BUCKETS - at,
        {
            let improved = unpack(self.words[at]).join(&unpack(other.words[at]));
            self.words[at] = pack(&improved);
            at = at + 1;
        }
        assert(self@ =~= merged(old(self)@, other@));
    }

    /// The union of this sketch and `other` as a new sketch; both operands
    /// are left as they are.
    pub fn merged_with(&self, other: &CardinalitySketch) -> (s: Self)
        ensures
            s@ == merged(self@, other@),
    {
        let mut s = self.clone();
        s.union(other);
        s
    }

    /// Whether this sketch has absorbed nothing: every bucket is empty.
    pub fn is_empty(&self) -> (empty: bool)
        ensures
            empty == (self@ == empty_registers()),
    {
        proof {
            use_type_invariant(self);
        }
        let mut at: usize = 0;
        while at < BUCKETS
            invariant
                at <= BUCKETS,
                self.words@.len() == BUCKETS,
                forall|j: int| 0 <= j < at ==> unpacked(self.words@[j] as int) == empty_bucket(),
            decreases BUCKETS - at,
        {
            if !unpack(self.words[at]).is_empty() {
                assert(self@[at as int] != empty_registers()[at as int]);
                return false;
            }
            at = at + 1;
        }
        assert(self@ =~= empty_registers());
        true
    }

    /// Whether this sketch and `other` hold the same register array.
    pub fn same_as(&self, other: &CardinalitySketch) -> (same: bool)
        ensures
            same == (self@ == other@),
    {
        proof {
            use_type_invariant(self);
            use_type_invariant(other);
        }
        let mut at: usize = 0;
        while at < BUCKETS
            invariant
                at <= BUCKETS,
                self.words@.len() == BUCKETS,
                other.words@.len() == BUCKETS,
                forall|j: int| 0 <= j < at ==> self.words@[j] == other.words@[j],
            decreases BUCKETS - at,
        {
            if self.words[at] != other.words[at] {
                assert(packed(self@[at as int]) != packed(other@[at as int]));
                return false;
            }
            at = at + 1;
        }
        assert(self@ =~= other@);
        true
    }

    /// A sketch of the `hyperminhash` crate with the ranks and signatures of
    /// this sketch, for the estimators of that crate. A bucket of rank zero
    /// becomes the zero register, by which that crate knows an empty bucket.
    pub fn outside(&self) -> (sketch: hyperminhash::Sketch)
        ensures
            sketch_registers(sketch) == estimator_registers(self@),
    {
        proof {
            use_type_invariant(self);
        }
        let mut words: Vec<u16> = Vec::new();
        let mut at: usize = 0;
        while at < BUCKETS
            invariant
                at <= BUCKETS,
                self.words@.len() == BUCKETS,
                words@.len() == at,
                forall|j: int| 0 <= j < at ==> words@[j] == estimator_word(unpacked(self.words@[j] as int)),
            decreases BUCKETS - at,
        {
            let word: u16 = self.words[at];
            if unpack(word).rank == 0 {
                words.push(0);
            } else {
                words.push(word);
            }
            at = at + 1;
        }
        assert(words@ =~= estimator_registers(self@));
        let payload = words_to_bytes(words.as_slice());
        sketch_load(payload.as_slice()).unwrap()
    }
}

impl Clone for CardinalitySketch {
    /// An independent copy with the same register array.
    fn clone(&self) -> (copy: Self)
        ensures
            copy@ == self@,
    {
        proof {
            use_type_invariant(self);
        }
        let copy = CardinalitySketch { words: slice_to_vec(self.words.as_slice()) };
        assert(copy@ =~= self@);
        copy
    }
}

impl Default for CardinalitySketch {
    /// A sketch that has absorbed nothing.
    fn default() -> (s: Self)
        ensures
            s@ == empty_registers(),
    {
        CardinalitySketch::new()
    }
}

impl PartialEq for CardinalitySketch {
    /// Two sketches are equal where their register arrays are.
    fn eq(&self, other: &Self) -> (same: bool) {
        self.same_as(other)
    }
}

impl PartialEqSpecImpl for CardinalitySketch {
    open spec fn obeys_eq_spec() -> bool {
        true
    }

    open spec fn eq_spec(&self, other: &Self) -> bool {
        self@ == other@
    }
}

} // verus!
