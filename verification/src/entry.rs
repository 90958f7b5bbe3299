//! The entry: one element under construction, made of several parts.
//!
//! An entry feeds a running hash. A part is fed together with its boundary:
//! a run of bytes is preceded by its length as eight little-endian bytes, a
//! hash value is fed as its eight little-endian bytes. The bytes of a stream
//! are fed as they come, chunk by chunk, with no boundary between chunks.

use vstd::prelude::*;
use vstd::std_specs::cmp::PartialEqSpecImpl;
use crate::codec::{long_bytes, long_le_bytes};
use crate::registers::{hash_parts, offer_of, HashParts, BUCKETS, bucket_of, rank_of, signature_of};
use crate::engine::{entry_add_bytes, entry_copy, entry_digest, entry_new, entry_stream, xxh3_128};

verus! {

/// One part of an element: bytes, or a hash value computed elsewhere.
#[derive(Debug)]
pub enum Part {
    /// A run of bytes.
    Bytes(Vec<u8>),
    /// A 64-bit hash of a value.
    Hash(u64),
}

/// What an entry is fed for a run of bytes: the length, then the bytes.
pub open spec fn framed_bytes(bytes: Seq<u8>) -> Seq<u8> {
    long_bytes(bytes.len() as u64) + bytes
}

impl Part {
    /// What an entry is fed for this part.
    pub open spec fn framed(&self) -> Seq<u8> {
        match self {
            Part::Bytes(bytes) => framed_bytes(bytes@),
            Part::Hash(h) => long_bytes(*h),
        }
    }
}

/// What a source of bytes answered when it was asked for more.
#[derive(Debug)]
pub enum SourceEvent {
    /// The next bytes of the stream. No bytes at all mean that the stream
    /// has ended.
    Chunk(Vec<u8>),
    /// The stream has ended.
    End,
    /// The source failed.
    Failed,
}

/// A stream broke off because its source failed.
#[derive(Clone, Copy, Debug, PartialEq, Eq, Structural)]
pub struct StreamError {
    /// Number of bytes of the stream that the entry had taken in before.
    pub consumed: u64,
}

/// How a stream goes on after an answer of its source.
#[derive(Clone, Copy, Debug, PartialEq, Eq, Structural)]
pub enum StreamStep {
    /// The answer was taken in; the source is to be asked again.
    More { consumed: u64 },
    /// The stream has ended after this many bytes.
    Finished { consumed: u64 },
    /// The stream broke off.
    Broken(StreamError),
}

impl SourceEvent {
    /// The bytes that this answer adds to the stream.
    pub open spec fn bytes(&self) -> Seq<u8> {
        match self {
            SourceEvent::Chunk(chunk) => chunk@,
            _ => Seq::<u8>::empty(),
        }
    }

    /// How a stream of which `consumed` bytes were taken in goes on after
    /// this answer.
    pub open spec fn step(&self, consumed: u64) -> StreamStep {
        match self {
            SourceEvent::Chunk(chunk) => if chunk@.len() == 0 {
                StreamStep::Finished { consumed }
            } else {
                StreamStep::More { consumed: (consumed + chunk@.len()) as u64 }
            },
            SourceEvent::End => StreamStep::Finished { consumed },
            SourceEvent::Failed => StreamStep::Broken(StreamError { consumed }),
        }
    }
}

/// An element under construction. Its view is the sequence of bytes that it
/// has been fed so far.
pub struct CompositeEntry {
    inner: hyperminhash::Entry,
}

impl View for CompositeEntry {
    type V = Seq<u8>;

    closed spec fn view(&self) -> Seq<u8> {
        entry_stream(self.inner)
    }
}

impl CompositeEntry {
    /// An entry without parts.
    pub fn new() -> (e: Self)
        ensures
            e@ == Seq::<u8>::empty(),
    {
        CompositeEntry { inner: entry_new() }
    }

    /// Appends one part, together with its boundary.
    pub fn add(&mut self, part: &Part)
        ensures
            final(self)@ == old(self)@ + part.framed(),
    {
        match part {
            Part::Bytes(bytes) => {
                let length = long_le_bytes(bytes.len() as u64);
                entry_add_bytes(&mut self.inner, length.as_slice());
                entry_add_bytes(&mut self.inner, bytes.as_slice());
                assert(final(self)@ =~= old(self)@ + part.framed());
            },
            Part::Hash(h) => {
                let word = long_le_bytes(*h);
                entry_add_bytes(&mut self.inner, word.as_slice());
            },
        }
    }

    /// Appends the next chunk of a stream of bytes, as it is.
    pub fn add_chunk(&mut self, chunk: &[u8])
        ensures
            final(self)@ == old(self)@ + chunk@,
    {
        entry_add_bytes(&mut self.inner, chunk);
    }

    /// Takes in one answer of the source of a stream, of which `consumed`
    /// bytes were taken in before, and says how the stream goes on. The bytes
    /// of a chunk are appended as they are; any other answer leaves the entry
    /// as it is.
    pub fn fold_event(&mut self, consumed: u64, event: &SourceEvent) -> (step: StreamStep)
        requires
            consumed + event.bytes().len() <= u64::MAX,
        ensures
            final(self)@ == old(self)@ + event.bytes(),
            step == event.step(consumed),
    {
        match event {
            SourceEvent::Chunk(chunk) => {
                if chunk.len() == 0 {
                    assert(final(self)@ =~= old(self)@ + event.bytes());
                    StreamStep::Finished { consumed }
                } else {
                    entry_add_bytes(&mut self.inner, chunk.as_slice());
                    StreamStep::More { consumed: consumed + chunk.len() as u64 }
                }
            },
            SourceEvent::End => {
                assert(final(self)@ =~= old(self)@ + event.bytes());
                StreamStep::Finished { consumed }
            },
            SourceEvent::Failed => {
                assert(final(self)@ =~= old(self)@ + event.bytes());
                StreamStep::Broken(StreamError { consumed })
            },
        }
    }

    /// An independent copy of this entry in its current state.
    pub fn fork(&self) -> (copy: Self)
        ensures
            copy@ == self@,
    {
        CompositeEntry { inner: entry_copy(&self.inner) }
    }

    /// The hash value of the element as built so far.
    pub fn digest(&self) -> (digest: u128)
        ensures
            digest == xxh3_128(self@),
    {
        entry_digest(&self.inner)
    }

    /// Bucket, rank and signature that the element as built so far
    /// contributes to a sketch.
    pub fn parts(&self) -> (parts: HashParts)
        ensures
            parts.bucket == bucket_of(xxh3_128(self@)),
            parts.rank == rank_of(xxh3_128(self@)),
            parts.signature == signature_of(xxh3_128(self@)),
            parts.offered() == offer_of(xxh3_128(self@)),
            parts.bucket < BUCKETS,
    {
        hash_parts(self.digest())
    }

    /// The entry of the `hyperminhash` crate that holds the running hash.
    pub(crate) fn outside(&self) -> (inner: &hyperminhash::Entry)
        ensures
            entry_stream(*inner) == self@,
    {
        &self.inner
    }
}

impl Clone for CompositeEntry {
    /// An independent copy of this entry in its current state.
    fn clone(&self) -> (copy: Self)
        ensures
            copy@ == self@,
    {
        self.fork()
    }
}

impl Default for CompositeEntry {
    /// An entry without parts.
    fn default() -> (e: Self)
        ensures
            e@ == Seq::<u8>::empty(),
    {
        CompositeEntry::new()
    }
}

impl PartialEq for CompositeEntry {
    /// Two entries are equal where their digests are.
    fn eq(&self, other: &Self) -> (same: bool) {
        self.digest() == other.digest()
    }
}

impl PartialEqSpecImpl for CompositeEntry {
    open spec fn obeys_eq_spec() -> bool {
        true
    }

    open spec fn eq_spec(&self, other: &Self) -> bool {
        xxh3_128(self@) == xxh3_128(other@)
    }
}

/// What an entry is fed for a sequence of runs of bytes, each added as a
/// part of its own.
pub open spec fn framed_parts(parts: Seq<Seq<u8>>) -> Seq<u8>
    decreases parts.len(),
{
    if parts.len() == 0 {
        Seq::<u8>::empty()
    } else {
        framed_bytes(parts.first()) + framed_parts(parts.drop_first())
    }
}

/// Two 64-bit words with the same bytes are the same word.
pub proof fn long_bytes_is_injective(v: u64, w: u64)
    requires
        long_bytes(v) == long_bytes(w),
    ensures
        v == w,
{
    let x = long_bytes(v);
    let y = long_bytes(w);
    assert(x[0] == y[0] && x[1] == y[1] && x[2] == y[2] && x[3] == y[3]);
    assert(x[4] == y[4] && x[5] == y[5] && x[6] == y[6] && x[7] == y[7]);
    assert(v == w) by (bit_vector)
        requires
            v % 256u64 == w % 256u64,
            v / 0x100u64 % 256u64 == w / 0x100u64 % 256u64,
            v / 0x1_0000u64 % 256u64 == w / 0x1_0000u64 % 256u64,
            v / 0x100_0000u64 % 256u64 == w / 0x100_0000u64 % 256u64,
            v / 0x1_0000_0000u64 % 256u64 == w / 0x1_0000_0000u64 % 256u64,
            v / 0x100_0000_0000u64 % 256u64 == w / 0x100_0000_0000u64 % 256u64,
            v / 0x1_0000_0000_0000u64 % 256u64 == w / 0x1_0000_0000_0000u64 % 256u64,
            v / 0x100_0000_0000_0000u64 == w / 0x100_0000_0000_0000u64,
    ;
}

/// Adding two runs of bytes as two parts never feeds an entry what adding
/// their concatenation as one part feeds it.
pub proof fn parts_are_not_concatenated(a: Seq<u8>, b: Seq<u8>)
    ensures
        framed_bytes(a) + framed_bytes(b) != framed_bytes(a + b),
{
    assert((framed_bytes(a) + framed_bytes(b)).len() == 16 + a.len() + b.len());
    assert(framed_bytes(a + b).len() == 8 + a.len() + b.len());
}

/// Two sequences of runs of bytes that feed an entry the same bytes are the
/// same sequence: the parts and their order can be read off what was fed.
pub proof fn parts_are_told_apart(p: Seq<Seq<u8>>, q: Seq<Seq<u8>>)
    requires
        forall|i: int| 0 <= i < p.len() ==> (#[trigger] p[i]).len() <= u64::MAX,
        forall|i: int| 0 <= i < q.len() ==> (#[trigger] q[i]).len() <= u64::MAX,
        framed_parts(p) == framed_parts(q),
    ensures
        p == q,
    decreases p.len(),
{
    if p.len() == 0 {
        if q.len() != 0 {
            assert(framed_parts(q).len() >= 8);
        }
        assert(p =~= q);
    } else if q.len() == 0 {
        assert(framed_parts(p).len() >= 8);
    } else {
        let a = p.first();
        let b = q.first();
        let rest_p = framed_parts(p.drop_first());
        let rest_q = framed_parts(q.drop_first());
        let fed = framed_parts(p);
        assert(fed == framed_bytes(a) + rest_p);
        assert(fed == framed_bytes(b) + rest_q);
        assert(long_bytes(a.len() as u64) =~= fed.subrange(0, 8));
        assert(long_bytes(b.len() as u64) =~= fed.subrange(0, 8));
        long_bytes_is_injective(a.len() as u64, b.len() as u64);
        assert(a =~= fed.subrange(8, 8 + a.len() as int));
        assert(b =~= fed.subrange(8, 8 + b.len() as int));
        assert(rest_p =~= fed.subrange(8 + a.len() as int, fed.len() as int));
        assert(rest_q =~= fed.subrange(8 + b.len() as int, fed.len() as int));
        parts_are_told_apart(p.drop_first(), q.drop_first());
        assert(p =~= seq![a] + p.drop_first());
        assert(q =~= seq![b] + q.drop_first());
    }
}

} // verus!
