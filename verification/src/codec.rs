//! The serialized form of a register array.
//!
//! A serialized sketch is 32776 bytes long. It starts with a header of two
//! 32-bit little-endian words, the format version and the number of buckets,
//! and goes on with one 16-bit little-endian record per bucket, in bucket
//! order. A record holds the rank of its bucket in the upper six bits and the
//! signature in the lower ten.

use vstd::prelude::*;
use crate::registers::{in_range, well_formed, Bucket, BUCKETS, SIGNATURES};

verus! {

/// The version of the serialized form that this library writes and reads.
pub const FORMAT_VERSION: u32 = 1;

/// Length of the header in bytes.
pub const HEADER_BYTES: usize = 8;

/// Length of the bucket records in bytes.
pub const PAYLOAD_BYTES: usize = 32768;

/// Length of a serialized sketch in bytes.
pub const SERIALIZED_BYTES: usize = 32776;

/// Why a buffer is not a serialized sketch.
#[derive(Clone, Copy, Debug, PartialEq, Eq, Structural)]
pub enum DecodeError {
    /// The buffer does not have the length of a serialized sketch.
    WrongLength { expected: usize, found: usize },
    /// The header names a format version that this library does not read.
    UnsupportedVersion { version: u32 },
    /// The header names another number of buckets than this library uses.
    WrongBucketCount { buckets: u32 },
}

/// The four bytes of a 32-bit word, least significant first.
pub open spec fn word_bytes(v: u32) -> Seq<u8> {
    seq![
        (v % 256) as u8,
        (v / 256 % 256) as u8,
        (v / 65536 % 256) as u8,
        (v / 16777216) as u8,
    ]
}

/// The 32-bit little-endian word that starts at index `at` of `buf`.
pub open spec fn word_at(buf: Seq<u8>, at: int) -> int {
    buf[at] + 256 * buf[at + 1] + 65536 * buf[at + 2] + 16777216 * buf[at + 3]
}

/// The eight bytes of a 64-bit word, least significant first.
pub open spec fn long_bytes(v: u64) -> Seq<u8> {
    seq![
        (v % 256) as u8,
        (v / 0x100 % 256) as u8,
        (v / 0x1_0000 % 256) as u8,
        (v / 0x100_0000 % 256) as u8,
        (v / 0x1_0000_0000 % 256) as u8,
        (v / 0x100_0000_0000 % 256) as u8,
        (v / 0x1_0000_0000_0000 % 256) as u8,
        (v / 0x100_0000_0000_0000) as u8,
    ]
}

/// The header of every serialized sketch.
pub open spec fn header() -> Seq<u8> {
    word_bytes(FORMAT_VERSION) + word_bytes(BUCKETS as u32)
}

/// The 16-bit word that holds a bucket: the rank times 1024, plus the
/// signature.
pub open spec fn packed(bucket: Bucket) -> int {
    bucket.rank * 1024 + bucket.min_signature
}

/// The bucket that a 16-bit word holds.
pub open spec fn unpacked(word: int) -> Bucket {
    Bucket { rank: (word / 1024) as u8, min_signature: (word % 1024) as u16 }
}

/// The bytes of a sequence of 16-bit words: two bytes per word, low byte
/// first.
pub open spec fn pair_bytes(words: Seq<u16>) -> Seq<u8> {
    Seq::new(
        2 * words.len(),
        |i: int|
            if i % 2 == 0 {
                (words[i / 2] % 256) as u8
            } else {
                (words[i / 2] / 256) as u8
            },
    )
}

/// The 16-bit words that a sequence of bytes holds, two bytes per word, low
/// byte first.
pub open spec fn words_in(bytes: Seq<u8>) -> Seq<u16> {
    Seq::new(bytes.len() / 2, |i: int| (bytes[2 * i] + 256 * bytes[2 * i + 1]) as u16)
}

/// The records of a register array: one 16-bit word per bucket.
pub open spec fn record_bytes(registers: Seq<Bucket>) -> Seq<u8> {
    pair_bytes(Seq::new(registers.len(), |i: int| packed(registers[i]) as u16))
}

/// The register array that a sequence of records holds.
pub open spec fn records_in(payload: Seq<u8>) -> Seq<Bucket> {
    Seq::new(payload.len() / 2, |i: int| unpacked(words_in(payload)[i] as int))
}

/// The serialized form of a register array.
pub open spec fn serialized(registers: Seq<Bucket>) -> Seq<u8> {
    header() + record_bytes(registers)
}

/// What a buffer decodes to: the register array it holds, or the first check
/// that it fails. The length is checked first, then the version, then the
/// number of buckets.
pub open spec fn decoded(buf: Seq<u8>) -> Result<Seq<Bucket>, DecodeError> {
    if buf.len() != SERIALIZED_BYTES {
        Err(DecodeError::WrongLength { expected: SERIALIZED_BYTES, found: buf.len() as usize })
    } else if word_at(buf, 0) != FORMAT_VERSION {
        Err(DecodeError::UnsupportedVersion { version: word_at(buf, 0) as u32 })
    } else if word_at(buf, 4) != BUCKETS {
        Err(DecodeError::WrongBucketCount { buckets: word_at(buf, 4) as u32 })
    } else {
        Ok(records_in(buf.subrange(HEADER_BYTES as int, SERIALIZED_BYTES as int)))
    }
}

/// The bytes of a 32-bit word, least significant first.
pub fn word_le_bytes(v: u32) -> (bytes: Vec<u8>)
    ensures
        bytes@ == word_bytes(v),
{
    let b0: u8 = (v % 256) as u8;
    let b1: u8 = (v / 256 % 256) as u8;
    let b2: u8 = (v / 65536 % 256) as u8;
    let b3: u8 = (v / 16777216) as u8;
    let bytes = vec![b0, b1, b2, b3];
    assert(bytes@ =~= word_bytes(v));
    bytes
}

/// The bytes of a 64-bit word, least significant first.
pub fn long_le_bytes(v: u64) -> (bytes: Vec<u8>)
    ensures
        bytes@ == long_bytes(v),
{
    let b0: u8 = (v % 256) as u8;
    let b1: u8 = (v / 0x100 % 256) as u8;
    let b2: u8 = (v / 0x1_0000 % 256) as u8;
    let b3: u8 = (v / 0x100_0000 % 256) as u8;
    let b4: u8 = (v / 0x1_0000_0000 % 256) as u8;
    let b5: u8 = (v / 0x100_0000_0000 % 256) as u8;
    let b6: u8 = (v / 0x1_0000_0000_0000 % 256) as u8;
    let b7: u8 = (v / 0x100_0000_0000_0000) as u8;
    let bytes = vec![b0, b1, b2, b3, b4, b5, b6, b7];
    assert(bytes@ =~= long_bytes(v));
    bytes
}

/// Reads the 32-bit little-endian word that starts at index `at`.
pub fn read_word(buf: &[u8], at: usize) -> (v: u32)
    requires
        at + 4 <= buf@.len(),
    ensures
        v == word_at(buf@, at as int),
{
    let b0: u32 = buf[at] as u32;
    let b1: u32 = buf[at + 1] as u32;
    let b2: u32 = buf[at + 2] as u32;
    let b3: u32 = buf[at + 3] as u32;
    b0 + 256 * b1 + 65536 * b2 + 16777216 * b3
}

/// The header of every serialized sketch.
pub fn header_bytes() -> (bytes: Vec<u8>)
    ensures
        bytes@ == header(),
{
    let mut bytes = word_le_bytes(FORMAT_VERSION);
    let mut count = word_le_bytes(BUCKETS as u32);
    bytes.append(&mut count);
    bytes
}

/// Checks length, version and bucket count of a buffer.
pub fn check_layout(buf: &[u8]) -> (r: Result<(), DecodeError>)
    ensures
        match r {
            Ok(()) => decoded(buf@) is Ok,
            Err(e) => decoded(buf@) == Err::<Seq<Bucket>, DecodeError>(e),
        },
{
    if buf.len() != SERIALIZED_BYTES {
        return Err(DecodeError::WrongLength { expected: SERIALIZED_BYTES, found: buf.len() });
    }
    let version: u32 = read_word(buf, 0);
    if version != FORMAT_VERSION {
        return Err(DecodeError::UnsupportedVersion { version });
    }
    let buckets: u32 = read_word(buf, 4);
    if buckets != BUCKETS as u32 {
        return Err(DecodeError::WrongBucketCount { buckets });
    }
    Ok(())
}

/// Packs a bucket into its 16-bit word.
pub fn pack(bucket: &Bucket) -> (word: u16)
    requires
        in_range(*bucket),
    ensures
        word == packed(*bucket),
        unpacked(word as int) == *bucket,
{
    let rank: u16 = bucket.rank as u16;
    rank * SIGNATURES + bucket.min_signature
}

/// The bucket that a 16-bit word holds.
pub fn unpack(word: u16) -> (bucket: Bucket)
    ensures
        bucket == unpacked(word as int),
        in_range(bucket),
        packed(bucket) == word,
{
    Bucket { rank: (word / SIGNATURES) as u8, min_signature: word % SIGNATURES }
}

/// Appends the two bytes of a 16-bit word, low byte first.
pub fn push_word(out: &mut Vec<u8>, word: u16)
    ensures
        final(out)@ == old(out)@.push((word % 256) as u8).push((word / 256) as u8),
{
    out.push((word % 256) as u8);
    out.push((word / 256) as u8);
}

/// The bytes of a sequence of 16-bit words, two bytes per word, low byte
/// first.
pub fn words_to_bytes(words: &[u16]) -> (bytes: Vec<u8>)
    ensures
        bytes@ == pair_bytes(words@),
        words_in(bytes@) == words@,
{
    let mut bytes: Vec<u8> = Vec::new();
    let mut at: usize = 0;
    while at < words.len()
        invariant
            at <= words@.len(),
            bytes@.len() == 2 * at,
            forall|j: int| 0 <= j < 2 * at ==> bytes@[j] == #[trigger] pair_bytes(words@)[j],
        decreases words@.len() - at,
    {
        push_word(&mut bytes, words[at]);
        at = at + 1;
    }
    assert(bytes@ =~= pair_bytes(words@));
    assert(words_in(bytes@) =~= words@);
    bytes
}

/// The 16-bit words that a sequence of bytes holds, two bytes per word, low
/// byte first; a last byte without a partner is left out.
pub fn bytes_to_words(bytes: &[u8]) -> (words: Vec<u16>)
    ensures
        words@ == words_in(bytes@),
        words@.len() == bytes@.len() / 2,
{
    let count: usize = bytes.len() / 2;
    let mut words: Vec<u16> = Vec::new();
    let mut at: usize = 0;
    while at < count
        invariant
            count == bytes@.len() / 2,
            bytes@.len() <= usize::MAX,
            at <= count,
            words@.len() == at,
            forall|j: int| 0 <= j < at ==> words@[j] == #[trigger] words_in(bytes@)[j],
        decreases count - at,
    {
        assert(2 * at + 1 < bytes@.len());
        let low: u16 = bytes[2 * at] as u16;
        let high: u16 = bytes[2 * at + 1] as u16;
        words.push(low + 256 * high);
        at = at + 1;
    }
    assert(words@ =~= words_in(bytes@));
    words
}

/// A register array that is serialized and decoded comes back unchanged.
pub proof fn decode_inverts_serialize(registers: Seq<Bucket>)
    requires
        well_formed(registers),
    ensures
        serialized(registers).len() == SERIALIZED_BYTES,
        decoded(serialized(registers)) == Ok::<Seq<Bucket>, DecodeError>(registers),
{
    let buf = serialized(registers);
    let payload = buf.subrange(HEADER_BYTES as int, SERIALIZED_BYTES as int);
    assert(payload =~= record_bytes(registers));
    assert forall|i: int| 0 <= i < registers.len() implies #[trigger] records_in(
        record_bytes(registers),
    )[i] == registers[i] by {
        assert(in_range(registers[i]));
    }
    assert(records_in(record_bytes(registers)) =~= registers);
}

proof fn lemma_pairs_of_words(bytes: Seq<u8>)
    requires
        bytes.len() % 2 == 0,
    ensures
        pair_bytes(words_in(bytes)) == bytes,
{
    let words = words_in(bytes);
    assert forall|j: int| 0 <= j < bytes.len() implies #[trigger] pair_bytes(words)[j]
        == bytes[j] by {
        let i = j / 2;
        assert(words[i] == bytes[2 * i] + 256 * bytes[2 * i + 1]);
    }
    assert(pair_bytes(words) =~= bytes);
}

proof fn lemma_records_of_payload(payload: Seq<u8>)
    requires
        payload.len() % 2 == 0,
    ensures
        record_bytes(records_in(payload)) == payload,
        forall|i: int| 0 <= i < payload.len() / 2 ==> in_range(#[trigger] records_in(payload)[i]),
{
    let words = words_in(payload);
    let registers = records_in(payload);
    assert forall|i: int| 0 <= i < registers.len() implies packed(#[trigger] registers[i]) as u16
        == words[i] by {
        let w = words[i] as int;
        assert(registers[i] == unpacked(w));
        assert((w / 1024) * 1024 + w % 1024 == w);
    }
    assert(Seq::new(registers.len(), |i: int| packed(registers[i]) as u16) =~= words);
    lemma_pairs_of_words(payload);
}

proof fn lemma_header_is_fixed(buf: Seq<u8>)
    requires
        buf.len() >= 8,
        word_at(buf, 0) == FORMAT_VERSION,
        word_at(buf, 4) == BUCKETS,
    ensures
        buf.subrange(0, 8) == header(),
{
    assert(buf.subrange(0, 8) =~= header());
}

/// A buffer that decodes holds a well-formed register array and is the
/// serialized form of it: no two buffers hold the same register array.
pub proof fn serialize_inverts_decode(buf: Seq<u8>)
    requires
        decoded(buf) is Ok,
    ensures
        well_formed(decoded(buf)->Ok_0),
        serialized(decoded(buf)->Ok_0) == buf,
{
    let payload = buf.subrange(HEADER_BYTES as int, SERIALIZED_BYTES as int);
    lemma_records_of_payload(payload);
    lemma_header_is_fixed(buf);
    assert(buf =~= buf.subrange(0, 8) + payload);
}

} // verus!
