//! The calls into the `hyperminhash` crate, each with the contract that the
//! rest of the library builds on. Nothing in this file is proved: a contract
//! here says what the crate's source shows of the function that is called.

use vstd::prelude::*;
use crate::codec::{words_in, PAYLOAD_BYTES};

verus! {

#[verifier::external_type_specification]
#[verifier::external_body]
pub struct OutsideSketch(hyperminhash::Sketch);

#[verifier::external_type_specification]
#[verifier::external_body]
pub struct OutsideEntry(hyperminhash::Entry);

/// The register array that a `hyperminhash::Sketch` holds, in bucket order.
/// A register of that crate holds a rank in its upper six bits and a
/// signature in its lower ten; zero marks a bucket that nothing was routed
/// to.
pub uninterp spec fn sketch_registers(s: hyperminhash::Sketch) -> Seq<u16>;

/// The bytes that a `hyperminhash::Entry` has been fed since it was made, in
/// the order in which they came.
pub uninterp spec fn entry_stream(e: hyperminhash::Entry) -> Seq<u8>;

/// The 128-bit XXH3 hash, with seed zero, of a sequence of bytes.
pub uninterp spec fn xxh3_128(stream: Seq<u8>) -> u128;

/// Calls `hyperminhash::Sketch::load` with a slice as the reader. The crate
/// reads 16384 registers of two bytes each, low byte first, and fails only
/// where the reader runs out of bytes; a slice of 32768 bytes does not.
#[verifier::external_body]
pub(crate) fn sketch_load(payload: &[u8]) -> (s: Option<hyperminhash::Sketch>)
    requires
        payload@.len() == PAYLOAD_BYTES,
    ensures
        match s {
            Some(loaded) => sketch_registers(loaded) == words_in(payload@),
            None => false,
        },
{
    match hyperminhash::Sketch::load(payload) {
        Ok(loaded) => Some(loaded),
        Err(_) => None,
    }
}

/// Calls `hyperminhash::Entry::new`: the new entry has been fed nothing.
#[verifier::external_body]
pub(crate) fn entry_new() -> (e: hyperminhash::Entry)
    ensures
        entry_stream(e) == Seq::<u8>::empty(),
{
    hyperminhash::Entry::new()
}

/// Calls `hyperminhash::Entry::add_bytes`, which feeds the bytes to the
/// entry's hasher as they are, with nothing added before or after them.
#[verifier::external_body]
pub(crate) fn entry_add_bytes(e: &mut hyperminhash::Entry, bytes: &[u8])
    ensures
        entry_stream(*final(e)) == entry_stream(*old(e)) + bytes@,
{
    e.add_bytes(bytes);
}

/// Calls `hyperminhash::Entry::digest`: the 128-bit XXH3 hash of all bytes
/// that the entry has been fed.
#[verifier::external_body]
pub(crate) fn entry_digest(e: &hyperminhash::Entry) -> (digest: u128)
    ensures
        digest == xxh3_128(entry_stream(*e)),
{
    e.digest()
}

/// Calls `clone` of `hyperminhash::Entry`: the copy has been fed the same
/// bytes.
#[verifier::external_body]
pub(crate) fn entry_copy(e: &hyperminhash::Entry) -> (copy: hyperminhash::Entry)
    ensures
        entry_stream(copy) == entry_stream(*e),
{
    e.clone()
}

} // verus!
