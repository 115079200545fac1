//! Content fingerprinting for upload deduplication.

use vstd::prelude::*;
use vstd::std_specs::hash::DefaultHasherAdditionalSpecFns;
use std::collections::hash_map::DefaultHasher;
use std::hash::Hasher;

verus! {

/// The content fingerprint of an uploaded payload: the 64-bit digest the
/// standard hasher assigns to its bytes. Byte-identical payloads always
/// receive the same fingerprint, which is what makes retrying an ingestion
/// safe.
pub open spec fn fingerprint_of(bytes: Seq<u8>) -> u64 {
    DefaultHasher::spec_finish(seq![bytes])
}

/// Computes the content fingerprint of a payload.
pub fn compute_fingerprint(content: &Vec<u8>) -> (r: u64)
    ensures
        r == fingerprint_of(content@),
{
    let mut hasher = DefaultHasher::new();
    hasher.write(content.as_slice());
    proof {
        assert(hasher@ =~= seq![content@]);
    }
    hasher.finish()
}

} // verus!
