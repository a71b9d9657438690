//! Digests of text: the standard library's default hasher and the 64-bit
//! FNV-1a hash of a text's UTF-8 bytes.
use std::hash::{Hash, Hasher};
use vstd::prelude::*;

verus! {

/// What `std::collections::hash_map::DefaultHasher::new()` yields for a `str`
/// hashed with `Hash::hash` and read with `finish`.
pub uninterp spec fn str_default_hash(s: Seq<char>) -> u64;

/// Hashes a `str` with a fresh `DefaultHasher` (`DefaultHasher::new`,
/// `Hash::hash`, `Hasher::finish`). The contract claims only that the result is
/// a function of the text: `DefaultHasher::new` starts from fixed keys, so the
/// same text gives the same value in every run of one build.
#[verifier::external_body]
pub fn stable_hash(s: &str) -> (r: u64)
    ensures
        r == str_default_hash(s@),
{
    let mut hasher = std::collections::hash_map::DefaultHasher::new();
    s.hash(&mut hasher);
    hasher.finish()
}

/// What a fresh `DefaultHasher` yields after hashing, in this order, two
/// `str`s, a `u64` and two `usize`s.
pub uninterp spec fn relation_hash(session_id: Seq<char>, trace_id: Seq<char>, at_ms: u64, edges: usize, events: usize) -> u64;

/// Hashes the five values in order with one `DefaultHasher::new()` (each
/// through `Hash::hash`) and reads `finish`. The contract claims only that the
/// result is a function of the values, as for `stable_hash`.
#[verifier::external_body]
pub fn default_hash_relation(session_id: &str, trace_id: &str, at_ms: u64, edges: usize, events: usize) -> (r: u64)
    ensures
        r == relation_hash(session_id@, trace_id@, at_ms, edges, events),
{
    let mut hasher = std::collections::hash_map::DefaultHasher::new();
    session_id.hash(&mut hasher);
    trace_id.hash(&mut hasher);
    at_ms.hash(&mut hasher);
    edges.hash(&mut hasher);
    events.hash(&mut hasher);
    hasher.finish()
}

/// 64-bit FNV-1a over a byte string.
pub open spec fn fnv1a(bytes: Seq<u8>) -> u64
    decreases bytes.len(),
{
    if bytes.len() == 0 {
        0xcbf29ce484222325u64
    } else {
        (fnv1a(bytes.drop_last()) ^ (bytes.last() as u64)).wrapping_mul(0x100000001b3u64)
    }
}

/// FNV-1a of the UTF-8 encoding of a text.
pub fn fnv1a_str(s: &str) -> (r: u64)
    ensures
        r == fnv1a(vstd::utf8::encode_utf8(s@)),
{
    let bytes = s.as_bytes();
    let mut hash: u64 = 0xcbf29ce484222325u64;
    let mut i: usize = 0;
    while i < bytes.len()
        invariant
            i <= bytes@.len(),
            bytes@ == vstd::utf8::encode_utf8(s@),
            hash == fnv1a(bytes@.take(i as int)),
        decreases bytes.len() - i,
    {
        assert(bytes@.take(i + 1).drop_last() =~= bytes@.take(i as int));
        hash = (hash ^ (bytes[i] as u64)).wrapping_mul(0x100000001b3u64);
        i = i + 1;
    }
    assert(bytes@.take(bytes@.len() as int) =~= bytes@);
    hash
}

} // verus!
