//! What this library assumes of the outside crates it calls.

use vstd::prelude::*;

verus! {

/// Relies on `rand::random`: a value drawn from the thread-local generator.
/// Nothing is promised of the value.
pub assume_specification<T>[ rand::random::<T> ]() -> (r: T)
    where
        rand::distributions::Standard: rand::distributions::Distribution<T>,
;

} // verus!

verus! {

/// Relies on `bincode::serialize` (fixed-width integers, little-endian, no
/// size limit): a `Vec<u64>` becomes its length as a `u64`, then each word,
/// every one as eight little-endian bytes. It does not fail on this type.
#[verifier::external_body]
pub(crate) fn bincode_encode(ws: &Vec<u64>) -> (r: Vec<u8>)
    ensures
        r@ == crate::codec::framed_bytes(ws@),
{
    match bincode::serialize(ws) {
        Ok(b) => b,
        Err(_) => Vec::new(),
    }
}

/// Relies on `bincode::deserialize::<Vec<u64>>` (same format, trailing bytes
/// allowed): it reads the length, then that many words, and fails when the
/// bytes run out first.
#[verifier::external_body]
pub(crate) fn bincode_decode(b: &[u8]) -> (r: Option<Vec<u64>>)
    ensures
        r.is_some() ==> crate::codec::framed(r.unwrap()@, b@),
        forall|ws: Seq<u64>| #[trigger] crate::codec::framed(ws, b@) ==> r.is_some() && r.unwrap()@ == ws,
{
    match bincode::deserialize::<Vec<u64>>(b) {
        Ok(ws) => Some(ws),
        Err(_) => None,
    }
}

} // verus!
