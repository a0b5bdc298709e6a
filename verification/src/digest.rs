//! The MD-5 digest used to name cached audio files.

use md5::Digest;
use vstd::prelude::*;

verus! {

/// The MD-5 digest of a byte sequence.
pub uninterp spec fn md5_of(data: Seq<u8>) -> Seq<u8>;

/// Calls `md5::Md5::digest` (the `Digest` trait of the `md-5` crate). The
/// contract claims that the 16 digest bytes are a function of the input alone
/// ([`md5_of`]) and that there are 16 of them, as the crate's output size says.
#[verifier::external_body]
pub(crate) fn md5_digest(data: &[u8]) -> (r: Vec<u8>)
    ensures
        r@ == md5_of(data@),
        r@.len() == 16,
{
    md5::Md5::digest(data).to_vec()
}

} // verus!
