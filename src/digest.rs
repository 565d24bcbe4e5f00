//! The digest source: a fixed-key SipHash of an element's bytes.

use vstd::prelude::*;

verus! {

/// The SipHash-2-4 digest, under the keys 0 and 0, of a byte string.
pub uninterp spec fn sip_digest(bytes: Seq<u8>) -> u64;

/// Relies on siphasher's `SipHasher::new` and `SipHasher::hash`: a hasher
/// keyed with 0 and 0 whose digest depends on the bytes alone.
#[verifier::external_body]
pub(crate) fn digest(bytes: &[u8]) -> (r: u64)
    ensures
        r == sip_digest(bytes@),
{
    siphasher::sip::SipHasher::new().hash(bytes)
}

} // verus!
