//! BLAKE3 content addressing, through the `blake3` crate.

use vstd::prelude::*;

verus! {

/// Lowercase hexadecimal text of the BLAKE3 hash of `data`.
pub uninterp spec fn blake3_hex(data: Seq<u8>) -> Seq<char>;

/// The bytes that a `blake3::Hasher` has absorbed so far.
pub uninterp spec fn hasher_absorbed(h: blake3::Hasher) -> Seq<u8>;

#[verifier::external_type_specification]
#[verifier::external_body]
pub struct ExBlake3Hasher(blake3::Hasher);

/// `blake3::hash(data).to_hex()`: the crate documents `to_hex` as the
/// lowercase hexadecimal encoding of the 32-byte hash, i.e. 64 characters.
#[verifier::external_body]
pub(crate) fn blake3_hash_hex(data: &[u8]) -> (r: String)
    ensures
        r@ == blake3_hex(data@),
        r@.len() == 64,
{
    blake3::hash(data).to_hex().to_string()
}

/// `blake3::Hasher::new()`: a hasher that has absorbed nothing.
#[verifier::external_body]
pub(crate) fn hasher_new() -> (h: blake3::Hasher)
    ensures
        hasher_absorbed(h) == Seq::<u8>::empty(),
{
    blake3::Hasher::new()
}

/// `blake3::Hasher::update`: appends `data` to the absorbed input.
#[verifier::external_body]
pub(crate) fn hasher_update(h: &mut blake3::Hasher, data: &[u8])
    ensures
        hasher_absorbed(*final(h)) == hasher_absorbed(*old(h)) + data@,
{
    h.update(data);
}

/// `blake3::Hasher::finalize().to_hex()`: the crate documents that an
/// incremental hasher gives the same hash as `blake3::hash` over all the
/// bytes it absorbed.
#[verifier::external_body]
pub(crate) fn hasher_finalize_hex(h: &blake3::Hasher) -> (r: String)
    ensures
        r@ == blake3_hex(hasher_absorbed(*h)),
        r@.len() == 64,
{
    h.finalize().to_hex().to_string()
}

/// The 32 bytes of the BLAKE3 hash of `data`.
pub uninterp spec fn blake3_bytes(data: Seq<u8>) -> Seq<u8>;

/// `<[u8; 32]>::from(blake3::hash(data))`: the hash's bytes.
#[verifier::external_body]
pub(crate) fn blake3_digest(data: &[u8]) -> (r: [u8; 32])
    ensures
        r@ == blake3_bytes(data@),
{
    blake3::hash(data).into()
}

/// An incremental BLAKE3 hash over bytes fed in pieces.
pub struct ContentHasher {
    hasher: blake3::Hasher,
}

impl ContentHasher {
    /// The bytes fed so far.
    pub closed spec fn absorbed(&self) -> Seq<u8> {
        hasher_absorbed(self.hasher)
    }

    pub fn new() -> (h: Self)
        ensures
            h.absorbed() == Seq::<u8>::empty(),
    {
        ContentHasher { hasher: hasher_new() }
    }

    /// Feed the next piece.
    pub fn update(&mut self, data: &[u8])
        ensures
            final(self).absorbed() == old(self).absorbed() + data@,
    {
        hasher_update(&mut self.hasher, data);
    }

    /// Lowercase hexadecimal BLAKE3 hash of everything fed: the same as
    /// hashing all of it at once.
    pub fn finish_hex(&self) -> (r: String)
        ensures
            r@ == blake3_hex(self.absorbed()),
            r@.len() == 64,
    {
        hasher_finalize_hex(&self.hasher)
    }
}

} // verus!
