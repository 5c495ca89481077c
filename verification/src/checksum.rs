//! Checksums of the parts of a file.
use vstd::prelude::*;
use xxhash_rust::xxh64::Xxh64;

verus! {

/// `xxhash_rust::xxh64::Xxh64`.
#[verifier::external_type_specification]
#[verifier::external_body]
pub struct ExXxh64(xxhash_rust::xxh64::Xxh64);

/// The bytes that a hasher has been given.
pub uninterp spec fn given_bytes(h: Xxh64) -> Seq<u8>;

/// The 64-bit xxHash of bytes, with seed 0.
pub uninterp spec fn xxh64_of(bytes: Seq<u8>) -> u64;

/// `Xxh64::new` with seed 0: a hasher that has been given nothing.
#[verifier::external_body]
fn new_hasher() -> (r: Xxh64)
    ensures
        given_bytes(r) == Seq::<u8>::empty(),
{
    Xxh64::new(0)
}

/// `Xxh64::update`: gives a hasher more bytes.
#[verifier::external_body]
fn give(h: &mut Xxh64, bytes: &[u8])
    ensures
        given_bytes(*final(h)) == given_bytes(*old(h)) + bytes@,
{
    h.update(bytes)
}

/// `Xxh64::digest`: the hash of all bytes that a hasher has been given, which is a
/// function of these bytes.
#[verifier::external_body]
fn digest(h: &Xxh64) -> (r: u64)
    ensures
        r == xxh64_of(given_bytes(*h)),
{
    h.digest()
}

/// The checksum of bytes that come part by part.
pub struct Checksum {
    hasher: Xxh64,
}

impl View for Checksum {
    type V = Seq<u8>;

    /// The bytes so far.
    closed spec fn view(&self) -> Seq<u8> {
        given_bytes(self.hasher)
    }
}

/// No bytes yet.
pub fn create_checksum() -> (r: Checksum)
    ensures
        r@ == Seq::<u8>::empty(),
{
    Checksum { hasher: new_hasher() }
}

impl Checksum {
    /// Takes in more bytes.
    pub fn update(&mut self, bytes: &[u8])
        ensures
            final(self)@ == old(self)@ + bytes@,
    {
        give(&mut self.hasher, bytes);
    }

    /// The checksum of all bytes so far.
    pub fn finalize(&self) -> (r: u64)
        ensures
            r == xxh64_of(self@),
    {
        digest(&self.hasher)
    }
}

} // verus!
