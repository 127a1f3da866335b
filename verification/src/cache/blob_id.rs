//! Identifiers of blobs and how they are drawn.

use vstd::prelude::*;

verus! {

/// The size of a [`BlobId`] in bytes.
pub const BLOB_ID_SIZE: usize = 16;

/// A unique identifier for a blob in the cache.
pub type BlobId = [u8; BLOB_ID_SIZE];

/// A source of random bytes.
pub trait RngBytes {
    /// Whether the generator may fill a buffer with `bytes` and be `after`
    /// afterwards. A generator that says nothing of itself may give any
    /// bytes.
    open spec fn fills(&self, after: &Self, bytes: Seq<u8>) -> bool {
        true
    }

    /// Fills `buf` with random bytes.
    fn fill_bytes(&mut self, buf: &mut BlobId)
        ensures
            old(self).fills(final(self), final(buf)@),
    ;
}

/// Fills `buf` with `RngCore::fill_bytes` of the thread-local generator of
/// the `rand` crate, which is seeded by the system and fit for cryptography.
/// Any bytes may come out.
#[verifier::external_body]
fn thread_rng_fill(buf: &mut BlobId) {
    rand::RngCore::fill_bytes(&mut rand::rngs::ThreadRng::default(), buf)
}

/// The thread-local random number generator of the system.
#[derive(Debug, Clone, Copy)]
pub struct ThreadRng;

impl RngBytes for ThreadRng {
    /// Fills `buf` from the generator of the system; any bytes may come
    /// out.
    fn fill_bytes(&mut self, buf: &mut BlobId) {
        thread_rng_fill(buf)
    }
}

/// Factory for generating new blob IDs from a random number generator.
#[derive(Debug)]
pub struct BlobIdFactory<R: RngBytes> {
    rng: R,
}

impl<R: RngBytes> BlobIdFactory<R> {
    /// The random number generator of the factory.
    pub closed spec fn rng(&self) -> R {
        self.rng
    }

    /// Creates a new blob ID factory with the given random number generator.
    pub fn new(rng: R) -> (factory: Self)
        ensures
            factory.rng() == rng,
    {
        Self { rng }
    }

    /// Generates a new blob ID: the bytes that the random number generator
    /// fills in. Which bytes these are is for the generator to decide.
    pub fn new_id(&mut self) -> (id: BlobId)
        ensures
            old(self).rng().fills(&final(self).rng(), id@),
    {
        let mut bytes: BlobId = [0, 0, 0, 0, 0, 0, 0, 0, 0, 0, 0, 0, 0, 0, 0, 0];
        self.rng.fill_bytes(&mut bytes);
        bytes
    }
}

impl Default for BlobIdFactory<ThreadRng> {
    fn default() -> BlobIdFactory<ThreadRng> {
        Self::new(ThreadRng)
    }
}

} // verus!
