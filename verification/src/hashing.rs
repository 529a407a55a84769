//! Content fingerprinting.  A fingerprint is the 128-bit digest of a
//! file's bytes; the digest computation itself is done by the md5
//! crate behind a small trusted surface, and the chunked feeding of
//! bytes is verified against it.

use vstd::prelude::*;

verus! {

/// Bytes fed to the hasher in one step.
pub const BUFFER_SIZE: usize = 65535;

#[verifier::external_type_specification]
#[verifier::external_body]
pub struct ExMd5Context(md5::Context);

/// The 128-bit digest that the md5 crate computes for a byte
/// sequence; it depends on the bytes alone.
pub uninterp spec fn md5_of(bytes: Seq<u8>) -> Seq<u8>;

/// A running fingerprint computation over a stream of byte chunks.
pub struct Hasher {
    ctx: md5::Context,
    fed: Ghost<Seq<u8>>,
}

impl Hasher {
    /// All bytes fed so far.
    pub closed spec fn fed(self) -> Seq<u8> {
        self.fed@
    }

    /// Relies on md5::Context::new: a fresh context that has consumed
    /// no input.
    #[verifier::external_body]
    pub fn new() -> (h: Hasher)
        ensures
            h.fed() == Seq::<u8>::empty(),
    {
        Hasher { ctx: md5::Context::new(), fed: Ghost(Seq::empty()) }
    }

    /// Relies on md5::Context::consume: appends the chunk to the
    /// hashed input.
    #[verifier::external_body]
    pub fn consume(&mut self, chunk: &[u8])
        ensures
            final(self).fed() == old(self).fed() + chunk@,
    {
        self.ctx.consume(chunk);
    }

    /// Relies on md5::Context::finalize: the digest of everything
    /// consumed, sixteen bytes long.
    #[verifier::external_body]
    pub fn finish(self) -> (d: Vec<u8>)
        ensures
            d@ == md5_of(self.fed()),
            d@.len() == 16,
    {
        self.ctx.finalize().0.to_vec()
    }
}

/// The fingerprint of a byte sequence held in memory, fed to the
/// hasher in chunks of `BUFFER_SIZE` bytes.
pub fn fingerprint_bytes(data: &[u8]) -> (d: Vec<u8>)
    ensures
        d@ == md5_of(data@),
        d@.len() == 16,
{
    let mut h = Hasher::new();
    let mut i: usize = 0;
    proof {
        assert(data@.take(0) =~= Seq::<u8>::empty());
    }
    loop
        invariant
            i <= data@.len(),
            h.fed() == data@.take(i as int),
        decreases data@.len() - i,
    {
        if i == data.len() {
            proof {
                assert(data@.take(data@.len() as int) =~= data@);
            }
            return h.finish();
        }
        let step = if data.len() - i < BUFFER_SIZE {
            data.len() - i
        } else {
            BUFFER_SIZE
        };
        let chunk = vstd::slice::slice_subrange(data, i, i + step);
        h.consume(chunk);
        i = i + step;
        proof {
            assert(data@.take(i as int) =~= data@.take(i as int - step) + data@.subrange(
                i as int - step,
                i as int,
            ));
        }
    }
}

} // verus!
