//! Byte sets filled with random bytes.

use crate::set::ByteSet;
use vstd::prelude::*;

verus! {

/// The random generator could not produce bytes.
#[derive(Clone, Copy, PartialEq, Eq, Debug)]
pub struct EntropyError;

#[verifier::external_type_specification]
#[verifier::external_body]
pub struct ExRandError(rand::Error);

/// Relies on rand::thread_rng and RngCore::fill_bytes: every byte of the
/// buffer is overwritten with a byte from the thread-local generator, and
/// the length is unchanged. Panics if the generator fails.
#[verifier::external_body]
fn fill_from_thread_rng(buf: &mut Vec<u8>)
    ensures
        final(buf)@.len() == old(buf)@.len(),
{
    rand::RngCore::fill_bytes(&mut rand::thread_rng(), buf.as_mut_slice())
}

/// Relies on rand::thread_rng and RngCore::try_fill_bytes: on success
/// every byte of the buffer is overwritten with a byte from the
/// thread-local generator; either way the length is unchanged.
#[verifier::external_body]
fn try_fill_from_thread_rng(buf: &mut Vec<u8>) -> (r: Result<(), rand::Error>)
    ensures
        final(buf)@.len() == old(buf)@.len(),
{
    rand::RngCore::try_fill_bytes(&mut rand::thread_rng(), buf.as_mut_slice())
}

/// A 32-byte buffer of zeros.
fn zeroed_mask_buffer() -> (r: Vec<u8>)
    ensures
        r@.len() == 32,
{
    let mut buf: Vec<u8> = Vec::new();
    let mut k: usize = 0;
    while k < 32
        invariant
            buf@.len() == k,
            k <= 32,
        decreases 32 - k,
    {
        buf.push(0u8);
        k = k + 1;
    }
    buf
}

impl ByteSet {
    /// Returns a set whose mask is filled with random bytes from the
    /// thread-local generator.
    ///
    /// Every bit of the mask is drawn independently, so the distribution
    /// is uniform over the 256-bit patterns, not over set sizes.
    pub fn rand() -> ByteSet {
        let mut buf = zeroed_mask_buffer();
        fill_from_thread_rng(&mut buf);
        ByteSet::from_bytes(buf.as_slice())
    }

    /// Returns a set whose mask is filled with random bytes from the
    /// thread-local generator, or an error if the generator failed.
    pub fn try_rand() -> Result<ByteSet, EntropyError> {
        let mut buf = zeroed_mask_buffer();
        match try_fill_from_thread_rng(&mut buf) {
            Ok(()) => Ok(ByteSet::from_bytes(buf.as_slice())),
            Err(_) => Err(EntropyError),
        }
    }
}

} // verus!
