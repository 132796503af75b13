//! A block-streaming forward-error-correction transcoder.
//!
//! The input byte stream is cut into fixed-size data blocks (the last one
//! zero-padded), each block is expanded with parity bytes by a Reed-Solomon
//! codec, and the encoded blocks are concatenated in order.  Decoding walks
//! the encoded stream block by block, recovers each block despite a bounded
//! number of corrupted bytes, and substitutes a zero-filled block where the
//! corruption exceeds the correction bound.  A corruption-injection mode
//! overwrites the prefix of each freshly encoded block with random bytes to
//! exercise the decoder's recovery and fallback paths.

use vstd::prelude::*;

pub mod codec;
pub mod stream;
pub mod props;

verus! {

/// Number of payload bytes in one clear-side block.
pub const DATA_BLOCK_SIZE: usize = 4;

/// Number of bytes in one encoded block: the payload plus the parity bytes.
pub const ENCODED_BLOCK_SIZE: usize = 8;

/// Number of parity bytes appended to each data block.
pub const PARITY_SIZE: usize = ENCODED_BLOCK_SIZE - DATA_BLOCK_SIZE;

/// Largest number of corrupted bytes per encoded block that correction
/// is guaranteed to repair.
pub const CORRECTION_BOUND: usize = PARITY_SIZE / 2;

/// A sequence of `n` zero bytes.
pub open spec fn zero_seq(n: int) -> Seq<u8> {
    Seq::new(n as nat, |i: int| 0u8)
}

/// `s` extended with zero bytes up to length `n` (or cut to `n` if longer).
pub open spec fn pad_to(s: Seq<u8>, n: int) -> Seq<u8> {
    Seq::new(n as nat, |i: int| if 0 <= i < s.len() { s[i] } else { 0u8 })
}

/// How many blocks of `size` bytes a stream of `len` bytes yields: the
/// quotient rounded up, so a final short chunk still yields a block.
pub open spec fn num_blocks(len: int, size: int) -> int {
    (len + size - 1) / size
}

/// Block `k` of stream `s` read in windows of `size` bytes, zero-padded
/// past the end of `s`.
pub open spec fn stream_block(s: Seq<u8>, size: int, k: int) -> Seq<u8> {
    Seq::new(size as nat, |i: int| if 0 <= k * size + i < s.len() { s[k * size + i] } else { 0u8 })
}

} // verus!
