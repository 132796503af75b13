//! The forward-error-correction primitive, supplied by the `reed_solomon`
//! crate behind two trusted wrappers: `encode` expands a data block with
//! parity bytes, `correct` recovers a data block from an encoded block with
//! at most [`CORRECTION_BOUND`] corrupted bytes.

use vstd::prelude::*;
use rand::Rng;

use crate::CORRECTION_BOUND;
use crate::DATA_BLOCK_SIZE;
use crate::ENCODED_BLOCK_SIZE;
use crate::PARITY_SIZE;

verus! {

/// The encoded block that the Reed-Solomon encoder with [`PARITY_SIZE`]
/// parity bytes yields for the data block `data`.
pub uninterp spec fn rs_encoded(data: Seq<u8>) -> Seq<u8>;

/// What the Reed-Solomon decoder with [`PARITY_SIZE`] parity bytes makes of
/// the encoded block `block`: the recovered data block, or `None` where it
/// finds the block uncorrectable.
pub uninterp spec fn rs_corrected(block: Seq<u8>) -> Option<Seq<u8>>;

/// How many positions of `a` hold a different byte than the same position
/// of `b` (for sequences of equal length).
pub open spec fn diff_count(a: Seq<u8>, b: Seq<u8>) -> nat
    decreases a.len(),
{
    if a.len() == 0 || b.len() == 0 {
        0
    } else {
        diff_count(a.drop_last(), b.drop_last()) + if a.last() == b.last() {
            0nat
        } else {
            1nat
        }
    }
}

/// `block` is close enough to the encoding of `data` that correction is
/// guaranteed to recover `data`: at most [`CORRECTION_BOUND`] bytes differ.
pub open spec fn recoverable(block: Seq<u8>, data: Seq<u8>) -> bool {
    &&& data.len() == DATA_BLOCK_SIZE
    &&& block.len() == ENCODED_BLOCK_SIZE
    &&& rs_encoded(data).len() == ENCODED_BLOCK_SIZE
    &&& diff_count(block, rs_encoded(data)) <= CORRECTION_BOUND
}

/// What one encoded block contributes to the decoded stream: the recovered
/// data block, or a zero-filled block where correction fails.
pub open spec fn decoded_block(block: Seq<u8>) -> Seq<u8> {
    match rs_corrected(block) {
        Some(data) => data,
        None => crate::zero_seq(DATA_BLOCK_SIZE as int),
    }
}

/// Relies on `reed_solomon::Encoder::encode`: the returned buffer holds the
/// data bytes unchanged, followed by the parity bytes, and its length is the
/// data length plus the parity length.
#[verifier::external_body]
pub(crate) fn rs_encode_block(data: &Vec<u8>) -> (r: Vec<u8>)
    requires
        data@.len() == DATA_BLOCK_SIZE,
    ensures
        r@ == rs_encoded(data@),
        r@.len() == ENCODED_BLOCK_SIZE,
        r@.subrange(0, DATA_BLOCK_SIZE as int) == data@,
{
    let encoder = reed_solomon::Encoder::new(PARITY_SIZE);
    let encoded = encoder.encode(data.as_slice());
    encoded[..].to_vec()
}

/// Relies on `reed_solomon::Decoder::correct`: it returns the data bytes of
/// the corrected block whenever at most `ecc_len / 2` bytes of a codeword
/// were altered, and `TooManyErrors` where it cannot repair the block.
#[verifier::external_body]
pub(crate) fn rs_correct_block(block: &Vec<u8>) -> (r: Option<Vec<u8>>)
    requires
        block@.len() == ENCODED_BLOCK_SIZE,
    ensures
        r is Some <==> rs_corrected(block@) is Some,
        r is Some ==> r->Some_0@ == rs_corrected(block@)->Some_0,
        r is Some ==> r->Some_0@.len() == DATA_BLOCK_SIZE,
        forall|data: Seq<u8>|
            recoverable(block@, data) ==> r is Some && r->Some_0@ == data,
{
    let decoder = reed_solomon::Decoder::new(PARITY_SIZE);
    match decoder.correct(block.as_slice(), None) {
        Ok(fixed) => Some(fixed.data().to_vec()),
        Err(reed_solomon::DecoderError::TooManyErrors) => None,
    }
}

/// Relies on `rand::Rng::gen`: one byte from the thread-local generator.
/// Nothing is assumed of its value.
#[verifier::external_body]
pub(crate) fn random_byte() -> u8 {
    rand::thread_rng().gen::<u8>()
}

/// A sequence equals itself in every position.
pub proof fn lemma_diff_count_self(a: Seq<u8>, b: Seq<u8>)
    requires
        a == b,
    ensures
        diff_count(a, b) == 0,
    decreases a.len(),
{
    if a.len() != 0 {
        lemma_diff_count_self(a.drop_last(), b.drop_last());
    }
}

} // verus!
