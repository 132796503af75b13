//! Laws that relate the pipelines to one another: a clean round trip
//! reproduces the padded input, corruption within the correction bound is
//! transparent, a block the codec gives up on decodes to zeros, and
//! corruption of one block never disturbs the others.

use vstd::prelude::*;

use crate::codec::decoded_block;
use crate::codec::diff_count;
use crate::codec::lemma_diff_count_self;
use crate::codec::recoverable;
use crate::codec::rs_corrected;
use crate::codec::rs_encoded;
use crate::stream::decode_post;
use crate::stream::encode_post;
use crate::CORRECTION_BOUND;
use crate::DATA_BLOCK_SIZE;
use crate::ENCODED_BLOCK_SIZE;

verus! {

/// The clear stream as a decode of its own encoding reproduces it: the
/// input rounded up to a whole number of data blocks with zero padding.
pub open spec fn padded_clear(x: Seq<u8>) -> Seq<u8> {
    crate::pad_to(
        x,
        crate::num_blocks(x.len() as int, DATA_BLOCK_SIZE as int) * (DATA_BLOCK_SIZE as int),
    )
}

/// Bounded-corruption recovery: where `clean` encodes `x`, any stream
/// `noisy` that differs from `clean` by at most [`CORRECTION_BOUND`] bytes
/// within each encoded block decodes to exactly `x` zero-padded to whole
/// data blocks.
pub proof fn lemma_bounded_corruption_recovery(
    x: Seq<u8>,
    clean: Seq<u8>,
    noisy: Seq<u8>,
    out: Seq<u8>,
)
    requires
        encode_post(x, clean),
        noisy.len() == clean.len(),
        forall|k: int|
            0 <= k < crate::num_blocks(x.len() as int, DATA_BLOCK_SIZE as int) ==> diff_count(
                crate::stream_block(noisy, ENCODED_BLOCK_SIZE as int, k),
                crate::stream_block(clean, ENCODED_BLOCK_SIZE as int, k),
            ) <= CORRECTION_BOUND,
        decode_post(noisy, out),
    ensures
        out == padded_clear(x),
{
    let d = DATA_BLOCK_SIZE as int;
    let e = ENCODED_BLOCK_SIZE as int;
    let n = crate::num_blocks(x.len() as int, d);
    assert(clean.len() == n * e);
    assert(crate::num_blocks(noisy.len() as int, e) == n) by {
        assert((n * 8 + 7) / 8 == n) by (nonlinear_arith);
    }
    assert forall|k: int| 0 <= k < n implies out.subrange(k * d, (k + 1) * d)
        == crate::stream_block(x, d, k) by {
        let cblk = crate::stream_block(x, d, k);
        let clean_blk = crate::stream_block(clean, e, k);
        let noisy_blk = crate::stream_block(noisy, e, k);
        assert(0 <= k * e && (k + 1) * e <= n * e) by (nonlinear_arith)
            requires 0 <= k < n && e == 8;
        assert(clean_blk =~= clean.subrange(k * e, (k + 1) * e));
        assert(clean.subrange(k * e, (k + 1) * e) == rs_encoded(cblk));
        assert(diff_count(noisy_blk, clean_blk) <= CORRECTION_BOUND);
        assert(recoverable(noisy_blk, cblk));
        assert(rs_corrected(noisy_blk) == Some(cblk));
        assert(out.subrange(k * d, (k + 1) * d) == decoded_block(noisy_blk));
    }
    assert forall|i: int| 0 <= i < n * d implies out[i] == padded_clear(x)[i] by {
        let k = i / d;
        assert(k * d <= i < (k + 1) * d && 0 <= k < n) by (nonlinear_arith)
            requires d == 4 && 0 <= i < n * d && k == i / d;
        assert(out.subrange(k * d, (k + 1) * d)[i - k * d] == out[i]);
        assert(crate::stream_block(x, d, k)[i - k * d] == padded_clear(x)[i]);
    }
    assert(out =~= padded_clear(x));
}

/// Round-trip identity over a clean channel: any decode of any encoding of
/// `x` yields exactly `x` zero-padded to a whole number of data blocks.
pub proof fn lemma_round_trip(x: Seq<u8>, y: Seq<u8>, out: Seq<u8>)
    requires
        encode_post(x, y),
        decode_post(y, out),
    ensures
        out == padded_clear(x),
{
    let e = ENCODED_BLOCK_SIZE as int;
    let n = crate::num_blocks(x.len() as int, DATA_BLOCK_SIZE as int);
    assert forall|k: int| 0 <= k < n implies diff_count(
        crate::stream_block(y, e, k),
        crate::stream_block(y, e, k),
    ) <= CORRECTION_BOUND by {
        lemma_diff_count_self(crate::stream_block(y, e, k), crate::stream_block(y, e, k));
    }
    lemma_bounded_corruption_recovery(x, y, y, out);
}

/// Over-threshold fallback: a block the codec reports uncorrectable decodes
/// to a zero-filled data block, and the output still carries every block of
/// the stream.
pub proof fn lemma_uncorrectable_fallback(y: Seq<u8>, out: Seq<u8>, k: int)
    requires
        decode_post(y, out),
        0 <= k < crate::num_blocks(y.len() as int, ENCODED_BLOCK_SIZE as int),
        rs_corrected(crate::stream_block(y, ENCODED_BLOCK_SIZE as int, k)) is None,
    ensures
        out.len() == crate::num_blocks(y.len() as int, ENCODED_BLOCK_SIZE as int) * (
        DATA_BLOCK_SIZE as int),
        out.subrange(k * (DATA_BLOCK_SIZE as int), (k + 1) * (DATA_BLOCK_SIZE as int))
            == crate::zero_seq(DATA_BLOCK_SIZE as int),
{
    let d = DATA_BLOCK_SIZE as int;
    let e = ENCODED_BLOCK_SIZE as int;
    assert(out.subrange(k * d, (k + 1) * d) == decoded_block(crate::stream_block(y, e, k)));
}

/// Order preservation: where `clean` encodes `x` and `noisy` agrees with
/// `clean` on every encoded block but block `kc`, every output block other
/// than block `kc` equals its clean round-trip value, whatever became of
/// block `kc`.
pub proof fn lemma_order_preservation(
    x: Seq<u8>,
    clean: Seq<u8>,
    noisy: Seq<u8>,
    out: Seq<u8>,
    kc: int,
)
    requires
        encode_post(x, clean),
        noisy.len() == clean.len(),
        forall|k: int|
            0 <= k < crate::num_blocks(x.len() as int, DATA_BLOCK_SIZE as int) && k != kc
                ==> crate::stream_block(noisy, ENCODED_BLOCK_SIZE as int, k)
                == crate::stream_block(clean, ENCODED_BLOCK_SIZE as int, k),
        decode_post(noisy, out),
    ensures
        out.len() == crate::num_blocks(x.len() as int, DATA_BLOCK_SIZE as int) * (
        DATA_BLOCK_SIZE as int),
        forall|k: int|
            0 <= k < crate::num_blocks(x.len() as int, DATA_BLOCK_SIZE as int) && k != kc
                ==> out.subrange(k * (DATA_BLOCK_SIZE as int), (k + 1) * (DATA_BLOCK_SIZE as int))
                == crate::stream_block(x, DATA_BLOCK_SIZE as int, k),
{
    let d = DATA_BLOCK_SIZE as int;
    let e = ENCODED_BLOCK_SIZE as int;
    let n = crate::num_blocks(x.len() as int, d);
    assert(clean.len() == n * e);
    assert(crate::num_blocks(noisy.len() as int, e) == n) by {
        assert((n * 8 + 7) / 8 == n) by (nonlinear_arith);
    }
    assert forall|k: int| 0 <= k < n && k != kc implies out.subrange(k * d, (k + 1) * d)
        == crate::stream_block(x, d, k) by {
        let cblk = crate::stream_block(x, d, k);
        let clean_blk = crate::stream_block(clean, e, k);
        let noisy_blk = crate::stream_block(noisy, e, k);
        assert(0 <= k * e && (k + 1) * e <= n * e) by (nonlinear_arith)
            requires 0 <= k < n && e == 8;
        assert(clean_blk =~= clean.subrange(k * e, (k + 1) * e));
        assert(clean.subrange(k * e, (k + 1) * e) == rs_encoded(cblk));
        assert(noisy_blk == clean_blk);
        lemma_diff_count_self(noisy_blk, rs_encoded(cblk));
        assert(recoverable(noisy_blk, cblk));
        assert(rs_corrected(noisy_blk) == Some(cblk));
        assert(out.subrange(k * d, (k + 1) * d) == decoded_block(noisy_blk));
    }
}

} // verus!
