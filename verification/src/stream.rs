//! The block-streaming pipelines: chunk the input into fixed-size windows,
//! zero-pad the final short window, transform each block with the codec, and
//! concatenate the transformed blocks in order.

use vstd::prelude::*;

use crate::codec::decoded_block;
use crate::codec::random_byte;
use crate::codec::recoverable;
use crate::codec::rs_correct_block;
use crate::codec::rs_corrected;
use crate::codec::rs_encode_block;
use crate::codec::rs_encoded;
use crate::DATA_BLOCK_SIZE;
use crate::ENCODED_BLOCK_SIZE;
use crate::PARITY_SIZE;

verus! {

/// What the encode pipeline leaves in `out` for the input `input`: one
/// encoded block per data-size window of the input, in order.
pub open spec fn encode_post(input: Seq<u8>, out: Seq<u8>) -> bool {
    let n = crate::num_blocks(input.len() as int, DATA_BLOCK_SIZE as int);
    let e = ENCODED_BLOCK_SIZE as int;
    &&& out.len() == n * e
    &&& forall|k: int|
        0 <= k < n ==> out.subrange(k * e, (k + 1) * e) == rs_encoded(
            crate::stream_block(input, DATA_BLOCK_SIZE as int, k),
        )
}

/// The window of `size` bytes of `input` starting at `start`, zero-padded
/// where the input ends before `start + size`.
fn read_block(input: &Vec<u8>, start: usize, size: usize) -> (block: Vec<u8>)
    ensures
        block@.len() == size,
        forall|i: int|
            0 <= i < size ==> block@[i] == (if start + i < input@.len() {
                input@[start + i]
            } else {
                0u8
            }),
{
    let mut block: Vec<u8> = Vec::new();
    let mut j: usize = 0;
    while j < size
        invariant
            j <= size,
            block@.len() == j,
            forall|i: int|
                0 <= i < j ==> block@[i] == (if start + i < input@.len() {
                    input@[start + i]
                } else {
                    0u8
                }),
        decreases size - j,
    {
        if start < input.len() && j < input.len() - start {
            block.push(input[start + j]);
        } else {
            block.push(0u8);
        }
        j = j + 1;
    }
    block
}

/// Encode pipeline: cut the input into data-size windows (the last one
/// zero-padded), encode each window, and concatenate the encoded blocks.
pub fn encode_stream(input: &Vec<u8>) -> (out: Vec<u8>)
    ensures
        encode_post(input@, out@),
{
    let ghost d = DATA_BLOCK_SIZE as int;
    let ghost e = ENCODED_BLOCK_SIZE as int;
    let ghost n = crate::num_blocks(input@.len() as int, d);
    let mut out: Vec<u8> = Vec::new();
    let mut pos: usize = 0;
    let ghost mut k: int = 0;
    while pos < input.len()
        invariant
            d == DATA_BLOCK_SIZE as int,
            e == ENCODED_BLOCK_SIZE as int,
            n == crate::num_blocks(input@.len() as int, d),
            0 <= k,
            pos <= input@.len(),
            pos < input@.len() ==> pos == k * d,
            pos == input@.len() ==> (pos == k * d || k == n),
            out@.len() == k * e,
            forall|j: int|
                0 <= j < k ==> out@.subrange(j * e, (j + 1) * e) == rs_encoded(
                    crate::stream_block(input@, d, j),
                ),
        decreases input@.len() - pos,
    {
        let block = read_block(input, pos, DATA_BLOCK_SIZE);
        proof {
            assert(block@ =~= crate::stream_block(input@, d, k));
        }
        let mut enc = rs_encode_block(&block);
        let ghost out_before = out@;
        let ghost enc_view = enc@;
        out.append(&mut enc);
        proof {
            assert forall|j: int| 0 <= j < k + 1 implies out@.subrange(j * e, (j + 1) * e)
                == rs_encoded(crate::stream_block(input@, d, j)) by {
                if j < k {
                    assert(out@.subrange(j * e, (j + 1) * e) =~= out_before.subrange(
                        j * e,
                        (j + 1) * e,
                    ));
                } else {
                    assert(out@.subrange(k * e, (k + 1) * e) =~= enc_view);
                }
            }
        }
        if input.len() - pos < DATA_BLOCK_SIZE {
            pos = input.len();
            proof {
                assert(k * d < input@.len() && input@.len() < (k + 1) * d);
                assert(n == k + 1);
            }
        } else {
            pos = pos + DATA_BLOCK_SIZE;
        }
        proof {
            k = k + 1;
        }
    }
    proof {
        if k * d == input@.len() {
            assert(n == k);
        }
        assert(encode_post(input@, out@));
    }
    out
}

/// What the decode pipeline leaves in `out` for the input `input`: one
/// recovered (or, where correction failed, zero-filled) data block per
/// encoded-size window of the input, in order.  Every window within the
/// correction bound of a clean encoding is owed its exact data block.
pub open spec fn decode_post(input: Seq<u8>, out: Seq<u8>) -> bool {
    let n = crate::num_blocks(input.len() as int, ENCODED_BLOCK_SIZE as int);
    let d = DATA_BLOCK_SIZE as int;
    let e = ENCODED_BLOCK_SIZE as int;
    &&& out.len() == n * d
    &&& forall|k: int|
        0 <= k < n ==> out.subrange(k * d, (k + 1) * d) == decoded_block(
            crate::stream_block(input, e, k),
        )
    &&& forall|k: int, data: Seq<u8>|
        0 <= k < n && recoverable(crate::stream_block(input, e, k), data) ==> rs_corrected(
            crate::stream_block(input, e, k),
        ) == Some(data)
}

/// Decode pipeline: cut the input into encoded-size windows (a truncated
/// final window zero-padded), correct each window, and concatenate the
/// recovered data blocks; a window the codec reports uncorrectable yields a
/// zero-filled data block and the run continues.
pub fn decode_stream(input: &Vec<u8>) -> (out: Vec<u8>)
    ensures
        decode_post(input@, out@),
{
    let ghost d = DATA_BLOCK_SIZE as int;
    let ghost e = ENCODED_BLOCK_SIZE as int;
    let ghost n = crate::num_blocks(input@.len() as int, e);
    let mut out: Vec<u8> = Vec::new();
    let mut pos: usize = 0;
    let ghost mut k: int = 0;
    while pos < input.len()
        invariant
            d == DATA_BLOCK_SIZE as int,
            e == ENCODED_BLOCK_SIZE as int,
            n == crate::num_blocks(input@.len() as int, e),
            0 <= k,
            pos <= input@.len(),
            pos < input@.len() ==> pos == k * e,
            pos == input@.len() ==> (pos == k * e || k == n),
            out@.len() == k * d,
            forall|j: int|
                0 <= j < k ==> out@.subrange(j * d, (j + 1) * d) == decoded_block(
                    crate::stream_block(input@, e, j),
                ),
            forall|j: int, data: Seq<u8>|
                0 <= j < k && recoverable(crate::stream_block(input@, e, j), data)
                    ==> rs_corrected(crate::stream_block(input@, e, j)) == Some(data),
        decreases input@.len() - pos,
    {
        let block = read_block(input, pos, ENCODED_BLOCK_SIZE);
        proof {
            assert(block@ =~= crate::stream_block(input@, e, k));
        }
        let ghost out_before = out@;
        let ghost recovered: Seq<u8>;
        match rs_correct_block(&block) {
            Some(mut data) => {
                proof {
                    recovered = data@;
                    assert(decoded_block(block@) == data@);
                }
                out.append(&mut data);
            },
            None => {
                let mut blank = zero_vec(DATA_BLOCK_SIZE);
                proof {
                    recovered = blank@;
                    assert(decoded_block(block@) =~= blank@);
                }
                out.append(&mut blank);
            },
        }
        proof {
            assert forall|j: int| 0 <= j < k + 1 implies out@.subrange(j * d, (j + 1) * d)
                == decoded_block(crate::stream_block(input@, e, j)) by {
                if j < k {
                    assert(out@.subrange(j * d, (j + 1) * d) =~= out_before.subrange(
                        j * d,
                        (j + 1) * d,
                    ));
                } else {
                    assert(out@.subrange(k * d, (k + 1) * d) =~= recovered);
                }
            }
        }
        if input.len() - pos < ENCODED_BLOCK_SIZE {
            pos = input.len();
            proof {
                assert(k * e < input@.len() && input@.len() < (k + 1) * e);
                assert(n == k + 1);
            }
        } else {
            pos = pos + ENCODED_BLOCK_SIZE;
        }
        proof {
            k = k + 1;
        }
    }
    proof {
        if k * e == input@.len() {
            assert(n == k);
        }
        assert(decode_post(input@, out@));
    }
    out
}

/// A vector of `n` zero bytes.
fn zero_vec(n: usize) -> (r: Vec<u8>)
    ensures
        r@ == crate::zero_seq(n as int),
{
    let mut r: Vec<u8> = Vec::new();
    let mut j: usize = 0;
    while j < n
        invariant
            j <= n,
            r@.len() == j,
            forall|i: int| 0 <= i < j ==> r@[i] == 0u8,
        decreases n - j,
    {
        r.push(0u8);
        j = j + 1;
    }
    proof {
        assert(r@ =~= crate::zero_seq(n as int));
    }
    r
}

/// Corruption injector: overwrite the first [`PARITY_SIZE`] bytes of one
/// encoded block with random bytes; the rest of the block is untouched and
/// its length does not change.
pub fn corrupt_block(block: &mut Vec<u8>)
    requires
        old(block)@.len() == ENCODED_BLOCK_SIZE,
    ensures
        final(block)@.len() == ENCODED_BLOCK_SIZE,
        final(block)@.subrange(PARITY_SIZE as int, ENCODED_BLOCK_SIZE as int) == old(
            block,
        )@.subrange(PARITY_SIZE as int, ENCODED_BLOCK_SIZE as int),
{
    let mut noisy: Vec<u8> = Vec::new();
    let mut j: usize = 0;
    while j < PARITY_SIZE
        invariant
            j <= PARITY_SIZE,
            noisy@.len() == j,
        decreases PARITY_SIZE - j,
    {
        noisy.push(random_byte());
        j = j + 1;
    }
    while j < ENCODED_BLOCK_SIZE
        invariant
            old(block)@.len() == ENCODED_BLOCK_SIZE,
            PARITY_SIZE <= j <= ENCODED_BLOCK_SIZE,
            noisy@.len() == j,
            forall|i: int| PARITY_SIZE <= i < j ==> noisy@[i] == old(block)@[i],
        decreases ENCODED_BLOCK_SIZE - j,
    {
        noisy.push(block[j]);
        j = j + 1;
    }
    proof {
        assert(noisy@.subrange(PARITY_SIZE as int, ENCODED_BLOCK_SIZE as int) =~= old(
            block,
        )@.subrange(PARITY_SIZE as int, ENCODED_BLOCK_SIZE as int));
    }
    *block = noisy;
}

/// What the corruption-injecting encode pipeline leaves in `out`: as many
/// encoded blocks as the plain encode pipeline, where the trailing bytes of
/// every block, past the overwritten prefix, are those of the clean encoding.
pub open spec fn errcode_post(input: Seq<u8>, out: Seq<u8>) -> bool {
    let n = crate::num_blocks(input.len() as int, DATA_BLOCK_SIZE as int);
    let e = ENCODED_BLOCK_SIZE as int;
    let p = PARITY_SIZE as int;
    &&& out.len() == n * e
    &&& forall|k: int|
        0 <= k < n ==> out.subrange(k * e + p, (k + 1) * e) == rs_encoded(
            crate::stream_block(input, DATA_BLOCK_SIZE as int, k),
        ).subrange(p, e)
}

/// Encode pipeline with corruption injection: encode each data-size window
/// as [`encode_stream`] does, then overwrite the prefix of every encoded
/// block with random bytes before it joins the output.
pub fn encode_stream_with_err(input: &Vec<u8>) -> (out: Vec<u8>)
    ensures
        errcode_post(input@, out@),
{
    let ghost d = DATA_BLOCK_SIZE as int;
    let ghost e = ENCODED_BLOCK_SIZE as int;
    let ghost p = PARITY_SIZE as int;
    let ghost n = crate::num_blocks(input@.len() as int, d);
    let mut out: Vec<u8> = Vec::new();
    let mut pos: usize = 0;
    let ghost mut k: int = 0;
    while pos < input.len()
        invariant
            d == DATA_BLOCK_SIZE as int,
            e == ENCODED_BLOCK_SIZE as int,
            p == PARITY_SIZE as int,
            n == crate::num_blocks(input@.len() as int, d),
            0 <= k,
            pos <= input@.len(),
            pos < input@.len() ==> pos == k * d,
            pos == input@.len() ==> (pos == k * d || k == n),
            out@.len() == k * e,
            forall|j: int|
                0 <= j < k ==> out@.subrange(j * e + p, (j + 1) * e) == rs_encoded(
                    crate::stream_block(input@, d, j),
                ).subrange(p, e),
        decreases input@.len() - pos,
    {
        let block = read_block(input, pos, DATA_BLOCK_SIZE);
        proof {
            assert(block@ =~= crate::stream_block(input@, d, k));
        }
        let mut enc = rs_encode_block(&block);
        let ghost clean = enc@;
        corrupt_block(&mut enc);
        let ghost noisy = enc@;
        let ghost out_before = out@;
        out.append(&mut enc);
        proof {
            assert forall|j: int| 0 <= j < k + 1 implies out@.subrange(j * e + p, (j + 1) * e)
                == rs_encoded(crate::stream_block(input@, d, j)).subrange(p, e) by {
                if j < k {
                    assert(out@.subrange(j * e + p, (j + 1) * e) =~= out_before.subrange(
                        j * e + p,
                        (j + 1) * e,
                    ));
                } else {
                    assert(out@.subrange(k * e + p, (k + 1) * e) =~= noisy.subrange(p, e));
                    assert(noisy.subrange(p, e) == clean.subrange(p, e));
                }
            }
        }
        if input.len() - pos < DATA_BLOCK_SIZE {
            pos = input.len();
            proof {
                assert(k * d < input@.len() && input@.len() < (k + 1) * d);
                assert(n == k + 1);
            }
        } else {
            pos = pos + DATA_BLOCK_SIZE;
        }
        proof {
            k = k + 1;
        }
    }
    proof {
        if k * d == input@.len() {
            assert(n == k);
        }
        assert(errcode_post(input@, out@));
    }
    out
}

} // verus!
