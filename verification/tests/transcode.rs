use clrfec::stream::decode_stream;
use clrfec::stream::encode_stream;
use clrfec::stream::encode_stream_with_err;

#[test]
fn round_trip_short_input_is_zero_padded() {
    let input: Vec<u8> = b"HI".to_vec();
    let encoded = encode_stream(&input);
    assert_eq!(encoded.len(), 8);
    let decoded = decode_stream(&encoded);
    assert_eq!(decoded, vec![b'H', b'I', 0u8, 0u8]);
}

#[test]
fn round_trip_exact_multiple() {
    let input: Vec<u8> = b"WXYZ".to_vec();
    let encoded = encode_stream(&input);
    let decoded = decode_stream(&encoded);
    assert_eq!(decoded, input);
}

#[test]
fn round_trip_multi_block() {
    let input: Vec<u8> = b"0123456789".to_vec();
    let encoded = encode_stream(&input);
    assert_eq!(encoded.len(), 24);
    let decoded = decode_stream(&encoded);
    let mut expected = input.clone();
    expected.push(0u8);
    expected.push(0u8);
    assert_eq!(decoded, expected);
}

#[test]
fn encode_length_formula() {
    for (len, expected) in [(0usize, 0usize), (1, 8), (3, 8), (4, 8), (5, 16), (8, 16), (9, 24)] {
        let input: Vec<u8> = vec![0xA5u8; len];
        assert_eq!(encode_stream(&input).len(), expected);
    }
}

#[test]
fn decode_length_formula() {
    // a non-multiple length still yields one (zero-padded) block per window
    for (len, expected) in [(0usize, 0usize), (1, 4), (8, 4), (9, 8), (16, 8), (24, 12)] {
        let input: Vec<u8> = vec![0x5Au8; len];
        assert_eq!(decode_stream(&input).len(), expected);
    }
}

#[test]
fn encoded_block_is_systematic() {
    let input: Vec<u8> = vec![10u8, 20u8, 30u8, 40u8];
    let encoded = encode_stream(&input);
    assert_eq!(&encoded[0..4], &input[..]);
    // the parity region must carry real redundancy, not a copy or zeros
    assert_ne!(&encoded[4..8], &[0u8, 0u8, 0u8, 0u8]);
    assert_ne!(&encoded[4..8], &input[..]);
}

#[test]
fn encode_matches_codec_directly() {
    let data = [10u8, 20u8, 30u8, 40u8];
    let reference = reed_solomon::Encoder::new(4).encode(&data);
    let encoded = encode_stream(&data.to_vec());
    assert_eq!(&encoded[..], &reference[..]);
}

#[test]
fn corruption_within_bound_is_recovered() {
    let input: Vec<u8> = b"WXYZ".to_vec();
    let mut encoded = encode_stream(&input);
    encoded[0] ^= 0xFF;
    encoded[5] ^= 0xFF;
    let decoded = decode_stream(&encoded);
    assert_eq!(decoded, input);
}

#[test]
fn single_corrupted_byte_is_recovered() {
    let input: Vec<u8> = vec![1u8, 2u8, 3u8, 4u8];
    for pos in 0..8usize {
        let mut encoded = encode_stream(&input);
        encoded[pos] = encoded[pos].wrapping_add(1);
        assert_eq!(decode_stream(&encoded), input);
    }
}

#[test]
fn truncated_encoded_stream_is_padded_and_decoded() {
    let input: Vec<u8> = b"WXYZ".to_vec();
    let encoded = encode_stream(&input);
    // drop the last two bytes: the chunker pads them with zeros, which is at
    // most two corrupted bytes, so the block is still recovered
    let truncated: Vec<u8> = encoded[0..6].to_vec();
    let decoded = decode_stream(&truncated);
    assert_eq!(decoded, input);
}

#[test]
fn over_threshold_block_falls_back_to_zeros() {
    let input: Vec<u8> = b"WXYZ".to_vec();
    let mut encoded = encode_stream(&input);
    for pos in 0..6usize {
        encoded[pos] ^= 0x55;
    }
    let decoded = decode_stream(&encoded);
    assert_eq!(decoded, vec![0u8, 0u8, 0u8, 0u8]);
}

#[test]
fn corrupted_block_leaves_other_blocks_intact() {
    let input: Vec<u8> = b"ABCDEFGHIJKL".to_vec();
    let mut encoded = encode_stream(&input);
    for pos in 8..14usize {
        encoded[pos] ^= 0x55;
    }
    let decoded = decode_stream(&encoded);
    assert_eq!(decoded.len(), 12);
    assert_eq!(&decoded[0..4], b"ABCD");
    assert_eq!(&decoded[4..8], &[0u8, 0u8, 0u8, 0u8]);
    assert_eq!(&decoded[8..12], b"IJKL");
}

#[test]
fn injector_leaves_suffix_and_length_untouched() {
    let input: Vec<u8> = b"ABCDEFGH".to_vec();
    let clean = encode_stream(&input);
    let noisy = encode_stream_with_err(&input);
    assert_eq!(noisy.len(), clean.len());
    assert_eq!(noisy.len(), 16);
    for k in 0..2usize {
        assert_eq!(&noisy[k * 8 + 4..k * 8 + 8], &clean[k * 8 + 4..k * 8 + 8]);
    }
}

#[test]
fn injector_block_count_matches_encode() {
    let empty: Vec<u8> = Vec::new();
    assert_eq!(encode_stream_with_err(&empty).len(), 0);
    let one: Vec<u8> = vec![7u8];
    assert_eq!(encode_stream_with_err(&one).len(), 8);
}

#[test]
fn empty_stream_round_trip() {
    let empty: Vec<u8> = Vec::new();
    let encoded = encode_stream(&empty);
    assert_eq!(encoded.len(), 0);
    let decoded = decode_stream(&encoded);
    assert_eq!(decoded.len(), 0);
}
