use trimat::pack::{bit_len, decode, encode};

#[test]
fn test_roundtrip() {
    let vals: Vec<i8> = vec![1, 0, -1, 1, -1, 0, 0, 1, -1];
    let (nz, sg) = encode(&vals);
    assert_eq!(decode(&nz, &sg, vals.len()), vals);
}

#[test]
fn test_all_zeros() {
    let vals = vec![0i8; 16];
    let (nz, sg) = encode(&vals);
    assert!(nz.iter().all(|&b| b == 0));
    assert!(sg.iter().all(|&b| b == 0));
    assert_eq!(decode(&nz, &sg, 16), vals);
}

#[test]
fn test_all_pos() {
    let vals = vec![1i8; 8];
    let (nz, sg) = encode(&vals);
    assert_eq!(nz, vec![0xFF]);
    assert_eq!(sg, vec![0x00]);
}

#[test]
fn test_all_neg() {
    let vals = vec![-1i8; 8];
    let (nz, sg) = encode(&vals);
    assert_eq!(nz, vec![0xFF]);
    assert_eq!(sg, vec![0xFF]);
}

#[test]
fn test_bitplane_size() {
    let (nz, _) = encode(&vec![1i8; 9]);
    assert_eq!(nz.len(), 2);
}

#[test]
fn bit_len_rounds_up_to_whole_bytes() {
    assert_eq!(bit_len(0), 0);
    assert_eq!(bit_len(1), 1);
    assert_eq!(bit_len(7), 1);
    assert_eq!(bit_len(8), 1);
    assert_eq!(bit_len(9), 2);
    assert_eq!(bit_len(16), 2);
    assert_eq!(bit_len(17), 3);
}

#[test]
fn encode_places_element_i_at_byte_i_div_8_bit_i_mod_8() {
    let vals: Vec<i8> = vec![1, 0, -1, 1, -1, 0, 0, 1, -1];
    let (nz, sg) = encode(&vals);
    // nonzero at 0, 2, 3, 4, 7 and 8; negative at 2, 4 and 8.
    assert_eq!(nz, vec![0b1001_1101, 0b0000_0001]);
    assert_eq!(sg, vec![0b0001_0100, 0b0000_0001]);
}

#[test]
fn encode_of_empty_input_is_empty() {
    let (nz, sg) = encode(&[]);
    assert!(nz.is_empty());
    assert!(sg.is_empty());
    assert!(decode(&nz, &sg, 0).is_empty());
}

#[test]
fn encode_keeps_padding_bits_clear() {
    let (nz, sg) = encode(&[-1i8, -1, -1]);
    assert_eq!(nz, vec![0b0000_0111]);
    assert_eq!(sg, vec![0b0000_0111]);
}

#[test]
fn decode_then_encode_of_values_outside_the_ternary_range_gives_their_signs() {
    let vals: Vec<i8> = vec![5, -7, 0, 127, -128, 1, -1];
    let (nz, sg) = encode(&vals);
    assert_eq!(decode(&nz, &sg, vals.len()), vec![1, -1, 0, 1, -1, 1, -1]);
}

#[test]
fn decode_reads_a_prefix_of_longer_planes() {
    let nz = vec![0b1010_1010u8, 0xFF];
    let sg = vec![0b1000_0000u8, 0x0F];
    assert_eq!(decode(&nz, &sg, 3), vec![0, 1, 0]);
    assert_eq!(decode(&nz, &sg, 8), vec![0, 1, 0, 1, 0, 1, 0, -1]);
    assert_eq!(decode(&nz, &sg, 10), vec![0, 1, 0, 1, 0, 1, 0, -1, -1, -1]);
}

#[test]
fn decode_treats_a_sign_bit_without_nonzero_bit_as_zero() {
    assert_eq!(decode(&[0x00], &[0xFF], 8), vec![0i8; 8]);
}

#[test]
fn encode_of_canonical_planes_decoded_gives_them_back() {
    let nz = vec![0b1101_0110u8, 0b0000_0011];
    let sg = vec![0b0100_0010u8, 0b0000_0010];
    let vals = decode(&nz, &sg, 10);
    let (nz2, sg2) = encode(&vals);
    assert_eq!(nz2, nz);
    assert_eq!(sg2, sg);
}

#[test]
fn roundtrip_over_many_lengths() {
    for n in 0..40usize {
        let vals: Vec<i8> = (0..n).map(|i| ((i * 7 + n) % 3) as i8 - 1).collect();
        let (nz, sg) = encode(&vals);
        assert_eq!(nz.len(), bit_len(n));
        assert_eq!(sg.len(), bit_len(n));
        assert_eq!(decode(&nz, &sg, n), vals);
    }
}
