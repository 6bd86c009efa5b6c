use melody_synth::pcm::{decode_samples, encode_samples};

#[test]
fn bytes_are_stored_least_significant_first() {
    let bytes = encode_samples(&vec![0x0102_0304_0506_0708u64]);
    assert_eq!(bytes, vec![8, 7, 6, 5, 4, 3, 2, 1]);
}

#[test]
fn float_patterns_match_little_endian_doubles() {
    let xs = [0.5f64, -1.0, 0.4, 1e-300];
    let bits: Vec<u64> = xs.iter().map(|x| x.to_bits()).collect();
    let bytes = encode_samples(&bits);
    let expect: Vec<u8> = xs.iter().flat_map(|x| x.to_le_bytes()).collect();
    assert_eq!(bytes, expect);
}

#[test]
fn k_samples_take_eight_k_bytes_and_read_back_exactly() {
    let xs = [0.0f64, -0.0, 1.0, -0.123456789, f64::MAX, f64::MIN_POSITIVE];
    let bits: Vec<u64> = xs.iter().map(|x| x.to_bits()).collect();
    let bytes = encode_samples(&bits);
    assert_eq!(bytes.len(), 8 * xs.len());
    let back = decode_samples(&bytes).unwrap();
    assert_eq!(back, bits);
    let floats: Vec<f64> = back.iter().map(|b| f64::from_bits(*b)).collect();
    for (a, b) in floats.iter().zip(xs.iter()) {
        assert_eq!(a.to_bits(), b.to_bits());
    }
}

#[test]
fn empty_buffer_stores_nothing() {
    assert!(encode_samples(&Vec::new()).is_empty());
    assert_eq!(decode_samples(&Vec::new()), Some(Vec::new()));
}

#[test]
fn partial_sample_is_refused() {
    assert_eq!(decode_samples(&vec![1, 2, 3, 4, 5, 6, 7]), None);
    assert_eq!(decode_samples(&vec![0; 17]), None);
}

#[test]
fn decoding_reads_each_group_of_eight() {
    let bytes = vec![1, 0, 0, 0, 0, 0, 0, 0, 0, 1, 0, 0, 0, 0, 0, 0x80];
    assert_eq!(decode_samples(&bytes), Some(vec![1, 0x8000_0000_0000_0100]));
}
