use soundtransfer::convert::{f32_to_f32le, f32le_to_f32, s16_to_s16le, s16le_to_s16};

#[test]
fn f32_round_trip_is_exact() {
    let src = [0.0f32, 0.123456, -0.98765, 1.5];
    let bits: Vec<u32> = src.iter().map(|s| s.to_bits()).collect();
    let mut bytes = vec![0u8; src.len() * 4];
    f32_to_f32le(&bits, &mut bytes);
    let mut back_bits = Vec::new();
    f32le_to_f32(&bytes, &mut back_bits);
    let back: Vec<f32> = back_bits.iter().map(|&b| f32::from_bits(b)).collect();
    assert_eq!(&src[..], &back[..]);
}

#[test]
fn f32_bytes_are_those_of_the_standard_library() {
    let src = [0.25f32, -3.5];
    let bits: Vec<u32> = src.iter().map(|s| s.to_bits()).collect();
    let mut bytes = vec![0u8; 8];
    f32_to_f32le(&bits, &mut bytes);
    assert_eq!(&bytes[..4], &src[0].to_le_bytes());
    assert_eq!(&bytes[4..], &src[1].to_le_bytes());
}

#[test]
fn s16_bytes_are_those_of_the_standard_library() {
    for v in [0i16, 1, -1, 256, -256, 32767, -32768, 12345, -12345] {
        let mut bytes = vec![0u8; 2];
        s16_to_s16le(&[v], &mut bytes);
        assert_eq!(bytes, v.to_le_bytes());
        let mut back = vec![7i16];
        s16le_to_s16(&bytes, &mut back);
        assert_eq!(back, vec![7, v]);
    }
}

#[test]
fn half_samples_are_left_out() {
    let mut s16 = Vec::new();
    s16le_to_s16(&[1, 0, 2], &mut s16);
    assert_eq!(s16, vec![1]);
    let mut f32s = Vec::new();
    f32le_to_f32(&[1, 0, 0, 0, 2, 0, 0], &mut f32s);
    assert_eq!(f32s, vec![1]);
}

#[test]
fn payloads_are_written_again_as_they_were_read() {
    let payload: Vec<u8> = (0..64).map(|i: u8| i.wrapping_mul(37)).collect();
    let mut s16 = Vec::new();
    s16le_to_s16(&payload, &mut s16);
    let mut again = vec![0u8; payload.len()];
    s16_to_s16le(&s16, &mut again);
    assert_eq!(again, payload);
    let mut words = Vec::new();
    f32le_to_f32(&payload, &mut words);
    let mut again = vec![0u8; payload.len()];
    f32_to_f32le(&words, &mut again);
    assert_eq!(again, payload);
}
