use voice_input::bytes::{apply_mask, from_pattern32, pcm_bytes, push_be, read_be, to_pattern32};
use voice_input::text::{parse_u16, push_decimal, push_hex, push_signed};

#[test]
fn numbers_are_read_back_from_their_bytes() {
    let mut out = vec![9];
    push_be(&mut out, 0x0102_0304_0506_0708, 8);
    assert_eq!(out, vec![9, 1, 2, 3, 4, 5, 6, 7, 8]);
    assert_eq!(read_be(&out[1..]), 0x0102_0304_0506_0708);
    let mut short = Vec::new();
    push_be(&mut short, 0x1_0203, 2);
    assert_eq!(short, vec![2, 3]);
    assert_eq!(read_be(&[]), 0);
    assert_eq!(read_be(&[255; 8]), u64::MAX);
}

#[test]
fn signed_numbers_are_read_back_from_their_patterns() {
    for i in [0, 1, -1, 45, i32::MAX, i32::MIN] {
        assert_eq!(to_pattern32(i), i as u32);
        assert_eq!(from_pattern32(to_pattern32(i)), i);
    }
}

#[test]
fn masking_twice_changes_nothing() {
    let data = b"masked data".to_vec();
    let mask = [0x37, 0xFA, 0x21, 0x3D];
    let once = apply_mask(&data, &mask);
    assert_ne!(once, data);
    assert_eq!(apply_mask(&once, &mask), data);
}

#[test]
fn samples_stand_at_even_bytes() {
    let samples = [0, 1, -1, 256, i16::MIN, i16::MAX];
    let out = pcm_bytes(&samples);
    assert_eq!(out.len(), 12);
    for (i, s) in samples.iter().enumerate() {
        assert_eq!(out[2 * i..2 * i + 2], s.to_le_bytes());
    }
}

#[test]
fn numerals_are_read_back() {
    for n in [0u16, 9, 10, 443, 65535] {
        let mut s = String::new();
        push_decimal(&mut s, n as u64);
        assert_eq!(s, n.to_string());
        let v: Vec<char> = s.chars().collect();
        assert_eq!(parse_u16(&v), Some(n));
    }
    let mut s = String::new();
    push_signed(&mut s, -120);
    push_hex(&mut s, &[0, 0xAF, 0x10]);
    assert_eq!(s, "-12000af10");
}
