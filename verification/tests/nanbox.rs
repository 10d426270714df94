use perlrs::nanbox::{as_imm_int32, decode_heap_ptr, encode_heap_ptr, encode_imm_int32, encode_imm_undef, is_heap, is_imm, is_imm_undef, is_raw_float_bits};

#[test]
fn int32_roundtrip_and_tags() {
    for n in [0i32, 1, -1, i32::MIN, i32::MAX, 42] {
        let u = encode_imm_int32(n);
        assert!(is_imm(u));
        assert!(!is_heap(u));
        assert!(!is_raw_float_bits(u));
        assert_eq!(as_imm_int32(u), Some(n));
        assert!(!is_imm_undef(u));
    }
    assert_eq!(encode_imm_int32(-1), 0x7FF8_0002_FFFF_FFFF);
}

#[test]
fn undef_word() {
    let u = encode_imm_undef();
    assert_eq!(u, 0x7FF8_0001_0000_0000);
    assert!(is_imm(u));
    assert!(is_imm_undef(u));
    assert_eq!(as_imm_int32(u), None);
}

#[test]
fn heap_words() {
    let addr = 0x0000_1234_5678_9ABCu64;
    let u = encode_heap_ptr(addr);
    assert!(is_heap(u));
    assert!(!is_imm(u));
    assert_eq!(decode_heap_ptr(u), addr);
    assert_eq!(decode_heap_ptr(encode_heap_ptr(u64::MAX)), 0x0000_FFFF_FFFF_FFFF);
}

#[test]
fn ordinary_doubles_are_raw() {
    assert!(is_raw_float_bits(1.5f64.to_bits()));
    assert!(is_raw_float_bits(0.0f64.to_bits()));
    assert!(!is_raw_float_bits(f64::INFINITY.to_bits()));
    assert!(!is_raw_float_bits(f64::NAN.to_bits()));
    assert_eq!(as_imm_int32(1.5f64.to_bits()), None);
}
