use perlrs::remote_wire::{
    build_subs_prelude, capture_entries_to_json, json_to_perl, perl_to_json_value, read_framed,
    write_framed, FrameError, JsonNumber, JsonValue, PerlSub, MAX_FRAME,
};
use perlrs::value::PerlValue;

fn int_of(v: &PerlValue) -> Option<i64> {
    match v {
        PerlValue::Integer(i) => Some(*i),
        _ => None,
    }
}

#[test]
fn framed_roundtrip_with_trailing_bytes() {
    let mut buf = Vec::new();
    write_framed(&mut buf, b"hello");
    assert_eq!(&buf[..8], &5u64.to_le_bytes());
    assert_eq!(&buf[8..], b"hello");
    buf.extend_from_slice(b"rest");
    let (payload, used) = read_framed(&buf).expect("frame");
    assert_eq!(payload, b"hello");
    assert_eq!(used, 13);
}

#[test]
fn framed_empty_payload() {
    let mut buf = Vec::new();
    write_framed(&mut buf, b"");
    assert_eq!(buf, vec![0u8; 8]);
    assert_eq!(read_framed(&buf).expect("frame"), (vec![], 8));
}

#[test]
fn read_framed_short_header_is_eof() {
    assert_eq!(read_framed(&[1, 0, 0]), Err(FrameError::UnexpectedEof));
}

#[test]
fn read_framed_short_payload_is_eof() {
    let mut buf = 10u64.to_le_bytes().to_vec();
    buf.extend_from_slice(b"abc");
    assert_eq!(read_framed(&buf), Err(FrameError::UnexpectedEof));
}

#[test]
fn read_framed_rejects_oversized_frame() {
    let n = MAX_FRAME + 1;
    let buf = n.to_le_bytes().to_vec();
    assert_eq!(read_framed(&buf), Err(FrameError::TooLarge(n)));
}

#[test]
fn json_to_perl_converts_scalars() {
    assert!(matches!(json_to_perl(&JsonValue::Null), Ok(PerlValue::Undef)));
    assert_eq!(int_of(&json_to_perl(&JsonValue::Bool(true)).unwrap()), Some(1));
    assert_eq!(int_of(&json_to_perl(&JsonValue::Bool(false)).unwrap()), Some(0));
    assert_eq!(
        int_of(&json_to_perl(&JsonValue::Number(JsonNumber::NegInt(-5))).unwrap()),
        Some(-5)
    );
    assert_eq!(
        int_of(&json_to_perl(&JsonValue::Number(JsonNumber::PosInt(u64::MAX))).unwrap()),
        Some(-1)
    );
}

#[test]
fn json_object_duplicate_key_keeps_first_place_last_value() {
    let obj = JsonValue::Object(vec![
        ("a".to_string(), JsonValue::Number(JsonNumber::PosInt(1))),
        ("b".to_string(), JsonValue::Number(JsonNumber::PosInt(2))),
        ("a".to_string(), JsonValue::Number(JsonNumber::PosInt(3))),
    ]);
    match json_to_perl(&obj).unwrap() {
        PerlValue::Hash(h) => {
            assert_eq!(h.len(), 2);
            assert_eq!(h[0].0, "a");
            assert_eq!(int_of(&h[0].1), Some(3));
            assert_eq!(h[1].0, "b");
        }
        _ => panic!("expected a hash"),
    }
}

#[test]
fn perl_to_json_and_back() {
    let v = PerlValue::Array(vec![
        PerlValue::Integer(-3),
        PerlValue::Integer(7),
        PerlValue::String("x".to_string()),
        PerlValue::Undef,
        PerlValue::Float(1.5f64.to_bits()),
    ]);
    let j = perl_to_json_value(&v).unwrap();
    match &j {
        JsonValue::Array(a) => {
            assert!(matches!(a[0], JsonValue::Number(JsonNumber::NegInt(-3))));
            assert!(matches!(a[1], JsonValue::Number(JsonNumber::PosInt(7))));
            assert!(matches!(a[3], JsonValue::Null));
        }
        _ => panic!("expected an array"),
    }
    match json_to_perl(&j).unwrap() {
        PerlValue::Array(a) => {
            assert_eq!(int_of(&a[0]), Some(-3));
            assert!(matches!(&a[2], PerlValue::String(s) if s == "x"));
            assert!(matches!(a[4], PerlValue::Float(b) if b == 1.5f64.to_bits()));
        }
        _ => panic!("expected an array"),
    }
}

#[test]
fn non_finite_float_becomes_null_and_code_is_refused() {
    assert!(matches!(
        perl_to_json_value(&PerlValue::Float(f64::NAN.to_bits())),
        Ok(JsonValue::Null)
    ));
    let err = perl_to_json_value(&PerlValue::Array(vec![PerlValue::Code(0)])).err().unwrap();
    assert!(err.ends_with(": CODE"));
    let entries = vec![
        ("a".to_string(), PerlValue::Integer(1)),
        ("f".to_string(), PerlValue::Code(3)),
    ];
    assert!(capture_entries_to_json(&entries).is_err());
    let ok = capture_entries_to_json(&entries[..1]).unwrap();
    assert_eq!(ok.len(), 1);
    assert_eq!(ok[0].0, "a");
}

fn sub(closure: bool, params: &[&str], proto: Option<&str>, body: &str) -> PerlSub {
    PerlSub {
        has_closure_env: closure,
        params: params.iter().map(|p| p.to_string()).collect(),
        prototype: proto.map(|p| p.to_string()),
        body: body.to_string(),
    }
}

#[test]
fn subs_prelude_sorted_and_skips_closures() {
    let subs = vec![
        ("zeta".to_string(), sub(false, &[], None, "1;")),
        ("alpha".to_string(), sub(false, &["$x", "$y"], None, "$x + $y;")),
        ("mid".to_string(), sub(true, &[], None, "2;")),
        ("beta".to_string(), sub(false, &[], Some("$$"), "3;")),
    ];
    assert_eq!(
        build_subs_prelude(&subs),
        "sub alpha ($x, $y) {\n$x + $y;\n}\nsub beta ($$) {\n3;\n}\nsub zeta {\n1;\n}\n"
    );
    assert_eq!(build_subs_prelude(&vec![]), "");
}
