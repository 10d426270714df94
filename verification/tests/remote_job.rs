use perlrs::remote_job::run_job_local;
use perlrs::remote_wire::{JsonNumber, JsonValue, RemoteJobV1};

fn job(block: &str, capture: Vec<(String, JsonValue)>, item: JsonValue) -> RemoteJobV1 {
    RemoteJobV1 {
        seq: 7,
        subs_prelude: String::new(),
        block_src: block.to_string(),
        capture,
        item,
    }
}

#[test]
fn local_roundtrip_doubles() {
    let j = RemoteJobV1 {
        seq: 0,
        subs_prelude: String::new(),
        block_src: "$_ * 2;".to_string(),
        capture: vec![],
        item: JsonValue::Number(JsonNumber::PosInt(21)),
    };
    let r = run_job_local(&j);
    assert!(r.ok, "{}", r.err_msg);
    assert!(matches!(r.result, JsonValue::Number(JsonNumber::PosInt(42))));
}

#[test]
fn captures_and_prelude_are_in_scope() {
    let mut j = job(
        "add($k, $_) . $s;",
        vec![
            ("$k".to_string(), JsonValue::Number(JsonNumber::NegInt(-5))),
            ("$s".to_string(), JsonValue::String("it's".to_string())),
        ],
        JsonValue::Number(JsonNumber::PosInt(8)),
    );
    j.subs_prelude = "sub add { return $_[0] + $_[1]; }".to_string();
    let r = run_job_local(&j);
    assert_eq!(r.seq, 7);
    assert!(r.ok, "{}", r.err_msg);
    assert!(matches!(&r.result, JsonValue::String(s) if s == "3it's"));
}

#[test]
fn array_item_runs_and_comes_back() {
    let item = JsonValue::Array(vec![
        JsonValue::Number(JsonNumber::PosInt(1)),
        JsonValue::String("x".to_string()),
    ]);
    let r = run_job_local(&job("1;", vec![], item));
    assert!(r.ok, "{}", r.err_msg);
    assert!(matches!(r.result, JsonValue::Number(JsonNumber::PosInt(1))));
    let empty = run_job_local(&job("1;", vec![], JsonValue::Array(vec![])));
    assert!(empty.ok, "{}", empty.err_msg);
    let back = run_job_local(&job(
        "$_;",
        vec![],
        JsonValue::Array(vec![JsonValue::Number(JsonNumber::PosInt(3)), JsonValue::Null]),
    ));
    assert!(back.ok, "{}", back.err_msg);
    match back.result {
        JsonValue::Array(a) => {
            assert_eq!(a.len(), 2);
            assert!(matches!(a[0], JsonValue::Number(JsonNumber::PosInt(3))));
            assert!(matches!(a[1], JsonValue::Null));
        },
        _ => panic!("expected an array"),
    }
}

#[test]
fn hash_and_float_values_are_held() {
    let h = JsonValue::Object(vec![("k".to_string(), JsonValue::String("v".to_string()))]);
    let r = run_job_local(&job("$h;", vec![("$h".to_string(), h)], JsonValue::Null));
    assert!(r.ok, "{}", r.err_msg);
    match r.result {
        JsonValue::Object(o) => {
            assert_eq!(o.len(), 1);
            assert_eq!(o[0].0, "k");
            assert!(matches!(&o[0].1, JsonValue::String(s) if s == "v"));
        },
        _ => panic!("expected an object"),
    }
    let f = run_job_local(&job("$_;", vec![], JsonValue::Number(JsonNumber::Float(1.5f64.to_bits()))));
    assert!(f.ok, "{}", f.err_msg);
    assert!(matches!(f.result, JsonValue::Number(JsonNumber::Float(b)) if b == 1.5f64.to_bits()));
    let zero = run_job_local(&job("$_ ? 1 : 2;", vec![], JsonValue::Number(JsonNumber::Float(0.0f64.to_bits()))));
    assert!(zero.ok, "{}", zero.err_msg);
    assert!(matches!(zero.result, JsonValue::Number(JsonNumber::PosInt(2))));
    let arr = run_job_local(&job("!$_;", vec![], JsonValue::Array(vec![])));
    assert!(arr.ok, "{}", arr.err_msg);
    assert!(matches!(&arr.result, JsonValue::String(s) if s.is_empty()));
}

#[test]
fn arithmetic_on_a_held_value_is_an_error() {
    let r = run_job_local(&job("$_ + 1;", vec![], JsonValue::Array(vec![])));
    assert!(!r.ok);
    assert!(matches!(r.result, JsonValue::Null));
    assert_eq!(r.err_msg, "Operand is not a scalar value");
}

#[test]
fn non_scalar_capture_names_do_not_stop_a_job() {
    let r = run_job_local(&job("7;", vec![("@a".to_string(), JsonValue::Array(vec![]))], JsonValue::Null));
    assert!(r.ok, "{}", r.err_msg);
    assert!(matches!(r.result, JsonValue::Number(JsonNumber::PosInt(7))));
}

#[test]
fn run_errors_come_back_as_messages() {
    let r = run_job_local(&job("$_ / 0;", vec![], JsonValue::Number(JsonNumber::PosInt(1))));
    assert!(!r.ok);
    assert_eq!(r.err_msg, "Illegal division by zero");
    let r2 = run_job_local(&job("sub { 1 };", vec![], JsonValue::Null));
    assert!(!r2.ok);
    assert!(r2.err_msg.contains("CODE"));
}

#[test]
fn most_negative_integer_round_trips() {
    let r = run_job_local(&job("$_;", vec![], JsonValue::Number(JsonNumber::NegInt(i64::MIN))));
    assert!(r.ok, "{}", r.err_msg);
    assert!(matches!(r.result, JsonValue::Number(JsonNumber::NegInt(i64::MIN))));
}
