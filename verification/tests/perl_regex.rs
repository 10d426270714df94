use perlrs::perl_regex::{numbered_capture_flat, PerlCompiledRegex};
use perlrs::value::PerlValue;

#[test]
fn rust_engine_used_for_simple_pattern() {
    let r = PerlCompiledRegex::compile("ab+").unwrap();
    assert!(matches!(*r, PerlCompiledRegex::Rust(_)));
    assert!(r.is_match("xabby"));
}

#[test]
fn fancy_fallback_for_backreference() {
    let r = PerlCompiledRegex::compile(r"(.)\1").unwrap();
    assert!(matches!(*r, PerlCompiledRegex::Fancy(_)));
    assert!(r.is_match("aa"));
    assert!(!r.is_match("ab"));
}

#[test]
fn invalid_pattern_is_an_error() {
    assert!(PerlCompiledRegex::compile("(").is_err());
}

#[test]
fn captures_groups_names_and_flat_values() {
    let r = PerlCompiledRegex::compile(r"(?P<y>\d{4})-(\d\d)(x)?").unwrap();
    let c = r.captures("on 2024-05 ok").expect("match");
    assert_eq!(c.len(), 4);
    let whole = c.get(0).unwrap();
    assert_eq!((whole.start, whole.end, whole.text), (3, 10, "2024-05"));
    assert_eq!(c.name("y").unwrap().text, "2024");
    assert!(c.name("z").is_none());
    assert!(c.get(3).is_none());
    let flat = numbered_capture_flat(&c);
    assert_eq!(flat.len(), 3);
    assert!(matches!(&flat[0], PerlValue::String(s) if s == "2024"));
    assert!(matches!(&flat[1], PerlValue::String(s) if s == "05"));
    assert!(matches!(flat[2], PerlValue::Undef));
    assert!(r.captures("nothing").is_none());
}

#[test]
fn captures_iter_finds_every_match() {
    let r = PerlCompiledRegex::compile(r"(\d)").unwrap();
    let all = r.captures_iter("a1b2c3");
    let texts: Vec<&str> = all.iter().map(|c| c.get(1).unwrap().text).collect();
    assert_eq!(texts, vec!["1", "2", "3"]);
    let f = PerlCompiledRegex::compile(r"(\w)\1").unwrap();
    assert_eq!(f.captures_iter("aabbcd").len(), 2);
}

#[test]
fn names_replace_count_and_split() {
    let r = PerlCompiledRegex::compile(r"(?P<w>o)").unwrap();
    assert_eq!(r.capture_names(), vec![None, Some("w".to_string())]);
    assert_eq!(r.replace("foo", "0"), "f0o");
    assert_eq!(r.replace_all("foo", "0"), "f00");
    assert_eq!(r.find_iter_count("foo boo"), 4);
    let s = PerlCompiledRegex::compile(",").unwrap();
    assert_eq!(s.split_strings("a,b,,c"), vec!["a", "b", "", "c"]);
    assert_eq!(s.splitn_strings("a,b,c", 2), vec!["a", "b,c"]);
    let f = PerlCompiledRegex::compile(r"(,)\1").unwrap();
    assert_eq!(f.split_strings("a,,b"), vec!["a", "b"]);
    assert_eq!(f.find_iter_count("a,,b,,"), 2);
    assert_eq!(f.replace_all("a,,b", "-"), "a-b");
}
