use perlrs::perl_fs::{glob_value, sorted_unique};
use perlrs::value::PerlValue;

#[test]
fn sorted_unique_orders_and_drops_repeats() {
    let v = vec!["b.txt".to_string(), "a.txt".to_string(), "b.txt".to_string(), "A.txt".to_string()];
    assert_eq!(sorted_unique(&v), vec!["A.txt", "a.txt", "b.txt"]);
    assert!(sorted_unique(&vec![]).is_empty());
}

#[test]
fn glob_value_is_an_array_of_strings() {
    let v = glob_value(&vec!["z".to_string(), "y".to_string(), "z".to_string()]);
    match v {
        PerlValue::Array(items) => {
            assert_eq!(items.len(), 2);
            assert!(matches!(&items[0], PerlValue::String(s) if s == "y"));
            assert!(matches!(&items[1], PerlValue::String(s) if s == "z"));
        },
        _ => panic!("not an array"),
    }
}
