use perlrs::run;
use perlrs::value::PerlValue;

fn text(code: &str) -> String {
    run(code).expect("run").to_string()
}

#[test]
fn fractions_stay_exact_and_print_as_decimals() {
    assert_eq!(text("22 / 4;"), "5.5");
    assert_eq!(text("1 / 3;"), "0.333333333333333");
    assert_eq!(text("1 / 4 + 3 / 4;"), "1");
    assert_eq!(run("10 / 4 * 2;").expect("run").to_int(), 5);
}

#[test]
fn negative_power_and_modulus_sign() {
    assert_eq!(text("2 ** -2;"), "0.25");
    assert_eq!(run("-7 % 3;").expect("run").to_int(), 2);
    assert_eq!(run("7 % -3;").expect("run").to_int(), -2);
}

#[test]
fn string_escapes_and_single_quotes() {
    assert_eq!(text(r#""a\tb";"#), "a\tb");
    assert_eq!(text(r"'it\'s';"), "it's");
    assert_eq!(text(r"'a\nb';"), "a\\nb");
}

#[test]
fn string_comparisons() {
    assert_eq!(run(r#""abc" lt "abd";"#).expect("run").to_int(), 1);
    assert_eq!(text(r#""b" le "a";"#), "");
    assert_eq!(run(r#""10" == 10.0 ;"#).is_err(), true);
}

#[test]
fn numeric_strings_and_undef() {
    assert_eq!(run(r#""12abc" + 1;"#).expect("run").to_int(), 13);
    assert_eq!(run("my $u; $u + 5;").expect("run").to_int(), 5);
    assert!(matches!(run("undef;").expect("run"), PerlValue::Undef));
}

#[test]
fn top_level_return_gives_value() {
    assert_eq!(run("return 7; 8;").expect("run").to_int(), 7);
}

#[test]
fn closures_share_captured_variables() {
    assert_eq!(
        run("my $n = 0; my $inc = sub { $n = $n + 1 }; $inc->(); $inc->(); $n;").expect("run").to_int(),
        2
    );
}

#[test]
fn args_index_from_the_end() {
    assert_eq!(run("sub last1 { $_[-1] } last1(4, 5, 6);").expect("run").to_int(), 6);
}

#[test]
fn local_value_visible_in_called_sub() {
    assert_eq!(
        run("our $g = 1; sub show { $g } my $in = do { local $g = 5; show() }; $in * 10 + show();")
            .expect("run")
            .to_int(),
        51
    );
}

#[test]
fn ternary_only_runs_the_chosen_branch() {
    assert_eq!(run("my $x = 0; 1 ? 1 : ($x = 9); $x;").expect("run").to_int(), 0);
}

#[test]
fn glob_value_of_star_name() {
    assert_eq!(text("*foo;"), "*main::foo");
}

#[test]
fn value_to_int_and_to_string() {
    assert_eq!(PerlValue::Float(2.75f64.to_bits()).to_int(), 2);
    assert_eq!(PerlValue::Float((-2.75f64).to_bits()).to_int(), -2);
    assert_eq!(PerlValue::Float(1e300f64.to_bits()).to_int(), i64::MAX);
    assert_eq!(PerlValue::Float(f64::NAN.to_bits()).to_int(), 0);
    assert_eq!(PerlValue::Float(f64::NAN.to_bits()).to_string(), "NaN");
    assert_eq!(PerlValue::Float(f64::NEG_INFINITY.to_bits()).to_string(), "-Inf");
    assert_eq!(PerlValue::Float(42.0f64.to_bits()).to_string(), "42");
    assert_eq!(PerlValue::String("  -17xyz".to_string()).to_int(), -17);
    assert_eq!(PerlValue::String("-99999999999999999999".to_string()).to_int(), i64::MIN);
    assert_eq!(PerlValue::Array(vec![PerlValue::Undef, PerlValue::Undef]).to_int(), 2);
    assert_eq!(PerlValue::Code(3).to_string(), "CODE(3)");
    assert_eq!(PerlValue::Integer(-5).to_string(), "-5");
}

#[test]
fn scalar_interpolation_in_double_quotes() {
    assert_eq!(text(r#"my $x = 5; my $name = "perl"; "v=$x, $name!";"#), "v=5, perl!");
    assert_eq!(text(r#"my $x = 5; "\$x";"#), "$x");
    assert_eq!(text(r#""cost: $";"#), "cost: $");
    assert_eq!(text(r#"my $h = 1 / 2; "half=$h";"#), "half=0.5");
    assert_eq!(text(r#"'no $x here';"#), "no $x here");
}
