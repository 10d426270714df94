use perlrs::interpreter::Interpreter;
use perlrs::value::ErrorKind;
use perlrs::{parse, parse_and_run_string};

#[test]
fn new_default_file_is_dash_e() {
    assert_eq!(Interpreter::new().file, "-e");
}

#[test]
fn new_default_program_name() {
    assert_eq!(Interpreter::new().program_name, "perlrs");
}

#[test]
fn new_default_irs_newline() {
    assert_eq!(Interpreter::new().irs, "\n");
}

#[test]
fn new_line_number_starts_zero() {
    assert_eq!(Interpreter::new().line_number, 0);
}

#[test]
fn set_file_updates_file_field() {
    let mut i = Interpreter::new();
    i.set_file("t/foo.pl");
    assert_eq!(i.file, "t/foo.pl");
}

#[test]
fn execute_tree_computed_expression() {
    let p = parse("7 * 6;").expect("parse");
    let mut i = Interpreter::new();
    let v = i.execute_tree(&p).expect("execute_tree");
    assert_eq!(v.to_int(), 42);
}

#[test]
fn execute_tree_my_scalar_sequence() {
    let p = parse("my $a = 10; my $b = 32; $a + $b;").expect("parse");
    let mut i = Interpreter::new();
    let v = i.execute_tree(&p).expect("execute_tree");
    assert_eq!(v.to_int(), 42);
}

#[test]
fn execute_tree_registers_sub_for_later_call() {
    let p = parse("sub times6 { return $_[0] * 6; } times6(7);").expect("parse");
    let mut i = Interpreter::new();
    let v = i.execute_tree(&p).expect("execute_tree");
    assert_eq!(v.to_int(), 42);
}

#[test]
fn execute_preserves_scope_scalar_across_two_parses() {
    let p1 = parse("my $interp_unit_x = 41;").expect("parse");
    let p2 = parse("$interp_unit_x + 1;").expect("parse");
    let mut i = Interpreter::new();
    i.execute_tree(&p1).expect("first");
    let v = i.execute_tree(&p2).expect("second");
    assert_eq!(v.to_int(), 42);
}

#[test]
fn error_lines_count_within_each_program() {
    let mut i = Interpreter::new();
    parse_and_run_string("my $x = 1;\nmy $y = 2;\n", &mut i).expect("first");
    let e = parse_and_run_string("$x + 1;\n$y / 0;", &mut i).unwrap_err();
    assert_eq!(e.kind, ErrorKind::Runtime);
    assert_eq!(e.line, 2);
}

#[test]
fn unparsable_program_leaves_state_alone() {
    let mut i = Interpreter::new();
    parse_and_run_string("my $k = 5;", &mut i).expect("first");
    assert!(parse_and_run_string("$k +", &mut i).is_err());
    assert_eq!(parse_and_run_string("$k * 2;", &mut i).expect("third").to_int(), 10);
}

#[test]
fn sub_defined_earlier_sees_its_own_lexicals() {
    let mut i = Interpreter::new();
    parse_and_run_string("my $base = 40; sub plus_base { $base + $_[0] }", &mut i).expect("define");
    assert_eq!(parse_and_run_string("plus_base(2);", &mut i).expect("call").to_int(), 42);
}
