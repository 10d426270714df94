use perlrs::value::ErrorKind;
use perlrs::{parse, run};

fn eval_err_kind(code: &str) -> ErrorKind {
    run(code).unwrap_err().kind
}

fn parse_err_kind(code: &str) -> ErrorKind {
    parse(code).unwrap_err().kind
}

#[test]
fn parse_unclosed_brace_is_syntax_error() {
    let err = parse("sub f {").unwrap_err();
    assert_eq!(err.kind, ErrorKind::Syntax);
}

#[test]
fn parse_lone_brace_is_syntax_error() {
    assert_eq!(parse_err_kind("}"), ErrorKind::Syntax);
}

#[test]
fn division_by_zero_is_runtime_error() {
    assert_eq!(eval_err_kind("1 / 0"), ErrorKind::Runtime);
}

#[test]
fn modulus_zero_is_runtime_error() {
    assert_eq!(eval_err_kind("1 % 0"), ErrorKind::Runtime);
}

#[test]
fn die_is_die_kind() {
    assert_eq!(eval_err_kind(r#"die "stop""#), ErrorKind::Die);
}

#[test]
fn unterminated_double_quoted_string_is_syntax_error() {
    assert_eq!(parse_err_kind(r#"my $x = "unfinished"#), ErrorKind::Syntax);
}

#[test]
fn unexpected_eof_after_operator_is_syntax_error() {
    assert_eq!(parse_err_kind("++"), ErrorKind::Syntax);
}

#[test]
fn division_by_zero_message_and_line() {
    let e = run("my $x = 1;\n$x / 0;").unwrap_err();
    assert_eq!(e.kind, ErrorKind::Runtime);
    assert_eq!(e.message, "Illegal division by zero");
    assert_eq!(e.line, 2);
}

#[test]
fn die_message_is_its_argument() {
    let e = run(r#"die "stop""#).unwrap_err();
    assert_eq!(e.message, "stop");
    let e2 = run("die;").unwrap_err();
    assert_eq!(e2.message, "Died");
}

#[test]
fn undefined_subroutine_is_runtime_error() {
    let e = run("nosuch(1);").unwrap_err();
    assert_eq!(e.kind, ErrorKind::Runtime);
    assert_eq!(e.message, "Undefined subroutine &main::nosuch called");
}

#[test]
fn array_interpolation_is_refused_before_running() {
    let e = parse(r#"my $x = 1; "a @x";"#).unwrap_err();
    assert_eq!(e.kind, ErrorKind::Syntax);
    assert_eq!(e.message, "Array interpolation is not supported");
}

#[test]
fn interpolating_code_is_runtime_error() {
    let e = run(r#"my $c = sub { 1 }; "got $c";"#).unwrap_err();
    assert_eq!(e.kind, ErrorKind::Runtime);
}

#[test]
fn syntax_check_runs_nothing() {
    // The program would fail at run time, but parsing it runs nothing.
    let p = parse("1 / 0; 2;").expect("parse");
    assert_eq!(p.statements.len(), 2);
    assert!(run("1 / 0; 2;").is_err());
}

#[test]
fn unparsable_program_does_not_run() {
    let pe = parse("1 +;").unwrap_err();
    let re = run("1 +;").unwrap_err();
    assert_eq!(pe.kind, re.kind);
    assert_eq!(pe.message, re.message);
    assert_eq!(pe.line, re.line);
}

#[test]
fn deep_recursion_is_stopped() {
    let e = run("sub f { f() } f();").unwrap_err();
    assert_eq!(e.message, "Deep recursion limit exceeded");
}

#[test]
fn overflow_is_runtime_error() {
    let e = run("9223372036854775807 + 1;").unwrap_err();
    assert_eq!(e.message, "Integer overflow in arithmetic");
}
