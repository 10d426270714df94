use perlrs::run;

fn eval_int(code: &str) -> i64 {
    run(code).expect("run").to_int()
}

#[test]
fn typeglob_assign_coderef_installs_sub_alias() {
    assert_eq!(
        eval_int(
            r#"no strict 'vars';
            sub orig { 41 }
            *alias = \&orig;
            alias() + 1"#,
        ),
        42
    );
}

#[test]
fn typeglob_assign_glob_copies_subroutine_slot() {
    assert_eq!(
        eval_int(
            r#"no strict 'vars';
            sub one { 7 }
            *two = *one;
            two() * 2"#,
        ),
        14
    );
}
