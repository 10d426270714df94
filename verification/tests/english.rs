use perlrs::english::scalar_alias;

#[test]
fn alias_arg_maps_to_default_scalar() {
    assert_eq!(scalar_alias("ARG"), Some("_"));
}

#[test]
fn alias_input_line_number_and_nr_map_to_dot() {
    assert_eq!(scalar_alias("INPUT_LINE_NUMBER"), Some("."));
    assert_eq!(scalar_alias("NR"), Some("."));
}

#[test]
fn alias_rs_and_input_record_separator_map_to_slash() {
    assert_eq!(scalar_alias("RS"), Some("/"));
    assert_eq!(scalar_alias("INPUT_RECORD_SEPARATOR"), Some("/"));
}

#[test]
fn alias_process_id_and_pid_map_to_double_dollar() {
    assert_eq!(scalar_alias("PROCESS_ID"), Some("$$"));
    assert_eq!(scalar_alias("PID"), Some("$$"));
}

#[test]
fn alias_program_name_maps_to_zero() {
    assert_eq!(scalar_alias("PROGRAM_NAME"), Some("0"));
}

#[test]
fn unknown_long_name_returns_none() {
    assert_eq!(scalar_alias("NOT_A_REAL_ENGLISH_NAME"), None);
    assert_eq!(scalar_alias(""), None);
}

#[test]
fn aliases_for_separators_and_match_variables() {
    assert_eq!(scalar_alias("ORS"), Some("\\"));
    assert_eq!(scalar_alias("LIST_SEPARATOR"), Some("\""));
    assert_eq!(scalar_alias("OSNAME"), Some("^O"));
    assert_eq!(scalar_alias("PREMATCH"), Some("`"));
    assert_eq!(scalar_alias("LAST_PAREN_MATCH"), Some("+"));
    assert_eq!(scalar_alias("arg"), None);
    assert_eq!(scalar_alias("ARG "), None);
}
