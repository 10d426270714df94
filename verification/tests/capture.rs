use perlrs::capture::capture_result;

#[test]
fn capture_result_decodes_outputs_and_exit_code() {
    let r = capture_result(b"out\n", b"\xffbad", Some(3));
    assert_eq!(r.stdout, "out\n");
    assert_eq!(r.stderr, "\u{fffd}bad");
    assert_eq!(r.exitcode, 3);
    assert_eq!(capture_result(b"", b"", None).exitcode, -1);
}
