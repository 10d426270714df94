//! The computed part of `capture("cmd")`: the result record built from what the
//! command wrote and how it exited.
use vstd::prelude::*;
use crate::text::{utf8_lossy, from_utf8_lossy};
use vstd::utf8::{valid_utf8, decode_utf8};

verus! {

/// What a command produced: its output and error text, and its exit code.
pub struct CaptureResult {
    pub stdout: String,
    pub stderr: String,
    pub exitcode: i64,
}

/// The record for a finished command: both outputs decoded as UTF-8 (invalid
/// sequences replaced), and the exit code, `-1` when the command was ended by a
/// signal and has none.
pub fn capture_result(stdout: &[u8], stderr: &[u8], code: Option<i32>) -> (r: CaptureResult)
    ensures
        r.stdout@ == utf8_lossy(stdout@),
        r.stderr@ == utf8_lossy(stderr@),
        valid_utf8(stdout@) ==> r.stdout@ == decode_utf8(stdout@),
        valid_utf8(stderr@) ==> r.stderr@ == decode_utf8(stderr@),
        r.exitcode == match code {
            Some(c) => c as i64,
            None => -1i64,
        },
{
    let exitcode: i64 = match code {
        Some(c) => c as i64,
        None => -1,
    };
    CaptureResult { stdout: from_utf8_lossy(stdout), stderr: from_utf8_lossy(stderr), exitcode }
}

} // verus!
