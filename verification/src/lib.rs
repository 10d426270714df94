//! Verified core of the perlrs interpreter support code.

pub mod nanbox;
pub mod par_lines;
pub mod text;
pub mod english;
pub mod remote_wire;
pub mod value;
pub mod pchannel;
pub mod pmap_progress;
pub mod perl_regex;
pub mod remote_job;
pub mod perl_fs;
pub mod capture;
pub mod interpreter;
pub mod interp;

pub use crate::interp::api::{run, parse, Program, Statement};
pub use crate::interpreter::parse_and_run_string;
