# perlrs (verified core)

The support code of the perlrs Perl interpreter, written in Verus: every function
in `src/` carries a contract that Verus proves.

- `src/interp/`: a small Perl interpreter. `lexer` turns text into tokens;
  `semantics` defines what a program means (a big-step evaluator over the tokens,
  as spec functions); `eval` and `machine` are the executable evaluator, proved
  equal to it; `api` holds `run` and `parse`; `laws` proves that checking syntax
  runs nothing and that a block's lexicals end with it.
- `src/remote_wire.rs`, `src/remote_job.rs`: framing, JSON conversions, the
  subroutine prelude, and running one remote job.
- `src/perl_regex.rs`: the two-engine regex (the `regex` crate, else
  `fancy_regex`), stated over named engine results.
- `src/pmap_progress.rs`, `src/pchannel.rs`, `src/par_lines.rs`, `src/nanbox.rs`,
  `src/english.rs`, `src/perl_fs.rs`, `src/capture.rs`: the computed parts of the
  progress display, channel builtins, line chunking, NaN-boxing, `English` names,
  `glob` and `capture`.
- `app/`: what talks to the outside world (processes, files, terminal, threads,
  serialization, the C library), calling the library for everything it computes.
