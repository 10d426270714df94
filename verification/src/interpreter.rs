//! An interpreter that keeps its state from one program to the next: lexical and
//! package variables and named subroutines defined by one program are there for
//! the programs run after it.
//!
//! The texts of the programs run so far are kept end to end (each after a newline),
//! so that the names and subroutine bodies of earlier programs stay valid.
use vstd::prelude::*;
use crate::interp::lexer::{Token, lex_at, lex_from};
use crate::interp::env::{Env, EnvM, empty_env, env_wf};
use crate::interp::semantics::{Prog, Flow, MAX_CALL_DEPTH, ev_stmts, undef_v};
use crate::interp::machine::{Code, FlowX};
use crate::interp::api::{
    Program, ErrM, error_is, line_at, to_perl, msg_too_large, msg_bad_char, parse, parse_result,
    line_at_exec, to_perl_exec,
};
use crate::value::{PerlValue, PerlModel, PerlError, ErrorKind};
use crate::text::{string_of, string_from_chars};

verus! {

/// The state an interpreter carries between programs.
pub struct Session {
    /// The texts of the programs run so far, each after a newline.
    pub src: Seq<char>,
    /// Their tokens.
    pub toks: Seq<Token>,
    /// Variables, subroutines and closures.
    pub env: EnvM,
    /// Where each program's text starts.
    pub starts: Seq<usize>,
}

/// The start of the program text that holds position `pos`.
pub open spec fn seg_start(starts: Seq<usize>, pos: int) -> int
    decreases starts.len(),
{
    if starts.len() == 0 {
        0
    } else if starts.last() <= pos {
        starts.last() as int
    } else {
        seg_start(starts.drop_last(), pos)
    }
}

/// The line (from 1) of position `pos` counted from position `base`.
pub open spec fn line_in(src: Seq<char>, base: int, pos: int) -> nat {
    if line_at(src, pos) >= line_at(src, base) {
        (line_at(src, pos) - line_at(src, base) + 1) as nat
    } else {
        1
    }
}

/// The line (from 1), within its own program, of the token where a failure arose.
pub open spec fn session_line(s: Session, at: int) -> nat {
    let pos = if 0 <= at < s.toks.len() { s.toks[at].pos as int } else { s.src.len() as int };
    line_in(s.src, seg_start(s.starts, pos), pos)
}

/// Running a program's text in a session: the new session, and the program's
/// value or the error that stopped it.
pub open spec fn execute_step(s: Session, text: Seq<char>) -> (Session, Result<PerlModel, ErrM>) {
    if s.src.len() + 1 + text.len() + 4 > usize::MAX {
        (s, Err((ErrorKind::Syntax, msg_too_large(), 1)))
    } else {
        let start: int = s.src.len() as int + 1;
        let src2 = s.src.push('\n') + text;
        let starts2 = s.starts.push(start as usize);
        let s1 = Session { src: src2, starts: starts2, ..s };
        match lex_from(src2, start) {
            Err(i) => (s1, Err((ErrorKind::Syntax, msg_bad_char(), line_in(src2, start, i)))),
            Ok(nt) => if s.toks.len() + nt.len() + 8 >= usize::MAX {
                (s1, Err((ErrorKind::Syntax, msg_too_large(), 1)))
            } else {
                let toks2 = s.toks + nt;
                let m = Prog { src: src2, toks: toks2 };
                let (e2, f) = ev_stmts(m, MAX_CALL_DEPTH as nat, true, s.toks.len() as int, s.env, undef_v());
                let s2 = Session { src: src2, toks: toks2, env: e2, starts: starts2 };
                let r = match f {
                    Flow::Next(q, v) => if q == toks2.len() {
                        Ok(to_perl(src2, v))
                    } else {
                        Err((ErrorKind::Syntax, "syntax error"@, session_line(s2, q)))
                    },
                    Flow::Ret(v) => Ok(to_perl(src2, v)),
                    Flow::Fail(x) => Err((x.kind, x.msg, session_line(s2, x.at))),
                };
                (s2, r)
            },
        }
    }
}

/// An interpreter: the settings a script sees, and the state carried between
/// the programs it runs.
pub struct Interpreter {
    /// The script's file name (`-e` for a command-line program).
    pub file: String,
    /// The program's name (`$0`'s default).
    pub program_name: String,
    /// The input record separator (`$/`).
    pub irs: String,
    /// The current input line number (`$.`).
    pub line_number: u64,
    code: Code,
    env: Env,
    starts: Vec<usize>,
}

impl Interpreter {
    /// The state carried between programs.
    pub closed spec fn session(&self) -> Session {
        Session { src: self.code.src@, toks: self.code.toks@, env: self.env@, starts: self.starts@ }
    }

    /// The script's file name.
    pub closed spec fn file_name(&self) -> Seq<char> {
        self.file@
    }

    /// The program's name.
    pub closed spec fn name(&self) -> Seq<char> {
        self.program_name@
    }

    /// The input record separator.
    pub closed spec fn separator(&self) -> Seq<char> {
        self.irs@
    }

    /// The input line number.
    pub closed spec fn input_line(&self) -> u64 {
        self.line_number
    }

    /// The values held by the state are well formed.
    pub closed spec fn well_formed(&self) -> bool {
        env_wf(self.env@)
    }

    /// A new interpreter: file `-e`, program name `perlrs`, record separator a
    /// newline, line number 0, and nothing defined yet.
    pub fn new() -> (r: Interpreter)
        ensures
            r.well_formed(),
            r.session() == (Session { src: seq![], toks: seq![], env: empty_env(), starts: seq![] }),
            r.file_name() == "-e"@,
            r.name() == "perlrs"@,
            r.separator() == "\n"@,
            r.input_line() == 0,
    {
        let r = Interpreter {
            file: string_of("-e"),
            program_name: string_of("perlrs"),
            irs: string_of("\n"),
            line_number: 0,
            code: Code { src: Vec::new(), toks: Vec::new() },
            env: Env::new(),
            starts: Vec::new(),
        };
        assert(r.code.src@ =~= seq![]);
        assert(r.code.toks@ =~= seq![]);
        assert(r.starts@ =~= seq![]);
        r
    }

    /// Sets the script's file name.
    pub fn set_file(&mut self, file: &str)
        ensures
            final(self).file_name() == file@,
            final(self).name() == old(self).name(),
            final(self).separator() == old(self).separator(),
            final(self).input_line() == old(self).input_line(),
            final(self).session() == old(self).session(),
            final(self).well_formed() == old(self).well_formed(),
    {
        self.file = string_of(file);
    }

    /// The line of a failure, within its own program (see [`session_line`]).
    fn line_of(&self, at: usize) -> (r: usize)
        requires
            self.code.src@.len() + 4 <= usize::MAX,
        ensures
            r as int == session_line(self.session(), at as int),
    {
        let pos = if at < self.code.toks.len() { self.code.toks[at].pos } else { self.code.src.len() };
        let mut base: usize = 0;
        let mut k: usize = self.starts.len();
        let mut found = false;
        assert(self.starts@.subrange(0, k as int) =~= self.starts@);
        while k > 0 && !found
            invariant
                k <= self.starts@.len(),
                found ==> base as int == seg_start(self.starts@, pos as int),
                !found ==> base == 0,
                !found ==> seg_start(self.starts@, pos as int) == seg_start(self.starts@.subrange(0, k as int), pos as int),
            decreases k, if found { 0int } else { 1int },
        {
            assert(self.starts@.subrange(0, k as int).drop_last() =~= self.starts@.subrange(0, k - 1));
            if self.starts[k - 1] <= pos {
                base = self.starts[k - 1];
                found = true;
            } else {
                k = k - 1;
            }
        }
        proof {
            if !found {
                assert(self.starts@.subrange(0, 0) =~= Seq::<usize>::empty());
            }
        }
        assert(base as int == seg_start(self.starts@, pos as int));
        line_in_exec(&self.code.src, base, pos)
    }

    /// Runs a parsed program in this interpreter (see [`execute_step`]).
    pub fn execute_tree(&mut self, p: &Program) -> (r: Result<PerlValue, PerlError>)
        requires
            old(self).well_formed(),
        ensures
            final(self).well_formed(),
            final(self).session() == execute_step(old(self).session(), p.text()).0,
            match (r, execute_step(old(self).session(), p.text()).1) {
                (Ok(v), Ok(m)) => v@ == m,
                (Err(e), Err(x)) => error_is(e, x),
                _ => false,
            },
            final(self).file_name() == old(self).file_name(),
            final(self).name() == old(self).name(),
            final(self).separator() == old(self).separator(),
            final(self).input_line() == old(self).input_line(),
    {
        let text = &p.source;
        if self.code.src.len() > usize::MAX - 5 || text.len() > usize::MAX - 5 - self.code.src.len() {
            return Err(PerlError { kind: ErrorKind::Syntax, message: string_of("Program is too large"), line: 1 });
        }
        let start = self.code.src.len() + 1;
        let ghost s0 = self.session();
        self.code.src.push('\n');
        let mut i: usize = 0;
        let ghost mid = self.code.src@;
        while i < text.len()
            invariant
                i <= text@.len(),
                self.code.src@ == mid + text@.subrange(0, i as int),
                self.env == old(self).env,
                self.code.toks == old(self).code.toks,
                self.starts == old(self).starts,
                self.file == old(self).file,
                self.program_name == old(self).program_name,
                self.irs == old(self).irs,
                self.line_number == old(self).line_number,
            decreases text@.len() - i,
        {
            self.code.src.push(text[i]);
            i = i + 1;
            assert(self.code.src@ =~= mid + text@.subrange(0, i as int));
        }
        assert(text@.subrange(0, text@.len() as int) =~= text@);
        self.starts.push(start);
        assert(self.code.src@ =~= s0.src.push('\n') + p.text());
        match lex_at(&self.code.src, start) {
            Err(pos) => {
                let line = line_in_exec(&self.code.src, start, pos);
                Err(PerlError { kind: ErrorKind::Syntax, message: string_of("Unrecognized character"), line })
            },
            Ok(nt) => {
                if self.code.toks.len() >= usize::MAX - 8 || nt.len() >= usize::MAX - 8 - self.code.toks.len() {
                    return Err(PerlError { kind: ErrorKind::Syntax, message: string_of("Program is too large"), line: 1 });
                }
                let base = self.code.toks.len();
                let mut j: usize = 0;
                let ghost t0 = self.code.toks@;
                let ghost src1 = self.code.src;
                let ghost starts1 = self.starts;
                while j < nt.len()
                    invariant
                        j <= nt@.len(),
                        self.code.toks@ == t0 + nt@.subrange(0, j as int),
                        self.code.src == src1,
                        self.starts == starts1,
                        self.env == old(self).env,
                        self.file == old(self).file,
                        self.program_name == old(self).program_name,
                        self.irs == old(self).irs,
                        self.line_number == old(self).line_number,
                    decreases nt@.len() - j,
                {
                    self.code.toks.push(nt[j]);
                    j = j + 1;
                    assert(self.code.toks@ =~= t0 + nt@.subrange(0, j as int));
                }
                assert(nt@.subrange(0, nt@.len() as int) =~= nt@);
                let f = self.code.ev_stmts(&mut self.env, MAX_CALL_DEPTH, true, base, crate::interp::env::Val::S(crate::interp::scalar::Scalar::Undef));
                match f {
                    FlowX::Next(q, v) => if q == self.code.toks.len() {
                        Ok(to_perl_exec(&self.code.src, v))
                    } else {
                        let line = self.line_of(q);
                        Err(PerlError { kind: ErrorKind::Syntax, message: string_of("syntax error"), line })
                    },
                    FlowX::Ret(v) => Ok(to_perl_exec(&self.code.src, v)),
                    FlowX::Fail(x) => {
                        let line = self.line_of(x.at);
                        Err(PerlError { kind: x.kind, message: string_from_chars(&x.msg), line })
                    },
                }
            },
        }
    }
}

/// The line of `pos` counted from `base` (see [`line_in`]).
fn line_in_exec(src: &Vec<char>, base: usize, pos: usize) -> (r: usize)
    requires
        src@.len() + 4 <= usize::MAX,
    ensures
        r as int == line_in(src@, base as int, pos as int),
{
    let line = line_at_exec(src, pos);
    let before = line_at_exec(src, base);
    if line >= before { line - before + 1 } else { 1 }
}

/// Parses `code` and runs it in `interp`; a program that does not parse leaves
/// the interpreter as it was.
pub fn parse_and_run_string(code: &str, interp: &mut Interpreter) -> (r: Result<PerlValue, PerlError>)
    requires
        old(interp).well_formed(),
    ensures
        final(interp).well_formed(),
        match parse_result(code@) {
            Err(x) => (r matches Err(e) && error_is(e, x)) && final(interp).session() == old(interp).session(),
            Ok(_) => final(interp).session() == execute_step(old(interp).session(), code@).0
                && match (r, execute_step(old(interp).session(), code@).1) {
                    (Ok(v), Ok(m)) => v@ == m,
                    (Err(e), Err(x)) => error_is(e, x),
                    _ => false,
                },
        },
{
    match parse(code) {
        Err(e) => Err(e),
        Ok(p) => interp.execute_tree(&p),
    }
}

} // verus!
