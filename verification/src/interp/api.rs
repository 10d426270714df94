//! The interpreter's entry points: [`run`] a program, or [`parse`] it into its
//! top-level statements.
use vstd::prelude::*;
use crate::interp::lexer::{Punct, lex, lex_from};
use crate::interp::env::{Val, ValM, Env, EnvM, empty_env, val_wf, env_wf};
use crate::interp::semantics::{Prog, Flow, MAX_CALL_DEPTH, ev_program, ev_stmt, is_punct, span_text};
use crate::interp::machine::{Code, FlowX, FaultX, code_wf};
use crate::interp::scalar::{Scalar, ScalarM, num_str};
use crate::interp::ops::stringify_exec;
use crate::text::{str_chars, string_of, string_from_chars};
use crate::value::{PerlValue, PerlModel, PerlError, ErrorKind, model_seq, lemma_model_seq};

verus! {

/// The number of newlines in `src[..i]`.
pub open spec fn newlines(src: Seq<char>, i: int) -> nat
    decreases i,
{
    if i <= 0 || src.len() < i {
        0
    } else {
        newlines(src, i - 1) + (if src[i - 1] == '\n' { 1nat } else { 0nat })
    }
}

/// The line (from 1) of the character at `pos` (the last line past the end).
pub open spec fn line_at(src: Seq<char>, pos: int) -> nat {
    1 + newlines(src, if pos > src.len() { src.len() as int } else { pos })
}

/// The line of the token where a failure arose.
pub open spec fn fault_line(m: Prog, at: int) -> nat {
    if 0 <= at < m.toks.len() {
        line_at(m.src, m.toks[at].pos as int)
    } else {
        line_at(m.src, m.src.len() as int)
    }
}

/// An error as the kind, the message and the line.
pub type ErrM = (ErrorKind, Seq<char>, nat);

pub open spec fn msg_too_large() -> Seq<char> { "Program is too large"@ }
pub open spec fn msg_bad_char() -> Seq<char> { "Unrecognized character"@ }

/// The program a text stands for, once it lexes and its syntax checks out.
pub open spec fn prepared(src: Seq<char>) -> Result<Prog, ErrM> {
    if src.len() + 4 > usize::MAX {
        Err((ErrorKind::Syntax, msg_too_large(), 1))
    } else {
        match lex_from(src, 0) {
            Err(i) => Err((ErrorKind::Syntax, msg_bad_char(), line_at(src, i))),
            Ok(toks) => if toks.len() + 8 >= usize::MAX {
                Err((ErrorKind::Syntax, msg_too_large(), 1))
            } else {
                let m = Prog { src, toks };
                match ev_program(m, MAX_CALL_DEPTH as nat, false, empty_env()).1 {
                    Flow::Fail(x) => Err((x.kind, x.msg, fault_line(m, x.at))),
                    _ => Ok(m),
                }
            },
        }
    }
}

/// The value handed back for a run-time value.
pub open spec fn to_perl(src: Seq<char>, v: ValM) -> PerlModel {
    match v {
        ValM::S(ScalarM::Undef) => PerlModel::Undef,
        ValM::S(ScalarM::Num(x)) => if x.d == 1 { PerlModel::Integer(x.n) } else { PerlModel::Str(num_str(x)) },
        ValM::S(ScalarM::Str(s)) => PerlModel::Str(s),
        ValM::Code(k) => PerlModel::Code(k as usize),
        ValM::Glob(s, e) => PerlModel::Str("*main::"@ + span_text(src, s, e)),
        ValM::Data(_, _) => PerlModel::Undef,
    }
}

/// The outcome of running a program: the value of its last statement (or of a
/// top-level `return`), or the error that stopped it.
pub open spec fn run_result(src: Seq<char>) -> Result<PerlModel, ErrM> {
    match prepared(src) {
        Err(e) => Err(e),
        Ok(m) => match ev_program(m, MAX_CALL_DEPTH as nat, true, empty_env()).1 {
            Flow::Next(_, v) => Ok(to_perl(src, v)),
            Flow::Ret(v) => Ok(to_perl(src, v)),
            Flow::Fail(x) => Err((x.kind, x.msg, fault_line(m, x.at))),
        },
    }
}

/// The token ranges of the top-level statements from `p` on.
pub open spec fn top_statements(m: Prog, p: int) -> Seq<(int, int)>
    decreases m.toks.len() - p,
{
    if p < 0 || p >= m.toks.len() {
        seq![]
    } else if is_punct(m, p, Punct::Semi) {
        top_statements(m, p + 1)
    } else {
        match ev_stmt(m, MAX_CALL_DEPTH as nat, false, p, empty_env()).1 {
            Flow::Next(q, _) => if p < q <= m.toks.len() {
                seq![(p, q)] + top_statements(m, q)
            } else {
                seq![]
            },
            _ => seq![],
        }
    }
}

/// The statements of a program, or why it does not parse.
pub open spec fn parse_result(src: Seq<char>) -> Result<Seq<(int, int)>, ErrM> {
    match prepared(src) {
        Err(e) => Err(e),
        Ok(m) => Ok(top_statements(m, 0)),
    }
}

/// A top-level statement: the range `start..end` of its tokens.
#[derive(Debug, Clone, Copy)]
pub struct Statement {
    pub start: usize,
    pub end: usize,
}

/// A parsed program: its top-level statements, and its text.
#[derive(Debug)]
pub struct Program {
    pub statements: Vec<Statement>,
    pub source: Vec<char>,
}

impl Program {
    /// The text this program was parsed from.
    pub open spec fn text(&self) -> Seq<char> {
        self.source@
    }
}

pub open spec fn stmts_view(s: Seq<Statement>) -> Seq<(int, int)> {
    s.map_values(|x: Statement| (x.start as int, x.end as int))
}

/// The error says exactly `x`.
pub open spec fn error_is(e: PerlError, x: ErrM) -> bool {
    e.kind == x.0 && e.message@ == x.1 && e.line as int == x.2
}

/// The line of the character at `pos` (see [`line_at`]).
pub(crate) fn line_at_exec(src: &Vec<char>, pos: usize) -> (r: usize)
    requires
        src@.len() + 4 <= usize::MAX,
    ensures
        r as int == line_at(src@, pos as int),
{
    let n = if pos > src.len() { src.len() } else { pos };
    let mut count: usize = 0;
    let mut i: usize = 0;
    while i < n
        invariant
            n <= src@.len(),
            src@.len() + 4 <= usize::MAX,
            i <= n,
            count as int == newlines(src@, i as int),
            count <= i,
        decreases n - i,
    {
        if src[i] == '\n' {
            count = count + 1;
        }
        i = i + 1;
    }
    count + 1
}

/// The error for a failure.
fn error_of(c: &Code, x: FaultX) -> (e: PerlError)
    requires
        c.src@.len() + 4 <= usize::MAX,
    ensures
        error_is(e, (x.kind, x.msg@, fault_line(c@, x.at as int))),
{
    let line = if x.at < c.toks.len() {
        line_at_exec(&c.src, c.toks[x.at].pos)
    } else {
        line_at_exec(&c.src, c.src.len())
    };
    PerlError { kind: x.kind, message: string_from_chars(&x.msg), line }
}

/// Lexes a program and checks its syntax (see [`prepared`]).
fn prepare(code: &str) -> (r: Result<Code, PerlError>)
    ensures
        match (r, prepared(code@)) {
            (Ok(c), Ok(m)) => c@ == m && code_wf(c@) && c.src@.len() + 4 <= usize::MAX,
            (Err(e), Err(x)) => error_is(e, x),
            _ => false,
        },
{
    let src = str_chars(code);
    if src.len() > usize::MAX - 4 {
        return Err(PerlError { kind: ErrorKind::Syntax, message: string_of("Program is too large"), line: 1 });
    }
    match lex(&src) {
        Err(i) => {
            let line = line_at_exec(&src, i);
            Err(PerlError { kind: ErrorKind::Syntax, message: string_of("Unrecognized character"), line })
        },
        Ok(toks) => {
            if toks.len() >= usize::MAX - 8 {
                return Err(PerlError { kind: ErrorKind::Syntax, message: string_of("Program is too large"), line: 1 });
            }
            let c = Code { src, toks };
            let mut env = Env::new();
            let f = c.ev_program(&mut env, MAX_CALL_DEPTH, false);
            match f {
                FlowX::Fail(x) => Err(error_of(&c, x)),
                _ => Ok(c),
            }
        },
    }
}

/// Appends the text of a span (see [`span_text`]).
fn push_span(out: &mut Vec<char>, src: &Vec<char>, s: usize, e: usize)
    ensures
        final(out)@ == old(out)@ + span_text(src@, s as int, e as int),
{
    let ghost head = out@;
    if s <= e && e <= src.len() {
        let mut i = s;
        while i < e
            invariant
                s <= i <= e <= src@.len(),
                out@ == head + src@.subrange(s as int, i as int),
            decreases e - i,
        {
            out.push(src[i]);
            i = i + 1;
            assert(out@ =~= head + src@.subrange(s as int, i as int));
        }
    } else {
        assert(out@ =~= head + span_text(src@, s as int, e as int));
    }
}

/// The value handed back for a run-time value (see [`to_perl`]).
pub(crate) fn to_perl_exec(src: &Vec<char>, v: Val) -> (r: PerlValue)
    requires
        val_wf(v@),
    ensures
        r@ == to_perl(src@, v@),
{
    match v {
        Val::S(Scalar::Undef) => PerlValue::Undef,
        Val::S(Scalar::Num(x)) => if x.d == 1 {
            PerlValue::Integer(x.n)
        } else {
            let t = stringify_exec(&Scalar::Num(x));
            PerlValue::String(string_from_chars(&t))
        },
        Val::S(Scalar::Str(s)) => PerlValue::String(string_from_chars(&s)),
        Val::Code(k) => PerlValue::Code(k),
        Val::Glob(s, e) => {
            let mut t = str_chars("*main::");
            push_span(&mut t, src, s, e);
            PerlValue::String(string_from_chars(&t))
        },
        Val::Data(_, _) => PerlValue::Undef,
    }
}

/// The value handed back for a run-time value, where `data` are the values the
/// caller handed in: a held value goes back as it came.
pub open spec fn to_perl_with(src: Seq<char>, data: Seq<PerlModel>, v: ValM) -> PerlModel {
    match v {
        ValM::Data(k, _) => if k < data.len() { data[k as int] } else { PerlModel::Undef },
        _ => to_perl(src, v),
    }
}

/// What running a program from the state `e` gives, where `data` are the values
/// the caller handed in (see [`run_result`]).
pub open spec fn run_result_with(src: Seq<char>, e: EnvM, data: Seq<PerlModel>) -> Result<PerlModel, ErrM> {
    match prepared(src) {
        Err(x) => Err(x),
        Ok(m) => match ev_program(m, MAX_CALL_DEPTH as nat, true, e).1 {
            Flow::Next(_, v) => Ok(to_perl_with(src, data, v)),
            Flow::Ret(v) => Ok(to_perl_with(src, data, v)),
            Flow::Fail(x) => Err((x.kind, x.msg, fault_line(m, x.at))),
        },
    }
}

/// The value handed back for a run-time value (see [`to_perl_with`]); takes the
/// handed-in values, as the run is over.
fn to_perl_with_exec(src: &Vec<char>, data: Vec<PerlValue>, v: Val) -> (r: PerlValue)
    requires
        val_wf(v@),
    ensures
        r@ == to_perl_with(src@, model_seq(data@), v@),
{
    proof {
        lemma_model_seq(data@);
    }
    match v {
        Val::Data(k, _) => {
            let mut data = data;
            if k < data.len() {
                data.swap_remove(k)
            } else {
                PerlValue::Undef
            }
        },
        _ => to_perl_exec(src, v),
    }
}

/// Runs a program from the state `env`, with `data` the values the caller handed
/// in (see [`run_result_with`]).
pub fn run_with(code: &str, env: Env, data: Vec<PerlValue>) -> (r: Result<PerlValue, PerlError>)
    requires
        env_wf(env@),
    ensures
        match (r, run_result_with(code@, env@, model_seq(data@))) {
            (Ok(v), Ok(m)) => v@ == m,
            (Err(e), Err(x)) => error_is(e, x),
            _ => false,
        },
{
    match prepare(code) {
        Err(e) => Err(e),
        Ok(c) => {
            let mut env = env;
            let f = c.ev_program(&mut env, MAX_CALL_DEPTH, true);
            match f {
                FlowX::Next(_, v) => Ok(to_perl_with_exec(&c.src, data, v)),
                FlowX::Ret(v) => Ok(to_perl_with_exec(&c.src, data, v)),
                FlowX::Fail(x) => Err(error_of(&c, x)),
            }
        },
    }
}

/// Runs a program and returns the value of its last statement (or of a top-level
/// `return`); `undef` for a program without statements.
pub fn run(code: &str) -> (r: Result<PerlValue, PerlError>)
    ensures
        match (r, run_result(code@)) {
            (Ok(v), Ok(m)) => v@ == m,
            (Err(e), Err(x)) => error_is(e, x),
            _ => false,
        },
{
    match prepare(code) {
        Err(e) => Err(e),
        Ok(c) => {
            let mut env = Env::new();
            let f = c.ev_program(&mut env, MAX_CALL_DEPTH, true);
            match f {
                FlowX::Next(_, v) => Ok(to_perl_exec(&c.src, v)),
                FlowX::Ret(v) => Ok(to_perl_exec(&c.src, v)),
                FlowX::Fail(x) => Err(error_of(&c, x)),
            }
        },
    }
}

/// Parses a program into its top-level statements.
pub fn parse(code: &str) -> (r: Result<Program, PerlError>)
    ensures
        match (r, parse_result(code@)) {
            (Ok(p), Ok(s)) => stmts_view(p.statements@) == s && p.text() == code@,
            (Err(e), Err(x)) => error_is(e, x),
            _ => false,
        },
{
    match prepare(code) {
        Err(e) => Err(e),
        Ok(c) => {
            let mut stmts: Vec<Statement> = Vec::new();
            let mut p: usize = 0;
            let mut done = false;
            while p < c.toks.len() && !done
                invariant
                    code_wf(c@),
                    p <= c.toks@.len(),
                    top_statements(c@, 0) == stmts_view(stmts@) + top_statements(c@, p as int),
                    done ==> top_statements(c@, p as int) == Seq::<(int, int)>::empty(),
                decreases c.toks@.len() - p, if done { 0int } else { 1int },
            {
                if c.is_punct(p, Punct::Semi) {
                    p = p + 1;
                } else {
                    let mut env = Env::new();
                    let f = c.ev_stmt(&mut env, MAX_CALL_DEPTH, false, p);
                    match f {
                        FlowX::Next(q, _) => if p < q && q <= c.toks.len() {
                            let ghost before = stmts_view(stmts@);
                            stmts.push(Statement { start: p, end: q });
                            assert(stmts_view(stmts@) =~= before.push((p as int, q as int)));
                            assert(before + top_statements(c@, p as int) =~= stmts_view(stmts@) + top_statements(c@, q as int));
                            p = q;
                        } else {
                            done = true;
                        },
                        _ => {
                            done = true;
                        },
                    }
                }
            }
            assert(stmts_view(stmts@) + top_statements(c@, p as int) =~= stmts_view(stmts@));
            Ok(Program { statements: stmts, source: c.src })
        },
    }
}


/// A program that does not parse does not run: `run` reports the error `parse`
/// reports.
pub proof fn law_unparsable_does_not_run(src: Seq<char>)
    ensures
        parse_result(src) matches Err(e) ==> run_result(src) == Err::<PerlModel, ErrM>(e),
{
}

} // verus!
