//! The meaning of a program: a big-step evaluator over the token sequence.
//!
//! Each function reads the construct that starts at a token position, and returns
//! the state after it together with how it ended: the position after it and its
//! value, a `return` with its value, or a failure. With `live` false a construct is
//! only read (to find where it ends and to check its syntax), and nothing runs.
//! Calls nest at most `fuel` deep.
use vstd::prelude::*;
use crate::interp::lexer::{Token, TokKind, Punct, is_alpha, is_word_char};
use crate::interp::env::{
    ValM, EnvM, span_ok, read_var, assign_var, declare_my, declare_our, localize, close_scope,
    make_closure, define_sub, find_sub, enter_call, leave_call, arg_get,
};
use crate::interp::ops::{BinOp, apply_binop, apply_not, apply_neg};
use crate::interp::scalar::{ScalarM, truthy, numify, false_value, bool_value, stringify};
use crate::interp::num::{int_num, num_trunc};
use crate::value::ErrorKind;

verus! {

/// The program: its text and its tokens.
pub struct Prog {
    pub src: Seq<char>,
    pub toks: Seq<Token>,
}

/// A failure: its kind, its message, and the token where it arose.
pub struct Fault {
    pub kind: ErrorKind,
    pub msg: Seq<char>,
    pub at: int,
}

/// How a construct ended.
pub enum Flow<T> {
    /// Normally: the position after it, and its result.
    Next(int, T),
    /// By `return`, with the returned value.
    Ret(ValM),
    /// By a failure.
    Fail(Fault),
}

/// The deepest nesting of calls.
pub const MAX_CALL_DEPTH: u32 = 100;

pub open spec fn syntax_at(p: int) -> Fault {
    Fault { kind: ErrorKind::Syntax, msg: "syntax error"@, at: p }
}

pub open spec fn runtime_at(msg: Seq<char>, p: int) -> Fault {
    Fault { kind: ErrorKind::Runtime, msg, at: p }
}

pub open spec fn msg_not_scalar() -> Seq<char> { "Operand is not a scalar value"@ }
pub open spec fn msg_not_code() -> Seq<char> { "Not a CODE reference"@ }
pub open spec fn msg_depth() -> Seq<char> { "Deep recursion limit exceeded"@ }
pub open spec fn msg_glob() -> Seq<char> { "Only code can be assigned to a glob"@ }
pub open spec fn msg_interpolation() -> Seq<char> { "Array interpolation is not supported"@ }
pub open spec fn msg_index() -> Seq<char> { "Only @_ can be indexed"@ }
pub open spec fn msg_numeric() -> Seq<char> { "Numeric string out of range"@ }

/// The text of a span (empty when the span lies outside the text).
pub open spec fn span_text(src: Seq<char>, s: int, e: int) -> Seq<char> {
    if span_ok(src, s, e) { src.subrange(s, e) } else { seq![] }
}

/// The message for a call of an undefined subroutine.
pub open spec fn msg_undefined_sub(name: Seq<char>) -> Seq<char> {
    "Undefined subroutine &main::"@ + name + " called"@
}

/// The kind of the token at `p`, if there is one.
pub open spec fn kind_at(m: Prog, p: int) -> Option<TokKind> {
    if 0 <= p < m.toks.len() {
        Some(m.toks[p].kind)
    } else {
        None
    }
}

pub open spec fn is_punct(m: Prog, p: int, c: Punct) -> bool {
    kind_at(m, p) == Some(TokKind::P(c))
}

/// The token at `p` is the bareword `w`.
pub open spec fn is_kw(m: Prog, p: int, w: Seq<char>) -> bool {
    match kind_at(m, p) {
        Some(TokKind::Word(s, e)) => span_ok(m.src, s as int, e as int) && m.src.subrange(s as int, e as int) == w,
        _ => false,
    }
}

pub open spec fn is_word(m: Prog, p: int) -> bool {
    kind_at(m, p) matches Some(TokKind::Word(_, _))
}

/// Perl truth of a value (references are true; a handed-in value carries its own).
pub open spec fn truthy_v(v: ValM) -> bool {
    match v {
        ValM::S(s) => truthy(s),
        ValM::Data(_, t) => t,
        _ => true,
    }
}

pub open spec fn undef_v() -> ValM {
    ValM::S(ScalarM::Undef)
}

/// A binary operator token, with the short-circuit operators apart.
#[derive(Clone, Copy)]
pub enum OpTok {
    Bin(BinOp),
    Or,
    DefinedOr,
    And,
}

/// The operator of precedence level `lvl` at `p` (0 binds loosest), if any.
pub open spec fn level_op(m: Prog, lvl: int, p: int) -> Option<OpTok> {
    match kind_at(m, p) {
        Some(TokKind::P(c)) => {
            if lvl == 0 && c == Punct::OrOr { Some(OpTok::Or) }
            else if lvl == 0 && c == Punct::DefinedOr { Some(OpTok::DefinedOr) }
            else if lvl == 1 && c == Punct::AndAnd { Some(OpTok::And) }
            else if lvl == 2 && c == Punct::Pipe { Some(OpTok::Bin(BinOp::BitOr)) }
            else if lvl == 2 && c == Punct::Caret { Some(OpTok::Bin(BinOp::BitXor)) }
            else if lvl == 3 && c == Punct::Amp { Some(OpTok::Bin(BinOp::BitAnd)) }
            else if lvl == 4 && c == Punct::EqEq { Some(OpTok::Bin(BinOp::NumEq)) }
            else if lvl == 4 && c == Punct::Ne { Some(OpTok::Bin(BinOp::NumNe)) }
            else if lvl == 4 && c == Punct::Spaceship { Some(OpTok::Bin(BinOp::NumOrder)) }
            else if lvl == 5 && c == Punct::Lt { Some(OpTok::Bin(BinOp::NumLt)) }
            else if lvl == 5 && c == Punct::Gt { Some(OpTok::Bin(BinOp::NumGt)) }
            else if lvl == 5 && c == Punct::Le { Some(OpTok::Bin(BinOp::NumLe)) }
            else if lvl == 5 && c == Punct::Ge { Some(OpTok::Bin(BinOp::NumGe)) }
            else if lvl == 6 && c == Punct::Plus { Some(OpTok::Bin(BinOp::Add)) }
            else if lvl == 6 && c == Punct::Minus { Some(OpTok::Bin(BinOp::Sub)) }
            else if lvl == 6 && c == Punct::Dot { Some(OpTok::Bin(BinOp::Concat)) }
            else if lvl == 7 && c == Punct::Star { Some(OpTok::Bin(BinOp::Mul)) }
            else if lvl == 7 && c == Punct::Slash { Some(OpTok::Bin(BinOp::Div)) }
            else if lvl == 7 && c == Punct::Percent { Some(OpTok::Bin(BinOp::Mod)) }
            else { None }
        },
        Some(TokKind::Word(_, _)) => {
            if lvl == 4 && is_kw(m, p, "eq"@) { Some(OpTok::Bin(BinOp::StrEq)) }
            else if lvl == 4 && is_kw(m, p, "ne"@) { Some(OpTok::Bin(BinOp::StrNe)) }
            else if lvl == 4 && is_kw(m, p, "cmp"@) { Some(OpTok::Bin(BinOp::StrOrder)) }
            else if lvl == 5 && is_kw(m, p, "lt"@) { Some(OpTok::Bin(BinOp::StrLt)) }
            else if lvl == 5 && is_kw(m, p, "gt"@) { Some(OpTok::Bin(BinOp::StrGt)) }
            else if lvl == 5 && is_kw(m, p, "le"@) { Some(OpTok::Bin(BinOp::StrLe)) }
            else if lvl == 5 && is_kw(m, p, "ge"@) { Some(OpTok::Bin(BinOp::StrGe)) }
            else if lvl == 7 && is_kw(m, p, "x"@) { Some(OpTok::Bin(BinOp::Repeat)) }
            else { None }
        },
        _ => None,
    }
}

/// Whether the right operand of `op` is evaluated after the left one gave `a`.
pub open spec fn needs_rhs(op: OpTok, a: ValM) -> bool {
    match op {
        OpTok::Or => !truthy_v(a),
        OpTok::DefinedOr => a == undef_v(),
        OpTok::And => truthy_v(a),
        OpTok::Bin(_) => true,
    }
}

/// A binary operator applied to two values.
pub open spec fn combine(op: OpTok, a: ValM, b: ValM) -> Result<ValM, Seq<char>> {
    match op {
        OpTok::Or => Ok(if truthy_v(a) { a } else { b }),
        OpTok::DefinedOr => Ok(if a == undef_v() { b } else { a }),
        OpTok::And => Ok(if truthy_v(a) { b } else { a }),
        OpTok::Bin(o) => match (a, b) {
            (ValM::S(x), ValM::S(y)) => match apply_binop(o, x, y) {
                Ok(r) => Ok(ValM::S(r)),
                Err(msg) => Err(msg),
            },
            _ => Err(msg_not_scalar()),
        },
    }
}

/// `!v`.
pub open spec fn not_v(v: ValM) -> ValM {
    match v {
        ValM::S(s) => ValM::S(apply_not(s)),
        ValM::Data(_, t) => ValM::S(bool_value(!t)),
        _ => ValM::S(false_value()),
    }
}

/// `-v`.
pub open spec fn neg_v(v: ValM) -> Result<ValM, Seq<char>> {
    match v {
        ValM::S(s) => match apply_neg(s) {
            Ok(r) => Ok(ValM::S(r)),
            Err(msg) => Err(msg),
        },
        _ => Err(msg_not_scalar()),
    }
}

/// The message of `die`: the text of its argument, or `Died` when that is empty.
pub open spec fn die_text(v: ValM) -> Seq<char> {
    match v {
        ValM::S(x) => if stringify(x).len() == 0 { "Died"@ } else { stringify(x) },
        _ => "Died"@,
    }
}

/// The integer index a value stands for.
pub open spec fn index_of(v: ValM) -> Result<int, Seq<char>> {
    match v {
        ValM::S(s) => match numify(s) {
            Some(x) => Ok(num_trunc(x)),
            None => Err(msg_numeric()),
        },
        _ => Err(msg_not_scalar()),
    }
}

/// The character a backslash escape in double quotes stands for.
pub open spec fn escape_char(c: char) -> char {
    if c == 'n' { '\n' } else if c == 't' { '\t' } else if c == 'r' { '\r' } else if c == '0' { '\0' } else { c }
}

/// A piece of a double-quoted string: a character, or a scalar variable to
/// interpolate (its name's span).
#[derive(Clone, Copy)]
pub enum Part {
    Lit(char),
    Var(usize, usize),
}

/// The end of the variable name starting at `j` inside a string ending at `end`.
pub open spec fn name_end(src: Seq<char>, j: int, end: int) -> int
    decreases end - j,
{
    if 0 <= j < end && j < src.len() && is_word_char(src[j]) {
        name_end(src, j + 1, end)
    } else {
        j
    }
}

/// The pieces of `src[i..end]` inside double quotes: escapes decoded, and `$name`
/// marked for interpolation; an array (`@name`) cannot be interpolated.
pub open spec fn dq_parts(src: Seq<char>, i: int, end: int) -> Result<Seq<Part>, Seq<char>>
    decreases end - i,
{
    if i >= end || i < 0 || end > src.len() {
        Ok(seq![])
    } else if src[i] == '\\' && i + 1 < end {
        match dq_parts(src, i + 2, end) {
            Ok(t) => Ok(seq![Part::Lit(escape_char(src[i + 1]))] + t),
            Err(m) => Err(m),
        }
    } else if src[i] == '$' && i + 1 < end && is_alpha(src[i + 1]) {
        let k = name_end(src, i + 1, end);
        if i < k <= end {
            match dq_parts(src, k, end) {
                Ok(t) => Ok(seq![Part::Var((i + 1) as usize, k as usize)] + t),
                Err(m) => Err(m),
            }
        } else {
            Ok(seq![])
        }
    } else if src[i] == '@' && i + 1 < end && is_alpha(src[i + 1]) {
        Err(msg_interpolation())
    } else {
        match dq_parts(src, i + 1, end) {
            Ok(t) => Ok(seq![Part::Lit(src[i])] + t),
            Err(m) => Err(m),
        }
    }
}

/// The text of the pieces, with the variables' current values.
pub open spec fn interpolate(src: Seq<char>, e: EnvM, parts: Seq<Part>) -> Result<Seq<char>, Seq<char>>
    decreases parts.len(),
{
    if parts.len() == 0 {
        Ok(seq![])
    } else {
        match interpolate(src, e, parts.drop_last()) {
            Err(m) => Err(m),
            Ok(t) => match parts.last() {
                Part::Lit(c) => Ok(t.push(c)),
                Part::Var(s, end) => match read_var(src, e, s as int, end as int) {
                    ValM::S(x) => Ok(t + stringify(x)),
                    _ => Err(msg_not_scalar()),
                },
            },
        }
    }
}

/// The text of `src[i..end]` inside single quotes: only `\\` and `\'` are escapes.
pub open spec fn sq_text(src: Seq<char>, i: int, end: int) -> Seq<char>
    decreases end - i,
{
    if i >= end || i < 0 || end > src.len() {
        seq![]
    } else if src[i] == '\\' && i + 1 < end && (src[i + 1] == '\\' || src[i + 1] == '\'') {
        seq![src[i + 1]] + sq_text(src, i + 2, end)
    } else {
        seq![src[i]] + sq_text(src, i + 1, end)
    }
}

/// Where a statement ending at `q` ends: after its `;`, or before a `}` or the end.
pub open spec fn stmt_end(m: Prog, q: int) -> Option<int> {
    if is_punct(m, q, Punct::Semi) {
        Some(q + 1)
    } else if q == m.toks.len() || is_punct(m, q, Punct::RBrace) {
        Some(q)
    } else {
        None
    }
}

/// The position after the `;` that ends a pragma.
pub open spec fn skip_to_semi(m: Prog, p: int) -> Option<int>
    decreases m.toks.len() - p,
{
    if p < 0 || p >= m.toks.len() {
        None
    } else if is_punct(m, p, Punct::Semi) {
        Some(p + 1)
    } else if is_punct(m, p, Punct::LBrace) || is_punct(m, p, Punct::RBrace) {
        None
    } else {
        skip_to_semi(m, p + 1)
    }
}

/// `sub NAME {` starts at `p`.
pub open spec fn is_sub_def(m: Prog, p: int) -> bool {
    is_kw(m, p, "sub"@) && is_word(m, p + 1) && is_punct(m, p + 2, Punct::LBrace)
}

/// A `use` or `no` pragma starts at `p`.
pub open spec fn is_pragma(m: Prog, p: int) -> bool {
    (is_kw(m, p, "use"@) || is_kw(m, p, "no"@)) && is_word(m, p + 1)
}

/// What an assignment at `p` assigns to.
#[derive(Clone, Copy)]
pub enum Target {
    Var(usize, usize),
    My(usize, usize),
    Our(usize, usize),
    Local(usize, usize),
    Glob(usize, usize),
}

/// The target of the assignment starting at `p` and the position of its right side.
pub open spec fn assign_target(m: Prog, p: int) -> Option<(Target, int)> {
    match (kind_at(m, p), kind_at(m, p + 1)) {
        (Some(TokKind::Var(s, e)), _) => if is_punct(m, p + 1, Punct::Assign) {
            Some((Target::Var(s, e), p + 2))
        } else {
            None
        },
        (Some(TokKind::Word(_, _)), Some(TokKind::Var(s, e))) => if is_punct(m, p + 2, Punct::Assign) {
            if is_kw(m, p, "my"@) {
                Some((Target::My(s, e), p + 3))
            } else if is_kw(m, p, "our"@) {
                Some((Target::Our(s, e), p + 3))
            } else if is_kw(m, p, "local"@) {
                Some((Target::Local(s, e), p + 3))
            } else {
                None
            }
        } else {
            None
        },
        (Some(TokKind::P(Punct::Star)), Some(TokKind::Word(s, e))) => if is_punct(m, p + 2, Punct::Assign) {
            Some((Target::Glob(s, e), p + 3))
        } else {
            None
        },
        _ => None,
    }
}

/// The state after assigning `v` to a target.
pub open spec fn do_assign(m: Prog, e: EnvM, t: Target, v: ValM, p: int) -> Result<EnvM, Fault> {
    match t {
        Target::Var(s, end) => Ok(assign_var(m.src, e, s, end, v)),
        Target::My(s, end) => Ok(declare_my(e, s, end, v)),
        Target::Our(s, end) => Ok(declare_our(m.src, e, s, end, Some(v))),
        Target::Local(s, end) => Ok(localize(m.src, e, s, end, v)),
        Target::Glob(s, end) => match v {
            ValM::Code(k) => Ok(define_sub(e, s, end, k as usize)),
            ValM::Glob(gs, ge) => match find_sub(m.src, e, gs, ge) {
                Some(k) => Ok(define_sub(e, s, end, k as usize)),
                None => Ok(e),
            },
            _ => Err(runtime_at(msg_glob(), p)),
        },
    }
}

/// A sequence of statements, up to a `}` or the end; `last` is the value of the
/// last statement so far.
pub open spec fn ev_stmts(m: Prog, fuel: nat, live: bool, p: int, e: EnvM, last: ValM) -> (EnvM, Flow<ValM>)
    decreases fuel, m.toks.len() - p, 20int,
{
    if !(0 <= p <= m.toks.len()) {
        (e, Flow::Fail(syntax_at(p)))
    } else if p == m.toks.len() || is_punct(m, p, Punct::RBrace) {
        (e, Flow::Next(p, last))
    } else if is_punct(m, p, Punct::Semi) {
        ev_stmts(m, fuel, live, p + 1, e, last)
    } else {
        let (e1, f) = ev_stmt(m, fuel, live, p, e);
        match f {
            Flow::Next(q, v) => if p < q <= m.toks.len() {
                ev_stmts(m, fuel, live, q, e1, if is_sub_def(m, p) || is_pragma(m, p) { last } else { v })
            } else {
                (e1, Flow::Fail(syntax_at(p)))
            },
            Flow::Ret(v) => (e1, Flow::Ret(v)),
            Flow::Fail(x) => (e1, Flow::Fail(x)),
        }
    }
}

/// One statement.
pub open spec fn ev_stmt(m: Prog, fuel: nat, live: bool, p: int, e: EnvM) -> (EnvM, Flow<ValM>)
    decreases fuel, m.toks.len() - p, 19int,
{
    if !(0 <= p < m.toks.len()) {
        (e, Flow::Fail(syntax_at(p)))
    } else if is_sub_def(m, p) {
        let (e1, f) = ev_block(m, fuel, false, p + 2, e);
        match f {
            Flow::Next(q, _) => if live {
                let (e2, k) = make_closure(e1, (p + 2) as usize);
                match kind_at(m, p + 1) {
                    Some(TokKind::Word(s, end)) => (define_sub(e2, s, end, k as usize), Flow::Next(q, undef_v())),
                    _ => (e2, Flow::Next(q, undef_v())),
                }
            } else {
                (e1, Flow::Next(q, undef_v()))
            },
            Flow::Ret(v) => (e1, Flow::Ret(v)),
            Flow::Fail(x) => (e1, Flow::Fail(x)),
        }
    } else if is_pragma(m, p) {
        match skip_to_semi(m, p + 1) {
            Some(q) => (e, Flow::Next(q, undef_v())),
            None => (e, Flow::Fail(syntax_at(p))),
        }
    } else if is_kw(m, p, "return"@) {
        match stmt_end(m, p + 1) {
            Some(q) => (e, if live { Flow::Ret(undef_v()) } else { Flow::Next(q, undef_v()) }),
            None => {
                let (e1, f) = ev_expr(m, fuel, live, p + 1, e);
                match f {
                    Flow::Next(q, v) => match stmt_end(m, q) {
                        Some(q2) => (e1, if live { Flow::Ret(v) } else { Flow::Next(q2, v) }),
                        None => (e1, Flow::Fail(syntax_at(q))),
                    },
                    Flow::Ret(v) => (e1, Flow::Ret(v)),
                    Flow::Fail(x) => (e1, Flow::Fail(x)),
                }
            },
        }
    } else {
        let (e1, f) = ev_expr(m, fuel, live, p, e);
        match f {
            Flow::Next(q, v) => match stmt_end(m, q) {
                Some(q2) => (e1, Flow::Next(q2, v)),
                None => (e1, Flow::Fail(syntax_at(q))),
            },
            Flow::Ret(v) => (e1, Flow::Ret(v)),
            Flow::Fail(x) => (e1, Flow::Fail(x)),
        }
    }
}

/// A block `{ ... }`: its lexicals and `local` values end with it.
pub open spec fn ev_block(m: Prog, fuel: nat, live: bool, p: int, e: EnvM) -> (EnvM, Flow<ValM>)
    decreases fuel, m.toks.len() - p, 21int,
{
    if !(0 <= p < m.toks.len()) || !is_punct(m, p, Punct::LBrace) {
        (e, Flow::Fail(syntax_at(p)))
    } else {
        let nl = e.lexicals.len() as int;
        let ns = e.saved.len() as int;
        let (e1, f) = ev_stmts(m, fuel, live, p + 1, e, undef_v());
        match f {
            Flow::Next(q, v) => if is_punct(m, q, Punct::RBrace) {
                (if live { close_scope(e1, nl, ns) } else { e1 }, Flow::Next(q + 1, v))
            } else {
                (e1, Flow::Fail(syntax_at(q)))
            },
            Flow::Ret(v) => (if live { close_scope(e1, nl, ns) } else { e1 }, Flow::Ret(v)),
            Flow::Fail(x) => (e1, Flow::Fail(x)),
        }
    }
}

/// An expression with the comma operator: the value of the last operand.
pub open spec fn ev_expr(m: Prog, fuel: nat, live: bool, p: int, e: EnvM) -> (EnvM, Flow<ValM>)
    decreases fuel, m.toks.len() - p, 18int,
{
    let (e1, f) = ev_assign(m, fuel, live, p, e);
    match f {
        Flow::Next(q, v) => if p < q <= m.toks.len() {
            ev_expr_rest(m, fuel, live, q, e1, v)
        } else {
            (e1, Flow::Fail(syntax_at(p)))
        },
        Flow::Ret(v) => (e1, Flow::Ret(v)),
        Flow::Fail(x) => (e1, Flow::Fail(x)),
    }
}

/// The rest of a comma expression after an operand with value `v`, at `q`.
pub open spec fn ev_expr_rest(m: Prog, fuel: nat, live: bool, q: int, e: EnvM, v: ValM) -> (EnvM, Flow<ValM>)
    decreases fuel, m.toks.len() - q, 18int,
{
    if !is_punct(m, q, Punct::Comma) {
        (e, Flow::Next(q, v))
    } else if is_punct(m, q + 1, Punct::RParen) {
        (e, Flow::Next(q + 1, v))
    } else {
        let (e1, f) = ev_assign(m, fuel, live, q + 1, e);
        match f {
            Flow::Next(q2, v2) => if q + 1 < q2 <= m.toks.len() {
                ev_expr_rest(m, fuel, live, q2, e1, v2)
            } else {
                (e1, Flow::Fail(syntax_at(q)))
            },
            Flow::Ret(r) => (e1, Flow::Ret(r)),
            Flow::Fail(x) => (e1, Flow::Fail(x)),
        }
    }
}

/// A parenthesized argument list from `p` (after the `(`), up to the `)`.
pub open spec fn ev_args(m: Prog, fuel: nat, live: bool, p: int, e: EnvM, acc: Seq<ValM>) -> (EnvM, Flow<Seq<ValM>>)
    decreases fuel, m.toks.len() - p, 18int,
{
    if is_punct(m, p, Punct::RParen) {
        (e, Flow::Next(p, acc))
    } else {
        let (e1, f) = ev_assign(m, fuel, live, p, e);
        match f {
            Flow::Next(q, v) => if p < q <= m.toks.len() {
                if is_punct(m, q, Punct::Comma) {
                    ev_args(m, fuel, live, q + 1, e1, acc.push(v))
                } else {
                    (e1, Flow::Next(q, acc.push(v)))
                }
            } else {
                (e1, Flow::Fail(syntax_at(p)))
            },
            Flow::Ret(r) => (e1, Flow::Ret(r)),
            Flow::Fail(x) => (e1, Flow::Fail(x)),
        }
    }
}

/// An assignment (right associative), or a conditional expression.
pub open spec fn ev_assign(m: Prog, fuel: nat, live: bool, p: int, e: EnvM) -> (EnvM, Flow<ValM>)
    decreases fuel, m.toks.len() - p, 17int,
{
    match assign_target(m, p) {
        Some((t, rhs)) => {
            let (e1, f) = ev_assign(m, fuel, live, rhs, e);
            match f {
                Flow::Next(q, v) => if live {
                    match do_assign(m, e1, t, v, p) {
                        Ok(e2) => (e2, Flow::Next(q, v)),
                        Err(x) => (e1, Flow::Fail(x)),
                    }
                } else {
                    (e1, Flow::Next(q, v))
                },
                Flow::Ret(r) => (e1, Flow::Ret(r)),
                Flow::Fail(x) => (e1, Flow::Fail(x)),
            }
        },
        None => ev_ternary(m, fuel, live, p, e),
    }
}

/// `c ? a : b`, or an operator expression.
pub open spec fn ev_ternary(m: Prog, fuel: nat, live: bool, p: int, e: EnvM) -> (EnvM, Flow<ValM>)
    decreases fuel, m.toks.len() - p, 16int,
{
    let (e1, f) = ev_bin(m, fuel, live, 0, p, e);
    match f {
        Flow::Next(q, c) => if !(p < q <= m.toks.len()) {
            (e1, Flow::Fail(syntax_at(p)))
        } else if is_punct(m, q, Punct::Question) {
            let cond = truthy_v(c);
            let (e2, f2) = ev_assign(m, fuel, live && cond, q + 1, e1);
            match f2 {
                Flow::Next(q2, v1) => if q + 1 < q2 < m.toks.len() && is_punct(m, q2, Punct::Colon) {
                    let (e3, f3) = ev_ternary(m, fuel, live && !cond, q2 + 1, e2);
                    match f3 {
                        Flow::Next(q3, v2) => (e3, Flow::Next(q3, if cond { v1 } else { v2 })),
                        Flow::Ret(r) => (e3, Flow::Ret(r)),
                        Flow::Fail(x) => (e3, Flow::Fail(x)),
                    }
                } else {
                    (e2, Flow::Fail(syntax_at(q2)))
                },
                Flow::Ret(r) => (e2, Flow::Ret(r)),
                Flow::Fail(x) => (e2, Flow::Fail(x)),
            }
        } else {
            (e1, Flow::Next(q, c))
        },
        Flow::Ret(r) => (e1, Flow::Ret(r)),
        Flow::Fail(x) => (e1, Flow::Fail(x)),
    }
}

/// Left-associative binary operators of level `lvl` and tighter.
pub open spec fn ev_bin(m: Prog, fuel: nat, live: bool, lvl: int, p: int, e: EnvM) -> (EnvM, Flow<ValM>)
    decreases fuel, m.toks.len() - p, 14 - lvl,
{
    if !(0 <= lvl <= 7) {
        (e, Flow::Fail(syntax_at(p)))
    } else {
        let (e1, f) = if lvl == 7 { ev_unary(m, fuel, live, p, e) } else { ev_bin(m, fuel, live, lvl + 1, p, e) };
        match f {
            Flow::Next(q, a) => if p < q <= m.toks.len() {
                ev_bin_rest(m, fuel, live, lvl, q, e1, a)
            } else {
                (e1, Flow::Fail(syntax_at(p)))
            },
            Flow::Ret(r) => (e1, Flow::Ret(r)),
            Flow::Fail(x) => (e1, Flow::Fail(x)),
        }
    }
}

/// The operators of level `lvl` after a left operand with value `a`, at `q`.
pub open spec fn ev_bin_rest(m: Prog, fuel: nat, live: bool, lvl: int, q: int, e: EnvM, a: ValM) -> (EnvM, Flow<ValM>)
    decreases fuel, m.toks.len() - q, 14 - lvl,
{
    if !(0 <= lvl <= 7) {
        (e, Flow::Fail(syntax_at(q)))
    } else {
        match level_op(m, lvl, q) {
            None => (e, Flow::Next(q, a)),
            Some(op) => {
                let l2 = live && needs_rhs(op, a);
                let (e1, f) = if lvl == 7 { ev_unary(m, fuel, l2, q + 1, e) } else { ev_bin(m, fuel, l2, lvl + 1, q + 1, e) };
                match f {
                    Flow::Next(q2, b) => if q + 1 < q2 <= m.toks.len() {
                        if live {
                            match combine(op, a, b) {
                                Ok(v) => ev_bin_rest(m, fuel, live, lvl, q2, e1, v),
                                Err(msg) => (e1, Flow::Fail(runtime_at(msg, q))),
                            }
                        } else {
                            ev_bin_rest(m, fuel, live, lvl, q2, e1, a)
                        }
                    } else {
                        (e1, Flow::Fail(syntax_at(q)))
                    },
                    Flow::Ret(r) => (e1, Flow::Ret(r)),
                    Flow::Fail(x) => (e1, Flow::Fail(x)),
                }
            },
        }
    }
}

/// `!x`, `-x`, or a power.
pub open spec fn ev_unary(m: Prog, fuel: nat, live: bool, p: int, e: EnvM) -> (EnvM, Flow<ValM>)
    decreases fuel, m.toks.len() - p, 5int,
{
    if !(0 <= p < m.toks.len()) {
        (e, Flow::Fail(syntax_at(p)))
    } else if is_punct(m, p, Punct::Bang) || is_punct(m, p, Punct::Minus) {
        let (e1, f) = ev_unary(m, fuel, live, p + 1, e);
        match f {
            Flow::Next(q, a) => if !live {
                (e1, Flow::Next(q, a))
            } else if is_punct(m, p, Punct::Bang) {
                (e1, Flow::Next(q, not_v(a)))
            } else {
                match neg_v(a) {
                    Ok(v) => (e1, Flow::Next(q, v)),
                    Err(msg) => (e1, Flow::Fail(runtime_at(msg, p))),
                }
            },
            Flow::Ret(r) => (e1, Flow::Ret(r)),
            Flow::Fail(x) => (e1, Flow::Fail(x)),
        }
    } else {
        ev_power(m, fuel, live, p, e)
    }
}

/// `a ** b` (right associative; binds tighter than unary minus on its left).
pub open spec fn ev_power(m: Prog, fuel: nat, live: bool, p: int, e: EnvM) -> (EnvM, Flow<ValM>)
    decreases fuel, m.toks.len() - p, 4int,
{
    let (e1, f) = ev_postfix(m, fuel, live, p, e);
    match f {
        Flow::Next(q, a) => if !(p < q <= m.toks.len()) {
            (e1, Flow::Fail(syntax_at(p)))
        } else if is_punct(m, q, Punct::StarStar) {
            let (e2, f2) = ev_unary(m, fuel, live, q + 1, e1);
            match f2 {
                Flow::Next(q2, b) => if live {
                    match combine(OpTok::Bin(BinOp::Pow), a, b) {
                        Ok(v) => (e2, Flow::Next(q2, v)),
                        Err(msg) => (e2, Flow::Fail(runtime_at(msg, q))),
                    }
                } else {
                    (e2, Flow::Next(q2, a))
                },
                Flow::Ret(r) => (e2, Flow::Ret(r)),
                Flow::Fail(x) => (e2, Flow::Fail(x)),
            }
        } else {
            (e1, Flow::Next(q, a))
        },
        Flow::Ret(r) => (e1, Flow::Ret(r)),
        Flow::Fail(x) => (e1, Flow::Fail(x)),
    }
}

/// A primary followed by calls `->(...)`.
pub open spec fn ev_postfix(m: Prog, fuel: nat, live: bool, p: int, e: EnvM) -> (EnvM, Flow<ValM>)
    decreases fuel, m.toks.len() - p, 3int,
{
    let (e1, f) = ev_primary(m, fuel, live, p, e);
    match f {
        Flow::Next(q, a) => if p < q <= m.toks.len() {
            ev_postfix_rest(m, fuel, live, q, e1, a)
        } else {
            (e1, Flow::Fail(syntax_at(p)))
        },
        Flow::Ret(r) => (e1, Flow::Ret(r)),
        Flow::Fail(x) => (e1, Flow::Fail(x)),
    }
}

/// Calls `->(...)` of the value `a`, at `q`.
pub open spec fn ev_postfix_rest(m: Prog, fuel: nat, live: bool, q: int, e: EnvM, a: ValM) -> (EnvM, Flow<ValM>)
    decreases fuel, m.toks.len() - q, 3int,
{
    if 0 <= q && is_punct(m, q, Punct::Arrow) && is_punct(m, q + 1, Punct::LParen) {
        let (e1, f) = ev_args(m, fuel, live, q + 2, e, seq![]);
        match f {
            Flow::Next(q2, vals) => if q + 2 <= q2 < m.toks.len() && is_punct(m, q2, Punct::RParen) {
                if live {
                    let (e2, r) = call_value(m, fuel, a, vals, e1, q);
                    match r {
                        Ok(v) => ev_postfix_rest(m, fuel, live, q2 + 1, e2, v),
                        Err(x) => (e2, Flow::Fail(x)),
                    }
                } else {
                    ev_postfix_rest(m, fuel, live, q2 + 1, e1, a)
                }
            } else {
                (e1, Flow::Fail(syntax_at(q2)))
            },
            Flow::Ret(r) => (e1, Flow::Ret(r)),
            Flow::Fail(x) => (e1, Flow::Fail(x)),
        }
    } else {
        (e, Flow::Next(q, a))
    }
}

/// Calls a code value.
pub open spec fn call_value(m: Prog, fuel: nat, f: ValM, args: Seq<ValM>, e: EnvM, at: int) -> (EnvM, Result<ValM, Fault>)
    decreases fuel, 0int, 1int,
{
    match f {
        ValM::Code(k) => call_closure(m, fuel, k as int, args, e, at),
        _ => (e, Err(runtime_at(msg_not_code(), at))),
    }
}

/// Calls closure `k`: its body runs over its captured lexicals, with `@_` set to
/// the arguments; its value is that of its last statement or of a `return`.
pub open spec fn call_closure(m: Prog, fuel: nat, k: int, args: Seq<ValM>, e: EnvM, at: int) -> (EnvM, Result<ValM, Fault>)
    decreases fuel, 0int, 0int,
{
    if fuel == 0 {
        (e, Err(runtime_at(msg_depth(), at)))
    } else {
        match enter_call(e, k, args) {
            None => (e, Err(runtime_at(msg_not_code(), at))),
            Some(e1) => {
                let (e2, f) = ev_block(m, (fuel - 1) as nat, true, e.closures[k].body as int, e1);
                let e3 = leave_call(e2, e.lexicals, e.args);
                match f {
                    Flow::Next(_, v) => (e3, Ok(v)),
                    Flow::Ret(v) => (e3, Ok(v)),
                    Flow::Fail(x) => (e3, Err(x)),
                }
            },
        }
    }
}

/// A primary expression.
pub open spec fn ev_primary(m: Prog, fuel: nat, live: bool, p: int, e: EnvM) -> (EnvM, Flow<ValM>)
    decreases fuel, m.toks.len() - p, 2int,
{
    if !(0 <= p < m.toks.len()) {
        (e, Flow::Fail(syntax_at(p)))
    } else {
        match m.toks[p].kind {
            TokKind::Int(i) => (e, Flow::Next(p + 1, ValM::S(ScalarM::Num(int_num(i))))),
            TokKind::DStr(s, end) => match dq_parts(m.src, s as int, end as int) {
                Ok(parts) => if live {
                    match interpolate(m.src, e, parts) {
                        Ok(t) => (e, Flow::Next(p + 1, ValM::S(ScalarM::Str(t)))),
                        Err(msg) => (e, Flow::Fail(runtime_at(msg, p))),
                    }
                } else {
                    (e, Flow::Next(p + 1, undef_v()))
                },
                Err(msg) => (e, Flow::Fail(Fault { kind: ErrorKind::Syntax, msg, at: p })),
            },
            TokKind::SStr(s, end) => (e, Flow::Next(p + 1, ValM::S(ScalarM::Str(sq_text(m.src, s as int, end as int))))),
            TokKind::Var(s, end) => ev_var(m, fuel, live, p, s, end, e),
            TokKind::Word(s, end) => ev_word(m, fuel, live, p, s, end, e),
            TokKind::P(Punct::LParen) => if is_punct(m, p + 1, Punct::RParen) {
                (e, Flow::Next(p + 2, undef_v()))
            } else {
                let (e1, f) = ev_expr(m, fuel, live, p + 1, e);
                match f {
                    Flow::Next(q, v) => if p + 1 < q < m.toks.len() && is_punct(m, q, Punct::RParen) {
                        (e1, Flow::Next(q + 1, v))
                    } else {
                        (e1, Flow::Fail(syntax_at(q)))
                    },
                    Flow::Ret(r) => (e1, Flow::Ret(r)),
                    Flow::Fail(x) => (e1, Flow::Fail(x)),
                }
            },
            TokKind::P(Punct::Backslash) => match kind_at(m, p + 2) {
                Some(TokKind::Word(ws, we)) => if is_punct(m, p + 1, Punct::Amp) {
                    if live {
                        match find_sub(m.src, e, ws as int, we as int) {
                            Some(k) => (e, Flow::Next(p + 3, ValM::Code(k as nat))),
                            None => (e, Flow::Fail(runtime_at(msg_undefined_sub(span_text(m.src, ws as int, we as int)), p))),
                        }
                    } else {
                        (e, Flow::Next(p + 3, undef_v()))
                    }
                } else {
                    (e, Flow::Fail(syntax_at(p)))
                },
                _ => (e, Flow::Fail(syntax_at(p))),
            },
            TokKind::P(Punct::Star) => match kind_at(m, p + 1) {
                Some(TokKind::Word(ws, we)) => (e, Flow::Next(p + 2, ValM::Glob(ws as int, we as int))),
                _ => (e, Flow::Fail(syntax_at(p))),
            },
            _ => (e, Flow::Fail(syntax_at(p))),
        }
    }
}

/// A scalar variable `$name`, or an element `$_[i]` of the arguments.
pub open spec fn ev_var(m: Prog, fuel: nat, live: bool, p: int, s: usize, end: usize, e: EnvM) -> (EnvM, Flow<ValM>)
    decreases fuel, m.toks.len() - p, 1int,
{
    if is_punct(m, p + 1, Punct::LBracket) {
        if !(span_ok(m.src, s as int, end as int) && m.src.subrange(s as int, end as int) == seq!['_']) {
            (e, Flow::Fail(Fault { kind: ErrorKind::Syntax, msg: msg_index(), at: p }))
        } else {
            let (e1, f) = ev_expr(m, fuel, live, p + 2, e);
            match f {
                Flow::Next(q, iv) => if p + 2 < q < m.toks.len() && is_punct(m, q, Punct::RBracket) {
                    if live {
                        match index_of(iv) {
                            Ok(i) => (e1, Flow::Next(q + 1, arg_get(e1, i))),
                            Err(msg) => (e1, Flow::Fail(runtime_at(msg, p))),
                        }
                    } else {
                        (e1, Flow::Next(q + 1, undef_v()))
                    }
                } else {
                    (e1, Flow::Fail(syntax_at(q)))
                },
                Flow::Ret(r) => (e1, Flow::Ret(r)),
                Flow::Fail(x) => (e1, Flow::Fail(x)),
            }
        }
    } else {
        (e, Flow::Next(p + 1, if live { read_var(m.src, e, s as int, end as int) } else { undef_v() }))
    }
}

/// A primary that starts with a bareword: a declaration, `undef`, `scalar`, a
/// `do` block, an anonymous sub, or a call of a named subroutine.
pub open spec fn ev_word(m: Prog, fuel: nat, live: bool, p: int, s: usize, end: usize, e: EnvM) -> (EnvM, Flow<ValM>)
    decreases fuel, m.toks.len() - p, 1int,
{
    if (is_kw(m, p, "my"@) || is_kw(m, p, "our"@) || is_kw(m, p, "local"@))
        && kind_at(m, p + 1) matches Some(TokKind::Var(_, _)) {
        match m.toks[p + 1].kind {
            TokKind::Var(vs, ve) => if !live {
                (e, Flow::Next(p + 2, undef_v()))
            } else if is_kw(m, p, "my"@) {
                (declare_my(e, vs, ve, undef_v()), Flow::Next(p + 2, undef_v()))
            } else if is_kw(m, p, "our"@) {
                let e1 = declare_our(m.src, e, vs, ve, None);
                (e1, Flow::Next(p + 2, read_var(m.src, e1, vs as int, ve as int)))
            } else {
                (localize(m.src, e, vs, ve, undef_v()), Flow::Next(p + 2, undef_v()))
            },
            _ => (e, Flow::Fail(syntax_at(p))),
        }
    } else if is_kw(m, p, "undef"@) {
        (e, Flow::Next(p + 1, undef_v()))
    } else if is_kw(m, p, "die"@) {
        match stmt_end(m, p + 1) {
            Some(_) => if live {
                (e, Flow::Fail(Fault { kind: ErrorKind::Die, msg: "Died"@, at: p }))
            } else {
                (e, Flow::Next(p + 1, undef_v()))
            },
            None => {
                let (e1, f) = ev_expr(m, fuel, live, p + 1, e);
                match f {
                    Flow::Next(q, v) => if live {
                        (e1, Flow::Fail(Fault { kind: ErrorKind::Die, msg: die_text(v), at: p }))
                    } else {
                        (e1, Flow::Next(q, undef_v()))
                    },
                    Flow::Ret(r) => (e1, Flow::Ret(r)),
                    Flow::Fail(x) => (e1, Flow::Fail(x)),
                }
            },
        }
    } else if is_kw(m, p, "scalar"@) {
        ev_primary(m, fuel, live, p + 1, e)
    } else if is_kw(m, p, "do"@) && is_punct(m, p + 1, Punct::LBrace) {
        ev_block(m, fuel, live, p + 1, e)
    } else if is_kw(m, p, "sub"@) && is_punct(m, p + 1, Punct::LBrace) {
        let (e1, f) = ev_block(m, fuel, false, p + 1, e);
        match f {
            Flow::Next(q, _) => if live {
                let (e2, k) = make_closure(e1, (p + 1) as usize);
                (e2, Flow::Next(q, ValM::Code(k as nat)))
            } else {
                (e1, Flow::Next(q, undef_v()))
            },
            Flow::Ret(r) => (e1, Flow::Ret(r)),
            Flow::Fail(x) => (e1, Flow::Fail(x)),
        }
    } else if is_punct(m, p + 1, Punct::LParen) {
        let (e1, f) = ev_args(m, fuel, live, p + 2, e, seq![]);
        match f {
            Flow::Next(q, vals) => if p + 2 <= q < m.toks.len() && is_punct(m, q, Punct::RParen) {
                if live {
                    match find_sub(m.src, e1, s as int, end as int) {
                        Some(k) => {
                            let (e2, r) = call_closure(m, fuel, k, vals, e1, p);
                            match r {
                                Ok(v) => (e2, Flow::Next(q + 1, v)),
                                Err(x) => (e2, Flow::Fail(x)),
                            }
                        },
                        None => (e1, Flow::Fail(runtime_at(
                            msg_undefined_sub(span_text(m.src, s as int, end as int)), p))),
                    }
                } else {
                    (e1, Flow::Next(q + 1, undef_v()))
                }
            } else {
                (e1, Flow::Fail(syntax_at(q)))
            },
            Flow::Ret(r) => (e1, Flow::Ret(r)),
            Flow::Fail(x) => (e1, Flow::Fail(x)),
        }
    } else {
        (e, Flow::Fail(syntax_at(p)))
    }
}

/// A whole program: its statements up to the end of the text.
pub open spec fn ev_program(m: Prog, fuel: nat, live: bool, e: EnvM) -> (EnvM, Flow<ValM>) {
    let (e1, f) = ev_stmts(m, fuel, live, 0, e, undef_v());
    match f {
        Flow::Next(q, v) => if q == m.toks.len() { (e1, Flow::Next(q, v)) } else { (e1, Flow::Fail(syntax_at(q))) },
        Flow::Ret(v) => (e1, Flow::Ret(v)),
        Flow::Fail(x) => (e1, Flow::Fail(x)),
    }
}

} // verus!
