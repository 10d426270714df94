//! The evaluator: executable counterparts of the functions of
//! [`crate::interp::semantics`], each proved to compute exactly what its
//! counterpart defines.
use vstd::prelude::*;
use crate::interp::lexer::{Token, TokKind, Punct};
use crate::interp::env::{Val, ValM, Env, EnvM, val_wf, env_wf};
use crate::interp::lexer::{is_alpha, is_word_char};
use crate::interp::scalar::push_stringify;
use crate::interp::semantics::{
    Prog, Fault, Flow, OpTok, Target, syntax_at, runtime_at, kind_at, is_punct, is_kw, is_word,
    truthy_v, undef_v, level_op, needs_rhs, combine, not_v, neg_v, index_of, escape_char, dq_parts,
    Part, name_end, interpolate, sq_text, stmt_end, skip_to_semi, die_text, is_sub_def, is_pragma,
    assign_target, do_assign,
};
use crate::interp::ops::{BinOp, bool_exec, apply_binop_exec, apply_not_exec, apply_neg_exec, stringify_exec};
use crate::interp::scalar::{Scalar, truthy_exec, numify_exec};
use crate::interp::num::{num_wf, num_trunc_exec};
use crate::text::str_chars;
use crate::value::ErrorKind;

verus! {

/// A program ready to run: its text and its tokens.
pub struct Code {
    pub src: Vec<char>,
    pub toks: Vec<Token>,
}

impl View for Code {
    type V = Prog;

    open spec fn view(&self) -> Prog {
        Prog { src: self.src@, toks: self.toks@ }
    }
}

/// Positions a few tokens past the end still fit in `usize`.
pub open spec fn code_wf(m: Prog) -> bool {
    m.toks.len() + 8 < usize::MAX
}

/// A failure.
pub struct FaultX {
    pub kind: ErrorKind,
    pub msg: Vec<char>,
    pub at: usize,
}

/// How a construct ended.
pub enum FlowX<T> {
    Next(usize, T),
    Ret(Val),
    Fail(FaultX),
}

pub open spec fn fault_v(x: FaultX) -> Fault {
    Fault { kind: x.kind, msg: x.msg@, at: x.at as int }
}

pub open spec fn flow_v(f: FlowX<Val>) -> Flow<ValM> {
    match f {
        FlowX::Next(q, v) => Flow::Next(q as int, v@),
        FlowX::Ret(v) => Flow::Ret(v@),
        FlowX::Fail(x) => Flow::Fail(fault_v(x)),
    }
}

pub open spec fn vals_v(s: Seq<Val>) -> Seq<ValM> {
    s.map_values(|x: Val| x@)
}

pub open spec fn flow_vs(f: FlowX<Vec<Val>>) -> Flow<Seq<ValM>> {
    match f {
        FlowX::Next(q, v) => Flow::Next(q as int, vals_v(v@)),
        FlowX::Ret(v) => Flow::Ret(v@),
        FlowX::Fail(x) => Flow::Fail(fault_v(x)),
    }
}

pub open spec fn flow_wf(f: FlowX<Val>) -> bool {
    match f {
        FlowX::Next(_, v) => val_wf(v@),
        FlowX::Ret(v) => val_wf(v@),
        FlowX::Fail(_) => true,
    }
}

pub open spec fn vals_wf(s: Seq<ValM>) -> bool {
    forall|i: int| 0 <= i < s.len() ==> val_wf(#[trigger] s[i])
}

pub open spec fn flow_vs_wf(f: FlowX<Vec<Val>>) -> bool {
    match f {
        FlowX::Next(_, v) => vals_wf(vals_v(v@)),
        FlowX::Ret(v) => val_wf(v@),
        FlowX::Fail(_) => true,
    }
}

pub open spec fn call_v(r: Result<Val, FaultX>) -> Result<ValM, Fault> {
    match r {
        Ok(v) => Ok(v@),
        Err(x) => Err(fault_v(x)),
    }
}

pub open spec fn call_wf(r: Result<Val, FaultX>) -> bool {
    r matches Ok(v) ==> val_wf(v@)
}

pub(crate) fn syntax_x(p: usize) -> (x: FaultX)
    ensures
        fault_v(x) == syntax_at(p as int),
{
    FaultX { kind: ErrorKind::Syntax, msg: str_chars("syntax error"), at: p }
}

pub(crate) fn runtime_x(msg: Vec<char>, p: usize) -> (x: FaultX)
    ensures
        fault_v(x) == runtime_at(msg@, p as int),
{
    FaultX { kind: ErrorKind::Runtime, msg, at: p }
}

pub(crate) fn undef_x() -> (v: Val)
    ensures
        v@ == undef_v(),
        val_wf(v@),
{
    Val::S(Scalar::Undef)
}

/// Perl truth of a value (see [`truthy_v`]).
pub(crate) fn truthy_v_exec(v: &Val) -> (b: bool)
    ensures
        b == truthy_v(v@),
{
    match v {
        Val::S(s) => truthy_exec(s),
        Val::Data(_, t) => *t,
        _ => true,
    }
}

pub(crate) fn is_undef(v: &Val) -> (b: bool)
    ensures
        b == (v@ == undef_v()),
{
    match v {
        Val::S(Scalar::Undef) => true,
        _ => false,
    }
}

/// See [`needs_rhs`].
pub(crate) fn needs_rhs_exec(op: OpTok, a: &Val) -> (b: bool)
    ensures
        b == needs_rhs(op, a@),
{
    match op {
        OpTok::Or => !truthy_v_exec(a),
        OpTok::DefinedOr => is_undef(a),
        OpTok::And => truthy_v_exec(a),
        OpTok::Bin(_) => true,
    }
}

/// See [`combine`].
pub(crate) fn combine_exec(op: OpTok, a: Val, b: Val) -> (r: Result<Val, Vec<char>>)
    requires
        val_wf(a@),
        val_wf(b@),
    ensures
        match (r, combine(op, a@, b@)) {
            (Ok(x), Ok(y)) => x@ == y && val_wf(x@),
            (Err(m), Err(n)) => m@ == n,
            _ => false,
        },
{
    match op {
        OpTok::Or => Ok(if truthy_v_exec(&a) { a } else { b }),
        OpTok::DefinedOr => Ok(if is_undef(&a) { b } else { a }),
        OpTok::And => Ok(if truthy_v_exec(&a) { b } else { a }),
        OpTok::Bin(o) => match (&a, &b) {
            (Val::S(x), Val::S(y)) => match apply_binop_exec(o, x, y) {
                Ok(r) => Ok(Val::S(r)),
                Err(msg) => Err(msg),
            },
            _ => Err(str_chars("Operand is not a scalar value")),
        },
    }
}

/// See [`not_v`].
pub(crate) fn not_v_exec(v: &Val) -> (r: Val)
    ensures
        r@ == not_v(v@),
        val_wf(r@),
{
    match v {
        Val::S(s) => Val::S(apply_not_exec(s)),
        Val::Data(_, t) => Val::S(bool_exec(!*t)),
        _ => {
            let e: Vec<char> = Vec::new();
            assert(e@ =~= seq![]);
            Val::S(Scalar::Str(e))
        },
    }
}

/// See [`neg_v`].
pub(crate) fn neg_v_exec(v: &Val) -> (r: Result<Val, Vec<char>>)
    requires
        val_wf(v@),
    ensures
        match (r, neg_v(v@)) {
            (Ok(x), Ok(y)) => x@ == y && val_wf(x@),
            (Err(m), Err(n)) => m@ == n,
            _ => false,
        },
{
    match v {
        Val::S(s) => match apply_neg_exec(s) {
            Ok(x) => Ok(Val::S(x)),
            Err(m) => Err(m),
        },
        _ => Err(str_chars("Operand is not a scalar value")),
    }
}

/// See [`index_of`].
pub(crate) fn index_of_exec(v: &Val) -> (r: Result<i64, Vec<char>>)
    requires
        val_wf(v@),
    ensures
        match (r, index_of(v@)) {
            (Ok(x), Ok(y)) => x as int == y,
            (Err(m), Err(n)) => m@ == n,
            _ => false,
        },
{
    match v {
        Val::S(s) => match numify_exec(s) {
            Some(x) => {
                assert(num_wf(x));
                Ok(num_trunc_exec(x))
            },
            None => Err(str_chars("Numeric string out of range")),
        },
        _ => Err(str_chars("Operand is not a scalar value")),
    }
}

/// See [`escape_char`].
pub(crate) fn escape_char_exec(c: char) -> (r: char)
    ensures
        r == escape_char(c),
{
    if c == 'n' { '\n' } else if c == 't' { '\t' } else if c == 'r' { '\r' } else if c == '0' { '\0' } else { c }
}

/// See [`name_end`].
fn name_end_exec(src: &Vec<char>, j: usize, end: usize) -> (k: usize)
    requires
        end <= src@.len(),
    ensures
        k as int == name_end(src@, j as int, end as int),
        j <= k,
        j <= end ==> k <= end,
{
    let mut k = j;
    while k < end && is_word_char_exec(src[k])
        invariant
            end <= src@.len(),
            j <= k,
            j <= end ==> k <= end,
            name_end(src@, j as int, end as int) == name_end(src@, k as int, end as int),
        decreases end - k,
    {
        k = k + 1;
    }
    k
}

fn is_word_char_exec(c: char) -> (b: bool)
    ensures
        b == is_word_char(c),
{
    ('a' <= c && c <= 'z') || ('A' <= c && c <= 'Z') || c == '_' || ('0' <= c && c <= '9')
}

proof fn lemma_push_concat(a: Seq<Part>, d: Part, t: Seq<Part>)
    ensures
        a + (seq![d] + t) == a.push(d) + t,
{
    assert(a + (seq![d] + t) =~= a.push(d) + t);
}

/// The pieces of a double-quoted string (see [`dq_parts`]).
pub(crate) fn dq_parts_exec(src: &Vec<char>, s: usize, end: usize) -> (r: Result<Vec<Part>, Vec<char>>)
    ensures
        match (r, dq_parts(src@, s as int, end as int)) {
            (Ok(x), Ok(y)) => x@ == y,
            (Err(m), Err(n)) => m@ == n,
            _ => false,
        },
{
    let mut out: Vec<Part> = Vec::new();
    if end > src.len() {
        assert(out@ =~= seq![]);
        return Ok(out);
    }
    let mut i: usize = s;
    while i < end
        invariant
            end <= src@.len(),
            s <= i,
            dq_parts(src@, s as int, end as int) == match dq_parts(src@, i as int, end as int) {
                Ok(t) => Ok(out@ + t),
                Err(m) => Err::<Seq<Part>, Seq<char>>(m),
            },
        decreases end - i,
    {
        let c = src[i];
        if c == '\\' && i + 1 < end {
            let d = Part::Lit(escape_char_exec(src[i + 1]));
            proof {
                match dq_parts(src@, i + 2, end as int) {
                    Ok(t) => lemma_push_concat(out@, d, t),
                    Err(_) => {},
                }
            }
            out.push(d);
            i = i + 2;
        } else if c == '$' && i + 1 < end && is_alpha_exec(src[i + 1]) {
            let k = name_end_exec(src, i + 1, end);
            if k > i && k <= end {
                let d = Part::Var(i + 1, k);
                proof {
                    match dq_parts(src@, k as int, end as int) {
                        Ok(t) => lemma_push_concat(out@, d, t),
                        Err(_) => {},
                    }
                }
                out.push(d);
                i = k;
            } else {
                assert(out@ + seq![] =~= out@);
                return Ok(out);
            }
        } else if c == '@' && i + 1 < end && is_alpha_exec(src[i + 1]) {
            return Err(str_chars("Array interpolation is not supported"));
        } else {
            let d = Part::Lit(c);
            let ghost old_out = out@;
            out.push(d);
            proof {
                assert(dq_parts(src@, i as int, end as int) == match dq_parts(src@, i + 1, end as int) {
                    Ok(t) => Ok(seq![d] + t),
                    Err(m) => Err::<Seq<Part>, Seq<char>>(m),
                });
                match dq_parts(src@, i + 1, end as int) {
                    Ok(t) => lemma_push_concat(old_out, d, t),
                    Err(_) => {},
                }
            }
            i = i + 1;
        }
    }
    assert(out@ + seq![] =~= out@);
    Ok(out)
}

fn is_alpha_exec(c: char) -> (b: bool)
    ensures
        b == is_alpha(c),
{
    ('a' <= c && c <= 'z') || ('A' <= c && c <= 'Z') || c == '_'
}

/// The text of a string's pieces with the variables' values (see [`interpolate`]).
pub(crate) fn interpolate_exec(src: &Vec<char>, env: &Env, parts: &Vec<Part>) -> (r: Result<Vec<char>, Vec<char>>)
    requires
        env_wf(env@),
    ensures
        match (r, interpolate(src@, env@, parts@)) {
            (Ok(x), Ok(y)) => x@ == y,
            (Err(m), Err(n)) => m@ == n,
            _ => false,
        },
{
    let mut out: Vec<char> = Vec::new();
    let mut i: usize = 0;
    assert(parts@.subrange(0, 0) =~= Seq::<Part>::empty());
    while i < parts.len()
        invariant
            env_wf(env@),
            i <= parts@.len(),
            interpolate(src@, env@, parts@.subrange(0, i as int)) == Ok::<Seq<char>, Seq<char>>(out@),
        decreases parts@.len() - i,
    {
        let ghost before = out@;
        assert(parts@.subrange(0, i + 1).drop_last() =~= parts@.subrange(0, i as int));
        match parts[i] {
            Part::Lit(c) => {
                out.push(c);
            },
            Part::Var(s, e) => {
                let v = env.read_var(src, s, e);
                match v {
                    Val::S(x) => {
                        push_stringify(&mut out, &x);
                    },
                    _ => {
                        proof {
                            lemma_interpolate_fails(src@, env@, parts@, i as int);
                        }
                        return Err(str_chars("Operand is not a scalar value"));
                    },
                }
            },
        }
        i = i + 1;
    }
    assert(parts@.subrange(0, parts@.len() as int) =~= parts@);
    Ok(out)
}

/// Once a prefix of the pieces fails, the whole does, with the same message.
proof fn lemma_interpolate_fails(src: Seq<char>, e: EnvM, parts: Seq<Part>, i: int)
    requires
        0 <= i < parts.len(),
        interpolate(src, e, parts.subrange(0, i + 1)) is Err,
    ensures
        interpolate(src, e, parts) == interpolate(src, e, parts.subrange(0, i + 1)),
    decreases parts.len() - i,
{
    if i + 1 < parts.len() {
        assert(parts.subrange(0, i + 2).drop_last() =~= parts.subrange(0, i + 1));
        lemma_interpolate_fails(src, e, parts, i + 1);
    } else {
        assert(parts.subrange(0, i + 1) =~= parts);
    }
}

/// The decoded text of a single-quoted string (see [`sq_text`]).
pub(crate) fn sq_text_exec(src: &Vec<char>, s: usize, end: usize) -> (r: Vec<char>)
    ensures
        r@ == sq_text(src@, s as int, end as int),
{
    if end > src.len() {
        let v: Vec<char> = Vec::new();
        assert(v@ =~= seq![]);
        return v;
    }
    let mut out: Vec<char> = Vec::new();
    let mut i: usize = s;
    while i < end
        invariant
            end <= src@.len(),
            s <= i,
            sq_text(src@, s as int, end as int) == out@ + sq_text(src@, i as int, end as int),
        decreases end - i,
    {
        let c = src[i];
        if c == '\\' && i + 1 < end && (src[i + 1] == '\\' || src[i + 1] == '\'') {
            let d = src[i + 1];
            assert(out@ + (seq![d] + sq_text(src@, i + 2, end as int)) =~= out@.push(d) + sq_text(src@, i + 2, end as int));
            out.push(d);
            i = i + 2;
        } else {
            assert(out@ + (seq![c] + sq_text(src@, i + 1, end as int)) =~= out@.push(c) + sq_text(src@, i + 1, end as int));
            out.push(c);
            i = i + 1;
        }
    }
    assert(out@ + seq![] =~= out@);
    out
}


/// See [`die_text`].
pub(crate) fn die_text_exec(v: &Val) -> (r: Vec<char>)
    requires
        val_wf(v@),
    ensures
        r@ == die_text(v@),
{
    match v {
        Val::S(x) => {
            let t = stringify_exec(x);
            if t.len() == 0 { str_chars("Died") } else { t }
        },
        _ => str_chars("Died"),
    }
}

impl Code {
    /// The kind of the token at `p` (see [`kind_at`]).
    pub(crate) fn kind_at(&self, p: usize) -> (r: Option<TokKind>)
        ensures
            r == kind_at(self@, p as int),
    {
        if p < self.toks.len() {
            Some(self.toks[p].kind)
        } else {
            None
        }
    }

    /// See [`is_punct`].
    pub(crate) fn is_punct(&self, p: usize, c: Punct) -> (r: bool)
        ensures
            r == is_punct(self@, p as int, c),
    {
        match self.kind_at(p) {
            Some(TokKind::P(d)) => d == c,
            _ => false,
        }
    }

    /// See [`is_word`].
    pub(crate) fn is_word(&self, p: usize) -> (r: bool)
        ensures
            r == is_word(self@, p as int),
    {
        match self.kind_at(p) {
            Some(TokKind::Word(_, _)) => true,
            _ => false,
        }
    }

    /// See [`is_kw`].
    pub(crate) fn is_kw(&self, p: usize, w: &str) -> (r: bool)
        ensures
            r == is_kw(self@, p as int, w@),
    {
        match self.kind_at(p) {
            Some(TokKind::Word(s, e)) => {
                if !(s <= e && e <= self.src.len()) {
                    return false;
                }
                let wc = str_chars(w);
                if e - s != wc.len() {
                    assert(self.src@.subrange(s as int, e as int).len() != w@.len());
                    return false;
                }
                let mut i: usize = 0;
                while i < wc.len()
                    invariant
                        kind_at(self@, p as int) == Some(TokKind::Word(s, e)),
                        s <= e <= self.src@.len(),
                        e - s == wc@.len(),
                        wc@ == w@,
                        i <= wc@.len(),
                        forall|j: int| 0 <= j < i ==> #[trigger] self.src@.subrange(s as int, e as int)[j] == wc@[j],
                    decreases wc@.len() - i,
                {
                    assert(self.src@.subrange(s as int, e as int)[i as int] == self.src@[s + i]);
                    if self.src[s + i] != wc[i] {
                        assert(self.src@.subrange(s as int, e as int)[i as int] != w@[i as int]);
                        return false;
                    }
                    i = i + 1;
                }
                assert(self.src@.subrange(s as int, e as int) =~= w@);
                true
            },
            _ => false,
        }
    }

    /// See [`level_op`].
    pub(crate) fn level_op(&self, lvl: u8, p: usize) -> (r: Option<OpTok>)
        ensures
            r == level_op(self@, lvl as int, p as int),
    {
        match self.kind_at(p) {
            Some(TokKind::P(c)) => {
                if lvl == 0 && c == Punct::OrOr { Some(OpTok::Or) }
                else if lvl == 0 && c == Punct::DefinedOr { Some(OpTok::DefinedOr) }
                else if lvl == 1 && c == Punct::AndAnd { Some(OpTok::And) }
                else if lvl == 2 && c == Punct::Pipe { Some(OpTok::Bin(BinOp::BitOr)) }
                else if lvl == 2 && c == Punct::Caret { Some(OpTok::Bin(BinOp::BitXor)) }
                else if lvl == 3 && c == Punct::Amp { Some(OpTok::Bin(BinOp::BitAnd)) }
                else if lvl == 4 && c == Punct::EqEq { Some(OpTok::Bin(BinOp::NumEq)) }
                else if lvl == 4 && c == Punct::Ne { Some(OpTok::Bin(BinOp::NumNe)) }
                else if lvl == 4 && c == Punct::Spaceship { Some(OpTok::Bin(BinOp::NumOrder)) }
                else if lvl == 5 && c == Punct::Lt { Some(OpTok::Bin(BinOp::NumLt)) }
                else if lvl == 5 && c == Punct::Gt { Some(OpTok::Bin(BinOp::NumGt)) }
                else if lvl == 5 && c == Punct::Le { Some(OpTok::Bin(BinOp::NumLe)) }
                else if lvl == 5 && c == Punct::Ge { Some(OpTok::Bin(BinOp::NumGe)) }
                else if lvl == 6 && c == Punct::Plus { Some(OpTok::Bin(BinOp::Add)) }
                else if lvl == 6 && c == Punct::Minus { Some(OpTok::Bin(BinOp::Sub)) }
                else if lvl == 6 && c == Punct::Dot { Some(OpTok::Bin(BinOp::Concat)) }
                else if lvl == 7 && c == Punct::Star { Some(OpTok::Bin(BinOp::Mul)) }
                else if lvl == 7 && c == Punct::Slash { Some(OpTok::Bin(BinOp::Div)) }
                else if lvl == 7 && c == Punct::Percent { Some(OpTok::Bin(BinOp::Mod)) }
                else { None }
            },
            Some(TokKind::Word(_, _)) => {
                if lvl == 4 && self.is_kw(p, "eq") { Some(OpTok::Bin(BinOp::StrEq)) }
                else if lvl == 4 && self.is_kw(p, "ne") { Some(OpTok::Bin(BinOp::StrNe)) }
                else if lvl == 4 && self.is_kw(p, "cmp") { Some(OpTok::Bin(BinOp::StrOrder)) }
                else if lvl == 5 && self.is_kw(p, "lt") { Some(OpTok::Bin(BinOp::StrLt)) }
                else if lvl == 5 && self.is_kw(p, "gt") { Some(OpTok::Bin(BinOp::StrGt)) }
                else if lvl == 5 && self.is_kw(p, "le") { Some(OpTok::Bin(BinOp::StrLe)) }
                else if lvl == 5 && self.is_kw(p, "ge") { Some(OpTok::Bin(BinOp::StrGe)) }
                else if lvl == 7 && self.is_kw(p, "x") { Some(OpTok::Bin(BinOp::Repeat)) }
                else { None }
            },
            _ => None,
        }
    }

    /// See [`stmt_end`].
    pub(crate) fn stmt_end(&self, q: usize) -> (r: Option<usize>)
        requires
            code_wf(self@),
        ensures
            match r {
                Some(x) => stmt_end(self@, q as int) == Some(x as int),
                None => stmt_end(self@, q as int) is None,
            },
    {
        if self.is_punct(q, Punct::Semi) {
            Some(q + 1)
        } else if q == self.toks.len() || self.is_punct(q, Punct::RBrace) {
            Some(q)
        } else {
            None
        }
    }

    /// See [`skip_to_semi`].
    pub(crate) fn skip_to_semi(&self, p: usize) -> (r: Option<usize>)
        requires
            code_wf(self@),
        ensures
            match r {
                Some(x) => skip_to_semi(self@, p as int) == Some(x as int),
                None => skip_to_semi(self@, p as int) is None,
            },
    {
        let mut i = p;
        while i < self.toks.len()
            invariant
                code_wf(self@),
                skip_to_semi(self@, p as int) == skip_to_semi(self@, i as int),
            decreases self.toks@.len() - i,
        {
            if self.is_punct(i, Punct::Semi) {
                return Some(i + 1);
            }
            if self.is_punct(i, Punct::LBrace) || self.is_punct(i, Punct::RBrace) {
                return None;
            }
            i = i + 1;
        }
        None
    }

    /// See [`is_sub_def`].
    pub(crate) fn is_sub_def(&self, p: usize) -> (r: bool)
        requires
            code_wf(self@),
            p < self.toks@.len(),
        ensures
            r == is_sub_def(self@, p as int),
    {
        self.is_kw(p, "sub") && self.is_word(p + 1) && self.is_punct(p + 2, Punct::LBrace)
    }

    /// See [`is_pragma`].
    pub(crate) fn is_pragma(&self, p: usize) -> (r: bool)
        requires
            code_wf(self@),
            p < self.toks@.len(),
        ensures
            r == is_pragma(self@, p as int),
    {
        (self.is_kw(p, "use") || self.is_kw(p, "no")) && self.is_word(p + 1)
    }

    /// See [`assign_target`].
    pub(crate) fn assign_target(&self, p: usize) -> (r: Option<(Target, usize)>)
        requires
            code_wf(self@),
        ensures
            match r {
                Some((t, rhs)) => assign_target(self@, p as int) == Some((t, rhs as int)),
                None => assign_target(self@, p as int) is None,
            },
    {
        if p >= self.toks.len() {
            return None;
        }
        match (self.kind_at(p), self.kind_at(p + 1)) {
            (Some(TokKind::Var(s, e)), _) => if self.is_punct(p + 1, Punct::Assign) {
                Some((Target::Var(s, e), p + 2))
            } else {
                None
            },
            (Some(TokKind::Word(_, _)), Some(TokKind::Var(s, e))) => if self.is_punct(p + 2, Punct::Assign) {
                if self.is_kw(p, "my") {
                    Some((Target::My(s, e), p + 3))
                } else if self.is_kw(p, "our") {
                    Some((Target::Our(s, e), p + 3))
                } else if self.is_kw(p, "local") {
                    Some((Target::Local(s, e), p + 3))
                } else {
                    None
                }
            } else {
                None
            },
            (Some(TokKind::P(Punct::Star)), Some(TokKind::Word(s, e))) => if self.is_punct(p + 2, Punct::Assign) {
                Some((Target::Glob(s, e), p + 3))
            } else {
                None
            },
            _ => None,
        }
    }

    /// Assigns to a target (see [`do_assign`]); the state is unchanged on failure.
    pub(crate) fn do_assign(&self, env: &mut Env, t: Target, v: Val, p: usize) -> (r: Result<(), FaultX>)
        requires
            env_wf(old(env)@),
            val_wf(v@),
        ensures
            match (r, do_assign(self@, old(env)@, t, v@, p as int)) {
                (Ok(()), Ok(e2)) => final(env)@ == e2,
                (Err(x), Err(y)) => fault_v(x) == y && final(env)@ == old(env)@,
                _ => false,
            },
            env_wf(final(env)@),
    {
        match t {
            Target::Var(s, end) => {
                env.assign_var(&self.src, s, end, v);
                Ok(())
            },
            Target::My(s, end) => {
                env.declare_my(s, end, v);
                Ok(())
            },
            Target::Our(s, end) => {
                env.declare_our(&self.src, s, end, Some(v));
                Ok(())
            },
            Target::Local(s, end) => {
                env.localize(&self.src, s, end, v);
                Ok(())
            },
            Target::Glob(s, end) => match v {
                Val::Code(k) => {
                    env.define_sub(s, end, k);
                    Ok(())
                },
                Val::Glob(gs, ge) => {
                    match env.find_sub(&self.src, gs, ge) {
                        Some(k) => env.define_sub(s, end, k),
                        None => {},
                    }
                    Ok(())
                },
                _ => Err(runtime_x(str_chars("Only code can be assigned to a glob"), p)),
            },
        }
    }
}

} // verus!
