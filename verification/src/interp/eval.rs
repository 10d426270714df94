//! The evaluator's recursive functions, each proved equal to its counterpart in
//! [`crate::interp::semantics`].
use vstd::prelude::*;
use crate::interp::lexer::{TokKind, Punct};
use crate::interp::env::{Val, Bind, Env, EnvM, env_wf, val_wf, enter_call, leave_call};
use crate::interp::semantics::{
    ev_stmts, ev_stmt, ev_block, ev_expr, ev_expr_rest, ev_args, ev_assign, ev_ternary, ev_bin,
    ev_bin_rest, ev_unary, ev_power, ev_postfix, ev_postfix_rest, call_value, call_closure,
    ev_primary, ev_var, ev_word, ev_program, span_text, msg_undefined_sub, OpTok,
};
use crate::interp::machine::{
    Code, FlowX, FaultX, code_wf, flow_v, flow_vs, flow_wf, flow_vs_wf, vals_v, vals_wf, call_v,
    call_wf, syntax_x, runtime_x, undef_x, truthy_v_exec, needs_rhs_exec, combine_exec, not_v_exec,
    neg_v_exec, index_of_exec, dq_parts_exec, interpolate_exec, sq_text_exec, die_text_exec,
};
use crate::interp::ops::BinOp;
use crate::interp::scalar::Scalar;
use crate::interp::num::Num;
use crate::text::str_chars;
use crate::value::ErrorKind;

verus! {

/// The message for a call of the undefined subroutine named by a span.
fn undefined_sub_msg(src: &Vec<char>, s: usize, e: usize) -> (r: Vec<char>)
    ensures
        r@ == msg_undefined_sub(span_text(src@, s as int, e as int)),
{
    let mut r = str_chars("Undefined subroutine &main::");
    let ghost head = r@;
    if s <= e && e <= src.len() {
        let mut i = s;
        while i < e
            invariant
                s <= i <= e <= src@.len(),
                r@ == head + src@.subrange(s as int, i as int),
            decreases e - i,
        {
            r.push(src[i]);
            i = i + 1;
            assert(r@ =~= head + src@.subrange(s as int, i as int));
        }
    } else {
        assert(r@ =~= head + span_text(src@, s as int, e as int));
    }
    let tail = str_chars(" called");
    let ghost mid = r@;
    let mut j: usize = 0;
    while j < tail.len()
        invariant
            j <= tail@.len(),
            r@ == mid + tail@.subrange(0, j as int),
        decreases tail@.len() - j,
    {
        r.push(tail[j]);
        j = j + 1;
        assert(r@ =~= mid + tail@.subrange(0, j as int));
    }
    assert(tail@.subrange(0, tail@.len() as int) =~= tail@);
    assert(r@ =~= msg_undefined_sub(span_text(src@, s as int, e as int)));
    r
}

impl Code {
    /// See [`ev_stmts`].
    pub fn ev_stmts(&self, env: &mut Env, fuel: u32, live: bool, p: usize, last: Val) -> (r: FlowX<Val>)
        requires
            code_wf(self@),
            env_wf(old(env)@),
            val_wf(last@),
        ensures
            (final(env)@, flow_v(r)) == ev_stmts(self@, fuel as nat, live, p as int, old(env)@, last@),
            env_wf(final(env)@),
            flow_wf(r),
        decreases fuel, self.toks@.len() - p, 20int,
    {
        if !(p <= self.toks.len()) {
            return FlowX::Fail(syntax_x(p));
        }
        if p == self.toks.len() || self.is_punct(p, Punct::RBrace) {
            return FlowX::Next(p, last);
        }
        if self.is_punct(p, Punct::Semi) {
            return self.ev_stmts(env, fuel, live, p + 1, last);
        }
        let keep = self.is_sub_def(p) || self.is_pragma(p);
        let f = self.ev_stmt(env, fuel, live, p);
        match f {
            FlowX::Next(q, v) => if p < q && q <= self.toks.len() {
                self.ev_stmts(env, fuel, live, q, if keep { last } else { v })
            } else {
                FlowX::Fail(syntax_x(p))
            },
            FlowX::Ret(v) => FlowX::Ret(v),
            FlowX::Fail(x) => FlowX::Fail(x),
        }
    }

    /// See [`ev_stmt`].
    #[verifier::rlimit(100)]
    #[verifier::spinoff_prover]
    pub fn ev_stmt(&self, env: &mut Env, fuel: u32, live: bool, p: usize) -> (r: FlowX<Val>)
        requires
            code_wf(self@),
            env_wf(old(env)@),
        ensures
            (final(env)@, flow_v(r)) == ev_stmt(self@, fuel as nat, live, p as int, old(env)@),
            env_wf(final(env)@),
            flow_wf(r),
        decreases fuel, self.toks@.len() - p, 19int,
    {
        if p >= self.toks.len() {
            return FlowX::Fail(syntax_x(p));
        }
        if self.is_sub_def(p) {
            let f = self.ev_block(env, fuel, false, p + 2);
            match f {
                FlowX::Next(q, _) => if live {
                    let k = env.make_closure(p + 2);
                    match self.kind_at(p + 1) {
                        Some(TokKind::Word(s, end)) => {
                            env.define_sub(s, end, k);
                            FlowX::Next(q, undef_x())
                        },
                        _ => FlowX::Next(q, undef_x()),
                    }
                } else {
                    FlowX::Next(q, undef_x())
                },
                FlowX::Ret(v) => FlowX::Ret(v),
                FlowX::Fail(x) => FlowX::Fail(x),
            }
        } else if self.is_pragma(p) {
            match self.skip_to_semi(p + 1) {
                Some(q) => FlowX::Next(q, undef_x()),
                None => FlowX::Fail(syntax_x(p)),
            }
        } else if self.is_kw(p, "return") {
            match self.stmt_end(p + 1) {
                Some(q) => if live { FlowX::Ret(undef_x()) } else { FlowX::Next(q, undef_x()) },
                None => {
                    let f = self.ev_expr(env, fuel, live, p + 1);
                    match f {
                        FlowX::Next(q, v) => match self.stmt_end(q) {
                            Some(q2) => if live { FlowX::Ret(v) } else { FlowX::Next(q2, v) },
                            None => FlowX::Fail(syntax_x(q)),
                        },
                        FlowX::Ret(v) => FlowX::Ret(v),
                        FlowX::Fail(x) => FlowX::Fail(x),
                    }
                },
            }
        } else {
            let f = self.ev_expr(env, fuel, live, p);
            match f {
                FlowX::Next(q, v) => match self.stmt_end(q) {
                    Some(q2) => FlowX::Next(q2, v),
                    None => FlowX::Fail(syntax_x(q)),
                },
                FlowX::Ret(v) => FlowX::Ret(v),
                FlowX::Fail(x) => FlowX::Fail(x),
            }
        }
    }

    /// See [`ev_block`].
    pub fn ev_block(&self, env: &mut Env, fuel: u32, live: bool, p: usize) -> (r: FlowX<Val>)
        requires
            code_wf(self@),
            env_wf(old(env)@),
        ensures
            (final(env)@, flow_v(r)) == ev_block(self@, fuel as nat, live, p as int, old(env)@),
            env_wf(final(env)@),
            flow_wf(r),
        decreases fuel, self.toks@.len() - p, 21int,
    {
        if !(p < self.toks.len()) || !self.is_punct(p, Punct::LBrace) {
            return FlowX::Fail(syntax_x(p));
        }
        let nl = env.lexicals.len();
        let ns = env.saved.len();
        let f = self.ev_stmts(env, fuel, live, p + 1, undef_x());
        match f {
            FlowX::Next(q, v) => if self.is_punct(q, Punct::RBrace) {
                if live {
                    env.close_scope(nl, ns);
                }
                FlowX::Next(q + 1, v)
            } else {
                FlowX::Fail(syntax_x(q))
            },
            FlowX::Ret(v) => {
                if live {
                    env.close_scope(nl, ns);
                }
                FlowX::Ret(v)
            },
            FlowX::Fail(x) => FlowX::Fail(x),
        }
    }

    /// See [`ev_expr`].
    pub fn ev_expr(&self, env: &mut Env, fuel: u32, live: bool, p: usize) -> (r: FlowX<Val>)
        requires
            code_wf(self@),
            env_wf(old(env)@),
        ensures
            (final(env)@, flow_v(r)) == ev_expr(self@, fuel as nat, live, p as int, old(env)@),
            env_wf(final(env)@),
            flow_wf(r),
        decreases fuel, self.toks@.len() - p, 18int,
    {
        let f = self.ev_assign(env, fuel, live, p);
        match f {
            FlowX::Next(q, v) => if p < q && q <= self.toks.len() {
                self.ev_expr_rest(env, fuel, live, q, v)
            } else {
                FlowX::Fail(syntax_x(p))
            },
            FlowX::Ret(v) => FlowX::Ret(v),
            FlowX::Fail(x) => FlowX::Fail(x),
        }
    }

    /// See [`ev_expr_rest`].
    pub fn ev_expr_rest(&self, env: &mut Env, fuel: u32, live: bool, q: usize, v: Val) -> (r: FlowX<Val>)
        requires
            code_wf(self@),
            env_wf(old(env)@),
            val_wf(v@),
        ensures
            (final(env)@, flow_v(r)) == ev_expr_rest(self@, fuel as nat, live, q as int, old(env)@, v@),
            env_wf(final(env)@),
            flow_wf(r),
        decreases fuel, self.toks@.len() - q, 18int,
    {
        if !self.is_punct(q, Punct::Comma) {
            return FlowX::Next(q, v);
        }
        if self.is_punct(q + 1, Punct::RParen) {
            return FlowX::Next(q + 1, v);
        }
        let f = self.ev_assign(env, fuel, live, q + 1);
        match f {
            FlowX::Next(q2, v2) => if q + 1 < q2 && q2 <= self.toks.len() {
                self.ev_expr_rest(env, fuel, live, q2, v2)
            } else {
                FlowX::Fail(syntax_x(q))
            },
            FlowX::Ret(r) => FlowX::Ret(r),
            FlowX::Fail(x) => FlowX::Fail(x),
        }
    }

    /// See [`ev_args`].
    pub fn ev_args(&self, env: &mut Env, fuel: u32, live: bool, p: usize, acc: Vec<Val>) -> (r: FlowX<Vec<Val>>)
        requires
            code_wf(self@),
            env_wf(old(env)@),
            vals_wf(vals_v(acc@)),
        ensures
            (final(env)@, flow_vs(r)) == ev_args(self@, fuel as nat, live, p as int, old(env)@, vals_v(acc@)),
            env_wf(final(env)@),
            flow_vs_wf(r),
        decreases fuel, self.toks@.len() - p, 18int,
    {
        if self.is_punct(p, Punct::RParen) {
            return FlowX::Next(p, acc);
        }
        let f = self.ev_assign(env, fuel, live, p);
        match f {
            FlowX::Next(q, v) => if p < q && q <= self.toks.len() {
                let ghost a0 = vals_v(acc@);
                let ghost vv = v@;
                let mut acc2 = acc;
                acc2.push(v);
                assert(vals_v(acc2@) =~= a0.push(vv));
                if self.is_punct(q, Punct::Comma) {
                    self.ev_args(env, fuel, live, q + 1, acc2)
                } else {
                    FlowX::Next(q, acc2)
                }
            } else {
                FlowX::Fail(syntax_x(p))
            },
            FlowX::Ret(r) => FlowX::Ret(r),
            FlowX::Fail(x) => FlowX::Fail(x),
        }
    }

    /// See [`ev_assign`].
    pub fn ev_assign(&self, env: &mut Env, fuel: u32, live: bool, p: usize) -> (r: FlowX<Val>)
        requires
            code_wf(self@),
            env_wf(old(env)@),
        ensures
            (final(env)@, flow_v(r)) == ev_assign(self@, fuel as nat, live, p as int, old(env)@),
            env_wf(final(env)@),
            flow_wf(r),
        decreases fuel, self.toks@.len() - p, 17int,
    {
        match self.assign_target(p) {
            Some((t, rhs)) => {
                let f = self.ev_assign(env, fuel, live, rhs);
                match f {
                    FlowX::Next(q, v) => if live {
                        let vv = v.copy();
                        match self.do_assign(env, t, v, p) {
                            Ok(()) => FlowX::Next(q, vv),
                            Err(x) => FlowX::Fail(x),
                        }
                    } else {
                        FlowX::Next(q, v)
                    },
                    FlowX::Ret(r) => FlowX::Ret(r),
                    FlowX::Fail(x) => FlowX::Fail(x),
                }
            },
            None => self.ev_ternary(env, fuel, live, p),
        }
    }

    /// See [`ev_ternary`].
    pub fn ev_ternary(&self, env: &mut Env, fuel: u32, live: bool, p: usize) -> (r: FlowX<Val>)
        requires
            code_wf(self@),
            env_wf(old(env)@),
        ensures
            (final(env)@, flow_v(r)) == ev_ternary(self@, fuel as nat, live, p as int, old(env)@),
            env_wf(final(env)@),
            flow_wf(r),
        decreases fuel, self.toks@.len() - p, 16int,
    {
        let f = self.ev_bin(env, fuel, live, 0, p);
        match f {
            FlowX::Next(q, c) => if !(p < q && q <= self.toks.len()) {
                FlowX::Fail(syntax_x(p))
            } else if self.is_punct(q, Punct::Question) {
                let cond = truthy_v_exec(&c);
                let f2 = self.ev_assign(env, fuel, live && cond, q + 1);
                match f2 {
                    FlowX::Next(q2, v1) => if q + 1 < q2 && q2 < self.toks.len() && self.is_punct(q2, Punct::Colon) {
                        let f3 = self.ev_ternary(env, fuel, live && !cond, q2 + 1);
                        match f3 {
                            FlowX::Next(q3, v2) => FlowX::Next(q3, if cond { v1 } else { v2 }),
                            FlowX::Ret(r) => FlowX::Ret(r),
                            FlowX::Fail(x) => FlowX::Fail(x),
                        }
                    } else {
                        FlowX::Fail(syntax_x(q2))
                    },
                    FlowX::Ret(r) => FlowX::Ret(r),
                    FlowX::Fail(x) => FlowX::Fail(x),
                }
            } else {
                FlowX::Next(q, c)
            },
            FlowX::Ret(r) => FlowX::Ret(r),
            FlowX::Fail(x) => FlowX::Fail(x),
        }
    }

    /// See [`ev_bin`].
    pub fn ev_bin(&self, env: &mut Env, fuel: u32, live: bool, lvl: u8, p: usize) -> (r: FlowX<Val>)
        requires
            code_wf(self@),
            env_wf(old(env)@),
        ensures
            (final(env)@, flow_v(r)) == ev_bin(self@, fuel as nat, live, lvl as int, p as int, old(env)@),
            env_wf(final(env)@),
            flow_wf(r),
        decreases fuel, self.toks@.len() - p, 14 - lvl,
    {
        if lvl > 7 {
            return FlowX::Fail(syntax_x(p));
        }
        let f = if lvl == 7 { self.ev_unary(env, fuel, live, p) } else { self.ev_bin(env, fuel, live, lvl + 1, p) };
        match f {
            FlowX::Next(q, a) => if p < q && q <= self.toks.len() {
                self.ev_bin_rest(env, fuel, live, lvl, q, a)
            } else {
                FlowX::Fail(syntax_x(p))
            },
            FlowX::Ret(r) => FlowX::Ret(r),
            FlowX::Fail(x) => FlowX::Fail(x),
        }
    }

    /// See [`ev_bin_rest`].
    pub fn ev_bin_rest(&self, env: &mut Env, fuel: u32, live: bool, lvl: u8, q: usize, a: Val) -> (r: FlowX<Val>)
        requires
            code_wf(self@),
            env_wf(old(env)@),
            val_wf(a@),
        ensures
            (final(env)@, flow_v(r)) == ev_bin_rest(self@, fuel as nat, live, lvl as int, q as int, old(env)@, a@),
            env_wf(final(env)@),
            flow_wf(r),
        decreases fuel, self.toks@.len() - q, 14 - lvl,
    {
        if lvl > 7 {
            return FlowX::Fail(syntax_x(q));
        }
        match self.level_op(lvl, q) {
            None => FlowX::Next(q, a),
            Some(op) => {
                let l2 = live && needs_rhs_exec(op, &a);
                let f = if lvl == 7 {
                    self.ev_unary(env, fuel, l2, q + 1)
                } else {
                    self.ev_bin(env, fuel, l2, lvl + 1, q + 1)
                };
                match f {
                    FlowX::Next(q2, b) => if q + 1 < q2 && q2 <= self.toks.len() {
                        if live {
                            match combine_exec(op, a, b) {
                                Ok(v) => self.ev_bin_rest(env, fuel, live, lvl, q2, v),
                                Err(msg) => FlowX::Fail(runtime_x(msg, q)),
                            }
                        } else {
                            self.ev_bin_rest(env, fuel, live, lvl, q2, a)
                        }
                    } else {
                        FlowX::Fail(syntax_x(q))
                    },
                    FlowX::Ret(r) => FlowX::Ret(r),
                    FlowX::Fail(x) => FlowX::Fail(x),
                }
            },
        }
    }

    /// See [`ev_unary`].
    pub fn ev_unary(&self, env: &mut Env, fuel: u32, live: bool, p: usize) -> (r: FlowX<Val>)
        requires
            code_wf(self@),
            env_wf(old(env)@),
        ensures
            (final(env)@, flow_v(r)) == ev_unary(self@, fuel as nat, live, p as int, old(env)@),
            env_wf(final(env)@),
            flow_wf(r),
        decreases fuel, self.toks@.len() - p, 5int,
    {
        if p >= self.toks.len() {
            return FlowX::Fail(syntax_x(p));
        }
        let bang = self.is_punct(p, Punct::Bang);
        if bang || self.is_punct(p, Punct::Minus) {
            let f = self.ev_unary(env, fuel, live, p + 1);
            match f {
                FlowX::Next(q, a) => if !live {
                    FlowX::Next(q, a)
                } else if bang {
                    FlowX::Next(q, not_v_exec(&a))
                } else {
                    match neg_v_exec(&a) {
                        Ok(v) => FlowX::Next(q, v),
                        Err(msg) => FlowX::Fail(runtime_x(msg, p)),
                    }
                },
                FlowX::Ret(r) => FlowX::Ret(r),
                FlowX::Fail(x) => FlowX::Fail(x),
            }
        } else {
            self.ev_power(env, fuel, live, p)
        }
    }

    /// See [`ev_power`].
    pub fn ev_power(&self, env: &mut Env, fuel: u32, live: bool, p: usize) -> (r: FlowX<Val>)
        requires
            code_wf(self@),
            env_wf(old(env)@),
        ensures
            (final(env)@, flow_v(r)) == ev_power(self@, fuel as nat, live, p as int, old(env)@),
            env_wf(final(env)@),
            flow_wf(r),
        decreases fuel, self.toks@.len() - p, 4int,
    {
        let f = self.ev_postfix(env, fuel, live, p);
        match f {
            FlowX::Next(q, a) => if !(p < q && q <= self.toks.len()) {
                FlowX::Fail(syntax_x(p))
            } else if self.is_punct(q, Punct::StarStar) {
                let f2 = self.ev_unary(env, fuel, live, q + 1);
                match f2 {
                    FlowX::Next(q2, b) => if live {
                        match combine_exec(OpTok::Bin(BinOp::Pow), a, b) {
                            Ok(v) => FlowX::Next(q2, v),
                            Err(msg) => FlowX::Fail(runtime_x(msg, q)),
                        }
                    } else {
                        FlowX::Next(q2, a)
                    },
                    FlowX::Ret(r) => FlowX::Ret(r),
                    FlowX::Fail(x) => FlowX::Fail(x),
                }
            } else {
                FlowX::Next(q, a)
            },
            FlowX::Ret(r) => FlowX::Ret(r),
            FlowX::Fail(x) => FlowX::Fail(x),
        }
    }

    /// See [`ev_postfix`].
    pub fn ev_postfix(&self, env: &mut Env, fuel: u32, live: bool, p: usize) -> (r: FlowX<Val>)
        requires
            code_wf(self@),
            env_wf(old(env)@),
        ensures
            (final(env)@, flow_v(r)) == ev_postfix(self@, fuel as nat, live, p as int, old(env)@),
            env_wf(final(env)@),
            flow_wf(r),
        decreases fuel, self.toks@.len() - p, 3int,
    {
        let f = self.ev_primary(env, fuel, live, p);
        match f {
            FlowX::Next(q, a) => if p < q && q <= self.toks.len() {
                self.ev_postfix_rest(env, fuel, live, q, a)
            } else {
                FlowX::Fail(syntax_x(p))
            },
            FlowX::Ret(r) => FlowX::Ret(r),
            FlowX::Fail(x) => FlowX::Fail(x),
        }
    }

    /// See [`ev_postfix_rest`].
    #[verifier::rlimit(100)]
    #[verifier::spinoff_prover]
    pub fn ev_postfix_rest(&self, env: &mut Env, fuel: u32, live: bool, q: usize, a: Val) -> (r: FlowX<Val>)
        requires
            code_wf(self@),
            env_wf(old(env)@),
            val_wf(a@),
        ensures
            (final(env)@, flow_v(r)) == ev_postfix_rest(self@, fuel as nat, live, q as int, old(env)@, a@),
            env_wf(final(env)@),
            flow_wf(r),
        decreases fuel, self.toks@.len() - q, 3int,
    {
        if self.is_punct(q, Punct::Arrow) && self.is_punct(q + 1, Punct::LParen) {
            let acc: Vec<Val> = Vec::new();
            assert(vals_v(acc@) =~= seq![]);
            let f = self.ev_args(env, fuel, live, q + 2, acc);
            match f {
                FlowX::Next(q2, vals) => if q + 2 <= q2 && q2 < self.toks.len() && self.is_punct(q2, Punct::RParen) {
                    if live {
                        match self.call_value(env, fuel, a, vals, q) {
                            Ok(v) => self.ev_postfix_rest(env, fuel, live, q2 + 1, v),
                            Err(x) => FlowX::Fail(x),
                        }
                    } else {
                        self.ev_postfix_rest(env, fuel, live, q2 + 1, a)
                    }
                } else {
                    FlowX::Fail(syntax_x(q2))
                },
                FlowX::Ret(r) => FlowX::Ret(r),
                FlowX::Fail(x) => FlowX::Fail(x),
            }
        } else {
            FlowX::Next(q, a)
        }
    }

    /// See [`call_value`].
    pub fn call_value(&self, env: &mut Env, fuel: u32, f: Val, args: Vec<Val>, at: usize) -> (r: Result<Val, FaultX>)
        requires
            code_wf(self@),
            env_wf(old(env)@),
            vals_wf(vals_v(args@)),
        ensures
            (final(env)@, call_v(r)) == call_value(self@, fuel as nat, f@, vals_v(args@), old(env)@, at as int),
            env_wf(final(env)@),
            call_wf(r),
        decreases fuel, 0int, 1int,
    {
        match f {
            Val::Code(k) => self.call_closure(env, fuel, k, args, at),
            _ => Err(runtime_x(str_chars("Not a CODE reference"), at)),
        }
    }

    /// See [`call_closure`].
    #[verifier::rlimit(100)]
    #[verifier::spinoff_prover]
    pub fn call_closure(&self, env: &mut Env, fuel: u32, k: usize, args: Vec<Val>, at: usize) -> (r: Result<Val, FaultX>)
        requires
            code_wf(self@),
            env_wf(old(env)@),
            vals_wf(vals_v(args@)),
        ensures
            (final(env)@, call_v(r)) == call_closure(self@, fuel as nat, k as int, vals_v(args@), old(env)@, at as int),
            env_wf(final(env)@),
            call_wf(r),
        decreases fuel, 0int, 0int,
    {
        if fuel == 0 {
            return Err(runtime_x(str_chars("Deep recursion limit exceeded"), at));
        }
        if k >= env.closures.len() {
            return Err(runtime_x(str_chars("Not a CODE reference"), at));
        }
        let c = env.closures[k];
        if c.cap_len > env.captures.len() || c.cap_start > env.captures.len() - c.cap_len {
            return Err(runtime_x(str_chars("Not a CODE reference"), at));
        }
        let ghost e0 = env@;
        let ghost av = vals_v(args@);
        let stop = c.cap_start + c.cap_len;
        let mut inner: Vec<Bind> = Vec::new();
        let mut i: usize = c.cap_start;
        while i < stop
            invariant
                stop == c.cap_start + c.cap_len,
                c.cap_start <= i <= c.cap_start + c.cap_len <= env.captures@.len(),
                inner@ == env.captures@.subrange(c.cap_start as int, i as int),
            decreases stop - i,
        {
            inner.push(env.captures[i]);
            i = i + 1;
            assert(inner@ =~= env.captures@.subrange(c.cap_start as int, i as int));
        }
        let mut outer_args = args;
        std::mem::swap(&mut env.lexicals, &mut inner);
        std::mem::swap(&mut env.args, &mut outer_args);
        let ghost e1 = env@;
        assert(e1 == EnvM { lexicals: e0.captures.subrange(c.cap_start as int, c.cap_start + c.cap_len), args: av, ..e0 });
        assert(enter_call(e0, k as int, av) == Some(e1));
        assert(env_wf(e1));
        let f = self.ev_block(env, fuel - 1, true, c.body);
        let ghost e2 = env@;
        std::mem::swap(&mut env.lexicals, &mut inner);
        std::mem::swap(&mut env.args, &mut outer_args);
        assert(env@ == leave_call(e2, e0.lexicals, e0.args));
        assert(env_wf(env@));
        match f {
            FlowX::Next(_, v) => Ok(v),
            FlowX::Ret(v) => Ok(v),
            FlowX::Fail(x) => Err(x),
        }
    }

    /// See [`ev_primary`].
    #[verifier::rlimit(40)]
    pub fn ev_primary(&self, env: &mut Env, fuel: u32, live: bool, p: usize) -> (r: FlowX<Val>)
        requires
            code_wf(self@),
            env_wf(old(env)@),
        ensures
            (final(env)@, flow_v(r)) == ev_primary(self@, fuel as nat, live, p as int, old(env)@),
            env_wf(final(env)@),
            flow_wf(r),
        decreases fuel, self.toks@.len() - p, 2int,
    {
        if p >= self.toks.len() {
            return FlowX::Fail(syntax_x(p));
        }
        match self.toks[p].kind {
            TokKind::Int(i) => FlowX::Next(p + 1, Val::S(Scalar::Num(Num { n: i, d: 1 }))),
            TokKind::DStr(s, end) => match dq_parts_exec(&self.src, s, end) {
                Ok(parts) => if live {
                    match interpolate_exec(&self.src, env, &parts) {
                        Ok(t) => FlowX::Next(p + 1, Val::S(Scalar::Str(t))),
                        Err(msg) => FlowX::Fail(runtime_x(msg, p)),
                    }
                } else {
                    FlowX::Next(p + 1, undef_x())
                },
                Err(msg) => FlowX::Fail(FaultX { kind: ErrorKind::Syntax, msg, at: p }),
            },
            TokKind::SStr(s, end) => FlowX::Next(p + 1, Val::S(Scalar::Str(sq_text_exec(&self.src, s, end)))),
            TokKind::Var(s, end) => self.ev_var(env, fuel, live, p, s, end),
            TokKind::Word(s, end) => self.ev_word(env, fuel, live, p, s, end),
            TokKind::P(Punct::LParen) => if self.is_punct(p + 1, Punct::RParen) {
                FlowX::Next(p + 2, undef_x())
            } else {
                let f = self.ev_expr(env, fuel, live, p + 1);
                match f {
                    FlowX::Next(q, v) => if p + 1 < q && q < self.toks.len() && self.is_punct(q, Punct::RParen) {
                        FlowX::Next(q + 1, v)
                    } else {
                        FlowX::Fail(syntax_x(q))
                    },
                    FlowX::Ret(r) => FlowX::Ret(r),
                    FlowX::Fail(x) => FlowX::Fail(x),
                }
            },
            TokKind::P(Punct::Backslash) => match self.kind_at(p + 2) {
                Some(TokKind::Word(ws, we)) => if self.is_punct(p + 1, Punct::Amp) {
                    if live {
                        match env.find_sub(&self.src, ws, we) {
                            Some(k) => FlowX::Next(p + 3, Val::Code(k)),
                            None => FlowX::Fail(runtime_x(undefined_sub_msg(&self.src, ws, we), p)),
                        }
                    } else {
                        FlowX::Next(p + 3, undef_x())
                    }
                } else {
                    FlowX::Fail(syntax_x(p))
                },
                _ => FlowX::Fail(syntax_x(p)),
            },
            TokKind::P(Punct::Star) => match self.kind_at(p + 1) {
                Some(TokKind::Word(ws, we)) => FlowX::Next(p + 2, Val::Glob(ws, we)),
                _ => FlowX::Fail(syntax_x(p)),
            },
            _ => FlowX::Fail(syntax_x(p)),
        }
    }

    /// See [`ev_var`].
    #[verifier::rlimit(100)]
    #[verifier::spinoff_prover]
    pub fn ev_var(&self, env: &mut Env, fuel: u32, live: bool, p: usize, s: usize, end: usize) -> (r: FlowX<Val>)
        requires
            code_wf(self@),
            env_wf(old(env)@),
            p < self.toks@.len(),
        ensures
            (final(env)@, flow_v(r)) == ev_var(self@, fuel as nat, live, p as int, s, end, old(env)@),
            env_wf(final(env)@),
            flow_wf(r),
        decreases fuel, self.toks@.len() - p, 1int,
    {
        if self.is_punct(p + 1, Punct::LBracket) {
            let underscore = s <= end && end <= self.src.len() && end - s == 1 && self.src[s] == '_';
            proof {
                if s <= end && end <= self.src@.len() {
                    let t = self.src@.subrange(s as int, end as int);
                    if underscore {
                        assert(t =~= seq!['_']);
                    } else if t =~= seq!['_'] {
                        assert(seq!['_'][0] == '_');
                        assert(t[0] == self.src@[s as int]);
                        assert(false);
                    }
                }
            }
            if !underscore {
                return FlowX::Fail(FaultX { kind: ErrorKind::Syntax, msg: str_chars("Only @_ can be indexed"), at: p });
            }
            let f = self.ev_expr(env, fuel, live, p + 2);
            match f {
                FlowX::Next(q, iv) => if p + 2 < q && q < self.toks.len() && self.is_punct(q, Punct::RBracket) {
                    if live {
                        match index_of_exec(&iv) {
                            Ok(i) => FlowX::Next(q + 1, env.arg_get(i)),
                            Err(msg) => FlowX::Fail(runtime_x(msg, p)),
                        }
                    } else {
                        FlowX::Next(q + 1, undef_x())
                    }
                } else {
                    FlowX::Fail(syntax_x(q))
                },
                FlowX::Ret(r) => FlowX::Ret(r),
                FlowX::Fail(x) => FlowX::Fail(x),
            }
        } else {
            FlowX::Next(p + 1, if live { env.read_var(&self.src, s, end) } else { undef_x() })
        }
    }

    /// See [`ev_word`].
    #[verifier::rlimit(100)]
    #[verifier::spinoff_prover]
    pub fn ev_word(&self, env: &mut Env, fuel: u32, live: bool, p: usize, s: usize, end: usize) -> (r: FlowX<Val>)
        requires
            code_wf(self@),
            env_wf(old(env)@),
            p < self.toks@.len(),
        ensures
            (final(env)@, flow_v(r)) == ev_word(self@, fuel as nat, live, p as int, s, end, old(env)@),
            env_wf(final(env)@),
            flow_wf(r),
        decreases fuel, self.toks@.len() - p, 1int,
    {
        let next_is_var = match self.kind_at(p + 1) {
            Some(TokKind::Var(_, _)) => true,
            _ => false,
        };
        if (self.is_kw(p, "my") || self.is_kw(p, "our") || self.is_kw(p, "local")) && next_is_var {
            match self.toks[p + 1].kind {
                TokKind::Var(vs, ve) => if !live {
                    FlowX::Next(p + 2, undef_x())
                } else if self.is_kw(p, "my") {
                    env.declare_my(vs, ve, undef_x());
                    FlowX::Next(p + 2, undef_x())
                } else if self.is_kw(p, "our") {
                    env.declare_our(&self.src, vs, ve, None);
                    let v = env.read_var(&self.src, vs, ve);
                    FlowX::Next(p + 2, v)
                } else {
                    env.localize(&self.src, vs, ve, undef_x());
                    FlowX::Next(p + 2, undef_x())
                },
                _ => FlowX::Fail(syntax_x(p)),
            }
        } else if self.is_kw(p, "undef") {
            FlowX::Next(p + 1, undef_x())
        } else if self.is_kw(p, "die") {
            match self.stmt_end(p + 1) {
                Some(_) => if live {
                    FlowX::Fail(FaultX { kind: ErrorKind::Die, msg: str_chars("Died"), at: p })
                } else {
                    FlowX::Next(p + 1, undef_x())
                },
                None => {
                    let f = self.ev_expr(env, fuel, live, p + 1);
                    match f {
                        FlowX::Next(q, v) => if live {
                            FlowX::Fail(FaultX { kind: ErrorKind::Die, msg: die_text_exec(&v), at: p })
                        } else {
                            FlowX::Next(q, undef_x())
                        },
                        FlowX::Ret(r) => FlowX::Ret(r),
                        FlowX::Fail(x) => FlowX::Fail(x),
                    }
                },
            }
        } else if self.is_kw(p, "scalar") {
            self.ev_primary(env, fuel, live, p + 1)
        } else if self.is_kw(p, "do") && self.is_punct(p + 1, Punct::LBrace) {
            self.ev_block(env, fuel, live, p + 1)
        } else if self.is_kw(p, "sub") && self.is_punct(p + 1, Punct::LBrace) {
            let f = self.ev_block(env, fuel, false, p + 1);
            match f {
                FlowX::Next(q, _) => if live {
                    let k = env.make_closure(p + 1);
                    FlowX::Next(q, Val::Code(k))
                } else {
                    FlowX::Next(q, undef_x())
                },
                FlowX::Ret(r) => FlowX::Ret(r),
                FlowX::Fail(x) => FlowX::Fail(x),
            }
        } else if self.is_punct(p + 1, Punct::LParen) {
            let acc: Vec<Val> = Vec::new();
            assert(vals_v(acc@) =~= seq![]);
            let f = self.ev_args(env, fuel, live, p + 2, acc);
            match f {
                FlowX::Next(q, vals) => if p + 2 <= q && q < self.toks.len() && self.is_punct(q, Punct::RParen) {
                    if live {
                        match env.find_sub(&self.src, s, end) {
                            Some(k) => match self.call_closure(env, fuel, k, vals, p) {
                                Ok(v) => FlowX::Next(q + 1, v),
                                Err(x) => FlowX::Fail(x),
                            },
                            None => FlowX::Fail(runtime_x(undefined_sub_msg(&self.src, s, end), p)),
                        }
                    } else {
                        FlowX::Next(q + 1, undef_x())
                    }
                } else {
                    FlowX::Fail(syntax_x(q))
                },
                FlowX::Ret(r) => FlowX::Ret(r),
                FlowX::Fail(x) => FlowX::Fail(x),
            }
        } else {
            FlowX::Fail(syntax_x(p))
        }
    }

    /// See [`ev_program`].
    pub fn ev_program(&self, env: &mut Env, fuel: u32, live: bool) -> (r: FlowX<Val>)
        requires
            code_wf(self@),
            env_wf(old(env)@),
        ensures
            (final(env)@, flow_v(r)) == ev_program(self@, fuel as nat, live, old(env)@),
            env_wf(final(env)@),
            flow_wf(r),
    {
        let f = self.ev_stmts(env, fuel, live, 0, undef_x());
        match f {
            FlowX::Next(q, v) => if q == self.toks.len() { FlowX::Next(q, v) } else { FlowX::Fail(syntax_x(q)) },
            FlowX::Ret(v) => FlowX::Ret(v),
            FlowX::Fail(x) => FlowX::Fail(x),
        }
    }
}

} // verus!
