//! Laws of the evaluator: checking a program's syntax runs nothing, and a block's
//! lexical declarations and `local` values end with the block.
use vstd::prelude::*;
use crate::interp::env::{
    Bind, EnvM, cell_set, unwind_saved, close_scope, make_closure, global_slot,
};
use crate::interp::semantics::{
    Prog, Flow, Target, is_sub_def, ev_stmts, ev_stmt, ev_block, ev_expr, ev_expr_rest, ev_args,
    ev_assign, ev_ternary, ev_bin, ev_bin_rest, ev_unary, ev_power, ev_postfix, ev_postfix_rest,
    call_value, call_closure, ev_primary, ev_var, ev_word, ev_program, assign_target, do_assign,
};
use crate::interp::lexer::TokKind;
use crate::interp::env::ValM;

verus! {

/// `a` is a prefix of `b`.
pub open spec fn lex_prefix(a: Seq<Bind>, b: Seq<Bind>) -> bool {
    a.len() <= b.len() && b.subrange(0, a.len() as int) == a
}

/// `a` is a prefix of `b`.
pub open spec fn saved_prefix(a: Seq<(usize, ValM)>, b: Seq<(usize, ValM)>) -> bool {
    a.len() <= b.len() && b.subrange(0, a.len() as int) == a
}

/// How a construct may change the state: not at all when it only was read, and
/// the lexical bindings and the values saved by `local` only by adding to them.
pub open spec fn evolves(e: EnvM, e1: EnvM, live: bool) -> bool {
    &&& !live ==> e1 == e
    &&& lex_prefix(e.lexicals, e1.lexicals)
    &&& saved_prefix(e.saved, e1.saved)
}

proof fn lemma_prefix_refl(a: Seq<Bind>)
    ensures
        lex_prefix(a, a),
{
    assert(a.subrange(0, a.len() as int) =~= a);
}

proof fn lemma_prefix_trans(a: Seq<Bind>, b: Seq<Bind>, c: Seq<Bind>)
    requires
        lex_prefix(a, b),
        lex_prefix(b, c),
    ensures
        lex_prefix(a, c),
{
    assert(c.subrange(0, a.len() as int) =~= c.subrange(0, b.len() as int).subrange(0, a.len() as int));
}

proof fn lemma_prefix_push(a: Seq<Bind>, x: Bind)
    ensures
        lex_prefix(a, a.push(x)),
{
    assert(a.push(x).subrange(0, a.len() as int) =~= a);
}

proof fn lemma_saved_refl(a: Seq<(usize, ValM)>)
    ensures
        saved_prefix(a, a),
{
    assert(a.subrange(0, a.len() as int) =~= a);
}

proof fn lemma_saved_trans(a: Seq<(usize, ValM)>, b: Seq<(usize, ValM)>, c: Seq<(usize, ValM)>)
    requires
        saved_prefix(a, b),
        saved_prefix(b, c),
    ensures
        saved_prefix(a, c),
{
    assert(c.subrange(0, a.len() as int) =~= c.subrange(0, b.len() as int).subrange(0, a.len() as int));
}

proof fn lemma_saved_push(a: Seq<(usize, ValM)>, x: (usize, ValM))
    ensures
        saved_prefix(a, a.push(x)),
{
    assert(a.push(x).subrange(0, a.len() as int) =~= a);
}

proof fn lemma_evolves_trans(e: EnvM, e1: EnvM, e2: EnvM, live: bool)
    requires
        evolves(e, e1, live),
        evolves(e1, e2, live),
    ensures
        evolves(e, e2, live),
{
    lemma_prefix_trans(e.lexicals, e1.lexicals, e2.lexicals);
    lemma_saved_trans(e.saved, e1.saved, e2.saved);
}

proof fn lemma_evolves_refl(e: EnvM, live: bool)
    ensures
        evolves(e, e, live),
{
    lemma_prefix_refl(e.lexicals);
    lemma_saved_refl(e.saved);
}

proof fn lemma_unwind(e: EnvM, n: int)
    requires
        0 <= n,
    ensures
        unwind_saved(e, n).lexicals == e.lexicals,
        n <= e.saved.len() ==> unwind_saved(e, n).saved == e.saved.subrange(0, n),
        n > e.saved.len() ==> unwind_saved(e, n).saved == e.saved,
    decreases e.saved.len(),
{
    if !(e.saved.len() <= n || e.saved.len() == 0) {
        let last = e.saved.last();
        let e1 = cell_set(EnvM { saved: e.saved.drop_last(), ..e }, last.0 as int, last.1);
        lemma_unwind(e1, n);
        assert(e.saved.drop_last().subrange(0, n) =~= e.saved.subrange(0, n));
    } else if e.saved.len() == n {
        assert(e.saved.subrange(0, n) =~= e.saved);
    } else if e.saved.len() == 0 && n == 0 {
        assert(e.saved.subrange(0, n) =~= e.saved);
    }
}

/// Closing a block's scope gives back the lexicals and the saved values the block
/// started with.
proof fn lemma_close_scope(e: EnvM, e1: EnvM)
    requires
        lex_prefix(e.lexicals, e1.lexicals),
        saved_prefix(e.saved, e1.saved),
    ensures
        close_scope(e1, e.lexicals.len() as int, e.saved.len() as int).lexicals == e.lexicals,
        close_scope(e1, e.lexicals.len() as int, e.saved.len() as int).saved == e.saved,
{
    lemma_unwind(e1, e.saved.len() as int);
}

/// A live assignment only adds lexical bindings.
proof fn lemma_do_assign(m: Prog, e: EnvM, t: Target, v: crate::interp::env::ValM, p: int)
    ensures
        do_assign(m, e, t, v, p) matches Ok(e2) ==> lex_prefix(e.lexicals, e2.lexicals) && saved_prefix(e.saved, e2.saved),
{
    lemma_prefix_refl(e.lexicals);
    lemma_saved_refl(e.saved);
    match t {
        Target::Local(s, end) => {
            let (e1, slot) = match crate::interp::env::var_slot(m.src, e, s as int, end as int) {
                Some(c) => (e, c),
                None => global_slot(m.src, e, s, end),
            };
            lemma_saved_push(e.saved, (slot as usize, crate::interp::env::cell_get(e1, slot)));
        },
        Target::My(s, end) => lemma_prefix_push(e.lexicals, Bind { start: s, end, slot: e.cells.len() as usize }),
        Target::Our(s, end) => {
            let (e1, slot) = global_slot(m.src, e, s, end);
            lemma_prefix_push(e.lexicals, Bind { start: s, end, slot: slot as usize });
        },
        _ => {},
    }
}

/// Calls give back the caller's lexicals, and only add saved values.
#[verifier::spinoff_prover]
proof fn lemma_call_closure(m: Prog, fuel: nat, k: int, args: Seq<crate::interp::env::ValM>, e: EnvM, at: int)
    ensures
        call_closure(m, fuel, k, args, e, at).0.lexicals == e.lexicals,
        saved_prefix(e.saved, call_closure(m, fuel, k, args, e, at).0.saved),
    decreases fuel, 0int, 0int,
{
    lemma_saved_refl(e.saved);
    if fuel > 0 {
        match crate::interp::env::enter_call(e, k, args) {
            Some(e1) => {
                let body = e.closures[k].body as int;
                let (e2, f) = ev_block(m, (fuel - 1) as nat, true, body, e1);
                lemma_block(m, (fuel - 1) as nat, true, body, e1);
                assert(e1.saved == e.saved);
                let e3 = crate::interp::env::leave_call(e2, e.lexicals, e.args);
                assert(e3.saved == e2.saved);
                assert(call_closure(m, fuel, k, args, e, at).0 == e3);
            },
            None => {},
        }
    }
}

proof fn lemma_call_value(m: Prog, fuel: nat, f: crate::interp::env::ValM, args: Seq<crate::interp::env::ValM>, e: EnvM, at: int)
    ensures
        call_value(m, fuel, f, args, e, at).0.lexicals == e.lexicals,
        saved_prefix(e.saved, call_value(m, fuel, f, args, e, at).0.saved),
    decreases fuel, 0int, 1int,
{
    lemma_saved_refl(e.saved);
    match f {
        crate::interp::env::ValM::Code(k) => lemma_call_closure(m, fuel, k as int, args, e, at),
        _ => {},
    }
}

proof fn lemma_stmts(m: Prog, fuel: nat, live: bool, p: int, e: EnvM, last: crate::interp::env::ValM)
    ensures
        evolves(e, ev_stmts(m, fuel, live, p, e, last).0, live),
    decreases fuel, m.toks.len() - p, 20int,
{
    lemma_evolves_refl(e, live);
    if !(0 <= p <= m.toks.len()) {
    } else if p == m.toks.len() || crate::interp::semantics::is_punct(m, p, crate::interp::lexer::Punct::RBrace) {
    } else if crate::interp::semantics::is_punct(m, p, crate::interp::lexer::Punct::Semi) {
        lemma_stmts(m, fuel, live, p + 1, e, last);
    } else {
        let (e1, f) = ev_stmt(m, fuel, live, p, e);
        lemma_stmt(m, fuel, live, p, e);
        match f {
            Flow::Next(q, v) => if p < q <= m.toks.len() {
                let l2 = if is_sub_def(m, p) || crate::interp::semantics::is_pragma(m, p) { last } else { v };
                lemma_stmts(m, fuel, live, q, e1, l2);
                lemma_evolves_trans(e, e1, ev_stmts(m, fuel, live, q, e1, l2).0, live);
            },
            _ => {},
        }
    }
}

proof fn lemma_stmt(m: Prog, fuel: nat, live: bool, p: int, e: EnvM)
    ensures
        evolves(e, ev_stmt(m, fuel, live, p, e).0, live),
    decreases fuel, m.toks.len() - p, 19int,
{
    lemma_evolves_refl(e, live);
    if !(0 <= p < m.toks.len()) {
    } else if is_sub_def(m, p) {
        let (e1, f) = ev_block(m, fuel, false, p + 2, e);
        lemma_block(m, fuel, false, p + 2, e);
        match f {
            Flow::Next(q, _) => if live {
                let (e2, k) = make_closure(e1, (p + 2) as usize);
                lemma_prefix_refl(e.lexicals);
            },
            _ => {},
        }
    } else if crate::interp::semantics::is_pragma(m, p) {
    } else if crate::interp::semantics::is_kw(m, p, "return"@) {
        match crate::interp::semantics::stmt_end(m, p + 1) {
            Some(q) => {},
            None => {
                lemma_expr(m, fuel, live, p + 1, e);
            },
        }
    } else {
        lemma_expr(m, fuel, live, p, e);
    }
}

proof fn lemma_block(m: Prog, fuel: nat, live: bool, p: int, e: EnvM)
    ensures
        evolves(e, ev_block(m, fuel, live, p, e).0, live),
        live && (ev_block(m, fuel, live, p, e).1 is Next || ev_block(m, fuel, live, p, e).1 is Ret)
            ==> ev_block(m, fuel, live, p, e).0.lexicals == e.lexicals
                && ev_block(m, fuel, live, p, e).0.saved == e.saved,
    decreases fuel, m.toks.len() - p, 21int,
{
    lemma_evolves_refl(e, live);
    if !(0 <= p < m.toks.len()) || !crate::interp::semantics::is_punct(m, p, crate::interp::lexer::Punct::LBrace) {
    } else {
        let nl = e.lexicals.len() as int;
        let ns = e.saved.len() as int;
        let (e1, f) = ev_stmts(m, fuel, live, p + 1, e, crate::interp::semantics::undef_v());
        lemma_stmts(m, fuel, live, p + 1, e, crate::interp::semantics::undef_v());
        if live {
            lemma_close_scope(e, e1);
            lemma_prefix_refl(e.lexicals);
            lemma_saved_refl(e.saved);
        }
    }
}

proof fn lemma_expr(m: Prog, fuel: nat, live: bool, p: int, e: EnvM)
    ensures
        evolves(e, ev_expr(m, fuel, live, p, e).0, live),
    decreases fuel, m.toks.len() - p, 18int,
{
    let (e1, f) = ev_assign(m, fuel, live, p, e);
    lemma_assign(m, fuel, live, p, e);
    match f {
        Flow::Next(q, v) => if p < q <= m.toks.len() {
            lemma_expr_rest(m, fuel, live, q, e1, v);
            lemma_evolves_trans(e, e1, ev_expr_rest(m, fuel, live, q, e1, v).0, live);
        },
        _ => {},
    }
}

proof fn lemma_expr_rest(m: Prog, fuel: nat, live: bool, q: int, e: EnvM, v: crate::interp::env::ValM)
    ensures
        evolves(e, ev_expr_rest(m, fuel, live, q, e, v).0, live),
    decreases fuel, m.toks.len() - q, 18int,
{
    lemma_evolves_refl(e, live);
    if !crate::interp::semantics::is_punct(m, q, crate::interp::lexer::Punct::Comma) {
    } else if crate::interp::semantics::is_punct(m, q + 1, crate::interp::lexer::Punct::RParen) {
    } else {
        let (e1, f) = ev_assign(m, fuel, live, q + 1, e);
        lemma_assign(m, fuel, live, q + 1, e);
        match f {
            Flow::Next(q2, v2) => if q + 1 < q2 <= m.toks.len() {
                lemma_expr_rest(m, fuel, live, q2, e1, v2);
                lemma_evolves_trans(e, e1, ev_expr_rest(m, fuel, live, q2, e1, v2).0, live);
            },
            _ => {},
        }
    }
}

proof fn lemma_args(m: Prog, fuel: nat, live: bool, p: int, e: EnvM, acc: Seq<crate::interp::env::ValM>)
    ensures
        evolves(e, ev_args(m, fuel, live, p, e, acc).0, live),
    decreases fuel, m.toks.len() - p, 18int,
{
    lemma_evolves_refl(e, live);
    if crate::interp::semantics::is_punct(m, p, crate::interp::lexer::Punct::RParen) {
    } else {
        let (e1, f) = ev_assign(m, fuel, live, p, e);
        lemma_assign(m, fuel, live, p, e);
        match f {
            Flow::Next(q, v) => if p < q <= m.toks.len() {
                if crate::interp::semantics::is_punct(m, q, crate::interp::lexer::Punct::Comma) {
                    lemma_args(m, fuel, live, q + 1, e1, acc.push(v));
                    lemma_evolves_trans(e, e1, ev_args(m, fuel, live, q + 1, e1, acc.push(v)).0, live);
                }
            },
            _ => {},
        }
    }
}

proof fn lemma_assign(m: Prog, fuel: nat, live: bool, p: int, e: EnvM)
    ensures
        evolves(e, ev_assign(m, fuel, live, p, e).0, live),
    decreases fuel, m.toks.len() - p, 17int,
{
    match assign_target(m, p) {
        Some((t, rhs)) => {
            let (e1, f) = ev_assign(m, fuel, live, rhs, e);
            lemma_assign(m, fuel, live, rhs, e);
            match f {
                Flow::Next(q, v) => if live {
                    lemma_do_assign(m, e1, t, v, p);
                    match do_assign(m, e1, t, v, p) {
                        Ok(e2) => {
                            lemma_prefix_trans(e.lexicals, e1.lexicals, e2.lexicals);
                            lemma_saved_trans(e.saved, e1.saved, e2.saved);
                        },
                        Err(_) => {},
                    }
                },
                _ => {},
            }
        },
        None => lemma_ternary(m, fuel, live, p, e),
    }
}

proof fn lemma_ternary(m: Prog, fuel: nat, live: bool, p: int, e: EnvM)
    ensures
        evolves(e, ev_ternary(m, fuel, live, p, e).0, live),
    decreases fuel, m.toks.len() - p, 16int,
{
    let (e1, f) = ev_bin(m, fuel, live, 0, p, e);
    lemma_bin(m, fuel, live, 0, p, e);
    match f {
        Flow::Next(q, c) => if !(p < q <= m.toks.len()) {
        } else if crate::interp::semantics::is_punct(m, q, crate::interp::lexer::Punct::Question) {
            let cond = crate::interp::semantics::truthy_v(c);
            let (e2, f2) = ev_assign(m, fuel, live && cond, q + 1, e1);
            lemma_assign(m, fuel, live && cond, q + 1, e1);
            lemma_evolves_trans(e, e1, e2, live);
            match f2 {
                Flow::Next(q2, v1) => if q + 1 < q2 < m.toks.len() && crate::interp::semantics::is_punct(m, q2, crate::interp::lexer::Punct::Colon) {
                    lemma_ternary(m, fuel, live && !cond, q2 + 1, e2);
                    lemma_evolves_trans(e, e2, ev_ternary(m, fuel, live && !cond, q2 + 1, e2).0, live);
                },
                _ => {},
            }
        },
        _ => {},
    }
}

proof fn lemma_bin(m: Prog, fuel: nat, live: bool, lvl: int, p: int, e: EnvM)
    ensures
        evolves(e, ev_bin(m, fuel, live, lvl, p, e).0, live),
    decreases fuel, m.toks.len() - p, 14 - lvl,
{
    lemma_evolves_refl(e, live);
    if !(0 <= lvl <= 7) {
    } else {
        let (e1, f) = if lvl == 7 { ev_unary(m, fuel, live, p, e) } else { ev_bin(m, fuel, live, lvl + 1, p, e) };
        if lvl == 7 {
            lemma_unary(m, fuel, live, p, e);
        } else {
            lemma_bin(m, fuel, live, lvl + 1, p, e);
        }
        match f {
            Flow::Next(q, a) => if p < q <= m.toks.len() {
                lemma_bin_rest(m, fuel, live, lvl, q, e1, a);
                lemma_evolves_trans(e, e1, ev_bin_rest(m, fuel, live, lvl, q, e1, a).0, live);
            },
            _ => {},
        }
    }
}

proof fn lemma_bin_rest(m: Prog, fuel: nat, live: bool, lvl: int, q: int, e: EnvM, a: crate::interp::env::ValM)
    ensures
        evolves(e, ev_bin_rest(m, fuel, live, lvl, q, e, a).0, live),
    decreases fuel, m.toks.len() - q, 14 - lvl,
{
    lemma_evolves_refl(e, live);
    if !(0 <= lvl <= 7) {
    } else {
        match crate::interp::semantics::level_op(m, lvl, q) {
            None => {},
            Some(op) => {
                let l2 = live && crate::interp::semantics::needs_rhs(op, a);
                let (e1, f) = if lvl == 7 { ev_unary(m, fuel, l2, q + 1, e) } else { ev_bin(m, fuel, l2, lvl + 1, q + 1, e) };
                if lvl == 7 {
                    lemma_unary(m, fuel, l2, q + 1, e);
                } else {
                    lemma_bin(m, fuel, l2, lvl + 1, q + 1, e);
                }
                match f {
                    Flow::Next(q2, b) => if q + 1 < q2 <= m.toks.len() {
                        if live {
                            match crate::interp::semantics::combine(op, a, b) {
                                Ok(v) => {
                                    lemma_bin_rest(m, fuel, live, lvl, q2, e1, v);
                                    lemma_evolves_trans(e, e1, ev_bin_rest(m, fuel, live, lvl, q2, e1, v).0, live);
                                },
                                Err(_) => {},
                            }
                        } else {
                            lemma_bin_rest(m, fuel, live, lvl, q2, e1, a);
                            lemma_evolves_trans(e, e1, ev_bin_rest(m, fuel, live, lvl, q2, e1, a).0, live);
                        }
                    },
                    _ => {},
                }
            },
        }
    }
}

proof fn lemma_unary(m: Prog, fuel: nat, live: bool, p: int, e: EnvM)
    ensures
        evolves(e, ev_unary(m, fuel, live, p, e).0, live),
    decreases fuel, m.toks.len() - p, 5int,
{
    lemma_evolves_refl(e, live);
    if !(0 <= p < m.toks.len()) {
    } else if crate::interp::semantics::is_punct(m, p, crate::interp::lexer::Punct::Bang)
        || crate::interp::semantics::is_punct(m, p, crate::interp::lexer::Punct::Minus) {
        lemma_unary(m, fuel, live, p + 1, e);
    } else {
        lemma_power(m, fuel, live, p, e);
    }
}

proof fn lemma_power(m: Prog, fuel: nat, live: bool, p: int, e: EnvM)
    ensures
        evolves(e, ev_power(m, fuel, live, p, e).0, live),
    decreases fuel, m.toks.len() - p, 4int,
{
    let (e1, f) = ev_postfix(m, fuel, live, p, e);
    lemma_postfix(m, fuel, live, p, e);
    match f {
        Flow::Next(q, a) => if !(p < q <= m.toks.len()) {
        } else if crate::interp::semantics::is_punct(m, q, crate::interp::lexer::Punct::StarStar) {
            lemma_unary(m, fuel, live, q + 1, e1);
            lemma_evolves_trans(e, e1, ev_unary(m, fuel, live, q + 1, e1).0, live);
        },
        _ => {},
    }
}

proof fn lemma_postfix(m: Prog, fuel: nat, live: bool, p: int, e: EnvM)
    ensures
        evolves(e, ev_postfix(m, fuel, live, p, e).0, live),
    decreases fuel, m.toks.len() - p, 3int,
{
    let (e1, f) = ev_primary(m, fuel, live, p, e);
    lemma_primary(m, fuel, live, p, e);
    match f {
        Flow::Next(q, a) => if p < q <= m.toks.len() {
            lemma_postfix_rest(m, fuel, live, q, e1, a);
            lemma_evolves_trans(e, e1, ev_postfix_rest(m, fuel, live, q, e1, a).0, live);
        },
        _ => {},
    }
}

proof fn lemma_postfix_rest(m: Prog, fuel: nat, live: bool, q: int, e: EnvM, a: crate::interp::env::ValM)
    ensures
        evolves(e, ev_postfix_rest(m, fuel, live, q, e, a).0, live),
    decreases fuel, m.toks.len() - q, 3int,
{
    lemma_evolves_refl(e, live);
    if 0 <= q && crate::interp::semantics::is_punct(m, q, crate::interp::lexer::Punct::Arrow)
        && crate::interp::semantics::is_punct(m, q + 1, crate::interp::lexer::Punct::LParen) {
        let (e1, f) = ev_args(m, fuel, live, q + 2, e, seq![]);
        lemma_args(m, fuel, live, q + 2, e, seq![]);
        match f {
            Flow::Next(q2, vals) => if q + 2 <= q2 < m.toks.len() && crate::interp::semantics::is_punct(m, q2, crate::interp::lexer::Punct::RParen) {
                if live {
                    let (e2, r) = call_value(m, fuel, a, vals, e1, q);
                    lemma_call_value(m, fuel, a, vals, e1, q);
                    lemma_prefix_refl(e1.lexicals);
                    lemma_prefix_trans(e.lexicals, e1.lexicals, e2.lexicals);
                    lemma_saved_trans(e.saved, e1.saved, e2.saved);
                    match r {
                        Ok(v) => {
                            lemma_postfix_rest(m, fuel, live, q2 + 1, e2, v);
                            lemma_evolves_trans(e, e2, ev_postfix_rest(m, fuel, live, q2 + 1, e2, v).0, live);
                        },
                        Err(_) => {},
                    }
                } else {
                    lemma_postfix_rest(m, fuel, live, q2 + 1, e1, a);
                    lemma_evolves_trans(e, e1, ev_postfix_rest(m, fuel, live, q2 + 1, e1, a).0, live);
                }
            },
            _ => {},
        }
    }
}

#[verifier::rlimit(100)]
#[verifier::spinoff_prover]
proof fn lemma_primary(m: Prog, fuel: nat, live: bool, p: int, e: EnvM)
    ensures
        evolves(e, ev_primary(m, fuel, live, p, e).0, live),
    decreases fuel, m.toks.len() - p, 2int,
{
    lemma_evolves_refl(e, live);
    if !(0 <= p < m.toks.len()) {
    } else {
        match m.toks[p].kind {
            TokKind::Var(s, end) => lemma_var(m, fuel, live, p, s, end, e),
            TokKind::Word(s, end) => lemma_word(m, fuel, live, p, s, end, e),
            TokKind::P(crate::interp::lexer::Punct::LParen) => {
                if !crate::interp::semantics::is_punct(m, p + 1, crate::interp::lexer::Punct::RParen) {
                    lemma_expr(m, fuel, live, p + 1, e);
                }
            },
            _ => lemma_primary_plain(m, fuel, live, p, e),
        }
    }
}

/// A primary that is neither a variable, a word nor a parenthesis leaves the
/// state as it was.
#[verifier::spinoff_prover]
proof fn lemma_primary_plain(m: Prog, fuel: nat, live: bool, p: int, e: EnvM)
    requires
        0 <= p < m.toks.len(),
        !(m.toks[p].kind is Var),
        !(m.toks[p].kind is Word),
        m.toks[p].kind != TokKind::P(crate::interp::lexer::Punct::LParen),
    ensures
        ev_primary(m, fuel, live, p, e).0 == e,
{
}

proof fn lemma_var(m: Prog, fuel: nat, live: bool, p: int, s: usize, end: usize, e: EnvM)
    ensures
        evolves(e, ev_var(m, fuel, live, p, s, end, e).0, live),
    decreases fuel, m.toks.len() - p, 1int,
{
    lemma_evolves_refl(e, live);
    if crate::interp::semantics::is_punct(m, p + 1, crate::interp::lexer::Punct::LBracket) {
        lemma_expr(m, fuel, live, p + 2, e);
    }
}

proof fn lemma_word(m: Prog, fuel: nat, live: bool, p: int, s: usize, end: usize, e: EnvM)
    ensures
        evolves(e, ev_word(m, fuel, live, p, s, end, e).0, live),
    decreases fuel, m.toks.len() - p, 1int,
{
    lemma_evolves_refl(e, live);
    if (crate::interp::semantics::is_kw(m, p, "my"@) || crate::interp::semantics::is_kw(m, p, "our"@)
        || crate::interp::semantics::is_kw(m, p, "local"@))
        && crate::interp::semantics::kind_at(m, p + 1) matches Some(TokKind::Var(_, _)) {
        match m.toks[p + 1].kind {
            TokKind::Var(vs, ve) => {
                if live && crate::interp::semantics::is_kw(m, p, "my"@) {
                    lemma_prefix_push(e.lexicals, Bind { start: vs, end: ve, slot: e.cells.len() as usize });
                } else if live && crate::interp::semantics::is_kw(m, p, "our"@) {
                    let (e1, slot) = global_slot(m.src, e, vs, ve);
                    lemma_prefix_push(e.lexicals, Bind { start: vs, end: ve, slot: slot as usize });
                } else if live {
                    lemma_do_assign(m, e, Target::Local(vs, ve), crate::interp::semantics::undef_v(), p);
                }
            },
            _ => {},
        }
    } else if crate::interp::semantics::is_kw(m, p, "undef"@) {
    } else if crate::interp::semantics::is_kw(m, p, "die"@) {
        if crate::interp::semantics::stmt_end(m, p + 1) is None {
            lemma_expr(m, fuel, live, p + 1, e);
        }
    } else if crate::interp::semantics::is_kw(m, p, "scalar"@) {
        lemma_primary(m, fuel, live, p + 1, e);
    } else if crate::interp::semantics::is_kw(m, p, "do"@) && crate::interp::semantics::is_punct(m, p + 1, crate::interp::lexer::Punct::LBrace) {
        lemma_block(m, fuel, live, p + 1, e);
    } else if crate::interp::semantics::is_kw(m, p, "sub"@) && crate::interp::semantics::is_punct(m, p + 1, crate::interp::lexer::Punct::LBrace) {
        lemma_block(m, fuel, false, p + 1, e);
    } else if crate::interp::semantics::is_punct(m, p + 1, crate::interp::lexer::Punct::LParen) {
        let (e1, f) = ev_args(m, fuel, live, p + 2, e, seq![]);
        lemma_args(m, fuel, live, p + 2, e, seq![]);
        match f {
            Flow::Next(q, vals) => if live {
                match crate::interp::env::find_sub(m.src, e1, s as int, end as int) {
                    Some(k) => {
                        lemma_call_closure(m, fuel, k, vals, e1, p);
                        lemma_prefix_refl(e1.lexicals);
                        lemma_prefix_trans(e.lexicals, e1.lexicals, call_closure(m, fuel, k, vals, e1, p).0.lexicals);
                        lemma_saved_trans(e.saved, e1.saved, call_closure(m, fuel, k, vals, e1, p).0.saved);
                    },
                    None => {},
                }
            },
            _ => {},
        }
    }
}

/// Checking a program's syntax runs nothing: evaluated without effect, a program
/// leaves the state exactly as it found it.
pub proof fn law_check_runs_nothing(m: Prog, fuel: nat, e: EnvM)
    ensures
        ev_program(m, fuel, false, e).0 == e,
{
    lemma_stmts(m, fuel, false, 0, e, crate::interp::semantics::undef_v());
}

/// A block's lexical declarations and `local` saves end with it: when a block
/// finishes (normally or by `return`), the lexical bindings in force are exactly
/// those before it, and so is the stack of values saved by `local`.
pub proof fn law_block_scope(m: Prog, fuel: nat, p: int, e: EnvM)
    ensures
        ev_block(m, fuel, true, p, e).1 is Next || ev_block(m, fuel, true, p, e).1 is Ret
            ==> ev_block(m, fuel, true, p, e).0.lexicals == e.lexicals
                && ev_block(m, fuel, true, p, e).0.saved == e.saved,
{
    lemma_block(m, fuel, true, p, e);
}

} // verus!
