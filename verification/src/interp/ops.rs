//! Perl's unary and binary operators on scalars.
use vstd::prelude::*;
use crate::interp::num::{
    Num, abs, int_num, normalize, num_add, num_sub, num_mul, num_div, num_compare, num_trunc,
    num_wf, normalize_exec, num_add_exec, num_sub_exec, num_mul_exec, num_div_exec,
    num_compare_exec, num_trunc_exec,
};
use crate::interp::scalar::{
    Scalar, ScalarM, scalar_wf, truthy, bool_value, numify, stringify, numify_exec,
    push_stringify, push_chars, truthy_exec,
};
use crate::text::str_chars;

verus! {

/// Binary operators.
#[derive(Debug, Clone, Copy, PartialEq, Eq, Structural)]
pub enum BinOp {
    Add,
    Sub,
    Mul,
    Div,
    Mod,
    Pow,
    Concat,
    Repeat,
    NumEq,
    NumNe,
    NumLt,
    NumGt,
    NumLe,
    NumGe,
    NumOrder,
    StrEq,
    StrNe,
    StrLt,
    StrGt,
    StrLe,
    StrGe,
    StrOrder,
    BitAnd,
    BitOr,
    BitXor,
}

/// Longest string `x` may build.
pub const MAX_REPEAT: u64 = 0x1000_0000;

/// The messages of runtime failures.
pub open spec fn msg_overflow() -> Seq<char> { "Integer overflow in arithmetic"@ }
pub open spec fn msg_numeric() -> Seq<char> { "Numeric string out of range"@ }
pub open spec fn msg_div_zero() -> Seq<char> { "Illegal division by zero"@ }
pub open spec fn msg_mod_zero() -> Seq<char> { "Illegal modulus zero"@ }
pub open spec fn msg_pow() -> Seq<char> { "Non-integer power is not supported"@ }
pub open spec fn msg_repeat() -> Seq<char> { "Repeated string too long"@ }
pub open spec fn msg_bits() -> Seq<char> { "Bitwise result out of range"@ }

/// Lexicographic order of character sequences: -1, 0 or 1.
pub open spec fn str_order(a: Seq<char>, b: Seq<char>) -> int
    decreases a.len(),
{
    if a.len() == 0 && b.len() == 0 {
        0
    } else if a.len() == 0 {
        -1
    } else if b.len() == 0 {
        1
    } else if a[0] < b[0] {
        -1
    } else if a[0] > b[0] {
        1
    } else {
        str_order(a.drop_first(), b.drop_first())
    }
}

/// `x` to the power `e` (`e >= 0`).
pub open spec fn ipow(x: int, e: nat) -> int
    decreases e,
{
    if e == 0 {
        1
    } else {
        x * ipow(x, (e - 1) as nat)
    }
}

/// Perl's `%` on integers: the result has the sign of the right operand.
pub open spec fn perl_mod(a: int, b: int) -> int {
    if b > 0 {
        a % b
    } else {
        -((-a) % (-b))
    }
}

/// The result of an integer that must fit in `i64`.
pub open spec fn int_result(v: int) -> Result<ScalarM, Seq<char>> {
    if i64::MIN <= v <= i64::MAX {
        Ok(ScalarM::Num(int_num(v as i64)))
    } else {
        Err(msg_overflow())
    }
}

/// The result of a number computation.
pub open spec fn num_result(r: Option<Num>) -> Result<ScalarM, Seq<char>> {
    match r {
        Some(x) => Ok(ScalarM::Num(x)),
        None => Err(msg_overflow()),
    }
}

/// `s` repeated `n` times.
pub open spec fn repeat(s: Seq<char>, n: nat) -> Seq<char>
    decreases n,
{
    if n == 0 {
        seq![]
    } else {
        repeat(s, (n - 1) as nat) + s
    }
}

/// The unsigned 64-bit view of an integer operand of a bitwise operator.
pub open spec fn as_bits(v: int) -> u64 {
    (v as i64) as u64
}

/// Applies a binary operator to two values, or says why it fails.
pub open spec fn apply_binop(op: BinOp, a: ScalarM, b: ScalarM) -> Result<ScalarM, Seq<char>> {
    match op {
        BinOp::Concat => Ok(ScalarM::Str(stringify(a) + stringify(b))),
        BinOp::Repeat => match numify(b) {
            None => Err(msg_numeric()),
            Some(nb) => {
                let n = num_trunc(nb);
                let s = stringify(a);
                if n <= 0 {
                    Ok(ScalarM::Str(seq![]))
                } else if s.len() * n > MAX_REPEAT {
                    Err(msg_repeat())
                } else {
                    Ok(ScalarM::Str(repeat(s, n as nat)))
                }
            },
        },
        BinOp::StrEq => Ok(bool_value(stringify(a) == stringify(b))),
        BinOp::StrNe => Ok(bool_value(stringify(a) != stringify(b))),
        BinOp::StrLt => Ok(bool_value(str_order(stringify(a), stringify(b)) < 0)),
        BinOp::StrGt => Ok(bool_value(str_order(stringify(a), stringify(b)) > 0)),
        BinOp::StrLe => Ok(bool_value(str_order(stringify(a), stringify(b)) <= 0)),
        BinOp::StrGe => Ok(bool_value(str_order(stringify(a), stringify(b)) >= 0)),
        BinOp::StrOrder => Ok(ScalarM::Num(int_num(str_order(stringify(a), stringify(b)) as i64))),
        _ => match (numify(a), numify(b)) {
            (Some(x), Some(y)) => apply_numeric(op, x, y),
            _ => Err(msg_numeric()),
        },
    }
}

/// Applies a numeric operator to two numbers.
pub open spec fn apply_numeric(op: BinOp, x: Num, y: Num) -> Result<ScalarM, Seq<char>> {
    match op {
        BinOp::Add => num_result(num_add(x, y)),
        BinOp::Sub => num_result(num_sub(x, y)),
        BinOp::Mul => num_result(num_mul(x, y)),
        BinOp::Div => if y.n == 0 { Err(msg_div_zero()) } else { num_result(num_div(x, y)) },
        BinOp::Mod => {
            let a = num_trunc(x);
            let b = num_trunc(y);
            if b == 0 { Err(msg_mod_zero()) } else { int_result(perl_mod(a, b)) }
        },
        BinOp::Pow => if x.d != 1 || y.d != 1 {
            Err(msg_pow())
        } else if y.n >= 0 {
            int_result(ipow(x.n as int, y.n as nat))
        } else if x.n == 0 {
            Err(msg_div_zero())
        } else {
            let p = ipow(x.n as int, (-(y.n as int)) as nat);
            if i64::MIN <= p <= i64::MAX {
                num_result(normalize(if p < 0 { -1 } else { 1 }, abs(p) as int))
            } else {
                Err(msg_overflow())
            }
        },
        BinOp::NumEq => Ok(bool_value(num_compare(x, y) == 0)),
        BinOp::NumNe => Ok(bool_value(num_compare(x, y) != 0)),
        BinOp::NumLt => Ok(bool_value(num_compare(x, y) < 0)),
        BinOp::NumGt => Ok(bool_value(num_compare(x, y) > 0)),
        BinOp::NumLe => Ok(bool_value(num_compare(x, y) <= 0)),
        BinOp::NumGe => Ok(bool_value(num_compare(x, y) >= 0)),
        BinOp::NumOrder => Ok(ScalarM::Num(int_num(num_compare(x, y) as i64))),
        BinOp::BitAnd => bits_result(as_bits(num_trunc(x)) & as_bits(num_trunc(y))),
        BinOp::BitOr => bits_result(as_bits(num_trunc(x)) | as_bits(num_trunc(y))),
        BinOp::BitXor => bits_result(as_bits(num_trunc(x)) ^ as_bits(num_trunc(y))),
        _ => Err(msg_overflow()),
    }
}

/// The result of a bitwise operator, which must fit in `i64`.
pub open spec fn bits_result(u: u64) -> Result<ScalarM, Seq<char>> {
    if u <= i64::MAX as u64 {
        Ok(ScalarM::Num(int_num(u as i64)))
    } else {
        Err(msg_bits())
    }
}

/// Logical negation.
pub open spec fn apply_not(a: ScalarM) -> ScalarM {
    bool_value(!truthy(a))
}

/// Arithmetic negation.
pub open spec fn apply_neg(a: ScalarM) -> Result<ScalarM, Seq<char>> {
    match numify(a) {
        None => Err(msg_numeric()),
        Some(x) => num_result(num_sub(int_num(0), x)),
    }
}


/// `|x * y| == |x| * |y|`.
proof fn lemma_abs_mul(x: int, y: int)
    ensures
        abs(x * y) == abs(x) * abs(y),
{
    if x >= 0 && y >= 0 {
        assert(x * y >= 0) by (nonlinear_arith) requires x >= 0, y >= 0;
    } else if x < 0 && y < 0 {
        assert(x * y == (-x) * (-y)) by (nonlinear_arith);
        assert((-x) * (-y) >= 0) by (nonlinear_arith) requires x < 0, y < 0;
    } else if x < 0 {
        assert(x * y == -((-x) * y)) by (nonlinear_arith);
        assert((-x) * y >= 0) by (nonlinear_arith) requires x < 0, y >= 0;
    } else {
        assert(x * y == -(x * (-y))) by (nonlinear_arith);
        assert(x * (-y) >= 0) by (nonlinear_arith) requires x >= 0, y < 0;
    }
}

/// For `|x| >= 1`, `|x^e|` grows with `e`.
proof fn lemma_ipow_abs_mono(x: int, i: nat, j: nat)
    requires
        abs(x) >= 1,
        i <= j,
    ensures
        abs(ipow(x, i)) <= abs(ipow(x, j)),
    decreases j,
{
    if i < j {
        lemma_ipow_abs_mono(x, i, (j - 1) as nat);
        lemma_abs_mul(x, ipow(x, (j - 1) as nat));
        let a = abs(ipow(x, (j - 1) as nat));
        assert(a <= abs(x) * a) by (nonlinear_arith) requires abs(x) >= 1;
    }
}

/// `|x^e| >= 2^e` for `|x| >= 2`.
proof fn lemma_ipow_abs_big(x: int, e: nat)
    requires
        abs(x) >= 2,
    ensures
        abs(ipow(x, e)) >= ipow(2, e),
    decreases e,
{
    if e > 0 {
        lemma_ipow_abs_big(x, (e - 1) as nat);
        lemma_pow2_facts((e - 1) as nat);
        lemma_abs_mul(x, ipow(x, (e - 1) as nat));
        let a = abs(ipow(x, (e - 1) as nat));
        let b = ipow(2, (e - 1) as nat);
        assert(abs(x) * a >= 2 * b) by (nonlinear_arith) requires abs(x) >= 2, a >= b, b >= 0;
    } else {
    }
}

/// `2^e >= 0`, and `2^64` is beyond `i64`.
proof fn lemma_pow2_facts(e: nat)
    ensures
        ipow(2, e) >= 1,
        e >= 64 ==> ipow(2, e) >= ipow(2, 64),
    decreases e,
{
    if e > 0 {
        lemma_pow2_facts((e - 1) as nat);
        if e > 64 {
            lemma_pow2_facts((e - 1) as nat);
        }
    }
}

proof fn lemma_pow2_64()
    ensures
        ipow(2, 64) == 0x1_0000_0000_0000_0000,
{
    reveal_with_fuel(ipow, 65);
}

/// Powers of 1, 0 and -1.
proof fn lemma_ipow_unit(x: int, e: nat)
    ensures
        x == 1 ==> ipow(x, e) == 1,
        x == 0 && e > 0 ==> ipow(x, e) == 0,
        x == -1 ==> ipow(x, e) == (if e % 2 == 0 { 1int } else { -1int }),
    decreases e,
{
    if e > 0 {
        lemma_ipow_unit(x, (e - 1) as nat);
    }
}

/// `x^e`, when it fits in `i64`.
fn ipow_checked(x: i64, e: u64) -> (r: Option<i64>)
    ensures
        match r {
            Some(v) => v as int == ipow(x as int, e as nat),
            None => !(i64::MIN <= ipow(x as int, e as nat) <= i64::MAX),
        },
{
    proof {
        lemma_ipow_unit(x as int, e as nat);
    }
    if x == 0 {
        if e == 0 { Some(1) } else { Some(0) }
    } else if x == 1 {
        Some(1)
    } else if x == -1 {
        if e % 2 == 0 { Some(1) } else { Some(-1) }
    } else {
        proof {
            lemma_pow2_facts(e as nat);
            lemma_pow2_64();
            lemma_ipow_abs_big(x as int, e as nat);
        }
        let mut acc: i128 = 1;
        let mut i: u64 = 0;
        while i < e
            invariant
                abs(x as int) >= 2,
                i <= e,
                acc as int == ipow(x as int, i as nat),
                i64::MIN <= acc <= i64::MAX,
            decreases e - i,
        {
            proof {
                lemma_abs_mul(x as int, acc as int);
            }
            assert(-0x4000_0000_0000_0000_0000_0000_0000_0000 <= (x as i128) * acc <= 0x4000_0000_0000_0000_0000_0000_0000_0000) by (nonlinear_arith)
                requires
                    i64::MIN <= x <= i64::MAX,
                    i64::MIN <= acc <= i64::MAX,
            ;
            let next = (x as i128) * acc;
            assert(next as int == ipow(x as int, (i + 1) as nat)) by {
                assert(ipow(x as int, (i + 1) as nat) == (x as int) * ipow(x as int, i as nat));
            }
            if next < (i64::MIN as i128) || next > (i64::MAX as i128) {
                proof {
                    if e > i + 1 {
                        lemma_ipow_abs_mono(x as int, (i + 2) as nat, e as nat);
                        lemma_abs_mul(x as int, next as int);
                        assert(ipow(x as int, (i + 2) as nat) == (x as int) * ipow(x as int, (i + 1) as nat));
                        let an = abs(next as int);
                        assert(an >= 0x8000_0000_0000_0000);
                        assert(abs(x as int) * an >= 0x1_0000_0000_0000_0000) by (nonlinear_arith)
                            requires abs(x as int) >= 2, an >= 0x8000_0000_0000_0000;
                    }
                }
                return None;
            }
            acc = next;
            i = i + 1;
        }
        Some(acc as i64)
    }
}

/// `x % d` (Euclidean) for `d > 0`.
fn euclid_mod(x: i128, d: i128) -> (r: i128)
    requires
        0 < d <= 0x8000_0000_0000_0000,
        -0x8000_0000_0000_0000 <= x <= 0x8000_0000_0000_0000,
    ensures
        r as int == (x as int) % (d as int),
        0 <= r < d,
{
    if x >= 0 {
        let r = (x as u128) % (d as u128);
        r as i128
    } else {
        let nx = (-x) as u128;
        let du = d as u128;
        let m = nx % du;
        let q = nx / du;
        proof {
            vstd::arithmetic::div_mod::lemma_fundamental_div_mod(nx as int, du as int);
        }
        if m == 0 {
            proof {
                assert(x as int == (-(q as int)) * (d as int) + 0) by (nonlinear_arith)
                    requires
                        nx as int == (du as int) * (q as int) + (m as int),
                        m == 0,
                        nx as int == -(x as int),
                        du as int == d as int,
                ;
                vstd::arithmetic::div_mod::lemma_fundamental_div_mod_converse(x as int, d as int, -(q as int), 0);
            }
            0
        } else {
            proof {
                assert(x as int == (-(q as int) - 1) * (d as int) + ((d as int) - (m as int))) by (nonlinear_arith)
                    requires
                        nx as int == (du as int) * (q as int) + (m as int),
                        nx as int == -(x as int),
                        du as int == d as int,
                ;
                vstd::arithmetic::div_mod::lemma_fundamental_div_mod_converse(x as int, d as int, -(q as int) - 1, (d as int) - (m as int));
            }
            d - (m as i128)
        }
    }
}

/// Perl's `%` on integers.
fn perl_mod_exec(a: i64, b: i64) -> (r: i64)
    requires
        b != 0,
    ensures
        r as int == perl_mod(a as int, b as int),
{
    if b > 0 {
        euclid_mod(a as i128, b as i128) as i64
    } else {
        let m = euclid_mod(-(a as i128), -(b as i128));
        (-m) as i64
    }
}

/// The text of a message.
fn message(s: &str) -> (v: Vec<char>)
    ensures
        v@ == s@,
{
    str_chars(s)
}

/// The string a value stands for.
pub fn stringify_exec(v: &Scalar) -> (r: Vec<char>)
    requires
        scalar_wf(v@),
    ensures
        r@ == stringify(v@),
{
    let mut r: Vec<char> = Vec::new();
    push_stringify(&mut r, v);
    assert(r@ =~= stringify(v@));
    r
}

/// The exact equality of two character sequences.
pub fn chars_eq(a: &Vec<char>, b: &Vec<char>) -> (r: bool)
    ensures
        r == (a@ == b@),
{
    if a.len() != b.len() {
        return false;
    }
    let mut i: usize = 0;
    while i < a.len()
        invariant
            a@.len() == b@.len(),
            i <= a@.len(),
            forall|j: int| 0 <= j < i ==> a@[j] == b@[j],
        decreases a@.len() - i,
    {
        if a[i] != b[i] {
            return false;
        }
        i = i + 1;
    }
    assert(a@ =~= b@);
    true
}

/// The lexicographic order of two character sequences (see [`str_order`]).
pub fn str_order_exec(a: &Vec<char>, b: &Vec<char>) -> (r: i8)
    ensures
        r as int == str_order(a@, b@),
{
    let mut i: usize = 0;
    assert(a@.subrange(0, a@.len() as int) =~= a@);
    assert(b@.subrange(0, b@.len() as int) =~= b@);
    while i < a.len() && i < b.len() && a[i] == b[i]
        invariant
            i <= a@.len(),
            i <= b@.len(),
            str_order(a@, b@) == str_order(a@.subrange(i as int, a@.len() as int), b@.subrange(i as int, b@.len() as int)),
        decreases a@.len() - i,
    {
        let ghost sa = a@.subrange(i as int, a@.len() as int);
        let ghost sb = b@.subrange(i as int, b@.len() as int);
        assert(sa.drop_first() =~= a@.subrange(i + 1, a@.len() as int));
        assert(sb.drop_first() =~= b@.subrange(i + 1, b@.len() as int));
        i = i + 1;
    }
    let ghost sa = a@.subrange(i as int, a@.len() as int);
    let ghost sb = b@.subrange(i as int, b@.len() as int);
    if i == a.len() && i == b.len() {
        assert(sa.len() == 0 && sb.len() == 0);
        0
    } else if i == a.len() {
        assert(sa.len() == 0 && sb.len() > 0);
        -1
    } else if i == b.len() {
        assert(sa.len() > 0 && sb.len() == 0);
        1
    } else {
        assert(sa[0] == a@[i as int] && sb[0] == b@[i as int]);
        let ca = a[i];
        let cb = b[i];
        assert(ca != cb);
        if ca < cb {
            -1
        } else {
            1
        }
    }
}

/// `s` repeated `n` times.
fn repeat_exec(s: &Vec<char>, n: u64) -> (r: Vec<char>)
    ensures
        r@ == repeat(s@, n as nat),
{
    let mut r: Vec<char> = Vec::new();
    let mut i: u64 = 0;
    while i < n
        invariant
            i <= n,
            r@ == repeat(s@, i as nat),
        decreases n - i,
    {
        push_chars(&mut r, s);
        i = i + 1;
    }
    r
}

/// Perl's true or false value.
pub fn bool_exec(b: bool) -> (r: Scalar)
    ensures
        r@ == bool_value(b),
        scalar_wf(r@),
{
    if b {
        Scalar::Num(Num { n: 1, d: 1 })
    } else {
        let v: Vec<char> = Vec::new();
        assert(v@ =~= seq![]);
        Scalar::Str(v)
    }
}

/// The result of a number computation (see [`num_result`]).
fn num_result_exec(r: Option<Num>) -> (out: Result<Scalar, Vec<char>>)
    requires
        r matches Some(x) ==> num_wf(x),
    ensures
        match (out, num_result(r)) {
            (Ok(x), Ok(y)) => x@ == y && scalar_wf(x@),
            (Err(m), Err(n)) => m@ == n,
            _ => false,
        },
{
    match r {
        Some(x) => Ok(Scalar::Num(x)),
        None => Err(message("Integer overflow in arithmetic")),
    }
}

/// Applies a numeric operator (see [`apply_numeric`]).
pub fn apply_numeric_exec(op: BinOp, x: Num, y: Num) -> (out: Result<Scalar, Vec<char>>)
    requires
        num_wf(x),
        num_wf(y),
    ensures
        match (out, apply_numeric(op, x, y)) {
            (Ok(a), Ok(b)) => a@ == b && scalar_wf(a@),
            (Err(m), Err(n)) => m@ == n,
            _ => false,
        },
{
    match op {
        BinOp::Add => num_result_exec(num_add_exec(x, y)),
        BinOp::Sub => num_result_exec(num_sub_exec(x, y)),
        BinOp::Mul => num_result_exec(num_mul_exec(x, y)),
        BinOp::Div => {
            if y.n == 0 {
                Err(message("Illegal division by zero"))
            } else {
                num_result_exec(num_div_exec(x, y))
            }
        },
        BinOp::Mod => {
            let a = num_trunc_exec(x);
            let b = num_trunc_exec(y);
            if b == 0 {
                Err(message("Illegal modulus zero"))
            } else {
                let m = perl_mod_exec(a, b);
                Ok(Scalar::Num(Num { n: m, d: 1 }))
            }
        },
        BinOp::Pow => {
            if x.d != 1 || y.d != 1 {
                Err(message("Non-integer power is not supported"))
            } else if y.n >= 0 {
                match ipow_checked(x.n, y.n as u64) {
                    Some(v) => Ok(Scalar::Num(Num { n: v, d: 1 })),
                    None => Err(message("Integer overflow in arithmetic")),
                }
            } else if x.n == 0 {
                Err(message("Illegal division by zero"))
            } else {
                let e: u64 = (-(y.n as i128)) as u64;
                match ipow_checked(x.n, e) {
                    Some(p) => {
                        proof {
                            lemma_ipow_abs_mono(x.n as int, 0, e as nat);
                        }
                        let sign: i128 = if p < 0 { -1 } else { 1 };
                        let mag: i128 = if p < 0 { -(p as i128) } else { p as i128 };
                        assert(mag as int == abs(p as int) as int);
                        num_result_exec(normalize_exec(sign, mag))
                    },
                    None => Err(message("Integer overflow in arithmetic")),
                }
            }
        },
        BinOp::NumEq => Ok(bool_exec(num_compare_exec(x, y) == 0)),
        BinOp::NumNe => Ok(bool_exec(num_compare_exec(x, y) != 0)),
        BinOp::NumLt => Ok(bool_exec(num_compare_exec(x, y) < 0)),
        BinOp::NumGt => Ok(bool_exec(num_compare_exec(x, y) > 0)),
        BinOp::NumLe => Ok(bool_exec(num_compare_exec(x, y) <= 0)),
        BinOp::NumGe => Ok(bool_exec(num_compare_exec(x, y) >= 0)),
        BinOp::NumOrder => {
            let c = num_compare_exec(x, y);
            Ok(Scalar::Num(Num { n: c as i64, d: 1 }))
        },
        BinOp::BitAnd | BinOp::BitOr | BinOp::BitXor => {
            let a = num_trunc_exec(x) as u64;
            let b = num_trunc_exec(y) as u64;
            let u = match op {
                BinOp::BitAnd => a & b,
                BinOp::BitOr => a | b,
                _ => a ^ b,
            };
            if u <= 0x7FFF_FFFF_FFFF_FFFF {
                Ok(Scalar::Num(Num { n: u as i64, d: 1 }))
            } else {
                Err(message("Bitwise result out of range"))
            }
        },
        _ => Err(message("Integer overflow in arithmetic")),
    }
}

/// Applies a binary operator to two values (see [`apply_binop`]).
pub fn apply_binop_exec(op: BinOp, a: &Scalar, b: &Scalar) -> (out: Result<Scalar, Vec<char>>)
    requires
        scalar_wf(a@),
        scalar_wf(b@),
    ensures
        match (out, apply_binop(op, a@, b@)) {
            (Ok(x), Ok(y)) => x@ == y && scalar_wf(x@),
            (Err(m), Err(n)) => m@ == n,
            _ => false,
        },
{
    match op {
        BinOp::Concat => {
            let mut r: Vec<char> = Vec::new();
            push_stringify(&mut r, a);
            push_stringify(&mut r, b);
            assert(r@ =~= stringify(a@) + stringify(b@));
            Ok(Scalar::Str(r))
        },
        BinOp::Repeat => match numify_exec(b) {
            None => Err(message("Numeric string out of range")),
            Some(nb) => {
                assert(num_wf(nb));
                let n = num_trunc_exec(nb);
                let s = stringify_exec(a);
                if n <= 0 {
                    let v: Vec<char> = Vec::new();
                    assert(v@ =~= seq![]);
                    Ok(Scalar::Str(v))
                } else if {
                    assert((s.len() as u128) * (n as u128) < 0x1_0000_0000_0000_0000_0000_0000_0000_0000) by (nonlinear_arith)
                        requires s.len() <= usize::MAX, 0 < n <= i64::MAX, usize::MAX <= u64::MAX;
                    (s.len() as u128) * (n as u128) > (MAX_REPEAT as u128)
                } {
                    Err(message("Repeated string too long"))
                } else {
                    Ok(Scalar::Str(repeat_exec(&s, n as u64)))
                }
            },
        },
        BinOp::StrEq | BinOp::StrNe | BinOp::StrLt | BinOp::StrGt | BinOp::StrLe | BinOp::StrGe
        | BinOp::StrOrder => {
            let sa = stringify_exec(a);
            let sb = stringify_exec(b);
            match op {
                BinOp::StrEq => Ok(bool_exec(chars_eq(&sa, &sb))),
                BinOp::StrNe => Ok(bool_exec(!chars_eq(&sa, &sb))),
                _ => {
                    let c = str_order_exec(&sa, &sb);
                    match op {
                        BinOp::StrLt => Ok(bool_exec(c < 0)),
                        BinOp::StrGt => Ok(bool_exec(c > 0)),
                        BinOp::StrLe => Ok(bool_exec(c <= 0)),
                        BinOp::StrGe => Ok(bool_exec(c >= 0)),
                        _ => Ok(Scalar::Num(Num { n: c as i64, d: 1 })),
                    }
                },
            }
        },
        _ => match (numify_exec(a), numify_exec(b)) {
            (Some(x), Some(y)) => apply_numeric_exec(op, x, y),
            _ => Err(message("Numeric string out of range")),
        },
    }
}

/// Logical negation (see [`apply_not`]).
pub fn apply_not_exec(a: &Scalar) -> (r: Scalar)
    ensures
        r@ == apply_not(a@),
        scalar_wf(r@),
{
    bool_exec(!truthy_exec(a))
}

/// Arithmetic negation (see [`apply_neg`]).
pub fn apply_neg_exec(a: &Scalar) -> (out: Result<Scalar, Vec<char>>)
    requires
        scalar_wf(a@),
    ensures
        match (out, apply_neg(a@)) {
            (Ok(x), Ok(y)) => x@ == y && scalar_wf(x@),
            (Err(m), Err(n)) => m@ == n,
            _ => false,
        },
{
    match numify_exec(a) {
        None => Err(message("Numeric string out of range")),
        Some(x) => num_result_exec(num_sub_exec(Num { n: 0, d: 1 }, x)),
    }
}


/// `str_order` is antisymmetric, and 0 exactly on equal sequences.
pub proof fn lemma_str_order_antisym(a: Seq<char>, b: Seq<char>)
    ensures
        str_order(a, b) == -str_order(b, a),
        (str_order(a, b) == 0) == (a == b),
        -1 <= str_order(a, b) <= 1,
    decreases a.len(),
{
    if a.len() > 0 && b.len() > 0 && a[0] == b[0] {
        lemma_str_order_antisym(a.drop_first(), b.drop_first());
        if a.drop_first() == b.drop_first() {
            assert(a =~= seq![a[0]] + a.drop_first());
            assert(b =~= seq![b[0]] + b.drop_first());
        }
        if a == b {
            assert(a.drop_first() == b.drop_first());
        }
    } else if a.len() > 0 && b.len() > 0 {
        assert(a != b);
    } else if a.len() == 0 && b.len() > 0 {
        assert(a != b);
    } else if a.len() > 0 {
        assert(a != b);
    } else {
        assert(a =~= b);
    }
}

/// `str_order` is transitive.
pub proof fn lemma_str_order_trans(a: Seq<char>, b: Seq<char>, c: Seq<char>)
    requires
        str_order(a, b) < 0,
        str_order(b, c) < 0,
    ensures
        str_order(a, c) < 0,
    decreases a.len(),
{
    if a.len() > 0 && b.len() > 0 && c.len() > 0 && a[0] == b[0] && b[0] == c[0] {
        lemma_str_order_trans(a.drop_first(), b.drop_first(), c.drop_first());
    }
}


/// `s` sorts strictly before `t` in character order: at the first position where
/// they differ `s` has the smaller character, or `s` is a proper prefix of `t`.
pub open spec fn sorts_before(s: Seq<char>, t: Seq<char>) -> bool {
    exists|k: int|
        0 <= k < t.len() && k <= s.len() && #[trigger] s.subrange(0, k) == t.subrange(0, k)
            && (k == s.len() || s[k] < t[k])
}

/// `str_order` is negative exactly when the first sequence sorts before the second.
proof fn lemma_str_order_before(s: Seq<char>, t: Seq<char>)
    ensures
        (str_order(s, t) < 0) == sorts_before(s, t),
    decreases s.len(),
{
    if s.len() == 0 && t.len() == 0 {
    } else if s.len() == 0 {
        assert(s.subrange(0, 0) =~= t.subrange(0, 0));
    } else if t.len() == 0 {
    } else if s[0] < t[0] {
        assert(s.subrange(0, 0) =~= t.subrange(0, 0));
    } else if s[0] > t[0] {
        if sorts_before(s, t) {
            let k = choose|k: int|
                0 <= k < t.len() && k <= s.len() && #[trigger] s.subrange(0, k) == t.subrange(0, k)
                    && (k == s.len() || s[k] < t[k]);
            if k > 0 {
                assert(s.subrange(0, k)[0] == t.subrange(0, k)[0]);
            }
        }
    } else {
        let s1 = s.drop_first();
        let t1 = t.drop_first();
        lemma_str_order_before(s1, t1);
        if sorts_before(s, t) {
            let k = choose|k: int|
                0 <= k < t.len() && k <= s.len() && #[trigger] s.subrange(0, k) == t.subrange(0, k)
                    && (k == s.len() || s[k] < t[k]);
            assert(k >= 1);
            assert(s1.subrange(0, k - 1) =~= s.subrange(0, k).drop_first());
            assert(t1.subrange(0, k - 1) =~= t.subrange(0, k).drop_first());
            assert(s1.subrange(0, k - 1) == t1.subrange(0, k - 1));
            if k < s.len() {
                assert(s1[k - 1] == s[k]);
            }
            assert(sorts_before(s1, t1));
        }
        if sorts_before(s1, t1) {
            let k = choose|k: int|
                0 <= k < t1.len() && k <= s1.len() && #[trigger] s1.subrange(0, k) == t1.subrange(0, k)
                    && (k == s1.len() || s1[k] < t1[k]);
            assert(s.subrange(0, k + 1) =~= seq![s[0]] + s1.subrange(0, k));
            assert(t.subrange(0, k + 1) =~= seq![t[0]] + t1.subrange(0, k));
            assert(s.subrange(0, k + 1) == t.subrange(0, k + 1));
            assert(sorts_before(s, t));
        }
    }
}

/// Perl's string comparisons follow character order: `lt` is true exactly when the
/// left operand sorts before the right one, `gt` when the right one sorts before
/// the left one, `le` and `ge` are their negations the other way round, `eq` and
/// `ne` compare the texts, and `cmp` gives -1, 0 or 1 accordingly. In particular
/// `a gt b` is `b lt a`.
pub proof fn law_string_comparisons(a: ScalarM, b: ScalarM)
    ensures
        apply_binop(BinOp::StrLt, a, b) == Ok::<ScalarM, Seq<char>>(bool_value(sorts_before(stringify(a), stringify(b)))),
        apply_binop(BinOp::StrGt, a, b) == Ok::<ScalarM, Seq<char>>(bool_value(sorts_before(stringify(b), stringify(a)))),
        apply_binop(BinOp::StrLe, a, b) == Ok::<ScalarM, Seq<char>>(bool_value(!sorts_before(stringify(b), stringify(a)))),
        apply_binop(BinOp::StrGe, a, b) == Ok::<ScalarM, Seq<char>>(bool_value(!sorts_before(stringify(a), stringify(b)))),
        apply_binop(BinOp::StrEq, a, b) == Ok::<ScalarM, Seq<char>>(bool_value(stringify(a) == stringify(b))),
        apply_binop(BinOp::StrNe, a, b) == Ok::<ScalarM, Seq<char>>(bool_value(stringify(a) != stringify(b))),
        apply_binop(BinOp::StrOrder, a, b) == Ok::<ScalarM, Seq<char>>(ScalarM::Num(int_num(
            if sorts_before(stringify(a), stringify(b)) { -1i64 } else if stringify(a) == stringify(b) { 0i64 } else { 1i64 },
        ))),
        apply_binop(BinOp::StrGt, a, b) == apply_binop(BinOp::StrLt, b, a),
        apply_binop(BinOp::StrGe, a, b) == apply_binop(BinOp::StrLe, b, a),
        sorts_before(stringify(a), stringify(b)) ==> !sorts_before(stringify(b), stringify(a)),
{
    let s = stringify(a);
    let t = stringify(b);
    lemma_str_order_antisym(s, t);
    lemma_str_order_before(s, t);
    lemma_str_order_before(t, s);
}


/// Perl's numeric comparisons follow the order of the numbers the operands stand
/// for (`n / d` with a positive `d`, compared by cross-multiplying): `<` is true
/// exactly when the left number is smaller, `>` is `<` with the operands swapped,
/// `==` compares the numbers, `<=`, `>=` and `!=` are the negations of `>`, `<` and
/// `==`, and `<=>` gives -1, 0 or 1 accordingly.
pub proof fn law_numeric_comparisons(a: ScalarM, b: ScalarM)
    requires
        numify(a) matches Some(x) && x.d > 0,
        numify(b) matches Some(y) && y.d > 0,
    ensures
        ({
            let x = numify(a)->Some_0;
            let y = numify(b)->Some_0;
            let lt = (x.n as int) * (y.d as int) < (y.n as int) * (x.d as int);
            let gt = (y.n as int) * (x.d as int) < (x.n as int) * (y.d as int);
            &&& apply_binop(BinOp::NumLt, a, b) == Ok::<ScalarM, Seq<char>>(bool_value(lt))
            &&& apply_binop(BinOp::NumGt, a, b) == Ok::<ScalarM, Seq<char>>(bool_value(gt))
            &&& apply_binop(BinOp::NumLe, a, b) == Ok::<ScalarM, Seq<char>>(bool_value(!gt))
            &&& apply_binop(BinOp::NumGe, a, b) == Ok::<ScalarM, Seq<char>>(bool_value(!lt))
            &&& apply_binop(BinOp::NumEq, a, b) == Ok::<ScalarM, Seq<char>>(bool_value(!lt && !gt))
            &&& apply_binop(BinOp::NumNe, a, b) == Ok::<ScalarM, Seq<char>>(bool_value(lt || gt))
            &&& apply_binop(BinOp::NumOrder, a, b) == Ok::<ScalarM, Seq<char>>(ScalarM::Num(int_num(
                if lt { -1i64 } else if gt { 1i64 } else { 0i64 },
            )))
        }),
        apply_binop(BinOp::NumGt, a, b) == apply_binop(BinOp::NumLt, b, a),
        apply_binop(BinOp::NumGe, a, b) == apply_binop(BinOp::NumLe, b, a),
{
}

} // verus!
