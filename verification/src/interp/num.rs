//! Perl numbers as exact fractions: an integer is a fraction with denominator 1;
//! a quotient that is not whole stays an exact fraction in lowest terms (where
//! Perl would hold the nearest double).
use vstd::prelude::*;

verus! {

/// A number `n / d` with `d >= 1` and `n / d` in lowest terms.
#[derive(Debug, Clone, Copy, PartialEq, Eq, Structural)]
pub struct Num {
    pub n: i64,
    pub d: i64,
}

/// Greatest common divisor.
pub open spec fn gcd(a: nat, b: nat) -> nat
    decreases b,
{
    if b == 0 {
        a
    } else {
        gcd(b, a % b)
    }
}

/// `|x|`.
pub open spec fn abs(x: int) -> nat {
    if x < 0 { (-x) as nat } else { x as nat }
}

/// The number `n / d` (for `d > 0`) in lowest terms, if it fits in `i64` parts.
pub open spec fn normalize(n: int, d: int) -> Option<Num> {
    let g = gcd(abs(n), d as nat);
    let g = if g == 0 { 1 } else { g };
    let nn = n / (g as int);
    let dd = d / (g as int);
    if i64::MIN <= nn <= i64::MAX && 1 <= dd <= i64::MAX {
        Some(Num { n: nn as i64, d: dd as i64 })
    } else {
        None
    }
}

/// The integer `i` as a number.
pub open spec fn int_num(i: i64) -> Num {
    Num { n: i, d: 1 }
}

/// `a + b`, if it fits.
pub open spec fn num_add(a: Num, b: Num) -> Option<Num> {
    normalize((a.n as int) * (b.d as int) + (b.n as int) * (a.d as int), (a.d as int) * (b.d as int))
}

/// `a - b`, if it fits.
pub open spec fn num_sub(a: Num, b: Num) -> Option<Num> {
    normalize((a.n as int) * (b.d as int) - (b.n as int) * (a.d as int), (a.d as int) * (b.d as int))
}

/// `a * b`, if it fits.
pub open spec fn num_mul(a: Num, b: Num) -> Option<Num> {
    normalize((a.n as int) * (b.n as int), (a.d as int) * (b.d as int))
}

/// `a / b` for `b != 0`, if it fits.
pub open spec fn num_div(a: Num, b: Num) -> Option<Num> {
    if b.n < 0 {
        normalize(-((a.n as int) * (b.d as int)), (a.d as int) * (-(b.n as int)))
    } else {
        normalize((a.n as int) * (b.d as int), (a.d as int) * (b.n as int))
    }
}

/// The comparison of `a` and `b`: -1, 0 or 1.
pub open spec fn num_compare(a: Num, b: Num) -> int {
    let l = (a.n as int) * (b.d as int);
    let r = (b.n as int) * (a.d as int);
    if l < r { -1 } else if l == r { 0 } else { 1 }
}

/// `a` truncated toward zero.
pub open spec fn num_trunc(a: Num) -> int {
    if a.n >= 0 {
        (a.n as int) / (a.d as int)
    } else {
        -((-(a.n as int)) / (a.d as int))
    }
}

proof fn lemma_gcd_props(a: nat, b: nat)
    ensures
        gcd(a, b) <= a || b > 0,
        (a > 0 || b > 0) ==> gcd(a, b) > 0,
    decreases b,
{
    if b > 0 {
        lemma_gcd_props(b, a % b);
    }
}

/// Greatest common divisor of two `u128`s.
fn gcd_exec(a: u128, b: u128) -> (g: u128)
    ensures
        g == gcd(a as nat, b as nat),
    decreases b,
{
    if b == 0 {
        a
    } else {
        gcd_exec(b, a % b)
    }
}

/// `n / d` in lowest terms, if it fits (`d > 0`).
pub fn normalize_exec(n: i128, d: i128) -> (r: Option<Num>)
    requires
        d > 0,
        n > i128::MIN,
    ensures
        r == normalize(n as int, d as int),
{
    let an: u128 = if n < 0 { (-n) as u128 } else { n as u128 };
    let g0 = gcd_exec(an, d as u128);
    proof {
        lemma_gcd_props(an as nat, d as nat);
    }
    let g: u128 = if g0 == 0 { 1 } else { g0 };
    assert(g as nat == (if gcd(abs(n as int), d as nat) == 0 { 1 } else { gcd(abs(n as int), d as nat) }));
    assert(g <= i128::MAX) by {
        lemma_gcd_le(an as nat, d as nat);
    }
    proof {
        lemma_gcd_divides(an as nat, d as nat);
        lemma_exact_div(n as int, g as int);
        lemma_exact_div(d as int, g as int);
    }
    let gi = g as i128;
    let nn: i128 = if n < 0 { -((an / g) as i128) } else { (an / g) as i128 };
    let dd: i128 = d / gi;
    if nn >= (i64::MIN as i128) && nn <= (i64::MAX as i128) && dd >= 1 && dd <= (i64::MAX as i128) {
        Some(Num { n: nn as i64, d: dd as i64 })
    } else {
        None
    }
}

proof fn lemma_gcd_le(a: nat, b: nat)
    requires
        b > 0,
    ensures
        gcd(a, b) <= if a > b { a } else { b },
    decreases b,
{
    if a % b > 0 {
        lemma_gcd_le(b, a % b);
    } else {
        assert(gcd(b, 0) == b);
    }
}

proof fn lemma_gcd_divides(a: nat, b: nat)
    ensures
        gcd(a, b) > 0 ==> a % gcd(a, b) == 0 && b % gcd(a, b) == 0,
    decreases b,
{
    if b > 0 {
        lemma_gcd_divides(b, a % b);
        let g = gcd(a, b);
        if g > 0 {
            let q = a / b;
            let r = a % b;
            vstd::arithmetic::div_mod::lemma_fundamental_div_mod(a as int, b as int);
            let k1 = b / g;
            let k2 = r / g;
            vstd::arithmetic::div_mod::lemma_fundamental_div_mod(b as int, g as int);
            vstd::arithmetic::div_mod::lemma_fundamental_div_mod(r as int, g as int);
            assert(a == g * (q * k1 + k2)) by (nonlinear_arith)
                requires
                    a == b * q + r,
                    b == g * k1,
                    r == g * k2,
            ;
            vstd::arithmetic::div_mod::lemma_mod_multiples_basic((q * k1 + k2) as int, g as int);
            assert((q * k1 + k2) * g == g * (q * k1 + k2)) by (nonlinear_arith);
        }
    }
}

proof fn lemma_exact_div(n: int, g: int)
    requires
        g > 0,
        abs(n) % (g as nat) == 0,
    ensures
        n % g == 0,
        n == (n / g) * g,
        n < 0 ==> n / g == -(abs(n) / (g as nat)),
        n >= 0 ==> n / g == abs(n) / (g as nat),
{
    let a = abs(n) as int;
    vstd::arithmetic::div_mod::lemma_fundamental_div_mod(a, g);
    let k = a / g;
    assert(a == k * g) by (nonlinear_arith)
        requires
            a == g * k + 0,
    ;
    if n < 0 {
        assert(n == (-k) * g) by (nonlinear_arith)
            requires
                n == -a,
                a == k * g,
        ;
        vstd::arithmetic::div_mod::lemma_div_multiples_vanish(-k, g);
        assert(g * (-k) == (-k) * g) by (nonlinear_arith);
        vstd::arithmetic::div_mod::lemma_mod_multiples_basic(-k, g);
    } else {
        vstd::arithmetic::div_mod::lemma_div_multiples_vanish(k, g);
        assert(g * k == k * g) by (nonlinear_arith);
        vstd::arithmetic::div_mod::lemma_mod_multiples_basic(k, g);
    }
}

proof fn lemma_mul_bound(x: int, y: int)
    requires
        -0x8000_0000_0000_0000 <= x <= 0x8000_0000_0000_0000,
        -0x8000_0000_0000_0000 <= y <= 0x8000_0000_0000_0000,
    ensures
        -0x4000_0000_0000_0000_0000_0000_0000_0000 <= x * y <= 0x4000_0000_0000_0000_0000_0000_0000_0000,
{
    assert(-0x4000_0000_0000_0000_0000_0000_0000_0000 <= x * y <= 0x4000_0000_0000_0000_0000_0000_0000_0000) by (nonlinear_arith)
        requires
            -0x8000_0000_0000_0000 <= x <= 0x8000_0000_0000_0000,
            -0x8000_0000_0000_0000 <= y <= 0x8000_0000_0000_0000,
    ;
}

/// A well-formed number has a positive denominator.
pub open spec fn num_wf(x: Num) -> bool {
    x.d >= 1
}

/// `a + b`, if it fits.
pub fn num_add_exec(a: Num, b: Num) -> (r: Option<Num>)
    requires
        num_wf(a),
        num_wf(b),
    ensures
        r == num_add(a, b),
        r matches Some(x) ==> num_wf(x),
{
    let an = a.n as i128;
    let ad = a.d as i128;
    let bn = b.n as i128;
    let bd = b.d as i128;
    proof {
        lemma_mul_bound(an as int, bd as int);
        lemma_mul_bound(bn as int, ad as int);
        lemma_mul_bound(ad as int, bd as int);
    }
    assert(-0x8000_0000_0000_0000_0000_0000_0000_0000 < an * bd + bn * ad < 0x8000_0000_0000_0000_0000_0000_0000_0000) by (nonlinear_arith)
        requires
            -0x8000_0000_0000_0000 <= an < 0x8000_0000_0000_0000,
            -0x8000_0000_0000_0000 <= bn < 0x8000_0000_0000_0000,
            1 <= ad < 0x8000_0000_0000_0000,
            1 <= bd < 0x8000_0000_0000_0000,
    ;
    assert(0 < ad * bd < 0x8000_0000_0000_0000_0000_0000_0000_0000) by (nonlinear_arith)
        requires
            1 <= ad < 0x8000_0000_0000_0000,
            1 <= bd < 0x8000_0000_0000_0000,
    ;
    normalize_exec(an * bd + bn * ad, ad * bd)
}

/// `a - b`, if it fits.
pub fn num_sub_exec(a: Num, b: Num) -> (r: Option<Num>)
    requires
        num_wf(a),
        num_wf(b),
    ensures
        r == num_sub(a, b),
        r matches Some(x) ==> num_wf(x),
{
    let an = a.n as i128;
    let ad = a.d as i128;
    let bn = b.n as i128;
    let bd = b.d as i128;
    proof {
        lemma_mul_bound(an as int, bd as int);
        lemma_mul_bound(bn as int, ad as int);
        lemma_mul_bound(ad as int, bd as int);
    }
    assert(-0x8000_0000_0000_0000_0000_0000_0000_0000 < an * bd - bn * ad < 0x8000_0000_0000_0000_0000_0000_0000_0000) by (nonlinear_arith)
        requires
            -0x8000_0000_0000_0000 <= an < 0x8000_0000_0000_0000,
            -0x8000_0000_0000_0000 <= bn < 0x8000_0000_0000_0000,
            1 <= ad < 0x8000_0000_0000_0000,
            1 <= bd < 0x8000_0000_0000_0000,
    ;
    assert(0 < ad * bd < 0x8000_0000_0000_0000_0000_0000_0000_0000) by (nonlinear_arith)
        requires
            1 <= ad < 0x8000_0000_0000_0000,
            1 <= bd < 0x8000_0000_0000_0000,
    ;
    normalize_exec(an * bd - bn * ad, ad * bd)
}

/// `a * b`, if it fits.
pub fn num_mul_exec(a: Num, b: Num) -> (r: Option<Num>)
    requires
        num_wf(a),
        num_wf(b),
    ensures
        r == num_mul(a, b),
        r matches Some(x) ==> num_wf(x),
{
    let an = a.n as i128;
    let ad = a.d as i128;
    let bn = b.n as i128;
    let bd = b.d as i128;
    proof {
        lemma_mul_bound(an as int, bn as int);
        lemma_mul_bound(ad as int, bd as int);
    }
    assert(-0x8000_0000_0000_0000_0000_0000_0000_0000 < an * bn < 0x8000_0000_0000_0000_0000_0000_0000_0000) by (nonlinear_arith)
        requires
            -0x8000_0000_0000_0000 <= an < 0x8000_0000_0000_0000,
            -0x8000_0000_0000_0000 <= bn < 0x8000_0000_0000_0000,
    ;
    assert(0 < ad * bd < 0x8000_0000_0000_0000_0000_0000_0000_0000) by (nonlinear_arith)
        requires
            1 <= ad < 0x8000_0000_0000_0000,
            1 <= bd < 0x8000_0000_0000_0000,
    ;
    normalize_exec(an * bn, ad * bd)
}

/// `a / b` for `b != 0`, if it fits.
pub fn num_div_exec(a: Num, b: Num) -> (r: Option<Num>)
    requires
        num_wf(a),
        num_wf(b),
        b.n != 0,
    ensures
        r == num_div(a, b),
        r matches Some(x) ==> num_wf(x),
{
    let an = a.n as i128;
    let ad = a.d as i128;
    let bn = b.n as i128;
    let bd = b.d as i128;
    proof {
        lemma_mul_bound(an as int, bd as int);
        lemma_mul_bound(ad as int, bn as int);
        lemma_mul_bound(ad as int, -(bn as int));
    }
    assert(-0x8000_0000_0000_0000_0000_0000_0000_0000 < an * bd < 0x8000_0000_0000_0000_0000_0000_0000_0000) by (nonlinear_arith)
        requires
            -0x8000_0000_0000_0000 <= an < 0x8000_0000_0000_0000,
            1 <= bd < 0x8000_0000_0000_0000,
    ;
    if bn < 0 {
        assert(0 < ad * (-bn) < 0x8000_0000_0000_0000_0000_0000_0000_0000) by (nonlinear_arith)
            requires
                1 <= ad < 0x8000_0000_0000_0000,
                -0x8000_0000_0000_0000 <= bn < 0,
        ;
        normalize_exec(-(an * bd), ad * (-bn))
    } else {
        assert(0 < ad * bn < 0x8000_0000_0000_0000_0000_0000_0000_0000) by (nonlinear_arith)
            requires
                1 <= ad < 0x8000_0000_0000_0000,
                0 < bn < 0x8000_0000_0000_0000,
        ;
        normalize_exec(an * bd, ad * bn)
    }
}

/// The comparison of `a` and `b`: -1, 0 or 1.
pub fn num_compare_exec(a: Num, b: Num) -> (r: i8)
    requires
        num_wf(a),
        num_wf(b),
    ensures
        r as int == num_compare(a, b),
{
    proof {
        lemma_mul_bound(a.n as int, b.d as int);
        lemma_mul_bound(b.n as int, a.d as int);
    }
    let l = (a.n as i128) * (b.d as i128);
    let r = (b.n as i128) * (a.d as i128);
    if l < r { -1 } else if l == r { 0 } else { 1 }
}

/// `a` truncated toward zero.
pub fn num_trunc_exec(a: Num) -> (r: i64)
    requires
        num_wf(a),
    ensures
        r as int == num_trunc(a),
{
    if a.n >= 0 {
        a.n / a.d
    } else {
        let m = (-(a.n as i128)) / (a.d as i128);
        assert(m <= 0x8000_0000_0000_0000) by (nonlinear_arith)
            requires
                m == (-(a.n as int)) / (a.d as int),
                a.d >= 1,
                -(a.n as int) <= 0x8000_0000_0000_0000,
        ;
        (-m) as i64
    }
}

} // verus!
