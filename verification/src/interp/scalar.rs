//! Perl scalar values of the interpreter (`undef`, numbers, strings) and their
//! conversions: truthiness, numification and stringification.
use vstd::prelude::*;
use crate::interp::num::{Num, num_wf, int_num};
use crate::text::{decimal, pow10};

verus! {

/// A scalar value.
#[derive(Debug)]
pub enum Scalar {
    Undef,
    Num(Num),
    Str(Vec<char>),
}

/// The model of a [`Scalar`].
pub enum ScalarM {
    Undef,
    Num(Num),
    Str(Seq<char>),
}

impl View for Scalar {
    type V = ScalarM;

    open spec fn view(&self) -> ScalarM {
        match self {
            Scalar::Undef => ScalarM::Undef,
            Scalar::Num(x) => ScalarM::Num(*x),
            Scalar::Str(s) => ScalarM::Str(s@),
        }
    }
}

/// Numbers inside a scalar are well formed.
pub open spec fn scalar_wf(v: ScalarM) -> bool {
    v matches ScalarM::Num(x) ==> num_wf(x)
}

/// Perl truth: `undef`, `0`, `""` and `"0"` are false.
pub open spec fn truthy(v: ScalarM) -> bool {
    match v {
        ScalarM::Undef => false,
        ScalarM::Num(x) => x.n != 0,
        ScalarM::Str(s) => !(s.len() == 0 || s == seq!['0']),
    }
}

/// Perl's false value (the empty string).
pub open spec fn false_value() -> ScalarM {
    ScalarM::Str(seq![])
}

/// Perl's true value (1).
pub open spec fn true_value() -> ScalarM {
    ScalarM::Num(int_num(1))
}

/// The Perl boolean for `b`.
pub open spec fn bool_value(b: bool) -> ScalarM {
    if b { true_value() } else { false_value() }
}

/// Whitespace skipped before a number in a string.
pub open spec fn is_space(c: char) -> bool {
    c == ' ' || c == '\t' || c == '\n' || c == '\r' || c == '\x0c'
}

/// Whether `c` is a decimal digit.
pub open spec fn is_digit_char(c: char) -> bool {
    '0' <= c <= '9'
}

/// The first position at or after `i` that is not whitespace.
pub open spec fn skip_space(s: Seq<char>, i: int) -> int
    decreases s.len() - i,
{
    if 0 <= i < s.len() && is_space(s[i]) {
        skip_space(s, i + 1)
    } else {
        i
    }
}

/// The end of the run of digits starting at `i`.
pub open spec fn digits_end(s: Seq<char>, i: int) -> int
    decreases s.len() - i,
{
    if 0 <= i < s.len() && is_digit_char(s[i]) {
        digits_end(s, i + 1)
    } else {
        i
    }
}

/// The value of the digits `s[i..j]`.
pub open spec fn digits_val(s: Seq<char>, i: int, j: int) -> nat
    decreases j - i,
{
    if j <= i {
        0
    } else {
        digits_val(s, i, j - 1) * 10 + ((s[j - 1] as u32) - ('0' as u32)) as nat
    }
}

/// The number a string stands for: after leading whitespace, an optional sign and
/// the longest run of digits (none counts as 0); `None` when that integer does not
/// fit in an `i64`. Anything after the digits, including a fractional part, is
/// ignored.
pub open spec fn numify_str(s: Seq<char>) -> Option<Num> {
    let i0 = skip_space(s, 0);
    let neg = i0 < s.len() && s[i0] == '-';
    let i1 = if i0 < s.len() && (s[i0] == '-' || s[i0] == '+') { i0 + 1 } else { i0 };
    let j = digits_end(s, i1);
    let v = digits_val(s, i1, j);
    let signed: int = if neg { -(v as int) } else { v as int };
    if i64::MIN <= signed <= i64::MAX {
        Some(int_num(signed as i64))
    } else {
        None
    }
}

/// The number a scalar stands for (`undef` is 0).
pub open spec fn numify(v: ScalarM) -> Option<Num> {
    match v {
        ScalarM::Undef => Some(int_num(0)),
        ScalarM::Num(x) => Some(x),
        ScalarM::Str(s) => numify_str(s),
    }
}

/// The decimal text of an integer.
pub open spec fn int_str(i: int) -> Seq<char> {
    if i < 0 {
        seq!['-'] + decimal((-i) as nat)
    } else {
        decimal(i as nat)
    }
}

/// How many zeros follow the decimal point of `a / d` (for `0 < a < d`) before its
/// first non-zero digit.
pub open spec fn zeros_after_point(a: nat, d: nat) -> nat
    decreases d - a,
{
    if a == 0 || a * 10 >= d {
        0
    } else {
        1 + zeros_after_point(a * 10, d)
    }
}

/// `s` with trailing `'0'` characters removed.
pub open spec fn trim_zeros(s: Seq<char>) -> Seq<char>
    decreases s.len(),
{
    if s.len() > 0 && s.last() == '0' {
        trim_zeros(s.drop_last())
    } else {
        s
    }
}

/// `s` padded on the left with `'0'` to `k` characters.
pub open spec fn zero_pad(s: Seq<char>, k: nat) -> Seq<char> {
    if s.len() < k {
        Seq::new((k - s.len()) as nat, |i: int| '0') + s
    } else {
        s
    }
}

/// The decimal text of `m / 10^k`, without trailing fractional zeros.
pub open spec fn scaled_str(m: nat, k: nat) -> Seq<char> {
    let p = pow10(k);
    let ip = m / p;
    let fp = m % p;
    if fp == 0 {
        decimal(ip)
    } else {
        decimal(ip) + seq!['.'] + trim_zeros(zero_pad(decimal(fp), k))
    }
}

/// The fractional digits kept when printing `a / d`: fifteen significant digits.
pub open spec fn frac_places(a: nat, d: nat) -> nat {
    let q = a / d;
    if q > 0 {
        let l = decimal(q).len();
        if l < 15 { (15 - l) as nat } else { 0 }
    } else {
        15 + zeros_after_point(a, d)
    }
}

/// The text of the fraction `n / d` (`d > 1`, lowest terms): its value rounded
/// half up to fifteen significant digits, in plain decimal notation.
pub open spec fn frac_str(n: int, d: nat) -> Seq<char> {
    let a = abs_nat(n);
    let k = frac_places(a, d);
    let m = (a * pow10(k) * 2 + d) / (2 * d);
    let body = scaled_str(m, k);
    if n < 0 {
        seq!['-'] + body
    } else {
        body
    }
}

/// `|n|`.
pub open spec fn abs_nat(n: int) -> nat {
    if n < 0 { (-n) as nat } else { n as nat }
}

/// The text of a number.
pub open spec fn num_str(x: Num) -> Seq<char> {
    if x.d == 1 {
        int_str(x.n as int)
    } else {
        frac_str(x.n as int, x.d as nat)
    }
}

/// The string a scalar stands for (`undef` is empty).
pub open spec fn stringify(v: ScalarM) -> Seq<char> {
    match v {
        ScalarM::Undef => seq![],
        ScalarM::Num(x) => num_str(x),
        ScalarM::Str(s) => s,
    }
}

/// Appends the decimal digits of `n`.
pub fn push_decimal_chars(out: &mut Vec<char>, n: u128)
    ensures
        final(out)@ == old(out)@ + decimal(n as nat),
    decreases n,
{
    if n >= 10 {
        push_decimal_chars(out, n / 10);
    }
    let d = (n % 10) as u32;
    let c = digit(d);
    out.push(c);
    proof {
        if n >= 10 {
            assert(decimal(n as nat) == decimal((n / 10) as nat).push(crate::text::digit_char((n % 10) as nat)));
        }
    }
}

/// The character of the digit `d`.
fn digit(d: u32) -> (c: char)
    requires
        d < 10,
    ensures
        c == crate::text::digit_char(d as nat),
{
    if d == 0 { '0' }
    else if d == 1 { '1' }
    else if d == 2 { '2' }
    else if d == 3 { '3' }
    else if d == 4 { '4' }
    else if d == 5 { '5' }
    else if d == 6 { '6' }
    else if d == 7 { '7' }
    else if d == 8 { '8' }
    else { '9' }
}

proof fn lemma_decimal_len_bound(n: nat, k: nat)
    requires
        k >= 1,
        n < pow10(k),
    ensures
        decimal(n).len() <= k,
    decreases k,
{
    if n >= 10 {
        if k == 1 {
            assert(pow10(1) == 10) by {
                reveal_with_fuel(pow10, 2);
            }
        } else {
            let p = pow10((k - 1) as nat);
            assert(n / 10 < p) by (nonlinear_arith)
                requires
                    n < 10 * p,
            ;
            lemma_decimal_len_bound(n / 10, (k - 1) as nat);
        }
    }
}

/// The number of decimal digits of `n`.
fn decimal_len_u128(n: u128) -> (l: u32)
    ensures
        l as nat == decimal(n as nat).len(),
    decreases n,
{
    proof {
        assert(pow10(40) == 10000000000000000000000000000000000000000) by {
            reveal_with_fuel(pow10, 41);
        }
        lemma_decimal_len_bound(n as nat, 40);
    }
    if n < 10 {
        1
    } else {
        let l = decimal_len_u128(n / 10);
        proof {
            assert(decimal(n as nat) == decimal((n / 10) as nat).push(crate::text::digit_char((n % 10) as nat)));
        }
        l + 1
    }
}

/// Ten to the power `k` (`k <= 38`).
fn pow10_u128(k: u32) -> (p: u128)
    requires
        k <= 38,
    ensures
        p as nat == pow10(k as nat),
{
    let mut p: u128 = 1;
    let mut i: u32 = 0;
    while i < k
        invariant
            i <= k <= 38,
            p as nat == pow10(i as nat),
        decreases k - i,
    {
        proof {
            lemma_pow10_mono(i as nat, 37);
            assert(pow10(37) == 10000000000000000000000000000000000000) by {
                reveal_with_fuel(pow10, 38);
            }
        }
        p = p * 10;
        i = i + 1;
    }
    p
}

proof fn lemma_pow10_mono(i: nat, j: nat)
    requires
        i <= j,
    ensures
        pow10(i) <= pow10(j),
        pow10(i) >= 1,
    decreases j,
{
    if i < j {
        lemma_pow10_mono(i, (j - 1) as nat);
    } else if i > 0 {
        lemma_pow10_mono((i - 1) as nat, (i - 1) as nat);
    }
}

/// Appends the decimal text of the integer `i`.
pub fn push_int(out: &mut Vec<char>, i: i64)
    ensures
        final(out)@ == old(out)@ + int_str(i as int),
{
    if i < 0 {
        out.push('-');
        let a: u128 = (-(i as i128)) as u128;
        push_decimal_chars(out, a);
        assert(out@ =~= old(out)@ + int_str(i as int));
    } else {
        push_decimal_chars(out, i as u128);
    }
}

proof fn lemma_pow10_add(i: nat, j: nat)
    ensures
        pow10(i + j) == pow10(i) * pow10(j),
    decreases i,
{
    if i == 0 {
        assert(pow10(0) == 1);
        assert(i + j == j);
    } else {
        lemma_pow10_add((i - 1) as nat, j);
        assert(pow10(i) == 10 * pow10((i - 1) as nat));
        assert((i + j) as nat - 1 == (i - 1 + j) as nat);
        assert(pow10(i + j) == 10 * pow10((i - 1 + j) as nat));
        assert(10 * (pow10((i - 1) as nat) * pow10(j)) == (10 * pow10((i - 1) as nat)) * pow10(j)) by (nonlinear_arith);
    }
}

proof fn lemma_zeros_step(a: nat, d: nat, z: nat)
    requires
        a > 0,
        a * pow10(z) * 10 < d,
    ensures
        zeros_after_point(a * pow10(z), d) == 1 + zeros_after_point(a * pow10(z + 1), d),
{
    assert(a * pow10(z + 1) == a * pow10(z) * 10) by {
        assert(pow10(z + 1) == 10 * pow10(z));
        assert(a * (10 * pow10(z)) == a * pow10(z) * 10) by (nonlinear_arith);
    }
    assert(a * pow10(z) > 0) by {
        lemma_pow10_mono(0, z);
        assert(a * pow10(z) >= 1) by (nonlinear_arith)
            requires
                a >= 1,
                pow10(z) >= 1,
        ;
    }
}

/// How many zeros follow the point in `a / d` (`a < d < 2^63`), and `a * 10^z`.
fn zeros_exec(a: u128, du: u128) -> (r: (u32, u128))
    requires
        a < du,
        1 < du < 0x8000_0000_0000_0000,
    ensures
        r.0 as nat == zeros_after_point(a as nat, du as nat),
        r.1 as nat == (a as nat) * pow10(r.0 as nat),
        r.1 < du,
        r.0 <= 18,
{
    let ghost an = a as nat;
    let ghost dn = du as nat;
    proof {
        assert(pow10(19) == 10000000000000000000) by {
            reveal_with_fuel(pow10, 20);
        }
        assert(pow10(0) == 1);
    }
    let mut x: u128 = a;
    let mut z: u32 = 0;
    while x != 0 && x * 10 < du
        invariant
            an == a as nat,
            dn == du as nat,
            1 < du < 0x8000_0000_0000_0000,
            pow10(19) == 10000000000000000000,
            x as nat == an * pow10(z as nat),
            x < du,
            z <= 18,
            zeros_after_point(an, dn) == z + zeros_after_point(x as nat, dn),
        decreases du - x,
    {
        proof {
            assert(an >= 1) by (nonlinear_arith)
                requires
                    x as nat == an * pow10(z as nat),
                    x != 0,
            ;
            lemma_zeros_step(an, dn, z as nat);
            assert(an * pow10(z as nat + 1) == x * 10) by {
                assert(pow10(z as nat + 1) == 10 * pow10(z as nat));
                assert(an * (10 * pow10(z as nat)) == an * pow10(z as nat) * 10) by (nonlinear_arith);
            }
            if z + 1 > 18 {
                lemma_pow10_mono(19, z as nat + 1);
                assert(an * pow10(z as nat + 1) >= pow10(z as nat + 1)) by (nonlinear_arith)
                    requires
                        an >= 1,
                ;
                assert(false);
            }
        }
        x = x * 10;
        z = z + 1;
    }
    (z, x)
}

/// Appends `s[0..j]` where `j` drops the trailing `'0'` characters of `s`.
fn push_trimmed(out: &mut Vec<char>, w: &Vec<char>)
    ensures
        final(out)@ == old(out)@ + trim_zeros(w@),
{
    let mut j: usize = w.len();
    assert(w@.subrange(0, j as int) =~= w@);
    while j > 0 && w[j - 1] == '0'
        invariant
            j <= w@.len(),
            trim_zeros(w@) == trim_zeros(w@.subrange(0, j as int)),
        decreases j,
    {
        assert(w@.subrange(0, j as int).drop_last() =~= w@.subrange(0, j - 1));
        j = j - 1;
    }
    assert(trim_zeros(w@.subrange(0, j as int)) == w@.subrange(0, j as int));
    let ghost before = out@;
    let mut t: usize = 0;
    while t < j
        invariant
            t <= j <= w@.len(),
            out@ == before + w@.subrange(0, t as int),
        decreases j - t,
    {
        out.push(w[t]);
        t = t + 1;
        assert(out@ =~= before + w@.subrange(0, t as int));
    }
}

/// Appends the text of `m / 10^k` (see [`scaled_str`]).
fn push_scaled(out: &mut Vec<char>, m: u128, k: u32, p: u128)
    requires
        k <= 38,
        p as nat == pow10(k as nat),
    ensures
        final(out)@ == old(out)@ + scaled_str(m as nat, k as nat),
{
    proof {
        lemma_pow10_mono(0, k as nat);
    }
    let ip = m / p;
    let fp = m % p;
    let ghost start = out@;
    push_decimal_chars(out, ip);
    if fp != 0 {
        out.push('.');
        let mut w: Vec<char> = Vec::new();
        let l = decimal_len_u128(fp);
        proof {
            if k >= 1 {
                lemma_decimal_len_bound(fp as nat, k as nat);
            } else {
                assert(fp < 1);
            }
        }
        let mut i: u32 = 0;
        while i + l < k
            invariant
                l <= k,
                i + l <= k,
                w@ == Seq::new(i as nat, |t: int| '0'),
            decreases k - i,
        {
            w.push('0');
            i = i + 1;
            assert(w@ =~= Seq::new(i as nat, |t: int| '0'));
        }
        push_decimal_chars(&mut w, fp);
        assert(w@ =~= zero_pad(decimal(fp as nat), k as nat));
        push_trimmed(out, &w);
    }
    assert(out@ =~= start + scaled_str(m as nat, k as nat));
}

/// Appends the text of the fraction `n / d` (see [`frac_str`]).
pub fn push_frac(out: &mut Vec<char>, n: i64, d: i64)
    requires
        d > 1,
    ensures
        final(out)@ == old(out)@ + frac_str(n as int, d as nat),
{
    let a: u128 = if n < 0 { (-(n as i128)) as u128 } else { n as u128 };
    assert(a as nat == abs_nat(n as int));
    let du = d as u128;
    let q = a / du;
    let ghost an = a as nat;
    let ghost dn = d as nat;
    proof {
        assert(pow10(14) == 100000000000000) by {
            reveal_with_fuel(pow10, 15);
        }
        assert(pow10(15) == 1000000000000000) by {
            reveal_with_fuel(pow10, 16);
        }
    }
    let k: u32;
    if q > 0 {
        proof {
            assert(pow10(19) == 10000000000000000000) by {
                reveal_with_fuel(pow10, 20);
            }
            lemma_decimal_len_bound(q as nat, 19);
        }
        let l = decimal_len_u128(q);
        k = if l < 15 { 15 - l } else { 0 };
        proof {
            lemma_pow10_mono(k as nat, 14);
            assert(a * pow10(k as nat) * 2 + du <= 0x8000_0000_0000_0000 * 100000000000000 * 2 + 0x8000_0000_0000_0000) by (nonlinear_arith)
                requires
                    a <= 0x8000_0000_0000_0000,
                    pow10(k as nat) <= 100000000000000,
                    du < 0x8000_0000_0000_0000,
            ;
        }
    } else {
        assert(a < du) by (nonlinear_arith)
            requires
                q == a / du,
                q == 0,
                du > 0,
        ;
        let (z, x) = zeros_exec(a, du);
        k = 15 + z;
        proof {
            lemma_pow10_add(z as nat, 15);
            assert(an * pow10(k as nat) == x * 1000000000000000) by {
                assert(an * (pow10(z as nat) * 1000000000000000) == (an * pow10(z as nat)) * 1000000000000000) by (nonlinear_arith);
            }
            assert(x * 1000000000000000 * 2 + du < 0x8000_0000_0000_0000 * 1000000000000000 * 2 + 0x8000_0000_0000_0000) by (nonlinear_arith)
                requires
                    x < 0x8000_0000_0000_0000,
                    du < 0x8000_0000_0000_0000,
            ;
        }
    }
    assert(k as nat == frac_places(an, dn));
    let p = pow10_u128(k);
    let m = (a * p * 2 + du) / (2 * du);
    let ghost start = out@;
    if n < 0 {
        out.push('-');
    }
    push_scaled(out, m, k, p);
    assert(out@ =~= start + frac_str(n as int, d as nat));
}

/// A copy of the characters.
pub fn copy_chars(v: &Vec<char>) -> (r: Vec<char>)
    ensures
        r@ == v@,
{
    let mut r: Vec<char> = Vec::new();
    let mut i: usize = 0;
    while i < v.len()
        invariant
            i <= v@.len(),
            r@ == v@.subrange(0, i as int),
        decreases v@.len() - i,
    {
        r.push(v[i]);
        i = i + 1;
        assert(r@ =~= v@.subrange(0, i as int));
    }
    assert(r@ =~= v@);
    r
}

/// Appends `v` to `out`.
pub fn push_chars(out: &mut Vec<char>, v: &Vec<char>)
    ensures
        final(out)@ == old(out)@ + v@,
{
    let ghost start = out@;
    let mut i: usize = 0;
    while i < v.len()
        invariant
            i <= v@.len(),
            out@ == start + v@.subrange(0, i as int),
        decreases v@.len() - i,
    {
        out.push(v[i]);
        i = i + 1;
        assert(out@ =~= start + v@.subrange(0, i as int));
    }
    assert(v@.subrange(0, v@.len() as int) =~= v@);
}

impl Scalar {
    /// A copy of this value.
    pub fn copy(&self) -> (r: Scalar)
        ensures
            r@ == self@,
    {
        match self {
            Scalar::Undef => Scalar::Undef,
            Scalar::Num(x) => Scalar::Num(*x),
            Scalar::Str(v) => Scalar::Str(copy_chars(v)),
        }
    }
}

/// Perl truth of a value.
pub fn truthy_exec(v: &Scalar) -> (b: bool)
    ensures
        b == truthy(v@),
{
    match v {
        Scalar::Undef => false,
        Scalar::Num(x) => x.n != 0,
        Scalar::Str(s) => {
            if s.len() == 0 {
                false
            } else if s.len() == 1 && s[0] == '0' {
                assert(s@ =~= seq!['0']);
                false
            } else {
                assert(s@ != seq!['0']) by {
                    if s@.len() == 1 {
                        assert(s@[0] != '0');
                    }
                }
                true
            }
        },
    }
}

proof fn lemma_digits_val_mono(s: Seq<char>, i: int, j: int, k: int)
    requires
        i <= j <= k,
    ensures
        digits_val(s, i, j) <= digits_val(s, i, k),
    decreases k - j,
{
    if j < k {
        lemma_digits_val_mono(s, i, j, k - 1);
    }
}

/// The number a string stands for (see [`numify_str`]).
pub fn numify_str_exec(s: &Vec<char>) -> (r: Option<Num>)
    ensures
        r == numify_str(s@),
{
    let ghost t = s@;
    let mut i: usize = 0;
    while i < s.len() && (s[i] == ' ' || s[i] == '\t' || s[i] == '\n' || s[i] == '\r' || s[i] == '\x0c')
        invariant
            t == s@,
            i <= s@.len(),
            skip_space(t, 0) == skip_space(t, i as int),
        decreases s@.len() - i,
    {
        i = i + 1;
    }
    let neg = i < s.len() && s[i] == '-';
    let i1: usize = if i < s.len() && (s[i] == '-' || s[i] == '+') { i + 1 } else { i };
    let mut j: usize = i1;
    let mut v: u128 = 0;
    let mut big = false;
    while j < s.len() && '0' <= s[j] && s[j] <= '9'
        invariant
            t == s@,
            i1 <= j <= s@.len(),
            digits_end(t, i1 as int) == digits_end(t, j as int),
            !big ==> v as nat == digits_val(t, i1 as int, j as int),
            big ==> digits_val(t, i1 as int, j as int) > 0x8000_0000_0000_0000,
            v <= 0x8000_0000_0000_0000,
        decreases s@.len() - j,
    {
        let dg = (s[j] as u32) - ('0' as u32);
        proof {
            lemma_digits_val_mono(t, i1 as int, j as int, j + 1);
        }
        if !big {
            let nv = v * 10 + (dg as u128);
            if nv > 0x8000_0000_0000_0000 {
                big = true;
            } else {
                v = nv;
            }
        }
        j = j + 1;
    }
    proof {
        lemma_digits_val_mono(t, i1 as int, j as int, digits_end(t, i1 as int));
    }
    if big {
        return None;
    }
    if neg {
        if v == 0x8000_0000_0000_0000 {
            Some(Num { n: i64::MIN, d: 1 })
        } else {
            Some(Num { n: -(v as i64), d: 1 })
        }
    } else {
        if v > 0x7FFF_FFFF_FFFF_FFFF {
            None
        } else {
            Some(Num { n: v as i64, d: 1 })
        }
    }
}

/// The number a value stands for (see [`numify`]).
pub fn numify_exec(v: &Scalar) -> (r: Option<Num>)
    ensures
        r == numify(v@),
{
    match v {
        Scalar::Undef => Some(Num { n: 0, d: 1 }),
        Scalar::Num(x) => Some(*x),
        Scalar::Str(s) => numify_str_exec(s),
    }
}

/// Appends the string a value stands for (see [`stringify`]).
pub fn push_stringify(out: &mut Vec<char>, v: &Scalar)
    requires
        scalar_wf(v@),
    ensures
        final(out)@ == old(out)@ + stringify(v@),
{
    match v {
        Scalar::Undef => {
            assert(out@ =~= old(out)@ + stringify(v@));
        },
        Scalar::Num(x) => {
            if x.d == 1 {
                push_int(out, x.n);
            } else {
                push_frac(out, x.n, x.d);
            }
        },
        Scalar::Str(s) => {
            push_chars(out, s);
        },
    }
}

} // verus!
