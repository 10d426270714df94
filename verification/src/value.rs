//! Perl values as the library sees them, with their mathematical model, and the
//! error type shared by the interpreter helpers.
use vstd::prelude::*;
use vstd::arithmetic::power2::{pow2, lemma2_to64, lemma2_to64_rest};
use crate::interp::scalar::{numify_str, numify_str_exec, skip_space, int_str, push_int};
use crate::text::string_from_chars;

verus! {

/// A Perl value.
#[derive(Debug)]
pub enum PerlValue {
    /// `undef`.
    Undef,
    /// An integer.
    Integer(i64),
    /// A double, held as its IEEE-754 bit pattern.
    Float(u64),
    /// A string.
    String(String),
    /// An array (list) of values.
    Array(Vec<PerlValue>),
    /// A hash: key/value pairs in insertion order, keys distinct.
    Hash(Vec<(String, PerlValue)>),
    /// A reference to the subroutine with the given index in a sub table.
    Code(usize),
}

/// The mathematical model of a [`PerlValue`].
pub enum PerlModel {
    Undef,
    Integer(i64),
    Float(u64),
    Str(Seq<char>),
    Array(Seq<PerlModel>),
    Hash(Seq<(Seq<char>, PerlModel)>),
    Code(usize),
}

/// The models of a sequence of values.
pub open spec fn model_seq(s: Seq<PerlValue>) -> Seq<PerlModel>
    decreases s,
{
    if s.len() == 0 {
        seq![]
    } else {
        model_seq(s.drop_last()).push(model_of(s.last()))
    }
}

/// The models of a sequence of key/value pairs.
pub open spec fn model_pairs(s: Seq<(String, PerlValue)>) -> Seq<(Seq<char>, PerlModel)>
    decreases s,
{
    if s.len() == 0 {
        seq![]
    } else {
        model_pairs(s.drop_last()).push((s.last().0@, model_of(s.last().1)))
    }
}

/// The model of a value.
pub open spec fn model_of(v: PerlValue) -> PerlModel
    decreases v,
{
    match v {
        PerlValue::Undef => PerlModel::Undef,
        PerlValue::Integer(i) => PerlModel::Integer(i),
        PerlValue::Float(b) => PerlModel::Float(b),
        PerlValue::String(s) => PerlModel::Str(s@),
        PerlValue::Array(a) => PerlModel::Array(model_seq(a@)),
        PerlValue::Hash(h) => PerlModel::Hash(model_pairs(h@)),
        PerlValue::Code(i) => PerlModel::Code(i),
    }
}

/// The model of a sequence of values, element by element.
pub proof fn lemma_model_seq(s: Seq<PerlValue>)
    ensures
        model_seq(s).len() == s.len(),
        forall|j: int| 0 <= j < s.len() ==> #[trigger] model_seq(s)[j] == model_of(s[j]),
    decreases s.len(),
{
    if s.len() > 0 {
        lemma_model_seq(s.drop_last());
    }
}

/// The model of a sequence of pairs, element by element.
pub proof fn lemma_model_pairs(s: Seq<(String, PerlValue)>)
    ensures
        model_pairs(s).len() == s.len(),
        forall|j: int|
            0 <= j < s.len() ==> #[trigger] model_pairs(s)[j] == (s[j].0@, model_of(s[j].1)),
    decreases s.len(),
{
    if s.len() > 0 {
        lemma_model_pairs(s.drop_last());
    }
}

impl View for PerlValue {
    type V = PerlModel;

    open spec fn view(&self) -> PerlModel {
        model_of(*self)
    }
}

/// What kind of failure a [`PerlError`] reports.
#[derive(Debug, Clone, Copy, PartialEq, Eq, Structural)]
pub enum ErrorKind {
    /// The source text does not parse.
    Syntax,
    /// An operation failed while running.
    Runtime,
    /// `die` was called.
    Die,
}

/// An error raised by the interpreter, with the source line it belongs to.
#[derive(Debug)]
pub struct PerlError {
    pub kind: ErrorKind,
    pub message: String,
    pub line: usize,
}

impl PerlError {
    /// A runtime error with `message` at `line`.
    pub fn runtime(message: String, line: usize) -> (e: PerlError)
        ensures
            e.kind == ErrorKind::Runtime,
            e.message@ == message@,
            e.line == line,
    {
        PerlError { kind: ErrorKind::Runtime, message, line }
    }
}


/// The integer a string stands for: its leading integer, saturated to `i64`.
pub open spec fn str_to_int(s: Seq<char>) -> i64 {
    match numify_str(s) {
        Some(x) => x.n,
        None => {
            let i = skip_space(s, 0);
            if i < s.len() && s[i] == '-' { i64::MIN } else { i64::MAX }
        },
    }
}

/// The fields of an IEEE-754 double: sign, biased exponent, fraction.
pub open spec fn f64_neg(b: u64) -> bool { b >= 0x8000_0000_0000_0000 }
pub open spec fn f64_exp(b: u64) -> nat { ((b as nat) / pow2(52)) % 2048 }
pub open spec fn f64_frac(b: u64) -> nat { (b as nat) % pow2(52) }

/// A double rounded toward zero to an integer, saturated to `i64`; NaN is 0.
pub open spec fn float_to_int(b: u64) -> i64 {
    let e = f64_exp(b);
    let f = f64_frac(b);
    if e == 2047 && f != 0 {
        0
    } else if e < 1023 {
        0
    } else if e >= 1086 {
        if f64_neg(b) { i64::MIN } else { i64::MAX }
    } else {
        let m = f + pow2(52);
        let mag: int = if e >= 1075 { (m * pow2((e - 1075) as nat)) as int } else { (m / pow2((1075 - e) as nat)) as int };
        (if f64_neg(b) { -mag } else { mag }) as i64
    }
}

/// A count as an `i64`, saturated.
pub open spec fn count_to_int(n: nat) -> i64 {
    if n > i64::MAX { i64::MAX } else { n as i64 }
}

/// The integer a value stands for.
pub open spec fn model_to_int(v: PerlModel) -> i64 {
    match v {
        PerlModel::Undef => 0,
        PerlModel::Integer(i) => i,
        PerlModel::Float(b) => float_to_int(b),
        PerlModel::Str(s) => str_to_int(s),
        PerlModel::Array(a) => count_to_int(a.len()),
        PerlModel::Hash(h) => count_to_int(h.len()),
        PerlModel::Code(k) => count_to_int(k as nat),
    }
}

/// The text of a double: `NaN`, `Inf` or `-Inf`, else the digits of its integer part.
pub open spec fn float_text(b: u64) -> Seq<char> {
    if f64_exp(b) == 2047 && f64_frac(b) != 0 {
        "NaN"@
    } else if f64_exp(b) == 2047 {
        if f64_neg(b) { "-Inf"@ } else { "Inf"@ }
    } else {
        int_str(float_to_int(b) as int)
    }
}

/// The text of a value: arrays and hashes give their number of elements, code
/// references `CODE(index)`.
pub open spec fn model_text(v: PerlModel) -> Seq<char> {
    match v {
        PerlModel::Undef => seq![],
        PerlModel::Integer(i) => int_str(i as int),
        PerlModel::Float(b) => float_text(b),
        PerlModel::Str(s) => s,
        PerlModel::Array(a) => int_str(count_to_int(a.len()) as int),
        PerlModel::Hash(h) => int_str(count_to_int(h.len()) as int),
        PerlModel::Code(k) => "CODE("@ + int_str(count_to_int(k as nat) as int) + ")"@,
    }
}

/// A double rounded toward zero (see [`float_to_int`]).
fn float_to_int_exec(b: u64) -> (r: i64)
    ensures
        r == float_to_int(b),
{
    proof {
        lemma2_to64();
        lemma2_to64_rest();
    }
    let e = (b / 0x10_0000_0000_0000) % 2048;
    let f = b % 0x10_0000_0000_0000;
    let neg = b >= 0x8000_0000_0000_0000;
    assert(e as nat == f64_exp(b) && f as nat == f64_frac(b));
    if e == 2047 && f != 0 {
        0
    } else if e < 1023 {
        0
    } else if e >= 1086 {
        if neg { i64::MIN } else { i64::MAX }
    } else {
        let m: u64 = f + 0x10_0000_0000_0000;
        let mut p: u64 = 1;
        let k: u64 = if e >= 1075 { e - 1075 } else { 1075 - e };
        let mut i: u64 = 0;
        while i < k
            invariant
                k <= 52,
                i <= k,
                p as nat == pow2(i as nat),
                pow2(52) == 0x10_0000_0000_0000,
            decreases k - i,
        {
            proof {
                vstd::arithmetic::power2::lemma_pow2_unfold((i + 1) as nat);
                vstd::arithmetic::power2::lemma_pow2_strictly_increases(i as nat, 52);
            }
            p = p * 2;
            i = i + 1;
        }
        proof {
            if e >= 1075 && k < 10 {
                vstd::arithmetic::power2::lemma_pow2_strictly_increases(k as nat, 10);
            }
            vstd::arithmetic::power2::lemma_pow2_pos(k as nat);
        }
        let mag: u64 = if e >= 1075 {
            assert(m * p < 0x8000_0000_0000_0000) by (nonlinear_arith)
                requires m < 0x20_0000_0000_0000, p <= 1024;
            m * p
        } else {
            assert(m / p <= m) by (nonlinear_arith) requires p >= 1;
            m / p
        };
        assert(mag < 0x8000_0000_0000_0000);
        if neg { -(mag as i64) } else { mag as i64 }
    }
}

/// Appends the decimal text of `n`, saturated to `i64` (see [`count_to_int`]).
fn push_count(out: &mut Vec<char>, n: usize)
    ensures
        final(out)@ == old(out)@ + int_str(count_to_int(n as nat) as int),
{
    let c: i64 = if n as u128 > 0x7FFF_FFFF_FFFF_FFFF { i64::MAX } else { n as i64 };
    push_int(out, c);
}

fn count_exec(n: usize) -> (r: i64)
    ensures
        r == count_to_int(n as nat),
{
    if n as u128 > 0x7FFF_FFFF_FFFF_FFFF { i64::MAX } else { n as i64 }
}

impl PerlValue {
    /// The integer this value stands for (see [`model_to_int`]).
    pub fn to_int(&self) -> (r: i64)
        ensures
            r == model_to_int(self@),
    {
        match self {
            PerlValue::Undef => 0,
            PerlValue::Integer(i) => *i,
            PerlValue::Float(b) => float_to_int_exec(*b),
            PerlValue::String(s) => {
                let cs = crate::text::str_chars(s.as_str());
                match numify_str_exec(&cs) {
                    Some(x) => x.n,
                    None => {
                        let mut i: usize = 0;
                        while i < cs.len() && (cs[i] == ' ' || cs[i] == '\t' || cs[i] == '\n' || cs[i] == '\r' || cs[i] == '\x0c')
                            invariant
                                i <= cs@.len(),
                                skip_space(cs@, 0) == skip_space(cs@, i as int),
                            decreases cs@.len() - i,
                        {
                            i = i + 1;
                        }
                        if i < cs.len() && cs[i] == '-' { i64::MIN } else { i64::MAX }
                    },
                }
            },
            PerlValue::Array(a) => {
                proof {
                    lemma_model_seq(a@);
                }
                count_exec(a.len())
            },
            PerlValue::Hash(h) => {
                proof {
                    lemma_model_pairs(h@);
                }
                count_exec(h.len())
            },
            PerlValue::Code(k) => count_exec(*k),
        }
    }

    /// The text of this value (see [`model_text`]).
    pub fn to_string(&self) -> (r: String)
        ensures
            r@ == model_text(self@),
    {
        let mut out: Vec<char> = Vec::new();
        match self {
            PerlValue::Undef => {
                assert(out@ =~= seq![]);
            },
            PerlValue::Integer(i) => {
                push_int(&mut out, *i);
                assert(out@ =~= int_str(*i as int));
            },
            PerlValue::Float(b) => {
                let e = (*b / 0x10_0000_0000_0000) % 2048;
                let f = *b % 0x10_0000_0000_0000;
                proof {
                    lemma2_to64();
                    lemma2_to64_rest();
                }
                assert(e as nat == f64_exp(*b) && f as nat == f64_frac(*b));
                if e == 2047 && f != 0 {
                    out = crate::text::str_chars("NaN");
                } else if e == 2047 {
                    if *b >= 0x8000_0000_0000_0000 {
                        out = crate::text::str_chars("-Inf");
                    } else {
                        out = crate::text::str_chars("Inf");
                    }
                } else {
                    push_int(&mut out, float_to_int_exec(*b));
                    assert(out@ =~= float_text(*b));
                }
            },
            PerlValue::String(s) => {
                return crate::text::string_of(s.as_str());
            },
            PerlValue::Array(a) => {
                proof {
                    lemma_model_seq(a@);
                }
                push_count(&mut out, a.len());
            },
            PerlValue::Hash(h) => {
                proof {
                    lemma_model_pairs(h@);
                }
                push_count(&mut out, h.len());
            },
            PerlValue::Code(k) => {
                out = crate::text::str_chars("CODE(");
                push_count(&mut out, *k);
                out.push(')');
                assert(out@ =~= "CODE("@ + int_str(count_to_int(*k as nat) as int) + ")"@) by {
                    reveal_strlit(")");
                }
            },
        }
        assert(out@ =~= model_text(self@));
        string_from_chars(&out)
    }
}

} // verus!
