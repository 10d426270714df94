//! Tokens of the interpreter's Perl subset, and the lexer that produces them.
//! Tokens refer to the source by character positions.
use vstd::prelude::*;

verus! {

/// Operators and punctuation.
#[derive(Debug, Clone, Copy, PartialEq, Eq, Structural)]
pub enum Punct {
    Spaceship,
    StarStar,
    Le,
    Ge,
    EqEq,
    Ne,
    AndAnd,
    OrOr,
    DefinedOr,
    Arrow,
    Assign,
    Plus,
    Minus,
    Star,
    Slash,
    Percent,
    Dot,
    Lt,
    Gt,
    Bang,
    Question,
    Colon,
    Amp,
    Pipe,
    Caret,
    Comma,
    Semi,
    LParen,
    RParen,
    LBrace,
    RBrace,
    LBracket,
    RBracket,
    Backslash,
}

/// What a token is. Spans `(start, end)` are character positions in the source.
#[derive(Debug, Clone, Copy, PartialEq, Eq, Structural)]
pub enum TokKind {
    /// An integer literal.
    Int(i64),
    /// A double-quoted string; the span covers the text between the quotes.
    DStr(usize, usize),
    /// A single-quoted string; the span covers the text between the quotes.
    SStr(usize, usize),
    /// A scalar variable `$name`; the span covers the name.
    Var(usize, usize),
    /// A bareword (keyword or name).
    Word(usize, usize),
    /// An operator or punctuation.
    P(Punct),
}

/// A token and the position where it starts.
#[derive(Debug, Clone, Copy, PartialEq, Eq, Structural)]
pub struct Token {
    pub kind: TokKind,
    pub pos: usize,
}

/// One step of the lexer at a position.
pub enum Step {
    /// Whitespace or a comment, up to the given position.
    Skip(int),
    /// A token, ending at the given position.
    Emit(TokKind, int),
    /// No token can start here.
    Fail,
}

pub open spec fn is_alpha(c: char) -> bool {
    ('a' <= c <= 'z') || ('A' <= c <= 'Z') || c == '_'
}

pub open spec fn is_digit(c: char) -> bool {
    '0' <= c <= '9'
}

pub open spec fn is_word_char(c: char) -> bool {
    is_alpha(c) || is_digit(c)
}

pub open spec fn is_hex(c: char) -> bool {
    is_digit(c) || ('a' <= c <= 'f') || ('A' <= c <= 'F')
}

pub open spec fn hex_val(c: char) -> nat {
    if is_digit(c) {
        ((c as u32) - ('0' as u32)) as nat
    } else if 'a' <= c <= 'f' {
        ((c as u32) - ('a' as u32) + 10) as nat
    } else {
        ((c as u32) - ('A' as u32) + 10) as nat
    }
}

pub open spec fn is_blank(c: char) -> bool {
    c == ' ' || c == '\t' || c == '\n' || c == '\r'
}

/// End of the name from `i`: word characters, with `::` between parts of a
/// package-qualified name.
pub open spec fn word_end(s: Seq<char>, i: int) -> int
    decreases s.len() - i,
{
    if 0 <= i < s.len() && is_word_char(s[i]) {
        word_end(s, i + 1)
    } else if 0 <= i && i + 2 < s.len() && s[i] == ':' && s[i + 1] == ':' && is_word_char(s[i + 2]) {
        word_end(s, i + 2)
    } else {
        i
    }
}

/// End of the run of decimal digits from `i`.
pub open spec fn dec_end(s: Seq<char>, i: int) -> int
    decreases s.len() - i,
{
    if 0 <= i < s.len() && is_digit(s[i]) {
        dec_end(s, i + 1)
    } else {
        i
    }
}

/// End of the run of hex digits from `i`.
pub open spec fn hex_end(s: Seq<char>, i: int) -> int
    decreases s.len() - i,
{
    if 0 <= i < s.len() && is_hex(s[i]) {
        hex_end(s, i + 1)
    } else {
        i
    }
}

/// Value of the decimal digits `s[i..j]`.
pub open spec fn dec_val(s: Seq<char>, i: int, j: int) -> nat
    decreases j - i,
{
    if j <= i {
        0
    } else {
        dec_val(s, i, j - 1) * 10 + ((s[j - 1] as u32) - ('0' as u32)) as nat
    }
}

/// Value of the hex digits `s[i..j]`.
pub open spec fn hex_digits_val(s: Seq<char>, i: int, j: int) -> nat
    decreases j - i,
{
    if j <= i {
        0
    } else {
        hex_digits_val(s, i, j - 1) * 16 + hex_val(s[j - 1])
    }
}

/// Position of the closing `quote` of a string whose text starts at `i`
/// (a backslash escapes the next character).
pub open spec fn string_end(s: Seq<char>, i: int, quote: char) -> Option<int>
    decreases s.len() - i,
{
    if i < 0 || i >= s.len() {
        None
    } else if s[i] == quote {
        Some(i)
    } else if s[i] == '\\' {
        if i + 1 < s.len() {
            string_end(s, i + 2, quote)
        } else {
            None
        }
    } else {
        string_end(s, i + 1, quote)
    }
}

/// End of a `#` comment starting at `i`: the next newline or the end.
pub open spec fn comment_end(s: Seq<char>, i: int) -> int
    decreases s.len() - i,
{
    if 0 <= i < s.len() && s[i] != '\n' {
        comment_end(s, i + 1)
    } else {
        i
    }
}

/// The character at `i`, or NUL past the end.
pub open spec fn at(s: Seq<char>, i: int) -> char {
    if 0 <= i < s.len() { s[i] } else { '\0' }
}

/// The operator at `i` (longest match) and its length.
pub open spec fn punct_at(s: Seq<char>, i: int) -> Option<(Punct, int)> {
    let c = at(s, i);
    let c1 = at(s, i + 1);
    let c2 = at(s, i + 2);
    if c == '<' && c1 == '=' && c2 == '>' { Some((Punct::Spaceship, 3)) }
    else if c == '*' && c1 == '*' { Some((Punct::StarStar, 2)) }
    else if c == '<' && c1 == '=' { Some((Punct::Le, 2)) }
    else if c == '>' && c1 == '=' { Some((Punct::Ge, 2)) }
    else if c == '=' && c1 == '=' { Some((Punct::EqEq, 2)) }
    else if c == '!' && c1 == '=' { Some((Punct::Ne, 2)) }
    else if c == '&' && c1 == '&' { Some((Punct::AndAnd, 2)) }
    else if c == '|' && c1 == '|' { Some((Punct::OrOr, 2)) }
    else if c == '/' && c1 == '/' { Some((Punct::DefinedOr, 2)) }
    else if c == '-' && c1 == '>' { Some((Punct::Arrow, 2)) }
    else if c == '=' { Some((Punct::Assign, 1)) }
    else if c == '+' { Some((Punct::Plus, 1)) }
    else if c == '-' { Some((Punct::Minus, 1)) }
    else if c == '*' { Some((Punct::Star, 1)) }
    else if c == '/' { Some((Punct::Slash, 1)) }
    else if c == '%' { Some((Punct::Percent, 1)) }
    else if c == '.' { Some((Punct::Dot, 1)) }
    else if c == '<' { Some((Punct::Lt, 1)) }
    else if c == '>' { Some((Punct::Gt, 1)) }
    else if c == '!' { Some((Punct::Bang, 1)) }
    else if c == '?' { Some((Punct::Question, 1)) }
    else if c == ':' { Some((Punct::Colon, 1)) }
    else if c == '&' { Some((Punct::Amp, 1)) }
    else if c == '|' { Some((Punct::Pipe, 1)) }
    else if c == '^' { Some((Punct::Caret, 1)) }
    else if c == ',' { Some((Punct::Comma, 1)) }
    else if c == ';' { Some((Punct::Semi, 1)) }
    else if c == '(' { Some((Punct::LParen, 1)) }
    else if c == ')' { Some((Punct::RParen, 1)) }
    else if c == '{' { Some((Punct::LBrace, 1)) }
    else if c == '}' { Some((Punct::RBrace, 1)) }
    else if c == '[' { Some((Punct::LBracket, 1)) }
    else if c == ']' { Some((Punct::RBracket, 1)) }
    else if c == '\\' { Some((Punct::Backslash, 1)) }
    else { None }
}

/// One lexer step at `i` (`i < s.len()`).
pub open spec fn lex_step(s: Seq<char>, i: int) -> Step {
    let c = at(s, i);
    if is_blank(c) {
        Step::Skip(i + 1)
    } else if c == '#' {
        Step::Skip(comment_end(s, i))
    } else if c == '0' && (at(s, i + 1) == 'x' || at(s, i + 1) == 'X') {
        let e = hex_end(s, i + 2);
        let v = hex_digits_val(s, i + 2, e);
        if e == i + 2 || v > i64::MAX || is_word_char(at(s, e)) {
            Step::Fail
        } else {
            Step::Emit(TokKind::Int(v as i64), e)
        }
    } else if is_digit(c) {
        let e = dec_end(s, i);
        let v = dec_val(s, i, e);
        if v > i64::MAX || is_word_char(at(s, e)) || (at(s, e) == '.' && is_digit(at(s, e + 1))) {
            Step::Fail
        } else {
            Step::Emit(TokKind::Int(v as i64), e)
        }
    } else if c == '"' || c == '\'' {
        match string_end(s, i + 1, c) {
            Some(e) => if c == '"' {
                Step::Emit(TokKind::DStr((i + 1) as usize, e as usize), e + 1)
            } else {
                Step::Emit(TokKind::SStr((i + 1) as usize, e as usize), e + 1)
            },
            None => Step::Fail,
        }
    } else if c == '$' {
        if is_alpha(at(s, i + 1)) {
            let e = word_end(s, i + 1);
            Step::Emit(TokKind::Var((i + 1) as usize, e as usize), e)
        } else {
            Step::Fail
        }
    } else if is_alpha(c) {
        let e = word_end(s, i);
        Step::Emit(TokKind::Word(i as usize, e as usize), e)
    } else {
        match punct_at(s, i) {
            Some((p, l)) => Step::Emit(TokKind::P(p), i + l),
            None => Step::Fail,
        }
    }
}

/// The tokens of `s[i..]`, or the position where lexing fails.
pub open spec fn lex_from(s: Seq<char>, i: int) -> Result<Seq<Token>, int>
    decreases s.len() - i,
{
    if i < 0 || i >= s.len() {
        Ok(seq![])
    } else {
        match lex_step(s, i) {
            Step::Skip(j) => if i < j <= s.len() { lex_from(s, j) } else { Err(i) },
            Step::Emit(k, j) => if i < j <= s.len() {
                match lex_from(s, j) {
                    Ok(ts) => Ok(seq![Token { kind: k, pos: #[verifier::truncate] (i as usize) }] + ts),
                    Err(e) => Err(e),
                }
            } else {
                Err(i)
            },
            Step::Fail => Err(i),
        }
    }
}

/// One lexer step as computed.
pub enum StepX {
    Skip(usize),
    Emit(TokKind, usize),
    Fail,
}

/// The computed step matches the specified one.
pub open spec fn step_matches(x: StepX, s: Step) -> bool {
    match (x, s) {
        (StepX::Skip(a), Step::Skip(b)) => a as int == b,
        (StepX::Emit(k1, a), Step::Emit(k2, b)) => k1 == k2 && a as int == b,
        (StepX::Fail, Step::Fail) => true,
        _ => false,
    }
}

fn at_exec(s: &Vec<char>, i: usize) -> (c: char)
    ensures
        c == at(s@, i as int),
{
    if i < s.len() { s[i] } else { '\0' }
}

fn is_alpha_exec(c: char) -> (b: bool)
    ensures
        b == is_alpha(c),
{
    ('a' <= c && c <= 'z') || ('A' <= c && c <= 'Z') || c == '_'
}

fn is_word_char_exec(c: char) -> (b: bool)
    ensures
        b == is_word_char(c),
{
    is_alpha_exec(c) || ('0' <= c && c <= '9')
}

fn word_end_exec(s: &Vec<char>, i: usize) -> (e: usize)
    requires
        i <= s@.len(),
    ensures
        e as int == word_end(s@, i as int),
        i <= e <= s@.len(),
{
    let mut j = i;
    loop
        invariant
            i <= j <= s@.len(),
            word_end(s@, i as int) == word_end(s@, j as int),
        decreases s@.len() - j,
    {
        if j < s.len() && is_word_char_exec(s[j]) {
            j = j + 1;
        } else if j < s.len() && s.len() - j > 2 && s[j] == ':' && s[j + 1] == ':' && is_word_char_exec(s[j + 2]) {
            j = j + 2;
        } else {
            return j;
        }
    }
}

fn comment_end_exec(s: &Vec<char>, i: usize) -> (e: usize)
    requires
        i <= s@.len(),
    ensures
        e as int == comment_end(s@, i as int),
        i <= e <= s@.len(),
{
    let mut j = i;
    while j < s.len() && s[j] != '\n'
        invariant
            i <= j <= s@.len(),
            comment_end(s@, i as int) == comment_end(s@, j as int),
        decreases s@.len() - j,
    {
        j = j + 1;
    }
    j
}

proof fn lemma_dec_val_mono(s: Seq<char>, i: int, j: int, k: int)
    requires
        i <= j <= k,
    ensures
        dec_val(s, i, j) <= dec_val(s, i, k),
    decreases k - j,
{
    if j < k {
        lemma_dec_val_mono(s, i, j, k - 1);
    }
}

proof fn lemma_hex_val_mono(s: Seq<char>, i: int, j: int, k: int)
    requires
        i <= j <= k,
    ensures
        hex_digits_val(s, i, j) <= hex_digits_val(s, i, k),
    decreases k - j,
{
    if j < k {
        lemma_hex_val_mono(s, i, j, k - 1);
    }
}

/// The end of the decimal digits from `i`, and their value when it fits in `i64`.
fn dec_exec(s: &Vec<char>, i: usize) -> (r: (usize, Option<i64>))
    requires
        i <= s@.len(),
    ensures
        r.0 as int == dec_end(s@, i as int),
        i <= r.0 <= s@.len(),
        match r.1 {
            Some(v) => v as int == dec_val(s@, i as int, r.0 as int),
            None => dec_val(s@, i as int, r.0 as int) > i64::MAX,
        },
{
    let mut j = i;
    let mut v: u128 = 0;
    let mut big = false;
    while j < s.len() && '0' <= s[j] && s[j] <= '9'
        invariant
            i <= j <= s@.len(),
            dec_end(s@, i as int) == dec_end(s@, j as int),
            !big ==> v as int == dec_val(s@, i as int, j as int),
            big ==> dec_val(s@, i as int, j as int) > i64::MAX,
            v <= i64::MAX,
        decreases s@.len() - j,
    {
        proof {
            lemma_dec_val_mono(s@, i as int, j as int, j + 1);
        }
        if !big {
            let nv = v * 10 + ((s[j] as u32) - ('0' as u32)) as u128;
            if nv > (i64::MAX as u128) {
                big = true;
            } else {
                v = nv;
            }
        }
        j = j + 1;
    }
    if big { (j, None) } else { (j, Some(v as i64)) }
}

fn is_hex_exec(c: char) -> (b: bool)
    ensures
        b == is_hex(c),
{
    ('0' <= c && c <= '9') || ('a' <= c && c <= 'f') || ('A' <= c && c <= 'F')
}

fn hex_val_exec(c: char) -> (v: u32)
    requires
        is_hex(c),
    ensures
        v as nat == hex_val(c),
        v < 16,
{
    if '0' <= c && c <= '9' {
        (c as u32) - ('0' as u32)
    } else if 'a' <= c && c <= 'f' {
        (c as u32) - ('a' as u32) + 10
    } else {
        (c as u32) - ('A' as u32) + 10
    }
}

/// The end of the hex digits from `i`, and their value when it fits in `i64`.
fn hex_exec(s: &Vec<char>, i: usize) -> (r: (usize, Option<i64>))
    requires
        i <= s@.len(),
    ensures
        r.0 as int == hex_end(s@, i as int),
        i <= r.0 <= s@.len(),
        match r.1 {
            Some(v) => v as int == hex_digits_val(s@, i as int, r.0 as int),
            None => hex_digits_val(s@, i as int, r.0 as int) > i64::MAX,
        },
{
    let mut j = i;
    let mut v: u128 = 0;
    let mut big = false;
    while j < s.len() && is_hex_exec(s[j])
        invariant
            i <= j <= s@.len(),
            hex_end(s@, i as int) == hex_end(s@, j as int),
            !big ==> v as int == hex_digits_val(s@, i as int, j as int),
            big ==> hex_digits_val(s@, i as int, j as int) > i64::MAX,
            v <= i64::MAX,
        decreases s@.len() - j,
    {
        proof {
            lemma_hex_val_mono(s@, i as int, j as int, j + 1);
        }
        if !big {
            let nv = v * 16 + hex_val_exec(s[j]) as u128;
            if nv > (i64::MAX as u128) {
                big = true;
            } else {
                v = nv;
            }
        }
        j = j + 1;
    }
    if big { (j, None) } else { (j, Some(v as i64)) }
}

fn string_end_exec(s: &Vec<char>, i: usize, quote: char) -> (r: Option<usize>)
    requires
        i <= s@.len() + 1,
        s@.len() + 4 <= usize::MAX,
    ensures
        match r {
            Some(e) => string_end(s@, i as int, quote) == Some(e as int) && e < s@.len(),
            None => string_end(s@, i as int, quote) is None,
        },
{
    let mut j = i;
    while j < s.len()
        invariant
            i <= j <= s@.len() + 2,
            s@.len() + 4 <= usize::MAX,
            string_end(s@, i as int, quote) == string_end(s@, j as int, quote),
        decreases s@.len() + 2 - j,
    {
        if s[j] == quote {
            return Some(j);
        } else if s[j] == '\\' {
            if j + 1 < s.len() {
                j = j + 2;
            } else {
                return None;
            }
        } else {
            j = j + 1;
        }
    }
    None
}

fn punct_at_exec(s: &Vec<char>, i: usize) -> (r: Option<(Punct, usize)>)
    requires
        i < s@.len(),
        s@.len() + 4 <= usize::MAX,
    ensures
        match (r, punct_at(s@, i as int)) {
            (Some((p, l)), Some((q, m))) => p == q && l as int == m,
            (None, None) => true,
            _ => false,
        },
        r matches Some((_, l)) ==> 1 <= l <= 3,
{
    let c = at_exec(s, i);
    let c1 = at_exec(s, i + 1);
    let c2 = at_exec(s, i + 2);
    if c == '<' && c1 == '=' && c2 == '>' { Some((Punct::Spaceship, 3)) }
    else if c == '*' && c1 == '*' { Some((Punct::StarStar, 2)) }
    else if c == '<' && c1 == '=' { Some((Punct::Le, 2)) }
    else if c == '>' && c1 == '=' { Some((Punct::Ge, 2)) }
    else if c == '=' && c1 == '=' { Some((Punct::EqEq, 2)) }
    else if c == '!' && c1 == '=' { Some((Punct::Ne, 2)) }
    else if c == '&' && c1 == '&' { Some((Punct::AndAnd, 2)) }
    else if c == '|' && c1 == '|' { Some((Punct::OrOr, 2)) }
    else if c == '/' && c1 == '/' { Some((Punct::DefinedOr, 2)) }
    else if c == '-' && c1 == '>' { Some((Punct::Arrow, 2)) }
    else if c == '=' { Some((Punct::Assign, 1)) }
    else if c == '+' { Some((Punct::Plus, 1)) }
    else if c == '-' { Some((Punct::Minus, 1)) }
    else if c == '*' { Some((Punct::Star, 1)) }
    else if c == '/' { Some((Punct::Slash, 1)) }
    else if c == '%' { Some((Punct::Percent, 1)) }
    else if c == '.' { Some((Punct::Dot, 1)) }
    else if c == '<' { Some((Punct::Lt, 1)) }
    else if c == '>' { Some((Punct::Gt, 1)) }
    else if c == '!' { Some((Punct::Bang, 1)) }
    else if c == '?' { Some((Punct::Question, 1)) }
    else if c == ':' { Some((Punct::Colon, 1)) }
    else if c == '&' { Some((Punct::Amp, 1)) }
    else if c == '|' { Some((Punct::Pipe, 1)) }
    else if c == '^' { Some((Punct::Caret, 1)) }
    else if c == ',' { Some((Punct::Comma, 1)) }
    else if c == ';' { Some((Punct::Semi, 1)) }
    else if c == '(' { Some((Punct::LParen, 1)) }
    else if c == ')' { Some((Punct::RParen, 1)) }
    else if c == '{' { Some((Punct::LBrace, 1)) }
    else if c == '}' { Some((Punct::RBrace, 1)) }
    else if c == '[' { Some((Punct::LBracket, 1)) }
    else if c == ']' { Some((Punct::RBracket, 1)) }
    else if c == '\\' { Some((Punct::Backslash, 1)) }
    else { None }
}

fn lex_step_exec(s: &Vec<char>, i: usize) -> (r: StepX)
    requires
        i < s@.len(),
        s@.len() + 4 <= usize::MAX,
    ensures
        step_matches(r, lex_step(s@, i as int)),
        r matches StepX::Skip(j) ==> j <= s@.len(),
        r matches StepX::Emit(_, j) ==> j <= s@.len(),
{
    let c = s[i];
    let c1 = at_exec(s, i + 1);
    if c == ' ' || c == '\t' || c == '\n' || c == '\r' {
        StepX::Skip(i + 1)
    } else if c == '#' {
        StepX::Skip(comment_end_exec(s, i))
    } else if c == '0' && (c1 == 'x' || c1 == 'X') {
        let (e, v) = hex_exec(s, i + 2);
        if e == i + 2 || is_word_char_exec(at_exec(s, e)) {
            StepX::Fail
        } else {
            match v {
                Some(x) => StepX::Emit(TokKind::Int(x), e),
                None => StepX::Fail,
            }
        }
    } else if '0' <= c && c <= '9' {
        let (e, v) = dec_exec(s, i);
        let ce = at_exec(s, e);
        let ce1 = at_exec(s, e + 1);
        if is_word_char_exec(ce) || (ce == '.' && '0' <= ce1 && ce1 <= '9') {
            StepX::Fail
        } else {
            match v {
                Some(x) => StepX::Emit(TokKind::Int(x), e),
                None => StepX::Fail,
            }
        }
    } else if c == '"' || c == '\'' {
        match string_end_exec(s, i + 1, c) {
            Some(e) => if c == '"' {
                StepX::Emit(TokKind::DStr(i + 1, e), e + 1)
            } else {
                StepX::Emit(TokKind::SStr(i + 1, e), e + 1)
            },
            None => StepX::Fail,
        }
    } else if c == '$' {
        if is_alpha_exec(c1) {
            let e = word_end_exec(s, i + 1);
            StepX::Emit(TokKind::Var(i + 1, e), e)
        } else {
            StepX::Fail
        }
    } else if is_alpha_exec(c) {
        let e = word_end_exec(s, i);
        StepX::Emit(TokKind::Word(i, e), e)
    } else {
        match punct_at_exec(s, i) {
            Some((p, l)) => {
                if i + l <= s.len() {
                    StepX::Emit(TokKind::P(p), i + l)
                } else {
                    StepX::Emit(TokKind::P(p), s.len())
                }
            },
            None => StepX::Fail,
        }
    }
}

/// The tokens of the source, or the position where lexing fails.
pub fn lex(s: &Vec<char>) -> (r: Result<Vec<Token>, usize>)
    requires
        s@.len() + 4 <= usize::MAX,
    ensures
        match (r, lex_from(s@, 0)) {
            (Ok(ts), Ok(sts)) => ts@ == sts,
            (Err(p), Err(sp)) => p as int == sp,
            _ => false,
        },
{
    lex_at(s, 0)
}

/// The tokens of the source from `start` on, or the position where lexing fails.
pub fn lex_at(s: &Vec<char>, start: usize) -> (r: Result<Vec<Token>, usize>)
    requires
        s@.len() + 4 <= usize::MAX,
    ensures
        match (r, lex_from(s@, start as int)) {
            (Ok(ts), Ok(sts)) => ts@ == sts,
            (Err(p), Err(sp)) => p as int == sp,
            _ => false,
        },
{
    let mut out: Vec<Token> = Vec::new();
    if start >= s.len() {
        assert(out@ =~= Seq::<Token>::empty());
        return Ok(out);
    }
    let mut i: usize = start;
    while i < s.len()
        invariant
            i <= s@.len(),
            s@.len() + 4 <= usize::MAX,
            lex_from(s@, start as int) == (match lex_from(s@, i as int) {
                Ok(ts) => Ok(out@ + ts),
                Err(e) => Err::<Seq<Token>, int>(e),
            }),
        decreases s@.len() - i,
    {
        match lex_step_exec(s, i) {
            StepX::Skip(j) => {
                if j <= i {
                    return Err(i);
                }
                i = j;
            },
            StepX::Emit(k, j) => {
                if j <= i {
                    return Err(i);
                }
                let ghost old_out = out@;
                out.push(Token { kind: k, pos: i });
                proof {
                    match lex_from(s@, j as int) {
                        Ok(ts) => {
                            assert(old_out + (seq![Token { kind: k, pos: i }] + ts) =~= out@ + ts);
                        },
                        Err(_) => {},
                    }
                }
                i = j;
            },
            StepX::Fail => {
                return Err(i);
            },
        }
    }
    assert(out@ + Seq::<Token>::empty() =~= out@);
    Ok(out)
}

} // verus!
