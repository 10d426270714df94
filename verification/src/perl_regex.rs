//! Patterns compiled by one of two engines: the `regex` crate when it accepts the
//! pattern (a linear-time subset), else `fancy_regex` (backreferences and other
//! backtracking features).
//!
//! What the engines compute is named, not restated: each `*_of` function below
//! stands for the result of one engine call on the pattern and the text, and the
//! methods of [`PerlCompiledRegex`] are stated over those names.
use std::sync::Arc;
use vstd::prelude::*;
use vstd::utf8::encode_utf8;
use crate::value::{PerlValue, PerlModel};
use crate::text::string_of;

verus! {

#[verifier::external_type_specification]
#[verifier::external_body]
pub struct ExRustRegex(regex::Regex);

#[verifier::external_type_specification]
#[verifier::external_body]
pub struct ExFancyRegex(fancy_regex::Regex);

/// Whether `regex::Regex::new` accepts the pattern.
pub uninterp spec fn rust_accepts_of(pattern: Seq<char>) -> bool;
/// The error text of `fancy_regex::Regex::new` for the pattern (`None` when it compiles).
pub uninterp spec fn fancy_error_of(pattern: Seq<char>) -> Option<Seq<char>>;
/// `regex::Regex::is_match`.
pub uninterp spec fn rust_is_match_of(pattern: Seq<char>, text: Seq<char>) -> bool;
/// `fancy_regex::Regex::is_match` (`None` when the engine reports an error).
pub uninterp spec fn fancy_is_match_of(pattern: Seq<char>, text: Seq<char>) -> Option<bool>;
/// The byte spans of the groups of `regex::Regex::captures` (`None`: no match).
pub uninterp spec fn rust_captures_of(pattern: Seq<char>, text: Seq<char>) -> Option<Seq<Option<(int, int)>>>;
/// The same for `fancy_regex::Regex::captures` (outer `None`: an engine error).
pub uninterp spec fn fancy_captures_of(pattern: Seq<char>, text: Seq<char>) -> Option<Option<Seq<Option<(int, int)>>>>;
/// The group spans of each item of `regex::Regex::captures_iter`.
pub uninterp spec fn rust_captures_all_of(pattern: Seq<char>, text: Seq<char>) -> Seq<Seq<Option<(int, int)>>>;
/// The same for `fancy_regex::Regex::captures_iter` (`None` items: engine errors).
pub uninterp spec fn fancy_captures_all_of(pattern: Seq<char>, text: Seq<char>) -> Seq<Option<Seq<Option<(int, int)>>>>;
/// `regex::Regex::capture_names`.
pub uninterp spec fn rust_names_of(pattern: Seq<char>) -> Seq<Option<Seq<char>>>;
/// `fancy_regex::Regex::capture_names`.
pub uninterp spec fn fancy_names_of(pattern: Seq<char>) -> Seq<Option<Seq<char>>>;
/// `regex::Regex::replace` with a replacement string.
pub uninterp spec fn rust_replace_of(pattern: Seq<char>, text: Seq<char>, rep: Seq<char>) -> Seq<char>;
/// `regex::Regex::replace_all` with a replacement string.
pub uninterp spec fn rust_replace_all_of(pattern: Seq<char>, text: Seq<char>, rep: Seq<char>) -> Seq<char>;
/// `fancy_regex::Regex::try_replacen` with limit 1 and a replacement string
/// (`None` when the engine reports an error).
pub uninterp spec fn fancy_replace_of(pattern: Seq<char>, text: Seq<char>, rep: Seq<char>) -> Option<Seq<char>>;
/// `fancy_regex::Regex::try_replacen` with limit 0 (every match) and a replacement
/// string (`None` when the engine reports an error).
pub uninterp spec fn fancy_replace_all_of(pattern: Seq<char>, text: Seq<char>, rep: Seq<char>) -> Option<Seq<char>>;
/// The byte spans of the items of `regex::Regex::find_iter`.
pub uninterp spec fn rust_find_all_of(pattern: Seq<char>, text: Seq<char>) -> Seq<(int, int)>;
/// The same for `fancy_regex::Regex::find_iter` (`None` items: engine errors).
pub uninterp spec fn fancy_find_all_of(pattern: Seq<char>, text: Seq<char>) -> Seq<Option<(int, int)>>;
/// The pieces of `regex::Regex::split`.
pub uninterp spec fn rust_split_of(pattern: Seq<char>, text: Seq<char>) -> Seq<Seq<char>>;
/// The pieces of `fancy_regex::Regex::split` (`None` items: engine errors).
pub uninterp spec fn fancy_split_of(pattern: Seq<char>, text: Seq<char>) -> Seq<Option<Seq<char>>>;
/// The pieces of `regex::Regex::splitn`.
pub uninterp spec fn rust_splitn_of(pattern: Seq<char>, text: Seq<char>, limit: nat) -> Seq<Seq<char>>;
/// The pieces of `fancy_regex::Regex::splitn` (`None` items: engine errors).
pub uninterp spec fn fancy_splitn_of(pattern: Seq<char>, text: Seq<char>, limit: nat) -> Seq<Option<Seq<char>>>;

/// A pattern compiled by the `regex` crate, with its text.
pub struct RustEngine {
    re: regex::Regex,
    pattern: String,
}

/// A pattern compiled by `fancy_regex`, with its text.
pub struct FancyEngine {
    re: fancy_regex::Regex,
    pattern: String,
}

impl RustEngine {
    /// The pattern this engine was compiled from.
    pub closed spec fn pattern(&self) -> Seq<char> {
        self.pattern@
    }
}

impl FancyEngine {
    /// The pattern this engine was compiled from.
    pub closed spec fn pattern(&self) -> Seq<char> {
        self.pattern@
    }
}

/// A compiled pattern: the standard engine, or the backtracking fallback.
pub enum PerlCompiledRegex {
    Rust(RustEngine),
    Fancy(FancyEngine),
}

/// A matched group: its byte span in the text, and the matched text.
#[derive(Clone, Copy, Debug)]
pub struct RegexMatch<'a> {
    pub start: usize,
    pub end: usize,
    pub text: &'a str,
}

/// The groups of one match (group 0 is the whole match), with the group names.
pub struct PerlCaptures<'a> {
    pub groups: Vec<Option<RegexMatch<'a>>>,
    pub names: Vec<Option<String>>,
}

/// The span of a group, if it took part in the match.
pub open spec fn span_of<'a>(m: Option<RegexMatch<'a>>) -> Option<(int, int)> {
    match m {
        Some(x) => Some((x.start as int, x.end as int)),
        None => None,
    }
}

pub open spec fn spans_of<'a>(v: Seq<Option<RegexMatch<'a>>>) -> Seq<Option<(int, int)>> {
    v.map_values(|m: Option<RegexMatch<'a>>| span_of(m))
}

/// A group's text is the part of `t` its byte span covers.
pub open spec fn match_in<'a>(m: RegexMatch<'a>, t: Seq<char>) -> bool {
    &&& m.start <= m.end <= encode_utf8(t).len()
    &&& encode_utf8(m.text@) == encode_utf8(t).subrange(m.start as int, m.end as int)
}

pub open spec fn groups_in<'a>(v: Seq<Option<RegexMatch<'a>>>, t: Seq<char>) -> bool {
    forall|i: int| 0 <= i < v.len() ==> (#[trigger] v[i] matches Some(m) ==> match_in(m, t))
}

pub open spec fn opt_str_view(n: Option<String>) -> Option<Seq<char>> {
    match n {
        Some(s) => Some(s@),
        None => None,
    }
}

pub open spec fn names_view(v: Seq<Option<String>>) -> Seq<Option<Seq<char>>> {
    v.map_values(|n: Option<String>| opt_str_view(n))
}

pub open spec fn strings_view(v: Seq<String>) -> Seq<Seq<char>> {
    v.map_values(|s: String| s@)
}

pub open spec fn opt_strings_view(v: Seq<Option<String>>) -> Seq<Option<Seq<char>>> {
    names_view(v)
}

pub open spec fn pairs_view(v: Seq<(usize, usize)>) -> Seq<(int, int)> {
    v.map_values(|p: (usize, usize)| (p.0 as int, p.1 as int))
}

pub open spec fn opt_pairs_view(v: Seq<Option<(usize, usize)>>) -> Seq<Option<(int, int)>> {
    v.map_values(|p: Option<(usize, usize)>| match p {
        Some(x) => Some((x.0 as int, x.1 as int)),
        None => None,
    })
}

/// The items that are not errors, in order.
pub open spec fn keep_ok<T>(s: Seq<Option<T>>) -> Seq<T>
    decreases s.len(),
{
    if s.len() == 0 {
        seq![]
    } else {
        match s.last() {
            Some(x) => keep_ok(s.drop_last()).push(x),
            None => keep_ok(s.drop_last()),
        }
    }
}

/// Calls `regex::Regex::new`; the engine keeps the pattern's text. Claims only that
/// the pattern is accepted exactly when `rust_accepts_of` says so.
#[verifier::external_body]
fn rust_new(p: &str, pattern: String) -> (r: Option<RustEngine>)
    requires
        pattern@ == p@,
    ensures
        r.is_some() == rust_accepts_of(p@),
        r matches Some(e) ==> e.pattern() == p@,
{
    match regex::Regex::new(p) {
        Ok(re) => Some(RustEngine { re, pattern }),
        Err(_) => None,
    }
}

/// Calls `fancy_regex::Regex::new`; on failure, returns the error's text.
#[verifier::external_body]
fn fancy_new(p: &str, pattern: String) -> (r: Result<FancyEngine, String>)
    requires
        pattern@ == p@,
    ensures
        match r {
            Ok(e) => fancy_error_of(p@) is None && e.pattern() == p@,
            Err(m) => fancy_error_of(p@) == Some(m@),
        },
{
    match fancy_regex::Regex::new(p) {
        Ok(re) => Ok(FancyEngine { re, pattern }),
        Err(e) => Err(e.to_string()),
    }
}

/// Calls `regex::Regex::is_match`.
#[verifier::external_body]
fn rust_is_match(e: &RustEngine, t: &str) -> (b: bool)
    ensures
        b == rust_is_match_of(e.pattern(), t@),
{
    e.re.is_match(t)
}

/// Calls `fancy_regex::Regex::is_match`; an engine error is `None`.
#[verifier::external_body]
fn fancy_is_match(e: &FancyEngine, t: &str) -> (b: Option<bool>)
    ensures
        b == fancy_is_match_of(e.pattern(), t@),
{
    e.re.is_match(t).ok()
}

/// Calls `regex::Regex::captures` and lists the groups. Besides the named spans, it
/// claims what the crate documents of a match: its text is the part of the text
/// its byte span covers.
#[verifier::external_body]
fn rust_captures<'t>(e: &RustEngine, t: &'t str) -> (r: Option<Vec<Option<RegexMatch<'t>>>>)
    ensures
        match (r, rust_captures_of(e.pattern(), t@)) {
            (Some(v), Some(s)) => spans_of(v@) == s && groups_in(v@, t@),
            (None, None) => true,
            _ => false,
        },
{
    e.re.captures(t).map(|c| c.iter().map(|g| g.map(|m| RegexMatch { start: m.start(), end: m.end(), text: m.as_str() })).collect())
}

/// Calls `fancy_regex::Regex::captures` and lists the groups; an engine error is `None`.
#[verifier::external_body]
fn fancy_captures<'t>(e: &FancyEngine, t: &'t str) -> (r: Option<Option<Vec<Option<RegexMatch<'t>>>>>)
    ensures
        match (r, fancy_captures_of(e.pattern(), t@)) {
            (Some(Some(v)), Some(Some(s))) => spans_of(v@) == s && groups_in(v@, t@),
            (Some(None), Some(None)) => true,
            (None, None) => true,
            _ => false,
        },
{
    match e.re.captures(t) {
        Ok(Some(c)) => Some(Some(c.iter().map(|g| g.map(|m| RegexMatch { start: m.start(), end: m.end(), text: m.as_str() })).collect())),
        Ok(None) => Some(None),
        Err(_) => None,
    }
}

/// Calls `regex::Regex::captures_iter` and lists the groups of each match.
#[verifier::external_body]
fn rust_captures_all<'t>(e: &RustEngine, t: &'t str) -> (r: Vec<Vec<Option<RegexMatch<'t>>>>)
    ensures
        r@.len() == rust_captures_all_of(e.pattern(), t@).len(),
        forall|i: int| 0 <= i < r@.len() ==> spans_of(#[trigger] r@[i]@) == rust_captures_all_of(e.pattern(), t@)[i] && groups_in(r@[i]@, t@),
{
    e.re.captures_iter(t).map(|c| c.iter().map(|g| g.map(|m| RegexMatch { start: m.start(), end: m.end(), text: m.as_str() })).collect()).collect()
}

/// Calls `fancy_regex::Regex::captures_iter`; an item that is an engine error is `None`.
#[verifier::external_body]
fn fancy_captures_all<'t>(e: &FancyEngine, t: &'t str) -> (r: Vec<Option<Vec<Option<RegexMatch<'t>>>>>)
    ensures
        r@.len() == fancy_captures_all_of(e.pattern(), t@).len(),
        forall|i: int| 0 <= i < r@.len() ==> match (#[trigger] r@[i], fancy_captures_all_of(e.pattern(), t@)[i]) {
            (Some(v), Some(s)) => spans_of(v@) == s && groups_in(v@, t@),
            (None, None) => true,
            _ => false,
        },
{
    e.re.captures_iter(t).map(|c| c.ok().map(|c| c.iter().map(|g| g.map(|m| RegexMatch { start: m.start(), end: m.end(), text: m.as_str() })).collect())).collect()
}

/// Calls `regex::Regex::capture_names`.
#[verifier::external_body]
fn rust_names(e: &RustEngine) -> (r: Vec<Option<String>>)
    ensures
        names_view(r@) == rust_names_of(e.pattern()),
{
    e.re.capture_names().map(|n| n.map(|s| s.to_string())).collect()
}

/// Calls `fancy_regex::Regex::capture_names`.
#[verifier::external_body]
fn fancy_names(e: &FancyEngine) -> (r: Vec<Option<String>>)
    ensures
        names_view(r@) == fancy_names_of(e.pattern()),
{
    e.re.capture_names().map(|n| n.map(|s| s.to_string())).collect()
}

/// Calls `regex::Regex::replace`.
#[verifier::external_body]
fn rust_replace(e: &RustEngine, s: &str, rep: &str) -> (r: String)
    ensures
        r@ == rust_replace_of(e.pattern(), s@, rep@),
{
    e.re.replace(s, rep).to_string()
}

/// Calls `regex::Regex::replace_all`.
#[verifier::external_body]
fn rust_replace_all(e: &RustEngine, s: &str, rep: &str) -> (r: String)
    ensures
        r@ == rust_replace_all_of(e.pattern(), s@, rep@),
{
    e.re.replace_all(s, rep).to_string()
}

/// Calls `fancy_regex::Regex::try_replacen` with limit 1 (the first match);
/// `None` when the engine reports an error, such as an exceeded backtrack limit.
#[verifier::external_body]
fn fancy_replace(e: &FancyEngine, s: &str, rep: &str) -> (r: Option<String>)
    ensures
        opt_text(r) == fancy_replace_of(e.pattern(), s@, rep@),
{
    match e.re.try_replacen(s, 1, rep) {
        Ok(t) => Some(t.to_string()),
        Err(_) => None,
    }
}

/// Calls `fancy_regex::Regex::try_replacen` with limit 0 (every match); `None`
/// when the engine reports an error.
#[verifier::external_body]
fn fancy_replace_all(e: &FancyEngine, s: &str, rep: &str) -> (r: Option<String>)
    ensures
        opt_text(r) == fancy_replace_all_of(e.pattern(), s@, rep@),
{
    match e.re.try_replacen(s, 0, rep) {
        Ok(t) => Some(t.to_string()),
        Err(_) => None,
    }
}

/// The text of an optional string.
pub open spec fn opt_text(r: Option<String>) -> Option<Seq<char>> {
    match r {
        Some(x) => Some(x@),
        None => None,
    }
}

/// The text a fancy-engine replacement gives: the engine's result, or the input
/// unchanged when the engine reports an error.
pub open spec fn text_or(r: Option<Seq<char>>, s: Seq<char>) -> Seq<char> {
    match r {
        Some(x) => x,
        None => s,
    }
}

/// Calls `regex::Regex::find_iter` and lists the spans of the matches.
#[verifier::external_body]
fn rust_find_all(e: &RustEngine, s: &str) -> (r: Vec<(usize, usize)>)
    ensures
        pairs_view(r@) == rust_find_all_of(e.pattern(), s@),
{
    e.re.find_iter(s).map(|m| (m.start(), m.end())).collect()
}

/// Calls `fancy_regex::Regex::find_iter`; an item that is an engine error is `None`.
#[verifier::external_body]
fn fancy_find_all(e: &FancyEngine, s: &str) -> (r: Vec<Option<(usize, usize)>>)
    ensures
        opt_pairs_view(r@) == fancy_find_all_of(e.pattern(), s@),
{
    e.re.find_iter(s).map(|m| m.ok().map(|m| (m.start(), m.end()))).collect()
}

/// Calls `regex::Regex::split`.
#[verifier::external_body]
fn rust_split(e: &RustEngine, s: &str) -> (r: Vec<String>)
    ensures
        strings_view(r@) == rust_split_of(e.pattern(), s@),
{
    e.re.split(s).map(|x| x.to_string()).collect()
}

/// Calls `fancy_regex::Regex::split`; an item that is an engine error is `None`.
#[verifier::external_body]
fn fancy_split(e: &FancyEngine, s: &str) -> (r: Vec<Option<String>>)
    ensures
        opt_strings_view(r@) == fancy_split_of(e.pattern(), s@),
{
    e.re.split(s).map(|x| x.ok().map(|x| x.to_string())).collect()
}

/// Calls `regex::Regex::splitn`.
#[verifier::external_body]
fn rust_splitn(e: &RustEngine, s: &str, limit: usize) -> (r: Vec<String>)
    ensures
        strings_view(r@) == rust_splitn_of(e.pattern(), s@, limit as nat),
{
    e.re.splitn(s, limit).map(|x| x.to_string()).collect()
}

/// Calls `fancy_regex::Regex::splitn`; an item that is an engine error is `None`.
#[verifier::external_body]
fn fancy_splitn(e: &FancyEngine, s: &str, limit: usize) -> (r: Vec<Option<String>>)
    ensures
        opt_strings_view(r@) == fancy_splitn_of(e.pattern(), s@, limit as nat),
{
    e.re.splitn(s, limit).map(|x| x.ok().map(|x| x.to_string())).collect()
}

/// The items of `v` that are not errors, in order.
fn keep_ok_strings(v: &Vec<Option<String>>) -> (r: Vec<String>)
    ensures
        strings_view(r@) == keep_ok(opt_strings_view(v@)),
{
    let mut r: Vec<String> = Vec::new();
    let mut i: usize = 0;
    while i < v.len()
        invariant
            i <= v@.len(),
            strings_view(r@) == keep_ok(opt_strings_view(v@).subrange(0, i as int)),
        decreases v@.len() - i,
    {
        let ghost before = strings_view(r@);
        let ghost sub = opt_strings_view(v@).subrange(0, i + 1);
        assert(sub.drop_last() =~= opt_strings_view(v@).subrange(0, i as int));
        match &v[i] {
            Some(x) => {
                let c = x.clone();
                r.push(c);
                assert(strings_view(r@) =~= before.push(x@));
            },
            None => {},
        }
        i = i + 1;
    }
    assert(opt_strings_view(v@).subrange(0, v@.len() as int) =~= opt_strings_view(v@));
    r
}

/// `keep_ok` of a concatenation.
pub proof fn lemma_keep_ok_append<T>(a: Seq<Option<T>>, b: Seq<Option<T>>)
    ensures
        keep_ok(a + b) == keep_ok(a) + keep_ok(b),
    decreases b.len(),
{
    if b.len() == 0 {
        assert(a + b =~= a);
        assert(keep_ok(a) + keep_ok(b) =~= keep_ok(a));
    } else {
        lemma_keep_ok_append(a, b.drop_last());
        assert((a + b).drop_last() =~= a + b.drop_last());
        assert((a + b).last() == b.last());
        match b.last() {
            Some(x) => assert(keep_ok(a) + keep_ok(b.drop_last()).push(x) =~= (keep_ok(a) + keep_ok(b.drop_last())).push(x)),
            None => {},
        }
    }
}


/// A copy of a list of names.
fn copy_names(v: &Vec<Option<String>>) -> (r: Vec<Option<String>>)
    ensures
        names_view(r@) == names_view(v@),
{
    let mut r: Vec<Option<String>> = Vec::new();
    let mut i: usize = 0;
    while i < v.len()
        invariant
            i <= v@.len(),
            names_view(r@) == names_view(v@).subrange(0, i as int),
        decreases v@.len() - i,
    {
        let ghost before = names_view(r@);
        let x = match &v[i] {
            Some(n) => Some(n.clone()),
            None => None,
        };
        let ghost xv = opt_str_view(x);
        assert(xv == names_view(v@)[i as int]);
        r.push(x);
        assert(names_view(r@) =~= before.push(xv));
        i = i + 1;
        assert(names_view(r@) =~= names_view(v@).subrange(0, i as int));
    }
    assert(names_view(v@).subrange(0, v@.len() as int) =~= names_view(v@));
    r
}

/// The index of the last group named `name`.
pub open spec fn last_named(names: Seq<Option<Seq<char>>>, name: Seq<char>) -> Option<int>
    decreases names.len(),
{
    if names.len() == 0 {
        None
    } else if names.last() == Some(name) {
        Some(names.len() - 1)
    } else {
        last_named(names.drop_last(), name)
    }
}

/// The value of each numbered group (`$1`, `$2`, ...): its text, or `undef`.
pub open spec fn numbered_values<'a>(groups: Seq<Option<RegexMatch<'a>>>) -> Seq<PerlModel> {
    Seq::new(
        if groups.len() == 0 { 0 } else { (groups.len() - 1) as nat },
        |i: int| match groups[i + 1] {
            Some(m) => PerlModel::Str(m.text@),
            None => PerlModel::Undef,
        },
    )
}

impl<'a> PerlCaptures<'a> {
    /// The number of groups, the whole match included.
    pub fn len(&self) -> (n: usize)
        ensures
            n == self.groups@.len(),
    {
        self.groups.len()
    }

    /// Group `i`, if it exists and took part in the match.
    pub fn get(&self, i: usize) -> (r: Option<RegexMatch<'a>>)
        ensures
            r == (if i < self.groups@.len() { self.groups@[i as int] } else { None }),
    {
        if i < self.groups.len() {
            self.groups[i]
        } else {
            None
        }
    }

    /// The last group named `name`, if it took part in the match.
    pub fn name(&self, name: &str) -> (r: Option<RegexMatch<'a>>)
        ensures
            r == match last_named(names_view(self.names@), name@) {
                Some(j) => if j < self.groups@.len() { self.groups@[j] } else { None },
                None => None,
            },
    {
        let ghost nv = names_view(self.names@);
        let mut j: usize = self.names.len();
        assert(nv.subrange(0, j as int) =~= nv);
        while j > 0
            invariant
                j <= self.names@.len(),
                nv == names_view(self.names@),
                last_named(nv, name@) == last_named(nv.subrange(0, j as int), name@),
            decreases j,
        {
            let ghost sub = nv.subrange(0, j as int);
            assert(sub.drop_last() =~= nv.subrange(0, j - 1));
            let hit = match &self.names[j - 1] {
                Some(n) => crate::text::str_eq(n.as_str(), name),
                None => false,
            };
            if hit {
                return self.get(j - 1);
            }
            j = j - 1;
        }
        None
    }
}

impl PerlCompiledRegex {
    /// The pattern this was compiled from.
    pub open spec fn pattern(&self) -> Seq<char> {
        match self {
            PerlCompiledRegex::Rust(e) => e.pattern(),
            PerlCompiledRegex::Fancy(e) => e.pattern(),
        }
    }

    /// Whether the pattern matches somewhere in `t` (an engine error counts as no match).
    pub open spec fn matches_text(&self, t: Seq<char>) -> bool {
        match self {
            PerlCompiledRegex::Rust(e) => rust_is_match_of(e.pattern(), t),
            PerlCompiledRegex::Fancy(e) => fancy_is_match_of(e.pattern(), t) == Some(true),
        }
    }

    /// The group spans of the first match in `t`, if any.
    pub open spec fn first_spans(&self, t: Seq<char>) -> Option<Seq<Option<(int, int)>>> {
        match self {
            PerlCompiledRegex::Rust(e) => rust_captures_of(e.pattern(), t),
            PerlCompiledRegex::Fancy(e) => match fancy_captures_of(e.pattern(), t) {
                Some(Some(x)) => Some(x),
                _ => None,
            },
        }
    }

    /// The group spans of every match in `t` (matches the engine failed on left out).
    pub open spec fn all_spans(&self, t: Seq<char>) -> Seq<Seq<Option<(int, int)>>> {
        match self {
            PerlCompiledRegex::Rust(e) => rust_captures_all_of(e.pattern(), t),
            PerlCompiledRegex::Fancy(e) => keep_ok(fancy_captures_all_of(e.pattern(), t)),
        }
    }

    /// The names of the groups.
    pub open spec fn group_names(&self) -> Seq<Option<Seq<char>>> {
        match self {
            PerlCompiledRegex::Rust(e) => rust_names_of(e.pattern()),
            PerlCompiledRegex::Fancy(e) => fancy_names_of(e.pattern()),
        }
    }

    /// Compiles `re_str`: with the `regex` crate when it accepts the pattern, else
    /// with `fancy_regex`; fails with `fancy_regex`'s error text when neither does.
    pub fn compile(re_str: &str) -> (r: Result<Arc<PerlCompiledRegex>, String>)
        ensures
            r is Ok <==> (rust_accepts_of(re_str@) || fancy_error_of(re_str@) is None),
            match r {
                Ok(c) => c.pattern() == re_str@
                    && (rust_accepts_of(re_str@) <==> *c is Rust),
                Err(m) => fancy_error_of(re_str@) == Some(m@),
            },
    {
        match rust_new(re_str, string_of(re_str)) {
            Some(e) => Ok(Arc::new(PerlCompiledRegex::Rust(e))),
            None => match fancy_new(re_str, string_of(re_str)) {
                Ok(e) => Ok(Arc::new(PerlCompiledRegex::Fancy(e))),
                Err(m) => Err(m),
            },
        }
    }

    /// Whether the pattern matches somewhere in `s` (see [`Self::matches_text`]).
    pub fn is_match(&self, s: &str) -> (b: bool)
        ensures
            b == self.matches_text(s@),
    {
        match self {
            PerlCompiledRegex::Rust(e) => rust_is_match(e, s),
            PerlCompiledRegex::Fancy(e) => match fancy_is_match(e, s) {
                Some(b) => b,
                None => false,
            },
        }
    }

    /// The groups of the first match in `text`, with the group names.
    pub fn captures<'t>(&self, text: &'t str) -> (r: Option<PerlCaptures<'t>>)
        ensures
            match (r, self.first_spans(text@)) {
                (Some(c), Some(s)) => spans_of(c.groups@) == s && groups_in(c.groups@, text@)
                    && names_view(c.names@) == self.group_names(),
                (None, None) => true,
                _ => false,
            },
    {
        let names = self.capture_names();
        let groups = match self {
            PerlCompiledRegex::Rust(e) => rust_captures(e, text),
            PerlCompiledRegex::Fancy(e) => match fancy_captures(e, text) {
                Some(Some(g)) => Some(g),
                _ => None,
            },
        };
        match groups {
            Some(g) => Some(PerlCaptures { groups: g, names }),
            None => None,
        }
    }

    /// The groups of every match in `text`, in order; with `fancy_regex`, matches the
    /// engine failed on are left out.
    pub fn captures_iter<'t>(&self, text: &'t str) -> (r: Vec<PerlCaptures<'t>>)
        ensures
            r@.len() == self.all_spans(text@).len(),
            forall|i: int| 0 <= i < r@.len() ==> {
                &&& spans_of(#[trigger] r@[i].groups@) == self.all_spans(text@)[i]
                &&& groups_in(r@[i].groups@, text@)
                &&& names_view(r@[i].names@) == self.group_names()
            },
    {
        let names = self.capture_names();
        let mut r: Vec<PerlCaptures<'t>> = Vec::new();
        match self {
            PerlCompiledRegex::Rust(e) => {
                let mut all = rust_captures_all(e, text);
                let ghost spec_all = rust_captures_all_of(e.pattern(), text@);
                let ghost all0 = all@;
                while all.len() > 0
                    invariant
                        all0.len() == spec_all.len(),
                        forall|k: int| 0 <= k < all0.len() ==> spans_of(#[trigger] all0[k]@) == spec_all[k] && groups_in(all0[k]@, text@),
                        r@.len() + all@.len() == all0.len(),
                        all@ == all0.subrange(r@.len() as int, all0.len() as int),
                        forall|k: int| 0 <= k < r@.len() ==> {
                            &&& spans_of(#[trigger] r@[k].groups@) == spec_all[k]
                            &&& groups_in(r@[k].groups@, text@)
                            &&& names_view(r@[k].names@) == names_view(names@)
                        },
                        names_view(names@) == self.group_names(),
                        self.all_spans(text@) == spec_all,
                    decreases all@.len(),
                {
                    let k = r.len();
                    let g = all.remove(0);
                    assert(g == all0[k as int]);
                    assert(all@ =~= all0.subrange(k + 1, all0.len() as int));
                    r.push(PerlCaptures { groups: g, names: copy_names(&names) });
                }
            },
            PerlCompiledRegex::Fancy(e) => {
                let mut all = fancy_captures_all(e, text);
                let ghost spec_all = fancy_captures_all_of(e.pattern(), text@);
                let ghost all0 = all@;
                assert(all0.len() == all.len());
                let mut taken: usize = 0;
                while all.len() > 0
                    invariant
                        all0.len() == spec_all.len(),
                        forall|k: int| 0 <= k < all0.len() ==> match (#[trigger] all0[k], spec_all[k]) {
                            (Some(v), Some(s)) => spans_of(v@) == s && groups_in(v@, text@),
                            (None, None) => true,
                            _ => false,
                        },
                        taken + all@.len() == all0.len(),
                        all0.len() <= usize::MAX,
                        all@ == all0.subrange(taken as int, all0.len() as int),
                        r@.len() == keep_ok(spec_all.subrange(0, taken as int)).len(),
                        forall|k: int| 0 <= k < r@.len() ==> {
                            &&& spans_of(#[trigger] r@[k].groups@) == keep_ok(spec_all.subrange(0, taken as int))[k]
                            &&& groups_in(r@[k].groups@, text@)
                            &&& names_view(r@[k].names@) == names_view(names@)
                        },
                        names_view(names@) == self.group_names(),
                        self.all_spans(text@) == keep_ok(spec_all),
                    decreases all@.len(),
                {
                    let item = all.remove(0);
                    assert(item == all0[taken as int]);
                    assert(all@ =~= all0.subrange(taken + 1, all0.len() as int));
                    let ghost sub = spec_all.subrange(0, taken + 1);
                    assert(sub.drop_last() =~= spec_all.subrange(0, taken as int));
                    match item {
                        Some(g) => {
                            r.push(PerlCaptures { groups: g, names: copy_names(&names) });
                        },
                        None => {},
                    }
                    taken = taken + 1;
                }
                assert(spec_all.subrange(0, taken as int) =~= spec_all);
            },
        }
        r
    }

    /// The names of the groups (`None` for an unnamed group; group 0 first).
    pub fn capture_names(&self) -> (r: Vec<Option<String>>)
        ensures
            names_view(r@) == self.group_names(),
    {
        match self {
            PerlCompiledRegex::Rust(e) => rust_names(e),
            PerlCompiledRegex::Fancy(e) => fancy_names(e),
        }
    }

    /// `s` with the first match replaced by `replacement` (`$1` and the like
    /// expanded by the engine). When `fancy_regex` reports an error while matching
    /// (an exceeded backtrack limit), `s` comes back unchanged.
    pub fn replace(&self, s: &str, replacement: &str) -> (r: String)
        ensures
            r@ == match self {
                PerlCompiledRegex::Rust(e) => rust_replace_of(e.pattern(), s@, replacement@),
                PerlCompiledRegex::Fancy(e) => text_or(fancy_replace_of(e.pattern(), s@, replacement@), s@),
            },
    {
        match self {
            PerlCompiledRegex::Rust(e) => rust_replace(e, s, replacement),
            PerlCompiledRegex::Fancy(e) => match fancy_replace(e, s, replacement) {
                Some(t) => t,
                None => string_of(s),
            },
        }
    }

    /// `s` with every match replaced by `replacement`; with `fancy_regex`, `s`
    /// unchanged when the engine reports an error.
    pub fn replace_all(&self, s: &str, replacement: &str) -> (r: String)
        ensures
            r@ == match self {
                PerlCompiledRegex::Rust(e) => rust_replace_all_of(e.pattern(), s@, replacement@),
                PerlCompiledRegex::Fancy(e) => text_or(fancy_replace_all_of(e.pattern(), s@, replacement@), s@),
            },
    {
        match self {
            PerlCompiledRegex::Rust(e) => rust_replace_all(e, s, replacement),
            PerlCompiledRegex::Fancy(e) => match fancy_replace_all(e, s, replacement) {
                Some(t) => t,
                None => string_of(s),
            },
        }
    }

    /// The number of non-overlapping matches in `s` (with `fancy_regex`, those the
    /// engine did not fail on).
    pub fn find_iter_count(&self, s: &str) -> (n: usize)
        ensures
            n as int == match self {
                PerlCompiledRegex::Rust(e) => rust_find_all_of(e.pattern(), s@).len() as int,
                PerlCompiledRegex::Fancy(e) => keep_ok(fancy_find_all_of(e.pattern(), s@)).len() as int,
            },
    {
        match self {
            PerlCompiledRegex::Rust(e) => {
                let v = rust_find_all(e, s);
                proof {
                    assert(pairs_view(v@).len() == v@.len());
                }
                v.len()
            },
            PerlCompiledRegex::Fancy(e) => {
                let v = fancy_find_all(e, s);
                let ghost vv = opt_pairs_view(v@);
                let mut n: usize = 0;
                let mut i: usize = 0;
                while i < v.len()
                    invariant
                        i <= v@.len(),
                        vv == opt_pairs_view(v@),
                        n as int == keep_ok(vv.subrange(0, i as int)).len(),
                        n <= i,
                    decreases v@.len() - i,
                {
                    let ghost sub = vv.subrange(0, i + 1);
                    assert(sub.drop_last() =~= vv.subrange(0, i as int));
                    if v[i].is_some() {
                        n = n + 1;
                    }
                    i = i + 1;
                }
                assert(vv.subrange(0, v@.len() as int) =~= vv);
                n
            },
        }
    }

    /// The pieces of `s` between matches (as the `regex` crate's `split` gives them;
    /// with `fancy_regex`, pieces the engine failed on are left out).
    pub fn split_strings(&self, s: &str) -> (r: Vec<String>)
        ensures
            strings_view(r@) == match self {
                PerlCompiledRegex::Rust(e) => rust_split_of(e.pattern(), s@),
                PerlCompiledRegex::Fancy(e) => keep_ok(fancy_split_of(e.pattern(), s@)),
            },
    {
        match self {
            PerlCompiledRegex::Rust(e) => rust_split(e, s),
            PerlCompiledRegex::Fancy(e) => {
                let v = fancy_split(e, s);
                keep_ok_strings(&v)
            },
        }
    }

    /// At most `limit` pieces of `s` (the last holds the rest).
    pub fn splitn_strings(&self, s: &str, limit: usize) -> (r: Vec<String>)
        ensures
            strings_view(r@) == match self {
                PerlCompiledRegex::Rust(e) => rust_splitn_of(e.pattern(), s@, limit as nat),
                PerlCompiledRegex::Fancy(e) => keep_ok(fancy_splitn_of(e.pattern(), s@, limit as nat)),
            },
    {
        match self {
            PerlCompiledRegex::Rust(e) => rust_splitn(e, s, limit),
            PerlCompiledRegex::Fancy(e) => {
                let v = fancy_splitn(e, s, limit);
                keep_ok_strings(&v)
            },
        }
    }
}

/// The values of the numbered groups `$1`, `$2`, ...: the group's text, or `undef`
/// for a group that did not take part in the match.
pub fn numbered_capture_flat(caps: &PerlCaptures<'_>) -> (r: Vec<PerlValue>)
    ensures
        crate::value::model_seq(r@) == numbered_values(caps.groups@),
{
    let mut r: Vec<PerlValue> = Vec::new();
    let n = caps.len();
    let mut i: usize = 1;
    while i < n
        invariant
            n == caps.groups@.len(),
            1 <= i <= (if n == 0 { 1 } else { n }),
            r@.len() == i - 1,
            forall|k: int| 0 <= k < r@.len() ==> crate::value::model_of(#[trigger] r@[k]) == numbered_values(caps.groups@)[k],
        decreases n - i,
    {
        match caps.get(i) {
            Some(m) => r.push(PerlValue::String(string_of(m.text))),
            None => r.push(PerlValue::Undef),
        }
        i = i + 1;
    }
    proof {
        crate::value::lemma_model_seq(r@);
        assert(crate::value::model_seq(r@) =~= numbered_values(caps.groups@));
    }
    r
}

} // verus!
