//! The interpreter's run-time state: values, variables, scopes and subroutines.
//!
//! Names are spans of the program text; a variable lives in a cell of a store
//! that only grows, so that closures share the cells they capture.
use vstd::prelude::*;
use crate::interp::scalar::{Scalar, ScalarM, scalar_wf};

verus! {

/// A run-time value.
pub enum Val {
    /// A scalar.
    S(Scalar),
    /// A reference to the closure with this index.
    Code(usize),
    /// The typeglob named by this span of the program text.
    Glob(usize, usize),
    /// The value with this index among those the caller handed in, and its Perl
    /// truth: an array, a hash or a floating-point number, which the interpreter
    /// holds, passes on and tests for truth but does not compute on.
    Data(usize, bool),
}

/// The model of a [`Val`].
pub enum ValM {
    S(ScalarM),
    Code(nat),
    Glob(int, int),
    Data(nat, bool),
}

impl View for Val {
    type V = ValM;

    open spec fn view(&self) -> ValM {
        match self {
            Val::S(s) => ValM::S(s@),
            Val::Code(k) => ValM::Code(*k as nat),
            Val::Glob(s, e) => ValM::Glob(*s as int, *e as int),
            Val::Data(k, t) => ValM::Data(*k as nat, *t),
        }
    }
}

impl Val {
    /// A copy of this value.
    pub fn copy(&self) -> (r: Val)
        ensures
            r@ == self@,
    {
        match self {
            Val::S(s) => Val::S(s.copy()),
            Val::Code(k) => Val::Code(*k),
            Val::Glob(s, e) => Val::Glob(*s, *e),
            Val::Data(k, t) => Val::Data(*k, *t),
        }
    }
}

/// Numbers inside a value are well formed.
pub open spec fn val_wf(v: ValM) -> bool {
    v matches ValM::S(s) ==> scalar_wf(s)
}

/// A name (a span of the program text) bound to a slot.
#[derive(Clone, Copy)]
pub struct Bind {
    pub start: usize,
    pub end: usize,
    pub slot: usize,
}

/// A closure: the token where its body block starts, and the lexical bindings it
/// captured (a range of the capture list).
#[derive(Clone, Copy)]
pub struct Closure {
    pub body: usize,
    pub cap_start: usize,
    pub cap_len: usize,
}

/// The value a `local` replaced, to be put back when its block ends.
pub struct Saved {
    pub slot: usize,
    pub val: Val,
}

/// The interpreter state.
pub struct Env {
    /// The store of variable cells.
    pub cells: Vec<Val>,
    /// Lexical (`my`, `our`) bindings, innermost last.
    pub lexicals: Vec<Bind>,
    /// Package scalars.
    pub globals: Vec<Bind>,
    /// Named subroutines; the slot is a closure index.
    pub subs: Vec<Bind>,
    /// All closures made so far.
    pub closures: Vec<Closure>,
    /// Captured bindings of the closures.
    pub captures: Vec<Bind>,
    /// The arguments (`@_`) of the current call.
    pub args: Vec<Val>,
    /// Values replaced by `local`, innermost last.
    pub saved: Vec<Saved>,
}

/// The model of an [`Env`].
pub struct EnvM {
    pub cells: Seq<ValM>,
    pub lexicals: Seq<Bind>,
    pub globals: Seq<Bind>,
    pub subs: Seq<Bind>,
    pub closures: Seq<Closure>,
    pub captures: Seq<Bind>,
    pub args: Seq<ValM>,
    pub saved: Seq<(usize, ValM)>,
}

pub open spec fn vals_view(v: Seq<Val>) -> Seq<ValM> {
    v.map_values(|x: Val| x@)
}

pub open spec fn saved_view(v: Seq<Saved>) -> Seq<(usize, ValM)> {
    v.map_values(|x: Saved| (x.slot, x.val@))
}

impl View for Env {
    type V = EnvM;

    open spec fn view(&self) -> EnvM {
        EnvM {
            cells: vals_view(self.cells@),
            lexicals: self.lexicals@,
            globals: self.globals@,
            subs: self.subs@,
            closures: self.closures@,
            captures: self.captures@,
            args: vals_view(self.args@),
            saved: saved_view(self.saved@),
        }
    }
}

/// Every value held by the state is well formed.
pub open spec fn env_wf(e: EnvM) -> bool {
    &&& forall|i: int| 0 <= i < e.cells.len() ==> val_wf(#[trigger] e.cells[i])
    &&& forall|i: int| 0 <= i < e.args.len() ==> val_wf(#[trigger] e.args[i])
    &&& forall|i: int| 0 <= i < e.saved.len() ==> val_wf(#[trigger] e.saved[i].1)
}

/// The empty state.
pub open spec fn empty_env() -> EnvM {
    EnvM {
        cells: seq![],
        lexicals: seq![],
        globals: seq![],
        subs: seq![],
        closures: seq![],
        captures: seq![],
        args: seq![],
        saved: seq![],
    }
}

/// The span `(s, e)` lies inside the text.
pub open spec fn span_ok(src: Seq<char>, s: int, e: int) -> bool {
    0 <= s <= e <= src.len()
}

/// Two spans of the text hold the same name.
pub open spec fn same_name(src: Seq<char>, s1: int, e1: int, s2: int, e2: int) -> bool {
    span_ok(src, s1, e1) && span_ok(src, s2, e2) && src.subrange(s1, e1) == src.subrange(s2, e2)
}

/// The index of the last binding of the name `(s, e)`.
pub open spec fn find_bind(src: Seq<char>, bs: Seq<Bind>, s: int, e: int) -> Option<int>
    decreases bs.len(),
{
    if bs.len() == 0 {
        None
    } else if same_name(src, bs.last().start as int, bs.last().end as int, s, e) {
        Some(bs.len() - 1)
    } else {
        find_bind(src, bs.drop_last(), s, e)
    }
}

/// The value in a cell (`undef` for a slot that does not exist).
pub open spec fn cell_get(e: EnvM, slot: int) -> ValM {
    if 0 <= slot < e.cells.len() {
        e.cells[slot]
    } else {
        ValM::S(ScalarM::Undef)
    }
}

/// The state with a cell overwritten (unchanged for a slot that does not exist).
pub open spec fn cell_set(e: EnvM, slot: int, v: ValM) -> EnvM {
    if 0 <= slot < e.cells.len() {
        EnvM { cells: e.cells.update(slot, v), ..e }
    } else {
        e
    }
}

/// The slot of the scalar variable named `(s, end)`: its innermost lexical binding,
/// else the package scalar of that name.
pub open spec fn var_slot(src: Seq<char>, e: EnvM, s: int, end: int) -> Option<int> {
    match find_bind(src, e.lexicals, s, end) {
        Some(i) => Some(e.lexicals[i].slot as int),
        None => match find_bind(src, e.globals, s, end) {
            Some(i) => Some(e.globals[i].slot as int),
            None => None,
        },
    }
}

/// The value of a scalar variable (`undef` when it does not exist).
pub open spec fn read_var(src: Seq<char>, e: EnvM, s: int, end: int) -> ValM {
    match var_slot(src, e, s, end) {
        Some(c) => cell_get(e, c),
        None => ValM::S(ScalarM::Undef),
    }
}

/// A new package scalar holding `v`.
pub open spec fn new_global(e: EnvM, s: usize, end: usize, v: ValM) -> EnvM {
    EnvM {
        cells: e.cells.push(v),
        globals: e.globals.push(Bind { start: s, end, slot: e.cells.len() as usize }),
        ..e
    }
}

/// Assigns to a scalar variable, creating the package scalar if the name is unbound.
pub open spec fn assign_var(src: Seq<char>, e: EnvM, s: usize, end: usize, v: ValM) -> EnvM {
    match var_slot(src, e, s as int, end as int) {
        Some(c) => cell_set(e, c, v),
        None => new_global(e, s, end, v),
    }
}

/// `my`: a new lexical holding `v`.
pub open spec fn declare_my(e: EnvM, s: usize, end: usize, v: ValM) -> EnvM {
    EnvM {
        cells: e.cells.push(v),
        lexicals: e.lexicals.push(Bind { start: s, end, slot: e.cells.len() as usize }),
        ..e
    }
}

/// The slot of the package scalar of a name, created (as `undef`) if needed.
pub open spec fn global_slot(src: Seq<char>, e: EnvM, s: usize, end: usize) -> (EnvM, int) {
    match find_bind(src, e.globals, s as int, end as int) {
        Some(i) => (e, e.globals[i].slot as int),
        None => (new_global(e, s, end, ValM::S(ScalarM::Undef)), e.cells.len() as int),
    }
}

/// `our`: a lexical alias of the package scalar, which then holds `v` if given.
pub open spec fn declare_our(src: Seq<char>, e: EnvM, s: usize, end: usize, v: Option<ValM>) -> EnvM {
    let (e1, slot) = global_slot(src, e, s, end);
    let e2 = EnvM { lexicals: e1.lexicals.push(Bind { start: s, end, slot: slot as usize }), ..e1 };
    match v {
        Some(x) => cell_set(e2, slot, x),
        None => e2,
    }
}

/// `local`: saves the variable's value for the end of the block, then sets it.
pub open spec fn localize(src: Seq<char>, e: EnvM, s: usize, end: usize, v: ValM) -> EnvM {
    let (e1, slot) = match var_slot(src, e, s as int, end as int) {
        Some(c) => (e, c),
        None => global_slot(src, e, s, end),
    };
    let e2 = EnvM { saved: e1.saved.push((slot as usize, cell_get(e1, slot))), ..e1 };
    cell_set(e2, slot, v)
}

/// Puts back the values saved by `local` after the first `n`.
pub open spec fn unwind_saved(e: EnvM, n: int) -> EnvM
    decreases e.saved.len(),
{
    if e.saved.len() <= n || e.saved.len() == 0 {
        e
    } else {
        let last = e.saved.last();
        unwind_saved(cell_set(EnvM { saved: e.saved.drop_last(), ..e }, last.0 as int, last.1), n)
    }
}

/// Ends a block: puts back `local` values and drops the block's lexicals.
pub open spec fn close_scope(e: EnvM, nlex: int, nsaved: int) -> EnvM {
    let e1 = unwind_saved(e, nsaved);
    if 0 <= nlex <= e1.lexicals.len() {
        EnvM { lexicals: e1.lexicals.subrange(0, nlex), ..e1 }
    } else {
        e1
    }
}

/// A closure of the block at `body` over the current lexicals, and its index.
pub open spec fn make_closure(e: EnvM, body: usize) -> (EnvM, int) {
    (
        EnvM {
            captures: e.captures + e.lexicals,
            closures: e.closures.push(
                Closure { body, cap_start: e.captures.len() as usize, cap_len: e.lexicals.len() as usize },
            ),
            ..e
        },
        e.closures.len() as int,
    )
}

/// Names a subroutine.
pub open spec fn define_sub(e: EnvM, s: usize, end: usize, k: usize) -> EnvM {
    EnvM { subs: e.subs.push(Bind { start: s, end, slot: k }), ..e }
}

/// The closure of a named subroutine.
pub open spec fn find_sub(src: Seq<char>, e: EnvM, s: int, end: int) -> Option<int> {
    match find_bind(src, e.subs, s, end) {
        Some(i) => Some(e.subs[i].slot as int),
        None => None,
    }
}

/// The state inside a call of closure `k` with arguments `args`.
pub open spec fn enter_call(e: EnvM, k: int, args: Seq<ValM>) -> Option<EnvM> {
    if 0 <= k < e.closures.len() {
        let c = e.closures[k];
        if c.cap_start + c.cap_len <= e.captures.len() {
            Some(EnvM {
                lexicals: e.captures.subrange(c.cap_start as int, c.cap_start + c.cap_len),
                args,
                ..e
            })
        } else {
            None
        }
    } else {
        None
    }
}

/// The state after a call returns: the caller's lexicals and arguments again.
pub open spec fn leave_call(e: EnvM, lexicals: Seq<Bind>, args: Seq<ValM>) -> EnvM {
    EnvM { lexicals, args, ..e }
}

/// Element `i` of `@_` (negative counts from the end; `undef` outside).
pub open spec fn arg_get(e: EnvM, i: int) -> ValM {
    let j = if i < 0 { e.args.len() + i } else { i };
    if 0 <= j < e.args.len() {
        e.args[j]
    } else {
        ValM::S(ScalarM::Undef)
    }
}

/// Equality of two spans of the text.
pub fn same_name_exec(src: &Vec<char>, s1: usize, e1: usize, s2: usize, e2: usize) -> (r: bool)
    ensures
        r == same_name(src@, s1 as int, e1 as int, s2 as int, e2 as int),
{
    if !(s1 <= e1 && e1 <= src.len() && s2 <= e2 && e2 <= src.len()) {
        return false;
    }
    if e1 - s1 != e2 - s2 {
        assert(src@.subrange(s1 as int, e1 as int).len() != src@.subrange(s2 as int, e2 as int).len());
        return false;
    }
    let n = e1 - s1;
    let ghost a = src@.subrange(s1 as int, e1 as int);
    let ghost b = src@.subrange(s2 as int, e2 as int);
    let mut i: usize = 0;
    while i < n
        invariant
            s1 <= e1 <= src@.len(),
            s2 <= e2 <= src@.len(),
            n == e1 - s1,
            n == e2 - s2,
            a == src@.subrange(s1 as int, e1 as int),
            b == src@.subrange(s2 as int, e2 as int),
            i <= n,
            forall|j: int| 0 <= j < i ==> #[trigger] a[j] == b[j],
        decreases n - i,
    {
        assert(a[i as int] == src@[s1 + i]);
        assert(b[i as int] == src@[s2 + i]);
        if src[s1 + i] != src[s2 + i] {
            return false;
        }
        i = i + 1;
    }
    assert(src@.subrange(s1 as int, e1 as int) =~= src@.subrange(s2 as int, e2 as int));
    true
}

/// The index of the last binding of the name `(s, e)` (see [`find_bind`]).
pub fn find_bind_exec(src: &Vec<char>, bs: &Vec<Bind>, s: usize, e: usize) -> (r: Option<usize>)
    ensures
        match r {
            Some(i) => find_bind(src@, bs@, s as int, e as int) == Some(i as int) && i < bs@.len(),
            None => find_bind(src@, bs@, s as int, e as int) is None,
        },
{
    let mut i: usize = bs.len();
    assert(bs@.subrange(0, bs@.len() as int) =~= bs@);
    while i > 0
        invariant
            i <= bs@.len(),
            find_bind(src@, bs@, s as int, e as int) == find_bind(src@, bs@.subrange(0, i as int), s as int, e as int),
        decreases i,
    {
        let ghost sub = bs@.subrange(0, i as int);
        assert(sub.drop_last() =~= bs@.subrange(0, i - 1));
        let b = bs[i - 1];
        if same_name_exec(src, b.start, b.end, s, e) {
            return Some(i - 1);
        }
        i = i - 1;
    }
    None
}

impl Env {
    /// The empty state.
    pub fn new() -> (r: Env)
        ensures
            r@ == empty_env(),
            env_wf(r@),
    {
        let r = Env {
            cells: Vec::new(),
            lexicals: Vec::new(),
            globals: Vec::new(),
            subs: Vec::new(),
            closures: Vec::new(),
            captures: Vec::new(),
            args: Vec::new(),
            saved: Vec::new(),
        };
        assert(r@.cells =~= seq![]);
        assert(r@.args =~= seq![]);
        assert(r@.saved =~= seq![]);
        r
    }

    /// The value in a cell (see [`cell_get`]).
    pub fn cell_get(&self, slot: usize) -> (r: Val)
        ensures
            r@ == cell_get(self@, slot as int),
            env_wf(self@) ==> val_wf(r@),
    {
        if slot < self.cells.len() {
            self.cells[slot].copy()
        } else {
            Val::S(Scalar::Undef)
        }
    }

    /// Overwrites a cell (see [`cell_set`]).
    pub fn cell_set(&mut self, slot: usize, v: Val)
        requires
            env_wf(old(self)@),
            val_wf(v@),
        ensures
            final(self)@ == cell_set(old(self)@, slot as int, v@),
            env_wf(final(self)@),
    {
        if slot < self.cells.len() {
            let ghost vv = v@;
            self.cells.set(slot, v);
            assert(self@.cells =~= old(self)@.cells.update(slot as int, vv));
            assert(self@ == cell_set(old(self)@, slot as int, vv));
        }
    }

    /// The slot of a scalar variable (see [`var_slot`]).
    pub fn var_slot(&self, src: &Vec<char>, s: usize, end: usize) -> (r: Option<usize>)
        ensures
            match r {
                Some(c) => var_slot(src@, self@, s as int, end as int) == Some(c as int),
                None => var_slot(src@, self@, s as int, end as int) is None,
            },
    {
        match find_bind_exec(src, &self.lexicals, s, end) {
            Some(i) => Some(self.lexicals[i].slot),
            None => match find_bind_exec(src, &self.globals, s, end) {
                Some(i) => Some(self.globals[i].slot),
                None => None,
            },
        }
    }

    /// The value of a scalar variable (see [`read_var`]).
    pub fn read_var(&self, src: &Vec<char>, s: usize, end: usize) -> (r: Val)
        ensures
            r@ == read_var(src@, self@, s as int, end as int),
            env_wf(self@) ==> val_wf(r@),
    {
        match self.var_slot(src, s, end) {
            Some(c) => self.cell_get(c),
            None => Val::S(Scalar::Undef),
        }
    }

    /// A new package scalar (see [`new_global`]); returns its slot.
    pub fn new_global(&mut self, s: usize, end: usize, v: Val) -> (slot: usize)
        requires
            env_wf(old(self)@),
            val_wf(v@),
        ensures
            final(self)@ == new_global(old(self)@, s, end, v@),
            slot as int == old(self)@.cells.len(),
            env_wf(final(self)@),
    {
        let slot = self.cells.len();
        let ghost vv = v@;
        self.cells.push(v);
        self.globals.push(Bind { start: s, end, slot });
        assert(self@.cells =~= old(self)@.cells.push(vv));
        assert(self@ == new_global(old(self)@, s, end, vv));
        slot
    }

    /// Assigns to a scalar variable (see [`assign_var`]).
    pub fn assign_var(&mut self, src: &Vec<char>, s: usize, end: usize, v: Val)
        requires
            env_wf(old(self)@),
            val_wf(v@),
        ensures
            final(self)@ == assign_var(src@, old(self)@, s, end, v@),
            env_wf(final(self)@),
    {
        match self.var_slot(src, s, end) {
            Some(c) => self.cell_set(c, v),
            None => {
                self.new_global(s, end, v);
            },
        }
    }

    /// `my` (see [`declare_my`]).
    pub fn declare_my(&mut self, s: usize, end: usize, v: Val)
        requires
            env_wf(old(self)@),
            val_wf(v@),
        ensures
            final(self)@ == declare_my(old(self)@, s, end, v@),
            env_wf(final(self)@),
    {
        let slot = self.cells.len();
        let ghost vv = v@;
        self.cells.push(v);
        self.lexicals.push(Bind { start: s, end, slot });
        assert(self@.cells =~= old(self)@.cells.push(vv));
        assert(self@ == declare_my(old(self)@, s, end, vv));
    }

    /// The slot of a package scalar, created if needed (see [`global_slot`]).
    pub fn global_slot(&mut self, src: &Vec<char>, s: usize, end: usize) -> (slot: usize)
        requires
            env_wf(old(self)@),
        ensures
            (final(self)@, slot as int) == global_slot(src@, old(self)@, s, end),
            env_wf(final(self)@),
    {
        match find_bind_exec(src, &self.globals, s, end) {
            Some(i) => self.globals[i].slot,
            None => self.new_global(s, end, Val::S(Scalar::Undef)),
        }
    }

    /// `our` (see [`declare_our`]).
    pub fn declare_our(&mut self, src: &Vec<char>, s: usize, end: usize, v: Option<Val>)
        requires
            env_wf(old(self)@),
            v matches Some(x) ==> val_wf(x@),
        ensures
            final(self)@ == declare_our(src@, old(self)@, s, end, match v { Some(x) => Some(x@), None => None }),
            env_wf(final(self)@),
    {
        let slot = self.global_slot(src, s, end);
        self.lexicals.push(Bind { start: s, end, slot });
        match v {
            Some(x) => self.cell_set(slot, x),
            None => {},
        }
    }

    /// `local` (see [`localize`]).
    pub fn localize(&mut self, src: &Vec<char>, s: usize, end: usize, v: Val)
        requires
            env_wf(old(self)@),
            val_wf(v@),
        ensures
            final(self)@ == localize(src@, old(self)@, s, end, v@),
            env_wf(final(self)@),
    {
        let slot = match self.var_slot(src, s, end) {
            Some(c) => c,
            None => self.global_slot(src, s, end),
        };
        let ghost e1 = self@;
        let old_val = self.cell_get(slot);
        let ghost ov = old_val@;
        self.saved.push(Saved { slot, val: old_val });
        assert(self@.saved =~= e1.saved.push((slot, ov)));
        self.cell_set(slot, v);
    }

    /// Puts back the values saved by `local` after the first `n` (see [`unwind_saved`]).
    pub fn unwind_saved(&mut self, n: usize)
        requires
            env_wf(old(self)@),
        ensures
            final(self)@ == unwind_saved(old(self)@, n as int),
            env_wf(final(self)@),
        decreases old(self)@.saved.len(),
    {
        if self.saved.len() <= n || self.saved.len() == 0 {
            return;
        }
        let ghost e0 = self@;
        let last = self.saved.pop().unwrap();
        assert(self@.saved =~= e0.saved.drop_last());
        assert(e0.saved.last() == (last.slot, last.val@));
        assert(val_wf(e0.saved[e0.saved.len() - 1].1));
        assert forall|i: int| 0 <= i < self@.saved.len() implies val_wf(#[trigger] self@.saved[i].1) by {
            assert(self@.saved[i] == e0.saved[i]);
        }
        assert(self@.cells == e0.cells);
        assert(self@.args == e0.args);
        assert(env_wf(self@));
        self.cell_set(last.slot, last.val);
        self.unwind_saved(n);
    }

    /// Ends a block (see [`close_scope`]).
    pub fn close_scope(&mut self, nlex: usize, nsaved: usize)
        requires
            env_wf(old(self)@),
        ensures
            final(self)@ == close_scope(old(self)@, nlex as int, nsaved as int),
            env_wf(final(self)@),
    {
        self.unwind_saved(nsaved);
        if nlex <= self.lexicals.len() {
            self.lexicals.truncate(nlex);
        }
    }

    /// Makes a closure of the block at `body` (see [`make_closure`]).
    pub fn make_closure(&mut self, body: usize) -> (k: usize)
        requires
            env_wf(old(self)@),
        ensures
            (final(self)@, k as int) == make_closure(old(self)@, body),
            env_wf(final(self)@),
    {
        let cap_start = self.captures.len();
        let cap_len = self.lexicals.len();
        let mut i: usize = 0;
        while i < self.lexicals.len()
            invariant
                i <= self.lexicals@.len(),
                self.lexicals@ == old(self).lexicals@,
                self.captures@ == old(self).captures@ + self.lexicals@.subrange(0, i as int),
                self.cells@ == old(self).cells@,
                self.globals@ == old(self).globals@,
                self.subs@ == old(self).subs@,
                self.closures@ == old(self).closures@,
                self.args@ == old(self).args@,
                self.saved@ == old(self).saved@,
            decreases self.lexicals@.len() - i,
        {
            let b = self.lexicals[i];
            self.captures.push(b);
            i = i + 1;
            assert(self.captures@ =~= old(self).captures@ + self.lexicals@.subrange(0, i as int));
        }
        assert(self.lexicals@.subrange(0, i as int) =~= self.lexicals@);
        let k = self.closures.len();
        self.closures.push(Closure { body, cap_start, cap_len });
        k
    }

    /// Names a subroutine (see [`define_sub`]).
    pub fn define_sub(&mut self, s: usize, end: usize, k: usize)
        ensures
            final(self)@ == define_sub(old(self)@, s, end, k),
    {
        self.subs.push(Bind { start: s, end, slot: k });
    }

    /// The closure of a named subroutine (see [`find_sub`]).
    pub fn find_sub(&self, src: &Vec<char>, s: usize, end: usize) -> (r: Option<usize>)
        ensures
            match r {
                Some(k) => find_sub(src@, self@, s as int, end as int) == Some(k as int),
                None => find_sub(src@, self@, s as int, end as int) is None,
            },
    {
        match find_bind_exec(src, &self.subs, s, end) {
            Some(i) => Some(self.subs[i].slot),
            None => None,
        }
    }

    /// Element `i` of `@_` (see [`arg_get`]).
    pub fn arg_get(&self, i: i64) -> (r: Val)
        ensures
            r@ == arg_get(self@, i as int),
            env_wf(self@) ==> val_wf(r@),
    {
        let n = self.args.len();
        if i < 0 {
            let k = -(i as i128);
            if k <= n as i128 {
                let j = (n as i128 - k) as usize;
                self.args[j].copy()
            } else {
                Val::S(Scalar::Undef)
            }
        } else if (i as u64 as u128) < (n as u128) {
            self.args[i as usize].copy()
        } else {
            Val::S(Scalar::Undef)
        }
    }
}

} // verus!
