//! Running one remote job in this process: the captured values and the item are
//! handed to the interpreter as the state it starts from, the job's subroutines
//! and block run, and the program's value goes back as JSON.
use vstd::prelude::*;
use crate::value::{PerlValue, PerlModel, model_of, model_seq};
use crate::remote_wire::{
    JsonValue, JsonModel, RemoteJobV1, RemoteRespV1, json_to_perl, perl_to_json_value,
    spec_json_to_perl, spec_perl_to_json, json_model_pairs,
};
use crate::interp::api::{run_with, run_result_with};
use crate::interp::env::{Val, ValM, Bind, Env, EnvM, vals_view, val_wf, env_wf};
use crate::interp::scalar::{Scalar, ScalarM};
use crate::interp::num::{Num, int_num};
use crate::interp::lexer::is_word_char;
use crate::text::{str_chars, string_from_chars, string_of};

verus! {

/// The Perl truth of a handed-in value that the interpreter holds by its index: a
/// floating-point number is false when it is zero (of either sign); an array or a
/// hash, held as a reference, is true.
pub open spec fn held_truth(v: PerlModel) -> bool {
    match v {
        PerlModel::Float(b) => b & 0x7fff_ffff_ffff_ffffu64 != 0,
        _ => true,
    }
}

/// How the interpreter holds the handed-in value `v` with index `k`: `undef`,
/// integers and strings as scalars, anything else by its index.
pub open spec fn held(v: PerlModel, k: nat) -> ValM {
    match v {
        PerlModel::Undef => ValM::S(ScalarM::Undef),
        PerlModel::Integer(i) => ValM::S(ScalarM::Num(int_num(i))),
        PerlModel::Str(s) => ValM::S(ScalarM::Str(s)),
        _ => ValM::Data(k, held_truth(v)),
    }
}

/// A capture name the interpreter can bind: `$` and a word.
pub open spec fn scalar_name(k: Seq<char>) -> bool {
    k.len() >= 2 && k[0] == '$' && forall|i: int| 1 <= i < k.len() ==> is_word_char(#[trigger] k[i])
}

/// The first line of a job's program: a comment that lists the captured scalars
/// in order. The variables the job starts with are named by spans of it.
pub open spec fn head(caps: Seq<(Seq<char>, PerlModel)>) -> Seq<char>
    decreases caps.len(),
{
    if caps.len() == 0 {
        "#"@
    } else if scalar_name(caps.last().0) {
        head(caps.drop_last()) + " "@ + caps.last().0
    } else {
        head(caps.drop_last())
    }
}

/// The lexical variables a job starts with: each captured scalar, named by the
/// word after its `$` in [`head`], in the cell with the capture's index.
pub open spec fn cap_binds(caps: Seq<(Seq<char>, PerlModel)>) -> Seq<Bind>
    decreases caps.len(),
{
    if caps.len() == 0 {
        seq![]
    } else if scalar_name(caps.last().0) {
        let h = head(caps.drop_last()).len();
        cap_binds(caps.drop_last()).push(Bind {
            start: (h + 2) as usize,
            end: (h + 1 + caps.last().0.len()) as usize,
            slot: (caps.len() - 1) as usize,
        })
    } else {
        cap_binds(caps.drop_last())
    }
}

/// The program a job runs: the comment line that ends with `$_`, the job's
/// subroutines, and its block.
pub open spec fn job_text(caps: Seq<(Seq<char>, PerlModel)>, prelude: Seq<char>, block: Seq<char>) -> Seq<char> {
    head(caps) + " $_\n"@ + prelude + "\n"@ + block
}

/// The cells holding the captured values, one per capture in order.
pub open spec fn held_cells(caps: Seq<(Seq<char>, PerlModel)>) -> Seq<ValM> {
    Seq::new(caps.len(), |i: int| held(caps[i].1, i as nat))
}

/// The state a job starts from: the captured scalars as lexicals, and `$_` (named
/// at the end of [`head`]) holding the item, in the cell after the captures.
pub open spec fn job_env(caps: Seq<(Seq<char>, PerlModel)>, item: PerlModel) -> EnvM {
    let h = head(caps).len();
    EnvM {
        cells: held_cells(caps).push(held(item, caps.len())),
        lexicals: cap_binds(caps),
        globals: seq![Bind { start: (h + 2) as usize, end: (h + 3) as usize, slot: caps.len() as usize }],
        subs: seq![],
        closures: seq![],
        captures: seq![],
        args: seq![],
        saved: seq![],
    }
}

/// The values a job hands to the interpreter, by index: the captured values, then
/// the item.
pub open spec fn job_data(caps: Seq<(Seq<char>, PerlModel)>, item: PerlModel) -> Seq<PerlModel> {
    caps.map_values(|p: (Seq<char>, PerlModel)| p.1).push(item)
}

/// The captured values of a job as Perl values.
pub open spec fn job_captures(job: RemoteJobV1) -> Seq<(Seq<char>, PerlModel)> {
    json_model_pairs(job.capture@).map_values(|p: (Seq<char>, JsonModel)| (p.0, spec_json_to_perl(p.1)))
}

/// What a job gives: the JSON form of its program's value, or an error message.
pub open spec fn job_outcome(job: RemoteJobV1) -> Result<JsonModel, Seq<char>> {
    let caps = job_captures(job);
    let item = spec_json_to_perl(job.item@);
    match run_result_with(
        job_text(caps, job.subs_prelude@, job.block_src@),
        job_env(caps, item),
        job_data(caps, item),
    ) {
        Err(e) => Err(e.1),
        Ok(v) => spec_perl_to_json(v),
    }
}

/// Appends the characters of `t`.
fn push_text(out: &mut Vec<char>, t: &str)
    ensures
        final(out)@ == old(out)@ + t@,
{
    let v = str_chars(t);
    let ghost start = out@;
    let mut i: usize = 0;
    while i < v.len()
        invariant
            i <= v@.len(),
            out@ == start + v@.subrange(0, i as int),
        decreases v@.len() - i,
    {
        out.push(v[i]);
        i = i + 1;
        assert(out@ =~= start + v@.subrange(0, i as int));
    }
    assert(v@.subrange(0, v@.len() as int) =~= v@);
}

/// Whether `k` names a scalar (see [`scalar_name`]).
fn is_scalar_name(k: &str) -> (b: bool)
    ensures
        b == scalar_name(k@),
{
    let v = str_chars(k);
    if v.len() < 2 || v[0] != '$' {
        return false;
    }
    let mut i: usize = 1;
    while i < v.len()
        invariant
            v@ == k@,
            1 <= i <= v@.len(),
            forall|j: int| 1 <= j < i ==> is_word_char(#[trigger] v@[j]),
        decreases v@.len() - i,
    {
        let c = v[i];
        let w = ('a' <= c && c <= 'z') || ('A' <= c && c <= 'Z') || c == '_' || ('0' <= c && c <= '9');
        if !w {
            return false;
        }
        i = i + 1;
    }
    true
}

/// A handed-in floating-point number is held as false exactly when it is zero of
/// either sign (bit patterns `0` and `0x8000_0000_0000_0000`); every other one,
/// negative numbers included, is true. Changing the sign never changes its truth.
pub proof fn law_float_truth(b: u64, k: nat)
    ensures
        held(PerlModel::Float(b), k) == ValM::Data(k, !(b == 0u64 || b == 0x8000_0000_0000_0000u64)),
        held_truth(PerlModel::Float(b)) == held_truth(PerlModel::Float(b ^ 0x8000_0000_0000_0000u64)),
{
    assert((b & 0x7fff_ffff_ffff_ffffu64 != 0) == !(b == 0u64 || b == 0x8000_0000_0000_0000u64)) by (bit_vector);
    assert((b & 0x7fff_ffff_ffff_ffffu64) == ((b ^ 0x8000_0000_0000_0000u64) & 0x7fff_ffff_ffff_ffffu64)) by (bit_vector);
}

/// How the interpreter holds a handed-in value (see [`held`]).
fn held_exec(v: &PerlValue, k: usize) -> (r: Val)
    ensures
        r@ == held(v@, k as nat),
        val_wf(r@),
{
    match v {
        PerlValue::Undef => Val::S(Scalar::Undef),
        PerlValue::Integer(i) => Val::S(Scalar::Num(Num { n: *i, d: 1 })),
        PerlValue::String(s) => Val::S(Scalar::Str(str_chars(s.as_str()))),
        PerlValue::Float(b) => Val::Data(k, *b & 0x7fff_ffff_ffff_ffffu64 != 0),
        _ => Val::Data(k, true),
    }
}

/// Appends characters.
fn push_chars(out: &mut Vec<char>, v: &Vec<char>)
    ensures
        final(out)@ == old(out)@ + v@,
{
    let ghost start = out@;
    let mut i: usize = 0;
    while i < v.len()
        invariant
            i <= v@.len(),
            out@ == start + v@.subrange(0, i as int),
        decreases v@.len() - i,
    {
        out.push(v[i]);
        i = i + 1;
        assert(out@ =~= start + v@.subrange(0, i as int));
    }
    assert(v@.subrange(0, v@.len() as int) =~= v@);
}

/// The answer for a job whose program would not fit in memory's address range.
fn too_large(seq: u64) -> (r: RemoteRespV1)
    ensures
        r.seq == seq,
        !r.ok,
        r.result@ == JsonModel::Null,
        r.err_msg@ == "Program is too large"@,
{
    RemoteRespV1 { seq, ok: false, result: JsonValue::Null, err_msg: string_of("Program is too large") }
}

/// The comment line only grows as captures are added.
proof fn lemma_head_grows(caps: Seq<(Seq<char>, PerlModel)>, i: int)
    requires
        0 <= i <= caps.len(),
    ensures
        head(caps.subrange(0, i)).len() <= head(caps).len(),
    decreases caps.len(),
{
    if i == caps.len() {
        assert(caps.subrange(0, i) =~= caps);
    } else {
        assert(caps.drop_last().subrange(0, i) =~= caps.subrange(0, i));
        lemma_head_grows(caps.drop_last(), i);
    }
}

/// A job whose comment line alone passes the limit is refused as too large.
proof fn lemma_job_too_large(job: RemoteJobV1, k: int)
    requires
        0 <= k <= job_captures(job).len(),
        head(job_captures(job).subrange(0, k)).len() + 9 > usize::MAX,
    ensures
        job_outcome(job) == Err::<JsonModel, Seq<char>>("Program is too large"@),
{
    let caps = job_captures(job);
    lemma_head_grows(caps, k);
    let t = job_text(caps, job.subs_prelude@, job.block_src@);
    reveal_strlit(" $_\n");
    reveal_strlit("\n");
    assert(t.len() >= head(caps).len() + 5);
}

/// Runs one job in this process (see [`job_outcome`]).
pub fn run_job_local(job: &RemoteJobV1) -> (r: RemoteRespV1)
    ensures
        r.seq == job.seq,
        match job_outcome(*job) {
            Ok(j) => r.ok && r.result@ == j && r.err_msg@ == Seq::<char>::empty(),
            Err(m) => !r.ok && r.result@ == JsonModel::Null && r.err_msg@ == m,
        },
{
    let ghost caps = job_captures(*job);
    proof {
        crate::remote_wire::lemma_json_model_pairs(job.capture@);
    }
    let n = job.capture.len();
    let mut hdr: Vec<char> = Vec::new();
    hdr.push('#');
    assert(hdr@ =~= "#"@) by {
        reveal_strlit("#");
    }
    let mut cells: Vec<Val> = Vec::new();
    let mut lexicals: Vec<Bind> = Vec::new();
    let mut data: Vec<PerlValue> = Vec::new();
    let mut i: usize = 0;
    assert(caps.subrange(0, 0) =~= Seq::<(Seq<char>, PerlModel)>::empty());
    assert(vals_view(cells@) =~= held_cells(caps.subrange(0, 0)));
    assert(model_seq(data@) =~= caps.subrange(0, 0).map_values(|p: (Seq<char>, PerlModel)| p.1));
    while i < n
        invariant
            n == job.capture@.len(),
            i <= n,
            caps == job_captures(*job),
            caps.len() == n,
            forall|j: int|
                0 <= j < n ==> #[trigger] json_model_pairs(job.capture@)[j] == (
                    job.capture@[j].0@,
                    crate::remote_wire::json_model_of(job.capture@[j].1),
                ),
            json_model_pairs(job.capture@).len() == n,
            hdr@ == head(caps.subrange(0, i as int)),
            lexicals@ == cap_binds(caps.subrange(0, i as int)),
            vals_view(cells@) == held_cells(caps.subrange(0, i as int)),
            forall|j: int| 0 <= j < cells@.len() ==> val_wf(#[trigger] cells@[j]@),
            model_seq(data@) == caps.subrange(0, i as int).map_values(|p: (Seq<char>, PerlModel)| p.1),
        decreases n - i,
    {
        let ghost sub = caps.subrange(0, i + 1);
        assert(sub.drop_last() =~= caps.subrange(0, i as int));
        let (name, value) = &job.capture[i];
        let pv = match json_to_perl(value) {
            Ok(p) => p,
            Err(_) => PerlValue::Undef,
        };
        assert(caps[i as int] == (name@, pv@));
        assert(sub.last() == caps[i as int]);
        let ghost old_cells = cells@;
        let ghost old_data = data@;
        let c = held_exec(&pv, i);
        cells.push(c);
        assert(vals_view(cells@) =~= held_cells(sub)) by {
            assert(cells@ == old_cells.push(c));
            assert(vals_view(cells@) =~= vals_view(old_cells).push(c@));
            assert(held_cells(sub) =~= held_cells(caps.subrange(0, i as int)).push(held(pv@, i as nat)));
        }
        if is_scalar_name(name.as_str()) {
            let cs = str_chars(name.as_str());
            if cs.len() > usize::MAX - 10 || hdr.len() > usize::MAX - 10 - cs.len() {
                proof {
                    reveal_strlit(" ");
                    assert(head(sub) == head(caps.subrange(0, i as int)) + " "@ + name@);
                    lemma_job_too_large(*job, i + 1);
                }
                return too_large(job.seq);
            }
            let ghost old_hdr = hdr@;
            lexicals.push(Bind { start: hdr.len() + 2, end: hdr.len() + 1 + cs.len(), slot: i });
            hdr.push(' ');
            push_chars(&mut hdr, &cs);
            assert(hdr@ =~= old_hdr + " "@ + name@) by {
                reveal_strlit(" ");
            }
        }
        data.push(pv);
        assert(model_seq(data@) =~= sub.map_values(|p: (Seq<char>, PerlModel)| p.1)) by {
            assert(data@.drop_last() =~= old_data);
        }
        i = i + 1;
    }
    assert(caps.subrange(0, n as int) =~= caps);
    let item = match json_to_perl(&job.item) {
        Ok(p) => p,
        Err(_) => PerlValue::Undef,
    };
    if hdr.len() >= usize::MAX - 8 {
        proof {
            lemma_job_too_large(*job, n as int);
        }
        return too_large(job.seq);
    }
    let h = hdr.len();
    let ghost old_cells = cells@;
    let ghost old_data = data@;
    cells.push(held_exec(&item, n));
    data.push(item);
    let mut globals: Vec<Bind> = Vec::new();
    globals.push(Bind { start: h + 2, end: h + 3, slot: n });
    let env = Env {
        cells,
        lexicals,
        globals,
        subs: Vec::new(),
        closures: Vec::new(),
        captures: Vec::new(),
        args: Vec::new(),
        saved: Vec::new(),
    };
    proof {
        assert(env@.cells =~= job_env(caps, item@).cells);
        assert(env@.globals =~= job_env(caps, item@).globals);
        assert(env@.args =~= seq![]);
        assert(env@.saved =~= seq![]);
        assert(env@.subs =~= seq![]);
        assert(env@.closures =~= seq![]);
        assert(env@.captures =~= seq![]);
        assert(env@ == job_env(caps, item@));
        assert(model_seq(data@) =~= job_data(caps, item@)) by {
            assert(data@.drop_last() =~= old_data);
        }
        assert forall|j: int| 0 <= j < env@.cells.len() implies val_wf(#[trigger] env@.cells[j]) by {
            if j < old_cells.len() {
                assert(val_wf(old_cells[j]@));
            }
        }
    }
    let mut src = hdr;
    push_text(&mut src, " $_\n");
    push_text(&mut src, job.subs_prelude.as_str());
    push_text(&mut src, "\n");
    push_text(&mut src, job.block_src.as_str());
    assert(src@ =~= job_text(caps, job.subs_prelude@, job.block_src@));
    let code = string_from_chars(&src);
    match run_with(code.as_str(), env, data) {
        Ok(v) => match perl_to_json_value(&v) {
            Ok(j) => RemoteRespV1 { seq: job.seq, ok: true, result: j, err_msg: String::new() },
            Err(e) => RemoteRespV1 { seq: job.seq, ok: false, result: JsonValue::Null, err_msg: e },
        },
        Err(e) => RemoteRespV1 { seq: job.seq, ok: false, result: JsonValue::Null, err_msg: e.message },
    }
}

} // verus!
