//! The computed part of Perl's `glob`: the paths the patterns matched, sorted
//! and without repeats.
use vstd::prelude::*;
use crate::value::{PerlValue, PerlModel, model_seq, lemma_model_seq};
use crate::interp::ops::{str_order, str_order_exec, lemma_str_order_antisym, lemma_str_order_trans};
use crate::text::str_chars;

verus! {

/// Every item sorts strictly before the next ones.
pub open spec fn strictly_sorted(s: Seq<Seq<char>>) -> bool {
    forall|i: int, j: int| 0 <= i < j < s.len() ==> str_order(#[trigger] s[i], #[trigger] s[j]) < 0
}

pub open spec fn texts(v: Seq<String>) -> Seq<Seq<char>> {
    v.map_values(|s: String| s@)
}

/// The strings of `paths`, sorted (by character, which is the byte order of their
/// UTF-8 text) with repeats removed.
pub fn sorted_unique(paths: &Vec<String>) -> (r: Vec<String>)
    ensures
        strictly_sorted(texts(r@)),
        forall|x: Seq<char>| texts(r@).contains(x) <==> texts(paths@).contains(x),
{
    let mut out: Vec<String> = Vec::new();
    let mut keys: Vec<Vec<char>> = Vec::new();
    let mut i: usize = 0;
    while i < paths.len()
        invariant
            i <= paths@.len(),
            keys@.len() == out@.len(),
            forall|k: int| 0 <= k < keys@.len() ==> #[trigger] keys@[k]@ == out@[k]@,
            strictly_sorted(texts(out@)),
            forall|x: Seq<char>| texts(out@).contains(x) <==> texts(paths@).subrange(0, i as int).contains(x),
        decreases paths@.len() - i,
    {
        let key = str_chars(paths[i].as_str());
        let ghost p = paths@[i as int]@;
        // The first position whose key does not sort before `key`.
        let mut j: usize = 0;
        while j < keys.len() && str_order_exec(&keys[j], &key) < 0
            invariant
                j <= keys@.len(),
                keys@.len() == out@.len(),
                forall|k: int| 0 <= k < keys@.len() ==> #[trigger] keys@[k]@ == out@[k]@,
                forall|k: int| 0 <= k < j ==> str_order(#[trigger] texts(out@)[k], p) < 0,
                key@ == p,
            decreases keys@.len() - j,
        {
            j = j + 1;
        }
        let ghost before = texts(out@);
        let dup = j < keys.len() && str_order_exec(&keys[j], &key) == 0;
        if dup {
            proof {
                lemma_str_order_antisym(before[j as int], p);
            }
        } else {
            proof {
                if j < keys@.len() {
                    lemma_str_order_antisym(before[j as int], p);
                }
            }
            let s = paths[i].clone();
            out.insert(j, s);
            keys.insert(j, key);
            assert(texts(out@) =~= before.insert(j as int, p));
            assert forall|a: int, b: int| 0 <= a < b < texts(out@).len() implies str_order(#[trigger] texts(out@)[a], #[trigger] texts(out@)[b]) < 0 by {
                let t = texts(out@);
                if b < j {
                } else if a < j && b == j {
                } else if a < j && b > j {
                    if b - 1 > j {
                        lemma_str_order_trans(p, before[j as int], before[b - 1]);
                    }
                    lemma_str_order_trans(t[a], p, t[b]);
                } else if a == j {
                    if b > j + 1 {
                        lemma_str_order_trans(p, before[j as int], t[b]);
                    }
                } else {
                }
            }
        }
        assert forall|x: Seq<char>| texts(out@).contains(x) <==> texts(paths@).subrange(0, i + 1).contains(x) by {
            let pre = texts(paths@).subrange(0, i as int);
            let pre1 = texts(paths@).subrange(0, i + 1);
            assert(pre1 =~= pre.push(p));
            if pre1.contains(x) && x != p {
                let k = choose|k: int| 0 <= k < pre1.len() && pre1[k] == x;
                assert(pre[k] == x);
            }
            if pre.contains(x) {
                let k = choose|k: int| 0 <= k < pre.len() && pre[k] == x;
                assert(pre1[k] == x);
            }
            if dup {
                assert(texts(out@) == before);
                assert(before[j as int] == p);
            } else {
                assert(texts(out@)[j as int] == p);
                if before.contains(x) {
                    let k = choose|k: int| 0 <= k < before.len() && before[k] == x;
                    if k < j {
                        assert(texts(out@)[k] == x);
                    } else {
                        assert(texts(out@)[k + 1] == x);
                    }
                }
                if texts(out@).contains(x) && x != p {
                    let k = choose|k: int| 0 <= k < texts(out@).len() && texts(out@)[k] == x;
                    if k < j {
                        assert(before[k] == x);
                    } else {
                        assert(before[k - 1] == x);
                    }
                }
            }
            assert(pre1[i as int] == p);
        }
        i = i + 1;
    }
    assert(texts(paths@).subrange(0, paths@.len() as int) =~= texts(paths@));
    out
}

/// The value of `glob` for the paths its patterns matched: the array of their
/// strings, sorted and without repeats (see [`sorted_unique`]).
pub fn glob_value(paths: &Vec<String>) -> (r: PerlValue)
    ensures
        r@ matches PerlModel::Array(items) && {
            &&& forall|k: int| 0 <= k < items.len() ==> #[trigger] items[k] is Str
            &&& strictly_sorted(Seq::new(items.len(), |k: int| items[k]->Str_0))
            &&& forall|x: Seq<char>| (exists|k: int| 0 <= k < items.len() && items[k] == PerlModel::Str(x))
                <==> texts(paths@).contains(x)
        },
{
    let sorted = sorted_unique(paths);
    let mut items: Vec<PerlValue> = Vec::new();
    let mut i: usize = 0;
    while i < sorted.len()
        invariant
            i <= sorted@.len(),
            items@.len() == i,
            forall|k: int| 0 <= k < i ==> crate::value::model_of(#[trigger] items@[k]) == PerlModel::Str(sorted@[k]@),
        decreases sorted@.len() - i,
    {
        items.push(PerlValue::String(sorted[i].clone()));
        i = i + 1;
    }
    proof {
        lemma_model_seq(items@);
        let m = model_seq(items@);
        let t = texts(sorted@);
        assert(Seq::new(m.len(), |k: int| m[k]->Str_0) =~= t);
        assert forall|x: Seq<char>| (exists|k: int| 0 <= k < m.len() && m[k] == PerlModel::Str(x)) <==> texts(paths@).contains(x) by {
            if exists|k: int| 0 <= k < m.len() && m[k] == PerlModel::Str(x) {
                let k = choose|k: int| 0 <= k < m.len() && m[k] == PerlModel::Str(x);
                assert(t[k] == x);
            }
            if t.contains(x) {
                let k = choose|k: int| 0 <= k < t.len() && t[k] == x;
                assert(m[k] == PerlModel::Str(x));
            }
        }
    }
    PerlValue::Array(items)
}

} // verus!
