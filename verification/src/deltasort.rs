//! The ordering of delta lists, and a verified sort for them: entries stand
//! by absolute difference descending, ties broken by name ascending.

use vstd::prelude::*;
use crate::model::Delta;
use crate::numfmt::spec_abs;
use crate::numfmt::abs_u64;
use crate::strutil::lex_leq;
use crate::strutil::lemma_lex_total;
use crate::strutil::lemma_lex_trans;
use crate::strutil::str_le;

verus! {

/// The delta-list order: larger absolute difference first, ties by name.
pub open spec fn delta_leq<T>(a: Delta<T>, b: Delta<T>) -> bool {
    spec_abs(a.diff as int) > spec_abs(b.diff as int) || (spec_abs(a.diff as int) == spec_abs(
        b.diff as int,
    ) && lex_leq(a.name@, b.name@))
}

/// A delta list in order.
pub open spec fn deltas_sorted<T>(s: Seq<Delta<T>>) -> bool {
    forall|i: int, j: int| 0 <= i < j < s.len() ==> delta_leq(#[trigger] s[i], #[trigger] s[j])
}

/// Entry names are pairwise distinct.
pub open spec fn unique_delta_names<T>(s: Seq<Delta<T>>) -> bool {
    forall|i: int, j: int| 0 <= i < j < s.len() ==> s[i].name@ != s[j].name@
}

/// The delta order is total.
pub proof fn lemma_delta_leq_total<T>(a: Delta<T>, b: Delta<T>)
    ensures
        delta_leq(a, b) || delta_leq(b, a),
{
    lemma_lex_total(a.name@, b.name@);
}

/// The delta order is transitive.
pub proof fn lemma_delta_leq_trans<T>(a: Delta<T>, b: Delta<T>, c: Delta<T>)
    requires
        delta_leq(a, b),
        delta_leq(b, c),
    ensures
        delta_leq(a, c),
{
    if spec_abs(a.diff as int) == spec_abs(b.diff as int) && spec_abs(b.diff as int) == spec_abs(
        c.diff as int,
    ) {
        lemma_lex_trans(a.name@, b.name@, c.name@);
    }
}

/// Whether `a` stands at or before `b` in the delta order.
pub fn delta_le_exec<T>(a: &Delta<T>, b: &Delta<T>) -> (r: bool)
    ensures
        r == delta_leq(*a, *b),
{
    let aa = abs_u64(a.diff);
    let bb = abs_u64(b.diff);
    if aa > bb {
        true
    } else if aa == bb {
        str_le(a.name.as_str(), b.name.as_str())
    } else {
        false
    }
}

/// Insert an entry into a sorted delta list, keeping it sorted.
#[verifier::loop_isolation(false)]
pub fn insert_sorted<T>(out: &mut Vec<Delta<T>>, x: Delta<T>)
    requires
        deltas_sorted(old(out)@),
    ensures
        final(out)@.len() == old(out)@.len() + 1,
        deltas_sorted(final(out)@),
        exists|p: int| 0 <= p <= old(out)@.len() && final(out)@ == old(out)@.insert(p, x),
{
    let ghost orig = out@;
    let mut p: usize = 0;
    while p < out.len() && delta_le_exec(&out[p], &x)
        invariant
            0 <= p <= out@.len(),
            out@ == orig,
            forall|t: int| 0 <= t < p ==> delta_leq(#[trigger] out@[t], x),
        decreases out@.len() - p,
    {
        p += 1;
    }
    proof {
        if p < out@.len() {
            lemma_delta_leq_total(out@[p as int], x);
        }
        orig.insert_ensures(p as int, x);
    }
    out.insert(p, x);
    proof {
        let res = out@;
        assert forall|i: int, j: int| 0 <= i < j < res.len() implies delta_leq(
            #[trigger] res[i],
            #[trigger] res[j],
        ) by {
            if j < p {
                assert(res[i] == orig[i] && res[j] == orig[j]);
            } else if i < p && j == p {
                assert(res[i] == orig[i] && res[j] == x);
            } else if i < p && j > p {
                assert(res[i] == orig[i] && res[j] == orig[j - 1]);
                assert(i < j - 1);
                assert(delta_leq(orig[i], orig[j - 1]));
            } else if i == p {
                assert(res[i] == x && res[j] == orig[j - 1]);
                assert(delta_leq(x, orig[p as int]));
                if p < j - 1 {
                    assert(delta_leq(orig[p as int], orig[j - 1]));
                    lemma_delta_leq_trans(x, orig[p as int], orig[j - 1]);
                }
            } else {
                assert(res[i] == orig[i - 1] && res[j] == orig[j - 1]);
                assert(delta_leq(orig[i - 1], orig[j - 1]));
            }
        }
    }
}

/// Sort a delta list by absolute difference descending, name ascending on
/// ties. Keeps exactly the given entries; names stay pairwise distinct.
#[verifier::loop_isolation(false)]
pub fn sort_deltas<T>(v: Vec<Delta<T>>) -> (r: Vec<Delta<T>>)
    requires
        unique_delta_names(v@),
    ensures
        deltas_sorted(r@),
        r@.len() == v@.len(),
        unique_delta_names(r@),
        forall|t: int| 0 <= t < r@.len() ==> v@.contains(#[trigger] r@[t]),
        forall|u: int| 0 <= u < v@.len() ==> r@.contains(#[trigger] v@[u]),
{
    let ghost orig = v@;
    let mut rest = v;
    let mut out: Vec<Delta<T>> = Vec::new();
    proof {
        assert(rest@ =~= orig.take(orig.len() as int));
    }
    while rest.len() > 0
        invariant
            rest@ == orig.take(rest@.len() as int),
            out@.len() == orig.len() - rest@.len(),
            deltas_sorted(out@),
            unique_delta_names(out@),
            forall|t: int|
                0 <= t < out@.len() ==> exists|u: int|
                    rest@.len() <= u < orig.len() && orig[u] == #[trigger] out@[t],
            forall|u: int| rest@.len() <= u < orig.len() ==> out@.contains(#[trigger] orig[u]),
        decreases rest@.len(),
    {
        let ghost n = rest@.len() as int;
        let x_opt = rest.pop();
        let x = match x_opt {
            Some(x) => x,
            None => {
                proof {
                    assert(false);
                }
                return out;
            },
        };
        proof {
            assert(x == orig[n - 1]);
            assert(rest@ =~= orig.take(n - 1));
        }
        let ghost before = out@;
        proof {
            assert forall|t: int| 0 <= t < before.len() implies before[t].name@ != orig[n
                - 1].name@ by {
                let u = choose|u: int| n <= u < orig.len() && orig[u] == before[t];
                assert(orig[n - 1].name@ != orig[u].name@);
            }
        }
        insert_sorted(&mut out, x);
        proof {
            let p = choose|p: int| 0 <= p <= before.len() && out@ == before.insert(p, x);
            before.insert_ensures(p, x);
            assert forall|i: int, j: int| 0 <= i < j < out@.len() implies out@[i].name@
                != out@[j].name@ by {
                if j < p {
                } else if j == p {
                    assert(out@[j] == x && out@[i] == before[i]);
                } else if i == p {
                    assert(out@[i] == x && out@[j] == before[j - 1]);
                } else if i < p {
                    assert(out@[i] == before[i] && out@[j] == before[j - 1]);
                } else {
                    assert(out@[i] == before[i - 1] && out@[j] == before[j - 1]);
                }
            }
            assert forall|t: int| 0 <= t < out@.len() implies exists|u: int|
                n - 1 <= u < orig.len() && orig[u] == #[trigger] out@[t] by {
                if t < p {
                    assert(out@[t] == before[t]);
                } else if t == p {
                    assert(out@[t] == orig[n - 1]);
                } else {
                    assert(out@[t] == before[t - 1]);
                }
            }
            assert forall|u: int| n - 1 <= u < orig.len() implies out@.contains(
                #[trigger] orig[u],
            ) by {
                if u >= n {
                    let t = choose|t: int| 0 <= t < before.len() && before[t] == orig[u];
                    if t < p {
                        assert(out@[t] == orig[u]);
                    } else {
                        assert(out@[t + 1] == orig[u]);
                    }
                } else {
                    assert(out@[p] == orig[u]);
                }
            }
        }
    }
    proof {
        assert forall|t: int| 0 <= t < out@.len() implies orig.contains(#[trigger] out@[t]) by {
            let u = choose|u: int| 0 <= u < orig.len() && orig[u] == out@[t];
            assert(orig[u] == out@[t]);
        }
    }
    out
}

} // verus!
