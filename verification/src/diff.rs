//! The differ: a structured comparison of two build contexts.
//!
//! Each delta list takes the union of the names on both sides, computes the
//! signed difference per name (an absent side counting as zero), leaves out
//! the names whose difference is zero, and stands sorted by absolute
//! difference descending with ties broken by name. The totals are computed
//! independently of the lists.

use vstd::prelude::*;
use crate::aggregate::FlatIr;
use crate::aggregate::FlatSym;
use crate::aggregate::agg_ir_has;
use crate::aggregate::agg_sym_has;
use crate::aggregate::all_ir_functions;
use crate::aggregate::all_symbols;
use crate::aggregate::flat_has;
use crate::aggregate::flat_ir_has;
use crate::aggregate::flat_ir_lines;
use crate::aggregate::flat_ir_pair;
use crate::aggregate::flat_pair;
use crate::aggregate::flat_sum;
use crate::aggregate::lemma_flat_ir_absent;
use crate::aggregate::lemma_flat_ir_lines_le_total;
use crate::aggregate::lemma_flat_irs_total;
use crate::aggregate::lemma_flat_sum_absent;
use crate::aggregate::lemma_flat_sum_le_total;
use crate::aggregate::lemma_flat_syms_total;
use crate::aggregate::spec_flat_irs;
use crate::aggregate::spec_flat_syms;
use crate::attribute::name_known;
use crate::attribute::spec_name_known;
use crate::deltasort::deltas_sorted;
use crate::deltasort::sort_deltas;
use crate::deltasort::unique_delta_names;
use crate::model::AggregateIrFunction;
use crate::model::AggregateSymbol;
use crate::model::BuildContext;
use crate::model::Crate;
use crate::model::Delta;
use crate::model::Diff;
use crate::model::DiffTotals;
use crate::model::MAX_QUANTITY;
use crate::model::crate_size_of;
use crate::model::crates_ir_line_sum;
use crate::model::crates_size_sum;
use crate::model::find_crate;
use crate::model::ir_line_sum;
use crate::model::lemma_crate_ir_le_sum;
use crate::model::lemma_crate_size_le_sum;
use crate::model::lemma_crates_ir_line_sum_take;
use crate::model::lemma_crates_size_sum_nonneg;
use crate::model::lemma_crates_ir_line_sum_nonneg;
use crate::model::lemma_find_crate;
use crate::model::lemma_ir_line_sum_nonneg;
use crate::model::lemma_ir_line_sum_take;
use crate::model::lemma_sym_size_sum_nonneg;
use crate::model::lemma_sym_size_sum_take;
use crate::model::sym_size_sum;
use crate::model::unique_strings;
use crate::model::wf_context;
use crate::strutil::str_eq;

verus! {

/// The value of an optional quantity, an absent one counting as zero.
pub open spec fn opt0(o: Option<int>) -> int {
    match o {
        Some(v) => v,
        None => 0,
    }
}

/// The signed per-crate size difference for one name.
pub open spec fn crate_delta_of(a: BuildContext, b: BuildContext, name: Seq<char>) -> int {
    opt0(crate_size_of(b.crates@, name)) - opt0(crate_size_of(a.crates@, name))
}

/// The signed aggregate symbol size difference for one name.
pub open spec fn sym_delta_of(a: BuildContext, b: BuildContext, name: Seq<char>) -> int {
    flat_sum(spec_flat_syms(b.crates@), name) - flat_sum(spec_flat_syms(a.crates@), name)
}

/// The signed aggregate IR line difference for one name.
pub open spec fn ir_delta_of(a: BuildContext, b: BuildContext, name: Seq<char>) -> int {
    flat_ir_lines(spec_flat_irs(b.crates@), name) - flat_ir_lines(spec_flat_irs(a.crates@), name)
}

/// A delta list holds an entry under the given name.
pub open spec fn delta_has_name<T>(ds: Seq<Delta<T>>, name: Seq<char>) -> bool {
    exists|t: int| 0 <= t < ds.len() && ds[t].name@ == name
}

/// One crate delta entry agrees with the two contexts: its sides are the
/// crate's total size where the crate exists, and its difference is the
/// signed size difference.
pub open spec fn crate_entry_ok(a: BuildContext, b: BuildContext, e: Delta<u64>) -> bool {
    &&& (match e.before {
        Some(v) => crate_size_of(a.crates@, e.name@) == Some(v as int),
        None => crate_size_of(a.crates@, e.name@) is None,
    })
    &&& (match e.after {
        Some(v) => crate_size_of(b.crates@, e.name@) == Some(v as int),
        None => crate_size_of(b.crates@, e.name@) is None,
    })
    &&& e.diff as int == crate_delta_of(a, b, e.name@)
}

/// An aggregate symbol entry is correct for the given occurrences.
pub open spec fn agg_sym_entry_ok(flat: Seq<FlatSym>, ag: AggregateSymbol) -> bool {
    &&& ag.total_size as int == flat_sum(flat, ag.name@)
    &&& unique_strings(ag.crates@)
    &&& forall|x: int| 0 <= x < ag.crates@.len() ==> flat_pair(flat, ag.name@, ag.crates@[x]@)
    &&& forall|i: int|
        0 <= i < flat.len() && (#[trigger] flat[i]).name@ == ag.name@ ==> spec_name_known(
            ag.crates@,
            flat[i].crate_name@,
        )
}

/// An aggregate IR entry is correct for the given occurrences.
pub open spec fn agg_ir_entry_ok(flat: Seq<FlatIr>, ag: AggregateIrFunction) -> bool {
    &&& ag.total_lines as int == flat_ir_lines(flat, ag.name@)
    &&& unique_strings(ag.crates@)
    &&& forall|x: int| 0 <= x < ag.crates@.len() ==> flat_ir_pair(flat, ag.name@, ag.crates@[x]@)
    &&& forall|i: int|
        0 <= i < flat.len() && (#[trigger] flat[i]).name@ == ag.name@ ==> spec_name_known(
            ag.crates@,
            flat[i].crate_name@,
        )
}

/// One symbol delta entry agrees with the two contexts.
pub open spec fn sym_entry_ok(a: BuildContext, b: BuildContext, e: Delta<AggregateSymbol>) -> bool {
    &&& (match e.before {
        Some(ag) => ag.name@ == e.name@ && flat_has(spec_flat_syms(a.crates@), e.name@)
            && agg_sym_entry_ok(spec_flat_syms(a.crates@), ag),
        None => !flat_has(spec_flat_syms(a.crates@), e.name@),
    })
    &&& (match e.after {
        Some(ag) => ag.name@ == e.name@ && flat_has(spec_flat_syms(b.crates@), e.name@)
            && agg_sym_entry_ok(spec_flat_syms(b.crates@), ag),
        None => !flat_has(spec_flat_syms(b.crates@), e.name@),
    })
    &&& e.diff as int == sym_delta_of(a, b, e.name@)
}

/// One IR delta entry agrees with the two contexts.
pub open spec fn ir_entry_ok(a: BuildContext, b: BuildContext, e: Delta<AggregateIrFunction>) -> bool {
    &&& (match e.before {
        Some(ag) => ag.name@ == e.name@ && flat_ir_has(spec_flat_irs(a.crates@), e.name@)
            && agg_ir_entry_ok(spec_flat_irs(a.crates@), ag),
        None => !flat_ir_has(spec_flat_irs(a.crates@), e.name@),
    })
    &&& (match e.after {
        Some(ag) => ag.name@ == e.name@ && flat_ir_has(spec_flat_irs(b.crates@), e.name@)
            && agg_ir_entry_ok(spec_flat_irs(b.crates@), ag),
        None => !flat_ir_has(spec_flat_irs(b.crates@), e.name@),
    })
    &&& e.diff as int == ir_delta_of(a, b, e.name@)
}

/// The crate delta list is correct: in order, names distinct, every entry
/// true to the contexts with a nonzero difference, and an entry for every
/// crate on either side whose difference is nonzero.
pub open spec fn crate_deltas_ok(a: BuildContext, b: BuildContext, ds: Seq<Delta<u64>>) -> bool {
    &&& deltas_sorted(ds)
    &&& unique_delta_names(ds)
    &&& forall|t: int|
        0 <= t < ds.len() ==> crate_entry_ok(a, b, #[trigger] ds[t]) && ds[t].diff != 0
    &&& forall|i: int|
        0 <= i < a.crates@.len() && crate_delta_of(a, b, (#[trigger] a.crates@[i]).name@) != 0
            ==> delta_has_name(ds, a.crates@[i].name@)
    &&& forall|i: int|
        0 <= i < b.crates@.len() && crate_delta_of(a, b, (#[trigger] b.crates@[i]).name@) != 0
            ==> delta_has_name(ds, b.crates@[i].name@)
}

/// The symbol delta list is correct, over the cross-crate aggregate view.
pub open spec fn sym_deltas_ok(
    a: BuildContext,
    b: BuildContext,
    ds: Seq<Delta<AggregateSymbol>>,
) -> bool {
    &&& deltas_sorted(ds)
    &&& unique_delta_names(ds)
    &&& forall|t: int| 0 <= t < ds.len() ==> sym_entry_ok(a, b, #[trigger] ds[t]) && ds[t].diff != 0
    &&& forall|i: int|
        0 <= i < spec_flat_syms(a.crates@).len() && sym_delta_of(
            a,
            b,
            (#[trigger] spec_flat_syms(a.crates@)[i]).name@,
        ) != 0 ==> delta_has_name(ds, spec_flat_syms(a.crates@)[i].name@)
    &&& forall|i: int|
        0 <= i < spec_flat_syms(b.crates@).len() && sym_delta_of(
            a,
            b,
            (#[trigger] spec_flat_syms(b.crates@)[i]).name@,
        ) != 0 ==> delta_has_name(ds, spec_flat_syms(b.crates@)[i].name@)
}

/// The IR delta list is correct, over the cross-crate aggregate view.
pub open spec fn ir_deltas_ok(
    a: BuildContext,
    b: BuildContext,
    ds: Seq<Delta<AggregateIrFunction>>,
) -> bool {
    &&& deltas_sorted(ds)
    &&& unique_delta_names(ds)
    &&& forall|t: int| 0 <= t < ds.len() ==> ir_entry_ok(a, b, #[trigger] ds[t]) && ds[t].diff != 0
    &&& forall|i: int|
        0 <= i < spec_flat_irs(a.crates@).len() && ir_delta_of(
            a,
            b,
            (#[trigger] spec_flat_irs(a.crates@)[i]).name@,
        ) != 0 ==> delta_has_name(ds, spec_flat_irs(a.crates@)[i].name@)
    &&& forall|i: int|
        0 <= i < spec_flat_irs(b.crates@).len() && ir_delta_of(
            a,
            b,
            (#[trigger] spec_flat_irs(b.crates@)[i]).name@,
        ) != 0 ==> delta_has_name(ds, spec_flat_irs(b.crates@)[i].name@)
}

/// The totals are the whole-build quantities of the two contexts and their
/// signed differences, computed independently of the delta lists.
pub open spec fn totals_ok(a: BuildContext, b: BuildContext, t: DiffTotals) -> bool {
    &&& t.crate_count_before == a.crates@.len() && t.crate_count_after == b.crates@.len()
    &&& t.crate_count_delta == b.crates@.len() - a.crates@.len()
    &&& t.symbol_count_before == a.deps_symbols@.len() && t.symbol_count_after
        == b.deps_symbols@.len()
    &&& t.symbol_count_delta == b.deps_symbols@.len() - a.deps_symbols@.len()
    &&& t.text_size_before == a.text_size && t.text_size_after == b.text_size
    &&& t.text_size_delta == b.text_size - a.text_size
    &&& t.ir_line_count_before == crates_ir_line_sum(a.crates@) && t.ir_line_count_after
        == crates_ir_line_sum(b.crates@)
    &&& t.ir_line_count_delta == crates_ir_line_sum(b.crates@) - crates_ir_line_sum(a.crates@)
    &&& t.wall_millis_before == a.wall_millis && t.wall_millis_after == b.wall_millis
    &&& t.wall_millis_delta == b.wall_millis - a.wall_millis
}

/// The whole diff is correct for the two contexts.
pub open spec fn diff_ok(a: BuildContext, b: BuildContext, d: Diff) -> bool {
    &&& crate_deltas_ok(a, b, d.crate_deltas@)
    &&& sym_deltas_ok(a, b, d.symbol_deltas@)
    &&& ir_deltas_ok(a, b, d.ir_function_deltas@)
    &&& totals_ok(a, b, d.totals)
}

// ---------------------------------------------------------------------------
// Helpers
// ---------------------------------------------------------------------------

/// A copy of a list of strings.
#[verifier::loop_isolation(false)]
fn clone_strings(v: &Vec<String>) -> (r: Vec<String>)
    ensures
        r@.len() == v@.len(),
        forall|k: int| 0 <= k < v@.len() ==> r@[k]@ == v@[k]@,
{
    let mut r: Vec<String> = Vec::new();
    let mut i: usize = 0;
    while i < v.len()
        invariant
            0 <= i <= v@.len(),
            r@.len() == i,
            forall|k: int| 0 <= k < i ==> r@[k]@ == v@[k]@,
        decreases v@.len() - i,
    {
        r.push(v[i].clone());
        i += 1;
    }
    r
}

/// The names of the given crates, in order.
#[verifier::loop_isolation(false)]
fn crate_name_list(cs: &Vec<Crate>) -> (r: Vec<String>)
    ensures
        r@.len() == cs@.len(),
        forall|k: int| 0 <= k < cs@.len() ==> r@[k]@ == cs@[k].name@,
{
    let mut r: Vec<String> = Vec::new();
    let mut i: usize = 0;
    while i < cs.len()
        invariant
            0 <= i <= cs@.len(),
            r@.len() == i,
            forall|k: int| 0 <= k < i ==> r@[k]@ == cs@[k].name@,
        decreases cs@.len() - i,
    {
        r.push(cs[i].name.clone());
        i += 1;
    }
    r
}

/// The names of the aggregate symbol entries, in order.
#[verifier::loop_isolation(false)]
fn agg_sym_names(es: &Vec<AggregateSymbol>) -> (r: Vec<String>)
    ensures
        r@.len() == es@.len(),
        forall|k: int| 0 <= k < es@.len() ==> r@[k]@ == es@[k].name@,
{
    let mut r: Vec<String> = Vec::new();
    let mut i: usize = 0;
    while i < es.len()
        invariant
            0 <= i <= es@.len(),
            r@.len() == i,
            forall|k: int| 0 <= k < i ==> r@[k]@ == es@[k].name@,
        decreases es@.len() - i,
    {
        r.push(es[i].name.clone());
        i += 1;
    }
    r
}

/// The names of the aggregate IR entries, in order.
#[verifier::loop_isolation(false)]
fn agg_ir_names(es: &Vec<AggregateIrFunction>) -> (r: Vec<String>)
    ensures
        r@.len() == es@.len(),
        forall|k: int| 0 <= k < es@.len() ==> r@[k]@ == es@[k].name@,
{
    let mut r: Vec<String> = Vec::new();
    let mut i: usize = 0;
    while i < es.len()
        invariant
            0 <= i <= es@.len(),
            r@.len() == i,
            forall|k: int| 0 <= k < i ==> r@[k]@ == es@[k].name@,
        decreases es@.len() - i,
    {
        r.push(es[i].name.clone());
        i += 1;
    }
    r
}

/// The union of two name lists, without duplicates.
#[verifier::loop_isolation(false)]
pub fn union_names(xs: &Vec<String>, ys: &Vec<String>) -> (r: Vec<String>)
    ensures
        r@.len() <= xs@.len() + ys@.len(),
        unique_strings(r@),
        forall|i: int| 0 <= i < xs@.len() ==> spec_name_known(r@, (#[trigger] xs@[i])@),
        forall|i: int| 0 <= i < ys@.len() ==> spec_name_known(r@, (#[trigger] ys@[i])@),
        forall|t: int|
            0 <= t < r@.len() ==> spec_name_known(xs@, (#[trigger] r@[t])@) || spec_name_known(
                ys@,
                r@[t]@,
            ),
{
    let mut r: Vec<String> = Vec::new();
    let mut i: usize = 0;
    while i < xs.len()
        invariant
            0 <= i <= xs@.len(),
            r@.len() <= i,
            unique_strings(r@),
            forall|k: int| 0 <= k < i ==> spec_name_known(r@, (#[trigger] xs@[k])@),
            forall|t: int| 0 <= t < r@.len() ==> spec_name_known(xs@, (#[trigger] r@[t])@),
        decreases xs@.len() - i,
    {
        if !name_known(&r, xs[i].as_str()) {
            let ghost old_r = r@;
            r.push(xs[i].clone());
            proof {
                assert(forall|t: int| 0 <= t < old_r.len() ==> r@[t]@ == old_r[t]@);
                assert(r@[r@.len() - 1]@ == xs@[i as int]@);
            }
        }
        i += 1;
    }
    let ghost rx = r@;
    let mut j: usize = 0;
    while j < ys.len()
        invariant
            0 <= j <= ys@.len(),
            r@.len() <= xs@.len() + j,
            unique_strings(r@),
            forall|k: int| 0 <= k < j ==> spec_name_known(r@, (#[trigger] ys@[k])@),
            forall|k: int| 0 <= k < xs@.len() ==> spec_name_known(r@, (#[trigger] xs@[k])@),
            forall|t: int|
                0 <= t < r@.len() ==> spec_name_known(xs@, (#[trigger] r@[t])@) || spec_name_known(
                    ys@,
                    r@[t]@,
                ),
        decreases ys@.len() - j,
    {
        if !name_known(&r, ys[j].as_str()) {
            let ghost old_r = r@;
            r.push(ys[j].clone());
            proof {
                assert(forall|t: int| 0 <= t < old_r.len() ==> r@[t]@ == old_r[t]@);
                assert(r@[r@.len() - 1]@ == ys@[j as int]@);
            }
        }
        j += 1;
    }
    r
}

/// The total symbol size of one crate.
#[verifier::loop_isolation(false)]
fn crate_total(c: &Crate) -> (total: u64)
    requires
        sym_size_sum(c.symbols@) <= MAX_QUANTITY,
    ensures
        total as int == sym_size_sum(c.symbols@),
        total <= MAX_QUANTITY,
{
    let mut total: u64 = 0;
    let mut i: usize = 0;
    proof {
        assert(c.symbols@.take(0) =~= Seq::<crate::model::Symbol>::empty());
    }
    while i < c.symbols.len()
        invariant
            0 <= i <= c.symbols@.len(),
            total as int == sym_size_sum(c.symbols@.take(i as int)),
        decreases c.symbols@.len() - i,
    {
        proof {
            assert(c.symbols@.take(i + 1).drop_last() =~= c.symbols@.take(i as int));
            assert(c.symbols@.take(i + 1).last() == c.symbols@[i as int]);
            lemma_sym_size_sum_nonneg(c.symbols@.take(i as int));
            lemma_sym_size_sum_take(c.symbols@, i + 1);
        }
        total = total + c.symbols[i].size;
        i += 1;
    }
    proof {
        assert(c.symbols@.take(c.symbols@.len() as int) =~= c.symbols@);
        lemma_sym_size_sum_nonneg(c.symbols@);
    }
    total
}

/// The total IR line count of one crate.
#[verifier::loop_isolation(false)]
fn crate_ir_total(c: &Crate) -> (total: u64)
    requires
        ir_line_sum(c.ir_functions@) <= MAX_QUANTITY,
    ensures
        total as int == ir_line_sum(c.ir_functions@),
        total <= MAX_QUANTITY,
{
    let mut total: u64 = 0;
    let mut i: usize = 0;
    proof {
        assert(c.ir_functions@.take(0) =~= Seq::<crate::model::IrFunction>::empty());
    }
    while i < c.ir_functions.len()
        invariant
            0 <= i <= c.ir_functions@.len(),
            total as int == ir_line_sum(c.ir_functions@.take(i as int)),
        decreases c.ir_functions@.len() - i,
    {
        proof {
            assert(c.ir_functions@.take(i + 1).drop_last() =~= c.ir_functions@.take(i as int));
            assert(c.ir_functions@.take(i + 1).last() == c.ir_functions@[i as int]);
            lemma_ir_line_sum_nonneg(c.ir_functions@.take(i as int));
            lemma_ir_line_sum_take(c.ir_functions@, i + 1);
        }
        total = total + c.ir_functions[i].line_count;
        i += 1;
    }
    proof {
        assert(c.ir_functions@.take(c.ir_functions@.len() as int) =~= c.ir_functions@);
        lemma_ir_line_sum_nonneg(c.ir_functions@);
    }
    total
}

/// The total IR line count of a whole context.
#[verifier::loop_isolation(false)]
pub fn context_ir_lines(b: &BuildContext) -> (total: u64)
    requires
        wf_context(*b),
    ensures
        total as int == crates_ir_line_sum(b.crates@),
        total <= MAX_QUANTITY,
{
    let mut total: u64 = 0;
    let mut i: usize = 0;
    proof {
        assert(b.crates@.take(0) =~= Seq::<Crate>::empty());
    }
    while i < b.crates.len()
        invariant
            0 <= i <= b.crates@.len(),
            total as int == crates_ir_line_sum(b.crates@.take(i as int)),
        decreases b.crates@.len() - i,
    {
        proof {
            lemma_crate_ir_le_sum(b.crates@, i as int);
            lemma_crates_ir_line_sum_nonneg(b.crates@.take(i as int));
            assert(b.crates@.take(i + 1).drop_last() =~= b.crates@.take(i as int));
            assert(b.crates@.take(i + 1).last() == b.crates@[i as int]);
            lemma_crates_ir_line_sum_take(b.crates@, i + 1);
        }
        let t = crate_ir_total(&b.crates[i]);
        total = total + t;
        i += 1;
    }
    proof {
        assert(b.crates@.take(b.crates@.len() as int) =~= b.crates@);
        lemma_crates_ir_line_sum_nonneg(b.crates@);
    }
    total
}

/// The total size of the crate of the given name, if the context has it.
#[verifier::loop_isolation(false)]
fn lookup_crate_total(cs: &Vec<Crate>, name: &str) -> (r: Option<u64>)
    requires
        forall|i: int, j: int| 0 <= i < j < cs@.len() ==> cs@[i].name@ != cs@[j].name@,
        crates_size_sum(cs@) <= MAX_QUANTITY,
    ensures
        match r {
            Some(v) => crate_size_of(cs@, name@) == Some(v as int) && v <= MAX_QUANTITY,
            None => crate_size_of(cs@, name@) is None,
        },
{
    proof {
        lemma_find_crate(cs@, name@);
    }
    let mut i: usize = 0;
    while i < cs.len()
        invariant
            0 <= i <= cs@.len(),
            forall|k: int| 0 <= k < i ==> (#[trigger] cs@[k]).name@ != name@,
        decreases cs@.len() - i,
    {
        if str_eq(cs[i].name.as_str(), name) {
            proof {
                lemma_crate_size_le_sum(cs@, i as int);
                lemma_sym_size_sum_nonneg(cs@[i as int].symbols@);
                match find_crate(cs@, name@) {
                    Some(c) => {
                        let j = choose|j: int| 0 <= j < cs@.len() && cs@[j] == c;
                        assert(cs@[j].name@ == name@);
                        assert(j == i);
                    },
                    None => {
                        assert(false);
                    },
                }
            }
            let total = crate_total(&cs[i]);
            return Some(total);
        }
        i += 1;
    }
    proof {
        match find_crate(cs@, name@) {
            Some(c) => {
                let j = choose|j: int| 0 <= j < cs@.len() && cs@[j] == c;
                assert(false);
            },
            None => {},
        }
    }
    None
}

/// The position of the aggregate symbol entry with the given name, if any.
#[verifier::loop_isolation(false)]
fn lookup_agg_sym(es: &Vec<AggregateSymbol>, name: &str) -> (r: Option<usize>)
    ensures
        match r {
            Some(ix) => ix < es@.len() && es@[ix as int].name@ == name@,
            None => !agg_sym_has(es@, name@),
        },
{
    let mut i: usize = 0;
    while i < es.len()
        invariant
            0 <= i <= es@.len(),
            forall|k: int| 0 <= k < i ==> (#[trigger] es@[k]).name@ != name@,
        decreases es@.len() - i,
    {
        if str_eq(es[i].name.as_str(), name) {
            return Some(i);
        }
        i += 1;
    }
    None
}

/// The position of the aggregate IR entry with the given name, if any.
#[verifier::loop_isolation(false)]
fn lookup_agg_ir(es: &Vec<AggregateIrFunction>, name: &str) -> (r: Option<usize>)
    ensures
        match r {
            Some(ix) => ix < es@.len() && es@[ix as int].name@ == name@,
            None => !agg_ir_has(es@, name@),
        },
{
    let mut i: usize = 0;
    while i < es.len()
        invariant
            0 <= i <= es@.len(),
            forall|k: int| 0 <= k < i ==> (#[trigger] es@[k]).name@ != name@,
        decreases es@.len() - i,
    {
        if str_eq(es[i].name.as_str(), name) {
            return Some(i);
        }
        i += 1;
    }
    None
}

/// A copy of an aggregate symbol entry.
fn copy_agg_sym(e: &AggregateSymbol) -> (r: AggregateSymbol)
    ensures
        r.name@ == e.name@,
        r.total_size == e.total_size,
        r.crates@.len() == e.crates@.len(),
        forall|k: int| 0 <= k < e.crates@.len() ==> r.crates@[k]@ == e.crates@[k]@,
{
    AggregateSymbol {
        name: e.name.clone(),
        total_size: e.total_size,
        crates: clone_strings(&e.crates),
    }
}

/// A copy of an aggregate IR entry.
fn copy_agg_ir(e: &AggregateIrFunction) -> (r: AggregateIrFunction)
    ensures
        r.name@ == e.name@,
        r.total_lines == e.total_lines,
        r.total_copies == e.total_copies,
        forall|k: int| 0 <= k < e.crates@.len() ==> r.crates@[k]@ == e.crates@[k]@,
        r.crates@.len() == e.crates@.len(),
{
    AggregateIrFunction {
        name: e.name.clone(),
        total_lines: e.total_lines,
        total_copies: e.total_copies,
        crates: clone_strings(&e.crates),
    }
}

// ---------------------------------------------------------------------------
// The delta lists
// ---------------------------------------------------------------------------

/// The per-crate size deltas of two contexts.
#[verifier::loop_isolation(false)]
fn build_crate_deltas(a: &BuildContext, b: &BuildContext) -> (ds: Vec<Delta<u64>>)
    requires
        wf_context(*a),
        wf_context(*b),
    ensures
        crate_deltas_ok(*a, *b, ds@),
{
    let na = crate_name_list(&a.crates);
    let nb = crate_name_list(&b.crates);
    let names = union_names(&na, &nb);
    let mut out: Vec<Delta<u64>> = Vec::new();
    let mut t: usize = 0;
    while t < names.len()
        invariant
            0 <= t <= names@.len(),
            forall|u: int|
                0 <= u < out@.len() ==> exists|k: int|
                    0 <= k < t && (#[trigger] out@[u]).name@ == names@[k]@,
            unique_delta_names(out@),
            forall|u: int|
                0 <= u < out@.len() ==> crate_entry_ok(*a, *b, #[trigger] out@[u]) && out@[u].diff
                    != 0,
            forall|k: int|
                0 <= k < t && crate_delta_of(*a, *b, (#[trigger] names@[k])@) != 0
                    ==> delta_has_name(out@, names@[k]@),
        decreases names@.len() - t,
    {
        let name = &names[t];
        let before = lookup_crate_total(&a.crates, name.as_str());
        let after = lookup_crate_total(&b.crates, name.as_str());
        let bv: i64 = match before {
            Some(v) => v as i64,
            None => 0,
        };
        let av: i64 = match after {
            Some(v) => v as i64,
            None => 0,
        };
        let diff: i64 = av - bv;
        if diff != 0 {
            let ghost old_out = out@;
            out.push(Delta { name: name.clone(), before, after, diff });
            proof {
                assert(forall|u: int| 0 <= u < old_out.len() ==> out@[u] == old_out[u]);
                assert(out@[out@.len() - 1].name@ == names@[t as int]@);
                assert forall|u: int, v: int| 0 <= u < v < out@.len() implies out@[u].name@
                    != out@[v].name@ by {
                    if v == out@.len() - 1 {
                        let k = choose|k: int|
                            0 <= k < t && (#[trigger] out@[u]).name@ == names@[k]@;
                        assert(names@[k]@ != names@[t as int]@);
                    }
                }
            }
        }
        t += 1;
    }
    proof {
        assert forall|i: int|
            0 <= i < a.crates@.len() && crate_delta_of(*a, *b, (#[trigger] a.crates@[i]).name@)
                != 0 implies delta_has_name(out@, a.crates@[i].name@) by {
            assert(spec_name_known(names@, na@[i]@));
            let k = choose|k: int| 0 <= k < names@.len() && names@[k]@ == na@[i]@;
            assert(crate_delta_of(*a, *b, names@[k]@) != 0);
        }
        assert forall|i: int|
            0 <= i < b.crates@.len() && crate_delta_of(*a, *b, (#[trigger] b.crates@[i]).name@)
                != 0 implies delta_has_name(out@, b.crates@[i].name@) by {
            assert(spec_name_known(names@, nb@[i]@));
            let k = choose|k: int| 0 <= k < names@.len() && names@[k]@ == nb@[i]@;
            assert(crate_delta_of(*a, *b, names@[k]@) != 0);
        }
    }
    let ghost pre = out@;
    let sorted = sort_deltas(out);
    proof {
        assert forall|u: int| 0 <= u < sorted@.len() implies crate_entry_ok(
            *a,
            *b,
            #[trigger] sorted@[u],
        ) && sorted@[u].diff != 0 by {
            assert(pre.contains(sorted@[u]));
            let w = choose|w: int| 0 <= w < pre.len() && pre[w] == sorted@[u];
            assert(crate_entry_ok(*a, *b, pre[w]));
        }
        assert forall|i: int|
            0 <= i < a.crates@.len() && crate_delta_of(*a, *b, (#[trigger] a.crates@[i]).name@)
                != 0 implies delta_has_name(sorted@, a.crates@[i].name@) by {
            let u = choose|u: int| 0 <= u < pre.len() && pre[u].name@ == a.crates@[i].name@;
            assert(sorted@.contains(pre[u]));
            let w = choose|w: int| 0 <= w < sorted@.len() && sorted@[w] == pre[u];
        }
        assert forall|i: int|
            0 <= i < b.crates@.len() && crate_delta_of(*a, *b, (#[trigger] b.crates@[i]).name@)
                != 0 implies delta_has_name(sorted@, b.crates@[i].name@) by {
            let u = choose|u: int| 0 <= u < pre.len() && pre[u].name@ == b.crates@[i].name@;
            assert(sorted@.contains(pre[u]));
            let w = choose|w: int| 0 <= w < sorted@.len() && sorted@[w] == pre[u];
        }
    }
    sorted
}

/// The aggregate symbol deltas of two contexts.
#[verifier::loop_isolation(false)]
fn build_sym_deltas(a: &BuildContext, b: &BuildContext) -> (ds: Vec<Delta<AggregateSymbol>>)
    requires
        wf_context(*a),
        wf_context(*b),
    ensures
        sym_deltas_ok(*a, *b, ds@),
{
    let ghost fa = spec_flat_syms(a.crates@);
    let ghost fb = spec_flat_syms(b.crates@);
    let agg_a = all_symbols(a);
    let agg_b = all_symbols(b);
    proof {
        lemma_flat_syms_total(a.crates@);
        lemma_flat_syms_total(b.crates@);
        lemma_crates_size_sum_nonneg(a.crates@);
        lemma_crates_size_sum_nonneg(b.crates@);
    }
    let na = agg_sym_names(&agg_a);
    let nb = agg_sym_names(&agg_b);
    let names = union_names(&na, &nb);
    let mut out: Vec<Delta<AggregateSymbol>> = Vec::new();
    let mut t: usize = 0;
    while t < names.len()
        invariant
            0 <= t <= names@.len(),
            forall|u: int|
                0 <= u < out@.len() ==> exists|k: int|
                    0 <= k < t && (#[trigger] out@[u]).name@ == names@[k]@,
            unique_delta_names(out@),
            forall|u: int|
                0 <= u < out@.len() ==> sym_entry_ok(*a, *b, #[trigger] out@[u]) && out@[u].diff
                    != 0,
            forall|k: int|
                0 <= k < t && sym_delta_of(*a, *b, (#[trigger] names@[k])@) != 0 ==> delta_has_name(
                    out@,
                    names@[k]@,
                ),
        decreases names@.len() - t,
    {
        let name = &names[t];
        let bix = lookup_agg_sym(&agg_a, name.as_str());
        let aix = lookup_agg_sym(&agg_b, name.as_str());
        proof {
            lemma_flat_sum_le_total(fa, name@);
            lemma_flat_sum_le_total(fb, name@);
            if bix is None {
                if flat_has(fa, name@) {
                    let w = choose|w: int| 0 <= w < fa.len() && fa[w].name@ == name@;
                    assert(agg_sym_has(agg_a@, fa[w].name@));
                }
                lemma_flat_sum_absent(fa, name@);
            }
            if aix is None {
                if flat_has(fb, name@) {
                    let w = choose|w: int| 0 <= w < fb.len() && fb[w].name@ == name@;
                    assert(agg_sym_has(agg_b@, fb[w].name@));
                }
                lemma_flat_sum_absent(fb, name@);
            }
        }
        let before: Option<AggregateSymbol> = match bix {
            Some(ix) => Some(copy_agg_sym(&agg_a[ix])),
            None => None,
        };
        let after: Option<AggregateSymbol> = match aix {
            Some(ix) => Some(copy_agg_sym(&agg_b[ix])),
            None => None,
        };
        let bv: i64 = match &before {
            Some(ag) => ag.total_size as i64,
            None => 0,
        };
        let av: i64 = match &after {
            Some(ag) => ag.total_size as i64,
            None => 0,
        };
        proof {
            if before is Some {
                let ag = before->0;
                {
                    let ix = bix->Some_0 as int;
                    assert(agg_a@[ix].total_size as int == flat_sum(fa, agg_a@[ix].name@));
                    assert(agg_sym_entry_ok(fa, ag)) by {
                        assert(ag.total_size as int == flat_sum(fa, ag.name@));
                        assert forall|x: int| 0 <= x < ag.crates@.len() implies flat_pair(
                            fa,
                            ag.name@,
                            ag.crates@[x]@,
                        ) by {
                            assert(ag.crates@[x]@ == agg_a@[ix].crates@[x]@);
                            assert(flat_pair(fa, agg_a@[ix].name@, agg_a@[ix].crates@[x]@));
                        }
                        assert forall|i: int|
                            0 <= i < fa.len() && (#[trigger] fa[i]).name@
                                == ag.name@ implies spec_name_known(
                            ag.crates@,
                            fa[i].crate_name@,
                        ) by {
                            assert(spec_name_known(agg_a@[ix].crates@, fa[i].crate_name@));
                            let x = choose|x: int|
                                0 <= x < agg_a@[ix].crates@.len() && agg_a@[ix].crates@[x]@
                                    == fa[i].crate_name@;
                            assert(ag.crates@[x]@ == fa[i].crate_name@);
                        }
                        assert forall|x: int, y: int|
                            0 <= x < y < ag.crates@.len() implies ag.crates@[x]@
                            != ag.crates@[y]@ by {
                            assert(agg_a@[ix].crates@[x]@ != agg_a@[ix].crates@[y]@);
                        }
                    }
                    assert(flat_has(fa, name@));
                }
            }
            if after is Some {
                let ag = after->0;
                {
                    let ix = aix->Some_0 as int;
                    assert(agg_b@[ix].total_size as int == flat_sum(fb, agg_b@[ix].name@));
                    assert(agg_sym_entry_ok(fb, ag)) by {
                        assert(ag.total_size as int == flat_sum(fb, ag.name@));
                        assert forall|x: int| 0 <= x < ag.crates@.len() implies flat_pair(
                            fb,
                            ag.name@,
                            ag.crates@[x]@,
                        ) by {
                            assert(ag.crates@[x]@ == agg_b@[ix].crates@[x]@);
                            assert(flat_pair(fb, agg_b@[ix].name@, agg_b@[ix].crates@[x]@));
                        }
                        assert forall|i: int|
                            0 <= i < fb.len() && (#[trigger] fb[i]).name@
                                == ag.name@ implies spec_name_known(
                            ag.crates@,
                            fb[i].crate_name@,
                        ) by {
                            assert(spec_name_known(agg_b@[ix].crates@, fb[i].crate_name@));
                            let x = choose|x: int|
                                0 <= x < agg_b@[ix].crates@.len() && agg_b@[ix].crates@[x]@
                                    == fb[i].crate_name@;
                            assert(ag.crates@[x]@ == fb[i].crate_name@);
                        }
                        assert forall|x: int, y: int|
                            0 <= x < y < ag.crates@.len() implies ag.crates@[x]@
                            != ag.crates@[y]@ by {
                            assert(agg_b@[ix].crates@[x]@ != agg_b@[ix].crates@[y]@);
                        }
                    }
                    assert(flat_has(fb, name@));
                }
            }
        }
        let diff: i64 = av - bv;
        if diff != 0 {
            let ghost old_out = out@;
            out.push(Delta { name: name.clone(), before, after, diff });
            proof {
                assert(forall|u: int| 0 <= u < old_out.len() ==> out@[u] == old_out[u]);
                assert(out@[out@.len() - 1].name@ == names@[t as int]@);
                assert forall|u: int, v: int| 0 <= u < v < out@.len() implies out@[u].name@
                    != out@[v].name@ by {
                    if v == out@.len() - 1 {
                        let k = choose|k: int|
                            0 <= k < t && (#[trigger] out@[u]).name@ == names@[k]@;
                        assert(names@[k]@ != names@[t as int]@);
                    }
                }
            }
        }
        t += 1;
    }
    proof {
        assert forall|i: int|
            0 <= i < fa.len() && sym_delta_of(*a, *b, (#[trigger] fa[i]).name@)
                != 0 implies delta_has_name(out@, fa[i].name@) by {
            assert(agg_sym_has(agg_a@, fa[i].name@));
            let u = choose|u: int| 0 <= u < agg_a@.len() && agg_a@[u].name@ == fa[i].name@;
            assert(spec_name_known(names@, na@[u]@));
            let k = choose|k: int| 0 <= k < names@.len() && names@[k]@ == na@[u]@;
            assert(sym_delta_of(*a, *b, names@[k]@) != 0);
        }
        assert forall|i: int|
            0 <= i < fb.len() && sym_delta_of(*a, *b, (#[trigger] fb[i]).name@)
                != 0 implies delta_has_name(out@, fb[i].name@) by {
            assert(agg_sym_has(agg_b@, fb[i].name@));
            let u = choose|u: int| 0 <= u < agg_b@.len() && agg_b@[u].name@ == fb[i].name@;
            assert(spec_name_known(names@, nb@[u]@));
            let k = choose|k: int| 0 <= k < names@.len() && names@[k]@ == nb@[u]@;
            assert(sym_delta_of(*a, *b, names@[k]@) != 0);
        }
    }
    let ghost pre = out@;
    let sorted = sort_deltas(out);
    proof {
        assert forall|u: int| 0 <= u < sorted@.len() implies sym_entry_ok(
            *a,
            *b,
            #[trigger] sorted@[u],
        ) && sorted@[u].diff != 0 by {
            assert(pre.contains(sorted@[u]));
            let w = choose|w: int| 0 <= w < pre.len() && pre[w] == sorted@[u];
            assert(sym_entry_ok(*a, *b, pre[w]));
        }
        assert forall|i: int|
            0 <= i < fa.len() && sym_delta_of(*a, *b, (#[trigger] fa[i]).name@)
                != 0 implies delta_has_name(sorted@, fa[i].name@) by {
            let u = choose|u: int| 0 <= u < pre.len() && pre[u].name@ == fa[i].name@;
            assert(sorted@.contains(pre[u]));
            let w = choose|w: int| 0 <= w < sorted@.len() && sorted@[w] == pre[u];
        }
        assert forall|i: int|
            0 <= i < fb.len() && sym_delta_of(*a, *b, (#[trigger] fb[i]).name@)
                != 0 implies delta_has_name(sorted@, fb[i].name@) by {
            let u = choose|u: int| 0 <= u < pre.len() && pre[u].name@ == fb[i].name@;
            assert(sorted@.contains(pre[u]));
            let w = choose|w: int| 0 <= w < sorted@.len() && sorted@[w] == pre[u];
        }
    }
    sorted
}

/// The aggregate IR line deltas of two contexts.
#[verifier::loop_isolation(false)]
fn build_ir_deltas(a: &BuildContext, b: &BuildContext) -> (ds: Vec<Delta<AggregateIrFunction>>)
    requires
        wf_context(*a),
        wf_context(*b),
    ensures
        ir_deltas_ok(*a, *b, ds@),
{
    let ghost fa = spec_flat_irs(a.crates@);
    let ghost fb = spec_flat_irs(b.crates@);
    let agg_a = all_ir_functions(a);
    let agg_b = all_ir_functions(b);
    proof {
        lemma_flat_irs_total(a.crates@);
        lemma_flat_irs_total(b.crates@);
        lemma_crates_ir_line_sum_nonneg(a.crates@);
        lemma_crates_ir_line_sum_nonneg(b.crates@);
    }
    let na = agg_ir_names(&agg_a);
    let nb = agg_ir_names(&agg_b);
    let names = union_names(&na, &nb);
    let mut out: Vec<Delta<AggregateIrFunction>> = Vec::new();
    let mut t: usize = 0;
    while t < names.len()
        invariant
            0 <= t <= names@.len(),
            forall|u: int|
                0 <= u < out@.len() ==> exists|k: int|
                    0 <= k < t && (#[trigger] out@[u]).name@ == names@[k]@,
            unique_delta_names(out@),
            forall|u: int|
                0 <= u < out@.len() ==> ir_entry_ok(*a, *b, #[trigger] out@[u]) && out@[u].diff
                    != 0,
            forall|k: int|
                0 <= k < t && ir_delta_of(*a, *b, (#[trigger] names@[k])@) != 0 ==> delta_has_name(
                    out@,
                    names@[k]@,
                ),
        decreases names@.len() - t,
    {
        let name = &names[t];
        let bix = lookup_agg_ir(&agg_a, name.as_str());
        let aix = lookup_agg_ir(&agg_b, name.as_str());
        proof {
            lemma_flat_ir_lines_le_total(fa, name@);
            lemma_flat_ir_lines_le_total(fb, name@);
            if bix is None {
                if flat_ir_has(fa, name@) {
                    let w = choose|w: int| 0 <= w < fa.len() && fa[w].name@ == name@;
                    assert(agg_ir_has(agg_a@, fa[w].name@));
                }
                lemma_flat_ir_absent(fa, name@);
            }
            if aix is None {
                if flat_ir_has(fb, name@) {
                    let w = choose|w: int| 0 <= w < fb.len() && fb[w].name@ == name@;
                    assert(agg_ir_has(agg_b@, fb[w].name@));
                }
                lemma_flat_ir_absent(fb, name@);
            }
        }
        let before: Option<AggregateIrFunction> = match bix {
            Some(ix) => Some(copy_agg_ir(&agg_a[ix])),
            None => None,
        };
        let after: Option<AggregateIrFunction> = match aix {
            Some(ix) => Some(copy_agg_ir(&agg_b[ix])),
            None => None,
        };
        let bv: i64 = match &before {
            Some(ag) => ag.total_lines as i64,
            None => 0,
        };
        let av: i64 = match &after {
            Some(ag) => ag.total_lines as i64,
            None => 0,
        };
        proof {
            if before is Some {
                let ag = before->0;
                {
                    let ix = bix->Some_0 as int;
                    assert(agg_a@[ix].total_lines as int == flat_ir_lines(fa, agg_a@[ix].name@));
                    assert(agg_ir_entry_ok(fa, ag)) by {
                        assert(ag.total_lines as int == flat_ir_lines(fa, ag.name@));
                        assert forall|x: int| 0 <= x < ag.crates@.len() implies flat_ir_pair(
                            fa,
                            ag.name@,
                            ag.crates@[x]@,
                        ) by {
                            assert(ag.crates@[x]@ == agg_a@[ix].crates@[x]@);
                            assert(flat_ir_pair(fa, agg_a@[ix].name@, agg_a@[ix].crates@[x]@));
                        }
                        assert forall|i: int|
                            0 <= i < fa.len() && (#[trigger] fa[i]).name@
                                == ag.name@ implies spec_name_known(
                            ag.crates@,
                            fa[i].crate_name@,
                        ) by {
                            assert(spec_name_known(agg_a@[ix].crates@, fa[i].crate_name@));
                            let x = choose|x: int|
                                0 <= x < agg_a@[ix].crates@.len() && agg_a@[ix].crates@[x]@
                                    == fa[i].crate_name@;
                            assert(ag.crates@[x]@ == fa[i].crate_name@);
                        }
                        assert forall|x: int, y: int|
                            0 <= x < y < ag.crates@.len() implies ag.crates@[x]@
                            != ag.crates@[y]@ by {
                            assert(agg_a@[ix].crates@[x]@ != agg_a@[ix].crates@[y]@);
                        }
                    }
                    assert(flat_ir_has(fa, name@));
                }
            }
            if after is Some {
                let ag = after->0;
                {
                    let ix = aix->Some_0 as int;
                    assert(agg_b@[ix].total_lines as int == flat_ir_lines(fb, agg_b@[ix].name@));
                    assert(agg_ir_entry_ok(fb, ag)) by {
                        assert(ag.total_lines as int == flat_ir_lines(fb, ag.name@));
                        assert forall|x: int| 0 <= x < ag.crates@.len() implies flat_ir_pair(
                            fb,
                            ag.name@,
                            ag.crates@[x]@,
                        ) by {
                            assert(ag.crates@[x]@ == agg_b@[ix].crates@[x]@);
                            assert(flat_ir_pair(fb, agg_b@[ix].name@, agg_b@[ix].crates@[x]@));
                        }
                        assert forall|i: int|
                            0 <= i < fb.len() && (#[trigger] fb[i]).name@
                                == ag.name@ implies spec_name_known(
                            ag.crates@,
                            fb[i].crate_name@,
                        ) by {
                            assert(spec_name_known(agg_b@[ix].crates@, fb[i].crate_name@));
                            let x = choose|x: int|
                                0 <= x < agg_b@[ix].crates@.len() && agg_b@[ix].crates@[x]@
                                    == fb[i].crate_name@;
                            assert(ag.crates@[x]@ == fb[i].crate_name@);
                        }
                        assert forall|x: int, y: int|
                            0 <= x < y < ag.crates@.len() implies ag.crates@[x]@
                            != ag.crates@[y]@ by {
                            assert(agg_b@[ix].crates@[x]@ != agg_b@[ix].crates@[y]@);
                        }
                    }
                    assert(flat_ir_has(fb, name@));
                }
            }
        }
        let diff: i64 = av - bv;
        if diff != 0 {
            let ghost old_out = out@;
            out.push(Delta { name: name.clone(), before, after, diff });
            proof {
                assert(forall|u: int| 0 <= u < old_out.len() ==> out@[u] == old_out[u]);
                assert(out@[out@.len() - 1].name@ == names@[t as int]@);
                assert forall|u: int, v: int| 0 <= u < v < out@.len() implies out@[u].name@
                    != out@[v].name@ by {
                    if v == out@.len() - 1 {
                        let k = choose|k: int|
                            0 <= k < t && (#[trigger] out@[u]).name@ == names@[k]@;
                        assert(names@[k]@ != names@[t as int]@);
                    }
                }
            }
        }
        t += 1;
    }
    proof {
        assert forall|i: int|
            0 <= i < fa.len() && ir_delta_of(*a, *b, (#[trigger] fa[i]).name@)
                != 0 implies delta_has_name(out@, fa[i].name@) by {
            assert(agg_ir_has(agg_a@, fa[i].name@));
            let u = choose|u: int| 0 <= u < agg_a@.len() && agg_a@[u].name@ == fa[i].name@;
            assert(spec_name_known(names@, na@[u]@));
            let k = choose|k: int| 0 <= k < names@.len() && names@[k]@ == na@[u]@;
            assert(ir_delta_of(*a, *b, names@[k]@) != 0);
        }
        assert forall|i: int|
            0 <= i < fb.len() && ir_delta_of(*a, *b, (#[trigger] fb[i]).name@)
                != 0 implies delta_has_name(out@, fb[i].name@) by {
            assert(agg_ir_has(agg_b@, fb[i].name@));
            let u = choose|u: int| 0 <= u < agg_b@.len() && agg_b@[u].name@ == fb[i].name@;
            assert(spec_name_known(names@, nb@[u]@));
            let k = choose|k: int| 0 <= k < names@.len() && names@[k]@ == nb@[u]@;
            assert(ir_delta_of(*a, *b, names@[k]@) != 0);
        }
    }
    let ghost pre = out@;
    let sorted = sort_deltas(out);
    proof {
        assert forall|u: int| 0 <= u < sorted@.len() implies ir_entry_ok(
            *a,
            *b,
            #[trigger] sorted@[u],
        ) && sorted@[u].diff != 0 by {
            assert(pre.contains(sorted@[u]));
            let w = choose|w: int| 0 <= w < pre.len() && pre[w] == sorted@[u];
            assert(ir_entry_ok(*a, *b, pre[w]));
        }
        assert forall|i: int|
            0 <= i < fa.len() && ir_delta_of(*a, *b, (#[trigger] fa[i]).name@)
                != 0 implies delta_has_name(sorted@, fa[i].name@) by {
            let u = choose|u: int| 0 <= u < pre.len() && pre[u].name@ == fa[i].name@;
            assert(sorted@.contains(pre[u]));
            let w = choose|w: int| 0 <= w < sorted@.len() && sorted@[w] == pre[u];
        }
        assert forall|i: int|
            0 <= i < fb.len() && ir_delta_of(*a, *b, (#[trigger] fb[i]).name@)
                != 0 implies delta_has_name(sorted@, fb[i].name@) by {
            let u = choose|u: int| 0 <= u < pre.len() && pre[u].name@ == fb[i].name@;
            assert(sorted@.contains(pre[u]));
            let w = choose|w: int| 0 <= w < sorted@.len() && sorted@[w] == pre[u];
        }
    }
    sorted
}

/// The whole-build totals of two contexts, computed independently of the
/// delta lists.
fn build_totals(a: &BuildContext, b: &BuildContext) -> (t: DiffTotals)
    requires
        wf_context(*a),
        wf_context(*b),
    ensures
        totals_ok(*a, *b, t),
{
    let ca: u64 = a.crates.len() as u64;
    let cb: u64 = b.crates.len() as u64;
    let sa: u64 = a.deps_symbols.len() as u64;
    let sb: u64 = b.deps_symbols.len() as u64;
    let ia: u64 = context_ir_lines(a);
    let ib: u64 = context_ir_lines(b);
    DiffTotals {
        crate_count_before: ca,
        crate_count_after: cb,
        crate_count_delta: (cb as i64) - (ca as i64),
        symbol_count_before: sa,
        symbol_count_after: sb,
        symbol_count_delta: (sb as i64) - (sa as i64),
        text_size_before: a.text_size,
        text_size_after: b.text_size,
        text_size_delta: (b.text_size as i64) - (a.text_size as i64),
        ir_line_count_before: ia,
        ir_line_count_after: ib,
        ir_line_count_delta: (ib as i64) - (ia as i64),
        wall_millis_before: a.wall_millis,
        wall_millis_after: b.wall_millis,
        wall_millis_delta: (b.wall_millis as i64) - (a.wall_millis as i64),
    }
}

/// Compare two builds: the baseline `a` against the current `b`.
pub fn diff_contexts(a: &BuildContext, b: &BuildContext) -> (d: Diff)
    requires
        wf_context(*a),
        wf_context(*b),
    ensures
        diff_ok(*a, *b, d),
{
    Diff {
        crate_deltas: build_crate_deltas(a, b),
        symbol_deltas: build_sym_deltas(a, b),
        ir_function_deltas: build_ir_deltas(a, b),
        totals: build_totals(a, b),
    }
}

} // verus!
