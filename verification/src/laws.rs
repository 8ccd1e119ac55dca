//! The library's global laws, stated and proved over the contracts of the
//! aggregator and the differ.

use vstd::prelude::*;
use crate::aggregate::FlatIr;
use crate::aggregate::FlatSym;
use crate::aggregate::ir_aggregation_ok;
use crate::aggregate::sym_aggregation_ok;
use crate::attribute::spec_attribute;
use crate::diff::crate_delta_of;
use crate::diff::diff_ok;
use crate::diff::ir_delta_of;
use crate::diff::sym_delta_of;
use crate::model::AggregateIrFunction;
use crate::model::AggregateSymbol;
use crate::model::BuildContext;
use crate::model::Diff;
use crate::model::crates_size_sum;
use crate::model::wf_context;
use crate::model::attributed_context;

verus! {

/// The code section is at least as large as the sum of the symbol sizes it
/// holds: the section includes padding and linker-generated stubs.
pub proof fn law_text_size_covers_symbols(b: BuildContext)
    requires
        wf_context(b),
    ensures
        crates_size_sum(b.crates@) <= b.text_size,
{
}

/// Every symbol of every crate attributes to that crate under the
/// attribution rules, the unattributable ones landing in the "[unknown]"
/// bucket, which is itself a crate of the context.
pub proof fn law_symbols_attribute_to_their_crate(b: BuildContext, i: int, j: int)
    requires
        wf_context(b),
        attributed_context(b),
        0 <= i < b.crates@.len(),
        0 <= j < b.crates@[i].symbols@.len(),
    ensures
        b.crates@[i].name@ == spec_attribute(
            b.crates@[i].symbols@[j].demangled_name@,
            b.dep_crates@,
        ).0,
{
    assert(b.crates@[i].symbols@[j].crate_name@ == b.crates@[i].name@);
}

/// The cross-crate symbol view holds no two entries with the same name.
pub proof fn law_all_symbols_names_distinct(
    flat: Seq<FlatSym>,
    out: Seq<AggregateSymbol>,
    t: int,
    u: int,
)
    requires
        sym_aggregation_ok(flat, out),
        0 <= t < u < out.len(),
    ensures
        out[t].name@ != out[u].name@,
{
}

/// Every IR function of a well-formed context was emitted at least once and
/// holds at least one line per emitted copy.
pub proof fn law_ir_lines_cover_copies(b: BuildContext, i: int, j: int)
    requires
        wf_context(b),
        0 <= i < b.crates@.len(),
        0 <= j < b.crates@[i].ir_functions@.len(),
    ensures
        b.crates@[i].ir_functions@[j].line_count >= b.crates@[i].ir_functions@[j].copy_count > 0,
{
}

/// Comparing a build against itself yields empty delta lists and zero
/// differences in every total.
pub proof fn law_diff_reflexive(b: BuildContext, d: Diff)
    requires
        diff_ok(b, b, d),
    ensures
        d.crate_deltas@.len() == 0,
        d.symbol_deltas@.len() == 0,
        d.ir_function_deltas@.len() == 0,
        d.totals.crate_count_delta == 0,
        d.totals.symbol_count_delta == 0,
        d.totals.text_size_delta == 0,
        d.totals.ir_line_count_delta == 0,
        d.totals.wall_millis_delta == 0,
{
    if d.crate_deltas@.len() > 0 {
        let e = d.crate_deltas@[0];
        assert(e.diff as int == crate_delta_of(b, b, e.name@));
        assert(false);
    }
    if d.symbol_deltas@.len() > 0 {
        let e = d.symbol_deltas@[0];
        assert(e.diff as int == sym_delta_of(b, b, e.name@));
        assert(false);
    }
    if d.ir_function_deltas@.len() > 0 {
        let e = d.ir_function_deltas@[0];
        assert(e.diff as int == ir_delta_of(b, b, e.name@));
        assert(false);
    }
}

/// Swapping the two builds negates every total difference.
pub proof fn law_diff_antisymmetric(a: BuildContext, b: BuildContext, d1: Diff, d2: Diff)
    requires
        diff_ok(a, b, d1),
        diff_ok(b, a, d2),
    ensures
        d1.totals.crate_count_delta as int == -(d2.totals.crate_count_delta as int),
        d1.totals.symbol_count_delta as int == -(d2.totals.symbol_count_delta as int),
        d1.totals.text_size_delta as int == -(d2.totals.text_size_delta as int),
        d1.totals.ir_line_count_delta as int == -(d2.totals.ir_line_count_delta as int),
        d1.totals.wall_millis_delta as int == -(d2.totals.wall_millis_delta as int),
{
}

/// Every entry of every delta list carries a nonzero difference.
pub proof fn law_delta_entries_nonzero(a: BuildContext, b: BuildContext, d: Diff, t: int)
    requires
        diff_ok(a, b, d),
    ensures
        0 <= t < d.crate_deltas@.len() ==> d.crate_deltas@[t].diff != 0,
        0 <= t < d.symbol_deltas@.len() ==> d.symbol_deltas@[t].diff != 0,
        0 <= t < d.ir_function_deltas@.len() ==> d.ir_function_deltas@[t].diff != 0,
{
}

/// Every delta list stands sorted by absolute difference descending, with
/// ties broken by name ascending.
pub proof fn law_delta_lists_sorted(a: BuildContext, b: BuildContext, d: Diff, t: int, u: int)
    requires
        diff_ok(a, b, d),
        0 <= t < u,
    ensures
        u < d.crate_deltas@.len() ==> crate::deltasort::delta_leq(
            d.crate_deltas@[t],
            d.crate_deltas@[u],
        ),
        u < d.symbol_deltas@.len() ==> crate::deltasort::delta_leq(
            d.symbol_deltas@[t],
            d.symbol_deltas@[u],
        ),
        u < d.ir_function_deltas@.len() ==> crate::deltasort::delta_leq(
            d.ir_function_deltas@[t],
            d.ir_function_deltas@[u],
        ),
{
}

/// The IR view holds no two entries with the same name either.
pub proof fn law_all_ir_functions_names_distinct(
    flat: Seq<FlatIr>,
    out: Seq<AggregateIrFunction>,
    t: int,
    u: int,
)
    requires
        ir_aggregation_ok(flat, out),
        0 <= t < u < out.len(),
    ensures
        out[t].name@ != out[u].name@,
{
}

} // verus!
