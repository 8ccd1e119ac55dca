//! The aggregator: composing the binary reader's symbols, the IR reader's
//! function records and the build driver's metadata into one `BuildContext`.
//!
//! Symbols with the same mangled name are merged by summing their sizes; each
//! merged symbol is demangled and attributed to a crate; the crates stand
//! sorted by total symbol size descending, ties by name. A code section
//! smaller than the symbols it is said to hold is a malformed input.

use vstd::prelude::*;
use crate::attribute::attribute_demangled;
use crate::attribute::attribute_symbol;
use crate::attribute::demangled_of;
use crate::attribute::is_std_crate;
use crate::attribute::spec_attribute;
use crate::attribute::spec_strip_hash;
use crate::model::BuildContext;
use crate::model::Crate;
use crate::model::IrFunction;
use crate::model::MAX_QUANTITY;
use crate::model::Symbol;
use crate::model::crate_order;
use crate::model::crate_size;
use crate::model::crates_ir_line_sum;
use crate::model::crates_size_sum;
use crate::model::ir_line_sum;
use crate::model::lemma_sym_size_sum_nonneg;
use crate::model::sym_size_sum;
use crate::model::unique_strings;
use crate::model::wf_context;
use crate::model::wf_crate;
use crate::model::wf_symbol;
use crate::model::wf_ir_function;
use crate::model::attributed_context;
use crate::strutil::lemma_lex_total;
use crate::strutil::lemma_lex_trans;
use crate::strutil::str_le;
use crate::strutil::str_eq;
use crate::attribute::spec_name_known;

verus! {

/// The errors of the analysis pipeline.
pub enum AnalysisError {
    /// A file could not be read.
    IoError { path: String },
    /// A binary or IR input does not parse, or contradicts itself.
    FormatError { detail: String },
    /// The external build failed; its error stream is carried verbatim.
    BuildFailed { stderr: String },
}

/// One defined text-section symbol as the binary reader hands it over.
pub struct RawSymbol {
    /// The mangled linker-level name.
    pub mangled: String,
    /// The symbol's address.
    pub address: u64,
    /// The symbol's size in bytes; the reader discards zero sizes.
    pub size: u64,
}

/// One IR function as the IR reader hands it over, already merged across
/// compilation units.
pub struct IrRecord {
    /// The demangled, hash-stripped function name.
    pub name: String,
    /// Total IR lines across all copies.
    pub line_count: u64,
    /// The number of compilation units that emitted the function.
    pub copy_count: u64,
}

// ---------------------------------------------------------------------------
// Sums over the inputs
// ---------------------------------------------------------------------------

/// The summed size of the raw symbols under one mangled name.
pub open spec fn raw_sum(rs: Seq<RawSymbol>, m: Seq<char>) -> int
    decreases rs.len(),
{
    if rs.len() == 0 {
        0
    } else {
        raw_sum(rs.drop_last(), m) + if rs.last().mangled@ == m {
            rs.last().size as int
        } else {
            0
        }
    }
}

/// The summed size of all raw symbols.
pub open spec fn raw_total(rs: Seq<RawSymbol>) -> int
    decreases rs.len(),
{
    if rs.len() == 0 {
        0
    } else {
        raw_total(rs.drop_last()) + rs.last().size
    }
}

/// A mangled name occurs among the raw symbols.
pub open spec fn raw_has(rs: Seq<RawSymbol>, m: Seq<char>) -> bool {
    exists|i: int| 0 <= i < rs.len() && rs[i].mangled@ == m
}

/// Some merged entry carries the given mangled name.
pub open spec fn merged_covers(ms: Seq<MergedSym>, m: Seq<char>) -> bool {
    exists|k: int| 0 <= k < ms.len() && (#[trigger] ms[k]).mangled@ == m
}

/// The summed line count of the IR records.
pub open spec fn ir_records_total(irs: Seq<IrRecord>) -> int
    decreases irs.len(),
{
    if irs.len() == 0 {
        0
    } else {
        ir_records_total(irs.drop_last()) + irs.last().line_count
    }
}

/// A per-name raw sum is at most the raw total, and both are non-negative.
pub proof fn lemma_raw_sum_le_total(rs: Seq<RawSymbol>, m: Seq<char>)
    ensures
        0 <= raw_sum(rs, m) <= raw_total(rs),
    decreases rs.len(),
{
    if rs.len() > 0 {
        lemma_raw_sum_le_total(rs.drop_last(), m);
    }
}

/// A name that occurs among symbols of positive size sums to a positive value.
pub proof fn lemma_raw_sum_pos(rs: Seq<RawSymbol>, m: Seq<char>)
    requires
        raw_has(rs, m),
        forall|i: int| 0 <= i < rs.len() ==> (#[trigger] rs[i]).size > 0,
    ensures
        raw_sum(rs, m) > 0,
    decreases rs.len(),
{
    if rs.len() > 0 {
        assert(forall|i: int| 0 <= i < rs.drop_last().len() ==> rs.drop_last()[i] == rs[i]);
        assert(rs.last() == rs[rs.len() - 1]);
        if rs.last().mangled@ == m {
            lemma_raw_sum_le_total(rs.drop_last(), m);
        } else {
            let i = choose|i: int| 0 <= i < rs.len() && rs[i].mangled@ == m;
            assert(i < rs.len() - 1);
            lemma_raw_sum_pos(rs.drop_last(), m);
        }
    }
}

/// A prefix's raw total is at most the whole total.
pub proof fn lemma_raw_total_take(rs: Seq<RawSymbol>, i: int)
    requires
        0 <= i <= rs.len(),
    ensures
        raw_total(rs.take(i)) <= raw_total(rs),
    decreases rs.len() - i,
{
    if i == rs.len() {
        assert(rs.take(i) =~= rs);
    } else {
        lemma_raw_total_take(rs, i + 1);
        assert(rs.take(i + 1).drop_last() =~= rs.take(i));
        assert(rs.take(i + 1).last() == rs[i]);
    }
}

// ---------------------------------------------------------------------------
// Merging raw symbols by mangled name
// ---------------------------------------------------------------------------

/// One symbol merged over every occurrence of its mangled name.
pub struct MergedSym {
    /// The mangled name, unique in the merged list.
    pub mangled: String,
    /// The first occurrence's address.
    pub address: u64,
    /// The summed size of all occurrences.
    pub size: u64,
}

/// The summed size of a merged list.
pub open spec fn merged_total(ms: Seq<MergedSym>) -> int
    decreases ms.len(),
{
    if ms.len() == 0 {
        0
    } else {
        merged_total(ms.drop_last()) + ms.last().size
    }
}

/// The raw per-name sums of a merged list's names, added up.
pub open spec fn grouped_raw_sum(rs: Seq<RawSymbol>, ms: Seq<MergedSym>) -> int
    decreases ms.len(),
{
    if ms.len() == 0 {
        0
    } else {
        grouped_raw_sum(rs, ms.drop_last()) + raw_sum(rs, ms.last().mangled@)
    }
}

/// A merged list whose entries carry the raw per-name sums adds up to the
/// grouped sum of its names.
pub proof fn lemma_merged_total_grouped(rs: Seq<RawSymbol>, ms: Seq<MergedSym>)
    requires
        forall|k: int| 0 <= k < ms.len() ==> (#[trigger] ms[k]).size as int == raw_sum(
            rs,
            ms[k].mangled@,
        ),
    ensures
        merged_total(ms) == grouped_raw_sum(rs, ms),
    decreases ms.len(),
{
    if ms.len() > 0 {
        assert(forall|k: int| 0 <= k < ms.drop_last().len() ==> ms.drop_last()[k] == ms[k]);
        assert(ms.last() == ms[ms.len() - 1]);
        lemma_merged_total_grouped(rs, ms.drop_last());
    }
}

/// Removing one raw symbol removes its size from the grouped sum exactly
/// once, when some merged entry carries its name.
proof fn lemma_grouped_raw_step(rs: Seq<RawSymbol>, ms: Seq<MergedSym>)
    requires
        rs.len() > 0,
        forall|k: int, l: int| 0 <= k < l < ms.len() ==> ms[k].mangled@ != ms[l].mangled@,
    ensures
        grouped_raw_sum(rs, ms) == grouped_raw_sum(rs.drop_last(), ms) + (
        if merged_covers(ms, rs.last().mangled@) {
            rs.last().size as int
        } else {
            0
        }),
    decreases ms.len(),
{
    if ms.len() > 0 {
        assert(forall|k: int| 0 <= k < ms.drop_last().len() ==> ms.drop_last()[k] == ms[k]);
        lemma_grouped_raw_step(rs, ms.drop_last());
        let s = rs.last();
        let last_name = ms.last().mangled@;
        assert(ms.last() == ms[ms.len() - 1]);
        if last_name == s.mangled@ {
            assert(!merged_covers(ms.drop_last(), s.mangled@)) by {
                if merged_covers(ms.drop_last(), s.mangled@) {
                    let k = choose|k: int|
                        0 <= k < ms.drop_last().len() && (#[trigger] ms.drop_last()[k]).mangled@
                            == s.mangled@;
                    assert(ms[k].mangled@ == ms[ms.len() - 1].mangled@);
                }
            }
            assert(merged_covers(ms, s.mangled@)) by {
                assert(ms[ms.len() - 1].mangled@ == s.mangled@);
            }
        } else {
            assert(merged_covers(ms, s.mangled@) == merged_covers(ms.drop_last(), s.mangled@)) by {
                if merged_covers(ms, s.mangled@) {
                    let k = choose|k: int|
                        0 <= k < ms.len() && (#[trigger] ms[k]).mangled@ == s.mangled@;
                    assert(k < ms.len() - 1);
                    assert(ms.drop_last()[k].mangled@ == s.mangled@);
                } else {
                    if merged_covers(ms.drop_last(), s.mangled@) {
                        let k = choose|k: int|
                            0 <= k < ms.drop_last().len() && (#[trigger] ms.drop_last()[
                            k]).mangled@ == s.mangled@;
                        assert(ms[k].mangled@ == s.mangled@);
                    }
                }
            }
        }
    }
}

/// When the merged names are distinct and cover every raw symbol, the
/// grouped sum is the raw total.
pub proof fn lemma_grouped_raw_partition(rs: Seq<RawSymbol>, ms: Seq<MergedSym>)
    requires
        forall|k: int, l: int| 0 <= k < l < ms.len() ==> ms[k].mangled@ != ms[l].mangled@,
        forall|i: int| 0 <= i < rs.len() ==> merged_covers(ms, (#[trigger] rs[i]).mangled@),
    ensures
        grouped_raw_sum(rs, ms) == raw_total(rs),
    decreases rs.len(),
{
    if rs.len() == 0 {
        lemma_grouped_empty(rs, ms);
    } else {
        assert forall|i: int| 0 <= i < rs.drop_last().len() implies merged_covers(
            ms,
            (#[trigger] rs.drop_last()[i]).mangled@,
        ) by {
            assert(rs.drop_last()[i] == rs[i]);
            assert(merged_covers(ms, rs[i].mangled@));
        }
        lemma_grouped_raw_partition(rs.drop_last(), ms);
        lemma_grouped_raw_step(rs, ms);
        assert(rs.last() == rs[rs.len() - 1]);
        assert(merged_covers(ms, rs.last().mangled@));
    }
}

/// Grouping an empty raw list sums to zero.
proof fn lemma_grouped_empty(rs: Seq<RawSymbol>, ms: Seq<MergedSym>)
    requires
        rs.len() == 0,
    ensures
        grouped_raw_sum(rs, ms) == 0,
    decreases ms.len(),
{
    if ms.len() > 0 {
        lemma_grouped_empty(rs, ms.drop_last());
    }
}

/// The per-mangled-name sum of the occurrences under one name.
#[verifier::loop_isolation(false)]
fn raw_sum_for(rs: &Vec<RawSymbol>, m: &str) -> (total: u64)
    requires
        raw_total(rs@) <= MAX_QUANTITY,
    ensures
        total as int == raw_sum(rs@, m@),
{
    let mut total: u64 = 0;
    let mut i: usize = 0;
    proof {
        assert(rs@.take(0) =~= Seq::<RawSymbol>::empty());
    }
    while i < rs.len()
        invariant
            0 <= i <= rs@.len(),
            total as int == raw_sum(rs@.take(i as int), m@),
        decreases rs@.len() - i,
    {
        proof {
            assert(rs@.take(i + 1).drop_last() =~= rs@.take(i as int));
            assert(rs@.take(i + 1).last() == rs@[i as int]);
            lemma_raw_sum_le_total(rs@.take(i + 1), m@);
            lemma_raw_total_take(rs@, i + 1);
        }
        if str_eq(rs[i].mangled.as_str(), m) {
            total = total + rs[i].size;
        }
        i += 1;
    }
    proof {
        assert(rs@.take(rs@.len() as int) =~= rs@);
    }
    total
}

/// The mangled name occurs among the first `upto` raw symbols.
#[verifier::loop_isolation(false)]
fn raw_name_seen(rs: &Vec<RawSymbol>, upto: usize, m: &str) -> (r: bool)
    requires
        upto <= rs@.len(),
    ensures
        r == raw_has(rs@.take(upto as int), m@),
{
    let mut i: usize = 0;
    while i < upto
        invariant
            0 <= i <= upto,
            forall|j: int| 0 <= j < i ==> (#[trigger] rs@[j]).mangled@ != m@,
        decreases upto - i,
    {
        if str_eq(rs[i].mangled.as_str(), m) {
            proof {
                assert(rs@.take(upto as int)[i as int].mangled@ == m@);
            }
            return true;
        }
        i += 1;
    }
    proof {
        assert forall|j: int|
            0 <= j < rs@.take(upto as int).len() implies (#[trigger] rs@.take(
            upto as int,
        )[j]).mangled@ != m@ by {
            assert(rs@.take(upto as int)[j] == rs@[j]);
        }
    }
    false
}

/// Merge raw symbols by mangled name, summing sizes; the first occurrence's
/// address is kept.
#[verifier::loop_isolation(false)]
pub fn merge_raw_symbols(rs: &Vec<RawSymbol>) -> (out: Vec<MergedSym>)
    requires
        raw_total(rs@) <= MAX_QUANTITY,
    ensures
        out@.len() <= rs@.len(),
        forall|k: int, l: int| 0 <= k < l < out@.len() ==> out@[k].mangled@ != out@[l].mangled@,
        forall|k: int| 0 <= k < out@.len() ==> raw_has(rs@, (#[trigger] out@[k]).mangled@),
        forall|k: int|
            0 <= k < out@.len() ==> (#[trigger] out@[k]).size as int == raw_sum(
                rs@,
                out@[k].mangled@,
            ),
        forall|i: int| 0 <= i < rs@.len() ==> merged_covers(out@, (#[trigger] rs@[i]).mangled@),
        merged_total(out@) == raw_total(rs@),
{
    let mut out: Vec<MergedSym> = Vec::new();
    let mut i: usize = 0;
    while i < rs.len()
        invariant
            0 <= i <= rs@.len(),
            out@.len() <= i,
            forall|k: int, l: int| 0 <= k < l < out@.len() ==> out@[k].mangled@ != out@[l].mangled@,
            forall|k: int|
                0 <= k < out@.len() ==> raw_has(rs@.take(i as int), (#[trigger] out@[k]).mangled@),
            forall|k: int|
                0 <= k < out@.len() ==> (#[trigger] out@[k]).size as int == raw_sum(
                    rs@,
                    out@[k].mangled@,
                ),
            forall|j: int| 0 <= j < i ==> merged_covers(out@, (#[trigger] rs@[j]).mangled@),
        decreases rs@.len() - i,
    {
        let m = rs[i].mangled.clone();
        if !raw_name_seen(rs, i, m.as_str()) {
            let total = raw_sum_for(rs, m.as_str());
            let ghost old_out = out@;
            out.push(MergedSym { mangled: m, address: rs[i].address, size: total });
            proof {
                assert(forall|k: int| 0 <= k < old_out.len() ==> out@[k] == old_out[k]);
                assert(out@[out@.len() - 1].mangled@ == rs@[i as int].mangled@);
                assert(rs@.take(i + 1)[i as int] == rs@[i as int]);
                assert forall|k: int| 0 <= k < out@.len() implies raw_has(
                    rs@.take(i + 1),
                    (#[trigger] out@[k]).mangled@,
                ) by {
                    if k < out@.len() - 1 {
                        let j = choose|j: int|
                            0 <= j < rs@.take(i as int).len() && rs@.take(i as int)[j].mangled@
                                == out@[k].mangled@;
                        assert(rs@.take(i as int)[j] == rs@[j]);
                        assert(rs@.take(i + 1)[j] == rs@[j]);
                    } else {
                        assert(rs@.take(i + 1)[i as int] == rs@[i as int]);
                    }
                }
                assert(raw_has(rs@, out@[out@.len() - 1].mangled@)) by {
                    assert(rs@[i as int].mangled@ == out@[out@.len() - 1].mangled@);
                }
                assert forall|j: int| 0 <= j < i + 1 implies merged_covers(
                    out@,
                    (#[trigger] rs@[j]).mangled@,
                ) by {
                    if j < i {
                        assert(merged_covers(old_out, rs@[j].mangled@));
                        let k = choose|k: int|
                            0 <= k < old_out.len() && (#[trigger] old_out[k]).mangled@ == rs@[
                            j].mangled@;
                        assert(out@[k].mangled@ == rs@[j].mangled@);
                    } else {
                        assert(out@[out@.len() - 1].mangled@ == rs@[j].mangled@);
                    }
                }
            }
        } else {
            proof {
                let j = choose|j: int|
                    0 <= j < rs@.take(i as int).len() && rs@.take(i as int)[j].mangled@ == rs@[
                    i as int].mangled@;
                assert(rs@.take(i as int)[j] == rs@[j]);
                assert(merged_covers(out@, rs@[j].mangled@));
                assert(merged_covers(out@, rs@[i as int].mangled@));
                assert forall|k: int| 0 <= k < out@.len() implies raw_has(
                    rs@.take(i + 1),
                    (#[trigger] out@[k]).mangled@,
                ) by {
                    let w = choose|w: int|
                        0 <= w < rs@.take(i as int).len() && rs@.take(i as int)[w].mangled@
                            == out@[k].mangled@;
                    assert(rs@.take(i as int)[w] == rs@[w]);
                    assert(rs@.take(i + 1)[w] == rs@[w]);
                }
            }
        }
        i += 1;
    }
    proof {
        assert(rs@.take(rs@.len() as int) =~= rs@);
        lemma_merged_total_grouped(rs@, out@);
        lemma_grouped_raw_partition(rs@, out@);
    }
    out
}

// ---------------------------------------------------------------------------
// Grouping by crate
// ---------------------------------------------------------------------------

/// Two symbols with the same fields. Copies of a symbol agree on every
/// field's value or view.
pub open spec fn sym_fields_eq(a: Symbol, b: Symbol) -> bool {
    &&& a.mangled_name@ == b.mangled_name@
    &&& a.demangled_name@ == b.demangled_name@
    &&& a.stripped_name@ == b.stripped_name@
    &&& a.address == b.address
    &&& a.size == b.size
    &&& a.crate_name@ == b.crate_name@
    &&& a.is_std == b.is_std
}

/// Two IR functions with the same fields.
pub open spec fn ir_fields_eq(a: IrFunction, b: IrFunction) -> bool {
    &&& a.name@ == b.name@
    &&& a.line_count == b.line_count
    &&& a.copy_count == b.copy_count
    &&& a.crate_name@ == b.crate_name@
}

/// Pointwise field equality of two symbol lists.
pub open spec fn syms_fields_eq(a: Seq<Symbol>, b: Seq<Symbol>) -> bool {
    a.len() == b.len() && forall|x: int| 0 <= x < a.len() ==> sym_fields_eq(
        #[trigger] a[x],
        b[x],
    )
}

/// Pointwise field equality of two IR function lists.
pub open spec fn irs_fields_eq(a: Seq<IrFunction>, b: Seq<IrFunction>) -> bool {
    a.len() == b.len() && forall|x: int| 0 <= x < a.len() ==> ir_fields_eq(
        #[trigger] a[x],
        b[x],
    )
}

/// The symbols attributed to one crate, in order.
pub open spec fn filtered_syms(ss: Seq<Symbol>, cn: Seq<char>) -> Seq<Symbol>
    decreases ss.len(),
{
    if ss.len() == 0 {
        Seq::empty()
    } else if ss.last().crate_name@ == cn {
        filtered_syms(ss.drop_last(), cn).push(ss.last())
    } else {
        filtered_syms(ss.drop_last(), cn)
    }
}

/// The IR functions attributed to one crate, in order.
pub open spec fn filtered_irs(fs: Seq<IrFunction>, cn: Seq<char>) -> Seq<IrFunction>
    decreases fs.len(),
{
    if fs.len() == 0 {
        Seq::empty()
    } else if fs.last().crate_name@ == cn {
        filtered_irs(fs.drop_last(), cn).push(fs.last())
    } else {
        filtered_irs(fs.drop_last(), cn)
    }
}

/// Every filtered symbol is one of the originals, carries the crate asked
/// for, and every original with that crate stands in the filtered list; the
/// mangled names stay distinct when the originals' were.
pub proof fn lemma_filtered_syms_props(ss: Seq<Symbol>, cn: Seq<char>)
    requires
        forall|i: int, j: int|
            0 <= i < j < ss.len() ==> ss[i].mangled_name@ != ss[j].mangled_name@,
    ensures
        forall|x: int|
            0 <= x < filtered_syms(ss, cn).len() ==> exists|i: int|
                0 <= i < ss.len() && ss[i] == #[trigger] filtered_syms(ss, cn)[x],
        forall|x: int|
            0 <= x < filtered_syms(ss, cn).len() ==> (#[trigger] filtered_syms(ss, cn)[
            x]).crate_name@ == cn,
        forall|x: int, y: int|
            0 <= x < y < filtered_syms(ss, cn).len() ==> filtered_syms(ss, cn)[x].mangled_name@
                != filtered_syms(ss, cn)[y].mangled_name@,
        forall|i: int|
            0 <= i < ss.len() && (#[trigger] ss[i]).crate_name@ == cn ==> exists|x: int|
                0 <= x < filtered_syms(ss, cn).len() && filtered_syms(ss, cn)[x] == ss[i],
    decreases ss.len(),
{
    if ss.len() > 0 {
        let dl = ss.drop_last();
        assert(forall|i: int| 0 <= i < dl.len() ==> dl[i] == ss[i]);
        lemma_filtered_syms_props(dl, cn);
        let f = filtered_syms(ss, cn);
        let fd = filtered_syms(dl, cn);
        if ss.last().crate_name@ == cn {
            assert(f =~= fd.push(ss.last()));
            assert forall|x: int, y: int| 0 <= x < y < f.len() implies f[x].mangled_name@
                != f[y].mangled_name@ by {
                if y == f.len() - 1 {
                    let i = choose|i: int| 0 <= i < dl.len() && dl[i] == f[x];
                    assert(ss[i].mangled_name@ != ss[ss.len() - 1].mangled_name@);
                }
            }
            assert forall|i: int|
                0 <= i < ss.len() && (#[trigger] ss[i]).crate_name@ == cn implies exists|x: int|
                0 <= x < f.len() && f[x] == ss[i] by {
                if i == ss.len() - 1 {
                    assert(f[f.len() - 1] == ss[i]);
                } else {
                    let x = choose|x: int| 0 <= x < fd.len() && fd[x] == dl[i];
                    assert(f[x] == ss[i]);
                }
            }
            assert forall|x: int| 0 <= x < f.len() implies exists|i: int|
                0 <= i < ss.len() && ss[i] == #[trigger] f[x] by {
                if x < f.len() - 1 {
                    let i = choose|i: int| 0 <= i < dl.len() && dl[i] == fd[x];
                    assert(ss[i] == f[x]);
                } else {
                    assert(ss[ss.len() - 1] == f[x]);
                }
            }
        } else {
            assert(f =~= fd);
            assert forall|i: int|
                0 <= i < ss.len() && (#[trigger] ss[i]).crate_name@ == cn implies exists|x: int|
                0 <= x < f.len() && f[x] == ss[i] by {
                assert(i < ss.len() - 1);
                let x = choose|x: int| 0 <= x < fd.len() && fd[x] == dl[i];
                assert(f[x] == ss[i]);
            }
            assert forall|x: int| 0 <= x < f.len() implies exists|i: int|
                0 <= i < ss.len() && ss[i] == #[trigger] f[x] by {
                let i = choose|i: int| 0 <= i < dl.len() && dl[i] == fd[x];
                assert(ss[i] == f[x]);
            }
        }
    }
}

/// The IR counterpart of `lemma_filtered_syms_props`.
pub proof fn lemma_filtered_irs_props(fs: Seq<IrFunction>, cn: Seq<char>)
    requires
        forall|i: int, j: int| 0 <= i < j < fs.len() ==> fs[i].name@ != fs[j].name@,
    ensures
        forall|x: int|
            0 <= x < filtered_irs(fs, cn).len() ==> exists|i: int|
                0 <= i < fs.len() && fs[i] == #[trigger] filtered_irs(fs, cn)[x],
        forall|x: int|
            0 <= x < filtered_irs(fs, cn).len() ==> (#[trigger] filtered_irs(fs, cn)[
            x]).crate_name@ == cn,
        forall|x: int, y: int|
            0 <= x < y < filtered_irs(fs, cn).len() ==> filtered_irs(fs, cn)[x].name@
                != filtered_irs(fs, cn)[y].name@,
        forall|i: int|
            0 <= i < fs.len() && (#[trigger] fs[i]).crate_name@ == cn ==> exists|x: int|
                0 <= x < filtered_irs(fs, cn).len() && filtered_irs(fs, cn)[x] == fs[i],
    decreases fs.len(),
{
    if fs.len() > 0 {
        let dl = fs.drop_last();
        assert(forall|i: int| 0 <= i < dl.len() ==> dl[i] == fs[i]);
        lemma_filtered_irs_props(dl, cn);
        let f = filtered_irs(fs, cn);
        let fd = filtered_irs(dl, cn);
        if fs.last().crate_name@ == cn {
            assert(f =~= fd.push(fs.last()));
            assert forall|x: int, y: int| 0 <= x < y < f.len() implies f[x].name@ != f[y].name@ by {
                if y == f.len() - 1 {
                    let i = choose|i: int| 0 <= i < dl.len() && dl[i] == f[x];
                    assert(fs[i].name@ != fs[fs.len() - 1].name@);
                }
            }
            assert forall|i: int|
                0 <= i < fs.len() && (#[trigger] fs[i]).crate_name@ == cn implies exists|x: int|
                0 <= x < f.len() && f[x] == fs[i] by {
                if i == fs.len() - 1 {
                    assert(f[f.len() - 1] == fs[i]);
                } else {
                    let x = choose|x: int| 0 <= x < fd.len() && fd[x] == dl[i];
                    assert(f[x] == fs[i]);
                }
            }
            assert forall|x: int| 0 <= x < f.len() implies exists|i: int|
                0 <= i < fs.len() && fs[i] == #[trigger] f[x] by {
                if x < f.len() - 1 {
                    let i = choose|i: int| 0 <= i < dl.len() && dl[i] == fd[x];
                    assert(fs[i] == f[x]);
                } else {
                    assert(fs[fs.len() - 1] == f[x]);
                }
            }
        } else {
            assert(f =~= fd);
            assert forall|i: int|
                0 <= i < fs.len() && (#[trigger] fs[i]).crate_name@ == cn implies exists|x: int|
                0 <= x < f.len() && f[x] == fs[i] by {
                assert(i < fs.len() - 1);
                let x = choose|x: int| 0 <= x < fd.len() && fd[x] == dl[i];
                assert(f[x] == fs[i]);
            }
            assert forall|x: int| 0 <= x < f.len() implies exists|i: int|
                0 <= i < fs.len() && fs[i] == #[trigger] f[x] by {
                let i = choose|i: int| 0 <= i < dl.len() && dl[i] == fd[x];
                assert(fs[i] == f[x]);
            }
        }
    }
}

/// Field-equal symbol lists have equal size sums.
pub proof fn lemma_syms_fields_eq_sum(a: Seq<Symbol>, b: Seq<Symbol>)
    requires
        syms_fields_eq(a, b),
    ensures
        sym_size_sum(a) == sym_size_sum(b),
    decreases a.len(),
{
    if a.len() > 0 {
        assert(sym_fields_eq(a[a.len() - 1], b[a.len() - 1]));
        assert(forall|x: int| 0 <= x < a.drop_last().len() ==> a.drop_last()[x] == a[x]);
        assert(forall|x: int| 0 <= x < b.drop_last().len() ==> b.drop_last()[x] == b[x]);
        assert(syms_fields_eq(a.drop_last(), b.drop_last())) by {
            assert forall|x: int| 0 <= x < a.drop_last().len() implies sym_fields_eq(
                #[trigger] a.drop_last()[x],
                b.drop_last()[x],
            ) by {
                assert(sym_fields_eq(a[x], b[x]));
            }
        }
        lemma_syms_fields_eq_sum(a.drop_last(), b.drop_last());
    }
}

/// Field-equal IR lists have equal line sums.
pub proof fn lemma_irs_fields_eq_sum(a: Seq<IrFunction>, b: Seq<IrFunction>)
    requires
        irs_fields_eq(a, b),
    ensures
        ir_line_sum(a) == ir_line_sum(b),
    decreases a.len(),
{
    if a.len() > 0 {
        assert(ir_fields_eq(a[a.len() - 1], b[a.len() - 1]));
        assert(forall|x: int| 0 <= x < a.drop_last().len() ==> a.drop_last()[x] == a[x]);
        assert(forall|x: int| 0 <= x < b.drop_last().len() ==> b.drop_last()[x] == b[x]);
        assert(irs_fields_eq(a.drop_last(), b.drop_last())) by {
            assert forall|x: int| 0 <= x < a.drop_last().len() implies ir_fields_eq(
                #[trigger] a.drop_last()[x],
                b.drop_last()[x],
            ) by {
                assert(ir_fields_eq(a[x], b[x]));
            }
        }
        lemma_irs_fields_eq_sum(a.drop_last(), b.drop_last());
    }
}

/// Copy one symbol field by field.
fn copy_symbol(s: &Symbol) -> (r: Symbol)
    ensures
        sym_fields_eq(r, *s),
{
    Symbol {
        mangled_name: s.mangled_name.clone(),
        demangled_name: s.demangled_name.clone(),
        stripped_name: s.stripped_name.clone(),
        address: s.address,
        size: s.size,
        crate_name: s.crate_name.clone(),
        is_std: s.is_std,
    }
}

/// Copy one IR function field by field.
fn copy_ir_function(f: &IrFunction) -> (r: IrFunction)
    ensures
        ir_fields_eq(r, *f),
{
    IrFunction {
        name: f.name.clone(),
        line_count: f.line_count,
        copy_count: f.copy_count,
        crate_name: f.crate_name.clone(),
    }
}

/// Collect the symbols attributed to one crate.
#[verifier::loop_isolation(false)]
fn collect_syms(ss: &Vec<Symbol>, cn: &str) -> (out: Vec<Symbol>)
    ensures
        syms_fields_eq(out@, filtered_syms(ss@, cn@)),
{
    let mut out: Vec<Symbol> = Vec::new();
    let mut i: usize = 0;
    proof {
        assert(filtered_syms(ss@.take(0), cn@) =~= Seq::<Symbol>::empty());
    }
    while i < ss.len()
        invariant
            0 <= i <= ss@.len(),
            syms_fields_eq(out@, filtered_syms(ss@.take(i as int), cn@)),
        decreases ss@.len() - i,
    {
        proof {
            assert(ss@.take(i + 1).drop_last() =~= ss@.take(i as int));
            assert(ss@.take(i + 1).last() == ss@[i as int]);
        }
        if str_eq(ss[i].crate_name.as_str(), cn) {
            out.push(copy_symbol(&ss[i]));
            proof {
                let f = filtered_syms(ss@.take(i + 1), cn@);
                assert(f =~= filtered_syms(ss@.take(i as int), cn@).push(ss@[i as int]));
                assert(out@[out@.len() - 1] == out@.last());
            }
        }
        i += 1;
    }
    proof {
        assert(ss@.take(ss@.len() as int) =~= ss@);
    }
    out
}

/// Collect the IR functions attributed to one crate.
#[verifier::loop_isolation(false)]
fn collect_irs(fs: &Vec<IrFunction>, cn: &str) -> (out: Vec<IrFunction>)
    ensures
        irs_fields_eq(out@, filtered_irs(fs@, cn@)),
{
    let mut out: Vec<IrFunction> = Vec::new();
    let mut i: usize = 0;
    proof {
        assert(filtered_irs(fs@.take(0), cn@) =~= Seq::<IrFunction>::empty());
    }
    while i < fs.len()
        invariant
            0 <= i <= fs@.len(),
            irs_fields_eq(out@, filtered_irs(fs@.take(i as int), cn@)),
        decreases fs@.len() - i,
    {
        proof {
            assert(fs@.take(i + 1).drop_last() =~= fs@.take(i as int));
            assert(fs@.take(i + 1).last() == fs@[i as int]);
        }
        if str_eq(fs[i].crate_name.as_str(), cn) {
            out.push(copy_ir_function(&fs[i]));
            proof {
                let f = filtered_irs(fs@.take(i + 1), cn@);
                assert(f =~= filtered_irs(fs@.take(i as int), cn@).push(fs@[i as int]));
            }
        }
        i += 1;
    }
    proof {
        assert(fs@.take(fs@.len() as int) =~= fs@);
    }
    out
}

// ---------------------------------------------------------------------------
// Partition of the sums over crates
// ---------------------------------------------------------------------------

/// Some crate in the list has the given name.
pub open spec fn crates_have_name(cs: Seq<Crate>, cn: Seq<char>) -> bool {
    exists|k: int| 0 <= k < cs.len() && (#[trigger] cs[k]).name@ == cn
}

/// The filtered symbol sums of the crates' names, added up.
pub open spec fn grouped_sym_sum(ss: Seq<Symbol>, cs: Seq<Crate>) -> int
    decreases cs.len(),
{
    if cs.len() == 0 {
        0
    } else {
        grouped_sym_sum(ss, cs.drop_last()) + sym_size_sum(filtered_syms(ss, cs.last().name@))
    }
}

/// The filtered IR line sums of the crates' names, added up.
pub open spec fn grouped_ir_sum(fs: Seq<IrFunction>, cs: Seq<Crate>) -> int
    decreases cs.len(),
{
    if cs.len() == 0 {
        0
    } else {
        grouped_ir_sum(fs, cs.drop_last()) + ir_line_sum(filtered_irs(fs, cs.last().name@))
    }
}

/// Removing one symbol removes its size from the grouped sum exactly once,
/// when some crate carries its name.
proof fn lemma_grouped_sym_step(ss: Seq<Symbol>, cs: Seq<Crate>)
    requires
        ss.len() > 0,
        forall|k: int, l: int| 0 <= k < l < cs.len() ==> cs[k].name@ != cs[l].name@,
    ensures
        grouped_sym_sum(ss, cs) == grouped_sym_sum(ss.drop_last(), cs) + (
        if crates_have_name(cs, ss.last().crate_name@) {
            ss.last().size as int
        } else {
            0
        }),
    decreases cs.len(),
{
    if cs.len() > 0 {
        assert(forall|k: int| 0 <= k < cs.drop_last().len() ==> cs.drop_last()[k] == cs[k]);
        lemma_grouped_sym_step(ss, cs.drop_last());
        let s = ss.last();
        let last_name = cs.last().name@;
        assert(cs.last() == cs[cs.len() - 1]);
        if s.crate_name@ == last_name {
            let f0 = filtered_syms(ss.drop_last(), last_name);
            assert(filtered_syms(ss, last_name) =~= f0.push(s));
            assert(f0.push(s).drop_last() =~= f0);
            assert(f0.push(s).last() == s);
            assert(sym_size_sum(filtered_syms(ss, last_name)) == sym_size_sum(f0) + s.size);
            assert(!crates_have_name(cs.drop_last(), s.crate_name@)) by {
                if crates_have_name(cs.drop_last(), s.crate_name@) {
                    let k = choose|k: int|
                        0 <= k < cs.drop_last().len() && (#[trigger] cs.drop_last()[k]).name@
                            == s.crate_name@;
                    assert(cs[k].name@ == cs[cs.len() - 1].name@);
                }
            }
            assert(crates_have_name(cs, s.crate_name@)) by {
                assert(cs[cs.len() - 1].name@ == s.crate_name@);
            }
        } else {
            assert(filtered_syms(ss, last_name) =~= filtered_syms(ss.drop_last(), last_name));
            assert(crates_have_name(cs, s.crate_name@) == crates_have_name(
                cs.drop_last(),
                s.crate_name@,
            )) by {
                if crates_have_name(cs, s.crate_name@) {
                    let k = choose|k: int|
                        0 <= k < cs.len() && (#[trigger] cs[k]).name@ == s.crate_name@;
                    assert(k < cs.len() - 1);
                    assert(cs.drop_last()[k].name@ == s.crate_name@);
                } else {
                    if crates_have_name(cs.drop_last(), s.crate_name@) {
                        let k = choose|k: int|
                            0 <= k < cs.drop_last().len() && (#[trigger] cs.drop_last()[k]).name@
                                == s.crate_name@;
                        assert(cs[k].name@ == s.crate_name@);
                    }
                }
            }
        }
    }
}

/// The IR counterpart of `lemma_grouped_sym_step`.
proof fn lemma_grouped_ir_step(fs: Seq<IrFunction>, cs: Seq<Crate>)
    requires
        fs.len() > 0,
        forall|k: int, l: int| 0 <= k < l < cs.len() ==> cs[k].name@ != cs[l].name@,
    ensures
        grouped_ir_sum(fs, cs) == grouped_ir_sum(fs.drop_last(), cs) + (
        if crates_have_name(cs, fs.last().crate_name@) {
            fs.last().line_count as int
        } else {
            0
        }),
    decreases cs.len(),
{
    if cs.len() > 0 {
        assert(forall|k: int| 0 <= k < cs.drop_last().len() ==> cs.drop_last()[k] == cs[k]);
        lemma_grouped_ir_step(fs, cs.drop_last());
        let s = fs.last();
        let last_name = cs.last().name@;
        assert(cs.last() == cs[cs.len() - 1]);
        if s.crate_name@ == last_name {
            let f0 = filtered_irs(fs.drop_last(), last_name);
            assert(filtered_irs(fs, last_name) =~= f0.push(s));
            assert(f0.push(s).drop_last() =~= f0);
            assert(f0.push(s).last() == s);
            assert(ir_line_sum(filtered_irs(fs, last_name)) == ir_line_sum(f0) + s.line_count);
            assert(!crates_have_name(cs.drop_last(), s.crate_name@)) by {
                if crates_have_name(cs.drop_last(), s.crate_name@) {
                    let k = choose|k: int|
                        0 <= k < cs.drop_last().len() && (#[trigger] cs.drop_last()[k]).name@
                            == s.crate_name@;
                    assert(cs[k].name@ == cs[cs.len() - 1].name@);
                }
            }
            assert(crates_have_name(cs, s.crate_name@)) by {
                assert(cs[cs.len() - 1].name@ == s.crate_name@);
            }
        } else {
            assert(filtered_irs(fs, last_name) =~= filtered_irs(fs.drop_last(), last_name));
            assert(crates_have_name(cs, s.crate_name@) == crates_have_name(
                cs.drop_last(),
                s.crate_name@,
            )) by {
                if crates_have_name(cs, s.crate_name@) {
                    let k = choose|k: int|
                        0 <= k < cs.len() && (#[trigger] cs[k]).name@ == s.crate_name@;
                    assert(k < cs.len() - 1);
                    assert(cs.drop_last()[k].name@ == s.crate_name@);
                } else {
                    if crates_have_name(cs.drop_last(), s.crate_name@) {
                        let k = choose|k: int|
                            0 <= k < cs.drop_last().len() && (#[trigger] cs.drop_last()[k]).name@
                                == s.crate_name@;
                        assert(cs[k].name@ == s.crate_name@);
                    }
                }
            }
        }
    }
}

/// Grouping an empty symbol list sums to zero.
proof fn lemma_grouped_sym_empty(ss: Seq<Symbol>, cs: Seq<Crate>)
    requires
        ss.len() == 0,
    ensures
        grouped_sym_sum(ss, cs) == 0,
    decreases cs.len(),
{
    if cs.len() > 0 {
        lemma_grouped_sym_empty(ss, cs.drop_last());
    }
}

/// Grouping an empty IR list sums to zero.
proof fn lemma_grouped_ir_empty(fs: Seq<IrFunction>, cs: Seq<Crate>)
    requires
        fs.len() == 0,
    ensures
        grouped_ir_sum(fs, cs) == 0,
    decreases cs.len(),
{
    if cs.len() > 0 {
        lemma_grouped_ir_empty(fs, cs.drop_last());
    }
}

/// When the crate names are distinct and cover every symbol, the grouped
/// symbol sum is the whole sum.
pub proof fn lemma_grouped_sym_partition(ss: Seq<Symbol>, cs: Seq<Crate>)
    requires
        forall|k: int, l: int| 0 <= k < l < cs.len() ==> cs[k].name@ != cs[l].name@,
        forall|i: int| 0 <= i < ss.len() ==> crates_have_name(cs, (#[trigger] ss[i]).crate_name@),
    ensures
        grouped_sym_sum(ss, cs) == sym_size_sum(ss),
    decreases ss.len(),
{
    if ss.len() == 0 {
        lemma_grouped_sym_empty(ss, cs);
    } else {
        assert forall|i: int| 0 <= i < ss.drop_last().len() implies crates_have_name(
            cs,
            (#[trigger] ss.drop_last()[i]).crate_name@,
        ) by {
            assert(ss.drop_last()[i] == ss[i]);
            assert(crates_have_name(cs, ss[i].crate_name@));
        }
        lemma_grouped_sym_partition(ss.drop_last(), cs);
        lemma_grouped_sym_step(ss, cs);
        assert(ss.last() == ss[ss.len() - 1]);
        assert(crates_have_name(cs, ss.last().crate_name@));
    }
}

/// The IR counterpart of `lemma_grouped_sym_partition`.
pub proof fn lemma_grouped_ir_partition(fs: Seq<IrFunction>, cs: Seq<Crate>)
    requires
        forall|k: int, l: int| 0 <= k < l < cs.len() ==> cs[k].name@ != cs[l].name@,
        forall|i: int| 0 <= i < fs.len() ==> crates_have_name(cs, (#[trigger] fs[i]).crate_name@),
    ensures
        grouped_ir_sum(fs, cs) == ir_line_sum(fs),
    decreases fs.len(),
{
    if fs.len() == 0 {
        lemma_grouped_ir_empty(fs, cs);
    } else {
        assert forall|i: int| 0 <= i < fs.drop_last().len() implies crates_have_name(
            cs,
            (#[trigger] fs.drop_last()[i]).crate_name@,
        ) by {
            assert(fs.drop_last()[i] == fs[i]);
            assert(crates_have_name(cs, fs[i].crate_name@));
        }
        lemma_grouped_ir_partition(fs.drop_last(), cs);
        lemma_grouped_ir_step(fs, cs);
        assert(fs.last() == fs[fs.len() - 1]);
        assert(crates_have_name(cs, fs.last().crate_name@));
    }
}

// ---------------------------------------------------------------------------
// Sorting the crates
// ---------------------------------------------------------------------------

/// Sums add over crate-list concatenation.
proof fn lemma_crates_size_sum_concat(a: Seq<Crate>, b: Seq<Crate>)
    ensures
        crates_size_sum(a + b) == crates_size_sum(a) + crates_size_sum(b),
        crates_ir_line_sum(a + b) == crates_ir_line_sum(a) + crates_ir_line_sum(b),
    decreases b.len(),
{
    if b.len() == 0 {
        assert(a + b =~= a);
    } else {
        assert((a + b).drop_last() =~= a + b.drop_last());
        lemma_crates_size_sum_concat(a, b.drop_last());
    }
}

/// Inserting a crate adds its sums.
proof fn lemma_crates_sum_insert(s: Seq<Crate>, p: int, x: Crate)
    requires
        0 <= p <= s.len(),
    ensures
        crates_size_sum(s.insert(p, x)) == crates_size_sum(s) + crate_size(x),
        crates_ir_line_sum(s.insert(p, x)) == crates_ir_line_sum(s) + ir_line_sum(x.ir_functions@),
{
    let pre = s.subrange(0, p);
    let post = s.subrange(p, s.len() as int);
    assert(s.insert(p, x) =~= pre.push(x) + post);
    assert(pre.push(x).drop_last() =~= pre);
    lemma_crates_size_sum_concat(pre.push(x), post);
    assert(pre + post =~= s);
    lemma_crates_size_sum_concat(pre, post);
}

/// The crate order is total.
proof fn lemma_crate_order_total(a: Crate, b: Crate)
    ensures
        crate_order(a, b) || crate_order(b, a),
{
    lemma_lex_total(a.name@, b.name@);
}

/// The crate order is transitive.
proof fn lemma_crate_order_trans(a: Crate, b: Crate, c: Crate)
    requires
        crate_order(a, b),
        crate_order(b, c),
    ensures
        crate_order(a, c),
{
    if crate_size(a) == crate_size(b) && crate_size(b) == crate_size(c) {
        lemma_lex_trans(a.name@, b.name@, c.name@);
    }
}

/// Whether crate `a` stands at or before crate `b` in the crate order.
fn crate_le_exec(a: &Crate, b: &Crate) -> (r: bool)
    requires
        sym_size_sum(a.symbols@) <= MAX_QUANTITY,
        sym_size_sum(b.symbols@) <= MAX_QUANTITY,
    ensures
        r == crate_order(*a, *b),
{
    let ta = crate_symbol_total(a);
    let tb = crate_symbol_total(b);
    if ta > tb {
        true
    } else if ta == tb {
        str_le(a.name.as_str(), b.name.as_str())
    } else {
        false
    }
}

/// The total symbol size of one crate.
#[verifier::loop_isolation(false)]
fn crate_symbol_total(c: &Crate) -> (total: u64)
    requires
        sym_size_sum(c.symbols@) <= MAX_QUANTITY,
    ensures
        total as int == sym_size_sum(c.symbols@),
{
    let mut total: u64 = 0;
    let mut i: usize = 0;
    proof {
        assert(c.symbols@.take(0) =~= Seq::<Symbol>::empty());
    }
    while i < c.symbols.len()
        invariant
            0 <= i <= c.symbols@.len(),
            total as int == sym_size_sum(c.symbols@.take(i as int)),
        decreases c.symbols@.len() - i,
    {
        proof {
            assert(c.symbols@.take(i + 1).drop_last() =~= c.symbols@.take(i as int));
            assert(c.symbols@.take(i + 1).last() == c.symbols@[i as int]);
            lemma_sym_size_sum_nonneg(c.symbols@.take(i as int));
            crate::model::lemma_sym_size_sum_take(c.symbols@, i + 1);
        }
        total = total + c.symbols[i].size;
        i += 1;
    }
    proof {
        assert(c.symbols@.take(c.symbols@.len() as int) =~= c.symbols@);
    }
    total
}

/// Insert a crate into a list sorted by the crate order, keeping it sorted.
#[verifier::loop_isolation(false)]
fn insert_sorted_crate(out: &mut Vec<Crate>, x: Crate)
    requires
        forall|i: int, j: int|
            0 <= i < j < old(out)@.len() ==> crate_order(
                #[trigger] old(out)@[i],
                #[trigger] old(out)@[j],
            ),
        forall|i: int|
            0 <= i < old(out)@.len() ==> sym_size_sum((#[trigger] old(out)@[i]).symbols@)
                <= MAX_QUANTITY,
        sym_size_sum(x.symbols@) <= MAX_QUANTITY,
    ensures
        final(out)@.len() == old(out)@.len() + 1,
        forall|i: int, j: int|
            0 <= i < j < final(out)@.len() ==> crate_order(
                #[trigger] final(out)@[i],
                #[trigger] final(out)@[j],
            ),
        exists|p: int| 0 <= p <= old(out)@.len() && final(out)@ == old(out)@.insert(p, x),
        crates_size_sum(final(out)@) == crates_size_sum(old(out)@) + crate_size(x),
        crates_ir_line_sum(final(out)@) == crates_ir_line_sum(old(out)@) + ir_line_sum(
            x.ir_functions@,
        ),
{
    let ghost orig = out@;
    let mut p: usize = 0;
    while p < out.len() && crate_le_exec(&out[p], &x)
        invariant
            0 <= p <= out@.len(),
            out@ == orig,
            forall|t: int| 0 <= t < p ==> crate_order(#[trigger] out@[t], x),
        decreases out@.len() - p,
    {
        p += 1;
    }
    proof {
        if p < out@.len() {
            lemma_crate_order_total(out@[p as int], x);
        }
        orig.insert_ensures(p as int, x);
        lemma_crates_sum_insert(orig, p as int, x);
    }
    out.insert(p, x);
    proof {
        let res = out@;
        assert forall|i: int, j: int| 0 <= i < j < res.len() implies crate_order(
            #[trigger] res[i],
            #[trigger] res[j],
        ) by {
            if j < p {
                assert(res[i] == orig[i] && res[j] == orig[j]);
            } else if i < p && j == p {
                assert(res[i] == orig[i] && res[j] == x);
            } else if i < p && j > p {
                assert(res[i] == orig[i] && res[j] == orig[j - 1]);
                assert(i < j - 1);
                assert(crate_order(orig[i], orig[j - 1]));
            } else if i == p {
                assert(res[i] == x && res[j] == orig[j - 1]);
                assert(crate_order(x, orig[p as int]));
                if p < j - 1 {
                    assert(crate_order(orig[p as int], orig[j - 1]));
                    lemma_crate_order_trans(x, orig[p as int], orig[j - 1]);
                }
            } else {
                assert(res[i] == orig[i - 1] && res[j] == orig[j - 1]);
                assert(crate_order(orig[i - 1], orig[j - 1]));
            }
        }
    }
}

/// Sort crates by total symbol size descending, ties by name ascending.
/// Keeps exactly the given crates; names stay pairwise distinct, and the
/// size and IR line sums are unchanged.
#[verifier::loop_isolation(false)]
pub fn sort_crates(v: Vec<Crate>) -> (r: Vec<Crate>)
    requires
        forall|i: int, j: int| 0 <= i < j < v@.len() ==> v@[i].name@ != v@[j].name@,
        forall|i: int|
            0 <= i < v@.len() ==> sym_size_sum((#[trigger] v@[i]).symbols@) <= MAX_QUANTITY,
    ensures
        r@.len() == v@.len(),
        forall|i: int, j: int|
            0 <= i < j < r@.len() ==> crate_order(#[trigger] r@[i], #[trigger] r@[j]),
        forall|i: int, j: int| 0 <= i < j < r@.len() ==> r@[i].name@ != r@[j].name@,
        forall|t: int| 0 <= t < r@.len() ==> v@.contains(#[trigger] r@[t]),
        forall|u: int| 0 <= u < v@.len() ==> r@.contains(#[trigger] v@[u]),
        crates_size_sum(r@) == crates_size_sum(v@),
        crates_ir_line_sum(r@) == crates_ir_line_sum(v@),
{
    let ghost orig = v@;
    let mut rest = v;
    let mut out: Vec<Crate> = Vec::new();
    proof {
        assert(rest@ =~= orig.take(orig.len() as int));
    }
    while rest.len() > 0
        invariant
            rest@ == orig.take(rest@.len() as int),
            out@.len() == orig.len() - rest@.len(),
            forall|i: int, j: int|
                0 <= i < j < out@.len() ==> crate_order(#[trigger] out@[i], #[trigger] out@[j]),
            forall|i: int, j: int| 0 <= i < j < out@.len() ==> out@[i].name@ != out@[j].name@,
            forall|i: int|
                0 <= i < out@.len() ==> sym_size_sum((#[trigger] out@[i]).symbols@)
                    <= MAX_QUANTITY,
            forall|t: int|
                0 <= t < out@.len() ==> exists|u: int|
                    rest@.len() <= u < orig.len() && orig[u] == #[trigger] out@[t],
            forall|u: int| rest@.len() <= u < orig.len() ==> out@.contains(#[trigger] orig[u]),
            crates_size_sum(out@) + crates_size_sum(rest@) == crates_size_sum(orig),
            crates_ir_line_sum(out@) + crates_ir_line_sum(rest@) == crates_ir_line_sum(orig),
        decreases rest@.len(),
    {
        let ghost n = rest@.len() as int;
        let x_opt = rest.pop();
        let x = match x_opt {
            Some(x) => x,
            None => {
                proof {
                    assert(false);
                }
                return out;
            },
        };
        proof {
            assert(x == orig[n - 1]);
            assert(rest@ =~= orig.take(n - 1));
            assert(orig.take(n).drop_last() =~= orig.take(n - 1));
            assert(orig.take(n).last() == orig[n - 1]);
            assert(sym_size_sum((orig[n - 1]).symbols@) <= MAX_QUANTITY);
        }
        let ghost before = out@;
        proof {
            assert forall|t: int| 0 <= t < before.len() implies before[t].name@ != orig[n
                - 1].name@ by {
                let u = choose|u: int| n <= u < orig.len() && orig[u] == before[t];
                assert(orig.take(u + 1).len() > 0);
                assert(orig[n - 1].name@ != orig[u].name@) by {
                    assert(orig[n - 1] == orig.take(orig.len() as int)[n - 1]);
                }
            }
        }
        insert_sorted_crate(&mut out, x);
        proof {
            let p = choose|p: int| 0 <= p <= before.len() && out@ == before.insert(p, x);
            before.insert_ensures(p, x);
            assert forall|i: int, j: int| 0 <= i < j < out@.len() implies out@[i].name@
                != out@[j].name@ by {
                if j < p {
                } else if j == p {
                    assert(out@[j] == x && out@[i] == before[i]);
                } else if i == p {
                    assert(out@[i] == x && out@[j] == before[j - 1]);
                } else if i < p {
                    assert(out@[i] == before[i] && out@[j] == before[j - 1]);
                } else {
                    assert(out@[i] == before[i - 1] && out@[j] == before[j - 1]);
                }
            }
            assert forall|i: int| 0 <= i < out@.len() implies sym_size_sum(
                (#[trigger] out@[i]).symbols@,
            ) <= MAX_QUANTITY by {
                if i < p {
                    assert(out@[i] == before[i]);
                } else if i == p {
                } else {
                    assert(out@[i] == before[i - 1]);
                }
            }
            assert forall|t: int| 0 <= t < out@.len() implies exists|u: int|
                n - 1 <= u < orig.len() && orig[u] == #[trigger] out@[t] by {
                if t < p {
                    assert(out@[t] == before[t]);
                } else if t == p {
                    assert(out@[t] == orig[n - 1]);
                } else {
                    assert(out@[t] == before[t - 1]);
                }
            }
            assert forall|u: int| n - 1 <= u < orig.len() implies out@.contains(
                #[trigger] orig[u],
            ) by {
                if u >= n {
                    let t = choose|t: int| 0 <= t < before.len() && before[t] == orig[u];
                    if t < p {
                        assert(out@[t] == orig[u]);
                    } else {
                        assert(out@[t + 1] == orig[u]);
                    }
                } else {
                    assert(out@[p] == orig[u]);
                }
            }
        }
    }
    proof {
        assert(rest@.len() == 0);
        assert(crates_size_sum(rest@) == 0);
        assert(crates_ir_line_sum(rest@) == 0);
        assert forall|t: int| 0 <= t < out@.len() implies orig.contains(#[trigger] out@[t]) by {
            let u = choose|u: int| 0 <= u < orig.len() && orig[u] == out@[t];
            assert(orig[u] == out@[t]);
        }
    }
    out
}

// ---------------------------------------------------------------------------
// The aggregator
// ---------------------------------------------------------------------------

/// One IR record's line count is at most the records' total.
proof fn lemma_ir_record_le_total(irs: Seq<IrRecord>, k: int)
    requires
        0 <= k < irs.len(),
    ensures
        irs[k].line_count <= ir_records_total(irs),
    decreases irs.len(),
{
    lemma_ir_records_total_nonneg(irs.drop_last());
    if k == irs.len() - 1 {
    } else {
        assert(irs.drop_last()[k] == irs[k]);
        lemma_ir_record_le_total(irs.drop_last(), k);
    }
}

/// An IR records total is never negative.
proof fn lemma_ir_records_total_nonneg(irs: Seq<IrRecord>)
    ensures
        ir_records_total(irs) >= 0,
    decreases irs.len(),
{
    if irs.len() > 0 {
        lemma_ir_records_total_nonneg(irs.drop_last());
    }
}

/// Every symbol of the crate was read from the raw list and merged, carries
/// the demangled form of its mangled name and its attribution, and every IR
/// function of the crate restates one input record and its attribution.
pub open spec fn crate_from_inputs(
    c: Crate,
    rs: Seq<RawSymbol>,
    irs: Seq<IrRecord>,
    deps: Seq<String>,
) -> bool {
    &&& forall|j: int|
        0 <= j < c.symbols@.len() ==> {
            let s = #[trigger] c.symbols@[j];
            raw_has(rs, s.mangled_name@) && s.size as int == raw_sum(rs, s.mangled_name@)
                && s.demangled_name@ == demangled_of(s.mangled_name@) && s.crate_name@
                == spec_attribute(s.demangled_name@, deps).0 && s.is_std == spec_attribute(
                s.demangled_name@,
                deps,
            ).1
        }
    &&& forall|j: int|
        0 <= j < c.ir_functions@.len() ==> {
            let f = #[trigger] c.ir_functions@[j];
            (exists|k: int|
                0 <= k < irs.len() && (#[trigger] irs[k]).name@ == f.name@ && irs[k].line_count
                    == f.line_count && irs[k].copy_count == f.copy_count) && f.crate_name@
                == spec_attribute(f.name@, deps).0
        }
}

/// Compose the readers' outputs and the driver's metadata into one build
/// context: merge symbols by mangled name, attribute everything, group by
/// crate, and sort the crates. Fails with a format error exactly when the
/// symbols outgrow the code section, or the IR lines outgrow the model's
/// bound.
#[verifier::loop_isolation(false)]
#[verifier::rlimit(100)]
pub fn assemble_context(
    symbols: &Vec<RawSymbol>,
    ir_records: &Vec<IrRecord>,
    text_size: u64,
    deps_symbols: Vec<String>,
    dep_crates: Vec<String>,
    wall_millis: u64,
    target_triple: String,
) -> (r: Result<BuildContext, AnalysisError>)
    requires
        forall|i: int| 0 <= i < symbols@.len() ==> (#[trigger] symbols@[i]).size > 0,
        forall|k: int, l: int|
            0 <= k < l < ir_records@.len() ==> ir_records@[k].name@ != ir_records@[l].name@,
        forall|k: int|
            0 <= k < ir_records@.len() ==> 0 < (#[trigger] ir_records@[k]).copy_count
                <= ir_records@[k].line_count,
        unique_strings(deps_symbols@),
        unique_strings(dep_crates@),
        deps_symbols@.len() <= MAX_QUANTITY,
        symbols@.len() + ir_records@.len() <= MAX_QUANTITY,
        text_size <= MAX_QUANTITY,
        wall_millis <= MAX_QUANTITY,
    ensures
        match r {
            Ok(b) => {
                &&& wf_context(b)
                &&& attributed_context(b)
                &&& b.text_size == text_size
                &&& b.wall_millis == wall_millis
                &&& b.target_triple@ == target_triple@
                &&& b.deps_symbols@ == deps_symbols@
                &&& b.dep_crates@ == dep_crates@
                &&& raw_total(symbols@) <= text_size
                &&& ir_records_total(ir_records@) <= MAX_QUANTITY
                &&& forall|ci: int|
                    0 <= ci < b.crates@.len() ==> crate_from_inputs(
                        #[trigger] b.crates@[ci],
                        symbols@,
                        ir_records@,
                        dep_crates@,
                    )
                &&& forall|i: int|
                    0 <= i < symbols@.len() ==> exists|ci: int, j: int|
                        0 <= ci < b.crates@.len() && 0 <= j < b.crates@[ci].symbols@.len()
                            && b.crates@[ci].symbols@[j].mangled_name@ == (
                        #[trigger] symbols@[i]).mangled@
                &&& forall|k: int|
                    0 <= k < ir_records@.len() ==> exists|ci: int, j: int|
                        0 <= ci < b.crates@.len() && 0 <= j < b.crates@[ci].ir_functions@.len()
                            && b.crates@[ci].ir_functions@[j].name@ == (
                        #[trigger] ir_records@[k]).name@
            },
            Err(e) => (e is FormatError) && (raw_total(symbols@) > text_size
                || ir_records_total(ir_records@) > MAX_QUANTITY),
        },
{
    // total the raw symbol sizes; a section smaller than its symbols is
    // malformed input
    let mut raw_acc: u128 = 0;
    let mut i: usize = 0;
    proof {
        assert(symbols@.take(0) =~= Seq::<RawSymbol>::empty());
    }
    while i < symbols.len()
        invariant
            0 <= i <= symbols@.len(),
            raw_acc as int == raw_total(symbols@.take(i as int)),
            raw_acc <= (i as u128) * 0xffff_ffff_ffff_ffffu128,
        decreases symbols@.len() - i,
    {
        proof {
            assert(symbols@.take(i + 1).drop_last() =~= symbols@.take(i as int));
            assert(symbols@.take(i + 1).last() == symbols@[i as int]);
            assert((i as u128 + 1) * 0xffff_ffff_ffff_ffffu128 == (i as u128)
                * 0xffff_ffff_ffff_ffffu128 + 0xffff_ffff_ffff_ffffu128) by (nonlinear_arith);
        }
        raw_acc = raw_acc + (symbols[i].size as u128);
        i += 1;
    }
    proof {
        assert(symbols@.take(symbols@.len() as int) =~= symbols@);
    }
    if raw_acc > (text_size as u128) {
        return Result::Err(
            AnalysisError::FormatError {
                detail: "symbol sizes exceed the code section".to_owned(),
            },
        );
    }
    // total the IR lines; beyond the model's bound the deltas would not fit
    let mut ir_acc: u128 = 0;
    let mut k: usize = 0;
    proof {
        assert(ir_records@.take(0) =~= Seq::<IrRecord>::empty());
    }
    while k < ir_records.len()
        invariant
            0 <= k <= ir_records@.len(),
            ir_acc as int == ir_records_total(ir_records@.take(k as int)),
            ir_acc <= (k as u128) * 0xffff_ffff_ffff_ffffu128,
        decreases ir_records@.len() - k,
    {
        proof {
            assert(ir_records@.take(k + 1).drop_last() =~= ir_records@.take(k as int));
            assert(ir_records@.take(k + 1).last() == ir_records@[k as int]);
            assert((k as u128 + 1) * 0xffff_ffff_ffff_ffffu128 == (k as u128)
                * 0xffff_ffff_ffff_ffffu128 + 0xffff_ffff_ffff_ffffu128) by (nonlinear_arith);
        }
        ir_acc = ir_acc + (ir_records[k].line_count as u128);
        k += 1;
    }
    proof {
        assert(ir_records@.take(ir_records@.len() as int) =~= ir_records@);
    }
    if ir_acc > (MAX_QUANTITY as u128) {
        return Result::Err(
            AnalysisError::FormatError {
                detail: "IR line totals exceed the supported range".to_owned(),
            },
        );
    }
    proof {
        lemma_ir_records_total_nonneg(ir_records@);
    }
    // merge by mangled name, demangle and attribute
    let merged = merge_raw_symbols(symbols);
    let mut enriched: Vec<Symbol> = Vec::new();
    let mut mi: usize = 0;
    while mi < merged.len()
        invariant
            0 <= mi <= merged@.len(),
            enriched@.len() == mi,
            forall|x: int, y: int|
                0 <= x < y < enriched@.len() ==> enriched@[x].mangled_name@
                    != enriched@[y].mangled_name@,
            forall|x: int|
                0 <= x < enriched@.len() ==> (#[trigger] enriched@[x]).mangled_name@ == merged@[
                x].mangled@ && enriched@[x].size == merged@[x].size,
            forall|x: int|
                0 <= x < enriched@.len() ==> {
                    let s = #[trigger] enriched@[x];
                    raw_has(symbols@, s.mangled_name@) && s.size as int == raw_sum(
                        symbols@,
                        s.mangled_name@,
                    ) && s.demangled_name@ == demangled_of(s.mangled_name@) && s.stripped_name@
                        == spec_strip_hash(s.demangled_name@) && s.crate_name@ == spec_attribute(
                        s.demangled_name@,
                        dep_crates@,
                    ).0 && s.is_std == spec_attribute(s.demangled_name@, dep_crates@).1 && 0
                        < s.size <= MAX_QUANTITY
                },
        decreases merged@.len() - mi,
    {
        let att = attribute_symbol(merged[mi].mangled.as_str(), &dep_crates);
        proof {
            lemma_raw_sum_pos(symbols@, merged@[mi as int].mangled@);
            lemma_raw_sum_le_total(symbols@, merged@[mi as int].mangled@);
        }
        enriched.push(
            Symbol {
                mangled_name: merged[mi].mangled.clone(),
                demangled_name: att.demangled,
                stripped_name: att.stripped,
                address: merged[mi].address,
                size: merged[mi].size,
                crate_name: att.crate_name,
                is_std: att.is_std,
            },
        );
        mi += 1;
    }
    proof {
        lemma_enriched_sum(enriched@, merged@);
    }
    // attribute the IR records
    let mut enriched_irs: Vec<IrFunction> = Vec::new();
    let mut ki: usize = 0;
    while ki < ir_records.len()
        invariant
            0 <= ki <= ir_records@.len(),
            enriched_irs@.len() == ki,
            forall|x: int, y: int|
                0 <= x < y < enriched_irs@.len() ==> enriched_irs@[x].name@
                    != enriched_irs@[y].name@,
            forall|x: int|
                0 <= x < enriched_irs@.len() ==> {
                    let f = #[trigger] enriched_irs@[x];
                    f.name@ == ir_records@[x].name@ && f.line_count == ir_records@[x].line_count
                        && f.copy_count == ir_records@[x].copy_count && f.crate_name@
                        == spec_attribute(f.name@, dep_crates@).0 && 0 < f.copy_count
                        <= f.line_count <= MAX_QUANTITY
                },
        decreases ir_records@.len() - ki,
    {
        proof {
            lemma_ir_record_le_total(ir_records@, ki as int);
        }
        let att = attribute_demangled(ir_records[ki].name.as_str(), &dep_crates);
        enriched_irs.push(
            IrFunction {
                name: ir_records[ki].name.clone(),
                line_count: ir_records[ki].line_count,
                copy_count: ir_records[ki].copy_count,
                crate_name: att.0,
            },
        );
        ki += 1;
    }
    proof {
        lemma_enriched_ir_sum(enriched_irs@, ir_records@);
    }
    // group by crate
    let mut sym_crate_names: Vec<String> = Vec::new();
    let mut x: usize = 0;
    while x < enriched.len()
        invariant
            0 <= x <= enriched@.len(),
            sym_crate_names@.len() == x,
            forall|t: int|
                0 <= t < x ==> (#[trigger] sym_crate_names@[t])@ == enriched@[t].crate_name@,
        decreases enriched@.len() - x,
    {
        sym_crate_names.push(enriched[x].crate_name.clone());
        x += 1;
    }
    let mut ir_crate_names: Vec<String> = Vec::new();
    let mut y: usize = 0;
    while y < enriched_irs.len()
        invariant
            0 <= y <= enriched_irs@.len(),
            ir_crate_names@.len() == y,
            forall|t: int|
                0 <= t < y ==> (#[trigger] ir_crate_names@[t])@ == enriched_irs@[t].crate_name@,
        decreases enriched_irs@.len() - y,
    {
        ir_crate_names.push(enriched_irs[y].crate_name.clone());
        y += 1;
    }
    let names = crate::diff::union_names(&sym_crate_names, &ir_crate_names);
    let mut crates: Vec<Crate> = Vec::new();
    let mut t: usize = 0;
    while t < names.len()
        invariant
            0 <= t <= names@.len(),
            crates@.len() == t,
            forall|k: int| 0 <= k < t ==> (#[trigger] crates@[k]).name@ == names@[k]@,
            forall|k: int, l: int| 0 <= k < l < crates@.len() ==> crates@[k].name@
                != crates@[l].name@,
            forall|k: int| 0 <= k < crates@.len() ==> wf_crate(#[trigger] crates@[k]),
            forall|k: int|
                0 <= k < crates@.len() ==> sym_size_sum((#[trigger] crates@[k]).symbols@)
                    <= MAX_QUANTITY,
            forall|k: int|
                0 <= k < crates@.len() ==> crate_from_inputs(
                    #[trigger] crates@[k],
                    symbols@,
                    ir_records@,
                    dep_crates@,
                ),
            crates_size_sum(crates@) == grouped_sym_sum(enriched@, crates@),
            crates_ir_line_sum(crates@) == grouped_ir_sum(enriched_irs@, crates@),
            forall|k: int|
                0 <= k < crates@.len() ==> syms_fields_eq(
                    (#[trigger] crates@[k]).symbols@,
                    filtered_syms(enriched@, crates@[k].name@),
                ),
            forall|k: int|
                0 <= k < crates@.len() ==> irs_fields_eq(
                    (#[trigger] crates@[k]).ir_functions@,
                    filtered_irs(enriched_irs@, crates@[k].name@),
                ),
        decreases names@.len() - t,
    {
        let name = &names[t];
        let csyms = collect_syms(&enriched, name.as_str());
        let cirs = collect_irs(&enriched_irs, name.as_str());
        proof {
            lemma_filtered_syms_props(enriched@, name@);
            lemma_filtered_irs_props(enriched_irs@, name@);
            lemma_syms_fields_eq_sum(csyms@, filtered_syms(enriched@, name@));
            lemma_irs_fields_eq_sum(cirs@, filtered_irs(enriched_irs@, name@));
            lemma_sym_size_sum_nonneg(enriched@);
            lemma_filtered_sym_sum_le(enriched@, name@);
        }
        let std_flag = is_std_crate(name.as_str());
        let ghost old_crates = crates@;
        crates.push(
            Crate { name: name.clone(), is_std: std_flag, symbols: csyms, ir_functions: cirs },
        );
        proof {
            assert(forall|k: int| 0 <= k < old_crates.len() ==> crates@[k] == old_crates[k]);
            let c = crates@[crates@.len() - 1];
            assert(crates@.drop_last() =~= old_crates);
            assert(crates@.last() == c);
            assert(wf_crate(c)) by {
                let f = filtered_syms(enriched@, c.name@);
                assert forall|j: int| 0 <= j < c.symbols@.len() implies wf_symbol(
                    #[trigger] c.symbols@[j],
                ) && c.symbols@[j].crate_name@ == c.name@ by {
                    assert(sym_fields_eq(c.symbols@[j], f[j]));
                    let w = choose|w: int| 0 <= w < enriched@.len() && enriched@[w] == f[j];
                }
                assert forall|j: int, l: int| 0 <= j < l < c.symbols@.len() implies c.symbols@[
                    j].mangled_name@ != c.symbols@[l].mangled_name@ by {
                    assert(sym_fields_eq(c.symbols@[j], f[j]));
                    assert(sym_fields_eq(c.symbols@[l], f[l]));
                }
                let g = filtered_irs(enriched_irs@, c.name@);
                assert forall|j: int| 0 <= j < c.ir_functions@.len() implies wf_ir_function(
                    #[trigger] c.ir_functions@[j],
                ) && c.ir_functions@[j].crate_name@ == c.name@ by {
                    assert(ir_fields_eq(c.ir_functions@[j], g[j]));
                    let w = choose|w: int| 0 <= w < enriched_irs@.len() && enriched_irs@[w] == g[j];
                }
                assert forall|j: int, l: int|
                    0 <= j < l < c.ir_functions@.len() implies c.ir_functions@[j].name@
                    != c.ir_functions@[l].name@ by {
                    assert(ir_fields_eq(c.ir_functions@[j], g[j]));
                    assert(ir_fields_eq(c.ir_functions@[l], g[l]));
                }
            }
            assert(crate_from_inputs(c, symbols@, ir_records@, dep_crates@)) by {
                let f = filtered_syms(enriched@, c.name@);
                assert forall|j: int| 0 <= j < c.symbols@.len() implies {
                    let s = #[trigger] c.symbols@[j];
                    raw_has(symbols@, s.mangled_name@) && s.size as int == raw_sum(
                        symbols@,
                        s.mangled_name@,
                    ) && s.demangled_name@ == demangled_of(s.mangled_name@) && s.crate_name@
                        == spec_attribute(s.demangled_name@, dep_crates@).0 && s.is_std
                        == spec_attribute(s.demangled_name@, dep_crates@).1
                } by {
                    assert(sym_fields_eq(c.symbols@[j], f[j]));
                    let w = choose|w: int| 0 <= w < enriched@.len() && enriched@[w] == f[j];
                }
                let g = filtered_irs(enriched_irs@, c.name@);
                assert forall|j: int| 0 <= j < c.ir_functions@.len() implies {
                    let fnc = #[trigger] c.ir_functions@[j];
                    (exists|k: int|
                        0 <= k < ir_records@.len() && (#[trigger] ir_records@[k]).name@ == fnc.name@
                            && ir_records@[k].line_count == fnc.line_count
                            && ir_records@[k].copy_count == fnc.copy_count) && fnc.crate_name@
                        == spec_attribute(fnc.name@, dep_crates@).0
                } by {
                    assert(ir_fields_eq(c.ir_functions@[j], g[j]));
                    let w = choose|w: int| 0 <= w < enriched_irs@.len() && enriched_irs@[w] == g[j];
                    assert(ir_records@[w].name@ == c.ir_functions@[j].name@);
                }
            }
        }
        t += 1;
    }
    proof {
        // the crate names cover every enriched symbol and IR function
        assert forall|i: int| 0 <= i < enriched@.len() implies crates_have_name(
            crates@,
            (#[trigger] enriched@[i]).crate_name@,
        ) by {
            assert(spec_name_known(names@, (#[trigger] sym_crate_names@[i])@));
            let k = choose|k: int|
                0 <= k < names@.len() && (#[trigger] names@[k])@ == sym_crate_names@[i]@;
            assert(crates@[k].name@ == enriched@[i].crate_name@);
        }
        assert forall|i: int| 0 <= i < enriched_irs@.len() implies crates_have_name(
            crates@,
            (#[trigger] enriched_irs@[i]).crate_name@,
        ) by {
            assert(spec_name_known(names@, (#[trigger] ir_crate_names@[i])@));
            let k = choose|k: int|
                0 <= k < names@.len() && (#[trigger] names@[k])@ == ir_crate_names@[i]@;
            assert(crates@[k].name@ == enriched_irs@[i].crate_name@);
        }
        lemma_grouped_sym_partition(enriched@, crates@);
        lemma_grouped_ir_partition(enriched_irs@, crates@);
    }
    let ghost unsorted = crates@;
    let sorted = sort_crates(crates);
    let ctx = BuildContext {
        crates: sorted,
        text_size,
        deps_symbols,
        dep_crates,
        wall_millis,
        target_triple,
    };
    proof {
        assert forall|ci: int| 0 <= ci < ctx.crates@.len() implies wf_crate(
            #[trigger] ctx.crates@[ci],
        ) && crate_from_inputs(ctx.crates@[ci], symbols@, ir_records@, dep_crates@) by {
            assert(unsorted.contains(ctx.crates@[ci]));
            let u = choose|u: int| 0 <= u < unsorted.len() && unsorted[u] == ctx.crates@[ci];
        }
        assert forall|i: int| 0 <= i < symbols@.len() implies exists|ci: int, j: int|
            0 <= ci < ctx.crates@.len() && 0 <= j < ctx.crates@[ci].symbols@.len()
                && ctx.crates@[ci].symbols@[j].mangled_name@ == (
        #[trigger] symbols@[i]).mangled@ by {
            assert(merged_covers(merged@, symbols@[i].mangled@));
            let mk = choose|mk: int|
                0 <= mk < merged@.len() && (#[trigger] merged@[mk]).mangled@ == symbols@[
                i].mangled@;
            let s = enriched@[mk];
            assert(s.mangled_name@ == symbols@[i].mangled@);
            assert(crates_have_name(unsorted, s.crate_name@));
            let k = choose|k: int|
                0 <= k < unsorted.len() && (#[trigger] unsorted[k]).name@ == s.crate_name@;
            lemma_filtered_syms_props(enriched@, unsorted[k].name@);
            let xx = choose|xx: int|
                0 <= xx < filtered_syms(enriched@, unsorted[k].name@).len() && filtered_syms(
                    enriched@,
                    unsorted[k].name@,
                )[xx] == s;
            assert(sym_fields_eq(
                unsorted[k].symbols@[xx],
                filtered_syms(enriched@, unsorted[k].name@)[xx],
            ));
            assert(ctx.crates@.contains(unsorted[k]));
            let ci = choose|ci: int|
                0 <= ci < ctx.crates@.len() && ctx.crates@[ci] == unsorted[k];
            assert(ctx.crates@[ci].symbols@[xx].mangled_name@ == symbols@[i].mangled@);
        }
        assert forall|k: int| 0 <= k < ir_records@.len() implies exists|ci: int, j: int|
            0 <= ci < ctx.crates@.len() && 0 <= j < ctx.crates@[ci].ir_functions@.len()
                && ctx.crates@[ci].ir_functions@[j].name@ == (
        #[trigger] ir_records@[k]).name@ by {
            let f = enriched_irs@[k];
            assert(f.name@ == ir_records@[k].name@);
            assert(crates_have_name(unsorted, f.crate_name@));
            let w = choose|w: int|
                0 <= w < unsorted.len() && (#[trigger] unsorted[w]).name@ == f.crate_name@;
            lemma_filtered_irs_props(enriched_irs@, unsorted[w].name@);
            let xx = choose|xx: int|
                0 <= xx < filtered_irs(enriched_irs@, unsorted[w].name@).len() && filtered_irs(
                    enriched_irs@,
                    unsorted[w].name@,
                )[xx] == f;
            assert(ir_fields_eq(
                unsorted[w].ir_functions@[xx],
                filtered_irs(enriched_irs@, unsorted[w].name@)[xx],
            ));
            assert(ctx.crates@.contains(unsorted[w]));
            let ci = choose|ci: int|
                0 <= ci < ctx.crates@.len() && ctx.crates@[ci] == unsorted[w];
            assert(ctx.crates@[ci].ir_functions@[xx].name@ == ir_records@[k].name@);
        }
        assert(attributed_context(ctx));
        assert(ctx.crates@.len() <= MAX_QUANTITY) by {
            assert(unsorted.len() == names@.len());
            assert(names@.len() <= sym_crate_names@.len() + ir_crate_names@.len());
        }
    }
    Result::Ok(ctx)
}

/// Enriched symbols keep the merged sizes, so their sum is the merged total.
proof fn lemma_enriched_sum(es: Seq<Symbol>, ms: Seq<MergedSym>)
    requires
        es.len() == ms.len(),
        forall|x: int|
            0 <= x < es.len() ==> (#[trigger] es[x]).size == ms[x].size,
    ensures
        sym_size_sum(es) == merged_total(ms),
    decreases es.len(),
{
    if es.len() > 0 {
        assert(forall|x: int| 0 <= x < es.drop_last().len() ==> es.drop_last()[x] == es[x]);
        assert(forall|x: int| 0 <= x < ms.drop_last().len() ==> ms.drop_last()[x] == ms[x]);
        assert(es.last() == es[es.len() - 1]);
        assert(ms.last() == ms[ms.len() - 1]);
        lemma_enriched_sum(es.drop_last(), ms.drop_last());
    }
}

/// Enriched IR functions keep the records' line counts.
proof fn lemma_enriched_ir_sum(es: Seq<IrFunction>, irs: Seq<IrRecord>)
    requires
        es.len() == irs.len(),
        forall|x: int|
            0 <= x < es.len() ==> (#[trigger] es[x]).line_count == irs[x].line_count,
    ensures
        ir_line_sum(es) == ir_records_total(irs),
    decreases es.len(),
{
    if es.len() > 0 {
        assert(forall|x: int| 0 <= x < es.drop_last().len() ==> es.drop_last()[x] == es[x]);
        assert(forall|x: int| 0 <= x < irs.drop_last().len() ==> irs.drop_last()[x] == irs[x]);
        assert(es.last() == es[es.len() - 1]);
        assert(irs.last() == irs[irs.len() - 1]);
        lemma_enriched_ir_sum(es.drop_last(), irs.drop_last());
    }
}

/// A filtered symbol sum is at most the whole sum.
proof fn lemma_filtered_sym_sum_le(ss: Seq<Symbol>, cn: Seq<char>)
    ensures
        0 <= sym_size_sum(filtered_syms(ss, cn)) <= sym_size_sum(ss),
    decreases ss.len(),
{
    if ss.len() == 0 {
    } else {
        lemma_filtered_sym_sum_le(ss.drop_last(), cn);
        if ss.last().crate_name@ == cn {
            let f0 = filtered_syms(ss.drop_last(), cn);
            assert(f0.push(ss.last()).drop_last() =~= f0);
            assert(f0.push(ss.last()).last() == ss.last());
        }
    }
}

} // verus!
