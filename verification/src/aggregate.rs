//! Cross-crate aggregation: the `all_symbols` and `all_ir_functions` views
//! of a build context.
//!
//! Both views fold every crate's entries into one list keyed by name. When a
//! name appears in several crates (a generic instantiated by dependents), the
//! quantities are summed and the owning crates are unioned.

use vstd::prelude::*;
use crate::attribute::name_known;
use crate::attribute::spec_name_known;
use crate::model::AggregateIrFunction;
use crate::model::AggregateSymbol;
use crate::model::BuildContext;
use crate::model::Crate;
use crate::model::IrFunction;
use crate::model::Symbol;
use crate::model::MAX_QUANTITY;
use crate::model::crates_ir_line_sum;
use crate::model::crates_size_sum;
use crate::model::ir_line_sum;
use crate::model::sym_size_sum;
use crate::model::unique_strings;
use crate::model::wf_context;
use crate::strutil::str_eq;

verus! {

/// One symbol occurrence, flattened out of its crate: the aggregation key,
/// the size, and the crate it came from.
pub struct FlatSym {
    /// The hash-stripped demangled name.
    pub name: String,
    /// The occurrence's size in bytes.
    pub size: u64,
    /// The crate the occurrence was attributed to.
    pub crate_name: String,
}

/// One IR function occurrence, flattened out of its crate.
pub struct FlatIr {
    /// The function name.
    pub name: String,
    /// The occurrence's IR line count.
    pub lines: u64,
    /// The occurrence's copy count.
    pub copies: u64,
    /// The crate the occurrence was attributed to.
    pub crate_name: String,
}

/// The flattened form of one symbol.
pub open spec fn sym_to_flat(s: Symbol) -> FlatSym {
    FlatSym { name: s.stripped_name, size: s.size, crate_name: s.crate_name }
}

/// The flattened form of one IR function.
pub open spec fn ir_to_flat(f: IrFunction) -> FlatIr {
    FlatIr { name: f.name, lines: f.line_count, copies: f.copy_count, crate_name: f.crate_name }
}

/// All symbol occurrences of the given crates, in crate order.
pub open spec fn spec_flat_syms(cs: Seq<Crate>) -> Seq<FlatSym>
    decreases cs.len(),
{
    if cs.len() == 0 {
        Seq::empty()
    } else {
        spec_flat_syms(cs.drop_last()) + cs.last().symbols@.map_values(|s: Symbol| sym_to_flat(s))
    }
}

/// All IR function occurrences of the given crates, in crate order.
pub open spec fn spec_flat_irs(cs: Seq<Crate>) -> Seq<FlatIr>
    decreases cs.len(),
{
    if cs.len() == 0 {
        Seq::empty()
    } else {
        spec_flat_irs(cs.drop_last()) + cs.last().ir_functions@.map_values(
            |f: IrFunction| ir_to_flat(f),
        )
    }
}

/// The summed size of the occurrences under the given name.
pub open spec fn flat_sum(fs: Seq<FlatSym>, name: Seq<char>) -> int
    decreases fs.len(),
{
    if fs.len() == 0 {
        0
    } else {
        flat_sum(fs.drop_last(), name) + if fs.last().name@ == name {
            fs.last().size as int
        } else {
            0
        }
    }
}

/// The summed size of all occurrences.
pub open spec fn flat_total(fs: Seq<FlatSym>) -> int
    decreases fs.len(),
{
    if fs.len() == 0 {
        0
    } else {
        flat_total(fs.drop_last()) + fs.last().size
    }
}

/// A name occurs among the flattened symbols.
pub open spec fn flat_has(fs: Seq<FlatSym>, name: Seq<char>) -> bool {
    exists|i: int| 0 <= i < fs.len() && fs[i].name@ == name
}

/// The name occurs attributed to the given crate.
pub open spec fn flat_pair(fs: Seq<FlatSym>, name: Seq<char>, crate_name: Seq<char>) -> bool {
    exists|i: int| 0 <= i < fs.len() && fs[i].name@ == name && fs[i].crate_name@ == crate_name
}

/// The summed line count of the IR occurrences under the given name.
pub open spec fn flat_ir_lines(fs: Seq<FlatIr>, name: Seq<char>) -> int
    decreases fs.len(),
{
    if fs.len() == 0 {
        0
    } else {
        flat_ir_lines(fs.drop_last(), name) + if fs.last().name@ == name {
            fs.last().lines as int
        } else {
            0
        }
    }
}

/// The summed copy count of the IR occurrences under the given name.
pub open spec fn flat_ir_copies(fs: Seq<FlatIr>, name: Seq<char>) -> int
    decreases fs.len(),
{
    if fs.len() == 0 {
        0
    } else {
        flat_ir_copies(fs.drop_last(), name) + if fs.last().name@ == name {
            fs.last().copies as int
        } else {
            0
        }
    }
}

/// The summed line count of all IR occurrences.
pub open spec fn flat_ir_total_lines(fs: Seq<FlatIr>) -> int
    decreases fs.len(),
{
    if fs.len() == 0 {
        0
    } else {
        flat_ir_total_lines(fs.drop_last()) + fs.last().lines
    }
}

/// A name occurs among the flattened IR functions.
pub open spec fn flat_ir_has(fs: Seq<FlatIr>, name: Seq<char>) -> bool {
    exists|i: int| 0 <= i < fs.len() && fs[i].name@ == name
}

/// The IR name occurs attributed to the given crate.
pub open spec fn flat_ir_pair(fs: Seq<FlatIr>, name: Seq<char>, crate_name: Seq<char>) -> bool {
    exists|i: int| 0 <= i < fs.len() && fs[i].name@ == name && fs[i].crate_name@ == crate_name
}

// ---------------------------------------------------------------------------
// Bounding lemmas
// ---------------------------------------------------------------------------

/// A per-name sum is at most the total, and both are non-negative.
pub proof fn lemma_flat_sum_le_total(fs: Seq<FlatSym>, name: Seq<char>)
    ensures
        0 <= flat_sum(fs, name) <= flat_total(fs),
    decreases fs.len(),
{
    if fs.len() > 0 {
        lemma_flat_sum_le_total(fs.drop_last(), name);
    }
}

/// A prefix's total is at most the whole total.
pub proof fn lemma_flat_total_take(fs: Seq<FlatSym>, i: int)
    requires
        0 <= i <= fs.len(),
    ensures
        flat_total(fs.take(i)) <= flat_total(fs),
    decreases fs.len() - i,
{
    if i == fs.len() {
        assert(fs.take(i) =~= fs);
    } else {
        lemma_flat_total_take(fs, i + 1);
        assert(fs.take(i + 1).drop_last() =~= fs.take(i));
        assert(fs.take(i + 1).last() == fs[i]);
    }
}

/// A per-name IR line sum is at most the total, and both are non-negative.
pub proof fn lemma_flat_ir_lines_le_total(fs: Seq<FlatIr>, name: Seq<char>)
    ensures
        0 <= flat_ir_lines(fs, name) <= flat_ir_total_lines(fs),
    decreases fs.len(),
{
    if fs.len() > 0 {
        lemma_flat_ir_lines_le_total(fs.drop_last(), name);
    }
}

/// A per-name IR copy sum is bounded by the per-name line sum when every
/// occurrence has at least as many lines as copies.
pub proof fn lemma_flat_ir_copies_le_lines(fs: Seq<FlatIr>, name: Seq<char>)
    requires
        forall|i: int| 0 <= i < fs.len() ==> (#[trigger] fs[i]).copies <= fs[i].lines,
    ensures
        0 <= flat_ir_copies(fs, name) <= flat_ir_lines(fs, name),
    decreases fs.len(),
{
    if fs.len() > 0 {
        assert(fs.last() == fs[fs.len() - 1]);
        assert(forall|i: int|
            0 <= i < fs.drop_last().len() ==> (#[trigger] fs.drop_last()[i]) == fs[i]);
        lemma_flat_ir_copies_le_lines(fs.drop_last(), name);
    }
}

/// A prefix's IR line total is at most the whole line total.
pub proof fn lemma_flat_ir_total_take(fs: Seq<FlatIr>, i: int)
    requires
        0 <= i <= fs.len(),
    ensures
        flat_ir_total_lines(fs.take(i)) <= flat_ir_total_lines(fs),
    decreases fs.len() - i,
{
    if i == fs.len() {
        assert(fs.take(i) =~= fs);
    } else {
        lemma_flat_ir_total_take(fs, i + 1);
        assert(fs.take(i + 1).drop_last() =~= fs.take(i));
        assert(fs.take(i + 1).last() == fs[i]);
    }
}

/// A name with no occurrence sums to zero.
pub proof fn lemma_flat_sum_absent(fs: Seq<FlatSym>, name: Seq<char>)
    requires
        !flat_has(fs, name),
    ensures
        flat_sum(fs, name) == 0,
    decreases fs.len(),
{
    if fs.len() > 0 {
        assert(forall|i: int| 0 <= i < fs.drop_last().len() ==> fs.drop_last()[i] == fs[i]);
        assert(fs.last() == fs[fs.len() - 1]);
        lemma_flat_sum_absent(fs.drop_last(), name);
    }
}

/// An IR name with no occurrence sums to zero lines and zero copies.
pub proof fn lemma_flat_ir_absent(fs: Seq<FlatIr>, name: Seq<char>)
    requires
        !flat_ir_has(fs, name),
    ensures
        flat_ir_lines(fs, name) == 0,
        flat_ir_copies(fs, name) == 0,
    decreases fs.len(),
{
    if fs.len() > 0 {
        assert(forall|i: int| 0 <= i < fs.drop_last().len() ==> fs.drop_last()[i] == fs[i]);
        assert(fs.last() == fs[fs.len() - 1]);
        lemma_flat_ir_absent(fs.drop_last(), name);
    }
}

/// Totals add over concatenation.
pub proof fn lemma_flat_total_concat(a: Seq<FlatSym>, b: Seq<FlatSym>)
    ensures
        flat_total(a + b) == flat_total(a) + flat_total(b),
    decreases b.len(),
{
    if b.len() == 0 {
        assert(a + b =~= a);
    } else {
        assert((a + b).drop_last() =~= a + b.drop_last());
        lemma_flat_total_concat(a, b.drop_last());
    }
}

/// IR line totals add over concatenation.
pub proof fn lemma_flat_ir_total_concat(a: Seq<FlatIr>, b: Seq<FlatIr>)
    ensures
        flat_ir_total_lines(a + b) == flat_ir_total_lines(a) + flat_ir_total_lines(b),
    decreases b.len(),
{
    if b.len() == 0 {
        assert(a + b =~= a);
    } else {
        assert((a + b).drop_last() =~= a + b.drop_last());
        lemma_flat_ir_total_concat(a, b.drop_last());
    }
}

/// The flattened symbol total of a crate sequence is the crates' size sum.
pub proof fn lemma_flat_syms_total(cs: Seq<Crate>)
    ensures
        flat_total(spec_flat_syms(cs)) == crates_size_sum(cs),
    decreases cs.len(),
{
    if cs.len() > 0 {
        lemma_flat_syms_total(cs.drop_last());
        lemma_flat_total_concat(
            spec_flat_syms(cs.drop_last()),
            cs.last().symbols@.map_values(|s: Symbol| sym_to_flat(s)),
        );
        lemma_mapped_sym_total(cs.last().symbols@);
    }
}

/// Flattening a symbol list keeps its size sum.
pub proof fn lemma_mapped_sym_total(ss: Seq<Symbol>)
    ensures
        flat_total(ss.map_values(|s: Symbol| sym_to_flat(s))) == sym_size_sum(ss),
    decreases ss.len(),
{
    let mapped = ss.map_values(|s: Symbol| sym_to_flat(s));
    if ss.len() > 0 {
        assert(mapped.drop_last() =~= ss.drop_last().map_values(|s: Symbol| sym_to_flat(s)));
        assert(mapped.last() == sym_to_flat(ss.last()));
        lemma_mapped_sym_total(ss.drop_last());
    } else {
        assert(mapped.len() == 0);
    }
}

/// The flattened IR line total of a crate sequence is the crates' line sum.
pub proof fn lemma_flat_irs_total(cs: Seq<Crate>)
    ensures
        flat_ir_total_lines(spec_flat_irs(cs)) == crates_ir_line_sum(cs),
    decreases cs.len(),
{
    if cs.len() > 0 {
        lemma_flat_irs_total(cs.drop_last());
        lemma_flat_ir_total_concat(
            spec_flat_irs(cs.drop_last()),
            cs.last().ir_functions@.map_values(|f: IrFunction| ir_to_flat(f)),
        );
        lemma_mapped_ir_total(cs.last().ir_functions@);
    }
}

/// Flattening an IR function list keeps its line sum.
pub proof fn lemma_mapped_ir_total(fs: Seq<IrFunction>)
    ensures
        flat_ir_total_lines(fs.map_values(|f: IrFunction| ir_to_flat(f))) == ir_line_sum(fs),
    decreases fs.len(),
{
    let mapped = fs.map_values(|f: IrFunction| ir_to_flat(f));
    if fs.len() > 0 {
        assert(mapped.drop_last() =~= fs.drop_last().map_values(|f: IrFunction| ir_to_flat(f)));
        assert(mapped.last() == ir_to_flat(fs.last()));
        lemma_mapped_ir_total(fs.drop_last());
    } else {
        assert(mapped.len() == 0);
    }
}

// ---------------------------------------------------------------------------
// Flattening
// ---------------------------------------------------------------------------

/// Flatten every crate's symbols into one list of occurrences.
#[verifier::loop_isolation(false)]
pub fn flatten_symbols(crates: &Vec<Crate>) -> (flat: Vec<FlatSym>)
    ensures
        flat@ == spec_flat_syms(crates@),
{
    let mut flat: Vec<FlatSym> = Vec::new();
    let mut ci: usize = 0;
    proof {
        assert(flat@ =~= spec_flat_syms(crates@.take(0)));
    }
    while ci < crates.len()
        invariant
            0 <= ci <= crates@.len(),
            flat@ =~= spec_flat_syms(crates@.take(ci as int)),
        decreases crates@.len() - ci,
    {
        let c = &crates[ci];
        let mut si: usize = 0;
        proof {
            assert(c.symbols@.take(0).map_values(|s: Symbol| sym_to_flat(s)) =~= Seq::<
                FlatSym,
            >::empty());
        }
        while si < c.symbols.len()
            invariant
                0 <= si <= c.symbols@.len(),
                0 <= ci < crates@.len(),
                c == crates@[ci as int],
                flat@ =~= spec_flat_syms(crates@.take(ci as int)) + c.symbols@.take(
                    si as int,
                ).map_values(|s: Symbol| sym_to_flat(s)),
            decreases c.symbols@.len() - si,
        {
            let s = &c.symbols[si];
            flat.push(FlatSym { name: s.stripped_name.clone(), size: s.size, crate_name: s.crate_name.clone() });
            proof {
                assert(c.symbols@.take(si + 1).map_values(|s: Symbol| sym_to_flat(s))
                    =~= c.symbols@.take(si as int).map_values(|s: Symbol| sym_to_flat(s)).push(
                    sym_to_flat(c.symbols@[si as int]),
                ));
            }
            si += 1;
        }
        proof {
            assert(c.symbols@.take(c.symbols@.len() as int) =~= c.symbols@);
            assert(crates@.take(ci + 1).drop_last() =~= crates@.take(ci as int));
            assert(crates@.take(ci + 1).last() == crates@[ci as int]);
        }
        ci += 1;
    }
    proof {
        assert(crates@.take(crates@.len() as int) =~= crates@);
    }
    flat
}

/// Flatten every crate's IR functions into one list of occurrences.
#[verifier::loop_isolation(false)]
pub fn flatten_irs(crates: &Vec<Crate>) -> (flat: Vec<FlatIr>)
    ensures
        flat@ == spec_flat_irs(crates@),
{
    let mut flat: Vec<FlatIr> = Vec::new();
    let mut ci: usize = 0;
    proof {
        assert(flat@ =~= spec_flat_irs(crates@.take(0)));
    }
    while ci < crates.len()
        invariant
            0 <= ci <= crates@.len(),
            flat@ =~= spec_flat_irs(crates@.take(ci as int)),
        decreases crates@.len() - ci,
    {
        let c = &crates[ci];
        let mut fi: usize = 0;
        proof {
            assert(c.ir_functions@.take(0).map_values(|f: IrFunction| ir_to_flat(f)) =~= Seq::<
                FlatIr,
            >::empty());
        }
        while fi < c.ir_functions.len()
            invariant
                0 <= fi <= c.ir_functions@.len(),
                0 <= ci < crates@.len(),
                c == crates@[ci as int],
                flat@ =~= spec_flat_irs(crates@.take(ci as int)) + c.ir_functions@.take(
                    fi as int,
                ).map_values(|f: IrFunction| ir_to_flat(f)),
            decreases c.ir_functions@.len() - fi,
        {
            let f = &c.ir_functions[fi];
            flat.push(
                FlatIr {
                    name: f.name.clone(),
                    lines: f.line_count,
                    copies: f.copy_count,
                    crate_name: f.crate_name.clone(),
                },
            );
            proof {
                assert(c.ir_functions@.take(fi + 1).map_values(|f: IrFunction| ir_to_flat(f))
                    =~= c.ir_functions@.take(fi as int).map_values(
                    |f: IrFunction| ir_to_flat(f),
                ).push(ir_to_flat(c.ir_functions@[fi as int])));
            }
            fi += 1;
        }
        proof {
            assert(c.ir_functions@.take(c.ir_functions@.len() as int) =~= c.ir_functions@);
            assert(crates@.take(ci + 1).drop_last() =~= crates@.take(ci as int));
            assert(crates@.take(ci + 1).last() == crates@[ci as int]);
        }
        ci += 1;
    }
    proof {
        assert(crates@.take(crates@.len() as int) =~= crates@);
    }
    flat
}

// ---------------------------------------------------------------------------
// Per-name folds
// ---------------------------------------------------------------------------

/// Sum the sizes of the occurrences under one name.
#[verifier::loop_isolation(false)]
fn sum_for_name(flat: &Vec<FlatSym>, name: &str) -> (total: u64)
    requires
        flat_total(flat@) <= MAX_QUANTITY,
    ensures
        total as int == flat_sum(flat@, name@),
{
    let mut total: u64 = 0;
    let mut i: usize = 0;
    proof {
        assert(flat@.take(0) =~= Seq::<FlatSym>::empty());
    }
    while i < flat.len()
        invariant
            0 <= i <= flat@.len(),
            total as int == flat_sum(flat@.take(i as int), name@),
        decreases flat@.len() - i,
    {
        proof {
            assert(flat@.take(i + 1).drop_last() =~= flat@.take(i as int));
            assert(flat@.take(i + 1).last() == flat@[i as int]);
            lemma_flat_sum_le_total(flat@.take(i + 1), name@);
            lemma_flat_total_take(flat@, i + 1);
        }
        if str_eq(flat[i].name.as_str(), name) {
            total = total + flat[i].size;
        }
        i += 1;
    }
    proof {
        assert(flat@.take(flat@.len() as int) =~= flat@);
    }
    total
}

/// Sum the line and copy counts of the IR occurrences under one name.
#[verifier::loop_isolation(false)]
fn ir_sums_for_name(flat: &Vec<FlatIr>, name: &str) -> (totals: (u64, u64))
    requires
        flat_ir_total_lines(flat@) <= MAX_QUANTITY,
        forall|i: int| 0 <= i < flat@.len() ==> (#[trigger] flat@[i]).copies <= flat@[i].lines,
    ensures
        totals.0 as int == flat_ir_lines(flat@, name@),
        totals.1 as int == flat_ir_copies(flat@, name@),
{
    let mut lines: u64 = 0;
    let mut copies: u64 = 0;
    let mut i: usize = 0;
    proof {
        assert(flat@.take(0) =~= Seq::<FlatIr>::empty());
    }
    while i < flat.len()
        invariant
            0 <= i <= flat@.len(),
            lines as int == flat_ir_lines(flat@.take(i as int), name@),
            copies as int == flat_ir_copies(flat@.take(i as int), name@),
        decreases flat@.len() - i,
    {
        proof {
            assert(flat@.take(i + 1).drop_last() =~= flat@.take(i as int));
            assert(flat@.take(i + 1).last() == flat@[i as int]);
            assert(forall|t: int|
                0 <= t < i + 1 ==> (#[trigger] flat@.take(i + 1)[t]).copies <= flat@.take(
                    i + 1,
                )[t].lines);
            lemma_flat_ir_lines_le_total(flat@.take(i + 1), name@);
            lemma_flat_ir_copies_le_lines(flat@.take(i + 1), name@);
            lemma_flat_ir_total_take(flat@, i + 1);
        }
        if str_eq(flat[i].name.as_str(), name) {
            lines = lines + flat[i].lines;
            copies = copies + flat[i].copies;
        }
        i += 1;
    }
    proof {
        assert(flat@.take(flat@.len() as int) =~= flat@);
    }
    (lines, copies)
}

/// Collect the distinct crate names under which the name occurs.
#[verifier::loop_isolation(false)]
fn sym_crates_for_name(flat: &Vec<FlatSym>, name: &str) -> (crates: Vec<String>)
    ensures
        unique_strings(crates@),
        forall|t: int| 0 <= t < crates@.len() ==> flat_pair(flat@, name@, crates@[t]@),
        forall|i: int|
            0 <= i < flat@.len() && (#[trigger] flat@[i]).name@ == name@ ==> spec_name_known(
                crates@,
                flat@[i].crate_name@,
            ),
{
    let mut crates: Vec<String> = Vec::new();
    let mut i: usize = 0;
    while i < flat.len()
        invariant
            0 <= i <= flat@.len(),
            unique_strings(crates@),
            forall|t: int| 0 <= t < crates@.len() ==> flat_pair(flat@, name@, crates@[t]@),
            forall|j: int|
                0 <= j < i && (#[trigger] flat@[j]).name@ == name@ ==> spec_name_known(
                    crates@,
                    flat@[j].crate_name@,
                ),
        decreases flat@.len() - i,
    {
        if str_eq(flat[i].name.as_str(), name) {
            if !name_known(&crates, flat[i].crate_name.as_str()) {
                let ghost old_crates = crates@;
                crates.push(flat[i].crate_name.clone());
                proof {
                    assert(crates@[crates@.len() - 1]@ == flat@[i as int].crate_name@);
                    assert(forall|t: int|
                        0 <= t < old_crates.len() ==> crates@[t]@ == old_crates[t]@);
                    assert(flat_pair(flat@, name@, flat@[i as int].crate_name@));
                }
            }
        }
        i += 1;
    }
    crates
}

/// The IR version of `sym_crates_for_name`.
#[verifier::loop_isolation(false)]
fn ir_crates_for_name(flat: &Vec<FlatIr>, name: &str) -> (crates: Vec<String>)
    ensures
        unique_strings(crates@),
        forall|t: int| 0 <= t < crates@.len() ==> flat_ir_pair(flat@, name@, crates@[t]@),
        forall|i: int|
            0 <= i < flat@.len() && (#[trigger] flat@[i]).name@ == name@ ==> spec_name_known(
                crates@,
                flat@[i].crate_name@,
            ),
{
    let mut crates: Vec<String> = Vec::new();
    let mut i: usize = 0;
    while i < flat.len()
        invariant
            0 <= i <= flat@.len(),
            unique_strings(crates@),
            forall|t: int| 0 <= t < crates@.len() ==> flat_ir_pair(flat@, name@, crates@[t]@),
            forall|j: int|
                0 <= j < i && (#[trigger] flat@[j]).name@ == name@ ==> spec_name_known(
                    crates@,
                    flat@[j].crate_name@,
                ),
        decreases flat@.len() - i,
    {
        if str_eq(flat[i].name.as_str(), name) {
            if !name_known(&crates, flat[i].crate_name.as_str()) {
                let ghost old_crates = crates@;
                crates.push(flat[i].crate_name.clone());
                proof {
                    assert(crates@[crates@.len() - 1]@ == flat@[i as int].crate_name@);
                    assert(forall|t: int|
                        0 <= t < old_crates.len() ==> crates@[t]@ == old_crates[t]@);
                    assert(flat_ir_pair(flat@, name@, flat@[i as int].crate_name@));
                }
            }
        }
        i += 1;
    }
    crates
}

/// A name already occurs among the first `upto` occurrences.
#[verifier::loop_isolation(false)]
fn sym_name_seen(flat: &Vec<FlatSym>, upto: usize, name: &str) -> (r: bool)
    requires
        upto <= flat@.len(),
    ensures
        r == flat_has(flat@.take(upto as int), name@),
{
    let mut i: usize = 0;
    while i < upto
        invariant
            0 <= i <= upto,
            forall|j: int| 0 <= j < i ==> (#[trigger] flat@[j]).name@ != name@,
        decreases upto - i,
    {
        if str_eq(flat[i].name.as_str(), name) {
            proof {
                assert(flat@.take(upto as int)[i as int].name@ == name@);
            }
            return true;
        }
        i += 1;
    }
    proof {
        assert forall|j: int|
            0 <= j < flat@.take(upto as int).len() implies (#[trigger] flat@.take(
            upto as int,
        )[j]).name@ != name@ by {
            assert(flat@.take(upto as int)[j] == flat@[j]);
        }
    }
    false
}

/// A name already occurs among the first `upto` IR occurrences.
#[verifier::loop_isolation(false)]
fn ir_name_seen(flat: &Vec<FlatIr>, upto: usize, name: &str) -> (r: bool)
    requires
        upto <= flat@.len(),
    ensures
        r == flat_ir_has(flat@.take(upto as int), name@),
{
    let mut i: usize = 0;
    while i < upto
        invariant
            0 <= i <= upto,
            forall|j: int| 0 <= j < i ==> (#[trigger] flat@[j]).name@ != name@,
        decreases upto - i,
    {
        if str_eq(flat[i].name.as_str(), name) {
            proof {
                assert(flat@.take(upto as int)[i as int].name@ == name@);
            }
            return true;
        }
        i += 1;
    }
    proof {
        assert forall|j: int|
            0 <= j < flat@.take(upto as int).len() implies (#[trigger] flat@.take(
            upto as int,
        )[j]).name@ != name@ by {
            assert(flat@.take(upto as int)[j] == flat@[j]);
        }
    }
    false
}

// ---------------------------------------------------------------------------
// The views
// ---------------------------------------------------------------------------

/// The aggregate entries hold one entry for the given name.
pub open spec fn agg_sym_has(entries: Seq<AggregateSymbol>, name: Seq<char>) -> bool {
    exists|t: int| 0 <= t < entries.len() && entries[t].name@ == name
}

/// The aggregate IR entries hold one entry for the given name.
pub open spec fn agg_ir_has(entries: Seq<AggregateIrFunction>, name: Seq<char>) -> bool {
    exists|t: int| 0 <= t < entries.len() && entries[t].name@ == name
}

/// A correct symbol aggregation of the given occurrences: entries keyed by
/// distinct names; one entry for every occurring name and none other; each
/// entry's total the per-name sum, and its crate set exactly the crates the
/// name occurs under.
pub open spec fn sym_aggregation_ok(flat: Seq<FlatSym>, out: Seq<AggregateSymbol>) -> bool {
    &&& forall|t: int, u: int| 0 <= t < u < out.len() ==> out[t].name@ != out[u].name@
    &&& forall|t: int| 0 <= t < out.len() ==> flat_has(flat, (#[trigger] out[t]).name@)
    &&& forall|t: int|
        0 <= t < out.len() ==> (#[trigger] out[t]).total_size as int == flat_sum(
            flat,
            out[t].name@,
        )
    &&& forall|i: int| 0 <= i < flat.len() ==> agg_sym_has(out, (#[trigger] flat[i]).name@)
    &&& forall|t: int| 0 <= t < out.len() ==> unique_strings((#[trigger] out[t]).crates@)
    &&& forall|t: int, x: int|
        0 <= t < out.len() && 0 <= x < out[t].crates@.len() ==> flat_pair(
            flat,
            out[t].name@,
            out[t].crates@[x]@,
        )
    &&& forall|t: int, i: int|
        0 <= t < out.len() && 0 <= i < flat.len() && flat[i].name@ == out[t].name@
            ==> spec_name_known((#[trigger] out[t]).crates@, (#[trigger] flat[i]).crate_name@)
}

/// A correct IR aggregation of the given occurrences.
pub open spec fn ir_aggregation_ok(flat: Seq<FlatIr>, out: Seq<AggregateIrFunction>) -> bool {
    &&& forall|t: int, u: int| 0 <= t < u < out.len() ==> out[t].name@ != out[u].name@
    &&& forall|t: int| 0 <= t < out.len() ==> flat_ir_has(flat, (#[trigger] out[t]).name@)
    &&& forall|t: int|
        0 <= t < out.len() ==> (#[trigger] out[t]).total_lines as int == flat_ir_lines(
            flat,
            out[t].name@,
        )
    &&& forall|t: int|
        0 <= t < out.len() ==> (#[trigger] out[t]).total_copies as int == flat_ir_copies(
            flat,
            out[t].name@,
        )
    &&& forall|i: int| 0 <= i < flat.len() ==> agg_ir_has(out, (#[trigger] flat[i]).name@)
    &&& forall|t: int| 0 <= t < out.len() ==> unique_strings((#[trigger] out[t]).crates@)
    &&& forall|t: int, x: int|
        0 <= t < out.len() && 0 <= x < out[t].crates@.len() ==> flat_ir_pair(
            flat,
            out[t].name@,
            out[t].crates@[x]@,
        )
    &&& forall|t: int, i: int|
        0 <= t < out.len() && 0 <= i < flat.len() && flat[i].name@ == out[t].name@
            ==> spec_name_known((#[trigger] out[t]).crates@, (#[trigger] flat[i]).crate_name@)
}

/// Group flattened symbol occurrences by name.
#[verifier::loop_isolation(false)]
pub fn group_symbols(flat: &Vec<FlatSym>) -> (out: Vec<AggregateSymbol>)
    requires
        flat_total(flat@) <= MAX_QUANTITY,
    ensures
        sym_aggregation_ok(flat@, out@),
{
    let mut out: Vec<AggregateSymbol> = Vec::new();
    let mut i: usize = 0;
    while i < flat.len()
        invariant
            0 <= i <= flat@.len(),
            forall|t: int, u: int| 0 <= t < u < out@.len() ==> out@[t].name@ != out@[u].name@,
            forall|t: int|
                0 <= t < out@.len() ==> flat_has(flat@.take(i as int), (#[trigger] out@[t]).name@),
            forall|t: int|
                0 <= t < out@.len() ==> (#[trigger] out@[t]).total_size as int == flat_sum(
                    flat@,
                    out@[t].name@,
                ),
            forall|j: int| 0 <= j < i ==> agg_sym_has(out@, (#[trigger] flat@[j]).name@),
            forall|t: int| 0 <= t < out@.len() ==> unique_strings((#[trigger] out@[t]).crates@),
            forall|t: int, x: int|
                0 <= t < out@.len() && 0 <= x < out@[t].crates@.len() ==> flat_pair(
                    flat@,
                    out@[t].name@,
                    out@[t].crates@[x]@,
                ),
            forall|t: int, j: int|
                0 <= t < out@.len() && 0 <= j < flat@.len() && flat@[j].name@ == out@[t].name@
                    ==> spec_name_known(
                    (#[trigger] out@[t]).crates@,
                    (#[trigger] flat@[j]).crate_name@,
                ),
        decreases flat@.len() - i,
    {
        let name = flat[i].name.clone();
        if !sym_name_seen(flat, i, name.as_str()) {
            let total = sum_for_name(flat, name.as_str());
            let crates = sym_crates_for_name(flat, name.as_str());
            let ghost old_out = out@;
            out.push(AggregateSymbol { name, total_size: total, crates });
            proof {
                assert(forall|t: int| 0 <= t < old_out.len() ==> out@[t] == old_out[t]);
                assert(out@[out@.len() - 1].name@ == flat@[i as int].name@);
                assert(flat@.take(i + 1)[i as int] == flat@[i as int]);
                assert(forall|t: int|
                    0 <= t < old_out.len() && flat_has(flat@.take(i as int), old_out[t].name@)
                        ==> flat_has(flat@.take(i + 1), (#[trigger] out@[t]).name@)) by {
                    assert(forall|j: int|
                        0 <= j < i ==> flat@.take(i as int)[j] == #[trigger] flat@.take(i + 1)[j]);
                }
            }
        } else {
            proof {
                let j = choose|j: int|
                    0 <= j < i && flat@.take(i as int)[j].name@ == flat@[i as int].name@;
                assert(agg_sym_has(out@, flat@[j].name@));
            }
        }
        proof {
            assert(forall|t: int|
                0 <= t < out@.len() && flat_has(flat@.take(i as int), out@[t].name@) ==> flat_has(
                    flat@.take(i + 1),
                    (#[trigger] out@[t]).name@,
                )) by {
                assert(forall|j: int|
                    0 <= j < i ==> flat@.take(i as int)[j] == #[trigger] flat@.take(i + 1)[j]);
            }
        }
        i += 1;
    }
    proof {
        assert(flat@.take(flat@.len() as int) =~= flat@);
    }
    out
}

/// Group flattened IR occurrences by name.
#[verifier::loop_isolation(false)]
pub fn group_irs(flat: &Vec<FlatIr>) -> (out: Vec<AggregateIrFunction>)
    requires
        flat_ir_total_lines(flat@) <= MAX_QUANTITY,
        forall|i: int| 0 <= i < flat@.len() ==> (#[trigger] flat@[i]).copies <= flat@[i].lines,
    ensures
        ir_aggregation_ok(flat@, out@),
{
    let mut out: Vec<AggregateIrFunction> = Vec::new();
    let mut i: usize = 0;
    while i < flat.len()
        invariant
            0 <= i <= flat@.len(),
            forall|t: int, u: int| 0 <= t < u < out@.len() ==> out@[t].name@ != out@[u].name@,
            forall|t: int|
                0 <= t < out@.len() ==> flat_ir_has(
                    flat@.take(i as int),
                    (#[trigger] out@[t]).name@,
                ),
            forall|t: int|
                0 <= t < out@.len() ==> (#[trigger] out@[t]).total_lines as int == flat_ir_lines(
                    flat@,
                    out@[t].name@,
                ),
            forall|t: int|
                0 <= t < out@.len() ==> (#[trigger] out@[t]).total_copies as int == flat_ir_copies(
                    flat@,
                    out@[t].name@,
                ),
            forall|j: int| 0 <= j < i ==> agg_ir_has(out@, (#[trigger] flat@[j]).name@),
            forall|t: int| 0 <= t < out@.len() ==> unique_strings((#[trigger] out@[t]).crates@),
            forall|t: int, x: int|
                0 <= t < out@.len() && 0 <= x < out@[t].crates@.len() ==> flat_ir_pair(
                    flat@,
                    out@[t].name@,
                    out@[t].crates@[x]@,
                ),
            forall|t: int, j: int|
                0 <= t < out@.len() && 0 <= j < flat@.len() && flat@[j].name@ == out@[t].name@
                    ==> spec_name_known(
                    (#[trigger] out@[t]).crates@,
                    (#[trigger] flat@[j]).crate_name@,
                ),
        decreases flat@.len() - i,
    {
        let name = flat[i].name.clone();
        if !ir_name_seen(flat, i, name.as_str()) {
            let totals = ir_sums_for_name(flat, name.as_str());
            let crates = ir_crates_for_name(flat, name.as_str());
            let ghost old_out = out@;
            out.push(
                AggregateIrFunction { name, total_lines: totals.0, total_copies: totals.1, crates },
            );
            proof {
                assert(forall|t: int| 0 <= t < old_out.len() ==> out@[t] == old_out[t]);
                assert(out@[out@.len() - 1].name@ == flat@[i as int].name@);
                assert(flat@.take(i + 1)[i as int] == flat@[i as int]);
            }
        } else {
            proof {
                let j = choose|j: int|
                    0 <= j < i && flat@.take(i as int)[j].name@ == flat@[i as int].name@;
                assert(agg_ir_has(out@, flat@[j].name@));
            }
        }
        proof {
            assert(forall|t: int|
                0 <= t < out@.len() && flat_ir_has(flat@.take(i as int), out@[t].name@)
                    ==> flat_ir_has(flat@.take(i + 1), (#[trigger] out@[t]).name@)) by {
                assert(forall|j: int|
                    0 <= j < i ==> flat@.take(i as int)[j] == #[trigger] flat@.take(i + 1)[j]);
            }
        }
        i += 1;
    }
    proof {
        assert(flat@.take(flat@.len() as int) =~= flat@);
    }
    out
}

/// Fold every crate's symbols into one list keyed by hash-stripped demangled
/// name, summing sizes and unioning the owning crates.
pub fn all_symbols(b: &BuildContext) -> (out: Vec<AggregateSymbol>)
    requires
        wf_context(*b),
    ensures
        sym_aggregation_ok(spec_flat_syms(b.crates@), out@),
{
    let flat = flatten_symbols(&b.crates);
    proof {
        lemma_flat_syms_total(b.crates@);
    }
    group_symbols(&flat)
}

/// Fold every crate's IR functions into one list keyed by name, summing line
/// and copy counts and unioning the owning crates.
pub fn all_ir_functions(b: &BuildContext) -> (out: Vec<AggregateIrFunction>)
    requires
        wf_context(*b),
    ensures
        ir_aggregation_ok(spec_flat_irs(b.crates@), out@),
{
    let flat = flatten_irs(&b.crates);
    proof {
        lemma_flat_irs_total(b.crates@);
        lemma_flat_irs_wf(b.crates@, *b);
    }
    group_irs(&flat)
}

/// In a well-formed context every flattened IR occurrence has at least as
/// many lines as copies.
proof fn lemma_flat_irs_wf(cs: Seq<Crate>, b: BuildContext)
    requires
        wf_context(b),
        forall|i: int| 0 <= i < cs.len() ==> b.crates@.contains(#[trigger] cs[i]),
    ensures
        forall|i: int|
            0 <= i < spec_flat_irs(cs).len() ==> (#[trigger] spec_flat_irs(cs)[i]).copies
                <= spec_flat_irs(cs)[i].lines,
    decreases cs.len(),
{
    if cs.len() > 0 {
        assert(forall|i: int| 0 <= i < cs.drop_last().len() ==> cs.drop_last()[i] == cs[i]);
        lemma_flat_irs_wf(cs.drop_last(), b);
        let c = cs.last();
        let mapped = c.ir_functions@.map_values(|f: IrFunction| ir_to_flat(f));
        assert(b.crates@.contains(c));
        let ci = choose|ci: int| 0 <= ci < b.crates@.len() && b.crates@[ci] == c;
        assert forall|i: int| 0 <= i < mapped.len() implies (#[trigger] mapped[i]).copies
            <= mapped[i].lines by {
            assert(mapped[i] == ir_to_flat(c.ir_functions@[i]));
        }
        assert(forall|i: int|
            0 <= i < spec_flat_irs(cs).len() ==> spec_flat_irs(cs)[i] == if i < spec_flat_irs(
                cs.drop_last(),
            ).len() {
                spec_flat_irs(cs.drop_last())[i]
            } else {
                mapped[i - spec_flat_irs(cs.drop_last()).len()]
            });
    }
}

} // verus!
