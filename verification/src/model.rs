//! The data model of one analyzed build and of the comparison of two.
//!
//! A `BuildContext` holds, for one build, the crates found in the binary with
//! their symbols and IR functions, the authoritative size of the code
//! section, the dependency metadata, and the wall-clock build time. A `Diff`
//! holds the structured comparison of two such contexts.
//!
//! Sizes, line counts and durations are bounded by `MAX_QUANTITY` so that
//! every signed difference fits an `i64`.

use vstd::prelude::*;
use crate::attribute::spec_attribute;
use crate::attribute::spec_strip_hash;
use crate::attribute::demangled_of;
use crate::strutil::lex_leq;

verus! {

/// The largest byte count, line count or millisecond count the model admits;
/// a difference of two such quantities fits an `i64`.
pub const MAX_QUANTITY: u64 = 0x7fff_ffff_ffff_ffff;

/// One defined text-section symbol of the binary, attributed to a crate.
pub struct Symbol {
    /// The mangled linker-level name, unique within its crate.
    pub mangled_name: String,
    /// The demangled name, with its trailing symbol hash kept.
    pub demangled_name: String,
    /// The demangled name with the symbol hash removed; the key under which
    /// the symbol is aggregated across crates.
    pub stripped_name: String,
    /// The symbol's address in the binary.
    pub address: u64,
    /// The symbol's size in bytes; always positive.
    pub size: u64,
    /// The crate the symbol is attributed to.
    pub crate_name: String,
    /// Whether that crate belongs to the standard library.
    pub is_std: bool,
}

/// One IR function, merged across the compilation units that emitted it.
pub struct IrFunction {
    /// The demangled function name, with the symbol hash removed.
    pub name: String,
    /// Total IR lines across all copies; at least `copy_count`.
    pub line_count: u64,
    /// The number of compilation units that emitted the function; positive.
    pub copy_count: u64,
    /// The crate the function is attributed to.
    pub crate_name: String,
}

/// One crate of the analyzed binary, with what was attributed to it.
pub struct Crate {
    /// The crate's name.
    pub name: String,
    /// Whether the crate belongs to the standard library.
    pub is_std: bool,
    /// The crate's symbols, keyed by mangled name.
    pub symbols: Vec<Symbol>,
    /// The crate's IR functions, keyed by name.
    pub ir_functions: Vec<IrFunction>,
}

/// The complete result of analyzing one build.
pub struct BuildContext {
    /// The crates, ordered by total symbol size descending, ties by name.
    pub crates: Vec<Crate>,
    /// The size of the code section; at least the sum of the symbol sizes.
    pub text_size: u64,
    /// The mangled names declared by any dependency.
    pub deps_symbols: Vec<String>,
    /// The names of the declared dependency crates.
    pub dep_crates: Vec<String>,
    /// Wall-clock build time, in milliseconds.
    pub wall_millis: u64,
    /// The platform identifier the build targeted.
    pub target_triple: String,
}

/// A symbol rolled up across all crates of one build.
pub struct AggregateSymbol {
    /// The hash-stripped demangled name.
    pub name: String,
    /// The summed size across all crates.
    pub total_size: u64,
    /// The names of the crates the symbol was attributed to.
    pub crates: Vec<String>,
}

/// An IR function rolled up across all crates of one build.
pub struct AggregateIrFunction {
    /// The function name.
    pub name: String,
    /// The summed IR line count across all crates.
    pub total_lines: u64,
    /// The summed copy count across all crates.
    pub total_copies: u64,
    /// The names of the crates the function was attributed to.
    pub crates: Vec<String>,
}

/// One entry of a delta list: a named quantity before and after, and their
/// signed difference. An absent side means the name is new or removed.
pub struct Delta<T> {
    /// The name the entry is about.
    pub name: String,
    /// The state in the baseline build, if the name occurs there.
    pub before: Option<T>,
    /// The state in the current build, if the name occurs there.
    pub after: Option<T>,
    /// The signed difference; never zero in a delta list.
    pub diff: i64,
}

/// Before/after pairs and signed differences of the whole-build totals.
pub struct DiffTotals {
    pub crate_count_before: u64,
    pub crate_count_after: u64,
    pub crate_count_delta: i64,
    pub symbol_count_before: u64,
    pub symbol_count_after: u64,
    pub symbol_count_delta: i64,
    pub text_size_before: u64,
    pub text_size_after: u64,
    pub text_size_delta: i64,
    pub ir_line_count_before: u64,
    pub ir_line_count_after: u64,
    pub ir_line_count_delta: i64,
    pub wall_millis_before: u64,
    pub wall_millis_after: u64,
    pub wall_millis_delta: i64,
}

/// The structured comparison of two builds.
pub struct Diff {
    /// Per-crate size deltas, by total crate size.
    pub crate_deltas: Vec<Delta<u64>>,
    /// Per-symbol size deltas, over the cross-crate aggregate view.
    pub symbol_deltas: Vec<Delta<AggregateSymbol>>,
    /// Per-IR-function line deltas, over the cross-crate aggregate view.
    pub ir_function_deltas: Vec<Delta<AggregateIrFunction>>,
    /// The whole-build totals, computed independently of the lists.
    pub totals: DiffTotals,
}

// ---------------------------------------------------------------------------
// Sums
// ---------------------------------------------------------------------------

/// The sum of the sizes of a sequence of symbols.
pub open spec fn sym_size_sum(ss: Seq<Symbol>) -> int
    decreases ss.len(),
{
    if ss.len() == 0 {
        0
    } else {
        sym_size_sum(ss.drop_last()) + ss.last().size
    }
}

/// The sum of the IR line counts of a sequence of IR functions.
pub open spec fn ir_line_sum(fs: Seq<IrFunction>) -> int
    decreases fs.len(),
{
    if fs.len() == 0 {
        0
    } else {
        ir_line_sum(fs.drop_last()) + fs.last().line_count
    }
}

/// The total symbol size of one crate.
pub open spec fn crate_size(c: Crate) -> int {
    sym_size_sum(c.symbols@)
}

/// The sum of the crates' total symbol sizes.
pub open spec fn crates_size_sum(cs: Seq<Crate>) -> int
    decreases cs.len(),
{
    if cs.len() == 0 {
        0
    } else {
        crates_size_sum(cs.drop_last()) + crate_size(cs.last())
    }
}

/// The sum of the crates' IR line counts.
pub open spec fn crates_ir_line_sum(cs: Seq<Crate>) -> int
    decreases cs.len(),
{
    if cs.len() == 0 {
        0
    } else {
        crates_ir_line_sum(cs.drop_last()) + ir_line_sum(cs.last().ir_functions@)
    }
}

/// A symbol-size sum is never negative.
pub proof fn lemma_sym_size_sum_nonneg(ss: Seq<Symbol>)
    ensures
        sym_size_sum(ss) >= 0,
    decreases ss.len(),
{
    if ss.len() > 0 {
        lemma_sym_size_sum_nonneg(ss.drop_last());
    }
}

/// An IR line sum is never negative.
pub proof fn lemma_ir_line_sum_nonneg(fs: Seq<IrFunction>)
    ensures
        ir_line_sum(fs) >= 0,
    decreases fs.len(),
{
    if fs.len() > 0 {
        lemma_ir_line_sum_nonneg(fs.drop_last());
    }
}

/// A crate-size sum is never negative.
pub proof fn lemma_crates_size_sum_nonneg(cs: Seq<Crate>)
    ensures
        crates_size_sum(cs) >= 0,
    decreases cs.len(),
{
    if cs.len() > 0 {
        lemma_crates_size_sum_nonneg(cs.drop_last());
        lemma_sym_size_sum_nonneg(cs.last().symbols@);
    }
}

/// An IR sum over crates is never negative.
pub proof fn lemma_crates_ir_line_sum_nonneg(cs: Seq<Crate>)
    ensures
        crates_ir_line_sum(cs) >= 0,
    decreases cs.len(),
{
    if cs.len() > 0 {
        lemma_crates_ir_line_sum_nonneg(cs.drop_last());
        lemma_ir_line_sum_nonneg(cs.last().ir_functions@);
    }
}

/// A prefix's symbol-size sum is at most the whole sum.
pub proof fn lemma_sym_size_sum_take(ss: Seq<Symbol>, i: int)
    requires
        0 <= i <= ss.len(),
    ensures
        sym_size_sum(ss.take(i)) <= sym_size_sum(ss),
    decreases ss.len() - i,
{
    if i == ss.len() {
        assert(ss.take(i) =~= ss);
    } else {
        lemma_sym_size_sum_take(ss, i + 1);
        assert(ss.take(i + 1).drop_last() =~= ss.take(i));
        assert(ss.take(i + 1).last() == ss[i]);
    }
}

/// Each crate's size is at most the crates' size sum.
pub proof fn lemma_crate_size_le_sum(cs: Seq<Crate>, i: int)
    requires
        0 <= i < cs.len(),
    ensures
        crate_size(cs[i]) <= crates_size_sum(cs),
    decreases cs.len(),
{
    lemma_sym_size_sum_nonneg(cs.last().symbols@);
    if i == cs.len() - 1 {
        lemma_crates_size_sum_nonneg(cs.drop_last());
    } else {
        assert(cs.drop_last()[i] == cs[i]);
        lemma_crate_size_le_sum(cs.drop_last(), i);
    }
}

/// A prefix's IR line sum is at most the whole sum.
pub proof fn lemma_ir_line_sum_take(fs: Seq<IrFunction>, i: int)
    requires
        0 <= i <= fs.len(),
    ensures
        ir_line_sum(fs.take(i)) <= ir_line_sum(fs),
    decreases fs.len() - i,
{
    if i == fs.len() {
        assert(fs.take(i) =~= fs);
    } else {
        lemma_ir_line_sum_take(fs, i + 1);
        assert(fs.take(i + 1).drop_last() =~= fs.take(i));
        assert(fs.take(i + 1).last() == fs[i]);
    }
}

/// Each crate's IR line count is at most the crates' IR line sum.
pub proof fn lemma_crate_ir_le_sum(cs: Seq<Crate>, i: int)
    requires
        0 <= i < cs.len(),
    ensures
        ir_line_sum(cs[i].ir_functions@) <= crates_ir_line_sum(cs),
    decreases cs.len(),
{
    lemma_ir_line_sum_nonneg(cs.last().ir_functions@);
    if i == cs.len() - 1 {
        lemma_crates_ir_line_sum_nonneg(cs.drop_last());
    } else {
        assert(cs.drop_last()[i] == cs[i]);
        lemma_crate_ir_le_sum(cs.drop_last(), i);
    }
}

/// A prefix's IR sum over crates is at most the whole sum.
pub proof fn lemma_crates_ir_line_sum_take(cs: Seq<Crate>, i: int)
    requires
        0 <= i <= cs.len(),
    ensures
        crates_ir_line_sum(cs.take(i)) <= crates_ir_line_sum(cs),
    decreases cs.len() - i,
{
    if i == cs.len() {
        assert(cs.take(i) =~= cs);
    } else {
        lemma_crates_ir_line_sum_take(cs, i + 1);
        assert(cs.take(i + 1).drop_last() =~= cs.take(i));
        assert(cs.take(i + 1).last() == cs[i]);
        lemma_ir_line_sum_nonneg(cs[i].ir_functions@);
    }
}

// ---------------------------------------------------------------------------
// Well-formedness
// ---------------------------------------------------------------------------

/// A symbol is well-formed: a positive, bounded size, and a stripped name
/// that is the demangled name without its hash.
pub open spec fn wf_symbol(s: Symbol) -> bool {
    &&& 0 < s.size <= MAX_QUANTITY
    &&& s.stripped_name@ == spec_strip_hash(s.demangled_name@)
}

/// An IR function is well-formed: emitted at least once, with at least one
/// line per copy, and bounded.
pub open spec fn wf_ir_function(f: IrFunction) -> bool {
    0 < f.copy_count <= f.line_count <= MAX_QUANTITY
}

/// A crate is well-formed: well-formed symbols unique by mangled name and
/// attributed to this crate, and likewise its IR functions by name.
pub open spec fn wf_crate(c: Crate) -> bool {
    &&& forall|i: int| 0 <= i < c.symbols@.len() ==> wf_symbol(#[trigger] c.symbols@[i])
    &&& forall|i: int|
        0 <= i < c.symbols@.len() ==> (#[trigger] c.symbols@[i]).crate_name@ == c.name@
    &&& forall|i: int, j: int|
        0 <= i < j < c.symbols@.len() ==> c.symbols@[i].mangled_name@
            != c.symbols@[j].mangled_name@
    &&& forall|i: int|
        0 <= i < c.ir_functions@.len() ==> wf_ir_function(#[trigger] c.ir_functions@[i])
    &&& forall|i: int|
        0 <= i < c.ir_functions@.len() ==> (#[trigger] c.ir_functions@[i]).crate_name@ == c.name@
    &&& forall|i: int, j: int|
        0 <= i < j < c.ir_functions@.len() ==> c.ir_functions@[i].name@
            != c.ir_functions@[j].name@
}

/// The order of the crate sequence: total symbol size descending, ties
/// broken by name ascending.
pub open spec fn crate_order(a: Crate, b: Crate) -> bool {
    crate_size(a) > crate_size(b) || (crate_size(a) == crate_size(b) && lex_leq(a.name@, b.name@))
}

/// Distinct strings at distinct positions.
pub open spec fn unique_strings(names: Seq<String>) -> bool {
    forall|i: int, j: int| 0 <= i < j < names.len() ==> names[i]@ != names[j]@
}

/// A build context is well-formed: well-formed crates with distinct names in
/// the stated order, a code-section size that covers the symbols and is
/// bounded, bounded IR totals and wall time, and dependency sets without
/// duplicates.
pub open spec fn wf_context(b: BuildContext) -> bool {
    &&& forall|i: int| 0 <= i < b.crates@.len() ==> wf_crate(#[trigger] b.crates@[i])
    &&& forall|i: int, j: int|
        0 <= i < j < b.crates@.len() ==> b.crates@[i].name@ != b.crates@[j].name@
    &&& forall|i: int, j: int|
        0 <= i < j < b.crates@.len() ==> crate_order(b.crates@[i], b.crates@[j])
    &&& crates_size_sum(b.crates@) <= b.text_size
    &&& b.text_size <= MAX_QUANTITY
    &&& crates_ir_line_sum(b.crates@) <= MAX_QUANTITY
    &&& b.wall_millis <= MAX_QUANTITY
    &&& b.crates@.len() <= MAX_QUANTITY
    &&& b.deps_symbols@.len() <= MAX_QUANTITY
    &&& unique_strings(b.deps_symbols@)
    &&& unique_strings(b.dep_crates@)
}

/// Every symbol of every crate is attributed under the attribution rules,
/// against this context's known dependency crates, and every IR function's
/// crate follows the same rules applied to its name.
pub open spec fn attributed_context(b: BuildContext) -> bool {
    &&& forall|i: int, j: int|
        0 <= i < b.crates@.len() && 0 <= j < b.crates@[i].symbols@.len() ==> {
            let s = #[trigger] b.crates@[i].symbols@[j];
            s.crate_name@ == spec_attribute(s.demangled_name@, b.dep_crates@).0 && s.is_std
                == spec_attribute(s.demangled_name@, b.dep_crates@).1 && s.demangled_name@
                == demangled_of(s.mangled_name@)
        }
    &&& forall|i: int, j: int|
        0 <= i < b.crates@.len() && 0 <= j < b.crates@[i].ir_functions@.len() ==> {
            let f = #[trigger] b.crates@[i].ir_functions@[j];
            f.crate_name@ == spec_attribute(f.name@, b.dep_crates@).0
        }
}

// ---------------------------------------------------------------------------
// Lookups
// ---------------------------------------------------------------------------

/// The crate of the given name, if the sequence holds one.
pub open spec fn find_crate(cs: Seq<Crate>, name: Seq<char>) -> Option<Crate>
    decreases cs.len(),
{
    if cs.len() == 0 {
        None
    } else if cs[0].name@ == name {
        Some(cs[0])
    } else {
        find_crate(cs.drop_first(), name)
    }
}

/// The total size of the crate of the given name, if any.
pub open spec fn crate_size_of(cs: Seq<Crate>, name: Seq<char>) -> Option<int> {
    match find_crate(cs, name) {
        Some(c) => Some(crate_size(c)),
        None => None,
    }
}

/// What `find_crate` returns: the unique crate of that name when the names
/// are distinct, nothing when no crate has the name.
pub proof fn lemma_find_crate(cs: Seq<Crate>, name: Seq<char>)
    ensures
        match find_crate(cs, name) {
            Some(c) => c.name@ == name && exists|i: int|
                0 <= i < cs.len() && cs[i] == c,
            None => forall|i: int| 0 <= i < cs.len() ==> (#[trigger] cs[i]).name@ != name,
        },
    decreases cs.len(),
{
    if cs.len() > 0 {
        if cs[0].name@ == name {
        } else {
            lemma_find_crate(cs.drop_first(), name);
            match find_crate(cs.drop_first(), name) {
                Some(c) => {
                    let i = choose|i: int|
                        0 <= i < cs.drop_first().len() && cs.drop_first()[i] == c;
                    assert(cs[i + 1] == c);
                },
                None => {
                    assert forall|i: int| 0 <= i < cs.len() implies (#[trigger] cs[i]).name@
                        != name by {
                        if i > 0 {
                            assert(cs.drop_first()[i - 1] == cs[i]);
                        }
                    }
                },
            }
        }
    }
}

} // verus!
