//! The report renderers: a colored terminal summary and a markdown report,
//! both pure functions of a `Diff`.
//!
//! The terminal report gives the whole-build totals with colored change
//! markers. The markdown report adds three tables: the top ten crate deltas,
//! the top twenty symbol deltas and the top twenty IR function deltas, each
//! closed by one row summing whatever lies beyond the listed entries.

use vstd::prelude::*;
use crate::colors::blue_of;
use crate::colors::bright_blue_of;
use crate::colors::cyan_of;
use crate::colors::dimmed_of;
use crate::colors::green_of;
use crate::colors::magenta_of;
use crate::colors::painted_blue;
use crate::colors::painted_bright_blue;
use crate::colors::painted_cyan;
use crate::colors::painted_dimmed;
use crate::colors::painted_green;
use crate::colors::painted_magenta;
use crate::colors::painted_red;
use crate::colors::red_of;
use crate::diff::diff_contexts;
use crate::diff::diff_ok;
use crate::model::AggregateIrFunction;
use crate::model::AggregateSymbol;
use crate::model::BuildContext;
use crate::model::Delta;
use crate::model::Diff;
use crate::model::MAX_QUANTITY;
use crate::model::lemma_crate_size_le_sum;
use crate::model::lemma_find_crate;
use crate::model::wf_context;
use crate::numfmt::abs_u64;
use crate::numfmt::fmt_secs2;
use crate::numfmt::fmt_duration_ms;
use crate::numfmt::fmt_thousands_i64;
use crate::numfmt::fmt_u64;
use crate::numfmt::format_bytes;
use crate::numfmt::format_bytes_u128;
use crate::numfmt::spec_digits;
use crate::numfmt::spec_duration;
use crate::numfmt::spec_format_bytes;
use crate::numfmt::spec_secs2;
use crate::numfmt::spec_thousands;
use crate::aggregate::lemma_flat_sum_le_total;
use crate::aggregate::lemma_flat_ir_lines_le_total;
use crate::aggregate::lemma_flat_syms_total;
use crate::aggregate::lemma_flat_irs_total;

verus! {

/// The two rendered forms of one comparison.
pub struct ReportOutputs {
    /// The colored terminal report.
    pub text: String,
    /// The markdown report.
    pub markdown: String,
}

// ---------------------------------------------------------------------------
// Change markers
// ---------------------------------------------------------------------------

/// A count change marker for the terminal, colored.
pub open spec fn tx_count_diff(before: int, after: int) -> Seq<char> {
    let diff = after - before;
    if diff > 0 {
        green_of(" (📈 +"@ + spec_thousands(diff) + ")"@)
    } else if diff < 0 {
        red_of(" (📉 "@ + spec_thousands(diff) + ")"@)
    } else {
        dimmed_of(" (➖ no change)"@)
    }
}

/// A count change marker for markdown.
pub open spec fn md_count_diff(before: int, after: int) -> Seq<char> {
    let diff = after - before;
    if diff > 0 {
        " (📈 +"@ + spec_thousands(diff) + ")"@
    } else if diff < 0 {
        " (📉 "@ + spec_thousands(diff) + ")"@
    } else {
        " (➖ no change)"@
    }
}

/// A byte change marker for the terminal, colored.
pub open spec fn tx_bytes_diff(before: int, after: int) -> Seq<char> {
    let diff = after - before;
    if diff > 0 {
        green_of(" (📈 +"@ + spec_format_bytes(diff) + ")"@)
    } else if diff < 0 {
        red_of(" (📉 -"@ + spec_format_bytes(-diff) + ")"@)
    } else {
        dimmed_of(" (➖ no change)"@)
    }
}

/// A byte change marker for markdown.
pub open spec fn md_bytes_diff(before: int, after: int) -> Seq<char> {
    let diff = after - before;
    if diff > 0 {
        " (📈 +"@ + spec_format_bytes(diff) + ")"@
    } else if diff < 0 {
        " (📉 -"@ + spec_format_bytes(-diff) + ")"@
    } else {
        " (➖ no change)"@
    }
}

/// A wall-time change marker for the terminal; changes within a hundredth of
/// a second count as no change.
pub open spec fn tx_wall_diff(before: int, after: int) -> Seq<char> {
    let diff = after - before;
    if diff > 10 {
        green_of(" (📈 +"@ + spec_secs2(diff) + " s)"@)
    } else if diff < -10 {
        red_of(" (📉 -"@ + spec_secs2(-diff) + " s)"@)
    } else {
        dimmed_of(" (➖ no change)"@)
    }
}

/// A wall-time change marker for markdown.
pub open spec fn md_wall_diff(before: int, after: int) -> Seq<char> {
    let diff = after - before;
    if diff > 10 {
        " (📈 +"@ + spec_secs2(diff) + " s)"@
    } else if diff < -10 {
        " (📉 -"@ + spec_secs2(-diff) + " s)"@
    } else {
        " (➖ no change)"@
    }
}

fn tx_count_diff_exec(before: u64, after: u64) -> (r: String)
    requires
        before <= MAX_QUANTITY,
        after <= MAX_QUANTITY,
    ensures
        r@ == tx_count_diff(before as int, after as int),
{
    let diff: i64 = (after as i64) - (before as i64);
    if diff > 0 {
        let s = " (📈 +".to_owned().concat(fmt_thousands_i64(diff).as_str()).concat(")");
        painted_green(s.as_str())
    } else if diff < 0 {
        let s = " (📉 ".to_owned().concat(fmt_thousands_i64(diff).as_str()).concat(")");
        painted_red(s.as_str())
    } else {
        painted_dimmed(" (➖ no change)")
    }
}

fn md_count_diff_exec(before: u64, after: u64) -> (r: String)
    requires
        before <= MAX_QUANTITY,
        after <= MAX_QUANTITY,
    ensures
        r@ == md_count_diff(before as int, after as int),
{
    let diff: i64 = (after as i64) - (before as i64);
    if diff > 0 {
        " (📈 +".to_owned().concat(fmt_thousands_i64(diff).as_str()).concat(")")
    } else if diff < 0 {
        " (📉 ".to_owned().concat(fmt_thousands_i64(diff).as_str()).concat(")")
    } else {
        " (➖ no change)".to_owned()
    }
}

fn tx_bytes_diff_exec(before: u64, after: u64) -> (r: String)
    requires
        before <= MAX_QUANTITY,
        after <= MAX_QUANTITY,
    ensures
        r@ == tx_bytes_diff(before as int, after as int),
{
    let diff: i64 = (after as i64) - (before as i64);
    if diff > 0 {
        let s = " (📈 +".to_owned().concat(format_bytes(abs_u64(diff)).as_str()).concat(")");
        painted_green(s.as_str())
    } else if diff < 0 {
        let s = " (📉 -".to_owned().concat(format_bytes(abs_u64(diff)).as_str()).concat(")");
        painted_red(s.as_str())
    } else {
        painted_dimmed(" (➖ no change)")
    }
}

fn md_bytes_diff_exec(before: u64, after: u64) -> (r: String)
    requires
        before <= MAX_QUANTITY,
        after <= MAX_QUANTITY,
    ensures
        r@ == md_bytes_diff(before as int, after as int),
{
    let diff: i64 = (after as i64) - (before as i64);
    if diff > 0 {
        " (📈 +".to_owned().concat(format_bytes(abs_u64(diff)).as_str()).concat(")")
    } else if diff < 0 {
        " (📉 -".to_owned().concat(format_bytes(abs_u64(diff)).as_str()).concat(")")
    } else {
        " (➖ no change)".to_owned()
    }
}

fn tx_wall_diff_exec(before: u64, after: u64) -> (r: String)
    requires
        before <= MAX_QUANTITY,
        after <= MAX_QUANTITY,
    ensures
        r@ == tx_wall_diff(before as int, after as int),
{
    let diff: i64 = (after as i64) - (before as i64);
    if diff > 10 {
        let s = " (📈 +".to_owned().concat(fmt_secs2(abs_u64(diff)).as_str()).concat(" s)");
        painted_green(s.as_str())
    } else if diff < -10 {
        let s = " (📉 -".to_owned().concat(fmt_secs2(abs_u64(diff)).as_str()).concat(" s)");
        painted_red(s.as_str())
    } else {
        painted_dimmed(" (➖ no change)")
    }
}

fn md_wall_diff_exec(before: u64, after: u64) -> (r: String)
    requires
        before <= MAX_QUANTITY,
        after <= MAX_QUANTITY,
    ensures
        r@ == md_wall_diff(before as int, after as int),
{
    let diff: i64 = (after as i64) - (before as i64);
    if diff > 10 {
        " (📈 +".to_owned().concat(fmt_secs2(abs_u64(diff)).as_str()).concat(" s)")
    } else if diff < -10 {
        " (📉 -".to_owned().concat(fmt_secs2(abs_u64(diff)).as_str()).concat(" s)")
    } else {
        " (➖ no change)".to_owned()
    }
}

// ---------------------------------------------------------------------------
// Table cells and rows
// ---------------------------------------------------------------------------

/// An optional byte count, an absent one shown as an em dash.
pub open spec fn md_opt_bytes(o: Option<u64>) -> Seq<char> {
    match o {
        Some(v) => spec_format_bytes(v as int),
        None => "—"@,
    }
}

/// An optional plain count, an absent one shown as an em dash.
pub open spec fn md_opt_count(o: Option<u64>) -> Seq<char> {
    match o {
        Some(v) => spec_thousands(v as int),
        None => "—"@,
    }
}

/// The change cell of a byte-quantity row.
pub open spec fn md_bytes_change_cell(before: Option<u64>, after: Option<u64>, diff: int) -> Seq<
    char,
> {
    if before is Some && after is Some {
        if diff > 0 {
            "📈 +"@ + spec_format_bytes(diff)
        } else if diff < 0 {
            "📉 -"@ + spec_format_bytes(-diff)
        } else {
            "➖ no change"@
        }
    } else if before is None && after is Some {
        "🆕 NEW"@
    } else if before is Some && after is None {
        "🗑️ REMOVED"@
    } else {
        "—"@
    }
}

/// The change cell of a line-count row.
pub open spec fn md_count_change_cell(before: Option<u64>, after: Option<u64>, diff: int) -> Seq<
    char,
> {
    if before is Some && after is Some {
        if diff > 0 {
            "📈 +"@ + spec_thousands(diff)
        } else if diff < 0 {
            "📉 -"@ + spec_thousands(-diff)
        } else {
            "➖ no change"@
        }
    } else if before is None && after is Some {
        "🆕 NEW"@
    } else if before is Some && after is None {
        "🗑️ REMOVED"@
    } else {
        "—"@
    }
}

fn md_bytes_change_cell_exec(before: &Option<u64>, after: &Option<u64>, diff: i64) -> (r: String)
    ensures
        r@ == md_bytes_change_cell(*before, *after, diff as int),
{
    if before.is_some() && after.is_some() {
        if diff > 0 {
            "📈 +".to_owned().concat(format_bytes(abs_u64(diff)).as_str())
        } else if diff < 0 {
            "📉 -".to_owned().concat(format_bytes(abs_u64(diff)).as_str())
        } else {
            "➖ no change".to_owned()
        }
    } else if before.is_none() && after.is_some() {
        "🆕 NEW".to_owned()
    } else if before.is_some() && after.is_none() {
        "🗑️ REMOVED".to_owned()
    } else {
        "—".to_owned()
    }
}

fn md_count_change_cell_exec(before: &Option<u64>, after: &Option<u64>, diff: i64) -> (r: String)
    ensures
        r@ == md_count_change_cell(*before, *after, diff as int),
{
    if before.is_some() && after.is_some() {
        if diff > 0 {
            "📈 +".to_owned().concat(fmt_thousands_i64(diff).as_str())
        } else if diff < 0 {
            let mag = abs_u64(diff);
            "📉 -".to_owned().concat(crate::numfmt::fmt_grouped_u128(mag as u128).as_str())
        } else {
            "➖ no change".to_owned()
        }
    } else if before.is_none() && after.is_some() {
        "🆕 NEW".to_owned()
    } else if before.is_some() && after.is_none() {
        "🗑️ REMOVED".to_owned()
    } else {
        "—".to_owned()
    }
}

fn md_opt_bytes_exec(o: &Option<u64>) -> (r: String)
    ensures
        r@ == md_opt_bytes(*o),
{
    match o {
        Some(v) => format_bytes(*v),
        None => "—".to_owned(),
    }
}

fn md_opt_count_exec(o: &Option<u64>) -> (r: String)
    requires
        o matches Some(v) ==> v <= MAX_QUANTITY,
    ensures
        r@ == md_opt_count(*o),
{
    match o {
        Some(v) => fmt_thousands_i64(*v as i64),
        None => "—".to_owned(),
    }
}

/// Crate names joined with commas, each in bold.
pub open spec fn crates_joined(cs: Seq<String>) -> Seq<char>
    decreases cs.len(),
{
    if cs.len() == 0 {
        Seq::empty()
    } else if cs.len() == 1 {
        "**"@ + cs[0]@ + "**"@
    } else {
        crates_joined(cs.drop_last()) + ", "@ + "**"@ + cs.last()@ + "**"@
    }
}

/// The "found in" cell listing the owning crates, empty when none are known.
pub open spec fn md_crates_cell(cs: Seq<String>) -> Seq<char> {
    if cs.len() == 0 {
        Seq::empty()
    } else {
        "<br> found in "@ + crates_joined(cs)
    }
}

#[verifier::loop_isolation(false)]
fn md_crates_cell_exec(cs: &Vec<String>) -> (r: String)
    ensures
        r@ == md_crates_cell(cs@),
{
    if cs.len() == 0 {
        let r = String::new();
        proof {
            assert(r@ =~= md_crates_cell(cs@));
        }
        return r;
    }
    let mut joined = "**".to_owned().concat(cs[0].as_str()).concat("**");
    proof {
        assert(cs@.take(1).len() == 1);
        assert(cs@.take(1)[0] == cs@[0]);
        assert(joined@ =~= crates_joined(cs@.take(1)));
    }
    let mut t: usize = 1;
    while t < cs.len()
        invariant
            1 <= t <= cs@.len(),
            joined@ == crates_joined(cs@.take(t as int)),
        decreases cs@.len() - t,
    {
        joined = joined.concat(", ").concat("**").concat(cs[t].as_str()).concat("**");
        proof {
            assert(cs@.take(t + 1).drop_last() =~= cs@.take(t as int));
            assert(cs@.take(t + 1).last() == cs@[t as int]);
            assert(cs@.take(t + 1).len() >= 2);
            assert(joined@ =~= crates_joined(cs@.take(t + 1)));
        }
        t += 1;
    }
    proof {
        assert(cs@.take(cs@.len() as int) =~= cs@);
    }
    "<br> found in ".to_owned().concat(joined.as_str())
}

/// One row of the crate table.
pub open spec fn md_crate_row(e: Delta<u64>) -> Seq<char> {
    "| `"@ + e.name@ + "` | "@ + md_opt_bytes(e.before) + " | "@ + md_opt_bytes(e.after) + " | "@
        + md_bytes_change_cell(e.before, e.after, e.diff as int) + " |\n"@
}

fn md_crate_row_exec(e: &Delta<u64>) -> (r: String)
    ensures
        r@ == md_crate_row(*e),
{
    let r = "| `".to_owned().concat(e.name.as_str()).concat("` | ").concat(
        md_opt_bytes_exec(&e.before).as_str(),
    ).concat(" | ").concat(md_opt_bytes_exec(&e.after).as_str()).concat(" | ").concat(
        md_bytes_change_cell_exec(&e.before, &e.after, e.diff).as_str(),
    ).concat(" |\n");
    proof {
        assert(r@ =~= md_crate_row(*e));
    }
    r
}

/// The size field of an optional aggregate symbol entry.
pub open spec fn sym_opt_size(o: Option<AggregateSymbol>) -> Option<u64> {
    match o {
        Some(ag) => Some(ag.total_size),
        None => None,
    }
}

/// The line field of an optional aggregate IR entry.
pub open spec fn ir_opt_lines(o: Option<AggregateIrFunction>) -> Option<u64> {
    match o {
        Some(ag) => Some(ag.total_lines),
        None => None,
    }
}

/// The crates listed for a symbol row: the current side's, or the baseline's
/// when the symbol is gone.
pub open spec fn sym_row_crates(e: Delta<AggregateSymbol>) -> Seq<String> {
    match e.after {
        Some(ag) => ag.crates@,
        None => match e.before {
            Some(ag) => ag.crates@,
            None => Seq::empty(),
        },
    }
}

/// The crates listed for an IR function row.
pub open spec fn ir_row_crates(e: Delta<AggregateIrFunction>) -> Seq<String> {
    match e.after {
        Some(ag) => ag.crates@,
        None => match e.before {
            Some(ag) => ag.crates@,
            None => Seq::empty(),
        },
    }
}

/// One row of the symbol table.
pub open spec fn md_sym_row(e: Delta<AggregateSymbol>) -> Seq<char> {
    "| `"@ + e.name@ + "`"@ + md_crates_cell(sym_row_crates(e)) + " | "@ + md_opt_bytes(
        sym_opt_size(e.before),
    ) + " | "@ + md_opt_bytes(sym_opt_size(e.after)) + " | "@ + md_bytes_change_cell(
        sym_opt_size(e.before),
        sym_opt_size(e.after),
        e.diff as int,
    ) + " |\n"@
}

fn md_sym_row_exec(e: &Delta<AggregateSymbol>) -> (r: String)
    ensures
        r@ == md_sym_row(*e),
{
    let cell = match &e.after {
        Some(ag) => md_crates_cell_exec(&ag.crates),
        None => match &e.before {
            Some(ag) => md_crates_cell_exec(&ag.crates),
            None => {
                let empty = String::new();
                proof {
                    assert(empty@ =~= md_crates_cell(sym_row_crates(*e)));
                }
                empty
            },
        },
    };
    let before: Option<u64> = match &e.before {
        Some(ag) => Some(ag.total_size),
        None => None,
    };
    let after: Option<u64> = match &e.after {
        Some(ag) => Some(ag.total_size),
        None => None,
    };
    let r = "| `".to_owned().concat(e.name.as_str()).concat("`").concat(cell.as_str()).concat(
        " | ",
    ).concat(md_opt_bytes_exec(&before).as_str()).concat(" | ").concat(
        md_opt_bytes_exec(&after).as_str(),
    ).concat(" | ").concat(md_bytes_change_cell_exec(&before, &after, e.diff).as_str()).concat(
        " |\n",
    );
    proof {
        assert(r@ =~= md_sym_row(*e));
    }
    r
}

/// One row of the IR function table.
pub open spec fn md_ir_row(e: Delta<AggregateIrFunction>) -> Seq<char> {
    "| `"@ + e.name@ + "`"@ + md_crates_cell(ir_row_crates(e)) + " | "@ + md_opt_count(
        ir_opt_lines(e.before),
    ) + " | "@ + md_opt_count(ir_opt_lines(e.after)) + " | "@ + md_count_change_cell(
        ir_opt_lines(e.before),
        ir_opt_lines(e.after),
        e.diff as int,
    ) + " |\n"@
}

fn md_ir_row_exec(e: &Delta<AggregateIrFunction>) -> (r: String)
    requires
        e.before matches Some(ag) ==> ag.total_lines <= MAX_QUANTITY,
        e.after matches Some(ag) ==> ag.total_lines <= MAX_QUANTITY,
    ensures
        r@ == md_ir_row(*e),
{
    let cell = match &e.after {
        Some(ag) => md_crates_cell_exec(&ag.crates),
        None => match &e.before {
            Some(ag) => md_crates_cell_exec(&ag.crates),
            None => {
                let empty = String::new();
                proof {
                    assert(empty@ =~= md_crates_cell(ir_row_crates(*e)));
                }
                empty
            },
        },
    };
    let before: Option<u64> = match &e.before {
        Some(ag) => Some(ag.total_lines),
        None => None,
    };
    let after: Option<u64> = match &e.after {
        Some(ag) => Some(ag.total_lines),
        None => None,
    };
    let r = "| `".to_owned().concat(e.name.as_str()).concat("`").concat(cell.as_str()).concat(
        " | ",
    ).concat(md_opt_count_exec(&before).as_str()).concat(" | ").concat(
        md_opt_count_exec(&after).as_str(),
    ).concat(" | ").concat(md_count_change_cell_exec(&before, &after, e.diff).as_str()).concat(
        " |\n",
    );
    proof {
        assert(r@ =~= md_ir_row(*e));
    }
    r
}

// ---------------------------------------------------------------------------
// Tables
// ---------------------------------------------------------------------------

/// The value of an optional quantity, an absent one counting as zero.
pub open spec fn opt_u64_val(o: Option<u64>) -> int {
    match o {
        Some(v) => v as int,
        None => 0,
    }
}

/// The summed baseline sizes of crate delta entries.
pub open spec fn crate_sum_before(ds: Seq<Delta<u64>>) -> int
    decreases ds.len(),
{
    if ds.len() == 0 {
        0
    } else {
        crate_sum_before(ds.drop_last()) + opt_u64_val(ds.last().before)
    }
}

/// The summed current sizes of crate delta entries.
pub open spec fn crate_sum_after(ds: Seq<Delta<u64>>) -> int
    decreases ds.len(),
{
    if ds.len() == 0 {
        0
    } else {
        crate_sum_after(ds.drop_last()) + opt_u64_val(ds.last().after)
    }
}

/// The summed baseline sizes of symbol delta entries.
pub open spec fn sym_sum_before(ds: Seq<Delta<AggregateSymbol>>) -> int
    decreases ds.len(),
{
    if ds.len() == 0 {
        0
    } else {
        sym_sum_before(ds.drop_last()) + opt_u64_val(sym_opt_size(ds.last().before))
    }
}

/// The summed current sizes of symbol delta entries.
pub open spec fn sym_sum_after(ds: Seq<Delta<AggregateSymbol>>) -> int
    decreases ds.len(),
{
    if ds.len() == 0 {
        0
    } else {
        sym_sum_after(ds.drop_last()) + opt_u64_val(sym_opt_size(ds.last().after))
    }
}

/// The summed baseline lines of IR delta entries.
pub open spec fn ir_sum_before(ds: Seq<Delta<AggregateIrFunction>>) -> int
    decreases ds.len(),
{
    if ds.len() == 0 {
        0
    } else {
        ir_sum_before(ds.drop_last()) + opt_u64_val(ir_opt_lines(ds.last().before))
    }
}

/// The summed current lines of IR delta entries.
pub open spec fn ir_sum_after(ds: Seq<Delta<AggregateIrFunction>>) -> int
    decreases ds.len(),
{
    if ds.len() == 0 {
        0
    } else {
        ir_sum_after(ds.drop_last()) + opt_u64_val(ir_opt_lines(ds.last().after))
    }
}

/// A summed byte change in the summary row.
pub open spec fn md_sum_bytes_change(before: int, after: int) -> Seq<char> {
    let diff = after - before;
    if diff > 0 {
        "📈 +"@ + spec_format_bytes(diff)
    } else if diff < 0 {
        "📉 -"@ + spec_format_bytes(-diff)
    } else {
        "➖ no change"@
    }
}

/// A summed line-count change in the summary row.
pub open spec fn md_sum_count_change(before: int, after: int) -> Seq<char> {
    let diff = after - before;
    if diff > 0 {
        "📈 +"@ + spec_thousands(diff)
    } else if diff < 0 {
        "📉 -"@ + spec_thousands(-diff)
    } else {
        "➖ no change"@
    }
}

/// The rows of the crate table, in list order.
pub open spec fn md_crate_rows(ds: Seq<Delta<u64>>) -> Seq<char>
    decreases ds.len(),
{
    if ds.len() == 0 {
        Seq::empty()
    } else {
        md_crate_rows(ds.drop_last()) + md_crate_row(ds.last())
    }
}

/// The rows of the symbol table, in list order.
pub open spec fn md_sym_rows(ds: Seq<Delta<AggregateSymbol>>) -> Seq<char>
    decreases ds.len(),
{
    if ds.len() == 0 {
        Seq::empty()
    } else {
        md_sym_rows(ds.drop_last()) + md_sym_row(ds.last())
    }
}

/// The rows of the IR function table, in list order.
pub open spec fn md_ir_rows(ds: Seq<Delta<AggregateIrFunction>>) -> Seq<char>
    decreases ds.len(),
{
    if ds.len() == 0 {
        Seq::empty()
    } else {
        md_ir_rows(ds.drop_last()) + md_ir_row(ds.last())
    }
}

/// The summary row for the crates beyond the listed ones.
pub open spec fn md_crate_excluded(rest: Seq<Delta<u64>>) -> Seq<char> {
    "\n*"@ + spec_digits(rest.len() as int) + " additional crates account for **"@
        + spec_format_bytes(crate_sum_before(rest)) + "** → **"@ + spec_format_bytes(
        crate_sum_after(rest),
    ) + "** ("@ + md_sum_bytes_change(crate_sum_before(rest), crate_sum_after(rest)) + ")*\n"@
}

/// The summary row for the symbols beyond the listed ones.
pub open spec fn md_sym_excluded(rest: Seq<Delta<AggregateSymbol>>) -> Seq<char> {
    "\n*"@ + spec_digits(rest.len() as int) + " additional symbols account for **"@
        + spec_format_bytes(sym_sum_before(rest)) + "** → **"@ + spec_format_bytes(
        sym_sum_after(rest),
    ) + "** ("@ + md_sum_bytes_change(sym_sum_before(rest), sym_sum_after(rest)) + ")*\n"@
}

/// The summary row for the IR functions beyond the listed ones.
pub open spec fn md_ir_excluded(rest: Seq<Delta<AggregateIrFunction>>) -> Seq<char> {
    "\n*"@ + spec_digits(rest.len() as int) + " additional functions account for **"@
        + spec_thousands(ir_sum_before(rest)) + "** → **"@ + spec_thousands(ir_sum_after(rest))
        + "** ("@ + md_sum_count_change(ir_sum_before(rest), ir_sum_after(rest)) + ")*\n"@
}

/// The crate table: at most ten entries in list order, then the summary of
/// the rest; nothing when there is no change at all.
pub open spec fn md_crate_table(ds: Seq<Delta<u64>>) -> Seq<char> {
    if ds.len() == 0 {
        Seq::empty()
    } else {
        "| Crate | Baseline Size | Current Size | Change |\n"@
            + "|-------|---------------|--------------|--------|\n"@ + md_crate_rows(
            if ds.len() <= 10 {
                ds
            } else {
                ds.take(10)
            },
        ) + (if ds.len() > 10 {
            md_crate_excluded(ds.skip(10))
        } else {
            "\n_All significant changes are listed above._\n"@
        }) + "\n"@
    }
}

/// The symbol table: at most twenty entries, then the summary of the rest.
pub open spec fn md_sym_table(ds: Seq<Delta<AggregateSymbol>>) -> Seq<char> {
    if ds.len() == 0 {
        Seq::empty()
    } else {
        "| Symbol | Baseline Size | Current Size | Change |\n"@
            + "|--------|---------------|--------------|--------|\n"@ + md_sym_rows(
            if ds.len() <= 20 {
                ds
            } else {
                ds.take(20)
            },
        ) + (if ds.len() > 20 {
            md_sym_excluded(ds.skip(20))
        } else {
            "\n_All significant changes are listed above._\n"@
        }) + "\n"@
    }
}

/// The IR function table: at most twenty entries, then the summary.
pub open spec fn md_ir_table(ds: Seq<Delta<AggregateIrFunction>>) -> Seq<char> {
    if ds.len() == 0 {
        Seq::empty()
    } else {
        "| Function | Baseline Lines | Current Lines | Change |\n"@
            + "|----------|---------------|--------------|--------|\n"@ + md_ir_rows(
            if ds.len() <= 20 {
                ds
            } else {
                ds.take(20)
            },
        ) + (if ds.len() > 20 {
            md_ir_excluded(ds.skip(20))
        } else {
            "\n_All significant changes are listed above._\n"@
        }) + "\n"@
    }
}

/// Every quantity of the diff lies within the model's bound, so that the
/// summary sums cannot overflow.
pub open spec fn render_bounds(d: Diff) -> bool {
    &&& forall|t: int|
        0 <= t < d.crate_deltas@.len() ==> opt_u64_val((#[trigger] d.crate_deltas@[t]).before)
            <= MAX_QUANTITY && opt_u64_val(d.crate_deltas@[t].after) <= MAX_QUANTITY
    &&& forall|t: int|
        0 <= t < d.symbol_deltas@.len() ==> opt_u64_val(
            sym_opt_size((#[trigger] d.symbol_deltas@[t]).before),
        ) <= MAX_QUANTITY && opt_u64_val(sym_opt_size(d.symbol_deltas@[t].after)) <= MAX_QUANTITY
    &&& forall|t: int|
        0 <= t < d.ir_function_deltas@.len() ==> opt_u64_val(
            ir_opt_lines((#[trigger] d.ir_function_deltas@[t]).before),
        ) <= MAX_QUANTITY && opt_u64_val(ir_opt_lines(d.ir_function_deltas@[t].after))
            <= MAX_QUANTITY
    &&& d.totals.crate_count_before <= MAX_QUANTITY && d.totals.crate_count_after <= MAX_QUANTITY
    &&& d.totals.symbol_count_before <= MAX_QUANTITY && d.totals.symbol_count_after <= MAX_QUANTITY
    &&& d.totals.text_size_before <= MAX_QUANTITY && d.totals.text_size_after <= MAX_QUANTITY
    &&& d.totals.ir_line_count_before <= MAX_QUANTITY && d.totals.ir_line_count_after
        <= MAX_QUANTITY
    &&& d.totals.wall_millis_before <= MAX_QUANTITY && d.totals.wall_millis_after <= MAX_QUANTITY
}

#[verifier::loop_isolation(false)]
fn md_crate_table_exec(ds: &Vec<Delta<u64>>) -> (r: String)
    requires
        forall|t: int|
            0 <= t < ds@.len() ==> opt_u64_val((#[trigger] ds@[t]).before) <= MAX_QUANTITY
                && opt_u64_val(ds@[t].after) <= MAX_QUANTITY,
    ensures
        r@ == md_crate_table(ds@),
{
    if ds.len() == 0 {
        let r = String::new();
        proof {
            assert(r@ =~= md_crate_table(ds@));
        }
        return r;
    }
    let mut out = "| Crate | Baseline Size | Current Size | Change |\n".to_owned().concat(
        "|-------|---------------|--------------|--------|\n",
    );
    let ghost header = out@;
    let n: usize = if ds.len() <= 10 {
        ds.len()
    } else {
        10
    };
    let mut t: usize = 0;
    proof {
        assert(ds@.take(0) =~= Seq::<Delta<u64>>::empty());
    }
    while t < n
        invariant
            0 <= t <= n,
            out@ == header + md_crate_rows(ds@.take(t as int)),
        decreases n - t,
    {
        let row = md_crate_row_exec(&ds[t]);
        out.append(row.as_str());
        proof {
            assert(ds@.take(t + 1).drop_last() =~= ds@.take(t as int));
            assert(ds@.take(t + 1).last() == ds@[t as int]);
        }
        t += 1;
    }
    proof {
        if ds@.len() <= 10 {
            assert(ds@.take(n as int) =~= ds@);
        }
    }
    if ds.len() > 10 {
        let ghost rest = ds@.skip(10);
        let mut before_sum: u128 = 0;
        let mut after_sum: u128 = 0;
        let mut k: usize = 10;
        proof {
            assert(ds@.subrange(10, 10) =~= Seq::<Delta<u64>>::empty());
        }
        while k < ds.len()
            invariant
                10 <= k <= ds@.len(),
                before_sum as int == crate_sum_before(ds@.subrange(10, k as int)),
                after_sum as int == crate_sum_after(ds@.subrange(10, k as int)),
                before_sum <= (k - 10) * (MAX_QUANTITY as u128),
                after_sum <= (k - 10) * (MAX_QUANTITY as u128),
            decreases ds@.len() - k,
        {
            proof {
                assert(ds@.subrange(10, k + 1).drop_last() =~= ds@.subrange(10, k as int));
                assert(ds@.subrange(10, k + 1).last() == ds@[k as int]);
            }
            let bv: u64 = match &ds[k].before {
                Some(v) => *v,
                None => 0u64,
            };
            let av: u64 = match &ds[k].after {
                Some(v) => *v,
                None => 0u64,
            };
            before_sum = before_sum + (bv as u128);
            after_sum = after_sum + (av as u128);
            k += 1;
        }
        proof {
            assert(ds@.subrange(10, ds@.len() as int) =~= rest);
        }
        let count = fmt_u64((ds.len() - 10) as u64);
        let summary = "\n*".to_owned().concat(count.as_str()).concat(
            " additional crates account for **",
        ).concat(format_bytes_u128(before_sum).as_str()).concat("** → **").concat(
            format_bytes_u128(after_sum).as_str(),
        ).concat("** (").concat(md_sum_bytes_change_exec(before_sum, after_sum).as_str()).concat(
            ")*\n",
        );
        out.append(summary.as_str());
        proof {
            assert(summary@ =~= md_crate_excluded(rest));
        }
    } else {
        out.append("\n_All significant changes are listed above._\n");
    }
    out.append("\n");
    proof {
        assert(out@ =~= md_crate_table(ds@));
    }
    out
}

fn md_sum_bytes_change_exec(before: u128, after: u128) -> (r: String)
    requires
        before < 0x80000000000000000000000000000000u128,
        after < 0x80000000000000000000000000000000u128,
    ensures
        r@ == md_sum_bytes_change(before as int, after as int),
{
    if after > before {
        "📈 +".to_owned().concat(format_bytes_u128(after - before).as_str())
    } else if after < before {
        "📉 -".to_owned().concat(format_bytes_u128(before - after).as_str())
    } else {
        "➖ no change".to_owned()
    }
}

fn md_sum_count_change_exec(before: u128, after: u128) -> (r: String)
    requires
        before < 0x80000000000000000000000000000000u128,
        after < 0x80000000000000000000000000000000u128,
    ensures
        r@ == md_sum_count_change(before as int, after as int),
{
    if after > before {
        "📈 +".to_owned().concat(crate::numfmt::fmt_grouped_u128(after - before).as_str())
    } else if after < before {
        "📉 -".to_owned().concat(crate::numfmt::fmt_grouped_u128(before - after).as_str())
    } else {
        "➖ no change".to_owned()
    }
}

#[verifier::loop_isolation(false)]
fn md_sym_table_exec(ds: &Vec<Delta<AggregateSymbol>>) -> (r: String)
    requires
        forall|t: int|
            0 <= t < ds@.len() ==> opt_u64_val(sym_opt_size((#[trigger] ds@[t]).before))
                <= MAX_QUANTITY && opt_u64_val(sym_opt_size(ds@[t].after)) <= MAX_QUANTITY,
    ensures
        r@ == md_sym_table(ds@),
{
    if ds.len() == 0 {
        let r = String::new();
        proof {
            assert(r@ =~= md_sym_table(ds@));
        }
        return r;
    }
    let mut out = "| Symbol | Baseline Size | Current Size | Change |\n".to_owned().concat(
        "|--------|---------------|--------------|--------|\n",
    );
    let ghost header = out@;
    let n: usize = if ds.len() <= 20 {
        ds.len()
    } else {
        20
    };
    let mut t: usize = 0;
    proof {
        assert(ds@.take(0) =~= Seq::<Delta<AggregateSymbol>>::empty());
    }
    while t < n
        invariant
            0 <= t <= n,
            out@ == header + md_sym_rows(ds@.take(t as int)),
        decreases n - t,
    {
        let row = md_sym_row_exec(&ds[t]);
        out.append(row.as_str());
        proof {
            assert(ds@.take(t + 1).drop_last() =~= ds@.take(t as int));
            assert(ds@.take(t + 1).last() == ds@[t as int]);
        }
        t += 1;
    }
    proof {
        if ds@.len() <= 20 {
            assert(ds@.take(n as int) =~= ds@);
        }
    }
    if ds.len() > 20 {
        let ghost rest = ds@.skip(20);
        let mut before_sum: u128 = 0;
        let mut after_sum: u128 = 0;
        let mut k: usize = 20;
        proof {
            assert(ds@.subrange(20, 20) =~= Seq::<Delta<AggregateSymbol>>::empty());
        }
        while k < ds.len()
            invariant
                20 <= k <= ds@.len(),
                before_sum as int == sym_sum_before(ds@.subrange(20, k as int)),
                after_sum as int == sym_sum_after(ds@.subrange(20, k as int)),
                before_sum <= (k - 20) * (MAX_QUANTITY as u128),
                after_sum <= (k - 20) * (MAX_QUANTITY as u128),
            decreases ds@.len() - k,
        {
            proof {
                assert(ds@.subrange(20, k + 1).drop_last() =~= ds@.subrange(20, k as int));
                assert(ds@.subrange(20, k + 1).last() == ds@[k as int]);
            }
            let bv: u64 = match &ds[k].before {
                Some(ag) => ag.total_size,
                None => 0u64,
            };
            let av: u64 = match &ds[k].after {
                Some(ag) => ag.total_size,
                None => 0u64,
            };
            before_sum = before_sum + (bv as u128);
            after_sum = after_sum + (av as u128);
            k += 1;
        }
        proof {
            assert(ds@.subrange(20, ds@.len() as int) =~= rest);
        }
        let count = fmt_u64((ds.len() - 20) as u64);
        let summary = "\n*".to_owned().concat(count.as_str()).concat(
            " additional symbols account for **",
        ).concat(format_bytes_u128(before_sum).as_str()).concat("** → **").concat(
            format_bytes_u128(after_sum).as_str(),
        ).concat("** (").concat(md_sum_bytes_change_exec(before_sum, after_sum).as_str()).concat(
            ")*\n",
        );
        out.append(summary.as_str());
        proof {
            assert(summary@ =~= md_sym_excluded(rest));
        }
    } else {
        out.append("\n_All significant changes are listed above._\n");
    }
    out.append("\n");
    proof {
        assert(out@ =~= md_sym_table(ds@));
    }
    out
}

#[verifier::loop_isolation(false)]
fn md_ir_table_exec(ds: &Vec<Delta<AggregateIrFunction>>) -> (r: String)
    requires
        forall|t: int|
            0 <= t < ds@.len() ==> opt_u64_val(ir_opt_lines((#[trigger] ds@[t]).before))
                <= MAX_QUANTITY && opt_u64_val(ir_opt_lines(ds@[t].after)) <= MAX_QUANTITY,
    ensures
        r@ == md_ir_table(ds@),
{
    if ds.len() == 0 {
        let r = String::new();
        proof {
            assert(r@ =~= md_ir_table(ds@));
        }
        return r;
    }
    let mut out = "| Function | Baseline Lines | Current Lines | Change |\n".to_owned().concat(
        "|----------|---------------|--------------|--------|\n",
    );
    let ghost header = out@;
    let n: usize = if ds.len() <= 20 {
        ds.len()
    } else {
        20
    };
    let mut t: usize = 0;
    proof {
        assert(ds@.take(0) =~= Seq::<Delta<AggregateIrFunction>>::empty());
    }
    while t < n
        invariant
            0 <= t <= n,
            out@ == header + md_ir_rows(ds@.take(t as int)),
        decreases n - t,
    {
        let row = md_ir_row_exec(&ds[t]);
        out.append(row.as_str());
        proof {
            assert(ds@.take(t + 1).drop_last() =~= ds@.take(t as int));
            assert(ds@.take(t + 1).last() == ds@[t as int]);
        }
        t += 1;
    }
    proof {
        if ds@.len() <= 20 {
            assert(ds@.take(n as int) =~= ds@);
        }
    }
    if ds.len() > 20 {
        let ghost rest = ds@.skip(20);
        let mut before_sum: u128 = 0;
        let mut after_sum: u128 = 0;
        let mut k: usize = 20;
        proof {
            assert(ds@.subrange(20, 20) =~= Seq::<Delta<AggregateIrFunction>>::empty());
        }
        while k < ds.len()
            invariant
                20 <= k <= ds@.len(),
                before_sum as int == ir_sum_before(ds@.subrange(20, k as int)),
                after_sum as int == ir_sum_after(ds@.subrange(20, k as int)),
                before_sum <= (k - 20) * (MAX_QUANTITY as u128),
                after_sum <= (k - 20) * (MAX_QUANTITY as u128),
            decreases ds@.len() - k,
        {
            proof {
                assert(ds@.subrange(20, k + 1).drop_last() =~= ds@.subrange(20, k as int));
                assert(ds@.subrange(20, k + 1).last() == ds@[k as int]);
            }
            let bv: u64 = match &ds[k].before {
                Some(ag) => ag.total_lines,
                None => 0u64,
            };
            let av: u64 = match &ds[k].after {
                Some(ag) => ag.total_lines,
                None => 0u64,
            };
            before_sum = before_sum + (bv as u128);
            after_sum = after_sum + (av as u128);
            k += 1;
        }
        proof {
            assert(ds@.subrange(20, ds@.len() as int) =~= rest);
        }
        let count = fmt_u64((ds.len() - 20) as u64);
        let summary = "\n*".to_owned().concat(count.as_str()).concat(
            " additional functions account for **",
        ).concat(crate::numfmt::fmt_grouped_u128(before_sum).as_str()).concat("** → **").concat(
            crate::numfmt::fmt_grouped_u128(after_sum).as_str(),
        ).concat("** (").concat(md_sum_count_change_exec(before_sum, after_sum).as_str()).concat(
            ")*\n",
        );
        out.append(summary.as_str());
        proof {
            assert(summary@ =~= md_ir_excluded(rest));
        }
    } else {
        out.append("\n_All significant changes are listed above._\n");
    }
    out.append("\n");
    proof {
        assert(out@ =~= md_ir_table(ds@));
    }
    out
}

// ---------------------------------------------------------------------------
// The reports
// ---------------------------------------------------------------------------

/// The terminal report: the whole-build totals with colored change markers.
pub open spec fn spec_text_report(d: Diff) -> Seq<char> {
    bright_blue_of("limpid report\n"@) + "Number of crates: "@ + blue_of(
        spec_digits(d.totals.crate_count_after as int),
    ) + tx_count_diff(d.totals.crate_count_before as int, d.totals.crate_count_after as int)
        + "\n"@ + blue_of(spec_digits(d.totals.symbol_count_after as int)) + " symbols"@
        + tx_count_diff(d.totals.symbol_count_before as int, d.totals.symbol_count_after as int)
        + ", totaling "@ + cyan_of(spec_format_bytes(d.totals.text_size_after as int))
        + tx_bytes_diff(d.totals.text_size_before as int, d.totals.text_size_after as int) + "\n"@
        + "Number of LLVM lines: "@ + blue_of(spec_thousands(d.totals.ir_line_count_after as int))
        + tx_count_diff(d.totals.ir_line_count_before as int, d.totals.ir_line_count_after as int)
        + "\n"@ + "Wall duration: "@ + magenta_of(spec_duration(d.totals.wall_millis_after as int))
        + tx_wall_diff(d.totals.wall_millis_before as int, d.totals.wall_millis_after as int)
        + "\n"@
}

/// The markdown report: the totals with plain change markers, and the three
/// tables.
pub open spec fn spec_markdown_report(d: Diff) -> Seq<char> {
    "# 📦 limpid report\n\n"@ + "Number of crates: "@ + spec_digits(
        d.totals.crate_count_after as int,
    ) + md_count_diff(d.totals.crate_count_before as int, d.totals.crate_count_after as int)
        + "  \n"@ + md_crate_table(d.crate_deltas@) + spec_digits(
        d.totals.symbol_count_after as int,
    ) + " symbols"@ + md_count_diff(
        d.totals.symbol_count_before as int,
        d.totals.symbol_count_after as int,
    ) + ", totaling "@ + spec_format_bytes(d.totals.text_size_after as int) + md_bytes_diff(
        d.totals.text_size_before as int,
        d.totals.text_size_after as int,
    ) + "  \n"@ + md_sym_table(d.symbol_deltas@) + "\n"@ + "Number of LLVM lines: "@
        + spec_thousands(d.totals.ir_line_count_after as int) + md_count_diff(
        d.totals.ir_line_count_before as int,
        d.totals.ir_line_count_after as int,
    ) + "  \n"@ + md_ir_table(d.ir_function_deltas@) + "Wall duration: "@ + spec_duration(
        d.totals.wall_millis_after as int,
    ) + md_wall_diff(d.totals.wall_millis_before as int, d.totals.wall_millis_after as int)
        + "  \n"@
}

/// Render a diff as the terminal report and the markdown report.
pub fn render_reports(d: &Diff) -> (r: ReportOutputs)
    requires
        render_bounds(*d),
    ensures
        r.text@ == spec_text_report(*d),
        r.markdown@ == spec_markdown_report(*d),
{
    let mut text = painted_bright_blue("limpid report\n");
    text.append("Number of crates: ");
    text.append(painted_blue(fmt_u64(d.totals.crate_count_after).as_str()).as_str());
    text.append(
        tx_count_diff_exec(d.totals.crate_count_before, d.totals.crate_count_after).as_str(),
    );
    text.append("\n");
    text.append(painted_blue(fmt_u64(d.totals.symbol_count_after).as_str()).as_str());
    text.append(" symbols");
    text.append(
        tx_count_diff_exec(d.totals.symbol_count_before, d.totals.symbol_count_after).as_str(),
    );
    text.append(", totaling ");
    text.append(painted_cyan(format_bytes(d.totals.text_size_after).as_str()).as_str());
    text.append(tx_bytes_diff_exec(d.totals.text_size_before, d.totals.text_size_after).as_str());
    text.append("\n");
    text.append("Number of LLVM lines: ");
    text.append(
        painted_blue(fmt_thousands_i64(d.totals.ir_line_count_after as i64).as_str()).as_str(),
    );
    text.append(
        tx_count_diff_exec(d.totals.ir_line_count_before, d.totals.ir_line_count_after).as_str(),
    );
    text.append("\n");
    text.append("Wall duration: ");
    text.append(painted_magenta(fmt_duration_ms(d.totals.wall_millis_after).as_str()).as_str());
    text.append(tx_wall_diff_exec(d.totals.wall_millis_before, d.totals.wall_millis_after).as_str());
    text.append("\n");
    proof {
        assert(text@ =~= spec_text_report(*d));
    }
    let mut md = "# 📦 limpid report\n\n".to_owned();
    md.append("Number of crates: ");
    md.append(fmt_u64(d.totals.crate_count_after).as_str());
    md.append(md_count_diff_exec(d.totals.crate_count_before, d.totals.crate_count_after).as_str());
    md.append("  \n");
    md.append(md_crate_table_exec(&d.crate_deltas).as_str());
    md.append(fmt_u64(d.totals.symbol_count_after).as_str());
    md.append(" symbols");
    md.append(
        md_count_diff_exec(d.totals.symbol_count_before, d.totals.symbol_count_after).as_str(),
    );
    md.append(", totaling ");
    md.append(format_bytes(d.totals.text_size_after).as_str());
    md.append(md_bytes_diff_exec(d.totals.text_size_before, d.totals.text_size_after).as_str());
    md.append("  \n");
    md.append(md_sym_table_exec(&d.symbol_deltas).as_str());
    md.append("\n");
    md.append("Number of LLVM lines: ");
    md.append(fmt_thousands_i64(d.totals.ir_line_count_after as i64).as_str());
    md.append(
        md_count_diff_exec(d.totals.ir_line_count_before, d.totals.ir_line_count_after).as_str(),
    );
    md.append("  \n");
    md.append(md_ir_table_exec(&d.ir_function_deltas).as_str());
    md.append("Wall duration: ");
    md.append(fmt_duration_ms(d.totals.wall_millis_after).as_str());
    md.append(md_wall_diff_exec(d.totals.wall_millis_before, d.totals.wall_millis_after).as_str());
    md.append("  \n");
    proof {
        assert(md@ =~= spec_markdown_report(*d));
    }
    ReportOutputs { text, markdown: md }
}

/// Every quantity a correct diff of two well-formed contexts carries lies
/// within the model's bound.
proof fn lemma_render_bounds(a: BuildContext, b: BuildContext, d: Diff)
    requires
        wf_context(a),
        wf_context(b),
        diff_ok(a, b, d),
    ensures
        render_bounds(d),
{
    lemma_flat_syms_total(a.crates@);
    lemma_flat_syms_total(b.crates@);
    lemma_flat_irs_total(a.crates@);
    lemma_flat_irs_total(b.crates@);
    assert forall|t: int| 0 <= t < d.crate_deltas@.len() implies opt_u64_val(
        (#[trigger] d.crate_deltas@[t]).before,
    ) <= MAX_QUANTITY && opt_u64_val(d.crate_deltas@[t].after) <= MAX_QUANTITY by {
        let e = d.crate_deltas@[t];
        if e.before is Some {
            lemma_find_crate(a.crates@, e.name@);
            match crate::model::find_crate(a.crates@, e.name@) {
                Some(c) => {
                    let i = choose|i: int| 0 <= i < a.crates@.len() && a.crates@[i] == c;
                    lemma_crate_size_le_sum(a.crates@, i);
                },
                None => {},
            }
        }
        if e.after is Some {
            lemma_find_crate(b.crates@, e.name@);
            match crate::model::find_crate(b.crates@, e.name@) {
                Some(c) => {
                    let i = choose|i: int| 0 <= i < b.crates@.len() && b.crates@[i] == c;
                    lemma_crate_size_le_sum(b.crates@, i);
                },
                None => {},
            }
        }
    }
    assert forall|t: int| 0 <= t < d.symbol_deltas@.len() implies opt_u64_val(
        sym_opt_size((#[trigger] d.symbol_deltas@[t]).before),
    ) <= MAX_QUANTITY && opt_u64_val(sym_opt_size(d.symbol_deltas@[t].after)) <= MAX_QUANTITY by {
        let e = d.symbol_deltas@[t];
        if e.before is Some {
            lemma_flat_sum_le_total(crate::aggregate::spec_flat_syms(a.crates@), e.before->0.name@);
        }
        if e.after is Some {
            lemma_flat_sum_le_total(crate::aggregate::spec_flat_syms(b.crates@), e.after->0.name@);
        }
    }
    assert forall|t: int| 0 <= t < d.ir_function_deltas@.len() implies opt_u64_val(
        ir_opt_lines((#[trigger] d.ir_function_deltas@[t]).before),
    ) <= MAX_QUANTITY && opt_u64_val(ir_opt_lines(d.ir_function_deltas@[t].after))
        <= MAX_QUANTITY by {
        let e = d.ir_function_deltas@[t];
        if e.before is Some {
            lemma_flat_ir_lines_le_total(
                crate::aggregate::spec_flat_irs(a.crates@),
                e.before->0.name@,
            );
        }
        if e.after is Some {
            lemma_flat_ir_lines_le_total(
                crate::aggregate::spec_flat_irs(b.crates@),
                e.after->0.name@,
            );
        }
    }
}

/// Compare two builds and render both report forms.
pub fn generate_reports(baseline: &BuildContext, current: &BuildContext) -> (r: (
    Diff,
    ReportOutputs,
))
    requires
        wf_context(*baseline),
        wf_context(*current),
    ensures
        diff_ok(*baseline, *current, r.0),
        r.1.text@ == spec_text_report(r.0),
        r.1.markdown@ == spec_markdown_report(r.0),
{
    let d = diff_contexts(baseline, current);
    proof {
        lemma_render_bounds(*baseline, *current, d);
    }
    let outputs = render_reports(&d);
    (d, outputs)
}

} // verus!
