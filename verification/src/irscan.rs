//! The IR reader: scanning the text of one IR file for function definitions
//! and their body lines, and merging the findings across files.
//!
//! A definition opens with a line starting "define " naming the function
//! after '@' and before '(', possibly quoted; it closes at a bare "}". Body
//! lines are those indented by exactly two spaces. The recorded name is the
//! demangled, hash-stripped form; every definition counts at least one line.
//! Helper functions of the build configuration probing phase, recognizable
//! by the "autocfg_" prefix, are build-time artifacts and are skipped.

use vstd::prelude::*;
use crate::assemble::AnalysisError;
use crate::assemble::IrRecord;
use crate::attribute::demangle_symbol;
use crate::attribute::demangled_of;
use crate::attribute::spec_strip_hash;
use crate::attribute::strip_hash;
use crate::model::MAX_QUANTITY;
use crate::strutil::find_sub;
use crate::strutil::match_at;
use crate::strutil::match_at_exec;
use crate::strutil::spec_find;
use crate::strutil::str_eq;

verus! {

/// One scanned definition: the processed function name and its body lines.
pub struct IrDef {
    /// The demangled, hash-stripped function name.
    pub name: String,
    /// The lines counted for this definition; always at least one.
    pub lines: u64,
}

/// A line opens a function definition.
pub open spec fn is_define_line(l: Seq<char>) -> bool {
    match_at(l, "define "@, 0)
}

/// A line closes a function body.
pub open spec fn is_close_line(l: Seq<char>) -> bool {
    l == "}"@
}

/// A line belongs to a function body: indented by exactly two spaces.
pub open spec fn is_body_line(l: Seq<char>) -> bool {
    l.len() >= 2 && l[0] == ' ' && l[1] == ' ' && !(l.len() >= 3 && l[2] == ' ')
}

/// The text with leading quote characters removed.
pub open spec fn ltrim_quotes(s: Seq<char>) -> Seq<char>
    decreases s.len(),
{
    if s.len() > 0 && s[0] == '"' {
        ltrim_quotes(s.drop_first())
    } else {
        s
    }
}

/// The text with trailing quote characters removed.
pub open spec fn rtrim_quotes(s: Seq<char>) -> Seq<char>
    decreases s.len(),
{
    if s.len() > 0 && s.last() == '"' {
        rtrim_quotes(s.drop_last())
    } else {
        s
    }
}

/// The text with quote characters removed from both ends.
pub open spec fn trim_quotes(s: Seq<char>) -> Seq<char> {
    rtrim_quotes(ltrim_quotes(s))
}

/// The mangled name of a define line: the text between '@' and the next
/// '(', unquoted. Nothing when the line carries no such pair.
pub open spec fn spec_define_mangled(l: Seq<char>) -> Option<Seq<char>> {
    match spec_find(l, "@"@) {
        Some(a) => match spec_find(l.skip(a + 1), "("@) {
            Some(e) => Some(trim_quotes(l.skip(a + 1).take(e))),
            None => None,
        },
        None => None,
    }
}

/// The recorded name of a define line: the mangled name demangled and
/// stripped of its hash.
pub open spec fn spec_define_name(l: Seq<char>) -> Option<Seq<char>> {
    match spec_define_mangled(l) {
        Some(m) => Some(spec_strip_hash(demangled_of(m))),
        None => None,
    }
}

/// The name belongs to a configuration-probing helper.
pub open spec fn spec_is_autocfg(n: Seq<char>) -> bool {
    match_at(n, "autocfg_"@, 0)
}

/// What the scanner records from position `i` on, carrying the open
/// definition and the running body count.
pub open spec fn spec_scan_from(
    lines: Seq<Seq<char>>,
    i: int,
    cur: Option<Seq<char>>,
    count: int,
) -> Seq<(Seq<char>, int)>
    decreases lines.len() - i,
{
    if i < 0 || i >= lines.len() {
        Seq::empty()
    } else {
        let l = lines[i];
        if is_define_line(l) {
            spec_scan_from(lines, i + 1, spec_define_name(l), count)
        } else if is_close_line(l) {
            match cur {
                Some(n) => if spec_is_autocfg(n) {
                    spec_scan_from(lines, i + 1, None, 0)
                } else {
                    seq![(n, if count > 0 { count } else { 1 })] + spec_scan_from(
                        lines,
                        i + 1,
                        None,
                        0,
                    )
                },
                None => spec_scan_from(lines, i + 1, None, 0),
            }
        } else if is_body_line(l) {
            spec_scan_from(lines, i + 1, cur, count + 1)
        } else {
            spec_scan_from(lines, i + 1, cur, count)
        }
    }
}

/// The definitions recorded from a file's lines.
pub open spec fn spec_ir_scan(lines: Seq<Seq<char>>) -> Seq<(Seq<char>, int)> {
    spec_scan_from(lines, 0, None, 0)
}

/// The views of scanned definitions.
pub open spec fn defs_views(defs: Seq<IrDef>) -> Seq<(Seq<char>, int)> {
    defs.map_values(|d: IrDef| (d.name@, d.lines as int))
}

/// Quote trimming from the left reaches the first non-quote position.
proof fn lemma_ltrim_at(s: Seq<char>, k: int)
    requires
        0 <= k <= s.len(),
        forall|t: int| 0 <= t < k ==> s[t] == '"',
        k == s.len() || s[k] != '"',
    ensures
        ltrim_quotes(s) == s.skip(k),
    decreases k,
{
    if k == 0 {
        assert(s.skip(0) =~= s);
    } else {
        assert(s.len() > 0 && s[0] == '"');
        let d = s.drop_first();
        assert(forall|t: int| 0 <= t < k - 1 ==> d[t] == s[t + 1]);
        lemma_ltrim_at(d, k - 1);
        assert(d.skip(k - 1) =~= s.skip(k));
    }
}

/// Quote trimming from the right reaches the last non-quote position.
proof fn lemma_rtrim_at(s: Seq<char>, k: int)
    requires
        0 <= k <= s.len(),
        forall|t: int| k <= t < s.len() ==> s[t] == '"',
        k == 0 || s[k - 1] != '"',
    ensures
        rtrim_quotes(s) == s.take(k),
    decreases s.len() - k,
{
    if k == s.len() {
        assert(s.take(k) =~= s);
    } else {
        assert(s.len() > 0 && s.last() == '"');
        let d = s.drop_last();
        assert(forall|t: int| 0 <= t < d.len() ==> d[t] == s[t]);
        lemma_rtrim_at(d, k);
        assert(d.take(k) =~= s.take(k));
    }
}

/// Remove quote characters from both ends of the text.
#[verifier::loop_isolation(false)]
pub fn trim_quotes_exec(s: &str) -> (r: String)
    ensures
        r@ == trim_quotes(s@),
{
    let n = s.unicode_len();
    let mut lo: usize = 0;
    while lo < n && s.get_char(lo) == '"'
        invariant
            0 <= lo <= n,
            forall|t: int| 0 <= t < lo ==> s@[t] == '"',
        decreases n - lo,
    {
        lo += 1;
    }
    proof {
        lemma_ltrim_at(s@, lo as int);
    }
    let mut hi: usize = n;
    while hi > lo && s.get_char(hi - 1) == '"'
        invariant
            lo <= hi <= n,
            forall|t: int| hi <= t < n ==> s@[t] == '"',
        decreases hi,
    {
        hi -= 1;
    }
    let sub = s.substring_char(lo, hi);
    proof {
        let trimmed = s@.skip(lo as int);
        assert forall|t: int| hi - lo <= t < trimmed.len() implies trimmed[t] == '"' by {
            assert(trimmed[t] == s@[t + lo]);
        }
        if hi > lo {
            assert(trimmed[hi - lo - 1] == s@[hi - 1]);
        }
        lemma_rtrim_at(trimmed, hi - lo);
        assert(sub@ =~= trimmed.take(hi - lo));
    }
    sub.to_owned()
}

/// The recorded name of a define line, if the line carries one.
pub fn define_name_exec(l: &str) -> (r: Option<String>)
    ensures
        match r {
            Some(n) => spec_define_name(l@) == Some(n@),
            None => spec_define_name(l@) is None,
        },
{
    let at_pat = "@";
    let paren_pat = "(";
    match find_sub(l, at_pat) {
        Some(a) => {
            proof {
                reveal_strlit("@");
                assert(at_pat@.len() == 1);
            }
            let n = l.unicode_len();
            let after = l.substring_char(a + 1, n);
            proof {
                assert(after@ =~= l@.skip(a + 1));
            }
            match find_sub(after, paren_pat) {
                Some(e) => {
                    let mangled_part = after.substring_char(0, e);
                    proof {
                        assert(mangled_part@ =~= after@.take(e as int));
                    }
                    let mangled = trim_quotes_exec(mangled_part);
                    let demangled = demangle_symbol(mangled.as_str());
                    let stripped = strip_hash(demangled.as_str());
                    Some(stripped)
                },
                None => None,
            }
        },
        None => None,
    }
}

/// Scan the lines of one IR file for function definitions.
#[verifier::loop_isolation(false)]
pub fn scan_ir_lines(lines: &Vec<String>) -> (defs: Vec<IrDef>)
    ensures
        defs_views(defs@) == spec_ir_scan(lines@.map_values(|l: String| l@)),
        forall|k: int| 0 <= k < defs@.len() ==> (#[trigger] defs@[k]).lines >= 1,
        forall|k: int| 0 <= k < defs@.len() ==> (#[trigger] defs@[k]).lines <= lines@.len() + 1,
{
    let ghost lviews = lines@.map_values(|l: String| l@);
    let mut defs: Vec<IrDef> = Vec::new();
    let mut cur: Option<String> = None;
    let mut count: u64 = 0;
    let mut i: usize = 0;
    let define_pat = "define ";
    let close_pat = "}";
    proof {
        assert(defs_views(defs@) =~= Seq::<(Seq<char>, int)>::empty());
    }
    while i < lines.len()
        invariant
            0 <= i <= lines@.len(),
            lviews == lines@.map_values(|l: String| l@),
            lviews.len() == lines@.len(),
            forall|t: int| 0 <= t < lines@.len() ==> lviews[t] == lines@[t]@,
            count <= i,
            (match cur {
                Some(n) => spec_ir_scan(lviews) =~= defs_views(defs@) + spec_scan_from(
                    lviews,
                    i as int,
                    Some(n@),
                    count as int,
                ),
                None => spec_ir_scan(lviews) =~= defs_views(defs@) + spec_scan_from(
                    lviews,
                    i as int,
                    None,
                    count as int,
                ),
            }),
            forall|k: int| 0 <= k < defs@.len() ==> (#[trigger] defs@[k]).lines >= 1,
            forall|k: int| 0 <= k < defs@.len() ==> (#[trigger] defs@[k]).lines <= lines@.len() + 1,
        decreases lines@.len() - i,
    {
        let l = &lines[i];
        let ln = l.unicode_len();
        proof {
            reveal_strlit("define ");
            reveal_strlit("}");
            assert(define_pat@.len() == 7);
            assert(close_pat@.len() == 1);
        }
        if match_at_exec(l.as_str(), define_pat, 0) {
            let parsed = define_name_exec(l.as_str());
            cur = match parsed {
                Some(n) => Some(n),
                None => None,
            };
            proof {
                assert(lviews[i as int] == lines@[i as int]@);
                assert(is_define_line(lviews[i as int]));
                if cur is Some {
                    assert(spec_define_name(lviews[i as int]) == Some((cur->0)@));
                } else {
                    assert(spec_define_name(lviews[i as int]) is None);
                }
            }
        } else if str_eq(l.as_str(), close_pat) {
            proof {
                assert(lviews[i as int] == lines@[i as int]@);
                assert(!is_define_line(lviews[i as int])) by {
                    assert(lviews[i as int].len() == 1);
                }
                assert(is_close_line(lviews[i as int]));
            }
            let recorded: Option<String> = match cur {
                Some(n) => Some(n),
                None => None,
            };
            cur = None;
            match recorded {
                Some(n) => {
                    let auto_pat = "autocfg_";
                    if !match_at_exec(n.as_str(), auto_pat, 0) {
                        let body = if count > 0 {
                            count
                        } else {
                            1
                        };
                        let ghost old_defs = defs@;
                        defs.push(IrDef { name: n, lines: body });
                        proof {
                            assert(defs_views(defs@) =~= defs_views(old_defs).push(
                                (defs@[defs@.len() - 1].name@, defs@[defs@.len() - 1].lines as int),
                            ));
                        }
                    }
                },
                None => {},
            }
            count = 0;
        } else {
            let two_spaces = ln >= 2 && l.get_char(0) == ' ' && l.get_char(1) == ' ' && !(ln >= 3
                && l.get_char(2) == ' ');
            proof {
                assert(lviews[i as int] == lines@[i as int]@);
                assert(!is_define_line(lviews[i as int]));
                assert(!is_close_line(lviews[i as int]));
                assert(two_spaces == is_body_line(lviews[i as int]));
            }
            if two_spaces {
                count = count + 1;
            }
        }
        i += 1;
    }
    proof {
        assert(spec_scan_from(lviews, lviews.len() as int, None, count as int) =~= Seq::<(
            Seq<char>,
            int,
        )>::empty());
        if cur is Some {
            assert(spec_scan_from(lviews, lviews.len() as int, Some((cur->0)@), count as int)
                =~= Seq::<(Seq<char>, int)>::empty());
        }
        assert(defs_views(defs@) + Seq::<(Seq<char>, int)>::empty() =~= defs_views(defs@));
    }
    defs
}

// ---------------------------------------------------------------------------
// Merging definitions across compilation units
// ---------------------------------------------------------------------------

/// The summed body lines of the definitions under one name.
pub open spec fn def_sum(ds: Seq<IrDef>, n: Seq<char>) -> int
    decreases ds.len(),
{
    if ds.len() == 0 {
        0
    } else {
        def_sum(ds.drop_last(), n) + if ds.last().name@ == n {
            ds.last().lines as int
        } else {
            0
        }
    }
}

/// How many definitions carry the name: the function's copy count.
pub open spec fn def_count(ds: Seq<IrDef>, n: Seq<char>) -> int
    decreases ds.len(),
{
    if ds.len() == 0 {
        0
    } else {
        def_count(ds.drop_last(), n) + if ds.last().name@ == n {
            1int
        } else {
            0
        }
    }
}

/// The summed body lines of all definitions.
pub open spec fn def_total(ds: Seq<IrDef>) -> int
    decreases ds.len(),
{
    if ds.len() == 0 {
        0
    } else {
        def_total(ds.drop_last()) + ds.last().lines
    }
}

/// A name occurs among the definitions.
pub open spec fn def_has(ds: Seq<IrDef>, n: Seq<char>) -> bool {
    exists|i: int| 0 <= i < ds.len() && ds[i].name@ == n
}

/// Some merged record carries the name.
pub open spec fn record_covers(recs: Seq<IrRecord>, n: Seq<char>) -> bool {
    exists|k: int| 0 <= k < recs.len() && (#[trigger] recs[k]).name@ == n
}

/// A per-name sum is at most the total, and both are non-negative.
proof fn lemma_def_sum_le_total(ds: Seq<IrDef>, n: Seq<char>)
    ensures
        0 <= def_sum(ds, n) <= def_total(ds),
    decreases ds.len(),
{
    if ds.len() > 0 {
        lemma_def_sum_le_total(ds.drop_last(), n);
    }
}

/// A prefix's total is at most the whole total.
proof fn lemma_def_total_take(ds: Seq<IrDef>, i: int)
    requires
        0 <= i <= ds.len(),
    ensures
        def_total(ds.take(i)) <= def_total(ds),
    decreases ds.len() - i,
{
    if i == ds.len() {
        assert(ds.take(i) =~= ds);
    } else {
        lemma_def_total_take(ds, i + 1);
        assert(ds.take(i + 1).drop_last() =~= ds.take(i));
        assert(ds.take(i + 1).last() == ds[i]);
    }
}

/// With at least one line per definition, the copy count never exceeds the
/// line sum, and an occurring name has at least one copy.
proof fn lemma_def_count_bounds(ds: Seq<IrDef>, n: Seq<char>)
    requires
        forall|i: int| 0 <= i < ds.len() ==> (#[trigger] ds[i]).lines >= 1,
    ensures
        0 <= def_count(ds, n) <= def_sum(ds, n),
        def_has(ds, n) ==> def_count(ds, n) >= 1,
    decreases ds.len(),
{
    if ds.len() > 0 {
        assert(forall|i: int| 0 <= i < ds.drop_last().len() ==> ds.drop_last()[i] == ds[i]);
        assert(ds.last() == ds[ds.len() - 1]);
        lemma_def_count_bounds(ds.drop_last(), n);
        if def_has(ds, n) && ds.last().name@ != n {
            let i = choose|i: int| 0 <= i < ds.len() && ds[i].name@ == n;
            assert(i < ds.len() - 1);
            assert(def_has(ds.drop_last(), n));
        }
    }
}

/// The line and copy sums of the definitions under one name.
#[verifier::loop_isolation(false)]
fn def_sums_for(ds: &Vec<IrDef>, n: &str) -> (totals: (u64, u64))
    requires
        def_total(ds@) <= MAX_QUANTITY,
        forall|i: int| 0 <= i < ds@.len() ==> (#[trigger] ds@[i]).lines >= 1,
    ensures
        totals.0 as int == def_sum(ds@, n@),
        totals.1 as int == def_count(ds@, n@),
{
    let mut lines: u64 = 0;
    let mut copies: u64 = 0;
    let mut i: usize = 0;
    proof {
        assert(ds@.take(0) =~= Seq::<IrDef>::empty());
    }
    while i < ds.len()
        invariant
            0 <= i <= ds@.len(),
            lines as int == def_sum(ds@.take(i as int), n@),
            copies as int == def_count(ds@.take(i as int), n@),
        decreases ds@.len() - i,
    {
        proof {
            assert(ds@.take(i + 1).drop_last() =~= ds@.take(i as int));
            assert(ds@.take(i + 1).last() == ds@[i as int]);
            assert(forall|t: int|
                0 <= t < i + 1 ==> (#[trigger] ds@.take(i + 1)[t]).lines >= 1);
            lemma_def_sum_le_total(ds@.take(i + 1), n@);
            lemma_def_total_take(ds@, i + 1);
            lemma_def_count_bounds(ds@.take(i + 1), n@);
        }
        if str_eq(ds[i].name.as_str(), n) {
            lines = lines + ds[i].lines;
            copies = copies + 1;
        }
        i += 1;
    }
    proof {
        assert(ds@.take(ds@.len() as int) =~= ds@);
    }
    (lines, copies)
}

/// A name occurs among the first `upto` definitions.
#[verifier::loop_isolation(false)]
fn def_name_seen(ds: &Vec<IrDef>, upto: usize, n: &str) -> (r: bool)
    requires
        upto <= ds@.len(),
    ensures
        r == def_has(ds@.take(upto as int), n@),
{
    let mut i: usize = 0;
    while i < upto
        invariant
            0 <= i <= upto,
            forall|j: int| 0 <= j < i ==> (#[trigger] ds@[j]).name@ != n@,
        decreases upto - i,
    {
        if str_eq(ds[i].name.as_str(), n) {
            proof {
                assert(ds@.take(upto as int)[i as int].name@ == n@);
            }
            return true;
        }
        i += 1;
    }
    proof {
        assert forall|j: int|
            0 <= j < ds@.take(upto as int).len() implies (#[trigger] ds@.take(upto as int)[
        j]).name@ != n@ by {
            assert(ds@.take(upto as int)[j] == ds@[j]);
        }
    }
    false
}

/// Merge scanned definitions across files: the same name's lines are summed
/// and every occurrence counts one copy. Fails with a format error exactly
/// when the line total exceeds the model's bound.
#[verifier::loop_isolation(false)]
pub fn merge_ir_defs(ds: &Vec<IrDef>) -> (r: Result<Vec<IrRecord>, AnalysisError>)
    requires
        forall|i: int| 0 <= i < ds@.len() ==> (#[trigger] ds@[i]).lines >= 1,
    ensures
        match r {
            Ok(out) => {
                &&& def_total(ds@) <= MAX_QUANTITY
                &&& forall|k: int, l: int|
                    0 <= k < l < out@.len() ==> out@[k].name@ != out@[l].name@
                &&& forall|k: int|
                    0 <= k < out@.len() ==> {
                        let rec = #[trigger] out@[k];
                        def_has(ds@, rec.name@) && rec.line_count as int == def_sum(
                            ds@,
                            rec.name@,
                        ) && rec.copy_count as int == def_count(ds@, rec.name@) && 0
                            < rec.copy_count <= rec.line_count <= MAX_QUANTITY
                    }
                &&& forall|i: int|
                    0 <= i < ds@.len() ==> record_covers(out@, (#[trigger] ds@[i]).name@)
            },
            Err(e) => (e is FormatError) && def_total(ds@) > MAX_QUANTITY,
        },
{
    let mut total_acc: u128 = 0;
    let mut i: usize = 0;
    proof {
        assert(ds@.take(0) =~= Seq::<IrDef>::empty());
    }
    while i < ds.len()
        invariant
            0 <= i <= ds@.len(),
            total_acc as int == def_total(ds@.take(i as int)),
            total_acc <= (i as u128) * 0xffff_ffff_ffff_ffffu128,
        decreases ds@.len() - i,
    {
        proof {
            assert(ds@.take(i + 1).drop_last() =~= ds@.take(i as int));
            assert(ds@.take(i + 1).last() == ds@[i as int]);
            assert((i as u128 + 1) * 0xffff_ffff_ffff_ffffu128 == (i as u128)
                * 0xffff_ffff_ffff_ffffu128 + 0xffff_ffff_ffff_ffffu128) by (nonlinear_arith);
        }
        total_acc = total_acc + (ds[i].lines as u128);
        i += 1;
    }
    proof {
        assert(ds@.take(ds@.len() as int) =~= ds@);
    }
    if total_acc > (MAX_QUANTITY as u128) {
        return Result::Err(
            AnalysisError::FormatError {
                detail: "IR line totals exceed the supported range".to_owned(),
            },
        );
    }
    let mut out: Vec<IrRecord> = Vec::new();
    let mut k: usize = 0;
    while k < ds.len()
        invariant
            0 <= k <= ds@.len(),
            def_total(ds@) <= MAX_QUANTITY,
            forall|x: int, y: int| 0 <= x < y < out@.len() ==> out@[x].name@ != out@[y].name@,
            forall|x: int|
                0 <= x < out@.len() ==> def_has(ds@.take(k as int), (#[trigger] out@[x]).name@),
            forall|x: int|
                0 <= x < out@.len() ==> {
                    let rec = #[trigger] out@[x];
                    def_has(ds@, rec.name@) && rec.line_count as int == def_sum(ds@, rec.name@)
                        && rec.copy_count as int == def_count(ds@, rec.name@) && 0 < rec.copy_count
                        <= rec.line_count <= MAX_QUANTITY
                },
            forall|j: int| 0 <= j < k ==> record_covers(out@, (#[trigger] ds@[j]).name@),
        decreases ds@.len() - k,
    {
        let n = ds[k].name.clone();
        if !def_name_seen(ds, k, n.as_str()) {
            proof {
                lemma_def_sum_le_total(ds@, n@);
                lemma_def_count_bounds(ds@, n@);
                assert(def_has(ds@, n@)) by {
                    assert(ds@[k as int].name@ == n@);
                }
            }
            let sums = def_sums_for(ds, n.as_str());
            let ghost old_out = out@;
            out.push(IrRecord { name: n, line_count: sums.0, copy_count: sums.1 });
            proof {
                assert(forall|x: int| 0 <= x < old_out.len() ==> out@[x] == old_out[x]);
                assert(out@[out@.len() - 1].name@ == ds@[k as int].name@);
                assert(ds@.take(k + 1)[k as int] == ds@[k as int]);
                assert forall|x: int| 0 <= x < out@.len() implies def_has(
                    ds@.take(k + 1),
                    (#[trigger] out@[x]).name@,
                ) by {
                    if x < out@.len() - 1 {
                        let j = choose|j: int|
                            0 <= j < ds@.take(k as int).len() && ds@.take(k as int)[j].name@
                                == out@[x].name@;
                        assert(ds@.take(k as int)[j] == ds@[j]);
                        assert(ds@.take(k + 1)[j] == ds@[j]);
                    }
                }
                assert forall|j: int| 0 <= j < k + 1 implies record_covers(
                    out@,
                    (#[trigger] ds@[j]).name@,
                ) by {
                    if j < k {
                        assert(record_covers(old_out, ds@[j].name@));
                        let x = choose|x: int|
                            0 <= x < old_out.len() && (#[trigger] old_out[x]).name@ == ds@[j].name@;
                        assert(out@[x].name@ == ds@[j].name@);
                    } else {
                        assert(out@[out@.len() - 1].name@ == ds@[j].name@);
                    }
                }
            }
        } else {
            proof {
                let j = choose|j: int|
                    0 <= j < ds@.take(k as int).len() && ds@.take(k as int)[j].name@ == ds@[
                    k as int].name@;
                assert(ds@.take(k as int)[j] == ds@[j]);
                assert(record_covers(out@, ds@[j].name@));
                assert(record_covers(out@, ds@[k as int].name@));
                assert forall|x: int| 0 <= x < out@.len() implies def_has(
                    ds@.take(k + 1),
                    (#[trigger] out@[x]).name@,
                ) by {
                    let w = choose|w: int|
                        0 <= w < ds@.take(k as int).len() && ds@.take(k as int)[w].name@ == out@[
                        x].name@;
                    assert(ds@.take(k as int)[w] == ds@[w]);
                    assert(ds@.take(k + 1)[w] == ds@[w]);
                }
            }
        }
        k += 1;
    }
    Result::Ok(out)
}

// ---------------------------------------------------------------------------
// Dropping the configuration probes
// ---------------------------------------------------------------------------

/// Two records with the same fields.
pub open spec fn rec_fields_eq(a: IrRecord, b: IrRecord) -> bool {
    a.name@ == b.name@ && a.line_count == b.line_count && a.copy_count == b.copy_count
}

/// The records that are not configuration-probing helpers, in order.
pub open spec fn kept_records(irs: Seq<IrRecord>) -> Seq<IrRecord>
    decreases irs.len(),
{
    if irs.len() == 0 {
        Seq::empty()
    } else if spec_is_autocfg(irs.last().name@) {
        kept_records(irs.drop_last())
    } else {
        kept_records(irs.drop_last()).push(irs.last())
    }
}

/// What the filter keeps: only non-probe records, all of them, names still
/// distinct when the input's were, bounds preserved.
pub proof fn lemma_kept_records_props(irs: Seq<IrRecord>)
    requires
        forall|k: int, l: int| 0 <= k < l < irs.len() ==> irs[k].name@ != irs[l].name@,
    ensures
        forall|x: int|
            0 <= x < kept_records(irs).len() ==> !spec_is_autocfg(
                (#[trigger] kept_records(irs)[x]).name@,
            ),
        forall|x: int|
            0 <= x < kept_records(irs).len() ==> exists|k: int|
                0 <= k < irs.len() && irs[k] == #[trigger] kept_records(irs)[x],
        forall|x: int, y: int|
            0 <= x < y < kept_records(irs).len() ==> kept_records(irs)[x].name@ != kept_records(
                irs,
            )[y].name@,
        forall|k: int|
            0 <= k < irs.len() && !spec_is_autocfg((#[trigger] irs[k]).name@) ==> exists|x: int|
                0 <= x < kept_records(irs).len() && kept_records(irs)[x] == irs[k],
    decreases irs.len(),
{
    if irs.len() > 0 {
        let dl = irs.drop_last();
        assert(forall|k: int| 0 <= k < dl.len() ==> dl[k] == irs[k]);
        lemma_kept_records_props(dl);
        let f = kept_records(irs);
        let fd = kept_records(dl);
        if spec_is_autocfg(irs.last().name@) {
            assert(f =~= fd);
            assert forall|k: int|
                0 <= k < irs.len() && !spec_is_autocfg((#[trigger] irs[k]).name@) implies exists|
                x: int,
            | 0 <= x < f.len() && f[x] == irs[k] by {
                assert(k < irs.len() - 1);
                let x = choose|x: int| 0 <= x < fd.len() && fd[x] == dl[k];
                assert(f[x] == irs[k]);
            }
            assert forall|x: int| 0 <= x < f.len() implies exists|k: int|
                0 <= k < irs.len() && irs[k] == #[trigger] f[x] by {
                let k = choose|k: int| 0 <= k < dl.len() && dl[k] == fd[x];
                assert(irs[k] == f[x]);
            }
        } else {
            assert(f =~= fd.push(irs.last()));
            assert forall|x: int, y: int| 0 <= x < y < f.len() implies f[x].name@
                != f[y].name@ by {
                if y == f.len() - 1 {
                    let k = choose|k: int| 0 <= k < dl.len() && dl[k] == f[x];
                    assert(irs[k].name@ != irs[irs.len() - 1].name@);
                }
            }
            assert forall|k: int|
                0 <= k < irs.len() && !spec_is_autocfg((#[trigger] irs[k]).name@) implies exists|
                x: int,
            | 0 <= x < f.len() && f[x] == irs[k] by {
                if k == irs.len() - 1 {
                    assert(f[f.len() - 1] == irs[k]);
                } else {
                    let x = choose|x: int| 0 <= x < fd.len() && fd[x] == dl[k];
                    assert(f[x] == irs[k]);
                }
            }
            assert forall|x: int| 0 <= x < f.len() implies exists|k: int|
                0 <= k < irs.len() && irs[k] == #[trigger] f[x] by {
                if x < f.len() - 1 {
                    let k = choose|k: int| 0 <= k < dl.len() && dl[k] == fd[x];
                    assert(irs[k] == f[x]);
                } else {
                    assert(irs[irs.len() - 1] == f[x]);
                }
            }
        }
    }
}

/// Drop the configuration-probing helper records: a name opening with the
/// probe prefix marks a build-time artifact, not application code. The
/// result is exactly the other records, in order.
#[verifier::loop_isolation(false)]
pub fn drop_probe_records(records: &Vec<IrRecord>) -> (kept: Vec<IrRecord>)
    ensures
        kept@.len() == kept_records(records@).len(),
        forall|x: int|
            0 <= x < kept@.len() ==> rec_fields_eq(
                #[trigger] kept@[x],
                kept_records(records@)[x],
            ),
{
    let mut kept: Vec<IrRecord> = Vec::new();
    let mut i: usize = 0;
    let auto_pat = "autocfg_";
    proof {
        assert(kept_records(records@.take(0)) =~= Seq::<IrRecord>::empty());
    }
    while i < records.len()
        invariant
            0 <= i <= records@.len(),
            kept@.len() == kept_records(records@.take(i as int)).len(),
            forall|x: int|
                0 <= x < kept@.len() ==> rec_fields_eq(
                    #[trigger] kept@[x],
                    kept_records(records@.take(i as int))[x],
                ),
        decreases records@.len() - i,
    {
        proof {
            assert(records@.take(i + 1).drop_last() =~= records@.take(i as int));
            assert(records@.take(i + 1).last() == records@[i as int]);
        }
        if !match_at_exec(records[i].name.as_str(), auto_pat, 0) {
            kept.push(
                IrRecord {
                    name: records[i].name.clone(),
                    line_count: records[i].line_count,
                    copy_count: records[i].copy_count,
                },
            );
            proof {
                assert(rec_fields_eq(kept@[kept@.len() - 1], records@[i as int]));
            }
        }
        i += 1;
    }
    proof {
        assert(records@.take(records@.len() as int) =~= records@);
    }
    kept
}

} // verus!
