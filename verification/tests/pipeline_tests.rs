use limpid::aggregate::all_ir_functions;
use limpid::aggregate::all_symbols;
use limpid::assemble::assemble_context;
use limpid::assemble::AnalysisError;
use limpid::assemble::IrRecord;
use limpid::assemble::RawSymbol;
use limpid::diff::diff_contexts;
use limpid::model::BuildContext;
use limpid::model::Crate;
use limpid::model::Symbol;

fn raw(mangled: &str, address: u64, size: u64) -> RawSymbol {
    RawSymbol { mangled: mangled.to_string(), address, size }
}

fn ir(name: &str, lines: u64, copies: u64) -> IrRecord {
    IrRecord { name: name.to_string(), line_count: lines, copy_count: copies }
}

fn strings(names: &[&str]) -> Vec<String> {
    names.iter().map(|n| n.to_string()).collect()
}

fn build(
    symbols: Vec<RawSymbol>,
    irs: Vec<IrRecord>,
    text_size: u64,
    deps: &[&str],
    wall_millis: u64,
) -> BuildContext {
    assemble_context(
        &symbols,
        &irs,
        text_size,
        Vec::new(),
        strings(deps),
        wall_millis,
        "x86_64-unknown-linux-gnu".to_string(),
    )
    .ok()
    .expect("assembly should succeed")
}

#[test]
fn symbols_merge_by_mangled_name() {
    // two emissions of the same symbol merge by summing sizes
    let b = build(
        vec![raw("foo::a", 0x1000, 60), raw("foo::a", 0x2000, 40), raw("foo::b", 0x3000, 10)],
        vec![],
        110,
        &["foo"],
        1000,
    );
    assert_eq!(b.crates.len(), 1);
    assert_eq!(b.crates[0].name, "foo");
    assert_eq!(b.crates[0].symbols.len(), 2);
    let a = b.crates[0].symbols.iter().find(|s| s.mangled_name == "foo::a").unwrap();
    assert_eq!(a.size, 100);
}

#[test]
fn crates_sort_by_size_descending_then_name() {
    let b = build(
        vec![raw("small::x", 1, 10), raw("big::y", 2, 100), raw("apple::z", 3, 10)],
        vec![],
        200,
        &["small", "big", "apple"],
        0,
    );
    let names: Vec<&str> = b.crates.iter().map(|c| c.name.as_str()).collect();
    assert_eq!(names, vec!["big", "apple", "small"]);
}

#[test]
fn an_oversized_symbol_table_is_a_format_error() {
    let r = assemble_context(
        &vec![raw("foo::a", 0, 100)],
        &vec![],
        99,
        Vec::new(),
        strings(&["foo"]),
        0,
        "t".to_string(),
    );
    assert!(matches!(r, Err(AnalysisError::FormatError { .. })));
}

#[test]
fn text_size_covers_the_symbols() {
    let b = build(vec![raw("foo::a", 0, 70), raw("bar::b", 1, 20)], vec![], 100, &["foo", "bar"], 0);
    let total: u64 = b.crates.iter().flat_map(|c| c.symbols.iter()).map(|s| s.size).sum();
    assert!(total <= b.text_size);
    assert_eq!(total, 90);
}

#[test]
fn ir_functions_attribute_and_keep_their_counts() {
    let b = build(
        vec![raw("foo::a", 0, 10)],
        vec![ir("foo::generic", 30, 3), ir("core::ptr::drop_in_place", 7, 1)],
        10,
        &["foo"],
        0,
    );
    let foo = b.crates.iter().find(|c| c.name == "foo").unwrap();
    let f = foo.ir_functions.iter().find(|f| f.name == "foo::generic").unwrap();
    assert_eq!(f.line_count, 30);
    assert_eq!(f.copy_count, 3);
    let core = b.crates.iter().find(|c| c.name == "core").unwrap();
    assert!(core.is_std);
    assert_eq!(core.ir_functions.len(), 1);
    // every IR function was emitted at least once with at least a line per copy
    for c in &b.crates {
        for f in &c.ir_functions {
            assert!(f.copy_count > 0);
            assert!(f.line_count >= f.copy_count);
        }
    }
}

#[test]
fn aggregate_views_have_no_duplicate_names() {
    // the same stripped name in two crates merges into one aggregate entry
    let baseline = BuildContext {
        crates: vec![
            Crate {
                name: "alpha".to_string(),
                is_std: false,
                symbols: vec![sym("m1", "X::method", "alpha", 120)],
                ir_functions: vec![],
            },
            Crate {
                name: "beta".to_string(),
                is_std: false,
                symbols: vec![sym("m2", "X::method", "beta", 80)],
                ir_functions: vec![],
            },
        ],
        text_size: 200,
        deps_symbols: vec![],
        dep_crates: strings(&["alpha", "beta"]),
        wall_millis: 0,
        target_triple: "t".to_string(),
    };
    let aggs = all_symbols(&baseline);
    assert_eq!(aggs.len(), 1);
    assert_eq!(aggs[0].name, "X::method");
    assert_eq!(aggs[0].total_size, 200);
    let mut crates = aggs[0].crates.clone();
    crates.sort();
    assert_eq!(crates, strings(&["alpha", "beta"]));
}

fn sym(mangled: &str, demangled: &str, crate_name: &str, size: u64) -> Symbol {
    Symbol {
        mangled_name: mangled.to_string(),
        demangled_name: demangled.to_string(),
        stripped_name: demangled.to_string(),
        address: 0,
        size,
        crate_name: crate_name.to_string(),
        is_std: false,
    }
}

#[test]
fn every_symbol_attributes_to_its_crate() {
    let deps = strings(&["foo", "bar"]);
    let b = build(
        vec![raw("foo::a", 1, 10), raw("bar::b", 2, 10), raw("core::c", 3, 10), raw("who::d", 4, 10)],
        vec![],
        40,
        &["foo", "bar"],
        0,
    );
    for c in &b.crates {
        for s in &c.symbols {
            let (name, _std) = limpid::attribute::attribute_demangled(&s.demangled_name, &deps);
            assert_eq!(name, c.name);
            assert_eq!(s.crate_name, c.name);
        }
    }
    // the unattributable symbol landed in the shared bucket
    assert!(b.crates.iter().any(|c| c.name == "[unknown]"));
    let core = b.crates.iter().find(|c| c.name == "core").unwrap();
    assert!(core.is_std);
}

#[test]
fn pure_growth_of_one_crate() {
    // baseline: foo with foo::a of 100 B; current adds foo::b of 40 B
    let baseline = build(vec![raw("foo::a", 0x1000, 100)], vec![], 100, &["foo"], 0);
    let current = build(
        vec![raw("foo::a", 0x1000, 100), raw("foo::b", 0x2000, 40)],
        vec![],
        140,
        &["foo"],
        0,
    );
    let d = diff_contexts(&baseline, &current);
    assert_eq!(d.crate_deltas.len(), 1);
    assert_eq!(d.crate_deltas[0].name, "foo");
    assert_eq!(d.crate_deltas[0].before, Some(100));
    assert_eq!(d.crate_deltas[0].after, Some(140));
    assert_eq!(d.crate_deltas[0].diff, 40);
    // the unchanged symbol is elided; only the new one appears
    assert_eq!(d.symbol_deltas.len(), 1);
    assert_eq!(d.symbol_deltas[0].name, "foo::b");
    assert!(d.symbol_deltas[0].before.is_none());
    assert_eq!(d.symbol_deltas[0].diff, 40);
    assert_eq!(d.totals.text_size_delta, 40);
}

#[test]
fn a_removed_crate_appears_with_its_full_size() {
    let baseline = build(
        vec![raw("foo::a", 1, 100), raw("bar::b", 2, 50)],
        vec![],
        150,
        &["foo", "bar"],
        0,
    );
    let current = build(vec![raw("foo::a", 1, 100)], vec![], 100, &["foo", "bar"], 0);
    let d = diff_contexts(&baseline, &current);
    assert_eq!(d.crate_deltas.len(), 1);
    assert_eq!(d.crate_deltas[0].name, "bar");
    assert_eq!(d.crate_deltas[0].before, Some(50));
    assert_eq!(d.crate_deltas[0].after, None);
    assert_eq!(d.crate_deltas[0].diff, -50);
    assert_eq!(d.totals.crate_count_delta, -1);
}

#[test]
fn a_symbol_migrating_between_crates_is_elided_from_the_aggregate_view() {
    let alpha = Crate {
        name: "alpha".to_string(),
        is_std: false,
        symbols: vec![sym("m", "X::method", "alpha", 200)],
        ir_functions: vec![],
    };
    let beta = Crate {
        name: "beta".to_string(),
        is_std: false,
        symbols: vec![sym("m", "X::method", "beta", 200)],
        ir_functions: vec![],
    };
    let baseline = BuildContext {
        crates: vec![alpha],
        text_size: 200,
        deps_symbols: vec![],
        dep_crates: strings(&["alpha", "beta"]),
        wall_millis: 0,
        target_triple: "t".to_string(),
    };
    let current = BuildContext {
        crates: vec![beta],
        text_size: 200,
        deps_symbols: vec![],
        dep_crates: strings(&["alpha", "beta"]),
        wall_millis: 0,
        target_triple: "t".to_string(),
    };
    let d = diff_contexts(&baseline, &current);
    // same aggregate total: the symbol list omits it
    assert!(d.symbol_deltas.is_empty());
    // the crate list shows the migration
    assert_eq!(d.crate_deltas.len(), 2);
    let alpha_delta = d.crate_deltas.iter().find(|e| e.name == "alpha").unwrap();
    let beta_delta = d.crate_deltas.iter().find(|e| e.name == "beta").unwrap();
    assert_eq!(alpha_delta.diff, -200);
    assert_eq!(beta_delta.diff, 200);
    assert_eq!(d.totals.text_size_delta, 0);
}

#[test]
fn an_ir_only_change_leaves_the_symbol_lists_empty() {
    let baseline = build(
        vec![raw("foo::a", 1, 100)],
        vec![ir("foo::generic", 100, 1)],
        100,
        &["foo"],
        0,
    );
    let current = build(
        vec![raw("foo::a", 1, 100)],
        vec![ir("foo::generic", 400, 2)],
        100,
        &["foo"],
        0,
    );
    let d = diff_contexts(&baseline, &current);
    assert!(d.symbol_deltas.is_empty());
    assert!(d.crate_deltas.is_empty());
    assert_eq!(d.ir_function_deltas.len(), 1);
    assert_eq!(d.ir_function_deltas[0].diff, 300);
    assert_eq!(d.totals.text_size_delta, 0);
    assert_eq!(d.totals.ir_line_count_delta, 300);
}

#[test]
fn comparing_a_build_with_itself_yields_an_empty_diff() {
    let b = build(
        vec![raw("foo::a", 1, 100), raw("bar::b", 2, 50)],
        vec![ir("foo::generic", 10, 2)],
        200,
        &["foo", "bar"],
        1234,
    );
    let d = diff_contexts(&b, &b);
    assert!(d.crate_deltas.is_empty());
    assert!(d.symbol_deltas.is_empty());
    assert!(d.ir_function_deltas.is_empty());
    assert_eq!(d.totals.crate_count_delta, 0);
    assert_eq!(d.totals.symbol_count_delta, 0);
    assert_eq!(d.totals.text_size_delta, 0);
    assert_eq!(d.totals.ir_line_count_delta, 0);
    assert_eq!(d.totals.wall_millis_delta, 0);
}

#[test]
fn swapping_the_builds_negates_every_total() {
    let a = build(vec![raw("foo::a", 1, 100)], vec![ir("foo::g", 10, 1)], 120, &["foo"], 500);
    let b = build(
        vec![raw("foo::a", 1, 130), raw("bar::b", 2, 20)],
        vec![ir("foo::g", 25, 2)],
        170,
        &["foo", "bar"],
        900,
    );
    let d1 = diff_contexts(&a, &b);
    let d2 = diff_contexts(&b, &a);
    assert_eq!(d1.totals.crate_count_delta, -d2.totals.crate_count_delta);
    assert_eq!(d1.totals.symbol_count_delta, -d2.totals.symbol_count_delta);
    assert_eq!(d1.totals.text_size_delta, -d2.totals.text_size_delta);
    assert_eq!(d1.totals.ir_line_count_delta, -d2.totals.ir_line_count_delta);
    assert_eq!(d1.totals.wall_millis_delta, -d2.totals.wall_millis_delta);
}

#[test]
fn delta_lists_are_sorted_by_magnitude_then_name_and_hold_no_zeros() {
    let a = build(
        vec![raw("foo::a", 1, 100), raw("bar::b", 2, 50), raw("baz::c", 3, 30), raw("same::d", 4, 5)],
        vec![],
        185,
        &["foo", "bar", "baz", "same"],
        0,
    );
    let b = build(
        vec![raw("foo::a", 1, 90), raw("bar::b", 2, 60), raw("baz::c", 3, 20), raw("same::d", 4, 5)],
        vec![],
        175,
        &["foo", "bar", "baz", "same"],
        0,
    );
    let d = diff_contexts(&a, &b);
    // foo: -10, bar: +10, baz: -10, same: elided
    assert_eq!(d.crate_deltas.len(), 3);
    for e in &d.crate_deltas {
        assert!(e.diff != 0);
    }
    for w in d.crate_deltas.windows(2) {
        let first = w[0].diff.unsigned_abs();
        let second = w[1].diff.unsigned_abs();
        assert!(first > second || (first == second && w[0].name <= w[1].name));
    }
    // ties of magnitude ten resolve alphabetically
    let names: Vec<&str> = d.crate_deltas.iter().map(|e| e.name.as_str()).collect();
    assert_eq!(names, vec!["bar", "baz", "foo"]);
}

#[test]
fn identical_inputs_give_identical_diffs() {
    let mk = || {
        build(
            vec![raw("foo::a", 1, 100), raw("bar::b", 2, 50)],
            vec![ir("foo::g", 12, 3)],
            160,
            &["foo", "bar"],
            77,
        )
    };
    let a1 = mk();
    let a2 = mk();
    let b = build(vec![raw("foo::a", 1, 140)], vec![], 140, &["foo", "bar"], 80);
    let d1 = diff_contexts(&a1, &b);
    let d2 = diff_contexts(&a2, &b);
    assert_eq!(d1.crate_deltas.len(), d2.crate_deltas.len());
    for (x, y) in d1.crate_deltas.iter().zip(d2.crate_deltas.iter()) {
        assert_eq!(x.name, y.name);
        assert_eq!(x.diff, y.diff);
        assert_eq!(x.before, y.before);
        assert_eq!(x.after, y.after);
    }
    assert_eq!(d1.totals.text_size_delta, d2.totals.text_size_delta);
}

#[test]
fn ir_aggregation_merges_across_crates() {
    let b = build(
        vec![raw("foo::a", 1, 10), raw("core::x", 2, 10)],
        vec![ir("foo::shared", 10, 1), ir("core::other", 5, 1)],
        20,
        &["foo"],
        0,
    );
    let aggs = all_ir_functions(&b);
    assert_eq!(aggs.len(), 2);
    let shared = aggs.iter().find(|a| a.name == "foo::shared").unwrap();
    assert_eq!(shared.total_lines, 10);
    assert_eq!(shared.total_copies, 1);
}
