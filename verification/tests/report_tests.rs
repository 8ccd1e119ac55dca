use limpid::assemble::assemble_context;
use limpid::assemble::IrRecord;
use limpid::assemble::RawSymbol;
use limpid::model::BuildContext;
use limpid::report::generate_reports;

fn raw(mangled: &str, address: u64, size: u64) -> RawSymbol {
    RawSymbol { mangled: mangled.to_string(), address, size }
}

fn ir(name: &str, lines: u64, copies: u64) -> IrRecord {
    IrRecord { name: name.to_string(), line_count: lines, copy_count: copies }
}

fn build(
    symbols: Vec<RawSymbol>,
    irs: Vec<IrRecord>,
    text_size: u64,
    wall: u64,
    deps: &[&str],
) -> BuildContext {
    assemble_context(
        &symbols,
        &irs,
        text_size,
        symbols.iter().map(|s| s.mangled.clone()).collect(),
        deps.iter().map(|d| d.to_string()).collect(),
        wall,
        "x86_64-unknown-linux-gnu".to_string(),
    )
    .ok()
    .expect("assembly should succeed")
}

#[test]
fn the_markdown_report_lists_the_changed_crates() {
    let baseline = build(vec![raw("foo::a", 1, 100)], vec![], 100, 1000, &["foo"]);
    let current = build(
        vec![raw("foo::a", 1, 100), raw("foo::b", 2, 2048)],
        vec![],
        2148,
        3500,
        &["foo"],
    );
    let (_d, outputs) = generate_reports(&baseline, &current);
    let md = &outputs.markdown;
    assert!(md.starts_with("# 📦 limpid report\n\n"));
    assert!(md.contains("Number of crates: 1 (➖ no change)  \n"));
    assert!(md.contains("| Crate | Baseline Size | Current Size | Change |\n"));
    assert!(md.contains("| `foo` | 100 B | 2.1 KB | 📈 +2.0 KB |\n"));
    assert!(md.contains("_All significant changes are listed above._"));
    assert!(md.contains("| `foo::b`<br> found in **foo** | — | 2.0 KB | 🆕 NEW |\n"));
    assert!(md.contains("2 symbols (📈 +1), totaling 2.1 KB (📈 +2.0 KB)  \n"));
    assert!(md.contains("Number of LLVM lines: 0 (➖ no change)  \n"));
    assert!(md.contains("Wall duration: 3.50 s (📈 +2.50 s)  \n"));
}

#[test]
fn the_terminal_report_paints_its_figures() {
    let baseline = build(vec![raw("foo::a", 1, 100)], vec![ir("foo::g", 10, 1)], 100, 1000, &["foo"]);
    let current = build(vec![raw("foo::a", 1, 80)], vec![ir("foo::g", 9, 1)], 80, 1000, &["foo"]);
    let (_d, outputs) = generate_reports(&baseline, &current);
    let tx = &outputs.text;
    assert!(tx.starts_with("\u{1b}[94mlimpid report\n\u{1b}[39m"));
    assert!(tx.contains("Number of crates: \u{1b}[34m1\u{1b}[39m"));
    assert!(tx.contains(", totaling \u{1b}[36m80 B\u{1b}[39m"));
    assert!(tx.contains("\u{1b}[31m (📉 -20 B)\u{1b}[39m"));
    assert!(tx.contains("Number of LLVM lines: \u{1b}[34m9\u{1b}[39m"));
    assert!(tx.contains("\u{1b}[31m (📉 -1)\u{1b}[39m"));
    assert!(tx.contains("Wall duration: \u{1b}[35m1.00 s\u{1b}[39m"));
    assert!(tx.contains("\u{1b}[2m (➖ no change)\u{1b}[0m"));
}

#[test]
fn a_report_of_identical_builds_says_no_change_everywhere() {
    let b1 = build(vec![raw("foo::a", 1, 100)], vec![], 100, 500, &["foo"]);
    let b2 = build(vec![raw("foo::a", 1, 100)], vec![], 100, 500, &["foo"]);
    let (d, outputs) = generate_reports(&b1, &b2);
    assert!(d.crate_deltas.is_empty());
    assert!(!outputs.markdown.contains("| Crate |"));
    assert!(!outputs.markdown.contains("| Symbol |"));
    assert!(!outputs.markdown.contains("| Function |"));
    assert!(outputs.markdown.contains("Number of crates: 1 (➖ no change)"));
}

#[test]
fn the_summary_row_sums_what_lies_beyond_the_top_entries() {
    // twelve crates change: ten are listed, two are summed in the closing row
    let mut base_syms = Vec::new();
    let mut cur_syms = Vec::new();
    for i in 0..12u64 {
        let name = format!("crate{:02}::f", i);
        base_syms.push(raw(&name, i + 1, 1000));
        // each crate grows by a distinct amount so the order is fixed
        cur_syms.push(raw(&name, i + 1, 1000 + 100 * (12 - i)));
    }
    let deps: Vec<String> = (0..12u64).map(|i| format!("crate{:02}", i)).collect();
    let dep_refs: Vec<&str> = deps.iter().map(|s| s.as_str()).collect();
    let baseline = build(base_syms, vec![], 12000, 0, &dep_refs);
    let current = build(cur_syms, vec![], 20400, 0, &dep_refs);
    let (d, outputs) = generate_reports(&baseline, &current);
    assert_eq!(d.crate_deltas.len(), 12);
    // the two smallest changes (crate10: +200, crate11: +100) fall beyond the top ten
    assert!(outputs.markdown.contains(
        "*2 additional crates account for **2.0 KB** → **2.2 KB** (📈 +300 B)*"
    ));
}
