use limpid::assemble::IrRecord;
use limpid::binary::resolve_symbols;
use limpid::binary::SymbolSlot;
use limpid::irscan::define_name_exec;
use limpid::irscan::drop_probe_records;
use limpid::irscan::merge_ir_defs;
use limpid::irscan::scan_ir_lines;
use limpid::irscan::trim_quotes_exec;
use limpid::irscan::IrDef;

fn lines(text: &str) -> Vec<String> {
    text.lines().map(|l| l.to_string()).collect()
}

const SAMPLE_IR: &str = "; ModuleID = 'test'
source_filename = \"test\"

define internal void @\"_ZN4core3ptr42drop_in_place$LT$substance..BloatError$GT$17h70910838441ee278E\"(ptr align 8 %_1) unnamed_addr #0 !dbg !123 {
start:
  %a = alloca [8 x i8], align 8
  %b = alloca [8 x i8], align 8
  call void @some_function()
  ret void
}

define internal void @\"_ZN42_$LT$$RF$T$u20$as$u20$core..fmt..Debug$GT$3fmt17haddeafc23f955172E\"(ptr %self) unnamed_addr #0 !dbg !456 {
start:
  %temp = alloca [16 x i8], align 8
  call void @another_function()
  call void @yet_another_function()
  ret void
}

define internal void @\"_ZN42_$LT$$RF$T$u20$as$u20$core..fmt..Debug$GT$3fmt17haddeafc23f955172E\"(ptr %self) unnamed_addr #0 !dbg !789 {
start:
  %duplicate = alloca [8 x i8], align 8
  ret void
}
";

#[test]
fn the_scanner_demangles_and_counts_body_lines() {
    let defs = scan_ir_lines(&lines(SAMPLE_IR));
    assert_eq!(defs.len(), 3);
    assert_eq!(defs[0].name, "core::ptr::drop_in_place<substance::BloatError>");
    assert_eq!(defs[0].lines, 4);
    assert_eq!(defs[1].name, "<&T as core::fmt::Debug>::fmt");
    assert_eq!(defs[1].lines, 4);
    assert_eq!(defs[2].name, "<&T as core::fmt::Debug>::fmt");
    assert_eq!(defs[2].lines, 2);
}

#[test]
fn merging_sums_lines_and_counts_copies() {
    let defs = scan_ir_lines(&lines(SAMPLE_IR));
    let records = merge_ir_defs(&defs).ok().expect("merge should succeed");
    assert_eq!(records.len(), 2);
    let drop_fn = records
        .iter()
        .find(|r| r.name == "core::ptr::drop_in_place<substance::BloatError>")
        .unwrap();
    assert_eq!(drop_fn.copy_count, 1);
    assert_eq!(drop_fn.line_count, 4);
    let debug_fn = records.iter().find(|r| r.name == "<&T as core::fmt::Debug>::fmt").unwrap();
    assert_eq!(debug_fn.copy_count, 2);
    assert_eq!(debug_fn.line_count, 6);
    for r in records.iter() {
        assert!(r.copy_count > 0);
        assert!(r.line_count >= r.copy_count);
    }
}

#[test]
fn configuration_probes_are_skipped() {
    let text = "define void @autocfg_probe_1(i32 %x) {\n  ret void\n}\n\ndefine void @kept(i32 %x) {\n  ret void\n}\n";
    let defs = scan_ir_lines(&lines(text));
    assert_eq!(defs.len(), 1);
    assert_eq!(defs[0].name, "kept");
}

#[test]
fn an_empty_body_still_counts_one_line() {
    let text = "define void @empty() {\n}\n";
    let defs = scan_ir_lines(&lines(text));
    assert_eq!(defs.len(), 1);
    assert_eq!(defs[0].lines, 1);
}

#[test]
fn define_lines_parse_their_names() {
    let r = define_name_exec("define internal void @\"_ZN4test8function17h1234567890abcdefE\"(ptr %x) {");
    assert_eq!(r.unwrap(), "test::function");
    assert_eq!(define_name_exec("define void nothing_here {"), None);
    assert_eq!(trim_quotes_exec("\"\"quoted\"\""), "quoted");
    assert_eq!(trim_quotes_exec("plain"), "plain");
}

#[test]
fn probe_records_are_dropped_from_merged_lists() {
    let records = vec![
        IrRecord { name: "autocfg_probe_2".to_string(), line_count: 3, copy_count: 1 },
        IrRecord { name: "app::real".to_string(), line_count: 7, copy_count: 2 },
        IrRecord { name: "autocfg_other".to_string(), line_count: 1, copy_count: 1 },
    ];
    let kept = drop_probe_records(&records);
    assert_eq!(kept.len(), 1);
    assert_eq!(kept[0].name, "app::real");
    assert_eq!(kept[0].line_count, 7);
    assert_eq!(kept[0].copy_count, 2);
}

#[test]
fn oversized_ir_totals_are_a_format_error() {
    let defs = vec![
        IrDef { name: "a".to_string(), lines: u64::MAX / 2 },
        IrDef { name: "b".to_string(), lines: u64::MAX / 2 },
    ];
    let r = merge_ir_defs(&defs);
    assert!(r.is_err());
    let _: Option<Vec<IrRecord>> = r.ok();
}

#[test]
fn symbol_sizes_derive_from_address_gaps() {
    let slots = vec![
        SymbolSlot { mangled: "c".to_string(), address: 0x300, size: 0, size_known: false },
        SymbolSlot { mangled: "a".to_string(), address: 0x100, size: 0, size_known: false },
        SymbolSlot { mangled: "b".to_string(), address: 0x200, size: 16, size_known: true },
    ];
    let resolved = resolve_symbols(slots, 0x400);
    assert_eq!(resolved.len(), 3);
    assert_eq!(resolved[0].mangled, "a");
    assert_eq!(resolved[0].size, 0x100);
    assert_eq!(resolved[1].mangled, "b");
    assert_eq!(resolved[1].size, 16);
    assert_eq!(resolved[2].mangled, "c");
    assert_eq!(resolved[2].size, 0x100);
}

#[test]
fn duplicate_addresses_collapse_and_zero_sizes_vanish() {
    let slots = vec![
        SymbolSlot { mangled: "x".to_string(), address: 0x100, size: 8, size_known: true },
        SymbolSlot { mangled: "x_alias".to_string(), address: 0x100, size: 8, size_known: true },
        SymbolSlot { mangled: "zero".to_string(), address: 0x200, size: 0, size_known: true },
    ];
    let resolved = resolve_symbols(slots, 0x400);
    assert_eq!(resolved.len(), 1);
    assert_eq!(resolved[0].address, 0x100);
    assert_eq!(resolved[0].size, 8);
}
