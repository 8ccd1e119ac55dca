use limpid::attribute::attribute_demangled;
use limpid::attribute::attribute_symbol;
use limpid::attribute::demangle_symbol;
use limpid::attribute::extract_crate_from_function;
use limpid::attribute::first_segment;
use limpid::attribute::is_std_crate;
use limpid::attribute::split_double_colon;
use limpid::attribute::strip_hash;
use limpid::strutil::find_sub;
use limpid::strutil::str_eq;
use limpid::strutil::str_le;

fn deps(names: &[&str]) -> Vec<String> {
    names.iter().map(|n| n.to_string()).collect()
}

#[test]
fn demangler_handles_legacy_names() {
    let d = demangle_symbol("_ZN3std2io5stdio6_print17h1234567890abcdefE");
    assert_eq!(d, "std::io::stdio::_print::h1234567890abcdef");
}

#[test]
fn demangler_returns_unmangled_names_unchanged() {
    assert_eq!(demangle_symbol("plain_symbol"), "plain_symbol");
    assert_eq!(demangle_symbol("foo::bar"), "foo::bar");
}

#[test]
fn hash_suffixes_are_stripped() {
    assert_eq!(strip_hash("foo::bar::h9e2b8a2a7a115765"), "foo::bar");
    assert_eq!(strip_hash("serde::ser::Serialize::serialize"), "serde::ser::Serialize::serialize");
    // one digit short of a hash
    assert_eq!(strip_hash("foo::bar::h9e2b8a2a7a11576"), "foo::bar::h9e2b8a2a7a11576");
    // upper-case digits do not form a hash
    assert_eq!(strip_hash("foo::bar::h9E2B8A2A7A115765"), "foo::bar::h9E2B8A2A7A115765");
}

#[test]
fn attribution_takes_the_first_path_segment() {
    let d = deps(&["serde", "camino"]);
    let (name, std) = attribute_demangled("serde::ser::Serialize::serialize", &d);
    assert_eq!(name, "serde");
    assert!(!std);
}

#[test]
fn attribution_marks_standard_library_crates() {
    let d = deps(&["serde"]);
    let (name, std) = attribute_demangled("core::ptr::drop_in_place", &d);
    assert_eq!(name, "core");
    assert!(std);
    let (name2, std2) = attribute_demangled("std::io::stdio::_print", &d);
    assert_eq!(name2, "std");
    assert!(std2);
}

#[test]
fn attribution_follows_the_concrete_type_of_a_trait_impl() {
    let d = deps(&["euclid", "resvg"]);
    let (name, std) = attribute_demangled("<euclid::rect::TypedRect<f64> as resvg::geom::RectExt>::x", &d);
    assert_eq!(name, "euclid");
    assert!(!std);
}

#[test]
fn attribution_buckets_unknown_crates() {
    let d = deps(&["serde"]);
    let (name, std) = attribute_demangled("mystery::thing", &d);
    assert_eq!(name, "[unknown]");
    assert!(!std);
}

#[test]
fn std_wins_over_a_dependency_of_the_same_name() {
    let d = deps(&["core"]);
    let (name, std) = attribute_demangled("core::mem::swap", &d);
    assert_eq!(name, "core");
    assert!(std);
}

#[test]
fn attribute_symbol_composes_demangling_and_attribution() {
    let d = deps(&["serde"]);
    let a = attribute_symbol("_ZN3std2io5stdio6_print17h1234567890abcdefE", &d);
    assert_eq!(a.demangled, "std::io::stdio::_print::h1234567890abcdef");
    assert_eq!(a.stripped, "std::io::stdio::_print");
    assert_eq!(a.crate_name, "std");
    assert!(a.is_std);
}

#[test]
fn extract_takes_std_first_segments() {
    assert_eq!(extract_crate_from_function("core::ptr::drop_in_place"), "core");
    assert_eq!(extract_crate_from_function("alloc::vec::Vec"), "alloc");
}

#[test]
fn extract_follows_the_concrete_type_of_a_trait_form() {
    assert_eq!(
        extract_crate_from_function("<ks_types::Catalog as core::fmt::Debug>::fmt"),
        "ks_types"
    );
    assert_eq!(
        extract_crate_from_function("<euclid::rect::TypedRect<f64> as resvg::geom::RectExt>::x"),
        "euclid"
    );
    // a bare type parameter is kept as the extracted segment
    assert_eq!(extract_crate_from_function("<T as alloc::vec::Vec>::method"), "T");
    // a reference type names no crate
    assert_eq!(extract_crate_from_function("<&T as core::fmt::Debug>::fmt"), "[unknown]");
}

#[test]
fn extract_accepts_plausible_first_segments() {
    assert_eq!(extract_crate_from_function("serde::ser::Serialize"), "serde");
    assert_eq!(extract_crate_from_function("my_crate::module::f"), "my_crate");
}

#[test]
fn extract_scans_past_implausible_segments() {
    assert_eq!(extract_crate_from_function("123::foo"), "foo");
    assert_eq!(extract_crate_from_function("_internal::thing"), "thing");
}

#[test]
fn extract_gives_up_on_opaque_names() {
    assert_eq!(extract_crate_from_function("<closure>"), "[unknown]");
}

#[test]
fn segments_split_on_double_colons() {
    let parts = split_double_colon("a::b::c");
    assert_eq!(parts, vec!["a".to_string(), "b".to_string(), "c".to_string()]);
    let solo = split_double_colon("plain");
    assert_eq!(solo, vec!["plain".to_string()]);
    assert_eq!(first_segment("x::y"), "x");
    assert_eq!(first_segment("plain"), "plain");
}

#[test]
fn string_primitives_behave() {
    assert!(str_eq("abc", "abc"));
    assert!(!str_eq("abc", "abd"));
    assert_eq!(find_sub("hello world", "o w"), Some(4));
    assert_eq!(find_sub("hello", "xyz"), None);
    assert!(str_le("abc", "abd"));
    assert!(str_le("ab", "abc"));
    assert!(!str_le("b", "a"));
    assert!(is_std_crate("proc_macro"));
    assert!(!is_std_crate("serde"));
}
