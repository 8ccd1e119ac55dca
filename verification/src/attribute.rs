//! Symbol demangling and crate attribution.
//!
//! A mangled linker-level symbol is demangled through an outside demangler,
//! then attributed to the crate that owns it: a trait-implementation symbol
//! (`<T as Trait>::method`) goes to the crate of the concrete type `T`, any
//! other symbol to its first `::`-separated path segment. A segment naming a
//! standard-library crate is marked as such; a segment naming no known
//! dependency is bucketed under `[unknown]`.

use vstd::prelude::*;
use crate::strutil::all_digits;
use crate::strutil::all_digits_exec;
use crate::strutil::all_word_chars;
use crate::strutil::all_word_chars_exec;
use crate::strutil::find_sub;
use crate::strutil::find_sub_from;
use crate::strutil::is_upper_char;
use crate::strutil::lemma_find_from;
use crate::strutil::lemma_find_skip;
use crate::strutil::spec_find;
use crate::strutil::spec_is_digit;
use crate::strutil::spec_is_upper;
use crate::strutil::str_eq;

verus! {

/// What the demangler returns for a mangled symbol. The result depends on
/// the mangled text alone; a string that is not a mangled symbol is returned
/// unchanged.
pub uninterp spec fn demangled_of(mangled: Seq<char>) -> Seq<char>;

/// Relies on rustc_demangle::demangle: it recognizes both the legacy and the
/// v0 mangling scheme, and its display form returns the input unchanged when
/// neither applies.
#[verifier::external_body]
pub fn demangle_symbol(mangled: &str) -> (r: String)
    ensures
        r@ == demangled_of(mangled@),
{
    rustc_demangle::demangle(mangled).to_string()
}

/// A lower-case ASCII hexadecimal digit.
pub open spec fn spec_is_hex_lower(c: char) -> bool {
    spec_is_digit(c) || (97 <= (c as u32) <= 102)
}

/// The name ends in a legacy symbol hash: "::h" and sixteen lower-case
/// hexadecimal digits.
pub open spec fn spec_has_hash(s: Seq<char>) -> bool {
    &&& s.len() >= 19
    &&& s[s.len() - 19] == ':'
    &&& s[s.len() - 18] == ':'
    &&& s[s.len() - 17] == 'h'
    &&& forall|i: int| s.len() - 16 <= i < s.len() ==> spec_is_hex_lower(s[i])
}

/// The name with its trailing symbol hash removed, if it carries one.
pub open spec fn spec_strip_hash(s: Seq<char>) -> Seq<char> {
    if spec_has_hash(s) {
        s.take(s.len() - 19)
    } else {
        s
    }
}

/// Whether `c` is a lower-case ASCII hexadecimal digit.
fn is_hex_lower_char(c: char) -> (r: bool)
    ensures
        r == spec_is_hex_lower(c),
{
    let u = c as u32;
    (48 <= u && u <= 57) || (97 <= u && u <= 102)
}

/// Remove a trailing "::h<16 hex digits>" symbol hash, if present.
#[verifier::loop_isolation(false)]
pub fn strip_hash(s: &str) -> (r: String)
    ensures
        r@ == spec_strip_hash(s@),
{
    let n = s.unicode_len();
    if n < 19 {
        return s.to_owned();
    }
    if s.get_char(n - 19) != ':' || s.get_char(n - 18) != ':' || s.get_char(n - 17) != 'h' {
        return s.to_owned();
    }
    let mut i: usize = n - 16;
    while i < n
        invariant
            n - 16 <= i <= n,
            forall|t: int| n - 16 <= t < i ==> spec_is_hex_lower(s@[t]),
        decreases n - i,
    {
        if !is_hex_lower_char(s.get_char(i)) {
            return s.to_owned();
        }
        i += 1;
    }
    s.substring_char(0, n - 19).to_owned()
}

/// The first `::`-separated segment of a path.
pub open spec fn spec_first_segment(s: Seq<char>) -> Seq<char> {
    match spec_find(s, "::"@) {
        Some(i) => s.take(i),
        None => s,
    }
}

/// The enumerated standard-library crates.
pub open spec fn spec_is_std_crate(seg: Seq<char>) -> bool {
    seg == "core"@ || seg == "alloc"@ || seg == "std"@ || seg == "proc_macro"@ || seg == "test"@
}

/// A name stands among the known strings.
pub open spec fn spec_name_known(names: Seq<String>, name: Seq<char>) -> bool {
    exists|i: int| 0 <= i < names.len() && names[i]@ == name
}

/// The crate a demangled symbol is attributed to, and whether it belongs to
/// the standard library. The segment examined is the first path segment of
/// the concrete type of a trait implementation, or of the whole name; it is
/// kept when it names a standard-library crate or a known dependency, and
/// replaced by "[unknown]" otherwise.
pub open spec fn spec_attribute(demangled: Seq<char>, deps: Seq<String>) -> (Seq<char>, bool) {
    let seg = if demangled.len() > 0 && demangled[0] == '<' && spec_find(demangled, " as "@) is Some {
        spec_first_segment(demangled.subrange(1, spec_find(demangled, " as "@)->Some_0))
    } else {
        spec_first_segment(demangled)
    };
    if spec_is_std_crate(seg) {
        (seg, true)
    } else if spec_name_known(deps, seg) {
        (seg, false)
    } else {
        ("[unknown]"@, false)
    }
}

/// Whether the name stands among the known strings.
#[verifier::loop_isolation(false)]
pub fn name_known(names: &Vec<String>, name: &str) -> (r: bool)
    ensures
        r == spec_name_known(names@, name@),
{
    let mut i: usize = 0;
    while i < names.len()
        invariant
            0 <= i <= names@.len(),
            forall|t: int| 0 <= t < i ==> names@[t]@ != name@,
        decreases names@.len() - i,
    {
        if str_eq(names[i].as_str(), name) {
            return true;
        }
        i += 1;
    }
    false
}

/// The first `::`-separated segment of a path.
pub fn first_segment(s: &str) -> (r: String)
    ensures
        r@ == spec_first_segment(s@),
{
    let sep = "::";
    match find_sub(s, sep) {
        Some(i) => {
            let sub = s.substring_char(0, i);
            proof {
                assert(sub@ =~= s@.take(i as int));
            }
            sub.to_owned()
        },
        None => s.to_owned(),
    }
}

/// Whether the segment names a standard-library crate.
pub fn is_std_crate(seg: &str) -> (r: bool)
    ensures
        r == spec_is_std_crate(seg@),
{
    str_eq(seg, "core") || str_eq(seg, "alloc") || str_eq(seg, "std") || str_eq(seg, "proc_macro")
        || str_eq(seg, "test")
}

/// Attribute a demangled symbol name to a crate, given the known dependency
/// crate names. Returns the owning crate and whether it belongs to the
/// standard library.
pub fn attribute_demangled(demangled: &str, deps: &Vec<String>) -> (r: (String, bool))
    ensures
        r.0@ == spec_attribute(demangled@, deps@).0,
        r.1 == spec_attribute(demangled@, deps@).1,
{
    let n = demangled.unicode_len();
    let as_pat = " as ";
    let seg: String = if n > 0 && demangled.get_char(0) == '<' {
        match find_sub(demangled, as_pat) {
            Some(i) => {
                proof {
                    reveal_strlit(" as ");
                    assert(as_pat@.len() == 4);
                    assert(demangled@.subrange(i as int, i + 4)[0] == demangled@[i as int]);
                    assert(demangled@[i as int] == ' ');
                    assert(i >= 1);
                }
                let t = demangled.substring_char(1, i);
                proof {
                    assert(t@ =~= demangled@.subrange(1, i as int));
                }
                first_segment(t)
            },
            None => first_segment(demangled),
        }
    } else {
        first_segment(demangled)
    };
    if is_std_crate(seg.as_str()) {
        (seg, true)
    } else if name_known(deps, seg.as_str()) {
        (seg, false)
    } else {
        ("[unknown]".to_owned(), false)
    }
}

/// The pieces of a path split on "::". Never empty; a path without the
/// separator is one piece.
pub open spec fn spec_parts(s: Seq<char>) -> Seq<Seq<char>>
    decreases s.len(),
{
    match spec_find(s, "::"@) {
        Some(i) => if 0 <= i && i + 2 <= s.len() {
            seq![s.take(i)] + spec_parts(s.skip(i + 2))
        } else {
            seq![s]
        },
        None => seq![s],
    }
}

/// A split path has at least one piece.
pub proof fn lemma_parts_len(s: Seq<char>)
    ensures
        spec_parts(s).len() >= 1,
{
    match spec_find(s, "::"@) {
        Some(i) => {},
        None => {},
    }
}

/// The views of a sequence of strings.
pub open spec fn str_views(ss: Seq<String>) -> Seq<Seq<char>> {
    ss.map_values(|x: String| x@)
}

/// Split a path on "::" into its pieces.
#[verifier::loop_isolation(false)]
pub fn split_double_colon(s: &str) -> (parts: Vec<String>)
    ensures
        str_views(parts@) == spec_parts(s@),
{
    let mut parts: Vec<String> = Vec::new();
    let n = s.unicode_len();
    let sep = "::";
    proof {
        reveal_strlit("::");
        assert(sep@.len() == 2);
    }
    let mut cur: usize = 0;
    proof {
        assert(s@.skip(0) =~= s@);
        assert(str_views(parts@) + spec_parts(s@) =~= spec_parts(s@));
    }
    loop
        invariant
            0 <= cur <= n,
            n == s@.len(),
            sep@ == "::"@,
            spec_parts(s@) =~= str_views(parts@) + spec_parts(s@.skip(cur as int)),
        decreases n - cur,
    {
        proof {
            lemma_find_from(s@, sep@, cur as int);
            lemma_find_skip(s@, sep@, cur as int);
        }
        let found = find_sub_from(s, sep, cur);
        match found {
            Some(i) => {
                let ghost old_parts = parts@;
                let piece = s.substring_char(cur, i).to_owned();
                parts.push(piece);
                proof {
                    assert(s@.skip(cur as int).take(i - cur) =~= s@.subrange(cur as int, i as int));
                    assert(s@.skip(cur as int).skip(i - cur + 2) =~= s@.skip(i + 2));
                    assert(str_views(parts@) =~= str_views(old_parts).push(
                        s@.subrange(cur as int, i as int),
                    ));
                    assert(spec_parts(s@) =~= str_views(parts@) + spec_parts(s@.skip(i + 2)));
                }
                cur = i + 2;
            },
            None => {
                let ghost old_parts = parts@;
                let piece = s.substring_char(cur, n).to_owned();
                parts.push(piece);
                proof {
                    assert(s@.skip(cur as int) =~= s@.subrange(cur as int, n as int));
                    assert(str_views(parts@) =~= str_views(old_parts).push(s@.skip(cur as int)));
                    assert(spec_parts(s@.skip(cur as int)) =~= seq![s@.skip(cur as int)]);
                    assert(spec_parts(s@) =~= str_views(parts@));
                }
                return parts;
            },
        }
    }
}

/// A piece that can name a crate: non-empty, not opening a generic form, not
/// an internal name, not a bare number, and made of word characters only.
pub open spec fn spec_part_plausible(p: Seq<char>) -> bool {
    &&& p.len() > 0
    &&& p[0] != '<'
    &&& p[0] != '_'
    &&& !all_digits(p)
    &&& all_word_chars(p)
}

/// A plausible piece that does not begin upper-case, so it reads as a crate
/// or module name rather than a type.
pub open spec fn spec_part_lower(p: Seq<char>) -> bool {
    spec_part_plausible(p) && !spec_is_upper(p[0])
}

/// The first piece that reads as a crate or module name, if any.
pub open spec fn spec_scan_parts(parts: Seq<Seq<char>>) -> Option<Seq<char>>
    decreases parts.len(),
{
    if parts.len() == 0 {
        None
    } else if spec_part_lower(parts[0]) {
        Some(parts[0])
    } else {
        spec_scan_parts(parts.drop_first())
    }
}

/// Whether the piece can name a crate.
pub fn part_plausible(p: &str) -> (r: bool)
    ensures
        r == spec_part_plausible(p@),
{
    let n = p.unicode_len();
    if n == 0 {
        return false;
    }
    let c0 = p.get_char(0);
    c0 != '<' && c0 != '_' && !all_digits_exec(p) && all_word_chars_exec(p)
}

/// Whether the piece reads as a crate or module name.
pub fn part_lower(p: &str) -> (r: bool)
    ensures
        r == spec_part_lower(p@),
{
    if !part_plausible(p) {
        return false;
    }
    !is_upper_char(p.get_char(0))
}

/// The name a demangled IR function is judged by: for a trait-implementation
/// form `<T as Trait>::method`, the concrete type `T` (the text between the
/// opening angle bracket and " as "), since the crate owning `T` owns the
/// symbol; any other name unchanged.
pub open spec fn spec_cleaned(f: Seq<char>) -> Seq<char> {
    if f.len() > 0 && f[0] == '<' && spec_find(f, " as "@) is Some {
        f.subrange(1, spec_find(f, " as "@)->Some_0)
    } else {
        f
    }
}

/// The crate name extracted from a demangled IR function name, without a set
/// of known dependencies to check against: the first path piece of the
/// judged name when it names a standard-library crate or can name a crate;
/// otherwise the first piece anywhere in the path that reads as a crate or
/// module name; otherwise the shared "[unknown]" bucket.
pub open spec fn spec_extract_crate(f: Seq<char>) -> Seq<char> {
    let parts = spec_parts(spec_cleaned(f));
    if spec_is_std_crate(parts[0]) {
        parts[0]
    } else if spec_part_plausible(parts[0]) {
        parts[0]
    } else {
        match spec_scan_parts(parts) {
            Some(p) => p,
            None => "[unknown]"@,
        }
    }
}

/// Extract a crate name from a demangled IR function name.
#[verifier::loop_isolation(false)]
pub fn extract_crate_from_function(func_name: &str) -> (r: String)
    ensures
        r@ == spec_extract_crate(func_name@),
{
    let n = func_name.unicode_len();
    let as_pat = " as ";
    let cleaned: String = if n > 0 && func_name.get_char(0) == '<' {
        match find_sub(func_name, as_pat) {
            Some(as_pos) => {
                proof {
                    reveal_strlit(" as ");
                    assert(as_pat@.len() == 4);
                    assert(func_name@.subrange(as_pos as int, as_pos + 4)[0] == func_name@[
                    as_pos as int]);
                    assert(func_name@[as_pos as int] == ' ');
                    assert(as_pos >= 1);
                }
                let t = func_name.substring_char(1, as_pos);
                proof {
                    assert(t@ =~= func_name@.subrange(1, as_pos as int));
                }
                t.to_owned()
            },
            None => func_name.to_owned(),
        }
    } else {
        func_name.to_owned()
    };
    let parts = split_double_colon(cleaned.as_str());
    proof {
        lemma_parts_len(cleaned@);
        assert(parts@[0]@ == spec_parts(cleaned@)[0]);
    }
    let first = &parts[0];
    if is_std_crate(first.as_str()) {
        return first.clone();
    }
    if part_plausible(first.as_str()) {
        return first.clone();
    }
    let ghost views = str_views(parts@);
    let mut k: usize = 0;
    proof {
        assert(views.skip(0) =~= views);
    }
    loop
        invariant
            0 <= k <= parts@.len(),
            views == str_views(parts@),
            spec_scan_parts(views) == spec_scan_parts(views.skip(k as int)),
        decreases parts@.len() - k,
    {
        if k == parts.len() {
            break ;
        }
        proof {
            assert(views.skip(k as int)[0] == parts@[k as int]@);
        }
        if part_lower(parts[k].as_str()) {
            proof {
                assert(spec_scan_parts(views.skip(k as int)) == Some(parts@[k as int]@));
            }
            return parts[k].clone();
        }
        proof {
            assert(views.skip(k as int).drop_first() =~= views.skip(k as int + 1));
        }
        k += 1;
    }
    proof {
        assert(views.skip(parts@.len() as int).len() == 0);
    }
    "[unknown]".to_owned()
}

/// The result of demangling and attributing one mangled symbol.
pub struct Attribution {
    /// The demangled name, with its trailing symbol hash kept.
    pub demangled: String,
    /// The demangled name with the symbol hash removed.
    pub stripped: String,
    /// The owning crate.
    pub crate_name: String,
    /// Whether the owning crate belongs to the standard library.
    pub is_std: bool,
}

/// Demangle a mangled symbol and attribute it to a crate.
pub fn attribute_symbol(mangled: &str, deps: &Vec<String>) -> (r: Attribution)
    ensures
        r.demangled@ == demangled_of(mangled@),
        r.stripped@ == spec_strip_hash(demangled_of(mangled@)),
        r.crate_name@ == spec_attribute(demangled_of(mangled@), deps@).0,
        r.is_std == spec_attribute(demangled_of(mangled@), deps@).1,
{
    let demangled = demangle_symbol(mangled);
    let stripped = strip_hash(demangled.as_str());
    let (crate_name, is_std) = attribute_demangled(demangled.as_str(), deps);
    Attribution { demangled, stripped, crate_name, is_std }
}

} // verus!
