//! The binary reader's symbol post-processing: order the defined
//! text-section symbols by address, drop duplicate addresses, derive the
//! sizes the format left out from the gap to the next symbol (the last one
//! reaching to the section's end), and discard what is left with no size.

use vstd::prelude::*;
use crate::assemble::RawSymbol;

verus! {

/// One text-section symbol as the format parser reports it: the size may be
/// absent for some formats.
pub struct SymbolSlot {
    /// The mangled linker-level name.
    pub mangled: String,
    /// The symbol's address.
    pub address: u64,
    /// The recorded size; meaningful only when `size_known` holds.
    pub size: u64,
    /// Whether the format recorded a size for this symbol.
    pub size_known: bool,
}

/// Slot order: by address, ascending.
pub open spec fn slot_leq(a: SymbolSlot, b: SymbolSlot) -> bool {
    a.address <= b.address
}

/// A slot list ordered by address.
pub open spec fn slots_sorted(s: Seq<SymbolSlot>) -> bool {
    forall|i: int, j: int| 0 <= i < j < s.len() ==> slot_leq(#[trigger] s[i], #[trigger] s[j])
}

/// Two slots with the same fields.
pub open spec fn slot_fields_eq(a: SymbolSlot, b: SymbolSlot) -> bool {
    a.mangled@ == b.mangled@ && a.address == b.address && a.size == b.size && a.size_known
        == b.size_known
}

/// The slot has a field-equal slot in the list.
pub open spec fn slot_in(x: SymbolSlot, b: Seq<SymbolSlot>) -> bool {
    exists|u: int| 0 <= u < b.len() && slot_fields_eq(x, #[trigger] b[u])
}

/// Every slot of `a` has a field-equal slot in `b`.
pub open spec fn slots_among(a: Seq<SymbolSlot>, b: Seq<SymbolSlot>) -> bool {
    forall|t: int| 0 <= t < a.len() ==> slot_in(#[trigger] a[t], b)
}

/// Some slot of the list carries the same address.
pub open spec fn addr_in(x: SymbolSlot, b: Seq<SymbolSlot>) -> bool {
    exists|t: int| 0 <= t < b.len() && (#[trigger] b[t]).address == x.address
}

/// Every address of `a` is carried by some slot of `b`.
pub open spec fn addrs_covered(a: Seq<SymbolSlot>, b: Seq<SymbolSlot>) -> bool {
    forall|u: int| 0 <= u < a.len() ==> addr_in(#[trigger] a[u], b)
}

/// The symbol restates the name and address of one of the given slots.
pub open spec fn symbol_from_inputs(slots: Seq<SymbolSlot>, s: RawSymbol) -> bool {
    exists|u: int|
        0 <= u < slots.len() && s.mangled@ == (#[trigger] slots[u]).mangled@ && s.address == slots[
        u].address
}

/// A deduplicated ordering of a slot list: strictly increasing addresses,
/// every entry one of the given slots, and every given address still
/// present.
pub open spec fn dedup_of(d: Seq<SymbolSlot>, slots: Seq<SymbolSlot>) -> bool {
    &&& forall|i: int, j: int| 0 <= i < j < d.len() ==> d[i].address < d[j].address
    &&& slots_among(d, slots)
    &&& addrs_covered(slots, d)
}

/// Field equality is transitive, so membership composes.
proof fn lemma_among_trans(a: Seq<SymbolSlot>, b: Seq<SymbolSlot>, c: Seq<SymbolSlot>)
    requires
        slots_among(a, b),
        slots_among(b, c),
    ensures
        slots_among(a, c),
{
    assert forall|t: int| 0 <= t < a.len() implies slot_in(#[trigger] a[t], c) by {
        assert(slot_in(a[t], b));
        let u = choose|u: int| 0 <= u < b.len() && slot_fields_eq(a[t], #[trigger] b[u]);
        assert(slot_in(b[u], c));
        let w = choose|w: int| 0 <= w < c.len() && slot_fields_eq(b[u], #[trigger] c[w]);
        assert(slot_fields_eq(a[t], c[w]));
        assert(slot_in(a[t], c));
    }
}

/// Address coverage composes.
proof fn lemma_covered_trans(a: Seq<SymbolSlot>, b: Seq<SymbolSlot>, c: Seq<SymbolSlot>)
    requires
        addrs_covered(a, b),
        addrs_covered(b, c),
    ensures
        addrs_covered(a, c),
{
    assert forall|u: int| 0 <= u < a.len() implies addr_in(#[trigger] a[u], c) by {
        assert(addr_in(a[u], b));
        let w = choose|w: int| 0 <= w < b.len() && (#[trigger] b[w]).address == a[u].address;
        assert(addr_in(b[w], c));
        let t = choose|t: int| 0 <= t < c.len() && (#[trigger] c[t]).address == b[w].address;
        assert(c[t].address == a[u].address);
        assert(addr_in(a[u], c));
    }
}

/// Sort symbol slots by address. Keeps exactly the given slots.
#[verifier::loop_isolation(false)]
pub fn sort_slots(v: Vec<SymbolSlot>) -> (r: Vec<SymbolSlot>)
    ensures
        r@.len() == v@.len(),
        slots_sorted(r@),
        forall|t: int| 0 <= t < r@.len() ==> v@.contains(#[trigger] r@[t]),
        forall|u: int| 0 <= u < v@.len() ==> r@.contains(#[trigger] v@[u]),
{
    let ghost orig = v@;
    let mut rest = v;
    let mut out: Vec<SymbolSlot> = Vec::new();
    proof {
        assert(rest@ =~= orig.take(orig.len() as int));
    }
    while rest.len() > 0
        invariant
            rest@ == orig.take(rest@.len() as int),
            out@.len() == orig.len() - rest@.len(),
            slots_sorted(out@),
            forall|t: int|
                0 <= t < out@.len() ==> exists|u: int|
                    rest@.len() <= u < orig.len() && orig[u] == #[trigger] out@[t],
            forall|u: int| rest@.len() <= u < orig.len() ==> out@.contains(#[trigger] orig[u]),
        decreases rest@.len(),
    {
        let ghost n = rest@.len() as int;
        let x_opt = rest.pop();
        let x = match x_opt {
            Some(x) => x,
            None => {
                proof {
                    assert(false);
                }
                return out;
            },
        };
        proof {
            assert(x == orig[n - 1]);
            assert(rest@ =~= orig.take(n - 1));
        }
        let ghost before = out@;
        let mut p: usize = 0;
        while p < out.len() && out[p].address <= x.address
            invariant
                0 <= p <= out@.len(),
                out@ == before,
                forall|t: int| 0 <= t < p ==> slot_leq(#[trigger] out@[t], x),
            decreases out@.len() - p,
        {
            p += 1;
        }
        proof {
            before.insert_ensures(p as int, x);
        }
        out.insert(p, x);
        proof {
            let res = out@;
            assert forall|i: int, j: int| 0 <= i < j < res.len() implies slot_leq(
                #[trigger] res[i],
                #[trigger] res[j],
            ) by {
                if j < p {
                    assert(res[i] == before[i] && res[j] == before[j]);
                } else if i < p && j == p {
                    assert(res[i] == before[i] && res[j] == x);
                } else if i < p && j > p {
                    assert(res[i] == before[i] && res[j] == before[j - 1]);
                    assert(i < j - 1);
                } else if i == p {
                    assert(res[i] == x && res[j] == before[j - 1]);
                } else {
                    assert(res[i] == before[i - 1] && res[j] == before[j - 1]);
                }
            }
            assert forall|t: int| 0 <= t < res.len() implies exists|u: int|
                n - 1 <= u < orig.len() && orig[u] == #[trigger] res[t] by {
                if t < p {
                    assert(res[t] == before[t]);
                } else if t == p {
                    assert(res[t] == orig[n - 1]);
                } else {
                    assert(res[t] == before[t - 1]);
                }
            }
            assert forall|u: int| n - 1 <= u < orig.len() implies res.contains(
                #[trigger] orig[u],
            ) by {
                if u >= n {
                    let t = choose|t: int| 0 <= t < before.len() && before[t] == orig[u];
                    if t < p {
                        assert(res[t] == orig[u]);
                    } else {
                        assert(res[t + 1] == orig[u]);
                    }
                } else {
                    assert(res[p as int] == orig[u]);
                }
            }
        }
    }
    proof {
        assert forall|t: int| 0 <= t < out@.len() implies orig.contains(#[trigger] out@[t]) by {
            let u = choose|u: int| 0 <= u < orig.len() && orig[u] == out@[t];
            assert(orig[u] == out@[t]);
        }
    }
    out
}

/// Among the originals stands a field-equal slot for everything one of them
/// contains.
proof fn lemma_contains_to_among(base: Seq<SymbolSlot>, xs: Seq<SymbolSlot>)
    requires
        forall|t: int| 0 <= t < xs.len() ==> base.contains(#[trigger] xs[t]),
    ensures
        slots_among(xs, base),
{
    assert forall|t: int| 0 <= t < xs.len() implies slot_in(#[trigger] xs[t], base) by {
        assert(base.contains(xs[t]));
        let u = choose|u: int| 0 <= u < base.len() && base[u] == xs[t];
        assert(slot_fields_eq(xs[t], base[u]));
        assert(slot_in(xs[t], base));
    }
}

/// Everything a list contains keeps its address covered by that list.
proof fn lemma_contains_to_covered(base: Seq<SymbolSlot>, xs: Seq<SymbolSlot>)
    requires
        forall|u: int| 0 <= u < base.len() ==> xs.contains(#[trigger] base[u]),
    ensures
        addrs_covered(base, xs),
{
    assert forall|u: int| 0 <= u < base.len() implies addr_in(#[trigger] base[u], xs) by {
        assert(xs.contains(base[u]));
        let t = choose|t: int| 0 <= t < xs.len() && xs[t] == base[u];
        assert(xs[t].address == base[u].address);
        assert(addr_in(base[u], xs));
    }
}

/// The first half of the pipeline: sort, with the correspondence facts
/// folded into their named forms.
fn sort_stage(v: Vec<SymbolSlot>) -> (r: Vec<SymbolSlot>)
    ensures
        slots_sorted(r@),
        slots_among(r@, v@),
        slots_among(v@, r@),
        addrs_covered(v@, r@),
{
    let ghost orig = v@;
    let r = sort_slots(v);
    proof {
        lemma_contains_to_among(orig, r@);
        lemma_contains_to_among(r@, orig);
        lemma_contains_to_covered(orig, r@);
    }
    r
}

/// Drop the later slots of every shared address: each address survives once.
#[verifier::loop_isolation(false)]
pub fn dedup_by_address(v: &Vec<SymbolSlot>) -> (r: Vec<SymbolSlot>)
    requires
        slots_sorted(v@),
    ensures
        forall|i: int, j: int| 0 <= i < j < r@.len() ==> r@[i].address < r@[j].address,
        slots_among(r@, v@),
        addrs_covered(v@, r@),
{
    let mut out: Vec<SymbolSlot> = Vec::new();
    let mut i: usize = 0;
    while i < v.len()
        invariant
            0 <= i <= v@.len(),
            forall|t: int, u: int| 0 <= t < u < out@.len() ==> out@[t].address < out@[u].address,
            i > 0 ==> out@.len() > 0 && out@[out@.len() - 1].address == v@[i - 1].address,
            i == 0 ==> out@.len() == 0,
            forall|t: int| 0 <= t < out@.len() ==> slot_in(#[trigger] out@[t], v@),
            forall|u: int| 0 <= u < i ==> addr_in(#[trigger] v@[u], out@),
        decreases v@.len() - i,
    {
        let take_it = if out.len() == 0 {
            true
        } else {
            out[out.len() - 1].address != v[i].address
        };
        if take_it {
            proof {
                if i > 0 {
                    assert(slot_leq(v@[i - 1], v@[i as int]));
                }
            }
            let ghost old_out = out@;
            out.push(
                SymbolSlot {
                    mangled: v[i].mangled.clone(),
                    address: v[i].address,
                    size: v[i].size,
                    size_known: v[i].size_known,
                },
            );
            proof {
                assert(forall|t: int| 0 <= t < old_out.len() ==> out@[t] == old_out[t]);
                assert(slot_fields_eq(out@[out@.len() - 1], v@[i as int]));
                if old_out.len() > 0 {
                    assert(i > 0);
                    assert(old_out[old_out.len() - 1].address == v@[i - 1].address);
                    assert(slot_leq(v@[i - 1], v@[i as int]));
                    assert forall|t: int| 0 <= t < old_out.len() implies old_out[t].address < v@[
                    i as int].address by {
                        if t < old_out.len() - 1 {
                            assert(old_out[t].address < old_out[old_out.len() - 1].address);
                        }
                    }
                }
                assert forall|t: int| 0 <= t < out@.len() implies slot_in(
                    #[trigger] out@[t],
                    v@,
                ) by {
                    if t < out@.len() - 1 {
                        assert(out@[t] == old_out[t]);
                        assert(slot_in(old_out[t], v@));
                    } else {
                        assert(slot_fields_eq(out@[t], v@[i as int]));
                        assert(slot_in(out@[t], v@));
                    }
                }
                assert forall|u: int| 0 <= u < i + 1 implies addr_in(#[trigger] v@[u], out@) by {
                    if u < i {
                        assert(addr_in(v@[u], old_out));
                        let t = choose|t: int|
                            0 <= t < old_out.len() && (#[trigger] old_out[t]).address == v@[
                            u].address;
                        assert(out@[t].address == v@[u].address);
                        assert(addr_in(v@[u], out@));
                    } else {
                        assert(out@[out@.len() - 1].address == v@[u].address);
                        assert(addr_in(v@[u], out@));
                    }
                }
            }
        } else {
            proof {
                assert(out@[out@.len() - 1].address == v@[i as int].address);
                assert(addr_in(v@[i as int], out@));
            }
        }
        i += 1;
    }
    out
}

/// The size of the slot at one position: as recorded where the format gave
/// one, otherwise the gap to the next symbol, the last symbol reaching to
/// the end of the section.
pub open spec fn spec_slot_size(d: Seq<SymbolSlot>, i: int, section_end: int) -> int {
    if d[i].size_known {
        d[i].size as int
    } else if i + 1 < d.len() {
        d[i + 1].address - d[i].address
    } else {
        section_end - d[i].address
    }
}

/// The views of resolved symbols.
pub open spec fn raw_views(rs: Seq<RawSymbol>) -> Seq<(Seq<char>, int, int)> {
    rs.map_values(|s: RawSymbol| (s.mangled@, s.address as int, s.size as int))
}

/// The resolved symbols from position `i` on: each slot with its size as
/// `spec_slot_size`, the ones with no size left out.
pub open spec fn spec_resolve_from(d: Seq<SymbolSlot>, i: int, section_end: int) -> Seq<
    (Seq<char>, int, int),
>
    decreases d.len() - i,
{
    if i < 0 || i >= d.len() {
        Seq::empty()
    } else {
        let sz = spec_slot_size(d, i, section_end);
        if sz > 0 {
            seq![(d[i].mangled@, d[i].address as int, sz)] + spec_resolve_from(
                d,
                i + 1,
                section_end,
            )
        } else {
            spec_resolve_from(d, i + 1, section_end)
        }
    }
}

/// Derive the missing sizes and discard the symbols with none, as the views
/// say: the result is exactly the resolution of the deduplicated slots.
#[verifier::loop_isolation(false)]
pub fn resolve_sizes(d: &Vec<SymbolSlot>, section_end: u64) -> (r: Vec<RawSymbol>)
    requires
        forall|i: int, j: int| 0 <= i < j < d@.len() ==> d@[i].address < d@[j].address,
        forall|i: int| 0 <= i < d@.len() ==> (#[trigger] d@[i]).address <= section_end,
    ensures
        raw_views(r@) == spec_resolve_from(d@, 0, section_end as int),
        forall|k: int| 0 <= k < r@.len() ==> (#[trigger] r@[k]).size > 0,
{
    let mut out: Vec<RawSymbol> = Vec::new();
    let mut i: usize = 0;
    proof {
        assert(raw_views(out@) =~= Seq::<(Seq<char>, int, int)>::empty());
    }
    while i < d.len()
        invariant
            0 <= i <= d@.len(),
            spec_resolve_from(d@, 0, section_end as int) =~= raw_views(out@) + spec_resolve_from(
                d@,
                i as int,
                section_end as int,
            ),
            forall|k: int| 0 <= k < out@.len() ==> (#[trigger] out@[k]).size > 0,
        decreases d@.len() - i,
    {
        let sz: u64 = if d[i].size_known {
            d[i].size
        } else if i + 1 < d.len() {
            proof {
                assert(d@[i as int].address < d@[i + 1].address);
            }
            d[i + 1].address - d[i].address
        } else {
            section_end - d[i].address
        };
        if sz > 0 {
            let ghost old_out = out@;
            out.push(RawSymbol { mangled: d[i].mangled.clone(), address: d[i].address, size: sz });
            proof {
                assert(raw_views(out@) =~= raw_views(old_out).push(
                    (out@[out@.len() - 1].mangled@, out@[out@.len() - 1].address as int, out@[
                    out@.len() - 1].size as int),
                ));
                assert(sz as int == spec_slot_size(d@, i as int, section_end as int));
            }
        } else {
            proof {
                assert(sz as int == spec_slot_size(d@, i as int, section_end as int));
            }
        }
        i += 1;
    }
    out
}

/// Each resolved tuple restates one slot's name and address with its
/// derived size.
proof fn lemma_resolve_provenance(d: Seq<SymbolSlot>, i: int, section_end: int)
    ensures
        forall|k: int|
            0 <= k < spec_resolve_from(d, i, section_end).len() ==> exists|x: int|
                i <= x < d.len() && #[trigger] spec_resolve_from(d, i, section_end)[k] == (
                    d[x].mangled@,
                    d[x].address as int,
                    spec_slot_size(d, x, section_end),
                ),
    decreases d.len() - i,
{
    if i < 0 || i >= d.len() {
    } else {
        lemma_resolve_provenance(d, i + 1, section_end);
        let sz = spec_slot_size(d, i, section_end);
        let rest = spec_resolve_from(d, i + 1, section_end);
        let whole = spec_resolve_from(d, i, section_end);
        if sz > 0 {
            assert(whole =~= seq![(d[i].mangled@, d[i].address as int, sz)] + rest);
            assert forall|k: int| 0 <= k < whole.len() implies exists|x: int|
                i <= x < d.len() && #[trigger] whole[k] == (
                    d[x].mangled@,
                    d[x].address as int,
                    spec_slot_size(d, x, section_end),
                ) by {
                if k == 0 {
                    assert(whole[0] == (d[i].mangled@, d[i].address as int, sz));
                } else {
                    assert(whole[k] == rest[k - 1]);
                    let x = choose|x: int|
                        i + 1 <= x < d.len() && #[trigger] rest[k - 1] == (
                            d[x].mangled@,
                            d[x].address as int,
                            spec_slot_size(d, x, section_end),
                        );
                }
            }
        }
    }
}

/// Resolved symbols keep the slots' strict address order.
proof fn lemma_resolve_order(d: Seq<SymbolSlot>, i: int, section_end: int)
    requires
        forall|x: int, y: int| 0 <= x < y < d.len() ==> d[x].address < d[y].address,
    ensures
        forall|k: int, l: int|
            0 <= k < l < spec_resolve_from(d, i, section_end).len() ==> spec_resolve_from(
                d,
                i,
                section_end,
            )[k].1 < spec_resolve_from(d, i, section_end)[l].1,
        forall|k: int|
            0 <= k < spec_resolve_from(d, i, section_end).len() ==> exists|x: int|
                i <= x < d.len() && #[trigger] spec_resolve_from(d, i, section_end)[k].1 == d[
                x].address,
    decreases d.len() - i,
{
    if i < 0 || i >= d.len() {
    } else {
        lemma_resolve_order(d, i + 1, section_end);
        let sz = spec_slot_size(d, i, section_end);
        let rest = spec_resolve_from(d, i + 1, section_end);
        if sz > 0 {
            let whole = spec_resolve_from(d, i, section_end);
            assert(whole =~= seq![(d[i].mangled@, d[i].address as int, sz)] + rest);
            assert forall|k: int, l: int| 0 <= k < l < whole.len() implies whole[k].1
                < whole[l].1 by {
                if k == 0 {
                    let x = choose|x: int|
                        i + 1 <= x < d.len() && #[trigger] rest[l - 1].1 == d[x].address;
                    assert(d[i].address < d[x].address);
                } else {
                    assert(whole[k] == rest[k - 1] && whole[l] == rest[l - 1]);
                }
            }
            assert forall|k: int| 0 <= k < whole.len() implies exists|x: int|
                i <= x < d.len() && #[trigger] whole[k].1 == d[x].address by {
                if k == 0 {
                    assert(whole[0].1 == d[i].address);
                } else {
                    assert(whole[k] == rest[k - 1]);
                    let x = choose|x: int|
                        i + 1 <= x < d.len() && #[trigger] rest[k - 1].1 == d[x].address;
                }
            }
        }
    }
}

/// Every symbol resolved from a deduplicated ordering restates the name and
/// address of one of the slots the ordering was drawn from.
proof fn lemma_resolved_from_inputs(
    slots: Seq<SymbolSlot>,
    d: Seq<SymbolSlot>,
    r: Seq<RawSymbol>,
    section_end: int,
)
    requires
        slots_among(d, slots),
        raw_views(r) == spec_resolve_from(d, 0, section_end),
    ensures
        forall|k: int| 0 <= k < r.len() ==> symbol_from_inputs(slots, #[trigger] r[k]),
{
    lemma_resolve_provenance(d, 0, section_end);
    assert forall|k: int| 0 <= k < r.len() implies symbol_from_inputs(slots, #[trigger] r[k]) by {
        assert(raw_views(r)[k] == (r[k].mangled@, r[k].address as int, r[k].size as int));
        let x = choose|x: int|
            0 <= x < d.len() && #[trigger] spec_resolve_from(d, 0, section_end)[k] == (
                d[x].mangled@,
                d[x].address as int,
                spec_slot_size(d, x, section_end),
            );
        assert(slot_in(d[x], slots));
        let u = choose|u: int| 0 <= u < slots.len() && slot_fields_eq(d[x], #[trigger] slots[u]);
        assert(r[k].mangled@ == slots[u].mangled@ && r[k].address == slots[u].address);
    }
}

/// Membership in a bounded-address list bounds the addresses.
proof fn lemma_addr_bound(base: Seq<SymbolSlot>, d: Seq<SymbolSlot>, section_end: int)
    requires
        slots_among(d, base),
        forall|i: int| 0 <= i < base.len() ==> (#[trigger] base[i]).address <= section_end,
    ensures
        forall|i: int| 0 <= i < d.len() ==> (#[trigger] d[i]).address <= section_end,
{
    assert forall|i: int| 0 <= i < d.len() implies (#[trigger] d[i]).address <= section_end by {
        assert(slot_in(d[i], base));
        let u = choose|u: int| 0 <= u < base.len() && slot_fields_eq(d[i], #[trigger] base[u]);
        assert(base[u].address <= section_end);
    }
}

/// A resolution of a strictly ordered list is itself strictly ordered.
proof fn lemma_order_transfer(d: Seq<SymbolSlot>, r: Seq<RawSymbol>, section_end: int)
    requires
        forall|x: int, y: int| 0 <= x < y < d.len() ==> d[x].address < d[y].address,
        raw_views(r) == spec_resolve_from(d, 0, section_end),
    ensures
        forall|k: int, l: int| 0 <= k < l < r.len() ==> r[k].address < r[l].address,
{
    lemma_resolve_order(d, 0, section_end);
    assert forall|k: int, l: int| 0 <= k < l < r.len() implies r[k].address < r[l].address by {
        assert(raw_views(r)[k] == (r[k].mangled@, r[k].address as int, r[k].size as int));
        assert(raw_views(r)[l] == (r[l].mangled@, r[l].address as int, r[l].size as int));
    }
}

/// Resolve one deduplicated ordering: the second half of the pipeline.
#[verifier::spinoff_prover]
fn resolve_stage(
    d: Vec<SymbolSlot>,
    Ghost(orig): Ghost<Seq<SymbolSlot>>,
    section_end: u64,
) -> (r: Vec<RawSymbol>)
    requires
        dedup_of(d@, orig),
        forall|i: int| 0 <= i < d@.len() ==> (#[trigger] d@[i]).address <= section_end,
    ensures
        forall|k: int| 0 <= k < r@.len() ==> (#[trigger] r@[k]).size > 0,
        forall|k: int, l: int| 0 <= k < l < r@.len() ==> r@[k].address < r@[l].address,
        forall|k: int| 0 <= k < r@.len() ==> symbol_from_inputs(orig, #[trigger] r@[k]),
        exists|dd: Seq<SymbolSlot>|
            #[trigger] dedup_of(dd, orig) && raw_views(r@) == spec_resolve_from(
                dd,
                0,
                section_end as int,
            ),
{
    let r = resolve_sizes(&d, section_end);
    proof {
        lemma_order_transfer(d@, r@, section_end as int);
        lemma_resolved_from_inputs(orig, d@, r@, section_end as int);
        assert(exists|dd: Seq<SymbolSlot>|
            #[trigger] dedup_of(dd, orig) && raw_views(r@) == spec_resolve_from(
                dd,
                0,
                section_end as int,
            )) by {
            assert(dedup_of(d@, orig) && raw_views(r@) == spec_resolve_from(
                d@,
                0,
                section_end as int,
            ));
        }
    }
    r
}

/// The whole post-processing of the format parser's symbol list: order by
/// address, drop duplicate addresses, derive the missing sizes against the
/// section's end, and discard the symbols with none. The result is exactly
/// the resolution of one deduplicated ordering of the input: which of two
/// slots sharing an address survives is the one point left open.
#[verifier::spinoff_prover]
pub fn resolve_symbols(slots: Vec<SymbolSlot>, section_end: u64) -> (r: Vec<RawSymbol>)
    requires
        forall|i: int| 0 <= i < slots@.len() ==> (#[trigger] slots@[i]).address <= section_end,
    ensures
        forall|k: int| 0 <= k < r@.len() ==> (#[trigger] r@[k]).size > 0,
        forall|k: int, l: int| 0 <= k < l < r@.len() ==> r@[k].address < r@[l].address,
        forall|k: int| 0 <= k < r@.len() ==> symbol_from_inputs(slots@, #[trigger] r@[k]),
        exists|d: Seq<SymbolSlot>|
            #[trigger] dedup_of(d, slots@) && raw_views(r@) == spec_resolve_from(
                d,
                0,
                section_end as int,
            ),
{
    let ghost orig = slots@;
    let sorted = sort_stage(slots);
    let deduped = dedup_by_address(&sorted);
    proof {
        lemma_among_trans(deduped@, sorted@, orig);
        lemma_covered_trans(orig, sorted@, deduped@);
        lemma_addr_bound(orig, deduped@, section_end as int);
        assert(dedup_of(deduped@, orig));
    }
    resolve_stage(deduped, Ghost(orig), section_end)
}

} // verus!
