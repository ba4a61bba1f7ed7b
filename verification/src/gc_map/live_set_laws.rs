//! The shape of every decoded live set: roots deduplicated and ordered by
//! frame offset, derived slots ordered the same way, each slot listed once
//! and never also as a root.
use vstd::prelude::*;
use crate::gc_map::decode_spec::{
    add_if_root, add_root, collect_slots, flat_roots, gc_pairs_start, has_derived_slot,
    insert_derived, insert_root, pair_roots, record_of, resolve_derived, sort_derived, sort_roots,
    DerivedPair, Loc,
};
use crate::gc_map::model::RecordModel;

verus! {

/// Ordered by frame offset (equal offsets may repeat with different
/// registers).
pub open spec fn roots_sorted(s: Seq<(u16, i32)>) -> bool {
    forall|i: int, j: int| 0 <= i < j < s.len() ==> s[i].1 <= s[j].1
}

pub open spec fn roots_distinct(s: Seq<(u16, i32)>) -> bool {
    forall|i: int, j: int| 0 <= i < j < s.len() ==> s[i] != s[j]
}

pub open spec fn derived_sorted(d: Seq<(u32, u16, i32)>) -> bool {
    forall|i: int, j: int| 0 <= i < j < d.len() ==> d[i].2 <= d[j].2
}

/// No entry occurs twice.
pub open spec fn entries_distinct(d: Seq<(u32, u16, i32)>) -> bool {
    forall|i: int, j: int| 0 <= i < j < d.len() ==> d[i] != d[j]
}

/// No two derived entries name the same frame slot.
pub open spec fn derived_slots_distinct(d: Seq<(u32, u16, i32)>) -> bool {
    forall|i: int, j: int| 0 <= i < j < d.len() ==> (d[i].1, d[i].2) != (d[j].1, d[j].2)
}

/// No derived slot is also a root.
pub open spec fn derived_apart_from_roots(d: Seq<(u32, u16, i32)>, roots: Seq<(u16, i32)>) -> bool {
    forall|k: int| 0 <= k < d.len() ==> !roots.contains((d[k].1, d[k].2))
}

/// What the runtime relies on of a record's live set.
pub open spec fn canonical_live_set(r: RecordModel) -> bool {
    &&& roots_sorted(r.roots)
    &&& roots_distinct(r.roots)
    &&& derived_sorted(r.derived)
    &&& derived_slots_distinct(r.derived)
    &&& derived_apart_from_roots(r.derived, r.roots)
}

proof fn lemma_insert_root(s: Seq<(u16, i32)>, x: (u16, i32))
    ensures
        insert_root(s, x).len() == s.len() + 1,
        forall|y: (u16, i32)| #[trigger] insert_root(s, x).contains(y) <==> (s.contains(y) || y == x),
        roots_sorted(s) ==> roots_sorted(insert_root(s, x)),
        roots_distinct(s) && !s.contains(x) ==> roots_distinct(insert_root(s, x)),
    decreases s.len(),
{
    let r = insert_root(s, x);
    if s.len() == 0 || s.last().1 <= x.1 {
        assert forall|y: (u16, i32)| #[trigger] r.contains(y) <==> (s.contains(y) || y == x) by {
            if r.contains(y) {
                let k = choose|k: int| 0 <= k < r.len() && r[k] == y;
                if k < s.len() {
                    assert(s[k] == y);
                }
            }
            if s.contains(y) {
                let k = choose|k: int| 0 <= k < s.len() && s[k] == y;
                assert(r[k] == y);
            }
            if y == x {
                assert(r[s.len() as int] == y);
            }
        }
        if roots_sorted(s) && s.len() > 0 {
            assert forall|i: int, j: int| 0 <= i < j < r.len() implies r[i].1 <= r[j].1 by {
                if j == s.len() {
                    assert(s[i].1 <= s[s.len() - 1].1 || i == s.len() - 1);
                }
            }
        }
    } else {
        let s2 = s.drop_last();
        let last = s.last();
        lemma_insert_root(s2, x);
        let t = insert_root(s2, x);
        assert(r == t.push(last));
        assert forall|y: (u16, i32)| #[trigger] r.contains(y) <==> (s.contains(y) || y == x) by {
            if r.contains(y) {
                let k = choose|k: int| 0 <= k < r.len() && r[k] == y;
                if k < t.len() {
                    assert(t[k] == y);
                    assert(t.contains(y));
                    if s2.contains(y) {
                        let m = choose|m: int| 0 <= m < s2.len() && s2[m] == y;
                        assert(s[m] == y);
                    }
                } else {
                    assert(s[s.len() - 1] == y);
                }
            }
            if s.contains(y) {
                let k = choose|k: int| 0 <= k < s.len() && s[k] == y;
                if k < s.len() - 1 {
                    assert(s2[k] == y);
                    assert(s2.contains(y));
                    assert(t.contains(y));
                    let m = choose|m: int| 0 <= m < t.len() && t[m] == y;
                    assert(r[m] == y);
                } else {
                    assert(r[t.len() as int] == y);
                }
            }
            if y == x {
                assert(t.contains(x));
                let m = choose|m: int| 0 <= m < t.len() && t[m] == x;
                assert(r[m] == y);
            }
        }
        if roots_sorted(s) {
            assert(roots_sorted(s2)) by {
                assert forall|i: int, j: int| 0 <= i < j < s2.len() implies s2[i].1 <= s2[j].1 by {
                    assert(s2[i] == s[i] && s2[j] == s[j]);
                }
            }
            assert forall|i: int, j: int| 0 <= i < j < r.len() implies r[i].1 <= r[j].1 by {
                if j == t.len() {
                    assert(t.contains(t[i]));
                    if t[i] != x {
                        assert(s2.contains(t[i]));
                        let m = choose|m: int| 0 <= m < s2.len() && s2[m] == t[i];
                        assert(s[m] == t[i]);
                        assert(s[m].1 <= s[s.len() - 1].1);
                    }
                } else {
                    assert(r[i] == t[i] && r[j] == t[j]);
                }
            }
        }
        if roots_distinct(s) && !s.contains(x) {
            assert(roots_distinct(s2)) by {
                assert forall|i: int, j: int| 0 <= i < j < s2.len() implies s2[i] != s2[j] by {
                    assert(s2[i] == s[i] && s2[j] == s[j]);
                }
            }
            assert(!s2.contains(x)) by {
                if s2.contains(x) {
                    let m = choose|m: int| 0 <= m < s2.len() && s2[m] == x;
                    assert(s[m] == x);
                }
            }
            assert(!t.contains(last)) by {
                if t.contains(last) {
                    if s2.contains(last) {
                        let m = choose|m: int| 0 <= m < s2.len() && s2[m] == last;
                        assert(s[m] == s[s.len() - 1]);
                    } else {
                        assert(last == x);
                        assert(s[s.len() - 1] == x);
                    }
                }
            }
            assert forall|i: int, j: int| 0 <= i < j < r.len() implies r[i] != r[j] by {
                if j == t.len() {
                    assert(t.contains(t[i]));
                } else {
                    assert(r[i] == t[i] && r[j] == t[j]);
                }
            }
        }
    }
}

proof fn lemma_sort_roots(s: Seq<(u16, i32)>)
    ensures
        sort_roots(s).len() == s.len(),
        forall|y: (u16, i32)| #[trigger] sort_roots(s).contains(y) <==> s.contains(y),
        roots_sorted(sort_roots(s)),
        roots_distinct(s) ==> roots_distinct(sort_roots(s)),
    decreases s.len(),
{
    if s.len() > 0 {
        let s2 = s.drop_last();
        lemma_sort_roots(s2);
        lemma_insert_root(sort_roots(s2), s.last());
        assert forall|y: (u16, i32)| #[trigger] sort_roots(s).contains(y) <==> s.contains(y) by {
            if s.contains(y) {
                let k = choose|k: int| 0 <= k < s.len() && s[k] == y;
                if k < s.len() - 1 {
                    assert(s2[k] == y);
                    assert(s2.contains(y));
                }
            }
            if s2.contains(y) {
                let k = choose|k: int| 0 <= k < s2.len() && s2[k] == y;
                assert(s[k] == y);
            }
            assert(sort_roots(s2).contains(y) <==> s2.contains(y));
        }
        if roots_distinct(s) {
            assert(roots_distinct(s2)) by {
                assert forall|i: int, j: int| 0 <= i < j < s2.len() implies s2[i] != s2[j] by {
                    assert(s2[i] == s[i] && s2[j] == s[j]);
                }
            }
            assert(!sort_roots(s2).contains(s.last())) by {
                if s2.contains(s.last()) {
                    let m = choose|m: int| 0 <= m < s2.len() && s2[m] == s.last();
                    assert(s[m] == s[s.len() - 1]);
                }
            }
        }
    }
}

proof fn lemma_add_root(roots: Seq<(u16, i32)>, slot: (u16, i32))
    requires
        roots_distinct(roots),
    ensures
        roots_distinct(add_root(roots, slot)),
{
    if !roots.contains(slot) {
        let r = roots.push(slot);
        assert forall|i: int, j: int| 0 <= i < j < r.len() implies r[i] != r[j] by {
            if j == roots.len() {
                assert(r[i] == roots[i]);
            }
        }
    }
}

proof fn lemma_add_if_root(roots: Seq<(u16, i32)>, l: Loc)
    requires
        roots_distinct(roots),
    ensures
        roots_distinct(add_if_root(roots, l)),
{
    if crate::gc_map::decode_spec::is_root_slot(l) {
        lemma_add_root(roots, crate::gc_map::decode_spec::slot_of(l));
    }
}

proof fn lemma_flat_roots_distinct(locs: Seq<Loc>)
    ensures
        roots_distinct(flat_roots(locs)),
    decreases locs.len(),
{
    if locs.len() > 0 {
        lemma_flat_roots_distinct(locs.drop_last());
        lemma_add_if_root(flat_roots(locs.drop_last()), locs.last());
    }
}

proof fn lemma_pair_roots_distinct(locs: Seq<Loc>, start: nat, n: nat)
    ensures
        roots_distinct(pair_roots(locs, start, n).0),
    decreases n,
{
    if n > 0 {
        lemma_pair_roots_distinct(locs, start, (n - 1) as nat);
        let roots = pair_roots(locs, start, (n - 1) as nat).0;
        let base = locs[start + 2 * (n - 1)];
        let derived = locs[start + 2 * (n - 1) + 1];
        lemma_add_if_root(roots, base);
        lemma_add_if_root(add_if_root(roots, base), derived);
        lemma_add_root(roots, crate::gc_map::decode_spec::slot_of(base));
    }
}

proof fn lemma_collect_roots_distinct(locs: Seq<Loc>)
    ensures
        roots_distinct(collect_slots(locs).0),
{
    match gc_pairs_start(locs) {
        Some(start) if start <= locs.len() && (locs.len() - start) % 2 == 0 => {
            lemma_pair_roots_distinct(locs, start, ((locs.len() - start) / 2) as nat);
        },
        _ => {
            lemma_flat_roots_distinct(locs);
        },
    }
}

proof fn lemma_resolve_derived(pairs: Seq<DerivedPair>, roots: Seq<(u16, i32)>)
    ensures
        derived_slots_distinct(resolve_derived(pairs, roots)),
        derived_apart_from_roots(resolve_derived(pairs, roots), roots),
    decreases pairs.len(),
{
    if pairs.len() > 0 {
        lemma_resolve_derived(pairs.drop_last(), roots);
        let acc = resolve_derived(pairs.drop_last(), roots);
        let (base_reg, base_off, d_reg, d_off) = pairs.last();
        if !roots.contains((d_reg, d_off)) {
            if let Some(bi) = crate::gc_map::decode_spec::index_of(roots, (base_reg, base_off)) {
                if !has_derived_slot(acc, d_reg, d_off) {
                    let x = (bi as u32, d_reg, d_off);
                    let r = acc.push(x);
                    assert forall|i: int, j: int| 0 <= i < j < r.len() implies (r[i].1, r[i].2) != (
                        r[j].1,
                        r[j].2,
                    ) by {
                        if j == acc.len() {
                            assert(r[i] == acc[i]);
                            if (acc[i].1, acc[i].2) == (d_reg, d_off) {
                                assert(has_derived_slot(acc, d_reg, d_off));
                            }
                        }
                    }
                    assert forall|k: int| 0 <= k < r.len() implies !roots.contains((r[k].1, r[k].2)) by {
                        if k < acc.len() {
                            assert(r[k] == acc[k]);
                        }
                    }
                }
            }
        }
    }
}

proof fn lemma_insert_derived(s: Seq<(u32, u16, i32)>, x: (u32, u16, i32))
    ensures
        insert_derived(s, x).len() == s.len() + 1,
        forall|y: (u32, u16, i32)| #[trigger] insert_derived(s, x).contains(y) <==> (s.contains(y)
            || y == x),
        derived_sorted(s) ==> derived_sorted(insert_derived(s, x)),
        entries_distinct(s) && !s.contains(x) ==> entries_distinct(insert_derived(s, x)),
    decreases s.len(),
{
    let r = insert_derived(s, x);
    if s.len() == 0 || s.last().2 <= x.2 {
        assert forall|y: (u32, u16, i32)| #[trigger] r.contains(y) <==> (s.contains(y) || y == x) by {
            if r.contains(y) {
                let k = choose|k: int| 0 <= k < r.len() && r[k] == y;
                if k < s.len() {
                    assert(s[k] == y);
                }
            }
            if s.contains(y) {
                let k = choose|k: int| 0 <= k < s.len() && s[k] == y;
                assert(r[k] == y);
            }
            if y == x {
                assert(r[s.len() as int] == y);
            }
        }
        if derived_sorted(s) && s.len() > 0 {
            assert forall|i: int, j: int| 0 <= i < j < r.len() implies r[i].2 <= r[j].2 by {
                if j == s.len() {
                    assert(s[i].2 <= s[s.len() - 1].2 || i == s.len() - 1);
                }
            }
        }
        if entries_distinct(s) && !s.contains(x) {
            assert forall|i: int, j: int| 0 <= i < j < r.len() implies r[i] != r[j] by {
                if j == s.len() {
                    assert(r[i] == s[i]);
                }
            }
        }
    } else {
        let s2 = s.drop_last();
        let last = s.last();
        lemma_insert_derived(s2, x);
        let t = insert_derived(s2, x);
        assert(r == t.push(last));
        assert forall|y: (u32, u16, i32)| #[trigger] r.contains(y) <==> (s.contains(y) || y == x) by {
            if r.contains(y) {
                let k = choose|k: int| 0 <= k < r.len() && r[k] == y;
                if k < t.len() {
                    assert(t[k] == y);
                    assert(t.contains(y));
                    if s2.contains(y) {
                        let m = choose|m: int| 0 <= m < s2.len() && s2[m] == y;
                        assert(s[m] == y);
                    }
                } else {
                    assert(s[s.len() - 1] == y);
                }
            }
            if s.contains(y) {
                let k = choose|k: int| 0 <= k < s.len() && s[k] == y;
                if k < s.len() - 1 {
                    assert(s2[k] == y);
                    assert(s2.contains(y));
                    assert(t.contains(y));
                    let m = choose|m: int| 0 <= m < t.len() && t[m] == y;
                    assert(r[m] == y);
                } else {
                    assert(r[t.len() as int] == y);
                }
            }
            if y == x {
                assert(t.contains(x));
                let m = choose|m: int| 0 <= m < t.len() && t[m] == x;
                assert(r[m] == y);
            }
        }
        if derived_sorted(s) {
            assert(derived_sorted(s2)) by {
                assert forall|i: int, j: int| 0 <= i < j < s2.len() implies s2[i].2 <= s2[j].2 by {
                    assert(s2[i] == s[i] && s2[j] == s[j]);
                }
            }
            assert forall|i: int, j: int| 0 <= i < j < r.len() implies r[i].2 <= r[j].2 by {
                if j == t.len() {
                    assert(t.contains(t[i]));
                    if t[i] != x {
                        assert(s2.contains(t[i]));
                        let m = choose|m: int| 0 <= m < s2.len() && s2[m] == t[i];
                        assert(s[m] == t[i]);
                        assert(s[m].2 <= s[s.len() - 1].2);
                    }
                } else {
                    assert(r[i] == t[i] && r[j] == t[j]);
                }
            }
        }
        if entries_distinct(s) && !s.contains(x) {
            assert forall|i: int, j: int| 0 <= i < j < s2.len() implies s2[i] != s2[j] by {
                assert(s2[i] == s[i] && s2[j] == s[j]);
            }
            assert(!s2.contains(x)) by {
                if s2.contains(x) {
                    let m = choose|m: int| 0 <= m < s2.len() && s2[m] == x;
                    assert(s[m] == x);
                }
            }
            assert(!t.contains(last)) by {
                if t.contains(last) {
                    if s2.contains(last) {
                        let m = choose|m: int| 0 <= m < s2.len() && s2[m] == last;
                        assert(s[m] == s[s.len() - 1]);
                    } else {
                        assert(s[s.len() - 1] == x);
                    }
                }
            }
            assert forall|i: int, j: int| 0 <= i < j < r.len() implies r[i] != r[j] by {
                if j == t.len() {
                    assert(t.contains(t[i]));
                } else {
                    assert(r[i] == t[i] && r[j] == t[j]);
                }
            }
        }
    }
}

proof fn lemma_sort_derived(s: Seq<(u32, u16, i32)>)
    ensures
        sort_derived(s).len() == s.len(),
        forall|y: (u32, u16, i32)| #[trigger] sort_derived(s).contains(y) <==> s.contains(y),
        derived_sorted(sort_derived(s)),
        entries_distinct(s) ==> entries_distinct(sort_derived(s)),
    decreases s.len(),
{
    if s.len() > 0 {
        let s2 = s.drop_last();
        lemma_sort_derived(s2);
        lemma_insert_derived(sort_derived(s2), s.last());
        assert forall|y: (u32, u16, i32)| #[trigger] sort_derived(s).contains(y) <==> s.contains(y) by {
            if s.contains(y) {
                let k = choose|k: int| 0 <= k < s.len() && s[k] == y;
                if k < s.len() - 1 {
                    assert(s2[k] == y);
                    assert(s2.contains(y));
                }
            }
            if s2.contains(y) {
                let k = choose|k: int| 0 <= k < s2.len() && s2[k] == y;
                assert(s[k] == y);
            }
            assert(sort_derived(s2).contains(y) <==> s2.contains(y));
        }
        if entries_distinct(s) {
            assert forall|i: int, j: int| 0 <= i < j < s2.len() implies s2[i] != s2[j] by {
                assert(s2[i] == s[i] && s2[j] == s[j]);
            }
            assert(!sort_derived(s2).contains(s.last())) by {
                if s2.contains(s.last()) {
                    let m = choose|m: int| 0 <= m < s2.len() && s2[m] == s.last();
                    assert(s[m] == s[s.len() - 1]);
                }
            }
        }
    }
}

/// A derived list whose slots are distinct has no repeated entry, and any
/// distinct-entry list drawn from it keeps its slots distinct.
proof fn lemma_slots_distinct_subset(s: Seq<(u32, u16, i32)>, r: Seq<(u32, u16, i32)>)
    requires
        derived_slots_distinct(s),
        entries_distinct(r),
        forall|y: (u32, u16, i32)| r.contains(y) ==> s.contains(y),
    ensures
        derived_slots_distinct(r),
{
    assert forall|i: int, j: int| 0 <= i < j < r.len() implies (r[i].1, r[i].2) != (r[j].1, r[j].2) by {
        assert(r.contains(r[i]) && r.contains(r[j]));
        let p = choose|p: int| 0 <= p < s.len() && s[p] == r[i];
        let q = choose|q: int| 0 <= q < s.len() && s[q] == r[j];
        assert(p != q);
        if p < q {
        } else {
        }
    }
}

/// Every record the decoder builds has a canonical live set: its roots are
/// deduplicated and ordered by frame offset, its derived slots are ordered by
/// frame offset, and each derived slot appears once and is never also a
/// root.
pub proof fn lemma_record_of_canonical(expr: Seq<char>, locs: Seq<Loc>)
    ensures
        canonical_live_set(record_of(expr, locs)),
{
    let (roots, pairs) = collect_slots(locs);
    lemma_collect_roots_distinct(locs);
    lemma_sort_roots(roots);
    let sorted = sort_roots(roots);
    let unsorted = resolve_derived(pairs, sorted);
    lemma_resolve_derived(pairs, sorted);
    assert forall|i: int, j: int| 0 <= i < j < unsorted.len() implies #[trigger] unsorted[i] != #[trigger] unsorted[j] by {
        assert((unsorted[i].1, unsorted[i].2) != (unsorted[j].1, unsorted[j].2));
    }
    lemma_sort_derived(unsorted);
    let d = sort_derived(unsorted);
    lemma_slots_distinct_subset(unsorted, d);
    assert forall|k: int| 0 <= k < d.len() implies !sorted.contains((d[k].1, d[k].2)) by {
        assert(d.contains(d[k]));
        assert(unsorted.contains(d[k]));
        let p = choose|p: int| 0 <= p < unsorted.len() && unsorted[p] == d[k];
    }
}

} // verus!
