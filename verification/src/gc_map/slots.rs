//! From one record's locations to its live set: the roots, deduplicated and
//! sorted by frame offset, and the derived slots tied to their bases.
use vstd::prelude::*;
use crate::gc_map::decode_spec::{
    add_if_root, add_root, collect_slots, flat_roots, gc_pairs_start, has_derived_slot,
    index_of, insert_derived, insert_root, is_root_slot, pair_roots, resolve_derived,
    slot_of, sort_derived, sort_roots, DerivedPair, Loc, LOCATION_CONSTANT, LOCATION_DIRECT,
    LOCATION_INDIRECT,
};

verus! {

fn contains_slot(s: &Vec<(u16, i32)>, x: (u16, i32)) -> (r: bool)
    ensures
        r == s@.contains(x),
{
    let mut i: usize = 0;
    while i < s.len()
        invariant
            i <= s.len(),
            forall|j: int| 0 <= j < i ==> s@[j] != x,
        decreases s.len() - i,
    {
        if s[i].0 == x.0 && s[i].1 == x.1 {
            assert(s@[i as int] == x);
            return true;
        }
        i += 1;
    }
    false
}

fn push_root(roots: &mut Vec<(u16, i32)>, slot: (u16, i32))
    ensures
        final(roots)@ == add_root(old(roots)@, slot),
{
    if !contains_slot(roots, slot) {
        roots.push(slot);
    }
}

fn is_root_slot_exec(l: Loc) -> (r: bool)
    ensures
        r == is_root_slot(l),
{
    (l.0 == LOCATION_DIRECT || l.0 == LOCATION_INDIRECT) && l.1 == 8
}

fn push_if_root(roots: &mut Vec<(u16, i32)>, l: Loc)
    ensures
        final(roots)@ == add_if_root(old(roots)@, l),
{
    if is_root_slot_exec(l) {
        push_root(roots, (l.2, l.3));
    }
}

/// The roots and derived pairs of one record's locations, as `collect_slots`.
pub fn collect_slots_exec(locs: &Vec<Loc>) -> (r: (Vec<(u16, i32)>, Vec<DerivedPair>))
    ensures
        (r.0@, r.1@) == collect_slots(locs@),
{
    let n = locs.len();
    let mut start: usize = 0;
    let mut paired = false;
    if n > 2 && locs[2].0 == LOCATION_CONSTANT && locs[2].3 >= 0 {
        let deopt = locs[2].3 as usize;
        if deopt <= n - 3 && (n - 3 - deopt) % 2 == 0 {
            start = 3 + deopt;
            paired = true;
        }
    }
    let mut roots: Vec<(u16, i32)> = Vec::new();
    let mut pairs: Vec<DerivedPair> = Vec::new();
    if paired {
        let count = (n - start) / 2;
        let mut j: usize = 0;
        while j < count
            invariant
                start + 2 * count == n == locs@.len(),
                j <= count,
                (roots@, pairs@) == pair_roots(locs@, start as nat, j as nat),
            decreases count - j,
        {
            let base = locs[start + 2 * j];
            let derived = locs[start + 2 * j + 1];
            if !is_root_slot_exec(base) || !is_root_slot_exec(derived) {
                push_if_root(&mut roots, base);
                push_if_root(&mut roots, derived);
            } else {
                push_root(&mut roots, (base.2, base.3));
                if !(derived.2 == base.2 && derived.3 == base.3) {
                    pairs.push((base.2, base.3, derived.2, derived.3));
                }
            }
            j += 1;
        }
        proof {
            assert(gc_pairs_start(locs@) == Some(start as nat));
        }
        (roots, pairs)
    } else {
        let mut i: usize = 0;
        while i < n
            invariant
                n == locs@.len(),
                i <= n,
                roots@ == flat_roots(locs@.take(i as int)),
            decreases n - i,
        {
            assert(locs@.take(i + 1).drop_last() =~= locs@.take(i as int));
            push_if_root(&mut roots, locs[i]);
            i += 1;
        }
        assert(locs@.take(n as int) =~= locs@);
        (roots, pairs)
    }
}

/// Where `insert_root` places `x`: after the last element whose offset is at
/// most `x`'s.
proof fn lemma_insert_root_at(s: Seq<(u16, i32)>, x: (u16, i32), k: int)
    requires
        0 <= k <= s.len(),
        forall|j: int| k <= j < s.len() ==> #[trigger] s[j].1 > x.1,
        k > 0 ==> s[k - 1].1 <= x.1,
    ensures
        insert_root(s, x) == s.take(k).push(x) + s.skip(k),
    decreases s.len(),
{
    if s.len() == 0 || s.last().1 <= x.1 {
        assert(k == s.len());
        assert(s.take(k) =~= s);
        assert(s.skip(k) =~= Seq::<(u16, i32)>::empty());
        assert(s.take(k).push(x) + s.skip(k) =~= s.push(x));
    } else {
        assert(k < s.len());
        lemma_insert_root_at(s.drop_last(), x, k);
        assert(s.drop_last().take(k) =~= s.take(k));
        assert(s.take(k).push(x) + s.skip(k) =~= (s.take(k).push(x) + s.drop_last().skip(k)).push(
            s.last(),
        ));
    }
}

proof fn lemma_insert_derived_at(s: Seq<(u32, u16, i32)>, x: (u32, u16, i32), k: int)
    requires
        0 <= k <= s.len(),
        forall|j: int| k <= j < s.len() ==> #[trigger] s[j].2 > x.2,
        k > 0 ==> s[k - 1].2 <= x.2,
    ensures
        insert_derived(s, x) == s.take(k).push(x) + s.skip(k),
    decreases s.len(),
{
    if s.len() == 0 || s.last().2 <= x.2 {
        assert(k == s.len());
        assert(s.take(k) =~= s);
        assert(s.skip(k) =~= Seq::<(u32, u16, i32)>::empty());
        assert(s.take(k).push(x) + s.skip(k) =~= s.push(x));
    } else {
        assert(k < s.len());
        lemma_insert_derived_at(s.drop_last(), x, k);
        assert(s.drop_last().take(k) =~= s.take(k));
        assert(s.take(k).push(x) + s.skip(k) =~= (s.take(k).push(x) + s.drop_last().skip(
            k,
        )).push(s.last()));
    }
}

/// The roots ordered by frame offset, equal offsets in their original order.
pub fn sort_roots_exec(s: &Vec<(u16, i32)>) -> (r: Vec<(u16, i32)>)
    ensures
        r@ == sort_roots(s@),
{
    let mut out: Vec<(u16, i32)> = Vec::new();
    let mut i: usize = 0;
    while i < s.len()
        invariant
            i <= s.len(),
            out@ == sort_roots(s@.take(i as int)),
        decreases s.len() - i,
    {
        let x = s[i];
        let mut k = out.len();
        while k > 0 && out[k - 1].1 > x.1
            invariant
                k <= out.len(),
                forall|j: int| k <= j < out.len() ==> #[trigger] out@[j].1 > x.1,
            decreases k,
        {
            k -= 1;
        }
        proof {
            lemma_insert_root_at(out@, x, k as int);
            assert(s@.take(i + 1).drop_last() =~= s@.take(i as int));
        }
        let ghost before = out@;
        out.insert(k, x);
        assert(out@ =~= before.take(k as int).push(x) + before.skip(k as int));
        i += 1;
    }
    assert(s@.take(s.len() as int) =~= s@);
    out
}

/// The derived slots ordered by frame offset, equal offsets in their order.
pub fn sort_derived_exec(s: &Vec<(u32, u16, i32)>) -> (r: Vec<(u32, u16, i32)>)
    ensures
        r@ == sort_derived(s@),
{
    let mut out: Vec<(u32, u16, i32)> = Vec::new();
    let mut i: usize = 0;
    while i < s.len()
        invariant
            i <= s.len(),
            out@ == sort_derived(s@.take(i as int)),
        decreases s.len() - i,
    {
        let x = s[i];
        let mut k = out.len();
        while k > 0 && out[k - 1].2 > x.2
            invariant
                k <= out.len(),
                forall|j: int| k <= j < out.len() ==> #[trigger] out@[j].2 > x.2,
            decreases k,
        {
            k -= 1;
        }
        proof {
            lemma_insert_derived_at(out@, x, k as int);
            assert(s@.take(i + 1).drop_last() =~= s@.take(i as int));
        }
        let ghost before = out@;
        out.insert(k, x);
        assert(out@ =~= before.take(k as int).push(x) + before.skip(k as int));
        i += 1;
    }
    assert(s@.take(s.len() as int) =~= s@);
    out
}

pub proof fn lemma_index_of(s: Seq<(u16, i32)>, x: (u16, i32))
    ensures
        index_of(s, x) matches Some(i) ==> i < s.len() && s[i as int] == x && forall|j: int|
            0 <= j < i ==> s[j] != x,
        index_of(s, x) is None ==> !s.contains(x),
    decreases s.len(),
{
    if s.len() > 0 {
        lemma_index_of(s.drop_last(), x);
        if index_of(s.drop_last(), x) is None {
            assert forall|j: int| 0 <= j < s.len() - 1 implies s[j] != x by {
                assert(s[j] == s.drop_last()[j]);
                if s[j] == x {
                    assert(s.drop_last().contains(x));
                }
            }
            if s.last() != x {
                assert forall|j: int| 0 <= j < s.len() implies s[j] != x by {
                    if j < s.len() - 1 {
                    }
                }
            }
        } else {
            let i = index_of(s.drop_last(), x)->0;
            assert(s[i as int] == s.drop_last()[i as int]);
            assert forall|j: int| 0 <= j < i implies s[j] != x by {
                assert(s[j] == s.drop_last()[j]);
            }
        }
    }
}

#[verifier::loop_isolation(false)]
fn index_of_exec(s: &Vec<(u16, i32)>, x: (u16, i32)) -> (r: Option<usize>)
    ensures
        match r {
            Some(i) => index_of(s@, x) == Some(i as nat),
            None => index_of(s@, x) is None,
        },
{
    proof {
        lemma_index_of(s@, x);
    }
    let mut i: usize = 0;
    while i < s.len()
        invariant
            i <= s.len(),
            forall|j: int| 0 <= j < i ==> s@[j] != x,
        decreases s.len() - i,
    {
        if s[i].0 == x.0 && s[i].1 == x.1 {
            proof {
                assert(s@[i as int] == x);
                match index_of(s@, x) {
                    Some(k) => {
                        if k < i {
                            assert(s@[k as int] != x);
                        }
                        if k > i {
                            assert(s@[i as int] != x);
                        }
                    },
                    None => {
                        assert(s@.contains(x));
                    },
                }
            }
            return Some(i);
        }
        i += 1;
    }
    proof {
        if let Some(k) = index_of(s@, x) {
            assert(s@[k as int] != x);
        }
    }
    None
}

fn has_derived_slot_exec(d: &Vec<(u32, u16, i32)>, reg: u16, off: i32) -> (r: bool)
    ensures
        r == has_derived_slot(d@, reg, off),
{
    let mut i: usize = 0;
    while i < d.len()
        invariant
            i <= d.len(),
            forall|k: int| 0 <= k < i ==> !(d@[k].1 == reg && d@[k].2 == off),
        decreases d.len() - i,
    {
        if d[i].1 == reg && d[i].2 == off {
            return true;
        }
        i += 1;
    }
    false
}

/// Tie each derived pair to its base's index in the sorted roots, as
/// `resolve_derived`.
pub fn resolve_derived_exec(pairs: &Vec<DerivedPair>, roots: &Vec<(u16, i32)>) -> (r: Vec<
    (u32, u16, i32),
>)
    ensures
        r@ == resolve_derived(pairs@, roots@),
{
    let mut out: Vec<(u32, u16, i32)> = Vec::new();
    let mut i: usize = 0;
    while i < pairs.len()
        invariant
            i <= pairs.len(),
            out@ == resolve_derived(pairs@.take(i as int), roots@),
        decreases pairs.len() - i,
    {
        let (base_reg, base_off, d_reg, d_off) = pairs[i];
        assert(pairs@.take(i + 1).drop_last() =~= pairs@.take(i as int));
        assert(pairs@.take(i + 1).last() == pairs@[i as int]);
        if !contains_slot(roots, (d_reg, d_off)) {
            match index_of_exec(roots, (base_reg, base_off)) {
                None => {},
                Some(base_index) => {
                    if !has_derived_slot_exec(&out, d_reg, d_off) {
                        out.push((base_index as u32, d_reg, d_off));
                    }
                },
            }
        }
        i += 1;
    }
    assert(pairs@.take(pairs.len() as int) =~= pairs@);
    out
}

} // verus!
