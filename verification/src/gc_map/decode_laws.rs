//! What every decoded live set satisfies.
use vstd::prelude::*;
use crate::gc_map::decode_spec::{
    add_if_root, add_root, collect_slots, decode_from, decode_functions, decode_finish,
    decode_locations, decode_map, decode_record, decode_records, decode_spec, flat_roots,
    gc_pairs_start, index_of, insert_derived, insert_root, le_val, pair_roots, read_le,
    record_of, resolve_derived, sort_derived, sort_roots, DecodeError, DerivedPair, Loc,
};
use crate::gc_map::model::{FunctionModel, RecordModel};
use crate::gc_map::roundtrip::{wf_live_set, wf_stack_map};
use crate::gc_map::slots::lemma_index_of;
use crate::gc_map::live_set_laws::{canonical_live_set, lemma_record_of_canonical};

verus! {

proof fn lemma_flat_roots_len(locs: Seq<Loc>)
    ensures
        flat_roots(locs).len() <= locs.len(),
    decreases locs.len(),
{
    if locs.len() > 0 {
        lemma_flat_roots_len(locs.drop_last());
    }
}

proof fn lemma_pair_roots_len(locs: Seq<Loc>, start: nat, n: nat)
    ensures
        pair_roots(locs, start, n).0.len() <= 2 * n,
        pair_roots(locs, start, n).1.len() <= n,
    decreases n,
{
    if n > 0 {
        lemma_pair_roots_len(locs, start, (n - 1) as nat);
    }
}

proof fn lemma_collect_slots_len(locs: Seq<Loc>)
    ensures
        collect_slots(locs).0.len() <= locs.len(),
        collect_slots(locs).1.len() <= locs.len(),
{
    match gc_pairs_start(locs) {
        Some(start) if start <= locs.len() && (locs.len() - start) % 2 == 0 => {
            lemma_pair_roots_len(locs, start, ((locs.len() - start) / 2) as nat);
        },
        _ => {
            lemma_flat_roots_len(locs);
        },
    }
}

proof fn lemma_insert_root_len(s: Seq<(u16, i32)>, x: (u16, i32))
    ensures
        insert_root(s, x).len() == s.len() + 1,
    decreases s.len(),
{
    if !(s.len() == 0 || s.last().1 <= x.1) {
        lemma_insert_root_len(s.drop_last(), x);
    }
}

pub proof fn lemma_sort_roots_len(s: Seq<(u16, i32)>)
    ensures
        sort_roots(s).len() == s.len(),
    decreases s.len(),
{
    if s.len() > 0 {
        lemma_sort_roots_len(s.drop_last());
        lemma_insert_root_len(sort_roots(s.drop_last()), s.last());
    }
}

proof fn lemma_insert_derived_bound(s: Seq<(u32, u16, i32)>, x: (u32, u16, i32), n: nat)
    requires
        forall|k: int| 0 <= k < s.len() ==> (#[trigger] s[k]).0 < n,
        x.0 < n,
    ensures
        insert_derived(s, x).len() == s.len() + 1,
        forall|k: int| 0 <= k < insert_derived(s, x).len() ==> (#[trigger] insert_derived(s, x)[k]).0
            < n,
    decreases s.len(),
{
    if !(s.len() == 0 || s.last().2 <= x.2) {
        lemma_insert_derived_bound(s.drop_last(), x, n);
        let t = insert_derived(s.drop_last(), x);
        assert forall|k: int| 0 <= k < t.push(s.last()).len() implies (#[trigger] t.push(
            s.last(),
        )[k]).0 < n by {
            if k < t.len() {
            } else {
                assert(s.last() == s[s.len() - 1]);
            }
        }
    } else {
        assert forall|k: int| 0 <= k < s.push(x).len() implies (#[trigger] s.push(x)[k]).0 < n by {
            if k < s.len() {
            }
        }
    }
}

proof fn lemma_sort_derived_bound(s: Seq<(u32, u16, i32)>, n: nat)
    requires
        forall|k: int| 0 <= k < s.len() ==> (#[trigger] s[k]).0 < n,
    ensures
        sort_derived(s).len() == s.len(),
        forall|k: int| 0 <= k < sort_derived(s).len() ==> (#[trigger] sort_derived(s)[k]).0 < n,
    decreases s.len(),
{
    if s.len() > 0 {
        assert forall|k: int| 0 <= k < s.drop_last().len() implies (#[trigger] s.drop_last()[k]).0
            < n by {
            assert(s.drop_last()[k] == s[k]);
        }
        lemma_sort_derived_bound(s.drop_last(), n);
        assert(s.last() == s[s.len() - 1]);
        lemma_insert_derived_bound(sort_derived(s.drop_last()), s.last(), n);
    }
}

proof fn lemma_resolve_derived_bound(pairs: Seq<DerivedPair>, roots: Seq<(u16, i32)>)
    requires
        roots.len() < 0x1_0000_0000,
    ensures
        resolve_derived(pairs, roots).len() <= pairs.len(),
        forall|k: int|
            0 <= k < resolve_derived(pairs, roots).len() ==> (#[trigger] resolve_derived(
                pairs,
                roots,
            )[k]).0 < roots.len(),
    decreases pairs.len(),
{
    if pairs.len() > 0 {
        lemma_resolve_derived_bound(pairs.drop_last(), roots);
        let acc = resolve_derived(pairs.drop_last(), roots);
        let (base_reg, base_off, d_reg, d_off) = pairs.last();
        lemma_index_of(roots, (base_reg, base_off));
        if let Some(bi) = index_of(roots, (base_reg, base_off)) {
            let x = (bi as u32, d_reg, d_off);
            assert(x.0 == bi);
            assert forall|k: int| 0 <= k < acc.push(x).len() implies (#[trigger] acc.push(x)[k]).0
                < roots.len() by {
                if k < acc.len() {
                }
            }
        }
    }
}

/// A record decoded from at most 65535 locations is well-formed: its roots
/// and derived slots are few, and every derived slot names one of its roots.
pub proof fn lemma_record_of_wf(expr: Seq<char>, locs: Seq<Loc>)
    requires
        locs.len() <= 0xffff,
    ensures
        wf_live_set(record_of(expr, locs)),
        record_of(expr, locs).roots.len() <= locs.len(),
{
    let (roots, pairs) = collect_slots(locs);
    lemma_collect_slots_len(locs);
    let sorted = sort_roots(roots);
    lemma_sort_roots_len(roots);
    lemma_resolve_derived_bound(pairs, sorted);
    lemma_sort_derived_bound(resolve_derived(pairs, sorted), sorted.len());
}

proof fn lemma_locations_len(
    b: Seq<u8>,
    symbol: Seq<char>,
    index: nat,
    pos: nat,
    i: nat,
    count: nat,
    acc: Seq<Loc>,
)
    requires
        i <= count,
    ensures
        decode_locations(b, symbol, index, pos, i, count, acc) matches Ok((_, locs)) ==> locs.len()
            == acc.len() + (count - i),
    decreases count - i,
{
    if i < count {
        if let Some(l) = crate::gc_map::decode_spec::read_location(b, pos) {
            lemma_locations_len(b, symbol, index, pos + 12, i + 1, count, acc.push(l));
        }
    }
}

/// What the decoder guarantees of each record it builds.
pub open spec fn decoded_live_set(r: RecordModel) -> bool {
    wf_live_set(r) && canonical_live_set(r)
}

pub open spec fn decoded_stack_map(fs: Seq<FunctionModel>) -> bool {
    forall|f: int, i: int|
        0 <= f < fs.len() && 0 <= i < fs[f].records.len() ==> decoded_live_set(
            #[trigger] fs[f].records[i],
        )
}

proof fn lemma_decode_record_wf(
    b: Seq<u8>,
    syms: Seq<(nat, Seq<char>)>,
    symbol: Seq<char>,
    index: nat,
    pos: nat,
)
    ensures
        decode_record(b, syms, symbol, index, pos) matches Ok((_, r)) ==> decoded_live_set(r),
{
    if let Some(lc) = read_le(b, pos + 14, 2) {
        crate::gc_map::decode::lemma_le_val_bound(b, pos + 14, 2);
        crate::gc_map::decode::lemma_pow256_values();
        lemma_locations_len(b, symbol, index, pos + 16, 0, lc, Seq::empty());
        if let Ok((_, locs)) = decode_locations(b, symbol, index, pos + 16, 0, lc, Seq::empty()) {
            lemma_record_of_wf(crate::gc_map::decode_spec::offset_expr_at(b, syms, pos), locs);
            lemma_record_of_canonical(crate::gc_map::decode_spec::offset_expr_at(b, syms, pos), locs);
        }
    }
}

pub open spec fn records_wf(rs: Seq<RecordModel>) -> bool {
    forall|j: int| 0 <= j < rs.len() ==> decoded_live_set(#[trigger] rs[j])
}

proof fn lemma_decode_records_wf(
    b: Seq<u8>,
    syms: Seq<(nat, Seq<char>)>,
    symbol: Seq<char>,
    pos: nat,
    i: nat,
    count: nat,
    acc: Seq<RecordModel>,
)
    requires
        records_wf(acc),
    ensures
        decode_records(b, syms, symbol, pos, i, count, acc) matches Ok((_, rs)) ==> records_wf(rs),
    decreases count - i,
{
    if i < count {
        lemma_decode_record_wf(b, syms, symbol, i, pos);
        if let Ok((next, r)) = decode_record(b, syms, symbol, i, pos) {
            assert(records_wf(acc.push(r))) by {
                assert forall|j: int| 0 <= j < acc.push(r).len() implies decoded_live_set(
                    #[trigger] acc.push(r)[j],
                ) by {
                    if j < acc.len() {
                        assert(acc.push(r)[j] == acc[j]);
                    }
                }
            }
            lemma_decode_records_wf(b, syms, symbol, next, i + 1, count, acc.push(r));
        }
    }
}

proof fn lemma_push_function_wf(fs: Seq<FunctionModel>, f: FunctionModel)
    requires
        decoded_stack_map(fs),
        records_wf(f.records),
    ensures
        decoded_stack_map(fs.push(f)),
{
    assert forall|g: int, i: int|
        0 <= g < fs.push(f).len() && 0 <= i < fs.push(f)[g].records.len() implies decoded_live_set(
        #[trigger] fs.push(f)[g].records[i],
    ) by {
        if g < fs.len() {
            assert(fs.push(f)[g] == fs[g]);
        }
    }
}

proof fn lemma_decode_functions_wf(
    b: Seq<u8>,
    syms: Seq<(nat, Seq<char>)>,
    pos: nat,
    heads: Seq<(Seq<char>, u64, nat)>,
    f: nat,
    acc: Seq<FunctionModel>,
)
    requires
        decoded_stack_map(acc),
    ensures
        decode_functions(b, syms, pos, heads, f, acc) matches Ok((_, fs)) ==> decoded_stack_map(fs),
    decreases heads.len() - f,
{
    if f < heads.len() {
        let (symbol, stack_size, count) = heads[f as int];
        lemma_decode_records_wf(b, syms, symbol, pos, 0, count, Seq::empty());
        if let Ok((next, records)) = decode_records(b, syms, symbol, pos, 0, count, Seq::empty()) {
            let fm = FunctionModel { symbol, stack_size, records };
            lemma_push_function_wf(acc, fm);
            lemma_decode_functions_wf(b, syms, next, heads, f + 1, acc.push(fm));
        }
    }
}

proof fn lemma_concat_wf(a: Seq<FunctionModel>, c: Seq<FunctionModel>)
    requires
        decoded_stack_map(a),
        decoded_stack_map(c),
    ensures
        decoded_stack_map(a + c),
{
    assert forall|g: int, i: int|
        0 <= g < (a + c).len() && 0 <= i < (a + c)[g].records.len() implies decoded_live_set(
        #[trigger] (a + c)[g].records[i],
    ) by {
        if g < a.len() {
            assert((a + c)[g] == a[g]);
        } else {
            assert((a + c)[g] == c[g - a.len()]);
        }
    }
}

proof fn lemma_decode_from_wf(
    b: Seq<u8>,
    syms: Seq<(nat, Seq<char>)>,
    pos: nat,
    maps: nat,
    out: Seq<FunctionModel>,
)
    requires
        decoded_stack_map(out),
    ensures
        decode_from(b, syms, pos, maps, out) matches Ok(fs) ==> decoded_stack_map(fs),
    decreases b.len() - pos,
{
    if pos + 16 > b.len() {
    } else if b[pos as int] != 3 {
        lemma_decode_from_wf(b, syms, pos + 1, maps, out);
    } else {
        let function_count = le_val(b, pos + 4, 4);
        let constant_count = le_val(b, pos + 8, 4);
        if let Ok((after_heads, expected, heads)) = crate::gc_map::decode_spec::decode_heads(
            b,
            syms,
            maps + 1,
            pos + 16,
            0,
            function_count,
            0,
            Seq::empty(),
        ) {
            lemma_decode_functions_wf(
                b,
                syms,
                after_heads + constant_count * 8,
                heads,
                0,
                Seq::empty(),
            );
        }
        if let Ok((next, fs)) = decode_map(b, syms, pos, maps + 1) {
            lemma_concat_wf(out, fs);
            if next + 16 <= b.len() {
                crate::gc_map::decode_spec::lemma_decode_map_advances(b, syms, pos, maps + 1);
                lemma_decode_from_wf(b, syms, next, maps + 1, out + fs);
            }
        }
    }
}

/// Every stack map the decoder produces has at least one function and is
/// well-formed, so its compact stream always verifies (see
/// `lemma_encode_stream_roundtrip`), and every
/// record's live set is canonical: roots deduplicated and ordered by frame
/// offset, derived slots ordered the same way, listed once and never also
/// as roots.
pub proof fn lemma_decode_wf(b: Seq<u8>, syms: Seq<(nat, Seq<char>)>)
    ensures
        decode_spec(b, syms) matches Ok(fs) ==> fs.len() > 0 && wf_stack_map(fs) && forall|f: int, i: int|
            0 <= f < fs.len() && 0 <= i < fs[f].records.len() ==> canonical_live_set(
                #[trigger] fs[f].records[i],
            ),
{
    lemma_decode_from_wf(b, syms, 0, 0, Seq::empty());
    lemma_decode_from_nonempty(b, syms, 0, 0, Seq::empty());
}

proof fn lemma_decode_from_nonempty(
    b: Seq<u8>,
    syms: Seq<(nat, Seq<char>)>,
    pos: nat,
    maps: nat,
    out: Seq<FunctionModel>,
)
    ensures
        decode_from(b, syms, pos, maps, out) matches Ok(fs) ==> fs.len() > 0,
    decreases b.len() - pos,
{
    if pos + 16 <= b.len() {
        if b[pos as int] != 3 {
            lemma_decode_from_nonempty(b, syms, pos + 1, maps, out);
        } else if let Ok((next, fs)) = decode_map(b, syms, pos, maps + 1) {
            if next + 16 <= b.len() {
                crate::gc_map::decode_spec::lemma_decode_map_advances(b, syms, pos, maps + 1);
                lemma_decode_from_nonempty(b, syms, next, maps + 1, out + fs);
            }
        }
    }
}

} // verus!
