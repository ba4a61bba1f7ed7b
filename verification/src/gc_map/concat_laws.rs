//! Maps concatenated in one block decode as they decode alone: the linker
//! lays one map per object end to end, and the decoder keeps every one.
use vstd::prelude::*;
use crate::gc_map::decode_spec::{
    align8, decode_from, decode_functions, decode_heads, decode_locations, decode_map,
    decode_record, decode_records, decode_spec, lemma_decode_map_advances,
    lemma_functions_advance, le_val, lookup_symbol, offset_expr_at, read_le, read_location,
    DecodeError, Loc,
};
use crate::gc_map::model::{FunctionModel, RecordModel};

verus! {

/// `m` stands in `b` at offset `d`.
pub open spec fn window(b: Seq<u8>, d: nat, m: Seq<u8>) -> bool {
    &&& d + m.len() <= b.len()
    &&& forall|i: int| 0 <= i < m.len() ==> #[trigger] b[d + i] == m[i]
}

/// Symbol lookups in `s` at offset `d` agree with lookups in `sm` over the
/// first `n` positions.
pub open spec fn symbols_agree(s: Seq<(nat, Seq<char>)>, d: nat, sm: Seq<(nat, Seq<char>)>, n: nat) -> bool {
    forall|at: nat| at < n ==> #[trigger] lookup_symbol(s, d + at) == lookup_symbol(sm, at)
}

/// The context a map decoded alone from `m` is found in, at offset `d` of
/// `b`.
pub open spec fn embedded(
    b: Seq<u8>,
    s: Seq<(nat, Seq<char>)>,
    d: nat,
    m: Seq<u8>,
    sm: Seq<(nat, Seq<char>)>,
) -> bool {
    &&& window(b, d, m)
    &&& symbols_agree(s, d, sm, m.len())
    &&& b.len() <= usize::MAX
}

proof fn lemma_le_val_lift(b: Seq<u8>, d: nat, m: Seq<u8>, at: nat, w: nat)
    requires
        window(b, d, m),
        at + w <= m.len(),
    ensures
        le_val(b, d + at, w) == le_val(m, at, w),
    decreases w,
{
    if w > 0 {
        lemma_le_val_lift(b, d, m, at + 1, (w - 1) as nat);
        assert(b[(d + at) as int] == m[at as int]);
        assert(d + at + 1 == d + (at + 1));
    }
}

proof fn lemma_read_le_lift(b: Seq<u8>, d: nat, m: Seq<u8>, at: nat, w: nat)
    requires
        window(b, d, m),
        read_le(m, at, w) is Some,
    ensures
        read_le(b, d + at, w) == read_le(m, at, w),
{
    lemma_le_val_lift(b, d, m, at, w);
}

proof fn lemma_locations_lift(
    b: Seq<u8>,
    d: nat,
    m: Seq<u8>,
    symbol: Seq<char>,
    index: nat,
    pos: nat,
    i: nat,
    count: nat,
    acc: Seq<Loc>,
)
    requires
        window(b, d, m),
        decode_locations(m, symbol, index, pos, i, count, acc) is Ok,
    ensures
        decode_locations(b, symbol, index, d + pos, i, count, acc) == match decode_locations(
            m,
            symbol,
            index,
            pos,
            i,
            count,
            acc,
        ) {
            Ok((p, locs)) => Ok::<(nat, Seq<Loc>), DecodeError>((d + p, locs)),
            Err(e) => Err(e),
        },
    decreases count - i,
{
    if i < count {
        let l = read_location(m, pos);
        assert(l is Some);
        lemma_le_val_lift(b, d, m, pos + 2, 2);
        lemma_le_val_lift(b, d, m, pos + 4, 2);
        lemma_le_val_lift(b, d, m, pos + 8, 4);
        assert(b[(d + pos) as int] == m[pos as int]);
        assert(read_location(b, d + pos) == l);
        assert(d + pos + 12 == d + (pos + 12));
        lemma_locations_lift(b, d, m, symbol, index, pos + 12, i + 1, count, acc.push(l.unwrap()));
    }
}

proof fn lemma_record_lift(
    b: Seq<u8>,
    s: Seq<(nat, Seq<char>)>,
    d: nat,
    m: Seq<u8>,
    sm: Seq<(nat, Seq<char>)>,
    symbol: Seq<char>,
    index: nat,
    pos: nat,
)
    requires
        embedded(b, s, d, m, sm),
        decode_record(m, sm, symbol, index, pos) is Ok,
    ensures
        decode_record(b, s, symbol, index, d + pos) == match decode_record(
            m,
            sm,
            symbol,
            index,
            pos,
        ) {
            Ok((p, r)) => Ok::<(nat, RecordModel), DecodeError>((d + p, r)),
            Err(e) => Err(e),
        },
{
    let lc = read_le(m, pos + 14, 2).unwrap();
    lemma_read_le_lift(b, d, m, pos + 14, 2);
    assert(d + pos + 14 == d + (pos + 14));
    lemma_locations_lift(b, d, m, symbol, index, pos + 16, 0, lc, Seq::empty());
    assert(d + pos + 16 == d + (pos + 16));
    let (after, locs) = decode_locations(m, symbol, index, pos + 16, 0, lc, Seq::empty())->Ok_0;
    let p3 = align8((after - pos) as nat) + pos;
    assert(((d + after) - (d + pos)) as nat == (after - pos) as nat);
    lemma_read_le_lift(b, d, m, p3 + 2, 2);
    assert(d + p3 + 2 == d + (p3 + 2));
    let lo = read_le(m, p3 + 2, 2).unwrap();
    let p4 = p3 + 4 + lo * 4;
    let p5 = align8((p4 - pos) as nat) + pos;
    assert(p5 >= p4);
    assert(((d + p3 + 4 + lo * 4) - (d + pos)) as nat == (p4 - pos) as nat);
    // The instruction offset: a symbol or the literal at `pos + 8`.
    assert(pos + 8 < m.len());
    assert(lookup_symbol(s, d + (pos + 8)) == lookup_symbol(sm, pos + 8));
    assert(d + pos + 8 == d + (pos + 8));
    lemma_read_le_lift(b, d, m, pos + 8, 4);
    assert(offset_expr_at(b, s, d + pos) == offset_expr_at(m, sm, pos));
}

proof fn lemma_records_lift(
    b: Seq<u8>,
    s: Seq<(nat, Seq<char>)>,
    d: nat,
    m: Seq<u8>,
    sm: Seq<(nat, Seq<char>)>,
    symbol: Seq<char>,
    pos: nat,
    i: nat,
    count: nat,
    acc: Seq<RecordModel>,
)
    requires
        embedded(b, s, d, m, sm),
        decode_records(m, sm, symbol, pos, i, count, acc) is Ok,
    ensures
        decode_records(b, s, symbol, d + pos, i, count, acc) == match decode_records(
            m,
            sm,
            symbol,
            pos,
            i,
            count,
            acc,
        ) {
            Ok((p, rs)) => Ok::<(nat, Seq<RecordModel>), DecodeError>((d + p, rs)),
            Err(e) => Err(e),
        },
    decreases count - i,
{
    if i < count {
        lemma_record_lift(b, s, d, m, sm, symbol, i, pos);
        let (next, r) = decode_record(m, sm, symbol, i, pos)->Ok_0;
        lemma_records_lift(b, s, d, m, sm, symbol, next, i + 1, count, acc.push(r));
    }
}

proof fn lemma_functions_lift(
    b: Seq<u8>,
    s: Seq<(nat, Seq<char>)>,
    d: nat,
    m: Seq<u8>,
    sm: Seq<(nat, Seq<char>)>,
    pos: nat,
    heads: Seq<(Seq<char>, u64, nat)>,
    f: nat,
    acc: Seq<FunctionModel>,
)
    requires
        embedded(b, s, d, m, sm),
        decode_functions(m, sm, pos, heads, f, acc) is Ok,
    ensures
        decode_functions(b, s, d + pos, heads, f, acc) == match decode_functions(
            m,
            sm,
            pos,
            heads,
            f,
            acc,
        ) {
            Ok((p, fs)) => Ok::<(nat, Seq<FunctionModel>), DecodeError>((d + p, fs)),
            Err(e) => Err(e),
        },
    decreases heads.len() - f,
{
    if f < heads.len() {
        let (symbol, stack_size, count) = heads[f as int];
        lemma_records_lift(b, s, d, m, sm, symbol, pos, 0, count, Seq::empty());
        let (next, records) = decode_records(m, sm, symbol, pos, 0, count, Seq::empty())->Ok_0;
        lemma_functions_lift(
            b,
            s,
            d,
            m,
            sm,
            next,
            heads,
            f + 1,
            acc.push(FunctionModel { symbol, stack_size, records }),
        );
    }
}

proof fn lemma_heads_lift(
    b: Seq<u8>,
    s: Seq<(nat, Seq<char>)>,
    d: nat,
    m: Seq<u8>,
    sm: Seq<(nat, Seq<char>)>,
    map_alone: nat,
    map: nat,
    pos: nat,
    index: nat,
    count: nat,
    expected: nat,
    acc: Seq<(Seq<char>, u64, nat)>,
)
    requires
        embedded(b, s, d, m, sm),
        decode_heads(m, sm, map_alone, pos, index, count, expected, acc) is Ok,
    ensures
        decode_heads(b, s, map, d + pos, index, count, expected, acc) == match decode_heads(
            m,
            sm,
            map_alone,
            pos,
            index,
            count,
            expected,
            acc,
        ) {
            Ok((p, e, h)) => Ok::<(nat, nat, Seq<(Seq<char>, u64, nat)>), DecodeError>(
                (d + p, e, h),
            ),
            Err(e) => Err(e),
        },
    decreases count - index,
{
    if index < count {
        let symbol = lookup_symbol(sm, pos).unwrap();
        lemma_read_le_lift(b, d, m, pos + 8, 8);
        lemma_read_le_lift(b, d, m, pos + 16, 8);
        assert(d + pos + 8 == d + (pos + 8));
        assert(d + pos + 16 == d + (pos + 16));
        assert(pos < m.len());
        assert(lookup_symbol(s, d + pos) == lookup_symbol(sm, pos));
        let ss = read_le(m, pos + 8, 8).unwrap();
        let rc = read_le(m, pos + 16, 8).unwrap();
        let r = crate::gc_map::decode_spec::as_usize(rc);
        assert(d + pos + 24 == d + (pos + 24));
        lemma_heads_lift(
            b,
            s,
            d,
            m,
            sm,
            map_alone,
            map,
            pos + 24,
            index + 1,
            count,
            expected + r,
            acc.push((symbol, ss as u64, r)),
        );
    }
}

/// A map that decodes within `m` decodes to the same functions wherever `m`
/// is embedded (with its symbol references), whichever map number it is, and
/// ends at the same place relative to where it starts.
pub proof fn lemma_map_lift(
    b: Seq<u8>,
    s: Seq<(nat, Seq<char>)>,
    d: nat,
    m: Seq<u8>,
    sm: Seq<(nat, Seq<char>)>,
    map_alone: nat,
    map: nat,
    pos: nat,
)
    requires
        embedded(b, s, d, m, sm),
        decode_map(m, sm, pos, map_alone) matches Ok((next, _)) && next <= m.len(),
    ensures
        decode_map(b, s, d + pos, map) == match decode_map(m, sm, pos, map_alone) {
            Ok((next, fs)) => Ok::<(nat, Seq<FunctionModel>), DecodeError>((d + next, fs)),
            Err(e) => Err(e),
        },
{
    lemma_decode_map_advances(m, sm, pos, map_alone);
    let (next, fs) = decode_map(m, sm, pos, map_alone)->Ok_0;
    lemma_le_val_lift(b, d, m, pos + 4, 4);
    lemma_le_val_lift(b, d, m, pos + 8, 4);
    lemma_le_val_lift(b, d, m, pos + 12, 4);
    assert(d + pos + 4 == d + (pos + 4));
    assert(d + pos + 8 == d + (pos + 8));
    assert(d + pos + 12 == d + (pos + 12));
    assert(d + pos + 16 == d + (pos + 16));
    let function_count = le_val(m, pos + 4, 4);
    let constant_count = le_val(m, pos + 8, 4);
    lemma_heads_lift(
        b,
        s,
        d,
        m,
        sm,
        map_alone,
        map,
        pos + 16,
        0,
        function_count,
        0,
        Seq::empty(),
    );
    let (after_heads, expected, heads) = decode_heads(
        m,
        sm,
        map_alone,
        pos + 16,
        0,
        function_count,
        0,
        Seq::empty(),
    )->Ok_0;
    let start = after_heads + constant_count * 8;
    lemma_functions_advance(m, sm, start, heads, 0, Seq::empty());
    assert(d + start <= b.len());
    assert(d + after_heads + constant_count * 8 == d + start);
    lemma_functions_lift(b, s, d, m, sm, start, heads, 0, Seq::empty());
}

/// Symbol references of a map moved `off` bytes into a block.
pub open spec fn shift_symbols(s: Seq<(nat, Seq<char>)>, off: nat) -> Seq<(nat, Seq<char>)> {
    Seq::new(s.len(), |i: int| (s[i].0 + off, s[i].1))
}

proof fn lemma_lookup_shifted(s1: Seq<(nat, Seq<char>)>, s2: Seq<(nat, Seq<char>)>, off: nat, at: nat)
    requires
        forall|k: int| 0 <= k < s1.len() ==> (#[trigger] s1[k]).0 < off,
    ensures
        lookup_symbol(s1 + shift_symbols(s2, off), off + at) == lookup_symbol(s2, at),
        at < off ==> lookup_symbol(s1 + shift_symbols(s2, off), at) == lookup_symbol(s1, at),
    decreases s2.len(),
{
    let all = s1 + shift_symbols(s2, off);
    if s2.len() == 0 {
        assert(all =~= s1);
        lemma_lookup_below(s1, off + at, off);
    } else {
        let rest = s1 + shift_symbols(s2.drop_last(), off);
        assert(all.drop_last() =~= rest);
        assert(all.last() == (s2.last().0 + off, s2.last().1));
        lemma_lookup_shifted(s1, s2.drop_last(), off, at);
    }
}

proof fn lemma_lookup_below(s1: Seq<(nat, Seq<char>)>, at: nat, off: nat)
    requires
        forall|k: int| 0 <= k < s1.len() ==> (#[trigger] s1[k]).0 < off,
        at >= off,
    ensures
        lookup_symbol(s1, at) is None,
    decreases s1.len(),
{
    if s1.len() > 0 {
        assert(s1.last() == s1[s1.len() - 1]);
        lemma_lookup_below(s1.drop_last(), at, off);
    }
}

/// A well-formed v3 map occupying exactly `m`, whose functions are `fs`.
pub open spec fn one_map(m: Seq<u8>, s: Seq<(nat, Seq<char>)>, fs: Seq<FunctionModel>) -> bool {
    &&& m.len() > 0
    &&& m[0] == 3
    &&& decode_map(m, s, 0, 1) == Ok::<(nat, Seq<FunctionModel>), DecodeError>((m.len(), fs))
    &&& fs.len() > 0
}

proof fn lemma_skip_padding(b: Seq<u8>, s: Seq<(nat, Seq<char>)>, from: nat, to: nat, maps: nat, out: Seq<FunctionModel>)
    requires
        from <= to,
        to + 16 <= b.len(),
        forall|i: int| from <= i < to ==> #[trigger] b[i] == 0,
    ensures
        decode_from(b, s, from, maps, out) == decode_from(b, s, to, maps, out),
    decreases to - from,
{
    if from < to {
        lemma_skip_padding(b, s, from + 1, to, maps, out);
    }
}

/// Two maps laid end to end, with zero padding between them, decode to the
/// first map's functions followed by the second's: exactly what each decodes
/// to alone. A map after the first is never dropped.
///
/// Each map's symbol references stand at its own offsets, the second's moved
/// by where it starts in the block.
pub proof fn lemma_decode_concatenated_maps(
    m1: Seq<u8>,
    s1: Seq<(nat, Seq<char>)>,
    f1: Seq<FunctionModel>,
    pad: nat,
    m2: Seq<u8>,
    s2: Seq<(nat, Seq<char>)>,
    f2: Seq<FunctionModel>,
)
    requires
        one_map(m1, s1, f1),
        one_map(m2, s2, f2),
        forall|k: int| 0 <= k < s1.len() ==> (#[trigger] s1[k]).0 < m1.len(),
        m1.len() + pad + m2.len() <= usize::MAX,
    ensures
        decode_spec(m1, s1) == Ok::<Seq<FunctionModel>, DecodeError>(f1),
        decode_spec(m2, s2) == Ok::<Seq<FunctionModel>, DecodeError>(f2),
        decode_spec(
            m1 + Seq::new(pad, |i: int| 0u8) + m2,
            s1 + shift_symbols(s2, m1.len() + pad),
        ) == Ok::<Seq<FunctionModel>, DecodeError>(f1 + f2),
{
    let off = m1.len() + pad;
    let b = m1 + Seq::new(pad, |i: int| 0u8) + m2;
    let s = s1 + shift_symbols(s2, off);
    lemma_decode_map_advances(m1, s1, 0, 1);
    lemma_decode_map_advances(m2, s2, 0, 1);
    // Alone.
    assert(Seq::<FunctionModel>::empty() + f1 =~= f1);
    assert(Seq::<FunctionModel>::empty() + f2 =~= f2);
    // In the block: the first map at 0.
    assert(window(b, 0, m1)) by {
        assert forall|i: int| 0 <= i < m1.len() implies #[trigger] b[0 + i] == m1[i] by {}
    }
    assert(symbols_agree(s, 0, s1, m1.len())) by {
        assert forall|at: nat| at < m1.len() implies #[trigger] lookup_symbol(s, 0 + at)
            == lookup_symbol(s1, at) by {
            lemma_lookup_shifted(s1, s2, off, at);
        }
    }
    lemma_map_lift(b, s, 0, m1, s1, 1, 1, 0);
    assert(b[0] == 3);
    // The padding, then the second map at `off`.
    assert(window(b, off, m2)) by {
        assert forall|i: int| 0 <= i < m2.len() implies #[trigger] b[off + i] == m2[i] by {}
    }
    assert(symbols_agree(s, off, s2, m2.len())) by {
        assert forall|at: nat| at < m2.len() implies #[trigger] lookup_symbol(s, off + at)
            == lookup_symbol(s2, at) by {
            lemma_lookup_shifted(s1, s2, off, at);
        }
    }
    assert forall|i: int| m1.len() <= i < off implies #[trigger] b[i] == 0 by {}
    lemma_skip_padding(b, s, m1.len(), off, 1, f1);
    lemma_map_lift(b, s, off, m2, s2, 1, 2, 0);
    assert(b[off as int] == m2[0]);
    assert(off + m2.len() == b.len());
}

} // verus!
