//! What decoding the bytes of an LLVM stack-map block (format v3) yields.
//!
//! The block is a sequence of maps, one per object the linker saw. Each map
//! is a 16-byte header (`version 3`, counts of functions, constants and
//! records), a 24-byte entry per function, 8 bytes per constant, then the
//! records: a 16-byte header, 12 bytes per location, padding to 8, the
//! live-out list, padding to 8.
use vstd::prelude::*;
use crate::gc_map::model::{FunctionModel, RecordModel};
use crate::numtext::dec;

verus! {

/// `v` little-endian bytes from `at`, as a number.
pub open spec fn le_val(b: Seq<u8>, at: nat, w: nat) -> nat
    decreases w,
{
    if w == 0 {
        0
    } else {
        b[at as int] as nat + 256 * le_val(b, at + 1, (w - 1) as nat)
    }
}

/// `read_u16` / `read_u32` / `read_u64`: the `w`-byte little-endian value at
/// `at`, if the block holds all of it.
pub open spec fn read_le(b: Seq<u8>, at: nat, w: nat) -> Option<nat> {
    if at + w <= b.len() {
        Some(le_val(b, at, w))
    } else {
        None
    }
}

/// A `u32` reinterpreted as `i32`.
pub open spec fn as_i32(v: nat) -> i32 {
    if v < 0x8000_0000 {
        v as i32
    } else {
        (v - 0x1_0000_0000) as i32
    }
}

/// The operand text a data directive named at byte offset `at`; the last
/// such directive wins.
pub open spec fn lookup_symbol(syms: Seq<(nat, Seq<char>)>, at: nat) -> Option<Seq<char>>
    decreases syms.len(),
{
    if syms.len() == 0 {
        None
    } else if syms.last().0 == at {
        Some(syms.last().1)
    } else {
        lookup_symbol(syms.drop_last(), at)
    }
}

/// `(kind, size, dwarf_reg, offset)` of one stack-map location.
pub type Loc = (u8, u16, u16, i32);

pub const LOCATION_DIRECT: u8 = 2;

pub const LOCATION_INDIRECT: u8 = 3;

pub const LOCATION_CONSTANT: u8 = 4;

/// Only `Direct` and `Indirect` locations of pointer size describe a frame
/// slot; `Constant`/`ConstIndex` carry the statepoint preamble and `Register`
/// cannot be recovered at collection time.
pub open spec fn is_root_slot(l: Loc) -> bool {
    (l.0 == LOCATION_DIRECT || l.0 == LOCATION_INDIRECT) && l.1 == 8
}

pub open spec fn slot_of(l: Loc) -> (u16, i32) {
    (l.2, l.3)
}

/// Add `slot` to `roots` unless it is already there.
pub open spec fn add_root(roots: Seq<(u16, i32)>, slot: (u16, i32)) -> Seq<(u16, i32)> {
    if roots.contains(slot) {
        roots
    } else {
        roots.push(slot)
    }
}

pub open spec fn add_if_root(roots: Seq<(u16, i32)>, l: Loc) -> Seq<(u16, i32)> {
    if is_root_slot(l) {
        add_root(roots, slot_of(l))
    } else {
        roots
    }
}

/// Every frame-slot location, deduplicated in order of first appearance.
pub open spec fn flat_roots(locs: Seq<Loc>) -> Seq<(u16, i32)>
    decreases locs.len(),
{
    if locs.len() == 0 {
        Seq::empty()
    } else {
        add_if_root(flat_roots(locs.drop_last()), locs.last())
    }
}

/// Where the `(base, derived)` pairs start: after the three statepoint
/// constants and the deopt locations the third constant counts. `None` when
/// the preamble is not of that shape.
pub open spec fn gc_pairs_start(locs: Seq<Loc>) -> Option<nat> {
    if locs.len() > 2 && locs[2].0 == LOCATION_CONSTANT && locs[2].3 >= 0 {
        Some((3 + locs[2].3) as nat)
    } else {
        None
    }
}

/// `(base_reg, base_offset, derived_reg, derived_offset)`.
pub type DerivedPair = (u16, i32, u16, i32);

/// The live set after the first `n` `(base, derived)` pairs from `start`.
pub open spec fn pair_roots(locs: Seq<Loc>, start: nat, n: nat) -> (Seq<(u16, i32)>, Seq<
    DerivedPair,
>)
    decreases n,
{
    if n == 0 {
        (Seq::empty(), Seq::empty())
    } else {
        let (roots, pairs) = pair_roots(locs, start, (n - 1) as nat);
        let base = locs[start + 2 * (n - 1)];
        let derived = locs[start + 2 * (n - 1) + 1];
        if !is_root_slot(base) || !is_root_slot(derived) {
            // A constant or register operand (a null base): keep whichever
            // half is a frame slot.
            (add_if_root(add_if_root(roots, base), derived), pairs)
        } else if slot_of(derived) != slot_of(base) {
            (
                add_root(roots, slot_of(base)),
                pairs.push((base.2, base.3, derived.2, derived.3)),
            )
        } else {
            (add_root(roots, slot_of(base)), pairs)
        }
    }
}

/// The roots (in order of first appearance) and the derived pairs of one
/// record's locations. A malformed statepoint preamble falls back to keeping
/// every frame slot with no pairing.
pub open spec fn collect_slots(locs: Seq<Loc>) -> (Seq<(u16, i32)>, Seq<DerivedPair>) {
    match gc_pairs_start(locs) {
        Some(start) if start <= locs.len() && (locs.len() - start) % 2 == 0 => pair_roots(
            locs,
            start,
            ((locs.len() - start) / 2) as nat,
        ),
        _ => (flat_roots(locs), Seq::empty()),
    }
}

/// Insert `x` after every element whose offset is at most its own.
pub open spec fn insert_root(s: Seq<(u16, i32)>, x: (u16, i32)) -> Seq<(u16, i32)>
    decreases s.len(),
{
    if s.len() == 0 || s.last().1 <= x.1 {
        s.push(x)
    } else {
        insert_root(s.drop_last(), x).push(s.last())
    }
}

/// The roots ordered by frame offset (stable: equal offsets keep their order).
pub open spec fn sort_roots(s: Seq<(u16, i32)>) -> Seq<(u16, i32)>
    decreases s.len(),
{
    if s.len() == 0 {
        s
    } else {
        insert_root(sort_roots(s.drop_last()), s.last())
    }
}

pub open spec fn insert_derived(s: Seq<(u32, u16, i32)>, x: (u32, u16, i32)) -> Seq<
    (u32, u16, i32),
>
    decreases s.len(),
{
    if s.len() == 0 || s.last().2 <= x.2 {
        s.push(x)
    } else {
        insert_derived(s.drop_last(), x).push(s.last())
    }
}

/// The derived slots ordered by frame offset (stable).
pub open spec fn sort_derived(s: Seq<(u32, u16, i32)>) -> Seq<(u32, u16, i32)>
    decreases s.len(),
{
    if s.len() == 0 {
        s
    } else {
        insert_derived(sort_derived(s.drop_last()), s.last())
    }
}

/// Position of `x` in `s`, if present (the first one).
pub open spec fn index_of(s: Seq<(u16, i32)>, x: (u16, i32)) -> Option<nat>
    decreases s.len(),
{
    if s.len() == 0 {
        None
    } else {
        match index_of(s.drop_last(), x) {
            Some(i) => Some(i),
            None => if s.last() == x {
                Some((s.len() - 1) as nat)
            } else {
                None
            },
        }
    }
}

pub open spec fn has_derived_slot(d: Seq<(u32, u16, i32)>, reg: u16, off: i32) -> bool {
    exists|k: int| 0 <= k < d.len() && d[k].1 == reg && d[k].2 == off
}

/// Tie each derived pair to the index of its base in the sorted roots.
///
/// A derived slot that is also a plain root is dropped (a slot cannot be both
/// an object start and an interior pointer), as is a second pairing for a
/// slot already tied.
pub open spec fn resolve_derived(pairs: Seq<DerivedPair>, roots: Seq<(u16, i32)>) -> Seq<
    (u32, u16, i32),
>
    decreases pairs.len(),
{
    if pairs.len() == 0 {
        Seq::empty()
    } else {
        let acc = resolve_derived(pairs.drop_last(), roots);
        let (base_reg, base_off, d_reg, d_off) = pairs.last();
        if roots.contains((d_reg, d_off)) {
            acc
        } else {
            match index_of(roots, (base_reg, base_off)) {
                None => acc,
                Some(base_index) => if has_derived_slot(acc, d_reg, d_off) {
                    acc
                } else {
                    acc.push((base_index as u32, d_reg, d_off))
                },
            }
        }
    }
}

/// Which read ran past the end of the block.
pub enum TruncWhat {
    MapHeader,
    FunctionRecord,
    Record { symbol: Seq<char>, index: nat },
    Location { symbol: Seq<char>, index: nat, location: nat },
    LiveOuts { symbol: Seq<char>, index: nat },
}

/// Why a block does not decode.
pub enum DecodeError {
    Truncated { what: TruncWhat, at: nat },
    LiteralAddress { map: nat, index: nat, pos: nat, value: nat },
    RecordCountOverflow,
    CountMismatch { map: nat, expected: nat, declared: nat },
    ConstantPoolOverflow,
    NoFunctions { maps: nat },
}

/// `v.to_string()` for a value the block read as `usize` from a `u64`.
pub open spec fn as_usize(v: nat) -> nat {
    v % (usize::MAX as nat + 1)
}

/// The function entries of one map: `(symbol, stack_size, record_count)`,
/// and the position after them and the sum of their record counts.
pub open spec fn decode_heads(
    b: Seq<u8>,
    syms: Seq<(nat, Seq<char>)>,
    map: nat,
    pos: nat,
    index: nat,
    count: nat,
    expected: nat,
    acc: Seq<(Seq<char>, u64, nat)>,
) -> Result<(nat, nat, Seq<(Seq<char>, u64, nat)>), DecodeError>
    decreases count - index,
{
    if index >= count {
        Ok((pos, expected, acc))
    } else {
        match lookup_symbol(syms, pos) {
            None => Err(
                DecodeError::LiteralAddress {
                    map,
                    index,
                    pos,
                    value: match read_le(b, pos, 8) {
                        Some(v) => v,
                        None => 0,
                    },
                },
            ),
            Some(symbol) => match read_le(b, pos + 8, 8) {
                None => Err(DecodeError::Truncated { what: TruncWhat::FunctionRecord, at: pos }),
                Some(stack_size) => match read_le(b, pos + 16, 8) {
                    None => Err(
                        DecodeError::Truncated { what: TruncWhat::FunctionRecord, at: pos },
                    ),
                    Some(records) => {
                        let r = as_usize(records);
                        if expected + r > usize::MAX {
                            Err(DecodeError::RecordCountOverflow)
                        } else {
                            decode_heads(
                                b,
                                syms,
                                map,
                                pos + 24,
                                index + 1,
                                count,
                                expected + r,
                                acc.push((symbol, stack_size as u64, r)),
                            )
                        }
                    },
                },
            },
        }
    }
}

/// The location at `pos`.
pub open spec fn read_location(b: Seq<u8>, pos: nat) -> Option<Loc> {
    if pos + 12 <= b.len() {
        Some(
            (
                b[pos as int],
                le_val(b, pos + 2, 2) as u16,
                le_val(b, pos + 4, 2) as u16,
                as_i32(le_val(b, pos + 8, 4)),
            ),
        )
    } else {
        None
    }
}

/// The `count - i` locations from `pos`.
pub open spec fn decode_locations(
    b: Seq<u8>,
    symbol: Seq<char>,
    index: nat,
    pos: nat,
    i: nat,
    count: nat,
    acc: Seq<Loc>,
) -> Result<(nat, Seq<Loc>), DecodeError>
    decreases count - i,
{
    if i >= count {
        Ok((pos, acc))
    } else {
        match read_location(b, pos) {
            None => Err(
                DecodeError::Truncated { what: TruncWhat::Location { symbol, index, location: i }, at: pos },
            ),
            Some(l) => decode_locations(b, symbol, index, pos + 12, i + 1, count, acc.push(l)),
        }
    }
}

/// `align_up(value, 8)`.
pub open spec fn align8(v: nat) -> nat {
    ((v + 7) / 8 * 8) as nat
}

/// The instruction offset of the record at `pos`: the expression a directive
/// named there, else the literal `u32`.
pub open spec fn offset_expr_at(b: Seq<u8>, syms: Seq<(nat, Seq<char>)>, pos: nat) -> Seq<char> {
    match lookup_symbol(syms, pos + 8) {
        Some(e) => e,
        None => dec(
            match read_le(b, pos + 8, 4) {
                Some(v) => v,
                None => 0,
            },
        ),
    }
}

/// The live set of one record from its locations.
pub open spec fn record_of(offset_expr: Seq<char>, locs: Seq<Loc>) -> RecordModel {
    let (roots, pairs) = collect_slots(locs);
    let sorted = sort_roots(roots);
    RecordModel {
        offset_expr,
        roots: sorted,
        derived: sort_derived(resolve_derived(pairs, sorted)),
    }
}

/// The record at `pos` of function `symbol`, and the position after it.
pub open spec fn decode_record(
    b: Seq<u8>,
    syms: Seq<(nat, Seq<char>)>,
    symbol: Seq<char>,
    index: nat,
    pos: nat,
) -> Result<(nat, RecordModel), DecodeError> {
    match read_le(b, pos + 14, 2) {
        None => Err(DecodeError::Truncated { what: TruncWhat::Record { symbol, index }, at: pos }),
        Some(location_count) => match decode_locations(
            b,
            symbol,
            index,
            pos + 16,
            0,
            location_count,
            Seq::empty(),
        ) {
            Err(e) => Err(e),
            Ok((after_locations, locs)) => {
                let p3 = align8((after_locations - pos) as nat) + pos;
                match read_le(b, p3 + 2, 2) {
                    None => Err(
                        DecodeError::Truncated { what: TruncWhat::LiveOuts { symbol, index }, at: p3 },
                    ),
                    Some(live_outs) => {
                        let p4 = p3 + 4 + live_outs * 4;
                        if p4 > usize::MAX {
                            Err(
                                DecodeError::Truncated {
                                    what: TruncWhat::LiveOuts { symbol, index },
                                    at: p3,
                                },
                            )
                        } else {
                            let p5 = align8((p4 - pos) as nat) + pos;
                            if p5 > b.len() {
                                Err(
                                    DecodeError::Truncated {
                                        what: TruncWhat::Record { symbol, index },
                                        at: p5,
                                    },
                                )
                            } else {
                                Ok((p5, record_of(offset_expr_at(b, syms, pos), locs)))
                            }
                        }
                    },
                }
            },
        },
    }
}

/// Records `i..count` of function `symbol`.
pub open spec fn decode_records(
    b: Seq<u8>,
    syms: Seq<(nat, Seq<char>)>,
    symbol: Seq<char>,
    pos: nat,
    i: nat,
    count: nat,
    acc: Seq<RecordModel>,
) -> Result<(nat, Seq<RecordModel>), DecodeError>
    decreases count - i,
{
    if i >= count {
        Ok((pos, acc))
    } else {
        match decode_record(b, syms, symbol, i, pos) {
            Err(e) => Err(e),
            Ok((next, r)) => decode_records(b, syms, symbol, next, i + 1, count, acc.push(r)),
        }
    }
}

/// The records of every function of one map, in order.
pub open spec fn decode_functions(
    b: Seq<u8>,
    syms: Seq<(nat, Seq<char>)>,
    pos: nat,
    heads: Seq<(Seq<char>, u64, nat)>,
    f: nat,
    acc: Seq<FunctionModel>,
) -> Result<(nat, Seq<FunctionModel>), DecodeError>
    decreases heads.len() - f,
{
    if f >= heads.len() {
        Ok((pos, acc))
    } else {
        let (symbol, stack_size, count) = heads[f as int];
        match decode_records(b, syms, symbol, pos, 0, count, Seq::empty()) {
            Err(e) => Err(e),
            Ok((next, records)) => decode_functions(
                b,
                syms,
                next,
                heads,
                f + 1,
                acc.push(FunctionModel { symbol, stack_size, records }),
            ),
        }
    }
}

/// One map whose header is at `pos`: its functions, and the position after it.
pub open spec fn decode_map(b: Seq<u8>, syms: Seq<(nat, Seq<char>)>, pos: nat, map: nat) -> Result<
    (nat, Seq<FunctionModel>),
    DecodeError,
> {
    let function_count = le_val(b, pos + 4, 4);
    let constant_count = le_val(b, pos + 8, 4);
    let record_count = le_val(b, pos + 12, 4);
    match decode_heads(b, syms, map, pos + 16, 0, function_count, 0, Seq::empty()) {
        Err(e) => Err(e),
        Ok((after_heads, expected, heads)) => if expected != record_count {
            Err(DecodeError::CountMismatch { map, expected, declared: record_count })
        } else if constant_count * 8 > usize::MAX || after_heads + constant_count * 8
            > usize::MAX {
            Err(DecodeError::ConstantPoolOverflow)
        } else {
            decode_functions(
                b,
                syms,
                after_heads + constant_count * 8,
                heads,
                0,
                Seq::empty(),
            )
        },
    }
}

/// The result once fewer than 16 bytes remain.
pub open spec fn decode_finish(out: Seq<FunctionModel>, maps: nat) -> Result<
    Seq<FunctionModel>,
    DecodeError,
> {
    if out.len() == 0 {
        Err(DecodeError::NoFunctions { maps })
    } else {
        Ok(out)
    }
}

/// Walk the block from `pos`: skip padding bytes, decode each map (a byte `3`
/// with room for a header), until fewer than 16 bytes remain.
pub open spec fn decode_from(
    b: Seq<u8>,
    syms: Seq<(nat, Seq<char>)>,
    pos: nat,
    maps: nat,
    out: Seq<FunctionModel>,
) -> Result<Seq<FunctionModel>, DecodeError>
    decreases b.len() - pos,
{
    if pos + 16 > b.len() {
        decode_finish(out, maps)
    } else if b[pos as int] != 3 {
        decode_from(b, syms, pos + 1, maps, out)
    } else {
        match decode_map(b, syms, pos, maps + 1) {
            Err(e) => Err(e),
            Ok((next, fs)) => if next + 16 > b.len() {
                decode_finish(out + fs, maps + 1)
            } else {
                proof {
                    lemma_decode_map_advances(b, syms, pos, maps + 1);
                }
                decode_from(b, syms, next, maps + 1, out + fs)
            },
        }
    }
}

/// The function entries of a map end no earlier than they start.
pub proof fn lemma_heads_advance(
    b: Seq<u8>,
    syms: Seq<(nat, Seq<char>)>,
    map: nat,
    pos: nat,
    index: nat,
    count: nat,
    expected: nat,
    acc: Seq<(Seq<char>, u64, nat)>,
)
    ensures
        decode_heads(b, syms, map, pos, index, count, expected, acc) matches Ok((p, _, _)) ==> p
            >= pos,
    decreases count - index,
{
    if index < count {
        if let Some(symbol) = lookup_symbol(syms, pos) {
            if let (Some(ss), Some(rc)) = (read_le(b, pos + 8, 8), read_le(b, pos + 16, 8)) {
                let r = as_usize(rc);
                if expected + r <= usize::MAX {
                    lemma_heads_advance(
                        b,
                        syms,
                        map,
                        pos + 24,
                        index + 1,
                        count,
                        expected + r,
                        acc.push((symbol, ss as u64, r)),
                    );
                }
            }
        }
    }
}

/// The locations of a record take 12 bytes each, read in order.
pub proof fn lemma_locations_advance(
    b: Seq<u8>,
    symbol: Seq<char>,
    index: nat,
    pos: nat,
    i: nat,
    count: nat,
    acc: Seq<Loc>,
)
    requires
        i <= count,
    ensures
        decode_locations(b, symbol, index, pos, i, count, acc) matches Ok((p, locs)) ==> p >= pos
            && p == pos + 12 * (count - i) && locs.len() == acc.len() + (count - i) && locs.take(
            acc.len() as int,
        ) == acc,
    decreases count - i,
{
    if i < count {
        if let Some(l) = read_location(b, pos) {
            lemma_locations_advance(b, symbol, index, pos + 12, i + 1, count, acc.push(l));
            if let Ok((p, locs)) = decode_locations(b, symbol, index, pos, i, count, acc) {
                assert(locs.take((acc.len() + 1) as int) == acc.push(l));
                assert(locs.take(acc.len() as int) =~= locs.take((acc.len() + 1) as int).take(
                    acc.len() as int,
                ));
                assert(acc.push(l).take(acc.len() as int) =~= acc);
                assert(p == pos + 12 + 12 * (count - (i + 1)));
            }
        }
    } else {
        assert(acc.take(acc.len() as int) =~= acc);
    }
}

proof fn lemma_record_advances(
    b: Seq<u8>,
    syms: Seq<(nat, Seq<char>)>,
    symbol: Seq<char>,
    index: nat,
    pos: nat,
)
    ensures
        decode_record(b, syms, symbol, index, pos) matches Ok((p, _)) ==> p >= pos + 16,
{
    if let Some(lc) = read_le(b, pos + 14, 2) {
        lemma_locations_advance(b, symbol, index, pos + 16, 0, lc, Seq::empty());
    }
}

proof fn lemma_records_advance(
    b: Seq<u8>,
    syms: Seq<(nat, Seq<char>)>,
    symbol: Seq<char>,
    pos: nat,
    i: nat,
    count: nat,
    acc: Seq<RecordModel>,
)
    ensures
        decode_records(b, syms, symbol, pos, i, count, acc) matches Ok((p, _)) ==> p >= pos,
    decreases count - i,
{
    if i < count {
        lemma_record_advances(b, syms, symbol, i, pos);
        if let Ok((next, r)) = decode_record(b, syms, symbol, i, pos) {
            lemma_records_advance(b, syms, symbol, next, i + 1, count, acc.push(r));
        }
    }
}

/// A map's records end no earlier than they start.
pub proof fn lemma_functions_advance(
    b: Seq<u8>,
    syms: Seq<(nat, Seq<char>)>,
    pos: nat,
    heads: Seq<(Seq<char>, u64, nat)>,
    f: nat,
    acc: Seq<FunctionModel>,
)
    ensures
        decode_functions(b, syms, pos, heads, f, acc) matches Ok((p, _)) ==> p >= pos,
    decreases heads.len() - f,
{
    if f < heads.len() {
        let (symbol, stack_size, count) = heads[f as int];
        lemma_records_advance(b, syms, symbol, pos, 0, count, Seq::empty());
        if let Ok((next, records)) = decode_records(b, syms, symbol, pos, 0, count, Seq::empty()) {
            lemma_functions_advance(
                b,
                syms,
                next,
                heads,
                f + 1,
                acc.push(FunctionModel { symbol, stack_size, records }),
            );
        }
    }
}

/// A map spans at least its 16-byte header.
pub proof fn lemma_decode_map_advances(b: Seq<u8>, syms: Seq<(nat, Seq<char>)>, pos: nat, map: nat)
    ensures
        decode_map(b, syms, pos, map) matches Ok((next, _)) ==> next >= pos + 16,
{
    let function_count = le_val(b, pos + 4, 4);
    lemma_heads_advance(b, syms, map, pos + 16, 0, function_count, 0, Seq::empty());
    if let Ok((after_heads, expected, heads)) = decode_heads(
        b,
        syms,
        map,
        pos + 16,
        0,
        function_count,
        0,
        Seq::empty(),
    ) {
        let constant_count = le_val(b, pos + 8, 4);
        lemma_functions_advance(
            b,
            syms,
            after_heads + constant_count * 8,
            heads,
            0,
            Seq::empty(),
        );
    }
}

/// Decode every concatenated v3 map in the block. A decoder that read only
/// the first header would silently drop the rest.
pub open spec fn decode_spec(b: Seq<u8>, syms: Seq<(nat, Seq<char>)>) -> Result<
    Seq<FunctionModel>,
    DecodeError,
> {
    decode_from(b, syms, 0, 0, Seq::empty())
}

} // verus!
