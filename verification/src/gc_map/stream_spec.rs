//! The compact root stream: what encoding writes and what the runtime's
//! decoder reads back.
//!
//! Each record is a varint header word `(root_count << 2) | (has_derived << 1)`
//! followed by its roots; bit 0 set instead means "the live set of the
//! previous record". A root is a varint `(zigzag(delta) << 2) | tag` where the
//! tag is 0 for DWARF 29 (frame pointer), 1 for DWARF 31 (stack pointer) and
//! 2 for an explicit register number that follows as a varint; the delta is
//! taken against the previous root's offset. Derived slots follow as a count,
//! their base indices, and their slots in the same coding with a fresh delta
//! chain.
use vstd::prelude::*;
use vstd::wrapping::i32_specs;
use crate::gc_map::decode_spec::as_usize;
use crate::gc_map::model::{FunctionModel, RecordModel};
use crate::gc_map::varint::{read_varint_spec, unzigzag_spec, varint, zigzag_spec};

verus! {

pub const DWARF_REG_FP_AARCH64: u16 = 29;

pub const DWARF_REG_SP_AARCH64: u16 = 31;

/// The base tag of a DWARF register: 0 and 1 name the two aarch64 frame
/// bases by definition of the format, 2 any other register.
pub open spec fn base_tag(reg: u16) -> nat {
    if reg == DWARF_REG_FP_AARCH64 {
        0
    } else if reg == DWARF_REG_SP_AARCH64 {
        1
    } else {
        2
    }
}

pub open spec fn slot_delta(offset: i32, prev: Option<i32>) -> i32 {
    match prev {
        None => offset,
        Some(p) => i32_specs::wrapping_sub(offset, p),
    }
}

/// The bytes of one slot, given the offset of the slot before it in its list.
pub open spec fn slot_bytes(slot: (u16, i32), prev: Option<i32>) -> Seq<u8> {
    let tag = base_tag(slot.0);
    varint(zigzag_spec(slot_delta(slot.1, prev) as int) * 4 + tag) + if tag == 2 {
        varint(slot.0 as nat)
    } else {
        Seq::empty()
    }
}

pub open spec fn prev_offset(s: Seq<(u16, i32)>, k: int) -> Option<i32> {
    if k == 0 {
        None
    } else {
        Some(s[k - 1].1)
    }
}

/// The bytes of slots `k..` of `s`.
pub open spec fn slots_bytes_from(s: Seq<(u16, i32)>, k: nat) -> Seq<u8>
    decreases s.len() - k,
{
    if k >= s.len() {
        Seq::empty()
    } else {
        slot_bytes(s[k as int], prev_offset(s, k as int)) + slots_bytes_from(s, k + 1)
    }
}

/// `encode_slots`: one slot list in the shared tag/delta coding.
pub open spec fn slots_bytes(s: Seq<(u16, i32)>) -> Seq<u8> {
    slots_bytes_from(s, 0)
}

pub open spec fn derived_slots(d: Seq<(u32, u16, i32)>) -> Seq<(u16, i32)> {
    Seq::new(d.len(), |i: int| (d[i].1, d[i].2))
}

pub open spec fn base_bytes_from(d: Seq<(u32, u16, i32)>, k: nat) -> Seq<u8>
    decreases d.len() - k,
{
    if k >= d.len() {
        Seq::empty()
    } else {
        varint(d[k as int].0 as nat) + base_bytes_from(d, k + 1)
    }
}

/// The header word of an explicitly encoded live set.
pub open spec fn header_word(roots: Seq<(u16, i32)>, derived: Seq<(u32, u16, i32)>) -> nat {
    roots.len() * 4 + if derived.len() > 0 {
        2nat
    } else {
        0nat
    }
}

/// An explicitly encoded live set.
pub open spec fn live_set_bytes(roots: Seq<(u16, i32)>, derived: Seq<(u32, u16, i32)>) -> Seq<u8> {
    varint(header_word(roots, derived)) + slots_bytes(roots) + if derived.len() > 0 {
        varint(derived.len()) + base_bytes_from(derived, 0) + slots_bytes(derived_slots(derived))
    } else {
        Seq::empty()
    }
}

pub type LiveSet = (Seq<(u16, i32)>, Seq<(u32, u16, i32)>);

pub open spec fn live_set(r: RecordModel) -> LiveSet {
    (r.roots, r.derived)
}

/// A record's bytes: the repeat flag when its live set (bases and deriveds)
/// is the previous record's, else the explicit live set.
pub open spec fn record_bytes(prev: Option<LiveSet>, r: RecordModel) -> Seq<u8> {
    if prev == Some(live_set(r)) {
        varint(1)
    } else {
        live_set_bytes(r.roots, r.derived)
    }
}

pub open spec fn prev_live_set(recs: Seq<RecordModel>, i: int) -> Option<LiveSet> {
    if i == 0 {
        None
    } else {
        Some(live_set(recs[i - 1]))
    }
}

pub open spec fn records_bytes_from(recs: Seq<RecordModel>, i: nat) -> Seq<u8>
    decreases recs.len() - i,
{
    if i >= recs.len() {
        Seq::empty()
    } else {
        record_bytes(prev_live_set(recs, i as int), recs[i as int]) + records_bytes_from(
            recs,
            i + 1,
        )
    }
}

pub open spec fn stream_from(fs: Seq<FunctionModel>, f: nat) -> Seq<u8>
    decreases fs.len() - f,
{
    if f >= fs.len() {
        Seq::empty()
    } else {
        records_bytes_from(fs[f as int].records, 0) + stream_from(fs, f + 1)
    }
}

/// `encode_stream`: every function's records in order; the repeat flag never
/// crosses a function boundary.
pub open spec fn encode_stream_spec(fs: Seq<FunctionModel>) -> Seq<u8> {
    stream_from(fs, 0)
}

/// What `encode_stream` needs: every header word fits in a `u64`.
pub open spec fn encodable(fs: Seq<FunctionModel>) -> bool {
    forall|f: int, i: int|
        0 <= f < fs.len() && 0 <= i < fs[f].records.len() ==> #[trigger] fs[f].records[i].roots.len()
            < 0x4000_0000_0000_0000
}

// ---------------------------------------------------------------------------
// The decoder.
/// The base register a tag names, and the cursor after any explicit number.
pub open spec fn slot_reg(b: Seq<u8>, tag: nat, next: nat) -> Option<(u16, nat)> {
    if tag == 0 {
        Some((DWARF_REG_FP_AARCH64, next))
    } else if tag == 1 {
        Some((DWARF_REG_SP_AARCH64, next))
    } else if tag == 2 {
        match read_varint_spec(b, next) {
            None => None,
            Some((reg, n)) => if reg > 0xffff {
                None
            } else {
                Some((reg as u16, n))
            },
        }
    } else {
        None
    }
}

/// Decode slots `k..count` at `cursor`, after the slots `acc`.
pub open spec fn decode_slots_from(
    b: Seq<u8>,
    cursor: nat,
    k: nat,
    count: nat,
    acc: Seq<(u16, i32)>,
) -> Option<(Seq<(u16, i32)>, nat)>
    decreases count - k,
{
    if k >= count {
        Some((acc, cursor))
    } else {
        match read_varint_spec(b, cursor) {
            None => None,
            Some((value, c1)) => match slot_reg(b, value % 4, c1) {
                None => None,
                Some((reg, c2)) => {
                    let delta = unzigzag_spec((value / 4) % 0x1_0000_0000) as i32;
                    let offset = if k == 0 {
                        delta
                    } else {
                        i32_specs::wrapping_add(acc.last().1, delta)
                    };
                    decode_slots_from(b, c2, k + 1, count, acc.push((reg, offset)))
                },
            },
        }
    }
}

/// Decode `count - k` base indices, each of which must name one of `nroots`
/// roots.
pub open spec fn decode_bases_from(
    b: Seq<u8>,
    cursor: nat,
    k: nat,
    count: nat,
    nroots: nat,
    acc: Seq<u32>,
) -> Option<(Seq<u32>, nat)>
    decreases count - k,
{
    if k >= count {
        Some((acc, cursor))
    } else {
        match read_varint_spec(b, cursor) {
            None => None,
            Some((bi, c)) => if as_usize(bi) >= nroots {
                None
            } else {
                decode_bases_from(
                    b,
                    c,
                    k + 1,
                    count,
                    nroots,
                    acc.push((bi % 0x1_0000_0000) as u32),
                )
            },
        }
    }
}

pub open spec fn zip_derived(bases: Seq<u32>, slots: Seq<(u16, i32)>) -> Seq<(u32, u16, i32)> {
    let n = if bases.len() <= slots.len() {
        bases.len()
    } else {
        slots.len()
    };
    Seq::new(n, |i: int| (bases[i], slots[i].0, slots[i].1))
}

/// Decode one record's live set at `cursor`.
pub open spec fn decode_live_set(b: Seq<u8>, cursor: nat, prev: Option<LiveSet>) -> Option<
    (LiveSet, nat),
> {
    match read_varint_spec(b, cursor) {
        None => None,
        Some((header, c1)) => if header % 2 == 1 {
            match prev {
                None => None,
                Some(p) => Some((p, c1)),
            }
        } else {
            let count = as_usize(header / 4);
            let has_derived = (header / 2) % 2 == 1;
            match decode_slots_from(b, c1, 0, count, Seq::empty()) {
                None => None,
                Some((roots, c2)) => if !has_derived {
                    Some(((roots, Seq::empty()), c2))
                } else {
                    match read_varint_spec(b, c2) {
                        None => None,
                        Some((dc, c3)) => match decode_bases_from(
                            b,
                            c3,
                            0,
                            dc,
                            roots.len(),
                            Seq::empty(),
                        ) {
                            None => None,
                            Some((bases, c4)) => match decode_slots_from(
                                b,
                                c4,
                                0,
                                as_usize(dc),
                                Seq::empty(),
                            ) {
                                None => None,
                                Some((slots, c5)) => Some(
                                    ((roots, zip_derived(bases, slots)), c5),
                                ),
                            },
                        },
                    }
                },
            }
        },
    }
}

/// Decode and compare records `i..` of one function; the cursor after them
/// when every record decodes to exactly its live set.
pub open spec fn verify_records_from(
    b: Seq<u8>,
    cursor: nat,
    recs: Seq<RecordModel>,
    i: nat,
    prev: Option<LiveSet>,
) -> Option<nat>
    decreases recs.len() - i,
{
    if i >= recs.len() {
        Some(cursor)
    } else {
        match decode_live_set(b, cursor, prev) {
            None => None,
            Some((d, c)) => if d != live_set(recs[i as int]) {
                None
            } else {
                verify_records_from(b, c, recs, i + 1, Some(d))
            },
        }
    }
}

pub open spec fn verify_functions_from(b: Seq<u8>, cursor: nat, fs: Seq<FunctionModel>, f: nat) -> Option<
    nat,
>
    decreases fs.len() - f,
{
    if f >= fs.len() {
        Some(cursor)
    } else {
        match verify_records_from(b, cursor, fs[f as int].records, 0, None) {
            None => None,
            Some(c) => verify_functions_from(b, c, fs, f + 1),
        }
    }
}

/// `stream` decodes, as the runtime decodes it, to exactly the live set of
/// every record of `fs`, with no byte left over.
pub open spec fn roundtrip_ok(fs: Seq<FunctionModel>, stream: Seq<u8>) -> bool {
    verify_functions_from(stream, 0, fs, 0) == Some(stream.len())
}

} // verus!
