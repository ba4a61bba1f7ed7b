//! The messages `verify_roundtrip` fails with: where the decode went wrong,
//! in the runtime decoder's own terms.
use vstd::prelude::*;
use vstd::wrapping::i32_specs;
use crate::gc_map::decode_spec::as_usize;
use crate::gc_map::model::{FunctionModel, RecordModel};
use crate::gc_map::stream_spec::{
    decode_bases_from, decode_live_set, decode_slots_from, live_set, slot_reg, verify_records_from,
    LiveSet,
};
use crate::gc_map::varint::{read_varint_spec, unzigzag_spec};
use crate::numtext::{dec, dec_int};

verus! {

/// `"{symbol} record {index}"`, the place a message names.
pub open spec fn where_spec(symbol: Seq<char>, index: nat) -> Seq<char> {
    symbol + " record "@ + dec(index)
}

pub open spec fn fail_spec(w: Seq<char>, what: Seq<char>) -> Seq<char> {
    w + ": "@ + what
}

/// The message of the first slot among `k..count` that does not decode.
pub open spec fn slots_fail_msg(
    b: Seq<u8>,
    cursor: nat,
    k: nat,
    count: nat,
    acc: Seq<(u16, i32)>,
    w: Seq<char>,
) -> Seq<char>
    decreases count - k,
{
    if k >= count {
        Seq::empty()
    } else {
        match read_varint_spec(b, cursor) {
            None => fail_spec(w, "truncated slot "@ + dec(k)),
            Some((value, c1)) => {
                let tag = value % 4;
                if tag == 2 && read_varint_spec(b, c1) is None {
                    fail_spec(w, "truncated explicit register for slot "@ + dec(k))
                } else if tag == 2 && read_varint_spec(b, c1)->Some_0.0 > 0xffff {
                    fail_spec(
                        w,
                        "slot "@ + dec(k) + " register "@ + dec(read_varint_spec(b, c1)->Some_0.0)
                            + " exceeds u16"@,
                    )
                } else if tag == 3 {
                    fail_spec(w, "slot "@ + dec(k) + " has reserved base tag "@ + dec(tag))
                } else {
                    match slot_reg(b, tag, c1) {
                        None => Seq::empty(),
                        Some((reg, c2)) => {
                            let delta = unzigzag_spec((value / 4) % 0x1_0000_0000) as i32;
                            let offset = if k == 0 {
                                delta
                            } else {
                                i32_specs::wrapping_add(acc.last().1, delta)
                            };
                            slots_fail_msg(b, c2, k + 1, count, acc.push((reg, offset)), w)
                        },
                    }
                }
            },
        }
    }
}

/// The message of the first base index among `k..count` that does not
/// decode or names no root.
pub open spec fn bases_fail_msg(
    b: Seq<u8>,
    cursor: nat,
    k: nat,
    count: nat,
    nroots: nat,
    w: Seq<char>,
) -> Seq<char>
    decreases count - k,
{
    if k >= count {
        Seq::empty()
    } else {
        match read_varint_spec(b, cursor) {
            None => fail_spec(w, "truncated derived base index "@ + dec(k)),
            Some((bi, c)) => if as_usize(bi) >= nroots {
                fail_spec(
                    w,
                    "derived entry "@ + dec(k) + " names base "@ + dec(bi) + " of "@ + dec(nroots)
                        + " roots"@,
                )
            } else {
                bases_fail_msg(b, c, k + 1, count, nroots, w)
            },
        }
    }
}

pub open spec fn separator(k: nat) -> Seq<char> {
    if k > 0 {
        ", "@
    } else {
        Seq::empty()
    }
}

/// `{:?}` of root `k`, after its separator.
pub open spec fn root_piece(s: Seq<(u16, i32)>, k: nat) -> Seq<char> {
    separator(k) + "("@ + dec(s[k as int].0 as nat) + ", "@ + dec_int(s[k as int].1 as int) + ")"@
}

/// `{:?}` of a root list: `[(reg, offset), ...]`.
pub open spec fn roots_debug_from(s: Seq<(u16, i32)>, k: nat) -> Seq<char>
    decreases s.len() - k,
{
    if k >= s.len() {
        Seq::empty()
    } else {
        root_piece(s, k) + roots_debug_from(s, k + 1)
    }
}

pub open spec fn roots_debug(s: Seq<(u16, i32)>) -> Seq<char> {
    "["@ + roots_debug_from(s, 0) + "]"@
}

/// `{:?}` of derived entry `k`, after its separator.
pub open spec fn derived_piece(s: Seq<(u32, u16, i32)>, k: nat) -> Seq<char> {
    separator(k) + "("@ + dec(s[k as int].0 as nat) + ", "@ + dec(s[k as int].1 as nat) + ", "@
        + dec_int(s[k as int].2 as int) + ")"@
}

/// `{:?}` of a derived list: `[(base, reg, offset), ...]`.
pub open spec fn derived_debug_from(s: Seq<(u32, u16, i32)>, k: nat) -> Seq<char>
    decreases s.len() - k,
{
    if k >= s.len() {
        Seq::empty()
    } else {
        derived_piece(s, k) + derived_debug_from(s, k + 1)
    }
}

pub open spec fn derived_debug(s: Seq<(u32, u16, i32)>) -> Seq<char> {
    "["@ + derived_debug_from(s, 0) + "]"@
}

/// Why one record's live set does not decode at `cursor`.
pub open spec fn live_set_fail_msg(b: Seq<u8>, cursor: nat, prev: Option<LiveSet>, w: Seq<char>) -> Seq<
    char,
> {
    match read_varint_spec(b, cursor) {
        None => fail_spec(w, "truncated record header"@),
        Some((header, c1)) => if header % 2 == 1 {
            fail_spec(w, "repeat flag with no previous live set"@)
        } else {
            let count = as_usize(header / 4);
            match decode_slots_from(b, c1, 0, count, Seq::empty()) {
                None => slots_fail_msg(b, c1, 0, count, Seq::empty(), w),
                Some((roots, c2)) => match read_varint_spec(b, c2) {
                    None => fail_spec(w, "truncated derived count"@),
                    Some((dc, c3)) => match decode_bases_from(
                        b,
                        c3,
                        0,
                        dc,
                        roots.len(),
                        Seq::empty(),
                    ) {
                        None => bases_fail_msg(b, c3, 0, dc, roots.len(), w),
                        Some((_, c4)) => slots_fail_msg(b, c4, 0, as_usize(dc), Seq::empty(), w),
                    },
                },
            }
        },
    }
}

/// The message for a record that decodes to another live set than its own.
pub open spec fn mismatch_msg(w: Seq<char>, d: LiveSet, r: RecordModel) -> Seq<char> {
    w + ": the compact stream decodes to ("@ + roots_debug(d.0) + ", "@ + derived_debug(d.1)
        + ") but the stack map recorded roots "@ + roots_debug(r.roots) + " derived "@
        + derived_debug(r.derived)
        + ". Re-encoding changed this safepoint's live set, so the collector would scan different words than LLVM described."@
}

/// Why records `i..` of a function do not verify.
pub open spec fn records_fail_msg(
    b: Seq<u8>,
    cursor: nat,
    recs: Seq<RecordModel>,
    i: nat,
    prev: Option<LiveSet>,
    symbol: Seq<char>,
) -> Seq<char>
    decreases recs.len() - i,
{
    if i >= recs.len() {
        Seq::empty()
    } else {
        let w = where_spec(symbol, i);
        match decode_live_set(b, cursor, prev) {
            None => live_set_fail_msg(b, cursor, prev, w),
            Some((d, c)) => if d != live_set(recs[i as int]) {
                mismatch_msg(w, d, recs[i as int])
            } else {
                records_fail_msg(b, c, recs, i + 1, Some(d), symbol)
            },
        }
    }
}

/// Why functions `f..` do not verify.
pub open spec fn functions_fail_msg(b: Seq<u8>, cursor: nat, fs: Seq<FunctionModel>, f: nat) -> Seq<
    char,
>
    decreases fs.len() - f,
{
    if f >= fs.len() {
        Seq::empty()
    } else {
        match verify_records_from(b, cursor, fs[f as int].records, 0, None) {
            None => records_fail_msg(b, cursor, fs[f as int].records, 0, None, fs[f as int].symbol),
            Some(c) => functions_fail_msg(b, c, fs, f + 1),
        }
    }
}

pub open spec fn trailing_msg(n: nat) -> Seq<char> {
    "the compact stream has "@ + dec(n)
        + " trailing byte(s) after the last record \u{2014} the encoder and the runtime's decoder disagree about the layout"@
}

/// The message `verify_roundtrip` fails with for `stream` against `fs`.
pub open spec fn verify_fail_msg(fs: Seq<FunctionModel>, stream: Seq<u8>) -> Seq<char> {
    match crate::gc_map::stream_spec::verify_functions_from(stream, 0, fs, 0) {
        None => functions_fail_msg(stream, 0, fs, 0),
        Some(c) => trailing_msg(
            if c < stream.len() {
                (stream.len() - c) as nat
            } else {
                0
            },
        ),
    }
}

} // verus!
