//! The byte layouts the compact map and LLVM's stack map fix, stated in
//! their own terms: how long the compact blob is, how a slot is tagged, and
//! how far one v3 record reaches.
use vstd::prelude::*;
use crate::gc_map::decode_spec::{
    decode_locations, decode_record, le_val, lemma_locations_advance, read_le, DecodeError,
};
use crate::gc_map::emit::{blob_len, record_total, wrap_usize};
use crate::gc_map::model::{FunctionModel, RecordModel};
use crate::gc_map::stream_spec::{slot_bytes, slot_delta};
use crate::gc_map::varint::{varint, zigzag_spec};

verus! {

/// `x` rounded up to a multiple of 8.
pub open spec fn round_up8(x: nat) -> nat {
    ((x + 7) / 8 * 8) as nat
}

/// The compact blob is 16 header bytes, then per function one entry (an
/// 8-byte address on LP64, 4 on ILP32, plus a 4-byte stack size and a
/// 4-byte record count), then one 4-byte instruction offset per record, then
/// one byte per stream byte; its length is that sum as `usize` arithmetic
/// computes it. So: with no functions it is 16 plus the stream, each added
/// stream byte adds 1, and each added function adds its entry plus 4 bytes
/// per record it holds.
pub proof fn lemma_blob_len_counts(fs: Seq<FunctionModel>, f: FunctionModel, n: nat, ptr64: bool)
    ensures
        blob_len(Seq::empty(), n, ptr64) == wrap_usize(16 + n),
        blob_len(fs, n + 1, ptr64) == wrap_usize(blob_len(fs, n, ptr64) + 1),
        blob_len(fs.push(f), n, ptr64) == wrap_usize(
            blob_len(fs, n, ptr64) + (if ptr64 {
                8nat
            } else {
                4nat
            }) + 4 + 4 + 4 * f.records.len(),
        ),
{
    let m = usize::MAX as nat + 1;
    let e: nat = if ptr64 {
        16
    } else {
        12
    };
    let base = 16 + fs.len() * e + record_total(fs) * 4;
    assert(fs.push(f).drop_last() =~= fs);
    assert(record_total(fs.push(f)) == record_total(fs)
        + f.records.len());
    assert(fs.push(f).len() * e == fs.len() * e + e) by (nonlinear_arith)
        requires
            fs.push(f).len() == fs.len() + 1,
    ;
    assert((record_total(fs) + f.records.len()) * 4 == record_total(
        fs,
    ) * 4 + 4 * f.records.len()) by (nonlinear_arith);
    let x = base + n;
    let k = e + 4 * f.records.len();
    vstd::arithmetic::div_mod::lemma_add_mod_noop_right(1, x as int, m as int);
    vstd::arithmetic::div_mod::lemma_add_mod_noop_right(k as int, x as int, m as int);
    assert(fs.push(f).len() * e + (record_total(fs) + f.records.len()) * 4 == base - 16 + k);
    assert(0 * e == 0);
}

/// A frame-pointer slot (DWARF 29) is tagged 0 and a stack-pointer slot
/// (DWARF 31) 1, with no register bytes; any other register is tagged 2 and
/// followed by its number. The tag sits in the low two bits under the
/// zigzagged offset delta: the offset itself for a list's first slot, the
/// difference from the slot before otherwise.
pub proof fn lemma_slot_tags(reg: u16, offset: i32, prev: Option<i32>)
    ensures
        ({
            let d = slot_delta(offset, prev) as int;
            let z: nat = if d >= 0 {
                (2 * d) as nat
            } else {
                (-2 * d - 1) as nat
            };
            &&& reg == 29 ==> slot_bytes((reg, offset), prev) == varint(z * 4)
            &&& reg == 31 ==> slot_bytes((reg, offset), prev) == varint(z * 4 + 1)
            &&& reg != 29 && reg != 31 ==> slot_bytes((reg, offset), prev) == varint(z * 4 + 2)
                + varint(reg as nat)
        }),
        prev is None ==> slot_delta(offset, prev) == offset,
        prev is Some && i32::MIN <= offset - prev->Some_0 <= i32::MAX ==> slot_delta(offset, prev)
            == offset - prev->Some_0,
{
    reveal_with_fuel(vstd::wrapping::i32_specs::wrapping_sub, 1);
    let d = slot_delta(offset, prev) as int;
    assert(zigzag_spec(d) == if d >= 0 {
        (2 * d) as nat
    } else {
        (-2 * d - 1) as nat
    });
    assert(varint(zigzag_spec(d) * 4 + 0) == varint(zigzag_spec(d) * 4));
    assert(varint(zigzag_spec(d) * 4) + Seq::<u8>::empty() =~= varint(zigzag_spec(d) * 4));
    assert(varint(zigzag_spec(d) * 4 + 1) + Seq::<u8>::empty() =~= varint(zigzag_spec(d) * 4 + 1));
}

/// An LLVM v3 record is laid out as a 16-byte header (its location count at
/// byte 14), 12 bytes per location, padding to 8, a 4-byte live-out header
/// (its count at byte 2), 4 bytes per live-out, and padding to 8 again. So a
/// record the decoder reads spans exactly that, a multiple of 8 bytes, and
/// the next record starts right after it.
pub proof fn lemma_record_span(
    b: Seq<u8>,
    syms: Seq<(nat, Seq<char>)>,
    symbol: Seq<char>,
    index: nat,
    pos: nat,
)
    ensures
        decode_record(b, syms, symbol, index, pos) matches Ok((next, _)) ==> {
            let lc = le_val(b, pos + 14, 2);
            let first = round_up8(16 + 12 * lc);
            let lo = le_val(b, pos + first + 2, 2);
            &&& next == pos + first + round_up8(4 + 4 * lo)
            &&& (next - pos) % 8 == 0
        },
{
    if let Ok((next, _)) = decode_record(b, syms, symbol, index, pos) {
        let lc = read_le(b, pos + 14, 2)->Some_0;
        lemma_locations_advance(b, symbol, index, pos + 16, 0, lc, Seq::empty());
        let after = decode_locations(b, symbol, index, pos + 16, 0, lc, Seq::empty())->Ok_0.0;
        assert(after == pos + 16 + 12 * lc);
        let first = round_up8(16 + 12 * lc);
        assert(crate::gc_map::decode_spec::align8((after - pos) as nat) == first);
        let p3 = pos + first;
        let lo = read_le(b, p3 + 2, 2)->Some_0;
        let p4 = p3 + 4 + lo * 4;
        assert(first % 8 == 0);
        assert(crate::gc_map::decode_spec::align8((p4 - pos) as nat) == first + round_up8(4 + 4 * lo))
            by (nonlinear_arith)
            requires
                first % 8 == 0,
                p4 - pos == first + 4 + lo * 4,
                crate::gc_map::decode_spec::align8((p4 - pos) as nat) == ((p4 - pos) + 7) / 8 * 8,
                round_up8(4 + 4 * lo) == ((4 + 4 * lo) + 7) / 8 * 8,
                first >= 0,
                lo >= 0,
        ;
        assert((first + round_up8(4 + 4 * lo)) % 8 == 0) by (nonlinear_arith)
            requires
                first % 8 == 0,
                round_up8(4 + 4 * lo) == ((4 + 4 * lo) + 7) / 8 * 8,
        ;
    }
}

} // verus!
