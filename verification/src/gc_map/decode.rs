//! Decode the bytes of LLVM's stack-map block into functions and records.
use vstd::prelude::*;
use crate::gc_map::block::{symbols_view, RawBlock};
use crate::gc_map::decode_spec::{
    align8, as_i32, as_usize, decode_finish, decode_from, decode_functions, decode_heads,
    decode_locations, decode_map, decode_record, decode_records, decode_spec, le_val,
    lookup_symbol, offset_expr_at, read_le, read_location, record_of, DecodeError, Loc,
    TruncWhat,
};
use crate::gc_map::model::{functions_model, records_model, FunctionMap, FunctionModel, Record};
use crate::gc_map::slots::{
    collect_slots_exec, resolve_derived_exec, sort_derived_exec, sort_roots_exec,
};
use crate::numtext::{dec, dec_u64, hex, push_dec, push_hex};
use crate::text::{push_chars, push_str, slice_chars, string_of};

verus! {

pub open spec fn pow256(w: nat) -> nat
    decreases w,
{
    if w == 0 {
        1
    } else {
        256 * pow256((w - 1) as nat)
    }
}

pub proof fn lemma_pow256_values()
    ensures
        pow256(2) == 0x1_0000,
        pow256(4) == 0x1_0000_0000,
        pow256(8) == 0x1_0000_0000_0000_0000,
{
    reveal_with_fuel(pow256, 9);
}

proof fn lemma_pow256_mono(a: nat, b: nat)
    requires
        a <= b,
    ensures
        pow256(a) <= pow256(b),
    decreases b,
{
    if a < b {
        lemma_pow256_mono(a, (b - 1) as nat);
    }
}

pub proof fn lemma_le_val_bound(b: Seq<u8>, at: nat, w: nat)
    requires
        at + w <= b.len(),
    ensures
        le_val(b, at, w) < pow256(w),
    decreases w,
{
    if w > 0 {
        lemma_le_val_bound(b, at + 1, (w - 1) as nat);
    }
}

/// The `w`-byte little-endian value at `base + off`, if the block holds it.
fn read_le_exec(b: &Vec<u8>, base: usize, off: usize, w: usize) -> (r: Option<u64>)
    requires
        w <= 8,
        off <= 64,
    ensures
        match r {
            Some(v) => read_le(b@, (base + off) as nat, w as nat) == Some(v as nat),
            None => read_le(b@, (base + off) as nat, w as nat) is None,
        },
{
    let len = b.len();
    if base > len || len - base < off + w {
        return None;
    }
    let at = base + off;
    proof {
        lemma_pow256_mono(w as nat, 8);
        lemma_pow256_values();
    }
    let mut acc: u64 = 0;
    let mut k: usize = w;
    while k > 0
        invariant
            k <= w <= 8,
            at + w <= b@.len(),
            len == b@.len(),
            acc as nat == le_val(b@, (at + k) as nat, (w - k) as nat),
            pow256(w as nat) <= 0x1_0000_0000_0000_0000,
        decreases k,
    {
        proof {
            lemma_le_val_bound(b@, (at + k) as nat, (w - k) as nat);
            lemma_pow256_mono((w - k + 1) as nat, w as nat);
        }
        k -= 1;
        assert(pow256((w - k) as nat) == 256 * pow256((w - k - 1) as nat));
        assert(acc * 256 + 255 < pow256((w - k) as nat));
        acc = acc * 256 + b[at + k] as u64;
    }
    Some(acc)
}

/// The operand text a data directive named at byte offset `at`.
fn lookup_symbol_exec(syms: &Vec<(usize, Vec<char>)>, at: usize) -> (r: Option<Vec<char>>)
    ensures
        match r {
            Some(e) => lookup_symbol(symbols_view(syms@), at as nat) == Some(e@),
            None => lookup_symbol(symbols_view(syms@), at as nat) is None,
        },
{
    let ghost sv = symbols_view(syms@);
    let mut i = syms.len();
    assert(sv.take(i as int) =~= sv);
    while i > 0
        invariant
            i <= syms@.len(),
            sv == symbols_view(syms@),
            lookup_symbol(sv, at as nat) == lookup_symbol(sv.take(i as int), at as nat),
        decreases i,
    {
        assert(sv.take(i as int).drop_last() =~= sv.take(i - 1));
        assert(sv.take(i as int).last() == sv[i - 1]);
        if syms[i - 1].0 == at {
            let e = slice_chars(&syms[i - 1].1, 0, syms[i - 1].1.len());
            assert(e@ =~= syms@[i - 1].1@);
            return Some(e);
        }
        i -= 1;
    }
    None
}

/// Which read of the block ran past its end.
pub enum TruncatedPart {
    FunctionRecord,
    Record { symbol: Vec<char>, index: usize },
    Location { symbol: Vec<char>, index: usize, location: usize },
    LiveOuts { symbol: Vec<char>, index: usize },
}

/// Why a stack-map block does not decode.
pub enum DecodeFailure {
    Truncated { what: TruncatedPart, at: usize },
    LiteralAddress { map: usize, index: usize, pos: usize, value: u64 },
    RecordCountOverflow,
    CountMismatch { map: usize, expected: usize, declared: u64 },
    ConstantPoolOverflow,
    NoFunctions { maps: usize },
}

impl TruncatedPart {
    pub open spec fn model(&self) -> TruncWhat {
        match self {
            TruncatedPart::FunctionRecord => TruncWhat::FunctionRecord,
            TruncatedPart::Record { symbol, index } => TruncWhat::Record {
                symbol: symbol@,
                index: *index as nat,
            },
            TruncatedPart::Location { symbol, index, location } => TruncWhat::Location {
                symbol: symbol@,
                index: *index as nat,
                location: *location as nat,
            },
            TruncatedPart::LiveOuts { symbol, index } => TruncWhat::LiveOuts {
                symbol: symbol@,
                index: *index as nat,
            },
        }
    }
}

impl DecodeFailure {
    pub open spec fn model(&self) -> DecodeError {
        match self {
            DecodeFailure::Truncated { what, at } => DecodeError::Truncated {
                what: what.model(),
                at: *at as nat,
            },
            DecodeFailure::LiteralAddress { map, index, pos, value } => DecodeError::LiteralAddress {
                map: *map as nat,
                index: *index as nat,
                pos: *pos as nat,
                value: *value as nat,
            },
            DecodeFailure::RecordCountOverflow => DecodeError::RecordCountOverflow,
            DecodeFailure::CountMismatch { map, expected, declared } => DecodeError::CountMismatch {
                map: *map as nat,
                expected: *expected as nat,
                declared: *declared as nat,
            },
            DecodeFailure::ConstantPoolOverflow => DecodeError::ConstantPoolOverflow,
            DecodeFailure::NoFunctions { maps } => DecodeError::NoFunctions { maps: *maps as nat },
        }
    }
}

pub open spec fn trunc_what_text(w: TruncWhat) -> Seq<char> {
    match w {
        TruncWhat::MapHeader => "map header"@,
        TruncWhat::FunctionRecord => "function record"@,
        TruncWhat::Record { symbol, index } => symbol + " record "@ + dec(index),
        TruncWhat::Location { symbol, index, location } => symbol + " record "@ + dec(index)
            + " location "@ + dec(location),
        TruncWhat::LiveOuts { symbol, index } => symbol + " record "@ + dec(index)
            + " live-outs"@,
    }
}

pub const MSG_LITERAL_TAIL: &'static str = "), not a symbol reference. The rewriter re-emits that address as `.quad <symbol>` and has no way to name a function it was given only as a number.";

pub const MSG_MISMATCH_TAIL: &'static str = ". The byte stream and the assembly directives that produced it have desynchronised \u{2014} usually a directive inside the block whose width the rewriter models incorrectly.";

/// The message a decode failure is reported with, for a block of `len` bytes.
pub open spec fn decode_error_text(e: DecodeError, len: nat) -> Seq<char> {
    match e {
        DecodeError::Truncated { what, at } => trunc_what_text(what)
            + " runs past the end of the "@ + dec(len) + " byte block (offset "@ + dec(at)
            + ")"@,
        DecodeError::LiteralAddress { map, index, pos, value } => "map "@ + dec(map)
            + " function["@ + dec(index) + "]: the 8-byte function address at block offset "@
            + dec(pos) + " is a literal (0x"@ + hex(value) + MSG_LITERAL_TAIL@,
        DecodeError::RecordCountOverflow => "record count overflow"@,
        DecodeError::CountMismatch { map, expected, declared } => "map "@ + dec(map)
            + ": the per-function record counts sum to "@ + dec(expected)
            + " but the map header declares "@ + dec(declared) + MSG_MISMATCH_TAIL@,
        DecodeError::ConstantPoolOverflow => "constant pool overflow"@,
        DecodeError::NoFunctions { maps } => "walked "@ + dec(len) + " bytes and found "@ + dec(
            maps,
        ) + " map header(s) but no function records"@,
    }
}

fn trunc_text(w: &TruncatedPart) -> (r: Vec<char>)
    ensures
        r@ == trunc_what_text(w.model()),
{
    let mut m: Vec<char> = Vec::new();
    match w {
        TruncatedPart::FunctionRecord => {
            push_str(&mut m, "function record");
        },
        TruncatedPart::Record { symbol, index } => {
            push_chars(&mut m, symbol);
            push_str(&mut m, " record ");
            push_dec(&mut m, *index as u64);
        },
        TruncatedPart::Location { symbol, index, location } => {
            push_chars(&mut m, symbol);
            push_str(&mut m, " record ");
            push_dec(&mut m, *index as u64);
            push_str(&mut m, " location ");
            push_dec(&mut m, *location as u64);
        },
        TruncatedPart::LiveOuts { symbol, index } => {
            push_chars(&mut m, symbol);
            push_str(&mut m, " record ");
            push_dec(&mut m, *index as u64);
            push_str(&mut m, " live-outs");
        },
    }
    assert(m@ =~= trunc_what_text(w.model()));
    m
}

/// The message for `e`, for a block of `len` bytes.
pub fn decode_failure_text(e: &DecodeFailure, len: usize) -> (r: Vec<char>)
    ensures
        r@ == decode_error_text(e.model(), len as nat),
{
    let mut m: Vec<char> = Vec::new();
    match e {
        DecodeFailure::Truncated { what, at } => {
            let w = trunc_text(what);
            push_chars(&mut m, &w);
            push_str(&mut m, " runs past the end of the ");
            push_dec(&mut m, len as u64);
            push_str(&mut m, " byte block (offset ");
            push_dec(&mut m, *at as u64);
            push_str(&mut m, ")");
        },
        DecodeFailure::LiteralAddress { map, index, pos, value } => {
            push_str(&mut m, "map ");
            push_dec(&mut m, *map as u64);
            push_str(&mut m, " function[");
            push_dec(&mut m, *index as u64);
            push_str(&mut m, "]: the 8-byte function address at block offset ");
            push_dec(&mut m, *pos as u64);
            push_str(&mut m, " is a literal (0x");
            push_hex(&mut m, *value);
            push_str(&mut m, MSG_LITERAL_TAIL);
        },
        DecodeFailure::RecordCountOverflow => {
            push_str(&mut m, "record count overflow");
        },
        DecodeFailure::CountMismatch { map, expected, declared } => {
            push_str(&mut m, "map ");
            push_dec(&mut m, *map as u64);
            push_str(&mut m, ": the per-function record counts sum to ");
            push_dec(&mut m, *expected as u64);
            push_str(&mut m, " but the map header declares ");
            push_dec(&mut m, *declared);
            push_str(&mut m, MSG_MISMATCH_TAIL);
        },
        DecodeFailure::ConstantPoolOverflow => {
            push_str(&mut m, "constant pool overflow");
        },
        DecodeFailure::NoFunctions { maps } => {
            push_str(&mut m, "walked ");
            push_dec(&mut m, len as u64);
            push_str(&mut m, " bytes and found ");
            push_dec(&mut m, *maps as u64);
            push_str(&mut m, " map header(s) but no function records");
        },
    }
    assert(m@ =~= decode_error_text(e.model(), len as nat));
    m
}

pub open spec fn heads_view(hs: Seq<(Vec<char>, u64, usize)>) -> Seq<(Seq<char>, u64, nat)> {
    Seq::new(hs.len(), |i: int| (hs[i].0@, hs[i].1, hs[i].2 as nat))
}

fn as_usize_exec(v: u64) -> (r: usize)
    ensures
        r as nat == as_usize(v as nat),
{
    if v <= usize::MAX as u64 {
        proof {
            vstd::arithmetic::div_mod::lemma_small_mod(v as nat, usize::MAX as nat + 1);
        }
        v as usize
    } else {
        (v % (usize::MAX as u64 + 1)) as usize
    }
}

/// The function entries of the map whose entries start at `pos0`.
fn decode_heads_exec(
    b: &Vec<u8>,
    syms: &Vec<(usize, Vec<char>)>,
    map: usize,
    pos0: usize,
    count: usize,
) -> (r: Result<(usize, usize, Vec<(Vec<char>, u64, usize)>), DecodeFailure>)
    requires
        pos0 <= b@.len(),
    ensures
        match r {
            Ok((p, e, hs)) => decode_heads(
                b@,
                symbols_view(syms@),
                map as nat,
                pos0 as nat,
                0,
                count as nat,
                0,
                Seq::empty(),
            ) == Ok::<_, DecodeError>((p as nat, e as nat, heads_view(hs@))) && p <= b@.len(),
            Err(f) => decode_heads(
                b@,
                symbols_view(syms@),
                map as nat,
                pos0 as nat,
                0,
                count as nat,
                0,
                Seq::empty(),
            ) == Err::<(nat, nat, Seq<(Seq<char>, u64, nat)>), _>(f.model()),
        },
{
    let ghost sv = symbols_view(syms@);
    let len = b.len();
    let mut pos = pos0;
    let mut expected: usize = 0;
    let mut acc: Vec<(Vec<char>, u64, usize)> = Vec::new();
    let mut index: usize = 0;
    assert(heads_view(acc@) =~= Seq::empty());
    while index < count
        invariant
            index <= count,
            pos <= b@.len(),
            len == b@.len(),
            sv == symbols_view(syms@),
            decode_heads(b@, sv, map as nat, pos0 as nat, 0, count as nat, 0, Seq::empty())
                == decode_heads(
                b@,
                sv,
                map as nat,
                pos as nat,
                index as nat,
                count as nat,
                expected as nat,
                heads_view(acc@),
            ),
        decreases count - index,
    {
        match lookup_symbol_exec(syms, pos) {
            None => {
                let value = match read_le_exec(b, pos, 0, 8) {
                    Some(v) => v,
                    None => 0,
                };
                return Err(DecodeFailure::LiteralAddress { map, index, pos, value });
            },
            Some(symbol) => {
                let stack_size = match read_le_exec(b, pos, 8, 8) {
                    Some(v) => v,
                    None => {
                        return Err(
                            DecodeFailure::Truncated { what: TruncatedPart::FunctionRecord, at: pos },
                        );
                    },
                };
                let records = match read_le_exec(b, pos, 16, 8) {
                    Some(v) => v,
                    None => {
                        return Err(
                            DecodeFailure::Truncated { what: TruncatedPart::FunctionRecord, at: pos },
                        );
                    },
                };
                let r = as_usize_exec(records);
                if r > usize::MAX - expected {
                    return Err(DecodeFailure::RecordCountOverflow);
                }
                let ghost before = heads_view(acc@);
                acc.push((symbol, stack_size, r));
                assert(heads_view(acc@) =~= before.push((symbol@, stack_size, r as nat)));
                pos = pos + 24;
                expected = expected + r;
                index = index + 1;
            },
        }
    }
    Ok((pos, expected, acc))
}

fn as_i32_exec(v: u64) -> (r: i32)
    requires
        v < 0x1_0000_0000,
    ensures
        r == as_i32(v as nat),
{
    if v < 0x8000_0000 {
        v as i32
    } else {
        (v as i64 - 0x1_0000_0000) as i32
    }
}

/// The record at `pos` of function `symbol` (record `index`).
#[verifier::rlimit(30)]
#[verifier::loop_isolation(false)]
fn decode_record_exec(
    b: &Vec<u8>,
    syms: &Vec<(usize, Vec<char>)>,
    symbol: &Vec<char>,
    index: usize,
    pos: usize,
) -> (r: Result<(usize, Record), DecodeFailure>)
    requires
        b@.len() <= isize::MAX,
    ensures
        match r {
            Ok((p, rec)) => decode_record(b@, symbols_view(syms@), symbol@, index as nat, pos as nat)
                == Ok::<_, DecodeError>((p as nat, rec.model())) && p <= b@.len(),
            Err(f) => decode_record(b@, symbols_view(syms@), symbol@, index as nat, pos as nat)
                == Err::<(nat, crate::gc_map::model::RecordModel), _>(f.model()),
        },
{
    let ghost sv = symbols_view(syms@);
    let len = b.len();
    let location_count = match read_le_exec(b, pos, 14, 2) {
        Some(v) => v,
        None => {
            let s = slice_chars(symbol, 0, symbol.len());
            assert(s@ =~= symbol@);
            return Err(
                DecodeFailure::Truncated { what: TruncatedPart::Record { symbol: s, index }, at: pos },
            );
        },
    };
    proof {
        lemma_le_val_bound(b@, (pos + 14) as nat, 2);
        lemma_pow256_values();
    }
    let offset_expr = match lookup_symbol_exec(syms, pos + 8) {
        Some(e) => e,
        None => {
            let v = match read_le_exec(b, pos, 8, 4) {
                Some(v) => v,
                None => 0,
            };
            dec_u64(v)
        },
    };
    assert(offset_expr@ == offset_expr_at(b@, sv, pos as nat));
    let lc = location_count as usize;
    let mut p = pos + 16;
    let mut locs: Vec<Loc> = Vec::new();
    let mut i: usize = 0;
    while i < lc
        invariant
            i <= lc,
            pos + 16 <= p <= b@.len(),
            b@.len() <= isize::MAX,
            decode_locations(b@, symbol@, index as nat, (pos + 16) as nat, 0, lc as nat, Seq::empty())
                == decode_locations(b@, symbol@, index as nat, p as nat, i as nat, lc as nat, locs@),
        decreases lc - i,
    {
        if len - p < 12 {
            let s = slice_chars(symbol, 0, symbol.len());
            assert(s@ =~= symbol@);
            return Err(
                DecodeFailure::Truncated {
                    what: TruncatedPart::Location { symbol: s, index, location: i },
                    at: p,
                },
            );
        }
        let kind = b[p];
        let size = match read_le_exec(b, p, 2, 2) {
            Some(v) => v,
            None => 0,
        };
        let reg = match read_le_exec(b, p, 4, 2) {
            Some(v) => v,
            None => 0,
        };
        let off = match read_le_exec(b, p, 8, 4) {
            Some(v) => v,
            None => 0,
        };
        proof {
            lemma_le_val_bound(b@, (p + 2) as nat, 2);
            lemma_le_val_bound(b@, (p + 4) as nat, 2);
            lemma_le_val_bound(b@, (p + 8) as nat, 4);
            lemma_pow256_values();
            lemma_pow256_values();
        }
        let l: Loc = (kind, size as u16, reg as u16, as_i32_exec(off));
        assert(read_location(b@, p as nat) == Some(l));
        locs.push(l);
        p = p + 12;
        i = i + 1;
    }
    let d = p - pos;
    let p3 = pos + (d + 7) / 8 * 8;
    assert(p3 == align8(d as nat) + pos);
    let live_outs = match read_le_exec(b, p3, 2, 2) {
        Some(v) => v,
        None => {
            let s = slice_chars(symbol, 0, symbol.len());
            assert(s@ =~= symbol@);
            return Err(
                DecodeFailure::Truncated { what: TruncatedPart::LiveOuts { symbol: s, index }, at: p3 },
            );
        },
    };
    proof {
        lemma_le_val_bound(b@, (p3 + 2) as nat, 2);
        lemma_pow256_values();
    }
    let p4 = p3 + 4 + live_outs as usize * 4;
    let d4 = p4 - pos;
    let p5 = pos + (d4 + 7) / 8 * 8;
    assert(p5 == align8(d4 as nat) + pos);
    if p5 > len {
        let s = slice_chars(symbol, 0, symbol.len());
        assert(s@ =~= symbol@);
        return Err(
            DecodeFailure::Truncated { what: TruncatedPart::Record { symbol: s, index }, at: p5 },
        );
    }
    let (roots, pairs) = collect_slots_exec(&locs);
    let sorted = sort_roots_exec(&roots);
    let resolved = resolve_derived_exec(&pairs, &sorted);
    let derived = sort_derived_exec(&resolved);
    let rec = Record { instruction_offset: string_of(&offset_expr), roots: sorted, derived };
    assert(rec.model() == record_of(offset_expr_at(b@, sv, pos as nat), locs@));
    Ok((p5, rec))
}

/// Records `0..count` of function `symbol`, from `pos`.
fn decode_records_exec(
    b: &Vec<u8>,
    syms: &Vec<(usize, Vec<char>)>,
    symbol: &Vec<char>,
    pos0: usize,
    count: usize,
) -> (r: Result<(usize, Vec<Record>), DecodeFailure>)
    requires
        b@.len() <= isize::MAX,
    ensures
        match r {
            Ok((p, recs)) => decode_records(
                b@,
                symbols_view(syms@),
                symbol@,
                pos0 as nat,
                0,
                count as nat,
                Seq::empty(),
            ) == Ok::<_, DecodeError>((p as nat, records_model(recs@))),
            Err(f) => decode_records(
                b@,
                symbols_view(syms@),
                symbol@,
                pos0 as nat,
                0,
                count as nat,
                Seq::empty(),
            ) == Err::<(nat, Seq<crate::gc_map::model::RecordModel>), _>(f.model()),
        },
{
    let ghost sv = symbols_view(syms@);
    let mut pos = pos0;
    let mut recs: Vec<Record> = Vec::new();
    let mut i: usize = 0;
    assert(records_model(recs@) =~= Seq::empty());
    while i < count
        invariant
            i <= count,
            b@.len() <= isize::MAX,
            sv == symbols_view(syms@),
            decode_records(b@, sv, symbol@, pos0 as nat, 0, count as nat, Seq::empty())
                == decode_records(
                b@,
                sv,
                symbol@,
                pos as nat,
                i as nat,
                count as nat,
                records_model(recs@),
            ),
        decreases count - i,
    {
        match decode_record_exec(b, syms, symbol, i, pos) {
            Err(f) => {
                return Err(f);
            },
            Ok((next, rec)) => {
                let ghost before = records_model(recs@);
                let ghost m = rec.model();
                recs.push(rec);
                assert(records_model(recs@) =~= before.push(m));
                pos = next;
                i = i + 1;
            },
        }
    }
    Ok((pos, recs))
}

/// The records of every function head, in order, from `pos0`.
fn decode_functions_exec(
    b: &Vec<u8>,
    syms: &Vec<(usize, Vec<char>)>,
    pos0: usize,
    heads: Vec<(Vec<char>, u64, usize)>,
) -> (r: Result<(usize, Vec<FunctionMap>), DecodeFailure>)
    requires
        b@.len() <= isize::MAX,
    ensures
        match r {
            Ok((p, fs)) => decode_functions(
                b@,
                symbols_view(syms@),
                pos0 as nat,
                heads_view(heads@),
                0,
                Seq::empty(),
            ) == Ok::<_, DecodeError>((p as nat, functions_model(fs@))),
            Err(f) => decode_functions(
                b@,
                symbols_view(syms@),
                pos0 as nat,
                heads_view(heads@),
                0,
                Seq::empty(),
            ) == Err::<(nat, Seq<FunctionModel>), _>(f.model()),
        },
{
    let ghost sv = symbols_view(syms@);
    let ghost hv = heads_view(heads@);
    let mut pos = pos0;
    let mut out: Vec<FunctionMap> = Vec::new();
    let mut f: usize = 0;
    assert(functions_model(out@) =~= Seq::empty());
    while f < heads.len()
        invariant
            f <= heads@.len(),
            b@.len() <= isize::MAX,
            sv == symbols_view(syms@),
            hv == heads_view(heads@),
            decode_functions(b@, sv, pos0 as nat, hv, 0, Seq::empty()) == decode_functions(
                b@,
                sv,
                pos as nat,
                hv,
                f as nat,
                functions_model(out@),
            ),
        decreases heads.len() - f,
    {
        let symbol = &heads[f].0;
        let stack_size = heads[f].1;
        let count = heads[f].2;
        match decode_records_exec(b, syms, symbol, pos, count) {
            Err(e) => {
                return Err(e);
            },
            Ok((next, records)) => {
                let fm = FunctionMap { symbol: string_of(symbol), stack_size, records };
                let ghost before = functions_model(out@);
                let ghost m = fm.model();
                out.push(fm);
                assert(functions_model(out@) =~= before.push(m));
                pos = next;
                f = f + 1;
            },
        }
    }
    Ok((pos, out))
}

/// The map whose header is at `pos`.
fn decode_map_exec(b: &Vec<u8>, syms: &Vec<(usize, Vec<char>)>, pos: usize, map: usize) -> (r:
    Result<(usize, Vec<FunctionMap>), DecodeFailure>)
    requires
        pos + 16 <= b@.len(),
        b@.len() <= isize::MAX,
    ensures
        match r {
            Ok((p, fs)) => decode_map(b@, symbols_view(syms@), pos as nat, map as nat) == Ok::<
                _,
                DecodeError,
            >((p as nat, functions_model(fs@))),
            Err(f) => decode_map(b@, symbols_view(syms@), pos as nat, map as nat) == Err::<
                (nat, Seq<FunctionModel>),
                _,
            >(f.model()),
        },
{
    let function_count = match read_le_exec(b, pos, 4, 4) {
        Some(v) => v,
        None => 0,
    };
    let constant_count = match read_le_exec(b, pos, 8, 4) {
        Some(v) => v,
        None => 0,
    };
    let record_count = match read_le_exec(b, pos, 12, 4) {
        Some(v) => v,
        None => 0,
    };
    proof {
        lemma_le_val_bound(b@, (pos + 4) as nat, 4);
        lemma_le_val_bound(b@, (pos + 8) as nat, 4);
        lemma_pow256_values();
    }
    let (after_heads, expected, heads) = match decode_heads_exec(
        b,
        syms,
        map,
        pos + 16,
        function_count as usize,
    ) {
        Err(e) => {
            return Err(e);
        },
        Ok(t) => t,
    };
    if expected as u64 != record_count {
        return Err(DecodeFailure::CountMismatch { map, expected, declared: record_count });
    }
    let cc = constant_count as usize;
    if cc > usize::MAX / 8 {
        return Err(DecodeFailure::ConstantPoolOverflow);
    }
    if after_heads > usize::MAX - cc * 8 {
        return Err(DecodeFailure::ConstantPoolOverflow);
    }
    decode_functions_exec(b, syms, after_heads + cc * 8, heads)
}

/// Decode every concatenated v3 map in the block into its functions.
#[verifier::loop_isolation(false)]
pub fn decode_blocks(block: &RawBlock) -> (r: Result<Vec<FunctionMap>, DecodeFailure>)
    requires
        block.bytes@.len() <= isize::MAX,
    ensures
        match r {
            Ok(fs) => decode_spec(block.bytes@, symbols_view(block.symbols@)) == Ok::<
                _,
                DecodeError,
            >(functions_model(fs@)),
            Err(f) => decode_spec(block.bytes@, symbols_view(block.symbols@)) == Err::<
                Seq<FunctionModel>,
                _,
            >(f.model()),
        },
{
    let b = &block.bytes;
    let syms = &block.symbols;
    let ghost sv = symbols_view(syms@);
    let len = b.len();
    let mut out: Vec<FunctionMap> = Vec::new();
    let mut pos: usize = 0;
    let mut maps: usize = 0;
    assert(functions_model(out@) =~= Seq::empty());
    loop
        invariant
            pos <= len == b@.len() <= isize::MAX,
            maps <= pos,
            sv == symbols_view(syms@),
            decode_spec(b@, sv) == decode_from(b@, sv, pos as nat, maps as nat, functions_model(out@)),
        decreases len - pos,
    {
        if len - pos < 16 {
            if out.len() == 0 {
                return Err(DecodeFailure::NoFunctions { maps });
            }
            return Ok(out);
        }
        if b[pos] != 3 {
            pos = pos + 1;
            continue;
        }
        match decode_map_exec(b, syms, pos, maps + 1) {
            Err(e) => {
                return Err(e);
            },
            Ok((next, fs)) => {
                let ghost before = functions_model(out@);
                let ghost added = functions_model(fs@);
                let mut fs = fs;
                out.append(&mut fs);
                assert(functions_model(out@) =~= before + added);
                if next > len || len - next < 16 {
                    if out.len() == 0 {
                        return Err(DecodeFailure::NoFunctions { maps: maps + 1 });
                    }
                    return Ok(out);
                }
                proof {
                    crate::gc_map::decode_spec::lemma_decode_map_advances(
                        b@,
                        sv,
                        pos as nat,
                        (maps + 1) as nat,
                    );
                }
                pos = next;
                maps = maps + 1;
            },
        }
    }
}

/// Decode every concatenated v3 map in the block.
///
/// The section is a sequence of maps, one per object the linker saw, so this
/// walks until fewer than a header's 16 bytes remain. Fails, with a message
/// that names the offset, when a read runs past the end of the block, when a
/// function address is a literal rather than a symbol, when the per-function
/// record counts disagree with the map header, or when no function records
/// were found at all.
pub fn decode_v3(block: &RawBlock) -> (r: Result<Vec<FunctionMap>, String>)
    requires
        block.bytes@.len() <= isize::MAX,
    ensures
        match decode_spec(block.bytes@, symbols_view(block.symbols@)) {
            Ok(fs) => r is Ok && functions_model(r->Ok_0@) == fs,
            Err(e) => r is Err && r->Err_0@ == decode_error_text(e, block.bytes@.len()),
        },
{
    match decode_blocks(block) {
        Ok(fs) => Ok(fs),
        Err(e) => {
            let m = decode_failure_text(&e, block.bytes.len());
            Err(string_of(&m))
        },
    }
}

} // verus!
