//! Encode the decoded stack map into the compact root stream, and check that
//! the stream decodes back to every record's live set.
use vstd::prelude::*;
use crate::gc_map::decode_spec::as_usize;
use crate::gc_map::model::{functions_model, records_model, FunctionMap, Record};
use crate::gc_map::stream_spec::{
    base_bytes_from, base_tag, decode_bases_from, decode_live_set, decode_slots_from,
    derived_slots, encodable, encode_stream_spec, header_word, live_set, live_set_bytes,
    prev_live_set, prev_offset, record_bytes, records_bytes_from, roundtrip_ok, slot_bytes,
    slot_reg, slots_bytes, slots_bytes_from, stream_from, verify_functions_from,
    verify_records_from, zip_derived, LiveSet, DWARF_REG_FP_AARCH64, DWARF_REG_SP_AARCH64,
};
use crate::gc_map::stream_messages::{
    bases_fail_msg, derived_debug, derived_debug_from, derived_piece, fail_spec, functions_fail_msg,
    live_set_fail_msg, mismatch_msg, records_fail_msg, root_piece, roots_debug, roots_debug_from,
    slots_fail_msg, verify_fail_msg, where_spec,
};
use crate::gc_map::varint::{push_varint, read_varint, read_varint_spec, unzigzag, zigzag};
use crate::numtext::{push_dec, push_dec_i64};
use crate::text::{push_chars, push_str, string_of};

verus! {

/// `encode_slots`: append one slot list in the shared tag/delta coding.
/// Deltas are zigzagged, so an out-of-order offset costs a byte or two rather
/// than a sign-extended ten-byte varint.
pub fn encode_slots(stream: &mut Vec<u8>, slots: &Vec<(u16, i32)>)
    ensures
        final(stream)@ == old(stream)@ + slots_bytes(slots@),
{
    let ghost start = stream@;
    let ghost s = slots@;
    let mut k: usize = 0;
    while k < slots.len()
        invariant
            k <= slots@.len(),
            s == slots@,
            stream@ + slots_bytes_from(s, k as nat) == start + slots_bytes_from(s, 0),
        decreases slots.len() - k,
    {
        let (reg, offset) = slots[k];
        let delta = if k == 0 {
            offset
        } else {
            offset.wrapping_sub(slots[k - 1].1)
        };
        let tag: u64 = if reg == DWARF_REG_FP_AARCH64 {
            0
        } else if reg == DWARF_REG_SP_AARCH64 {
            1
        } else {
            2
        };
        let ghost before = stream@;
        let z = zigzag(delta);
        push_varint(stream, z * 4 + tag);
        if tag == 2 {
            push_varint(stream, reg as u64);
        }
        assert(stream@ =~= before + slot_bytes(s[k as int], prev_offset(s, k as int)));
        k += 1;
        assert(stream@ + slots_bytes_from(s, k as nat) =~= before + slots_bytes_from(
            s,
            (k - 1) as nat,
        ));
    }
    assert(stream@ =~= stream@ + slots_bytes_from(s, k as nat));
}

fn eq_roots(a: &Vec<(u16, i32)>, b: &Vec<(u16, i32)>) -> (r: bool)
    ensures
        r == (a@ == b@),
{
    if a.len() != b.len() {
        return false;
    }
    let mut i: usize = 0;
    while i < a.len()
        invariant
            i <= a.len() == b.len(),
            forall|j: int| 0 <= j < i ==> a@[j] == b@[j],
        decreases a.len() - i,
    {
        if a[i].0 != b[i].0 || a[i].1 != b[i].1 {
            return false;
        }
        i += 1;
    }
    assert(a@ =~= b@);
    true
}

fn eq_derived(a: &Vec<(u32, u16, i32)>, b: &Vec<(u32, u16, i32)>) -> (r: bool)
    ensures
        r == (a@ == b@),
{
    if a.len() != b.len() {
        return false;
    }
    let mut i: usize = 0;
    while i < a.len()
        invariant
            i <= a.len() == b.len(),
            forall|j: int| 0 <= j < i ==> a@[j] == b@[j],
        decreases a.len() - i,
    {
        if a[i].0 != b[i].0 || a[i].1 != b[i].1 || a[i].2 != b[i].2 {
            return false;
        }
        i += 1;
    }
    assert(a@ =~= b@);
    true
}

fn derived_slots_exec(d: &Vec<(u32, u16, i32)>) -> (r: Vec<(u16, i32)>)
    ensures
        r@ == derived_slots(d@),
{
    let mut r: Vec<(u16, i32)> = Vec::new();
    let mut i: usize = 0;
    while i < d.len()
        invariant
            i <= d.len(),
            r@ =~= derived_slots(d@).take(i as int),
        decreases d.len() - i,
    {
        r.push((d[i].1, d[i].2));
        i += 1;
    }
    r
}

/// Append the explicit encoding of one live set.
fn encode_live_set(stream: &mut Vec<u8>, roots: &Vec<(u16, i32)>, derived: &Vec<(u32, u16, i32)>)
    requires
        roots@.len() < 0x4000_0000_0000_0000,
    ensures
        final(stream)@ == old(stream)@ + live_set_bytes(roots@, derived@),
{
    let has_derived: u64 = if derived.len() > 0 {
        1
    } else {
        0
    };
    push_varint(stream, roots.len() as u64 * 4 + has_derived * 2);
    encode_slots(stream, roots);
    if derived.len() > 0 {
        let ghost mid = stream@;
        push_varint(stream, derived.len() as u64);
        let ghost after_count = stream@;
        let mut k: usize = 0;
        while k < derived.len()
            invariant
                k <= derived@.len(),
                stream@ + base_bytes_from(derived@, k as nat) == after_count + base_bytes_from(
                    derived@,
                    0,
                ),
            decreases derived.len() - k,
        {
            let ghost before = stream@;
            push_varint(stream, derived[k].0 as u64);
            k += 1;
            assert(stream@ + base_bytes_from(derived@, k as nat) =~= before + base_bytes_from(
                derived@,
                (k - 1) as nat,
            ));
        }
        assert(stream@ =~= stream@ + base_bytes_from(derived@, k as nat));
        let slots = derived_slots_exec(derived);
        encode_slots(stream, &slots);
    }
    assert(stream@ =~= old(stream)@ + live_set_bytes(roots@, derived@));
}

/// `encode_stream`: every function's records, each as the repeat flag when
/// its live set (bases and deriveds) is the previous record's, else as its
/// header word, roots and derived slots.
pub fn encode_stream(functions: &[FunctionMap]) -> (r: Vec<u8>)
    requires
        encodable(functions_model(functions@)),
    ensures
        r@ == encode_stream_spec(functions_model(functions@)),
{
    let ghost fs = functions_model(functions@);
    let mut stream: Vec<u8> = Vec::new();
    let mut f: usize = 0;
    while f < functions.len()
        invariant
            f <= functions@.len(),
            fs == functions_model(functions@),
            encodable(fs),
            stream@ + stream_from(fs, f as nat) == encode_stream_spec(fs),
        decreases functions.len() - f,
    {
        let records = &functions[f].records;
        let ghost recs = records_model(records@);
        assert(recs == fs[f as int].records);
        let ghost at_function = stream@;
        let mut i: usize = 0;
        while i < records.len()
            invariant
                i <= records@.len(),
                recs == records_model(records@),
                forall|j: int| 0 <= j < recs.len() ==> #[trigger] recs[j].roots.len()
                    < 0x4000_0000_0000_0000,
                stream@ + records_bytes_from(recs, i as nat) == at_function + records_bytes_from(
                    recs,
                    0,
                ),
            decreases records.len() - i,
        {
            let rec = &records[i];
            let ghost before = stream@;
            assert(recs[i as int] == rec.model());
            if i > 0 && eq_roots(&records[i - 1].roots, &rec.roots) && eq_derived(
                &records[i - 1].derived,
                &rec.derived,
            ) {
                push_varint(&mut stream, 1);
                assert(prev_live_set(recs, i as int) == Some(live_set(recs[i as int])));
            } else {
                assert(recs[i as int].roots.len() < 0x4000_0000_0000_0000);
                encode_live_set(&mut stream, &rec.roots, &rec.derived);
                assert(prev_live_set(recs, i as int) != Some(live_set(recs[i as int])));
            }
            assert(stream@ == before + record_bytes(prev_live_set(recs, i as int), recs[i as int]));
            i += 1;
            assert(stream@ + records_bytes_from(recs, i as nat) =~= before + records_bytes_from(
                recs,
                (i - 1) as nat,
            ));
        }
        assert(stream@ =~= stream@ + records_bytes_from(recs, i as nat));
        f += 1;
        assert(stream@ + stream_from(fs, f as nat) =~= at_function + stream_from(
            fs,
            (f - 1) as nat,
        ));
    }
    assert(stream@ =~= stream@ + stream_from(fs, f as nat));
    stream
}


/// `"{symbol} record {index}"`, the place a decode message names.
fn where_text(symbol: &Vec<char>, index: usize) -> (r: Vec<char>)
    ensures
        r@ == where_spec(symbol@, index as nat),
{
    let mut m: Vec<char> = Vec::new();
    push_chars(&mut m, symbol);
    push_str(&mut m, " record ");
    push_dec(&mut m, index as u64);
    assert(m@ =~= where_spec(symbol@, index as nat));
    m
}

fn fail_at(symbol: &Vec<char>, index: usize, what: &str) -> (r: Vec<char>)
    ensures
        r@ == fail_spec(where_spec(symbol@, index as nat), what@),
{
    let mut m = where_text(symbol, index);
    push_str(&mut m, ": ");
    push_str(&mut m, what);
    assert(m@ =~= fail_spec(where_spec(symbol@, index as nat), what@));
    m
}

fn fail_at_n(symbol: &Vec<char>, index: usize, what: &str, n: u64) -> (r: Vec<char>)
    ensures
        r@ == fail_spec(where_spec(symbol@, index as nat), what@ + crate::numtext::dec(n as nat)),
{
    let mut m = fail_at(symbol, index, what);
    push_dec(&mut m, n);
    assert(m@ =~= fail_spec(
        where_spec(symbol@, index as nat),
        what@ + crate::numtext::dec(n as nat),
    ));
    m
}

/// `decode_slots`: read `count` slots at `cursor`, as the runtime does.
fn decode_slots(
    stream: &[u8],
    cursor0: usize,
    count: usize,
    symbol: &Vec<char>,
    index: usize,
) -> (r: Result<(Vec<(u16, i32)>, usize), Vec<char>>)
    ensures
        match r {
            Ok((s, c)) => decode_slots_from(stream@, cursor0 as nat, 0, count as nat, Seq::empty())
                == Some((s@, c as nat)),
            Err(m) => decode_slots_from(stream@, cursor0 as nat, 0, count as nat, Seq::empty())
                is None && m@ == slots_fail_msg(
                stream@,
                cursor0 as nat,
                0,
                count as nat,
                Seq::empty(),
                where_spec(symbol@, index as nat),
            ),
        },
{
    let ghost w = where_spec(symbol@, index as nat);
    let mut slots: Vec<(u16, i32)> = Vec::new();
    let mut cursor = cursor0;
    let mut slot: usize = 0;
    while slot < count
        invariant
            slot <= count,
            slot == slots@.len(),
            decode_slots_from(stream@, cursor0 as nat, 0, count as nat, Seq::empty())
                == decode_slots_from(stream@, cursor as nat, slot as nat, count as nat, slots@),
            w == where_spec(symbol@, index as nat),
            slots_fail_msg(stream@, cursor0 as nat, 0, count as nat, Seq::empty(), w)
                == slots_fail_msg(stream@, cursor as nat, slot as nat, count as nat, slots@, w),
        decreases count - slot,
    {
        let (value, next) = match read_varint(stream, cursor) {
            Some(t) => t,
            None => {
                return Err(fail_at_n(symbol, index, "truncated slot ", slot as u64));
            },
        };
        let tag = value % 4;
        let reg: u16;
        let after: usize;
        if tag == 0 {
            reg = DWARF_REG_FP_AARCH64;
            after = next;
        } else if tag == 1 {
            reg = DWARF_REG_SP_AARCH64;
            after = next;
        } else if tag == 2 {
            match read_varint(stream, next) {
                None => {
                    return Err(
                        fail_at_n(symbol, index, "truncated explicit register for slot ", slot as u64),
                    );
                },
                Some((r, n2)) => {
                    if r > 0xffff {
                        let mut m = fail_at_n(symbol, index, "slot ", slot as u64);
                        push_str(&mut m, " register ");
                        push_dec(&mut m, r);
                        push_str(&mut m, " exceeds u16");
                        assert(m@ =~= slots_fail_msg(
                            stream@,
                            cursor as nat,
                            slot as nat,
                            count as nat,
                            slots@,
                            w,
                        ));
                        return Err(m);
                    }
                    reg = r as u16;
                    after = n2;
                },
            }
        } else {
            let mut m = fail_at_n(symbol, index, "slot ", slot as u64);
            push_str(&mut m, " has reserved base tag ");
            push_dec(&mut m, tag);
            assert(m@ =~= slots_fail_msg(
                stream@,
                cursor as nat,
                slot as nat,
                count as nat,
                slots@,
                w,
            ));
            return Err(m);
        }
        assert(slot_reg(stream@, value as nat % 4, next as nat) == Some((reg, after as nat)));
        let delta = unzigzag(((value / 4) % 0x1_0000_0000) as u32);
        let offset = if slot == 0 {
            delta
        } else {
            slots[slot - 1].1.wrapping_add(delta)
        };
        slots.push((reg, offset));
        cursor = after;
        slot += 1;
    }
    Ok((slots, cursor))
}

fn copy_roots(v: &Vec<(u16, i32)>) -> (r: Vec<(u16, i32)>)
    ensures
        r@ == v@,
{
    let mut r: Vec<(u16, i32)> = Vec::new();
    let mut i: usize = 0;
    while i < v.len()
        invariant
            i <= v.len(),
            r@ =~= v@.take(i as int),
        decreases v.len() - i,
    {
        r.push(v[i]);
        i += 1;
    }
    r
}

fn copy_derived(v: &Vec<(u32, u16, i32)>) -> (r: Vec<(u32, u16, i32)>)
    ensures
        r@ == v@,
{
    let mut r: Vec<(u32, u16, i32)> = Vec::new();
    let mut i: usize = 0;
    while i < v.len()
        invariant
            i <= v.len(),
            r@ =~= v@.take(i as int),
        decreases v.len() - i,
    {
        r.push(v[i]);
        i += 1;
    }
    r
}

fn push_root_piece(m: &mut Vec<char>, v: &Vec<(u16, i32)>, i: usize)
    requires
        i < v@.len(),
    ensures
        final(m)@ == old(m)@ + root_piece(v@, i as nat),
{
    if i > 0 {
        push_str(m, ", ");
    }
    push_str(m, "(");
    push_dec(m, v[i].0 as u64);
    push_str(m, ", ");
    push_dec_i64(m, v[i].1 as i64);
    push_str(m, ")");
    assert(m@ =~= old(m)@ + root_piece(v@, i as nat));
}

fn push_i32_list(m: &mut Vec<char>, v: &Vec<(u16, i32)>)
    ensures
        final(m)@ == old(m)@ + roots_debug(v@),
{
    push_str(m, "[");
    let ghost head = m@;
    let mut i: usize = 0;
    while i < v.len()
        invariant
            i <= v@.len(),
            m@ + roots_debug_from(v@, i as nat) == head + roots_debug_from(v@, 0),
        decreases v.len() - i,
    {
        let ghost before = m@;
        push_root_piece(m, v, i);
        i += 1;
        assert(m@ + roots_debug_from(v@, i as nat) =~= before + roots_debug_from(
            v@,
            (i - 1) as nat,
        ));
    }
    push_str(m, "]");
    assert(m@ =~= old(m)@ + roots_debug(v@));
}

fn push_derived_piece(m: &mut Vec<char>, v: &Vec<(u32, u16, i32)>, i: usize)
    requires
        i < v@.len(),
    ensures
        final(m)@ == old(m)@ + derived_piece(v@, i as nat),
{
    if i > 0 {
        push_str(m, ", ");
    }
    push_str(m, "(");
    push_dec(m, v[i].0 as u64);
    push_str(m, ", ");
    push_dec(m, v[i].1 as u64);
    push_str(m, ", ");
    push_dec_i64(m, v[i].2 as i64);
    push_str(m, ")");
    assert(m@ =~= old(m)@ + derived_piece(v@, i as nat));
}

fn push_derived_list(m: &mut Vec<char>, v: &Vec<(u32, u16, i32)>)
    ensures
        final(m)@ == old(m)@ + derived_debug(v@),
{
    push_str(m, "[");
    let ghost head = m@;
    let mut i: usize = 0;
    while i < v.len()
        invariant
            i <= v@.len(),
            m@ + derived_debug_from(v@, i as nat) == head + derived_debug_from(v@, 0),
        decreases v.len() - i,
    {
        let ghost before = m@;
        push_derived_piece(m, v, i);
        i += 1;
        assert(m@ + derived_debug_from(v@, i as nat) =~= before + derived_debug_from(
            v@,
            (i - 1) as nat,
        ));
    }
    push_str(m, "]");
    assert(m@ =~= old(m)@ + derived_debug(v@));
}

fn usize_of(v: u64) -> (r: usize)
    ensures
        r as nat == as_usize(v as nat),
{
    if v <= usize::MAX as u64 {
        proof {
            vstd::arithmetic::div_mod::lemma_small_mod(v as nat, usize::MAX as nat + 1);
        }
        v as usize
    } else {
        (v % (usize::MAX as u64 + 1)) as usize
    }
}

/// Read `count` derived base indices at `cursor0`, each of which must name one
/// of `nroots` roots.
fn decode_bases(
    stream: &[u8],
    cursor0: usize,
    count: u64,
    nroots: usize,
    symbol: &Vec<char>,
    index: usize,
) -> (r: Result<(Vec<u32>, usize), Vec<char>>)
    ensures
        match r {
            Ok((b, c)) => decode_bases_from(
                stream@,
                cursor0 as nat,
                0,
                count as nat,
                nroots as nat,
                Seq::empty(),
            ) == Some((b@, c as nat)),
            Err(m) => decode_bases_from(
                stream@,
                cursor0 as nat,
                0,
                count as nat,
                nroots as nat,
                Seq::empty(),
            ) is None && m@ == bases_fail_msg(
                stream@,
                cursor0 as nat,
                0,
                count as nat,
                nroots as nat,
                where_spec(symbol@, index as nat),
            ),
        },
{
    let ghost w = where_spec(symbol@, index as nat);
    let mut bases: Vec<u32> = Vec::new();
    let mut cursor = cursor0;
    let mut entry: u64 = 0;
    while entry < count
        invariant
            entry <= count,
            decode_bases_from(stream@, cursor0 as nat, 0, count as nat, nroots as nat, Seq::empty())
                == decode_bases_from(
                stream@,
                cursor as nat,
                entry as nat,
                count as nat,
                nroots as nat,
                bases@,
            ),
            w == where_spec(symbol@, index as nat),
            bases_fail_msg(stream@, cursor0 as nat, 0, count as nat, nroots as nat, w)
                == bases_fail_msg(stream@, cursor as nat, entry as nat, count as nat, nroots as nat, w),
        decreases count - entry,
    {
        let (base_index, n) = match read_varint(stream, cursor) {
            Some(t) => t,
            None => {
                return Err(fail_at_n(symbol, index, "truncated derived base index ", entry));
            },
        };
        let as_index = usize_of(base_index);
        if as_index >= nroots {
            let mut m = fail_at_n(symbol, index, "derived entry ", entry);
            push_str(&mut m, " names base ");
            push_dec(&mut m, base_index);
            push_str(&mut m, " of ");
            push_dec(&mut m, nroots as u64);
            push_str(&mut m, " roots");
            assert(m@ =~= bases_fail_msg(
                stream@,
                cursor as nat,
                entry as nat,
                count as nat,
                nroots as nat,
                w,
            ));
            return Err(m);
        }
        bases.push((base_index % 0x1_0000_0000) as u32);
        cursor = n;
        entry += 1;
    }
    Ok((bases, cursor))
}

/// The live set one record decodes to, and the cursor after it.
fn decode_live_set_exec(
    stream: &[u8],
    cursor: usize,
    prev: &Option<(Vec<(u16, i32)>, Vec<(u32, u16, i32)>)>,
    symbol: &Vec<char>,
    index: usize,
) -> (r: Result<((Vec<(u16, i32)>, Vec<(u32, u16, i32)>), usize), Vec<char>>)
    ensures
        match r {
            Ok((d, c)) => decode_live_set(stream@, cursor as nat, live_set_opt(*prev)) == Some(
                ((d.0@, d.1@), c as nat),
            ),
            Err(m) => decode_live_set(stream@, cursor as nat, live_set_opt(*prev)) is None && m@
                == live_set_fail_msg(
                stream@,
                cursor as nat,
                live_set_opt(*prev),
                where_spec(symbol@, index as nat),
            ),
        },
{
    let (header, next) = match read_varint(stream, cursor) {
        Some(t) => t,
        None => {
            return Err(fail_at(symbol, index, "truncated record header"));
        },
    };
    if header % 2 == 1 {
        return match prev {
            None => Err(fail_at(symbol, index, "repeat flag with no previous live set")),
            Some(p) => Ok(((copy_roots(&p.0), copy_derived(&p.1)), next)),
        };
    }
    let count = usize_of(header / 4);
    let has_derived = (header / 2) % 2 == 1;
    let (roots, c2) = match decode_slots(stream, next, count, symbol, index) {
        Ok(t) => t,
        Err(m) => {
            return Err(m);
        },
    };
    if !has_derived {
        return Ok(((roots, Vec::new()), c2));
    }
    let (derived_count, c3) = match read_varint(stream, c2) {
        Some(t) => t,
        None => {
            return Err(fail_at(symbol, index, "truncated derived count"));
        },
    };
    let (bases, cursor3) = match decode_bases(stream, c3, derived_count, roots.len(), symbol, index) {
        Ok(t) => t,
        Err(m) => {
            return Err(m);
        },
    };
    let dcount = usize_of(derived_count);
    let (slots, c5) = match decode_slots(stream, cursor3, dcount, symbol, index) {
        Ok(t) => t,
        Err(m) => {
            return Err(m);
        },
    };
    let n = if bases.len() <= slots.len() {
        bases.len()
    } else {
        slots.len()
    };
    let mut derived: Vec<(u32, u16, i32)> = Vec::new();
    let mut k: usize = 0;
    while k < n
        invariant
            k <= n,
            n <= bases@.len(),
            n <= slots@.len(),
            derived@ =~= zip_derived(bases@, slots@).take(k as int),
            n == zip_derived(bases@, slots@).len(),
        decreases n - k,
    {
        derived.push((bases[k], slots[k].0, slots[k].1));
        k += 1;
    }
    Ok(((roots, derived), c5))
}

/// Decode one record's live set and check it against the record's.
fn check_record(
    stream: &[u8],
    cursor: usize,
    prev: &Option<(Vec<(u16, i32)>, Vec<(u32, u16, i32)>)>,
    record: &Record,
    symbol: &Vec<char>,
    index: usize,
) -> (r: Result<((Vec<(u16, i32)>, Vec<(u32, u16, i32)>), usize), Vec<char>>)
    ensures
        match r {
            Ok((d, c)) => decode_live_set(stream@, cursor as nat, live_set_opt(*prev)) == Some(
                ((d.0@, d.1@), c as nat),
            ) && (d.0@, d.1@) == live_set(record.model()),
            Err(m) => match decode_live_set(stream@, cursor as nat, live_set_opt(*prev)) {
                None => m@ == live_set_fail_msg(
                    stream@,
                    cursor as nat,
                    live_set_opt(*prev),
                    where_spec(symbol@, index as nat),
                ),
                Some((d, _)) => d != live_set(record.model()) && m@ == mismatch_msg(
                    where_spec(symbol@, index as nat),
                    d,
                    record.model(),
                ),
            },
        },
{
    let (decoded, next) = match decode_live_set_exec(stream, cursor, prev, symbol, index) {
        Ok(t) => t,
        Err(m) => {
            return Err(m);
        },
    };
    if !eq_roots(&decoded.0, &record.roots) || !eq_derived(&decoded.1, &record.derived) {
        let mut m = where_text(symbol, index);
        push_str(&mut m, ": the compact stream decodes to (");
        push_i32_list(&mut m, &decoded.0);
        push_str(&mut m, ", ");
        push_derived_list(&mut m, &decoded.1);
        push_str(&mut m, ") but the stack map recorded roots ");
        push_i32_list(&mut m, &record.roots);
        push_str(&mut m, " derived ");
        push_derived_list(&mut m, &record.derived);
        push_str(
            &mut m,
            ". Re-encoding changed this safepoint's live set, so the collector would scan different words than LLVM described.",
        );
        assert(m@ =~= mismatch_msg(
            where_spec(symbol@, index as nat),
            (decoded.0@, decoded.1@),
            record.model(),
        ));
        return Err(m);
    }
    Ok((decoded, next))
}

pub open spec fn live_set_opt(p: Option<(Vec<(u16, i32)>, Vec<(u32, u16, i32)>)>) -> Option<
    LiveSet,
> {
    match p {
        None => None,
        Some(t) => Some((t.0@, t.1@)),
    }
}

/// Decode and check one function's records at `cursor0`; the cursor after them.
fn verify_function_records(stream: &[u8], cursor0: usize, records: &Vec<Record>, symbol: &Vec<char>) -> (r:
    Result<usize, Vec<char>>)
    ensures
        match r {
            Ok(c) => verify_records_from(stream@, cursor0 as nat, records_model(records@), 0, None)
                == Some(c as nat),
            Err(m) => verify_records_from(stream@, cursor0 as nat, records_model(records@), 0, None)
                is None && m@ == records_fail_msg(
                stream@,
                cursor0 as nat,
                records_model(records@),
                0,
                None,
                symbol@,
            ),
        },
{
    let ghost recs = records_model(records@);
    let mut cursor = cursor0;
    let mut prev: Option<(Vec<(u16, i32)>, Vec<(u32, u16, i32)>)> = None;
    let mut index: usize = 0;
    while index < records.len()
        invariant
            index <= records@.len(),
            recs == records_model(records@),
            verify_records_from(stream@, cursor0 as nat, recs, 0, None) == verify_records_from(
                stream@,
                cursor as nat,
                recs,
                index as nat,
                live_set_opt(prev),
            ),
            records_fail_msg(stream@, cursor0 as nat, recs, 0, None, symbol@) == records_fail_msg(
                stream@,
                cursor as nat,
                recs,
                index as nat,
                live_set_opt(prev),
                symbol@,
            ),
        decreases records.len() - index,
    {
        let record = &records[index];
        assert(recs[index as int] == record.model());
        let (decoded, next) = match check_record(stream, cursor, &prev, record, symbol, index) {
            Ok(t) => t,
            Err(m) => {
                return Err(m);
            },
        };
        prev = Some(decoded);
        cursor = next;
        index += 1;
    }
    Ok(cursor)
}

/// `verify_roundtrip`: decode `stream` exactly as the runtime's decoder does
/// and check that it reproduces the live set of every record, with no byte
/// left over.
///
/// A repeat flag mis-set, a delta that sign-extends the wrong way, or a base
/// tag written for one architecture and read on another all produce a stream
/// that decodes to something plausible and describes different memory; this
/// is the check that catches them.
pub fn verify_roundtrip(functions: &[FunctionMap], stream: &[u8]) -> (r: Result<(), String>)
    ensures
        r is Ok <==> roundtrip_ok(functions_model(functions@), stream@),
        r matches Err(m) ==> m@ == verify_fail_msg(functions_model(functions@), stream@),
{
    let ghost fs = functions_model(functions@);
    let mut cursor: usize = 0;
    let mut f: usize = 0;
    while f < functions.len()
        invariant
            f <= functions@.len(),
            fs == functions_model(functions@),
            verify_functions_from(stream@, 0, fs, 0) == verify_functions_from(
                stream@,
                cursor as nat,
                fs,
                f as nat,
            ),
            functions_fail_msg(stream@, 0, fs, 0) == functions_fail_msg(
                stream@,
                cursor as nat,
                fs,
                f as nat,
            ),
        decreases functions.len() - f,
    {
        let function = &functions[f];
        let symbol = crate::text::chars_of(function.symbol.as_str());
        assert(records_model(function.records@) == fs[f as int].records);
        cursor = match verify_function_records(stream, cursor, &function.records, &symbol) {
            Ok(c) => c,
            Err(m) => {
                return Err(string_of(&m));
            },
        };
        f += 1;
    }
    if cursor != stream.len() {
        let mut m: Vec<char> = Vec::new();
        push_str(&mut m, "the compact stream has ");
        if cursor < stream.len() {
            push_dec(&mut m, (stream.len() - cursor) as u64);
        } else {
            push_dec(&mut m, 0);
        }
        push_str(
            &mut m,
            " trailing byte(s) after the last record \u{2014} the encoder and the runtime's decoder disagree about the layout",
        );
        assert(m@ =~= verify_fail_msg(fs, stream@));
        return Err(string_of(&m));
    }
    Ok(())
}

} // verus!
