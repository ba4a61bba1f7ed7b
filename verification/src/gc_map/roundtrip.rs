//! The compact stream always verifies: whatever `encode_stream` writes for a
//! well-formed stack map, the runtime's decoder reads back as exactly the live
//! set of every record, consuming every byte.
use vstd::prelude::*;
use vstd::wrapping::i32_specs;
use crate::gc_map::decode_spec::as_usize;
use crate::gc_map::model::{FunctionModel, RecordModel};
use crate::gc_map::stream_spec::{
    base_bytes_from, base_tag, decode_bases_from, decode_live_set, decode_slots_from,
    derived_slots, encode_stream_spec, header_word, live_set, live_set_bytes, prev_live_set,
    prev_offset, record_bytes, records_bytes_from, roundtrip_ok, slot_bytes, slot_delta,
    slot_reg, slots_bytes, slots_bytes_from, stream_from, verify_functions_from,
    verify_records_from, zip_derived, LiveSet,
};
use crate::gc_map::varint::{
    lemma_pow128_values, lemma_read_varint_of, lemma_unzigzag_zigzag, pow128, read_varint_spec,
    unzigzag_spec, varint, zigzag_spec,
};

verus! {

/// `x` stands in `b` at position `c`.
pub open spec fn prefix_at(b: Seq<u8>, c: nat, x: Seq<u8>) -> bool {
    c + x.len() <= b.len() && b.subrange(c as int, (c + x.len()) as int) == x
}

proof fn lemma_prefix_split(b: Seq<u8>, c: nat, x: Seq<u8>, y: Seq<u8>)
    requires
        prefix_at(b, c, x + y),
    ensures
        prefix_at(b, c, x),
        prefix_at(b, c + x.len(), y),
{
    let w = b.subrange(c as int, (c + x.len() + y.len()) as int);
    assert(w == x + y);
    assert(b.subrange(c as int, (c + x.len()) as int) =~= w.subrange(0, x.len() as int));
    assert(w.subrange(0, x.len() as int) =~= x);
    assert(b.subrange((c + x.len()) as int, (c + x.len() + y.len()) as int) =~= w.subrange(
        x.len() as int,
        (x.len() + y.len()) as int,
    ));
    assert(w.subrange(x.len() as int, (x.len() + y.len()) as int) =~= y);
}

proof fn lemma_read_varint_at(b: Seq<u8>, c: nat, v: nat)
    requires
        prefix_at(b, c, varint(v)),
        v < 0x1_0000_0000_0000_0000,
    ensures
        read_varint_spec(b, c) == Some((v, c + varint(v).len())),
{
    lemma_pow128_values();
    assert(pow128(0) == 1);
    lemma_read_varint_of(b, c, 0, v);
}

proof fn lemma_wrapping_sub_add(o: i32, p: i32)
    ensures
        i32_specs::wrapping_add(p, i32_specs::wrapping_sub(o, p)) == o,
{
}

/// The live sets a stack map must have for its stream to verify: header
/// words that fit in a `u64`, counts that fit in `usize`, and derived slots
/// whose base indices name one of the record's roots.
pub open spec fn wf_live_set(r: RecordModel) -> bool {
    &&& r.roots.len() < 0x4000_0000_0000_0000
    &&& r.roots.len() <= usize::MAX
    &&& r.derived.len() <= usize::MAX
    &&& forall|k: int| 0 <= k < r.derived.len() ==> (#[trigger] r.derived[k]).0 < r.roots.len()
}

pub open spec fn wf_stack_map(fs: Seq<FunctionModel>) -> bool {
    forall|f: int, i: int|
        0 <= f < fs.len() && 0 <= i < fs[f].records.len() ==> wf_live_set(
            #[trigger] fs[f].records[i],
        )
}

proof fn lemma_decode_slots_of(b: Seq<u8>, c: nat, s: Seq<(u16, i32)>, k: nat)
    requires
        k <= s.len(),
        prefix_at(b, c, slots_bytes_from(s, k)),
    ensures
        decode_slots_from(b, c, k, s.len(), s.take(k as int)) == Some(
            (s, c + slots_bytes_from(s, k).len()),
        ),
    decreases s.len() - k,
{
    if k >= s.len() {
        assert(s.take(k as int) =~= s);
    } else {
        let slot = s[k as int];
        let prev = prev_offset(s, k as int);
        let delta = slot_delta(slot.1, prev);
        let tag = base_tag(slot.0);
        let z = zigzag_spec(delta as int);
        lemma_unzigzag_zigzag(delta);
        let hv = z * 4 + tag;
        let regbytes = if tag == 2 {
            varint(slot.0 as nat)
        } else {
            Seq::empty()
        };
        let rest = slots_bytes_from(s, k + 1);
        assert(slots_bytes_from(s, k) == slot_bytes(slot, prev) + rest);
        assert(slot_bytes(slot, prev) == varint(hv) + regbytes);
        assert(slots_bytes_from(s, k) =~= varint(hv) + (regbytes + rest));
        lemma_prefix_split(b, c, varint(hv), regbytes + rest);
        lemma_prefix_split(b, c + varint(hv).len(), regbytes, rest);
        lemma_read_varint_at(b, c, hv);
        let c1 = c + varint(hv).len();
        assert(hv % 4 == tag);
        assert(hv / 4 == z);
        assert((hv / 4) % 0x1_0000_0000 == z);
        if tag == 2 {
            lemma_read_varint_at(b, c1, slot.0 as nat);
        }
        assert(slot_reg(b, hv % 4, c1) == Some((slot.0, c1 + regbytes.len())));
        let d = unzigzag_spec((hv / 4) % 0x1_0000_0000) as i32;
        assert(d == delta);
        let offset = if k == 0 {
            d
        } else {
            i32_specs::wrapping_add(s.take(k as int).last().1, d)
        };
        if k > 0 {
            assert(s.take(k as int).last() == s[k - 1]);
            lemma_wrapping_sub_add(slot.1, s[k - 1].1);
        }
        assert(offset == slot.1);
        assert(s.take(k as int).push((slot.0, offset)) =~= s.take((k + 1) as int));
        lemma_decode_slots_of(b, c1 + regbytes.len(), s, k + 1);
    }
}

pub open spec fn bases_of(d: Seq<(u32, u16, i32)>) -> Seq<u32> {
    Seq::new(d.len(), |i: int| d[i].0)
}

proof fn lemma_decode_bases_of(b: Seq<u8>, c: nat, d: Seq<(u32, u16, i32)>, k: nat, nroots: nat)
    requires
        k <= d.len(),
        prefix_at(b, c, base_bytes_from(d, k)),
        forall|j: int| 0 <= j < d.len() ==> (#[trigger] d[j]).0 < nroots,
    ensures
        decode_bases_from(b, c, k, d.len(), nroots, bases_of(d).take(k as int)) == Some(
            (bases_of(d), c + base_bytes_from(d, k).len()),
        ),
    decreases d.len() - k,
{
    if k >= d.len() {
        assert(bases_of(d).take(k as int) =~= bases_of(d));
    } else {
        let bi = d[k as int].0;
        assert(base_bytes_from(d, k) == varint(bi as nat) + base_bytes_from(d, k + 1));
        lemma_prefix_split(b, c, varint(bi as nat), base_bytes_from(d, k + 1));
        lemma_read_varint_at(b, c, bi as nat);
        vstd::arithmetic::div_mod::lemma_small_mod(bi as nat, usize::MAX as nat + 1);
        vstd::arithmetic::div_mod::lemma_small_mod(bi as nat, 0x1_0000_0000);
        assert(as_usize(bi as nat) == bi);
        assert(bases_of(d).take(k as int).push(((bi as nat % 0x1_0000_0000) as u32)) =~= bases_of(
            d,
        ).take((k + 1) as int));
        lemma_decode_bases_of(b, c + varint(bi as nat).len(), d, k + 1, nroots);
    }
}

proof fn lemma_decode_live_set_of(b: Seq<u8>, c: nat, prev: Option<LiveSet>, r: RecordModel)
    requires
        wf_live_set(r),
        prefix_at(b, c, live_set_bytes(r.roots, r.derived)),
    ensures
        decode_live_set(b, c, prev) == Some(
            (live_set(r), c + live_set_bytes(r.roots, r.derived).len()),
        ),
{
    let roots = r.roots;
    let derived = r.derived;
    let hw = header_word(roots, derived);
    let rb = slots_bytes(roots);
    let db = if derived.len() > 0 {
        varint(derived.len()) + base_bytes_from(derived, 0) + slots_bytes(derived_slots(derived))
    } else {
        Seq::empty()
    };
    assert(live_set_bytes(roots, derived) =~= varint(hw) + (rb + db));
    lemma_prefix_split(b, c, varint(hw), rb + db);
    lemma_prefix_split(b, c + varint(hw).len(), rb, db);
    lemma_read_varint_at(b, c, hw);
    let c1 = c + varint(hw).len();
    assert(hw % 2 == 0);
    assert(hw / 4 == roots.len());
    vstd::arithmetic::div_mod::lemma_small_mod(roots.len(), usize::MAX as nat + 1);
    assert(as_usize(hw / 4) == roots.len());
    assert(roots.take(0) =~= Seq::<(u16, i32)>::empty());
    lemma_decode_slots_of(b, c1, roots, 0);
    let c2 = c1 + rb.len();
    if derived.len() > 0 {
        assert((hw / 2) % 2 == 1);
        let cb = varint(derived.len());
        let bb = base_bytes_from(derived, 0);
        let sb = slots_bytes(derived_slots(derived));
        assert(db =~= cb + (bb + sb));
        lemma_prefix_split(b, c2, cb, bb + sb);
        lemma_prefix_split(b, c2 + cb.len(), bb, sb);
        lemma_read_varint_at(b, c2, derived.len());
        let c3 = c2 + cb.len();
        assert(bases_of(derived).take(0) =~= Seq::<u32>::empty());
        lemma_decode_bases_of(b, c3, derived, 0, roots.len());
        let c4 = c3 + bb.len();
        vstd::arithmetic::div_mod::lemma_small_mod(derived.len(), usize::MAX as nat + 1);
        let ds = derived_slots(derived);
        assert(ds.take(0) =~= Seq::<(u16, i32)>::empty());
        lemma_decode_slots_of(b, c4, ds, 0);
        assert(zip_derived(bases_of(derived), ds) =~= derived);
    } else {
        assert((hw / 2) % 2 == 0);
        assert(derived =~= Seq::<(u32, u16, i32)>::empty());
        assert(db.len() == 0);
    }
}

proof fn lemma_verify_records_of(b: Seq<u8>, c: nat, recs: Seq<RecordModel>, i: nat)
    requires
        i <= recs.len(),
        forall|j: int| 0 <= j < recs.len() ==> wf_live_set(#[trigger] recs[j]),
        prefix_at(b, c, records_bytes_from(recs, i)),
    ensures
        verify_records_from(b, c, recs, i, prev_live_set(recs, i as int)) == Some(
            c + records_bytes_from(recs, i).len(),
        ),
    decreases recs.len() - i,
{
    if i < recs.len() {
        let r = recs[i as int];
        let prev = prev_live_set(recs, i as int);
        let rb = record_bytes(prev, r);
        let rest = records_bytes_from(recs, i + 1);
        assert(records_bytes_from(recs, i) == rb + rest);
        lemma_prefix_split(b, c, rb, rest);
        if prev == Some(live_set(r)) {
            lemma_read_varint_at(b, c, 1);
            assert(varint(1) == seq![1u8]);
        } else {
            assert(wf_live_set(r));
            lemma_decode_live_set_of(b, c, prev, r);
        }
        assert(prev_live_set(recs, (i + 1) as int) == Some(live_set(r)));
        lemma_verify_records_of(b, c + rb.len(), recs, i + 1);
    }
}

proof fn lemma_verify_functions_of(b: Seq<u8>, c: nat, fs: Seq<FunctionModel>, f: nat)
    requires
        f <= fs.len(),
        wf_stack_map(fs),
        prefix_at(b, c, stream_from(fs, f)),
    ensures
        verify_functions_from(b, c, fs, f) == Some(c + stream_from(fs, f).len()),
    decreases fs.len() - f,
{
    if f < fs.len() {
        let recs = fs[f as int].records;
        let rb = records_bytes_from(recs, 0);
        let rest = stream_from(fs, f + 1);
        assert(stream_from(fs, f) == rb + rest);
        lemma_prefix_split(b, c, rb, rest);
        assert forall|j: int| 0 <= j < recs.len() implies wf_live_set(#[trigger] recs[j]) by {
            assert(wf_live_set(fs[f as int].records[j]));
        }
        lemma_verify_records_of(b, c, recs, 0);
        lemma_verify_functions_of(b, c + rb.len(), fs, f + 1);
    }
}

/// Round trip: the stream `encode_stream` writes for a well-formed stack map
/// decodes, as the runtime decodes it, to exactly the live set (roots and
/// derived slots) of every record, and leaves no byte unread. So
/// `verify_roundtrip` accepts every stream `encode_stream` produces.
pub proof fn lemma_encode_stream_roundtrip(fs: Seq<FunctionModel>)
    requires
        wf_stack_map(fs),
    ensures
        roundtrip_ok(fs, encode_stream_spec(fs)),
{
    let b = encode_stream_spec(fs);
    assert(b.subrange(0, b.len() as int) =~= b);
    lemma_verify_functions_of(b, 0, fs, 0);
}

/// A record whose live set (roots and derived slots alike) is the previous
/// record's costs one byte, the repeat flag, however many roots it holds;
/// a record whose live set differs is encoded in full. The header word of a
/// full encoding is even, so the decoder never mistakes it for the flag.
pub proof fn lemma_repeat_costs_one_byte(prev: RecordModel, r: RecordModel)
    ensures
        live_set(r) == live_set(prev) ==> record_bytes(Some(live_set(prev)), r) == seq![1u8],
        live_set(r) != live_set(prev) ==> record_bytes(Some(live_set(prev)), r) == live_set_bytes(
            r.roots,
            r.derived,
        ),
        header_word(r.roots, r.derived) % 2 == 0,
{
    assert(varint(1) == seq![1u8]);
}

/// Slot round trip: the bytes `encode_slots` writes for any slot list decode,
/// wherever they stand in a stream, back to exactly that list, ending right
/// after them. Base tags 0 and 1 read back as DWARF 29 and 31, any other
/// register is read back from its explicit number, and the wrapping deltas
/// restore every offset.
pub proof fn lemma_slots_roundtrip(prefix: Seq<u8>, s: Seq<(u16, i32)>, suffix: Seq<u8>)
    ensures
        decode_slots_from(prefix + slots_bytes(s) + suffix, prefix.len(), 0, s.len(), Seq::empty())
            == Some((s, prefix.len() + slots_bytes(s).len())),
{
    let b = prefix + slots_bytes(s) + suffix;
    assert(b.subrange(prefix.len() as int, (prefix.len() + slots_bytes(s).len()) as int) =~= slots_bytes(s));
    assert(s.take(0) =~= Seq::<(u16, i32)>::empty());
    lemma_decode_slots_of(b, prefix.len(), s, 0);
}

} // verus!
