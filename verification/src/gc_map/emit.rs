//! Print the compact GC map as assembler directives.
//!
//! Layout (little-endian), mirrored by the runtime decoder:
//!
//! ```text
//!   0  "PGCM"
//!   4  u8 version, u8 reserved, u16 flags (bit 0: 8-byte function addresses)
//!   8  u32 function_count
//!  12  u32 total_len          -- lets the runtime walk concatenated blobs
//!  16  function_count x { address, u32 stack_size, u32 record_count }
//!      record_count_total x u32 instruction_offset
//!      varint root stream
//! ```
use vstd::prelude::*;
use crate::gc_map::directives::ObjectFormat;
use crate::gc_map::model::{functions_model, FunctionMap, FunctionModel, Record};
use crate::numtext::{dec, push_dec};
use crate::text::{chars_of, push_chars, push_str};

verus! {

/// Format version. The v4 record header word carries a has-derived bit.
pub const GC_MAP_VERSION: u8 = 4;

/// The label the compact map is given.
pub const GC_MAP_LABEL: &'static str = "_perry_gc_map";

pub const MACHO_SECTION: &'static str = "__PERRY_GCMAP,__perry_gcmap";

/// `w`: the section holds relocated function addresses; `R` (SHF_GNU_RETAIN)
/// keeps `--gc-sections` from discarding a section nothing references.
pub const ELF_SECTION: &'static str = ".perry_gcmap,\"awR\",@progbits";

/// A PE image section header has an 8-byte name field, so the COFF name is
/// short; `dw` is initialised, writable data.
pub const COFF_SECTION: &'static str = ".pgcmap,\"dw\"";

/// What the runtime looks for in a PE image; at most eight bytes.
pub const COFF_SECTION_NAME: &'static str = ".pgcmap";

pub open spec fn section_of(format: ObjectFormat) -> Seq<char> {
    match format {
        ObjectFormat::MachO => MACHO_SECTION@,
        ObjectFormat::Elf => ELF_SECTION@,
        ObjectFormat::Coff => COFF_SECTION@,
    }
}

/// `x` reduced as `usize` arithmetic wraps.
pub open spec fn wrap_usize(x: nat) -> nat {
    x % (usize::MAX as nat + 1)
}

/// Total number of records of `fs`.
pub open spec fn record_total(fs: Seq<FunctionModel>) -> nat
    decreases fs.len(),
{
    if fs.len() == 0 {
        0
    } else {
        record_total(fs.drop_last()) + fs.last().records.len()
    }
}

/// Total number of roots over every record of `fs`.
pub open spec fn records_roots(rs: Seq<crate::gc_map::model::RecordModel>) -> nat
    decreases rs.len(),
{
    if rs.len() == 0 {
        0
    } else {
        records_roots(rs.drop_last()) + rs.last().roots.len()
    }
}

pub open spec fn root_total(fs: Seq<FunctionModel>) -> nat
    decreases fs.len(),
{
    if fs.len() == 0 {
        0
    } else {
        root_total(fs.drop_last()) + records_roots(fs.last().records)
    }
}

/// The blob's length: header, function table, offset array and stream.
pub open spec fn blob_len(fs: Seq<FunctionModel>, stream_len: nat, ptr64: bool) -> nat {
    wrap_usize(
        16 + fs.len() * (if ptr64 {
            16nat
        } else {
            12nat
        }) + record_total(fs) * 4 + stream_len,
    )
}

pub open spec fn function_entry_text(f: FunctionModel, ptr64: bool) -> Seq<char> {
    "\t"@ + (if ptr64 {
        ".quad"@
    } else {
        ".long"@
    }) + "\t"@ + f.symbol + "\n"@ + "\t.long\t"@ + dec((f.stack_size as nat) % 0x1_0000_0000)
        + "\n"@ + "\t.long\t"@ + dec(f.records.len()) + "\n"@
}

pub open spec fn function_table_from(fs: Seq<FunctionModel>, f: nat, ptr64: bool) -> Seq<char>
    decreases fs.len() - f,
{
    if f >= fs.len() {
        Seq::empty()
    } else {
        function_entry_text(fs[f as int], ptr64) + function_table_from(fs, f + 1, ptr64)
    }
}

pub open spec fn offsets_of_from(rs: Seq<crate::gc_map::model::RecordModel>, i: nat) -> Seq<char>
    decreases rs.len() - i,
{
    if i >= rs.len() {
        Seq::empty()
    } else {
        "\t.long\t"@ + rs[i as int].offset_expr + "\n"@ + offsets_of_from(rs, i + 1)
    }
}

pub open spec fn offsets_from(fs: Seq<FunctionModel>, f: nat) -> Seq<char>
    decreases fs.len() - f,
{
    if f >= fs.len() {
        Seq::empty()
    } else {
        offsets_of_from(fs[f as int].records, 0) + offsets_from(fs, f + 1)
    }
}

/// `b[k], b[k+1], ...` in decimal, comma separated.
pub open spec fn join_dec_from(b: Seq<u8>, k: nat) -> Seq<char>
    decreases b.len() - k,
{
    if k >= b.len() {
        Seq::empty()
    } else {
        (if k > 0 {
            ","@
        } else {
            Seq::empty()
        }) + dec(b[k as int] as nat) + join_dec_from(b, k + 1)
    }
}

pub open spec fn chunk(s: Seq<u8>, j: nat) -> Seq<u8> {
    let end = if 32 * j + 32 <= s.len() {
        32 * j + 32
    } else {
        s.len() as nat
    };
    s.subrange(32 * j as int, end as int)
}

/// One `.byte` line per 32 stream bytes.
pub open spec fn byte_lines_from(s: Seq<u8>, j: nat) -> Seq<char>
    decreases s.len() + 32 - 32 * j,
{
    if 32 * j >= s.len() {
        Seq::empty()
    } else {
        "\t.byte\t"@ + join_dec_from(chunk(s, j), 0) + "\n"@ + byte_lines_from(s, j + 1)
    }
}

/// The directives of one compact blob.
pub open spec fn emit_spec(
    fs: Seq<FunctionModel>,
    stream: Seq<u8>,
    format: ObjectFormat,
    ptr64: bool,
) -> Seq<char> {
    "\t.section\t"@ + section_of(format) + "\n"@ + "\t.p2align\t3\n"@ + GC_MAP_LABEL@ + ":\n"@
        + "\t.ascii\t\"PGCM\"\n"@ + "\t.byte\t"@ + dec(GC_MAP_VERSION as nat) + "\n"@
        + "\t.byte\t0\n"@ + "\t.short\t"@ + dec(
        if ptr64 {
            1nat
        } else {
            0nat
        },
    ) + "\n"@ + "\t.long\t"@ + dec(fs.len()) + "\n"@ + "\t.long\t"@ + dec(
        blob_len(fs, stream.len(), ptr64),
    ) + "\n"@ + function_table_from(fs, 0, ptr64) + offsets_from(fs, 0) + byte_lines_from(
        stream,
        0,
    )
}

proof fn lemma_wrap_add(a: nat, b: nat)
    ensures
        wrap_usize(wrap_usize(a) + b) == wrap_usize(a + b),
        wrap_usize(a + wrap_usize(b)) == wrap_usize(a + b),
{
    let m = usize::MAX as nat + 1;
    vstd::arithmetic::div_mod::lemma_add_mod_noop_right(b as int, a as int, m as int);
    vstd::arithmetic::div_mod::lemma_add_mod_noop_right(a as int, b as int, m as int);
}

proof fn lemma_wrap_mul(a: nat, k: nat)
    ensures
        wrap_usize(wrap_usize(a) * k) == wrap_usize(a * k),
{
    let m = usize::MAX as nat + 1;
    vstd::arithmetic::div_mod::lemma_mul_mod_noop_left(a as int, k as int, m as int);
}

/// `x + y` as `usize` addition wraps.
fn wadd(x: usize, y: usize) -> (r: usize)
    ensures
        r as nat == wrap_usize((x + y) as nat),
{
    proof {
        let m = usize::MAX as nat + 1;
        if x + y <= usize::MAX {
            vstd::arithmetic::div_mod::lemma_small_mod((x + y) as nat, m);
        } else {
            vstd::arithmetic::div_mod::lemma_mod_add_multiples_vanish((x + y - m) as int, m as int);
            vstd::arithmetic::div_mod::lemma_small_mod((x + y - m) as nat, m);
        }
    }
    x.wrapping_add(y)
}

/// `x * k` as `usize` multiplication wraps (`k` small).
fn wmul(x: usize, k: usize) -> (r: usize)
    requires
        k <= 16,
    ensures
        r as nat == wrap_usize((x * k) as nat),
    decreases k,
{
    if k == 0 {
        proof {
            vstd::arithmetic::div_mod::lemma_small_mod(0, usize::MAX as nat + 1);
        }
        0
    } else {
        let p = wmul(x, k - 1);
        let r = wadd(p, x);
        proof {
            lemma_wrap_add((x * (k - 1)) as nat, x as nat);
            assert(x * (k - 1) + x == x * k) by (nonlinear_arith);
        }
        r
    }
}

/// The number of records of `fs`, as `usize` summation wraps.
pub fn record_total_exec(functions: &[FunctionMap]) -> (r: usize)
    ensures
        r as nat == wrap_usize(record_total(functions_model(functions@))),
{
    let ghost fs = functions_model(functions@);
    let mut total: usize = 0;
    let mut f: usize = 0;
    proof {
        vstd::arithmetic::div_mod::lemma_small_mod(0, usize::MAX as nat + 1);
    }
    while f < functions.len()
        invariant
            f <= functions@.len(),
            fs == functions_model(functions@),
            total as nat == wrap_usize(record_total(fs.take(f as int))),
        decreases functions.len() - f,
    {
        assert(fs.take(f + 1).drop_last() =~= fs.take(f as int));
        assert(fs.take(f + 1).last().records.len() == functions@[f as int].records@.len());
        proof {
            lemma_wrap_add(record_total(fs.take(f as int)), functions@[f as int].records@.len());
        }
        total = wadd(total, functions[f].records.len());
        f += 1;
    }
    assert(fs.take(f as int) =~= fs);
    total
}

/// The number of roots over every record of `fs`, as `usize` summation wraps.
pub fn root_total_exec(functions: &[FunctionMap]) -> (r: usize)
    ensures
        r as nat == wrap_usize(root_total(functions_model(functions@))),
{
    let ghost fs = functions_model(functions@);
    let mut total: usize = 0;
    let mut f: usize = 0;
    proof {
        vstd::arithmetic::div_mod::lemma_small_mod(0, usize::MAX as nat + 1);
    }
    while f < functions.len()
        invariant
            f <= functions@.len(),
            fs == functions_model(functions@),
            total as nat == wrap_usize(root_total(fs.take(f as int))),
        decreases functions.len() - f,
    {
        assert(fs.take(f + 1).drop_last() =~= fs.take(f as int));
        let records = &functions[f].records;
        let ghost rs = fs[f as int].records;
        let ghost base = root_total(fs.take(f as int));
        let mut i: usize = 0;
        while i < records.len()
            invariant
                i <= records@.len(),
                rs == crate::gc_map::model::records_model(records@),
                total as nat == wrap_usize(base + records_roots(rs.take(i as int))),
            decreases records.len() - i,
        {
            assert(rs.take(i + 1).drop_last() =~= rs.take(i as int));
            assert(rs.take(i + 1).last().roots.len() == records@[i as int].roots@.len());
            proof {
                lemma_wrap_add(base + records_roots(rs.take(i as int)), records@[i as int].roots@.len());
            }
            total = wadd(total, records[i].roots.len());
            i += 1;
        }
        assert(rs.take(i as int) =~= rs);
        assert(fs.take(f + 1).last().records == rs);
        f += 1;
    }
    assert(fs.take(f as int) =~= fs);
    total
}

/// The blob length `emit_asm` records and the statistics report.
pub fn blob_len_exec(functions: &[FunctionMap], stream_len: usize, ptr64: bool) -> (r: usize)
    ensures
        r as nat == blob_len(functions_model(functions@), stream_len as nat, ptr64),
{
    let ghost fs = functions_model(functions@);
    let entry: usize = if ptr64 {
        16
    } else {
        12
    };
    let rt = record_total_exec(functions);
    let a = wmul(functions.len(), entry);
    let b = wmul(rt, 4);
    let s1 = wadd(16, a);
    let s2 = wadd(s1, b);
    let s3 = wadd(s2, stream_len);
    proof {
        let n = fs.len();
        let e = entry as nat;
        let t = record_total(fs);
        lemma_wrap_mul(t, 4);
        lemma_wrap_add(16, n * e);
        lemma_wrap_add(16 + n * e, wrap_usize(t) * 4);
        lemma_wrap_add(16 + n * e, t * 4);
        lemma_wrap_add(16 + n * e + t * 4, stream_len as nat);
        assert(wrap_usize(16 + n * e + wrap_usize(t * 4)) == wrap_usize(16 + n * e + t * 4)) by {
            lemma_wrap_add(16 + n * e, t * 4);
        }
        assert(wrap_usize(wrap_usize(t) * 4) == wrap_usize(t * 4));
        assert(s2 as nat == wrap_usize(wrap_usize(16 + n * e) + wrap_usize(wrap_usize(t) * 4)));
        lemma_wrap_add(16 + n * e, wrap_usize(wrap_usize(t) * 4));
        lemma_wrap_add(16 + n * e, wrap_usize(t) * 4);
        lemma_wrap_add(16 + n * e + t * 4, stream_len as nat);
    }
    s3
}

/// Append `stream`'s bytes as `.byte` lines of at most 32 values.
fn emit_byte_lines(out: &mut Vec<char>, stream: &Vec<u8>)
    ensures
        final(out)@ == old(out)@ + byte_lines_from(stream@, 0),
{
    let ghost start = out@;
    let len = stream.len();
    let mut j: usize = 0;
    let mut at: usize = 0;
    loop
        invariant_except_break
            at == 32 * j,
            at <= len,
        invariant
            len == stream@.len(),
            out@ + byte_lines_from(stream@, j as nat) == start + byte_lines_from(stream@, 0),
        ensures
            out@ == start + byte_lines_from(stream@, 0),
        decreases len - at,
    {
        if at >= len {
            assert(byte_lines_from(stream@, j as nat) =~= Seq::<char>::empty());
            assert(out@ =~= out@ + byte_lines_from(stream@, j as nat));
            break;
        }
        let ghost before = out@;
        let end = if len - at > 32 {
            at + 32
        } else {
            len
        };
        let ghost c = chunk(stream@, j as nat);
        assert(c =~= stream@.subrange(at as int, end as int));
        push_str(out, "\t.byte\t");
        let ghost line_start = out@;
        let mut k = at;
        while k < end
            invariant
                at <= k <= end <= stream@.len(),
                c == stream@.subrange(at as int, end as int),
                out@ + join_dec_from(c, (k - at) as nat) == line_start + join_dec_from(c, 0),
            decreases end - k,
        {
            let ghost b4 = out@;
            assert(c[(k - at) as int] == stream@[k as int]);
            if k > at {
                push_str(out, ",");
            }
            push_dec(out, stream[k] as u64);
            k += 1;
            assert(out@ + join_dec_from(c, (k - at) as nat) =~= b4 + join_dec_from(
                c,
                (k - 1 - at) as nat,
            ));
        }
        assert(out@ =~= out@ + join_dec_from(c, (k - at) as nat));
        push_str(out, "\n");
        j += 1;
        assert(out@ + byte_lines_from(stream@, j as nat) =~= before + byte_lines_from(
            stream@,
            (j - 1) as nat,
        ));
        if end == len {
            assert(byte_lines_from(stream@, j as nat) =~= Seq::<char>::empty());
            assert(out@ =~= out@ + byte_lines_from(stream@, j as nat));
            break;
        }
        at = end;
    }
}

/// Assemble the emitted directives for one compact blob.
///
/// `ptr64` selects the width of the relocated function-address field: it is
/// the target's pointer width, recorded in the header flags so that a
/// compiler/runtime disagreement fails loudly.
pub fn emit_asm(functions: &[FunctionMap], stream: &Vec<u8>, format: ObjectFormat, ptr64: bool) -> (r:
    Vec<char>)
    ensures
        r@ == emit_spec(functions_model(functions@), stream@, format, ptr64),
{
    let ghost fs = functions_model(functions@);
    let total_len = blob_len_exec(functions, stream.len(), ptr64);
    let mut out: Vec<char> = Vec::new();
    push_str(&mut out, "\t.section\t");
    match format {
        ObjectFormat::MachO => push_str(&mut out, MACHO_SECTION),
        ObjectFormat::Elf => push_str(&mut out, ELF_SECTION),
        ObjectFormat::Coff => push_str(&mut out, COFF_SECTION),
    }
    push_str(&mut out, "\n");
    push_str(&mut out, "\t.p2align\t3\n");
    push_str(&mut out, GC_MAP_LABEL);
    push_str(&mut out, ":\n");
    push_str(&mut out, "\t.ascii\t\"PGCM\"\n");
    push_str(&mut out, "\t.byte\t");
    push_dec(&mut out, GC_MAP_VERSION as u64);
    push_str(&mut out, "\n");
    push_str(&mut out, "\t.byte\t0\n");
    push_str(&mut out, "\t.short\t");
    push_dec(
        &mut out,
        if ptr64 {
            1
        } else {
            0
        },
    );
    push_str(&mut out, "\n");
    push_str(&mut out, "\t.long\t");
    push_dec(&mut out, functions.len() as u64);
    push_str(&mut out, "\n");
    push_str(&mut out, "\t.long\t");
    push_dec(&mut out, total_len as u64);
    push_str(&mut out, "\n");
    let ghost head = out@;
    let mut f: usize = 0;
    while f < functions.len()
        invariant
            f <= functions@.len(),
            fs == functions_model(functions@),
            out@ + function_table_from(fs, f as nat, ptr64) == head + function_table_from(
                fs,
                0,
                ptr64,
            ),
        decreases functions.len() - f,
    {
        let ghost before = out@;
        let function = &functions[f];
        push_str(&mut out, "\t");
        if ptr64 {
            push_str(&mut out, ".quad");
        } else {
            push_str(&mut out, ".long");
        }
        push_str(&mut out, "\t");
        let sym = chars_of(function.symbol.as_str());
        push_chars(&mut out, &sym);
        push_str(&mut out, "\n");
        push_str(&mut out, "\t.long\t");
        push_dec(&mut out, function.stack_size % 0x1_0000_0000);
        push_str(&mut out, "\n");
        push_str(&mut out, "\t.long\t");
        push_dec(&mut out, function.records.len() as u64);
        push_str(&mut out, "\n");
        assert(out@ =~= before + function_entry_text(fs[f as int], ptr64));
        f += 1;
        assert(out@ + function_table_from(fs, f as nat, ptr64) =~= before + function_table_from(
            fs,
            (f - 1) as nat,
            ptr64,
        ));
    }
    assert(out@ =~= out@ + function_table_from(fs, f as nat, ptr64));
    let ghost table = out@;
    let mut f: usize = 0;
    while f < functions.len()
        invariant
            f <= functions@.len(),
            fs == functions_model(functions@),
            out@ + offsets_from(fs, f as nat) == table + offsets_from(fs, 0),
        decreases functions.len() - f,
    {
        let ghost before = out@;
        let records = &functions[f].records;
        let ghost rs = fs[f as int].records;
        let mut i: usize = 0;
        while i < records.len()
            invariant
                i <= records@.len(),
                rs == crate::gc_map::model::records_model(records@),
                out@ + offsets_of_from(rs, i as nat) == before + offsets_of_from(rs, 0),
            decreases records.len() - i,
        {
            let ghost b4 = out@;
            push_str(&mut out, "\t.long\t");
            let e = chars_of(records[i].instruction_offset.as_str());
            push_chars(&mut out, &e);
            push_str(&mut out, "\n");
            assert(rs[i as int].offset_expr == e@);
            i += 1;
            assert(out@ + offsets_of_from(rs, i as nat) =~= b4 + offsets_of_from(
                rs,
                (i - 1) as nat,
            ));
        }
        assert(out@ =~= out@ + offsets_of_from(rs, i as nat));
        f += 1;
        assert(out@ + offsets_from(fs, f as nat) =~= before + offsets_from(fs, (f - 1) as nat));
    }
    assert(out@ =~= out@ + offsets_from(fs, f as nat));
    emit_byte_lines(&mut out, stream);
    assert(out@ =~= emit_spec(fs, stream@, format, ptr64));
    out
}

} // verus!
