//! Re-encode LLVM's stack-map section into Perry's compact GC map.
//!
//! `gc.statepoint` metadata is mostly dead weight to an ahead-of-time
//! collector: three statepoint constants per record, every root recorded as a
//! (base, derived) pair, a patchpoint ID per record and inter-record padding.
//! The runtime keeps only `{dwarf_reg, offset}` per distinct root, so this
//! module rewrites the `clang -S` output's stack-map block into that, sorted
//! by frame offset, delta-encoded, with a repeat flag for a record whose live
//! set equals the one before it.
//!
//! The rewrite works on assembly text: the function addresses are symbol names
//! there (`.quad _main`), so one text parser suffices.
use vstd::prelude::*;
use crate::gc_map::block::{
    parse_block_chars, parse_block_spec, parse_block_steps, BlockParse, BlockState,
};
use crate::gc_map::decode::{decode_blocks, decode_error_text, decode_failure_text};
use crate::gc_map::decode_spec::decode_spec;
pub use crate::gc_map::directives::{format_for, word_width_for, ObjectFormat};
use crate::gc_map::directives::{
    find_block_start, find_block_start_spec, format_for_spec, is_symbol_assignment_chars,
    is_symbol_assignment_spec, lines_view, word_width_spec,
};
use crate::gc_map::emit::{
    blob_len, blob_len_exec, emit_asm, emit_spec, record_total, record_total_exec, root_total,
    root_total_exec, wrap_usize, GC_MAP_LABEL,
};
pub use crate::gc_map::model::FunctionMap;
use crate::gc_map::model::{functions_model, FunctionModel};
pub use crate::gc_map::stream::{encode_stream, verify_roundtrip};
use crate::gc_map::stream_spec::encode_stream_spec;
use crate::text::{
    chars_of, contains, contains_lit, lines, lines_exec, push_chars, push_str, starts_with,
    starts_with_lit, string_of,
};

pub use crate::gc_map::block::{parse_block, parse_block_checked, RawBlock};
pub use crate::gc_map::decode::decode_v3;
pub use crate::gc_map::directives::{
    cpu_selection_flags, directive_width, is_symbol_assignment, is_symbol_char_given,
    is_zero_width_directive,
    parse_int,
};
pub use crate::gc_map::emit::COFF_SECTION_NAME;
pub use crate::gc_map::model::Record;
pub use crate::gc_map::stream::encode_slots;
pub use crate::gc_map::varint::{push_varint, read_varint, unzigzag, zigzag};

pub mod block;
pub mod decode;
pub mod concat_laws;
pub mod decode_laws;
pub mod decode_spec;
pub mod directives;
pub mod emit;
pub mod layout_laws;
pub mod live_set_laws;
pub mod model;
pub mod rewrite_laws;
pub mod roundtrip;
pub mod slots;
pub mod stream;
pub mod stream_messages;
pub mod stream_spec;
pub mod varint;

verus! {

/// Statistics for the caller to log: a compaction that silently did nothing
/// must be distinguishable from one that ran.
#[derive(Debug, Clone, Copy, PartialEq, Eq)]
pub struct GcMapStats {
    pub original_bytes: usize,
    pub compact_bytes: usize,
    pub functions: usize,
    pub records: usize,
    pub roots: usize,
}

/// The `.no_dead_strip` line, retargeted at the compact map's label.
pub open spec fn no_dead_strip_line() -> Seq<char> {
    "\t.no_dead_strip\t"@ + GC_MAP_LABEL@ + "\n"@
}

/// A line before the block, as re-emitted: `.no_dead_strip` of the old map is
/// retargeted (without it the section would be stripped), anything else kept.
pub open spec fn line_before(l: Seq<char>) -> Seq<char> {
    if contains(l, ".no_dead_strip"@) && contains(l, "__LLVM_StackMaps"@) {
        no_dead_strip_line()
    } else {
        l + "\n"@
    }
}

pub open spec fn prefix_text(ls: Seq<Seq<char>>, n: nat) -> Seq<char>
    decreases n,
{
    if n == 0 {
        Seq::empty()
    } else {
        prefix_text(ls, (n - 1) as nat) + line_before(ls[n - 1])
    }
}

/// A zero-width line the block held about another symbol, re-emitted after
/// the map (indented unless it is a symbol assignment).
pub open spec fn carried_line(l: Seq<char>) -> Seq<char> {
    (if is_symbol_assignment_spec(l) {
        l
    } else {
        "\t"@ + l
    }) + "\n"@
}

pub open spec fn carried_text(c: Seq<Seq<char>>) -> Seq<char>
    decreases c.len(),
{
    if c.len() == 0 {
        Seq::empty()
    } else {
        carried_text(c.drop_last()) + carried_line(c.last())
    }
}

/// The lines from `from` on, dropping any that still name the old map.
pub open spec fn suffix_text(ls: Seq<Seq<char>>, from: nat) -> Seq<char>
    decreases ls.len() - from,
{
    if from >= ls.len() {
        Seq::empty()
    } else {
        (if contains(ls[from as int], "__LLVM_StackMaps"@) {
            Seq::empty()
        } else {
            ls[from as int] + "\n"@
        }) + suffix_text(ls, from + 1)
    }
}

/// The target's function addresses are 8 bytes wide unless it is ILP32
/// watchOS (`arm64_32`).
pub open spec fn ptr64_for(target: Seq<char>) -> bool {
    !starts_with(target, "arm64_32"@)
}

pub struct StatsModel {
    pub original_bytes: nat,
    pub compact_bytes: nat,
    pub functions: nat,
    pub records: nat,
    pub roots: nat,
}

impl GcMapStats {
    pub open spec fn model(&self) -> StatsModel {
        StatsModel {
            original_bytes: self.original_bytes as nat,
            compact_bytes: self.compact_bytes as nat,
            functions: self.functions as nat,
            records: self.records as nat,
            roots: self.roots as nat,
        }
    }
}

pub enum CompactOutcome {
    NoBlock,
    Rewritten { text: Seq<char>, stats: StatsModel },
    Failed(Seq<char>),
    /// The block outgrows memory (see `LineStep::Abort`).
    Aborted,
}

pub open spec fn stats_of(bytes_len: nat, fs: Seq<FunctionModel>, ptr64: bool) -> StatsModel {
    StatsModel {
        original_bytes: bytes_len,
        compact_bytes: blob_len(fs, encode_stream_spec(fs).len(), ptr64),
        functions: fs.len(),
        records: wrap_usize(record_total(fs)),
        roots: wrap_usize(root_total(fs)),
    }
}

/// What rewriting the stack-map block of `assembly` for `target` yields.
pub open spec fn compact_spec(assembly: Seq<char>, target: Seq<char>) -> CompactOutcome {
    let ls = lines(assembly);
    match find_block_start_spec(ls) {
        None => CompactOutcome::NoBlock,
        Some(_) => {
            let ptr64 = ptr64_for(target);
            match parse_block_spec(ls, word_width_spec(target)) {
                BlockParse::Aborted => CompactOutcome::Aborted,
                BlockParse::Failed(m) => CompactOutcome::Failed(m),
                BlockParse::Parsed { start, end, state } => match decode_spec(
                    state.bytes,
                    state.symbols,
                ) {
                    Err(e) => CompactOutcome::Failed(decode_error_text(e, state.bytes.len())),
                    Ok(fs) => CompactOutcome::Rewritten {
                        text: prefix_text(ls, start) + emit_spec(
                            fs,
                            encode_stream_spec(fs),
                            format_for_spec(target),
                            ptr64,
                        ) + carried_text(state.carried) + suffix_text(ls, end),
                        stats: stats_of(state.bytes.len(), fs, ptr64),
                    },
                },
            }
        },
    }
}

/// The decoded, encoded and verified stack map of a parsed block.
fn decode_and_encode(block: &RawBlock) -> (r: Result<(Vec<FunctionMap>, Vec<u8>), Vec<char>>)
    requires
        block.bytes@.len() <= isize::MAX,
    ensures
        match decode_spec(block.bytes@, block.state().symbols) {
            Ok(fs) => r is Ok && functions_model(r->Ok_0.0@) == fs && r->Ok_0.1@
                == encode_stream_spec(fs),
            Err(e) => r is Err && r->Err_0@ == decode_error_text(e, block.bytes@.len()),
        },
{
    let functions = match decode_blocks(block) {
        Ok(fs) => fs,
        Err(e) => {
            return Err(decode_failure_text(&e, block.bytes.len()));
        },
    };
    proof {
        crate::gc_map::decode_laws::lemma_decode_wf(block.bytes@, block.state().symbols);
        crate::gc_map::roundtrip::lemma_encode_stream_roundtrip(functions_model(functions@));
    }
    let stream = encode_stream(&functions);
    match verify_roundtrip(&functions, &stream) {
        Ok(()) => {},
        Err(m) => {
            assert(false);
            return Err(chars_of(m.as_str()));
        },
    }
    Ok((functions, stream))
}

/// Rewrite the LLVM stack-map block in `assembly` into the compact map.
///
/// `Ok(None)` when there is no stack-map block (the common case for a module
/// without safepoints). A block that does not parse or decode is an `Err`
/// naming the reason, never a silent skip: keeping LLVM's section would lose
/// the module's roots, because the runtime reads only the compact section.
///
/// The rewritten text is the lines before the block (a `.no_dead_strip` of
/// the old map retargeted at the new label), the compact map, the zero-width
/// lines the block held about other symbols, and the lines after the block
/// minus any that still name the old map.
#[verifier::rlimit(30)]
pub fn compact_stack_map_asm(assembly: &str, target: &str) -> (r: Result<
    Option<(String, GcMapStats)>,
    String,
>)
    requires
        !(compact_spec(assembly@, target@) is Aborted),
    ensures
        match compact_spec(assembly@, target@) {
            CompactOutcome::NoBlock => r == Ok::<Option<(String, GcMapStats)>, String>(None),
            CompactOutcome::Rewritten { text, stats } => r is Ok && r->Ok_0 is Some
                && r->Ok_0->Some_0.0@ == text && r->Ok_0->Some_0.1.model() == stats,
            CompactOutcome::Failed(m) => r is Err && r->Err_0@ == m,
            CompactOutcome::Aborted => false,
        },
{
    let text = chars_of(assembly);
    let ls = lines_exec(&text);
    let ghost lv = lines(assembly@);
    assert(lines_view(ls@) =~= lv);
    let start = match find_block_start(&ls) {
        None => {
            return Ok(None);
        },
        Some(s) => s,
    };
    let tchars = chars_of(target);
    let ptr64 = !starts_with_lit(&tchars, "arm64_32");
    let ww = word_width_for(target);
    let block = match parse_block_chars(&ls, ww) {
        Ok(b) => b,
        Err(m) => {
            return Err(string_of(&m));
        },
    };
    let (functions, stream) = match decode_and_encode(&block) {
        Ok(t) => t,
        Err(m) => {
            return Err(string_of(&m));
        },
    };
    let ghost fs = functions_model(functions@);
    let stats = GcMapStats {
        original_bytes: block.bytes.len(),
        compact_bytes: blob_len_exec(&functions, stream.len(), ptr64),
        functions: functions.len(),
        records: record_total_exec(&functions),
        roots: root_total_exec(&functions),
    };
    let replacement = emit_asm(&functions, &stream, format_for(target), ptr64);
    let mut out: Vec<char> = Vec::new();
    let mut i: usize = 0;
    while i < block.start_line
        invariant
            i <= block.start_line < ls@.len(),
            lv == lines_view(ls@),
            out@ == prefix_text(lv, i as nat),
        decreases block.start_line - i,
    {
        let line = &ls[i];
        if contains_lit(line, ".no_dead_strip") && contains_lit(line, "__LLVM_StackMaps") {
            push_str(&mut out, "\t.no_dead_strip\t");
            push_str(&mut out, GC_MAP_LABEL);
            push_str(&mut out, "\n");
        } else {
            push_chars(&mut out, line);
            push_str(&mut out, "\n");
        }
        assert(lv[i as int] == line@);
        i += 1;
        assert(out@ =~= prefix_text(lv, i as nat));
    }
    push_chars(&mut out, &replacement);
    let ghost after_map = out@;
    let mut k: usize = 0;
    while k < block.carried.len()
        invariant
            k <= block.carried@.len(),
            out@ == after_map + carried_text(lines_view(block.carried@).take(k as int)),
        decreases block.carried.len() - k,
    {
        let line = &block.carried[k];
        let ghost cv = lines_view(block.carried@);
        assert(cv.take(k + 1).drop_last() =~= cv.take(k as int));
        assert(cv.take(k + 1).last() == line@);
        if !is_symbol_assignment_chars(line) {
            push_str(&mut out, "\t");
        }
        push_chars(&mut out, line);
        push_str(&mut out, "\n");
        k += 1;
        assert(out@ =~= after_map + carried_text(cv.take(k as int)));
    }
    assert(lines_view(block.carried@).take(k as int) =~= lines_view(block.carried@));
    let ghost after_carried = out@;
    let mut j: usize = block.end_line;
    while j < ls.len()
        invariant
            block.end_line <= j <= ls@.len(),
            lv == lines_view(ls@),
            out@ + suffix_text(lv, j as nat) == after_carried + suffix_text(
                lv,
                block.end_line as nat,
            ),
        decreases ls.len() - j,
    {
        let ghost before = out@;
        let line = &ls[j];
        assert(lv[j as int] == line@);
        if !contains_lit(line, "__LLVM_StackMaps") {
            push_chars(&mut out, line);
            push_str(&mut out, "\n");
        }
        j += 1;
        assert(out@ + suffix_text(lv, j as nat) =~= before + suffix_text(lv, (j - 1) as nat));
    }
    assert(out@ =~= out@ + suffix_text(lv, j as nat));
    Ok(Some((string_of(&out), stats)))
}

/// Architectures whose frame bases the runtime can resolve.
pub open spec fn arch_supported(target: Seq<char>) -> bool {
    starts_with(target, "aarch64"@) || starts_with(target, "arm64"@) || starts_with(target, "x86_64"@)
}

pub open spec fn unsupported_arch_msg(target: Seq<char>) -> Seq<char> {
    "perry: native GC roots (PERRY_RS4GC) are not supported for target `"@ + target
        + "` \u{2014} its roots are recorded against frame bases this runtime cannot resolve, and the collector would segfault rather than report anything. Tracked for #7173."@
}

pub open spec fn coff_without_walker_msg(target: Seq<char>) -> Seq<char> {
    "perry: native GC roots (PERRY_RS4GC) are not enabled for target `"@ + target
        + "` yet \u{2014} the COFF section and its PE lookup exist, but the runtime's Windows stack walker is x86-64 only, so no frame would ever be visited and the collector would free live objects. Tracked for #7173."@
}

/// Why the compact map cannot be emitted for `target`, if it cannot.
pub open spec fn refusal_spec(target: Seq<char>) -> Option<Seq<char>> {
    if !arch_supported(target) {
        Some(unsupported_arch_msg(target))
    } else if format_for_spec(target) == ObjectFormat::Coff && !starts_with(target, "x86_64"@) {
        Some(coff_without_walker_msg(target))
    } else {
        None
    }
}

/// The refusal `compact_and_assemble` answers before touching the assembly:
/// a target whose roots the runtime cannot find must fail the compile, not
/// produce a binary whose collector frees live objects. Only aarch64/arm64
/// and x86-64 are admitted, and of COFF targets only x86-64, the one the
/// Windows stack walker handles.
pub fn target_refusal(target: &str) -> (r: Option<String>)
    ensures
        match refusal_spec(target@) {
            None => r is None,
            Some(m) => r is Some && r->Some_0@ == m,
        },
{
    let t = chars_of(target);
    let x86 = starts_with_lit(&t, "x86_64");
    if !(starts_with_lit(&t, "aarch64") || starts_with_lit(&t, "arm64") || x86) {
        let mut m: Vec<char> = Vec::new();
        push_str(&mut m, "perry: native GC roots (PERRY_RS4GC) are not supported for target `");
        push_chars(&mut m, &t);
        push_str(
            &mut m,
            "` \u{2014} its roots are recorded against frame bases this runtime cannot resolve, and the collector would segfault rather than report anything. Tracked for #7173.",
        );
        return Some(string_of(&m));
    }
    if format_for(target) == ObjectFormat::Coff && !x86 {
        let mut m: Vec<char> = Vec::new();
        push_str(&mut m, "perry: native GC roots (PERRY_RS4GC) are not enabled for target `");
        push_chars(&mut m, &t);
        push_str(
            &mut m,
            "` yet \u{2014} the COFF section and its PE lookup exist, but the runtime's Windows stack walker is x86-64 only, so no frame would ever be visited and the collector would free live objects. Tracked for #7173.",
        );
        return Some(string_of(&m));
    }
    None
}

pub enum RootsOutcome {
    Roots(Seq<(Seq<char>, Seq<Seq<(u16, i32)>>)>),
    Failed(Seq<char>),
    /// The block outgrows memory (see `LineStep::Abort`).
    Aborted,
}

pub open spec fn no_section_msg() -> Seq<char> {
    "assembly carries no stack-map section"@
}

/// Per function symbol, the roots of each of its safepoints.
pub open spec fn roots_of(fs: Seq<FunctionModel>) -> Seq<(Seq<char>, Seq<Seq<(u16, i32)>>)> {
    Seq::new(fs.len(), |i: int| (fs[i].symbol, Seq::new(fs[i].records.len(), |j: int| fs[i].records[j].roots)))
}

/// What decoding the stack map of `assembly` for `target` yields.
pub open spec fn roots_spec(assembly: Seq<char>, target: Seq<char>) -> RootsOutcome {
    let ls = lines(assembly);
    match find_block_start_spec(ls) {
        None => RootsOutcome::Failed(no_section_msg()),
        Some(_) => match parse_block_spec(ls, word_width_spec(target)) {
            BlockParse::Aborted => RootsOutcome::Aborted,
            BlockParse::Failed(m) => RootsOutcome::Failed(m),
            BlockParse::Parsed { start, end, state } => match decode_spec(state.bytes, state.symbols) {
                Err(e) => RootsOutcome::Failed(decode_error_text(e, state.bytes.len())),
                Ok(fs) => RootsOutcome::Roots(roots_of(fs)),
            },
        },
    }
}

/// An element-for-element copy of a slot list.
fn copy_slots(v: &Vec<(u16, i32)>) -> (r: Vec<(u16, i32)>)
    ensures
        r@ == v@,
{
    let mut r: Vec<(u16, i32)> = Vec::new();
    let mut i: usize = 0;
    while i < v.len()
        invariant
            i <= v@.len(),
            r@ == v@.take(i as int),
        decreases v.len() - i,
    {
        r.push(v[i]);
        i += 1;
        assert(r@ =~= v@.take(i as int));
    }
    assert(v@.take(i as int) =~= v@);
    r
}

/// Decode the stack map in `assembly` down to what the collector reads at
/// run time: per function symbol, one entry per safepoint listing that
/// safepoint's deduplicated `(dwarf_reg, frame_offset)` roots.
///
/// The map goes through the encoder and the round-trip check, so the roots
/// are those of the compact map a binary ships. No block is an `Err`, not an
/// empty `Ok`: "there were no roots" and "there was no map" are different
/// answers.
pub fn decode_stack_map_roots(assembly: &str, target: &str) -> (r: Result<
    Vec<(String, Vec<Vec<(u16, i32)>>)>,
    String,
>)
    requires
        !(roots_spec(assembly@, target@) is Aborted),
    ensures
        match roots_spec(assembly@, target@) {
            RootsOutcome::Roots(v) => r is Ok && r->Ok_0.len() == v.len() && forall|i: int|
                0 <= i < v.len() ==> {
                    &&& (#[trigger] r->Ok_0@[i]).0@ == v[i].0
                    &&& r->Ok_0@[i].1.len() == v[i].1.len()
                    &&& forall|j: int| 0 <= j < v[i].1.len() ==> (#[trigger] r->Ok_0@[i].1@[j])@ == v[i].1[j]
                },
            RootsOutcome::Failed(m) => r is Err && r->Err_0@ == m,
            RootsOutcome::Aborted => false,
        },
{
    let text = chars_of(assembly);
    let ls = lines_exec(&text);
    let ghost lv = lines(assembly@);
    assert(lines_view(ls@) =~= lv);
    if find_block_start(&ls).is_none() {
        return Err(string_of(&chars_of("assembly carries no stack-map section")));
    }
    let ww = word_width_for(target);
    let block = match parse_block_chars(&ls, ww) {
        Ok(b) => b,
        Err(m) => {
            return Err(string_of(&m));
        },
    };
    let (functions, _stream) = match decode_and_encode(&block) {
        Ok(t) => t,
        Err(m) => {
            return Err(string_of(&m));
        },
    };
    let ghost fs = functions_model(functions@);
    let ghost want = roots_of(fs);
    let mut out: Vec<(String, Vec<Vec<(u16, i32)>>)> = Vec::new();
    let mut i: usize = 0;
    while i < functions.len()
        invariant
            i <= functions@.len(),
            fs == functions_model(functions@),
            want == roots_of(fs),
            out@.len() == i,
            forall|a: int| 0 <= a < i ==> {
                &&& (#[trigger] out@[a]).0@ == want[a].0
                &&& out@[a].1.len() == want[a].1.len()
                &&& forall|j: int| 0 <= j < want[a].1.len() ==> (#[trigger] out@[a].1@[j])@ == want[a].1[j]
            },
        decreases functions.len() - i,
    {
        let f = &functions[i];
        let mut rs: Vec<Vec<(u16, i32)>> = Vec::new();
        let mut k: usize = 0;
        while k < f.records.len()
            invariant
                k <= f.records@.len(),
                rs@.len() == k,
                forall|j: int| 0 <= j < k ==> (#[trigger] rs@[j])@ == f.records@[j].roots@,
            decreases f.records.len() - k,
        {
            rs.push(copy_slots(&f.records[k].roots));
            k += 1;
        }
        let sym = f.symbol.clone();
        out.push((sym, rs));
        proof {
            assert(fs[i as int] == f.model());
            assert(want[i as int].1.len() == f.records@.len());
            assert forall|j: int| 0 <= j < want[i as int].1.len() implies (#[trigger] out@[i as int].1@[j])@
                == want[i as int].1[j] by {
                assert(f.model().records[j] == f.records@[j].model());
            }
        }
        i += 1;
    }
    Ok(out)
}

/// Whether the stack-map block of `assembly` would outgrow what a `Vec` can
/// hold while it is assembled into bytes (where the rewrite panics).
fn block_overflows(assembly: &str, target: &str) -> (r: bool)
    ensures
        r == (compact_spec(assembly@, target@) is Aborted),
        r == (roots_spec(assembly@, target@) is Aborted),
{
    let text = chars_of(assembly);
    let ls = lines_exec(&text);
    assert(lines_view(ls@) =~= lines(assembly@));
    match find_block_start(&ls) {
        None => false,
        Some(_) => parse_block_steps(&ls, word_width_for(target)).is_none(),
    }
}

/// [`compact_stack_map_asm`] for any input: `None` exactly where the block
/// would outgrow memory, else what the rewrite returns.
pub fn compact_stack_map_asm_checked(assembly: &str, target: &str) -> (r: Option<
    Result<Option<(String, GcMapStats)>, String>,
>)
    ensures
        r is None <==> compact_spec(assembly@, target@) is Aborted,
        match compact_spec(assembly@, target@) {
            CompactOutcome::NoBlock => r == Some(Ok::<Option<(String, GcMapStats)>, String>(None)),
            CompactOutcome::Rewritten { text, stats } => r matches Some(Ok(Some((t, s)))) && t@
                == text && s.model() == stats,
            CompactOutcome::Failed(m) => r matches Some(Err(e)) && e@ == m,
            CompactOutcome::Aborted => r is None,
        },
{
    if block_overflows(assembly, target) {
        None
    } else {
        Some(compact_stack_map_asm(assembly, target))
    }
}

/// [`decode_stack_map_roots`] for any input: `None` exactly where the block
/// would outgrow memory, else what the decoder returns.
pub fn decode_stack_map_roots_checked(assembly: &str, target: &str) -> (r: Option<
    Result<Vec<(String, Vec<Vec<(u16, i32)>>)>, String>,
>)
    ensures
        r is None <==> roots_spec(assembly@, target@) is Aborted,
        match roots_spec(assembly@, target@) {
            RootsOutcome::Roots(v) => r matches Some(Ok(x)) && x.len() == v.len() && forall|i: int|
                0 <= i < v.len() ==> {
                    &&& (#[trigger] x@[i]).0@ == v[i].0
                    &&& x@[i].1.len() == v[i].1.len()
                    &&& forall|j: int| 0 <= j < v[i].1.len() ==> (#[trigger] x@[i].1@[j])@ == v[i].1[j]
                },
            RootsOutcome::Failed(m) => r matches Some(Err(e)) && e@ == m,
            RootsOutcome::Aborted => r is None,
        },
{
    if block_overflows(assembly, target) {
        None
    } else {
        Some(decode_stack_map_roots(assembly, target))
    }
}

} // verus!
