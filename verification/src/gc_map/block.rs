//! Assemble the directives of LLVM's stack-map block into the bytes they emit.
use vstd::prelude::*;
use crate::gc_map::directives::{
    directive_width, directive_width_spec, find_block_start, find_block_start_spec,
    is_symbol_assignment_chars, is_symbol_assignment_spec, is_zero_width_directive,
    is_zero_width_spec, lines_view, parse_int, parse_int_spec,
};
use crate::numtext::{dec, parse_unsigned, parse_unsigned_exec, push_dec};
use crate::text::{
    after_ws, after_ws_exec, before_first, before_first_lit, before_ws, before_ws_exec, chars_of,
    contains, contains_lit, ends_with, ends_with_lit, is_lit, push_chars, push_str, starts_with,
    starts_with_lit, string_of, trim, trim_char, trim_char_exec, trim_exec,
};

verus! {

/// What the block's directives have produced so far: the bytes, the byte
/// offsets at which a data directive named a symbol instead of a literal (in
/// the order they were met), and the zero-width lines about other symbols.
pub struct BlockState {
    pub bytes: Seq<u8>,
    pub symbols: Seq<(nat, Seq<char>)>,
    pub carried: Seq<Seq<char>>,
}

pub enum LineStep {
    /// The line ends the block.
    Stop,
    Next(BlockState),
    Fail(Seq<char>),
    /// The block cannot be assembled: a shift past `usize`'s width, or a
    /// buffer longer than `isize::MAX` bytes, which no `Vec` can hold.
    Abort,
}

pub enum BlockParse {
    Parsed { start: nat, end: nat, state: BlockState },
    Failed(Seq<char>),
    Aborted,
}

/// `raw.trim().trim_matches('\0').trim()`: LLVM's buffer may expose its
/// terminating NUL as the last line.
pub open spec fn clean_line(raw: Seq<char>) -> Seq<char> {
    trim(trim_char(trim(raw), '\0'))
}

pub open spec fn is_section_word(w: Seq<char>) -> bool {
    w == ".text"@ || w == ".data"@ || w == ".bss"@ || w == ".rodata"@ || w == ".const"@ || w
        == ".cstring"@ || w == ".literal8"@
}

/// The block runs to the next section switch (long or shorthand) or to the
/// Mach-O epilogue.
pub open spec fn is_terminator(line: Seq<char>) -> bool {
    starts_with(line, ".section"@) || starts_with(line, ".subsections_via_symbols"@)
        || is_section_word(before_ws(line))
}

/// Blank lines, comments and labels emit nothing.
pub open spec fn is_skipped(line: Seq<char>) -> bool {
    line.len() == 0 || starts_with(line, "#"@) || starts_with(line, "//"@) || ends_with(
        line,
        ":"@,
    )
}

/// A zero-width line is kept unless it names the map's own label.
pub open spec fn carry_if_foreign_spec(carried: Seq<Seq<char>>, line: Seq<char>) -> Seq<
    Seq<char>,
> {
    if contains(line, "__LLVM_StackMaps"@) {
        carried
    } else {
        carried.push(line)
    }
}

/// The operand of a directive line, with `#` and `//` comments removed.
pub open spec fn operand_of(line: Seq<char>) -> Seq<char> {
    trim(before_first(before_first(after_ws(line), "#"@), "//"@))
}

/// The first comma-separated field of an operand.
pub open spec fn first_field(operand: Seq<char>) -> Seq<char> {
    trim(before_first(operand, ","@))
}

pub open spec fn pow2_nat(n: nat) -> nat
    decreases n,
{
    if n == 0 {
        1
    } else {
        2 * pow2_nat((n - 1) as nat)
    }
}

/// The length after padding `len` up to a multiple of `align`.
pub open spec fn pad_to(len: nat, align: nat) -> nat {
    if align <= 1 || len % align == 0 {
        len
    } else {
        len + (align - len % align) as nat
    }
}

pub open spec fn zeros(n: nat) -> Seq<u8> {
    Seq::new(n, |i: int| 0u8)
}

/// The first `w` little-endian bytes of `v`.
pub open spec fn le_bytes(v: nat, w: nat) -> Seq<u8>
    decreases w,
{
    if w == 0 {
        Seq::empty()
    } else {
        seq![(v % 256) as u8] + le_bytes(v / 256, (w - 1) as nat)
    }
}

pub open spec fn msg_line_prefix(index: nat) -> Seq<char> {
    "line "@ + dec(index + 1)
}

pub open spec fn msg_align(index: nat, line: Seq<char>) -> Seq<char> {
    msg_line_prefix(index) + ": unparseable alignment operand in `"@ + line + "`"@
}

pub open spec fn msg_fill(index: nat, line: Seq<char>) -> Seq<char> {
    msg_line_prefix(index) + ": unparseable fill count in `"@ + line + "`"@
}

pub open spec fn msg_unrecognised(index: nat, directive: Seq<char>, line: Seq<char>) -> Seq<char> {
    msg_line_prefix(index) + ": unrecognised directive `"@ + directive
        + "` inside the stack-map block (`"@ + line + MSG_UNRECOGNISED_TAIL@
}

pub const MSG_UNRECOGNISED_TAIL: &'static str = "`). Its byte width is unknown, and guessing it would shift every offset after it \u{2014} decoding a root list from the wrong bytes rather than failing. Add it to `directive_width` (with its width) or to `is_zero_width_directive`.";

pub open spec fn no_block_msg() -> Seq<char> {
    "no stack-map section"@
}

/// What one line of the block does to the parse (line `index`, 0-based).
pub open spec fn line_step(index: nat, raw: Seq<char>, word_width: nat, st: BlockState) -> LineStep {
    let line = clean_line(raw);
    if is_terminator(line) {
        LineStep::Stop
    } else if is_skipped(line) {
        LineStep::Next(st)
    } else if is_symbol_assignment_spec(line) {
        LineStep::Next(BlockState { carried: carry_if_foreign_spec(st.carried, line), ..st })
    } else {
        let directive = before_ws(line);
        let operand = operand_of(line);
        let len = st.bytes.len();
        if directive == ".p2align"@ || directive == ".align"@ || directive == ".balign"@ {
            match parse_unsigned(first_field(operand), 10, u32::MAX as nat) {
                None => LineStep::Fail(msg_align(index, line)),
                Some(value) => {
                    let align = if directive == ".p2align"@ {
                        pow2_nat(value)
                    } else {
                        value
                    };
                    if align > usize::MAX || pad_to(len, align) > isize::MAX {
                        LineStep::Abort
                    } else {
                        LineStep::Next(
                            BlockState {
                                bytes: st.bytes + zeros((pad_to(len, align) - len) as nat),
                                ..st
                            },
                        )
                    }
                },
            }
        } else if directive == ".zero"@ || directive == ".space"@ || directive == ".skip"@ {
            match parse_unsigned(first_field(operand), 10, usize::MAX as nat) {
                None => LineStep::Fail(msg_fill(index, line)),
                Some(count) => {
                    if len + count > isize::MAX {
                        LineStep::Abort
                    } else {
                        LineStep::Next(BlockState { bytes: st.bytes + zeros(count), ..st })
                    }
                },
            }
        } else {
            match directive_width_spec(directive, word_width) {
                Some(width) => {
                    if len + width > isize::MAX {
                        LineStep::Abort
                    } else {
                        match parse_int_spec(operand) {
                            Some(value) => LineStep::Next(
                                BlockState { bytes: st.bytes + le_bytes(value as nat, width), ..st },
                            ),
                            None => LineStep::Next(
                                BlockState {
                                    bytes: st.bytes + zeros(width),
                                    symbols: st.symbols.push((len, operand)),
                                    carried: st.carried,
                                },
                            ),
                        }
                    }
                },
                None => {
                    if !is_zero_width_spec(directive) {
                        LineStep::Fail(msg_unrecognised(index, directive, line))
                    } else {
                        LineStep::Next(
                            BlockState { carried: carry_if_foreign_spec(st.carried, line), ..st },
                        )
                    }
                },
            }
        }
    }
}

/// Run the lines from `i` on.
pub open spec fn parse_lines(
    lines: Seq<Seq<char>>,
    word_width: nat,
    start: nat,
    i: nat,
    st: BlockState,
) -> BlockParse
    decreases lines.len() - i,
{
    if i >= lines.len() {
        BlockParse::Parsed { start, end: lines.len(), state: st }
    } else {
        match line_step(i, lines[i as int], word_width, st) {
            LineStep::Stop => BlockParse::Parsed { start, end: i, state: st },
            LineStep::Next(next) => parse_lines(lines, word_width, start, i + 1, next),
            LineStep::Fail(m) => BlockParse::Failed(m),
            LineStep::Abort => BlockParse::Aborted,
        }
    }
}

pub open spec fn empty_state() -> BlockState {
    BlockState { bytes: Seq::empty(), symbols: Seq::empty(), carried: Seq::empty() }
}

/// The stack-map block of `lines`: from the line after the section switch
/// that opens it to the next section switch (or the end of the text).
pub open spec fn parse_block_spec(lines: Seq<Seq<char>>, word_width: nat) -> BlockParse {
    match find_block_start_spec(lines) {
        None => BlockParse::Failed(no_block_msg()),
        Some(s) => parse_lines(lines, word_width, s as nat, (s + 1) as nat, empty_state()),
    }
}

/// The assembled bytes of the stack-map block, plus the byte offsets at which
/// a data directive referenced a symbol instead of a literal.
pub struct RawBlock {
    pub start_line: usize,
    pub end_line: usize,
    pub bytes: Vec<u8>,
    /// `(byte offset, operand text)`, in the order met. The offsets strictly
    /// increase (`lemma_block_symbols_are_a_map`), so this is the map from
    /// offset to symbol.
    pub symbols: Vec<(usize, Vec<char>)>,
    /// Zero-width lines inside the block that describe some other symbol;
    /// they are re-emitted after the compact map, in this order.
    pub carried: Vec<Vec<char>>,
}

pub open spec fn symbols_view(s: Seq<(usize, Vec<char>)>) -> Seq<(nat, Seq<char>)> {
    Seq::new(s.len(), |i: int| (s[i].0 as nat, s[i].1@))
}

impl RawBlock {
    pub open spec fn state(&self) -> BlockState {
        BlockState {
            bytes: self.bytes@,
            symbols: symbols_view(self.symbols@),
            carried: lines_view(self.carried@),
        }
    }
}

enum ExecStep {
    Stop,
    Next,
    Fail(Vec<char>),
    /// The block would outgrow what a `Vec` can hold.
    Abort,
}

fn push_zeros(bytes: &mut Vec<u8>, n: usize)
    ensures
        final(bytes)@ == old(bytes)@ + zeros(n as nat),
{
    let mut k: usize = 0;
    while k < n
        invariant
            k <= n,
            bytes@ == old(bytes)@ + zeros(k as nat),
        decreases n - k,
    {
        bytes.push(0u8);
        k += 1;
        assert(bytes@ =~= old(bytes)@ + zeros(k as nat));
    }
}

pub proof fn lemma_le_bytes_len(v: nat, w: nat)
    ensures
        le_bytes(v, w).len() == w,
    decreases w,
{
    if w > 0 {
        lemma_le_bytes_len(v / 256, (w - 1) as nat);
    }
}

fn push_le_bytes(bytes: &mut Vec<u8>, v: u64, w: usize)
    ensures
        final(bytes)@ == old(bytes)@ + le_bytes(v as nat, w as nat),
        final(bytes)@.len() == old(bytes)@.len() + w,
{
    proof {
        lemma_le_bytes_len(v as nat, w as nat);
    }
    let mut x: u64 = v;
    let mut k: usize = 0;
    while k < w
        invariant
            k <= w,
            bytes@ + le_bytes(x as nat, (w - k) as nat) == old(bytes)@ + le_bytes(
                v as nat,
                w as nat,
            ),
        decreases w - k,
    {
        let ghost before = bytes@;
        let ghost rest = le_bytes(x as nat, (w - k) as nat);
        assert(rest == seq![(x % 256) as u8] + le_bytes((x / 256) as nat, (w - k - 1) as nat));
        bytes.push((x % 256) as u8);
        x = x / 256;
        k += 1;
        assert(bytes@ + le_bytes(x as nat, (w - k) as nat) =~= before + rest);
    }
    assert(bytes@ =~= bytes@ + le_bytes(x as nat, 0));
}

proof fn lemma_pow2_mono(a: nat, b: nat)
    requires
        a <= b,
    ensures
        pow2_nat(a) <= pow2_nat(b),
        pow2_nat(a) >= 1,
    decreases b,
{
    if b > a {
        lemma_pow2_mono(a, (b - 1) as nat);
    } else if a > 0 {
        lemma_pow2_mono((a - 1) as nat, (a - 1) as nat);
    }
}

/// `2^value`, or `None` once it passes `usize::MAX`.
fn pow2_usize(value: u64) -> (r: Option<usize>)
    ensures
        match r {
            Some(a) => a as nat == pow2_nat(value as nat),
            None => pow2_nat(value as nat) > usize::MAX,
        },
{
    let mut a: usize = 1;
    let mut k: u64 = 0;
    while k < value
        invariant
            k <= value,
            a as nat == pow2_nat(k as nat),
        decreases value - k,
    {
        if a > usize::MAX / 2 {
            proof {
                lemma_pow2_mono((k + 1) as nat, value as nat);
            }
            return None;
        }
        a = a * 2;
        k += 1;
    }
    Some(a)
}

/// One line of the block, applied to the state in `bytes`/`symbols`/`carried`.
#[verifier::rlimit(40)]
fn block_step(
    index: usize,
    raw: &Vec<char>,
    word_width: usize,
    bytes: &mut Vec<u8>,
    symbols: &mut Vec<(usize, Vec<char>)>,
    carried: &mut Vec<Vec<char>>,
) -> (r: ExecStep)
    requires
        word_width <= 8,
        index < usize::MAX,
        old(bytes)@.len() <= isize::MAX,
    ensures
        ({
            let before = BlockState {
                bytes: old(bytes)@,
                symbols: symbols_view(old(symbols)@),
                carried: lines_view(old(carried)@),
            };
            let after = BlockState {
                bytes: final(bytes)@,
                symbols: symbols_view(final(symbols)@),
                carried: lines_view(final(carried)@),
            };
            match r {
                ExecStep::Stop => line_step(index as nat, raw@, word_width as nat, before) is Stop
                    && after == before,
                ExecStep::Next => line_step(index as nat, raw@, word_width as nat, before)
                    == LineStep::Next(after) && final(bytes)@.len() <= isize::MAX,
                ExecStep::Fail(m) => line_step(index as nat, raw@, word_width as nat, before)
                    == LineStep::Fail(m@),
                ExecStep::Abort => line_step(index as nat, raw@, word_width as nat, before) is Abort,
            }
        }),
{
    let ghost before = BlockState {
        bytes: bytes@,
        symbols: symbols_view(symbols@),
        carried: lines_view(carried@),
    };
    let t1 = trim_exec(raw);
    let t2 = trim_char_exec(&t1, '\0');
    let line = trim_exec(&t2);
    let first = before_ws_exec(&line);
    if starts_with_lit(&line, ".section") || starts_with_lit(&line, ".subsections_via_symbols")
        || is_lit(&first, ".text") || is_lit(&first, ".data") || is_lit(&first, ".bss") || is_lit(
        &first,
        ".rodata",
    ) || is_lit(&first, ".const") || is_lit(&first, ".cstring") || is_lit(&first, ".literal8") {
        return ExecStep::Stop;
    }
    if line.len() == 0 || starts_with_lit(&line, "#") || starts_with_lit(&line, "//")
        || ends_with_lit(&line, ":") {
        return ExecStep::Next;
    }
    if is_symbol_assignment_chars(&line) {
        if !contains_lit(&line, "__LLVM_StackMaps") {
            carried.push(line);
            assert(lines_view(carried@) =~= lines_view(old(carried)@).push(line@));
        }
        return ExecStep::Next;
    }
    let directive = first;
    let rest = after_ws_exec(&line);
    let no_hash = before_first_lit(&rest, "#");
    let no_comment = before_first_lit(&no_hash, "//");
    let operand = trim_exec(&no_comment);
    let len = bytes.len();
    let is_p2 = is_lit(&directive, ".p2align");
    if is_p2 || is_lit(&directive, ".align") || is_lit(&directive, ".balign") {
        let head = before_first_lit(&operand, ",");
        let field = trim_exec(&head);
        match parse_unsigned_exec(&field, 10, u32::MAX as u64) {
            None => {
                let mut m: Vec<char> = Vec::new();
                push_str(&mut m, "line ");
                push_dec(&mut m, (index + 1) as u64);
                push_str(&mut m, ": unparseable alignment operand in `");
                push_chars(&mut m, &line);
                push_str(&mut m, "`");
                assert(m@ =~= msg_align(index as nat, line@));
                return ExecStep::Fail(m);
            },
            Some(value) => {
                let align: usize = if is_p2 {
                    match pow2_usize(value) {
                        Some(a) => a,
                        None => {
                            return ExecStep::Abort;
                        },
                    }
                } else {
                    if value > usize::MAX as u64 {
                        return ExecStep::Abort;
                    }
                    value as usize
                };
                if align > 1 && len % align != 0 {
                    let pad = align - len % align;
                    if pad > isize::MAX as usize - len {
                        return ExecStep::Abort;
                    }
                    push_zeros(bytes, pad);
                }
                return ExecStep::Next;
            },
        }
    }
    if is_lit(&directive, ".zero") || is_lit(&directive, ".space") || is_lit(&directive, ".skip") {
        let head = before_first_lit(&operand, ",");
        let field = trim_exec(&head);
        match parse_unsigned_exec(&field, 10, usize::MAX as u64) {
            None => {
                let mut m: Vec<char> = Vec::new();
                push_str(&mut m, "line ");
                push_dec(&mut m, (index + 1) as u64);
                push_str(&mut m, ": unparseable fill count in `");
                push_chars(&mut m, &line);
                push_str(&mut m, "`");
                assert(m@ =~= msg_fill(index as nat, line@));
                return ExecStep::Fail(m);
            },
            Some(count) => {
                if count as usize > isize::MAX as usize - len {
                    return ExecStep::Abort;
                }
                push_zeros(bytes, count as usize);
                return ExecStep::Next;
            },
        }
    }
    match directive_width(&directive, word_width) {
        Some(width) => {
            if width > isize::MAX as usize - len {
                return ExecStep::Abort;
            }
            match parse_int(&operand) {
                Some(value) => {
                    push_le_bytes(bytes, value, width);
                },
                None => {
                    symbols.push((len, operand));
                    assert(symbols_view(symbols@) =~= symbols_view(old(symbols)@).push(
                        (len as nat, operand@),
                    ));
                    push_zeros(bytes, width);
                },
            }
            ExecStep::Next
        },
        None => {
            if !is_zero_width_directive(&directive) {
                let mut m: Vec<char> = Vec::new();
                push_str(&mut m, "line ");
                push_dec(&mut m, (index + 1) as u64);
                push_str(&mut m, ": unrecognised directive `");
                push_chars(&mut m, &directive);
                push_str(&mut m, "` inside the stack-map block (`");
                push_chars(&mut m, &line);
                push_str(&mut m, MSG_UNRECOGNISED_TAIL);
                assert(m@ =~= msg_unrecognised(index as nat, directive@, line@));
                return ExecStep::Fail(m);
            }
            if !contains_lit(&line, "__LLVM_StackMaps") {
                carried.push(line);
                assert(lines_view(carried@) =~= lines_view(old(carried)@).push(line@));
            }
            ExecStep::Next
        },
    }
}

/// Parse the stack-map block of `lines` into the bytes it assembles to;
/// `None` where the block would outgrow what a `Vec` can hold.
pub fn parse_block_steps(lines: &Vec<Vec<char>>, word_width: usize) -> (r: Option<
    Result<RawBlock, Vec<char>>,
>)
    requires
        word_width <= 8,
    ensures
        match r {
            None => parse_block_spec(lines_view(lines@), word_width as nat) is Aborted,
            Some(Ok(b)) => parse_block_spec(lines_view(lines@), word_width as nat)
                == BlockParse::Parsed {
                start: b.start_line as nat,
                end: b.end_line as nat,
                state: b.state(),
            } && b.bytes@.len() <= isize::MAX && b.start_line < b.end_line <= lines@.len(),
            Some(Err(m)) => parse_block_spec(lines_view(lines@), word_width as nat)
                == BlockParse::Failed(m@),
        },
{
    let ghost lv = lines_view(lines@);
    let start = match find_block_start(lines) {
        None => {
            let m = chars_of("no stack-map section");
            return Some(Err(m));
        },
        Some(s) => s,
    };
    let mut bytes: Vec<u8> = Vec::new();
    let mut symbols: Vec<(usize, Vec<char>)> = Vec::new();
    let mut carried: Vec<Vec<char>> = Vec::new();
    let n = lines.len();
    let mut i: usize = start + 1;
    assert(lines_view(carried@) =~= Seq::<Seq<char>>::empty());
    assert(symbols_view(symbols@) =~= Seq::<(nat, Seq<char>)>::empty());
    while i < lines.len()
        invariant
            start < lines@.len(),
            start + 1 <= i <= lines@.len(),
            word_width <= 8,
            lv == lines_view(lines@),
            parse_block_spec(lv, word_width as nat) == parse_lines(
                lv,
                word_width as nat,
                start as nat,
                i as nat,
                BlockState {
                    bytes: bytes@,
                    symbols: symbols_view(symbols@),
                    carried: lines_view(carried@),
                },
            ),
            bytes@.len() <= isize::MAX,
        decreases lines.len() - i,
    {
        assert(lv[i as int] == lines@[i as int]@);
        match block_step(i, &lines[i], word_width, &mut bytes, &mut symbols, &mut carried) {
            ExecStep::Stop => {
                return Some(Ok(RawBlock { start_line: start, end_line: i, bytes, symbols, carried }));
            },
            ExecStep::Next => {},
            ExecStep::Fail(m) => {
                return Some(Err(m));
            },
            ExecStep::Abort => {
                return None;
            },
        }
        i += 1;
    }
    Some(Ok(RawBlock { start_line: start, end_line: lines.len(), bytes, symbols, carried }))
}

/// Parse the stack-map block of `lines` into the bytes it assembles to.
pub fn parse_block_chars(lines: &Vec<Vec<char>>, word_width: usize) -> (r: Result<
    RawBlock,
    Vec<char>,
>)
    requires
        word_width <= 8,
        !(parse_block_spec(lines_view(lines@), word_width as nat) is Aborted),
    ensures
        match r {
            Ok(b) => parse_block_spec(lines_view(lines@), word_width as nat) == BlockParse::Parsed {
                start: b.start_line as nat,
                end: b.end_line as nat,
                state: b.state(),
            } && b.bytes@.len() <= isize::MAX && b.start_line < b.end_line <= lines@.len(),
            Err(m) => parse_block_spec(lines_view(lines@), word_width as nat) == BlockParse::Failed(
                m@,
            ),
        },
{
    match parse_block_steps(lines, word_width) {
        Some(r) => r,
        None => Err(Vec::new()),
    }
}

/// Parse the stack-map block of the assembly `lines`.
///
/// Fails with a message naming the line when an alignment or fill operand
/// does not parse, or when a directive whose byte width is unknown appears:
/// guessing its width would shift every offset after it.
pub fn parse_block(lines: &[&str], word_width: usize) -> (r: Result<RawBlock, String>)
    requires
        word_width <= 8,
        !(parse_block_spec(
            Seq::new(lines@.len(), |i: int| lines@[i]@),
            word_width as nat,
        ) is Aborted),
    ensures
        match r {
            Ok(b) => parse_block_spec(Seq::new(lines@.len(), |i: int| lines@[i]@), word_width as nat)
                == BlockParse::Parsed {
                start: b.start_line as nat,
                end: b.end_line as nat,
                state: b.state(),
            },
            Err(m) => parse_block_spec(
                Seq::new(lines@.len(), |i: int| lines@[i]@),
                word_width as nat,
            ) == BlockParse::Failed(m@),
        },
{
    let mut v: Vec<Vec<char>> = Vec::new();
    let mut i: usize = 0;
    while i < lines.len()
        invariant
            i <= lines@.len(),
            v@.len() == i,
            forall|k: int| 0 <= k < i ==> #[trigger] v@[k]@ == lines@[k]@,
        decreases lines.len() - i,
    {
        v.push(chars_of(lines[i]));
        i += 1;
    }
    assert(lines_view(v@) =~= Seq::new(lines@.len(), |i: int| lines@[i]@));
    match parse_block_chars(&v, word_width) {
        Ok(b) => Ok(b),
        Err(m) => Err(string_of(&m)),
    }
}

/// [`parse_block`] for any input: `None` exactly where the block would
/// outgrow what a `Vec` can hold.
pub fn parse_block_checked(lines: &[&str], word_width: usize) -> (r: Option<Result<RawBlock, String>>)
    requires
        word_width <= 8,
    ensures
        r is None <==> parse_block_spec(
            Seq::new(lines@.len(), |i: int| lines@[i]@),
            word_width as nat,
        ) is Aborted,
        match r {
            Some(Ok(b)) => parse_block_spec(Seq::new(lines@.len(), |i: int| lines@[i]@), word_width as nat)
                == BlockParse::Parsed {
                start: b.start_line as nat,
                end: b.end_line as nat,
                state: b.state(),
            },
            Some(Err(m)) => parse_block_spec(
                Seq::new(lines@.len(), |i: int| lines@[i]@),
                word_width as nat,
            ) == BlockParse::Failed(m@),
            None => true,
        },
{
    let mut v: Vec<Vec<char>> = Vec::new();
    let mut i: usize = 0;
    while i < lines.len()
        invariant
            i <= lines@.len(),
            v@.len() == i,
            forall|k: int| 0 <= k < i ==> #[trigger] v@[k]@ == lines@[k]@,
        decreases lines.len() - i,
    {
        v.push(chars_of(lines[i]));
        i += 1;
    }
    assert(lines_view(v@) =~= Seq::new(lines@.len(), |i: int| lines@[i]@));
    match parse_block_steps(&v, word_width) {
        None => None,
        Some(Ok(b)) => Some(Ok(b)),
        Some(Err(m)) => Some(Err(string_of(&m))),
    }
}

/// Symbol references are recorded at strictly increasing byte offsets, each
/// inside the bytes assembled so far.
pub open spec fn symbol_offsets_ordered(st: BlockState) -> bool {
    &&& forall|i: int, j: int|
        0 <= i < j < st.symbols.len() ==> #[trigger] st.symbols[i].0 < #[trigger] st.symbols[j].0
    &&& forall|i: int| 0 <= i < st.symbols.len() ==> #[trigger] st.symbols[i].0 < st.bytes.len()
}

proof fn lemma_line_step_ordered(index: nat, raw: Seq<char>, ww: nat, st: BlockState)
    requires
        ww >= 1,
        symbol_offsets_ordered(st),
    ensures
        line_step(index, raw, ww, st) matches LineStep::Next(n) ==> symbol_offsets_ordered(n),
{
    let line = clean_line(raw);
    let directive = before_ws(line);
    let operand = operand_of(line);
    if let LineStep::Next(n) = line_step(index, raw, ww, st) {
        if let Some(width) = directive_width_spec(directive, ww) {
            if !is_terminator(line) && !is_skipped(line) && !is_symbol_assignment_spec(line)
                && !(directive == ".p2align"@ || directive == ".align"@ || directive == ".balign"@)
                && !(directive == ".zero"@ || directive == ".space"@ || directive == ".skip"@) {
                assert(width >= 1);
                lemma_le_bytes_len(parse_int_spec(operand).unwrap_or(0) as nat, width);
                assert(n.bytes.len() == st.bytes.len() + width);
            }
        }
        assert(n.bytes.len() >= st.bytes.len());
    }
}

proof fn lemma_parse_lines_ordered(lines: Seq<Seq<char>>, ww: nat, start: nat, i: nat, st: BlockState)
    requires
        ww >= 1,
        symbol_offsets_ordered(st),
    ensures
        parse_lines(lines, ww, start, i, st) matches BlockParse::Parsed { state, .. }
            ==> symbol_offsets_ordered(state),
    decreases lines.len() - i,
{
    if i < lines.len() {
        lemma_line_step_ordered(i, lines[i as int], ww, st);
        if let LineStep::Next(n) = line_step(i, lines[i as int], ww, st) {
            lemma_parse_lines_ordered(lines, ww, start, i + 1, n);
        }
    }
}

/// No two symbol references of a parsed block share a byte offset (so the
/// list is a map from offset to symbol), and each lies inside the block's
/// bytes.
pub proof fn lemma_block_symbols_are_a_map(lines: Seq<Seq<char>>, word_width: nat)
    requires
        word_width >= 1,
    ensures
        parse_block_spec(lines, word_width) matches BlockParse::Parsed { state, .. }
            ==> symbol_offsets_ordered(state),
{
    if let Some(s) = find_block_start_spec(lines) {
        lemma_parse_lines_ordered(lines, word_width, s as nat, (s + 1) as nat, empty_state());
    }
}

} // verus!
