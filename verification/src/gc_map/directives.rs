//! What each assembler directive inside the stack-map block contributes.
use vstd::prelude::*;
use crate::numtext::{parse_unsigned, parse_unsigned_exec};
use crate::text::{
    before_first, before_first_exec, chars_of, contains, contains_lit, ends_with, ends_with_lit,
    find, find_exec, lemma_find_from, slice_chars, starts_with, starts_with_lit, trim, trim_exec,
    trim_start, trim_start_exec, utf8_len, utf8_len_exec, ws_index, ws_index_exec, is_lit,
};

verus! {

/// What `char::is_alphanumeric` answers for `c` (Unicode `Alphabetic` or
/// `Numeric`).
pub uninterp spec fn char_is_alphanumeric(c: char) -> bool;

/// `char::is_alphanumeric`. Its answer is named, not restated: it is the
/// Unicode `Alphabetic`/`Numeric` table lookup and depends on `c` alone.
#[verifier::external_body]
fn is_alphanumeric(c: char) -> (r: bool)
    ensures
        r == char_is_alphanumeric(c),
{
    c.is_alphanumeric()
}

/// The architecture field of a target triple: everything before the first `-`.
pub open spec fn arch_of(target: Seq<char>) -> Seq<char> {
    before_first(target, seq!['-'])
}

/// `x86_64`, `x86_64h` and the whole `i?86` family.
pub open spec fn is_x86_arch(arch: Seq<char>) -> bool {
    ||| starts_with(arch, "x86_64"@)
    ||| (utf8_len(arch) == 4 && starts_with(arch, "i"@) && ends_with(arch, "86"@))
}

/// How wide `.word` is for a target: 2 bytes on x86, 4 everywhere else.
pub open spec fn word_width_spec(target: Seq<char>) -> nat {
    if is_x86_arch(arch_of(target)) {
        2
    } else {
        4
    }
}

proof fn lemma_utf8_len_ge(s: Seq<char>)
    ensures
        utf8_len(s) >= s.len(),
    decreases s.len(),
{
    if s.len() > 0 {
        lemma_utf8_len_ge(s.drop_last());
    }
}

/// How wide `.word` is for the target being assembled.
///
/// GNU `as` defines `.word` as the target's natural machine word: 2 bytes on
/// x86 and 4 bytes on AArch64, ARM, PowerPC, MIPS, SPARC and RISC-V. Getting
/// it wrong is not a parse error but a wrong answer: two bytes of drift per
/// field relocates every root that follows.
pub fn word_width_for(target: &str) -> (r: usize)
    ensures
        r == word_width_spec(target@),
{
    let t = chars_of(target);
    let dash = vec!['-'];
    assert(dash@ =~= seq!['-']);
    let arch = before_first_exec(&t, &dash);
    if starts_with_lit(&arch, "x86_64") {
        return 2;
    }
    if arch.len() > 4 {
        proof {
            lemma_utf8_len_ge(arch@);
        }
        return 4;
    }
    let n = utf8_len_exec(&arch);
    if n == 4 && starts_with_lit(&arch, "i") && ends_with_lit(&arch, "86") {
        2
    } else {
        4
    }
}

/// Byte width of each fixed-width data directive LLVM may emit in the block.
pub open spec fn directive_width_spec(d: Seq<char>, word_width: nat) -> Option<nat> {
    if d == ".byte"@ || d == ".1byte"@ || d == ".dc.b"@ {
        Some(1)
    } else if d == ".short"@ || d == ".2byte"@ || d == ".value"@ || d == ".hword"@ || d
        == ".dc.w"@ {
        Some(2)
    } else if d == ".long"@ || d == ".4byte"@ || d == ".dc.l"@ {
        Some(4)
    } else if d == ".quad"@ || d == ".8byte"@ || d == ".xword"@ || d == ".dc.a"@ {
        Some(8)
    } else if d == ".word"@ {
        Some(word_width)
    } else {
        None
    }
}

/// Byte width contributed by each data directive LLVM emits in the block.
///
/// Every spelling any LLVM `MCAsmInfo` can choose for a fixed-width integer is
/// listed, not just the ones the host happens to emit.
pub fn directive_width(directive: &Vec<char>, word_width: usize) -> (r: Option<usize>)
    ensures
        match r {
            Some(w) => directive_width_spec(directive@, word_width as nat) == Some(w as nat),
            None => directive_width_spec(directive@, word_width as nat) is None,
        },
{
    let d = directive;
    if is_lit(d, ".byte") || is_lit(d, ".1byte") || is_lit(d, ".dc.b") {
        Some(1)
    } else if is_lit(d, ".short") || is_lit(d, ".2byte") || is_lit(d, ".value") || is_lit(
        d,
        ".hword",
    ) || is_lit(d, ".dc.w") {
        Some(2)
    } else if is_lit(d, ".long") || is_lit(d, ".4byte") || is_lit(d, ".dc.l") {
        Some(4)
    } else if is_lit(d, ".quad") || is_lit(d, ".8byte") || is_lit(d, ".xword") || is_lit(
        d,
        ".dc.a",
    ) {
        Some(8)
    } else if is_lit(d, ".word") {
        Some(word_width)
    } else {
        None
    }
}

/// Directives that legitimately appear inside the stack-map block and
/// contribute zero bytes to it.
pub open spec fn is_zero_width_spec(d: Seq<char>) -> bool {
    ||| d == ".globl"@
    ||| d == ".global"@
    ||| d == ".local"@
    ||| d == ".weak"@
    ||| d == ".hidden"@
    ||| d == ".protected"@
    ||| d == ".internal"@
    ||| d == ".type"@
    ||| d == ".size"@
    ||| d == ".set"@
    ||| d == ".equ"@
    ||| d == ".file"@
    ||| d == ".ident"@
    ||| d == ".loc"@
    ||| d == ".no_dead_strip"@
    ||| d == ".private_extern"@
    ||| d == ".addrsig"@
    ||| d == ".addrsig_sym"@
    ||| d == ".end"@
    ||| starts_with(d, ".cfi_"@)
}

/// Whether `directive` is known to emit zero bytes.
///
/// Anything that is neither here nor in `directive_width` is refused by the
/// parser, because skipping a directive that does emit bytes would shift
/// every structural offset after it.
pub fn is_zero_width_directive(directive: &Vec<char>) -> (r: bool)
    ensures
        r == is_zero_width_spec(directive@),
{
    let d = directive;
    is_lit(d, ".globl") || is_lit(d, ".global") || is_lit(d, ".local") || is_lit(d, ".weak")
        || is_lit(d, ".hidden") || is_lit(d, ".protected") || is_lit(d, ".internal") || is_lit(
        d,
        ".type",
    ) || is_lit(d, ".size") || is_lit(d, ".set") || is_lit(d, ".equ") || is_lit(d, ".file")
        || is_lit(d, ".ident") || is_lit(d, ".loc") || is_lit(d, ".no_dead_strip") || is_lit(
        d,
        ".private_extern",
    ) || is_lit(d, ".addrsig") || is_lit(d, ".addrsig_sym") || is_lit(d, ".end")
        || starts_with_lit(d, ".cfi_")
}

/// A symbol character, given whether `c` is alphanumeric.
pub open spec fn symbol_char_given(c: char, alphanumeric: bool) -> bool {
    alphanumeric || c == '_' || c == '$' || c == '.'
}

/// A character GNU `as` accepts in a bare symbol name.
pub open spec fn is_symbol_char(c: char) -> bool {
    symbol_char_given(c, char_is_alphanumeric(c))
}

/// Whether `c` may stand in a bare symbol name, given what
/// `char::is_alphanumeric` answered for it: alphanumerics, `_`, `$` and `.`.
pub fn is_symbol_char_given(c: char, alphanumeric: bool) -> (r: bool)
    ensures
        r == symbol_char_given(c, alphanumeric),
{
    alphanumeric || c == '_' || c == '$' || c == '.'
}

/// `sym = expr`: a GNU-as symbol assignment (the bare form of `.set`).
///
/// The left side of the first `=` must not end in an expression operator
/// (`==`, `>=`, `<=`, `!=`), and once trimmed must be a single non-empty token
/// made of symbol characters that is not itself a modelled directive.
pub open spec fn is_symbol_assignment_spec(line: Seq<char>) -> bool {
    match find(line, seq!['=']) {
        None => false,
        Some(i) => {
            let lhs = line.take(i);
            if lhs.len() > 0 && (lhs.last() == '=' || lhs.last() == '>' || lhs.last() == '<'
                || lhs.last() == '!') {
                false
            } else {
                let name = trim(lhs);
                &&& name.len() > 0
                &&& ws_index(name) is None
                &&& directive_width_spec(name, 8) is None
                &&& !is_zero_width_spec(name)
                &&& forall|k: int| 0 <= k < name.len() ==> is_symbol_char(#[trigger] name[k])
            }
        },
    }
}

#[verifier::loop_isolation(false)]
pub fn is_symbol_assignment_chars(line: &Vec<char>) -> (r: bool)
    ensures
        r == is_symbol_assignment_spec(line@),
{
    let eq = vec!['='];
    assert(eq@ =~= seq!['=']);
    let i = match find_exec(line, &eq) {
        None => return false,
        Some(i) => i,
    };
    proof {
        lemma_find_from(line@, seq!['='], 0);
    }
    let lhs = slice_chars(line, 0, i);
    assert(lhs@ =~= line@.take(i as int));
    if lhs.len() > 0 {
        let last = lhs[lhs.len() - 1];
        if last == '=' || last == '>' || last == '<' || last == '!' {
            return false;
        }
    }
    let name = trim_exec(&lhs);
    if name.len() == 0 {
        return false;
    }
    if ws_index_exec(&name).is_some() {
        return false;
    }
    if directive_width(&name, 8).is_some() {
        return false;
    }
    if is_zero_width_directive(&name) {
        return false;
    }
    let mut k: usize = 0;
    while k < name.len()
        invariant
            k <= name.len(),
            forall|j: int| 0 <= j < k ==> is_symbol_char(#[trigger] name@[j]),
        decreases name.len() - k,
    {
        let c = name[k];
        let alphanumeric = is_alphanumeric(c);
        if !is_symbol_char_given(c, alphanumeric) {
            assert(!is_symbol_char(name@[k as int]));
            return false;
        }
        k += 1;
    }
    true
}

/// Is this line a GNU-as symbol assignment (`sym = expr`) rather than a
/// directive? Both spellings of an assignment emit zero bytes.
pub fn is_symbol_assignment(line: &str) -> (r: bool)
    ensures
        r == is_symbol_assignment_spec(line@),
{
    let l = chars_of(line);
    is_symbol_assignment_chars(&l)
}

/// The line opens LLVM's stack-map section (Mach-O or ELF spelling).
pub open spec fn is_block_start(line: Seq<char>) -> bool {
    let t = trim_start(line);
    starts_with(t, ".section"@) && (contains(t, "__LLVM_STACKMAPS"@) || contains(
        t,
        ".llvm_stackmaps"@,
    ))
}

pub open spec fn find_block_start_from(lines: Seq<Seq<char>>, i: int) -> Option<int>
    decreases lines.len() - i,
{
    if i < 0 || i >= lines.len() {
        None
    } else if is_block_start(lines[i]) {
        Some(i)
    } else {
        find_block_start_from(lines, i + 1)
    }
}

/// Index of the first line that opens the stack-map section.
pub open spec fn find_block_start_spec(lines: Seq<Seq<char>>) -> Option<int> {
    find_block_start_from(lines, 0)
}

pub proof fn lemma_find_block_start_from(lines: Seq<Seq<char>>, i: int)
    requires
        0 <= i,
    ensures
        find_block_start_from(lines, i) matches Some(k) ==> i <= k < lines.len() && is_block_start(
            lines[k],
        ) && forall|j: int| i <= j < k ==> !is_block_start(#[trigger] lines[j]),
        find_block_start_from(lines, i) is None ==> forall|j: int|
            i <= j < lines.len() ==> !is_block_start(#[trigger] lines[j]),
    decreases lines.len() - i,
{
    if i < lines.len() && !is_block_start(lines[i]) {
        lemma_find_block_start_from(lines, i + 1);
    }
}

pub fn is_block_start_exec(line: &Vec<char>) -> (r: bool)
    ensures
        r == is_block_start(line@),
{
    let t = trim_start_exec(line);
    starts_with_lit(&t, ".section") && (contains_lit(&t, "__LLVM_STACKMAPS") || contains_lit(
        &t,
        ".llvm_stackmaps",
    ))
}

/// The view of a list of lines.
pub open spec fn lines_view(lines: Seq<Vec<char>>) -> Seq<Seq<char>> {
    Seq::new(lines.len(), |i: int| lines[i]@)
}

/// Index of the first line that opens LLVM's stack-map section.
#[verifier::loop_isolation(false)]
pub fn find_block_start(lines: &Vec<Vec<char>>) -> (r: Option<usize>)
    ensures
        match r {
            Some(i) => find_block_start_spec(lines_view(lines@)) == Some(i as int) && i
                < lines@.len(),
            None => find_block_start_spec(lines_view(lines@)) is None,
        },
{
    let ghost lv = lines_view(lines@);
    proof {
        lemma_find_block_start_from(lv, 0);
    }
    let mut i: usize = 0;
    while i < lines.len()
        invariant
            i <= lines@.len(),
            lv == lines_view(lines@),
            forall|j: int| 0 <= j < i ==> !is_block_start(#[trigger] lv[j]),
        decreases lines.len() - i,
    {
        if is_block_start_exec(&lines[i]) {
            proof {
                assert(lv[i as int] == lines@[i as int]@);
                assert(is_block_start(lv[i as int]));
                if let Some(k) = find_block_start_spec(lv) {
                    if k < i {
                        assert(!is_block_start(lv[k]));
                    }
                } else {
                    assert(!is_block_start(lv[i as int]));
                }
            }
            return Some(i);
        }
        i += 1;
    }
    proof {
        if let Some(k) = find_block_start_spec(lv) {
            assert(!is_block_start(lv[k]));
        }
    }
    None
}

/// `parse_int`: a decimal, `0x`/`0X` hexadecimal, or `-`-prefixed decimal
/// (stored as its two's-complement `u64`) operand; `None` for anything else
/// (a symbolic operand).
pub open spec fn parse_int_spec(text: Seq<char>) -> Option<u64> {
    let t = trim(text);
    if starts_with(t, "0x"@) || starts_with(t, "0X"@) {
        match parse_unsigned(t.skip(2), 16, u64::MAX as nat) {
            Some(v) => Some(v as u64),
            None => None,
        }
    } else if starts_with(t, "-"@) {
        match parse_unsigned(t.skip(1), 10, u64::MAX as nat) {
            Some(v) => Some(((0x1_0000_0000_0000_0000 - v) % 0x1_0000_0000_0000_0000) as u64),
            None => None,
        }
    } else {
        match parse_unsigned(t, 10, u64::MAX as nat) {
            Some(v) => Some(v as u64),
            None => None,
        }
    }
}

pub fn parse_int(text: &Vec<char>) -> (r: Option<u64>)
    ensures
        r == parse_int_spec(text@),
{
    proof {
        reveal_strlit("0x");
        reveal_strlit("0X");
        reveal_strlit("-");
    }
    let t = trim_exec(text);
    if starts_with_lit(&t, "0x") || starts_with_lit(&t, "0X") {
        let rest = slice_chars(&t, 2, t.len());
        assert(rest@ =~= t@.skip(2));
        return parse_unsigned_exec(&rest, 16, u64::MAX);
    }
    if starts_with_lit(&t, "-") {
        let rest = slice_chars(&t, 1, t.len());
        assert(rest@ =~= t@.skip(1));
        return match parse_unsigned_exec(&rest, 10, u64::MAX) {
            Some(v) => Some(if v == 0 {
                0
            } else {
                u64::MAX - v + 1
            }),
            None => None,
        };
    }
    parse_unsigned_exec(&t, 10, u64::MAX)
}

/// Object format of a target triple.
#[derive(Clone, Copy, PartialEq, Eq, Debug, Structural)]
pub enum ObjectFormat {
    MachO,
    Elf,
    Coff,
}

pub open spec fn format_for_spec(target: Seq<char>) -> ObjectFormat {
    if contains(target, "apple"@) || contains(target, "darwin"@) {
        ObjectFormat::MachO
    } else if contains(target, "windows"@) || contains(target, "msvc"@) {
        ObjectFormat::Coff
    } else {
        ObjectFormat::Elf
    }
}

/// Mach-O for Apple targets, COFF for Windows, ELF otherwise.
pub fn format_for(target: &str) -> (r: ObjectFormat)
    ensures
        r == format_for_spec(target@),
{
    let t = chars_of(target);
    if contains_lit(&t, "apple") || contains_lit(&t, "darwin") {
        ObjectFormat::MachO
    } else if contains_lit(&t, "windows") || contains_lit(&t, "msvc") {
        ObjectFormat::Coff
    } else {
        ObjectFormat::Elf
    }
}

/// An argument that selects the target machine (`-mcpu=`, `-march=`, `-mtune=`).
pub open spec fn is_cpu_flag(a: Seq<char>) -> bool {
    starts_with(a, "-mcpu="@) || starts_with(a, "-march="@) || starts_with(a, "-mtune="@)
}

/// The machine-selection arguments of `args`, in order.
pub open spec fn cpu_flags_spec(args: Seq<Seq<char>>) -> Seq<Seq<char>>
    decreases args.len(),
{
    if args.len() == 0 {
        Seq::empty()
    } else if is_cpu_flag(args.last()) {
        cpu_flags_spec(args.drop_last()).push(args.last())
    } else {
        cpu_flags_spec(args.drop_last())
    }
}

/// The subset of the codegen's clang argv that selects the target machine.
///
/// The assembler must be told the same machine the code generator was told,
/// or it rejects instructions the generator legitimately emitted. Optimisation
/// and output flags are excluded.
pub fn cpu_selection_flags(codegen_args: &[String]) -> (r: Vec<&String>)
    ensures
        Seq::new(r@.len(), |i: int| r@[i]@) == cpu_flags_spec(
            Seq::new(codegen_args@.len(), |i: int| codegen_args@[i]@),
        ),
{
    let ghost all = Seq::new(codegen_args@.len(), |i: int| codegen_args@[i]@);
    let mut r: Vec<&String> = Vec::new();
    let mut i: usize = 0;
    while i < codegen_args.len()
        invariant
            i <= codegen_args@.len(),
            all == Seq::new(codegen_args@.len(), |i: int| codegen_args@[i]@),
            Seq::new(r@.len(), |k: int| r@[k]@) == cpu_flags_spec(all.take(i as int)),
        decreases codegen_args.len() - i,
    {
        let a = &codegen_args[i];
        let c = chars_of(a.as_str());
        assert(all.take(i + 1).drop_last() =~= all.take(i as int));
        assert(all.take(i + 1).last() == a@);
        if starts_with_lit(&c, "-mcpu=") || starts_with_lit(&c, "-march=") || starts_with_lit(
            &c,
            "-mtune=",
        ) {
            let ghost before = Seq::new(r@.len(), |k: int| r@[k]@);
            r.push(a);
            assert(Seq::new(r@.len(), |k: int| r@[k]@) =~= before.push(a@));
        }
        i += 1;
    }
    assert(all.take(codegen_args@.len() as int) =~= all);
    r
}

} // verus!
