//! What the rewritten assembly keeps of the old map: after the compact map,
//! nothing names LLVM's `__LLVM_StackMaps` label any more.
use vstd::prelude::*;
use crate::gc_map::block::{
    carry_if_foreign_spec, line_step, parse_block_spec, parse_lines, BlockParse, BlockState,
    LineStep,
};
use crate::gc_map::{carried_line, carried_text, suffix_text};
use crate::text::{contains, occurs_at};

verus! {

pub open spec fn old_label() -> Seq<char> {
    "__LLVM_StackMaps"@
}

pub open spec fn all_foreign(c: Seq<Seq<char>>) -> bool {
    forall|k: int| 0 <= k < c.len() ==> !contains(#[trigger] c[k], old_label())
}

proof fn lemma_label_chars()
    ensures
        old_label().len() == 16,
        old_label()[0] == '_',
        forall|k: int| 0 <= k < old_label().len() ==> #[trigger] old_label()[k] != '\n',
{
    reveal_strlit("__LLVM_StackMaps");
}

/// An occurrence of a newline-free pattern in `a + b`, where `a` is empty or
/// ends a line, lies in `a` or in `b`.
proof fn lemma_contains_split(a: Seq<char>, b: Seq<char>, p: Seq<char>)
    requires
        a.len() == 0 || a.last() == '\n',
        p.len() > 0,
        forall|k: int| 0 <= k < p.len() ==> #[trigger] p[k] != '\n',
        contains(a + b, p),
    ensures
        contains(a, p) || contains(b, p),
{
    let s = a + b;
    let i = choose|i: int| occurs_at(s, p, i);
    if i + p.len() <= a.len() {
        assert(a.subrange(i, i + p.len()) =~= s.subrange(i, i + p.len()));
        assert(occurs_at(a, p, i));
    } else if i >= a.len() {
        assert(b.subrange(i - a.len(), i - a.len() + p.len()) =~= s.subrange(i, i + p.len()));
        assert(occurs_at(b, p, i - a.len()));
    } else {
        let k = a.len() - 1 - i;
        assert(s.subrange(i, i + p.len())[k] == s[a.len() - 1]);
        assert(p[k] == '\n');
    }
}

/// A pattern that does not start with a tab and occurs in `"\t" + l` occurs
/// in `l`; one without a newline that occurs in `l + "\n"` occurs in `l`.
proof fn lemma_contains_trim_edges(l: Seq<char>, p: Seq<char>)
    requires
        p.len() > 0,
        p[0] != '\t',
        forall|k: int| 0 <= k < p.len() ==> #[trigger] p[k] != '\n',
    ensures
        contains(seq!['\t'] + l, p) ==> contains(l, p),
        contains(l + seq!['\n'], p) ==> contains(l, p),
{
    if contains(seq!['\t'] + l, p) {
        let s = seq!['\t'] + l;
        let i = choose|i: int| occurs_at(s, p, i);
        if i == 0 {
            assert(s.subrange(0, p.len() as int)[0] == '\t');
        } else {
            assert(l.subrange(i - 1, i - 1 + p.len()) =~= s.subrange(i, i + p.len()));
            assert(occurs_at(l, p, i - 1));
        }
    }
    if contains(l + seq!['\n'], p) {
        let s = l + seq!['\n'];
        let i = choose|i: int| occurs_at(s, p, i);
        if i + p.len() <= l.len() {
            assert(l.subrange(i, i + p.len()) =~= s.subrange(i, i + p.len()));
            assert(occurs_at(l, p, i));
        } else {
            let k = p.len() - 1;
            assert(s.subrange(i, i + p.len())[k] == s[l.len() as int]);
        }
    }
}

proof fn lemma_line_step_keeps_foreign(index: nat, raw: Seq<char>, ww: nat, st: BlockState)
    requires
        all_foreign(st.carried),
    ensures
        line_step(index, raw, ww, st) matches LineStep::Next(n) ==> all_foreign(n.carried),
{
    if let LineStep::Next(n) = line_step(index, raw, ww, st) {
        assert forall|k: int| 0 <= k < n.carried.len() implies !contains(
            #[trigger] n.carried[k],
            old_label(),
        ) by {
            if n.carried != st.carried {
                assert(k < st.carried.len() || !contains(n.carried[k], old_label()));
                if k < st.carried.len() {
                    assert(n.carried[k] == st.carried[k]);
                }
            }
        }
    }
}

proof fn lemma_parse_lines_foreign(lines: Seq<Seq<char>>, ww: nat, start: nat, i: nat, st: BlockState)
    requires
        all_foreign(st.carried),
    ensures
        parse_lines(lines, ww, start, i, st) matches BlockParse::Parsed { state, .. } ==> all_foreign(
            state.carried,
        ),
    decreases lines.len() - i,
{
    if i < lines.len() {
        lemma_line_step_keeps_foreign(i, lines[i as int], ww, st);
        if let LineStep::Next(n) = line_step(i, lines[i as int], ww, st) {
            lemma_parse_lines_foreign(lines, ww, start, i + 1, n);
        }
    }
}

proof fn lemma_carried_text_clean(c: Seq<Seq<char>>)
    requires
        all_foreign(c),
    ensures
        !contains(carried_text(c), old_label()),
        carried_text(c).len() == 0 || carried_text(c).last() == '\n',
    decreases c.len(),
{
    lemma_label_chars();
    if c.len() > 0 {
        let rest = c.drop_last();
        assert(all_foreign(rest)) by {
            assert forall|k: int| 0 <= k < rest.len() implies !contains(
                #[trigger] rest[k],
                old_label(),
            ) by {
                assert(rest[k] == c[k]);
            }
        }
        lemma_carried_text_clean(rest);
        let l = c.last();
        assert(!contains(l, old_label())) by {
            assert(l == c[c.len() - 1]);
        }
        reveal_strlit("\t");
        reveal_strlit("\n");
        let body = if crate::gc_map::directives::is_symbol_assignment_spec(l) {
            l
        } else {
            seq!['\t'] + l
        };
        assert(carried_line(l) =~= body + seq!['\n']);
        lemma_contains_trim_edges(l, old_label());
        lemma_contains_trim_edges(body, old_label());
        if contains(carried_text(c), old_label()) {
            lemma_contains_split(carried_text(rest), carried_line(l), old_label());
        }
    }
}

proof fn lemma_suffix_text_clean(ls: Seq<Seq<char>>, from: nat)
    ensures
        !contains(suffix_text(ls, from), old_label()),
        suffix_text(ls, from).len() == 0 || suffix_text(ls, from).last() == '\n',
    decreases ls.len() - from,
{
    lemma_label_chars();
    if from < ls.len() {
        lemma_suffix_text_clean(ls, from + 1);
        let l = ls[from as int];
        let rest = suffix_text(ls, from + 1);
        if !contains(l, old_label()) {
            reveal_strlit("\n");
            assert(l + "\n"@ =~= l + seq!['\n']);
            lemma_contains_trim_edges(l, old_label());
            if contains(suffix_text(ls, from), old_label()) {
                lemma_contains_split(l + seq!['\n'], rest, old_label());
            }
            assert((l + seq!['\n'] + rest).len() > 0);
            if rest.len() > 0 {
                assert((l + seq!['\n'] + rest).last() == rest.last());
            } else {
                assert(l + seq!['\n'] + rest =~= l + seq!['\n']);
            }
        } else {
            assert(suffix_text(ls, from) =~= rest);
        }
    }
}

/// After the compact map, the rewrite re-emits the zero-width lines the block
/// carried and the lines after the block. None of that text names the old
/// map's label: the block's own lines about it are dropped, and so is any
/// later line that still mentions it. So an assembler sees the label nowhere
/// after the new map.
pub proof fn lemma_old_label_gone_after_the_map(lines: Seq<Seq<char>>, word_width: nat)
    ensures
        parse_block_spec(lines, word_width) matches BlockParse::Parsed { end, state, .. } ==> !contains(
            carried_text(state.carried) + suffix_text(lines, end),
            old_label(),
        ),
{
    if let BlockParse::Parsed { start, end, state } = parse_block_spec(lines, word_width) {
        let s = crate::gc_map::directives::find_block_start_spec(lines);
        let empty = crate::gc_map::block::empty_state();
        assert(all_foreign(empty.carried));
        lemma_parse_lines_foreign(lines, word_width, s.unwrap() as nat, (s.unwrap() + 1) as nat, empty);
        lemma_carried_text_clean(state.carried);
        lemma_suffix_text_clean(lines, end);
        lemma_label_chars();
        if contains(carried_text(state.carried) + suffix_text(lines, end), old_label()) {
            lemma_contains_split(carried_text(state.carried), suffix_text(lines, end), old_label());
        }
    }
}

} // verus!
