//! Compile-time resolution of an i18n string-table row into one template per
//! configured locale.
use vstd::prelude::*;
use crate::expr::v8_interop::{assoc_lookup, keys_distinct, names_view};
use crate::text::{
    chars_of, eq_chars, push_chars, push_str, slice_chars, starts_with, starts_with_lit, string_of,
    trim, trim_exec,
};

verus! {

/// The build's i18n tables as the lowering sees them: a flat
/// locale-major table of `key_count` translations per locale.
pub struct I18nLowerCtx {
    /// `translations[locale * key_count + key]`; an empty cell means the
    /// locale file lacks that key.
    pub translations: Vec<String>,
    pub key_count: usize,
    pub default_locale_idx: usize,
    pub locale_codes: Vec<String>,
}

pub open spec fn strings_view(v: Seq<String>) -> Seq<Seq<char>> {
    Seq::new(v.len(), |i: int| v[i]@)
}

/// The template of locale `li` for key `idx`: its translation, or the
/// fallback text when the cell is missing or empty.
pub open spec fn template_cell(
    table: Seq<Seq<char>>,
    key_count: nat,
    li: nat,
    idx: nat,
    fallback: Seq<char>,
) -> Seq<char> {
    let k = (li * key_count + idx) as int;
    if k < table.len() && table[k].len() > 0 {
        table[k]
    } else {
        fallback
    }
}

/// `(templates, default_idx, locale_codes)` for one string-table row.
///
/// With i18n configured (and at least one key), one template per whole
/// locale row of the table; otherwise, or when the table holds no whole row,
/// the fallback text alone. The default index is clamped into the templates.
pub open spec fn resolve_spec(
    i18n: Option<(Seq<Seq<char>>, nat, nat, Seq<Seq<char>>)>,
    fallback: Seq<char>,
    idx: nat,
) -> (Seq<Seq<char>>, nat, Seq<Seq<char>>) {
    let (templates, default_idx, codes) = match i18n {
        Some((table, kc, d, codes)) if kc > 0 => (
            Seq::new(table.len() / kc, |li: int| template_cell(table, kc, li as nat, idx, fallback)),
            d,
            codes,
        ),
        _ => (Seq::empty(), 0nat, Seq::empty()),
    };
    let templates = if templates.len() == 0 {
        seq![fallback]
    } else {
        templates
    };
    let last = (templates.len() - 1) as nat;
    (templates, if default_idx < last { default_idx } else { last }, codes)
}

impl I18nLowerCtx {
    pub open spec fn model(&self) -> (Seq<Seq<char>>, nat, nat, Seq<Seq<char>>) {
        (
            strings_view(self.translations@),
            self.key_count as nat,
            self.default_locale_idx as nat,
            strings_view(self.locale_codes@),
        )
    }
}

pub open spec fn opt_model(i18n: &Option<I18nLowerCtx>) -> Option<
    (Seq<Seq<char>>, nat, nat, Seq<Seq<char>>),
> {
    match i18n {
        Some(t) => Some(t.model()),
        None => None,
    }
}

fn copy_strings(v: &Vec<String>) -> (r: Vec<String>)
    ensures
        strings_view(r@) == strings_view(v@),
{
    let mut r: Vec<String> = Vec::new();
    let mut i: usize = 0;
    while i < v.len()
        invariant
            i <= v@.len(),
            r@.len() == i,
            strings_view(r@) == strings_view(v@).take(i as int),
        decreases v.len() - i,
    {
        let ghost before = r@;
        let s = v[i].clone();
        r.push(s);
        proof {
            assert forall|j: int| 0 <= j < i + 1 implies #[trigger] strings_view(r@)[j] == strings_view(
                v@,
            )[j] by {
                if j < i {
                    assert(strings_view(before)[j] == strings_view(v@).take(i as int)[j]);
                }
            }
        }
        i += 1;
        assert(strings_view(r@) =~= strings_view(v@).take(i as int));
    }
    assert(strings_view(v@).take(i as int) =~= strings_view(v@));
    r
}

/// Resolve every locale's template for one i18n string-table row. An empty
/// translation cell means the locale file is missing this key, so the row
/// falls back to `fallback_text` (for plural-form rows, the base key's text
/// without its `.one`/`.other` suffix, so a registry key never leaks).
///
/// Returns `(templates, default_idx, locale_codes)`; `([fallback], 0, [])`
/// when i18n is not configured for this build.
pub fn resolve_i18n_templates(i18n: &Option<I18nLowerCtx>, fallback_text: &str, string_idx: u32) -> (r: (
    Vec<String>,
    usize,
    Vec<String>,
))
    requires
        match i18n {
            Some(t) => t.translations@.len() + string_idx <= usize::MAX,
            None => true,
        },
    ensures
        ({
            let (t, d, c) = resolve_spec(opt_model(i18n), fallback_text@, string_idx as nat);
            &&& strings_view(r.0@) == t
            &&& r.1 == d
            &&& strings_view(r.2@) == c
        }),
{
    let ghost want = resolve_spec(opt_model(i18n), fallback_text@, string_idx as nat);
    let mut templates: Vec<String> = Vec::new();
    let mut default_idx: usize = 0;
    let mut codes: Vec<String> = Vec::new();
    match i18n {
        Some(t) => {
            if t.key_count > 0 {
                let kc = t.key_count;
                let len = t.translations.len();
                let locale_count = len / kc;
                let idx = string_idx as usize;
                let ghost table = strings_view(t.translations@);
                let ghost fb = fallback_text@;
                let mut li: usize = 0;
                let mut base: usize = 0;
                while li < locale_count
                    invariant
                        kc == t.key_count,
                        kc > 0,
                        len == t.translations@.len(),
                        locale_count == len / kc,
                        idx == string_idx as usize,
                        len + idx <= usize::MAX,
                        table == strings_view(t.translations@),
                        fb == fallback_text@,
                        li <= locale_count,
                        base == li * kc,
                        templates@.len() == li,
                        forall|j: int|
                            0 <= j < li ==> (#[trigger] templates@[j])@ == template_cell(
                                table,
                                kc as nat,
                                j as nat,
                                idx as nat,
                                fb,
                            ),
                    decreases locale_count - li,
                {
                    assert(base + kc <= len) by (nonlinear_arith)
                        requires
                            base == li * kc,
                            li < locale_count,
                            locale_count == len / kc,
                            kc > 0,
                    {
                        assert((li + 1) * kc <= (len / kc) * kc);
                        assert((len / kc) * kc <= len);
                    }
                    let k = base + idx;
                    let cell = if k < len && !t.translations[k].as_str().is_empty() {
                        t.translations[k].clone()
                    } else {
                        fallback_text.to_owned()
                    };
                    templates.push(cell);
                    proof {
                        assert(k == li * kc + idx);
                    }
                    assert(base + kc == (li + 1) * kc) by (nonlinear_arith)
                        requires
                            base == li * kc,
                    ;
                    li += 1;
                    base += kc;
                }
                default_idx = t.default_locale_idx;
                codes = copy_strings(&t.locale_codes);
                proof {
                    assert(strings_view(templates@) =~= Seq::new(
                        (table.len() / (kc as nat)) as nat,
                        |j: int| template_cell(table, kc as nat, j as nat, idx as nat, fb),
                    ));
                }
            }
        },
        None => {},
    }
    if templates.len() == 0 {
        templates.push(fallback_text.to_owned());
    }
    let last = templates.len() - 1;
    if default_idx > last {
        default_idx = last;
    }
    proof {
        assert(strings_view(templates@) =~= want.0);
    }
    (templates, default_idx, codes)
}

/// Every row resolves to at least one template, and the default index always
/// selects one of them, whatever the configured default says.
pub proof fn lemma_templates_nonempty_and_default_in_range(
    i18n: Option<(Seq<Seq<char>>, nat, nat, Seq<Seq<char>>)>,
    fallback: Seq<char>,
    idx: nat,
)
    ensures
        resolve_spec(i18n, fallback, idx).0.len() >= 1,
        resolve_spec(i18n, fallback, idx).1 < resolve_spec(i18n, fallback, idx).0.len(),
{
}

/// With i18n configured, a locale whose cell for this key is present and
/// non-empty gets its translation; any other locale gets the fallback text.
pub proof fn lemma_missing_translation_falls_back(
    table: Seq<Seq<char>>,
    key_count: nat,
    default_idx: nat,
    codes: Seq<Seq<char>>,
    fallback: Seq<char>,
    idx: nat,
    li: nat,
)
    requires
        key_count > 0,
        li < table.len() / key_count,
    ensures
        ({
            let k = (li * key_count + idx) as int;
            let t = resolve_spec(Some((table, key_count, default_idx, codes)), fallback, idx).0;
            &&& k < table.len() && table[k].len() > 0 ==> t[li as int] == table[k]
            &&& !(k < table.len() && table[k].len() > 0) ==> t[li as int] == fallback
        }),
{
}

/// One piece of an i18n template: literal text, or the name of a parameter
/// whose value is spliced in.
#[derive(Debug, Clone, PartialEq, Eq)]
pub enum TemplatePart {
    Lit(String),
    Param(String),
}

pub enum PartModel {
    Lit(Seq<char>),
    Param(Seq<char>),
}

impl TemplatePart {
    pub open spec fn model(&self) -> PartModel {
        match self {
            TemplatePart::Lit(s) => PartModel::Lit(s@),
            TemplatePart::Param(s) => PartModel::Param(s@),
        }
    }
}

pub open spec fn parts_model(v: Seq<TemplatePart>) -> Seq<PartModel> {
    Seq::new(v.len(), |i: int| v[i].model())
}

/// Position of the first `}` at or after `from`.
pub open spec fn find_close(t: Seq<char>, from: nat) -> Option<nat>
    decreases t.len() - from,
{
    if from >= t.len() {
        None
    } else if t[from as int] == '}' {
        Some(from)
    } else {
        find_close(t, from + 1)
    }
}

/// The pending literal, as a part list of zero or one literal.
pub open spec fn flush(buf: Seq<char>) -> Seq<PartModel> {
    if buf.len() > 0 {
        seq![PartModel::Lit(buf)]
    } else {
        Seq::empty()
    }
}

/// The parts of `t` from position `i`, with literal text `buf` pending.
///
/// `{{` and `}}` are a literal brace; `{name}` is a parameter whose name is
/// trimmed; a `{` with no `}` after it is literal text.
pub open spec fn plan_from(t: Seq<char>, i: nat, buf: Seq<char>) -> Seq<PartModel>
    decreases t.len() - i,
{
    if i >= t.len() {
        flush(buf)
    } else if t[i as int] == '{' {
        if i + 1 < t.len() && t[i + 1 as int] == '{' {
            plan_from(t, i + 2, buf.push('{'))
        } else {
            match find_close(t, i + 1) {
                Some(close) => if i < close && close < t.len() {
                    flush(buf) + seq![PartModel::Param(trim(t.subrange(i + 1 as int, close as int)))]
                        + plan_from(t, close + 1, Seq::empty())
                } else {
                    Seq::empty()
                },
                None => plan_from(t, i + 1, buf.push('{')),
            }
        }
    } else if t[i as int] == '}' && i + 1 < t.len() && t[i + 1 as int] == '}' {
        plan_from(t, i + 2, buf.push('}'))
    } else {
        plan_from(t, i + 1, buf.push(t[i as int]))
    }
}

pub open spec fn plan_spec(t: Seq<char>) -> Seq<PartModel> {
    plan_from(t, 0, Seq::empty())
}

proof fn lemma_find_close(t: Seq<char>, from: nat)
    ensures
        find_close(t, from) matches Some(c) ==> from <= c < t.len() && t[c as int] == '}'
            && forall|k: int| from <= k < c ==> t[k] != '}',
        find_close(t, from) is None ==> forall|k: int| from <= k < t.len() ==> t[k] != '}',
    decreases t.len() - from,
{
    if from < t.len() && t[from as int] != '}' {
        lemma_find_close(t, from + 1);
    }
}

fn find_close_exec(t: &Vec<char>, from: usize) -> (r: Option<usize>)
    ensures
        match r {
            Some(c) => find_close(t@, from as nat) == Some(c as nat),
            None => find_close(t@, from as nat) is None,
        },
{
    proof {
        lemma_find_close(t@, from as nat);
    }
    let mut k: usize = from;
    while k < t.len()
        invariant
            from <= k,
            find_close(t@, from as nat) == find_close(t@, k as nat),
        decreases t.len() - k,
    {
        if t[k] == '}' {
            return Some(k);
        }
        k += 1;
    }
    None
}

/// Split an i18n template into literal and parameter parts, in order.
///
/// `{{` and `}}` stand for literal braces; `{name}` names a parameter (its
/// name trimmed); an unterminated `{` is literal text. Adjacent literal text
/// forms one part, and empty literals are never emitted.
pub fn i18n_template_plan(template: &str) -> (r: Vec<TemplatePart>)
    ensures
        parts_model(r@) == plan_spec(template@),
{
    let t = chars_of(template);
    let n = t.len();
    let mut plan: Vec<TemplatePart> = Vec::new();
    let mut buf: Vec<char> = Vec::new();
    let mut i: usize = 0;
    while i < n
        invariant
            n == t@.len(),
            t@ == template@,
            i <= n + 1,
            parts_model(plan@) + plan_from(t@, i as nat, buf@) == plan_spec(t@),
        decreases n + 1 - i,
    {
        let ghost before = parts_model(plan@);
        let c = t[i];
        if c == '{' {
            if i + 1 < n && t[i + 1] == '{' {
                buf.push('{');
                i += 2;
            } else {
                match find_close_exec(&t, i + 1) {
                    Some(close) => {
                        proof {
                            lemma_find_close(t@, (i + 1) as nat);
                        }
                        let ghost bufv = buf@;
                        if buf.len() > 0 {
                            let lit = string_of(&buf);
                            plan.push(TemplatePart::Lit(lit));
                        }
                        let inner = slice_chars(&t, i + 1, close);
                        let name = trim_exec(&inner);
                        plan.push(TemplatePart::Param(string_of(&name)));
                        buf = Vec::new();
                        proof {
                            assert(parts_model(plan@) =~= before + flush(bufv) + seq![
                                PartModel::Param(trim(t@.subrange(i + 1, close as int))),
                            ]);
                        }
                        i = close + 1;
                    },
                    None => {
                        buf.push('{');
                        i += 1;
                    },
                }
            }
        } else if c == '}' && i + 1 < n && t[i + 1] == '}' {
            buf.push('}');
            i += 2;
        } else {
            buf.push(c);
            i += 1;
        }
    }
    proof {
        assert(plan_from(t@, i as nat, buf@) == flush(buf@));
    }
    let ghost bufv = buf@;
    if buf.len() > 0 {
        plan.push(TemplatePart::Lit(string_of(&buf)));
    }
    assert(parts_model(plan@) =~= plan_spec(t@));
    plan
}

/// The literal text shown in place of a parameter the call site did not
/// supply, so the mistake is visible: `{name}`.
pub fn missing_param_text(name: &str) -> (r: String)
    ensures
        r@ == seq!['{'] + name@ + seq!['}'],
{
    let mut out: Vec<char> = Vec::new();
    out.push('{');
    push_chars(&mut out, &chars_of(name));
    out.push('}');
    string_of(&out)
}

/// What a resolved dynamic-import or `require` target prefix names.
#[derive(Debug, Clone, PartialEq, Eq)]
pub enum NamespaceTarget {
    /// A native submodule (`__node_submod__<key>`): its key.
    NodeSubmodule(String),
    /// A native builtin (`__native_mod__<name>`): its name.
    NativeModule(String),
    /// A compiled module: the init function to run (idempotent for eager
    /// targets, populating for deferred ones) and the global holding its
    /// namespace.
    Compiled { init_fn: String, namespace_global: String },
}

pub enum TargetModel {
    NodeSubmodule(Seq<char>),
    NativeModule(Seq<char>),
    Compiled { init_fn: Seq<char>, namespace_global: Seq<char> },
}

impl NamespaceTarget {
    pub open spec fn model(&self) -> TargetModel {
        match self {
            NamespaceTarget::NodeSubmodule(k) => TargetModel::NodeSubmodule(k@),
            NamespaceTarget::NativeModule(n) => TargetModel::NativeModule(n@),
            NamespaceTarget::Compiled { init_fn, namespace_global } => TargetModel::Compiled {
                init_fn: init_fn@,
                namespace_global: namespace_global@,
            },
        }
    }
}

pub open spec fn namespace_target_spec(prefix: Seq<char>) -> TargetModel {
    if starts_with(prefix, "__node_submod__"@) {
        TargetModel::NodeSubmodule(prefix.skip("__node_submod__"@.len() as int))
    } else if starts_with(prefix, "__native_mod__"@) {
        TargetModel::NativeModule(prefix.skip("__native_mod__"@.len() as int))
    } else {
        TargetModel::Compiled {
            init_fn: prefix + "__init"@,
            namespace_global: "@__perry_ns_"@ + prefix,
        }
    }
}

/// Classify a target prefix the way the namespace lowering dispatches on it.
pub fn namespace_target_for_prefix(prefix: &str) -> (r: NamespaceTarget)
    ensures
        r.model() == namespace_target_spec(prefix@),
{
    let p = chars_of(prefix);
    let submod = chars_of("__node_submod__");
    let native = chars_of("__native_mod__");
    if starts_with_lit(&p, "__node_submod__") {
        let key = slice_chars(&p, submod.len(), p.len());
        NamespaceTarget::NodeSubmodule(string_of(&key))
    } else if starts_with_lit(&p, "__native_mod__") {
        let name = slice_chars(&p, native.len(), p.len());
        NamespaceTarget::NativeModule(string_of(&name))
    } else {
        let mut init_fn = p.clone();
        push_str(&mut init_fn, "__init");
        let mut global: Vec<char> = chars_of("@__perry_ns_");
        push_chars(&mut global, &p);
        NamespaceTarget::Compiled { init_fn: string_of(&init_fn), namespace_global: string_of(&global) }
    }
}

/// The `(path, target prefix)` pairs a multi-target `require` compares
/// against, in the order of `paths`: each path the driver mapped to a
/// target, with the first mapping recorded for it.
pub open spec fn require_targets_spec(
    paths: Seq<Seq<char>>,
    path_to_prefix: Seq<(Seq<char>, Seq<char>)>,
) -> Seq<(Seq<char>, Seq<char>)>
    decreases paths.len(),
{
    if paths.len() == 0 {
        Seq::empty()
    } else {
        let rest = require_targets_spec(paths.drop_last(), path_to_prefix);
        match assoc_lookup(path_to_prefix, paths.last()) {
            Some(t) => rest.push((paths.last(), t)),
            None => rest,
        }
    }
}

/// The entry a path contributes: the path with its target, if it has one.
pub open spec fn mapped_entry(
    path_to_prefix: Seq<(Seq<char>, Seq<char>)>,
    path: Seq<char>,
) -> Option<(Seq<char>, Seq<char>)> {
    match assoc_lookup(path_to_prefix, path) {
        Some(t) => Some((path, t)),
        None => None,
    }
}

/// Every path the driver mapped is kept, once per occurrence, in the order
/// of `paths`, with its target, and nothing else is: two spellings of one
/// module both stay, so neither falls through to the ambient `require`.
pub proof fn lemma_require_targets_keep_every_mapped_path(
    paths: Seq<Seq<char>>,
    path_to_prefix: Seq<(Seq<char>, Seq<char>)>,
)
    ensures
        require_targets_spec(paths, path_to_prefix) == paths.filter_map(
            |p: Seq<char>| mapped_entry(path_to_prefix, p),
        ),
        require_targets_spec(paths, path_to_prefix).len() <= paths.len(),
        forall|i: int|
            0 <= i < paths.len() && #[trigger] assoc_lookup(path_to_prefix, paths[i]) is Some
                ==> require_targets_spec(paths, path_to_prefix).contains(
                (paths[i], assoc_lookup(path_to_prefix, paths[i])->Some_0),
            ),
        forall|k: int|
            0 <= k < require_targets_spec(paths, path_to_prefix).len() ==> exists|i: int|
                0 <= i < paths.len() && paths[i] == (#[trigger] require_targets_spec(
                    paths,
                    path_to_prefix,
                )[k]).0 && assoc_lookup(path_to_prefix, paths[i]) == Some(
                    require_targets_spec(paths, path_to_prefix)[k].1,
                ),
    decreases paths.len(),
{
    let r = require_targets_spec(paths, path_to_prefix);
    if paths.len() > 0 {
        let init = paths.drop_last();
        let rest = require_targets_spec(init, path_to_prefix);
        lemma_require_targets_keep_every_mapped_path(init, path_to_prefix);
        let n = paths.len() - 1;
        assert forall|i: int|
            0 <= i < paths.len() && #[trigger] assoc_lookup(path_to_prefix, paths[i]) is Some
                implies r.contains((paths[i], assoc_lookup(path_to_prefix, paths[i])->Some_0)) by {
            if i < n {
                assert(init[i] == paths[i]);
                assert(assoc_lookup(path_to_prefix, init[i]) is Some);
                let w = choose|j: int| 0 <= j < rest.len() && rest[j] == (init[i], assoc_lookup(path_to_prefix, init[i])->Some_0);
                assert(r[w] == rest[w]);
            } else {
                assert(r[r.len() - 1] == (paths[i], assoc_lookup(path_to_prefix, paths[i])->Some_0));
            }
        }
        assert forall|k: int| 0 <= k < r.len() implies exists|i: int|
            0 <= i < paths.len() && paths[i] == (#[trigger] r[k]).0 && assoc_lookup(
                path_to_prefix,
                paths[i],
            ) == Some(r[k].1) by {
            if k < rest.len() {
                assert(r[k] == rest[k]);
                let i = choose|i: int|
                    0 <= i < init.len() && init[i] == (#[trigger] rest[k]).0 && assoc_lookup(
                        path_to_prefix,
                        init[i],
                    ) == Some(rest[k].1);
                assert(paths[i] == init[i]);
            } else {
                assert(paths[n] == r[k].0);
            }
        }
    }
}

fn lookup_prefix(path_to_prefix: &[(String, String)], path: &Vec<char>) -> (r: Option<String>)
    ensures
        match r {
            Some(t) => assoc_lookup(names_view(path_to_prefix@), path@) == Some(t@),
            None => assoc_lookup(names_view(path_to_prefix@), path@) is None,
        },
{
    let ghost m = names_view(path_to_prefix@);
    let mut i: usize = 0;
    assert(m.skip(0) =~= m);
    while i < path_to_prefix.len()
        invariant
            i <= path_to_prefix@.len(),
            m == names_view(path_to_prefix@),
            assoc_lookup(m, path@) == assoc_lookup(m.skip(i as int), path@),
        decreases path_to_prefix.len() - i,
    {
        let k = chars_of(path_to_prefix[i].0.as_str());
        assert(m.skip(i as int)[0] == m[i as int]);
        assert(m.skip(i as int).drop_first() =~= m.skip(i + 1));
        if eq_chars(&k, path) {
            return Some(path_to_prefix[i].1.clone());
        }
        i += 1;
    }
    None
}

/// The targets a `require` with several resolved specifiers dispatches to;
/// paths the driver did not map are left to the ambient `require`.
/// `path_to_prefix` is a map: no path occurs in it twice.
pub fn require_targets(paths: &[String], path_to_prefix: &[(String, String)]) -> (r: Vec<
    (String, String),
>)
    requires
        keys_distinct(names_view(path_to_prefix@)),
    ensures
        names_view(r@) == require_targets_spec(strings_view(paths@), names_view(path_to_prefix@)),
{
    let ghost pv = strings_view(paths@);
    let mut out: Vec<(String, String)> = Vec::new();
    let mut i: usize = 0;
    while i < paths.len()
        invariant
            i <= paths@.len(),
            pv == strings_view(paths@),
            names_view(out@) == require_targets_spec(pv.take(i as int), names_view(path_to_prefix@)),
        decreases paths.len() - i,
    {
        let p = chars_of(paths[i].as_str());
        assert(pv.take(i + 1).drop_last() =~= pv.take(i as int));
        assert(pv.take(i + 1).last() == p@);
        let ghost before = names_view(out@);
        match lookup_prefix(path_to_prefix, &p) {
            Some(t) => {
                out.push((paths[i].clone(), t));
                assert(names_view(out@) =~= before.push((p@, out@[out@.len() - 1].1@)));
            },
            None => {},
        }
        i += 1;
    }
    assert(pv.take(i as int) =~= pv);
    out
}

} // verus!
