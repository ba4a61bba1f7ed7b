//! Naming of imported functions: the origin-name override a re-export
//! rename leaves behind.
use vstd::prelude::*;
use vstd::string::StringSliceAdditionalSpecFns;
use crate::numtext::{dec, push_dec};
use crate::text::{chars_of, eq_chars, push_chars, push_str, string_of};

verus! {

/// The first value stored under `key` in an association list.
pub open spec fn assoc_lookup<K>(pairs: Seq<(K, Seq<char>)>, key: K) -> Option<Seq<char>>
    decreases pairs.len(),
{
    if pairs.len() == 0 {
        None
    } else if pairs[0].0 == key {
        Some(pairs[0].1)
    } else {
        assoc_lookup(pairs.drop_first(), key)
    }
}

pub open spec fn names_view(m: Seq<(String, String)>) -> Seq<(Seq<char>, Seq<char>)> {
    Seq::new(m.len(), |i: int| (m[i].0@, m[i].1@))
}

pub open spec fn ns_names_view(m: Seq<((String, String), String)>) -> Seq<
    ((Seq<char>, Seq<char>), Seq<char>),
> {
    Seq::new(m.len(), |i: int| ((m[i].0.0@, m[i].0.1@), m[i].1@))
}

/// Keys of an association list that occur once: the map the list stands for.
pub open spec fn keys_distinct<K, V>(pairs: Seq<(K, V)>) -> bool {
    forall|i: int, j: int| 0 <= i < j < pairs.len() ==> pairs[i].0 != pairs[j].0
}

proof fn lemma_assoc_lookup_at<K>(pairs: Seq<(K, Seq<char>)>, i: int)
    requires
        0 <= i < pairs.len(),
        forall|j: int| 0 <= j < i ==> pairs[j].0 != pairs[i].0,
    ensures
        assoc_lookup(pairs, pairs[i].0) == Some(pairs[i].1),
    decreases i,
{
    if i > 0 {
        lemma_assoc_lookup_at(pairs.drop_first(), i - 1);
    }
}

proof fn lemma_assoc_lookup_absent<K>(pairs: Seq<(K, Seq<char>)>, key: K)
    requires
        forall|j: int| 0 <= j < pairs.len() ==> pairs[j].0 != key,
    ensures
        assoc_lookup(pairs, key) is None,
    decreases pairs.len(),
{
    if pairs.len() > 0 {
        lemma_assoc_lookup_absent(pairs.drop_first(), key);
    }
}

/// The origin-name suffix of an imported function: the override when a
/// re-export renamed it, else `name` itself.
pub open spec fn origin_suffix_spec(origin: Seq<(Seq<char>, Seq<char>)>, name: Seq<char>) -> Seq<char> {
    match assoc_lookup(origin, name) {
        Some(v) => v,
        None => name,
    }
}

/// The suffix a `perry_fn_<src>__<name>` extern symbol uses for `name`.
///
/// `origin_names` is a map: no consumer name occurs twice.
///
/// A re-export rename (`export { foo as bar }`) means the consumer-visible
/// name differs from the origin module's own, and the symbol is keyed by the
/// origin's. `origin_names` maps consumer names to origin names; the common
/// case, no entry, keeps `name`.
pub fn import_origin_suffix<'a>(origin_names: &'a [(String, String)], name: &'a str) -> (r: &'a str)
    requires
        keys_distinct(names_view(origin_names@)),
    ensures
        r@ == origin_suffix_spec(names_view(origin_names@), name@),
{
    let n = chars_of(name);
    let mut i: usize = 0;
    while i < origin_names.len()
        invariant
            i <= origin_names@.len(),
            n@ == name@,
            forall|j: int| 0 <= j < i ==> (#[trigger] names_view(origin_names@)[j]).0 != name@,
        decreases origin_names.len() - i,
    {
        let k = chars_of(origin_names[i].0.as_str());
        if eq_chars(&k, &n) {
            proof {
                lemma_assoc_lookup_at(names_view(origin_names@), i as int);
            }
            return origin_names[i].1.as_str();
        }
        i += 1;
    }
    proof {
        lemma_assoc_lookup_absent(names_view(origin_names@), name@);
    }
    name
}

/// The namespace-scoped origin suffix: the per-namespace override for
/// `(namespace_local, name)` first, then the flat one.
pub open spec fn origin_suffix_ns_spec(
    origin: Seq<(Seq<char>, Seq<char>)>,
    ns_origin: Seq<((Seq<char>, Seq<char>), Seq<char>)>,
    namespace_local: Seq<char>,
    name: Seq<char>,
) -> Seq<char> {
    match assoc_lookup(ns_origin, (namespace_local, name)) {
        Some(v) => v,
        None => origin_suffix_spec(origin, name),
    }
}

/// Namespace-scoped variant of [`import_origin_suffix`].
///
/// The flat map is keyed by bare member name, so when two namespaces imported
/// into one file both have a member of that name and only one of them is a
/// rename, the flat override would clobber the other's suffix. The
/// per-namespace override, keyed by `(namespace_local, name)`, wins.
pub fn import_origin_suffix_ns<'a>(
    origin_names: &'a [(String, String)],
    namespace_origin_names: &'a [((String, String), String)],
    namespace_local: &str,
    name: &'a str,
) -> (r: &'a str)
    requires
        keys_distinct(names_view(origin_names@)),
        keys_distinct(ns_names_view(namespace_origin_names@)),
    ensures
        r@ == origin_suffix_ns_spec(
            names_view(origin_names@),
            ns_names_view(namespace_origin_names@),
            namespace_local@,
            name@,
        ),
{
    let ns = chars_of(namespace_local);
    let n = chars_of(name);
    let mut i: usize = 0;
    while i < namespace_origin_names.len()
        invariant
            i <= namespace_origin_names@.len(),
            n@ == name@,
            ns@ == namespace_local@,
            forall|j: int|
                0 <= j < i ==> (#[trigger] ns_names_view(namespace_origin_names@)[j]).0 != (
                    namespace_local@,
                    name@,
                ),
        decreases namespace_origin_names.len() - i,
    {
        let k0 = chars_of(namespace_origin_names[i].0.0.as_str());
        let k1 = chars_of(namespace_origin_names[i].0.1.as_str());
        if eq_chars(&k0, &ns) && eq_chars(&k1, &n) {
            proof {
                lemma_assoc_lookup_at(ns_names_view(namespace_origin_names@), i as int);
            }
            return namespace_origin_names[i].1.as_str();
        }
        i += 1;
    }
    proof {
        lemma_assoc_lookup_absent(ns_names_view(namespace_origin_names@), (namespace_local@, name@));
    }
    import_origin_suffix(origin_names, name)
}

/// Where the keys are distinct, the suffix of a name that has an override is
/// that override, whatever order the entries were recorded in.
pub proof fn lemma_override_wins(origin: Seq<(Seq<char>, Seq<char>)>, i: int)
    requires
        keys_distinct(origin),
        0 <= i < origin.len(),
    ensures
        origin_suffix_spec(origin, origin[i].0) == origin[i].1,
{
    lemma_assoc_lookup_at(origin, i);
}

/// A name no override mentions keeps its own suffix.
pub proof fn lemma_no_override_keeps_name(origin: Seq<(Seq<char>, Seq<char>)>, name: Seq<char>)
    requires
        forall|j: int| 0 <= j < origin.len() ==> origin[j].0 != name,
    ensures
        origin_suffix_spec(origin, name) == name,
{
    lemma_assoc_lookup_absent(origin, name);
}

/// A namespace-scoped override takes precedence over the flat map; without
/// one the flat answer stands.
pub proof fn lemma_namespace_override_wins(
    origin: Seq<(Seq<char>, Seq<char>)>,
    ns_origin: Seq<((Seq<char>, Seq<char>), Seq<char>)>,
    i: int,
)
    requires
        keys_distinct(ns_origin),
        0 <= i < ns_origin.len(),
    ensures
        origin_suffix_ns_spec(origin, ns_origin, ns_origin[i].0.0, ns_origin[i].0.1) == ns_origin[i].1,
{
    lemma_assoc_lookup_at(ns_origin, i);
}

/// An upper-case hexadecimal digit.
pub open spec fn upper_hex_digit(d: nat) -> char {
    if d < 10 {
        (('0' as nat) + d) as char
    } else {
        (('A' as nat) + d - 10) as char
    }
}

fn upper_hex_digit_exec(d: u8) -> (c: char)
    requires
        d < 16,
    ensures
        c == upper_hex_digit(d as nat),
{
    if d < 10 {
        ((48u8 + d) as char)
    } else {
        ((55u8 + d) as char)
    }
}

/// One byte of an LLVM `c"..."` literal: printable ASCII other than `"` and
/// `\` as itself, anything else as `\` and two upper-case hex digits.
pub open spec fn escape_byte(b: u8) -> Seq<char> {
    if 32 <= b < 127 && b != 34 && b != 92 {
        seq![b as char]
    } else {
        seq!['\\', upper_hex_digit((b / 16) as nat), upper_hex_digit((b % 16) as nat)]
    }
}

pub open spec fn escape_bytes(bytes: Seq<u8>) -> Seq<char>
    decreases bytes.len(),
{
    if bytes.len() == 0 {
        Seq::empty()
    } else {
        escape_bytes(bytes.drop_last()) + escape_byte(bytes.last())
    }
}

/// The LLVM IR literal of a NUL-terminated C string holding `bytes`.
pub open spec fn c_string_literal_spec(bytes: Seq<u8>) -> Seq<char> {
    "c\""@ + escape_bytes(bytes) + "\\00\""@
}

/// The LLVM IR literal of a NUL-terminated C string holding `bytes`:
/// `c"..."`, with printable ASCII spelled as itself and every other byte
/// (and `"` and `\`) as a `\XX` hex escape, then the terminating `\00`.
pub fn llvm_c_string_literal(bytes: &[u8]) -> (r: String)
    ensures
        r@ == c_string_literal_spec(bytes@),
{
    let mut out: Vec<char> = Vec::new();
    push_str(&mut out, "c\"");
    let ghost head = out@;
    let mut i: usize = 0;
    while i < bytes.len()
        invariant
            i <= bytes@.len(),
            out@ == head + escape_bytes(bytes@.take(i as int)),
        decreases bytes.len() - i,
    {
        let b = bytes[i];
        if 32 <= b && b < 127 && b != 34 && b != 92 {
            out.push(b as char);
        } else {
            out.push('\\');
            out.push(upper_hex_digit_exec(b / 16));
            out.push(upper_hex_digit_exec(b % 16));
        }
        proof {
            assert(bytes@.take(i + 1).drop_last() =~= bytes@.take(i as int));
            assert(bytes@.take(i + 1).last() == b);
        }
        i += 1;
        assert(out@ =~= head + escape_bytes(bytes@.take(i as int)));
    }
    assert(bytes@.take(i as int) =~= bytes@);
    push_str(&mut out, "\\00\"");
    assert(out@ =~= c_string_literal_spec(bytes@));
    string_of(&out)
}

/// The private rodata global holding `s` as a NUL-terminated C string.
pub open spec fn rodata_string_global_spec(global: Seq<char>, bytes: Seq<u8>) -> Seq<char> {
    "@"@ + global + " = private unnamed_addr constant ["@ + dec(bytes.len() + 1) + " x i8] "@
        + c_string_literal_spec(bytes)
}

/// `@<global> = private unnamed_addr constant [<len + 1> x i8] c"..."`: the
/// per-call-site constant a V8 bridge call passes the specifier, export,
/// member or method name through (the linker merges duplicates).
pub fn rodata_string_global(global: &str, s: &str) -> (r: String)
    requires
        s.spec_bytes().len() < u64::MAX,
    ensures
        r@ == rodata_string_global_spec(global@, s.spec_bytes()),
{
    let bytes = s.as_bytes();
    let mut out: Vec<char> = Vec::new();
    push_str(&mut out, "@");
    push_chars(&mut out, &chars_of(global));
    push_str(&mut out, " = private unnamed_addr constant [");
    push_dec(&mut out, bytes.len() as u64 + 1);
    push_str(&mut out, " x i8] ");
    let lit = llvm_c_string_literal(bytes);
    push_chars(&mut out, &chars_of(lit.as_str()));
    assert(out@ =~= rodata_string_global_spec(global@, s.spec_bytes()));
    string_of(&out)
}

/// Slots of the on-stack argument buffer of a V8 bridge call: one per
/// argument, and one when there are none (a zero-length `alloca` would have
/// no address to pass; the runtime never reads it when `argc` is 0).
pub fn v8_args_buffer_len(argc: usize) -> (r: usize)
    ensures
        r == if argc == 0 { 1 } else { argc },
{
    if argc == 0 {
        1
    } else {
        argc
    }
}

/// The per-call-site constants of one V8 bridge call: the counter after it,
/// the names of its rodata globals, and the global definitions.
pub struct V8BridgeConstants {
    pub next_counter: usize,
    pub globals: Vec<String>,
    pub rodata: Vec<String>,
}

/// The `k`-th constant of a bridge call at counter `n` is named
/// `prefix_k{n}` and holds `values[k]`.
pub open spec fn bridge_constants_spec(
    c: V8BridgeConstants,
    counter: nat,
    prefixes: Seq<Seq<char>>,
    values: Seq<Seq<u8>>,
) -> bool {
    &&& c.next_counter == counter + 1
    &&& c.globals@.len() == prefixes.len()
    &&& c.rodata@.len() == prefixes.len()
    &&& forall|k: int|
        0 <= k < prefixes.len() ==> {
            &&& (#[trigger] c.globals@[k])@ == prefixes[k] + dec(counter)
            &&& c.rodata@[k]@ == rodata_string_global_spec(prefixes[k] + dec(counter), values[k])
        }
}

fn bridge_constant(prefix: &str, counter: usize, value: &str, globals: &mut Vec<String>, rodata: &mut Vec<
    String,
>)
    requires
        value.spec_bytes().len() < u64::MAX,
    ensures
        final(globals)@.len() == old(globals)@.len() + 1,
        final(rodata)@.len() == old(rodata)@.len() + 1,
        forall|k: int| 0 <= k < old(globals)@.len() ==> final(globals)@[k] == old(globals)@[k],
        forall|k: int| 0 <= k < old(rodata)@.len() ==> final(rodata)@[k] == old(rodata)@[k],
        final(globals)@[old(globals)@.len() as int]@ == prefix@ + dec(counter as nat),
        final(rodata)@[old(rodata)@.len() as int]@ == rodata_string_global_spec(
            prefix@ + dec(counter as nat),
            value.spec_bytes(),
        ),
{
    let mut name: Vec<char> = chars_of(prefix);
    push_dec(&mut name, counter as u64);
    let global = string_of(&name);
    let line = rodata_string_global(global.as_str(), value);
    globals.push(global);
    rodata.push(line);
}

/// The constants of a `js_call_v8_export` call at counter `counter`: the
/// module specifier in `perry_v8_spec_{n}` and the export name in
/// `perry_v8_name_{n}`, each a NUL-terminated C string.
pub fn v8_export_constants(counter: usize, specifier: &str, export_name: &str) -> (r: V8BridgeConstants)
    requires
        counter < usize::MAX,
        specifier.spec_bytes().len() < u64::MAX,
        export_name.spec_bytes().len() < u64::MAX,
    ensures
        bridge_constants_spec(
            r,
            counter as nat,
            seq!["perry_v8_spec_"@, "perry_v8_name_"@],
            seq![specifier.spec_bytes(), export_name.spec_bytes()],
        ),
{
    let mut globals: Vec<String> = Vec::new();
    let mut rodata: Vec<String> = Vec::new();
    bridge_constant("perry_v8_spec_", counter, specifier, &mut globals, &mut rodata);
    bridge_constant("perry_v8_name_", counter, export_name, &mut globals, &mut rodata);
    let r = V8BridgeConstants { next_counter: counter + 1, globals, rodata };
    proof {
        let prefixes = seq!["perry_v8_spec_"@, "perry_v8_name_"@];
        assert forall|k: int| 0 <= k < prefixes.len() implies {
            &&& (#[trigger] r.globals@[k])@ == prefixes[k] + dec(counter as nat)
            &&& r.rodata@[k]@ == rodata_string_global_spec(
                prefixes[k] + dec(counter as nat),
                seq![specifier.spec_bytes(), export_name.spec_bytes()][k],
            )
        } by {
            if k == 0 {
            } else {
            }
        }
    }
    r
}

/// The constants of a `js_call_v8_member_method` call at counter `counter`:
/// the module specifier, the member export and the method name, in
/// `perry_v8_mspec_{n}`, `perry_v8_mmember_{n}` and `perry_v8_mmethod_{n}`.
pub fn v8_member_method_constants(counter: usize, specifier: &str, member: &str, method: &str) -> (r:
    V8BridgeConstants)
    requires
        counter < usize::MAX,
        specifier.spec_bytes().len() < u64::MAX,
        member.spec_bytes().len() < u64::MAX,
        method.spec_bytes().len() < u64::MAX,
    ensures
        bridge_constants_spec(
            r,
            counter as nat,
            seq!["perry_v8_mspec_"@, "perry_v8_mmember_"@, "perry_v8_mmethod_"@],
            seq![specifier.spec_bytes(), member.spec_bytes(), method.spec_bytes()],
        ),
{
    let mut globals: Vec<String> = Vec::new();
    let mut rodata: Vec<String> = Vec::new();
    bridge_constant("perry_v8_mspec_", counter, specifier, &mut globals, &mut rodata);
    bridge_constant("perry_v8_mmember_", counter, member, &mut globals, &mut rodata);
    bridge_constant("perry_v8_mmethod_", counter, method, &mut globals, &mut rodata);
    let r = V8BridgeConstants { next_counter: counter + 1, globals, rodata };
    proof {
        let prefixes = seq!["perry_v8_mspec_"@, "perry_v8_mmember_"@, "perry_v8_mmethod_"@];
        let values = seq![specifier.spec_bytes(), member.spec_bytes(), method.spec_bytes()];
        assert forall|k: int| 0 <= k < prefixes.len() implies {
            &&& (#[trigger] r.globals@[k])@ == prefixes[k] + dec(counter as nat)
            &&& r.rodata@[k]@ == rodata_string_global_spec(prefixes[k] + dec(counter as nat), values[k])
        } by {
            if k == 0 {
            } else if k == 1 {
            } else {
            }
        }
    }
    r
}

} // verus!
