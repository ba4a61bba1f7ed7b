//! Which compiled entries a `new Worker(filename)` may start, as the
//! driver resolved the filename's candidate paths.
use vstd::prelude::*;
use crate::expr::dyn_extern_i18n::{require_targets, require_targets_spec, strings_view};
use crate::expr::v8_interop::{keys_distinct, names_view};
use crate::text::{chars_of, eq_chars, push_str, starts_with, starts_with_lit, string_of};

verus! {

/// Thrown at run time when the filename matches none of the entries.
pub const WORKER_NO_MATCH_MESSAGE: &'static str =
    "worker_threads Worker filename did not match an existing compile-time-resolved worker entry";

/// Why a worker target is refused at compile time.
pub const WORKER_NATIVE_TARGET_MESSAGE: &'static str =
    "worker_threads Worker target must be a compiled source file";

/// `a` sorts strictly before `b`, comparing characters by code point (the
/// byte order of their UTF-8 encodings), a proper prefix first.
pub open spec fn lex_lt(a: Seq<char>, b: Seq<char>) -> bool
    decreases a.len(),
{
    if a.len() == 0 {
        b.len() > 0
    } else if b.len() == 0 {
        false
    } else if a[0] != b[0] {
        a[0] < b[0]
    } else {
        lex_lt(a.drop_first(), b.drop_first())
    }
}

pub proof fn lemma_lex_irreflexive(a: Seq<char>)
    ensures
        !lex_lt(a, a),
    decreases a.len(),
{
    if a.len() > 0 {
        lemma_lex_irreflexive(a.drop_first());
    }
}

pub proof fn lemma_lex_transitive(a: Seq<char>, b: Seq<char>, c: Seq<char>)
    requires
        lex_lt(a, b),
        lex_lt(b, c),
    ensures
        lex_lt(a, c),
    decreases a.len(),
{
    if a.len() > 0 && b.len() > 0 && c.len() > 0 && a[0] == b[0] && b[0] == c[0] {
        lemma_lex_transitive(a.drop_first(), b.drop_first(), c.drop_first());
    }
}

pub proof fn lemma_lex_total(a: Seq<char>, b: Seq<char>)
    requires
        a != b,
    ensures
        lex_lt(a, b) || lex_lt(b, a),
    decreases a.len(),
{
    if a.len() > 0 && b.len() > 0 && a[0] == b[0] {
        if a.drop_first() == b.drop_first() {
            assert(a =~= seq![a[0]] + a.drop_first());
            assert(b =~= seq![b[0]] + b.drop_first());
        }
        lemma_lex_total(a.drop_first(), b.drop_first());
    } else if a.len() == 0 && b.len() == 0 {
        assert(a =~= b);
    }
}

fn lex_lt_exec(a: &Vec<char>, b: &Vec<char>) -> (r: bool)
    ensures
        r == lex_lt(a@, b@),
{
    let mut i: usize = 0;
    assert(a@.skip(0) =~= a@);
    assert(b@.skip(0) =~= b@);
    while i < a.len() && i < b.len()
        invariant
            i <= a@.len(),
            i <= b@.len(),
            lex_lt(a@, b@) == lex_lt(a@.skip(i as int), b@.skip(i as int)),
        decreases a.len() - i,
    {
        assert(a@.skip(i as int)[0] == a@[i as int]);
        assert(b@.skip(i as int)[0] == b@[i as int]);
        if a[i] != b[i] {
            proof {
                let (sa, sb) = (a@.skip(i as int), b@.skip(i as int));
                assert(sa.len() > 0 && sb.len() > 0 && sa[0] != sb[0]);
            }
            return a[i] < b[i];
        }
        assert(a@.skip(i as int).drop_first() =~= a@.skip(i + 1));
        assert(b@.skip(i as int).drop_first() =~= b@.skip(i + 1));
        i += 1;
    }
    i < b.len()
}

/// A target that is a native submodule or builtin rather than compiled code.
pub open spec fn is_native_target(t: Seq<char>) -> bool {
    starts_with(t, "__node_submod__"@) || starts_with(t, "__native_mod__"@)
}

/// The aliases a worker filename is compared against: every `(path,
/// target)` of the driver's map whose target is one of `targets`.
pub open spec fn is_worker_alias(
    map: Seq<(Seq<char>, Seq<char>)>,
    targets: Seq<(Seq<char>, Seq<char>)>,
    x: (Seq<char>, Seq<char>),
) -> bool {
    map.contains(x) && exists|k: int| 0 <= k < targets.len() && (#[trigger] targets[k]).1 == x.1
}

/// Ordered by path, strictly: no path twice.
pub open spec fn sorted_by_path(r: Seq<(Seq<char>, Seq<char>)>) -> bool {
    forall|i: int, j: int| 0 <= i < j < r.len() ==> lex_lt(r[i].0, r[j].0)
}

fn has_target(targets: &Vec<(String, String)>, t: &Vec<char>) -> (r: bool)
    ensures
        r == exists|k: int| 0 <= k < targets@.len() && (#[trigger] names_view(targets@)[k]).1 == t@,
{
    let mut k: usize = 0;
    while k < targets.len()
        invariant
            k <= targets@.len(),
            forall|j: int| 0 <= j < k ==> (#[trigger] names_view(targets@)[j]).1 != t@,
        decreases targets.len() - k,
    {
        let c = chars_of(targets[k].1.as_str());
        if eq_chars(&c, t) {
            assert(names_view(targets@)[k as int].1 == t@);
            return true;
        }
        k += 1;
    }
    false
}

/// The compiled entries a `new Worker(filename)` may start, sorted by path
/// so the emitted dispatch is stable.
///
/// `paths` are the filename's candidate spellings and `path_to_prefix` the
/// driver's map from a path to the target module it names (so no path
/// occurs in it twice). A candidate that names a native submodule or builtin
/// is refused with [`WORKER_NATIVE_TARGET_MESSAGE`]. Otherwise the result is
/// every entry of the map, under any spelling, whose target is one of the
/// candidates' targets.
pub fn worker_aliases(paths: &[String], path_to_prefix: &[(String, String)]) -> (r: Result<
    Vec<(String, String)>,
    String,
>)
    requires
        keys_distinct(names_view(path_to_prefix@)),
    ensures
        ({
            let map = names_view(path_to_prefix@);
            let targets = require_targets_spec(strings_view(paths@), map);
            &&& r is Err <==> exists|k: int|
                0 <= k < targets.len() && is_native_target(#[trigger] targets[k].1)
            &&& r matches Err(m) ==> m@ == WORKER_NATIVE_TARGET_MESSAGE@
            &&& r matches Ok(v) ==> {
                &&& sorted_by_path(names_view(v@))
                &&& forall|x: (Seq<char>, Seq<char>)|
                    #[trigger] names_view(v@).contains(x) <==> is_worker_alias(map, targets, x)
            }
        }),
{
    let ghost map = names_view(path_to_prefix@);
    let targets = require_targets(paths, path_to_prefix);
    let ghost tv = names_view(targets@);
    let mut k: usize = 0;
    while k < targets.len()
        invariant
            k <= targets@.len(),
            tv == names_view(targets@),
            map == names_view(path_to_prefix@),
            tv == require_targets_spec(strings_view(paths@), map),
            forall|j: int| 0 <= j < k ==> !is_native_target(#[trigger] tv[j].1),
        decreases targets.len() - k,
    {
        let t = chars_of(targets[k].1.as_str());
        assert(t@ == tv[k as int].1);
        if starts_with_lit(&t, "__node_submod__") || starts_with_lit(&t, "__native_mod__") {
            assert(is_native_target(tv[k as int].1));
            assert(tv == require_targets_spec(strings_view(paths@), map));
            assert(is_native_target(require_targets_spec(strings_view(paths@), map)[k as int].1));
            return Err(string_of(&chars_of(WORKER_NATIVE_TARGET_MESSAGE)));
        }
        k += 1;
    }
    assert(forall|j: int| 0 <= j < tv.len() ==> !is_native_target(#[trigger] tv[j].1));
    let mut out: Vec<(String, String)> = Vec::new();
    let mut i: usize = 0;
    while i < path_to_prefix.len()
        invariant
            i <= path_to_prefix@.len(),
            map == names_view(path_to_prefix@),
            keys_distinct(map),
            tv == names_view(targets@),
            tv == require_targets_spec(strings_view(paths@), map),
            sorted_by_path(names_view(out@)),
            forall|x: (Seq<char>, Seq<char>)|
                #[trigger] names_view(out@).contains(x) <==> (exists|e: int|
                    0 <= e < i && map[e] == x && exists|k: int|
                        0 <= k < tv.len() && (#[trigger] tv[k]).1 == x.1),
        decreases path_to_prefix.len() - i,
    {
        let p = chars_of(path_to_prefix[i].0.as_str());
        let t = chars_of(path_to_prefix[i].1.as_str());
        let ghost x = map[i as int];
        assert(x == (p@, t@));
        if has_target(&targets, &t) {
            let ghost ov = names_view(out@);
            assert(forall|y: (Seq<char>, Seq<char>)|
                #[trigger] ov.contains(y) <==> (exists|e: int|
                    0 <= e < i && map[e] == y && exists|k: int|
                        0 <= k < tv.len() && (#[trigger] tv[k]).1 == y.1));
            // Every path already placed came from an earlier entry, so it
            // differs from this one.
            assert forall|j: int| 0 <= j < ov.len() implies ov[j].0 != x.0 by {
                assert(ov.contains(ov[j]));
                let e = choose|e: int|
                    0 <= e < i && map[e] == ov[j] && exists|k: int|
                        0 <= k < tv.len() && (#[trigger] tv[k]).1 == ov[j].1;
                assert(map[e].0 != map[i as int].0);
            }
            let mut pos: usize = 0;
            let mut searching = true;
            while searching && pos < out.len()
                invariant
                    pos <= out@.len(),
                    ov == names_view(out@),
                    x == (p@, t@),
                    forall|j: int| 0 <= j < pos ==> lex_lt(#[trigger] ov[j].0, x.0),
                    !searching ==> pos < ov.len() && !lex_lt(ov[pos as int].0, x.0),
                decreases out.len() - pos + if searching {
                    1int
                } else {
                    0int
                },
            {
                let q = chars_of(out[pos].0.as_str());
                assert(q@ == ov[pos as int].0);
                if lex_lt_exec(&q, &p) {
                    pos += 1;
                } else {
                    searching = false;
                }
            }
            proof {
                if pos < ov.len() {
                    assert(ov[pos as int].0 != x.0);
                    lemma_lex_total(ov[pos as int].0, x.0);
                }
                assert forall|j: int| pos <= j < ov.len() implies lex_lt(x.0, #[trigger] ov[j].0) by {
                    if j > pos {
                        lemma_lex_transitive(x.0, ov[pos as int].0, ov[j].0);
                    }
                }
            }
            let entry = (path_to_prefix[i].0.clone(), path_to_prefix[i].1.clone());
            out.insert(pos, entry);
            proof {
                let nv = names_view(out@);
                assert(nv =~= ov.insert(pos as int, x));
                assert(nv[pos as int] == x);
                assert forall|a: int, b: int| 0 <= a < b < nv.len() implies lex_lt(nv[a].0, nv[b].0) by {
                    if a < pos && b < pos {
                    } else if a < pos && b == pos {
                    } else if a < pos {
                        lemma_lex_transitive(nv[a].0, x.0, nv[b].0);
                    } else if a == pos {
                    } else {
                    }
                }
                assert forall|y: (Seq<char>, Seq<char>)|
                    (exists|e: int|
                        0 <= e < i + 1 && map[e] == y && exists|k: int|
                            0 <= k < tv.len() && (#[trigger] tv[k]).1 == y.1) implies #[trigger] nv.contains(y) by {
                    let e = choose|e: int|
                        0 <= e < i + 1 && map[e] == y && exists|k: int|
                            0 <= k < tv.len() && (#[trigger] tv[k]).1 == y.1;
                    if e < i {
                        assert(ov.contains(y));
                        let j = choose|j: int| 0 <= j < ov.len() && ov[j] == y;
                        if j < pos {
                            assert(nv[j] == y);
                        } else {
                            assert(nv[j + 1] == y);
                        }
                    } else {
                        assert(nv[pos as int] == y);
                    }
                }
                assert forall|y: (Seq<char>, Seq<char>)|
                    #[trigger] nv.contains(y) ==> (exists|e: int|
                        0 <= e < i + 1 && map[e] == y && exists|k: int|
                            0 <= k < tv.len() && (#[trigger] tv[k]).1 == y.1) by {
                    if nv.contains(y) {
                        let j = choose|j: int| 0 <= j < nv.len() && nv[j] == y;
                        if j == pos {
                            assert(map[i as int] == y);
                        } else if j < pos {
                            assert(ov[j] == y);
                            assert(ov.contains(y));
                        } else {
                            assert(ov[j - 1] == y);
                            assert(ov.contains(y));
                        }
                    }
                }
            }
        } else {
            proof {
                let ov = names_view(out@);
                assert forall|y: (Seq<char>, Seq<char>)|
                    #[trigger] ov.contains(y) <==> (exists|e: int|
                        0 <= e < i + 1 && map[e] == y && exists|k: int|
                            0 <= k < tv.len() && (#[trigger] tv[k]).1 == y.1) by {
                    if exists|e: int|
                        0 <= e < i + 1 && map[e] == y && exists|k: int|
                            0 <= k < tv.len() && (#[trigger] tv[k]).1 == y.1 {
                        let e = choose|e: int|
                            0 <= e < i + 1 && map[e] == y && exists|k: int|
                                0 <= k < tv.len() && (#[trigger] tv[k]).1 == y.1;
                        if e == i {
                            assert(y.1 == t@);
                        }
                    }
                }
            }
        }
        i += 1;
    }
    proof {
        let targets_spec = require_targets_spec(strings_view(paths@), map);
        assert(tv == targets_spec);
        assert forall|x: (Seq<char>, Seq<char>)|
            #[trigger] names_view(out@).contains(x) <==> is_worker_alias(map, targets_spec, x) by {
            if map.contains(x) {
                let e = choose|e: int| 0 <= e < map.len() && map[e] == x;
            }
        }
    }
    Ok(out)
}

/// The unguarded init body a worker started on `target` runs:
/// `{target}__init_body`.
pub fn worker_init_symbol(target: &str) -> (r: String)
    ensures
        r@ == target@ + "__init_body"@,
{
    let mut s = chars_of(target);
    push_str(&mut s, "__init_body");
    string_of(&s)
}

} // verus!
