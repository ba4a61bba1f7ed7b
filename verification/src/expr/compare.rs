//! Literal encodings the strict-equality lowering emits.
use vstd::prelude::*;
use crate::numtext::{dec_int, push_dec_i64};
use crate::text::string_of;

verus! {

/// The signed value of a byte read as two's-complement `i8`.
pub open spec fn as_i8_value(b: u8) -> int {
    if b < 128 {
        b as int
    } else {
        b - 256
    }
}

/// LLVM `i8` literals are signed, so a byte `>= 0x80` is written in its
/// two's-complement form.
pub fn i8_literal(b: u8) -> (r: String)
    ensures
        r@ == dec_int(as_i8_value(b)),
{
    let v: i64 = if b < 128 {
        b as i64
    } else {
        b as i64 - 256
    };
    let mut out: Vec<char> = Vec::new();
    push_dec_i64(&mut out, v);
    assert(out@ =~= dec_int(as_i8_value(b)));
    string_of(&out)
}

/// The little-endian value of `bytes`.
pub open spec fn le_value(bytes: Seq<u8>) -> nat
    decreases bytes.len(),
{
    if bytes.len() == 0 {
        0
    } else {
        le_value(bytes.drop_last()) + (bytes.last() as nat) * pow256((bytes.len() - 1) as nat)
    }
}

pub open spec fn pow256(n: nat) -> nat
    decreases n,
{
    if n == 0 {
        1
    } else {
        256 * pow256((n - 1) as nat)
    }
}

/// The short-string immediate for `bytes` under the given tag, or `None`
/// when the literal is too long to have one: length in bits 40..=47, the
/// bytes little-endian in bits 0..=39, the tag's bits above.
pub open spec fn sso_spec(bytes: Seq<u8>, short_string_tag: u64) -> Option<u64> {
    if bytes.len() > 5 {
        None
    } else {
        Some(short_string_tag | ((bytes.len() as u64) << 40u64) | (le_value(bytes) as u64))
    }
}

/// The SSO (`SHORT_STRING_TAG`) immediate for `bytes`, or `None` when the
/// literal is longer than five bytes. The encoding is canonical, so two SSO
/// values are equal exactly when their bits are.
pub fn sso_immediate(bytes: &[u8], short_string_tag: u64) -> (r: Option<u64>)
    ensures
        r == sso_spec(bytes@, short_string_tag),
{
    if bytes.len() > 5 {
        return None;
    }
    let mut payload: u64 = 0;
    let mut scale: u64 = 1;
    proof {
        reveal_with_fuel(pow256, 6);
    }
    let mut i: usize = 0;
    while i < bytes.len()
        invariant
            bytes@.len() <= 5,
            i <= bytes@.len(),
            payload == le_value(bytes@.take(i as int)),
            scale == pow256(i as nat),
            payload < scale,
            scale <= pow256(5),
        decreases bytes.len() - i,
    {
        proof {
            reveal_with_fuel(pow256, 6);
            assert(pow256(5) == 1099511627776);
            assert(bytes@.take(i + 1).drop_last() =~= bytes@.take(i as int));
            lemma_pow_mono(i as nat + 1, 5);
        }
        let b = bytes[i] as u64;
        assert(payload + b * scale < scale * 256) by (nonlinear_arith)
            requires
                payload < scale,
                b < 256,
        ;
        payload = payload + b * scale;
        scale = scale * 256;
        i += 1;
    }
    assert(bytes@.take(i as int) =~= bytes@);
    let len = bytes.len() as u64;
    Some(short_string_tag | (len << 40u64) | payload)
}

proof fn lemma_pow_mono(a: nat, b: nat)
    requires
        a <= b,
    ensures
        pow256(a) <= pow256(b),
    decreases b,
{
    if a < b {
        lemma_pow_mono(a, (b - 1) as nat);
    }
}

proof fn lemma_le_value_first(a: Seq<u8>)
    requires
        a.len() >= 1,
    ensures
        le_value(a) == a[0] + 256 * le_value(a.drop_first()),
    decreases a.len(),
{
    if a.len() > 1 {
        let x = a.drop_last().drop_first();
        assert(a.drop_first().drop_last() =~= x);
        lemma_le_value_first(a.drop_last());
        assert(a.drop_last()[0] == a[0]);
        assert(a.drop_first().last() == a.last());
        let n = (a.len() - 1) as nat;
        assert(pow256(n) == 256 * pow256((n - 1) as nat));
        let l = a.last() as int;
        let p = pow256((n - 1) as nat) as int;
        let lx = le_value(x) as int;
        assert(le_value(a) == le_value(a.drop_last()) + l * pow256(n));
        assert(le_value(a.drop_last()) == a[0] + 256 * lx);
        assert(le_value(a.drop_first()) == lx + l * p);
        assert(256 * (lx + l * p) == 256 * lx + l * (256 * p)) by (nonlinear_arith);
        assert(l * pow256(n) == l * (256 * p));
        assert(le_value(a) == a[0] + 256 * le_value(a.drop_first()));
    } else {
        assert(a.drop_last() =~= Seq::<u8>::empty());
        assert(a.drop_first() =~= Seq::<u8>::empty());
        assert(a.last() == a[0]);
        assert(le_value(a) == le_value(a.drop_last()) + (a.last() as nat) * pow256(0));
        assert(le_value(a.drop_first()) == 0);
        assert(le_value(a.drop_last()) == 0);
        let l = a.last() as nat;
        let p0 = pow256(0);
        assert(p0 == 1);
        assert(l * p0 == l) by (nonlinear_arith)
            requires
                p0 == 1,
        ;
    }
}

proof fn lemma_le_value_bound(a: Seq<u8>)
    ensures
        le_value(a) < pow256(a.len()),
    decreases a.len(),
{
    if a.len() > 0 {
        let n = (a.len() - 1) as nat;
        lemma_le_value_bound(a.drop_last());
        let b = a.last() as int;
        let p = pow256(n) as int;
        let v = le_value(a.drop_last()) as int;
        assert(v + b * p < 256 * p) by (nonlinear_arith)
            requires
                0 <= v < p,
                0 <= b < 256,
        ;
    }
}

proof fn lemma_le_value_injective(a: Seq<u8>, b: Seq<u8>)
    requires
        a.len() == b.len(),
        le_value(a) == le_value(b),
    ensures
        a == b,
    decreases a.len(),
{
    if a.len() > 0 {
        lemma_le_value_first(a);
        lemma_le_value_first(b);
        let (x, y) = (a[0] as int, b[0] as int);
        let (u, w) = (le_value(a.drop_first()) as int, le_value(b.drop_first()) as int);
        assert(x == y && u == w) by (nonlinear_arith)
            requires
                0 <= x < 256,
                0 <= y < 256,
                0 <= u,
                0 <= w,
                x + 256 * u == y + 256 * w,
        ;
        lemma_le_value_injective(a.drop_first(), b.drop_first());
        assert(a =~= seq![a[0]] + a.drop_first());
        assert(b =~= seq![b[0]] + b.drop_first());
    }
}

/// The short-string encoding is canonical: under a tag that leaves the low
/// 48 bits clear, two literals of at most five bytes get the same immediate
/// only if they are the same bytes. That is what lets generated code decide
/// `===` between two short strings by comparing their bits.
pub proof fn lemma_sso_canonical(a: Seq<u8>, b: Seq<u8>, short_string_tag: u64)
    requires
        a.len() <= 5,
        b.len() <= 5,
        short_string_tag & 0xFFFF_FFFF_FFFF == 0,
        sso_spec(a, short_string_tag) == sso_spec(b, short_string_tag),
    ensures
        a == b,
{
    lemma_le_value_bound(a);
    lemma_le_value_bound(b);
    lemma_pow_mono(a.len(), 5);
    lemma_pow_mono(b.len(), 5);
    reveal_with_fuel(pow256, 6);
    let pa = le_value(a) as u64;
    let pb = le_value(b) as u64;
    let la = a.len() as u64;
    let lb = b.len() as u64;
    let t = short_string_tag;
    assert(pa < 0x100_0000_0000 && pb < 0x100_0000_0000);
    assert(((t | (la << 40u64) | pa) & 0xFF_FFFF_FFFF) == pa && ((t | (la << 40u64) | pa) >> 40u64)
        & 0xFF == la) by (bit_vector)
        requires
            t & 0xFFFF_FFFF_FFFF == 0,
            la <= 5,
            pa < 0x100_0000_0000,
    ;
    assert(((t | (lb << 40u64) | pb) & 0xFF_FFFF_FFFF) == pb && ((t | (lb << 40u64) | pb) >> 40u64)
        & 0xFF == lb) by (bit_vector)
        requires
            t & 0xFFFF_FFFF_FFFF == 0,
            lb <= 5,
            pb < 0x100_0000_0000,
    ;
    lemma_le_value_injective(a, b);
}

/// Offset of a heap string's payload from its `StringHeader`.
pub const STRING_HEADER_SIZE: usize = 20;

/// The checks inline `===` against a string literal of `n` bytes is built
/// from, after the pooled-pointer identity test and the heap-tag and
/// byte-length tests every literal gets.
#[derive(Clone, Copy, Debug, PartialEq, Eq, Structural)]
pub struct LiteralEqChecks {
    /// Compare against the literal's short-string immediate (`n <= 5`).
    pub sso: bool,
    /// Compare the first payload byte (`n >= 1`).
    pub first_byte: bool,
    /// Compare the last payload byte (`n >= 2`).
    pub last_byte: bool,
    /// Compare the one byte left between the endpoints (`n == 3`).
    pub middle_byte: bool,
    /// Hand a same-length, same-endpoints heap string to the runtime's
    /// content compare (`n >= 4`).
    pub content_compare: bool,
}

pub open spec fn literal_eq_checks_spec(n: nat) -> LiteralEqChecks {
    LiteralEqChecks {
        sso: n <= 5,
        first_byte: n >= 1,
        last_byte: n >= 2,
        middle_byte: n == 3,
        content_compare: n >= 4,
    }
}

/// The checks for a literal of `n` bytes: only the blocks a literal of this
/// length needs are built, since an empty block would fail the verifier.
pub fn literal_eq_checks(n: usize) -> (r: LiteralEqChecks)
    ensures
        r == literal_eq_checks_spec(n as nat),
{
    LiteralEqChecks {
        sso: n <= 5,
        first_byte: n >= 1,
        last_byte: n >= 2,
        middle_byte: n == 3,
        content_compare: n >= 4,
    }
}

/// The short-string check is built exactly for the literals that have a
/// short-string immediate, whatever the tag: those whose bytes fit in the
/// immediate's 40-bit payload, at most five of them.
pub proof fn lemma_sso_check_iff_immediate(b: Seq<u8>, short_string_tag: u64)
    ensures
        literal_eq_checks_spec(b.len()).sso == (sso_spec(b, short_string_tag) is Some),
        literal_eq_checks_spec(b.len()).sso == (8 * b.len() <= 40),
{
}

/// The payload bytes the inline checks compare, as `(offset from the
/// header, index into the literal)`, in the order they are tested.
pub open spec fn literal_byte_loads_spec(n: nat) -> Seq<(nat, nat)> {
    (if n >= 1 {
        seq![(STRING_HEADER_SIZE as nat, 0nat)]
    } else {
        Seq::empty()
    }) + (if n >= 2 {
        seq![((STRING_HEADER_SIZE + n - 1) as nat, (n - 1) as nat)]
    } else {
        Seq::empty()
    }) + (if n == 3 {
        seq![((STRING_HEADER_SIZE + 1) as nat, 1nat)]
    } else {
        Seq::empty()
    })
}

pub fn literal_byte_loads(n: usize) -> (r: Vec<(usize, usize)>)
    requires
        n <= usize::MAX - STRING_HEADER_SIZE,
    ensures
        r@.len() == literal_byte_loads_spec(n as nat).len(),
        forall|k: int|
            0 <= k < r@.len() ==> (#[trigger] r@[k]).0 as nat == literal_byte_loads_spec(
                n as nat,
            )[k].0 && r@[k].1 as nat == literal_byte_loads_spec(n as nat)[k].1,
{
    let mut r: Vec<(usize, usize)> = Vec::new();
    if n >= 1 {
        r.push((STRING_HEADER_SIZE, 0));
    }
    if n >= 2 {
        r.push((STRING_HEADER_SIZE + n - 1, n - 1));
    }
    if n == 3 {
        r.push((STRING_HEADER_SIZE + 1, 1));
    }
    r
}

/// Byte `i` of the literal is among those the inline checks compare.
pub open spec fn byte_compared_inline(n: nat, i: nat) -> bool {
    exists|k: int|
        0 <= k < literal_byte_loads_spec(n).len() && (#[trigger] literal_byte_loads_spec(n)[k]).1
            == i
}

/// The inline checks are exact: every byte they load lies inside the `n`
/// bytes the length check proved the header owns, and for a literal of at
/// most three bytes they compare every byte, so no such literal ever
/// reaches the runtime's content compare; a longer one always does.
pub proof fn lemma_inline_checks_decide_short_literals(n: nat)
    ensures
        forall|k: int|
            0 <= k < literal_byte_loads_spec(n).len() ==> (#[trigger] literal_byte_loads_spec(n)[k]).1
                < n && literal_byte_loads_spec(n)[k].0 == STRING_HEADER_SIZE
                + literal_byte_loads_spec(n)[k].1,
        n <= 3 ==> !literal_eq_checks_spec(n).content_compare && forall|i: nat|
            i < n ==> #[trigger] byte_compared_inline(n, i),
        n >= 4 ==> literal_eq_checks_spec(n).content_compare,
{
    let l = literal_byte_loads_spec(n);
    if n == 1 {
        assert(l[0].1 == 0);
    } else if n == 2 {
        assert(l[0].1 == 0 && l[1].1 == 1);
    } else if n == 3 {
        assert(l[0].1 == 0 && l[1].1 == 2 && l[2].1 == 1);
    }
    if n <= 3 {
        assert forall|i: nat| i < n implies #[trigger] byte_compared_inline(n, i) by {
            if i == 0 {
                assert(l[0].1 == i);
            } else if i == 1 && n == 2 {
                assert(l[1].1 == i);
            } else if i == 1 {
                assert(l[2].1 == i);
            } else {
                assert(l[1].1 == i);
            }
        }
    }
}

} // verus!
