//! LEB128-style varints and zigzag, the two integer codings of the compact
//! root stream.
use vstd::prelude::*;

verus! {

/// The varint bytes of `v`: seven bits per byte, low group first, the high
/// bit set on every byte but the last.
pub open spec fn varint(v: nat) -> Seq<u8>
    decreases v,
{
    if v < 128 {
        seq![v as u8]
    } else {
        seq![(v % 128 + 128) as u8] + varint(v / 128)
    }
}

pub open spec fn pow128(i: nat) -> nat
    decreases i,
{
    if i == 0 {
        1
    } else {
        128 * pow128((i - 1) as nat)
    }
}

/// Read the varint whose `i`-th byte is at `at`: the value contributed by
/// this byte and the ones after it, and the position after the last byte.
///
/// Byte `i` contributes its low seven bits shifted left by `7 i`; the tenth
/// byte (`i == 9`) lands at bit 63, so only its lowest bit survives. A varint
/// that has not ended after ten bytes does not decode.
pub open spec fn read_varint_from(b: Seq<u8>, at: nat, i: nat) -> Option<(nat, nat)>
    decreases 10 - i,
{
    if i >= 10 || at >= b.len() {
        None
    } else {
        let byte = b[at as int];
        let low: nat = if i < 9 {
            (byte % 128) as nat * pow128(i)
        } else {
            (byte % 2) as nat * 0x8000_0000_0000_0000
        };
        if byte < 128 {
            Some((low, at + 1))
        } else if i == 9 {
            None
        } else {
            match read_varint_from(b, at + 1, i + 1) {
                Some((v, n)) => Some((low + v, n)),
                None => None,
            }
        }
    }
}

/// The varint at `at`: its value and the position after it.
pub open spec fn read_varint_spec(b: Seq<u8>, at: nat) -> Option<(nat, nat)> {
    read_varint_from(b, at, 0)
}

/// Zigzag: `0, -1, 1, -2, ...` to `0, 1, 2, 3, ...`.
pub open spec fn zigzag_spec(v: int) -> nat {
    if v >= 0 {
        (2 * v) as nat
    } else {
        (-2 * v - 1) as nat
    }
}

/// The inverse of zigzag.
pub open spec fn unzigzag_spec(u: nat) -> int {
    if u % 2 == 0 {
        (u / 2) as int
    } else {
        -((u / 2) as int) - 1
    }
}

pub proof fn lemma_pow128_values()
    ensures
        pow128(9) == 0x8000_0000_0000_0000,
        pow128(8) == 0x100_0000_0000_0000,
{
    reveal_with_fuel(pow128, 10);
}

pub proof fn lemma_pow128_mono(a: nat, b: nat)
    requires
        a <= b,
    ensures
        1 <= pow128(a) <= pow128(b),
    decreases b,
{
    if a < b {
        lemma_pow128_mono(a, (b - 1) as nat);
    } else if a > 0 {
        lemma_pow128_mono((a - 1) as nat, (a - 1) as nat);
    }
}

/// Reading the varint of `v` gives back `v`, wherever it stands and whatever
/// follows it.
pub proof fn lemma_read_varint_of(b: Seq<u8>, at: nat, i: nat, v: nat)
    requires
        i <= 9,
        v < 2 * pow128((9 - i) as nat),
        at + varint(v).len() <= b.len(),
        b.subrange(at as int, (at + varint(v).len()) as int) == varint(v),
    ensures
        read_varint_from(b, at, i) == Some((v * pow128(i), at + varint(v).len())),
    decreases v,
{
    assert(b[at as int] == varint(v)[0]);
    if v < 128 {
        assert(varint(v).len() == 1);
        if i == 9 {
            lemma_pow128_values();
            assert(pow128(0) == 1);
            assert(v < 2);
            assert((v as u8 % 2) as nat == v);
        } else {
            assert((v as u8 % 128) as nat == v);
        }
    } else {
        if i == 9 {
            assert(pow128(0) == 1);
            assert(false);
        }
        let rest = varint(v / 128);
        assert(varint(v) == seq![(v % 128 + 128) as u8] + rest);
        assert(varint(v).len() == 1 + rest.len());
        assert(varint(v).subrange(1, (1 + rest.len()) as int) =~= rest);
        assert(b.subrange((at + 1) as int, (at + 1 + rest.len()) as int) =~= b.subrange(
            at as int,
            (at + varint(v).len()) as int,
        ).subrange(1, (1 + rest.len()) as int));
        assert(pow128((9 - i) as nat) == 128 * pow128((9 - (i + 1)) as nat));
        assert(v / 128 < 2 * pow128((9 - (i + 1)) as nat));
        lemma_read_varint_of(b, at + 1, i + 1, v / 128);
        let byte = (v % 128 + 128) as u8;
        assert(byte % 128 == v % 128);
        assert(pow128(i + 1) == 128 * pow128(i));
        assert((v % 128) * pow128(i) + (v / 128) * pow128(i + 1) == v * pow128(i)) by (nonlinear_arith)
            requires
                pow128(i + 1) == 128 * pow128(i),
        ;
    }
}

/// `push_varint`: append the varint bytes of `value`.
pub fn push_varint(out: &mut Vec<u8>, value: u64)
    ensures
        final(out)@ == old(out)@ + varint(value as nat),
        final(out)@.len() == old(out)@.len() + if value == 0 {
            1
        } else {
            (bit_len(value as nat) + 6) / 7
        },
{
    proof {
        lemma_varint_len(value as nat);
    }
    let mut v = value;
    let ghost start = out@;
    while v >= 0x80
        invariant
            out@ + varint(v as nat) == start + varint(value as nat),
        decreases v,
    {
        let ghost before = out@;
        let ghost vv = v as nat;
        assert(varint(vv) == seq![(vv % 128 + 128) as u8] + varint(vv / 128));
        out.push((v % 128 + 128) as u8);
        v = v / 128;
        assert(out@ + varint(v as nat) =~= before + varint(vv));
    }
    out.push(v as u8);
    assert(out@ =~= start + varint(value as nat));
}

/// `zigzag`: map a signed delta to an unsigned one so that small negative
/// deltas stay small.
pub fn zigzag(value: i32) -> (r: u64)
    ensures
        r == zigzag_spec(value as int),
        r < 0x1_0000_0000,
{
    if value >= 0 {
        (value as u64) * 2
    } else {
        ((-(value as i64)) as u64) * 2 - 1
    }
}

/// `unzigzag`: the inverse of [`zigzag`] on 32-bit values.
pub fn unzigzag(value: u32) -> (r: i32)
    ensures
        r == unzigzag_spec(value as nat),
{
    if value % 2 == 0 {
        (value / 2) as i32
    } else {
        -((value / 2) as i32) - 1
    }
}

/// Unzigzag undoes zigzag for every `i32`.
pub proof fn lemma_unzigzag_zigzag(v: i32)
    ensures
        zigzag_spec(v as int) < 0x1_0000_0000,
        unzigzag_spec(zigzag_spec(v as int)) == v,
{
}

/// Zigzag undoes unzigzag for every `u32`.
pub proof fn lemma_zigzag_unzigzag(u: u32)
    ensures
        zigzag_spec(unzigzag_spec(u as nat)) == u,
{
}

/// `read_varint`: the varint at `at` and the position after it. At most ten
/// bytes are read; a value that has not ended by then does not decode.
pub fn read_varint(bytes: &[u8], at: usize) -> (r: Option<(u64, usize)>)
    ensures
        match r {
            Some((v, n)) => read_varint_spec(bytes@, at as nat) == Some((v as nat, n as nat)),
            None => read_varint_spec(bytes@, at as nat) is None,
        },
{
    proof {
        lemma_pow128_values();
    }
    let len = bytes.len();
    let mut value: u64 = 0;
    let mut mult: u64 = 1;
    let mut i: usize = 0;
    let mut pos = at;
    loop
        invariant
            i <= 9,
            len == bytes@.len(),
            mult as nat == pow128(i as nat),
            value < pow128(i as nat),
            pow128(9) == 0x8000_0000_0000_0000,
            read_varint_spec(bytes@, at as nat) == match read_varint_from(
                bytes@,
                pos as nat,
                i as nat,
            ) {
                Some((v, n)) => Some(((value + v) as nat, n)),
                None => None,
            },
        decreases 10 - i,
    {
        proof {
            lemma_pow128_mono(i as nat, 9);
        }
        if pos >= len {
            return None;
        }
        let byte = bytes[pos];
        let low: u64 = if i < 9 {
            proof {
                lemma_pow128_mono(i as nat, 8);
                assert((byte % 128) as nat * pow128(i as nat) <= 127 * pow128(8)) by (nonlinear_arith)
                    requires
                        pow128(i as nat) <= pow128(8),
                        byte % 128 <= 127,
                ;
            }
            (byte % 128) as u64 * mult
        } else {
            (byte % 2) as u64 * 0x8000_0000_0000_0000
        };
        proof {
            if i < 9 {
                assert(pow128((i + 1) as nat) == 128 * pow128(i as nat));
                assert(value + low < pow128((i + 1) as nat)) by (nonlinear_arith)
                    requires
                        value < pow128(i as nat),
                        low == (byte % 128) as nat * pow128(i as nat),
                        byte % 128 <= 127,
                        pow128((i + 1) as nat) == 128 * pow128(i as nat),
                ;
            }
        }
        if byte < 128 {
            return Some((value + low, pos + 1));
        }
        if i == 9 {
            return None;
        }
        value = value + low;
        mult = mult * 128;
        pos = pos + 1;
        i = i + 1;
    }
}

/// The number of significant bits of `v`: `64 - v.leading_zeros()` for a
/// `u64`, and 0 for 0.
pub open spec fn bit_len(v: nat) -> nat
    decreases v,
{
    if v == 0 {
        0
    } else {
        1 + bit_len(v / 2)
    }
}

proof fn lemma_bit_len_small(v: nat)
    requires
        1 <= v < 128,
    ensures
        1 <= bit_len(v) <= 7,
{
    let v1 = v / 2;
    let v2 = v1 / 2;
    let v3 = v2 / 2;
    let v4 = v3 / 2;
    let v5 = v4 / 2;
    let v6 = v5 / 2;
    let v7 = v6 / 2;
    assert(v7 == 0);
    assert(bit_len(v7) == 0);
    assert(bit_len(v6) <= 1);
    assert(bit_len(v5) <= 2);
    assert(bit_len(v4) <= 3);
    assert(bit_len(v3) <= 4);
    assert(bit_len(v2) <= 5);
    assert(bit_len(v1) <= 6);
}

proof fn lemma_bit_len_div128(v: nat)
    requires
        v >= 128,
    ensures
        bit_len(v) == 7 + bit_len(v / 128),
{
    let v1 = v / 2;
    let v2 = v1 / 2;
    let v3 = v2 / 2;
    let v4 = v3 / 2;
    let v5 = v4 / 2;
    let v6 = v5 / 2;
    let v7 = v6 / 2;
    assert(v7 == v / 128);
    assert(v1 >= 1 && v2 >= 1 && v3 >= 1 && v4 >= 1 && v5 >= 1 && v6 >= 1);
    assert(bit_len(v6) == 1 + bit_len(v7));
    assert(bit_len(v5) == 1 + bit_len(v6));
    assert(bit_len(v4) == 1 + bit_len(v5));
    assert(bit_len(v3) == 1 + bit_len(v4));
    assert(bit_len(v2) == 1 + bit_len(v3));
    assert(bit_len(v1) == 1 + bit_len(v2));
}

/// A varint takes one byte per started group of seven significant bits, and
/// one byte for zero: `max(1, ⌈bit_len(v) / 7⌉)`.
pub proof fn lemma_varint_len(v: nat)
    ensures
        varint(v).len() == if v == 0 {
            1
        } else {
            (bit_len(v) + 6) / 7
        },
    decreases v,
{
    if v >= 128 {
        lemma_varint_len(v / 128);
        lemma_bit_len_div128(v);
        assert(v / 128 >= 1);
    } else if v >= 1 {
        lemma_bit_len_small(v);
    }
}

} // verus!
