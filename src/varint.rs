use vstd::prelude::*;

verus! {

/// `128` raised to the power `k`.
pub open spec fn pow128(k: nat) -> nat
    decreases k,
{
    if k == 0 {
        1
    } else {
        128 * pow128((k - 1) as nat)
    }
}

/// Base-128 little-endian encoding of `v`, high bit set on every byte but the last.
pub open spec fn varint(v: nat) -> Seq<u8>
    decreases v,
{
    if v < 128 {
        seq![v as u8]
    } else {
        seq![(v % 128 + 128) as u8] + varint(v / 128)
    }
}

/// Reads the varint byte `k` (counting from 0) at position `i` of `s`, with `acc`
/// holding the value of the bytes before it. At most ten bytes are read and the
/// tenth may only be 0 or 1, so the value always fits in 64 bits. Gives the value
/// and the position just past the varint.
pub open spec fn varint_from(s: Seq<u8>, i: int, k: nat, acc: nat) -> Option<(nat, int)>
    decreases 10 - k,
{
    if k >= 10 || i < 0 || i >= s.len() {
        None
    } else if k == 9 && s[i] > 1 {
        None
    } else if s[i] < 128 {
        Some((acc + (s[i] % 128) as nat * pow128(k), i + 1))
    } else {
        varint_from(s, i + 1, k + 1, acc + (s[i] % 128) as nat * pow128(k))
    }
}

/// The varint at position `i` of `s`: its value and the position after it.
pub open spec fn parse_varint(s: Seq<u8>, i: int) -> Option<(nat, int)> {
    varint_from(s, i, 0, 0)
}

proof fn lemma_pow128_facts(k: nat)
    requires
        k <= 9,
    ensures
        pow128(k) <= pow128(9),
        pow128(9) == 0x8000_0000_0000_0000,
        pow128(k) > 0,
    decreases 9 - k,
{
    reveal_with_fuel(pow128, 10);
    if k < 9 {
        lemma_pow128_facts(k + 1);
    }
}

proof fn lemma_varint_len(v: nat)
    ensures
        varint(v).len() >= 1,
    decreases v,
{
    if v >= 128 {
        lemma_varint_len(v / 128);
    }
}

/// A varint written at position `i` reads back as its value, given that the
/// value scaled by the bytes already read fits in 64 bits.
pub proof fn lemma_varint_read(v: nat, s: Seq<u8>, i: int, k: nat, acc: nat)
    requires
        k <= 9,
        0 <= i,
        i + varint(v).len() <= s.len(),
        s.subrange(i, i + varint(v).len()) == varint(v),
        v * pow128(k) < 0x1_0000_0000_0000_0000,
    ensures
        varint_from(s, i, k, acc) == Some((acc + v * pow128(k), i + varint(v).len())),
    decreases v,
{
    lemma_pow128_facts(k);
    let p = pow128(k);
    assert(s[i] == varint(v)[0]) by {
        assert(s.subrange(i, i + varint(v).len())[0] == s[i]);
    }
    if v < 128 {
        assert(s[i] == v as u8);
        if k == 9 {
            assert(v * p < 2 * p ==> v < 2) by (nonlinear_arith);
        }
    } else {
        assert(s[i] == (v % 128 + 128) as u8);
        if k == 9 {
            assert(v >= 128 && p > 0 ==> v * p >= 128 * p) by (nonlinear_arith);
            assert(false);
        }
        let w = v / 128;
        let rest = varint(w);
        assert(varint(v) == seq![(v % 128 + 128) as u8] + rest);
        assert(s.subrange(i + 1, i + 1 + rest.len()) == rest) by {
            assert(s.subrange(i + 1, i + 1 + rest.len()) =~= s.subrange(i, i + varint(v).len()).subrange(1, 1 + rest.len() as int));
            assert(varint(v).subrange(1, 1 + rest.len() as int) =~= rest);
        }
        assert(pow128(k + 1) == 128 * p);
        assert(w * (128 * p) <= v * p) by (nonlinear_arith)
            requires w == v / 128, p > 0;
        lemma_varint_read(w, s, i + 1, k + 1, acc + (v % 128) * p);
        assert(acc + (v % 128) * p + w * (128 * p) == acc + v * p) by (nonlinear_arith)
            requires w == v / 128;
    }
}

/// Appends the varint of `v` to `out`.
pub fn push_varint(out: &mut Vec<u8>, v: u64)
    ensures
        final(out)@ == old(out)@ + varint(v as nat),
{
    let mut cur: u64 = v;
    let ghost start = out@;
    while cur >= 128
        invariant
            start + varint(v as nat) == out@ + varint(cur as nat),
        decreases cur,
    {
        let ghost before = out@;
        out.push((cur % 128 + 128) as u8);
        proof {
            assert(varint(cur as nat) == seq![(cur % 128 + 128) as u8] + varint((cur / 128) as nat));
            assert(out@ + varint((cur / 128) as nat) =~= before + varint(cur as nat));
        }
        cur = cur / 128;
    }
    out.push(cur as u8);
    proof {
        assert(varint(cur as nat) == seq![cur as u8]);
        assert(out@ =~= start + varint(v as nat));
    }
}

/// Reads the varint at position `pos` of `s`, as `parse_varint` describes it.
pub fn read_varint(s: &[u8], pos: usize) -> (r: Option<(u64, usize)>)
    ensures
        match parse_varint(s@, pos as int) {
            Some((v, e)) => r matches Some((rv, re)) && rv as nat == v && re as int == e,
            None => r is None,
        },
        r matches Some((_, e)) ==> pos < e <= s@.len(),
{
    let mut i: usize = pos;
    let mut k: usize = 0;
    let mut acc: u64 = 0;
    let mut p: u64 = 1;
    proof {
        reveal_with_fuel(pow128, 1);
    }
    loop
        invariant
            k <= 9,
            i == pos + k,
            p as nat == pow128(k as nat),
            acc < p,
            parse_varint(s@, pos as int) == varint_from(s@, i as int, k as nat, acc as nat),
        decreases 10 - k,
    {
        proof {
            lemma_pow128_facts(k as nat);
        }
        if i >= s.len() {
            return None;
        }
        let b = s[i];
        if k == 9 && b > 1 {
            return None;
        }
        let low: u64 = (b % 128) as u64;
        assert(acc + low * p < 128 * p) by (nonlinear_arith)
            requires acc < p, low < 128;
        if k == 9 {
            assert(low <= 1);
            assert(acc + low * p < 0x1_0000_0000_0000_0000) by (nonlinear_arith)
                requires acc < p, low <= 1, p == 0x8000_0000_0000_0000u64;
        } else {
            proof {
                lemma_pow128_facts((k + 1) as nat);
                assert(pow128((k + 1) as nat) == 128 * pow128(k as nat));
            }
        }
        let next = acc + low * p;
        if b < 128 {
            return Some((next, i + 1));
        }
        acc = next;
        p = p * 128;
        i = i + 1;
        k = k + 1;
    }
}

} // verus!
