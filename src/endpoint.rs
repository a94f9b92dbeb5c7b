use vstd::prelude::*;

verus! {

/// A stable 128-bit peer identity: the MD5 digest of the peer's endpoint
/// text, read as a big-endian number.
pub type PeerId = u128;

/// A peer address with its IP normalised to the 16-octet IPv6 form (an IPv4
/// address is stored IPv4-mapped), held as a big-endian number.
#[derive(Debug, Clone, Copy, PartialEq, Eq, Structural, Hash)]
pub struct Endpoint {
    pub ip: u128,
    pub port: u16,
}

/// The IPv4-mapped IPv6 form `::ffff:a.b.c.d` of an IPv4 address.
pub open spec fn ipv4_mapped(octets: Seq<u8>) -> u128 {
    (0xffff_0000_0000u128 + octets[0] as u128 * 0x100_0000 + octets[1] as u128 * 0x1_0000
        + octets[2] as u128 * 0x100 + octets[3] as u128) as u128
}

impl Endpoint {
    /// An endpoint for an IPv6 address given as its 128-bit value.
    pub fn from_ipv6(ip: u128, port: u16) -> (r: Endpoint)
        ensures
            r == (Endpoint { ip, port }),
    {
        Endpoint { ip, port }
    }

    /// An endpoint for an IPv4 address, stored in its IPv4-mapped IPv6 form.
    pub fn from_ipv4(octets: [u8; 4], port: u16) -> (r: Endpoint)
        ensures
            r == (Endpoint { ip: ipv4_mapped(octets@), port }),
    {
        let ip: u128 = 0xffff_0000_0000u128 + octets[0] as u128 * 0x100_0000 + octets[1] as u128
            * 0x1_0000 + octets[2] as u128 * 0x100 + octets[3] as u128;
        Endpoint { ip, port }
    }
}

// ---------------------------------------------------------------------------
// Text form of an endpoint: "<ipv6>:<port>", the IPv6 part as std prints it
// ---------------------------------------------------------------------------

/// Group `k` (0 = most significant) of the eight 16-bit groups of `ip`.
pub open spec fn group(ip: u128, k: int) -> u16 {
    ((ip >> ((16 * (7 - k)) as u128)) & 0xffff) as u16
}

/// Octet `k` (0 = most significant) of the low 32 bits of `ip`.
pub open spec fn low_octet(ip: u128, k: int) -> u8 {
    ((ip >> ((8 * (3 - k)) as u128)) & 0xff) as u8
}

/// ASCII digit for `d < 16`, lower case.
pub open spec fn digit(d: nat) -> u8 {
    if d < 10 {
        (48 + d) as u8
    } else {
        (87 + d) as u8
    }
}

/// Decimal text of `v`, without leading zeros.
pub open spec fn dec_text(v: nat) -> Seq<u8>
    decreases v,
{
    if v < 10 {
        seq![digit(v)]
    } else {
        dec_text(v / 10).push(digit(v % 10))
    }
}

/// Lower-case hexadecimal text of `v`, without leading zeros.
pub open spec fn hex_text(v: nat) -> Seq<u8>
    decreases v,
{
    if v < 16 {
        seq![digit(v)]
    } else {
        hex_text(v / 16).push(digit(v % 16))
    }
}

/// Groups `lo..hi` of `ip` in hexadecimal, separated by colons.
pub open spec fn groups_text(ip: u128, lo: int, hi: int) -> Seq<u8>
    decreases hi - lo,
{
    if hi <= lo {
        seq![]
    } else if hi == lo + 1 {
        hex_text(group(ip, lo) as nat)
    } else {
        groups_text(ip, lo, hi - 1).push(58u8) + hex_text(group(ip, hi - 1) as nat)
    }
}

/// Scans groups `k..8` for runs of zero groups; `(cs, cl)` is the run in
/// progress and `(bs, bl)` the longest so far, the earliest on ties. Gives the
/// start and length of the longest run.
pub open spec fn zero_run_from(ip: u128, k: int, cs: int, cl: int, bs: int, bl: int) -> (int, int)
    decreases 8 - k,
{
    if k >= 8 {
        (bs, bl)
    } else if group(ip, k) == 0 {
        let ns = if cl == 0 {
            k
        } else {
            cs
        };
        let nl = cl + 1;
        if nl > bl {
            zero_run_from(ip, k + 1, ns, nl, ns, nl)
        } else {
            zero_run_from(ip, k + 1, ns, nl, bs, bl)
        }
    } else {
        zero_run_from(ip, k + 1, 0, 0, bs, bl)
    }
}

/// Whether `ip` is an IPv4-mapped address `::ffff:a.b.c.d`.
pub open spec fn is_ipv4_mapped(ip: u128) -> bool {
    ip >> 32u128 == 0xffffu128
}

/// The text of an IPv6 address: the dotted IPv4 form after `::ffff:` for a
/// mapped address; otherwise the groups in hexadecimal, with the longest run
/// of two or more zero groups (the first of equal ones) written `::`.
pub open spec fn ipv6_text(ip: u128) -> Seq<u8> {
    if is_ipv4_mapped(ip) {
        seq![58u8, 58u8, 102u8, 102u8, 102u8, 102u8, 58u8] + dec_text(low_octet(ip, 0) as nat).push(
            46u8,
        ) + dec_text(low_octet(ip, 1) as nat).push(46u8) + dec_text(low_octet(ip, 2) as nat).push(
            46u8,
        ) + dec_text(low_octet(ip, 3) as nat)
    } else {
        let (s, l) = zero_run_from(ip, 0, 0, 0, 0, 0);
        if l > 1 {
            groups_text(ip, 0, s) + seq![58u8, 58u8] + groups_text(ip, s + l, 8)
        } else {
            groups_text(ip, 0, 8)
        }
    }
}

/// The text `"<ipv6>:<port>"` from which an endpoint's identity is derived.
pub open spec fn endpoint_text(e: Endpoint) -> Seq<u8> {
    ipv6_text(e.ip).push(58u8) + dec_text(e.port as nat)
}

fn push_dec(out: &mut Vec<u8>, v: u64)
    ensures
        final(out)@ == old(out)@ + dec_text(v as nat),
    decreases v,
{
    if v >= 10 {
        push_dec(out, v / 10);
    }
    let d: u8 = (48 + v % 10) as u8;
    out.push(d);
    proof {
        assert(d == digit((v % 10) as nat));
        assert(final(out)@ =~= old(out)@ + dec_text(v as nat));
    }
}

fn push_hex(out: &mut Vec<u8>, v: u64)
    ensures
        final(out)@ == old(out)@ + hex_text(v as nat),
    decreases v,
{
    if v >= 16 {
        push_hex(out, v / 16);
    }
    let r = v % 16;
    let d: u8 = if r < 10 {
        (48 + r) as u8
    } else {
        (87 + r) as u8
    };
    out.push(d);
    proof {
        assert(d == digit((v % 16) as nat));
        assert(final(out)@ =~= old(out)@ + hex_text(v as nat));
    }
}

fn group_of(ip: u128, k: u32) -> (r: u16)
    requires
        k < 8,
    ensures
        r == group(ip, k as int),
{
    ((ip >> ((16 * (7 - k)) as u128)) & 0xffff) as u16
}

fn push_groups(out: &mut Vec<u8>, ip: u128, lo: u32, hi: u32)
    requires
        lo <= hi <= 8,
    ensures
        final(out)@ == old(out)@ + groups_text(ip, lo as int, hi as int),
{
    let mut k: u32 = lo;
    while k < hi
        invariant
            lo <= k <= hi <= 8,
            out@ == old(out)@ + groups_text(ip, lo as int, k as int),
        decreases hi - k,
    {
        let ghost before = out@;
        if k > lo {
            out.push(58u8);
        }
        push_hex(out, group_of(ip, k) as u64);
        proof {
            assert(out@ =~= old(out)@ + groups_text(ip, lo as int, k + 1));
        }
        k = k + 1;
    }
}

fn push_ipv6(out: &mut Vec<u8>, ip: u128)
    ensures
        final(out)@ == old(out)@ + ipv6_text(ip),
{
    if ip >> 32u128 == 0xffffu128 {
        let ghost start = out@;
        let ghost prefix = seq![58u8, 58u8, 102u8, 102u8, 102u8, 102u8, 58u8];
        out.push(58u8);
        out.push(58u8);
        out.push(102u8);
        out.push(102u8);
        out.push(102u8);
        out.push(102u8);
        out.push(58u8);
        assert(out@ =~= start + prefix);
        let mut j: u32 = 0;
        while j < 4
            invariant
                j <= 4,
                out@ == start + prefix + (if j == 0 {
                    seq![]
                } else if j == 1 {
                    dec_text(low_octet(ip, 0) as nat).push(46u8)
                } else if j == 2 {
                    dec_text(low_octet(ip, 0) as nat).push(46u8) + dec_text(
                        low_octet(ip, 1) as nat,
                    ).push(46u8)
                } else if j == 3 {
                    dec_text(low_octet(ip, 0) as nat).push(46u8) + dec_text(
                        low_octet(ip, 1) as nat,
                    ).push(46u8) + dec_text(low_octet(ip, 2) as nat).push(46u8)
                } else {
                    dec_text(low_octet(ip, 0) as nat).push(46u8) + dec_text(
                        low_octet(ip, 1) as nat,
                    ).push(46u8) + dec_text(low_octet(ip, 2) as nat).push(46u8) + dec_text(
                        low_octet(ip, 3) as nat,
                    )
                }),
            decreases 4 - j,
        {
            let octet: u8 = #[verifier::truncate] (((ip >> ((8 * (3 - j)) as u128)) & 0xff) as u8);
            assert(octet == low_octet(ip, j as int));
            push_dec(out, octet as u64);
            if j < 3 {
                out.push(46u8);
            }
            proof {
                if j == 0 {
                    assert(out@ =~= start + prefix + dec_text(low_octet(ip, 0) as nat).push(46u8));
                } else if j == 1 {
                    assert(out@ =~= start + prefix + (dec_text(low_octet(ip, 0) as nat).push(46u8)
                        + dec_text(low_octet(ip, 1) as nat).push(46u8)));
                } else if j == 2 {
                    assert(out@ =~= start + prefix + (dec_text(low_octet(ip, 0) as nat).push(46u8)
                        + dec_text(low_octet(ip, 1) as nat).push(46u8) + dec_text(
                        low_octet(ip, 2) as nat,
                    ).push(46u8)));
                } else {
                    assert(out@ =~= start + prefix + (dec_text(low_octet(ip, 0) as nat).push(46u8)
                        + dec_text(low_octet(ip, 1) as nat).push(46u8) + dec_text(
                        low_octet(ip, 2) as nat,
                    ).push(46u8) + dec_text(low_octet(ip, 3) as nat)));
                }
            }
            j = j + 1;
        }
        proof {
            assert(out@ =~= start + ipv6_text(ip));
        }
    } else {
        let mut k: u32 = 0;
        let mut cs: u32 = 0;
        let mut cl: u32 = 0;
        let mut bs: u32 = 0;
        let mut bl: u32 = 0;
        while k < 8
            invariant
                k <= 8,
                cs <= k,
                cs + cl <= k,
                bs + bl <= k,
                zero_run_from(ip, 0, 0, 0, 0, 0) == zero_run_from(
                    ip,
                    k as int,
                    cs as int,
                    cl as int,
                    bs as int,
                    bl as int,
                ),
            decreases 8 - k,
        {
            if group_of(ip, k) == 0 {
                if cl == 0 {
                    cs = k;
                }
                cl = cl + 1;
                if cl > bl {
                    bs = cs;
                    bl = cl;
                }
            } else {
                cs = 0;
                cl = 0;
            }
            k = k + 1;
        }
        if bl > 1 {
            push_groups(out, ip, 0, bs);
            out.push(58u8);
            out.push(58u8);
            let ghost mid = out@;
            push_groups(out, ip, bs + bl, 8);
            proof {
                assert(final(out)@ =~= old(out)@ + ipv6_text(ip));
            }
        } else {
            push_groups(out, ip, 0, 8);
        }
    }
}

/// The text `"<ipv6>:<port>"` of an endpoint, as ASCII bytes.
pub fn endpoint_text_bytes(e: &Endpoint) -> (r: Vec<u8>)
    ensures
        r@ == endpoint_text(*e),
{
    let mut out: Vec<u8> = Vec::new();
    push_ipv6(&mut out, e.ip);
    out.push(58u8);
    push_dec(&mut out, e.port as u64);
    assert(out@ =~= endpoint_text(*e));
    out
}


// ---------------------------------------------------------------------------
// Identity
// ---------------------------------------------------------------------------

/// The MD5 digest of a byte sequence.
pub uninterp spec fn md5_digest(data: Seq<u8>) -> Seq<u8>;

/// Relies on `md5::compute`: the 16-byte MD5 digest of the bytes given, which
/// depends on those bytes alone.
#[verifier::external_body]
fn md5_of(data: &[u8]) -> (r: [u8; 16])
    ensures
        r@ == md5_digest(data@),
{
    md5::compute(data).0
}

/// `256` raised to the power `k`.
pub open spec fn pow256(k: nat) -> nat
    decreases k,
{
    if k == 0 {
        1
    } else {
        256 * pow256((k - 1) as nat)
    }
}

/// The number whose big-endian bytes are `b`.
pub open spec fn be_value(b: Seq<u8>) -> nat
    decreases b.len(),
{
    if b.len() == 0 {
        0
    } else {
        be_value(b.drop_last()) * 256 + b.last() as nat
    }
}

/// The identity of an endpoint: its text's MD5 digest read as a big-endian number.
pub open spec fn identity_of(e: Endpoint) -> PeerId {
    be_value(md5_digest(endpoint_text(e))) as u128
}

proof fn lemma_pow256_step(k: nat)
    requires
        k < 16,
    ensures
        pow256(k + 1) == 256 * pow256(k),
        pow256(k + 1) <= pow256(16),
        pow256(16) == 0x1_0000_0000_0000_0000_0000_0000_0000_0000,
    decreases 16 - k,
{
    reveal_with_fuel(pow256, 17);
    if k + 1 < 16 {
        lemma_pow256_step(k + 1);
    }
}

/// The number whose big-endian bytes are `b`.
pub fn from_be_bytes(b: [u8; 16]) -> (r: u128)
    ensures
        r as nat == be_value(b@),
{
    let mut acc: u128 = 0;
    let mut k: usize = 0;
    proof {
        reveal_with_fuel(pow256, 1);
        assert(b@.subrange(0, 0) =~= seq![]);
    }
    while k < 16
        invariant
            k <= 16,
            b@.len() == 16,
            acc as nat == be_value(b@.subrange(0, k as int)),
            (acc as nat) < pow256(k as nat),
        decreases 16 - k,
    {
        proof {
            lemma_pow256_step(k as nat);
            assert(b@.subrange(0, k + 1).drop_last() =~= b@.subrange(0, k as int));
            let p = pow256(k as nat);
            assert((acc as nat) * 256 + (b[k as int] as nat) < 256 * p) by (nonlinear_arith)
                requires (acc as nat) < p, (b[k as int] as nat) < 256;
        }
        acc = acc * 256 + b[k] as u128;
        k = k + 1;
    }
    assert(b@.subrange(0, 16) =~= b@);
    acc
}

/// The identity of an endpoint: MD5 of its text `"<ipv6>:<port>"`, read as a
/// big-endian 128-bit number.
pub fn identity_from_endpoint(e: &Endpoint) -> (r: PeerId)
    ensures
        r == identity_of(*e),
{
    let text = endpoint_text_bytes(e);
    let digest = md5_of(text.as_slice());
    from_be_bytes(digest)
}

/// The identity depends on the normalised address and the port alone: an
/// IPv4 endpoint and the endpoint of its IPv4-mapped IPv6 address share it.
pub proof fn lemma_identity_normalized(octets: Seq<u8>, port: u16)
    requires
        octets.len() == 4,
    ensures
        forall|e: Endpoint|
            e.ip == ipv4_mapped(octets) && e.port == port ==> #[trigger] identity_of(e)
                == identity_of(Endpoint { ip: ipv4_mapped(octets), port }),
{
    assert forall|e: Endpoint|
        e.ip == ipv4_mapped(octets) && e.port == port implies #[trigger] identity_of(e)
            == identity_of(Endpoint { ip: ipv4_mapped(octets), port }) by {
        assert(e == Endpoint { ip: ipv4_mapped(octets), port });
    }
}

} // verus!
