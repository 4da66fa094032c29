//! IP addresses and CIDR networks as plain values, with exact parsing.
//!
//! Addresses are held as integers: 32 bits for IPv4, 128 bits for IPv6.
//! IPv4 text is the dotted quad, each octet 1 to 3 decimal digits without
//! leading zeros.  IPv6 text is colon-separated hexadecimal groups of 1 to 4
//! digits, with at most one `::` standing for the missing zero groups;
//! dotted-quad tails are not accepted.  A network is `address "/" prefix`.

use vstd::prelude::*;

verus! {

use crate::text::{spec_split, spec_all_digits, spec_parse_dec, split_bytes, parse_dec_bytes};

/// An IP address as a plain integer value.
#[derive(Debug, Clone, Copy, PartialEq, Eq, Structural)]
pub enum IpAddress {
    V4(u32),
    V6(u128),
}

/// A CIDR network: an address and a prefix length.
#[derive(Debug, Clone, Copy, PartialEq, Eq, Structural)]
pub enum IpNetwork {
    V4(u32, u8),
    V6(u128, u8),
}

impl IpNetwork {
    /// A network's prefix fits its address family.
    pub open spec fn wf(self) -> bool {
        match self {
            IpNetwork::V4(_, p) => p <= 32,
            IpNetwork::V6(_, p) => p <= 128,
        }
    }
}

/// The value of one hexadecimal digit byte, or -1.
pub open spec fn spec_hex_val(c: u8) -> int {
    if 48 <= c <= 57 {
        c - 48
    } else if 97 <= c <= 102 {
        c - 97 + 10
    } else if 65 <= c <= 70 {
        c - 65 + 10
    } else {
        -1
    }
}

/// Whether every byte is a hexadecimal digit.
pub open spec fn spec_all_hex(s: Seq<u8>) -> bool {
    forall|i: int| 0 <= i < s.len() ==> spec_hex_val(#[trigger] s[i]) >= 0
}

/// The value of a sequence of hexadecimal digit bytes.
pub open spec fn spec_hex_value(s: Seq<u8>) -> int
    decreases s.len(),
{
    if s.len() == 0 {
        0
    } else {
        spec_hex_value(s.drop_last()) * 16 + spec_hex_val(s.last())
    }
}

/// A 16-bit group: 1 to 4 hexadecimal digits.
pub open spec fn spec_parse_hex16(s: Seq<u8>) -> Option<u16> {
    if 1 <= s.len() <= 4 && spec_all_hex(s) {
        Some(spec_hex_value(s) as u16)
    } else {
        None
    }
}

/// Sixteen to a power.
pub open spec fn pow16(n: nat) -> int
    decreases n,
{
    if n == 0 {
        1
    } else {
        16 * pow16((n - 1) as nat)
    }
}

proof fn lemma_pow16_pos(n: nat)
    ensures
        pow16(n) > 0,
    decreases n,
{
    if n > 0 {
        lemma_pow16_pos((n - 1) as nat);
    }
}

/// The power of sixteen grows with the exponent.
pub proof fn lemma_pow16_le(a: nat, b: nat)
    requires
        a <= b,
    ensures
        0 < pow16(a) <= pow16(b),
    decreases b,
{
    lemma_pow16_pos(a);
    if a < b {
        lemma_pow16_le(a, (b - 1) as nat);
    }
}

/// The value of hexadecimal digits is bounded by the digit count.
pub proof fn lemma_hex_value_bound(s: Seq<u8>)
    requires
        spec_all_hex(s),
    ensures
        0 <= spec_hex_value(s),
        spec_hex_value(s) < pow16(s.len()),
    decreases s.len(),
{
    if s.len() > 0 {
        assert(spec_all_hex(s.drop_last()));
        lemma_hex_value_bound(s.drop_last());
        assert(pow16(s.len()) == 16 * pow16((s.len() - 1) as nat));
    }
}

/// Parse a 16-bit hexadecimal group.
pub fn parse_hex16(s: &[u8]) -> (r: Option<u16>)
    ensures
        r == spec_parse_hex16(s@),
{
    let n: usize = s.len();
    if n < 1 || n > 4 {
        return None;
    }
    let mut acc: u32 = 0;
    let mut i: usize = 0;
    while i < n
        invariant
            0 <= i <= n,
            n == s@.len(),
            n <= 4,
            spec_all_hex(s@.take(i as int)),
            acc == spec_hex_value(s@.take(i as int)),
            acc < 65536,
        decreases n - i,
    {
        let c: u8 = s[i];
        let d: u32 = if 48 <= c && c <= 57 {
            (c - 48) as u32
        } else if 97 <= c && c <= 102 {
            (c - 97 + 10) as u32
        } else if 65 <= c && c <= 70 {
            (c - 65 + 10) as u32
        } else {
            proof {
                assert(spec_hex_val(s@[i as int]) < 0);
            }
            return None;
        };
        proof {
            assert(s@.take(i as int + 1).drop_last() =~= s@.take(i as int));
            assert(s@.take(i as int + 1).last() == s@[i as int]);
            lemma_hex_value_bound(s@.take(i as int + 1));
            assert(pow16(4) == 65536) by {
                assert(pow16(0) == 1);
                assert(pow16(1) == 16);
                assert(pow16(2) == 256);
                assert(pow16(3) == 4096);
            }
            lemma_pow16_le((i + 1) as nat, 4);
        }
        acc = acc * 16 + d;
        i = i + 1;
    }
    proof {
        assert(s@.take(n as int) =~= s@);
    }
    Some(acc as u16)
}

/// The 128-bit value of a full sequence of 16-bit groups, most significant
/// first.
pub open spec fn spec_groups_val(gs: Seq<u16>) -> int
    decreases gs.len(),
{
    if gs.len() == 0 {
        0
    } else {
        spec_groups_val(gs.drop_last()) * 65536 + gs.last()
    }
}

/// Sixty-five thousand five hundred thirty-six to a power.
pub open spec fn pow65536(n: nat) -> int
    decreases n,
{
    if n == 0 {
        1
    } else {
        65536 * pow65536((n - 1) as nat)
    }
}

proof fn lemma_pow65536_pos(n: nat)
    ensures
        pow65536(n) > 0,
    decreases n,
{
    if n > 0 {
        lemma_pow65536_pos((n - 1) as nat);
    }
}

/// The power grows with the exponent.
pub proof fn lemma_pow65536_le(a: nat, b: nat)
    requires
        a <= b,
    ensures
        0 < pow65536(a) <= pow65536(b),
    decreases b,
{
    lemma_pow65536_pos(a);
    if a < b {
        lemma_pow65536_le(a, (b - 1) as nat);
    }
}

/// The value of a group sequence is bounded by the group count.
pub proof fn lemma_groups_val_bound(gs: Seq<u16>)
    ensures
        0 <= spec_groups_val(gs),
        spec_groups_val(gs) < pow65536(gs.len()),
    decreases gs.len(),
{
    if gs.len() > 0 {
        lemma_groups_val_bound(gs.drop_last());
        assert(pow65536(gs.len()) == 65536 * pow65536((gs.len() - 1) as nat));
    }
}

/// The groups of one side of an IPv6 literal: colon-separated 16-bit
/// hexadecimal groups; an empty side holds no groups.
pub open spec fn spec_parse_groups(s: Seq<u8>) -> Option<Seq<u16>> {
    if s.len() == 0 {
        Some(Seq::empty())
    } else {
        let parts = spec_split(s, 58);
        if forall|i: int| 0 <= i < parts.len() ==> spec_parse_hex16(#[trigger] parts[i]) is Some {
            Some(Seq::new(parts.len(), |i: int| spec_parse_hex16(parts[i])->Some_0))
        } else {
            None
        }
    }
}

/// Parse one side of an IPv6 literal into its groups.
pub fn parse_groups(s: &[u8]) -> (r: Option<Vec<u16>>)
    ensures
        r is Some <==> spec_parse_groups(s@) is Some,
        r is Some ==> r->0@ == spec_parse_groups(s@)->Some_0,
{
    if s.len() == 0 {
        let v: Vec<u16> = Vec::new();
        proof {
            assert(v@ =~= spec_parse_groups(s@)->Some_0);
        }
        return Some(v);
    }
    let parts: Vec<Vec<u8>> = split_bytes(s, 58);
    let mut out: Vec<u16> = Vec::new();
    let mut i: usize = 0;
    let n: usize = parts.len();
    while i < n
        invariant
            0 <= i <= n,
            n == parts@.len(),
            s@.len() > 0,
            n == spec_split(s@, 58).len(),
            forall|k: int| 0 <= k < n ==> #[trigger] parts@[k]@ == spec_split(s@, 58)[k],
            forall|k: int| 0 <= k < i ==> spec_parse_hex16(#[trigger] spec_split(s@, 58)[k])
                is Some,
            out@.len() == i,
            forall|k: int| 0 <= k < i ==> #[trigger] out@[k] == spec_parse_hex16(
                spec_split(s@, 58)[k],
            )->Some_0,
        decreases n - i,
    {
        let g: u16 = match parse_hex16(parts[i].as_slice()) {
            Some(g) => g,
            None => {
                return None;
            },
        };
        out.push(g);
        i = i + 1;
    }
    proof {
        assert(out@ =~= spec_parse_groups(s@)->Some_0);
    }
    Some(out)
}

/// Index of the first `::`, or the length when there is none.
pub open spec fn spec_find_dcolon(b: Seq<u8>) -> int
    decreases b.len(),
{
    if b.len() < 2 {
        b.len() as int
    } else if b[0] == 58 && b[1] == 58 {
        0
    } else {
        1 + spec_find_dcolon(b.drop_first())
    }
}

proof fn lemma_find_dcolon_at(b: Seq<u8>, i: int)
    requires
        0 <= i,
        i + 1 < b.len(),
        forall|j: int| 0 <= j < i ==> !((#[trigger] b[j]) == 58 && b[j + 1] == 58),
        b[i] == 58 && b[i + 1] == 58,
    ensures
        spec_find_dcolon(b) == i,
    decreases i,
{
    if i > 0 {
        assert forall|j: int| 0 <= j < i - 1 implies !((#[trigger] b.drop_first()[j]) == 58
            && b.drop_first()[j + 1] == 58) by {
            assert(b.drop_first()[j] == b[j + 1]);
            assert(b.drop_first()[j + 1] == b[j + 2]);
        }
        assert(b.drop_first()[i - 1] == b[i]);
        assert(b.drop_first()[i] == b[i + 1]);
        lemma_find_dcolon_at(b.drop_first(), i - 1);
    }
}

proof fn lemma_find_dcolon_none(b: Seq<u8>)
    requires
        forall|j: int| 0 <= j && j + 1 < b.len() ==> !((#[trigger] b[j]) == 58 && b[j + 1] == 58),
    ensures
        spec_find_dcolon(b) >= b.len() - 1,
    decreases b.len(),
{
    if b.len() >= 2 {
        assert forall|j: int| 0 <= j && j + 1 < b.drop_first().len() implies !((
        #[trigger] b.drop_first()[j]) == 58 && b.drop_first()[j + 1] == 58) by {
            assert(b.drop_first()[j] == b[j + 1]);
            assert(b.drop_first()[j + 1] == b[j + 2]);
        }
        lemma_find_dcolon_none(b.drop_first());
    }
}

/// Find the first `::` in a byte slice.
pub fn find_dcolon(b: &[u8]) -> (r: Option<usize>)
    ensures
        match r {
            Some(i) => i == spec_find_dcolon(b@) && i + 1 < b@.len(),
            None => spec_find_dcolon(b@) + 1 >= b@.len(),
        },
{
    let n: usize = b.len();
    if n < 2 {
        proof {
            if n == 1 {
                lemma_find_dcolon_none(b@);
            }
        }
        return None;
    }
    let mut i: usize = 0;
    while i + 1 < n
        invariant
            0 <= i,
            i + 1 <= n,
            n == b@.len(),
            forall|j: int| 0 <= j < i ==> !((#[trigger] b@[j]) == 58 && b@[j + 1] == 58),
        decreases n - i,
    {
        if b[i] == 58 && b[i + 1] == 58 {
            proof {
                lemma_find_dcolon_at(b@, i as int);
            }
            return Some(i);
        }
        i = i + 1;
    }
    proof {
        lemma_find_dcolon_none(b@);
    }
    None
}

/// The IPv6 address of a byte string, if it is a well-formed literal.
pub open spec fn spec_parse_ipv6(s: Seq<u8>) -> Option<u128> {
    let d = spec_find_dcolon(s);
    if d + 1 < s.len() {
        spec_parse_ipv6_compressed(s.take(d), s.skip(d + 2))
    } else {
        match spec_parse_groups(s) {
            Some(gs) => if gs.len() == 8 {
                Some(spec_groups_val(gs) as u128)
            } else {
                None
            },
            None => None,
        }
    }
}

/// The IPv6 address of a compressed literal, from the group lists left and
/// right of the `::`.
pub open spec fn spec_parse_ipv6_compressed(left: Seq<u8>, right: Seq<u8>) -> Option<u128> {
    match (spec_parse_groups(left), spec_parse_groups(right)) {
        (Some(lg), Some(rg)) => if lg.len() + rg.len() <= 7 {
            Some(
                spec_groups_val(
                    lg + Seq::new((8 - lg.len() - rg.len()) as nat, |i: int| 0u16) + rg,
                ) as u128,
            )
        } else {
            None
        },
        _ => None,
    }
}

/// Parse an IPv6 literal.
pub fn parse_ipv6(s: &[u8]) -> (r: Option<u128>)
    ensures
        r == spec_parse_ipv6(s@),
{
    match find_dcolon(s) {
        Some(d) => {
            let slen: usize = s.len();
            let left: &[u8] = vstd::slice::slice_subrange(s, 0, d);
            let right: &[u8] = vstd::slice::slice_subrange(s, d + 2, slen);
            proof {
                assert(left@ =~= s@.take(d as int));
                assert(right@ =~= s@.skip(d as int + 2));
            }
            let lg: Vec<u16> = match parse_groups(left) {
                Some(g) => g,
                None => {
                    return None;
                },
            };
            let rg: Vec<u16> = match parse_groups(right) {
                Some(g) => g,
                None => {
                    return None;
                },
            };
            if lg.len() > 7 {
                return None;
            }
            if rg.len() > 7 - lg.len() {
                return None;
            }
            let mut full: Vec<u16> = lg;
            let miss: usize = 8 - full.len() - rg.len();
            let mut k: usize = 0;
            while k < miss
                invariant
                    0 <= k <= miss,
                    full@ =~= spec_parse_groups(s@.take(spec_find_dcolon(s@)))->Some_0 + Seq::new(
                        k as nat,
                        |i: int| 0u16,
                    ),
                decreases miss - k,
            {
                full.push(0);
                proof {
                    assert(Seq::new((k + 1) as nat, |i: int| 0u16) =~= Seq::new(
                        k as nat,
                        |i: int| 0u16,
                    ).push(0u16));
                }
                k = k + 1;
            }
            let mut j: usize = 0;
            let rn: usize = rg.len();
            while j < rn
                invariant
                    0 <= j <= rn,
                    rn == rg@.len(),
                    full@ =~= spec_parse_groups(s@.take(spec_find_dcolon(s@)))->Some_0 + Seq::new(
                        (8 - spec_parse_groups(s@.take(spec_find_dcolon(s@)))->Some_0.len()
                            - rg@.len()) as nat,
                        |i: int| 0u16,
                    ) + rg@.take(j as int),
                decreases rn - j,
            {
                full.push(rg[j]);
                proof {
                    assert(rg@.take(j as int + 1) =~= rg@.take(j as int).push(rg@[j as int]));
                }
                j = j + 1;
            }
            proof {
                assert(rg@.take(rg@.len() as int) =~= rg@);
            }
            Some(groups_to_u128(&full))
        },
        None => {
            let gs: Vec<u16> = match parse_groups(s) {
                Some(g) => g,
                None => {
                    return None;
                },
            };
            if gs.len() != 8 {
                return None;
            }
            Some(groups_to_u128(&gs))
        },
    }
}

/// Fold a full group sequence into its 128-bit value.
fn groups_to_u128(gs: &Vec<u16>) -> (r: u128)
    requires
        gs@.len() <= 8,
    ensures
        r == spec_groups_val(gs@),
{
    let mut acc: u128 = 0;
    let mut i: usize = 0;
    let n: usize = gs.len();
    while i < n
        invariant
            0 <= i <= n,
            n == gs@.len(),
            n <= 8,
            acc == spec_groups_val(gs@.take(i as int)),
            acc < pow65536(i as nat),
        decreases n - i,
    {
        proof {
            assert(gs@.take(i as int + 1).drop_last() =~= gs@.take(i as int));
            assert(gs@.take(i as int + 1).last() == gs@[i as int]);
            assert(pow65536(8) == 0x1_0000_0000_0000_0000_0000_0000_0000_0000) by {
                assert(pow65536(0) == 1);
                assert(pow65536(1) == 0x1_0000);
                assert(pow65536(2) == 0x1_0000_0000);
                assert(pow65536(3) == 0x1_0000_0000_0000);
                assert(pow65536(4) == 0x1_0000_0000_0000_0000);
                assert(pow65536(5) == 0x1_0000_0000_0000_0000_0000);
                assert(pow65536(6) == 0x1_0000_0000_0000_0000_0000_0000);
                assert(pow65536(7) == 0x1_0000_0000_0000_0000_0000_0000_0000);
            }
            lemma_pow65536_le((i + 1) as nat, 8);
            lemma_groups_val_bound(gs@.take(i as int + 1));
        }
        acc = acc * 65536 + (gs[i] as u128);
        i = i + 1;
    }
    proof {
        assert(gs@.take(n as int) =~= gs@);
    }
    acc
}

/// One IPv4 octet: 1 to 3 decimal digits, no leading zeros, at most 255.
pub open spec fn spec_parse_octet(s: Seq<u8>) -> Option<u8> {
    if 1 <= s.len() <= 3 && spec_all_digits(s) && (s.len() == 1 || s[0] != 48)
        && spec_parse_dec(s) is Some && spec_parse_dec(s)->Some_0 <= 255 {
        Some(spec_parse_dec(s)->Some_0 as u8)
    } else {
        None
    }
}

/// Parse one IPv4 octet.
pub fn parse_octet(s: &[u8]) -> (r: Option<u8>)
    ensures
        r == spec_parse_octet(s@),
{
    let n: usize = s.len();
    if n < 1 || n > 3 {
        return None;
    }
    if n > 1 && s[0] == 48 {
        return None;
    }
    match parse_dec_bytes(s) {
        Some(v) => if v <= 255 {
            Some(v as u8)
        } else {
            None
        },
        None => None,
    }
}

/// The IPv4 address of a byte string, if it is a dotted quad.
pub open spec fn spec_parse_ipv4(s: Seq<u8>) -> Option<u32> {
    let parts = spec_split(s, 46);
    if parts.len() == 4 && (forall|i: int|
        0 <= i < 4 ==> spec_parse_octet(#[trigger] parts[i]) is Some) {
        Some(
            (spec_parse_octet(parts[0])->Some_0 * 0x1000000 + spec_parse_octet(
                parts[1],
            )->Some_0 * 0x10000 + spec_parse_octet(parts[2])->Some_0 * 0x100 + spec_parse_octet(
                parts[3],
            )->Some_0) as u32,
        )
    } else {
        None
    }
}

/// Parse an IPv4 dotted quad.
pub fn parse_ipv4(s: &[u8]) -> (r: Option<u32>)
    ensures
        r == spec_parse_ipv4(s@),
{
    let parts: Vec<Vec<u8>> = split_bytes(s, 46);
    if parts.len() != 4 {
        return None;
    }
    let o0: u8 = match parse_octet(parts[0].as_slice()) {
        Some(o) => o,
        None => {
            return None;
        },
    };
    let o1: u8 = match parse_octet(parts[1].as_slice()) {
        Some(o) => o,
        None => {
            return None;
        },
    };
    let o2: u8 = match parse_octet(parts[2].as_slice()) {
        Some(o) => o,
        None => {
            return None;
        },
    };
    let o3: u8 = match parse_octet(parts[3].as_slice()) {
        Some(o) => o,
        None => {
            return None;
        },
    };
    Some(
        (o0 as u32) * 0x1000000 + (o1 as u32) * 0x10000 + (o2 as u32) * 0x100 + (o3 as u32),
    )
}

/// The address of a byte string: IPv4 if it parses as a dotted quad, else
/// IPv6.
pub open spec fn spec_parse_ip(s: Seq<u8>) -> Option<IpAddress> {
    match spec_parse_ipv4(s) {
        Some(v) => Some(IpAddress::V4(v)),
        None => match spec_parse_ipv6(s) {
            Some(v) => Some(IpAddress::V6(v)),
            None => None,
        },
    }
}

/// Parse an IP address literal.
pub fn parse_ip(s: &[u8]) -> (r: Option<IpAddress>)
    ensures
        r == spec_parse_ip(s@),
{
    match parse_ipv4(s) {
        Some(v) => Some(IpAddress::V4(v)),
        None => match parse_ipv6(s) {
            Some(v) => Some(IpAddress::V6(v)),
            None => None,
        },
    }
}

/// The network of a byte string: `address "/" prefix`, with the prefix at
/// most the family's bit width.
pub open spec fn spec_parse_network(s: Seq<u8>) -> Option<IpNetwork> {
    let i = crate::text::spec_find(s, 47);
    if 0 <= i < s.len() {
        let addr = s.take(i);
        let pfx = s.skip(i + 1);
        if spec_parse_dec(pfx) is Some && spec_all_digits(pfx) && pfx.len() >= 1 {
            let p = spec_parse_dec(pfx)->Some_0;
            match spec_parse_ip(addr) {
                Some(IpAddress::V4(v)) => if p <= 32 {
                    Some(IpNetwork::V4(v, p as u8))
                } else {
                    None
                },
                Some(IpAddress::V6(v)) => if p <= 128 {
                    Some(IpNetwork::V6(v, p as u8))
                } else {
                    None
                },
                None => None,
            }
        } else {
            None
        }
    } else {
        None
    }
}

/// Parse a CIDR network literal.
pub fn parse_network(s: &[u8]) -> (r: Option<IpNetwork>)
    ensures
        r == spec_parse_network(s@),
        r is Some ==> r->0.wf(),
{
    let i: usize = match crate::text::find_byte(s, 47) {
        Some(i) => i,
        None => {
            return None;
        },
    };
    let slen: usize = s.len();
    let addr: &[u8] = vstd::slice::slice_subrange(s, 0, i);
    let pfx: &[u8] = vstd::slice::slice_subrange(s, i + 1, slen);
    proof {
        assert(addr@ =~= s@.take(i as int));
        assert(pfx@ =~= s@.skip(i as int + 1));
    }
    let p: u64 = match parse_dec_bytes(pfx) {
        Some(p) => p,
        None => {
            return None;
        },
    };
    match parse_ip(addr) {
        Some(IpAddress::V4(v)) => if p <= 32 {
            Some(IpNetwork::V4(v, p as u8))
        } else {
            None
        },
        Some(IpAddress::V6(v)) => if p <= 128 {
            Some(IpNetwork::V6(v, p as u8))
        } else {
            None
        },
        None => None,
    }
}

/// Whether a network contains an address: they are of the same family and
/// agree on the prefix bits.
pub open spec fn spec_network_contains(net: IpNetwork, ip: IpAddress) -> bool {
    match (net, ip) {
        (IpNetwork::V4(n, p), IpAddress::V4(a)) => p == 0 || (p <= 32 && (n >> (32 - p) as u32)
            == (a >> (32 - p) as u32)),
        (IpNetwork::V6(n, p), IpAddress::V6(a)) => p == 0 || (p <= 128 && (n >> (128 - p) as u128)
            == (a >> (128 - p) as u128)),
        _ => false,
    }
}

/// Decide whether a network contains an address.
pub fn network_contains(net: &IpNetwork, ip: &IpAddress) -> (r: bool)
    requires
        net.wf(),
    ensures
        r == spec_network_contains(*net, *ip),
{
    match (net, ip) {
        (IpNetwork::V4(n, p), IpAddress::V4(a)) => {
            if *p == 0 {
                true
            } else {
                let sh: u32 = (32 - *p) as u32;
                (*n >> sh) == (*a >> sh)
            }
        },
        (IpNetwork::V6(n, p), IpAddress::V6(a)) => {
            if *p == 0 {
                true
            } else {
                let sh: u128 = (128 - *p) as u128;
                (*n >> sh) == (*a >> sh)
            }
        },
        _ => false,
    }
}

} // verus!
