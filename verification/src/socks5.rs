//! SOCKS5 ingress surface (RFC 1928 subset): greeting and request parsing,
//! and reply encoding.  Only `CONNECT` with no authentication is served;
//! IPv4, IPv6, and domain address types are read.
//!
//! The parsers work on the accumulated bytes an application has sent and
//! say how many bytes a complete message consumed; the surrounding
//! application does the socket reads and writes.

use vstd::prelude::*;

verus! {

use vstd::string::StringExecFns;
use vstd::utf8::{valid_utf8, decode_utf8};
use crate::frames::{u16_hi, u16_lo, u16_hi_exec, u16_lo_exec};
use crate::ipaddr::IpAddress;
use crate::text::{spec_dec_chars, u64_to_dec_string, string_from_utf8};

/// Protocol version byte.
pub const VERSION: u8 = 0x05;

/// No authentication required.
pub const AUTH_NONE: u8 = 0x00;

/// GSSAPI authentication.
pub const AUTH_GSSAPI: u8 = 0x01;

/// Username/password authentication.
pub const AUTH_PASSWORD: u8 = 0x02;

/// No acceptable authentication method.
pub const AUTH_NO_ACCEPTABLE: u8 = 0xFF;

/// CONNECT command.
pub const CMD_CONNECT: u8 = 0x01;

/// BIND command.
pub const CMD_BIND: u8 = 0x02;

/// UDP ASSOCIATE command.
pub const CMD_UDP_ASSOCIATE: u8 = 0x03;

/// IPv4 address type.
pub const ATYP_IPV4: u8 = 0x01;

/// Domain name address type.
pub const ATYP_DOMAIN: u8 = 0x03;

/// IPv6 address type.
pub const ATYP_IPV6: u8 = 0x04;

/// SOCKS5 reply codes.
#[derive(Debug, Clone, Copy, PartialEq, Eq, Structural)]
pub enum Reply {
    Success,
    GeneralFailure,
    NotAllowed,
    NetworkUnreachable,
    HostUnreachable,
    ConnectionRefused,
    TtlExpired,
    CommandNotSupported,
    AddressNotSupported,
}

impl Reply {
    /// The wire byte of this reply code.
    pub open spec fn spec_code(self) -> u8 {
        match self {
            Reply::Success => 0x00,
            Reply::GeneralFailure => 0x01,
            Reply::NotAllowed => 0x02,
            Reply::NetworkUnreachable => 0x03,
            Reply::HostUnreachable => 0x04,
            Reply::ConnectionRefused => 0x05,
            Reply::TtlExpired => 0x06,
            Reply::CommandNotSupported => 0x07,
            Reply::AddressNotSupported => 0x08,
        }
    }

    /// Executable wire byte of this reply code.
    pub fn code(&self) -> (r: u8)
        ensures
            r == self.spec_code(),
    {
        match self {
            Reply::Success => 0x00,
            Reply::GeneralFailure => 0x01,
            Reply::NotAllowed => 0x02,
            Reply::NetworkUnreachable => 0x03,
            Reply::HostUnreachable => 0x04,
            Reply::ConnectionRefused => 0x05,
            Reply::TtlExpired => 0x06,
            Reply::CommandNotSupported => 0x07,
            Reply::AddressNotSupported => 0x08,
        }
    }
}

/// A parsed CONNECT destination.
#[derive(Debug, Clone)]
pub struct ConnectRequest {
    pub host: String,
    pub port: u16,
}

/// Outcome of parsing the client greeting.
#[derive(Debug, Clone, Copy, PartialEq, Eq, Structural)]
pub enum GreetingParse {
    /// Not enough bytes buffered yet.
    Incomplete,
    /// The version byte is not 5.
    BadVersion,
    /// A complete greeting: whether the no-authentication method was
    /// offered, and how many bytes the greeting consumed.
    Done { no_auth: bool, consumed: usize },
}

/// The greeting `VER NMETHODS METHODS[..]` at the front of the buffer.
pub open spec fn spec_parse_greeting(b: Seq<u8>) -> GreetingParse {
    if b.len() < 2 {
        GreetingParse::Incomplete
    } else if b[0] != VERSION {
        GreetingParse::BadVersion
    } else if b.len() < 2 + b[1] {
        GreetingParse::Incomplete
    } else {
        GreetingParse::Done {
            no_auth: exists|i: int| 2 <= i < 2 + b[1] && #[trigger] b[i] == AUTH_NONE,
            consumed: (2 + b[1]) as usize,
        }
    }
}

/// Parse the client greeting at the front of the buffer.
pub fn parse_greeting(b: &[u8]) -> (r: GreetingParse)
    ensures
        r == spec_parse_greeting(b@),
{
    if b.len() < 2 {
        return GreetingParse::Incomplete;
    }
    if b[0] != VERSION {
        return GreetingParse::BadVersion;
    }
    let n: usize = b[1] as usize;
    if b.len() < 2 + n {
        return GreetingParse::Incomplete;
    }
    let mut i: usize = 2;
    while i < 2 + n
        invariant
            2 <= i <= 2 + n,
            n == b@[1],
            b@[0] == VERSION,
            b@.len() >= 2 + n,
            forall|j: int| 2 <= j < i ==> #[trigger] b@[j] != AUTH_NONE,
        decreases 2 + n - i,
    {
        if b[i] == AUTH_NONE {
            return GreetingParse::Done { no_auth: true, consumed: 2 + n };
        }
        i = i + 1;
    }
    GreetingParse::Done { no_auth: false, consumed: 2 + n }
}

/// The two-byte reply to a greeting: the chosen method, or the refusal.
pub fn greeting_reply(no_auth: bool) -> (r: Vec<u8>)
    ensures
        no_auth ==> r@ == seq![VERSION, AUTH_NONE],
        !no_auth ==> r@ == seq![VERSION, AUTH_NO_ACCEPTABLE],
{
    let mut v: Vec<u8> = Vec::new();
    v.push(VERSION);
    if no_auth {
        v.push(AUTH_NONE);
        proof {
            assert(v@ =~= seq![VERSION, AUTH_NONE]);
        }
    } else {
        v.push(AUTH_NO_ACCEPTABLE);
        proof {
            assert(v@ =~= seq![VERSION, AUTH_NO_ACCEPTABLE]);
        }
    }
    v
}

/// Outcome of parsing the CONNECT request.
#[derive(Debug, Clone, PartialEq, Eq)]
pub enum RequestParse {
    /// Not enough bytes buffered yet.
    Incomplete,
    /// The version byte is not 5.
    BadVersion,
    /// The command is not CONNECT.
    BadCommand,
    /// The address type is not IPv4, IPv6, or domain.
    BadAddressType,
    /// A domain name that is not valid UTF-8.
    BadHost,
    /// A complete request and how many bytes it consumed.
    Done { host: String, port: u16, consumed: usize },
}

/// The textual host of a request: the decoded domain, the dotted quad, or
/// the full-form lowercase hexadecimal IPv6 groups.
pub open spec fn spec_request_host(b: Seq<u8>) -> Seq<char> {
    if b[3] == ATYP_DOMAIN {
        decode_utf8(b.subrange(5, 5 + b[4]))
    } else if b[3] == ATYP_IPV4 {
        spec_ipv4_chars(b[4], b[5], b[6], b[7])
    } else {
        spec_ipv6_chars(b.subrange(4, 20))
    }
}

/// The dotted-quad text of four octets.
pub open spec fn spec_ipv4_chars(o0: u8, o1: u8, o2: u8, o3: u8) -> Seq<char> {
    spec_dec_chars(o0 as nat) + "."@ + spec_dec_chars(o1 as nat) + "."@ + spec_dec_chars(o2 as nat)
        + "."@ + spec_dec_chars(o3 as nat)
}

/// The lowercase hexadecimal digit characters of a number.
pub open spec fn spec_hex_chars(n: nat) -> Seq<char>
    decreases n,
{
    if n < 16 {
        seq![spec_hex_digit_char(n)]
    } else {
        spec_hex_chars(n / 16) + seq![spec_hex_digit_char(n % 16)]
    }
}

/// The character of one lowercase hexadecimal digit.
pub open spec fn spec_hex_digit_char(d: nat) -> char
    recommends
        d < 16,
{
    if d < 10 {
        ((48 + d) as u8) as char
    } else {
        ((87 + d) as u8) as char
    }
}

/// The full-form IPv6 text of sixteen address bytes: eight lowercase
/// hexadecimal groups joined by colons, without zero compression.
pub open spec fn spec_ipv6_chars(b: Seq<u8>) -> Seq<char>
    recommends
        b.len() == 16,
{
    spec_hex_chars((b[0] * 256 + b[1]) as nat) + ":"@ + spec_hex_chars((b[2] * 256 + b[3]) as nat)
        + ":"@ + spec_hex_chars((b[4] * 256 + b[5]) as nat) + ":"@ + spec_hex_chars(
        (b[6] * 256 + b[7]) as nat,
    ) + ":"@ + spec_hex_chars((b[8] * 256 + b[9]) as nat) + ":"@ + spec_hex_chars(
        (b[10] * 256 + b[11]) as nat,
    ) + ":"@ + spec_hex_chars((b[12] * 256 + b[13]) as nat) + ":"@ + spec_hex_chars(
        (b[14] * 256 + b[15]) as nat,
    )
}

/// How many bytes a complete request with the given address type takes.
pub open spec fn spec_request_len(b: Seq<u8>) -> int {
    if b[3] == ATYP_IPV4 {
        10
    } else if b[3] == ATYP_DOMAIN {
        7 + b[4]
    } else {
        22
    }
}

/// The outcome kind of parsing a request.
#[verifier::ext_equal]
pub ghost enum RequestParseKind {
    Incomplete,
    BadVersion,
    BadCommand,
    BadAddressType,
    BadHost,
    Done,
}

/// The outcome of the CONNECT request at the front of the buffer; a `Done`
/// outcome's fields are stated by `spec_request_host`, `spec_request_port`
/// and `spec_request_len`.
pub open spec fn spec_parse_request(b: Seq<u8>) -> RequestParseKind {
    if b.len() < 4 {
        RequestParseKind::Incomplete
    } else if b[0] != VERSION {
        RequestParseKind::BadVersion
    } else if b[1] != CMD_CONNECT {
        RequestParseKind::BadCommand
    } else if b[3] != ATYP_IPV4 && b[3] != ATYP_DOMAIN && b[3] != ATYP_IPV6 {
        RequestParseKind::BadAddressType
    } else if b[3] == ATYP_DOMAIN && b.len() < 5 {
        RequestParseKind::Incomplete
    } else if b.len() < spec_request_len(b) {
        RequestParseKind::Incomplete
    } else if b[3] == ATYP_DOMAIN && !valid_utf8(b.subrange(5, 5 + b[4])) {
        RequestParseKind::BadHost
    } else {
        RequestParseKind::Done
    }
}

/// The port of a complete request: the last two bytes, big-endian.
pub open spec fn spec_request_port(b: Seq<u8>) -> u16 {
    (b[spec_request_len(b) - 2] * 256 + b[spec_request_len(b) - 1]) as u16
}

/// Parse the CONNECT request at the front of the buffer.
pub fn parse_request(b: &[u8]) -> (r: RequestParse)
    ensures
        match r {
            RequestParse::Incomplete => spec_parse_request(b@) == RequestParseKind::Incomplete,
            RequestParse::BadVersion => spec_parse_request(b@) == RequestParseKind::BadVersion,
            RequestParse::BadCommand => spec_parse_request(b@) == RequestParseKind::BadCommand,
            RequestParse::BadAddressType => spec_parse_request(b@)
                == RequestParseKind::BadAddressType,
            RequestParse::BadHost => spec_parse_request(b@) == RequestParseKind::BadHost,
            RequestParse::Done { host, port, consumed } => {
                &&& spec_parse_request(b@) == RequestParseKind::Done
                &&& host@ == spec_request_host(b@)
                &&& port == spec_request_port(b@)
                &&& consumed == spec_request_len(b@)
            },
        },
{
    if b.len() < 4 {
        return RequestParse::Incomplete;
    }
    if b[0] != VERSION {
        return RequestParse::BadVersion;
    }
    if b[1] != CMD_CONNECT {
        return RequestParse::BadCommand;
    }
    let atyp: u8 = b[3];
    if atyp != ATYP_IPV4 && atyp != ATYP_DOMAIN && atyp != ATYP_IPV6 {
        return RequestParse::BadAddressType;
    }
    if atyp == ATYP_IPV4 {
        if b.len() < 10 {
            return RequestParse::Incomplete;
        }
        let host: String = ipv4_to_string(b[4], b[5], b[6], b[7]);
        let port: u16 = (b[8] as u16) * 256 + (b[9] as u16);
        RequestParse::Done { host, port, consumed: 10 }
    } else if atyp == ATYP_DOMAIN {
        if b.len() < 5 {
            return RequestParse::Incomplete;
        }
        let hlen: usize = b[4] as usize;
        if b.len() < 7 + hlen {
            return RequestParse::Incomplete;
        }
        let hb: &[u8] = vstd::slice::slice_subrange(b, 5, 5 + hlen);
        let mut hv: Vec<u8> = vstd::slice::slice_to_vec(hb);
        proof {
            assert(hv@ =~= b@.subrange(5, 5 + b@[4]));
        }
        let host: String = match string_from_utf8(hv) {
            Some(h) => h,
            None => {
                return RequestParse::BadHost;
            },
        };
        let port: u16 = (b[5 + hlen] as u16) * 256 + (b[6 + hlen] as u16);
        RequestParse::Done { host, port, consumed: 7 + hlen }
    } else {
        if b.len() < 22 {
            return RequestParse::Incomplete;
        }
        let ab: &[u8] = vstd::slice::slice_subrange(b, 4, 20);
        proof {
            assert(ab@ =~= b@.subrange(4, 20));
        }
        let host: String = ipv6_to_string(ab);
        let port: u16 = (b[20] as u16) * 256 + (b[21] as u16);
        RequestParse::Done { host, port, consumed: 22 }
    }
}

/// Render four octets as a dotted quad.
pub fn ipv4_to_string(o0: u8, o1: u8, o2: u8, o3: u8) -> (r: String)
    ensures
        r@ == spec_ipv4_chars(o0, o1, o2, o3),
{
    let mut s: String = u64_to_dec_string(o0 as u64);
    s.append(".");
    let t1 = u64_to_dec_string(o1 as u64);
    s.append(t1.as_str());
    s.append(".");
    let t2 = u64_to_dec_string(o2 as u64);
    s.append(t2.as_str());
    s.append(".");
    let t3 = u64_to_dec_string(o3 as u64);
    s.append(t3.as_str());
    proof {
        assert(s@ =~= spec_ipv4_chars(o0, o1, o2, o3));
    }
    s
}

/// The one-character string of one lowercase hexadecimal digit.
fn hex_digit_str(d: u64) -> (r: &'static str)
    requires
        d < 16,
    ensures
        r@ == seq![spec_hex_digit_char(d as nat)],
{
    proof {
        reveal_strlit("a");
        reveal_strlit("b");
        reveal_strlit("c");
        reveal_strlit("d");
        reveal_strlit("e");
        reveal_strlit("f");
    }
    if d < 10 {
        crate::text::digit_str(d)
    } else {
        match d {
            10 => "a",
            11 => "b",
            12 => "c",
            13 => "d",
            14 => "e",
            _ => "f",
        }
    }
}

/// Render a number as lowercase hexadecimal digits.
pub fn u64_to_hex_string(n: u64) -> (r: String)
    ensures
        r@ == spec_hex_chars(n as nat),
    decreases n,
{
    if n < 16 {
        let r = String::from_str(hex_digit_str(n));
        proof {
            assert(r@ =~= spec_hex_chars(n as nat));
        }
        r
    } else {
        let mut r: String = u64_to_hex_string(n / 16);
        r.append(hex_digit_str(n % 16));
        proof {
            assert(r@ =~= spec_hex_chars(n as nat));
        }
        r
    }
}

/// Render sixteen address bytes as full-form IPv6 text.
pub fn ipv6_to_string(b: &[u8]) -> (r: String)
    requires
        b@.len() == 16,
    ensures
        r@ == spec_ipv6_chars(b@),
{
    let mut s: String = u64_to_hex_string((b[0] as u64) * 256 + (b[1] as u64));
    s.append(":");
    let g1 = u64_to_hex_string((b[2] as u64) * 256 + (b[3] as u64));
    s.append(g1.as_str());
    s.append(":");
    let g2 = u64_to_hex_string((b[4] as u64) * 256 + (b[5] as u64));
    s.append(g2.as_str());
    s.append(":");
    let g3 = u64_to_hex_string((b[6] as u64) * 256 + (b[7] as u64));
    s.append(g3.as_str());
    s.append(":");
    let g4 = u64_to_hex_string((b[8] as u64) * 256 + (b[9] as u64));
    s.append(g4.as_str());
    s.append(":");
    let g5 = u64_to_hex_string((b[10] as u64) * 256 + (b[11] as u64));
    s.append(g5.as_str());
    s.append(":");
    let g6 = u64_to_hex_string((b[12] as u64) * 256 + (b[13] as u64));
    s.append(g6.as_str());
    s.append(":");
    let g7 = u64_to_hex_string((b[14] as u64) * 256 + (b[15] as u64));
    s.append(g7.as_str());
    proof {
        assert(s@ =~= spec_ipv6_chars(b@));
    }
    s
}

/// The big-endian bytes of a 32-bit value.
pub open spec fn spec_u32_be(x: u32) -> Seq<u8> {
    seq![
        (x / 0x1000000) as u8,
        ((x / 0x10000) % 256) as u8,
        ((x / 256) % 256) as u8,
        (x % 256) as u8,
    ]
}

/// The big-endian bytes of a 128-bit value.
pub open spec fn spec_u128_be(x: u128) -> Seq<u8> {
    Seq::new(16, |i: int| ((x >> (((15 - i) * 8) as u128)) & 0xff) as u8)
}

/// The wire bytes of a SOCKS5 reply: version, code, reserved, and the bound
/// address, `0.0.0.0:0` when none is known.
pub open spec fn spec_reply_bytes(reply: Reply, bound: Option<(IpAddress, u16)>) -> Seq<u8> {
    seq![VERSION, reply.spec_code(), 0u8] + match bound {
        None => seq![ATYP_IPV4, 0u8, 0u8, 0u8, 0u8, 0u8, 0u8],
        Some((IpAddress::V4(a), port)) => seq![ATYP_IPV4] + spec_u32_be(a) + seq![
            u16_hi(port),
            u16_lo(port),
        ],
        Some((IpAddress::V6(a), port)) => seq![ATYP_IPV6] + spec_u128_be(a) + seq![
            u16_hi(port),
            u16_lo(port),
        ],
    }
}

/// Encode a SOCKS5 reply.
pub fn encode_reply(reply: Reply, bound: Option<(IpAddress, u16)>) -> (r: Vec<u8>)
    ensures
        r@ == spec_reply_bytes(reply, bound),
{
    let mut v: Vec<u8> = Vec::new();
    v.push(VERSION);
    v.push(reply.code());
    v.push(0);
    match bound {
        None => {
            v.push(ATYP_IPV4);
            v.push(0);
            v.push(0);
            v.push(0);
            v.push(0);
            v.push(0);
            v.push(0);
            proof {
                assert(v@ =~= spec_reply_bytes(reply, bound));
            }
        },
        Some((IpAddress::V4(a), port)) => {
            v.push(ATYP_IPV4);
            v.push((a / 0x1000000) as u8);
            v.push(((a / 0x10000) % 256) as u8);
            v.push(((a / 256) % 256) as u8);
            v.push((a % 256) as u8);
            v.push(u16_hi_exec(port));
            v.push(u16_lo_exec(port));
            proof {
                assert(v@ =~= spec_reply_bytes(reply, bound));
            }
        },
        Some((IpAddress::V6(a), port)) => {
            v.push(ATYP_IPV6);
            let mut i: usize = 0;
            while i < 16
                invariant
                    0 <= i <= 16,
                    v@ =~= seq![VERSION, reply.spec_code(), 0u8, ATYP_IPV6] + spec_u128_be(
                        a,
                    ).take(i as int),
                decreases 16 - i,
            {
                let sh: u128 = ((15 - i) * 8) as u128;
                let byte: u8 = ((a >> sh) & 0xff) as u8;
                proof {
                    assert((a >> sh) & 0xff < 256) by (bit_vector);
                    assert(spec_u128_be(a).take(i as int + 1) =~= spec_u128_be(a).take(
                        i as int,
                    ).push(spec_u128_be(a)[i as int]));
                }
                v.push(byte);
                i = i + 1;
            }
            v.push(u16_hi_exec(port));
            v.push(u16_lo_exec(port));
            proof {
                assert(spec_u128_be(a).take(16) =~= spec_u128_be(a));
                assert(v@ =~= spec_reply_bytes(reply, bound));
            }
        },
    }
    v
}

} // verus!
