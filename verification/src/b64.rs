//! Standard base64 (RFC 4648, padded, canonical) modelled exactly.
//!
//! `spec_b64_encode` states the encoding byte for byte; the executable
//! encoder and the strict decoder are calls into the base64 crate, trusted
//! against this model.

use vstd::prelude::*;

verus! {

use vstd::string::StringSliceAdditionalSpecFns;
use vstd::utf8::encode_utf8;

/// The alphabet byte of one 6-bit group.
pub open spec fn b64_char(d: int) -> u8
    recommends
        0 <= d < 64,
{
    if 0 <= d < 26 {
        (65 + d) as u8
    } else if d < 52 {
        (97 + d - 26) as u8
    } else if d < 62 {
        (48 + d - 52) as u8
    } else if d == 62 {
        43
    } else {
        47
    }
}

/// The 6-bit value of one alphabet byte, or -1 when the byte is not in the
/// alphabet (the pad byte `=` is not).
pub open spec fn b64_val(c: u8) -> int {
    if 65 <= c <= 90 {
        c - 65
    } else if 97 <= c <= 122 {
        c - 97 + 26
    } else if 48 <= c <= 57 {
        c - 48 + 52
    } else if c == 43 {
        62
    } else if c == 47 {
        63
    } else {
        -1
    }
}

/// The alphabet maps 6-bit values to bytes injectively, avoiding both the
/// pad byte and the colon.
pub proof fn lemma_b64_char_val(d: int)
    requires
        0 <= d < 64,
    ensures
        b64_val(b64_char(d)) == d,
        b64_char(d) != 61,
        b64_char(d) != 58,
{
}

/// The padded standard base64 encoding of a byte sequence.
pub open spec fn spec_b64_encode(s: Seq<u8>) -> Seq<u8>
    decreases s.len(),
{
    if s.len() == 0 {
        Seq::empty()
    } else if s.len() == 1 {
        seq![b64_char(s[0] as int / 4), b64_char((s[0] as int % 4) * 16), 61, 61]
    } else if s.len() == 2 {
        seq![b64_char(s[0] as int / 4), b64_char((s[0] as int % 4) * 16 + s[1] as int / 16), b64_char((s[1] as int % 16) * 4), 61]
    } else {
        seq![
            b64_char(s[0] as int / 4),
            b64_char((s[0] as int % 4) * 16 + s[1] as int / 16),
            b64_char((s[1] as int % 16) * 4 + s[2] as int / 64),
            b64_char(s[2] as int % 64),
        ] + spec_b64_encode(s.skip(3))
    }
}

/// Strict, canonical base64 decoding: accepts exactly the strings that
/// `spec_b64_encode` produces (correct padding, no trailing bits, no bytes
/// outside the alphabet).
pub open spec fn spec_b64_decode(s: Seq<u8>) -> Option<Seq<u8>>
    decreases s.len(),
{
    if s.len() == 0 {
        Some(Seq::empty())
    } else if s.len() < 4 {
        None
    } else {
        let v0 = b64_val(s[0]);
        let v1 = b64_val(s[1]);
        if v0 < 0 || v1 < 0 {
            None
        } else if s.len() == 4 && s[2] == 61 && s[3] == 61 {
            if v1 % 16 == 0 {
                Some(seq![(v0 * 4 + v1 / 16) as u8])
            } else {
                None
            }
        } else if s.len() == 4 && s[3] == 61 {
            let v2 = b64_val(s[2]);
            if v2 >= 0 && v2 % 4 == 0 {
                Some(seq![(v0 * 4 + v1 / 16) as u8, ((v1 % 16) * 16 + v2 / 4) as u8])
            } else {
                None
            }
        } else {
            let v2 = b64_val(s[2]);
            let v3 = b64_val(s[3]);
            if v2 >= 0 && v3 >= 0 {
                match spec_b64_decode(s.skip(4)) {
                    Some(rest) => Some(
                        seq![
                            (v0 * 4 + v1 / 16) as u8,
                            ((v1 % 16) * 16 + v2 / 4) as u8,
                            ((v2 % 4) * 64 + v3) as u8,
                        ] + rest,
                    ),
                    None => None,
                }
            } else {
                None
            }
        }
    }
}

/// Decoding inverts encoding.
pub proof fn lemma_b64_roundtrip(s: Seq<u8>)
    ensures
        spec_b64_decode(spec_b64_encode(s)) == Some(s),
    decreases s.len(),
{
    let e = spec_b64_encode(s);
    if s.len() == 0 {
    } else if s.len() == 1 {
        lemma_b64_char_val(s[0] as int / 4);
        lemma_b64_char_val((s[0] as int % 4) * 16);
        assert(spec_b64_decode(e)->Some_0 =~= s);
    } else if s.len() == 2 {
        lemma_b64_char_val(s[0] as int / 4);
        lemma_b64_char_val((s[0] as int % 4) * 16 + s[1] as int / 16);
        lemma_b64_char_val((s[1] as int % 16) * 4);
        assert(spec_b64_decode(e)->Some_0 =~= s);
    } else {
        lemma_b64_char_val(s[0] as int / 4);
        lemma_b64_char_val((s[0] as int % 4) * 16 + s[1] as int / 16);
        lemma_b64_char_val((s[1] as int % 16) * 4 + s[2] as int / 64);
        lemma_b64_char_val(s[2] as int % 64);
        lemma_b64_roundtrip(s.skip(3));
        lemma_b64_encode_len(s.skip(3));
        assert(e.skip(4) =~= spec_b64_encode(s.skip(3)));
        assert(spec_b64_decode(e) is Some);
        assert(spec_b64_decode(e)->Some_0 =~= s);
    }
}

/// The encoding of a nonempty input is at least one quad long.
pub proof fn lemma_b64_encode_len(s: Seq<u8>)
    ensures
        s.len() == 0 ==> spec_b64_encode(s).len() == 0,
        s.len() > 0 ==> spec_b64_encode(s).len() >= 4,
    decreases s.len(),
{
    if s.len() > 3 {
        lemma_b64_encode_len(s.skip(3));
    }
}

/// No byte of an encoding is a colon.
pub proof fn lemma_b64_encode_no_colon(s: Seq<u8>)
    ensures
        forall|i: int|
            0 <= i < spec_b64_encode(s).len() ==> #[trigger] spec_b64_encode(s)[i] != 58,
    decreases s.len(),
{
    let e = spec_b64_encode(s);
    if s.len() == 0 {
    } else if s.len() == 1 {
        lemma_b64_char_val(s[0] as int / 4);
        lemma_b64_char_val((s[0] as int % 4) * 16);
    } else if s.len() == 2 {
        lemma_b64_char_val(s[0] as int / 4);
        lemma_b64_char_val((s[0] as int % 4) * 16 + s[1] as int / 16);
        lemma_b64_char_val((s[1] as int % 16) * 4);
    } else {
        lemma_b64_char_val(s[0] as int / 4);
        lemma_b64_char_val((s[0] as int % 4) * 16 + s[1] as int / 16);
        lemma_b64_char_val((s[1] as int % 16) * 4 + s[2] as int / 64);
        lemma_b64_char_val(s[2] as int % 64);
        lemma_b64_encode_no_colon(s.skip(3));
        assert forall|i: int| 0 <= i < e.len() implies #[trigger] e[i] != 58 by {
            if i >= 4 {
                assert(e[i] == spec_b64_encode(s.skip(3))[i - 4]);
            }
        }
    }
}

/// Encode bytes as padded standard base64.
///
/// Relies on the base64 crate's `STANDARD` engine: its `encode` emits the
/// RFC 4648 encoding with `=` padding, which `spec_b64_encode` states byte
/// for byte.
#[verifier::external_body]
pub fn b64_encode(data: &[u8]) -> (r: String)
    ensures
        encode_utf8(r@) == spec_b64_encode(data@),
        vstd::utf8::is_ascii_chars(r@),
{
    base64::Engine::encode(&base64::engine::general_purpose::STANDARD, data)
}

/// Decode padded standard base64 bytes.
///
/// Relies on the base64 crate's `STANDARD` engine: its `decode` requires
/// canonical padding and rejects nonzero trailing bits and bytes outside the
/// alphabet, so it accepts exactly the encodings `spec_b64_encode` produces,
/// which `spec_b64_decode` states byte for byte.
#[verifier::external_body]
pub fn b64_decode(data: &[u8]) -> (r: Option<Vec<u8>>)
    ensures
        r is Some <==> spec_b64_decode(data@) is Some,
        r is Some ==> r->0@ == spec_b64_decode(data@)->Some_0,
{
    match base64::Engine::decode(&base64::engine::general_purpose::STANDARD, data) {
        Ok(v) => Some(v),
        Err(_) => None,
    }
}

} // verus!
