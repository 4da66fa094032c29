//! Small text utilities: decimal rendering and parsing, byte splitting, and
//! UTF-8 decoding, with exact specifications.

use vstd::prelude::*;

verus! {

use vstd::string::StringExecFns;
use vstd::utf8::{valid_utf8, decode_utf8, encode_utf8, encode_scalar, has_width_1_encoding};

/// The decimal digit bytes of a natural number, most significant first.
pub open spec fn spec_dec_bytes(n: nat) -> Seq<u8>
    decreases n,
{
    if n < 10 {
        seq![(48 + n) as u8]
    } else {
        spec_dec_bytes(n / 10) + seq![(48 + n % 10) as u8]
    }
}

/// The numeric value of a sequence of decimal digit bytes.
pub open spec fn spec_dec_value(s: Seq<u8>) -> int
    decreases s.len(),
{
    if s.len() == 0 {
        0
    } else {
        spec_dec_value(s.drop_last()) * 10 + (s.last() - 48)
    }
}

/// Whether every byte of the sequence is an ASCII decimal digit.
pub open spec fn spec_all_digits(s: Seq<u8>) -> bool {
    forall|i: int| 0 <= i < s.len() ==> 48 <= #[trigger] s[i] <= 57
}

/// The `u64` a sequence of bytes parses to as unsigned decimal, if any.
pub open spec fn spec_parse_dec(s: Seq<u8>) -> Option<u64> {
    if s.len() > 0 && spec_all_digits(s) && spec_dec_value(s) <= u64::MAX {
        Some(spec_dec_value(s) as u64)
    } else {
        None
    }
}

/// Decimal digit bytes are digits.
pub proof fn lemma_dec_bytes_digits(n: nat)
    ensures
        spec_dec_bytes(n).len() > 0,
        spec_all_digits(spec_dec_bytes(n)),
    decreases n,
{
    if n >= 10 {
        lemma_dec_bytes_digits(n / 10);
    }
}

/// Rendering a number in decimal and parsing the digits back yields the
/// number.
pub proof fn lemma_dec_roundtrip(n: u64)
    ensures
        spec_parse_dec(spec_dec_bytes(n as nat)) == Some(n),
{
    lemma_dec_bytes_digits(n as nat);
    lemma_dec_value_of_bytes(n as nat);
}

proof fn lemma_dec_value_of_bytes(n: nat)
    ensures
        spec_dec_value(spec_dec_bytes(n)) == n,
    decreases n,
{
    if n < 10 {
        let s = spec_dec_bytes(n);
        assert(s =~= seq![(48 + n) as u8]);
        assert(s.drop_last() =~= Seq::<u8>::empty());
        assert(spec_dec_value(Seq::<u8>::empty()) == 0);
        assert(spec_dec_value(s) == spec_dec_value(s.drop_last()) * 10 + (s.last() - 48));
    } else {
        lemma_dec_value_of_bytes(n / 10);
        let s = spec_dec_bytes(n);
        assert(s.drop_last() =~= spec_dec_bytes(n / 10));
        assert(s.last() == (48 + n % 10) as u8);
        assert(spec_dec_value(s) == spec_dec_value(s.drop_last()) * 10 + (s.last() - 48));
    }
}

/// Render a number as decimal digit bytes.
pub fn u64_to_dec_bytes(n: u64) -> (r: Vec<u8>)
    ensures
        r@ == spec_dec_bytes(n as nat),
    decreases n,
{
    if n < 10 {
        let mut v: Vec<u8> = Vec::new();
        v.push(48 + (n as u8));
        proof {
            assert(v@ =~= spec_dec_bytes(n as nat));
        }
        v
    } else {
        let mut v: Vec<u8> = u64_to_dec_bytes(n / 10);
        v.push(48 + ((n % 10) as u8));
        proof {
            assert(v@ =~= spec_dec_bytes(n as nat));
        }
        v
    }
}

/// Parse an unsigned decimal number from bytes.
pub fn parse_dec_bytes(s: &[u8]) -> (r: Option<u64>)
    ensures
        r == spec_parse_dec(s@),
{
    if s.len() == 0 {
        return None;
    }
    let mut acc: u64 = 0;
    let mut i: usize = 0;
    while i < s.len()
        invariant
            0 <= i <= s@.len(),
            spec_all_digits(s@.take(i as int)),
            acc == spec_dec_value(s@.take(i as int)),
        decreases s@.len() - i,
    {
        let b: u8 = s[i];
        if b < 48 || b > 57 {
            proof {
                assert(s@[i as int] == b);
                assert(!spec_all_digits(s@));
            }
            return None;
        }
        let d: u64 = (b - 48) as u64;
        if acc > (u64::MAX - d) / 10 {
            proof {
                let q = (u64::MAX - d) as int / 10;
                let rem = (u64::MAX - d) as int % 10;
                assert((u64::MAX - d) as int == 10 * q + rem);
                assert(acc * 10 >= (q + 1) * 10);
                lemma_take_snoc(s@, i as int);
                assert(s@.take(i as int + 1).drop_last() =~= s@.take(i as int));
                assert(spec_dec_value(s@.take(i as int + 1)) == acc * 10 + d);
                if spec_all_digits(s@) {
                    lemma_dec_value_monotone(s@, i as int + 1);
                    assert(spec_dec_value(s@) > u64::MAX);
                }
            }
            return None;
        }
        acc = acc * 10 + d;
        proof {
            lemma_take_snoc(s@, i as int);
            assert(s@.take(i as int + 1).drop_last() =~= s@.take(i as int));
        }
        i = i + 1;
    }
    proof {
        assert(s@.take(s@.len() as int) =~= s@);
    }
    Some(acc)
}

proof fn lemma_take_snoc(s: Seq<u8>, i: int)
    requires
        0 <= i < s.len(),
    ensures
        s.take(i + 1) =~= s.take(i) + seq![s[i]],
        s.take(i + 1).drop_last() =~= s.take(i),
        s.take(i + 1).last() == s[i],
{
}

/// The value of a digit string only grows as more digits follow.
proof fn lemma_dec_value_monotone(s: Seq<u8>, i: int)
    requires
        0 <= i <= s.len(),
        spec_all_digits(s),
    ensures
        spec_dec_value(s.take(i)) <= spec_dec_value(s),
    decreases s.len() - i,
{
    if i < s.len() {
        lemma_take_snoc(s, i);
        assert(s.take(i + 1).drop_last() =~= s.take(i));
        assert(spec_dec_value(s.take(i + 1)) == spec_dec_value(s.take(i)) * 10 + (s[i] - 48));
        assert(spec_dec_value(s.take(i)) >= 0) by {
            assert(spec_all_digits(s.take(i)));
            lemma_dec_value_nonneg(s.take(i));
        }
        lemma_dec_value_monotone(s, i + 1);
    } else {
        assert(s.take(i) =~= s);
    }
}

proof fn lemma_dec_value_nonneg(s: Seq<u8>)
    requires
        spec_all_digits(s),
    ensures
        spec_dec_value(s) >= 0,
    decreases s.len(),
{
    if s.len() > 0 {
        assert(spec_all_digits(s.drop_last()));
        lemma_dec_value_nonneg(s.drop_last());
    }
}

/// Index of the first occurrence of a byte, or the length when absent.
pub open spec fn spec_find(s: Seq<u8>, sep: u8) -> int
    decreases s.len(),
{
    if s.len() == 0 {
        0
    } else if s[0] == sep {
        0
    } else {
        1 + spec_find(s.drop_first(), sep)
    }
}

/// The parts of a byte sequence split on a separator byte.
pub open spec fn spec_split(s: Seq<u8>, sep: u8) -> Seq<Seq<u8>>
    decreases s.len(),
{
    let i = spec_find(s, sep);
    if 0 <= i < s.len() {
        seq![s.take(i)] + spec_split(s.skip(i + 1), sep)
    } else {
        seq![s]
    }
}

/// A separator-free sequence splits into itself alone.
pub proof fn lemma_split_whole(s: Seq<u8>, sep: u8)
    requires
        forall|j: int| 0 <= j < s.len() ==> s[j] != sep,
    ensures
        spec_split(s, sep) =~= seq![s],
    decreases s.len(),
{
    lemma_find_first_free(s, sep);
}

proof fn lemma_find_first_free(s: Seq<u8>, sep: u8)
    requires
        forall|j: int| 0 <= j < s.len() ==> s[j] != sep,
    ensures
        spec_find(s, sep) == s.len(),
    decreases s.len(),
{
    if s.len() > 0 {
        assert(s[0] != sep);
        lemma_find_first_free(s.drop_first(), sep);
    }
}

/// Splitting a sequence of the shape `head sep tail`, with a separator-free
/// head, yields the head followed by the split of the tail.
pub proof fn lemma_split_step(head: Seq<u8>, tail: Seq<u8>, sep: u8)
    requires
        forall|j: int| 0 <= j < head.len() ==> head[j] != sep,
    ensures
        spec_split(head + seq![sep] + tail, sep) =~= seq![head] + spec_split(tail, sep),
{
    let s = head + seq![sep] + tail;
    lemma_find_prefix_free(s, head.len() as int, sep);
    assert(s[head.len() as int] == sep);
    assert(spec_find(s, sep) == head.len());
    assert(s.take(head.len() as int) =~= head);
    assert(s.skip(head.len() as int + 1) =~= tail);
}

proof fn lemma_find_prefix_free(s: Seq<u8>, i: int, sep: u8)
    requires
        0 <= i < s.len(),
        forall|j: int| 0 <= j < i ==> s[j] != sep,
        s[i] == sep,
    ensures
        spec_find(s, sep) == i,
    decreases i,
{
    if i > 0 {
        assert(s[0] != sep);
        assert(s.drop_first()[i - 1] == s[i]);
        assert forall|j: int| 0 <= j < i - 1 implies s.drop_first()[j] != sep by {
            assert(s.drop_first()[j] == s[j + 1]);
        }
        lemma_find_prefix_free(s.drop_first(), i - 1, sep);
    }
}

/// Find the first occurrence of a byte in a slice.
pub fn find_byte(s: &[u8], sep: u8) -> (r: Option<usize>)
    ensures
        match r {
            Some(i) => i == spec_find(s@, sep) && i < s@.len(),
            None => spec_find(s@, sep) == s@.len(),
        },
{
    let mut i: usize = 0;
    while i < s.len()
        invariant
            0 <= i <= s@.len(),
            forall|j: int| 0 <= j < i ==> s@[j] != sep,
        decreases s@.len() - i,
    {
        if s[i] == sep {
            proof {
                lemma_find_prefix_free(s@, i as int, sep);
            }
            return Some(i);
        }
        i = i + 1;
    }
    proof {
        lemma_find_first_free(s@, sep);
    }
    None
}

/// Split a byte slice on a separator byte.
pub fn split_bytes(s: &[u8], sep: u8) -> (r: Vec<Vec<u8>>)
    ensures
        r@.len() == spec_split(s@, sep).len(),
        forall|i: int| 0 <= i < r@.len() ==> #[trigger] r@[i]@ == spec_split(s@, sep)[i],
    decreases s@.len(),
{
    match find_byte(s, sep) {
        None => {
            let mut r: Vec<Vec<u8>> = Vec::new();
            r.push(vstd::slice::slice_to_vec(s));
            r
        },
        Some(i) => {
            let slen: usize = s.len();
            let head: Vec<u8> = vstd::slice::slice_to_vec(vstd::slice::slice_subrange(s, 0, i));
            let tail: &[u8] = vstd::slice::slice_subrange(s, i + 1, slen);
            let mut r: Vec<Vec<u8>> = split_bytes(tail, sep);
            r.insert(0, head);
            proof {
                assert(tail@ =~= s@.skip(i + 1));
                assert(head@ =~= s@.take(i as int));
            }
            r
        },
    }
}

/// A byte below 0x80 occurs in the UTF-8 encoding of a character sequence
/// only where the corresponding ASCII character occurs: multi-byte
/// encodings consist of bytes at or above 0x80 alone.
pub proof fn lemma_encode_utf8_byte_free(chars: Seq<char>, b: u8)
    requires
        b < 0x80,
        forall|i: int| 0 <= i < chars.len() ==> (#[trigger] chars[i]) as u32 != b as u32,
    ensures
        forall|i: int|
            0 <= i < encode_utf8(chars).len() ==> #[trigger] encode_utf8(chars)[i] != b,
    decreases chars.len(),
{
    if chars.len() > 0 {
        let v = chars[0] as u32;
        let e = encode_scalar(v);
        assert(chars[0] as u32 != b as u32);
        assert forall|i: int| 0 <= i < e.len() implies #[trigger] e[i] != b by {
            if has_width_1_encoding(v) {
                assert(v <= 0x7F ==> ((v & 0x7F) as u8) as u32 == v) by (bit_vector);
                assert(e[0] as u32 == v);
                assert((b as u32) < 0x80);
            } else {
                assert(forall|y: u32| #![auto] (0xC0u8 | ((y >> 6) & 0x1F) as u8) >= 0x80)
                    by (bit_vector);
                assert(forall|y: u32| #![auto] (0xE0u8 | ((y >> 12) & 0xF) as u8) >= 0x80)
                    by (bit_vector);
                assert(forall|y: u32| #![auto] (0xF0u8 | ((y >> 18) & 0x7) as u8) >= 0x80)
                    by (bit_vector);
                assert(forall|y: u32| #![auto] (0x80u8 | (y & 0x3F) as u8) >= 0x80) by (bit_vector);
                assert(forall|y: u32| #![auto] (0x80u8 | ((y >> 6) & 0x3F) as u8) >= 0x80)
                    by (bit_vector);
                assert(forall|y: u32| #![auto] (0x80u8 | ((y >> 12) & 0x3F) as u8) >= 0x80)
                    by (bit_vector);
            }
        }
        assert forall|i: int| 0 <= i < chars.drop_first().len() implies (#[trigger] chars.drop_first()[i]) as u32
            != b as u32 by {
            assert(chars.drop_first()[i] == chars[i + 1]);
        }
        lemma_encode_utf8_byte_free(chars.drop_first(), b);
        assert(encode_utf8(chars) =~= e + encode_utf8(chars.drop_first()));
    }
}

/// Decode a byte vector as UTF-8.
///
/// Relies on `String::from_utf8` of std: it returns the string of the given
/// bytes exactly when they are valid UTF-8, and rejects them otherwise.
#[verifier::external_body]
pub fn string_from_utf8(v: Vec<u8>) -> (r: Option<String>)
    ensures
        r is Some <==> valid_utf8(v@),
        r is Some ==> r->0@ == decode_utf8(v@),
{
    match String::from_utf8(v) {
        Ok(s) => Some(s),
        Err(_) => None,
    }
}

/// The decimal digit characters of a natural number, most significant first.
pub open spec fn spec_dec_chars(n: nat) -> Seq<char>
    decreases n,
{
    if n < 10 {
        seq![spec_digit_char(n)]
    } else {
        spec_dec_chars(n / 10) + seq![spec_digit_char(n % 10)]
    }
}

/// The character of one decimal digit.
pub open spec fn spec_digit_char(d: nat) -> char
    recommends
        d < 10,
{
    ((48 + d) as u8) as char
}

/// The one-character string of one decimal digit.
pub fn digit_str(d: u64) -> (r: &'static str)
    requires
        d < 10,
    ensures
        r@ == seq![spec_digit_char(d as nat)],
        r.is_ascii(),
{
    proof {
        reveal_strlit("0");
        reveal_strlit("1");
        reveal_strlit("2");
        reveal_strlit("3");
        reveal_strlit("4");
        reveal_strlit("5");
        reveal_strlit("6");
        reveal_strlit("7");
        reveal_strlit("8");
        reveal_strlit("9");
    }
    match d {
        0 => "0",
        1 => "1",
        2 => "2",
        3 => "3",
        4 => "4",
        5 => "5",
        6 => "6",
        7 => "7",
        8 => "8",
        _ => "9",
    }
}

/// Render a number as a decimal string.
pub fn u64_to_dec_string(n: u64) -> (r: String)
    ensures
        r@ == spec_dec_chars(n as nat),
        r.is_ascii(),
    decreases n,
{
    if n < 10 {
        let r = String::from_str(digit_str(n));
        proof {
            assert(r@ =~= spec_dec_chars(n as nat));
        }
        r
    } else {
        let mut r: String = u64_to_dec_string(n / 10);
        r.append(digit_str(n % 10));
        proof {
            assert(r@ =~= spec_dec_chars(n as nat));
        }
        r
    }
}

} // verus!
