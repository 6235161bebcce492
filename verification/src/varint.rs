//! The variable-length encoding of unsigned coordinates.
//!
//! The number of leading one bits of the first byte says how many bytes
//! follow it. The bits of the first byte below those ones, and then the
//! following bytes, are the digits of the value, most significant first.

use crate::utility::Pos;
use vstd::prelude::*;

verus! {

/// Why a coordinate could not be read.
#[derive(Debug, Copy, Clone, Eq, PartialEq, Structural)]
pub enum StreamError {
    /// The bytes end before the value does.
    UnexpectedEndOfStream,
    /// The value is larger than a coordinate can be.
    Overflow,
}

/// The most bytes that an encoded value takes.
pub const MAX_ENCODED_LEN: usize = 9;

/// 256 to the power `n`, for `n` from 0 to 8.
pub open spec fn pow256(n: int) -> int {
    if n <= 0 {
        1
    } else if n == 1 {
        0x100
    } else if n == 2 {
        0x1_0000
    } else if n == 3 {
        0x100_0000
    } else if n == 4 {
        0x1_0000_0000
    } else if n == 5 {
        0x100_0000_0000
    } else if n == 6 {
        0x1_0000_0000_0000
    } else if n == 7 {
        0x100_0000_0000_0000
    } else {
        0x1_0000_0000_0000_0000
    }
}

/// The number of bytes that follow the first byte `first` of an encoded
/// value: the number of its leading one bits.
pub open spec fn extra_len(first: u8) -> int {
    if first < 0x80 {
        0
    } else if first < 0xC0 {
        1
    } else if first < 0xE0 {
        2
    } else if first < 0xF0 {
        3
    } else if first < 0xF8 {
        4
    } else if first < 0xFC {
        5
    } else if first < 0xFE {
        6
    } else if first < 0xFF {
        7
    } else {
        8
    }
}

/// The first byte in which `extra` leading ones are followed by zeros.
pub open spec fn marker(extra: int) -> int {
    if extra <= 0 {
        0x00
    } else if extra == 1 {
        0x80
    } else if extra == 2 {
        0xC0
    } else if extra == 3 {
        0xE0
    } else if extra == 4 {
        0xF0
    } else if extra == 5 {
        0xF8
    } else if extra == 6 {
        0xFC
    } else if extra == 7 {
        0xFE
    } else {
        0xFF
    }
}

/// The digits that the first byte `first` holds below its leading ones.
pub open spec fn payload(first: u8) -> int {
    first - marker(extra_len(first))
}

/// The number whose base-256 digits, most significant first, are `lead`
/// and then the bytes of `digits`.
pub open spec fn be_value(lead: int, digits: Seq<u8>) -> int
    decreases digits.len(),
{
    if digits.len() == 0 {
        lead
    } else {
        256 * be_value(lead, digits.drop_last()) + digits.last()
    }
}

/// The value encoded at the start of `s` and the number of bytes that it
/// takes, or the reason why there is none.
pub open spec fn parse_varint(s: Seq<u8>) -> Result<(int, int), StreamError> {
    if s.len() == 0 {
        Err(StreamError::UnexpectedEndOfStream)
    } else {
        let extra = extra_len(s[0]);
        if s.len() < 1 + extra {
            Err(StreamError::UnexpectedEndOfStream)
        } else {
            let value = be_value(payload(s[0]), s.subrange(1, 1 + extra));
            if value > i64::MAX {
                Err(StreamError::Overflow)
            } else {
                Ok((value, 1 + extra))
            }
        }
    }
}

/// The number of bytes that follow the first byte in the shortest encoding
/// of `value`.
pub open spec fn extra_needed(value: int) -> int {
    if value < 0x80 {
        0
    } else if value < 0x4000 {
        1
    } else if value < 0x20_0000 {
        2
    } else if value < 0x1000_0000 {
        3
    } else if value < 0x8_0000_0000 {
        4
    } else if value < 0x400_0000_0000 {
        5
    } else if value < 0x2_0000_0000_0000 {
        6
    } else if value < 0x100_0000_0000_0000 {
        7
    } else {
        8
    }
}

/// The base-256 digit of `value` with weight `pow256(i)`.
pub open spec fn digit(value: int, i: int) -> u8 {
    ((value / pow256(i)) % 256) as u8
}

/// The `n` lowest base-256 digits of `value`, most significant first.
pub open spec fn digits(value: int, n: int) -> Seq<u8> {
    Seq::new(n as nat, |j: int| digit(value, n - 1 - j))
}

/// The shortest encoding of `value`.
pub open spec fn encode_varint(value: int) -> Seq<u8> {
    let extra = extra_needed(value);
    seq![(marker(extra) + value / pow256(extra)) as u8] + digits(value, extra)
}

/// The `n` lowest digits of a value, read after what lies above them, give
/// the value back.
proof fn lemma_digits_value(value: int, n: int)
    requires
        0 <= value,
        0 <= n <= 8,
    ensures
        be_value(value / pow256(n), digits(value, n)) == value,
    decreases n,
{
    if n > 0 {
        let rest = value / 256;
        assert(pow256(n) == 256 * pow256(n - 1));
        assert forall|i: int| 1 <= i <= n implies value / pow256(i) == rest / #[trigger] pow256(
            i - 1,
        ) by {
            assert(pow256(i) == 256 * pow256(i - 1));
            vstd::arithmetic::div_mod::lemma_div_denominator(value, 256, pow256(i - 1));
        }
        assert(digits(value, n).drop_last() =~= digits(rest, n - 1)) by {
            assert forall|j: int| 0 <= j < n - 1 implies digits(value, n)[j] == digits(
                rest,
                n - 1,
            )[j] by {
                assert(value / pow256(n - 1 - j) == rest / pow256(n - 1 - j - 1));
            }
        }
        assert(digits(value, n).last() == value % 256);
        assert(value / pow256(n) == rest / pow256(n - 1));
        lemma_digits_value(rest, n - 1);
    }
}

/// Decoding undoes encoding: the shortest encoding of a coordinate,
/// whatever bytes follow it, decodes to that coordinate and to its own
/// length.
pub proof fn lemma_varint_round_trip(value: int, rest: Seq<u8>)
    requires
        0 <= value <= i64::MAX,
    ensures
        parse_varint(encode_varint(value) + rest) == Ok::<(int, int), StreamError>(
            (value, encode_varint(value).len() as int),
        ),
        encode_varint(value).len() == 1 + extra_needed(value),
{
    let extra = extra_needed(value);
    let lead = value / pow256(extra);
    let s = encode_varint(value) + rest;
    assert(0 <= lead && marker(extra) + lead < marker(extra + 1) + (if extra == 8 {
        1int
    } else {
        0int
    }));
    assert(s[0] == (marker(extra) + lead) as u8);
    assert(extra_len(s[0]) == extra);
    assert(payload(s[0]) == lead);
    assert(s.subrange(1, 1 + extra) =~= digits(value, extra));
    lemma_digits_value(value, extra);
}

/// 256 to the power `n`, for `n` below 8.
fn weight(n: usize) -> (w: u64)
    requires
        n < 8,
    ensures
        w == pow256(n as int),
{
    if n == 0 {
        1
    } else if n == 1 {
        0x100
    } else if n == 2 {
        0x1_0000
    } else if n == 3 {
        0x100_0000
    } else if n == 4 {
        0x1_0000_0000
    } else if n == 5 {
        0x100_0000_0000
    } else if n == 6 {
        0x1_0000_0000_0000
    } else {
        0x100_0000_0000_0000
    }
}

/// Encodes a coordinate that is not negative in as few bytes as it takes.
pub fn encode_compound_int(value: Pos) -> (out: Vec<u8>)
    requires
        value >= 0,
    ensures
        out@ == encode_varint(value as int),
        parse_varint(out@) == Ok::<(int, int), StreamError>((value as int, out@.len() as int)),
        1 <= out@.len() <= MAX_ENCODED_LEN,
{
    let v = value as u64;
    let (extra, first): (usize, u64) = if v < 0x80 {
        (0, v)
    } else if v < 0x4000 {
        (1, 0x80 + v / weight(1))
    } else if v < 0x20_0000 {
        (2, 0xC0 + v / weight(2))
    } else if v < 0x1000_0000 {
        (3, 0xE0 + v / weight(3))
    } else if v < 0x8_0000_0000 {
        (4, 0xF0 + v / weight(4))
    } else if v < 0x400_0000_0000 {
        (5, 0xF8 + v / weight(5))
    } else if v < 0x2_0000_0000_0000 {
        (6, 0xFC + v / weight(6))
    } else if v < 0x100_0000_0000_0000 {
        (7, 0xFE)
    } else {
        (8, 0xFF)
    };
    assert(first == marker(extra as int) + (value as int) / pow256(extra as int));
    let mut out: Vec<u8> = Vec::new();
    out.push(first as u8);
    let mut i: usize = extra;
    assert(out@ == seq![first as u8] + digits(value as int, extra as int).take(0));
    while i > 0
        invariant
            i <= extra <= 8,
            v == value,
            out@ == seq![first as u8] + digits(value as int, extra as int).take(extra - i),
        decreases i,
    {
        i -= 1;
        out.push(((v / weight(i)) % 256) as u8);
        assert(digits(value as int, extra as int).take(extra - i) == digits(
            value as int,
            extra as int,
        ).take(extra - i - 1).push(digit(value as int, i as int)));
    }
    proof {
        assert(digits(value as int, extra as int).take(extra as int) == digits(
            value as int,
            extra as int,
        ));
        lemma_varint_round_trip(value as int, Seq::empty());
        assert(encode_varint(value as int) + Seq::<u8>::empty() == encode_varint(value as int));
    }
    out
}

/// The leading ones of a byte and the bits below them, as the bit
/// operations compute them.
pub proof fn lemma_first_byte(first: u8)
    ensures
        vstd::std_specs::bits::u8_leading_ones(first) == extra_len(first),
        extra_len(first) < 8 ==> first & (0xFFu8 >> (extra_len(first) as u32)) == payload(first),
        first & 0u8 == 0,
        0 <= payload(first) < 128,
        extra_len(first) == 8 ==> payload(first) == 0,
{
    let k = vstd::std_specs::bits::u8_leading_ones(first);
    vstd::std_specs::bits::axiom_u8_leading_ones(first);
    lemma_leading_ones(first, k as u8);
    lemma_low_bits(first);
}

/// The count of leading ones, as bit operations pin it down, is the one
/// that the ranges of `extra_len` give.
proof fn lemma_leading_ones(b: u8, k: u8)
    by (bit_vector)
    requires
        k <= 8,
        (b == 0xFFu8) == (k == 8),
        k < 8 ==> (b >> ((7 - k) as u8)) & 1u8 == 0u8,
        (!b) >> ((8 - k) as u8) == 0,
    ensures
        b < 0x80 ==> k == 0,
        0x80 <= b < 0xC0 ==> k == 1,
        0xC0 <= b < 0xE0 ==> k == 2,
        0xE0 <= b < 0xF0 ==> k == 3,
        0xF0 <= b < 0xF8 ==> k == 4,
        0xF8 <= b < 0xFC ==> k == 5,
        0xFC <= b < 0xFE ==> k == 6,
        0xFE <= b < 0xFF ==> k == 7,
{
}

/// Masking off the leading ones of a byte subtracts its marker.
proof fn lemma_low_bits(b: u8)
    by (bit_vector)
    ensures
        b < 0x80 ==> b & (0xFFu8 >> 0u32) == b,
        0x80 <= b < 0xC0 ==> b & (0xFFu8 >> 1u32) == b - 0x80,
        0xC0 <= b < 0xE0 ==> b & (0xFFu8 >> 2u32) == b - 0xC0,
        0xE0 <= b < 0xF0 ==> b & (0xFFu8 >> 3u32) == b - 0xE0,
        0xF0 <= b < 0xF8 ==> b & (0xFFu8 >> 4u32) == b - 0xF0,
        0xF8 <= b < 0xFC ==> b & (0xFFu8 >> 5u32) == b - 0xF8,
        0xFC <= b < 0xFE ==> b & (0xFFu8 >> 6u32) == b - 0xFC,
        0xFE <= b < 0xFF ==> b & (0xFFu8 >> 7u32) == b - 0xFE,
        b & 0u8 == 0,
{
}

} // verus!
