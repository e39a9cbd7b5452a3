//! The variable-length integer code: unsigned base-128 numbers, least
//! significant group first, and the zigzag code that maps signed numbers
//! onto them.

use vstd::prelude::*;
use vstd::arithmetic::div_mod::lemma_mod_multiples_vanish;
use vstd::arithmetic::div_mod::lemma_fundamental_div_mod;
use crate::error::DecodeError;

verus! {

/// The number of leading bytes of `buf` that are at least `floor`.
///
/// With `floor == 0x80` this counts the continuation bytes in front of a
/// varint's last byte; with `floor == 1` it is the length of a NUL-terminated
/// string.
pub open spec fn leading(buf: Seq<u8>, floor: u8) -> nat
    decreases buf.len(),
{
    if buf.len() > 0 && buf[0] >= floor {
        1 + leading(buf.drop_first(), floor)
    } else {
        0
    }
}

/// The number whose base-128 digits, least significant first, are the low
/// seven bits of each byte of `digits`.
pub open spec fn varint_value(digits: Seq<u8>) -> nat
    decreases digits.len(),
{
    if digits.len() == 0 {
        0
    } else {
        (digits[0] % 128) as nat + 128 * varint_value(digits.drop_first())
    }
}

/// The weight of the group of seven bits at place `n` of a varint: 128 to
/// the power of `n`.
pub open spec fn weight(n: nat) -> nat
    decreases n,
{
    if n == 0 {
        1
    } else {
        128 * weight((n - 1) as nat)
    }
}

/// The low 64 bits of `x`.
pub open spec fn low64(x: int) -> u64 {
    (x % 0x1_0000_0000_0000_0000) as u64
}

/// What decoding an unsigned varint at the start of `buf` gives: the number of
/// bytes it takes, up to and including the first byte below `0x80`, and the
/// low 64 bits of its value; or the error, where every byte of `buf` has its
/// high bit set.
pub open spec fn spec_unsigned(buf: Seq<u8>) -> Result<(int, u64), DecodeError> {
    let n = leading(buf, 0x80) as int;
    if n < buf.len() {
        Ok((n + 1, low64(varint_value(buf.take(n + 1)) as int)))
    } else {
        Err(DecodeError::UnterminatedUnsignedInteger)
    }
}

/// The signed number that the zigzag code `raw` stands for.
pub open spec fn unzigzag(raw: u64) -> i64 {
    if raw % 2 == 0 {
        (raw / 2) as i64
    } else {
        (-(raw / 2) - 1) as i64
    }
}

/// The zigzag code of `value`: 0, -1, 1, -2, ... become 0, 1, 2, 3, ...
pub open spec fn zigzag(value: i64) -> u64 {
    if value >= 0 {
        (2 * value) as u64
    } else {
        (-2 * value - 1) as u64
    }
}

/// What decoding a signed varint at the start of `buf` gives: the unsigned
/// varint there, read as a zigzag code.
pub open spec fn spec_signed(buf: Seq<u8>) -> Result<(int, i64), DecodeError> {
    match spec_unsigned(buf) {
        Ok((n, raw)) => Ok((n, unzigzag(raw))),
        Err(_) => Err(DecodeError::UnterminatedSignedInteger),
    }
}

/// The shortest varint that holds `value`.
pub open spec fn encode_unsigned(value: nat) -> Seq<u8>
    decreases value,
{
    if value < 128 {
        seq![value as u8]
    } else {
        seq![(value % 128 + 128) as u8] + encode_unsigned(value / 128)
    }
}

/// The shortest varint that holds the zigzag code of `value`.
pub open spec fn encode_signed(value: i64) -> Seq<u8> {
    encode_unsigned(zigzag(value) as nat)
}

/// `leading(buf, floor)` is the one `n` with `n` bytes at least `floor` in
/// front and then a smaller byte or the end.
pub proof fn lemma_leading_is(buf: Seq<u8>, floor: u8, n: int)
    requires
        0 <= n <= buf.len(),
        forall|j: int| 0 <= j < n ==> buf[j] >= floor,
        n == buf.len() || buf[n] < floor,
    ensures
        leading(buf, floor) == n,
    decreases buf.len(),
{
    if n > 0 {
        let rest = buf.drop_first();
        assert forall|j: int| 0 <= j < n - 1 implies rest[j] >= floor by {
            assert(rest[j] == buf[j + 1]);
        }
        lemma_leading_is(rest, floor, n - 1);
    }
}

/// The bytes that `leading` counts are at least `floor`, and the next is not.
pub proof fn lemma_leading_bounds(buf: Seq<u8>, floor: u8)
    ensures
        leading(buf, floor) <= buf.len(),
        forall|j: int| 0 <= j < leading(buf, floor) ==> buf[j] >= floor,
        leading(buf, floor) < buf.len() ==> buf[leading(buf, floor) as int] < floor,
    decreases buf.len(),
{
    if buf.len() > 0 && buf[0] >= floor {
        let rest = buf.drop_first();
        lemma_leading_bounds(rest, floor);
        assert forall|j: int| 0 <= j < leading(buf, floor) implies buf[j] >= floor by {
            if j > 0 {
                assert(buf[j] == rest[j - 1]);
            }
        }
    }
}

/// Bytes behind the first one below `floor` do not change the count.
pub proof fn lemma_leading_prefix(buf: Seq<u8>, floor: u8, rest: Seq<u8>)
    requires
        leading(buf, floor) < buf.len(),
    ensures
        leading(buf + rest, floor) == leading(buf, floor),
{
    lemma_leading_bounds(buf, floor);
    lemma_leading_is(buf + rest, floor, leading(buf, floor) as int);
}

/// Cutting one summand to its low 64 bits leaves the low 64 bits of a sum as
/// they are.
pub proof fn lemma_low64_add(a: int, b: int)
    ensures
        low64(a + low64(b)) == low64(a + b),
{
    let m = 0x1_0000_0000_0000_0000int;
    lemma_fundamental_div_mod(b, m);
    lemma_mod_multiples_vanish(b / m, a + (b - m * (b / m)), m);
}

/// Cutting a factor to its low 64 bits leaves the low 64 bits of a product as
/// they are.
pub proof fn lemma_low64_mul(a: int, b: int)
    ensures
        low64(a * low64(b)) == low64(a * b),
{
    let m = 0x1_0000_0000_0000_0000int;
    let q = b / m;
    lemma_fundamental_div_mod(b, m);
    assert(a * b == m * (a * q) + a * (b - m * q)) by (nonlinear_arith);
    lemma_mod_multiples_vanish(a * q, a * (b - m * q), m);
}

/// One more step of Horner's rule keeps the low 64 bits right.
pub proof fn lemma_low64_step(digit: int, tail: int)
    ensures
        low64(digit + 128 * (low64(tail) as int)) == low64(digit + 128 * tail),
{
    let m = 0x1_0000_0000_0000_0000int;
    let q = tail / m;
    lemma_fundamental_div_mod(tail, m);
    assert(low64(tail) as int == tail - m * q);
    assert(digit + 128 * tail == m * (128 * q) + (digit + 128 * (tail - m * q))) by (nonlinear_arith);
    lemma_mod_multiples_vanish(128 * q, digit + 128 * (tail - m * q), m);
}

/// A byte behind the digits adds its seven bits at the weight of its place.
pub proof fn lemma_varint_push(digits: Seq<u8>, byte: u8)
    ensures
        varint_value(digits.push(byte)) == varint_value(digits) + (byte % 128) * weight(
            digits.len(),
        ),
    decreases digits.len(),
{
    let longer = digits.push(byte);
    let group = (byte % 128) as int;
    if digits.len() == 0 {
        assert(longer.drop_first() =~= Seq::<u8>::empty());
        assert(varint_value(longer.drop_first()) == 0);
        assert(longer[0] == byte);
        assert(weight(0) == 1);
        assert(varint_value(longer) == group);
        assert(varint_value(digits) == 0);
    } else {
        let rest = digits.drop_first();
        lemma_varint_push(rest, byte);
        assert(longer.drop_first() =~= rest.push(byte));
        assert(longer[0] == digits[0]);
        let w = weight(rest.len()) as int;
        assert(weight(digits.len()) == 128 * w);
        assert(128 * (group * w) == group * (128 * w)) by (nonlinear_arith);
        assert(varint_value(longer) == (digits[0] % 128) + 128 * varint_value(rest.push(byte)));
        assert(varint_value(digits) == (digits[0] % 128) + 128 * varint_value(rest));
    }
}

/// A varint decodes to its value and its length, whatever bytes follow it:
/// any bytes of which the last is the only one below `0x80`, shortest
/// encoding or not, give the number that their groups of seven bits add up
/// to.
pub proof fn lemma_unsigned_decodes(encoding: Seq<u8>, rest: Seq<u8>)
    requires
        encoding.len() >= 1,
        forall|j: int| 0 <= j < encoding.len() - 1 ==> encoding[j] >= 0x80,
        encoding.last() < 0x80,
        varint_value(encoding) <= u64::MAX,
    ensures
        spec_unsigned(encoding + rest) == Ok::<(int, u64), DecodeError>(
            (encoding.len() as int, varint_value(encoding) as u64),
        ),
{
    lemma_leading_is(encoding + rest, 0x80, encoding.len() - 1);
    assert((encoding + rest).take(encoding.len() as int) =~= encoding);
}

/// The shortest encoding ends with its only byte below `0x80` and holds the
/// value it was made from.
pub proof fn lemma_encode_unsigned(value: nat)
    ensures
        encode_unsigned(value).len() >= 1,
        leading(encode_unsigned(value), 0x80) == encode_unsigned(value).len() - 1,
        varint_value(encode_unsigned(value)) == value,
    decreases value,
{
    let e = encode_unsigned(value);
    if value < 128 {
        assert(e.drop_first() =~= Seq::<u8>::empty());
        assert(leading(e, 0x80) == 0);
        assert(varint_value(e.drop_first()) == 0);
    } else {
        let tail = encode_unsigned(value / 128);
        lemma_encode_unsigned(value / 128);
        assert(e.drop_first() =~= tail);
        assert(e[0] == value % 128 + 128);
        assert(e[0] % 128 == value % 128);
    }
}

/// Decoding the shortest encoding of an unsigned number gives the number back,
/// with the encoding's length, whatever bytes follow it.
pub proof fn lemma_unsigned_round_trip(value: u64, rest: Seq<u8>)
    ensures
        spec_unsigned(encode_unsigned(value as nat) + rest) == Ok::<(int, u64), DecodeError>(
            (encode_unsigned(value as nat).len() as int, value),
        ),
{
    let e = encode_unsigned(value as nat);
    lemma_encode_unsigned(value as nat);
    lemma_leading_prefix(e, 0x80, rest);
    assert((e + rest).take(e.len() as int) =~= e);
}

/// Zigzag coding loses nothing: every signed number comes back from its code.
pub proof fn lemma_zigzag_round_trip(value: i64)
    ensures
        unzigzag(zigzag(value)) == value,
{
}

/// Every zigzag code is the code of the number it decodes to.
pub proof fn lemma_unzigzag_round_trip(raw: u64)
    ensures
        zigzag(unzigzag(raw)) == raw,
{
}

/// Decoding the shortest encoding of a signed number gives the number back,
/// with the encoding's length, whatever bytes follow it.
pub proof fn lemma_signed_round_trip(value: i64, rest: Seq<u8>)
    ensures
        spec_signed(encode_signed(value) + rest) == Ok::<(int, i64), DecodeError>(
            (encode_signed(value).len() as int, value),
        ),
{
    lemma_unsigned_round_trip(zigzag(value), rest);
    lemma_zigzag_round_trip(value);
}

} // verus!
