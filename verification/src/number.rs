//! Numbers on the wire: decimal text, digits in a radix, hexadecimal bytes.

use vstd::prelude::*;
use vstd::string::StringSliceAdditionalSpecFns;
use crate::error::ErrorKind;
use crate::text::{ascii, has_prefix, literal, starts_with};

verus! {

/// The decimal digits of `n`, most significant first, without padding.
pub open spec fn decimal(n: nat) -> Seq<u8>
    decreases n,
{
    if n < 10 {
        seq![(0x30 + n) as u8]
    } else {
        decimal(n / 10).push((0x30 + n % 10) as u8)
    }
}

/// Appends the decimal digits of `n` to `out`.
pub fn push_decimal(out: &mut Vec<u8>, n: u32)
    ensures
        final(out)@ == old(out)@ + decimal(n as nat),
    decreases n,
{
    if n >= 10 {
        push_decimal(out, n / 10);
    }
    out.push(0x30u8 + (n % 10) as u8);
    proof {
        if n >= 10 {
            assert(old(out)@ + decimal(n as nat / 10).push((0x30 + n as nat % 10) as u8) == (old(
                out,
            )@ + decimal(n as nat / 10)).push((0x30 + n as nat % 10) as u8));
        } else {
            assert(old(out)@ + seq![(0x30 + n as nat) as u8] == old(out)@.push(
                (0x30 + n as nat) as u8,
            ));
        }
    }
}

/// The value of a digit in `radix`: `0-9`, then letters of either case from
/// ten upwards; `None` for any other byte and for a digit that `radix` lacks.
pub open spec fn digit_value(byte: u8, radix: nat) -> Option<nat> {
    let value: nat = if 0x30 <= byte <= 0x39 {
        (byte - 0x30) as nat
    } else if 0x61 <= byte <= 0x7a {
        (byte - 0x61 + 10) as nat
    } else if 0x41 <= byte <= 0x5a {
        (byte - 0x41 + 10) as nat
    } else {
        radix
    };
    if value < radix {
        Some(value)
    } else {
        None
    }
}

/// Every byte of `text` is a digit in `radix`.
pub open spec fn all_digits(text: Seq<u8>, radix: nat) -> bool {
    forall|i: int| 0 <= i < text.len() ==> (#[trigger] digit_value(text[i], radix)) is Some
}

/// The number that the digits of `text` denote in `radix`.
pub open spec fn digits_value(text: Seq<u8>, radix: nat) -> nat
    decreases text.len(),
{
    if text.len() == 0 {
        0
    } else {
        digits_value(text.drop_last(), radix) * radix + match digit_value(text.last(), radix) {
            Some(value) => value,
            None => 0,
        }
    }
}

/// `text` read as a `u32` in `radix`: an optional `+`, then at least one
/// digit and nothing else, the value no larger than `u32::MAX`.
pub open spec fn parse_u32(text: Seq<u8>, radix: nat) -> Option<u32> {
    let digits = if text.len() > 0 && text[0] == 0x2b {
        text.drop_first()
    } else {
        text
    };
    if digits.len() > 0 && all_digits(digits, radix) && digits_value(digits, radix) <= u32::MAX {
        Some(digits_value(digits, radix) as u32)
    } else {
        None
    }
}

/// The decimal digits of a number are digits, begin with a digit, and
/// denote the number.
pub proof fn lemma_decimal_digits(n: nat)
    ensures
        decimal(n).len() > 0,
        0x30 <= decimal(n)[0] <= 0x39,
        all_digits(decimal(n), 10),
        digits_value(decimal(n), 10) == n,
    decreases n,
{
    let text = decimal(n);
    if n < 10 {
        assert(text.drop_last() =~= Seq::<u8>::empty());
        assert(digit_value(text[0], 10) == Some(n));
        assert(digits_value(text.drop_last(), 10) == 0);
    } else {
        let front = decimal(n / 10);
        lemma_decimal_digits(n / 10);
        assert(text.drop_last() =~= front);
        assert(text[0] == front[0]);
        assert(digit_value(text.last(), 10) == Some(n % 10));
        assert forall|i: int| 0 <= i < text.len() implies (#[trigger] digit_value(text[i], 10))
            is Some by {
            if i < front.len() {
                assert(text[i] == front[i]);
            }
        }
    }
}

/// Reading back what was written: the decimal digits of a number parse as
/// that number.
pub proof fn lemma_decimal_parses(n: u32)
    ensures
        parse_u32(decimal(n as nat), 10) == Some(n),
{
    lemma_decimal_digits(n as nat);
}

/// A number is at least the number that any prefix of its digits denotes.
pub proof fn lemma_digits_value_grows(text: Seq<u8>, radix: nat, upto: int)
    requires
        0 <= upto <= text.len(),
        radix >= 1,
    ensures
        digits_value(text.subrange(0, upto), radix) <= digits_value(text, radix),
    decreases text.len() - upto,
{
    if upto == text.len() {
        assert(text.subrange(0, upto) == text);
    } else {
        lemma_digits_value_grows(text, radix, upto + 1);
        let longer = text.subrange(0, upto + 1);
        assert(longer.drop_last() == text.subrange(0, upto));
        let shorter = digits_value(text.subrange(0, upto), radix);
        assert(shorter <= shorter * radix) by (nonlinear_arith)
            requires
                radix >= 1,
        ;
    }
}

/// The value of `byte` as a digit in `radix`, if it is one.
pub fn digit_of(byte: u8, radix: u32) -> (digit: Option<u32>)
    requires
        2 <= radix <= 36,
    ensures
        digit_value(byte, radix as nat) == match digit {
            Some(value) => Some(value as nat),
            None => None,
        },
{
    let value: u32 = if 0x30 <= byte && byte <= 0x39 {
        (byte - 0x30) as u32
    } else if 0x61 <= byte && byte <= 0x7a {
        (byte - 0x61) as u32 + 10
    } else if 0x41 <= byte && byte <= 0x5a {
        (byte - 0x41) as u32 + 10
    } else {
        radix
    };
    if value < radix {
        Some(value)
    } else {
        None
    }
}

/// Reads `text` as a `u32` in `radix`.
pub fn parse_u32_radix(text: &[u8], radix: u32) -> (number: Option<u32>)
    requires
        2 <= radix <= 36,
    ensures
        number == parse_u32(text@, radix as nat),
{
    let start: usize = if text.len() > 0 && text[0] == 0x2b {
        1
    } else {
        0
    };
    let ghost digits = text@.subrange(start as int, text@.len() as int);
    assert(digits == if start == 1 {
        text@.drop_first()
    } else {
        text@
    });
    if start == text.len() {
        return None;
    }
    let mut value: u64 = 0;
    let mut i: usize = start;
    while i < text.len()
        invariant
            start <= i <= text.len(),
            2 <= radix <= 36,
            digits == text@.subrange(start as int, text@.len() as int),
            digits == if text@.len() > 0 && text@[0] == 0x2b {
                text@.drop_first()
            } else {
                text@
            },
            all_digits(digits.subrange(0, i - start), radix as nat),
            value == digits_value(digits.subrange(0, i - start), radix as nat),
            value <= u32::MAX,
        decreases text.len() - i,
    {
        let ghost done = digits.subrange(0, i - start);
        let ghost next = digits.subrange(0, i - start + 1);
        assert(next.drop_last() == done);
        assert(next.last() == text@[i as int]);
        match digit_of(text[i], radix) {
            None => {
                assert(digit_value(digits[i - start], radix as nat) is None);
                return None;
            },
            Some(digit) => {
                assert(value * radix + digit <= 0xffff_ffff * 36 + 36) by (nonlinear_arith)
                    requires
                        value <= 0xffff_ffff,
                        radix <= 36,
                        digit < 36,
                ;
                value = value * (radix as u64) + digit as u64;
                assert(value == digits_value(next, radix as nat));
                assert forall|k: int| 0 <= k < next.len() implies (#[trigger] digit_value(
                    next[k],
                    radix as nat,
                )) is Some by {
                    if k < done.len() {
                        assert(next[k] == done[k]);
                    }
                }
                if value > 0xffff_ffff {
                    proof {
                        lemma_digits_value_grows(digits, radix as nat, i - start + 1);
                    }
                    return None;
                }
            },
        }
        i += 1;
    }
    assert(digits.subrange(0, i - start) == digits);
    Some(value as u32)
}

/// A number as the command line gives it: hexadecimal behind `0x`, else
/// decimal. Text that is neither is an input error.
pub open spec fn hex_or_decimal(text: Seq<u8>) -> Result<u32, ErrorKind> {
    let number = if starts_with(text, ascii("0x"@)) {
        parse_u32(text.skip(2), 16)
    } else {
        parse_u32(text, 10)
    };
    match number {
        Some(value) => Ok(value),
        None => Err(ErrorKind::Input),
    }
}

/// Reads an address or a length of the command line.
pub fn u32_from_hex_dec_str(a: &str) -> (number: Result<u32, ErrorKind>)
    ensures
        number == hex_or_decimal(a.spec_bytes()),
{
    let text = a.as_bytes();
    proof {
        reveal_strlit("0x");
    }
    let number = if has_prefix(text, literal("0x")) {
        assert(ascii("0x"@).len() == 2);
        let digits = vstd::slice::slice_subrange(text, 2, text.len());
        parse_u32_radix(digits, 16)
    } else {
        parse_u32_radix(text, 10)
    };
    match number {
        Some(value) => Ok(value),
        None => Err(ErrorKind::Input),
    }
}

/// The value of a hexadecimal digit of either case.
pub open spec fn hex_digit(byte: u8) -> Option<u8> {
    if 0x30 <= byte <= 0x39 {
        Some((byte - 0x30) as u8)
    } else if 0x61 <= byte <= 0x66 {
        Some((byte - 0x61 + 10) as u8)
    } else if 0x41 <= byte <= 0x46 {
        Some((byte - 0x41 + 10) as u8)
    } else {
        None
    }
}

/// `text` is an even number of hexadecimal digits.
pub open spec fn is_hex_text(text: Seq<u8>) -> bool {
    &&& text.len() % 2 == 0
    &&& forall|i: int| 0 <= i < text.len() ==> (#[trigger] hex_digit(text[i])) is Some
}

/// The bytes that the hexadecimal digits of `text` spell, two digits a byte,
/// the high one first.
pub open spec fn hex_bytes(text: Seq<u8>) -> Seq<u8> {
    Seq::new(
        text.len() / 2,
        |i: int| (hex_digit(text[2 * i]).unwrap() * 16 + hex_digit(text[2 * i + 1]).unwrap()) as u8,
    )
}

#[verifier::external_type_specification]
#[verifier::external_body]
pub struct ExFromHexError(hex::FromHexError);

/// Trusted: `hex::decode`. It fails on an odd length and on any byte that is
/// no hexadecimal digit, and otherwise returns one byte for each pair of
/// digits, the first digit of a pair being the high half.
#[verifier::external_body]
fn hex_decode(text: &[u8]) -> (decoded: Result<Vec<u8>, hex::FromHexError>)
    ensures
        decoded is Ok <==> is_hex_text(text@),
        decoded matches Ok(bytes) ==> bytes@ == hex_bytes(text@),
{
    hex::decode(text)
}

/// The bytes that `text` spells in hexadecimal, or `None` where `text` is no
/// even number of hexadecimal digits.
pub fn decode_hex(text: &[u8]) -> (bytes: Option<Vec<u8>>)
    ensures
        bytes is Some <==> is_hex_text(text@),
        bytes matches Some(b) ==> b@ == hex_bytes(text@),
{
    match hex_decode(text) {
        Ok(bytes) => Some(bytes),
        Err(_) => None,
    }
}

/// The number whose four bytes are `bytes`, most significant first.
pub open spec fn be_u32(bytes: Seq<u8>) -> u32
    recommends
        bytes.len() == 4,
{
    (bytes[0] as nat * 0x100_0000 + bytes[1] as nat * 0x1_0000 + bytes[2] as nat * 0x100
        + bytes[3] as nat) as u32
}

/// The number whose four bytes are `bytes`, least significant first.
pub open spec fn le_u32(bytes: Seq<u8>) -> u32
    recommends
        bytes.len() == 4,
{
    (bytes[3] as nat * 0x100_0000 + bytes[2] as nat * 0x1_0000 + bytes[1] as nat * 0x100
        + bytes[0] as nat) as u32
}

/// Reads four bytes as a big-endian number.
pub fn u32_from_be(bytes: &[u8]) -> (number: u32)
    requires
        bytes.len() == 4,
    ensures
        number == be_u32(bytes@),
{
    let wide: u64 = bytes[0] as u64 * 0x100_0000 + bytes[1] as u64 * 0x1_0000 + bytes[2] as u64
        * 0x100 + bytes[3] as u64;
    wide as u32
}

/// Reads four bytes as a little-endian number.
pub fn u32_from_le(bytes: &[u8]) -> (number: u32)
    requires
        bytes.len() == 4,
    ensures
        number == le_u32(bytes@),
{
    let wide: u64 = bytes[3] as u64 * 0x100_0000 + bytes[2] as u64 * 0x1_0000 + bytes[1] as u64
        * 0x100 + bytes[0] as u64;
    wide as u32
}

} // verus!
