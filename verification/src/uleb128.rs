//! Unsigned little-endian base-128 integers, in canonical form only.

use crate::error::CodecError;
use vstd::prelude::*;

verus! {

/// The largest number of base-128 digits a 32-bit value needs.
pub const MAX_DIGITS: u8 = 5;

/// The canonical encoding of `value`: seven bits per byte, least significant
/// group first, the high bit set on every byte but the last.
pub open spec fn uleb128(value: nat) -> Seq<u8>
    decreases value,
{
    if value < 128 {
        seq![value as u8]
    } else {
        seq![(value % 128 + 128) as u8] + uleb128(value / 128)
    }
}

/// The exclusive bound on values that `digits` base-128 digits can express.
pub open spec fn capacity(digits: nat) -> nat
    decreases digits,
{
    if digits == 0 {
        1
    } else {
        128 * capacity((digits - 1) as nat)
    }
}

/// Reads one canonical integer of at most `digits` digits from the front of
/// `bytes`; gives the value and the number of bytes it occupies.
pub open spec fn parse_digits(bytes: Seq<u8>, digits: nat) -> Result<(nat, nat), CodecError>
    decreases digits,
{
    if digits == 0 {
        Err(CodecError::MalformedLength)
    } else if bytes.len() == 0 {
        Err(CodecError::UnexpectedEnd)
    } else if bytes[0] < 128 {
        Ok((bytes[0] as nat, 1))
    } else {
        match parse_digits(bytes.skip(1), (digits - 1) as nat) {
            Ok((high, used)) => if high == 0 {
                Err(CodecError::MalformedLength)
            } else {
                Ok(((bytes[0] - 128 + 128 * high) as nat, used + 1))
            },
            Err(e) => Err(e),
        }
    }
}

/// Reads one canonical 32-bit integer from the front of `bytes`.
pub open spec fn parse_u32(bytes: Seq<u8>) -> Result<(nat, nat), CodecError> {
    match parse_digits(bytes, MAX_DIGITS as nat) {
        Ok((value, used)) => if value > u32::MAX {
            Err(CodecError::MalformedLength)
        } else {
            Ok((value, used))
        },
        Err(e) => Err(e),
    }
}

/// Decoding undoes encoding, whatever follows the encoded integer.
pub proof fn lemma_parse_encoded(value: nat, rest: Seq<u8>, digits: nat)
    requires
        digits >= 1,
        value < capacity(digits),
    ensures
        parse_digits(uleb128(value) + rest, digits) == Ok::<(nat, nat), CodecError>(
            (value, uleb128(value).len()),
        ),
    decreases value,
{
    let bytes = uleb128(value) + rest;
    if value < 128 {
        assert(bytes[0] == value as u8);
    } else {
        assert(digits >= 2) by {
            if digits == 1 {
                reveal_with_fuel(capacity, 2);
            }
        }
        let high = value / 128;
        assert(bytes[0] == (value % 128 + 128) as u8);
        assert(bytes.skip(1) =~= uleb128(high) + rest);
        lemma_parse_encoded(high, rest, (digits - 1) as nat);
    }
}

/// Whatever decodes is the canonical encoding of the decoded value, and the
/// value fits the digits allowed.
pub proof fn lemma_parsed_is_encoded(bytes: Seq<u8>, digits: nat)
    requires
        parse_digits(bytes, digits) is Ok,
    ensures
        ({
            let (value, used) = parse_digits(bytes, digits).unwrap();
            &&& 1 <= used <= bytes.len()
            &&& used <= digits
            &&& value < capacity(digits)
            &&& bytes.subrange(0, used as int) == uleb128(value)
        }),
    decreases digits,
{
    let (value, used) = parse_digits(bytes, digits).unwrap();
    if bytes[0] < 128 {
        assert(bytes.subrange(0, 1) =~= uleb128(value));
        assert(capacity(digits) >= 128) by {
            reveal_with_fuel(capacity, 2);
            lemma_capacity_positive((digits - 1) as nat);
        }
    } else {
        let tail = bytes.skip(1);
        lemma_parsed_is_encoded(tail, (digits - 1) as nat);
        let (high, tail_used) = parse_digits(tail, (digits - 1) as nat).unwrap();
        assert(value / 128 == high);
        assert(value % 128 + 128 == bytes[0]);
        assert(tail.subrange(0, tail_used as int) == uleb128(high));
        assert(bytes.subrange(0, used as int) =~= seq![bytes[0]] + tail.subrange(
            0,
            tail_used as int,
        ));
    }
}

/// Every digit count can express at least the value zero.
pub proof fn lemma_capacity_positive(digits: nat)
    ensures
        capacity(digits) >= 1,
    decreases digits,
{
    if digits > 0 {
        lemma_capacity_positive((digits - 1) as nat);
    }
}

/// Five digits express every 32-bit value.
pub proof fn lemma_capacity_of_u32()
    ensures
        capacity(MAX_DIGITS as nat) == 0x8_0000_0000,
{
    reveal_with_fuel(capacity, 6);
}

/// Appends the canonical encoding of `value` to `out`.
pub fn write_u32(out: &mut Vec<u8>, value: u32)
    ensures
        final(out)@ == old(out)@ + uleb128(value as nat),
{
    let ghost before = out@;
    let mut rest: u32 = value;
    while rest >= 128
        invariant
            before + uleb128(value as nat) == out@ + uleb128(rest as nat),
        decreases rest,
    {
        let ghost so_far = out@;
        out.push((rest % 128 + 128) as u8);
        proof {
            assert(out@ + uleb128((rest / 128) as nat) =~= so_far + uleb128(rest as nat));
        }
        rest = rest / 128;
    }
    let ghost so_far = out@;
    out.push(rest as u8);
    proof {
        assert(out@ =~= so_far + uleb128(rest as nat));
    }
}

/// Reads a canonical integer of at most `digits` digits at `pos`.
fn read_digits(input: &[u8], pos: usize, digits: u8) -> (r: Result<(u64, usize), CodecError>)
    requires
        pos <= input@.len(),
        digits <= MAX_DIGITS,
    ensures
        match r {
            Ok((value, next)) => parse_digits(input@.skip(pos as int), digits as nat) == Ok::<
                (nat, nat),
                CodecError,
            >((value as nat, (next - pos) as nat)) && pos < next <= input@.len(),
            Err(e) => parse_digits(input@.skip(pos as int), digits as nat) == Err::<
                (nat, nat),
                CodecError,
            >(e),
        },
    decreases digits,
{
    let ghost bytes = input@.skip(pos as int);
    if digits == 0 {
        return Err(CodecError::MalformedLength);
    }
    if pos >= input.len() {
        return Err(CodecError::UnexpectedEnd);
    }
    let first: u8 = input[pos];
    assert(bytes[0] == first);
    if first < 128 {
        return Ok((first as u64, pos + 1));
    }
    assert(bytes.skip(1) =~= input@.skip(pos + 1));
    match read_digits(input, pos + 1, digits - 1) {
        Ok((high, next)) => {
            proof {
                lemma_parsed_is_encoded(bytes.skip(1), (digits - 1) as nat);
                lemma_capacity_of_u32();
                lemma_capacity_grows((digits - 1) as nat, 4);
            }
            if high == 0 {
                Err(CodecError::MalformedLength)
            } else {
                Ok(((first - 128) as u64 + 128 * high, next))
            }
        },
        Err(e) => Err(e),
    }
}

/// More digits express more values.
pub proof fn lemma_capacity_grows(fewer: nat, more: nat)
    requires
        fewer <= more,
    ensures
        capacity(fewer) <= capacity(more),
    decreases more,
{
    if fewer < more {
        lemma_capacity_grows(fewer, (more - 1) as nat);
    }
}

/// Reads one canonical 32-bit integer at `pos`; gives the value and the
/// position behind it.
pub fn read_u32(input: &[u8], pos: usize) -> (r: Result<(u32, usize), CodecError>)
    requires
        pos <= input@.len(),
    ensures
        match r {
            Ok((value, next)) => parse_u32(input@.skip(pos as int)) == Ok::<(nat, nat), CodecError>(
                (value as nat, (next - pos) as nat),
            ) && pos < next <= input@.len(),
            Err(e) => parse_u32(input@.skip(pos as int)) == Err::<(nat, nat), CodecError>(e),
        },
{
    match read_digits(input, pos, MAX_DIGITS) {
        Ok((value, next)) => {
            if value > 0xffff_ffff {
                Err(CodecError::MalformedLength)
            } else {
                Ok((value as u32, next))
            }
        },
        Err(e) => Err(e),
    }
}

} // verus!
