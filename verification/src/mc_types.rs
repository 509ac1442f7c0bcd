//! Primitive protocol codec: the byte-level encodings shared by every packet.
//!
//! Every multi-byte integer is big-endian on the wire.  Each `get_*` function
//! consumes a prefix of a byte buffer and each `convert_*` function returns
//! the byte encoding of its argument.

use vstd::prelude::*;
use vstd::arithmetic::power::{pow, lemma_pow_increases, lemma_pow_adds};
use vstd::arithmetic::div_mod::lemma_fundamental_div_mod;

verus! {

pub const VERSION_NAME: &'static str = "1.21";

pub const VERSION_PROTOCOL: i32 = 767;

/// The error taxonomy of the wire layer.
#[derive(Clone, Copy, Debug, PartialEq, Eq, Structural)]
pub enum PacketError {
    /// A VarInt or VarLong ran past its bit budget before terminating.
    ValueTooLarge,
    /// A decoder ran out of bytes on a stream or buffer.
    RanOutOfBytes,
    /// A frame's id is not a member of the expected phase/direction set.
    InvalidPacketId,
    /// A UUID could not be parsed from its hyphenated hex form.
    InvalidUUIDString,
    /// A handshake prerequisite was missing, an RSA operation failed, or the
    /// verify-token comparison failed.
    EncryptionError,
}

impl PacketError {
    /// A diagnostic message for each error kind.
    pub fn message(&self) -> (r: &'static str)
        ensures
            r@ == match *self {
                PacketError::ValueTooLarge => "VarInt value is too large"@,
                PacketError::RanOutOfBytes => "Ran out of bytes while reading"@,
                PacketError::InvalidPacketId => "Invalid packet id"@,
                PacketError::InvalidUUIDString => "Invalid UUID format"@,
                PacketError::EncryptionError => "Encryption Error"@,
            },
    {
        match self {
            PacketError::ValueTooLarge => "VarInt value is too large",
            PacketError::RanOutOfBytes => "Ran out of bytes while reading",
            PacketError::InvalidPacketId => "Invalid packet id",
            PacketError::InvalidUUIDString => "Invalid UUID format",
            PacketError::EncryptionError => "Encryption Error",
        }
    }
}

/// A chat component reduced to its textual payload.
pub struct Chat {
    pub text: String,
}

// ---------------------------------------------------------------------------
// Big-endian fixed-width integers
// ---------------------------------------------------------------------------

/// The `n`-byte big-endian encoding of `v % 256^n`.
pub open spec fn spec_be_bytes(v: nat, n: nat) -> Seq<u8>
    decreases n,
{
    if n == 0 {
        seq![]
    } else {
        spec_be_bytes(v / 256, (n - 1) as nat) + seq![(v % 256) as u8]
    }
}

/// The value of a byte sequence read as a big-endian integer.
pub open spec fn spec_be_val(s: Seq<u8>) -> nat
    decreases s.len(),
{
    if s.len() == 0 {
        0
    } else {
        spec_be_val(s.drop_last()) * 256 + s.last() as nat
    }
}

/// Ground values of the powers of 256 that the codec's widths use.
pub proof fn lemma_pow256_values()
    ensures
        pow(256, 0) == 1,
        pow(256, 1) == 0x100,
        pow(256, 2) == 0x10000,
        pow(256, 3) == 0x1000000,
        pow(256, 4) == 0x100000000,
        pow(256, 5) == 0x10000000000,
        pow(256, 6) == 0x1000000000000,
        pow(256, 7) == 0x100000000000000,
        pow(256, 8) == 0x10000000000000000,
        pow(256, 15) == 0x1000000000000000000000000000000,
        pow(256, 16) == 0x100000000000000000000000000000000,
{
    reveal_with_fuel(pow, 17);
}

pub proof fn lemma_be_bytes_len(v: nat, n: nat)
    ensures
        spec_be_bytes(v, n).len() == n,
    decreases n,
{
    if n > 0 {
        lemma_be_bytes_len(v / 256, (n - 1) as nat);
    }
}

pub proof fn lemma_be_val_bound(s: Seq<u8>)
    ensures
        spec_be_val(s) < pow(256, s.len()),
    decreases s.len(),
{
    if s.len() == 0 {
        lemma_pow256_values();
    } else {
        lemma_be_val_bound(s.drop_last());
        lemma_pow_adds(256, (s.len() - 1) as nat, 1);
        assert(pow(256, 1) == 256) by {
            lemma_pow256_values();
        }
        assert(spec_be_val(s.drop_last()) * 256 + s.last() < pow(256, (s.len() - 1) as nat) * 256)
            by (nonlinear_arith)
            requires
                spec_be_val(s.drop_last()) < pow(256, (s.len() - 1) as nat),
                s.last() < 256,
        ;
    }
}

/// Reading back an `n`-byte big-endian encoding recovers the value:
/// the round-trip law behind every fixed-width integer codec.
pub proof fn lemma_be_round_trip(v: nat, n: nat)
    requires
        v < pow(256, n),
    ensures
        spec_be_bytes(v, n).len() == n,
        spec_be_val(spec_be_bytes(v, n)) == v,
    decreases n,
{
    lemma_be_bytes_len(v, n);
    if n == 0 {
        lemma_pow256_values();
    } else {
        lemma_pow_adds(256, (n - 1) as nat, 1);
        assert(pow(256, 1) == 256) by {
            lemma_pow256_values();
        }
        assert(v / 256 < pow(256, (n - 1) as nat)) by (nonlinear_arith)
            requires
                v < pow(256, (n - 1) as nat) * 256,
        ;
        lemma_be_round_trip(v / 256, (n - 1) as nat);
        let s = spec_be_bytes(v, n);
        lemma_be_bytes_len(v / 256, (n - 1) as nat);
        assert(s.drop_last() =~= spec_be_bytes(v / 256, (n - 1) as nat));
        assert(s.last() == (v % 256) as u8);
        lemma_fundamental_div_mod(v as int, 256);
    }
}

/// Emits the `width`-byte big-endian encoding of `value`.
fn be_encode(value: u128, width: usize) -> (r: Vec<u8>)
    requires
        width <= 16,
    ensures
        r@ == spec_be_bytes(value as nat, width as nat),
{
    let mut out: Vec<u8> = Vec::new();
    let mut tmp: u128 = value;
    let mut i: usize = 0;
    while i < width
        invariant
            i <= width,
            spec_be_bytes(value as nat, width as nat) == spec_be_bytes(
                tmp as nat,
                (width - i) as nat,
            ) + out@,
        decreases width - i,
    {
        let ghost prev = out@;
        let b: u8 = (tmp % 256) as u8;
        out.insert(0, b);
        proof {
            assert(spec_be_bytes(tmp as nat, (width - i) as nat) == spec_be_bytes(
                (tmp as nat) / 256,
                (width - i - 1) as nat,
            ) + seq![b]);
            assert(spec_be_bytes((tmp as nat) / 256, (width - i - 1) as nat) + seq![b] + prev
                =~= spec_be_bytes((tmp as nat) / 256, (width - i - 1) as nat) + out@);
        }
        tmp = tmp / 256;
        i = i + 1;
    }
    proof {
        assert(spec_be_bytes(tmp as nat, 0) + out@ =~= out@);
    }
    out
}

/// Consumes `width` bytes from the front of `data` and reads them big-endian.
fn be_decode(data: &mut Vec<u8>, width: usize) -> (r: Result<u128, PacketError>)
    requires
        width <= 16,
    ensures
        match r {
            Ok(v) => old(data)@.len() >= width && v as nat == spec_be_val(
                old(data)@.take(width as int),
            ) && final(data)@ == old(data)@.skip(width as int),
            Err(e) => e == PacketError::RanOutOfBytes && old(data)@.len() < width && final(data)@ == old(data)@,
        },
{
    if data.len() < width {
        return Err(PacketError::RanOutOfBytes);
    }
    let ghost orig = data@;
    let mut value: u128 = 0;
    let mut i: usize = 0;
    proof {
        assert(orig.take(0) =~= Seq::<u8>::empty());
    }
    while i < width
        invariant
            i <= width <= 16,
            orig.len() >= width,
            data@ == orig.skip(i as int),
            value as nat == spec_be_val(orig.take(i as int)),
        decreases width - i,
    {
        proof {
            lemma_be_val_bound(orig.take(i as int));
            lemma_pow256_values();
            lemma_pow_increases(256, i as nat, 15);
            assert((value as nat) * 256 + 255 < 0x100000000000000000000000000000000)
                by (nonlinear_arith)
                requires
                    (value as nat) < 0x1000000000000000000000000000000,
            ;
        }
        let b: u8 = data.remove(0);
        value = value * 256 + (b as u128);
        proof {
            assert(orig.take((i + 1) as int).drop_last() =~= orig.take(i as int));
            assert(orig.take((i + 1) as int).last() == orig[i as int]);
            assert(data@ =~= orig.skip((i + 1) as int));
        }
        i = i + 1;
    }
    Ok(value)
}

// ---------------------------------------------------------------------------
// Booleans and bytes
// ---------------------------------------------------------------------------

/// Consumes one byte; any non-zero value reads as `true`.
pub fn get_bool(data: &mut Vec<u8>) -> (r: Result<bool, PacketError>)
    ensures
        match r {
            Ok(v) => old(data)@.len() >= 1 && v == (old(data)@[0] != 0) && final(data)@ == old(data)@.skip(1),
            Err(e) => e == PacketError::RanOutOfBytes && old(data)@.len() == 0 && final(data)@ == old(data)@,
        },
{
    if data.len() < 1 {
        return Err(PacketError::RanOutOfBytes);
    }
    let b = data.remove(0);
    proof {
        assert(data@ =~= old(data)@.skip(1));
    }
    Ok(b != 0)
}

/// Emits one byte: 1 for `true`, 0 for `false`.
pub fn convert_bool(value: bool) -> (r: Vec<u8>)
    ensures
        r@ == seq![if value { 1u8 } else { 0u8 }],
{
    let mut out: Vec<u8> = Vec::new();
    if value {
        out.push(1);
    } else {
        out.push(0);
    }
    proof {
        assert(out@ =~= seq![if value { 1u8 } else { 0u8 }]);
    }
    out
}

/// Consumes one byte.
pub fn get_u8(data: &mut Vec<u8>) -> (r: Result<u8, PacketError>)
    ensures
        match r {
            Ok(v) => old(data)@.len() >= 1 && v == old(data)@[0] && final(data)@ == old(data)@.skip(1),
            Err(e) => e == PacketError::RanOutOfBytes && old(data)@.len() == 0 && final(data)@ == old(data)@,
        },
{
    if data.len() < 1 {
        return Err(PacketError::RanOutOfBytes);
    }
    let b = data.remove(0);
    proof {
        assert(data@ =~= old(data)@.skip(1));
    }
    Ok(b)
}

/// The two's-complement reinterpretation of a `u8` as an `i8`.
pub open spec fn spec_i8_of_u8(v: u8) -> i8 {
    if v < 0x80 {
        v as i8
    } else {
        (v - 0x100) as i8
    }
}

/// The two's-complement reinterpretation of an `i8` as a `u8`.
pub open spec fn spec_u8_of_i8(v: i8) -> u8 {
    if v >= 0 {
        v as u8
    } else {
        (v + 0x100) as u8
    }
}

/// The two's-complement reinterpretation of a `u16` as an `i16`.
pub open spec fn spec_i16_of_u16(v: u16) -> i16 {
    if v < 0x8000 {
        v as i16
    } else {
        (v - 0x10000) as i16
    }
}

/// The two's-complement reinterpretation of an `i16` as a `u16`.
pub open spec fn spec_u16_of_i16(v: i16) -> u16 {
    if v >= 0 {
        v as u16
    } else {
        (v + 0x10000) as u16
    }
}

/// The two's-complement reinterpretation of a `u32` as an `i32`.
pub open spec fn spec_i32_of_u32(v: u32) -> i32 {
    if v < 0x80000000 {
        v as i32
    } else {
        (v - 0x100000000) as i32
    }
}

/// The two's-complement reinterpretation of an `i32` as a `u32`.
pub open spec fn spec_u32_of_i32(v: i32) -> u32 {
    if v >= 0 {
        v as u32
    } else {
        (v + 0x100000000) as u32
    }
}

/// The two's-complement reinterpretation of a `u64` as an `i64`.
pub open spec fn spec_i64_of_u64(v: u64) -> i64 {
    if v < 0x8000000000000000 {
        v as i64
    } else {
        (v - 0x10000000000000000) as i64
    }
}

/// The two's-complement reinterpretation of an `i64` as a `u64`.
pub open spec fn spec_u64_of_i64(v: i64) -> u64 {
    if v >= 0 {
        v as u64
    } else {
        (v + 0x10000000000000000) as u64
    }
}

/// Emits one byte.
pub fn convert_u8(value: u8) -> (r: Vec<u8>)
    ensures
        r@ == seq![value],
{
    let mut out: Vec<u8> = Vec::new();
    out.push(value);
    proof {
        assert(out@ =~= seq![value]);
    }
    out
}

/// Consumes one byte as a signed value.
pub fn get_i8(data: &mut Vec<u8>) -> (r: Result<i8, PacketError>)
    ensures
        match r {
            Ok(v) => old(data)@.len() >= 1 && v == spec_i8_of_u8(old(data)@[0]) && final(data)@
                == old(data)@.skip(1),
            Err(e) => e == PacketError::RanOutOfBytes && old(data)@.len() == 0 && final(data)@
                == old(data)@,
        },
{
    let b = get_u8(data)?;
    if b < 0x80 {
        Ok(b as i8)
    } else {
        Ok(((b as i16) - 0x100) as i8)
    }
}

/// Emits one byte, two's complement.
pub fn convert_i8(value: i8) -> (r: Vec<u8>)
    ensures
        r@ == seq![spec_u8_of_i8(value)],
{
    if value >= 0 {
        convert_u8(value as u8)
    } else {
        convert_u8(((value as i16) + 0x100) as u8)
    }
}

/// Consumes two bytes big-endian.
pub fn get_u16(data: &mut Vec<u8>) -> (r: Result<u16, PacketError>)
    ensures
        match r {
            Ok(v) => old(data)@.len() >= 2 && v as nat == spec_be_val(old(data)@.take(2))
                && final(data)@ == old(data)@.skip(2),
            Err(e) => e == PacketError::RanOutOfBytes && old(data)@.len() < 2 && final(data)@
                == old(data)@,
        },
{
    let v = be_decode(data, 2)?;
    proof {
        lemma_be_val_bound(old(data)@.take(2));
        lemma_pow256_values();
    }
    Ok(v as u16)
}

/// Emits two bytes big-endian.
pub fn convert_u16(value: u16) -> (r: Vec<u8>)
    ensures
        r@ == spec_be_bytes(value as nat, 2),
{
    be_encode(value as u128, 2)
}

/// Consumes two bytes big-endian as a signed value.
pub fn get_i16(data: &mut Vec<u8>) -> (r: Result<i16, PacketError>)
    ensures
        match r {
            Ok(v) => old(data)@.len() >= 2 && v == spec_i16_of_u16(
                spec_be_val(old(data)@.take(2)) as u16,
            ) && final(data)@ == old(data)@.skip(2),
            Err(e) => e == PacketError::RanOutOfBytes && old(data)@.len() < 2 && final(data)@
                == old(data)@,
        },
{
    let v = get_u16(data)?;
    if v < 0x8000 {
        Ok(v as i16)
    } else {
        Ok(((v as i32) - 0x10000) as i16)
    }
}

/// Emits two bytes big-endian, two's complement.
pub fn convert_i16(value: i16) -> (r: Vec<u8>)
    ensures
        r@ == spec_be_bytes(spec_u16_of_i16(value) as nat, 2),
{
    if value >= 0 {
        convert_u16(value as u16)
    } else {
        convert_u16(((value as i32) + 0x10000) as u16)
    }
}

/// Consumes four bytes big-endian.
pub fn get_u32(data: &mut Vec<u8>) -> (r: Result<u32, PacketError>)
    ensures
        match r {
            Ok(v) => old(data)@.len() >= 4 && v as nat == spec_be_val(old(data)@.take(4))
                && final(data)@ == old(data)@.skip(4),
            Err(e) => e == PacketError::RanOutOfBytes && old(data)@.len() < 4 && final(data)@
                == old(data)@,
        },
{
    let v = be_decode(data, 4)?;
    proof {
        lemma_be_val_bound(old(data)@.take(4));
        lemma_pow256_values();
    }
    Ok(v as u32)
}

/// Emits four bytes big-endian.
pub fn convert_u32(value: u32) -> (r: Vec<u8>)
    ensures
        r@ == spec_be_bytes(value as nat, 4),
{
    be_encode(value as u128, 4)
}

/// Consumes four bytes big-endian as a signed value.
pub fn get_i32(data: &mut Vec<u8>) -> (r: Result<i32, PacketError>)
    ensures
        match r {
            Ok(v) => old(data)@.len() >= 4 && v == spec_i32_of_u32(
                spec_be_val(old(data)@.take(4)) as u32,
            ) && final(data)@ == old(data)@.skip(4),
            Err(e) => e == PacketError::RanOutOfBytes && old(data)@.len() < 4 && final(data)@
                == old(data)@,
        },
{
    let v = get_u32(data)?;
    if v < 0x80000000 {
        Ok(v as i32)
    } else {
        Ok(((v as i64) - 0x100000000) as i32)
    }
}

/// Emits four bytes big-endian, two's complement.
pub fn convert_i32(value: i32) -> (r: Vec<u8>)
    ensures
        r@ == spec_be_bytes(spec_u32_of_i32(value) as nat, 4),
{
    if value >= 0 {
        convert_u32(value as u32)
    } else {
        convert_u32(((value as i64) + 0x100000000) as u32)
    }
}

/// Consumes eight bytes big-endian.
pub fn get_u64(data: &mut Vec<u8>) -> (r: Result<u64, PacketError>)
    ensures
        match r {
            Ok(v) => old(data)@.len() >= 8 && v as nat == spec_be_val(old(data)@.take(8))
                && final(data)@ == old(data)@.skip(8),
            Err(e) => e == PacketError::RanOutOfBytes && old(data)@.len() < 8 && final(data)@
                == old(data)@,
        },
{
    let v = be_decode(data, 8)?;
    proof {
        lemma_be_val_bound(old(data)@.take(8));
        lemma_pow256_values();
    }
    Ok(v as u64)
}

/// Emits eight bytes big-endian.
pub fn convert_u64(value: u64) -> (r: Vec<u8>)
    ensures
        r@ == spec_be_bytes(value as nat, 8),
{
    be_encode(value as u128, 8)
}

/// Consumes eight bytes big-endian as a signed value.
pub fn get_i64(data: &mut Vec<u8>) -> (r: Result<i64, PacketError>)
    ensures
        match r {
            Ok(v) => old(data)@.len() >= 8 && v == spec_i64_of_u64(
                spec_be_val(old(data)@.take(8)) as u64,
            ) && final(data)@ == old(data)@.skip(8),
            Err(e) => e == PacketError::RanOutOfBytes && old(data)@.len() < 8 && final(data)@
                == old(data)@,
        },
{
    let v = get_u64(data)?;
    if v < 0x8000000000000000 {
        Ok(v as i64)
    } else {
        Ok(((v as i128) - 0x10000000000000000) as i64)
    }
}

/// Emits eight bytes big-endian, two's complement.
pub fn convert_i64(value: i64) -> (r: Vec<u8>)
    ensures
        r@ == spec_be_bytes(spec_u64_of_i64(value) as nat, 8),
{
    if value >= 0 {
        convert_u64(value as u64)
    } else {
        convert_u64(((value as i128) + 0x10000000000000000) as u64)
    }
}

/// Consumes sixteen bytes big-endian as a 128-bit UUID.
pub fn get_uuid(data: &mut Vec<u8>) -> (r: Result<u128, PacketError>)
    ensures
        match r {
            Ok(v) => old(data)@.len() >= 16 && v as nat == spec_be_val(old(data)@.take(16))
                && final(data)@ == old(data)@.skip(16),
            Err(e) => e == PacketError::RanOutOfBytes && old(data)@.len() < 16 && final(data)@
                == old(data)@,
        },
{
    be_decode(data, 16)
}

/// Emits sixteen bytes big-endian.
pub fn convert_uuid(value: u128) -> (r: Vec<u8>)
    ensures
        r@ == spec_be_bytes(value as nat, 16),
{
    be_encode(value, 16)
}

// ---------------------------------------------------------------------------
// VarInt / VarLong
// ---------------------------------------------------------------------------

/// The 7-bits-per-byte continuation encoding of `v`: each byte carries the
/// next-lower 7 bits, with the high bit set on every byte but the last.
pub open spec fn spec_var_bytes(v: nat) -> Seq<u8>
    decreases v,
{
    if v < 128 {
        seq![v as u8]
    } else {
        seq![(128 + v % 128) as u8] + spec_var_bytes(v / 128)
    }
}

/// Parses a continuation-encoded integer from the front of `data`, reading at
/// most `max` bytes.  Returns the value and the number of bytes consumed.
pub open spec fn spec_parse_var(data: Seq<u8>, max: nat) -> Result<(nat, nat), PacketError>
    decreases data.len(),
{
    if data.len() == 0 {
        Err(PacketError::RanOutOfBytes)
    } else if data[0] < 128 {
        Ok((data[0] as nat, 1))
    } else if max <= 1 {
        Err(PacketError::ValueTooLarge)
    } else {
        match spec_parse_var(data.skip(1), (max - 1) as nat) {
            Ok(p) => Ok((((data[0] - 128) as nat) + 128 * p.0, p.1 + 1)),
            Err(e) => Err(e),
        }
    }
}

/// Ground values of the powers of 128 that the VarInt widths use.
pub proof fn lemma_pow128_values()
    ensures
        pow(128, 0) == 1,
        pow(128, 1) == 0x80,
        pow(128, 4) == 0x10000000,
        pow(128, 5) == 0x800000000,
        pow(128, 9) == 0x8000000000000000,
        pow(128, 10) == 0x400000000000000000,
{
    reveal_with_fuel(pow, 11);
}

/// A value below `128^n` encodes in at most `n` bytes.
pub proof fn lemma_var_bytes_len(v: nat, n: nat)
    requires
        n >= 1,
        v < pow(128, n),
    ensures
        1 <= spec_var_bytes(v).len() <= n,
    decreases n,
{
    if v >= 128 {
        lemma_pow_adds(128, (n - 1) as nat, 1);
        assert(pow(128, 1) == 128) by {
            lemma_pow128_values();
        }
        assert(v / 128 < pow(128, (n - 1) as nat)) by (nonlinear_arith)
            requires
                v < pow(128, (n - 1) as nat) * 128,
        ;
        assert(n - 1 >= 1) by {
            if n == 1 {
                assert(pow(128, 1) == 128) by {
                    lemma_pow128_values();
                }
            }
        }
        lemma_var_bytes_len(v / 128, (n - 1) as nat);
    }
}

/// Parsing an encoding, with anything behind it, recovers the encoded value
/// and consumes exactly the encoding: the VarInt/VarLong round-trip law.
pub proof fn lemma_var_round_trip(v: nat, max: nat, rest: Seq<u8>)
    requires
        spec_var_bytes(v).len() <= max,
    ensures
        spec_parse_var(spec_var_bytes(v) + rest, max) == Ok::<(nat, nat), PacketError>(
            (v, spec_var_bytes(v).len()),
        ),
    decreases v,
{
    let s = spec_var_bytes(v) + rest;
    if v < 128 {
        assert(s[0] == v as u8);
    } else {
        assert(v / 128 < v) by (nonlinear_arith)
            requires
                v >= 128,
        ;
        assert(s[0] == (128 + v % 128) as u8);
        assert(s.skip(1) =~= spec_var_bytes(v / 128) + rest);
        lemma_var_round_trip(v / 128, (max - 1) as nat, rest);
        lemma_fundamental_div_mod(v as int, 128);
    }
}

/// Composes an inner parse result with `k` bytes already consumed, whose
/// groups assemble to `value`, the next group weighing `m`.
pub open spec fn spec_parse_var_compose(
    inner: Result<(nat, nat), PacketError>,
    value: nat,
    m: nat,
    k: nat,
) -> Result<(nat, nat), PacketError> {
    match inner {
        Ok(p) => Ok((value + m * p.0, k + p.1)),
        Err(e) => Err(e),
    }
}

/// What remains in a buffer after a failed VarInt parse: every examined byte
/// is consumed, so an exhausted buffer is left empty, and an overlong value
/// leaves everything behind its `max` continuation bytes.
pub open spec fn spec_var_err_rest(data: Seq<u8>, max: nat) -> Seq<u8> {
    if spec_parse_var(data, max) == Err::<(nat, nat), PacketError>(PacketError::RanOutOfBytes) {
        Seq::<u8>::empty()
    } else {
        data.skip(max as int)
    }
}

/// Arithmetic of one continuation-group step: the next group keeps the value
/// below the next weight, and weights distribute over the group sum.
proof fn lemma_var_group_step(value: nat, m: nat, g: nat, p0: nat)
    by (nonlinear_arith)
    requires
        value < m,
        g < 128,
    ensures
        value + m * g < m * 128,
        value + m * (g + 128 * p0) == (value + m * g) + (m * 128) * p0,
{
}

/// Reads a continuation-encoded value of at most `max_bytes` bytes.
#[verifier::loop_isolation(false)]
fn get_var_u128(data: &mut Vec<u8>, max_bytes: usize) -> (r: Result<u128, PacketError>)
    requires
        1 <= max_bytes <= 10,
    ensures
        ({
            let sp = spec_parse_var(old(data)@, max_bytes as nat);
            match r {
                Ok(v) => sp matches Ok(p) && v as nat == p.0 && final(data)@ == old(data)@.skip(
                    p.1 as int,
                ),
                Err(e) => sp == Err::<(nat, nat), PacketError>(e) && final(data)@
                    == spec_var_err_rest(old(data)@, max_bytes as nat),
            }
        }),
{
    let ghost orig = data@;
    let mut value: u128 = 0;
    let mut m: u128 = 1;
    let mut k: usize = 0;
    proof {
        lemma_pow128_values();
        assert(orig.skip(0) =~= orig);
    }
    loop
        invariant
            k < max_bytes <= 10,
            k <= orig.len(),
            data@ == orig.skip(k as int),
            m as nat == pow(128, k as nat),
            value < m,
            spec_parse_var(orig, max_bytes as nat) == spec_parse_var_compose(
                spec_parse_var(orig.skip(k as int), (max_bytes - k) as nat),
                value as nat,
                m as nat,
                k as nat,
            ),
        decreases max_bytes - k,
    {
        proof {
            lemma_pow128_values();
            lemma_pow_increases(128, k as nat, 9);
        }
        if data.len() == 0 {
            proof {
                assert(orig.skip(k as int).len() == 0);
                assert(spec_parse_var(orig.skip(k as int), (max_bytes - k) as nat) == Err::<
                    (nat, nat),
                    PacketError,
                >(PacketError::RanOutOfBytes));
                assert(data@ =~= Seq::<u8>::empty());
            }
            return Err(PacketError::RanOutOfBytes);
        }
        let b: u8 = data.remove(0);
        proof {
            assert(orig.skip(k as int)[0] == orig[k as int]);
            assert(orig.skip(k as int).skip(1) =~= orig.skip(k as int + 1));
        }
        if b < 128 {
            proof {
                lemma_var_group_step(value as nat, m as nat, b as nat, 0);
            }
            let v = value + m * (b as u128);
            proof {
                assert(spec_parse_var(orig.skip(k as int), (max_bytes - k) as nat)
                    == Ok::<(nat, nat), PacketError>((b as nat, 1)));
            }
            return Ok(v);
        }
        if k + 1 >= max_bytes {
            proof {
                assert(spec_parse_var(orig.skip(k as int), (max_bytes - k) as nat) == Err::<
                    (nat, nat),
                    PacketError,
                >(PacketError::ValueTooLarge));
                assert(data@ =~= orig.skip(max_bytes as int));
            }
            return Err(PacketError::ValueTooLarge);
        }
        let ghost old_value = value as nat;
        let ghost old_m = m as nat;
        proof {
            lemma_var_group_step(value as nat, m as nat, (b - 128) as nat, 0);
        }
        value = value + m * ((b - 128) as u128);
        m = m * 128;
        proof {
            lemma_var_group_step(old_value, old_m, (b - 128) as nat, 0);
            lemma_pow_adds(128, k as nat, 1);
            let inner = spec_parse_var(orig.skip(k as int + 1), (max_bytes - k - 1) as nat);
            if inner is Ok {
                let p = inner->Ok_0;
                lemma_var_group_step(old_value, old_m, (b - 128) as nat, p.0);
            }
        }
        k = k + 1;
    }
}

/// The VarInt decoding of a byte sequence: the parsed 32-bit value, sign
/// reinterpreted, with the unread remainder.
#[verifier::opaque]
pub open spec fn spec_get_var_int(data: Seq<u8>) -> Result<(i32, Seq<u8>), PacketError> {
    match spec_parse_var(data, 5) {
        Ok(p) => Ok((spec_i32_of_u32((p.0 % 0x100000000) as u32), data.skip(p.1 as int))),
        Err(e) => Err(e),
    }
}

/// The VarLong decoding of a byte sequence.
#[verifier::opaque]
pub open spec fn spec_get_var_long(data: Seq<u8>) -> Result<(i64, Seq<u8>), PacketError> {
    match spec_parse_var(data, 10) {
        Ok(p) => Ok((spec_i64_of_u64((p.0 % 0x10000000000000000) as u64), data.skip(p.1 as int))),
        Err(e) => Err(e),
    }
}

/// Reads a VarInt: at most 5 continuation bytes, reinterpreted as a signed
/// 32-bit value.
pub fn get_var_int(data: &mut Vec<u8>) -> (r: Result<i32, PacketError>)
    ensures
        match r {
            Ok(v) => spec_get_var_int(old(data)@) matches Ok(p) && v == p.0 && final(data)@ == p.1,
            Err(e) => spec_get_var_int(old(data)@) == Err::<(i32, Seq<u8>), PacketError>(e)
                && final(data)@ == spec_var_err_rest(old(data)@, 5),
        },
{
    proof {
        reveal(spec_get_var_int);
    }
    let v = get_var_u128(data, 5)?;
    let u: u32 = (v % 0x100000000) as u32;
    if u < 0x80000000 {
        Ok(u as i32)
    } else {
        Ok(((u as i64) - 0x100000000) as i32)
    }
}

/// Emits a VarInt: the continuation encoding of the value's unsigned 32-bit
/// reinterpretation, at most 5 bytes.
pub fn convert_var_int(value: i32) -> (r: Vec<u8>)
    ensures
        r@ == spec_var_bytes(spec_u32_of_i32(value) as nat),
        1 <= r@.len() <= 5,
{
    let u: u32 = if value >= 0 {
        value as u32
    } else {
        ((value as i64) + 0x100000000) as u32
    };
    proof {
        lemma_pow128_values();
        lemma_var_bytes_len(u as nat, 5);
    }
    convert_var_u128(u as u128)
}

/// Reads a VarLong: at most 10 continuation bytes, reinterpreted as a signed
/// 64-bit value.
pub fn get_var_long(data: &mut Vec<u8>) -> (r: Result<i64, PacketError>)
    ensures
        match r {
            Ok(v) => spec_get_var_long(old(data)@) matches Ok(p) && v == p.0 && final(data)@
                == p.1,
            Err(e) => spec_get_var_long(old(data)@) == Err::<(i64, Seq<u8>), PacketError>(e)
                && final(data)@ == spec_var_err_rest(old(data)@, 10),
        },
{
    proof {
        reveal(spec_get_var_long);
    }
    let v = get_var_u128(data, 10)?;
    let u: u64 = (v % 0x10000000000000000) as u64;
    if u < 0x8000000000000000 {
        Ok(u as i64)
    } else {
        Ok(((u as i128) - 0x10000000000000000) as i64)
    }
}

/// Emits a VarLong: the continuation encoding of the value's unsigned 64-bit
/// reinterpretation, at most 10 bytes.
pub fn convert_var_long(value: i64) -> (r: Vec<u8>)
    ensures
        r@ == spec_var_bytes(spec_u64_of_i64(value) as nat),
        1 <= r@.len() <= 10,
{
    let u: u64 = if value >= 0 {
        value as u64
    } else {
        ((value as i128) + 0x10000000000000000) as u64
    };
    proof {
        lemma_pow128_values();
        lemma_var_bytes_len(u as nat, 10);
    }
    convert_var_u128(u as u128)
}

/// Emits the continuation encoding of an unsigned value.
fn convert_var_u128(value: u128) -> (r: Vec<u8>)
    ensures
        r@ == spec_var_bytes(value as nat),
{
    let mut out: Vec<u8> = Vec::new();
    let mut tmp: u128 = value;
    proof {
        assert(Seq::<u8>::empty() + spec_var_bytes(value as nat) =~= spec_var_bytes(
            value as nat,
        ));
    }
    loop
        invariant
            spec_var_bytes(value as nat) == out@ + spec_var_bytes(tmp as nat),
        decreases tmp,
    {
        let ghost prev = out@;
        if tmp < 128 {
            out.push(tmp as u8);
            proof {
                assert(prev + spec_var_bytes(tmp as nat) =~= out@);
            }
            return out;
        }
        out.push((128 + (tmp % 128)) as u8);
        proof {
            assert(spec_var_bytes(tmp as nat) == seq![(128 + (tmp as nat) % 128) as u8]
                + spec_var_bytes((tmp as nat) / 128));
            assert(prev + (seq![(128 + (tmp as nat) % 128) as u8] + spec_var_bytes(
                (tmp as nat) / 128,
            )) =~= out@ + spec_var_bytes((tmp as nat) / 128));
            assert((tmp as nat) / 128 < tmp as nat) by (nonlinear_arith)
                requires
                    tmp >= 128,
            ;
        }
        tmp = tmp / 128;
    }
}

/// VarInt round trip: decoding the encoding of any 32-bit value, with any
/// bytes behind it, yields the value back and leaves exactly those bytes.
pub proof fn lemma_var_int_round_trip(v: i32, rest: Seq<u8>)
    ensures
        spec_get_var_int(spec_var_bytes(spec_u32_of_i32(v) as nat) + rest) == Ok::<
            (i32, Seq<u8>),
            PacketError,
        >((v, rest)),
        1 <= spec_var_bytes(spec_u32_of_i32(v) as nat).len() <= 5,
{
    reveal(spec_get_var_int);
    let u = spec_u32_of_i32(v) as nat;
    lemma_pow128_values();
    lemma_var_bytes_len(u, 5);
    lemma_var_round_trip(u, 5, rest);
    let s = spec_var_bytes(u) + rest;
    assert(s.skip(spec_var_bytes(u).len() as int) =~= rest);
}

/// VarLong round trip.
pub proof fn lemma_var_long_round_trip(v: i64, rest: Seq<u8>)
    ensures
        spec_get_var_long(spec_var_bytes(spec_u64_of_i64(v) as nat) + rest) == Ok::<
            (i64, Seq<u8>),
            PacketError,
        >((v, rest)),
        1 <= spec_var_bytes(spec_u64_of_i64(v) as nat).len() <= 10,
{
    reveal(spec_get_var_long);
    let u = spec_u64_of_i64(v) as nat;
    lemma_pow128_values();
    lemma_var_bytes_len(u, 10);
    lemma_var_round_trip(u, 10, rest);
    let s = spec_var_bytes(u) + rest;
    assert(s.skip(spec_var_bytes(u).len() as int) =~= rest);
}

// ---------------------------------------------------------------------------
// Strings and byte arrays
// ---------------------------------------------------------------------------

/// What `String::from_utf8_lossy` returns on bytes that are not valid UTF-8.
pub uninterp spec fn utf8_lossy_raw(bytes: Seq<u8>) -> Seq<char>;

/// The lossy UTF-8 decoding of a byte sequence: the exact UTF-8 decoding
/// where the bytes are valid, and the replacement-character result where
/// they are not.
#[verifier::opaque]
pub open spec fn spec_utf8_lossy(bytes: Seq<u8>) -> Seq<char> {
    if vstd::utf8::valid_utf8(bytes) {
        vstd::utf8::decode_utf8(bytes)
    } else {
        utf8_lossy_raw(bytes)
    }
}

/// Relies on String::from_utf8_lossy: on valid UTF-8 it returns exactly the
/// decoded string, and its result depends on the bytes alone.
#[verifier::external_body]
fn lossy_string_from_bytes(bytes: &Vec<u8>) -> (r: String)
    ensures
        vstd::utf8::valid_utf8(bytes@) ==> r@ == vstd::utf8::decode_utf8(bytes@),
        !vstd::utf8::valid_utf8(bytes@) ==> r@ == utf8_lossy_raw(bytes@),
        r@ == spec_utf8_lossy(bytes@),
{
    String::from_utf8_lossy(bytes.as_slice()).into_owned()
}

/// The byte-level decoding of a length-prefixed field: a VarInt length, then
/// that many content bytes; the unread remainder follows.
#[verifier::opaque]
pub open spec fn spec_get_prefixed_bytes(data: Seq<u8>) -> Result<(Seq<u8>, Seq<u8>), PacketError> {
    match spec_get_var_int(data) {
        Ok(p) => if p.0 < 0 || p.1.len() < p.0 {
            Err(PacketError::RanOutOfBytes)
        } else {
            Ok((p.1.take(p.0 as int), p.1.skip(p.0 as int)))
        },
        Err(e) => Err(e),
    }
}

/// The wire encoding of a String: a VarInt byte length, then UTF-8 bytes.
#[verifier::opaque]
pub open spec fn spec_convert_string(s: Seq<char>) -> Seq<u8> {
    spec_var_bytes(vstd::utf8::encode_utf8(s).len()) + vstd::utf8::encode_utf8(s)
}

/// The wire encoding of a ByteArray: a VarInt length, then the raw bytes.
#[verifier::opaque]
pub open spec fn spec_convert_byte_array(s: Seq<u8>) -> Seq<u8> {
    spec_var_bytes(s.len()) + s
}

/// What remains in a buffer after a failed length-prefixed read: a failed
/// length parse consumes its examined bytes; a negative or oversized length
/// leaves everything behind the length prefix unexamined.
pub open spec fn spec_prefixed_err_rest(data: Seq<u8>) -> Seq<u8> {
    match spec_get_var_int(data) {
        Ok(q) => q.1,
        Err(e) => spec_var_err_rest(data, 5),
    }
}

/// Consumes a VarInt byte length and that many bytes, decoded as UTF-8 with
/// replacement on ill-formed sequences.
pub fn get_string(data: &mut Vec<u8>) -> (r: Result<String, PacketError>)
    ensures
        match r {
            Ok(s) => spec_get_prefixed_bytes(old(data)@) matches Ok(p) && s@ == spec_utf8_lossy(
                p.0,
            ) && final(data)@ == p.1,
            Err(e) => spec_get_prefixed_bytes(old(data)@) == Err::<(Seq<u8>, Seq<u8>), PacketError>(
                e,
            ) && final(data)@ == spec_prefixed_err_rest(old(data)@),
        },
{
    let content = get_prefixed_bytes(data)?;
    Ok(lossy_string_from_bytes(&content))
}

/// Emits a String: a VarInt byte length followed by the UTF-8 bytes.
pub fn convert_string(s: &str) -> (r: Vec<u8>)
    requires
        vstd::utf8::encode_utf8(s@).len() < 0x80000000,
    ensures
        r@ == spec_convert_string(s@),
{
    proof {
        reveal(spec_convert_string);
    }
    let bytes = s.as_bytes();
    let len: usize = bytes.len();
    let mut out = convert_var_int(len as i32);
    let ghost head = out@;
    let mut i: usize = 0;
    while i < bytes.len()
        invariant
            i <= bytes@.len(),
            bytes@ == vstd::utf8::encode_utf8(s@),
            out@ == head + bytes@.take(i as int),
        decreases bytes@.len() - i,
    {
        out.push(bytes[i]);
        proof {
            assert(head + bytes@.take(i as int) + seq![bytes@[i as int]] =~= head + bytes@.take(
                i as int + 1,
            ));
        }
        i = i + 1;
    }
    proof {
        assert(bytes@.take(bytes@.len() as int) =~= bytes@);
    }
    out
}

/// Consumes a VarInt length and that many raw bytes.
pub fn get_byte_array(data: &mut Vec<u8>) -> (r: Result<Vec<u8>, PacketError>)
    ensures
        match r {
            Ok(v) => spec_get_prefixed_bytes(old(data)@) matches Ok(p) && v@ == p.0 && final(data)@ == p.1,
            Err(e) => spec_get_prefixed_bytes(old(data)@) == Err::<(Seq<u8>, Seq<u8>), PacketError>(
                e,
            ) && final(data)@ == spec_prefixed_err_rest(old(data)@),
        },
{
    get_prefixed_bytes(data)
}

/// Emits a ByteArray: a VarInt length followed by the bytes, which are
/// drained from the argument.
pub fn convert_byte_array(s: &mut Vec<u8>) -> (r: Vec<u8>)
    requires
        old(s)@.len() < 0x80000000,
    ensures
        r@ == spec_convert_byte_array(old(s)@),
        final(s)@.len() == 0,
{
    proof {
        reveal(spec_convert_byte_array);
    }
    let len: usize = s.len();
    let mut out = convert_var_int(len as i32);
    out.append(s);
    out
}

/// Shared body of the length-prefixed decoders.
fn get_prefixed_bytes(data: &mut Vec<u8>) -> (r: Result<Vec<u8>, PacketError>)
    ensures
        match r {
            Ok(v) => spec_get_prefixed_bytes(old(data)@) matches Ok(p) && v@ == p.0 && final(data)@ == p.1,
            Err(e) => spec_get_prefixed_bytes(old(data)@) == Err::<(Seq<u8>, Seq<u8>), PacketError>(
                e,
            ) && final(data)@ == spec_prefixed_err_rest(old(data)@),
        },
{
    proof {
        reveal(spec_get_prefixed_bytes);
    }
    let len = get_var_int(data)?;
    if len < 0 {
        return Err(PacketError::RanOutOfBytes);
    }
    let len_us: usize = len as usize;
    if data.len() < len_us {
        return Err(PacketError::RanOutOfBytes);
    }
    let mut rest = data.split_off(len_us);
    core::mem::swap(data, &mut rest);
    proof {
        assert(rest@ =~= spec_get_prefixed_bytes(old(data)@)->Ok_0.0);
        assert(data@ =~= spec_get_prefixed_bytes(old(data)@)->Ok_0.1);
    }
    Ok(rest)
}

/// String round trip: the encoding of any string, decoded, yields the same
/// character sequence and leaves exactly the trailing bytes.
pub proof fn lemma_string_round_trip(s: Seq<char>, rest: Seq<u8>)
    requires
        vstd::utf8::encode_utf8(s).len() < 0x80000000,
    ensures
        spec_get_prefixed_bytes(spec_convert_string(s) + rest) == Ok::<
            (Seq<u8>, Seq<u8>),
            PacketError,
        >((vstd::utf8::encode_utf8(s), rest)),
        spec_utf8_lossy(vstd::utf8::encode_utf8(s)) == s,
{
    reveal(spec_utf8_lossy);
    reveal(spec_convert_string);
    reveal(spec_convert_byte_array);
    let bytes = vstd::utf8::encode_utf8(s);
    lemma_byte_array_round_trip(bytes, rest);
    broadcast use vstd::utf8::encode_utf8_valid_utf8;
    broadcast use vstd::utf8::encode_utf8_decode_utf8;

}

/// ByteArray round trip.
pub proof fn lemma_byte_array_round_trip(bytes: Seq<u8>, rest: Seq<u8>)
    requires
        bytes.len() < 0x80000000,
    ensures
        spec_get_prefixed_bytes(spec_convert_byte_array(bytes) + rest) == Ok::<
            (Seq<u8>, Seq<u8>),
            PacketError,
        >((bytes, rest)),
{
    reveal(spec_get_prefixed_bytes);
    reveal(spec_convert_byte_array);
    let len = bytes.len() as i32;
    assert(spec_u32_of_i32(len) == bytes.len());
    lemma_var_int_round_trip(len, bytes + rest);
    let whole = spec_convert_byte_array(bytes) + rest;
    assert(whole =~= spec_var_bytes(spec_u32_of_i32(len) as nat) + (bytes + rest));
    let p = spec_get_var_int(whole)->Ok_0;
    assert(p.0 == len && p.1 == bytes + rest);
    assert((bytes + rest).take(len as int) =~= bytes);
    assert((bytes + rest).skip(len as int) =~= rest);
}

/// The decoding of a `width`-byte big-endian field: its value and the
/// unread remainder.
#[verifier::opaque]
pub open spec fn spec_get_be(data: Seq<u8>, width: nat) -> Result<(nat, Seq<u8>), PacketError> {
    if data.len() < width {
        Err(PacketError::RanOutOfBytes)
    } else {
        Ok((spec_be_val(data.take(width as int)), data.skip(width as int)))
    }
}

/// Fixed-width field round trip, with any bytes behind the encoding.
pub proof fn lemma_be_field_round_trip(v: nat, width: nat, rest: Seq<u8>)
    requires
        v < pow(256, width),
    ensures
        spec_get_be(spec_be_bytes(v, width) + rest, width) == Ok::<(nat, Seq<u8>), PacketError>(
            (v, rest),
        ),
{
    reveal(spec_get_be);
    lemma_be_round_trip(v, width);
    let whole = spec_be_bytes(v, width) + rest;
    assert(whole.take(width as int) =~= spec_be_bytes(v, width));
    assert(whole.skip(width as int) =~= rest);
}

// ---------------------------------------------------------------------------
// Position
// ---------------------------------------------------------------------------

/// A block position: x and z are 26-bit signed, y is 12-bit signed, packed
/// into one 64-bit word as `x[63..38] | z[37..12] | y[11..0]`.
#[derive(Clone, Copy, Debug, PartialEq, Eq, Structural)]
pub struct Position {
    pub x: i32,
    pub z: i32,
    pub y: i16,
}

impl Position {
    /// The coordinates fit their bit windows.
    pub open spec fn wf(self) -> bool {
        &&& -0x2000000 <= self.x < 0x2000000
        &&& -0x2000000 <= self.z < 0x2000000
        &&& -0x800 <= self.y < 0x800
    }
}

/// The 26-bit two's-complement window of a coordinate.
pub open spec fn spec_mod26(v: i32) -> nat {
    ((v as int) % 0x4000000) as nat
}

/// The 12-bit two's-complement window of a coordinate.
pub open spec fn spec_mod12(v: i16) -> nat {
    ((v as int) % 0x1000) as nat
}

/// Sign extension of a 26-bit window.
pub open spec fn spec_sign26(m: nat) -> i32 {
    if m >= 0x2000000 {
        (m - 0x4000000) as i32
    } else {
        m as i32
    }
}

/// Sign extension of a 12-bit window.
pub open spec fn spec_sign12(m: nat) -> i16 {
    if m >= 0x800 {
        (m - 0x1000) as i16
    } else {
        m as i16
    }
}

/// The packed 64-bit word of a position.
pub open spec fn spec_position_word(p: Position) -> nat {
    spec_mod26(p.x) * 0x4000000000 + spec_mod26(p.z) * 0x1000 + spec_mod12(p.y)
}

/// The position decoded from a packed word.
pub open spec fn spec_position_of_word(w: nat) -> Position {
    Position {
        x: spec_sign26(w / 0x4000000000),
        z: spec_sign26((w % 0x4000000000) / 0x1000),
        y: spec_sign12(w % 0x1000),
    }
}

/// The decoding of a Position field: eight bytes big-endian, unpacked.
pub open spec fn spec_get_position(data: Seq<u8>) -> Result<(Position, Seq<u8>), PacketError> {
    if data.len() < 8 {
        Err(PacketError::RanOutOfBytes)
    } else {
        Ok((spec_position_of_word(spec_be_val(data.take(8))), data.skip(8)))
    }
}

/// Consumes eight bytes and unpacks the position bit fields, sign extended.
pub fn get_position(data: &mut Vec<u8>) -> (r: Result<Position, PacketError>)
    ensures
        match r {
            Ok(p) => spec_get_position(old(data)@) matches Ok(q) && p == q.0 && final(data)@
                == q.1,
            Err(e) => spec_get_position(old(data)@) == Err::<(Position, Seq<u8>), PacketError>(e),
        },
{
    let w = get_u64(data)?;
    proof {
        lemma_be_val_bound(old(data)@.take(8));
        lemma_pow256_values();
    }
    let xm: u64 = w / 0x4000000000;
    let zm: u64 = (w % 0x4000000000) / 0x1000;
    let ym: u64 = w % 0x1000;
    let x: i32 = if xm >= 0x2000000 {
        ((xm as i64) - 0x4000000) as i32
    } else {
        xm as i32
    };
    let z: i32 = if zm >= 0x2000000 {
        ((zm as i64) - 0x4000000) as i32
    } else {
        zm as i32
    };
    let y: i16 = if ym >= 0x800 {
        ((ym as i64) - 0x1000) as i16
    } else {
        ym as i16
    };
    Ok(Position { x, z, y })
}

/// Emits the packed 64-bit word of the position, big-endian.
pub fn convert_position(p: Position) -> (r: Vec<u8>)
    requires
        p.wf(),
    ensures
        r@ == spec_be_bytes(spec_position_word(p), 8),
{
    let xm: u64 = if p.x >= 0 {
        p.x as u64
    } else {
        (p.x + 0x4000000) as u64
    };
    let zm: u64 = if p.z >= 0 {
        p.z as u64
    } else {
        (p.z + 0x4000000) as u64
    };
    let ym: u64 = if p.y >= 0 {
        p.y as u64
    } else {
        ((p.y as i32) + 0x1000) as u64
    };
    proof {
        vstd::arithmetic::div_mod::lemma_small_mod(xm as nat, 0x4000000);
        vstd::arithmetic::div_mod::lemma_small_mod(zm as nat, 0x4000000);
        vstd::arithmetic::div_mod::lemma_small_mod(ym as nat, 0x1000);
        if p.x < 0 {
            vstd::arithmetic::div_mod::lemma_mod_add_multiples_vanish(p.x as int, 0x4000000);
        }
        if p.z < 0 {
            vstd::arithmetic::div_mod::lemma_mod_add_multiples_vanish(p.z as int, 0x4000000);
        }
        if p.y < 0 {
            vstd::arithmetic::div_mod::lemma_mod_add_multiples_vanish(p.y as int, 0x1000);
        }
    }
    let w: u64 = xm * 0x4000000000 + zm * 0x1000 + ym;
    convert_u64(w)
}

/// Position round trip: packing coordinates in range and unpacking them is
/// the identity.
pub proof fn lemma_position_round_trip(p: Position, rest: Seq<u8>)
    requires
        p.wf(),
    ensures
        spec_get_position(spec_be_bytes(spec_position_word(p), 8) + rest) == Ok::<
            (Position, Seq<u8>),
            PacketError,
        >((p, rest)),
{
    let xm = spec_mod26(p.x);
    let zm = spec_mod26(p.z);
    let ym = spec_mod12(p.y);
    let w = spec_position_word(p);
    assert(xm < 0x4000000 && zm < 0x4000000 && ym < 0x1000);
    assert(w < 0x10000000000000000);
    lemma_pow256_values();
    lemma_be_round_trip(w, 8);
    let enc = spec_be_bytes(w, 8);
    let whole = enc + rest;
    assert(whole.take(8) =~= enc);
    assert(whole.skip(8) =~= rest);
    // unpack the word field by field
    vstd::arithmetic::div_mod::lemma_fundamental_div_mod_converse(
        w as int,
        0x4000000000,
        xm as int,
        (zm * 0x1000 + ym) as int,
    );
    vstd::arithmetic::div_mod::lemma_fundamental_div_mod_converse(
        (zm * 0x1000 + ym) as int,
        0x1000,
        zm as int,
        ym as int,
    );
    assert(w / 0x4000000000 == xm);
    assert(w % 0x4000000000 == zm * 0x1000 + ym);
    assert((w % 0x4000000000) / 0x1000 == zm);
    // y comes from w % 0x1000; relate it through the inner remainder
    vstd::arithmetic::div_mod::lemma_mod_mod(w as int, 0x1000, 0x4000000);
    assert(0x1000 * 0x4000000 == 0x4000000000) by (nonlinear_arith);
    assert(w % 0x1000 == (zm * 0x1000 + ym) % 0x1000);
    assert((zm * 0x1000 + ym) % 0x1000 == ym) by {
        vstd::arithmetic::div_mod::lemma_mod_multiples_vanish(zm as int, ym as int, 0x1000);
        vstd::arithmetic::div_mod::lemma_small_mod(ym, 0x1000);
    }
    // undo the sign windows
    if p.x >= 0 {
        vstd::arithmetic::div_mod::lemma_small_mod(p.x as nat, 0x4000000);
    } else {
        vstd::arithmetic::div_mod::lemma_mod_add_multiples_vanish(p.x as int, 0x4000000);
        vstd::arithmetic::div_mod::lemma_small_mod((p.x + 0x4000000) as nat, 0x4000000);
    }
    if p.z >= 0 {
        vstd::arithmetic::div_mod::lemma_small_mod(p.z as nat, 0x4000000);
    } else {
        vstd::arithmetic::div_mod::lemma_mod_add_multiples_vanish(p.z as int, 0x4000000);
        vstd::arithmetic::div_mod::lemma_small_mod((p.z + 0x4000000) as nat, 0x4000000);
    }
    if p.y >= 0 {
        vstd::arithmetic::div_mod::lemma_small_mod(p.y as nat, 0x1000);
    } else {
        vstd::arithmetic::div_mod::lemma_mod_add_multiples_vanish(p.y as int, 0x1000);
        vstd::arithmetic::div_mod::lemma_small_mod((p.y + 0x1000) as nat, 0x1000);
    }
}

// ---------------------------------------------------------------------------
// UUID hex strings
// ---------------------------------------------------------------------------

/// The lowercase ASCII hex digit for a nibble.
pub open spec fn spec_hex_ascii(n: nat) -> u8 {
    if n < 10 {
        (0x30 + n) as u8
    } else {
        (0x57 + n) as u8
    }
}

/// `n` lowercase ASCII hex digits of `v`, most significant first.
pub open spec fn spec_hex_group(v: nat, n: nat) -> Seq<u8>
    decreases n,
{
    if n == 0 {
        seq![]
    } else {
        spec_hex_group(v / 16, (n - 1) as nat) + seq![spec_hex_ascii(v % 16)]
    }
}

/// The canonical 8-4-4-4-12 hyphenated lowercase hex form of a UUID.
pub open spec fn spec_uuid_ascii(u: nat) -> Seq<u8> {
    let h = spec_hex_group(u, 32);
    h.subrange(0, 8) + seq![0x2Du8] + h.subrange(8, 12) + seq![0x2Du8] + h.subrange(12, 16)
        + seq![0x2Du8] + h.subrange(16, 20) + seq![0x2Du8] + h.subrange(20, 32)
}

/// The nibble value of an ASCII hex digit, either case.
pub open spec fn spec_hex_val(b: u8) -> Option<u8> {
    if 0x30 <= b <= 0x39 {
        Some((b - 0x30) as u8)
    } else if 0x61 <= b <= 0x66 {
        Some((b - 0x57) as u8)
    } else if 0x41 <= b <= 0x46 {
        Some((b - 0x37) as u8)
    } else {
        None
    }
}

/// The byte sequence with every hyphen removed.
pub open spec fn spec_strip_hyphens(bs: Seq<u8>) -> Seq<u8>
    decreases bs.len(),
{
    if bs.len() == 0 {
        seq![]
    } else if bs[0] == 0x2D {
        spec_strip_hyphens(bs.skip(1))
    } else {
        seq![bs[0]] + spec_strip_hyphens(bs.skip(1))
    }
}

/// The value of a sequence of hex digits, most significant first.
pub open spec fn spec_hex_fold(ds: Seq<u8>) -> nat
    decreases ds.len(),
{
    if ds.len() == 0 {
        0
    } else {
        spec_hex_fold(ds.drop_last()) * 16 + (match spec_hex_val(ds.last()) {
            Some(d) => d as nat,
            None => 0,
        })
    }
}

/// The UUID parsed from a hyphenated hex string's bytes: hyphens are
/// discarded wherever they stand; exactly 32 hex digits must remain.
pub open spec fn spec_parse_uuid(bs: Seq<u8>) -> Result<u128, PacketError> {
    let ds = spec_strip_hyphens(bs);
    if ds.len() == 32 && (forall|i: int| 0 <= i < 32 ==> spec_hex_val(#[trigger] ds[i]) is Some) {
        Ok(spec_hex_fold(ds) as u128)
    } else {
        Err(PacketError::InvalidUUIDString)
    }
}

/// Ground values of the powers of 16 that the hex widths use.
pub proof fn lemma_pow16_values()
    ensures
        pow(16, 0) == 1,
        pow(16, 1) == 16,
        pow(16, 31) == 0x10000000000000000000000000000000,
        pow(16, 32) == 0x100000000000000000000000000000000,
{
    reveal_with_fuel(pow, 33);
}

/// Every byte of a hex group is a lowercase ASCII hex digit.
pub proof fn lemma_hex_group_props(v: nat, n: nat)
    ensures
        spec_hex_group(v, n).len() == n,
        forall|i: int|
            0 <= i < n ==> (0x30 <= #[trigger] spec_hex_group(v, n)[i] <= 0x39 || 0x61
                <= spec_hex_group(v, n)[i] <= 0x66),
    decreases n,
{
    if n > 0 {
        lemma_hex_group_props(v / 16, (n - 1) as nat);
    }
}

/// A sequence of valid hex digits folds to a value below `16^len`.
pub proof fn lemma_hex_fold_bound(ds: Seq<u8>)
    ensures
        spec_hex_fold(ds) < pow(16, ds.len()),
    decreases ds.len(),
{
    if ds.len() == 0 {
        lemma_pow16_values();
    } else {
        lemma_hex_fold_bound(ds.drop_last());
        lemma_pow_adds(16, (ds.len() - 1) as nat, 1);
        assert(pow(16, 1) == 16) by {
            lemma_pow16_values();
        }
        let d: nat = match spec_hex_val(ds.last()) {
            Some(d) => d as nat,
            None => 0,
        };
        assert(spec_hex_fold(ds.drop_last()) * 16 + d < pow(16, (ds.len() - 1) as nat) * 16)
            by (nonlinear_arith)
            requires
                spec_hex_fold(ds.drop_last()) < pow(16, (ds.len() - 1) as nat),
                d < 16,
        ;
    }
}

/// Folding the hex digits of `v` recovers `v`, and every digit is valid.
pub proof fn lemma_hex_group_fold(v: nat, n: nat)
    requires
        v < pow(16, n),
    ensures
        spec_hex_group(v, n).len() == n,
        forall|i: int| 0 <= i < n ==> spec_hex_val(#[trigger] spec_hex_group(v, n)[i]) is Some,
        spec_hex_fold(spec_hex_group(v, n)) == v,
    decreases n,
{
    lemma_hex_group_props(v, n);
    if n == 0 {
        lemma_pow16_values();
    } else {
        lemma_pow_adds(16, (n - 1) as nat, 1);
        assert(pow(16, 1) == 16) by {
            lemma_pow16_values();
        }
        assert(v / 16 < pow(16, (n - 1) as nat)) by (nonlinear_arith)
            requires
                v < pow(16, (n - 1) as nat) * 16,
        ;
        lemma_hex_group_fold(v / 16, (n - 1) as nat);
        let s = spec_hex_group(v, n);
        lemma_hex_group_props(v / 16, (n - 1) as nat);
        assert(s.drop_last() =~= spec_hex_group(v / 16, (n - 1) as nat));
        assert(s.last() == spec_hex_ascii(v % 16));
        assert(spec_hex_val(spec_hex_ascii(v % 16)) == Some(((v % 16) as u8)));
        lemma_fundamental_div_mod(v as int, 16);
    }
}

/// Stripping hyphens distributes over concatenation.
pub proof fn lemma_strip_concat(a: Seq<u8>, b: Seq<u8>)
    ensures
        spec_strip_hyphens(a + b) == spec_strip_hyphens(a) + spec_strip_hyphens(b),
    decreases a.len(),
{
    if a.len() == 0 {
        assert(a + b =~= b);
        assert(spec_strip_hyphens(a) + spec_strip_hyphens(b) =~= spec_strip_hyphens(b));
    } else {
        assert((a + b).skip(1) =~= a.skip(1) + b);
        lemma_strip_concat(a.skip(1), b);
        if a[0] != 0x2D {
            assert(seq![a[0]] + (spec_strip_hyphens(a.skip(1)) + spec_strip_hyphens(b)) =~= (
            seq![a[0]] + spec_strip_hyphens(a.skip(1))) + spec_strip_hyphens(b));
        }
    }
}

/// A hyphen-free sequence strips to itself.
pub proof fn lemma_strip_no_hyphens(s: Seq<u8>)
    requires
        forall|i: int| 0 <= i < s.len() ==> #[trigger] s[i] != 0x2D,
    ensures
        spec_strip_hyphens(s) == s,
    decreases s.len(),
{
    if s.len() > 0 {
        lemma_strip_no_hyphens(s.skip(1));
        assert(seq![s[0]] + s.skip(1) =~= s);
    }
}

/// An all-ASCII byte sequence is valid UTF-8, and decoding then re-encoding
/// it is the identity.
pub proof fn lemma_ascii_valid_utf8(bs: Seq<u8>)
    requires
        forall|i: int| 0 <= i < bs.len() ==> #[trigger] bs[i] < 0x80,
    ensures
        vstd::utf8::valid_utf8(bs),
        vstd::utf8::encode_utf8(vstd::utf8::decode_utf8(bs)) == bs,
{
    assert(bs.subrange(0, 0) =~= Seq::<u8>::empty());
    assert(vstd::utf8::partial_valid_utf8(bs, 0));
    vstd::utf8::partial_valid_utf8_extend_ascii_block(bs, 0, bs.len() as int);
    assert(bs.subrange(0, bs.len() as int) =~= bs);
    vstd::utf8::decode_utf8_encode_utf8(bs);
}

/// The hex digit byte of a nibble.
fn hex_digit_ascii(d: u8) -> (r: u8)
    requires
        d < 16,
    ensures
        r == spec_hex_ascii(d as nat),
{
    if d < 10 {
        0x30 + d
    } else {
        0x57 + d
    }
}

/// Emits `width` lowercase hex digits of `value`, most significant first.
fn hex_group(value: u128, width: usize) -> (r: Vec<u8>)
    requires
        width <= 32,
    ensures
        r@ == spec_hex_group(value as nat, width as nat),
{
    let mut out: Vec<u8> = Vec::new();
    let mut tmp: u128 = value;
    let mut i: usize = 0;
    while i < width
        invariant
            i <= width,
            spec_hex_group(value as nat, width as nat) == spec_hex_group(
                tmp as nat,
                (width - i) as nat,
            ) + out@,
        decreases width - i,
    {
        let ghost prev = out@;
        let b: u8 = hex_digit_ascii((tmp % 16) as u8);
        out.insert(0, b);
        proof {
            assert(spec_hex_group(tmp as nat, (width - i) as nat) == spec_hex_group(
                (tmp as nat) / 16,
                (width - i - 1) as nat,
            ) + seq![b]);
            assert(spec_hex_group((tmp as nat) / 16, (width - i - 1) as nat) + seq![b] + prev
                =~= spec_hex_group((tmp as nat) / 16, (width - i - 1) as nat) + out@);
        }
        tmp = tmp / 16;
        i = i + 1;
    }
    proof {
        assert(spec_hex_group(tmp as nat, 0) + out@ =~= out@);
    }
    out
}

/// Appends `src[from..to]` to `out`.
#[verifier::loop_isolation(false)]
fn push_range(out: &mut Vec<u8>, src: &Vec<u8>, from: usize, to: usize)
    requires
        from <= to <= src@.len(),
    ensures
        final(out)@ == old(out)@ + src@.subrange(from as int, to as int),
{
    let ghost base = out@;
    let mut i: usize = from;
    proof {
        assert(base + src@.subrange(from as int, from as int) =~= base);
    }
    while i < to
        invariant
            from <= i <= to,
            out@ == base + src@.subrange(from as int, i as int),
        decreases to - i,
    {
        out.push(src[i]);
        proof {
            assert(base + src@.subrange(from as int, i as int) + seq![src@[i as int]] =~= base
                + src@.subrange(from as int, i as int + 1));
        }
        i = i + 1;
    }
}

/// Formats a UUID in its canonical 8-4-4-4-12 lowercase hex form.
pub fn uuid_u128_to_string(uuid: u128) -> (r: String)
    ensures
        vstd::utf8::encode_utf8(r@) == spec_uuid_ascii(uuid as nat),
        vstd::utf8::valid_utf8(spec_uuid_ascii(uuid as nat)),
{
    let h = hex_group(uuid, 32);
    proof {
        lemma_hex_group_props(uuid as nat, 32);
    }
    let mut out: Vec<u8> = Vec::new();
    push_range(&mut out, &h, 0, 8);
    out.push(0x2D);
    push_range(&mut out, &h, 8, 12);
    out.push(0x2D);
    push_range(&mut out, &h, 12, 16);
    out.push(0x2D);
    push_range(&mut out, &h, 16, 20);
    out.push(0x2D);
    push_range(&mut out, &h, 20, 32);
    proof {
        lemma_hex_group_props(uuid as nat, 32);
        assert(out@ =~= spec_uuid_ascii(uuid as nat));
        assert forall|i: int| 0 <= i < out@.len() implies #[trigger] out@[i] < 0x80 by {}
        lemma_ascii_valid_utf8(out@);
    }
    lossy_string_from_bytes(&out)
}

/// Parses a UUID from its hyphenated hex form; hyphens may stand anywhere,
/// and exactly 32 hex digits (either case) must remain.
pub fn uuid_string_to_u128(uuid: &str) -> (r: Result<u128, PacketError>)
    ensures
        r == spec_parse_uuid(vstd::utf8::encode_utf8(uuid@)),
{
    let bytes = uuid.as_bytes();
    let ghost whole = bytes@;
    let mut digits: Vec<u8> = Vec::new();
    let mut i: usize = 0;
    proof {
        assert(whole.skip(0) =~= whole);
        assert(Seq::<u8>::empty() + spec_strip_hyphens(whole) =~= spec_strip_hyphens(whole));
    }
    while i < bytes.len()
        invariant
            i <= whole.len(),
            bytes@ == whole,
            whole == vstd::utf8::encode_utf8(uuid@),
            spec_strip_hyphens(whole) == digits@ + spec_strip_hyphens(whole.skip(i as int)),
        decreases whole.len() - i,
    {
        let ghost prev = digits@;
        let b = bytes[i];
        proof {
            assert(whole.skip(i as int)[0] == whole[i as int]);
            assert(whole.skip(i as int).skip(1) =~= whole.skip(i as int + 1));
        }
        if b != 0x2D {
            digits.push(b);
            proof {
                assert(prev + (seq![b] + spec_strip_hyphens(whole.skip(i as int + 1))) =~= digits@
                    + spec_strip_hyphens(whole.skip(i as int + 1)));
            }
        }
        i = i + 1;
    }
    proof {
        assert(spec_strip_hyphens(whole.skip(whole.len() as int)) =~= Seq::<u8>::empty());
        assert(digits@ + Seq::<u8>::empty() =~= digits@);
        assert(digits@ == spec_strip_hyphens(whole));
    }
    if digits.len() != 32 {
        return Err(PacketError::InvalidUUIDString);
    }
    let mut value: u128 = 0;
    let mut j: usize = 0;
    proof {
        assert(digits@.take(0) =~= Seq::<u8>::empty());
        lemma_pow16_values();
    }
    while j < 32
        invariant
            j <= 32,
            digits@.len() == 32,
            digits@ == spec_strip_hyphens(whole),
            whole == vstd::utf8::encode_utf8(uuid@),
            forall|t: int| 0 <= t < j ==> spec_hex_val(#[trigger] digits@[t]) is Some,
            value as nat == spec_hex_fold(digits@.take(j as int)),
        decreases 32 - j,
    {
        proof {
            lemma_hex_fold_bound(digits@.take(j as int));
            lemma_pow16_values();
            lemma_pow_increases(16, j as nat, 31);
            assert((value as nat) * 16 + 15 < 0x100000000000000000000000000000000)
                by (nonlinear_arith)
                requires
                    (value as nat) < 0x10000000000000000000000000000000,
            ;
        }
        let b = digits[j];
        let d: u8 = if 0x30 <= b && b <= 0x39 {
            b - 0x30
        } else if 0x61 <= b && b <= 0x66 {
            b - 0x57
        } else if 0x41 <= b && b <= 0x46 {
            b - 0x37
        } else {
            return Err(PacketError::InvalidUUIDString);
        };
        value = value * 16 + (d as u128);
        proof {
            assert(digits@.take(j as int + 1).drop_last() =~= digits@.take(j as int));
            assert(digits@.take(j as int + 1).last() == digits@[j as int]);
        }
        j = j + 1;
    }
    proof {
        assert(digits@.take(32) =~= digits@);
        lemma_hex_fold_bound(digits@);
        lemma_pow16_values();
    }
    Ok(value)
}

/// UUID round trip: parsing the canonical hex form of any UUID yields the
/// value back.
pub proof fn lemma_uuid_round_trip(u: u128)
    ensures
        spec_parse_uuid(spec_uuid_ascii(u as nat)) == Ok::<u128, PacketError>(u),
{
    let h = spec_hex_group(u as nat, 32);
    lemma_pow16_values();
    lemma_hex_group_fold(u as nat, 32);
    lemma_hex_group_props(u as nat, 32);
    let s = spec_uuid_ascii(u as nat);
    let hy = seq![0x2Du8];
    assert(spec_strip_hyphens(s) == h) by {
        lemma_strip_concat(
            h.subrange(0, 8) + hy + h.subrange(8, 12) + hy + h.subrange(12, 16) + hy + h.subrange(
                16,
                20,
            ) + hy,
            h.subrange(20, 32),
        );
        lemma_strip_concat(
            h.subrange(0, 8) + hy + h.subrange(8, 12) + hy + h.subrange(12, 16) + hy + h.subrange(
                16,
                20,
            ),
            hy,
        );
        lemma_strip_concat(
            h.subrange(0, 8) + hy + h.subrange(8, 12) + hy + h.subrange(12, 16) + hy,
            h.subrange(16, 20),
        );
        lemma_strip_concat(h.subrange(0, 8) + hy + h.subrange(8, 12) + hy + h.subrange(12, 16), hy);
        lemma_strip_concat(h.subrange(0, 8) + hy + h.subrange(8, 12) + hy, h.subrange(12, 16));
        lemma_strip_concat(h.subrange(0, 8) + hy + h.subrange(8, 12), hy);
        lemma_strip_concat(h.subrange(0, 8) + hy, h.subrange(8, 12));
        lemma_strip_concat(h.subrange(0, 8), hy);
        lemma_strip_no_hyphens(h.subrange(0, 8));
        lemma_strip_no_hyphens(h.subrange(8, 12));
        lemma_strip_no_hyphens(h.subrange(12, 16));
        lemma_strip_no_hyphens(h.subrange(16, 20));
        lemma_strip_no_hyphens(h.subrange(20, 32));
        assert(hy.skip(1) =~= Seq::<u8>::empty());
        assert(hy[0] == 0x2Du8);
        assert(spec_strip_hyphens(Seq::<u8>::empty()) =~= Seq::<u8>::empty());
        assert(spec_strip_hyphens(hy) == spec_strip_hyphens(hy.skip(1)));
        assert(spec_strip_hyphens(hy) =~= Seq::<u8>::empty());
        assert(h.subrange(0, 8) + h.subrange(8, 12) + h.subrange(12, 16) + h.subrange(16, 20)
            + h.subrange(20, 32) =~= h);
        assert(spec_strip_hyphens(s) =~= h);
    }
}

} // verus!
