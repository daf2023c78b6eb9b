//! Decoding a 40-digit frame into a validated sensor reading.
//!
//! A frame carries five bytes, most significant bit first: humidity high,
//! humidity low, temperature high, temperature low, checksum. The checksum
//! is the wrapping (modulo-256) sum of the four data bytes. The temperature
//! high byte carries the sign in its top bit; the remaining 15 bits are the
//! magnitude in tenths of a degree. Humidity is in tenths of a percent.

use vstd::prelude::*;
use crate::binutils::all_bits;
use crate::binutils::bits_of;
use crate::binutils::convert;
use crate::binutils::is_bit;
use crate::binutils::lemma_bits_of_wf;
use crate::binutils::lemma_pack_bits_bound;
use crate::binutils::lemma_pack_bits_of;
use crate::binutils::pack_bits;
use vstd::arithmetic::power2::lemma2_to64;
use vstd::arithmetic::power2::pow2;
use vstd::slice::slice_subrange;

verus! {

/// A decoded sensor reading. Both measurements keep the sensor's native
/// tenths resolution as exact integers: a temperature of 26.9 degrees is
/// stored as 269 tenths.
#[derive(Debug, PartialEq, Eq, Structural, Clone, Copy)]
pub struct Reading {
    /// Temperature in tenths of a degree Celsius.
    pub temperature_tenths: i16,
    /// Relative humidity in tenths of a percent.
    pub humidity_tenths: u16,
}

/// Why a frame candidate did not yield a reading.
#[derive(Debug, PartialEq, Eq, Structural, Clone, Copy)]
pub enum CreationError {
    /// Wrong number of input digits, should be 40.
    WrongBitsCount,
    /// Something wrong with conversion to bytes.
    MalformedData,
    /// Parity bit validation failed.
    ParityBitMismatch,
    /// Value is outside of the sensor's specification.
    OutOfSpecValue,
}

impl Reading {
    /// The reading lies within the sensor's documented operating range:
    /// -41.0 to 81.0 degrees, 0.0 to 99.9 percent.
    pub open spec fn in_spec(self) -> bool {
        &&& -410 <= self.temperature_tenths <= 810
        &&& self.humidity_tenths <= 999
    }
}

/// The value of the `k`-th byte of a frame, bytes packed MSB-first.
pub open spec fn byte_at(s: Seq<u8>, k: int) -> int {
    pack_bits(s.subrange(8 * k, 8 * k + 8))
}

/// The fifth byte equals the wrapping sum of the four data bytes.
pub open spec fn checksum_matches(s: Seq<u8>) -> bool {
    (byte_at(s, 0) + byte_at(s, 1) + byte_at(s, 2) + byte_at(s, 3)) % 256 == byte_at(s, 4)
}

/// Humidity carried by the frame, in tenths of a percent.
pub open spec fn raw_humidity(s: Seq<u8>) -> int {
    byte_at(s, 0) * 256 + byte_at(s, 1)
}

/// Temperature carried by the frame, in tenths of a degree: the top bit of
/// the third byte is the sign, the remaining 15 bits are the magnitude.
pub open spec fn raw_temperature(s: Seq<u8>) -> int {
    if byte_at(s, 2) >= 128 {
        -((byte_at(s, 2) - 128) * 256 + byte_at(s, 3))
    } else {
        byte_at(s, 2) * 256 + byte_at(s, 3)
    }
}

/// The frame's values lie within the sensor's documented operating range.
pub open spec fn in_spec_range(s: Seq<u8>) -> bool {
    &&& -410 <= raw_temperature(s) <= 810
    &&& 0 <= raw_humidity(s) <= 999
}

/// What decoding a frame candidate yields, checks in order: length, digit
/// domain, checksum, operating range.
pub open spec fn decode_spec(s: Seq<u8>) -> Result<Reading, CreationError> {
    if s.len() != 40 {
        Err(CreationError::WrongBitsCount)
    } else if !all_bits(s) {
        Err(CreationError::MalformedData)
    } else if !checksum_matches(s) {
        Err(CreationError::ParityBitMismatch)
    } else if !in_spec_range(s) {
        Err(CreationError::OutOfSpecValue)
    } else {
        Ok(
            Reading {
                temperature_tenths: raw_temperature(s) as i16,
                humidity_tenths: raw_humidity(s) as u16,
            },
        )
    }
}

/// A 40-digit sequence is all binary exactly when each of its five
/// 8-digit chunks is.
proof fn lemma_chunks_bits(s: Seq<u8>)
    requires
        s.len() == 40,
    ensures
        all_bits(s) <==> (forall|k: int|
            0 <= k < 5 ==> all_bits(#[trigger] s.subrange(8 * k, 8 * k + 8))),
{
    if forall|k: int| 0 <= k < 5 ==> all_bits(#[trigger] s.subrange(8 * k, 8 * k + 8)) {
        assert forall|i: int| 0 <= i < s.len() implies is_bit(s[i]) by {
            let k: int = i / 8;
            assert(0 <= k < 5);
            assert(8 * k <= i < 8 * k + 8);
            assert(s.subrange(8 * k, 8 * k + 8)[i - 8 * k] == s[i]);
        }
    }
    if all_bits(s) {
        assert forall|k: int| 0 <= k < 5 implies all_bits(
            #[trigger] s.subrange(8 * k, 8 * k + 8),
        ) by {
            let c = s.subrange(8 * k, 8 * k + 8);
            assert(forall|j: int| 0 <= j < 8 ==> c[j] == s[8 * k + j]);
        }
    }
}

/// Every byte of an all-binary frame fits in a `u8`.
proof fn lemma_byte_at_bound(s: Seq<u8>, k: int)
    requires
        s.len() == 40,
        all_bits(s),
        0 <= k < 5,
    ensures
        0 <= byte_at(s, k) < 256,
{
    lemma_chunks_bits(s);
    lemma_pack_bits_bound(s.subrange(8 * k, 8 * k + 8));
    lemma2_to64();
}

/// The 40-digit frame that carries four data bytes and a checksum byte,
/// each spelled out MSB-first.
pub open spec fn frame_of_bytes(b0: int, b1: int, b2: int, b3: int, c: int) -> Seq<u8> {
    bits_of(b0, 8) + bits_of(b1, 8) + bits_of(b2, 8) + bits_of(b3, 8) + bits_of(c, 8)
}

/// A frame built from five byte values is 40 binary digits whose five
/// bytes are those values.
pub proof fn lemma_frame_bytes(b0: int, b1: int, b2: int, b3: int, c: int)
    requires
        0 <= b0 < 256,
        0 <= b1 < 256,
        0 <= b2 < 256,
        0 <= b3 < 256,
        0 <= c < 256,
    ensures
        frame_of_bytes(b0, b1, b2, b3, c).len() == 40,
        all_bits(frame_of_bytes(b0, b1, b2, b3, c)),
        byte_at(frame_of_bytes(b0, b1, b2, b3, c), 0) == b0,
        byte_at(frame_of_bytes(b0, b1, b2, b3, c), 1) == b1,
        byte_at(frame_of_bytes(b0, b1, b2, b3, c), 2) == b2,
        byte_at(frame_of_bytes(b0, b1, b2, b3, c), 3) == b3,
        byte_at(frame_of_bytes(b0, b1, b2, b3, c), 4) == c,
{
    let s = frame_of_bytes(b0, b1, b2, b3, c);
    lemma_bits_of_wf(b0, 8);
    lemma_bits_of_wf(b1, 8);
    lemma_bits_of_wf(b2, 8);
    lemma_bits_of_wf(b3, 8);
    lemma_bits_of_wf(c, 8);
    assert(s.len() == 40);
    let k0: int = 0;
    let k1: int = 1;
    let k2: int = 2;
    let k3: int = 3;
    let k4: int = 4;
    assert(s.subrange(8 * k0, 8 * k0 + 8) =~= bits_of(b0, 8));
    assert(s.subrange(8 * k1, 8 * k1 + 8) =~= bits_of(b1, 8));
    assert(s.subrange(8 * k2, 8 * k2 + 8) =~= bits_of(b2, 8));
    assert(s.subrange(8 * k3, 8 * k3 + 8) =~= bits_of(b3, 8));
    assert(s.subrange(8 * k4, 8 * k4 + 8) =~= bits_of(c, 8));
    assert(pow2(8) == 256) by {
        lemma2_to64();
    }
    lemma_pack_bits_of(b0, 8);
    lemma_pack_bits_of(b1, 8);
    lemma_pack_bits_of(b2, 8);
    lemma_pack_bits_of(b3, 8);
    lemma_pack_bits_of(c, 8);
    lemma_chunks_bits(s);
}

/// Length law: a candidate that is not exactly 40 digits long is rejected
/// as `WrongBitsCount`, whatever it holds.
pub proof fn lemma_wrong_bits_count(s: Seq<u8>)
    requires
        s.len() != 40,
    ensures
        decode_spec(s) == Err::<Reading, CreationError>(CreationError::WrongBitsCount),
{
}

/// Digit-domain law: a 40-digit candidate with a non-binary element at any
/// position is rejected as `MalformedData`.
pub proof fn lemma_malformed(s: Seq<u8>, i: int)
    requires
        s.len() == 40,
        0 <= i < 40,
        s[i] != 0,
        s[i] != 1,
    ensures
        decode_spec(s) == Err::<Reading, CreationError>(CreationError::MalformedData),
{
    assert(!is_bit(s[i]));
}

/// Checksum law, first half: a frame whose fifth byte is the wrapping sum
/// of its four data bytes never fails the parity check.
pub proof fn lemma_checksum_never_mismatch(b0: int, b1: int, b2: int, b3: int)
    requires
        0 <= b0 < 256,
        0 <= b1 < 256,
        0 <= b2 < 256,
        0 <= b3 < 256,
    ensures
        decode_spec(frame_of_bytes(b0, b1, b2, b3, (b0 + b1 + b2 + b3) % 256)) != Err::<
            Reading,
            CreationError,
        >(CreationError::ParityBitMismatch),
{
    lemma_frame_bytes(b0, b1, b2, b3, (b0 + b1 + b2 + b3) % 256);
}

/// Checksum law, second half: a frame whose fifth byte differs from the
/// wrapping sum of its four data bytes — in particular one with any single
/// bit of the checksum byte flipped — always fails the parity check.
pub proof fn lemma_checksum_mismatch(b0: int, b1: int, b2: int, b3: int, c: int)
    requires
        0 <= b0 < 256,
        0 <= b1 < 256,
        0 <= b2 < 256,
        0 <= b3 < 256,
        0 <= c < 256,
        c != (b0 + b1 + b2 + b3) % 256,
    ensures
        decode_spec(frame_of_bytes(b0, b1, b2, b3, c)) == Err::<Reading, CreationError>(
            CreationError::ParityBitMismatch,
        ),
{
    lemma_frame_bytes(b0, b1, b2, b3, c);
}

/// Range law: a well-formed, checksum-correct frame whose value lies
/// outside the sensor's operating range is rejected as `OutOfSpecValue`.
pub proof fn lemma_out_of_spec(s: Seq<u8>)
    requires
        s.len() == 40,
        all_bits(s),
        checksum_matches(s),
        !in_spec_range(s),
    ensures
        decode_spec(s) == Err::<Reading, CreationError>(CreationError::OutOfSpecValue),
{
}

/// The frame that encodes a reading: humidity and temperature magnitude
/// split big-endian into two bytes each, the sign in the top bit of the
/// third byte, and the wrapping sum of the four as the checksum.
pub open spec fn encode_reading(temperature_tenths: int, humidity_tenths: int) -> Seq<u8> {
    let h_hi = humidity_tenths / 256;
    let h_lo = humidity_tenths % 256;
    let magnitude = if temperature_tenths < 0 {
        -temperature_tenths
    } else {
        temperature_tenths
    };
    let t_hi = if temperature_tenths < 0 {
        128 + magnitude / 256
    } else {
        magnitude / 256
    };
    let t_lo = magnitude % 256;
    frame_of_bytes(h_hi, h_lo, t_hi, t_lo, (h_hi + h_lo + t_hi + t_lo) % 256)
}

/// Round-trip law: any reading within the sensor's operating range,
/// encoded into a frame and decoded again, comes back exactly.
pub proof fn lemma_round_trip(temperature_tenths: int, humidity_tenths: int)
    requires
        -410 <= temperature_tenths <= 810,
        0 <= humidity_tenths <= 999,
    ensures
        decode_spec(encode_reading(temperature_tenths, humidity_tenths)) == Ok::<
            Reading,
            CreationError,
        >(
            Reading {
                temperature_tenths: temperature_tenths as i16,
                humidity_tenths: humidity_tenths as u16,
            },
        ),
{
    let t = temperature_tenths;
    let h = humidity_tenths;
    let h_hi = h / 256;
    let h_lo = h % 256;
    let magnitude = if t < 0 {
        -t
    } else {
        t
    };
    let t_hi = if t < 0 {
        128 + magnitude / 256
    } else {
        magnitude / 256
    };
    let t_lo = magnitude % 256;
    let c = (h_hi + h_lo + t_hi + t_lo) % 256;
    assert(0 <= h_hi < 4);
    assert(0 <= magnitude / 256 < 4);
    lemma_frame_bytes(h_hi, h_lo, t_hi, t_lo, c);
    let s = frame_of_bytes(h_hi, h_lo, t_hi, t_lo, c);
    assert(raw_humidity(s) == h_hi * 256 + h_lo);
    assert(h_hi * 256 + h_lo == h);
    if t < 0 {
        assert(byte_at(s, 2) >= 128);
        assert(raw_temperature(s) == -((t_hi - 128) * 256 + t_lo));
        assert((magnitude / 256) * 256 + magnitude % 256 == magnitude);
        assert(raw_temperature(s) == t);
    } else {
        assert(byte_at(s, 2) < 128);
        assert(raw_temperature(s) == t_hi * 256 + t_lo);
        assert((magnitude / 256) * 256 + magnitude % 256 == magnitude);
        assert(raw_temperature(s) == t);
    }
}

impl Reading {
    /// Decodes a frame candidate: checks the length, packs the five bytes,
    /// verifies the wrapping checksum, extracts sign and magnitude, and
    /// validates the sensor's operating range.
    pub fn from_binary_vector(data: &[u8]) -> (r: Result<Reading, CreationError>)
        ensures
            r == decode_spec(data@),
            r matches Ok(reading) ==> reading.in_spec(),
    {
        if data.len() != 40 {
            return Err(CreationError::WrongBitsCount);
        }
        proof {
            lemma_chunks_bits(data@);
        }
        let b0 = match convert(slice_subrange(data, 0, 8)) {
            Ok(b) => b,
            Err(_) => return Err(CreationError::MalformedData),
        };
        let b1 = match convert(slice_subrange(data, 8, 16)) {
            Ok(b) => b,
            Err(_) => return Err(CreationError::MalformedData),
        };
        let b2 = match convert(slice_subrange(data, 16, 24)) {
            Ok(b) => b,
            Err(_) => return Err(CreationError::MalformedData),
        };
        let b3 = match convert(slice_subrange(data, 24, 32)) {
            Ok(b) => b,
            Err(_) => return Err(CreationError::MalformedData),
        };
        let b4 = match convert(slice_subrange(data, 32, 40)) {
            Ok(b) => b,
            Err(_) => return Err(CreationError::MalformedData),
        };
        proof {
            lemma_byte_at_bound(data@, 0);
            lemma_byte_at_bound(data@, 1);
            lemma_byte_at_bound(data@, 2);
            lemma_byte_at_bound(data@, 3);
            lemma_byte_at_bound(data@, 4);
        }
        let check_sum: u16 = (b0 as u16 + b1 as u16 + b2 as u16 + b3 as u16) % 256;
        if check_sum as u8 != b4 {
            return Err(CreationError::ParityBitMismatch);
        }
        let raw_humidity_v: u16 = (b0 as u16) * 256 + (b1 as u16);
        let raw_temperature_v: i32 = if b2 >= 128 {
            -(((b2 - 128) as i32) * 256 + (b3 as i32))
        } else {
            (b2 as i32) * 256 + (b3 as i32)
        };
        if raw_temperature_v > 810 || raw_temperature_v < -410 {
            return Err(CreationError::OutOfSpecValue);
        }
        if raw_humidity_v > 999 {
            return Err(CreationError::OutOfSpecValue);
        }
        Ok(
            Reading {
                temperature_tenths: raw_temperature_v as i16,
                humidity_tenths: raw_humidity_v,
            },
        )
    }
}

} // verus!
