//! Decoder for the AM2302 single-wire humidity/temperature sensor.
//!
//! The sensor answers a start signal with a train of pulses on a GPIO line.
//! Unverified platform code records the line transitions with microsecond
//! timestamps; everything from there on is verified here: turning timed
//! edges into a bitstream (`edges`), packing digits into bytes (`binutils`),
//! decoding a 40-bit frame into a checked reading (`decoder`), and sliding
//! a 40-bit window over the captured stream until one frame decodes.

use vstd::prelude::*;

pub mod binutils;
pub mod decoder;
pub mod edges;

use crate::decoder::CreationError;
use crate::decoder::Reading;
use crate::decoder::decode_spec;
use vstd::slice::slice_subrange;

verus! {

/// Why a whole capture attempt yielded no reading.
#[derive(Debug, PartialEq, Eq, Structural, Clone, Copy)]
pub enum Am2302ReadError {
    /// No 40-digit window of the captured bitstream decoded to a valid
    /// reading.
    ReadError,
}

/// The 40-digit window of a bitstream starting at the given offset.
pub open spec fn window_at(s: Seq<u8>, off: int) -> Seq<u8> {
    s.subrange(off, off + 40)
}

/// Whether the window at the given offset decodes to a reading. Kept
/// opaque so that quantifying over offsets stays cheap; proofs reveal it
/// where one concrete window is at issue.
#[verifier::opaque]
pub open spec fn window_decodes(s: Seq<u8>, off: int) -> bool {
    decode_spec(window_at(s, off)) is Ok
}

/// Slides a 40-digit window over a captured bitstream at every offset, in
/// increasing order, and decodes each window until one yields a reading.
///
/// Fails exactly when no window decodes — in particular when the stream is
/// shorter than 40 digits. On success the reading is the one decoded from
/// the first offset whose window decodes.
pub fn try_read_from_bits(bits: &[u8]) -> (r: Result<Reading, Am2302ReadError>)
    ensures
        r == Err::<Reading, Am2302ReadError>(Am2302ReadError::ReadError) <==> (forall|off: int|
            0 <= off <= bits@.len() - 40 ==> !window_decodes(bits@, off)),
        r matches Ok(reading) ==> exists|off: int|
            {
                &&& 0 <= off <= bits@.len() - 40
                &&& #[trigger] decode_spec(window_at(bits@, off)) == Ok::<Reading, CreationError>(
                    reading,
                )
                &&& forall|j: int| 0 <= j < off ==> !window_decodes(bits@, j)
            },
        r matches Ok(reading) ==> reading.in_spec(),
{
    if bits.len() < 40 {
        return Err(Am2302ReadError::ReadError);
    }
    let last = bits.len() - 40;
    let mut off: usize = 0;
    while off <= last
        invariant
            0 <= off <= last + 1,
            last == bits@.len() - 40,
            40 <= bits@.len() <= usize::MAX,
            forall|j: int| 0 <= j < off ==> !window_decodes(bits@, j),
        decreases last - off + 1,
    {
        let window = slice_subrange(bits, off, off + 40);
        match Reading::from_binary_vector(window) {
            Ok(reading) => {
                proof {
                    reveal(window_decodes);
                    assert(window@ == window_at(bits@, off as int));
                    assert(window_decodes(bits@, off as int));
                    assert(decode_spec(window_at(bits@, off as int)) == Ok::<
                        Reading,
                        CreationError,
                    >(reading));
                }
                return Ok(reading);
            },
            Err(_) => {
                proof {
                    reveal(window_decodes);
                    assert(window@ == window_at(bits@, off as int));
                    assert(!window_decodes(bits@, off as int));
                }
            },
        }
        off = off + 1;
    }
    Err(Am2302ReadError::ReadError)
}

} // verus!
