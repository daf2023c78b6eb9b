// Sliding a 40-digit window over a captured bitstream.

use am2302::try_read_from_bits;
use am2302::Am2302ReadError;

// The frame for 26.9 degrees and 65.8 percent: bytes 2, 146, 1, 13, 162.
fn valid_frame() -> Vec<u8> {
    let mut out = Vec::new();
    for byte in [2u8, 146, 1, 13, 162] {
        for k in (0..8).rev() {
            out.push((byte >> k) & 1);
        }
    }
    out
}

#[test]
fn frame_at_offset_zero_is_found() {
    let reading = try_read_from_bits(&valid_frame()).unwrap();
    assert_eq!(reading.temperature_tenths, 269);
    assert_eq!(reading.humidity_tenths, 658);
}

#[test]
fn frame_at_nonzero_offset_is_found() {
    // Three leading digits stand in for acknowledgement pulses.
    let mut bits = vec![1, 1, 0];
    bits.extend(valid_frame());
    bits.extend([0, 1, 0, 1]); // trailing jitter
    let reading = try_read_from_bits(&bits).unwrap();
    assert_eq!(reading.temperature_tenths, 269);
    assert_eq!(reading.humidity_tenths, 658);
}

#[test]
fn first_matching_offset_wins() {
    // A valid frame for -10.1 degrees, then one for 26.9 degrees: the
    // earlier offset decides.
    let mut bits = Vec::new();
    for byte in [2u8, 146, 128, 101, 121] {
        for k in (0..8).rev() {
            bits.push((byte >> k) & 1);
        }
    }
    bits.extend(valid_frame());
    let reading = try_read_from_bits(&bits).unwrap();
    assert_eq!(reading.temperature_tenths, -101);
    assert_eq!(reading.humidity_tenths, 658);
}

#[test]
fn all_ones_stream_is_exhausted() {
    let bits = vec![1u8; 80];
    let result = try_read_from_bits(&bits);
    assert_eq!(result, Err(Am2302ReadError::ReadError));
}

#[test]
fn short_stream_is_exhausted() {
    let result = try_read_from_bits(&vec![0, 1, 0, 1]);
    assert_eq!(result, Err(Am2302ReadError::ReadError));
    assert_eq!(try_read_from_bits(&[]), Err(Am2302ReadError::ReadError));
}
