//! Decoding raw little-endian PCM bytes into 16-bit samples.

use vstd::prelude::*;

verus! {

/// The signed 16-bit sample encoded by a little-endian byte pair.
pub open spec fn sample_from_le(lo: u8, hi: u8) -> i16 {
    if lo + 256 * hi < 32768 {
        (lo + 256 * hi) as i16
    } else {
        (lo + 256 * hi - 65536) as i16
    }
}

/// Decodes one little-endian byte pair into a signed 16-bit sample.
pub fn i16_from_le(lo: u8, hi: u8) -> (sample: i16)
    ensures
        sample == sample_from_le(lo, hi),
{
    let unsigned: u32 = (lo as u32) + 256 * (hi as u32);
    if unsigned < 32768 {
        unsigned as i16
    } else {
        ((unsigned as i64) - 65536) as i16
    }
}

/// Decodes a little-endian 16-bit PCM byte stream into samples; a trailing
/// odd byte is ignored.
pub fn convert_to_i16_vec(buf: &[u8]) -> (samples: Vec<i16>)
    ensures
        samples@.len() == buf@.len() / 2,
        forall|i: int|
            0 <= i < samples@.len() ==> samples@[i] == sample_from_le(buf@[2 * i], buf@[2 * i + 1]),
{
    let n = buf.len();
    let pairs = n / 2;
    let mut samples: Vec<i16> = Vec::new();
    let mut i: usize = 0;
    while i < pairs
        invariant
            i <= pairs,
            n == buf@.len(),
            pairs == n / 2,
            samples@.len() == i,
            forall|j: int|
                0 <= j < i ==> samples@[j] == sample_from_le(buf@[2 * j], buf@[2 * j + 1]),
        decreases pairs - i,
    {
        let sample = i16_from_le(buf[2 * i], buf[2 * i + 1]);
        samples.push(sample);
        i = i + 1;
    }
    samples
}

/// Takes one fixed-size frame off the front of an incoming byte buffer and
/// decodes it, once enough bytes have arrived; otherwise leaves the buffer
/// untouched. The decoded frame holds exactly `chunk_size` samples.
pub fn next_frame(bytes: &mut Vec<u8>, chunk_size: usize) -> (frame: Option<Vec<i16>>)
    requires
        2 * chunk_size <= usize::MAX,
    ensures
        old(bytes)@.len() < 2 * chunk_size ==> frame is None && final(bytes)@ == old(bytes)@,
        old(bytes)@.len() >= 2 * chunk_size ==> ({
            &&& frame matches Some(f)
            &&& f@.len() == chunk_size
            &&& (forall|i: int|
                0 <= i < chunk_size ==> f@[i] == sample_from_le(
                    old(bytes)@[2 * i],
                    old(bytes)@[2 * i + 1],
                ))
            &&& final(bytes)@ == old(bytes)@.skip(2 * chunk_size)
        }),
{
    let needed = 2 * chunk_size;
    if bytes.len() < needed {
        return None;
    }
    let rest = bytes.split_off(needed);
    let frame = convert_to_i16_vec(bytes.as_slice());
    *bytes = rest;
    proof {
        assert(bytes@ =~= old(bytes)@.skip(2 * chunk_size as int));
    }
    Some(frame)
}

} // verus!
