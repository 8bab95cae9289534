//! Decoding the extracted audio: a 44-byte header is skipped and the rest
//! is read as little-endian signed 16-bit mono samples.

use vstd::prelude::*;

verus! {

/// Why a WAV buffer was rejected.
#[derive(Clone, Copy, Debug, PartialEq, Eq, Structural)]
pub enum WavError {
    /// Fewer than the 44 bytes a standard header needs.
    TruncatedHeader,
    /// A header but not even one complete sample after it.
    EmptyData,
    /// An odd number of sample bytes: the last 16-bit sample is cut off.
    OddSampleBytes,
}

impl WavError {
    /// A short account of the failure, for surfacing to the frontend;
    /// each variant has its own distinct text.
    pub fn message(&self) -> (r: &'static str)
        ensures
            r@ == match *self {
                WavError::TruncatedHeader
                    => "invalid or truncated WAV file: shorter than the 44-byte header"@,
                WavError::EmptyData => "invalid or truncated WAV file: audio data is too short"@,
                WavError::OddSampleBytes
                    => "invalid WAV file: audio data length is odd, not whole 16-bit samples"@,
            },
    {
        match self {
            WavError::TruncatedHeader => "invalid or truncated WAV file: shorter than the 44-byte header",
            WavError::EmptyData => "invalid or truncated WAV file: audio data is too short",
            WavError::OddSampleBytes => "invalid WAV file: audio data length is odd, not whole 16-bit samples",
        }
    }
}

/// The value of a little-endian signed 16-bit sample with bytes `lo`, `hi`.
pub open spec fn i16_le_spec(lo: u8, hi: u8) -> int {
    if hi < 128 {
        hi * 256 + lo
    } else {
        hi * 256 + lo - 65536
    }
}

/// Assemble a sample from its two little-endian bytes.
pub fn i16_from_le(lo: u8, hi: u8) -> (r: i16)
    ensures
        r as int == i16_le_spec(lo, hi),
{
    let v: i32 = (hi as i32) * 256 + (lo as i32);
    let w: i32 = if v >= 32768 {
        v - 65536
    } else {
        v
    };
    w as i16
}

/// Decode the sample data of a WAV buffer: skip the 44-byte header, reject
/// a missing or odd-length data section, and read the rest as interleaved
/// little-endian 16-bit samples. The scaling of samples to unit floats for
/// the speech model happens outside the library.
pub fn parse_wav_samples(bytes: &Vec<u8>) -> (r: Result<Vec<i16>, WavError>)
    ensures
        bytes@.len() < 44 ==> r == Err::<Vec<i16>, WavError>(WavError::TruncatedHeader),
        44 <= bytes@.len() < 46 ==> r == Err::<Vec<i16>, WavError>(WavError::EmptyData),
        bytes@.len() >= 46 && (bytes@.len() - 44) % 2 == 1 ==> r == Err::<Vec<i16>, WavError>(
            WavError::OddSampleBytes,
        ),
        bytes@.len() >= 46 && (bytes@.len() - 44) % 2 == 0 ==> match r {
            Ok(samples) => {
                &&& samples@.len() == (bytes@.len() - 44) / 2
                &&& forall|k: int|
                    0 <= k < samples@.len() ==> (#[trigger] samples@[k]) as int == i16_le_spec(
                        bytes@[44 + 2 * k],
                        bytes@[45 + 2 * k],
                    )
            },
            Err(_) => false,
        },
{
    let n = bytes.len();
    if n < 44 {
        return Err(WavError::TruncatedHeader);
    }
    if n - 44 < 2 {
        return Err(WavError::EmptyData);
    }
    if (n - 44) % 2 != 0 {
        return Err(WavError::OddSampleBytes);
    }
    let count = (n - 44) / 2;
    let mut samples: Vec<i16> = Vec::new();
    let mut i: usize = 0;
    while i < count
        invariant
            0 <= i <= count,
            n == bytes@.len(),
            n >= 46,
            count == (n - 44) / 2,
            (n - 44) % 2 == 0,
            samples@.len() == i,
            forall|k: int|
                0 <= k < i ==> (#[trigger] samples@[k]) as int == i16_le_spec(
                    bytes@[44 + 2 * k],
                    bytes@[45 + 2 * k],
                ),
        decreases count - i,
    {
        let lo = bytes[44 + 2 * i];
        let hi = bytes[45 + 2 * i];
        samples.push(i16_from_le(lo, hi));
        i = i + 1;
    }
    Ok(samples)
}

} // verus!
