//! Audio format description and the SlimProto format-code mapping.
//!
//! SlimProto's `strm` command describes a raw-PCM stream with four single-byte
//! ASCII codes (sample size, sample rate, channels, endianness). Squeezelite
//! decodes each by subtracting `'0'` and indexing a fixed table, so the codes
//! are just small integers rendered as ASCII digits (and beyond `'9'` the
//! arithmetic keeps working, e.g. `':'` is 10).

use crate::text::{append_decimal, decimal};
use vstd::prelude::*;
use vstd::string::*;

verus! {

/// Sample-rate table used by Squeezelite's PCM decoder. The index into this
/// table, offset by `'0'`, is the ASCII code carried in the `strm` command.
pub const SAMPLE_RATES: [u32; 15] = [
    11025, 22050, 32000, 44100, 48000, 8000, 12000, 16000, 24000, 96000, 88200, 176400, 192000,
    352800, 384000,
];

/// The ASCII digit `'0'`, from which every code is counted.
pub const ASCII_ZERO: u8 = 0x30;

/// Why a format cannot be described to a player.
#[derive(Clone, Copy, Debug, PartialEq, Eq, Structural)]
pub enum FormatError {
    /// Not 8, 16, 24 or 32 bits per sample.
    UnsupportedBits(u8),
    /// Not one of [`SAMPLE_RATES`].
    UnsupportedRate(u32),
    /// Neither mono nor stereo.
    UnsupportedChannels(u8),
}

impl FormatError {
    /// What is wrong, in words.
    pub open spec fn text(self) -> Seq<char> {
        match self {
            FormatError::UnsupportedBits(bits) => "unsupported bit depth: "@ + decimal(bits as nat)
                + " (expected 8, 16, 24 or 32)"@,
            FormatError::UnsupportedRate(rate) => "unsupported sample rate: "@ + decimal(rate as nat)
                + " Hz (supported: [11025, 22050, 32000, 44100, 48000, 8000, 12000, 16000, 24000, \
96000, 88200, 176400, 192000, 352800, 384000])"@,
            FormatError::UnsupportedChannels(channels) => "unsupported channel count: "@ + decimal(
                channels as nat,
            ) + " (expected 1 or 2)"@,
        }
    }

    /// What is wrong, in words.
    pub fn message(&self) -> (message: String)
        ensures
            message@ == self.text(),
    {
        match self {
            FormatError::UnsupportedBits(bits) => {
                let mut out: String = "unsupported bit depth: ".to_owned();
                append_decimal(&mut out, *bits as u64);
                out.append(" (expected 8, 16, 24 or 32)");
                out
            },
            FormatError::UnsupportedRate(rate) => {
                let mut out: String = "unsupported sample rate: ".to_owned();
                append_decimal(&mut out, *rate as u64);
                out.append(
                    " Hz (supported: [11025, 22050, 32000, 44100, 48000, 8000, 12000, 16000, 24000, \
96000, 88200, 176400, 192000, 352800, 384000])",
                );
                out
            },
            FormatError::UnsupportedChannels(channels) => {
                let mut out: String = "unsupported channel count: ".to_owned();
                append_decimal(&mut out, *channels as u64);
                out.append(" (expected 1 or 2)");
                out
            },
        }
    }
}

/// A fully described raw-PCM stream: signed little-endian by default, which is
/// exactly what `ffmpeg -f s16le` and friends emit.
#[derive(Clone, Copy, Debug)]
pub struct AudioFormat {
    pub sample_rate: u32,
    pub channels: u8,
    pub bits: u8,
}

/// The position of `rate` in the sample-rate table, if it is listed.
pub open spec fn is_rate_index(rate: u32, i: int) -> bool {
    0 <= i < SAMPLE_RATES@.len() && SAMPLE_RATES@[i] == rate
}

/// No rate is listed twice, so a code names one rate only.
pub proof fn lemma_rate_index_unique(rate: u32, i: int, j: int)
    requires
        is_rate_index(rate, i),
        is_rate_index(rate, j),
    ensures
        i == j,
{
}

impl AudioFormat {
    /// Bytes in one frame: one sample of every channel.
    pub open spec fn frame_len(self) -> nat {
        (self.bits as nat / 8) * self.channels as nat
    }

    /// Bytes in one second of the stream.
    pub open spec fn bytes_per_second(self) -> nat {
        self.frame_len() * self.sample_rate as nat
    }

    /// Whether the bit depth has a SlimProto code.
    pub open spec fn bits_supported(self) -> bool {
        self.bits == 8 || self.bits == 16 || self.bits == 24 || self.bits == 32
    }

    /// Whether the sample rate has a SlimProto code.
    pub open spec fn rate_supported(self) -> bool {
        exists|i: int| is_rate_index(self.sample_rate, i)
    }

    /// Whether the channel count has a SlimProto code.
    pub open spec fn channels_supported(self) -> bool {
        self.channels == 1 || self.channels == 2
    }

    /// Whether every field has a SlimProto code.
    pub open spec fn valid(self) -> bool {
        self.bits_supported() && self.rate_supported() && self.channels_supported()
    }

    /// What is wrong with the format: of several faults, the first in the
    /// order bit depth, sample rate, channel count.
    pub open spec fn first_error(self) -> Result<(), FormatError> {
        if !self.bits_supported() {
            Err(FormatError::UnsupportedBits(self.bits))
        } else if !self.rate_supported() {
            Err(FormatError::UnsupportedRate(self.sample_rate))
        } else if !self.channels_supported() {
            Err(FormatError::UnsupportedChannels(self.channels))
        } else {
            Ok(())
        }
    }

    /// The SlimProto code of the bit depth.
    pub open spec fn bits_code(self) -> int {
        '0' as int + self.bits as int / 8 - 1
    }

    /// The SlimProto code of the sample rate.
    pub open spec fn rate_code(self) -> int {
        '0' as int + choose|i: int| is_rate_index(self.sample_rate, i)
    }

    /// Bytes per PCM frame (all channels, one sample each).
    pub fn frame_bytes(&self) -> (n: usize)
        ensures
            n == self.frame_len(),
            n <= 7905,
    {
        let width: usize = self.bits as usize / 8;
        let channels: usize = self.channels as usize;
        assert(width * channels <= 31 * 255) by (nonlinear_arith)
            requires
                width <= 31,
                channels <= 255,
        ;
        width * channels
    }

    /// Byte rate - useful for reasoning about buffer sizes and latency.
    pub fn byte_rate(&self) -> (n: usize)
        requires
            self.bytes_per_second() <= usize::MAX,
        ensures
            n == self.bytes_per_second(),
    {
        self.frame_bytes() * self.sample_rate as usize
    }

    /// SlimProto sample-size code: `'0'`=8, `'1'`=16, `'2'`=24, `'3'`=32 bit.
    pub fn sample_size_code(&self) -> (code: Result<u8, FormatError>)
        ensures
            self.bits_supported() ==> code == Ok::<u8, FormatError>(self.bits_code() as u8),
            !self.bits_supported() ==> code == Err::<u8, FormatError>(
                FormatError::UnsupportedBits(self.bits),
            ),
    {
        match self.bits {
            8 => Ok(ASCII_ZERO),
            16 => Ok(ASCII_ZERO + 1),
            24 => Ok(ASCII_ZERO + 2),
            32 => Ok(ASCII_ZERO + 3),
            other => Err(FormatError::UnsupportedBits(other)),
        }
    }

    /// SlimProto sample-rate code: index into [`SAMPLE_RATES`] offset by `'0'`.
    pub fn sample_rate_code(&self) -> (code: Result<u8, FormatError>)
        ensures
            self.rate_supported() ==> code == Ok::<u8, FormatError>(self.rate_code() as u8),
            !self.rate_supported() ==> code == Err::<u8, FormatError>(
                FormatError::UnsupportedRate(self.sample_rate),
            ),
            code matches Ok(c) ==> is_rate_index(self.sample_rate, c - '0' as int),
    {
        let mut i: usize = 0;
        while i < SAMPLE_RATES.len()
            invariant
                forall|j: int| 0 <= j < i ==> SAMPLE_RATES@[j] != self.sample_rate,
                i <= 15,
            decreases 15 - i,
        {
            if SAMPLE_RATES[i] == self.sample_rate {
                proof {
                    assert(is_rate_index(self.sample_rate, i as int));
                    lemma_rate_index_unique(
                        self.sample_rate,
                        i as int,
                        choose|j: int| is_rate_index(self.sample_rate, j),
                    );
                }
                return Ok(ASCII_ZERO + i as u8);
            }
            i += 1;
        }
        Err(FormatError::UnsupportedRate(self.sample_rate))
    }

    /// SlimProto channel code: `'1'`=mono, `'2'`=stereo.
    pub fn channels_code(&self) -> (code: Result<u8, FormatError>)
        ensures
            self.channels_supported() ==> code == Ok::<u8, FormatError>(
                ('0' as int + self.channels) as u8,
            ),
            !self.channels_supported() ==> code == Err::<u8, FormatError>(
                FormatError::UnsupportedChannels(self.channels),
            ),
    {
        match self.channels {
            1 | 2 => Ok(ASCII_ZERO + self.channels),
            other => Err(FormatError::UnsupportedChannels(other)),
        }
    }

    /// SlimProto endianness code. We always emit little-endian PCM: `'1'`=LE.
    pub fn endianness_code(&self) -> (code: u8)
        ensures
            code == '1' as u8,
    {
        ASCII_ZERO + 1
    }

    /// Validate every field up front so misconfiguration fails at startup
    /// rather than when the first client connects. The bit depth is looked at
    /// first, then the rate, then the channel count.
    pub fn validate(&self) -> (checked: Result<(), FormatError>)
        ensures
            checked == self.first_error(),
    {
        match self.sample_size_code() {
            Ok(_) => {},
            Err(e) => return Err(e),
        }
        match self.sample_rate_code() {
            Ok(_) => {},
            Err(e) => return Err(e),
        }
        match self.channels_code() {
            Ok(_) => {},
            Err(e) => return Err(e),
        }
        Ok(())
    }
}

/// A valid format is streamed at some rate, and at no more than 3072000 bytes
/// per second.
pub proof fn law_valid_format_has_a_byte_rate(format: AudioFormat)
    requires
        format.valid(),
    ensures
        0 < format.bytes_per_second() <= 3072000,
{
    let i = choose|i: int| is_rate_index(format.sample_rate, i);
    assert(is_rate_index(format.sample_rate, i));
    assert(8000 <= format.sample_rate <= 384000);
    assert(1 <= format.frame_len() <= 8);
    assert(0 < format.bytes_per_second() <= 3072000) by (nonlinear_arith)
        requires
            8000 <= format.sample_rate <= 384000,
            1 <= format.frame_len() <= 8,
            format.bytes_per_second() == format.frame_len() * format.sample_rate as nat,
    ;
}

/// From its codes a player reads a format back: it takes `'0'` off each, and
/// counts the bytes of a sample from one on, looks the rate up in its table,
/// and takes the channels as they are.
pub proof fn law_codes_read_back(format: AudioFormat)
    requires
        format.valid(),
    ensures
        8 * (format.bits_code() - 0x30 + 1) == format.bits,
        0 <= format.rate_code() - 0x30 < 15,
        SAMPLE_RATES@[format.rate_code() - 0x30] == format.sample_rate,
        0x30 <= format.bits_code() <= 0x33,
{
    assert(is_rate_index(format.sample_rate, format.rate_code() - 0x30)) by {
        let i = choose|i: int| is_rate_index(format.sample_rate, i);
        assert(is_rate_index(format.sample_rate, i));
    }
}

/// The code of every sample rate is the one that the players know it by.
pub proof fn law_rate_codes_are_those_of_the_players(format: AudioFormat)
    requires
        format.rate_supported(),
    ensures
        match (format.rate_code() - 0x30) as u8 {
            0 => format.sample_rate == 11025,
            1 => format.sample_rate == 22050,
            2 => format.sample_rate == 32000,
            3 => format.sample_rate == 44100,
            4 => format.sample_rate == 48000,
            5 => format.sample_rate == 8000,
            6 => format.sample_rate == 12000,
            7 => format.sample_rate == 16000,
            8 => format.sample_rate == 24000,
            9 => format.sample_rate == 96000,
            10 => format.sample_rate == 88200,
            11 => format.sample_rate == 176400,
            12 => format.sample_rate == 192000,
            13 => format.sample_rate == 352800,
            14 => format.sample_rate == 384000,
            _ => false,
        },
{
    let i = choose|i: int| is_rate_index(format.sample_rate, i);
    assert(is_rate_index(format.sample_rate, i));
}

/// What can be described to a player: mono or stereo, of 8, 16, 24 or 32 bits,
/// at one of fifteen rates. Anything else is refused, with the first field at
/// fault and what it holds.
pub proof fn law_what_is_supported(format: AudioFormat)
    ensures
        ({
            let bits = format.bits == 8 || format.bits == 16 || format.bits == 24 || format.bits
                == 32;
            let channels = format.channels == 1 || format.channels == 2;
            let r = format.sample_rate;
            let rate = r == 8000 || r == 11025 || r == 12000 || r == 16000 || r == 22050 || r
                == 24000 || r == 32000 || r == 44100 || r == 48000 || r == 88200 || r == 96000
                || r == 176400 || r == 192000 || r == 352800 || r == 384000;
            &&& format.valid() <==> bits && channels && rate
            &&& format.first_error() is Ok <==> bits && channels && rate
            &&& format.first_error() matches Err(e) ==> match e {
                FormatError::UnsupportedBits(b) => !bits && b == format.bits,
                FormatError::UnsupportedRate(n) => bits && !rate && n == r,
                FormatError::UnsupportedChannels(c) => bits && rate && c == format.channels,
            }
        }),
{
    let r = format.sample_rate;
    assert(is_rate_index(11025, 0) && is_rate_index(22050, 1) && is_rate_index(32000, 2)
        && is_rate_index(44100, 3) && is_rate_index(48000, 4) && is_rate_index(8000, 5)
        && is_rate_index(12000, 6) && is_rate_index(16000, 7) && is_rate_index(24000, 8)
        && is_rate_index(96000, 9) && is_rate_index(88200, 10) && is_rate_index(176400, 11)
        && is_rate_index(192000, 12) && is_rate_index(352800, 13) && is_rate_index(384000, 14));
    if format.rate_supported() {
        law_rate_codes_are_those_of_the_players(format);
    }
}

/// Eight times the bytes of a second are the bits of its samples, of every
/// channel.
pub proof fn law_byte_rate_counts_every_sample(format: AudioFormat)
    requires
        format.valid(),
    ensures
        8 * format.frame_len() == format.bits * format.channels,
        8 * format.bytes_per_second() == format.bits * format.channels * format.sample_rate,
{
    let width = format.bits as int / 8;
    let channels = format.channels as int;
    let frame = format.frame_len() as int;
    let rate = format.sample_rate as int;
    assert(8 * width == format.bits);
    assert(8 * (width * channels) == (8 * width) * channels) by (nonlinear_arith);
    assert(8 * (frame * rate) == (8 * frame) * rate) by (nonlinear_arith);
}

} // verus!
