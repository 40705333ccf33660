//! Capturing from the virtual audio device: its samples as PCM.
//!
//! The device loops everything the system plays on it back to its input stream
//! as interleaved floating-point samples. Here stand the steps of pinning its
//! sample rate, and of turning what arrives into the configured integer PCM.

use crate::audio::AudioFormat;
use crate::bytes::{append_le32, law_last_byte_counts_most, law_le32_reads_back, le32};
use crate::hal::driver::{law_rates_of_the_device, rate_supported, supports_rate};
use crate::hal::ids::OBJ_UNKNOWN;
use crate::text::{append_decimal, decimal};
use vstd::prelude::*;
use vstd::string::*;

verus! {

/// How often the device is asked whether its rate has changed.
pub const RATE_POLLS: u32 = 50;

/// How long to wait in between, in ms.
pub const RATE_POLL_MS: u64 = 40;

/// Why nothing can be captured.
#[derive(Clone, Copy, Debug, PartialEq, Eq, Structural)]
pub enum CaptureError {
    /// The device cannot run at this rate.
    UnsupportedRate(u32),
    /// Looking the device up came to this status.
    Lookup(i32),
    /// There is no such device.
    NotPresent,
    /// The device did not change to this rate in time.
    RateTimedOut(u32),
}

impl CaptureError {
    /// What is wrong, in words.
    pub open spec fn text(self) -> Seq<char> {
        match self {
            CaptureError::UnsupportedRate(rate) =>
            "input source 'virtual' supports sample rates [44100, 48000, 88200, 96000], not "@
                + decimal(rate as nat) + " Hz"@,
            CaptureError::Lookup(status) => "capture: device UID lookup failed (OSStatus "@
                + signed(status as int) + ")"@,
            CaptureError::NotPresent =>
            "the Squeezed virtual audio device is not present — install it with `sudo squeezed driver install` (then re-run squeezed)"@,
            CaptureError::RateTimedOut(rate) => "capture: device did not switch to "@ + decimal(
                rate as nat,
            ) + " Hz in time"@,
        }
    }

    /// What is wrong, in words.
    pub fn message(&self) -> (message: String)
        ensures
            message@ == self.text(),
    {
        match self {
            CaptureError::UnsupportedRate(rate) => {
                let mut out: String =
                    "input source 'virtual' supports sample rates [44100, 48000, 88200, 96000], not ".to_owned();
                append_decimal(&mut out, *rate as u64);
                out.append(" Hz");
                out
            },
            CaptureError::Lookup(status) => {
                let mut out: String = "capture: device UID lookup failed (OSStatus ".to_owned();
                append_signed(&mut out, *status);
                out.append(")");
                out
            },
            CaptureError::NotPresent => {
                "the Squeezed virtual audio device is not present — install it with `sudo squeezed driver install` (then re-run squeezed)".to_owned()
            },
            CaptureError::RateTimedOut(rate) => {
                let mut out: String = "capture: device did not switch to ".to_owned();
                append_decimal(&mut out, *rate as u64);
                out.append(" Hz in time");
                out
            },
        }
    }
}

/// A number in decimal notation, with a sign where it is negative.
pub open spec fn signed(n: int) -> Seq<char> {
    if n < 0 {
        "-"@ + decimal((-n) as nat)
    } else {
        decimal(n as nat)
    }
}

/// Append a number in decimal notation, with a sign where it is negative.
fn append_signed(out: &mut String, n: i32)
    ensures
        final(out)@ == old(out)@ + signed(n as int),
{
    if n < 0 {
        out.append("-");
        append_decimal(out, (-(n as i64)) as u64);
        assert(out@ =~= old(out)@ + signed(n as int));
    } else {
        append_decimal(out, n as u64);
    }
}

// ---------------------------------------------------------------------------
// The device
// ---------------------------------------------------------------------------

/// Whether the device can deliver a format.
pub fn check_rate(format: &AudioFormat) -> (checked: Result<(), CaptureError>)
    ensures
        checked == (if rate_supported(format.sample_rate as int) {
            Ok::<(), CaptureError>(())
        } else {
            Err(CaptureError::UnsupportedRate(format.sample_rate))
        }),
        checked is Ok <==> format.sample_rate == 44100 || format.sample_rate == 48000
            || format.sample_rate == 88200 || format.sample_rate == 96000,
{
    proof {
        law_rates_of_the_device(format.sample_rate as int);
    }
    if supports_rate(format.sample_rate as u64) {
        Ok(())
    } else {
        Err(CaptureError::UnsupportedRate(format.sample_rate))
    }
}

/// The device that a lookup by its UID came to, if there is one.
pub fn found_device(status: i32, device: u32) -> (found: Result<Option<u32>, CaptureError>)
    ensures
        found == (if status != 0 {
            Err::<Option<u32>, CaptureError>(CaptureError::Lookup(status))
        } else if device == OBJ_UNKNOWN {
            Ok(None)
        } else {
            Ok(Some(device))
        }),
        found matches Ok(Some(d)) ==> d == device && d != 0 && status == 0,
        status == 0 && device != 0 ==> found is Ok && found->Ok_0 is Some,
{
    if status != 0 {
        return Err(CaptureError::Lookup(status));
    }
    if device == OBJ_UNKNOWN {
        Ok(None)
    } else {
        Ok(Some(device))
    }
}

/// What to do next to pin the device to a sample rate.
#[derive(Clone, Copy, Debug, PartialEq, Eq, Structural)]
pub enum RateStep {
    /// Ask the device for its rate.
    Check,
    /// Set the rate.
    Request,
    /// Wait for a while.
    Wait,
    /// The device runs at the rate.
    Done,
    /// It does not in time.
    TimedOut,
}

/// Pinning the device to a rate. The rate is changed asynchronously, so the
/// device is polled until the change lands.
pub struct RatePin {
    /// Whether the rate has been set.
    pub set: bool,
    /// How often the device has been asked since, without success.
    pub polls: u32,
}

impl RatePin {
    /// Whether polling has not gone on for too long.
    pub open spec fn wf(&self) -> bool {
        self.polls <= RATE_POLLS
    }

    /// What a check leads to.
    pub open spec fn step_on(self, at_rate: bool) -> RateStep {
        if at_rate {
            RateStep::Done
        } else if !self.set {
            RateStep::Request
        } else {
            RateStep::Wait
        }
    }

    /// The state after a check that did not find the device at the rate.
    pub open spec fn missed(self) -> RatePin {
        if self.set {
            RatePin { polls: (self.polls + 1) as u32, ..self }
        } else {
            RatePin { set: true, ..self }
        }
    }

    /// Whether the device is not asked any more.
    pub open spec fn is_over(self) -> bool {
        self.polls == RATE_POLLS
    }

    /// Begin: the first step is to check.
    pub fn new() -> (pin: RatePin)
        ensures
            pin.wf(),
            pin == (RatePin { set: false, polls: 0 }),
            pin == pin_after(0),
    {
        RatePin { set: false, polls: 0 }
    }

    /// The device has been asked, and runs at the rate or not.
    pub fn checked(&mut self, at_rate: bool) -> (step: RateStep)
        requires
            old(self).wf(),
            old(self).polls < RATE_POLLS,
        ensures
            final(self).wf(),
            step == (if at_rate {
                RateStep::Done
            } else if !old(self).set {
                RateStep::Request
            } else {
                RateStep::Wait
            }),
            *final(self) == (if step == RateStep::Wait {
                RatePin { polls: (old(self).polls + 1) as u32, ..*old(self) }
            } else if step == RateStep::Request {
                RatePin { set: true, ..*old(self) }
            } else {
                *old(self)
            }),
            step == old(self).step_on(at_rate),
            *final(self) == (if at_rate {
                *old(self)
            } else {
                old(self).missed()
            }),
    {
        if at_rate {
            RateStep::Done
        } else if !self.set {
            self.set = true;
            RateStep::Request
        } else {
            self.polls = self.polls + 1;
            RateStep::Wait
        }
    }

    /// The rate has been set, or a wait is over.
    pub fn resumed(&self) -> (step: RateStep)
        requires
            self.wf(),
        ensures
            step == (if self.polls == RATE_POLLS {
                RateStep::TimedOut
            } else {
                RateStep::Check
            }),
            step == RateStep::TimedOut <==> self.is_over(),
    {
        if self.polls == RATE_POLLS {
            RateStep::TimedOut
        } else {
            RateStep::Check
        }
    }
}

// ---------------------------------------------------------------------------
// Samples
// ---------------------------------------------------------------------------

/// How the samples of a buffer lie.
pub struct FrameLayout {
    /// Samples in a frame.
    pub in_channels: usize,
    /// Whole frames in the buffer.
    pub frames: usize,
}

/// How the samples of a buffer lie that has so many channels and bytes. A
/// buffer has at least one channel, and a sample has four bytes.
pub fn frame_layout(number_channels: u32, data_byte_size: u32) -> (layout: FrameLayout)
    ensures
        layout.in_channels == (if number_channels == 0 {
            1
        } else {
            number_channels as int
        }),
        layout.frames == data_byte_size as int / 4 / layout.in_channels as int,
        4 * (layout.frames * layout.in_channels) <= data_byte_size < 4 * ((layout.frames + 1)
            * layout.in_channels),
{
    let in_channels: usize = if number_channels == 0 {
        1
    } else {
        number_channels as usize
    };
    let samples: usize = data_byte_size as usize / 4;
    proof {
        lemma_whole_frames(samples as int, in_channels as int);
    }
    FrameLayout { in_channels, frames: samples / in_channels }
}

/// A buffer holds its whole frames, and not one more.
proof fn lemma_whole_frames(samples: int, in_channels: int)
    requires
        samples >= 0,
        in_channels > 0,
    ensures
        samples / in_channels * in_channels <= samples < (samples / in_channels + 1) * in_channels,
{
    assert(samples / in_channels * in_channels <= samples < (samples / in_channels + 1)
        * in_channels) by (nonlinear_arith)
        requires
            samples >= 0,
            in_channels > 0,
    ;
}

/// What becomes of a frame.
#[derive(Clone, Copy, Debug, PartialEq, Eq, Structural)]
pub enum Taps {
    /// One sample: the average of the frame.
    Average,
    /// Two samples: the first of the frame, and the one at this place.
    Pair(usize),
}

/// What becomes of a frame where `channels` are wanted: of a frame of one
/// channel both are the same, of any other the first two are taken.
pub fn taps(channels: u8, in_channels: usize) -> (taps: Taps)
    requires
        in_channels > 0,
    ensures
        taps == (if channels == 1 {
            Taps::Average
        } else if in_channels == 1 {
            Taps::Pair(0)
        } else {
            Taps::Pair(1)
        }),
        taps is Average <==> channels == 1,
        taps matches Taps::Pair(second) ==> second < in_channels && (in_channels > 1 ==> second
            == 1),
{
    if channels == 1 {
        Taps::Average
    } else if in_channels == 1 {
        Taps::Pair(0)
    } else {
        Taps::Pair(1)
    }
}

/// Bytes of a sample.
pub open spec fn sample_width(bits: u8) -> int {
    match bits {
        8 => 1,
        16 => 2,
        24 => 3,
        _ => 4,
    }
}

/// The sample that the value 1.0 becomes: the largest there is.
pub open spec fn loudest(bits: u8) -> int {
    match bits {
        8 => 127,
        16 => 32767,
        24 => 8388607,
        _ => 2147483647,
    }
}

/// The bits of a sample in two's complement.
pub open spec fn twos(value: i32) -> u32 {
    if value < 0 {
        (value + 0x1_0000_0000) as u32
    } else {
        value as u32
    }
}

/// A sample as little-endian PCM.
pub open spec fn sample_bytes(bits: u8, value: i32) -> Seq<u8> {
    le32(twos(value)).take(sample_width(bits))
}

/// The sample that the value 1.0 becomes.
pub fn full_scale(bits: u8) -> (value: i32)
    ensures
        value == loudest(bits),
{
    match bits {
        8 => 127,
        16 => 32767,
        24 => 8388607,
        _ => 2147483647,
    }
}

/// Append one sample as little-endian PCM.
pub fn write_sample(out: &mut Vec<u8>, bits: u8, value: i32)
    ensures
        final(out)@ == old(out)@ + sample_bytes(bits, value),
{
    let word: u32 = if value < 0 {
        (value as i64 + 0x1_0000_0000) as u32
    } else {
        value as u32
    };
    let unused: usize = match bits {
        8 => 3,
        16 => 2,
        24 => 1,
        _ => 0,
    };
    append_le32(out, word);
    let end: usize = out.len();
    out.truncate(end - unused);
    assert(out@ =~= old(out)@ + sample_bytes(bits, value));
}

// ---------------------------------------------------------------------------
// Laws
// ---------------------------------------------------------------------------

/// The number that little-endian bytes hold.
pub open spec fn unsigned_value(bytes: Seq<u8>) -> int
    decreases bytes.len(),
{
    if bytes.len() == 0 {
        0
    } else {
        bytes[0] + 256 * unsigned_value(bytes.drop_first())
    }
}

/// How many numbers so many bytes can hold.
pub open spec fn span(width: int) -> int {
    if width == 1 {
        0x100
    } else if width == 2 {
        0x1_0000
    } else if width == 3 {
        0x100_0000
    } else {
        0x1_0000_0000
    }
}

/// The sample that bytes of PCM hold.
pub open spec fn sample_value(bytes: Seq<u8>) -> int {
    let n = unsigned_value(bytes);
    if n >= span(bytes.len() as int) / 2 {
        n - span(bytes.len() as int)
    } else {
        n
    }
}

/// A sample that is no louder than the loudest is read back from its bytes.
#[verifier::spinoff_prover]
pub proof fn law_sample_reads_back(bits: u8, value: i32)
    requires
        -loudest(bits) <= value <= loudest(bits),
    ensures
        sample_bytes(bits, value).len() == sample_width(bits),
        sample_value(sample_bytes(bits, value)) == value,
{
    let depth: u8 = if bits == 8 || bits == 16 || bits == 24 {
        bits
    } else {
        32
    };
    law_low_byte_comes_first(depth, value);
    lemma_unsigned_value(sample_bytes(bits, value));
}

/// What up to four little-endian bytes count.
proof fn lemma_unsigned_value(b: Seq<u8>)
    requires
        1 <= b.len() <= 4,
    ensures
        unsigned_value(b) == (if b.len() == 1 {
            b[0] as int
        } else if b.len() == 2 {
            b[0] + b[1] * 0x100
        } else if b.len() == 3 {
            b[0] + b[1] * 0x100 + b[2] * 0x1_0000
        } else {
            b[0] + b[1] * 0x100 + b[2] * 0x1_0000 + b[3] * 0x100_0000
        }),
    decreases b.len(),
{
    let rest = b.drop_first();
    if b.len() > 1 {
        lemma_unsigned_value(rest);
        assert(rest[0] == b[1]);
    } else {
        assert(unsigned_value(rest) == 0);
    }
}

/// Every frame of a buffer lies within it.
pub proof fn law_frames_lie_in_the_buffer(samples: int, in_channels: int, frame: int)
    requires
        0 <= samples,
        in_channels > 0,
        0 <= frame < samples / in_channels,
    ensures
        0 <= frame * in_channels,
        frame * in_channels + in_channels <= samples,
{
    assert(0 <= frame * in_channels && frame * in_channels + in_channels <= samples)
        by (nonlinear_arith)
        requires
            in_channels > 0,
            0 <= frame < samples / in_channels,
    ;
}

/// A bit depth takes as many bytes as it has bits, and the loudest sample is the
/// largest number that they hold with a sign.
pub proof fn law_full_scale_uses_every_bit(bits: u8)
    requires
        bits == 8 || bits == 16 || bits == 24 || bits == 32,
    ensures
        8 * sample_width(bits) == bits,
        bits == 8 ==> 2 * (loudest(bits) + 1) == 0x100,
        bits == 16 ==> 2 * (loudest(bits) + 1) == 0x1_0000,
        bits == 24 ==> 2 * (loudest(bits) + 1) == 0x100_0000,
        bits == 32 ==> 2 * (loudest(bits) + 1) == 0x1_0000_0000,
{
}

/// The bytes of a sample count from the low one on, and a negative sample counts
/// what it lacks to the power of two that they reach.
#[verifier::spinoff_prover]
pub proof fn law_low_byte_comes_first(bits: u8, value: i32)
    requires
        bits == 8 || bits == 16 || bits == 24 || bits == 32,
        -loudest(bits) <= value <= loudest(bits),
    ensures
        ({
            let b = sample_bytes(bits, value);
            let n: int = match bits {
                8 => b[0] as int,
                16 => b[0] + b[1] * 0x100,
                24 => b[0] + b[1] * 0x100 + b[2] * 0x1_0000,
                _ => b[0] + b[1] * 0x100 + b[2] * 0x1_0000 + b[3] * 0x100_0000,
            };
            let whole: int = match bits {
                8 => 0x100,
                16 => 0x1_0000,
                24 => 0x100_0000,
                _ => 0x1_0000_0000,
            };
            n == (if value < 0 {
                value + whole
            } else {
                value as int
            })
        }),
{
    let b = le32(twos(value));
    law_last_byte_counts_most(twos(value), 0);
    law_le32_reads_back(twos(value));
    let s = sample_bytes(bits, value);
    assert(s.len() == sample_width(bits));
    assert(forall|i: int| 0 <= i < s.len() ==> s[i] == b[i]);
}

/// Pinning after so many checks that did not find the device at the rate.
pub open spec fn pin_after(checks: nat) -> RatePin
    decreases checks,
{
    if checks == 0 {
        RatePin { set: false, polls: 0 }
    } else {
        pin_after((checks - 1) as nat).missed()
    }
}

/// A device that does not come to its rate is asked for it once, on the first
/// check, then waited for 50 times, and given up after that. It is pinned as
/// soon as a check finds it at the rate.
pub proof fn law_rate_is_requested_once_and_awaited(checks: nat)
    requires
        checks <= 50,
    ensures
        pin_after(checks).step_on(true) == RateStep::Done,
        pin_after(checks).step_on(false) == (if checks == 0 {
            RateStep::Request
        } else {
            RateStep::Wait
        }),
        checks > 0 ==> pin_after(checks).polls == checks - 1,
        !pin_after(checks).is_over(),
        pin_after(51).is_over(),
{
    lemma_pin_after(checks);
    lemma_pin_after(51);
}

/// The first check sets the rate, every further one counts.
proof fn lemma_pin_after(checks: nat)
    requires
        checks <= 51,
    ensures
        pin_after(checks).set == (checks > 0),
        pin_after(checks).polls == (if checks == 0 {
            0
        } else {
            checks - 1
        }),
    decreases checks,
{
    if checks > 0 {
        lemma_pin_after((checks - 1) as nat);
    }
}

} // verus!
