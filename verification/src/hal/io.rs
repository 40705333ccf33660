//! IO of the device: its timeline, and what is done in an IO cycle.

use crate::hal::driver::{law_volume_is_limited, lemma_first_word, rate_supported, unit, Driver};
use crate::hal::ids::{ERR_BAD_OBJECT, E_POINTER, NO_ERR, OBJ_DEVICE, OBJ_MUTE, OBJ_VOLUME};
use crate::hal::ids::{OP_PROCESS_OUTPUT, OP_READ_INPUT, OP_RITE, OP_WRITE_MIX, RING_FRAMES};
use crate::hal::ids::{SEL_BOOLEAN_VALUE, SEL_LEVEL_SCALAR_VALUE, SUPPORTED_RATES};
use crate::hal::ring::{silent, Ring};
use vstd::prelude::*;

verus! {

/// A point on the timeline of the device: a sample time, and the host time at
/// which it was.
pub struct ZeroTimeStamp {
    pub sample_time: u128,
    pub host_time: u64,
    pub seed: u64,
}

/// What to do with the audio of an IO cycle.
pub enum IoAction {
    /// Nothing.
    Pass,
    /// Write it to the ring at its output time, each sample multiplied by the
    /// third power of the volume with these bits, or by 0 where there are none.
    Write(Option<u32>),
    /// Fill it from the ring at its input time.
    Read,
}

/// Host ticks that have gone by since the timeline began.
pub open spec fn elapsed_ticks(anchor: u64, now: u64) -> int {
    if now > anchor {
        now - anchor
    } else {
        0
    }
}

/// A host tick lasts `numer / denom` ns. So the host ticks of one time around
/// the ring, times `ticks_scale`, are this many.
pub open spec fn period_ticks(denom: u32) -> int {
    1_000_000_000 * denom * RING_FRAMES
}

/// What [`period_ticks`] is to be divided by.
pub open spec fn ticks_scale(numer: u32, rate: u32) -> int {
    numer * rate
}

/// How many times around the ring the timeline has gone in full.
pub open spec fn whole_periods(elapsed: int, numer: u32, denom: u32, rate: u32) -> int {
    elapsed * ticks_scale(numer, rate) / period_ticks(denom)
}

/// The host ticks that so many times around the ring take, rounded down.
pub open spec fn ticks_of_periods(periods: int, numer: u32, denom: u32, rate: u32) -> int {
    periods * period_ticks(denom) / ticks_scale(numer, rate)
}

/// Whether the device takes part in an operation: the input read and every
/// output-delivery operation. The host starts output only if its output
/// pipeline is accepted in full.
pub open spec fn takes_part(operation: u32) -> bool {
    ||| operation == OP_READ_INPUT
    ||| operation == OP_WRITE_MIX
    ||| operation == OP_PROCESS_OUTPUT
    ||| operation == OP_RITE
}

impl Driver {
    /// What is done in an operation of an IO cycle. The mix of all that is
    /// played arrives by one of two operations. The pass that comes before it,
    /// for each stream, is accepted but not written.
    pub open spec fn io_action(self, operation: u32) -> IoAction {
        if operation == OP_WRITE_MIX || operation == OP_RITE {
            IoAction::Write(
                if self.muted {
                    None
                } else {
                    Some(self.volume)
                },
            )
        } else if operation == OP_READ_INPUT {
            IoAction::Read
        } else {
            IoAction::Pass
        }
    }

    /// The state after one more client has started IO.
    pub open spec fn io_started(self, now: u64) -> Driver {
        if self.io_count == 0 {
            Driver {
                io_count: 1,
                anchor_host_time: now,
                timestamp_seed: (self.timestamp_seed + 1) as u64,
                ..self
            }
        } else {
            Driver { io_count: (self.io_count + 1) as u32, ..self }
        }
    }

    /// The state after a client has stopped IO.
    pub open spec fn io_stopped(self) -> Driver {
        if self.io_count > 0 {
            Driver { io_count: (self.io_count - 1) as u32, ..self }
        } else {
            self
        }
    }

    /// A client starts IO. With the first one the ring is silent and the
    /// timeline begins anew.
    pub fn start_io(&mut self, ours: bool, device: u32, now: u64, ring: &mut Ring) -> (status: i32)
        requires
            old(self).wf(),
            old(ring).wf(),
            ours && device == OBJ_DEVICE ==> old(self).io_count < u32::MAX,
            ours && device == OBJ_DEVICE && old(self).io_count == 0 ==> old(self).timestamp_seed
                < u64::MAX,
        ensures
            final(self).wf(),
            final(ring).wf(),
            status == (if ours && device == OBJ_DEVICE {
                NO_ERR
            } else {
                ERR_BAD_OBJECT
            }),
            status != NO_ERR ==> *final(self) == *old(self) && final(ring)@ == old(ring)@,
            status == NO_ERR && old(self).io_count == 0 ==> {
                &&& *final(self) == (Driver {
                    io_count: 1,
                    anchor_host_time: now,
                    timestamp_seed: (old(self).timestamp_seed + 1) as u64,
                    ..*old(self)
                })
                &&& final(ring)@ == silent()
            },
            status == NO_ERR && old(self).io_count > 0 ==> {
                &&& *final(self) == (Driver {
                    io_count: (old(self).io_count + 1) as u32,
                    ..*old(self)
                })
                &&& final(ring)@ == old(ring)@
            },
            status == NO_ERR ==> *final(self) == old(self).io_started(now),
    {
        if !ours || device != OBJ_DEVICE {
            return ERR_BAD_OBJECT;
        }
        if self.io_count == 0 {
            ring.clear();
            self.anchor_host_time = now;
            self.timestamp_seed = self.timestamp_seed + 1;
        }
        self.io_count = self.io_count + 1;
        NO_ERR
    }

    /// A client stops IO.
    pub fn stop_io(&mut self, ours: bool, device: u32) -> (status: i32)
        requires
            old(self).wf(),
        ensures
            final(self).wf(),
            status == (if ours && device == OBJ_DEVICE {
                NO_ERR
            } else {
                ERR_BAD_OBJECT
            }),
            *final(self) == (if status == NO_ERR && old(self).io_count > 0 {
                Driver { io_count: (old(self).io_count - 1) as u32, ..*old(self) }
            } else {
                *old(self)
            }),
            status == NO_ERR ==> *final(self) == old(self).io_stopped(),
    {
        if !ours || device != OBJ_DEVICE {
            return ERR_BAD_OBJECT;
        }
        self.io_count = self.io_count.saturating_sub(1);
        NO_ERR
    }

    /// When the timeline last came around to the beginning of the ring. A host
    /// tick lasts `numer / denom` ns.
    pub fn get_zero_time_stamp(
        &self,
        ours: bool,
        device: u32,
        has_out: bool,
        now: u64,
        numer: u32,
        denom: u32,
    ) -> (stamp: Result<ZeroTimeStamp, i32>)
        requires
            self.wf(),
            ours && device == OBJ_DEVICE && has_out ==> numer > 0 && denom > 0,
        ensures
            stamp matches Err(status) ==> (!ours || device != OBJ_DEVICE || !has_out) && status
                == (if !ours || device != OBJ_DEVICE {
                ERR_BAD_OBJECT
            } else {
                E_POINTER
            }),
            stamp matches Ok(s) ==> {
                let periods = whole_periods(
                    elapsed_ticks(self.anchor_host_time, now),
                    numer,
                    denom,
                    self.rate,
                );
                &&& ours && device == OBJ_DEVICE && has_out
                &&& s.sample_time == periods * RING_FRAMES
                &&& s.host_time == self.anchor_host_time + ticks_of_periods(
                    periods,
                    numer,
                    denom,
                    self.rate,
                )
                &&& s.seed == self.timestamp_seed
            },
            stamp matches Ok(s) ==> {
                let elapsed = if now > self.anchor_host_time {
                    now - self.anchor_host_time
                } else {
                    0
                };
                let ticks = s.host_time - self.anchor_host_time;
                let second = 1_000_000_000 * denom;
                &&& s.sample_time as int % 16384 == 0
                &&& 0 <= ticks <= elapsed
                &&& ticks * (numer * self.rate) <= s.sample_time * second < (ticks + 1) * (numer
                    * self.rate)
                &&& s.sample_time * second <= elapsed * (numer * self.rate) < (s.sample_time
                    + 16384) * second
            },
    {
        if !ours || device != OBJ_DEVICE {
            return Err(ERR_BAD_OBJECT);
        }
        if !has_out {
            return Err(E_POINTER);
        }
        let elapsed: u64 = now.saturating_sub(self.anchor_host_time);
        proof {
            lemma_rate_range(self.rate);
            lemma_time_stamp(elapsed, numer, denom, self.rate);
            law_time_stamp_is_on_the_timeline(elapsed, numer, denom, self.rate);
        }
        let scale: u128 = numer as u128 * self.rate as u128;
        let period: u128 = 1_000_000_000u128 * denom as u128 * 16384u128;
        let periods: u128 = elapsed as u128 * scale / period;
        let ticks: u64 = (periods * period / scale) as u64;
        Ok(
            ZeroTimeStamp {
                sample_time: periods * 16384u128,
                host_time: self.anchor_host_time + ticks,
                seed: self.timestamp_seed,
            },
        )
    }

    /// Whether the device takes part in an operation.
    pub fn will_do_io_operation(&self, ours: bool, device: u32, operation: u32) -> (answer: Result<
        bool,
        i32,
    >)
        ensures
            answer == (if ours && device == OBJ_DEVICE {
                Ok::<bool, i32>(takes_part(operation))
            } else {
                Err(ERR_BAD_OBJECT)
            }),
    {
        if !ours || device != OBJ_DEVICE {
            return Err(ERR_BAD_OBJECT);
        }
        Ok(
            operation == OP_READ_INPUT || operation == OP_WRITE_MIX || operation
                == OP_PROCESS_OUTPUT || operation == OP_RITE,
        )
    }

    /// What to do in an operation of an IO cycle.
    pub fn do_io_operation(
        &self,
        ours: bool,
        device: u32,
        operation: u32,
        has_cycle_and_buffer: bool,
    ) -> (action: Result<IoAction, i32>)
        ensures
            action == (if !ours || device != OBJ_DEVICE {
                Err::<IoAction, i32>(ERR_BAD_OBJECT)
            } else if !has_cycle_and_buffer {
                Err(E_POINTER)
            } else {
                Ok(self.io_action(operation))
            }),
            ours && device == OBJ_DEVICE && has_cycle_and_buffer && (operation == OP_WRITE_MIX
                || operation == OP_RITE) ==> action == Ok::<IoAction, i32>(
                IoAction::Write(
                    if self.muted {
                        None
                    } else {
                        Some(self.volume)
                    },
                ),
            ),
            ours && device == OBJ_DEVICE && has_cycle_and_buffer && operation == OP_READ_INPUT
                ==> action == Ok::<IoAction, i32>(IoAction::Read),
    {
        if !ours || device != OBJ_DEVICE {
            return Err(ERR_BAD_OBJECT);
        }
        if !has_cycle_and_buffer {
            return Err(E_POINTER);
        }
        if operation == OP_WRITE_MIX || operation == OP_RITE {
            if self.muted {
                Ok(IoAction::Write(None))
            } else {
                Ok(IoAction::Write(Some(self.volume)))
            }
        } else if operation == OP_READ_INPUT {
            Ok(IoAction::Read)
        } else {
            Ok(IoAction::Pass)
        }
    }
}

/// A sample rate of the device is neither 0 nor large.
proof fn lemma_rate_range(rate: u32)
    requires
        rate_supported(rate as int),
    ensures
        44100 <= rate <= 96000,
{
    let i = choose|i: int|
        0 <= i < SUPPORTED_RATES@.len() && #[trigger] SUPPORTED_RATES@[i] == rate;
    assert(i == 0 || i == 1 || i == 2 || i == 3);
}

/// What bounds the numbers in a time stamp.
proof fn lemma_time_stamp(elapsed: u64, numer: u32, denom: u32, rate: u32)
    requires
        numer > 0,
        denom > 0,
        0 < rate <= 96000,
    ensures
        0 < ticks_scale(numer, rate) <= 0x1_0000_0000 * 96000,
        0 < period_ticks(denom) <= 0x1_0000_0000 * 16384 * 1_000_000_000,
        0 <= elapsed * ticks_scale(numer, rate) <= 0x1_0000_0000_0000_0000 * 0x1_0000_0000 * 96000,
        ({
            let periods = whole_periods(elapsed as int, numer, denom, rate);
            &&& 0 <= periods <= elapsed * ticks_scale(numer, rate)
            &&& periods * 16384 <= elapsed * ticks_scale(numer, rate)
            &&& 0 <= periods * period_ticks(denom) <= elapsed * ticks_scale(numer, rate)
            &&& elapsed * ticks_scale(numer, rate) < (periods + 1) * period_ticks(denom)
            &&& 0 <= ticks_of_periods(periods, numer, denom, rate) <= elapsed
            &&& (elapsed - ticks_of_periods(periods, numer, denom, rate)) * ticks_scale(
                numer,
                rate,
            ) < period_ticks(denom) + ticks_scale(numer, rate)
        }),
{
    let e = elapsed as int;
    let n = ticks_scale(numer, rate);
    let d = period_ticks(denom);
    assert(0 < n <= 0x1_0000_0000 * 96000) by (nonlinear_arith)
        requires
            n == numer * rate,
            0 < numer <= 0xffff_ffff,
            0 < rate <= 96000,
    ;
    assert(d == denom * 16384000000000int);
    assert(0 <= e * n <= 0x1_0000_0000_0000_0000 * 0x1_0000_0000 * 96000) by (nonlinear_arith)
        requires
            0 <= e <= 0xffff_ffff_ffff_ffff,
            0 < n <= 0x1_0000_0000 * 96000,
    ;
    let p = e * n / d;
    assert(0 <= p && p * d <= e * n && e * n < (p + 1) * d) by (nonlinear_arith)
        requires
            p == e * n / d,
            0 < d,
            0 <= e * n,
    ;
    assert(0 <= p * d && p * 16384 <= p * d && p <= p * d) by (nonlinear_arith)
        requires
            0 <= p,
            d >= 16384,
    ;
    let t = p * d / n;
    assert(0 <= t && t <= e && p * d < (t + 1) * n) by (nonlinear_arith)
        requires
            t == p * d / n,
            0 < n,
            0 <= p * d,
            p * d <= e * n,
    ;
    assert((e - t) * n < d + n) by (nonlinear_arith)
        requires
            e * n < (p + 1) * d,
            p * d < (t + 1) * n,
    ;
}

// ---------------------------------------------------------------------------
// Laws
// ---------------------------------------------------------------------------

/// A time stamp is never in the future, and no more than one time around the
/// ring (and the tick that is lost to rounding) in the past.
pub proof fn law_time_stamp_is_recent(elapsed: u64, numer: u32, denom: u32, rate: u32)
    requires
        numer > 0,
        denom > 0,
        rate_supported(rate as int),
    ensures
        ({
            let periods = whole_periods(elapsed as int, numer, denom, rate);
            let ticks = ticks_of_periods(periods, numer, denom, rate);
            &&& 0 <= ticks <= elapsed
            &&& (elapsed - ticks) * ticks_scale(numer, rate) < period_ticks(denom) + ticks_scale(
                numer,
                rate,
            )
        }),
{
    lemma_rate_range(rate);
    lemma_time_stamp(elapsed, numer, denom, rate);
}

/// As time goes on, the time stamps never go back.
pub proof fn law_time_stamps_advance(
    earlier: u64,
    later: u64,
    numer: u32,
    denom: u32,
    rate: u32,
)
    requires
        numer > 0,
        denom > 0,
        rate_supported(rate as int),
        earlier <= later,
    ensures
        ({
            let a = whole_periods(earlier as int, numer, denom, rate);
            let b = whole_periods(later as int, numer, denom, rate);
            &&& a <= b
            &&& ticks_of_periods(a, numer, denom, rate) <= ticks_of_periods(b, numer, denom, rate)
        }),
{
    lemma_rate_range(rate);
    lemma_time_stamp(earlier, numer, denom, rate);
    lemma_time_stamp(later, numer, denom, rate);
    let n = ticks_scale(numer, rate);
    let d = period_ticks(denom);
    let x = earlier * n;
    let y = later * n;
    assert(x <= y) by (nonlinear_arith)
        requires
            x == earlier * n,
            y == later * n,
            earlier <= later,
            n > 0,
    ;
    vstd::arithmetic::div_mod::lemma_div_is_ordered(x, y, d);
    let a = x / d;
    let b = y / d;
    assert(a * d <= b * d) by (nonlinear_arith)
        requires
            a <= b,
            d > 0,
    ;
    vstd::arithmetic::div_mod::lemma_div_is_ordered(a * d, b * d, n);
}

/// The device takes part in every operation in which it does something.
pub proof fn law_nothing_is_done_unasked(driver: Driver, operation: u32)
    ensures
        !takes_part(operation) ==> driver.io_action(operation) == IoAction::Pass,
{
}

/// The two operations that carry the mix write it at the volume of the device,
/// whatever that is, and in silence while the device is muted: devices at
/// different volumes write it differently.
pub proof fn law_mix_is_written_at_the_volume(a: Driver, b: Driver, operation: u32)
    requires
        operation == 0x776d6978 || operation == 0x72697465,
    ensures
        !a.muted ==> a.io_action(operation) == IoAction::Write(Some(a.volume)),
        a.muted ==> a.io_action(operation) == IoAction::Write(None),
        !a.muted && !b.muted && a.volume != b.volume ==> a.io_action(operation) != b.io_action(
            operation,
        ),
        a.muted != b.muted ==> a.io_action(operation) != b.io_action(operation),
{
}

/// A volume that is set is the one that the mix is written at: the number that
/// the four bytes hold, least significant first, where it is from 0 to 1; 0
/// where it is negative and 1 where it is larger.
#[verifier::spinoff_prover]
pub proof fn law_set_volume_is_heard(driver: Driver, data: Seq<u8>, operation: u32, word: u32)
    requires
        data.len() >= 4,
        word == data[0] + data[1] * 0x100 + data[2] * 0x1_0000 + data[3] * 0x100_0000,
        operation == 0x776d6978 || operation == 0x72697465,
        !driver.muted,
    ensures
        ({
            let after = driver.set(OBJ_VOLUME, SEL_LEVEL_SCALAR_VALUE, data).0;
            &&& word <= 0x3f80_0000 ==> after.io_action(operation) == IoAction::Write(Some(word))
            &&& 0x3f80_0000 < word <= 0x7f80_0000 ==> after.io_action(operation)
                == IoAction::Write(Some(0x3f80_0000))
            &&& 0x8000_0000 < word <= 0xff80_0000 ==> after.io_action(operation)
                == IoAction::Write(Some(0))
        }),
{
    lemma_first_word(data, word);
    law_volume_is_limited(word);
    let after = driver.set(OBJ_VOLUME, SEL_LEVEL_SCALAR_VALUE, data).0;
    assert(after.volume == unit(word));
    law_mix_is_written_at_the_volume(after, after, operation);
}

/// Muting silences the mix, and unmuting brings it back at the volume that was
/// set: any number other than 0 mutes.
pub proof fn law_mute_is_heard(driver: Driver, data: Seq<u8>, operation: u32)
    requires
        data.len() >= 4,
        operation == 0x776d6978 || operation == 0x72697465,
    ensures
        ({
            let after = driver.set(OBJ_MUTE, SEL_BOOLEAN_VALUE, data).0;
            let zero = data[0] == 0 && data[1] == 0 && data[2] == 0 && data[3] == 0;
            &&& zero ==> after.io_action(operation) == IoAction::Write(Some(driver.volume))
            &&& !zero ==> after.io_action(operation) == IoAction::Write(None)
        }),
{
    let word = (data[0] + data[1] * 0x100 + data[2] * 0x1_0000 + data[3] * 0x100_0000) as u32;
    lemma_first_word(data, word);
    let after = driver.set(OBJ_MUTE, SEL_BOOLEAN_VALUE, data).0;
    assert(after.muted == (word != 0));
    law_mix_is_written_at_the_volume(after, after, operation);
}

/// Which operations there are for the device: it reads its input on `read`,
/// writes the mix on `wmix` and `rite`, and lets `pout` pass. It takes part in
/// these four and in no other.
pub proof fn law_operations_of_the_device(driver: Driver, operation: u32)
    ensures
        takes_part(operation) <==> operation == 0x72656164 || operation == 0x776d6978 || operation
            == 0x706f7574 || operation == 0x72697465,
        driver.io_action(operation) is Read <==> operation == 0x72656164,
        driver.io_action(operation) is Write <==> operation == 0x776d6978 || operation
            == 0x72697465,
{
}

/// Where a time stamp stands: its sample time is a whole number of times around
/// the ring of 16384 frames, and its host time is when that sample was due, to
/// within a tick; both have been reached, and the next time around has not. A
/// tick lasts `numer / denom` ns, and `rate` frames last a second.
#[verifier::spinoff_prover]
pub proof fn law_time_stamp_is_on_the_timeline(elapsed: u64, numer: u32, denom: u32, rate: u32)
    requires
        numer > 0,
        denom > 0,
        rate_supported(rate as int),
    ensures
        ({
            let periods = whole_periods(elapsed as int, numer, denom, rate);
            let ticks = ticks_of_periods(periods, numer, denom, rate);
            let frames = periods * 16384;
            let second = 1_000_000_000 * denom;
            &&& 0 <= ticks <= elapsed
            &&& ticks * (numer * rate) <= frames * second < (ticks + 1) * (numer * rate)
            &&& frames * second <= elapsed * (numer * rate) < (frames + 16384) * second
        }),
{
    lemma_rate_range(rate);
    lemma_time_stamp(elapsed, numer, denom, rate);
    let n = ticks_scale(numer, rate);
    let d = period_ticks(denom);
    let p = whole_periods(elapsed as int, numer, denom, rate);
    let t = ticks_of_periods(p, numer, denom, rate);
    let second = 1_000_000_000 * denom;
    assert(d == second * 16384);
    assert(p * d == (p * 16384) * second && (p + 1) * d == (p * 16384 + 16384) * second)
        by (nonlinear_arith)
        requires
            d == second * 16384,
    ;
    assert(t * n <= p * d < (t + 1) * n) by (nonlinear_arith)
        requires
            t == p * d / n,
            n > 0,
            p * d >= 0,
    ;
}

/// Clients share one timeline: it begins anew, at that moment and with another
/// seed, when the first of them starts IO, and goes on until the last of them
/// stops; those who come and go in between leave it alone. Neither touches the
/// sample rate, the volume or the mute.
pub proof fn law_clients_share_the_timeline(driver: Driver, now: u64, later: u64)
    requires
        driver.io_count < u32::MAX - 1,
        driver.timestamp_seed < u64::MAX,
    ensures
        ({
            let one = driver.io_started(now);
            let two = one.io_started(later);
            &&& driver.io_count == 0 ==> one.anchor_host_time == now && one.timestamp_seed
                != driver.timestamp_seed
            &&& driver.io_count > 0 ==> one.anchor_host_time == driver.anchor_host_time
                && one.timestamp_seed == driver.timestamp_seed
            &&& one.io_count > 0 && two.io_count > 0
            &&& two.anchor_host_time == one.anchor_host_time && two.timestamp_seed
                == one.timestamp_seed
            &&& two.io_stopped() == one
            &&& one.io_stopped().io_count == driver.io_count
            &&& driver.io_count == 0 ==> driver.io_stopped() == driver
            &&& one.rate == driver.rate && one.volume == driver.volume && one.muted == driver.muted
                && one.has_host == driver.has_host && one.ref_count == driver.ref_count
        }),
{
}

} // verus!
