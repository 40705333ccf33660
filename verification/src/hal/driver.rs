//! The state of the plug-in, and what it answers to the audio host.
//!
//! A call comes with the plug-in that it is made on, which has to be ours, and
//! with pointers, some of which have to be there. Where they matter, `ours`
//! says the former, and an `Option` or a flag the latter.

use crate::bytes::{law_le32_reads_back, law_le64_reads_back, le32, le32_value, le64, le64_value};
use crate::bytes::{read_le32, read_le64};
use crate::hal::property::{answer, prop_size, property_of, rate_bits, rate_to_bits};
use crate::hal::property::{reply_view, uid_view, AudioObjectPropertyAddress, Reply, ReplyModel};
use crate::hal::ids::{CHANNELS, DEFAULT_RATE, DRIVER_INTERFACE_UUID, ERR_BAD_OBJECT};
use crate::hal::ids::{ERR_BAD_PROPERTY_SIZE, ERR_ILLEGAL_OPERATION, ERR_UNKNOWN_PROPERTY};
use crate::hal::ids::{ERR_UNSUPPORTED_FORMAT, ERR_UNSUPPORTED_OPERATION, E_NOINTERFACE, E_POINTER};
use crate::hal::ids::{FORMAT_LPCM, IUNKNOWN_UUID, NO_ERR, OBJ_DEVICE, OBJ_MUTE, OBJ_STREAM_INPUT};
use crate::hal::ids::{OBJ_STREAM_OUTPUT, OBJ_VOLUME, SCOPE_GLOBAL, SEL_BOOLEAN_VALUE};
use crate::hal::ids::{SEL_DEVICE_NOMINAL_SAMPLE_RATE, SEL_LEVEL_DECIBEL_VALUE};
use crate::hal::ids::{SEL_LEVEL_SCALAR_VALUE, SEL_STREAM_IS_ACTIVE, SEL_STREAM_PHYSICAL_FORMAT};
use crate::hal::ids::{SEL_STREAM_VIRTUAL_FORMAT, SUPPORTED_RATES, TYPE_UUID};
use vstd::prelude::*;

verus! {

/// The volume 1.0, as the bits of a 32-bit floating-point number.
pub const FULL_VOLUME: u32 = 0x3f80_0000;

/// Infinity, as the bits of a 32-bit floating-point number. With the sign taken
/// off, whatever is above it is no number.
pub const INFINITY_BITS: u32 = 0x7f80_0000;

/// Whether the device can run at a sample rate.
pub open spec fn rate_supported(rate: int) -> bool {
    exists|i: int| 0 <= i < SUPPORTED_RATES@.len() && #[trigger] SUPPORTED_RATES@[i] == rate
}

/// Whether the device can run at a sample rate.
pub fn supports_rate(rate: u64) -> (yes: bool)
    ensures
        yes == rate_supported(rate as int),
{
    for i in 0..SUPPORTED_RATES.len()
        invariant
            forall|j: int| 0 <= j < i ==> #[trigger] SUPPORTED_RATES@[j] != rate,
    {
        if SUPPORTED_RATES[i] as u64 == rate {
            assert(SUPPORTED_RATES@[i as int] == rate);
            return true;
        }
    }
    false
}

/// The sample rate that the bits of a 64-bit floating-point number stand for,
/// where the device can run at it.
pub open spec fn rate_of(bits: u64) -> Option<u32> {
    if bits == rate_bits(44100) {
        Some(44100)
    } else if bits == rate_bits(48000) {
        Some(48000)
    } else if bits == rate_bits(88200) {
        Some(88200)
    } else if bits == rate_bits(96000) {
        Some(96000)
    } else {
        None
    }
}

/// The sample rate that the bits of a 64-bit floating-point number stand for,
/// where the device can run at it.
fn rate_from_bits(bits: u64) -> (rate: Option<u32>)
    ensures
        rate == rate_of(bits),
{
    for i in 0..SUPPORTED_RATES.len()
        invariant
            forall|j: int| 0 <= j < i ==> rate_bits(#[trigger] SUPPORTED_RATES@[j]) != bits,
    {
        if rate_to_bits(SUPPORTED_RATES[i]) == bits {
            return Some(SUPPORTED_RATES[i]);
        }
    }
    assert(SUPPORTED_RATES@[0] == 44100 && SUPPORTED_RATES@[1] == 48000 && SUPPORTED_RATES@[2]
        == 88200 && SUPPORTED_RATES@[3] == 96000);
    None
}

/// The magnitude of a 32-bit floating-point number: its bits without the sign.
pub open spec fn magnitude(bits: u32) -> u32 {
    bits % 0x8000_0000
}

/// A 32-bit floating-point number limited to 0..1. What is no number stays as
/// it is.
pub open spec fn unit(bits: u32) -> u32 {
    let negative = bits >= 0x8000_0000;
    if magnitude(bits) > INFINITY_BITS {
        bits
    } else if negative && magnitude(bits) > 0 {
        0
    } else if !negative && bits > FULL_VOLUME {
        FULL_VOLUME
    } else {
        bits
    }
}

/// A 32-bit floating-point number limited to 0..1.
pub fn clamp_unit(bits: u32) -> (limited: u32)
    ensures
        limited == unit(bits),
{
    let magnitude: u32 = bits % 0x8000_0000;
    if magnitude > INFINITY_BITS {
        bits
    } else if bits >= 0x8000_0000 && magnitude > 0 {
        0
    } else if bits < 0x8000_0000 && bits > FULL_VOLUME {
        FULL_VOLUME
    } else {
        bits
    }
}

/// The state of the plug-in.
pub struct Driver {
    /// Whether there is a host to notify and to ask for a change.
    pub has_host: bool,
    /// The sample rate, in Hz.
    pub rate: u32,
    /// How many clients run IO.
    pub io_count: u32,
    /// The host time at which sample time 0 was.
    pub anchor_host_time: u64,
    /// Changes whenever the timeline begins anew.
    pub timestamp_seed: u64,
    /// How many references to the plug-in are held.
    pub ref_count: u32,
    /// The volume as a scalar from 0 to 1: the bits of a 32-bit floating-point
    /// number. The applied amplitude is its third power.
    pub volume: u32,
    /// Whether the output is muted.
    pub muted: bool,
}

impl Driver {
    /// Whether the device runs at a rate that it supports.
    pub open spec fn wf(&self) -> bool {
        rate_supported(self.rate as int)
    }

    /// The state that the plug-in starts in.
    pub fn new() -> (driver: Driver)
        ensures
            driver.wf(),
            driver == (Driver {
                has_host: false,
                rate: DEFAULT_RATE,
                io_count: 0,
                anchor_host_time: 0,
                timestamp_seed: 1,
                ref_count: 0,
                volume: FULL_VOLUME,
                muted: false,
            }),
    {
        assert(SUPPORTED_RATES@[0] == DEFAULT_RATE);
        Driver {
            has_host: false,
            rate: DEFAULT_RATE,
            io_count: 0,
            anchor_host_time: 0,
            timestamp_seed: 1,
            ref_count: 0,
            volume: FULL_VOLUME,
            muted: false,
        }
    }

    // -----------------------------------------------------------------------
    // References and life cycle
    // -----------------------------------------------------------------------

    /// The state with one more reference held.
    pub open spec fn referenced(self) -> Driver {
        Driver { ref_count: ((self.ref_count + 1) % 0x1_0000_0000) as u32, ..self }
    }

    /// Count a reference.
    fn retain(&mut self)
        ensures
            *final(self) == old(self).referenced(),
    {
        self.ref_count = if self.ref_count == u32::MAX {
            0
        } else {
            self.ref_count + 1
        };
    }

    /// The factory: hand the plug-in out to a host that asks for its type.
    pub fn create(&mut self, requested_type: Option<&[u8; 16]>) -> (granted: bool)
        ensures
            granted == (requested_type matches Some(uuid) && uuid@ == TYPE_UUID@),
            *final(self) == (if granted {
                old(self).referenced()
            } else {
                *old(self)
            }),
    {
        match requested_type {
            Some(uuid) => {
                if same_uuid(uuid, &TYPE_UUID) {
                    self.retain();
                    true
                } else {
                    false
                }
            },
            None => false,
        }
    }

    /// Hand an interface of the plug-in out: `NO_ERR` where it has the
    /// interface. On `E_NOINTERFACE` nothing is handed out.
    pub fn query_interface(&mut self, ours: bool, iid: &[u8; 16], has_out: bool) -> (status: i32)
        ensures
            status == (if !has_out {
                E_POINTER
            } else if !ours {
                ERR_BAD_OBJECT
            } else if iid@ == IUNKNOWN_UUID@ || iid@ == DRIVER_INTERFACE_UUID@ {
                NO_ERR
            } else {
                E_NOINTERFACE
            }),
            *final(self) == (if status == NO_ERR {
                old(self).referenced()
            } else {
                *old(self)
            }),
    {
        if !has_out {
            return E_POINTER;
        }
        if !ours {
            return ERR_BAD_OBJECT;
        }
        if same_uuid(iid, &IUNKNOWN_UUID) || same_uuid(iid, &DRIVER_INTERFACE_UUID) {
            self.retain();
            NO_ERR
        } else {
            E_NOINTERFACE
        }
    }

    /// Count a reference; gives how many are held.
    pub fn add_ref(&mut self) -> (count: u32)
        requires
            old(self).ref_count < u32::MAX,
        ensures
            *final(self) == old(self).referenced(),
            count == old(self).ref_count + 1,
    {
        self.retain();
        self.ref_count
    }

    /// Give a reference back; gives how many are held. The interface is never
    /// freed: just keep the count non-negative.
    pub fn release(&mut self) -> (count: u32)
        ensures
            *final(self) == (Driver { ref_count: count, ..*old(self) }),
            count == (if old(self).ref_count > 0 {
                old(self).ref_count - 1
            } else {
                0
            }),
            old(self).ref_count > 0 ==> final(self).referenced() == *old(self),
    {
        self.ref_count = self.ref_count.saturating_sub(1);
        self.ref_count
    }

    /// Remember whether there is a host.
    pub fn initialize(&mut self, ours: bool, has_host: bool) -> (status: i32)
        ensures
            status == (if ours {
                NO_ERR
            } else {
                ERR_BAD_OBJECT
            }),
            *final(self) == (if ours {
                Driver { has_host, ..*old(self) }
            } else {
                *old(self)
            }),
    {
        if !ours {
            return ERR_BAD_OBJECT;
        }
        self.has_host = has_host;
        NO_ERR
    }

    /// The state after a change of the sample rate.
    pub open spec fn rate_changed(self, rate: u32, now: u64) -> Driver {
        Driver {
            rate,
            anchor_host_time: now,
            timestamp_seed: (self.timestamp_seed + 1) as u64,
            ..self
        }
    }

    /// The host has scheduled a change of the sample rate, and says to make it:
    /// the timeline begins anew.
    pub fn perform_device_configuration_change(
        &mut self,
        ours: bool,
        device: u32,
        change_action: u64,
        now: u64,
    ) -> (status: i32)
        requires
            old(self).wf(),
            ours && device == OBJ_DEVICE && rate_supported(change_action as int) ==> old(
                self,
            ).timestamp_seed < u64::MAX,
        ensures
            final(self).wf(),
            status == (if !ours || device != OBJ_DEVICE {
                ERR_BAD_OBJECT
            } else if !rate_supported(change_action as int) {
                ERR_ILLEGAL_OPERATION
            } else {
                NO_ERR
            }),
            *final(self) == (if status == NO_ERR {
                Driver {
                    rate: change_action as u32,
                    anchor_host_time: now,
                    timestamp_seed: (old(self).timestamp_seed + 1) as u64,
                    ..*old(self)
                }
            } else {
                *old(self)
            }),
            status == NO_ERR ==> *final(self) == old(self).rate_changed(change_action as u32, now),
            status == NO_ERR ==> final(self).rate == change_action,
    {
        if !ours || device != OBJ_DEVICE {
            return ERR_BAD_OBJECT;
        }
        if !supports_rate(change_action) {
            return ERR_ILLEGAL_OPERATION;
        }
        self.rate = change_action as u32;
        self.anchor_host_time = now;
        self.timestamp_seed = self.timestamp_seed + 1;
        NO_ERR
    }
}

/// Whether two UUIDs are the same.
fn same_uuid(a: &[u8; 16], b: &[u8; 16]) -> (same: bool)
    ensures
        same == (a@ == b@),
{
    for i in 0..16
        invariant
            forall|j: int| 0 <= j < i ==> a@[j] == b@[j],
    {
        if a[i] != b[i] {
            return false;
        }
    }
    assert(a@ =~= b@);
    true
}

/// Devices can be neither created nor destroyed.
pub fn create_device() -> (status: i32)
    ensures
        status == ERR_UNSUPPORTED_OPERATION,
{
    ERR_UNSUPPORTED_OPERATION
}

/// Devices can be neither created nor destroyed.
pub fn destroy_device() -> (status: i32)
    ensures
        status == ERR_UNSUPPORTED_OPERATION,
{
    ERR_UNSUPPORTED_OPERATION
}

/// A client takes the device up, or lets go of it, or a change is called off:
/// all that matters is that the device is meant.
pub fn device_status(device: u32) -> (status: i32)
    ensures
        status == (if device == OBJ_DEVICE {
            NO_ERR
        } else {
            ERR_BAD_OBJECT
        }),
{
    if device != OBJ_DEVICE {
        return ERR_BAD_OBJECT;
    }
    NO_ERR
}

// ---------------------------------------------------------------------------
// Property dispatch
// ---------------------------------------------------------------------------

/// Whether a property may be set.
pub open spec fn settable(object: u32, selector: u32) -> bool {
    match object {
        OBJ_DEVICE => selector == SEL_DEVICE_NOMINAL_SAMPLE_RATE,
        OBJ_STREAM_OUTPUT | OBJ_STREAM_INPUT => selector == SEL_STREAM_IS_ACTIVE || selector
            == SEL_STREAM_VIRTUAL_FORMAT || selector == SEL_STREAM_PHYSICAL_FORMAT,
        OBJ_VOLUME => selector == SEL_LEVEL_SCALAR_VALUE || selector == SEL_LEVEL_DECIBEL_VALUE,
        OBJ_MUTE => selector == SEL_BOOLEAN_VALUE,
        _ => false,
    }
}

/// Whether a property may be set.
fn is_settable(object: u32, selector: u32) -> (yes: bool)
    ensures
        yes == settable(object, selector),
{
    match object {
        OBJ_DEVICE => selector == SEL_DEVICE_NOMINAL_SAMPLE_RATE,
        OBJ_STREAM_OUTPUT | OBJ_STREAM_INPUT => selector == SEL_STREAM_IS_ACTIVE || selector
            == SEL_STREAM_VIRTUAL_FORMAT || selector == SEL_STREAM_PHYSICAL_FORMAT,
        OBJ_VOLUME => selector == SEL_LEVEL_SCALAR_VALUE || selector == SEL_LEVEL_DECIBEL_VALUE,
        OBJ_MUTE => selector == SEL_BOOLEAN_VALUE,
        _ => false,
    }
}

/// What the host asks to be done with a property it sets.
pub enum SetModel {
    /// Nothing more than to answer with this.
    Status(i32),
    /// A value was stored: tell the host that these properties changed, and
    /// answer with success.
    Changed(Seq<AudioObjectPropertyAddress>),
    /// Store the volume that these dB amount to.
    Decibels(u32),
    /// Ask the host to schedule a change to this sample rate, and answer with
    /// what it says.
    RequestRate(u32),
}

/// What the host asks to be done with a property it sets.
pub enum SetOutcome {
    /// Nothing more than to answer with this.
    Status(i32),
    /// A value was stored: tell the host that these properties changed, and
    /// answer with success.
    Changed(Vec<AudioObjectPropertyAddress>),
    /// Store the volume that these dB amount to.
    Decibels(u32),
    /// Ask the host to schedule a change to this sample rate, and answer with
    /// what it says.
    RequestRate(u32),
}

impl View for SetOutcome {
    type V = SetModel;

    open spec fn view(&self) -> SetModel {
        match self {
            SetOutcome::Status(status) => SetModel::Status(*status),
            SetOutcome::Changed(addresses) => SetModel::Changed(addresses@),
            SetOutcome::Decibels(bits) => SetModel::Decibels(*bits),
            SetOutcome::RequestRate(rate) => SetModel::RequestRate(*rate),
        }
    }
}

/// The properties of the volume control that hold the volume.
pub open spec fn volume_selectors() -> Seq<u32> {
    seq![SEL_LEVEL_SCALAR_VALUE, SEL_LEVEL_DECIBEL_VALUE]
}

/// The addresses of properties of an object as a whole.
pub open spec fn global_addresses(selectors: Seq<u32>) -> Seq<AudioObjectPropertyAddress> {
    selectors.map(
        |i: int, selector: u32|
            AudioObjectPropertyAddress { selector, scope: SCOPE_GLOBAL, element: 0 },
    )
}

/// The format that the bytes describe has to be ours: linear PCM, stereo, 32 bits.
pub open spec fn is_our_format(data: Seq<u8>) -> bool {
    &&& le32_value(data.subrange(8, 12)) == FORMAT_LPCM
    &&& le32_value(data.subrange(28, 32)) == CHANNELS
    &&& le32_value(data.subrange(32, 36)) == 32
}

impl Driver {
    /// What the host is told that properties changed: nothing where there is no
    /// host.
    pub open spec fn notified(self, selectors: Seq<u32>) -> Seq<AudioObjectPropertyAddress> {
        if self.has_host {
            global_addresses(selectors)
        } else {
            seq![]
        }
    }

    /// What comes of a request for a sample rate, given by its bits.
    pub open spec fn rate_request(self, bits: u64) -> SetModel {
        match rate_of(bits) {
            None => SetModel::Status(ERR_UNSUPPORTED_FORMAT),
            Some(rate) => if rate == self.rate {
                SetModel::Status(NO_ERR)
            } else if !self.has_host {
                SetModel::Status(ERR_ILLEGAL_OPERATION)
            } else {
                SetModel::RequestRate(rate)
            },
        }
    }

    /// The state after a property has been set to `data`, and what is to be
    /// done. Nothing is done where there are too few data.
    pub open spec fn set(self, object: u32, selector: u32, data: Seq<u8>) -> (Driver, SetModel) {
        let size = if object == OBJ_DEVICE {
            8nat
        } else if selector == SEL_STREAM_IS_ACTIVE {
            0
        } else if object == OBJ_STREAM_OUTPUT || object == OBJ_STREAM_INPUT {
            40
        } else {
            4
        };
        let word = le32_value(data.subrange(0, 4));
        if data.len() < size {
            (self, SetModel::Status(ERR_BAD_PROPERTY_SIZE))
        } else if object == OBJ_DEVICE {
            (self, self.rate_request(le64_value(data.subrange(0, 8))))
        } else if selector == SEL_STREAM_IS_ACTIVE {
            (self, SetModel::Status(NO_ERR))
        } else if object == OBJ_STREAM_OUTPUT || object == OBJ_STREAM_INPUT {
            if is_our_format(data) {
                (self, self.rate_request(le64_value(data.subrange(0, 8))))
            } else {
                (self, SetModel::Status(ERR_UNSUPPORTED_FORMAT))
            }
        } else if selector == SEL_LEVEL_SCALAR_VALUE {
            (
                Driver { volume: unit(word), ..self },
                SetModel::Changed(self.notified(volume_selectors())),
            )
        } else if selector == SEL_LEVEL_DECIBEL_VALUE {
            (self, SetModel::Decibels(word))
        } else {
            (
                Driver { muted: word != 0, ..self },
                SetModel::Changed(self.notified(seq![SEL_BOOLEAN_VALUE])),
            )
        }
    }

    /// Whether an object has a property.
    pub fn has_property(
        &self,
        ours: bool,
        object: u32,
        address: Option<&AudioObjectPropertyAddress>,
    ) -> (yes: bool)
        ensures
            yes == (ours && (address matches Some(a) && property_of(
                *self,
                object,
                *a,
                None,
            ) is Some)),
    {
        match address {
            Some(a) => ours && prop_size(object, a).is_some(),
            None => false,
        }
    }

    /// Whether a property may be set, or what is wrong with the question.
    pub fn is_property_settable(
        &self,
        ours: bool,
        object: u32,
        address: Option<&AudioObjectPropertyAddress>,
        has_out: bool,
    ) -> (answer: Result<bool, i32>)
        ensures
            answer == match address {
                _ if !ours => Err::<bool, i32>(ERR_BAD_OBJECT),
                Some(a) if has_out => if property_of(*self, object, *a, None) is Some {
                    Ok(settable(object, a.selector))
                } else {
                    Err(ERR_UNKNOWN_PROPERTY)
                },
                _ => Err(E_POINTER),
            },
    {
        if !ours {
            return Err(ERR_BAD_OBJECT);
        }
        match address {
            Some(a) => {
                if !has_out {
                    return Err(E_POINTER);
                }
                if prop_size(object, a).is_none() {
                    return Err(ERR_UNKNOWN_PROPERTY);
                }
                Ok(is_settable(object, a.selector))
            },
            None => Err(E_POINTER),
        }
    }

    /// The size of a property, or what is wrong with the question.
    pub fn get_property_data_size(
        &self,
        ours: bool,
        object: u32,
        address: Option<&AudioObjectPropertyAddress>,
        has_out: bool,
    ) -> (answer: Result<u32, i32>)
        ensures
            match address {
                _ if !ours => answer == Err::<u32, i32>(ERR_BAD_OBJECT),
                Some(a) if has_out => match property_of(*self, object, *a, None) {
                    Some(property) => answer matches Ok(size) && size == property.size(),
                    None => answer == Err::<u32, i32>(ERR_UNKNOWN_PROPERTY),
                },
                _ => answer == Err::<u32, i32>(E_POINTER),
            },
    {
        if !ours {
            return Err(ERR_BAD_OBJECT);
        }
        match address {
            Some(a) => {
                if !has_out {
                    return Err(E_POINTER);
                }
                match prop_size(object, a) {
                    Some(size) => Ok(size),
                    None => Err(ERR_UNKNOWN_PROPERTY),
                }
            },
            None => Err(E_POINTER),
        }
    }

    /// What a property holds, for a host that has room for `room` bytes, or
    /// what is wrong with the question. `uid` is the device that a translation
    /// asks for.
    pub fn get_property_data(
        &self,
        ours: bool,
        object: u32,
        address: Option<&AudioObjectPropertyAddress>,
        uid: Option<&str>,
        room: u32,
        has_out: bool,
    ) -> (reply: Result<Reply, i32>)
        ensures
            reply_view(reply) == match address {
                _ if !ours => Err::<ReplyModel, i32>(ERR_BAD_OBJECT),
                Some(a) if has_out => match property_of(*self, object, *a, uid_view(uid)) {
                    Some(property) => answer(property, room as nat),
                    None => Err(ERR_UNKNOWN_PROPERTY),
                },
                _ => Err(E_POINTER),
            },
    {
        if !ours {
            return Err(ERR_BAD_OBJECT);
        }
        match address {
            Some(a) => {
                if !has_out {
                    return Err(E_POINTER);
                }
                match self.property(object, a, uid) {
                    Some(property) => property.reply(room),
                    None => Err(ERR_UNKNOWN_PROPERTY),
                }
            },
            None => Err(E_POINTER),
        }
    }

    /// What to tell the host that control values changed.
    fn notify_properties_changed(&self, selectors: &[u32]) -> (addresses: Vec<
        AudioObjectPropertyAddress,
    >)
        ensures
            addresses@ == self.notified(selectors@),
    {
        let mut addresses: Vec<AudioObjectPropertyAddress> = Vec::new();
        if !self.has_host {
            return addresses;
        }
        for i in 0..selectors.len()
            invariant
                addresses@ =~= global_addresses(selectors@).take(i as int),
        {
            addresses.push(AudioObjectPropertyAddress::global(selectors[i]));
        }
        addresses
    }

    /// A sample rate is asked for: where it differs, and there is a host, the
    /// host has to schedule the change. The new rate is delivered back as the
    /// action of a configuration change.
    fn request_rate_change(&self, bits: u64) -> (outcome: SetOutcome)
        ensures
            outcome@ == self.rate_request(bits),
    {
        match rate_from_bits(bits) {
            None => SetOutcome::Status(ERR_UNSUPPORTED_FORMAT),
            Some(rate) => {
                if rate == self.rate {
                    SetOutcome::Status(NO_ERR)
                } else if !self.has_host {
                    SetOutcome::Status(ERR_ILLEGAL_OPERATION)
                } else {
                    SetOutcome::RequestRate(rate)
                }
            },
        }
    }

    /// Store a volume, given by the bits of its scalar.
    pub fn store_volume(&mut self, bits: u32) -> (addresses: Vec<AudioObjectPropertyAddress>)
        ensures
            *final(self) == (Driver { volume: bits, ..*old(self) }),
            addresses@ == old(self).notified(volume_selectors()),
    {
        self.volume = bits;
        let selectors: Vec<u32> = vec![SEL_LEVEL_SCALAR_VALUE, SEL_LEVEL_DECIBEL_VALUE];
        assert(selectors@ =~= volume_selectors());
        self.notify_properties_changed(selectors.as_slice())
    }

    /// Set a property that may be set.
    fn set_settable(&mut self, object: u32, selector: u32, data: &[u8]) -> (outcome: SetOutcome)
        requires
            settable(object, selector),
        ensures
            (*final(self), outcome@) == old(self).set(object, selector, data@),
    {
        let len: usize = data.len();
        match object {
            OBJ_DEVICE => {
                if len < 8 {
                    return SetOutcome::Status(ERR_BAD_PROPERTY_SIZE);
                }
                self.request_rate_change(read_le64(data, 0))
            },
            OBJ_STREAM_OUTPUT | OBJ_STREAM_INPUT => {
                if selector == SEL_STREAM_IS_ACTIVE {
                    return SetOutcome::Status(NO_ERR);
                }
                if len < 40 {
                    return SetOutcome::Status(ERR_BAD_PROPERTY_SIZE);
                }
                if read_le32(data, 8) != FORMAT_LPCM || read_le32(data, 28) != 2 || read_le32(
                    data,
                    32,
                ) != 32 {
                    return SetOutcome::Status(ERR_UNSUPPORTED_FORMAT);
                }
                self.request_rate_change(read_le64(data, 0))
            },
            _ => {
                if len < 4 {
                    return SetOutcome::Status(ERR_BAD_PROPERTY_SIZE);
                }
                let word: u32 = read_le32(data, 0);
                if selector == SEL_LEVEL_SCALAR_VALUE {
                    SetOutcome::Changed(self.store_volume(clamp_unit(word)))
                } else if selector == SEL_LEVEL_DECIBEL_VALUE {
                    SetOutcome::Decibels(word)
                } else {
                    self.muted = word != 0;
                    let selectors: Vec<u32> = vec![SEL_BOOLEAN_VALUE];
                    assert(selectors@ =~= seq![SEL_BOOLEAN_VALUE]);
                    SetOutcome::Changed(self.notify_properties_changed(selectors.as_slice()))
                }
            },
        }
    }

    /// Set a property.
    pub fn set_property_data(
        &mut self,
        ours: bool,
        object: u32,
        address: Option<&AudioObjectPropertyAddress>,
        data: Option<&[u8]>,
    ) -> (outcome: SetOutcome)
        ensures
            (*final(self), outcome@) == match (address, data) {
                _ if !ours => (*old(self), SetModel::Status(ERR_BAD_OBJECT)),
                (Some(a), Some(d)) => if settable(object, a.selector) {
                    old(self).set(object, a.selector, d@)
                } else if property_of(*old(self), object, *a, None) is Some {
                    (*old(self), SetModel::Status(ERR_ILLEGAL_OPERATION))
                } else {
                    (*old(self), SetModel::Status(ERR_UNKNOWN_PROPERTY))
                },
                _ => (*old(self), SetModel::Status(E_POINTER)),
            },
    {
        if !ours {
            return SetOutcome::Status(ERR_BAD_OBJECT);
        }
        match (address, data) {
            (Some(a), Some(d)) => {
                if is_settable(object, a.selector) {
                    self.set_settable(object, a.selector, d)
                } else if prop_size(object, a).is_some() {
                    SetOutcome::Status(ERR_ILLEGAL_OPERATION)
                } else {
                    SetOutcome::Status(ERR_UNKNOWN_PROPERTY)
                }
            },
            _ => SetOutcome::Status(E_POINTER),
        }
    }
}

// ---------------------------------------------------------------------------
// Laws
// ---------------------------------------------------------------------------

/// What may be set is there to be read.
pub proof fn law_settable_properties_exist(
    driver: Driver,
    object: u32,
    address: AudioObjectPropertyAddress,
    uid: Option<Seq<char>>,
)
    requires
        settable(object, address.selector),
    ensures
        property_of(driver, object, address, uid) is Some,
{
}

/// A volume that was set is read back, limited to 0..1.
pub proof fn law_volume_reads_back(
    driver: Driver,
    data: Seq<u8>,
    scope: u32,
    element: u32,
    room: nat,
)
    requires
        data.len() >= 4,
        room >= 4,
    ensures
        ({
            let after = driver.set(OBJ_VOLUME, SEL_LEVEL_SCALAR_VALUE, data).0;
            let address = AudioObjectPropertyAddress {
                selector: SEL_LEVEL_SCALAR_VALUE,
                scope,
                element,
            };
            property_of(after, OBJ_VOLUME, address, None) matches Some(property) && answer(
                property,
                room,
            ) == Ok::<ReplyModel, i32>(
                ReplyModel::Bytes(le32(unit(le32_value(data.subrange(0, 4))))),
            )
        }),
{
}

/// Whether the output was muted is read back, as 0 or 1.
pub proof fn law_mute_reads_back(
    driver: Driver,
    data: Seq<u8>,
    scope: u32,
    element: u32,
    room: nat,
)
    requires
        data.len() >= 4,
        room >= 4,
    ensures
        ({
            let after = driver.set(OBJ_MUTE, SEL_BOOLEAN_VALUE, data).0;
            let address = AudioObjectPropertyAddress { selector: SEL_BOOLEAN_VALUE, scope, element };
            property_of(after, OBJ_MUTE, address, None) matches Some(property) && answer(
                property,
                room,
            ) == Ok::<ReplyModel, i32>(
                ReplyModel::Bytes(
                    le32(
                        if le32_value(data.subrange(0, 4)) != 0 {
                            1
                        } else {
                            0
                        },
                    ),
                ),
            )
        }),
{
}

/// A sample rate that the host is asked to change to is one that the device
/// runs at once the host says so, and then reads back as what was set.
pub proof fn law_requested_rate_takes_effect(driver: Driver, bits: u64, rate: u32)
    requires
        driver.rate_request(bits) == SetModel::RequestRate(rate),
    ensures
        rate_supported(rate as int),
        rate != driver.rate,
        ({
            let after = Driver { rate, ..driver };
            let address = AudioObjectPropertyAddress {
                selector: SEL_DEVICE_NOMINAL_SAMPLE_RATE,
                scope: SCOPE_GLOBAL,
                element: 0,
            };
            property_of(after, OBJ_DEVICE, address, None) matches Some(property) && answer(
                property,
                8,
            ) == Ok::<ReplyModel, i32>(ReplyModel::Bytes(le64(bits)))
        }),
{
    assert(SUPPORTED_RATES@[0] == 44100 && SUPPORTED_RATES@[1] == 48000 && SUPPORTED_RATES@[2]
        == 88200 && SUPPORTED_RATES@[3] == 96000);
}

/// To ask for the sample rate that the device runs at is to change nothing.
pub proof fn law_current_rate_is_accepted(driver: Driver)
    requires
        driver.wf(),
    ensures
        driver.rate_request(rate_bits(driver.rate)) == SetModel::Status(NO_ERR),
{
    let i = choose|i: int|
        0 <= i < SUPPORTED_RATES@.len() && #[trigger] SUPPORTED_RATES@[i] == driver.rate;
    assert(i == 0 || i == 1 || i == 2 || i == 3);
}

/// A number limited to 0..1 is either no number or from 0 to 1, and limiting it
/// once more changes nothing.
pub proof fn law_limited_volume_is_in_range(bits: u32)
    ensures
        magnitude(unit(bits)) > INFINITY_BITS || magnitude(unit(bits)) <= FULL_VOLUME,
        unit(unit(bits)) == unit(bits),
        magnitude(unit(bits)) <= INFINITY_BITS && unit(bits) >= 0x8000_0000 ==> magnitude(
            unit(bits),
        ) == 0,
{
}

/// The device runs at 44.1, 48, 88.2 and 96 kHz, and at no other rate.
pub proof fn law_rates_of_the_device(rate: int)
    ensures
        rate_supported(rate) <==> rate == 44100 || rate == 48000 || rate == 88200 || rate == 96000,
{
    assert(SUPPORTED_RATES@[0] == 44100 && SUPPORTED_RATES@[1] == 48000 && SUPPORTED_RATES@[2]
        == 88200 && SUPPORTED_RATES@[3] == 96000);
}

/// Limiting a volume: a number from 0 to 1 stays as it is, a larger one becomes
/// 1 and a negative one 0; what is no number stays as it is.
pub proof fn law_volume_is_limited(bits: u32)
    ensures
        bits <= 0x3f80_0000 ==> unit(bits) == bits,
        0x3f80_0000 < bits <= 0x7f80_0000 ==> unit(bits) == 0x3f80_0000,
        0x8000_0000 < bits <= 0xff80_0000 ==> unit(bits) == 0,
        bits == 0x8000_0000 || 0x7f80_0000 < bits < 0x8000_0000 || bits > 0xff80_0000 ==> unit(bits)
            == bits,
{
}

/// What may be set: the sample rate of the device, whether a stream is active and
/// its formats, the volume as a scalar and in dB, and the mute.
pub proof fn law_what_may_be_set(object: u32, selector: u32)
    ensures
        settable(object, selector) <==> {
            ||| object == 2 && selector == 0x6e737274
            ||| (object == 3 || object == 4) && (selector == 0x73616374 || selector == 0x73666d74
                || selector == 0x70667420)
            ||| object == 5 && (selector == 0x6c637376 || selector == 0x6c636476)
            ||| object == 6 && selector == 0x6263766c
        },
{
}

/// Setting one thing leaves the others as they are: a volume changes nothing but
/// the volume, a mute nothing but the mute, and no other property changes the
/// state at all, nor does anything for which there are too few bytes.
pub proof fn law_set_changes_only_what_is_set(
    driver: Driver,
    object: u32,
    selector: u32,
    data: Seq<u8>,
)
    requires
        settable(object, selector),
    ensures
        ({
            let after = driver.set(object, selector, data).0;
            &&& object != 5 || selector != 0x6c637376 ==> after.volume == driver.volume
            &&& object != 6 ==> after.muted == driver.muted
            &&& after.has_host == driver.has_host && after.rate == driver.rate && after.io_count
                == driver.io_count && after.anchor_host_time == driver.anchor_host_time
                && after.timestamp_seed == driver.timestamp_seed && after.ref_count
                == driver.ref_count
        }),
        ({
            let needed: int = if selector == 0x73616374 {
                0
            } else if object == 2 {
                8
            } else if object == 3 || object == 4 {
                40
            } else {
                4
            };
            data.len() < needed ==> driver.set(object, selector, data) == (
                driver,
                SetModel::Status(ERR_BAD_PROPERTY_SIZE),
            )
        }),
{
}

/// A sample rate is asked for by its bytes: one that the device supports has to
/// be scheduled by the host where it is another than the current one; where it
/// is the current one, all is well; without a host it is refused. Bytes that
/// are no rate of the device are refused in any case.
pub proof fn law_rate_is_asked_for(driver: Driver, rate: u32, bits: u64)
    requires
        rate == 44100 || rate == 48000 || rate == 88200 || rate == 96000,
    ensures
        driver.set(OBJ_DEVICE, SEL_DEVICE_NOMINAL_SAMPLE_RATE, le64(rate_bits(rate))).1 == (if rate
            == driver.rate {
            SetModel::Status(0)
        } else if driver.has_host {
            SetModel::RequestRate(rate)
        } else {
            SetModel::Status(ERR_ILLEGAL_OPERATION)
        }),
        (forall|r: u32|
            (r == 44100 || r == 48000 || r == 88200 || r == 96000) ==> #[trigger] rate_bits(r)
                != bits) ==> driver.set(
            OBJ_DEVICE,
            SEL_DEVICE_NOMINAL_SAMPLE_RATE,
            le64(bits),
        ).1 == SetModel::Status(ERR_UNSUPPORTED_FORMAT),
{
    law_le64_reads_back(rate_bits(rate));
    law_le64_reads_back(bits);
    assert(le64(rate_bits(rate)).subrange(0, 8) =~= le64(rate_bits(rate)));
    assert(le64(bits).subrange(0, 8) =~= le64(bits));
    if forall|r: u32|
        (r == 44100 || r == 48000 || r == 88200 || r == 96000) ==> #[trigger] rate_bits(r) != bits {
        assert(rate_bits(44100) != bits && rate_bits(48000) != bits && rate_bits(88200) != bits
            && rate_bits(96000) != bits);
    }
}

/// The format that a stream shows at a rate may be set on it, and amounts to
/// asking for that rate; one with other channels, another sample size or another
/// encoding is refused.
#[verifier::spinoff_prover]
pub proof fn law_shown_format_may_be_set(
    driver: Driver,
    object: u32,
    selector: u32,
    rate: u32,
    data: Seq<u8>,
)
    requires
        object == 3 || object == 4,
        selector == SEL_STREAM_VIRTUAL_FORMAT || selector == SEL_STREAM_PHYSICAL_FORMAT,
        rate == 44100 || rate == 48000 || rate == 88200 || rate == 96000,
    ensures
        driver.set(object, selector, crate::hal::property::format(rate)).1 == driver.set(
            OBJ_DEVICE,
            SEL_DEVICE_NOMINAL_SAMPLE_RATE,
            le64(rate_bits(rate)),
        ).1,
        data.len() >= 40 && (data.subrange(8, 12) != seq![0x6du8, 0x63, 0x70, 0x6c]
            || data.subrange(28, 32) != seq![2u8, 0, 0, 0] || data.subrange(32, 36) != seq![
            32u8,
            0,
            0,
            0,
        ]) ==> driver.set(object, selector, data).1 == SetModel::Status(ERR_UNSUPPORTED_FORMAT),
{
    let bytes = crate::hal::property::format(rate);
    law_rate_is_asked_for(driver, rate, 0);
    assert(bytes.subrange(0, 8) =~= le64(rate_bits(rate)));
    assert(bytes.subrange(8, 12) =~= le32(FORMAT_LPCM));
    assert(bytes.subrange(28, 32) =~= le32(2));
    assert(bytes.subrange(32, 36) =~= le32(32));
    law_le32_reads_back(FORMAT_LPCM);
    law_le32_reads_back(2);
    law_le32_reads_back(32);
    law_le64_reads_back(rate_bits(rate));
    assert(le64(rate_bits(rate)).subrange(0, 8) =~= le64(rate_bits(rate)));
    if data.len() >= 40 && is_our_format(data) {
        lemma_le32_value_is(data.subrange(8, 12), seq![0x6du8, 0x63, 0x70, 0x6c]);
        lemma_le32_value_is(data.subrange(28, 32), seq![2u8, 0, 0, 0]);
        lemma_le32_value_is(data.subrange(32, 36), seq![32u8, 0, 0, 0]);
    }
}

/// Four bytes are determined by the number that they hold.
proof fn lemma_le32_value_is(a: Seq<u8>, b: Seq<u8>)
    requires
        a.len() == 4,
        b.len() == 4,
        le32_value(a) == le32_value(b),
    ensures
        a == b,
{
    assert(a[0] == b[0] && a[1] == b[1] && a[2] == b[2] && a[3] == b[3]);
    assert(a =~= b);
}

/// A host is told of every value that a volume or a mute changes, and there is
/// nobody to tell without one.
pub proof fn law_host_is_told_of_changes(driver: Driver, data: Seq<u8>)
    requires
        data.len() >= 4,
    ensures
        ({
            let volume = driver.set(OBJ_VOLUME, SEL_LEVEL_SCALAR_VALUE, data).1;
            let mute = driver.set(OBJ_MUTE, SEL_BOOLEAN_VALUE, data).1;
            &&& volume matches SetModel::Changed(changed) && changed.len() == (if driver.has_host {
                2int
            } else {
                0
            }) && (driver.has_host ==> changed[0].selector == 0x6c637376 && changed[1].selector
                == 0x6c636476 && changed[0].scope == 0x676c6f62 && changed[1].scope == 0x676c6f62
                && changed[0].element == 0 && changed[1].element == 0)
            &&& mute matches SetModel::Changed(changed) && changed.len() == (if driver.has_host {
                1int
            } else {
                0
            }) && (driver.has_host ==> changed[0].selector == 0x6263766c && changed[0].scope
                == 0x676c6f62 && changed[0].element == 0)
        }),
{
}

/// A volume in dB is handed on as it was given, to be stored as a scalar.
pub proof fn law_decibels_are_handed_on(driver: Driver, data: Seq<u8>, word: u32)
    requires
        data.len() >= 4,
        word == data[0] + data[1] * 0x100 + data[2] * 0x1_0000 + data[3] * 0x100_0000,
    ensures
        driver.set(OBJ_VOLUME, SEL_LEVEL_DECIBEL_VALUE, data) == (driver, SetModel::Decibels(word)),
{
    lemma_first_word(data, word);
}

/// The number in front of data.
pub proof fn lemma_first_word(data: Seq<u8>, word: u32)
    requires
        data.len() >= 4,
        word == data[0] + data[1] * 0x100 + data[2] * 0x1_0000 + data[3] * 0x100_0000,
    ensures
        le32_value(data.subrange(0, 4)) == word,
{
    let four = data.subrange(0, 4);
    assert(four[0] == data[0] && four[1] == data[1] && four[2] == data[2] && four[3] == data[3]);
}

/// A change of the sample rate begins the timeline anew: from that moment on, at
/// that rate, and with another seed. Clients, volume and mute stay.
pub proof fn law_rate_change_begins_the_timeline_anew(driver: Driver, rate: u32, now: u64)
    requires
        driver.timestamp_seed < u64::MAX,
    ensures
        ({
            let after = driver.rate_changed(rate, now);
            &&& after.rate == rate
            &&& after.anchor_host_time == now
            &&& after.timestamp_seed != driver.timestamp_seed
            &&& after.io_count == driver.io_count && after.volume == driver.volume && after.muted
                == driver.muted && after.has_host == driver.has_host && after.ref_count
                == driver.ref_count
        }),
{
}

} // verus!
