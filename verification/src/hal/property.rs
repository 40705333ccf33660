//! The properties of the objects that the plug-in publishes: which there are,
//! how large they are and what they hold.

use crate::bytes::{append_le32, append_le64, law_last_byte_counts_most, le32, le64};
use crate::hal::driver::Driver;
use crate::text::same_text;
use crate::hal::ids::{CHANNELS, CLASS_BOOLEAN_CONTROL, CLASS_DEVICE, CLASS_LEVEL_CONTROL};
use crate::hal::ids::{CLASS_MUTE_CONTROL, CLASS_OBJECT, CLASS_PLUGIN, CLASS_STREAM};
use crate::hal::ids::{CLASS_VOLUME_CONTROL, ERR_BAD_PROPERTY_SIZE, FORMAT_FLAGS, FORMAT_LPCM};
use crate::hal::ids::{OBJ_DEVICE, OBJ_MUTE, OBJ_PLUGIN, OBJ_STREAM_INPUT, OBJ_STREAM_OUTPUT};
use crate::hal::ids::{OBJ_UNKNOWN, OBJ_VOLUME, REF_BYTES, RING_FRAMES, SCOPE_GLOBAL, SCOPE_INPUT};
use crate::hal::ids::{SCOPE_OUTPUT, SEL_BASE_CLASS, SEL_BOOLEAN_VALUE, SEL_CLASS};
use crate::hal::ids::{SEL_CONTROL_ELEMENT, SEL_CONTROL_LIST, SEL_CONTROL_SCOPE};
use crate::hal::ids::{SEL_CUSTOM_PROPERTY_INFO_LIST, SEL_DEVICE_AVAILABLE_SAMPLE_RATES};
use crate::hal::ids::{SEL_DEVICE_CAN_BE_DEFAULT, SEL_DEVICE_CAN_BE_SYSTEM_DEFAULT};
use crate::hal::ids::{SEL_DEVICE_CLOCK_DOMAIN, SEL_DEVICE_IS_ALIVE, SEL_DEVICE_IS_HIDDEN};
use crate::hal::ids::{SEL_DEVICE_IS_RUNNING, SEL_DEVICE_LATENCY, SEL_DEVICE_MODEL_UID};
use crate::hal::ids::{SEL_DEVICE_NOMINAL_SAMPLE_RATE, SEL_DEVICE_PREFERRED_CHANNELS_STEREO};
use crate::hal::ids::{SEL_DEVICE_RELATED_DEVICES, SEL_DEVICE_SAFETY_OFFSET, SEL_DEVICE_STREAMS};
use crate::hal::ids::{SEL_DEVICE_STREAM_CONFIGURATION, SEL_DEVICE_TRANSPORT_TYPE, SEL_DEVICE_UID};
use crate::hal::ids::{SEL_DEVICE_ZERO_TIMESTAMP_PERIOD, SEL_IDENTIFY, SEL_LEVEL_DECIBELS_TO_SCALAR};
use crate::hal::ids::{SEL_LEVEL_DECIBEL_RANGE, SEL_LEVEL_DECIBEL_VALUE};
use crate::hal::ids::{SEL_LEVEL_SCALAR_TO_DECIBELS, SEL_LEVEL_SCALAR_VALUE, SEL_MANUFACTURER};
use crate::hal::ids::{SEL_NAME, SEL_OWNED_OBJECTS, SEL_OWNER, SEL_PLUGIN_BOX_LIST};
use crate::hal::ids::{SEL_PLUGIN_DEVICE_LIST, SEL_PLUGIN_RESOURCE_BUNDLE};
use crate::hal::ids::{SEL_PLUGIN_TRANSLATE_UID_TO_BOX, SEL_PLUGIN_TRANSLATE_UID_TO_DEVICE};
use crate::hal::ids::{SEL_STREAM_AVAILABLE_PHYSICAL_FORMATS, SEL_STREAM_AVAILABLE_VIRTUAL_FORMATS};
use crate::hal::ids::{SEL_STREAM_DIRECTION, SEL_STREAM_IS_ACTIVE, SEL_STREAM_LATENCY};
use crate::hal::ids::{SEL_STREAM_PHYSICAL_FORMAT, SEL_STREAM_STARTING_CHANNEL};
use crate::hal::ids::{SEL_STREAM_TERMINAL_TYPE, SEL_STREAM_VIRTUAL_FORMAT, SUPPORTED_RATES};
use crate::hal::ids::{TERMINAL_MICROPHONE, TERMINAL_SPEAKER, TRANSPORT_VIRTUAL};
use vstd::prelude::*;

verus! {

/// What the plug-in and the device are called.
pub const DEVICE_NAME: &'static str = "Squeezed";

/// Who made them.
pub const MANUFACTURER: &'static str = "Tsiry Sandratraina";

/// By what the device is told from all others.
pub const DEVICE_UID: &'static str = "SqueezedAudioDevice_UID";

/// By what devices of its kind are known.
pub const DEVICE_MODEL_UID: &'static str = "SqueezedAudioDevice_ModelUID";

/// What the output stream is called.
pub const STREAM_OUT_NAME: &'static str = "Squeezed Output";

/// What the input stream is called.
pub const STREAM_IN_NAME: &'static str = "Squeezed Input";

/// The lowest volume in dB, -96.0, as the bits of a 64-bit floating-point number.
pub const MIN_DB_BITS: u64 = 0xc058_0000_0000_0000;

/// The highest volume in dB, 0.0, as the bits of a 64-bit floating-point number.
pub const MAX_DB_BITS: u64 = 0;

/// Which property of an object is meant.
#[derive(Clone, Copy)]
pub struct AudioObjectPropertyAddress {
    pub selector: u32,
    pub scope: u32,
    pub element: u32,
}

impl AudioObjectPropertyAddress {
    /// The address of a property of an object as a whole.
    pub fn global(selector: u32) -> (address: AudioObjectPropertyAddress)
        ensures
            address == (AudioObjectPropertyAddress { selector, scope: SCOPE_GLOBAL, element: 0 }),
    {
        AudioObjectPropertyAddress { selector, scope: SCOPE_GLOBAL, element: 0 }
    }
}

/// What a property holds.
pub enum PropertyModel {
    /// A 32-bit word: a class, an object, a flag, the bits of a volume.
    Word(u32),
    /// A list of words.
    Words(Seq<u32>),
    /// A string, handed over by reference.
    Text(Seq<char>),
    /// A sample rate.
    Rate(u32),
    /// The sample rates that there are, each as a range of one.
    RateRanges,
    /// The range of the volume in dB.
    DecibelRange,
    /// The stream format at a sample rate.
    Format(u32),
    /// The stream formats that there are.
    Formats,
    /// The buffers of the device: one, where there are channels.
    StreamConfiguration(u32),
    /// A volume that is given in dB.
    Decibels(u32),
    /// The translation of a volume to dB.
    ScalarToDecibels,
    /// The translation of dB to a volume.
    DecibelsToScalar,
}

/// What a property holds.
pub enum Property {
    /// A 32-bit word.
    Word(u32),
    /// A list of words.
    Words(Vec<u32>),
    /// A string.
    Text(&'static str),
    /// A sample rate.
    Rate(u32),
    /// The sample rates that there are.
    RateRanges,
    /// The range of the volume in dB.
    DecibelRange,
    /// The stream format at a sample rate.
    Format(u32),
    /// The stream formats that there are.
    Formats,
    /// The buffers of the device.
    StreamConfiguration(u32),
    /// A volume that is given in dB.
    Decibels(u32),
    /// The translation of a volume to dB.
    ScalarToDecibels,
    /// The translation of dB to a volume.
    DecibelsToScalar,
}

impl View for Property {
    type V = PropertyModel;

    open spec fn view(&self) -> PropertyModel {
        match self {
            Property::Word(w) => PropertyModel::Word(*w),
            Property::Words(ws) => PropertyModel::Words(ws@),
            Property::Text(t) => PropertyModel::Text(t@),
            Property::Rate(r) => PropertyModel::Rate(*r),
            Property::RateRanges => PropertyModel::RateRanges,
            Property::DecibelRange => PropertyModel::DecibelRange,
            Property::Format(r) => PropertyModel::Format(*r),
            Property::Formats => PropertyModel::Formats,
            Property::StreamConfiguration(c) => PropertyModel::StreamConfiguration(*c),
            Property::Decibels(b) => PropertyModel::Decibels(*b),
            Property::ScalarToDecibels => PropertyModel::ScalarToDecibels,
            Property::DecibelsToScalar => PropertyModel::DecibelsToScalar,
        }
    }
}

// ---------------------------------------------------------------------------
// Which properties there are
// ---------------------------------------------------------------------------

/// What a property of the plug-in holds. `uid` is the device that a translation
/// asks for.
pub open spec fn plugin_property(selector: u32, uid: Option<Seq<char>>) -> Option<PropertyModel> {
    match selector {
        SEL_BASE_CLASS => Some(PropertyModel::Word(CLASS_OBJECT)),
        SEL_CLASS => Some(PropertyModel::Word(CLASS_PLUGIN)),
        SEL_OWNER => Some(PropertyModel::Word(OBJ_UNKNOWN)),
        SEL_NAME => Some(PropertyModel::Text(DEVICE_NAME@)),
        SEL_MANUFACTURER => Some(PropertyModel::Text(MANUFACTURER@)),
        SEL_PLUGIN_RESOURCE_BUNDLE => Some(PropertyModel::Text(""@)),
        SEL_OWNED_OBJECTS => Some(PropertyModel::Words(seq![OBJ_DEVICE])),
        SEL_PLUGIN_DEVICE_LIST => Some(PropertyModel::Words(seq![OBJ_DEVICE])),
        SEL_PLUGIN_BOX_LIST => Some(PropertyModel::Words(seq![])),
        SEL_PLUGIN_TRANSLATE_UID_TO_BOX => Some(PropertyModel::Word(OBJ_UNKNOWN)),
        SEL_PLUGIN_TRANSLATE_UID_TO_DEVICE => Some(
            PropertyModel::Word(
                if uid == Some(DEVICE_UID@) {
                    OBJ_DEVICE
                } else {
                    OBJ_UNKNOWN
                },
            ),
        ),
        SEL_CUSTOM_PROPERTY_INFO_LIST => Some(PropertyModel::Words(seq![])),
        _ => None,
    }
}

/// The streams of the device that are in a scope.
pub open spec fn streams_in(scope: u32) -> Seq<u32> {
    match scope {
        SCOPE_INPUT => seq![OBJ_STREAM_INPUT],
        SCOPE_OUTPUT => seq![OBJ_STREAM_OUTPUT],
        _ => seq![OBJ_STREAM_OUTPUT, OBJ_STREAM_INPUT],
    }
}

/// How many channels the device has in a scope. The global scope reports none.
pub open spec fn channels_in(scope: u32) -> u32 {
    match scope {
        SCOPE_INPUT => CHANNELS as u32,
        SCOPE_OUTPUT => CHANNELS as u32,
        _ => 0,
    }
}

/// What a property of the device holds.
pub open spec fn device_property(driver: Driver, selector: u32, scope: u32) -> Option<
    PropertyModel,
> {
    match selector {
        SEL_BASE_CLASS => Some(PropertyModel::Word(CLASS_OBJECT)),
        SEL_CLASS => Some(PropertyModel::Word(CLASS_DEVICE)),
        SEL_OWNER => Some(PropertyModel::Word(OBJ_PLUGIN)),
        SEL_NAME => Some(PropertyModel::Text(DEVICE_NAME@)),
        SEL_MANUFACTURER => Some(PropertyModel::Text(MANUFACTURER@)),
        SEL_DEVICE_UID => Some(PropertyModel::Text(DEVICE_UID@)),
        SEL_DEVICE_MODEL_UID => Some(PropertyModel::Text(DEVICE_MODEL_UID@)),
        SEL_OWNED_OBJECTS => Some(
            PropertyModel::Words(seq![OBJ_STREAM_OUTPUT, OBJ_STREAM_INPUT, OBJ_VOLUME, OBJ_MUTE]),
        ),
        SEL_DEVICE_TRANSPORT_TYPE => Some(PropertyModel::Word(TRANSPORT_VIRTUAL)),
        SEL_DEVICE_RELATED_DEVICES => Some(PropertyModel::Words(seq![OBJ_DEVICE])),
        SEL_DEVICE_CLOCK_DOMAIN => Some(PropertyModel::Word(0)),
        SEL_DEVICE_IS_ALIVE => Some(PropertyModel::Word(1)),
        SEL_DEVICE_IS_RUNNING => Some(
            PropertyModel::Word(
                if driver.io_count > 0 {
                    1
                } else {
                    0
                },
            ),
        ),
        SEL_DEVICE_CAN_BE_DEFAULT => Some(PropertyModel::Word(1)),
        SEL_DEVICE_CAN_BE_SYSTEM_DEFAULT => Some(PropertyModel::Word(1)),
        SEL_DEVICE_LATENCY => Some(PropertyModel::Word(0)),
        SEL_DEVICE_SAFETY_OFFSET => Some(PropertyModel::Word(0)),
        SEL_DEVICE_STREAMS => Some(PropertyModel::Words(streams_in(scope))),
        SEL_DEVICE_STREAM_CONFIGURATION => Some(
            PropertyModel::StreamConfiguration(channels_in(scope)),
        ),
        SEL_CONTROL_LIST => Some(PropertyModel::Words(seq![OBJ_VOLUME, OBJ_MUTE])),
        SEL_DEVICE_NOMINAL_SAMPLE_RATE => Some(PropertyModel::Rate(driver.rate)),
        SEL_DEVICE_AVAILABLE_SAMPLE_RATES => Some(PropertyModel::RateRanges),
        SEL_DEVICE_IS_HIDDEN => Some(PropertyModel::Word(0)),
        SEL_DEVICE_PREFERRED_CHANNELS_STEREO => Some(PropertyModel::Words(seq![1u32, 2u32])),
        SEL_DEVICE_ZERO_TIMESTAMP_PERIOD => Some(PropertyModel::Word(RING_FRAMES as u32)),
        SEL_IDENTIFY => Some(PropertyModel::Word(0)),
        SEL_CUSTOM_PROPERTY_INFO_LIST => Some(PropertyModel::Words(seq![])),
        _ => None,
    }
}

/// What a property of one of the two streams holds.
pub open spec fn stream_property(driver: Driver, is_input: bool, selector: u32) -> Option<
    PropertyModel,
> {
    match selector {
        SEL_BASE_CLASS => Some(PropertyModel::Word(CLASS_OBJECT)),
        SEL_CLASS => Some(PropertyModel::Word(CLASS_STREAM)),
        SEL_OWNER => Some(PropertyModel::Word(OBJ_DEVICE)),
        SEL_NAME => Some(
            PropertyModel::Text(
                if is_input {
                    STREAM_IN_NAME@
                } else {
                    STREAM_OUT_NAME@
                },
            ),
        ),
        SEL_OWNED_OBJECTS => Some(PropertyModel::Words(seq![])),
        SEL_STREAM_IS_ACTIVE => Some(PropertyModel::Word(1)),
        SEL_STREAM_DIRECTION => Some(
            PropertyModel::Word(
                if is_input {
                    1
                } else {
                    0
                },
            ),
        ),
        SEL_STREAM_TERMINAL_TYPE => Some(
            PropertyModel::Word(
                if is_input {
                    TERMINAL_MICROPHONE
                } else {
                    TERMINAL_SPEAKER
                },
            ),
        ),
        SEL_STREAM_STARTING_CHANNEL => Some(PropertyModel::Word(1)),
        SEL_STREAM_LATENCY => Some(PropertyModel::Word(0)),
        SEL_STREAM_VIRTUAL_FORMAT => Some(PropertyModel::Format(driver.rate)),
        SEL_STREAM_PHYSICAL_FORMAT => Some(PropertyModel::Format(driver.rate)),
        SEL_STREAM_AVAILABLE_VIRTUAL_FORMATS => Some(PropertyModel::Formats),
        SEL_STREAM_AVAILABLE_PHYSICAL_FORMATS => Some(PropertyModel::Formats),
        SEL_CUSTOM_PROPERTY_INFO_LIST => Some(PropertyModel::Words(seq![])),
        _ => None,
    }
}

/// What a property of the volume control holds.
pub open spec fn volume_property(driver: Driver, selector: u32) -> Option<PropertyModel> {
    match selector {
        SEL_BASE_CLASS => Some(PropertyModel::Word(CLASS_LEVEL_CONTROL)),
        SEL_CLASS => Some(PropertyModel::Word(CLASS_VOLUME_CONTROL)),
        SEL_OWNER => Some(PropertyModel::Word(OBJ_DEVICE)),
        SEL_NAME => Some(PropertyModel::Text("Volume"@)),
        SEL_OWNED_OBJECTS => Some(PropertyModel::Words(seq![])),
        SEL_CONTROL_SCOPE => Some(PropertyModel::Word(SCOPE_OUTPUT)),
        SEL_CONTROL_ELEMENT => Some(PropertyModel::Word(0)),
        SEL_LEVEL_SCALAR_VALUE => Some(PropertyModel::Word(driver.volume)),
        SEL_LEVEL_DECIBEL_VALUE => Some(PropertyModel::Decibels(driver.volume)),
        SEL_LEVEL_DECIBEL_RANGE => Some(PropertyModel::DecibelRange),
        SEL_LEVEL_SCALAR_TO_DECIBELS => Some(PropertyModel::ScalarToDecibels),
        SEL_LEVEL_DECIBELS_TO_SCALAR => Some(PropertyModel::DecibelsToScalar),
        SEL_CUSTOM_PROPERTY_INFO_LIST => Some(PropertyModel::Words(seq![])),
        _ => None,
    }
}

/// What a property of the mute control holds.
pub open spec fn mute_property(driver: Driver, selector: u32) -> Option<PropertyModel> {
    match selector {
        SEL_BASE_CLASS => Some(PropertyModel::Word(CLASS_BOOLEAN_CONTROL)),
        SEL_CLASS => Some(PropertyModel::Word(CLASS_MUTE_CONTROL)),
        SEL_OWNER => Some(PropertyModel::Word(OBJ_DEVICE)),
        SEL_NAME => Some(PropertyModel::Text("Mute"@)),
        SEL_OWNED_OBJECTS => Some(PropertyModel::Words(seq![])),
        SEL_CONTROL_SCOPE => Some(PropertyModel::Word(SCOPE_OUTPUT)),
        SEL_CONTROL_ELEMENT => Some(PropertyModel::Word(0)),
        SEL_BOOLEAN_VALUE => Some(
            PropertyModel::Word(
                if driver.muted {
                    1
                } else {
                    0
                },
            ),
        ),
        SEL_CUSTOM_PROPERTY_INFO_LIST => Some(PropertyModel::Words(seq![])),
        _ => None,
    }
}

/// What a property of an object holds, if the object has it. `uid` is the
/// device that a translation asks for.
pub open spec fn property_of(
    driver: Driver,
    object: u32,
    address: AudioObjectPropertyAddress,
    uid: Option<Seq<char>>,
) -> Option<PropertyModel> {
    match object {
        OBJ_PLUGIN => plugin_property(address.selector, uid),
        OBJ_DEVICE => device_property(driver, address.selector, address.scope),
        OBJ_STREAM_OUTPUT => stream_property(driver, false, address.selector),
        OBJ_STREAM_INPUT => stream_property(driver, true, address.selector),
        OBJ_VOLUME => volume_property(driver, address.selector),
        OBJ_MUTE => mute_property(driver, address.selector),
        _ => None,
    }
}

// ---------------------------------------------------------------------------
// What a property looks like in memory
// ---------------------------------------------------------------------------

/// A sample rate as the bits of a 64-bit floating-point number.
pub open spec fn rate_bits(rate: u32) -> u64 {
    match rate {
        44100 => 0x40e5_8880_0000_0000,
        48000 => 0x40e7_7000_0000_0000,
        88200 => 0x40f5_8880_0000_0000,
        96000 => 0x40f7_7000_0000_0000,
        _ => 0,
    }
}

/// A sample rate as the bits of a 64-bit floating-point number.
pub fn rate_to_bits(rate: u32) -> (bits: u64)
    ensures
        bits == rate_bits(rate),
{
    match rate {
        44100 => 0x40e5_8880_0000_0000,
        48000 => 0x40e7_7000_0000_0000,
        88200 => 0x40f5_8880_0000_0000,
        96000 => 0x40f7_7000_0000_0000,
        _ => 0,
    }
}

/// Words one after the other.
pub open spec fn words(ws: Seq<u32>) -> Seq<u8>
    decreases ws.len(),
{
    if ws.len() == 0 {
        seq![]
    } else {
        words(ws.drop_last()) + le32(ws.last())
    }
}

/// The stream format at a sample rate: interleaved stereo of 32-bit
/// floating-point samples.
pub open spec fn format(rate: u32) -> Seq<u8> {
    le64(rate_bits(rate)) + le32(FORMAT_LPCM) + le32(FORMAT_FLAGS) + le32(8) + le32(1) + le32(8)
        + le32(2) + le32(32) + le32(0)
}

/// A sample rate as a range of one.
pub open spec fn rate_range(rate: u32) -> Seq<u8> {
    le64(rate_bits(rate)) + le64(rate_bits(rate))
}

/// The ranges of the first `n` sample rates that there are.
pub open spec fn rate_ranges(n: nat) -> Seq<u8>
    decreases n,
{
    if n == 0 {
        seq![]
    } else {
        rate_ranges((n - 1) as nat) + rate_range(SUPPORTED_RATES@[n - 1])
    }
}

/// The first `n` stream formats that there are, each with its range.
pub open spec fn formats(n: nat) -> Seq<u8>
    decreases n,
{
    if n == 0 {
        seq![]
    } else {
        formats((n - 1) as nat) + format(SUPPORTED_RATES@[n - 1]) + rate_range(
            SUPPORTED_RATES@[n - 1],
        )
    }
}

/// The buffers of the device: how many there are, and one with its channels, no
/// size and no data.
pub open spec fn buffer_list(channels: u32) -> Seq<u8> {
    le32(
        if channels > 0 {
            1
        } else {
            0
        },
    ) + le32(0) + le32(channels) + le32(0) + le64(0)
}

impl PropertyModel {
    /// The size of one item of a list, or of a property that is no list.
    pub open spec fn item_size(self) -> nat {
        match self {
            PropertyModel::Word(_) => 4,
            PropertyModel::Words(_) => 4,
            PropertyModel::Text(_) => REF_BYTES as nat,
            PropertyModel::Rate(_) => 8,
            PropertyModel::RateRanges => 16,
            PropertyModel::DecibelRange => 16,
            PropertyModel::Format(_) => 40,
            PropertyModel::Formats => 56,
            PropertyModel::StreamConfiguration(_) => 24,
            PropertyModel::Decibels(_) => 4,
            PropertyModel::ScalarToDecibels => 4,
            PropertyModel::DecibelsToScalar => 4,
        }
    }

    /// The items that there are, where the property is a list.
    pub open spec fn list_len(self) -> Option<nat> {
        match self {
            PropertyModel::Words(ws) => Some(ws.len()),
            PropertyModel::RateRanges => Some(4),
            PropertyModel::Formats => Some(4),
            _ => None,
        }
    }

    /// The size of the property in bytes.
    pub open spec fn size(self) -> nat {
        match self {
            PropertyModel::Words(ws) => 4 * ws.len(),
            PropertyModel::RateRanges => 4 * 16,
            PropertyModel::Formats => 4 * 56,
            _ => self.item_size(),
        }
    }

    /// The bytes of a property that is neither a string nor translated, with
    /// the first `n` items where it is a list.
    pub open spec fn encoded(self, n: nat) -> Seq<u8> {
        match self {
            PropertyModel::Word(w) => le32(w),
            PropertyModel::Words(ws) => words(ws.take(n as int)),
            PropertyModel::Rate(r) => le64(rate_bits(r)),
            PropertyModel::RateRanges => rate_ranges(n),
            PropertyModel::DecibelRange => le64(MIN_DB_BITS) + le64(MAX_DB_BITS),
            PropertyModel::Format(r) => format(r),
            PropertyModel::Formats => formats(n),
            PropertyModel::StreamConfiguration(c) => buffer_list(c),
            _ => seq![],
        }
    }
}

/// What is handed to the host.
pub enum ReplyModel {
    /// These bytes.
    Bytes(Seq<u8>),
    /// A reference to this string.
    Text(Seq<char>),
    /// The volume with these bits, in dB.
    Decibels(u32),
    /// The volume that the host has put into the buffer, limited to 0..1, in dB.
    ScalarToDecibels,
    /// The dB value that the host has put into the buffer, as a volume.
    DecibelsToScalar,
}

/// What is handed to the host.
pub enum Reply {
    /// These bytes.
    Bytes(Vec<u8>),
    /// A reference to this string.
    Text(&'static str),
    /// The volume with these bits, in dB.
    Decibels(u32),
    /// The volume that the host has put into the buffer, limited to 0..1, in dB.
    ScalarToDecibels,
    /// The dB value that the host has put into the buffer, as a volume.
    DecibelsToScalar,
}

impl View for Reply {
    type V = ReplyModel;

    open spec fn view(&self) -> ReplyModel {
        match self {
            Reply::Bytes(b) => ReplyModel::Bytes(b@),
            Reply::Text(t) => ReplyModel::Text(t@),
            Reply::Decibels(b) => ReplyModel::Decibels(*b),
            Reply::ScalarToDecibels => ReplyModel::ScalarToDecibels,
            Reply::DecibelsToScalar => ReplyModel::DecibelsToScalar,
        }
    }
}

/// What the host is handed that has room for `room` bytes: of a list as many
/// items as fit, of anything else all or an error.
pub open spec fn answer(property: PropertyModel, room: nat) -> Result<ReplyModel, i32> {
    match property.list_len() {
        Some(len) => {
            let fit = room / property.item_size();
            Ok(
                ReplyModel::Bytes(
                    property.encoded(
                        if fit < len {
                            fit
                        } else {
                            len
                        },
                    ),
                ),
            )
        },
        None => if room < property.item_size() {
            Err(ERR_BAD_PROPERTY_SIZE)
        } else {
            Ok(
                match property {
                    PropertyModel::Text(t) => ReplyModel::Text(t),
                    PropertyModel::Decibels(b) => ReplyModel::Decibels(b),
                    PropertyModel::ScalarToDecibels => ReplyModel::ScalarToDecibels,
                    PropertyModel::DecibelsToScalar => ReplyModel::DecibelsToScalar,
                    other => ReplyModel::Bytes(other.encoded(1)),
                },
            )
        },
    }
}

/// The view of a reply.
pub open spec fn reply_view(reply: Result<Reply, i32>) -> Result<ReplyModel, i32> {
    match reply {
        Ok(r) => Ok(r@),
        Err(e) => Err(e),
    }
}

/// Append the stream format at a sample rate.
fn append_format(out: &mut Vec<u8>, rate: u32)
    ensures
        final(out)@ == old(out)@ + format(rate),
{
    append_le64(out, rate_to_bits(rate));
    append_le32(out, FORMAT_LPCM);
    append_le32(out, FORMAT_FLAGS);
    append_le32(out, 8);  // bytes per packet
    append_le32(out, 1);  // frames per packet
    append_le32(out, 8);  // bytes per frame
    append_le32(out, 2);  // channels per frame
    append_le32(out, 32);  // bits per channel
    append_le32(out, 0);
    assert(out@ =~= old(out)@ + format(rate));
}

/// Append a sample rate as a range of one.
fn append_rate_range(out: &mut Vec<u8>, rate: u32)
    ensures
        final(out)@ == old(out)@ + rate_range(rate),
{
    append_le64(out, rate_to_bits(rate));
    append_le64(out, rate_to_bits(rate));
    assert(out@ =~= old(out)@ + rate_range(rate));
}

/// As many items of `item` bytes as fit into `room`, of `len` that there are.
fn fitting(room: u32, item: u32, len: usize) -> (n: usize)
    requires
        item > 0,
    ensures
        n <= len,
        n == room / item || (n == len && len <= room / item),
{
    let fit: u32 = room / item;
    if (fit as usize) < len {
        fit as usize
    } else {
        len
    }
}

/// The first `n` words, one after the other.
fn words_bytes(ws: &Vec<u32>, n: usize) -> (out: Vec<u8>)
    requires
        n <= ws@.len(),
    ensures
        out@ == words(ws@.take(n as int)),
{
    let mut out: Vec<u8> = Vec::new();
    assert(ws@.take(0) =~= seq![]);
    for i in 0..n
        invariant
            n <= ws@.len(),
            out@ == words(ws@.take(i as int)),
    {
        append_le32(&mut out, ws[i]);
        assert(ws@.take(i + 1).drop_last() =~= ws@.take(i as int));
    }
    out
}

/// The ranges of the first `n` sample rates that there are.
fn rate_ranges_bytes(n: usize) -> (out: Vec<u8>)
    requires
        n <= 4,
    ensures
        out@ == rate_ranges(n as nat),
{
    let mut out: Vec<u8> = Vec::new();
    for i in 0..n
        invariant
            n <= 4,
            out@ == rate_ranges(i as nat),
    {
        append_rate_range(&mut out, SUPPORTED_RATES[i]);
    }
    out
}

/// The first `n` stream formats that there are, each with its range.
fn available_formats(n: usize) -> (out: Vec<u8>)
    requires
        n <= 4,
    ensures
        out@ == formats(n as nat),
{
    let mut out: Vec<u8> = Vec::new();
    for i in 0..n
        invariant
            n <= 4,
            out@ == formats(i as nat),
    {
        append_format(&mut out, SUPPORTED_RATES[i]);
        append_rate_range(&mut out, SUPPORTED_RATES[i]);
    }
    out
}

/// The buffers of the device.
fn buffer_list_bytes(channels: u32) -> (out: Vec<u8>)
    ensures
        out@ == buffer_list(channels),
{
    let mut out: Vec<u8> = Vec::new();
    append_le32(
        &mut out,
        if channels > 0 {
            1
        } else {
            0
        },
    );
    append_le32(&mut out, 0);
    append_le32(&mut out, channels);
    append_le32(&mut out, 0);
    append_le64(&mut out, 0);
    assert(out@ =~= buffer_list(channels));
    out
}

impl Property {
    /// The bytes of a property that is neither a list nor a string nor
    /// translated.
    fn bytes(&self) -> (out: Vec<u8>)
        requires
            self@.list_len() is None,
        ensures
            out@ == self@.encoded(1),
    {
        let mut out: Vec<u8> = Vec::new();
        match self {
            Property::Word(w) => append_le32(&mut out, *w),
            Property::Rate(r) => append_le64(&mut out, rate_to_bits(*r)),
            Property::DecibelRange => {
                append_le64(&mut out, MIN_DB_BITS);
                append_le64(&mut out, MAX_DB_BITS);
            },
            Property::Format(r) => append_format(&mut out, *r),
            Property::StreamConfiguration(c) => {
                return buffer_list_bytes(*c);
            },
            _ => {},
        }
        assert(out@ =~= self@.encoded(1));
        out
    }

    /// The size of one item of a list, or of a property that is no list.
    fn item(&self) -> (size: u32)
        ensures
            size == self@.item_size(),
            size > 0,
    {
        match self {
            Property::Text(_) => REF_BYTES,
            Property::Rate(_) => 8,
            Property::RateRanges => 16,
            Property::DecibelRange => 16,
            Property::Format(_) => 40,
            Property::Formats => 56,
            Property::StreamConfiguration(_) => 24,
            _ => 4,
        }
    }

    /// Hand the property to a host that has room for `room` bytes.
    pub fn reply(self, room: u32) -> (reply: Result<Reply, i32>)
        ensures
            reply_view(reply) == answer(self@, room as nat),
    {
        let item: u32 = self.item();
        match &self {
            Property::Words(ws) => {
                let n: usize = fitting(room, item, ws.len());
                return Ok(Reply::Bytes(words_bytes(ws, n)));
            },
            Property::RateRanges => {
                return Ok(Reply::Bytes(rate_ranges_bytes(fitting(room, item, 4))));
            },
            Property::Formats => {
                return Ok(Reply::Bytes(available_formats(fitting(room, item, 4))));
            },
            _ => {},
        }
        if room < item {
            return Err(ERR_BAD_PROPERTY_SIZE);
        }
        match self {
            Property::Text(t) => Ok(Reply::Text(t)),
            Property::Decibels(b) => Ok(Reply::Decibels(b)),
            Property::ScalarToDecibels => Ok(Reply::ScalarToDecibels),
            Property::DecibelsToScalar => Ok(Reply::DecibelsToScalar),
            other => Ok(Reply::Bytes(other.bytes())),
        }
    }
}

// ---------------------------------------------------------------------------
// Looking a property up
// ---------------------------------------------------------------------------

/// Whether a device is asked for, and it is ours.
fn is_our_uid(uid: Option<&str>) -> (ours: bool)
    ensures
        ours == (uid_view(uid) == Some(DEVICE_UID@)),
{
    match uid {
        Some(u) => same_text(u, DEVICE_UID),
        None => false,
    }
}

/// The view of the device that is asked for.
pub open spec fn uid_view(uid: Option<&str>) -> Option<Seq<char>> {
    match uid {
        Some(u) => Some(u@),
        None => None,
    }
}

/// The streams of the device that are in a scope.
fn streams(scope: u32) -> (objects: Vec<u32>)
    ensures
        objects@ == streams_in(scope),
{
    match scope {
        SCOPE_INPUT => vec![OBJ_STREAM_INPUT],
        SCOPE_OUTPUT => vec![OBJ_STREAM_OUTPUT],
        _ => vec![OBJ_STREAM_OUTPUT, OBJ_STREAM_INPUT],
    }
}

/// How many channels the device has in a scope.
fn scope_channels(scope: u32) -> (channels: u32)
    ensures
        channels == channels_in(scope),
{
    match scope {
        SCOPE_INPUT => 2,
        SCOPE_OUTPUT => 2,
        _ => 0,
    }
}

/// The view of a property that an object may have.
pub open spec fn property_view(property: Option<Property>) -> Option<PropertyModel> {
    match property {
        Some(p) => Some(p@),
        None => None,
    }
}

/// A list of one word.
fn words1(a: u32) -> (ws: Vec<u32>)
    ensures
        ws@ == seq![a],
{
    vec![a]
}

/// A list of two words.
fn words2(a: u32, b: u32) -> (ws: Vec<u32>)
    ensures
        ws@ == seq![a, b],
{
    vec![a, b]
}

/// A list of four words.
fn words4(a: u32, b: u32, c: u32, d: u32) -> (ws: Vec<u32>)
    ensures
        ws@ == seq![a, b, c, d],
{
    vec![a, b, c, d]
}

impl Driver {
    /// What a property of the plug-in holds.
    fn lookup_plugin(&self, selector: u32, uid: Option<&str>) -> (property: Option<Property>)
        ensures
            property_view(property) == plugin_property(selector, uid_view(uid)),
    {
        match selector {
            SEL_BASE_CLASS => Some(Property::Word(CLASS_OBJECT)),
            SEL_CLASS => Some(Property::Word(CLASS_PLUGIN)),
            SEL_OWNER => Some(Property::Word(OBJ_UNKNOWN)),
            SEL_NAME => Some(Property::Text(DEVICE_NAME)),
            SEL_MANUFACTURER => Some(Property::Text(MANUFACTURER)),
            SEL_PLUGIN_RESOURCE_BUNDLE => Some(Property::Text("")),
            SEL_OWNED_OBJECTS => Some(Property::Words(words1(OBJ_DEVICE))),
            SEL_PLUGIN_DEVICE_LIST => Some(Property::Words(words1(OBJ_DEVICE))),
            SEL_PLUGIN_BOX_LIST => Some(Property::Words(Vec::new())),
            SEL_PLUGIN_TRANSLATE_UID_TO_BOX => Some(Property::Word(OBJ_UNKNOWN)),
            SEL_PLUGIN_TRANSLATE_UID_TO_DEVICE => Some(
                Property::Word(
                    if is_our_uid(uid) {
                        OBJ_DEVICE
                    } else {
                        OBJ_UNKNOWN
                    },
                ),
            ),
            SEL_CUSTOM_PROPERTY_INFO_LIST => Some(Property::Words(Vec::new())),
            _ => None,
        }
    }

    /// What a property of the device holds.
    fn lookup_device(&self, selector: u32, scope: u32) -> (property: Option<Property>)
        ensures
            property_view(property) == device_property(*self, selector, scope),
    {
        match selector {
            SEL_BASE_CLASS => Some(Property::Word(CLASS_OBJECT)),
            SEL_CLASS => Some(Property::Word(CLASS_DEVICE)),
            SEL_OWNER => Some(Property::Word(OBJ_PLUGIN)),
            SEL_NAME => Some(Property::Text(DEVICE_NAME)),
            SEL_MANUFACTURER => Some(Property::Text(MANUFACTURER)),
            SEL_DEVICE_UID => Some(Property::Text(DEVICE_UID)),
            SEL_DEVICE_MODEL_UID => Some(Property::Text(DEVICE_MODEL_UID)),
            SEL_OWNED_OBJECTS => Some(
                Property::Words(words4(OBJ_STREAM_OUTPUT, OBJ_STREAM_INPUT, OBJ_VOLUME, OBJ_MUTE)),
            ),
            SEL_DEVICE_TRANSPORT_TYPE => Some(Property::Word(TRANSPORT_VIRTUAL)),
            SEL_DEVICE_RELATED_DEVICES => Some(Property::Words(words1(OBJ_DEVICE))),
            SEL_DEVICE_CLOCK_DOMAIN => Some(Property::Word(0)),
            SEL_DEVICE_IS_ALIVE => Some(Property::Word(1)),
            SEL_DEVICE_IS_RUNNING => Some(
                Property::Word(
                    if self.io_count > 0 {
                        1
                    } else {
                        0
                    },
                ),
            ),
            SEL_DEVICE_CAN_BE_DEFAULT => Some(Property::Word(1)),
            SEL_DEVICE_CAN_BE_SYSTEM_DEFAULT => Some(Property::Word(1)),
            SEL_DEVICE_LATENCY => Some(Property::Word(0)),
            SEL_DEVICE_SAFETY_OFFSET => Some(Property::Word(0)),
            SEL_DEVICE_STREAMS => Some(Property::Words(streams(scope))),
            SEL_DEVICE_STREAM_CONFIGURATION => Some(
                Property::StreamConfiguration(scope_channels(scope)),
            ),
            SEL_CONTROL_LIST => Some(Property::Words(words2(OBJ_VOLUME, OBJ_MUTE))),
            SEL_DEVICE_NOMINAL_SAMPLE_RATE => Some(Property::Rate(self.rate)),
            SEL_DEVICE_AVAILABLE_SAMPLE_RATES => Some(Property::RateRanges),
            SEL_DEVICE_IS_HIDDEN => Some(Property::Word(0)),
            SEL_DEVICE_PREFERRED_CHANNELS_STEREO => Some(Property::Words(words2(1, 2))),
            SEL_DEVICE_ZERO_TIMESTAMP_PERIOD => Some(Property::Word(16384)),
            SEL_IDENTIFY => Some(Property::Word(0)),
            SEL_CUSTOM_PROPERTY_INFO_LIST => Some(Property::Words(Vec::new())),
            _ => None,
        }
    }

    /// What a property of one of the two streams holds.
    fn lookup_stream(&self, is_input: bool, selector: u32) -> (property: Option<Property>)
        ensures
            property_view(property) == stream_property(*self, is_input, selector),
    {
        match selector {
            SEL_BASE_CLASS => Some(Property::Word(CLASS_OBJECT)),
            SEL_CLASS => Some(Property::Word(CLASS_STREAM)),
            SEL_OWNER => Some(Property::Word(OBJ_DEVICE)),
            SEL_NAME => Some(
                Property::Text(
                    if is_input {
                        STREAM_IN_NAME
                    } else {
                        STREAM_OUT_NAME
                    },
                ),
            ),
            SEL_OWNED_OBJECTS => Some(Property::Words(Vec::new())),
            SEL_STREAM_IS_ACTIVE => Some(Property::Word(1)),
            SEL_STREAM_DIRECTION => Some(
                Property::Word(
                    if is_input {
                        1
                    } else {
                        0
                    },
                ),
            ),
            SEL_STREAM_TERMINAL_TYPE => Some(
                Property::Word(
                    if is_input {
                        TERMINAL_MICROPHONE
                    } else {
                        TERMINAL_SPEAKER
                    },
                ),
            ),
            SEL_STREAM_STARTING_CHANNEL => Some(Property::Word(1)),
            SEL_STREAM_LATENCY => Some(Property::Word(0)),
            SEL_STREAM_VIRTUAL_FORMAT => Some(Property::Format(self.rate)),
            SEL_STREAM_PHYSICAL_FORMAT => Some(Property::Format(self.rate)),
            SEL_STREAM_AVAILABLE_VIRTUAL_FORMATS => Some(Property::Formats),
            SEL_STREAM_AVAILABLE_PHYSICAL_FORMATS => Some(Property::Formats),
            SEL_CUSTOM_PROPERTY_INFO_LIST => Some(Property::Words(Vec::new())),
            _ => None,
        }
    }

    /// What a property of the volume control holds.
    fn lookup_volume(&self, selector: u32) -> (property: Option<Property>)
        ensures
            property_view(property) == volume_property(*self, selector),
    {
        match selector {
            SEL_BASE_CLASS => Some(Property::Word(CLASS_LEVEL_CONTROL)),
            SEL_CLASS => Some(Property::Word(CLASS_VOLUME_CONTROL)),
            SEL_OWNER => Some(Property::Word(OBJ_DEVICE)),
            SEL_NAME => Some(Property::Text("Volume")),
            SEL_OWNED_OBJECTS => Some(Property::Words(Vec::new())),
            SEL_CONTROL_SCOPE => Some(Property::Word(SCOPE_OUTPUT)),
            SEL_CONTROL_ELEMENT => Some(Property::Word(0)),
            SEL_LEVEL_SCALAR_VALUE => Some(Property::Word(self.volume)),
            SEL_LEVEL_DECIBEL_VALUE => Some(Property::Decibels(self.volume)),
            SEL_LEVEL_DECIBEL_RANGE => Some(Property::DecibelRange),
            SEL_LEVEL_SCALAR_TO_DECIBELS => Some(Property::ScalarToDecibels),
            SEL_LEVEL_DECIBELS_TO_SCALAR => Some(Property::DecibelsToScalar),
            SEL_CUSTOM_PROPERTY_INFO_LIST => Some(Property::Words(Vec::new())),
            _ => None,
        }
    }

    /// What a property of the mute control holds.
    fn lookup_mute(&self, selector: u32) -> (property: Option<Property>)
        ensures
            property_view(property) == mute_property(*self, selector),
    {
        match selector {
            SEL_BASE_CLASS => Some(Property::Word(CLASS_BOOLEAN_CONTROL)),
            SEL_CLASS => Some(Property::Word(CLASS_MUTE_CONTROL)),
            SEL_OWNER => Some(Property::Word(OBJ_DEVICE)),
            SEL_NAME => Some(Property::Text("Mute")),
            SEL_OWNED_OBJECTS => Some(Property::Words(Vec::new())),
            SEL_CONTROL_SCOPE => Some(Property::Word(SCOPE_OUTPUT)),
            SEL_CONTROL_ELEMENT => Some(Property::Word(0)),
            SEL_BOOLEAN_VALUE => Some(
                Property::Word(
                    if self.muted {
                        1
                    } else {
                        0
                    },
                ),
            ),
            SEL_CUSTOM_PROPERTY_INFO_LIST => Some(Property::Words(Vec::new())),
            _ => None,
        }
    }

    /// What a property of an object holds, if the object has it.
    pub fn property(
        &self,
        object: u32,
        address: &AudioObjectPropertyAddress,
        uid: Option<&str>,
    ) -> (property: Option<Property>)
        ensures
            property_view(property) == property_of(*self, object, *address, uid_view(uid)),
    {
        match object {
            OBJ_PLUGIN => self.lookup_plugin(address.selector, uid),
            OBJ_DEVICE => self.lookup_device(address.selector, address.scope),
            OBJ_STREAM_OUTPUT => self.lookup_stream(false, address.selector),
            OBJ_STREAM_INPUT => self.lookup_stream(true, address.selector),
            OBJ_VOLUME => self.lookup_volume(address.selector),
            OBJ_MUTE => self.lookup_mute(address.selector),
            _ => None,
        }
    }
}

/// The size of what a property holds.
pub open spec fn size_of_property(property: Option<PropertyModel>) -> Option<nat> {
    match property {
        Some(p) => Some(p.size()),
        None => None,
    }
}

/// The view of a size.
pub open spec fn size_view(size: Option<u32>) -> Option<nat> {
    match size {
        Some(n) => Some(n as nat),
        None => None,
    }
}

/// Full byte size of a property of the plug-in.
fn plugin_prop_size(selector: u32) -> (size: Option<u32>)
    ensures
        forall|uid: Option<Seq<char>>|
            size_view(size) == size_of_property(#[trigger] plugin_property(selector, uid)),
{
    match selector {
        SEL_BASE_CLASS | SEL_CLASS | SEL_OWNER => Some(4),
        SEL_NAME | SEL_MANUFACTURER | SEL_PLUGIN_RESOURCE_BUNDLE => Some(REF_BYTES),
        SEL_OWNED_OBJECTS | SEL_PLUGIN_DEVICE_LIST => Some(4),
        SEL_PLUGIN_BOX_LIST => Some(0),
        SEL_PLUGIN_TRANSLATE_UID_TO_DEVICE | SEL_PLUGIN_TRANSLATE_UID_TO_BOX => Some(4),
        SEL_CUSTOM_PROPERTY_INFO_LIST => Some(0),
        _ => None,
    }
}

/// Full byte size of a property of the device.
fn device_prop_size(selector: u32, scope: u32) -> (size: Option<u32>)
    ensures
        forall|driver: Driver|
            size_view(size) == size_of_property(
                #[trigger] device_property(driver, selector, scope),
            ),
{
    match selector {
        SEL_BASE_CLASS | SEL_CLASS | SEL_OWNER => Some(4),
        SEL_NAME | SEL_MANUFACTURER | SEL_DEVICE_UID | SEL_DEVICE_MODEL_UID => Some(REF_BYTES),
        SEL_OWNED_OBJECTS => Some(16),
        SEL_DEVICE_TRANSPORT_TYPE
        | SEL_DEVICE_CLOCK_DOMAIN
        | SEL_DEVICE_IS_ALIVE
        | SEL_DEVICE_IS_RUNNING
        | SEL_DEVICE_CAN_BE_DEFAULT
        | SEL_DEVICE_CAN_BE_SYSTEM_DEFAULT
        | SEL_DEVICE_LATENCY
        | SEL_DEVICE_SAFETY_OFFSET
        | SEL_DEVICE_IS_HIDDEN
        | SEL_DEVICE_ZERO_TIMESTAMP_PERIOD => Some(4),
        SEL_DEVICE_RELATED_DEVICES => Some(4),
        SEL_DEVICE_STREAMS => match scope {
            SCOPE_INPUT | SCOPE_OUTPUT => Some(4),
            _ => Some(8),
        },
        SEL_DEVICE_STREAM_CONFIGURATION => Some(24),
        SEL_CONTROL_LIST => Some(8),
        SEL_DEVICE_NOMINAL_SAMPLE_RATE => Some(8),
        SEL_DEVICE_AVAILABLE_SAMPLE_RATES => Some(64),
        SEL_DEVICE_PREFERRED_CHANNELS_STEREO => Some(8),
        SEL_CUSTOM_PROPERTY_INFO_LIST => Some(0),
        SEL_IDENTIFY => Some(4),
        _ => None,
    }
}

/// Full byte size of a property of one of the two streams.
fn stream_prop_size(selector: u32) -> (size: Option<u32>)
    ensures
        forall|driver: Driver, is_input: bool|
            size_view(size) == size_of_property(
                #[trigger] stream_property(driver, is_input, selector),
            ),
{
    match selector {
        SEL_BASE_CLASS | SEL_CLASS | SEL_OWNER => Some(4),
        SEL_NAME => Some(REF_BYTES),
        SEL_OWNED_OBJECTS => Some(0),
        SEL_STREAM_IS_ACTIVE
        | SEL_STREAM_DIRECTION
        | SEL_STREAM_TERMINAL_TYPE
        | SEL_STREAM_STARTING_CHANNEL
        | SEL_STREAM_LATENCY => Some(4),
        SEL_STREAM_VIRTUAL_FORMAT | SEL_STREAM_PHYSICAL_FORMAT => Some(40),
        SEL_STREAM_AVAILABLE_VIRTUAL_FORMATS | SEL_STREAM_AVAILABLE_PHYSICAL_FORMATS => Some(224),
        SEL_CUSTOM_PROPERTY_INFO_LIST => Some(0),
        _ => None,
    }
}

/// Full byte size of a property of the volume control.
fn volume_prop_size(selector: u32) -> (size: Option<u32>)
    ensures
        forall|driver: Driver|
            size_view(size) == size_of_property(#[trigger] volume_property(driver, selector)),
{
    match selector {
        SEL_BASE_CLASS | SEL_CLASS | SEL_OWNER => Some(4),
        SEL_NAME => Some(REF_BYTES),
        SEL_OWNED_OBJECTS => Some(0),
        SEL_CONTROL_SCOPE | SEL_CONTROL_ELEMENT => Some(4),
        SEL_LEVEL_SCALAR_VALUE
        | SEL_LEVEL_DECIBEL_VALUE
        | SEL_LEVEL_SCALAR_TO_DECIBELS
        | SEL_LEVEL_DECIBELS_TO_SCALAR => Some(4),
        SEL_LEVEL_DECIBEL_RANGE => Some(16),
        SEL_CUSTOM_PROPERTY_INFO_LIST => Some(0),
        _ => None,
    }
}

/// Full byte size of a property of the mute control.
fn mute_prop_size(selector: u32) -> (size: Option<u32>)
    ensures
        forall|driver: Driver|
            size_view(size) == size_of_property(#[trigger] mute_property(driver, selector)),
{
    match selector {
        SEL_BASE_CLASS | SEL_CLASS | SEL_OWNER => Some(4),
        SEL_NAME => Some(REF_BYTES),
        SEL_OWNED_OBJECTS => Some(0),
        SEL_CONTROL_SCOPE | SEL_CONTROL_ELEMENT => Some(4),
        SEL_BOOLEAN_VALUE => Some(4),
        SEL_CUSTOM_PROPERTY_INFO_LIST => Some(0),
        _ => None,
    }
}

/// Full byte size of a property, or `None` when the property is unknown. It
/// does not depend on what the property holds.
pub fn prop_size(object: u32, address: &AudioObjectPropertyAddress) -> (size: Option<u32>)
    ensures
        forall|driver: Driver, uid: Option<Seq<char>>|
            size_view(size) == size_of_property(
                #[trigger] property_of(driver, object, *address, uid),
            ),
{
    match object {
        OBJ_PLUGIN => plugin_prop_size(address.selector),
        OBJ_DEVICE => device_prop_size(address.selector, address.scope),
        OBJ_STREAM_OUTPUT | OBJ_STREAM_INPUT => stream_prop_size(address.selector),
        OBJ_VOLUME => volume_prop_size(address.selector),
        OBJ_MUTE => mute_prop_size(address.selector),
        _ => None,
    }
}

// ---------------------------------------------------------------------------
// Laws
// ---------------------------------------------------------------------------

/// Words take four bytes each.
proof fn lemma_words_len(ws: Seq<u32>)
    ensures
        words(ws).len() == ws.len() * 4,
    decreases ws.len(),
{
    if ws.len() > 0 {
        lemma_words_len(ws.drop_last());
    }
}

/// Ranges take 16 bytes each.
proof fn lemma_rate_ranges_len(n: nat)
    ensures
        rate_ranges(n).len() == n * 16,
    decreases n,
{
    if n > 0 {
        lemma_rate_ranges_len((n - 1) as nat);
    }
}

/// Formats take 56 bytes each.
proof fn lemma_formats_len(n: nat)
    ensures
        formats(n).len() == n * 56,
    decreases n,
{
    if n > 0 {
        lemma_formats_len((n - 1) as nat);
    }
}

/// The bytes of a list: as many items as were asked for.
proof fn lemma_encoded_list_len(property: PropertyModel, n: nat)
    requires
        property.list_len() matches Some(len) && n <= len,
    ensures
        property.encoded(n).len() == n * property.item_size(),
{
    match property {
        PropertyModel::Words(ws) => lemma_words_len(ws.take(n as int)),
        PropertyModel::RateRanges => lemma_rate_ranges_len(n),
        _ => lemma_formats_len(n),
    }
}

/// A host that has room for the size that it was told gets the whole property,
/// and no more than that.
pub proof fn law_reply_has_the_size_told(property: PropertyModel, room: nat)
    requires
        room >= property.size(),
    ensures
        answer(property, room) matches Ok(reply) && (reply matches ReplyModel::Bytes(bytes)
            ==> bytes.len() == property.size()),
{
    match property.list_len() {
        Some(len) => {
            lemma_encoded_list_len(property, len);
            let item = property.item_size();
            let size = property.size();
            assert(size == len * item) by (nonlinear_arith)
                requires
                    (item == 4 && size == 4 * len) || (len == 4 && size == 4 * item),
            ;
            assert(room / item >= len) by (nonlinear_arith)
                requires
                    item > 0,
                    room >= len * item,
            ;
        },
        None => {},
    }
}

/// A list is handed over in whole items, as many as there is room for; it is
/// never an error.
pub proof fn law_list_is_cut_at_an_item(property: PropertyModel, room: nat)
    requires
        property.list_len() is Some,
    ensures
        answer(property, room) matches Ok(ReplyModel::Bytes(bytes)) && bytes.len() <= room
            && bytes.len() % property.item_size() == 0,
{
    let item = property.item_size();
    let len = property.list_len().unwrap();
    let n = if room / item < len {
        room / item
    } else {
        len
    };
    lemma_encoded_list_len(property, n);
    assert(n * item <= room && (n * item) % item == 0) by (nonlinear_arith)
        requires
            item > 0,
            n <= room / item,
    ;
}

/// Which properties an object has, and their sizes, never change.
pub proof fn law_properties_are_fixed(
    a: Driver,
    b: Driver,
    object: u32,
    address: AudioObjectPropertyAddress,
    uid_a: Option<Seq<char>>,
    uid_b: Option<Seq<char>>,
)
    ensures
        size_of_property(property_of(a, object, address, uid_a)) == size_of_property(
            property_of(b, object, address, uid_b),
        ),
{
}

/// The bits of a sample rate are those of a 64-bit floating-point number of that
/// value: no sign, an exponent biased by 1023, and 52 bits of fraction.
pub proof fn law_rate_bits_are_the_rate(rate: u32)
    requires
        rate == 44100 || rate == 48000 || rate == 88200 || rate == 96000,
    ensures
        ({
            let bits = rate_bits(rate) as int;
            let exponent = bits / 0x10_0000_0000_0000 - 1023;
            let fraction = 0x10_0000_0000_0000 + bits % 0x10_0000_0000_0000;
            ||| exponent == 15 && fraction == rate * 0x20_0000_0000
            ||| exponent == 16 && fraction == rate * 0x10_0000_0000
        }),
{
}

/// The address of a property.
pub open spec fn at(selector: u32, scope: u32, element: u32) -> AudioObjectPropertyAddress {
    AudioObjectPropertyAddress { selector, scope, element }
}

/// Ownership is a tree: every object but the plug-in names as its owner the
/// object that lists it among those it owns, and no object is listed by
/// another.
pub proof fn law_ownership_is_a_tree(
    driver: Driver,
    object: u32,
    parent: u32,
    scope: u32,
    element: u32,
)
    requires
        2 <= object <= 6,
        1 <= parent <= 6,
    ensures
        ({
            let owner = property_of(driver, object, at(0x73746476, scope, element), None);
            let owned = property_of(driver, parent, at(0x6f776e64, scope, element), None);
            &&& owned matches Some(PropertyModel::Words(ws)) && (ws.contains(object) <==> owner
                == Some(PropertyModel::Word(parent)))
            &&& owner == Some(
                PropertyModel::Word(
                    if object == 2 {
                        1
                    } else {
                        2
                    },
                ),
            )
        }),
{
    let owned = property_of(driver, parent, at(0x6f776e64, scope, element), None);
    match owned {
        Some(PropertyModel::Words(ws)) => {
            if parent == 1 {
                assert(ws[0] == 2 && ws.len() == 1);
            } else if parent == 2 {
                assert(ws[0] == 3 && ws[1] == 4 && ws[2] == 5 && ws[3] == 6 && ws.len() == 4);
            } else {
                assert(ws.len() == 0);
            }
        },
        _ => {},
    }
}

/// What an object is, by its class: the plug-in, the device, a stream, a volume
/// or a mute, the controls being a level and a switch.
pub proof fn law_objects_have_their_class(driver: Driver, scope: u32, element: u32)
    ensures
        ({
            let class = |object: u32|
                property_of(driver, object, at(0x636c6173, scope, element), None);
            let base = |object: u32|
                property_of(driver, object, at(0x62636c73, scope, element), None);
            &&& class(1) == Some(PropertyModel::Word(0x61706c67))
            &&& class(2) == Some(PropertyModel::Word(0x61646576))
            &&& class(3) == Some(PropertyModel::Word(0x61737472))
            &&& class(4) == Some(PropertyModel::Word(0x61737472))
            &&& class(5) == Some(PropertyModel::Word(0x766c6d65))
            &&& class(6) == Some(PropertyModel::Word(0x6d757465))
            &&& base(1) == Some(PropertyModel::Word(0x616f626a)) && base(2) == base(1) && base(3)
                == base(1) && base(4) == base(1)
            &&& base(5) == Some(PropertyModel::Word(0x6c65766c))
            &&& base(6) == Some(PropertyModel::Word(0x746f676c))
        }),
{
}

/// No object but these six has any property.
pub proof fn law_no_other_objects(
    driver: Driver,
    object: u32,
    address: AudioObjectPropertyAddress,
    uid: Option<Seq<char>>,
)
    requires
        object == 0 || object > 6,
    ensures
        property_of(driver, object, address, uid) is None,
{
}

/// The device is found by its UID: the plug-in translates the one that the device
/// has to the device, and any other to no object; and it lists the device.
pub proof fn law_device_is_found_by_its_uid(
    driver: Driver,
    scope: u32,
    element: u32,
    uid: Option<Seq<char>>,
)
    ensures
        property_of(driver, 2, at(0x75696420, scope, element), None) matches Some(
            PropertyModel::Text(own),
        ) && property_of(driver, 1, at(0x75696464, scope, element), uid) == Some(
            PropertyModel::Word(
                if uid == Some(own) {
                    2
                } else {
                    0
                },
            ),
        ),
        property_of(driver, 1, at(0x64657623, scope, element), uid) == Some(
            PropertyModel::Words(seq![2u32]),
        ),
{
}

/// The device has one stream in each direction, of two channels: of the input
/// scope it shows the stream that says it is an input, of the output scope the
/// other one, and of any other scope both.
pub proof fn law_streams_are_shown_by_scope(driver: Driver, scope: u32, element: u32)
    ensures
        ({
            let shown = property_of(driver, 2, at(0x73746d23, scope, element), None);
            let channels = property_of(driver, 2, at(0x736c6179, scope, element), None);
            &&& scope == 0x696e7074 ==> shown == Some(PropertyModel::Words(seq![4u32])) && channels
                == Some(PropertyModel::StreamConfiguration(2))
            &&& scope == 0x6f757470 ==> shown == Some(PropertyModel::Words(seq![3u32])) && channels
                == Some(PropertyModel::StreamConfiguration(2))
            &&& scope != 0x696e7074 && scope != 0x6f757470 ==> shown == Some(
                PropertyModel::Words(seq![3u32, 4u32]),
            ) && channels == Some(PropertyModel::StreamConfiguration(0))
        }),
        property_of(driver, 4, at(0x73646972, scope, element), None) == Some(
            PropertyModel::Word(1),
        ),
        property_of(driver, 3, at(0x73646972, scope, element), None) == Some(
            PropertyModel::Word(0),
        ),
        property_of(driver, 4, at(0x7465726d, scope, element), None) == Some(
            PropertyModel::Word(0x6d696372),
        ),
        property_of(driver, 3, at(0x7465726d, scope, element), None) == Some(
            PropertyModel::Word(0x73706b72),
        ),
{
}

/// The device shows its state: that it runs while a client runs IO, and the
/// sample rate, which both streams show in their formats too; the controls show
/// the volume and the mute.
pub proof fn law_state_is_shown(driver: Driver, scope: u32, element: u32)
    ensures
        property_of(driver, 2, at(0x676f696e, scope, element), None) == Some(
            PropertyModel::Word(
                if driver.io_count == 0 {
                    0
                } else {
                    1
                },
            ),
        ),
        property_of(driver, 2, at(0x6e737274, scope, element), None) == Some(
            PropertyModel::Rate(driver.rate),
        ),
        forall|stream: u32, selector: u32|
            (stream == 3 || stream == 4) && (selector == 0x73666d74 || selector == 0x70667420)
                ==> #[trigger] property_of(driver, stream, at(selector, scope, element), None)
                == Some(PropertyModel::Format(driver.rate)),
        property_of(driver, 5, at(0x6c637376, scope, element), None) == Some(
            PropertyModel::Word(driver.volume),
        ),
        property_of(driver, 5, at(0x6c636476, scope, element), None) == Some(
            PropertyModel::Decibels(driver.volume),
        ),
        property_of(driver, 6, at(0x6263766c, scope, element), None) == Some(
            PropertyModel::Word(
                if driver.muted {
                    1
                } else {
                    0
                },
            ),
        ),
{
}

/// How the device presents itself: a virtual one, alive, not hidden, that may be
/// the default device for everything; without latency, in no clock domain; with
/// its first two channels for stereo, and a time stamp every 16384 frames.
pub proof fn law_device_presents_itself(driver: Driver, scope: u32, element: u32)
    ensures
        ({
            let word = |selector: u32|
                property_of(driver, 2, at(selector, scope, element), None);
            &&& word(0x7472616e) == Some(PropertyModel::Word(0x76697274))
            &&& word(0x6c69766e) == Some(PropertyModel::Word(1))
            &&& word(0x6869646e) == Some(PropertyModel::Word(0))
            &&& word(0x64666c74) == Some(PropertyModel::Word(1))
            &&& word(0x73666c74) == Some(PropertyModel::Word(1))
            &&& word(0x6c746e63) == Some(PropertyModel::Word(0))
            &&& word(0x73616674) == Some(PropertyModel::Word(0))
            &&& word(0x636c6b64) == Some(PropertyModel::Word(0))
            &&& word(0x6964656e) == Some(PropertyModel::Word(0))
            &&& word(0x72696e67) == Some(PropertyModel::Word(16384))
            &&& word(0x64636832) == Some(PropertyModel::Words(seq![1u32, 2u32]))
            &&& word(0x616b696e) == Some(PropertyModel::Words(seq![2u32]))
            &&& word(0x6374726c) == Some(PropertyModel::Words(seq![5u32, 6u32]))
        }),
        forall|stream: u32|
            stream == 3 || stream == 4 ==> (#[trigger] property_of(
                driver,
                stream,
                at(0x73616374, scope, element),
                None,
            )) == Some(PropertyModel::Word(1)),
        forall|stream: u32|
            stream == 3 || stream == 4 ==> (#[trigger] property_of(
                driver,
                stream,
                at(0x7363686e, scope, element),
                None,
            )) == Some(PropertyModel::Word(1)),
        forall|control: u32|
            control == 5 || control == 6 ==> (#[trigger] property_of(
                driver,
                control,
                at(0x63736370, scope, element),
                None,
            )) == Some(PropertyModel::Word(0x6f757470)),
{
}

/// A list of words reads back: word number `i` stands in the four bytes from
/// `4 * i` on, least significant first, as long as there was room for it.
pub proof fn law_words_read_back(ws: Seq<u32>, room: nat, i: int)
    requires
        0 <= i < ws.len(),
        4 * i + 4 <= room,
    ensures
        answer(PropertyModel::Words(ws), room) matches Ok(ReplyModel::Bytes(bytes)) && 4 * i + 4
            <= bytes.len() && bytes[4 * i] + bytes[4 * i + 1] * 0x100 + bytes[4 * i + 2] * 0x1_0000
            + bytes[4 * i + 3] * 0x100_0000 == ws[i],
{
    let fit = room / 4;
    let n = if fit < ws.len() {
        fit
    } else {
        ws.len()
    };
    lemma_words_read_back(ws.take(n as int), i);
}

/// Words stand where they are looked for.
proof fn lemma_words_read_back(ws: Seq<u32>, i: int)
    requires
        0 <= i < ws.len(),
    ensures
        words(ws).len() == 4 * ws.len(),
        words(ws)[4 * i] + words(ws)[4 * i + 1] * 0x100 + words(ws)[4 * i + 2] * 0x1_0000
            + words(ws)[4 * i + 3] * 0x100_0000 == ws[i],
    decreases ws.len(),
{
    lemma_words_len(ws);
    lemma_words_len(ws.drop_last());
    if i == ws.len() - 1 {
        law_last_byte_counts_most(ws[i], 0);
        let b = le32(ws[i]);
        let k = 4 * i;
        assert(words(ws)[k] == b[0] && words(ws)[k + 1] == b[1] && words(ws)[k + 2] == b[2]
            && words(ws)[k + 3] == b[3]);
    } else {
        lemma_words_read_back(ws.drop_last(), i);
        let w = words(ws.drop_last());
        let k = 4 * i;
        assert(words(ws)[k] == w[k] && words(ws)[k + 1] == w[k + 1] && words(ws)[k + 2] == w[k + 2]
            && words(ws)[k + 3] == w[k + 3]);
    }
}

/// A word is handed over as its four bytes, least significant first, and a rate
/// as the eight bytes of its number.
pub proof fn law_word_reads_back(w: u32, room: nat)
    requires
        room >= 4,
    ensures
        answer(PropertyModel::Word(w), room) matches Ok(ReplyModel::Bytes(b)) && b.len() == 4
            && b[0] + b[1] * 0x100 + b[2] * 0x1_0000 + b[3] * 0x100_0000 == w,
{
    law_last_byte_counts_most(w, 0);
}

/// Where there is no room for a property that is no list, the host is told so.
pub proof fn law_too_little_room_is_an_error(property: PropertyModel, room: nat)
    requires
        property.list_len() is None,
    ensures
        answer(property, room) is Err <==> room < property.size(),
        room < property.size() ==> answer(property, room) == Err::<ReplyModel, i32>(0x2173697a),
{
}

/// What a property is, it is handed over as: a text as that text, a volume in dB
/// as that volume, a translation as what it is.
pub proof fn law_replies_are_of_their_kind(property: PropertyModel, room: nat)
    requires
        room >= property.size(),
    ensures
        property matches PropertyModel::Text(t) ==> answer(property, room) == Ok::<ReplyModel, i32>(
            ReplyModel::Text(t),
        ),
        property matches PropertyModel::Decibels(b) ==> answer(property, room) == Ok::<
            ReplyModel,
            i32,
        >(ReplyModel::Decibels(b)),
        property is ScalarToDecibels ==> answer(property, room) == Ok::<ReplyModel, i32>(
            ReplyModel::ScalarToDecibels,
        ),
        property is DecibelsToScalar ==> answer(property, room) == Ok::<ReplyModel, i32>(
            ReplyModel::DecibelsToScalar,
        ),
        property matches PropertyModel::Rate(r) ==> answer(property, room) == Ok::<ReplyModel, i32>(
            ReplyModel::Bytes(le64(rate_bits(r))),
        ),
{
}

/// The stream format at a rate, as a host reads it: the rate, linear PCM of
/// packed floating-point samples, and eight bytes to a packet of one frame of
/// two channels of 32 bits.
pub proof fn law_format_reads_back(rate: u32)
    ensures
        ({
            let f = format(rate);
            let word = |i: int|
                f[i] + f[i + 1] * 0x100 + f[i + 2] * 0x1_0000 + f[i + 3] * 0x100_0000;
            &&& f.len() == 40
            &&& f.subrange(0, 8) == le64(rate_bits(rate))
            &&& word(8) == 0x6c70636d
            &&& word(12) == 9
            &&& word(16) == 8
            &&& word(20) == 1
            &&& word(24) == 8
            &&& word(28) == 2
            &&& word(32) == 32
            &&& word(36) == 0
        }),
{
    let f = format(rate);
    assert(f.subrange(0, 8) =~= le64(rate_bits(rate)));
    lemma_word_at(f, 8, FORMAT_LPCM);
    lemma_word_at(f, 12, FORMAT_FLAGS);
    lemma_word_at(f, 16, 8);
    lemma_word_at(f, 20, 1);
    lemma_word_at(f, 24, 8);
    lemma_word_at(f, 28, 2);
    lemma_word_at(f, 32, 32);
    lemma_word_at(f, 36, 0);
}

/// The number that four bytes hold.
proof fn lemma_word_at(bytes: Seq<u8>, i: int, w: u32)
    requires
        0 <= i,
        i + 4 <= bytes.len(),
        bytes.subrange(i, i + 4) =~= le32(w),
    ensures
        bytes[i] + bytes[i + 1] * 0x100 + bytes[i + 2] * 0x1_0000 + bytes[i + 3] * 0x100_0000 == w,
{
    law_last_byte_counts_most(w, 0);
    let b = bytes.subrange(i, i + 4);
    assert(b[0] == bytes[i] && b[1] == bytes[i + 1] && b[2] == bytes[i + 2] && b[3] == bytes[i
        + 3]);
}

/// The rates and formats that there are: one for each rate of the device, a rate
/// as a range that begins and ends with it.
pub proof fn law_rates_and_formats_are_listed(i: int)
    requires
        0 <= i < 4,
    ensures
        ({
            let rate = SUPPORTED_RATES@[i];
            let ranges = rate_ranges(4);
            let all = formats(4);
            &&& ranges.len() == 64
            &&& ranges.subrange(16 * i, 16 * i + 8) == le64(rate_bits(rate))
            &&& ranges.subrange(16 * i + 8, 16 * i + 16) == le64(rate_bits(rate))
            &&& all.len() == 224
            &&& all.subrange(56 * i, 56 * i + 40) == format(rate)
            &&& all.subrange(56 * i + 40, 56 * i + 56) == ranges.subrange(16 * i, 16 * i + 16)
        }),
{
    lemma_ranges_and_formats(4, i);
    let rate = SUPPORTED_RATES@[i];
    let range = rate_ranges(4).subrange(16 * i, 16 * i + 16);
    assert(rate_ranges(4).subrange(16 * i, 16 * i + 8) =~= range.subrange(0, 8));
    assert(rate_ranges(4).subrange(16 * i + 8, 16 * i + 16) =~= range.subrange(8, 16));
    assert(rate_range(rate).subrange(0, 8) =~= le64(rate_bits(rate)));
    assert(rate_range(rate).subrange(8, 16) =~= le64(rate_bits(rate)));
}

/// Ranges and formats stand where they are looked for.
proof fn lemma_ranges_and_formats(n: nat, i: int)
    requires
        0 <= i < n,
    ensures
        rate_ranges(n).len() == 16 * n,
        formats(n).len() == 56 * n,
        rate_ranges(n).subrange(16 * i, 16 * i + 16) == rate_range(SUPPORTED_RATES@[i]),
        formats(n).subrange(56 * i, 56 * i + 40) == format(SUPPORTED_RATES@[i]),
        formats(n).subrange(56 * i + 40, 56 * i + 56) == rate_range(SUPPORTED_RATES@[i]),
    decreases n,
{
    lemma_rate_ranges_len(n);
    lemma_formats_len(n);
    let m = (n - 1) as nat;
    lemma_rate_ranges_len(m);
    lemma_formats_len(m);
    if i < m {
        lemma_ranges_and_formats(m, i);
        assert(rate_ranges(n).subrange(16 * i, 16 * i + 16) =~= rate_ranges(m).subrange(
            16 * i,
            16 * i + 16,
        ));
        assert(formats(n).subrange(56 * i, 56 * i + 40) =~= formats(m).subrange(
            56 * i,
            56 * i + 40,
        ));
        assert(formats(n).subrange(56 * i + 40, 56 * i + 56) =~= formats(m).subrange(
            56 * i + 40,
            56 * i + 56,
        ));
    } else {
        assert(rate_ranges(n).subrange(16 * i, 16 * i + 16) =~= rate_range(SUPPORTED_RATES@[i]));
        assert(formats(n).subrange(56 * i, 56 * i + 40) =~= format(SUPPORTED_RATES@[i]));
        assert(formats(n).subrange(56 * i + 40, 56 * i + 56) =~= rate_range(SUPPORTED_RATES@[i]));
    }
}

/// The buffers of a scope with channels are one that has them, and there is none
/// where there are no channels; no buffer has a size or data.
pub proof fn law_buffers_read_back(channels: u32)
    ensures
        ({
            let b = buffer_list(channels);
            let word = |i: int|
                b[i] + b[i + 1] * 0x100 + b[i + 2] * 0x1_0000 + b[i + 3] * 0x100_0000;
            &&& b.len() == 24
            &&& word(0) == (if channels == 0 {
                0int
            } else {
                1
            })
            &&& word(8) == channels
            &&& word(12) == 0 && word(16) == 0 && word(20) == 0
        }),
{
    let b = buffer_list(channels);
    lemma_word_at(
        b,
        0,
        if channels > 0 {
            1
        } else {
            0
        },
    );
    lemma_word_at(b, 8, channels);
    lemma_word_at(b, 12, 0);
    assert(b.subrange(16, 20) =~= le32(0)) by {
        assert(le64(0) =~= le32(0) + le32(0));
    }
    assert(b.subrange(20, 24) =~= le32(0)) by {
        assert(le64(0) =~= le32(0) + le32(0));
    }
    lemma_word_at(b, 16, 0);
    lemma_word_at(b, 20, 0);
}

} // verus!
