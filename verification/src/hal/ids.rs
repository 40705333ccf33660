//! The numbers by which the audio host and the plug-in speak of objects,
//! properties and results. Most are four-character codes.

use crate::bytes::{be32_value, join_be32};
use vstd::prelude::*;

verus! {

/// A four-character code as a number.
pub fn fcc(code: &[u8; 4]) -> (n: u32)
    ensures
        n == be32_value(code@),
{
    join_be32(code[0], code[1], code[2], code[3])
}

// Object IDs published by the plug-in. The plug-in object must be 1; the rest
// are ours to assign.

/// No object.
pub const OBJ_UNKNOWN: u32 = 0;

/// The plug-in itself.
pub const OBJ_PLUGIN: u32 = 1;

/// The virtual device.
pub const OBJ_DEVICE: u32 = 2;

/// The stream that audio is played to.
pub const OBJ_STREAM_OUTPUT: u32 = 3;

/// The stream that it is captured back from.
pub const OBJ_STREAM_INPUT: u32 = 4;

/// The volume control.
pub const OBJ_VOLUME: u32 = 5;

/// The mute control.
pub const OBJ_MUTE: u32 = 6;

// Results.

/// Success.
pub const NO_ERR: i32 = 0;

/// The object has no such property: `who?`.
pub const ERR_UNKNOWN_PROPERTY: i32 = 0x77686f3f;

/// The property data do not have the size they need: `!siz`.
pub const ERR_BAD_PROPERTY_SIZE: i32 = 0x2173697a;

/// Not now, or not on this property: `nope`.
pub const ERR_ILLEGAL_OPERATION: i32 = 0x6e6f7065;

/// No such object: `!obj`.
pub const ERR_BAD_OBJECT: i32 = 0x216f626a;

/// Not supported: `unop`.
pub const ERR_UNSUPPORTED_OPERATION: i32 = 0x756e6f70;

/// No such format or sample rate: `!dat`.
pub const ERR_UNSUPPORTED_FORMAT: i32 = 0x21646174;

/// No such interface: `0x8000_0004`.
pub const E_NOINTERFACE: i32 = -0x7fff_fffc;

/// A pointer is missing: `0x8000_4003`.
pub const E_POINTER: i32 = -0x7fff_bffd;

// Property selectors.

/// `bcls`
pub const SEL_BASE_CLASS: u32 = 0x62636c73;

/// `clas`
pub const SEL_CLASS: u32 = 0x636c6173;

/// `stdv`
pub const SEL_OWNER: u32 = 0x73746476;

/// `lnam`
pub const SEL_NAME: u32 = 0x6c6e616d;

/// `lmak`
pub const SEL_MANUFACTURER: u32 = 0x6c6d616b;

/// `ownd`
pub const SEL_OWNED_OBJECTS: u32 = 0x6f776e64;

/// `iden`
pub const SEL_IDENTIFY: u32 = 0x6964656e;

/// `cust`
pub const SEL_CUSTOM_PROPERTY_INFO_LIST: u32 = 0x63757374;

/// `dev#`
pub const SEL_PLUGIN_DEVICE_LIST: u32 = 0x64657623;

/// `uidd`
pub const SEL_PLUGIN_TRANSLATE_UID_TO_DEVICE: u32 = 0x75696464;

/// `box#`
pub const SEL_PLUGIN_BOX_LIST: u32 = 0x626f7823;

/// `uidb`
pub const SEL_PLUGIN_TRANSLATE_UID_TO_BOX: u32 = 0x75696462;

/// `rsrc`
pub const SEL_PLUGIN_RESOURCE_BUNDLE: u32 = 0x72737263;

/// `uid `
pub const SEL_DEVICE_UID: u32 = 0x75696420;

/// `muid`
pub const SEL_DEVICE_MODEL_UID: u32 = 0x6d756964;

/// `tran`
pub const SEL_DEVICE_TRANSPORT_TYPE: u32 = 0x7472616e;

/// `akin`
pub const SEL_DEVICE_RELATED_DEVICES: u32 = 0x616b696e;

/// `clkd`
pub const SEL_DEVICE_CLOCK_DOMAIN: u32 = 0x636c6b64;

/// `livn`
pub const SEL_DEVICE_IS_ALIVE: u32 = 0x6c69766e;

/// `goin`
pub const SEL_DEVICE_IS_RUNNING: u32 = 0x676f696e;

/// `dflt`
pub const SEL_DEVICE_CAN_BE_DEFAULT: u32 = 0x64666c74;

/// `sflt`
pub const SEL_DEVICE_CAN_BE_SYSTEM_DEFAULT: u32 = 0x73666c74;

/// `ltnc`
pub const SEL_DEVICE_LATENCY: u32 = 0x6c746e63;

/// `stm#`
pub const SEL_DEVICE_STREAMS: u32 = 0x73746d23;

/// `slay`
pub const SEL_DEVICE_STREAM_CONFIGURATION: u32 = 0x736c6179;

/// `ctrl`
pub const SEL_CONTROL_LIST: u32 = 0x6374726c;

/// `saft`
pub const SEL_DEVICE_SAFETY_OFFSET: u32 = 0x73616674;

/// `nsrt`
pub const SEL_DEVICE_NOMINAL_SAMPLE_RATE: u32 = 0x6e737274;

/// `nsr#`
pub const SEL_DEVICE_AVAILABLE_SAMPLE_RATES: u32 = 0x6e737223;

/// `hidn`
pub const SEL_DEVICE_IS_HIDDEN: u32 = 0x6869646e;

/// `dch2`
pub const SEL_DEVICE_PREFERRED_CHANNELS_STEREO: u32 = 0x64636832;

/// `ring`
pub const SEL_DEVICE_ZERO_TIMESTAMP_PERIOD: u32 = 0x72696e67;

/// `sact`
pub const SEL_STREAM_IS_ACTIVE: u32 = 0x73616374;

/// `sdir`
pub const SEL_STREAM_DIRECTION: u32 = 0x73646972;

/// `term`
pub const SEL_STREAM_TERMINAL_TYPE: u32 = 0x7465726d;

/// `schn`
pub const SEL_STREAM_STARTING_CHANNEL: u32 = 0x7363686e;

/// `ltnc`
pub const SEL_STREAM_LATENCY: u32 = 0x6c746e63;

/// `sfmt`
pub const SEL_STREAM_VIRTUAL_FORMAT: u32 = 0x73666d74;

/// `sfma`
pub const SEL_STREAM_AVAILABLE_VIRTUAL_FORMATS: u32 = 0x73666d61;

/// `pft `
pub const SEL_STREAM_PHYSICAL_FORMAT: u32 = 0x70667420;

/// `pfta`
pub const SEL_STREAM_AVAILABLE_PHYSICAL_FORMATS: u32 = 0x70667461;

/// `cscp`
pub const SEL_CONTROL_SCOPE: u32 = 0x63736370;

/// `celm`
pub const SEL_CONTROL_ELEMENT: u32 = 0x63656c6d;

/// `lcsv`
pub const SEL_LEVEL_SCALAR_VALUE: u32 = 0x6c637376;

/// `lcdv`
pub const SEL_LEVEL_DECIBEL_VALUE: u32 = 0x6c636476;

/// `lcdr`
pub const SEL_LEVEL_DECIBEL_RANGE: u32 = 0x6c636472;

/// `lcsd`
pub const SEL_LEVEL_SCALAR_TO_DECIBELS: u32 = 0x6c637364;

/// `lcds`
pub const SEL_LEVEL_DECIBELS_TO_SCALAR: u32 = 0x6c636473;

/// `bcvl`
pub const SEL_BOOLEAN_VALUE: u32 = 0x6263766c;

// Classes.

/// `aobj`
pub const CLASS_OBJECT: u32 = 0x616f626a;

/// `aplg`
pub const CLASS_PLUGIN: u32 = 0x61706c67;

/// `adev`
pub const CLASS_DEVICE: u32 = 0x61646576;

/// `astr`
pub const CLASS_STREAM: u32 = 0x61737472;

/// `levl`
pub const CLASS_LEVEL_CONTROL: u32 = 0x6c65766c;

/// `vlme`
pub const CLASS_VOLUME_CONTROL: u32 = 0x766c6d65;

/// `togl`
pub const CLASS_BOOLEAN_CONTROL: u32 = 0x746f676c;

/// `mute`
pub const CLASS_MUTE_CONTROL: u32 = 0x6d757465;

// Scopes.

/// `glob`
pub const SCOPE_GLOBAL: u32 = 0x676c6f62;

/// `inpt`
pub const SCOPE_INPUT: u32 = 0x696e7074;

/// `outp`
pub const SCOPE_OUTPUT: u32 = 0x6f757470;

// Transport, terminals and format.

/// `virt`
pub const TRANSPORT_VIRTUAL: u32 = 0x76697274;

/// `spkr`
pub const TERMINAL_SPEAKER: u32 = 0x73706b72;

/// `micr`
pub const TERMINAL_MICROPHONE: u32 = 0x6d696372;

/// `lpcm`
pub const FORMAT_LPCM: u32 = 0x6c70636d;

/// Samples are floating-point numbers, packed.
pub const FORMAT_FLAGS: u32 = 9;

// Operations of an IO cycle.

/// `read`
pub const OP_READ_INPUT: u32 = 0x72656164;

/// `wmix`
pub const OP_WRITE_MIX: u32 = 0x776d6978;

/// `pout`
pub const OP_PROCESS_OUTPUT: u32 = 0x706f7574;

/// `rite`
pub const OP_RITE: u32 = 0x72697465;

// The device.

/// Channels of the device.
pub const CHANNELS: usize = 2;

/// Frames that the loopback ring holds.
pub const RING_FRAMES: usize = 16384;

/// Sample rates that the device can run at, in Hz.
pub const SUPPORTED_RATES: [u32; 4] = [44100, 48000, 88200, 96000];

/// The sample rate that the device starts at, in Hz.
pub const DEFAULT_RATE: u32 = 44100;

/// The size of a string property: the string is handed over by reference.
pub const REF_BYTES: u32 = 8;

/// The UUID of the plug-in type, 443ABAB8-E7B3-491A-B985-BEB9187030DB.
pub const TYPE_UUID: [u8; 16] = [
    0x44, 0x3a, 0xba, 0xb8, 0xe7, 0xb3, 0x49, 0x1a, 0xb9, 0x85, 0xbe, 0xb9, 0x18, 0x70, 0x30, 0xdb,
];

/// The UUID of the driver interface, EEA5773D-CC43-49F1-8E00-8F96E7D23B17.
pub const DRIVER_INTERFACE_UUID: [u8; 16] = [
    0xee, 0xa5, 0x77, 0x3d, 0xcc, 0x43, 0x49, 0xf1, 0x8e, 0x00, 0x8f, 0x96, 0xe7, 0xd2, 0x3b, 0x17,
];

/// The UUID of `IUnknown`, 00000000-0000-0000-C000-000000000046.
pub const IUNKNOWN_UUID: [u8; 16] = [
    0x00, 0x00, 0x00, 0x00, 0x00, 0x00, 0x00, 0x00, 0xc0, 0x00, 0x00, 0x00, 0x00, 0x00, 0x00, 0x46,
];

} // verus!
