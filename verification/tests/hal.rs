use squeezed::hal::driver::{
    clamp_unit, create_device, destroy_device, device_status, supports_rate, Driver, SetOutcome,
    FULL_VOLUME,
};
use squeezed::hal::ids::{
    fcc, CLASS_DEVICE, CLASS_LEVEL_CONTROL, DRIVER_INTERFACE_UUID, ERR_BAD_OBJECT,
    ERR_BAD_PROPERTY_SIZE, ERR_ILLEGAL_OPERATION, ERR_UNKNOWN_PROPERTY, ERR_UNSUPPORTED_FORMAT,
    ERR_UNSUPPORTED_OPERATION, E_NOINTERFACE, E_POINTER, FORMAT_LPCM, IUNKNOWN_UUID, NO_ERR,
    OBJ_DEVICE, OBJ_MUTE, OBJ_PLUGIN, OBJ_STREAM_INPUT, OBJ_STREAM_OUTPUT, OBJ_UNKNOWN, OBJ_VOLUME,
    OP_PROCESS_OUTPUT, OP_READ_INPUT, OP_RITE, OP_WRITE_MIX, RING_FRAMES, SCOPE_GLOBAL,
    SCOPE_INPUT, SCOPE_OUTPUT, SEL_BASE_CLASS, SEL_BOOLEAN_VALUE, SEL_CLASS,
    SEL_CUSTOM_PROPERTY_INFO_LIST, SEL_DEVICE_AVAILABLE_SAMPLE_RATES, SEL_DEVICE_IS_RUNNING,
    SEL_DEVICE_NOMINAL_SAMPLE_RATE, SEL_DEVICE_STREAMS, SEL_DEVICE_STREAM_CONFIGURATION,
    SEL_DEVICE_UID, SEL_LEVEL_DECIBELS_TO_SCALAR, SEL_LEVEL_DECIBEL_RANGE,
    SEL_LEVEL_DECIBEL_VALUE, SEL_LEVEL_SCALAR_TO_DECIBELS, SEL_LEVEL_SCALAR_VALUE, SEL_NAME,
    SEL_OWNED_OBJECTS, SEL_PLUGIN_TRANSLATE_UID_TO_DEVICE, SEL_STREAM_AVAILABLE_VIRTUAL_FORMATS,
    SEL_STREAM_IS_ACTIVE, SEL_STREAM_PHYSICAL_FORMAT, SEL_STREAM_VIRTUAL_FORMAT, SUPPORTED_RATES,
    TYPE_UUID,
};
use squeezed::hal::io::IoAction;
use squeezed::hal::property::{
    prop_size, rate_to_bits, AudioObjectPropertyAddress, Reply, MAX_DB_BITS, MIN_DB_BITS,
};
use squeezed::hal::ring::Ring;

fn at(selector: u32, scope: u32) -> AudioObjectPropertyAddress {
    AudioObjectPropertyAddress { selector, scope, element: 0 }
}

fn global(selector: u32) -> AudioObjectPropertyAddress {
    AudioObjectPropertyAddress::global(selector)
}

fn get(d: &Driver, object: u32, address: &AudioObjectPropertyAddress, room: u32) -> Vec<u8> {
    match d.get_property_data(true, object, Some(address), None, room, true) {
        Ok(Reply::Bytes(b)) => b,
        Ok(_) => panic!("no bytes"),
        Err(e) => panic!("error {e:x}"),
    }
}

fn get_error(d: &Driver, object: u32, selector: u32, room: u32) -> i32 {
    match d.get_property_data(true, object, Some(&global(selector)), None, room, true) {
        Ok(_) => NO_ERR,
        Err(e) => e,
    }
}

fn words(ws: &[u32]) -> Vec<u8> {
    ws.iter().flat_map(|w| w.to_le_bytes()).collect()
}

fn format_bytes(rate: f64) -> Vec<u8> {
    let mut out = rate.to_bits().to_le_bytes().to_vec();
    out.extend(words(&[fcc(b"lpcm"), 0x1 | 0x8, 8, 1, 8, 2, 32, 0]));
    out
}

fn set(d: &mut Driver, object: u32, selector: u32, data: &[u8]) -> SetOutcome {
    d.set_property_data(true, object, Some(&global(selector)), Some(data))
}

fn status_of(outcome: SetOutcome) -> i32 {
    match outcome {
        SetOutcome::Status(s) => s,
        _ => panic!("no status"),
    }
}

#[test]
fn codes_are_four_characters() {
    assert_eq!(fcc(b"lnam"), SEL_NAME);
    assert_eq!(fcc(b"clas"), SEL_CLASS);
    assert_eq!(fcc(b"uid "), SEL_DEVICE_UID);
    assert_eq!(fcc(b"pft "), SEL_STREAM_PHYSICAL_FORMAT);
    assert_eq!(fcc(b"glob"), SCOPE_GLOBAL);
    assert_eq!(fcc(b"lpcm"), FORMAT_LPCM);
    assert_eq!(fcc(b"rite"), OP_RITE);
    assert_eq!(fcc(b"who?") as i32, ERR_UNKNOWN_PROPERTY);
    assert_eq!(fcc(b"!siz") as i32, ERR_BAD_PROPERTY_SIZE);
    assert_eq!(fcc(b"nope") as i32, ERR_ILLEGAL_OPERATION);
    assert_eq!(fcc(b"!obj") as i32, ERR_BAD_OBJECT);
    assert_eq!(fcc(b"unop") as i32, ERR_UNSUPPORTED_OPERATION);
    assert_eq!(fcc(b"!dat") as i32, ERR_UNSUPPORTED_FORMAT);
    assert_eq!(0x8000_0004u32 as i32, E_NOINTERFACE);
    assert_eq!(0x8000_4003u32 as i32, E_POINTER);
}

#[test]
fn rates_are_floating_point_numbers() {
    for rate in SUPPORTED_RATES {
        assert_eq!(rate_to_bits(rate), (rate as f64).to_bits());
        assert!(supports_rate(rate as u64));
    }
    assert!(!supports_rate(44101));
    assert!(!supports_rate(44100 + 0x1_0000_0000));
    assert_eq!(MIN_DB_BITS, (-96.0f64).to_bits());
    assert_eq!(MAX_DB_BITS, 0.0f64.to_bits());
    assert_eq!(FULL_VOLUME, 1.0f32.to_bits());
}

#[test]
fn volume_is_limited_as_floats_are() {
    for v in [0.0f32, -0.0, 0.5, 1.0, 1.0000001, 2.0, -0.1, -5.0, f32::INFINITY,
        f32::NEG_INFINITY, f32::MIN_POSITIVE, -f32::MIN_POSITIVE, 1e-45, -1e-45]
    {
        assert_eq!(clamp_unit(v.to_bits()), v.clamp(0.0, 1.0).to_bits(), "{v}");
    }
    assert!(f32::from_bits(clamp_unit(f32::NAN.to_bits())).is_nan());
}

#[test]
fn plug_in_is_handed_out_by_type() {
    let mut d = Driver::new();
    assert!(d.create(Some(&TYPE_UUID)));
    assert!(!d.create(Some(&IUNKNOWN_UUID)));
    assert!(!d.create(None));
    assert_eq!(d.ref_count, 1);
    assert_eq!(d.query_interface(true, &IUNKNOWN_UUID, true), NO_ERR);
    assert_eq!(d.query_interface(true, &DRIVER_INTERFACE_UUID, true), NO_ERR);
    assert_eq!(d.ref_count, 3);
    assert_eq!(d.query_interface(true, &TYPE_UUID, true), E_NOINTERFACE);
    assert_eq!(d.query_interface(false, &IUNKNOWN_UUID, true), ERR_BAD_OBJECT);
    assert_eq!(d.query_interface(false, &IUNKNOWN_UUID, false), E_POINTER);
    assert_eq!(d.ref_count, 3);
}

#[test]
fn references_are_counted() {
    let mut d = Driver::new();
    assert_eq!(d.add_ref(), 1);
    assert_eq!(d.add_ref(), 2);
    assert_eq!(d.release(), 1);
    assert_eq!(d.release(), 0);
    assert_eq!(d.release(), 0);
    assert_eq!(d.add_ref(), 1);
}

#[test]
fn devices_are_fixed() {
    assert_eq!(create_device(), ERR_UNSUPPORTED_OPERATION);
    assert_eq!(destroy_device(), ERR_UNSUPPORTED_OPERATION);
    assert_eq!(device_status(OBJ_DEVICE), NO_ERR);
    assert_eq!(device_status(OBJ_PLUGIN), ERR_BAD_OBJECT);
}

#[test]
fn properties_hold_their_values() {
    let d = Driver::new();
    assert_eq!(get(&d, OBJ_DEVICE, &global(SEL_CLASS), 4), words(&[CLASS_DEVICE]));
    assert_eq!(get(&d, OBJ_VOLUME, &global(SEL_BASE_CLASS), 4), words(&[CLASS_LEVEL_CONTROL]));
    assert_eq!(get(&d, OBJ_DEVICE, &global(SEL_OWNED_OBJECTS), 99), words(&[3, 4, 5, 6]));
    assert_eq!(get(&d, OBJ_DEVICE, &at(SEL_DEVICE_STREAMS, SCOPE_INPUT), 99), words(&[4]));
    assert_eq!(get(&d, OBJ_DEVICE, &at(SEL_DEVICE_STREAMS, SCOPE_OUTPUT), 99), words(&[3]));
    assert_eq!(get(&d, OBJ_DEVICE, &global(SEL_DEVICE_STREAMS), 99), words(&[3, 4]));
    assert_eq!(
        get(&d, OBJ_DEVICE, &at(SEL_DEVICE_STREAM_CONFIGURATION, SCOPE_OUTPUT), 24),
        words(&[1, 0, 2, 0, 0, 0])
    );
    assert_eq!(
        get(&d, OBJ_DEVICE, &global(SEL_DEVICE_STREAM_CONFIGURATION), 24),
        words(&[0, 0, 0, 0, 0, 0])
    );
    assert_eq!(
        get(&d, OBJ_DEVICE, &global(SEL_DEVICE_NOMINAL_SAMPLE_RATE), 8),
        44100.0f64.to_le_bytes()
    );
    assert_eq!(
        get(&d, OBJ_STREAM_INPUT, &global(SEL_STREAM_VIRTUAL_FORMAT), 40),
        format_bytes(44100.0)
    );
    assert_eq!(
        get(&d, OBJ_VOLUME, &global(SEL_LEVEL_DECIBEL_RANGE), 16),
        [(-96.0f64).to_le_bytes(), 0.0f64.to_le_bytes()].concat()
    );
    assert_eq!(get(&d, OBJ_MUTE, &global(SEL_CUSTOM_PROPERTY_INFO_LIST), 0), Vec::<u8>::new());
}

#[test]
fn lists_are_cut_at_an_item() {
    let d = Driver::new();
    let rates = get(&d, OBJ_DEVICE, &global(SEL_DEVICE_AVAILABLE_SAMPLE_RATES), 64);
    let mut expected = Vec::new();
    for r in [44100.0f64, 48000.0, 88200.0, 96000.0] {
        expected.extend(r.to_le_bytes());
        expected.extend(r.to_le_bytes());
    }
    assert_eq!(rates, expected);
    assert_eq!(
        get(&d, OBJ_DEVICE, &global(SEL_DEVICE_AVAILABLE_SAMPLE_RATES), 47),
        expected[..32]
    );
    assert_eq!(get(&d, OBJ_DEVICE, &global(SEL_OWNED_OBJECTS), 11), words(&[3, 4]));
    assert_eq!(get(&d, OBJ_DEVICE, &global(SEL_OWNED_OBJECTS), 3), words(&[]));
    let formats =
        get(&d, OBJ_STREAM_OUTPUT, &global(SEL_STREAM_AVAILABLE_VIRTUAL_FORMATS), 1000);
    assert_eq!(formats.len(), 4 * 56);
    assert_eq!(formats[56..96], format_bytes(48000.0));
    assert_eq!(formats[96..104], 48000.0f64.to_le_bytes());
}

#[test]
fn strings_and_translations() {
    let d = Driver::new();
    let text = |object, selector, room| {
        d.get_property_data(true, object, Some(&global(selector)), None, room, true)
    };
    assert!(matches!(text(OBJ_DEVICE, SEL_NAME, 8), Ok(Reply::Text("Squeezed"))));
    assert!(matches!(text(OBJ_STREAM_INPUT, SEL_NAME, 8), Ok(Reply::Text("Squeezed Input"))));
    assert!(matches!(text(OBJ_MUTE, SEL_NAME, 8), Ok(Reply::Text("Mute"))));
    assert!(matches!(
        text(OBJ_DEVICE, SEL_DEVICE_UID, 8),
        Ok(Reply::Text("SqueezedAudioDevice_UID"))
    ));
    assert!(matches!(text(OBJ_DEVICE, SEL_NAME, 7), Err(ERR_BAD_PROPERTY_SIZE)));
    assert!(matches!(
        text(OBJ_VOLUME, SEL_LEVEL_DECIBEL_VALUE, 4),
        Ok(Reply::Decibels(FULL_VOLUME))
    ));
    assert!(matches!(
        text(OBJ_VOLUME, SEL_LEVEL_SCALAR_TO_DECIBELS, 4),
        Ok(Reply::ScalarToDecibels)
    ));
    assert!(matches!(
        text(OBJ_VOLUME, SEL_LEVEL_DECIBELS_TO_SCALAR, 4),
        Ok(Reply::DecibelsToScalar)
    ));
    assert!(matches!(
        text(OBJ_VOLUME, SEL_LEVEL_SCALAR_TO_DECIBELS, 3),
        Err(ERR_BAD_PROPERTY_SIZE)
    ));
    let device = |uid| {
        let a = global(SEL_PLUGIN_TRANSLATE_UID_TO_DEVICE);
        match d.get_property_data(true, OBJ_PLUGIN, Some(&a), uid, 4, true) {
            Ok(Reply::Bytes(b)) => b,
            _ => panic!("no bytes"),
        }
    };
    assert_eq!(device(Some("SqueezedAudioDevice_UID")), words(&[OBJ_DEVICE]));
    assert_eq!(device(Some("other")), words(&[OBJ_UNKNOWN]));
    assert_eq!(device(None), words(&[OBJ_UNKNOWN]));
}

#[test]
fn questions_can_be_wrong() {
    let d = Driver::new();
    let a = global(SEL_CLASS);
    assert!(matches!(
        d.get_property_data(false, OBJ_DEVICE, Some(&a), None, 4, true),
        Err(ERR_BAD_OBJECT)
    ));
    assert!(matches!(
        d.get_property_data(true, OBJ_DEVICE, None, None, 4, true),
        Err(E_POINTER)
    ));
    assert!(matches!(
        d.get_property_data(true, OBJ_DEVICE, Some(&a), None, 4, false),
        Err(E_POINTER)
    ));
    assert_eq!(get_error(&d, OBJ_DEVICE, SEL_CLASS, 3), ERR_BAD_PROPERTY_SIZE);
    assert_eq!(get_error(&d, OBJ_DEVICE, SEL_BOOLEAN_VALUE, 4), ERR_UNKNOWN_PROPERTY);
    assert_eq!(get_error(&d, 7, SEL_CLASS, 4), ERR_UNKNOWN_PROPERTY);
    assert!(d.has_property(true, OBJ_DEVICE, Some(&a)));
    assert!(!d.has_property(false, OBJ_DEVICE, Some(&a)));
    assert!(!d.has_property(true, OBJ_DEVICE, None));
    assert!(!d.has_property(true, OBJ_DEVICE, Some(&global(SEL_BOOLEAN_VALUE))));
    assert_eq!(d.get_property_data_size(true, OBJ_DEVICE, Some(&a), true), Ok(4));
    assert_eq!(d.get_property_data_size(false, OBJ_DEVICE, Some(&a), true), Err(ERR_BAD_OBJECT));
    assert_eq!(d.get_property_data_size(true, OBJ_DEVICE, Some(&a), false), Err(E_POINTER));
    assert_eq!(d.get_property_data_size(true, 9, Some(&a), true), Err(ERR_UNKNOWN_PROPERTY));
    assert_eq!(d.is_property_settable(true, OBJ_DEVICE, Some(&a), true), Ok(false));
    assert_eq!(
        d.is_property_settable(true, OBJ_MUTE, Some(&global(SEL_BOOLEAN_VALUE)), true),
        Ok(true)
    );
    assert_eq!(d.is_property_settable(false, OBJ_DEVICE, Some(&a), true), Err(ERR_BAD_OBJECT));
    assert_eq!(d.is_property_settable(true, OBJ_DEVICE, None, true), Err(E_POINTER));
    assert_eq!(d.is_property_settable(true, 9, Some(&a), true), Err(ERR_UNKNOWN_PROPERTY));
}

#[test]
fn sizes_are_what_is_handed_over() {
    let d = Driver::new();
    for object in 0..8u32 {
        for selector in [SEL_CLASS, SEL_OWNED_OBJECTS, SEL_DEVICE_STREAMS,
            SEL_DEVICE_AVAILABLE_SAMPLE_RATES, SEL_STREAM_AVAILABLE_VIRTUAL_FORMATS,
            SEL_DEVICE_STREAM_CONFIGURATION, SEL_STREAM_VIRTUAL_FORMAT,
            SEL_DEVICE_NOMINAL_SAMPLE_RATE, SEL_LEVEL_DECIBEL_RANGE, SEL_BOOLEAN_VALUE]
        {
            for scope in [SCOPE_GLOBAL, SCOPE_INPUT] {
                if let Some(size) = prop_size(object, &at(selector, scope)) {
                    assert_eq!(get(&d, object, &at(selector, scope), size).len(), size as usize);
                }
            }
        }
    }
    assert_eq!(prop_size(OBJ_DEVICE, &global(SEL_NAME)), Some(8));
    assert_eq!(prop_size(OBJ_PLUGIN, &global(SEL_DEVICE_STREAMS)), None);
}

#[test]
fn volume_and_mute_are_set_and_read_back() {
    let mut d = Driver::new();
    match set(&mut d, OBJ_VOLUME, SEL_LEVEL_SCALAR_VALUE, &0.25f32.to_le_bytes()) {
        SetOutcome::Changed(addresses) => assert!(addresses.is_empty()), // no host yet
        _ => panic!("not changed"),
    }
    assert_eq!(get(&d, OBJ_VOLUME, &global(SEL_LEVEL_SCALAR_VALUE), 4), 0.25f32.to_le_bytes());
    assert_eq!(d.initialize(true, true), NO_ERR);
    match set(&mut d, OBJ_VOLUME, SEL_LEVEL_SCALAR_VALUE, &7.0f32.to_le_bytes()) {
        SetOutcome::Changed(addresses) => {
            let selectors: Vec<u32> = addresses.iter().map(|a| a.selector).collect();
            assert_eq!(selectors, [SEL_LEVEL_SCALAR_VALUE, SEL_LEVEL_DECIBEL_VALUE]);
            assert!(addresses.iter().all(|a| a.scope == SCOPE_GLOBAL && a.element == 0));
        }
        _ => panic!("not changed"),
    }
    assert_eq!(get(&d, OBJ_VOLUME, &global(SEL_LEVEL_SCALAR_VALUE), 4), 1.0f32.to_le_bytes());
    match set(&mut d, OBJ_VOLUME, SEL_LEVEL_DECIBEL_VALUE, &(-6.0f32).to_le_bytes()) {
        SetOutcome::Decibels(bits) => assert_eq!(f32::from_bits(bits), -6.0),
        _ => panic!("no decibels"),
    }
    assert_eq!(d.store_volume(0.5f32.to_bits()).len(), 2);
    assert_eq!(d.volume, 0.5f32.to_bits());
    match set(&mut d, OBJ_MUTE, SEL_BOOLEAN_VALUE, &words(&[7])) {
        SetOutcome::Changed(addresses) => assert_eq!(addresses[0].selector, SEL_BOOLEAN_VALUE),
        _ => panic!("not changed"),
    }
    assert_eq!(get(&d, OBJ_MUTE, &global(SEL_BOOLEAN_VALUE), 4), words(&[1]));
}

#[test]
fn rate_changes_go_through_the_host() {
    let mut d = Driver::new();
    let nominal = SEL_DEVICE_NOMINAL_SAMPLE_RATE;
    let to = |r: f64| r.to_le_bytes();
    assert_eq!(status_of(set(&mut d, OBJ_DEVICE, nominal, &to(44100.0))), NO_ERR);
    assert_eq!(status_of(set(&mut d, OBJ_DEVICE, nominal, &to(48000.0))), ERR_ILLEGAL_OPERATION);
    assert_eq!(status_of(set(&mut d, OBJ_DEVICE, nominal, &to(32000.0))), ERR_UNSUPPORTED_FORMAT);
    assert_eq!(status_of(set(&mut d, OBJ_DEVICE, nominal, &to(f64::NAN))), ERR_UNSUPPORTED_FORMAT);
    d.initialize(true, true);
    match set(&mut d, OBJ_DEVICE, nominal, &to(48000.0)) {
        SetOutcome::RequestRate(rate) => {
            assert_eq!(d.perform_device_configuration_change(true, OBJ_DEVICE, rate as u64, 5), 0);
        }
        _ => panic!("no request"),
    }
    assert_eq!(get(&d, OBJ_DEVICE, &global(nominal), 8), to(48000.0));
    assert_eq!((d.anchor_host_time, d.timestamp_seed), (5, 2));
    let mut format = format_bytes(96000.0);
    assert!(matches!(
        set(&mut d, OBJ_STREAM_OUTPUT, SEL_STREAM_PHYSICAL_FORMAT, &format),
        SetOutcome::RequestRate(96000)
    ));
    format[28] = 1;
    assert_eq!(
        status_of(set(&mut d, OBJ_STREAM_OUTPUT, SEL_STREAM_PHYSICAL_FORMAT, &format)),
        ERR_UNSUPPORTED_FORMAT
    );
    let change = |d: &mut Driver, ours, device, action| {
        d.perform_device_configuration_change(ours, device, action, 9)
    };
    assert_eq!(change(&mut d, true, OBJ_DEVICE, 44101), ERR_ILLEGAL_OPERATION);
    assert_eq!(change(&mut d, false, OBJ_DEVICE, 44100), ERR_BAD_OBJECT);
    assert_eq!(change(&mut d, true, OBJ_PLUGIN, 44100), ERR_BAD_OBJECT);
    assert_eq!(d.rate, 48000);
}

#[test]
fn settings_can_be_refused() {
    let mut d = Driver::new();
    let a = global(SEL_BOOLEAN_VALUE);
    assert_eq!(
        status_of(d.set_property_data(false, OBJ_MUTE, Some(&a), Some(&[1, 0, 0, 0]))),
        ERR_BAD_OBJECT
    );
    assert_eq!(status_of(d.set_property_data(true, OBJ_MUTE, Some(&a), None)), E_POINTER);
    assert_eq!(status_of(d.set_property_data(true, OBJ_MUTE, None, Some(&[1]))), E_POINTER);
    assert_eq!(
        status_of(set(&mut d, OBJ_MUTE, SEL_BOOLEAN_VALUE, &[1, 0, 0])),
        ERR_BAD_PROPERTY_SIZE
    );
    assert_eq!(
        status_of(set(&mut d, OBJ_DEVICE, SEL_DEVICE_NOMINAL_SAMPLE_RATE, &[0; 7])),
        ERR_BAD_PROPERTY_SIZE
    );
    assert_eq!(
        status_of(set(&mut d, OBJ_STREAM_INPUT, SEL_STREAM_VIRTUAL_FORMAT, &[0; 39])),
        ERR_BAD_PROPERTY_SIZE
    );
    assert_eq!(status_of(set(&mut d, OBJ_STREAM_INPUT, SEL_STREAM_IS_ACTIVE, &[])), NO_ERR);
    assert_eq!(status_of(set(&mut d, OBJ_DEVICE, SEL_CLASS, &[0; 4])), ERR_ILLEGAL_OPERATION);
    assert_eq!(
        status_of(set(&mut d, OBJ_DEVICE, SEL_BOOLEAN_VALUE, &[0; 4])),
        ERR_UNKNOWN_PROPERTY
    );
    assert!(!d.muted);
}

#[test]
fn ring_gives_back_what_was_written_once() {
    let mut ring = Ring::new();
    let samples: Vec<u32> = (1..=20).collect();
    ring.write(-3, &samples);
    let mut out = vec![9u32; 20];
    ring.read(-3, &mut out);
    assert_eq!(out, samples);
    ring.read(-3, &mut out);
    assert_eq!(out, vec![0; 20]);
}

#[test]
fn ring_wraps_around() {
    let mut ring = Ring::new();
    ring.write(RING_FRAMES as i64 - 1, &[1, 2, 3, 4]);
    let mut out = [0u32; 4];
    ring.read(-1, &mut out);
    assert_eq!(out, [1, 2, 3, 4]);
    // Of more frames than there is room for, the last ones stay.
    let long: Vec<u32> = (0..2 * (RING_FRAMES as u32 + 1)).collect();
    ring.write(0, &long);
    let mut out = [0u32; 4];
    ring.read(0, &mut out);
    assert_eq!(out, [32768, 32769, 2, 3]);
    // A read that goes around finds the second time what it has left behind.
    let mut all = vec![7u32; 2 * RING_FRAMES + 2];
    ring.read(2, &mut all);
    assert_eq!(all[..2], [4, 5]);
    assert_eq!(all[2 * RING_FRAMES..], [0, 0]);
}

#[test]
fn ring_keeps_what_is_not_overwritten() {
    let mut ring = Ring::new();
    ring.write(100, &[1, 2]);
    ring.write(101, &[3, 4]);
    ring.write(99, &[5, 6]);
    let mut out = [0u32; 6];
    ring.read(99, &mut out);
    assert_eq!(out, [5, 6, 1, 2, 3, 4]);
}

#[test]
fn io_starts_with_silence() {
    let mut d = Driver::new();
    let mut ring = Ring::new();
    ring.write(0, &[1, 2]);
    assert_eq!(d.start_io(true, OBJ_DEVICE, 77, &mut ring), NO_ERR);
    assert_eq!((d.io_count, d.anchor_host_time, d.timestamp_seed), (1, 77, 2));
    assert_eq!(get(&d, OBJ_DEVICE, &global(SEL_DEVICE_IS_RUNNING), 4), words(&[1]));
    let mut out = [9u32; 2];
    ring.read(0, &mut out);
    assert_eq!(out, [0, 0]);
    // A second client changes neither the ring nor the timeline.
    ring.write(0, &[1, 2]);
    assert_eq!(d.start_io(true, OBJ_DEVICE, 99, &mut ring), NO_ERR);
    assert_eq!((d.io_count, d.anchor_host_time, d.timestamp_seed), (2, 77, 2));
    ring.read(0, &mut out);
    assert_eq!(out, [1, 2]);
    assert_eq!(d.start_io(false, OBJ_DEVICE, 99, &mut ring), ERR_BAD_OBJECT);
    assert_eq!(d.stop_io(true, OBJ_PLUGIN), ERR_BAD_OBJECT);
    assert_eq!(d.stop_io(true, OBJ_DEVICE), NO_ERR);
    assert_eq!(d.stop_io(true, OBJ_DEVICE), NO_ERR);
    assert_eq!(d.stop_io(true, OBJ_DEVICE), NO_ERR);
    assert_eq!(d.io_count, 0);
}

#[test]
fn counters_at_their_end_only_bind_calls_that_move_them() {
    let mut d = Driver::new();
    let mut ring = Ring::new();
    d.timestamp_seed = u64::MAX;
    d.io_count = u32::MAX;
    assert_eq!(d.start_io(false, OBJ_DEVICE, 1, &mut ring), ERR_BAD_OBJECT);
    assert_eq!(d.start_io(true, OBJ_PLUGIN, 1, &mut ring), ERR_BAD_OBJECT);
    assert_eq!(d.perform_device_configuration_change(true, OBJ_PLUGIN, 48000, 1), ERR_BAD_OBJECT);
    assert_eq!(
        d.perform_device_configuration_change(true, OBJ_DEVICE, 32000, 1),
        ERR_ILLEGAL_OPERATION
    );
    d.io_count = 1;
    assert_eq!(d.start_io(true, OBJ_DEVICE, 1, &mut ring), NO_ERR);
    assert_eq!((d.io_count, d.timestamp_seed), (2, u64::MAX));
    assert!(matches!(
        d.get_zero_time_stamp(true, OBJ_DEVICE, false, 0, 0, 0),
        Err(E_POINTER)
    ));
}

#[test]
fn time_stamps_follow_the_ring() {
    let mut d = Driver::new();
    d.anchor_host_time = 1000;
    // Ticks of 1 ns: one time around the ring takes 16384 / 44100 s.
    let stamp = |d: &Driver, now| match d.get_zero_time_stamp(true, OBJ_DEVICE, true, now, 1, 1) {
        Ok(s) => (s.sample_time, s.host_time, s.seed),
        Err(e) => panic!("error {e}"),
    };
    assert_eq!(stamp(&d, 0), (0, 1000, 1));
    assert_eq!(stamp(&d, 1000 + 371_519_274), (0, 1000, 1));
    assert_eq!(stamp(&d, 1000 + 371_519_275), (16384, 1000 + 371_519_274, 1));
    assert_eq!(stamp(&d, 1000 + 1_000_000_000), (2 * 16384, 1000 + 743_038_548, 1));
    let mut last = (0, 0);
    for i in 0..100u64 {
        let now = 1000 + i * 33_333_333;
        let (sample_time, host_time, _) = stamp(&d, now);
        assert!(host_time <= now && now - host_time <= 371_519_275);
        assert!((sample_time, host_time) >= last);
        last = (sample_time, host_time);
    }
    // Ticks of 125/3 ns at 48 kHz: 8192000 ticks.
    d.rate = 48000;
    match d.get_zero_time_stamp(true, OBJ_DEVICE, true, 1000 + 8_192_000, 125, 3) {
        Ok(s) => assert_eq!((s.sample_time, s.host_time), (16384, 1000 + 8_192_000)),
        Err(e) => panic!("error {e}"),
    }
    assert!(matches!(
        d.get_zero_time_stamp(true, OBJ_DEVICE, false, 0, 1, 1),
        Err(E_POINTER)
    ));
    assert!(matches!(
        d.get_zero_time_stamp(true, OBJ_PLUGIN, true, 0, 1, 1),
        Err(ERR_BAD_OBJECT)
    ));
}

#[test]
fn io_operations() {
    let mut d = Driver::new();
    for op in [OP_READ_INPUT, OP_WRITE_MIX, OP_PROCESS_OUTPUT, OP_RITE] {
        assert_eq!(d.will_do_io_operation(true, OBJ_DEVICE, op), Ok(true));
    }
    assert_eq!(d.will_do_io_operation(true, OBJ_DEVICE, fcc(b"cinp")), Ok(false));
    assert_eq!(d.will_do_io_operation(false, OBJ_DEVICE, OP_RITE), Err(ERR_BAD_OBJECT));
    let act = |d: &Driver, op| match d.do_io_operation(true, OBJ_DEVICE, op, true) {
        Ok(a) => a,
        Err(e) => panic!("error {e}"),
    };
    assert!(matches!(act(&d, OP_RITE), IoAction::Write(Some(FULL_VOLUME))));
    assert!(matches!(act(&d, OP_READ_INPUT), IoAction::Read));
    assert!(matches!(act(&d, OP_PROCESS_OUTPUT), IoAction::Pass));
    assert!(matches!(act(&d, 0), IoAction::Pass));
    d.muted = true;
    assert!(matches!(act(&d, OP_WRITE_MIX), IoAction::Write(None)));
    assert!(matches!(d.do_io_operation(true, OBJ_DEVICE, OP_RITE, false), Err(E_POINTER)));
    assert!(matches!(d.do_io_operation(true, 9, OP_RITE, true), Err(ERR_BAD_OBJECT)));
}
