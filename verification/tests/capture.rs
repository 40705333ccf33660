use squeezed::audio::AudioFormat;
use squeezed::capture::{
    check_rate, found_device, frame_layout, full_scale, taps, write_sample, CaptureError, RatePin,
    RateStep, Taps, RATE_POLLS,
};
use squeezed::driver::{bundle_status, device_status, ensure_root};

fn bytes(bits: u8, value: i32) -> Vec<u8> {
    let mut out = vec![0xaa];
    write_sample(&mut out, bits, value);
    out.remove(0);
    out
}

#[test]
fn samples_are_little_endian() {
    assert_eq!(bytes(8, -1), [0xff]);
    assert_eq!(bytes(8, 127), [0x7f]);
    assert_eq!(bytes(16, -2), (-2i16).to_le_bytes());
    assert_eq!(bytes(16, 0x1234), [0x34, 0x12]);
    assert_eq!(bytes(24, -8_388_607), (-8_388_607i32).to_le_bytes()[..3]);
    assert_eq!(bytes(24, 0x123456), [0x56, 0x34, 0x12]);
    assert_eq!(bytes(32, i32::MIN), i32::MIN.to_le_bytes());
    assert_eq!(bytes(32, 0x12345678), [0x78, 0x56, 0x34, 0x12]);
}

#[test]
fn full_scale_is_the_loudest_sample() {
    assert_eq!(full_scale(8), i8::MAX as i32);
    assert_eq!(full_scale(16), i16::MAX as i32);
    assert_eq!(full_scale(24), 8_388_607);
    assert_eq!(full_scale(32), i32::MAX);
    for value in [-full_scale(24), -1, 0, 1, full_scale(24)] {
        let b = bytes(24, value);
        assert_eq!(i32::from_le_bytes([0, b[0], b[1], b[2]]) >> 8, value);
    }
}

#[test]
fn buffers_hold_whole_frames() {
    let l = frame_layout(2, 4096);
    assert_eq!((l.in_channels, l.frames), (2, 512));
    let l = frame_layout(0, 7);
    assert_eq!((l.in_channels, l.frames), (1, 1));
    let l = frame_layout(3, 4 * 8);
    assert_eq!((l.in_channels, l.frames), (3, 2));
}

#[test]
fn frames_are_tapped() {
    assert_eq!(taps(1, 2), Taps::Average);
    assert_eq!(taps(2, 1), Taps::Pair(0));
    assert_eq!(taps(2, 2), Taps::Pair(1));
    assert_eq!(taps(2, 8), Taps::Pair(1));
}

#[test]
fn rate_is_checked() {
    let f = |sample_rate| AudioFormat { sample_rate, channels: 2, bits: 16 };
    for rate in [44100, 48000, 88200, 96000] {
        assert_eq!(check_rate(&f(rate)), Ok(()));
    }
    let e = check_rate(&f(32000)).unwrap_err();
    assert_eq!(e, CaptureError::UnsupportedRate(32000));
    assert_eq!(
        e.message(),
        "input source 'virtual' supports sample rates [44100, 48000, 88200, 96000], not 32000 Hz"
    );
}

#[test]
fn device_is_looked_up() {
    assert_eq!(found_device(0, 57), Ok(Some(57)));
    assert_eq!(found_device(0, 0), Ok(None));
    let e = found_device(-50, 57).unwrap_err();
    assert_eq!(e.message(), "capture: device UID lookup failed (OSStatus -50)");
    assert_eq!(
        CaptureError::Lookup(i32::MIN).message(),
        "capture: device UID lookup failed (OSStatus -2147483648)"
    );
    assert_eq!(
        CaptureError::NotPresent.message(),
        "the Squeezed virtual audio device is not present — install it with \
         `sudo squeezed driver install` (then re-run squeezed)"
    );
}

#[test]
fn rate_is_pinned() {
    let mut pin = RatePin::new();
    assert_eq!(pin.checked(true), RateStep::Done);
    let mut pin = RatePin::new();
    assert_eq!(pin.checked(false), RateStep::Request);
    assert_eq!(pin.resumed(), RateStep::Check);
    assert_eq!(pin.checked(false), RateStep::Wait);
    assert_eq!(pin.resumed(), RateStep::Check);
    assert_eq!(pin.checked(true), RateStep::Done);
}

#[test]
fn rate_pinning_times_out() {
    let mut pin = RatePin::new();
    assert_eq!(pin.checked(false), RateStep::Request);
    for _ in 0..RATE_POLLS {
        assert_eq!(pin.resumed(), RateStep::Check);
        assert_eq!(pin.checked(false), RateStep::Wait);
    }
    assert_eq!(pin.resumed(), RateStep::TimedOut);
    assert_eq!(
        CaptureError::RateTimedOut(48000).message(),
        "capture: device did not switch to 48000 Hz in time"
    );
}

#[test]
fn only_root_manages_the_driver() {
    assert!(ensure_root(0, "install").is_ok());
    match ensure_root(501, "install") {
        Ok(()) => panic!("allowed"),
        Err(e) => assert_eq!(
            e.message(),
            "driver install writes to /Library/Audio/Plug-Ins/HAL — run it as root: \
             `sudo squeezed driver install`"
        ),
    }
}

#[test]
fn driver_status_in_words() {
    assert_eq!(bundle_status(true), "installed");
    assert_eq!(bundle_status(false), "not installed (run `sudo squeezed driver install`)");
    assert_eq!(
        device_status(false, true),
        "visible to CoreAudio (\"Squeezed\" in Sound settings)"
    );
    assert_eq!(
        device_status(true, false),
        "not visible yet — restarting coreaudiod or logging out/in may help"
    );
    assert_eq!(device_status(false, false), "not present");
}
