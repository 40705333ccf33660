use squeezed::audio::{AudioFormat, FormatError, SAMPLE_RATES};

fn format(sample_rate: u32, channels: u8, bits: u8) -> AudioFormat {
    AudioFormat { sample_rate, channels, bits }
}

#[test]
fn frame_and_byte_rate() {
    let f = format(44100, 2, 16);
    assert_eq!(f.frame_bytes(), 4);
    assert_eq!(f.byte_rate(), 176400);
    assert_eq!(format(384000, 2, 32).byte_rate(), 3072000);
    assert_eq!(format(8000, 1, 8).byte_rate(), 8000);
}

#[test]
fn codes_are_ascii_digits() {
    assert_eq!(format(44100, 2, 8).sample_size_code(), Ok(b'0'));
    assert_eq!(format(44100, 2, 16).sample_size_code(), Ok(b'1'));
    assert_eq!(format(44100, 2, 24).sample_size_code(), Ok(b'2'));
    assert_eq!(format(44100, 2, 32).sample_size_code(), Ok(b'3'));
    assert_eq!(format(44100, 1, 16).channels_code(), Ok(b'1'));
    assert_eq!(format(44100, 2, 16).channels_code(), Ok(b'2'));
    assert_eq!(format(44100, 2, 16).endianness_code(), b'1');
}

#[test]
fn rate_codes_follow_the_table() {
    assert_eq!(format(11025, 2, 16).sample_rate_code(), Ok(b'0'));
    assert_eq!(format(44100, 2, 16).sample_rate_code(), Ok(b'3'));
    assert_eq!(format(48000, 2, 16).sample_rate_code(), Ok(b'4'));
    // Beyond '9' the arithmetic keeps working.
    assert_eq!(format(96000, 2, 16).sample_rate_code(), Ok(b'9'));
    assert_eq!(format(88200, 2, 16).sample_rate_code(), Ok(b':'));
    for (i, rate) in SAMPLE_RATES.iter().enumerate() {
        assert_eq!(format(*rate, 2, 16).sample_rate_code(), Ok(b'0' + i as u8));
    }
}

#[test]
fn first_fault_is_reported() {
    assert_eq!(format(44100, 2, 16).validate(), Ok(()));
    assert_eq!(format(1, 3, 12).validate(), Err(FormatError::UnsupportedBits(12)));
    assert_eq!(format(1, 3, 16).validate(), Err(FormatError::UnsupportedRate(1)));
    assert_eq!(format(44100, 3, 16).validate(), Err(FormatError::UnsupportedChannels(3)));
}

#[test]
fn format_errors_in_words() {
    assert_eq!(
        FormatError::UnsupportedBits(12).message(),
        "unsupported bit depth: 12 (expected 8, 16, 24 or 32)"
    );
    assert_eq!(
        FormatError::UnsupportedRate(44000).message(),
        format!("unsupported sample rate: 44000 Hz (supported: {:?})", SAMPLE_RATES)
    );
    assert_eq!(
        FormatError::UnsupportedChannels(6).message(),
        "unsupported channel count: 6 (expected 1 or 2)"
    );
}
