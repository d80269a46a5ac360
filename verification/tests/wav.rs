use glidewin::wav::{can_encode, encode_wav_bytes};

#[test]
fn mono_file_byte_by_byte() {
    let mut expected: Vec<u8> = Vec::new();
    expected.extend_from_slice(b"RIFF");
    expected.extend_from_slice(&[40, 0, 0, 0]);
    expected.extend_from_slice(b"WAVEfmt ");
    expected.extend_from_slice(&[16, 0, 0, 0, 1, 0, 1, 0]);
    expected.extend_from_slice(&[0x40, 0x1f, 0, 0]);
    expected.extend_from_slice(&[0x80, 0x3e, 0, 0]);
    expected.extend_from_slice(&[2, 0, 16, 0]);
    expected.extend_from_slice(b"data");
    expected.extend_from_slice(&[4, 0, 0, 0, 1, 0, 0xff, 0xff]);
    assert_eq!(encode_wav_bytes(&[1, -1], 8000, 1), expected);
}

#[test]
fn file_with_three_channels_byte_by_byte() {
    let mut expected: Vec<u8> = Vec::new();
    expected.extend_from_slice(b"RIFF");
    expected.extend_from_slice(&[66, 0, 0, 0]);
    expected.extend_from_slice(b"WAVEfmt ");
    expected.extend_from_slice(&[40, 0, 0, 0, 0xfe, 0xff, 3, 0]);
    expected.extend_from_slice(&[0x44, 0xac, 0, 0]);
    expected.extend_from_slice(&[0x98, 0x09, 0x04, 0]);
    expected.extend_from_slice(&[6, 0, 16, 0]);
    expected.extend_from_slice(&[22, 0, 16, 0, 7, 0, 0, 0]);
    expected.extend_from_slice(&[1, 0, 0, 0, 0, 0, 0x10, 0, 0x80, 0, 0, 0xaa, 0, 0x38, 0x9b, 0x71]);
    expected.extend_from_slice(b"data");
    expected.extend_from_slice(&[6, 0, 0, 0, 1, 0, 2, 0, 3, 0]);
    assert_eq!(encode_wav_bytes(&[1, 2, 3], 44100, 3), expected);
}

#[test]
fn at_most_eighteen_channels_have_a_loudspeaker() {
    let samples = [0i16; 20];
    let file = encode_wav_bytes(&samples, 8000, 20);
    assert_eq!(&file[40..44], &[0xff, 0xff, 0x03, 0]);
    let file = encode_wav_bytes(&samples[..18], 8000, 18);
    assert_eq!(&file[40..44], &[0xff, 0xff, 0x03, 0]);
    let file = encode_wav_bytes(&samples[..17], 8000, 17);
    assert_eq!(&file[40..44], &[0xff, 0xff, 0x01, 0]);
}

#[test]
fn empty_file_is_a_header() {
    let file = encode_wav_bytes(&[], 16000, 2);
    assert_eq!(file.len(), 44);
    assert_eq!(&file[4..8], &[36, 0, 0, 0]);
    assert_eq!(&file[40..44], &[0, 0, 0, 0]);
}

#[test]
fn samples_that_do_not_fill_a_frame_are_kept() {
    let file = encode_wav_bytes(&[5, 6, 7], 16000, 2);
    assert_eq!(file.len(), 50);
    assert_eq!(&file[4..8], &[42, 0, 0, 0]);
    assert_eq!(&file[40..], &[6, 0, 0, 0, 5, 0, 6, 0, 7, 0]);
}

#[test]
fn wav_reads_back() {
    let samples = [0, 1, -1, 255, 256, -256, i16::MAX, i16::MIN];
    for channels in [1, 2, 4] {
        let file = encode_wav_bytes(&samples, 48000, channels);
        let mut reader = hound::WavReader::new(std::io::Cursor::new(file)).unwrap();
        assert_eq!(reader.spec().channels, channels);
        assert_eq!(reader.spec().sample_rate, 48000);
        let read: Vec<i16> = reader.samples::<i16>().map(|s| s.unwrap()).collect();
        assert_eq!(read, samples);
    }
}

#[test]
fn limits_of_the_format() {
    assert!(can_encode(0, 1, 1));
    assert!(!can_encode(0, 0, 1));
    assert!(!can_encode(0, 8000, 0));
    assert!(can_encode(0, u32::MAX / 2, 1));
    assert!(!can_encode(0, u32::MAX / 2 + 1, 1));
    assert!(can_encode(2147483629, 8000, 1));
    assert!(!can_encode(2147483630, 8000, 1));
    assert!(can_encode(2147483617, 8000, 3));
    assert!(!can_encode(2147483618, 8000, 3));
}

#[test]
fn the_header_reads_back_without_samples() {
    for channels in [1, 2, 6] {
        let file = encode_wav_bytes(&[], 22050, channels);
        let reader = hound::WavReader::new(std::io::Cursor::new(file)).unwrap();
        assert_eq!(reader.len(), 0);
        let spec = reader.spec();
        assert_eq!((spec.channels, spec.sample_rate, spec.bits_per_sample), (channels, 22050, 16));
        assert_eq!(spec.sample_format, hound::SampleFormat::Int);
    }
}
