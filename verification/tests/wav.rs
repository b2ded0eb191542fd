use audiodsp::wav::{decode_wav, encode_wav, WavErrorKind};

/// Bytes of a mono 16-bit PCM file, written out field by field.
fn pcm_file(channels: u16, rate: u32, bits: u16, format: u16, data: &[u8]) -> Vec<u8> {
    let block_align = channels * (bits / 8);
    let mut b = Vec::new();
    b.extend_from_slice(b"RIFF");
    b.extend_from_slice(&(36 + data.len() as u32).to_le_bytes());
    b.extend_from_slice(b"WAVE");
    b.extend_from_slice(b"fmt ");
    b.extend_from_slice(&16u32.to_le_bytes());
    b.extend_from_slice(&format.to_le_bytes());
    b.extend_from_slice(&channels.to_le_bytes());
    b.extend_from_slice(&rate.to_le_bytes());
    b.extend_from_slice(&(rate * block_align as u32).to_le_bytes());
    b.extend_from_slice(&block_align.to_le_bytes());
    b.extend_from_slice(&bits.to_le_bytes());
    b.extend_from_slice(b"data");
    b.extend_from_slice(&(data.len() as u32).to_le_bytes());
    b.extend_from_slice(data);
    b
}

/// The reference fixture: mono, 16-bit, 8000 Hz, samples [0, 16384, -16384, -32768].
fn reference_wav() -> Vec<u8> {
    vec![
        0x52, 0x49, 0x46, 0x46, 44, 0, 0, 0, 0x57, 0x41, 0x56, 0x45, 0x66, 0x6d, 0x74, 0x20, 16,
        0, 0, 0, 1, 0, 1, 0, 0x40, 0x1f, 0, 0, 0x80, 0x3e, 0, 0, 2, 0, 16, 0, 0x64, 0x61, 0x74,
        0x61, 8, 0, 0, 0, 0x00, 0x00, 0x00, 0x40, 0x00, 0xc0, 0x00, 0x80,
    ]
}

#[test]
fn wav_read_from_fixture_gets_samples_and_rate() {
    let (samples, rate) = decode_wav(&reference_wav()).expect("read should succeed");

    assert_eq!(rate, 8000, "sample rate must be read properly");
    assert_eq!(samples, vec![0, 16384, -16384, -32768]);
}

#[test]
fn wav_read_from_malformed_file_return_format_error() {
    let mut bytes = reference_wav();
    bytes[8..12].copy_from_slice(b"WAVX");

    let err = decode_wav(&bytes).unwrap_err();
    assert_eq!(err.kind, WavErrorKind::Format, "got {err:?}");
    assert_eq!(err.message, "Ill-formed WAVE file: no WAVE tag found");
}

#[test]
fn wav_round_trip_preserves_samples_and_rate() {
    let samples: Vec<i16> = vec![0, 16384, -16384, -32768];
    let sample_rate = 44100;

    let bytes = encode_wav(&samples, sample_rate);
    let (read_samples, read_rate) = decode_wav(&bytes).expect("read should succeed");

    assert_eq!(read_rate, sample_rate, "sample rate must be read properly");
    assert_eq!(read_samples, samples);
}

#[test]
fn wav_round_trip_preserves_rate_even_when_empty() {
    let samples: Vec<i16> = vec![];
    let sample_rate = 44100;

    let bytes = encode_wav(&samples, sample_rate);
    let (read_samples, read_rate) = decode_wav(&bytes).expect("read should succeed");

    assert_eq!(read_rate, sample_rate, "sample rate must be read properly");
    assert_eq!(read_samples, samples);
}

#[test]
fn wav_round_trip_keeps_the_i16_extremes() {
    let samples: Vec<i16> = vec![i16::MIN, -1, 0, 1, i16::MAX];

    let bytes = encode_wav(&samples, 1);
    assert_eq!(decode_wav(&bytes).unwrap(), (samples, 1));
}

#[test]
fn encoding_writes_the_reference_layout_byte_for_byte() {
    let bytes = encode_wav(&[0, 16384, -16384, -32768], 8000);
    assert_eq!(bytes, reference_wav());
}

#[test]
fn encoding_an_empty_buffer_writes_a_bare_header() {
    let bytes = encode_wav(&[], 22050);
    assert_eq!(bytes.len(), 44);
    assert_eq!(bytes, pcm_file(1, 22050, 16, 1, &[]));
}

#[test]
fn truncated_data_is_an_io_error() {
    let mut bytes = reference_wav();
    bytes.truncate(48);

    let err = decode_wav(&bytes).unwrap_err();
    assert_eq!(err.kind, WavErrorKind::Io, "got {err:?}");
}

#[test]
fn stereo_samples_come_interleaved() {
    let data: Vec<u8> = [1i16, -2, 3, -4].iter().flat_map(|s| s.to_le_bytes()).collect();
    let bytes = pcm_file(2, 48000, 16, 1, &data);

    assert_eq!(decode_wav(&bytes).unwrap(), (vec![1, -2, 3, -4], 48000));
}

#[test]
fn eight_bit_samples_are_widened() {
    let bytes = pcm_file(1, 8000, 8, 1, &[0x80, 0xff, 0x00, 0x7f]);

    assert_eq!(decode_wav(&bytes).unwrap(), (vec![0, 127, -128, -1], 8000));
}

#[test]
fn wide_samples_are_refused() {
    let bytes = pcm_file(1, 8000, 24, 1, &[1, 2, 3]);

    assert_eq!(decode_wav(&bytes).unwrap_err().kind, WavErrorKind::TooWide);
}

#[test]
fn float_samples_are_refused() {
    let bytes = pcm_file(1, 8000, 32, 3, &[0, 0, 0, 0]);

    assert_eq!(
        decode_wav(&bytes).unwrap_err().kind,
        WavErrorKind::InvalidSampleFormat
    );
}

#[test]
fn compressed_formats_are_unsupported() {
    let bytes = pcm_file(1, 8000, 16, 2, &[0, 0]);

    assert_eq!(decode_wav(&bytes).unwrap_err().kind, WavErrorKind::Unsupported);
}
