use audiowaveform::{
    decode_raw_audio_reader, f32_bits_to_sample, f64_bits_to_sample, parse_raw_sample,
    parse_raw_samples, raw_frame_count, raw_sample_width, sign_extend_24, Error, RawAudioConfig,
    RawBlockDecoder, RawSampleFormat,
};
use std::str::FromStr;

fn parse_raw_audio(bytes: &[u8], config: &RawAudioConfig) -> Result<audiowaveform::PcmAudio, Error> {
    decode_raw_audio_reader(bytes, config)
}

#[test]
fn parses_raw_sample_formats_and_validates_raw_audio_config() {
    assert_eq!(
        RawSampleFormat::from_str("s16le").expect("raw sample format"),
        RawSampleFormat::S16Le
    );
    assert_eq!(
        RawSampleFormat::from_str("F64BE").expect("raw sample format"),
        RawSampleFormat::F64Be
    );
    let error = RawSampleFormat::from_str("pcm").expect_err("unsupported format");
    assert_eq!(error.to_string(), "Unsupported format: pcm");

    let config = RawAudioConfig::new(44_100, 2, RawSampleFormat::S16Le).expect("config");
    assert_eq!(config.sample_rate, 44_100);
    assert_eq!(config.channels, 2);

    let error =
        RawAudioConfig::new(0, 1, RawSampleFormat::S16Le).expect_err("invalid sample rate");
    assert_eq!(
        error.to_string(),
        "Invalid input sample rate: must be greater than zero"
    );

    let error =
        RawAudioConfig::new(44_100, 0, RawSampleFormat::S16Le).expect_err("invalid channels");
    assert_eq!(
        error.to_string(),
        "Invalid number of input channels: must be greater than zero"
    );
}

#[test]
fn decodes_representative_raw_sample_formats() {
    let cases = [
        (RawSampleFormat::S8, vec![0x80], i16::MIN),
        (RawSampleFormat::U8, vec![0xff], 32_512),
        (RawSampleFormat::S16Le, vec![0x34, 0x12], 0x1234),
        (RawSampleFormat::S16Be, vec![0x12, 0x34], 0x1234),
        (RawSampleFormat::S24Le, vec![0x00, 0x00, 0x01], 256),
        (RawSampleFormat::S24Be, vec![0x01, 0x00, 0x00], 256),
        (RawSampleFormat::S32Le, vec![0x00, 0x00, 0x01, 0x00], 1),
        (RawSampleFormat::S32Be, vec![0x00, 0x01, 0x00, 0x00], 1),
        (
            RawSampleFormat::F32Le,
            1.0_f32.to_le_bytes().to_vec(),
            i16::MAX,
        ),
        (
            RawSampleFormat::F32Be,
            1.0_f32.to_be_bytes().to_vec(),
            i16::MAX,
        ),
        (
            RawSampleFormat::F64Le,
            1.0_f64.to_le_bytes().to_vec(),
            i16::MAX,
        ),
        (
            RawSampleFormat::F64Be,
            1.0_f64.to_be_bytes().to_vec(),
            i16::MAX,
        ),
    ];

    for (format, bytes, expected) in cases {
        assert_eq!(parse_raw_sample(&bytes, format), expected, "{format:?}");
    }
}

#[test]
fn decodes_raw_audio_and_rejects_unaligned_buffers() {
    let config = RawAudioConfig::new(16_000, 1, RawSampleFormat::S16Le).expect("config");
    let pcm = parse_raw_audio(&[0x01, 0x00, 0xff, 0xff], &config).expect("parse raw");
    assert_eq!(pcm.samples(), &[1, -1]);

    let error = parse_raw_audio(&[0x01], &config).expect_err("unaligned bytes");
    assert_eq!(
        error.to_string(),
        "Raw audio byte length is not aligned to the sample format"
    );
}

fn reference_sample(value: f64) -> i16 {
    (value * f64::from(i16::MAX)).clamp(f64::from(i16::MIN), f64::from(i16::MAX)) as i16
}

#[test]
fn float_samples_match_clamped_truncating_conversion() {
    let mut values = vec![
        0.0_f64, -0.0, 1.0, -1.0, 0.5, -0.5, 2.0, -2.0, 1e-9, -1e-9, 0.999_999, -0.999_999,
        1.0 / 32767.0, -1.0 / 32767.0, 3.0 / 65534.0, 1e300, -1e300, 5e-324, -5e-324,
        f64::INFINITY, f64::NEG_INFINITY, f64::NAN, f64::MAX, f64::MIN_POSITIVE,
    ];
    let mut state: u64 = 0x9e37_79b9_7f4a_7c15;
    for _ in 0..20_000 {
        state ^= state << 13;
        state ^= state >> 7;
        state ^= state << 17;
        let unit = (state >> 11) as f64 / (1_u64 << 53) as f64;
        values.push(unit * 2.4 - 1.2);
        values.push(f64::from_bits(state));
    }
    for value in values {
        assert_eq!(
            f64_bits_to_sample(value.to_bits()),
            reference_sample(value),
            "f64 {value:e}"
        );
        let single = value as f32;
        assert_eq!(
            f32_bits_to_sample(single.to_bits()),
            reference_sample(f64::from(single)),
            "f32 {single:e}"
        );
    }
}

#[test]
fn integer_samples_keep_their_most_significant_bits() {
    assert_eq!(sign_extend_24([0xff, 0xff, 0xff]), -1);
    assert_eq!(sign_extend_24([0x00, 0x00, 0x80]), -8_388_608);
    assert_eq!(sign_extend_24([0xff, 0xff, 0x7f]), 8_388_607);
    for value in [-8_388_608_i32, -257, -256, -1, 0, 255, 256, 8_388_607] {
        let le = value.to_le_bytes();
        assert_eq!(
            parse_raw_sample(&le[..3], RawSampleFormat::S24Le),
            (value >> 8) as i16
        );
        assert_eq!(
            parse_raw_sample(&[le[2], le[1], le[0]], RawSampleFormat::S24Be),
            (value >> 8) as i16
        );
    }
    for value in [i32::MIN, -65537, -65536, -1, 0, 65535, 65536, i32::MAX] {
        assert_eq!(
            parse_raw_sample(&value.to_le_bytes(), RawSampleFormat::S32Le),
            (value >> 16) as i16
        );
        assert_eq!(
            parse_raw_sample(&value.to_be_bytes(), RawSampleFormat::S32Be),
            (value >> 16) as i16
        );
    }
    for byte in [0_u8, 1, 127, 128, 255] {
        assert_eq!(
            parse_raw_sample(&[byte], RawSampleFormat::S8),
            i16::from(byte as i8) << 8
        );
        assert_eq!(
            parse_raw_sample(&[byte], RawSampleFormat::U8),
            (i16::from(byte) - 128) << 8
        );
    }
    assert_eq!(raw_sample_width(RawSampleFormat::S24Be), 3);
    assert_eq!(RawSampleFormat::F64Le.width(), 8);
    assert_eq!(
        parse_raw_samples(&[1, 0, 2, 0, 0xff, 0xff], RawSampleFormat::S16Le),
        vec![1, 2, -1]
    );
}

#[test]
fn raw_channel_mismatch_is_reported_after_alignment() {
    let config = RawAudioConfig::new(8_000, 2, RawSampleFormat::S16Le).expect("config");
    match parse_raw_audio(&[1, 0, 2, 0, 3, 0], &config) {
        Err(Error::InvalidArgument { name, message }) => {
            assert_eq!(name, "samples");
            assert_eq!(
                message,
                "Interleaved PCM sample count must be divisible by the channel count"
            );
        }
        other => panic!("unexpected result: {other:?}"),
    }
    let pcm = parse_raw_audio(&[1, 0, 2, 0, 3, 0, 4, 0], &config).expect("pcm");
    assert_eq!(pcm.samples(), &[1, 2, 3, 4]);
    assert_eq!(pcm.channel_mask(), Some(0b11));
    let bad = RawAudioConfig {
        sample_rate: 0,
        channels: 1,
        sample_format: RawSampleFormat::U8,
    };
    match parse_raw_audio(&[0], &bad) {
        Err(Error::InvalidArgument { name, .. }) => assert_eq!(name, "raw sample rate"),
        other => panic!("unexpected result: {other:?}"),
    }
}

#[test]
fn chunked_raw_decoding_matches_whole_buffer_decoding() {
    let config = RawAudioConfig::new(8_000, 2, RawSampleFormat::S24Le).expect("config");
    let bytes: Vec<u8> = (0..60_u32).map(|i| (i * 37 % 251) as u8).collect();
    let whole = parse_raw_audio(&bytes, &config).expect("whole");
    for chunk in [1, 2, 5, 6, 7, 13, 60] {
        let mut decoder = RawBlockDecoder::new(&config).expect("decoder");
        let mut samples = Vec::new();
        for piece in bytes.chunks(chunk) {
            let block = decoder.feed(piece);
            assert_eq!(block.len() % 2, 0, "chunk size {chunk}");
            samples.extend(block);
        }
        decoder.finish().expect("whole frames");
        assert_eq!(samples, whole.samples(), "chunk size {chunk}");
    }
    let mut decoder = RawBlockDecoder::new(&config).expect("decoder");
    assert!(decoder.feed(&bytes[..5]).is_empty());
    match decoder.finish() {
        Err(Error::InvalidData { message }) => assert_eq!(
            message,
            "Raw audio byte length is not aligned to the sample format"
        ),
        other => panic!("unexpected result: {other:?}"),
    }
    assert_eq!(decoder.feed(&bytes[5..6]), &whole.samples()[..2]);
    assert!(decoder.finish().is_ok());
    assert!(decoder.feed(&bytes[6..9]).is_empty());
    assert!(matches!(decoder.finish(), Err(Error::InvalidArgument { .. })));
    assert_eq!(decoder.feed(&bytes[9..12]), &whole.samples()[2..4]);
    assert!(decoder.finish().is_ok());
}

#[test]
fn raw_frame_counts_use_whole_frames() {
    let config = RawAudioConfig::new(8_000, 3, RawSampleFormat::S16Be).expect("config");
    assert_eq!(raw_frame_count(0, &config).unwrap(), 0);
    assert_eq!(raw_frame_count(11, &config).unwrap(), 1);
    assert_eq!(raw_frame_count(12, &config).unwrap(), 2);
    if usize::BITS == 32 {
        assert!(raw_frame_count(u64::MAX, &config).is_err());
    } else {
        assert_eq!(
            raw_frame_count(u64::MAX, &config).unwrap() as u64,
            u64::MAX / 6
        );
    }
}
