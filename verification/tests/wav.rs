use std::io::Cursor;

use audiowaveform::{
    encode_pcm_as_wav, riff_end, validated_wav_spec, wave_format_check, wave_mask_check, Error,
    PcmAudio, Pcm16WavSpec,
};

#[test]
fn checks_riff_size_limits_without_allocating_gigabytes() {
    for (channels, header) in [(1, 44_u32), (3, 68)] {
        let maximum_samples = (u32::MAX - (header - 8)) as usize / 2;
        assert!(validated_wav_spec(48_000, channels, maximum_samples).is_ok());
        assert!(validated_wav_spec(48_000, channels, maximum_samples + 1).is_err());
    }
}

#[test]
fn writes_pcm_audio_as_valid_wav_bytes() {
    let pcm = PcmAudio::new(44_100, 1, vec![0, 1, -1, 2, -2]).expect("pcm");
    let wav = encode_pcm_as_wav(&pcm).expect("write wav");

    assert_eq!(&wav[0..4], b"RIFF");
    assert_eq!(&wav[8..12], b"WAVE");

    let mut reader = hound::WavReader::new(Cursor::new(wav)).expect("read wav");
    assert_eq!(reader.spec().channels, 1);
    assert_eq!(reader.spec().sample_rate, 44_100);
    assert_eq!(
        reader
            .samples::<i16>()
            .collect::<Result<Vec<_>, _>>()
            .expect("samples"),
        vec![0, 1, -1, 2, -2]
    );
}

#[test]
fn wav_header_fields_must_hold_the_layout() {
    assert_eq!(
        validated_wav_spec(48_000, 2, 10),
        Ok(Pcm16WavSpec {
            sample_rate: 48_000,
            channels: 2
        })
    );
    let message = |result: Result<Pcm16WavSpec, Error>| match result {
        Err(Error::InvalidArgument { name, message }) => format!("{name}: {message}"),
        other => panic!("unexpected result: {other:?}"),
    };
    assert_eq!(
        message(validated_wav_spec(48_000, 40_000, 0)),
        "channels: Channel count exceeds the WAV block alignment limit"
    );
    assert_eq!(
        message(validated_wav_spec(u32::MAX / 4 + 1, 2, 0)),
        "sample rate: Sample rate and channel count exceed the WAV byte rate limit"
    );
    assert!(validated_wav_spec(u32::MAX / 4, 2, 0).is_ok());
    assert_eq!(
        message(validated_wav_spec(48_000, 1, usize::MAX)),
        "samples: Audio exceeds the WAV RIFF size limit"
    );
}

#[test]
fn multichannel_wav_round_trips_through_the_encoder() {
    let samples: Vec<i16> = (0..30).map(|i| (i * 1_111 - 16_000) as i16).collect();
    let pcm = PcmAudio::new(8_000, 3, samples.clone()).unwrap();
    let wav = encode_pcm_as_wav(&pcm).unwrap();
    assert_eq!(wav.len(), 68 + 2 * samples.len());
    let mut reader = hound::WavReader::new(Cursor::new(wav)).unwrap();
    assert_eq!(reader.spec().channels, 3);
    assert_eq!(
        reader.samples::<i16>().collect::<Result<Vec<_>, _>>().unwrap(),
        samples
    );
}

fn hound_bytes(rate: u32, channels: u16, samples: &[i16]) -> Vec<u8> {
    let spec = hound::WavSpec {
        channels,
        sample_rate: rate,
        bits_per_sample: 16,
        sample_format: hound::SampleFormat::Int,
    };
    let mut bytes = Vec::new();
    let mut writer = hound::WavWriter::new(Cursor::new(&mut bytes), spec).unwrap();
    for sample in samples {
        writer.write_sample(*sample).unwrap();
    }
    writer.finalize().unwrap();
    bytes
}

#[test]
fn default_layouts_match_the_hound_encoder_byte_for_byte() {
    for channels in [1_u16, 2, 3, 6, 18, 19] {
        let samples: Vec<i16> = (0..i32::from(channels) * 4)
            .map(|i| (i * 4_099 - 30_000) as i16)
            .collect();
        let pcm = PcmAudio::new(22_050, channels, samples.clone()).unwrap();
        assert_eq!(
            encode_pcm_as_wav(&pcm).unwrap(),
            hound_bytes(22_050, channels, &samples),
            "{channels} channels"
        );
    }
}

#[test]
fn wav_transcoding_preserves_speaker_positions_and_sample_order() {
    for (channels, mask) in [(6, 0x60f_u32), (1, 4), (2, 0x600)] {
        let samples: Vec<i16> = (0..channels * 3).map(|n| n as i16).collect();
        let pcm = PcmAudio::new(48_000, channels, samples.clone())
            .unwrap()
            .with_channel_mask(mask)
            .unwrap();
        let bytes = encode_pcm_as_wav(&pcm).unwrap();
        assert_eq!(bytes.len(), 68 + 2 * samples.len());
        assert_eq!(u32::from_le_bytes(bytes[40..44].try_into().unwrap()), mask);
        // The header passes the checks a WAV input goes through before demuxing.
        assert_eq!(riff_end(&bytes[0..12], 0), Ok(bytes.len() as u64));
        assert_eq!(wave_format_check(&bytes[20..36], 40), Ok(Some(channels)));
        assert_eq!(wave_mask_check(&bytes[36..44], channels), Ok(()));
        // Reading the stream back gives the same audio, which encodes to the same bytes.
        let mut reader = hound::WavReader::new(Cursor::new(bytes.clone())).unwrap();
        assert_eq!(reader.spec().channels, channels);
        assert_eq!(reader.spec().sample_rate, 48_000);
        let read: Vec<i16> = reader.samples::<i16>().collect::<Result<_, _>>().unwrap();
        assert_eq!(read, samples);
        let decoded = PcmAudio::new(48_000, channels, read)
            .unwrap()
            .with_channel_mask(u32::from_le_bytes(bytes[40..44].try_into().unwrap()))
            .unwrap();
        assert_eq!(decoded, pcm);
        let output = encode_pcm_as_wav(&decoded).unwrap();
        assert_eq!(u32::from_le_bytes(output[40..44].try_into().unwrap()), mask);
        assert_eq!(output, bytes);
    }
}
