use audiowaveform::{
    finish_stream_generation, generate_waveform_from_pcm, DecodedInfo, Error, GenerateOptions,
    PcmAudio, PeakAccumulator, RawAudioConfig, RawBlockDecoder, RawSampleFormat, ScaleSpec,
    Waveform, WaveformPoint,
};

fn generate(samples: Vec<i16>, channels: u16, points: u32, split_channels: bool) -> Waveform {
    generate_waveform_from_pcm(
        &PcmAudio::new(48_000, channels, samples).unwrap(),
        &GenerateOptions {
            scale: ScaleSpec::Points(points),
            split_channels,
        },
    )
    .unwrap()
}

fn duration_seconds(waveform: &Waveform) -> f64 {
    match waveform.source_frames() {
        Some(frames) => frames as f64 / f64::from(waveform.sample_rate()),
        None => {
            waveform.len() as f64 * f64::from(waveform.samples_per_pixel())
                / f64::from(waveform.sample_rate())
        }
    }
}

#[test]
fn validates_pcm_audio_construction() {
    let pcm = PcmAudio::new(48_000, 2, vec![1, 2, 3, 4]).expect("pcm");
    assert_eq!(pcm.frame_count(), 2);
    assert_eq!(
        pcm.frame_count() as f64 / f64::from(pcm.sample_rate()),
        2.0 / 48_000.0
    );

    let error = PcmAudio::new(0, 1, vec![1]).expect_err("invalid sample rate");
    assert_eq!(
        error.to_string(),
        "Invalid input sample rate: must be greater than zero"
    );

    let error = PcmAudio::new(48_000, 0, vec![1]).expect_err("invalid channels");
    assert_eq!(
        error.to_string(),
        "Invalid number of input channels: must be greater than zero"
    );

    let error = PcmAudio::new(48_000, 2, vec![1, 2, 3]).expect_err("unaligned samples");
    assert_eq!(
        error.to_string(),
        "Interleaved PCM sample count must be divisible by the channel count"
    );
}

#[test]
fn speaker_masks_must_match_the_channel_count() {
    let pcm = PcmAudio::new(48_000, 2, vec![0; 4]).unwrap();
    assert_eq!(pcm.channel_mask(), Some(0b11));
    let pcm = pcm.with_channel_mask(0b101).unwrap();
    assert_eq!(pcm.channel_mask(), Some(0b101));
    assert_eq!(pcm.samples(), &[0; 4]);
    let error = PcmAudio::new(48_000, 2, vec![0; 4])
        .unwrap()
        .with_channel_mask(0b111)
        .unwrap_err();
    assert_eq!(
        error.to_string(),
        "Speaker mask must contain one supported WAV position per channel"
    );
    assert!(pcm.with_channel_mask(1 << 18 | 1).is_err());
    assert_eq!(PcmAudio::new(8_000, 19, vec![0; 19]).unwrap().channel_mask(), None);
    assert_eq!(
        PcmAudio::new(8_000, 18, vec![0; 18]).unwrap().channel_mask(),
        Some(0x3ffff)
    );
    let decoded = PcmAudio::from_decoded(8_000, 2, Some(0b110), vec![0; 2]).unwrap();
    assert_eq!(decoded.channel_mask(), Some(0b110));
    let decoded = PcmAudio::from_decoded(8_000, 2, Some(1 << 20 | 1), vec![0; 2]).unwrap();
    assert_eq!(decoded.channel_mask(), None);
    let decoded = PcmAudio::from_decoded(8_000, 2, None, vec![0; 2]).unwrap();
    assert_eq!(decoded.channel_mask(), None);
}

#[test]
fn generates_waveforms_from_pcm_for_mixed_and_split_channels() {
    let pcm = PcmAudio::new(48_000, 2, vec![100, 300, 200, 400, -100, -300, -200, -400])
        .expect("pcm");

    let mixed = generate_waveform_from_pcm(
        &pcm,
        &GenerateOptions {
            scale: ScaleSpec::SamplesPerPixel(2),
            split_channels: false,
        },
    )
    .expect("mixed waveform");
    assert_eq!(mixed.channels(), 1);
    assert_eq!(
        mixed.point(0, 0).expect("first point"),
        WaveformPoint { min: 200, max: 300 }
    );
    assert_eq!(
        mixed.point(0, 1).expect("second point"),
        WaveformPoint {
            min: -300,
            max: -200,
        }
    );
}

#[test]
fn split_channels_keep_each_channel_extrema() {
    let pcm = PcmAudio::new(48_000, 2, vec![100, 300, 200, 400, -100, -300, -200, -400])
        .expect("pcm");
    let split = generate_waveform_from_pcm(
        &pcm,
        &GenerateOptions {
            scale: ScaleSpec::SamplesPerPixel(2),
            split_channels: true,
        },
    )
    .expect("split waveform");
    assert_eq!(split.channels(), 2);
    assert_eq!(split.point(0, 0), Some(WaveformPoint { min: 100, max: 200 }));
    assert_eq!(split.point(1, 1), Some(WaveformPoint { min: -400, max: -300 }));
    assert_eq!(split.point(2, 0), None);
    assert_eq!(split.point(0, 2), None);
}

#[test]
fn resolves_scale_specifications_and_rejects_invalid_values() {
    assert_eq!(
        ScaleSpec::SamplesPerPixel(64)
            .resolve(48_000, 96_000)
            .expect("samples per pixel"),
        64
    );
    assert_eq!(
        ScaleSpec::PixelsPerSecond(100)
            .resolve(48_000, 96_000)
            .expect("pixels per second"),
        480
    );
    assert_eq!(
        ScaleSpec::FitWidth {
            width_pixels: 400,
            range_frames: Some(4 * 48_000),
        }
        .resolve(48_000, 0)
        .expect("fit width"),
        480
    );

    let error = ScaleSpec::PixelsPerSecond(0)
        .resolve(48_000, 0)
        .expect_err("invalid pixels per second");
    assert_eq!(
        error.to_string(),
        "Invalid pixels per second: must be greater than zero"
    );

    let error = ScaleSpec::FitWidth {
        width_pixels: 0,
        range_frames: None,
    }
    .resolve(48_000, 96_000)
    .expect_err("invalid width");
    assert_eq!(error.to_string(), "Invalid image width: minimum 1");

    let error = ScaleSpec::FitWidth {
        width_pixels: 100_000,
        range_frames: None,
    }
    .resolve(48_000, 96_000)
    .expect_err("zoom too small");
    assert_eq!(error.to_string(), "Invalid zoom: minimum 2");
}

#[test]
fn scale_resolution_reports_each_limit() {
    assert_eq!(ScaleSpec::Points(3).resolve(48_000, 11).unwrap(), 3);
    assert_eq!(ScaleSpec::Points(110).resolve(48_000, 0).unwrap(), 2);
    assert_eq!(
        ScaleSpec::Points(0).resolve(48_000, 1).unwrap_err().to_string(),
        "Invalid points: must be greater than zero"
    );
    assert_eq!(
        ScaleSpec::SamplesPerPixel(1).resolve(48_000, 1).unwrap_err().to_string(),
        "Invalid zoom: minimum 2"
    );
    assert_eq!(
        ScaleSpec::FitWidth {
            width_pixels: 1,
            range_frames: Some(u64::from(u32::MAX) + 1),
        }
        .resolve_frames(1, 0)
        .unwrap_err()
        .to_string(),
        "Too many source frames per pixel"
    );
    assert_eq!(
        ScaleSpec::FitWidth {
            width_pixels: 1,
            range_frames: Some(u64::from(u32::MAX)),
        }
        .resolve_frames(1, 0)
        .unwrap(),
        u32::MAX
    );
    assert_eq!(
        ScaleSpec::Points(1)
            .resolve_frames(1, u64::from(u32::MAX) + 1)
            .unwrap_err()
            .to_string(),
        "Too many source frames per point"
    );
    assert!(ScaleSpec::Points(1).needs_frame_count());
    assert!(ScaleSpec::FitWidth { width_pixels: 1, range_frames: None }.needs_frame_count());
    assert!(!ScaleSpec::FitWidth { width_pixels: 1, range_frames: Some(5) }.needs_frame_count());
    assert!(!ScaleSpec::SamplesPerPixel(2).needs_frame_count());
    assert_eq!(
        GenerateOptions::default(),
        GenerateOptions {
            scale: ScaleSpec::SamplesPerPixel(256),
            split_channels: false
        }
    );
}

#[test]
fn readme_points_example_generates_110_points() {
    let pcm = PcmAudio::new(48_000, 1, vec![512; 12_000]).unwrap();
    let options = GenerateOptions {
        scale: ScaleSpec::Points(110),
        ..Default::default()
    };
    let waveform = generate_waveform_from_pcm(&pcm, &options).unwrap();
    assert_eq!(waveform.len(), 110);
    assert_eq!(waveform.data(8).unwrap(), vec![2; 220]);
    assert_eq!(duration_seconds(&waveform), 0.25);
}

#[test]
fn exact_points_partition_all_samples_and_preserve_peaks() {
    let samples = vec![5, -100, 2, 100, 4, 5, -200, 200, 8, 9, -300];
    let waveform = generate(samples.clone(), 1, 3, false);
    assert_eq!(waveform.len(), 3);
    assert_eq!(waveform.data(16).unwrap(), [-100, 5, -200, 100, -300, 200]);
    assert_eq!(waveform.source_frames(), Some(11));
    assert_eq!(waveform.samples_per_pixel(), 3);
    assert_eq!(duration_seconds(&waveform), 11.0 / 48_000.0);
    assert_eq!(
        generate(samples, 1, 1, false).data(16).unwrap(),
        [-300, 200]
    );
}

#[test]
fn target_count_is_exact_for_non_divisible_clip_lengths() {
    let waveform = generate(vec![512; 12_000], 1, 110, false);
    assert_eq!(waveform.len(), 110);
    assert_eq!(waveform.data(8).unwrap(), vec![2; 220]);
    assert_eq!(duration_seconds(&waveform), 0.25);
}

#[test]
fn short_clips_repeat_samples_without_silence_or_losing_the_last_frame() {
    let waveform = generate(vec![-20, 40], 1, 5, false);
    assert_eq!(
        waveform.data(16).unwrap(),
        [-20, -20, -20, -20, -20, -20, 40, 40, 40, 40]
    );
    assert_eq!(duration_seconds(&waveform), 2.0 / 48_000.0);
    assert_eq!(
        generate(vec![-10], 1, 110, false).data(16).unwrap(),
        vec![-10; 220]
    );
}

#[test]
fn exact_points_support_mixing_and_splitting() {
    let samples = vec![100, -300, -200, 400, 300, -100];
    let mixed = generate(samples.clone(), 2, 2, false);
    assert_eq!(mixed.data(16).unwrap(), [-100, -100, 100, 100]);
    let split = generate(samples, 2, 2, true);
    assert_eq!(split.channels(), 2);
    assert_eq!(
        split.data(16).unwrap(),
        [100, 100, -300, -300, -200, 300, -100, 400]
    );
}

#[test]
fn empty_input_stays_empty_and_zero_points_are_rejected() {
    let empty = generate(Vec::new(), 1, 110, false);
    assert!(empty.is_empty());
    assert_eq!(duration_seconds(&empty), 0.0);
    assert!(empty.data(8).unwrap().is_empty());
    for samples in [vec![], vec![0, 0]] {
        let error = generate_waveform_from_pcm(
            &PcmAudio::new(48_000, 1, samples).unwrap(),
            &GenerateOptions {
                scale: ScaleSpec::Points(0),
                ..Default::default()
            },
        )
        .unwrap_err();
        assert_eq!(
            error.to_string(),
            "Invalid points: must be greater than zero"
        );
    }
}

#[test]
fn fixed_scales_keep_a_partial_last_point() {
    let pcm = PcmAudio::new(8_000, 1, vec![1, -2, 3, -4, 5, -6, 7, -8, 9, -10]).unwrap();
    let waveform = generate_waveform_from_pcm(
        &pcm,
        &GenerateOptions {
            scale: ScaleSpec::SamplesPerPixel(3),
            split_channels: false,
        },
    )
    .unwrap();
    assert_eq!(waveform.len(), 4);
    assert_eq!(waveform.source_frames(), None);
    assert_eq!(
        waveform.interleaved_samples(),
        &[-2, 3, -6, 5, -8, 9, -10, -10]
    );
    for index in 0..waveform.len() {
        let point = waveform.point(0, index).unwrap();
        assert!(point.min <= point.max);
    }
}

#[test]
fn mixing_rounds_the_frame_mean_toward_zero() {
    let pcm = PcmAudio::new(8_000, 3, vec![1, 1, 0, -1, -1, 0, 32767, 32767, 32767]).unwrap();
    let waveform = generate_waveform_from_pcm(
        &pcm,
        &GenerateOptions {
            scale: ScaleSpec::SamplesPerPixel(2),
            split_channels: false,
        },
    )
    .unwrap();
    assert_eq!(waveform.interleaved_samples(), &[0, 0, 32767, 32767]);
}

#[test]
fn automatic_normalization_preserves_peak_ratios_and_handles_silence() {
    for (input, expected) in [
        ([-100, 10_000], [-327, 32767]),
        ([-10_000, 100], [-32767, 327]),
        ([0, 100], [0, 32767]),
        ([-100, 0], [-32767, 0]),
        ([10, 100], [3276, 32767]),
        ([-100, -10], [-32767, -3276]),
        ([0, 0], [0, 0]),
    ] {
        let wave = Waveform::from_interleaved_samples(48_000, 256, 1, input.to_vec(), 16).unwrap();
        let scaled = wave.normalized();
        assert_eq!(scaled.interleaved_samples(), &expected, "input={input:?}");
    }
}

#[test]
fn waveform_construction_checks_channels_bits_and_length() {
    assert_eq!(
        Waveform::from_interleaved_samples(1, 2, 0, vec![], 16)
            .unwrap_err()
            .to_string(),
        "Invalid number of channels: must be greater than zero"
    );
    assert_eq!(
        Waveform::from_interleaved_samples(1, 2, 1, vec![], 12)
            .unwrap_err()
            .to_string(),
        "Invalid bits: must be either 8 or 16"
    );
    assert!(matches!(
        Waveform::from_interleaved_samples(1, 2, 2, vec![0, 0], 8),
        Err(Error::InvalidData { .. })
    ));
    let wave = Waveform::new(48_000, 2, 1).unwrap();
    assert!(wave.is_empty());
    assert!(Waveform::new(48_000, 2, 0).is_err());
    let values = Waveform::from_interleaved_samples(
        48_000,
        2,
        1,
        vec![-32768, 32767, -257, 257, -255, 255],
        16,
    )
    .unwrap();
    assert_eq!(values.data(8).unwrap(), [-128, 127, -1, 1, 0, 0]);
    assert_eq!(values.data(16).unwrap(), [-32768, 32767, -257, 257, -255, 255]);
    assert!(values.data(12).is_err());
}

#[test]
fn streaming_blocks_match_whole_buffer_generation() {
    let samples: Vec<i16> = (0..90).map(|i| ((i * 7919) % 2001 - 1000) as i16).collect();
    for scale in [ScaleSpec::Points(7), ScaleSpec::SamplesPerPixel(4)] {
        let options = GenerateOptions {
            scale,
            split_channels: true,
        };
        let pcm = PcmAudio::new(8_000, 3, samples.clone()).unwrap();
        let whole = generate_waveform_from_pcm(&pcm, &options).unwrap();
        let mut peaks = PeakAccumulator::new(8_000, 3, 30, &options).unwrap();
        for block in samples.chunks(9) {
            peaks.push(block).unwrap();
        }
        assert_eq!(peaks.finish().unwrap(), whole);
    }
}

#[test]
fn accumulators_reject_partial_frames_and_extra_frames() {
    let options = GenerateOptions {
        scale: ScaleSpec::Points(2),
        split_channels: false,
    };
    let mut peaks = PeakAccumulator::new(8_000, 2, 2, &options).unwrap();
    assert_eq!(
        peaks.push(&[1, 2, 3]).unwrap_err().to_string(),
        "Incomplete interleaved audio frame"
    );
    peaks.push(&[1, 2, 3, 4]).unwrap();
    assert_eq!(
        peaks.push(&[5, 6]).unwrap_err().to_string(),
        "Audio frame count changed between decoding passes"
    );
    let short = PeakAccumulator::new(8_000, 2, 3, &options).unwrap();
    assert_eq!(
        short.finish().unwrap_err().to_string(),
        "Audio frame count changed between decoding passes"
    );
    assert_eq!(
        PeakAccumulator::new(8_000, 0, 3, &options).err().unwrap().to_string(),
        "Invalid number of input channels"
    );
}

#[test]
fn stream_completion_checks_replayed_metadata() {
    let options = GenerateOptions {
        scale: ScaleSpec::SamplesPerPixel(2),
        split_channels: false,
    };
    let info = DecodedInfo {
        sample_rate: 8_000,
        channels: 1,
        channel_mask: Some(1),
        frames: 0,
    };
    let changed = DecodedInfo { frames: 1, ..info };
    assert_eq!(
        finish_stream_generation(Some(changed), info, None, &options)
            .unwrap_err()
            .to_string(),
        "Audio stream changed between decoding passes"
    );
    let empty = finish_stream_generation(Some(info), info, None, &options).unwrap();
    assert!(empty.is_empty());
    assert_eq!(empty.samples_per_pixel(), 2);
    let mut peaks = PeakAccumulator::new(8_000, 1, 0, &options).unwrap();
    peaks.push(&[3, -3, 4]).unwrap();
    let waveform = finish_stream_generation(None, info, Some(peaks), &options).unwrap();
    assert_eq!(waveform.interleaved_samples(), &[-3, 3, 4, 4]);
}

#[test]
fn raw_blocks_of_any_size_give_the_same_peaks_as_in_memory_pcm() {
    let samples: Vec<i16> = (0..40_010_i32)
        .map(|index| (index * 1009 % 65_536 - 32_768) as i16)
        .collect();
    let bytes: Vec<u8> = samples
        .iter()
        .flat_map(|sample| sample.to_le_bytes())
        .collect();
    let pcm = PcmAudio::new(48_000, 2, samples).unwrap();
    let config = RawAudioConfig::new(48_000, 2, RawSampleFormat::S16Le).unwrap();
    for scale in [
        ScaleSpec::SamplesPerPixel(311),
        ScaleSpec::PixelsPerSecond(100),
        ScaleSpec::Points(110),
        ScaleSpec::FitWidth {
            width_pixels: 110,
            range_frames: None,
        },
        ScaleSpec::FitWidth {
            width_pixels: 110,
            range_frames: Some(12_000),
        },
    ] {
        for split_channels in [false, true] {
            let options = GenerateOptions {
                scale,
                split_channels,
            };
            let expected = generate_waveform_from_pcm(&pcm, &options).unwrap();
            for chunk_size in [1, 7, 32_767] {
                let mut decoder = RawBlockDecoder::new(&config).unwrap();
                let mut peaks =
                    PeakAccumulator::new(48_000, 2, pcm.frame_count(), &options).unwrap();
                for chunk in bytes.chunks(chunk_size) {
                    let block = decoder.feed(chunk);
                    if !block.is_empty() {
                        peaks.push(&block).unwrap();
                    }
                }
                decoder.finish().unwrap();
                assert_eq!(
                    peaks.finish().unwrap(),
                    expected,
                    "{scale:?}, split={split_channels}, chunk={chunk_size}"
                );
            }
        }
    }
}
