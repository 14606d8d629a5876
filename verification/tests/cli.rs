use audiowaveform::cli::{
    resolve_render_style, resolve_request, CliArgs, CliBarStyle, CliWaveformStyle,
    RenderStyleChoice,
    is_stdio_filename, parse_decimal_u32, resolve_bits, resolve_compression, resolve_format,
    resolve_raw_audio_config, resolve_scale, select_operation, stringify_error, CliFormat,
    CliRawSampleFormat, Operation, ScaleChoice,
};
use audiowaveform::{AudioFormat, Error, RawAudioConfig, RawSampleFormat, ScaleSpec, WaveformFormat};

#[test]
fn cli_formats_come_from_paths_and_flags() {
    assert_eq!(CliFormat::from_path("a/b/song.MP3"), Ok(CliFormat::Mp3));
    assert_eq!(CliFormat::from_path("clip.m4b"), Ok(CliFormat::Mp4));
    assert_eq!(CliFormat::from_path("peaks.json"), Ok(CliFormat::Json));
    assert_eq!(CliFormat::from_path("image.png"), Ok(CliFormat::Png));
    assert_eq!(
        CliFormat::from_path("clip.w64"),
        Err("Unsupported format: w64".to_string())
    );
    assert_eq!(
        CliFormat::from_path("clip.xyz"),
        Err("Unknown file format: clip.xyz".to_string())
    );
    assert_eq!(
        CliFormat::from_path("noextension"),
        Err("Unknown file format: noextension".to_string())
    );
    assert_eq!(resolve_format(Some("x.wav"), Some(CliFormat::Raw), true), Ok(CliFormat::Raw));
    assert_eq!(resolve_format(Some("x.wav"), None, true), Ok(CliFormat::Wav));
    assert_eq!(
        resolve_format(None, None, true),
        Err("Error: Must specify either input filename or input format".to_string())
    );
    assert_eq!(
        resolve_format(None, None, false),
        Err("Error: Must specify either output filename or output format".to_string())
    );
}

#[test]
fn cli_format_classification() {
    assert!(CliFormat::Raw.is_audio_input());
    assert!(!CliFormat::Dat.is_audio_input());
    assert!(CliFormat::Dat.is_waveform_input());
    assert!(!CliFormat::Txt.is_waveform_input());
    assert_eq!(CliFormat::Ogg.as_audio_format(), Some(AudioFormat::Ogg));
    assert_eq!(CliFormat::Txt.as_waveform_format(), Some(WaveformFormat::Txt));
    assert_eq!(CliFormat::Png.as_waveform_format(), None);
    assert_eq!(CliFormat::Mkv.name(), "mkv");
    assert_eq!(CliRawSampleFormat::F32Be.into_library(), RawSampleFormat::F32Be);
}

#[test]
fn operations_follow_input_and_output_formats() {
    assert_eq!(
        select_operation(CliFormat::Mp3, CliFormat::Dat),
        Ok(Operation::Generate(WaveformFormat::Dat))
    );
    assert_eq!(
        select_operation(CliFormat::Json, CliFormat::Txt),
        Ok(Operation::Convert(WaveformFormat::Txt))
    );
    assert_eq!(select_operation(CliFormat::Raw, CliFormat::Wav), Ok(Operation::Transcode));
    assert_eq!(select_operation(CliFormat::Dat, CliFormat::Png), Ok(Operation::Render));
    assert_eq!(select_operation(CliFormat::Wav, CliFormat::Png), Ok(Operation::Render));
    assert_eq!(
        select_operation(CliFormat::Txt, CliFormat::Dat),
        Err("Can't generate dat format output from txt format input".to_string())
    );
    assert_eq!(
        select_operation(CliFormat::Png, CliFormat::Wav),
        Err("Can't generate wav format output from png format input".to_string())
    );
    assert_eq!(
        select_operation(CliFormat::Opus, CliFormat::Dat),
        Err("Unsupported format: opus".to_string())
    );
}

#[test]
fn numeric_options_are_checked() {
    assert_eq!(resolve_bits(None), Ok(None));
    assert_eq!(resolve_bits(Some(8)), Ok(Some(8)));
    assert_eq!(resolve_bits(Some(16)), Ok(Some(16)));
    assert_eq!(
        resolve_bits(Some(12)),
        Err("Error: Invalid bits: must be either 8 or 16".to_string())
    );
    assert_eq!(resolve_compression(-1), Ok(None));
    assert_eq!(resolve_compression(0), Ok(Some(0)));
    assert_eq!(resolve_compression(9), Ok(Some(9)));
    assert!(resolve_compression(10).is_err());
    assert!(resolve_compression(-2).is_err());
    assert!(is_stdio_filename(None));
    assert!(is_stdio_filename(Some("-")));
    assert!(!is_stdio_filename(Some("--")));
    assert!(!is_stdio_filename(Some("out.dat")));
    assert_eq!(
        stringify_error(Error::FeatureDisabled {
            feature: "render".to_string()
        }),
        "This build does not include it: enable the `render` Cargo feature"
    );
}

#[test]
fn scale_options_are_resolved() {
    assert_eq!(
        resolve_scale(None, None, false, 800),
        Ok(ScaleChoice::Fixed(ScaleSpec::SamplesPerPixel(256)))
    );
    assert_eq!(
        resolve_scale(Some("128"), None, false, 800),
        Ok(ScaleChoice::Fixed(ScaleSpec::SamplesPerPixel(128)))
    );
    assert_eq!(
        resolve_scale(Some("auto"), None, false, 640),
        Ok(ScaleChoice::Fixed(ScaleSpec::FitWidth {
            width_pixels: 640,
            range_frames: None
        }))
    );
    assert_eq!(
        resolve_scale(None, Some(50), false, 800),
        Ok(ScaleChoice::Fixed(ScaleSpec::PixelsPerSecond(50)))
    );
    assert_eq!(
        resolve_scale(None, None, true, 300),
        Ok(ScaleChoice::TimeRange { width_pixels: 300 })
    );
    let error = |zoom, pps, end, width| resolve_scale(zoom, pps, end, width).unwrap_err();
    assert_eq!(error(Some("2"), None, true, 1), "Specify either --end or --zoom but not both");
    assert_eq!(
        error(None, Some(1), true, 1),
        "Specify either --end or --pixels-per-second but not both"
    );
    assert_eq!(
        error(Some("2"), Some(1), false, 1),
        "Specify either --zoom or --pixels-per-second but not both"
    );
    assert_eq!(error(None, None, false, 0), "Invalid image width: minimum 1");
    assert_eq!(
        error(None, Some(0), false, 1),
        "Invalid pixels per second: must be greater than zero"
    );
    assert_eq!(
        error(Some("big"), None, false, 1),
        "Error: Invalid zoom: must be a number or 'auto'"
    );
}

#[test]
fn decimal_parsing_matches_std() {
    for text in [
        "0", "7", "+42", "00012", "4294967295", "4294967296", "", "+", "-1", "12a", " 1", "1 ",
        "99999999999999999999", "+0", "++1", "٣",
    ] {
        assert_eq!(parse_decimal_u32(text), text.parse::<u32>().ok(), "{text:?}");
    }
}

#[test]
fn raw_options_are_resolved() {
    assert_eq!(
        resolve_raw_audio_config(Some(48_000), Some(2), Some(CliRawSampleFormat::S16Le)),
        Ok(RawAudioConfig {
            sample_rate: 48_000,
            channels: 2,
            sample_format: RawSampleFormat::S16Le
        })
    );
    let error = |rate, channels, format| resolve_raw_audio_config(rate, channels, format).unwrap_err();
    let s16 = Some(CliRawSampleFormat::S16Le);
    assert_eq!(error(None, Some(1), s16), "Error: Missing --raw-samplerate option");
    assert_eq!(error(Some(1), None, s16), "Error: Missing --raw-channels option");
    assert_eq!(error(Some(1), Some(1), None), "Error: Missing --raw-format option");
    assert_eq!(
        error(Some(0), Some(1), s16),
        "Invalid input sample rate: must be greater than zero"
    );
    assert_eq!(
        error(Some(1), Some(-1), s16),
        "Invalid number of input channels: must be greater than zero"
    );
    assert_eq!(
        error(Some(1), Some(65_536), s16),
        "Invalid number of input channels: maximum 65535"
    );
}

fn args() -> CliArgs {
    CliArgs {
        input_filename: Some("in.mp3".to_string()),
        output_filename: Some("out.json".to_string()),
        input_format: None,
        output_format: None,
        bits: None,
        compression: -1,
        amplitude_error: None,
        waveform_style: CliWaveformStyle::Normal,
        bar_width: 8,
        bar_gap: 4,
        bar_style: CliBarStyle::Square,
        zoom: None,
        pixels_per_second: None,
        has_end: false,
        width: 800,
        height: 250,
        raw_sample_rate: None,
        raw_channels: None,
        raw_format: None,
        split_channels: false,
        quiet: true,
    }
}

#[test]
fn requests_are_resolved_in_order() {
    let request = resolve_request(args()).unwrap();
    assert_eq!(request.input_format, CliFormat::Mp3);
    assert_eq!(request.operation, Operation::Generate(WaveformFormat::Json));
    assert_eq!(request.scale, ScaleChoice::Fixed(ScaleSpec::SamplesPerPixel(256)));
    assert_eq!(request.input_filename.as_deref(), Some("in.mp3"));
    assert!(!request.has_resample);
    assert_eq!((request.width, request.height), (800, 250));
    assert_eq!(request.style, RenderStyleChoice::Normal);

    let first = |a: CliArgs| resolve_request(a).unwrap_err();
    assert_eq!(
        first(CliArgs { height: 0, bits: Some(3), ..args() }),
        "Invalid image height: minimum 1"
    );
    assert_eq!(
        first(CliArgs { input_filename: None, bits: Some(3), ..args() }),
        "Error: Must specify either input filename or input format"
    );
    assert_eq!(
        first(CliArgs { bits: Some(3), compression: 11, ..args() }),
        "Error: Invalid bits: must be either 8 or 16"
    );
    assert_eq!(
        first(CliArgs {
            amplitude_error: Some("Error: Invalid amplitude scale: must be a number".to_string()),
            width: 0,
            ..args()
        }),
        "Error: Invalid amplitude scale: must be a number"
    );
    assert_eq!(
        first(CliArgs {
            waveform_style: CliWaveformStyle::Bars,
            bar_width: 0,
            width: 0,
            ..args()
        }),
        "Invalid bar width: minimum 1"
    );
    assert_eq!(
        first(CliArgs {
            amplitude_error: Some("Error: Invalid amplitude scale: must be a number".to_string()),
            waveform_style: CliWaveformStyle::Bars,
            bar_width: 0,
            ..args()
        }),
        "Error: Invalid amplitude scale: must be a number"
    );
    assert_eq!(
        first(CliArgs { input_filename: Some("a.raw".into()), ..args() }),
        "Error: Missing --raw-samplerate option"
    );
    assert_eq!(
        first(CliArgs { output_filename: Some("o.mp3".into()), ..args() }),
        "Can't generate mp3 format output from mp3 format input"
    );
    let raw = resolve_request(CliArgs {
        input_filename: Some("a.raw".into()),
        output_filename: Some("o.wav".into()),
        raw_sample_rate: Some(8_000),
        raw_channels: Some(2),
        raw_format: Some(CliRawSampleFormat::U8),
        zoom: Some("64".into()),
        ..args()
    })
    .unwrap();
    assert_eq!(raw.operation, Operation::Transcode);
    assert!(raw.has_resample);
    assert_eq!(
        raw.raw_config,
        Some(RawAudioConfig {
            sample_rate: 8_000,
            channels: 2,
            sample_format: RawSampleFormat::U8
        })
    );
}

#[test]
fn bar_styles_check_width_and_gap() {
    assert_eq!(
        resolve_render_style(CliWaveformStyle::Normal, 0, -1, CliBarStyle::Square),
        Ok(RenderStyleChoice::Normal)
    );
    assert_eq!(
        resolve_render_style(CliWaveformStyle::Bars, 8, 4, CliBarStyle::Rounded),
        Ok(RenderStyleChoice::Bars { width: 8, gap: 4, style: CliBarStyle::Rounded })
    );
    assert_eq!(
        resolve_render_style(CliWaveformStyle::Bars, 1, 0, CliBarStyle::Square),
        Ok(RenderStyleChoice::Bars { width: 1, gap: 0, style: CliBarStyle::Square })
    );
    assert_eq!(
        resolve_render_style(CliWaveformStyle::Bars, 0, 4, CliBarStyle::Square).unwrap_err(),
        "Invalid bar width: minimum 1"
    );
    assert_eq!(
        resolve_render_style(CliWaveformStyle::Bars, 0, -1, CliBarStyle::Square).unwrap_err(),
        "Invalid bar width: minimum 1"
    );
    assert_eq!(
        resolve_render_style(CliWaveformStyle::Bars, 3, -1, CliBarStyle::Square).unwrap_err(),
        "Invalid bar gap: minimum 0"
    );
    let request = resolve_request(CliArgs {
        waveform_style: CliWaveformStyle::Bars,
        bar_width: 2,
        bar_gap: 1,
        bar_style: CliBarStyle::Rounded,
        ..args()
    })
    .unwrap();
    assert_eq!(
        request.style,
        RenderStyleChoice::Bars { width: 2, gap: 1, style: CliBarStyle::Rounded }
    );
}
