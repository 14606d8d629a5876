use audiowaveform::{AudioFormat, Error, WaveformFormat};

#[test]
fn infers_audio_formats_from_extensions_and_paths() {
    assert_eq!(AudioFormat::from_extension("mp3"), Some(AudioFormat::Mp3));
    assert_eq!(AudioFormat::from_extension("w64"), None);
    assert_eq!(AudioFormat::from_extension("oga"), Some(AudioFormat::Ogg));
    assert_eq!(AudioFormat::from_path("clip.flac"), Some(AudioFormat::Flac));
    assert_eq!(AudioFormat::from_path("clip.opus"), Some(AudioFormat::Opus));
    assert_eq!(AudioFormat::from_extension("unknown"), None);
}

#[test]
fn parses_audio_format_strings() {
    assert_eq!("wav".parse::<AudioFormat>().expect("wav"), AudioFormat::Wav);
    assert_eq!("oga".parse::<AudioFormat>().expect("oga"), AudioFormat::Ogg);

    let error = "unknown".parse::<AudioFormat>().expect_err("unsupported");
    assert_eq!(error.to_string(), "Unsupported format: unknown");
}

#[test]
fn infers_and_parses_waveform_formats() {
    assert_eq!(
        WaveformFormat::from_extension("dat"),
        Some(WaveformFormat::Dat)
    );
    assert_eq!(
        WaveformFormat::from_path("waveform.json"),
        Some(WaveformFormat::Json)
    );
    assert_eq!(
        "txt".parse::<WaveformFormat>().expect("txt"),
        WaveformFormat::Txt
    );
    assert_eq!(WaveformFormat::from_extension("png"), None);

    let error = "csv".parse::<WaveformFormat>().expect_err("unsupported");
    assert_eq!(error.to_string(), "Unsupported format: csv");
}

#[test]
fn format_names_round_trip_through_inference() {
    for format in [
        AudioFormat::Aac,
        AudioFormat::Aiff,
        AudioFormat::Caf,
        AudioFormat::Mp4,
        AudioFormat::Mkv,
        AudioFormat::Mp1,
        AudioFormat::Mp2,
        AudioFormat::Mp3,
        AudioFormat::Wav,
        AudioFormat::Flac,
        AudioFormat::Ogg,
        AudioFormat::Opus,
        AudioFormat::Raw,
    ] {
        assert_eq!(AudioFormat::from_extension(format.as_str()), Some(format));
    }
    for format in [WaveformFormat::Dat, WaveformFormat::Json, WaveformFormat::Txt] {
        assert_eq!(WaveformFormat::from_extension(format.as_str()), Some(format));
    }
}

#[test]
fn extension_case_and_aliases_are_ignored() {
    assert_eq!(AudioFormat::from_extension("M4A"), Some(AudioFormat::Mp4));
    assert_eq!(AudioFormat::from_extension("WebM"), Some(AudioFormat::Mkv));
    assert_eq!(AudioFormat::from_extension("AIFC"), Some(AudioFormat::Aiff));
    assert_eq!(AudioFormat::from_extension("Adts"), Some(AudioFormat::Aac));
    assert_eq!(WaveformFormat::from_extension("JSON"), Some(WaveformFormat::Json));
    assert_eq!(AudioFormat::from_path("dir.mp3/clip"), None);
    assert_eq!(AudioFormat::from_path("CLIP.MP3"), Some(AudioFormat::Mp3));
    assert_eq!(AudioFormat::from_path("noextension"), None);
}

#[test]
fn only_opus_is_reported_as_unsupported() {
    assert!(AudioFormat::Mp3.ensure_enabled().is_ok());
    assert!(AudioFormat::Raw.ensure_enabled().is_ok());
    match AudioFormat::Opus.ensure_enabled() {
        Err(Error::UnsupportedFormat { format }) => assert_eq!(format, "opus"),
        other => panic!("unexpected result: {other:?}"),
    }
}

#[test]
fn wave64_is_explicitly_unsupported() {
    assert_eq!(AudioFormat::from_extension("W64"), None);
    // Format rejection happens before trying to open even a missing file.
    assert!(matches!(AudioFormat::require_from_path("unsupported.w64"),
        Err(Error::UnsupportedFormat { format }) if format == "w64"));
    assert!(matches!(AudioFormat::require_from_path("noextension"),
        Err(Error::UnsupportedFormat { format }) if format.is_empty()));
    assert_eq!(AudioFormat::require_from_path("a.FLAC").unwrap(), AudioFormat::Flac);
}
