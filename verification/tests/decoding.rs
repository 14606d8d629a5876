use audiowaveform::{
    riff_end, unwrap_alac_cookie, visible_samples, wave_chunk_step, wave_format_check,
    wave_mask_check, wave_scan_continues, ChunkStep, DecodeTracker, DecodedInfo, Error,
};

#[test]
fn encoder_delay_is_skipped_before_frames_are_counted() {
    let mut tracker = DecodeTracker::new(Some(44_100), Some(2), Some(0b11), Some(1_500));
    assert_eq!(tracker.on_block(44_100, 2, 0b11, 1_024).unwrap(), 1_024);
    assert_eq!(tracker.frames, 0);
    assert_eq!(tracker.delay_remaining, 476);
    assert_eq!(tracker.on_block(44_100, 2, 0b11, 1_024).unwrap(), 476);
    assert_eq!(tracker.frames, 548);
    assert_eq!(tracker.delay_remaining, 0);
    assert_eq!(tracker.on_block(44_100, 2, 0b11, 10).unwrap(), 0);
    assert_eq!(
        tracker.finish().unwrap(),
        DecodedInfo {
            sample_rate: 44_100,
            channels: 2,
            channel_mask: Some(0b11),
            frames: 558,
        }
    );
}

#[test]
fn decoded_stream_changes_are_rejected() {
    let mut tracker = DecodeTracker::new(None, None, None, None);
    assert_eq!(
        tracker.on_block(0, 1, 1, 5).unwrap_err().to_string(),
        "Invalid decoded audio sample rate or channel count"
    );
    tracker.on_block(48_000, 1, 0b100, 0).unwrap();
    tracker.on_block(44_100, 2, 0b11, 3).unwrap();
    assert_eq!(
        tracker.on_block(48_000, 2, 0b11, 3).unwrap_err().to_string(),
        "Audio stream changes sample rate or channel layout"
    );
    assert_eq!(
        tracker.on_block(44_100, 2, 0b110, 3).unwrap_err().to_string(),
        "Audio stream changes sample rate or channel layout"
    );
    let mut full = DecodeTracker::new(Some(1), Some(1), None, None);
    full.frames = usize::MAX;
    assert_eq!(
        full.on_block(1, 1, 1, 1).unwrap_err().to_string(),
        "Audio frame count is too large"
    );
}

#[test]
fn missing_stream_metadata_is_reported() {
    match DecodeTracker::new(None, Some(2), None, None).finish() {
        Err(Error::MissingMetadata { name }) => assert_eq!(name, "sample_rate"),
        other => panic!("unexpected result: {other:?}"),
    }
    match DecodeTracker::new(Some(8_000), None, None, None).finish() {
        Err(Error::MissingMetadata { name }) => assert_eq!(name, "channels"),
        other => panic!("unexpected result: {other:?}"),
    }
    assert_eq!(
        DecodeTracker::new(Some(0), Some(1), None, None)
            .finish()
            .unwrap_err()
            .to_string(),
        "Invalid decoded audio sample rate or channel count"
    );
    assert_eq!(
        DecodeTracker::new(Some(8_000), Some(1), None, None)
            .finish()
            .unwrap()
            .frames,
        0
    );
}

fn riff(len: u32) -> Vec<u8> {
    let mut header = b"RIFF".to_vec();
    header.extend(len.to_le_bytes());
    header.extend(b"WAVE");
    header
}

fn chunk(tag: &[u8; 4], len: u32) -> Vec<u8> {
    let mut bytes = tag.to_vec();
    bytes.extend(len.to_le_bytes());
    bytes
}

#[test]
fn wave_headers_are_checked_before_demuxing() {
    assert_eq!(riff_end(&riff(100), 0), Ok(108));
    assert_eq!(riff_end(&riff(100), 16), Ok(124));
    assert_eq!(riff_end(&riff(u32::MAX), u64::MAX - 10), Err("wav: invalid RIFF size"));
    let mut bad = riff(4);
    bad[8] = b'X';
    assert_eq!(riff_end(&bad, 0), Err("wav: invalid RIFF/WAVE header"));

    assert_eq!(wave_chunk_step(&chunk(b"data", 1_000), 20, 40), Ok(ChunkStep::Data));
    assert_eq!(
        wave_chunk_step(&chunk(b"LIST", 5), 20, 40),
        Ok(ChunkStep::Skip { next: 26 })
    );
    assert_eq!(
        wave_chunk_step(&chunk(b"LIST", 30), 20, 40),
        Err("wav: chunk exceeds RIFF size")
    );
    assert_eq!(
        wave_chunk_step(&chunk(b"fmt ", 16), 20, 40),
        Ok(ChunkStep::Format { len: 16, next: 36 })
    );
    assert_eq!(
        wave_chunk_step(&chunk(b"fmt ", 14), 20, 40),
        Err("wav: incomplete format chunk")
    );
    assert_eq!(
        wave_chunk_step(&chunk(b"data", 8), u64::MAX - 4, u64::MAX),
        Err("wav: invalid chunk size")
    );
}

fn fmt(tag: u16, channels: u16) -> Vec<u8> {
    let mut bytes = tag.to_le_bytes().to_vec();
    bytes.extend(channels.to_le_bytes());
    bytes.extend([0; 12]);
    bytes
}

#[test]
fn wave_channel_layouts_are_checked_before_demuxing() {
    assert_eq!(wave_format_check(&fmt(1, 2), 16), Ok(None));
    assert_eq!(wave_format_check(&fmt(0xfffe, 3), 40), Ok(Some(3)));
    assert_eq!(
        wave_format_check(&fmt(0xfffe, 3), 18),
        Err("wav: incomplete extensible format chunk")
    );
    for channels in [0, 19] {
        assert_eq!(
            wave_format_check(&fmt(1, channels), 16),
            Err("wav: unsupported channel count (expected 1..=18)")
        );
    }
    let extension = |mask: u32| {
        let mut bytes = vec![22, 0, 16, 0];
        bytes.extend(mask.to_le_bytes());
        bytes
    };
    assert_eq!(wave_mask_check(&extension(0), 3), Ok(()));
    assert_eq!(wave_mask_check(&extension(0b1011), 3), Ok(()));
    assert_eq!(
        wave_mask_check(&extension(0b11), 3),
        Err("wav: channel mask does not match supported speaker layout")
    );
    assert_eq!(
        wave_mask_check(&extension(1 << 18 | 0b11), 3),
        Err("wav: channel mask does not match supported speaker layout")
    );
}

#[test]
fn wrapped_alac_cookies_are_unwrapped() {
    let wrapper = b"\x00\x00\x00\x0cfrmaalac\x00\x00\x00\x24alac\x00\x00\x00\x00";
    let payload: Vec<u8> = (1..=24).collect();
    let mut cookie = wrapper.to_vec();
    cookie.extend(&payload);
    assert_eq!(unwrap_alac_cookie(&cookie), Some(payload.clone()));
    assert_eq!(unwrap_alac_cookie(&payload), None);
    cookie.push(0);
    assert_eq!(unwrap_alac_cookie(&cookie), None);
    let mut altered = wrapper.to_vec();
    altered[5] = b'x';
    altered.extend(&payload);
    assert_eq!(unwrap_alac_cookie(&altered), None);
}

#[test]
fn visited_samples_leave_out_exactly_the_encoder_delay() {
    // Three stereo blocks of 4, 3 and 5 frames, with a delay of 5 frames.
    let blocks: Vec<Vec<i16>> = vec![
        (0..8).collect(),
        (100..106).collect(),
        (200..210).collect(),
    ];
    let mut tracker = DecodeTracker::new(None, None, None, Some(5));
    // An empty mono block before the stream settles hands out nothing and counts nothing.
    assert_eq!(tracker.on_block(16_000, 1, 0b100, 0).unwrap(), 0);
    let mut visited = Vec::new();
    for block in &blocks {
        let frames = block.len() / 2;
        let skip = tracker.on_block(16_000, 2, 0b11, frames).unwrap();
        if let Some(samples) = visible_samples(block, skip, 2) {
            visited.extend_from_slice(samples);
        }
    }
    let whole: Vec<i16> = blocks.concat();
    assert_eq!(visited, whole[5 * 2..].to_vec());
    let info = tracker.finish().unwrap();
    assert_eq!(info.frames, 12 - 5);
    assert_eq!(visited.len(), info.frames * 2);
    assert_eq!(tracker.delay_remaining, 0);

    // A delay longer than the stream leaves nothing and counts nothing.
    let mut tracker = DecodeTracker::new(None, None, None, Some(50));
    for block in &blocks {
        assert_eq!(tracker.on_block(16_000, 2, 0b11, block.len() / 2).unwrap(), block.len() / 2);
    }
    assert_eq!(tracker.frames, 0);
    assert_eq!(tracker.delay_remaining, 38);
}

fn hound_wav(channels: u16, frames: usize) -> Vec<u8> {
    let mut output = std::io::Cursor::new(Vec::new());
    let mut writer = hound::WavWriter::new(
        &mut output,
        hound::WavSpec {
            channels,
            sample_rate: 48_000,
            bits_per_sample: 16,
            sample_format: hound::SampleFormat::Int,
        },
    )
    .unwrap();
    for sample in 0..usize::from(channels) * frames {
        writer.write_sample(sample as i16).unwrap();
    }
    writer.finalize().unwrap();
    output.into_inner()
}

#[test]
fn external_wav_channel_masks_are_checked_before_demuxing() {
    for channels in [18, 19, 24, 32, 49, 50] {
        let input = hound_wav(channels, 2);
        let checked = wave_format_check(&input[20..36], 40);
        if channels <= 18 {
            assert_eq!(checked, Ok(Some(channels)));
            assert_eq!(wave_mask_check(&input[36..44], channels), Ok(()));
        } else {
            assert!(checked.is_err(), "channels={channels}");
        }
    }
    for mask in [1_u32, 0x80000000, 0xffffffff] {
        let mut input = hound_wav(6, 2);
        input[40..44].copy_from_slice(&mask.to_le_bytes());
        assert_eq!(wave_format_check(&input[20..36], 40), Ok(Some(6)));
        assert!(wave_mask_check(&input[36..44], 6).is_err());
    }
}

#[test]
fn only_frames_after_the_delay_are_visited() {
    let block: Vec<i16> = (0..12).collect();
    assert_eq!(visible_samples(&block, 0, 2), Some(&block[..]));
    assert_eq!(visible_samples(&block, 2, 2), Some(&block[4..]));
    assert_eq!(visible_samples(&block, 5, 2), Some(&block[10..]));
    assert_eq!(visible_samples(&block, 6, 2), None);
    assert_eq!(visible_samples(&block, 4, 3), None);
    assert_eq!(visible_samples(&[], 0, 2), None);
}

#[test]
fn wave_scan_stops_when_no_chunk_header_fits() {
    assert!(wave_scan_continues(12, 20));
    assert!(!wave_scan_continues(13, 20));
    assert!(wave_scan_continues(0, 8));
    assert!(!wave_scan_continues(0, 7));
    assert!(!wave_scan_continues(u64::MAX - 3, u64::MAX - 1));
    assert!(wave_scan_continues(u64::MAX - 3, u64::MAX));
}
