//! Waveform generation core: audio format identification, PCM buffers, raw
//! sample decoding, peak aggregation, WAV header limits, and the decisions that
//! drive container decoding and the command line.
pub mod cli;
mod decode;
mod error;
mod format;
mod ieee;
mod options;
mod pcm;
mod peaks;
mod raw;
mod text;
mod wav;
mod waveform;

pub use decode::{
    riff_end, unwrap_alac_cookie, visible_samples, wave_chunk_step, wave_format_check,
    wave_mask_check, wave_scan_continues, ChunkStep, DecodeTracker, DecodedInfo,
};
pub use error::Error;
pub use format::{AudioFormat, WaveformFormat};
pub use ieee::{f32_bits_to_sample, f64_bits_to_sample};
pub use options::{invalid_generation_end_time, GenerateOptions, ScaleSpec};
pub use pcm::PcmAudio;
pub use peaks::{finish_stream_generation, generate_waveform_from_pcm, PeakAccumulator};
pub use raw::{
    decode_raw_audio_reader, parse_raw_sample, parse_raw_samples, raw_frame_count,
    raw_sample_width, sign_extend_24, RawAudioConfig, RawBlockDecoder, RawSampleFormat,
};
pub use wav::{encode_pcm_as_wav, validated_wav_spec, Pcm16WavSpec};
pub use waveform::{Waveform, WaveformPoint};
