# audiowaveform

Waveform generation from audio, with the core logic verified by Verus.

## Layout

- `src/` — the verified library.
  - `peaks.rs`: aggregation of interleaved frames into min/max points, for fixed
    scales and exact point counts, block by block; the laws on point counts, point
    ordering, the per-point formulas, and streaming against in-memory generation.
  - `raw.rs`, `ieee.rs`: raw sample formats, including exact integer conversion of
    IEEE 754 binary32/binary64 samples, and incremental raw decoding that gives the
    same samples however the input is split.
  - `pcm.rs`, `waveform.rs`, `options.rs`: PCM buffers, waveform storage and
    automatic amplitude scaling, scale resolution.
  - `decode.rs`: decisions of a container decoding pass (encoder delay, stream
    consistency), what a whole pass over decoded blocks counts and hands out, and
    the byte-level WAV header and ALAC cookie checks.
  - `wav.rs`: WAV header limits and the byte layout of 16-bit PCM WAV output,
    including the `WAVE_FORMAT_EXTENSIBLE` header that carries a speaker mask.
  - `format.rs`, `cli.rs`, `text.rs`, `error.rs`: format names, command-line
    option decisions, ASCII helpers, errors.
- `tests/` — tests of the library.
- `app/` — input and output around the library: Symphonia decoding loops, raw
  readers, WAV writers, and floating-point time ranges and amplitude factors.
