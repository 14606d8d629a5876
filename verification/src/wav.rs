use vstd::prelude::*;

use crate::error::Error;

use crate::decode::{data_tag, fmt_tag, riff_tag, wave_tag};
use crate::pcm::{default_speaker_mask, low_mask, PcmAudio};

verus! {

/// The layout of a 16-bit integer PCM WAV stream.
#[derive(Clone, Copy, Debug, PartialEq, Eq)]
pub struct Pcm16WavSpec {
    /// Samples per second.
    pub sample_rate: u32,
    /// Interleaved channels.
    pub channels: u16,
}

/// Size of the header that the encoder writes: the extensible format for more than two
/// channels, otherwise the plain PCM format.
pub open spec fn wav_header_size(channels: u16) -> int {
    if channels > 2 {
        68
    } else {
        44
    }
}

/// The argument error (name and message) for a WAV layout whose header fields cannot
/// hold these values, if any.
pub open spec fn wav_spec_error(sample_rate: u32, channels: u16, samples: int) -> Option<
    (Seq<char>, Seq<char>),
> {
    if 2 * channels > u16::MAX {
        Some(("channels"@, "Channel count exceeds the WAV block alignment limit"@))
    } else if sample_rate * (2 * channels) > u32::MAX {
        Some(("sample rate"@, "Sample rate and channel count exceed the WAV byte rate limit"@))
    } else if 2 * samples + wav_header_size(channels) - 8 > u32::MAX {
        Some(("samples"@, "Audio exceeds the WAV RIFF size limit"@))
    } else {
        None
    }
}

/// Checks that a 16-bit WAV header can describe `samples` interleaved samples at this
/// rate and channel count: block alignment, byte rate, and RIFF size must fit their fields.
pub fn validated_wav_spec(sample_rate: u32, channels: u16, samples: usize) -> (r: Result<
    Pcm16WavSpec,
    Error,
>)
    ensures
        match wav_spec_error(sample_rate, channels, samples as int) {
            Some(e) => r matches Err(Error::InvalidArgument { name, message }) && name@ == e.0
                && message@ == e.1,
            None => r == Ok::<Pcm16WavSpec, Error>(Pcm16WavSpec { sample_rate, channels }),
        },
{
    let block_align = match channels.checked_mul(2) {
        Some(b) => b,
        None => {
            return Err(
                Error::invalid_argument(
                    "channels",
                    "Channel count exceeds the WAV block alignment limit",
                ),
            );
        },
    };
    if sample_rate.checked_mul(block_align as u32).is_none() {
        return Err(
            Error::invalid_argument(
                "sample rate",
                "Sample rate and channel count exceed the WAV byte rate limit",
            ),
        );
    }
    let header_size: u64 = if channels > 2 {
        68
    } else {
        44
    };
    if samples as u128 * 2 + (header_size as u128 - 8) > u32::MAX as u128 {
        return Err(Error::invalid_argument("samples", "Audio exceeds the WAV RIFF size limit"));
    }
    Ok(Pcm16WavSpec { sample_rate, channels })
}

/// Little-endian bytes of a 16-bit value.
pub open spec fn u16_le(v: int) -> Seq<u8> {
    seq![(v % 0x100) as u8, ((v / 0x100) % 0x100) as u8]
}

/// Little-endian bytes of a 32-bit value.
pub open spec fn u32_le(v: int) -> Seq<u8> {
    seq![
        (v % 0x100) as u8,
        ((v / 0x100) % 0x100) as u8,
        ((v / 0x1_0000) % 0x100) as u8,
        ((v / 0x100_0000) % 0x100) as u8,
    ]
}

/// The `KSDATAFORMAT_SUBTYPE_PCM` GUID of the extensible format.
pub open spec fn pcm_subformat() -> Seq<u8> {
    seq![0x01u8, 0x00, 0x00, 0x00, 0x00, 0x00, 0x10, 0x00, 0x80, 0x00, 0x00, 0xaa, 0x00, 0x38, 0x9b, 0x71]
}

/// The speaker mask that a stream of `channels` channels gets when none is known: the
/// lowest bits, at most the 18 defined positions.
pub open spec fn default_wav_mask(channels: u16) -> int {
    if channels <= 18 {
        low_mask(channels as nat) as int
    } else {
        low_mask(18) as int
    }
}

/// The speaker mask written for a buffer.
pub open spec fn wav_mask(channels: u16, mask: Option<u32>) -> int {
    match mask {
        Some(m) => m as int,
        None => default_wav_mask(channels),
    }
}

/// Whether the stream uses the extensible format: for more than two channels, or when
/// the speaker mask is not the default one, which only that format can record.
pub open spec fn uses_extensible(channels: u16, mask: Option<u32>) -> bool {
    channels > 2 || wav_mask(channels, mask) != default_wav_mask(channels)
}

/// Size of the header written for a buffer.
pub open spec fn encoded_header_size(channels: u16, mask: Option<u32>) -> int {
    if uses_extensible(channels, mask) {
        68
    } else {
        44
    }
}

/// The header of a 16-bit WAV stream with `data_len` bytes of samples: `RIFF` chunk,
/// `fmt ` chunk (plain PCM, or extensible with the speaker mask), and `data` chunk header.
pub open spec fn wav_header(rate: u32, channels: u16, mask: Option<u32>, data_len: int) -> Seq<u8> {
    let block = 2 * channels;
    if uses_extensible(channels, mask) {
        riff_tag() + u32_le(60 + data_len) + wave_tag() + fmt_tag() + u32_le(40) + u16_le(0xfffe)
            + u16_le(channels as int) + u32_le(rate as int) + u32_le(rate * block) + u16_le(block)
            + u16_le(16) + u16_le(22) + u16_le(16) + u32_le(wav_mask(channels, mask))
            + pcm_subformat() + data_tag() + u32_le(data_len)
    } else {
        riff_tag() + u32_le(36 + data_len) + wave_tag() + fmt_tag() + u32_le(16) + u16_le(1)
            + u16_le(channels as int) + u32_le(rate as int) + u32_le(rate * block) + u16_le(block)
            + u16_le(16) + data_tag() + u32_le(data_len)
    }
}

/// The two's-complement 16-bit pattern of a sample.
pub open spec fn sample_pattern(v: i16) -> int {
    if v < 0 {
        v + 0x1_0000
    } else {
        v as int
    }
}

/// Samples as little-endian 16-bit values.
pub open spec fn sample_bytes(samples: Seq<i16>) -> Seq<u8> {
    Seq::new(
        2 * samples.len(),
        |i: int|
            if i % 2 == 0 {
                (sample_pattern(samples[i / 2]) % 0x100) as u8
            } else {
                (sample_pattern(samples[i / 2]) / 0x100) as u8
            },
    )
}

/// The complete 16-bit WAV stream of a buffer.
pub open spec fn pcm16_wav_bytes(rate: u32, channels: u16, mask: Option<u32>, samples: Seq<i16>) -> Seq<u8> {
    wav_header(rate, channels, mask, 2 * (samples.len() as int)) + sample_bytes(samples)
}

/// The argument error for a buffer whose WAV header fields cannot hold its values, if any:
/// the layout checks, with the RIFF size taken for the header actually written.
pub open spec fn wav_encode_error(rate: u32, channels: u16, mask: Option<u32>, samples: int) -> Option<
    (Seq<char>, Seq<char>),
> {
    match wav_spec_error(rate, channels, samples) {
        Some(e) => Some(e),
        None => if 2 * samples + encoded_header_size(channels, mask) - 8 > u32::MAX {
            Some(("samples"@, "Audio exceeds the WAV RIFF size limit"@))
        } else {
            None
        },
    }
}

/// Appends a little-endian 16-bit value.
fn push_u16(out: &mut Vec<u8>, v: u16)
    ensures
        final(out)@ == old(out)@ + u16_le(v as int),
{
    out.push((v % 0x100) as u8);
    out.push((v / 0x100) as u8);
    proof {
        assert(final(out)@ =~= old(out)@ + u16_le(v as int));
    }
}

/// Appends a little-endian 32-bit value.
fn push_u32(out: &mut Vec<u8>, v: u32)
    ensures
        final(out)@ == old(out)@ + u32_le(v as int),
{
    out.push((v % 0x100) as u8);
    out.push(((v / 0x100) % 0x100) as u8);
    out.push(((v / 0x1_0000) % 0x100) as u8);
    out.push((v / 0x100_0000) as u8);
    proof {
        assert(final(out)@ =~= old(out)@ + u32_le(v as int));
    }
}

/// Appends four bytes.
fn push_tag(out: &mut Vec<u8>, a: u8, b: u8, c: u8, d: u8)
    ensures
        final(out)@ == old(out)@ + seq![a, b, c, d],
{
    out.push(a);
    out.push(b);
    out.push(c);
    out.push(d);
    proof {
        assert(final(out)@ =~= old(out)@ + seq![a, b, c, d]);
    }
}

/// Writes the header for a validated layout.
fn write_header(rate: u32, channels: u16, mask: Option<u32>, data_len: u32, extensible: bool, mask_value: u32) -> (out: Vec<u8>)
    requires
        extensible == uses_extensible(channels, mask),
        mask_value == wav_mask(channels, mask),
        2 * channels <= u16::MAX,
        rate * (2 * channels) <= u32::MAX,
        data_len + (if extensible { 60int } else { 36int }) <= u32::MAX,
    ensures
        out@ == wav_header(rate, channels, mask, data_len as int),
{
    let block: u16 = 2 * channels;
    let mut out: Vec<u8> = Vec::new();
    push_tag(&mut out, 82, 73, 70, 70);
    push_u32(&mut out, if extensible { 60 + data_len } else { 36 + data_len });
    push_tag(&mut out, 87, 65, 86, 69);
    push_tag(&mut out, 102, 109, 116, 32);
    push_u32(&mut out, if extensible { 40 } else { 16 });
    push_u16(&mut out, if extensible { 0xfffe } else { 1 });
    push_u16(&mut out, channels);
    push_u32(&mut out, rate);
    push_u32(&mut out, rate * (block as u32));
    push_u16(&mut out, block);
    push_u16(&mut out, 16);
    if extensible {
        push_u16(&mut out, 22);
        push_u16(&mut out, 16);
        push_u32(&mut out, mask_value);
        let guid: [u8; 16] = [0x01, 0x00, 0x00, 0x00, 0x00, 0x00, 0x10, 0x00, 0x80, 0x00, 0x00, 0xaa, 0x00, 0x38, 0x9b, 0x71];
        let ghost before = out@;
        let mut i: usize = 0;
        while i < 16
            invariant
                i <= 16,
                guid@ == pcm_subformat(),
                out@ == before + pcm_subformat().subrange(0, i as int),
            decreases 16 - i,
        {
            out.push(guid[i]);
            i = i + 1;
            proof {
                assert(out@ =~= before + pcm_subformat().subrange(0, i as int));
            }
        }
        proof {
            assert(guid@ =~= pcm_subformat()) by {
                assert(guid@ =~= pcm_subformat());
            }
            assert(pcm_subformat().subrange(0, 16) =~= pcm_subformat());
        }
    }
    push_tag(&mut out, 100, 97, 116, 97);
    push_u32(&mut out, data_len);
    out
}

/// Encodes PCM audio as a 16-bit WAV stream after validating its header limits. The
/// speaker mask is kept: a buffer whose mask is not the default one, or with more than
/// two channels, is written in the extensible format with that mask.
pub fn encode_pcm_as_wav(pcm: &PcmAudio) -> (r: Result<Vec<u8>, Error>)
    ensures
        match wav_encode_error(
            pcm@.sample_rate,
            pcm@.channels,
            pcm@.channel_mask,
            pcm@.samples.len() as int,
        ) {
            Some(e) => r matches Err(Error::InvalidArgument { name, message }) && name@ == e.0
                && message@ == e.1,
            None => r matches Ok(bytes) && bytes@ == pcm16_wav_bytes(
                pcm@.sample_rate,
                pcm@.channels,
                pcm@.channel_mask,
                pcm@.samples,
            ),
        },
{
    let samples = pcm.samples();
    let rate = pcm.sample_rate();
    let channels = pcm.channels();
    validated_wav_spec(rate, channels, samples.len())?;
    let default_mask: u32 = if channels <= 18 {
        default_speaker_mask(channels)
    } else {
        default_speaker_mask(18)
    };
    let mask = pcm.channel_mask();
    let mask_value: u32 = match mask {
        Some(m) => m,
        None => default_mask,
    };
    let extensible = channels > 2 || mask_value != default_mask;
    if extensible && samples.len() as u128 * 2 + 60 > u32::MAX as u128 {
        return Err(Error::invalid_argument("samples", "Audio exceeds the WAV RIFF size limit"));
    }
    let data_len: u32 = (samples.len() * 2) as u32;
    let mut out = write_header(rate, channels, mask, data_len, extensible, mask_value);
    let ghost header = out@;
    let mut i: usize = 0;
    while i < samples.len()
        invariant
            i <= samples@.len(),
            out@ == header + sample_bytes(samples@.subrange(0, i as int)),
        decreases samples@.len() - i,
    {
        let v = samples[i];
        let pattern: u32 = if v < 0 {
            (v as i32 + 0x1_0000) as u32
        } else {
            v as u32
        };
        out.push((pattern % 0x100) as u8);
        out.push((pattern / 0x100) as u8);
        i = i + 1;
        proof {
            assert(out@ =~= header + sample_bytes(samples@.subrange(0, i as int)));
        }
    }
    proof {
        assert(samples@.subrange(0, samples@.len() as int) =~= samples@);
    }
    Ok(out)
}

} // verus!

verus! {

proof fn lemma_u32_le_reads_back(v: int)
    requires
        0 <= v < 0x1_0000_0000,
    ensures
        crate::raw::le32(u32_le(v), 0) == v,
{
    let x = v as u32;
    assert((x % 0x100) + 0x100 * ((x / 0x100) % 0x100) + 0x1_0000 * ((x / 0x1_0000) % 0x100)
        + 0x100_0000 * ((x / 0x100_0000) % 0x100) == x) by (bit_vector);
}

proof fn lemma_u16_le_reads_back(v: int)
    requires
        0 <= v < 0x1_0000,
    ensures
        crate::decode::le16(u16_le(v), 0) == v,
{
    let x = v as u16;
    assert((x % 0x100) + 0x100 * ((x / 0x100) % 0x100) == x) by (bit_vector);
}

/// Reading a little-endian 32-bit field back from the middle of a byte string.
proof fn lemma_read_u32(pre: Seq<u8>, v: int, post: Seq<u8>)
    requires
        0 <= v < 0x1_0000_0000,
    ensures
        crate::raw::le32(pre + u32_le(v) + post, pre.len() as int) == v,
{
    lemma_u32_le_reads_back(v);
    let b = pre + u32_le(v) + post;
    let k = pre.len() as int;
    assert(b[k] == u32_le(v)[0] && b[k + 1] == u32_le(v)[1] && b[k + 2] == u32_le(v)[2] && b[k
        + 3] == u32_le(v)[3]);
}

/// Reading a little-endian 16-bit field back from the middle of a byte string.
proof fn lemma_read_u16(pre: Seq<u8>, v: int, post: Seq<u8>)
    requires
        0 <= v < 0x1_0000,
    ensures
        crate::decode::le16(pre + u16_le(v) + post, pre.len() as int) == v,
{
    lemma_u16_le_reads_back(v);
    let b = pre + u16_le(v) + post;
    let k = pre.len() as int;
    assert(b[k] == u16_le(v)[0] && b[k + 1] == u16_le(v)[1]);
}

/// Finding a fixed tag back in the middle of a byte string.
proof fn lemma_read_tag(pre: Seq<u8>, t: Seq<u8>, post: Seq<u8>)
    ensures
        (pre + t + post).subrange(pre.len() as int, (pre.len() + t.len()) as int) == t,
{
    assert((pre + t + post).subrange(pre.len() as int, (pre.len() + t.len()) as int) =~= t);
}

/// A 32-bit read inside the left part of a concatenation reads the left part.
proof fn lemma_le32_left(x: Seq<u8>, y: Seq<u8>, i: int)
    requires
        0 <= i,
        i + 4 <= x.len(),
    ensures
        crate::raw::le32(x + y, i) == crate::raw::le32(x, i),
{
}

/// A 32-bit read where the right part of a concatenation starts reads the right part.
proof fn lemma_le32_right(x: Seq<u8>, y: Seq<u8>)
    requires
        4 <= y.len(),
    ensures
        crate::raw::le32(x + y, x.len() as int) == crate::raw::le32(y, 0),
{
}

/// A 16-bit read inside the left part of a concatenation reads the left part.
proof fn lemma_le16_left(x: Seq<u8>, y: Seq<u8>, i: int)
    requires
        0 <= i,
        i + 2 <= x.len(),
    ensures
        crate::decode::le16(x + y, i) == crate::decode::le16(x, i),
{
}

/// A 16-bit read where the right part of a concatenation starts reads the right part.
proof fn lemma_le16_right(x: Seq<u8>, y: Seq<u8>)
    requires
        2 <= y.len(),
    ensures
        crate::decode::le16(x + y, x.len() as int) == crate::decode::le16(y, 0),
{
}

/// A slice inside the left part of a concatenation is a slice of the left part.
proof fn lemma_slice_left(x: Seq<u8>, y: Seq<u8>, i: int, j: int)
    requires
        0 <= i <= j <= x.len(),
    ensures
        (x + y).subrange(i, j) == x.subrange(i, j),
{
    assert((x + y).subrange(i, j) =~= x.subrange(i, j));
}

/// The right part of a concatenation, sliced back out.
proof fn lemma_slice_right(x: Seq<u8>, y: Seq<u8>)
    ensures
        (x + y).subrange(x.len() as int, (x.len() + y.len()) as int) == y,
{
    assert((x + y).subrange(x.len() as int, (x.len() + y.len()) as int) =~= y);
}

/// The fields of a WAV header, read back with the little-endian readers.
proof fn lemma_header_fields(rate: u32, channels: u16, mask: Option<u32>, d: int)
    requires
        0 <= d,
        wav_spec_error(rate, channels, d / 2) is None,
        d + encoded_header_size(channels, mask) - 8 <= u32::MAX,
    ensures
        ({
            let hd = wav_header(rate, channels, mask, d);
            let h = encoded_header_size(channels, mask);
            &&& hd.len() == h
            &&& hd.subrange(0, 4) == riff_tag()
            &&& crate::raw::le32(hd, 4) == h - 8 + d
            &&& hd.subrange(8, 12) == wave_tag()
            &&& hd.subrange(12, 16) == fmt_tag()
            &&& crate::decode::le16(hd, 20) == (if h == 44 {
                1int
            } else {
                0xfffe
            })
            &&& crate::decode::le16(hd, 22) == channels
            &&& crate::raw::le32(hd, 24) == rate
            &&& crate::raw::le32(hd, 28) == rate * channels * 2
            &&& crate::decode::le16(hd, 32) == channels * 2
            &&& crate::decode::le16(hd, 34) == 16
            &&& h == 68 ==> crate::raw::le32(hd, 40) == wav_mask(channels, mask)
            &&& hd.subrange(h - 8, h - 4) == data_tag()
            &&& crate::raw::le32(hd, h - 4) == d
        }),
{
    if uses_extensible(channels, mask) {
        lemma_extensible_header_fields(rate, channels, mask, d);
    } else {
        lemma_plain_header_fields(rate, channels, mask, d);
    }
}

#[verifier::rlimit(40)]
proof fn lemma_plain_header_fields(rate: u32, channels: u16, mask: Option<u32>, d: int)
    requires
        0 <= d,
        !uses_extensible(channels, mask),
        wav_spec_error(rate, channels, d / 2) is None,
        d + 36 <= u32::MAX,
    ensures
        ({
            let hd = wav_header(rate, channels, mask, d);
            &&& hd.len() == 44
            &&& hd.subrange(0, 4) == riff_tag()
            &&& crate::raw::le32(hd, 4) == 36 + d
            &&& hd.subrange(8, 12) == wave_tag()
            &&& hd.subrange(12, 16) == fmt_tag()
            &&& crate::decode::le16(hd, 20) == 1
            &&& crate::decode::le16(hd, 22) == channels
            &&& crate::raw::le32(hd, 24) == rate
            &&& crate::raw::le32(hd, 28) == rate * channels * 2
            &&& crate::decode::le16(hd, 32) == channels * 2
            &&& crate::decode::le16(hd, 34) == 16
            &&& hd.subrange(36, 40) == data_tag()
            &&& crate::raw::le32(hd, 40) == d
        }),
{
    assert(rate * (2 * channels) == rate * channels * 2) by (nonlinear_arith);
    let block = 2 * channels;
    let hd = wav_header(rate, channels, mask, d);
    lemma_u32_le_reads_back(36 + d);
    lemma_u32_le_reads_back(rate as int);
    lemma_u32_le_reads_back(rate * block);
    lemma_u32_le_reads_back(d);
    lemma_u16_le_reads_back(1);
    lemma_u16_le_reads_back(channels as int);
    lemma_u16_le_reads_back(block as int);
    lemma_u16_le_reads_back(16);
    let x0 = riff_tag();
    let x1 = u32_le(36 + d);
    let x2 = wave_tag();
    let x3 = fmt_tag();
    let x4 = u32_le(16);
    let x5 = u16_le(1);
    let x6 = u16_le(channels as int);
    let x7 = u32_le(rate as int);
    let x8 = u32_le(rate * block);
    let x9 = u16_le(block as int);
    let x10 = u16_le(16);
    let x11 = data_tag();
    let x12 = u32_le(d);
    let q0 = x0;
    let q1 = q0 + x1;
    let q2 = q1 + x2;
    let q3 = q2 + x3;
    let q4 = q3 + x4;
    let q5 = q4 + x5;
    let q6 = q5 + x6;
    let q7 = q6 + x7;
    let q8 = q7 + x8;
    let q9 = q8 + x9;
    let q10 = q9 + x10;
    let q11 = q10 + x11;
    let q12 = q11 + x12;
    assert(hd == q12);
    assert(q0.len() == 4);
    assert(q1.len() == 8);
    assert(q2.len() == 12);
    assert(q3.len() == 16);
    assert(q4.len() == 20);
    assert(q5.len() == 22);
    assert(q6.len() == 24);
    assert(q7.len() == 28);
    assert(q8.len() == 32);
    assert(q9.len() == 34);
    assert(q10.len() == 36);
    assert(q11.len() == 40);
    assert(q12.len() == 44);
    assert(hd.subrange(0, 4) == x0) by {
        lemma_slice_left(q11, x12, 0, 4);
        lemma_slice_left(q10, x11, 0, 4);
        lemma_slice_left(q9, x10, 0, 4);
        lemma_slice_left(q8, x9, 0, 4);
        lemma_slice_left(q7, x8, 0, 4);
        lemma_slice_left(q6, x7, 0, 4);
        lemma_slice_left(q5, x6, 0, 4);
        lemma_slice_left(q4, x5, 0, 4);
        lemma_slice_left(q3, x4, 0, 4);
        lemma_slice_left(q2, x3, 0, 4);
        lemma_slice_left(q1, x2, 0, 4);
        lemma_slice_left(q0, x1, 0, 4);
        assert(x0.subrange(0, 4) =~= x0);
    }
    assert(crate::raw::le32(hd, 4) == crate::raw::le32(x1, 0)) by {
        lemma_le32_left(q11, x12, 4);
        lemma_le32_left(q10, x11, 4);
        lemma_le32_left(q9, x10, 4);
        lemma_le32_left(q8, x9, 4);
        lemma_le32_left(q7, x8, 4);
        lemma_le32_left(q6, x7, 4);
        lemma_le32_left(q5, x6, 4);
        lemma_le32_left(q4, x5, 4);
        lemma_le32_left(q3, x4, 4);
        lemma_le32_left(q2, x3, 4);
        lemma_le32_left(q1, x2, 4);
        lemma_le32_right(q0, x1);
    }
    assert(hd.subrange(8, 12) == x2) by {
        lemma_slice_left(q11, x12, 8, 12);
        lemma_slice_left(q10, x11, 8, 12);
        lemma_slice_left(q9, x10, 8, 12);
        lemma_slice_left(q8, x9, 8, 12);
        lemma_slice_left(q7, x8, 8, 12);
        lemma_slice_left(q6, x7, 8, 12);
        lemma_slice_left(q5, x6, 8, 12);
        lemma_slice_left(q4, x5, 8, 12);
        lemma_slice_left(q3, x4, 8, 12);
        lemma_slice_left(q2, x3, 8, 12);
        lemma_slice_right(q1, x2);
    }
    assert(hd.subrange(12, 16) == x3) by {
        lemma_slice_left(q11, x12, 12, 16);
        lemma_slice_left(q10, x11, 12, 16);
        lemma_slice_left(q9, x10, 12, 16);
        lemma_slice_left(q8, x9, 12, 16);
        lemma_slice_left(q7, x8, 12, 16);
        lemma_slice_left(q6, x7, 12, 16);
        lemma_slice_left(q5, x6, 12, 16);
        lemma_slice_left(q4, x5, 12, 16);
        lemma_slice_left(q3, x4, 12, 16);
        lemma_slice_right(q2, x3);
    }
    assert(crate::decode::le16(hd, 20) == crate::decode::le16(x5, 0)) by {
        lemma_le16_left(q11, x12, 20);
        lemma_le16_left(q10, x11, 20);
        lemma_le16_left(q9, x10, 20);
        lemma_le16_left(q8, x9, 20);
        lemma_le16_left(q7, x8, 20);
        lemma_le16_left(q6, x7, 20);
        lemma_le16_left(q5, x6, 20);
        lemma_le16_right(q4, x5);
    }
    assert(crate::decode::le16(hd, 22) == crate::decode::le16(x6, 0)) by {
        lemma_le16_left(q11, x12, 22);
        lemma_le16_left(q10, x11, 22);
        lemma_le16_left(q9, x10, 22);
        lemma_le16_left(q8, x9, 22);
        lemma_le16_left(q7, x8, 22);
        lemma_le16_left(q6, x7, 22);
        lemma_le16_right(q5, x6);
    }
    assert(crate::raw::le32(hd, 24) == crate::raw::le32(x7, 0)) by {
        lemma_le32_left(q11, x12, 24);
        lemma_le32_left(q10, x11, 24);
        lemma_le32_left(q9, x10, 24);
        lemma_le32_left(q8, x9, 24);
        lemma_le32_left(q7, x8, 24);
        lemma_le32_right(q6, x7);
    }
    assert(crate::raw::le32(hd, 28) == crate::raw::le32(x8, 0)) by {
        lemma_le32_left(q11, x12, 28);
        lemma_le32_left(q10, x11, 28);
        lemma_le32_left(q9, x10, 28);
        lemma_le32_left(q8, x9, 28);
        lemma_le32_right(q7, x8);
    }
    assert(crate::decode::le16(hd, 32) == crate::decode::le16(x9, 0)) by {
        lemma_le16_left(q11, x12, 32);
        lemma_le16_left(q10, x11, 32);
        lemma_le16_left(q9, x10, 32);
        lemma_le16_right(q8, x9);
    }
    assert(crate::decode::le16(hd, 34) == crate::decode::le16(x10, 0)) by {
        lemma_le16_left(q11, x12, 34);
        lemma_le16_left(q10, x11, 34);
        lemma_le16_right(q9, x10);
    }
    assert(hd.subrange(36, 40) == x11) by {
        lemma_slice_left(q11, x12, 36, 40);
        lemma_slice_right(q10, x11);
    }
    assert(crate::raw::le32(hd, 40) == crate::raw::le32(x12, 0)) by {
        lemma_le32_right(q11, x12);
    }
}

#[verifier::rlimit(40)]
proof fn lemma_extensible_header_fields(rate: u32, channels: u16, mask: Option<u32>, d: int)
    requires
        0 <= d,
        uses_extensible(channels, mask),
        wav_spec_error(rate, channels, d / 2) is None,
        d + 60 <= u32::MAX,
    ensures
        ({
            let hd = wav_header(rate, channels, mask, d);
            &&& hd.len() == 68
            &&& hd.subrange(0, 4) == riff_tag()
            &&& crate::raw::le32(hd, 4) == 60 + d
            &&& hd.subrange(8, 12) == wave_tag()
            &&& hd.subrange(12, 16) == fmt_tag()
            &&& crate::decode::le16(hd, 20) == 0xfffe
            &&& crate::decode::le16(hd, 22) == channels
            &&& crate::raw::le32(hd, 24) == rate
            &&& crate::raw::le32(hd, 28) == rate * channels * 2
            &&& crate::decode::le16(hd, 32) == channels * 2
            &&& crate::decode::le16(hd, 34) == 16
            &&& crate::raw::le32(hd, 40) == wav_mask(channels, mask)
            &&& hd.subrange(60, 64) == data_tag()
            &&& crate::raw::le32(hd, 64) == d
        }),
{
    assert(rate * (2 * channels) == rate * channels * 2) by (nonlinear_arith);
    let block = 2 * channels;
    let hd = wav_header(rate, channels, mask, d);
    let m = wav_mask(channels, mask);
    assert(0 <= m < 0x1_0000_0000) by {
        reveal_with_fuel(low_mask, 19);
    }
    lemma_u32_le_reads_back(60 + d);
    lemma_u32_le_reads_back(rate as int);
    lemma_u32_le_reads_back(rate * block);
    lemma_u32_le_reads_back(d);
    lemma_u32_le_reads_back(m);
    lemma_u16_le_reads_back(0xfffe);
    lemma_u16_le_reads_back(channels as int);
    lemma_u16_le_reads_back(block as int);
    lemma_u16_le_reads_back(16);
    let x0 = riff_tag();
    let x1 = u32_le(60 + d);
    let x2 = wave_tag();
    let x3 = fmt_tag();
    let x4 = u32_le(40);
    let x5 = u16_le(0xfffe);
    let x6 = u16_le(channels as int);
    let x7 = u32_le(rate as int);
    let x8 = u32_le(rate * block);
    let x9 = u16_le(block as int);
    let x10 = u16_le(16);
    let x11 = u16_le(22);
    let x12 = u16_le(16);
    let x13 = u32_le(m);
    let x14 = pcm_subformat();
    let x15 = data_tag();
    let x16 = u32_le(d);
    let q0 = x0;
    let q1 = q0 + x1;
    let q2 = q1 + x2;
    let q3 = q2 + x3;
    let q4 = q3 + x4;
    let q5 = q4 + x5;
    let q6 = q5 + x6;
    let q7 = q6 + x7;
    let q8 = q7 + x8;
    let q9 = q8 + x9;
    let q10 = q9 + x10;
    let q11 = q10 + x11;
    let q12 = q11 + x12;
    let q13 = q12 + x13;
    let q14 = q13 + x14;
    let q15 = q14 + x15;
    let q16 = q15 + x16;
    assert(hd == q16);
    assert(q0.len() == 4);
    assert(q1.len() == 8);
    assert(q2.len() == 12);
    assert(q3.len() == 16);
    assert(q4.len() == 20);
    assert(q5.len() == 22);
    assert(q6.len() == 24);
    assert(q7.len() == 28);
    assert(q8.len() == 32);
    assert(q9.len() == 34);
    assert(q10.len() == 36);
    assert(q11.len() == 38);
    assert(q12.len() == 40);
    assert(q13.len() == 44);
    assert(q14.len() == 60);
    assert(q15.len() == 64);
    assert(q16.len() == 68);
    assert(hd.subrange(0, 4) == x0) by {
        lemma_slice_left(q15, x16, 0, 4);
        lemma_slice_left(q14, x15, 0, 4);
        lemma_slice_left(q13, x14, 0, 4);
        lemma_slice_left(q12, x13, 0, 4);
        lemma_slice_left(q11, x12, 0, 4);
        lemma_slice_left(q10, x11, 0, 4);
        lemma_slice_left(q9, x10, 0, 4);
        lemma_slice_left(q8, x9, 0, 4);
        lemma_slice_left(q7, x8, 0, 4);
        lemma_slice_left(q6, x7, 0, 4);
        lemma_slice_left(q5, x6, 0, 4);
        lemma_slice_left(q4, x5, 0, 4);
        lemma_slice_left(q3, x4, 0, 4);
        lemma_slice_left(q2, x3, 0, 4);
        lemma_slice_left(q1, x2, 0, 4);
        lemma_slice_left(q0, x1, 0, 4);
        assert(x0.subrange(0, 4) =~= x0);
    }
    assert(crate::raw::le32(hd, 4) == crate::raw::le32(x1, 0)) by {
        lemma_le32_left(q15, x16, 4);
        lemma_le32_left(q14, x15, 4);
        lemma_le32_left(q13, x14, 4);
        lemma_le32_left(q12, x13, 4);
        lemma_le32_left(q11, x12, 4);
        lemma_le32_left(q10, x11, 4);
        lemma_le32_left(q9, x10, 4);
        lemma_le32_left(q8, x9, 4);
        lemma_le32_left(q7, x8, 4);
        lemma_le32_left(q6, x7, 4);
        lemma_le32_left(q5, x6, 4);
        lemma_le32_left(q4, x5, 4);
        lemma_le32_left(q3, x4, 4);
        lemma_le32_left(q2, x3, 4);
        lemma_le32_left(q1, x2, 4);
        lemma_le32_right(q0, x1);
    }
    assert(hd.subrange(8, 12) == x2) by {
        lemma_slice_left(q15, x16, 8, 12);
        lemma_slice_left(q14, x15, 8, 12);
        lemma_slice_left(q13, x14, 8, 12);
        lemma_slice_left(q12, x13, 8, 12);
        lemma_slice_left(q11, x12, 8, 12);
        lemma_slice_left(q10, x11, 8, 12);
        lemma_slice_left(q9, x10, 8, 12);
        lemma_slice_left(q8, x9, 8, 12);
        lemma_slice_left(q7, x8, 8, 12);
        lemma_slice_left(q6, x7, 8, 12);
        lemma_slice_left(q5, x6, 8, 12);
        lemma_slice_left(q4, x5, 8, 12);
        lemma_slice_left(q3, x4, 8, 12);
        lemma_slice_left(q2, x3, 8, 12);
        lemma_slice_right(q1, x2);
    }
    assert(hd.subrange(12, 16) == x3) by {
        lemma_slice_left(q15, x16, 12, 16);
        lemma_slice_left(q14, x15, 12, 16);
        lemma_slice_left(q13, x14, 12, 16);
        lemma_slice_left(q12, x13, 12, 16);
        lemma_slice_left(q11, x12, 12, 16);
        lemma_slice_left(q10, x11, 12, 16);
        lemma_slice_left(q9, x10, 12, 16);
        lemma_slice_left(q8, x9, 12, 16);
        lemma_slice_left(q7, x8, 12, 16);
        lemma_slice_left(q6, x7, 12, 16);
        lemma_slice_left(q5, x6, 12, 16);
        lemma_slice_left(q4, x5, 12, 16);
        lemma_slice_left(q3, x4, 12, 16);
        lemma_slice_right(q2, x3);
    }
    assert(crate::decode::le16(hd, 20) == crate::decode::le16(x5, 0)) by {
        lemma_le16_left(q15, x16, 20);
        lemma_le16_left(q14, x15, 20);
        lemma_le16_left(q13, x14, 20);
        lemma_le16_left(q12, x13, 20);
        lemma_le16_left(q11, x12, 20);
        lemma_le16_left(q10, x11, 20);
        lemma_le16_left(q9, x10, 20);
        lemma_le16_left(q8, x9, 20);
        lemma_le16_left(q7, x8, 20);
        lemma_le16_left(q6, x7, 20);
        lemma_le16_left(q5, x6, 20);
        lemma_le16_right(q4, x5);
    }
    assert(crate::decode::le16(hd, 22) == crate::decode::le16(x6, 0)) by {
        lemma_le16_left(q15, x16, 22);
        lemma_le16_left(q14, x15, 22);
        lemma_le16_left(q13, x14, 22);
        lemma_le16_left(q12, x13, 22);
        lemma_le16_left(q11, x12, 22);
        lemma_le16_left(q10, x11, 22);
        lemma_le16_left(q9, x10, 22);
        lemma_le16_left(q8, x9, 22);
        lemma_le16_left(q7, x8, 22);
        lemma_le16_left(q6, x7, 22);
        lemma_le16_right(q5, x6);
    }
    assert(crate::raw::le32(hd, 24) == crate::raw::le32(x7, 0)) by {
        lemma_le32_left(q15, x16, 24);
        lemma_le32_left(q14, x15, 24);
        lemma_le32_left(q13, x14, 24);
        lemma_le32_left(q12, x13, 24);
        lemma_le32_left(q11, x12, 24);
        lemma_le32_left(q10, x11, 24);
        lemma_le32_left(q9, x10, 24);
        lemma_le32_left(q8, x9, 24);
        lemma_le32_left(q7, x8, 24);
        lemma_le32_right(q6, x7);
    }
    assert(crate::raw::le32(hd, 28) == crate::raw::le32(x8, 0)) by {
        lemma_le32_left(q15, x16, 28);
        lemma_le32_left(q14, x15, 28);
        lemma_le32_left(q13, x14, 28);
        lemma_le32_left(q12, x13, 28);
        lemma_le32_left(q11, x12, 28);
        lemma_le32_left(q10, x11, 28);
        lemma_le32_left(q9, x10, 28);
        lemma_le32_left(q8, x9, 28);
        lemma_le32_right(q7, x8);
    }
    assert(crate::decode::le16(hd, 32) == crate::decode::le16(x9, 0)) by {
        lemma_le16_left(q15, x16, 32);
        lemma_le16_left(q14, x15, 32);
        lemma_le16_left(q13, x14, 32);
        lemma_le16_left(q12, x13, 32);
        lemma_le16_left(q11, x12, 32);
        lemma_le16_left(q10, x11, 32);
        lemma_le16_left(q9, x10, 32);
        lemma_le16_right(q8, x9);
    }
    assert(crate::decode::le16(hd, 34) == crate::decode::le16(x10, 0)) by {
        lemma_le16_left(q15, x16, 34);
        lemma_le16_left(q14, x15, 34);
        lemma_le16_left(q13, x14, 34);
        lemma_le16_left(q12, x13, 34);
        lemma_le16_left(q11, x12, 34);
        lemma_le16_left(q10, x11, 34);
        lemma_le16_right(q9, x10);
    }
    assert(crate::raw::le32(hd, 40) == crate::raw::le32(x13, 0)) by {
        lemma_le32_left(q15, x16, 40);
        lemma_le32_left(q14, x15, 40);
        lemma_le32_left(q13, x14, 40);
        lemma_le32_right(q12, x13);
    }
    assert(hd.subrange(60, 64) == x15) by {
        lemma_slice_left(q15, x16, 60, 64);
        lemma_slice_right(q14, x15);
    }
    assert(crate::raw::le32(hd, 64) == crate::raw::le32(x16, 0)) by {
        lemma_le32_right(q15, x16);
    }
}

/// Little-endian 16-bit sample bytes decode back to the samples.
proof fn lemma_sample_bytes_decode(samples: Seq<i16>)
    ensures
        crate::raw::raw_samples(sample_bytes(samples), crate::raw::RawSampleFormat::S16Le)
            == samples,
{
    let n = samples.len() as int;
    let body = sample_bytes(samples);
    let decoded = crate::raw::raw_samples(body, crate::raw::RawSampleFormat::S16Le);
    assert forall|i: int| 0 <= i < n implies decoded[i] == samples[i] by {
        let x = sample_pattern(samples[i]);
        assert(body.subrange(2 * i, 2 * i + 2) =~= seq![body[2 * i], body[2 * i + 1]]);
        assert((2 * i) / 2 == i && (2 * i + 1) / 2 == i && (2 * i) % 2 == 0 && (2 * i + 1) % 2
            == 1) by (nonlinear_arith);
        assert(x % 0x100 + 0x100 * (x / 0x100) == x) by (nonlinear_arith)
            requires
                0 <= x,
        ;
    }
    assert(decoded =~= samples);
}

/// A WAV stream reads back as written: it starts with `RIFF`, a RIFF size of the stream
/// length less 8, and `WAVE`; its format chunk records the channel count, the sample
/// rate, the byte rate (rate times channels times 2), the block alignment (channels
/// times 2) and 16 bits per sample, as plain PCM (tag 1) for up to two channels with the
/// default speaker layout and as the extensible format (tag 0xfffe) with the speaker
/// mask at bytes 40..44 otherwise; its `data` chunk holds twice as many bytes as there
/// are samples, and those bytes decode as little-endian 16-bit raw samples to exactly
/// the samples written.
pub proof fn wav_bytes_read_back(rate: u32, channels: u16, mask: Option<u32>, samples: Seq<i16>)
    requires
        wav_encode_error(rate, channels, mask, samples.len() as int) is None,
    ensures
        ({
            let b = pcm16_wav_bytes(rate, channels, mask, samples);
            let h = if channels <= 2 && (mask is None || (channels == 0 && mask->0 == 0) || (
            channels == 1 && mask->0 == 1) || (channels == 2 && mask->0 == 3)) {
                44int
            } else {
                68int
            };
            &&& b.len() == h + 2 * samples.len()
            &&& b.subrange(0, 4) == riff_tag()
            &&& crate::raw::le32(b, 4) == b.len() - 8
            &&& b.subrange(8, 12) == wave_tag()
            &&& b.subrange(12, 16) == fmt_tag()
            &&& crate::decode::le16(b, 20) == (if h == 44 {
                1int
            } else {
                0xfffe
            })
            &&& crate::decode::le16(b, 22) == channels
            &&& crate::raw::le32(b, 24) == rate
            &&& crate::raw::le32(b, 28) == rate * channels * 2
            &&& crate::decode::le16(b, 32) == channels * 2
            &&& crate::decode::le16(b, 34) == 16
            &&& h == 68 && mask is Some ==> crate::raw::le32(b, 40) == mask->0
            &&& b.subrange(h - 8, h - 4) == data_tag()
            &&& crate::raw::le32(b, h - 4) == 2 * samples.len()
            &&& crate::raw::raw_samples(b.subrange(h, b.len() as int), crate::raw::RawSampleFormat::S16Le)
                == samples
        }),
{
    reveal_with_fuel(low_mask, 4);
    let n = samples.len() as int;
    let d = 2 * n;
    let hd = wav_header(rate, channels, mask, d);
    let body = sample_bytes(samples);
    let b = hd + body;
    lemma_header_fields(rate, channels, mask, d);
    let h = hd.len() as int;
    assert(b.subrange(0, 4) =~= hd.subrange(0, 4));
    assert(b.subrange(8, 12) =~= hd.subrange(8, 12));
    assert(b.subrange(12, 16) =~= hd.subrange(12, 16));
    assert(b.subrange(h - 8, h - 4) =~= hd.subrange(h - 8, h - 4));
    assert(forall|i: int| 0 <= i < h ==> b[i] == hd[i]);
    assert(b.subrange(h, b.len() as int) =~= body);
    lemma_sample_bytes_decode(samples);
}
} // verus!
