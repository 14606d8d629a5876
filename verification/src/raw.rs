use vstd::prelude::*;
use vstd::string::*;

use crate::error::Error;
use crate::ieee::{f32_bits_to_sample, f32_sample_value, f64_bits_to_sample, f64_sample_value};
use crate::pcm::{default_mask_for, PcmAudio, PcmView};
use crate::text::{ascii_lowercase, eq_ascii_lowercase};

verus! {

/// Supported raw audio sample encodings.
#[derive(Clone, Copy, Debug, PartialEq, Eq)]
pub enum RawSampleFormat {
    /// Signed 8-bit integer.
    S8,
    /// Unsigned 8-bit integer.
    U8,
    /// Signed little-endian 16-bit integer.
    S16Le,
    /// Signed big-endian 16-bit integer.
    S16Be,
    /// Signed little-endian 24-bit integer.
    S24Le,
    /// Signed big-endian 24-bit integer.
    S24Be,
    /// Signed little-endian 32-bit integer.
    S32Le,
    /// Signed big-endian 32-bit integer.
    S32Be,
    /// Little-endian 32-bit float.
    F32Le,
    /// Big-endian 32-bit float.
    F32Be,
    /// Little-endian 64-bit float.
    F64Le,
    /// Big-endian 64-bit float.
    F64Be,
}

/// The canonical lowercase name of a raw sample format.
pub open spec fn raw_format_name(f: RawSampleFormat) -> Seq<char> {
    match f {
        RawSampleFormat::S8 => "s8"@,
        RawSampleFormat::U8 => "u8"@,
        RawSampleFormat::S16Le => "s16le"@,
        RawSampleFormat::S16Be => "s16be"@,
        RawSampleFormat::S24Le => "s24le"@,
        RawSampleFormat::S24Be => "s24be"@,
        RawSampleFormat::S32Le => "s32le"@,
        RawSampleFormat::S32Be => "s32be"@,
        RawSampleFormat::F32Le => "f32le"@,
        RawSampleFormat::F32Be => "f32be"@,
        RawSampleFormat::F64Le => "f64le"@,
        RawSampleFormat::F64Be => "f64be"@,
    }
}

/// The raw sample format that a name denotes, compared without regard to ASCII case.
pub open spec fn raw_format_for_name(s: Seq<char>) -> Option<RawSampleFormat> {
    let l = ascii_lowercase(s);
    if l == "s8"@ {
        Some(RawSampleFormat::S8)
    } else if l == "u8"@ {
        Some(RawSampleFormat::U8)
    } else if l == "s16le"@ {
        Some(RawSampleFormat::S16Le)
    } else if l == "s16be"@ {
        Some(RawSampleFormat::S16Be)
    } else if l == "s24le"@ {
        Some(RawSampleFormat::S24Le)
    } else if l == "s24be"@ {
        Some(RawSampleFormat::S24Be)
    } else if l == "s32le"@ {
        Some(RawSampleFormat::S32Le)
    } else if l == "s32be"@ {
        Some(RawSampleFormat::S32Be)
    } else if l == "f32le"@ {
        Some(RawSampleFormat::F32Le)
    } else if l == "f32be"@ {
        Some(RawSampleFormat::F32Be)
    } else if l == "f64le"@ {
        Some(RawSampleFormat::F64Le)
    } else if l == "f64be"@ {
        Some(RawSampleFormat::F64Be)
    } else {
        None
    }
}

/// Bytes per sample of a raw format.
pub open spec fn sample_width(f: RawSampleFormat) -> nat {
    match f {
        RawSampleFormat::S8 | RawSampleFormat::U8 => 1,
        RawSampleFormat::S16Le | RawSampleFormat::S16Be => 2,
        RawSampleFormat::S24Le | RawSampleFormat::S24Be => 3,
        RawSampleFormat::S32Le | RawSampleFormat::S32Be | RawSampleFormat::F32Le
        | RawSampleFormat::F32Be => 4,
        RawSampleFormat::F64Le | RawSampleFormat::F64Be => 8,
    }
}

impl RawSampleFormat {
    /// Returns the canonical CLI-friendly name.
    pub fn as_str(self) -> (s: &'static str)
        ensures
            s@ == raw_format_name(self),
    {
        match self {
            RawSampleFormat::S8 => "s8",
            RawSampleFormat::U8 => "u8",
            RawSampleFormat::S16Le => "s16le",
            RawSampleFormat::S16Be => "s16be",
            RawSampleFormat::S24Le => "s24le",
            RawSampleFormat::S24Be => "s24be",
            RawSampleFormat::S32Le => "s32le",
            RawSampleFormat::S32Be => "s32be",
            RawSampleFormat::F32Le => "f32le",
            RawSampleFormat::F32Be => "f32be",
            RawSampleFormat::F64Le => "f64le",
            RawSampleFormat::F64Be => "f64be",
        }
    }

    /// Parses a format name without regard to ASCII case, reporting the name when it is
    /// unknown.
    pub fn parse_name(s: &str) -> (r: Result<RawSampleFormat, Error>)
        ensures
            match raw_format_for_name(s@) {
                Some(f) => r == Ok::<RawSampleFormat, Error>(f),
                None => r matches Err(e) && e matches Error::UnsupportedFormat { format } && format@
                    == s@,
            },
    {
        if eq_ascii_lowercase(s, "s8") {
            Ok(RawSampleFormat::S8)
        } else if eq_ascii_lowercase(s, "u8") {
            Ok(RawSampleFormat::U8)
        } else if eq_ascii_lowercase(s, "s16le") {
            Ok(RawSampleFormat::S16Le)
        } else if eq_ascii_lowercase(s, "s16be") {
            Ok(RawSampleFormat::S16Be)
        } else if eq_ascii_lowercase(s, "s24le") {
            Ok(RawSampleFormat::S24Le)
        } else if eq_ascii_lowercase(s, "s24be") {
            Ok(RawSampleFormat::S24Be)
        } else if eq_ascii_lowercase(s, "s32le") {
            Ok(RawSampleFormat::S32Le)
        } else if eq_ascii_lowercase(s, "s32be") {
            Ok(RawSampleFormat::S32Be)
        } else if eq_ascii_lowercase(s, "f32le") {
            Ok(RawSampleFormat::F32Le)
        } else if eq_ascii_lowercase(s, "f32be") {
            Ok(RawSampleFormat::F32Be)
        } else if eq_ascii_lowercase(s, "f64le") {
            Ok(RawSampleFormat::F64Le)
        } else if eq_ascii_lowercase(s, "f64be") {
            Ok(RawSampleFormat::F64Be)
        } else {
            Err(Error::unsupported_format(s))
        }
    }

    /// Bytes per sample.
    pub fn width(self) -> (w: usize)
        ensures
            w == sample_width(self),
    {
        raw_sample_width(self)
    }
}

impl std::str::FromStr for RawSampleFormat {
    type Err = Error;

    fn from_str(s: &str) -> (r: Result<RawSampleFormat, Error>)
        ensures
            match raw_format_for_name(s@) {
                Some(f) => r == Ok::<RawSampleFormat, Error>(f),
                None => r matches Err(e) && e matches Error::UnsupportedFormat { format } && format@
                    == s@,
            },
    {
        RawSampleFormat::parse_name(s)
    }
}

/// Bytes per sample of a raw format.
pub fn raw_sample_width(format: RawSampleFormat) -> (w: usize)
    ensures
        w == sample_width(format),
{
    match format {
        RawSampleFormat::S8 | RawSampleFormat::U8 => 1,
        RawSampleFormat::S16Le | RawSampleFormat::S16Be => 2,
        RawSampleFormat::S24Le | RawSampleFormat::S24Be => 3,
        RawSampleFormat::S32Le | RawSampleFormat::S32Be | RawSampleFormat::F32Le
        | RawSampleFormat::F32Be => 4,
        RawSampleFormat::F64Le | RawSampleFormat::F64Be => 8,
    }
}

/// Configuration for decoding raw audio.
#[derive(Clone, Copy, Debug, PartialEq, Eq)]
pub struct RawAudioConfig {
    /// Source sample rate in Hz.
    pub sample_rate: u32,
    /// Channel count.
    pub channels: u16,
    /// Raw sample encoding.
    pub sample_format: RawSampleFormat,
}

/// The argument error (name and message) that a raw configuration with these values
/// is rejected with, if any.
pub open spec fn raw_config_error(sample_rate: u32, channels: u16) -> Option<(Seq<char>, Seq<char>)> {
    if sample_rate == 0 {
        Some(("raw sample rate"@, "Invalid input sample rate: must be greater than zero"@))
    } else if channels == 0 {
        Some(("raw channels"@, "Invalid number of input channels: must be greater than zero"@))
    } else {
        None
    }
}

/// An error that carries an argument name and message equal to `e`.
pub open spec fn is_raw_argument_error(r: Error, e: (Seq<char>, Seq<char>)) -> bool {
    r matches Error::InvalidArgument { name, message } && name@ == e.0 && message@ == e.1
}

impl RawAudioConfig {
    /// Creates a raw audio configuration.
    pub fn new(sample_rate: u32, channels: u16, sample_format: RawSampleFormat) -> (r: Result<
        RawAudioConfig,
        Error,
    >)
        ensures
            match raw_config_error(sample_rate, channels) {
                Some(e) => r matches Err(err) && is_raw_argument_error(err, e),
                None => r == Ok::<RawAudioConfig, Error>(
                    RawAudioConfig { sample_rate, channels, sample_format },
                ),
            },
    {
        if sample_rate == 0 {
            return Err(
                Error::invalid_argument(
                    "raw sample rate",
                    "Invalid input sample rate: must be greater than zero",
                ),
            );
        }
        if channels == 0 {
            return Err(
                Error::invalid_argument(
                    "raw channels",
                    "Invalid number of input channels: must be greater than zero",
                ),
            );
        }
        Ok(RawAudioConfig { sample_rate, channels, sample_format })
    }
}

} // verus!

verus! {

/// Two's-complement value of an 8-bit pattern.
pub open spec fn signed8(b: u8) -> int {
    if b >= 128 {
        b - 256
    } else {
        b as int
    }
}

/// Two's-complement value of a 16-bit pattern `0 <= v < 2^16`.
pub open spec fn signed16(v: int) -> int {
    if v >= 0x8000 {
        v - 0x1_0000
    } else {
        v
    }
}

/// Two's-complement value of a 24-bit pattern `0 <= v < 2^24`.
pub open spec fn signed24(v: int) -> int {
    if v >= 0x80_0000 {
        v - 0x100_0000
    } else {
        v
    }
}

/// Two's-complement value of a 32-bit pattern `0 <= v < 2^32`.
pub open spec fn signed32(v: int) -> int {
    if v >= 0x8000_0000 {
        v - 0x1_0000_0000
    } else {
        v
    }
}

/// Little-endian value of the bytes `b[i..i + 4]`.
pub open spec fn le32(b: Seq<u8>, i: int) -> int {
    b[i] + 0x100 * b[i + 1] + 0x1_0000 * b[i + 2] + 0x100_0000 * b[i + 3]
}

/// Big-endian value of the bytes `b[i..i + 4]`.
pub open spec fn be32(b: Seq<u8>, i: int) -> int {
    b[i + 3] + 0x100 * b[i + 2] + 0x1_0000 * b[i + 1] + 0x100_0000 * b[i]
}

/// The 16-bit sample that one raw sample's bytes decode to. Integer formats keep their
/// most significant 16 bits (shifting right rounds down); floats are scaled by 32767,
/// clamped and truncated toward zero.
pub open spec fn raw_sample_value(b: Seq<u8>, f: RawSampleFormat) -> int {
    match f {
        RawSampleFormat::S8 => signed8(b[0]) * 256,
        RawSampleFormat::U8 => (b[0] - 128) * 256,
        RawSampleFormat::S16Le => signed16(b[0] + 256 * b[1]),
        RawSampleFormat::S16Be => signed16(b[1] + 256 * b[0]),
        RawSampleFormat::S24Le => signed24(b[0] + 0x100 * b[1] + 0x1_0000 * b[2]) / 256,
        RawSampleFormat::S24Be => signed24(b[2] + 0x100 * b[1] + 0x1_0000 * b[0]) / 256,
        RawSampleFormat::S32Le => signed32(le32(b, 0)) / 0x1_0000,
        RawSampleFormat::S32Be => signed32(be32(b, 0)) / 0x1_0000,
        RawSampleFormat::F32Le => f32_sample_value(le32(b, 0) as u32),
        RawSampleFormat::F32Be => f32_sample_value(be32(b, 0) as u32),
        RawSampleFormat::F64Le => f64_sample_value(
            (le32(b, 0) + 0x1_0000_0000 * le32(b, 4)) as u64,
        ),
        RawSampleFormat::F64Be => f64_sample_value(
            (be32(b, 4) + 0x1_0000_0000 * be32(b, 0)) as u64,
        ),
    }
}

/// The samples that a run of whole raw samples decodes to, in order.
pub open spec fn raw_samples(bytes: Seq<u8>, f: RawSampleFormat) -> Seq<i16> {
    let w = sample_width(f) as int;
    Seq::new(
        ((bytes.len() as int) / w) as nat,
        |i: int| raw_sample_value(bytes.subrange(i * w, i * w + w), f) as i16,
    )
}

/// Sign-extends a little-endian 24-bit sample to 32 bits.
pub fn sign_extend_24(bytes: [u8; 3]) -> (r: i32)
    ensures
        r == signed24(bytes[0] + 0x100 * bytes[1] + 0x1_0000 * bytes[2]),
{
    let v: i32 = bytes[0] as i32 + 0x100 * (bytes[1] as i32) + 0x1_0000 * (bytes[2] as i32);
    if bytes[2] >= 0x80 {
        v - 0x100_0000
    } else {
        v
    }
}

/// Reads four bytes as a little-endian 32-bit pattern.
pub(crate) fn le32_at(b: &[u8], i: usize) -> (r: u32)
    requires
        i + 4 <= b.len(),
    ensures
        r == le32(b@, i as int),
{
    b[i] as u32 + 0x100 * (b[i + 1] as u32) + 0x1_0000 * (b[i + 2] as u32) + 0x100_0000 * (b[i
        + 3] as u32)
}

/// Reads four bytes as a big-endian 32-bit pattern.
fn be32_at(b: &[u8], i: usize) -> (r: u32)
    requires
        i + 4 <= b.len(),
    ensures
        r == be32(b@, i as int),
{
    b[i + 3] as u32 + 0x100 * (b[i + 2] as u32) + 0x1_0000 * (b[i + 1] as u32) + 0x100_0000 * (
    b[i] as u32)
}

/// Decodes one raw sample.
pub fn parse_raw_sample(bytes: &[u8], format: RawSampleFormat) -> (r: i16)
    requires
        bytes@.len() == sample_width(format),
    ensures
        r == raw_sample_value(bytes@, format),
{
    match format {
        RawSampleFormat::S8 => {
            let v: i32 = if bytes[0] >= 128 {
                bytes[0] as i32 - 256
            } else {
                bytes[0] as i32
            };
            (v * 256) as i16
        },
        RawSampleFormat::U8 => ((bytes[0] as i32 - 128) * 256) as i16,
        RawSampleFormat::S16Le | RawSampleFormat::S16Be => {
            let v: i32 = if matches!(format, RawSampleFormat::S16Le) {
                bytes[0] as i32 + 256 * (bytes[1] as i32)
            } else {
                bytes[1] as i32 + 256 * (bytes[0] as i32)
            };
            if v >= 0x8000 {
                (v - 0x1_0000) as i16
            } else {
                v as i16
            }
        },
        RawSampleFormat::S24Le | RawSampleFormat::S24Be => {
            let v = if matches!(format, RawSampleFormat::S24Le) {
                sign_extend_24([bytes[0], bytes[1], bytes[2]])
            } else {
                sign_extend_24([bytes[2], bytes[1], bytes[0]])
            };
            proof {
                let q = (v + 0x80_0000) / 256;
                vstd::arithmetic::div_mod::lemma_fundamental_div_mod(v + 0x80_0000, 256);
                vstd::arithmetic::div_mod::lemma_fundamental_div_mod_converse(
                    v as int,
                    256,
                    q - 0x8000,
                    (v + 0x80_0000) % 256,
                );
            }
            ((v + 0x80_0000) / 256 - 0x8000) as i16
        },
        RawSampleFormat::S32Le | RawSampleFormat::S32Be => {
            let u = if matches!(format, RawSampleFormat::S32Le) {
                le32_at(bytes, 0)
            } else {
                be32_at(bytes, 0)
            };
            let v: i64 = if u >= 0x8000_0000 {
                u as i64 - 0x1_0000_0000
            } else {
                u as i64
            };
            proof {
                let q = (v + 0x8000_0000) / 0x1_0000;
                vstd::arithmetic::div_mod::lemma_fundamental_div_mod(v + 0x8000_0000, 0x1_0000);
                vstd::arithmetic::div_mod::lemma_fundamental_div_mod_converse(
                    v as int,
                    0x1_0000,
                    q - 0x8000,
                    (v + 0x8000_0000) % 0x1_0000,
                );
            }
            ((v + 0x8000_0000) / 0x1_0000 - 0x8000) as i16
        },
        RawSampleFormat::F32Le => f32_bits_to_sample(le32_at(bytes, 0)),
        RawSampleFormat::F32Be => f32_bits_to_sample(be32_at(bytes, 0)),
        RawSampleFormat::F64Le => {
            let lo = le32_at(bytes, 0) as u64;
            let hi = le32_at(bytes, 4) as u64;
            f64_bits_to_sample(lo + 0x1_0000_0000 * hi)
        },
        RawSampleFormat::F64Be => {
            let hi = be32_at(bytes, 0) as u64;
            let lo = be32_at(bytes, 4) as u64;
            f64_bits_to_sample(lo + 0x1_0000_0000 * hi)
        },
    }
}

/// Decodes a run of whole raw samples.
pub fn parse_raw_samples(bytes: &[u8], format: RawSampleFormat) -> (r: Vec<i16>)
    requires
        bytes@.len() % sample_width(format) == 0,
    ensures
        r@ == raw_samples(bytes@, format),
{
    let w = raw_sample_width(format);
    let count = bytes.len() / w;
    let mut out: Vec<i16> = Vec::new();
    let mut i: usize = 0;
    while i < count
        invariant
            w == sample_width(format),
            count == (bytes@.len() as int) / (w as int),
            i <= count,
            out@.len() == i,
            forall|k: int|
                0 <= k < i ==> out@[k] == raw_sample_value(
                    bytes@.subrange(k * w, k * w + w),
                    format,
                ) as i16,
        decreases count - i,
    {
        proof {
            vstd::arithmetic::div_mod::lemma_fundamental_div_mod(bytes@.len() as int, w as int);
            assert(i * w + w <= count * w) by (nonlinear_arith)
                requires
                    i < count,
                    w > 0,
            ;
            assert(count * w <= bytes@.len()) by (nonlinear_arith)
                requires
                    bytes@.len() == w * count + (bytes@.len() as int) % (w as int),
                    (bytes@.len() as int) % (w as int) >= 0,
            ;
            assert(i * w >= 0) by (nonlinear_arith)
                requires
                    w > 0,
            ;
            assert(i * w + w <= bytes.len());
        }
        let start = i * w;
        let sample = vstd::slice::slice_subrange(bytes, start, start + w);
        let v = parse_raw_sample(sample, format);
        out.push(v);
        i = i + 1;
    }
    proof {
        assert(out@ =~= raw_samples(bytes@, format));
    }
    out
}

} // verus!

verus! {

/// Decoding whole raw samples commutes with concatenation: when `a` holds whole samples,
/// decoding `a + b` gives the samples of `a` followed by those of `b`.
pub proof fn raw_samples_concatenate(a: Seq<u8>, b: Seq<u8>, f: RawSampleFormat)
    requires
        (a.len() as int) % (sample_width(f) as int) == 0,
    ensures
        raw_samples(a + b, f) == raw_samples(a, f) + raw_samples(b, f),
{
    let w = sample_width(f) as int;
    let na = (a.len() as int) / w;
    let nb = (b.len() as int) / w;
    vstd::arithmetic::div_mod::lemma_fundamental_div_mod(a.len() as int, w);
    vstd::arithmetic::div_mod::lemma_fundamental_div_mod(b.len() as int, w);
    assert(a.len() == na * w) by (nonlinear_arith)
        requires
            a.len() == w * na + 0,
    ;
    assert((a.len() + b.len()) as int == w * (na + nb) + (b.len() as int) % w) by (nonlinear_arith)
        requires
            a.len() == na * w,
            b.len() == w * nb + (b.len() as int) % w,
    ;
    vstd::arithmetic::div_mod::lemma_fundamental_div_mod_converse(
        (a.len() + b.len()) as int,
        w,
        na + nb,
        (b.len() as int) % w,
    );
    let lhs = raw_samples(a + b, f);
    let rhs = raw_samples(a, f) + raw_samples(b, f);
    assert forall|i: int| 0 <= i < lhs.len() implies lhs[i] == rhs[i] by {
        if i < na {
            assert(i * w + w <= na * w) by (nonlinear_arith)
                requires
                    i < na,
                    w > 0,
            ;
            assert(0 <= i * w) by (nonlinear_arith)
                requires
                    0 <= i,
                    w > 0,
            ;
            assert((a + b).subrange(i * w, i * w + w) =~= a.subrange(i * w, i * w + w));
        } else {
            let j = i - na;
            assert(i * w == na * w + j * w) by (nonlinear_arith)
                requires
                    j == i - na,
            ;
            assert(j * w + w <= nb * w) by (nonlinear_arith)
                requires
                    j < nb,
                    w > 0,
            ;
            assert(0 <= j * w) by (nonlinear_arith)
                requires
                    0 <= j,
                    w > 0,
            ;
            assert(nb * w <= b.len()) by (nonlinear_arith)
                requires
                    b.len() == w * nb + (b.len() as int) % w,
                    (b.len() as int) % w >= 0,
            ;
            assert((a + b).subrange(i * w, i * w + w) =~= b.subrange(j * w, j * w + w));
        }
    }
    assert(lhs =~= rhs);
}

/// Incremental raw decoder: bytes arrive in arbitrary chunks and whole frames are
/// decoded as soon as they are complete.
pub struct RawBlockDecoder {
    format: RawSampleFormat,
    width: usize,
    frame_width: usize,
    pending: Vec<u8>,
    decoded: Ghost<Seq<u8>>,
}

/// Byte length of one frame of a configuration.
pub open spec fn frame_width(config: RawAudioConfig) -> int {
    sample_width(config.sample_format) * config.channels
}

impl RawBlockDecoder {
    /// All bytes fed so far.
    pub closed spec fn input(&self) -> Seq<u8> {
        self.decoded@ + self.pending@
    }

    /// Length of the prefix of the input that has been decoded: its whole frames.
    pub closed spec fn decoded_len(&self) -> int {
        self.decoded@.len() as int
    }

    /// Sample format and bytes per frame.
    pub closed spec fn shape(&self) -> (RawSampleFormat, int) {
        (self.format, self.frame_width as int)
    }

    /// Channels per frame.
    pub closed spec fn channels(&self) -> int {
        (self.frame_width as int) / (self.width as int)
    }

    /// The decoder's invariant.
    pub closed spec fn wf(&self) -> bool {
        &&& self.width == sample_width(self.format)
        &&& self.frame_width >= self.width
        &&& self.frame_width <= 8 * 65535
        &&& (self.frame_width as int) % (self.width as int) == 0
        &&& (self.decoded@.len() as int) % (self.frame_width as int) == 0
        &&& self.pending@.len() < self.frame_width
    }

    /// Starts decoding raw audio of the given configuration.
    pub fn new(config: &RawAudioConfig) -> (r: Result<RawBlockDecoder, Error>)
        ensures
            match raw_config_error(config.sample_rate, config.channels) {
                Some(e) => r matches Err(err) && is_raw_argument_error(err, e),
                None => r matches Ok(d) && d.wf() && d.input() == Seq::<u8>::empty()
                    && d.decoded_len() == 0 && d.shape() == (
                    config.sample_format,
                    frame_width(*config),
                ) && d.channels() == config.channels,
            },
    {
        let checked = RawAudioConfig::new(config.sample_rate, config.channels, config.sample_format)?;
        let width = raw_sample_width(checked.sample_format);
        proof {
            assert(width * checked.channels <= 8 * 65535) by (nonlinear_arith)
                requires
                    width <= 8,
                    checked.channels <= 65535,
            ;
        }
        let frame_width = width * (checked.channels as usize);
        proof {
            vstd::arithmetic::div_mod::lemma_mod_multiples_basic(
                checked.channels as int,
                width as int,
            );
            assert(frame_width == checked.channels * width) by (nonlinear_arith)
                requires
                    frame_width == width * checked.channels,
            ;
            assert(frame_width >= width) by (nonlinear_arith)
                requires
                    frame_width == width * checked.channels,
                    checked.channels >= 1,
            ;
            vstd::arithmetic::div_mod::lemma_div_multiples_vanish(
                checked.channels as int,
                width as int,
            );
        }
        let d = RawBlockDecoder {
            format: checked.sample_format,
            width,
            frame_width,
            pending: Vec::new(),
            decoded: Ghost(Seq::empty()),
        };
        proof {
            assert(d.input() =~= Seq::<u8>::empty());
        }
        Ok(d)
    }

    /// Feeds the next bytes and returns the samples of the frames they complete.
    pub fn feed(&mut self, chunk: &[u8]) -> (r: Vec<i16>)
        requires
            old(self).wf(),
        ensures
            final(self).wf(),
            final(self).shape() == old(self).shape(),
            final(self).input() == old(self).input() + chunk@,
            final(self).decoded_len() == (final(self).input().len() as int) / old(self).shape().1
                * old(self).shape().1,
            r@ == raw_samples(
                final(self).input().subrange(old(self).decoded_len(), final(self).decoded_len()),
                old(self).shape().0,
            ),
            final(self).channels() == old(self).channels(),
            r@.len() == (final(self).decoded_len() - old(self).decoded_len()) / old(self).shape().1
                * old(self).channels(),
    {
        let ghost before = self.input();
        let ghost old_decoded = self.decoded@;
        self.pending.extend_from_slice(chunk);
        proof {
            assert(self.pending@ =~= old(self).pending@ + chunk@);
        }
        let fw = self.frame_width;
        let whole = self.pending.len() / fw;
        proof {
            vstd::arithmetic::div_mod::lemma_fundamental_div_mod(self.pending@.len() as int, fw as int);
            assert(whole * fw <= self.pending@.len()) by (nonlinear_arith)
                requires
                    whole == (self.pending@.len() as int) / (fw as int),
                    self.pending@.len() == fw * ((self.pending@.len() as int) / (fw as int))
                        + (self.pending@.len() as int) % (fw as int),
                    (self.pending@.len() as int) % (fw as int) >= 0,
            ;
        }
        let complete = whole * fw;
        let rest = self.pending.split_off(complete);
        let ghost done = self.pending@;
        proof {
            vstd::arithmetic::div_mod::lemma_mod_multiples_basic(
                (old(self).pending@.len() + chunk@.len()) as int / (fw as int),
                fw as int,
            );
            assert((done.len() as int) % (self.width as int) == 0) by {
                let w = self.width as int;
                let k = (fw as int) / w;
                vstd::arithmetic::div_mod::lemma_fundamental_div_mod(fw as int, w);
                assert(done.len() == (whole * k) * w) by (nonlinear_arith)
                    requires
                        done.len() == whole * fw,
                        fw == w * k + 0,
                ;
                vstd::arithmetic::div_mod::lemma_mod_multiples_basic(whole * k, w);
            }
            let w = self.width as int;
            let k = (fw as int) / w;
            vstd::arithmetic::div_mod::lemma_fundamental_div_mod(fw as int, w);
            assert(done.len() == w * (whole * k)) by (nonlinear_arith)
                requires
                    done.len() == whole * fw,
                    fw == w * k + 0,
            ;
            vstd::arithmetic::div_mod::lemma_div_multiples_vanish(whole * k, w);
            vstd::arithmetic::div_mod::lemma_div_multiples_vanish(whole as int, fw as int);
            assert(done.len() == (fw as int) * whole) by (nonlinear_arith)
                requires
                    done.len() == whole * fw,
            ;
        }
        let samples = parse_raw_samples(self.pending.as_slice(), self.format);
        self.pending = rest;
        self.decoded = Ghost(old_decoded + done);
        proof {
            let input = self.input();
            assert(input =~= before + chunk@);
            assert(input.subrange(old_decoded.len() as int, self.decoded@.len() as int) =~= done);
            assert((self.decoded@.len() as int) % (fw as int) == 0) by {
                vstd::arithmetic::div_mod::lemma_mod_adds(
                    old_decoded.len() as int,
                    done.len() as int,
                    fw as int,
                );
            }
            let n = input.len() as int;
            let d = self.decoded@.len() as int;
            let p = self.pending@.len() as int;
            assert(n == d + p);
            vstd::arithmetic::div_mod::lemma_fundamental_div_mod(d, fw as int);
            assert((d / (fw as int)) * fw == d) by (nonlinear_arith)
                requires
                    d == fw * (d / (fw as int)) + 0,
            ;
            vstd::arithmetic::div_mod::lemma_fundamental_div_mod_converse(n, fw as int, d / (fw as int), p);
        }
        samples
    }

    /// Checks, once the input has ended, that it held whole samples and whole frames.
    pub fn finish(&self) -> (r: Result<(), Error>)
        requires
            self.wf(),
        ensures
            (self.input().len() as int) % (sample_width(self.shape().0) as int) != 0 ==> (r matches Err(
                Error::InvalidData { message },
            ) && message@ == "Raw audio byte length is not aligned to the sample format"@),
            (self.input().len() as int) % (sample_width(self.shape().0) as int) == 0 && (
            self.input().len() as int) % self.shape().1 != 0 ==> (r matches Err(
                Error::InvalidArgument { name, message },
            ) && name@ == "samples"@ && message@
                == "Interleaved PCM sample count must be divisible by the channel count"@),
            (self.input().len() as int) % self.shape().1 == 0 ==> r is Ok,
    {
        let ghost n = self.input().len() as int;
        let ghost fw = self.frame_width as int;
        let ghost w = self.width as int;
        proof {
            let d = self.decoded@.len() as int;
            let p = self.pending@.len() as int;
            vstd::arithmetic::div_mod::lemma_fundamental_div_mod(d, fw);
            assert((d / fw) * fw == d) by (nonlinear_arith)
                requires
                    d == fw * (d / fw) + 0,
            ;
            vstd::arithmetic::div_mod::lemma_fundamental_div_mod_converse(n, fw, d / fw, p);
            assert(n % fw == p);
            vstd::arithmetic::div_mod::lemma_fundamental_div_mod(fw, w);
            vstd::arithmetic::div_mod::lemma_mod_mod(n, w, fw / w);
            assert(w * (fw / w) == fw);
            assert((n % fw) % w == n % w);
            if p == 0 {
                vstd::arithmetic::div_mod::lemma_small_mod(0, w as nat);
            }
        }
        if self.pending.len() % self.width != 0 {
            return Err(Error::invalid_data("Raw audio byte length is not aligned to the sample format"));
        }
        if self.pending.len() != 0 {
            return Err(
                Error::invalid_argument(
                    "samples",
                    "Interleaved PCM sample count must be divisible by the channel count",
                ),
            );
        }
        Ok(())
    }
}

} // verus!

verus! {

/// Decodes raw audio bytes into interleaved 16-bit PCM.
/// This retains the entire decoded recording in memory.
pub fn decode_raw_audio_reader(bytes: &[u8], config: &RawAudioConfig) -> (r: Result<PcmAudio, Error>)
    ensures
        match raw_config_error(config.sample_rate, config.channels) {
            Some(e) => r matches Err(err) && is_raw_argument_error(err, e),
            None => if (bytes@.len() as int) % (sample_width(config.sample_format) as int) != 0 {
                r matches Err(Error::InvalidData { message }) && message@
                    == "Raw audio byte length is not aligned to the sample format"@
            } else if (bytes@.len() as int) % frame_width(*config) != 0 {
                r matches Err(Error::InvalidArgument { name, message }) && name@ == "samples"@
                    && message@ == "Interleaved PCM sample count must be divisible by the channel count"@
            } else {
                r matches Ok(p) && p@ == (PcmView {
                    sample_rate: config.sample_rate,
                    channels: config.channels,
                    channel_mask: default_mask_for(config.channels),
                    samples: raw_samples(bytes@, config.sample_format),
                })
            },
        },
{
    let mut decoder = RawBlockDecoder::new(config)?;
    let samples = decoder.feed(bytes);
    decoder.finish()?;
    let ghost n = bytes@.len() as int;
    let ghost w = sample_width(config.sample_format) as int;
    let ghost c = config.channels as int;
    proof {
        assert(decoder.input() =~= bytes@);
        let fw = w * c;
        vstd::arithmetic::div_mod::lemma_fundamental_div_mod(n, fw);
        let k = n / fw;
        assert(n == (k * c) * w) by (nonlinear_arith)
            requires
                n == fw * k + 0,
                fw == w * c,
        ;
        vstd::arithmetic::div_mod::lemma_div_by_multiple(k * c, w);
        assert(decoder.decoded_len() == n) by (nonlinear_arith)
            requires
                decoder.decoded_len() == k * fw,
                n == fw * k,
        ;
        assert(bytes@.subrange(0, n) =~= bytes@);
        assert(samples@.len() == k * c);
        vstd::arithmetic::div_mod::lemma_mod_multiples_basic(k, c);
    }
    PcmAudio::new(config.sample_rate, config.channels, samples)
}

/// The number of whole frames in `byte_len` bytes of raw audio, when it fits in `usize`.
pub fn raw_frame_count(byte_len: u64, config: &RawAudioConfig) -> (r: Result<usize, Error>)
    requires
        config.channels > 0,
    ensures
        (byte_len as int) / frame_width(*config) <= usize::MAX ==> r == Ok::<usize, Error>(
            ((byte_len as int) / frame_width(*config)) as usize,
        ),
        (byte_len as int) / frame_width(*config) > usize::MAX ==> (r matches Err(
            Error::InvalidData { message },
        ) && message@ == "Audio frame count is too large"@),
{
    let width = raw_sample_width(config.sample_format) as u64;
    proof {
        assert(width * config.channels <= 8 * 65535) by (nonlinear_arith)
            requires
                width <= 8,
                config.channels <= 65535,
        ;
    }
    let frame_width = width * (config.channels as u64);
    proof {
        assert(frame_width >= 1) by (nonlinear_arith)
            requires
                frame_width == width * config.channels,
                width >= 1,
                config.channels >= 1,
        ;
    }
    let frames = byte_len / frame_width;
    if frames > usize::MAX as u64 {
        return Err(Error::invalid_data("Audio frame count is too large"));
    }
    Ok(frames as usize)
}

} // verus!

verus! {

/// The length of the whole frames in `n` bytes.
pub open spec fn whole_frames(n: int, fw: int) -> int {
    n / fw * fw
}

/// Concatenation of byte chunks.
pub open spec fn concat_chunks(chunks: Seq<Seq<u8>>) -> Seq<u8>
    decreases chunks.len(),
{
    if chunks.len() == 0 {
        Seq::empty()
    } else {
        concat_chunks(chunks.drop_last()) + chunks.last()
    }
}

/// The samples that an incremental decoder hands out over a sequence of chunks: after
/// each chunk, the samples of the frames it completed.
pub open spec fn raw_outputs(chunks: Seq<Seq<u8>>, f: RawSampleFormat, fw: int) -> Seq<i16>
    decreases chunks.len(),
{
    if chunks.len() == 0 {
        Seq::empty()
    } else {
        let all = concat_chunks(chunks);
        raw_outputs(chunks.drop_last(), f, fw) + raw_samples(
            all.subrange(
                whole_frames(concat_chunks(chunks.drop_last()).len() as int, fw),
                whole_frames(all.len() as int, fw),
            ),
            f,
        )
    }
}

proof fn lemma_whole_frames(n: int, m: int, fw: int)
    requires
        0 <= n <= m,
        fw > 0,
    ensures
        0 <= whole_frames(n, fw) <= whole_frames(m, fw) <= m,
        whole_frames(n, fw) <= n,
        whole_frames(n, fw) % fw == 0,
{
    vstd::arithmetic::div_mod::lemma_div_is_ordered(n, m, fw);
    vstd::arithmetic::div_mod::lemma_div_pos_is_pos(n, fw);
    vstd::arithmetic::div_mod::lemma_fundamental_div_mod(n, fw);
    vstd::arithmetic::div_mod::lemma_fundamental_div_mod(m, fw);
    assert(n / fw * fw <= m / fw * fw) by (nonlinear_arith)
        requires
            n / fw <= m / fw,
            fw > 0,
    ;
    assert(0 <= n / fw * fw) by (nonlinear_arith)
        requires
            0 <= n / fw,
            fw > 0,
    ;
    vstd::arithmetic::div_mod::lemma_mod_multiples_basic(n / fw, fw);
}

/// Raw input split into reads of any sizes decodes to the same samples: the samples that
/// the incremental decoder hands out over all chunks are those of the whole frames of
/// their concatenation (all of it, when the input holds whole frames).
pub proof fn raw_chunking_preserves_samples(chunks: Seq<Seq<u8>>, f: RawSampleFormat, fw: int)
    requires
        fw > 0,
        fw % (sample_width(f) as int) == 0,
    ensures
        raw_outputs(chunks, f, fw) == raw_samples(
            concat_chunks(chunks).subrange(0, whole_frames(concat_chunks(chunks).len() as int, fw)),
            f,
        ),
    decreases chunks.len(),
{
    let all = concat_chunks(chunks);
    if chunks.len() == 0 {
        assert(0int / fw * fw == 0) by (nonlinear_arith)
            requires
                fw > 0,
        ;
        assert(all.subrange(0, whole_frames(0, fw)) =~= Seq::<u8>::empty());
        assert(raw_samples(Seq::<u8>::empty(), f) =~= Seq::<i16>::empty());
    } else {
        let front = concat_chunks(chunks.drop_last());
        raw_chunking_preserves_samples(chunks.drop_last(), f, fw);
        let w1 = whole_frames(front.len() as int, fw);
        let w2 = whole_frames(all.len() as int, fw);
        lemma_whole_frames(front.len() as int, all.len() as int, fw);
        assert(front.subrange(0, w1) =~= all.subrange(0, w1));
        let a = all.subrange(0, w1);
        let b = all.subrange(w1, w2);
        let w = sample_width(f) as int;
        assert(w1 % w == 0) by {
            let k = fw / w;
            vstd::arithmetic::div_mod::lemma_fundamental_div_mod(fw, w);
            assert(w1 == (front.len() as int / fw * k) * w) by (nonlinear_arith)
                requires
                    w1 == front.len() as int / fw * fw,
                    fw == w * k + 0,
            ;
            vstd::arithmetic::div_mod::lemma_mod_multiples_basic(front.len() as int / fw * k, w);
        }
        raw_samples_concatenate(a, b, f);
        assert(a + b =~= all.subrange(0, w2));
    }
}

} // verus!

verus! {

/// `(lo + 256 * hi) / 256 == hi` for a low byte `lo`.
proof fn lemma_drop_low_byte(lo: int, hi: int)
    requires
        0 <= lo < 256,
    ensures
        (lo + 256 * hi) / 256 == hi,
{
    vstd::arithmetic::div_mod::lemma_fundamental_div_mod_converse(lo + 256 * hi, 256, hi, lo);
}

/// Integer samples keep their two most significant bytes: the 16-bit sample is the
/// most significant byte, read as two's complement (unsigned and offset by 128 for
/// `U8`), times 256, plus the next byte (none for 8-bit formats). In particular it is
/// negative exactly when the most significant byte is `0x80` or more (less than `0x80`
/// for `U8`), and the byte order only decides which byte is the most significant.
pub proof fn integer_samples_keep_the_high_bytes(b: Seq<u8>)
    requires
        b.len() >= 4,
    ensures
        ({
            let top = |x: u8| if x >= 0x80 {
                x - 256
            } else {
                x as int
            };
            &&& raw_sample_value(b, RawSampleFormat::S8) == top(b[0]) * 256
            &&& raw_sample_value(b, RawSampleFormat::U8) == (b[0] - 128) * 256
            &&& raw_sample_value(b, RawSampleFormat::S16Le) == top(b[1]) * 256 + b[0]
            &&& raw_sample_value(b, RawSampleFormat::S16Be) == top(b[0]) * 256 + b[1]
            &&& raw_sample_value(b, RawSampleFormat::S24Le) == top(b[2]) * 256 + b[1]
            &&& raw_sample_value(b, RawSampleFormat::S24Be) == top(b[0]) * 256 + b[1]
            &&& raw_sample_value(b, RawSampleFormat::S32Le) == top(b[3]) * 256 + b[2]
            &&& raw_sample_value(b, RawSampleFormat::S32Be) == top(b[0]) * 256 + b[1]
            &&& (raw_sample_value(b, RawSampleFormat::S16Le) < 0 <==> b[1] >= 0x80)
            &&& (raw_sample_value(b, RawSampleFormat::S16Be) < 0 <==> b[0] >= 0x80)
            &&& (raw_sample_value(b, RawSampleFormat::S24Le) < 0 <==> b[2] >= 0x80)
            &&& (raw_sample_value(b, RawSampleFormat::S24Be) < 0 <==> b[0] >= 0x80)
            &&& (raw_sample_value(b, RawSampleFormat::S32Le) < 0 <==> b[3] >= 0x80)
            &&& (raw_sample_value(b, RawSampleFormat::S32Be) < 0 <==> b[0] >= 0x80)
            &&& (raw_sample_value(b, RawSampleFormat::S8) < 0 <==> b[0] >= 0x80)
            &&& (raw_sample_value(b, RawSampleFormat::U8) < 0 <==> b[0] < 0x80)
        }),
{
    let top = |x: u8| if x >= 0x80 {
        x - 256
    } else {
        x as int
    };
    // 24-bit: the low byte is dropped.
    lemma_drop_low_byte(b[0] as int, b[1] + 256 * top(b[2]));
    lemma_drop_low_byte(b[2] as int, b[1] + 256 * top(b[0]));
    // 32-bit: the two low bytes are dropped.
    vstd::arithmetic::div_mod::lemma_fundamental_div_mod_converse(
        signed32(le32(b, 0)),
        0x1_0000,
        b[2] + 256 * top(b[3]),
        b[0] + 256 * b[1],
    );
    vstd::arithmetic::div_mod::lemma_fundamental_div_mod_converse(
        signed32(be32(b, 0)),
        0x1_0000,
        b[1] + 256 * top(b[0]),
        b[3] + 256 * b[2],
    );
}

/// Big-endian samples are the little-endian samples of the reversed bytes, for every
/// sample format.
pub proof fn byte_order_reverses_bytes(b: Seq<u8>)
    requires
        b.len() == 8,
    ensures
        raw_sample_value(b.subrange(0, 2), RawSampleFormat::S16Be) == raw_sample_value(
            b.subrange(0, 2).reverse(),
            RawSampleFormat::S16Le,
        ),
        raw_sample_value(b.subrange(0, 3), RawSampleFormat::S24Be) == raw_sample_value(
            b.subrange(0, 3).reverse(),
            RawSampleFormat::S24Le,
        ),
        raw_sample_value(b.subrange(0, 4), RawSampleFormat::S32Be) == raw_sample_value(
            b.subrange(0, 4).reverse(),
            RawSampleFormat::S32Le,
        ),
        raw_sample_value(b.subrange(0, 4), RawSampleFormat::F32Be) == raw_sample_value(
            b.subrange(0, 4).reverse(),
            RawSampleFormat::F32Le,
        ),
        raw_sample_value(b, RawSampleFormat::F64Be) == raw_sample_value(
            b.reverse(),
            RawSampleFormat::F64Le,
        ),
{
}

} // verus!

verus! {

/// A run of raw bytes decodes sample by sample: 8-bit formats take one byte per sample,
/// 16-bit two, 24-bit three, 32-bit and binary32 four, binary64 eight; the run gives one
/// sample per whole group of bytes, sample `i` from bytes `i * w .. i * w + w`, and any
/// trailing partial sample is not decoded.
pub proof fn raw_runs_decode_sample_by_sample(bytes: Seq<u8>, f: RawSampleFormat, i: int)
    ensures
        ({
            let w: int = match f {
                RawSampleFormat::S8 | RawSampleFormat::U8 => 1,
                RawSampleFormat::S16Le | RawSampleFormat::S16Be => 2,
                RawSampleFormat::S24Le | RawSampleFormat::S24Be => 3,
                RawSampleFormat::F64Le | RawSampleFormat::F64Be => 8,
                _ => 4,
            };
            &&& raw_samples(bytes, f).len() * w <= bytes.len() < (raw_samples(bytes, f).len()
                + 1) * w
            &&& 0 <= i < raw_samples(bytes, f).len() ==> raw_samples(bytes, f)[i]
                == raw_sample_value(bytes.subrange(i * w, i * w + w), f) as i16
        }),
{
    let w = sample_width(f) as int;
    vstd::arithmetic::div_mod::lemma_fundamental_div_mod(bytes.len() as int, w);
    let q = (bytes.len() as int) / w;
    assert(q * w <= bytes.len() < (q + 1) * w) by (nonlinear_arith)
        requires
            bytes.len() == w * q + (bytes.len() as int) % w,
            0 <= (bytes.len() as int) % w < w,
    ;
}

} // verus!
