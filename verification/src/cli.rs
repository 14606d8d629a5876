//! Command-line argument decisions: format selection from names and paths, option
//! checks, and the choice of operation for an input and output format.
use vstd::prelude::*;
use vstd::string::*;

use crate::error::{error_text, Error};
use crate::format::{path_extension, path_extension_of, AudioFormat, WaveformFormat};
use crate::raw::{RawAudioConfig, RawSampleFormat};
use crate::text::{ascii_lowercase, eq_ascii_lowercase};

verus! {

/// Formats that the command line accepts for input and output.
#[derive(Clone, Copy, Debug, PartialEq, Eq, Structural)]
pub enum CliFormat {
    /// AAC in ADTS.
    Aac,
    /// AIFF or AIFF-C.
    Aiff,
    /// Core Audio Format.
    Caf,
    /// MP4 family containers.
    Mp4,
    /// Matroska or WebM.
    Mkv,
    /// MPEG layer I.
    Mp1,
    /// MPEG layer II.
    Mp2,
    /// MP3.
    Mp3,
    /// WAV.
    Wav,
    /// FLAC.
    Flac,
    /// Ogg.
    Ogg,
    /// Opus.
    Opus,
    /// Raw samples.
    Raw,
    /// Binary waveform data.
    Dat,
    /// JSON waveform data.
    Json,
    /// Text waveform data.
    Txt,
    /// PNG image.
    Png,
}

/// The command-line format that a file extension names, compared without regard to
/// ASCII case; `Err` holds the message, where `path` is the file's path.
pub open spec fn cli_format_for_extension(e: Seq<char>, path: Seq<char>) -> Result<CliFormat, Seq<char>> {
    let l = ascii_lowercase(e);
    if l == "aac"@ || l == "adts"@ {
        Ok(CliFormat::Aac)
    } else if l == "aiff"@ || l == "aif"@ || l == "aifc"@ {
        Ok(CliFormat::Aiff)
    } else if l == "caf"@ {
        Ok(CliFormat::Caf)
    } else if l == "mp4"@ || l == "m4a"@ || l == "m4b"@ || l == "m4r"@ || l == "m4v"@ || l
        == "mov"@ {
        Ok(CliFormat::Mp4)
    } else if l == "mkv"@ || l == "mka"@ || l == "webm"@ {
        Ok(CliFormat::Mkv)
    } else if l == "mp1"@ {
        Ok(CliFormat::Mp1)
    } else if l == "mp2"@ {
        Ok(CliFormat::Mp2)
    } else if l == "mp3"@ {
        Ok(CliFormat::Mp3)
    } else if l == "wav"@ {
        Ok(CliFormat::Wav)
    } else if l == "w64"@ {
        Err("Unsupported format: w64"@)
    } else if l == "flac"@ {
        Ok(CliFormat::Flac)
    } else if l == "ogg"@ || l == "oga"@ {
        Ok(CliFormat::Ogg)
    } else if l == "opus"@ {
        Ok(CliFormat::Opus)
    } else if l == "raw"@ {
        Ok(CliFormat::Raw)
    } else if l == "dat"@ {
        Ok(CliFormat::Dat)
    } else if l == "json"@ {
        Ok(CliFormat::Json)
    } else if l == "txt"@ {
        Ok(CliFormat::Txt)
    } else if l == "png"@ {
        Ok(CliFormat::Png)
    } else {
        Err("Unknown file format: "@ + path)
    }
}

/// The audio format of a command-line format, when it is an audio input.
pub open spec fn cli_audio_format(f: CliFormat) -> Option<AudioFormat> {
    match f {
        CliFormat::Aac => Some(AudioFormat::Aac),
        CliFormat::Aiff => Some(AudioFormat::Aiff),
        CliFormat::Caf => Some(AudioFormat::Caf),
        CliFormat::Mp4 => Some(AudioFormat::Mp4),
        CliFormat::Mkv => Some(AudioFormat::Mkv),
        CliFormat::Mp1 => Some(AudioFormat::Mp1),
        CliFormat::Mp2 => Some(AudioFormat::Mp2),
        CliFormat::Mp3 => Some(AudioFormat::Mp3),
        CliFormat::Wav => Some(AudioFormat::Wav),
        CliFormat::Flac => Some(AudioFormat::Flac),
        CliFormat::Ogg => Some(AudioFormat::Ogg),
        CliFormat::Opus => Some(AudioFormat::Opus),
        CliFormat::Raw => Some(AudioFormat::Raw),
        _ => None,
    }
}

/// The waveform data format of a command-line format, when it is one.
pub open spec fn cli_waveform_format(f: CliFormat) -> Option<WaveformFormat> {
    match f {
        CliFormat::Dat => Some(WaveformFormat::Dat),
        CliFormat::Json => Some(WaveformFormat::Json),
        CliFormat::Txt => Some(WaveformFormat::Txt),
        _ => None,
    }
}

/// The lowercase name of a command-line format.
pub open spec fn cli_format_name(f: CliFormat) -> Seq<char> {
    match f {
        CliFormat::Aac => "aac"@,
        CliFormat::Aiff => "aiff"@,
        CliFormat::Caf => "caf"@,
        CliFormat::Mp4 => "mp4"@,
        CliFormat::Mkv => "mkv"@,
        CliFormat::Mp1 => "mp1"@,
        CliFormat::Mp2 => "mp2"@,
        CliFormat::Mp3 => "mp3"@,
        CliFormat::Wav => "wav"@,
        CliFormat::Flac => "flac"@,
        CliFormat::Ogg => "ogg"@,
        CliFormat::Opus => "opus"@,
        CliFormat::Raw => "raw"@,
        CliFormat::Dat => "dat"@,
        CliFormat::Json => "json"@,
        CliFormat::Txt => "txt"@,
        CliFormat::Png => "png"@,
    }
}

/// Concatenates two strings.
fn concat(a: &str, b: &str) -> (s: String)
    ensures
        s@ == a@ + b@,
{
    let mut s = String::from_str(a);
    s.append(b);
    s
}

impl CliFormat {
    /// Selects a format from a file extension.
    pub fn from_extension_of(extension: &str, path: &str) -> (r: Result<CliFormat, String>)
        ensures
            match cli_format_for_extension(extension@, path@) {
                Ok(f) => r matches Ok(g) && g == f,
                Err(m) => r matches Err(s) && s@ == m,
            },
    {
        let e = extension;
        if eq_ascii_lowercase(e, "aac") || eq_ascii_lowercase(e, "adts") {
            Ok(CliFormat::Aac)
        } else if eq_ascii_lowercase(e, "aiff") || eq_ascii_lowercase(e, "aif")
            || eq_ascii_lowercase(e, "aifc") {
            Ok(CliFormat::Aiff)
        } else if eq_ascii_lowercase(e, "caf") {
            Ok(CliFormat::Caf)
        } else if eq_ascii_lowercase(e, "mp4") || eq_ascii_lowercase(e, "m4a")
            || eq_ascii_lowercase(e, "m4b") || eq_ascii_lowercase(e, "m4r")
            || eq_ascii_lowercase(e, "m4v") || eq_ascii_lowercase(e, "mov") {
            Ok(CliFormat::Mp4)
        } else if eq_ascii_lowercase(e, "mkv") || eq_ascii_lowercase(e, "mka")
            || eq_ascii_lowercase(e, "webm") {
            Ok(CliFormat::Mkv)
        } else if eq_ascii_lowercase(e, "mp1") {
            Ok(CliFormat::Mp1)
        } else if eq_ascii_lowercase(e, "mp2") {
            Ok(CliFormat::Mp2)
        } else if eq_ascii_lowercase(e, "mp3") {
            Ok(CliFormat::Mp3)
        } else if eq_ascii_lowercase(e, "wav") {
            Ok(CliFormat::Wav)
        } else if eq_ascii_lowercase(e, "w64") {
            Err(String::from_str("Unsupported format: w64"))
        } else if eq_ascii_lowercase(e, "flac") {
            Ok(CliFormat::Flac)
        } else if eq_ascii_lowercase(e, "ogg") || eq_ascii_lowercase(e, "oga") {
            Ok(CliFormat::Ogg)
        } else if eq_ascii_lowercase(e, "opus") {
            Ok(CliFormat::Opus)
        } else if eq_ascii_lowercase(e, "raw") {
            Ok(CliFormat::Raw)
        } else if eq_ascii_lowercase(e, "dat") {
            Ok(CliFormat::Dat)
        } else if eq_ascii_lowercase(e, "json") {
            Ok(CliFormat::Json)
        } else if eq_ascii_lowercase(e, "txt") {
            Ok(CliFormat::Txt)
        } else if eq_ascii_lowercase(e, "png") {
            Ok(CliFormat::Png)
        } else {
            Err(concat("Unknown file format: ", path))
        }
    }

    /// Selects a format from a filesystem path's extension.
    pub fn from_path(path: &str) -> (r: Result<CliFormat, String>)
        ensures
            match path_extension(path@) {
                None => r matches Err(s) && s@ == "Unknown file format: "@ + path@,
                Some(e) => match cli_format_for_extension(e, path@) {
                    Ok(f) => r matches Ok(g) && g == f,
                    Err(m) => r matches Err(s) && s@ == m,
                },
            },
    {
        match path_extension_of(path) {
            Some(e) => CliFormat::from_extension_of(e.as_str(), path),
            None => Err(concat("Unknown file format: ", path)),
        }
    }

    /// Whether the format is an audio input.
    pub fn is_audio_input(self) -> (r: bool)
        ensures
            r == cli_audio_format(self) is Some,
    {
        self.as_audio_format().is_some()
    }

    /// Whether the format is a waveform data input.
    pub fn is_waveform_input(self) -> (r: bool)
        ensures
            r == (self == CliFormat::Dat || self == CliFormat::Json),
    {
        match self {
            CliFormat::Dat | CliFormat::Json => true,
            _ => false,
        }
    }

    /// The library audio format of an audio input.
    pub fn as_audio_format(self) -> (r: Option<AudioFormat>)
        ensures
            r == cli_audio_format(self),
    {
        match self {
            CliFormat::Aac => Some(AudioFormat::Aac),
            CliFormat::Aiff => Some(AudioFormat::Aiff),
            CliFormat::Caf => Some(AudioFormat::Caf),
            CliFormat::Mp4 => Some(AudioFormat::Mp4),
            CliFormat::Mkv => Some(AudioFormat::Mkv),
            CliFormat::Mp1 => Some(AudioFormat::Mp1),
            CliFormat::Mp2 => Some(AudioFormat::Mp2),
            CliFormat::Mp3 => Some(AudioFormat::Mp3),
            CliFormat::Wav => Some(AudioFormat::Wav),
            CliFormat::Flac => Some(AudioFormat::Flac),
            CliFormat::Ogg => Some(AudioFormat::Ogg),
            CliFormat::Opus => Some(AudioFormat::Opus),
            CliFormat::Raw => Some(AudioFormat::Raw),
            _ => None,
        }
    }

    /// The library waveform data format, when the format is one.
    pub fn as_waveform_format(self) -> (r: Option<WaveformFormat>)
        ensures
            r == cli_waveform_format(self),
    {
        match self {
            CliFormat::Dat => Some(WaveformFormat::Dat),
            CliFormat::Json => Some(WaveformFormat::Json),
            CliFormat::Txt => Some(WaveformFormat::Txt),
            _ => None,
        }
    }

    /// The lowercase name of the format.
    pub fn name(self) -> (s: &'static str)
        ensures
            s@ == cli_format_name(self),
    {
        match self {
            CliFormat::Aac => "aac",
            CliFormat::Aiff => "aiff",
            CliFormat::Caf => "caf",
            CliFormat::Mp4 => "mp4",
            CliFormat::Mkv => "mkv",
            CliFormat::Mp1 => "mp1",
            CliFormat::Mp2 => "mp2",
            CliFormat::Mp3 => "mp3",
            CliFormat::Wav => "wav",
            CliFormat::Flac => "flac",
            CliFormat::Ogg => "ogg",
            CliFormat::Opus => "opus",
            CliFormat::Raw => "raw",
            CliFormat::Dat => "dat",
            CliFormat::Json => "json",
            CliFormat::Txt => "txt",
            CliFormat::Png => "png",
        }
    }
}

/// Raw sample formats as the command line names them.
#[derive(Clone, Copy, Debug, PartialEq, Eq)]
pub enum CliRawSampleFormat {
    /// `s8`
    S8,
    /// `u8`
    U8,
    /// `s16le`
    S16Le,
    /// `s16be`
    S16Be,
    /// `s24le`
    S24Le,
    /// `s24be`
    S24Be,
    /// `s32le`
    S32Le,
    /// `s32be`
    S32Be,
    /// `f32le`
    F32Le,
    /// `f32be`
    F32Be,
    /// `f64le`
    F64Le,
    /// `f64be`
    F64Be,
}

/// The library's raw sample format of the same name.
pub open spec fn raw_format_of(f: CliRawSampleFormat) -> RawSampleFormat {
    match f {
        CliRawSampleFormat::S8 => RawSampleFormat::S8,
        CliRawSampleFormat::U8 => RawSampleFormat::U8,
        CliRawSampleFormat::S16Le => RawSampleFormat::S16Le,
        CliRawSampleFormat::S16Be => RawSampleFormat::S16Be,
        CliRawSampleFormat::S24Le => RawSampleFormat::S24Le,
        CliRawSampleFormat::S24Be => RawSampleFormat::S24Be,
        CliRawSampleFormat::S32Le => RawSampleFormat::S32Le,
        CliRawSampleFormat::S32Be => RawSampleFormat::S32Be,
        CliRawSampleFormat::F32Le => RawSampleFormat::F32Le,
        CliRawSampleFormat::F32Be => RawSampleFormat::F32Be,
        CliRawSampleFormat::F64Le => RawSampleFormat::F64Le,
        CliRawSampleFormat::F64Be => RawSampleFormat::F64Be,
    }
}

impl CliRawSampleFormat {
    /// The library's raw sample format of the same name.
    pub fn into_library(self) -> (r: RawSampleFormat)
        ensures
            r == raw_format_of(self),
    {
        match self {
            CliRawSampleFormat::S8 => RawSampleFormat::S8,
            CliRawSampleFormat::U8 => RawSampleFormat::U8,
            CliRawSampleFormat::S16Le => RawSampleFormat::S16Le,
            CliRawSampleFormat::S16Be => RawSampleFormat::S16Be,
            CliRawSampleFormat::S24Le => RawSampleFormat::S24Le,
            CliRawSampleFormat::S24Be => RawSampleFormat::S24Be,
            CliRawSampleFormat::S32Le => RawSampleFormat::S32Le,
            CliRawSampleFormat::S32Be => RawSampleFormat::S32Be,
            CliRawSampleFormat::F32Le => RawSampleFormat::F32Le,
            CliRawSampleFormat::F32Be => RawSampleFormat::F32Be,
            CliRawSampleFormat::F64Le => RawSampleFormat::F64Le,
            CliRawSampleFormat::F64Be => RawSampleFormat::F64Be,
        }
    }
}

/// Whether a filename names standard input or output: absent or `-`.
pub fn is_stdio_filename(filename: Option<&str>) -> (r: bool)
    ensures
        r == match filename {
            None => true,
            Some(f) => f@ == "-"@,
        },
{
    match filename {
        None => true,
        Some(f) => {
            let r = f.unicode_len() == 1 && f.get_char(0) == '-';
            proof {
                reveal_strlit("-");
                if r {
                    assert(f@ =~= "-"@);
                } else if f@ == "-"@ {
                    assert(f@[0] == '-');
                }
            }
            r
        },
    }
}

/// The message that the command line prints for a library error.
pub fn stringify_error(error: Error) -> (s: String)
    ensures
        s@ == error_text(error),
{
    error.to_string()
}

/// The outcome of choosing a format: `Ok` with it, or `Err` with the message.
pub open spec fn format_choice(filename: Option<Seq<char>>, explicit: Option<CliFormat>, input: bool) -> Result<CliFormat, Seq<char>> {
    match explicit {
        Some(f) => Ok(f),
        None => match filename {
            Some(path) => match path_extension(path) {
                None => Err("Unknown file format: "@ + path),
                Some(e) => cli_format_for_extension(e, path),
            },
            None => Err(
                if input {
                    "Error: Must specify either input filename or input format"@
                } else {
                    "Error: Must specify either output filename or output format"@
                },
            ),
        },
    }
}

/// The outcome of the bit depth option.
pub open spec fn bits_choice(bits: Option<i32>) -> Result<Option<u8>, Seq<char>> {
    match bits {
        None => Ok(None),
        Some(b) => if b == 8 || b == 16 {
            Ok(Some(b as u8))
        } else {
            Err("Error: Invalid bits: must be either 8 or 16"@)
        },
    }
}

/// The outcome of the PNG compression option.
pub open spec fn compression_choice(compression: i32) -> Result<Option<i32>, Seq<char>> {
    if -1 <= compression <= 9 {
        Ok(
            if compression >= 0 {
                Some(compression)
            } else {
                None
            },
        )
    } else {
        Err("Error: Invalid compression level: must be from 0 (none) to 9 (best), or -1 (default)"@)
    }
}

/// Picks the input or output format: an explicit format wins, then the filename's
/// extension; with neither, the message names what is missing.
pub fn resolve_format(filename: Option<&str>, explicit: Option<CliFormat>, input: bool) -> (r: Result<
    CliFormat,
    String,
>)
    ensures
        match explicit {
            Some(f) => r matches Ok(g) && g == f,
            None => match filename {
                Some(path) => match path_extension(path@) {
                    None => r matches Err(s) && s@ == "Unknown file format: "@ + path@,
                    Some(e) => match cli_format_for_extension(e, path@) {
                        Ok(f) => r matches Ok(g) && g == f,
                        Err(m) => r matches Err(s) && s@ == m,
                    },
                },
                None => r matches Err(s) && s@ == if input {
                    "Error: Must specify either input filename or input format"@
                } else {
                    "Error: Must specify either output filename or output format"@
                },
            },
        },
        match format_choice(
            match filename {
                Some(f) => Some(f@),
                None => None,
            },
            explicit,
            input,
        ) {
            Ok(f) => r matches Ok(g) && g == f,
            Err(m) => r matches Err(s) && s@ == m,
        },
{
    if let Some(f) = explicit {
        return Ok(f);
    }
    if let Some(path) = filename {
        return CliFormat::from_path(path);
    }
    Err(
        if input {
            String::from_str("Error: Must specify either input filename or input format")
        } else {
            String::from_str("Error: Must specify either output filename or output format")
        },
    )
}

/// Accepts a waveform bit depth of 8 or 16, when one is given.
pub fn resolve_bits(bits: Option<i32>) -> (r: Result<Option<u8>, String>)
    ensures
        match bits {
            None => r matches Ok(None),
            Some(b) => if b == 8 || b == 16 {
                r matches Ok(Some(v)) && v == b
            } else {
                r matches Err(s) && s@ == "Error: Invalid bits: must be either 8 or 16"@
            },
        },
        match bits_choice(bits) {
            Ok(v) => r == Ok::<Option<u8>, String>(v),
            Err(m) => r matches Err(s) && s@ == m,
        },
{
    match bits {
        None => Ok(None),
        Some(b) => if b == 8 || b == 16 {
            Ok(Some(b as u8))
        } else {
            Err(String::from_str("Error: Invalid bits: must be either 8 or 16"))
        },
    }
}

/// Accepts a PNG compression level from 0 to 9, or -1 for the default (`None`).
pub fn resolve_compression(compression: i32) -> (r: Result<Option<i32>, String>)
    ensures
        -1 <= compression <= 9 ==> r == Ok::<Option<i32>, String>(
            if compression >= 0 {
                Some(compression)
            } else {
                None
            },
        ),
        !(-1 <= compression <= 9) ==> (r matches Err(s) && s@
            == "Error: Invalid compression level: must be from 0 (none) to 9 (best), or -1 (default)"@),
        match compression_choice(compression) {
            Ok(v) => r == Ok::<Option<i32>, String>(v),
            Err(m) => r matches Err(s) && s@ == m,
        },
{
    if -1 <= compression && compression <= 9 {
        Ok(
            if compression >= 0 {
                Some(compression)
            } else {
                None
            },
        )
    } else {
        Err(
            String::from_str(
                "Error: Invalid compression level: must be from 0 (none) to 9 (best), or -1 (default)",
            ),
        )
    }
}

} // verus!

verus! {

/// Whether `c` is an ASCII decimal digit.
pub open spec fn is_decimal_digit(c: char) -> bool {
    '0' <= c && c <= '9'
}

/// The value of a string of decimal digits.
pub open spec fn digits_value(s: Seq<char>) -> int
    decreases s.len(),
{
    if s.len() == 0 {
        0
    } else {
        digits_value(s.drop_last()) * 10 + (s.last() as int - '0' as int)
    }
}

/// The digits of a decimal string after an optional leading `+`.
pub open spec fn unsigned_digits(s: Seq<char>) -> Seq<char> {
    if s.len() > 0 && s[0] == '+' {
        s.drop_first()
    } else {
        s
    }
}

/// Every character is a decimal digit.
pub open spec fn all_digits(d: Seq<char>) -> bool {
    forall|i: int| 0 <= i < d.len() ==> is_decimal_digit(#[trigger] d[i])
}

/// What `str::parse::<u32>` accepts: an optional `+` and at least one decimal digit,
/// with a value that fits in 32 bits.
pub open spec fn decimal_u32(s: Seq<char>) -> Option<u32> {
    let d = unsigned_digits(s);
    if d.len() > 0 && all_digits(d) && digits_value(d) <= u32::MAX {
        Some(digits_value(d) as u32)
    } else {
        None
    }
}

proof fn lemma_digits_nonneg(d: Seq<char>, i: int)
    requires
        0 <= i <= d.len(),
        forall|k: int| 0 <= k < d.len() ==> is_decimal_digit(#[trigger] d[k]),
    ensures
        0 <= digits_value(d.subrange(0, i)),
    decreases i,
{
    if i > 0 {
        lemma_digits_nonneg(d, i - 1);
        assert(d.subrange(0, i).drop_last() =~= d.subrange(0, i - 1));
        assert(is_decimal_digit(d[i - 1]));
    }
}

proof fn lemma_digits_grow(d: Seq<char>, i: int, j: int)
    requires
        0 <= i <= j <= d.len(),
        forall|k: int| 0 <= k < d.len() ==> is_decimal_digit(#[trigger] d[k]),
    ensures
        0 <= digits_value(d.subrange(0, i)) <= digits_value(d.subrange(0, j)),
    decreases j - i,
{
    lemma_digits_nonneg(d, i);
    if i < j {
        lemma_digits_grow(d, i, j - 1);
        assert(d.subrange(0, j).drop_last() =~= d.subrange(0, j - 1));
        assert(is_decimal_digit(d[j - 1]));
    }
}

/// Parses a decimal `u32` as `str::parse::<u32>` does.
pub fn parse_decimal_u32(s: &str) -> (r: Option<u32>)
    ensures
        r == decimal_u32(s@),
{
    let n = s.unicode_len();
    let start: usize = if n > 0 && s.get_char(0) == '+' {
        1
    } else {
        0
    };
    let ghost d = unsigned_digits(s@);
    proof {
        assert(d =~= s@.subrange(start as int, n as int));
    }
    if start == n {
        return None;
    }
    let mut value: u64 = 0;
    let mut i: usize = start;
    while i < n
        invariant
            start <= i <= n,
            n == s@.len(),
            d =~= s@.subrange(start as int, n as int),
            d == unsigned_digits(s@),
            forall|k: int| 0 <= k < i - start ==> is_decimal_digit(#[trigger] d[k]),
            value == digits_value(d.subrange(0, i - start)),
            value <= u32::MAX,
        decreases n - i,
    {
        let c = s.get_char(i);
        if !('0' <= c && c <= '9') {
            proof {
                assert(d[i - start] == c);
                assert(!is_decimal_digit(d[i - start]));
                assert(!all_digits(d));
            }
            return None;
        }
        let digit = (c as u32 - '0' as u32) as u64;
        proof {
            assert(d[i - start] == c);
            assert(d.subrange(0, i - start + 1).drop_last() =~= d.subrange(0, i - start));
        }
        value = value * 10 + digit;
        if value > u32::MAX as u64 {
            proof {
                let k = i - start + 1;
                assert(value == digits_value(d.subrange(0, k)));
                if all_digits(d) {
                    lemma_digits_grow(d, k, d.len() as int);
                    assert(d.subrange(0, d.len() as int) =~= d);
                    assert(digits_value(d) > u32::MAX);
                }
            }
            return None;
        }
        i = i + 1;
    }
    proof {
        assert(d.subrange(0, d.len() as int) =~= d);
    }
    Some(value as u32)
}

/// How the command line chose the waveform scale.
#[derive(Clone, Copy, Debug, PartialEq, Eq)]
pub enum ScaleChoice {
    /// Fit the time range from `--start` to `--end` into `width_pixels`; the frame count of
    /// the range depends on the source sample rate.
    TimeRange {
        /// Output width in pixels.
        width_pixels: u32,
    },
    /// A scale that the arguments fix completely.
    Fixed(crate::options::ScaleSpec),
}

/// The outcome of the scale options: `Ok` with the choice, or `Err` with the message.
pub open spec fn scale_choice(zoom: Option<Seq<char>>, pixels_per_second: Option<i32>, has_end: bool, width: i32) -> Result<ScaleChoice, Seq<char>> {
    if zoom is Some && has_end {
        Err("Specify either --end or --zoom but not both"@)
    } else if pixels_per_second is Some && has_end {
        Err("Specify either --end or --pixels-per-second but not both"@)
    } else if zoom is Some && pixels_per_second is Some {
        Err("Specify either --zoom or --pixels-per-second but not both"@)
    } else if width < 1 {
        Err("Invalid image width: minimum 1"@)
    } else if has_end {
        Ok(ScaleChoice::TimeRange { width_pixels: width as u32 })
    } else if let Some(pps) = pixels_per_second {
        if pps <= 0 {
            Err("Invalid pixels per second: must be greater than zero"@)
        } else {
            Ok(ScaleChoice::Fixed(crate::options::ScaleSpec::PixelsPerSecond(pps as u32)))
        }
    } else {
        match zoom {
            Some(z) => if z == "auto"@ {
                Ok(
                    ScaleChoice::Fixed(
                        crate::options::ScaleSpec::FitWidth {
                            width_pixels: width as u32,
                            range_frames: None,
                        },
                    ),
                )
            } else {
                match decimal_u32(z) {
                    Some(v) => Ok(ScaleChoice::Fixed(crate::options::ScaleSpec::SamplesPerPixel(v))),
                    None => Err("Error: Invalid zoom: must be a number or 'auto'"@),
                }
            },
            None => Ok(ScaleChoice::Fixed(crate::options::ScaleSpec::SamplesPerPixel(256))),
        }
    }
}

/// Chooses the scale from `--zoom`, `--pixels-per-second`, whether `--end` was given,
/// and `--width`.
pub fn resolve_scale(zoom: Option<&str>, pixels_per_second: Option<i32>, has_end: bool, width: i32) -> (r: Result<
    ScaleChoice,
    String,
>)
    ensures
        match scale_choice(
            match zoom {
                Some(z) => Some(z@),
                None => None,
            },
            pixels_per_second,
            has_end,
            width,
        ) {
            Ok(c) => r matches Ok(d) && d == c,
            Err(m) => r matches Err(s) && s@ == m,
        },
{
    if zoom.is_some() && has_end {
        return Err(String::from_str("Specify either --end or --zoom but not both"));
    }
    if pixels_per_second.is_some() && has_end {
        return Err(String::from_str("Specify either --end or --pixels-per-second but not both"));
    }
    if zoom.is_some() && pixels_per_second.is_some() {
        return Err(String::from_str("Specify either --zoom or --pixels-per-second but not both"));
    }
    if width < 1 {
        return Err(String::from_str("Invalid image width: minimum 1"));
    }
    if has_end {
        return Ok(ScaleChoice::TimeRange { width_pixels: width as u32 });
    }
    if let Some(pps) = pixels_per_second {
        if pps <= 0 {
            return Err(String::from_str("Invalid pixels per second: must be greater than zero"));
        }
        return Ok(ScaleChoice::Fixed(crate::options::ScaleSpec::PixelsPerSecond(pps as u32)));
    }
    match zoom {
        Some(z) => {
            proof {
                reveal_strlit("auto");
            }
            if z.unicode_len() == 4 && z.get_char(0) == 'a' && z.get_char(1) == 'u' && z.get_char(2)
                == 't' && z.get_char(3) == 'o' {
                proof {
                    assert(z@ =~= "auto"@);
                }
                Ok(
                    ScaleChoice::Fixed(
                        crate::options::ScaleSpec::FitWidth {
                            width_pixels: width as u32,
                            range_frames: None,
                        },
                    ),
                )
            } else {
                proof {
                    if z@ == "auto"@ {
                        assert(z@[0] == 'a' && z@[1] == 'u' && z@[2] == 't' && z@[3] == 'o');
                    }
                }
                match parse_decimal_u32(z) {
                    Some(v) => Ok(ScaleChoice::Fixed(crate::options::ScaleSpec::SamplesPerPixel(v))),
                    None => Err(String::from_str("Error: Invalid zoom: must be a number or 'auto'")),
                }
            }
        },
        None => Ok(ScaleChoice::Fixed(crate::options::ScaleSpec::SamplesPerPixel(256))),
    }
}

/// The outcome of the raw input options: `Ok` with the configuration, or `Err` with the
/// message.
pub open spec fn raw_config_choice(sample_rate: Option<i32>, channels: Option<i32>, format: Option<CliRawSampleFormat>) -> Result<(u32, u16), Seq<char>> {
    match (sample_rate, channels, format) {
        (None, _, _) => Err("Error: Missing --raw-samplerate option"@),
        (Some(_), None, _) => Err("Error: Missing --raw-channels option"@),
        (Some(_), Some(_), None) => Err("Error: Missing --raw-format option"@),
        (Some(rate), Some(ch), Some(_)) => if rate <= 0 {
            Err("Invalid input sample rate: must be greater than zero"@)
        } else if ch <= 0 {
            Err("Invalid number of input channels: must be greater than zero"@)
        } else if ch > 65535 {
            Err("Invalid number of input channels: maximum 65535"@)
        } else {
            Ok((rate as u32, ch as u16))
        },
    }
}

/// Builds the raw input configuration from `--raw-samplerate`, `--raw-channels` and
/// `--raw-format`.
pub fn resolve_raw_audio_config(
    sample_rate: Option<i32>,
    channels: Option<i32>,
    format: Option<CliRawSampleFormat>,
) -> (r: Result<RawAudioConfig, String>)
    ensures
        match raw_config_choice(sample_rate, channels, format) {
            Ok((rate, ch)) => r matches Ok(c) && c == (RawAudioConfig {
                sample_rate: rate,
                channels: ch,
                sample_format: raw_format_of(format.unwrap()),
            }),
            Err(m) => r matches Err(s) && s@ == m,
        },
{
    let rate = match sample_rate {
        Some(r) => r,
        None => return Err(String::from_str("Error: Missing --raw-samplerate option")),
    };
    let ch = match channels {
        Some(c) => c,
        None => return Err(String::from_str("Error: Missing --raw-channels option")),
    };
    let f = match format {
        Some(f) => f.into_library(),
        None => return Err(String::from_str("Error: Missing --raw-format option")),
    };
    if rate <= 0 {
        return Err(String::from_str("Invalid input sample rate: must be greater than zero"));
    }
    if ch <= 0 {
        return Err(String::from_str("Invalid number of input channels: must be greater than zero"));
    }
    if ch > 65535 {
        return Err(String::from_str("Invalid number of input channels: maximum 65535"));
    }
    match RawAudioConfig::new(rate as u32, ch as u16, f) {
        Ok(c) => Ok(c),
        Err(e) => Err(stringify_error(e)),
    }
}

/// The operation that an input and output format select.
#[derive(Clone, Copy, Debug, PartialEq, Eq)]
pub enum Operation {
    /// Generate waveform data from audio.
    Generate(WaveformFormat),
    /// Convert or resample waveform data.
    Convert(WaveformFormat),
    /// Transcode audio to WAV.
    Transcode,
    /// Render a PNG image.
    Render,
}

/// The operation for an input and output format: `Ok` with it, or `Err` with the message.
pub open spec fn operation_choice(input: CliFormat, output: CliFormat) -> Result<Operation, Seq<char>> {
    if input == CliFormat::Opus {
        Err("Unsupported format: opus"@)
    } else if output == CliFormat::Wav && cli_audio_format(input) is Some {
        Ok(Operation::Transcode)
    } else if cli_waveform_format(output) is Some && cli_audio_format(input) is Some {
        Ok(Operation::Generate(cli_waveform_format(output).unwrap()))
    } else if cli_waveform_format(output) is Some && (input == CliFormat::Dat || input
        == CliFormat::Json) {
        Ok(Operation::Convert(cli_waveform_format(output).unwrap()))
    } else if output == CliFormat::Png && (cli_audio_format(input) is Some || input
        == CliFormat::Dat || input == CliFormat::Json) {
        Ok(Operation::Render)
    } else {
        Err(
            "Can't generate "@ + cli_format_name(output) + " format output from "@ + cli_format_name(
                input,
            ) + " format input"@,
        )
    }
}

/// Selects the operation, after checking that an audio input can be decoded.
pub fn select_operation(input: CliFormat, output: CliFormat) -> (r: Result<Operation, String>)
    ensures
        match operation_choice(input, output) {
            Ok(o) => r matches Ok(p) && p == o,
            Err(m) => r matches Err(s) && s@ == m,
        },
{
    if let Some(format) = input.as_audio_format() {
        if let Err(e) = format.ensure_enabled() {
            proof {
                reveal_strlit("Unsupported format: ");
                reveal_strlit("opus");
                reveal_strlit("Unsupported format: opus");
                assert("Unsupported format: "@ + "opus"@ =~= "Unsupported format: opus"@);
            }
            return Err(stringify_error(e));
        }
    }
    let waveform_output = output.as_waveform_format();
    if output == CliFormat::Wav && input.is_audio_input() {
        return Ok(Operation::Transcode);
    }
    if let Some(w) = waveform_output {
        if input.is_audio_input() {
            return Ok(Operation::Generate(w));
        }
        if input.is_waveform_input() {
            return Ok(Operation::Convert(w));
        }
    }
    if output == CliFormat::Png && (input.is_audio_input() || input.is_waveform_input()) {
        return Ok(Operation::Render);
    }
    let mut s = String::from_str("Can't generate ");
    s.append(output.name());
    s.append(" format output from ");
    s.append(input.name());
    s.append(" format input");
    Err(s)
}

} // verus!

verus! {

/// Waveform drawing styles as the command line names them.
#[derive(Clone, Copy, Debug, PartialEq, Eq)]
pub enum CliWaveformStyle {
    /// `normal`
    Normal,
    /// `bars`
    Bars,
}

/// Bar end shapes as the command line names them.
#[derive(Clone, Copy, Debug, PartialEq, Eq)]
pub enum CliBarStyle {
    /// `square`
    Square,
    /// `rounded`
    Rounded,
}

/// How the waveform image is drawn.
#[derive(Clone, Copy, Debug, PartialEq, Eq)]
pub enum RenderStyleChoice {
    /// A filled waveform.
    Normal,
    /// Bars of `width` pixels separated by `gap` pixels.
    Bars { width: u32, gap: u32, style: CliBarStyle },
}

/// The drawing style that the style options select, or the message rejecting them.
pub open spec fn render_style_choice(
    style: CliWaveformStyle,
    bar_width: i32,
    bar_gap: i32,
    bar_style: CliBarStyle,
) -> Result<RenderStyleChoice, Seq<char>> {
    match style {
        CliWaveformStyle::Normal => Ok(RenderStyleChoice::Normal),
        CliWaveformStyle::Bars => if bar_width < 1 {
            Err("Invalid bar width: minimum 1"@)
        } else if bar_gap < 0 {
            Err("Invalid bar gap: minimum 0"@)
        } else {
            Ok(RenderStyleChoice::Bars { width: bar_width as u32, gap: bar_gap as u32, style: bar_style })
        },
    }
}

/// Resolves `--waveform-style`, `--bar-width`, `--bar-gap` and `--bar-style`.
pub fn resolve_render_style(
    style: CliWaveformStyle,
    bar_width: i32,
    bar_gap: i32,
    bar_style: CliBarStyle,
) -> (r: Result<RenderStyleChoice, String>)
    ensures
        match render_style_choice(style, bar_width, bar_gap, bar_style) {
            Ok(c) => r == Ok::<RenderStyleChoice, String>(c),
            Err(m) => r matches Err(e) && e@ == m,
        },
{
    match style {
        CliWaveformStyle::Normal => Ok(RenderStyleChoice::Normal),
        CliWaveformStyle::Bars => {
            if bar_width < 1 {
                return Err(String::from_str("Invalid bar width: minimum 1"));
            }
            if bar_gap < 0 {
                return Err(String::from_str("Invalid bar gap: minimum 0"));
            }
            Ok(RenderStyleChoice::Bars { width: bar_width as u32, gap: bar_gap as u32, style: bar_style })
        },
    }
}

/// Command-line arguments as plain values. The amplitude option is a float, so its
/// parsing happens before and only its failure message is carried here.
#[derive(Debug)]
pub struct CliArgs {
    /// `--input-filename`.
    pub input_filename: Option<String>,
    /// `--output-filename`.
    pub output_filename: Option<String>,
    /// `--input-format`.
    pub input_format: Option<CliFormat>,
    /// `--output-format`.
    pub output_format: Option<CliFormat>,
    /// `--bits`.
    pub bits: Option<i32>,
    /// `--compression`.
    pub compression: i32,
    /// The message of a rejected `--amplitude-scale`, if it was rejected.
    pub amplitude_error: Option<String>,
    /// `--waveform-style`.
    pub waveform_style: CliWaveformStyle,
    /// `--bar-width`.
    pub bar_width: i32,
    /// `--bar-gap`.
    pub bar_gap: i32,
    /// `--bar-style`.
    pub bar_style: CliBarStyle,
    /// `--zoom`.
    pub zoom: Option<String>,
    /// `--pixels-per-second`.
    pub pixels_per_second: Option<i32>,
    /// Whether `--end` was given.
    pub has_end: bool,
    /// `--width`.
    pub width: i32,
    /// `--height`.
    pub height: i32,
    /// `--raw-samplerate`.
    pub raw_sample_rate: Option<i32>,
    /// `--raw-channels`.
    pub raw_channels: Option<i32>,
    /// `--raw-format`.
    pub raw_format: Option<CliRawSampleFormat>,
    /// `--split-channels`.
    pub split_channels: bool,
    /// `--quiet`.
    pub quiet: bool,
}

/// The resolved options of one command-line run; building it opens no file.
#[derive(Debug)]
pub struct Request {
    /// Input file, or standard input.
    pub input_filename: Option<String>,
    /// Output file, or standard output.
    pub output_filename: Option<String>,
    /// Input format.
    pub input_format: CliFormat,
    /// The selected operation.
    pub operation: Operation,
    /// Output bit depth, when given.
    pub bits: Option<u8>,
    /// PNG compression level, when not the default.
    pub compression: Option<i32>,
    /// How the image is drawn.
    pub style: RenderStyleChoice,
    /// Scale choice.
    pub scale: ScaleChoice,
    /// Raw input configuration, for raw input.
    pub raw_config: Option<RawAudioConfig>,
    /// Whether a zoom, pixels per second, or end time was given.
    pub has_resample: bool,
    /// Keep channels separate.
    pub split_channels: bool,
    /// Suppress progress messages.
    pub quiet: bool,
    /// Image width in pixels.
    pub width: u32,
    /// Image height in pixels.
    pub height: u32,
}

/// The view of an optional string.
pub open spec fn opt_view(s: Option<String>) -> Option<Seq<char>> {
    match s {
        Some(t) => Some(t@),
        None => None,
    }
}

/// The request that the arguments resolve to, checked in this order: image height,
/// input format, output format, bit depth, compression, amplitude, drawing style, scale,
/// raw input options, then the operation. `Err` holds the first failure's message.
pub open spec fn request_choice(a: CliArgs) -> Result<Request, Seq<char>> {
    if a.height < 1 {
        Err("Invalid image height: minimum 1"@)
    } else {
        match format_choice(opt_view(a.input_filename), a.input_format, true) {
            Err(m) => Err(m),
            Ok(input) => match format_choice(opt_view(a.output_filename), a.output_format, false) {
                Err(m) => Err(m),
                Ok(output) => match bits_choice(a.bits) {
                    Err(m) => Err(m),
                    Ok(bits) => match compression_choice(a.compression) {
                        Err(m) => Err(m),
                        Ok(compression) => match a.amplitude_error {
                            Some(m) => Err(m@),
                            None => match render_style_choice(
                                a.waveform_style,
                                a.bar_width,
                                a.bar_gap,
                                a.bar_style,
                            ) {
                            Err(m) => Err(m),
                            Ok(style) => match scale_choice(
                                opt_view(a.zoom),
                                a.pixels_per_second,
                                a.has_end,
                                a.width,
                            ) {
                                Err(m) => Err(m),
                                Ok(scale) => match (if input == CliFormat::Raw {
                                    match raw_config_choice(
                                        a.raw_sample_rate,
                                        a.raw_channels,
                                        a.raw_format,
                                    ) {
                                        Err(m) => Err(m),
                                        Ok((rate, ch)) => Ok(
                                            Some(
                                                RawAudioConfig {
                                                    sample_rate: rate,
                                                    channels: ch,
                                                    sample_format: raw_format_of(
                                                        a.raw_format.unwrap(),
                                                    ),
                                                },
                                            ),
                                        ),
                                    }
                                } else {
                                    Ok(None)
                                }) {
                                    Err(m) => Err(m),
                                    Ok(raw_config) => match operation_choice(input, output) {
                                        Err(m) => Err(m),
                                        Ok(operation) => Ok(
                                            Request {
                                                input_filename: a.input_filename,
                                                output_filename: a.output_filename,
                                                input_format: input,
                                                operation,
                                                bits,
                                                compression,
                                                style,
                                                scale,
                                                raw_config,
                                                has_resample: a.zoom is Some
                                                    || a.pixels_per_second is Some || a.has_end,
                                                split_channels: a.split_channels,
                                                quiet: a.quiet,
                                                width: a.width as u32,
                                                height: a.height as u32,
                                            },
                                        ),
                                    },
                                },
                            },
                        },
                        },
                    },
                },
            },
        }
    }
}

/// Borrows an optional string.
fn opt_str(s: &Option<String>) -> (r: Option<&str>)
    ensures
        match r {
            Some(t) => opt_view(*s) == Some(t@),
            None => s is None,
        },
{
    match s {
        Some(t) => Some(t.as_str()),
        None => None,
    }
}

/// Resolves the arguments into a request without opening any file.
pub fn resolve_request(args: CliArgs) -> (r: Result<Request, String>)
    ensures
        match request_choice(args) {
            Ok(q) => r matches Ok(req) && req == q,
            Err(m) => r matches Err(s) && s@ == m,
        },
{
    if args.height < 1 {
        return Err(String::from_str("Invalid image height: minimum 1"));
    }
    let input = resolve_format(opt_str(&args.input_filename), args.input_format, true)?;
    let output = resolve_format(opt_str(&args.output_filename), args.output_format, false)?;
    let bits = resolve_bits(args.bits)?;
    let compression = resolve_compression(args.compression)?;
    let CliArgs {
        input_filename,
        output_filename,
        amplitude_error,
        waveform_style,
        bar_width,
        bar_gap,
        bar_style,
        zoom,
        pixels_per_second,
        has_end,
        width,
        height,
        raw_sample_rate,
        raw_channels,
        raw_format,
        split_channels,
        quiet,
        ..
    } = args;
    if let Some(message) = amplitude_error {
        return Err(message);
    }
    let style = resolve_render_style(waveform_style, bar_width, bar_gap, bar_style)?;
    let scale = resolve_scale(opt_str(&zoom), pixels_per_second, has_end, width)?;
    let raw_config = if input == CliFormat::Raw {
        Some(resolve_raw_audio_config(raw_sample_rate, raw_channels, raw_format)?)
    } else {
        None
    };
    let operation = select_operation(input, output)?;
    let has_resample = zoom.is_some() || pixels_per_second.is_some() || has_end;
    Ok(
        Request {
            input_filename,
            output_filename,
            input_format: input,
            operation,
            bits,
            compression,
            style,
            scale,
            raw_config,
            has_resample,
            split_channels,
            quiet,
            width: width as u32,
            height: height as u32,
        },
    )
}

} // verus!

verus! {

/// Every documented extension names its command-line format, in any ASCII case, and
/// Wave64 (`w64`) is refused as unsupported, whatever the path.
pub proof fn documented_extensions_name_cli_formats(e: Seq<char>, path: Seq<char>)
    ensures
        ({
            let l = ascii_lowercase(e);
            &&& (l == "aac"@ || l == "adts"@) ==> cli_format_for_extension(e, path) == Ok::<CliFormat, Seq<char>>(CliFormat::Aac)
            &&& (l == "mp1"@) ==> cli_format_for_extension(e, path) == Ok::<CliFormat, Seq<char>>(CliFormat::Mp1)
            &&& (l == "mp2"@) ==> cli_format_for_extension(e, path) == Ok::<CliFormat, Seq<char>>(CliFormat::Mp2)
            &&& (l == "mp3"@) ==> cli_format_for_extension(e, path) == Ok::<CliFormat, Seq<char>>(CliFormat::Mp3)
            &&& (l == "mp4"@ || l == "m4a"@ || l == "m4b"@ || l == "m4r"@ || l == "m4v"@ || l == "mov"@) ==> cli_format_for_extension(e, path) == Ok::<CliFormat, Seq<char>>(CliFormat::Mp4)
            &&& (l == "mkv"@ || l == "mka"@ || l == "webm"@) ==> cli_format_for_extension(e, path) == Ok::<CliFormat, Seq<char>>(CliFormat::Mkv)
            &&& (l == "aiff"@ || l == "aif"@ || l == "aifc"@) ==> cli_format_for_extension(e, path) == Ok::<CliFormat, Seq<char>>(CliFormat::Aiff)
            &&& (l == "caf"@) ==> cli_format_for_extension(e, path) == Ok::<CliFormat, Seq<char>>(CliFormat::Caf)
            &&& (l == "wav"@) ==> cli_format_for_extension(e, path) == Ok::<CliFormat, Seq<char>>(CliFormat::Wav)
            &&& (l == "flac"@) ==> cli_format_for_extension(e, path) == Ok::<CliFormat, Seq<char>>(CliFormat::Flac)
            &&& (l == "ogg"@ || l == "oga"@) ==> cli_format_for_extension(e, path) == Ok::<CliFormat, Seq<char>>(CliFormat::Ogg)
            &&& (l == "opus"@) ==> cli_format_for_extension(e, path) == Ok::<CliFormat, Seq<char>>(CliFormat::Opus)
            &&& (l == "raw"@) ==> cli_format_for_extension(e, path) == Ok::<CliFormat, Seq<char>>(CliFormat::Raw)
            &&& (l == "dat"@) ==> cli_format_for_extension(e, path) == Ok::<CliFormat, Seq<char>>(CliFormat::Dat)
            &&& (l == "json"@) ==> cli_format_for_extension(e, path) == Ok::<CliFormat, Seq<char>>(CliFormat::Json)
            &&& (l == "txt"@) ==> cli_format_for_extension(e, path) == Ok::<CliFormat, Seq<char>>(CliFormat::Txt)
            &&& (l == "png"@) ==> cli_format_for_extension(e, path) == Ok::<CliFormat, Seq<char>>(CliFormat::Png)
            &&& l == "w64"@ ==> cli_format_for_extension(e, path) == Err::<CliFormat, Seq<char>>("Unsupported format: w64"@)
        }),
{
    reveal_strlit("aac");
    reveal_strlit("adts");
    reveal_strlit("mp1");
    reveal_strlit("mp2");
    reveal_strlit("mp3");
    reveal_strlit("mp4");
    reveal_strlit("m4a");
    reveal_strlit("m4b");
    reveal_strlit("m4r");
    reveal_strlit("m4v");
    reveal_strlit("mov");
    reveal_strlit("mkv");
    reveal_strlit("mka");
    reveal_strlit("webm");
    reveal_strlit("aiff");
    reveal_strlit("aif");
    reveal_strlit("aifc");
    reveal_strlit("caf");
    reveal_strlit("wav");
    reveal_strlit("flac");
    reveal_strlit("ogg");
    reveal_strlit("oga");
    reveal_strlit("opus");
    reveal_strlit("raw");
    reveal_strlit("dat");
    reveal_strlit("json");
    reveal_strlit("txt");
    reveal_strlit("png");
    reveal_strlit("w64");
    reveal_strlit("Unsupported format: w64");
    assert("aac"@ =~= seq!['a', 'a', 'c']);
    assert("adts"@ =~= seq!['a', 'd', 't', 's']);
    assert("mp1"@ =~= seq!['m', 'p', '1']);
    assert("mp2"@ =~= seq!['m', 'p', '2']);
    assert("mp3"@ =~= seq!['m', 'p', '3']);
    assert("mp4"@ =~= seq!['m', 'p', '4']);
    assert("m4a"@ =~= seq!['m', '4', 'a']);
    assert("m4b"@ =~= seq!['m', '4', 'b']);
    assert("m4r"@ =~= seq!['m', '4', 'r']);
    assert("m4v"@ =~= seq!['m', '4', 'v']);
    assert("mov"@ =~= seq!['m', 'o', 'v']);
    assert("mkv"@ =~= seq!['m', 'k', 'v']);
    assert("mka"@ =~= seq!['m', 'k', 'a']);
    assert("webm"@ =~= seq!['w', 'e', 'b', 'm']);
    assert("aiff"@ =~= seq!['a', 'i', 'f', 'f']);
    assert("aif"@ =~= seq!['a', 'i', 'f']);
    assert("aifc"@ =~= seq!['a', 'i', 'f', 'c']);
    assert("caf"@ =~= seq!['c', 'a', 'f']);
    assert("wav"@ =~= seq!['w', 'a', 'v']);
    assert("flac"@ =~= seq!['f', 'l', 'a', 'c']);
    assert("ogg"@ =~= seq!['o', 'g', 'g']);
    assert("oga"@ =~= seq!['o', 'g', 'a']);
    assert("opus"@ =~= seq!['o', 'p', 'u', 's']);
    assert("raw"@ =~= seq!['r', 'a', 'w']);
    assert("dat"@ =~= seq!['d', 'a', 't']);
    assert("json"@ =~= seq!['j', 's', 'o', 'n']);
    assert("txt"@ =~= seq!['t', 'x', 't']);
    assert("png"@ =~= seq!['p', 'n', 'g']);
    assert("w64"@ =~= seq!['w', '6', '4']);
}

/// Naming a command-line format by its own name selects it again, for every format.
pub proof fn cli_format_name_round_trip(f: CliFormat, path: Seq<char>)
    ensures
        cli_format_for_extension(cli_format_name(f), path) == Ok::<CliFormat, Seq<char>>(f),
{
    let n = cli_format_name(f);
    documented_extensions_name_cli_formats(n, path);
    reveal_strlit("aac");
    reveal_strlit("adts");
    reveal_strlit("mp1");
    reveal_strlit("mp2");
    reveal_strlit("mp3");
    reveal_strlit("mp4");
    reveal_strlit("m4a");
    reveal_strlit("m4b");
    reveal_strlit("m4r");
    reveal_strlit("m4v");
    reveal_strlit("mov");
    reveal_strlit("mkv");
    reveal_strlit("mka");
    reveal_strlit("webm");
    reveal_strlit("aiff");
    reveal_strlit("aif");
    reveal_strlit("aifc");
    reveal_strlit("caf");
    reveal_strlit("wav");
    reveal_strlit("flac");
    reveal_strlit("ogg");
    reveal_strlit("oga");
    reveal_strlit("opus");
    reveal_strlit("raw");
    reveal_strlit("dat");
    reveal_strlit("json");
    reveal_strlit("txt");
    reveal_strlit("png");
    reveal_strlit("w64");
    reveal_strlit("Unsupported format: w64");
    assert("aac"@ =~= seq!['a', 'a', 'c']);
    assert("adts"@ =~= seq!['a', 'd', 't', 's']);
    assert("mp1"@ =~= seq!['m', 'p', '1']);
    assert("mp2"@ =~= seq!['m', 'p', '2']);
    assert("mp3"@ =~= seq!['m', 'p', '3']);
    assert("mp4"@ =~= seq!['m', 'p', '4']);
    assert("m4a"@ =~= seq!['m', '4', 'a']);
    assert("m4b"@ =~= seq!['m', '4', 'b']);
    assert("m4r"@ =~= seq!['m', '4', 'r']);
    assert("m4v"@ =~= seq!['m', '4', 'v']);
    assert("mov"@ =~= seq!['m', 'o', 'v']);
    assert("mkv"@ =~= seq!['m', 'k', 'v']);
    assert("mka"@ =~= seq!['m', 'k', 'a']);
    assert("webm"@ =~= seq!['w', 'e', 'b', 'm']);
    assert("aiff"@ =~= seq!['a', 'i', 'f', 'f']);
    assert("aif"@ =~= seq!['a', 'i', 'f']);
    assert("aifc"@ =~= seq!['a', 'i', 'f', 'c']);
    assert("caf"@ =~= seq!['c', 'a', 'f']);
    assert("wav"@ =~= seq!['w', 'a', 'v']);
    assert("flac"@ =~= seq!['f', 'l', 'a', 'c']);
    assert("ogg"@ =~= seq!['o', 'g', 'g']);
    assert("oga"@ =~= seq!['o', 'g', 'a']);
    assert("opus"@ =~= seq!['o', 'p', 'u', 's']);
    assert("raw"@ =~= seq!['r', 'a', 'w']);
    assert("dat"@ =~= seq!['d', 'a', 't']);
    assert("json"@ =~= seq!['j', 's', 'o', 'n']);
    assert("txt"@ =~= seq!['t', 'x', 't']);
    assert("png"@ =~= seq!['p', 'n', 'g']);
    assert("w64"@ =~= seq!['w', '6', '4']);
    assert(ascii_lowercase(n) =~= n);
}

/// The command line reads an extension as the library does: an extension that names an
/// audio format names the command-line format of that audio format, and one that names
/// a waveform data format names that waveform data format.
pub proof fn cli_extensions_agree_with_the_library(e: Seq<char>, path: Seq<char>)
    ensures
        crate::format::audio_format_for_extension(e) matches Some(a) ==> cli_format_for_extension(e, path) matches Ok(
            c,
        ) && cli_audio_format(c) == Some(a),
        crate::format::waveform_format_for_extension(e) matches Some(w) ==> cli_format_for_extension(e, path) matches Ok(
            c,
        ) && cli_waveform_format(c) == Some(w),
{
    reveal_strlit("aac");
    reveal_strlit("adts");
    reveal_strlit("mp1");
    reveal_strlit("mp2");
    reveal_strlit("mp3");
    reveal_strlit("mp4");
    reveal_strlit("m4a");
    reveal_strlit("m4b");
    reveal_strlit("m4r");
    reveal_strlit("m4v");
    reveal_strlit("mov");
    reveal_strlit("mkv");
    reveal_strlit("mka");
    reveal_strlit("webm");
    reveal_strlit("aiff");
    reveal_strlit("aif");
    reveal_strlit("aifc");
    reveal_strlit("caf");
    reveal_strlit("wav");
    reveal_strlit("flac");
    reveal_strlit("ogg");
    reveal_strlit("oga");
    reveal_strlit("opus");
    reveal_strlit("raw");
    reveal_strlit("dat");
    reveal_strlit("json");
    reveal_strlit("txt");
    reveal_strlit("png");
    reveal_strlit("w64");
    reveal_strlit("Unsupported format: w64");
    assert("aac"@ =~= seq!['a', 'a', 'c']);
    assert("adts"@ =~= seq!['a', 'd', 't', 's']);
    assert("mp1"@ =~= seq!['m', 'p', '1']);
    assert("mp2"@ =~= seq!['m', 'p', '2']);
    assert("mp3"@ =~= seq!['m', 'p', '3']);
    assert("mp4"@ =~= seq!['m', 'p', '4']);
    assert("m4a"@ =~= seq!['m', '4', 'a']);
    assert("m4b"@ =~= seq!['m', '4', 'b']);
    assert("m4r"@ =~= seq!['m', '4', 'r']);
    assert("m4v"@ =~= seq!['m', '4', 'v']);
    assert("mov"@ =~= seq!['m', 'o', 'v']);
    assert("mkv"@ =~= seq!['m', 'k', 'v']);
    assert("mka"@ =~= seq!['m', 'k', 'a']);
    assert("webm"@ =~= seq!['w', 'e', 'b', 'm']);
    assert("aiff"@ =~= seq!['a', 'i', 'f', 'f']);
    assert("aif"@ =~= seq!['a', 'i', 'f']);
    assert("aifc"@ =~= seq!['a', 'i', 'f', 'c']);
    assert("caf"@ =~= seq!['c', 'a', 'f']);
    assert("wav"@ =~= seq!['w', 'a', 'v']);
    assert("flac"@ =~= seq!['f', 'l', 'a', 'c']);
    assert("ogg"@ =~= seq!['o', 'g', 'g']);
    assert("oga"@ =~= seq!['o', 'g', 'a']);
    assert("opus"@ =~= seq!['o', 'p', 'u', 's']);
    assert("raw"@ =~= seq!['r', 'a', 'w']);
    assert("dat"@ =~= seq!['d', 'a', 't']);
    assert("json"@ =~= seq!['j', 's', 'o', 'n']);
    assert("txt"@ =~= seq!['t', 'x', 't']);
    assert("png"@ =~= seq!['p', 'n', 'g']);
    assert("w64"@ =~= seq!['w', '6', '4']);
}

/// The operation for each pair of formats: audio input (other than Opus, which cannot be
/// decoded) is transcoded to WAV, turned into waveform data of the requested kind, or
/// rendered to PNG; waveform data input (`dat` or `json`) is converted to any waveform
/// data output or rendered to PNG; every other pair is refused, naming both formats.
pub proof fn operations_by_format(input: CliFormat, output: CliFormat)
    ensures
        ({
            let audio = input == CliFormat::Aac || input == CliFormat::Aiff || input == CliFormat::Caf || input == CliFormat::Mp4 || input == CliFormat::Mkv || input == CliFormat::Mp1 || input == CliFormat::Mp2 || input == CliFormat::Mp3 || input == CliFormat::Wav || input == CliFormat::Flac || input == CliFormat::Ogg || input == CliFormat::Raw;
            let data_in = input == CliFormat::Dat || input == CliFormat::Json;
            let data_out = output == CliFormat::Dat || output == CliFormat::Json || output
                == CliFormat::Txt;
            let wf = if output == CliFormat::Dat {
                WaveformFormat::Dat
            } else if output == CliFormat::Json {
                WaveformFormat::Json
            } else {
                WaveformFormat::Txt
            };
            let r = operation_choice(input, output);
            &&& input == CliFormat::Opus ==> r == Err::<Operation, Seq<char>>(
                "Unsupported format: opus"@,
            )
            &&& audio && output == CliFormat::Wav ==> r == Ok::<Operation, Seq<char>>(
                Operation::Transcode,
            )
            &&& audio && data_out ==> r == Ok::<Operation, Seq<char>>(Operation::Generate(wf))
            &&& data_in && data_out ==> r == Ok::<Operation, Seq<char>>(Operation::Convert(wf))
            &&& (audio || data_in) && output == CliFormat::Png ==> r == Ok::<
                Operation,
                Seq<char>,
            >(Operation::Render)
            &&& input != CliFormat::Opus && !(audio && (output == CliFormat::Wav || data_out
                || output == CliFormat::Png)) && !(data_in && (data_out || output
                == CliFormat::Png)) ==> r == Err::<Operation, Seq<char>>(
                "Can't generate "@ + cli_format_name(output) + " format output from "@
                    + cli_format_name(input) + " format input"@,
            )
        }),
{
}

} // verus!

verus! {

/// `--bits` accepts exactly 8 and 16 (or nothing) and keeps the value; `--compression`
/// accepts exactly -1 through 9, where -1 asks for the default and 0 through 9 are kept.
pub proof fn bits_and_compression_options(bits: Option<i32>, compression: i32)
    ensures
        (bits_choice(bits) is Ok) <==> (bits is None || bits == Some(8i32) || bits == Some(
            16i32,
        )),
        bits_choice(bits) matches Ok(v) ==> match v {
            Some(b) => bits == Some(b as i32),
            None => bits is None,
        },
        (compression_choice(compression) is Ok) <==> (-1 <= compression && compression <= 9),
        compression_choice(compression) == Ok::<Option<i32>, Seq<char>>(None) <==> compression
            == -1,
        0 <= compression <= 9 ==> compression_choice(compression) == Ok::<
            Option<i32>,
            Seq<char>,
        >(Some(compression)),
{
}

/// An explicit format wins over the filename; without either the message says which
/// one is missing.
pub proof fn explicit_formats_win(
    filename: Option<Seq<char>>,
    explicit: Option<CliFormat>,
    input: bool,
)
    ensures
        explicit matches Some(f) ==> format_choice(filename, explicit, input) == Ok::<
            CliFormat,
            Seq<char>,
        >(f),
        explicit is None && filename is None && input ==> format_choice(filename, explicit, input)
            == Err::<CliFormat, Seq<char>>(
            "Error: Must specify either input filename or input format"@,
        ),
        explicit is None && filename is None && !input ==> format_choice(
            filename,
            explicit,
            input,
        ) == Err::<CliFormat, Seq<char>>(
            "Error: Must specify either output filename or output format"@,
        ),
{
}

/// The scale options: `--end`, `--zoom` and `--pixels-per-second` exclude one another;
/// with none of them the zoom is 256 samples per pixel; `--end` fits the time range into
/// the width; `--pixels-per-second p` needs `p > 0`; `--zoom auto` fits the whole clip
/// into the width and `--zoom n` fixes `n` samples per pixel; the width must be at
/// least 1.
pub proof fn scale_options(zoom: Option<Seq<char>>, pps: Option<i32>, has_end: bool, width: i32)
    ensures
        ({
            let r = scale_choice(zoom, pps, has_end, width);
            let conflict = (zoom is Some && has_end) || (pps is Some && has_end) || (zoom is Some
                && pps is Some);
            &&& conflict ==> r is Err
            &&& !conflict && width < 1 ==> r == Err::<ScaleChoice, Seq<char>>(
                "Invalid image width: minimum 1"@,
            )
            &&& !conflict && width >= 1 && zoom is None && pps is None && !has_end ==> r == Ok::<
                ScaleChoice,
                Seq<char>,
            >(ScaleChoice::Fixed(crate::options::ScaleSpec::SamplesPerPixel(256)))
            &&& !conflict && width >= 1 && has_end ==> r == Ok::<ScaleChoice, Seq<char>>(
                ScaleChoice::TimeRange { width_pixels: width as u32 },
            )
            &&& pps is Some && !conflict && width >= 1 ==> (if pps->0 > 0 {
                r == Ok::<ScaleChoice, Seq<char>>(
                    ScaleChoice::Fixed(crate::options::ScaleSpec::PixelsPerSecond(pps->0 as u32)),
                )
            } else {
                r is Err
            })
            &&& !conflict && width >= 1 && zoom == Some("auto"@) ==> r == Ok::<
                ScaleChoice,
                Seq<char>,
            >(
                ScaleChoice::Fixed(
                    crate::options::ScaleSpec::FitWidth {
                        width_pixels: width as u32,
                        range_frames: None,
                    },
                ),
            )
            &&& zoom is Some && decimal_u32(zoom->0) is Some && !conflict && width >= 1 ==> r
                == Ok::<ScaleChoice, Seq<char>>(
                ScaleChoice::Fixed(
                    crate::options::ScaleSpec::SamplesPerPixel(decimal_u32(zoom->0)->0),
                ),
            )
            &&& zoom is Some && zoom->0 != "auto"@ && decimal_u32(zoom->0) is None && !conflict
                && width >= 1 ==> r is Err
        }),
{
    reveal_strlit("auto");
    assert("auto"@ =~= seq!['a', 'u', 't', 'o']);
}

/// Decimal zoom values read as `str::parse::<u32>` reads them: a single digit is its
/// value; appending a digit multiplies by ten and adds it, as long as the value fits in
/// 32 bits, and gives nothing beyond; a leading `+` is allowed once; any other
/// character makes the value unreadable.
pub proof fn decimal_zoom_values(s: Seq<char>, c: char)
    requires
        '0' <= c <= '9',
    ensures
        decimal_u32(seq![c]) == Some((c as int - '0' as int) as u32),
        decimal_u32(s) matches Some(v) ==> (if 10 * v + (c as int - '0' as int) <= u32::MAX {
            decimal_u32(s.push(c)) == Some((10 * v + (c as int - '0' as int)) as u32)
        } else {
            decimal_u32(s.push(c)) is None
        }),
        (s.len() == 0 || s[0] != '+') ==> decimal_u32(seq!['+'] + s) == decimal_u32(s),
        forall|i: int|
            0 <= i < s.len() && !('0' <= #[trigger] s[i] <= '9') && !(i == 0 && s[i] == '+')
                ==> decimal_u32(s) is None,
{
    let one = seq![c];
    assert(one.drop_last() =~= Seq::<char>::empty());
    assert(unsigned_digits(one) =~= one);
    assert(all_digits(one));
    assert(one.last() == c);
    assert(digits_value(Seq::<char>::empty()) == 0);
    assert(digits_value(one) == c as int - '0' as int);
    if let Some(v) = decimal_u32(s) {
        let d = unsigned_digits(s);
        assert(s.len() > 0);
        assert(s.push(c)[0] == s[0]);
        let e = unsigned_digits(s.push(c));
        assert(e =~= d.push(c));
        assert(e.last() == c);
        lemma_digits_nonneg(d, d.len() as int);
        assert(d.subrange(0, d.len() as int) =~= d);
        assert(v == digits_value(d));
        assert(e.drop_last() =~= d);
        assert(digits_value(e) == digits_value(d) * 10 + (c as int - '0' as int));
        assert(all_digits(e)) by {
            assert forall|k: int| 0 <= k < e.len() implies is_decimal_digit(#[trigger] e[k]) by {
                if k < d.len() {
                    assert(e[k] == d[k]);
                }
            }
        }
    }
    let p = seq!['+'] + s;
    assert(unsigned_digits(p) =~= s);
    if s.len() > 0 && s[0] != '+' {
        assert(unsigned_digits(s) =~= s);
    }
    if s.len() == 0 {
        assert(unsigned_digits(s) =~= s);
    }
    assert forall|i: int|
        0 <= i < s.len() && !('0' <= #[trigger] s[i] <= '9') && !(i == 0 && s[i] == '+')
            implies decimal_u32(s) is None by {
        let d = unsigned_digits(s);
        if s.len() > 0 && s[0] == '+' {
            assert(d[i - 1] == s[i]);
            assert(!is_decimal_digit(d[i - 1]));
        } else {
            assert(d[i] == s[i]);
            assert(!is_decimal_digit(d[i]));
        }
    }
}

/// The raw input options: all three must be given (the message names the first one
/// missing); then the configuration holds exactly the given rate and channel count,
/// which must be positive, with at most 65535 channels.
pub proof fn raw_input_options(
    rate: Option<i32>,
    channels: Option<i32>,
    format: Option<CliRawSampleFormat>,
)
    ensures
        rate is None ==> raw_config_choice(rate, channels, format) == Err::<(u32, u16), Seq<char>>(
            "Error: Missing --raw-samplerate option"@,
        ),
        rate is Some && channels is None ==> raw_config_choice(rate, channels, format) == Err::<
            (u32, u16),
            Seq<char>,
        >("Error: Missing --raw-channels option"@),
        rate is Some && channels is Some && format is None ==> raw_config_choice(
            rate,
            channels,
            format,
        ) == Err::<(u32, u16), Seq<char>>("Error: Missing --raw-format option"@),
        rate is Some && channels is Some && format is Some ==> ((raw_config_choice(
            rate,
            channels,
            format,
        ) is Ok) <==> (rate->0 > 0 && 0 < channels->0 <= 65535)),
        raw_config_choice(rate, channels, format) matches Ok((r, c)) ==> rate == Some(r as i32)
            && channels == Some(c as i32),
{
}

/// Bars need a width of at least 1 and a gap of at least 0, which they keep; the normal
/// style ignores both.
pub proof fn bar_style_options(style: CliWaveformStyle, w: i32, g: i32, b: CliBarStyle)
    ensures
        style == CliWaveformStyle::Normal ==> render_style_choice(style, w, g, b) == Ok::<
            RenderStyleChoice,
            Seq<char>,
        >(RenderStyleChoice::Normal),
        style == CliWaveformStyle::Bars ==> ((render_style_choice(style, w, g, b) is Ok) <==> (w
            >= 1 && g >= 0)),
        render_style_choice(style, w, g, b) matches Ok(RenderStyleChoice::Bars {
            width,
            gap,
            style: s,
        }) ==> style == CliWaveformStyle::Bars && width == w && gap == g && s == b,
        style == CliWaveformStyle::Bars && w < 1 ==> render_style_choice(style, w, g, b) == Err::<
            RenderStyleChoice,
            Seq<char>,
        >("Invalid bar width: minimum 1"@),
        style == CliWaveformStyle::Bars && w >= 1 && g < 0 ==> render_style_choice(style, w, g, b)
            == Err::<RenderStyleChoice, Seq<char>>("Invalid bar gap: minimum 0"@),
{
}

} // verus!

verus! {

/// Each command-line format is named in messages by its lowercase documented name, the
/// same name that the library gives its audio or waveform data format.
pub proof fn cli_format_names(f: CliFormat)
    ensures
        f == CliFormat::Aac ==> cli_format_name(f) == "aac"@,
        f == CliFormat::Aiff ==> cli_format_name(f) == "aiff"@,
        f == CliFormat::Caf ==> cli_format_name(f) == "caf"@,
        f == CliFormat::Mp4 ==> cli_format_name(f) == "mp4"@,
        f == CliFormat::Mkv ==> cli_format_name(f) == "mkv"@,
        f == CliFormat::Mp1 ==> cli_format_name(f) == "mp1"@,
        f == CliFormat::Mp2 ==> cli_format_name(f) == "mp2"@,
        f == CliFormat::Mp3 ==> cli_format_name(f) == "mp3"@,
        f == CliFormat::Wav ==> cli_format_name(f) == "wav"@,
        f == CliFormat::Flac ==> cli_format_name(f) == "flac"@,
        f == CliFormat::Ogg ==> cli_format_name(f) == "ogg"@,
        f == CliFormat::Opus ==> cli_format_name(f) == "opus"@,
        f == CliFormat::Raw ==> cli_format_name(f) == "raw"@,
        f == CliFormat::Dat ==> cli_format_name(f) == "dat"@,
        f == CliFormat::Json ==> cli_format_name(f) == "json"@,
        f == CliFormat::Txt ==> cli_format_name(f) == "txt"@,
        f == CliFormat::Png ==> cli_format_name(f) == "png"@,
        cli_audio_format(f) matches Some(a) ==> cli_format_name(f)
            == crate::format::audio_format_name(a),
        cli_waveform_format(f) matches Some(w) ==> cli_format_name(f)
            == crate::format::waveform_format_name(w),
{
}

} // verus!
