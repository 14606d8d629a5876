use vstd::prelude::*;
use vstd::string::*;

use crate::error::Error;
use crate::text::{ascii_lowercase, eq_ascii_lowercase};

verus! {

/// Supported audio container or source formats.
#[derive(Clone, Copy, Debug, PartialEq, Eq)]
pub enum AudioFormat {
    /// AAC audio in an ADTS stream.
    Aac,
    /// AIFF or AIFF-C audio.
    Aiff,
    /// Core Audio Format audio.
    Caf,
    /// Audio in an ISO MP4 container, including M4A.
    Mp4,
    /// Audio in a Matroska or WebM container.
    Mkv,
    /// MPEG layer I audio.
    Mp1,
    /// MPEG layer II audio.
    Mp2,
    /// MP3 audio.
    Mp3,
    /// WAV audio.
    Wav,
    /// FLAC audio.
    Flac,
    /// Ogg Vorbis or FLAC audio.
    Ogg,
    /// Opus audio (recognized, but decoding is not supported).
    Opus,
    /// Headerless raw PCM or floating-point audio.
    Raw,
}

/// Supported serialized waveform data formats.
#[derive(Clone, Copy, Debug, PartialEq, Eq)]
pub enum WaveformFormat {
    /// Binary `.dat` waveform data.
    Dat,
    /// Compact JSON waveform data.
    Json,
    /// Plain text CSV-like waveform data.
    Txt,
}

/// The canonical lowercase name of an audio format.
pub open spec fn audio_format_name(f: AudioFormat) -> Seq<char> {
    match f {
        AudioFormat::Aac => "aac"@,
        AudioFormat::Aiff => "aiff"@,
        AudioFormat::Caf => "caf"@,
        AudioFormat::Mp4 => "mp4"@,
        AudioFormat::Mkv => "mkv"@,
        AudioFormat::Mp1 => "mp1"@,
        AudioFormat::Mp2 => "mp2"@,
        AudioFormat::Mp3 => "mp3"@,
        AudioFormat::Wav => "wav"@,
        AudioFormat::Flac => "flac"@,
        AudioFormat::Ogg => "ogg"@,
        AudioFormat::Opus => "opus"@,
        AudioFormat::Raw => "raw"@,
    }
}

/// The audio format that a file extension names, compared without regard to ASCII case.
pub open spec fn audio_format_for_extension(e: Seq<char>) -> Option<AudioFormat> {
    let l = ascii_lowercase(e);
    if l == "aac"@ || l == "adts"@ {
        Some(AudioFormat::Aac)
    } else if l == "aiff"@ || l == "aif"@ || l == "aifc"@ {
        Some(AudioFormat::Aiff)
    } else if l == "caf"@ {
        Some(AudioFormat::Caf)
    } else if l == "mp4"@ || l == "m4a"@ || l == "m4b"@ || l == "m4r"@ || l == "m4v"@ || l
        == "mov"@ {
        Some(AudioFormat::Mp4)
    } else if l == "mkv"@ || l == "mka"@ || l == "webm"@ {
        Some(AudioFormat::Mkv)
    } else if l == "mp1"@ {
        Some(AudioFormat::Mp1)
    } else if l == "mp2"@ {
        Some(AudioFormat::Mp2)
    } else if l == "mp3"@ {
        Some(AudioFormat::Mp3)
    } else if l == "wav"@ {
        Some(AudioFormat::Wav)
    } else if l == "flac"@ {
        Some(AudioFormat::Flac)
    } else if l == "ogg"@ || l == "oga"@ {
        Some(AudioFormat::Ogg)
    } else if l == "opus"@ {
        Some(AudioFormat::Opus)
    } else if l == "raw"@ {
        Some(AudioFormat::Raw)
    } else {
        None
    }
}

/// The canonical lowercase name of a waveform data format.
pub open spec fn waveform_format_name(f: WaveformFormat) -> Seq<char> {
    match f {
        WaveformFormat::Dat => "dat"@,
        WaveformFormat::Json => "json"@,
        WaveformFormat::Txt => "txt"@,
    }
}

/// The waveform data format that a file extension names, compared without regard to ASCII case.
pub open spec fn waveform_format_for_extension(e: Seq<char>) -> Option<WaveformFormat> {
    let l = ascii_lowercase(e);
    if l == "dat"@ {
        Some(WaveformFormat::Dat)
    } else if l == "json"@ {
        Some(WaveformFormat::Json)
    } else if l == "txt"@ {
        Some(WaveformFormat::Txt)
    } else {
        None
    }
}

/// The extension of a filesystem path as `std::path::Path::extension` reports it,
/// when that extension is valid Unicode.
pub uninterp spec fn path_extension(path: Seq<char>) -> Option<Seq<char>>;

/// Calls `std::path::Path::extension` on the path and keeps the result when it is valid
/// Unicode. Trusted: the result is taken to be the named `path_extension` of the path;
/// what that extension is (the part of the last path component after its final `.`,
/// with the special cases that `Path` documents) is not stated here.
#[verifier::external_body]
pub(crate) fn path_extension_of(path: &str) -> (r: Option<String>)
    ensures
        match r {
            Some(e) => path_extension(path@) == Some(e@),
            None => path_extension(path@) is None,
        },
{
    std::path::Path::new(path).extension().and_then(|e| e.to_str()).map(|e| e.to_string())
}

impl AudioFormat {
    /// Returns the canonical lowercase name for the format.
    pub fn as_str(self) -> (s: &'static str)
        ensures
            s@ == audio_format_name(self),
    {
        match self {
            AudioFormat::Aac => "aac",
            AudioFormat::Aiff => "aiff",
            AudioFormat::Caf => "caf",
            AudioFormat::Mp4 => "mp4",
            AudioFormat::Mkv => "mkv",
            AudioFormat::Mp1 => "mp1",
            AudioFormat::Mp2 => "mp2",
            AudioFormat::Mp3 => "mp3",
            AudioFormat::Wav => "wav",
            AudioFormat::Flac => "flac",
            AudioFormat::Ogg => "ogg",
            AudioFormat::Opus => "opus",
            AudioFormat::Raw => "raw",
        }
    }

    /// Infers an audio format from a file extension string.
    pub fn from_extension(extension: &str) -> (r: Option<AudioFormat>)
        ensures
            r == audio_format_for_extension(extension@),
    {
        let e = extension;
        if eq_ascii_lowercase(e, "aac") || eq_ascii_lowercase(e, "adts") {
            Some(AudioFormat::Aac)
        } else if eq_ascii_lowercase(e, "aiff") || eq_ascii_lowercase(e, "aif")
            || eq_ascii_lowercase(e, "aifc") {
            Some(AudioFormat::Aiff)
        } else if eq_ascii_lowercase(e, "caf") {
            Some(AudioFormat::Caf)
        } else if eq_ascii_lowercase(e, "mp4") || eq_ascii_lowercase(e, "m4a")
            || eq_ascii_lowercase(e, "m4b") || eq_ascii_lowercase(e, "m4r")
            || eq_ascii_lowercase(e, "m4v") || eq_ascii_lowercase(e, "mov") {
            Some(AudioFormat::Mp4)
        } else if eq_ascii_lowercase(e, "mkv") || eq_ascii_lowercase(e, "mka")
            || eq_ascii_lowercase(e, "webm") {
            Some(AudioFormat::Mkv)
        } else if eq_ascii_lowercase(e, "mp1") {
            Some(AudioFormat::Mp1)
        } else if eq_ascii_lowercase(e, "mp2") {
            Some(AudioFormat::Mp2)
        } else if eq_ascii_lowercase(e, "mp3") {
            Some(AudioFormat::Mp3)
        } else if eq_ascii_lowercase(e, "wav") {
            Some(AudioFormat::Wav)
        } else if eq_ascii_lowercase(e, "flac") {
            Some(AudioFormat::Flac)
        } else if eq_ascii_lowercase(e, "ogg") || eq_ascii_lowercase(e, "oga") {
            Some(AudioFormat::Ogg)
        } else if eq_ascii_lowercase(e, "opus") {
            Some(AudioFormat::Opus)
        } else if eq_ascii_lowercase(e, "raw") {
            Some(AudioFormat::Raw)
        } else {
            None
        }
    }

    /// Infers an audio format from a filesystem path extension.
    pub fn from_path(path: &str) -> (r: Option<AudioFormat>)
        ensures
            r == match path_extension(path@) {
                Some(e) => audio_format_for_extension(e),
                None => None,
            },
    {
        match path_extension_of(path) {
            Some(e) => AudioFormat::from_extension(e.as_str()),
            None => None,
        }
    }

    /// The audio format of a path, or the `UnsupportedFormat` error that names the
    /// path's extension (empty when it has none). Nothing is opened.
    pub fn require_from_path(path: &str) -> (r: Result<AudioFormat, Error>)
        ensures
            match path_extension(path@) {
                Some(e) => match audio_format_for_extension(e) {
                    Some(f) => r == Ok::<AudioFormat, Error>(f),
                    None => r matches Err(Error::UnsupportedFormat { format }) && format@ == e,
                },
                None => r matches Err(Error::UnsupportedFormat { format }) && format@
                    == Seq::<char>::empty(),
            },
    {
        match path_extension_of(path) {
            Some(e) => match AudioFormat::from_extension(e.as_str()) {
                Some(f) => Ok(f),
                None => Err(Error::UnsupportedFormat { format: e }),
            },
            None => {
                let format = String::new();
                proof {
                    assert(format@ =~= Seq::<char>::empty());
                }
                Err(Error::UnsupportedFormat { format })
            },
        }
    }

    /// Checks whether this build can decode the input format.
    ///
    /// Every container and codec is built in. Raw audio is always available through
    /// the raw PCM APIs. Opus is recognized only to report that it is unsupported.
    pub fn ensure_enabled(self) -> (r: Result<(), Error>)
        ensures
            self == AudioFormat::Opus <==> r is Err,
            r matches Err(e) ==> e matches Error::UnsupportedFormat { format } && format@
                == "opus"@,
    {
        match self {
            AudioFormat::Opus => Err(Error::unsupported_format("opus")),
            _ => Ok(()),
        }
    }

    /// Parses a format name, reporting the name when it is unknown.
    pub fn parse_name(s: &str) -> (r: Result<AudioFormat, Error>)
        ensures
            match audio_format_for_extension(s@) {
                Some(f) => r == Ok::<AudioFormat, Error>(f),
                None => r matches Err(e) && e matches Error::UnsupportedFormat { format } && format@
                    == s@,
            },
    {
        match AudioFormat::from_extension(s) {
            Some(f) => Ok(f),
            None => Err(Error::unsupported_format(s)),
        }
    }
}

impl std::str::FromStr for AudioFormat {
    type Err = Error;

    fn from_str(s: &str) -> (r: Result<AudioFormat, Error>)
        ensures
            match audio_format_for_extension(s@) {
                Some(f) => r == Ok::<AudioFormat, Error>(f),
                None => r matches Err(e) && e matches Error::UnsupportedFormat { format } && format@
                    == s@,
            },
    {
        AudioFormat::parse_name(s)
    }
}

impl WaveformFormat {
    /// Returns the canonical lowercase name for the format.
    pub fn as_str(self) -> (s: &'static str)
        ensures
            s@ == waveform_format_name(self),
    {
        match self {
            WaveformFormat::Dat => "dat",
            WaveformFormat::Json => "json",
            WaveformFormat::Txt => "txt",
        }
    }

    /// Infers a waveform data format from a file extension string.
    pub fn from_extension(extension: &str) -> (r: Option<WaveformFormat>)
        ensures
            r == waveform_format_for_extension(extension@),
    {
        if eq_ascii_lowercase(extension, "dat") {
            Some(WaveformFormat::Dat)
        } else if eq_ascii_lowercase(extension, "json") {
            Some(WaveformFormat::Json)
        } else if eq_ascii_lowercase(extension, "txt") {
            Some(WaveformFormat::Txt)
        } else {
            None
        }
    }

    /// Infers a waveform data format from a filesystem path extension.
    pub fn from_path(path: &str) -> (r: Option<WaveformFormat>)
        ensures
            r == match path_extension(path@) {
                Some(e) => waveform_format_for_extension(e),
                None => None,
            },
    {
        match path_extension_of(path) {
            Some(e) => WaveformFormat::from_extension(e.as_str()),
            None => None,
        }
    }

    /// Parses a format name, reporting the name when it is unknown.
    pub fn parse_name(s: &str) -> (r: Result<WaveformFormat, Error>)
        ensures
            match waveform_format_for_extension(s@) {
                Some(f) => r == Ok::<WaveformFormat, Error>(f),
                None => r matches Err(e) && e matches Error::UnsupportedFormat { format } && format@
                    == s@,
            },
    {
        match WaveformFormat::from_extension(s) {
            Some(f) => Ok(f),
            None => Err(Error::unsupported_format(s)),
        }
    }
}

impl std::str::FromStr for WaveformFormat {
    type Err = Error;

    fn from_str(s: &str) -> (r: Result<WaveformFormat, Error>)
        ensures
            match waveform_format_for_extension(s@) {
                Some(f) => r == Ok::<WaveformFormat, Error>(f),
                None => r matches Err(e) && e matches Error::UnsupportedFormat { format } && format@
                    == s@,
            },
    {
        WaveformFormat::parse_name(s)
    }
}

} // verus!

verus! {

/// Naming a format by its canonical name gives the format back: for every audio format
/// `f`, `AudioFormat::from_extension(f.as_str())` is `Some(f)`.
pub proof fn audio_format_name_round_trip(f: AudioFormat)
    ensures
        audio_format_for_extension(audio_format_name(f)) == Some(f),
{
    reveal_strlit("aac");
    reveal_strlit("adts");
    reveal_strlit("aiff");
    reveal_strlit("aif");
    reveal_strlit("aifc");
    reveal_strlit("caf");
    reveal_strlit("mp4");
    reveal_strlit("m4a");
    reveal_strlit("m4b");
    reveal_strlit("m4r");
    reveal_strlit("m4v");
    reveal_strlit("mov");
    reveal_strlit("mkv");
    reveal_strlit("mka");
    reveal_strlit("webm");
    reveal_strlit("mp1");
    reveal_strlit("mp2");
    reveal_strlit("mp3");
    reveal_strlit("wav");
    reveal_strlit("flac");
    reveal_strlit("ogg");
    reveal_strlit("oga");
    reveal_strlit("opus");
    reveal_strlit("raw");
    assert("aac"@ =~= seq!['a', 'a', 'c']);
    assert("adts"@ =~= seq!['a', 'd', 't', 's']);
    assert("aiff"@ =~= seq!['a', 'i', 'f', 'f']);
    assert("aif"@ =~= seq!['a', 'i', 'f']);
    assert("aifc"@ =~= seq!['a', 'i', 'f', 'c']);
    assert("caf"@ =~= seq!['c', 'a', 'f']);
    assert("mp4"@ =~= seq!['m', 'p', '4']);
    assert("m4a"@ =~= seq!['m', '4', 'a']);
    assert("m4b"@ =~= seq!['m', '4', 'b']);
    assert("m4r"@ =~= seq!['m', '4', 'r']);
    assert("m4v"@ =~= seq!['m', '4', 'v']);
    assert("mov"@ =~= seq!['m', 'o', 'v']);
    assert("mkv"@ =~= seq!['m', 'k', 'v']);
    assert("mka"@ =~= seq!['m', 'k', 'a']);
    assert("webm"@ =~= seq!['w', 'e', 'b', 'm']);
    assert("mp1"@ =~= seq!['m', 'p', '1']);
    assert("mp2"@ =~= seq!['m', 'p', '2']);
    assert("mp3"@ =~= seq!['m', 'p', '3']);
    assert("wav"@ =~= seq!['w', 'a', 'v']);
    assert("flac"@ =~= seq!['f', 'l', 'a', 'c']);
    assert("ogg"@ =~= seq!['o', 'g', 'g']);
    assert("oga"@ =~= seq!['o', 'g', 'a']);
    assert("opus"@ =~= seq!['o', 'p', 'u', 's']);
    assert("raw"@ =~= seq!['r', 'a', 'w']);
    let n = audio_format_name(f);
    assert(ascii_lowercase(n) =~= n);
}

/// Naming a waveform data format by its canonical name gives the format back.
pub proof fn waveform_format_name_round_trip(f: WaveformFormat)
    ensures
        waveform_format_for_extension(waveform_format_name(f)) == Some(f),
{
    reveal_strlit("dat");
    reveal_strlit("json");
    reveal_strlit("txt");
    assert("dat"@ =~= seq!['d', 'a', 't']);
    assert("json"@ =~= seq!['j', 's', 'o', 'n']);
    assert("txt"@ =~= seq!['t', 'x', 't']);
    let n = waveform_format_name(f);
    assert(ascii_lowercase(n) =~= n);
}

/// Format inference ignores ASCII case: an extension and its ASCII lowercase form name
/// the same audio format and the same waveform data format.
pub proof fn extension_case_is_ignored(e: Seq<char>)
    ensures
        audio_format_for_extension(e) == audio_format_for_extension(ascii_lowercase(e)),
        waveform_format_for_extension(e) == waveform_format_for_extension(ascii_lowercase(e)),
{
    assert(ascii_lowercase(ascii_lowercase(e)) =~= ascii_lowercase(e));
}

} // verus!

verus! {

/// Every documented extension names its format, in any ASCII case: `aac` and `adts`
/// name AAC; `mp1`, `mp2`, `mp3` the MPEG layers; `mp4`, `m4a`, `m4b`, `m4r`, `m4v` and
/// `mov` MP4; `mkv`, `mka` and `webm` Matroska; `aiff`, `aif` and `aifc` AIFF; `caf`,
/// `wav`, `flac`, `opus` and `raw` their formats; `ogg` and `oga` Ogg. Wave64 (`w64`)
/// and the waveform data extensions name no audio format, `dat`, `json` and `txt` name
/// their waveform data formats, and no extension names both an audio and a waveform
/// data format.
pub proof fn documented_extensions_name_their_formats(e: Seq<char>)
    ensures
        ({
            let l = ascii_lowercase(e);
            &&& (l == "aac"@ || l == "adts"@) ==> audio_format_for_extension(e) == Some(AudioFormat::Aac)
            &&& (l == "mp1"@) ==> audio_format_for_extension(e) == Some(AudioFormat::Mp1)
            &&& (l == "mp2"@) ==> audio_format_for_extension(e) == Some(AudioFormat::Mp2)
            &&& (l == "mp3"@) ==> audio_format_for_extension(e) == Some(AudioFormat::Mp3)
            &&& (l == "mp4"@ || l == "m4a"@ || l == "m4b"@ || l == "m4r"@ || l == "m4v"@ || l == "mov"@) ==> audio_format_for_extension(e) == Some(AudioFormat::Mp4)
            &&& (l == "mkv"@ || l == "mka"@ || l == "webm"@) ==> audio_format_for_extension(e) == Some(AudioFormat::Mkv)
            &&& (l == "aiff"@ || l == "aif"@ || l == "aifc"@) ==> audio_format_for_extension(e) == Some(AudioFormat::Aiff)
            &&& (l == "caf"@) ==> audio_format_for_extension(e) == Some(AudioFormat::Caf)
            &&& (l == "wav"@) ==> audio_format_for_extension(e) == Some(AudioFormat::Wav)
            &&& (l == "flac"@) ==> audio_format_for_extension(e) == Some(AudioFormat::Flac)
            &&& (l == "ogg"@ || l == "oga"@) ==> audio_format_for_extension(e) == Some(AudioFormat::Ogg)
            &&& (l == "opus"@) ==> audio_format_for_extension(e) == Some(AudioFormat::Opus)
            &&& (l == "raw"@) ==> audio_format_for_extension(e) == Some(AudioFormat::Raw)
            &&& (l == "w64"@ || l == "dat"@ || l == "json"@ || l == "txt"@) ==> audio_format_for_extension(e) is None
            &&& l == "dat"@ ==> waveform_format_for_extension(e) == Some(WaveformFormat::Dat)
            &&& l == "json"@ ==> waveform_format_for_extension(e) == Some(WaveformFormat::Json)
            &&& l == "txt"@ ==> waveform_format_for_extension(e) == Some(WaveformFormat::Txt)
            &&& audio_format_for_extension(e) is Some ==> waveform_format_for_extension(e) is None
        }),
{
    reveal_strlit("aac");
    reveal_strlit("adts");
    reveal_strlit("mp1");
    reveal_strlit("mp2");
    reveal_strlit("mp3");
    reveal_strlit("mp4");
    reveal_strlit("m4a");
    reveal_strlit("m4b");
    reveal_strlit("m4r");
    reveal_strlit("m4v");
    reveal_strlit("mov");
    reveal_strlit("mkv");
    reveal_strlit("mka");
    reveal_strlit("webm");
    reveal_strlit("aiff");
    reveal_strlit("aif");
    reveal_strlit("aifc");
    reveal_strlit("caf");
    reveal_strlit("wav");
    reveal_strlit("flac");
    reveal_strlit("ogg");
    reveal_strlit("oga");
    reveal_strlit("opus");
    reveal_strlit("raw");
    reveal_strlit("dat");
    reveal_strlit("json");
    reveal_strlit("txt");
    reveal_strlit("w64");
    assert("aac"@ =~= seq!['a', 'a', 'c']);
    assert("adts"@ =~= seq!['a', 'd', 't', 's']);
    assert("mp1"@ =~= seq!['m', 'p', '1']);
    assert("mp2"@ =~= seq!['m', 'p', '2']);
    assert("mp3"@ =~= seq!['m', 'p', '3']);
    assert("mp4"@ =~= seq!['m', 'p', '4']);
    assert("m4a"@ =~= seq!['m', '4', 'a']);
    assert("m4b"@ =~= seq!['m', '4', 'b']);
    assert("m4r"@ =~= seq!['m', '4', 'r']);
    assert("m4v"@ =~= seq!['m', '4', 'v']);
    assert("mov"@ =~= seq!['m', 'o', 'v']);
    assert("mkv"@ =~= seq!['m', 'k', 'v']);
    assert("mka"@ =~= seq!['m', 'k', 'a']);
    assert("webm"@ =~= seq!['w', 'e', 'b', 'm']);
    assert("aiff"@ =~= seq!['a', 'i', 'f', 'f']);
    assert("aif"@ =~= seq!['a', 'i', 'f']);
    assert("aifc"@ =~= seq!['a', 'i', 'f', 'c']);
    assert("caf"@ =~= seq!['c', 'a', 'f']);
    assert("wav"@ =~= seq!['w', 'a', 'v']);
    assert("flac"@ =~= seq!['f', 'l', 'a', 'c']);
    assert("ogg"@ =~= seq!['o', 'g', 'g']);
    assert("oga"@ =~= seq!['o', 'g', 'a']);
    assert("opus"@ =~= seq!['o', 'p', 'u', 's']);
    assert("raw"@ =~= seq!['r', 'a', 'w']);
    assert("dat"@ =~= seq!['d', 'a', 't']);
    assert("json"@ =~= seq!['j', 's', 'o', 'n']);
    assert("txt"@ =~= seq!['t', 'x', 't']);
    assert("w64"@ =~= seq!['w', '6', '4']);
}

} // verus!

verus! {

/// Each format reports itself by the lowercase name that the documentation lists first
/// for it, and that name is an extension naming that format again.
pub proof fn audio_format_names(f: AudioFormat, w: WaveformFormat)
    ensures
        f == AudioFormat::Aac ==> audio_format_name(f) == "aac"@,
        f == AudioFormat::Aiff ==> audio_format_name(f) == "aiff"@,
        f == AudioFormat::Caf ==> audio_format_name(f) == "caf"@,
        f == AudioFormat::Mp4 ==> audio_format_name(f) == "mp4"@,
        f == AudioFormat::Mkv ==> audio_format_name(f) == "mkv"@,
        f == AudioFormat::Mp1 ==> audio_format_name(f) == "mp1"@,
        f == AudioFormat::Mp2 ==> audio_format_name(f) == "mp2"@,
        f == AudioFormat::Mp3 ==> audio_format_name(f) == "mp3"@,
        f == AudioFormat::Wav ==> audio_format_name(f) == "wav"@,
        f == AudioFormat::Flac ==> audio_format_name(f) == "flac"@,
        f == AudioFormat::Ogg ==> audio_format_name(f) == "ogg"@,
        f == AudioFormat::Opus ==> audio_format_name(f) == "opus"@,
        f == AudioFormat::Raw ==> audio_format_name(f) == "raw"@,
        w == WaveformFormat::Dat ==> waveform_format_name(w) == "dat"@,
        w == WaveformFormat::Json ==> waveform_format_name(w) == "json"@,
        w == WaveformFormat::Txt ==> waveform_format_name(w) == "txt"@,
        audio_format_for_extension(audio_format_name(f)) == Some(f),
        waveform_format_for_extension(waveform_format_name(w)) == Some(w),
{
    audio_format_name_round_trip(f);
    waveform_format_name_round_trip(w);
}

} // verus!
