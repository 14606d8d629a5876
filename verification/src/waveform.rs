use vstd::prelude::*;

use crate::error::Error;

verus! {

/// Integer division rounding toward zero, as Rust's `/` does on signed integers.
pub open spec fn trunc_div(a: int, d: int) -> int
    recommends
        d > 0,
{
    if a >= 0 {
        a / d
    } else {
        -((-a) / d)
    }
}

/// Minimum and maximum sample values of one waveform point.
#[derive(Clone, Copy, Debug, PartialEq, Eq)]
pub struct WaveformPoint {
    /// Minimum sample value.
    pub min: i16,
    /// Maximum sample value.
    pub max: i16,
}

/// The abstract content of a waveform.
pub struct WaveformView {
    /// Source sample rate in Hz.
    pub sample_rate: u32,
    /// Nominal number of source frames per point.
    pub samples_per_pixel: u32,
    /// Number of waveform channels.
    pub channels: u16,
    /// Values in storage order: for each point, for each channel, the minimum then the maximum.
    pub samples: Seq<i16>,
    /// Number of source frames for exact-count waveforms.
    pub source_frames: Option<u64>,
}

/// Number of points per channel that a waveform view holds.
pub open spec fn view_len(v: WaveformView) -> int {
    (v.samples.len() as int) / (2 * v.channels as int)
}

/// Position in storage order of the minimum of point `index` in `channel`.
pub open spec fn point_offset(channels: int, index: int, channel: int) -> int {
    2 * (index * channels + channel)
}

/// Storage order of one point per channel, given the per-channel minima and maxima.
pub open spec fn interleave_extrema(mins: Seq<i16>, maxs: Seq<i16>) -> Seq<i16> {
    Seq::new(2 * mins.len(), |j: int| if j % 2 == 0 { mins[j / 2] } else { maxs[j / 2] })
}

/// A waveform with 16-bit point values, stored interleaved by channel.
#[derive(Debug, PartialEq)]
pub struct Waveform {
    sample_rate: u32,
    samples_per_pixel: u32,
    channels: u16,
    samples: Vec<i16>,
    source_frames: Option<u64>,
}

impl View for Waveform {
    type V = WaveformView;

    closed spec fn view(&self) -> WaveformView {
        WaveformView {
            sample_rate: self.sample_rate,
            samples_per_pixel: self.samples_per_pixel,
            channels: self.channels,
            samples: self.samples@,
            source_frames: self.source_frames,
        }
    }
}

/// What every waveform satisfies: at least one channel and whole points.
pub open spec fn waveform_view_wf(v: WaveformView) -> bool {
    &&& v.channels > 0
    &&& (v.samples.len() as int) % (2 * v.channels as int) == 0
}

/// The largest absolute value among the samples.
pub open spec fn peak_magnitude(s: Seq<i16>) -> int
    decreases s.len(),
{
    if s.len() == 0 {
        0
    } else {
        let rest = peak_magnitude(s.drop_last());
        let m = if s.last() < 0 {
            -(s.last() as int)
        } else {
            s.last() as int
        };
        if m > rest {
            m
        } else {
            rest
        }
    }
}

/// Automatic amplitude scaling of one value: the largest absolute peak maps to 32767,
/// rounding toward zero.
pub open spec fn normalize_value(v: i16, peak: int) -> int {
    trunc_div(v * 32767, peak)
}

/// Automatic amplitude scaling of all values; silence is unchanged.
pub open spec fn normalize_samples(s: Seq<i16>) -> Seq<i16> {
    let peak = peak_magnitude(s);
    if peak == 0 {
        s
    } else {
        Seq::new(s.len(), |i: int| normalize_value(s[i], peak) as i16)
    }
}

/// The value that 8-bit output holds for a 16-bit value.
pub open spec fn to_8_bit(v: i16) -> i16 {
    trunc_div(v as int, 256) as i16
}

proof fn lemma_peak_bounds(s: Seq<i16>)
    ensures
        0 <= peak_magnitude(s) <= 32768,
        forall|i: int| 0 <= i < s.len() ==> -peak_magnitude(s) <= #[trigger] s[i] <= peak_magnitude(s),
        s.len() > 0 && peak_magnitude(s) > 0 ==> exists|i: int|
            0 <= i < s.len() && (#[trigger] s[i] == peak_magnitude(s) || s[i] == -peak_magnitude(s)),
    decreases s.len(),
{
    if s.len() > 0 {
        lemma_peak_bounds(s.drop_last());
        let rest = s.drop_last();
        assert forall|i: int| 0 <= i < s.len() implies -peak_magnitude(s) <= #[trigger] s[i]
            <= peak_magnitude(s) by {
            if i < s.len() - 1 {
                assert(s[i] == rest[i]);
            }
        }
        if peak_magnitude(s) > 0 {
            if peak_magnitude(s) != peak_magnitude(rest) {
                assert(s[s.len() - 1] == peak_magnitude(s) || s[s.len() - 1] == -peak_magnitude(s));
            } else {
                let i = choose|i: int|
                    0 <= i < rest.len() && (#[trigger] rest[i] == peak_magnitude(rest) || rest[i]
                        == -peak_magnitude(rest));
                assert(s[i] == rest[i]);
            }
        }
    }
}

impl Waveform {
    #[verifier::type_invariant]
    spec fn inv(self) -> bool {
        waveform_view_wf(self@)
    }

    /// Creates an empty waveform.
    pub fn new(sample_rate: u32, samples_per_pixel: u32, channels: u16) -> (r: Result<Waveform, Error>)
        ensures
            channels == 0 ==> (r matches Err(Error::InvalidArgument { message, .. }) && message@
                == "Invalid number of channels: must be greater than zero"@),
            channels > 0 ==> (r matches Ok(w) && w@ == (WaveformView {
                sample_rate,
                samples_per_pixel,
                channels,
                samples: Seq::empty(),
                source_frames: None,
            })),
    {
        if channels == 0 {
            return Err(
                Error::invalid_argument(
                    "channels",
                    "Invalid number of channels: must be greater than zero",
                ),
            );
        }
        let samples: Vec<i16> = Vec::new();
        proof {
            assert(samples@.len() == 0);
            vstd::arithmetic::div_mod::lemma_small_mod(0, 2 * channels as nat);
        }
        Ok(Waveform { sample_rate, samples_per_pixel, channels, samples, source_frames: None })
    }

    /// Creates a waveform from stored values in storage order (for each point, for each
    /// channel, the minimum then the maximum). `bits` is the depth the values were
    /// stored at, 8 or 16; the values are kept as given.
    pub fn from_interleaved_samples(
        sample_rate: u32,
        samples_per_pixel: u32,
        channels: u16,
        samples: Vec<i16>,
        bits: u8,
    ) -> (r: Result<Waveform, Error>)
        ensures
            channels == 0 ==> (r matches Err(Error::InvalidArgument { message, .. }) && message@
                == "Invalid number of channels: must be greater than zero"@),
            channels > 0 && bits != 8 && bits != 16 ==> (r matches Err(
                Error::InvalidArgument { message, .. },
            ) && message@ == "Invalid bits: must be either 8 or 16"@),
            channels > 0 && (bits == 8 || bits == 16) && (samples@.len() as int) % (2
                * channels as int) != 0 ==> (r matches Err(Error::InvalidData { message })
                && message@ == "Waveform data must hold a minimum and a maximum per channel for every point"@),
            channels > 0 && (bits == 8 || bits == 16) && (samples@.len() as int) % (2
                * channels as int) == 0 ==> (r matches Ok(w) && w@ == (WaveformView {
                sample_rate,
                samples_per_pixel,
                channels,
                samples: samples@,
                source_frames: None,
            })),
    {
        if channels == 0 {
            return Err(
                Error::invalid_argument(
                    "channels",
                    "Invalid number of channels: must be greater than zero",
                ),
            );
        }
        if bits != 8 && bits != 16 {
            return Err(Error::invalid_argument("bits", "Invalid bits: must be either 8 or 16"));
        }
        if samples.len() % (2 * channels as usize) != 0 {
            return Err(
                Error::invalid_data(
                    "Waveform data must hold a minimum and a maximum per channel for every point",
                ),
            );
        }
        Ok(Waveform { sample_rate, samples_per_pixel, channels, samples, source_frames: None })
    }

    /// Replaces the stored values, keeping the layout and timing; the new values must
    /// have the same length as the old ones.
    pub fn with_values(self, values: Vec<i16>) -> (r: Result<Waveform, Error>)
        ensures
            values@.len() == self@.samples.len() ==> (r matches Ok(w) && w@ == (WaveformView {
                samples: values@,
                ..self@
            })),
            values@.len() != self@.samples.len() ==> (r matches Err(
                Error::InvalidArgument { message, .. },
            ) && message@ == "Replacement values must keep the waveform length"@),
    {
        proof {
            use_type_invariant(&self);
        }
        if values.len() != self.samples.len() {
            return Err(
                Error::invalid_argument(
                    "samples",
                    "Replacement values must keep the waveform length",
                ),
            );
        }
        let Waveform { sample_rate, samples_per_pixel, channels, source_frames, .. } = self;
        Ok(Waveform { sample_rate, samples_per_pixel, channels, samples: values, source_frames })
    }

    /// Returns the source sample rate in Hz.
    pub fn sample_rate(&self) -> (r: u32)
        ensures
            r == self@.sample_rate,
    {
        self.sample_rate
    }

    /// Returns the nominal number of source frames per point.
    pub fn samples_per_pixel(&self) -> (r: u32)
        ensures
            r == self@.samples_per_pixel,
    {
        self.samples_per_pixel
    }

    /// Returns the number of waveform channels.
    pub fn channels(&self) -> (r: u16)
        ensures
            r == self@.channels,
            r > 0,
    {
        proof {
            use_type_invariant(self);
        }
        self.channels
    }

    /// Returns the source frame count of an exact-count waveform.
    pub fn source_frames(&self) -> (r: Option<u64>)
        ensures
            r == self@.source_frames,
    {
        self.source_frames
    }

    /// Returns the number of points per channel.
    pub fn len(&self) -> (r: usize)
        ensures
            r == view_len(self@),
            2 * (self@.channels as int) * (r as int) == self@.samples.len(),
    {
        proof {
            use_type_invariant(self);
            vstd::arithmetic::div_mod::lemma_fundamental_div_mod(
                self@.samples.len() as int,
                2 * self@.channels as int,
            );
        }
        self.samples.len() / (2 * self.channels as usize)
    }

    /// Whether the waveform has no points.
    pub fn is_empty(&self) -> (r: bool)
        ensures
            r == (self@.samples.len() == 0),
    {
        self.samples.len() == 0
    }

    /// Returns the point at `index` in `channel`, if both exist.
    pub fn point(&self, channel: u16, index: usize) -> (r: Option<WaveformPoint>)
        ensures
            (channel < self@.channels && index < view_len(self@)) ==> r == Some(
                WaveformPoint {
                    min: self@.samples[point_offset(self@.channels as int, index as int, channel as int)],
                    max: self@.samples[point_offset(self@.channels as int, index as int, channel as int) + 1],
                },
            ),
            !(channel < self@.channels && index < view_len(self@)) ==> r is None,
    {
        let n = self.len();
        let total = self.samples.len();
        if channel >= self.channels || index >= n {
            return None;
        }
        proof {
            assert((index as int) * (self.channels as int) + (channel as int) < (n as int) * (
            self.channels as int)) by (nonlinear_arith)
                requires
                    index < n,
                    channel < self.channels,
            ;
            assert(2 * ((n as int) * (self.channels as int)) == 2 * (self.channels as int) * (n as int)) by (nonlinear_arith);
            assert(total == self.samples@.len());
            assert(2 * ((index as int) * (self.channels as int) + (channel as int)) + 1 < self.samples@.len());
        }
        let offset = 2 * (index * (self.channels as usize) + channel as usize);
        Some(WaveformPoint { min: self.samples[offset], max: self.samples[offset + 1] })
    }

    /// Returns the stored values: for each point, for each channel, the minimum then the maximum.
    pub fn interleaved_samples(&self) -> (r: &[i16])
        ensures
            r@ == self@.samples,
    {
        self.samples.as_slice()
    }

    /// Returns the values at 8 or 16 bits in storage order. 8-bit values are the 16-bit
    /// values divided by 256, rounded toward zero.
    pub fn data(&self, bits: u8) -> (r: Result<Vec<i16>, Error>)
        ensures
            bits == 16 ==> (r matches Ok(v) && v@ == self@.samples),
            bits == 8 ==> (r matches Ok(v) && v@ == self@.samples.map_values(|x: i16| to_8_bit(x))),
            bits != 8 && bits != 16 ==> (r matches Err(Error::InvalidArgument { message, .. })
                && message@ == "Invalid bits: must be either 8 or 16"@),
    {
        if bits == 16 {
            let mut out: Vec<i16> = Vec::new();
            let mut i: usize = 0;
            while i < self.samples.len()
                invariant
                    i <= self.samples.len(),
                    out@ == self.samples@.subrange(0, i as int),
                decreases self.samples.len() - i,
            {
                out.push(self.samples[i]);
                i = i + 1;
                proof {
                    assert(out@ =~= self.samples@.subrange(0, i as int));
                }
            }
            proof {
                assert(out@ =~= self.samples@);
            }
            Ok(out)
        } else if bits == 8 {
            let mut out: Vec<i16> = Vec::new();
            let mut i: usize = 0;
            while i < self.samples.len()
                invariant
                    i <= self.samples.len(),
                    out@ == self.samples@.subrange(0, i as int).map_values(|x: i16| to_8_bit(x)),
                decreases self.samples.len() - i,
            {
                let v = self.samples[i];
                let w: i16 = if v >= 0 {
                    v / 256
                } else {
                    -((-(v as i32)) / 256) as i16
                };
                out.push(w);
                i = i + 1;
                proof {
                    assert(out@ =~= self.samples@.subrange(0, i as int).map_values(
                        |x: i16| to_8_bit(x),
                    ));
                }
            }
            proof {
                assert(self.samples@.subrange(0, self.samples@.len() as int) =~= self.samples@);
            }
            Ok(out)
        } else {
            Err(Error::invalid_argument("bits", "Invalid bits: must be either 8 or 16"))
        }
    }

    /// Appends one point per channel from per-channel extrema.
    pub(crate) fn push_extrema(&mut self, mins: &Vec<i16>, maxs: &Vec<i16>)
        requires
            mins@.len() == old(self)@.channels,
            maxs@.len() == old(self)@.channels,
        ensures
            final(self)@ == (WaveformView {
                samples: old(self)@.samples + interleave_extrema(mins@, maxs@),
                ..old(self)@
            }),
    {
        proof {
            use_type_invariant(&*self);
        }
        let mut tail: Vec<i16> = Vec::new();
        let mut i: usize = 0;
        while i < mins.len()
            invariant
                i <= mins@.len(),
                mins@.len() == maxs@.len(),
                tail@ == interleave_extrema(mins@, maxs@).subrange(0, 2 * i as int),
            decreases mins@.len() - i,
        {
            tail.push(mins[i]);
            tail.push(maxs[i]);
            proof {
                let full = interleave_extrema(mins@, maxs@);
                assert(full[2 * i as int] == mins@[i as int]);
                assert(full[2 * i as int + 1] == maxs@[i as int]);
                assert(tail@ =~= full.subrange(0, 2 * (i + 1) as int));
            }
            i = i + 1;
        }
        proof {
            assert(tail@ =~= interleave_extrema(mins@, maxs@));
            let c = 2 * self.channels as int;
            vstd::arithmetic::div_mod::lemma_mod_add_multiples_vanish(self.samples@.len() as int, c);
        }
        let mut samples: Vec<i16> = Vec::new();
        proof {
            vstd::arithmetic::div_mod::lemma_small_mod(0, 2 * self.channels as nat);
        }
        std::mem::swap(&mut samples, &mut self.samples);
        samples.append(&mut tail);
        std::mem::swap(&mut samples, &mut self.samples);
    }

    /// Records the source frame count of an exact-count waveform.
    pub(crate) fn set_source_frames(&mut self, frames: u64)
        ensures
            final(self)@ == (WaveformView { source_frames: Some(frames), ..old(self)@ }),
    {
        proof {
            use_type_invariant(&*self);
        }
        self.source_frames = Some(frames);
    }

    /// Scales amplitudes so that the largest absolute value becomes 32767, keeping
    /// relative amplitudes; silence is unchanged.
    pub fn normalized(self) -> (r: Waveform)
        ensures
            r@ == (WaveformView { samples: normalize_samples(self@.samples), ..self@ }),
    {
        proof {
            use_type_invariant(&self);
        }
        let mut peak: i32 = 0;
        let mut i: usize = 0;
        while i < self.samples.len()
            invariant
                i <= self.samples.len(),
                peak == peak_magnitude(self.samples@.subrange(0, i as int)),
            decreases self.samples.len() - i,
        {
            let v = self.samples[i] as i32;
            let m = if v < 0 {
                -v
            } else {
                v
            };
            proof {
                assert(self.samples@.subrange(0, i + 1 as int).drop_last() =~= self.samples@.subrange(
                    0,
                    i as int,
                ));
            }
            if m > peak {
                peak = m;
            }
            i = i + 1;
        }
        proof {
            assert(self.samples@.subrange(0, self.samples@.len() as int) =~= self.samples@);
            lemma_peak_bounds(self.samples@);
        }
        if peak == 0 {
            return self;
        }
        let Waveform { sample_rate, samples_per_pixel, channels, samples, source_frames } = self;
        let ghost before = samples@;
        let mut samples = samples;
        let mut j: usize = 0;
        while j < samples.len()
            invariant
                j <= samples.len(),
                samples@.len() == before.len(),
                0 < peak <= 32768,
                peak == peak_magnitude(before),
                forall|k: int| j <= k < before.len() ==> samples@[k] == before[k],
                forall|k: int|
                    0 <= k < j ==> samples@[k] == normalize_value(before[k], peak as int) as i16,
                forall|k: int| 0 <= k < before.len() ==> -peak <= #[trigger] before[k] <= peak,
            decreases samples.len() - j,
        {
            let v = samples[j] as i64;
            let scaled: i64 = v * 32767;
            let q: i64 = if scaled >= 0 {
                scaled / (peak as i64)
            } else {
                -((-scaled) / (peak as i64))
            };
            proof {
                assert(-peak <= before[j as int] <= peak);
                assert(-32767 <= q <= 32767) by (nonlinear_arith)
                    requires
                        -peak <= v <= peak,
                        0 < peak,
                        scaled == v * 32767,
                        scaled >= 0 ==> q == (scaled as int) / (peak as int),
                        scaled < 0 ==> q == -((-scaled) / (peak as int)),
                ;
            }
            samples.set(j, q as i16);
            j = j + 1;
        }
        proof {
            assert(samples@ =~= normalize_samples(before));
        }
        Waveform { sample_rate, samples_per_pixel, channels, samples, source_frames }
    }
}

} // verus!

verus! {

proof fn lemma_trunc_div_monotone(a: int, b: int, d: int)
    requires
        d > 0,
        a <= b,
    ensures
        trunc_div(a, d) <= trunc_div(b, d),
{
    if a >= 0 {
        vstd::arithmetic::div_mod::lemma_div_is_ordered(a, b, d);
    } else if b < 0 {
        vstd::arithmetic::div_mod::lemma_div_is_ordered(-b, -a, d);
    } else {
        vstd::arithmetic::div_mod::lemma_div_pos_is_pos(-a, d);
        vstd::arithmetic::div_mod::lemma_div_pos_is_pos(b, d);
    }
}

proof fn lemma_normalize_value_bounds(v: i16, peak: int)
    requires
        0 < peak,
        -peak <= v <= peak,
    ensures
        -32767 <= normalize_value(v, peak) <= 32767,
        v == peak ==> normalize_value(v, peak) == 32767,
        v == -peak ==> normalize_value(v, peak) == -32767,
        v == 0 ==> normalize_value(v, peak) == 0,
        v > 0 ==> normalize_value(v, peak) >= 0,
        v < 0 ==> normalize_value(v, peak) <= 0,
{
    let x = v * 32767;
    if x >= 0 {
        assert(x <= peak * 32767) by (nonlinear_arith)
            requires
                x == v * 32767,
                v <= peak,
        ;
        vstd::arithmetic::div_mod::lemma_div_is_ordered(x, peak * 32767, peak);
        vstd::arithmetic::div_mod::lemma_div_by_multiple(32767, peak);
        vstd::arithmetic::mul::lemma_mul_is_commutative(32767, peak);
        vstd::arithmetic::div_mod::lemma_div_pos_is_pos(x, peak);
    } else {
        assert(-x <= peak * 32767) by (nonlinear_arith)
            requires
                x == v * 32767,
                -peak <= v,
        ;
        vstd::arithmetic::div_mod::lemma_div_is_ordered(-x, peak * 32767, peak);
        vstd::arithmetic::div_mod::lemma_div_by_multiple(32767, peak);
        vstd::arithmetic::mul::lemma_mul_is_commutative(32767, peak);
        vstd::arithmetic::div_mod::lemma_div_pos_is_pos(-x, peak);
    }
}

/// Automatic amplitude scaling maps the largest absolute peak to full scale (32767 or
/// -32767), keeps the sign and the relative order of all values, and leaves silence
/// unchanged.
pub proof fn automatic_scaling_preserves_peak_ratios(s: Seq<i16>, i: int, j: int)
    requires
        0 <= i < s.len(),
        0 <= j < s.len(),
    ensures
        normalize_samples(s).len() == s.len(),
        peak_magnitude(s) == 0 ==> normalize_samples(s) == s,
        peak_magnitude(s) > 0 && s[i] == peak_magnitude(s) ==> normalize_samples(s)[i] == 32767,
        peak_magnitude(s) > 0 && s[i] == -peak_magnitude(s) ==> normalize_samples(s)[i] == -32767,
        s[i] <= s[j] ==> normalize_samples(s)[i] <= normalize_samples(s)[j],
        s[i] > 0 ==> normalize_samples(s)[i] > 0 || (normalize_samples(s)[i] == 0 && s[i] * 32767
            < peak_magnitude(s)),
        s[i] < 0 ==> normalize_samples(s)[i] <= 0,
        s[i] == 0 ==> normalize_samples(s)[i] == 0,
{
    lemma_peak_bounds(s);
    let peak = peak_magnitude(s);
    if peak > 0 {
        assert(-peak <= s[i] <= peak);
        assert(-peak <= s[j] <= peak);
        lemma_normalize_value_bounds(s[i], peak);
        lemma_normalize_value_bounds(s[j], peak);
        if s[i] <= s[j] {
            assert(s[i] * 32767 <= s[j] * 32767) by (nonlinear_arith)
                requires
                    s[i] <= s[j],
            ;
            lemma_trunc_div_monotone(s[i] * 32767, s[j] * 32767, peak);
        }
        if s[i] > 0 && s[i] * 32767 >= peak {
            vstd::arithmetic::div_mod::lemma_div_is_ordered(peak, s[i] * 32767, peak);
            vstd::arithmetic::div_mod::lemma_div_by_multiple(1, peak);
        }
    }
}

} // verus!

verus! {

/// 8-bit output keeps the high byte of each value, rounding toward zero: the result `r`
/// lies in `-128..=127`, has the sign of the value, and `256 * |r| <= |v| < 256 * (|r| + 1)`.
pub proof fn eight_bit_values(v: i16)
    ensures
        -128 <= to_8_bit(v) <= 127,
        v >= 0 ==> 256 * to_8_bit(v) <= v < 256 * (to_8_bit(v) + 1),
        v < 0 ==> 256 * (to_8_bit(v) - 1) < v <= 256 * to_8_bit(v),
{
    if v >= 0 {
        vstd::arithmetic::div_mod::lemma_fundamental_div_mod(v as int, 256);
    } else {
        vstd::arithmetic::div_mod::lemma_fundamental_div_mod(-(v as int), 256);
    }
}

} // verus!
