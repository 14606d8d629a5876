use vstd::prelude::*;

use crate::error::Error;

verus! {

/// Waveform scale selection.
///
/// A time range for `FitWidth` is given as the number of source frames it spans; callers
/// that start from times in seconds convert them with the source sample rate first.
#[derive(Clone, Copy, Debug, PartialEq, Eq)]
pub enum ScaleSpec {
    /// Generate exactly this many points per channel from the decoded PCM.
    /// Empty input stays empty; when there are fewer frames than points, samples repeat.
    Points(u32),
    /// Use a fixed number of source samples per waveform point.
    SamplesPerPixel(u32),
    /// Derive samples per waveform point from a target number of rendered pixels per second.
    PixelsPerSecond(u32),
    /// Fit a duration or the full clip into the provided width.
    FitWidth {
        /// Output width in pixels.
        width_pixels: u32,
        /// Number of source frames in the requested time range, if a range was given.
        range_frames: Option<u64>,
    },
}

/// The argument error (name and message) that scale validation reports, if any.
pub open spec fn scale_argument_error(s: ScaleSpec) -> Option<(Seq<char>, Seq<char>)> {
    match s {
        ScaleSpec::Points(p) => if p == 0 {
            Some(("points"@, "Invalid points: must be greater than zero"@))
        } else {
            None
        },
        ScaleSpec::SamplesPerPixel(v) => if v < 2 {
            Some(("zoom"@, "Invalid zoom: minimum 2"@))
        } else {
            None
        },
        ScaleSpec::PixelsPerSecond(v) => if v == 0 {
            Some(("pixels per second"@, "Invalid pixels per second: must be greater than zero"@))
        } else {
            None
        },
        ScaleSpec::FitWidth { width_pixels, .. } => if width_pixels == 0 {
            Some(("image width"@, "Invalid image width: minimum 1"@))
        } else {
            None
        },
    }
}

/// The samples per point that a valid scale asks for, before the range and minimum checks.
pub open spec fn scale_raw_value(s: ScaleSpec, sample_rate: u32, frame_count: u64) -> int {
    match s {
        ScaleSpec::Points(p) => {
            let q = (frame_count as int) / (p as int);
            if q < 2 {
                2
            } else {
                q
            }
        },
        ScaleSpec::SamplesPerPixel(v) => v as int,
        ScaleSpec::PixelsPerSecond(v) => (sample_rate as int) / (v as int),
        ScaleSpec::FitWidth { width_pixels, range_frames } => match range_frames {
            Some(f) => (f as int) / (width_pixels as int),
            None => (frame_count as int) / (width_pixels as int),
        },
    }
}

/// The complete outcome of resolving a scale: `Ok` with the samples per point, or
/// `Err` with the argument name and message.
pub open spec fn scale_resolution(s: ScaleSpec, sample_rate: u32, frame_count: u64) -> Result<
    u32,
    (Seq<char>, Seq<char>),
> {
    match scale_argument_error(s) {
        Some(e) => Err(e),
        None => {
            let v = scale_raw_value(s, sample_rate, frame_count);
            if v > u32::MAX {
                match s {
                    ScaleSpec::Points(_) => Err(("points"@, "Too many source frames per point"@)),
                    _ => Err(("image width"@, "Too many source frames per pixel"@)),
                }
            } else if v < 2 {
                Err(("zoom"@, "Invalid zoom: minimum 2"@))
            } else {
                Ok(v as u32)
            }
        },
    }
}

/// An error that carries an argument name and message equal to `e`.
pub open spec fn is_argument_error(r: Error, e: (Seq<char>, Seq<char>)) -> bool {
    r matches Error::InvalidArgument { name, message } && name@ == e.0 && message@ == e.1
}

/// The error for a generation time range whose end is not finite or not after its start.
pub fn invalid_generation_end_time() -> (e: Error)
    ensures
        is_argument_error(
            e,
            ("end time"@, "Invalid end time: must be finite and greater than the start time"@),
        ),
{
    Error::invalid_argument(
        "end time",
        "Invalid end time: must be finite and greater than the start time",
    )
}

impl ScaleSpec {
    /// Checks scale arguments that do not depend on source metadata.
    pub fn validate(self) -> (r: Result<(), Error>)
        ensures
            match scale_argument_error(self) {
                Some(e) => r matches Err(err) && is_argument_error(err, e),
                None => r is Ok,
            },
    {
        match self {
            ScaleSpec::Points(p) => if p == 0 {
                return Err(
                    Error::invalid_argument("points", "Invalid points: must be greater than zero"),
                );
            },
            ScaleSpec::SamplesPerPixel(v) => if v < 2 {
                return Err(Error::invalid_argument("zoom", "Invalid zoom: minimum 2"));
            },
            ScaleSpec::PixelsPerSecond(v) => if v == 0 {
                return Err(
                    Error::invalid_argument(
                        "pixels per second",
                        "Invalid pixels per second: must be greater than zero",
                    ),
                );
            },
            ScaleSpec::FitWidth { width_pixels, .. } => if width_pixels == 0 {
                return Err(Error::invalid_argument("image width", "Invalid image width: minimum 1"));
            },
        }
        Ok(())
    }

    /// Resolves the scale to a concrete number of samples per waveform point.
    /// For `Points`, returns a nominal integer scale, rounded down with a minimum of 2.
    pub fn resolve(self, sample_rate: u32, frame_count: usize) -> (r: Result<u32, Error>)
        ensures
            match scale_resolution(self, sample_rate, frame_count as u64) {
                Ok(v) => r == Ok::<u32, Error>(v),
                Err(e) => r matches Err(err) && is_argument_error(err, e),
            },
    {
        self.resolve_frames(sample_rate, frame_count as u64)
    }

    /// Resolves the scale against a frame count that may exceed `usize`.
    pub fn resolve_frames(self, sample_rate: u32, frame_count: u64) -> (r: Result<u32, Error>)
        ensures
            match scale_resolution(self, sample_rate, frame_count) {
                Ok(v) => r == Ok::<u32, Error>(v),
                Err(e) => r matches Err(err) && is_argument_error(err, e),
            },
    {
        self.validate()?;
        let raw: u64 = match self {
            ScaleSpec::Points(p) => {
                let q = frame_count / (p as u64);
                if q < 2 {
                    2
                } else {
                    q
                }
            },
            ScaleSpec::SamplesPerPixel(v) => v as u64,
            ScaleSpec::PixelsPerSecond(v) => (sample_rate / v) as u64,
            ScaleSpec::FitWidth { width_pixels, range_frames } => match range_frames {
                Some(f) => f / (width_pixels as u64),
                None => frame_count / (width_pixels as u64),
            },
        };
        if raw > u32::MAX as u64 {
            return match self {
                ScaleSpec::Points(_) => Err(
                    Error::invalid_argument("points", "Too many source frames per point"),
                ),
                _ => Err(Error::invalid_argument("image width", "Too many source frames per pixel")),
            };
        }
        if raw < 2 {
            return Err(Error::invalid_argument("zoom", "Invalid zoom: minimum 2"));
        }
        Ok(raw as u32)
    }

    /// Whether generation needs the total frame count before aggregating peaks:
    /// exact point counts and full-clip width fitting.
    pub fn needs_frame_count(self) -> (r: bool)
        ensures
            r == (self is Points || (self matches ScaleSpec::FitWidth { range_frames, .. }
                && range_frames is None)),
    {
        match self {
            ScaleSpec::Points(_) => true,
            ScaleSpec::FitWidth { range_frames: None, .. } => true,
            _ => false,
        }
    }
}

/// Waveform generation settings.
#[derive(Clone, Copy, Debug, PartialEq, Eq)]
pub struct GenerateOptions {
    /// Scale selection.
    pub scale: ScaleSpec,
    /// Whether to keep each source channel separate in the waveform output.
    pub split_channels: bool,
}

impl Default for GenerateOptions {
    fn default() -> (r: GenerateOptions)
        ensures
            r == (GenerateOptions { scale: ScaleSpec::SamplesPerPixel(256), split_channels: false }),
    {
        GenerateOptions { scale: ScaleSpec::SamplesPerPixel(256), split_channels: false }
    }
}

impl GenerateOptions {
    /// Validates the options before any input is read.
    pub fn validate(&self) -> (r: Result<(), Error>)
        ensures
            match scale_argument_error(self.scale) {
                Some(e) => r matches Err(err) && is_argument_error(err, e),
                None => r is Ok,
            },
    {
        self.scale.validate()
    }
}

} // verus!

verus! {

/// `v` is the rounded-down quotient `n / d` exactly when `v * d <= n < (v + 1) * d`.
proof fn lemma_quotient_bounds(n: int, d: int, v: int)
    requires
        n >= 0,
        d > 0,
    ensures
        (n / d == v) <==> (v * d <= n && n < (v + 1) * d),
{
    vstd::arithmetic::div_mod::lemma_fundamental_div_mod(n, d);
    let q = n / d;
    assert(q * d <= n && n < (q + 1) * d) by (nonlinear_arith)
        requires
            n == d * q + n % d,
            0 <= n % d < d,
    ;
    if v * d <= n && n < (v + 1) * d {
        assert((v + 1) * d == v * d + d) by (nonlinear_arith);
        vstd::arithmetic::div_mod::lemma_fundamental_div_mod_converse(n, d, v, n - v * d);
    }
}

/// Fitting into a width: with `w > 0` pixels and `n` source frames to show (the clip's
/// frame count, or the frames of the requested range when one is given), the scale is
/// the `v >= 2` with `v * w <= n < (v + 1) * w`, so that the whole span fills the
/// image; it does not depend on the sample rate, and when a range is given it does not
/// depend on the clip's length either.
pub proof fn fit_width_scale(
    w: u32,
    range_frames: Option<u64>,
    sample_rate: u32,
    frame_count: u64,
    v: u32,
    other_rate: u32,
)
    requires
        w > 0,
    ensures
        ({
            let s = ScaleSpec::FitWidth { width_pixels: w, range_frames };
            let n = match range_frames {
                Some(f) => f as int,
                None => frame_count as int,
            };
            &&& (scale_resolution(s, sample_rate, frame_count) == Ok::<
                u32,
                (Seq<char>, Seq<char>),
            >(v)) <==> (2 <= v && v * w <= n && n < (v + 1) * w)
            &&& n < 2 * w ==> scale_resolution(s, sample_rate, frame_count) == Err::<
                u32,
                (Seq<char>, Seq<char>),
            >(("zoom"@, "Invalid zoom: minimum 2"@))
            &&& n >= (u32::MAX + 1) * w ==> scale_resolution(s, sample_rate, frame_count)
                == Err::<u32, (Seq<char>, Seq<char>)>(
                ("image width"@, "Too many source frames per pixel"@),
            )
            &&& scale_resolution(s, other_rate, frame_count) == scale_resolution(
                s,
                sample_rate,
                frame_count,
            )
            &&& range_frames is Some ==> forall|m: u64|
                scale_resolution(s, sample_rate, m) == scale_resolution(
                    s,
                    sample_rate,
                    frame_count,
                )
        }),
{
    let n = match range_frames {
        Some(f) => f as int,
        None => frame_count as int,
    };
    lemma_quotient_bounds(n, w as int, v as int);
    lemma_quotient_bounds(n, w as int, n / (w as int));
    if n < 2 * w {
        assert(n / (w as int) < 2) by {
            if n / (w as int) >= 2 {
                assert(2 * w <= (n / (w as int)) * w) by (nonlinear_arith)
                    requires
                        n / (w as int) >= 2,
                        w > 0,
                ;
            }
        }
    }
    if n >= (u32::MAX + 1) * w {
        assert(n / (w as int) > u32::MAX) by {
            if n / (w as int) <= u32::MAX {
                assert((n / (w as int) + 1) * w <= (u32::MAX + 1) * w) by (nonlinear_arith)
                    requires
                        n / (w as int) <= u32::MAX,
                        w > 0,
                ;
            }
        }
    }
}

/// Pixels per second: with `p > 0`, the scale is the `v >= 2` with
/// `v * p <= sample_rate < (v + 1) * p`, whatever the clip's length.
pub proof fn pixels_per_second_scale(p: u32, sample_rate: u32, frame_count: u64, v: u32, m: u64)
    requires
        p > 0,
    ensures
        (scale_resolution(ScaleSpec::PixelsPerSecond(p), sample_rate, frame_count) == Ok::<
            u32,
            (Seq<char>, Seq<char>),
        >(v)) <==> (2 <= v && v * p <= sample_rate && sample_rate < (v + 1) * p),
        scale_resolution(ScaleSpec::PixelsPerSecond(p), sample_rate, m) == scale_resolution(
            ScaleSpec::PixelsPerSecond(p),
            sample_rate,
            frame_count,
        ),
{
    lemma_quotient_bounds(sample_rate as int, p as int, v as int);
}

/// A fixed zoom is taken as given when it is at least 2, whatever the sample rate and
/// clip length, and rejected otherwise.
pub proof fn samples_per_pixel_scale(z: u32, sample_rate: u32, frame_count: u64)
    ensures
        z >= 2 ==> scale_resolution(ScaleSpec::SamplesPerPixel(z), sample_rate, frame_count)
            == Ok::<u32, (Seq<char>, Seq<char>)>(z),
        z < 2 ==> scale_resolution(ScaleSpec::SamplesPerPixel(z), sample_rate, frame_count)
            is Err,
{
}

/// A point count `p > 0` resolves to a nominal scale of 2 when the clip has fewer than
/// `3 * p` frames, and otherwise to the `v > 2` with `v * p <= frames < (v + 1) * p`; the
/// sample rate plays no part.
pub proof fn points_scale(p: u32, sample_rate: u32, frame_count: u64, v: u32, other_rate: u32)
    requires
        p > 0,
        (frame_count as int) < (u32::MAX + 1) * p,
    ensures
        (scale_resolution(ScaleSpec::Points(p), sample_rate, frame_count) == Ok::<
            u32,
            (Seq<char>, Seq<char>),
        >(v)) <==> ((v == 2 && frame_count < 3 * p) || (v > 2 && v * p <= frame_count
            && frame_count < (v + 1) * p)),
        scale_resolution(ScaleSpec::Points(p), other_rate, frame_count) == scale_resolution(
            ScaleSpec::Points(p),
            sample_rate,
            frame_count,
        ),
{
    let n = frame_count as int;
    let q = n / (p as int);
    lemma_quotient_bounds(n, p as int, v as int);
    lemma_quotient_bounds(n, p as int, q);
    lemma_quotient_bounds(n, p as int, 2);
    assert(q <= u32::MAX) by {
        if q > u32::MAX {
            assert((u32::MAX + 1) * p <= q * p) by (nonlinear_arith)
                requires
                    q > u32::MAX,
                    p > 0,
            ;
        }
    }
    if n < 3 * p {
        assert(q < 3) by {
            if q >= 3 {
                assert(3 * p <= q * p) by (nonlinear_arith)
                    requires
                        q >= 3,
                        p > 0,
                ;
            }
        }
    } else {
        assert(q >= 3) by {
            if q < 3 {
                assert((q + 1) * p <= 3 * p) by (nonlinear_arith)
                    requires
                        q < 3,
                        p > 0,
                ;
            }
        }
    }
}

} // verus!

verus! {

/// Scales that cannot work are refused with the argument they fault: no points, a zoom
/// below 2, zero pixels per second, a zero width; a rate too low for the requested
/// pixels per second gives a zoom below 2; and more than `u32::MAX` frames per point.
pub proof fn invalid_scales_are_rejected(s: ScaleSpec, sample_rate: u32, frame_count: u64)
    ensures
        s == ScaleSpec::Points(0) ==> scale_resolution(s, sample_rate, frame_count) == Err::<
            u32,
            (Seq<char>, Seq<char>),
        >(("points"@, "Invalid points: must be greater than zero"@)),
        s matches ScaleSpec::SamplesPerPixel(z) && z < 2 ==> scale_resolution(
            s,
            sample_rate,
            frame_count,
        ) == Err::<u32, (Seq<char>, Seq<char>)>(("zoom"@, "Invalid zoom: minimum 2"@)),
        s == ScaleSpec::PixelsPerSecond(0) ==> scale_resolution(s, sample_rate, frame_count)
            == Err::<u32, (Seq<char>, Seq<char>)>(
            ("pixels per second"@, "Invalid pixels per second: must be greater than zero"@),
        ),
        s is FitWidth && s->width_pixels == 0 ==> scale_resolution(s, sample_rate, frame_count)
            == Err::<u32, (Seq<char>, Seq<char>)>(
            ("image width"@, "Invalid image width: minimum 1"@),
        ),
        s is PixelsPerSecond && s->PixelsPerSecond_0 > 0 && sample_rate < 2
            * s->PixelsPerSecond_0 ==> scale_resolution(s, sample_rate, frame_count) == Err::<
            u32,
            (Seq<char>, Seq<char>),
        >(("zoom"@, "Invalid zoom: minimum 2"@)),
        s is Points && s->Points_0 > 0 && frame_count >= (u32::MAX + 1) * s->Points_0
            ==> scale_resolution(s, sample_rate, frame_count) == Err::<
            u32,
            (Seq<char>, Seq<char>),
        >(("points"@, "Too many source frames per point"@)),
{
    if s is PixelsPerSecond && s->PixelsPerSecond_0 > 0 {
        let p = s->PixelsPerSecond_0;
        lemma_quotient_bounds(sample_rate as int, p as int, (sample_rate as int) / (p as int));
        if sample_rate < 2 * p {
            assert((sample_rate as int) / (p as int) < 2) by {
                let q = (sample_rate as int) / (p as int);
                if q >= 2 {
                    assert(2 * p <= q * p) by (nonlinear_arith)
                        requires
                            q >= 2,
                            p > 0,
                    ;
                }
            }
        }
    }
    if s is Points && s->Points_0 > 0 {
        let p = s->Points_0;
        let q = (frame_count as int) / (p as int);
        lemma_quotient_bounds(frame_count as int, p as int, q);
        if frame_count >= (u32::MAX + 1) * p {
            assert(q > u32::MAX) by {
                if q <= u32::MAX {
                    assert((q + 1) * p <= (u32::MAX + 1) * p) by (nonlinear_arith)
                        requires
                            q <= u32::MAX,
                            p > 0,
                    ;
                }
            }
        }
    }
}

} // verus!
