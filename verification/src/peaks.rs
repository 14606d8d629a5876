use vstd::prelude::*;

use crate::decode::DecodedInfo;
use crate::error::Error;
use crate::options::{is_argument_error, scale_resolution, GenerateOptions, ScaleSpec};
use crate::pcm::{pcm_view_wf, PcmAudio, PcmView};
use crate::waveform::{interleave_extrema, point_offset, trunc_div, view_len, Waveform, WaveformView};

verus! {

/// How frames are grouped into waveform points.
pub struct PeakLayout {
    /// Input channels per frame.
    pub channels: int,
    /// Output channels: 1 when channels are mixed, otherwise `channels`.
    pub out_channels: int,
    /// Frames per point for fixed scales.
    pub scale: int,
    /// `(frames, points)` when an exact number of points spans a known number of frames.
    pub exact: Option<(int, int)>,
}

/// Sum of the first `upto` samples of frame `f`.
pub open spec fn frame_sum(input: Seq<i16>, ch: int, f: int, upto: int) -> int
    decreases upto,
{
    if upto <= 0 {
        0
    } else {
        frame_sum(input, ch, f, upto - 1) + input[f * ch + upto - 1] as int
    }
}

/// The value that frame `f` contributes to output channel `c`: the channel's own sample,
/// or, when channels are mixed, the mean of the frame rounded toward zero.
pub open spec fn frame_value(input: Seq<i16>, l: PeakLayout, f: int, c: int) -> int {
    if l.out_channels == 1 {
        trunc_div(frame_sum(input, l.channels, f, l.channels), l.channels)
    } else {
        input[f * l.channels + c] as int
    }
}

/// Minimum of `frame_value` over frames `lo..hi` (32767 for an empty range).
pub open spec fn range_min(input: Seq<i16>, l: PeakLayout, c: int, lo: int, hi: int) -> int
    decreases hi - lo,
{
    if hi <= lo {
        32767
    } else {
        let rest = range_min(input, l, c, lo, hi - 1);
        let v = frame_value(input, l, hi - 1, c);
        if v < rest {
            v
        } else {
            rest
        }
    }
}

/// Maximum of `frame_value` over frames `lo..hi` (-32768 for an empty range).
pub open spec fn range_max(input: Seq<i16>, l: PeakLayout, c: int, lo: int, hi: int) -> int
    decreases hi - lo,
{
    if hi <= lo {
        -32768
    } else {
        let rest = range_max(input, l, c, lo, hi - 1);
        let v = frame_value(input, l, hi - 1, c);
        if v > rest {
            v
        } else {
            rest
        }
    }
}

/// First frame of point `k`.
pub open spec fn bucket_start(l: PeakLayout, k: int) -> int {
    match l.exact {
        Some((n, p)) => (k * n) / p,
        None => k * l.scale,
    }
}

/// One past the last frame of point `k`, before clipping to the end of the input.
/// Exact points always span at least one frame, so short clips repeat frames.
pub open spec fn bucket_end(l: PeakLayout, k: int) -> int {
    match l.exact {
        Some((n, p)) => {
            let e = ((k + 1) * n) / p;
            let s = (k * n) / p;
            if e > s + 1 {
                e
            } else {
                s + 1
            }
        },
        None => (k + 1) * l.scale,
    }
}

/// The value at position `t` in storage order of the waveform over `frames` frames.
pub open spec fn point_entry(input: Seq<i16>, l: PeakLayout, frames: int, t: int) -> int {
    let w = 2 * l.out_channels;
    let k = t / w;
    let r = t % w;
    let c = r / 2;
    let lo = bucket_start(l, k);
    let hi = if bucket_end(l, k) < frames {
        bucket_end(l, k)
    } else {
        frames
    };
    if r % 2 == 0 {
        range_min(input, l, c, lo, hi)
    } else {
        range_max(input, l, c, lo, hi)
    }
}

/// The first `count` points over `frames` frames of `input`, in storage order.
pub open spec fn expected_samples(input: Seq<i16>, l: PeakLayout, frames: int, count: int) -> Seq<
    i16,
> {
    Seq::new((count * (2 * l.out_channels)) as nat, |t: int| point_entry(input, l, frames, t) as i16)
}

/// Number of points that generation produces from `frames` frames.
pub open spec fn point_count(l: PeakLayout, frames: int) -> int {
    match l.exact {
        Some((n, p)) => if n == 0 {
            0
        } else {
            p
        },
        None => (frames + l.scale - 1) / l.scale,
    }
}

/// The waveform values that generation produces from all of `input`.
pub open spec fn generated_samples(input: Seq<i16>, l: PeakLayout) -> Seq<i16> {
    let frames = (input.len() as int) / l.channels;
    expected_samples(input, l, frames, point_count(l, frames))
}

/// The grouping that generation uses for the given options and source.
pub open spec fn layout_for(options: GenerateOptions, channels: int, frames: int, scale: int) -> PeakLayout {
    PeakLayout {
        channels,
        out_channels: if options.split_channels {
            channels
        } else {
            1
        },
        scale,
        exact: match options.scale {
            ScaleSpec::Points(p) => Some((frames, p as int)),
            _ => None,
        },
    }
}

// ---------------------------------------------------------------------------------------
// Arithmetic facts about bucket boundaries.
// ---------------------------------------------------------------------------------------
proof fn lemma_exact_bounds(n: int, p: int, k: int)
    requires
        n >= 1,
        p >= 1,
        0 <= k < p,
    ensures
        0 <= (k * n) / p < n,
        (k * n) / p <= ((k + 1) * n) / p <= n,
        ((k + 1) * n) / p <= ((k + 2) * n) / p,
        (k + 1 == p) ==> ((k + 1) * n) / p == n,
{
    assert(0 <= k * n) by (nonlinear_arith)
        requires
            0 <= k,
            n >= 1,
    ;
    assert(k * n < p * n) by (nonlinear_arith)
        requires
            k < p,
            n >= 1,
    ;
    assert((k + 1) * n == k * n + n) by (nonlinear_arith);
    assert((k + 2) * n == (k + 1) * n + n) by (nonlinear_arith);
    assert((k + 1) * n <= p * n) by (nonlinear_arith)
        requires
            k + 1 <= p,
            n >= 1,
    ;
    vstd::arithmetic::div_mod::lemma_div_is_ordered(k * n, (k + 1) * n, p);
    vstd::arithmetic::div_mod::lemma_div_is_ordered((k + 1) * n, (k + 2) * n, p);
    vstd::arithmetic::div_mod::lemma_div_is_ordered((k + 1) * n, p * n, p);
    vstd::arithmetic::div_mod::lemma_div_by_multiple(n, p);
    assert((p * n) / p == n) by {
        vstd::arithmetic::mul::lemma_mul_is_commutative(p, n);
    }
    vstd::arithmetic::div_mod::lemma_div_pos_is_pos(k * n, p);
    vstd::arithmetic::div_mod::lemma_div_is_ordered(k * n, p * n - 1, p);
    assert((p * n - 1) / p < n) by {
        vstd::arithmetic::mul::lemma_mul_is_commutative(p, n);
        vstd::arithmetic::div_mod::lemma_div_by_multiple_is_strongly_ordered(p * n - 1, n * p, n, p);
        vstd::arithmetic::div_mod::lemma_div_by_multiple(n, p);
    }
}

} // verus!

verus! {

/// `a` is a prefix of `b`.
pub open spec fn is_prefix(a: Seq<i16>, b: Seq<i16>) -> bool {
    a.len() <= b.len() && forall|i: int| 0 <= i < a.len() ==> a[i] == b[i]
}

/// A layout in which frames and channels are well defined.
pub open spec fn layout_wf(l: PeakLayout) -> bool {
    &&& l.channels > 0
    &&& (l.out_channels == 1 || l.out_channels == l.channels)
    &&& l.scale >= 1
    &&& l.exact matches Some((n, p)) ==> n >= 0 && p >= 1
}

/// The exact-count plan has produced every point.
pub open spec fn at_limit(l: PeakLayout, count: int) -> bool {
    l.exact matches Some((_, p)) && count >= p
}

proof fn lemma_frame_sum_prefix(a: Seq<i16>, b: Seq<i16>, ch: int, f: int, upto: int)
    requires
        is_prefix(a, b),
        ch > 0,
        0 <= f,
        0 <= upto <= ch,
        (f + 1) * ch <= a.len(),
    ensures
        frame_sum(a, ch, f, upto) == frame_sum(b, ch, f, upto),
    decreases upto,
{
    if upto > 0 {
        lemma_frame_sum_prefix(a, b, ch, f, upto - 1);
        assert(f * ch + ch == (f + 1) * ch) by (nonlinear_arith);
        assert(0 <= f * ch) by (nonlinear_arith)
            requires
                0 <= f,
                ch > 0,
        ;
    }
}

proof fn lemma_frame_value_prefix(a: Seq<i16>, b: Seq<i16>, l: PeakLayout, f: int, c: int)
    requires
        is_prefix(a, b),
        layout_wf(l),
        0 <= f,
        0 <= c < l.out_channels,
        (f + 1) * l.channels <= a.len(),
    ensures
        frame_value(a, l, f, c) == frame_value(b, l, f, c),
{
    lemma_frame_sum_prefix(a, b, l.channels, f, l.channels);
    let ch = l.channels;
    assert(f * ch + ch == (f + 1) * ch) by (nonlinear_arith);
    assert(0 <= f * ch) by (nonlinear_arith)
        requires
            0 <= f,
            ch > 0,
    ;
}

proof fn lemma_range_prefix(a: Seq<i16>, b: Seq<i16>, l: PeakLayout, c: int, lo: int, hi: int)
    requires
        is_prefix(a, b),
        layout_wf(l),
        0 <= c < l.out_channels,
        0 <= lo,
        hi * l.channels <= a.len(),
    ensures
        range_min(a, l, c, lo, hi) == range_min(b, l, c, lo, hi),
        range_max(a, l, c, lo, hi) == range_max(b, l, c, lo, hi),
    decreases hi - lo,
{
    if hi > lo {
        let ch = l.channels;
        assert((hi - 1) * ch + ch == hi * ch) by (nonlinear_arith);
        assert((hi - 1) * ch <= hi * ch) by (nonlinear_arith)
            requires
                ch > 0,
        ;
        lemma_range_prefix(a, b, l, c, lo, hi - 1);
        lemma_frame_value_prefix(a, b, l, hi - 1, c);
    }
}

proof fn lemma_point_index(t: int, w: int, count: int)
    requires
        w > 0,
        0 <= t < count * w,
    ensures
        0 <= t / w < count,
        0 <= t % w < w,
{
    assert(count > 0) by (nonlinear_arith)
        requires
            w > 0,
            0 <= t < count * w,
    ;
    vstd::arithmetic::div_mod::lemma_div_pos_is_pos(t, w);
    vstd::arithmetic::mul::lemma_mul_is_commutative(count, w);
    vstd::arithmetic::div_mod::lemma_div_by_multiple_is_strongly_ordered(t, count * w, count, w);
    vstd::arithmetic::div_mod::lemma_div_by_multiple(count, w);
    vstd::arithmetic::div_mod::lemma_mod_bound(t, w);
}

proof fn lemma_expected_prefix(a: Seq<i16>, b: Seq<i16>, l: PeakLayout, n: int, n2: int, count: int)
    requires
        is_prefix(a, b),
        layout_wf(l),
        a.len() == n * l.channels,
        0 <= n <= n2,
        0 <= count,
        forall|k: int| 0 <= k < count ==> bucket_end(l, k) <= n,
        forall|k: int| 0 <= k < count ==> 0 <= bucket_start(l, k),
    ensures
        expected_samples(a, l, n, count) == expected_samples(b, l, n2, count),
{
    let w = 2 * l.out_channels;
    assert(0 <= count * w) by (nonlinear_arith)
        requires
            0 <= count,
            w > 0,
    ;
    assert forall|t: int| 0 <= t < count * w implies point_entry(a, l, n, t) == point_entry(
        b,
        l,
        n2,
        t,
    ) by {
        lemma_point_index(t, w, count);
        let k = t / w;
        let c = (t % w) / 2;
        let hi = bucket_end(l, k);
        assert(hi <= n);
        assert(hi * l.channels <= n * l.channels) by (nonlinear_arith)
            requires
                hi <= n,
                l.channels > 0,
        ;
        lemma_range_prefix(a, b, l, c, bucket_start(l, k), hi);
    }
    assert(expected_samples(a, l, n, count) =~= expected_samples(b, l, n2, count));
}

proof fn lemma_expected_push(
    a: Seq<i16>,
    l: PeakLayout,
    n: int,
    count: int,
    mins: Seq<i16>,
    maxs: Seq<i16>,
)
    requires
        layout_wf(l),
        0 <= count,
        mins.len() == l.out_channels,
        maxs.len() == l.out_channels,
        forall|c: int|
            0 <= c < l.out_channels ==> mins[c] as int == range_min(
                a,
                l,
                c,
                bucket_start(l, count),
                if bucket_end(l, count) < n {
                    bucket_end(l, count)
                } else {
                    n
                },
            ),
        forall|c: int|
            0 <= c < l.out_channels ==> maxs[c] as int == range_max(
                a,
                l,
                c,
                bucket_start(l, count),
                if bucket_end(l, count) < n {
                    bucket_end(l, count)
                } else {
                    n
                },
            ),
    ensures
        expected_samples(a, l, n, count + 1) == expected_samples(a, l, n, count) + interleave_extrema(
            mins,
            maxs,
        ),
{
    let w = 2 * l.out_channels;
    let lhs = expected_samples(a, l, n, count + 1);
    let rhs = expected_samples(a, l, n, count) + interleave_extrema(mins, maxs);
    assert((count + 1) * w == count * w + w) by (nonlinear_arith);
    assert(0 <= count * w) by (nonlinear_arith)
        requires
            0 <= count,
            w > 0,
    ;
    assert(lhs.len() == rhs.len());
    assert forall|t: int| 0 <= t < lhs.len() implies lhs[t] == rhs[t] by {
        if t >= count * w {
            let j = t - count * w;
            vstd::arithmetic::div_mod::lemma_fundamental_div_mod_converse(t, w, count, j);
            assert(interleave_extrema(mins, maxs)[j] == if j % 2 == 0 {
                mins[j / 2]
            } else {
                maxs[j / 2]
            });
        }
    }
    assert(lhs =~= rhs);
}

/// Sum of the first `j` samples of a frame.
pub open spec fn prefix_sum(s: Seq<i16>, j: int) -> int
    decreases j,
{
    if j <= 0 {
        0
    } else {
        prefix_sum(s, j - 1) + s[j - 1] as int
    }
}

proof fn lemma_frame_sum_of_last_frame(seen: Seq<i16>, frame: Seq<i16>, ch: int, n: int, j: int)
    requires
        ch > 0,
        frame.len() == ch,
        seen.len() == n * ch,
        0 <= j <= ch,
    ensures
        frame_sum(seen + frame, ch, n, j) == prefix_sum(frame, j),
    decreases j,
{
    if j > 0 {
        lemma_frame_sum_of_last_frame(seen, frame, ch, n, j - 1);
        assert((seen + frame)[n * ch + j - 1] == frame[j - 1]);
    }
}

proof fn lemma_prefix_sum_bounds(s: Seq<i16>, j: int)
    requires
        0 <= j <= s.len(),
    ensures
        -32768 * j <= prefix_sum(s, j) <= 32767 * j,
    decreases j,
{
    if j > 0 {
        lemma_prefix_sum_bounds(s, j - 1);
    }
}

} // verus!

verus! {

/// Aggregates interleaved frames into waveform points, retaining only the current
/// point's extrema and the completed points.
pub struct PeakAccumulator {
    waveform: Waveform,
    channels: usize,
    out_channels: usize,
    scale: usize,
    mins: Vec<i16>,
    maxs: Vec<i16>,
    frames_seen: usize,
    bucket_end: usize,
    pending: bool,
    exact: Option<(usize, u32)>,
    seen: Ghost<Seq<i16>>,
}

/// `a` capped at `usize::MAX`.
pub open spec fn cap_usize(a: int) -> int {
    if a < usize::MAX {
        a
    } else {
        usize::MAX as int
    }
}

/// Message of the error for frames beyond an exact plan.
pub open spec fn changed_message() -> Seq<char> {
    "Audio frame count changed between decoding passes"@
}

/// Message of the error for a frame count beyond what `usize` can track.
pub open spec fn too_large_message() -> Seq<char> {
    "Audio frame count is too large"@
}

/// What an accumulator has been fed: the samples and the number of frames.
pub struct FeedState {
    /// All samples fed, in order.
    pub input: Seq<i16>,
    /// Frames fed.
    pub frames: int,
}

/// What feeding `x` to an accumulator with `ch` channels, in state `s`, does when at
/// most `limit` frames can be fed in total: `Ok` with the new state, or `Err` with the
/// message and the state kept (a partial frame is refused whole; beyond the limit the
/// frames up to it are kept).
pub open spec fn push_result(ch: int, limit: int, limit_msg: Seq<char>, s: FeedState, x: Seq<i16>) -> Result<
    FeedState,
    (Seq<char>, FeedState),
> {
    if (x.len() as int) % ch != 0 {
        Err(("Incomplete interleaved audio frame"@, s))
    } else if s.frames + (x.len() as int) / ch <= limit {
        Ok(FeedState { input: s.input + x, frames: s.frames + (x.len() as int) / ch })
    } else {
        Err(
            (
                limit_msg,
                FeedState {
                    input: s.input + x.subrange(0, (limit - s.frames) * ch),
                    frames: limit,
                },
            ),
        )
    }
}

impl PeakAccumulator {
    /// The grouping of frames into points.
    pub closed spec fn layout(&self) -> PeakLayout {
        PeakLayout {
            channels: self.channels as int,
            out_channels: self.out_channels as int,
            scale: self.scale as int,
            exact: match self.exact {
                Some((n, p)) => Some((n as int, p as int)),
                None => None,
            },
        }
    }

    /// All samples pushed so far, in order.
    pub closed spec fn input(&self) -> Seq<i16> {
        self.seen@
    }

    /// Number of frames pushed so far.
    pub closed spec fn frames(&self) -> int {
        self.frames_seen as int
    }

    /// What has been fed so far.
    pub open spec fn feed_state(&self) -> FeedState {
        FeedState { input: self.input(), frames: self.frames() }
    }

    /// Sample rate and nominal scale of the waveform under construction.
    pub closed spec fn meta(&self) -> (u32, u32) {
        (self.waveform@.sample_rate, self.waveform@.samples_per_pixel)
    }

    /// Most frames that can be pushed in total before `push` fails.
    pub open spec fn frame_limit(&self) -> int {
        match self.layout().exact {
            Some((n, _)) => if n <= usize::MAX - 1 {
                n
            } else {
                usize::MAX - 1
            },
            None => usize::MAX - 1,
        }
    }

    /// Message of the error that `push` reports beyond `frame_limit`.
    pub open spec fn limit_message(&self) -> Seq<char> {
        match self.layout().exact {
            Some((n, _)) => if n <= usize::MAX - 1 {
                changed_message()
            } else {
                too_large_message()
            },
            None => too_large_message(),
        }
    }

    /// The state after the first `n` frames of `seen`.
    closed spec fn inv_at(&self, seen: Seq<i16>, n: int) -> bool {
        let l = self.layout();
        let count = view_len(self.waveform@);
        &&& layout_wf(l)
        &&& self.channels <= 65535
        &&& self.out_channels == self.waveform@.channels
        &&& self.scale == self.waveform@.samples_per_pixel
        &&& self.exact matches Some((nf, p)) ==> n <= nf
        &&& 0 <= n <= usize::MAX - 1
        &&& seen.len() == n * l.channels
        &&& self.mins@.len() == l.out_channels
        &&& self.maxs@.len() == l.out_channels
        &&& forall|k: int| 0 <= k < count ==> bucket_end(l, k) <= n
        &&& forall|k: int| 0 <= k <= count ==> 0 <= bucket_start(l, k)
        &&& !at_limit(l, count) ==> {
            &&& n < bucket_end(l, count)
            &&& bucket_start(l, count) <= n
            &&& self.bucket_end as int == cap_usize(bucket_end(l, count))
            &&& self.pending == (bucket_start(l, count) < n)
            &&& forall|c: int|
                0 <= c < l.out_channels ==> self.mins@[c] as int == range_min(
                    seen,
                    l,
                    c,
                    bucket_start(l, count),
                    n,
                )
            &&& forall|c: int|
                0 <= c < l.out_channels ==> self.maxs@[c] as int == range_max(
                    seen,
                    l,
                    c,
                    bucket_start(l, count),
                    n,
                )
        }
        &&& at_limit(l, count) ==> (l.exact matches Some((_, p)) && count == p) && !self.pending
        &&& self.waveform@.samples == expected_samples(seen, l, n, count)
        &&& self.waveform@.source_frames is None
    }

    /// The accumulator's invariant.
    pub closed spec fn wf(&self) -> bool {
        self.inv_at(self.seen@, self.frames_seen as int)
    }
}

} // verus!

verus! {

impl PeakAccumulator {
    /// Starts aggregating frames of `channels` channels at `sample_rate`. `frames` is the
    /// total frame count, which exact point counts and full-clip width fitting need.
    #[verifier::spinoff_prover]
    pub fn new(sample_rate: u32, channels: u16, frames: usize, options: &GenerateOptions) -> (r: Result<
        PeakAccumulator,
        Error,
    >)
        ensures
            channels == 0 ==> (r matches Err(Error::InvalidData { message }) && message@
                == "Invalid number of input channels"@),
            channels > 0 ==> match scale_resolution(options.scale, sample_rate, frames as u64) {
                Err(e) => r matches Err(err) && is_argument_error(err, e),
                Ok(scale) => r matches Ok(acc) && acc.wf() && acc.input() == Seq::<i16>::empty()
                    && acc.frames() == 0 && acc.layout() == layout_for(
                    *options,
                    channels as int,
                    frames as int,
                    scale as int,
                ) && acc.meta() == (sample_rate, scale),
            },
    {
        if channels == 0 {
            return Err(Error::invalid_data("Invalid number of input channels"));
        }
        let scale = options.scale.resolve(sample_rate, frames)?;
        let output_channels: u16 = if options.split_channels {
            channels
        } else {
            1
        };
        let waveform = match Waveform::new(sample_rate, scale, output_channels) {
            Ok(w) => w,
            Err(e) => return Err(e),
        };
        let exact: Option<(usize, u32)> = match options.scale {
            ScaleSpec::Points(points) => Some((frames, points)),
            _ => None,
        };
        let bucket_end: usize = match exact {
            Some((n, p)) => {
                let q = n / (p as usize);
                if q > 1 {
                    q
                } else {
                    1
                }
            },
            None => scale as usize,
        };
        let mut mins: Vec<i16> = Vec::new();
        let mut maxs: Vec<i16> = Vec::new();
        let mut c: u16 = 0;
        while c < output_channels
            invariant
                c <= output_channels,
                mins@.len() == c,
                maxs@.len() == c,
                forall|j: int| 0 <= j < c ==> mins@[j] == 32767,
                forall|j: int| 0 <= j < c ==> maxs@[j] == -32768,
            decreases output_channels - c,
        {
            mins.push(32767);
            maxs.push(-32768);
            c = c + 1;
        }
        let acc = PeakAccumulator {
            waveform,
            channels: channels as usize,
            out_channels: output_channels as usize,
            scale: scale as usize,
            mins,
            maxs,
            frames_seen: 0,
            bucket_end,
            pending: false,
            exact,
            seen: Ghost(Seq::empty()),
        };
        proof {
            let l = acc.layout();
            assert(view_len(acc.waveform@) == 0);
            assert(acc.waveform@.samples =~= expected_samples(Seq::empty(), l, 0, 0));
            if let Some((n, p)) = exact {
                if n >= 1 {
                    lemma_exact_bounds(n as int, p as int, 0);
                }
                assert(bucket_start(l, 0) == 0);
            }
            assert(acc.wf());
        }
        Ok(acc)
    }
}

} // verus!

verus! {

impl PeakAccumulator {
    /// The values that one frame contributes to each output channel.
    fn frame_values(&self, samples: &[i16], base: usize) -> (vals: Vec<i16>)
        requires
            self.wf(),
            base + self.channels <= samples@.len(),
        ensures
            vals@.len() == self.out_channels,
            forall|c: int|
                0 <= c < self.out_channels ==> vals@[c] as int == frame_value(
                    self.seen@ + samples@.subrange(base as int, base + self.channels),
                    self.layout(),
                    self.frames_seen as int,
                    c,
                ),
    {
        let ch = self.channels;
        let ghost frame = samples@.subrange(base as int, base + ch);
        let ghost next = self.seen@ + frame;
        let ghost l = self.layout();
        let ghost n = self.frames_seen as int;
        let mut vals: Vec<i16> = Vec::new();
        if self.out_channels == 1 {
            let mut sum: i64 = 0;
            let mut j: usize = 0;
            while j < ch
                invariant
                    j <= ch,
                    ch <= 65535,
                    base + ch <= samples.len(),
                    frame == samples@.subrange(base as int, base + ch),
                    sum == prefix_sum(frame, j as int),
                decreases ch - j,
            {
                proof {
                    lemma_prefix_sum_bounds(frame, j as int);
                    assert(-32768 * 65535 <= sum <= 32767 * 65535);
                    assert(frame[j as int] == samples@[base + j]);
                }
                sum = sum + samples[base + j] as i64;
                j = j + 1;
            }
            proof {
                lemma_prefix_sum_bounds(frame, ch as int);
                lemma_frame_sum_of_last_frame(self.seen@, frame, ch as int, n, ch as int);
            }
            let d = ch as i64;
            let mean: i64 = if sum >= 0 {
                sum / d
            } else {
                -((-sum) / d)
            };
            proof {
                assert(-32768 <= mean <= 32767) by (nonlinear_arith)
                    requires
                        d > 0,
                        -32768 * d <= sum <= 32767 * d,
                        sum >= 0 ==> mean == (sum as int) / (d as int),
                        sum < 0 ==> mean == -((-sum) / (d as int)),
                ;
            }
            vals.push(mean as i16);
        } else {
            let mut c: usize = 0;
            while c < ch
                invariant
                    c <= ch,
                    ch == self.channels,
                    self.out_channels == ch,
                    self.out_channels != 1,
                    base + ch <= samples.len(),
                    frame == samples@.subrange(base as int, base + ch),
                    next == self.seen@ + frame,
                    self.seen@.len() == n * (ch as int),
                    l == self.layout(),
                    n == self.frames_seen,
                    vals@.len() == c,
                    forall|k: int| 0 <= k < c ==> vals@[k] as int == frame_value(next, l, n, k),
                decreases ch - c,
            {
                vals.push(samples[base + c]);
                proof {
                    assert(next[n * (ch as int) + c] == frame[c as int]);
                }
                c = c + 1;
            }
        }
        vals
    }
}

} // verus!

verus! {

/// Sets every element of `v` to `value`.
fn fill_i16(v: &mut Vec<i16>, value: i16)
    ensures
        final(v)@.len() == old(v)@.len(),
        forall|i: int| 0 <= i < final(v)@.len() ==> final(v)@[i] == value,
{
    let mut i: usize = 0;
    while i < v.len()
        invariant
            i <= v@.len(),
            v@.len() == old(v)@.len(),
            forall|j: int| 0 <= j < i ==> v@[j] == value,
        decreases v@.len() - i,
    {
        v.set(i, value);
        i = i + 1;
    }
}

proof fn lemma_bucket_start_nonneg(l: PeakLayout, k: int)
    requires
        layout_wf(l),
        0 <= k,
    ensures
        0 <= bucket_start(l, k),
{
    match l.exact {
        Some((n, p)) => {
            assert(0 <= k * n) by (nonlinear_arith)
                requires
                    0 <= k,
                    0 <= n,
            ;
            vstd::arithmetic::div_mod::lemma_div_pos_is_pos(k * n, p);
        },
        None => {
            assert(0 <= k * l.scale) by (nonlinear_arith)
                requires
                    0 <= k,
                    1 <= l.scale,
            ;
        },
    }
}

/// Exact bucket boundaries: each bucket starts no later than the previous one ended,
/// and the last bucket ends at the end of the input.
proof fn lemma_exact_step(l: PeakLayout, k: int)
    requires
        layout_wf(l),
        l.exact matches Some((n, p)) && n >= 1 && 0 <= k < p,
    ensures
        bucket_start(l, k) + 1 <= bucket_end(l, k),
        bucket_start(l, k) <= bucket_start(l, k + 1) <= bucket_end(l, k),
        l.exact matches Some((n, p)) && bucket_end(l, k) <= n,
        l.exact matches Some((n, p)) && bucket_start(l, k) < n,
        l.exact matches Some((n, p)) && (k + 1 == p ==> bucket_end(l, k) == n),
        bucket_end(l, k) == if bucket_start(l, k + 1) > bucket_start(l, k) + 1 {
            bucket_start(l, k + 1)
        } else {
            bucket_start(l, k) + 1
        },
{
    if let Some((n, p)) = l.exact {
        lemma_exact_bounds(n, p, k);
    }
}

impl PeakAccumulator {
    /// The state while frame `n` of `next` is being placed into points.
    closed spec fn mid_at(&self, next: Seq<i16>, n: int) -> bool {
        let l = self.layout();
        let count = view_len(self.waveform@);
        &&& layout_wf(l)
        &&& self.channels <= 65535
        &&& self.out_channels == self.waveform@.channels
        &&& self.scale == self.waveform@.samples_per_pixel
        &&& self.exact matches Some((nf, p)) ==> n < nf
        &&& 0 <= n < usize::MAX - 1
        &&& next.len() == (n + 1) * l.channels
        &&& self.mins@.len() == l.out_channels
        &&& self.maxs@.len() == l.out_channels
        &&& forall|k: int| 0 <= k < count ==> bucket_end(l, k) <= n + 1
        &&& forall|k: int| 0 <= k <= count ==> 0 <= bucket_start(l, k)
        &&& !at_limit(l, count)
        &&& bucket_start(l, count) <= n < bucket_end(l, count)
        &&& self.bucket_end as int == cap_usize(bucket_end(l, count))
        &&& self.pending == (bucket_start(l, count) < n)
        &&& forall|c: int|
            0 <= c < l.out_channels ==> self.mins@[c] as int == range_min(
                next,
                l,
                c,
                bucket_start(l, count),
                n,
            )
        &&& forall|c: int|
            0 <= c < l.out_channels ==> self.maxs@[c] as int == range_max(
                next,
                l,
                c,
                bucket_start(l, count),
                n,
            )
        &&& self.waveform@.samples == expected_samples(next, l, n + 1, count)
        &&& self.waveform@.source_frames is None
    }

    /// Folds one frame's values into the current extrema.
    fn absorb(&mut self, vals: &Vec<i16>)
        requires
            old(self).mins@.len() == old(self).out_channels,
            old(self).maxs@.len() == old(self).out_channels,
            vals@.len() == old(self).out_channels,
        ensures
            final(self).mins@.len() == old(self).mins@.len(),
            final(self).maxs@.len() == old(self).maxs@.len(),
            forall|c: int|
                0 <= c < old(self).out_channels ==> final(self).mins@[c] == if vals@[c] < old(
                    self,
                ).mins@[c] {
                    vals@[c]
                } else {
                    old(self).mins@[c]
                },
            forall|c: int|
                0 <= c < old(self).out_channels ==> final(self).maxs@[c] == if vals@[c] > old(
                    self,
                ).maxs@[c] {
                    vals@[c]
                } else {
                    old(self).maxs@[c]
                },
            final(self).waveform == old(self).waveform,
            final(self).channels == old(self).channels,
            final(self).out_channels == old(self).out_channels,
            final(self).scale == old(self).scale,
            final(self).frames_seen == old(self).frames_seen,
            final(self).bucket_end == old(self).bucket_end,
            final(self).pending == old(self).pending,
            final(self).exact == old(self).exact,
            final(self).seen == old(self).seen,
    {
        let mut c: usize = 0;
        while c < self.out_channels
            invariant
                c <= self.out_channels,
                self.mins@.len() == old(self).mins@.len(),
                self.maxs@.len() == old(self).maxs@.len(),
                self.mins@.len() == self.out_channels,
                self.maxs@.len() == self.out_channels,
                vals@.len() == self.out_channels,
                forall|k: int|
                    0 <= k < c ==> self.mins@[k] == if vals@[k] < old(self).mins@[k] {
                        vals@[k]
                    } else {
                        old(self).mins@[k]
                    },
                forall|k: int|
                    0 <= k < c ==> self.maxs@[k] == if vals@[k] > old(self).maxs@[k] {
                        vals@[k]
                    } else {
                        old(self).maxs@[k]
                    },
                forall|k: int| c <= k < self.out_channels ==> self.mins@[k] == old(self).mins@[k],
                forall|k: int| c <= k < self.out_channels ==> self.maxs@[k] == old(self).maxs@[k],
                self.waveform == old(self).waveform,
                self.channels == old(self).channels,
                self.out_channels == old(self).out_channels,
                self.scale == old(self).scale,
                self.frames_seen == old(self).frames_seen,
                self.bucket_end == old(self).bucket_end,
                self.pending == old(self).pending,
                self.exact == old(self).exact,
                self.seen == old(self).seen,
            decreases self.out_channels - c,
        {
            let v = vals[c];
            if v < self.mins[c] {
                self.mins.set(c, v);
            }
            if v > self.maxs[c] {
                self.maxs.set(c, v);
            }
            c = c + 1;
        }
    }

    /// Appends the current extrema as a completed point and starts an empty one.
    fn flush(&mut self)
        requires
            old(self).mins@.len() == old(self).waveform@.channels,
            old(self).maxs@.len() == old(self).waveform@.channels,
        ensures
            final(self).waveform@ == (WaveformView {
                samples: old(self).waveform@.samples + interleave_extrema(
                    old(self).mins@,
                    old(self).maxs@,
                ),
                ..old(self).waveform@
            }),
            final(self).mins@.len() == old(self).mins@.len(),
            final(self).maxs@.len() == old(self).maxs@.len(),
            forall|c: int| 0 <= c < final(self).mins@.len() ==> final(self).mins@[c] == 32767,
            forall|c: int| 0 <= c < final(self).maxs@.len() ==> final(self).maxs@[c] == -32768,
            !final(self).pending,
            final(self).channels == old(self).channels,
            final(self).out_channels == old(self).out_channels,
            final(self).scale == old(self).scale,
            final(self).frames_seen == old(self).frames_seen,
            final(self).bucket_end == old(self).bucket_end,
            final(self).exact == old(self).exact,
            final(self).seen == old(self).seen,
    {
        self.waveform.push_extrema(&self.mins, &self.maxs);
        fill_i16(&mut self.mins, 32767);
        fill_i16(&mut self.maxs, -32768);
        self.pending = false;
    }
}

} // verus!

verus! {

impl PeakAccumulator {
    /// Places one frame, starting at `samples[base]`, into the points it belongs to.
    #[verifier::spinoff_prover]
    #[verifier::rlimit(40)]
    fn push_frame(&mut self, samples: &[i16], base: usize)
        requires
            old(self).wf(),
            base + old(self).channels <= samples@.len(),
            old(self).frames_seen < usize::MAX - 1,
            old(self).exact matches Some((nf, _)) ==> old(self).frames_seen < nf,
        ensures
            final(self).wf(),
            final(self).layout() == old(self).layout(),
            final(self).meta() == old(self).meta(),
            final(self).frames_seen == old(self).frames_seen + 1,
            final(self).seen@ == old(self).seen@ + samples@.subrange(
                base as int,
                base + old(self).channels,
            ),
    {
        let vals = self.frame_values(samples, base);
        let ghost l = self.layout();
        let ghost n = self.frames_seen as int;
        let ghost seen = self.seen@;
        let ghost next = seen + samples@.subrange(base as int, base + self.channels);
        let ghost meta = self.meta();
        proof {
            let count = view_len(self.waveform@);
            assert(is_prefix(seen, next));
            lemma_expected_prefix(seen, next, l, n, n + 1, count);
            assert((n + 1) * l.channels == n * l.channels + l.channels) by (nonlinear_arith);
            if at_limit(l, count) {
                if let Some((nf, p)) = l.exact {
                    lemma_exact_step(l, p - 1);
                    assert(bucket_end(l, p - 1) <= n);
                }
            }
            let lo = bucket_start(l, count);
            assert forall|c: int| 0 <= c < l.out_channels implies range_min(seen, l, c, lo, n)
                == range_min(next, l, c, lo, n) && range_max(seen, l, c, lo, n) == range_max(
                next,
                l,
                c,
                lo,
                n,
            ) by {
                lemma_range_prefix(seen, next, l, c, lo, n);
            }
            assert(self.mid_at(next, n));
        }
        loop
            invariant_except_break
                self.mid_at(next, n),
            invariant
                self.frames_seen == n,
                self.seen@ == seen,
                self.layout() == l,
                self.meta() == meta,
                vals@.len() == l.out_channels,
                forall|c: int|
                    0 <= c < l.out_channels ==> vals@[c] as int == frame_value(next, l, n, c),
            ensures
                self.inv_at(next, n + 1),
                self.frames_seen == n,
                self.seen@ == seen,
                self.layout() == l,
                self.meta() == meta,
            decreases (match self.exact {
                Some((_, p)) => p as int,
                None => 0,
            }) - view_len(self.waveform@),
        {
            let ghost count = view_len(self.waveform@);
            let ghost lo = bucket_start(l, count);
            self.absorb(&vals);
            proof {
                assert forall|c: int| 0 <= c < l.out_channels implies self.mins@[c] as int
                    == range_min(next, l, c, lo, n + 1) && self.maxs@[c] as int == range_max(
                    next,
                    l,
                    c,
                    lo,
                    n + 1,
                ) by {}
            }
            self.pending = true;
            if self.frames_seen + 1 < self.bucket_end {
                break ;
            }
            proof {
                assert(bucket_end(l, count) == n + 1);
                lemma_expected_push(next, l, n + 1, count, self.mins@, self.maxs@);
            }
            self.flush();
            proof {
                assert(view_len(self.waveform@) == count + 1) by {
                    let w = 2 * l.out_channels;
                    assert((count + 1) * w == count * w + w) by (nonlinear_arith);
                    vstd::arithmetic::div_mod::lemma_div_by_multiple(count + 1, w);
                }
                lemma_bucket_start_nonneg(l, count + 1);
            }
            match self.exact {
                Some((frames, points)) => {
                    let index = self.waveform.len();
                    if index == points as usize {
                        break ;
                    }
                    proof {
                        lemma_exact_step(l, count);
                        lemma_exact_step(l, count + 1);
                        assert((index as int + 1) * (frames as int) <= 0x1_0000_0000 * 0x1_0000_0000_0000_0000)
                            by (nonlinear_arith)
                            requires
                                index < 0x1_0000_0000,
                                frames < 0x1_0000_0000_0000_0000,
                        ;
                        assert((index as int) * (frames as int) <= (index as int + 1) * (frames as int))
                            by (nonlinear_arith)
                            requires
                                0 <= index,
                                0 <= frames,
                        ;
                    }
                    let start = ((index as u128 * frames as u128) / (points as u128)) as usize;
                    let e = (((index as u128 + 1) * frames as u128) / (points as u128)) as usize;
                    self.bucket_end = if e > start + 1 {
                        e
                    } else {
                        start + 1
                    };
                    if start == self.frames_seen {
                        continue ;
                    }
                    break ;
                },
                None => {
                    proof {
                        assert((count + 2) * l.scale == (count + 1) * l.scale + l.scale)
                            by (nonlinear_arith);
                    }
                    self.bucket_end = self.bucket_end.saturating_add(self.scale);
                    break ;
                },
            }
        }
        self.frames_seen = self.frames_seen + 1;
        self.seen = Ghost(next);
    }
}

} // verus!

verus! {

proof fn lemma_next_multiple(a: int, b: int, ch: int, i: int, m: int)
    requires
        ch > 0,
        a == i * ch,
        b == m * ch,
        0 <= a < b,
    ensures
        a + ch <= b,
        a + ch == (i + 1) * ch,
        i < m,
{
    assert(i < m) by (nonlinear_arith)
        requires
            ch > 0,
            i * ch < m * ch,
    ;
    assert((i + 1) * ch <= m * ch) by (nonlinear_arith)
        requires
            ch > 0,
            i + 1 <= m,
    ;
    assert((i + 1) * ch == i * ch + ch) by (nonlinear_arith);
}

impl PeakAccumulator {
    /// Feeds interleaved samples; their length must be a whole number of frames.
    ///
    /// At most `frame_limit()` frames can be fed in total: beyond it the frames up to the
    /// limit are kept and `push` fails with `limit_message()`.
    pub fn push(&mut self, samples: &[i16]) -> (r: Result<(), Error>)
        requires
            old(self).wf(),
        ensures
            final(self).wf(),
            final(self).layout() == old(self).layout(),
            final(self).meta() == old(self).meta(),
            final(self).frames() <= final(self).frame_limit(),
            (samples@.len() as int) % old(self).layout().channels != 0 ==> {
                &&& r matches Err(Error::InvalidData { message })
                &&& message@ == "Incomplete interleaved audio frame"@
                &&& final(self).input() == old(self).input()
                &&& final(self).frames() == old(self).frames()
            },
            (samples@.len() as int) % old(self).layout().channels == 0 && old(self).frames() + (samples@.len() as int)
                / old(self).layout().channels <= old(self).frame_limit() ==> {
                &&& r is Ok
                &&& final(self).input() == old(self).input() + samples@
                &&& final(self).frames() == old(self).frames() + (samples@.len() as int)
                    / old(self).layout().channels
            },
            (samples@.len() as int) % old(self).layout().channels == 0 && old(self).frames() + (samples@.len() as int)
                / old(self).layout().channels > old(self).frame_limit() ==> {
                &&& r matches Err(Error::InvalidData { message })
                &&& message@ == old(self).limit_message()
                &&& final(self).frames() == old(self).frame_limit()
                &&& final(self).input() == old(self).input() + samples@.subrange(
                    0,
                    (old(self).frame_limit() - old(self).frames()) * old(self).layout().channels,
                )
            },
            match push_result(
                old(self).layout().channels,
                old(self).frame_limit(),
                old(self).limit_message(),
                old(self).feed_state(),
                samples@,
            ) {
                Ok(n) => r is Ok && final(self).feed_state() == n,
                Err((m, n)) => r matches Err(Error::InvalidData { message }) && message@ == m
                    && final(self).feed_state() == n,
            },
    {
        let ch = self.channels;
        if samples.len() % ch != 0 {
            return Err(Error::invalid_data("Incomplete interleaved audio frame"));
        }
        let ghost start_seen = self.seen@;
        let ghost start_frames = self.frames_seen as int;
        let ghost l = self.layout();
        let ghost m: int = (samples@.len() as int) / (ch as int);
        proof {
            vstd::arithmetic::div_mod::lemma_fundamental_div_mod(samples@.len() as int, ch as int);
            assert(samples@.len() == m * ch);
        }
        let mut base: usize = 0;
        let ghost mut i: int = 0;
        while base < samples.len()
            invariant
                self.wf(),
                self.layout() == l,
                l == old(self).layout(),
                self.meta() == old(self).meta(),
                ch == self.channels,
                ch as int == l.channels,
                l.channels > 0,
                samples@.len() == m * ch,
                (samples@.len() as int) % l.channels == 0,
                m == (samples@.len() as int) / l.channels,
                0 <= i <= m,
                base as int == i * ch,
                base <= samples@.len(),
                self.frames_seen as int == start_frames + i,
                self.seen@ == start_seen + samples@.subrange(0, base as int),
                start_seen == old(self).input(),
                start_frames == old(self).frames(),
                start_frames + i <= self.frame_limit(),
            decreases samples@.len() - base,
        {
            proof {
                lemma_next_multiple(base as int, samples@.len() as int, ch as int, i, m);
            }
            let at_plan_end = match self.exact {
                Some((frames, _)) => self.frames_seen >= frames,
                None => false,
            };
            if at_plan_end {
                return Err(Error::invalid_data("Audio frame count changed between decoding passes"));
            }
            if self.frames_seen >= usize::MAX - 1 {
                return Err(Error::invalid_data("Audio frame count is too large"));
            }
            self.push_frame(samples, base);
            proof {
                assert(samples@.subrange(0, base as int) + samples@.subrange(base as int, base + ch)
                    =~= samples@.subrange(0, base + ch));
                assert(self.seen@ =~= start_seen + samples@.subrange(0, base + ch));
                i = i + 1;
            }
            base = base + ch;
        }
        proof {
            assert(i == m) by (nonlinear_arith)
                requires
                    i * ch == m * ch,
                    ch > 0,
            ;
            assert(samples@.subrange(0, samples@.len() as int) =~= samples@);
        }
        Ok(())
    }
}

} // verus!

verus! {

proof fn lemma_fixed_count(count: int, s: int, n: int)
    requires
        s >= 1,
        0 <= count,
        count * s <= n < (count + 1) * s,
    ensures
        count * s < n ==> (n + s - 1) / s == count + 1,
        count * s == n ==> (n + s - 1) / s == count,
{
    assert((count + 1) * s == count * s + s) by (nonlinear_arith);
    if count * s < n {
        vstd::arithmetic::div_mod::lemma_fundamental_div_mod_converse(
            n + s - 1,
            s,
            count + 1,
            n - count * s - 1,
        );
    } else {
        vstd::arithmetic::div_mod::lemma_fundamental_div_mod_converse(n + s - 1, s, count, s - 1);
    }
}

/// What completing an accumulator yields: the waveform, or the message of the error for
/// an exact point count that did not receive the frames it was planned for.
pub open spec fn finish_outcome(l: PeakLayout, meta: (u32, u32), input: Seq<i16>, frames: int) -> Result<
    WaveformView,
    Seq<char>,
> {
    let view = WaveformView {
        sample_rate: meta.0,
        samples_per_pixel: meta.1,
        channels: l.out_channels as u16,
        samples: generated_samples(input, l),
        source_frames: None,
    };
    match l.exact {
        Some((n, _)) => if frames != n {
            Err(changed_message())
        } else {
            Ok(WaveformView { source_frames: Some(n as u64), ..view })
        },
        None => Ok(view),
    }
}

impl PeakAccumulator {
    /// Completes the waveform: the last partial point of a fixed scale is kept, and an
    /// exact point count must have received exactly the frames it was planned for.
    #[verifier::spinoff_prover]
    pub fn finish(self) -> (r: Result<Waveform, Error>)
        requires
            self.wf(),
        ensures
            match finish_outcome(self.layout(), self.meta(), self.input(), self.frames()) {
                Ok(v) => r matches Ok(w) && w@ == v,
                Err(m) => r matches Err(Error::InvalidData { message }) && message@ == m,
            },
    {
        let mut acc = self;
        let ghost l = acc.layout();
        let ghost n = acc.frames_seen as int;
        let ghost seen = acc.seen@;
        let ghost count = view_len(acc.waveform@);
        proof {
            vstd::arithmetic::div_mod::lemma_div_by_multiple(n, l.channels);
            assert((seen.len() as int) / l.channels == n);
        }
        match acc.exact {
            Some((frames, _)) => {
                if acc.frames_seen != frames {
                    return Err(
                        Error::invalid_data("Audio frame count changed between decoding passes"),
                    );
                }
                proof {
                    if n == 0 {
                        if count > 0 {
                            lemma_bucket_start_nonneg(l, 0);
                            assert(bucket_end(l, 0) <= 0);
                        }
                    } else if !at_limit(l, count) {
                        lemma_exact_step(l, count);
                    }
                    assert(point_count(l, n) == count);
                }
                acc.waveform.set_source_frames(frames as u64);
                Ok(acc.waveform)
            },
            None => {
                proof {
                    lemma_fixed_count(count, l.scale, n);
                }
                if acc.pending {
                    proof {
                        lemma_expected_push(seen, l, n, count, acc.mins@, acc.maxs@);
                    }
                    acc.flush();
                }
                Ok(acc.waveform)
            },
        }
    }
}

} // verus!

verus! {

/// What generating a waveform from a PCM buffer yields: the waveform, or the argument
/// error (name and message) of an invalid scale.
pub open spec fn pcm_generation(pcm: PcmView, options: GenerateOptions) -> Result<
    WaveformView,
    (Seq<char>, Seq<char>),
> {
    let frames = (pcm.samples.len() as int) / (pcm.channels as int);
    match scale_resolution(options.scale, pcm.sample_rate, frames as u64) {
        Err(e) => Err(e),
        Ok(scale) => {
            let l = layout_for(options, pcm.channels as int, frames, scale as int);
            Ok(
                WaveformView {
                    sample_rate: pcm.sample_rate,
                    samples_per_pixel: scale,
                    channels: l.out_channels as u16,
                    samples: generated_samples(pcm.samples, l),
                    source_frames: if options.scale is Points {
                        Some(frames as u64)
                    } else {
                        None
                    },
                },
            )
        },
    }
}

/// Generates a waveform from in-memory PCM samples.
pub fn generate_waveform_from_pcm(pcm: &PcmAudio, options: &GenerateOptions) -> (r: Result<
    Waveform,
    Error,
>)
    requires
        pcm@.samples.len() <= isize::MAX,
    ensures
        match pcm_generation(pcm@, *options) {
            Ok(v) => r matches Ok(w) && w@ == v,
            Err(e) => r matches Err(err) && is_argument_error(err, e),
        },
{
    options.validate()?;
    let frames = pcm.frame_count();
    let mut peaks = PeakAccumulator::new(pcm.sample_rate(), pcm.channels(), frames, options)?;
    let samples = pcm.samples();
    proof {
        vstd::arithmetic::div_mod::lemma_div_by_multiple(frames as int, pcm@.channels as int);
        assert((samples@.len() as int) % (pcm@.channels as int) == 0) by {
            vstd::arithmetic::mul::lemma_mul_is_commutative(frames as int, pcm@.channels as int);
            vstd::arithmetic::div_mod::lemma_mod_multiples_basic(frames as int, pcm@.channels as int);
        }
    }
    match peaks.push(samples) {
        Ok(()) => {},
        Err(e) => return Err(e),
    }
    peaks.finish()
}

} // verus!

verus! {

proof fn lemma_frame_sum_bounds(input: Seq<i16>, ch: int, f: int, upto: int)
    requires
        0 <= upto,
    ensures
        -32768 * upto <= frame_sum(input, ch, f, upto) <= 32767 * upto,
    decreases upto,
{
    if upto > 0 {
        lemma_frame_sum_bounds(input, ch, f, upto - 1);
    }
}

proof fn lemma_frame_value_bounds(input: Seq<i16>, l: PeakLayout, f: int, c: int)
    requires
        layout_wf(l),
    ensures
        -32768 <= frame_value(input, l, f, c) <= 32767,
{
    if l.out_channels == 1 {
        let ch = l.channels;
        let s = frame_sum(input, ch, f, ch);
        lemma_frame_sum_bounds(input, ch, f, ch);
        let q = trunc_div(s, ch);
        assert(-32768 <= q <= 32767) by (nonlinear_arith)
            requires
                ch > 0,
                -32768 * ch <= s <= 32767 * ch,
                s >= 0 ==> q == s / ch,
                s < 0 ==> q == -((-s) / ch),
        ;
    }
}

proof fn lemma_range_bounds(input: Seq<i16>, l: PeakLayout, c: int, lo: int, hi: int)
    requires
        layout_wf(l),
        lo < hi,
    ensures
        -32768 <= range_min(input, l, c, lo, hi) <= range_max(input, l, c, lo, hi) <= 32767,
    decreases hi - lo,
{
    lemma_frame_value_bounds(input, l, hi - 1, c);
    if hi - 1 > lo {
        lemma_range_bounds(input, l, c, lo, hi - 1);
    } else {
        assert(range_min(input, l, c, lo, hi - 1) == 32767);
        assert(range_max(input, l, c, lo, hi - 1) == -32768);
    }
}

proof fn lemma_fixed_bucket_nonempty(k: int, s: int, n: int)
    requires
        s >= 1,
        0 <= k < (n + s - 1) / s,
    ensures
        k * s < n,
{
    assert(k + 1 <= (n + s - 1) / s);
    assert((k + 1) * s <= ((n + s - 1) / s) * s) by (nonlinear_arith)
        requires
            k + 1 <= (n + s - 1) / s,
            s >= 1,
    ;
    vstd::arithmetic::div_mod::lemma_fundamental_div_mod(n + s - 1, s);
    assert((k + 1) * s == k * s + s) by (nonlinear_arith);
}

/// Position facts for the minimum of point `k` in channel `c`.
proof fn lemma_point_position(out: int, k: int, c: int)
    requires
        out >= 1,
        0 <= k,
        0 <= c < out,
    ensures
        point_offset(out, k, c) / (2 * out) == k,
        point_offset(out, k, c) % (2 * out) == 2 * c,
        (point_offset(out, k, c) + 1) / (2 * out) == k,
        (point_offset(out, k, c) + 1) % (2 * out) == 2 * c + 1,
{
    let w = 2 * out;
    assert(point_offset(out, k, c) == k * w + 2 * c) by (nonlinear_arith)
        requires
            w == 2 * out,
    ;
    vstd::arithmetic::div_mod::lemma_fundamental_div_mod_converse(k * w + 2 * c, w, k, 2 * c);
    vstd::arithmetic::div_mod::lemma_fundamental_div_mod_converse(
        k * w + 2 * c + 1,
        w,
        k,
        2 * c + 1,
    );
}

/// Every generated point covers at least one frame, so its minimum is at most its
/// maximum, and both are sample values.
proof fn lemma_generated_points_ordered(input: Seq<i16>, l: PeakLayout, k: int, c: int)
    requires
        layout_wf(l),
        (input.len() as int) % l.channels == 0,
        l.exact matches Some((n, _)) ==> n == (input.len() as int) / l.channels,
        0 <= k < point_count(l, (input.len() as int) / l.channels),
        0 <= c < l.out_channels,
    ensures
        generated_samples(input, l).len() == point_count(l, (input.len() as int) / l.channels) * (2
            * l.out_channels),
        generated_samples(input, l)[point_offset(l.out_channels, k, c)]
            <= generated_samples(input, l)[point_offset(l.out_channels, k, c) + 1],
{
    let frames = (input.len() as int) / l.channels;
    let count = point_count(l, frames);
    let w = 2 * l.out_channels;
    let t = point_offset(l.out_channels, k, c);
    lemma_point_position(l.out_channels, k, c);
    lemma_bucket_start_nonneg(l, k);
    let lo = bucket_start(l, k);
    let hi = if bucket_end(l, k) < frames {
        bucket_end(l, k)
    } else {
        frames
    };
    match l.exact {
        Some((n, p)) => {
            lemma_exact_step(l, k);
        },
        None => {
            lemma_fixed_bucket_nonempty(k, l.scale, frames);
            assert((k + 1) * l.scale == k * l.scale + l.scale) by (nonlinear_arith);
        },
    }
    assert(lo < hi);
    lemma_range_bounds(input, l, c, lo, hi);
    assert(0 <= count * w) by (nonlinear_arith)
        requires
            0 <= k < count,
            w > 0,
    ;
    assert(t == k * w + 2 * c) by (nonlinear_arith)
        requires
            w == 2 * l.out_channels,
            t == 2 * (k * l.out_channels + c),
    ;
    assert(t + 1 < count * w) by (nonlinear_arith)
        requires
            t == k * w + 2 * c,
            0 <= k < count,
            0 <= c,
            2 * c + 1 < w,
    ;
}

/// With `ScaleSpec::Points(p)`, generation yields exactly `p` points per channel from
/// nonempty audio, and no points from empty audio.
pub proof fn points_scale_yields_requested_count(pcm: PcmView, options: GenerateOptions)
    requires
        pcm_view_wf(pcm),
        options.scale is Points,
        pcm_generation(pcm, options) is Ok,
    ensures
        pcm_generation(pcm, options) matches Ok(v) && view_len(v) == (if pcm.samples.len() == 0 {
            0
        } else {
            options.scale->Points_0 as int
        }) && v.channels == (if options.split_channels {
            pcm.channels
        } else {
            1
        }),
{
    let frames = (pcm.samples.len() as int) / (pcm.channels as int);
    let scale = scale_resolution(options.scale, pcm.sample_rate, frames as u64)->Ok_0;
    let l = layout_for(options, pcm.channels as int, frames, scale as int);
    let p = options.scale->Points_0 as int;
    let count = point_count(l, frames);
    let w = 2 * l.out_channels;
    vstd::arithmetic::div_mod::lemma_div_pos_is_pos(pcm.samples.len() as int, pcm.channels as int);
    if pcm.samples.len() > 0 {
        vstd::arithmetic::div_mod::lemma_fundamental_div_mod(
            pcm.samples.len() as int,
            pcm.channels as int,
        );
        assert(frames > 0) by (nonlinear_arith)
            requires
                pcm.samples.len() == (pcm.channels as int) * frames,
                pcm.samples.len() > 0,
                pcm.channels > 0,
        ;
    }
    assert(count * w >= 0) by (nonlinear_arith)
        requires
            count >= 0,
            w > 0,
    ;
    vstd::arithmetic::div_mod::lemma_div_by_multiple(count, w);
    vstd::arithmetic::mul::lemma_mul_is_commutative(count, w);
}

/// With a fixed scale, generation yields one point per started group of
/// `samples_per_pixel` frames.
pub proof fn fixed_scale_point_count(pcm: PcmView, options: GenerateOptions)
    requires
        pcm_view_wf(pcm),
        !(options.scale is Points),
        pcm_generation(pcm, options) is Ok,
    ensures
        pcm_generation(pcm, options) matches Ok(v) && view_len(v) == ((pcm.samples.len() as int) / (
        pcm.channels as int) + v.samples_per_pixel - 1) / (v.samples_per_pixel as int),
{
    let frames = (pcm.samples.len() as int) / (pcm.channels as int);
    let scale = scale_resolution(options.scale, pcm.sample_rate, frames as u64)->Ok_0;
    let l = layout_for(options, pcm.channels as int, frames, scale as int);
    let count = point_count(l, frames);
    let w = 2 * l.out_channels;
    vstd::arithmetic::div_mod::lemma_div_pos_is_pos(pcm.samples.len() as int, pcm.channels as int);
    vstd::arithmetic::div_mod::lemma_div_pos_is_pos(frames + scale - 1, scale as int);
    assert(count * w >= 0) by (nonlinear_arith)
        requires
            count >= 0,
            w > 0,
    ;
    vstd::arithmetic::div_mod::lemma_div_by_multiple(count, w);
    vstd::arithmetic::mul::lemma_mul_is_commutative(count, w);
}

/// In every generated waveform, each point's minimum is at most its maximum.
pub proof fn generated_minimum_never_exceeds_maximum(
    pcm: PcmView,
    options: GenerateOptions,
    k: int,
    c: int,
)
    requires
        pcm_view_wf(pcm),
        pcm_generation(pcm, options) matches Ok(v) && 0 <= k < view_len(v) && 0 <= c < v.channels,
    ensures
        pcm_generation(pcm, options) matches Ok(v) && v.samples[point_offset(
            v.channels as int,
            k,
            c,
        )] <= v.samples[point_offset(v.channels as int, k, c) + 1],
{
    let frames = (pcm.samples.len() as int) / (pcm.channels as int);
    let scale = scale_resolution(options.scale, pcm.sample_rate, frames as u64)->Ok_0;
    let l = layout_for(options, pcm.channels as int, frames, scale as int);
    let count = point_count(l, frames);
    let w = 2 * l.out_channels;
    let v = pcm_generation(pcm, options)->Ok_0;
    vstd::arithmetic::div_mod::lemma_div_pos_is_pos(pcm.samples.len() as int, pcm.channels as int);
    if let Some((n, p)) = l.exact {
        vstd::arithmetic::div_mod::lemma_div_pos_is_pos(frames + scale - 1, 1);
    } else {
        vstd::arithmetic::div_mod::lemma_div_pos_is_pos(frames + scale - 1, scale as int);
    }
    assert(count >= 0);
    assert(count * w >= 0) by (nonlinear_arith)
        requires
            count >= 0,
            w > 0,
    ;
    vstd::arithmetic::div_mod::lemma_div_by_multiple(count, w);
    vstd::arithmetic::mul::lemma_mul_is_commutative(count, w);
    assert(view_len(v) == count);
    assert(l.out_channels == v.channels);
    lemma_generated_points_ordered(pcm.samples, l, k, c);
}

} // verus!

verus! {

/// Completes streaming generation after the last decoding pass. `expected` holds what a
/// counting pass reported, when there was one; `peaks` is the accumulator that the
/// decoded blocks were fed to, if any block carried samples.
pub fn finish_stream_generation(
    expected: Option<DecodedInfo>,
    info: DecodedInfo,
    peaks: Option<PeakAccumulator>,
    options: &GenerateOptions,
) -> (r: Result<Waveform, Error>)
    requires
        peaks matches Some(acc) ==> acc.wf(),
    ensures
        expected matches Some(e) && e != info ==> (r matches Err(Error::InvalidData { message })
            && message@ == "Audio stream changed between decoding passes"@),
        !(expected matches Some(e) && e != info) ==> match peaks {
            Some(acc) => match finish_outcome(acc.layout(), acc.meta(), acc.input(), acc.frames()) {
                Ok(v) => r matches Ok(w) && w@ == v,
                Err(m) => r matches Err(Error::InvalidData { message }) && message@ == m,
            },
            None => if info.channels == 0 {
                r matches Err(Error::InvalidData { message }) && message@
                    == "Invalid number of input channels"@
            } else {
                match scale_resolution(options.scale, info.sample_rate, info.frames as u64) {
                    Err(e) => r matches Err(err) && is_argument_error(err, e),
                    Ok(scale) => match finish_outcome(
                        layout_for(*options, info.channels as int, info.frames as int, scale as int),
                        (info.sample_rate, scale),
                        Seq::empty(),
                        0,
                    ) {
                        Ok(v) => r matches Ok(w) && w@ == v,
                        Err(m) => r matches Err(Error::InvalidData { message }) && message@ == m,
                    },
                }
            },
        },
{
    if let Some(e) = expected {
        if !(e.sample_rate == info.sample_rate && e.channels == info.channels
            && e.channel_mask == info.channel_mask && e.frames == info.frames) {
            return Err(Error::invalid_data("Audio stream changed between decoding passes"));
        }
    }
    let acc = match peaks {
        Some(acc) => acc,
        None => PeakAccumulator::new(info.sample_rate, info.channels, info.frames, options)?,
    };
    acc.finish()
}

} // verus!

verus! {

/// The generated value at position `point_offset(out, i, c)` (the minimum) and the
/// next one (the maximum) are the extrema of `frame_value` over the point's clipped
/// frame range.
proof fn lemma_point_values(input: Seq<i16>, l: PeakLayout, i: int, c: int)
    requires
        layout_wf(l),
        (input.len() as int) % l.channels == 0,
        l.exact matches Some((n, _)) ==> n == (input.len() as int) / l.channels,
        0 <= i < point_count(l, (input.len() as int) / l.channels),
        0 <= c < l.out_channels,
    ensures
        ({
            let frames = (input.len() as int) / l.channels;
            let lo = bucket_start(l, i);
            let hi = if bucket_end(l, i) < frames {
                bucket_end(l, i)
            } else {
                frames
            };
            let t = point_offset(l.out_channels, i, c);
            &&& lo < hi
            &&& generated_samples(input, l)[t] as int == range_min(input, l, c, lo, hi)
            &&& generated_samples(input, l)[t + 1] as int == range_max(input, l, c, lo, hi)
        }),
{
    let frames = (input.len() as int) / l.channels;
    lemma_generated_points_ordered(input, l, i, c);
    lemma_point_position(l.out_channels, i, c);
    lemma_bucket_start_nonneg(l, i);
    match l.exact {
        Some((n, p)) => {
            lemma_exact_step(l, i);
        },
        None => {
            lemma_fixed_bucket_nonempty(i, l.scale, frames);
            assert((i + 1) * l.scale == i * l.scale + l.scale) by (nonlinear_arith);
        },
    }
    let lo = bucket_start(l, i);
    let hi = if bucket_end(l, i) < frames {
        bucket_end(l, i)
    } else {
        frames
    };
    lemma_range_bounds(input, l, c, lo, hi);
    let count = point_count(l, frames);
    let w = 2 * l.out_channels;
    let t = point_offset(l.out_channels, i, c);
    assert(t == i * w + 2 * c) by (nonlinear_arith)
        requires
            w == 2 * l.out_channels,
            t == 2 * (i * l.out_channels + c),
    ;
    assert(t + 1 < count * w) by (nonlinear_arith)
        requires
            t == i * w + 2 * c,
            0 <= i < count,
            0 <= c,
            2 * c + 1 < w,
    ;
    assert(0 <= t);
    assert(generated_samples(input, l)[t] == point_entry(input, l, frames, t) as i16);
    assert(generated_samples(input, l)[t + 1] == point_entry(input, l, frames, t + 1) as i16);
}

/// With `ScaleSpec::Points(p)` and `F > 0` frames, point `i` of channel `c` holds the
/// minimum and maximum of the channel's frame values (the frame mean rounded toward
/// zero when channels are mixed) over frames `s..e`, where `s = i * F / p` and
/// `e = max((i + 1) * F / p, s + 1)`.
pub proof fn exact_point_formula(pcm: PcmView, options: GenerateOptions, i: int, c: int)
    requires
        pcm_view_wf(pcm),
        options.scale is Points,
        pcm_generation(pcm, options) is Ok,
        pcm.samples.len() > 0,
        0 <= i < options.scale->Points_0,
        0 <= c < pcm_generation(pcm, options)->Ok_0.channels,
    ensures
        ({
            let f = (pcm.samples.len() as int) / (pcm.channels as int);
            let p = options.scale->Points_0 as int;
            let v = pcm_generation(pcm, options)->Ok_0;
            let scale = scale_resolution(options.scale, pcm.sample_rate, f as u64)->Ok_0;
            let l = layout_for(options, pcm.channels as int, f, scale as int);
            let s = (i * f) / p;
            let e = if ((i + 1) * f) / p > s + 1 {
                ((i + 1) * f) / p
            } else {
                s + 1
            };
            &&& v.source_frames == Some(f as u64)
            &&& view_len(v) == p
            &&& s < e <= f
            &&& v.samples[point_offset(v.channels as int, i, c)] as int == range_min(
                pcm.samples,
                l,
                c,
                s,
                e,
            )
            &&& v.samples[point_offset(v.channels as int, i, c) + 1] as int == range_max(
                pcm.samples,
                l,
                c,
                s,
                e,
            )
        }),
{
    let f = (pcm.samples.len() as int) / (pcm.channels as int);
    let scale = scale_resolution(options.scale, pcm.sample_rate, f as u64)->Ok_0;
    let l = layout_for(options, pcm.channels as int, f, scale as int);
    points_scale_yields_requested_count(pcm, options);
    vstd::arithmetic::div_mod::lemma_fundamental_div_mod(
        pcm.samples.len() as int,
        pcm.channels as int,
    );
    assert(f > 0) by (nonlinear_arith)
        requires
            pcm.samples.len() == (pcm.channels as int) * f,
            pcm.samples.len() > 0,
            pcm.channels > 0,
    ;
    lemma_point_values(pcm.samples, l, i, c);
    lemma_exact_step(l, i);
}

/// With a fixed scale of `spp` frames per point, point `i` of channel `c` holds the
/// minimum and maximum of the channel's frame values over frames
/// `i * spp .. min((i + 1) * spp, F)`.
pub proof fn fixed_point_formula(pcm: PcmView, options: GenerateOptions, i: int, c: int)
    requires
        pcm_view_wf(pcm),
        !(options.scale is Points),
        pcm_generation(pcm, options) matches Ok(v) && 0 <= i < view_len(v) && 0 <= c < v.channels,
    ensures
        ({
            let f = (pcm.samples.len() as int) / (pcm.channels as int);
            let v = pcm_generation(pcm, options)->Ok_0;
            let spp = v.samples_per_pixel as int;
            let scale = scale_resolution(options.scale, pcm.sample_rate, f as u64)->Ok_0;
            let l = layout_for(options, pcm.channels as int, f, scale as int);
            let s = i * spp;
            let e = if (i + 1) * spp < f {
                (i + 1) * spp
            } else {
                f
            };
            &&& v.source_frames is None
            &&& s < e
            &&& v.samples[point_offset(v.channels as int, i, c)] as int == range_min(
                pcm.samples,
                l,
                c,
                s,
                e,
            )
            &&& v.samples[point_offset(v.channels as int, i, c) + 1] as int == range_max(
                pcm.samples,
                l,
                c,
                s,
                e,
            )
        }),
{
    let f = (pcm.samples.len() as int) / (pcm.channels as int);
    let scale = scale_resolution(options.scale, pcm.sample_rate, f as u64)->Ok_0;
    let l = layout_for(options, pcm.channels as int, f, scale as int);
    fixed_scale_point_count(pcm, options);
    lemma_point_values(pcm.samples, l, i, c);
}

} // verus!

verus! {

/// Cutting the input at frame boundaries never matters: feeding `x` and then `y`
/// (stopping at the first failure) ends exactly as feeding `x + y` at once, with the same
/// success or failure, message, kept samples and frame count; so completing the
/// accumulator gives the same waveform.
pub proof fn push_split_invariance(
    ch: int,
    limit: int,
    limit_msg: Seq<char>,
    s: FeedState,
    x: Seq<i16>,
    y: Seq<i16>,
)
    requires
        ch > 0,
        0 <= s.frames <= limit,
        (x.len() as int) % ch == 0,
        (y.len() as int) % ch == 0,
    ensures
        push_result(ch, limit, limit_msg, s, x + y) == match push_result(ch, limit, limit_msg, s, x) {
            Ok(s1) => push_result(ch, limit, limit_msg, s1, y),
            Err(e) => Err(e),
        },
{
    let nx = (x.len() as int) / ch;
    let ny = (y.len() as int) / ch;
    vstd::arithmetic::div_mod::lemma_fundamental_div_mod(x.len() as int, ch);
    vstd::arithmetic::div_mod::lemma_fundamental_div_mod(y.len() as int, ch);
    assert(x.len() == nx * ch && y.len() == ny * ch) by (nonlinear_arith)
        requires
            x.len() == ch * nx + 0,
            y.len() == ch * ny + 0,
    ;
    let xy = x + y;
    assert(xy.len() == (nx + ny) * ch) by (nonlinear_arith)
        requires
            xy.len() == x.len() + y.len(),
            x.len() == nx * ch,
            y.len() == ny * ch,
    ;
    vstd::arithmetic::div_mod::lemma_fundamental_div_mod_converse(xy.len() as int, ch, nx + ny, 0);
    if s.frames + nx + ny <= limit {
        assert(s.input + xy =~= (s.input + x) + y);
    } else if s.frames + nx <= limit {
        let k = limit - s.frames;
        assert(k * ch == nx * ch + (k - nx) * ch) by (nonlinear_arith);
        assert(0 <= (k - nx) * ch <= ny * ch) by (nonlinear_arith)
            requires
                0 <= k - nx <= ny,
                ch > 0,
        ;
        assert(s.input + xy.subrange(0, k * ch) =~= (s.input + x) + y.subrange(0, (k - nx) * ch));
    } else {
        let k = limit - s.frames;
        assert(0 <= k * ch <= nx * ch) by (nonlinear_arith)
            requires
                0 <= k <= nx,
                ch > 0,
        ;
        assert(xy.subrange(0, k * ch) =~= x.subrange(0, k * ch));
    }
}

/// Concatenation of blocks.
pub open spec fn concat_blocks(blocks: Seq<Seq<i16>>) -> Seq<i16>
    decreases blocks.len(),
{
    if blocks.len() == 0 {
        Seq::empty()
    } else {
        concat_blocks(blocks.drop_last()) + blocks.last()
    }
}

/// Feeding blocks one after another, stopping at the first failure.
pub open spec fn push_blocks(ch: int, limit: int, limit_msg: Seq<char>, s: FeedState, blocks: Seq<Seq<i16>>) -> Result<
    FeedState,
    (Seq<char>, FeedState),
>
    decreases blocks.len(),
{
    if blocks.len() == 0 {
        Ok(s)
    } else {
        match push_blocks(ch, limit, limit_msg, s, blocks.drop_last()) {
            Ok(s1) => push_result(ch, limit, limit_msg, s1, blocks.last()),
            Err(e) => Err(e),
        }
    }
}

proof fn lemma_push_result_frames(ch: int, limit: int, limit_msg: Seq<char>, s: FeedState, x: Seq<i16>)
    requires
        ch > 0,
        0 <= s.frames <= limit,
        (x.len() as int) % ch == 0,
    ensures
        push_result(ch, limit, limit_msg, s, x) matches Ok(n) ==> 0 <= n.frames <= limit,
{
    vstd::arithmetic::div_mod::lemma_div_pos_is_pos(x.len() as int, ch);
}

/// Feeding whole-frame blocks one by one ends as feeding their concatenation at once.
pub proof fn push_blocks_matches_whole_push(
    ch: int,
    limit: int,
    limit_msg: Seq<char>,
    s: FeedState,
    blocks: Seq<Seq<i16>>,
)
    requires
        ch > 0,
        0 <= s.frames <= limit,
        forall|j: int| 0 <= j < blocks.len() ==> (#[trigger] blocks[j].len() as int) % ch == 0,
    ensures
        push_blocks(ch, limit, limit_msg, s, blocks) == push_result(
            ch,
            limit,
            limit_msg,
            s,
            concat_blocks(blocks),
        ),
        (concat_blocks(blocks).len() as int) % ch == 0,
    decreases blocks.len(),
{
    if blocks.len() == 0 {
        assert(s.input + Seq::<i16>::empty() =~= s.input);
        vstd::arithmetic::div_mod::lemma_small_mod(0, ch as nat);
    } else {
        let front = blocks.drop_last();
        assert forall|j: int| 0 <= j < front.len() implies (#[trigger] front[j].len() as int) % ch
            == 0 by {
            assert(front[j] == blocks[j]);
        }
        push_blocks_matches_whole_push(ch, limit, limit_msg, s, front);
        let a = concat_blocks(front);
        let b = blocks.last();
        assert(b == blocks[blocks.len() - 1]);
        push_split_invariance(ch, limit, limit_msg, s, a, b);
        lemma_push_result_frames(ch, limit, limit_msg, s, a);
        vstd::arithmetic::div_mod::lemma_mod_adds(a.len() as int, b.len() as int, ch);
    }
}

/// Streaming generation equals in-memory generation: feeding the samples of a PCM buffer
/// in any whole-frame blocks to an accumulator made for its rate, channels, frame count
/// and options succeeds, and completing it gives exactly the waveform that
/// `generate_waveform_from_pcm` gives. This holds for decoded and raw streams alike,
/// whichever blocks the decoder hands out, and whatever message the frame limit has.
pub proof fn streaming_generation_matches_pcm_generation(
    pcm: PcmView,
    options: GenerateOptions,
    blocks: Seq<Seq<i16>>,
    limit_msg: Seq<char>,
)
    requires
        pcm_view_wf(pcm),
        pcm.samples.len() <= isize::MAX,
        concat_blocks(blocks) == pcm.samples,
        forall|j: int|
            0 <= j < blocks.len() ==> (#[trigger] blocks[j].len() as int) % (pcm.channels as int)
                == 0,
        pcm_generation(pcm, options) is Ok,
    ensures
        ({
            let ch = pcm.channels as int;
            let f = (pcm.samples.len() as int) / ch;
            let scale = scale_resolution(options.scale, pcm.sample_rate, f as u64)->Ok_0;
            let l = layout_for(options, ch, f, scale as int);
            let limit = match l.exact {
                Some((n, _)) => if n <= usize::MAX - 1 {
                    n
                } else {
                    usize::MAX - 1
                },
                None => usize::MAX - 1,
            };
            &&& push_blocks(
                ch,
                limit,
                limit_msg,
                FeedState { input: Seq::empty(), frames: 0 },
                blocks,
            ) == Ok::<FeedState, (Seq<char>, FeedState)>(
                FeedState { input: pcm.samples, frames: f },
            )
            &&& match finish_outcome(l, (pcm.sample_rate, scale), pcm.samples, f) {
                Ok(w) => pcm_generation(pcm, options) == Ok::<
                    WaveformView,
                    (Seq<char>, Seq<char>),
                >(w),
                Err(_) => false,
            }
        }),
{
    let ch = pcm.channels as int;
    let f = (pcm.samples.len() as int) / ch;
    let scale = scale_resolution(options.scale, pcm.sample_rate, f as u64)->Ok_0;
    let l = layout_for(options, ch, f, scale as int);
    let limit = match l.exact {
        Some((n, _)) => if n <= usize::MAX - 1 {
            n
        } else {
            usize::MAX - 1
        },
        None => usize::MAX - 1,
    };
    let s0 = FeedState { input: Seq::empty(), frames: 0 };
    vstd::arithmetic::div_mod::lemma_div_pos_is_pos(pcm.samples.len() as int, ch);
    vstd::arithmetic::div_mod::lemma_div_is_ordered_by_denominator(pcm.samples.len() as int, 1, ch);
    assert(f <= limit);
    push_blocks_matches_whole_push(ch, limit, limit_msg, s0, blocks);
    assert(Seq::<i16>::empty() + pcm.samples =~= pcm.samples);
}

} // verus!

verus! {

/// The minimum and maximum of a point are extremes of its frames' values: no frame in
/// `lo..hi` lies outside them, and some frame attains each of them.
pub proof fn point_extremes_are_attained(input: Seq<i16>, l: PeakLayout, c: int, lo: int, hi: int)
    requires
        layout_wf(l),
        lo < hi,
    ensures
        forall|j: int|
            lo <= j < hi ==> range_min(input, l, c, lo, hi) <= #[trigger] frame_value(input, l, j, c)
                <= range_max(input, l, c, lo, hi),
        exists|j: int| lo <= j < hi && range_min(input, l, c, lo, hi) == #[trigger] frame_value(input, l, j, c),
        exists|j: int| lo <= j < hi && range_max(input, l, c, lo, hi) == #[trigger] frame_value(input, l, j, c),
    decreases hi - lo,
{
    let v = frame_value(input, l, hi - 1, c);
    if hi - 1 > lo {
        point_extremes_are_attained(input, l, c, lo, hi - 1);
        let wmin = choose|j: int| lo <= j < hi - 1 && range_min(input, l, c, lo, hi - 1) == #[trigger] frame_value(input, l, j, c);
        let wmax = choose|j: int| lo <= j < hi - 1 && range_max(input, l, c, lo, hi - 1) == #[trigger] frame_value(input, l, j, c);
        if v < range_min(input, l, c, lo, hi - 1) {
            assert(range_min(input, l, c, lo, hi) == frame_value(input, l, hi - 1, c));
        } else {
            assert(range_min(input, l, c, lo, hi) == frame_value(input, l, wmin, c));
        }
        if v > range_max(input, l, c, lo, hi - 1) {
            assert(range_max(input, l, c, lo, hi) == frame_value(input, l, hi - 1, c));
        } else {
            assert(range_max(input, l, c, lo, hi) == frame_value(input, l, wmax, c));
        }
    } else {
        assert(frame_value(input, l, hi - 1, c) >= -32768 && frame_value(input, l, hi - 1, c) <= 32767) by {
            lemma_frame_value_bounds(input, l, hi - 1, c);
        }
        assert(range_min(input, l, c, lo, lo) == 32767);
        assert(range_max(input, l, c, lo, lo) == -32768);
        assert(range_min(input, l, c, lo, hi) == frame_value(input, l, lo, c));
        assert(range_max(input, l, c, lo, hi) == frame_value(input, l, lo, c));
    }
}

} // verus!

verus! {

/// What a frame contributes to a point: with channels kept apart, channel `c`'s own
/// sample; with channels mixed, the sum of the frame's samples divided by the channel
/// count and rounded toward zero (a mono frame gives its sample, a stereo frame the
/// truncated mean of its two samples).
pub proof fn frame_values(input: Seq<i16>, l: PeakLayout, f: int, c: int)
    requires
        layout_wf(l),
    ensures
        l.out_channels != 1 ==> frame_value(input, l, f, c) == input[f * l.channels + c],
        l.out_channels == 1 && l.channels == 1 ==> frame_value(input, l, f, c) == input[f],
        l.out_channels == 1 && l.channels == 2 ==> ({
            let s = input[2 * f] + input[2 * f + 1];
            let v = frame_value(input, l, f, c);
            &&& s >= 0 ==> 2 * v <= s < 2 * v + 2
            &&& s < 0 ==> 2 * v - 2 < s <= 2 * v
        }),
        l.out_channels == 1 ==> ({
            let s = frame_sum(input, l.channels, f, l.channels);
            let v = frame_value(input, l, f, c);
            &&& s >= 0 ==> v * l.channels <= s < (v + 1) * l.channels
            &&& s < 0 ==> (v - 1) * l.channels < s <= v * l.channels
        }),
        forall|k: int|
            0 <= k < l.channels ==> #[trigger] frame_sum(input, l.channels, f, k + 1) == frame_sum(
                input,
                l.channels,
                f,
                k,
            ) + input[f * l.channels + k],
        frame_sum(input, l.channels, f, 0) == 0,
{
    if l.out_channels == 1 {
        let ch = l.channels;
        let s = frame_sum(input, ch, f, ch);
        if s >= 0 {
            vstd::arithmetic::div_mod::lemma_fundamental_div_mod(s, ch);
            let q = s / ch;
            assert(q * ch <= s < (q + 1) * ch) by (nonlinear_arith)
                requires
                    s == ch * q + s % ch,
                    0 <= s % ch < ch,
            ;
        } else {
            vstd::arithmetic::div_mod::lemma_fundamental_div_mod(-s, ch);
            let q = (-s) / ch;
            assert(q * ch <= -s < (q + 1) * ch) by (nonlinear_arith)
                requires
                    -s == ch * q + (-s) % ch,
                    0 <= (-s) % ch < ch,
            ;
            assert((-q - 1) * ch < s <= -q * ch) by (nonlinear_arith)
                requires
                    q * ch <= -s < (q + 1) * ch,
            ;
        }
        if ch == 1 {
            assert(frame_sum(input, 1, f, 0) == 0);
            assert(f * 1 == f);
        }
        if ch == 2 {
            assert(frame_sum(input, 2, f, 0) == 0);
            assert(frame_sum(input, 2, f, 1) == input[f * 2]);
            assert(f * 2 == 2 * f);
        }
    }
}

} // verus!
