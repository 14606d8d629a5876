//! The decisions of a container decoding pass: which decoded frames count, when the
//! stream is inconsistent, and what the pass reports; plus the byte-level checks that
//! run before a WAV demuxer or an ALAC decoder is created.
use vstd::prelude::*;

use crate::error::Error;
use crate::pcm::{count_ones, mask_fits_channels, popcount};
use crate::raw::{le32, le32_at};

verus! {

/// Stream properties and frame count reported by a decoding pass.
#[derive(Clone, Copy, Debug, PartialEq, Eq)]
pub struct DecodedInfo {
    /// Sample rate in Hz.
    pub sample_rate: u32,
    /// Channel count.
    pub channels: u16,
    /// Speaker mask in WAV bit order, when the stream reports one.
    pub channel_mask: Option<u32>,
    /// Decoded frames, after the encoder delay is skipped.
    pub frames: usize,
}

/// Bookkeeping of one decoding pass over the packets of a track.
#[derive(Clone, Copy, Debug, PartialEq, Eq)]
pub struct DecodeTracker {
    /// Sample rate: from the codec parameters, then from each decoded block.
    pub sample_rate: Option<u32>,
    /// Channel count: from the codec parameters, then from each decoded block.
    pub channels: Option<u16>,
    /// Speaker mask: from the codec parameters, then from each decoded block.
    pub channel_mask: Option<u32>,
    /// Encoder delay frames still to be skipped.
    pub delay_remaining: usize,
    /// Whether a block with frames has been decoded.
    pub saw_frames: bool,
    /// Frames counted so far.
    pub frames: usize,
}

/// The error a decoded block is rejected with, if any.
pub open spec fn block_error(t: DecodeTracker, rate: u32, channels: u16, mask: u32, block_frames: usize) -> Option<Seq<char>> {
    let skip = if t.delay_remaining < block_frames {
        t.delay_remaining
    } else {
        block_frames
    };
    if rate == 0 || channels == 0 {
        Some("Invalid decoded audio sample rate or channel count"@)
    } else if t.saw_frames && (t.sample_rate != Some(rate) || t.channel_mask != Some(mask)) {
        Some("Audio stream changes sample rate or channel layout"@)
    } else if t.frames + (block_frames - skip) > usize::MAX {
        Some("Audio frame count is too large"@)
    } else {
        None
    }
}

/// Leading frames of a block that fall within the remaining encoder delay.
pub open spec fn delay_skip(t: DecodeTracker, block_frames: usize) -> int {
    if t.delay_remaining < block_frames {
        t.delay_remaining as int
    } else {
        block_frames as int
    }
}

/// The state after an accepted block.
pub open spec fn after_block(t: DecodeTracker, rate: u32, channels: u16, mask: u32, block_frames: usize) -> DecodeTracker {
    let skip = delay_skip(t, block_frames);
    DecodeTracker {
        sample_rate: Some(rate),
        channels: Some(channels),
        channel_mask: Some(mask),
        delay_remaining: (t.delay_remaining - skip) as usize,
        saw_frames: t.saw_frames || block_frames > 0,
        frames: (t.frames + (block_frames - skip)) as usize,
    }
}

impl DecodeTracker {
    /// Starts a pass from the track's codec parameters.
    pub fn new(
        sample_rate: Option<u32>,
        channels: Option<u16>,
        channel_mask: Option<u32>,
        delay: Option<u32>,
    ) -> (t: DecodeTracker)
        ensures
            t == (DecodeTracker {
                sample_rate,
                channels,
                channel_mask,
                delay_remaining: match delay {
                    Some(d) => d as usize,
                    None => 0,
                },
                saw_frames: false,
                frames: 0,
            }),
    {
        let delay_remaining: usize = match delay {
            Some(d) => d as usize,
            None => 0,
        };
        DecodeTracker {
            sample_rate,
            channels,
            channel_mask,
            delay_remaining,
            saw_frames: false,
            frames: 0,
        }
    }

    /// Accounts for one decoded block of `block_frames` frames and returns how many of
    /// its leading frames belong to the encoder delay and are skipped.
    pub fn on_block(&mut self, rate: u32, channels: u16, mask: u32, block_frames: usize) -> (r:
        Result<usize, Error>)
        ensures
            match block_error(*old(self), rate, channels, mask, block_frames) {
                Some(msg) => r matches Err(Error::InvalidData { message }) && message@ == msg,
                None => r == Ok::<usize, Error>(delay_skip(*old(self), block_frames) as usize)
                    && *final(self) == after_block(*old(self), rate, channels, mask, block_frames),
            },
    {
        if rate == 0 || channels == 0 {
            return Err(Error::invalid_data("Invalid decoded audio sample rate or channel count"));
        }
        let same_rate = match self.sample_rate {
            Some(r) => r == rate,
            None => false,
        };
        let same_mask = match self.channel_mask {
            Some(m) => m == mask,
            None => false,
        };
        if self.saw_frames && !(same_rate && same_mask) {
            return Err(Error::invalid_data("Audio stream changes sample rate or channel layout"));
        }
        let skip = if self.delay_remaining < block_frames {
            self.delay_remaining
        } else {
            block_frames
        };
        let frames = match self.frames.checked_add(block_frames - skip) {
            Some(f) => f,
            None => return Err(Error::invalid_data("Audio frame count is too large")),
        };
        self.sample_rate = Some(rate);
        self.channels = Some(channels);
        self.channel_mask = Some(mask);
        self.saw_frames = self.saw_frames || block_frames > 0;
        self.delay_remaining = self.delay_remaining - skip;
        self.frames = frames;
        Ok(skip)
    }

    /// Reports the stream properties once the packets are exhausted.
    pub fn finish(&self) -> (r: Result<DecodedInfo, Error>)
        ensures
            match (self.sample_rate, self.channels) {
                (None, _) => r matches Err(Error::MissingMetadata { name }) && name@
                    == "sample_rate"@,
                (Some(_), None) => r matches Err(Error::MissingMetadata { name }) && name@
                    == "channels"@,
                (Some(rate), Some(ch)) => if rate == 0 || ch == 0 {
                    r matches Err(Error::InvalidData { message }) && message@
                        == "Invalid decoded audio sample rate or channel count"@
                } else {
                    r == Ok::<DecodedInfo, Error>(
                        DecodedInfo {
                            sample_rate: rate,
                            channels: ch,
                            channel_mask: self.channel_mask,
                            frames: self.frames,
                        },
                    )
                },
            },
    {
        let rate = match self.sample_rate {
            Some(r) => r,
            None => return Err(Error::MissingMetadata { name: String::from_str("sample_rate") }),
        };
        let ch = match self.channels {
            Some(c) => c,
            None => return Err(Error::MissingMetadata { name: String::from_str("channels") }),
        };
        if rate == 0 || ch == 0 {
            return Err(Error::invalid_data("Invalid decoded audio sample rate or channel count"));
        }
        Ok(
            DecodedInfo {
                sample_rate: rate,
                channels: ch,
                channel_mask: self.channel_mask,
                frames: self.frames,
            },
        )
    }
}

/// Every decoded frame of an accepted block is either counted or skipped as encoder
/// delay, and frames are counted only once the delay is used up.
pub proof fn decoded_frames_are_counted_or_skipped(
    t: DecodeTracker,
    rate: u32,
    channels: u16,
    mask: u32,
    block_frames: usize,
)
    requires
        block_error(t, rate, channels, mask, block_frames) is None,
    ensures
        ({
            let n = after_block(t, rate, channels, mask, block_frames);
            &&& (n.frames - t.frames) + (t.delay_remaining - n.delay_remaining) == block_frames
            &&& n.frames > t.frames ==> n.delay_remaining == 0
            &&& n.delay_remaining <= t.delay_remaining
        }),
{
}

/// What a pass over decoded blocks, each given as (sample rate, channels, speaker mask,
/// frames), leaves behind: the tracker after the last block, or the first rejection.
pub open spec fn track_blocks(t: DecodeTracker, blocks: Seq<(u32, u16, u32, usize)>) -> Result<
    DecodeTracker,
    Seq<char>,
>
    decreases blocks.len(),
{
    if blocks.len() == 0 {
        Ok(t)
    } else {
        match track_blocks(t, blocks.drop_last()) {
            Err(e) => Err(e),
            Ok(s) => {
                let b = blocks.last();
                match block_error(s, b.0, b.1, b.2, b.3) {
                    Some(e) => Err(e),
                    None => Ok(after_block(s, b.0, b.1, b.2, b.3)),
                }
            },
        }
    }
}

/// A pass that also hands out samples: the outcome, and the interleaved samples handed
/// out, block `j` contributing `samples[j]` without the frames skipped as encoder delay.
pub open spec fn visit_blocks(
    t: DecodeTracker,
    blocks: Seq<(u32, u16, u32, usize)>,
    samples: Seq<Seq<i16>>,
) -> (Result<DecodeTracker, Seq<char>>, Seq<i16>)
    decreases blocks.len(),
{
    if blocks.len() == 0 {
        (Ok(t), Seq::empty())
    } else {
        let (prev, seen) = visit_blocks(t, blocks.drop_last(), samples.drop_last());
        match prev {
            Err(e) => (Err(e), seen),
            Ok(s) => {
                let b = blocks.last();
                match block_error(s, b.0, b.1, b.2, b.3) {
                    Some(e) => (Err(e), seen),
                    None => (
                        Ok(after_block(s, b.0, b.1, b.2, b.3)),
                        seen + samples.last().skip(delay_skip(s, b.3) * b.1),
                    ),
                }
            },
        }
    }
}

/// Total frames of the blocks.
pub open spec fn total_frames(blocks: Seq<(u32, u16, u32, usize)>) -> int
    decreases blocks.len(),
{
    if blocks.len() == 0 {
        0
    } else {
        total_frames(blocks.drop_last()) + blocks.last().3
    }
}

proof fn lemma_total_frames_nonneg(blocks: Seq<(u32, u16, u32, usize)>)
    ensures
        total_frames(blocks) >= 0,
    decreases blocks.len(),
{
    if blocks.len() > 0 {
        lemma_total_frames_nonneg(blocks.drop_last());
    }
}

/// Concatenation of the blocks' interleaved samples.
pub open spec fn concat_samples(samples: Seq<Seq<i16>>) -> Seq<i16>
    decreases samples.len(),
{
    if samples.len() == 0 {
        Seq::empty()
    } else {
        concat_samples(samples.drop_last()) + samples.last()
    }
}

/// Whether block `j` holds `samples[j]`: its frames times its channels, interleaved.
pub open spec fn blocks_hold(blocks: Seq<(u32, u16, u32, usize)>, samples: Seq<Seq<i16>>) -> bool {
    &&& samples.len() == blocks.len()
    &&& forall|j: int|
        0 <= j < blocks.len() ==> (#[trigger] samples[j]).len() == blocks[j].3 * blocks[j].1
}

/// The interleaved samples of a decoded block that a visiting pass hands out: those
/// after the `skip` frames of encoder delay, or nothing when none are left.
pub fn visible_samples(interleaved: &[i16], skip: usize, channels: u16) -> (r: Option<&[i16]>)
    requires
        skip * channels <= interleaved@.len(),
    ensures
        match r {
            Some(s) => s@ == interleaved@.skip(skip * channels) && s@.len() > 0,
            None => skip * channels == interleaved@.len(),
        },
{
    let c = channels as usize;
    let n = interleaved.len();
    assert(skip * c <= usize::MAX) by (nonlinear_arith)
        requires
            skip * c <= n,
            n <= usize::MAX,
    ;
    let start = skip * c;
    if start == n {
        None
    } else {
        Some(vstd::slice::slice_subrange(interleaved, start, n))
    }
}

/// Handing out samples never changes what a pass decides: over the same blocks the
/// visiting pass accepts or rejects exactly as the counting pass, with the same outcome.
pub proof fn visiting_keeps_the_counting_outcome(
    t: DecodeTracker,
    blocks: Seq<(u32, u16, u32, usize)>,
    samples: Seq<Seq<i16>>,
)
    ensures
        visit_blocks(t, blocks, samples).0 == track_blocks(t, blocks),
    decreases blocks.len(),
{
    if blocks.len() > 0 {
        visiting_keeps_the_counting_outcome(t, blocks.drop_last(), samples.drop_last());
    }
}

/// A counting pass and a pass that visits samples agree: from a fresh tracker, over
/// blocks whose channel count is the number of speakers in their mask (as a decoder
/// reports them), both reach the same outcome, and the visiting pass hands out exactly
/// the counted frames' samples, counted frames times the channel count reported.
pub proof fn counting_and_visiting_agree(
    t: DecodeTracker,
    blocks: Seq<(u32, u16, u32, usize)>,
    samples: Seq<Seq<i16>>,
)
    requires
        !t.saw_frames,
        blocks_hold(blocks, samples),
        forall|j: int| 0 <= j < blocks.len() ==> (#[trigger] blocks[j]).1 == popcount(blocks[j].2),
    ensures
        visit_blocks(t, blocks, samples).0 == track_blocks(t, blocks),
        track_blocks(t, blocks) matches Ok(s) ==> s.channels matches Some(c) ==> visit_blocks(
            t,
            blocks,
            samples,
        ).1.len() == (s.frames - t.frames) * c,
{
    visiting_keeps_the_counting_outcome(t, blocks, samples);
    lemma_visited_len(t, blocks, samples);
    if let Ok(s) = track_blocks(t, blocks) {
        if let Some(c) = s.channels {
            if !s.saw_frames {
                assert((s.frames - t.frames) * c == 0);
            }
        }
    }
}

proof fn lemma_visited_len(
    t: DecodeTracker,
    blocks: Seq<(u32, u16, u32, usize)>,
    samples: Seq<Seq<i16>>,
)
    requires
        !t.saw_frames,
        blocks_hold(blocks, samples),
        forall|j: int| 0 <= j < blocks.len() ==> (#[trigger] blocks[j]).1 == popcount(blocks[j].2),
    ensures
        track_blocks(t, blocks) matches Ok(p) ==> {
            let seen = visit_blocks(t, blocks, samples).1;
            &&& !p.saw_frames ==> p.frames == t.frames && seen.len() == 0
            &&& p.saw_frames ==> (p.channels matches Some(c) && p.channel_mask matches Some(m)
                && c == popcount(m) && seen.len() == (p.frames - t.frames) * c)
        },
    decreases blocks.len(),
{
    if blocks.len() > 0 {
        let front = blocks.drop_last();
        let fs = samples.drop_last();
        assert forall|j: int| 0 <= j < front.len() implies (#[trigger] fs[j]).len() == front[j].3
            * front[j].1 by {
            assert(fs[j] == samples[j]);
            assert(front[j] == blocks[j]);
        }
        assert forall|j: int| 0 <= j < front.len() implies (#[trigger] front[j]).1 == popcount(
            front[j].2,
        ) by {
            assert(front[j] == blocks[j]);
        }
        lemma_visited_len(t, front, fs);
        visiting_keeps_the_counting_outcome(t, front, fs);
        let b = blocks.last();
        let last = samples.last();
        assert(last == samples[samples.len() - 1]);
        assert(b == blocks[blocks.len() - 1]);
        if let Ok(p) = track_blocks(t, front) {
            if block_error(p, b.0, b.1, b.2, b.3) is None {
                let skip = delay_skip(p, b.3);
                let seen = visit_blocks(t, front, fs).1;
                let c = b.1;
                assert(0 <= skip <= b.3);
                assert(skip * c <= b.3 * c) by (nonlinear_arith)
                    requires
                        0 <= skip <= b.3,
                ;
                assert(0 <= skip * c) by (nonlinear_arith)
                    requires
                        0 <= skip,
                ;
                assert(last.len() == b.3 * c);
                let n = after_block(p, b.0, b.1, b.2, b.3);
                assert(n.frames == p.frames + (b.3 - skip));
                assert(last.skip(skip * c).len() == b.3 * c - skip * c);
                assert(visit_blocks(t, blocks, samples).1 == seen + last.skip(skip * c));
                if p.saw_frames {
                    assert(p.channel_mask == Some(b.2));
                    assert(seen.len() + (b.3 * c - skip * c) == (n.frames - t.frames) * c)
                        by (nonlinear_arith)
                        requires
                            seen.len() == (p.frames - t.frames) * c,
                            n.frames == p.frames + (b.3 - skip),
                    ;
                } else if b.3 > 0 {
                    assert(seen.len() + (b.3 * c - skip * c) == (n.frames - t.frames) * c)
                        by (nonlinear_arith)
                        requires
                            seen.len() == 0,
                            p.frames == t.frames,
                            n.frames == p.frames + (b.3 - skip),
                    ;
                } else {
                    assert(skip == 0);
                    assert(b.3 * c == 0);
                }
            }
        }
    }
}

/// A pass over blocks of one layout: with sample rate `r > 0`, `c > 0` channels and
/// speaker mask `m` throughout, from a fresh tracker with encoder delay `d`, it accepts
/// every block, counts `N - min(d, N)` of the `N` decoded frames, and hands out the
/// concatenated samples without the first `min(d, N)` frames.
pub proof fn uniform_decode_run(
    t: DecodeTracker,
    blocks: Seq<(u32, u16, u32, usize)>,
    samples: Seq<Seq<i16>>,
    r: u32,
    c: u16,
    m: u32,
)
    requires
        t.frames == 0,
        !t.saw_frames,
        r > 0,
        c > 0,
        blocks_hold(blocks, samples),
        forall|j: int|
            0 <= j < blocks.len() ==> (#[trigger] blocks[j]).0 == r && blocks[j].1 == c
                && blocks[j].2 == m,
        total_frames(blocks) <= usize::MAX,
    ensures
        ({
            let n = total_frames(blocks);
            let d = t.delay_remaining as int;
            let s = if d < n {
                d
            } else {
                n
            };
            &&& track_blocks(t, blocks) matches Ok(u) && u.frames == n - s && u.delay_remaining
                == d - s && u.saw_frames == (n > 0) && (blocks.len() > 0 ==> u.sample_rate == Some(
                r) && u.channels == Some(c) && u.channel_mask == Some(m))
            &&& visit_blocks(t, blocks, samples).1 == concat_samples(samples).skip(s * c)
            &&& concat_samples(samples).len() == n * c
        }),
    decreases blocks.len(),
{
    let d = t.delay_remaining as int;
    if blocks.len() == 0 {
        assert(0 * c == 0);
        assert(concat_samples(samples).skip(0) =~= Seq::<i16>::empty());
    } else {
        let front = blocks.drop_last();
        let fs = samples.drop_last();
        assert forall|j: int| 0 <= j < front.len() implies (#[trigger] fs[j]).len() == front[j].3
            * front[j].1 by {
            assert(fs[j] == samples[j]);
            assert(front[j] == blocks[j]);
        }
        assert forall|j: int|
            0 <= j < front.len() implies (#[trigger] front[j]).0 == r && front[j].1 == c
                && front[j].2 == m by {
            assert(front[j] == blocks[j]);
        }
        let b = blocks.last();
        assert(b == blocks[blocks.len() - 1]);
        let last = samples.last();
        assert(last == samples[samples.len() - 1]);
        assert(total_frames(front) <= usize::MAX);
        uniform_decode_run(t, front, fs, r, c, m);
        visiting_keeps_the_counting_outcome(t, front, fs);
        lemma_total_frames_nonneg(front);
        let n0 = total_frames(front);
        let n = total_frames(blocks);
        let s0 = if d < n0 {
            d
        } else {
            n0
        };
        let s = if d < n {
            d
        } else {
            n
        };
        let p = track_blocks(t, front)->Ok_0;
        let skip = delay_skip(p, b.3);
        assert(s == s0 + skip);
        assert(block_error(p, b.0, b.1, b.2, b.3) is None);
        let whole = concat_samples(fs);
        assert(last.len() == b.3 * c);
        assert(whole.len() + last.len() == n * c) by (nonlinear_arith)
            requires
                whole.len() == n0 * c,
                last.len() == b.3 * c,
                n == n0 + b.3,
        ;
        assert(concat_samples(samples) == whole + last);
        assert(s * c == s0 * c + skip * c) by (nonlinear_arith)
            requires
                s == s0 + skip,
        ;
        assert(0 <= s0 * c <= whole.len()) by (nonlinear_arith)
            requires
                0 <= s0 <= n0,
                whole.len() == n0 * c,
                c > 0,
        ;
        assert(0 <= skip * c <= last.len()) by (nonlinear_arith)
            requires
                0 <= skip <= b.3,
                last.len() == b.3 * c,
                c > 0,
        ;
        if d <= n0 {
            assert(skip == 0);
            assert(whole.skip(s0 * c) + last.skip(skip * c) =~= (whole + last).skip(s * c));
        } else {
            assert(s0 == n0);
            assert(whole.skip(s0 * c) + last.skip(skip * c) =~= (whole + last).skip(s * c));
        }
        let u = after_block(p, b.0, b.1, b.2, b.3);
        assert(track_blocks(t, blocks) == Ok::<DecodeTracker, Seq<char>>(u));
        assert(u.frames == n - s);
        assert(u.delay_remaining == d - s);
        assert(u.saw_frames == (n > 0));
        assert(visit_blocks(t, blocks, samples).1 == visit_blocks(t, front, fs).1 + last.skip(
            skip * c,
        ));
    }
}

} // verus!

verus! {

/// The ASCII tag `RIFF`.
pub open spec fn riff_tag() -> Seq<u8> {
    seq![82u8, 73, 70, 70]
}

/// The ASCII tag `WAVE`.
pub open spec fn wave_tag() -> Seq<u8> {
    seq![87u8, 65, 86, 69]
}

/// The ASCII tag `data`.
pub open spec fn data_tag() -> Seq<u8> {
    seq![100u8, 97, 116, 97]
}

/// The ASCII tag `fmt `.
pub open spec fn fmt_tag() -> Seq<u8> {
    seq![102u8, 109, 116, 32]
}

/// Little-endian value of the bytes `b[i..i + 2]`.
pub open spec fn le16(b: Seq<u8>, i: int) -> int {
    b[i] + 0x100 * b[i + 1]
}

/// Whether `b[i..i + 4]` holds the four bytes of `tag`.
fn tag_at(b: &[u8], i: usize, t0: u8, t1: u8, t2: u8, t3: u8) -> (r: bool)
    requires
        i + 4 <= b@.len(),
    ensures
        r == (b@.subrange(i as int, i + 4) == seq![t0, t1, t2, t3]),
{
    let r = b[i] == t0 && b[i + 1] == t1 && b[i + 2] == t2 && b[i + 3] == t3;
    proof {
        if r {
            assert(b@.subrange(i as int, i + 4) =~= seq![t0, t1, t2, t3]);
        } else {
            if b@.subrange(i as int, i + 4) == seq![t0, t1, t2, t3] {
                assert(b@.subrange(i as int, i + 4)[0] == t0);
                assert(b@.subrange(i as int, i + 4)[1] == t1);
                assert(b@.subrange(i as int, i + 4)[2] == t2);
                assert(b@.subrange(i as int, i + 4)[3] == t3);
            }
        }
    }
    r
}

/// Whether the chunk scan of a RIFF/WAVE header goes on at byte `pos` of a RIFF body
/// ending at `end`: while a whole chunk header (8 bytes) still fits, the end of the
/// stream counting as the largest position.
pub fn wave_scan_continues(pos: u64, end: u64) -> (r: bool)
    ensures
        r == ((if pos + 8 > u64::MAX {
            u64::MAX as int
        } else {
            pos + 8
        }) <= end),
{
    pos.saturating_add(8) <= end
}

/// Checks a 12-byte RIFF/WAVE header read at stream position `start` and returns the
/// position just past the RIFF chunk.
pub fn riff_end(header: &[u8], start: u64) -> (r: Result<u64, &'static str>)
    requires
        header@.len() == 12,
    ensures
        !(header@.subrange(0, 4) == riff_tag() && header@.subrange(8, 12) == wave_tag()) ==> (r matches Err(
            m,
        ) && m@ == "wav: invalid RIFF/WAVE header"@),
        header@.subrange(0, 4) == riff_tag() && header@.subrange(8, 12) == wave_tag() ==> if start
            + 8 + le32(header@, 4) > u64::MAX {
            r matches Err(m) && m@ == "wav: invalid RIFF size"@
        } else {
            r == Ok::<u64, &'static str>((start + 8 + le32(header@, 4)) as u64)
        },
{
    if !tag_at(header, 0, 82, 73, 70, 70) || !tag_at(header, 8, 87, 65, 86, 69) {
        return Err("wav: invalid RIFF/WAVE header");
    }
    let riff_len = le32_at(header, 4) as u64;
    match start.checked_add(8 + riff_len) {
        Some(end) => Ok(end),
        None => Err("wav: invalid RIFF size"),
    }
}

/// What to do with a chunk whose 8-byte header was read.
#[derive(Clone, Copy, Debug, PartialEq, Eq)]
pub enum ChunkStep {
    /// The sample data starts here: stop inspecting.
    Data,
    /// A format chunk of `len` bytes; the next chunk starts at `next`.
    Format {
        /// Chunk length.
        len: u32,
        /// Position of the next chunk.
        next: u64,
    },
    /// Another chunk; the next one starts at `next`.
    Skip {
        /// Position of the next chunk.
        next: u64,
    },
}

/// Classifies a chunk from its 8-byte header; `pos` is the position just past the
/// header and `end` the end of the RIFF chunk. Chunks are padded to even lengths.
pub fn wave_chunk_step(chunk: &[u8], pos: u64, end: u64) -> (r: Result<ChunkStep, &'static str>)
    requires
        chunk@.len() == 8,
    ensures
        ({
            let len = le32(chunk@, 4);
            let next = pos + len + len % 2;
            let tag = chunk@.subrange(0, 4);
            if next > u64::MAX {
                r matches Err(m) && m@ == "wav: invalid chunk size"@
            } else if tag == data_tag() {
                r == Ok::<ChunkStep, &'static str>(ChunkStep::Data)
            } else if next > end {
                r matches Err(m) && m@ == "wav: chunk exceeds RIFF size"@
            } else if tag == fmt_tag() {
                if len < 16 {
                    r matches Err(m) && m@ == "wav: incomplete format chunk"@
                } else {
                    r == Ok::<ChunkStep, &'static str>(
                        ChunkStep::Format { len: len as u32, next: next as u64 },
                    )
                }
            } else {
                r == Ok::<ChunkStep, &'static str>(ChunkStep::Skip { next: next as u64 })
            }
        }),
{
    let len = le32_at(chunk, 4);
    let next = match pos.checked_add(len as u64 + (len % 2) as u64) {
        Some(n) => n,
        None => return Err("wav: invalid chunk size"),
    };
    if tag_at(chunk, 0, 100, 97, 116, 97) {
        return Ok(ChunkStep::Data);
    }
    if next > end {
        return Err("wav: chunk exceeds RIFF size");
    }
    if tag_at(chunk, 0, 102, 109, 116, 32) {
        if len < 16 {
            return Err("wav: incomplete format chunk");
        }
        return Ok(ChunkStep::Format { len, next });
    }
    Ok(ChunkStep::Skip { next })
}

/// Checks the first 16 bytes of a format chunk of length `len`. Returns the channel
/// count when the chunk uses the extensible format, whose speaker mask must be checked.
pub fn wave_format_check(fmt: &[u8], len: u32) -> (r: Result<Option<u16>, &'static str>)
    requires
        fmt@.len() == 16,
    ensures
        ({
            let channels = le16(fmt@, 2);
            if !(1 <= channels <= 18) {
                r matches Err(m) && m@ == "wav: unsupported channel count (expected 1..=18)"@
            } else if le16(fmt@, 0) == 0xfffe {
                if len < 40 {
                    r matches Err(m) && m@ == "wav: incomplete extensible format chunk"@
                } else {
                    r == Ok::<Option<u16>, &'static str>(Some(channels as u16))
                }
            } else {
                r == Ok::<Option<u16>, &'static str>(None)
            }
        }),
{
    let channels: u16 = fmt[2] as u16 + 0x100 * (fmt[3] as u16);
    if channels < 1 || channels > 18 {
        return Err("wav: unsupported channel count (expected 1..=18)");
    }
    let tag: u16 = fmt[0] as u16 + 0x100 * (fmt[1] as u16);
    if tag == 0xfffe {
        if len < 40 {
            return Err("wav: incomplete extensible format chunk");
        }
        return Ok(Some(channels));
    }
    Ok(None)
}

/// Checks the speaker mask in the first 8 bytes of the extensible format's extension:
/// zero leaves the assignment unspecified; otherwise it must name one supported
/// position per channel.
pub fn wave_mask_check(extension: &[u8], channels: u16) -> (r: Result<(), &'static str>)
    requires
        extension@.len() == 8,
    ensures
        ({
            let mask = le32(extension@, 4) as u32;
            if mask != 0 && !mask_fits_channels(mask, channels) {
                r matches Err(m) && m@ == "wav: channel mask does not match supported speaker layout"@
            } else {
                r is Ok
            }
        }),
{
    let mask = le32_at(extension, 4);
    if mask != 0 && (mask > 0x3ffff || count_ones(mask) != channels as u32) {
        return Err("wav: channel mask does not match supported speaker layout");
    }
    Ok(())
}

/// The 24-byte prefix with which CAF wraps an ALAC magic cookie in legacy `frma` and
/// `alac` atoms.
pub open spec fn alac_wrapper() -> Seq<u8> {
    seq![0u8, 0, 0, 12, 102, 114, 109, 97, 97, 108, 97, 99, 0, 0, 0, 36, 97, 108, 97, 99, 0, 0, 0, 0]
}

/// Unwraps an ALAC magic cookie that CAF stored inside legacy atoms: a wrapped cookie is
/// the 24-byte wrapper followed by the 24-byte configuration the decoder wants.
pub fn unwrap_alac_cookie(cookie: &[u8]) -> (r: Option<Vec<u8>>)
    ensures
        cookie@.len() == 48 && cookie@.subrange(0, 24) == alac_wrapper() ==> (r matches Some(p)
            && p@ == cookie@.subrange(24, 48)),
        !(cookie@.len() == 48 && cookie@.subrange(0, 24) == alac_wrapper()) ==> r is None,
{
    let wrapper: [u8; 24] = [0, 0, 0, 12, 102, 114, 109, 97, 97, 108, 97, 99, 0, 0, 0, 36, 97, 108, 97, 99, 0, 0, 0, 0];
    proof {
        assert(wrapper@ =~= alac_wrapper());
    }
    if cookie.len() != 48 {
        return None;
    }
    let mut i: usize = 0;
    while i < 24
        invariant
            i <= 24,
            cookie@.len() == 48,
            wrapper@ == alac_wrapper(),
            forall|k: int| 0 <= k < i ==> cookie@[k] == alac_wrapper()[k],
        decreases 24 - i,
    {
        if cookie[i] != wrapper[i] {
            proof {
                assert(cookie@.subrange(0, 24)[i as int] != alac_wrapper()[i as int]);
            }
            return None;
        }
        i = i + 1;
    }
    proof {
        assert(cookie@.subrange(0, 24) =~= alac_wrapper());
    }
    let payload = vstd::slice::slice_subrange(cookie, 24, 48);
    Some(vstd::slice::slice_to_vec(payload))
}

} // verus!

verus! {

/// A pass refuses a block with no sample rate or no channels, and, once frames have been
/// seen, any block whose sample rate or speaker layout differs from the stream's; a block
/// of the stream's layout whose frames fit the count is accepted.
pub proof fn stream_changes_are_refused(
    t: DecodeTracker,
    rate: u32,
    channels: u16,
    mask: u32,
    block_frames: usize,
)
    ensures
        rate == 0 || channels == 0 ==> block_error(t, rate, channels, mask, block_frames) == Some(
            "Invalid decoded audio sample rate or channel count"@,
        ),
        rate > 0 && channels > 0 && t.saw_frames && (t.sample_rate != Some(rate)
            || t.channel_mask != Some(mask)) ==> block_error(t, rate, channels, mask, block_frames)
            == Some("Audio stream changes sample rate or channel layout"@),
        rate > 0 && channels > 0 && (!t.saw_frames || (t.sample_rate == Some(rate)
            && t.channel_mask == Some(mask))) && t.frames + block_frames <= usize::MAX
            ==> block_error(t, rate, channels, mask, block_frames) is None,
{
}

} // verus!
