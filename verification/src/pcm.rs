use vstd::prelude::*;

use crate::error::Error;

verus! {

/// Number of set bits in a 32-bit value.
pub open spec fn popcount(m: u32) -> nat
    decreases m,
{
    if m == 0 {
        0
    } else {
        (m % 2) as nat + popcount(m / 2)
    }
}

/// The mask with the lowest `n` bits set.
pub open spec fn low_mask(n: nat) -> nat
    decreases n,
{
    if n == 0 {
        0
    } else {
        2 * low_mask((n - 1) as nat) + 1
    }
}

/// Largest speaker mask value with only supported WAV speaker positions (18 positions).
pub open spec fn supported_speaker_mask(m: u32) -> bool {
    m <= 0x3ffff
}

/// A WAV speaker mask that assigns one supported position to each of `channels` channels.
pub open spec fn mask_fits_channels(m: u32, channels: u16) -> bool {
    supported_speaker_mask(m) && popcount(m) == channels as nat
}

/// Counts the set bits of a mask.
pub fn count_ones(m: u32) -> (r: u32)
    ensures
        r as nat == popcount(m),
{
    let mut rest = m;
    let mut count: u32 = 0;
    while rest != 0
        invariant
            count as nat + popcount(rest) == popcount(m),
            count as nat + (rest as nat) <= m as nat,
        decreases rest,
    {
        count = count + rest % 2;
        rest = rest / 2;
    }
    count
}

proof fn lemma_low_mask_bounds(n: nat)
    requires
        n <= 18,
    ensures
        low_mask(n) <= 0x3ffff,
    decreases 18 - n,
{
    if n < 18 {
        lemma_low_mask_bounds(n + 1);
        assert(low_mask(n + 1) == 2 * low_mask(n) + 1);
    } else {
        reveal_with_fuel(low_mask, 19);
    }
}

/// The lowest `n` speaker bits, set.
pub(crate) fn default_speaker_mask(n: u16) -> (m: u32)
    requires
        n <= 18,
    ensures
        m as nat == low_mask(n as nat),
        mask_fits_channels(m, n),
{
    let mut m: u32 = 0;
    let mut i: u16 = 0;
    while i < n
        invariant
            i <= n <= 18,
            m as nat == low_mask(i as nat),
            popcount(m) == i as nat,
        decreases n - i,
    {
        proof {
            lemma_low_mask_bounds(i as nat);
            lemma_low_mask_bounds((i + 1) as nat);
            assert(((2 * m + 1) as u32) / 2 == m);
            assert(((2 * m + 1) as u32) % 2 == 1);
        }
        m = 2 * m + 1;
        i = i + 1;
    }
    proof {
        lemma_low_mask_bounds(n as nat);
    }
    m
}

/// The abstract content of a PCM buffer.
pub struct PcmView {
    /// Source sample rate in Hz.
    pub sample_rate: u32,
    /// Channel count.
    pub channels: u16,
    /// Speaker mask in WAV bit order, when the layout is known.
    pub channel_mask: Option<u32>,
    /// Interleaved samples.
    pub samples: Seq<i16>,
}

/// A decoded interleaved PCM audio buffer.
#[derive(Debug, PartialEq)]
pub struct PcmAudio {
    sample_rate: u32,
    channels: u16,
    channel_mask: Option<u32>,
    samples: Vec<i16>,
}

impl View for PcmAudio {
    type V = PcmView;

    closed spec fn view(&self) -> PcmView {
        PcmView {
            sample_rate: self.sample_rate,
            channels: self.channels,
            channel_mask: self.channel_mask,
            samples: self.samples@,
        }
    }
}

/// What every PCM buffer satisfies: a positive rate and channel count, whole frames,
/// and a speaker mask, when known, with one supported position per channel.
pub open spec fn pcm_view_wf(v: PcmView) -> bool {
    &&& v.sample_rate > 0
    &&& v.channels > 0
    &&& (v.samples.len() as int) % (v.channels as int) == 0
    &&& v.channel_mask matches Some(m) ==> mask_fits_channels(m, v.channels)
}

/// The speaker mask that a new buffer receives: the lowest `channels` bits for up to
/// 18 channels, otherwise none.
pub open spec fn default_mask_for(channels: u16) -> Option<u32> {
    if channels <= 18 {
        Some(low_mask(channels as nat) as u32)
    } else {
        None
    }
}

/// The outcome of `PcmAudio::new` on its arguments.
pub open spec fn pcm_new_error(sample_rate: u32, channels: u16, len: nat) -> Option<Seq<char>> {
    if sample_rate == 0 {
        Some("Invalid input sample rate: must be greater than zero"@)
    } else if channels == 0 {
        Some("Invalid number of input channels: must be greater than zero"@)
    } else if len % (channels as nat) != 0 {
        Some("Interleaved PCM sample count must be divisible by the channel count"@)
    } else {
        None
    }
}

impl PcmAudio {
    #[verifier::type_invariant]
    spec fn inv(self) -> bool {
        pcm_view_wf(self@)
    }

    /// Creates a PCM buffer from interleaved 16-bit samples.
    pub fn new(sample_rate: u32, channels: u16, samples: Vec<i16>) -> (r: Result<PcmAudio, Error>)
        ensures
            match pcm_new_error(sample_rate, channels, samples@.len()) {
                Some(msg) => r matches Err(Error::InvalidArgument { message, .. }) && message@
                    == msg,
                None => r matches Ok(p) && p@ == (PcmView {
                    sample_rate,
                    channels,
                    channel_mask: default_mask_for(channels),
                    samples: samples@,
                }),
            },
    {
        if sample_rate == 0 {
            return Err(
                Error::invalid_argument(
                    "sample rate",
                    "Invalid input sample rate: must be greater than zero",
                ),
            );
        }
        if channels == 0 {
            return Err(
                Error::invalid_argument(
                    "channels",
                    "Invalid number of input channels: must be greater than zero",
                ),
            );
        }
        if samples.len() % (channels as usize) != 0 {
            return Err(
                Error::invalid_argument(
                    "samples",
                    "Interleaved PCM sample count must be divisible by the channel count",
                ),
            );
        }
        let channel_mask = if channels <= 18 {
            Some(default_speaker_mask(channels))
        } else {
            None
        };
        Ok(PcmAudio::new_checked(sample_rate, channels, channel_mask, samples))
    }

    /// Builds a buffer from decoded stream properties. A decoded speaker mask is kept
    /// when it assigns one supported WAV position to each channel; otherwise the buffer
    /// has no mask.
    pub fn from_decoded(sample_rate: u32, channels: u16, channel_mask: Option<u32>, samples: Vec<
        i16,
    >) -> (r: Result<PcmAudio, Error>)
        ensures
            match pcm_new_error(sample_rate, channels, samples@.len()) {
                Some(msg) => r matches Err(Error::InvalidArgument { message, .. }) && message@
                    == msg,
                None => r matches Ok(p) && p@ == (PcmView {
                    sample_rate,
                    channels,
                    channel_mask: match channel_mask {
                        Some(m) => if mask_fits_channels(m, channels) {
                            Some(m)
                        } else {
                            None
                        },
                        None => None,
                    },
                    samples: samples@,
                }),
            },
    {
        let pcm = PcmAudio::new(sample_rate, channels, samples)?;
        let PcmAudio { sample_rate, channels, samples, .. } = pcm;
        let mask = match channel_mask {
            Some(m) => if m <= 0x3ffff && count_ones(m) == channels as u32 {
                Some(m)
            } else {
                None
            },
            None => None,
        };
        Ok(PcmAudio::new_checked(sample_rate, channels, mask, samples))
    }

    fn new_checked(sample_rate: u32, channels: u16, channel_mask: Option<u32>, samples: Vec<i16>) -> (p: PcmAudio)
        requires
            pcm_view_wf(PcmView { sample_rate, channels, channel_mask, samples: samples@ }),
        ensures
            p@ == (PcmView { sample_rate, channels, channel_mask, samples: samples@ }),
    {
        PcmAudio { sample_rate, channels, channel_mask, samples }
    }

    /// Returns the source sample rate in Hz.
    pub fn sample_rate(&self) -> (r: u32)
        ensures
            r == self@.sample_rate,
            r > 0,
    {
        proof {
            use_type_invariant(self);
        }
        self.sample_rate
    }

    /// Returns the channel count.
    pub fn channels(&self) -> (r: u16)
        ensures
            r == self@.channels,
            r > 0,
    {
        proof {
            use_type_invariant(self);
        }
        self.channels
    }

    /// Returns the speaker mask in WAV bit order, when the layout is known.
    /// Constructed PCM uses the lowest `channels` speaker bits for up to 18 channels.
    pub fn channel_mask(&self) -> (r: Option<u32>)
        ensures
            r == self@.channel_mask,
            r matches Some(m) ==> mask_fits_channels(m, self@.channels),
    {
        proof {
            use_type_invariant(self);
        }
        self.channel_mask
    }

    /// Sets a WAV speaker layout without changing the interleaved sample order.
    pub fn with_channel_mask(self, mask: u32) -> (r: Result<PcmAudio, Error>)
        ensures
            mask_fits_channels(mask, self@.channels) ==> (r matches Ok(p) && p@ == (PcmView {
                channel_mask: Some(mask),
                ..self@
            })),
            !mask_fits_channels(mask, self@.channels) ==> (r matches Err(
                Error::InvalidArgument { message, .. },
            ) && message@ == "Speaker mask must contain one supported WAV position per channel"@),
    {
        proof {
            use_type_invariant(&self);
        }
        if mask > 0x3ffff || count_ones(mask) != self.channels as u32 {
            return Err(
                Error::invalid_argument(
                    "channel mask",
                    "Speaker mask must contain one supported WAV position per channel",
                ),
            );
        }
        let PcmAudio { sample_rate, channels, samples, .. } = self;
        Ok(PcmAudio::new_checked(sample_rate, channels, Some(mask), samples))
    }

    /// Returns the interleaved PCM samples.
    pub fn samples(&self) -> (r: &[i16])
        ensures
            r@ == self@.samples,
    {
        self.samples.as_slice()
    }

    /// Returns the number of audio frames.
    pub fn frame_count(&self) -> (r: usize)
        ensures
            r as int == (self@.samples.len() as int) / (self@.channels as int),
            (self@.channels as int) * (r as int) == self@.samples.len(),
    {
        proof {
            use_type_invariant(self);
            vstd::arithmetic::div_mod::lemma_fundamental_div_mod(
                self@.samples.len() as int,
                self@.channels as int,
            );
        }
        self.samples.len() / (self.channels as usize)
    }
}

} // verus!

verus! {

proof fn lemma_low_mask_is_pow2_less_one(n: nat)
    ensures
        low_mask(n) + 1 == vstd::arithmetic::power2::pow2(n),
    decreases n,
{
    if n > 0 {
        lemma_low_mask_is_pow2_less_one((n - 1) as nat);
        vstd::arithmetic::power2::lemma_pow2_unfold(n);
    } else {
        vstd::arithmetic::power2::lemma2_to64();
    }
}

/// A PCM buffer needs a positive sample rate, at least one channel and whole frames,
/// and nothing else; a new buffer of up to 18 channels gets the speaker mask of the
/// lowest `channels` positions (`2^channels - 1`, one position per channel), and a
/// wider one gets none.
pub proof fn pcm_buffer_rules(sample_rate: u32, channels: u16, len: nat)
    ensures
        (pcm_new_error(sample_rate, channels, len) is None) <==> (sample_rate > 0 && channels > 0
            && len % (channels as nat) == 0),
        channels <= 18 ==> default_mask_for(channels) == Some(
            (vstd::arithmetic::power2::pow2(channels as nat) - 1) as u32,
        ),
        channels > 18 ==> default_mask_for(channels) is None,
{
    lemma_low_mask_is_pow2_less_one(channels as nat);
    if channels <= 18 {
        vstd::arithmetic::power2::lemma2_to64();
        if channels < 18 {
            vstd::arithmetic::power2::lemma_pow2_strictly_increases(channels as nat, 18);
        }
    }
}

} // verus!
