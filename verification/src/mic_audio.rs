//! Recording from the microphone.

use crate::audio_processing::realtime_mixer::MIXER_SAMPLE_RATE;
use vstd::prelude::*;

verus! {

/// How loud the microphone is right now, for the meter. The level lies between
/// silence and full scale and is held as the bits of a 32-bit float.
#[derive(Debug)]
pub struct AudioLevel {
    pub bits: u32,
}

impl AudioLevel {
    /// Silence.
    pub fn new() -> (r: Self)
        ensures
            r.bits == 0,
    {
        AudioLevel { bits: 0 }
    }

    /// Sets the level.
    pub fn set(&mut self, bits: u32)
        ensures
            final(self).bits == bits,
    {
        self.bits = bits;
    }
}

/// Sets the level back to silence.
pub fn reset_audio_level(level: &mut AudioLevel)
    ensures
        final(level).bits == 0,
{
    level.bits = 0;
}

/// The capacity of the queue between the microphone and the file: eight seconds.
pub fn ring_capacity(sample_rate: u32, channels: u16) -> (r: usize)
    requires
        sample_rate as int * channels as int * 8 <= usize::MAX,
    ensures
        r == sample_rate as int * channels as int * 8,
{
    assert(sample_rate as int * channels as int * 8 <= u64::MAX) by (nonlinear_arith)
        requires
            sample_rate <= u32::MAX,
            channels <= u16::MAX,
    ;
    assert(sample_rate as int * channels as int <= u64::MAX) by (nonlinear_arith)
        requires
            sample_rate <= u32::MAX,
            channels <= u16::MAX,
    ;
    (sample_rate as u64 * channels as u64 * 8) as usize
}

/// The mixer takes sound at its own rate only.
pub fn needs_resampling(sample_rate: u32) -> (r: bool)
    ensures
        r == (sample_rate != MIXER_SAMPLE_RATE),
{
    sample_rate != MIXER_SAMPLE_RATE
}

/// The input to record from: the one asked for where it is there, else the default.
pub fn choose_input<T>(named: Option<T>, default: Option<T>) -> (r: Result<T, String>)
    ensures
        match (named, default) {
            (Some(d), _) => r == Ok::<T, String>(d),
            (None, Some(d)) => r == Ok::<T, String>(d),
            (None, None) => r is Err && r->Err_0@ == "No input device available"@,
        },
{
    match named {
        Some(d) => Ok(d),
        None => match default {
            Some(d) => Ok(d),
            None => Err("No input device available".to_owned()),
        },
    }
}

/// How many frames stereo sound can be made of: a last frame that is cut short counts
/// where it still has two samples.
pub open spec fn stereo_frames(samples: int, channels: int) -> int {
    samples / channels + if channels > 1 && samples % channels >= 2 {
        1int
    } else {
        0int
    }
}

/// One side of interleaved sound. Sound with one channel is the same on both sides;
/// of more than two channels the first two count.
pub open spec fn side<T>(samples: Seq<T>, channels: int, right: bool) -> Seq<T> {
    Seq::new(
        stereo_frames(samples.len() as int, channels) as nat,
        |i: int|
            samples[i * channels + if right && channels > 1 {
                1int
            } else {
                0int
            }],
    )
}

/// Splits interleaved sound into a left and a right side.
pub fn to_planar_stereo<T: Copy>(samples: &Vec<T>, input_channels: u32) -> (r: Vec<Vec<T>>)
    requires
        input_channels > 0,
    ensures
        r@.len() == 2,
        r@[0]@ == side(samples@, input_channels as int, false),
        r@[1]@ == side(samples@, input_channels as int, true),
{
    let n: usize = samples.len();
    let step: usize = input_channels as usize;
    let second: usize = if input_channels > 1 {
        1
    } else {
        0
    };
    let mut left: Vec<T> = Vec::new();
    let mut right: Vec<T> = Vec::new();
    let mut at: usize = 0;
    let ghost frames = stereo_frames(n as int, step as int);
    proof {
        vstd::arithmetic::div_mod::lemma_fundamental_div_mod(n as int, step as int);
        assert(0 * step == 0);
    }
    while at < n && second < n - at
        invariant
            step == input_channels,
            step > 0,
            second == if input_channels > 1 {
                1int
            } else {
                0int
            },
            n == samples@.len(),
            frames == stereo_frames(n as int, step as int),
            at == left@.len() * step || (at == n && left@.len() == frames),
            left@.len() == right@.len(),
            left@.len() <= frames,
            at <= n,
            forall|i: int|
                0 <= i < left@.len() ==> (#[trigger] left@[i]) == samples@[i * step],
            forall|i: int|
                0 <= i < right@.len() ==> (#[trigger] right@[i]) == samples@[i * step + second],
        decreases n - at,
    {
        proof {
            lemma_frame_starts(n as int, step as int, left@.len() as int, second as int);
        }
        left.push(samples[at]);
        right.push(samples[at + second]);
        let ghost k = left@.len() as int;
        assert(k * step == (k - 1) * step + step) by (nonlinear_arith);
        if step <= n - at {
            at = at + step;
        } else {
            proof {
                lemma_last_frame(n as int, step as int, k - 1, second as int);
            }
            at = n;
        }
    }
    proof {
        if left@.len() < frames {
            lemma_frame_left(n as int, step as int, left@.len() as int, second as int);
        }
        assert(left@ =~= side(samples@, step as int, false));
        assert(right@ =~= side(samples@, step as int, true));
    }
    let mut out: Vec<Vec<T>> = Vec::new();
    out.push(left);
    out.push(right);
    out
}

proof fn lemma_frame_starts(n: int, step: int, k: int, second: int)
    requires
        step > 0,
        k >= 0,
        second == if step > 1 {
            1int
        } else {
            0int
        },
        k * step + second < n,
    ensures
        k < stereo_frames(n, step),
{
    let q = n / step;
    let m = n % step;
    vstd::arithmetic::div_mod::lemma_fundamental_div_mod(n, step);
    assert(n == step * q + m);
    if k > q {
        assert(k * step >= step * q + step) by (nonlinear_arith)
            requires
                k >= q + 1,
                step > 0,
        ;
    } else if k == q {
        assert(k * step == step * q) by (nonlinear_arith)
            requires
                k == q,
        ;
    }
}

proof fn lemma_last_frame(n: int, step: int, k: int, second: int)
    requires
        step > 0,
        k >= 0,
        second == if step > 1 {
            1int
        } else {
            0int
        },
        k * step + second < n,
        n - k * step < step,
    ensures
        k + 1 == stereo_frames(n, step),
{
    let q = n / step;
    let m = n % step;
    vstd::arithmetic::div_mod::lemma_fundamental_div_mod(n, step);
    lemma_frame_starts(n, step, k, second);
    if k < q {
        assert(k * step + step <= step * q) by (nonlinear_arith)
            requires
                k + 1 <= q,
                step > 0,
        ;
    }
}

proof fn lemma_frame_left(n: int, step: int, k: int, second: int)
    requires
        step > 0,
        0 <= k < stereo_frames(n, step),
        n >= 0,
        second == if step > 1 {
            1int
        } else {
            0int
        },
    ensures
        k * step + second < n,
{
    let q = n / step;
    let m = n % step;
    vstd::arithmetic::div_mod::lemma_fundamental_div_mod(n, step);
    if k < q {
        assert(k * step + step <= step * q) by (nonlinear_arith)
            requires
                k + 1 <= q,
                step > 0,
        ;
    } else {
        assert(k * step == step * q) by (nonlinear_arith)
            requires
                k == q,
        ;
    }
}

/// Of two channels one side has every first sample and the other every second one, frame
/// by frame; one channel is on both sides as it is.
pub proof fn law_sides<T>(samples: Seq<T>, i: int)
    ensures
        samples.len() % 2 == 0 ==> side(samples, 2, false).len() == samples.len() / 2 && side(
            samples,
            2,
            true,
        ).len() == samples.len() / 2,
        samples.len() % 2 == 0 && 0 <= i < samples.len() / 2 ==> side(samples, 2, false)[i]
            == samples[2 * i] && side(samples, 2, true)[i] == samples[2 * i + 1],
        side(samples, 1, false) == samples,
        side(samples, 1, true) == samples,
{
    assert(stereo_frames(samples.len() as int, 1) == samples.len());
    assert forall|k: int| 0 <= k < samples.len() implies side(samples, 1, false)[k] == samples[k]
        && side(samples, 1, true)[k] == samples[k] by {
        assert(k * 1 == k);
    }
    assert(side(samples, 1, false) =~= samples);
    assert(side(samples, 1, true) =~= samples);
}

} // verus!
