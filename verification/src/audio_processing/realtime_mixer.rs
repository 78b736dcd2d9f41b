//! Mixing the microphone with what the machine plays.

use crate::audio_processing::timeline::{least, CHUNK_SAMPLES};
use std::collections::VecDeque;
use vstd::prelude::*;

verus! {

/// Frames per second of the mix.
pub const MIXER_SAMPLE_RATE: u32 = 48000;

/// The samples over which the level is measured: three tenths of a second.
pub fn window_size(sample_rate: u32) -> (r: usize)
    ensures
        r == sample_rate as int * 3 / 10,
{
    (sample_rate as u64 * 3 / 10) as usize
}

/// The last samples that came in.
#[derive(Debug)]
pub struct LevelWindow<T> {
    pub items: VecDeque<T>,
    pub size: usize,
}

impl<T> LevelWindow<T> {
    /// No more than the window holds.
    pub open spec fn wf(self) -> bool {
        self.items@.len() <= self.size && self.size < usize::MAX
    }

    /// An empty window over `size` samples.
    pub fn new(size: usize) -> (r: Self)
        requires
            size < usize::MAX,
        ensures
            r.wf(),
            r.size == size,
            r.items@.len() == 0,
    {
        LevelWindow { items: VecDeque::new(), size }
    }

    /// Takes a sample in, and gives the one that falls out.
    pub fn push(&mut self, sample: T) -> (r: Option<T>)
        requires
            old(self).wf(),
        ensures
            final(self).wf(),
            final(self).size == old(self).size,
            ({
                let all = old(self).items@.push(sample);
                if all.len() > old(self).size {
                    r == Some(all[0]) && final(self).items@ == all.skip(1)
                } else {
                    r is None && final(self).items@ == all
                }
            }),
    {
        let ghost all = self.items@.push(sample);
        self.items.push_back(sample);
        if self.items.len() > self.size {
            let out = self.items.pop_front();
            assert(self.items@ =~= all.skip(1));
            out
        } else {
            None
        }
    }
}

/// The greater of two numbers.
pub open spec fn greatest(a: int, b: int) -> int {
    if a >= b {
        a
    } else {
        b
    }
}

/// The frames to take from both sides: as many as the fuller one has, and no more
/// than are needed.
pub fn frames_to_mix(mic: usize, system: usize, needed: usize) -> (r: usize)
    ensures
        r == least(greatest(mic as int, system as int), needed as int),
{
    let there: usize = if mic >= system {
        mic
    } else {
        system
    };
    if there <= needed {
        there
    } else {
        needed
    }
}

/// The frames to take from both sides at the end, and none once both are empty.
pub fn frames_to_drain(mic: usize, system: usize) -> (r: usize)
    ensures
        r == least(greatest(mic as int, system as int), CHUNK_SAMPLES as int),
        r == 0 <==> mic == 0 && system == 0,
{
    frames_to_mix(mic, system, CHUNK_SAMPLES)
}

/// The frames of a mix: as many as the longer side gave. The shorter one is silent
/// after its end.
pub fn mixed_frames(mic: usize, system: usize) -> (r: usize)
    ensures
        r == greatest(mic as int, system as int),
{
    if mic >= system {
        mic
    } else {
        system
    }
}

/// The samples of both sides next to each other, with `silence` after the end of the
/// shorter one.
pub fn aligned<T: Copy>(mic: &Vec<T>, system: &Vec<T>, silence: T) -> (r: Vec<(T, T)>)
    ensures
        r@.len() == greatest(mic@.len() as int, system@.len() as int),
        forall|i: int|
            0 <= i < r@.len() ==> (#[trigger] r@[i]) == (
                if i < mic@.len() {
                    mic@[i]
                } else {
                    silence
                },
                if i < system@.len() {
                    system@[i]
                } else {
                    silence
                },
            ),
{
    let n = mixed_frames(mic.len(), system.len());
    let mut out: Vec<(T, T)> = Vec::new();
    let mut i: usize = 0;
    while i < n
        invariant
            i <= n,
            n == greatest(mic@.len() as int, system@.len() as int),
            out@.len() == i,
            forall|k: int|
                0 <= k < i ==> (#[trigger] out@[k]) == (
                    if k < mic@.len() {
                        mic@[k]
                    } else {
                        silence
                    },
                    if k < system@.len() {
                        system@[k]
                    } else {
                        silence
                    },
                ),
        decreases n - i,
    {
        let m = if i < mic.len() {
            mic[i]
        } else {
            silence
        };
        let s = if i < system.len() {
            system[i]
        } else {
            silence
        };
        out.push((m, s));
        i += 1;
    }
    out
}

} // verus!
