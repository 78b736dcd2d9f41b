//! Keeping what is written in step with the clock.

use vstd::prelude::*;

verus! {

/// How many samples are handled at a time.
pub const CHUNK_SAMPLES: usize = 4096;

/// How many frames a resampler takes at a time.
pub const RESAMPLER_CHUNK: usize = 1024;

/// The lesser of two numbers.
pub open spec fn least(a: int, b: int) -> int {
    if a <= b {
        a
    } else {
        b
    }
}

/// How far the sound that has been written reaches.
#[derive(Debug)]
pub struct Timeline {
    /// Frames per second.
    pub sample_rate: u32,
    /// Frames that have been written.
    pub written: u64,
}

impl Timeline {
    /// Nothing has been written.
    pub fn new(sample_rate: u32) -> (r: Self)
        ensures
            r.sample_rate == sample_rate,
            r.written == 0,
    {
        Timeline { sample_rate, written: 0 }
    }

    /// The frames to write now: what is missing, and no more than a tenth of a second.
    pub open spec fn due(self, expected: u64) -> int {
        if self.written < expected {
            least(expected - self.written, self.sample_rate as int / 10)
        } else {
            0
        }
    }

    /// Says how many frames to write now, given how many there should be. With none
    /// to write there is time to rest.
    pub fn frames_needed(&self, expected: u64) -> (r: Option<usize>)
        ensures
            match r {
                Some(n) => self.written < expected && n == self.due(expected),
                None => self.written >= expected,
            },
    {
        if self.written >= expected {
            return None;
        }
        let missing: u64 = expected - self.written;
        let limit: u32 = self.sample_rate / 10;
        if missing <= limit as u64 {
            Some(missing as usize)
        } else {
            Some(limit as usize)
        }
    }

    /// Takes note of `frames` frames of sound, out of `needed`. Gives the frames of
    /// silence that make up for the rest.
    pub fn advance(&mut self, expected: u64, needed: usize, frames: usize) -> (r: usize)
        requires
            old(self).written < expected,
            needed == old(self).due(expected),
            frames <= needed,
        ensures
            r == needed - frames,
            final(self).written == old(self).written + needed,
            final(self).written <= expected,
            final(self).sample_rate == old(self).sample_rate,
    {
        let silence: usize = needed - frames;
        self.written = self.written + needed as u64;
        silence
    }

    /// Takes note of sound that was still waiting at the end.
    pub fn drained(&mut self, frames: usize)
        requires
            old(self).written + frames <= u64::MAX,
        ensures
            final(self).written == old(self).written + frames,
            final(self).sample_rate == old(self).sample_rate,
    {
        self.written = self.written + frames as u64;
    }

    /// The frames of silence that are missing at the end.
    pub fn missing(&self, expected: u64) -> (r: u64)
        ensures
            r == if self.written < expected {
                expected - self.written
            } else {
                0
            },
    {
        if self.written < expected {
            expected - self.written
        } else {
            0
        }
    }
}

/// Where the timeline stands after `n` rounds towards `expected`.
pub open spec fn after_rounds(line: Timeline, expected: u64, n: nat) -> Timeline
    decreases n,
{
    if n == 0 {
        line
    } else {
        let before = after_rounds(line, expected, (n - 1) as nat);
        Timeline { written: (before.written + before.due(expected)) as u64, ..before }
    }
}

/// What is written never runs ahead of the clock, and catches up with it: every
/// round goes a tenth of a second, until nothing is missing.
pub proof fn law_catches_up(line: Timeline, expected: u64, n: nat)
    requires
        line.written <= expected,
    ensures
        after_rounds(line, expected, n).sample_rate == line.sample_rate,
        after_rounds(line, expected, n).written == least(
            expected as int,
            line.written + n * (line.sample_rate as int / 10),
        ),
    decreases n,
{
    let step = line.sample_rate as int / 10;
    if n == 0 {
        assert(0 * step == 0);
    } else {
        law_catches_up(line, expected, (n - 1) as nat);
        assert(n * step == (n - 1) * step + step) by (nonlinear_arith);
        assert((n - 1) * step >= 0) by (nonlinear_arith)
            requires
                n >= 1,
                step >= 0,
        ;
    }
}

/// The frames of sound to take from a queue of interleaved samples: what is there,
/// what is needed, and what one chunk holds.
pub fn frames_to_read(available: usize, channels: usize, needed: usize) -> (r: usize)
    requires
        channels > 0,
    ensures
        r == least(
            least(available as int / channels as int, needed as int),
            CHUNK_SAMPLES as int / channels as int,
        ),
        r * channels <= available,
        r * channels <= CHUNK_SAMPLES,
{
    let there: usize = available / channels;
    let room: usize = CHUNK_SAMPLES / channels;
    let mut frames: usize = there;
    if needed < frames {
        frames = needed;
    }
    if room < frames {
        frames = room;
    }
    proof {
        lemma_frames_fit(available as int, channels as int, frames as int);
        lemma_frames_fit(CHUNK_SAMPLES as int, channels as int, frames as int);
    }
    frames
}

proof fn lemma_frames_fit(samples: int, channels: int, frames: int)
    requires
        channels > 0,
        samples >= 0,
        0 <= frames <= samples / channels,
    ensures
        frames * channels <= samples,
{
    vstd::arithmetic::div_mod::lemma_fundamental_div_mod(samples, channels);
    assert(frames * channels <= (samples / channels) * channels) by (nonlinear_arith)
        requires
            frames <= samples / channels,
            channels > 0,
    ;
    assert((samples / channels) * channels == channels * (samples / channels))
        by (nonlinear_arith);
}

/// The samples to take from a queue at the end: whole frames only, and none once no
/// whole frame is left.
pub fn samples_to_drain(available: usize, channels: usize) -> (r: usize)
    requires
        channels > 0,
    ensures
        r == least(
            available as int / channels as int,
            CHUNK_SAMPLES as int / channels as int,
        ) * channels,
        r <= available,
        r <= CHUNK_SAMPLES,
{
    let frames = frames_to_read(available, channels, available / channels);
    frames * channels
}

/// The next block of silence, with `remaining` frames to fill.
pub fn next_silence(remaining: u64) -> (r: usize)
    ensures
        r == least(remaining as int, CHUNK_SAMPLES as int),
{
    if remaining < CHUNK_SAMPLES as u64 {
        remaining as usize
    } else {
        CHUNK_SAMPLES
    }
}

/// Sound that is gathered until there is enough of it.
#[derive(Debug)]
pub struct Gatherer<T> {
    pub items: Vec<T>,
}

impl<T> Gatherer<T> {
    /// Nothing has been gathered.
    pub fn new() -> (r: Self)
        ensures
            r.items@.len() == 0,
    {
        Gatherer { items: Vec::new() }
    }

    /// Takes one item in.
    pub fn put(&mut self, item: T)
        ensures
            final(self).items@ == old(self).items@.push(item),
    {
        self.items.push(item);
    }

    /// Takes more in.
    pub fn gather(&mut self, mut more: Vec<T>)
        ensures
            final(self).items@ == old(self).items@ + more@,
    {
        self.items.append(&mut more);
    }

    /// Gives the next `size` items, if there are so many.
    pub fn take_chunk(&mut self, size: usize) -> (r: Option<Vec<T>>)
        ensures
            match r {
                Some(chunk) => {
                    &&& old(self).items@.len() >= size
                    &&& chunk@ == old(self).items@.take(size as int)
                    &&& final(self).items@ == old(self).items@.skip(size as int)
                },
                None => old(self).items@.len() < size && final(self).items@ == old(self).items@,
            },
    {
        if self.items.len() < size {
            return None;
        }
        let ghost before = self.items@;
        let rest = self.items.split_off(size);
        let mut chunk = rest;
        std::mem::swap(&mut self.items, &mut chunk);
        assert(chunk@ =~= before.take(size as int));
        assert(self.items@ =~= before.skip(size as int));
        Some(chunk)
    }

    /// Gives what is left, filled up to `size` items, and how many there really were.
    pub fn flush(&mut self, size: usize, filler: T) -> (r: Option<(Vec<T>, usize)>) where T: Copy
        requires
            old(self).items@.len() <= size,
        ensures
            final(self).items@.len() == 0,
            match r {
                Some((chunk, count)) => {
                    &&& count == old(self).items@.len()
                    &&& count > 0
                    &&& chunk@ == old(self).items@ + Seq::new((size - count) as nat, |i: int| filler)
                },
                None => old(self).items@.len() == 0,
            },
    {
        let count: usize = self.items.len();
        if count == 0 {
            return None;
        }
        let mut chunk: Vec<T> = Vec::new();
        std::mem::swap(&mut self.items, &mut chunk);
        let ghost start = chunk@;
        while chunk.len() < size
            invariant
                count == start.len(),
                count <= chunk@.len() <= size,
                chunk@ == start + Seq::new((chunk@.len() - count) as nat, |i: int| filler),
            decreases size - chunk@.len(),
        {
            let ghost before = chunk@;
            chunk.push(filler);
            assert(chunk@ =~= start + Seq::new((chunk@.len() - count) as nat, |i: int| filler));
        }
        Some((chunk, count))
    }
}

/// What is due is never more than is missing, nor than a tenth of a second, and is one of
/// the two.
pub proof fn law_due(line: Timeline, expected: u64)
    ensures
        line.written >= expected ==> line.due(expected) == 0,
        line.written < expected ==> {
            let n = line.due(expected);
            &&& 0 <= n <= expected - line.written
            &&& 10 * n <= line.sample_rate
            &&& n == expected - line.written || line.sample_rate < 10 * (n + 1)
        },
{
}

} // verus!
