//! Looking ahead before limiting, and measuring in batches.

use vstd::prelude::*;

verus! {

/// How many samples loudness is measured over.
pub const ANALYZE_CHUNK_SIZE: usize = 512;

/// How many samples the limiter looks ahead: ten milliseconds, and at least one.
pub fn lookahead_samples(sample_rate: u32) -> (r: usize)
    ensures
        r == if sample_rate as int * 10 / 1000 > 1 {
            sample_rate as int * 10 / 1000
        } else {
            1
        },
{
    let n: u64 = sample_rate as u64 * 10 / 1000;
    if n > 1 {
        n as usize
    } else {
        1
    }
}

/// A ring of samples that gives each back some steps after it went in.
#[derive(Debug)]
pub struct DelayLine<T> {
    pub slots: Vec<T>,
    /// Where the last sample went in.
    pub position: usize,
}

impl<T: Copy> DelayLine<T> {
    /// The ring has a place, and the position is one.
    pub open spec fn wf(self) -> bool {
        0 < self.slots@.len() && self.position < self.slots@.len()
    }

    /// What comes out of the next steps, in order: the oldest sample first. The place
    /// at the position is the next to be overwritten.
    pub open spec fn waiting(self) -> Seq<T> {
        self.slots@.skip(self.position as int + 1) + self.slots@.take(self.position as int)
    }

    /// A ring of `size` places that all hold `filler`.
    pub fn new(size: usize, filler: T) -> (r: Self)
        requires
            size > 0,
        ensures
            r.wf(),
            r.slots@.len() == size,
            r.waiting() == Seq::new((size - 1) as nat, |i: int| filler),
    {
        let mut slots: Vec<T> = Vec::new();
        while slots.len() < size
            invariant
                slots@.len() <= size,
                forall|i: int| 0 <= i < slots@.len() ==> slots@[i] == filler,
            decreases size - slots@.len(),
        {
            slots.push(filler);
        }
        let r = DelayLine { slots, position: 0 };
        assert(r.waiting() =~= Seq::new((size - 1) as nat, |i: int| filler));
        r
    }

    /// Puts a sample in, and gives the one whose turn it is.
    pub fn step(&mut self, sample: T) -> (r: T)
        requires
            old(self).wf(),
        ensures
            final(self).wf(),
            final(self).slots@.len() == old(self).slots@.len(),
            r == old(self).waiting().push(sample)[0],
            final(self).waiting() == old(self).waiting().push(sample).skip(1),
    {
        let n: usize = self.slots.len();
        let at: usize = self.position;
        let ghost queue = self.waiting().push(sample);
        self.slots[at] = sample;
        let next: usize = if at + 1 < n {
            at + 1
        } else {
            0
        };
        self.position = next;
        let out = self.slots[next];
        proof {
            if at + 1 < n {
                assert(self.waiting() =~= queue.skip(1));
            } else {
                assert(self.waiting() =~= queue.skip(1));
            }
        }
        out
    }
}

/// What has come out after `n` of the samples went in, and what then waits.
pub open spec fn delayed<T>(waiting: Seq<T>, samples: Seq<T>, n: nat) -> (Seq<T>, Seq<T>)
    decreases n,
{
    if n == 0 {
        (Seq::empty(), waiting)
    } else {
        let before = delayed(waiting, samples, (n - 1) as nat);
        let queue = before.1.push(samples[n - 1]);
        (before.0.push(queue[0]), queue.skip(1))
    }
}

/// Nothing is lost and nothing changes places: what comes out is what waited at the
/// start, followed by what went in.
pub proof fn law_delay_keeps_order<T>(waiting: Seq<T>, samples: Seq<T>, n: nat)
    requires
        n <= samples.len(),
    ensures
        delayed(waiting, samples, n).0 == (waiting + samples).take(n as int),
        delayed(waiting, samples, n).1 == (waiting + samples.take(n as int)).skip(n as int),
    decreases n,
{
    let all = waiting + samples;
    if n == 0 {
        assert(delayed(waiting, samples, n).0 =~= all.take(0));
        assert(delayed(waiting, samples, n).1 =~= (waiting + samples.take(0)).skip(0));
    } else {
        law_delay_keeps_order(waiting, samples, (n - 1) as nat);
        let before = delayed(waiting, samples, (n - 1) as nat);
        let queue = before.1.push(samples[n - 1]);
        assert(queue =~= (waiting + samples.take(n as int)).skip(n - 1));
        assert(queue[0] == all[n - 1]);
        assert(delayed(waiting, samples, n).0 =~= all.take(n as int));
        assert(delayed(waiting, samples, n).1 =~= (waiting + samples.take(n as int)).skip(n as int));
    }
}

} // verus!
