//! Transcribing a moment of silence, so that the first real request is fast.

use vstd::prelude::*;

verus! {

/// Seconds between two warm-ups.
pub const WARMUP_INTERVAL_SECS: u64 = 300;

/// Seconds after which a warm-up is given up.
pub const WARMUP_TIMEOUT_SECS: u64 = 30;

/// The silence that is transcribed: three tenths of a second at 16 kHz.
pub const WARMUP_SAMPLES: usize = 4800;

/// What else keeps the transcriber busy.
#[derive(Clone, Copy, Debug, PartialEq, Eq, Structural)]
pub struct Activity {
    /// A dictation is being recorded.
    pub capture: bool,
    /// A dictation is about to be transcribed.
    pub asr_reserved: bool,
    /// A dictation is being transcribed.
    pub user_request: bool,
}

impl Activity {
    /// Something of the user's is going on.
    pub open spec fn any(self) -> bool {
        self.capture || self.asr_reserved || self.user_request
    }

    /// A warm-up may go ahead: it never comes before a request of the user's.
    pub fn idle(&self) -> (r: bool)
        ensures
            r == !self.any(),
    {
        !self.capture && !self.asr_reserved && !self.user_request
    }
}

/// How many requests of the user's are under way.
#[derive(Debug)]
pub struct UserRequests {
    pub count: usize,
}

impl UserRequests {
    /// None is under way.
    pub fn new() -> (r: Self)
        ensures
            r.count == 0,
    {
        UserRequests { count: 0 }
    }

    /// A request starts.
    pub fn begin(&mut self)
        requires
            old(self).count < usize::MAX,
        ensures
            final(self).count == old(self).count + 1,
    {
        self.count = self.count + 1;
    }

    /// A request ends.
    pub fn end(&mut self)
        requires
            old(self).count > 0,
        ensures
            final(self).count == old(self).count - 1,
    {
        self.count = self.count - 1;
    }

    /// Says whether a request is under way.
    pub fn in_flight(&self) -> (r: bool)
        ensures
            r == (self.count > 0),
    {
        self.count > 0
    }
}

/// At most one warm-up at a time.
#[derive(Debug)]
pub struct WarmupGate {
    pub in_flight: bool,
}

/// What a warm-up does next.
#[derive(Clone, Copy, Debug, PartialEq, Eq, Structural)]
pub enum WarmupStep {
    /// There is nothing to do.
    Skip,
    /// Look again a little later.
    Wait,
    /// Transcribe the silence.
    Go,
}

impl WarmupGate {
    /// No warm-up is under way.
    pub fn new() -> (r: Self)
        ensures
            !r.in_flight,
    {
        WarmupGate { in_flight: false }
    }

    /// Enters, unless the settings do not ask for a resident transcriber or another
    /// warm-up is under way.
    pub fn enter(&mut self, configured: bool) -> (r: bool)
        ensures
            r == (configured && !old(self).in_flight),
            final(self).in_flight == (old(self).in_flight || configured),
    {
        if !configured || self.in_flight {
            return false;
        }
        self.in_flight = true;
        true
    }

    /// Leaves.
    pub fn leave(&mut self)
        ensures
            !final(self).in_flight,
    {
        self.in_flight = false;
    }
}

/// The next step of a warm-up that has entered.
pub fn warmup_step(configured: bool, activity: &Activity) -> (r: WarmupStep)
    ensures
        r == if !configured {
            WarmupStep::Skip
        } else if activity.any() {
            WarmupStep::Wait
        } else {
            WarmupStep::Go
        },
{
    if !configured {
        WarmupStep::Skip
    } else if activity.idle() {
        WarmupStep::Go
    } else {
        WarmupStep::Wait
    }
}

} // verus!
