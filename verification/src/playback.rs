//! Playing recordings.

use crate::paths::{path_join, under};
use vstd::prelude::*;

verus! {

/// Whether something plays.
#[derive(Clone, Copy, Debug, PartialEq, Eq, Structural)]
pub enum PlaybackStatus {
    Stopped,
    Playing,
    Paused,
}

/// What plays, and where it stands.
#[derive(Debug)]
pub struct PlaybackState {
    pub status: PlaybackStatus,
    pub current_position_ms: u64,
    pub duration_ms: u64,
    pub recording_id: Option<String>,
}

impl Default for PlaybackState {
    fn default() -> (r: Self)
        ensures
            r.status == PlaybackStatus::Stopped,
            r.current_position_ms == 0,
            r.duration_ms == 0,
            r.recording_id is None,
    {
        PlaybackState {
            status: PlaybackStatus::Stopped,
            current_position_ms: 0,
            duration_ms: 0,
            recording_id: None,
        }
    }
}

/// The file to play: the mix, else the microphone.
pub fn audio_file(dir: &str, mix_exists: bool, mic_exists: bool) -> (r: Result<String, String>)
    ensures
        if mix_exists {
            r is Ok && r->Ok_0@ == under(dir@, "audio_mix.ogg"@)
        } else if mic_exists {
            r is Ok && r->Ok_0@ == under(dir@, "raw_mic.ogg"@)
        } else {
            r is Err && r->Err_0@ == "Audio file not found"@
        },
{
    if mix_exists {
        Ok(path_join(dir, "audio_mix.ogg"))
    } else if mic_exists {
        Ok(path_join(dir, "raw_mic.ogg"))
    } else {
        Err("Audio file not found".to_owned())
    }
}

/// The controls of what plays.
#[derive(Debug)]
pub struct Player {
    pub stop: bool,
    pub pause: bool,
    pub playing: bool,
    pub position_ms: u64,
    pub duration_ms: u64,
    /// Time that has been played, which may run past the end.
    pub played_ms: u64,
    pub recording_id: Option<String>,
}

impl Player {
    /// The position lies within what plays.
    pub open spec fn wf(self) -> bool {
        self.playing ==> self.position_ms <= self.duration_ms
    }

    /// Nothing plays.
    pub fn new() -> (r: Self)
        ensures
            r.wf(),
            !r.stop,
            !r.pause,
            !r.playing,
            r.position_ms == 0,
            r.duration_ms == 0,
            r.played_ms == 0,
            r.recording_id is None,
    {
        Player {
            stop: false,
            pause: false,
            playing: false,
            position_ms: 0,
            duration_ms: 0,
            played_ms: 0,
            recording_id: None,
        }
    }

    /// Starts to play a recording from its beginning. What played before has stopped.
    pub fn play(&mut self, recording_id: String, duration_ms: u64)
        ensures
            final(self).wf(),
            *final(self) == (Player {
                stop: false,
                pause: false,
                playing: true,
                position_ms: 0,
                duration_ms,
                played_ms: 0,
                recording_id: Some(recording_id),
            }),
    {
        self.duration_ms = duration_ms;
        self.position_ms = 0;
        self.played_ms = 0;
        self.stop = false;
        self.pause = false;
        self.playing = true;
        self.recording_id = Some(recording_id);
    }

    /// Starts to play a part of a recording, beside what is shown as playing.
    pub fn play_segment(&mut self, start_ms: u64, end_ms: u64) -> (r: Result<u64, String>)
        ensures
            if end_ms <= start_ms {
                r is Err && r->Err_0@ == "Invalid segment range"@ && *final(self) == *old(self)
            } else {
                r is Ok && r->Ok_0 == end_ms - start_ms && *final(self) == (Player {
                    stop: false,
                    ..*old(self)
                })
            },
    {
        if end_ms <= start_ms {
            return Err("Invalid segment range".to_owned());
        }
        self.stop = false;
        Ok(end_ms - start_ms)
    }

    /// Pauses.
    pub fn pause_audio(&mut self)
        ensures
            *final(self) == (Player { pause: true, ..*old(self) }),
    {
        self.pause = true;
    }

    /// Goes on.
    pub fn resume_audio(&mut self)
        ensures
            *final(self) == (Player { pause: false, ..*old(self) }),
    {
        self.pause = false;
    }

    /// Asks what plays to stop.
    pub fn begin_stop(&mut self)
        ensures
            *final(self) == (Player { stop: true, pause: false, ..*old(self) }),
    {
        self.stop = true;
        self.pause = false;
    }

    /// What played has stopped, or come to its end.
    pub fn stopped(&mut self)
        ensures
            final(self).wf(),
            *final(self) == (Player { playing: false, position_ms: 0, ..*old(self) }),
    {
        self.playing = false;
        self.position_ms = 0;
    }

    /// Time has passed. While paused it does not count.
    pub fn tick(&mut self, delta_ms: u64)
        requires
            old(self).played_ms + delta_ms <= u64::MAX,
        ensures
            final(self).wf(),
            ({
                let played = if old(self).pause {
                    old(self).played_ms as int
                } else {
                    old(self).played_ms + delta_ms
                };
                *final(self) == (Player {
                    played_ms: played as u64,
                    position_ms: if played <= old(self).duration_ms {
                        played as u64
                    } else {
                        old(self).duration_ms
                    },
                    ..*old(self)
                })
            }),
    {
        if !self.pause {
            self.played_ms = self.played_ms + delta_ms;
        }
        self.position_ms = if self.played_ms <= self.duration_ms {
            self.played_ms
        } else {
            self.duration_ms
        };
    }

    /// What plays, and where it stands.
    pub fn get_playback_state(&self) -> (r: PlaybackState)
        ensures
            r.status == if !self.playing {
                PlaybackStatus::Stopped
            } else if self.pause {
                PlaybackStatus::Paused
            } else {
                PlaybackStatus::Playing
            },
            r.current_position_ms == self.position_ms,
            r.duration_ms == self.duration_ms,
            r.recording_id == self.recording_id,
    {
        PlaybackState {
            status: if !self.playing {
                PlaybackStatus::Stopped
            } else if self.pause {
                PlaybackStatus::Paused
            } else {
                PlaybackStatus::Playing
            },
            current_position_ms: self.position_ms,
            duration_ms: self.duration_ms,
            recording_id: match &self.recording_id {
                Some(id) => Some(id.clone()),
                None => None,
            },
        }
    }
}

/// A number, but no less than `low` and no more than `high`.
pub open spec fn clamped(n: int, low: int, high: int) -> int {
    if n < low {
        low
    } else if n > high {
        high
    } else {
        n
    }
}

/// The part of interleaved sound from frame `start` to frame `end`.
pub open spec fn frames_between<T>(all: Seq<T>, channels: int, start: int, end: int) -> Seq<T> {
    let frames = all.len() as int / channels;
    let from = clamped(start, 0, frames);
    let to = clamped(end, from, frames);
    all.subrange(from * channels, to * channels)
}

/// Cuts a part out of sound that comes in packets.
#[derive(Debug)]
pub struct RangeCutter<T> {
    pub channels: usize,
    pub start: usize,
    pub end: usize,
    /// Frames that have come in.
    pub position: usize,
    pub out: Vec<T>,
}

impl<T: Copy> RangeCutter<T> {
    /// Nothing has come in. Sound without channels cannot be cut.
    pub fn begin(channels: usize, start: usize, end: usize) -> (r: Result<Self, String>)
        ensures
            if channels == 0 {
                r is Err && r->Err_0@ == "Audio has no channels"@
            } else {
                r is Ok && r->Ok_0.channels == channels && r->Ok_0.start == start && r->Ok_0.end
                    == end && r->Ok_0.position == 0 && r->Ok_0.out@.len() == 0
            },
    {
        if channels == 0 {
            return Err("Audio has no channels".to_owned());
        }
        Ok(RangeCutter { channels, start, end, position: 0, out: Vec::new() })
    }

    /// Takes in the next packet. Says whether there is more to come.
    pub fn push(&mut self, packet: &Vec<T>) -> (r: bool)
        requires
            old(self).channels > 0,
            old(self).position + packet@.len() <= usize::MAX,
        ensures
            final(self).channels == old(self).channels,
            final(self).start == old(self).start,
            final(self).end == old(self).end,
            final(self).position == old(self).position + packet@.len() as int
                / old(self).channels as int,
            final(self).out@ == old(self).out@ + frames_between(
                packet@,
                old(self).channels as int,
                old(self).start - old(self).position,
                old(self).end - old(self).position,
            ),
            r == (final(self).position < final(self).end),
    {
        let ch: usize = self.channels;
        let n: usize = packet.len();
        let frames: usize = n / ch;
        proof {
            vstd::arithmetic::div_mod::lemma_fundamental_div_mod(n as int, ch as int);
            assert(frames * ch <= n) by (nonlinear_arith)
                requires
                    n == ch * (n as int / ch as int) + n as int % ch as int,
                    frames == n as int / ch as int,
                    n as int % ch as int >= 0,
            ;
            assert(frames <= n) by (nonlinear_arith)
                requires
                    frames * ch <= n,
                    ch >= 1,
            ;
        }
        let from: usize = if self.start <= self.position {
            0
        } else if self.start - self.position >= frames {
            frames
        } else {
            self.start - self.position
        };
        let to: usize = if self.end <= self.position || self.end - self.position <= from {
            from
        } else if self.end - self.position >= frames {
            frames
        } else {
            self.end - self.position
        };
        let ghost before = self.out@;
        let ghost a = from as int * ch as int;
        let ghost b = to as int * ch as int;
        proof {
            assert(from as int * ch as int <= to as int * ch as int) by (nonlinear_arith)
                requires
                    from <= to,
            ;
            assert(to as int * ch as int <= frames as int * ch as int) by (nonlinear_arith)
                requires
                    to <= frames,
            ;
            assert(from as int * ch as int >= 0) by (nonlinear_arith);
        }
        let mut i: usize = from * ch;
        let stop: usize = to * ch;
        assert(packet@.subrange(a, a) =~= Seq::empty());
        assert(before + packet@.subrange(a, a) =~= before);
        while i < stop
            invariant
                a <= i <= stop,
                0 <= a,
                stop == b,
                stop <= n,
                n == packet@.len(),
                self.out@ == before + packet@.subrange(a, i as int),
                self.channels == old(self).channels,
                self.start == old(self).start,
                self.end == old(self).end,
                self.position == old(self).position,
            decreases stop - i,
        {
            self.out.push(packet[i]);
            assert(packet@.subrange(a, i as int + 1) =~= packet@.subrange(a, i as int).push(
                packet@[i as int],
            ));
            i += 1;
        }
        self.position = self.position + frames;
        self.position < self.end
    }
}

/// However sound is cut into packets of whole frames, the part that comes out is the part
/// that was asked for: from frame `start` to frame `end` of all that came in.
pub proof fn law_packets_do_not_matter<T>(
    all: Seq<T>,
    packet: Seq<T>,
    channels: int,
    start: int,
    end: int,
)
    requires
        channels > 0,
        0 <= start <= end,
        all.len() as int % channels == 0,
        packet.len() as int % channels == 0,
    ensures
        frames_between(all + packet, channels, start, end) == frames_between(
            all,
            channels,
            start,
            end,
        ) + frames_between(
            packet,
            channels,
            start - all.len() as int / channels,
            end - all.len() as int / channels,
        ),
{
    let p = all.len() as int / channels;
    let q = packet.len() as int / channels;
    let whole = all + packet;
    vstd::arithmetic::div_mod::lemma_fundamental_div_mod(all.len() as int, channels);
    vstd::arithmetic::div_mod::lemma_fundamental_div_mod(packet.len() as int, channels);
    assert(all.len() == p * channels) by (nonlinear_arith)
        requires
            all.len() as int == channels * p,
    ;
    assert(packet.len() == q * channels) by (nonlinear_arith)
        requires
            packet.len() as int == channels * q,
    ;
    assert(whole.len() == (p + q) * channels) by (nonlinear_arith)
        requires
            whole.len() as int == p * channels + q * channels,
    ;
    vstd::arithmetic::div_mod::lemma_div_multiples_vanish(p + q, channels);
    assert(whole.len() as int / channels == p + q) by {
        assert(channels * (p + q) == (p + q) * channels) by (nonlinear_arith);
    }
    let from = clamped(start, 0, p + q);
    let to = clamped(end, from, p + q);
    let from1 = clamped(start, 0, p);
    let to1 = clamped(end, from1, p);
    let from2 = clamped(start - p, 0, q);
    let to2 = clamped(end - p, from2, q);
    lemma_scaled(from, to, channels);
    lemma_scaled(from1, to1, channels);
    lemma_scaled(from2, to2, channels);
    lemma_scaled(to, p + q, channels);
    lemma_scaled(to1, p, channels);
    lemma_scaled(to2, q, channels);
    lemma_scaled(0, from, channels);
    lemma_scaled(0, from1, channels);
    lemma_scaled(0, from2, channels);
    let left = frames_between(all, channels, start, end);
    let right = frames_between(packet, channels, start - p, end - p);
    let both = frames_between(whole, channels, start, end);
    if end <= p {
        assert(from2 == 0 || from2 == to2);
        assert(right =~= Seq::empty());
        assert(both =~= left);
        assert(left + right =~= left);
    } else if start >= p {
        assert(left =~= Seq::empty());
        assert(from == p + from2 && to == p + to2);
        assert(from * channels == p * channels + from2 * channels) by (nonlinear_arith)
            requires
                from == p + from2,
        ;
        assert(to * channels == p * channels + to2 * channels) by (nonlinear_arith)
            requires
                to == p + to2,
        ;
        assert(both =~= right);
        assert(left + right =~= right);
    } else {
        assert(from == from1 && to1 == p && from2 == 0 && to == p + to2);
        assert(to * channels == p * channels + to2 * channels) by (nonlinear_arith)
            requires
                to == p + to2,
        ;
        assert(both =~= left + right);
    }
}

proof fn lemma_scaled(a: int, b: int, n: int)
    requires
        0 <= a <= b,
        n > 0,
    ensures
        0 <= a * n <= b * n,
{
    assert(0 <= a * n <= b * n) by (nonlinear_arith)
        requires
            0 <= a <= b,
            n > 0,
    ;
}

/// A part of sound has the frames that were asked for and no others, each with all its
/// channels, in order.
pub proof fn law_frames_between<T>(all: Seq<T>, channels: int, start: int, end: int, f: int, c: int)
    requires
        channels > 0,
        0 <= start <= end <= all.len() as int / channels,
        0 <= f < end - start,
        0 <= c < channels,
    ensures
        frames_between(all, channels, start, end).len() == (end - start) * channels,
        0 <= f * channels + c < (end - start) * channels,
        frames_between(all, channels, start, end)[f * channels + c] == all[(start + f) * channels
            + c],
{
    let frames = all.len() as int / channels;
    vstd::arithmetic::div_mod::lemma_fundamental_div_mod(all.len() as int, channels);
    assert(frames * channels <= all.len()) by (nonlinear_arith)
        requires
            all.len() as int == channels * frames + all.len() as int % channels,
            all.len() as int % channels >= 0,
    ;
    lemma_scaled(0, start, channels);
    lemma_scaled(start, end, channels);
    lemma_scaled(end, frames, channels);
    assert((end - start) * channels == end * channels - start * channels) by (nonlinear_arith);
    assert((start + f) * channels == start * channels + f * channels) by (nonlinear_arith);
    assert(f * channels + c < (end - start) * channels) by (nonlinear_arith)
        requires
            f + 1 <= end - start,
            c < channels,
            channels > 0,
    ;
    lemma_scaled(0, f, channels);
}

/// Frames that there are not are left out.
pub proof fn law_clamped(n: int, low: int, high: int)
    requires
        low <= high,
    ensures
        low <= clamped(n, low, high) <= high,
        low <= n <= high ==> clamped(n, low, high) == n,
        n < low ==> clamped(n, low, high) == low,
        n > high ==> clamped(n, low, high) == high,
{
}

} // verus!
