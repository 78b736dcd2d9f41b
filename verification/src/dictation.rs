//! Dictation: from a shortcut to text in the window in front.

use crate::config::{AppSettings, DictationConfig, DictationShortcut, TranscriptionProvider};
use crate::pipelines::name_view;
use crate::seqs::first_index;
use crate::text::{joined3, same, take};
use vstd::prelude::*;

verus! {

/// The rate at which speech is transcribed.
pub const TARGET_RATE: u32 = 16000;

/// The most samples that a dictation keeps: five minutes of stereo at 48 kHz.
pub const MAX_CAPTURE_SAMPLES: usize = 28800000;

/// Adds samples, as far as there is room.
pub fn append_capped<T: Copy>(buf: &mut Vec<T>, data: &Vec<T>)
    ensures
        ({
            let room = if old(buf)@.len() < MAX_CAPTURE_SAMPLES {
                MAX_CAPTURE_SAMPLES - old(buf)@.len()
            } else {
                0
            };
            final(buf)@ == old(buf)@ + if data@.len() <= room {
                data@
            } else {
                data@.take(room)
            }
        }),
        old(buf)@.len() <= MAX_CAPTURE_SAMPLES ==> final(buf)@.len() <= MAX_CAPTURE_SAMPLES,
{
    let ghost before = buf@;
    let mut i: usize = 0;
    while i < data.len() && buf.len() < MAX_CAPTURE_SAMPLES
        invariant
            i <= data@.len(),
            buf@ == before + data@.take(i as int),
            before == old(buf)@,
            i > 0 ==> buf@.len() <= MAX_CAPTURE_SAMPLES,
        decreases data@.len() - i,
    {
        buf.push(data[i]);
        assert(data@.take(i as int + 1) =~= data@.take(i as int).push(data@[i as int]));
        i += 1;
    }
    assert(data@.take(data@.len() as int) =~= data@);
}

/// A counter that tells which of several deliveries is the live one. It only grows, so
/// that one that has been overtaken can never take itself for the live one.
#[derive(Debug)]
pub struct Generation {
    pub value: u64,
}

impl Generation {
    /// There was none.
    pub fn new() -> (r: Self)
        ensures
            r.value == 0,
    {
        Generation { value: 0 }
    }

    /// Starts a delivery, and overtakes every older one.
    pub fn claim(&mut self) -> (r: u64)
        requires
            old(self).value < u64::MAX,
        ensures
            final(self).value == old(self).value + 1,
            r == final(self).value,
    {
        self.value = self.value + 1;
        self.value
    }

    /// Overtakes every delivery without starting one.
    pub fn supersede(&mut self)
        requires
            old(self).value < u64::MAX,
        ensures
            final(self).value == old(self).value + 1,
    {
        self.value = self.value + 1;
    }

    /// Says whether a delivery is the live one.
    pub fn is_current(&self, generation: u64) -> (r: bool)
        ensures
            r == (self.value == generation),
    {
        self.value == generation
    }
}

/// A delivery that has been overtaken stays so, however many follow.
pub proof fn law_overtaken_for_good(mine: u64, before: Generation, after: Generation)
    requires
        mine <= before.value,
        before.value < after.value,
    ensures
        after.value != mine,
{
}

/// A dictation that is being recorded.
#[derive(Debug)]
pub struct Session {
    pub shortcut_id: String,
    pub generation: u64,
    /// The volume to go back to, where it was turned down.
    pub pre_duck_volume: Option<u32>,
}

/// What dictation is doing.
#[derive(Debug)]
pub struct DictationState {
    /// A dictation is being recorded, or about to be.
    pub is_active: bool,
    pub session: Option<Session>,
    pub generation: Generation,
    /// What follows a recording is under way.
    pub delivering: bool,
}

/// What is told of a dictation.
#[derive(Debug)]
pub struct DictationStatus {
    pub state: String,
    pub shortcut_id: Option<String>,
    pub message: Option<String>,
}

/// What is told of a dictation.
pub fn status(state: &str, shortcut_id: Option<&str>, message: Option<&str>) -> (r: DictationStatus)
    ensures
        r.state@ == state@,
        name_view(r.shortcut_id) == crate::pipelines::str_view(shortcut_id),
        name_view(r.message) == crate::pipelines::str_view(message),
{
    DictationStatus {
        state: state.to_owned(),
        shortcut_id: match shortcut_id {
            Some(s) => Some(s.to_owned()),
            None => None,
        },
        message: match message {
            Some(m) => Some(m.to_owned()),
            None => None,
        },
    }
}

/// The shortcuts with the identifier `id`.
pub open spec fn with_id(id: Seq<char>) -> spec_fn(DictationShortcut) -> bool {
    |s: DictationShortcut| s.id@ == id
}

/// The first shortcut with the identifier `id`.
pub fn find_shortcut(config: &DictationConfig, id: &str) -> (r: Option<usize>)
    ensures
        match r {
            Some(i) => first_index(config.shortcuts@, with_id(id@), 0) == Some(i as int)
                && i < config.shortcuts@.len(),
            None => first_index(config.shortcuts@, with_id(id@), 0) is None,
        },
{
    let mut i: usize = 0;
    while i < config.shortcuts.len()
        invariant
            i <= config.shortcuts@.len(),
            first_index(config.shortcuts@, with_id(id@), 0) == first_index(
                config.shortcuts@,
                with_id(id@),
                i as int,
            ),
        decreases config.shortcuts@.len() - i,
    {
        if same(config.shortcuts[i].id.as_str(), id) {
            return Some(i);
        }
        i += 1;
    }
    None
}

/// A dictation that may begin.
#[derive(Debug)]
pub struct Begun {
    /// The place of its shortcut.
    pub shortcut: usize,
    pub generation: u64,
    /// What followed the recording before is to be ended.
    pub abort: bool,
}

/// The message about a shortcut that is not there.
pub open spec fn shortcut_missing(id: Seq<char>) -> Seq<char> {
    "Shortcut '"@ + id + "' not found"@
}

impl DictationState {
    /// Nothing is going on.
    pub fn new() -> (r: Self)
        ensures
            !r.is_active,
            r.session is None,
            r.generation.value == 0,
            !r.delivering,
    {
        DictationState {
            is_active: false,
            session: None,
            generation: Generation::new(),
            delivering: false,
        }
    }

    /// Begins a dictation, unless one is active. It overtakes the delivery of the one
    /// before, also where its shortcut turns out not to be there.
    pub fn begin_start(&mut self, config: &DictationConfig, shortcut_id: &str) -> (r: Result<
        Begun,
        String,
    >)
        requires
            old(self).generation.value < u64::MAX,
        ensures
            ({
                let found = first_index(config.shortcuts@, with_id(shortcut_id@), 0);
                if old(self).is_active {
                    r is Err && r->Err_0@ == "Dictation already active"@ && *final(self) == *old(
                        self,
                    )
                } else {
                    &&& final(self).generation.value == old(self).generation.value + 1
                    &&& !final(self).delivering
                    &&& final(self).session == old(self).session
                    &&& final(self).is_active == (found is Some)
                    &&& match found {
                        Some(i) => r is Ok && r->Ok_0.shortcut == i && r->Ok_0.generation
                            == final(self).generation.value && r->Ok_0.abort == old(
                            self,
                        ).delivering,
                        None => r is Err && r->Err_0@ == shortcut_missing(shortcut_id@),
                    }
                }
            }),
    {
        if self.is_active {
            return Err("Dictation already active".to_owned());
        }
        let generation = self.generation.claim();
        let abort = self.delivering;
        self.delivering = false;
        match find_shortcut(config, shortcut_id) {
            Some(shortcut) => {
                self.is_active = true;
                Ok(Begun { shortcut, generation, abort })
            },
            None => Err(joined3("Shortcut '", shortcut_id, "' not found")),
        }
    }

    /// The microphone could not be opened.
    pub fn start_failed(&mut self)
        ensures
            *final(self) == (DictationState { is_active: false, ..*old(self) }),
    {
        self.is_active = false;
    }

    /// The microphone is open. Says whether the dictation goes on: not where it was
    /// cancelled meanwhile, and then everything has to be taken down again.
    pub fn install(&mut self, session: Session) -> (r: bool)
        ensures
            r == old(self).is_active,
            *final(self) == if r {
                DictationState { session: Some(session), ..*old(self) }
            } else {
                *old(self)
            },
    {
        if !self.is_active {
            return false;
        }
        self.session = Some(session);
        true
    }

    /// Ends the recording, and gives the session to deliver.
    pub fn stop(&mut self) -> (r: Option<Session>)
        ensures
            r == old(self).session,
            *final(self) == (DictationState { is_active: false, session: None, ..*old(self) }),
    {
        let session = self.session.take();
        self.is_active = false;
        session
    }

    /// The delivery is under way.
    pub fn deliver(&mut self)
        ensures
            *final(self) == (DictationState { delivering: true, ..*old(self) }),
    {
        self.delivering = true;
    }

    /// Cancels everything: nothing that is on its way is pasted any more. Gives the
    /// session to take down, and says whether a delivery is to be ended.
    pub fn cancel(&mut self) -> (r: (Option<Session>, bool))
        requires
            old(self).generation.value < u64::MAX,
        ensures
            r.0 == old(self).session,
            r.1 == old(self).delivering,
            final(self).session is None,
            !final(self).is_active,
            !final(self).delivering,
            final(self).generation.value == old(self).generation.value + 1,
    {
        self.generation.supersede();
        let abort = self.delivering;
        self.delivering = false;
        let session = self.session.take();
        self.is_active = false;
        (session, abort)
    }

    /// Ends a delivery, and leaves a recording alone. Says whether there was one to end.
    pub fn dismiss(&mut self) -> (r: bool)
        requires
            old(self).generation.value < u64::MAX,
        ensures
            r == old(self).delivering,
            final(self).session == old(self).session,
            final(self).is_active == old(self).is_active,
            !final(self).delivering,
            final(self).generation.value == old(self).generation.value + 1,
    {
        self.generation.supersede();
        let abort = self.delivering;
        self.delivering = false;
        abort
    }

    /// Says whether a delivery is the live one.
    pub fn is_current(&self, generation: u64) -> (r: bool)
        ensures
            r == (self.generation.value == generation),
    {
        self.generation.is_current(generation)
    }
}

/// What the escape key does.
#[derive(Clone, Copy, Debug, PartialEq, Eq, Structural)]
pub enum EscapeAction {
    /// Cancel the recording.
    Cancel,
    /// End the delivery and hide what is shown.
    Dismiss,
}

/// What the escape key does.
pub fn escape_action(is_active: bool) -> (r: EscapeAction)
    ensures
        r == if is_active {
            EscapeAction::Cancel
        } else {
            EscapeAction::Dismiss
        },
{
    if is_active {
        EscapeAction::Cancel
    } else {
        EscapeAction::Dismiss
    }
}

/// A change of the volume.
#[derive(Clone, Copy, Debug, PartialEq, Eq, Structural)]
pub struct Fade {
    pub from: u32,
    pub to: u32,
}

/// Four tenths of a volume, rounded, and not silent.
pub open spec fn ducked(volume: u32) -> int {
    let n = (4 * volume as int + 5) / 10;
    if n >= 1 {
        n
    } else {
        1
    }
}

/// How the volume is turned down while a dictation is recorded. Where the microphone is
/// part of what plays, the system sees to it.
pub fn duck(input_name: Option<&str>, output_name: Option<&str>, volume: Option<u32>) -> (r: Option<
    Fade,
>)
    ensures
        r == if input_name is Some && output_name is Some && input_name->0@ == output_name->0@ {
            None
        } else {
            match volume {
                Some(now) => Some((Fade { from: now, to: ducked(now) as u32 })),
                None => None,
            }
        },
{
    let one_device = match (input_name, output_name) {
        (Some(i), Some(o)) => same(i, o),
        _ => false,
    };
    if one_device {
        return None;
    }
    match volume {
        Some(now) => {
            let n: u32 = ((4 * (now as u64) + 5) / 10) as u32;
            let to: u32 = if n >= 1 {
                n
            } else {
                1
            };
            Some(Fade { from: now, to })
        },
        None => None,
    }
}

/// How the volume goes back up. Where it is where it was, or unknown, it stays.
pub fn restore(now: Option<u32>, target: u32) -> (r: Option<Fade>)
    ensures
        r == match now {
            Some(n) if n != target => Some((Fade { from: n, to: target })),
            _ => None,
        },
{
    match now {
        Some(n) => if n != target {
            Some(Fade { from: n, to: target })
        } else {
            None
        },
        None => None,
    }
}

/// The steps of a fade.
pub const FADE_STEPS: u64 = 12;

/// The time between two steps of a fade, in milliseconds.
pub fn fade_delay(duration_ms: u64) -> (r: u64)
    ensures
        r == if duration_ms / FADE_STEPS >= 1 {
            duration_ms / FADE_STEPS
        } else {
            1
        },
{
    let n: u64 = duration_ms / FADE_STEPS;
    if n >= 1 {
        n
    } else {
        1
    }
}

/// A format that a microphone offers.
#[derive(Clone, Copy, Debug, PartialEq, Eq, Structural)]
pub struct InputRange {
    pub channels: u16,
    pub min_rate: u32,
    pub max_rate: u32,
}

impl InputRange {
    /// Speech can be recorded at the rate at which it is transcribed.
    pub open spec fn fits(self) -> bool {
        self.min_rate <= TARGET_RATE && TARGET_RATE <= self.max_rate
    }
}

/// One channel at the right rate.
pub open spec fn mono_fit() -> spec_fn(InputRange) -> bool {
    |c: InputRange| c.channels == 1 && c.fits()
}

/// The right rate.
pub open spec fn rate_fit() -> spec_fn(InputRange) -> bool {
    |c: InputRange| c.fits()
}

/// The format to record in, at the rate at which speech is transcribed: one channel where
/// there is such a format, else any. `None` stands for the microphone's own format.
pub fn pick_input_config(configs: &Vec<InputRange>) -> (r: Option<usize>)
    ensures
        ({
            let mono = first_index(configs@, mono_fit(), 0);
            let any = first_index(configs@, rate_fit(), 0);
            match r {
                Some(i) => if mono is Some {
                    mono == Some(i as int)
                } else {
                    any == Some(i as int)
                },
                None => mono is None && any is None,
            }
        }),
{
    let mut i: usize = 0;
    while i < configs.len()
        invariant
            i <= configs@.len(),
            first_index(configs@, mono_fit(), 0) == first_index(configs@, mono_fit(), i as int),
        decreases configs@.len() - i,
    {
        let c = configs[i];
        if c.channels == 1 && c.min_rate <= TARGET_RATE && TARGET_RATE <= c.max_rate {
            return Some(i);
        }
        i += 1;
    }
    let mut k: usize = 0;
    while k < configs.len()
        invariant
            k <= configs@.len(),
            first_index(configs@, mono_fit(), 0) is None,
            first_index(configs@, rate_fit(), 0) == first_index(configs@, rate_fit(), k as int),
        decreases configs@.len() - k,
    {
        let c = configs[k];
        if c.min_rate <= TARGET_RATE && TARGET_RATE <= c.max_rate {
            return Some(k);
        }
        k += 1;
    }
    None
}

/// Says whether a model is to be loaded before the first dictation. Every engine has
/// one; that of an older settings file is loaded as `FluidAudio`.
pub fn should_prewarm(settings: &AppSettings) -> (r: bool)
    ensures
        r == (settings.dictation.enabled && match settings.transcription.provider {
            TranscriptionProvider::FluidAudio => true,
            TranscriptionProvider::Qwen3 => true,
            TranscriptionProvider::AppleSpeech => true,
            TranscriptionProvider::Unknown => true,
        }),
{
    settings.dictation.enabled && match settings.transcription.provider {
        TranscriptionProvider::FluidAudio => true,
        TranscriptionProvider::Qwen3 => true,
        TranscriptionProvider::AppleSpeech => true,
        TranscriptionProvider::Unknown => true,
    }
}

/// A volume is turned down to four tenths of itself, to the nearest number, but never to
/// silence; a louder one never ends up below a quieter one.
pub proof fn law_ducked(volume: u32, louder: u32)
    ensures
        ducked(volume) >= 1,
        ducked(volume) > 1 ==> -5 <= 10 * ducked(volume) - 4 * volume <= 5,
        ducked(volume) == 1 ==> 4 * volume < 15,
        volume > 1 ==> ducked(volume) < volume,
        volume <= louder ==> ducked(volume) <= ducked(louder),
{
}

/// A format is fit that can record sixteen thousand frames per second; one channel counts
/// first.
pub proof fn law_fit(c: InputRange)
    ensures
        rate_fit()(c) <==> c.min_rate <= 16000 && 16000 <= c.max_rate,
        mono_fit()(c) <==> c.channels == 1 && c.min_rate <= 16000 && 16000 <= c.max_rate,
{
}

} // verus!
