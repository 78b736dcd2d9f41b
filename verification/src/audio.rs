//! Starting and stopping a recording.

use crate::capture_coordinator::{CaptureActivity, CaptureClaim, CaptureCoordinator};
use crate::config::{TranscriptionConfig, TranscriptionProvider};
use crate::storage::{create_recording, just_begun, AudioInfo, RecordingMetadata};
use crate::text::{decimal, decimal_of, joined, joined3, same};
use crate::time::{is_clock, is_stamp, local_clock};
use vstd::prelude::*;

verus! {

/// The space that has to be left to begin a recording.
pub const MIN_FREE_BYTES: u64 = 104857600;

/// Bytes as whole megabytes, rounded to the nearest; a half goes to the even one.
pub open spec fn rounded_megabytes(bytes: nat) -> nat {
    let whole = bytes / 1048576;
    let rest = bytes % 1048576;
    if rest > 524288 || (rest == 524288 && whole % 2 == 1) {
        whole + 1
    } else {
        whole
    }
}

/// Refuses to begin with too little space. Where the space is not known, it is taken
/// to be enough.
pub fn check_disk_space(available: Option<u64>) -> (r: Result<(), String>)
    ensures
        match available {
            Some(n) if n < MIN_FREE_BYTES => r is Err && r->Err_0@ == "Insufficient disk space: "@
                + decimal_of(rounded_megabytes(n as nat))
                + " MB available, need at least 100 MB"@,
            _ => r is Ok,
        },
{
    match available {
        Some(n) => if n < MIN_FREE_BYTES {
            let whole: u64 = n / 1048576;
            let rest: u64 = n % 1048576;
            let shown: u64 = if rest > 524288 || (rest == 524288 && whole % 2 == 1) {
                whole + 1
            } else {
                whole
            };
            let number = decimal(shown);
            Err(
                joined3(
                    "Insufficient disk space: ",
                    number.as_str(),
                    " MB available, need at least 100 MB",
                ),
            )
        } else {
            Ok(())
        },
        None => Ok(()),
    }
}

/// The title of a recording that the user begins.
pub fn manual_title_at(clock: &str) -> (r: String)
    ensures
        r@ == "NBP · "@ + clock@,
{
    joined("NBP · ", clock)
}

/// The metadata of a recording that the user begins now.
pub fn create_manual_recording() -> (r: RecordingMetadata)
    ensures
        exists|clock: Seq<char>|
            is_clock(clock) && just_begun(r, #[trigger] ("NBP · "@ + clock)),
        is_stamp(r.created_at@),
        crate::ids::uuid_shape(r.id@),
{
    let clock = local_clock();
    let title = manual_title_at(clock.as_str());
    let r = create_recording(title);
    assert(just_begun(r, "NBP · "@ + clock@));
    r
}

/// What takes part in a recording.
#[derive(Clone, Copy, Debug, PartialEq, Eq, Structural)]
pub enum Part {
    Mic,
    System,
    Transcriber,
    Mixer,
}

/// What follows from opening a part.
#[derive(Debug)]
pub enum Opening {
    /// Go on.
    Go,
    /// Go on, and warn.
    Warn(String),
    /// The recording cannot begin.
    Fail(String),
}

/// What follows from stopping.
#[derive(Debug)]
pub enum StopOutcome {
    /// The recording was too short: remove it.
    Discard(Option<String>),
    /// Save the recording that this metadata began.
    Finalize(Option<RecordingMetadata>),
}

/// What is being recorded, and what takes part.
#[derive(Debug)]
pub struct AudioState {
    pub is_recording: bool,
    pub mic: bool,
    pub system: bool,
    pub transcriber: bool,
    pub mixer: bool,
    pub current_session: Option<RecordingMetadata>,
    /// Keep the mix only.
    pub save_mix_only: bool,
}

/// The parts to stop, in order: what captures goes first, so that the mixer can write
/// what is still on its way.
pub open spec fn stop_order(state: AudioState) -> Seq<Part> {
    (if state.mic {
        seq![Part::Mic]
    } else {
        Seq::empty()
    }) + (if state.system {
        seq![Part::System]
    } else {
        Seq::empty()
    }) + (if state.transcriber {
        seq![Part::Transcriber]
    } else {
        Seq::empty()
    }) + (if state.mixer {
        seq![Part::Mixer]
    } else {
        Seq::empty()
    })
}

impl AudioState {
    /// The same state with a part running or not.
    pub open spec fn with(self, part: Part, running: bool) -> Self {
        match part {
            Part::Mic => AudioState { mic: running, ..self },
            Part::System => AudioState { system: running, ..self },
            Part::Transcriber => AudioState { transcriber: running, ..self },
            Part::Mixer => AudioState { mixer: running, ..self },
        }
    }

    /// The capture is held by the recording that is under way.
    pub open spec fn in_step(self, activity: CaptureActivity) -> bool {
        self.is_recording ==> match activity {
            CaptureActivity::Recording { token, id, title, started_at } => self.current_session
                is Some && self.current_session->0.id@ == id@,
            CaptureActivity::FinishingRecording { token, id, title } => self.current_session
                is Some && self.current_session->0.id@ == id@,
            _ => false,
        }
    }

    /// Nothing is being recorded.
    pub fn new() -> (r: Self)
        ensures
            !r.is_recording,
            !r.mic,
            !r.system,
            !r.transcriber,
            !r.mixer,
            r.current_session is None,
            r.save_mix_only,
    {
        AudioState {
            is_recording: false,
            mic: false,
            system: false,
            transcriber: false,
            mixer: false,
            current_session: None,
            save_mix_only: true,
        }
    }

    /// Claims the capture for a recording.
    pub fn begin_start(&self, coordinator: &mut CaptureCoordinator) -> (r: Result<
        CaptureClaim,
        String,
    >)
        requires
            old(coordinator).wf(),
            old(coordinator).next_token < u64::MAX,
        ensures
            final(coordinator).wf(),
            final(coordinator).next_token == old(coordinator).next_token + if self.is_recording {
                0int
            } else {
                1
            },
            r is Ok == (!self.is_recording && old(coordinator).activity is Idle),
            match r {
                Ok(claim) => final(coordinator).activity == (CaptureActivity::StartingRecording {
                    token: claim.token,
                }) && !claim.committed && claim.kind
                    == crate::capture_coordinator::ClaimKind::Recording,
                Err(m) => final(coordinator).activity == old(coordinator).activity && m@
                    == if self.is_recording {
                    "Already recording"@
                } else {
                    old(coordinator).activity.busy()
                },
            },
    {
        if self.is_recording {
            return Err("Already recording".to_owned());
        }
        coordinator.claim_recording()
    }

    /// Takes in whether a part could be opened. Without a mixer the recording goes on;
    /// without the sound of the machine it goes on with a warning; without the
    /// microphone it does not begin.
    pub fn opened(&mut self, part: Part, outcome: Result<(), String>) -> (r: Opening)
        ensures
            match outcome {
                Ok(_) => r is Go && *final(self) == old(self).with(part, true),
                Err(e) => *final(self) == *old(self) && match part {
                    Part::Mixer => r is Go,
                    Part::System => r is Warn && r->Warn_0@ == "System audio unavailable: "@ + e@,
                    Part::Mic => r is Fail && r->Fail_0@ == "Microphone capture failed: "@ + e@,
                    Part::Transcriber => r is Fail && r->Fail_0@ == e@,
                },
            },
    {
        match outcome {
            Ok(_) => {
                match part {
                    Part::Mic => {
                        self.mic = true;
                    },
                    Part::System => {
                        self.system = true;
                    },
                    Part::Transcriber => {
                        self.transcriber = true;
                    },
                    Part::Mixer => {
                        self.mixer = true;
                    },
                }
                Opening::Go
            },
            Err(e) => match part {
                Part::Mixer => Opening::Go,
                Part::System => Opening::Warn(joined("System audio unavailable: ", e.as_str())),
                Part::Mic => Opening::Fail(joined("Microphone capture failed: ", e.as_str())),
                Part::Transcriber => Opening::Fail(e),
            },
        }
    }

    /// Keeps the claim, once everything is open.
    pub fn started(
        &mut self,
        coordinator: &mut CaptureCoordinator,
        claim: &mut CaptureClaim,
        metadata: RecordingMetadata,
        save_mix_only: bool,
        now: u64,
    )
        requires
            old(coordinator).wf(),
            old(coordinator).activity == (CaptureActivity::StartingRecording {
                token: old(claim).token,
            }),
        ensures
            final(coordinator).wf(),
            final(coordinator).next_token == old(coordinator).next_token,
            *final(claim) == (CaptureClaim { committed: true, ..*old(claim) }),
            *final(self) == (AudioState {
                is_recording: true,
                current_session: Some(metadata),
                save_mix_only,
                ..*old(self)
            }),
            final(coordinator).activity == (CaptureActivity::Recording {
                token: old(claim).token,
                id: metadata.id,
                title: metadata.title,
                started_at: now,
            }),
            final(self).in_step(final(coordinator).activity),
    {
        let id = metadata.id.clone();
        let title = metadata.title.clone();
        self.current_session = Some(metadata);
        self.save_mix_only = save_mix_only;
        self.is_recording = true;
        coordinator.activate_recording(claim, id, title, now);
        claim.commit();
    }

    /// Begins to stop. Gives the parts to stop, in order, or `None` where nothing is
    /// being recorded.
    pub fn begin_stop(&mut self, coordinator: &mut CaptureCoordinator) -> (r: Option<Vec<Part>>)
        requires
            old(coordinator).wf(),
        ensures
            final(coordinator).wf(),
            final(coordinator).next_token == old(coordinator).next_token,
            match r {
                None => !old(self).is_recording && *final(self) == *old(self)
                    && final(coordinator).activity == old(coordinator).activity,
                Some(parts) => {
                    &&& old(self).is_recording
                    &&& parts@ == stop_order(*old(self))
                    &&& *final(self) == (AudioState {
                        mic: false,
                        system: false,
                        transcriber: false,
                        mixer: false,
                        ..*old(self)
                    })
                    &&& final(coordinator).activity == match old(coordinator).activity {
                        CaptureActivity::Recording { token, id, title, started_at } =>
                            CaptureActivity::FinishingRecording { token, id, title },
                        other => other,
                    }
                    &&& old(self).in_step(old(coordinator).activity) ==> final(self).in_step(
                        final(coordinator).activity,
                    )
                },
            },
    {
        if !self.is_recording {
            return None;
        }
        coordinator.begin_finishing_recording();
        let parts = self.take_parts();
        Some(parts)
    }

    /// The application ends. Gives the parts to stop, in order, where a recording is under
    /// way.
    pub fn shut_down(&mut self) -> (r: Vec<Part>)
        ensures
            r@ == if old(self).is_recording {
                stop_order(*old(self))
            } else {
                Seq::empty()
            },
            *final(self) == if old(self).is_recording {
                AudioState {
                    mic: false,
                    system: false,
                    transcriber: false,
                    mixer: false,
                    ..*old(self)
                }
            } else {
                *old(self)
            },
    {
        if !self.is_recording {
            return Vec::new();
        }
        self.take_parts()
    }

    fn take_parts(&mut self) -> (r: Vec<Part>)
        ensures
            r@ == stop_order(*old(self)),
            *final(self) == (AudioState {
                mic: false,
                system: false,
                transcriber: false,
                mixer: false,
                ..*old(self)
            }),
    {
        let mut parts: Vec<Part> = Vec::new();
        if self.mic {
            parts.push(Part::Mic);
        }
        if self.system {
            parts.push(Part::System);
        }
        if self.transcriber {
            parts.push(Part::Transcriber);
        }
        if self.mixer {
            parts.push(Part::Mixer);
        }
        assert(parts@ =~= stop_order(*self));
        self.mic = false;
        self.system = false;
        self.transcriber = false;
        self.mixer = false;
        parts
    }

    /// Decides what becomes of the recording, once everything has stopped. One that is
    /// shorter than the settings ask for is removed, and the capture is free again.
    pub fn stopped(
        &mut self,
        coordinator: &mut CaptureCoordinator,
        duration_ms: u64,
        threshold_secs: u32,
    ) -> (r: StopOutcome)
        requires
            old(coordinator).wf(),
        ensures
            final(coordinator).wf(),
            final(coordinator).next_token == old(coordinator).next_token,
            *final(self) == (AudioState {
                is_recording: false,
                current_session: None,
                ..*old(self)
            }),
            r is Discard == (duration_ms < threshold_secs as int * 1000),
            match r {
                StopOutcome::Discard(id) => {
                    &&& id == match old(self).current_session {
                        Some(m) => Some(m.id),
                        None => None,
                    }
                    &&& final(coordinator).activity == if CaptureCoordinator::ends(
                        old(coordinator).activity,
                        crate::pipelines::name_view(id),
                    ) {
                        CaptureActivity::Idle
                    } else {
                        old(coordinator).activity
                    }
                },
                StopOutcome::Finalize(session) => {
                    &&& session == old(self).current_session
                    &&& final(coordinator).activity == if session is None
                        && CaptureCoordinator::ends(old(coordinator).activity, None) {
                        CaptureActivity::Idle
                    } else {
                        old(coordinator).activity
                    }
                },
            },
            r is Discard && old(self).is_recording && old(self).in_step(
                old(coordinator).activity,
            ) ==> final(coordinator).activity is Idle,
    {
        let session = self.current_session.take();
        self.is_recording = false;
        if duration_ms < threshold_secs as u64 * 1000 {
            match session {
                Some(m) => {
                    let id = m.id.clone();
                    coordinator.finish_recording(Some(id.as_str()));
                    StopOutcome::Discard(Some(id))
                },
                None => {
                    coordinator.finish_recording(None);
                    StopOutcome::Discard(None)
                },
            }
        } else {
            if session.is_none() {
                coordinator.finish_recording(None);
            }
            StopOutcome::Finalize(session)
        }
    }

    /// Checks that live transcription can begin for the recording `recording_id`.
    pub fn check_realtime(&self, recording_id: &str) -> (r: Result<(), String>)
        ensures
            if !self.is_recording {
                r is Err && r->Err_0@ == "No active recording"@
            } else {
                match self.current_session {
                    Some(m) => if m.id@ == recording_id@ {
                        r is Ok
                    } else {
                        r is Err && r->Err_0@ == mismatch(recording_id@, m.id@)
                    },
                    None => r is Err && r->Err_0@ == mismatch(recording_id@, "<none>"@),
                }
            },
    {
        if !self.is_recording {
            return Err("No active recording".to_owned());
        }
        match &self.current_session {
            Some(m) => if same(m.id.as_str(), recording_id) {
                Ok(())
            } else {
                Err(mismatch_error(recording_id, m.id.as_str()))
            },
            None => Err(mismatch_error(recording_id, "<none>")),
        }
    }

    /// Takes live transcription off. Says whether there was one to stop.
    pub fn take_transcriber(&mut self) -> (r: bool)
        ensures
            r == old(self).transcriber,
            *final(self) == old(self).with(Part::Transcriber, false),
    {
        let was = self.transcriber;
        self.transcriber = false;
        was
    }
}

/// The message about live transcription for another recording than the current one.
pub open spec fn mismatch(asked: Seq<char>, current: Seq<char>) -> Seq<char> {
    "recording_id '"@ + asked + "' does not match current recording '"@ + current + "'"@
}

fn mismatch_error(asked: &str, current: &str) -> (r: String)
    ensures
        r@ == mismatch(asked@, current@),
{
    let first = joined3("recording_id '", asked, "' does not match current recording '");
    joined3(first.as_str(), current, "'")
}

/// What live transcription does for the chosen engine.
#[derive(Clone, Copy, Debug, PartialEq, Eq, Structural)]
pub enum RealtimeStart {
    /// The engine cannot transcribe live: leave everything as it is.
    Unsupported,
    /// Stop what runs, and start nothing.
    StopOnly,
    /// Stop what runs, and start Apple's engine.
    AppleSpeech,
}

/// Decides what live transcription does.
pub fn realtime_start(config: &TranscriptionConfig) -> (r: RealtimeStart)
    ensures
        r == match config.provider {
            TranscriptionProvider::AppleSpeech => RealtimeStart::AppleSpeech,
            TranscriptionProvider::FluidAudio => RealtimeStart::StopOnly,
            TranscriptionProvider::Unknown => RealtimeStart::StopOnly,
            TranscriptionProvider::Qwen3 => RealtimeStart::Unsupported,
        },
{
    if !config.realtime_supported() {
        return RealtimeStart::Unsupported;
    }
    match config.provider {
        TranscriptionProvider::AppleSpeech => RealtimeStart::AppleSpeech,
        _ => RealtimeStart::StopOnly,
    }
}

/// Describes an audio file of a recording.
pub open spec fn describes(info: Option<AudioInfo>, file: Seq<char>, duration_ms: u64) -> bool {
    info matches Some(a) && a.file@ == file && a.duration_ms == duration_ms && a.sample_rate
        == 48000 && a.channels == 2
}

fn audio_info(file: &str, duration_ms: u64) -> (r: Option<AudioInfo>)
    ensures
        describes(r, file@, duration_ms),
{
    Some(AudioInfo { file: file.to_owned(), duration_ms, sample_rate: 48000, channels: 2 })
}

/// The metadata of a recording that is being saved: what is on disk, where it can be
/// read, else what the recording began with.
pub fn processing_metadata(
    on_disk: Option<RecordingMetadata>,
    in_memory: RecordingMetadata,
    save_mix_only: bool,
    duration_ms: u64,
) -> (r: RecordingMetadata)
    ensures
        ({
            let base = match on_disk {
                Some(m) => m,
                None => in_memory,
            };
            &&& r.status@ == "processing"@
            &&& r == (RecordingMetadata { status: r.status, audio: r.audio, ..base })
            &&& r.audio.mix == base.audio.mix
            &&& if save_mix_only {
                r.audio == base.audio
            } else {
                describes(r.audio.mic, "raw_mic.ogg"@, duration_ms) && describes(
                    r.audio.system,
                    "raw_system.ogg"@,
                    duration_ms,
                )
            }
        }),
{
    let mut m = match on_disk {
        Some(m) => m,
        None => in_memory,
    };
    m.status = "processing".to_owned();
    if !save_mix_only {
        m.audio.mic = audio_info("raw_mic.ogg", duration_ms);
        m.audio.system = audio_info("raw_system.ogg", duration_ms);
    }
    m
}

/// The metadata of a recording that has been saved.
pub fn finalize_recording(
    latest: RecordingMetadata,
    duration_ms: u64,
    save_mix_only: bool,
    mix_exists: bool,
) -> (r: RecordingMetadata)
    ensures
        r.status@ == "ready"@,
        r == (RecordingMetadata { status: r.status, audio: r.audio, ..latest }),
        if save_mix_only {
            r.audio.mic is None && r.audio.system is None
        } else {
            describes(r.audio.mic, "raw_mic.ogg"@, duration_ms) && describes(
                r.audio.system,
                "raw_system.ogg"@,
                duration_ms,
            )
        },
        if mix_exists {
            describes(r.audio.mix, "audio_mix.ogg"@, duration_ms)
        } else {
            r.audio.mix == latest.audio.mix
        },
{
    let mut m = latest;
    m.status = "ready".to_owned();
    if save_mix_only {
        m.audio.mic = None;
        m.audio.system = None;
    } else {
        m.audio.mic = audio_info("raw_mic.ogg", duration_ms);
        m.audio.system = audio_info("raw_system.ogg", duration_ms);
    }
    if mix_exists {
        m.audio.mix = audio_info("audio_mix.ogg", duration_ms);
    }
    m
}

/// The files to remove once a recording has been saved.
pub fn files_to_remove(save_mix_only: bool) -> (r: Vec<String>)
    ensures
        crate::text::views(r@) == if save_mix_only {
            seq!["raw_mic.ogg"@, "raw_system.ogg"@]
        } else {
            Seq::empty()
        },
{
    let mut out: Vec<String> = Vec::new();
    if save_mix_only {
        out.push("raw_mic.ogg".to_owned());
        out.push("raw_system.ogg".to_owned());
    }
    assert(crate::text::views(out@) =~= if save_mix_only {
        seq!["raw_mic.ogg"@, "raw_system.ogg"@]
    } else {
        Seq::empty()
    });
    out
}

/// The metadata of a recording that could not be saved.
pub fn failed_metadata(metadata: RecordingMetadata) -> (r: RecordingMetadata)
    ensures
        r.status@ == "error"@,
        r == (RecordingMetadata { status: r.status, ..metadata }),
{
    let mut m = metadata;
    m.status = "error".to_owned();
    m
}

/// Pausing is not there.
pub fn pause_recording() -> (r: Result<(), String>)
    ensures
        r is Err,
        r->Err_0@ == "Pause is not yet implemented"@,
{
    Err("Pause is not yet implemented".to_owned())
}

/// Resuming is not there.
pub fn resume_recording() -> (r: Result<(), String>)
    ensures
        r is Err,
        r->Err_0@ == "Resume is not yet implemented"@,
{
    Err("Resume is not yet implemented".to_owned())
}

/// The capture is free again after every recording: at once where it was discarded, and
/// otherwise when the saving of that recording is over.
pub proof fn law_capture_is_freed(state: AudioState, activity: CaptureActivity)
    requires
        state.is_recording,
        state.in_step(activity),
    ensures
        CaptureCoordinator::ends(activity, Some(state.current_session->0.id@)),
{
}

/// The parts to stop are those that run, each once: the microphone first, then the sound of
/// the machine, then live transcription, and the mixer last.
pub proof fn law_stop_order(state: AudioState)
    ensures
        ({
            let parts = stop_order(state);
            &&& parts.contains(Part::Mic) <==> state.mic
            &&& parts.contains(Part::System) <==> state.system
            &&& parts.contains(Part::Transcriber) <==> state.transcriber
            &&& parts.contains(Part::Mixer) <==> state.mixer
            &&& parts.no_duplicates()
            &&& state.mixer ==> parts.last() == Part::Mixer
            &&& state.mic ==> parts[0] == Part::Mic
            &&& forall|i: int, j: int|
                0 <= i < parts.len() && 0 <= j < parts.len() && (#[trigger] parts[i])
                    == Part::System && (#[trigger] parts[j]) == Part::Transcriber ==> i < j
        }),
{
    let parts = stop_order(state);
    let a: int = if state.mic {
        1
    } else {
        0
    };
    let b: int = if state.system {
        a + 1
    } else {
        a
    };
    let c: int = if state.transcriber {
        b + 1
    } else {
        b
    };
    if state.mic {
        assert(parts[0] == Part::Mic);
    }
    if state.system {
        assert(parts[a] == Part::System);
    }
    if state.transcriber {
        assert(parts[b] == Part::Transcriber);
    }
    if state.mixer {
        assert(parts[c] == Part::Mixer);
    }
}

/// A part that is opened or stopped leaves the others as they are.
pub proof fn law_parts_are_apart(state: AudioState, running: bool)
    ensures
        state.with(Part::Mic, running) == (AudioState { mic: running, ..state }),
        state.with(Part::System, running) == (AudioState { system: running, ..state }),
        state.with(Part::Transcriber, running) == (AudioState { transcriber: running, ..state }),
        state.with(Part::Mixer, running) == (AudioState { mixer: running, ..state }),
{
}

/// Megabytes are rounded to the nearest number, a half to an even one.
pub proof fn law_rounded_megabytes(bytes: nat)
    ensures
        ({
            let off = rounded_megabytes(bytes) * 1024 * 1024 - bytes;
            &&& -524288 <= off <= 524288
            &&& off == 524288 || off == -524288 ==> rounded_megabytes(bytes) % 2 == 0
        }),
{
}

} // verus!
