//! The resident transcriber: a process that stays loaded between dictations.

use crate::config::{AppSettings, TranscriptionProvider};
use crate::text::same;
use vstd::prelude::*;

pub mod protocol;
pub mod request;
pub mod supervisor;
pub mod warmup;

verus! {

/// The resident transcriber is wanted only for dictation with Parakeet, and only
/// where the model is to be kept ready. An engine of an older settings file counts
/// as Parakeet.
pub open spec fn wanted(settings: AppSettings) -> bool {
    settings.dictation.enabled && (settings.transcription.provider
        == TranscriptionProvider::FluidAudio || settings.transcription.provider
        == TranscriptionProvider::Unknown) && settings.transcription.keep_model_ready
}

/// Says whether the settings ask for a resident transcriber.
pub fn configured(settings: &AppSettings) -> (r: bool)
    ensures
        r == wanted(*settings),
{
    settings.dictation.enabled && (settings.transcription.provider
        == TranscriptionProvider::FluidAudio || settings.transcription.provider
        == TranscriptionProvider::Unknown) && settings.transcription.keep_model_ready
}

/// Where the one supervisor stands. A supervisor is known by a number.
#[derive(Clone, Copy, Debug, PartialEq, Eq, Structural)]
pub enum RuntimeSlot {
    Stopped,
    Running(u64),
    /// Told to stop, and not gone yet.
    Stopping(u64),
    /// The application ends; a supervisor may still be on its way out.
    ShuttingDown(Option<u64>),
}

/// What is to be done about a supervisor.
#[derive(Clone, Copy, Debug, PartialEq, Eq, Structural)]
pub enum SlotAction {
    Nothing,
    Start(u64),
    Stop(u64),
}

/// The slot and the action once the settings have been read again.
pub open spec fn reconciled(slot: RuntimeSlot, enabled: bool, fresh: u64) -> (
    RuntimeSlot,
    SlotAction,
) {
    match slot {
        RuntimeSlot::Stopped if enabled => (RuntimeSlot::Running(fresh), SlotAction::Start(fresh)),
        RuntimeSlot::Running(id) if !enabled => (RuntimeSlot::Stopping(id), SlotAction::Stop(id)),
        _ => (slot, SlotAction::Nothing),
    }
}

/// The slot and the action once a supervisor is gone.
pub open spec fn stop_finished(slot: RuntimeSlot, enabled: bool, fresh: u64) -> (
    RuntimeSlot,
    SlotAction,
) {
    match slot {
        RuntimeSlot::Stopping(_) => if enabled {
            (RuntimeSlot::Running(fresh), SlotAction::Start(fresh))
        } else {
            (RuntimeSlot::Stopped, SlotAction::Nothing)
        },
        _ => (slot, SlotAction::Nothing),
    }
}

/// The slot and the action once the supervisor `id` has not answered.
pub open spec fn found_unhealthy(slot: RuntimeSlot, id: u64) -> (RuntimeSlot, SlotAction) {
    match slot {
        RuntimeSlot::Running(current) if current == id => (
            RuntimeSlot::Stopping(id),
            SlotAction::Stop(id),
        ),
        _ => (slot, SlotAction::Nothing),
    }
}

/// The slot and the action once the application ends.
pub open spec fn shut_down(slot: RuntimeSlot) -> (RuntimeSlot, SlotAction) {
    match slot {
        RuntimeSlot::Running(id) => (RuntimeSlot::ShuttingDown(Some(id)), SlotAction::Stop(id)),
        RuntimeSlot::Stopping(id) => (RuntimeSlot::ShuttingDown(Some(id)), SlotAction::Nothing),
        RuntimeSlot::ShuttingDown(_) => (slot, SlotAction::Nothing),
        RuntimeSlot::Stopped => (RuntimeSlot::ShuttingDown(None), SlotAction::Nothing),
    }
}

/// The one place for a supervisor.
#[derive(Debug)]
pub struct ParakeetWorkerState {
    pub runtime: RuntimeSlot,
}

impl ParakeetWorkerState {
    /// No supervisor.
    pub fn new() -> (r: Self)
        ensures
            r.runtime == RuntimeSlot::Stopped,
    {
        ParakeetWorkerState { runtime: RuntimeSlot::Stopped }
    }

    /// Starts or stops the supervisor as the settings ask. `fresh` numbers one
    /// that has to be started.
    pub fn reconcile(&mut self, enabled: bool, fresh: u64) -> (r: SlotAction)
        ensures
            (final(self).runtime, r) == reconciled(old(self).runtime, enabled, fresh),
    {
        match self.runtime {
            RuntimeSlot::Stopped => if enabled {
                self.runtime = RuntimeSlot::Running(fresh);
                SlotAction::Start(fresh)
            } else {
                SlotAction::Nothing
            },
            RuntimeSlot::Running(id) => if enabled {
                SlotAction::Nothing
            } else {
                self.runtime = RuntimeSlot::Stopping(id);
                SlotAction::Stop(id)
            },
            _ => SlotAction::Nothing,
        }
    }

    /// Takes note that a supervisor is gone, and starts another where the settings
    /// have come to ask for one.
    pub fn finish_stop(&mut self, enabled: bool, fresh: u64) -> (r: SlotAction)
        ensures
            (final(self).runtime, r) == stop_finished(old(self).runtime, enabled, fresh),
    {
        match self.runtime {
            RuntimeSlot::Stopping(_) => if enabled {
                self.runtime = RuntimeSlot::Running(fresh);
                SlotAction::Start(fresh)
            } else {
                self.runtime = RuntimeSlot::Stopped;
                SlotAction::Nothing
            },
            _ => SlotAction::Nothing,
        }
    }

    /// Stops the supervisor `id`, if it is still the current one.
    pub fn replace_unhealthy(&mut self, id: u64) -> (r: SlotAction)
        ensures
            (final(self).runtime, r) == found_unhealthy(old(self).runtime, id),
    {
        match self.runtime {
            RuntimeSlot::Running(current) => if current == id {
                self.runtime = RuntimeSlot::Stopping(id);
                SlotAction::Stop(id)
            } else {
                SlotAction::Nothing
            },
            _ => SlotAction::Nothing,
        }
    }

    /// The application ends. Gives the action, and the supervisor whose end is to
    /// be waited for.
    pub fn shutdown(&mut self) -> (r: (SlotAction, Option<u64>))
        ensures
            (final(self).runtime, r.0) == shut_down(old(self).runtime),
            final(self).runtime == RuntimeSlot::ShuttingDown(r.1),
    {
        match self.runtime {
            RuntimeSlot::Running(id) => {
                self.runtime = RuntimeSlot::ShuttingDown(Some(id));
                (SlotAction::Stop(id), Some(id))
            },
            RuntimeSlot::Stopping(id) => {
                self.runtime = RuntimeSlot::ShuttingDown(Some(id));
                (SlotAction::Nothing, Some(id))
            },
            RuntimeSlot::ShuttingDown(wait) => (SlotAction::Nothing, wait),
            RuntimeSlot::Stopped => {
                self.runtime = RuntimeSlot::ShuttingDown(None);
                (SlotAction::Nothing, None)
            },
        }
    }

    /// The supervisor to which requests go.
    pub fn running(&self) -> (r: Option<u64>)
        ensures
            r == match self.runtime {
                RuntimeSlot::Running(id) => Some(id),
                _ => None,
            },
    {
        match self.runtime {
            RuntimeSlot::Running(id) => Some(id),
            _ => None,
        }
    }
}

/// Nothing is started once the application ends, whatever the settings come to say
/// and whichever supervisor goes.
pub proof fn law_no_start_after_shutdown(slot: RuntimeSlot, enabled: bool, fresh: u64)
    ensures
        ({
            let down = shut_down(slot).0;
            &&& down is ShuttingDown
            &&& reconciled(down, enabled, fresh) == (down, SlotAction::Nothing)
            &&& stop_finished(down, enabled, fresh) == (down, SlotAction::Nothing)
            &&& found_unhealthy(down, fresh) == (down, SlotAction::Nothing)
            &&& shut_down(down) == (down, SlotAction::Nothing)
        }),
{
}

/// A supervisor is started only while no other one runs or is on its way out, and
/// is then the one that runs.
pub proof fn law_one_at_a_time(slot: RuntimeSlot, enabled: bool, fresh: u64)
    ensures
        reconciled(slot, enabled, fresh).1 is Start ==> slot is Stopped && reconciled(
            slot,
            enabled,
            fresh,
        ).0 == RuntimeSlot::Running(fresh),
        stop_finished(slot, enabled, fresh).1 is Start ==> slot is Stopping && stop_finished(
            slot,
            enabled,
            fresh,
        ).0 == RuntimeSlot::Running(fresh),
{
}

/// Switching off and on again while a supervisor is on its way out starts the next
/// one as soon as it is gone.
pub proof fn law_switched_back_on(id: u64, fresh: u64)
    ensures
        ({
            let off = reconciled(RuntimeSlot::Running(id), false, fresh);
            let on = reconciled(off.0, true, fresh);
            &&& off.1 == SlotAction::Stop(id)
            &&& on.1 == SlotAction::Nothing
            &&& stop_finished(on.0, true, fresh) == (
                RuntimeSlot::Running(fresh),
                SlotAction::Start(fresh),
            )
        }),
{
}

/// What became of the question whether the supervisor is well.
#[derive(Debug)]
pub enum Health {
    /// There was none to ask, or it could not be asked.
    NotRunning,
    /// It did not answer within five seconds.
    TimedOut,
    /// It went away without an answer.
    Closed,
    Answered(Result<(), String>),
}

/// What follows after the machine woke up. A warm-up follows in any case.
#[derive(Clone, Copy, Debug, PartialEq, Eq, Structural)]
pub enum WakeMove {
    /// Read the settings again first.
    Reconcile,
    /// Leave the supervisor alone.
    Keep,
    /// Stop the supervisor and wait until it is gone.
    Replace,
}

/// Decides after the machine woke up. A transcriber that is still loading is not
/// dead.
pub fn wake_move(health: &Health) -> (r: WakeMove)
    ensures
        r == match health {
            Health::NotRunning => WakeMove::Reconcile,
            Health::Answered(Ok(_)) => WakeMove::Keep,
            Health::Answered(Err(m)) => if m@ == protocol::not_ready() {
                WakeMove::Keep
            } else {
                WakeMove::Replace
            },
            _ => WakeMove::Replace,
        },
{
    match health {
        Health::NotRunning => WakeMove::Reconcile,
        Health::Answered(Ok(_)) => WakeMove::Keep,
        Health::Answered(Err(m)) => if same(m.as_str(), "resident Parakeet is not ready") {
            WakeMove::Keep
        } else {
            WakeMove::Replace
        },
        _ => WakeMove::Replace,
    }
}

/// A resident transcriber that is switched on, kept ready and fit for the engine is wanted;
/// without any one of these it is not.
pub proof fn law_wanted(settings: AppSettings)
    ensures
        !settings.dictation.enabled ==> !wanted(settings),
        !settings.transcription.keep_model_ready ==> !wanted(settings),
        settings.transcription.provider == TranscriptionProvider::AppleSpeech
            || settings.transcription.provider == TranscriptionProvider::Qwen3 ==> !wanted(
            settings,
        ),
        settings.dictation.enabled && settings.transcription.keep_model_ready
            && settings.transcription.provider == TranscriptionProvider::FluidAudio ==> wanted(
            settings,
        ),
{
}

/// What is switched on is started and what is switched off is stopped; a supervisor that
/// does not answer is stopped only while it is the current one.
pub proof fn law_slot_moves(id: u64, other: u64, fresh: u64)
    ensures
        reconciled(RuntimeSlot::Stopped, true, fresh) == (
            RuntimeSlot::Running(fresh),
            SlotAction::Start(fresh),
        ),
        reconciled(RuntimeSlot::Stopped, false, fresh) == (
            RuntimeSlot::Stopped,
            SlotAction::Nothing,
        ),
        reconciled(RuntimeSlot::Running(id), true, fresh) == (
            RuntimeSlot::Running(id),
            SlotAction::Nothing,
        ),
        stop_finished(RuntimeSlot::Stopping(id), false, fresh) == (
            RuntimeSlot::Stopped,
            SlotAction::Nothing,
        ),
        stop_finished(RuntimeSlot::Running(id), false, fresh) == (
            RuntimeSlot::Running(id),
            SlotAction::Nothing,
        ),
        found_unhealthy(RuntimeSlot::Running(id), id) == (
            RuntimeSlot::Stopping(id),
            SlotAction::Stop(id),
        ),
        other != id ==> found_unhealthy(RuntimeSlot::Running(id), other) == (
            RuntimeSlot::Running(id),
            SlotAction::Nothing,
        ),
        shut_down(RuntimeSlot::Running(id)) == (
            RuntimeSlot::ShuttingDown(Some(id)),
            SlotAction::Stop(id),
        ),
        shut_down(RuntimeSlot::Stopping(id)) == (
            RuntimeSlot::ShuttingDown(Some(id)),
            SlotAction::Nothing,
        ),
{
}

} // verus!
