//! One request to the resident transcriber, from its caller's side.

use crate::config::TranscriptionConfig;
use crate::parakeet_worker::protocol::{ResidentRequest, WorkerCommand};
use crate::text::{joined3, same};
use vstd::prelude::*;

verus! {

/// What a caller is told when an answer comes too late.
pub const TRANSCRIPTION_TIMEOUT_ERROR: &'static str = "resident Parakeet transcription timed out";

/// What a caller is told when there is no supervisor.
pub const NOT_RUNNING_ERROR: &'static str = "resident Parakeet is not running";

/// What a caller is told when the supervisor went away.
pub const STOPPED_ERROR: &'static str = "resident Parakeet stopped";

/// The name of the file that holds what is to be transcribed.
pub fn temp_name(id: &str) -> (r: String)
    ensures
        r@ == "nbp-dict-"@ + id@ + ".wav"@,
{
    joined3("nbp-dict-", id, ".wav")
}

/// The list of words that goes along: where the words are to be written another
/// way, and the list is there.
pub fn vocabulary<'a>(config: &TranscriptionConfig, path: &'a str, there: bool) -> (r: Option<&'a str>)
    ensures
        r == if config.translit_lang@ != "off"@ && there {
            Some(path)
        } else {
            None
        },
{
    if !same(config.translit_lang.as_str(), "off") && there {
        Some(path)
    } else {
        None
    }
}

/// The request to transcribe the file `wav_path`.
pub fn build_request(
    id: String,
    wav_path: String,
    config: &TranscriptionConfig,
    vocab_path: &str,
    vocab_there: bool,
) -> (r: ResidentRequest)
    ensures
        r.id == id,
        r.operation@ == "transcribe"@,
        r.wav_path == Some(wav_path),
        match r.vocab_path {
            Some(p) => config.translit_lang@ != "off"@ && vocab_there && p@ == vocab_path@,
            None => config.translit_lang@ == "off"@ || !vocab_there,
        },
        r.translit_threshold@ == config.translit_threshold@,
        r.translit_min_len == config.translit_min_len,
{
    let vocabulary = match vocabulary(config, vocab_path, vocab_there) {
        Some(p) => Some(p.to_owned()),
        None => None,
    };
    ResidentRequest::transcribe(
        id,
        wav_path,
        vocabulary,
        config.translit_threshold.clone(),
        config.translit_min_len,
    )
}

/// Cancels a request that nobody waits for any more.
#[derive(Debug)]
pub struct CancelOnDrop {
    /// The request, as long as it may still have to be cancelled.
    pub id: Option<String>,
}

impl CancelOnDrop {
    /// Watches over the request `id`.
    pub fn new(id: String) -> (r: Self)
        ensures
            r.id == Some(id),
    {
        CancelOnDrop { id: Some(id) }
    }

    /// The request has been answered.
    pub fn disarm(&mut self)
        ensures
            final(self).id is None,
    {
        self.id = None;
    }

    /// The answer came too late. Gives the command to send.
    pub fn cancel_timed_out(&mut self) -> (r: Option<WorkerCommand>)
        ensures
            final(self).id is None,
            r == match old(self).id {
                Some(id) => Some((WorkerCommand::Cancel { id, restart_if_queued: true })),
                None => None,
            },
    {
        match self.id.take() {
            Some(id) => Some(WorkerCommand::Cancel { id, restart_if_queued: true }),
            None => None,
        }
    }

    /// The caller went away. Gives the command to send.
    pub fn dropped(&mut self) -> (r: Option<WorkerCommand>)
        ensures
            final(self).id is None,
            r == match old(self).id {
                Some(id) => Some((WorkerCommand::Cancel { id, restart_if_queued: false })),
                None => None,
            },
    {
        match self.id.take() {
            Some(id) => Some(WorkerCommand::Cancel { id, restart_if_queued: false }),
            None => None,
        }
    }
}

/// What came of waiting.
#[derive(Debug)]
pub enum Waited<T> {
    Came(T),
    /// The other side went away.
    Closed,
    TimedOut,
}

/// What to do once the transcriber has, or has not, been handed the request.
#[derive(Debug)]
pub enum AckStep {
    /// Wait for the answer, with the request's own time limit.
    WaitLimited,
    /// Wait for the answer, however long it takes: the request was turned down.
    WaitOpen,
    /// Give up.
    Fail { error: String, cancel: Option<WorkerCommand> },
}

/// Takes in whether the request was handed to the transcriber. Time spent on
/// loading does not count towards the limit on the transcription.
pub fn acknowledged(guard: &mut CancelOnDrop, ack: Waited<()>) -> (r: AckStep)
    ensures
        match ack {
            Waited::Came(_) => r is WaitLimited && final(guard).id == old(guard).id,
            Waited::Closed => r is WaitOpen && final(guard).id is None,
            Waited::TimedOut => {
                &&& final(guard).id is None
                &&& r matches AckStep::Fail { error, cancel }
                &&& error@ == TRANSCRIPTION_TIMEOUT_ERROR@
                &&& cancel == match old(guard).id {
                    Some(id) => Some((WorkerCommand::Cancel { id, restart_if_queued: true })),
                    None => None,
                }
            },
        },
{
    match ack {
        Waited::Came(_) => AckStep::WaitLimited,
        Waited::Closed => {
            guard.disarm();
            AckStep::WaitOpen
        },
        Waited::TimedOut => AckStep::Fail {
            error: TRANSCRIPTION_TIMEOUT_ERROR.to_owned(),
            cancel: guard.cancel_timed_out(),
        },
    }
}

/// Takes in the answer. Gives what the caller is told, and the command to send.
pub fn answered(guard: &mut CancelOnDrop, reply: Waited<Result<String, String>>) -> (r: (
    Result<String, String>,
    Option<WorkerCommand>,
))
    ensures
        final(guard).id is None,
        match reply {
            Waited::Came(result) => r.0 == result && r.1 is None,
            Waited::Closed => r.0 is Err && r.0->Err_0@ == STOPPED_ERROR@ && r.1 is None,
            Waited::TimedOut => {
                &&& r.0 is Err
                &&& r.0->Err_0@ == TRANSCRIPTION_TIMEOUT_ERROR@
                &&& r.1 == match old(guard).id {
                    Some(id) => Some((WorkerCommand::Cancel { id, restart_if_queued: true })),
                    None => None,
                }
            },
        },
{
    match reply {
        Waited::Came(result) => {
            guard.disarm();
            (result, None)
        },
        Waited::Closed => {
            guard.disarm();
            (Err(STOPPED_ERROR.to_owned()), None)
        },
        Waited::TimedOut => {
            let cancel = guard.cancel_timed_out();
            (Err(TRANSCRIPTION_TIMEOUT_ERROR.to_owned()), cancel)
        },
    }
}

} // verus!
