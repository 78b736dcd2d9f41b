//! The transcript that grows while a recording is under way.

use crate::streaming::StreamEvent;
use crate::text::joined3;
use vstd::prelude::*;

verus! {

/// Something that transcribes live and can be told to stop.
pub trait RealtimeTranscriberHandle: Send {
    fn stop(&mut self);
}

/// What is left of a transcriber that ran in this process. It cannot be started.
#[derive(Debug)]
pub struct LocalTranscriber {}

impl LocalTranscriber {
    /// Always refuses.
    pub fn start(model_path: &str, recording_id: &str) -> (r: Result<Self, String>)
        ensures
            r is Err,
            r->Err_0@
                == "Local whisper realtime is disabled — pick AppleSpeech or FluidAudio"@,
    {
        Err("Local whisper realtime is disabled — pick AppleSpeech or FluidAudio".to_owned())
    }

    /// Does nothing.
    pub fn stop(&mut self)
        ensures
            *final(self) == *old(self),
    {
    }
}

impl RealtimeTranscriberHandle for LocalTranscriber {
    fn stop(&mut self) {
        LocalTranscriber::stop(self);
    }
}

/// Two texts with a space between them; an empty one counts for nothing.
pub open spec fn spaced(a: Seq<char>, b: Seq<char>) -> Seq<char> {
    if a.len() == 0 {
        b
    } else {
        a + " "@ + b
    }
}

/// The words that will not change any more.
#[derive(Debug)]
pub struct RealtimeTranscript {
    pub settled: String,
}

/// What a report leads to.
#[derive(Debug)]
pub enum RealtimeUpdate {
    Nothing,
    /// The transcript reads like this now.
    Transcript(String),
    Error(String),
}

impl RealtimeTranscript {
    /// Nothing has been said.
    pub fn new() -> (r: Self)
        ensures
            r.settled@.len() == 0,
    {
        RealtimeTranscript { settled: String::new() }
    }

    /// Takes in a report. Words that may still change are shown after the settled ones;
    /// words that are final are settled.
    pub fn handle(&mut self, event: StreamEvent) -> (r: RealtimeUpdate)
        ensures
            match event {
                StreamEvent::Ready => r is Nothing && *final(self) == *old(self),
                StreamEvent::Partial { text } => r is Transcript && r->Transcript_0@ == spaced(
                    old(self).settled@,
                    text@,
                ) && *final(self) == *old(self),
                StreamEvent::Final { text } => {
                    &&& final(self).settled@ == if text@.len() == 0 {
                        old(self).settled@
                    } else {
                        spaced(old(self).settled@, text@)
                    }
                    &&& r is Transcript
                    &&& r->Transcript_0@ == final(self).settled@
                },
                StreamEvent::Error { message } => r is Error && r->Error_0 == message
                    && *final(self) == *old(self),
            },
    {
        match event {
            StreamEvent::Ready => RealtimeUpdate::Nothing,
            StreamEvent::Partial { text } => if self.settled.as_str().is_empty() {
                RealtimeUpdate::Transcript(text)
            } else {
                RealtimeUpdate::Transcript(joined3(self.settled.as_str(), " ", text.as_str()))
            },
            StreamEvent::Final { text } => {
                if !text.as_str().is_empty() {
                    self.settled = if self.settled.as_str().is_empty() {
                        text
                    } else {
                        joined3(self.settled.as_str(), " ", text.as_str())
                    };
                }
                RealtimeUpdate::Transcript(self.settled.clone())
            },
            StreamEvent::Error { message } => RealtimeUpdate::Error(message),
        }
    }
}

/// What has settled stays: words that come later only follow it.
pub proof fn law_settled_stays(settled: Seq<char>, text: Seq<char>)
    ensures
        settled.len() <= spaced(settled, text).len(),
        spaced(settled, text).take(settled.len() as int) == settled,
{
    assert(spaced(settled, text).take(settled.len() as int) =~= settled);
}

/// Words follow one another with a space between them; the first ones stand alone.
pub proof fn law_spaced(settled: Seq<char>, text: Seq<char>)
    ensures
        settled.len() > 0 ==> spaced(settled, text) == settled.push(' ') + text,
        settled.len() == 0 ==> spaced(settled, text) == text,
{
    reveal_strlit(" ");
    assert(settled + " "@ =~= settled.push(' '));
}

} // verus!
