//! Recording calls that were detected, until the call ends or the user says no.
//!
//! Starting a recording takes a while. A call that ends, or that the user
//! ignores, in the meantime marks the session; when the start completes, the
//! recording of a marked session is stopped and deleted.

use crate::ids::{new_id, uuid_shape};
use crate::json::{json_result, parse, Json};
use crate::pipelines::{name_view, str_view};
use crate::storage::RecordingMetadata;
use crate::text::{joined, joined3, same};
use crate::time::{is_clock, local_clock};
use vstd::prelude::*;

verus! {

/// How far the session of a call is.
#[derive(Debug)]
pub enum CallStage {
    /// The recording is being started.
    Starting { abort_pending: bool },
    /// The recording is running and belongs to this session.
    Recording { id: String },
}

/// The session of a call.
#[derive(Debug)]
pub struct ActiveCall {
    pub session_id: String,
    pub call_app: Option<String>,
    pub stage: CallStage,
}

/// The session of the current call, if there is one.
#[derive(Debug)]
pub struct CallSessionState {
    pub active: Option<ActiveCall>,
}

/// What a detector reports of a call.
#[derive(Debug)]
pub enum CallEvent {
    Started { app: Option<String>, bundle_id: Option<String> },
    Ended,
    Other,
}

/// What a report means.
pub open spec fn call_event(payload: Json, event: CallEvent) -> bool {
    let stage = payload.member_text("stage"@);
    match event {
        CallEvent::Started { app, bundle_id } => {
            &&& stage == Some("started"@)
            &&& name_view(app) == payload.member_text("app"@)
            &&& name_view(bundle_id) == payload.member_text("bundle_id"@)
        },
        CallEvent::Ended => stage == Some("ended"@),
        CallEvent::Other => stage != Some("started"@) && stage != Some("ended"@),
    }
}

fn owned_text(value: Option<&String>) -> (r: Option<String>)
    ensures
        match value {
            Some(v) => r is Some && r->0@ == v@,
            None => r is None,
        },
{
    match value {
        Some(v) => Some(v.clone()),
        None => None,
    }
}

/// Reads a report.
pub fn read_call_event(payload: &Json) -> (r: CallEvent)
    ensures
        call_event(*payload, r),
{
    match payload.get_text("stage") {
        Some(stage) => {
            if same(stage.as_str(), "started") {
                CallEvent::Started {
                    app: owned_text(payload.get_text("app")),
                    bundle_id: owned_text(payload.get_text("bundle_id")),
                }
            } else if same(stage.as_str(), "ended") {
                CallEvent::Ended
            } else {
                CallEvent::Other
            }
        },
        None => CallEvent::Other,
    }
}

/// Reads the text of a report; `None` where it is not JSON.
pub fn parse_call_event(payload: &str) -> (r: Option<CallEvent>)
    ensures
        match r {
            Some(e) => json_result(payload@) is Ok && call_event(json_result(payload@)->Ok_0, e),
            None => json_result(payload@) is Err,
        },
{
    match parse(payload) {
        Ok(v) => Some(read_call_event(&v)),
        Err(_) => None,
    }
}

/// What becomes of a call that starts.
#[derive(Clone, Copy, Debug, PartialEq, Eq, Structural)]
pub enum StartDecision {
    /// This application itself has the microphone open.
    SelfActive,
    /// Another session goes on.
    Conflict,
    /// Start a recording for the new session.
    Begin,
}

/// A session that a new call may replace: none, one that is being aborted, or
/// one whose recording has ended without it noticing.
pub open spec fn replaceable(active: Option<ActiveCall>, audio_recording: bool) -> bool {
    match active {
        None => true,
        Some(s) => match s.stage {
            CallStage::Starting { abort_pending } => abort_pending,
            CallStage::Recording { id } => !audio_recording,
        },
    }
}

/// The session once the call ended, or was ignored, while starting.
pub open spec fn marked(s: ActiveCall) -> ActiveCall {
    ActiveCall { stage: CallStage::Starting { abort_pending: true }, ..s }
}

/// What remains of a session when its start has completed: it records, unless
/// it was marked or replaced.
pub open spec fn survives_start(active: Option<ActiveCall>, session_id: Seq<char>) -> bool {
    match active {
        Some(s) => s.session_id@ == session_id && s.stage == (CallStage::Starting {
            abort_pending: false,
        }),
        None => false,
    }
}

/// The active session is the given one.
pub open spec fn is_session(active: Option<ActiveCall>, session_id: Seq<char>) -> bool {
    match active {
        Some(s) => s.session_id@ == session_id,
        None => false,
    }
}

impl CallSessionState {
    /// No call.
    pub fn new() -> (r: Self)
        ensures
            r.active is None,
    {
        CallSessionState { active: None }
    }

    /// A call starts. `session_id` names the session that it gets.
    pub fn handle_started(
        &mut self,
        audio_recording: bool,
        dictation_active: bool,
        session_id: String,
        call_app: Option<String>,
    ) -> (r: StartDecision)
        ensures
            r == if audio_recording || dictation_active {
                StartDecision::SelfActive
            } else if replaceable(old(self).active, audio_recording) {
                StartDecision::Begin
            } else {
                StartDecision::Conflict
            },
            final(self).active == if r == StartDecision::Begin {
                Some(
                    ActiveCall {
                        session_id,
                        call_app,
                        stage: CallStage::Starting { abort_pending: false },
                    },
                )
            } else {
                old(self).active
            },
    {
        if audio_recording || dictation_active {
            return StartDecision::SelfActive;
        }
        let free = match &self.active {
            None => true,
            Some(s) => match &s.stage {
                CallStage::Starting { abort_pending } => *abort_pending,
                CallStage::Recording { id: _ } => true,
            },
        };
        if !free {
            return StartDecision::Conflict;
        }
        self.active = Some(
            ActiveCall {
                session_id,
                call_app,
                stage: CallStage::Starting { abort_pending: false },
            },
        );
        StartDecision::Begin
    }

    /// A call starts, under a fresh session identifier. Gives that identifier
    /// where a recording is to be started.
    pub fn call_started(
        &mut self,
        audio_recording: bool,
        dictation_active: bool,
        call_app: Option<String>,
    ) -> (r: Result<String, StartDecision>)
        ensures
            r is Ok == (!audio_recording && !dictation_active && replaceable(
                old(self).active,
                audio_recording,
            )),
            match r {
                Ok(id) => uuid_shape(id@) && final(self).active == Some(
                    ActiveCall {
                        session_id: id,
                        call_app,
                        stage: CallStage::Starting { abort_pending: false },
                    },
                ),
                Err(d) => final(self).active == old(self).active && d == if audio_recording
                    || dictation_active {
                    StartDecision::SelfActive
                } else {
                    StartDecision::Conflict
                },
            },
    {
        let id = new_id();
        let decision = self.handle_started(
            audio_recording,
            dictation_active,
            id.clone(),
            call_app,
        );
        if decision == StartDecision::Begin {
            Ok(id)
        } else {
            Err(decision)
        }
    }

    /// The recording `recording_id` of the session has started. Says whether it
    /// is to be stopped and deleted again.
    pub fn commit_start(&mut self, session_id: &str, recording_id: String) -> (abort: bool)
        ensures
            abort == !survives_start(old(self).active, session_id@),
            final(self).active == if !abort {
                Some(
                    ActiveCall {
                        stage: CallStage::Recording { id: recording_id },
                        ..old(self).active->0
                    },
                )
            } else if is_session(old(self).active, session_id@) {
                None
            } else {
                old(self).active
            },
    {
        let (ours, keeps) = match &self.active {
            Some(s) => (
                same(s.session_id.as_str(), session_id),
                match &s.stage {
                    CallStage::Starting { abort_pending } => !*abort_pending,
                    CallStage::Recording { id: _ } => false,
                },
            ),
            None => (false, false),
        };
        if !ours {
            return true;
        }
        if !keeps {
            self.active = None;
            return true;
        }
        match self.active.take() {
            Some(s) => {
                self.active = Some(
                    ActiveCall {
                        session_id: s.session_id,
                        call_app: s.call_app,
                        stage: CallStage::Recording { id: recording_id },
                    },
                );
            },
            None => {},
        }
        false
    }

    /// The recording of the session could not be started.
    pub fn start_failed(&mut self, session_id: &str)
        ensures
            final(self).active == if is_session(old(self).active, session_id@) {
                None
            } else {
                old(self).active
            },
    {
        let ours = match &self.active {
            Some(s) => same(s.session_id.as_str(), session_id),
            None => false,
        };
        if ours {
            self.active = None;
        }
    }

    /// The call ends, or the user ignores it. Gives the recording that the
    /// session owned; one that is still starting is marked instead.
    pub fn give_up(&mut self) -> (owned: Option<String>)
        ensures
            match old(self).active {
                None => owned is None && final(self).active is None,
                Some(s) => match s.stage {
                    CallStage::Starting { abort_pending } => owned is None
                        && final(self).active == Some(marked(s)),
                    CallStage::Recording { id } => owned == Some(id)
                        && final(self).active is None,
                },
            },
    {
        match self.active.take() {
            None => None,
            Some(s) => match s.stage {
                CallStage::Starting { abort_pending: _ } => {
                    self.active = Some(
                        ActiveCall {
                            session_id: s.session_id,
                            call_app: s.call_app,
                            stage: CallStage::Starting { abort_pending: true },
                        },
                    );
                    None
                },
                CallStage::Recording { id } => Some(id),
            },
        }
    }
}

/// Whether the recording that a session owned is the one that is running: only
/// then is it stopped.
pub fn still_current(current: Option<&str>, owned: &str) -> (r: bool)
    ensures
        r == (str_view(current) == Some(owned@)),
{
    match current {
        Some(c) => same(c, owned),
        None => false,
    }
}

/// A call that ended, or was ignored, while its recording was starting never
/// leaves a recording: the start is undone.
pub proof fn law_marked_session_aborts(s: ActiveCall, session_id: Seq<char>)
    ensures
        !survives_start(Some(marked(s)), session_id),
        replaceable(Some(marked(s)), true),
{
}

/// What the popup says where the recording could not be started.
pub fn start_error(error: &str) -> (r: String)
    ensures
        r@ == "Recording failed: "@ + error@,
{
    joined("Recording failed: ", error)
}

/// The title of the recording of a call: the application and the time of day.
pub open spec fn call_title(call_app: Option<Seq<char>>, clock: Seq<char>) -> Seq<char> {
    (match call_app {
        Some(a) => a,
        None => "Call"@,
    }) + " · "@ + clock
}

/// The title of the recording of a call at the given time of day.
pub fn call_title_at(call_app: Option<&str>, clock: &str) -> (r: String)
    ensures
        r@ == call_title(str_view(call_app), clock@),
{
    match call_app {
        Some(a) => joined3(a, " · ", clock),
        None => joined3("Call", " · ", clock),
    }
}

/// The metadata of the recording of a call.
pub fn label_call_at(
    metadata: RecordingMetadata,
    call_app: Option<String>,
    bundle_id: Option<String>,
    clock: &str,
) -> (r: RecordingMetadata)
    ensures
        r == (RecordingMetadata {
            title: r.title,
            app_bundle_id: bundle_id,
            app_friendly_name: call_app,
            source: r.source,
            ..metadata
        }),
        r.title@ == call_title(name_view(call_app), clock@),
        r.source@ == "call"@,
{
    let title = match &call_app {
        Some(a) => call_title_at(Some(a.as_str()), clock),
        None => call_title_at(None, clock),
    };
    let mut m = metadata;
    m.title = title;
    m.app_bundle_id = bundle_id;
    m.app_friendly_name = call_app;
    m.source = "call".to_owned();
    m
}

/// The metadata of the recording of a call that starts now.
pub fn label_call(
    metadata: RecordingMetadata,
    call_app: Option<String>,
    bundle_id: Option<String>,
) -> (r: RecordingMetadata)
    ensures
        r == (RecordingMetadata {
            title: r.title,
            app_bundle_id: bundle_id,
            app_friendly_name: call_app,
            source: r.source,
            ..metadata
        }),
        exists|clock: Seq<char>|
            is_clock(clock) && r.title@ == #[trigger] call_title(name_view(call_app), clock),
        r.source@ == "call"@,
{
    let clock = local_clock();
    label_call_at(metadata, call_app, bundle_id, clock.as_str())
}

/// A call that is being taken up, or recorded, is not replaced; without one, or once its
/// start is to be undone, or its recording is over, the next call comes in.
pub proof fn law_replaceable(s: ActiveCall, id: String, audio_recording: bool)
    ensures
        replaceable(None, audio_recording),
        s.stage == (CallStage::Starting { abort_pending: false }) ==> !replaceable(
            Some(s),
            audio_recording,
        ),
        s.stage == (CallStage::Starting { abort_pending: true }) ==> replaceable(
            Some(s),
            audio_recording,
        ),
        s.stage == (CallStage::Recording { id }) ==> replaceable(Some(s), audio_recording)
            == !audio_recording,
{
}

/// A start that completes goes on for the session that it was for, while nothing came
/// between; marking a session keeps everything else about it.
pub proof fn law_survives_start(s: ActiveCall, session_id: Seq<char>)
    ensures
        s.session_id@ == session_id && s.stage == (CallStage::Starting { abort_pending: false })
            ==> survives_start(Some(s), session_id),
        s.session_id@ != session_id ==> !survives_start(Some(s), session_id) && !is_session(
            Some(s),
            session_id,
        ),
        s.session_id@ == session_id ==> is_session(Some(s), session_id),
        s.stage is Recording ==> !survives_start(Some(s), session_id),
        !survives_start(None, session_id),
        marked(s).session_id == s.session_id,
{
}

/// The recording of a call is called by the application and the time of day.
pub proof fn law_call_title(app: Seq<char>, clock: Seq<char>)
    ensures
        call_title(Some(app), clock) == app + seq![' ', '·', ' '] + clock,
        call_title(None, clock) == seq!['C', 'a', 'l', 'l'] + seq![' ', '·', ' '] + clock,
{
    reveal_strlit(" · ");
    reveal_strlit("Call");
    assert(" · "@ =~= seq![' ', '·', ' ']);
    assert("Call"@ =~= seq!['C', 'a', 'l', 'l']);
}

/// A report that a call started or ended is read so, and one of another stage is neither.
pub proof fn law_call_event(payload: Json, event: CallEvent)
    requires
        call_event(payload, event),
    ensures
        event is Started <==> payload.member_text("stage"@) == Some("started"@),
        event is Ended <==> payload.member_text("stage"@) == Some("ended"@),
        event matches CallEvent::Started { app, bundle_id } ==> name_view(app)
            == payload.member_text("app"@) && name_view(bundle_id) == payload.member_text(
            "bundle_id"@,
        ),
{
    reveal_strlit("started");
    reveal_strlit("ended");
    assert("started"@.len() == 7 && "ended"@.len() == 5);
}

} // verus!
