//! One capture at a time: recording and dictation share the microphone.
//!
//! Starting claims the capture before any audio is touched. A claim that is not
//! committed is given back. Every claim has a token of its own, so that what an
//! older capture still does cannot disturb a newer one.

use crate::text::same;
use vstd::prelude::*;

verus! {

/// What a dictation is for.
#[derive(Debug)]
pub struct DictationContext {
    pub name: String,
    pub pipeline: Option<String>,
    pub auto_paste: bool,
}

impl DictationContext {
    fn copy(&self) -> (r: Self)
        ensures
            r == *self,
    {
        let pipeline = match &self.pipeline {
            Some(p) => Some(p.clone()),
            None => None,
        };
        DictationContext { name: self.name.clone(), pipeline, auto_paste: self.auto_paste }
    }
}

/// What is done with a dictation once it is captured.
#[derive(Clone, Copy, Debug, PartialEq, Eq, Structural)]
pub enum DictationPhase {
    ReadingClipboard,
    Transcribing,
    Processing,
    Pasting,
}

/// What is being captured. Times are milliseconds of a steady clock.
#[derive(Debug)]
pub enum CaptureActivity {
    Idle,
    StartingRecording { token: u64 },
    Recording { token: u64, id: String, title: String, started_at: u64 },
    FinishingRecording { token: u64, id: String, title: String },
    StartingDictation { token: u64, context: DictationContext },
    Dictating { token: u64, context: DictationContext, started_at: u64 },
    DictationProcessing { token: u64, context: DictationContext, phase: DictationPhase },
}

/// Who claims the capture.
#[derive(Clone, Copy, Debug, PartialEq, Eq, Structural)]
pub enum ClaimKind {
    Recording,
    Dictation,
}

impl CaptureActivity {
    /// Who holds the capture, and under which token.
    pub open spec fn holder(self) -> Option<(ClaimKind, u64)> {
        match self {
            CaptureActivity::Idle => None,
            CaptureActivity::StartingRecording { token } => Some((ClaimKind::Recording, token)),
            CaptureActivity::Recording { token, id, title, started_at } => Some(
                (ClaimKind::Recording, token),
            ),
            CaptureActivity::FinishingRecording { token, id, title } => Some(
                (ClaimKind::Recording, token),
            ),
            CaptureActivity::StartingDictation { token, context } => Some(
                (ClaimKind::Dictation, token),
            ),
            CaptureActivity::Dictating { token, context, started_at } => Some(
                (ClaimKind::Dictation, token),
            ),
            CaptureActivity::DictationProcessing { token, context, phase } => Some(
                (ClaimKind::Dictation, token),
            ),
        }
    }

    /// Who holds the capture, and under which token.
    pub fn held_by(&self) -> (r: Option<(ClaimKind, u64)>)
        ensures
            r == self.holder(),
    {
        match self {
            CaptureActivity::Idle => None,
            CaptureActivity::StartingRecording { token } => Some((ClaimKind::Recording, *token)),
            CaptureActivity::Recording { token, id: _, title: _, started_at: _ } => Some(
                (ClaimKind::Recording, *token),
            ),
            CaptureActivity::FinishingRecording { token, id: _, title: _ } => Some(
                (ClaimKind::Recording, *token),
            ),
            CaptureActivity::StartingDictation { token, context: _ } => Some(
                (ClaimKind::Dictation, *token),
            ),
            CaptureActivity::Dictating { token, context: _, started_at: _ } => Some(
                (ClaimKind::Dictation, *token),
            ),
            CaptureActivity::DictationProcessing { token, context: _, phase: _ } => Some(
                (ClaimKind::Dictation, *token),
            ),
        }
    }

    /// The recording that is being made or saved.
    pub open spec fn recording_id(self) -> Option<Seq<char>> {
        match self {
            CaptureActivity::Recording { token, id, title, started_at } => Some(id@),
            CaptureActivity::FinishingRecording { token, id, title } => Some(id@),
            _ => None,
        }
    }

    /// What the dictation is for.
    pub open spec fn dictation(self) -> Option<DictationContext> {
        match self {
            CaptureActivity::StartingDictation { token, context } => Some(context),
            CaptureActivity::Dictating { token, context, started_at } => Some(context),
            CaptureActivity::DictationProcessing { token, context, phase } => Some(context),
            _ => None,
        }
    }

    /// Why a new capture has to wait.
    pub open spec fn busy(self) -> Seq<char> {
        match self {
            CaptureActivity::StartingRecording { token } => "A recording is already in progress"@,
            CaptureActivity::Recording { token, id, title, started_at } =>
                "A recording is already in progress"@,
            CaptureActivity::FinishingRecording { token, id, title } =>
                "The previous recording is still being saved"@,
            CaptureActivity::StartingDictation { token, context } =>
                "Dictation is already in progress"@,
            CaptureActivity::Dictating { token, context, started_at } =>
                "Dictation is already in progress"@,
            CaptureActivity::DictationProcessing { token, context, phase } =>
                "Dictation is already in progress"@,
            CaptureActivity::Idle => "Capture is busy"@,
        }
    }
}

/// Why a new capture has to wait.
pub fn busy_error(activity: &CaptureActivity) -> (r: String)
    ensures
        r@ == activity.busy(),
{
    match activity {
        CaptureActivity::StartingRecording { token: _ } => "A recording is already in progress".to_owned(),
        CaptureActivity::Recording { token: _, id: _, title: _, started_at: _ } => "A recording is already in progress".to_owned(),
        CaptureActivity::FinishingRecording { token: _, id: _, title: _ } => "The previous recording is still being saved".to_owned(),
        CaptureActivity::StartingDictation { token: _, context: _ } => "Dictation is already in progress".to_owned(),
        CaptureActivity::Dictating { token: _, context: _, started_at: _ } => "Dictation is already in progress".to_owned(),
        CaptureActivity::DictationProcessing { token: _, context: _, phase: _ } => "Dictation is already in progress".to_owned(),
        CaptureActivity::Idle => "Capture is busy".to_owned(),
    }
}

/// A claim on the capture.
#[derive(Clone, Copy, Debug, PartialEq, Eq, Structural)]
pub struct CaptureClaim {
    pub token: u64,
    pub kind: ClaimKind,
    pub committed: bool,
}

/// The activity once the claim under `token` is given back.
pub open spec fn released(activity: CaptureActivity, token: u64, kind: ClaimKind) -> CaptureActivity {
    if activity.holder() == Some((kind, token)) {
        CaptureActivity::Idle
    } else {
        activity
    }
}

/// The capture and the token that the next claim gets.
#[derive(Debug)]
pub struct CaptureCoordinator {
    pub activity: CaptureActivity,
    pub next_token: u64,
}

impl CaptureCoordinator {
    /// The token in use was given out.
    pub open spec fn wf(self) -> bool {
        match self.activity.holder() {
            Some(h) => h.1 < self.next_token,
            None => true,
        }
    }

    /// Nothing is being captured.
    pub fn new() -> (r: Self)
        ensures
            r.wf(),
            r.activity is Idle,
            r.next_token == 1,
    {
        CaptureCoordinator { activity: CaptureActivity::Idle, next_token: 1 }
    }

    fn idle(&self) -> (r: bool)
        ensures
            r == (self.activity is Idle),
    {
        match &self.activity {
            CaptureActivity::Idle => true,
            _ => false,
        }
    }

    /// Claims the capture for a recording.
    pub fn claim_recording(&mut self) -> (r: Result<CaptureClaim, String>)
        requires
            old(self).wf(),
            old(self).next_token < u64::MAX,
        ensures
            final(self).wf(),
            final(self).next_token == old(self).next_token + 1,
            r is Ok == (old(self).activity is Idle),
            match r {
                Ok(claim) => claim == (CaptureClaim {
                    token: old(self).next_token,
                    kind: ClaimKind::Recording,
                    committed: false,
                }) && final(self).activity == (CaptureActivity::StartingRecording {
                    token: claim.token,
                }),
                Err(m) => final(self).activity == old(self).activity && m@ == old(
                    self,
                ).activity.busy(),
            },
    {
        let token: u64 = self.next_token;
        self.next_token = token + 1;
        if !self.idle() {
            return Err(busy_error(&self.activity));
        }
        self.activity = CaptureActivity::StartingRecording { token };
        Ok(CaptureClaim { token, kind: ClaimKind::Recording, committed: false })
    }

    /// Claims the capture for a dictation, from the microphone or the clipboard.
    pub fn claim_dictation(&mut self, context: DictationContext, clipboard: bool) -> (r: Result<
        CaptureClaim,
        String,
    >)
        requires
            old(self).wf(),
            old(self).next_token < u64::MAX,
        ensures
            final(self).wf(),
            final(self).next_token == old(self).next_token + 1,
            r is Ok == (old(self).activity is Idle),
            match r {
                Ok(claim) => claim == (CaptureClaim {
                    token: old(self).next_token,
                    kind: ClaimKind::Dictation,
                    committed: false,
                }) && final(self).activity == if clipboard {
                    CaptureActivity::DictationProcessing {
                        token: claim.token,
                        context,
                        phase: DictationPhase::ReadingClipboard,
                    }
                } else {
                    CaptureActivity::StartingDictation { token: claim.token, context }
                },
                Err(m) => final(self).activity == old(self).activity && m@ == old(
                    self,
                ).activity.busy(),
            },
    {
        let token: u64 = self.next_token;
        self.next_token = token + 1;
        if !self.idle() {
            return Err(busy_error(&self.activity));
        }
        self.activity = if clipboard {
            CaptureActivity::DictationProcessing {
                token,
                context,
                phase: DictationPhase::ReadingClipboard,
            }
        } else {
            CaptureActivity::StartingDictation { token, context }
        };
        Ok(CaptureClaim { token, kind: ClaimKind::Dictation, committed: false })
    }

    /// The recording of this claim is running. Says whether anything changed.
    pub fn activate_recording(
        &mut self,
        claim: &CaptureClaim,
        id: String,
        title: String,
        now: u64,
    ) -> (changed: bool)
        requires
            old(self).wf(),
        ensures
            final(self).wf(),
            final(self).next_token == old(self).next_token,
            changed == (old(self).activity == (CaptureActivity::StartingRecording {
                token: claim.token,
            })),
            final(self).activity == if changed {
                CaptureActivity::Recording { token: claim.token, id, title, started_at: now }
            } else {
                old(self).activity
            },
    {
        let ours = match &self.activity {
            CaptureActivity::StartingRecording { token } => *token == claim.token,
            _ => false,
        };
        if ours {
            self.activity =
            CaptureActivity::Recording { token: claim.token, id, title, started_at: now };
        }
        ours
    }

    /// The dictation of this claim is running. Says whether anything changed.
    pub fn activate_dictation(&mut self, claim: &CaptureClaim, now: u64) -> (changed: bool)
        requires
            old(self).wf(),
        ensures
            final(self).wf(),
            final(self).next_token == old(self).next_token,
            changed == (old(self).activity is StartingDictation && old(self).activity.holder()
                == Some((ClaimKind::Dictation, claim.token))),
            final(self).activity == if changed {
                CaptureActivity::Dictating {
                    token: claim.token,
                    context: old(self).activity.dictation()->0,
                    started_at: now,
                }
            } else {
                old(self).activity
            },
    {
        let context = match &self.activity {
            CaptureActivity::StartingDictation { token, context } => if *token == claim.token {
                Some(context.copy())
            } else {
                None
            },
            _ => None,
        };
        match context {
            Some(context) => {
                self.activity =
                CaptureActivity::Dictating { token: claim.token, context, started_at: now };
                true
            },
            None => false,
        }
    }

    /// Gives back what is held under that token. Says whether anything was.
    pub fn release_token(&mut self, token: u64, kind: ClaimKind) -> (changed: bool)
        requires
            old(self).wf(),
        ensures
            final(self).wf(),
            final(self).next_token == old(self).next_token,
            changed == (old(self).activity.holder() == Some((kind, token))),
            final(self).activity == released(old(self).activity, token, kind),
    {
        let ours = match self.activity.held_by() {
            Some(h) => h.0 == kind && h.1 == token,
            None => false,
        };
        if ours {
            self.activity = CaptureActivity::Idle;
        }
        ours
    }

    /// Ends a claim: one that was not committed is given back. Says whether
    /// anything changed.
    pub fn drop_claim(&mut self, claim: CaptureClaim) -> (changed: bool)
        requires
            old(self).wf(),
        ensures
            final(self).wf(),
            final(self).next_token == old(self).next_token,
            changed == (!claim.committed && old(self).activity.holder() == Some(
                (claim.kind, claim.token),
            )),
            final(self).activity == if claim.committed {
                old(self).activity
            } else {
                released(old(self).activity, claim.token, claim.kind)
            },
    {
        if claim.committed {
            false
        } else {
            self.release_token(claim.token, claim.kind)
        }
    }

    /// The recording is being saved. Says whether anything changed.
    pub fn begin_finishing_recording(&mut self) -> (changed: bool)
        requires
            old(self).wf(),
        ensures
            final(self).wf(),
            final(self).next_token == old(self).next_token,
            changed == (old(self).activity is Recording),
            final(self).activity == match old(self).activity {
                CaptureActivity::Recording { token, id, title, started_at } =>
                    CaptureActivity::FinishingRecording { token, id, title },
                other => other,
            },
    {
        let parts = match &self.activity {
            CaptureActivity::Recording { token, id, title, started_at: _ } => Some(
                (*token, id.clone(), title.clone()),
            ),
            _ => None,
        };
        match parts {
            Some(p) => {
                self.activity =
                CaptureActivity::FinishingRecording { token: p.0, id: p.1, title: p.2 };
                true
            },
            None => false,
        }
    }

    /// Whether ending the recording `id` (any, if absent) ends this activity.
    pub open spec fn ends(activity: CaptureActivity, id: Option<Seq<char>>) -> bool {
        match activity {
            CaptureActivity::StartingRecording { token } => id is None,
            CaptureActivity::Recording { token, id: live, title, started_at } => id is None || id
                == Some(live@),
            CaptureActivity::FinishingRecording { token, id: live, title } => id is None || id
                == Some(live@),
            _ => false,
        }
    }

    /// The recording is saved. Says whether anything changed.
    pub fn finish_recording(&mut self, id: Option<&str>) -> (changed: bool)
        requires
            old(self).wf(),
        ensures
            final(self).wf(),
            final(self).next_token == old(self).next_token,
            changed == Self::ends(old(self).activity, crate::pipelines::str_view(id)),
            final(self).activity == if changed {
                CaptureActivity::Idle
            } else {
                old(self).activity
            },
    {
        let done = match &self.activity {
            CaptureActivity::StartingRecording { token: _ } => id.is_none(),
            CaptureActivity::Recording { token: _, id: live, title: _, started_at: _ } => match id {
                Some(expected) => same(expected, live.as_str()),
                None => true,
            },
            CaptureActivity::FinishingRecording { token: _, id: live, title: _ } => match id {
                Some(expected) => same(expected, live.as_str()),
                None => true,
            },
            _ => false,
        };
        if done {
            self.activity = CaptureActivity::Idle;
        }
        done
    }

    /// Gives the recording `id` another title. Says whether anything changed.
    pub fn set_recording_label(&mut self, id: &str, new_title: String) -> (changed: bool)
        requires
            old(self).wf(),
        ensures
            final(self).wf(),
            final(self).next_token == old(self).next_token,
            changed == (old(self).activity.recording_id() == Some(id@)),
            final(self).activity == if changed {
                match old(self).activity {
                    CaptureActivity::Recording { token, id: live, title, started_at } =>
                        CaptureActivity::Recording {
                            token,
                            id: live,
                            title: new_title,
                            started_at,
                        },
                    CaptureActivity::FinishingRecording { token, id: live, title } =>
                        CaptureActivity::FinishingRecording { token, id: live, title: new_title },
                    other => other,
                }
            } else {
                old(self).activity
            },
    {
        let live = match &self.activity {
            CaptureActivity::Recording { token, id: live, title: _, started_at } => if same(
                live.as_str(),
                id,
            ) {
                Some((*token, live.clone(), Some(*started_at)))
            } else {
                None
            },
            CaptureActivity::FinishingRecording { token, id: live, title: _ } => if same(
                live.as_str(),
                id,
            ) {
                Some((*token, live.clone(), None))
            } else {
                None
            },
            _ => None,
        };
        match live {
            Some((token, live_id, Some(started_at))) => {
                self.activity =
                CaptureActivity::Recording { token, id: live_id, title: new_title, started_at };
                true
            },
            Some((token, live_id, None)) => {
                self.activity =
                CaptureActivity::FinishingRecording { token, id: live_id, title: new_title };
                true
            },
            None => false,
        }
    }

    /// The dictation under that token has come to another phase. Says whether
    /// anything changed.
    pub fn set_dictation_phase(&mut self, token: u64, phase: DictationPhase) -> (changed: bool)
        requires
            old(self).wf(),
        ensures
            final(self).wf(),
            final(self).next_token == old(self).next_token,
            changed == (old(self).activity.holder() == Some((ClaimKind::Dictation, token))),
            final(self).activity == if changed {
                CaptureActivity::DictationProcessing {
                    token,
                    context: old(self).activity.dictation()->0,
                    phase,
                }
            } else {
                old(self).activity
            },
    {
        let context = match &self.activity {
            CaptureActivity::StartingDictation { token: live, context } => if *live == token {
                Some(context.copy())
            } else {
                None
            },
            CaptureActivity::Dictating { token: live, context, started_at: _ } => if *live
                == token {
                Some(context.copy())
            } else {
                None
            },
            CaptureActivity::DictationProcessing { token: live, context, phase: _ } => if *live
                == token {
                Some(context.copy())
            } else {
                None
            },
            _ => None,
        };
        match context {
            Some(context) => {
                self.activity = CaptureActivity::DictationProcessing { token, context, phase };
                true
            },
            None => false,
        }
    }

    /// The dictation under that token is done. Says whether anything changed.
    pub fn finish_dictation(&mut self, token: u64) -> (changed: bool)
        requires
            old(self).wf(),
        ensures
            final(self).wf(),
            final(self).next_token == old(self).next_token,
            changed == (old(self).activity.holder() == Some((ClaimKind::Dictation, token))),
            final(self).activity == released(old(self).activity, token, ClaimKind::Dictation),
    {
        self.release_token(token, ClaimKind::Dictation)
    }

    /// The user cancels the dictation, whatever its phase. Says whether
    /// anything changed.
    pub fn cancel_current_dictation(&mut self) -> (changed: bool)
        requires
            old(self).wf(),
        ensures
            final(self).wf(),
            final(self).next_token == old(self).next_token,
            changed == (old(self).activity.dictation() is Some),
            final(self).activity == if changed {
                CaptureActivity::Idle
            } else {
                old(self).activity
            },
    {
        let dictating = match self.activity.held_by() {
            Some(h) => h.0 == ClaimKind::Dictation,
            None => false,
        };
        if dictating {
            self.activity = CaptureActivity::Idle;
        }
        dictating
    }
}

impl CaptureClaim {
    /// The session is installed: the claim is no longer given back by itself.
    pub fn commit(&mut self)
        ensures
            *final(self) == (CaptureClaim { committed: true, ..*old(self) }),
    {
        self.committed = true;
    }
}

/// What is done under an older token does not touch the capture that is
/// running: after a claim is given back or cancelled, a later one has another
/// token, and releasing the older changes nothing.
pub proof fn law_stale_token_is_inert(c: CaptureCoordinator, token: u64, kind: ClaimKind)
    requires
        c.wf(),
        c.activity.holder() != Some((kind, token)),
    ensures
        released(c.activity, token, kind) == c.activity,
        c.activity.holder() is Some ==> (c.activity.holder()->0).1 != c.next_token,
{
}

/// Claiming and giving back leaves the capture idle, as it was.
pub proof fn law_claim_then_release(token: u64, context: DictationContext)
    ensures
        released(CaptureActivity::StartingRecording { token }, token, ClaimKind::Recording)
            is Idle,
        released(
            CaptureActivity::StartingDictation { token, context },
            token,
            ClaimKind::Dictation,
        ) is Idle,
        released(CaptureActivity::StartingRecording { token }, token, ClaimKind::Dictation)
            is StartingRecording,
{
}

/// A recording ends when it is told to by its own identifier, or by none; another's does
/// not end it, and nothing about recordings ends a dictation.
pub proof fn law_ends(token: u64, id: String, title: String, started_at: u64, other: Seq<char>)
    ensures
        ({
            let live = CaptureActivity::Recording { token, id, title, started_at };
            let saved = CaptureActivity::FinishingRecording { token, id, title };
            let starting = CaptureActivity::StartingRecording { token };
            &&& CaptureCoordinator::ends(live, None) && CaptureCoordinator::ends(live, Some(id@))
            &&& CaptureCoordinator::ends(saved, None) && CaptureCoordinator::ends(saved, Some(id@))
            &&& other != id@ ==> !CaptureCoordinator::ends(live, Some(other))
                && !CaptureCoordinator::ends(saved, Some(other))
            &&& CaptureCoordinator::ends(starting, None)
            &&& !CaptureCoordinator::ends(starting, Some(other))
            &&& live.recording_id() == Some(id@) && saved.recording_id() == Some(id@)
            &&& starting.recording_id() is None
        }),
        forall|a: CaptureActivity, i: Option<Seq<char>>|
            a.dictation() is Some || a is Idle ==> !#[trigger] CaptureCoordinator::ends(a, i),
{
}

/// The capture is held in every activity but the idle one: by a dictation exactly where
/// there is something that it is for, else by a recording.
pub proof fn law_holder(a: CaptureActivity)
    ensures
        a.holder() is None <==> a is Idle,
        a.dictation() is Some <==> (a.holder() is Some && (a.holder()->0).0 == ClaimKind::Dictation),
        a matches CaptureActivity::StartingRecording { token } ==> a.holder() == Some(
            (ClaimKind::Recording, token),
        ),
        a matches CaptureActivity::Recording { token, id, title, started_at } ==> a.holder()
            == Some((ClaimKind::Recording, token)),
        a matches CaptureActivity::FinishingRecording { token, id, title } ==> a.holder() == Some(
            (ClaimKind::Recording, token),
        ),
        a matches CaptureActivity::StartingDictation { token, context } ==> a.holder() == Some(
            (ClaimKind::Dictation, token),
        ) && a.dictation() == Some(context),
        a matches CaptureActivity::Dictating { token, context, started_at } ==> a.holder() == Some(
            (ClaimKind::Dictation, token),
        ) && a.dictation() == Some(context),
        a matches CaptureActivity::DictationProcessing { token, context, phase } ==> a.holder()
            == Some((ClaimKind::Dictation, token)) && a.dictation() == Some(context),
{
}

/// Who has to wait is told what for.
pub proof fn law_busy(a: CaptureActivity)
    ensures
        a.dictation() is Some ==> a.busy() == "Dictation is already in progress"@,
        a is FinishingRecording ==> a.busy() == "The previous recording is still being saved"@,
        a is StartingRecording || a is Recording ==> a.busy()
            == "A recording is already in progress"@,
{
}

} // verus!
