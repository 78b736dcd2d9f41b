//! What the application does when it starts, gains focus, wakes and ends.

use crate::config::AppSettings;
use crate::parakeet_worker::wanted;
use crate::text::{
    chars_of, decode_strictly, find_char, number_in, parse_u32, text_of, trim, trimmed, until,
};
use vstd::prelude::*;

verus! {

/// What is started along with the application.
#[derive(Clone, Copy, Debug, PartialEq, Eq, Structural)]
pub struct StartupPlan {
    /// Ask for the permission to notify, where it has not been given.
    pub ask_to_notify: bool,
    /// Watch for calls.
    pub watch_calls: bool,
    /// Bind the shortcuts for dictation.
    pub bind_shortcuts: bool,
    /// Keep a transcriber loaded.
    pub keep_transcriber: bool,
}

/// What is started along with the application. Permission is asked for only where
/// meetings are to be recorded.
pub fn startup_plan(settings: &AppSettings, may_notify: bool) -> (r: StartupPlan)
    ensures
        r == (StartupPlan {
            ask_to_notify: settings.auto_record_meetings && !may_notify,
            watch_calls: settings.auto_record_meetings,
            bind_shortcuts: settings.dictation.enabled,
            keep_transcriber: wanted(*settings),
        }),
{
    StartupPlan {
        ask_to_notify: settings.auto_record_meetings && !may_notify,
        watch_calls: settings.auto_record_meetings,
        bind_shortcuts: settings.dictation.enabled,
        keep_transcriber: crate::parakeet_worker::configured(settings),
    }
}

/// What happens to the main window or the application.
#[derive(Clone, Copy, Debug, PartialEq, Eq, Structural)]
pub enum AppEvent {
    FocusGained,
    CloseRequested,
    ExitRequested,
    /// The icon in the dock was clicked.
    Reopen,
    Other,
}

/// What is done about it.
#[derive(Clone, Copy, Debug, PartialEq, Eq, Structural)]
pub enum AppAction {
    /// Remove old recordings, if it is time to.
    SweepRetention,
    /// Hide the window and go on in the status bar.
    HideToTray,
    /// Release the microphone.
    ShutDownAudio,
    ShowWindow,
    Nothing,
}

/// What is done about an event.
pub fn app_action(event: AppEvent) -> (r: AppAction)
    ensures
        r == match event {
            AppEvent::FocusGained => AppAction::SweepRetention,
            AppEvent::CloseRequested => AppAction::HideToTray,
            AppEvent::ExitRequested => AppAction::ShutDownAudio,
            AppEvent::Reopen => AppAction::ShowWindow,
            AppEvent::Other => AppAction::Nothing,
        },
{
    match event {
        AppEvent::FocusGained => AppAction::SweepRetention,
        AppEvent::CloseRequested => AppAction::HideToTray,
        AppEvent::ExitRequested => AppAction::ShutDownAudio,
        AppEvent::Reopen => AppAction::ShowWindow,
        AppEvent::Other => AppAction::Nothing,
    }
}

/// Seconds between two sweeps for old recordings.
pub const SWEEP_INTERVAL_SECS: u64 = 3600;

/// When the last sweep was, on a clock that never goes back.
#[derive(Debug)]
pub struct SweepThrottle {
    pub last: Option<u64>,
}

impl SweepThrottle {
    /// There was none.
    pub fn new() -> (r: Self)
        ensures
            r.last is None,
    {
        SweepThrottle { last: None }
    }

    /// Says whether it is time for a sweep at `now`, in seconds, and takes note of it.
    pub fn due(&mut self, now: u64) -> (r: bool)
        ensures
            r == match old(self).last {
                Some(prev) => now - prev >= SWEEP_INTERVAL_SECS,
                None => true,
            },
            final(self).last == if r {
                Some(now)
            } else {
                old(self).last
            },
    {
        let recent = match self.last {
            Some(prev) => now < prev || now - prev < SWEEP_INTERVAL_SECS,
            None => false,
        };
        if recent {
            return false;
        }
        self.last = Some(now);
        true
    }
}

/// The major number of a version.
pub open spec fn major_of(version: Seq<char>) -> Option<nat> {
    let v = trimmed(version);
    number_in(v.take(until(v, '.')), u32::MAX as nat)
}

/// Says whether a system of this version transcribes speech by itself.
pub fn has_apple_speech(version: Option<&str>) -> (r: bool)
    ensures
        r == match version {
            Some(v) => match major_of(v@) {
                Some(n) => n >= 26,
                None => false,
            },
            None => false,
        },
{
    match version {
        Some(text) => {
            let v = trim(text);
            let all = chars_of(v.as_str());
            let end = find_char(&all, '.', 0);
            let major = text_of(&all, 0, end);
            assert(all@.skip(0) =~= all@);
            assert(all@.subrange(0, end as int) =~= v@.take(end as int));
            match parse_u32(major.as_str()) {
                Some(n) => n >= 26,
                None => false,
            }
        },
        None => false,
    }
}

/// Says whether the system transcribes speech by itself, out of the version as it is
/// printed.
pub fn apple_speech_in(output: Option<Vec<u8>>) -> (r: bool)
    ensures
        r == match output {
            Some(bytes) => vstd::utf8::valid_utf8(bytes@) && match major_of(
                vstd::utf8::decode_utf8(bytes@),
            ) {
                Some(n) => n >= 26,
                None => false,
            },
            None => false,
        },
{
    match output {
        Some(bytes) => match decode_strictly(bytes) {
            Some(version) => has_apple_speech(Some(version.as_str())),
            None => false,
        },
        None => false,
    }
}

/// The major number of a version is what stands before its first dot, whatever white space
/// is around the version.
pub proof fn law_major(before: Seq<char>, n: nat, rest: Seq<char>, after: Seq<char>)
    requires
        n <= u32::MAX,
        crate::text::all_space(before),
        crate::text::all_space(after),
        rest.len() > 0,
        !crate::text::is_space(rest.last()),
    ensures
        major_of(before + (crate::text::decimal_of(n) + seq!['.'] + rest) + after) == Some(n),
        major_of(before + crate::text::decimal_of(n) + after) == Some(n),
{
    let d = crate::text::decimal_of(n);
    let v = d + seq!['.'] + rest;
    crate::text::law_decimal(n);
    assert forall|i: int| 0 <= i < d.len() implies d[i] != '.' && !crate::text::is_space(d[i]) by {
        assert(crate::text::is_digit(d[i]));
    }
    assert(v.last() == rest.last());
    assert(v[0] == d[0]);
    crate::text::law_trimmed_around(before, v, after);
    crate::text::law_trimmed_around(before, d, after);
    crate::text::lemma_until(v, '.');
    crate::text::lemma_until(d, '.');
    assert(v[d.len() as int] == '.');
    assert forall|i: int| 0 <= i < d.len() implies v[i] != '.' by {
        assert(v[i] == d[i]);
    }
    assert(until(v, '.') == d.len());
    assert(until(d, '.') == d.len());
    assert(v.take(d.len() as int) =~= d);
    assert(d.take(d.len() as int) =~= d);
}

} // verus!
