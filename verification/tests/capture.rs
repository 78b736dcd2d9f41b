use nbp::audio::{
    check_disk_space, create_manual_recording, failed_metadata, files_to_remove,
    finalize_recording, manual_title_at, pause_recording, processing_metadata, realtime_start,
    resume_recording, AudioState, Opening, Part, RealtimeStart, StopOutcome, MIN_FREE_BYTES,
};
use nbp::call_session::{
    call_title_at, label_call, label_call_at, parse_call_event, start_error, still_current,
    CallEvent, CallSessionState, CallStage, StartDecision,
};
use nbp::capture_coordinator::{
    busy_error, CaptureActivity, CaptureCoordinator, ClaimKind, DictationContext, DictationPhase,
};
use nbp::config::{TranscriptionConfig, TranscriptionProvider};
use nbp::storage::{begin_recording, RecordingMetadata};

fn context() -> DictationContext {
    DictationContext { name: "n".to_string(), pipeline: None, auto_paste: true }
}

fn recording(id: &str) -> RecordingMetadata {
    begin_recording(id.to_string(), "2026-01-01T00:00:00Z".to_string(), "t".to_string())
}

/// A recording that is under way.
fn under_way() -> (AudioState, CaptureCoordinator) {
    let mut state = AudioState::new();
    let mut coordinator = CaptureCoordinator::new();
    let mut claim = state.begin_start(&mut coordinator).unwrap();
    assert!(matches!(state.opened(Part::Mixer, Ok(())), Opening::Go));
    assert!(matches!(state.opened(Part::Mic, Ok(())), Opening::Go));
    state.started(&mut coordinator, &mut claim, recording("r"), true, 7);
    assert!(!coordinator.drop_claim(claim));
    (state, coordinator)
}

#[test]
fn test_audio_state_is_send_sync() {
    fn assert_send<T: Send>() {}
    fn assert_sync<T: Sync>() {}

    assert_send::<AudioState>();
    assert_sync::<AudioState>();
}

#[test]
fn one_capture_at_a_time() {
    let mut c = CaptureCoordinator::new();
    let claim = c.claim_recording().unwrap();
    assert_eq!(c.claim_recording().unwrap_err(), "A recording is already in progress");
    assert_eq!(
        c.claim_dictation(context(), false).unwrap_err(),
        "A recording is already in progress"
    );
    assert!(c.drop_claim(claim));
    assert!(matches!(c.activity, CaptureActivity::Idle));
    let claim = c.claim_dictation(context(), false).unwrap();
    assert_eq!(c.claim_recording().unwrap_err(), "Dictation is already in progress");
    assert!(c.activate_dictation(&claim, 3));
    assert!(!c.activate_dictation(&claim, 3));
    assert!(matches!(c.activity, CaptureActivity::Dictating { started_at: 3, .. }));
}

#[test]
fn a_stale_token_changes_nothing() {
    let mut c = CaptureCoordinator::new();
    let old = c.claim_dictation(context(), true).unwrap();
    assert!(matches!(
        c.activity,
        CaptureActivity::DictationProcessing { phase: DictationPhase::ReadingClipboard, .. }
    ));
    assert!(c.finish_dictation(old.token));
    let new = c.claim_dictation(context(), false).unwrap();
    assert_ne!(old.token, new.token);
    assert!(!c.finish_dictation(old.token));
    assert!(!c.set_dictation_phase(old.token, DictationPhase::Pasting));
    assert!(!c.release_token(new.token, ClaimKind::Recording));
    assert!(!c.drop_claim(old));
    assert_eq!(c.activity.held_by(), Some((ClaimKind::Dictation, new.token)));
    assert!(c.set_dictation_phase(new.token, DictationPhase::Pasting));
    assert!(c.cancel_current_dictation());
    assert!(!c.cancel_current_dictation());
}

#[test]
fn a_recording_goes_through_its_stages() {
    let mut c = CaptureCoordinator::new();
    let mut claim = c.claim_recording().unwrap();
    assert!(c.activate_recording(&claim, "r".to_string(), "t".to_string(), 5));
    claim.commit();
    assert!(!c.drop_claim(claim));
    assert!(!c.set_recording_label("x", "new".to_string()));
    assert!(c.set_recording_label("r", "new".to_string()));
    assert!(matches!(&c.activity, CaptureActivity::Recording { title, .. } if title == "new"));
    assert!(c.begin_finishing_recording());
    assert!(!c.begin_finishing_recording());
    assert_eq!(
        c.claim_recording().unwrap_err(),
        "The previous recording is still being saved"
    );
    assert!(!c.finish_recording(Some("x")));
    assert!(c.finish_recording(Some("r")));
    assert!(!c.finish_recording(None));
    assert_eq!(busy_error(&c.activity), "Capture is busy");
}

#[test]
fn a_recording_begins_and_is_saved() {
    let (mut state, mut c) = under_way();
    assert!(matches!(&c.activity, CaptureActivity::Recording { id, started_at: 7, .. } if id == "r"));
    assert_eq!(state.begin_start(&mut c).unwrap_err(), "Already recording");
    assert!(state.check_realtime("r").is_ok());
    assert_eq!(
        state.check_realtime("x").unwrap_err(),
        "recording_id 'x' does not match current recording 'r'"
    );
    assert!(!state.take_transcriber());
    let parts = state.begin_stop(&mut c).unwrap();
    assert!(matches!(parts[..], [Part::Mic, Part::Mixer]));
    match state.stopped(&mut c, 3000, 3) {
        StopOutcome::Finalize(Some(m)) => assert_eq!(m.id, "r"),
        _ => panic!("the recording is long enough"),
    }
    assert!(matches!(c.activity, CaptureActivity::FinishingRecording { .. }));
    assert!(c.finish_recording(Some("r")));
    assert!(state.begin_stop(&mut c).is_none());
    assert_eq!(state.check_realtime("r").unwrap_err(), "No active recording");
}

#[test]
fn a_recording_that_is_too_short_frees_the_capture() {
    let (mut state, mut c) = under_way();
    assert!(state.begin_stop(&mut c).is_some());
    assert!(matches!(
        state.stopped(&mut c, 2999, 3),
        StopOutcome::Discard(Some(id)) if id == "r"
    ));
    assert!(matches!(c.activity, CaptureActivity::Idle));
    assert!(!state.is_recording);
}

#[test]
fn what_cannot_be_opened() {
    let mut state = AudioState::new();
    let fault = || Err("e".to_string());
    assert!(matches!(state.opened(Part::Mixer, fault()), Opening::Go));
    assert!(!state.mixer);
    assert!(matches!(
        state.opened(Part::System, fault()),
        Opening::Warn(m) if m == "System audio unavailable: e"
    ));
    assert!(matches!(
        state.opened(Part::Mic, fault()),
        Opening::Fail(m) if m == "Microphone capture failed: e"
    ));
    assert!(matches!(state.opened(Part::Transcriber, Ok(())), Opening::Go));
    assert!(state.take_transcriber());
    assert!(state.shut_down().is_empty());
    let (mut state, _) = under_way();
    state.system = true;
    assert!(matches!(state.shut_down()[..], [Part::Mic, Part::System, Part::Mixer]));
}

#[test]
fn space_is_checked_before_a_recording() {
    assert!(check_disk_space(None).is_ok());
    assert!(check_disk_space(Some(MIN_FREE_BYTES)).is_ok());
    assert_eq!(
        check_disk_space(Some(MIN_FREE_BYTES - 1)).unwrap_err(),
        "Insufficient disk space: 100 MB available, need at least 100 MB"
    );
    for (bytes, shown) in [(0, "0"), (524_288, "0"), (524_289, "1"), (1_572_864, "2"), (2_621_440, "2")] {
        assert_eq!(
            check_disk_space(Some(bytes)).unwrap_err(),
            format!("Insufficient disk space: {shown} MB available, need at least 100 MB")
        );
        assert_eq!(shown, format!("{:.0}", bytes as f64 / 1_048_576.0));
    }
}

#[test]
fn metadata_follows_the_saving() {
    let m = processing_metadata(Some(recording("disk")), recording("memory"), true, 1500);
    assert_eq!((m.id.as_str(), m.status.as_str()), ("disk", "processing"));
    assert!(m.audio.mic.is_none());
    let m = processing_metadata(None, recording("memory"), false, 1500);
    assert_eq!(m.id, "memory");
    let mic = m.audio.mic.as_ref().unwrap();
    assert_eq!((mic.file.as_str(), mic.duration_ms, mic.sample_rate, mic.channels), ("raw_mic.ogg", 1500, 48000, 2));
    let m = finalize_recording(m, 1600, true, true);
    assert_eq!(m.status, "ready");
    assert!(m.audio.mic.is_none() && m.audio.system.is_none());
    assert_eq!(m.audio.mix.as_ref().unwrap().file, "audio_mix.ogg");
    let m = finalize_recording(recording("x"), 1600, false, false);
    assert!(m.audio.mix.is_none());
    assert_eq!(m.audio.system.as_ref().unwrap().file, "raw_system.ogg");
    assert_eq!(failed_metadata(m).status, "error");
    assert_eq!(files_to_remove(true), ["raw_mic.ogg", "raw_system.ogg"]);
    assert!(files_to_remove(false).is_empty());
}

#[test]
fn titles_tell_the_time_of_day() {
    assert_eq!(manual_title_at("10:05"), "NBP · 10:05");
    let m = create_manual_recording();
    let clock = m.title.strip_prefix("NBP · ").unwrap();
    assert_eq!(clock.len(), 5);
    assert_eq!(clock.as_bytes()[2], b':');
    assert_eq!(call_title_at(Some("Zoom"), "10:05"), "Zoom · 10:05");
    assert_eq!(call_title_at(None, "10:05"), "Call · 10:05");
    assert_eq!(pause_recording().unwrap_err(), "Pause is not yet implemented");
    assert_eq!(resume_recording().unwrap_err(), "Resume is not yet implemented");
}

#[test]
fn live_transcription_depends_on_the_engine() {
    let mut config = TranscriptionConfig::default();
    for (provider, expected) in [
        (TranscriptionProvider::AppleSpeech, RealtimeStart::AppleSpeech),
        (TranscriptionProvider::FluidAudio, RealtimeStart::StopOnly),
        (TranscriptionProvider::Qwen3, RealtimeStart::Unsupported),
        (TranscriptionProvider::Unknown, RealtimeStart::StopOnly),
    ] {
        config.provider = provider;
        assert!(realtime_start(&config) == expected);
        assert_eq!(config.realtime_supported(), expected != RealtimeStart::Unsupported);
    }
}

#[test]
fn reports_of_calls_are_read() {
    let read = |text: &str| parse_call_event(text);
    match read(r#"{"stage":"started","app":"Zoom","bundle_id":"us.zoom.xos"}"#) {
        Some(CallEvent::Started { app, bundle_id }) => {
            assert_eq!(app.as_deref(), Some("Zoom"));
            assert_eq!(bundle_id.as_deref(), Some("us.zoom.xos"));
        }
        _ => panic!("a call has started"),
    }
    assert!(matches!(
        read(r#"{"stage":"started"}"#),
        Some(CallEvent::Started { app: None, bundle_id: None })
    ));
    assert!(matches!(read(r#"{"stage":"ended"}"#), Some(CallEvent::Ended)));
    assert!(matches!(read(r#"{"stage":"paused"}"#), Some(CallEvent::Other)));
    assert!(matches!(read("3"), Some(CallEvent::Other)));
    assert!(read("nonsense").is_none());
}

#[test]
fn a_call_is_recorded() {
    let mut calls = CallSessionState::new();
    let decision = calls.handle_started(false, false, "s1".to_string(), Some("Zoom".to_string()));
    assert!(decision == StartDecision::Begin);
    let decision = calls.handle_started(false, false, "s2".to_string(), None);
    assert!(decision == StartDecision::Conflict);
    assert!(!calls.commit_start("s1", "r".to_string()));
    let decision = calls.handle_started(true, false, "s2".to_string(), None);
    assert!(decision == StartDecision::SelfActive);
    assert_eq!(calls.give_up().as_deref(), Some("r"));
    assert!(calls.active.is_none());
    assert!(still_current(Some("r"), "r"));
    assert!(!still_current(Some("x"), "r"));
    assert!(!still_current(None, "r"));
}

#[test]
fn a_call_that_ends_while_it_starts_is_not_kept() {
    let mut calls = CallSessionState::new();
    let id = calls.call_started(false, false, None).unwrap();
    assert!(calls.give_up().is_none());
    assert!(matches!(
        calls.active.as_ref().unwrap().stage,
        CallStage::Starting { abort_pending: true }
    ));
    assert!(calls.commit_start(&id, "r".to_string()));
    assert!(calls.active.is_none());
}

#[test]
fn a_new_call_replaces_one_that_is_over() {
    let mut calls = CallSessionState::new();
    let first = calls.call_started(false, false, None).unwrap();
    assert!(calls.give_up().is_none());
    let second = calls.call_started(false, false, None).unwrap();
    assert_ne!(first, second);
    assert!(calls.commit_start(&first, "old".to_string()));
    assert!(!calls.commit_start(&second, "new".to_string()));
    let third = calls.call_started(false, false, None).unwrap();
    calls.start_failed("x");
    assert!(calls.active.is_some());
    calls.start_failed(&third);
    assert!(calls.active.is_none());
    assert!(calls.call_started(false, true, None).unwrap_err() == StartDecision::SelfActive);
    assert_eq!(start_error("e"), "Recording failed: e");
}

#[test]
fn the_recording_of_a_call_names_the_application() {
    let m = label_call_at(
        recording("r"),
        Some("Zoom".to_string()),
        Some("us.zoom.xos".to_string()),
        "10:05",
    );
    assert_eq!(m.title, "Zoom · 10:05");
    assert_eq!(m.source, "call");
    assert_eq!(m.app_friendly_name.as_deref(), Some("Zoom"));
    assert_eq!(m.app_bundle_id.as_deref(), Some("us.zoom.xos"));
    assert!(label_call(recording("r"), None, None).title.starts_with("Call · "));
}
