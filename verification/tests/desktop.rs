use nbp::config::{
    AppSettings, DictationConfig, DictationInputSource, DictationShortcut, DictationTriggerMode,
};
use nbp::lifecycle::{
    app_action, apple_speech_in, has_apple_speech, startup_plan, AppAction, AppEvent, SweepThrottle,
    SWEEP_INTERVAL_SECS,
};
use nbp::shortcuts::{
    binding, fn_shortcuts, reload_dictation_shortcuts, shortcut_action, Binding, KeyEvent,
    ShortcutAction, ShortcutRegistration,
};
use nbp::tray::{
    pipeline_entry_id, pipeline_entry_label, tray_action, tray_pipelines, TrayAction, TrayPulse,
};

fn shortcut(id: &str, hotkey: &str) -> DictationShortcut {
    DictationShortcut {
        id: id.to_string(),
        name: id.to_string(),
        hotkey: hotkey.to_string(),
        input_source: DictationInputSource::Audio,
        device_name: None,
        language: None,
        pipeline: None,
        auto_paste: true,
        capture_system_audio: false,
        trigger_mode: DictationTriggerMode::Toggle,
    }
}

fn config(enabled: bool) -> DictationConfig {
    DictationConfig {
        enabled,
        shortcuts: vec![
            shortcut("a", "cmd+e"),
            shortcut("b", " FN+space"),
            shortcut("c", "  "),
            shortcut("d", "cmd+taken"),
        ],
        save_dictations: false,
        show_hud: true,
    }
}

fn names(all: &[&str]) -> Vec<String> {
    all.iter().map(|n| n.to_string()).collect()
}

#[test]
fn a_shortcut_is_bound_by_its_keys() {
    assert!(binding(false, &shortcut("a", "fn")) == Binding::Disabled);
    assert!(binding(true, &shortcut("a", " ")) == Binding::Empty);
    assert!(binding(true, &shortcut("a", "Fn+K")) == Binding::Fn);
    assert!(binding(true, &shortcut("a", "cmd+fn")) == Binding::Global);
    assert_eq!(fn_shortcuts(&config(true)), [1]);
    assert!(fn_shortcuts(&config(false)).is_empty());
}

#[test]
fn every_shortcut_is_told_of() {
    let outcomes = vec![None, None, None, Some("taken".to_string())];
    let watched = ShortcutRegistration {
        id: "b".to_string(),
        hotkey: " FN+space".to_string(),
        status: "registered".to_string(),
        error: None,
    };
    let told = reload_dictation_shortcuts(&config(true), &outcomes, vec![watched]);
    let all: Vec<(&str, &str, Option<&str>)> = told
        .iter()
        .map(|r| (r.id.as_str(), r.status.as_str(), r.error.as_deref()))
        .collect();
    assert_eq!(
        all,
        [
            ("a", "registered", None),
            ("c", "error", Some("Empty hotkey")),
            ("d", "error", Some("taken")),
            ("b", "registered", None),
        ]
    );
    let off = reload_dictation_shortcuts(&config(false), &outcomes, vec![]);
    assert_eq!(off.len(), 4);
    assert!(off.iter().all(|r| r.status == "disabled" && r.error.is_none()));
}

#[test]
fn keys_start_and_stop() {
    let act = |mode, event, active| shortcut_action(DictationInputSource::Audio, mode, event, active);
    let toggle = DictationTriggerMode::Toggle;
    let hold = DictationTriggerMode::PushToTalk;
    assert!(act(toggle, KeyEvent::Pressed, false) == ShortcutAction::StartDictation);
    assert!(act(toggle, KeyEvent::Pressed, true) == ShortcutAction::StopDictation);
    assert!(act(toggle, KeyEvent::Released, true) == ShortcutAction::Nothing);
    assert!(act(hold, KeyEvent::Pressed, false) == ShortcutAction::StartDictation);
    assert!(act(hold, KeyEvent::Pressed, true) == ShortcutAction::Nothing);
    assert!(act(hold, KeyEvent::Released, true) == ShortcutAction::StopDictation);
    assert!(act(hold, KeyEvent::Released, false) == ShortcutAction::Nothing);
    let clip = |event| shortcut_action(DictationInputSource::Clipboard, hold, event, true);
    assert!(clip(KeyEvent::Pressed) == ShortcutAction::Clipboard);
    assert!(clip(KeyEvent::Released) == ShortcutAction::Nothing);
}

#[test]
fn the_menu_shows_favourites_first() {
    let all = names(&["a", "b", "c", "d", "e", "f"]);
    let menu = |last: Option<&str>, default: Option<&str>| {
        tray_pipelines(&all, &last.map(|s| s.to_string()), &default.map(|s| s.to_string()))
    };
    assert_eq!(menu(None, None), ["a", "b", "c", "d", "e"]);
    assert_eq!(menu(Some("d"), Some("f")), ["d", "f", "a", "b", "c"]);
    assert_eq!(menu(Some("d"), Some("d")), ["d", "a", "b", "c", "e"]);
    assert_eq!(menu(Some("gone"), Some("f")), ["f", "a", "b", "c", "d"]);
    assert!(tray_pipelines(&vec![], &Some("x".to_string()), &None).is_empty());
}

#[test]
fn an_entry_starts_its_pipeline() {
    assert!(matches!(
        tray_action(&pipeline_entry_id("my notes")),
        TrayAction::StartPipeline(n) if n == "my notes"
    ));
    assert_eq!(pipeline_entry_label("notes"), "▶ notes");
    assert!(matches!(tray_action("tray-record-new"), TrayAction::RecordNew));
    assert!(matches!(tray_action("show"), TrayAction::Show));
    assert!(matches!(tray_action("quit"), TrayAction::Quit));
    assert!(matches!(tray_action("else"), TrayAction::Nothing));
}

#[test]
fn the_icon_blinks_once() {
    let mut pulse = TrayPulse::new();
    assert!(!pulse.start(false));
    assert!(pulse.start(true));
    assert!(!pulse.start(true));
    assert!(pulse.stop());
    assert!(!pulse.stop());
}

#[test]
fn what_is_started_with_the_application() {
    let mut s = AppSettings::fresh("/d".to_string(), "codex".to_string());
    let plan = startup_plan(&s, false);
    assert!(plan.ask_to_notify && plan.watch_calls);
    assert!(!plan.bind_shortcuts && !plan.keep_transcriber);
    assert!(!startup_plan(&s, true).ask_to_notify);
    s.auto_record_meetings = false;
    s.dictation.enabled = true;
    s.transcription.keep_model_ready = true;
    let plan = startup_plan(&s, false);
    assert!(!plan.ask_to_notify && !plan.watch_calls);
    assert!(plan.bind_shortcuts && plan.keep_transcriber);
}

#[test]
fn events_of_the_window() {
    assert!(app_action(AppEvent::FocusGained) == AppAction::SweepRetention);
    assert!(app_action(AppEvent::CloseRequested) == AppAction::HideToTray);
    assert!(app_action(AppEvent::ExitRequested) == AppAction::ShutDownAudio);
    assert!(app_action(AppEvent::Reopen) == AppAction::ShowWindow);
    assert!(app_action(AppEvent::Other) == AppAction::Nothing);
    let mut sweeps = SweepThrottle::new();
    assert!(sweeps.due(100));
    assert!(!sweeps.due(100 + SWEEP_INTERVAL_SECS - 1));
    assert!(sweeps.due(100 + SWEEP_INTERVAL_SECS));
    assert!(!sweeps.due(101));
}

#[test]
fn apple_speech_comes_with_the_system() {
    assert!(has_apple_speech(Some("26.0\n")));
    assert!(has_apple_speech(Some("27")));
    assert!(!has_apple_speech(Some("15.6.1")));
    assert!(!has_apple_speech(Some("new")));
    assert!(!has_apple_speech(Some("")));
    assert!(!has_apple_speech(None));
    assert!(apple_speech_in(Some(b"26.1\n".to_vec())));
    assert!(!apple_speech_in(Some(b"15.6\n".to_vec())));
    assert!(!apple_speech_in(Some(b"26.\xff".to_vec())));
    assert!(!apple_speech_in(None));
}
