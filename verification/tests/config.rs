use nbp::config::{
    get_config_dir, get_llm_models_dir, get_models_dir, get_settings_path, migrate_theme,
    normalize_theme, AppSettings, CliAgentConfig, RealtimeTranscriptionProvider,
    TranscriptionConfig, TranscriptionProvider,
};

#[test]
fn a_fresh_installation_has_the_defaults() {
    let s = AppSettings::fresh("/home/u/nbp-data".to_string(), "codex".to_string());
    assert_eq!(s.storage_path, "/home/u/nbp-data");
    assert_eq!(s.auto_discard_seconds, 3);
    assert_eq!(s.theme, "auto");
    assert!(s.save_mix_only && s.auto_record_meetings && s.show_recording_notification);
    assert!(!s.onboarding_completed && !s.walkthrough_completed);
    assert_eq!(s.entry_retention_days, 0);
    assert_eq!(s.local_llm.gpu_layers, 99);
    assert_eq!(s.local_llm.context_size, 8192);
    assert!(s.dictation.show_hud && !s.dictation.enabled);
    assert_eq!(CliAgentConfig::fresh("agy".to_string()).timeout_secs, 300);
}

#[test]
fn transcription_begins_with_the_local_engine() {
    let mut t = TranscriptionConfig::default();
    assert!(t.enabled && t.diarize);
    assert_eq!(t.provider, TranscriptionProvider::FluidAudio);
    assert_eq!(t.realtime_provider, RealtimeTranscriptionProvider::Local);
    assert_eq!(t.translit_threshold, "0.72");
    assert_eq!(t.apple_locale, "en-US");
    assert!(t.realtime_supported());
    t.provider = TranscriptionProvider::AppleSpeech;
    assert!(t.realtime_supported());
    t.provider = TranscriptionProvider::Qwen3;
    assert!(!t.realtime_supported());
}

#[test]
fn settings_live_under_the_home_directory() {
    assert_eq!(get_config_dir(Some("/home/u")), "/home/u/.nbp");
    assert_eq!(get_config_dir(None), "./.nbp");
    assert_eq!(get_settings_path(Some("/home/u")), "/home/u/.nbp/settings.json");
    assert_eq!(get_models_dir(Some("/home/u")), "/home/u/.nbp/models");
    assert_eq!(get_llm_models_dir(Some("/home/u")), "/home/u/.nbp/models/llm");
}

#[test]
fn old_themes_become_light_or_dark() {
    for (old, new) in [
        ("light", "light"),
        ("light-pastel", "light"),
        ("dark", "dark"),
        ("neon-purple", "dark"),
        ("deep-obsidian", "dark"),
        ("deep-blue", "dark"),
        ("auto", "auto"),
        ("solar", "auto"),
    ] {
        assert_eq!(normalize_theme(old), new);
        let mut s = AppSettings::fresh("/d".to_string(), "codex".to_string());
        s.theme = old.to_string();
        assert_eq!(migrate_theme(&mut s), old != new);
        assert_eq!(s.theme, new);
        assert!(!migrate_theme(&mut s));
    }
}
