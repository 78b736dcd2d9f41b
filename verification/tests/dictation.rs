use nbp::config::{
    AppSettings, DictationConfig, DictationInputSource, DictationShortcut, DictationTriggerMode,
    StepType, TranscriptionProvider,
};
use nbp::delivery::{
    after_paste, after_pipeline, after_stop, apple_arguments, create_dictation, delivery_step,
    dictation_metadata, dictation_title_at, duration_of, engine, engine_answer, engine_reply,
    finish_with_error, fluidaudio_arguments, heard, model_name, paste_outcome, pipeline_missing,
    read_from_clipboard, should_save, stop_status, transcript_source, AfterStop, DeliveryStep,
    Engine, Heard, PasteOutcome, TextRun,
};
use nbp::dictation::{
    append_capped, duck, escape_action, fade_delay, find_shortcut, pick_input_config, restore,
    should_prewarm, status, DictationState, DictationStatus, EscapeAction, Generation,
    InputRange, Session, MAX_CAPTURE_SAMPLES,
};
use nbp::json::Json;
use nbp::pipelines::PipelineStep;
use nbp::realtime_transcription::{LocalTranscriber, RealtimeTranscript, RealtimeUpdate};
use nbp::storage::begin_recording;
use nbp::streaming::{LineBuffer, StreamEvent, StreamingSession};
use nbp::transcript_migration::TranscriptSource;

fn shortcut(id: &str) -> DictationShortcut {
    DictationShortcut {
        id: id.to_string(),
        name: id.to_string(),
        hotkey: "cmd+e".to_string(),
        input_source: DictationInputSource::Audio,
        device_name: None,
        language: None,
        pipeline: None,
        auto_paste: true,
        capture_system_audio: false,
        trigger_mode: DictationTriggerMode::Toggle,
    }
}

fn config() -> DictationConfig {
    DictationConfig {
        enabled: true,
        shortcuts: vec![shortcut("a"), shortcut("b")],
        save_dictations: false,
        show_hud: true,
    }
}

fn session(generation: u64) -> Session {
    Session { shortcut_id: "a".to_string(), generation, pre_duck_volume: None }
}

fn step(step_type: StepType) -> PipelineStep {
    PipelineStep {
        name: "s".to_string(),
        step_type,
        template: String::new(),
        config: Json::Null,
        description: None,
    }
}

fn says(s: &DictationStatus) -> (&str, Option<&str>) {
    assert_eq!(s.shortcut_id.as_deref(), Some("id"));
    (s.state.as_str(), s.message.as_deref())
}

fn text(t: &str) -> Result<String, String> {
    Ok(t.to_string())
}

fn fault(e: &str) -> Result<String, String> {
    Err(e.to_string())
}

#[test]
fn a_dictation_is_recorded_and_delivered() {
    let mut state = DictationState::new();
    let begun = state.begin_start(&config(), "b").unwrap();
    assert_eq!((begun.shortcut, begun.generation, begun.abort), (1, 1, false));
    assert_eq!(state.begin_start(&config(), "a").unwrap_err(), "Dictation already active");
    assert!(state.install(session(begun.generation)));
    let stopped = state.stop().unwrap();
    assert!(!state.is_active);
    assert!(state.is_current(stopped.generation));
    state.deliver();
    let next = state.begin_start(&config(), "a").unwrap();
    assert!(next.abort);
    assert!(!state.is_current(stopped.generation));
}

#[test]
fn a_shortcut_that_is_gone_starts_nothing() {
    let mut state = DictationState::new();
    assert_eq!(state.begin_start(&config(), "x").unwrap_err(), "Shortcut 'x' not found");
    assert!(!state.is_active);
    assert_eq!(state.generation.value, 1);
    assert_eq!(find_shortcut(&config(), "b"), Some(1));
    assert_eq!(find_shortcut(&config(), "x"), None);
}

#[test]
fn what_was_cancelled_is_not_installed() {
    let mut state = DictationState::new();
    let begun = state.begin_start(&config(), "a").unwrap();
    let (live, delivering) = state.cancel();
    assert!(live.is_none() && !delivering);
    assert!(!state.install(session(begun.generation)));
    assert!(!state.is_current(begun.generation));
    state.begin_start(&config(), "a").unwrap();
    state.start_failed();
    assert!(!state.is_active);
}

#[test]
fn dismissing_leaves_a_recording_alone() {
    let mut state = DictationState::new();
    let begun = state.begin_start(&config(), "a").unwrap();
    assert!(state.install(session(begun.generation)));
    state.deliver();
    assert!(state.dismiss());
    assert!(state.is_active && state.session.is_some());
    assert!(!state.dismiss());
    assert!(escape_action(true) == EscapeAction::Cancel);
    assert!(escape_action(false) == EscapeAction::Dismiss);
}

#[test]
fn what_is_overtaken_stays_overtaken() {
    let mut g = Generation::new();
    let first = g.claim();
    assert!(g.is_current(first));
    g.supersede();
    assert!(!g.is_current(first));
    let second = g.claim();
    assert!(g.is_current(second) && !g.is_current(first));
}

#[test]
fn five_minutes_are_kept() {
    let mut buf: Vec<u8> = vec![0; MAX_CAPTURE_SAMPLES - 2];
    append_capped(&mut buf, &vec![1, 2, 3]);
    assert_eq!(buf.len(), MAX_CAPTURE_SAMPLES);
    assert_eq!(buf[MAX_CAPTURE_SAMPLES - 2..], [1, 2]);
    append_capped(&mut buf, &vec![4]);
    assert_eq!(buf.len(), MAX_CAPTURE_SAMPLES);
    let mut small: Vec<u8> = vec![1];
    append_capped(&mut small, &vec![2]);
    assert_eq!(small, [1, 2]);
}

#[test]
fn the_volume_goes_down_and_back() {
    for (now, low) in [(100, 40), (50, 20), (3, 1), (1, 1), (0, 1), (99, 40), (96, 38)] {
        let fade = duck(Some("Mic"), Some("Speaker"), Some(now)).unwrap();
        assert_eq!((fade.from, fade.to), (now, low));
        assert_eq!(low, ((now as f32 * 0.4).round() as u32).max(1));
    }
    assert_eq!(duck(None, None, Some(u32::MAX)).unwrap().to, 1_717_986_918);
    assert!(duck(Some("Headset"), Some("Headset"), Some(50)).is_none());
    assert!(duck(None, None, Some(50)).is_some());
    assert!(duck(Some("Mic"), None, None).is_none());
    let back = restore(Some(20), 50).unwrap();
    assert_eq!((back.from, back.to), (20, 50));
    assert!(restore(Some(50), 50).is_none());
    assert!(restore(None, 50).is_none());
    assert_eq!(fade_delay(240), 20);
    assert_eq!(fade_delay(5), 1);
}

#[test]
fn one_channel_at_the_right_rate_is_preferred() {
    let range = |channels, min_rate, max_rate| InputRange { channels, min_rate, max_rate };
    let stereo = || range(2, 8000, 48000);
    assert_eq!(pick_input_config(&vec![stereo(), range(1, 16000, 16000)]), Some(1));
    assert_eq!(pick_input_config(&vec![range(1, 44100, 48000), stereo()]), Some(1));
    assert_eq!(pick_input_config(&vec![range(1, 44100, 48000)]), None);
    assert_eq!(pick_input_config(&vec![]), None);
}

#[test]
fn a_model_is_loaded_where_dictation_is_on() {
    let mut s = AppSettings::fresh("/d".to_string(), "codex".to_string());
    assert!(!should_prewarm(&s));
    s.dictation.enabled = true;
    for (provider, expected) in [
        (TranscriptionProvider::FluidAudio, true),
        (TranscriptionProvider::Qwen3, true),
        (TranscriptionProvider::AppleSpeech, true),
        (TranscriptionProvider::Unknown, true),
    ] {
        s.transcription.provider = provider;
        assert_eq!(should_prewarm(&s), expected);
    }
}

#[test]
fn what_follows_a_recording() {
    assert!(after_stop(false, true, 9) == AfterStop::Cancelled);
    assert!(after_stop(true, true, 0) == AfterStop::FinishStream);
    assert!(after_stop(true, false, 0) == AfterStop::NoAudio);
    assert!(after_stop(true, false, 9) == AfterStop::Transcribe);
    assert_eq!(says(&stop_status(AfterStop::Cancelled, "id")), ("idle", Some("Cancelled")));
    assert_eq!(
        says(&stop_status(AfterStop::FinishStream, "id")),
        ("transcribing", Some("Finalizing live transcript"))
    );
    assert_eq!(says(&stop_status(AfterStop::NoAudio, "id")), ("idle", Some("No audio captured")));
    assert_eq!(says(&stop_status(AfterStop::Transcribe, "id")), ("transcribing", None));
    assert_eq!(says(&status("recording", Some("id"), None)), ("recording", None));
}

#[test]
fn what_was_heard() {
    assert!(matches!(heard("id", text(" hi ")), Heard::Text(t) if t == "hi"));
    match heard("id", text("  ")) {
        Heard::Nothing(s) => assert_eq!(says(&s), ("idle", Some("No speech detected"))),
        _ => panic!("nothing was said"),
    }
    match heard("id", fault("e")) {
        Heard::Failed { status, error } => {
            assert_eq!(says(&status), ("error", Some("Transcription failed: e")));
            assert_eq!(error, "e");
        }
        _ => panic!("it failed"),
    }
    assert!(matches!(read_from_clipboard("id", text("x")), Heard::Text(t) if t == "x"));
    match read_from_clipboard("id", text("")) {
        Heard::Nothing(s) => assert_eq!(says(&s), ("idle", Some("Clipboard is empty"))),
        _ => panic!("nothing was copied"),
    }
    match read_from_clipboard("id", fault("e")) {
        Heard::Failed { status, .. } => {
            assert_eq!(says(&status), ("error", Some("Clipboard read failed: e")))
        }
        _ => panic!("it failed"),
    }
    let (s, error) = finish_with_error("id", "Oops", "e".to_string());
    assert_eq!(says(&s), ("error", Some("Oops: e")));
    assert_eq!(error, "e");
}

#[test]
fn the_engine_is_called_and_answers() {
    assert!(engine(TranscriptionProvider::AppleSpeech) == Engine::AppleSpeech);
    assert!(engine(TranscriptionProvider::Unknown) == Engine::FluidAudio);
    assert_eq!(apple_arguments("/w", ""), ["/w"]);
    assert_eq!(apple_arguments("/w", "de-DE"), ["/w", "--lang", "de-DE"]);
    assert_eq!(
        fluidaudio_arguments("/w", vec!["--engine".to_string()]),
        ["/w", "--no-diarize", "--engine"]
    );
    let answer = |e, code, stderr: &str, parsed| engine_answer(e, code, stderr, parsed);
    assert_eq!(answer(Engine::FluidAudio, Some(0), "", text("t")), text("t"));
    assert_eq!(
        answer(Engine::FluidAudio, Some(0), "", fault("e")),
        fault("parse FluidAudio output: e")
    );
    assert_eq!(
        answer(Engine::AppleSpeech, Some(0), "", fault("e")),
        fault("parse Apple Speech output: e")
    );
    assert_eq!(
        answer(Engine::FluidAudio, Some(1), "Error: No speech detected.", text("x")),
        text("")
    );
    assert_eq!(
        answer(Engine::AppleSpeech, Some(1), "No speech detected", text("x")),
        fault("Apple Speech sidecar failed: No speech detected")
    );
    assert_eq!(
        answer(Engine::FluidAudio, None, "boom", text("x")),
        fault("FluidAudio sidecar failed: boom")
    );
}

#[test]
fn the_output_of_the_engine_is_read() {
    let reply = |code, out: &str, err: &str| {
        let (out, err) = (out.as_bytes().to_vec(), err.as_bytes().to_vec());
        engine_reply(Engine::FluidAudio, code, &out, None, &err)
    };
    assert_eq!(reply(Some(0), r#"{"text":"hi","model":"m"}"#, "noise"), text("hi"));
    assert_eq!(reply(Some(0), r#"["hi","m"]"#, ""), text("hi"));
    for (out, why) in [("{", ""), (r#"{"text":"hi"}"#, "model"), (r#"{"model":"m"}"#, "text"), ("7", "")] {
        let error = reply(Some(0), out, "").unwrap_err();
        assert!(error.starts_with("parse FluidAudio output: "), "{error}");
        assert!(error.contains(why), "{error}");
    }
    assert_eq!(reply(Some(1), "", "No speech detected"), text(""));
    assert_eq!(reply(None, "", "boom"), fault("FluidAudio sidecar failed: boom"));
    let twice = br#"{"text":"a","text":"b","model":"m"}"#.to_vec();
    assert_eq!(
        engine_reply(Engine::AppleSpeech, Some(0), &twice, Some("twice".to_string()), &vec![]),
        fault("parse Apple Speech output: twice")
    );
}

#[test]
fn a_dictation_is_kept_where_there_is_sound() {
    assert!(should_save(Some(1), DictationInputSource::Audio, true));
    assert!(!should_save(Some(0), DictationInputSource::Audio, true));
    assert!(!should_save(None, DictationInputSource::Audio, true));
    assert!(!should_save(Some(1), DictationInputSource::Clipboard, true));
    assert!(!should_save(Some(1), DictationInputSource::Audio, false));
}

#[test]
fn the_text_survives_its_pipeline() {
    let (t, told) = after_pipeline("id", "raw", Some(text("better")));
    assert!(t == "better" && told.is_none());
    let (t, told) = after_pipeline("id", "raw", Some(fault("e")));
    assert_eq!(t, "raw");
    assert_eq!(
        says(&told.unwrap()),
        ("pipeline_error", Some("Pipeline failed, pasted raw: e"))
    );
    assert_eq!(after_pipeline("id", "raw", None).0, "raw");
    assert_eq!(pipeline_missing("p"), "Pipeline 'p' not found");
}

#[test]
fn only_the_live_dictation_is_pasted() {
    assert!(matches!(delivery_step("id", " t ", true, true), DeliveryStep::Paste(t) if t == "t"));
    assert!(matches!(delivery_step("id", " t ", true, false), DeliveryStep::Copy(t) if t == "t"));
    match delivery_step("id", "t", false, true) {
        DeliveryStep::Stop(s) => assert_eq!(says(&s), ("idle", Some("Cancelled"))),
        _ => panic!("it was cancelled"),
    }
    match delivery_step("id", " ", true, true) {
        DeliveryStep::Stop(s) => assert_eq!(says(&s), ("idle", Some("Empty output"))),
        _ => panic!("there is nothing to paste"),
    }
    let ok = || Ok(());
    assert!(matches!(paste_outcome(ok(), true, true), PasteOutcome::Pasted));
    assert!(matches!(paste_outcome(ok(), true, false), PasteOutcome::Cancelled));
    assert!(matches!(paste_outcome(ok(), false, false), PasteOutcome::AccessibilityDenied));
    assert!(matches!(paste_outcome(Err("e".to_string()), true, true), PasteOutcome::Failed(e) if e == "e"));
}

#[test]
fn what_is_told_after_pasting() {
    let after = |outcome| after_paste("id", "t".to_string(), outcome);
    let (s, r) = after(PasteOutcome::Pasted);
    assert_eq!((says(&s), r), (("idle", None), text("t")));
    let (s, r) = after(PasteOutcome::Cancelled);
    assert_eq!((says(&s), r), (("idle", Some("Cancelled")), text("")));
    let (s, r) = after(PasteOutcome::AccessibilityDenied);
    assert_eq!((says(&s), r), (("accessibility_needed", None), text("t")));
    let (s, r) = after(PasteOutcome::Failed("e".to_string()));
    assert_eq!((says(&s), r), (("error", Some("Paste failed: e")), fault("Paste failed: e")));
}

#[test]
fn saving_does_not_change_what_is_pasted() {
    let mut run = TextRun::begin("raw");
    run.step(&step(StepType::CliAgent), text("better")).unwrap();
    run.step(&step(StepType::SaveLocal), text("better")).unwrap();
    run.step(&step(StepType::SaveLocal), fault("disk full")).unwrap();
    assert_eq!(run.paste, "better");
    run.step(&step(StepType::Shell), text("  ")).unwrap();
    assert_eq!(run.paste, "better");
    assert_eq!(run.chained, "  ");
    assert_eq!(run.step(&step(StepType::Shell), fault("e")).unwrap_err(), "step 's': e");
    assert_eq!(run.done, 4);
    let mut only_saved = TextRun::begin("raw");
    only_saved.step(&step(StepType::SaveLocal), text("saved")).unwrap();
    assert_eq!(only_saved.paste, "raw");
}

#[test]
fn a_kept_dictation_is_a_recording() {
    assert_eq!(dictation_title_at("10:05"), "Dictation · 10:05");
    assert!(create_dictation().title.starts_with("Dictation · "));
    assert_eq!(duration_of(24000), 1500);
    assert_eq!(duration_of(15), 0);
    let m = begin_recording("r".to_string(), "c".to_string(), "t".to_string());
    let long = "é".repeat(300);
    let m = dictation_metadata(m, &long, 24000);
    assert_eq!((m.status.as_str(), m.source.as_str()), ("ready", "dictation"));
    let mix = m.audio.mix.as_ref().unwrap();
    assert_eq!((mix.file.as_str(), mix.duration_ms, mix.sample_rate, mix.channels), ("audio_mix.ogg", 1500, 16000, 1));
    assert_eq!(m.transcript_preview.as_deref(), Some("é".repeat(200).as_str()));
    assert!(dictation_metadata(m, "", 1).transcript_preview.is_none());
    assert_eq!(transcript_source(TranscriptionProvider::AppleSpeech), TranscriptSource::Apple);
    assert_eq!(transcript_source(TranscriptionProvider::Qwen3), TranscriptSource::Fluidaudio);
    assert_eq!(model_name(TranscriptionProvider::Qwen3), "Qwen3");
    assert_eq!(model_name(TranscriptionProvider::AppleSpeech), "AppleSpeech");
}

#[test]
fn lines_are_the_same_however_they_arrive() {
    let whole = "one\n\n  two  \nthr";
    let mut at_once = LineBuffer::new();
    let lines = at_once.push(whole);
    assert_eq!(lines, ["one", "two"]);
    assert_eq!(at_once.text, "thr");
    let mut in_pieces = LineBuffer::new();
    let mut pieces: Vec<String> = Vec::new();
    for c in whole.chars() {
        pieces.extend(in_pieces.push(&c.to_string()));
    }
    assert_eq!(pieces, lines);
    assert_eq!(in_pieces.text, at_once.text);
    assert_eq!(in_pieces.push("ee\n"), ["three"]);
    assert_eq!(in_pieces.push_bytes(&b"f\xc3\xa9\n\xff\nrest".to_vec()), ["f\u{e9}", "\u{fffd}"]);
    assert_eq!(in_pieces.text, "rest");
}

#[test]
fn a_stream_gives_its_final_text() {
    let mut s = StreamingSession::new();
    assert!(s.handle(StreamEvent::Ready).is_none());
    assert!(s.ready);
    assert_eq!(s.handle(StreamEvent::Partial { text: "he".to_string() }).as_deref(), Some("he"));
    assert!(s.handle(StreamEvent::Final { text: "hello".to_string() }).is_none());
    assert_eq!(s.finish(), text("hello"));
    assert_eq!(StreamingSession::new().finish(), text(""));
    let mut s = StreamingSession::new();
    s.handle(StreamEvent::Final { text: "hello".to_string() });
    s.handle(StreamEvent::Error { message: "e".to_string() });
    assert_eq!(s.finish(), fault("e"));
    let mut s = StreamingSession::new();
    s.handle(StreamEvent::Error { message: "e".to_string() });
    s.cancel();
    assert_eq!(s.finish(), text(""));
}

#[test]
fn settled_words_stay() {
    let mut t = RealtimeTranscript::new();
    let shown = |u: RealtimeUpdate| match u {
        RealtimeUpdate::Transcript(x) => x,
        _ => panic!("there is a transcript"),
    };
    let event = |s: &str| StreamEvent::Partial { text: s.to_string() };
    let settled = |s: &str| StreamEvent::Final { text: s.to_string() };
    assert!(matches!(t.handle(StreamEvent::Ready), RealtimeUpdate::Nothing));
    assert_eq!(shown(t.handle(event("he"))), "he");
    assert_eq!(shown(t.handle(settled("hello"))), "hello");
    assert_eq!(shown(t.handle(event("wor"))), "hello wor");
    assert_eq!(t.settled, "hello");
    assert_eq!(shown(t.handle(settled(""))), "hello");
    assert_eq!(shown(t.handle(settled("world"))), "hello world");
    assert!(matches!(
        t.handle(StreamEvent::Error { message: "e".to_string() }),
        RealtimeUpdate::Error(e) if e == "e"
    ));
    assert!(LocalTranscriber::start("m", "r").is_err());
}
