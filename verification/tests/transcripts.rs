use nbp::config::{AppSettings, TranscriptionProvider};
use nbp::frontmatter::{frame, split_frontmatter, strip_frontmatter};
use nbp::json::{parse_array, Json, JsonNumber};
use nbp::transcript_migration::{
    is_migration_needed, mark_migration_done, metadata_block, migrated_metadata,
    migration_done_in, migration_needed_in, needs_migration, read_transcript,
    write_transcript_with_metadata, TranscriptSource,
};
use nbp::transcription::{
    export_transcript, find_audio, fluidaudio_engine_args, get_speakers, legacy_transcript_text,
    mix_to_mono, parse_progress, parse_progress_line, parse_sidecar_output, plan_transcription,
    preview_from_transcript, preview_update, rename_speaker, render_transcript_from_json,
    sidecar_answer, transcript_at, transcript_of, truncate_preview, SidecarOutput, SidecarRun,
    TranscriptJson, TranscriptSegment, TranscriptionState,
};

fn number(text: &str) -> JsonNumber {
    JsonNumber { text: text.to_string(), unsigned: None }
}

fn segment(speaker: &str, start: &str, end: &str, text: &str) -> TranscriptSegment {
    TranscriptSegment {
        speaker_id: speaker.to_string(),
        start_time: number(start),
        end_time: number(end),
        text: text.to_string(),
    }
}

fn tj(text: &str, segments: Vec<TranscriptSegment>) -> TranscriptJson {
    TranscriptJson {
        source: TranscriptSource::Local,
        model: "m".to_string(),
        created_at: "t".to_string(),
        duration_ms: 1000,
        language: None,
        text: Some(text.to_string()),
        segments,
        speaker_names: vec![],
    }
}

fn two_speakers() -> TranscriptJson {
    tj(
        "flat",
        vec![
            segment("Speaker 1", "0.0", "1.0", "hi"),
            segment("Speaker 2", "1.0", "2.0", "yo"),
        ],
    )
}

fn settings() -> AppSettings {
    AppSettings::fresh("/data".to_string(), "codex".to_string())
}

fn object(text: &str) -> Option<Json> {
    parse_array(&format!("[{text}]")).unwrap().pop()
}

/// The metadata of a transcript as its YAML block gives it: the source.
fn source_in(raw: &str) -> Option<TranscriptSource> {
    let block = metadata_block(raw)?;
    let value: serde_yaml::Value = serde_yaml::from_str(&block).ok()?;
    Some(TranscriptSource::from_word(value.get("source")?.as_str()?))
}

#[test]
fn test_read_transcript_with_frontmatter() {
    let content =
        "---\nsource: local\nmodel: whisper-base\ncreated_at: \"2026-02-03T14:30:00Z\"\nduration_sec: 180.5\n---\n\nThis is the transcript content.";

    let result = read_transcript(content, source_in(content));
    assert!(result.metadata.is_some());
    assert!(matches!(result.metadata.unwrap(), TranscriptSource::Local));
    assert_eq!(result.content, "This is the transcript content.");
}

#[test]
fn test_read_transcript_legacy_format() {
    let content = "This is a plain transcript without frontmatter.";

    let result = read_transcript(content, source_in(content));
    assert!(result.metadata.is_none());
    assert_eq!(result.content, content);
}

#[test]
fn test_write_transcript_with_metadata() {
    let yaml = "source: local\nmodel: whisper-base\ncreated_at: 2026-02-03T14:30:00Z\nduration_sec: 180.5\nlanguage: en\n";
    let document = write_transcript_with_metadata("Test content", yaml);

    let result = read_transcript(&document, source_in(&document));
    assert!(result.metadata.is_some());
    assert_eq!(result.content, "Test content");
}

#[test]
fn test_idempotent_migration() {
    let content =
        "---\nsource: local\nmodel: whisper-base\ncreated_at: \"2026-02-03T14:30:00Z\"\nduration_sec: 0.0\n---\n\nAlready migrated content";

    assert!(!needs_migration(content));
}

#[test]
fn test_transcript_source_variants() {
    let sources = vec![
        ("local", TranscriptSource::Local),
        ("openai", TranscriptSource::Openai),
        ("google", TranscriptSource::Google),
        ("anthropic", TranscriptSource::Anthropic),
    ];

    for (expected_str, source) in sources {
        assert_eq!(format!("\"{}\"", source.word()), format!("\"{}\"", expected_str));
    }
}

#[test]
fn every_source_reads_back() {
    let all = [
        TranscriptSource::Local,
        TranscriptSource::Fluidaudio,
        TranscriptSource::Openai,
        TranscriptSource::Google,
        TranscriptSource::Anthropic,
        TranscriptSource::Apple,
        TranscriptSource::Unknown,
    ];
    for source in all {
        assert_eq!(TranscriptSource::from_word(&source.word()), source);
    }
    assert_eq!(TranscriptSource::from_word("whatever"), TranscriptSource::Unknown);
}

#[test]
fn a_block_that_cannot_be_read_is_part_of_the_text() {
    let content = "---\nnot: [yaml\n---\n\nText";
    let result = read_transcript::<TranscriptSource>(content, None);
    assert!(result.metadata.is_none());
    assert_eq!(result.content, content);
    assert_eq!(metadata_block(content).unwrap(), "not: [yaml");
}

#[test]
fn old_transcripts_are_given_what_is_known() {
    assert!(needs_migration("Plain text"));
    let known = migrated_metadata(Some(("begun".to_string(), Some(1500))), "now");
    assert_eq!(known.source, TranscriptSource::Local);
    assert_eq!(known.model, "unknown");
    assert_eq!(known.created_at, "begun");
    assert_eq!(known.duration_ms, 1500);
    assert_eq!(known.language.as_deref(), Some("en"));
    let unknown = migrated_metadata(None, "now");
    assert_eq!(unknown.created_at, "now");
    assert_eq!(unknown.duration_ms, 0);
    assert_eq!(migrated_metadata(Some(("b".to_string(), None)), "now").duration_ms, 0);
}

#[test]
fn migration_is_done_once() {
    assert!(is_migration_needed(&None));
    assert!(is_migration_needed(&object("{\"transcript_migration_done\":false}")));
    let done = mark_migration_done(object("{\"theme\":\"dark\"}"));
    assert_eq!(done.get_text("theme").unwrap(), "dark");
    assert!(!is_migration_needed(&Some(done)));
    assert!(!is_migration_needed(&Some(mark_migration_done(None))));
}

#[test]
fn the_settings_file_says_whether_transcripts_are_migrated() {
    assert!(migration_needed_in(None));
    assert!(migration_needed_in(Some("{broken")));
    assert!(migration_needed_in(Some("{\"transcript_migration_done\":false}")));
    assert!(!migration_needed_in(Some("{\"transcript_migration_done\":true}")));
    let done = migration_done_in(Some("{\"theme\":\"dark\"}")).unwrap();
    assert_eq!(done.get_text("theme").unwrap(), "dark");
    assert!(!is_migration_needed(&Some(done)));
    assert!(!is_migration_needed(&migration_done_in(Some("null"))));
    assert!(!is_migration_needed(&migration_done_in(Some("{broken"))));
    assert!(!is_migration_needed(&migration_done_in(None)));
    assert!(migration_done_in(Some("[1]")).is_none());
}

#[test]
fn a_written_transcript_reads_back() {
    for (yaml, content) in [("a: b\n", "Text"), ("a: b", "- one\n- two"), ("", "x")] {
        let document = write_transcript_with_metadata(content, yaml);
        assert_eq!(metadata_block(&document).unwrap(), yaml.trim());
        let read = read_transcript(&document, Some(7));
        assert_eq!(read.metadata, Some(7));
        assert_eq!(read.content, content);
    }
}

#[test]
fn frames_come_apart_as_they_were_made() {
    let document = frame("a: b", "Text");
    let (block, rest) = split_frontmatter(&document).unwrap();
    assert_eq!(block.trim(), "a: b");
    assert_eq!(rest.trim(), "Text");
    assert_eq!(strip_frontmatter("no block"), "no block");
    assert!(split_frontmatter("---\nnever closed").is_none());
    assert_eq!(legacy_transcript_text(&document), "Text");
    assert_eq!(legacy_transcript_text("plain"), "plain");
}

#[test]
fn legacy_text_only_renders_verbatim() {
    let t = tj("hello world", vec![]);
    assert!(t.segments.is_empty());
    assert!(t.speaker_names.is_empty());
    assert_eq!(render_transcript_from_json(&t), "hello world");
}

#[test]
fn single_speaker_has_no_headers() {
    let t = tj(
        "a b",
        vec![
            segment("Speaker 1", "0.0", "1.0", "a"),
            segment("Speaker 1", "1.0", "2.0", "b"),
        ],
    );
    let r = render_transcript_from_json(&t);
    assert!(!r.contains("**"), "single speaker must have no headers: {r:?}");
    assert_eq!(r, "a b");
}

#[test]
fn multi_speaker_renders_headers() {
    let r = render_transcript_from_json(&two_speakers());
    assert!(r.contains("**Speaker 1:**"), "{r}");
    assert!(r.contains("**Speaker 2:**"), "{r}");
    assert!(r.contains("hi") && r.contains("yo"));
}

#[test]
fn rename_applied_at_render_never_mutates_record() {
    let mut t = two_speakers();
    t.speaker_names = vec![("Speaker 1".to_string(), "Alice".to_string())];
    let r = render_transcript_from_json(&t);
    assert!(r.contains("**Alice:**"), "rename applied at render: {r}");
    assert!(!r.contains("**Speaker 1:**"));
    assert!(r.contains("**Speaker 2:**"), "un-renamed speaker stays");
    assert_eq!(t.text.as_deref(), Some("flat"));
    assert_eq!(t.segments[0].speaker_id, "Speaker 1");
    assert_eq!(t.segments[0].text, "hi");
}

#[test]
fn preview_strips_speaker_markers() {
    let p = preview_from_transcript(&two_speakers());
    assert!(!p.contains("**"), "preview must read as plain prose: {p:?}");
    assert!(p.contains("Speaker 1") && p.contains("hi"));
}

#[test]
fn a_dialogue_has_a_header_for_each_turn() {
    let t = tj(
        "flat",
        vec![
            segment("A", "0", "1", " hi "),
            segment("A", "1", "2", "there"),
            segment("B", "2", "3", ""),
            segment("A", "3", "4", "bye"),
        ],
    );
    assert_eq!(
        render_transcript_from_json(&t),
        "**A:**\nhi\nthere\n\n\n**B:**\n\n\n**A:**\nbye"
    );
    assert_eq!(preview_from_transcript(&t), "A: hi there B: A: bye");
}

#[test]
fn a_preview_ends_with_a_word() {
    assert_eq!(truncate_preview("  one \n two  ", 20), "one two");
    assert_eq!(truncate_preview("one two three", 9), "one two…");
    assert_eq!(truncate_preview("onetwothree", 5), "onet…");
    assert_eq!(truncate_preview("ééééé", 5), "ééééé");
    assert_eq!(truncate_preview("", 5), "");
    assert_eq!(truncate_preview("a b", 1), "…");
    for max in 1..16 {
        let preview = truncate_preview(" one\ttwo  three four ", max);
        assert!(preview.chars().count() <= max);
        assert_eq!(truncate_preview(&preview, max), preview);
    }
}

#[test]
fn a_preview_is_written_where_it_changes() {
    assert_eq!(preview_update(None, "p"), Some(Some("p".to_string())));
    assert_eq!(preview_update(Some("p"), "p"), None);
    assert_eq!(preview_update(Some("p"), ""), Some(None));
    assert_eq!(preview_update(None, ""), Some(None));
}

#[test]
fn renaming_a_speaker_can_be_taken_back() {
    let mut t = two_speakers();
    rename_speaker(&mut t, "Speaker 2", " Bob ").unwrap();
    let speakers = get_speakers(&t);
    assert_eq!(speakers.len(), 2);
    assert_eq!(speakers[0].speaker_id, "Speaker 1");
    assert_eq!(speakers[0].display_name, None);
    assert_eq!(speakers[1].display_name.as_deref(), Some("Bob"));
    rename_speaker(&mut t, "Speaker 2", "  ").unwrap();
    assert!(t.speaker_names.is_empty());
    rename_speaker(&mut t, "Speaker 2", "Bob").unwrap();
    rename_speaker(&mut t, "Speaker 2", "Speaker 2").unwrap();
    assert!(t.speaker_names.is_empty());
    assert_eq!(
        rename_speaker(&mut t, "Speaker 3", "Eve").unwrap_err(),
        "Speaker 'Speaker 3' not found in this transcript"
    );
    assert!(get_speakers(&tj("x", vec![])).is_empty());
}

#[test]
fn a_recording_is_transcribed_once_at_a_time() {
    let mut state = TranscriptionState::new();
    assert!(state.begin("a"));
    assert!(!state.begin("a"));
    assert!(state.begin("b"));
    assert!(state.is_transcribing("a"));
    state.end("a");
    assert!(!state.is_transcribing("a"));
    assert!(state.is_transcribing("b"));
    assert!(state.begin("a"));
}

#[test]
fn the_engine_is_chosen_by_the_settings() {
    let mut s = settings();
    s.transcription.provider = TranscriptionProvider::Qwen3;
    s.transcription.qwen3_variant = "f32".to_string();
    assert_eq!(
        fluidaudio_engine_args(&s, Some("/v")),
        ["--engine", "qwen3", "--variant", "f32"]
    );
    s.transcription.provider = TranscriptionProvider::FluidAudio;
    s.transcription.translit_lang = "ru".to_string();
    s.transcription.translit_threshold = "0.5".to_string();
    s.transcription.translit_min_len = 3;
    assert_eq!(
        fluidaudio_engine_args(&s, Some("/v")),
        [
            "--translit-all",
            "--translit-threshold",
            "0.5",
            "--translit-min-len",
            "3",
            "--vocab",
            "/v"
        ]
    );
    assert!(fluidaudio_engine_args(&s, None).is_empty());
    s.transcription.translit_lang = "off".to_string();
    assert!(fluidaudio_engine_args(&s, Some("/v")).is_empty());
}

#[test]
fn a_transcription_is_planned() {
    let mut s = settings();
    s.transcription.enabled = false;
    assert_eq!(
        plan_transcription(&s, "/r", true, true, None).unwrap_err(),
        "Transcription is disabled in settings"
    );
    s.transcription.enabled = true;
    s.transcription.translit_lang = "off".to_string();
    assert_eq!(
        plan_transcription(&s, "/r", false, false, None).unwrap_err(),
        "Audio file not found"
    );
    s.transcription.provider = TranscriptionProvider::AppleSpeech;
    s.transcription.apple_locale = "de-DE".to_string();
    let plan = plan_transcription(&s, "/r", false, true, None).unwrap();
    assert_eq!(plan.audio_path, "/r/raw_mic.ogg");
    assert_eq!(plan.program, "apple-speech-sidecar");
    assert_eq!(plan.args, ["/r/temp_transcription.wav", "--lang", "de-DE"]);
    assert_eq!(plan.source, TranscriptSource::Apple);
    assert_eq!(plan.label, "Apple Speech");
    s.transcription.provider = TranscriptionProvider::FluidAudio;
    s.transcription.diarize = false;
    let plan = plan_transcription(&s, "/r", true, true, None).unwrap();
    assert_eq!(plan.audio_path, "/r/audio_mix.ogg");
    assert_eq!(plan.args, ["/r/temp_transcription.wav", "--no-diarize"]);
    assert_eq!(plan.source, TranscriptSource::Fluidaudio);
    assert_eq!(find_audio("/r", false, false), None);
}

#[test]
fn progress_is_read_from_the_diagnostics() {
    let p = parse_progress_line("PROGRESS:decode:42").unwrap();
    assert_eq!((p.stage.as_str(), p.percent), ("decode", 42));
    assert!(parse_progress_line("PROGRESS:decode").is_none());
    assert!(parse_progress_line("PROGRESS:decode:x").is_none());
    assert!(parse_progress_line("progress:decode:1").is_none());
    let all = parse_progress("noise\nPROGRESS:a:1\nPROGRESS:b:2\n");
    assert_eq!(all.len(), 2);
    assert_eq!(all[1].stage, "b");
}

#[test]
fn a_sidecar_run_gathers_what_is_written() {
    let mut run = SidecarRun::new("FluidAudio".to_string());
    run.on_stdout(&vec![1, 2]);
    run.on_stdout(&vec![3]);
    assert_eq!(run.stdout, [1, 2, 3]);
    assert_eq!(run.on_stderr(&b"PROGRESS:a:1\n".to_vec()).len(), 1);
    assert_eq!(run.on_stderr(&b"boom".to_vec()).len(), 0);
    assert_eq!(
        run.check_exit().unwrap_err(),
        "FluidAudio sidecar failed: PROGRESS:a:1\nboom"
    );
    run.on_exit(Some(0));
    assert!(run.check_exit().is_ok());
    run.on_exit(Some(1));
    assert!(run.check_exit().is_err());
    assert!(run.timed_out(600_000).is_none());
    assert_eq!(
        run.timed_out(600_001).unwrap(),
        "FluidAudio sidecar timed out after 10 minutes"
    );
}

#[test]
fn an_answer_becomes_a_transcript() {
    let answer = parse_sidecar_output(
        r#"{"model":"m","text":"hi","segments":[{"speakerId":"A","startTime":0.5,"endTime":2,"text":"hi"}]}"#,
        None,
        "FluidAudio",
    )
    .unwrap();
    assert_eq!(answer.segments[0].speaker_id, "A");
    assert_eq!(answer.segments[0].start_time.text, "0.5");
    let t = transcript_at(answer, TranscriptSource::Fluidaudio, 1500, "now".to_string());
    assert_eq!(t.created_at, "now");
    assert_eq!(t.duration_ms, 1500);
    assert_eq!(t.language.as_deref(), Some("auto"));
    assert_eq!(t.text.as_deref(), Some("hi"));
    assert_eq!(t.segments.len(), 1);
}

#[test]
fn an_answer_that_cannot_be_read_is_an_error() {
    let fault = |text: &str| parse_sidecar_output(text, None, "FluidAudio").unwrap_err();
    assert!(fault("nonsense").starts_with("Failed to parse FluidAudio output: "));
    assert!(fault("[]").starts_with("Failed to parse FluidAudio output: "));
    assert!(fault("{\"text\":\"hi\"}").contains("model"));
    assert!(fault("{\"model\":\"m\",\"text\":\"hi\",\"segments\":[{\"text\":\"x\"}]}").contains("speakerId"));
    assert!(parse_sidecar_output("{\"model\":\"m\",\"text\":\"hi\"}", None, "x").unwrap().segments.is_empty());
}

#[test]
fn a_transcript_is_stamped_with_the_time() {
    let answer = SidecarOutput {
        model: "m".to_string(),
        text: "t".to_string(),
        segments: vec![],
    };
    let t = transcript_of(answer, TranscriptSource::Apple, 1);
    assert!(t.created_at.ends_with('Z'));
    assert_eq!(t.created_at.len(), "2026-03-01T00:00:00Z".len());
}

#[test]
fn a_mix_is_the_mean_towards_zero() {
    assert_eq!(mix_to_mono(&vec![vec![3, -3], vec![2, -2]], 2), [2, -2]);
    assert_eq!(mix_to_mono(&vec![vec![1, 2, 3]], 1), [1, 2, 3]);
    assert_eq!(mix_to_mono(&vec![vec![i16::MAX], vec![i16::MAX]], 2), [32767]);
    assert!(mix_to_mono(&vec![], 2).is_empty());
}

#[test]
fn a_transcript_is_exported() {
    let t = tj("hello", vec![]);
    let document = export_transcript(Some((&t, "source: local")), Some("old".to_string())).unwrap();
    assert_eq!(legacy_transcript_text(&document), "hello");
    assert_eq!(metadata_block(&document).unwrap(), "source: local");
    assert_eq!(export_transcript(None, Some("old".to_string())).unwrap(), "old");
    assert_eq!(export_transcript(None, None).unwrap_err(), "No transcript found");
}

#[test]
fn the_bytes_of_a_sidecar_become_its_answer() {
    let mut run = SidecarRun::new("FluidAudio".to_string());
    run.on_stdout(&b"{\"model\":\"m\",".to_vec());
    run.on_stdout(&b"\"text\":\"h\xc3\xa9 \xff\"}".to_vec());
    run.on_stderr(&b"bo\xffom".to_vec());
    assert_eq!(run.stderr, "bo\u{fffd}om");
    assert_eq!(
        sidecar_answer(&run, None).unwrap_err(),
        "FluidAudio sidecar failed: bo\u{fffd}om"
    );
    run.on_exit(Some(0));
    let answer = sidecar_answer(&run, None).unwrap();
    assert_eq!((answer.model.as_str(), answer.text.as_str()), ("m", "h\u{e9} \u{fffd}"));
    run.on_stdout(&b"}".to_vec());
    assert!(sidecar_answer(&run, None)
        .unwrap_err()
        .starts_with("Failed to parse FluidAudio output: "));
}

#[test]
fn an_answer_may_be_an_array_of_its_fields() {
    let answer = parse_sidecar_output(r#"["m","hi",[["A",0.5,2,"hi"]]]"#, None, "x").unwrap();
    assert_eq!((answer.model.as_str(), answer.text.as_str()), ("m", "hi"));
    assert_eq!(answer.segments[0].speaker_id, "A");
    assert_eq!(answer.segments[0].end_time.text, "2");
    assert!(parse_sidecar_output(r#"["m","hi"]"#, None, "x").unwrap().segments.is_empty());
    for text in [r#"["m"]"#, r#"["m","hi",[],1]"#, r#"["m","hi",[["A",0.5,2]]]"#, r#"[1,"hi"]"#] {
        assert!(parse_sidecar_output(text, None, "x").is_err(), "{text}");
    }
}

#[test]
fn what_the_typed_reader_refuses_is_refused() {
    let twice = r#"{"model":"a","model":"b","text":"t"}"#;
    let why = || Some("duplicate field `model` at line 1 column 20".to_string());
    assert_eq!(
        parse_sidecar_output(twice, why(), "Qwen3").unwrap_err(),
        "Failed to parse Qwen3 output: duplicate field `model` at line 1 column 20"
    );
    let mut run = SidecarRun::new("Qwen3".to_string());
    run.on_stdout(&twice.as_bytes().to_vec());
    assert_eq!(run.answer_text(), twice);
    run.on_exit(Some(0));
    assert!(sidecar_answer(&run, why()).unwrap_err().ends_with("at line 1 column 20"));
    run.on_exit(Some(1));
    assert_eq!(sidecar_answer(&run, why()).unwrap_err(), "Qwen3 sidecar failed: ");
}
