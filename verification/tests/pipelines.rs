use nbp::config::{
    AppSettings, DictationInputSource, DictationShortcut, DictationTriggerMode, StepType,
};
use nbp::json::{parse_array, Json};
use nbp::pipelines::{
    clear_missing_pipeline_references, delete_pipeline, get_pipeline, is_legacy_tag_definition,
    is_legacy_tag_state, legacy_tags, legacy_tags_in, list_pipelines, load_pipelines,
    pipelines_move, prune_and_parse_pipeline, retain_real_runs, rewrite_settings_pipeline_references,
    sanitize_legacy_tag_name, save_pipeline, save_pipeline_at, split_legacy_definitions,
    storage_migration_needed, validate_pipeline, Pipeline, PipelineState, PipelineStatus,
    PipelineStep, PipelineStorageMigrationStats, PipelinesMove, LEGACY_TAG_PIPELINE_DESCRIPTION,
};
use std::collections::HashMap;

const NOW: &str = "2026-03-01T10:00:00Z";

fn value(text: &str) -> Json {
    parse_array(&format!("[{text}]")).unwrap().remove(0)
}

fn settings() -> AppSettings {
    AppSettings::fresh("/data".to_string(), "codex".to_string())
}

fn step(name: &str, st: StepType, template: &str) -> PipelineStep {
    PipelineStep {
        name: name.to_string(),
        step_type: st,
        template: template.to_string(),
        config: Json::Null,
        description: None,
    }
}

fn make_valid_pipeline() -> Pipeline {
    Pipeline {
        name: "test-pipeline".to_string(),
        description: "A test pipeline".to_string(),
        auto_run: false,
        created_at: String::new(),
        updated_at: String::new(),
        steps: vec![
            step("summarize", StepType::CliAgent, "Summarize: {transcript}"),
            step("format", StepType::Shell, "echo \"$NBP_PROCESSING_RESULT\""),
        ],
    }
}

fn named(name: &str) -> Pipeline {
    let mut pipeline = make_valid_pipeline();
    pipeline.name = name.to_string();
    pipeline
}

fn shortcut(pipeline: &str) -> DictationShortcut {
    DictationShortcut {
        id: "shortcut".to_string(),
        name: "Shortcut".to_string(),
        hotkey: "cmd+e".to_string(),
        input_source: DictationInputSource::Audio,
        device_name: None,
        language: None,
        pipeline: Some(pipeline.to_string()),
        auto_paste: true,
        capture_system_audio: false,
        trigger_mode: DictationTriggerMode::Toggle,
    }
}

#[test]
fn test_valid_pipeline_passes_validation() {
    let pipeline = make_valid_pipeline();
    assert!(validate_pipeline(&pipeline).is_ok());
}

#[test]
fn test_empty_name_fails() {
    let mut pipeline = make_valid_pipeline();
    pipeline.name = "".to_string();
    let result = validate_pipeline(&pipeline);
    assert!(result.is_err());
    assert!(result.unwrap_err().contains("name cannot be empty"));
}

#[test]
fn test_empty_steps_fails() {
    let mut pipeline = make_valid_pipeline();
    pipeline.steps = vec![];
    let result = validate_pipeline(&pipeline);
    assert_eq!(result.unwrap_err(), "Pipeline must contain at least one step");
}

#[test]
fn test_step_with_empty_name_fails() {
    let mut pipeline = make_valid_pipeline();
    pipeline.steps[0].name = "".to_string();
    let result = validate_pipeline(&pipeline);
    assert!(result.is_err());
    assert!(result.unwrap_err().contains("empty name"));
}

#[test]
fn test_duplicate_step_names_fails() {
    let pipeline = Pipeline {
        name: "dup-pipeline".to_string(),
        description: "test".to_string(),
        auto_run: false,
        created_at: String::new(),
        updated_at: String::new(),
        steps: vec![
            step("step-a", StepType::CliAgent, "{transcript}"),
            step("step-a", StepType::Shell, "{processing_result}"),
        ],
    };
    let result = validate_pipeline(&pipeline);
    assert!(result.is_err());
    assert!(result.unwrap_err().contains("Duplicate step name"));
}

#[test]
fn test_legacy_connection_type_alias_deserializes() {
    let json = r#"{
        "name": "legacy",
        "description": "",
        "steps": [
            { "name": "s1", "connection_type": "cli_agent", "template": "{transcript}" }
        ]
    }"#;
    let p = prune_and_parse_pipeline(value(json), NOW).unwrap();
    assert_eq!(p.steps[0].step_type, StepType::CliAgent);
}

#[test]
fn test_prune_drops_legacy_delivery_steps_keeps_cli_shell() {
    let json = value(
        r#"{
        "name": "mixed",
        "description": "",
        "steps": [
            { "name": "summarize", "connection_type": "cli_agent", "connection_id": "dead-id", "template": "{transcript}" },
            { "name": "to-notion", "connection_type": "notion", "connection_id": "abc", "template": "{processing_result}" },
            { "name": "post", "step_type": "shell", "template": "echo hi" }
        ]
    }"#,
    );
    let p = prune_and_parse_pipeline(json, NOW).unwrap();
    assert_eq!(p.steps.len(), 2, "notion step should be dropped");
    assert_eq!(p.steps[0].name, "summarize");
    assert_eq!(p.steps[0].step_type, StepType::CliAgent);
    assert_eq!(p.steps[0].template, "{transcript}");
    assert_eq!(p.steps[1].name, "post");
    assert_eq!(p.steps[1].step_type, StepType::Shell);
}

#[test]
fn test_pipeline_name_with_slash_fails() {
    let mut pipeline = make_valid_pipeline();
    pipeline.name = "bad/name".to_string();
    let result = validate_pipeline(&pipeline);
    assert!(result.is_err());
    assert!(result.unwrap_err().contains("invalid characters"));
}

#[test]
fn test_only_exact_legacy_tag_definition_is_classified() {
    let legacy = || Pipeline {
        name: "storage".to_string(),
        description: LEGACY_TAG_PIPELINE_DESCRIPTION.to_string(),
        steps: vec![],
        auto_run: false,
        created_at: String::new(),
        updated_at: String::new(),
    };
    assert!(is_legacy_tag_definition(&legacy()));

    let mut user_created = legacy();
    user_created.description = "My intentionally empty old pipeline".to_string();
    assert!(!is_legacy_tag_definition(&user_created));

    let mut with_step = legacy();
    with_step.steps.push(step("real", StepType::Shell, "echo ok"));
    assert!(!is_legacy_tag_definition(&with_step));
}

fn legacy_run() -> PipelineState {
    let timestamp = Some("2026-01-01T00:00:00Z".to_string());
    PipelineState {
        id: "legacy-run".to_string(),
        name: "storage".to_string(),
        status: PipelineStatus::Done,
        run_index: 0,
        started_at: timestamp.clone(),
        completed_at: timestamp,
        current_step: None,
        error: None,
    }
}

#[test]
fn test_legacy_tag_state_requires_exact_synthetic_shape() {
    let tags = vec!["storage".to_string()];
    let definitions = vec![];
    let legacy_definitions = vec!["storage".to_string()];
    let state = legacy_run();
    assert!(is_legacy_tag_state(&state, &tags, &definitions, &legacy_definitions));

    let mut real_run = state;
    real_run.run_index = 1;
    assert!(!is_legacy_tag_state(&real_run, &tags, &definitions, &legacy_definitions));
}

#[test]
fn test_missing_settings_references_are_cleared() {
    let mut settings = settings();
    settings.default_pipeline = Some("kept".to_string());
    settings.last_used_pipeline = Some("gone".to_string());
    settings.dictation.shortcuts.push(shortcut("gone"));

    let changed = clear_missing_pipeline_references(&mut settings, &vec!["kept".to_string()]);
    assert_eq!(changed, 2);
    assert_eq!(settings.default_pipeline.as_deref(), Some("kept"));
    assert_eq!(settings.last_used_pipeline, None);
    assert_eq!(settings.dictation.shortcuts[0].pipeline, None);
}

#[test]
fn renaming_follows_every_reference() {
    let mut settings = settings();
    settings.default_pipeline = Some("old".to_string());
    settings.last_used_pipeline = Some("other".to_string());
    settings.dictation.shortcuts = vec![shortcut("old")];
    let changed = rewrite_settings_pipeline_references(&mut settings, "old", Some("new"));
    assert_eq!(changed, 2);
    assert_eq!(settings.default_pipeline.as_deref(), Some("new"));
    assert_eq!(settings.last_used_pipeline.as_deref(), Some("other"));
    assert_eq!(settings.dictation.shortcuts[0].pipeline.as_deref(), Some("new"));
    assert_eq!(rewrite_settings_pipeline_references(&mut settings, "new", None), 2);
    assert_eq!(settings.default_pipeline, None);
    assert_eq!(settings.dictation.shortcuts[0].pipeline, None);
}

#[test]
fn saved_pipelines_are_found_and_deleted_ones_are_not() {
    let saved = save_pipeline_at(vec![named("a")], named("b"), None, NOW).unwrap();
    assert!(saved.renamed.is_none());
    let b = get_pipeline(&saved.pipelines, "b").unwrap();
    assert_eq!(b.created_at, NOW);
    assert_eq!(b.updated_at, NOW);
    let left = delete_pipeline(saved.pipelines, "a").unwrap();
    assert!(get_pipeline(&left, "a").is_err());
    assert!(get_pipeline(&left, "b").is_ok());
    assert!(delete_pipeline(left, "a").is_err());
}

#[test]
fn saving_under_another_name_renames() {
    let saved =
        save_pipeline_at(vec![named("old")], named("new"), Some("old".to_string()), NOW).unwrap();
    assert_eq!(saved.renamed, Some(("old".to_string(), "new".to_string())));
    assert!(get_pipeline(&saved.pipelines, "old").is_err());
    assert!(get_pipeline(&saved.pipelines, "new").is_ok());
}

#[test]
fn saving_stamps_the_time() {
    let saved = save_pipeline(vec![], named("p"), None).unwrap();
    assert!(get_pipeline(&saved.pipelines, "p").unwrap().updated_at.ends_with('Z'));
    let mut bad = named("p");
    bad.steps.clear();
    assert!(save_pipeline(vec![], bad, None).is_err());
}

#[test]
fn pipelines_are_listed_by_name() {
    let list = list_pipelines(vec![named("b"), named("c"), named("a")]);
    let names: Vec<&str> = list.iter().map(|p| p.name.as_str()).collect();
    assert_eq!(names, ["a", "b", "c"]);
}

#[test]
fn stored_pipelines_are_read_back() {
    let raw = r#"{"p":{"name":"other","description":"d","auto_run":true,"created_at":"c","updated_at":"u",
        "steps":[{"name":"s","step_type":"save_local","template":"t","config":{"path":"/x"}},
                 {"name":"n","step_type":"savelocal","template":"t"}]}}"#;
    let all = load_pipelines(raw, NOW).unwrap();
    assert_eq!(all.len(), 1);
    assert_eq!(all[0].name, "p");
    assert_eq!(all[0].description, "d");
    assert!(all[0].auto_run);
    assert_eq!(all[0].created_at, "c");
    assert_eq!(all[0].updated_at, "u");
    assert_eq!(all[0].steps.len(), 1);
    assert_eq!(all[0].steps[0].step_type, StepType::SaveLocal);
    assert_eq!(all[0].steps[0].config.get_text("path").unwrap(), "/x");
    assert!(load_pipelines("not json", NOW).unwrap_err().starts_with("pipelines.json is invalid: "));
    for text in ["[]", "3", "{", "{\"p\":}"] {
        let outside = serde_json::from_str::<HashMap<String, serde_json::Value>>(text).unwrap_err();
        assert_eq!(
            load_pipelines(text, NOW).unwrap_err(),
            format!("pipelines.json is invalid: {outside}")
        );
    }
    assert_eq!(load_pipelines("{}", NOW).unwrap().len(), 0);
    assert!(load_pipelines(r#"{"p":{"steps":[]}}"#, NOW)
        .unwrap_err()
        .starts_with("Pipeline 'p' is invalid: "));
}

#[test]
fn legacy_labels_are_told_from_pipelines() {
    assert_eq!(sanitize_legacy_tag_name("a/b\\c:d\0e f"), "a-b-c-d-e f");
    let mut label = named("storage");
    label.description = LEGACY_TAG_PIPELINE_DESCRIPTION.to_string();
    label.steps.clear();
    let (kept, removed) = split_legacy_definitions(vec![named("real"), label]);
    assert_eq!(kept.len(), 1);
    assert_eq!(removed, ["storage"]);
    let (had, tags) = legacy_tags(&value(r#"{"tags":["a","b",3]}"#));
    assert!(had);
    assert_eq!(tags, ["a", "b"]);
    assert!(!legacy_tags(&value("{}")).0);
    let (had, tags) = legacy_tags_in(r#"{"tags":["a","b",3]}"#).unwrap();
    assert!(had);
    assert_eq!(tags, ["a", "b"]);
    assert_eq!(legacy_tags_in("{}").unwrap(), (false, vec![]));
    assert!(legacy_tags_in("{").is_none());
}

#[test]
fn a_name_stands_once_among_the_pipelines() {
    let one = |d: &str| format!("{{\"name\":\"x\",\"description\":\"{d}\",\"steps\":[]}}");
    let raw = format!("{{\"p\":{},\"p\":{}}}", one("first"), one("second"));
    let all = load_pipelines(&raw, NOW).unwrap();
    assert_eq!(all.len(), 1);
    assert_eq!(all[0].description, "second");
}

#[test]
fn only_synthetic_runs_are_dropped() {
    let mut real = legacy_run();
    real.name = "notes".to_string();
    let kept = retain_real_runs(
        vec![legacy_run(), real],
        &vec!["storage".to_string()],
        &vec!["notes".to_string()],
        &vec![],
    );
    assert_eq!(kept.len(), 1);
    assert_eq!(kept[0].name, "notes");
}

#[test]
fn a_migration_counts_what_it_does() {
    assert!(storage_migration_needed(0));
    assert!(!storage_migration_needed(1));
    let mut stats = PipelineStorageMigrationStats::new();
    assert!(stats.recording(3, 1, false));
    assert_eq!(stats.recording_states_removed, 2);
    assert!(stats.recording(1, 1, true));
    assert!(!stats.recording(1, 1, false));
    assert_eq!(stats.recordings_rewritten, 2);
    stats.skip_malformed();
    assert_eq!(stats.malformed_recordings_skipped, 1);
    assert_eq!(pipelines_move(true, true), PipelinesMove::Protect);
    assert_eq!(pipelines_move(false, true), PipelinesMove::Move);
    assert_eq!(pipelines_move(false, false), PipelinesMove::Nothing);
}

fn refused(text: &str) -> String {
    prune_and_parse_pipeline(value(text), NOW).unwrap_err()
}

#[test]
fn a_definition_may_be_an_array_of_its_fields() {
    let read = |text: &str| prune_and_parse_pipeline(value(text), NOW).unwrap();
    let p = read(r#"["n","d"]"#);
    assert_eq!((p.name.as_str(), p.description.as_str()), ("n", "d"));
    assert!(p.steps.is_empty() && !p.auto_run);
    assert_eq!((p.created_at.as_str(), p.updated_at.as_str()), (NOW, NOW));
    let p = read(
        r#"["n","d",[["s","shell","t",{"path":"/x"},null],{"name":"k","step_type":{"save_local":null},"template":"u"}],true,"c","u"]"#,
    );
    assert_eq!(p.steps.len(), 2);
    assert_eq!(p.steps[0].step_type, StepType::Shell);
    assert_eq!(p.steps[0].config.get_text("path").unwrap(), "/x");
    assert!(p.steps[0].description.is_none());
    assert_eq!(p.steps[1].step_type, StepType::SaveLocal);
    assert!(p.auto_run);
    assert_eq!((p.created_at.as_str(), p.updated_at.as_str()), ("c", "u"));
    assert_eq!(refused("[]"), "invalid length 0, expected struct Pipeline with 6 elements");
    assert_eq!(refused(r#"["n"]"#), "invalid length 1, expected struct Pipeline with 6 elements");
    assert_eq!(
        refused(r#"["n","d",[],false,"c","u",1]"#),
        "invalid length 7, expected fewer elements in array"
    );
    assert_eq!(
        refused(r#"["n","d",[["s","slack","t"]]]"#),
        "unknown variant `slack`, expected one of `cli_agent`, `shell`, `save_local`"
    );
    let step = |s: &str| refused(&format!("[\"n\",\"d\",[{s}]]"));
    for (s, at) in [("[]", 0), (r#"["s"]"#, 1), (r#"["s","shell"]"#, 2), (r#"["s","shell","t"]"#, 4)] {
        assert_eq!(
            step(s),
            format!("invalid length {at}, expected struct PipelineStep with 5 elements")
        );
    }
    assert_eq!(
        step(r#"["s","shell","t",null,"d",1]"#),
        "invalid length 6, expected fewer elements in array"
    );
    assert_eq!(step(r#"["s",3,"t"]"#), "invalid type: integer `3`, expected string or map");
    assert_eq!(
        step(r#"["s",{"shell":1},"t"]"#),
        "invalid type: integer `1`, expected unit"
    );
    assert_eq!(
        step(r#"["s",{},"t"]"#),
        "invalid value: map, expected map with a single key"
    );
    assert_eq!(step("7"), "invalid type: integer `7`, expected struct PipelineStep");
}

#[test]
fn a_field_of_the_wrong_type_is_named_as_the_json_reader_names_it() {
    for v in ["null", "true", "7", "-7", "1.5", "1e30", "[1]", "{\"a\":1}"] {
        let outside: serde_json::Value = serde_json::from_str(v).unwrap();
        assert_eq!(
            refused(&format!(r#"{{"name":{v},"description":"d"}}"#)),
            serde_json::from_value::<String>(outside).unwrap_err().to_string()
        );
    }
    let text = r#""a\"b\n\u0007\u00e9""#;
    let outside: serde_json::Value = serde_json::from_str(text).unwrap();
    assert_eq!(
        refused(&format!(r#"{{"name":"n","description":"d","auto_run":{text}}}"#)),
        serde_json::from_value::<bool>(outside.clone()).unwrap_err().to_string()
    );
    assert_eq!(
        refused(&format!(r#"{{"name":"n","description":"d","steps":{text}}}"#)),
        serde_json::from_value::<Vec<String>>(outside).unwrap_err().to_string()
    );
    assert_eq!(refused("3"), "invalid type: integer `3`, expected struct Pipeline");
}

#[test]
fn the_first_entry_that_cannot_be_read_is_the_fault() {
    assert_eq!(
        refused(r#"{"name":1,"description":2}"#),
        "invalid type: integer `2`, expected a string"
    );
    assert_eq!(refused(r#"{"auto_run":1}"#), "invalid type: integer `1`, expected a boolean");
    assert_eq!(refused("{}"), "missing field `name`");
    assert_eq!(refused(r#"{"name":"n"}"#), "missing field `description`");
    let step = |s: &str| refused(&format!(r#"{{"name":"n","description":"d","steps":[{s}]}}"#));
    assert_eq!(step(r#"{"step_type":"shell"}"#), "missing field `name`");
    assert_eq!(step(r#"{"step_type":"shell","name":"s"}"#), "missing field `template`");
    assert_eq!(
        step(r#"{"step_type":"shell","connection_type":"shell","name":1}"#),
        "invalid type: integer `1`, expected a string"
    );
    assert_eq!(
        step(r#"{"step_type":"shell","connection_type":"shell","name":"s"}"#),
        "duplicate field `step_type`"
    );
    assert_eq!(
        step(r#"{"step_type":"shell","connection_type":"slack","name":"s"}"#),
        "unknown variant `slack`, expected one of `cli_agent`, `shell`, `save_local`"
    );
    assert_eq!(
        step(r#"{"step_type":"shell","name":"s","template":"t","description":[]}"#),
        "invalid type: sequence, expected a string"
    );
}
