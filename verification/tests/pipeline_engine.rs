use nbp::config::StepType;
use nbp::json::{parse_array, Json};
use nbp::pipeline_engine::{
    agent_config, assign_pipeline, assign_pipeline_at, calendar_title, current_run_index,
    deleted_message, extract_title_from_output, format_attendees, format_date,
    get_pipeline_output_dir, get_pipeline_status, get_step_outputs, give_id, heal_runs,
    heal_runs_in, ids_missing, ids_missing_in, needs_title, parse_step_status, prepare_step,
    progress_payload, remove_pipeline_run, render_template, resolve_app_name, run_removed_in,
    runs_replaced_in, skip_reason, skipped_artifact_at, step_body, stored_runs_in,
    update_pipeline_state,
    update_pipeline_state_at, PipelineRun, RunAction, StepContext,
};
use nbp::pipelines::{Pipeline, PipelineState, PipelineStatus, PipelineStep};
use nbp::storage::Attendee;

fn value(text: &str) -> Json {
    parse_array(&format!("[{text}]")).unwrap().remove(0)
}

fn step(name: &str, st: StepType) -> PipelineStep {
    PipelineStep {
        name: name.to_string(),
        step_type: st,
        template: "{transcript}|{processing_result}|{app}".to_string(),
        config: Json::Null,
        description: None,
    }
}

fn pipeline(steps: Vec<PipelineStep>) -> Pipeline {
    Pipeline {
        name: "p".to_string(),
        description: String::new(),
        steps,
        auto_run: false,
        created_at: String::new(),
        updated_at: String::new(),
    }
}

#[test]
fn test_render_template_all_three_placeholders() {
    let out = render_template(
        "Hi {app}, transcript is:\n{transcript}\n\nPrev: {processing_result}",
        "hello world",
        "Zoom",
        "summary v1",
        "",
        "",
        "",
    );
    assert!(out.contains("Hi Zoom"));
    assert!(out.contains("hello world"));
    assert!(out.contains("Prev: summary v1"));
}

#[test]
fn test_render_template_missing_keys_render_as_empty() {
    assert_eq!(render_template("static text", "T", "A", "P", "CT", "CA", "D"), "static text");
}

#[test]
fn test_render_template_empty_processing_result_for_first_step() {
    let out = render_template("[{processing_result}]", "T", "A", "", "", "", "");
    assert_eq!(out, "[]");
}

#[test]
fn test_render_template_calendar_and_date_placeholders() {
    let out = render_template(
        "{calendar_title} on {date}\nWith: {calendar_attendees}\n\n{transcript}",
        "the words",
        "Zoom",
        "",
        "Q3 Planning",
        "Alice, Bob",
        "2026-06-03",
    );
    assert!(out.contains("Q3 Planning on 2026-06-03"));
    assert!(out.contains("With: Alice, Bob"));
    assert!(out.contains("the words"));
}

#[test]
fn test_parse_step_status_done() {
    let content = "---\nname: test\nstatus: done\nerror: null\n---\n\nContent";
    let report = parse_step_status(content);
    assert_eq!(report.status, "done");
    assert!(report.error.is_none());
    assert_eq!(report.output.unwrap(), "Content");
}

#[test]
fn test_parse_step_status_failed() {
    let content = "---\nname: test\nstatus: failed\nerror: \"API error: 401\"\n---\n\nFailed";
    let report = parse_step_status(content);
    assert_eq!(report.status, "failed");
    assert_eq!(report.error.unwrap(), "API error: 401");
    assert_eq!(report.output.unwrap(), "Failed");
}

#[test]
fn test_parse_step_status_no_frontmatter() {
    let content = "Plain content without frontmatter";
    let report = parse_step_status(content);
    assert_eq!(report.status, "pending");
    assert!(report.error.is_none());
    assert!(report.output.is_none());
}

#[test]
fn test_pipeline_output_dir_isolation() {
    let dir_a = get_pipeline_output_dir("/data", "rec-1", "pipeline-a", 0);
    let dir_b = get_pipeline_output_dir("/data", "rec-1", "pipeline-b", 0);
    assert_ne!(dir_a, dir_b);
    assert!(dir_a.contains("pipelines/pipeline-a"));
    assert!(dir_b.contains("pipelines/pipeline-b"));
}

#[test]
fn runs_of_one_pipeline_have_directories_of_their_own() {
    let first = get_pipeline_output_dir("/data", "rec-1", "p", 0);
    let second = get_pipeline_output_dir("/data", "rec-1", "p", 1);
    let third = get_pipeline_output_dir("/data", "rec-1", "p", 2);
    assert_ne!(first, second);
    assert_ne!(second, third);
}

#[test]
fn stamps_give_the_duration() {
    let content = "---\nstatus: done\ncreated_at: 2026-01-01T00:00:00Z\ncompleted_at: \"2026-01-01T00:01:30Z\"\n---\n";
    assert_eq!(parse_step_status(content).duration_ms, Some(90_000));
    let content = "---\nstatus: done\ncreated_at: null\ncompleted_at: 2026-01-01T00:01:30Z\n---\n";
    assert_eq!(parse_step_status(content).duration_ms, None);
}

#[test]
fn a_skipped_step_reads_back_as_skipped() {
    let mut s = step("post", StepType::Shell);
    s.description = Some("Post \"it\"".to_string());
    let artifact = skipped_artifact_at(&s, &skip_reason(), "2026-01-01T00:00:00Z");
    assert!(artifact.starts_with(
        "---\nname: post\ndescription: \"Post \\\"it\\\"\"\nconnector: shell\nstatus: skipped\ncreated_at: 2026-01-01T00:00:00Z\ncompleted_at: 2026-01-01T00:00:00Z\nerror: \""
    ));
    let report = parse_step_status(&artifact);
    assert_eq!(report.status, "skipped");
    assert_eq!(report.error, Some(skip_reason()));
    assert_eq!(report.duration_ms, Some(0));
}

#[test]
fn titles_come_from_topics_and_headings() {
    assert_eq!(extract_title_from_output(""), None);
    assert_eq!(
        extract_title_from_output("# Quarterly planning\n\nText").as_deref(),
        Some("Quarterly planning")
    );
}

#[test]
fn a_run_goes_through_its_steps_and_stops_at_a_failure() {
    let p = pipeline(vec![
        step("a", StepType::CliAgent),
        step("b", StepType::Shell),
        step("c", StepType::Shell),
    ]);
    let mut run = PipelineRun::begin(&p).unwrap();
    assert!(matches!(run.action(), RunAction::Step(0)));
    run.step_done("first".to_string());
    assert_eq!(run.processing_result, "first");
    assert!(matches!(run.action(), RunAction::Step(1)));
    run.step_failed("boom".to_string());
    assert!(matches!(run.action(), RunAction::Finish));
    assert!(run.status() == PipelineStatus::Partial);
    assert!(run.error().unwrap().contains("boom"));
    assert!(!run.is_lost(0));
    assert!(run.is_lost(2));
    assert!(PipelineRun::begin(&pipeline(vec![])).is_err());
}

#[test]
fn a_run_that_goes_well_is_done() {
    let p = pipeline(vec![step("a", StepType::CliAgent)]);
    let mut run = PipelineRun::begin(&p).unwrap();
    run.step_done("out".to_string());
    assert!(matches!(run.action(), RunAction::Finish));
    assert!(run.status() == PipelineStatus::Done);
    assert!(run.error().is_none());
    assert_eq!(run.title_step(), Some(0));
}

#[test]
fn a_step_is_prepared_from_its_context() {
    let ctx = StepContext {
        transcript: "words".to_string(),
        app: "Zoom".to_string(),
        started_at: "2026-01-01T00:00:00Z".to_string(),
        output_dir: "/out".to_string(),
        calendar_title: String::new(),
        calendar_attendees: String::new(),
        date: "2026-01-01".to_string(),
    };
    let d = prepare_step(&step("s", StepType::Shell), "prev", &ctx);
    assert_eq!(d.input, "words|prev|Zoom");
    assert!(d.step_type == StepType::Shell);
    assert_eq!(step_body(StepType::SaveLocal, "in", Some("---\na: b\n---\nx")), "in");
    assert_eq!(ctx.input("{date}", ""), "2026-01-01");
}

#[test]
fn an_agent_gets_the_rendered_prompt() {
    let config = agent_config(value(r#"{"cli":"agy","prompt":"old"}"#), "new".to_string());
    assert_eq!(config.get_text("cli").unwrap(), "agy");
    assert_eq!(config.get_text("prompt").unwrap(), "new");
    assert!(matches!(config.get("prompt_complete"), Some(Json::Bool(true))));
}

#[test]
fn small_texts_for_templates() {
    assert_eq!(resolve_app_name(Some("Zoom")), "Zoom");
    assert_eq!(resolve_app_name(None), "NBP");
    assert_eq!(resolve_app_name(Some("  ")), "NBP");
    let attendee = |n: Option<&str>, e: Option<&str>| Attendee {
        name: n.map(|s| s.to_string()),
        email: e.map(|s| s.to_string()),
    };
    let all = vec![attendee(Some("Alice"), Some("a@x")), attendee(None, Some("b@x"))];
    assert_eq!(format_attendees(&all), "Alice, b@x");
    assert_eq!(format_attendees(&vec![]), "");
    let date = format_date("2026-06-03T12:00:00Z");
    assert_eq!(date.len(), 10);
    assert!(["2026-06-02", "2026-06-03", "2026-06-04"].contains(&date.as_str()));
    let turn = format_date("2024-02-29T12:00:00Z");
    assert!(["2024-02-28", "2024-02-29", "2024-03-01"].contains(&turn.as_str()));
    assert_eq!(format_date("yesterday"), "");
    assert_eq!(calendar_title(true, "Plan"), "Plan");
    assert_eq!(calendar_title(false, "Plan"), "");
    assert_eq!(deleted_message("p"), "Pipeline 'p' was deleted before execution");
    assert!(needs_title(""));
    assert!(needs_title("Untitled Recording"));
    assert!(needs_title("Recording 2026-01-01"));
    assert!(!needs_title("Recordings"));
    let payload = progress_payload("r", "p", &step("s", StepType::Shell), 1, 3, "running");
    assert_eq!((payload.step_index, payload.total_steps), (1, 3));
    assert_eq!(payload.step_name, "s");
}

#[test]
fn states_follow_the_run() {
    let mut states: Vec<PipelineState> = Vec::new();
    assign_pipeline_at(&mut states, "p", true, "t0", "id-0".to_string()).unwrap();
    assert_eq!(current_run_index(&states, "p"), 0);
    update_pipeline_state_at(
        &mut states,
        "p",
        PipelineStatus::Running,
        Some(1),
        None,
        "t1",
        "unused".to_string(),
    );
    assert_eq!(states.len(), 1);
    assert!(states[0].status == PipelineStatus::Running);
    assert_eq!(states[0].current_step, Some(1));
    update_pipeline_state(&mut states, "p", PipelineStatus::Done, None, None);
    assert!(states[0].status == PipelineStatus::Done);
    assert!(states[0].completed_at.as_deref().unwrap().ends_with('Z'));
    assign_pipeline(&mut states, "p", true).unwrap();
    assert_eq!(states.len(), 2);
    assert_eq!(current_run_index(&states, "p"), 1);
    assert_eq!(get_pipeline_status(&states, "p"), Some(0));
    assert_eq!(get_pipeline_status(&states, "gone"), None);
    assert!(assign_pipeline(&mut states, "gone", false).is_err());
}

#[test]
fn outputs_of_steps_are_read_from_their_artifacts() {
    let steps = vec![step("a", StepType::CliAgent), step("b", StepType::Shell)];
    let done = Some("---\nstatus: done\nerror: null\n---\n\nText".to_string());
    let all = get_step_outputs(&steps, &vec![done, None]);
    assert_eq!(all.len(), 2);
    assert_eq!(all[0].status, "done");
    assert_eq!(all[0].output.as_deref(), Some("Text"));
    assert_eq!(all[1].name, "b");
    assert_eq!(all[1].status, "pending");
}

#[test]
fn stored_runs_are_found_by_their_identifier() {
    let metadata =
        value(r#"{"pipelines":[{"id":"x","name":"p","run_index":2},{"name":"q"},{"id":""},7]}"#);
    let found = remove_pipeline_run(&metadata, "x").unwrap();
    assert_eq!((found.index, found.name.as_str(), found.run_index), (0, "p", 2));
    let Err(message) = remove_pipeline_run(&metadata, "y") else {
        panic!("there is no such run");
    };
    assert!(message.contains("'y' not found"));
    let Some(Json::List(runs)) = metadata.get("pipelines") else {
        panic!("the runs are a list");
    };
    assert!(ids_missing(runs));
    assert!(!ids_missing(&vec![]));
    let runs = parse_array("[{\"id\":\"x\"},{\"name\":\"q\"},{\"id\":\"\"},7]").unwrap();
    let healed = heal_runs(runs);
    assert_eq!(healed[0].get_text("id").unwrap(), "x");
    assert_eq!(healed[1].get_text("id").unwrap().len(), 36);
    assert_eq!(healed[1].get_text("name").unwrap(), "q");
    assert_ne!(healed[1].get_text("id"), healed[2].get_text("id"));
    assert!(matches!(healed[3], Json::Number(_)));
    let kept = healed[1].get_text("id").unwrap().clone();
    assert_eq!(heal_runs(healed)[1].get_text("id").unwrap(), &kept);
    let healed = give_id(value(r#"{"name":"q"}"#), "fresh".to_string());
    assert_eq!(healed.get_text("id").unwrap(), "fresh");
    assert_eq!(healed.get_text("name").unwrap(), "q");
    assert!(matches!(give_id(Json::Null, "fresh".to_string()), Json::Null));
}

fn runs_of(metadata: &Json) -> &Vec<Json> {
    match metadata.get("pipelines") {
        Some(Json::List(runs)) => runs,
        _ => panic!("the runs are a list"),
    }
}

#[test]
fn a_run_leaves_the_metadata_file() {
    let raw = r#"{"id":"r","pipelines":[{"id":"x","name":"p","run_index":2},{"id":"y","name":"q"}]}"#;
    let (found, rest) = run_removed_in(raw, "x").unwrap();
    assert_eq!((found.index, found.name.as_str(), found.run_index), (0, "p", 2));
    assert_eq!(rest.get_text("id").unwrap(), "r");
    assert_eq!(runs_of(&rest).len(), 1);
    assert_eq!(runs_of(&rest)[0].get_text("id").unwrap(), "y");
    let fault = |raw: &str, id: &str| match run_removed_in(raw, id) {
        Err(m) => m,
        Ok(_) => panic!("there is no such run"),
    };
    assert!(fault(raw, "z").contains("'z' not found"));
    assert!(fault("{", "x").starts_with("Failed to parse metadata: "));
}

#[test]
fn runs_are_read_and_replaced_in_the_metadata_file() {
    let raw = r#"{"id":"r","pipelines":[1,2]}"#;
    assert!(matches!(stored_runs_in(raw).unwrap(), Some(Json::List(runs)) if runs.len() == 2));
    assert!(stored_runs_in("{}").unwrap().is_none());
    assert!(stored_runs_in("[]").unwrap().is_none());
    assert!(stored_runs_in("{").unwrap_err().starts_with("Failed to parse metadata: "));
    let one = || Json::List(vec![Json::Null]);
    let changed = runs_replaced_in(raw, one()).unwrap();
    assert_eq!(changed.get_text("id").unwrap(), "r");
    assert_eq!(runs_of(&changed).len(), 1);
    assert_eq!(runs_of(&runs_replaced_in("{}", one()).unwrap()).len(), 1);
    assert_eq!(runs_replaced_in("[]", one()).unwrap_err(), "Metadata is not an object");
    assert!(runs_replaced_in("{", one()).unwrap_err().starts_with("Failed to parse metadata: "));
}

#[test]
fn runs_without_identifier_are_healed_in_the_metadata_file() {
    let raw = r#"{"id":"r","pipelines":[{"id":"x"},{"name":"q"}]}"#;
    assert!(ids_missing_in(raw));
    assert!(!ids_missing_in(r#"{"pipelines":[{"id":"x"}]}"#));
    assert!(!ids_missing_in(r#"{"pipelines":7}"#));
    assert!(!ids_missing_in("{"));
    let healed = heal_runs_in(raw).unwrap();
    assert_eq!(healed.get_text("id").unwrap(), "r");
    assert_eq!(runs_of(&healed)[0].get_text("id").unwrap(), "x");
    assert_eq!(runs_of(&healed)[1].get_text("id").unwrap().len(), 36);
    assert!(!ids_missing(runs_of(&healed)));
    assert!(heal_runs_in("{}").is_none());
    assert!(heal_runs_in("{").is_none());
}
