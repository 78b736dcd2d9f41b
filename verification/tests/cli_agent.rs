use nbp::cli_agent::{
    agent_cli, build_cli_command, bundled_clis, check_cli_availability, compose_full_prompt,
    expand_tilde, prepare_call, prompt_is_complete, report_call, report_call_at, spawn_error,
    CallOutcome, CliCall, StepLabels, SupportedCli,
};
use nbp::json::{parse_array, Json};
use nbp::pipeline_engine::parse_step_status;

fn object(text: &str) -> Json {
    parse_array(&format!("[{text}]")).unwrap().remove(0)
}

fn call(cli: &str, timeout_secs: u64) -> CliCall {
    CliCall {
        cli: cli.to_string(),
        args: vec![],
        working_directory: "/".to_string(),
        timeout_secs,
    }
}

const LABELS: StepLabels<'static> = StepLabels {
    step_name: "summary",
    step_input: "transcript",
    step_description: Some("Say \"it\""),
};

#[test]
fn complete_rendered_prompt_is_not_appended_twice() {
    let prompt = "Structure this:\nA short but real thought.";
    let full = compose_full_prompt(prompt, prompt, true);

    assert_eq!(full, prompt);
    assert_eq!(full.matches("A short but real thought.").count(), 1);
}

#[test]
fn legacy_transcript_placeholder_is_still_supported() {
    let full = compose_full_prompt("Structure this:\n{transcript}", "Raw thought", false);
    assert_eq!(full, "Structure this:\nRaw thought");
}

#[test]
fn a_prompt_without_placeholder_is_followed_by_the_text() {
    assert_eq!(compose_full_prompt("Do it", "words", false), "Do it\n\nwords");
}

/// An agent that names its model by a long flag.
fn configured() -> SupportedCli {
    SupportedCli {
        id: "writer".to_string(),
        name: "Writer".to_string(),
        install_hint: "get writer".to_string(),
        lead: vec!["-p".to_string()],
        model_flag: "--model".to_string(),
    }
}

#[test]
fn every_agent_has_its_arguments() {
    let clis = bundled_clis();
    assert_eq!(
        build_cli_command(&clis[0], "P", Some("m")),
        ["exec", "--skip-git-repo-check", "P", "-m", "m"]
    );
    assert_eq!(build_cli_command(&clis[1], "P", Some("m")), ["run", "P", "-m", "m"]);
    assert_eq!(build_cli_command(&clis[2], "P", Some("m")), ["-p", "P", "-m", "m"]);
    assert_eq!(build_cli_command(&clis[2], "P", None), ["-p", "P"]);
    assert_eq!(build_cli_command(&configured(), "P", Some("m")), ["-p", "P", "--model", "m"]);
}

#[test]
fn agents_are_listed_with_what_is_installed() {
    let mut clis = bundled_clis();
    clis.insert(0, configured());
    let all = check_cli_availability(&clis, &vec![true, false, false, true]);
    let ids: Vec<&str> = all.iter().map(|c| c.id.as_str()).collect();
    assert_eq!(ids, ["writer", "codex", "opencode", "agy"]);
    assert!(all[0].installed && !all[1].installed && all[3].installed);
    assert_eq!(all[1].name, "Codex CLI");
    assert_eq!(all[1].install_hint, "npm install -g @openai/codex");
}

#[test]
fn the_agent_has_to_be_named_and_known() {
    let clis = bundled_clis();
    assert_eq!(agent_cli(&object("{}"), &clis).unwrap_err(), "CLI agent config missing 'cli'");
    assert_eq!(
        agent_cli(&object("{\"cli\":\"vim\"}"), &clis).unwrap_err(),
        "CLI agent 'cli' must be one of [\"codex\", \"opencode\", \"agy\"], got 'vim'"
    );
    assert_eq!(agent_cli(&object("{\"cli\":\"agy\"}"), &clis).unwrap(), 2);
}

#[test]
fn a_call_is_prepared_from_the_configuration() {
    let clis = bundled_clis();
    let config = object(
        "{\"prompt\":\"Sum up {transcript}\",\"model\":\" \",\"timeout_secs\":5,\"working_directory\":\"~/x\"}",
    );
    let call =
        prepare_call(&config, &clis[2], true, Some("/home/u"), Ok("---\na: b\n---words")).unwrap();
    assert_eq!(call.args, ["-p", "Sum up words"]);
    assert_eq!(call.timeout_secs, 5);
    assert_eq!(call.working_directory, "/home/u/x");

    let complete = object("{\"prompt\":\"{transcript}\",\"prompt_complete\":true}");
    assert!(prompt_is_complete(&complete));
    let call = prepare_call(&complete, &clis[0], true, None, Err("gone")).unwrap();
    assert_eq!(call.args, ["exec", "--skip-git-repo-check", "{transcript}"]);
    assert_eq!(call.timeout_secs, 3600);
    assert_eq!(call.working_directory, ".");
}

#[test]
fn a_call_that_cannot_be_made() {
    let clis = bundled_clis();
    let config = object("{\"prompt\":\"P\"}");
    assert_eq!(
        prepare_call(&config, &clis[1], false, None, Ok("")).unwrap_err(),
        "CLI 'opencode' is not installed or not in PATH. Install: npm install -g opencode-ai"
    );
    assert_eq!(
        prepare_call(&object("{\"prompt\":\"  \"}"), &clis[0], true, None, Ok("")).unwrap_err(),
        "CLI agent config missing 'prompt'"
    );
    assert_eq!(
        prepare_call(&config, &clis[0], true, None, Err("no such file")).unwrap_err(),
        "Failed to read input file: no such file"
    );
    assert_eq!(
        spawn_error("codex", "denied"),
        "Failed to spawn 'codex': denied (is it installed and in PATH?)"
    );
}

#[test]
fn a_tilde_stands_for_the_home_directory() {
    assert_eq!(expand_tilde("~/a/b", "/home/u"), "/home/u/a/b");
    assert_eq!(expand_tilde("~", "/home/u"), "/home/u");
    assert_eq!(expand_tilde("~user/a", "/home/u"), "~user/a");
    assert_eq!(expand_tilde("/abs", "/home/u"), "/abs");
}

#[test]
fn an_agent_that_succeeds_reads_back_as_done() {
    let outcome = CallOutcome::Exited {
        success: true,
        code: Some(0),
        stdout: "  the output \n".to_string(),
        stderr: "noise".to_string(),
    };
    let report = report_call_at(
        &LABELS,
        &call("codex", 1),
        outcome,
        "2026-01-01T00:00:00Z",
        "2026-01-01T00:00:02Z",
    );
    assert_eq!(
        report.artifact,
        "---\nname: summary\ndescription: \"Say \\\"it\\\"\"\nconnector: cli_agent\ninput: transcript\nstatus: done\ncreated_at: 2026-01-01T00:00:00Z\ncompleted_at: 2026-01-01T00:00:02Z\nerror: null\ncli: codex\n---\n\nthe output\n"
    );
    assert!(report.error.is_none());
    let read = parse_step_status(&report.artifact);
    assert_eq!(read.status, "done");
    assert_eq!(read.error, None);
    assert_eq!(read.duration_ms, Some(2000));
    assert_eq!(read.output.as_deref(), Some("the output"));
}

#[test]
fn an_agent_that_fails_reads_back_as_failed() {
    let outcome = CallOutcome::Exited {
        success: false,
        code: Some(2),
        stdout: "out".to_string(),
        stderr: "bad\nworse \"x\"\n".to_string(),
    };
    let report = report_call(&LABELS, &call("agy", 1), outcome, "2026-01-01T00:00:00Z");
    assert_eq!(report.error.as_deref(), Some("CLI agent 'agy' failed: bad\nworse \"x\""));
    let read = parse_step_status(&report.artifact);
    assert_eq!(read.status, "failed");
    assert_eq!(read.error.as_deref(), Some("CLI agent 'agy' failed: bad worse \\\"x\\"));
    assert_eq!(
        read.output.as_deref(),
        Some("## Error\nCLI agent 'agy' failed: bad\nworse \"x\"")
    );
}

#[test]
fn every_way_to_fail_has_its_message() {
    let error = |o: CallOutcome| {
        report_call_at(&LABELS, &call("codex", 9), o, "a", "b").error.unwrap()
    };
    let exited = |code: Option<i32>, stdout: &str, stderr: &str| CallOutcome::Exited {
        success: false,
        code,
        stdout: stdout.to_string(),
        stderr: stderr.to_string(),
    };
    assert_eq!(error(CallOutcome::IoError("pipe".to_string())), "Process I/O error: pipe");
    assert_eq!(
        error(CallOutcome::TimedOut { pid: Some(41) }),
        "CLI agent timed out after 9s (pid: Some(41))"
    );
    assert_eq!(
        error(CallOutcome::TimedOut { pid: None }),
        "CLI agent timed out after 9s (pid: None)"
    );
    assert_eq!(error(exited(Some(1), " out ", "")), "CLI agent 'codex' failed: out");
    assert_eq!(error(exited(Some(-9), "", "")), "CLI agent 'codex' failed: exit code: Some(-9)");
    assert_eq!(error(exited(None, "", "")), "CLI agent 'codex' failed: exit code: None");
}

#[test]
fn what_an_agent_writes_is_decoded() {
    let outcome = CallOutcome::exited(false, Some(3), &b"o\xc3\xa9".to_vec(), &b"e\xff".to_vec());
    match outcome {
        CallOutcome::Exited { success, code, stdout, stderr } => {
            assert!(!success);
            assert_eq!(code, Some(3));
            assert_eq!(stdout, "o\u{e9}");
            assert_eq!(stderr, "e\u{fffd}");
        }
        _ => panic!("it exited"),
    }
}
