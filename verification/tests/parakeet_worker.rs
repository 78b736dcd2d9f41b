use nbp::config::{AppSettings, TranscriptionProvider};
use nbp::parakeet_worker::protocol::{
    add_pending, begin_request, cancel_pending, fail_all, handle_control, handle_event,
    reject_command, Answer, ControlResult, NdjsonBuffer, Pending, PendingKind, Reply,
    ResidentEvent, ResidentRequest, WorkerCommand,
};
use nbp::parakeet_worker::request::{
    acknowledged, answered, build_request, temp_name, AckStep, CancelOnDrop, Waited,
    STOPPED_ERROR, TRANSCRIPTION_TIMEOUT_ERROR,
};
use nbp::parakeet_worker::supervisor::{
    active_cancel_outcome, after_serve, after_startup, backoff_command, cancel_queued, dispatch,
    reject_queued, serve_event, startup_command, startup_event, NextMove, ProcessEvent, ServeExit,
    StartupExit,
};
use nbp::parakeet_worker::warmup::{
    warmup_step, Activity, UserRequests, WarmupGate, WarmupStep, WARMUP_SAMPLES,
};
use nbp::parakeet_worker::{
    configured, wake_move, Health, ParakeetWorkerState, RuntimeSlot, SlotAction, WakeMove,
};

fn ping(id: &str) -> WorkerCommand {
    WorkerCommand::Health { request: ResidentRequest::ping(id.to_string()) }
}

fn transcribe(id: &str) -> WorkerCommand {
    WorkerCommand::Transcribe {
        request: ResidentRequest::transcribe(
            id.to_string(),
            "/tmp/nbp-dispatch-test.wav".to_string(),
            None,
            "0".to_string(),
            0,
        ),
    }
}

fn cancel(id: &str, restart_if_queued: bool) -> WorkerCommand {
    WorkerCommand::Cancel { id: id.to_string(), restart_if_queued }
}

fn failed(reply: &Reply) -> &str {
    match &reply.answer {
        Answer::Failed(m) => m,
        other => panic!("expected a failure, got {other:?}"),
    }
}

#[test]
fn configured_only_for_enabled_parakeet_dictation() {
    let mut settings = AppSettings::fresh("/data".to_string(), "codex".to_string());
    settings.dictation.enabled = true;
    settings.transcription.provider = TranscriptionProvider::FluidAudio;
    settings.transcription.keep_model_ready = true;
    assert!(configured(&settings));
    settings.dictation.enabled = false;
    assert!(!configured(&settings));
    settings.dictation.enabled = true;
    settings.transcription.provider = TranscriptionProvider::Qwen3;
    assert!(!configured(&settings));
    settings.transcription.provider = TranscriptionProvider::AppleSpeech;
    assert!(!configured(&settings));
    settings.transcription.provider = TranscriptionProvider::FluidAudio;
    settings.transcription.keep_model_ready = false;
    assert!(!configured(&settings));
}

#[test]
fn health_is_forwarded_to_ready_child() {
    assert!(matches!(
        handle_control(ping("health"), true, false),
        ControlResult::Forward(WorkerCommand::Health { .. })
    ));
}

#[test]
fn health_is_rejected_without_ready_child() {
    match handle_control(ping("health"), false, false) {
        ControlResult::Handled(reply) => assert!(matches!(reply.answer, Answer::Failed(_))),
        _ => panic!("a health check has no child to go to"),
    }
}

#[test]
fn health_is_accepted_locally_while_transcription_is_busy() {
    match handle_control(ping("health"), true, true) {
        ControlResult::Handled(reply) => assert!(matches!(reply.answer, Answer::Alive)),
        _ => panic!("a busy child is alive"),
    }
}

#[test]
fn pong_completes_matching_health_request() {
    let mut pending = vec![Pending { id: "health".to_string(), kind: PendingKind::Health }];
    let (restart, reply) = handle_event(
        ResidentEvent::Pong { id: "health".to_string() },
        &mut pending,
    );
    assert!(!restart);
    assert!(matches!(reply.unwrap().answer, Answer::Alive));
    assert!(pending.is_empty());
}

#[test]
fn dropping_request_guard_sends_cancel() {
    let mut guard = CancelOnDrop::new("request".to_string());
    assert!(matches!(
        guard.dropped(),
        Some(WorkerCommand::Cancel { id, restart_if_queued: false }) if id == "request"
    ));
}

#[test]
fn timeout_guard_requests_queued_restart() {
    let mut guard = CancelOnDrop::new("request".to_string());
    assert!(matches!(
        guard.cancel_timed_out(),
        Some(WorkerCommand::Cancel { id, restart_if_queued: true }) if id == "request"
    ));
    assert!(guard.dropped().is_none());
}

#[test]
fn disarmed_request_guard_does_not_cancel() {
    let mut guard = CancelOnDrop::new("request".to_string());
    guard.disarm();
    assert!(guard.dropped().is_none());
}

#[test]
fn rejected_transcribe_closes_dispatch_ack_before_reply() {
    let mut guard = CancelOnDrop::new("request".to_string());
    let reply = reject_command(transcribe("request"), "not dispatched").unwrap();
    assert!(matches!(acknowledged(&mut guard, Waited::Closed), AckStep::WaitOpen));
    let told = failed(&reply).to_string();
    let (result, command) = answered(&mut guard, Waited::Came(Err(told)));
    assert!(matches!(result, Err(error) if error == "not dispatched"));
    assert!(command.is_none());
}

#[test]
fn cancel_removes_active_request() {
    let mut pending = vec![Pending { id: "health".to_string(), kind: PendingKind::Health }];
    let reply = cancel_pending(&mut pending, "health").unwrap();
    assert!(matches!(reply.answer, Answer::Failed(_)));
    assert!(pending.is_empty());
}

#[test]
fn active_cancel_restarts_even_without_queued_restart_flag() {
    let mut pending = vec![Pending { id: "request".to_string(), kind: PendingKind::Transcribe }];
    let (exit, reply) = active_cancel_outcome(&mut pending, "request");
    assert!(matches!(exit, Some(ServeExit::RestartNow)));
    assert!(matches!(reply.unwrap().answer, Answer::Failed(_)));
}

#[test]
fn cancel_removes_request_queued_during_startup() {
    let mut queued = vec![ping("health")];
    let reply = cancel_queued(&mut queued, "health").unwrap();
    assert!(matches!(reply.answer, Answer::Failed(_)));
    assert!(queued.is_empty());
}

#[test]
fn ndjson_buffer_preserves_fragmented_event() {
    let mut buffer = NdjsonBuffer::new();
    assert!(buffer.push(&b"{\"type\":\"res".to_vec()).is_empty());
    let events = buffer
        .push(&b"ult\",\"id\":\"a\",\"text\":\"hello\",\"model\":\"parakeet\"}\n".to_vec());
    assert_eq!(events.len(), 1);
    assert!(matches!(events.into_iter().next().unwrap().unwrap(),
        ResidentEvent::Result { id, text, .. } if id == "a" && text == "hello"));
}

#[test]
fn ndjson_buffer_returns_multiple_events_from_one_chunk() {
    let mut buffer = NdjsonBuffer::new();
    let events =
        buffer.push(&b"{\"type\":\"ready\"}\n{\"type\":\"pong\",\"id\":\"b\"}\n".to_vec());
    assert_eq!(events.len(), 2);
    assert!(matches!(&events[0], Ok(ResidentEvent::Ready)));
    assert!(matches!(&events[1], Ok(ResidentEvent::Pong { id }) if id == "b"));
}

#[test]
fn a_stream_reads_the_same_however_it_is_cut() {
    let text = b"{\"type\":\"ready\"}\n\n{\"type\":\"fatal\",\"message\":\"x\"}\n{\"ty".to_vec();
    for cut in 0..text.len() {
        let mut whole = NdjsonBuffer::new();
        let mut parts = NdjsonBuffer::new();
        let all = whole.push_lines(&text);
        let mut some = parts.push_lines(&text[..cut].to_vec());
        some.extend(parts.push_lines(&text[cut..].to_vec()));
        assert_eq!(all, some);
        assert_eq!(whole.bytes, parts.bytes);
    }
}

#[test]
fn lines_that_are_no_reports_are_errors() {
    let mut buffer = NdjsonBuffer::new();
    let events = buffer.push(
        &b"not json\n{\"type\":\"other\"}\n{\"type\":\"pong\"}\n{\"type\":\"error\",\"message\":\"m\"}\n"
            .to_vec(),
    );
    assert_eq!(events.len(), 4);
    assert!(events[0].is_err());
    assert!(events[1].is_err());
    assert!(events[2].is_err());
    assert!(matches!(&events[3],
        Ok(ResidentEvent::Error { id: None, message }) if message == "m"));
}

#[test]
fn a_request_is_answered_once() {
    let mut pending = Vec::new();
    let sent = begin_request(&mut pending, transcribe("a")).unwrap();
    assert_eq!(sent.operation, "transcribe");
    let text = |t: &str| ResidentEvent::Result {
        id: "a".to_string(),
        text: t.to_string(),
        model: "m".to_string(),
    };
    let (_, reply) = handle_event(text("one"), &mut pending);
    assert!(matches!(reply.unwrap().answer, Answer::Text(t) if t == "one"));
    let (_, again) = handle_event(text("two"), &mut pending);
    assert!(again.is_none());
}

#[test]
fn an_answer_of_the_wrong_kind_is_dropped() {
    let mut pending = Vec::new();
    add_pending(&mut pending, "a".to_string(), PendingKind::Transcribe);
    let (restart, reply) =
        handle_event(ResidentEvent::Pong { id: "a".to_string() }, &mut pending);
    assert!(!restart);
    assert!(reply.is_none());
    assert!(pending.is_empty());
}

#[test]
fn everything_outstanding_fails_when_serving_ends() {
    let mut pending = Vec::new();
    add_pending(&mut pending, "a".to_string(), PendingKind::Transcribe);
    add_pending(&mut pending, "b".to_string(), PendingKind::Health);
    let replies = fail_all(&mut pending, "resident Parakeet stopped");
    assert!(pending.is_empty());
    assert_eq!(replies.len(), 2);
    assert!(replies.iter().all(|r| failed(r) == "resident Parakeet stopped"));
}

#[test]
fn loading_ends_with_the_first_telling_report() {
    let mut buffer = NdjsonBuffer::new();
    let pong = ProcessEvent::Stdout(b"{\"type\":\"pong\",\"id\":\"x\"}\n{\"ty".to_vec());
    assert_eq!(startup_event(&mut buffer, pong, &vec![]), None);
    let ready = ProcessEvent::Stdout(b"pe\":\"ready\"}\n".to_vec());
    assert_eq!(startup_event(&mut buffer, ready, &vec![]), Some(StartupExit::Ready));
    let fatal = ProcessEvent::Stdout(b"{\"type\":\"fatal\",\"message\":\"m\"}\n".to_vec());
    assert_eq!(startup_event(&mut buffer, fatal, &vec![]), Some(StartupExit::Restart));
    let noise = ProcessEvent::Stderr(b"TIMING: 1".to_vec());
    assert_eq!(startup_event(&mut buffer, noise, &vec![]), None);
    assert_eq!(startup_event(&mut buffer, ProcessEvent::Terminated, &vec![]), Some(StartupExit::Restart));
    assert_eq!(startup_event(&mut buffer, ProcessEvent::Gone, &vec![]), Some(StartupExit::Restart));
    let error = ProcessEvent::Error("pipe".to_string());
    assert_eq!(startup_event(&mut buffer, error, &vec![]), Some(StartupExit::Restart));
    assert_eq!(startup_event(&mut buffer, ProcessEvent::Other, &vec![]), None);
}

#[test]
fn commands_wait_while_the_transcriber_loads() {
    let mut queued = Vec::new();
    let waits = startup_command(&mut queued, transcribe("a"));
    assert!(waits.exit.is_none() && waits.reply.is_none());
    assert_eq!(queued.len(), 1);
    let health = startup_command(&mut queued, ping("h"));
    assert_eq!(failed(&health.reply.unwrap()), "resident Parakeet is not ready");
    let unknown = startup_command(&mut queued, cancel("b", true));
    assert!(unknown.exit.is_none() && unknown.reply.is_none());
    let kept = startup_command(&mut queued, cancel("a", false));
    assert!(kept.exit.is_none());
    assert_eq!(failed(&kept.reply.unwrap()), "resident Parakeet request cancelled");
    startup_command(&mut queued, transcribe("a"));
    let again = startup_command(&mut queued, cancel("a", true));
    assert_eq!(again.exit, Some(StartupExit::RestartNow));
    assert!(queued.is_empty());
    let stop = startup_command(&mut queued, WorkerCommand::Shutdown);
    assert_eq!(stop.exit, Some(StartupExit::Shutdown));
}

#[test]
fn commands_are_passed_on_while_serving() {
    let mut pending = Vec::new();
    let health = dispatch(&mut pending, ping("h"));
    assert_eq!(health.write.unwrap().operation, "ping");
    let sent = dispatch(&mut pending, transcribe("a"));
    assert_eq!(sent.write.unwrap().id, "a");
    let busy = dispatch(&mut pending, ping("g"));
    assert!(busy.write.is_none());
    assert!(matches!(busy.reply.unwrap().answer, Answer::Alive));
    let other = dispatch(&mut pending, cancel("z", true));
    assert!(other.exit.is_none() && other.reply.is_none());
    let gone = dispatch(&mut pending, cancel("a", false));
    assert_eq!(gone.exit, Some(ServeExit::RestartNow));
    assert_eq!(dispatch(&mut pending, WorkerCommand::Shutdown).exit, Some(ServeExit::Shutdown));
}

#[test]
fn serving_ends_with_a_fatal_report() {
    let mut buffer = NdjsonBuffer::new();
    let mut pending = Vec::new();
    begin_request(&mut pending, transcribe("a"));
    begin_request(&mut pending, transcribe("b"));
    let chunk = b"garbage\n{\"type\":\"result\",\"id\":\"a\",\"text\":\"t\",\"model\":\"m\"}\n{\"type\":\"fatal\",\"message\":\"x\"}\n{\"type\":\"result\",\"id\":\"b\",\"text\":\"t\",\"model\":\"m\"}\n";
    let (exit, replies) =
        serve_event(&mut buffer, ProcessEvent::Stdout(chunk.to_vec()), &vec![], &mut pending);
    assert_eq!(exit, Some(ServeExit::Restart));
    assert_eq!(replies.len(), 1);
    assert_eq!(replies[0].id, "a");
    assert_eq!(pending.len(), 1);
    let (exit, none) = serve_event(&mut buffer, ProcessEvent::Terminated, &vec![], &mut pending);
    assert_eq!(exit, Some(ServeExit::Restart));
    assert!(none.is_empty());
}

#[test]
fn nothing_is_served_between_two_transcribers() {
    let (stop, reply) = backoff_command(transcribe("a"));
    assert!(!stop);
    assert_eq!(failed(&reply.unwrap()), "resident Parakeet is restarting");
    let (_, reply) = backoff_command(ping("h"));
    assert_eq!(failed(&reply.unwrap()), "resident Parakeet is not ready");
    let (stop, reply) = backoff_command(cancel("a", true));
    assert!(!stop && reply.is_none());
    assert!(backoff_command(WorkerCommand::Shutdown).0);
}

#[test]
fn queued_commands_are_turned_down() {
    let queued = vec![transcribe("a"), WorkerCommand::Shutdown, ping("h")];
    let replies = reject_queued(queued, "resident Parakeet stopped");
    assert_eq!(replies.len(), 2);
    assert_eq!(replies[0].id, "a");
    assert_eq!(replies[1].id, "h");
}

#[test]
fn what_follows_an_exit() {
    assert_eq!(after_startup(StartupExit::Ready), (NextMove::Serve, false));
    assert_eq!(after_startup(StartupExit::Shutdown), (NextMove::Stop, false));
    assert_eq!(after_startup(StartupExit::RestartNow), (NextMove::Respawn, false));
    assert_eq!(after_startup(StartupExit::Restart), (NextMove::RespawnLater, true));
    assert_eq!(after_serve(ServeExit::Shutdown), NextMove::Stop);
    assert_eq!(after_serve(ServeExit::RestartNow), NextMove::Respawn);
    assert_eq!(after_serve(ServeExit::Restart), NextMove::RespawnLater);
}

#[test]
fn a_request_that_takes_too_long_is_cancelled_once() {
    let mut guard = CancelOnDrop::new("r".to_string());
    match acknowledged(&mut guard, Waited::TimedOut) {
        AckStep::Fail { error, cancel } => {
            assert_eq!(error, TRANSCRIPTION_TIMEOUT_ERROR);
            assert!(matches!(cancel, Some(WorkerCommand::Cancel { restart_if_queued: true, .. })));
        }
        _ => panic!("the request was never handed over"),
    }
    assert!(guard.dropped().is_none());
    let mut guard = CancelOnDrop::new("r".to_string());
    assert!(matches!(acknowledged(&mut guard, Waited::Came(())), AckStep::WaitLimited));
    let (result, cancel) = answered(&mut guard, Waited::TimedOut);
    assert_eq!(result.unwrap_err(), TRANSCRIPTION_TIMEOUT_ERROR);
    assert!(cancel.is_some());
    let mut guard = CancelOnDrop::new("r".to_string());
    let (result, cancel) = answered(&mut guard, Waited::Closed);
    assert_eq!(result.unwrap_err(), STOPPED_ERROR);
    assert!(cancel.is_none());
}

#[test]
fn the_word_list_goes_along_where_it_is_of_use() {
    let mut config = AppSettings::fresh(String::new(), String::new()).transcription;
    let request = |c: &nbp::config::TranscriptionConfig, there: bool| {
        build_request("i".to_string(), "/w.wav".to_string(), c, "/v.txt", there)
    };
    assert_eq!(request(&config, true).vocab_path.as_deref(), Some("/v.txt"));
    assert_eq!(request(&config, false).vocab_path, None);
    config.translit_lang = "off".to_string();
    assert_eq!(request(&config, true).vocab_path, None);
    assert_eq!(temp_name("abc"), "nbp-dict-abc.wav");
}

#[test]
fn one_supervisor_at_a_time() {
    let mut state = ParakeetWorkerState::new();
    assert_eq!(state.running(), None);
    assert_eq!(state.reconcile(false, 1), SlotAction::Nothing);
    assert_eq!(state.reconcile(true, 1), SlotAction::Start(1));
    assert_eq!(state.reconcile(true, 2), SlotAction::Nothing);
    assert_eq!(state.running(), Some(1));
    assert_eq!(state.reconcile(false, 2), SlotAction::Stop(1));
    assert_eq!(state.reconcile(true, 2), SlotAction::Nothing);
    assert_eq!(state.finish_stop(true, 2), SlotAction::Start(2));
    assert_eq!(state.replace_unhealthy(1), SlotAction::Nothing);
    assert_eq!(state.replace_unhealthy(2), SlotAction::Stop(2));
    assert_eq!(state.finish_stop(false, 3), SlotAction::Nothing);
    assert_eq!(state.runtime, RuntimeSlot::Stopped);
}

#[test]
fn nothing_starts_once_the_application_ends() {
    let mut state = ParakeetWorkerState::new();
    state.reconcile(true, 7);
    assert_eq!(state.shutdown(), (SlotAction::Stop(7), Some(7)));
    assert_eq!(state.shutdown(), (SlotAction::Nothing, Some(7)));
    assert_eq!(state.reconcile(true, 8), SlotAction::Nothing);
    assert_eq!(state.finish_stop(true, 8), SlotAction::Nothing);
    let mut idle = ParakeetWorkerState::new();
    assert_eq!(idle.shutdown(), (SlotAction::Nothing, None));
}

#[test]
fn a_transcriber_that_loads_is_not_dead() {
    assert_eq!(wake_move(&Health::NotRunning), WakeMove::Reconcile);
    assert_eq!(wake_move(&Health::Answered(Ok(()))), WakeMove::Keep);
    let loading = Health::Answered(Err("resident Parakeet is not ready".to_string()));
    assert_eq!(wake_move(&loading), WakeMove::Keep);
    let other = Health::Answered(Err("resident Parakeet stopped".to_string()));
    assert_eq!(wake_move(&other), WakeMove::Replace);
    assert_eq!(wake_move(&Health::TimedOut), WakeMove::Replace);
    assert_eq!(wake_move(&Health::Closed), WakeMove::Replace);
}

#[test]
fn a_warmup_gives_way_to_the_user() {
    let mut gate = WarmupGate::new();
    assert!(!gate.enter(false));
    assert!(gate.enter(true));
    assert!(!gate.enter(true));
    gate.leave();
    assert!(gate.enter(true));
    let idle = Activity { capture: false, asr_reserved: false, user_request: false };
    assert_eq!(warmup_step(true, &idle), WarmupStep::Go);
    assert_eq!(warmup_step(true, &Activity { user_request: true, ..idle }), WarmupStep::Wait);
    assert_eq!(warmup_step(false, &idle), WarmupStep::Skip);
    let mut requests = UserRequests::new();
    assert!(!requests.in_flight());
    requests.begin();
    requests.begin();
    requests.end();
    assert!(requests.in_flight());
    requests.end();
    assert!(!requests.in_flight());
    assert_eq!(WARMUP_SAMPLES, 16_000 * 3 / 10);
}

#[test]
fn an_unknown_provider_is_treated_as_the_default() {
    let mut settings = AppSettings::fresh("/data".to_string(), "codex".to_string());
    settings.dictation.enabled = true;
    settings.transcription.keep_model_ready = true;
    settings.transcription.provider = TranscriptionProvider::Unknown;
    assert!(configured(&settings));
}

#[test]
fn a_report_may_be_an_array_of_its_fields() {
    let mut buffer = NdjsonBuffer::new();
    let events = buffer.push(
        &b"[\"ready\"]\n[\"pong\",\"b\"]\n[\"error\",null,\"m\"]\n[\"result\",\"i\",\"t\",\"m\"]\n".to_vec(),
    );
    assert!(matches!(&events[0], Ok(ResidentEvent::Ready)));
    assert!(matches!(&events[1], Ok(ResidentEvent::Pong { id }) if id == "b"));
    assert!(matches!(&events[2], Ok(ResidentEvent::Error { id: None, message }) if message == "m"));
    assert!(matches!(&events[3], Ok(ResidentEvent::Result { text, .. }) if text == "t"));
    let faults = buffer.push(&b"[]\n[\"ready\",1]\n[\"error\",\"m\"]\n[\"other\"]\n7\n".to_vec());
    assert_eq!(faults.len(), 5);
    assert!(faults.iter().all(|e| e.is_err()));
}

#[test]
fn a_line_that_the_typed_reader_refuses_is_no_report() {
    let mut buffer = NdjsonBuffer::new();
    assert!(buffer.push(&b"{\"type\":\"pong\",".to_vec()).is_empty());
    let chunk = b"\"id\":\"a\",\"id\":\"b\"}\n{\"type\":\"ready\"}\n".to_vec();
    let lines = buffer.lines_with(&chunk);
    assert_eq!(lines.len(), 2);
    assert_eq!(lines[0], b"{\"type\":\"pong\",\"id\":\"a\",\"id\":\"b\"}");
    let refused = vec![Some("duplicate field `id`".to_string())];
    let events = buffer.push_checked(&chunk, &refused);
    assert_eq!(events.len(), 2);
    assert!(matches!(&events[0], Err(m) if m == "duplicate field `id`"));
    assert!(matches!(&events[1], Ok(ResidentEvent::Ready)));
    let mut buffer = NdjsonBuffer::new();
    let ready = || ProcessEvent::Stdout(b"{\"type\":\"ready\"}\n".to_vec());
    let refused = vec![Some("no".to_string())];
    assert_eq!(startup_event(&mut buffer, ready(), &refused), None);
    assert_eq!(startup_event(&mut buffer, ready(), &vec![None]), Some(StartupExit::Ready));
}
