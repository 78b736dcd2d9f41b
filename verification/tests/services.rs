use nbp::anthropic::{
    build_request, network_error, read_response, refusal, ClaudeContentBlock, ClaudeResponse,
    MAX_TOKENS,
};
use nbp::call_detector::{
    call_app_in, call_apps, detect_call_app, notification_script, notification_title, sync_detector,
    CallWatch, WatchChange, CALL_APP_COUNT,
};
use nbp::devices::{get_device_by_name, list_input_devices, ListedDevice};
use nbp::integrations::{delete_token, get_token, read_dev_credentials, save_token};
use nbp::json::{lookup, Json};

fn block(block_type: &str, text: Option<&str>) -> ClaudeContentBlock {
    ClaudeContentBlock {
        text: text.map(|t| t.to_string()),
        block_type: block_type.to_string(),
    }
}

fn answer(content: Option<Vec<ClaudeContentBlock>>, error: Option<&str>) -> ClaudeResponse {
    ClaudeResponse { content, error: error.map(|e| e.to_string()) }
}

#[test]
fn a_request_holds_the_text() {
    let r = build_request("Sum up: {transcript}!", "words", "", "default");
    assert_eq!(r.model, "default");
    assert_eq!(r.max_tokens, MAX_TOKENS);
    assert_eq!(r.messages.len(), 1);
    assert_eq!(r.messages[0].role, "user");
    assert_eq!(r.messages[0].content, "Sum up: words!");
    assert_eq!(build_request("p", "t", "mine", "default").model, "mine");
}

#[test]
fn the_first_text_of_an_answer_counts() {
    let blocks = vec![
        block("thinking", Some("hm")),
        block("text", None),
        block("text", Some("a")),
        block("text", Some("b")),
    ];
    assert_eq!(read_response(Ok(answer(Some(blocks), None)), "m").unwrap(), "a");
    assert_eq!(
        read_response(Ok(answer(Some(vec![]), None)), "m").unwrap_err(),
        "No response from Anthropic model 'm'"
    );
    assert_eq!(
        read_response(Ok(answer(None, None)), "m").unwrap_err(),
        "No response from Anthropic model 'm'"
    );
    assert_eq!(
        read_response(Ok(answer(Some(vec![block("text", Some("a"))]), Some("e"))), "m").unwrap_err(),
        "Anthropic API error: e"
    );
    assert_eq!(
        read_response(Err("e".to_string()), "m").unwrap_err(),
        "Failed to parse response: e"
    );
    assert_eq!(refusal("500", "body", None), "API request failed (500): body");
    assert_eq!(refusal("500", "body", Some("e")), "Anthropic API error: e");
    assert_eq!(network_error("e"), "Network error: e");
}

#[test]
fn tokens_are_filed_and_found() {
    assert!(read_dev_credentials(None).unwrap().is_empty());
    let entries = save_token("k", "t", None).unwrap();
    assert!(matches!(lookup(&entries, "k"), Some(Json::Text(t)) if t == "t"));
    let file = Some("{\"k\":\"old\",\"other\":\"o\"}");
    let entries = save_token("k", "new", file).unwrap();
    assert!(matches!(lookup(&entries, "k"), Some(Json::Text(t)) if t == "new"));
    assert!(matches!(lookup(&entries, "other"), Some(Json::Text(t)) if t == "o"));
    assert_eq!(get_token("k", file).unwrap(), "old");
    let entries = delete_token("k", file).unwrap();
    assert!(lookup(&entries, "k").is_none());
    assert!(lookup(&entries, "other").is_some());
}

#[test]
fn tokens_that_cannot_be_had() {
    assert_eq!(
        get_token("k", None).unwrap_err(),
        "Token 'k' not found in .dev-credentials.json"
    );
    assert_eq!(
        get_token("k", Some("{\"k\":3}")).unwrap_err(),
        "Token 'k' not found in .dev-credentials.json"
    );
    assert_eq!(
        save_token("k", "t", Some("[]")).unwrap_err(),
        "dev-credentials.json must be a JSON object"
    );
    assert!(delete_token("k", Some("{"))
        .unwrap_err()
        .starts_with("Failed to parse .dev-credentials.json: "));
}

#[test]
fn the_application_of_a_call_is_told() {
    assert_eq!(call_apps().len(), CALL_APP_COUNT);
    let list = "/sbin/launchd\n/Applications/Slack.app/Contents/MacOS/Slack\n/Applications/zoom.us.app/Contents/MacOS/zoom.us \n";
    assert_eq!(detect_call_app(list).as_deref(), Some("Zoom"));
    assert_eq!(call_app_in(&list.as_bytes().to_vec()).as_deref(), Some("Zoom"));
    assert_eq!(call_app_in(&b"\xff\n/x/Discord\n".to_vec()).as_deref(), Some("Discord"));
    assert_eq!(call_app_in(&vec![]), None);
    assert_eq!(detect_call_app("/x/Slack Helper\n").as_deref(), Some("Slack"));
    assert_eq!(detect_call_app("Discord").as_deref(), Some("Discord"));
    assert_eq!(detect_call_app("/x/SlackBot\n/zoom.us/other\n"), None);
    assert_eq!(detect_call_app(""), None);
    assert_eq!(notification_title(Some("Zoom")), "Zoom — Call Detected");
    assert_eq!(notification_title(None), "Call Detected");
    assert_eq!(
        notification_script("a \"b\"", "t"),
        "display notification \"t\" with title \"a \\\"b\\\"\""
    );
}

#[test]
fn notifications_keep_their_distance() {
    let (mut watch, notify) = CallWatch::begin(true, 1_000);
    assert!(notify);
    assert!(!watch.changed(false, 2_000));
    assert!(!watch.changed(true, 30_999));
    assert!(!watch.changed(false, 31_000));
    assert!(watch.changed(true, 31_000));
    assert!(!watch.changed(true, 90_000));
    let (mut watch, notify) = CallWatch::begin(false, 0);
    assert!(!notify);
    assert!(watch.changed(true, 1));
    assert!(sync_detector(false, true) == WatchChange::Start);
    assert!(sync_detector(true, false) == WatchChange::Stop);
    assert!(sync_detector(true, true) == WatchChange::Nothing);
    assert!(sync_detector(false, false) == WatchChange::Nothing);
}

#[test]
fn inputs_are_listed_where_they_can_be_used() {
    let listed = |name: Option<&str>, format| ListedDevice { name: name.map(|n| n.to_string()), format };
    let devices = vec![
        listed(None, Some((48000, 1))),
        listed(Some("Broken"), None),
        listed(Some("Mic"), Some((44100, 1))),
        listed(Some("Desk"), Some((48000, 2))),
        listed(Some("Mic"), Some((16000, 1))),
    ];
    let all = list_input_devices(&devices, Some("Desk"));
    assert_eq!(all.len(), 3);
    assert_eq!((all[0].id.as_str(), all[0].sample_rate, all[0].is_default), ("Mic", 44100, false));
    assert_eq!((all[1].name.as_str(), all[1].channels, all[1].is_default), ("Desk", 2, true));
    assert!(list_input_devices(&devices, None).iter().all(|d| !d.is_default));
    assert_eq!(get_device_by_name(&devices, "Mic"), Some(2));
    assert_eq!(get_device_by_name(&devices, "Broken"), Some(1));
    assert_eq!(get_device_by_name(&devices, "None"), None);
}
