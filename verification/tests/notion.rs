use nbp::json::{parse_array, Json};
use nbp::notion::{
    build_notion_properties, extract_json_array, failure_output, integration_id, is_writable,
    json_candidates, map_property, preserve_failure_at, resolve_people_aliases,
    resolve_select_value, success_output, validate_llm_output_for_notion, DateValue, NotionError,
    NotionErrorKind, NotionIntegrationProfile, NotionProperty, NotionRun, NotionStep,
    PageProperty, PersonMapping,
};
use nbp::pipeline_engine::parse_step_status;
use nbp::time::{Day, Instant};

fn value(text: &str) -> Json {
    parse_array(&format!("[{text}]")).unwrap().remove(0)
}

fn property(name: &str, property_type: &str, options: &[&str]) -> NotionProperty {
    NotionProperty {
        name: name.to_string(),
        property_type: property_type.to_string(),
        select_options: options.iter().map(|o| o.to_string()).collect(),
    }
}

fn profile() -> NotionIntegrationProfile {
    NotionIntegrationProfile {
        database_id: "db".to_string(),
        properties: vec![
            property("Title", "title", &[]),
            property("Stage", "select", &["To Do", "Done"]),
            property("Tags", "multi_select", &["Alpha", "Beta"]),
            property("Who", "people", &[]),
            property("Due", "date", &[]),
            property("Cost", "number", &[]),
            property("Paid", "checkbox", &[]),
            property("Link", "url", &[]),
            property("State", "status", &["Open"]),
            property("Sum", "formula", &[]),
        ],
        people_mappings: vec![PersonMapping {
            alias: "Ann".to_string(),
            notion_user_id: "u1".to_string(),
            display_name: "Ann Other".to_string(),
        }],
    }
}

fn mapped(text: &str, name: &str, property_type: &str) -> Option<PageProperty> {
    map_property(&value(text), &property(name, property_type, &[]), &profile()).unwrap()
}

#[test]
fn the_integration_has_to_be_named() {
    assert_eq!(integration_id(&value("{\"integration_id\":\"i\"}")).unwrap(), "i");
    for config in ["{}", "{\"integration_id\":1}", "null"] {
        let error = integration_id(&value(config)).unwrap_err();
        assert!(error.to_text().starts_with("Notion connector config missing 'integration_id'"));
        assert!(matches!(error.kind, NotionErrorKind::Other(_)));
    }
}

#[test]
fn arrays_are_found_bare_or_fenced() {
    for text in [
        "[{\"Title\":\"a\"}]",
        "  [{\"Title\":\"a\"}]\n",
        "Here:\n```json\n[{\"Title\":\"a\"}]\n```\nDone.",
        "Here:\n```\n[{\"Title\":\"a\"}]\n```",
        "---\nstatus: done\n---\n\n[{\"Title\":\"a\"}]",
    ] {
        let items = extract_json_array(text).unwrap();
        assert_eq!(items.len(), 1, "{text}");
        assert_eq!(items[0].get_text("Title").unwrap(), "a");
    }
    assert_eq!(json_candidates("x").len(), 1);
    assert_eq!(json_candidates("```json\n[1]\n```"), ["```json\n[1]\n```", "[1]"]);
}

#[test]
fn what_is_no_array_is_kept_for_the_user() {
    let error = extract_json_array("  sorry  ").unwrap_err();
    assert!(error.to_text().ends_with("Raw LLM output (first 500 chars): sorry"));
    match error.kind {
        NotionErrorKind::JsonParse { raw_output, .. } => assert_eq!(raw_output, "sorry"),
        NotionErrorKind::Other(_) => panic!("a parse error was expected"),
    }
    let long = "é".repeat(600);
    let error = extract_json_array(&long).unwrap_err();
    assert!(error.to_text().ends_with(&"é".repeat(500)));
    assert!(!error.to_text().ends_with(&"é".repeat(501)));
}

#[test]
fn an_array_has_to_match_the_schema() {
    let fault = |text: &str| {
        validate_llm_output_for_notion(&parse_array(text).unwrap(), &profile(), "raw")
            .unwrap_err()
            .to_text()
    };
    assert!(fault("[]").contains("empty JSON array"));
    assert!(fault("[{\"Title\":\"a\"},3]").contains("element 1 is not an object"));
    let text = fault("[{\"Nope\":1,\"Sum\":2}]");
    assert!(text.contains("element 0 has no keys matching"));
    assert!(text.contains("Expected property names: Title, Stage, Tags, Who, Due, Cost, Paid, Link, State\n"));
    assert!(text.contains("Got keys: Nope, Sum\n"));
    assert!(text.ends_with("raw"));
    assert!(validate_llm_output_for_notion(
        &parse_array("[{\"Title\":\"a\",\"Nope\":1}]").unwrap(),
        &profile(),
        "raw"
    )
    .is_ok());
}

#[test]
fn options_and_people_are_found_in_any_case() {
    assert_eq!(resolve_select_value("to do", "Stage", &profile()), "To Do");
    assert_eq!(resolve_select_value("later", "Stage", &profile()), "later");
    assert_eq!(resolve_select_value("to do", "Nope", &profile()), "to do");
    let people = resolve_people_aliases(
        &parse_array("[\"ANN\",\"Bob\",3]").unwrap(),
        &profile(),
    );
    assert_eq!(people.len(), 1);
    assert_eq!(people[0].id, "u1");
    assert_eq!(people[0].name, "Ann Other");
    assert!(is_writable("status"));
    assert!(!is_writable("formula"));
}

#[test]
fn values_are_mapped_by_the_type_of_their_property() {
    assert!(mapped("null", "Title", "title").is_none());
    assert!(matches!(mapped("\"t\"", "Title", "title"), Some(PageProperty::Title(t)) if t == "t"));
    assert!(matches!(mapped("3", "Title", "title"), Some(PageProperty::Title(t)) if t.is_empty()));
    assert!(matches!(mapped("\"r\"", "R", "rich_text"), Some(PageProperty::RichText(t)) if t == "r"));
    assert!(matches!(mapped("\"DONE\"", "Stage", "select"), Some(PageProperty::Select(t)) if t == "Done"));
    assert!(matches!(
        mapped("[\"alpha\",\"gamma\",1]", "Tags", "multi_select"),
        Some(PageProperty::MultiSelect(t)) if t == ["Alpha", "gamma"]
    ));
    assert!(matches!(
        mapped("\"beta\"", "Tags", "multi_select"),
        Some(PageProperty::MultiSelect(t)) if t == ["Beta"]
    ));
    assert!(matches!(mapped("\"ann\"", "Who", "people"), Some(PageProperty::People(p)) if p.len() == 1));
    assert!(mapped("\"bob\"", "Who", "people").is_none());
    assert!(matches!(mapped("1.50", "Cost", "number"), Some(PageProperty::Number(n)) if n.text == "1.5"));
    assert!(mapped("\"1\"", "Cost", "number").is_none());
    assert!(matches!(mapped("true", "Paid", "checkbox"), Some(PageProperty::Checkbox(true))));
    assert!(matches!(mapped("1", "Paid", "checkbox"), Some(PageProperty::Checkbox(false))));
    assert!(matches!(mapped("\"u\"", "Link", "url"), Some(PageProperty::Url(Some(u))) if u == "u"));
    assert!(matches!(mapped("1", "Link", "url"), Some(PageProperty::Url(None))));
    assert!(matches!(mapped("\"e\"", "E", "email"), Some(PageProperty::Email(Some(e))) if e == "e"));
    assert!(matches!(mapped("\"p\"", "P", "phone_number"), Some(PageProperty::PhoneNumber(Some(p))) if p == "p"));
    assert!(matches!(mapped("\"open\"", "State", "status"), Some(PageProperty::Status(s)) if s == "Open"));
    assert!(mapped("1", "Sum", "formula").is_none());
}

#[test]
fn dates_are_days_or_instants() {
    assert!(matches!(
        mapped("\"2026-03-01\"", "Due", "date"),
        Some(PageProperty::Date(DateValue::Date(Day { year: 2026, month: 3, day: 1 })))
    ));
    assert!(matches!(
        mapped("\"2026-03-01T01:00:00+01:00\"", "Due", "date"),
        Some(PageProperty::Date(DateValue::DateTime(Instant { seconds: 1_772_323_200, nanos: 0 })))
    ));
    let fault = |text: &str| {
        map_property(&value(text), &property("Due", "date", &[]), &profile())
            .unwrap_err()
            .to_text()
    };
    assert!(fault("\"soon\"").starts_with("Invalid date 'soon': "));
    assert!(fault("\"Tomorrow\"").starts_with("Invalid datetime 'Tomorrow': "));
    assert!(fault("\"2026-02-30\"").starts_with("Invalid date '2026-02-30': "));
    assert!(fault("3").starts_with("Invalid date '': "));
}

#[test]
fn a_page_has_the_properties_of_the_schema_in_its_order() {
    let page =
        build_notion_properties(&value("{\"Cost\":1,\"Extra\":2,\"Title\":\"t\"}"), &profile())
            .unwrap();
    let names: Vec<&str> = page.iter().map(|p| p.0.as_str()).collect();
    assert_eq!(names, ["Title", "Cost"]);
    let fault = |text: &str| {
        build_notion_properties(&value(text), &profile()).unwrap_err().to_text()
    };
    assert!(fault("{\"Sum\":1}").starts_with("No properties could be mapped"));
    assert!(fault("3").starts_with("JSON item is not an object"));
    assert!(fault("{\"Title\":\"t\",\"Due\":\"soon\"}").starts_with("Invalid date"));
}

#[test]
fn every_element_gets_its_page() {
    let mut run =
        NotionRun::begin("i".to_string(), profile(), "[{\"Title\":\"a\"},{\"Title\":\"b\"}]").unwrap();
    for id in ["p1", "p2"] {
        assert!(matches!(run.next(), NotionStep::Create(_)));
        run.created(id.to_string());
    }
    assert!(matches!(run.next(), NotionStep::Done));
    assert_eq!(run.page_ids, ["p1", "p2"]);
}

#[test]
fn a_run_stops_at_the_first_element_without_a_page() {
    let run =
        NotionRun::begin("i".to_string(), profile(), "[{\"Title\":\"a\",\"Due\":\"soon\"}]").unwrap();
    assert!(matches!(run.next(), NotionStep::Fail(_)));
    assert!(NotionRun::begin("i".to_string(), profile(), "nothing").is_err());
    assert!(NotionRun::begin("i".to_string(), profile(), "[]").is_err());
}

#[test]
fn a_success_reads_back_as_done() {
    let artifact = success_output(
        "push",
        Some("Push \"it\""),
        "sum",
        "2026-01-01T00:00:00Z",
        "i",
        &vec!["p1".to_string(), "p2".to_string()],
    );
    assert_eq!(
        artifact,
        "---\nname: push\ndescription: \"Push \"it\"\"\nconnector: notion\ninput: sum\nstatus: done\ncreated_at: 2026-01-01T00:00:00Z\ncompleted_at: 2026-01-01T00:00:00Z\nintegration_id: i\npages_created: 2\nerror: null\n---\n\nCreated 2 Notion page(s): p1, p2\n"
    );
    let report = parse_step_status(&artifact);
    assert_eq!(report.status, "done");
    assert!(report.error.is_none());
    let none = success_output("push", None, "sum", "now", "i", &vec![]);
    assert!(none.contains("description: \"Create Notion pages\"\n"));
    assert!(none.ends_with("No pages created (empty input array)\n"));
}

#[test]
fn a_failure_reads_back_as_failed() {
    let artifact = failure_output("push", None, "sum", "now", "i", "line\n\"two\"", Some("raw"));
    assert!(artifact.ends_with("## Error\nline\n\"two\"\n\n## Raw AI Output\nraw\n"));
    let report = parse_step_status(&artifact);
    assert_eq!(report.status, "failed");
    assert_eq!(report.error.as_deref(), Some("line \\\"two\\"));
    let error = NotionError { kind: NotionErrorKind::Other("bad".to_string()) };
    let (kept, message) =
        preserve_failure_at(&value("{}"), "push", None, "sum", &error, None, "now");
    assert_eq!(message, "bad");
    assert!(kept.contains("integration_id: unknown\n"));
    assert!(kept.ends_with("## Error\nbad\n"));
}

#[test]
fn an_array_is_the_same_in_any_fence() {
    let bare = "[{\"Title\":\"a\"},2,\"x\"]";
    let plain = format!("{:?}", extract_json_array(bare).unwrap());
    for text in [format!("```json\n{bare}\n```"), format!("```\n{bare}\n```")] {
        assert_eq!(format!("{:?}", extract_json_array(&text).unwrap()), plain);
    }
}

#[test]
fn of_two_properties_of_one_name_the_later_counts() {
    let mut p = profile();
    p.properties = vec![
        property("Cost", "title", &[]),
        property("Link", "url", &[]),
        property("Cost", "rich_text", &[]),
    ];
    let page = build_notion_properties(&value("{\"Cost\":\"c\",\"Link\":\"l\"}"), &p).unwrap();
    assert_eq!(page.len(), 2);
    assert_eq!(page[0].0, "Cost");
    assert!(matches!(&page[0].1, PageProperty::RichText(t) if t == "c"));
    assert_eq!(page[1].0, "Link");
}
