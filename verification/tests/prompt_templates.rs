use nbp::config::StepType;
use nbp::json::{parse_array, Json};
use nbp::pipelines::{Pipeline, PipelineStep};
use nbp::prompt_templates::{
    builtin_templates_at, delete_prompt_template, get_builtin_templates,
    get_prompt_template_internal, get_prompt_templates_path, migrate_template_at,
    migrate_template_in, save_prompt_template, save_prompt_template_at, substitute_variables,
    validate_prompt_template, PromptTemplate,
};

fn template(name: &str, prompt: &str) -> PromptTemplate {
    PromptTemplate {
        name: name.to_string(),
        prompt: prompt.to_string(),
        created_at: "2026-01-01T00:00:00Z".to_string(),
        updated_at: "2026-01-01T00:00:00Z".to_string(),
    }
}

#[test]
fn test_builtin_templates_exist() {
    let templates = get_builtin_templates();
    assert_eq!(templates.len(), 1);
    assert!(templates.iter().any(|t| t.name == "summary"));
}

#[test]
fn test_builtin_templates_have_transcript_variable() {
    let templates = get_builtin_templates();
    for t in &templates {
        assert!(
            t.prompt.contains("{transcript}"),
            "Template '{}' missing {{transcript}} variable",
            t.name
        );
    }
}

#[test]
fn test_validate_empty_name_fails() {
    assert!(validate_prompt_template(&template("", "test prompt")).is_err());
}

#[test]
fn test_validate_empty_prompt_fails() {
    assert!(validate_prompt_template(&template("test", "  ")).is_err());
}

#[test]
fn test_substitute_variables() {
    let prompt = "Process this: {transcript}\nEnd.";
    let result = substitute_variables(prompt, "Hello world");
    assert_eq!(result, "Process this: Hello world\nEnd.");
}

#[test]
fn test_substitute_no_variable() {
    let prompt = "No variable here";
    let result = substitute_variables(prompt, "Hello world");
    assert_eq!(result, "No variable here");
}

#[test]
fn templates_are_saved_found_and_deleted() {
    let all = save_prompt_template_at(vec![], template("a", "A"), "now").unwrap();
    assert_eq!(get_prompt_template_internal(&all, "a").unwrap().prompt, "A");
    assert_eq!(get_prompt_template_internal(&all, "a").unwrap().updated_at, "now");
    let all = save_prompt_template(all, template("a", "B")).unwrap();
    assert_eq!(all.len(), 1);
    assert_eq!(get_prompt_template_internal(&all, "a").unwrap().prompt, "B");
    assert!(get_prompt_template_internal(&all, "b").is_err());
    assert!(save_prompt_template(vec![], template(" ", "x")).is_err());
    let none = delete_prompt_template(all, "a", false, &vec![]).unwrap();
    assert!(none.is_empty());
    assert_eq!(
        delete_prompt_template(none, "a", false, &vec![]).unwrap_err(),
        "Template 'a' not found"
    );
}

#[test]
fn a_template_in_use_is_deleted_only_by_force() {
    let config = parse_array("[{\"prompt_template\":\"a\"}]").unwrap().remove(0);
    let user = Pipeline {
        name: "notes".to_string(),
        description: String::new(),
        steps: vec![PipelineStep {
            name: "s".to_string(),
            step_type: StepType::CliAgent,
            template: String::new(),
            config,
            description: None,
        }],
        auto_run: false,
        created_at: String::new(),
        updated_at: String::new(),
    };
    let pipelines = vec![user];
    assert_eq!(
        delete_prompt_template(vec![template("a", "A")], "a", false, &pipelines).unwrap_err(),
        "Template 'a' is used by pipelines: notes. Use force=true to delete anyway."
    );
    let forced =
        delete_prompt_template(vec![template("a", "A")], "a", true, &pipelines).unwrap();
    assert!(forced.is_empty());
}

#[test]
fn old_templates_are_taken_over_once() {
    let mut all = builtin_templates_at("now");
    let old = parse_array("[{\"name\":\"mine\",\"prompt\":\"P\"}]").unwrap().remove(0);
    assert!(migrate_template_at(&mut all, &old, "now"));
    assert!(!migrate_template_at(&mut all, &old, "now"));
    assert!(!migrate_template_at(&mut all, &Json::Null, "now"));
    assert_eq!(get_prompt_template_internal(&all, "mine").unwrap().prompt, "P");
    let other = "{\"name\":\"other\",\"prompt\":\"Q\"}";
    assert!(migrate_template_in(&mut all, other, "now"));
    assert!(!migrate_template_in(&mut all, other, "now"));
    assert!(!migrate_template_in(&mut all, "{broken", "now"));
    assert_eq!(get_prompt_template_internal(&all, "other").unwrap().prompt, "Q");
}

#[test]
fn templates_live_beside_the_settings() {
    assert_eq!(
        get_prompt_templates_path(Some("/home/u")),
        "/home/u/.nbp/prompt-templates.json"
    );
}
