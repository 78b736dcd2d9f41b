//! Reusable prompts.

use crate::config::config_dir_of;
use crate::json::{json_result, parse, Json};
use crate::paths::{path_join, under};
use crate::pipelines::Pipeline;
use crate::seqs::{
    keyed, keys_distinct, lemma_keyed_at, lemma_keyed_dom, lemma_keyed_pushed, lemma_keyed_removed,
};
use crate::text::{
    blank, join, joined3, joined_by, occurs, replace_all, replaced, same, trimmed, views,
};
use crate::time::{is_stamp, now_stamp};
use vstd::prelude::*;

verus! {

/// A reusable prompt.
#[derive(Debug)]
pub struct PromptTemplate {
    pub name: String,
    pub prompt: String,
    pub created_at: String,
    pub updated_at: String,
}

/// Where the templates are stored.
pub fn get_prompt_templates_path(home: Option<&str>) -> (r: String)
    ensures
        r@ == under(config_dir_of(home), "prompt-templates.json"@),
{
    path_join(crate::config::get_config_dir(home).as_str(), "prompt-templates.json")
}

/// The prompt of the template that comes with the application.
pub const SUMMARY_PROMPT: &'static str = "Summarize this transcript. Respond in the same language as the transcript.\n\nUse EXACTLY this format (no top-level heading, start directly with ## Topic):\n\n## Topic\nA short title — 3 to 5 words — capturing what the conversation is about. No trailing period.\n\n## Key Points\n- 3-7 bullet points, most important information discussed\n\n## Decisions\n- Conclusions or agreements reached (skip section if none)\n\n## Action Items\n- Who does what, with deadlines if mentioned (skip section if none)\n\n## Open Questions\n- Unresolved items needing follow-up (skip section if none)\n\nRules:\n- Be concise and actionable\n- No disclaimers about transcript quality\n- No preamble or commentary — output only the summary\n\nTranscript:\n{transcript}";

/// Templates are told apart by name.
pub open spec fn template_name() -> spec_fn(PromptTemplate) -> Seq<char> {
    |t: PromptTemplate| t.name@
}

/// The templates that come with the application: one, for summaries.
pub fn builtin_templates_at(now: &str) -> (r: Vec<PromptTemplate>)
    ensures
        r@.len() == 1,
        r@[0].name@ == "summary"@,
        r@[0].prompt@ == SUMMARY_PROMPT@,
        r@[0].created_at@ == now@,
        r@[0].updated_at@ == now@,
{
    let mut out: Vec<PromptTemplate> = Vec::new();
    out.push(
        PromptTemplate {
            name: "summary".to_owned(),
            prompt: SUMMARY_PROMPT.to_owned(),
            created_at: now.to_owned(),
            updated_at: now.to_owned(),
        },
    );
    out
}

/// The templates that come with the application, stamped now.
pub fn get_builtin_templates() -> (r: Vec<PromptTemplate>)
    ensures
        r@.len() == 1,
        r@[0].name@ == "summary"@,
        r@[0].prompt@ == SUMMARY_PROMPT@,
        is_stamp(r@[0].created_at@),
        r@[0].updated_at@ == r@[0].created_at@,
{
    let now = now_stamp();
    builtin_templates_at(now.as_str())
}

/// What is wrong with a template, if anything.
pub open spec fn template_fault(t: PromptTemplate) -> Option<Seq<char>> {
    if trimmed(t.name@).len() == 0 {
        Some("Template name cannot be empty"@)
    } else if trimmed(t.prompt@).len() == 0 {
        Some("Template prompt cannot be empty"@)
    } else {
        None
    }
}

/// Checks a template.
pub fn validate_prompt_template(template: &PromptTemplate) -> (r: Result<(), String>)
    ensures
        match r {
            Ok(_) => template_fault(*template) is None,
            Err(m) => template_fault(*template) == Some(m@),
        },
{
    if blank(template.name.as_str()) {
        Err("Template name cannot be empty".to_owned())
    } else if blank(template.prompt.as_str()) {
        Err("Template prompt cannot be empty".to_owned())
    } else {
        Ok(())
    }
}

/// Puts the transcript in its place in a prompt.
pub fn substitute_variables(prompt: &str, transcript: &str) -> (r: String)
    ensures
        r@ == replaced(prompt@, "{transcript}"@, transcript@),
{
    proof {
        reveal_strlit("{transcript}");
    }
    replace_all(prompt, "{transcript}", transcript)
}

/// A prompt without the placeholder stays as it is.
pub proof fn law_prompt_without_variable(prompt: Seq<char>, transcript: Seq<char>)
    requires
        !occurs(prompt, "{transcript}"@),
    ensures
        replaced(prompt, "{transcript}"@, transcript) == prompt,
{
    crate::text::lemma_replaced_absent(prompt, "{transcript}"@, transcript);
}

fn position(templates: &Vec<PromptTemplate>, name: &str) -> (r: Option<usize>)
    ensures
        match r {
            Some(i) => i < templates@.len() && templates@[i as int].name@ == name@ && keyed(
                templates@,
                template_name(),
            ).dom().contains(name@),
            None => !keyed(templates@, template_name()).dom().contains(name@),
        },
{
    proof {
        lemma_keyed_dom(templates@, template_name(), name@);
    }
    let mut i: usize = 0;
    while i < templates.len()
        invariant
            i <= templates@.len(),
            forall|j: int| 0 <= j < i ==> template_name()(#[trigger] templates@[j]) != name@,
            keyed(templates@, template_name()).dom().contains(name@) <==> exists|k: int|
                0 <= k < templates@.len() && template_name()(#[trigger] templates@[k]) == name@,
        decreases templates@.len() - i,
    {
        if same(templates[i].name.as_str(), name) {
            assert(template_name()(templates@[i as int]) == name@);
            return Some(i);
        }
        i += 1;
    }
    None
}

/// The template of that name.
pub fn get_prompt_template_internal<'a>(templates: &'a Vec<PromptTemplate>, name: &str) -> (r:
    Result<&'a PromptTemplate, String>)
    requires
        keys_distinct(templates@, template_name()),
    ensures
        match r {
            Ok(t) => keyed(templates@, template_name()).dom().contains(name@) && keyed(
                templates@,
                template_name(),
            )[name@] == *t,
            Err(m) => !keyed(templates@, template_name()).dom().contains(name@) && m@
                == "Prompt template '"@ + name@ + "' not found"@,
        },
{
    match position(templates, name) {
        Some(i) => {
            proof {
                lemma_keyed_at(templates@, template_name(), i as int);
            }
            Ok(&templates[i])
        },
        None => Err(joined3("Prompt template '", name, "' not found")),
    }
}

/// `after` is `before` with `t` saved at `now`: under its name stands its
/// prompt, created when it first was.
pub open spec fn template_saved(
    before: Map<Seq<char>, PromptTemplate>,
    after: Map<Seq<char>, PromptTemplate>,
    t: PromptTemplate,
    now: Seq<char>,
) -> bool {
    &&& after.dom() == before.dom().insert(t.name@)
    &&& after[t.name@].name == t.name
    &&& after[t.name@].prompt == t.prompt
    &&& after[t.name@].updated_at@ == now
    &&& after[t.name@].created_at@ == if before.dom().contains(t.name@) {
        before[t.name@].created_at@
    } else {
        now
    }
    &&& forall|n: Seq<char>|
        n != t.name@ && before.dom().contains(n) ==> #[trigger] after[n] == before[n]
}

/// Creates or updates a template at `now`.
pub fn save_prompt_template_at(
    templates: Vec<PromptTemplate>,
    template: PromptTemplate,
    now: &str,
) -> (r: Result<Vec<PromptTemplate>, String>)
    requires
        keys_distinct(templates@, template_name()),
    ensures
        match r {
            Ok(all) => {
                &&& template_fault(template) is None
                &&& keys_distinct(all@, template_name())
                &&& template_saved(
                    keyed(templates@, template_name()),
                    keyed(all@, template_name()),
                    template,
                    now@,
                )
            },
            Err(m) => template_fault(template) == Some(m@),
        },
{
    match validate_prompt_template(&template) {
        Ok(_) => {},
        Err(m) => {
            return Err(m);
        },
    }
    let ghost key = template_name();
    let ghost before = keyed(templates@, key);
    let mut all = templates;
    let mut created_at = now.to_owned();
    match position(&all, template.name.as_str()) {
        Some(i) => {
            proof {
                lemma_keyed_at(all@, key, i as int);
                lemma_keyed_removed(all@, key, i as int);
            }
            let replaced = all.remove(i);
            created_at = replaced.created_at;
        },
        None => {},
    }
    let stamped = PromptTemplate {
        name: template.name,
        prompt: template.prompt,
        created_at,
        updated_at: now.to_owned(),
    };
    proof {
        lemma_keyed_pushed(all@, key, stamped);
    }
    all.push(stamped);
    assert(keyed(all@, key).dom() =~= before.dom().insert(template.name@));
    Ok(all)
}

/// Creates or updates a template now.
pub fn save_prompt_template(templates: Vec<PromptTemplate>, template: PromptTemplate) -> (r: Result<
    Vec<PromptTemplate>,
    String,
>)
    requires
        keys_distinct(templates@, template_name()),
    ensures
        match r {
            Ok(all) => {
                &&& template_fault(template) is None
                &&& keys_distinct(all@, template_name())
                &&& exists|now: Seq<char>|
                    is_stamp(now) && #[trigger] template_saved(
                        keyed(templates@, template_name()),
                        keyed(all@, template_name()),
                        template,
                        now,
                    )
            },
            Err(m) => template_fault(template) == Some(m@),
        },
{
    let now = now_stamp();
    save_prompt_template_at(templates, template, now.as_str())
}

/// A step of the pipeline uses that template.
pub open spec fn uses_template(p: Pipeline, name: Seq<char>) -> bool {
    exists|i: int|
        0 <= i < p.steps@.len() && (#[trigger] p.steps@[i]).config.member_text(
            "prompt_template"@,
        ) == Some(name)
}

/// The names of the first `n` pipelines that use that template.
pub open spec fn users_of(pipelines: Seq<Pipeline>, name: Seq<char>, n: int) -> Seq<Seq<char>>
    decreases n,
{
    if n <= 0 {
        Seq::empty()
    } else if uses_template(pipelines[n - 1], name) {
        users_of(pipelines, name, n - 1).push(pipelines[n - 1].name@)
    } else {
        users_of(pipelines, name, n - 1)
    }
}

fn is_used(p: &Pipeline, name: &str) -> (r: bool)
    ensures
        r == uses_template(*p, name@),
{
    let mut i: usize = 0;
    while i < p.steps.len()
        invariant
            i <= p.steps@.len(),
            forall|k: int|
                0 <= k < i ==> (#[trigger] p.steps@[k]).config.member_text("prompt_template"@)
                    != Some(name@),
        decreases p.steps@.len() - i,
    {
        let hit = match p.steps[i].config.get_text("prompt_template") {
            Some(t) => same(t.as_str(), name),
            None => false,
        };
        if hit {
            return true;
        }
        i += 1;
    }
    false
}

fn collect_users(pipelines: &Vec<Pipeline>, name: &str) -> (r: Vec<String>)
    ensures
        views(r@) == users_of(pipelines@, name@, pipelines@.len() as int),
{
    let mut out: Vec<String> = Vec::new();
    assert(views(out@) =~= Seq::empty());
    let mut i: usize = 0;
    while i < pipelines.len()
        invariant
            i <= pipelines@.len(),
            views(out@) == users_of(pipelines@, name@, i as int),
        decreases pipelines@.len() - i,
    {
        if is_used(&pipelines[i], name) {
            let ghost before = out@;
            out.push(pipelines[i].name.clone());
            assert(views(out@) =~= views(before).push(pipelines@[i as int].name@));
        }
        i += 1;
    }
    out
}

/// Why a template cannot be deleted, if it cannot.
pub open spec fn delete_fault(
    templates: Map<Seq<char>, PromptTemplate>,
    name: Seq<char>,
    force: bool,
    pipelines: Seq<Pipeline>,
) -> Option<Seq<char>> {
    let users = users_of(pipelines, name, pipelines.len() as int);
    if !templates.dom().contains(name) {
        Some("Template '"@ + name + "' not found"@)
    } else if !force && users.len() > 0 {
        Some(
            "Template '"@ + name + "' is used by pipelines: "@ + joined_by(users, ", "@)
                + ". Use force=true to delete anyway."@,
        )
    } else {
        None
    }
}

/// Deletes a template; unless forced, only one that no pipeline uses.
pub fn delete_prompt_template(
    templates: Vec<PromptTemplate>,
    name: &str,
    force: bool,
    pipelines: &Vec<Pipeline>,
) -> (r: Result<Vec<PromptTemplate>, String>)
    requires
        keys_distinct(templates@, template_name()),
    ensures
        match r {
            Ok(rest) => {
                &&& delete_fault(
                    keyed(templates@, template_name()),
                    name@,
                    force,
                    pipelines@,
                ) is None
                &&& keys_distinct(rest@, template_name())
                &&& keyed(rest@, template_name()) == keyed(templates@, template_name()).remove(
                    name@,
                )
            },
            Err(m) => delete_fault(
                keyed(templates@, template_name()),
                name@,
                force,
                pipelines@,
            ) == Some(m@),
        },
{
    let mut all = templates;
    let i: usize = match position(&all, name) {
        Some(i) => i,
        None => {
            return Err(joined3("Template '", name, "' not found"));
        },
    };
    if !force {
        let users = collect_users(pipelines, name);
        assert(views(users@).len() == users@.len());
        if users.len() > 0 {
            let mut m = joined3("Template '", name, "' is used by pipelines: ");
            m.append(join(&users, ", ").as_str());
            m.append(". Use force=true to delete anyway.");
            return Err(m);
        }
    }
    proof {
        lemma_keyed_removed(all@, template_name(), i as int);
    }
    let _gone = all.remove(i);
    Ok(all)
}

/// Whether a template of the older form is taken over: it has a name, and one that is not
/// taken.
pub open spec fn takes_over(templates: Seq<PromptTemplate>, stored: Json) -> bool {
    match stored.member_text("name"@) {
        Some(n) => n.len() > 0 && !keyed(templates, template_name()).dom().contains(n),
        None => false,
    }
}

/// `after` is `before`, with a template of the older form taken over at `now`.
pub open spec fn taken_over(
    before: Seq<PromptTemplate>,
    after: Seq<PromptTemplate>,
    stored: Json,
    now: Seq<char>,
) -> bool {
    &&& after.len() == before.len() + 1
    &&& after.drop_last() == before
    &&& Some(after.last().name@) == stored.member_text("name"@)
    &&& after.last().prompt@ == match stored.member_text("prompt"@) {
        Some(p) => p,
        None => Seq::<char>::empty(),
    }
    &&& after.last().created_at@ == now
    &&& after.last().updated_at@ == now
}

/// Takes over the template of the older form that a text holds. Says whether it did.
pub fn migrate_template_in(templates: &mut Vec<PromptTemplate>, raw: &str, now: &str) -> (added:
    bool)
    requires
        keys_distinct(old(templates)@, template_name()),
    ensures
        keys_distinct(final(templates)@, template_name()),
        added == match json_result(raw@) {
            Ok(stored) => takes_over(old(templates)@, stored),
            Err(_) => false,
        },
        !added ==> final(templates)@ == old(templates)@,
        added ==> taken_over(old(templates)@, final(templates)@, json_result(raw@)->Ok_0, now@),
{
    match parse(raw) {
        Ok(stored) => migrate_template_at(templates, &stored, now),
        Err(_) => false,
    }
}

/// Takes over a template of the older form, unless it has no name or one that
/// is taken. Says whether it did.
pub fn migrate_template_at(templates: &mut Vec<PromptTemplate>, stored: &Json, now: &str) -> (added:
    bool)
    requires
        keys_distinct(old(templates)@, template_name()),
    ensures
        keys_distinct(final(templates)@, template_name()),
        added == takes_over(old(templates)@, *stored),
        !added ==> final(templates)@ == old(templates)@,
        added ==> taken_over(old(templates)@, final(templates)@, *stored, now@),
{
    let name = match stored.get_text("name") {
        Some(n) => n.clone(),
        None => {
            return false;
        },
    };
    if name.as_str().is_empty() || position(templates, name.as_str()).is_some() {
        return false;
    }
    let prompt = match stored.get_text("prompt") {
        Some(p) => p.clone(),
        None => String::new(),
    };
    let t = PromptTemplate {
        name,
        prompt,
        created_at: now.to_owned(),
        updated_at: now.to_owned(),
    };
    let ghost before = templates@;
    proof {
        lemma_keyed_pushed(templates@, template_name(), t);
    }
    templates.push(t);
    assert(templates@.drop_last() =~= before);
    true
}

/// A template has no fault exactly if its name and its prompt are more than white space.
pub proof fn law_valid_template(t: PromptTemplate)
    ensures
        template_fault(t) is None <==> !crate::text::all_space(t.name@) && !crate::text::all_space(
            t.prompt@,
        ),
{
    crate::text::law_blank(t.name@);
    crate::text::law_blank(t.prompt@);
}

/// The transcript stands in a prompt wherever its placeholder does: text without it, then
/// the placeholder, then any rest give the text, the transcript and what the rest gives.
pub proof fn law_transcript_in_prompt(
    front: Seq<char>,
    rest: Seq<char>,
    transcript: Seq<char>,
)
    requires
        !front.contains('{'),
    ensures
        replaced(front + "{transcript}"@ + rest, "{transcript}"@, transcript) == front + transcript
            + replaced(rest, "{transcript}"@, transcript),
{
    reveal_strlit("{transcript}");
    let pat = "{transcript}"@;
    let all = front + pat + rest;
    assert forall|j: int| 0 <= j < front.len() implies !crate::text::occurs_at(all, pat, j) by {
        if crate::text::occurs_at(all, pat, j) {
            assert(all.subrange(j, j + pat.len())[0] == front[j]);
            assert(front.contains(front[j]));
        }
    }
    crate::text::law_replaced(front, pat, transcript, rest);
}

/// A template that a pipeline uses is deleted only by force; one that none uses, always.
pub proof fn law_used_template_stays(
    templates: Map<Seq<char>, PromptTemplate>,
    name: Seq<char>,
    pipelines: Seq<Pipeline>,
)
    requires
        templates.dom().contains(name),
    ensures
        delete_fault(templates, name, true, pipelines) is None,
        delete_fault(templates, name, false, pipelines) is Some <==> exists|p: int, i: int|
            0 <= p < pipelines.len() && 0 <= i < pipelines[p].steps@.len() && (
            #[trigger] pipelines[p].steps@[i]).config.member_text("prompt_template"@) == Some(name),
{
    lemma_users(pipelines, name, pipelines.len() as int);
    if exists|p: int, i: int|
        0 <= p < pipelines.len() && 0 <= i < pipelines[p].steps@.len() && (
        #[trigger] pipelines[p].steps@[i]).config.member_text("prompt_template"@) == Some(name) {
        let (p, i) = choose|p: int, i: int|
            0 <= p < pipelines.len() && 0 <= i < pipelines[p].steps@.len() && (
            #[trigger] pipelines[p].steps@[i]).config.member_text("prompt_template"@) == Some(name);
        assert(uses_template(pipelines[p], name));
    }
}

proof fn lemma_users(pipelines: Seq<Pipeline>, name: Seq<char>, n: int)
    requires
        0 <= n <= pipelines.len(),
    ensures
        users_of(pipelines, name, n).len() > 0 <==> exists|p: int|
            0 <= p < n && uses_template(#[trigger] pipelines[p], name),
    decreases n,
{
    if n > 0 {
        lemma_users(pipelines, name, n - 1);
        if uses_template(pipelines[n - 1], name) {
            assert(uses_template(pipelines[n - 1], name));
        }
    }
}

/// The pipelines that use a template are named in their order, each as often as it stands
/// there; the others are not.
pub proof fn law_users_in_order(pipelines: Seq<Pipeline>, name: Seq<char>, n: int)
    requires
        0 < n <= pipelines.len(),
    ensures
        users_of(pipelines, name, 0).len() == 0,
        (exists|i: int|
            0 <= i < pipelines[n - 1].steps@.len() && (
            #[trigger] pipelines[n - 1].steps@[i]).config.member_text("prompt_template"@) == Some(
                name,
            )) ==> users_of(pipelines, name, n) == users_of(pipelines, name, n - 1).push(
            pipelines[n - 1].name@,
        ),
        (forall|i: int|
            0 <= i < pipelines[n - 1].steps@.len() ==> (
            #[trigger] pipelines[n - 1].steps@[i]).config.member_text("prompt_template"@) != Some(
                name,
            )) ==> users_of(pipelines, name, n) == users_of(pipelines, name, n - 1),
{
}

/// A template that is saved keeps the time at which it was first created, and takes the time
/// of the saving as that of its last change; all others stay as they are.
pub proof fn law_template_saved(
    before: Map<Seq<char>, PromptTemplate>,
    after: Map<Seq<char>, PromptTemplate>,
    t: PromptTemplate,
    now: Seq<char>,
    other: Seq<char>,
)
    requires
        template_saved(before, after, t, now),
    ensures
        after.dom().contains(t.name@),
        after[t.name@].prompt == t.prompt,
        after[t.name@].updated_at@ == now,
        before.dom().contains(t.name@) ==> after[t.name@].created_at@
            == before[t.name@].created_at@,
        !before.dom().contains(t.name@) ==> after[t.name@].created_at@ == now,
        other != t.name@ ==> (after.dom().contains(other) <==> before.dom().contains(other)),
        other != t.name@ && before.dom().contains(other) ==> after[other] == before[other],
{
}

} // verus!
