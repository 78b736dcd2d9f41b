//! Pipelines: definitions, how they are read, saved and referred to.

use crate::config::{AppSettings, DictationShortcut, StepType};
use crate::json::{
    entries_result, entry_of, json_result, keys_differ, lookup, parse, parse_entries, take_entry,
    Json,
};
use crate::records::{
    bool_from, invalid_length, invalid_type, missing, not_there, optional_fault, optional_from,
    read_text, required_text, take_bool, take_optional, take_text, text_fault, text_from,
    wrong_length, wrong_type,
};
use crate::seqs::{filtered, lemma_filtered};
use crate::sorting::{sort_by_key, sorted_by};
use crate::text::{
    all_space, blank, chars_of, decimal, decimal_of, joined3, law_blank, listed, lowercase, lowered,
    same, trimmed, views,
};
use crate::time::{is_stamp, now_stamp};
use vstd::prelude::*;

verus! {

/// One step of a pipeline. It carries its own kind and configuration.
#[derive(Debug)]
pub struct PipelineStep {
    pub name: String,
    pub step_type: StepType,
    /// Text with placeholders for an agent, a script for a shell.
    pub template: String,
    pub config: Json,
    pub description: Option<String>,
}

/// A pipeline definition.
#[derive(Debug)]
pub struct Pipeline {
    pub name: String,
    pub description: String,
    pub steps: Vec<PipelineStep>,
    /// Run after every recording that was transcribed.
    pub auto_run: bool,
    pub created_at: String,
    pub updated_at: String,
}

/// How far a run of a pipeline has come.
#[derive(Clone, Copy, Debug, PartialEq, Eq, Structural)]
pub enum PipelineStatus {
    /// Assigned; the transcript is not ready.
    Waiting,
    Running,
    /// Every step succeeded.
    Done,
    /// Stopped because a step failed.
    Partial,
}

/// A run of a pipeline, as the metadata of a recording holds it.
#[derive(Debug)]
pub struct PipelineState {
    pub id: String,
    pub name: String,
    pub status: PipelineStatus,
    pub run_index: usize,
    pub started_at: Option<String>,
    pub completed_at: Option<String>,
    pub current_step: Option<usize>,
    pub error: Option<String>,
}

/// What a listener is told of the progress of a run.
#[derive(Debug)]
pub struct PipelineProgressPayload {
    pub recording_id: String,
    pub pipeline_name: String,
    pub step_name: String,
    pub step_index: usize,
    pub total_steps: usize,
    pub status: String,
}

/// A character that a file name cannot have.
pub open spec fn unsafe_char(c: char) -> bool {
    c == '/' || c == '\\' || c == '\0' || c == ':'
}

/// No character of the name is one that a file name cannot have.
pub open spec fn file_safe(name: Seq<char>) -> bool {
    forall|i: int| 0 <= i < name.len() ==> !unsafe_char(#[trigger] name[i])
}

fn is_file_safe(name: &str) -> (r: bool)
    ensures
        r == file_safe(name@),
{
    let v = chars_of(name);
    let mut i: usize = 0;
    while i < v.len()
        invariant
            i <= v@.len(),
            v@ == name@,
            forall|j: int| 0 <= j < i ==> !unsafe_char(#[trigger] name@[j]),
        decreases v@.len() - i,
    {
        let c = v[i];
        if c == '/' || c == '\\' || c == '\0' || c == ':' {
            assert(unsafe_char(name@[i as int]));
            return false;
        }
        i += 1;
    }
    true
}

/// Some step before the `i`th has its name.
pub open spec fn name_repeats(steps: Seq<PipelineStep>, i: int) -> bool {
    exists|j: int| 0 <= j < i && (#[trigger] steps[j]).name@ == steps[i].name@
}

/// What is wrong with the `i`th step, if anything.
pub open spec fn step_fault(steps: Seq<PipelineStep>, i: int) -> Option<Seq<char>> {
    let name = steps[i].name@;
    if trimmed(name).len() == 0 {
        Some("Step "@ + decimal_of((i + 1) as nat) + " has empty name"@)
    } else if !file_safe(name) {
        Some("Step '"@ + name + "' name contains invalid characters (/, \\, :, or null)"@)
    } else if name_repeats(steps, i) {
        Some("Duplicate step name '"@ + name + "'"@)
    } else {
        None
    }
}

/// The first fault of the steps from `i` on.
pub open spec fn steps_fault(steps: Seq<PipelineStep>, i: int) -> Option<Seq<char>>
    decreases steps.len() - i,
{
    if i >= steps.len() {
        None
    } else if step_fault(steps, i) is Some {
        step_fault(steps, i)
    } else {
        steps_fault(steps, i + 1)
    }
}

/// What is wrong with a definition, if anything: the first fault found.
pub open spec fn pipeline_fault(pipeline: Pipeline) -> Option<Seq<char>> {
    if trimmed(pipeline.name@).len() == 0 {
        Some("Pipeline name cannot be empty"@)
    } else if !file_safe(pipeline.name@) {
        Some("Pipeline name contains invalid characters (/, \\, :, or null)"@)
    } else if pipeline.steps@.len() == 0 {
        Some("Pipeline must contain at least one step"@)
    } else {
        steps_fault(pipeline.steps@, 0)
    }
}

fn repeats(steps: &Vec<PipelineStep>, i: usize) -> (r: bool)
    requires
        i < steps@.len(),
    ensures
        r == name_repeats(steps@, i as int),
{
    let mut j: usize = 0;
    while j < i
        invariant
            j <= i < steps@.len(),
            forall|k: int| 0 <= k < j ==> (#[trigger] steps@[k]).name@ != steps@[i as int].name@,
        decreases i - j,
    {
        if same(steps[j].name.as_str(), steps[i].name.as_str()) {
            return true;
        }
        j += 1;
    }
    false
}

fn check_step(steps: &Vec<PipelineStep>, i: usize) -> (r: Option<String>)
    requires
        i < steps@.len(),
    ensures
        match r {
            Some(m) => step_fault(steps@, i as int) == Some(m@),
            None => step_fault(steps@, i as int) is None,
        },
{
    let n: usize = steps.len();
    let name = steps[i].name.as_str();
    if blank(name) {
        assert(i + 1 <= n);
        Some(joined3("Step ", decimal((i + 1) as u64).as_str(), " has empty name"))
    } else if !is_file_safe(name) {
        Some(
            joined3(
                "Step '",
                name,
                "' name contains invalid characters (/, \\, :, or null)",
            ),
        )
    } else if repeats(steps, i) {
        Some(joined3("Duplicate step name '", name, "'"))
    } else {
        None
    }
}

/// Checks a definition.
pub fn validate_pipeline(pipeline: &Pipeline) -> (r: Result<(), String>)
    ensures
        match r {
            Ok(_) => pipeline_fault(*pipeline) is None,
            Err(m) => pipeline_fault(*pipeline) == Some(m@),
        },
{
    if blank(pipeline.name.as_str()) {
        return Err("Pipeline name cannot be empty".to_owned());
    }
    if !is_file_safe(pipeline.name.as_str()) {
        return Err("Pipeline name contains invalid characters (/, \\, :, or null)".to_owned());
    }
    if pipeline.steps.len() == 0 {
        return Err("Pipeline must contain at least one step".to_owned());
    }
    let n: usize = pipeline.steps.len();
    let mut i: usize = 0;
    while i < n
        invariant
            i <= n,
            n == pipeline.steps@.len(),
            pipeline_fault(*pipeline) == steps_fault(pipeline.steps@, i as int),
        decreases n - i,
    {
        match check_step(&pipeline.steps, i) {
            Some(m) => {
                return Err(m);
            },
            None => {},
        }
        i += 1;
    }
    Ok(())
}

proof fn lemma_steps_fault_none(steps: Seq<PipelineStep>, i: int, k: int)
    requires
        steps_fault(steps, i) is None,
        0 <= i <= k < steps.len(),
    ensures
        step_fault(steps, k) is None,
    decreases steps.len() - i,
{
    if i < k {
        lemma_steps_fault_none(steps, i + 1, k);
    }
}

/// A character that a name of a pipeline or a step may not have.
proof fn lemma_unsafe(name: Seq<char>)
    ensures
        file_safe(name) <==> !name.contains('/') && !name.contains('\\') && !name.contains('\0')
            && !name.contains(':'),
{
    if file_safe(name) {
        assert forall|i: int| 0 <= i < name.len() implies name[i] != '/' && name[i] != '\\'
            && name[i] != '\0' && name[i] != ':' by {
            assert(!unsafe_char(name[i]));
        }
    } else {
        let i = choose|i: int| 0 <= i < name.len() && unsafe_char(#[trigger] name[i]);
        assert(name.contains(name[i]));
    }
}

/// A definition has no fault exactly if its name and those of its steps are more than white
/// space and have no slash, backslash, colon or null in them, it has a step, and no two
/// steps share a name.
pub proof fn law_valid_pipeline(p: Pipeline)
    ensures
        pipeline_fault(p) is None <==> {
            &&& !all_space(p.name@)
            &&& !p.name@.contains('/') && !p.name@.contains('\\') && !p.name@.contains('\0')
                && !p.name@.contains(':')
            &&& p.steps@.len() > 0
            &&& forall|i: int|
                0 <= i < p.steps@.len() ==> {
                    let name = (#[trigger] p.steps@[i]).name@;
                    !all_space(name) && !name.contains('/') && !name.contains('\\')
                        && !name.contains('\0') && !name.contains(':')
                }
            &&& forall|i: int, j: int|
                0 <= i < j < p.steps@.len() ==> (#[trigger] p.steps@[i]).name@ != (
                #[trigger] p.steps@[j]).name@
        },
{
    law_blank(p.name@);
    lemma_unsafe(p.name@);
    let steps = p.steps@;
    if pipeline_fault(p) is None {
        assert forall|i: int| 0 <= i < steps.len() implies ({
            let name = (#[trigger] steps[i]).name@;
            !all_space(name) && !name.contains('/') && !name.contains('\\') && !name.contains('\0')
                && !name.contains(':')
        }) by {
            lemma_steps_fault_none(steps, 0, i);
            law_blank(steps[i].name@);
            lemma_unsafe(steps[i].name@);
        }
        assert forall|i: int, j: int| 0 <= i < j < steps.len() implies (
        #[trigger] steps[i]).name@ != (#[trigger] steps[j]).name@ by {
            lemma_steps_fault_none(steps, 0, j);
            assert(!name_repeats(steps, j));
        }
    } else if !all_space(p.name@) && file_safe(p.name@) && steps.len() > 0 && (forall|i: int|
        0 <= i < steps.len() ==> {
            let name = (#[trigger] steps[i]).name@;
            !all_space(name) && !name.contains('/') && !name.contains('\\') && !name.contains('\0')
                && !name.contains(':')
        }) && (forall|i: int, j: int|
        0 <= i < j < steps.len() ==> (#[trigger] steps[i]).name@ != (#[trigger] steps[j]).name@) {
        lemma_no_step_fault(steps, 0);
    }
}

proof fn lemma_no_step_fault(steps: Seq<PipelineStep>, i: int)
    requires
        0 <= i,
        forall|i: int|
            0 <= i < steps.len() ==> {
                let name = (#[trigger] steps[i]).name@;
                !all_space(name) && !name.contains('/') && !name.contains('\\') && !name.contains(
                    '\0',
                ) && !name.contains(':')
            },
        forall|i: int, j: int|
            0 <= i < j < steps.len() ==> (#[trigger] steps[i]).name@ != (#[trigger] steps[j]).name@,
    ensures
        steps_fault(steps, i) is None,
    decreases steps.len() - i,
{
    if i < steps.len() {
        law_blank(steps[i].name@);
        lemma_unsafe(steps[i].name@);
        assert(!name_repeats(steps, i));
        lemma_no_step_fault(steps, i + 1);
    }
}

/// Of several faults the first is told: that of the name, then that there are no steps,
/// then that of the first step that has one.
pub proof fn law_first_fault_is_told(p: Pipeline, i: int)
    requires
        0 <= i < p.steps@.len(),
        !all_space(p.name@) && file_safe(p.name@),
        forall|k: int|
            0 <= k < i ==> !all_space((#[trigger] p.steps@[k]).name@) && file_safe(
                p.steps@[k].name@,
            ),
        forall|j: int, k: int|
            0 <= j < k < i ==> (#[trigger] p.steps@[j]).name@ != (#[trigger] p.steps@[k]).name@,
    ensures
        ({
            let name = p.steps@[i].name@;
            &&& all_space(name) ==> pipeline_fault(p) == Some(
                "Step "@ + decimal_of((i + 1) as nat) + " has empty name"@,
            )
            &&& !all_space(name) && !file_safe(name) ==> pipeline_fault(p) == Some(
                "Step '"@ + name + "' name contains invalid characters (/, \\, :, or null)"@,
            )
            &&& !all_space(name) && file_safe(name) && (exists|k: int|
                0 <= k < i && (#[trigger] p.steps@[k]).name@ == name) ==> pipeline_fault(p) == Some(
                "Duplicate step name '"@ + name + "'"@,
            )
        }),
{
    law_blank(p.name@);
    law_blank(p.steps@[i].name@);
    lemma_faults_before(p.steps@, 0, i);
}

proof fn lemma_faults_before(steps: Seq<PipelineStep>, from: int, i: int)
    requires
        0 <= from <= i < steps.len(),
        forall|k: int|
            0 <= k < i ==> !all_space((#[trigger] steps[k]).name@) && file_safe(steps[k].name@),
        forall|j: int, k: int|
            0 <= j < k < i ==> (#[trigger] steps[j]).name@ != (#[trigger] steps[k]).name@,
    ensures
        steps_fault(steps, from) == steps_fault(steps, i),
    decreases i - from,
{
    if from < i {
        law_blank(steps[from].name@);
        assert(!name_repeats(steps, from));
        lemma_faults_before(steps, from + 1, i);
    }
}

/// In a definition without fault there is a step, no two steps share a name,
/// and every name is filled and safe as the name of a file.
pub proof fn law_valid_pipeline_names(pipeline: Pipeline, i: int, j: int)
    requires
        pipeline_fault(pipeline) is None,
        0 <= i < j < pipeline.steps@.len(),
    ensures
        file_safe(pipeline.name@),
        file_safe(pipeline.steps@[i].name@),
        trimmed(pipeline.steps@[i].name@).len() > 0,
        pipeline.steps@[i].name@ != pipeline.steps@[j].name@,
{
    lemma_steps_fault_none(pipeline.steps@, 0, i);
    lemma_steps_fault_none(pipeline.steps@, 0, j);
    assert(!name_repeats(pipeline.steps@, j));
}

/// The kind of step that a word names.
pub open spec fn step_type_of(word: Seq<char>) -> Option<StepType> {
    if word == "cli_agent"@ {
        Some(StepType::CliAgent)
    } else if word == "shell"@ {
        Some(StepType::Shell)
    } else if word == "save_local"@ {
        Some(StepType::SaveLocal)
    } else {
        None
    }
}

fn read_step_type(word: &str) -> (r: Option<StepType>)
    ensures
        r == step_type_of(word@),
{
    if same(word, "cli_agent") {
        Some(StepType::CliAgent)
    } else if same(word, "shell") {
        Some(StepType::Shell)
    } else if same(word, "save_local") {
        Some(StepType::SaveLocal)
    } else {
        None
    }
}

/// The word under `step_type`, else under the older `connection_type`.
pub open spec fn type_word(step: Json) -> Option<Seq<char>> {
    if step.member("step_type"@) is Some {
        step.member_text("step_type"@)
    } else {
        step.member_text("connection_type"@)
    }
}

/// A stored step whose kind still exists.
pub open spec fn is_current(step: Json) -> bool {
    match type_word(step) {
        Some(word) => step_type_of(word) is Some,
        None => false,
    }
}

fn current(step: &Json) -> (r: bool)
    ensures
        r == is_current(*step),
{
    let word = match step.get("step_type") {
        Some(v) => v.as_text(),
        None => step.get_text("connection_type"),
    };
    match word {
        Some(w) => read_step_type(w.as_str()).is_some(),
        None => false,
    }
}

/// The current ones of the first `n` stored steps, in order.
pub open spec fn pruned(steps: Seq<Json>, n: int) -> Seq<Json>
    decreases n,
{
    if n <= 0 {
        Seq::empty()
    } else if is_current(steps[n - 1]) {
        pruned(steps, n - 1).push(steps[n - 1])
    } else {
        pruned(steps, n - 1)
    }
}

/// Drops stored steps of kinds that no longer exist.
pub fn prune_steps(steps: Vec<Json>) -> (r: Vec<Json>)
    ensures
        r@ == pruned(steps@, steps@.len() as int),
{
    let ghost all = steps@;
    let mut rest = steps;
    let mut out: Vec<Json> = Vec::new();
    let n: usize = rest.len();
    let mut i: usize = 0;
    assert(all.skip(0) =~= all);
    while i < n
        invariant
            i <= n,
            n == all.len(),
            rest@ == all.skip(i as int),
            out@ == pruned(all, i as int),
        decreases n - i,
    {
        let s = rest.remove(0);
        assert(all.skip(i as int)[0] == all[i as int]);
        assert(all.skip(i as int).remove(0) =~= all.skip(i as int + 1));
        if current(&s) {
            out.push(s);
        }
        i += 1;
    }
    out
}

/// Every step that pruning keeps is of a kind that exists.
pub proof fn law_pruned_steps_are_current(steps: Seq<Json>, n: int, i: int)
    requires
        0 <= n <= steps.len(),
        0 <= i < pruned(steps, n).len(),
    ensures
        is_current(pruned(steps, n)[i]),
        pruned(steps, n).len() <= n,
        steps.contains(pruned(steps, n)[i]),
    decreases n,
{
    lemma_pruned_len(steps, n);
    if n > 0 {
        if i < pruned(steps, n - 1).len() {
            law_pruned_steps_are_current(steps, n - 1, i);
        } else {
            assert(pruned(steps, n)[i] == steps[n - 1]);
        }
    }
}

proof fn lemma_pruned_len(steps: Seq<Json>, n: int)
    requires
        0 <= n,
    ensures
        pruned(steps, n).len() <= n,
    decreases n,
{
    if n > 0 {
        lemma_pruned_len(steps, n - 1);
    }
}

/// A text that has a default where it is absent.
pub open spec fn text_with_default(value: Option<Json>, default: Seq<char>) -> Result<
    Seq<char>,
    Seq<char>,
> {
    match value {
        None => Ok(default),
        Some(v) => text_from(v),
    }
}

fn read_text_or(value: Option<Json>, default: &str) -> (r: Result<String, String>)
    ensures
        match r {
            Ok(s) => text_with_default(value, default@) == Ok::<Seq<char>, Seq<char>>(s@),
            Err(m) => text_with_default(value, default@) == Err::<Seq<char>, Seq<char>>(m@),
        },
{
    match value {
        None => Ok(default.to_owned()),
        Some(v) => take_text(v),
    }
}

/// A step as its parts: name, kind, template, configuration, description.
pub type StepParts = (Seq<char>, StepType, Seq<char>, Json, Option<Seq<char>>);

/// The parts of a step.
pub open spec fn parts_of(step: PipelineStep) -> StepParts {
    (
        step.name@,
        step.step_type,
        step.template@,
        step.config,
        match step.description {
            Some(d) => Some(d@),
            None => None,
        },
    )
}

/// The kind that a word names.
pub open spec fn variant_of(word: Seq<char>) -> Result<StepType, Seq<char>> {
    match step_type_of(word) {
        Some(t) => Ok(t),
        None => Err(
            "unknown variant `"@ + word
                + "`, expected one of `cli_agent`, `shell`, `save_local`"@,
        ),
    }
}

fn read_variant(word: &str) -> (r: Result<StepType, String>)
    ensures
        match r {
            Ok(t) => variant_of(word@) == Ok::<StepType, Seq<char>>(t),
            Err(m) => variant_of(word@) == Err::<StepType, Seq<char>>(m@),
        },
{
    match read_step_type(word) {
        Some(t) => Ok(t),
        None => Err(
            joined3(
                "unknown variant `",
                word,
                "`, expected one of `cli_agent`, `shell`, `save_local`",
            ),
        ),
    }
}

/// A kind of step: its word, or an object with null under its word.
pub open spec fn kind_from(v: Json) -> Result<StepType, Seq<char>> {
    match v {
        Json::Text(word) => variant_of(word@),
        Json::Object(object) => if object@.len() != 1 {
            Err("invalid value: map, expected map with a single key"@)
        } else {
            match variant_of(object@[0].0@) {
                Err(m) => Err(m),
                Ok(t) => if object@[0].1 is Null {
                    Ok(t)
                } else {
                    Err(invalid_type(object@[0].1, "unit"@))
                },
            }
        },
        _ => Err(invalid_type(v, "string or map"@)),
    }
}

fn read_kind(v: &Json) -> (r: Result<StepType, String>)
    ensures
        match r {
            Ok(t) => kind_from(*v) == Ok::<StepType, Seq<char>>(t),
            Err(m) => kind_from(*v) == Err::<StepType, Seq<char>>(m@),
        },
{
    match v {
        Json::Text(word) => read_variant(word.as_str()),
        Json::Object(object) => {
            if object.len() != 1 {
                return Err("invalid value: map, expected map with a single key".to_owned());
            }
            let t = match read_variant(object[0].0.as_str()) {
                Ok(t) => t,
                Err(m) => {
                    return Err(m);
                },
            };
            match &object[0].1 {
                Json::Null => Ok(t),
                other => Err(wrong_type(other, "unit")),
            }
        },
        other => Err(wrong_type(other, "string or map")),
    }
}

/// The names of the field that holds the kind of a step.
pub open spec fn names_kind(key: Seq<char>) -> bool {
    key == "step_type"@ || key == "connection_type"@
}

/// Some of the first `n` entries holds the kind of a step.
pub open spec fn kind_among(entries: Seq<(String, Json)>, n: int) -> bool {
    exists|j: int| 0 <= j < n && names_kind((#[trigger] entries[j]).0@)
}

/// What is wrong with entry `i` of a stored step.
pub open spec fn step_entry_fault(entries: Seq<(String, Json)>, i: int) -> Option<Seq<char>> {
    let key = entries[i].0@;
    let v = entries[i].1;
    if key == "name"@ || key == "template"@ {
        fault(text_from(v))
    } else if names_kind(key) {
        if kind_among(entries, i) {
            Some("duplicate field `step_type`"@)
        } else {
            fault(kind_from(v))
        }
    } else if key == "description"@ {
        fault(optional_from(v))
    } else {
        None
    }
}

/// The fault in a result.
pub open spec fn fault<T>(r: Result<T, Seq<char>>) -> Option<Seq<char>> {
    match r {
        Ok(_) => None,
        Err(m) => Some(m),
    }
}

/// The first fault in the first `n` entries of a stored step.
pub open spec fn stored_step_fault(entries: Seq<(String, Json)>, n: int) -> Option<Seq<char>>
    decreases n,
{
    if n <= 0 {
        None
    } else if stored_step_fault(entries, n - 1) is Some {
        stored_step_fault(entries, n - 1)
    } else {
        step_entry_fault(entries, n - 1)
    }
}

proof fn lemma_stored_step_fault_stays(entries: Seq<(String, Json)>, i: int, n: int)
    requires
        i <= n,
        stored_step_fault(entries, i) is Some,
    ensures
        stored_step_fault(entries, n) == stored_step_fault(entries, i),
    decreases n - i,
{
    if i < n {
        lemma_stored_step_fault_stays(entries, i, n - 1);
    }
}

fn check_step_entries(entries: &Vec<(String, Json)>) -> (r: Option<String>)
    ensures
        match r {
            Some(m) => stored_step_fault(entries@, entries@.len() as int) == Some(m@),
            None => stored_step_fault(entries@, entries@.len() as int) is None,
        },
{
    let mut seen = false;
    let mut i: usize = 0;
    while i < entries.len()
        invariant
            i <= entries@.len(),
            seen == kind_among(entries@, i as int),
            stored_step_fault(entries@, i as int) is None,
        decreases entries@.len() - i,
    {
        let key = entries[i].0.as_str();
        let found = if same(key, "name") || same(key, "template") {
            text_fault(&entries[i].1)
        } else if same(key, "step_type") || same(key, "connection_type") {
            if seen {
                Some("duplicate field `step_type`".to_owned())
            } else {
                seen = true;
                match read_kind(&entries[i].1) {
                    Ok(_) => None,
                    Err(m) => Some(m),
                }
            }
        } else if same(key, "description") {
            optional_fault(&entries[i].1)
        } else {
            None
        };
        proof {
            lemma_field_names_differ();
            assert(kind_among(entries@, i as int + 1) == (kind_among(entries@, i as int)
                || names_kind(entries@[i as int].0@)));
        }
        if found.is_some() {
            proof {
                lemma_stored_step_fault_stays(entries@, i as int + 1, entries@.len() as int);
            }
            return found;
        }
        i += 1;
    }
    None
}

/// The value under `step_type`, else under the older `connection_type`.
pub open spec fn kind_entry(entries: Seq<(String, Json)>) -> Option<Json> {
    if entry_of(entries, "step_type"@) is Some {
        entry_of(entries, "step_type"@)
    } else {
        entry_of(entries, "connection_type"@)
    }
}

/// A kind that must be there.
pub open spec fn required_kind(value: Option<Json>) -> Result<StepType, Seq<char>> {
    match value {
        None => Err(missing("step_type"@)),
        Some(v) => kind_from(v),
    }
}

/// A text that may be absent.
pub open spec fn text_if_any(value: Option<Json>) -> Result<Option<Seq<char>>, Seq<char>> {
    match value {
        None => Ok(None),
        Some(v) => optional_from(v),
    }
}

/// What a stored step with these fields means, or the first fault in them.
pub open spec fn step_of(
    name: Result<Seq<char>, Seq<char>>,
    kind: Result<StepType, Seq<char>>,
    template: Result<Seq<char>, Seq<char>>,
    config: Option<Json>,
    description: Result<Option<Seq<char>>, Seq<char>>,
) -> Result<StepParts, Seq<char>> {
    match name {
        Err(m) => Err(m),
        Ok(n) => match kind {
            Err(m) => Err(m),
            Ok(k) => match template {
                Err(m) => Err(m),
                Ok(t) => match description {
                    Err(m) => Err(m),
                    Ok(d) => Ok(
                        (
                            n,
                            k,
                            t,
                            match config {
                                Some(c) => c,
                                None => Json::Null,
                            },
                            d,
                        ),
                    ),
                },
            },
        },
    }
}

/// What a field at a place of an array means by `read`; `expected` is what the
/// array stands for.
pub open spec fn at_place<T>(
    items: Seq<Json>,
    place: int,
    expected: Seq<char>,
    read: spec_fn(Json) -> Result<T, Seq<char>>,
) -> Result<T, Seq<char>> {
    if place < items.len() {
        read(items[place])
    } else {
        Err(invalid_length(place as nat, expected))
    }
}

/// What is read, where the array has no more than `most` elements.
pub open spec fn no_longer<T>(
    items: Seq<Json>,
    most: int,
    read: Result<T, Seq<char>>,
) -> Result<T, Seq<char>> {
    match read {
        Err(m) => Err(m),
        Ok(t) => if items.len() > most {
            Err(invalid_length(items.len(), "fewer elements in array"@))
        } else {
            Ok(t)
        },
    }
}

/// What a stored step means: an object, or an array of the fields in their order.
/// In an object the first entry that cannot be read is the fault, then the first
/// field that is not there.
pub open spec fn stored_step(step: Json) -> Result<StepParts, Seq<char>> {
    match step {
        Json::Object(object) => match stored_step_fault(object@, object@.len() as int) {
            Some(m) => Err(m),
            None => step_of(
                required_text(entry_of(object@, "name"@), "name"@),
                required_kind(kind_entry(object@)),
                required_text(entry_of(object@, "template"@), "template"@),
                entry_of(object@, "config"@),
                text_if_any(entry_of(object@, "description"@)),
            ),
        },
        Json::List(list) => {
            let whole = "struct PipelineStep with 5 elements"@;
            no_longer(
                list@,
                5,
                step_of(
                    at_place(list@, 0, whole, |v: Json| text_from(v)),
                    at_place(list@, 1, whole, |v: Json| kind_from(v)),
                    at_place(list@, 2, whole, |v: Json| text_from(v)),
                    if list@.len() > 3 {
                        Some(list@[3])
                    } else {
                        None
                    },
                    at_place(list@, 4, whole, |v: Json| optional_from(v)),
                ),
            )
        },
        _ => Err(invalid_type(step, "struct PipelineStep"@)),
    }
}

proof fn lemma_field_names_differ()
    ensures
        "name"@ != "step_type"@,
        "name"@ != "connection_type"@,
        "name"@ != "template"@,
        "name"@ != "config"@,
        "name"@ != "description"@,
        "step_type"@ != "connection_type"@,
        "step_type"@ != "template"@,
        "step_type"@ != "config"@,
        "step_type"@ != "description"@,
        "connection_type"@ != "template"@,
        "connection_type"@ != "config"@,
        "connection_type"@ != "description"@,
        "template"@ != "config"@,
        "template"@ != "description"@,
        "config"@ != "description"@,
        "steps"@ != "name"@,
        "steps"@ != "description"@,
        "auto_run"@ != "name"@,
        "auto_run"@ != "description"@,
        "auto_run"@ != "steps"@,
        "created_at"@ != "name"@,
        "created_at"@ != "description"@,
        "created_at"@ != "steps"@,
        "created_at"@ != "auto_run"@,
        "updated_at"@ != "name"@,
        "updated_at"@ != "description"@,
        "updated_at"@ != "steps"@,
        "updated_at"@ != "auto_run"@,
        "updated_at"@ != "created_at"@,
{
    reveal_strlit("name");
    reveal_strlit("step_type");
    reveal_strlit("connection_type");
    reveal_strlit("template");
    reveal_strlit("config");
    reveal_strlit("description");
    reveal_strlit("steps");
    reveal_strlit("auto_run");
    reveal_strlit("created_at");
    reveal_strlit("updated_at");
    assert("name"@.len() == 4 && "step_type"@.len() == 9 && "connection_type"@.len() == 15);
    assert("template"@.len() == 8 && "config"@.len() == 6 && "description"@.len() == 11);
    assert("steps"@.len() == 5 && "auto_run"@.len() == 8);
    assert("created_at"@.len() == 10 && "updated_at"@.len() == 10);
    assert("created_at"@[0] == 'c' && "updated_at"@[0] == 'u');
}

/// Whether a stored step, an object, can be read; else, why not.
fn check_stored_step(object: &Vec<(String, Json)>) -> (r: Option<String>)
    ensures
        match r {
            Some(m) => stored_step(Json::Object(*object)) == Err::<StepParts, Seq<char>>(m@),
            None => stored_step(Json::Object(*object)) is Ok,
        },
{
    match check_step_entries(object) {
        Some(m) => {
            return Some(m);
        },
        None => {},
    }
    let name = match lookup(object, "name") {
        Some(v) => text_fault(v),
        None => Some(not_there("name")),
    };
    if name.is_some() {
        return name;
    }
    let kind = match lookup(object, "step_type") {
        Some(v) => read_kind(v),
        None => match lookup(object, "connection_type") {
            Some(v) => read_kind(v),
            None => Err(not_there("step_type")),
        },
    };
    match kind {
        Ok(_) => {},
        Err(m) => {
            return Some(m);
        },
    }
    let template = match lookup(object, "template") {
        Some(v) => text_fault(v),
        None => Some(not_there("template")),
    };
    if template.is_some() {
        return template;
    }
    match lookup(object, "description") {
        Some(v) => optional_fault(v),
        None => None,
    }
}

fn read_step_object(object: Vec<(String, Json)>) -> (r: Result<PipelineStep, String>)
    ensures
        match r {
            Ok(s) => stored_step(Json::Object(object)) == Ok::<StepParts, Seq<char>>(parts_of(s)),
            Err(m) => stored_step(Json::Object(object)) == Err::<StepParts, Seq<char>>(m@),
        },
{
    proof {
        lemma_field_names_differ();
    }
    match check_step_entries(&object) {
        Some(m) => {
            return Err(m);
        },
        None => {},
    }
    let mut entries = object;
    let name = match read_text(take_entry(&mut entries, "name"), "name") {
        Ok(s) => s,
        Err(m) => {
            return Err(m);
        },
    };
    let new_type = take_entry(&mut entries, "step_type");
    let old_type = take_entry(&mut entries, "connection_type");
    let chosen = if new_type.is_some() { new_type } else { old_type };
    let kind = match chosen {
        Some(v) => read_kind(&v),
        None => Err(not_there("step_type")),
    };
    let step_type = match kind {
        Ok(t) => t,
        Err(m) => {
            return Err(m);
        },
    };
    let template = match read_text(take_entry(&mut entries, "template"), "template") {
        Ok(s) => s,
        Err(m) => {
            return Err(m);
        },
    };
    let config = match take_entry(&mut entries, "config") {
        Some(c) => c,
        None => Json::Null,
    };
    let description = match take_entry(&mut entries, "description") {
        None => None,
        Some(v) => match take_optional(v) {
            Ok(d) => d,
            Err(m) => {
                return Err(m);
            },
        },
    };
    Ok(PipelineStep { name, step_type, template, config, description })
}

/// Takes the element at `place`, the first one left; says where there is none.
fn next_field(rest: &mut Vec<Json>, place: usize, expected: &str) -> (r: Result<Json, String>)
    ensures
        match r {
            Ok(v) => old(rest)@.len() > 0 && v == old(rest)@[0] && final(rest)@ == old(
                rest,
            )@.skip(1),
            Err(m) => old(rest)@.len() == 0 && final(rest)@ == old(rest)@ && m@ == invalid_length(
                place as nat,
                expected@,
            ),
        },
{
    if rest.len() == 0 {
        Err(wrong_length(place, expected))
    } else {
        let v = rest.remove(0);
        assert(rest@ =~= old(rest)@.skip(1));
        Ok(v)
    }
}

fn next_text(rest: &mut Vec<Json>, place: usize, expected: &str) -> (r: Result<String, String>)
    ensures
        old(rest)@.len() > 0 ==> final(rest)@ == old(rest)@.skip(1),
        match r {
            Ok(t) => old(rest)@.len() > 0 && text_from(old(rest)@[0]) == Ok::<
                Seq<char>,
                Seq<char>,
            >(t@),
            Err(m) => if old(rest)@.len() > 0 {
                text_from(old(rest)@[0]) == Err::<Seq<char>, Seq<char>>(m@)
            } else {
                m@ == invalid_length(place as nat, expected@)
            },
        },
{
    match next_field(rest, place, expected) {
        Ok(v) => take_text(v),
        Err(m) => Err(m),
    }
}

fn read_step_list(list: Vec<Json>) -> (r: Result<PipelineStep, String>)
    ensures
        match r {
            Ok(s) => stored_step(Json::List(list)) == Ok::<StepParts, Seq<char>>(parts_of(s)),
            Err(m) => stored_step(Json::List(list)) == Err::<StepParts, Seq<char>>(m@),
        },
{
    let whole = "struct PipelineStep with 5 elements";
    let n: usize = list.len();
    let mut rest = list;
    let name = match next_text(&mut rest, 0, whole) {
        Ok(s) => s,
        Err(m) => {
            return Err(m);
        },
    };
    let kind = match next_field(&mut rest, 1, whole) {
        Ok(v) => read_kind(&v),
        Err(m) => Err(m),
    };
    let step_type = match kind {
        Ok(t) => t,
        Err(m) => {
            return Err(m);
        },
    };
    let template = match next_text(&mut rest, 2, whole) {
        Ok(s) => s,
        Err(m) => {
            return Err(m);
        },
    };
    let config = if rest.len() > 0 { rest.remove(0) } else { Json::Null };
    let last = match next_field(&mut rest, 4, whole) {
        Ok(v) => take_optional(v),
        Err(m) => Err(m),
    };
    let description = match last {
        Ok(d) => d,
        Err(m) => {
            return Err(m);
        },
    };
    if n > 5 {
        return Err(wrong_length(n, "fewer elements in array"));
    }
    Ok(PipelineStep { name, step_type, template, config, description })
}

/// Reads a stored step.
pub fn read_step(step: Json) -> (r: Result<PipelineStep, String>)
    ensures
        match r {
            Ok(s) => stored_step(step) == Ok::<StepParts, Seq<char>>(parts_of(s)),
            Err(m) => stored_step(step) == Err::<StepParts, Seq<char>>(m@),
        },
{
    match step {
        Json::Object(object) => read_step_object(object),
        Json::List(list) => read_step_list(list),
        other => Err(wrong_type(&other, "struct PipelineStep")),
    }
}

/// What the first `n` stored steps mean, or why one of them cannot be read.
pub open spec fn stored_steps(items: Seq<Json>, n: int) -> Result<Seq<StepParts>, Seq<char>>
    decreases n,
{
    if n <= 0 {
        Ok(Seq::empty())
    } else {
        match stored_steps(items, n - 1) {
            Err(m) => Err(m),
            Ok(before) => match stored_step(items[n - 1]) {
                Err(m) => Err(m),
                Ok(s) => Ok(before.push(s)),
            },
        }
    }
}

proof fn lemma_stored_steps_fail(items: Seq<Json>, i: int, n: int)
    requires
        i <= n,
        stored_steps(items, i) is Err,
    ensures
        stored_steps(items, n) == stored_steps(items, i),
    decreases n - i,
{
    if i < n {
        lemma_stored_steps_fail(items, i, n - 1);
    }
}

/// The parts of several steps.
pub open spec fn all_parts(steps: Seq<PipelineStep>) -> Seq<StepParts> {
    steps.map_values(|s: PipelineStep| parts_of(s))
}

fn read_steps(items: Vec<Json>) -> (r: Result<Vec<PipelineStep>, String>)
    ensures
        match r {
            Ok(steps) => stored_steps(items@, items@.len() as int) == Ok::<
                Seq<StepParts>,
                Seq<char>,
            >(all_parts(steps@)),
            Err(m) => stored_steps(items@, items@.len() as int) == Err::<
                Seq<StepParts>,
                Seq<char>,
            >(m@),
        },
{
    let ghost all = items@;
    let mut rest = items;
    let mut out: Vec<PipelineStep> = Vec::new();
    let n: usize = rest.len();
    let mut i: usize = 0;
    assert(all.skip(0) =~= all);
    assert(all_parts(out@) =~= Seq::empty());
    while i < n
        invariant
            i <= n,
            n == all.len(),
            all == items@,
            rest@ == all.skip(i as int),
            stored_steps(all, i as int) == Ok::<Seq<StepParts>, Seq<char>>(all_parts(out@)),
        decreases n - i,
    {
        let s = rest.remove(0);
        assert(all.skip(i as int)[0] == all[i as int]);
        assert(all.skip(i as int).remove(0) =~= all.skip(i as int + 1));
        match read_step(s) {
            Ok(step) => {
                let ghost before = out@;
                let ghost parts = parts_of(step);
                out.push(step);
                assert(all_parts(out@) =~= all_parts(before).push(parts));
            },
            Err(m) => {
                proof {
                    lemma_stored_steps_fail(all, i as int + 1, n as int);
                }
                return Err(m);
            },
        }
        i += 1;
    }
    Ok(out)
}

/// A definition in mathematical terms.
pub struct PipelineParts {
    pub name: Seq<char>,
    pub description: Seq<char>,
    pub steps: Seq<StepParts>,
    pub auto_run: bool,
    pub created_at: Seq<char>,
    pub updated_at: Seq<char>,
}

impl View for Pipeline {
    type V = PipelineParts;

    open spec fn view(&self) -> PipelineParts {
        PipelineParts {
            name: self.name@,
            description: self.description@,
            steps: all_parts(self.steps@),
            auto_run: self.auto_run,
            created_at: self.created_at@,
            updated_at: self.updated_at@,
        }
    }
}

/// What the stored steps of a definition mean; with `prune`, those of kinds that
/// still exist.
pub open spec fn steps_from(v: Json, prune: bool) -> Result<Seq<StepParts>, Seq<char>> {
    match v {
        Json::List(items) => {
            let kept = if prune {
                pruned(items@, items@.len() as int)
            } else {
                items@
            };
            stored_steps(kept, kept.len() as int)
        },
        _ => Err(invalid_type(v, "a sequence"@)),
    }
}

/// The stored steps of a definition; none if absent.
pub open spec fn steps_in(value: Option<Json>, prune: bool) -> Result<Seq<StepParts>, Seq<char>> {
    match value {
        None => Ok(Seq::empty()),
        Some(v) => steps_from(v, prune),
    }
}

/// The `auto_run` flag of a stored definition; off if absent.
pub open spec fn auto_run_in(value: Option<Json>) -> Result<bool, Seq<char>> {
    match value {
        None => Ok(false),
        Some(v) => bool_from(v),
    }
}

/// What is wrong with an entry of a stored definition.
pub open spec fn entry_fault(key: Seq<char>, v: Json) -> Option<Seq<char>> {
    if key == "name"@ || key == "description"@ || key == "created_at"@ || key == "updated_at"@ {
        fault(text_from(v))
    } else if key == "steps"@ {
        fault(steps_from(v, true))
    } else if key == "auto_run"@ {
        fault(bool_from(v))
    } else {
        None
    }
}

/// The first fault in the first `n` entries of a stored definition.
pub open spec fn definition_fault(entries: Seq<(String, Json)>, n: int) -> Option<Seq<char>>
    decreases n,
{
    if n <= 0 {
        None
    } else if definition_fault(entries, n - 1) is Some {
        definition_fault(entries, n - 1)
    } else {
        entry_fault(entries[n - 1].0@, entries[n - 1].1)
    }
}

proof fn lemma_definition_fault_stays(entries: Seq<(String, Json)>, i: int, n: int)
    requires
        i <= n,
        definition_fault(entries, i) is Some,
    ensures
        definition_fault(entries, n) == definition_fault(entries, i),
    decreases n - i,
{
    if i < n {
        lemma_definition_fault_stays(entries, i, n - 1);
    }
}

/// What a definition with these fields means, or the first fault in them.
pub open spec fn definition_of(
    name: Result<Seq<char>, Seq<char>>,
    description: Result<Seq<char>, Seq<char>>,
    steps: Result<Seq<StepParts>, Seq<char>>,
    auto_run: Result<bool, Seq<char>>,
    created_at: Result<Seq<char>, Seq<char>>,
    updated_at: Result<Seq<char>, Seq<char>>,
) -> Result<PipelineParts, Seq<char>> {
    match name {
        Err(m) => Err(m),
        Ok(name) => match description {
            Err(m) => Err(m),
            Ok(description) => match steps {
                Err(m) => Err(m),
                Ok(steps) => match auto_run {
                    Err(m) => Err(m),
                    Ok(auto_run) => match created_at {
                        Err(m) => Err(m),
                        Ok(created_at) => match updated_at {
                            Err(m) => Err(m),
                            Ok(updated_at) => Ok(
                                PipelineParts {
                                    name,
                                    description,
                                    steps,
                                    auto_run,
                                    created_at,
                                    updated_at,
                                },
                            ),
                        },
                    },
                },
            },
        },
    }
}

/// The element at a place of an array, where it is that long.
pub open spec fn element(items: Seq<Json>, place: int) -> Option<Json> {
    if place < items.len() {
        Some(items[place])
    } else {
        None
    }
}

/// What a stored definition means: an object, or an array of the fields in their
/// order. Stamps that are absent are `now`. In an object steps of kinds that no longer
/// exist are dropped; the first entry that cannot be read is the fault, then the
/// first field that is not there.
pub open spec fn stored_pipeline(value: Json, now: Seq<char>) -> Result<PipelineParts, Seq<char>> {
    match value {
        Json::Object(object) => match definition_fault(object@, object@.len() as int) {
            Some(m) => Err(m),
            None => definition_of(
                required_text(entry_of(object@, "name"@), "name"@),
                required_text(entry_of(object@, "description"@), "description"@),
                steps_in(entry_of(object@, "steps"@), true),
                auto_run_in(entry_of(object@, "auto_run"@)),
                text_with_default(entry_of(object@, "created_at"@), now),
                text_with_default(entry_of(object@, "updated_at"@), now),
            ),
        },
        Json::List(list) => {
            let whole = "struct Pipeline with 6 elements"@;
            no_longer(
                list@,
                6,
                definition_of(
                    at_place(list@, 0, whole, |v: Json| text_from(v)),
                    at_place(list@, 1, whole, |v: Json| text_from(v)),
                    steps_in(element(list@, 2), false),
                    auto_run_in(element(list@, 3)),
                    text_with_default(element(list@, 4), now),
                    text_with_default(element(list@, 5), now),
                ),
            )
        },
        _ => Err(invalid_type(value, "struct Pipeline"@)),
    }
}

proof fn lemma_stored_prefix(a: Seq<Json>, b: Seq<Json>, n: int)
    requires
        n <= a.len(),
        n <= b.len(),
        forall|i: int| 0 <= i < n ==> a[i] == b[i],
    ensures
        stored_steps(a, n) == stored_steps(b, n),
    decreases n,
{
    if n > 0 {
        lemma_stored_prefix(a, b, n - 1);
        assert(a[n - 1] == b[n - 1]);
    }
}

proof fn lemma_pruned_prefix(steps: Seq<Json>, i: int, n: int)
    requires
        0 <= i <= n,
    ensures
        pruned(steps, i).len() <= pruned(steps, n).len(),
        forall|k: int| 0 <= k < pruned(steps, i).len() ==> pruned(steps, n)[k] == pruned(steps, i)[k],
    decreases n - i,
{
    if i < n {
        lemma_pruned_prefix(steps, i, n - 1);
    }
}

/// Whether the steps of a stored definition can be read once pruned; else, why not.
fn check_stored_steps(v: &Json) -> (r: Option<String>)
    ensures
        match r {
            Some(m) => steps_from(*v, true) == Err::<Seq<StepParts>, Seq<char>>(m@),
            None => steps_from(*v, true) is Ok,
        },
{
    let items = match v {
        Json::List(items) => items,
        other => {
            return Some(wrong_type(other, "a sequence"));
        },
    };
    let ghost all = items@;
    let mut i: usize = 0;
    while i < items.len()
        invariant
            i <= items@.len(),
            all == items@,
            *v == Json::List(*items),
            stored_steps(pruned(all, i as int), pruned(all, i as int).len() as int) is Ok,
        decreases items@.len() - i,
    {
        let ghost before = pruned(all, i as int);
        let ghost after = pruned(all, i as int + 1);
        let step = &items[i];
        if current(step) {
            proof {
                lemma_stored_prefix(before, after, before.len() as int);
            }
            match step {
                Json::Object(object) => match check_stored_step(object) {
                    Some(m) => {
                        proof {
                            let kept = pruned(all, all.len() as int);
                            lemma_pruned_prefix(all, i as int + 1, all.len() as int);
                            lemma_stored_prefix(after, kept, after.len() as int);
                            lemma_stored_steps_fail(kept, after.len() as int, kept.len() as int);
                        }
                        return Some(m);
                    },
                    None => {},
                },
                _ => {},
            }
        }
        i += 1;
    }
    None
}

fn check_entry(key: &str, v: &Json) -> (r: Option<String>)
    ensures
        match r {
            Some(m) => entry_fault(key@, *v) == Some(m@),
            None => entry_fault(key@, *v) is None,
        },
{
    if same(key, "name") || same(key, "description") || same(key, "created_at") || same(
        key,
        "updated_at",
    ) {
        text_fault(v)
    } else if same(key, "steps") {
        check_stored_steps(v)
    } else if same(key, "auto_run") {
        match take_bool(v) {
            Ok(_) => None,
            Err(m) => Some(m),
        }
    } else {
        None
    }
}

fn check_definition(entries: &Vec<(String, Json)>) -> (r: Option<String>)
    ensures
        match r {
            Some(m) => definition_fault(entries@, entries@.len() as int) == Some(m@),
            None => definition_fault(entries@, entries@.len() as int) is None,
        },
{
    let mut i: usize = 0;
    while i < entries.len()
        invariant
            i <= entries@.len(),
            definition_fault(entries@, i as int) is None,
        decreases entries@.len() - i,
    {
        match check_entry(entries[i].0.as_str(), &entries[i].1) {
            Some(m) => {
                proof {
                    lemma_definition_fault_stays(
                        entries@,
                        i as int + 1,
                        entries@.len() as int,
                    );
                }
                return Some(m);
            },
            None => {},
        }
        i += 1;
    }
    None
}

fn read_steps_in(value: Option<Json>, prune: bool) -> (r: Result<Vec<PipelineStep>, String>)
    ensures
        match r {
            Ok(steps) => steps_in(value, prune) == Ok::<Seq<StepParts>, Seq<char>>(
                all_parts(steps@),
            ),
            Err(m) => steps_in(value, prune) == Err::<Seq<StepParts>, Seq<char>>(m@),
        },
{
    match value {
        None => {
            let none: Vec<PipelineStep> = Vec::new();
            assert(all_parts(none@) =~= Seq::empty());
            Ok(none)
        },
        Some(Json::List(items)) => if prune {
            read_steps(prune_steps(items))
        } else {
            read_steps(items)
        },
        Some(other) => Err(wrong_type(&other, "a sequence")),
    }
}

fn read_auto_run(value: Option<Json>) -> (r: Result<bool, String>)
    ensures
        match r {
            Ok(b) => auto_run_in(value) == Ok::<bool, Seq<char>>(b),
            Err(m) => auto_run_in(value) == Err::<bool, Seq<char>>(m@),
        },
{
    match value {
        None => Ok(false),
        Some(v) => take_bool(&v),
    }
}

/// A definition of these fields, or the first fault in them.
fn define(
    name: Result<String, String>,
    description: Result<String, String>,
    steps: Result<Vec<PipelineStep>, String>,
    auto_run: Result<bool, String>,
    created_at: Result<String, String>,
    updated_at: Result<String, String>,
) -> (r: Result<Pipeline, String>)
    ensures
        match r {
            Ok(p) => definition_of(
                result_view(name),
                result_view(description),
                steps_view(steps),
                flag_view(auto_run),
                result_view(created_at),
                result_view(updated_at),
            ) == Ok::<PipelineParts, Seq<char>>(p@),
            Err(m) => definition_of(
                result_view(name),
                result_view(description),
                steps_view(steps),
                flag_view(auto_run),
                result_view(created_at),
                result_view(updated_at),
            ) == Err::<PipelineParts, Seq<char>>(m@),
        },
{
    let name = match name {
        Ok(s) => s,
        Err(m) => {
            return Err(m);
        },
    };
    let description = match description {
        Ok(s) => s,
        Err(m) => {
            return Err(m);
        },
    };
    let steps = match steps {
        Ok(s) => s,
        Err(m) => {
            return Err(m);
        },
    };
    let auto_run = match auto_run {
        Ok(b) => b,
        Err(m) => {
            return Err(m);
        },
    };
    let created_at = match created_at {
        Ok(s) => s,
        Err(m) => {
            return Err(m);
        },
    };
    match updated_at {
        Ok(updated_at) => Ok(
            Pipeline { name, description, steps, auto_run, created_at, updated_at },
        ),
        Err(m) => Err(m),
    }
}

/// What was read, in mathematical terms.
pub open spec fn result_view(r: Result<String, String>) -> Result<Seq<char>, Seq<char>> {
    match r {
        Ok(t) => Ok(t@),
        Err(e) => Err(e@),
    }
}

/// What was read, in mathematical terms.
pub open spec fn steps_view(r: Result<Vec<PipelineStep>, String>) -> Result<
    Seq<StepParts>,
    Seq<char>,
> {
    match r {
        Ok(steps) => Ok(all_parts(steps@)),
        Err(e) => Err(e@),
    }
}

/// What was read, in mathematical terms.
pub open spec fn flag_view(r: Result<bool, String>) -> Result<bool, Seq<char>> {
    match r {
        Ok(b) => Ok(b),
        Err(e) => Err(e@),
    }
}

fn read_definition_object(object: Vec<(String, Json)>, now: &str) -> (r: Result<Pipeline, String>)
    ensures
        match r {
            Ok(p) => stored_pipeline(Json::Object(object), now@) == Ok::<PipelineParts, Seq<char>>(
                p@,
            ),
            Err(m) => stored_pipeline(Json::Object(object), now@) == Err::<
                PipelineParts,
                Seq<char>,
            >(m@),
        },
{
    proof {
        lemma_field_names_differ();
    }
    match check_definition(&object) {
        Some(m) => {
            return Err(m);
        },
        None => {},
    }
    let mut entries = object;
    let name = read_text(take_entry(&mut entries, "name"), "name");
    let description = read_text(take_entry(&mut entries, "description"), "description");
    let steps = read_steps_in(take_entry(&mut entries, "steps"), true);
    let auto_run = read_auto_run(take_entry(&mut entries, "auto_run"));
    let created_at = read_text_or(take_entry(&mut entries, "created_at"), now);
    let updated_at = read_text_or(take_entry(&mut entries, "updated_at"), now);
    define(name, description, steps, auto_run, created_at, updated_at)
}

fn next_if_any(rest: &mut Vec<Json>) -> (r: Option<Json>)
    ensures
        r == element(old(rest)@, 0),
        old(rest)@.len() > 0 ==> final(rest)@ == old(rest)@.skip(1),
        old(rest)@.len() == 0 ==> final(rest)@ == old(rest)@,
{
    if rest.len() == 0 {
        None
    } else {
        let v = rest.remove(0);
        assert(rest@ =~= old(rest)@.skip(1));
        Some(v)
    }
}

fn read_definition_list(list: Vec<Json>, now: &str) -> (r: Result<Pipeline, String>)
    ensures
        match r {
            Ok(p) => stored_pipeline(Json::List(list), now@) == Ok::<PipelineParts, Seq<char>>(p@),
            Err(m) => stored_pipeline(Json::List(list), now@) == Err::<PipelineParts, Seq<char>>(
                m@,
            ),
        },
{
    let whole = "struct Pipeline with 6 elements";
    let n: usize = list.len();
    let mut rest = list;
    let name = next_text(&mut rest, 0, whole);
    let description = next_text(&mut rest, 1, whole);
    let steps = read_steps_in(next_if_any(&mut rest), false);
    let auto_run = read_auto_run(next_if_any(&mut rest));
    let created_at = read_text_or(next_if_any(&mut rest), now);
    let updated_at = read_text_or(next_if_any(&mut rest), now);
    let read = define(name, description, steps, auto_run, created_at, updated_at);
    if n > 6 && read.is_ok() {
        return Err(wrong_length(n, "fewer elements in array"));
    }
    read
}

/// Reads a stored definition, dropping steps of kinds that no longer exist.
pub fn prune_and_parse_pipeline(value: Json, now: &str) -> (r: Result<Pipeline, String>)
    ensures
        match r {
            Ok(p) => stored_pipeline(value, now@) == Ok::<PipelineParts, Seq<char>>(p@),
            Err(m) => stored_pipeline(value, now@) == Err::<PipelineParts, Seq<char>>(m@),
        },
{
    match value {
        Json::Object(object) => read_definition_object(object, now),
        Json::List(list) => read_definition_list(list, now),
        other => Err(wrong_type(&other, "struct Pipeline")),
    }
}

/// What the first `n` entries of the pipelines file mean. The key is the name.
pub open spec fn stored_pipelines(
    entries: Seq<(String, Json)>,
    n: int,
    now: Seq<char>,
) -> Result<Seq<PipelineParts>, Seq<char>>
    decreases n,
{
    if n <= 0 {
        Ok(Seq::empty())
    } else {
        let key = entries[n - 1].0@;
        match stored_pipelines(entries, n - 1, now) {
            Err(m) => Err(m),
            Ok(before) => match stored_pipeline(entries[n - 1].1, now) {
                Err(m) => Err("Pipeline '"@ + key + "' is invalid: "@ + m),
                Ok(p) => Ok(before.push(PipelineParts { name: key, ..p })),
            },
        }
    }
}

proof fn lemma_stored_pipelines_fail(
    entries: Seq<(String, Json)>,
    i: int,
    n: int,
    now: Seq<char>,
)
    requires
        i <= n,
        stored_pipelines(entries, i, now) is Err,
    ensures
        stored_pipelines(entries, n, now) == stored_pipelines(entries, i, now),
    decreases n - i,
{
    if i < n {
        lemma_stored_pipelines_fail(entries, i, n - 1, now);
    }
}

/// Definitions in mathematical terms.
pub open spec fn pipelines_view(pipelines: Seq<Pipeline>) -> Seq<PipelineParts> {
    pipelines.map_values(|p: Pipeline| p@)
}

proof fn lemma_stored_names(entries: Seq<(String, Json)>, n: int, now: Seq<char>)
    requires
        stored_pipelines(entries, n, now) is Ok,
        0 <= n <= entries.len(),
    ensures
        stored_pipelines(entries, n, now)->Ok_0.len() == n,
        forall|k: int|
            0 <= k < n ==> (#[trigger] stored_pipelines(entries, n, now)->Ok_0[k]).name
                == entries[k].0@,
    decreases n,
{
    if n > 0 {
        lemma_stored_names(entries, n - 1, now);
    }
}

/// Reads the entries of the pipelines file. One definition that cannot be read
/// fails the whole, so that a later write cannot lose it.
pub fn read_pipelines(entries: Vec<(String, Json)>, now: &str) -> (r: Result<Vec<Pipeline>, String>)
    ensures
        match r {
            Ok(all) => stored_pipelines(entries@, entries@.len() as int, now@) == Ok::<
                Seq<PipelineParts>,
                Seq<char>,
            >(pipelines_view(all@)) && (keys_differ(entries@) ==> distinct(all@)),
            Err(m) => stored_pipelines(entries@, entries@.len() as int, now@) == Err::<
                Seq<PipelineParts>,
                Seq<char>,
            >(m@),
        },
{
    let ghost all = entries@;
    let mut rest = entries;
    let mut out: Vec<Pipeline> = Vec::new();
    let n: usize = rest.len();
    let mut i: usize = 0;
    assert(all.skip(0) =~= all);
    assert(pipelines_view(out@) =~= Seq::empty());
    while i < n
        invariant
            i <= n,
            n == all.len(),
            all == entries@,
            rest@ == all.skip(i as int),
            stored_pipelines(all, i as int, now@) == Ok::<Seq<PipelineParts>, Seq<char>>(
                pipelines_view(out@),
            ),
        decreases n - i,
    {
        let e = rest.remove(0);
        assert(all.skip(i as int)[0] == all[i as int]);
        assert(all.skip(i as int).remove(0) =~= all.skip(i as int + 1));
        match prune_and_parse_pipeline(e.1, now) {
            Ok(p) => {
                let ghost before = out@;
                let named = Pipeline {
                    name: e.0,
                    description: p.description,
                    steps: p.steps,
                    auto_run: p.auto_run,
                    created_at: p.created_at,
                    updated_at: p.updated_at,
                };
                let ghost v = named@;
                out.push(named);
                assert(pipelines_view(out@) =~= pipelines_view(before).push(v));
            },
            Err(m) => {
                let mut message = joined3("Pipeline '", e.0.as_str(), "' is invalid: ");
                message.append(m.as_str());
                proof {
                    lemma_stored_pipelines_fail(all, i as int + 1, n as int, now@);
                }
                return Err(message);
            },
        }
        i += 1;
    }
    proof {
        lemma_stored_names(all, n as int, now@);
        assert forall|k: int| 0 <= k < n implies (#[trigger] out@[k]).name@ == all[k].0@ by {
            assert(pipelines_view(out@)[k] == out@[k]@);
        }
        assert(out@.len() == pipelines_view(out@).len());
    }
    Ok(out)
}

/// What the text of the pipelines file means.
pub open spec fn pipelines_in(raw: Seq<char>, now: Seq<char>) -> Result<
    Seq<PipelineParts>,
    Seq<char>,
> {
    match entries_result(raw) {
        Err(e) => Err("pipelines.json is invalid: "@ + e),
        Ok(entries) => stored_pipelines(entries, entries.len() as int, now),
    }
}

/// The definitions in the file are its entries, each in its place and under its key; the
/// whole is read exactly if each of them is.
pub proof fn law_definitions_in_order(entries: Seq<(String, Json)>, n: int, now: Seq<char>)
    requires
        0 <= n <= entries.len(),
    ensures
        stored_pipelines(entries, n, now) is Ok <==> forall|i: int|
            0 <= i < n ==> stored_pipeline((#[trigger] entries[i]).1, now) is Ok,
        stored_pipelines(entries, n, now) is Ok ==> {
            let all = stored_pipelines(entries, n, now)->Ok_0;
            &&& all.len() == n
            &&& forall|i: int|
                0 <= i < n ==> {
                    let own = stored_pipeline((#[trigger] entries[i]).1, now)->Ok_0;
                    &&& all[i].name == entries[i].0@
                    &&& all[i].description == own.description
                    &&& all[i].steps == own.steps
                    &&& all[i].auto_run == own.auto_run
                    &&& all[i].created_at == own.created_at
                    &&& all[i].updated_at == own.updated_at
                }
        },
        forall|i: int|
            0 <= i < n && (#[trigger] stored_pipeline(entries[i].1, now)) is Err && (forall|j: int|
                0 <= j < i ==> (#[trigger] stored_pipeline(entries[j].1, now)) is Ok)
                ==> stored_pipelines(entries, n, now) == Err::<Seq<PipelineParts>, Seq<char>>(
                "Pipeline '"@ + entries[i].0@ + "' is invalid: "@ + stored_pipeline(
                    entries[i].1,
                    now,
                )->Err_0,
            ),
    decreases n,
{
    if n > 0 {
        law_definitions_in_order(entries, n - 1, now);
        let last = entries[n - 1];
        if stored_pipelines(entries, n, now) is Ok {
            let all = stored_pipelines(entries, n, now)->Ok_0;
            let before = stored_pipelines(entries, n - 1, now)->Ok_0;
            assert forall|i: int| 0 <= i < n - 1 implies all[i] == before[i] by {}
        }
        if stored_pipelines(entries, n - 1, now) is Ok {
            assert forall|i: int| 0 <= i < n - 1 implies stored_pipeline(
                (#[trigger] entries[i]).1,
                now,
            ) is Ok by {}
        }
    }
}

/// The steps of a definition are read in their order; all of them are read exactly if each
/// is, and else the fault is that of the first that is not.
pub proof fn law_steps_in_order(items: Seq<Json>, n: int)
    requires
        0 <= n <= items.len(),
    ensures
        stored_steps(items, n) is Ok <==> forall|i: int|
            0 <= i < n ==> stored_step(#[trigger] items[i]) is Ok,
        stored_steps(items, n) is Ok ==> {
            let all = stored_steps(items, n)->Ok_0;
            &&& all.len() == n
            &&& forall|i: int| 0 <= i < n ==> stored_step(#[trigger] items[i]) == Ok::<
                StepParts,
                Seq<char>,
            >(all[i])
        },
        forall|i: int|
            0 <= i < n && stored_step(#[trigger] items[i]) is Err && (forall|j: int|
                0 <= j < i ==> stored_step(#[trigger] items[j]) is Ok) ==> stored_steps(items, n)
                == Err::<Seq<StepParts>, Seq<char>>(stored_step(items[i])->Err_0),
    decreases n,
{
    if n > 0 {
        law_steps_in_order(items, n - 1);
        if stored_steps(items, n) is Ok {
            let all = stored_steps(items, n)->Ok_0;
            let before = stored_steps(items, n - 1)->Ok_0;
            assert forall|i: int| 0 <= i < n - 1 implies all[i] == before[i] by {}
        }
        if stored_steps(items, n - 1) is Ok {
            assert forall|i: int| 0 <= i < n - 1 implies stored_step(
                #[trigger] items[i],
            ) is Ok by {}
        }
    }
}

/// A step is read with the name, the kind, the template, the configuration and the
/// description that stand under their names, whatever stands between; a kind may stand
/// under the older name instead.
pub proof fn law_step_is_read(
    object: Vec<(String, Json)>,
    name: String,
    word: String,
    template: String,
    kind: StepType,
)
    requires
        stored_step(Json::Object(object)) is Ok,
        entry_of(object@, "name"@) == Some(Json::Text(name)),
        entry_of(object@, "template"@) == Some(Json::Text(template)),
        entry_of(object@, "step_type"@) == Some(Json::Text(word)) || (entry_of(
            object@,
            "step_type"@,
        ) is None && entry_of(object@, "connection_type"@) == Some(Json::Text(word))),
        (word@ == "cli_agent"@ && kind == StepType::CliAgent) || (word@ == "shell"@ && kind
            == StepType::Shell) || (word@ == "save_local"@ && kind == StepType::SaveLocal),
    ensures
        ({
            let parts = stored_step(Json::Object(object))->Ok_0;
            &&& parts.0 == name@
            &&& parts.1 == kind
            &&& parts.2 == template@
            &&& entry_of(object@, "config"@) is None ==> parts.3 == Json::Null
            &&& entry_of(object@, "config"@) matches Some(c) ==> parts.3 == c
            &&& entry_of(object@, "description"@) is None ==> parts.4 is None
            &&& entry_of(object@, "description"@) matches Some(Json::Text(d)) ==> parts.4 == Some(
                d@,
            )
        }),
{
    reveal_strlit("cli_agent");
    reveal_strlit("shell");
    reveal_strlit("save_local");
    assert("cli_agent"@.len() == 9 && "shell"@.len() == 5 && "save_local"@.len() == 10);
}

/// A definition is read with what stands under the names of its fields; what is absent has
/// its default: no steps, not run by itself, stamped now. Of its steps those of kinds that
/// exist are kept.
pub proof fn law_definition_is_read(
    object: Vec<(String, Json)>,
    now: Seq<char>,
    name: String,
    description: String,
)
    requires
        stored_pipeline(Json::Object(object), now) is Ok,
        entry_of(object@, "name"@) == Some(Json::Text(name)),
        entry_of(object@, "description"@) == Some(Json::Text(description)),
    ensures
        ({
            let p = stored_pipeline(Json::Object(object), now)->Ok_0;
            &&& p.name == name@
            &&& p.description == description@
            &&& entry_of(object@, "steps"@) is None ==> p.steps.len() == 0
            &&& entry_of(object@, "steps"@) matches Some(Json::List(items)) ==> stored_steps(
                pruned(items@, items@.len() as int),
                pruned(items@, items@.len() as int).len() as int,
            ) == Ok::<Seq<StepParts>, Seq<char>>(p.steps)
            &&& entry_of(object@, "auto_run"@) is None ==> !p.auto_run
            &&& entry_of(object@, "auto_run"@) matches Some(Json::Bool(b)) ==> p.auto_run == b
            &&& entry_of(object@, "created_at"@) is None ==> p.created_at == now
            &&& entry_of(object@, "created_at"@) matches Some(Json::Text(t)) ==> p.created_at == t@
            &&& entry_of(object@, "updated_at"@) is None ==> p.updated_at == now
            &&& entry_of(object@, "updated_at"@) matches Some(Json::Text(t)) ==> p.updated_at == t@
        }),
{
}

/// Pruning keeps the order of what it keeps: an object whose kind is one of the three, under
/// its name or the older one.
pub proof fn law_pruned_in_order(a: Seq<Json>, step: Json)
    ensures
        ({
            let before = pruned(a, a.len() as int);
            let after = pruned(a.push(step), a.len() as int + 1);
            &&& (after == before.push(step)) || after == before
            &&& step matches Json::Object(e) ==> {
                let word = match entry_of(e@, "step_type"@) {
                    Some(v) => Some(v),
                    None => entry_of(e@, "connection_type"@),
                };
                after == (if word matches Some(Json::Text(w)) && (w@ == "cli_agent"@ || w@
                    == "shell"@ || w@ == "save_local"@) {
                    before.push(step)
                } else {
                    before
                })
            }
            &&& !(step is Object) ==> after == before
        }),
{
    lemma_pruned_same(a, a.push(step), a.len() as int);
}

proof fn lemma_pruned_same(a: Seq<Json>, b: Seq<Json>, n: int)
    requires
        n <= a.len(),
        n <= b.len(),
        forall|i: int| 0 <= i < n ==> a[i] == b[i],
    ensures
        pruned(a, n) == pruned(b, n),
    decreases n,
{
    if n > 0 {
        lemma_pruned_same(a, b, n - 1);
        assert(a[n - 1] == b[n - 1]);
    }
}

/// Reads the text of the pipelines file. No name stands twice in it.
pub fn load_pipelines(raw: &str, now: &str) -> (r: Result<Vec<Pipeline>, String>)
    ensures
        match r {
            Ok(all) => pipelines_in(raw@, now@) == Ok::<Seq<PipelineParts>, Seq<char>>(
                pipelines_view(all@),
            ) && distinct(all@),
            Err(m) => pipelines_in(raw@, now@) == Err::<Seq<PipelineParts>, Seq<char>>(m@),
        },
{
    match parse_entries(raw) {
        Err(e) => Err(crate::text::joined("pipelines.json is invalid: ", e.as_str())),
        Ok(entries) => read_pipelines(entries, now),
    }
}

/// The text of an optional name.
pub open spec fn name_view(name: Option<String>) -> Option<Seq<char>> {
    match name {
        Some(n) => Some(n@),
        None => None,
    }
}

/// The text of an optional name.
pub open spec fn str_view(name: Option<&str>) -> Option<Seq<char>> {
    match name {
        Some(n) => Some(n@),
        None => None,
    }
}

/// A reference to a pipeline once `old_name` has become `new_name`, or is gone.
pub open spec fn rewritten(
    reference: Option<Seq<char>>,
    old_name: Seq<char>,
    new_name: Option<Seq<char>>,
) -> Option<Seq<char>> {
    if reference == Some(old_name) {
        new_name
    } else {
        reference
    }
}

/// Replaces a reference to `old_name` by `new_name`. Says whether it was one.
pub fn rewrite_pipeline_reference(
    reference: &mut Option<String>,
    old_name: &str,
    new_name: Option<&str>,
) -> (changed: bool)
    ensures
        changed == (name_view(*old(reference)) == Some(old_name@)),
        name_view(*final(reference)) == rewritten(
            name_view(*old(reference)),
            old_name@,
            str_view(new_name),
        ),
        !changed ==> *final(reference) == *old(reference),
{
    let hit = match reference {
        Some(n) => same(n.as_str(), old_name),
        None => false,
    };
    if hit {
        *reference = match new_name {
            Some(n) => Some(n.to_owned()),
            None => None,
        };
    }
    hit
}

/// Two settings differ at most in their references to pipelines.
pub open spec fn same_but_references(a: AppSettings, b: AppSettings) -> bool {
    &&& a == (AppSettings {
        default_pipeline: a.default_pipeline,
        last_used_pipeline: a.last_used_pipeline,
        dictation: a.dictation,
        ..b
    })
    &&& a.dictation.enabled == b.dictation.enabled
    &&& a.dictation.save_dictations == b.dictation.save_dictations
    &&& a.dictation.show_hud == b.dictation.show_hud
    &&& a.dictation.shortcuts@.len() == b.dictation.shortcuts@.len()
    &&& forall|i: int|
        0 <= i < a.dictation.shortcuts@.len() ==> #[trigger] a.dictation.shortcuts@[i] == (
        DictationShortcut {
            pipeline: a.dictation.shortcuts@[i].pipeline,
            ..b.dictation.shortcuts@[i]
        })
}

/// The references of the settings: the default, the last used, one for each
/// shortcut.
pub open spec fn references(settings: AppSettings) -> Seq<Option<Seq<char>>> {
    seq![name_view(settings.default_pipeline), name_view(settings.last_used_pipeline)]
        + settings.dictation.shortcuts@.map_values(|s: DictationShortcut| name_view(s.pipeline))
}

/// How many of the first `n` references satisfy `p`.
pub open spec fn hits(
    references: Seq<Option<Seq<char>>>,
    p: spec_fn(Option<Seq<char>>) -> bool,
    n: int,
) -> nat {
    crate::seqs::count_of(references, p, n)
}

/// The references to `name`.
pub open spec fn refers_to(name: Seq<char>) -> spec_fn(Option<Seq<char>>) -> bool {
    |r: Option<Seq<char>>| r == Some(name)
}

/// Every reference to `old_name` becomes `new_name`, or none. Gives how many.
pub fn rewrite_settings_pipeline_references(
    settings: &mut AppSettings,
    old_name: &str,
    new_name: Option<&str>,
) -> (changed: usize)
    requires
        old(settings).dictation.shortcuts@.len() + 2 <= usize::MAX,
    ensures
        same_but_references(*final(settings), *old(settings)),
        forall|i: int|
            0 <= i < references(*old(settings)).len() ==> #[trigger] references(
                *final(settings),
            )[i] == rewritten(references(*old(settings))[i], old_name@, str_view(new_name)),
        changed == hits(
            references(*old(settings)),
            refers_to(old_name@),
            references(*old(settings)).len() as int,
        ),
{
    let ghost before = *settings;
    let ghost refs = references(before);
    let ghost p = refers_to(old_name@);
    let mut changed: usize = 0;
    if rewrite_pipeline_reference(&mut settings.default_pipeline, old_name, new_name) {
        changed += 1;
    }
    if rewrite_pipeline_reference(&mut settings.last_used_pipeline, old_name, new_name) {
        changed += 1;
    }
    proof {
        reveal_with_fuel(crate::seqs::count_of, 3);
        assert(refs[0] == name_view(before.default_pipeline));
        assert(refs[1] == name_view(before.last_used_pipeline));
        assert(changed == hits(refs, p, 2));
    }
    let n: usize = settings.dictation.shortcuts.len();
    let mut i: usize = 0;
    while i < n
        invariant
            i <= n,
            n == before.dictation.shortcuts@.len(),
            n + 2 <= usize::MAX,
            refs == references(before),
            p == refers_to(old_name@),
            changed == hits(refs, p, i + 2),
            changed <= i + 2,
            same_but_references(*settings, before),
            name_view(settings.default_pipeline) == rewritten(
                name_view(before.default_pipeline),
                old_name@,
                str_view(new_name),
            ),
            name_view(settings.last_used_pipeline) == rewritten(
                name_view(before.last_used_pipeline),
                old_name@,
                str_view(new_name),
            ),
            forall|j: int|
                0 <= j < i ==> name_view((#[trigger] settings.dictation.shortcuts@[j]).pipeline)
                    == rewritten(
                    name_view(before.dictation.shortcuts@[j].pipeline),
                    old_name@,
                    str_view(new_name),
                ),
            forall|j: int|
                i <= j < n ==> (#[trigger] settings.dictation.shortcuts@[j]).pipeline
                    == before.dictation.shortcuts@[j].pipeline,
        decreases n - i,
    {
        assert(refs[i + 2] == name_view(before.dictation.shortcuts@[i as int].pipeline));
        if rewrite_pipeline_reference(
            &mut settings.dictation.shortcuts[i].pipeline,
            old_name,
            new_name,
        ) {
            changed += 1;
        }
        i += 1;
    }
    assert(refs.len() == n + 2);
    assert forall|k: int| 0 <= k < refs.len() implies #[trigger] references(*settings)[k]
        == rewritten(refs[k], old_name@, str_view(new_name)) by {
        if k >= 2 {
            assert(references(*settings)[k] == name_view(
                settings.dictation.shortcuts@[k - 2].pipeline,
            ));
        }
    }
    changed
}

/// After a rename or a removal nothing refers to the old name, unless it is
/// the new name too.
pub proof fn law_no_reference_to_old_name(
    reference: Option<Seq<char>>,
    old_name: Seq<char>,
    new_name: Option<Seq<char>>,
)
    requires
        new_name != Some(old_name),
    ensures
        rewritten(reference, old_name, new_name) != Some(old_name),
{
}

/// A reference to a pipeline that does not exist.
pub open spec fn dangling(valid: Seq<Seq<char>>) -> spec_fn(Option<Seq<char>>) -> bool {
    |r: Option<Seq<char>>| r is Some && !valid.contains(r->0)
}

/// A reference without its dangling target.
pub open spec fn kept(reference: Option<Seq<char>>, valid: Seq<Seq<char>>) -> Option<Seq<char>> {
    if dangling(valid)(reference) {
        None
    } else {
        reference
    }
}

fn clear(reference: &mut Option<String>, valid_names: &Vec<String>) -> (changed: bool)
    ensures
        changed == dangling(views(valid_names@))(name_view(*old(reference))),
        name_view(*final(reference)) == kept(name_view(*old(reference)), views(valid_names@)),
        !changed ==> *final(reference) == *old(reference),
{
    let hit = match reference {
        Some(n) => !listed(valid_names, n.as_str()),
        None => false,
    };
    if hit {
        *reference = None;
    }
    hit
}

/// Clears references to pipelines that are not among the valid names. Gives
/// how many.
pub fn clear_missing_pipeline_references(
    settings: &mut AppSettings,
    valid_names: &Vec<String>,
) -> (changed: usize)
    requires
        old(settings).dictation.shortcuts@.len() + 2 <= usize::MAX,
    ensures
        same_but_references(*final(settings), *old(settings)),
        forall|i: int|
            0 <= i < references(*old(settings)).len() ==> #[trigger] references(
                *final(settings),
            )[i] == kept(references(*old(settings))[i], views(valid_names@)),
        changed == hits(
            references(*old(settings)),
            dangling(views(valid_names@)),
            references(*old(settings)).len() as int,
        ),
{
    let ghost before = *settings;
    let ghost refs = references(before);
    let ghost valid = views(valid_names@);
    let ghost p = dangling(valid);
    let mut changed: usize = 0;
    if clear(&mut settings.default_pipeline, valid_names) {
        changed += 1;
    }
    if clear(&mut settings.last_used_pipeline, valid_names) {
        changed += 1;
    }
    proof {
        reveal_with_fuel(crate::seqs::count_of, 3);
        assert(refs[0] == name_view(before.default_pipeline));
        assert(refs[1] == name_view(before.last_used_pipeline));
        assert(changed == hits(refs, p, 2));
    }
    let n: usize = settings.dictation.shortcuts.len();
    let mut i: usize = 0;
    while i < n
        invariant
            i <= n,
            n == before.dictation.shortcuts@.len(),
            n + 2 <= usize::MAX,
            refs == references(before),
            valid == views(valid_names@),
            p == dangling(valid),
            changed == hits(refs, p, i + 2),
            changed <= i + 2,
            same_but_references(*settings, before),
            name_view(settings.default_pipeline) == kept(
                name_view(before.default_pipeline),
                valid,
            ),
            name_view(settings.last_used_pipeline) == kept(
                name_view(before.last_used_pipeline),
                valid,
            ),
            forall|j: int|
                0 <= j < i ==> name_view((#[trigger] settings.dictation.shortcuts@[j]).pipeline)
                    == kept(name_view(before.dictation.shortcuts@[j].pipeline), valid),
            forall|j: int|
                i <= j < n ==> (#[trigger] settings.dictation.shortcuts@[j]).pipeline
                    == before.dictation.shortcuts@[j].pipeline,
        decreases n - i,
    {
        assert(refs[i + 2] == name_view(before.dictation.shortcuts@[i as int].pipeline));
        if clear(&mut settings.dictation.shortcuts[i].pipeline, valid_names) {
            changed += 1;
        }
        i += 1;
    }
    assert(refs.len() == n + 2);
    assert forall|k: int| 0 <= k < refs.len() implies #[trigger] references(*settings)[k] == kept(
        refs[k],
        valid,
    ) by {
        if k >= 2 {
            assert(references(*settings)[k] == name_view(
                settings.dictation.shortcuts@[k - 2].pipeline,
            ));
        }
    }
    changed
}

/// Clearing twice clears nothing more, so the repair can be repeated.
pub proof fn law_clearing_settles(reference: Option<Seq<char>>, valid: Seq<Seq<char>>)
    ensures
        kept(kept(reference, valid), valid) == kept(reference, valid),
        !dangling(valid)(kept(reference, valid)),
{
}

/// The references of the settings are the default pipeline, the one last used, and that of
/// each shortcut.
pub proof fn law_references(settings: AppSettings)
    ensures
        references(settings).len() == settings.dictation.shortcuts@.len() + 2,
        references(settings)[0] == name_view(settings.default_pipeline),
        references(settings)[1] == name_view(settings.last_used_pipeline),
        forall|i: int|
            0 <= i < settings.dictation.shortcuts@.len() ==> references(settings)[i + 2]
                == name_view((#[trigger] settings.dictation.shortcuts@[i]).pipeline),
{
}

/// A rename changes the references to the old name, into the new one, and no others; where
/// a definition is gone they are cleared.
pub proof fn law_references_follow(
    reference: Option<Seq<char>>,
    old_name: Seq<char>,
    new_name: Option<Seq<char>>,
)
    ensures
        rewritten(Some(old_name), old_name, new_name) == new_name,
        reference != Some(old_name) ==> rewritten(reference, old_name, new_name) == reference,
        refers_to(old_name)(reference) == (reference == Some(old_name)),
{
}

/// A reference is cleared exactly if it names a pipeline that is not there.
pub proof fn law_dangling_references(reference: Option<Seq<char>>, valid: Seq<Seq<char>>)
    ensures
        reference is None ==> kept(reference, valid) is None,
        reference matches Some(n) ==> kept(reference, valid) == if valid.contains(n) {
            Some(n)
        } else {
            None
        },
        dangling(valid)(reference) == (reference is Some && !valid.contains(reference->0)),
{
}

/// The definitions by name.
pub open spec fn by_name(pipelines: Seq<Pipeline>) -> Map<Seq<char>, PipelineParts>
    decreases pipelines.len(),
{
    if pipelines.len() == 0 {
        Map::empty()
    } else {
        by_name(pipelines.drop_last()).insert(pipelines.last().name@, pipelines.last()@)
    }
}

/// No two definitions share a name.
pub open spec fn distinct(pipelines: Seq<Pipeline>) -> bool {
    forall|i: int, j: int|
        0 <= i < j < pipelines.len() ==> (#[trigger] pipelines[i]).name@ != (
        #[trigger] pipelines[j]).name@
}

proof fn lemma_by_name_dom(pipelines: Seq<Pipeline>, name: Seq<char>)
    ensures
        by_name(pipelines).dom().contains(name) <==> exists|i: int|
            0 <= i < pipelines.len() && (#[trigger] pipelines[i]).name@ == name,
    decreases pipelines.len(),
{
    if pipelines.len() > 0 {
        let before = pipelines.drop_last();
        lemma_by_name_dom(before, name);
        if exists|i: int| 0 <= i < before.len() && (#[trigger] before[i]).name@ == name {
            let i = choose|i: int| 0 <= i < before.len() && (#[trigger] before[i]).name@ == name;
            assert(pipelines[i].name@ == name);
        }
        if exists|i: int| 0 <= i < pipelines.len() && (#[trigger] pipelines[i]).name@ == name {
            let i = choose|i: int|
                0 <= i < pipelines.len() && (#[trigger] pipelines[i]).name@ == name;
            if i < before.len() {
                assert(before[i].name@ == name);
            }
        }
    }
}

proof fn lemma_by_name_at(pipelines: Seq<Pipeline>, i: int)
    requires
        distinct(pipelines),
        0 <= i < pipelines.len(),
    ensures
        by_name(pipelines).dom().contains(pipelines[i].name@),
        by_name(pipelines)[pipelines[i].name@] == pipelines[i]@,
    decreases pipelines.len(),
{
    if i < pipelines.len() - 1 {
        let before = pipelines.drop_last();
        assert(before[i] == pipelines[i]);
        lemma_by_name_at(before, i);
        assert(pipelines[i].name@ != pipelines.last().name@);
    }
}

proof fn lemma_by_name_removed(pipelines: Seq<Pipeline>, i: int)
    requires
        distinct(pipelines),
        0 <= i < pipelines.len(),
    ensures
        by_name(pipelines.remove(i)) == by_name(pipelines).remove(pipelines[i].name@),
        distinct(pipelines.remove(i)),
    decreases pipelines.len(),
{
    let before = pipelines.drop_last();
    let name = pipelines[i].name@;
    if i == pipelines.len() - 1 {
        assert(pipelines.remove(i) =~= before);
        lemma_by_name_dom(before, name);
        if by_name(before).dom().contains(name) {
            let k = choose|k: int| 0 <= k < before.len() && (#[trigger] before[k]).name@ == name;
            assert(pipelines[k].name@ != pipelines[i].name@);
        }
        assert(by_name(before).insert(name, pipelines[i]@).remove(name) =~= by_name(before));
    } else {
        let removed = pipelines.remove(i);
        assert(removed.drop_last() =~= before.remove(i));
        assert(removed.last() == pipelines.last());
        assert(before[i] == pipelines[i]);
        lemma_by_name_removed(before, i);
        assert(pipelines.last().name@ != name);
        assert(by_name(removed) =~= by_name(pipelines).remove(name));
    }
}

fn position(pipelines: &Vec<Pipeline>, name: &str) -> (r: Option<usize>)
    ensures
        match r {
            Some(i) => i < pipelines@.len() && pipelines@[i as int].name@ == name@ && by_name(
                pipelines@,
            ).dom().contains(name@),
            None => !by_name(pipelines@).dom().contains(name@),
        },
{
    proof {
        lemma_by_name_dom(pipelines@, name@);
    }
    let mut i: usize = 0;
    while i < pipelines.len()
        invariant
            i <= pipelines@.len(),
            forall|j: int| 0 <= j < i ==> (#[trigger] pipelines@[j]).name@ != name@,
            by_name(pipelines@).dom().contains(name@) <==> exists|k: int|
                0 <= k < pipelines@.len() && (#[trigger] pipelines@[k]).name@ == name@,
        decreases pipelines@.len() - i,
    {
        if same(pipelines[i].name.as_str(), name) {
            assert(pipelines@[i as int].name@ == name@);
            return Some(i);
        }
        i += 1;
    }
    None
}

/// The definition of that name.
pub fn get_pipeline<'a>(pipelines: &'a Vec<Pipeline>, name: &str) -> (r: Result<&'a Pipeline, String>)
    requires
        distinct(pipelines@),
    ensures
        match r {
            Ok(p) => by_name(pipelines@).dom().contains(name@) && by_name(pipelines@)[name@] == p@,
            Err(m) => !by_name(pipelines@).dom().contains(name@) && m@ == not_found(name@),
        },
{
    match position(pipelines, name) {
        Some(i) => {
            proof {
                lemma_by_name_at(pipelines@, i as int);
            }
            Ok(&pipelines[i])
        },
        None => Err(joined3("Pipeline '", name, "' not found")),
    }
}

/// What is said of a name that has no definition.
pub open spec fn not_found(name: Seq<char>) -> Seq<char> {
    "Pipeline '"@ + name + "' not found"@
}

/// What is said of a name that is taken.
pub open spec fn already_exists(name: Seq<char>) -> Seq<char> {
    "Pipeline '"@ + name + "' already exists"@
}

/// The name that an update replaces; a blank one is none.
pub open spec fn previous(name: Option<String>) -> Option<Seq<char>> {
    match name {
        Some(n) => if trimmed(n@).len() == 0 {
            None
        } else {
            Some(n@)
        },
        None => None,
    }
}

/// Why a definition cannot be saved, if it cannot.
pub open spec fn save_fault(
    stored: Map<Seq<char>, PipelineParts>,
    pipeline: Pipeline,
    old_name: Option<Seq<char>>,
) -> Option<Seq<char>> {
    if pipeline_fault(pipeline) is Some {
        pipeline_fault(pipeline)
    } else {
        match old_name {
            Some(o) => if !stored.dom().contains(o) {
                Some(not_found(o))
            } else if o != pipeline.name@ && stored.dom().contains(pipeline.name@) {
                Some(already_exists(pipeline.name@))
            } else {
                None
            },
            None => if stored.dom().contains(pipeline.name@) {
                Some(already_exists(pipeline.name@))
            } else {
                None
            },
        }
    }
}

/// The definitions once `pipeline` is saved at `now`: the one it replaces is
/// gone, and the time of creation carries over from it.
pub open spec fn saved(
    stored: Map<Seq<char>, PipelineParts>,
    pipeline: PipelineParts,
    old_name: Option<Seq<char>>,
    now: Seq<char>,
) -> Map<Seq<char>, PipelineParts> {
    match old_name {
        Some(o) => stored.remove(o).insert(
            pipeline.name,
            PipelineParts { created_at: stored[o].created_at, updated_at: now, ..pipeline },
        ),
        None => stored.insert(
            pipeline.name,
            PipelineParts { created_at: now, updated_at: now, ..pipeline },
        ),
    }
}

/// The outcome of saving a definition: all definitions, and the rename that
/// references have to follow.
#[derive(Debug)]
pub struct Saved {
    pub pipelines: Vec<Pipeline>,
    pub renamed: Option<(String, String)>,
}

/// Creates or updates a definition at `now`.
pub fn save_pipeline_at(
    pipelines: Vec<Pipeline>,
    pipeline: Pipeline,
    previous_name: Option<String>,
    now: &str,
) -> (r: Result<Saved, String>)
    requires
        distinct(pipelines@),
    ensures
        match r {
            Ok(s) => {
                &&& save_fault(by_name(pipelines@), pipeline, previous(previous_name)) is None
                &&& distinct(s.pipelines@)
                &&& by_name(s.pipelines@) == saved(
                    by_name(pipelines@),
                    pipeline@,
                    previous(previous_name),
                    now@,
                )
                &&& match s.renamed {
                    Some(pair) => previous(previous_name) == Some(pair.0@) && pair.1@
                        == pipeline.name@ && pair.0@ != pair.1@,
                    None => previous(previous_name) is None || previous(previous_name) == Some(
                        pipeline.name@,
                    ),
                }
            },
            Err(m) => save_fault(by_name(pipelines@), pipeline, previous(previous_name)) == Some(
                m@,
            ),
        },
{
    match validate_pipeline(&pipeline) {
        Ok(_) => {},
        Err(m) => {
            return Err(m);
        },
    }
    let old_name = match previous_name {
        Some(n) => if blank(n.as_str()) {
            None
        } else {
            Some(n)
        },
        None => None,
    };
    let mut all = pipelines;
    let ghost stored = all@;
    let ghost map = by_name(stored);
    let mut created_at = now.to_owned();
    let mut renamed: Option<(String, String)> = None;
    match old_name {
        Some(o) => {
            match position(&all, o.as_str()) {
                Some(i) => {
                    if !same(o.as_str(), pipeline.name.as_str()) {
                        if position(&all, pipeline.name.as_str()).is_some() {
                            return Err(
                                joined3(
                                    "Pipeline '",
                                    pipeline.name.as_str(),
                                    "' already exists",
                                ),
                            );
                        }
                        renamed = Some((o.clone(), pipeline.name.clone()));
                    }
                    proof {
                        lemma_by_name_at(stored, i as int);
                        lemma_by_name_removed(stored, i as int);
                    }
                    let replaced = all.remove(i);
                    created_at = replaced.created_at;
                },
                None => {
                    return Err(joined3("Pipeline '", o.as_str(), "' not found"));
                },
            }
        },
        None => {
            if position(&all, pipeline.name.as_str()).is_some() {
                return Err(joined3("Pipeline '", pipeline.name.as_str(), "' already exists"));
            }
        },
    }
    let ghost kept = all@;
    assert(!by_name(kept).dom().contains(pipeline.name@));
    let ghost name = pipeline.name@;
    let stamped = Pipeline {
        name: pipeline.name,
        description: pipeline.description,
        steps: pipeline.steps,
        auto_run: pipeline.auto_run,
        created_at,
        updated_at: now.to_owned(),
    };
    all.push(stamped);
    proof {
        assert(all@.drop_last() =~= kept);
        assert forall|i: int, j: int| 0 <= i < j < all@.len() implies (#[trigger] all@[i]).name@
            != (#[trigger] all@[j]).name@ by {
            if j == kept.len() {
                lemma_by_name_dom(kept, name);
                assert(kept[i] == all@[i]);
            } else {
                assert(kept[i] == all@[i]);
                assert(kept[j] == all@[j]);
            }
        }
    }
    Ok(Saved { pipelines: all, renamed })
}

/// Creates or updates a definition now.
pub fn save_pipeline(
    pipelines: Vec<Pipeline>,
    pipeline: Pipeline,
    previous_name: Option<String>,
) -> (r: Result<Saved, String>)
    requires
        distinct(pipelines@),
    ensures
        match r {
            Ok(s) => {
                &&& save_fault(by_name(pipelines@), pipeline, previous(previous_name)) is None
                &&& distinct(s.pipelines@)
                &&& exists|now: Seq<char>|
                    is_stamp(now) && by_name(s.pipelines@) == #[trigger] saved(
                        by_name(pipelines@),
                        pipeline@,
                        previous(previous_name),
                        now,
                    )
                &&& match s.renamed {
                    Some(pair) => previous(previous_name) == Some(pair.0@) && pair.1@
                        == pipeline.name@ && pair.0@ != pair.1@,
                    None => previous(previous_name) is None || previous(previous_name) == Some(
                        pipeline.name@,
                    ),
                }
            },
            Err(m) => save_fault(by_name(pipelines@), pipeline, previous(previous_name)) == Some(
                m@,
            ),
        },
{
    let now = now_stamp();
    save_pipeline_at(pipelines, pipeline, previous_name, now.as_str())
}

/// Removes a definition.
pub fn delete_pipeline(pipelines: Vec<Pipeline>, name: &str) -> (r: Result<Vec<Pipeline>, String>)
    requires
        distinct(pipelines@),
    ensures
        match r {
            Ok(rest) => {
                &&& by_name(pipelines@).dom().contains(name@)
                &&& distinct(rest@)
                &&& by_name(rest@) == by_name(pipelines@).remove(name@)
            },
            Err(m) => !by_name(pipelines@).dom().contains(name@) && m@ == not_found(name@),
        },
{
    let mut all = pipelines;
    match position(&all, name) {
        Some(i) => {
            proof {
                lemma_by_name_removed(all@, i as int);
            }
            let _removed = all.remove(i);
            Ok(all)
        },
        None => Err(joined3("Pipeline '", name, "' not found")),
    }
}

/// By what the list of definitions is ordered.
pub open spec fn list_key() -> spec_fn(Pipeline) -> Seq<char> {
    |p: Pipeline| lowered(p.name@)
}

/// The definitions in the order of their names in lower case.
pub fn list_pipelines(pipelines: Vec<Pipeline>) -> (r: Vec<Pipeline>)
    ensures
        r@.to_multiset() == pipelines@.to_multiset(),
        sorted_by(r@, list_key(), false),
{
    let mut keys: Vec<Vec<char>> = Vec::new();
    let mut i: usize = 0;
    while i < pipelines.len()
        invariant
            i <= pipelines@.len(),
            keys@.len() == i,
            forall|k: int| 0 <= k < i ==> (#[trigger] keys@[k])@ == list_key()(pipelines@[k]),
        decreases pipelines@.len() - i,
    {
        keys.push(chars_of(lowercase(pipelines[i].name.as_str()).as_str()));
        i += 1;
    }
    sort_by_key(pipelines, keys, false, Ghost(list_key()))
}

/// A definition that is saved can be read back, and one that is saved and
/// deleted again leaves the others as they were.
pub proof fn law_save_then_delete(
    stored: Map<Seq<char>, PipelineParts>,
    pipeline: PipelineParts,
    now: Seq<char>,
)
    requires
        !stored.dom().contains(pipeline.name),
    ensures
        saved(stored, pipeline, None, now).dom().contains(pipeline.name),
        saved(stored, pipeline, None, now)[pipeline.name].steps == pipeline.steps,
        saved(stored, pipeline, None, now).remove(pipeline.name) == stored,
{
    assert(saved(stored, pipeline, None, now).remove(pipeline.name) =~= stored);
}

/// A rename keeps the time of creation and every other definition.
pub proof fn law_rename_keeps_the_rest(
    stored: Map<Seq<char>, PipelineParts>,
    pipeline: PipelineParts,
    old_name: Seq<char>,
    now: Seq<char>,
    other: Seq<char>,
)
    requires
        stored.dom().contains(old_name),
        other != old_name,
        other != pipeline.name,
    ensures
        saved(stored, pipeline, Some(old_name), now)[pipeline.name].created_at
            == stored[old_name].created_at,
        pipeline.name != old_name ==> !saved(
            stored,
            pipeline,
            Some(old_name),
            now,
        ).dom().contains(old_name),
        saved(stored, pipeline, Some(old_name), now).dom().contains(other) == stored.dom().contains(
            other,
        ),
        stored.dom().contains(other) ==> saved(stored, pipeline, Some(old_name), now)[other]
            == stored[other],
{
}

/// What is saved is what was given: under its name stand its steps, its description and
/// whether it is run by itself. A new definition is created now, an update keeps the time
/// of creation; both are updated now. No other definition is lost or changed, for a name
/// that is taken is not given again.
pub proof fn law_save_loses_nothing(
    stored: Map<Seq<char>, PipelineParts>,
    pipeline: Pipeline,
    old_name: Option<Seq<char>>,
    now: Seq<char>,
)
    requires
        save_fault(stored, pipeline, old_name) is None,
    ensures
        ({
            let name = pipeline.name@;
            let after = saved(stored, pipeline@, old_name, now);
            &&& after.dom().contains(name)
            &&& after[name].name == name
            &&& after[name].steps == pipeline@.steps
            &&& after[name].description == pipeline.description@
            &&& after[name].auto_run == pipeline.auto_run
            &&& after[name].updated_at == now
            &&& old_name is None ==> after[name].created_at == now && !stored.dom().contains(name)
            &&& old_name matches Some(o) ==> {
                &&& stored.dom().contains(o)
                &&& after[name].created_at == stored[o].created_at
                &&& o != name ==> !after.dom().contains(o) && !stored.dom().contains(name)
            }
            &&& forall|other: Seq<char>|
                other != name && old_name != Some(other) ==> {
                    &&& #[trigger] after.dom().contains(other) == stored.dom().contains(other)
                    &&& stored.dom().contains(other) ==> after[other] == stored[other]
                }
        }),
{
}

/// A definition without a fault of its own is refused only where its name is taken by
/// another one, or where the one that it replaces is gone.
pub proof fn law_save_is_refused(
    stored: Map<Seq<char>, PipelineParts>,
    pipeline: Pipeline,
    old_name: Option<Seq<char>>,
)
    requires
        pipeline_fault(pipeline) is None,
    ensures
        old_name is None ==> save_fault(stored, pipeline, old_name) == if stored.dom().contains(
            pipeline.name@,
        ) {
            Some("Pipeline '"@ + pipeline.name@ + "' already exists"@)
        } else {
            None
        },
        old_name matches Some(o) ==> {
            &&& !stored.dom().contains(o) ==> save_fault(stored, pipeline, old_name) == Some(
                "Pipeline '"@ + o + "' not found"@,
            )
            &&& stored.dom().contains(o) && o == pipeline.name@ ==> save_fault(
                stored,
                pipeline,
                old_name,
            ) is None
            &&& stored.dom().contains(o) && o != pipeline.name@ ==> save_fault(
                stored,
                pipeline,
                old_name,
            ) == if stored.dom().contains(pipeline.name@) {
                Some("Pipeline '"@ + pipeline.name@ + "' already exists"@)
            } else {
                None
            }
        },
{
}

/// The definitions are found under their own names, each with its own steps, description
/// and flags.
pub proof fn law_found_by_name(pipelines: Seq<Pipeline>, i: int)
    requires
        distinct(pipelines),
        0 <= i < pipelines.len(),
    ensures
        by_name(pipelines).dom().contains(pipelines[i].name@),
        by_name(pipelines)[pipelines[i].name@].name == pipelines[i].name@,
        by_name(pipelines)[pipelines[i].name@].description == pipelines[i].description@,
        by_name(pipelines)[pipelines[i].name@].auto_run == pipelines[i].auto_run,
        by_name(pipelines)[pipelines[i].name@].created_at == pipelines[i].created_at@,
        by_name(pipelines)[pipelines[i].name@].updated_at == pipelines[i].updated_at@,
        by_name(pipelines)[pipelines[i].name@].steps.len() == pipelines[i].steps@.len(),
        forall|k: int|
            0 <= k < pipelines[i].steps@.len() ==> {
                let s = #[trigger] pipelines[i].steps@[k];
                let found = by_name(pipelines)[pipelines[i].name@].steps[k];
                &&& found.0 == s.name@
                &&& found.1 == s.step_type
                &&& found.2 == s.template@
                &&& found.3 == s.config
                &&& found.4 == name_view(s.description)
            },
        forall|name: Seq<char>|
            #[trigger] by_name(pipelines).dom().contains(name) ==> exists|k: int|
                0 <= k < pipelines.len() && (#[trigger] pipelines[k]).name@ == name,
{
    lemma_by_name_at(pipelines, i);
    assert forall|name: Seq<char>| #[trigger]
        by_name(pipelines).dom().contains(name) implies exists|k: int|
        0 <= k < pipelines.len() && (#[trigger] pipelines[k]).name@ == name by {
        lemma_by_name_dom(pipelines, name);
    }
}

/// The list of definitions goes by their names in lower case.
pub proof fn law_list_goes_by_name(p: Pipeline)
    ensures
        list_key()(p) == lowered(p.name@),
{
}

/// How a definition describes itself that an old migration made out of a tag.
pub const LEGACY_TAG_PIPELINE_DESCRIPTION: &'static str = "Label (migrated from tag)";

/// A definition that an old migration made out of a tag.
pub open spec fn legacy_definition(pipeline: Pipeline) -> bool {
    &&& pipeline.description@ == LEGACY_TAG_PIPELINE_DESCRIPTION@
    &&& pipeline.steps@.len() == 0
    &&& !pipeline.auto_run
}

/// Whether an old migration made this definition out of a tag.
pub fn is_legacy_tag_definition(pipeline: &Pipeline) -> (r: bool)
    ensures
        r == legacy_definition(*pipeline),
{
    same(pipeline.description.as_str(), LEGACY_TAG_PIPELINE_DESCRIPTION) && pipeline.steps.len()
        == 0 && !pipeline.auto_run
}

/// A tag as the name of a pipeline.
pub open spec fn sanitized(tag: Seq<char>) -> Seq<char> {
    tag.map_values(|c: char| if unsafe_char(c) { '-' } else { c })
}

/// A tag as the name of a pipeline: characters that a file name cannot have
/// become dashes.
pub fn sanitize_legacy_tag_name(tag: &str) -> (r: String)
    ensures
        r@ == sanitized(tag@),
        file_safe(r@),
{
    let v = chars_of(tag);
    let mut out = String::new();
    let mut i: usize = 0;
    while i < v.len()
        invariant
            i <= v@.len(),
            v@ == tag@,
            out@ == sanitized(tag@).take(i as int),
        decreases v@.len() - i,
    {
        let c = v[i];
        if c == '/' || c == '\\' || c == '\0' || c == ':' {
            out.push('-');
        } else {
            out.push(c);
        }
        assert(sanitized(tag@).take(i as int + 1) =~= sanitized(tag@).take(i as int).push(
            sanitized(tag@)[i as int],
        ));
        i += 1;
    }
    assert(sanitized(tag@).take(i as int) =~= sanitized(tag@));
    out
}

/// A run that never ran: done at once, in its only run.
pub open spec fn synthetic(state: PipelineState) -> bool {
    &&& state.status == PipelineStatus::Done
    &&& state.run_index == 0
    &&& state.current_step is None
    &&& state.error is None
    &&& state.started_at is Some
    &&& name_view(state.started_at) == name_view(state.completed_at)
}

/// A run that an old migration made out of a tag.
pub open spec fn legacy_state(
    state: PipelineState,
    tags: Seq<Seq<char>>,
    valid: Seq<Seq<char>>,
    removed: Seq<Seq<char>>,
) -> bool {
    &&& synthetic(state)
    &&& tags.contains(state.name@)
    &&& (removed.contains(state.name@) || !valid.contains(state.name@))
}

/// Whether an old migration made this run out of a tag.
pub fn is_legacy_tag_state(
    state: &PipelineState,
    tag_names: &Vec<String>,
    valid_definitions: &Vec<String>,
    removed_legacy_definitions: &Vec<String>,
) -> (r: bool)
    ensures
        r == legacy_state(
            *state,
            views(tag_names@),
            views(valid_definitions@),
            views(removed_legacy_definitions@),
        ),
{
    let stamps_agree = match (&state.started_at, &state.completed_at) {
        (Some(a), Some(b)) => same(a.as_str(), b.as_str()),
        _ => false,
    };
    state.status == PipelineStatus::Done && state.run_index == 0 && state.current_step.is_none()
        && state.error.is_none() && stamps_agree && listed(tag_names, state.name.as_str()) && (
    listed(removed_legacy_definitions, state.name.as_str()) || !listed(
        valid_definitions,
        state.name.as_str(),
    ))
}

/// The runs that really ran.
pub open spec fn real_run(
    tags: Seq<Seq<char>>,
    valid: Seq<Seq<char>>,
    removed: Seq<Seq<char>>,
) -> spec_fn(PipelineState) -> bool {
    |s: PipelineState| !legacy_state(s, tags, valid, removed)
}

/// Drops the runs that an old migration made out of tags.
pub fn retain_real_runs(
    states: Vec<PipelineState>,
    tag_names: &Vec<String>,
    valid_definitions: &Vec<String>,
    removed_legacy_definitions: &Vec<String>,
) -> (r: Vec<PipelineState>)
    ensures
        r@ == filtered(
            states@,
            real_run(
                views(tag_names@),
                views(valid_definitions@),
                views(removed_legacy_definitions@),
            ),
            states@.len() as int,
        ),
{
    let ghost p = real_run(
        views(tag_names@),
        views(valid_definitions@),
        views(removed_legacy_definitions@),
    );
    let ghost all = states@;
    let mut rest = states;
    let mut out: Vec<PipelineState> = Vec::new();
    let n: usize = rest.len();
    let mut i: usize = 0;
    assert(all.skip(0) =~= all);
    while i < n
        invariant
            i <= n,
            n == all.len(),
            rest@ == all.skip(i as int),
            p == real_run(
                views(tag_names@),
                views(valid_definitions@),
                views(removed_legacy_definitions@),
            ),
            out@ == filtered(all, p, i as int),
        decreases n - i,
    {
        let s = rest.remove(0);
        assert(all.skip(i as int)[0] == all[i as int]);
        assert(all.skip(i as int).remove(0) =~= all.skip(i as int + 1));
        if !is_legacy_tag_state(&s, tag_names, valid_definitions, removed_legacy_definitions) {
            out.push(s);
        }
        i += 1;
    }
    out
}

/// Removing the runs made out of tags a second time removes nothing: the
/// migration can be repeated after a crash.
pub proof fn law_migration_repeats(
    states: Seq<PipelineState>,
    tags: Seq<Seq<char>>,
    valid: Seq<Seq<char>>,
    removed: Seq<Seq<char>>,
)
    ensures
        ({
            let p = real_run(tags, valid, removed);
            let once = filtered(states, p, states.len() as int);
            filtered(once, p, once.len() as int) == once
        }),
{
    let p = real_run(tags, valid, removed);
    let once = filtered(states, p, states.len() as int);
    lemma_filtered(states, p, states.len() as int);
    crate::seqs::lemma_filtered_all(once, p, once.len() as int);
}

/// The definitions made out of tags.
pub open spec fn made_of_tag() -> spec_fn(Pipeline) -> bool {
    |p: Pipeline| legacy_definition(p)
}

/// The definitions that users made.
pub open spec fn made_by_user() -> spec_fn(Pipeline) -> bool {
    |p: Pipeline| !legacy_definition(p)
}

/// The names of definitions.
pub open spec fn names_of(pipelines: Seq<Pipeline>) -> Seq<Seq<char>> {
    pipelines.map_values(|p: Pipeline| p.name@)
}

/// A run is dropped only if it never ran and belongs to a tag that is no definition of a
/// user: done in its only run, with one stamp for begin and end, no step and no error.
pub proof fn law_only_runs_of_tags_are_dropped(
    s: PipelineState,
    tags: Seq<Seq<char>>,
    valid: Seq<Seq<char>>,
    removed: Seq<Seq<char>>,
)
    ensures
        !real_run(tags, valid, removed)(s) <==> {
            &&& s.status == PipelineStatus::Done
            &&& s.run_index == 0
            &&& s.current_step is None
            &&& s.error is None
            &&& s.started_at is Some && s.completed_at is Some
            &&& s.started_at->0@ == s.completed_at->0@
            &&& tags.contains(s.name@)
            &&& removed.contains(s.name@) || !valid.contains(s.name@)
        },
{
}

/// A definition was made out of a tag exactly if it has no steps, is not run by itself and
/// describes itself as such; every other one is a user's.
pub proof fn law_definitions_of_tags(p: Pipeline)
    ensures
        made_of_tag()(p) == (p.description@ == "Label (migrated from tag)"@ && p.steps@.len() == 0
            && !p.auto_run),
        made_by_user()(p) == !made_of_tag()(p),
{
}

/// A tag becomes a name character by character: those that a file name cannot have become
/// dashes, the others stay.
pub proof fn law_sanitized(tag: Seq<char>)
    ensures
        sanitized(tag).len() == tag.len(),
        forall|i: int|
            0 <= i < tag.len() ==> #[trigger] sanitized(tag)[i] == if tag[i] == '/' || tag[i]
                == '\\' || tag[i] == '\0' || tag[i] == ':' {
                '-'
            } else {
                tag[i]
            },
{
}

/// The tags of a recording are its texts, in order; what is no text is left out.
pub proof fn law_tags_in_order(items: Seq<Json>, last: Json)
    ensures
        tags_of(Seq::<Json>::empty(), 0).len() == 0,
        tags_of(items.push(last), items.len() as int + 1) == match last {
            Json::Text(t) => tags_of(items, items.len() as int).push(sanitized(t@)),
            _ => tags_of(items, items.len() as int),
        },
{
    lemma_tags_same(items, items.push(last), items.len() as int);
}

proof fn lemma_tags_same(a: Seq<Json>, b: Seq<Json>, n: int)
    requires
        n <= a.len(),
        n <= b.len(),
        forall|i: int| 0 <= i < n ==> a[i] == b[i],
    ensures
        tags_of(a, n) == tags_of(b, n),
    decreases n,
{
    if n > 0 {
        lemma_tags_same(a, b, n - 1);
        assert(a[n - 1] == b[n - 1]);
    }
}

/// Parts the definitions that users made from the names of those made out of tags.
pub fn split_legacy_definitions(pipelines: Vec<Pipeline>) -> (r: (Vec<Pipeline>, Vec<String>))
    ensures
        r.0@ == filtered(pipelines@, made_by_user(), pipelines@.len() as int),
        views(r.1@) == names_of(filtered(pipelines@, made_of_tag(), pipelines@.len() as int)),
{
    let ghost all = pipelines@;
    let mut rest = pipelines;
    let mut users: Vec<Pipeline> = Vec::new();
    let mut legacy: Vec<String> = Vec::new();
    let n: usize = rest.len();
    let mut i: usize = 0;
    assert(all.skip(0) =~= all);
    assert(views(legacy@) =~= names_of(filtered(all, made_of_tag(), 0)));
    while i < n
        invariant
            i <= n,
            n == all.len(),
            rest@ == all.skip(i as int),
            users@ == filtered(all, made_by_user(), i as int),
            views(legacy@) == names_of(filtered(all, made_of_tag(), i as int)),
        decreases n - i,
    {
        let p = rest.remove(0);
        assert(all.skip(i as int)[0] == all[i as int]);
        assert(all.skip(i as int).remove(0) =~= all.skip(i as int + 1));
        if is_legacy_tag_definition(&p) {
            let ghost before = legacy@;
            legacy.push(p.name);
            assert(views(legacy@) =~= views(before).push(all[i as int].name@));
            assert(names_of(filtered(all, made_of_tag(), i as int + 1)) =~= names_of(
                filtered(all, made_of_tag(), i as int),
            ).push(all[i as int].name@));
        } else {
            users.push(p);
        }
        i += 1;
    }
    (users, legacy)
}

/// The tags among the first `n` elements, as names of pipelines.
pub open spec fn tags_of(items: Seq<Json>, n: int) -> Seq<Seq<char>>
    decreases n,
{
    if n <= 0 {
        Seq::empty()
    } else {
        match items[n - 1].text() {
            Some(t) => tags_of(items, n - 1).push(sanitized(t)),
            None => tags_of(items, n - 1),
        }
    }
}

/// The tags in the metadata of a recording, as names of pipelines.
pub open spec fn tag_names_in(metadata: Json) -> Seq<Seq<char>> {
    match metadata.member("tags"@) {
        Some(Json::List(items)) => tags_of(items@, items@.len() as int),
        _ => Seq::empty(),
    }
}

fn collect_tags(items: &Vec<Json>) -> (r: Vec<String>)
    ensures
        views(r@) == tags_of(items@, items@.len() as int),
{
    let mut out: Vec<String> = Vec::new();
    assert(views(out@) =~= Seq::empty());
    let mut i: usize = 0;
    while i < items.len()
        invariant
            i <= items@.len(),
            views(out@) == tags_of(items@, i as int),
        decreases items@.len() - i,
    {
        match items[i].as_text() {
            Some(t) => {
                let ghost before = out@;
                out.push(sanitize_legacy_tag_name(t.as_str()));
                assert(views(out@) =~= views(before).push(sanitized(t@)));
            },
            None => {},
        }
        i += 1;
    }
    out
}

/// The tags in the metadata of a recording, as names of pipelines, and whether
/// the metadata holds tags at all.
pub fn legacy_tags(metadata: &Json) -> (r: (bool, Vec<String>))
    ensures
        r.0 == (metadata.member("tags"@) is Some),
        views(r.1@) == tag_names_in(*metadata),
{
    let none: Vec<String> = Vec::new();
    assert(views(none@) =~= Seq::empty());
    match metadata.get("tags") {
        Some(Json::List(items)) => (true, collect_tags(items)),
        Some(_) => (true, none),
        None => (false, none),
    }
}

/// The tags in the text of the metadata of a recording, as names of pipelines, and whether
/// the metadata holds tags at all. `None` where the text is no JSON.
pub fn legacy_tags_in(raw: &str) -> (r: Option<(bool, Vec<String>)>)
    ensures
        r is Some == json_result(raw@) is Ok,
        match r {
            Some(found) => {
                &&& found.0 == (json_result(raw@)->Ok_0.member("tags"@) is Some)
                &&& views(found.1@) == tag_names_in(json_result(raw@)->Ok_0)
            },
            None => true,
        },
{
    match parse(raw) {
        Ok(metadata) => Some(legacy_tags(&metadata)),
        Err(_) => None,
    }
}

/// What the migration of stored pipelines did.
#[derive(Clone, Copy, Debug, PartialEq, Eq, Structural)]
pub struct PipelineStorageMigrationStats {
    pub definitions_removed: u64,
    pub recording_states_removed: u64,
    pub recordings_rewritten: u64,
    pub settings_references_cleared: u64,
    pub malformed_recordings_skipped: u64,
}

impl PipelineStorageMigrationStats {
    /// Nothing done yet.
    pub fn new() -> (r: Self)
        ensures
            r == (PipelineStorageMigrationStats {
                definitions_removed: 0,
                recording_states_removed: 0,
                recordings_rewritten: 0,
                settings_references_cleared: 0,
                malformed_recordings_skipped: 0,
            }),
    {
        PipelineStorageMigrationStats {
            definitions_removed: 0,
            recording_states_removed: 0,
            recordings_rewritten: 0,
            settings_references_cleared: 0,
            malformed_recordings_skipped: 0,
        }
    }

    /// A recording whose metadata could not be read.
    pub fn skip_malformed(&mut self)
        requires
            old(self).malformed_recordings_skipped < u64::MAX,
        ensures
            *final(self) == (PipelineStorageMigrationStats {
                malformed_recordings_skipped: (old(self).malformed_recordings_skipped + 1) as u64,
                ..*old(self)
            }),
    {
        self.malformed_recordings_skipped += 1;
    }

    /// A recording that had `before` runs and keeps `after` of them. Says
    /// whether its metadata is to be written back.
    pub fn recording(&mut self, before: usize, after: usize, had_tags: bool) -> (rewrite: bool)
        requires
            after <= before,
            old(self).recording_states_removed + (before - after) <= u64::MAX,
            old(self).recordings_rewritten < u64::MAX,
        ensures
            rewrite == (after < before || had_tags),
            rewrite ==> *final(self) == (PipelineStorageMigrationStats {
                recording_states_removed: (old(self).recording_states_removed + (before
                    - after)) as u64,
                recordings_rewritten: (old(self).recordings_rewritten + 1) as u64,
                ..*old(self)
            }),
            !rewrite ==> *final(self) == *old(self),
    {
        let removed: usize = before - after;
        if removed > 0 || had_tags {
            self.recording_states_removed += removed as u64;
            self.recordings_rewritten += 1;
            true
        } else {
            false
        }
    }
}

/// The version of the stored data that this library writes.
pub const CURRENT_DATA_SCHEMA_VERSION: u32 = 1;

/// Whether data of that version is still to be migrated.
pub fn storage_migration_needed(data_schema_version: u32) -> (r: bool)
    ensures
        r == (data_schema_version < CURRENT_DATA_SCHEMA_VERSION),
{
    data_schema_version < CURRENT_DATA_SCHEMA_VERSION
}

/// What becomes of the file of the pipelines when it moves to the directory of the
/// configuration.
#[derive(Clone, Copy, Debug, PartialEq, Eq, Structural)]
pub enum PipelinesMove {
    /// It is there: see that nobody else can read it.
    Protect,
    /// There is nothing to move.
    Nothing,
    /// Move it there.
    Move,
}

/// Decides what becomes of the file of the pipelines. What is there is never overwritten.
pub fn pipelines_move(new_exists: bool, old_exists: bool) -> (r: PipelinesMove)
    ensures
        r == if new_exists {
            PipelinesMove::Protect
        } else if old_exists {
            PipelinesMove::Move
        } else {
            PipelinesMove::Nothing
        },
{
    if new_exists {
        PipelinesMove::Protect
    } else if old_exists {
        PipelinesMove::Move
    } else {
        PipelinesMove::Nothing
    }
}

/// The three kinds of step are named by their words, and no other word names one. A stored
/// step is read by its newer field, by the older one only where that is absent.
pub proof fn law_step_kinds(word: Seq<char>, step: Json)
    ensures
        step_type_of("cli_agent"@) == Some(StepType::CliAgent),
        step_type_of("shell"@) == Some(StepType::Shell),
        step_type_of("save_local"@) == Some(StepType::SaveLocal),
        step_type_of(word) is Some ==> word == "cli_agent"@ || word == "shell"@ || word
            == "save_local"@,
        variant_of(word) is Ok <==> step_type_of(word) is Some,
        step.member("step_type"@) is None && step.member_text("connection_type"@) == Some(word)
            ==> type_word(step) == Some(word),
        step.member_text("step_type"@) == Some(word) ==> type_word(step) == Some(word),
{
    reveal_strlit("cli_agent");
    reveal_strlit("shell");
    reveal_strlit("save_local");
    assert("cli_agent"@.len() == 9 && "shell"@.len() == 5 && "save_local"@.len() == 10);
}

} // verus!
