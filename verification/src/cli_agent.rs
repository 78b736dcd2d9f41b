//! Command line agents that process text.

use crate::artifacts::{
    artifact, entries_of, escape, escape_line, escaped, field_in, law_artifact_body,
    law_artifact_reads_back, lemma_keys, lemma_quoted, lemma_trimmed_line, one_line, one_line_each, plain_key, quoted,
    well_formed, write_artifact, write_entry, write_quoted,
};
use crate::config::StepType;
use crate::frontmatter::{body, strip_frontmatter};
use crate::json::Json;
use crate::paths::{path_join, under};
use crate::pipeline_engine::{handed_on, reported};
use crate::pipelines::{name_view, str_view};
use crate::seqs::first_index;
use crate::text::{
    after_prefix, blank, decimal, decimal_of, decode, decoded, holds, join, joined, joined3,
    joined_by, occurs, replace_all, replaced, same, strip_prefix, stripped, trim, trimmed, views,
};
use crate::time::now_stamp;
use vstd::prelude::*;

verus! {

/// A command line agent, and how it is called so that it answers a prompt and exits.
#[derive(Debug)]
pub struct SupportedCli {
    /// What it is called on the command line.
    pub id: String,
    pub name: String,
    /// How to install it.
    pub install_hint: String,
    /// The arguments in front of the prompt.
    pub lead: Vec<String>,
    /// The argument in front of the model.
    pub model_flag: String,
}

/// The agent of this description.
pub open spec fn is_cli(
    c: SupportedCli,
    id: Seq<char>,
    name: Seq<char>,
    install_hint: Seq<char>,
    lead: Seq<Seq<char>>,
) -> bool {
    c.id@ == id && c.name@ == name && c.install_hint@ == install_hint && views(c.lead@) == lead
        && c.model_flag@ == "-m"@
}

/// The agents that are known from the start. The configuration may add more.
pub fn bundled_clis() -> (r: Vec<SupportedCli>)
    ensures
        r@.len() == 3,
        is_cli(
            r@[0],
            "codex"@,
            "Codex CLI"@,
            "npm install -g @openai/codex"@,
            seq!["exec"@, "--skip-git-repo-check"@],
        ),
        is_cli(r@[1], "opencode"@, "OpenCode"@, "npm install -g opencode-ai"@, seq!["run"@]),
        is_cli(
            r@[2],
            "agy"@,
            "Antigravity (Google)"@,
            "curl -fsSL https://antigravity.google/cli/install.sh | bash"@,
            seq!["-p"@],
        ),
{
    let mut exec: Vec<String> = Vec::new();
    exec.push("exec".to_owned());
    exec.push("--skip-git-repo-check".to_owned());
    assert(views(exec@) =~= seq!["exec"@, "--skip-git-repo-check"@]);
    let mut run: Vec<String> = Vec::new();
    run.push("run".to_owned());
    assert(views(run@) =~= seq!["run"@]);
    let mut print: Vec<String> = Vec::new();
    print.push("-p".to_owned());
    assert(views(print@) =~= seq!["-p"@]);
    let mut out: Vec<SupportedCli> = Vec::new();
    out.push(
        SupportedCli {
            id: "codex".to_owned(),
            name: "Codex CLI".to_owned(),
            install_hint: "npm install -g @openai/codex".to_owned(),
            lead: exec,
            model_flag: "-m".to_owned(),
        },
    );
    out.push(
        SupportedCli {
            id: "opencode".to_owned(),
            name: "OpenCode".to_owned(),
            install_hint: "npm install -g opencode-ai".to_owned(),
            lead: run,
            model_flag: "-m".to_owned(),
        },
    );
    out.push(
        SupportedCli {
            id: "agy".to_owned(),
            name: "Antigravity (Google)".to_owned(),
            install_hint: "curl -fsSL https://antigravity.google/cli/install.sh | bash".to_owned(),
            lead: print,
            model_flag: "-m".to_owned(),
        },
    );
    out
}

/// What is known about an agent.
#[derive(Debug)]
pub struct CliInfo {
    pub id: String,
    pub name: String,
    pub installed: bool,
    pub install_hint: String,
}

/// Lists the agents, given which of them are installed.
pub fn check_cli_availability(clis: &Vec<SupportedCli>, installed: &Vec<bool>) -> (r: Vec<CliInfo>)
    requires
        installed@.len() == clis@.len(),
    ensures
        r@.len() == clis@.len(),
        forall|i: int|
            0 <= i < r@.len() ==> {
                &&& (#[trigger] r@[i]).id@ == clis@[i].id@
                &&& r@[i].name@ == clis@[i].name@
                &&& r@[i].install_hint@ == clis@[i].install_hint@
                &&& r@[i].installed == installed@[i]
            },
{
    let mut out: Vec<CliInfo> = Vec::new();
    let mut i: usize = 0;
    while i < clis.len()
        invariant
            i <= clis@.len(),
            installed@.len() == clis@.len(),
            out@.len() == i,
            forall|k: int|
                0 <= k < i ==> {
                    &&& (#[trigger] out@[k]).id@ == clis@[k].id@
                    &&& out@[k].name@ == clis@[k].name@
                    &&& out@[k].install_hint@ == clis@[k].install_hint@
                    &&& out@[k].installed == installed@[k]
                },
        decreases clis@.len() - i,
    {
        out.push(
            CliInfo {
                id: clis[i].id.clone(),
                name: clis[i].name.clone(),
                installed: installed[i],
                install_hint: clis[i].install_hint.clone(),
            },
        );
        i += 1;
    }
    out
}

/// The agents that are called `id`.
pub open spec fn called(id: Seq<char>) -> spec_fn(SupportedCli) -> bool {
    |c: SupportedCli| c.id@ == id
}

/// Where the agent called `id` stands in the list.
pub open spec fn cli_at(clis: Seq<SupportedCli>, id: Seq<char>) -> Option<int> {
    first_index(clis, called(id), 0)
}

fn cli_index(clis: &Vec<SupportedCli>, id: &str) -> (r: Option<usize>)
    ensures
        match r {
            Some(i) => i < clis@.len() && cli_at(clis@, id@) == Some(i as int),
            None => cli_at(clis@, id@) is None,
        },
{
    let mut i: usize = 0;
    while i < clis.len()
        invariant
            i <= clis@.len(),
            first_index(clis@, called(id@), 0) == first_index(clis@, called(id@), i as int),
        decreases clis@.len() - i,
    {
        if same(clis[i].id.as_str(), id) {
            return Some(i);
        }
        i += 1;
    }
    None
}

/// The names of the agents, each in quotes.
pub open spec fn quoted_ids(clis: Seq<SupportedCli>) -> Seq<Seq<char>> {
    clis.map_values(|c: SupportedCli| quoted(c.id@))
}

fn show_ids(clis: &Vec<SupportedCli>) -> (r: Vec<String>)
    ensures
        views(r@) == quoted_ids(clis@),
{
    let mut out: Vec<String> = Vec::new();
    let mut i: usize = 0;
    while i < clis.len()
        invariant
            i <= clis@.len(),
            out@.len() == i,
            forall|k: int| 0 <= k < i ==> (#[trigger] out@[k])@ == quoted(clis@[k].id@),
        decreases clis@.len() - i,
    {
        out.push(joined3("\"", clis[i].id.as_str(), "\""));
        i += 1;
    }
    assert(views(out@) =~= quoted_ids(clis@));
    out
}

/// The message about an agent that is not supported.
pub open spec fn unsupported(clis: Seq<SupportedCli>, cli: Seq<char>) -> Seq<char> {
    "CLI agent 'cli' must be one of ["@ + joined_by(quoted_ids(clis), ", "@) + "], got '"@ + cli
        + "'"@
}

/// The message about an agent that is not installed.
pub open spec fn not_installed(cli: Seq<char>, hint: Seq<char>) -> Seq<char> {
    "CLI '"@ + cli + "' is not installed or not in PATH. Install: "@ + hint
}

/// The text under `key`, unless it is blank.
pub open spec fn filled(config: Json, key: Seq<char>) -> Option<Seq<char>> {
    match config.member_text(key) {
        Some(s) if trimmed(s).len() > 0 => Some(s),
        _ => None,
    }
}

fn read_filled(config: &Json, key: &str) -> (r: Option<String>)
    ensures
        name_view(r) == filled(*config, key@),
{
    match config.get_text(key) {
        Some(s) => if blank(s.as_str()) {
            None
        } else {
            Some(s.clone())
        },
        None => None,
    }
}

/// The configuration says that the prompt is complete.
pub open spec fn says_complete(config: Json) -> bool {
    config.member("prompt_complete"@) == Some(Json::Bool(true))
}

/// Says whether the prompt is complete, so that the input file is not read.
pub fn prompt_is_complete(config: &Json) -> (r: bool)
    ensures
        r == says_complete(*config),
{
    match config.get("prompt_complete") {
        Some(Json::Bool(b)) => *b,
        _ => false,
    }
}

/// The place of the agent that a step asks for.
pub fn agent_cli(config: &Json, clis: &Vec<SupportedCli>) -> (r: Result<usize, String>)
    ensures
        match config.member_text("cli"@) {
            None => r is Err && r->Err_0@ == "CLI agent config missing 'cli'"@,
            Some(cli) => match cli_at(clis@, cli) {
                Some(i) => r is Ok && r->Ok_0 == i && i < clis@.len(),
                None => r is Err && r->Err_0@ == unsupported(clis@, cli),
            },
        },
{
    match config.get_text("cli") {
        None => Err("CLI agent config missing 'cli'".to_owned()),
        Some(cli) => match cli_index(clis, cli.as_str()) {
            Some(i) => Ok(i),
            None => {
                let ids = join(&show_ids(clis), ", ");
                let first = joined3("CLI agent 'cli' must be one of [", ids.as_str(), "], got '");
                Err(joined3(first.as_str(), cli.as_str(), "'"))
            },
        },
    }
}

/// The whole prompt. One that is complete is used as it is; else the text takes the
/// place of `{transcript}`, or follows the prompt where there is no such place.
pub open spec fn full_prompt(prompt: Seq<char>, content: Seq<char>, prompt_complete: bool) -> Seq<
    char,
> {
    if prompt_complete {
        prompt
    } else if occurs(prompt, "{transcript}"@) {
        replaced(prompt, "{transcript}"@, content)
    } else {
        prompt + "\n\n"@ + content
    }
}

/// The whole prompt.
pub fn compose_full_prompt(prompt: &str, content: &str, prompt_complete: bool) -> (r: String)
    ensures
        r@ == full_prompt(prompt@, content@, prompt_complete),
{
    proof {
        reveal_strlit("{transcript}");
    }
    if prompt_complete {
        prompt.to_owned()
    } else if holds(prompt, "{transcript}") {
        replace_all(prompt, "{transcript}", content)
    } else {
        joined3(prompt, "\n\n", content)
    }
}

/// `path` with a leading `~` standing for the home directory.
pub open spec fn expanded(path: Seq<char>, home: Seq<char>) -> Seq<char> {
    match after_prefix(path, "~/"@) {
        Some(rest) => under(home, rest),
        None => if path == "~"@ {
            home
        } else {
            path
        },
    }
}

/// `path` with a leading `~` standing for the home directory.
pub fn expand_tilde(path: &str, home: &str) -> (r: String)
    ensures
        r@ == expanded(path@, home@),
{
    match strip_prefix(path, "~/") {
        Some(rest) => path_join(home, rest.as_str()),
        None => if same(path, "~") {
            home.to_owned()
        } else {
            path.to_owned()
        },
    }
}

/// The arguments that make an agent answer a prompt and exit.
pub open spec fn cli_arguments(
    cli: SupportedCli,
    prompt: Seq<char>,
    model: Option<Seq<char>>,
) -> Seq<Seq<char>> {
    views(cli.lead@).push(prompt) + match model {
        Some(m) => seq![cli.model_flag@, m],
        None => Seq::empty(),
    }
}

/// The arguments that make an agent answer a prompt and exit.
pub fn build_cli_command(cli: &SupportedCli, prompt: &str, model: Option<&str>) -> (r: Vec<String>)
    ensures
        views(r@) == cli_arguments(*cli, prompt@, str_view(model)),
{
    let mut args: Vec<String> = Vec::new();
    let mut i: usize = 0;
    while i < cli.lead.len()
        invariant
            i <= cli.lead@.len(),
            args@.len() == i,
            forall|k: int| 0 <= k < i ==> (#[trigger] args@[k])@ == cli.lead@[k]@,
        decreases cli.lead@.len() - i,
    {
        args.push(cli.lead[i].clone());
        i += 1;
    }
    args.push(prompt.to_owned());
    match model {
        Some(m) => {
            args.push(cli.model_flag.clone());
            args.push(m.to_owned());
        },
        None => {},
    }
    assert(views(args@) =~= cli_arguments(*cli, prompt@, str_view(model)));
    args
}

/// A call of an agent that is about to be made.
#[derive(Debug)]
pub struct CliCall {
    pub cli: String,
    pub args: Vec<String>,
    pub working_directory: String,
    pub timeout_secs: u64,
}

/// The home directory, or the current one where it is not known.
pub open spec fn home_or_here(home: Option<&str>) -> Seq<char> {
    match home {
        Some(h) => h@,
        None => "."@,
    }
}

/// Prepares the call of an agent. `raw_content` is the input file; it
/// counts only where the prompt is not complete.
pub fn prepare_call(
    config: &Json,
    cli: &SupportedCli,
    installed: bool,
    home: Option<&str>,
    raw_content: Result<&str, &str>,
) -> (r: Result<CliCall, String>)
    ensures
        ({
            let prompt = filled(*config, "prompt"@);
            if !installed {
                r is Err && r->Err_0@ == not_installed(cli.id@, cli.install_hint@)
            } else if prompt is None {
                r is Err && r->Err_0@ == "CLI agent config missing 'prompt'"@
            } else if !says_complete(*config) && raw_content is Err {
                r is Err && r->Err_0@ == "Failed to read input file: "@ + raw_content->Err_0@
            } else {
                let content = match raw_content {
                    Ok(raw) => body(raw@),
                    Err(_) => ""@,
                };
                &&& r is Ok
                &&& r->Ok_0.cli@ == cli.id@
                &&& views(r->Ok_0.args@) == cli_arguments(
                    *cli,
                    full_prompt(prompt->0, content, says_complete(*config)),
                    filled(*config, "model"@),
                )
                &&& r->Ok_0.timeout_secs == match config.member_u64("timeout_secs"@) {
                    Some(n) => n,
                    None => 3600,
                }
                &&& r->Ok_0.working_directory@ == match filled(*config, "working_directory"@) {
                    Some(p) => expanded(p, home_or_here(home)),
                    None => home_or_here(home),
                }
            }
        }),
{
    if !installed {
        let first = joined3(
            "CLI '",
            cli.id.as_str(),
            "' is not installed or not in PATH. Install: ",
        );
        return Err(joined(first.as_str(), cli.install_hint.as_str()));
    }
    let prompt = match read_filled(config, "prompt") {
        Some(p) => p,
        None => {
            return Err("CLI agent config missing 'prompt'".to_owned());
        },
    };
    let timeout_secs: u64 = match config.get_u64("timeout_secs") {
        Some(n) => n,
        None => 3600,
    };
    let model = read_filled(config, "model");
    let here = match home {
        Some(h) => h,
        None => ".",
    };
    let working_directory = match read_filled(config, "working_directory") {
        Some(p) => expand_tilde(p.as_str(), here),
        None => here.to_owned(),
    };
    let complete = prompt_is_complete(config);
    let text = if complete {
        compose_full_prompt(prompt.as_str(), "", true)
    } else {
        match raw_content {
            Ok(raw) => {
                let content = strip_frontmatter(raw);
                compose_full_prompt(prompt.as_str(), content.as_str(), false)
            },
            Err(e) => {
                return Err(joined("Failed to read input file: ", e));
            },
        }
    };
    let args = match &model {
        Some(m) => build_cli_command(cli, text.as_str(), Some(m.as_str())),
        None => build_cli_command(cli, text.as_str(), None),
    };
    Ok(CliCall { cli: cli.id.clone(), args, working_directory, timeout_secs })
}

/// The message about an agent that could not be started.
pub fn spawn_error(cli: &str, error: &str) -> (r: String)
    ensures
        r@ == "Failed to spawn '"@ + cli@ + "': "@ + error@
            + " (is it installed and in PATH?)"@,
{
    let first = joined3("Failed to spawn '", cli, "': ");
    joined3(first.as_str(), error, " (is it installed and in PATH?)")
}

/// How the call of an agent went.
#[derive(Debug)]
pub enum CallOutcome {
    /// It could not be waited for.
    IoError(String),
    /// It took too long, and was ended.
    TimedOut { pid: Option<u32> },
    /// It ended by itself.
    Exited { success: bool, code: Option<i32>, stdout: String, stderr: String },
}

impl CallOutcome {
    /// It ended by itself, having written these bytes.
    pub fn exited(success: bool, code: Option<i32>, stdout: &Vec<u8>, stderr: &Vec<u8>) -> (r: Self)
        ensures
            match r {
                CallOutcome::Exited { success: s, code: c, stdout: out, stderr: err } => {
                    &&& s == success
                    &&& c == code
                    &&& out@ == decoded(stdout@)
                    &&& err@ == decoded(stderr@)
                },
                _ => false,
            },
    {
        CallOutcome::Exited { success, code, stdout: decode(stdout), stderr: decode(stderr) }
    }
}

/// A number that may be absent.
pub open spec fn shown_number(n: Option<int>) -> Seq<char> {
    match n {
        Some(k) => if k < 0 {
            "Some(-"@ + decimal_of((-k) as nat) + ")"@
        } else {
            "Some("@ + decimal_of(k as nat) + ")"@
        },
        None => "None"@,
    }
}

fn show_number(n: Option<i64>) -> (r: String)
    requires
        n is Some ==> n->0 > i64::MIN,
    ensures
        r@ == shown_number(
            match n {
                Some(k) => Some(k as int),
                None => None,
            },
        ),
{
    match n {
        Some(k) => if k < 0 {
            joined3("Some(-", decimal((-k) as u64).as_str(), ")")
        } else {
            joined3("Some(", decimal(k as u64).as_str(), ")")
        },
        None => "None".to_owned(),
    }
}

/// What an agent that failed said: its errors, else its output, else its exit code.
pub open spec fn failure_details(
    code: Option<i32>,
    stdout: Seq<char>,
    stderr: Seq<char>,
) -> Seq<char> {
    if stderr.len() > 0 {
        stderr
    } else if stdout.len() > 0 {
        stdout
    } else {
        "exit code: "@ + shown_number(
            match code {
                Some(c) => Some(c as int),
                None => None,
            },
        )
    }
}

/// The output of the agent, or the error.
pub open spec fn call_result(cli: Seq<char>, timeout_secs: u64, outcome: CallOutcome) -> Result<
    Seq<char>,
    Seq<char>,
> {
    match outcome {
        CallOutcome::IoError(e) => Err("Process I/O error: "@ + e@),
        CallOutcome::TimedOut { pid } => Err(
            "CLI agent timed out after "@ + decimal_of(timeout_secs as nat) + "s (pid: "@
                + shown_number(
                match pid {
                    Some(p) => Some(p as int),
                    None => None,
                },
            ) + ")"@,
        ),
        CallOutcome::Exited { success, code, stdout, stderr } => if success {
            Ok(stdout@)
        } else {
            Err(
                "CLI agent '"@ + cli + "' failed: "@ + trimmed(
                    failure_details(code, stdout@, stderr@),
                ),
            )
        },
    }
}

/// A result in mathematical terms.
pub open spec fn result_view(r: Result<String, String>) -> Result<Seq<char>, Seq<char>> {
    match r {
        Ok(s) => Ok(s@),
        Err(e) => Err(e@),
    }
}

/// Reads how the call of an agent went.
pub fn read_outcome(cli: &str, timeout_secs: u64, outcome: CallOutcome) -> (r: Result<String, String>)
    ensures
        result_view(r) == call_result(cli@, timeout_secs, outcome),
{
    match outcome {
        CallOutcome::IoError(e) => Err(joined("Process I/O error: ", e.as_str())),
        CallOutcome::TimedOut { pid } => {
            let shown = show_number(
                match pid {
                    Some(p) => Some(p as i64),
                    None => None,
                },
            );
            let first = joined3(
                "CLI agent timed out after ",
                decimal(timeout_secs).as_str(),
                "s (pid: ",
            );
            Err(joined3(first.as_str(), shown.as_str(), ")"))
        },
        CallOutcome::Exited { success, code, stdout, stderr } => {
            if success {
                return Ok(stdout);
            }
            let details = if !stderr.as_str().is_empty() {
                stderr
            } else if !stdout.as_str().is_empty() {
                stdout
            } else {
                let shown = show_number(
                    match code {
                        Some(c) => Some(c as i64),
                        None => None,
                    },
                );
                joined("exit code: ", shown.as_str())
            };
            let first = joined3("CLI agent '", cli, "' failed: ");
            Err(joined(first.as_str(), trim(details.as_str()).as_str()))
        },
    }
}

/// What belongs to a step and stands in its artifact.
#[derive(Debug)]
pub struct StepLabels<'a> {
    pub step_name: &'a str,
    pub step_input: &'a str,
    pub step_description: Option<&'a str>,
}

/// The metadata of the artifact of an agent.
pub open spec fn agent_fields(
    labels: StepLabels<'_>,
    status: Seq<char>,
    created_at: Seq<char>,
    completed_at: Seq<char>,
    error: Seq<char>,
    cli: Seq<char>,
) -> Seq<(Seq<char>, Seq<char>)> {
    seq![
        ("name"@, labels.step_name@),
        (
            "description"@,
            quoted(
                escaped(
                    match labels.step_description {
                        Some(d) => d@,
                        None => ""@,
                    },
                ),
            ),
        ),
        ("connector"@, "cli_agent"@),
        ("input"@, labels.step_input@),
        ("status"@, status),
        ("created_at"@, created_at),
        ("completed_at"@, completed_at),
        ("error"@, error),
        ("cli"@, cli),
    ]
}

/// The artifact of an agent, from what came of its call.
pub open spec fn agent_artifact(
    labels: StepLabels<'_>,
    cli: Seq<char>,
    created_at: Seq<char>,
    completed_at: Seq<char>,
    result: Result<Seq<char>, Seq<char>>,
) -> Seq<char> {
    match result {
        Ok(output) => artifact(
            entries_of(
                agent_fields(labels, "done"@, created_at, completed_at, "null"@, cli),
            ),
            trimmed(output) + "\n"@,
        ),
        Err(error) => artifact(
            entries_of(
                agent_fields(
                    labels,
                    "failed"@,
                    created_at,
                    completed_at,
                    quoted(one_line(error)),
                    cli,
                ),
            ),
            "## Error\n"@ + error + "\n"@,
        ),
    }
}

fn write_head(
    labels: &StepLabels<'_>,
    status: &str,
    created_at: &str,
    completed_at: &str,
    error: &str,
    cli: &str,
) -> (r: Vec<String>)
    ensures
        views(r@) == entries_of(
            agent_fields(*labels, status@, created_at@, completed_at@, error@, cli@),
        ),
{
    let description = match labels.step_description {
        Some(d) => escape(d),
        None => escape(""),
    };
    let mut head: Vec<String> = Vec::new();
    head.push(write_entry("name", labels.step_name));
    head.push(write_quoted("description", description.as_str()));
    head.push(write_entry("connector", "cli_agent"));
    head.push(write_entry("input", labels.step_input));
    head.push(write_entry("status", status));
    head.push(write_entry("created_at", created_at));
    head.push(write_entry("completed_at", completed_at));
    head.push(write_entry("error", error));
    head.push(write_entry("cli", cli));
    assert(views(head@) =~= entries_of(
        agent_fields(*labels, status@, created_at@, completed_at@, error@, cli@),
    ));
    head
}

/// What a call of an agent leaves behind.
#[derive(Debug)]
pub struct CallReport {
    /// The document to write.
    pub artifact: String,
    /// The error that the step failed with.
    pub error: Option<String>,
}

/// Reports on a call that started at `created_at` and ended at `completed_at`.
pub fn report_call_at(
    labels: &StepLabels<'_>,
    call: &CliCall,
    outcome: CallOutcome,
    created_at: &str,
    completed_at: &str,
) -> (r: CallReport)
    ensures
        ({
            let result = call_result(call.cli@, call.timeout_secs, outcome);
            &&& r.artifact@ == agent_artifact(
                *labels,
                call.cli@,
                created_at@,
                completed_at@,
                result,
            )
            &&& name_view(r.error) == match result {
                Ok(_) => None,
                Err(e) => Some(e),
            }
        }),
{
    match read_outcome(call.cli.as_str(), call.timeout_secs, outcome) {
        Ok(output) => {
            let head = write_head(
                labels,
                "done",
                created_at,
                completed_at,
                "null",
                call.cli.as_str(),
            );
            let text = joined(trim(output.as_str()).as_str(), "\n");
            CallReport { artifact: write_artifact(&head, text.as_str()), error: None }
        },
        Err(error) => {
            let shown = joined3("\"", escape_line(error.as_str()).as_str(), "\"");
            let head = write_head(
                labels,
                "failed",
                created_at,
                completed_at,
                shown.as_str(),
                call.cli.as_str(),
            );
            let text = joined3("## Error\n", error.as_str(), "\n");
            CallReport { artifact: write_artifact(&head, text.as_str()), error: Some(error) }
        },
    }
}

/// Reports on a call that started at `created_at` and has just ended.
pub fn report_call(
    labels: &StepLabels<'_>,
    call: &CliCall,
    outcome: CallOutcome,
    created_at: &str,
) -> (r: CallReport)
    ensures
        ({
            let result = call_result(call.cli@, call.timeout_secs, outcome);
            &&& exists|completed_at: Seq<char>|
                r.artifact@ == #[trigger] agent_artifact(
                    *labels,
                    call.cli@,
                    created_at@,
                    completed_at,
                    result,
                )
            &&& name_view(r.error) == match result {
                Ok(_) => None,
                Err(e) => Some(e),
            }
        }),
{
    let completed_at = now_stamp();
    report_call_at(labels, call, outcome, created_at, completed_at.as_str())
}

/// The metadata of the artifact of an agent, for what came of its call.
pub open spec fn outcome_fields(
    labels: StepLabels<'_>,
    cli: Seq<char>,
    created_at: Seq<char>,
    completed_at: Seq<char>,
    result: Result<Seq<char>, Seq<char>>,
) -> Seq<(Seq<char>, Seq<char>)> {
    match result {
        Ok(_) => agent_fields(labels, "done"@, created_at, completed_at, "null"@, cli),
        Err(e) => agent_fields(
            labels,
            "failed"@,
            created_at,
            completed_at,
            quoted(one_line(e)),
            cli,
        ),
    }
}

/// What an agent leaves behind reads back: done, with its output, or failed, with its
/// error. What goes into the metadata stands on one line, without `---`.
pub proof fn law_agent_reads_back(
    labels: StepLabels<'_>,
    cli: Seq<char>,
    created_at: Seq<char>,
    completed_at: Seq<char>,
    result: Result<Seq<char>, Seq<char>>,
)
    requires
        one_line_each(outcome_fields(labels, cli, created_at, completed_at, result)),
    ensures
        ({
            let report = reported(
                agent_artifact(labels, cli, created_at, completed_at, result),
            );
            match result {
                Ok(output) => {
                    &&& report.status == "done"@
                    &&& report.error is None
                    &&& report.output == if trimmed(output).len() == 0 {
                        None
                    } else {
                        Some(trimmed(output))
                    }
                },
                Err(e) => {
                    &&& report.status == "failed"@
                    &&& report.error == Some(stripped(quoted(one_line(e)), "\""@))
                },
            }
        }),
{
    let fields = outcome_fields(labels, cli, created_at, completed_at, result);
    lemma_keys();
    assert(fields.len() == 9);
    assert(well_formed(fields)) by {
        assert forall|i: int| 0 <= i < 9 implies plain_key((#[trigger] fields[i]).0) by {}
    }
    assert(field_in(fields, "status"@, 9) == Some(fields[4].1)) by {
        reveal_with_fuel(field_in, 6);
    }
    assert(field_in(fields, "error"@, 9) == Some(fields[7].1)) by {
        reveal_with_fuel(field_in, 3);
    }
    assert(trimmed("done"@) =~= "done"@) by {
        reveal_strlit("done");
    }
    assert(trimmed("failed"@) =~= "failed"@) by {
        reveal_strlit("failed");
    }
    assert(trimmed("null"@) =~= "null"@) by {
        reveal_strlit("null");
    }
    match result {
        Ok(output) => {
            lemma_trimmed_line(output);
            law_artifact_reads_back(fields, trimmed(output) + "\n"@);
        },
        Err(e) => {
            lemma_quoted(one_line(e));
            law_artifact_reads_back(fields, "## Error\n"@ + e + "\n"@);
        },
    }
}

/// The step behind an agent that succeeded gets what the agent wrote to its standard
/// output, without the white space around it. What goes into the metadata stands on one
/// line, without `---`.
pub proof fn law_next_step_gets_the_output(
    labels: StepLabels<'_>,
    cli: Seq<char>,
    timeout_secs: u64,
    created_at: Seq<char>,
    completed_at: Seq<char>,
    input: Seq<char>,
    code: Option<i32>,
    stdout: String,
    stderr: String,
)
    requires
        one_line_each(outcome_fields(labels, cli, created_at, completed_at, Ok(stdout@))),
    ensures
        ({
            let outcome = CallOutcome::Exited { success: true, code, stdout, stderr };
            handed_on(
                StepType::CliAgent,
                input,
                Some(
                    agent_artifact(
                        labels,
                        cli,
                        created_at,
                        completed_at,
                        call_result(cli, timeout_secs, outcome),
                    ),
                ),
            ) == trimmed(stdout@)
        }),
{
    let fields = outcome_fields(labels, cli, created_at, completed_at, Ok(stdout@));
    law_artifact_body(fields, trimmed(stdout@) + "\n"@);
    lemma_trimmed_line(stdout@);
}

/// A prompt that is complete reaches the agent as it is, whatever the input file holds.
pub proof fn law_complete_prompt_is_verbatim(prompt: Seq<char>, content: Seq<char>)
    ensures
        full_prompt(prompt, content, true) == prompt,
{
}

/// A prompt that is not complete gets the text: in place of the placeholder, wherever it
/// stands, else behind the prompt, an empty line between them.
pub proof fn law_prompt_gets_the_text(prompt: Seq<char>, rest: Seq<char>, content: Seq<char>)
    ensures
        !occurs(prompt, "{transcript}"@) ==> full_prompt(prompt, content, false) == prompt + seq![
            '\n',
            '\n',
        ] + content,
        !prompt.contains('{') ==> full_prompt(prompt + "{transcript}"@ + rest, content, false)
            == prompt + content + replaced(rest, "{transcript}"@, content),
{
    reveal_strlit("\n\n");
    assert("\n\n"@ =~= seq!['\n', '\n']);
    if !prompt.contains('{') {
        crate::prompt_templates::law_transcript_in_prompt(prompt, rest, content);
        let all = prompt + "{transcript}"@ + rest;
        let n = prompt.len() as int;
        assert(all.subrange(n, n + "{transcript}"@.len()) =~= "{transcript}"@);
        assert(crate::text::occurs_at(all, "{transcript}"@, n));
    }
}

/// A tilde at the front of a path is the home directory, alone or with a path behind it;
/// any other path stays as it is.
pub proof fn law_tilde_is_home(rest: Seq<char>, path: Seq<char>, home: Seq<char>)
    ensures
        expanded(seq!['~'], home) == home,
        expanded(seq!['~', '/'] + rest, home) == under(home, rest),
        path.len() == 0 || path[0] != '~' || (path.len() > 1 && path[1] != '/') ==> expanded(
            path,
            home,
        ) == path,
{
    reveal_strlit("~/");
    reveal_strlit("~");
    assert("~/"@ =~= seq!['~', '/']);
    assert("~"@ =~= seq!['~']);
    crate::text::law_after_prefix("~/"@, rest, path);
    if crate::text::starts(path, "~/"@) {
        assert(path.subrange(0, 2)[0] == path[0]);
        assert(path.subrange(0, 2)[1] == path[1]);
    }
}

/// An agent is called with its own arguments, then the prompt; a model comes last, behind
/// the flag for it.
pub proof fn law_prompt_is_an_argument(
    cli: SupportedCli,
    prompt: Seq<char>,
    model: Option<Seq<char>>,
)
    ensures
        ({
            let args = cli_arguments(cli, prompt, model);
            let n = cli.lead@.len() as int;
            &&& forall|i: int| 0 <= i < n ==> #[trigger] args[i] == cli.lead@[i]@
            &&& args[n] == prompt
            &&& model is None ==> args.len() == n + 1
            &&& model matches Some(m) ==> args.len() == n + 3 && args[n + 1] == cli.model_flag@
                && args[n + 2] == m
        }),
{
}

/// A call that succeeds gives what the agent wrote to its standard output; one that fails
/// says why: what it wrote as errors, else what it wrote at all, else its exit code.
pub proof fn law_call_comes_to(
    cli: Seq<char>,
    timeout_secs: u64,
    code: i32,
    stdout: String,
    stderr: String,
)
    ensures
        call_result(
            cli,
            timeout_secs,
            CallOutcome::Exited { success: true, code: Some(code), stdout, stderr },
        ) == Ok::<Seq<char>, Seq<char>>(stdout@),
        ({
            let failed = call_result(
                cli,
                timeout_secs,
                CallOutcome::Exited { success: false, code: Some(code), stdout, stderr },
            );
            let said = |t: Seq<char>|
                Err::<Seq<char>, Seq<char>>("CLI agent '"@ + cli + "' failed: "@ + trimmed(t));
            &&& stderr@.len() > 0 ==> failed == said(stderr@)
            &&& stderr@.len() == 0 && stdout@.len() > 0 ==> failed == said(stdout@)
            &&& stderr@.len() == 0 && stdout@.len() == 0 && code >= 0 ==> failed == said(
                "exit code: "@ + ("Some("@ + decimal_of(code as nat) + ")"@),
            )
        }),
{
}

/// A setting counts only if it is a text with more than white space in it.
pub proof fn law_blank_settings_are_none(config: Json, key: Seq<char>)
    ensures
        config.member_text(key) matches Some(s) ==> filled(config, key) == if crate::text::all_space(
            s,
        ) {
            None
        } else {
            Some(s)
        },
        config.member_text(key) is None ==> filled(config, key) is None,
{
    match config.member_text(key) {
        Some(s) => {
            crate::text::law_blank(s);
        },
        None => {},
    }
}

/// How long a call took reads back from its artifact, and so does an error on one line.
/// What goes into the metadata stands on one line, without `---`.
pub proof fn law_duration_and_error_read_back(
    labels: StepLabels<'_>,
    cli: Seq<char>,
    created_at: Seq<char>,
    completed_at: Seq<char>,
    result: Result<Seq<char>, Seq<char>>,
)
    requires
        one_line_each(outcome_fields(labels, cli, created_at, completed_at, result)),
        plain_stamp(created_at),
        plain_stamp(completed_at),
    ensures
        ({
            let report = reported(agent_artifact(labels, cli, created_at, completed_at, result));
            &&& report.duration_ms == crate::time::millis_between(created_at, completed_at)
            &&& result matches Err(e) ==> (e.len() > 0 && !e.contains('"') && !e.contains('\n')
                ==> report.error == Some(e))
        }),
{
    let fields = outcome_fields(labels, cli, created_at, completed_at, result);
    law_agent_reads_back(labels, cli, created_at, completed_at, result);
    lemma_keys();
    assert(well_formed(fields)) by {
        assert forall|i: int| 0 <= i < 9 implies plain_key((#[trigger] fields[i]).0) by {}
    }
    assert(field_in(fields, "created_at"@, 9) == Some(created_at)) by {
        reveal_with_fuel(field_in, 5);
    }
    assert(field_in(fields, "completed_at"@, 9) == Some(completed_at)) by {
        reveal_with_fuel(field_in, 4);
    }
    lemma_plain_stamp(created_at);
    lemma_plain_stamp(completed_at);
    match result {
        Ok(output) => {
            law_artifact_reads_back(fields, trimmed(output) + "\n"@);
        },
        Err(e) => {
            law_artifact_reads_back(fields, "## Error\n"@ + e + "\n"@);
            if e.len() > 0 && !e.contains('"') && !e.contains('\n') {
                lemma_plain_error(e);
            }
        },
    }
}

/// A stamp as programs write it: no white space and no quotes around it.
pub open spec fn plain_stamp(t: Seq<char>) -> bool {
    t.len() > 0 && crate::text::tight(t) && t[0] != '"' && t.last() != '"' && t != "null"@
}

proof fn lemma_plain_stamp(t: Seq<char>)
    requires
        plain_stamp(t),
    ensures
        crate::artifacts::shown_stamp(Some(t)) == Some(t),
{
    reveal_strlit("\"");
    assert("\""@ =~= seq!['"']);
    let none = Seq::<char>::empty();
    crate::text::law_trimmed_around(none, t, none);
    assert(none + t + none =~= t);
    crate::text::law_stripped_around(none, t, none, "\""@);
}

proof fn lemma_plain_error(e: Seq<char>)
    requires
        e.len() > 0,
        !e.contains('"'),
        !e.contains('\n'),
    ensures
        stripped(quoted(one_line(e)), "\""@) == e,
{
    reveal_strlit("\"");
    reveal_strlit("\n");
    let q = "\""@;
    assert(q =~= seq!['"']);
    lemma_one_absent(e, q);
    lemma_one_absent(e, "\n"@);
    crate::text::lemma_replaced_absent(e, q, "\\\""@);
    crate::text::lemma_replaced_absent(e, "\n"@, " "@);
    assert(e.contains(e[0]) && e.contains(e.last()));
    crate::text::law_stripped_around(q, e, q, q);
}

proof fn lemma_one_absent(e: Seq<char>, pat: Seq<char>)
    requires
        pat.len() == 1,
        !e.contains(pat[0]),
    ensures
        !occurs(e, pat),
{
    if occurs(e, pat) {
        let i = choose|i: int| crate::text::occurs_at(e, pat, i);
        assert(e.subrange(i, i + 1)[0] == e[i]);
        assert(e.contains(e[i]));
    }
}

/// An agent that failed is quoted by its errors, else by its output, else by its exit code.
pub proof fn law_failure_details(code: i32, stdout: Seq<char>, stderr: Seq<char>)
    ensures
        stderr.len() > 0 ==> failure_details(Some(code), stdout, stderr) == stderr,
        stderr.len() == 0 && stdout.len() > 0 ==> failure_details(Some(code), stdout, stderr)
            == stdout,
        stderr.len() == 0 && stdout.len() == 0 && code >= 0 ==> failure_details(
            Some(code),
            stdout,
            stderr,
        ) == "exit code: "@ + ("Some("@ + decimal_of(code as nat) + ")"@),
        stderr.len() == 0 && stdout.len() == 0 ==> failure_details(None, stdout, stderr)
            == "exit code: "@ + "None"@,
{
}

/// The agent that is asked for is the first one of that name; no other is taken for it.
pub proof fn law_agent_by_name(clis: Seq<SupportedCli>, id: Seq<char>, i: int)
    ensures
        0 <= i < clis.len() && clis[i].id@ == id && (forall|j: int|
            0 <= j < i ==> (#[trigger] clis[j]).id@ != id) ==> cli_at(clis, id) == Some(i),
        (forall|j: int| 0 <= j < clis.len() ==> (#[trigger] clis[j]).id@ != id) ==> cli_at(
            clis,
            id,
        ) is None,
{
    let p = called(id);
    crate::seqs::law_first_index(clis, p, 0);
    if 0 <= i < clis.len() && clis[i].id@ == id && (forall|j: int|
        0 <= j < i ==> (#[trigger] clis[j]).id@ != id) {
        assert(p(clis[i]));
        assert forall|j: int| 0 <= j < i implies !p(#[trigger] clis[j]) by {}
    }
    if forall|j: int| 0 <= j < clis.len() ==> (#[trigger] clis[j]).id@ != id {
        assert forall|j: int| 0 <= j < clis.len() implies !p(#[trigger] clis[j]) by {}
    }
}

} // verus!
