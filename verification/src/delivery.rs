//! What becomes of a dictation: transcribed, processed, pasted.

use crate::config::{DictationInputSource, StepType, TranscriptionProvider};
use crate::dictation::{status, DictationStatus, TARGET_RATE};
use crate::json::{
    entry_of, field_of, is_record, json_bytes_result, parse_bytes, record, Fields, Json,
};
use crate::pipelines::{name_view, Pipeline, PipelineStep};
use crate::records::{no_record, not_a_record, read_text, required_text};
use crate::storage::{create_recording, just_begun, AudioInfo, RecordingMetadata};
use crate::text::{
    all_space, blank, decode, decoded, holds, joined, joined3, law_blank, occurs, take, taken, trim,
    trimmed, views,
};
use crate::time::{is_clock, is_stamp, local_clock};
use crate::transcript_migration::TranscriptSource;
use vstd::prelude::*;

verus! {

/// The status says this of the shortcut `id`.
pub open spec fn tells(
    s: DictationStatus,
    state: Seq<char>,
    id: Seq<char>,
    message: Option<Seq<char>>,
) -> bool {
    s.state@ == state && name_view(s.shortcut_id) == Some(id) && name_view(s.message) == message
}

fn tell(state: &str, id: &str, message: Option<&str>) -> (r: DictationStatus)
    ensures
        tells(r, state@, id@, crate::pipelines::str_view(message)),
{
    status(state, Some(id), message)
}

/// What follows once the recording has stopped.
#[derive(Clone, Copy, Debug, PartialEq, Eq, Structural)]
pub enum AfterStop {
    /// It was cancelled, or a newer dictation has begun.
    Cancelled,
    /// The text has come in all along.
    FinishStream,
    /// Nothing was recorded.
    NoAudio,
    /// Convert the sound and transcribe it.
    Transcribe,
}

/// Decides what follows once the recording has stopped.
pub fn after_stop(current: bool, streaming: bool, samples: usize) -> (r: AfterStop)
    ensures
        r == if !current {
            AfterStop::Cancelled
        } else if streaming {
            AfterStop::FinishStream
        } else if samples == 0 {
            AfterStop::NoAudio
        } else {
            AfterStop::Transcribe
        },
{
    if !current {
        AfterStop::Cancelled
    } else if streaming {
        AfterStop::FinishStream
    } else if samples == 0 {
        AfterStop::NoAudio
    } else {
        AfterStop::Transcribe
    }
}

/// What is told once the recording has stopped.
pub fn stop_status(after: AfterStop, id: &str) -> (r: DictationStatus)
    ensures
        match after {
            AfterStop::Cancelled => tells(r, "idle"@, id@, Some("Cancelled"@)),
            AfterStop::FinishStream => tells(
                r,
                "transcribing"@,
                id@,
                Some("Finalizing live transcript"@),
            ),
            AfterStop::NoAudio => tells(r, "idle"@, id@, Some("No audio captured"@)),
            AfterStop::Transcribe => tells(r, "transcribing"@, id@, None),
        },
{
    match after {
        AfterStop::Cancelled => tell("idle", id, Some("Cancelled")),
        AfterStop::FinishStream => tell("transcribing", id, Some("Finalizing live transcript")),
        AfterStop::NoAudio => tell("idle", id, Some("No audio captured")),
        AfterStop::Transcribe => tell("transcribing", id, None),
    }
}

/// What was said.
#[derive(Debug)]
pub enum Heard {
    Text(String),
    /// Nothing was said.
    Nothing(DictationStatus),
    /// It could not be told.
    Failed { status: DictationStatus, error: String },
}

/// A fatal error: what is told, and what the caller gets.
pub fn finish_with_error(id: &str, summary: &str, error: String) -> (r: (DictationStatus, String))
    ensures
        tells(r.0, "error"@, id@, Some(summary@ + ": "@ + error@)),
        r.1 == error,
{
    let message = joined3(summary, ": ", error.as_str());
    (tell("error", id, Some(message.as_str())), error)
}

/// Reads a transcript.
pub fn heard(id: &str, transcript: Result<String, String>) -> (r: Heard)
    ensures
        match transcript {
            Ok(t) => if trimmed(t@).len() == 0 {
                r is Nothing && tells(
                    r->Nothing_0,
                    "idle"@,
                    id@,
                    Some("No speech detected"@),
                )
            } else {
                r is Text && r->Text_0@ == trimmed(t@)
            },
            Err(e) => {
                &&& r is Failed
                &&& tells(r->status, "error"@, id@, Some("Transcription failed: "@ + e@))
                &&& r->error == e
            },
        },
{
    match transcript {
        Ok(t) => {
            let text = trim(t.as_str());
            if text.as_str().is_empty() {
                Heard::Nothing(tell("idle", id, Some("No speech detected")))
            } else {
                Heard::Text(text)
            }
        },
        Err(error) => {
            let message = joined("Transcription failed: ", error.as_str());
            Heard::Failed { status: tell("error", id, Some(message.as_str())), error }
        },
    }
}

/// Reads the clipboard.
pub fn read_from_clipboard(id: &str, clipboard: Result<String, String>) -> (r: Heard)
    ensures
        match clipboard {
            Ok(t) => if trimmed(t@).len() == 0 {
                r is Nothing && tells(
                    r->Nothing_0,
                    "idle"@,
                    id@,
                    Some("Clipboard is empty"@),
                )
            } else {
                r is Text && r->Text_0@ == trimmed(t@)
            },
            Err(e) => {
                &&& r is Failed
                &&& tells(r->status, "error"@, id@, Some("Clipboard read failed: "@ + e@))
                &&& r->error == e
            },
        },
{
    match clipboard {
        Ok(t) => {
            let text = trim(t.as_str());
            if text.as_str().is_empty() {
                Heard::Nothing(tell("idle", id, Some("Clipboard is empty")))
            } else {
                Heard::Text(text)
            }
        },
        Err(error) => {
            let message = joined("Clipboard read failed: ", error.as_str());
            Heard::Failed { status: tell("error", id, Some(message.as_str())), error }
        },
    }
}

/// Which program transcribes.
#[derive(Clone, Copy, Debug, PartialEq, Eq, Structural)]
pub enum Engine {
    AppleSpeech,
    FluidAudio,
}

/// The program that transcribes. What is not known is left to FluidAudio.
pub fn engine(provider: TranscriptionProvider) -> (r: Engine)
    ensures
        r == match provider {
            TranscriptionProvider::AppleSpeech => Engine::AppleSpeech,
            _ => Engine::FluidAudio,
        },
{
    match provider {
        TranscriptionProvider::AppleSpeech => Engine::AppleSpeech,
        _ => Engine::FluidAudio,
    }
}

/// The arguments for Apple's program: the file, and the language where one is set.
pub fn apple_arguments(wav_path: &str, language: &str) -> (r: Vec<String>)
    ensures
        views(r@) == if language@.len() == 0 {
            seq![wav_path@]
        } else {
            seq![wav_path@, "--lang"@, language@]
        },
{
    let mut args: Vec<String> = Vec::new();
    args.push(wav_path.to_owned());
    if !language.is_empty() {
        args.push("--lang".to_owned());
        args.push(language.to_owned());
        assert(views(args@) =~= seq![wav_path@, "--lang"@, language@]);
    } else {
        assert(language@.len() == 0);
        assert(views(args@) =~= seq![wav_path@]);
    }
    args
}

/// The arguments for FluidAudio's program. A dictation has one speaker.
pub fn fluidaudio_arguments(wav_path: &str, engine_args: Vec<String>) -> (r: Vec<String>)
    ensures
        views(r@) == seq![wav_path@, "--no-diarize"@] + views(engine_args@),
{
    let mut args: Vec<String> = Vec::new();
    args.push(wav_path.to_owned());
    args.push("--no-diarize".to_owned());
    let mut more = engine_args;
    args.append(&mut more);
    assert(views(args@) =~= seq![wav_path@, "--no-diarize"@] + views(engine_args@));
    args
}

/// The text in what a program that transcribes wrote. It names its model too.
pub open spec fn spoken_in(value: Result<Json, Seq<char>>) -> Result<Seq<char>, Seq<char>> {
    match value {
        Err(e) => Err(e),
        Ok(v) => if !is_record(v, 2, 2) {
            Err(no_record(v, "struct FluidOut"@))
        } else {
            match required_text(field_of(v, 0, "text"@), "text"@) {
                Err(m) => Err(m),
                Ok(text) => match required_text(field_of(v, 1, "model"@), "model"@) {
                    Err(m) => Err(m),
                    Ok(_) => Ok(text),
                },
            }
        },
    }
}

/// The text in the answer `v` of a program that transcribes.
pub fn read_spoken(v: Json) -> (r: Result<String, String>)
    ensures
        match r {
            Ok(t) => spoken_in(Ok(v)) == Ok::<Seq<char>, Seq<char>>(t@),
            Err(e) => spoken_in(Ok(v)) == Err::<Seq<char>, Seq<char>>(e@),
        },
{
    proof {
        reveal_strlit("text");
        reveal_strlit("model");
        assert("text"@.len() == 4 && "model"@.len() == 5);
    }
    if !record(&v, 2, 2) {
        return Err(not_a_record(&v, "struct FluidOut"));
    }
    let mut fields = Fields::of(v);
    let text = match read_text(fields.take("text"), "text") {
        Ok(t) => t,
        Err(m) => {
            return Err(m);
        },
    };
    match read_text(fields.take("model"), "model") {
        Ok(_) => Ok(text),
        Err(m) => Err(m),
    }
}

/// A result in mathematical terms.
pub open spec fn text_or_reason(r: Result<String, String>) -> Result<Seq<char>, Seq<char>> {
    match r {
        Ok(t) => Ok(t@),
        Err(e) => Err(e@),
    }
}

/// What the answer of a program that transcribes comes to. One that fails because
/// nobody spoke gives no text.
pub open spec fn reply_of(
    engine: Engine,
    succeeded: bool,
    parsed: Result<Seq<char>, Seq<char>>,
    stderr: Seq<char>,
) -> Result<Seq<char>, Seq<char>> {
    if succeeded {
        match parsed {
            Ok(t) => Ok(t),
            Err(e) => Err(
                match engine {
                    Engine::AppleSpeech => "parse Apple Speech output: "@ + e,
                    Engine::FluidAudio => "parse FluidAudio output: "@ + e,
                },
            ),
        }
    } else {
        match engine {
            Engine::FluidAudio => if occurs(stderr, "No speech detected"@) {
                Ok(Seq::empty())
            } else {
                Err("FluidAudio sidecar failed: "@ + stderr)
            },
            Engine::AppleSpeech => Err("Apple Speech sidecar failed: "@ + stderr),
        }
    }
}

/// What the program that transcribes answered. `parsed` is the text in its output, or why
/// there is none to be read.
pub fn engine_answer(
    engine: Engine,
    exit_code: Option<i32>,
    stderr: &str,
    parsed: Result<String, String>,
) -> (r: Result<String, String>)
    ensures
        match r {
            Ok(t) => reply_of(engine, exit_code == Some(0i32), text_or_reason(parsed), stderr@)
                == Ok::<Seq<char>, Seq<char>>(t@),
            Err(e) => reply_of(engine, exit_code == Some(0i32), text_or_reason(parsed), stderr@)
                == Err::<Seq<char>, Seq<char>>(e@),
        },
{
    let ok = match exit_code {
        Some(c) => c == 0,
        None => false,
    };
    if !ok {
        return match engine {
            Engine::FluidAudio => if holds(stderr, "No speech detected") {
                Ok(String::new())
            } else {
                Err(joined("FluidAudio sidecar failed: ", stderr))
            },
            Engine::AppleSpeech => Err(joined("Apple Speech sidecar failed: ", stderr)),
        };
    }
    match parsed {
        Ok(t) => Ok(t),
        Err(e) => Err(
            match engine {
                Engine::AppleSpeech => joined("parse Apple Speech output: ", e.as_str()),
                Engine::FluidAudio => joined("parse FluidAudio output: ", e.as_str()),
            },
        ),
    }
}

/// The text in what a program that transcribes wrote, unless that is refused.
pub open spec fn spoken_on(stdout: Seq<u8>, refusal: Option<Seq<char>>) -> Result<
    Seq<char>,
    Seq<char>,
> {
    match refusal {
        Some(m) => Err(m),
        None => spoken_in(json_bytes_result(stdout)),
    }
}

/// What the program that transcribes answered, out of what it wrote. `refusal` is what a
/// reader of typed answers has against it: it alone sees that a field stands twice, and
/// where a fault lies.
pub fn engine_reply(
    engine: Engine,
    exit_code: Option<i32>,
    stdout: &Vec<u8>,
    refusal: Option<String>,
    stderr: &Vec<u8>,
) -> (r: Result<String, String>)
    ensures
        match r {
            Ok(t) => reply_of(
                engine,
                exit_code == Some(0i32),
                spoken_on(stdout@, name_view(refusal)),
                decoded(stderr@),
            ) == Ok::<Seq<char>, Seq<char>>(t@),
            Err(e) => reply_of(
                engine,
                exit_code == Some(0i32),
                spoken_on(stdout@, name_view(refusal)),
                decoded(stderr@),
            ) == Err::<Seq<char>, Seq<char>>(e@),
        },
{
    let parsed = match refusal {
        Some(m) => Err(m),
        None => match parse_bytes(stdout) {
            Ok(v) => read_spoken(v),
            Err(e) => Err(e),
        },
    };
    engine_answer(engine, exit_code, decode(stderr).as_str(), parsed)
}

/// Says whether a dictation is kept as a recording: where the settings ask for it, and
/// there is sound.
pub fn should_save(
    samples: Option<usize>,
    source: DictationInputSource,
    save_dictations: bool,
) -> (r: bool)
    ensures
        r == (samples is Some && samples->0 > 0 && source == DictationInputSource::Audio
            && save_dictations),
{
    match samples {
        Some(n) => n > 0 && source == DictationInputSource::Audio && save_dictations,
        None => false,
    }
}

/// The text to deliver, and what is told. Where the pipeline failed, it is the text that
/// was dictated.
pub fn after_pipeline(
    id: &str,
    input_text: &str,
    pipeline: Option<Result<String, String>>,
) -> (r: (String, Option<DictationStatus>))
    ensures
        match pipeline {
            Some(Ok(text)) => r.0 == text && r.1 is None,
            Some(Err(e)) => r.0@ == input_text@ && r.1 is Some && tells(
                r.1->0,
                "pipeline_error"@,
                id@,
                Some("Pipeline failed, pasted raw: "@ + e@),
            ),
            None => r.0@ == input_text@ && r.1 is None,
        },
{
    match pipeline {
        Some(Ok(text)) => (text, None),
        Some(Err(e)) => {
            let message = joined("Pipeline failed, pasted raw: ", e.as_str());
            (input_text.to_owned(), Some(tell("pipeline_error", id, Some(message.as_str()))))
        },
        None => (input_text.to_owned(), None),
    }
}

/// How the text is delivered.
#[derive(Debug)]
pub enum DeliveryStep {
    /// Not at all.
    Stop(DictationStatus),
    /// Into the window in front.
    Paste(String),
    /// To the clipboard.
    Copy(String),
}

/// Decides how the text is delivered. A dictation that was cancelled, or overtaken by a
/// newer one, is not.
pub fn delivery_step(id: &str, text: &str, current: bool, auto_paste: bool) -> (r: DeliveryStep)
    ensures
        if trimmed(text@).len() == 0 {
            r is Stop && tells(r->Stop_0, "idle"@, id@, Some("Empty output"@))
        } else if !current {
            r is Stop && tells(r->Stop_0, "idle"@, id@, Some("Cancelled"@))
        } else if auto_paste {
            r is Paste && r->Paste_0@ == trimmed(text@)
        } else {
            r is Copy && r->Copy_0@ == trimmed(text@)
        },
{
    let out = trim(text);
    if out.as_str().is_empty() {
        DeliveryStep::Stop(tell("idle", id, Some("Empty output")))
    } else if !current {
        DeliveryStep::Stop(tell("idle", id, Some("Cancelled")))
    } else if auto_paste {
        DeliveryStep::Paste(out)
    } else {
        DeliveryStep::Copy(out)
    }
}

/// What came of pasting.
#[derive(Debug)]
pub enum PasteOutcome {
    Pasted,
    /// It was cancelled, or overtaken, before the keystroke.
    Cancelled,
    /// The keystroke is not allowed; the text is on the clipboard.
    AccessibilityDenied,
    Failed(String),
}

/// What comes of pasting: whether the text reached the clipboard, whether the keystroke is
/// allowed, and whether the dictation is still the live one right before it.
pub fn paste_outcome(copied: Result<(), String>, trusted: bool, current: bool) -> (r: PasteOutcome)
    ensures
        match copied {
            Err(e) => r is Failed && r->Failed_0 == e,
            Ok(_) => if !trusted {
                r is AccessibilityDenied
            } else if !current {
                r is Cancelled
            } else {
                r is Pasted
            },
        },
        r is Pasted ==> current && trusted,
{
    match copied {
        Err(e) => PasteOutcome::Failed(e),
        Ok(_) => if !trusted {
            PasteOutcome::AccessibilityDenied
        } else if !current {
            PasteOutcome::Cancelled
        } else {
            PasteOutcome::Pasted
        },
    }
}

/// What is told after pasting, and the text that was delivered.
pub fn after_paste(id: &str, text: String, outcome: PasteOutcome) -> (r: (
    DictationStatus,
    Result<String, String>,
))
    ensures
        match outcome {
            PasteOutcome::Pasted => tells(r.0, "idle"@, id@, None) && r.1 == Ok::<String, String>(
                text,
            ),
            PasteOutcome::Cancelled => tells(r.0, "idle"@, id@, Some("Cancelled"@)) && r.1 is Ok
                && r.1->Ok_0@.len() == 0,
            PasteOutcome::AccessibilityDenied => tells(r.0, "accessibility_needed"@, id@, None)
                && r.1 == Ok::<String, String>(text),
            PasteOutcome::Failed(e) => tells(r.0, "error"@, id@, Some("Paste failed: "@ + e@))
                && r.1 is Err && r.1->Err_0@ == "Paste failed: "@ + e@,
        },
{
    match outcome {
        PasteOutcome::Pasted => (tell("idle", id, None), Ok(text)),
        PasteOutcome::Cancelled => (tell("idle", id, Some("Cancelled")), Ok(String::new())),
        PasteOutcome::AccessibilityDenied => (tell("accessibility_needed", id, None), Ok(text)),
        PasteOutcome::Failed(e) => {
            let message = joined("Paste failed: ", e.as_str());
            (tell("error", id, Some(message.as_str())), Err(message))
        },
    }
}

/// A pipeline at work on a dictation.
#[derive(Debug)]
pub struct TextRun {
    /// What the last step gave.
    pub chained: String,
    /// What is pasted in the end.
    pub paste: String,
    /// Steps that are over.
    pub done: usize,
}

/// What a step came to, in mathematical terms.
pub type StepResult = Result<Seq<char>, Seq<char>>;

/// A step changes the text: a program does, saving does not.
pub open spec fn transforms(step_type: StepType) -> bool {
    step_type == StepType::CliAgent || step_type == StepType::Shell
}

/// The error that a step ends the run with.
pub open spec fn step_fault(name: Seq<char>, error: Seq<char>) -> Seq<char> {
    "step '"@ + name + "': "@ + error
}

/// What is chained and what is pasted after the first `n` steps, or the error. A step that
/// saves may fail; a program that gives nothing leaves what is pasted alone.
pub open spec fn text_after(
    text: Seq<char>,
    steps: Seq<PipelineStep>,
    results: Seq<StepResult>,
    n: int,
) -> Result<(Seq<char>, Seq<char>), Seq<char>>
    decreases n,
{
    if n <= 0 {
        Ok((Seq::empty(), text))
    } else {
        match text_after(text, steps, results, n - 1) {
            Err(e) => Err(e),
            Ok(before) => step_text(before, steps[n - 1], results[n - 1]),
        }
    }
}

/// What is chained and what is pasted after a step.
pub open spec fn step_text(
    before: (Seq<char>, Seq<char>),
    step: PipelineStep,
    result: StepResult,
) -> Result<(Seq<char>, Seq<char>), Seq<char>> {
    match result {
        Ok(body) => Ok(
            (
                body,
                if transforms(step.step_type) && trimmed(body).len() > 0 {
                    body
                } else {
                    before.1
                },
            ),
        ),
        Err(e) => if step.step_type == StepType::SaveLocal {
            Ok(before)
        } else {
            Err(step_fault(step.name@, e))
        },
    }
}

impl TextRun {
    /// The run stands here, in mathematical terms.
    pub open spec fn at(self) -> (Seq<char>, Seq<char>) {
        (self.chained@, self.paste@)
    }

    /// A run over `text` begins.
    pub fn begin(text: &str) -> (r: Self)
        ensures
            r.at() == (Seq::<char>::empty(), text@),
            r.done == 0,
    {
        let chained = String::new();
        assert(chained@ =~= Seq::empty());
        TextRun { chained, paste: text.to_owned(), done: 0 }
    }

    /// Takes in what a step came to.
    pub fn step(&mut self, step: &PipelineStep, result: Result<String, String>) -> (r: Result<
        (),
        String,
    >)
        requires
            old(self).done < usize::MAX,
        ensures
            ({
                let came = match result {
                    Ok(b) => Ok(b@),
                    Err(e) => Err(e@),
                };
                match step_text(old(self).at(), *step, came) {
                    Ok(after) => r is Ok && final(self).at() == after && final(self).done == old(
                        self,
                    ).done + 1,
                    Err(e) => r is Err && r->Err_0@ == e && *final(self) == *old(self),
                }
            }),
    {
        match result {
            Ok(body) => {
                let program = step.step_type == StepType::CliAgent || step.step_type
                    == StepType::Shell;
                if program && !blank(body.as_str()) {
                    self.paste = body.clone();
                }
                self.chained = body;
                self.done = self.done + 1;
                Ok(())
            },
            Err(e) => if step.step_type == StepType::SaveLocal {
                self.done = self.done + 1;
                Ok(())
            } else {
                let first = joined3("step '", step.name.as_str(), "': ");
                Err(joined(first.as_str(), e.as_str()))
            },
        }
    }
}

/// The message about a pipeline that is not there.
pub fn pipeline_missing(name: &str) -> (r: String)
    ensures
        r@ == "Pipeline '"@ + name@ + "' not found"@,
{
    joined3("Pipeline '", name, "' not found")
}

/// Saving changes nothing about what is pasted, whether it works or not.
pub proof fn law_saving_keeps_the_text(
    before: (Seq<char>, Seq<char>),
    step: PipelineStep,
    result: StepResult,
)
    requires
        step.step_type == StepType::SaveLocal,
    ensures
        step_text(before, step, result) is Ok,
        step_text(before, step, result)->Ok_0.1 == before.1,
{
}

/// What is pasted is what the last agent or shell step gave that gave more than white
/// space; what was dictated where none did.
pub proof fn law_pasted_text(
    text: Seq<char>,
    steps: Seq<PipelineStep>,
    results: Seq<StepResult>,
    n: int,
)
    requires
        0 <= n <= steps.len(),
        results.len() == steps.len(),
        text_after(text, steps, results, n) is Ok,
    ensures
        forall|i: int|
            0 <= i < n && ((#[trigger] steps[i]).step_type == StepType::CliAgent
                || steps[i].step_type == StepType::Shell) && results[i] is Ok && !all_space(
                results[i]->Ok_0,
            ) && (forall|j: int|
                i < j < n && ((#[trigger] steps[j]).step_type == StepType::CliAgent
                    || steps[j].step_type == StepType::Shell) ==> results[j] is Err || all_space(
                    results[j]->Ok_0,
                )) ==> (text_after(text, steps, results, n)->Ok_0).1 == results[i]->Ok_0,
        (forall|j: int|
            0 <= j < n && ((#[trigger] steps[j]).step_type == StepType::CliAgent
                || steps[j].step_type == StepType::Shell) ==> results[j] is Err || all_space(
                results[j]->Ok_0,
            )) ==> (text_after(text, steps, results, n)->Ok_0).1 == text,
        ({
            let paste = (text_after(text, steps, results, n)->Ok_0).1;
            paste == text || exists|i: int|
                0 <= i < n && transforms((#[trigger] steps[i]).step_type) && results[i] == Ok::<
                    Seq<char>,
                    Seq<char>,
                >(paste)
        }),
    decreases n,
{
    if n > 0 {
        law_pasted_text(text, steps, results, n - 1);
        let before = (text_after(text, steps, results, n - 1)->Ok_0).1;
        let after = (text_after(text, steps, results, n)->Ok_0).1;
        if after != before {
            assert(transforms(steps[n - 1].step_type));
        }
        match results[n - 1] {
            Ok(given) => {
                law_blank(given);
            },
            Err(_) => {},
        }
    }
}

/// A step is given what the last step before it that came to something gave, and the
/// first one nothing.
pub proof fn law_chained_text(
    text: Seq<char>,
    steps: Seq<PipelineStep>,
    results: Seq<StepResult>,
    n: int,
)
    requires
        0 <= n <= steps.len(),
        results.len() == steps.len(),
        text_after(text, steps, results, n) is Ok,
    ensures
        forall|i: int|
            0 <= i < n && (#[trigger] results[i]) is Ok && (forall|j: int|
                i < j < n ==> (#[trigger] results[j]) is Err) ==> (text_after(
                text,
                steps,
                results,
                n,
            )->Ok_0).0 == results[i]->Ok_0,
        (forall|j: int| 0 <= j < n ==> (#[trigger] results[j]) is Err) ==> (text_after(
            text,
            steps,
            results,
            n,
        )->Ok_0).0.len() == 0,
    decreases n,
{
    if n > 0 {
        law_chained_text(text, steps, results, n - 1);
        assert(results[n - 1] is Ok || results[n - 1] is Err);
    }
}

/// A run fails exactly if an agent or shell step does, and with what the first of them
/// says, behind its name. That saving fails does not stop it.
pub proof fn law_first_failure_ends_the_run(
    text: Seq<char>,
    steps: Seq<PipelineStep>,
    results: Seq<StepResult>,
    n: int,
)
    requires
        0 <= n <= steps.len(),
        results.len() == steps.len(),
    ensures
        text_after(text, steps, results, n) is Err <==> exists|i: int|
            0 <= i < n && (#[trigger] steps[i]).step_type != StepType::SaveLocal && results[i] is Err,
        forall|i: int|
            0 <= i < n && (#[trigger] steps[i]).step_type != StepType::SaveLocal && results[i] is Err
                && (forall|j: int|
                0 <= j < i && (#[trigger] steps[j]).step_type != StepType::SaveLocal
                    ==> results[j] is Ok) ==> text_after(text, steps, results, n) == Err::<
                (Seq<char>, Seq<char>),
                Seq<char>,
            >("step '"@ + steps[i].name@ + "': "@ + results[i]->Err_0),
    decreases n,
{
    if n > 0 {
        law_first_failure_ends_the_run(text, steps, results, n - 1);
        let last = steps[n - 1];
        let came = results[n - 1];
        if text_after(text, steps, results, n - 1) is Err {
            let i = choose|i: int|
                0 <= i < n - 1 && (#[trigger] steps[i]).step_type != StepType::SaveLocal
                    && results[i] is Err;
            assert(steps[i].step_type != StepType::SaveLocal && results[i] is Err);
        } else if last.step_type != StepType::SaveLocal && came is Err {
            assert(steps[n - 1].step_type != StepType::SaveLocal && results[n - 1] is Err);
        }
    }
}

/// The title of a dictation that is kept.
pub fn dictation_title_at(clock: &str) -> (r: String)
    ensures
        r@ == "Dictation · "@ + clock@,
{
    joined("Dictation · ", clock)
}

/// The metadata of a dictation that is kept, begun now.
pub fn create_dictation() -> (r: RecordingMetadata)
    ensures
        exists|clock: Seq<char>|
            is_clock(clock) && just_begun(r, #[trigger] ("Dictation · "@ + clock)),
        is_stamp(r.created_at@),
        crate::ids::uuid_shape(r.id@),
{
    let clock = local_clock();
    let title = dictation_title_at(clock.as_str());
    let r = create_recording(title);
    assert(just_begun(r, "Dictation · "@ + clock@));
    r
}

/// How long sound of so many samples is, in milliseconds.
pub fn duration_of(samples: usize) -> (r: u64)
    ensures
        r == samples as int * 1000 / TARGET_RATE as int,
{
    (samples / 16) as u64
}

/// The metadata of a dictation that has been kept.
pub fn dictation_metadata(latest: RecordingMetadata, transcript: &str, samples: usize) -> (r:
    RecordingMetadata)
    ensures
        r == (RecordingMetadata {
            audio: r.audio,
            status: r.status,
            source: r.source,
            transcript_preview: r.transcript_preview,
            ..latest
        }),
        r.audio.mic == latest.audio.mic,
        r.audio.system == latest.audio.system,
        r.audio.mix is Some,
        r.audio.mix->0.file@ == "audio_mix.ogg"@,
        r.audio.mix->0.duration_ms == samples as int * 1000 / TARGET_RATE as int,
        r.audio.mix->0.sample_rate == TARGET_RATE,
        r.audio.mix->0.channels == 1,
        r.status@ == "ready"@,
        r.source@ == "dictation"@,
        name_view(r.transcript_preview) == if transcript@.len() == 0 {
            None
        } else {
            Some(taken(transcript@, 200))
        },
{
    let mut m = latest;
    m.audio.mix = Some(
        AudioInfo {
            file: "audio_mix.ogg".to_owned(),
            duration_ms: duration_of(samples),
            sample_rate: TARGET_RATE,
            channels: 1,
        },
    );
    m.status = "ready".to_owned();
    m.source = "dictation".to_owned();
    let preview = take(transcript, 200);
    m.transcript_preview = if preview.as_str().is_empty() {
        None
    } else {
        Some(preview)
    };
    m
}

/// Where the transcript of a dictation comes from.
pub fn transcript_source(provider: TranscriptionProvider) -> (r: TranscriptSource)
    ensures
        r == match provider {
            TranscriptionProvider::AppleSpeech => TranscriptSource::Apple,
            _ => TranscriptSource::Fluidaudio,
        },
{
    match provider {
        TranscriptionProvider::AppleSpeech => TranscriptSource::Apple,
        _ => TranscriptSource::Fluidaudio,
    }
}

/// What the transcript of a dictation names as its model.
pub fn model_name(provider: TranscriptionProvider) -> (r: String)
    ensures
        r@ == match provider {
            TranscriptionProvider::FluidAudio => "FluidAudio"@,
            TranscriptionProvider::Qwen3 => "Qwen3"@,
            TranscriptionProvider::AppleSpeech => "AppleSpeech"@,
            TranscriptionProvider::Unknown => "Unknown"@,
        },
{
    match provider {
        TranscriptionProvider::FluidAudio => "FluidAudio".to_owned(),
        TranscriptionProvider::Qwen3 => "Qwen3".to_owned(),
        TranscriptionProvider::AppleSpeech => "AppleSpeech".to_owned(),
        TranscriptionProvider::Unknown => "Unknown".to_owned(),
    }
}

/// An answer with a text and a model says the text; one without either says nothing that
/// can be used.
pub proof fn law_spoken(entries: Vec<(String, Json)>, text: String, model: String)
    ensures
        entry_of(entries@, "text"@) == Some(Json::Text(text)) && entry_of(entries@, "model"@)
            == Some(Json::Text(model)) ==> spoken_in(Ok(Json::Object(entries))) == Ok::<
            Seq<char>,
            Seq<char>,
        >(text@),
        entry_of(entries@, "text"@) is None ==> spoken_in(Ok(Json::Object(entries))) is Err,
        entry_of(entries@, "model"@) is None ==> spoken_in(Ok(Json::Object(entries))) is Err,
        forall|e: Seq<char>|
            #[trigger] spoken_in(Err::<Json, Seq<char>>(e)) == Err::<Seq<char>, Seq<char>>(e),
{
}

/// What was said is passed on as it is. A failure of FluidAudio alone that says nobody
/// spoke is no failure; any other names the engine and says why.
pub proof fn law_reply(engine: Engine, parsed: Result<Seq<char>, Seq<char>>, stderr: Seq<char>)
    ensures
        parsed is Ok ==> reply_of(engine, true, parsed, stderr) == parsed,
        parsed is Err ==> reply_of(engine, true, parsed, stderr) == Err::<Seq<char>, Seq<char>>(
            (if engine is AppleSpeech {
                "parse Apple Speech output: "@
            } else {
                "parse FluidAudio output: "@
            }) + parsed->Err_0,
        ),
        reply_of(engine, false, parsed, stderr) is Ok <==> engine is FluidAudio && occurs(
            stderr,
            "No speech detected"@,
        ),
        reply_of(engine, false, parsed, stderr) matches Ok(t) ==> t.len() == 0,
        reply_of(engine, false, parsed, stderr) matches Err(e) ==> e == (if engine is AppleSpeech {
            "Apple Speech sidecar failed: "@
        } else {
            "FluidAudio sidecar failed: "@
        }) + stderr,
{
}

} // verus!
