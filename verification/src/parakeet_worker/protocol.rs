//! What is said to and by the resident transcriber: requests, events, one JSON
//! object to a line.

use crate::json::{
    entry_of, field_of, is_record, json_bytes_result, parse_bytes, record, Fields, Json,
};
use crate::pipelines::name_view;
use crate::records::{invalid_type, read_text, required_text, wrong_type};
use crate::seqs::{
    keyed, keys_distinct, lemma_keyed_at, lemma_keyed_dom, lemma_keyed_pushed, lemma_keyed_removed,
};
use crate::text::{joined3, same};
use vstd::prelude::*;

verus! {

/// A request to the resident transcriber.
#[derive(Debug)]
pub struct ResidentRequest {
    pub id: String,
    pub operation: String,
    pub wav_path: Option<String>,
    pub vocab_path: Option<String>,
    /// A decimal fraction.
    pub translit_threshold: String,
    pub translit_min_len: u32,
}

impl ResidentRequest {
    /// Asks whether it is alive.
    pub fn ping(id: String) -> (r: Self)
        ensures
            r.id == id,
            r.operation@ == "ping"@,
            r.wav_path is None,
            r.vocab_path is None,
            r.translit_threshold@ == "0"@,
            r.translit_min_len == 0,
    {
        ResidentRequest {
            id,
            operation: "ping".to_owned(),
            wav_path: None,
            vocab_path: None,
            translit_threshold: "0".to_owned(),
            translit_min_len: 0,
        }
    }

    /// Asks for the transcription of a file.
    pub fn transcribe(
        id: String,
        wav_path: String,
        vocab_path: Option<String>,
        translit_threshold: String,
        translit_min_len: u32,
    ) -> (r: Self)
        ensures
            r.operation@ == "transcribe"@,
            r == (ResidentRequest {
                id,
                operation: r.operation,
                wav_path: Some(wav_path),
                vocab_path,
                translit_threshold,
                translit_min_len,
            }),
    {
        ResidentRequest {
            id,
            operation: "transcribe".to_owned(),
            wav_path: Some(wav_path),
            vocab_path,
            translit_threshold,
            translit_min_len,
        }
    }
}

/// What the resident transcriber reports.
#[allow(inconsistent_fields)]
#[derive(Debug)]
pub enum ResidentEvent {
    Ready,
    Pong { id: String },
    Result { id: String, text: String, model: String },
    Error { id: Option<String>, message: String },
    Fatal { message: String },
}

/// A report in mathematical terms.
pub enum EventView {
    Ready,
    Pong(Seq<char>),
    Result(Seq<char>, Seq<char>, Seq<char>),
    Error(Option<Seq<char>>, Seq<char>),
    Fatal(Seq<char>),
}

impl View for ResidentEvent {
    type V = EventView;

    open spec fn view(&self) -> EventView {
        match *self {
            ResidentEvent::Ready => EventView::Ready,
            ResidentEvent::Pong { id } => EventView::Pong(id@),
            ResidentEvent::Result { id, text, model } => EventView::Result(id@, text@, model@),
            ResidentEvent::Error { id, message } => EventView::Error(name_view(id), message@),
            ResidentEvent::Fatal { message } => EventView::Fatal(message@),
        }
    }
}

/// A text that may be absent.
pub open spec fn optional_text(value: Option<Json>, field: Seq<char>) -> Result<
    Option<Seq<char>>,
    Seq<char>,
> {
    match value {
        None | Some(Json::Null) => Ok(None),
        Some(Json::Text(s)) => Ok(Some(s@)),
        Some(v) => Err(invalid_type(v, "a string"@)),
    }
}

/// How many fields a report of a known kind has besides its `type`.
pub open spec fn fields_of(kind: Seq<char>) -> Option<usize> {
    if kind == "ready"@ {
        Some(0)
    } else if kind == "pong"@ || kind == "fatal"@ {
        Some(1)
    } else if kind == "error"@ {
        Some(2)
    } else if kind == "result"@ {
        Some(3)
    } else {
        None
    }
}

fn field_count(kind: &str) -> (r: Option<usize>)
    ensures
        r == fields_of(kind@),
{
    if same(kind, "ready") {
        Some(0)
    } else if same(kind, "pong") || same(kind, "fatal") {
        Some(1)
    } else if same(kind, "error") {
        Some(2)
    } else if same(kind, "result") {
        Some(3)
    } else {
        None
    }
}

/// What a report means: the `type` says which fields it has.
pub open spec fn event_of(value: Json) -> Result<EventView, Seq<char>> {
    if !(value is Object || value is List) {
        Err(invalid_type(value, "internally tagged enum ResidentEvent"@))
    } else {
        match required_text(field_of(value, 0, "type"@), "type"@) {
            Err(m) => Err(m),
            Ok(kind) => if fields_of(kind) is None {
                Err("unknown variant `"@ + kind + "`"@)
            } else if !is_record(value, fields_of(kind)->0 + 1, fields_of(kind)->0 + 1) {
                Err("wrong number of fields in `"@ + kind + "`"@)
            } else if kind == "ready"@ {
                Ok(EventView::Ready)
            } else if kind == "pong"@ {
                match required_text(field_of(value, 1, "id"@), "id"@) {
                    Err(m) => Err(m),
                    Ok(id) => Ok(EventView::Pong(id)),
                }
            } else if kind == "result"@ {
                match required_text(field_of(value, 1, "id"@), "id"@) {
                    Err(m) => Err(m),
                    Ok(id) => match required_text(field_of(value, 2, "text"@), "text"@) {
                        Err(m) => Err(m),
                        Ok(text) => match required_text(field_of(value, 3, "model"@), "model"@) {
                            Err(m) => Err(m),
                            Ok(model) => Ok(EventView::Result(id, text, model)),
                        },
                    },
                }
            } else if kind == "error"@ {
                match optional_text(field_of(value, 1, "id"@), "id"@) {
                    Err(m) => Err(m),
                    Ok(id) => match required_text(field_of(value, 2, "message"@), "message"@) {
                        Err(m) => Err(m),
                        Ok(message) => Ok(EventView::Error(id, message)),
                    },
                }
            } else {
                match required_text(field_of(value, 1, "message"@), "message"@) {
                    Err(m) => Err(m),
                    Ok(message) => Ok(EventView::Fatal(message)),
                }
            },
        }
    }
}

proof fn lemma_event_fields_differ()
    ensures
        "type"@ != "id"@,
        "type"@ != "text"@,
        "type"@ != "model"@,
        "type"@ != "message"@,
        "id"@ != "text"@,
        "id"@ != "model"@,
        "id"@ != "message"@,
        "text"@ != "model"@,
{
    reveal_strlit("type");
    reveal_strlit("id");
    reveal_strlit("text");
    reveal_strlit("model");
    reveal_strlit("message");
    assert("type"@.len() == 4 && "type"@[1] == 'y');
    assert("text"@.len() == 4 && "text"@[1] == 'e');
    assert("id"@.len() == 2 && "model"@.len() == 5 && "message"@.len() == 7);
}

fn read_optional(value: Option<Json>, field: &str) -> (r: Result<Option<String>, String>)
    ensures
        match r {
            Ok(s) => optional_text(value, field@) == Ok::<Option<Seq<char>>, Seq<char>>(
                name_view(s),
            ),
            Err(m) => optional_text(value, field@) == Err::<Option<Seq<char>>, Seq<char>>(m@),
        },
{
    match value {
        None => Ok(None),
        Some(Json::Null) => Ok(None),
        Some(Json::Text(s)) => Ok(Some(s)),
        Some(v) => Err(wrong_type(&v, "a string")),
    }
}

/// Reads a report.
pub fn read_event(value: Json) -> (r: Result<ResidentEvent, String>)
    ensures
        match r {
            Ok(e) => event_of(value) == Ok::<EventView, Seq<char>>(e@),
            Err(m) => event_of(value) == Err::<EventView, Seq<char>>(m@),
        },
{
    proof {
        lemma_event_fields_differ();
    }
    if !record(&value, 0, usize::MAX) {
        return Err(wrong_type(&value, "internally tagged enum ResidentEvent"));
    }
    let mut fields = Fields::of(value);
    let kind = match read_text(fields.take("type"), "type") {
        Ok(s) => s,
        Err(m) => {
            return Err(m);
        },
    };
    let more: usize = match field_count(kind.as_str()) {
        Some(n) => n,
        None => {
            return Err(joined3("unknown variant `", kind.as_str(), "`"));
        },
    };
    if !fields.fits(more, more) {
        return Err(joined3("wrong number of fields in `", kind.as_str(), "`"));
    }
    if same(kind.as_str(), "ready") {
        Ok(ResidentEvent::Ready)
    } else if same(kind.as_str(), "pong") {
        match read_text(fields.take("id"), "id") {
            Ok(id) => Ok(ResidentEvent::Pong { id }),
            Err(m) => Err(m),
        }
    } else if same(kind.as_str(), "result") {
        let id = match read_text(fields.take("id"), "id") {
            Ok(s) => s,
            Err(m) => {
                return Err(m);
            },
        };
        let text = match read_text(fields.take("text"), "text") {
            Ok(s) => s,
            Err(m) => {
                return Err(m);
            },
        };
        match read_text(fields.take("model"), "model") {
            Ok(model) => Ok(ResidentEvent::Result { id, text, model }),
            Err(m) => Err(m),
        }
    } else if same(kind.as_str(), "error") {
        let id = match read_optional(fields.take("id"), "id") {
            Ok(s) => s,
            Err(m) => {
                return Err(m);
            },
        };
        match read_text(fields.take("message"), "message") {
            Ok(message) => Ok(ResidentEvent::Error { id, message }),
            Err(m) => Err(m),
        }
    } else {
        match read_text(fields.take("message"), "message") {
            Ok(message) => Ok(ResidentEvent::Fatal { message }),
            Err(m) => Err(m),
        }
    }
}

/// The position of the first line feed, or the end.
pub open spec fn line_end(bytes: Seq<u8>) -> int
    decreases bytes.len(),
{
    if bytes.len() == 0 || bytes[0] == 10 {
        0
    } else {
        1 + line_end(bytes.skip(1))
    }
}

proof fn lemma_line_end(bytes: Seq<u8>)
    ensures
        0 <= line_end(bytes) <= bytes.len(),
        line_end(bytes) < bytes.len() ==> bytes[line_end(bytes)] == 10,
        forall|i: int| 0 <= i < line_end(bytes) ==> bytes[i] != 10,
    decreases bytes.len(),
{
    if bytes.len() > 0 && bytes[0] != 10 {
        lemma_line_end(bytes.skip(1));
        assert forall|i: int| 0 <= i < line_end(bytes) implies bytes[i] != 10 by {
            if i > 0 {
                assert(bytes[i] == bytes.skip(1)[i - 1]);
            }
        }
    }
}

/// The lines of `bytes` that are ended by a line feed, without the empty ones.
pub open spec fn full_lines(bytes: Seq<u8>) -> Seq<Seq<u8>>
    decreases bytes.len(),
{
    let n = line_end(bytes);
    if 0 <= n < bytes.len() {
        let rest = full_lines(bytes.skip(n + 1));
        if n == 0 {
            rest
        } else {
            seq![bytes.take(n)] + rest
        }
    } else {
        Seq::empty()
    }
}

/// What follows the last line feed.
pub open spec fn open_line(bytes: Seq<u8>) -> Seq<u8>
    decreases bytes.len(),
{
    let n = line_end(bytes);
    if 0 <= n < bytes.len() {
        open_line(bytes.skip(n + 1))
    } else {
        bytes
    }
}

/// What a line means.
pub open spec fn line_event(line: Seq<u8>) -> Result<EventView, Seq<char>> {
    match json_bytes_result(line) {
        Ok(v) => event_of(v),
        Err(m) => Err(m),
    }
}

/// What was read from a line.
pub open spec fn read_view(r: Result<ResidentEvent, String>) -> Result<EventView, Seq<char>> {
    match r {
        Ok(e) => Ok(e@),
        Err(m) => Err(m@),
    }
}

/// What was read from several lines.
pub open spec fn reads_view(r: Seq<Result<ResidentEvent, String>>) -> Seq<
    Result<EventView, Seq<char>>,
> {
    r.map_values(|x: Result<ResidentEvent, String>| read_view(x))
}

/// Why the line at a place is refused, where it is.
pub open spec fn refused_at(refusals: Seq<Option<String>>, i: int) -> Option<Seq<char>> {
    if 0 <= i < refusals.len() {
        name_view(refusals[i])
    } else {
        None
    }
}

/// What several lines mean, where some are refused.
pub open spec fn lines_events(lines: Seq<Seq<u8>>, refusals: Seq<Option<String>>) -> Seq<
    Result<EventView, Seq<char>>,
> {
    Seq::new(
        lines.len(),
        |i: int|
            match refused_at(refusals, i) {
                Some(m) => Err(m),
                None => line_event(lines[i]),
            },
    )
}

/// Several lines of bytes.
pub open spec fn byte_lines(lines: Seq<Vec<u8>>) -> Seq<Seq<u8>> {
    lines.map_values(|l: Vec<u8>| l@)
}

/// Bytes that have come in and do not make up a line yet.
#[derive(Debug)]
pub struct NdjsonBuffer {
    pub bytes: Vec<u8>,
}

impl NdjsonBuffer {
    /// Nothing has come in.
    pub fn new() -> (r: Self)
        ensures
            r.bytes@.len() == 0,
    {
        NdjsonBuffer { bytes: Vec::new() }
    }

    /// Takes a chunk in. Gives the lines that it completes, without the empty ones.
    pub fn push_lines(&mut self, chunk: &Vec<u8>) -> (r: Vec<Vec<u8>>)
        ensures
            byte_lines(r@) == full_lines(old(self).bytes@ + chunk@),
            final(self).bytes@ == open_line(old(self).bytes@ + chunk@),
    {
        let ghost all = self.bytes@ + chunk@;
        self.bytes.extend_from_slice(chunk.as_slice());
        assert(self.bytes@ =~= all);
        let mut out: Vec<Vec<u8>> = Vec::new();
        let n: usize = self.bytes.len();
        let mut start: usize = 0;
        let mut i: usize = 0;
        assert(all.skip(0) =~= all);
        assert(byte_lines(out@) + full_lines(all) =~= full_lines(all));
        while i < n
            invariant
                start <= i <= n,
                n == all.len(),
                self.bytes@ == all,
                forall|k: int| start <= k < i ==> all[k] != 10,
                byte_lines(out@) + full_lines(all.skip(start as int)) == full_lines(all),
                open_line(all.skip(start as int)) == open_line(all),
            decreases n - i,
        {
            if self.bytes[i] == 10 {
                let ghost rest = all.skip(start as int);
                proof {
                    lemma_line_end(rest);
                    assert forall|k: int| 0 <= k < i - start implies rest[k] != 10 by {
                        assert(rest[k] == all[start + k]);
                    }
                    assert(rest[i - start] == 10);
                    assert(line_end(rest) == i - start);
                    assert(rest.skip(i - start + 1) =~= all.skip(i as int + 1));
                }
                if start < i {
                    let ghost before = out@;
                    let mut line: Vec<u8> = Vec::new();
                    let mut k: usize = start;
                    while k < i
                        invariant
                            start <= k <= i,
                            i < n,
                            n == all.len(),
                            self.bytes@ == all,
                            line@ == all.subrange(start as int, k as int),
                        decreases i - k,
                    {
                        line.push(self.bytes[k]);
                        assert(all.subrange(start as int, k as int + 1) =~= all.subrange(
                            start as int,
                            k as int,
                        ).push(all[k as int]));
                        k += 1;
                    }
                    assert(line@ =~= rest.take(i - start));
                    let ghost lv = line@;
                    out.push(line);
                    assert(byte_lines(out@) =~= byte_lines(before).push(lv));
                    assert(byte_lines(before) + (seq![lv] + full_lines(all.skip(i as int + 1)))
                        =~= byte_lines(out@) + full_lines(all.skip(i as int + 1)));
                }
                start = i + 1;
            }
            i += 1;
        }
        let ghost rest = all.skip(start as int);
        proof {
            lemma_line_end(rest);
            if line_end(rest) < rest.len() {
                assert(rest[line_end(rest)] == all[start + line_end(rest)]);
            }
            assert(full_lines(rest) =~= Seq::empty());
            assert(open_line(rest) == rest);
            assert(byte_lines(out@) + full_lines(rest) =~= byte_lines(out@));
        }
        let tail = self.bytes.split_off(start);
        assert(tail@ =~= rest);
        self.bytes = tail;
        out
    }

    /// The lines that a chunk would complete.
    pub fn lines_with(&self, chunk: &Vec<u8>) -> (r: Vec<Vec<u8>>)
        ensures
            byte_lines(r@) == full_lines(self.bytes@ + chunk@),
    {
        let mut bytes: Vec<u8> = Vec::new();
        bytes.extend_from_slice(self.bytes.as_slice());
        assert(bytes@ =~= self.bytes@);
        let mut copy = NdjsonBuffer { bytes };
        copy.push_lines(chunk)
    }

    /// Takes a chunk in. Gives what the lines that it completes mean.
    pub fn push(&mut self, chunk: &Vec<u8>) -> (r: Vec<Result<ResidentEvent, String>>)
        ensures
            reads_view(r@) == lines_events(full_lines(old(self).bytes@ + chunk@), Seq::empty()),
            final(self).bytes@ == open_line(old(self).bytes@ + chunk@),
    {
        let none: Vec<Option<String>> = Vec::new();
        assert(none@ =~= Seq::empty());
        self.push_checked(chunk, &none)
    }

    /// Takes a chunk in. Gives what the lines that it completes mean. `refusals` is
    /// what a reader of typed reports has against them, line by line: it alone sees
    /// that a field stands twice, and where in the line a fault lies.
    pub fn push_checked(&mut self, chunk: &Vec<u8>, refusals: &Vec<Option<String>>) -> (r: Vec<
        Result<ResidentEvent, String>,
    >)
        ensures
            reads_view(r@) == lines_events(full_lines(old(self).bytes@ + chunk@), refusals@),
            final(self).bytes@ == open_line(old(self).bytes@ + chunk@),
    {
        let lines = self.push_lines(chunk);
        let ghost texts = byte_lines(lines@);
        let mut out: Vec<Result<ResidentEvent, String>> = Vec::new();
        let mut i: usize = 0;
        while i < lines.len()
            invariant
                i <= lines@.len(),
                texts == byte_lines(lines@),
                out@.len() == i,
                forall|k: int|
                    0 <= k < i ==> read_view(#[trigger] out@[k]) == match refused_at(
                        refusals@,
                        k,
                    ) {
                        Some(m) => Err(m),
                        None => line_event(texts[k]),
                    },
            decreases lines@.len() - i,
        {
            assert(texts[i as int] == lines@[i as int]@);
            let refusal: Option<String> = if i < refusals.len() {
                match &refusals[i] {
                    Some(m) => Some(m.as_str().to_owned()),
                    None => None,
                }
            } else {
                None
            };
            let event = match refusal {
                Some(m) => Err(m),
                None => match parse_bytes(&lines[i]) {
                    Ok(v) => read_event(v),
                    Err(m) => Err(m),
                },
            };
            out.push(event);
            i += 1;
        }
        assert(reads_view(out@) =~= lines_events(texts, refusals@));
        out
    }
}

proof fn lemma_line_end_append(a: Seq<u8>, b: Seq<u8>)
    ensures
        line_end(a) < a.len() ==> line_end(a + b) == line_end(a),
        line_end(a) == a.len() ==> line_end(a + b) == a.len() + line_end(b),
    decreases a.len(),
{
    lemma_line_end(a);
    if a.len() == 0 {
        assert(a + b =~= b);
    } else if a[0] != 10 {
        assert((a + b).skip(1) =~= a.skip(1) + b);
        lemma_line_end_append(a.skip(1), b);
    }
}

/// How a stream is cut into chunks does not matter: two chunks, one after the
/// other, give the same lines and leave the same rest as both at once.
pub proof fn law_chunks_do_not_matter(a: Seq<u8>, b: Seq<u8>)
    ensures
        full_lines(a + b) == full_lines(a) + full_lines(open_line(a) + b),
        open_line(a + b) == open_line(open_line(a) + b),
    decreases a.len(),
{
    lemma_line_end(a);
    lemma_line_end_append(a, b);
    let n = line_end(a);
    if n < a.len() {
        let rest = a.skip(n + 1);
        assert((a + b).skip(n + 1) =~= rest + b);
        law_chunks_do_not_matter(rest, b);
        if n > 0 {
            assert((a + b).take(n) =~= a.take(n));
            assert(seq![a.take(n)] + (full_lines(rest) + full_lines(open_line(rest) + b)) =~= (
            seq![a.take(n)] + full_lines(rest)) + full_lines(open_line(rest) + b));
        }
    } else {
        assert(full_lines(a) =~= Seq::empty());
        assert(full_lines(a) + full_lines(a + b) =~= full_lines(a + b));
    }
}

/// What a caller waits for.
#[derive(Clone, Copy, Debug, PartialEq, Eq, Structural)]
pub enum PendingKind {
    Transcribe,
    Health,
}

/// A request that was passed on and has no answer yet.
#[derive(Debug)]
pub struct Pending {
    pub id: String,
    pub kind: PendingKind,
}

/// What a caller is told.
#[derive(Debug)]
pub enum Answer {
    /// The transcribed text.
    Text(String),
    /// The transcriber is alive.
    Alive,
    /// Why there is no answer.
    Failed(String),
}

/// What a caller is told, in mathematical terms.
pub enum AnswerView {
    Text(Seq<char>),
    Alive,
    Failed(Seq<char>),
}

impl View for Answer {
    type V = AnswerView;

    open spec fn view(&self) -> AnswerView {
        match *self {
            Answer::Text(t) => AnswerView::Text(t@),
            Answer::Alive => AnswerView::Alive,
            Answer::Failed(m) => AnswerView::Failed(m@),
        }
    }
}

/// An answer to the caller of the request `id`.
#[derive(Debug)]
pub struct Reply {
    pub id: String,
    pub kind: PendingKind,
    pub answer: Answer,
}

impl Reply {
    /// The reply is to that request and says this.
    pub open spec fn says(self, id: Seq<char>, kind: PendingKind, answer: AnswerView) -> bool {
        self.id@ == id && self.kind == kind && self.answer@ == answer
    }
}

/// What callers ask of the worker.
#[derive(Debug)]
pub enum WorkerCommand {
    Transcribe { request: ResidentRequest },
    Health { request: ResidentRequest },
    Cancel { id: String, restart_if_queued: bool },
    Shutdown,
}

impl WorkerCommand {
    /// The request that a command carries, and what its caller waits for.
    pub open spec fn asks(self) -> Option<(PendingKind, ResidentRequest)> {
        match self {
            WorkerCommand::Transcribe { request } => Some((PendingKind::Transcribe, request)),
            WorkerCommand::Health { request } => Some((PendingKind::Health, request)),
            _ => None,
        }
    }
}

/// What becomes of a command before anything is passed on.
#[derive(Debug)]
pub enum ControlResult {
    /// Answered here.
    Handled(Reply),
    Cancel { id: String, restart_if_queued: bool },
    Shutdown,
    /// To be passed on.
    Forward(WorkerCommand),
}

/// What a caller is told while the model is loading.
pub open spec fn not_ready() -> Seq<char> {
    "resident Parakeet is not ready"@
}

/// What becomes of a command: a health check is refused until the transcriber
/// is ready, and answered here while it is busy.
pub open spec fn controlled(
    command: WorkerCommand,
    ready: bool,
    busy: bool,
    r: ControlResult,
) -> bool {
    match command {
        WorkerCommand::Health { request } => if !ready {
            r matches ControlResult::Handled(reply) && reply.says(
                request.id@,
                PendingKind::Health,
                AnswerView::Failed(not_ready()),
            )
        } else if busy {
            r matches ControlResult::Handled(reply) && reply.says(
                request.id@,
                PendingKind::Health,
                AnswerView::Alive,
            )
        } else {
            r == ControlResult::Forward(command)
        },
        WorkerCommand::Transcribe { request } => r == ControlResult::Forward(command),
        WorkerCommand::Cancel { id, restart_if_queued } => r == (ControlResult::Cancel {
            id,
            restart_if_queued,
        }),
        WorkerCommand::Shutdown => r == ControlResult::Shutdown,
    }
}

/// Decides what becomes of a command.
pub fn handle_control(command: WorkerCommand, ready: bool, busy: bool) -> (r: ControlResult)
    ensures
        controlled(command, ready, busy, r),
{
    match command {
        WorkerCommand::Health { request } => {
            if !ready {
                ControlResult::Handled(
                    Reply {
                        id: request.id,
                        kind: PendingKind::Health,
                        answer: Answer::Failed("resident Parakeet is not ready".to_owned()),
                    },
                )
            } else if busy {
                ControlResult::Handled(
                    Reply { id: request.id, kind: PendingKind::Health, answer: Answer::Alive },
                )
            } else {
                ControlResult::Forward(WorkerCommand::Health { request })
            }
        },
        WorkerCommand::Transcribe { request } => ControlResult::Forward(
            WorkerCommand::Transcribe { request },
        ),
        WorkerCommand::Cancel { id, restart_if_queued } => ControlResult::Cancel {
            id,
            restart_if_queued,
        },
        WorkerCommand::Shutdown => ControlResult::Shutdown,
    }
}

/// Requests are told apart by identifier.
pub open spec fn pending_id() -> spec_fn(Pending) -> Seq<char> {
    |p: Pending| p.id@
}

/// The outstanding requests and what their callers wait for.
pub open spec fn outstanding(pending: Seq<Pending>) -> Map<Seq<char>, PendingKind> {
    keyed(pending, pending_id()).map_values(|p: Pending| p.kind)
}

/// No request is outstanding twice.
pub open spec fn pending_wf(pending: Seq<Pending>) -> bool {
    keys_distinct(pending, pending_id())
}

/// Takes a request out of the outstanding ones.
pub fn take_pending(pending: &mut Vec<Pending>, id: &str) -> (r: Option<PendingKind>)
    requires
        pending_wf(old(pending)@),
    ensures
        pending_wf(final(pending)@),
        outstanding(final(pending)@) == outstanding(old(pending)@).remove(id@),
        match r {
            Some(kind) => outstanding(old(pending)@).dom().contains(id@) && outstanding(
                old(pending)@,
            )[id@] == kind,
            None => !outstanding(old(pending)@).dom().contains(id@),
        },
{
    let ghost before = pending@;
    let ghost key = pending_id();
    proof {
        lemma_keyed_dom(before, key, id@);
    }
    let mut i: usize = 0;
    while i < pending.len()
        invariant
            i <= pending@.len(),
            pending@ == before,
            before == old(pending)@,
            pending_wf(before),
            key == pending_id(),
            forall|j: int| 0 <= j < i ==> key(#[trigger] pending@[j]) != id@,
            keyed(before, key).dom().contains(id@) <==> exists|k: int|
                0 <= k < before.len() && key(#[trigger] before[k]) == id@,
        decreases pending@.len() - i,
    {
        if same(pending[i].id.as_str(), id) {
            assert(key(before[i as int]) == id@);
            proof {
                lemma_keyed_at(before, key, i as int);
                lemma_keyed_removed(before, key, i as int);
            }
            let p = pending.remove(i);
            assert(outstanding(pending@) =~= outstanding(before).remove(id@));
            return Some(p.kind);
        }
        i += 1;
    }
    assert(outstanding(before).remove(id@) =~= outstanding(before));
    None
}

/// Notes a request that is passed on.
pub fn add_pending(pending: &mut Vec<Pending>, id: String, kind: PendingKind)
    requires
        pending_wf(old(pending)@),
    ensures
        pending_wf(final(pending)@),
        outstanding(final(pending)@) == outstanding(old(pending)@).insert(id@, kind),
{
    let ghost before = pending@;
    let _older = take_pending(pending, id.as_str());
    let ghost cleared = pending@;
    let p = Pending { id, kind };
    proof {
        assert(!outstanding(cleared).dom().contains(p.id@));
        lemma_keyed_pushed(cleared, pending_id(), p);
    }
    let ghost pv = p;
    pending.push(p);
    assert(pending@ =~= cleared.push(pv));
    assert(outstanding(pending@) =~= outstanding(cleared).insert(pv.id@, kind));
    assert(outstanding(cleared).insert(pv.id@, kind) =~= outstanding(before).insert(pv.id@, kind));
}

/// Passes a command on: its request is noted, and is to be written to the
/// transcriber. Other commands are dropped.
pub fn begin_request(pending: &mut Vec<Pending>, command: WorkerCommand) -> (r: Option<
    ResidentRequest,
>)
    requires
        pending_wf(old(pending)@),
    ensures
        pending_wf(final(pending)@),
        match command.asks() {
            Some(ask) => r == Some(ask.1) && outstanding(final(pending)@) == outstanding(
                old(pending)@,
            ).insert(ask.1.id@, ask.0),
            None => r is None && final(pending)@ == old(pending)@,
        },
{
    match command {
        WorkerCommand::Transcribe { request } => {
            add_pending(pending, request.id.clone(), PendingKind::Transcribe);
            Some(request)
        },
        WorkerCommand::Health { request } => {
            add_pending(pending, request.id.clone(), PendingKind::Health);
            Some(request)
        },
        _ => None,
    }
}

/// Fails an outstanding request.
pub fn fail_pending(pending: &mut Vec<Pending>, id: &str, message: &str) -> (r: Option<Reply>)
    requires
        pending_wf(old(pending)@),
    ensures
        pending_wf(final(pending)@),
        outstanding(final(pending)@) == outstanding(old(pending)@).remove(id@),
        match r {
            Some(reply) => outstanding(old(pending)@).dom().contains(id@) && reply.says(
                id@,
                outstanding(old(pending)@)[id@],
                AnswerView::Failed(message@),
            ),
            None => !outstanding(old(pending)@).dom().contains(id@),
        },
{
    match take_pending(pending, id) {
        Some(kind) => Some(
            Reply { id: id.to_owned(), kind, answer: Answer::Failed(message.to_owned()) },
        ),
        None => None,
    }
}

/// The request that a report settles, if it is about one.
pub open spec fn settles(event: EventView) -> Option<Seq<char>> {
    match event {
        EventView::Ready => None,
        EventView::Pong(id) => Some(id),
        EventView::Result(id, text, model) => Some(id),
        EventView::Error(id, message) => id,
        EventView::Fatal(message) => None,
    }
}

/// The answer that a report gives to a caller who waits for `kind`.
pub open spec fn answers(event: EventView, kind: PendingKind) -> Option<AnswerView> {
    match event {
        EventView::Pong(id) => if kind == PendingKind::Health {
            Some(AnswerView::Alive)
        } else {
            None
        },
        EventView::Result(id, text, model) => if kind == PendingKind::Transcribe {
            Some(AnswerView::Text(text))
        } else {
            None
        },
        EventView::Error(id, message) => Some(AnswerView::Failed(message)),
        _ => None,
    }
}

/// The outstanding requests after a report.
pub open spec fn after_event(
    pending: Map<Seq<char>, PendingKind>,
    event: EventView,
) -> Map<Seq<char>, PendingKind> {
    match settles(event) {
        Some(id) => pending.remove(id),
        None => pending,
    }
}

/// The answer that a report leads to.
pub open spec fn event_reply(
    pending: Map<Seq<char>, PendingKind>,
    event: EventView,
) -> Option<(Seq<char>, PendingKind, AnswerView)> {
    match settles(event) {
        Some(id) => if pending.dom().contains(id) {
            match answers(event, pending[id]) {
                Some(a) => Some((id, pending[id], a)),
                None => None,
            }
        } else {
            None
        },
        None => None,
    }
}

/// Takes a report in. Gives the answer that it leads to, and says whether the
/// transcriber has to be replaced.
pub fn handle_event(event: ResidentEvent, pending: &mut Vec<Pending>) -> (r: (bool, Option<Reply>))
    requires
        pending_wf(old(pending)@),
    ensures
        pending_wf(final(pending)@),
        r.0 == (event is Fatal),
        outstanding(final(pending)@) == after_event(outstanding(old(pending)@), event@),
        match event_reply(outstanding(old(pending)@), event@) {
            Some(e) => r.1 is Some && r.1->0.says(e.0, e.1, e.2),
            None => r.1 is None,
        },
{
    match event {
        ResidentEvent::Result { id, text, model: _ } => match take_pending(pending, id.as_str()) {
            Some(kind) => if kind == PendingKind::Transcribe {
                (false, Some(Reply { id, kind, answer: Answer::Text(text) }))
            } else {
                (false, None)
            },
            None => (false, None),
        },
        ResidentEvent::Error { id: Some(id), message } => {
            let reply = fail_pending(pending, id.as_str(), message.as_str());
            (false, reply)
        },
        ResidentEvent::Error { id: None, message: _ } => (false, None),
        ResidentEvent::Fatal { message: _ } => (true, None),
        ResidentEvent::Pong { id } => match take_pending(pending, id.as_str()) {
            Some(kind) => if kind == PendingKind::Health {
                (false, Some(Reply { id, kind, answer: Answer::Alive }))
            } else {
                (false, None)
            },
            None => (false, None),
        },
        ResidentEvent::Ready => (false, None),
    }
}

/// Fails every outstanding request.
pub fn fail_all(pending: &mut Vec<Pending>, message: &str) -> (r: Vec<Reply>)
    ensures
        final(pending)@.len() == 0,
        r@.len() == old(pending)@.len(),
        forall|i: int|
            0 <= i < r@.len() ==> (#[trigger] r@[i]).says(
                old(pending)@[i].id@,
                old(pending)@[i].kind,
                AnswerView::Failed(message@),
            ),
{
    let ghost before = pending@;
    let mut out: Vec<Reply> = Vec::new();
    let mut i: usize = 0;
    while i < pending.len()
        invariant
            i <= pending@.len(),
            pending@ == before,
            out@.len() == i,
            forall|k: int|
                0 <= k < i ==> (#[trigger] out@[k]).says(
                    before[k].id@,
                    before[k].kind,
                    AnswerView::Failed(message@),
                ),
        decreases pending@.len() - i,
    {
        out.push(
            Reply {
                id: pending[i].id.clone(),
                kind: pending[i].kind,
                answer: Answer::Failed(message.to_owned()),
            },
        );
        i += 1;
    }
    pending.clear();
    out
}

/// What the caller of a cancelled request is told.
pub open spec fn cancelled() -> Seq<char> {
    "resident Parakeet request cancelled"@
}

/// Cancels an outstanding request.
pub fn cancel_pending(pending: &mut Vec<Pending>, id: &str) -> (r: Option<Reply>)
    requires
        pending_wf(old(pending)@),
    ensures
        pending_wf(final(pending)@),
        outstanding(final(pending)@) == outstanding(old(pending)@).remove(id@),
        match r {
            Some(reply) => outstanding(old(pending)@).dom().contains(id@) && reply.says(
                id@,
                outstanding(old(pending)@)[id@],
                AnswerView::Failed(cancelled()),
            ),
            None => !outstanding(old(pending)@).dom().contains(id@),
        },
{
    fail_pending(pending, id, "resident Parakeet request cancelled")
}

/// Turns a command down. Only the callers of requests are told.
pub fn reject_command(command: WorkerCommand, message: &str) -> (r: Option<Reply>)
    ensures
        match command.asks() {
            Some(ask) => r is Some && r->0.says(
                ask.1.id@,
                ask.0,
                AnswerView::Failed(message@),
            ),
            None => r is None,
        },
{
    match command {
        WorkerCommand::Transcribe { request } => Some(
            Reply {
                id: request.id,
                kind: PendingKind::Transcribe,
                answer: Answer::Failed(message.to_owned()),
            },
        ),
        WorkerCommand::Health { request } => Some(
            Reply {
                id: request.id,
                kind: PendingKind::Health,
                answer: Answer::Failed(message.to_owned()),
            },
        ),
        _ => None,
    }
}

/// A request is settled once: after its answer, a second report about it
/// answers nobody.
pub proof fn law_settled_once(pending: Map<Seq<char>, PendingKind>, event: EventView, later: EventView)
    requires
        settles(event) is Some,
        settles(later) == settles(event),
    ensures
        event_reply(after_event(pending, event), later) is None,
{
}

/// Bytes are taken in line by line: what stands before a line feed is a line, unless it is
/// empty; what stands behind the last one is not complete yet.
pub proof fn law_line_by_line(line: Seq<u8>, rest: Seq<u8>)
    requires
        !line.contains(10u8),
    ensures
        full_lines(line + seq![10u8] + rest) == if line.len() == 0 {
            full_lines(rest)
        } else {
            seq![line] + full_lines(rest)
        },
        open_line(line + seq![10u8] + rest) == open_line(rest),
        full_lines(line).len() == 0,
        open_line(line) == line,
{
    let all = line + seq![10u8] + rest;
    let n = line.len() as int;
    assert(all[n] == 10);
    assert forall|k: int| 0 <= k < n implies all[k] != 10 && line[k] != 10 by {
        assert(line.contains(line[k]));
    }
    lemma_line_end(all);
    lemma_line_end(line);
    assert(line_end(all) == n && line_end(line) == n);
    assert(all.take(n) =~= line);
    assert(all.skip(n + 1) =~= rest);
}

/// A report that is an object is read by its type, with the fields of that type.
pub proof fn law_report_is_read(entries: Vec<(String, Json)>, kind: String, id: String, text: String, more: String)
    requires
        entry_of(entries@, "type"@) == Some(Json::Text(kind)),
    ensures
        ({
            let e = entries@;
            let r = event_of(Json::Object(entries));
            &&& kind@ == "ready"@ ==> r == Ok::<EventView, Seq<char>>(EventView::Ready)
            &&& kind@ == "pong"@ && entry_of(e, "id"@) == Some(Json::Text(id)) ==> r == Ok::<
                EventView,
                Seq<char>,
            >(EventView::Pong(id@))
            &&& kind@ == "result"@ && entry_of(e, "id"@) == Some(Json::Text(id)) && entry_of(
                e,
                "text"@,
            ) == Some(Json::Text(text)) && entry_of(e, "model"@) == Some(Json::Text(more)) ==> r
                == Ok::<EventView, Seq<char>>(EventView::Result(id@, text@, more@))
            &&& kind@ == "error"@ && entry_of(e, "id"@) is None && entry_of(e, "message"@) == Some(
                Json::Text(text),
            ) ==> r == Ok::<EventView, Seq<char>>(EventView::Error(None, text@))
            &&& kind@ == "error"@ && entry_of(e, "id"@) == Some(Json::Text(id)) && entry_of(
                e,
                "message"@,
            ) == Some(Json::Text(text)) ==> r == Ok::<EventView, Seq<char>>(
                EventView::Error(Some(id@), text@),
            )
            &&& kind@ == "fatal"@ && entry_of(e, "message"@) == Some(Json::Text(text)) ==> r
                == Ok::<EventView, Seq<char>>(EventView::Fatal(text@))
            &&& kind@ != "ready"@ && kind@ != "pong"@ && kind@ != "result"@ && kind@ != "error"@
                && kind@ != "fatal"@ ==> r is Err
        }),
{
    reveal_strlit("ready");
    reveal_strlit("pong");
    reveal_strlit("result");
    reveal_strlit("error");
    reveal_strlit("fatal");
    assert("ready"@.len() == 5 && "ready"@[0] == 'r');
    assert("pong"@.len() == 4 && "result"@.len() == 6);
    assert("error"@.len() == 5 && "error"@[0] == 'e');
    assert("fatal"@.len() == 5 && "fatal"@[0] == 'f');
}

/// A line that is refused is no report; any other means what it says, each in its place.
pub proof fn law_lines_keep_their_places(
    lines: Seq<Seq<u8>>,
    refusals: Seq<Option<String>>,
    i: int,
)
    requires
        0 <= i < lines.len(),
    ensures
        lines_events(lines, refusals).len() == lines.len(),
        i >= refusals.len() || refusals[i] is None ==> lines_events(lines, refusals)[i]
            == line_event(lines[i]),
        i < refusals.len() ==> (refusals[i] matches Some(m) ==> lines_events(lines, refusals)[i]
            == Err::<EventView, Seq<char>>(m@)),
{
}

/// A report answers the request that it names, with what it says, if it is of the kind that
/// the request waits for; every other request stays outstanding.
pub proof fn law_reply_is_to_its_request(
    pending: Map<Seq<char>, PendingKind>,
    id: Seq<char>,
    text: Seq<char>,
    model: Seq<char>,
    other: Seq<char>,
)
    ensures
        pending.dom().contains(id) && pending[id] == PendingKind::Health ==> event_reply(
            pending,
            EventView::Pong(id),
        ) == Some((id, PendingKind::Health, AnswerView::Alive)) && event_reply(
            pending,
            EventView::Result(id, text, model),
        ) is None,
        pending.dom().contains(id) && pending[id] == PendingKind::Transcribe ==> event_reply(
            pending,
            EventView::Result(id, text, model),
        ) == Some((id, PendingKind::Transcribe, AnswerView::Text(text))) && event_reply(
            pending,
            EventView::Pong(id),
        ) is None,
        pending.dom().contains(id) ==> event_reply(pending, EventView::Error(Some(id), text))
            == Some((id, pending[id], AnswerView::Failed(text))),
        event_reply(pending, EventView::Error(None, text)) is None,
        event_reply(pending, EventView::Ready) is None,
        event_reply(pending, EventView::Fatal(text)) is None,
        forall|event: EventView|
            !pending.dom().contains(id) && #[trigger] settles(event) == Some(id) ==> event_reply(
                pending,
                event,
            ) is None,
        forall|event: EventView|
            #[trigger] settles(event) != Some(other) ==> (after_event(pending, event).dom().contains(
                other,
            ) <==> pending.dom().contains(other)) && (pending.dom().contains(other)
                ==> after_event(pending, event)[other] == pending[other]),
        forall|event: EventView|
            #[trigger] settles(event) == Some(id) ==> !after_event(pending, event).dom().contains(
                id,
            ),
        settles(EventView::Pong(id)) == Some(id),
        settles(EventView::Result(id, text, model)) == Some(id),
        settles(EventView::Error(Some(id), text)) == Some(id),
{
}

/// A transcription and a cancellation are passed on whatever goes on; a health check is
/// passed on only to a transcriber that is ready and idle, refused by one that is not
/// ready, and answered for one that is busy.
pub proof fn law_health_check(request: ResidentRequest, busy: bool, r: ControlResult)
    ensures
        controlled(WorkerCommand::Health { request }, true, false, r) ==> r
            == ControlResult::Forward(WorkerCommand::Health { request }),
        controlled(WorkerCommand::Health { request }, true, true, r) ==> (r matches
            ControlResult::Handled(reply) && reply.id@ == request.id@ && reply.answer@
            == AnswerView::Alive),
        controlled(WorkerCommand::Health { request }, false, busy, r) ==> (r matches
            ControlResult::Handled(reply) && reply.id@ == request.id@ && reply.answer@
            == AnswerView::Failed("resident Parakeet is not ready"@)),
        forall|ready: bool|
            #[trigger] controlled(WorkerCommand::Transcribe { request }, ready, busy, r) ==> r
                == ControlResult::Forward(WorkerCommand::Transcribe { request }),
        forall|ready: bool|
            #[trigger] controlled(WorkerCommand::Shutdown, ready, busy, r) ==> r is Shutdown,
{
}

} // verus!
