//! Keeping the resident transcriber alive: loading, serving, restarting.

use crate::parakeet_worker::protocol::{
    after_event, answers, begin_request, cancel_pending, cancelled, event_reply, full_lines,
    handle_control, handle_event, lines_events, open_line, outstanding, pending_wf, read_view,
    reads_view, reject_command, settles, AnswerView, ControlResult, EventView, NdjsonBuffer,
    Pending, PendingKind, Reply, ResidentEvent, ResidentRequest, WorkerCommand,
};
use crate::text::same;
use vstd::prelude::*;

verus! {

/// Why serving ended.
#[derive(Clone, Copy, Debug, PartialEq, Eq, Structural)]
pub enum ServeExit {
    Shutdown,
    /// Start another transcriber after a while.
    Restart,
    /// Start another transcriber at once.
    RestartNow,
}

/// How loading ended.
#[derive(Clone, Copy, Debug, PartialEq, Eq, Structural)]
pub enum StartupExit {
    Ready,
    Shutdown,
    Restart,
    RestartNow,
}

/// What comes next for the supervisor.
#[derive(Clone, Copy, Debug, PartialEq, Eq, Structural)]
pub enum NextMove {
    /// Request a warm-up and serve.
    Serve,
    /// The supervisor ends.
    Stop,
    /// Start another transcriber at once.
    Respawn,
    /// Start another transcriber after a while.
    RespawnLater,
}

/// What follows the end of loading. Queued commands are turned down only where
/// the transcriber failed.
pub fn after_startup(exit: StartupExit) -> (r: (NextMove, bool))
    ensures
        r == match exit {
            StartupExit::Ready => (NextMove::Serve, false),
            StartupExit::Shutdown => (NextMove::Stop, false),
            StartupExit::RestartNow => (NextMove::Respawn, false),
            StartupExit::Restart => (NextMove::RespawnLater, true),
        },
{
    match exit {
        StartupExit::Ready => (NextMove::Serve, false),
        StartupExit::Shutdown => (NextMove::Stop, false),
        StartupExit::RestartNow => (NextMove::Respawn, false),
        StartupExit::Restart => (NextMove::RespawnLater, true),
    }
}

/// What follows the end of serving.
pub fn after_serve(exit: ServeExit) -> (r: NextMove)
    ensures
        r == match exit {
            ServeExit::Shutdown => NextMove::Stop,
            ServeExit::RestartNow => NextMove::Respawn,
            ServeExit::Restart => NextMove::RespawnLater,
        },
{
    match exit {
        ServeExit::Shutdown => NextMove::Stop,
        ServeExit::RestartNow => NextMove::Respawn,
        ServeExit::Restart => NextMove::RespawnLater,
    }
}

/// How loading ends with the reports from `i` on: with the first that says that
/// the transcriber is ready, or cannot go on.
pub open spec fn startup_end(
    events: Seq<Result<EventView, Seq<char>>>,
    i: int,
) -> Option<StartupExit>
    decreases events.len() - i,
{
    if i >= events.len() {
        None
    } else {
        match events[i] {
            Ok(EventView::Ready) => Some(StartupExit::Ready),
            Ok(EventView::Fatal(m)) => Some(StartupExit::Restart),
            _ => startup_end(events, i + 1),
        }
    }
}

/// Takes in the reports of a transcriber that is loading.
pub fn startup_output(events: &Vec<Result<ResidentEvent, String>>) -> (r: Option<StartupExit>)
    ensures
        r == startup_end(reads_view(events@), 0),
{
    let ghost all = reads_view(events@);
    let mut i: usize = 0;
    while i < events.len()
        invariant
            i <= events@.len(),
            all == reads_view(events@),
            startup_end(all, 0) == startup_end(all, i as int),
        decreases events@.len() - i,
    {
        assert(all[i as int] == read_view(events@[i as int]));
        match &events[i] {
            Ok(ResidentEvent::Ready) => {
                return Some(StartupExit::Ready);
            },
            Ok(ResidentEvent::Fatal { message: _ }) => {
                return Some(StartupExit::Restart);
            },
            _ => {},
        }
        i += 1;
    }
    None
}

/// The commands that carry the request `id`.
pub open spec fn carries(id: Seq<char>) -> spec_fn(WorkerCommand) -> bool {
    |c: WorkerCommand| match c.asks() {
        Some(ask) => ask.1.id@ == id,
        None => false,
    }
}

fn is_carrying(command: &WorkerCommand, id: &str) -> (r: bool)
    ensures
        r == carries(id@)(*command),
{
    match command {
        WorkerCommand::Transcribe { request } => same(request.id.as_str(), id),
        WorkerCommand::Health { request } => same(request.id.as_str(), id),
        _ => false,
    }
}

/// Cancels the first queued command that carries the request `id`.
pub fn cancel_queued(queued: &mut Vec<WorkerCommand>, id: &str) -> (r: Option<Reply>)
    ensures
        match crate::seqs::first_index(old(queued)@, carries(id@), 0) {
            Some(i) => {
                &&& final(queued)@ == old(queued)@.remove(i)
                &&& r is Some
                &&& r->0.says(
                    id@,
                    (old(queued)@[i].asks()->0).0,
                    AnswerView::Failed(cancelled()),
                )
            },
            None => r is None && final(queued)@ == old(queued)@,
        },
{
    let ghost before = queued@;
    let ghost p = carries(id@);
    let mut i: usize = 0;
    while i < queued.len()
        invariant
            i <= queued@.len(),
            queued@ == before,
            before == old(queued)@,
            p == carries(id@),
            crate::seqs::first_index(before, p, 0) == crate::seqs::first_index(
                before,
                p,
                i as int,
            ),
        decreases queued@.len() - i,
    {
        if is_carrying(&queued[i], id) {
            let command = queued.remove(i);
            return reject_command(command, "resident Parakeet request cancelled");
        }
        i += 1;
    }
    None
}

/// What a command leads to.
#[derive(Debug)]
pub struct Handling<E> {
    /// Loading or serving ends.
    pub exit: Option<E>,
    pub reply: Option<Reply>,
    /// To be written to the transcriber.
    pub write: Option<ResidentRequest>,
}

/// Takes in a command while the transcriber is loading: requests wait, health
/// checks are turned down, and a cancelled request that waited may ask for
/// another transcriber.
pub fn startup_command(queued: &mut Vec<WorkerCommand>, command: WorkerCommand) -> (r: Handling<
    StartupExit,
>)
    ensures
        r.write is None,
        match command {
            WorkerCommand::Shutdown => r.exit == Some(StartupExit::Shutdown) && r.reply is None
                && final(queued)@ == old(queued)@,
            WorkerCommand::Transcribe { request } => r.exit is None && r.reply is None
                && final(queued)@ == old(queued)@.push(command),
            WorkerCommand::Health { request } => r.exit is None && final(queued)@ == old(queued)@
                && r.reply is Some && r.reply->0.says(
                request.id@,
                PendingKind::Health,
                AnswerView::Failed(crate::parakeet_worker::protocol::not_ready()),
            ),
            WorkerCommand::Cancel { id, restart_if_queued } => match crate::seqs::first_index(
                old(queued)@,
                carries(id@),
                0,
            ) {
                Some(i) => {
                    &&& final(queued)@ == old(queued)@.remove(i)
                    &&& r.reply is Some
                    &&& r.reply->0.says(
                        id@,
                        (old(queued)@[i].asks()->0).0,
                        AnswerView::Failed(cancelled()),
                    )
                    &&& r.exit == if restart_if_queued {
                        Some(StartupExit::RestartNow)
                    } else {
                        None
                    }
                },
                None => r.exit is None && r.reply is None && final(queued)@ == old(queued)@,
            },
        },
{
    match handle_control(command, false, false) {
        ControlResult::Handled(reply) => Handling { exit: None, reply: Some(reply), write: None },
        ControlResult::Cancel { id, restart_if_queued } => {
            let reply = cancel_queued(queued, id.as_str());
            let exit = if reply.is_some() && restart_if_queued {
                Some(StartupExit::RestartNow)
            } else {
                None
            };
            Handling { exit, reply, write: None }
        },
        ControlResult::Shutdown => Handling {
            exit: Some(StartupExit::Shutdown),
            reply: None,
            write: None,
        },
        ControlResult::Forward(command) => {
            queued.push(command);
            Handling { exit: None, reply: None, write: None }
        },
    }
}

/// A transcription is outstanding.
pub open spec fn busy_with(pending: Seq<Pending>) -> bool {
    exists|i: int|
        0 <= i < pending.len() && (#[trigger] pending[i]).kind == PendingKind::Transcribe
}

fn is_busy(pending: &Vec<Pending>) -> (r: bool)
    ensures
        r == busy_with(pending@),
{
    let mut i: usize = 0;
    while i < pending.len()
        invariant
            i <= pending@.len(),
            forall|k: int|
                0 <= k < i ==> (#[trigger] pending@[k]).kind != PendingKind::Transcribe,
        decreases pending@.len() - i,
    {
        if pending[i].kind == PendingKind::Transcribe {
            return true;
        }
        i += 1;
    }
    false
}

/// Cancels an outstanding request. The transcriber cannot stop in the middle,
/// so that it has to be replaced whenever there was one.
pub fn active_cancel_outcome(pending: &mut Vec<Pending>, id: &str) -> (r: (Option<ServeExit>, Option<
    Reply,
>))
    requires
        pending_wf(old(pending)@),
    ensures
        pending_wf(final(pending)@),
        outstanding(final(pending)@) == outstanding(old(pending)@).remove(id@),
        r.0 == if outstanding(old(pending)@).dom().contains(id@) {
            Some(ServeExit::RestartNow)
        } else {
            None
        },
        r.1 is Some == outstanding(old(pending)@).dom().contains(id@),
        r.1 is Some ==> r.1->0.says(
            id@,
            outstanding(old(pending)@)[id@],
            AnswerView::Failed(cancelled()),
        ),
{
    match cancel_pending(pending, id) {
        Some(reply) => (Some(ServeExit::RestartNow), Some(reply)),
        None => (None, None),
    }
}

/// Takes in a command while the transcriber serves.
pub fn dispatch(pending: &mut Vec<Pending>, command: WorkerCommand) -> (r: Handling<ServeExit>)
    requires
        pending_wf(old(pending)@),
    ensures
        pending_wf(final(pending)@),
        match command {
            WorkerCommand::Shutdown => r.exit == Some(ServeExit::Shutdown) && r.reply is None
                && r.write is None && final(pending)@ == old(pending)@,
            WorkerCommand::Transcribe { request } => r.exit is None && r.reply is None && r.write
                == Some(request) && outstanding(final(pending)@) == outstanding(
                old(pending)@,
            ).insert(request.id@, PendingKind::Transcribe),
            WorkerCommand::Health { request } => if busy_with(old(pending)@) {
                r.exit is None && r.write is None && final(pending)@ == old(pending)@
                    && r.reply is Some && r.reply->0.says(
                    request.id@,
                    PendingKind::Health,
                    AnswerView::Alive,
                )
            } else {
                r.exit is None && r.reply is None && r.write == Some(request)
                    && outstanding(final(pending)@) == outstanding(old(pending)@).insert(
                    request.id@,
                    PendingKind::Health,
                )
            },
            WorkerCommand::Cancel { id, restart_if_queued } => {
                &&& r.write is None
                &&& outstanding(final(pending)@) == outstanding(old(pending)@).remove(id@)
                &&& r.exit == if outstanding(old(pending)@).dom().contains(id@) {
                    Some(ServeExit::RestartNow)
                } else {
                    None
                }
                &&& r.reply is Some == outstanding(old(pending)@).dom().contains(id@)
                &&& r.reply is Some ==> r.reply->0.says(
                    id@,
                    outstanding(old(pending)@)[id@],
                    AnswerView::Failed(cancelled()),
                )
            },
        },
{
    let busy = is_busy(pending);
    match handle_control(command, true, busy) {
        ControlResult::Handled(reply) => Handling { exit: None, reply: Some(reply), write: None },
        ControlResult::Cancel { id, restart_if_queued: _ } => {
            let (exit, reply) = active_cancel_outcome(pending, id.as_str());
            Handling { exit, reply, write: None }
        },
        ControlResult::Shutdown => Handling {
            exit: Some(ServeExit::Shutdown),
            reply: None,
            write: None,
        },
        ControlResult::Forward(command) => {
            let write = begin_request(pending, command);
            Handling { exit: None, reply: None, write }
        },
    }
}

/// A reply in mathematical terms.
pub type ReplyView = (Seq<char>, PendingKind, AnswerView);

/// Replies in mathematical terms.
pub open spec fn replies_view(replies: Seq<Reply>) -> Seq<ReplyView> {
    replies.map_values(|r: Reply| (r.id@, r.kind, r.answer@))
}

/// The outstanding requests and the replies after the reports up to `n`, and
/// whether one of them ended the transcriber; what comes after that is lost.
pub open spec fn served(
    pending: Map<Seq<char>, PendingKind>,
    events: Seq<Result<EventView, Seq<char>>>,
    n: int,
) -> (Map<Seq<char>, PendingKind>, Seq<ReplyView>, bool)
    decreases n,
{
    if n <= 0 {
        (pending, Seq::empty(), false)
    } else {
        let before = served(pending, events, n - 1);
        if before.2 {
            before
        } else {
            match events[n - 1] {
                Ok(event) => (
                    after_event(before.0, event),
                    match event_reply(before.0, event) {
                        Some(r) => before.1.push(r),
                        None => before.1,
                    },
                    event is Fatal,
                ),
                Err(m) => before,
            }
        }
    }
}

proof fn lemma_served_ended(
    pending: Map<Seq<char>, PendingKind>,
    events: Seq<Result<EventView, Seq<char>>>,
    i: int,
    n: int,
)
    requires
        i <= n,
        served(pending, events, i).2,
    ensures
        served(pending, events, n) == served(pending, events, i),
    decreases n - i,
{
    if i < n {
        lemma_served_ended(pending, events, i, n - 1);
    }
}

/// Takes in the reports of a transcriber that serves. Gives the replies, and
/// `Restart` where it cannot go on.
pub fn serve_output(events: Vec<Result<ResidentEvent, String>>, pending: &mut Vec<Pending>) -> (r: (
    Option<ServeExit>,
    Vec<Reply>,
))
    requires
        pending_wf(old(pending)@),
    ensures
        pending_wf(final(pending)@),
        ({
            let s = served(
                outstanding(old(pending)@),
                reads_view(events@),
                events@.len() as int,
            );
            &&& outstanding(final(pending)@) == s.0
            &&& replies_view(r.1@) == s.1
            &&& r.0 == if s.2 {
                Some(ServeExit::Restart)
            } else {
                None
            }
        }),
{
    let ghost all = reads_view(events@);
    let ghost source = events@;
    let ghost start = outstanding(pending@);
    let n: usize = events.len();
    let mut rest = events;
    let mut out: Vec<Reply> = Vec::new();
    let mut i: usize = 0;
    assert(source.skip(0) =~= source);
    assert(replies_view(out@) =~= Seq::empty());
    while i < n
        invariant
            i <= n,
            n == source.len(),
            source == events@,
            all == reads_view(source),
            rest@ == source.skip(i as int),
            pending_wf(pending@),
            start == outstanding(old(pending)@),
            served(start, all, i as int) == (outstanding(pending@), replies_view(out@), false),
        decreases n - i,
    {
        let event = rest.remove(0);
        assert(source.skip(i as int)[0] == source[i as int]);
        assert(source.skip(i as int).remove(0) =~= source.skip(i as int + 1));
        assert(all[i as int] == read_view(source[i as int]));
        match event {
            Ok(e) => {
                let ghost before = out@;
                let (fatal, reply) = handle_event(e, pending);
                match reply {
                    Some(answer) => {
                        let ghost v = (answer.id@, answer.kind, answer.answer@);
                        out.push(answer);
                        assert(replies_view(out@) =~= replies_view(before).push(v));
                    },
                    None => {},
                }
                if fatal {
                    proof {
                        lemma_served_ended(start, all, i as int + 1, n as int);
                    }
                    return (Some(ServeExit::Restart), out);
                }
            },
            Err(_) => {},
        }
        i += 1;
    }
    (None, out)
}

/// Takes in a command while waiting to start another transcriber. Says whether
/// the supervisor ends.
pub fn backoff_command(command: WorkerCommand) -> (r: (bool, Option<Reply>))
    ensures
        r.0 == (command is Shutdown),
        match command {
            WorkerCommand::Transcribe { request } => r.1 is Some && r.1->0.says(
                request.id@,
                PendingKind::Transcribe,
                AnswerView::Failed("resident Parakeet is restarting"@),
            ),
            WorkerCommand::Health { request } => r.1 is Some && r.1->0.says(
                request.id@,
                PendingKind::Health,
                AnswerView::Failed(crate::parakeet_worker::protocol::not_ready()),
            ),
            _ => r.1 is None,
        },
{
    match handle_control(command, false, false) {
        ControlResult::Handled(reply) => (false, Some(reply)),
        ControlResult::Cancel { id: _, restart_if_queued: _ } => (false, None),
        ControlResult::Shutdown => (true, None),
        ControlResult::Forward(command) => (
            false,
            reject_command(command, "resident Parakeet is restarting"),
        ),
    }
}

/// Turns down everything that is queued.
pub fn reject_queued(queued: Vec<WorkerCommand>, message: &str) -> (r: Vec<Reply>)
    ensures
        r@.len() <= queued@.len(),
        replies_view(r@) == rejections(queued@, message@, queued@.len() as int),
{
    let ghost all = queued@;
    let n: usize = queued.len();
    let mut rest = queued;
    let mut out: Vec<Reply> = Vec::new();
    let mut i: usize = 0;
    assert(all.skip(0) =~= all);
    assert(replies_view(out@) =~= Seq::empty());
    while i < n
        invariant
            i <= n,
            n == all.len(),
            rest@ == all.skip(i as int),
            out@.len() <= i,
            replies_view(out@) == rejections(all, message@, i as int),
        decreases n - i,
    {
        let command = rest.remove(0);
        assert(all.skip(i as int)[0] == all[i as int]);
        assert(all.skip(i as int).remove(0) =~= all.skip(i as int + 1));
        match reject_command(command, message) {
            Some(reply) => {
                let ghost before = out@;
                let ghost v = (reply.id@, reply.kind, reply.answer@);
                out.push(reply);
                assert(replies_view(out@) =~= replies_view(before).push(v));
            },
            None => {},
        }
        i += 1;
    }
    out
}

/// What the callers of the first `n` commands are told when they are turned down.
pub open spec fn rejections(
    queued: Seq<WorkerCommand>,
    message: Seq<char>,
    n: int,
) -> Seq<ReplyView>
    decreases n,
{
    if n <= 0 {
        Seq::empty()
    } else {
        match queued[n - 1].asks() {
            Some(ask) => rejections(queued, message, n - 1).push(
                (ask.1.id@, ask.0, AnswerView::Failed(message)),
            ),
            None => rejections(queued, message, n - 1),
        }
    }
}

/// What the process of the transcriber does.
#[derive(Debug)]
pub enum ProcessEvent {
    Stdout(Vec<u8>),
    Stderr(Vec<u8>),
    Error(String),
    Terminated,
    /// Its channel is closed.
    Gone,
    Other,
}

impl ProcessEvent {
    /// The process is no longer of use.
    pub open spec fn ends(self) -> bool {
        self is Error || self is Terminated || self is Gone
    }

    /// The reports that the event completes, after what came in before.
    pub open spec fn reports(self, before: Seq<u8>, refusals: Seq<Option<String>>) -> Seq<
        Result<EventView, Seq<char>>,
    > {
        match self {
            ProcessEvent::Stdout(chunk) => lines_events(full_lines(before + chunk@), refusals),
            _ => Seq::empty(),
        }
    }

    /// What is left of an unfinished line.
    pub open spec fn rest(self, before: Seq<u8>) -> Seq<u8> {
        match self {
            ProcessEvent::Stdout(chunk) => open_line(before + chunk@),
            _ => before,
        }
    }
}

/// Takes in what the process does while the transcriber is loading. `refusals` is what
/// a reader of typed reports has against the lines that the event completes.
pub fn startup_event(
    buffer: &mut NdjsonBuffer,
    event: ProcessEvent,
    refusals: &Vec<Option<String>>,
) -> (r: Option<StartupExit>)
    ensures
        final(buffer).bytes@ == event.rest(old(buffer).bytes@),
        r == if event.ends() {
            Some(StartupExit::Restart)
        } else {
            startup_end(event.reports(old(buffer).bytes@, refusals@), 0)
        },
{
    match event {
        ProcessEvent::Stdout(chunk) => {
            let events = buffer.push_checked(&chunk, refusals);
            startup_output(&events)
        },
        ProcessEvent::Stderr(_) => None,
        ProcessEvent::Error(_) => Some(StartupExit::Restart),
        ProcessEvent::Terminated => Some(StartupExit::Restart),
        ProcessEvent::Gone => Some(StartupExit::Restart),
        ProcessEvent::Other => None,
    }
}

/// Takes in what the process does while the transcriber serves. `refusals` is what a
/// reader of typed reports has against the lines that the event completes.
pub fn serve_event(
    buffer: &mut NdjsonBuffer,
    event: ProcessEvent,
    refusals: &Vec<Option<String>>,
    pending: &mut Vec<Pending>,
) -> (r: (Option<ServeExit>, Vec<Reply>))
    requires
        pending_wf(old(pending)@),
    ensures
        pending_wf(final(pending)@),
        final(buffer).bytes@ == event.rest(old(buffer).bytes@),
        ({
            let reports = event.reports(old(buffer).bytes@, refusals@);
            let s = served(outstanding(old(pending)@), reports, reports.len() as int);
            &&& outstanding(final(pending)@) == s.0
            &&& replies_view(r.1@) == s.1
            &&& r.0 == if event.ends() || s.2 {
                Some(ServeExit::Restart)
            } else {
                None
            }
        }),
{
    let none: Vec<Reply> = Vec::new();
    assert(replies_view(none@) =~= Seq::empty());
    match event {
        ProcessEvent::Stdout(chunk) => {
            let events = buffer.push_checked(&chunk, refusals);
            serve_output(events, pending)
        },
        ProcessEvent::Stderr(_) => (None, none),
        ProcessEvent::Error(_) => (Some(ServeExit::Restart), none),
        ProcessEvent::Terminated => (Some(ServeExit::Restart), none),
        ProcessEvent::Gone => (Some(ServeExit::Restart), none),
        ProcessEvent::Other => (None, none),
    }
}

/// No request is lost: while the transcriber gives the kind of report that a request
/// waits for, the request is either still outstanding or has been answered.
pub proof fn law_no_request_is_lost(
    pending: Map<Seq<char>, PendingKind>,
    events: Seq<Result<EventView, Seq<char>>>,
    n: int,
    id: Seq<char>,
)
    requires
        0 <= n <= events.len(),
        pending.dom().contains(id),
        forall|k: int|
            0 <= k < n && (#[trigger] events[k]) is Ok && settles(events[k]->Ok_0) == Some(id)
                ==> answers(events[k]->Ok_0, pending[id]) is Some,
    ensures
        served(pending, events, n).0.dom().contains(id) ==> served(pending, events, n).0[id]
            == pending[id],
        served(pending, events, n).0.dom().contains(id) || exists|k: int|
            0 <= k < served(pending, events, n).1.len() && (#[trigger] served(
                pending,
                events,
                n,
            ).1[k]).0 == id,
    decreases n,
{
    if n > 0 {
        law_no_request_is_lost(pending, events, n - 1, id);
        let before = served(pending, events, n - 1);
        let after = served(pending, events, n);
        if !before.2 {
            if !before.0.dom().contains(id) {
                let k = choose|k: int| 0 <= k < before.1.len() && (#[trigger] before.1[k]).0 == id;
                assert(after.1[k] == before.1[k]);
            } else if !after.0.dom().contains(id) {
                assert(events[n - 1] is Ok);
                assert(after.1[before.1.len() as int].0 == id);
            }
        }
    }
}

/// Loading ends with the first report that the transcriber is ready or cannot go on: with
/// the one it serves, with the other it is started again. Other reports change nothing.
pub proof fn law_loading_ends(events: Seq<Result<EventView, Seq<char>>>, from: int, i: int)
    requires
        0 <= from <= i <= events.len(),
        forall|j: int|
            from <= j < i ==> (#[trigger] events[j]) is Err || !(events[j]->Ok_0 is Ready
                || events[j]->Ok_0 is Fatal),
    ensures
        i == events.len() ==> startup_end(events, from) is None,
        i < events.len() && events[i] == Ok::<EventView, Seq<char>>(EventView::Ready)
            ==> startup_end(events, from) == Some(StartupExit::Ready),
        i < events.len() && events[i] is Ok && events[i]->Ok_0 is Fatal ==> startup_end(
            events,
            from,
        ) == Some(StartupExit::Restart),
    decreases i - from,
{
    if from < i {
        assert(events[from] is Err || !(events[from]->Ok_0 is Ready || events[from]->Ok_0
            is Fatal));
        law_loading_ends(events, from + 1, i);
    }
}

/// Reports are taken in one by one: a reply comes after those to the reports before it, a
/// line that is no report changes nothing, and nothing is taken in behind a report that
/// the transcriber cannot go on.
pub proof fn law_served_in_order(
    pending: Map<Seq<char>, PendingKind>,
    events: Seq<Result<EventView, Seq<char>>>,
    n: int,
    id: Seq<char>,
    text: Seq<char>,
    model: Seq<char>,
)
    requires
        0 < n <= events.len(),
    ensures
        ({
            let before = served(pending, events, n - 1);
            let after = served(pending, events, n);
            &&& before.2 || events[n - 1] is Err ==> after == before
            &&& !before.2 && events[n - 1] is Ok ==> (after.2 <==> events[n - 1]->Ok_0 is Fatal)
            &&& !before.2 && before.0.dom().contains(id) && before.0[id]
                == PendingKind::Transcribe && events[n - 1] == Ok::<EventView, Seq<char>>(
                EventView::Result(id, text, model),
            ) ==> after.1 == before.1.push((id, PendingKind::Transcribe, AnswerView::Text(text)))
                && !after.0.dom().contains(id)
            &&& !before.2 && before.0.dom().contains(id) && events[n - 1] == Ok::<
                EventView,
                Seq<char>,
            >(EventView::Error(Some(id), text)) ==> after.1 == before.1.push(
                (id, before.0[id], AnswerView::Failed(text)),
            ) && !after.0.dom().contains(id)
        }),
        served(pending, events, 0) == (pending, Seq::<ReplyView>::empty(), false),
{
}

/// Every caller that waits is told when the commands are turned down, in their order.
pub proof fn law_rejections(queued: Seq<WorkerCommand>, message: Seq<char>, n: int)
    requires
        0 < n <= queued.len(),
    ensures
        rejections(queued, message, 0).len() == 0,
        queued[n - 1] matches WorkerCommand::Transcribe { request } ==> rejections(
            queued,
            message,
            n,
        ) == rejections(queued, message, n - 1).push(
            (request.id@, PendingKind::Transcribe, AnswerView::Failed(message)),
        ),
        queued[n - 1] matches WorkerCommand::Health { request } ==> rejections(queued, message, n)
            == rejections(queued, message, n - 1).push(
            (request.id@, PendingKind::Health, AnswerView::Failed(message)),
        ),
        queued[n - 1] is Cancel || queued[n - 1] is Shutdown ==> rejections(queued, message, n)
            == rejections(queued, message, n - 1),
        forall|id: Seq<char>|
            #[trigger] carries(id)(queued[n - 1]) <==> match queued[n - 1] {
                WorkerCommand::Transcribe { request } => request.id@ == id,
                WorkerCommand::Health { request } => request.id@ == id,
                _ => false,
            },
{
}

} // verus!
