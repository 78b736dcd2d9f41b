//! Noticing that a call has begun.

use crate::artifacts::{escape, escaped};
use crate::text::{
    chars_of, decode, decoded, joined, joined3, lines, lines_of, text_of, trim, trimmed, views,
};
use vstd::prelude::*;

verus! {

/// Seconds after a notification in which there is no other.
pub const DEBOUNCE_SECS: u64 = 30;

/// How many programs are known to make calls.
pub const CALL_APP_COUNT: usize = 11;

/// The programs that make calls, as the system lists them.
pub open spec fn call_processes() -> Seq<Seq<char>> {
    seq![
        "zoom.us"@,
        "CptHost"@,
        "Microsoft Teams"@,
        "FaceTime"@,
        "avconferenced"@,
        "callservicesd"@,
        "Slack"@,
        "Slack Helper"@,
        "Webex"@,
        "Discord"@,
        "Skype"@,
    ]
}

/// What those programs are called.
pub open spec fn call_names() -> Seq<Seq<char>> {
    seq![
        "Zoom"@,
        "Zoom"@,
        "Teams"@,
        "FaceTime"@,
        "FaceTime/Phone"@,
        "Phone Call"@,
        "Slack"@,
        "Slack"@,
        "Webex"@,
        "Discord"@,
        "Skype"@,
    ]
}

/// The programs that make calls: as the system lists them, and what they are called.
pub fn call_apps() -> (r: Vec<(&'static str, &'static str)>)
    ensures
        r@.len() == CALL_APP_COUNT,
        forall|i: int|
            0 <= i < CALL_APP_COUNT ==> (#[trigger] r@[i]).0@ == call_processes()[i] && r@[i].1@
                == call_names()[i],
{
    let mut out: Vec<(&'static str, &'static str)> = Vec::new();
    out.push(("zoom.us", "Zoom"));
    out.push(("CptHost", "Zoom"));
    out.push(("Microsoft Teams", "Teams"));
    out.push(("FaceTime", "FaceTime"));
    out.push(("avconferenced", "FaceTime/Phone"));
    out.push(("callservicesd", "Phone Call"));
    out.push(("Slack", "Slack"));
    out.push(("Slack Helper", "Slack"));
    out.push(("Webex", "Webex"));
    out.push(("Discord", "Discord"));
    out.push(("Skype", "Skype"));
    out
}

/// What follows the last slash.
pub open spec fn after_slash(s: Seq<char>) -> Seq<char>
    decreases s.len(),
{
    if s.len() == 0 {
        s
    } else if s.last() == '/' {
        Seq::empty()
    } else {
        after_slash(s.drop_last()).push(s.last())
    }
}

/// The name of the program on a line of the list of processes.
pub open spec fn program_on(line: Seq<char>) -> Seq<char> {
    trimmed(after_slash(line))
}

fn read_program(line: &str) -> (r: String)
    ensures
        r@ == program_on(line@),
{
    let v = chars_of(line);
    let n: usize = v.len();
    let mut i: usize = n;
    assert(line@.take(n as int) =~= line@);
    assert(line@.skip(n as int) =~= Seq::empty());
    assert(after_slash(line@.take(n as int)) + line@.skip(n as int) =~= after_slash(line@));
    while i > 0 && v[i - 1] != '/'
        invariant
            i <= n,
            n == line@.len(),
            v@ == line@,
            after_slash(line@) == after_slash(line@.take(i as int)) + line@.skip(i as int),
        decreases i,
    {
        let ghost s = line@.take(i as int);
        assert(s.last() == line@[i as int - 1]);
        assert(s.drop_last() =~= line@.take(i as int - 1));
        assert(after_slash(s.drop_last()).push(s.last()) + line@.skip(i as int) =~= after_slash(
            s.drop_last(),
        ) + line@.skip(i as int - 1));
        i -= 1;
    }
    proof {
        let s = line@.take(i as int);
        if i > 0 {
            assert(s.last() == line@[i as int - 1]);
        }
        assert(after_slash(s) =~= Seq::empty());
        assert(Seq::<char>::empty() + line@.skip(i as int) =~= line@.skip(i as int));
        assert(line@.subrange(i as int, n as int) =~= line@.skip(i as int));
    }
    trim(text_of(&v, i, n).as_str())
}

/// One of the lines names this program.
pub open spec fn runs(all: Seq<Seq<char>>, program: Seq<char>) -> bool {
    exists|k: int| 0 <= k < all.len() && program_on(#[trigger] all[k]) == program
}

/// The first of the known programs, from `i` on, that runs.
pub open spec fn first_running(all: Seq<Seq<char>>, i: int) -> Option<int>
    decreases CALL_APP_COUNT - i,
{
    if i >= CALL_APP_COUNT {
        None
    } else if runs(all, call_processes()[i]) {
        Some(i)
    } else {
        first_running(all, i + 1)
    }
}

/// The program that makes the call, out of the list of processes.
pub fn detect_call_app(processes: &str) -> (r: Option<String>)
    ensures
        match first_running(lines_of(processes@), 0) {
            Some(i) => r is Some && r->0@ == call_names()[i],
            None => r is None,
        },
{
    let all = lines(processes);
    let ghost texts = views(all@);
    let apps = call_apps();
    let mut programs: Vec<String> = Vec::new();
    let mut p: usize = 0;
    while p < all.len()
        invariant
            p <= all@.len(),
            texts == views(all@),
            programs@.len() == p,
            forall|k: int| 0 <= k < p ==> (#[trigger] programs@[k])@ == program_on(texts[k]),
        decreases all@.len() - p,
    {
        assert(texts[p as int] == all@[p as int]@);
        programs.push(read_program(all[p].as_str()));
        p += 1;
    }
    assert(texts.len() == all@.len());
    let mut i: usize = 0;
    while i < apps.len()
        invariant
            i <= CALL_APP_COUNT,
            apps@.len() == CALL_APP_COUNT,
            texts == lines_of(processes@),
            programs@.len() == texts.len(),
            forall|k: int|
                0 <= k < texts.len() ==> (#[trigger] programs@[k])@ == program_on(texts[k]),
            forall|k: int|
                0 <= k < CALL_APP_COUNT ==> (#[trigger] apps@[k]).0@ == call_processes()[k]
                    && apps@[k].1@ == call_names()[k],
            first_running(texts, 0) == first_running(texts, i as int),
        decreases CALL_APP_COUNT - i,
    {
        assert(apps@[i as int].0@ == call_processes()[i as int]);
        if crate::text::listed(&programs, apps[i].0) {
            proof {
                let k = choose|k: int|
                    0 <= k < programs@.len() && views(programs@)[k] == apps@[i as int].0@;
                assert(views(programs@)[k] == programs@[k]@);
                assert(program_on(texts[k]) == call_processes()[i as int]);
            }
            return Some(apps[i].1.to_owned());
        }
        proof {
            if runs(texts, call_processes()[i as int]) {
                let k = choose|k: int|
                    0 <= k < texts.len() && program_on(#[trigger] texts[k])
                        == call_processes()[i as int];
                assert(views(programs@)[k] == programs@[k]@);
                assert(views(programs@).contains(apps@[i as int].0@));
            }
        }
        i += 1;
    }
    None
}

/// The program that makes the call, out of the list of processes as it is printed.
pub fn call_app_in(output: &Vec<u8>) -> (r: Option<String>)
    ensures
        match first_running(lines_of(decoded(output@)), 0) {
            Some(i) => r is Some && r->0@ == call_names()[i],
            None => r is None,
        },
{
    detect_call_app(decode(output).as_str())
}

/// The title of the notification about a call.
pub fn notification_title(call_app: Option<&str>) -> (r: String)
    ensures
        r@ == match call_app {
            Some(name) => name@ + " — Call Detected"@,
            None => "Call Detected"@,
        },
{
    match call_app {
        Some(name) => joined(name, " — Call Detected"),
        None => "Call Detected".to_owned(),
    }
}

/// The script that shows a notification where the system's own way is not open.
pub fn notification_script(title: &str, text: &str) -> (r: String)
    ensures
        r@ == "display notification \""@ + escaped(text@) + "\" with title \""@ + escaped(title@)
            + "\""@,
{
    let first = joined3(
        "display notification \"",
        escape(text).as_str(),
        "\" with title \"",
    );
    joined3(first.as_str(), escape(title).as_str(), "\"")
}

/// The microphone, as it was seen last. Times are in milliseconds on a clock that never
/// goes back.
#[derive(Debug)]
pub struct CallWatch {
    pub was_running: bool,
    /// When the last notification was.
    pub notified: Option<u64>,
}

/// A notification may follow the last one.
pub open spec fn calm(notified: Option<u64>, now: u64) -> bool {
    match notified {
        Some(last) => now - last >= DEBOUNCE_SECS as int * 1000,
        None => true,
    }
}

impl CallWatch {
    /// Begins to watch. Says whether to notify: a call may be under way already.
    pub fn begin(is_running: bool, now: u64) -> (r: (Self, bool))
        ensures
            r.1 == is_running,
            r.0.was_running == is_running,
            r.0.notified == if is_running {
                Some(now)
            } else {
                None
            },
    {
        let notified = if is_running {
            Some(now)
        } else {
            None
        };
        (CallWatch { was_running: is_running, notified }, is_running)
    }

    /// Takes in that something changed. Says whether to notify: when the microphone has
    /// just come to be used, and the last notification is not too recent.
    pub fn changed(&mut self, is_running: bool, now: u64) -> (r: bool)
        ensures
            r == (is_running && !old(self).was_running && calm(old(self).notified, now)),
            final(self).was_running == is_running,
            final(self).notified == if r {
                Some(now)
            } else {
                old(self).notified
            },
    {
        let quiet = match self.notified {
            Some(last) => now >= last && now - last >= DEBOUNCE_SECS * 1000,
            None => true,
        };
        let notify = is_running && !self.was_running && quiet;
        if notify {
            self.notified = Some(now);
        }
        self.was_running = is_running;
        notify
    }
}

/// What to do about the watch when the settings change.
#[derive(Clone, Copy, Debug, PartialEq, Eq, Structural)]
pub enum WatchChange {
    Start,
    Stop,
    Nothing,
}

/// What to do about the watch when the settings change.
pub fn sync_detector(watching: bool, enabled: bool) -> (r: WatchChange)
    ensures
        r == if enabled && !watching {
            WatchChange::Start
        } else if !enabled && watching {
            WatchChange::Stop
        } else {
            WatchChange::Nothing
        },
{
    if enabled && !watching {
        WatchChange::Start
    } else if !enabled && watching {
        WatchChange::Stop
    } else {
        WatchChange::Nothing
    }
}

/// Two notifications are never closer than the time between them allows, however the
/// microphone is used.
pub proof fn law_notifications_are_apart(last: u64, now: u64, is_running: bool, was_running: bool)
    requires
        is_running && !was_running && calm(Some(last), now),
    ensures
        last + DEBOUNCE_SECS * 1000 <= now,
{
}

/// The program on a line is what follows the last slash, without the white space around it.
pub proof fn law_program_on_line(path: Seq<char>, name: Seq<char>)
    requires
        !name.contains('/'),
    ensures
        program_on(path.push('/') + name) == trimmed(name),
        program_on(name) == trimmed(name),
{
    lemma_after_slash(path.push('/'), name);
    lemma_after_slash(Seq::empty(), name);
    assert(Seq::<char>::empty() + name =~= name);
    assert(path.push('/').last() == '/');
}

proof fn lemma_after_slash(front: Seq<char>, name: Seq<char>)
    requires
        !name.contains('/'),
        front.len() == 0 || front.last() == '/',
    ensures
        after_slash(front + name) == name,
    decreases name.len(),
{
    if name.len() == 0 {
        assert(front + name =~= front);
        assert(after_slash(front) =~= name);
    } else {
        let less = name.drop_last();
        if less.contains('/') {
            let k = choose|k: int| 0 <= k < less.len() && less[k] == '/';
            assert(name[k] == '/');
        }
        lemma_after_slash(front, less);
        assert((front + name).drop_last() =~= front + less);
        assert((front + name).last() == name.last());
        assert(name.contains(name.last()));
        assert(less.push(name.last()) =~= name);
    }
}

/// The program that is told is one that runs, and no program before it in the list of known
/// ones does; none is told exactly if none of them runs.
pub proof fn law_first_running(all: Seq<Seq<char>>, from: int)
    requires
        0 <= from <= CALL_APP_COUNT,
    ensures
        match first_running(all, from) {
            Some(i) => {
                &&& from <= i < CALL_APP_COUNT
                &&& exists|k: int|
                    0 <= k < all.len() && program_on(#[trigger] all[k]) == call_processes()[i]
                &&& forall|j: int, k: int|
                    from <= j < i && 0 <= k < all.len() ==> program_on(#[trigger] all[k])
                        != #[trigger] call_processes()[j]
            },
            None => forall|j: int, k: int|
                from <= j < CALL_APP_COUNT && 0 <= k < all.len() ==> program_on(#[trigger] all[k])
                    != #[trigger] call_processes()[j],
        },
    decreases CALL_APP_COUNT - from,
{
    if from < CALL_APP_COUNT {
        if runs(all, call_processes()[from]) {
        } else {
            law_first_running(all, from + 1);
            assert forall|k: int| 0 <= k < all.len() implies program_on(#[trigger] all[k])
                != call_processes()[from] by {}
        }
    }
}

/// A first notification may come at any time, and the next once the time between them has
/// passed.
pub proof fn law_calm(last: u64, now: u64)
    ensures
        calm(None, now),
        calm(Some(last), now) <==> now >= last + DEBOUNCE_SECS * 1000,
{
}

} // verus!
