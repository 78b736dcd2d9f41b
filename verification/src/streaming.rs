//! Text that comes in while one speaks.

use crate::text::{chars_of, decode, decoded, lemma_until, text_of, trim, trimmed, until, views};
use vstd::prelude::*;

verus! {

/// The lines that are complete, trimmed, without the blank ones.
pub open spec fn complete_lines(s: Seq<char>) -> Seq<Seq<char>>
    decreases s.len(),
{
    let n = until(s, '\n');
    if 0 <= n < s.len() {
        let line = trimmed(s.take(n));
        let rest = complete_lines(s.skip(n + 1));
        if line.len() == 0 {
            rest
        } else {
            seq![line] + rest
        }
    } else {
        Seq::empty()
    }
}

/// What comes after the last line that is complete.
pub open spec fn unfinished(s: Seq<char>) -> Seq<char>
    decreases s.len(),
{
    let n = until(s, '\n');
    if 0 <= n < s.len() {
        unfinished(s.skip(n + 1))
    } else {
        s
    }
}

/// Text that has come in and does not make up a line yet.
#[derive(Debug)]
pub struct LineBuffer {
    pub text: String,
}

impl LineBuffer {
    /// Nothing has come in.
    pub fn new() -> (r: Self)
        ensures
            r.text@.len() == 0,
    {
        LineBuffer { text: String::new() }
    }

    /// Takes a chunk in. Gives the lines that it completes.
    pub fn push(&mut self, chunk: &str) -> (r: Vec<String>)
        ensures
            views(r@) == complete_lines(old(self).text@ + chunk@),
            final(self).text@ == unfinished(old(self).text@ + chunk@),
    {
        let ghost all = self.text@ + chunk@;
        self.text.append(chunk);
        let v = chars_of(self.text.as_str());
        let n: usize = v.len();
        let mut out: Vec<String> = Vec::new();
        let mut start: usize = 0;
        let mut i: usize = 0;
        assert(all.skip(0) =~= all);
        assert(views(out@) =~= Seq::empty());
        assert(views(out@) + complete_lines(all) =~= complete_lines(all));
        while i < n
            invariant
                start <= i <= n,
                n == all.len(),
                v@ == all,
                forall|k: int| start <= k < i ==> all[k] != '\n',
                views(out@) + complete_lines(all.skip(start as int)) == complete_lines(all),
                unfinished(all.skip(start as int)) == unfinished(all),
            decreases n - i,
        {
            if v[i] == '\n' {
                let ghost rest = all.skip(start as int);
                proof {
                    lemma_until(rest, '\n');
                    assert(rest[i - start] == '\n');
                    assert forall|k: int| 0 <= k < i - start implies rest[k] != '\n' by {
                        assert(rest[k] == all[start + k]);
                    }
                    assert(until(rest, '\n') == i - start);
                    assert(rest.skip(i - start + 1) =~= all.skip(i as int + 1));
                    assert(rest.take(i - start) =~= all.subrange(start as int, i as int));
                }
                let line = trim(text_of(&v, start, i).as_str());
                if !line.as_str().is_empty() {
                    let ghost before = out@;
                    let ghost lv = line@;
                    out.push(line);
                    assert(views(out@) =~= views(before).push(lv));
                    assert(views(before) + (seq![lv] + complete_lines(all.skip(i as int + 1)))
                        =~= views(out@) + complete_lines(all.skip(i as int + 1)));
                } else {
                    assert(line@.len() == 0);
                }
                start = i + 1;
            }
            i += 1;
        }
        let ghost rest = all.skip(start as int);
        proof {
            lemma_until(rest, '\n');
            if 0 <= until(rest, '\n') < rest.len() {
                assert(rest[until(rest, '\n')] == all[start + until(rest, '\n')]);
            }
            assert(complete_lines(rest) =~= Seq::empty());
            assert(views(out@) + complete_lines(rest) =~= views(out@));
            assert(all.subrange(start as int, n as int) =~= rest);
        }
        self.text = text_of(&v, start, n);
        out
    }

    /// Takes a chunk in as the program wrote it. Gives the lines that it completes.
    pub fn push_bytes(&mut self, chunk: &Vec<u8>) -> (r: Vec<String>)
        ensures
            views(r@) == complete_lines(old(self).text@ + decoded(chunk@)),
            final(self).text@ == unfinished(old(self).text@ + decoded(chunk@)),
    {
        self.push(decode(chunk).as_str())
    }
}

proof fn lemma_until_append(a: Seq<char>, b: Seq<char>)
    ensures
        until(a, '\n') < a.len() ==> until(a + b, '\n') == until(a, '\n'),
        until(a, '\n') == a.len() ==> until(a + b, '\n') == a.len() + until(b, '\n'),
{
    lemma_until(a, '\n');
    lemma_until(b, '\n');
    lemma_until(a + b, '\n');
    let u = until(a + b, '\n');
    let ua = until(a, '\n');
    let ub = until(b, '\n');
    if ua < a.len() {
        assert((a + b)[ua] == a[ua]);
        if u < ua {
            assert((a + b)[u] == a[u]);
        }
    } else {
        if u < a.len() {
            assert((a + b)[u] == a[u]);
        } else if u < a.len() + ub {
            assert((a + b)[u] == b[u - a.len()]);
        } else if ub < b.len() {
            assert((a + b)[a.len() + ub] == b[ub]);
        }
    }
}

/// How the text is cut into chunks does not matter: two chunks, one after the other, give
/// the same lines and leave the same rest as both at once.
pub proof fn law_chunks_do_not_matter(a: Seq<char>, b: Seq<char>)
    ensures
        complete_lines(a + b) == complete_lines(a) + complete_lines(unfinished(a) + b),
        unfinished(a + b) == unfinished(unfinished(a) + b),
    decreases a.len(),
{
    lemma_until(a, '\n');
    lemma_until_append(a, b);
    let n = until(a, '\n');
    if 0 <= n < a.len() {
        let rest = a.skip(n + 1);
        assert((a + b).skip(n + 1) =~= rest + b);
        assert((a + b).take(n) =~= a.take(n));
        law_chunks_do_not_matter(rest, b);
        let line = trimmed(a.take(n));
        if line.len() > 0 {
            assert(seq![line] + (complete_lines(rest) + complete_lines(unfinished(rest) + b))
                =~= (seq![line] + complete_lines(rest)) + complete_lines(unfinished(rest) + b));
        }
    } else {
        assert(complete_lines(a) =~= Seq::empty());
        assert(complete_lines(a) + complete_lines(a + b) =~= complete_lines(a + b));
    }
}

/// What a program that transcribes live reports.
#[derive(Debug)]
pub enum StreamEvent {
    Ready,
    /// What it makes of the words so far.
    Partial { text: String },
    /// What it makes of the words for good.
    Final { text: String },
    Error { message: String },
}

/// A dictation that is transcribed live.
#[derive(Debug)]
pub struct StreamingSession {
    pub ready: bool,
    pub final_text: Option<String>,
    pub error_text: Option<String>,
    pub cancelled: bool,
}

impl StreamingSession {
    /// Nothing has come in.
    pub fn new() -> (r: Self)
        ensures
            !r.ready,
            r.final_text is None,
            r.error_text is None,
            !r.cancelled,
    {
        StreamingSession { ready: false, final_text: None, error_text: None, cancelled: false }
    }

    /// Takes in a report. Gives the text to show meanwhile.
    pub fn handle(&mut self, event: StreamEvent) -> (r: Option<String>)
        ensures
            match event {
                StreamEvent::Ready => r is None && *final(self) == (StreamingSession {
                    ready: true,
                    ..*old(self)
                }),
                StreamEvent::Partial { text } => r == Some(text) && *final(self) == *old(self),
                StreamEvent::Final { text } => r is None && *final(self) == (StreamingSession {
                    final_text: Some(text),
                    ..*old(self)
                }),
                StreamEvent::Error { message } => r is None && *final(self) == (
                StreamingSession { error_text: Some(message), ..*old(self) }),
            },
    {
        match event {
            StreamEvent::Ready => {
                self.ready = true;
                None
            },
            StreamEvent::Partial { text } => Some(text),
            StreamEvent::Final { text } => {
                self.final_text = Some(text);
                None
            },
            StreamEvent::Error { message } => {
                self.error_text = Some(message);
                None
            },
        }
    }

    /// Cancels the dictation.
    pub fn cancel(&mut self)
        ensures
            *final(self) == (StreamingSession { cancelled: true, ..*old(self) }),
    {
        self.cancelled = true;
    }

    /// The text of the dictation, once the program has ended. One that was cancelled has
    /// none, whatever went wrong.
    pub fn finish(self) -> (r: Result<String, String>)
        ensures
            if self.cancelled {
                r is Ok && r->Ok_0@.len() == 0
            } else if self.error_text is Some {
                r is Err && r->Err_0 == self.error_text->0
            } else {
                match self.final_text {
                    Some(t) => r is Ok && r->Ok_0 == t,
                    None => r is Ok && r->Ok_0@.len() == 0,
                }
            },
    {
        if self.cancelled {
            return Ok(String::new());
        }
        match self.error_text {
            Some(e) => Err(e),
            None => match self.final_text {
                Some(t) => Ok(t),
                None => Ok(String::new()),
            },
        }
    }
}

/// Text is taken in line by line: what stands before a line feed is a line, without the
/// white space around it, unless it is blank; what stands behind the last one is not
/// complete yet.
pub proof fn law_line_by_line(line: Seq<char>, rest: Seq<char>)
    requires
        !line.contains('\n'),
    ensures
        complete_lines(line + seq!['\n'] + rest) == if crate::text::all_space(line) {
            complete_lines(rest)
        } else {
            seq![trimmed(line)] + complete_lines(rest)
        },
        unfinished(line + seq!['\n'] + rest) == unfinished(rest),
        complete_lines(line).len() == 0,
        unfinished(line) == line,
{
    let all = line + seq!['\n'] + rest;
    let n = line.len() as int;
    crate::text::law_blank(line);
    assert(all[n] == '\n');
    assert forall|k: int| 0 <= k < n implies all[k] != '\n' && line[k] != '\n' by {
        assert(line.contains(line[k]));
    }
    lemma_until(all, '\n');
    lemma_until(line, '\n');
    assert(until(all, '\n') == n && until(line, '\n') == n);
    assert(all.take(n) =~= line);
    assert(all.skip(n + 1) =~= rest);
}

} // verus!
